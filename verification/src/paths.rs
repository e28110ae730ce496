//! From a decoded request target to a filesystem decision.
//!
//! A target is either absent, the server root `/`, or a path that, with the
//! leading `/` stripped, names an entry under the working directory. What
//! the filesystem says of that entry then picks the response: a file is
//! streamed, a directory is listed, and anything else gets the not-found
//! response, which also closes the case of an entry that is neither.

use crate::request::subrange_vec;
use vstd::prelude::*;

verus! {

/// The bytes of the bare root target `/`.
pub open spec fn root_path() -> Seq<u8> {
    seq![47u8]
}

/// What a decoded request target names.
pub enum Target {
    /// No target: the request line held no well-formed request, or the
    /// target did not begin with `/`.
    Absent,
    /// The bare `/`: the server root directory.
    RootDir,
    /// A path under the server root, the leading `/` stripped.
    Entry(Vec<u8>),
}

/// What is to be written back for one request.
pub enum Resolution {
    /// Stream the file at the path.
    ServeFile(Vec<u8>),
    /// List the directory at the path.
    ListDir(Vec<u8>),
    /// The not-found response with its fixed body.
    NotFound,
}

impl Target {
    /// Sorts a decoded target: absent stays absent, `/` is the root, and a
    /// `/`-prefixed path is an entry named by the rest; a target without a
    /// leading `/` is treated as absent.
    pub fn classify(t: Option<Vec<u8>>) -> (r: Target)
        ensures
            (match t {
                Option::None => r == Target::Absent,
                Option::Some(p) => if p@ == root_path() {
                    r == Target::RootDir
                } else if p@.len() > 0 && p@[0] == 47 {
                    r matches Target::Entry(e) && e@ == p@.drop_first()
                } else {
                    r == Target::Absent
                },
            }),
    {
        match t {
            Option::None => Target::Absent,
            Option::Some(p) => {
                if p.len() == 1 && p[0] == 47 {
                    proof {
                        assert(p@ =~= root_path());
                    }
                    Target::RootDir
                } else if p.len() > 0 && p[0] == 47 {
                    let rest = subrange_vec(&p, 1, p.len());
                    proof {
                        assert(p@ != root_path()) by {
                            if p@ == root_path() {
                                assert(p@.len() == 1);
                            }
                        }
                        assert(rest@ =~= p@.drop_first());
                    }
                    Target::Entry(rest)
                } else {
                    proof {
                        assert(p@ != root_path()) by {
                            if p@ == root_path() {
                                assert(p@.len() == 1 && p@[0] == 47);
                            }
                        }
                    }
                    Target::Absent
                }
            },
        }
    }
}

impl Resolution {
    /// Picks the response for an entry path from what the filesystem says
    /// of it: a regular file is served, otherwise a directory is listed,
    /// and a path that is neither gets the not-found response.
    pub fn of_entry(path: Vec<u8>, is_file: bool, is_dir: bool) -> (r: Resolution)
        ensures
            is_file ==> (r matches Resolution::ServeFile(p) && p@ == path@),
            !is_file && is_dir ==> (r matches Resolution::ListDir(p) && p@ == path@),
            !is_file && !is_dir ==> r == Resolution::NotFound,
    {
        if is_file {
            Resolution::ServeFile(path)
        } else if is_dir {
            Resolution::ListDir(path)
        } else {
            Resolution::NotFound
        }
    }
}

/// The base name of `path` begins at `k`: a `/` stands right before it and
/// none at or after it; `k` is 0 when the path holds no `/`.
pub open spec fn name_start_at(s: Seq<u8>, k: int) -> bool {
    0 <= k <= s.len() && (k == 0 || s[k - 1] == 47) && (forall|m: int|
        k <= m < s.len() ==> s[m] != 47)
}

/// A dot at `p` begins the extension of `s`: it lies inside the base name
/// but not at its first position, and no dot follows it.
pub open spec fn ext_dot_at(s: Seq<u8>, p: int) -> bool {
    exists|k: int|
        #![auto]
        name_start_at(s, k) && k < p < s.len() && s[p] == 46 && (forall|m: int|
            p < m < s.len() ==> s[m] != 46)
}

/// The position where the base name of `path` begins.
pub fn find_name_start(path: &Vec<u8>) -> (k: usize)
    ensures
        name_start_at(path@, k as int),
{
    let n = path.len();
    let mut k: usize = n;
    while k > 0 && path[k - 1] != 47
        invariant
            k <= n,
            n == path@.len(),
            forall|m: int| k <= m < path@.len() ==> path@[m] != 47,
        decreases k,
    {
        k = k - 1;
    }
    k
}

/// The base name of `path`: the bytes after its last `/`, the whole path
/// when it holds none.
pub fn file_name_of(path: &Vec<u8>) -> (r: Vec<u8>)
    ensures
        exists|k: int|
            #![auto]
            name_start_at(path@, k) && r@ == path@.subrange(k, path@.len() as int),
{
    let k = find_name_start(path);
    subrange_vec(path, k, path.len())
}

/// The extension of `path`: the bytes of its base name after the last dot,
/// absent when the base name holds no dot past its first position.
pub fn extension_of(path: &Vec<u8>) -> (r: Option<Vec<u8>>)
    ensures
        match r {
            Option::None => forall|p: int| !ext_dot_at(path@, p),
            Option::Some(e) => exists|p: int|
                #![auto]
                ext_dot_at(path@, p) && e@ == path@.subrange(p + 1, path@.len() as int),
        },
{
    let n = path.len();
    let k = find_name_start(path);
    let mut p: usize = n;
    while p > k && path[p - 1] != 46
        invariant
            k <= p <= n,
            n == path@.len(),
            name_start_at(path@, k as int),
            forall|m: int| p <= m < path@.len() ==> path@[m] != 46,
        decreases p,
    {
        p = p - 1;
    }
    if p > 0 && p - 1 > k {
        proof {
            assert(ext_dot_at(path@, p - 1));
        }
        Some(subrange_vec(path, p, n))
    } else {
        proof {
            assert forall|q: int| !ext_dot_at(path@, q) by {
                if ext_dot_at(path@, q) {
                    let k2 = choose|k2: int|
                        #![auto]
                        name_start_at(path@, k2) && k2 < q < path@.len() && path@[q] == 46 && (
                        forall|m: int| q < m < path@.len() ==> path@[m] != 46);
                    assert(k2 == k as int);
                    assert(q >= p as int);
                    assert(path@[q] != 46);
                }
            }
        }
        None
    }
}

} // verus!
