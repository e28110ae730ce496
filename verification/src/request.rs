//! The request line and its grammar.
//!
//! A request is judged by its first line alone, which must hold the pattern
//! `GET <target> HTTP/1.1`: the word `GET `, a target that begins with `/`,
//! a letter, a digit, `%` or `.`, and the suffix ` HTTP/1.1`. The search is
//! the leftmost `GET ` that some later suffix completes, and the target runs
//! greedily to the last suffix; a line without the pattern yields no target.

use crate::codec::decoded;
use crate::codec::percent_decode;
use vstd::prelude::*;

verus! {

/// The bytes of `GET ` (a space at the end).
pub open spec fn get_prefix() -> Seq<u8> {
    seq![71u8, 69u8, 84u8, 32u8]
}

/// The bytes of ` HTTP/1.1` (a space at the front).
pub open spec fn http_suffix() -> Seq<u8> {
    seq![32u8, 72u8, 84u8, 84u8, 80u8, 47u8, 49u8, 46u8, 49u8]
}

/// Whether a request target may begin with `b`: `/`, an ASCII letter or
/// digit, `%`, or `.`.
pub open spec fn is_target_start(b: u8) -> bool {
    b == 47 || (65 <= b && b <= 90) || (97 <= b && b <= 122) || (48 <= b && b <= 57) || b == 37
        || b == 46
}

/// `GET ` stands at `i` and a target character follows it.
pub open spec fn get_at(s: Seq<u8>, i: int) -> bool {
    0 <= i && i + 5 <= s.len() && s.subrange(i, i + 4) == get_prefix() && is_target_start(
        s[i + 4],
    )
}

/// ` HTTP/1.1` stands at `j`.
pub open spec fn suffix_at(s: Seq<u8>, j: int) -> bool {
    0 <= j && j + 9 <= s.len() && s.subrange(j, j + 9) == http_suffix()
}

/// The line holds a request of the form `GET <target> HTTP/1.1` with a
/// target of at least one character.
pub open spec fn line_matches(s: Seq<u8>) -> bool {
    exists|i: int, j: int| get_at(s, i) && suffix_at(s, j) && i + 5 <= j
}

/// `i` is the first position where `GET ` and a target character stand.
pub open spec fn first_get_at(s: Seq<u8>, i: int) -> bool {
    get_at(s, i) && forall|k: int| 0 <= k < i ==> !get_at(s, k)
}

/// `j` is the last position where ` HTTP/1.1` stands.
pub open spec fn last_suffix_at(s: Seq<u8>, j: int) -> bool {
    suffix_at(s, j) && forall|k: int| k > j ==> !suffix_at(s, k)
}

/// Whether ` HTTP/1.1` stands at `j`.
fn suffix_here(line: &Vec<u8>, j: usize) -> (r: bool)
    requires
        j + 9 <= line@.len(),
    ensures
        r == suffix_at(line@, j as int),
{
    // binds the length so its usize bound is in scope for the index sums
    let _n = line.len();
    let r = line[j] == 32 && line[j + 1] == 72 && line[j + 2] == 84 && line[j + 3] == 84 && line[j
        + 4] == 80 && line[j + 5] == 47 && line[j + 6] == 49 && line[j + 7] == 46 && line[j + 8]
        == 49;
    proof {
        let s = line@;
        let sub = s.subrange(j as int, j as int + 9);
        assert(sub[0] == s[j as int] && sub[1] == s[j as int + 1] && sub[2] == s[j as int + 2]
            && sub[3] == s[j as int + 3] && sub[4] == s[j as int + 4] && sub[5] == s[j as int + 5]
            && sub[6] == s[j as int + 6] && sub[7] == s[j as int + 7] && sub[8] == s[j as int + 8]);
        if r {
            assert(sub =~= http_suffix());
        } else {
            if suffix_at(s, j as int) {
                assert(sub == http_suffix());
                assert(r);
            }
        }
    }
    r
}

/// Whether `GET ` and a target character stand at `i`.
fn get_here(line: &Vec<u8>, i: usize) -> (r: bool)
    requires
        i + 5 <= line@.len(),
    ensures
        r == get_at(line@, i as int),
{
    // binds the length so its usize bound is in scope for the index sums
    let _n = line.len();
    let b = line[i + 4];
    let start = b == 47 || (65 <= b && b <= 90) || (97 <= b && b <= 122) || (48 <= b && b <= 57)
        || b == 37 || b == 46;
    let r = line[i] == 71 && line[i + 1] == 69 && line[i + 2] == 84 && line[i + 3] == 32 && start;
    proof {
        let s = line@;
        let sub = s.subrange(i as int, i as int + 4);
        assert(sub[0] == s[i as int] && sub[1] == s[i as int + 1] && sub[2] == s[i as int + 2]
            && sub[3] == s[i as int + 3]);
        if r {
            assert(sub =~= get_prefix());
        } else {
            if get_at(s, i as int) {
                assert(sub == get_prefix());
                assert(r);
            }
        }
    }
    r
}

/// The last position where ` HTTP/1.1` stands in the line, if any.
fn find_last_suffix(line: &Vec<u8>) -> (r: Option<usize>)
    ensures
        match r {
            Option::None => forall|k: int| !suffix_at(line@, k),
            Option::Some(j) => last_suffix_at(line@, j as int),
        },
{
    if line.len() < 9 {
        return None;
    }
    let mut j: usize = line.len() - 9;
    loop
        invariant
            line@.len() >= 9,
            j <= line@.len() - 9,
            forall|k: int| k > j ==> !suffix_at(line@, k),
        decreases j,
    {
        if suffix_here(line, j) {
            return Some(j);
        }
        if j == 0 {
            return None;
        }
        j = j - 1;
    }
}

/// The first position where `GET ` and a target character stand, if any.
fn find_first_get(line: &Vec<u8>) -> (r: Option<usize>)
    ensures
        match r {
            Option::None => forall|k: int| !get_at(line@, k),
            Option::Some(i) => first_get_at(line@, i as int),
        },
{
    let n = line.len();
    if n < 5 {
        return None;
    }
    let mut i: usize = 0;
    while i <= n - 5
        invariant
            n == line@.len(),
            n >= 5,
            i <= n - 4,
            forall|k: int| 0 <= k < i ==> !get_at(line@, k),
        decreases line@.len() - i,
    {
        if get_here(line, i) {
            return Some(i);
        }
        i = i + 1;
    }
    return None;
}

/// The bytes of `v` from `a` up to `b`.
pub fn subrange_vec(v: &Vec<u8>, a: usize, b: usize) -> (r: Vec<u8>)
    requires
        a <= b,
        b <= v@.len(),
    ensures
        r@ == v@.subrange(a as int, b as int),
{
    let mut r: Vec<u8> = Vec::new();
    let mut i: usize = a;
    while i < b
        invariant
            a <= i <= b,
            b <= v@.len(),
            r@ == v@.subrange(a as int, i as int),
        decreases b - i,
    {
        r.push(v[i]);
        proof {
            assert(r@ =~= v@.subrange(a as int, i + 1));
        }
        i = i + 1;
    }
    r
}

/// The decoded request target of a request line: the text between the
/// leftmost `GET ` and the last ` HTTP/1.1`, percent-decoded; absent when
/// the line does not hold the pattern.
pub fn match_url_path(line: &Vec<u8>) -> (r: Option<Vec<u8>>)
    ensures
        match r {
            Option::None => !line_matches(line@),
            Option::Some(t) => exists|i: int, j: int|
                #![auto]
                first_get_at(line@, i) && last_suffix_at(line@, j) && i + 5 <= j && t@ == decoded(
                    line@.subrange(i + 4, j),
                ),
        },
{
    let j = match find_last_suffix(line) {
        None => {
            proof {
                if line_matches(line@) {
                    let (i2, j2): (int, int) = choose|i2: int, j2: int|
                        get_at(line@, i2) && suffix_at(line@, j2) && i2 + 5 <= j2;
                    assert(!suffix_at(line@, j2));
                }
            }
            return None;
        },
        Some(j) => j,
    };
    let i = match find_first_get(line) {
        None => {
            proof {
                if line_matches(line@) {
                    let (i2, j2): (int, int) = choose|i2: int, j2: int|
                        get_at(line@, i2) && suffix_at(line@, j2) && i2 + 5 <= j2;
                    assert(!get_at(line@, i2));
                }
            }
            return None;
        },
        Some(i) => i,
    };
    if j >= 5 && i <= j - 5 {
        let enc = subrange_vec(line, i + 4, j);
        let dec = percent_decode(&enc);
        return Some(dec);
    }
    proof {
        if line_matches(line@) {
            let (i2, j2): (int, int) = choose|i2: int, j2: int|
                get_at(line@, i2) && suffix_at(line@, j2) && i2 + 5 <= j2;
            assert(i2 >= i as int);
            assert(j2 <= j as int);
        }
    }
    None
}

/// The position right after the first line: the first line feed, or the
/// whole of `s` when it holds none.
pub open spec fn line_end_at(s: Seq<u8>, e: int) -> bool {
    0 <= e <= s.len() && (e == s.len() || s[e] == 10) && forall|k: int| 0 <= k < e ==> s[k] != 10
}

/// `s` without a trailing carriage return.
pub open spec fn strip_cr(s: Seq<u8>) -> Seq<u8> {
    if s.len() > 0 && s[s.len() - 1] == 13 {
        s.drop_last()
    } else {
        s
    }
}

/// The first line of the bytes read from a connection: what stands before
/// the first line feed, a trailing carriage return removed; absent when
/// that is empty or the stream held no data.
pub fn first_line(data: &Vec<u8>) -> (r: Option<Vec<u8>>)
    ensures
        match r {
            Option::None => exists|e: int|
                #![auto]
                line_end_at(data@, e) && strip_cr(data@.subrange(0, e)).len() == 0,
            Option::Some(l) => exists|e: int|
                #![auto]
                line_end_at(data@, e) && l@ == strip_cr(data@.subrange(0, e)) && l@.len() > 0,
        },
{
    let mut e: usize = 0;
    while e < data.len() && data[e] != 10
        invariant
            e <= data@.len(),
            forall|k: int| 0 <= k < e ==> data@[k] != 10,
        decreases data@.len() - e,
    {
        e = e + 1;
    }
    proof {
        assert(line_end_at(data@, e as int));
    }
    let mut line = subrange_vec(data, 0, e);
    if line.len() > 0 && line[line.len() - 1] == 13 {
        let _ = line.pop();
        proof {
            assert(line@ =~= strip_cr(data@.subrange(0, e as int)));
        }
    }
    if line.len() == 0 {
        None
    } else {
        Some(line)
    }
}

} // verus!
