//! The extension-to-content-type table.
//!
//! A fixed, read-only mapping from lowercase file extension (no dot) to the
//! `Content-type` a file response carries. The lookup lowercases its key
//! first, so `IMG.PNG` and `img.png` resolve alike; an extension the table
//! does not hold, and a path without one, fall back to
//! `application/octet-stream`.

use crate::paths::ext_dot_at;
use crate::paths::extension_of;
use crate::util::ascii;
use crate::util::bytes_eq;
use crate::util::lit_bytes;
use vstd::prelude::*;

verus! {

/// ASCII lowercase of one byte.
pub open spec fn lower_byte(b: u8) -> u8 {
    if 65 <= b && b <= 90 {
        (b + 32) as u8
    } else {
        b
    }
}

/// ASCII lowercase of a byte sequence.
pub open spec fn lower(s: Seq<u8>) -> Seq<u8> {
    Seq::new(s.len(), |i: int| lower_byte(s[i]))
}

/// The content type the table holds for the lowercase extension `e`;
/// `application/octet-stream` for one it does not hold.
pub open spec fn mime_of(e: Seq<u8>) -> Seq<u8> {
    if e == ascii("html"@) {
        ascii("text/html"@)
    } else if e == ascii("htm"@) {
        ascii("text/html"@)
    } else if e == ascii("xhtml"@) {
        ascii("text/html"@)
    } else if e == ascii("css"@) {
        ascii("text/css"@)
    } else if e == ascii("js"@) {
        ascii("text/javascript"@)
    } else if e == ascii("jpg"@) {
        ascii("image/jpeg"@)
    } else if e == ascii("jpeg"@) {
        ascii("image/jpeg"@)
    } else if e == ascii("png"@) {
        ascii("image/png"@)
    } else if e == ascii("ico"@) {
        ascii("image/x-icon"@)
    } else if e == ascii("svg"@) {
        ascii("image/svg+xml"@)
    } else if e == ascii("gif"@) {
        ascii("image/gif"@)
    } else if e == ascii("avif"@) {
        ascii("image/avif"@)
    } else if e == ascii("webp"@) {
        ascii("image/webp"@)
    } else if e == ascii("pdf"@) {
        ascii("application/pdf"@)
    } else if e == ascii("json"@) {
        ascii("application/json"@)
    } else if e == ascii("mp4"@) {
        ascii("video/mp4"@)
    } else if e == ascii("mp3"@) {
        ascii("video/mp3"@)
    } else if e == ascii("txt"@) {
        ascii("text/plain"@)
    } else {
        ascii("application/octet-stream"@)
    }
}

/// ASCII lowercase of every byte of `s`.
pub fn ascii_lowercase(s: &Vec<u8>) -> (r: Vec<u8>)
    ensures
        r@ == lower(s@),
{
    let mut r: Vec<u8> = Vec::new();
    let mut i: usize = 0;
    while i < s.len()
        invariant
            i <= s@.len(),
            r@.len() == i,
            forall|k: int| 0 <= k < i ==> r@[k] == lower_byte(s@[k]),
        decreases s@.len() - i,
    {
        let b = s[i];
        if 65 <= b && b <= 90 {
            r.push(b + 32);
        } else {
            r.push(b);
        }
        i = i + 1;
    }
    proof {
        assert(r@ =~= lower(s@));
    }
    r
}

/// The content type for the extension `ext`, its case ignored: the table
/// looked up with the lowercase of `ext`.
pub fn lookup_content_type(ext: &Vec<u8>) -> (r: Vec<u8>)
    ensures
        r@ == mime_of(lower(ext@)),
{
    proof {
        reveal_strlit("html");
        reveal_strlit("htm");
        reveal_strlit("xhtml");
        reveal_strlit("css");
        reveal_strlit("js");
        reveal_strlit("jpg");
        reveal_strlit("jpeg");
        reveal_strlit("png");
        reveal_strlit("ico");
        reveal_strlit("svg");
        reveal_strlit("gif");
        reveal_strlit("avif");
        reveal_strlit("webp");
        reveal_strlit("pdf");
        reveal_strlit("json");
        reveal_strlit("mp4");
        reveal_strlit("mp3");
        reveal_strlit("txt");
        reveal_strlit("text/html");
        reveal_strlit("text/css");
        reveal_strlit("text/javascript");
        reveal_strlit("image/jpeg");
        reveal_strlit("image/png");
        reveal_strlit("image/x-icon");
        reveal_strlit("image/svg+xml");
        reveal_strlit("image/gif");
        reveal_strlit("image/avif");
        reveal_strlit("image/webp");
        reveal_strlit("application/pdf");
        reveal_strlit("application/json");
        reveal_strlit("video/mp4");
        reveal_strlit("video/mp3");
        reveal_strlit("text/plain");
        reveal_strlit("application/octet-stream");
    }
    let e = ascii_lowercase(ext);
    if bytes_eq(&e, &lit_bytes("html")) {
        lit_bytes("text/html")
    } else if bytes_eq(&e, &lit_bytes("htm")) {
        lit_bytes("text/html")
    } else if bytes_eq(&e, &lit_bytes("xhtml")) {
        lit_bytes("text/html")
    } else if bytes_eq(&e, &lit_bytes("css")) {
        lit_bytes("text/css")
    } else if bytes_eq(&e, &lit_bytes("js")) {
        lit_bytes("text/javascript")
    } else if bytes_eq(&e, &lit_bytes("jpg")) {
        lit_bytes("image/jpeg")
    } else if bytes_eq(&e, &lit_bytes("jpeg")) {
        lit_bytes("image/jpeg")
    } else if bytes_eq(&e, &lit_bytes("png")) {
        lit_bytes("image/png")
    } else if bytes_eq(&e, &lit_bytes("ico")) {
        lit_bytes("image/x-icon")
    } else if bytes_eq(&e, &lit_bytes("svg")) {
        lit_bytes("image/svg+xml")
    } else if bytes_eq(&e, &lit_bytes("gif")) {
        lit_bytes("image/gif")
    } else if bytes_eq(&e, &lit_bytes("avif")) {
        lit_bytes("image/avif")
    } else if bytes_eq(&e, &lit_bytes("webp")) {
        lit_bytes("image/webp")
    } else if bytes_eq(&e, &lit_bytes("pdf")) {
        lit_bytes("application/pdf")
    } else if bytes_eq(&e, &lit_bytes("json")) {
        lit_bytes("application/json")
    } else if bytes_eq(&e, &lit_bytes("mp4")) {
        lit_bytes("video/mp4")
    } else if bytes_eq(&e, &lit_bytes("mp3")) {
        lit_bytes("video/mp3")
    } else if bytes_eq(&e, &lit_bytes("txt")) {
        lit_bytes("text/plain")
    } else {
        lit_bytes("application/octet-stream")
    }
}

/// The extension of `path` at the specification level: the bytes after the
/// dot that `ext_dot_at` points at, absent when there is no such dot.
pub open spec fn spec_extension(s: Seq<u8>) -> Option<Seq<u8>> {
    if exists|p: int| ext_dot_at(s, p) {
        Some(s.subrange((choose|p: int| ext_dot_at(s, p)) + 1, s.len() as int))
    } else {
        None
    }
}

/// At most one dot begins the extension.
pub proof fn lemma_ext_dot_unique(s: Seq<u8>, p1: int, p2: int)
    requires
        ext_dot_at(s, p1),
        ext_dot_at(s, p2),
    ensures
        p1 == p2,
{
    let k1 = choose|k: int|
        #![auto]
        crate::paths::name_start_at(s, k) && k < p1 < s.len() && s[p1] == 46 && (forall|m: int|
            p1 < m < s.len() ==> s[m] != 46);
    let k2 = choose|k: int|
        #![auto]
        crate::paths::name_start_at(s, k) && k < p2 < s.len() && s[p2] == 46 && (forall|m: int|
            p2 < m < s.len() ==> s[m] != 46);
    if p1 < p2 {
        assert(s[p2] != 46);
    }
    if p2 < p1 {
        assert(s[p1] != 46);
    }
}

/// The `Content-type` served for the file at `path`: the table looked up
/// with the lowercase extension, `application/octet-stream` when the path
/// has no extension.
pub open spec fn content_type_of(path: Seq<u8>) -> Seq<u8> {
    match spec_extension(path) {
        Option::None => ascii("application/octet-stream"@),
        Option::Some(e) => mime_of(lower(e)),
    }
}

/// The `Content-type` for the file at `path`.
pub fn content_type_for(path: &Vec<u8>) -> (r: Vec<u8>)
    ensures
        r@ == content_type_of(path@),
{
    match extension_of(path) {
        Option::None => {
            proof {
                reveal_strlit("application/octet-stream");
            }
            lit_bytes("application/octet-stream")
        },
        Option::Some(e) => {
            proof {
                let p = choose|p: int|
                    #![auto]
                    ext_dot_at(path@, p) && e@ == path@.subrange(p + 1, path@.len() as int);
                let p2 = choose|p2: int| ext_dot_at(path@, p2);
                lemma_ext_dot_unique(path@, p, p2);
            }
            lookup_content_type(&e)
        },
    }
}

} // verus!
