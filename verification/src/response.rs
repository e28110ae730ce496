//! The bytes written back on a connection.
//!
//! Four responses exist: the not-found response with its fixed body, a
//! directory listing, the header block that precedes a streamed file, and
//! the bare not-found header block for a file that could not be opened.
//! Each is specified byte for byte.

use crate::mime::content_type_of;
use crate::mime::content_type_for;
use crate::paths::file_name_of;
use crate::paths::name_start_at;
use crate::util::ascii;
use crate::util::lit_bytes;
use crate::util::push_bytes;
use crate::util::push_lit;
use vstd::prelude::*;

verus! {

/// The decimal numeral of `n`, most significant digit first.
pub open spec fn dec_digits(n: nat) -> Seq<u8>
    decreases n,
{
    if n < 10 {
        seq![(48 + n) as u8]
    } else {
        dec_digits(n / 10) + seq![(48 + n % 10) as u8]
    }
}

/// The decimal numeral of `n`.
pub fn u64_to_dec(n: u64) -> (r: Vec<u8>)
    ensures
        r@ == dec_digits(n as nat),
    decreases n,
{
    if n < 10 {
        let mut v: Vec<u8> = Vec::new();
        v.push(48 + (n as u8));
        proof {
            assert(v@ =~= dec_digits(n as nat));
        }
        v
    } else {
        let mut v = u64_to_dec(n / 10);
        v.push(48 + ((n % 10) as u8));
        proof {
            assert(v@ =~= dec_digits(n as nat));
        }
        v
    }
}

/// A response that carries a body: the status line, a `Content-Length` of
/// exactly the body's byte count, a blank line, and the body.
pub open spec fn body_response(status: Seq<u8>, body: Seq<u8>) -> Seq<u8> {
    status + ascii("\r\nContent-Length: "@) + dec_digits(body.len()) + ascii("\r\n\r\n"@) + body
}

/// Builds a response around `body` under the status line `status`.
pub fn build_body_response(status: &Vec<u8>, body: &Vec<u8>) -> (r: Vec<u8>)
    ensures
        r@ == body_response(status@, body@),
{
    proof {
        reveal_strlit("\r\nContent-Length: ");
        reveal_strlit("\r\n\r\n");
    }
    let mut r: Vec<u8> = Vec::new();
    push_bytes(&mut r, status);
    push_lit(&mut r, "\r\nContent-Length: ");
    let len = u64_to_dec(body.len() as u64);
    push_bytes(&mut r, &len);
    push_lit(&mut r, "\r\n\r\n");
    push_bytes(&mut r, body);
    proof {
        assert(r@ =~= body_response(status@, body@));
    }
    r
}

/// The whole of the not-found response: its fixed body repeats the status
/// line's text.
pub open spec fn spec_not_found_response() -> Seq<u8> {
    body_response(ascii("HTTP/1.1 404 NOT Found"@), ascii("HTTP/1.1 404 NOT Found"@))
}

/// The response for an absent or unresolved target.
pub fn not_found_response() -> (r: Vec<u8>)
    ensures
        r@ == spec_not_found_response(),
{
    proof {
        reveal_strlit("HTTP/1.1 404 NOT Found");
    }
    let status = lit_bytes("HTTP/1.1 404 NOT Found");
    let body = lit_bytes("HTTP/1.1 404 NOT Found");
    build_body_response(&status, &body)
}

/// The bare not-found header block, no body and no `Content-Length`,
/// written when a file existed but could not be opened.
pub open spec fn spec_bare_not_found() -> Seq<u8> {
    ascii("HTTP/1.1 404 Not Found\r\n\r\n"@)
}

/// The minimal response for a file that vanished or refused to open.
pub fn bare_not_found_response() -> (r: Vec<u8>)
    ensures
        r@ == spec_bare_not_found(),
{
    proof {
        reveal_strlit("HTTP/1.1 404 Not Found\r\n\r\n");
    }
    lit_bytes("HTTP/1.1 404 Not Found\r\n\r\n")
}

/// What the filesystem reports a directory entry to be.
#[derive(PartialEq, Eq, Structural, Clone, Copy, Debug)]
pub enum EntryKind {
    /// A regular file.
    File,
    /// A directory.
    Dir,
    /// Anything else; such an entry is skipped in listings.
    Other,
}

/// One directory entry: its name and its reported kind.
pub struct EntryInfo {
    /// The entry's file name, as bytes.
    pub name: Vec<u8>,
    /// What the filesystem reports it to be.
    pub kind: EntryKind,
}

/// The list item rendered for one entry: a relative link, directories with
/// `/` appended to both the link target and the visible label; an entry
/// that is neither file nor directory renders nothing.
pub open spec fn li_of(name: Seq<u8>, kind: EntryKind) -> Seq<u8> {
    match kind {
        EntryKind::Dir => ascii("<li><a href='"@) + name + ascii("/'>"@) + name + ascii(
            "/</a></li>"@,
        ),
        EntryKind::File => ascii("<li><a href='"@) + name + ascii("'>"@) + name + ascii(
            "</a></li>"@,
        ),
        EntryKind::Other => Seq::empty(),
    }
}

/// The list items for the entries, in their given order.
pub open spec fn items_html(es: Seq<EntryInfo>) -> Seq<u8>
    decreases es.len(),
{
    if es.len() == 0 {
        Seq::empty()
    } else {
        li_of(es[0].name@, es[0].kind) + items_html(es.drop_first())
    }
}

/// The opening of the listing document, up to and including `<ul>`.
pub open spec fn listing_header() -> Seq<u8> {
    ascii(
        "<html lang=\"en\"><head><meta charset=\"utf-8\"><title>Directory listing for /</title></head><body><h1>Directory listing for /</h1><hr><ul>"@,
    )
}

/// The close of the listing document.
pub open spec fn listing_footer() -> Seq<u8> {
    ascii("</ul><hr></body></html>"@)
}

/// The listing body: header, one item per entry, footer.
pub open spec fn listing_body(es: Seq<EntryInfo>) -> Seq<u8> {
    listing_header() + items_html(es) + listing_footer()
}

/// The whole directory listing response, status 200.
pub open spec fn spec_listing_response(es: Seq<EntryInfo>) -> Seq<u8> {
    body_response(ascii("HTTP/1.1 200 OK"@), listing_body(es))
}

/// The items render entrywise over concatenation.
pub proof fn lemma_items_append(a: Seq<EntryInfo>, b: Seq<EntryInfo>)
    ensures
        items_html(a + b) == items_html(a) + items_html(b),
    decreases a.len(),
{
    if a.len() == 0 {
        assert(a + b =~= b);
        assert(items_html(a) + items_html(b) =~= items_html(b));
    } else {
        assert((a + b).len() > 0 && (a + b)[0] == a[0]);
        assert((a + b).drop_first() =~= a.drop_first() + b);
        lemma_items_append(a.drop_first(), b);
        assert(items_html(a + b) =~= items_html(a) + items_html(b));
    }
}

/// The item rendered for a single entry.
pub proof fn lemma_items_singleton(e: EntryInfo)
    ensures
        items_html(seq![e]) == li_of(e.name@, e.kind),
{
    let s = seq![e];
    assert(s.drop_first() =~= Seq::<EntryInfo>::empty());
    assert(items_html(s.drop_first()) =~= Seq::<u8>::empty());
    assert(items_html(s) =~= li_of(e.name@, e.kind));
}

/// Builds the listing response for the entries of one directory, in the
/// order they were enumerated.
pub fn dir_listing_response(entries: &Vec<EntryInfo>) -> (r: Vec<u8>)
    ensures
        r@ == spec_listing_response(entries@),
{
    proof {
        reveal_strlit(
            "<html lang=\"en\"><head><meta charset=\"utf-8\"><title>Directory listing for /</title></head><body><h1>Directory listing for /</h1><hr><ul>",
        );
        reveal_strlit("</ul><hr></body></html>");
        reveal_strlit("<li><a href='");
        reveal_strlit("/'>");
        reveal_strlit("'>");
        reveal_strlit("/</a></li>");
        reveal_strlit("</a></li>");
        reveal_strlit("HTTP/1.1 200 OK");
    }
    let mut body = lit_bytes(
        "<html lang=\"en\"><head><meta charset=\"utf-8\"><title>Directory listing for /</title></head><body><h1>Directory listing for /</h1><hr><ul>",
    );
    let mut i: usize = 0;
    proof {
        assert(entries@.take(0) =~= Seq::<EntryInfo>::empty());
        assert(body@ =~= listing_header() + items_html(entries@.take(0)));
    }
    while i < entries.len()
        invariant
            i <= entries@.len(),
            body@ == listing_header() + items_html(entries@.take(i as int)),
        decreases entries@.len() - i,
    {
        proof {
            reveal_strlit("<li><a href='");
            reveal_strlit("/'>");
            reveal_strlit("'>");
            reveal_strlit("/</a></li>");
            reveal_strlit("</a></li>");
        }
        let ghost body0 = body@;
        let e = &entries[i];
        match e.kind {
            EntryKind::Dir => {
                push_lit(&mut body, "<li><a href='");
                push_bytes(&mut body, &e.name);
                push_lit(&mut body, "/'>");
                push_bytes(&mut body, &e.name);
                push_lit(&mut body, "/</a></li>");
            },
            EntryKind::File => {
                push_lit(&mut body, "<li><a href='");
                push_bytes(&mut body, &e.name);
                push_lit(&mut body, "'>");
                push_bytes(&mut body, &e.name);
                push_lit(&mut body, "</a></li>");
            },
            EntryKind::Other => {},
        }
        proof {
            assert(body@ =~= body0 + li_of(entries@[i as int].name@, entries@[i as int].kind));
            assert(entries@.take(i + 1) =~= entries@.take(i as int) + seq![entries@[i as int]]);
            lemma_items_append(entries@.take(i as int), seq![entries@[i as int]]);
            lemma_items_singleton(entries@[i as int]);
            assert(body@ =~= listing_header() + items_html(entries@.take(i + 1)));
        }
        i = i + 1;
    }
    push_lit(&mut body, "</ul><hr></body></html>");
    proof {
        assert(entries@.take(entries@.len() as int) =~= entries@);
        assert(body@ =~= listing_body(entries@));
    }
    let status = lit_bytes("HTTP/1.1 200 OK");
    build_body_response(&status, &body)
}

/// The file name of `path` at the specification level: what follows the
/// `/` that `name_start_at` points at.
pub open spec fn spec_file_name(s: Seq<u8>) -> Seq<u8> {
    s.subrange(choose|k: int| name_start_at(s, k), s.len() as int)
}

/// One base-name start stands in a path.
pub proof fn lemma_name_start_unique(s: Seq<u8>, k1: int, k2: int)
    requires
        name_start_at(s, k1),
        name_start_at(s, k2),
    ensures
        k1 == k2,
{
    if k1 < k2 {
        assert(s[k2 - 1] == 47);
        assert(s[k2 - 1] != 47);
    }
    if k2 < k1 {
        assert(s[k1 - 1] == 47);
        assert(s[k1 - 1] != 47);
    }
}

/// The header block that precedes a streamed file of `size` bytes at
/// `path`: status 200, the content type looked up from the path's
/// extension, `Content-Disposition: attachment` with the raw base name,
/// and a `Content-Length` of exactly `size`.
pub open spec fn spec_file_headers(path: Seq<u8>, size: nat) -> Seq<u8> {
    ascii("HTTP/1.1 200 OK\r\nContent-type: "@) + content_type_of(path) + ascii(
        "\r\nContent-Disposition: attachment; filename="@,
    ) + spec_file_name(path) + ascii("\r\nContent-Length: "@) + dec_digits(size) + ascii(
        "\r\n\r\n"@,
    )
}

/// Builds the header block for streaming the file at `path`, whose size on
/// disk is `size` bytes.
pub fn file_response_headers(path: &Vec<u8>, size: u64) -> (r: Vec<u8>)
    ensures
        r@ == spec_file_headers(path@, size as nat),
{
    proof {
        reveal_strlit("HTTP/1.1 200 OK\r\nContent-type: ");
        reveal_strlit("\r\nContent-Disposition: attachment; filename=");
        reveal_strlit("\r\nContent-Length: ");
        reveal_strlit("\r\n\r\n");
    }
    let mut r: Vec<u8> = Vec::new();
    push_lit(&mut r, "HTTP/1.1 200 OK\r\nContent-type: ");
    let ctype = content_type_for(path);
    push_bytes(&mut r, &ctype);
    push_lit(&mut r, "\r\nContent-Disposition: attachment; filename=");
    let name = file_name_of(path);
    proof {
        let k = choose|k: int|
            #![auto]
            name_start_at(path@, k) && name@ == path@.subrange(k, path@.len() as int);
        let k2 = choose|k2: int| name_start_at(path@, k2);
        lemma_name_start_unique(path@, k, k2);
    }
    push_bytes(&mut r, &name);
    push_lit(&mut r, "\r\nContent-Length: ");
    let len = u64_to_dec(size);
    push_bytes(&mut r, &len);
    push_lit(&mut r, "\r\n\r\n");
    proof {
        assert(r@ =~= spec_file_headers(path@, size as nat));
    }
    r
}

/// Every entry of a directory stands in the listing body as its own list
/// item, in order: the item `li_of` renders for entry `i` occupies the
/// body's bytes from right after the header and the items before it.
pub proof fn lemma_listing_holds_each_entry(es: Seq<EntryInfo>, i: int)
    requires
        0 <= i < es.len(),
    ensures
        ({
            let li = li_of(es[i].name@, es[i].kind);
            let a: int = (listing_header().len() + items_html(es.take(i)).len()) as int;
            a + li.len() <= listing_body(es).len() && listing_body(es).subrange(
                a as int,
                a + li.len() as int,
            ) == li
        }),
{
    let li = li_of(es[i].name@, es[i].kind);
    let a: int = (listing_header().len() + items_html(es.take(i)).len()) as int;
    assert(es =~= es.take(i) + seq![es[i]] + es.skip(i + 1));
    lemma_items_append(es.take(i) + seq![es[i]], es.skip(i + 1));
    lemma_items_append(es.take(i), seq![es[i]]);
    lemma_items_singleton(es[i]);
    assert(items_html(es) == items_html(es.take(i)) + li + items_html(es.skip(i + 1)));
    assert(listing_body(es).subrange(a as int, a + li.len() as int) =~= li);
}

/// A directory listing response reports status 200: it begins with the
/// status line `HTTP/1.1 200 OK`.
pub proof fn lemma_listing_status_ok(es: Seq<EntryInfo>)
    ensures
        spec_listing_response(es).len() >= ascii("HTTP/1.1 200 OK"@).len(),
        spec_listing_response(es).subrange(0, ascii("HTTP/1.1 200 OK"@).len() as int) == ascii(
            "HTTP/1.1 200 OK"@,
        ),
{
    assert(spec_listing_response(es).subrange(0, ascii("HTTP/1.1 200 OK"@).len() as int) =~= ascii(
        "HTTP/1.1 200 OK"@,
    ));
}

} // verus!
