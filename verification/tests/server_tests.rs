//! Behaviour of the server library on concrete requests.

use https_rs::codec::percent_decode;
use https_rs::codec::percent_encode;
use https_rs::mime::content_type_for;
use https_rs::paths::Resolution;
use https_rs::paths::Target;
use https_rs::paths::extension_of;
use https_rs::paths::file_name_of;
use https_rs::pool::TaskQueue;
use https_rs::request::first_line;
use https_rs::request::match_url_path;
use https_rs::response::EntryInfo;
use https_rs::response::EntryKind;
use https_rs::response::bare_not_found_response;
use https_rs::response::dir_listing_response;
use https_rs::response::file_response_headers;
use https_rs::response::not_found_response;

#[test]
fn test2() {
    let string = "GET /sleep HTTP/1.1";
    let data = match_url_path(&string.as_bytes().to_vec());
    match data {
        None => {}
        Some(x) => {
            println!("{}", String::from_utf8(x).unwrap());
        }
    }
}

#[test]
fn urldecode_test() {
    let res = percent_decode(
        &"/HCIP-Security%20V4.0%20%E5%AE%9E%E9%AA%8C%E6%89%8B%E5%86%8C.pdf"
            .as_bytes()
            .to_vec(),
    );
    assert_eq!(
        String::from_utf8(res).unwrap(),
        "/HCIP-Security V4.0 实验手册.pdf"
    );
}

#[test]
fn encode_decode_roundtrip() {
    let s: Vec<u8> = "a b%c/ü ~x.y_z-0".as_bytes().to_vec();
    let enc = percent_encode(&s);
    let dec = percent_decode(&enc);
    assert_eq!(dec, s);
}

#[test]
fn encode_escapes_reserved() {
    assert_eq!(percent_encode(&b"a b".to_vec()), b"a%20b".to_vec());
    assert_eq!(percent_encode(&b"x-y_z.0~".to_vec()), b"x-y_z.0~".to_vec());
}

#[test]
fn decode_keeps_malformed_percent() {
    assert_eq!(percent_decode(&b"%41".to_vec()), b"A".to_vec());
    assert_eq!(percent_decode(&b"a%2x".to_vec()), b"a%2x".to_vec());
    assert_eq!(percent_decode(&b"%".to_vec()), b"%".to_vec());
    assert_eq!(percent_decode(&b"%%41".to_vec()), b"%A".to_vec());
}

#[test]
fn parser_extracts_target() {
    let r = match_url_path(&b"GET /sleep HTTP/1.1".to_vec()).unwrap();
    assert_eq!(r, b"/sleep".to_vec());
    let r = match_url_path(&b"GET /a%20b.txt HTTP/1.1".to_vec()).unwrap();
    assert_eq!(r, b"/a b.txt".to_vec());
}

#[test]
fn parser_target_runs_to_last_suffix() {
    let r = match_url_path(&b"GET /a HTTP/1.1 HTTP/1.1".to_vec()).unwrap();
    assert_eq!(r, b"/a HTTP/1.1".to_vec());
}

#[test]
fn parser_rejects_non_matching_lines() {
    assert!(match_url_path(&b"POST / HTTP/1.1".to_vec()).is_none());
    assert!(match_url_path(&Vec::new()).is_none());
    assert!(match_url_path(&b"GET  HTTP/1.1".to_vec()).is_none());
    assert!(match_url_path(&b"GET /x HTTP/1.0".to_vec()).is_none());
}

#[test]
fn first_line_of_header_block() {
    let data = b"GET / HTTP/1.1\r\nHost: x\r\n\r\n".to_vec();
    assert_eq!(first_line(&data).unwrap(), b"GET / HTTP/1.1".to_vec());
    assert_eq!(first_line(&b"abc".to_vec()).unwrap(), b"abc".to_vec());
    assert!(first_line(&b"\r\n".to_vec()).is_none());
    assert!(first_line(&Vec::new()).is_none());
}

#[test]
fn classify_targets() {
    assert!(matches!(Target::classify(None), Target::Absent));
    assert!(matches!(
        Target::classify(Some(b"/".to_vec())),
        Target::RootDir
    ));
    match Target::classify(Some(b"/d/f.txt".to_vec())) {
        Target::Entry(rel) => assert_eq!(rel, b"d/f.txt".to_vec()),
        _ => panic!("expected an entry"),
    }
    assert!(matches!(
        Target::classify(Some(b"oops".to_vec())),
        Target::Absent
    ));
}

#[test]
fn missing_entry_resolves_not_found() {
    let r = Resolution::of_entry(b"no/such/file".to_vec(), false, false);
    assert!(matches!(r, Resolution::NotFound));
    let text = String::from_utf8(not_found_response()).unwrap();
    assert!(text.starts_with("HTTP/1.1 404 NOT Found\r\n"));
    assert_eq!(
        text,
        "HTTP/1.1 404 NOT Found\r\nContent-Length: 22\r\n\r\nHTTP/1.1 404 NOT Found"
    );
}

#[test]
fn entry_resolution_prefers_files() {
    assert!(matches!(
        Resolution::of_entry(b"a".to_vec(), true, false),
        Resolution::ServeFile(_)
    ));
    assert!(matches!(
        Resolution::of_entry(b"a".to_vec(), false, true),
        Resolution::ListDir(_)
    ));
}

#[test]
fn root_listing_lists_each_child() {
    let entries = vec![
        EntryInfo {
            name: b"docs".to_vec(),
            kind: EntryKind::Dir,
        },
        EntryInfo {
            name: b"a.txt".to_vec(),
            kind: EntryKind::File,
        },
        EntryInfo {
            name: b"oddity".to_vec(),
            kind: EntryKind::Other,
        },
    ];
    let text = String::from_utf8(dir_listing_response(&entries)).unwrap();
    assert!(text.starts_with("HTTP/1.1 200 OK\r\n"));
    assert!(text.contains("<li><a href='docs/'>docs/</a></li>"));
    assert!(text.contains("<li><a href='a.txt'>a.txt</a></li>"));
    assert!(!text.contains("oddity"));
    let body_start = text.find("\r\n\r\n").unwrap() + 4;
    let body = &text[body_start..];
    assert!(text.starts_with(&format!(
        "HTTP/1.1 200 OK\r\nContent-Length: {}\r\n\r\n",
        body.len()
    )));
    assert!(body.starts_with("<html lang=\"en\">"));
    assert!(body.ends_with("</ul><hr></body></html>"));
}

#[test]
fn listing_of_empty_directory() {
    let text = String::from_utf8(dir_listing_response(&Vec::new())).unwrap();
    assert!(text.contains("<ul></ul>"));
}

#[test]
fn pdf_file_response_headers() {
    let headers = file_response_headers(&b"report.pdf".to_vec(), 4242);
    let text = String::from_utf8(headers).unwrap();
    assert_eq!(
        text,
        "HTTP/1.1 200 OK\r\nContent-type: application/pdf\r\nContent-Disposition: attachment; filename=report.pdf\r\nContent-Length: 4242\r\n\r\n"
    );
}

#[test]
fn file_headers_use_base_name() {
    let headers = file_response_headers(&b"a/b/c.png".to_vec(), 7);
    let text = String::from_utf8(headers).unwrap();
    assert!(text.contains("Content-type: image/png\r\n"));
    assert!(text.contains("Content-Disposition: attachment; filename=c.png\r\n"));
}

#[test]
fn vanished_file_gets_bare_not_found() {
    assert_eq!(
        bare_not_found_response(),
        b"HTTP/1.1 404 Not Found\r\n\r\n".to_vec()
    );
}

#[test]
fn extension_lookup_ignores_case() {
    assert_eq!(content_type_for(&b"IMG.PNG".to_vec()), b"image/png".to_vec());
    assert_eq!(content_type_for(&b"img.png".to_vec()), b"image/png".to_vec());
    assert_eq!(
        content_type_for(&b"noext".to_vec()),
        b"application/octet-stream".to_vec()
    );
    assert_eq!(
        content_type_for(&b".hidden".to_vec()),
        b"application/octet-stream".to_vec()
    );
    assert_eq!(
        content_type_for(&b"archive.XyZ".to_vec()),
        b"application/octet-stream".to_vec()
    );
}

#[test]
fn extension_and_file_name() {
    assert_eq!(extension_of(&b"a/b/c.tar.gz".to_vec()).unwrap(), b"gz".to_vec());
    assert!(extension_of(&b"a.d/plain".to_vec()).is_none());
    assert!(extension_of(&b".bashrc".to_vec()).is_none());
    assert_eq!(file_name_of(&b"a/b/c.txt".to_vec()), b"c.txt".to_vec());
    assert_eq!(file_name_of(&b"plain".to_vec()), b"plain".to_vec());
}

#[test]
fn queue_delivers_each_task_once() {
    let mut q: TaskQueue<u64> = TaskQueue::new();
    for t in 0..10u64 {
        q.submit(t);
    }
    let mut got: Vec<u64> = Vec::new();
    while let Some(t) = q.take() {
        got.push(t);
    }
    assert_eq!(got, (0..10).collect::<Vec<u64>>());
    assert_eq!(q.pending_len(), 0);
    assert!(q.take().is_none());
}

#[test]
fn queue_interleaves_submits_and_takes() {
    let mut q: TaskQueue<u64> = TaskQueue::new();
    q.submit(1);
    q.submit(2);
    assert_eq!(q.take(), Some(1));
    q.submit(3);
    assert_eq!(q.take(), Some(2));
    assert_eq!(q.take(), Some(3));
    assert_eq!(q.take(), None);
}
