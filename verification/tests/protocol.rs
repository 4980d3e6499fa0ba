//! End-to-end exercises of the protocol core: parsing, serialization,
//! negotiation and dispatch, on concrete wire bytes.

use faras::dispatch::{dispatch, file_read_result, file_write_result, DispatchAction};
use faras::encoding::negotiate_encoding;
use faras::headers::find_header;
use faras::request::{ParseError, Request};
use faras::response::Response;

fn b(s: &str) -> Vec<u8> {
    s.as_bytes().to_vec()
}

fn gunzip(data: &[u8]) -> Vec<u8> {
    let mut d = flate2::read::GzDecoder::new(data);
    let mut out = Vec::new();
    std::io::Read::read_to_end(&mut d, &mut out).unwrap();
    out
}

fn header_values<'a>(headers: &'a Vec<faras::headers::Header>, name: &str) -> Option<&'a Vec<Vec<u8>>> {
    let idx = find_header(headers, &b(name));
    if idx < headers.len() {
        Some(&headers[idx].values)
    } else {
        None
    }
}

#[test]
fn decimal_parsing_and_rendering_are_exact() {
    assert_eq!(faras::bytes::parse_usize_bytes(&b("0")), Some(0));
    assert_eq!(faras::bytes::parse_usize_bytes(&b("+17")), Some(17));
    assert_eq!(faras::bytes::parse_usize_bytes(&b("")), None);
    assert_eq!(faras::bytes::parse_usize_bytes(&b("12a")), None);
    assert_eq!(
        faras::bytes::parse_usize_bytes(&b("999999999999999999999999999999")),
        None
    );
    assert_eq!(faras::bytes::usize_to_dec(0), b("0"));
    assert_eq!(faras::bytes::usize_to_dec(65535), b("65535"));
}

#[test]
fn start_line_two_tokens_is_malformed() {
    let r = Request::new(&b("GET /\r\nHost: x\r\n\r\n"));
    assert!(matches!(r, Err(ParseError::MalformedStartLine)));
}

#[test]
fn start_line_four_tokens_is_malformed() {
    let r = Request::new(&b("GET / HTTP/1.1 extra\r\n\r\n"));
    assert!(matches!(r, Err(ParseError::MalformedStartLine)));
}

#[test]
fn start_line_empty_is_malformed() {
    let r = Request::new(&b("\r\n\r\n"));
    assert!(matches!(r, Err(ParseError::MalformedStartLine)));
}

#[test]
fn missing_header_terminator_is_incomplete() {
    let r = Request::new(&b("GET / HTTP/1.1\r\nHost: x\r\n"));
    assert!(matches!(r, Err(ParseError::Incomplete)));
}

#[test]
fn short_body_is_incomplete() {
    let r = Request::new(&b("POST / HTTP/1.1\r\nContent-Length: 10\r\n\r\nhi"));
    assert!(matches!(r, Err(ParseError::Incomplete)));
}

#[test]
fn request_line_fields_are_kept() {
    let req = Request::new(&b("GET /echo/abc HTTP/1.1\r\n\r\n")).unwrap();
    assert_eq!(req.request_line.method, b("GET"));
    assert_eq!(req.request_line.target, b("/echo/abc"));
    assert_eq!(req.request_line.version, b("HTTP/1.1"));
    assert_eq!(req.body, Vec::<u8>::new());
}

#[test]
fn headers_names_and_values_are_kept() {
    let req = Request::new(&b(
        "GET / HTTP/1.1\r\nHost: example.com\r\nAccept-Encoding: br,  gzip , zstd\r\n\r\n",
    ))
    .unwrap();
    assert_eq!(req.headers.len(), 2);
    assert_eq!(req.headers[0].name, b("Host"));
    assert_eq!(req.headers[0].values, vec![b("example.com")]);
    assert_eq!(req.headers[1].name, b("Accept-Encoding"));
    assert_eq!(req.headers[1].values, vec![b("br"), b("gzip"), b("zstd")]);
}

#[test]
fn duplicate_header_keeps_first_value() {
    let req = Request::new(&b("GET / HTTP/1.1\r\nX-Tag: one\r\nX-Tag: two\r\n\r\n")).unwrap();
    let vals = header_values(&req.headers, "X-Tag").unwrap();
    assert_eq!(vals, &vec![b("one")]);
}

#[test]
fn body_is_read_to_content_length() {
    let req = Request::new(&b("POST /x HTTP/1.1\r\nContent-Length: 5\r\n\r\nhelloEXTRA")).unwrap();
    assert_eq!(req.body, b("hello"));
}

#[test]
fn unparseable_content_length_means_no_body() {
    let req = Request::new(&b("POST /x HTTP/1.1\r\nContent-Length: five\r\n\r\nhello")).unwrap();
    assert_eq!(req.body, Vec::<u8>::new());
}

#[test]
fn content_length_reflects_final_body() {
    let mut resp = Response::new();
    resp.body = b("Hello, World!");
    // mutate headers a few times first; the length must still be fresh
    resp.set_header(b("Content-Length"), vec![b("999")]);
    resp.set_header(b("X-Extra"), vec![b("v")]);
    let _ = resp.to_bytes();
    let vals = header_values(&resp.headers, "Content-Length").unwrap();
    assert_eq!(vals, &vec![b("13")]);
}

#[test]
fn content_length_of_empty_body_is_zero() {
    let mut resp = Response::new();
    let wire = resp.to_bytes();
    let vals = header_values(&resp.headers, "Content-Length").unwrap();
    assert_eq!(vals, &vec![b("0")]);
    assert_eq!(
        wire,
        b("HTTP/1.1 200 OK\r\nServer: faras\r\nContent-Type: text/plain\r\nContent-Length: 0\r\n\r\n")
    );
}

#[test]
fn serialization_ends_with_body() {
    let mut resp = Response::new();
    resp.body = b("abc");
    let wire = resp.to_bytes();
    assert!(wire.ends_with(b"\r\n\r\nabc"));
    assert_eq!(
        wire,
        b("HTTP/1.1 200 OK\r\nServer: faras\r\nContent-Type: text/plain\r\nContent-Length: 3\r\n\r\nabc")
    );
}

#[test]
fn gzip_round_trip_on_body() {
    let req = Request::new(&b("GET / HTTP/1.1\r\nAccept-Encoding: gzip\r\n\r\n")).unwrap();
    let mut resp = Response::new();
    resp.body = b("some body to compress, long enough to matter");
    negotiate_encoding(&req, &mut resp);
    assert_ne!(resp.body, b("some body to compress, long enough to matter"));
    assert_eq!(gunzip(&resp.body), b("some body to compress, long enough to matter"));
}

#[test]
fn gzip_round_trip_on_empty_body() {
    let req = Request::new(&b("GET / HTTP/1.1\r\nAccept-Encoding: gzip\r\n\r\n")).unwrap();
    let mut resp = Response::new();
    negotiate_encoding(&req, &mut resp);
    assert_eq!(gunzip(&resp.body), Vec::<u8>::new());
}

#[test]
fn negotiation_picks_gzip_among_unsupported_entries() {
    let req = Request::new(&b("GET / HTTP/1.1\r\nAccept-Encoding: br, zstd, gzip\r\n\r\n")).unwrap();
    let mut resp = Response::new();
    resp.body = b("payload");
    negotiate_encoding(&req, &mut resp);
    let vals = header_values(&resp.headers, "Content-Encoding").unwrap();
    assert_eq!(vals, &vec![b("gzip")]);
    assert_eq!(gunzip(&resp.body), b("payload"));
}

#[test]
fn negotiation_without_supported_entry_changes_nothing() {
    let req = Request::new(&b("GET / HTTP/1.1\r\nAccept-Encoding: br, zstd\r\n\r\n")).unwrap();
    let mut resp = Response::new();
    resp.body = b("payload");
    negotiate_encoding(&req, &mut resp);
    assert_eq!(resp.body, b("payload"));
    assert!(header_values(&resp.headers, "Content-Encoding").is_none());
}

#[test]
fn negotiation_without_header_changes_nothing() {
    let req = Request::new(&b("GET / HTTP/1.1\r\n\r\n")).unwrap();
    let mut resp = Response::new();
    resp.body = b("payload");
    negotiate_encoding(&req, &mut resp);
    assert_eq!(resp.body, b("payload"));
    assert!(header_values(&resp.headers, "Content-Encoding").is_none());
}

fn run(wire: &str, peer_ip: &str) -> Response {
    let req = Request::new(&b(wire)).unwrap();
    let mut resp = Response::new();
    let action = dispatch(&req, &b(peer_ip), &mut resp);
    match action {
        DispatchAction::Reply => {},
        DispatchAction::ReadFile(_) => panic!("no file store in this scenario"),
        DispatchAction::WriteFile(_) => panic!("no file store in this scenario"),
    }
    negotiate_encoding(&req, &mut resp);
    resp
}

#[test]
fn get_root_serves_greeting() {
    let mut resp = run("GET / HTTP/1.1\r\nHost: x\r\n\r\n", "1.2.3.4");
    assert_eq!(resp.status_line.status_code, 200);
    assert_eq!(resp.body, b("Hello, World!"));
    let wire = resp.to_bytes();
    assert!(wire.starts_with(b"HTTP/1.1 200 OK\r\n"));
    assert!(wire.ends_with(b"\r\n\r\nHello, World!"));
}

#[test]
fn get_echo_returns_suffix() {
    let resp = run("GET /echo/abc HTTP/1.1\r\n\r\n", "1.2.3.4");
    assert_eq!(resp.status_line.status_code, 200);
    assert_eq!(resp.body, b("abc"));
}

#[test]
fn get_unknown_path_is_not_found() {
    let resp = run("GET /nonexistent HTTP/1.1\r\n\r\n", "1.2.3.4");
    assert_eq!(resp.status_line.status_code, 404);
    assert_eq!(resp.body, b("Not Found"));
}

#[test]
fn get_user_agent_joins_values() {
    let resp = run(
        "GET /user-agent HTTP/1.1\r\nUser-Agent: foo/1.0, bar/2.0\r\n\r\n",
        "1.2.3.4",
    );
    assert_eq!(resp.body, b("foo/1.0, bar/2.0"));
}

#[test]
fn get_ip_returns_peer_address() {
    let resp = run("GET /ip HTTP/1.1\r\n\r\n", "10.0.0.9");
    assert_eq!(resp.body, b("10.0.0.9"));
}

#[test]
fn unknown_method_is_not_allowed() {
    let resp = run("PUT / HTTP/1.1\r\n\r\n", "1.2.3.4");
    assert_eq!(resp.status_line.status_code, 405);
    assert_eq!(resp.body, b("Method Not Allowed"));
}

#[test]
fn files_round_trip_through_store() {
    // a tiny in-memory stand-in for the server's file directory
    let mut store: Vec<(Vec<u8>, Vec<u8>)> = Vec::new();

    let post = Request::new(&b("POST /files/test.txt HTTP/1.1\r\nContent-Length: 5\r\n\r\nhello"))
        .unwrap();
    assert_eq!(post.body, b("hello"));
    let mut resp = Response::new();
    let action = dispatch(&post, &b("1.2.3.4"), &mut resp);
    match action {
        DispatchAction::WriteFile(name) => {
            assert_eq!(name, b("test.txt"));
            store.push((name, post.body.clone()));
            file_write_result(&mut resp, true);
        },
        _ => panic!("expected a file write"),
    }
    assert_eq!(resp.status_line.status_code, 201);

    let get = Request::new(&b("GET /files/test.txt HTTP/1.1\r\n\r\n")).unwrap();
    let mut resp2 = Response::new();
    let action2 = dispatch(&get, &b("1.2.3.4"), &mut resp2);
    match action2 {
        DispatchAction::ReadFile(name) => {
            assert_eq!(name, b("test.txt"));
            let content = store
                .iter()
                .find(|e| e.0 == name)
                .map(|e| e.1.clone());
            file_read_result(&mut resp2, content);
        },
        _ => panic!("expected a file read"),
    }
    assert_eq!(resp2.status_line.status_code, 200);
    assert_eq!(resp2.body, b("hello"));
    let vals = header_values(&resp2.headers, "Content-Type").unwrap();
    assert_eq!(vals, &vec![b("application/octet-stream")]);
}

#[test]
fn missing_file_is_not_found() {
    let get = Request::new(&b("GET /files/absent.txt HTTP/1.1\r\n\r\n")).unwrap();
    let mut resp = Response::new();
    let action = dispatch(&get, &b("1.2.3.4"), &mut resp);
    assert!(matches!(action, DispatchAction::ReadFile(_)));
    file_read_result(&mut resp, None);
    assert_eq!(resp.status_line.status_code, 404);
    assert_eq!(resp.body, b("Not Found"));
}

#[test]
fn failed_file_write_leaves_status() {
    let post =
        Request::new(&b("POST /files/a HTTP/1.1\r\nContent-Length: 1\r\n\r\nx")).unwrap();
    let mut resp = Response::new();
    let action = dispatch(&post, &b("1.2.3.4"), &mut resp);
    assert!(matches!(action, DispatchAction::WriteFile(_)));
    file_write_result(&mut resp, false);
    assert_eq!(resp.status_line.status_code, 200);
}

#[test]
fn post_outside_files_is_not_found() {
    let resp = run("POST /other HTTP/1.1\r\nContent-Length: 0\r\n\r\n", "1.2.3.4");
    assert_eq!(resp.status_line.status_code, 404);
}
