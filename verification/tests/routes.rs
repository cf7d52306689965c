use minihttp::dispatch::{handle_request, Args, DispatchError, Outcome};
use minihttp::dispatch::{created_response, file_found_response, not_found};
use minihttp::request::{Request, RequestParser};
use minihttp::response::{serialize_response, Body, Response};
use std::io::Read;

fn parse(buf: &[u8]) -> Request {
    RequestParser::parse(buf).unwrap().0
}

fn no_dir() -> Args {
    Args { directory: None }
}

fn with_dir(d: &[u8]) -> Args {
    Args { directory: Some(d.to_vec()) }
}

fn reply(r: Result<Outcome, DispatchError>) -> Response {
    match r.unwrap() {
        Outcome::Reply(resp) => resp,
        _ => panic!("expected a finished reply"),
    }
}

fn full_body(resp: &Response) -> Vec<u8> {
    match &resp.body {
        Body::Full(d) => d.clone(),
        _ => panic!("expected a buffered body"),
    }
}

fn header<'a>(resp: &'a Response, name: &[u8]) -> &'a [u8] {
    for (n, v) in resp.headers.iter() {
        if n.as_slice() == name {
            return v.as_slice();
        }
    }
    panic!("header missing");
}

#[test]
fn root_replies_empty_ok() {
    let req = parse(b"GET / HTTP/1.1\r\n\r\n");
    let resp = reply(handle_request(&req, &no_dir()));
    assert_eq!(resp.status, 200);
    assert!(resp.headers.is_empty());
    assert!(matches!(resp.body, Body::Empty));
    assert_eq!(serialize_response(&resp).as_slice(), b"HTTP/1.1 200 OK\r\n\r\n".as_slice());
}

#[test]
fn echo_replies_payload_plain() {
    let req = parse(b"GET /echo/abc HTTP/1.1\r\n\r\n");
    let resp = reply(handle_request(&req, &no_dir()));
    assert_eq!(resp.status, 200);
    assert_eq!(header(&resp, b"Content-Type"), b"text/plain");
    assert_eq!(header(&resp, b"Content-Length"), b"3");
    assert_eq!(full_body(&resp), b"abc".to_vec());
    assert_eq!(
        serialize_response(&resp).as_slice(),
        b"HTTP/1.1 200 OK\r\nContent-Type: text/plain\r\nContent-Length: 3\r\n\r\nabc".as_slice()
    );
}

#[test]
fn echo_strips_query_and_extra_segments() {
    let req = parse(b"GET /echo/abc/ignored?x=1 HTTP/1.1\r\n\r\n");
    let resp = reply(handle_request(&req, &no_dir()));
    assert_eq!(full_body(&resp), b"abc".to_vec());
}

#[test]
fn echo_with_gzip_compresses() {
    let req = parse(b"GET /echo/abc HTTP/1.1\r\nAccept-Encoding: gzip\r\n\r\n");
    let resp = reply(handle_request(&req, &no_dir()));
    assert_eq!(resp.status, 200);
    assert_eq!(header(&resp, b"Content-Type"), b"text/plain");
    assert_eq!(header(&resp, b"Content-Encoding"), b"gzip");
    let body = full_body(&resp);
    assert_eq!(header(&resp, b"Content-Length"), body.len().to_string().as_bytes());
    assert_ne!(body, b"abc".to_vec());
    let mut dec = flate2::read::GzDecoder::new(body.as_slice());
    let mut plain = Vec::new();
    dec.read_to_end(&mut plain).unwrap();
    assert_eq!(plain, b"abc".to_vec());
}

#[test]
fn gzip_negotiation_is_case_insensitive_and_listed() {
    for hdr in [
        &b"Accept-Encoding: GZIP"[..],
        b"Accept-Encoding: br, gzip",
        b"accept-encoding: gzip, br",
    ] {
        let mut buf = b"GET /echo/x HTTP/1.1\r\n".to_vec();
        buf.extend_from_slice(hdr);
        buf.extend_from_slice(b"\r\n\r\n");
        let req = parse(&buf);
        let resp = reply(handle_request(&req, &no_dir()));
        assert_eq!(header(&resp, b"Content-Encoding"), b"gzip", "case: {:?}", hdr);
    }
    let req = parse(b"GET /echo/x HTTP/1.1\r\nAccept-Encoding: identity\r\n\r\n");
    let resp = reply(handle_request(&req, &no_dir()));
    assert!(resp.headers.iter().all(|(n, _)| n.as_slice() != b"Content-Encoding"));
    let req = parse(b"GET /echo/x HTTP/1.1\r\nAccept-Encoding: mygzip\r\n\r\n");
    let resp = reply(handle_request(&req, &no_dir()));
    assert!(resp.headers.iter().all(|(n, _)| n.as_slice() != b"Content-Encoding"));
}

#[test]
fn echo_without_argument_fails() {
    let req = parse(b"GET /echo HTTP/1.1\r\n\r\n");
    assert_eq!(handle_request(&req, &no_dir()).unwrap_err(), DispatchError::MissingEchoArgument);
}

#[test]
fn user_agent_is_echoed() {
    let req = parse(b"GET /user-agent HTTP/1.1\r\nUser-Agent: test-client/1.0\r\n\r\n");
    let resp = reply(handle_request(&req, &no_dir()));
    assert_eq!(resp.status, 200);
    assert_eq!(full_body(&resp), b"test-client/1.0".to_vec());
    assert_eq!(header(&resp, b"Content-Length"), b"15");
}

#[test]
fn user_agent_missing_is_not_found() {
    let req = parse(b"GET /user-agent HTTP/1.1\r\n\r\n");
    let resp = reply(handle_request(&req, &no_dir()));
    assert_eq!(resp.status, 404);
    assert_eq!(full_body(&resp), b"Not Found".to_vec());
}

#[test]
fn unknown_route_is_not_found() {
    let req = parse(b"GET /nonexistent/path HTTP/1.1\r\n\r\n");
    let resp = reply(handle_request(&req, &no_dir()));
    assert_eq!(resp.status, 404);
    assert_eq!(full_body(&resp), b"Not Found".to_vec());
    assert_eq!(
        serialize_response(&resp).as_slice(),
        b"HTTP/1.1 404 Not Found\r\n\r\nNot Found".as_slice()
    );
}

#[test]
fn files_get_serves_joined_path() {
    let req = parse(b"GET /files/foo.txt HTTP/1.1\r\n\r\n");
    match handle_request(&req, &with_dir(b"/srv/data")).unwrap() {
        Outcome::ServeFile { path } => assert_eq!(path, b"/srv/data/foo.txt".to_vec()),
        _ => panic!("expected a file to serve"),
    }
}

#[test]
fn files_post_stores_joined_path() {
    let req = parse(b"POST /files/foo.txt HTTP/1.1\r\nContent-Length: 5\r\n\r\nhello");
    match handle_request(&req, &with_dir(b"/srv/data")).unwrap() {
        Outcome::StoreFile { path } => assert_eq!(path, b"/srv/data/foo.txt".to_vec()),
        _ => panic!("expected a file to store"),
    }
}

#[test]
fn files_post_without_body_fails() {
    let req = parse(b"POST /files/foo.txt HTTP/1.1\r\n\r\n");
    assert_eq!(
        handle_request(&req, &with_dir(b"/srv/data")).unwrap_err(),
        DispatchError::MissingBody
    );
    let req = parse(b"POST /files/foo.txt HTTP/1.1\r\nContent-Length: 0\r\n\r\n");
    assert_eq!(
        handle_request(&req, &with_dir(b"/srv/data")).unwrap_err(),
        DispatchError::MissingBody
    );
}

#[test]
fn files_without_name_fails() {
    let req = parse(b"GET /files HTTP/1.1\r\n\r\n");
    assert_eq!(
        handle_request(&req, &with_dir(b"/srv/data")).unwrap_err(),
        DispatchError::MissingFileName
    );
}

#[test]
fn files_without_directory_fails() {
    let req = parse(b"GET /files/foo.txt HTTP/1.1\r\n\r\n");
    assert_eq!(handle_request(&req, &no_dir()).unwrap_err(), DispatchError::NoDirectoryConfigured);
}

#[test]
fn served_file_head_declares_length_and_streams() {
    let resp = file_found_response(1048576);
    assert_eq!(resp.status, 200);
    assert_eq!(header(&resp, b"Content-Type"), b"application/octet-stream");
    assert_eq!(header(&resp, b"Content-Length"), b"1048576");
    assert!(matches!(resp.body, Body::Streamed));
}

#[test]
fn stored_file_reply_is_created_and_empty() {
    let resp = created_response();
    assert_eq!(resp.status, 201);
    assert!(resp.headers.is_empty());
    assert!(matches!(resp.body, Body::Empty));
}

#[test]
fn missing_file_reply_is_not_found() {
    let resp = not_found();
    assert_eq!(resp.status, 404);
    assert_eq!(full_body(&resp), b"Not Found".to_vec());
}

#[test]
fn repeated_slashes_collapse() {
    let req = parse(b"GET //echo///abc HTTP/1.1\r\n\r\n");
    let resp = reply(handle_request(&req, &no_dir()));
    assert_eq!(full_body(&resp), b"abc".to_vec());
}
