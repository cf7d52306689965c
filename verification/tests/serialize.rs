use minihttp::grammar::parse_header_lines;
use minihttp::request::HttpVersion;
use minihttp::response::{serialize_head, serialize_response, Body, Response};

fn sample_response() -> Response {
    Response {
        status: 200,
        version: HttpVersion::Http11,
        headers: vec![
            (b"Content-Type".to_vec(), b"text/plain".to_vec()),
            (b"Content-Length".to_vec(), b"2".to_vec()),
        ],
        body: Body::Full(b"hi".to_vec()),
    }
}

#[test]
fn serialized_bytes_are_exact() {
    let bytes = serialize_response(&sample_response());
    assert_eq!(
        bytes.as_slice(),
        b"HTTP/1.1 200 OK\r\nContent-Type: text/plain\r\nContent-Length: 2\r\n\r\nhi".as_slice()
    );
}

#[test]
fn empty_body_emits_head_only() {
    let resp = Response {
        status: 201,
        version: HttpVersion::Http11,
        headers: vec![],
        body: Body::Empty,
    };
    let bytes = serialize_response(&resp);
    assert_eq!(bytes.as_slice(), b"HTTP/1.1 201 Created\r\n\r\n".as_slice());
}

#[test]
fn streamed_body_contributes_no_bytes() {
    let resp = Response {
        status: 200,
        version: HttpVersion::Http11,
        headers: vec![(b"Content-Length".to_vec(), b"1000000".to_vec())],
        body: Body::Streamed,
    };
    let bytes = serialize_response(&resp);
    assert_eq!(
        bytes.as_slice(),
        b"HTTP/1.1 200 OK\r\nContent-Length: 1000000\r\n\r\n".as_slice()
    );
    assert_eq!(bytes, serialize_head(&resp));
}

#[test]
fn unknown_status_has_no_reason_phrase() {
    let resp = Response {
        status: 299,
        version: HttpVersion::Http11,
        headers: vec![],
        body: Body::Empty,
    };
    assert_eq!(serialize_response(&resp).as_slice(), b"HTTP/1.1 299\r\n\r\n".as_slice());
}

#[test]
fn head_round_trips_through_the_parser() {
    let resp = sample_response();
    let head = serialize_head(&resp);
    // The first line is the status line, byte for byte.
    let line_end = head.windows(2).position(|w| w == b"\r\n").unwrap();
    assert_eq!(&head[..line_end], b"HTTP/1.1 200 OK");
    // The header block parses back to exactly the entries that were written.
    let entries = parse_header_lines(&head, line_end + 2).unwrap();
    assert_eq!(entries.len(), resp.headers.len());
    for (got, want) in entries.iter().zip(resp.headers.iter()) {
        assert_eq!(got.0, want.0);
        assert_eq!(got.1, want.1);
    }
}

#[test]
fn serialization_is_deterministic() {
    let a = serialize_response(&sample_response());
    let b = serialize_response(&sample_response());
    assert_eq!(a, b);
}

#[test]
fn version_literals_on_the_wire() {
    for (v, lit) in [
        (HttpVersion::Http09, &b"HTTP/0.9 200 OK\r\n\r\n"[..]),
        (HttpVersion::Http10, &b"HTTP/1.0 200 OK\r\n\r\n"[..]),
        (HttpVersion::Http11, &b"HTTP/1.1 200 OK\r\n\r\n"[..]),
        (HttpVersion::Http2, &b"HTTP/2.0 200 OK\r\n\r\n"[..]),
        (HttpVersion::Http3, &b"HTTP/3.0 200 OK\r\n\r\n"[..]),
    ] {
        let resp = Response { status: 200, version: v, headers: vec![], body: Body::Empty };
        assert_eq!(serialize_response(&resp).as_slice(), lit);
    }
}
