use minihttp::ascii::{parse_u64_decimal, u64_to_decimal};
use minihttp::grammar::ParseError;
use minihttp::request::{find_terminator, HttpVersion, Method, RequestParser};

#[test]
fn start_line_recovers_method_and_target() {
    let buf = b"GET /some/long/path?q=1 HTTP/1.1\r\n\r\n";
    let (req, head_len) = RequestParser::parse(buf).unwrap();
    assert_eq!(req.method(), Method::Get);
    assert_eq!(req.uri().as_slice(), b"/some/long/path?q=1");
    assert_eq!(req.version(), HttpVersion::Http11);
    assert_eq!(head_len, buf.len());
}

#[test]
fn post_method_recognized() {
    let buf = b"POST /files/x HTTP/1.1\r\n\r\n";
    let (req, _) = RequestParser::parse(buf).unwrap();
    assert_eq!(req.method(), Method::Post);
}

#[test]
fn header_block_recovers_every_entry() {
    let buf = b"GET / HTTP/1.1\r\nHost: localhost\r\nUser-Agent: curl/8.0\r\nAccept: */*\r\n\r\n";
    let (req, _) = RequestParser::parse(buf).unwrap();
    assert_eq!(req.headers().len(), 3);
    assert_eq!(req.headers()[0].0.as_slice(), b"Host");
    assert_eq!(req.headers()[0].1.as_slice(), b"localhost");
    assert_eq!(req.headers()[2].0.as_slice(), b"Accept");
    assert_eq!(req.headers()[2].1.as_slice(), b"*/*");
}

#[test]
fn zero_headers_parse() {
    let buf = b"GET / HTTP/1.1\r\n\r\n";
    let (req, _) = RequestParser::parse(buf).unwrap();
    assert_eq!(req.headers().len(), 0);
}

#[test]
fn missing_terminator_is_incomplete() {
    assert_eq!(
        RequestParser::parse(b"GET / HTTP/1.1\r\n").unwrap_err(),
        ParseError::IncompleteRequest
    );
    assert_eq!(
        RequestParser::parse(b"GET / HTTP/1.1\r\nHost: x\r\n").unwrap_err(),
        ParseError::IncompleteRequest
    );
    assert_eq!(RequestParser::parse(b"").unwrap_err(), ParseError::IncompleteRequest);
}

#[test]
fn terminator_found_at_first_occurrence() {
    assert_eq!(find_terminator(b"GET / HTTP/1.1\r\n\r\n"), Some(14));
    assert_eq!(find_terminator(b"abc\r\n\r\nxyz\r\n\r\n"), Some(3));
    assert_eq!(find_terminator(b"abc\r\n"), None);
}

#[test]
fn unsupported_method_rejected() {
    assert_eq!(
        RequestParser::parse(b"DELETE / HTTP/1.1\r\n\r\n").unwrap_err(),
        ParseError::UnsupportedMethod
    );
}

#[test]
fn unsupported_version_rejected() {
    assert_eq!(
        RequestParser::parse(b"GET / HTTP/1.0\r\n\r\n").unwrap_err(),
        ParseError::UnsupportedVersion
    );
}

#[test]
fn malformed_start_line_rejected() {
    assert_eq!(
        RequestParser::parse(b"GET /\r\n\r\n").unwrap_err(),
        ParseError::MalformedStartLine
    );
    assert_eq!(
        RequestParser::parse(b"GET / FTP/1.1\r\n\r\n").unwrap_err(),
        ParseError::MalformedStartLine
    );
    assert_eq!(
        RequestParser::parse(b"G3T / HTTP/1.1\r\n\r\n").unwrap_err(),
        ParseError::MalformedStartLine
    );
    assert_eq!(
        RequestParser::parse(b"GET  / HTTP/1.1\r\n\r\n").unwrap_err(),
        ParseError::MalformedStartLine
    );
    assert_eq!(
        RequestParser::parse(b"GET / HTTP/x\r\n\r\n").unwrap_err(),
        ParseError::MalformedStartLine
    );
}

#[test]
fn malformed_header_rejected() {
    assert_eq!(
        RequestParser::parse(b"GET / HTTP/1.1\r\nNoColonHere\r\n\r\n").unwrap_err(),
        ParseError::MalformedHeader
    );
    assert_eq!(
        RequestParser::parse(b"GET / HTTP/1.1\r\nName:tight\r\n\r\n").unwrap_err(),
        ParseError::MalformedHeader
    );
}

#[test]
fn content_length_sets_body_plan() {
    let buf = b"POST /files/a HTTP/1.1\r\nContent-Length: 5\r\n\r\nhello";
    let (req, head_len) = RequestParser::parse(buf).unwrap();
    assert_eq!(req.body_len(), Some(5));
    assert_eq!(head_len, buf.len() - b"hello".len());

    let (req, _) =
        RequestParser::parse(b"POST /files/a HTTP/1.1\r\nContent-Length: 0\r\n\r\n").unwrap();
    assert_eq!(req.body_len(), None);

    let (req, _) = RequestParser::parse(b"GET / HTTP/1.1\r\n\r\n").unwrap();
    assert_eq!(req.body_len(), None);
}

#[test]
fn malformed_content_length_rejected() {
    assert_eq!(
        RequestParser::parse(b"POST /f HTTP/1.1\r\nContent-Length: abc\r\n\r\n").unwrap_err(),
        ParseError::MalformedContentLength
    );
    assert_eq!(
        RequestParser::parse(b"POST /f HTTP/1.1\r\nContent-Length: 99999999999999999999999\r\n\r\n")
            .unwrap_err(),
        ParseError::MalformedContentLength
    );
}

#[test]
fn header_lookup_is_case_insensitive() {
    let (req, _) =
        RequestParser::parse(b"GET / HTTP/1.1\r\nUSER-AGENT: probe\r\n\r\n").unwrap();
    let v = req.header_lookup(b"user-agent").unwrap();
    assert_eq!(v.as_slice(), b"probe");
    let v = req.header_lookup(b"User-Agent").unwrap();
    assert_eq!(v.as_slice(), b"probe");
    assert!(req.header_lookup(b"host").is_none());
}

#[test]
fn duplicate_header_last_write_wins() {
    let (req, _) =
        RequestParser::parse(b"GET / HTTP/1.1\r\nX-Tag: first\r\nx-tag: second\r\n\r\n").unwrap();
    assert_eq!(req.headers().len(), 2);
    let v = req.header_lookup(b"X-Tag").unwrap();
    assert_eq!(v.as_slice(), b"second");
}

#[test]
fn decimal_parse_and_render() {
    assert_eq!(u64_to_decimal(0), b"0".to_vec());
    assert_eq!(u64_to_decimal(3), b"3".to_vec());
    assert_eq!(u64_to_decimal(1024), b"1024".to_vec());
    assert_eq!(u64_to_decimal(u64::MAX), b"18446744073709551615".to_vec());
    assert_eq!(parse_u64_decimal(b"0"), Some(0));
    assert_eq!(parse_u64_decimal(b"007"), Some(7));
    assert_eq!(parse_u64_decimal(b"18446744073709551615"), Some(u64::MAX));
    assert_eq!(parse_u64_decimal(b"18446744073709551616"), None);
    assert_eq!(parse_u64_decimal(b""), None);
    assert_eq!(parse_u64_decimal(b"12a"), None);
    assert_eq!(parse_u64_decimal(b"+12"), None);
}
