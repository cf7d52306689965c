//! The typed request model and the request-head parser.
//!
//! A request is built from exactly one parse pass over the bytes that were
//! read from the connection up to and including the blank-line terminator.
//! The headers keep every parsed line in order; as a mapping they are read
//! case-insensitively, keys unique, last write wins. The body is never held
//! here: the parser only records how many bytes of body the head declared,
//! and the caller reads exactly that many from the rest of the stream.
use crate::ascii::{all_digits, ascii_seq, dec_value, lower_seq, CR, LF};
use crate::grammar::{
    pairs_view, spec_find_two, spec_parse_header_lines, spec_parse_start_line, valid_target,
    wf_headers, ParseError,
};
use vstd::prelude::*;

verus! {

/// A recognized request verb.
#[derive(Debug, Clone, Copy, PartialEq, Eq, Structural)]
pub enum Method {
    Get,
    Post,
}

/// A recognized HTTP version.
#[derive(Debug, Clone, Copy, PartialEq, Eq, Structural)]
pub enum HttpVersion {
    Http09,
    Http10,
    Http11,
    Http2,
    Http3,
}

/// The verb denoted by a method token, if it is recognized.
pub open spec fn spec_method_of(m: Seq<u8>) -> Option<Method> {
    if m == crate::grammar::method_get() {
        Some(Method::Get)
    } else if m == crate::grammar::method_post() {
        Some(Method::Post)
    } else {
        None
    }
}

/// The version denoted by a version token, if it is recognized.
pub open spec fn spec_version_of(v: Seq<u8>) -> Option<HttpVersion> {
    if v == crate::grammar::version_11() {
        Some(HttpVersion::Http11)
    } else {
        None
    }
}

/// The key under which the body length is declared, already folded to lower
/// case.
pub open spec fn content_length_key() -> Seq<u8> {
    ascii_seq("content-length"@)
}

/// The mapping read off a sequence of header lines: keys are names folded to
/// ASCII lower case, and on duplicate keys the last line wins.
pub open spec fn header_map_of(lines: Seq<(Seq<u8>, Seq<u8>)>) -> Map<Seq<u8>, Seq<u8>>
    decreases lines.len(),
{
    if lines.len() == 0 {
        Map::empty()
    } else {
        header_map_of(lines.drop_last()).insert(lower_seq(lines.last().0), lines.last().1)
    }
}

/// The abstract value of a parsed request.
pub struct RequestView {
    pub method: Method,
    pub target: Seq<u8>,
    pub version: HttpVersion,
    pub header_lines: Seq<(Seq<u8>, Seq<u8>)>,
    pub body_len: Option<u64>,
}

impl RequestView {
    /// The headers as a case-insensitive, last-write-wins mapping.
    pub open spec fn headers_map(self) -> Map<Seq<u8>, Seq<u8>> {
        header_map_of(self.header_lines)
    }

    /// Every parsed request satisfies this: the target and every header line
    /// are well-formed, and a recorded body length is never zero.
    pub open spec fn wf(self) -> bool {
        &&& valid_target(self.target)
        &&& wf_headers(self.header_lines)
        &&& (self.body_len matches Some(l) ==> l > 0)
    }
}

/// A typed HTTP/1.1 request head.
#[derive(Debug)]
pub struct Request {
    method: Method,
    target: Vec<u8>,
    version: HttpVersion,
    headers: Vec<(Vec<u8>, Vec<u8>)>,
    body_len: Option<u64>,
}

impl View for Request {
    type V = RequestView;

    closed spec fn view(&self) -> RequestView {
        RequestView {
            method: self.method,
            target: self.target@,
            version: self.version,
            header_lines: pairs_view(self.headers@),
            body_len: self.body_len,
        }
    }
}

impl Request {
    /// The request's verb.
    pub fn method(&self) -> (r: Method)
        ensures
            r == self@.method,
    {
        self.method
    }

    /// The request target, path and optional query, exactly as written on
    /// the start line.
    pub fn uri(&self) -> (r: &Vec<u8>)
        ensures
            r@ == self@.target,
    {
        &self.target
    }

    /// The request's HTTP version.
    pub fn version(&self) -> (r: HttpVersion)
        ensures
            r == self@.version,
    {
        self.version
    }

    /// The parsed header lines, in the order they stood on the wire.
    pub fn headers(&self) -> (r: &Vec<(Vec<u8>, Vec<u8>)>)
        ensures
            pairs_view(r@) == self@.header_lines,
    {
        &self.headers
    }

    /// How many body bytes the head declared; `None` when no body follows.
    pub fn body_len(&self) -> (r: Option<u64>)
        ensures
            r == self@.body_len,
    {
        self.body_len
    }

    /// The value stored under a header name, compared without regard to
    /// ASCII case; of several lines with the same name, the last one wins.
    pub fn header_lookup<'a>(&'a self, name: &[u8]) -> (r: Option<&'a Vec<u8>>)
        ensures
            match r {
                Some(v) => self@.headers_map().contains_key(lower_seq(name@)) && v@
                    == self@.headers_map()[lower_seq(name@)],
                None => !self@.headers_map().contains_key(lower_seq(name@)),
            },
    {
        lookup_header(&self.headers, name)
    }
}

/// The value stored under a header name in a sequence of header lines, read
/// case-insensitively with the last matching line winning.
pub fn lookup_header<'a>(headers: &'a Vec<(Vec<u8>, Vec<u8>)>, name: &[u8]) -> (r: Option<
    &'a Vec<u8>,
>)
    ensures
        match r {
            Some(v) => header_map_of(pairs_view(headers@)).contains_key(lower_seq(name@)) && v@
                == header_map_of(pairs_view(headers@))[lower_seq(name@)],
            None => !header_map_of(pairs_view(headers@)).contains_key(lower_seq(name@)),
        },
{
    let ghost lines = pairs_view(headers@);
    let ghost key = lower_seq(name@);
    let mut i: usize = headers.len();
    proof {
        assert(lines.subrange(0, i as int) =~= lines);
    }
    while i > 0
        invariant
            i <= headers@.len(),
            lines == pairs_view(headers@),
            key == lower_seq(name@),
            header_map_of(lines).contains_key(key) == header_map_of(
                lines.subrange(0, i as int),
            ).contains_key(key),
            header_map_of(lines).contains_key(key) ==> header_map_of(lines)[key]
                == header_map_of(lines.subrange(0, i as int))[key],
        decreases i,
    {
        proof {
            assert(lines.subrange(0, i as int).drop_last() =~= lines.subrange(0, i as int - 1));
            assert(lines.subrange(0, i as int).last() == lines[i as int - 1]);
        }
        i -= 1;
        let entry = &headers[i];
        if crate::ascii::bytes_eq_ci(entry.0.as_slice(), name) {
            proof {
                assert(lower_seq(lines[i as int].0) == key);
            }
            return Some(&entry.1);
        }
        proof {
            assert(lower_seq(lines[i as int].0) != key);
        }
    }
    proof {
        assert(lines.subrange(0, 0) =~= Seq::<(Seq<u8>, Seq<u8>)>::empty());
    }
    None
}

/// The first position at which the head terminator `\r\n\r\n` stands in
/// `s`, or `-1` if it never does.
pub open spec fn spec_find_terminator(s: Seq<u8>) -> int {
    spec_find_terminator_from(s, 0)
}

pub open spec fn spec_find_terminator_from(s: Seq<u8>, from: int) -> int
    decreases s.len() - from
        when 0 <= from
{
    if from + 4 > s.len() {
        -1
    } else if s[from] == CR && s[from + 1] == LF && s[from + 2] == CR && s[from + 3] == LF {
        from
    } else {
        spec_find_terminator_from(s, from + 1)
    }
}

/// What `spec_find_terminator_from` finds is the first terminator at or
/// after `from`.
pub proof fn lemma_find_terminator(s: Seq<u8>, from: int)
    requires
        0 <= from,
    ensures
        ({
            let i = spec_find_terminator_from(s, from);
            &&& i == -1 ==> forall|j: int|
                from <= j && j + 4 <= s.len() ==> !(#[trigger] s[j] == CR && s[j + 1] == LF && s[j
                    + 2] == CR && s[j + 3] == LF)
            &&& i >= 0 ==> {
                &&& from <= i && i + 4 <= s.len()
                &&& s[i] == CR && s[i + 1] == LF && s[i + 2] == CR && s[i + 3] == LF
                &&& forall|j: int|
                    from <= j < i ==> !(#[trigger] s[j] == CR && s[j + 1] == LF && s[j + 2] == CR
                        && s[j + 3] == LF)
            }
        }),
    decreases s.len() - from,
{
    if from + 4 > s.len() {
    } else if s[from] == CR && s[from + 1] == LF && s[from + 2] == CR && s[from + 3] == LF {
    } else {
        lemma_find_terminator(s, from + 1);
    }
}

/// A terminator search over a region free of earlier terminators lands
/// exactly on a known occurrence.
pub proof fn lemma_find_terminator_at(s: Seq<u8>, from: int, at: int)
    requires
        0 <= from <= at,
        at + 4 <= s.len(),
        s[at] == CR && s[at + 1] == LF && s[at + 2] == CR && s[at + 3] == LF,
        forall|j: int|
            from <= j < at ==> !(#[trigger] s[j] == CR && s[j + 1] == LF && s[j + 2] == CR && s[j
                + 3] == LF),
    ensures
        spec_find_terminator_from(s, from) == at,
    decreases at - from,
{
    if from < at {
        lemma_find_terminator_at(s, from + 1, at);
    }
}

/// The executable search for the head terminator `\r\n\r\n`.
pub fn find_terminator(s: &[u8]) -> (r: Option<usize>)
    ensures
        match r {
            Some(i) => i == spec_find_terminator(s@),
            None => spec_find_terminator(s@) == -1,
        },
{
    let n = s.len();
    let mut i: usize = 0;
    loop
        invariant
            i <= n,
            n == s@.len(),
            spec_find_terminator(s@) == spec_find_terminator_from(s@, i as int),
        decreases n - i,
    {
        if n < 4 || i > n - 4 {
            return None;
        }
        if *vstd::slice::slice_index_get(s, i) == CR && *vstd::slice::slice_index_get(s, i + 1)
            == LF && *vstd::slice::slice_index_get(s, i + 2) == CR
            && *vstd::slice::slice_index_get(s, i + 3) == LF {
            return Some(i);
        }
        i += 1;
    }
}

/// What a buffer of accumulated connection bytes parses to: the typed head,
/// or the first failure. The head runs up to and including the first
/// `\r\n\r\n`; a buffer without one is an incomplete request.
pub open spec fn spec_parse_request(buf: Seq<u8>) -> Result<RequestView, ParseError> {
    let t = spec_find_terminator(buf);
    if t < 0 {
        Err(ParseError::IncompleteRequest)
    } else {
        let head = buf.subrange(0, t + 4);
        let i0 = spec_find_two(head, CR, LF, 0);
        if i0 < 0 {
            Err(ParseError::MalformedStartLine)
        } else {
            match spec_parse_start_line(head.subrange(0, i0)) {
                None => Err(ParseError::MalformedStartLine),
                Some((m, tgt, v)) => match spec_method_of(m) {
                    None => Err(ParseError::UnsupportedMethod),
                    Some(method) => match spec_version_of(v) {
                        None => Err(ParseError::UnsupportedVersion),
                        Some(version) => match spec_parse_header_lines(head, i0 + 2) {
                            None => Err(ParseError::MalformedHeader),
                            Some(lines) => spec_attach_body(
                                RequestView {
                                    method,
                                    target: tgt,
                                    version,
                                    header_lines: lines,
                                    body_len: None,
                                },
                            ),
                        },
                    },
                },
            }
        }
    }
}

/// The body plan read off the parsed head: no declared `Content-Length`, or
/// one of `0`, leaves the request without a body; a positive count bounds
/// the body to exactly that many bytes; anything that is not a plain decimal
/// number that fits is a malformed declaration.
pub open spec fn spec_attach_body(r: RequestView) -> Result<RequestView, ParseError> {
    let hm = header_map_of(r.header_lines);
    if !hm.contains_key(content_length_key()) {
        Ok(r)
    } else {
        let cv = hm[content_length_key()];
        if cv.len() > 0 && all_digits(cv) && dec_value(cv) <= u64::MAX {
            if dec_value(cv) == 0 {
                Ok(r)
            } else {
                Ok(
                    RequestView {
                        method: r.method,
                        target: r.target,
                        version: r.version,
                        header_lines: r.header_lines,
                        body_len: Some(dec_value(cv) as u64),
                    },
                )
            }
        } else {
            Err(ParseError::MalformedContentLength)
        }
    }
}

/// Every block of header lines the spec parser accepts is well-formed text.
pub proof fn lemma_parsed_headers_wf(s: Seq<u8>, pos: int)
    requires
        0 <= pos,
        spec_parse_header_lines(s, pos) is Some,
    ensures
        wf_headers(spec_parse_header_lines(s, pos).unwrap()),
    decreases s.len() - pos,
{
    let lines = spec_parse_header_lines(s, pos).unwrap();
    if pos + 2 <= s.len() && s[pos] == CR && s[pos + 1] == LF {
    } else {
        let i = spec_find_two(s, CR, LF, pos);
        crate::grammar::lemma_find_two(s, CR, LF, pos);
        let nv = crate::grammar::spec_parse_header_line(s.subrange(pos, i)).unwrap();
        let rest = spec_parse_header_lines(s, i + 2).unwrap();
        lemma_parsed_headers_wf(s, i + 2);
        assert(lines == seq![nv] + rest);
        assert(crate::grammar::valid_name(nv.0) && crate::grammar::valid_value(nv.1));
        assert forall|k: int| 0 <= k < lines.len() implies crate::grammar::valid_name(
            #[trigger] lines[k].0,
        ) && crate::grammar::valid_value(lines[k].1) by {
            if k == 0 {
            } else {
                assert(lines[k] == rest[k - 1]);
            }
        }
    }
}

/// A buffer in which the blank-line terminator never arrived parses to
/// `IncompleteRequest`, whatever else it holds.
pub proof fn lemma_no_terminator_incomplete(buf: Seq<u8>)
    requires
        spec_find_terminator(buf) < 0,
    ensures
        spec_parse_request(buf) == Err::<RequestView, ParseError>(ParseError::IncompleteRequest),
{
}

/// Request round trip: a head serialized from a recognized method token, a
/// well-formed target and well-formed header entries parses back to exactly
/// those parts — the method, the target byte for byte, and every header
/// entry in order. Only the body-length reading can still reject it, when
/// the entries themselves declare an unreadable `Content-Length`; with no
/// such declaration the parse always succeeds.
pub proof fn lemma_request_round_trip(m: Seq<u8>, t: Seq<u8>, hs: Seq<(Seq<u8>, Seq<u8>)>)
    requires
        spec_method_of(m) is Some,
        valid_target(t),
        wf_headers(hs),
    ensures
        ({
            let buf = crate::grammar::ser_start_line(m, t, crate::grammar::version_11())
                + crate::grammar::crlf() + crate::grammar::ser_header_lines(hs)
                + crate::grammar::crlf();
            &&& match spec_parse_request(buf) {
                Ok(r) => {
                    &&& Some(r.method) == spec_method_of(m)
                    &&& r.target == t
                    &&& r.version == HttpVersion::Http11
                    &&& r.header_lines == hs
                },
                Err(e) => e == ParseError::MalformedContentLength,
            }
            &&& !header_map_of(hs).contains_key(content_length_key())
                ==> spec_parse_request(buf) is Ok
        }),
{
    let v11 = crate::grammar::version_11();
    let sl = crate::grammar::ser_start_line(m, t, v11);
    let block = crate::grammar::ser_header_lines(hs);
    let buf = sl + crate::grammar::crlf() + block + crate::grammar::crlf();
    let p0 = sl.len() as int;
    let end = buf.len() - 4;
    reveal_strlit("GET");
    reveal_strlit("POST");
    reveal_strlit("1.1");
    assert(crate::grammar::valid_method_token(m));
    assert(crate::grammar::valid_version_token(v11));
    crate::grammar::lemma_start_line_no_cr(m, t, v11);
    assert(end == p0 + block.len());
    // The terminator stands at the very end of the head.
    assert(buf[p0] == CR && buf[p0 + 1] == LF);
    if hs.len() == 0 {
        assert(block =~= Seq::<u8>::empty());
        assert(end == p0);
        assert(buf[end + 2] == CR && buf[end + 3] == LF);
    } else {
        crate::grammar::lemma_ser_header_lines_ends_crlf(hs);
        assert(buf[end] == block[block.len() - 2]);
        assert(buf[end + 1] == block[block.len() - 1]);
        assert(buf[end + 2] == CR && buf[end + 3] == LF);
    }
    assert(buf[end] == CR && buf[end + 1] == LF && buf[end + 2] == CR && buf[end + 3] == LF);
    // And nowhere earlier.
    assert(buf.subrange(p0 + 2, buf.len() as int) =~= block + crate::grammar::crlf());
    crate::grammar::lemma_header_block_no_early_terminator(buf, p0 + 2, hs);
    assert forall|j: int|
        0 <= j < end implies !(#[trigger] buf[j] == CR && buf[j + 1] == LF && buf[j + 2] == CR
        && buf[j + 3] == LF) by {
        if j < p0 {
            assert(buf[j] == sl[j]);
        } else if j == p0 {
            assert(hs.len() > 0);
            let n0 = hs[0].0;
            assert(buf[p0 + 2] == block[0]);
            assert(block[0] == n0[0]);
            assert(crate::grammar::is_tchar(n0[0]));
        } else if j == p0 + 1 {
            assert(buf[j] == LF);
        } else {
            assert(p0 + 2 <= j && j + 5 <= buf.len());
        }
    }
    lemma_find_terminator_at(buf, 0, end);
    let ti = spec_find_terminator_from(buf, 0);
    assert(ti == end);
    // The head is the whole buffer, its first line the start line.
    let head = buf.subrange(0, ti + 4);
    assert(head =~= buf);
    crate::grammar::lemma_find_two_at(buf, CR, LF, 0, p0);
    assert(buf.subrange(0, p0) =~= sl);
    crate::grammar::lemma_start_line_round_trip(m, t, v11);
    assert(spec_parse_start_line(buf.subrange(0, p0)) == Some((m, t, v11)));
    assert(spec_version_of(v11) == Some(HttpVersion::Http11));
    // The header block parses back to exactly the entries written.
    crate::grammar::lemma_header_lines_round_trip(buf, p0 + 2, hs);
    assert(spec_parse_header_lines(buf, p0 + 2) == Some(hs));
}

/// The request-head parser.
pub struct RequestParser;

impl RequestParser {
    /// Parses the accumulated connection bytes into a typed request head.
    /// On success also returns how many bytes the head consumed: the body,
    /// if one was declared, begins at exactly that offset.
    pub fn parse(buf: &[u8]) -> (r: Result<(Request, usize), ParseError>)
        ensures
            match r {
                Ok(p) => {
                    &&& spec_parse_request(buf@) == Ok::<RequestView, ParseError>(p.0@)
                    &&& p.0@.wf()
                    &&& p.1 == spec_find_terminator(buf@) + 4
                    &&& p.1 <= buf@.len()
                },
                Err(e) => spec_parse_request(buf@) == Err::<RequestView, ParseError>(e),
            },
    {
        let t = match find_terminator(buf) {
            Some(t) => t,
            None => {
                return Err(ParseError::IncompleteRequest);
            },
        };
        let n = buf.len();
        proof {
            lemma_find_terminator(buf@, 0);
            assert(t + 4 <= n);
        }
        let head = vstd::slice::slice_subrange(buf, 0, t + 4);
        let ghost head_seq = buf@.subrange(0, t as int + 4);
        let i0 = match crate::grammar::find_two(head, CR, LF, 0) {
            Some(i0) => i0,
            None => {
                return Err(ParseError::MalformedStartLine);
            },
        };
        proof {
            crate::grammar::lemma_find_two(head_seq, CR, LF, 0);
        }
        let line = vstd::slice::slice_subrange(head, 0, i0);
        let (m, tgt, v) = match crate::grammar::parse_start_line(line) {
            Ok(p) => p,
            Err(e) => {
                return Err(e);
            },
        };
        proof {
            reveal_strlit("GET");
            reveal_strlit("POST");
            reveal_strlit("1.1");
        }
        let get_lit = crate::ascii::lit_bytes("GET");
        let post_lit = crate::ascii::lit_bytes("POST");
        let method: Method = if crate::ascii::bytes_eq(m.as_slice(), get_lit.as_slice()) {
            Method::Get
        } else if crate::ascii::bytes_eq(m.as_slice(), post_lit.as_slice()) {
            Method::Post
        } else {
            return Err(ParseError::UnsupportedMethod);
        };
        let v11_lit = crate::ascii::lit_bytes("1.1");
        if !crate::ascii::bytes_eq(v.as_slice(), v11_lit.as_slice()) {
            return Err(ParseError::UnsupportedVersion);
        }
        let version = HttpVersion::Http11;
        let headers = match crate::grammar::parse_header_lines(head, i0 + 2) {
            Ok(hs) => hs,
            Err(e) => {
                return Err(e);
            },
        };
        proof {
            lemma_parsed_headers_wf(head_seq, i0 as int + 2);
        }
        let request = Request { method, target: tgt, version, headers, body_len: None };
        proof {
            reveal_strlit("content-length");
            assert(lower_seq(ascii_seq("content-length"@)) =~= content_length_key());
        }
        let cl_lit = crate::ascii::lit_bytes("content-length");
        let body_len: Option<u64> = match request.header_lookup(cl_lit.as_slice()) {
            None => None,
            Some(cv) => match crate::ascii::parse_u64_decimal(cv.as_slice()) {
                Some(l) => {
                    if l == 0 {
                        None
                    } else {
                        Some(l)
                    }
                },
                None => {
                    return Err(ParseError::MalformedContentLength);
                },
            },
        };
        let request = Request { body_len, ..request };
        Ok((request, t + 4))
    }
}

} // verus!
