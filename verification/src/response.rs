//! The typed response model and its serializer.
//!
//! A response pairs a status, a version and headers with one of three body
//! variants: no body, a fully buffered body, or a streamed body whose chunks
//! the caller pulls from its source one at a time. Serialization is a pure
//! function to bytes: status line, header lines, a blank line, then the
//! buffered body if there is one. For a streamed body the serializer emits
//! the head only, and the caller writes the chunks behind it in order; the
//! serializer never invents framing headers such as `Content-Length`.
use crate::ascii::{ascii_seq, CR, LF, SP};
use crate::grammar::{
    crlf, http_slash, ser_header_line, ser_header_lines, spec_find_two, spec_parse_header_lines,
    wf_headers,
};
use crate::request::HttpVersion;
use vstd::prelude::*;

verus! {

/// A response body: absent, fully buffered, or streamed from elsewhere in
/// chunks that are never all in memory at once.
#[derive(Debug)]
pub enum Body {
    Empty,
    Full(Vec<u8>),
    Streamed,
}

/// The abstract value of a body.
pub enum BodyView {
    Empty,
    Full(Seq<u8>),
    Streamed,
}

impl View for Body {
    type V = BodyView;

    open spec fn view(&self) -> BodyView {
        match self {
            Body::Empty => BodyView::Empty,
            Body::Full(d) => BodyView::Full(d@),
            Body::Streamed => BodyView::Streamed,
        }
    }
}

/// The abstract value of a response.
pub struct ResponseView {
    pub status: u16,
    pub version: HttpVersion,
    pub headers: Seq<(Seq<u8>, Seq<u8>)>,
    pub body: BodyView,
}

impl ResponseView {
    /// A serializable response: a three-digit status and well-formed header
    /// text.
    pub open spec fn wf(self) -> bool {
        &&& 100 <= self.status <= 999
        &&& wf_headers(self.headers)
    }
}

/// A typed HTTP response.
#[derive(Debug)]
pub struct Response {
    pub status: u16,
    pub version: HttpVersion,
    pub headers: Vec<(Vec<u8>, Vec<u8>)>,
    pub body: Body,
}

impl View for Response {
    type V = ResponseView;

    open spec fn view(&self) -> ResponseView {
        ResponseView {
            status: self.status,
            version: self.version,
            headers: crate::grammar::pairs_view(self.headers@),
            body: self.body@,
        }
    }
}

/// The canonical dotted literal of a version, as it stands on the wire.
pub open spec fn version_literal(v: HttpVersion) -> Seq<u8> {
    match v {
        HttpVersion::Http09 => ascii_seq("0.9"@),
        HttpVersion::Http10 => ascii_seq("1.0"@),
        HttpVersion::Http11 => ascii_seq("1.1"@),
        HttpVersion::Http2 => ascii_seq("2.0"@),
        HttpVersion::Http3 => ascii_seq("3.0"@),
    }
}

/// The three ASCII digits of a status code between 100 and 999.
pub open spec fn status_digits(st: u16) -> Seq<u8> {
    seq![(48 + st / 100 % 10) as u8, (48 + st / 10 % 10) as u8, (48 + st % 10) as u8]
}

/// The canonical reason phrase of the status codes this library emits.
pub open spec fn reason_of(st: u16) -> Option<Seq<u8>> {
    if st == 200 {
        Some(ascii_seq("OK"@))
    } else if st == 201 {
        Some(ascii_seq("Created"@))
    } else if st == 404 {
        Some(ascii_seq("Not Found"@))
    } else if st == 500 {
        Some(ascii_seq("Internal Server Error"@))
    } else {
        None
    }
}

/// The wire form of a status line:
/// `"HTTP/" version SP digits [SP reason] "\r\n"`.
pub open spec fn spec_status_line(st: u16, v: HttpVersion) -> Seq<u8> {
    http_slash() + version_literal(v) + seq![SP] + status_digits(st) + (match reason_of(st) {
        Some(r) => seq![SP] + r,
        None => Seq::empty(),
    }) + crlf()
}

/// The wire form of a response head: status line, header lines, blank line.
pub open spec fn spec_head_bytes(r: ResponseView) -> Seq<u8> {
    spec_status_line(r.status, r.version) + ser_header_lines(r.headers) + crlf()
}

/// The bytes a body variant contributes to serialization. A streamed body
/// contributes nothing here: its chunks follow the head as the caller pulls
/// them from their source.
pub open spec fn spec_body_bytes(b: BodyView) -> Seq<u8> {
    match b {
        BodyView::Empty => Seq::empty(),
        BodyView::Full(d) => d,
        BodyView::Streamed => Seq::empty(),
    }
}

/// The full wire form of a response as far as serialization alone carries
/// it: the head, then the buffered body if there is one.
pub open spec fn spec_response_bytes(r: ResponseView) -> Seq<u8> {
    spec_head_bytes(r) + spec_body_bytes(r.body)
}

/// Appends a byte slice to a vector.
pub fn append_bytes(dst: &mut Vec<u8>, src: &[u8])
    ensures
        final(dst)@ == old(dst)@ + src@,
{
    let n = src.len();
    let mut i: usize = 0;
    while i < n
        invariant
            i <= n,
            n == src@.len(),
            dst@ == old(dst)@ + src@.subrange(0, i as int),
        decreases n - i,
    {
        dst.push(*vstd::slice::slice_index_get(src, i));
        i += 1;
        proof {
            assert(dst@ =~= old(dst)@ + src@.subrange(0, i as int));
        }
    }
    proof {
        assert(src@.subrange(0, n as int) =~= src@);
    }
}

/// The canonical dotted literal of a version, as bytes.
pub fn version_bytes(v: HttpVersion) -> (r: Vec<u8>)
    ensures
        r@ == version_literal(v),
{
    proof {
        reveal_strlit("0.9");
        reveal_strlit("1.0");
        reveal_strlit("1.1");
        reveal_strlit("2.0");
        reveal_strlit("3.0");
    }
    match v {
        HttpVersion::Http09 => crate::ascii::lit_bytes("0.9"),
        HttpVersion::Http10 => crate::ascii::lit_bytes("1.0"),
        HttpVersion::Http11 => crate::ascii::lit_bytes("1.1"),
        HttpVersion::Http2 => crate::ascii::lit_bytes("2.0"),
        HttpVersion::Http3 => crate::ascii::lit_bytes("3.0"),
    }
}

/// The canonical reason phrase of a status code, as bytes.
pub fn reason_bytes(st: u16) -> (r: Option<Vec<u8>>)
    ensures
        match r {
            Some(p) => reason_of(st) == Some(p@),
            None => reason_of(st) is None,
        },
{
    proof {
        reveal_strlit("OK");
        reveal_strlit("Created");
        reveal_strlit("Not Found");
        reveal_strlit("Internal Server Error");
    }
    if st == 200 {
        Some(crate::ascii::lit_bytes("OK"))
    } else if st == 201 {
        Some(crate::ascii::lit_bytes("Created"))
    } else if st == 404 {
        Some(crate::ascii::lit_bytes("Not Found"))
    } else if st == 500 {
        Some(crate::ascii::lit_bytes("Internal Server Error"))
    } else {
        None
    }
}

/// Serializing one more header entry extends the block by that entry's line.
pub proof fn lemma_ser_header_lines_snoc(hs: Seq<(Seq<u8>, Seq<u8>)>, nv: (Seq<u8>, Seq<u8>))
    ensures
        ser_header_lines(hs.push(nv)) == ser_header_lines(hs) + ser_header_line(nv.0, nv.1),
    decreases hs.len(),
{
    if hs.len() == 0 {
        let p = hs.push(nv);
        assert(p[0] == nv);
        assert(p.drop_first() =~= Seq::<(Seq<u8>, Seq<u8>)>::empty());
        assert(ser_header_lines(p) == ser_header_line(nv.0, nv.1) + ser_header_lines(
            p.drop_first(),
        ));
        assert(ser_header_lines(p.drop_first()) == Seq::<u8>::empty());
        assert(ser_header_lines(hs) == Seq::<u8>::empty());
        assert(ser_header_lines(p) =~= ser_header_lines(hs) + ser_header_line(nv.0, nv.1));
    } else {
        assert(hs.push(nv).drop_first() =~= hs.drop_first().push(nv));
        lemma_ser_header_lines_snoc(hs.drop_first(), nv);
        assert(hs.push(nv)[0] == hs[0]);
        assert(ser_header_lines(hs.push(nv)) == ser_header_line(hs[0].0, hs[0].1)
            + ser_header_lines(hs.drop_first().push(nv)));
        assert(ser_header_lines(hs.push(nv)) =~= ser_header_lines(hs) + ser_header_line(
            nv.0,
            nv.1,
        ));
    }
}

/// The status line of a response, as bytes.
pub fn serialize_status_line(st: u16, v: HttpVersion) -> (r: Vec<u8>)
    requires
        100 <= st <= 999,
    ensures
        r@ == spec_status_line(st, v),
{
    let mut out: Vec<u8> = Vec::new();
    proof {
        reveal_strlit("HTTP/");
    }
    let http = crate::ascii::lit_bytes("HTTP/");
    append_bytes(&mut out, http.as_slice());
    let vb = version_bytes(v);
    append_bytes(&mut out, vb.as_slice());
    out.push(SP);
    out.push(48 + (st / 100 % 10) as u8);
    out.push(48 + (st / 10 % 10) as u8);
    out.push(48 + (st % 10) as u8);
    proof {
        assert(out@ =~= http_slash() + version_literal(v) + seq![SP] + status_digits(st));
    }
    match reason_bytes(st) {
        Some(reason) => {
            out.push(SP);
            append_bytes(&mut out, reason.as_slice());
        },
        None => {},
    }
    out.push(CR);
    out.push(LF);
    proof {
        assert(out@ =~= spec_status_line(st, v));
    }
    out
}

/// The head of a response as wire bytes: status line, each header as
/// `name ": " value` on its own line, and the terminating blank line.
pub fn serialize_head(resp: &Response) -> (r: Vec<u8>)
    requires
        resp@.wf(),
    ensures
        r@ == spec_head_bytes(resp@),
{
    let mut out = serialize_status_line(resp.status, resp.version);
    let ghost sl = spec_status_line(resp.status, resp.version);
    let ghost hv = resp@.headers;
    let n = resp.headers.len();
    let mut i: usize = 0;
    proof {
        assert(hv.subrange(0, 0) =~= Seq::<(Seq<u8>, Seq<u8>)>::empty());
        assert(out@ =~= sl + ser_header_lines(hv.subrange(0, 0)));
    }
    while i < n
        invariant
            i <= n,
            n == resp.headers@.len(),
            hv == resp@.headers,
            hv.len() == n,
            out@ == sl + ser_header_lines(hv.subrange(0, i as int)),
        decreases n - i,
    {
        let entry = &resp.headers[i];
        let ghost before = out@;
        append_bytes(&mut out, entry.0.as_slice());
        out.push(crate::ascii::COLON);
        out.push(SP);
        append_bytes(&mut out, entry.1.as_slice());
        out.push(CR);
        out.push(LF);
        proof {
            assert(out@ =~= before + ser_header_line(hv[i as int].0, hv[i as int].1));
            assert(hv.subrange(0, i as int).push(hv[i as int]) =~= hv.subrange(0, i as int + 1));
            lemma_ser_header_lines_snoc(hv.subrange(0, i as int), hv[i as int]);
            assert(out@ =~= sl + ser_header_lines(hv.subrange(0, i as int + 1)));
        }
        i += 1;
    }
    out.push(CR);
    out.push(LF);
    proof {
        assert(hv.subrange(0, n as int) =~= hv);
        assert(out@ =~= spec_head_bytes(resp@));
    }
    out
}

/// A whole response as wire bytes, as far as serialization alone carries
/// it: the head, then the buffered body if the variant holds one. A
/// streamed body contributes no bytes here; its chunks follow as the caller
/// pulls them.
pub fn serialize_response(resp: &Response) -> (r: Vec<u8>)
    requires
        resp@.wf(),
    ensures
        r@ == spec_response_bytes(resp@),
{
    let mut out = serialize_head(resp);
    match &resp.body {
        Body::Empty => {},
        Body::Full(data) => {
            append_bytes(&mut out, data.as_slice());
        },
        Body::Streamed => {},
    }
    proof {
        assert(out@ =~= spec_response_bytes(resp@));
    }
    out
}

/// Serialization round trip: the head of a well-formed response parses back
/// to exactly what was serialized. The first line of the head is the status
/// line, byte for byte, and the header block after it parses to exactly the
/// header entries that were written, in order.
/// A status line carries no carriage return before its own terminator.
#[verifier::rlimit(60)]
pub proof fn lemma_status_line_no_cr(st: u16, v: HttpVersion)
    requires
        100 <= st <= 999,
    ensures
        ({
            let sl = spec_status_line(st, v);
            &&& sl.len() >= 2
            &&& sl[sl.len() - 2] == CR && sl[sl.len() - 1] == LF
            &&& forall|k: int| 0 <= k < sl.len() - 2 ==> #[trigger] sl[k] != CR
        }),
{
    let sl = spec_status_line(st, v);
    reveal_strlit("HTTP/");
    reveal_strlit("0.9");
    reveal_strlit("1.0");
    reveal_strlit("1.1");
    reveal_strlit("2.0");
    reveal_strlit("3.0");
    reveal_strlit("OK");
    reveal_strlit("Created");
    reveal_strlit("Not Found");
    reveal_strlit("Internal Server Error");
    assert(sl.len() >= 2);
    assert forall|k: int| 0 <= k < sl.len() - 2 implies #[trigger] sl[k] != CR by {
        let vl = version_literal(v);
        let pre = http_slash() + vl + seq![SP] + status_digits(st);
        if k < pre.len() {
            if k < 5 {
                assert(sl[k] == http_slash()[k]);
            } else if k < 5 + vl.len() {
                assert(sl[k] == vl[k - 5]);
            } else if k == 5 + vl.len() {
                assert(sl[k] == SP);
            } else {
                assert(sl[k] == status_digits(st)[k - 6 - vl.len()]);
            }
        } else {
            match reason_of(st) {
                Some(ph) => {
                    if k == pre.len() {
                        assert(sl[k] == SP);
                    } else {
                        assert(sl[k] == ph[k - pre.len() - 1]);
                    }
                },
                None => {},
            }
        }
    }
}

pub proof fn lemma_response_head_round_trip(r: ResponseView)
    requires
        r.wf(),
    ensures
        ({
            let head = spec_head_bytes(r);
            let sl = spec_status_line(r.status, r.version);
            &&& spec_find_two(head, CR, LF, 0) == sl.len() - 2
            &&& head.subrange(0, sl.len() as int) == sl
            &&& spec_parse_header_lines(head, sl.len() as int) == Some(r.headers)
        }),
{
    let head = spec_head_bytes(r);
    let sl = spec_status_line(r.status, r.version);
    lemma_status_line_no_cr(r.status, r.version);
    assert forall|k: int| 0 <= k < sl.len() implies #[trigger] head[k] == sl[k] by {}
    crate::grammar::lemma_find_two_at(head, CR, LF, 0, sl.len() - 2);
    assert(head.subrange(0, sl.len() as int) =~= sl);
    assert(head.subrange(sl.len() as int, head.len() as int) =~= ser_header_lines(r.headers)
        + crlf());
    crate::grammar::lemma_header_lines_round_trip(head, sl.len() as int, r.headers);
}

} // verus!
