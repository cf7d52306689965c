//! The route dispatcher: one decision per request.
//!
//! The decision is a pure function of the request head and the configured
//! serving directory, except that the `echo` route may compress its payload.
//! Routes that need no file yield a finished `Reply`; the two file routes
//! yield an action the caller performs against the filesystem, after which
//! it builds the reply with `file_found_response`, `not_found` or
//! `created_response`.
use crate::ascii::{ascii_seq, bytes_eq, ci_eq, dec_digits, lit_bytes, lower_seq, SP};
use crate::grammar::{
    find_byte, spec_find_byte, spec_find_two, valid_name, valid_value, wf_headers,
};
use crate::gzip::gunzip_of;
use crate::request::{HttpVersion, Method, Request, RequestView};
use crate::response::{Body, BodyView, Response, ResponseView};
use vstd::prelude::*;

verus! {

pub const SLASH: u8 = 47;

pub const QMARK: u8 = 63;

pub const COMMA: u8 = 44;

/// The configuration the dispatcher runs under: the directory that the
/// `files` routes serve, if one was supplied.
pub struct Args {
    pub directory: Option<Vec<u8>>,
}

/// What a request fails to say for its chosen route.
#[derive(Debug, Clone, Copy, PartialEq, Eq, Structural)]
pub enum DispatchError {
    /// `echo` without a payload segment.
    MissingEchoArgument,
    /// `files` without a file-name segment.
    MissingFileName,
    /// `files` when no serving directory was configured.
    NoDirectoryConfigured,
    /// `POST files` without a request body.
    MissingBody,
    /// The payload could not be compressed.
    EncodingFailed,
}

/// What the dispatcher decides: a finished reply, or a file action the
/// caller performs with the joined path.
#[derive(Debug)]
pub enum Outcome {
    Reply(Response),
    ServeFile { path: Vec<u8> },
    StoreFile { path: Vec<u8> },
}

/// The path of a request target: everything before the first `?`.
pub open spec fn spec_path(t: Seq<u8>) -> Seq<u8> {
    let q = spec_find_byte(t, QMARK, 0);
    if q < 0 {
        t
    } else {
        t.subrange(0, q)
    }
}

/// The first position at or after `from` whose byte is not a slash; the
/// length of `p` when only slashes remain.
pub open spec fn spec_skip_slashes(p: Seq<u8>, from: int) -> int
    decreases p.len() - from
        when 0 <= from
{
    if from >= p.len() {
        p.len() as int
    } else if p[from] == SLASH {
        spec_skip_slashes(p, from + 1)
    } else {
        from
    }
}

/// The bounds of the next non-empty `/`-delimited segment at or after
/// `from`, or `None` when no segment is left.
pub open spec fn spec_next_segment(p: Seq<u8>, from: int) -> Option<(int, int)> {
    let a = spec_skip_slashes(p, from);
    if a >= p.len() {
        None
    } else {
        let e = spec_find_byte(p, SLASH, a);
        if e < 0 {
            Some((a, p.len() as int))
        } else {
            Some((a, e))
        }
    }
}

/// The first non-empty segment of a path.
pub open spec fn spec_first_segment(p: Seq<u8>) -> Option<Seq<u8>> {
    match spec_next_segment(p, 0) {
        None => None,
        Some((a, b)) => Some(p.subrange(a, b)),
    }
}

/// The second non-empty segment of a path.
pub open spec fn spec_second_segment(p: Seq<u8>) -> Option<Seq<u8>> {
    match spec_next_segment(p, 0) {
        None => None,
        Some((a, b)) => match spec_next_segment(p, b) {
            None => None,
            Some((c, d)) => Some(p.subrange(c, d)),
        },
    }
}

/// The executable counterpart of `spec_skip_slashes`.
fn skip_slashes(p: &[u8], from: usize) -> (r: usize)
    requires
        from <= p@.len(),
    ensures
        r == spec_skip_slashes(p@, from as int),
        from <= r <= p@.len(),
        r < p@.len() ==> p@[r as int] != SLASH,
{
    let n = p.len();
    let mut i: usize = from;
    loop
        invariant
            from <= i <= n,
            n == p@.len(),
            spec_skip_slashes(p@, from as int) == spec_skip_slashes(p@, i as int),
        decreases n - i,
    {
        if i >= n {
            return i;
        }
        if *vstd::slice::slice_index_get(p, i) != SLASH {
            return i;
        }
        i += 1;
    }
}

/// The executable counterpart of `spec_next_segment`.
fn next_segment(p: &[u8], from: usize) -> (r: Option<(usize, usize)>)
    requires
        from <= p@.len(),
    ensures
        match r {
            Some(ab) => {
                &&& spec_next_segment(p@, from as int) == Some((ab.0 as int, ab.1 as int))
                &&& from <= ab.0 < ab.1 <= p@.len()
            },
            None => spec_next_segment(p@, from as int) is None,
        },
{
    let n = p.len();
    let a = skip_slashes(p, from);
    if a >= n {
        return None;
    }
    proof {
        crate::grammar::lemma_find_byte(p@, SLASH, a as int);
    }
    match find_byte(p, SLASH, a) {
        Some(e) => Some((a, e)),
        None => Some((a, n)),
    }
}

/// The lower-cased key under which a client advertises its accepted
/// encodings.
pub open spec fn ae_key() -> Seq<u8> {
    ascii_seq("accept-encoding"@)
}

/// The lower-cased key under which a client names itself.
pub open spec fn ua_key() -> Seq<u8> {
    ascii_seq("user-agent"@)
}

/// The encoding token the `echo` route negotiates.
pub open spec fn gzip_token() -> Seq<u8> {
    ascii_seq("gzip"@)
}

/// Whether the list items of `v` from `pos` on, separated by the exact two
/// bytes `", "`, include one equal to `gzip` up to ASCII case.
pub open spec fn spec_list_has_gzip(v: Seq<u8>, pos: int) -> bool
    decreases v.len() - pos
        when 0 <= pos <= v.len()
{
    let i = spec_find_two(v, COMMA, SP, pos);
    if i < 0 || i < pos || i + 2 > v.len() {
        ci_eq(v.subrange(pos, v.len() as int), gzip_token())
    } else {
        ci_eq(v.subrange(pos, i), gzip_token()) || spec_list_has_gzip(v, i + 2)
    }
}

/// Whether the request's `Accept-Encoding` header lists `gzip`.
pub open spec fn spec_accepts_gzip(r: RequestView) -> bool {
    r.headers_map().contains_key(ae_key()) && spec_list_has_gzip(r.headers_map()[ae_key()], 0)
}

/// The executable counterpart of `spec_list_has_gzip`.
fn list_has_gzip(v: &[u8], pos: usize) -> (r: bool)
    requires
        pos <= v@.len(),
    ensures
        r == spec_list_has_gzip(v@, pos as int),
    decreases v@.len() - pos,
{
    proof {
        reveal_strlit("gzip");
    }
    let tok = lit_bytes("gzip");
    let n = v.len();
    match crate::grammar::find_two(v, COMMA, SP, pos) {
        Some(i) => {
            proof {
                crate::grammar::lemma_find_two(v@, COMMA, SP, pos as int);
            }
            let item = vstd::slice::slice_subrange(v, pos, i);
            if crate::ascii::bytes_eq_ci(item, tok.as_slice()) {
                true
            } else {
                list_has_gzip(v, i + 2)
            }
        },
        None => {
            let item = vstd::slice::slice_subrange(v, pos, n);
            crate::ascii::bytes_eq_ci(item, tok.as_slice())
        },
    }
}

/// Whether the request advertises `gzip` among its accepted encodings, as a
/// case-insensitive token of the comma-and-space separated list.
pub fn accepts_gzip(req: &Request) -> (r: bool)
    ensures
        r == spec_accepts_gzip(req@),
{
    proof {
        reveal_strlit("accept-encoding");
        assert(lower_seq(ascii_seq("accept-encoding"@)) =~= ae_key());
    }
    let key = lit_bytes("accept-encoding");
    match req.header_lookup(key.as_slice()) {
        None => false,
        Some(v) => list_has_gzip(v.as_slice(), 0),
    }
}

/// The header name `Content-Type`.
pub open spec fn ct_name() -> Seq<u8> {
    ascii_seq("Content-Type"@)
}

/// The header name `Content-Length`.
pub open spec fn cl_name() -> Seq<u8> {
    ascii_seq("Content-Length"@)
}

/// The header name `Content-Encoding`.
pub open spec fn ce_name() -> Seq<u8> {
    ascii_seq("Content-Encoding"@)
}

/// The media type `text/plain`.
pub open spec fn text_plain() -> Seq<u8> {
    ascii_seq("text/plain"@)
}

/// The media type `application/octet-stream`.
pub open spec fn octet_stream() -> Seq<u8> {
    ascii_seq("application/octet-stream"@)
}

/// The fixed body of a `404` reply.
pub open spec fn not_found_body() -> Seq<u8> {
    ascii_seq("Not Found"@)
}

/// The header names and values the dispatcher writes are well-formed text.
#[verifier::rlimit(60)]
pub proof fn lemma_dispatch_constants_valid()
    ensures
        valid_name(ct_name()),
        valid_name(cl_name()),
        valid_name(ce_name()),
        valid_value(text_plain()),
        valid_value(octet_stream()),
        valid_value(gzip_token()),
{
    reveal_strlit("Content-Type");
    reveal_strlit("Content-Length");
    reveal_strlit("Content-Encoding");
    reveal_strlit("gzip");
    reveal_strlit("text/plain");
    reveal_strlit("application/octet-stream");
}

/// A rendered byte count is a well-formed header value.
pub proof fn lemma_dec_digits_valid_value(n: nat)
    ensures
        valid_value(dec_digits(n)),
{
    crate::ascii::lemma_dec_digits_value(n);
    assert forall|i: int| 0 <= i < dec_digits(n).len() implies crate::grammar::is_vchar(
        #[trigger] dec_digits(n)[i],
    ) by {
        assert(crate::ascii::is_digit(dec_digits(n)[i]));
    }
}

/// The reply to the root route: `200` with no body.
pub open spec fn root_view() -> ResponseView {
    ResponseView {
        status: 200,
        version: HttpVersion::Http11,
        headers: Seq::empty(),
        body: BodyView::Empty,
    }
}

/// The reply to an unknown route: `404` with the fixed body.
pub open spec fn not_found_view() -> ResponseView {
    ResponseView {
        status: 404,
        version: HttpVersion::Http11,
        headers: Seq::empty(),
        body: BodyView::Full(not_found_body()),
    }
}

/// The reply to a stored file: `201` with no body.
pub open spec fn created_view() -> ResponseView {
    ResponseView {
        status: 201,
        version: HttpVersion::Http11,
        headers: Seq::empty(),
        body: BodyView::Empty,
    }
}

/// The reply of the `echo` route without compression: the payload itself as
/// plain text, its length declared.
pub open spec fn echo_plain_view(payload: Seq<u8>) -> ResponseView {
    ResponseView {
        status: 200,
        version: HttpVersion::Http11,
        headers: seq![(ct_name(), text_plain()), (cl_name(), dec_digits(payload.len()))],
        body: BodyView::Full(payload),
    }
}

/// The reply of the `echo` route with compression: the compressed bytes as
/// plain text under `Content-Encoding: gzip`, their length declared.
pub open spec fn echo_gzip_view(compressed: Seq<u8>) -> ResponseView {
    ResponseView {
        status: 200,
        version: HttpVersion::Http11,
        headers: seq![
            (ct_name(), text_plain()),
            (ce_name(), gzip_token()),
            (cl_name(), dec_digits(compressed.len())),
        ],
        body: BodyView::Full(compressed),
    }
}

/// The reply of the `user-agent` route: the header value echoed as plain
/// text, its length declared.
pub open spec fn user_agent_view(value: Seq<u8>) -> ResponseView {
    ResponseView {
        status: 200,
        version: HttpVersion::Http11,
        headers: seq![(ct_name(), text_plain()), (cl_name(), dec_digits(value.len()))],
        body: BodyView::Full(value),
    }
}

/// The reply to a served file of `len` bytes: an octet stream of declared
/// length whose bytes follow the head as the caller reads the file, chunk
/// by chunk, never all in memory at once.
pub open spec fn file_found_view(len: u64) -> ResponseView {
    ResponseView {
        status: 200,
        version: HttpVersion::Http11,
        headers: seq![(ct_name(), octet_stream()), (cl_name(), dec_digits(len as nat))],
        body: BodyView::Streamed,
    }
}

/// The `200` reply with no body for the root route.
pub fn root_response() -> (r: Response)
    ensures
        r@ == root_view(),
        r@.wf(),
{
    let r = Response {
        status: 200,
        version: HttpVersion::Http11,
        headers: Vec::new(),
        body: Body::Empty,
    };
    proof {
        assert(r@.headers =~= root_view().headers);
        assert(wf_headers(r@.headers));
    }
    r
}

/// The fixed `404 Not Found` reply.
pub fn not_found() -> (r: Response)
    ensures
        r@ == not_found_view(),
        r@.wf(),
{
    proof {
        reveal_strlit("Not Found");
    }
    let body = lit_bytes("Not Found");
    let r = Response {
        status: 404,
        version: HttpVersion::Http11,
        headers: Vec::new(),
        body: Body::Full(body),
    };
    proof {
        assert(r@.headers =~= not_found_view().headers);
        assert(wf_headers(r@.headers));
        assert(r@ == not_found_view());
    }
    r
}

/// The `201 Created` reply with no body after a file was stored.
pub fn created_response() -> (r: Response)
    ensures
        r@ == created_view(),
        r@.wf(),
{
    let r = Response {
        status: 201,
        version: HttpVersion::Http11,
        headers: Vec::new(),
        body: Body::Empty,
    };
    proof {
        assert(r@.headers =~= created_view().headers);
        assert(wf_headers(r@.headers));
    }
    r
}

/// Builds the two eternal `echo` headers and, under `gzip`, the encoding
/// header, for a body of the given bytes.
fn content_headers(body_len: usize, gzip: bool) -> (r: Vec<(Vec<u8>, Vec<u8>)>)
    ensures
        crate::grammar::pairs_view(r@) == if gzip {
            seq![
                (ct_name(), text_plain()),
                (ce_name(), gzip_token()),
                (cl_name(), dec_digits(body_len as nat)),
            ]
        } else {
            seq![(ct_name(), text_plain()), (cl_name(), dec_digits(body_len as nat))]
        },
{
    proof {
        reveal_strlit("Content-Type");
        reveal_strlit("Content-Length");
        reveal_strlit("Content-Encoding");
        reveal_strlit("gzip");
        reveal_strlit("text/plain");
    }
    let mut headers: Vec<(Vec<u8>, Vec<u8>)> = Vec::new();
    headers.push((lit_bytes("Content-Type"), lit_bytes("text/plain")));
    if gzip {
        headers.push((lit_bytes("Content-Encoding"), lit_bytes("gzip")));
    }
    headers.push((lit_bytes("Content-Length"), crate::ascii::u64_to_decimal(body_len as u64)));
    proof {
        if gzip {
            assert(crate::grammar::pairs_view(headers@) =~= seq![
                (ct_name(), text_plain()),
                (ce_name(), gzip_token()),
                (cl_name(), dec_digits(body_len as nat)),
            ]);
        } else {
            assert(crate::grammar::pairs_view(headers@) =~= seq![
                (ct_name(), text_plain()),
                (cl_name(), dec_digits(body_len as nat)),
            ]);
        }
    }
    headers
}

/// The `echo` reply without compression.
pub fn echo_plain_response(payload: Vec<u8>) -> (r: Response)
    ensures
        r@ == echo_plain_view(payload@),
        r@.wf(),
{
    let headers = content_headers(payload.len(), false);
    let r = Response { status: 200, version: HttpVersion::Http11, headers, body: Body::Full(payload) };
    proof {
        lemma_dispatch_constants_valid();
        lemma_dec_digits_valid_value(r@.body->Full_0.len());
        assert(wf_headers(r@.headers));
    }
    r
}

/// The `echo` reply under `gzip`: takes the compressed bytes as the
/// compressor returned them and declares exactly their length.
pub fn echo_gzip_response(compressed: Vec<u8>) -> (r: Response)
    ensures
        r@ == echo_gzip_view(compressed@),
        r@.wf(),
{
    let headers = content_headers(compressed.len(), true);
    let r = Response {
        status: 200,
        version: HttpVersion::Http11,
        headers,
        body: Body::Full(compressed),
    };
    proof {
        lemma_dispatch_constants_valid();
        lemma_dec_digits_valid_value(r@.body->Full_0.len());
        assert(wf_headers(r@.headers));
    }
    r
}

/// The `user-agent` reply: the client's name echoed back.
pub fn user_agent_response(value: Vec<u8>) -> (r: Response)
    ensures
        r@ == user_agent_view(value@),
        r@.wf(),
{
    let headers = content_headers(value.len(), false);
    let r = Response { status: 200, version: HttpVersion::Http11, headers, body: Body::Full(value) };
    proof {
        lemma_dispatch_constants_valid();
        lemma_dec_digits_valid_value(r@.body->Full_0.len());
        assert(wf_headers(r@.headers));
    }
    r
}

/// The head of a served file's reply: an octet stream of `len` declared
/// bytes, streamed behind the head chunk by chunk.
pub fn file_found_response(len: u64) -> (r: Response)
    ensures
        r@ == file_found_view(len),
        r@.wf(),
{
    proof {
        reveal_strlit("Content-Type");
        reveal_strlit("Content-Length");
        reveal_strlit("application/octet-stream");
    }
    let mut headers: Vec<(Vec<u8>, Vec<u8>)> = Vec::new();
    headers.push((lit_bytes("Content-Type"), lit_bytes("application/octet-stream")));
    headers.push((lit_bytes("Content-Length"), crate::ascii::u64_to_decimal(len)));
    let r = Response { status: 200, version: HttpVersion::Http11, headers, body: Body::Streamed };
    proof {
        assert(crate::grammar::pairs_view(r.headers@) =~= file_found_view(len).headers);
        lemma_dispatch_constants_valid();
        lemma_dec_digits_valid_value(len as nat);
        assert(wf_headers(r@.headers));
    }
    r
}

/// The dispatcher's whole decision table, one decision per request.
///
/// The route is chosen by the first non-empty segment of the target's path:
/// none means the root reply; `echo` answers its second segment, compressed
/// when the client accepts `gzip`; `user-agent` answers the header of that
/// name or `404` without one; `files` yields the file action for the second
/// segment joined under the configured directory; anything else is `404`.
pub fn handle_request(req: &Request, args: &Args) -> (r: Result<Outcome, DispatchError>)
    requires
        req@.wf(),
    ensures
        ({
            let p = spec_path(req@.target);
            match spec_first_segment(p) {
                None => (r matches Ok(o) && o matches Outcome::Reply(resp) && resp@
                    == root_view()),
                Some(seg) => {
                    if seg == ascii_seq("echo"@) {
                        match spec_second_segment(p) {
                            None => r == Err::<Outcome, DispatchError>(
                                DispatchError::MissingEchoArgument,
                            ),
                            Some(arg) => {
                                if !spec_accepts_gzip(req@) {
                                    r matches Ok(o) && o matches Outcome::Reply(resp) && resp@
                                        == echo_plain_view(arg)
                                } else {
                                    match r {
                                        Ok(o) => o matches Outcome::Reply(resp) && (resp@.body
                                            matches BodyView::Full(c) && resp@ == echo_gzip_view(c)
                                            && gunzip_of(c) == Some(arg)),
                                        Err(e) => e == DispatchError::EncodingFailed,
                                    }
                                }
                            },
                        }
                    } else if seg == ascii_seq("user-agent"@) {
                        if req@.headers_map().contains_key(ua_key()) {
                            r matches Ok(o) && o matches Outcome::Reply(resp) && resp@
                                == user_agent_view(req@.headers_map()[ua_key()])
                        } else {
                            r matches Ok(o) && o matches Outcome::Reply(resp) && resp@
                                == not_found_view()
                        }
                    } else if seg == ascii_seq("files"@) {
                        match spec_second_segment(p) {
                            None => r == Err::<Outcome, DispatchError>(
                                DispatchError::MissingFileName,
                            ),
                            Some(name) => match args.directory {
                                None => r == Err::<Outcome, DispatchError>(
                                    DispatchError::NoDirectoryConfigured,
                                ),
                                Some(dir) => {
                                    let joined = dir@ + seq![SLASH] + name;
                                    match req@.method {
                                        Method::Get => r matches Ok(o) && o matches
                                            Outcome::ServeFile { path } && path@ == joined,
                                        Method::Post => {
                                            if req@.body_len is Some {
                                                r matches Ok(o) && o matches Outcome::StoreFile {
                                                    path,
                                                } && path@ == joined
                                            } else {
                                                r == Err::<Outcome, DispatchError>(
                                                    DispatchError::MissingBody,
                                                )
                                            }
                                        },
                                    }
                                },
                            },
                        }
                    } else {
                        r matches Ok(o) && o matches Outcome::Reply(resp) && resp@
                            == not_found_view()
                    }
                },
            }
        }),
{
    let target = req.uri();
    let tlen = target.len();
    let qpos = match find_byte(target.as_slice(), QMARK, 0) {
        Some(q) => q,
        None => tlen,
    };
    proof {
        crate::grammar::lemma_find_byte(target@, QMARK, 0);
    }
    let path = vstd::slice::slice_subrange(target.as_slice(), 0, qpos);
    proof {
        assert(path@ =~= spec_path(req@.target));
    }
    let (a, b) = match next_segment(path, 0) {
        None => {
            return Ok(Outcome::Reply(root_response()));
        },
        Some(ab) => ab,
    };
    let seg = vstd::slice::slice_subrange(path, a, b);
    proof {
        reveal_strlit("echo");
        reveal_strlit("user-agent");
        reveal_strlit("files");
    }
    let echo_lit = lit_bytes("echo");
    let ua_lit = lit_bytes("user-agent");
    let files_lit = lit_bytes("files");
    if bytes_eq(seg, echo_lit.as_slice()) {
        let (c, d) = match next_segment(path, b) {
            None => {
                return Err(DispatchError::MissingEchoArgument);
            },
            Some(cd) => cd,
        };
        let arg = vstd::slice::slice_subrange(path, c, d);
        if accepts_gzip(req) {
            match crate::gzip::gzip_encode(arg) {
                Some(compressed) => Ok(Outcome::Reply(echo_gzip_response(compressed))),
                None => Err(DispatchError::EncodingFailed),
            }
        } else {
            Ok(Outcome::Reply(echo_plain_response(vstd::slice::slice_to_vec(arg))))
        }
    } else if bytes_eq(seg, ua_lit.as_slice()) {
        proof {
            assert(lower_seq(ascii_seq("user-agent"@)) =~= ua_key());
        }
        match req.header_lookup(ua_lit.as_slice()) {
            Some(v) => {
                let owned = vstd::slice::slice_to_vec(v.as_slice());
                Ok(Outcome::Reply(user_agent_response(owned)))
            },
            None => Ok(Outcome::Reply(not_found())),
        }
    } else if bytes_eq(seg, files_lit.as_slice()) {
        let (c, d) = match next_segment(path, b) {
            None => {
                return Err(DispatchError::MissingFileName);
            },
            Some(cd) => cd,
        };
        let dir = match &args.directory {
            None => {
                return Err(DispatchError::NoDirectoryConfigured);
            },
            Some(dir) => dir,
        };
        let mut joined: Vec<u8> = Vec::new();
        crate::response::append_bytes(&mut joined, dir.as_slice());
        joined.push(SLASH);
        let name = vstd::slice::slice_subrange(path, c, d);
        crate::response::append_bytes(&mut joined, name);
        proof {
            assert(joined@ =~= dir@ + seq![SLASH] + name@);
        }
        match req.method() {
            Method::Get => Ok(Outcome::ServeFile { path: joined }),
            Method::Post => {
                if req.body_len().is_some() {
                    Ok(Outcome::StoreFile { path: joined })
                } else {
                    Err(DispatchError::MissingBody)
                }
            },
        }
    } else {
        Ok(Outcome::Reply(not_found()))
    }
}

} // verus!
