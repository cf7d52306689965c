//! The start-line and header-line grammar of an HTTP/1.1 request head.
//!
//! The grammar is pure: it reads byte strings already in memory and never
//! performs I/O. Spec-level parsing functions define exactly which byte
//! strings are recognized; the executable parsers are proved to return
//! precisely what the spec functions say. Serialization spec functions
//! state the wire form, and round-trip lemmas prove that parsing what was
//! serialized recovers the parts byte for byte.
use crate::ascii::{ascii_seq, COLON, CR, LF, SP};
use vstd::prelude::*;

verus! {

/// The two-byte line terminator `\r\n`.
pub open spec fn crlf() -> Seq<u8> {
    seq![CR, LF]
}

/// The two bytes `": "` that separate a header name from its value.
pub open spec fn colon_sp() -> Seq<u8> {
    seq![COLON, SP]
}

/// The bytes of `"GET"`.
pub open spec fn method_get() -> Seq<u8> {
    ascii_seq("GET"@)
}

/// The bytes of `"POST"`.
pub open spec fn method_post() -> Seq<u8> {
    ascii_seq("POST"@)
}

/// The bytes of the version prefix `"HTTP/"`.
pub open spec fn http_slash() -> Seq<u8> {
    ascii_seq("HTTP/"@)
}

/// The bytes of the only recognized version token, `"1.1"`.
pub open spec fn version_11() -> Seq<u8> {
    ascii_seq("1.1"@)
}

/// How a request head fails to parse.
#[derive(Debug, Clone, Copy, PartialEq, Eq, Structural)]
pub enum ParseError {
    /// The byte source ended before the blank-line terminator arrived.
    IncompleteRequest,
    /// The start line is not `<method> <target> HTTP/<digits.digits>\r\n`.
    MalformedStartLine,
    /// The method token is alphabetic but not a recognized verb.
    UnsupportedMethod,
    /// The version token is not a recognized literal.
    UnsupportedVersion,
    /// A header line is not `<name>: <value>\r\n` with valid text.
    MalformedHeader,
    /// A `Content-Length` value is not a plain decimal number.
    MalformedContentLength,
}

/// The first position `i >= from` at which the two bytes `x y` stand
/// adjacent in `s`, or `-1` if they never do.
pub open spec fn spec_find_two(s: Seq<u8>, x: u8, y: u8, from: int) -> int
    decreases s.len() - from
        when 0 <= from
{
    if from + 2 > s.len() {
        -1
    } else if s[from] == x && s[from + 1] == y {
        from
    } else {
        spec_find_two(s, x, y, from + 1)
    }
}

/// What `spec_find_two` finds is the first occurrence at or after `from`.
pub proof fn lemma_find_two(s: Seq<u8>, x: u8, y: u8, from: int)
    requires
        0 <= from,
    ensures
        ({
            let i = spec_find_two(s, x, y, from);
            &&& i == -1 ==> forall|j: int|
                from <= j && j + 2 <= s.len() ==> !(#[trigger] s[j] == x && s[j + 1] == y)
            &&& i >= 0 ==> {
                &&& from <= i && i + 2 <= s.len()
                &&& s[i] == x && s[i + 1] == y
                &&& forall|j: int| from <= j < i ==> !(#[trigger] s[j] == x && s[j + 1] == y)
            }
        }),
    decreases s.len() - from,
{
    if from + 2 > s.len() {
    } else if s[from] == x && s[from + 1] == y {
    } else {
        lemma_find_two(s, x, y, from + 1);
    }
}

/// A two-byte search over a region that is free of the first byte lands
/// exactly on a known occurrence.
pub proof fn lemma_find_two_at(s: Seq<u8>, x: u8, y: u8, from: int, at: int)
    requires
        0 <= from <= at,
        at + 2 <= s.len(),
        s[at] == x && s[at + 1] == y,
        forall|j: int| from <= j < at ==> #[trigger] s[j] != x,
    ensures
        spec_find_two(s, x, y, from) == at,
    decreases at - from,
{
    if from < at {
        lemma_find_two_at(s, x, y, from + 1, at);
    }
}

/// The first position `i >= from` at which byte `b` occurs in `s`, or `-1`.
pub open spec fn spec_find_byte(s: Seq<u8>, b: u8, from: int) -> int
    decreases s.len() - from
        when 0 <= from
{
    if from >= s.len() {
        -1
    } else if s[from] == b {
        from
    } else {
        spec_find_byte(s, b, from + 1)
    }
}

/// What `spec_find_byte` finds is the first occurrence at or after `from`.
pub proof fn lemma_find_byte(s: Seq<u8>, b: u8, from: int)
    requires
        0 <= from,
    ensures
        ({
            let i = spec_find_byte(s, b, from);
            &&& i == -1 ==> forall|j: int| from <= j < s.len() ==> s[j] != b
            &&& i >= 0 ==> {
                &&& from <= i < s.len()
                &&& s[i] == b
                &&& forall|j: int| from <= j < i ==> s[j] != b
            }
        }),
    decreases s.len() - from,
{
    if from >= s.len() {
    } else if s[from] == b {
    } else {
        lemma_find_byte(s, b, from + 1);
    }
}

/// A byte search over a region free of the byte lands exactly on a known
/// occurrence.
pub proof fn lemma_find_byte_at(s: Seq<u8>, b: u8, from: int, at: int)
    requires
        0 <= from <= at,
        at < s.len(),
        s[at] == b,
        forall|j: int| from <= j < at ==> #[trigger] s[j] != b,
    ensures
        spec_find_byte(s, b, from) == at,
    decreases at - from,
{
    if from < at {
        lemma_find_byte_at(s, b, from + 1, at);
    }
}

/// The executable counterpart of `spec_find_two`.
pub fn find_two(s: &[u8], x: u8, y: u8, from: usize) -> (r: Option<usize>)
    requires
        from <= s@.len(),
    ensures
        match r {
            Some(i) => i == spec_find_two(s@, x, y, from as int),
            None => spec_find_two(s@, x, y, from as int) == -1,
        },
{
    let n = s.len();
    let mut i: usize = from;
    loop
        invariant
            from <= i <= n,
            n == s@.len(),
            spec_find_two(s@, x, y, from as int) == spec_find_two(s@, x, y, i as int),
        decreases n - i,
    {
        if n < 2 || i > n - 2 {
            return None;
        }
        if *vstd::slice::slice_index_get(s, i) == x && *vstd::slice::slice_index_get(s, i + 1)
            == y {
            return Some(i);
        }
        i += 1;
    }
}

/// The executable counterpart of `spec_find_byte`.
pub fn find_byte(s: &[u8], b: u8, from: usize) -> (r: Option<usize>)
    requires
        from <= s@.len(),
    ensures
        match r {
            Some(i) => i == spec_find_byte(s@, b, from as int),
            None => spec_find_byte(s@, b, from as int) == -1,
        },
{
    let n = s.len();
    let mut i: usize = from;
    loop
        invariant
            from <= i <= n,
            n == s@.len(),
            spec_find_byte(s@, b, from as int) == spec_find_byte(s@, b, i as int),
        decreases n - i,
    {
        if i >= n {
            return None;
        }
        if *vstd::slice::slice_index_get(s, i) == b {
            return Some(i);
        }
        i += 1;
    }
}

/// Whether a byte may stand in a method token: an ASCII letter.
pub open spec fn is_alpha(b: u8) -> bool {
    (65 <= b && b <= 90) || (97 <= b && b <= 122)
}

/// Whether a byte may stand in a header name: the HTTP token characters,
/// letters, digits and a fixed set of punctuation.
pub open spec fn is_tchar(b: u8) -> bool {
    ||| is_alpha(b)
    ||| (48 <= b && b <= 57)
    ||| b == 33  // !
    ||| (35 <= b && b <= 39)  // # $ % & '
    ||| b == 42  // *
    ||| b == 43  // +
    ||| b == 45  // -
    ||| b == 46  // .
    ||| b == 94  // ^
    ||| b == 95  // _
    ||| b == 96  // `
    ||| b == 124  // |
    ||| b == 126  // ~
}

/// Whether a byte may stand in a header value: horizontal tab, or any byte
/// from space upward except delete. Carriage return and line feed are below
/// space, so a value never holds a line break.
pub open spec fn is_vchar(b: u8) -> bool {
    b == 9 || (32 <= b && b != 127)
}

/// A well-formed header name: one or more token characters.
pub open spec fn valid_name(s: Seq<u8>) -> bool {
    s.len() > 0 && forall|i: int| 0 <= i < s.len() ==> is_tchar(#[trigger] s[i])
}

/// A well-formed header value: one or more value characters.
pub open spec fn valid_value(s: Seq<u8>) -> bool {
    s.len() > 0 && forall|i: int| 0 <= i < s.len() ==> is_vchar(#[trigger] s[i])
}

/// A well-formed method token: one or more ASCII letters.
pub open spec fn valid_method_token(s: Seq<u8>) -> bool {
    s.len() > 0 && forall|i: int| 0 <= i < s.len() ==> is_alpha(#[trigger] s[i])
}

/// A well-formed request target: one or more bytes, none of them a space,
/// carriage return or line feed.
pub open spec fn valid_target(s: Seq<u8>) -> bool {
    s.len() > 0 && forall|i: int|
        0 <= i < s.len() ==> #[trigger] s[i] != SP && s[i] != CR && s[i] != LF
}

/// A well-formed version token: one or more bytes, each an ASCII digit or a
/// dot.
pub open spec fn valid_version_token(s: Seq<u8>) -> bool {
    s.len() > 0 && forall|i: int|
        0 <= i < s.len() ==> crate::ascii::is_digit(#[trigger] s[i]) || s[i] == 46
}

pub fn byte_is_tchar(b: u8) -> (r: bool)
    ensures
        r == is_tchar(b),
{
    (65 <= b && b <= 90) || (97 <= b && b <= 122) || (48 <= b && b <= 57) || b == 33 || (35 <= b
        && b <= 39) || b == 42 || b == 43 || b == 45 || b == 46 || b == 94 || b == 95 || b == 96
        || b == 124 || b == 126
}

/// Whether every byte of a slice satisfies `is_tchar`.
pub fn all_tchars(s: &[u8]) -> (r: bool)
    ensures
        r == forall|i: int| 0 <= i < s@.len() ==> is_tchar(#[trigger] s@[i]),
{
    let n = s.len();
    let mut i: usize = 0;
    while i < n
        invariant
            i <= n,
            n == s@.len(),
            forall|j: int| 0 <= j < i ==> is_tchar(#[trigger] s@[j]),
        decreases n - i,
    {
        if !byte_is_tchar(*vstd::slice::slice_index_get(s, i)) {
            return false;
        }
        i += 1;
    }
    true
}

/// Whether every byte of a slice satisfies `is_vchar`.
pub fn all_vchars(s: &[u8]) -> (r: bool)
    ensures
        r == forall|i: int| 0 <= i < s@.len() ==> is_vchar(#[trigger] s@[i]),
{
    let n = s.len();
    let mut i: usize = 0;
    while i < n
        invariant
            i <= n,
            n == s@.len(),
            forall|j: int| 0 <= j < i ==> is_vchar(#[trigger] s@[j]),
        decreases n - i,
    {
        let b = *vstd::slice::slice_index_get(s, i);
        if !(b == 9 || (32 <= b && b != 127)) {
            return false;
        }
        i += 1;
    }
    true
}

/// Whether every byte of a slice satisfies `is_alpha`.
pub fn all_alpha(s: &[u8]) -> (r: bool)
    ensures
        r == forall|i: int| 0 <= i < s@.len() ==> is_alpha(#[trigger] s@[i]),
{
    let n = s.len();
    let mut i: usize = 0;
    while i < n
        invariant
            i <= n,
            n == s@.len(),
            forall|j: int| 0 <= j < i ==> is_alpha(#[trigger] s@[j]),
        decreases n - i,
    {
        let b = *vstd::slice::slice_index_get(s, i);
        if !((65 <= b && b <= 90) || (97 <= b && b <= 122)) {
            return false;
        }
        i += 1;
    }
    true
}

/// Whether every byte of a slice avoids space, carriage return and line
/// feed, as a request target must.
pub fn all_target_chars(s: &[u8]) -> (r: bool)
    ensures
        r == forall|i: int|
            0 <= i < s@.len() ==> #[trigger] s@[i] != SP && s@[i] != CR && s@[i] != LF,
{
    let n = s.len();
    let mut i: usize = 0;
    while i < n
        invariant
            i <= n,
            n == s@.len(),
            forall|j: int| 0 <= j < i ==> #[trigger] s@[j] != SP && s@[j] != CR && s@[j] != LF,
        decreases n - i,
    {
        let b = *vstd::slice::slice_index_get(s, i);
        if b == SP || b == CR || b == LF {
            return false;
        }
        i += 1;
    }
    true
}

/// Whether every byte of a slice is a digit or a dot, as a version token
/// must be.
pub fn all_version_chars(s: &[u8]) -> (r: bool)
    ensures
        r == forall|i: int|
            0 <= i < s@.len() ==> crate::ascii::is_digit(#[trigger] s@[i]) || s@[i] == 46,
{
    let n = s.len();
    let mut i: usize = 0;
    while i < n
        invariant
            i <= n,
            n == s@.len(),
            forall|j: int| 0 <= j < i ==> crate::ascii::is_digit(#[trigger] s@[j]) || s@[j] == 46,
        decreases n - i,
    {
        let b = *vstd::slice::slice_index_get(s, i);
        if !((48 <= b && b <= 57) || b == 46) {
            return false;
        }
        i += 1;
    }
    true
}

/// The tokens of a well-formed start line `m SP t SP "HTTP/" v`, read off a
/// line that carries no terminator: the method token up to the first space,
/// the target up to the second space, and the version token after the fixed
/// prefix. `None` when the line has no such shape.
pub open spec fn spec_parse_start_line(line: Seq<u8>) -> Option<(Seq<u8>, Seq<u8>, Seq<u8>)> {
    let i = spec_find_byte(line, SP, 0);
    if i < 0 {
        None
    } else {
        let j = spec_find_byte(line, SP, i + 1);
        if j < 0 {
            None
        } else {
            let m = line.subrange(0, i);
            let t = line.subrange(i + 1, j);
            let rest = line.subrange(j + 1, line.len() as int);
            if valid_method_token(m) && valid_target(t) && rest.len() > 5 && rest.subrange(0, 5)
                == http_slash() && valid_version_token(
                rest.subrange(5, rest.len() as int),
            ) {
                Some((m, t, rest.subrange(5, rest.len() as int)))
            } else {
                None
            }
        }
    }
}

/// The name and value of a well-formed header line `name ": " value`, read
/// off a line that carries no terminator. `None` when the line has no such
/// shape or its text is not valid.
pub open spec fn spec_parse_header_line(line: Seq<u8>) -> Option<(Seq<u8>, Seq<u8>)> {
    let c = spec_find_byte(line, COLON, 0);
    if c < 0 || c + 2 > line.len() || line[c + 1] != SP {
        None
    } else {
        let name = line.subrange(0, c);
        let value = line.subrange(c + 2, line.len() as int);
        if valid_name(name) && valid_value(value) {
            Some((name, value))
        } else {
            None
        }
    }
}

/// The header entries read from `s` starting at `pos`: zero or more header
/// lines terminated by a blank line that ends `s` exactly. `None` when a
/// line is malformed or the block does not fill `s` to its end.
pub open spec fn spec_parse_header_lines(s: Seq<u8>, pos: int) -> Option<Seq<(Seq<u8>, Seq<u8>)>>
    decreases s.len() - pos
        when 0 <= pos
{
    if pos + 2 <= s.len() && s[pos] == CR && s[pos + 1] == LF {
        if pos + 2 == s.len() {
            Some(Seq::empty())
        } else {
            None
        }
    } else {
        let i = spec_find_two(s, CR, LF, pos);
        if i < 0 || i < pos || i + 2 > s.len() {
            None
        } else {
            match spec_parse_header_line(s.subrange(pos, i)) {
                None => None,
                Some(nv) => match spec_parse_header_lines(s, i + 2) {
                    None => None,
                    Some(rest) => Some(seq![nv] + rest),
                },
            }
        }
    }
}

/// The wire form of one header entry: `name ": " value "\r\n"`.
pub open spec fn ser_header_line(n: Seq<u8>, v: Seq<u8>) -> Seq<u8> {
    n + colon_sp() + v + crlf()
}

/// The wire form of a sequence of header entries, in order.
pub open spec fn ser_header_lines(hs: Seq<(Seq<u8>, Seq<u8>)>) -> Seq<u8>
    decreases hs.len(),
{
    if hs.len() == 0 {
        Seq::empty()
    } else {
        ser_header_line(hs[0].0, hs[0].1) + ser_header_lines(hs.drop_first())
    }
}

/// Every entry of a header sequence is well-formed text.
pub open spec fn wf_headers(hs: Seq<(Seq<u8>, Seq<u8>)>) -> bool {
    forall|i: int|
        0 <= i < hs.len() ==> valid_name(#[trigger] hs[i].0) && valid_value(hs[i].1)
}

/// The wire form of a start line, without its terminator:
/// `m SP t SP "HTTP/" v`.
pub open spec fn ser_start_line(m: Seq<u8>, t: Seq<u8>, v: Seq<u8>) -> Seq<u8> {
    m + seq![SP] + t + seq![SP] + http_slash() + v
}

/// Parsing a serialized start line recovers the method, target and version
/// tokens exactly as they were written, byte for byte.
pub proof fn lemma_start_line_round_trip(m: Seq<u8>, t: Seq<u8>, v: Seq<u8>)
    requires
        valid_method_token(m),
        valid_target(t),
        valid_version_token(v),
    ensures
        spec_parse_start_line(ser_start_line(m, t, v)) == Some((m, t, v)),
{
    reveal_strlit("HTTP/");
    let line = ser_start_line(m, t, v);
    assert(http_slash().len() == 5);
    assert(line.len() == m.len() + 1 + t.len() + 1 + 5 + v.len());
    let i = m.len() as int;
    let j = m.len() + 1 + t.len() as int;
    assert(line[i] == SP);
    assert(line[j] == SP);
    assert forall|k: int| 0 <= k < i implies #[trigger] line[k] != SP by {
        assert(line[k] == m[k]);
        assert(is_alpha(m[k]));
    }
    lemma_find_byte_at(line, SP, 0, i);
    assert forall|k: int| i + 1 <= k < j implies #[trigger] line[k] != SP by {
        assert(line[k] == t[k - i - 1]);
    }
    lemma_find_byte_at(line, SP, i + 1, j);
    assert(line.subrange(0, i) =~= m);
    assert(line.subrange(i + 1, j) =~= t);
    let rest = line.subrange(j + 1, line.len() as int);
    assert(rest.len() == 5 + v.len());
    assert(rest.subrange(0, 5) =~= http_slash());
    assert(rest.subrange(5, rest.len() as int) =~= v);
}

/// Parsing a serialized header block, embedded in `s` at `pos` and running
/// to the end of `s`, recovers exactly the entries that were written.
pub proof fn lemma_header_lines_round_trip(s: Seq<u8>, pos: int, hs: Seq<(Seq<u8>, Seq<u8>)>)
    requires
        wf_headers(hs),
        0 <= pos <= s.len(),
        s.subrange(pos, s.len() as int) == ser_header_lines(hs) + crlf(),
    ensures
        spec_parse_header_lines(s, pos) == Some(hs),
    decreases hs.len(),
{
    let tail = s.subrange(pos, s.len() as int);
    assert(tail.len() == ser_header_lines(hs).len() + 2);
    if hs.len() == 0 {
        assert(ser_header_lines(hs) =~= Seq::<u8>::empty());
        assert(tail =~= crlf());
        assert(s[pos] == tail[0] && s[pos + 1] == tail[1]);
        assert(pos + 2 == s.len());
        assert(spec_parse_header_lines(s, pos) == Some(Seq::<(Seq<u8>, Seq<u8>)>::empty()));
        assert(Seq::<(Seq<u8>, Seq<u8>)>::empty() =~= hs);
    } else {
        let n = hs[0].0;
        let v = hs[0].1;
        assert(valid_name(n) && valid_value(v));
        let line = ser_header_line(n, v);
        let linelen = n.len() + 2 + v.len() as int;
        assert(line.len() == linelen + 2);
        assert(ser_header_lines(hs) == line + ser_header_lines(hs.drop_first()));
        // The line's own terminator is the first CRLF at or after pos.
        assert forall|k: int| pos <= k < pos + linelen implies #[trigger] s[k] != CR by {
            assert(s[k] == tail[k - pos]);
            assert(tail[k - pos] == line[k - pos]);
            let o = k - pos;
            if o < n.len() {
                assert(line[o] == n[o]);
                assert(is_tchar(n[o]));
            } else if o == n.len() {
                assert(line[o] == COLON);
            } else if o == n.len() + 1 {
                assert(line[o] == SP);
            } else {
                assert(line[o] == v[o - n.len() - 2]);
                assert(is_vchar(v[o - n.len() - 2]));
            }
        }
        assert(s[pos + linelen] == tail[linelen] && tail[linelen] == line[linelen] && line[linelen]
            == CR);
        assert(s[pos + linelen + 1] == tail[linelen + 1] && tail[linelen + 1] == line[linelen + 1]
            && line[linelen + 1] == LF);
        assert(pos + linelen + 2 <= s.len());
        lemma_find_two_at(s, CR, LF, pos, pos + linelen);
        assert(spec_find_two(s, CR, LF, pos) == pos + linelen);
        // The block does not start with a blank line: a name byte is not CR.
        assert(s[pos] == line[0] && line[0] == n[0]);
        assert(is_tchar(n[0]));
        assert(!(s[pos] == CR && s[pos + 1] == LF));
        // The extracted line parses to exactly (n, v).
        let ex = s.subrange(pos, pos + linelen);
        assert(ex =~= line.subrange(0, linelen));
        assert forall|k: int| 0 <= k < n.len() implies #[trigger] ex[k] != COLON by {
            assert(ex[k] == n[k]);
            assert(is_tchar(n[k]));
        }
        assert(ex[n.len() as int] == COLON);
        lemma_find_byte_at(ex, COLON, 0, n.len() as int);
        assert(ex[n.len() as int + 1] == SP);
        assert(ex.subrange(0, n.len() as int) =~= n);
        assert(ex.subrange(n.len() as int + 2, ex.len() as int) =~= v);
        assert(spec_parse_header_line(ex) == Some((n, v)));
        // The remainder of the block is the serialization of the rest.
        let pos2 = pos + linelen + 2;
        assert(s.subrange(pos2, s.len() as int) =~= tail.subrange(linelen + 2, tail.len() as int));
        assert(tail.subrange(linelen + 2, tail.len() as int) =~= ser_header_lines(hs.drop_first())
            + crlf());
        lemma_header_lines_round_trip(s, pos2, hs.drop_first());
        assert(spec_parse_header_lines(s, pos) == Some(seq![(n, v)] + hs.drop_first()));
        assert(seq![(n, v)] + hs.drop_first() =~= hs);
    }
}

/// No byte of a serialized start line is a carriage return.
pub proof fn lemma_start_line_no_cr(m: Seq<u8>, t: Seq<u8>, v: Seq<u8>)
    requires
        valid_method_token(m),
        valid_target(t),
        valid_version_token(v),
    ensures
        forall|k: int| 0 <= k < ser_start_line(m, t, v).len() ==> #[trigger] ser_start_line(
            m,
            t,
            v,
        )[k] != CR,
{
    reveal_strlit("HTTP/");
    let sl = ser_start_line(m, t, v);
    assert forall|k: int| 0 <= k < sl.len() implies #[trigger] sl[k] != CR by {
        let i = m.len() as int;
        let j = m.len() + 1 + t.len() as int;
        if k < i {
            assert(sl[k] == m[k]);
            assert(is_alpha(m[k]));
        } else if k == i {
            assert(sl[k] == SP);
        } else if k < j {
            assert(sl[k] == t[k - i - 1]);
        } else if k == j {
            assert(sl[k] == SP);
        } else if k < j + 6 {
            assert(sl[k] == http_slash()[k - j - 1]);
        } else {
            assert(sl[k] == v[k - j - 6]);
            assert(crate::ascii::is_digit(v[k - j - 6]) || v[k - j - 6] == 46);
        }
    }
}

/// A serialized header block embedded at `pos` and running to the end of
/// `s` holds no `\r\n\r\n` window that starts before the block's last two
/// bytes: the blank line at the very end is the first and only terminator
/// the block contributes.
pub proof fn lemma_header_block_no_early_terminator(
    s: Seq<u8>,
    pos: int,
    hs: Seq<(Seq<u8>, Seq<u8>)>,
)
    requires
        wf_headers(hs),
        0 <= pos <= s.len(),
        s.subrange(pos, s.len() as int) == ser_header_lines(hs) + crlf(),
    ensures
        forall|j: int|
            pos <= j && j + 5 <= s.len() ==> !(#[trigger] s[j] == CR && s[j + 1] == LF && s[j + 2]
                == CR && s[j + 3] == LF),
    decreases hs.len(),
{
    let tail = s.subrange(pos, s.len() as int);
    if hs.len() == 0 {
        assert(tail.len() == 2);
    } else {
        let n = hs[0].0;
        let v = hs[0].1;
        let line = ser_header_line(n, v);
        let linelen = n.len() + 2 + v.len() as int;
        assert(ser_header_lines(hs) == line + ser_header_lines(hs.drop_first()));
        let pos2 = pos + linelen + 2;
        assert(s.subrange(pos2, s.len() as int) =~= tail.subrange(linelen + 2, tail.len() as int));
        assert(tail.subrange(linelen + 2, tail.len() as int) =~= ser_header_lines(hs.drop_first())
            + crlf());
        lemma_header_block_no_early_terminator(s, pos2, hs.drop_first());
        assert forall|j: int|
            pos <= j && j + 5 <= s.len() implies !(#[trigger] s[j] == CR && s[j + 1] == LF && s[j
            + 2] == CR && s[j + 3] == LF) by {
            if j < pos + linelen {
                // Within the line itself no byte is a carriage return.
                let o = j - pos;
                assert(s[j] == tail[o] && tail[o] == line[o]);
                if o < n.len() {
                    assert(line[o] == n[o]);
                    assert(is_tchar(n[o]));
                } else if o == n.len() {
                    assert(line[o] == crate::ascii::COLON);
                } else if o == n.len() + 1 {
                    assert(line[o] == SP);
                } else {
                    assert(line[o] == v[o - n.len() - 2]);
                    assert(is_vchar(v[o - n.len() - 2]));
                }
            } else if j == pos + linelen {
                // The line's own terminator: the byte after it starts the
                // next line or the final blank line.
                if hs.drop_first().len() == 0 {
                    assert(s.len() == pos2 + 2);
                    assert(j + 5 > s.len());
                } else {
                    let n2 = hs.drop_first()[0].0;
                    assert(s[pos2] == s.subrange(pos2, s.len() as int)[0]);
                    assert(s[pos2] == n2[0]);
                    assert(is_tchar(n2[0]));
                    assert(s[j + 2] != CR);
                }
            } else if j == pos + linelen + 1 {
                assert(s[j] == tail[j - pos] && tail[j - pos] == line[linelen + 1]);
                assert(s[j] == LF);
            } else {
                // The rest of the block is covered by the shorter block.
            }
        }
    }
}

/// A non-empty serialized header block ends with a line terminator.
pub proof fn lemma_ser_header_lines_ends_crlf(hs: Seq<(Seq<u8>, Seq<u8>)>)
    requires
        hs.len() > 0,
    ensures
        ser_header_lines(hs).len() >= 2,
        ser_header_lines(hs)[ser_header_lines(hs).len() - 2] == CR,
        ser_header_lines(hs)[ser_header_lines(hs).len() - 1] == LF,
    decreases hs.len(),
{
    let line = ser_header_line(hs[0].0, hs[0].1);
    assert(ser_header_lines(hs) == line + ser_header_lines(hs.drop_first()));
    if hs.drop_first().len() == 0 {
        assert(ser_header_lines(hs.drop_first()) =~= Seq::<u8>::empty());
        assert(line[line.len() - 2] == CR && line[line.len() - 1] == LF);
    } else {
        lemma_ser_header_lines_ends_crlf(hs.drop_first());
    }
}

/// The executable start-line parser: returns the method, target and version
/// tokens of the line, or the structural failure.
pub fn parse_start_line(line: &[u8]) -> (r: Result<(Vec<u8>, Vec<u8>, Vec<u8>), ParseError>)
    ensures
        match r {
            Ok(p) => spec_parse_start_line(line@) == Some((p.0@, p.1@, p.2@)),
            Err(e) => spec_parse_start_line(line@) is None && e
                == ParseError::MalformedStartLine,
        },
{
    let i = match find_byte(line, SP, 0) {
        Some(i) => i,
        None => {
            return Err(ParseError::MalformedStartLine);
        },
    };
    let n = line.len();
    proof {
        lemma_find_byte(line@, SP, 0);
        assert(i < n);
    }
    let j = match find_byte(line, SP, i + 1) {
        Some(j) => j,
        None => {
            return Err(ParseError::MalformedStartLine);
        },
    };
    proof {
        lemma_find_byte(line@, SP, i + 1 as int);
    }
    let m = vstd::slice::slice_subrange(line, 0, i);
    let t = vstd::slice::slice_subrange(line, i + 1, j);
    let rest = vstd::slice::slice_subrange(line, j + 1, n);
    if !(m.len() > 0 && all_alpha(m)) {
        return Err(ParseError::MalformedStartLine);
    }
    if !(t.len() > 0 && all_target_chars(t)) {
        return Err(ParseError::MalformedStartLine);
    }
    if rest.len() <= 5 {
        return Err(ParseError::MalformedStartLine);
    }
    let prefix = vstd::slice::slice_subrange(rest, 0, 5);
    proof {
        reveal_strlit("HTTP/");
    }
    let http = crate::ascii::lit_bytes("HTTP/");
    if !crate::ascii::bytes_eq(prefix, http.as_slice()) {
        proof {
            assert(rest@.subrange(0, 5) != http_slash());
        }
        return Err(ParseError::MalformedStartLine);
    }
    let v = vstd::slice::slice_subrange(rest, 5, rest.len());
    if !(v.len() > 0 && all_version_chars(v)) {
        return Err(ParseError::MalformedStartLine);
    }
    let mv = vstd::slice::slice_to_vec(m);
    let tv = vstd::slice::slice_to_vec(t);
    let vv = vstd::slice::slice_to_vec(v);
    Ok((mv, tv, vv))
}

/// The executable header-line parser for one line.
pub fn parse_header_line(line: &[u8]) -> (r: Option<(Vec<u8>, Vec<u8>)>)
    ensures
        match r {
            Some(p) => spec_parse_header_line(line@) == Some((p.0@, p.1@)),
            None => spec_parse_header_line(line@) is None,
        },
{
    let c = match find_byte(line, COLON, 0) {
        Some(c) => c,
        None => {
            return None;
        },
    };
    proof {
        lemma_find_byte(line@, COLON, 0);
        assert(c < line@.len());
    }
    let n = line.len();
    if c >= n - 1 {
        return None;
    }
    if *vstd::slice::slice_index_get(line, c + 1) != SP {
        return None;
    }
    let name = vstd::slice::slice_subrange(line, 0, c);
    let value = vstd::slice::slice_subrange(line, c + 2, n);
    if !(name.len() > 0 && all_tchars(name)) {
        return None;
    }
    if !(value.len() > 0 && all_vchars(value)) {
        return None;
    }
    Some((vstd::slice::slice_to_vec(name), vstd::slice::slice_to_vec(value)))
}

/// The entries of a sequence of header pairs, viewed as byte strings.
pub open spec fn pairs_view(v: Seq<(Vec<u8>, Vec<u8>)>) -> Seq<(Seq<u8>, Seq<u8>)> {
    Seq::new(v.len(), |i: int| (v[i].0@, v[i].1@))
}

/// The executable header-block parser: reads header lines from `s` starting
/// at `pos` until the blank line that ends `s`, and returns the entries in
/// order, exactly as the spec parser reads them.
pub fn parse_header_lines(s: &[u8], pos: usize) -> (r: Result<
    Vec<(Vec<u8>, Vec<u8>)>,
    ParseError,
>)
    requires
        pos <= s@.len(),
    ensures
        match r {
            Ok(hs) => spec_parse_header_lines(s@, pos as int) == Some(pairs_view(hs@)),
            Err(e) => spec_parse_header_lines(s@, pos as int) is None && e
                == ParseError::MalformedHeader,
        },
    decreases s@.len() - pos,
{
    let n = s.len();
    if n >= 2 && pos <= n - 2 && *vstd::slice::slice_index_get(s, pos) == CR
        && *vstd::slice::slice_index_get(s, pos + 1) == LF {
        if pos == n - 2 {
            let empty: Vec<(Vec<u8>, Vec<u8>)> = Vec::new();
            proof {
                assert(pairs_view(empty@) =~= Seq::<(Seq<u8>, Seq<u8>)>::empty());
            }
            return Ok(empty);
        }
        return Err(ParseError::MalformedHeader);
    }
    let i = match find_two(s, CR, LF, pos) {
        Some(i) => i,
        None => {
            return Err(ParseError::MalformedHeader);
        },
    };
    proof {
        lemma_find_two(s@, CR, LF, pos as int);
    }
    let line = vstd::slice::slice_subrange(s, pos, i);
    let nv = match parse_header_line(line) {
        Some(nv) => nv,
        None => {
            return Err(ParseError::MalformedHeader);
        },
    };
    let mut rest = match parse_header_lines(s, i + 2) {
        Ok(rest) => rest,
        Err(e) => {
            return Err(e);
        },
    };
    let ghost old_rest = rest@;
    rest.insert(0, nv);
    proof {
        assert(pairs_view(rest@) =~= seq![(rest@[0].0@, rest@[0].1@)] + pairs_view(old_rest));
    }
    Ok(rest)
}

} // verus!
