//! The HTTP/1 message-head grammar as functions on byte sequences.
//!
//! Everything here is specification: positions are indices into the whole
//! input, so a parsed field is described by where it lies in the buffer.

use vstd::prelude::*;
use crate::ascii::{
    spec_is_ctl, spec_is_digit, spec_is_tchar, spec_is_whitespace, BYTE_COLON, BYTE_CR, BYTE_LF,
    BYTE_NUL, BYTE_SP,
};
use crate::parser::ParseError;

verus! {

/// A half-open range `start..end` of positions in the input.
pub struct Span {
    pub start: int,
    pub end: int,
}

/// Where the name and the trimmed value of one header field lie.
pub struct HeaderSpan {
    pub name: Span,
    pub value: Span,
}

/// Where the parts of a request head lie, and how many bytes the head takes.
pub struct RequestLayout {
    pub method: Span,
    pub uri: Span,
    pub version: Span,
    pub headers: Seq<HeaderSpan>,
    pub len: int,
}

/// Where the parts of a response head lie, and how many bytes the head takes.
pub struct ResponseLayout {
    pub version: Span,
    pub status_code: Span,
    pub reason: Span,
    pub headers: Seq<HeaderSpan>,
    pub len: int,
}

impl Span {
    /// The span lies inside the first `n` positions.
    pub open spec fn within(self, n: int) -> bool {
        0 <= self.start <= self.end <= n
    }

    /// The bytes of `s` that the span covers.
    pub open spec fn of(self, s: Seq<u8>) -> Seq<u8> {
        s.subrange(self.start, self.end)
    }
}

impl HeaderSpan {
    pub open spec fn within(self, n: int) -> bool {
        self.name.within(n) && self.value.within(n)
    }
}

/// Every header span in `hs` lies inside the first `n` positions.
pub open spec fn headers_within(hs: Seq<HeaderSpan>, n: int) -> bool {
    forall|i: int| 0 <= i < hs.len() ==> (#[trigger] hs[i]).within(n)
}

impl RequestLayout {
    pub open spec fn within(self, n: int) -> bool {
        &&& self.method.within(n)
        &&& self.uri.within(n)
        &&& self.version.within(n)
        &&& headers_within(self.headers, n)
    }
}

impl ResponseLayout {
    pub open spec fn within(self, n: int) -> bool {
        &&& self.version.within(n)
        &&& self.status_code.within(n)
        &&& self.reason.within(n)
        &&& headers_within(self.headers, n)
    }
}

/// The first position in `from..to` that holds `b`, or `to` when none does.
pub open spec fn find_byte(s: Seq<u8>, b: u8, from: int, to: int) -> int
    decreases to - from,
{
    if from >= to {
        to
    } else if s[from] == b {
        from
    } else {
        find_byte(s, b, from + 1, to)
    }
}

/// A CR at `p` with an LF right behind it.
pub open spec fn crlf_at(s: Seq<u8>, p: int) -> bool {
    0 <= p && p + 1 < s.len() && s[p] == BYTE_CR && s[p + 1] == BYTE_LF
}

/// The position of the first CRLF at or after `from`, or `s.len()` when
/// there is none: the line that starts at `from` ends there.
pub open spec fn find_crlf(s: Seq<u8>, from: int) -> int
    decreases s.len() - from,
{
    if from + 1 >= s.len() {
        s.len() as int
    } else if s[from] == BYTE_CR && s[from + 1] == BYTE_LF {
        from
    } else {
        find_crlf(s, from + 1)
    }
}

/// The first position in `from..to` that is not optional whitespace, or `to`.
pub open spec fn skip_ows(s: Seq<u8>, from: int, to: int) -> int
    decreases to - from,
{
    if from >= to {
        to
    } else if spec_is_whitespace(s[from]) {
        skip_ows(s, from + 1, to)
    } else {
        from
    }
}

/// The end of `from..to` once the optional whitespace at its end is dropped.
pub open spec fn skip_ows_back(s: Seq<u8>, from: int, to: int) -> int
    decreases to - from,
{
    if to <= from {
        from
    } else if spec_is_whitespace(s[to - 1]) {
        skip_ows_back(s, from, to - 1)
    } else {
        to
    }
}

pub open spec fn all_tchar(s: Seq<u8>, from: int, to: int) -> bool {
    forall|i: int| from <= i < to ==> spec_is_tchar(#[trigger] s[i])
}

pub open spec fn all_digit(s: Seq<u8>, from: int, to: int) -> bool {
    forall|i: int| from <= i < to ==> spec_is_digit(#[trigger] s[i])
}

/// No byte of a request target is a space or a control character.
pub open spec fn all_target(s: Seq<u8>, from: int, to: int) -> bool {
    forall|i: int| from <= i < to ==> (#[trigger] s[i]) != BYTE_SP && !spec_is_ctl(s[i])
}

/// A field value holds no CR, LF or NUL.
pub open spec fn clean_value(s: Seq<u8>, from: int, to: int) -> bool {
    forall|i: int|
        from <= i < to ==> (#[trigger] s[i]) != BYTE_CR && s[i] != BYTE_LF && s[i] != BYTE_NUL
}

pub open spec fn no_cr(s: Seq<u8>, from: int, to: int) -> bool {
    forall|i: int| from <= i < to ==> (#[trigger] s[i]) != BYTE_CR
}

/// `t` is exactly `HTTP/` followed by a digit, a dot and a digit.
pub open spec fn is_http_version(t: Seq<u8>) -> bool {
    &&& t.len() == 8
    &&& t[0] == 0x48
    &&& t[1] == 0x54
    &&& t[2] == 0x54
    &&& t[3] == 0x50
    &&& t[4] == 0x2f
    &&& spec_is_digit(t[5])
    &&& t[6] == 0x2e
    &&& spec_is_digit(t[7])
}

/// The request line `method SP request-target SP HTTP-version` in `a..b`:
/// the spans of the method, the target and the `d.d` of the version, or
/// `None` when the line is malformed.
pub open spec fn request_line(s: Seq<u8>, a: int, b: int) -> Option<(Span, Span, Span)> {
    let m = find_byte(s, BYTE_SP, a, b);
    let u = find_byte(s, BYTE_SP, m + 1, b);
    if a < m && m < b && all_tchar(s, a, m) && m + 1 < u && u < b && all_target(s, m + 1, u)
        && is_http_version(s.subrange(u + 1, b)) {
        Some((Span { start: a, end: m }, Span { start: m + 1, end: u }, Span { start: u + 6, end: b }))
    } else {
        None
    }
}

/// The status line `HTTP-version SP status-code SP reason` in `a..b`: the
/// spans of the `d.d` of the version, the three digits and the reason, or
/// `None` when the line is malformed.
pub open spec fn status_line(s: Seq<u8>, a: int, b: int) -> Option<(Span, Span, Span)> {
    let v = find_byte(s, BYTE_SP, a, b);
    let c = find_byte(s, BYTE_SP, v + 1, b);
    if v < b && is_http_version(s.subrange(a, v)) && c < b && c == v + 4 && all_digit(s, v + 1, c)
        && no_cr(s, c + 1, b) {
        Some((Span { start: a + 5, end: v }, Span { start: v + 1, end: c }, Span { start: c + 1, end: b }))
    } else {
        None
    }
}

/// The header field `field-name ":" OWS field-value OWS` in `a..b`.
pub open spec fn header_line(s: Seq<u8>, a: int, b: int) -> Result<HeaderSpan, ParseError> {
    let c = find_byte(s, BYTE_COLON, a, b);
    if !(a < c && c < b && all_tchar(s, a, c)) {
        Err(ParseError::BadHeaderName)
    } else if !clean_value(s, c + 1, b) {
        Err(ParseError::BadFieldValue)
    } else {
        let vs = skip_ows(s, c + 1, b);
        Ok(HeaderSpan { name: Span { start: a, end: c }, value: Span { start: vs, end: skip_ows_back(s, vs, b) } })
    }
}

/// The header block that starts at `pos`, after the fields in `acc`: header
/// lines up to a bare CRLF. Gives the fields and the position behind the
/// block.
pub open spec fn header_block(s: Seq<u8>, pos: int, acc: Seq<HeaderSpan>) -> Result<
    (Seq<HeaderSpan>, int),
    ParseError,
>
    decreases s.len() - pos,
{
    if pos < 0 || pos + 2 > s.len() {
        Err(ParseError::Incomplete)
    } else if crlf_at(s, pos) {
        Ok((acc, pos + 2))
    } else {
        let e = find_crlf(s, pos);
        if e < pos || e + 2 > s.len() {
            Err(ParseError::Incomplete)
        } else {
            match header_line(s, pos, e) {
                Err(k) => Err(k),
                Ok(h) => header_block(s, e + 2, acc.push(h)),
            }
        }
    }
}

/// Where a request head starts: behind one leading CRLF, if there is one.
pub open spec fn request_start(s: Seq<u8>) -> int {
    if crlf_at(s, 0) {
        2
    } else {
        0
    }
}

/// What parsing a request head from the start of `s` gives.
pub open spec fn spec_parse_request(s: Seq<u8>) -> Result<RequestLayout, ParseError> {
    if s.len() < 2 {
        Err(ParseError::Incomplete)
    } else {
        let start = request_start(s);
        let e = find_crlf(s, start);
        if e >= s.len() {
            Err(ParseError::Incomplete)
        } else {
            match request_line(s, start, e) {
                None => Err(ParseError::BadRequest),
                Some((method, uri, version)) => match header_block(s, e + 2, Seq::empty()) {
                    Err(k) => Err(k),
                    Ok((headers, len)) => Ok(RequestLayout { method, uri, version, headers, len }),
                },
            }
        }
    }
}

/// What parsing a response head from the start of `s` gives.
pub open spec fn spec_parse_response(s: Seq<u8>) -> Result<ResponseLayout, ParseError> {
    let e = find_crlf(s, 0);
    if e >= s.len() {
        Err(ParseError::Incomplete)
    } else {
        match status_line(s, 0, e) {
            None => Err(ParseError::BadResponse),
            Some((version, status_code, reason)) => match header_block(s, e + 2, Seq::empty()) {
                Err(k) => Err(k),
                Ok((headers, len)) => Ok(ResponseLayout { version, status_code, reason, headers, len }),
            },
        }
    }
}

/// `find_byte` gives a position in `from..=to`, with no `b` before it and,
/// unless it is `to`, a `b` at it.
pub proof fn lemma_find_byte(s: Seq<u8>, b: u8, from: int, to: int)
    requires
        from <= to,
    ensures
        from <= find_byte(s, b, from, to) <= to,
        forall|i: int| from <= i < find_byte(s, b, from, to) ==> s[i] != b,
        find_byte(s, b, from, to) < to ==> s[find_byte(s, b, from, to)] == b,
    decreases to - from,
{
    if from < to && s[from] != b {
        lemma_find_byte(s, b, from + 1, to);
    }
}

/// A position with no `b` before it and a `b` at it (or `to`) is what
/// `find_byte` gives.
pub proof fn lemma_find_byte_is(s: Seq<u8>, b: u8, from: int, to: int, p: int)
    requires
        from <= p <= to,
        forall|i: int| from <= i < p ==> s[i] != b,
        p < to ==> s[p] == b,
    ensures
        find_byte(s, b, from, to) == p,
    decreases p - from,
{
    if from < p {
        lemma_find_byte_is(s, b, from + 1, to, p);
    }
}

/// `find_crlf` gives the first CRLF at or after `from`, or the length.
pub proof fn lemma_find_crlf(s: Seq<u8>, from: int)
    requires
        0 <= from <= s.len(),
    ensures
        find_crlf(s, from) == s.len() || (from <= find_crlf(s, from) && crlf_at(
            s,
            find_crlf(s, from),
        )),
        forall|q: int| from <= q < find_crlf(s, from) ==> !crlf_at(s, q),
    decreases s.len() - from,
{
    if from + 1 < s.len() && !(s[from] == BYTE_CR && s[from + 1] == BYTE_LF) {
        lemma_find_crlf(s, from + 1);
    }
}

/// A position at or after `from` with no CRLF between, which holds a CRLF
/// or is the length, is what `find_crlf` gives.
pub proof fn lemma_find_crlf_is(s: Seq<u8>, from: int, p: int)
    requires
        0 <= from <= p <= s.len(),
        p == s.len() || crlf_at(s, p),
        forall|q: int| from <= q < p ==> !crlf_at(s, q),
    ensures
        find_crlf(s, from) == p,
    decreases p - from,
{
    if from + 1 < s.len() && from < p {
        assert(!crlf_at(s, from));
        lemma_find_crlf_is(s, from + 1, p);
    }
}

pub proof fn lemma_skip_ows(s: Seq<u8>, from: int, to: int)
    requires
        from <= to,
    ensures
        from <= skip_ows(s, from, to) <= to,
        forall|i: int| from <= i < skip_ows(s, from, to) ==> spec_is_whitespace(s[i]),
        skip_ows(s, from, to) < to ==> !spec_is_whitespace(s[skip_ows(s, from, to)]),
    decreases to - from,
{
    if from < to && spec_is_whitespace(s[from]) {
        lemma_skip_ows(s, from + 1, to);
    }
}

pub proof fn lemma_skip_ows_back(s: Seq<u8>, from: int, to: int)
    requires
        from <= to,
    ensures
        from <= skip_ows_back(s, from, to) <= to,
        forall|i: int| skip_ows_back(s, from, to) <= i < to ==> spec_is_whitespace(s[i]),
        from < skip_ows_back(s, from, to) ==> !spec_is_whitespace(
            s[skip_ows_back(s, from, to) - 1],
        ),
    decreases to - from,
{
    if from < to && spec_is_whitespace(s[to - 1]) {
        lemma_skip_ows_back(s, from, to - 1);
    }
}

/// A successful header block ends inside the input, behind its own first two
/// bytes, and every field that it adds lies before that end.
pub proof fn lemma_header_block_within(s: Seq<u8>, pos: int, acc: Seq<HeaderSpan>)
    requires
        0 <= pos,
        headers_within(acc, pos),
        header_block(s, pos, acc) is Ok,
    ensures
        pos + 2 <= header_block(s, pos, acc)->Ok_0.1 <= s.len(),
        headers_within(header_block(s, pos, acc)->Ok_0.0, header_block(s, pos, acc)->Ok_0.1),
    decreases s.len() - pos,
{
    if !crlf_at(s, pos) {
        let e = find_crlf(s, pos);
        let h = header_line(s, pos, e)->Ok_0;
        let c = find_byte(s, BYTE_COLON, pos, e);
        lemma_skip_ows(s, c + 1, e);
        lemma_skip_ows_back(s, skip_ows(s, c + 1, e), e);
        let next = acc.push(h);
        lemma_header_block_within(s, e + 2, next);
    }
}

/// A successful header block ends inside the input, behind its own first two
/// bytes.
proof fn lemma_header_block_end(s: Seq<u8>, pos: int, acc: Seq<HeaderSpan>)
    requires
        0 <= pos,
        header_block(s, pos, acc) is Ok,
    ensures
        pos + 2 <= header_block(s, pos, acc)->Ok_0.1 <= s.len(),
    decreases s.len() - pos,
{
    if !crlf_at(s, pos) {
        let e = find_crlf(s, pos);
        lemma_header_block_end(s, e + 2, acc.push(header_line(s, pos, e)->Ok_0));
    }
}

/// Every field of a parsed request head is a range of the bytes that the
/// head takes: no view reaches behind the consumed length.
pub proof fn lemma_request_views_within(s: Seq<u8>)
    requires
        spec_parse_request(s) is Ok,
    ensures
        0 < spec_parse_request(s)->Ok_0.len <= s.len(),
        spec_parse_request(s)->Ok_0.within(spec_parse_request(s)->Ok_0.len),
{
    let start = request_start(s);
    let e = find_crlf(s, start);
    lemma_header_block_within(s, e + 2, Seq::empty());
}

/// Every field of a parsed response head is a range of the bytes that the
/// head takes.
pub proof fn lemma_response_views_within(s: Seq<u8>)
    requires
        spec_parse_response(s) is Ok,
    ensures
        0 < spec_parse_response(s)->Ok_0.len <= s.len(),
        spec_parse_response(s)->Ok_0.within(spec_parse_response(s)->Ok_0.len),
{
    let e = find_crlf(s, 0);
    lemma_find_byte(s, BYTE_SP, 0, e);
    lemma_header_block_within(s, e + 2, Seq::empty());
}

/// A line end that lies inside the first `k` bytes is found in them too.
proof fn lemma_find_crlf_take_found(s: Seq<u8>, from: int, k: int)
    requires
        0 <= from,
        from <= find_crlf(s, from),
        find_crlf(s, from) + 2 <= k <= s.len(),
    ensures
        find_crlf(s.take(k), from) == find_crlf(s, from),
{
    let e = find_crlf(s, from);
    let t = s.take(k);
    lemma_find_crlf(s, from);
    assert forall|q: int| from <= q < e implies !crlf_at(t, q) by {
        if crlf_at(t, q) {
            assert(crlf_at(s, q));
        }
    }
    lemma_find_crlf_is(t, from, e);
}

/// A line whose end does not lie inside the first `k` bytes has no end in
/// them.
proof fn lemma_find_crlf_take_missing(s: Seq<u8>, from: int, k: int)
    requires
        0 <= from <= k <= s.len(),
        find_crlf(s, from) + 2 > k,
    ensures
        find_crlf(s.take(k), from) == k,
{
    let t = s.take(k);
    lemma_find_crlf(s, from);
    assert forall|q: int| from <= q < k implies !crlf_at(t, q) by {
        if crlf_at(t, q) {
            assert(crlf_at(s, q));
        }
    }
    lemma_find_crlf_is(t, from, k);
}

proof fn lemma_find_byte_take(s: Seq<u8>, b: u8, from: int, to: int, k: int)
    requires
        0 <= from <= to <= k <= s.len(),
    ensures
        find_byte(s.take(k), b, from, to) == find_byte(s, b, from, to),
    decreases to - from,
{
    if from < to {
        if s[from] != b {
            lemma_find_byte_take(s, b, from + 1, to, k);
        }
    }
}

proof fn lemma_skip_ows_take(s: Seq<u8>, from: int, to: int, k: int)
    requires
        0 <= from <= to <= k <= s.len(),
    ensures
        skip_ows(s.take(k), from, to) == skip_ows(s, from, to),
    decreases to - from,
{
    if from < to {
        if spec_is_whitespace(s[from]) {
            lemma_skip_ows_take(s, from + 1, to, k);
        }
    }
}

proof fn lemma_skip_ows_back_take(s: Seq<u8>, from: int, to: int, k: int)
    requires
        0 <= from <= to <= k <= s.len(),
    ensures
        skip_ows_back(s.take(k), from, to) == skip_ows_back(s, from, to),
    decreases to - from,
{
    if from < to {
        if spec_is_whitespace(s[to - 1]) {
            lemma_skip_ows_back_take(s, from, to - 1, k);
        }
    }
}

proof fn lemma_header_line_take(s: Seq<u8>, a: int, b: int, k: int)
    requires
        0 <= a <= b <= k <= s.len(),
    ensures
        header_line(s.take(k), a, b) == header_line(s, a, b),
{
    let t = s.take(k);
    lemma_find_byte_take(s, BYTE_COLON, a, b, k);
    lemma_find_byte(s, BYTE_COLON, a, b);
    let c = find_byte(s, BYTE_COLON, a, b);
    assert(all_tchar(t, a, c) == all_tchar(s, a, c)) by {
        if all_tchar(t, a, c) {
            assert forall|i: int| a <= i < c implies spec_is_tchar(#[trigger] s[i]) by {
                assert(spec_is_tchar(t[i]));
            }
        }
    }
    if c < b {
        assert(clean_value(t, c + 1, b) == clean_value(s, c + 1, b)) by {
            if clean_value(t, c + 1, b) {
                assert forall|i: int| c + 1 <= i < b implies (#[trigger] s[i]) != BYTE_CR && s[i]
                    != BYTE_LF && s[i] != BYTE_NUL by {
                    assert(t[i] != BYTE_CR);
                }
            }
        }
        lemma_skip_ows_take(s, c + 1, b, k);
        lemma_skip_ows(s, c + 1, b);
        lemma_skip_ows_back_take(s, skip_ows(s, c + 1, b), b, k);
    }
}

proof fn lemma_request_line_take(s: Seq<u8>, a: int, b: int, k: int)
    requires
        0 <= a <= b <= k <= s.len(),
    ensures
        request_line(s.take(k), a, b) == request_line(s, a, b),
{
    let t = s.take(k);
    lemma_find_byte_take(s, BYTE_SP, a, b, k);
    lemma_find_byte(s, BYTE_SP, a, b);
    let m = find_byte(s, BYTE_SP, a, b);
    assert(all_tchar(t, a, m) == all_tchar(s, a, m)) by {
        if all_tchar(t, a, m) {
            assert forall|i: int| a <= i < m implies spec_is_tchar(#[trigger] s[i]) by {
                assert(spec_is_tchar(t[i]));
            }
        }
    }
    if m < b {
        lemma_find_byte_take(s, BYTE_SP, m + 1, b, k);
        lemma_find_byte(s, BYTE_SP, m + 1, b);
        let u = find_byte(s, BYTE_SP, m + 1, b);
        assert(all_target(t, m + 1, u) == all_target(s, m + 1, u)) by {
            if all_target(t, m + 1, u) {
                assert forall|i: int| m + 1 <= i < u implies (#[trigger] s[i]) != BYTE_SP
                    && !spec_is_ctl(s[i]) by {
                    assert(t[i] != BYTE_SP);
                }
            }
        }
    }
}

proof fn lemma_status_line_take(s: Seq<u8>, a: int, b: int, k: int)
    requires
        0 <= a <= b <= k <= s.len(),
    ensures
        status_line(s.take(k), a, b) == status_line(s, a, b),
{
    let t = s.take(k);
    lemma_find_byte_take(s, BYTE_SP, a, b, k);
    lemma_find_byte(s, BYTE_SP, a, b);
    let v = find_byte(s, BYTE_SP, a, b);
    if v < b {
        lemma_find_byte_take(s, BYTE_SP, v + 1, b, k);
        lemma_find_byte(s, BYTE_SP, v + 1, b);
        let c = find_byte(s, BYTE_SP, v + 1, b);
        assert(all_digit(t, v + 1, c) == all_digit(s, v + 1, c)) by {
            if all_digit(t, v + 1, c) {
                assert forall|i: int| v + 1 <= i < c implies spec_is_digit(#[trigger] s[i]) by {
                    assert(spec_is_digit(t[i]));
                }
            }
        }
        if c < b {
            assert(no_cr(t, c + 1, b) == no_cr(s, c + 1, b)) by {
                if no_cr(t, c + 1, b) {
                    assert forall|i: int| c + 1 <= i < b implies (#[trigger] s[i]) != BYTE_CR by {
                        assert(t[i] != BYTE_CR);
                    }
                }
            }
        }
    }
}

/// A header block that parses in `s` parses the same in every prefix that
/// holds all of it, and is incomplete in every shorter one.
proof fn lemma_header_block_take(s: Seq<u8>, pos: int, acc: Seq<HeaderSpan>, k: int)
    requires
        0 <= pos,
        0 <= k <= s.len(),
        header_block(s, pos, acc) is Ok,
    ensures
        k >= header_block(s, pos, acc)->Ok_0.1 ==> header_block(s.take(k), pos, acc)
            == header_block(s, pos, acc),
        k < header_block(s, pos, acc)->Ok_0.1 ==> header_block(s.take(k), pos, acc) == Err::<
            (Seq<HeaderSpan>, int),
            ParseError,
        >(ParseError::Incomplete),
    decreases s.len() - pos,
{
    lemma_header_block_end(s, pos, acc);
    if pos + 2 <= k {
        if !crlf_at(s, pos) {
            let e = find_crlf(s, pos);
            if e + 2 <= k {
                lemma_find_crlf_take_found(s, pos, k);
                lemma_header_line_take(s, pos, e, k);
                lemma_header_block_take(s, e + 2, acc.push(header_line(s, pos, e)->Ok_0), k);
            } else {
                lemma_find_crlf_take_missing(s, pos, k);
                lemma_header_block_end(s, e + 2, acc.push(header_line(s, pos, e)->Ok_0));
            }
        }
    }
}

/// Parsing does not depend on how the input arrived: when a request head
/// parses in `s` and takes `n` bytes, it parses to the same result in every
/// prefix of `s` of at least `n` bytes, and every shorter prefix is
/// incomplete.
pub proof fn lemma_parse_request_prefix(s: Seq<u8>, k: int)
    requires
        0 <= k <= s.len(),
        spec_parse_request(s) is Ok,
    ensures
        k >= spec_parse_request(s)->Ok_0.len ==> spec_parse_request(s.take(k))
            == spec_parse_request(s),
        k < spec_parse_request(s)->Ok_0.len ==> spec_parse_request(s.take(k)) == Err::<
            RequestLayout,
            ParseError,
        >(ParseError::Incomplete),
{
    let start = request_start(s);
    let e = find_crlf(s, start);
    lemma_header_block_end(s, e + 2, Seq::empty());
    if k >= 2 {
        if e + 2 <= k {
            lemma_find_crlf_take_found(s, start, k);
            lemma_request_line_take(s, start, e, k);
            lemma_header_block_take(s, e + 2, Seq::empty(), k);
        } else {
            lemma_find_crlf_take_missing(s, start, k);
        }
    }
}

/// The same for a response head.
pub proof fn lemma_parse_response_prefix(s: Seq<u8>, k: int)
    requires
        0 <= k <= s.len(),
        spec_parse_response(s) is Ok,
    ensures
        k >= spec_parse_response(s)->Ok_0.len ==> spec_parse_response(s.take(k))
            == spec_parse_response(s),
        k < spec_parse_response(s)->Ok_0.len ==> spec_parse_response(s.take(k)) == Err::<
            ResponseLayout,
            ParseError,
        >(ParseError::Incomplete),
{
    let e = find_crlf(s, 0);
    lemma_header_block_end(s, e + 2, Seq::empty());
    if e + 2 <= k {
        lemma_find_crlf_take_found(s, 0, k);
        lemma_status_line_take(s, 0, e, k);
        lemma_header_block_take(s, e + 2, Seq::empty(), k);
    } else {
        lemma_find_crlf_take_missing(s, 0, k);
    }
}

/// A line end that the first `k` bytes hold is the line end in the whole.
proof fn lemma_find_crlf_of_take(s: Seq<u8>, from: int, k: int)
    requires
        0 <= from,
        0 <= k <= s.len(),
        from <= find_crlf(s.take(k), from),
        find_crlf(s.take(k), from) + 2 <= k,
    ensures
        find_crlf(s, from) == find_crlf(s.take(k), from),
{
    let t = s.take(k);
    let e = find_crlf(t, from);
    lemma_find_crlf(t, from);
    assert(crlf_at(t, e));
    assert(t[e] == s[e] && t[e + 1] == s[e + 1]);
    assert forall|q: int| from <= q < e implies !crlf_at(s, q) by {
        if crlf_at(s, q) {
            assert(t[q] == s[q] && t[q + 1] == s[q + 1]);
            assert(crlf_at(t, q));
        }
    }
    lemma_find_crlf_is(s, from, e);
}

/// A header block that parses in the first `k` bytes parses the same in the
/// whole.
proof fn lemma_header_block_of_take(s: Seq<u8>, pos: int, acc: Seq<HeaderSpan>, k: int)
    requires
        0 <= pos,
        0 <= k <= s.len(),
        header_block(s.take(k), pos, acc) is Ok,
    ensures
        header_block(s, pos, acc) == header_block(s.take(k), pos, acc),
    decreases k - pos,
{
    let t = s.take(k);
    assert(t[pos] == s[pos] && t[pos + 1] == s[pos + 1]);
    if !crlf_at(t, pos) {
        let e = find_crlf(t, pos);
        lemma_find_crlf_of_take(s, pos, k);
        lemma_header_line_take(s, pos, e, k);
        lemma_header_block_of_take(s, e + 2, acc.push(header_line(t, pos, e)->Ok_0), k);
    }
}

/// A request head that parses in the first `k` bytes of `s` parses the same
/// in `s`.
proof fn lemma_parse_request_of_take(s: Seq<u8>, k: int)
    requires
        0 <= k <= s.len(),
        spec_parse_request(s.take(k)) is Ok,
    ensures
        spec_parse_request(s) == spec_parse_request(s.take(k)),
{
    let t = s.take(k);
    assert(t[0] == s[0] && t[1] == s[1]);
    let start = request_start(t);
    let e = find_crlf(t, start);
    lemma_find_crlf(t, start);
    lemma_find_crlf_of_take(s, start, k);
    lemma_request_line_take(s, start, e, k);
    lemma_header_block_of_take(s, e + 2, Seq::empty(), k);
}

/// A response head that parses in the first `k` bytes of `s` parses the
/// same in `s`.
proof fn lemma_parse_response_of_take(s: Seq<u8>, k: int)
    requires
        0 <= k <= s.len(),
        spec_parse_response(s.take(k)) is Ok,
    ensures
        spec_parse_response(s) == spec_parse_response(s.take(k)),
{
    let t = s.take(k);
    let e = find_crlf(t, 0);
    lemma_find_crlf(t, 0);
    lemma_find_crlf_of_take(s, 0, k);
    lemma_status_line_take(s, 0, e, k);
    lemma_header_block_of_take(s, e + 2, Seq::empty(), k);
}

/// A span inside the first `n` bytes covers the same bytes in two inputs
/// that agree on their first `n` bytes.
proof fn lemma_same_span(span: Span, b: Seq<u8>, other: Seq<u8>, n: int)
    requires
        span.within(n),
        n <= b.len(),
        n <= other.len(),
        other.take(n) == b.take(n),
    ensures
        span.of(other) == span.of(b),
{
    assert forall|i: int| 0 <= i < n implies other[i] == b[i] by {
        assert(other.take(n)[i] == other[i]);
        assert(b.take(n)[i] == b[i]);
    }
    assert(span.of(other) =~= span.of(b));
}

/// The first `n` bytes of `b`, for the `n` bytes that its head takes, with
/// any bytes behind them parse as `b` does.
proof fn lemma_parse_request_tail(b: Seq<u8>, tail: Seq<u8>)
    requires
        spec_parse_request(b) is Ok,
    ensures
        spec_parse_request(b.take(spec_parse_request(b)->Ok_0.len) + tail) == spec_parse_request(
            b,
        ),
{
    let n = spec_parse_request(b)->Ok_0.len;
    let other = b.take(n) + tail;
    lemma_request_views_within(b);
    lemma_parse_request_prefix(b, n);
    assert(other.take(n) =~= b.take(n));
    lemma_parse_request_of_take(other, n);
}

/// What follows a head does not change how it parses: when a request head
/// parses in `b` and takes `n` bytes, the first `n` bytes of `b` with any
/// bytes `tail` behind them parse to the same result, and every field is the
/// same bytes there as in `b`.
pub proof fn lemma_parse_request_any_tail(b: Seq<u8>, tail: Seq<u8>)
    requires
        spec_parse_request(b) is Ok,
    ensures
        ({
            let l = spec_parse_request(b)->Ok_0;
            let other = b.take(l.len) + tail;
            &&& spec_parse_request(other) == spec_parse_request(b)
            &&& l.method.of(other) == l.method.of(b)
            &&& l.uri.of(other) == l.uri.of(b)
            &&& l.version.of(other) == l.version.of(b)
            &&& forall|i: int|
                0 <= i < l.headers.len() ==> (#[trigger] l.headers[i]).name.of(other)
                    == l.headers[i].name.of(b) && l.headers[i].value.of(other)
                    == l.headers[i].value.of(b)
        }),
{
    let l = spec_parse_request(b)->Ok_0;
    let n = l.len;
    let other = b.take(n) + tail;
    lemma_request_views_within(b);
    lemma_parse_request_tail(b, tail);
    assert(other.take(n) =~= b.take(n));
    lemma_same_span(l.method, b, other, n);
    lemma_same_span(l.uri, b, other, n);
    lemma_same_span(l.version, b, other, n);
    assert forall|i: int| 0 <= i < l.headers.len() implies (#[trigger] l.headers[i]).name.of(other)
        == l.headers[i].name.of(b) && l.headers[i].value.of(other) == l.headers[i].value.of(
        b,
    ) by {
        lemma_same_span(l.headers[i].name, b, other, n);
        lemma_same_span(l.headers[i].value, b, other, n);
    }
}

/// The same for a response head.
pub proof fn lemma_parse_response_any_tail(b: Seq<u8>, tail: Seq<u8>)
    requires
        spec_parse_response(b) is Ok,
    ensures
        ({
            let l = spec_parse_response(b)->Ok_0;
            let other = b.take(l.len) + tail;
            &&& spec_parse_response(other) == spec_parse_response(b)
            &&& l.version.of(other) == l.version.of(b)
            &&& l.status_code.of(other) == l.status_code.of(b)
            &&& l.reason.of(other) == l.reason.of(b)
            &&& forall|i: int|
                0 <= i < l.headers.len() ==> (#[trigger] l.headers[i]).name.of(other)
                    == l.headers[i].name.of(b) && l.headers[i].value.of(other)
                    == l.headers[i].value.of(b)
        }),
{
    let l = spec_parse_response(b)->Ok_0;
    let n = l.len;
    let other = b.take(n) + tail;
    lemma_response_views_within(b);
    lemma_parse_response_prefix(b, n);
    assert(other.take(n) =~= b.take(n));
    lemma_parse_response_of_take(other, n);
    lemma_same_span(l.version, b, other, n);
    lemma_same_span(l.status_code, b, other, n);
    lemma_same_span(l.reason, b, other, n);
    assert forall|i: int| 0 <= i < l.headers.len() implies (#[trigger] l.headers[i]).name.of(other)
        == l.headers[i].name.of(b) && l.headers[i].value.of(other) == l.headers[i].value.of(
        b,
    ) by {
        lemma_same_span(l.headers[i].name, b, other, n);
        lemma_same_span(l.headers[i].value, b, other, n);
    }
}

} // verus!
