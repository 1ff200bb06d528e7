//! The wire parser: request and response heads, as views into the buffer.

use vstd::prelude::*;
use vstd::slice::slice_subrange;
use crate::ascii::{
    is_digit, is_tchar, is_whitespace, BYTE_COLON, BYTE_CR, BYTE_LF, BYTE_NUL, BYTE_SP,
};
use crate::grammar::{
    all_digit, all_target, all_tchar, crlf_at, find_byte, find_crlf, header_block, header_line,
    headers_within, is_http_version, lemma_find_byte_is, lemma_find_crlf_is, request_line,
    skip_ows, skip_ows_back, spec_parse_request, spec_parse_response, status_line, HeaderSpan,
    RequestLayout, ResponseLayout, Span,
};
use crate::header_model::HeaderView;

verus! {

/// Initial room of a header list.
pub const DEFAULT_HEADER_COUNT: usize = 16;

/// A parse that ran to its end says how many bytes the head took.
#[derive(Debug, Clone, Copy, PartialEq, Eq, Structural)]
pub enum ParseStatus {
    Completed(usize),
    Incomplete,
}

/// Why a message head, or what follows from it, is not accepted.
#[derive(Debug, Clone, Copy, PartialEq, Eq, Structural)]
pub enum ParseError {
    /// The buffer ends before the head does: read more and parse again.
    Incomplete,
    BadRequest,
    BadResponse,
    BadHeaderName,
    BadFieldValue,
    TooLarge,
    FramingConflict,
    BadChunk,
}

/// A header field whose name and value borrow from the parse buffer.
#[derive(Debug)]
pub struct Header<'a> {
    pub name: &'a [u8],
    pub value: &'a [u8],
}

impl<'a> View for Header<'a> {
    type V = HeaderView;

    open spec fn view(&self) -> HeaderView {
        HeaderView { name: self.name@, value: self.value@ }
    }
}

impl<'a> Header<'a> {
    pub fn new(name: &'a [u8], value: &'a [u8]) -> (h: Self)
        ensures
            h@ == (HeaderView { name: name@, value: value@ }),
    {
        Header { name, value }
    }
}

/// The bytes that each field of `hs` holds.
pub open spec fn headers_view(hs: Seq<Header<'_>>) -> Seq<HeaderView> {
    Seq::new(hs.len(), |i: int| hs[i]@)
}

/// The fields that the spans of `hs` cut out of `s`.
pub open spec fn headers_of(s: Seq<u8>, hs: Seq<HeaderSpan>) -> Seq<HeaderView> {
    Seq::new(hs.len(), |i: int| HeaderView { name: hs[i].name.of(s), value: hs[i].value.of(s) })
}

/// A request head; every field is a view into the buffer it was parsed from.
#[derive(Debug)]
pub struct RawRequest<'a> {
    pub method: &'a [u8],
    pub uri: &'a [u8],
    pub version: &'a [u8],
    pub headers: Vec<Header<'a>>,
}

pub struct RawRequestView {
    pub method: Seq<u8>,
    pub uri: Seq<u8>,
    pub version: Seq<u8>,
    pub headers: Seq<HeaderView>,
}

impl<'a> View for RawRequest<'a> {
    type V = RawRequestView;

    open spec fn view(&self) -> RawRequestView {
        RawRequestView {
            method: self.method@,
            uri: self.uri@,
            version: self.version@,
            headers: headers_view(self.headers@),
        }
    }
}

/// A response head; every field is a view into the buffer it was parsed from.
#[derive(Debug)]
pub struct RawResponse<'a> {
    pub status_code: &'a [u8],
    pub reason: &'a [u8],
    pub version: &'a [u8],
    pub headers: Vec<Header<'a>>,
}

pub struct RawResponseView {
    pub status_code: Seq<u8>,
    pub reason: Seq<u8>,
    pub version: Seq<u8>,
    pub headers: Seq<HeaderView>,
}

impl<'a> View for RawResponse<'a> {
    type V = RawResponseView;

    open spec fn view(&self) -> RawResponseView {
        RawResponseView {
            status_code: self.status_code@,
            reason: self.reason@,
            version: self.version@,
            headers: headers_view(self.headers@),
        }
    }
}

/// What a request holds after a parse of `s` that found `l`, when it held
/// `before` when the parse began: the new fields, and the parsed headers
/// behind those it had.
pub open spec fn request_after(before: RawRequestView, s: Seq<u8>, l: RequestLayout) -> RawRequestView {
    RawRequestView {
        method: l.method.of(s),
        uri: l.uri.of(s),
        version: l.version.of(s),
        headers: before.headers + headers_of(s, l.headers),
    }
}

/// What a response holds after a parse of `s` that found `l`.
pub open spec fn response_after(before: RawResponseView, s: Seq<u8>, l: ResponseLayout) -> RawResponseView {
    RawResponseView {
        status_code: l.status_code.of(s),
        reason: l.reason.of(s),
        version: l.version.of(s),
        headers: before.headers + headers_of(s, l.headers),
    }
}

impl<'a> RawRequest<'a> {
    pub fn new() -> (r: Self)
        ensures
            r@ == (RawRequestView {
                method: Seq::empty(),
                uri: Seq::empty(),
                version: Seq::empty(),
                headers: Seq::empty(),
            }),
    {
        let r = RawRequest {
            method: &[],
            uri: &[],
            version: &[],
            headers: Vec::with_capacity(DEFAULT_HEADER_COUNT),
        };
        assert(r@.headers =~= Seq::empty());
        assert(r@.method =~= Seq::empty());
        r
    }

    pub fn headers(&self) -> (hs: &[Header<'a>])
        ensures
            hs@ == self.headers@,
    {
        self.headers.as_slice()
    }
}

impl<'a> RawResponse<'a> {
    pub fn new() -> (r: Self)
        ensures
            r@ == (RawResponseView {
                status_code: Seq::empty(),
                reason: Seq::empty(),
                version: Seq::empty(),
                headers: Seq::empty(),
            }),
    {
        let r = RawResponse {
            status_code: &[],
            reason: &[],
            version: &[],
            headers: Vec::with_capacity(DEFAULT_HEADER_COUNT),
        };
        assert(r@.headers =~= Seq::empty());
        assert(r@.status_code =~= Seq::empty());
        r
    }

    pub fn headers(&self) -> (hs: &[Header<'a>])
        ensures
            hs@ == self.headers@,
    {
        self.headers.as_slice()
    }
}

/// `memchr::memchr`: the index of the first byte of `haystack` that equals
/// `needle`, or `None` when no byte does.
pub assume_specification[ memchr::memchr ](needle: u8, haystack: &[u8]) -> (r: Option<usize>)
    ensures
        match r {
            Some(i) => i < haystack@.len() && haystack@[i as int] == needle && forall|j: int|
                0 <= j < i ==> haystack@[j] != needle,
            None => forall|j: int| 0 <= j < haystack@.len() ==> haystack@[j] != needle,
        },
;

/// `memchr::memchr3`: the index of the first byte of `haystack` that equals
/// one of the three needles, or `None` when no byte does.
pub assume_specification[ memchr::memchr3 ](
    needle1: u8,
    needle2: u8,
    needle3: u8,
    haystack: &[u8],
) -> (r: Option<usize>)
    ensures
        match r {
            Some(i) => i < haystack@.len() && (haystack@[i as int] == needle1 || haystack@[i as int]
                == needle2 || haystack@[i as int] == needle3) && forall|j: int|
                0 <= j < i ==> haystack@[j] != needle1 && haystack@[j] != needle2 && haystack@[j]
                    != needle3,
            None => forall|j: int|
                0 <= j < haystack@.len() ==> haystack@[j] != needle1 && haystack@[j] != needle2
                    && haystack@[j] != needle3,
        },
;

/// The position of the first `pat` in `from..to` of `buf`, if there is one.
fn must_split(buf: &[u8], from: usize, to: usize, pat: u8) -> (r: Option<usize>)
    requires
        from <= to <= buf@.len(),
    ensures
        match r {
            Some(p) => p == find_byte(buf@, pat, from as int, to as int) && from <= p < to,
            None => find_byte(buf@, pat, from as int, to as int) == to,
        },
{
    let part = slice_subrange(buf, from, to);
    match memchr::memchr(pat, part) {
        Some(i) => {
            proof {
                assert(forall|j: int| from <= j < from + i ==> buf@[j] == part@[j - from]);
                lemma_find_byte_is(buf@, pat, from as int, to as int, from + i);
            }
            Some(from + i)
        },
        None => {
            proof {
                assert(forall|j: int| from <= j < to ==> buf@[j] == part@[j - from]);
                lemma_find_byte_is(buf@, pat, from as int, to as int, to as int);
            }
            None
        },
    }
}

/// The end of the line that starts at `from`: the position of its CRLF.
fn read_line(buf: &[u8], from: usize) -> (r: Option<usize>)
    requires
        from <= buf@.len(),
    ensures
        match r {
            Some(e) => e == find_crlf(buf@, from as int) && from <= e && e + 2 <= buf.len(),
            None => find_crlf(buf@, from as int) == buf@.len(),
        },
{
    let len = buf.len();
    let mut off = from;
    loop
        invariant
            len == buf@.len(),
            from <= off <= len,
            forall|q: int| from <= q && q + 1 < off ==> !crlf_at(buf@, q),
        decreases len - off,
    {
        let rest = slice_subrange(buf, off, len);
        match memchr::memchr(BYTE_LF, rest) {
            None => {
                proof {
                    assert forall|q: int| from <= q < len implies !crlf_at(buf@, q) by {
                        if q + 1 >= off && q + 1 < len {
                            assert(buf@[q + 1] == rest@[q + 1 - off]);
                        }
                    }
                    lemma_find_crlf_is(buf@, from as int, len as int);
                }
                return None;
            },
            Some(i) => {
                let p = off + i;
                proof {
                    assert forall|q: int| from <= q && q + 1 < p implies !crlf_at(buf@, q) by {
                        if q + 1 >= off {
                            assert(buf@[q + 1] == rest@[q + 1 - off]);
                        }
                    }
                }
                if p > from && buf[p - 1] == BYTE_CR {
                    proof {
                        lemma_find_crlf_is(buf@, from as int, p - 1);
                    }
                    return Some(p - 1);
                }
                off = p + 1;
            },
        }
    }
}

/// The range that is left of `from..to` once the optional whitespace at
/// both ends is dropped.
pub fn trim_ows(buf: &[u8], from: usize, to: usize) -> (r: (usize, usize))
    requires
        from <= to <= buf@.len(),
    ensures
        r.0 == skip_ows(buf@, from as int, to as int),
        r.1 == skip_ows_back(buf@, r.0 as int, to as int),
        from <= r.0 <= r.1 <= to,
{
    let mut start = from;
    while start < to && is_whitespace(buf[start])
        invariant
            from <= start <= to <= buf@.len(),
            skip_ows(buf@, from as int, to as int) == skip_ows(buf@, start as int, to as int),
        decreases to - start,
    {
        start += 1;
    }
    let mut end = to;
    while end > start && is_whitespace(buf[end - 1])
        invariant
            start <= end <= to <= buf@.len(),
            skip_ows_back(buf@, start as int, to as int) == skip_ows_back(
                buf@,
                start as int,
                end as int,
            ),
        decreases end - start,
    {
        end -= 1;
    }
    (start, end)
}

/// Checks that `input` is `HTTP/` and `digit "." digit`, and gives the three
/// bytes of the version number.
pub fn parse_http_version<'a>(input: &'a [u8]) -> (r: Result<&'a [u8], ParseError>)
    ensures
        match r {
            Ok(v) => is_http_version(input@) && v@ == input@.subrange(5, 8),
            Err(e) => e == ParseError::BadRequest && !is_http_version(input@),
        },
{
    if input.len() != 8 {
        return Err(ParseError::BadRequest);
    }
    if input[0] != 0x48 || input[1] != 0x54 || input[2] != 0x54 || input[3] != 0x50 || input[4]
        != 0x2f {
        return Err(ParseError::BadRequest);
    }
    if !is_digit(input[5]) || input[6] != 0x2e || !is_digit(input[7]) {
        return Err(ParseError::BadRequest);
    }
    Ok(slice_subrange(input, 5, 8))
}

/// Whether every byte of `from..to` is a token character.
fn check_token(buf: &[u8], from: usize, to: usize) -> (r: bool)
    requires
        from <= to <= buf@.len(),
    ensures
        r == all_tchar(buf@, from as int, to as int),
{
    let mut i = from;
    while i < to
        invariant
            from <= i <= to <= buf@.len(),
            all_tchar(buf@, from as int, i as int),
        decreases to - i,
    {
        if !is_tchar(buf[i]) {
            return false;
        }
        i += 1;
    }
    true
}

/// Whether every byte of `from..to` is a digit.
fn check_digits(buf: &[u8], from: usize, to: usize) -> (r: bool)
    requires
        from <= to <= buf@.len(),
    ensures
        r == all_digit(buf@, from as int, to as int),
{
    let mut i = from;
    while i < to
        invariant
            from <= i <= to <= buf@.len(),
            all_digit(buf@, from as int, i as int),
        decreases to - i,
    {
        if !is_digit(buf[i]) {
            return false;
        }
        i += 1;
    }
    true
}

/// Whether no byte of `from..to` is a space or a control character.
fn check_target(buf: &[u8], from: usize, to: usize) -> (r: bool)
    requires
        from <= to <= buf@.len(),
    ensures
        r == all_target(buf@, from as int, to as int),
{
    let mut i = from;
    while i < to
        invariant
            from <= i <= to <= buf@.len(),
            all_target(buf@, from as int, i as int),
        decreases to - i,
    {
        let b = buf[i];
        if b <= BYTE_SP || b == 0x7f {
            return false;
        }
        i += 1;
    }
    true
}

/// Parses the request line in `a..b`: the positions of its two spaces.
fn parse_request_line(buf: &[u8], a: usize, b: usize) -> (r: Result<(usize, usize), ParseError>)
    requires
        a <= b <= buf@.len(),
    ensures
        match r {
            Ok((m, u)) => request_line(buf@, a as int, b as int) == Some(
                (
                    Span { start: a as int, end: m as int },
                    Span { start: m + 1, end: u as int },
                    Span { start: u + 6, end: b as int },
                ),
            ) && a < m < u && u + 9 == b,
            Err(e) => e == ParseError::BadRequest && request_line(buf@, a as int, b as int)
                is None,
        },
{
    let m = match must_split(buf, a, b, BYTE_SP) {
        Some(m) => m,
        None => { return Err(ParseError::BadRequest); },
    };
    if m == a || !check_token(buf, a, m) {
        return Err(ParseError::BadRequest);
    }
    let u = match must_split(buf, m + 1, b, BYTE_SP) {
        Some(u) => u,
        None => { return Err(ParseError::BadRequest); },
    };
    if u == m + 1 || !check_target(buf, m + 1, u) {
        return Err(ParseError::BadRequest);
    }
    match parse_http_version(slice_subrange(buf, u + 1, b)) {
        Ok(_) => Ok((m, u)),
        Err(_) => Err(ParseError::BadRequest),
    }
}

/// Parses the status line in `a..b`: the positions of its two spaces.
fn parse_status_line(buf: &[u8], a: usize, b: usize) -> (r: Result<(usize, usize), ParseError>)
    requires
        a <= b <= buf@.len(),
    ensures
        match r {
            Ok((v, c)) => status_line(buf@, a as int, b as int) == Some(
                (
                    Span { start: a + 5, end: v as int },
                    Span { start: v + 1, end: c as int },
                    Span { start: c + 1, end: b as int },
                ),
            ) && v == a + 8 && c == v + 4 && c < b,
            Err(e) => e == ParseError::BadResponse && status_line(buf@, a as int, b as int)
                is None,
        },
{
    let v = match must_split(buf, a, b, BYTE_SP) {
        Some(v) => v,
        None => { return Err(ParseError::BadResponse); },
    };
    if parse_http_version(slice_subrange(buf, a, v)).is_err() {
        return Err(ParseError::BadResponse);
    }
    let c = match must_split(buf, v + 1, b, BYTE_SP) {
        Some(c) => c,
        None => { return Err(ParseError::BadResponse); },
    };
    if c - v != 4 || !check_digits(buf, v + 1, c) {
        return Err(ParseError::BadResponse);
    }
    let reason = slice_subrange(buf, c + 1, b);
    match memchr::memchr(BYTE_CR, reason) {
        Some(i) => {
            Err(ParseError::BadResponse)
        },
        None => {
            assert(forall|j: int| c + 1 <= j < b ==> buf@[j] == reason@[j - (c + 1)]);
            Ok((v, c))
        },
    }
}

/// Parses the header field in `a..b`.
fn parse_header_line<'a>(buf: &'a [u8], a: usize, b: usize) -> (r: Result<Header<'a>, ParseError>)
    requires
        a <= b <= buf@.len(),
    ensures
        match r {
            Ok(h) => header_line(buf@, a as int, b as int) matches Ok(hs) && hs.within(b as int)
                && h@ == (HeaderView { name: hs.name.of(buf@), value: hs.value.of(buf@) }),
            Err(e) => header_line(buf@, a as int, b as int) == Err::<HeaderSpan, ParseError>(e),
        },
{
    let c = match must_split(buf, a, b, BYTE_COLON) {
        Some(c) => c,
        None => { return Err(ParseError::BadHeaderName); },
    };
    if c == a || !check_token(buf, a, c) {
        return Err(ParseError::BadHeaderName);
    }
    let raw = slice_subrange(buf, c + 1, b);
    match memchr::memchr3(BYTE_CR, BYTE_LF, BYTE_NUL, raw) {
        Some(i) => {
            return Err(ParseError::BadFieldValue);
        },
        None => {
            assert(forall|j: int| c + 1 <= j < b ==> buf@[j] == raw@[j - (c + 1)]);
        },
    }
    let (vs, ve) = trim_ows(buf, c + 1, b);
    Ok(Header::new(slice_subrange(buf, a, c), slice_subrange(buf, vs, ve)))
}

/// Cutting a list of fields back to its first part gives the views of that
/// part.
proof fn lemma_headers_view_prefix(hs: Seq<Header<'_>>, a: Seq<HeaderView>, b: Seq<HeaderView>)
    requires
        headers_view(hs) == a + b,
    ensures
        headers_view(hs.subrange(0, a.len() as int)) == a,
{
    assert(headers_view(hs).len() == a.len() + b.len());
    assert forall|i: int| 0 <= i < a.len() implies headers_view(hs.subrange(0, a.len() as int))[i]
        == a[i] by {
        assert(headers_view(hs)[i] == (a + b)[i]);
    }
}

/// Parses the header block that starts at `start` and pushes its fields onto
/// `headers`; on failure `headers` is as it was.
fn parse_headers<'a>(buf: &'a [u8], start: usize, headers: &mut Vec<Header<'a>>) -> (r: Result<
    usize,
    ParseError,
>)
    requires
        start <= buf@.len(),
    ensures
        match header_block(buf@, start as int, Seq::empty()) {
            Ok((hs, n)) => r matches Ok(k) && k == n && start + 2 <= n <= buf@.len()
                && headers_within(hs, n) && headers_view(final(headers)@) == headers_view(
                old(headers)@,
            ) + headers_of(buf@, hs),
            Err(e) => r == Err::<usize, ParseError>(e) && headers_view(final(headers)@)
                == headers_view(old(headers)@),
        },
{
    let old_len = headers.len();
    let len = buf.len();
    let ghost before = headers_view(headers@);
    let ghost mut acc: Seq<HeaderSpan> = Seq::empty();
    let mut pos = start;
    loop
        invariant
            len == buf@.len(),
            start <= pos <= len,
            header_block(buf@, start as int, Seq::empty()) == header_block(buf@, pos as int, acc),
            headers@.len() == old_len + acc.len(),
            before.len() == old_len,
            before == headers_view(old(headers)@),
            headers_view(headers@) == before + headers_of(buf@, acc),
            headers_within(acc, pos as int),
        decreases len - pos,
    {
        if len - pos < 2 {
            proof {
                lemma_headers_view_prefix(headers@, before, headers_of(buf@, acc));
            }
            headers.truncate(old_len);
            return Err(ParseError::Incomplete);
        }
        if buf[pos] == BYTE_CR && buf[pos + 1] == BYTE_LF {
            return Ok(pos + 2);
        }
        let e = match read_line(buf, pos) {
            Some(e) => e,
            None => {
                proof {
                    lemma_headers_view_prefix(headers@, before, headers_of(buf@, acc));
                }
                headers.truncate(old_len);
                return Err(ParseError::Incomplete);
            },
        };
        match parse_header_line(buf, pos, e) {
            Err(k) => {
                proof {
                    lemma_headers_view_prefix(headers@, before, headers_of(buf@, acc));
                }
                headers.truncate(old_len);
                return Err(k);
            },
            Ok(h) => {
                let ghost hs = header_line(buf@, pos as int, e as int)->Ok_0;
                let ghost prev = headers@;
                headers.push(h);
                proof {
                    assert forall|i: int| 0 <= i < headers@.len() implies headers_view(headers@)[i]
                        == (before + headers_of(buf@, acc.push(hs)))[i] by {
                        if i < prev.len() {
                            assert(headers_view(prev)[i] == (before + headers_of(buf@, acc))[i]);
                        }
                    }
                    acc = acc.push(hs);
                }
                pos = e + 2;
            },
        }
    }
}

/// Parses a request head from the start of `buf`.
///
/// On success the result is the number of bytes that the head takes: the
/// body starts there. The fields of `req` are then views into `buf`, and the
/// parsed headers stand behind those that `req` held. On failure `req` holds
/// what it held before. `Incomplete` asks for a longer buffer: nothing is
/// kept between calls.
pub fn parse_request<'a>(buf: &'a [u8], req: &mut RawRequest<'a>) -> (r: Result<usize, ParseError>)
    ensures
        match spec_parse_request(buf@) {
            Ok(l) => r matches Ok(n) && n == l.len && 0 < n <= buf@.len() && l.within(l.len)
                && final(req)@ == request_after(old(req)@, buf@, l),
            Err(e) => r == Err::<usize, ParseError>(e) && final(req)@ == old(req)@,
        },
{
    if buf.len() < 2 {
        return Err(ParseError::Incomplete);
    }
    let start: usize = if buf[0] == BYTE_CR && buf[1] == BYTE_LF {
        2
    } else {
        0
    };
    let end = match read_line(buf, start) {
        Some(e) => e,
        None => { return Err(ParseError::Incomplete); },
    };
    let (m, u) = parse_request_line(buf, start, end)?;
    let n = parse_headers(buf, end + 2, &mut req.headers)?;
    req.method = slice_subrange(buf, start, m);
    req.uri = slice_subrange(buf, m + 1, u);
    req.version = slice_subrange(buf, u + 6, end);
    Ok(n)
}

/// Parses a response head from the start of `buf`.
///
/// On success the result is the number of bytes that the head takes. The
/// fields of `rsp` are then views into `buf`, and the parsed headers stand
/// behind those that `rsp` held. On failure `rsp` holds what it held before.
pub fn parse_response<'a>(buf: &'a [u8], rsp: &mut RawResponse<'a>) -> (r: Result<
    usize,
    ParseError,
>)
    ensures
        match spec_parse_response(buf@) {
            Ok(l) => r matches Ok(n) && n == l.len && 0 < n <= buf@.len() && l.within(l.len)
                && final(rsp)@ == response_after(old(rsp)@, buf@, l),
            Err(e) => r == Err::<usize, ParseError>(e) && final(rsp)@ == old(rsp)@,
        },
{
    let end = match read_line(buf, 0) {
        Some(e) => e,
        None => { return Err(ParseError::Incomplete); },
    };
    let (v, c) = parse_status_line(buf, 0, end)?;
    let n = parse_headers(buf, end + 2, &mut rsp.headers)?;
    rsp.version = slice_subrange(buf, 5, v);
    rsp.status_code = slice_subrange(buf, v + 1, c);
    rsp.reason = slice_subrange(buf, c + 1, end);
    Ok(n)
}

} // verus!
