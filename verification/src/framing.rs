//! How the headers of a message decide where its body ends.

use vstd::prelude::*;
use crate::ascii::{spec_eq_ignore_ascii_case, spec_is_digit};
use crate::grammar::{find_byte, skip_ows, skip_ows_back};
use crate::ascii::eq_ignore_ascii_case;
use crate::header_model::{EntryView, HeaderView};
use crate::http::headers::{
    CHUNKED, CLOSE, CONNECTION, CONTENT_LENGTH, KEEP_ALIVE, TRANSFER_ENCODING,
};
use crate::http::{
    header_values_contains_token, parse_content_length, ContentLength, VersionView,
};
use crate::parser::ParseError;

verus! {

/// The byte `,`, which separates the tokens of a header value.
pub const BYTE_COMMA: u8 = 0x2c;

/// The parts of `s` between the separators `sep`: one more part than there
/// are separators, empty parts included.
pub open spec fn spec_split(s: Seq<u8>, sep: u8) -> Seq<Seq<u8>>
    decreases s.len(),
{
    let i = find_byte(s, sep, 0, s.len() as int);
    if i < 0 || i >= s.len() {
        seq![s]
    } else {
        seq![s.take(i)] + spec_split(s.skip(i + 1), sep)
    }
}

/// `p` without the optional whitespace at its two ends.
pub open spec fn spec_trimmed(p: Seq<u8>) -> Seq<u8> {
    let from = skip_ows(p, 0, p.len() as int);
    p.subrange(from, skip_ows_back(p, from, p.len() as int))
}

/// Whether one of `parts` is `token` once it is trimmed, whatever the case
/// of its letters.
pub open spec fn some_part_is(parts: Seq<Seq<u8>>, token: Seq<u8>) -> bool {
    exists|i: int|
        0 <= i < parts.len() && spec_eq_ignore_ascii_case(spec_trimmed(#[trigger] parts[i]), token)
}

/// Whether the comma-separated list `values` holds the token `token`.
pub open spec fn spec_contains_token(values: Seq<u8>, token: Seq<u8>) -> bool {
    some_part_is(spec_split(values, BYTE_COMMA), token)
}

/// The number that the decimal digits of `v` write.
pub open spec fn decimal_value(v: Seq<u8>) -> nat
    decreases v.len(),
{
    if v.len() == 0 {
        0
    } else {
        decimal_value(v.drop_last()) * 10 + (v.last() - 0x30) as nat
    }
}

/// What a `Content-Length` value announces: it is one or more digits that
/// write a number of 64 bits; anything else announces nothing.
pub open spec fn content_length_value(v: Seq<u8>) -> Option<u64> {
    if v.len() > 0 && (forall|i: int| 0 <= i < v.len() ==> spec_is_digit(#[trigger] v[i]))
        && decimal_value(v) <= u64::MAX {
        Some(decimal_value(v) as u64)
    } else {
        None
    }
}

/// A longer run of digits does not write a smaller number.
pub proof fn lemma_decimal_prefix(v: Seq<u8>, i: int)
    requires
        0 <= i <= v.len(),
        forall|j: int| 0 <= j < v.len() ==> spec_is_digit(#[trigger] v[j]),
    ensures
        decimal_value(v.take(i)) <= decimal_value(v),
    decreases v.len() - i,
{
    if i < v.len() {
        assert(v.take(i + 1).drop_last() =~= v.take(i));
        lemma_decimal_prefix(v, i + 1);
    } else {
        assert(v.take(i) =~= v);
    }
}

pub open spec fn is_transfer_encoding(h: HeaderView) -> bool {
    spec_eq_ignore_ascii_case(h.name, TRANSFER_ENCODING@)
}

pub open spec fn is_content_length(h: HeaderView) -> bool {
    spec_eq_ignore_ascii_case(h.name, CONTENT_LENGTH@)
}

pub open spec fn is_connection(h: HeaderView) -> bool {
    spec_eq_ignore_ascii_case(h.name, CONNECTION@)
}

/// A `Content-Length` that does not announce a length.
pub open spec fn is_bad_content_length(h: HeaderView) -> bool {
    is_content_length(h) && content_length_value(h.value) is None
}

/// A `Transfer-Encoding` that names `chunked`.
pub open spec fn names_chunked(h: HeaderView) -> bool {
    is_transfer_encoding(h) && spec_contains_token(h.value, CHUNKED@)
}

/// A `Connection` that names `close`.
pub open spec fn names_close(h: HeaderView) -> bool {
    is_connection(h) && spec_contains_token(h.value, CLOSE@)
}

/// A `Connection` that names `keep-alive`.
pub open spec fn names_keep_alive(h: HeaderView) -> bool {
    is_connection(h) && spec_contains_token(h.value, KEEP_ALIVE@)
}

/// Whether `f` holds of some header of `hs`.
pub open spec fn any_header(hs: Seq<HeaderView>, f: spec_fn(HeaderView) -> bool) -> bool {
    exists|i: int| 0 <= i < hs.len() && f(#[trigger] hs[i])
}

/// Some header is a `Transfer-Encoding`.
pub open spec fn has_transfer_encoding(hs: Seq<HeaderView>) -> bool {
    any_header(hs, |h: HeaderView| is_transfer_encoding(h))
}

/// Some header is a `Content-Length`.
pub open spec fn has_content_length(hs: Seq<HeaderView>) -> bool {
    any_header(hs, |h: HeaderView| is_content_length(h))
}

/// Some `Content-Length` does not announce a length.
pub open spec fn has_bad_content_length(hs: Seq<HeaderView>) -> bool {
    any_header(hs, |h: HeaderView| is_bad_content_length(h))
}

/// Some `Transfer-Encoding` names `chunked`.
pub open spec fn is_chunked(hs: Seq<HeaderView>) -> bool {
    any_header(hs, |h: HeaderView| names_chunked(h))
}

/// Some `Connection` names `close`.
pub open spec fn asks_close(hs: Seq<HeaderView>) -> bool {
    any_header(hs, |h: HeaderView| names_close(h))
}

/// Some `Connection` names `keep-alive`.
pub open spec fn asks_keep_alive(hs: Seq<HeaderView>) -> bool {
    any_header(hs, |h: HeaderView| names_keep_alive(h))
}

/// The length that the last `Content-Length` announces; 0 when there is
/// none or it announces nothing.
pub open spec fn announced_length(hs: Seq<HeaderView>) -> u64
    decreases hs.len(),
{
    if hs.len() == 0 {
        0
    } else if is_content_length(hs.last()) {
        match content_length_value(hs.last().value) {
            Some(n) => n,
            None => 0,
        }
    } else {
        announced_length(hs.drop_last())
    }
}

/// What a list of headers says of framing and of the connection.
pub struct ScanView {
    pub transfer_encoding: bool,
    pub content_length: bool,
    pub bad_content_length: bool,
    pub chunked: bool,
    pub close: bool,
    pub keep_alive: bool,
    pub length: u64,
}

/// What the headers `hs` say.
pub open spec fn scan_of(hs: Seq<HeaderView>) -> ScanView {
    ScanView {
        transfer_encoding: has_transfer_encoding(hs),
        content_length: has_content_length(hs),
        bad_content_length: has_bad_content_length(hs),
        chunked: is_chunked(hs),
        close: asks_close(hs),
        keep_alive: asks_keep_alive(hs),
        length: announced_length(hs),
    }
}

/// What the headers say once `h` has come behind them.
pub open spec fn scan_step(s: ScanView, h: HeaderView) -> ScanView {
    ScanView {
        transfer_encoding: s.transfer_encoding || is_transfer_encoding(h),
        content_length: s.content_length || is_content_length(h),
        bad_content_length: s.bad_content_length || is_bad_content_length(h),
        chunked: s.chunked || names_chunked(h),
        close: s.close || names_close(h),
        keep_alive: s.keep_alive || names_keep_alive(h),
        length: if is_content_length(h) {
            match content_length_value(h.value) {
                Some(n) => n,
                None => 0,
            }
        } else {
            s.length
        },
    }
}

/// The headers with one more say what the step says.
pub proof fn lemma_scan_push(hs: Seq<HeaderView>, h: HeaderView)
    ensures
        scan_of(hs.push(h)) == scan_step(scan_of(hs), h),
{
    let more = hs.push(h);
    assert(more.drop_last() =~= hs);
}

/// What the headers of a request say of its body and of the connection.
#[derive(Debug, Clone, Copy, PartialEq, Eq, Structural)]
pub struct Framing {
    /// Where the body ends.
    pub content_length: ContentLength,
    /// Whether a `Connection` header names `close`.
    pub should_close: bool,
}

/// The framing of a request whose headers say `s`.
pub open spec fn request_framing_of(s: ScanView) -> Result<Framing, ParseError> {
    if (s.transfer_encoding && s.content_length) || s.bad_content_length {
        Err(ParseError::BadRequest)
    } else {
        Ok(
            Framing {
                content_length: if s.chunked {
                    ContentLength::Chunked
                } else if s.content_length {
                    ContentLength::Sized(s.length)
                } else if s.close {
                    ContentLength::UntilClose
                } else {
                    ContentLength::NoBody
                },
                should_close: s.close,
            },
        )
    }
}

/// The framing of a request with the headers `hs`.
///
/// A request with both a `Content-Length` and a `Transfer-Encoding`, in
/// either order, is rejected, and so is one whose `Content-Length` is not a
/// number. Otherwise the body is chunked when a `Transfer-Encoding` names
/// `chunked`; else it has the length that the last `Content-Length`
/// announces; else it runs until the connection closes when a `Connection`
/// names `close`; else there is none.
pub open spec fn spec_request_framing(hs: Seq<HeaderView>) -> Result<Framing, ParseError> {
    request_framing_of(scan_of(hs))
}

/// A request with both a `Content-Length` and a `Transfer-Encoding` is a
/// protocol error, whatever else it holds and in whatever order.
pub proof fn lemma_framing_conflict(hs: Seq<HeaderView>)
    requires
        has_content_length(hs),
        has_transfer_encoding(hs),
    ensures
        spec_request_framing(hs) == Err::<Framing, ParseError>(ParseError::BadRequest),
{
}

/// All headers of a map: key after key in ascending order, and under each
/// key the headers in the order in which they came.
pub open spec fn all_headers(m: Seq<EntryView>) -> Seq<HeaderView>
    decreases m.len(),
{
    if m.len() == 0 {
        Seq::empty()
    } else {
        all_headers(m.drop_last()) + m.last().values
    }
}

/// Where the body of a response ends whose headers say `s`.
pub open spec fn response_framing_of(s: ScanView) -> Result<ContentLength, ParseError> {
    if s.chunked && s.content_length {
        Err(ParseError::FramingConflict)
    } else if s.bad_content_length {
        Err(ParseError::BadResponse)
    } else if s.chunked {
        Ok(ContentLength::Chunked)
    } else if s.content_length {
        Ok(ContentLength::Sized(s.length))
    } else {
        Ok(ContentLength::UntilClose)
    }
}

/// Where the body of a response with the headers `hs` ends.
///
/// With a `Content-Length` and a `Transfer-Encoding` that names `chunked`
/// the response is rejected as a framing conflict; with a `Content-Length`
/// that is not a number, as a bad response. Else the body is chunked, or
/// has the length that the last `Content-Length` announces, or, without
/// either, runs until the connection closes.
pub open spec fn spec_response_framing(hs: Seq<HeaderView>) -> Result<ContentLength, ParseError> {
    response_framing_of(scan_of(hs))
}

/// Whether a request of this version and with these headers lets the
/// connection go on behind its response: it does not name `close`, and it
/// names `keep-alive` if it is of version 1.0.
pub open spec fn spec_keep_alive(version: VersionView, request: Seq<HeaderView>) -> bool {
    !asks_close(request) && (version is V1_0 ==> asks_keep_alive(request))
}

/// Whether the connection ends with a response: the request does not let
/// it go on, or the response names `close` in a `Connection` header, or the
/// response does not say by a length or by chunks where its body ends.
pub open spec fn spec_must_close(keep_alive: bool, response: Seq<HeaderView>) -> bool {
    ||| !keep_alive
    ||| asks_close(response)
    ||| !(spec_response_framing(response) matches Ok(f) && (f is Sized || f is Chunked))
}

/// What the headers seen so far say of framing and of the connection.
pub struct FramingScan {
    pub transfer_encoding: bool,
    pub content_length: bool,
    pub bad_content_length: bool,
    pub chunked: bool,
    pub close: bool,
    pub keep_alive: bool,
    pub length: u64,
}

impl View for FramingScan {
    type V = ScanView;

    open spec fn view(&self) -> ScanView {
        ScanView {
            transfer_encoding: self.transfer_encoding,
            content_length: self.content_length,
            bad_content_length: self.bad_content_length,
            chunked: self.chunked,
            close: self.close,
            keep_alive: self.keep_alive,
            length: self.length,
        }
    }
}

impl FramingScan {
    /// What no headers say.
    pub fn new() -> (s: Self)
        ensures
            s@ == scan_of(Seq::empty()),
    {
        FramingScan {
            transfer_encoding: false,
            content_length: false,
            bad_content_length: false,
            chunked: false,
            close: false,
            keep_alive: false,
            length: 0,
        }
    }

    /// Takes the next header into account. The name is matched whatever the
    /// case of its letters.
    pub fn take(&mut self, name: &[u8], value: &[u8])
        ensures
            final(self)@ == scan_step(old(self)@, HeaderView { name: name@, value: value@ }),
    {
        if eq_ignore_ascii_case(name, &TRANSFER_ENCODING) {
            self.transfer_encoding = true;
            if header_values_contains_token(value, &CHUNKED) {
                self.chunked = true;
            }
        } else if eq_ignore_ascii_case(name, &CONTENT_LENGTH) {
            self.content_length = true;
            match parse_content_length(value) {
                Some(len) => {
                    self.length = len;
                },
                None => {
                    self.bad_content_length = true;
                    self.length = 0;
                },
            }
        } else if eq_ignore_ascii_case(name, &CONNECTION) {
            if header_values_contains_token(value, &CLOSE) {
                self.close = true;
            }
            if header_values_contains_token(value, &KEEP_ALIVE) {
                self.keep_alive = true;
            }
        }
    }

    /// The framing of a request with the headers seen.
    pub fn request_framing(&self) -> (r: Result<Framing, ParseError>)
        ensures
            r == request_framing_of(self@),
    {
        if (self.transfer_encoding && self.content_length) || self.bad_content_length {
            Err(ParseError::BadRequest)
        } else {
            Ok(
                Framing {
                    content_length: if self.chunked {
                        ContentLength::Chunked
                    } else if self.content_length {
                        ContentLength::Sized(self.length)
                    } else if self.close {
                        ContentLength::UntilClose
                    } else {
                        ContentLength::NoBody
                    },
                    should_close: self.close,
                },
            )
        }
    }

    /// Where the body of a response with the headers seen ends.
    pub fn response_framing(&self) -> (r: Result<ContentLength, ParseError>)
        ensures
            r == response_framing_of(self@),
    {
        if self.chunked && self.content_length {
            Err(ParseError::FramingConflict)
        } else if self.bad_content_length {
            Err(ParseError::BadResponse)
        } else if self.chunked {
            Ok(ContentLength::Chunked)
        } else if self.content_length {
            Ok(ContentLength::Sized(self.length))
        } else {
            Ok(ContentLength::UntilClose)
        }
    }
}

} // verus!
