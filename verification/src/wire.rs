//! The bytes of a response head on the wire.

use vstd::prelude::*;
use crate::ascii::BYTE_SP;
use crate::framing::all_headers;
use crate::header_model::{EntryView, HeaderView};

verus! {

/// `HTTP/1.1 `, with which every status line starts.
pub const STATUS_PREFIX: [u8; 9] = [0x48, 0x54, 0x54, 0x50, 0x2f, 0x31, 0x2e, 0x31, 0x20];

/// `: `, between the name and the value of a header.
pub const NAME_VALUE_SEP: [u8; 2] = [0x3a, 0x20];

/// The end of a line.
pub const CRLF: [u8; 2] = [0x0d, 0x0a];

/// `OK`
pub const REASON_OK: [u8; 2] = [0x4f, 0x4b];

/// `Bad Request`
pub const REASON_BAD_REQUEST: [u8; 11] = [
    0x42, 0x61, 0x64, 0x20, 0x52, 0x65, 0x71, 0x75, 0x65, 0x73, 0x74,
];

/// `Not Found`
pub const REASON_NOT_FOUND: [u8; 9] = [0x4e, 0x6f, 0x74, 0x20, 0x46, 0x6f, 0x75, 0x6e, 0x64];

/// `Internal Server Error`
pub const REASON_INTERNAL_SERVER_ERROR: [u8; 21] = [
    0x49, 0x6e, 0x74, 0x65, 0x72, 0x6e, 0x61, 0x6c, 0x20, 0x53, 0x65, 0x72, 0x76, 0x65, 0x72, 0x20,
    0x45, 0x72, 0x72, 0x6f, 0x72,
];

/// The decimal digits of `n`, without leading zeros.
pub open spec fn spec_decimal(n: nat) -> Seq<u8>
    decreases n,
{
    if n < 10 {
        seq![(0x30 + n) as u8]
    } else {
        spec_decimal(n / 10).push((0x30 + n % 10) as u8)
    }
}

/// The reason phrase of a status line: the standard phrase of a code that
/// has one here, else the phrase that the handler supplied.
pub open spec fn spec_reason(code: u16, supplied: Seq<u8>) -> Seq<u8> {
    if code == 200 {
        REASON_OK@
    } else if code == 400 {
        REASON_BAD_REQUEST@
    } else if code == 404 {
        REASON_NOT_FOUND@
    } else if code == 500 {
        REASON_INTERNAL_SERVER_ERROR@
    } else {
        supplied
    }
}

/// `HTTP/1.1 <code> <reason>` and the end of the line.
pub open spec fn spec_status_line(code: u16, supplied: Seq<u8>) -> Seq<u8> {
    STATUS_PREFIX@ + spec_decimal(code as nat) + seq![BYTE_SP] + spec_reason(code, supplied)
        + CRLF@
}

/// `<Name>: <Value>` and the end of the line, the name as the caller wrote
/// it.
pub open spec fn spec_header_line(h: HeaderView) -> Seq<u8> {
    h.name + NAME_VALUE_SEP@ + h.value + CRLF@
}

/// The lines of the headers `hs`, in their order.
pub open spec fn spec_header_lines(hs: Seq<HeaderView>) -> Seq<u8>
    decreases hs.len(),
{
    if hs.len() == 0 {
        Seq::empty()
    } else {
        spec_header_lines(hs.drop_last()) + spec_header_line(hs.last())
    }
}

/// The head of a response: the status line, a line for every header of the
/// map, key after key in ascending order, and an empty line.
pub open spec fn spec_head(code: u16, supplied: Seq<u8>, m: Seq<EntryView>) -> Seq<u8> {
    spec_status_line(code, supplied) + spec_header_lines(all_headers(m)) + CRLF@
}

} // verus!
