//! Byte classes of the HTTP/1 grammar.

use vstd::prelude::*;

verus! {

pub const BYTE_SP: u8 = 0x20;

pub const BYTE_HTAB: u8 = 0x09;

pub const BYTE_CR: u8 = 0x0d;

pub const BYTE_LF: u8 = 0x0a;

pub const BYTE_NUL: u8 = 0x00;

pub const BYTE_COLON: u8 = 0x3a;

/// Optional whitespace: a space or a horizontal tab.
pub open spec fn spec_is_whitespace(b: u8) -> bool {
    b == BYTE_SP || b == BYTE_HTAB
}

/// An ASCII decimal digit.
pub open spec fn spec_is_digit(b: u8) -> bool {
    0x30 <= b <= 0x39
}

/// An ASCII letter.
pub open spec fn spec_is_alpha(b: u8) -> bool {
    0x41 <= b <= 0x5a || 0x61 <= b <= 0x7a
}

/// A token character: a digit, a letter, or one of ``!#$%&'*+-.^_`|~``.
pub open spec fn spec_is_tchar(b: u8) -> bool {
    spec_is_digit(b) || spec_is_alpha(b) || b == 0x21 || b == 0x23 || b == 0x24 || b == 0x25
        || b == 0x26 || b == 0x27 || b == 0x2a || b == 0x2b || b == 0x2d || b == 0x2e || b == 0x5e
        || b == 0x5f || b == 0x60 || b == 0x7c || b == 0x7e
}

/// A control character: below the space, or DEL.
pub open spec fn spec_is_ctl(b: u8) -> bool {
    b < 0x20 || b == 0x7f
}

#[verifier::when_used_as_spec(spec_is_whitespace)]
pub fn is_whitespace(b: u8) -> (r: bool)
    ensures
        r == spec_is_whitespace(b),
{
    b == BYTE_SP || b == BYTE_HTAB
}

#[verifier::when_used_as_spec(spec_is_digit)]
pub fn is_digit(b: u8) -> (r: bool)
    ensures
        r == spec_is_digit(b),
{
    0x30 <= b && b <= 0x39
}

/// One entry for each ASCII byte: whether it is a token character.
pub const TCHAR_TABLE: [bool; 128] = [
    false, false, false, false, false, false, false, false,
    false, false, false, false, false, false, false, false,
    false, false, false, false, false, false, false, false,
    false, false, false, false, false, false, false, false,
    false, true, false, true, true, true, true, true,
    false, false, true, true, false, true, true, false,
    true, true, true, true, true, true, true, true,
    true, true, false, false, false, false, false, false,
    false, true, true, true, true, true, true, true,
    true, true, true, true, true, true, true, true,
    true, true, true, true, true, true, true, true,
    true, true, true, false, false, false, true, true,
    true, true, true, true, true, true, true, true,
    true, true, true, true, true, true, true, true,
    true, true, true, true, true, true, true, true,
    true, true, true, false, true, false, true, false,
];

#[verifier::when_used_as_spec(spec_is_tchar)]
pub fn is_tchar(b: u8) -> (r: bool)
    ensures
        r == spec_is_tchar(b),
{
    b < 128 && TCHAR_TABLE[b as usize]
}

/// The upper-case form of an ASCII letter; any other byte as it is.
pub open spec fn spec_ascii_upper(b: u8) -> u8 {
    if 0x61 <= b <= 0x7a {
        (b - 0x20) as u8
    } else {
        b
    }
}

/// The lower-case form of an ASCII letter; any other byte as it is.
pub open spec fn spec_ascii_lower(b: u8) -> u8 {
    if 0x41 <= b <= 0x5a {
        (b + 0x20) as u8
    } else {
        b
    }
}

/// Whether two byte strings are the same but for the case of ASCII letters.
pub open spec fn spec_eq_ignore_ascii_case(a: Seq<u8>, b: Seq<u8>) -> bool {
    a.len() == b.len() && forall|i: int|
        0 <= i < a.len() ==> spec_ascii_lower(#[trigger] a[i]) == spec_ascii_lower(b[i])
}

#[verifier::when_used_as_spec(spec_ascii_upper)]
pub fn ascii_upper(b: u8) -> (r: u8)
    ensures
        r == spec_ascii_upper(b),
{
    if 0x61 <= b && b <= 0x7a {
        b - 0x20
    } else {
        b
    }
}

#[verifier::when_used_as_spec(spec_ascii_lower)]
pub fn ascii_lower(b: u8) -> (r: u8)
    ensures
        r == spec_ascii_lower(b),
{
    if 0x41 <= b && b <= 0x5a {
        b + 0x20
    } else {
        b
    }
}

pub fn eq_ignore_ascii_case(a: &[u8], b: &[u8]) -> (r: bool)
    ensures
        r == spec_eq_ignore_ascii_case(a@, b@),
{
    if a.len() != b.len() {
        return false;
    }
    let mut i: usize = 0;
    while i < a.len()
        invariant
            a@.len() == b@.len(),
            i <= a@.len(),
            forall|j: int| 0 <= j < i ==> spec_ascii_lower(#[trigger] a@[j]) == spec_ascii_lower(b@[j]),
        decreases a@.len() - i,
    {
        if ascii_lower(a[i]) != ascii_lower(b[i]) {
            return false;
        }
        i += 1;
    }
    true
}

/// Whether two byte strings hold the same bytes.
pub fn bytes_eq(a: &[u8], b: &[u8]) -> (r: bool)
    ensures
        r == (a@ == b@),
{
    if a.len() != b.len() {
        return false;
    }
    let mut i: usize = 0;
    while i < a.len()
        invariant
            a@.len() == b@.len(),
            i <= a@.len(),
            forall|j: int| 0 <= j < i ==> a@[j] == b@[j],
        decreases a@.len() - i,
    {
        if a[i] != b[i] {
            return false;
        }
        i += 1;
    }
    assert(a@ =~= b@);
    true
}

} // verus!
