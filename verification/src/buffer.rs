//! What the library relies on of the `bytes` crate: the reader's buffer
//! (`BytesMut`) and the immutable slices cut from it (`Bytes`).
//!
//! Nothing here is proved. Each contract says over the contents of the
//! buffers what the crate's documentation and source say of the function.

use bytes::{Buf, Bytes, BytesMut};
use vstd::prelude::*;

verus! {

/// `bytes::Bytes`, an immutable slice of a shared buffer. Opaque here: only
/// `bytes_contents` speaks of what it holds.
#[verifier::external_type_specification]
#[verifier::external_body]
pub struct ExBytes(Bytes);

/// `bytes::BytesMut`, a growable byte buffer. Opaque here: only
/// `buffer_contents` speaks of what it holds.
#[verifier::external_type_specification]
#[verifier::external_body]
pub struct ExBytesMut(BytesMut);

/// The bytes that a `Bytes` holds, first to last.
pub uninterp spec fn bytes_contents(b: Bytes) -> Seq<u8>;

/// The bytes that a `BytesMut` holds, first to last.
pub uninterp spec fn buffer_contents(b: BytesMut) -> Seq<u8>;

/// `BytesMut::with_capacity`: an empty buffer with room for `capacity`
/// bytes. The vector underneath panics on a capacity beyond `isize::MAX`.
pub assume_specification[ BytesMut::with_capacity ](capacity: usize) -> (r: BytesMut)
    requires
        capacity <= isize::MAX,
    ensures
        buffer_contents(r) == Seq::<u8>::empty(),
;

/// `BytesMut::len`: the number of bytes held.
pub assume_specification[ BytesMut::len ](b: &BytesMut) -> (n: usize)
    ensures
        n == buffer_contents(*b).len(),
;

/// `BytesMut::freeze`: the same bytes, now immutable.
pub assume_specification[ BytesMut::freeze ](b: BytesMut) -> (r: Bytes)
    ensures
        bytes_contents(r) == buffer_contents(b),
;

/// `BytesMut::split_to`: the first `at` bytes are handed out and the buffer
/// keeps the rest. It panics when `at` is more than the length.
pub assume_specification[ BytesMut::split_to ](b: &mut BytesMut, at: usize) -> (r: BytesMut)
    requires
        at <= buffer_contents(*old(b)).len(),
    ensures
        buffer_contents(r) == buffer_contents(*old(b)).take(at as int),
        buffer_contents(*final(b)) == buffer_contents(*old(b)).skip(at as int),
;

/// `BytesMut::split`: all bytes are handed out and the buffer is left empty.
pub assume_specification[ BytesMut::split ](b: &mut BytesMut) -> (r: BytesMut)
    ensures
        buffer_contents(r) == buffer_contents(*old(b)),
        buffer_contents(*final(b)) == Seq::<u8>::empty(),
;

/// `Buf::advance` of `BytesMut`: the first `cnt` bytes are dropped. It
/// panics when `cnt` is more than the length.
pub assume_specification[ <BytesMut as Buf>::advance ](b: &mut BytesMut, cnt: usize)
    requires
        cnt <= buffer_contents(*old(b)).len(),
    ensures
        buffer_contents(*final(b)) == buffer_contents(*old(b)).skip(cnt as int),
;

/// `AsRef<[u8]>` of `BytesMut`: the bytes held, as a slice.
#[verifier::external_body]
pub(crate) fn buffer_slice(b: &BytesMut) -> (r: &[u8])
    ensures
        r@ == buffer_contents(*b),
{
    b.as_ref()
}

/// `Clone` of `Bytes`: another handle on the same bytes.
pub assume_specification[ <Bytes as Clone>::clone ](b: &Bytes) -> (r: Bytes)
    ensures
        bytes_contents(r) == bytes_contents(*b),
;

/// `From<Vec<u8>>` of `Bytes`: the bytes of the vector.
pub assume_specification[ <Bytes as From<Vec<u8>>>::from ](v: Vec<u8>) -> (r: Bytes)
    ensures
        bytes_contents(r) == v@,
;

} // verus!
