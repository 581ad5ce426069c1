//! The growable byte buffer that connections read into, as far as the codec
//! uses it. The buffer itself is `bytes::BytesMut`; nothing here is proved of
//! it, and each function below states what the codec relies on.

use bytes::Buf;
use bytes::BytesMut;
use vstd::prelude::*;

verus! {

/// `bytes::BytesMut`, taken as it is: nothing is known of what is inside a
/// buffer but what the functions below state.
#[verifier::external_type_specification]
#[verifier::external_body]
pub struct ExBytesMut(bytes::BytesMut);

/// The bytes that a buffer holds, first to last.
pub uninterp spec fn buffer_bytes(buffer: BytesMut) -> Seq<u8>;

/// `BytesMut::with_capacity`: a buffer that holds no bytes yet, whatever room
/// it has set aside. It panics where that room cannot be allocated, so
/// capacities that some machine cannot address are left out.
#[verifier::external_body]
pub(crate) fn buffer_with_capacity(capacity: usize) -> (buffer: BytesMut)
    requires
        capacity <= 0x7fff_ffff,
    ensures
        buffer_bytes(buffer) == Seq::<u8>::empty(),
{
    BytesMut::with_capacity(capacity)
}

/// `BytesMut::len`: the number of bytes that the buffer holds.
#[verifier::external_body]
pub(crate) fn buffer_len(buffer: &BytesMut) -> (len: usize)
    ensures
        len == buffer_bytes(*buffer).len(),
{
    buffer.len()
}

/// `BytesMut::extend_from_slice`: the given bytes are appended to those that
/// the buffer holds. It panics where the new length cannot be allocated, so
/// that case is left out.
#[verifier::external_body]
pub(crate) fn buffer_extend(buffer: &mut BytesMut, extend: &[u8])
    requires
        buffer_bytes(*old(buffer)).len() + extend@.len() <= isize::MAX,
    ensures
        buffer_bytes(*final(buffer)) == buffer_bytes(*old(buffer)) + extend@,
{
    buffer.extend_from_slice(extend)
}

/// The `Deref` of `BytesMut`: the bytes that the buffer holds, as a slice.
#[verifier::external_body]
pub(crate) fn buffer_slice(buffer: &BytesMut) -> (slice: &[u8])
    ensures
        slice@ == buffer_bytes(*buffer),
{
    &buffer[..]
}

/// `Buf::advance` on `BytesMut`: the first `count` bytes leave the buffer and
/// the others stay, in order. It panics where the buffer holds fewer, so that
/// case is left out.
#[verifier::external_body]
pub(crate) fn buffer_advance(buffer: &mut BytesMut, count: usize)
    requires
        count <= buffer_bytes(*old(buffer)).len(),
    ensures
        buffer_bytes(*final(buffer)) == buffer_bytes(*old(buffer)).skip(count as int),
{
    buffer.advance(count)
}

} // verus!
