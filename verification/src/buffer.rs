//! The byte buffer of the `bytes` crate, as far as the codec uses it.
//!
//! Nothing in this file is proved: each function states what the method it
//! calls does to the bytes that the buffer holds.

use bytes::BytesMut;
use vstd::prelude::*;

verus! {

/// `bytes::BytesMut`, a growable byte buffer. The verifier sees nothing
/// inside it: what it holds is spoken of through `contents`.
#[verifier::external_type_specification]
#[verifier::external_body]
pub struct ExBytesMut(bytes::BytesMut);

/// The bytes that a buffer holds, from the first that would be read to the
/// last that was written.
pub uninterp spec fn contents(buf: BytesMut) -> Seq<u8>;

/// `BytesMut`'s `Deref::deref`: the bytes of the buffer as a slice, none
/// left out and none added.
#[verifier::external_body]
pub(crate) fn buffered(buf: &BytesMut) -> (bytes: &[u8])
    ensures
        bytes@ == contents(*buf),
{
    std::ops::Deref::deref(buf)
}

/// `BytesMut::split_to`: takes the first `at` bytes out of the buffer and
/// returns them as a buffer of their own; the rest stays, in order. The
/// method panics where `at` is beyond the buffer's length.
#[verifier::external_body]
pub(crate) fn split_front(buf: &mut BytesMut, at: usize) -> (front: BytesMut)
    requires
        at <= contents(*old(buf)).len(),
    ensures
        contents(front) == contents(*old(buf)).take(at as int),
        contents(*final(buf)) == contents(*old(buf)).skip(at as int),
{
    buf.split_to(at)
}

/// `BytesMut::reserve`: makes room for `additional` more bytes and leaves the
/// bytes held as they are. The method panics where the capacity asked for
/// overflows, which the bound on the sum excludes.
#[verifier::external_body]
pub(crate) fn reserve(buf: &mut BytesMut, additional: usize)
    requires
        contents(*old(buf)).len() + additional <= isize::MAX,
    ensures
        contents(*final(buf)) == contents(*old(buf)),
{
    buf.reserve(additional)
}

/// `BytesMut::extend_from_slice`: grows the buffer as needed and writes
/// `bytes` behind what it holds. It reserves like `reserve`, hence the same
/// bound.
#[verifier::external_body]
pub(crate) fn append(buf: &mut BytesMut, bytes: &[u8])
    requires
        contents(*old(buf)).len() + bytes@.len() <= isize::MAX,
    ensures
        contents(*final(buf)) == contents(*old(buf)) + bytes@,
{
    buf.extend_from_slice(bytes)
}

} // verus!
