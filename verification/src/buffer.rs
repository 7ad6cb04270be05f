//! The growable byte buffer of the `bytes` crate, as far as the codec uses it.
//!
//! Nothing in this file is proved. Each function makes one call into `bytes`
//! and states what that call does to the bytes in the buffer. The buffers are
//! made by [`buf_new`] and touched by nothing but the functions below, so
//! they are never split, shared or advanced.
//!
//! A `BytesMut` grows when more is written than it has room for. Its storage
//! is a `Vec<u8>`, which panics when asked for more than `isize::MAX` bytes:
//! the functions that append leave such lengths out.

use bytes::{BufMut, BytesMut};
use vstd::prelude::*;

use crate::wire::i32_to_le;

verus! {

/// `bytes::BytesMut`, known here by what it holds and by nothing else.
#[verifier::external_type_specification]
#[verifier::external_body]
pub struct ExBytesMut(bytes::BytesMut);

/// The bytes in a buffer, in the order in which they were written.
pub uninterp spec fn buf_contents(buf: BytesMut) -> Seq<u8>;

/// `BytesMut::new`: a buffer of length 0.
#[verifier::external_body]
pub(crate) fn buf_new() -> (buf: BytesMut)
    ensures
        buf_contents(buf) == Seq::<u8>::empty(),
{
    BytesMut::new()
}

/// `BytesMut::len`: the number of bytes in the buffer.
#[verifier::external_body]
pub(crate) fn buf_len(buf: &BytesMut) -> (n: usize)
    ensures
        n == buf_contents(*buf).len(),
{
    buf.len()
}

/// `BufMut::put_i32_le` on a `BytesMut`: appends the four bytes of
/// `n.to_le_bytes()`, which are the two's-complement representation of `n`,
/// least significant byte first.
#[verifier::external_body]
pub(crate) fn buf_put_i32_le(buf: &mut BytesMut, n: i32)
    requires
        buf_contents(*old(buf)).len() + 4 <= isize::MAX,
    ensures
        buf_contents(*final(buf)) == buf_contents(*old(buf)) + i32_to_le(n),
{
    buf.put_i32_le(n)
}

/// `BufMut::put_u8` on a `BytesMut`: appends the one byte `n`.
#[verifier::external_body]
pub(crate) fn buf_put_u8(buf: &mut BytesMut, n: u8)
    requires
        buf_contents(*old(buf)).len() + 1 <= isize::MAX,
    ensures
        buf_contents(*final(buf)) == buf_contents(*old(buf)).push(n),
{
    buf.put_u8(n)
}

/// `BufMut::put_slice` on a `BytesMut`: appends all of `src`, in order.
#[verifier::external_body]
pub(crate) fn buf_put_slice(buf: &mut BytesMut, src: &[u8])
    requires
        buf_contents(*old(buf)).len() + src@.len() <= isize::MAX,
    ensures
        buf_contents(*final(buf)) == buf_contents(*old(buf)) + src@,
{
    buf.put_slice(src)
}

/// `BytesMut::extend_from_slice`: appends all of `src`, in order.
#[verifier::external_body]
pub(crate) fn buf_extend_from_slice(buf: &mut BytesMut, src: &[u8])
    requires
        buf_contents(*old(buf)).len() + src@.len() <= isize::MAX,
    ensures
        buf_contents(*final(buf)) == buf_contents(*old(buf)) + src@,
{
    buf.extend_from_slice(src)
}

/// `Deref::deref` of a `BytesMut`: the bytes in the buffer as a slice.
#[verifier::external_body]
pub(crate) fn buf_as_slice(buf: &BytesMut) -> (bytes: &[u8])
    ensures
        bytes@ == buf_contents(*buf),
{
    std::ops::Deref::deref(buf)
}

} // verus!
