//! Byte buffers of the `bytes` crate, as sequences of bytes.
//!
//! Nothing in this file is proved: each item states what the `bytes` crate
//! documents of one of its functions.

use bytes::{Bytes, BytesMut};
use vstd::prelude::*;

verus! {

#[verifier::external_type_specification]
#[verifier::external_body]
pub struct ExBytes(Bytes);

#[verifier::external_type_specification]
#[verifier::external_body]
pub struct ExBytesMut(BytesMut);

/// The bytes that a `Bytes` handle refers to, in order.
pub uninterp spec fn bytes_view(b: Bytes) -> Seq<u8>;

/// The bytes written so far into a `BytesMut`, in order.
pub uninterp spec fn buf_view(b: BytesMut) -> Seq<u8>;

/// The views of a sequence of chunks, one for one.
pub open spec fn chunk_views(chunks: Seq<Bytes>) -> Seq<Seq<u8>> {
    chunks.map_values(|b: Bytes| bytes_view(b))
}

/// `Bytes::len`: the number of bytes in the handle.
#[verifier::external_body]
pub(crate) fn bytes_len(b: &Bytes) -> (n: usize)
    ensures
        n == bytes_view(*b).len(),
{
    b.len()
}

/// `Bytes::clone`: a second handle to the same bytes.
#[verifier::external_body]
pub(crate) fn bytes_clone(b: &Bytes) -> (r: Bytes)
    ensures
        bytes_view(r) == bytes_view(*b),
{
    b.clone()
}

/// `Bytes::split_to`, with the head dropped: afterwards the handle holds the
/// bytes from `at` on. The crate panics where `at` is past the end.
#[verifier::external_body]
pub(crate) fn bytes_skip(b: &mut Bytes, at: usize)
    requires
        at <= bytes_view(*old(b)).len(),
    ensures
        bytes_view(*final(b)) == bytes_view(*old(b)).skip(at as int),
{
    let _ = b.split_to(at);
}

/// `BytesMut::new`: an empty buffer.
#[verifier::external_body]
pub(crate) fn buf_new() -> (b: BytesMut)
    ensures
        buf_view(b) == Seq::<u8>::empty(),
{
    BytesMut::new()
}

/// `BytesMut::len`: the number of bytes written so far.
#[verifier::external_body]
pub(crate) fn buf_len(b: &BytesMut) -> (n: usize)
    ensures
        n == buf_view(*b).len(),
{
    b.len()
}

/// `BytesMut::extend_from_slice`: appends the bytes of `more`. The crate
/// panics where the new length overflows `usize`; short of that it fails
/// only where the machine cannot hold the buffer.
#[verifier::external_body]
pub(crate) fn buf_extend(b: &mut BytesMut, more: &Bytes)
    requires
        buf_view(*old(b)).len() + bytes_view(*more).len() <= usize::MAX,
    ensures
        buf_view(*final(b)) == buf_view(*old(b)) + bytes_view(*more),
{
    b.extend_from_slice(&more[..])
}

/// `BytesMut::split_to`, then `BytesMut::freeze`: hands out the first `at`
/// bytes and keeps the rest. The crate panics where `at` is past the end.
#[verifier::external_body]
pub(crate) fn buf_split_to(b: &mut BytesMut, at: usize) -> (head: Bytes)
    requires
        at <= buf_view(*old(b)).len(),
    ensures
        bytes_view(head) == buf_view(*old(b)).take(at as int),
        buf_view(*final(b)) == buf_view(*old(b)).skip(at as int),
{
    b.split_to(at).freeze()
}

} // verus!
