use bytes::{Buf, BufMut, Bytes, BytesMut};
use crate::endian::{u16_be, u32_be, u64_be};
use vstd::prelude::*;

verus! {

#[verifier::external_type_specification]
#[verifier::external_body]
pub struct ExBytes(bytes::Bytes);

#[verifier::external_type_specification]
#[verifier::external_body]
pub struct ExBytesMut(bytes::BytesMut);

/// The bytes that a `Bytes` holds, in order.
pub uninterp spec fn bytes_seq(b: Bytes) -> Seq<u8>;

/// The bytes that a `BytesMut` holds, in order.
pub uninterp spec fn bytes_mut_seq(b: BytesMut) -> Seq<u8>;

/// `Bytes::new`: a buffer that holds nothing.
#[verifier::external_body]
pub(crate) fn bytes_new() -> (b: Bytes)
    ensures
        bytes_seq(b) == Seq::<u8>::empty(),
{
    Bytes::new()
}

/// `Bytes::copy_from_slice`: a buffer that holds a copy of `data`.
#[verifier::external_body]
pub(crate) fn bytes_copy_from_slice(data: &[u8]) -> (b: Bytes)
    ensures
        bytes_seq(b) == data@,
{
    Bytes::copy_from_slice(data)
}

/// `Bytes::len`: the number of bytes held.
#[verifier::external_body]
pub(crate) fn bytes_len(b: &Bytes) -> (n: usize)
    ensures
        n == bytes_seq(*b).len(),
{
    b.len()
}

/// `Bytes::slice` on the range `begin..end`: a buffer that holds those bytes of `b`.
/// The range has to lie within `b`, or the call would panic.
#[verifier::external_body]
pub(crate) fn bytes_slice(b: &Bytes, begin: usize, end: usize) -> (s: Bytes)
    requires
        begin <= end <= bytes_seq(*b).len(),
    ensures
        bytes_seq(s) == bytes_seq(*b).subrange(begin as int, end as int),
{
    b.slice(begin..end)
}

/// `Bytes::clone`: a second handle on the same bytes.
#[verifier::external_body]
pub(crate) fn bytes_clone(b: &Bytes) -> (c: Bytes)
    ensures
        bytes_seq(c) == bytes_seq(*b),
{
    b.clone()
}

/// `Bytes::as_ref`: the bytes held, as a slice.
#[verifier::external_body]
pub(crate) fn bytes_as_slice(b: &Bytes) -> (s: &[u8])
    ensures
        s@ == bytes_seq(*b),
{
    b.as_ref()
}

/// `BytesMut::clone`: a buffer of its own that holds a copy of the bytes.
#[verifier::external_body]
pub(crate) fn bytes_mut_clone(b: &BytesMut) -> (c: BytesMut)
    ensures
        bytes_mut_seq(c) == bytes_mut_seq(*b),
{
    b.clone()
}

/// `BytesMut::len`: the number of bytes held.
#[verifier::external_body]
pub(crate) fn bytes_mut_len(b: &BytesMut) -> (n: usize)
    ensures
        n == bytes_mut_seq(*b).len(),
{
    b.len()
}

/// `BytesMut::as_ref`: the bytes held, as a slice.
#[verifier::external_body]
pub(crate) fn bytes_mut_as_slice(b: &BytesMut) -> (s: &[u8])
    ensures
        s@ == bytes_mut_seq(*b),
{
    b.as_ref()
}

/// `BytesMut::split_to`: takes the first `at` bytes out of `b` and returns them;
/// `b` keeps the rest. `at` may not exceed the length, or the call would panic.
#[verifier::external_body]
pub(crate) fn bytes_mut_split_to(b: &mut BytesMut, at: usize) -> (head: BytesMut)
    requires
        at <= bytes_mut_seq(*old(b)).len(),
    ensures
        bytes_mut_seq(head) == bytes_mut_seq(*old(b)).subrange(0, at as int),
        bytes_mut_seq(*final(b)) == bytes_mut_seq(*old(b)).subrange(
            at as int,
            bytes_mut_seq(*old(b)).len() as int,
        ),
{
    b.split_to(at)
}

/// `Buf::advance` on a `BytesMut`: drops the first `cnt` bytes. `cnt` may not exceed
/// the length, or the call would panic.
#[verifier::external_body]
pub(crate) fn bytes_mut_advance(b: &mut BytesMut, cnt: usize)
    requires
        cnt <= bytes_mut_seq(*old(b)).len(),
    ensures
        bytes_mut_seq(*final(b)) == bytes_mut_seq(*old(b)).subrange(
            cnt as int,
            bytes_mut_seq(*old(b)).len() as int,
        ),
{
    b.advance(cnt)
}

/// `BufMut::put_u16` on a `BytesMut`: appends `n` in big-endian byte order.
#[verifier::external_body]
pub(crate) fn bytes_mut_put_u16(b: &mut BytesMut, n: u16)
    ensures
        bytes_mut_seq(*final(b)) == bytes_mut_seq(*old(b)) + u16_be(n),
{
    b.put_u16(n)
}

/// `BufMut::put_u32` on a `BytesMut`: appends `n` in big-endian byte order.
#[verifier::external_body]
pub(crate) fn bytes_mut_put_u32(b: &mut BytesMut, n: u32)
    ensures
        bytes_mut_seq(*final(b)) == bytes_mut_seq(*old(b)) + u32_be(n),
{
    b.put_u32(n)
}

/// `BufMut::put_u64` on a `BytesMut`: appends `n` in big-endian byte order.
#[verifier::external_body]
pub(crate) fn bytes_mut_put_u64(b: &mut BytesMut, n: u64)
    ensures
        bytes_mut_seq(*final(b)) == bytes_mut_seq(*old(b)) + u64_be(n),
{
    b.put_u64(n)
}

/// `BufMut::put_slice` on a `BytesMut`: appends the bytes of `src`.
#[verifier::external_body]
pub(crate) fn bytes_mut_put_slice(b: &mut BytesMut, src: &[u8])
    ensures
        bytes_mut_seq(*final(b)) == bytes_mut_seq(*old(b)) + src@,
{
    b.put_slice(src)
}

/// `BufMut::put` on a `BytesMut`, with a `Bytes` as the source: appends its bytes.
#[verifier::external_body]
pub(crate) fn bytes_mut_put_bytes(b: &mut BytesMut, src: Bytes)
    ensures
        bytes_mut_seq(*final(b)) == bytes_mut_seq(*old(b)) + bytes_seq(src),
{
    b.put(src)
}

} // verus!
