//! The receive buffer of a peer connection, a `BytesMut` of the `bytes`
//! crate, and the big-endian integers that the peer protocol is made of.

use bytes::{Buf, BufMut, BytesMut};
use vstd::prelude::*;

verus! {

/// The four bytes of a 32-bit number, the most significant first.
pub open spec fn be32(n: u32) -> Seq<u8> {
    seq![
        (n / 0x100_0000) as u8,
        ((n / 0x1_0000) % 0x100) as u8,
        ((n / 0x100) % 0x100) as u8,
        (n % 0x100) as u8,
    ]
}

/// The 32-bit number that the first four bytes of `b` denote, the most
/// significant first.
pub open spec fn be32_value(b: Seq<u8>) -> u32 {
    (b[0] * 0x100_0000 + b[1] * 0x1_0000 + b[2] * 0x100 + b[3]) as u32
}

/// Reading the four bytes of a number gives the number back.
pub proof fn lemma_be32_value(n: u32)
    ensures
        be32(n).len() == 4,
        be32_value(be32(n)) == n,
{
}

/// `bytes::BytesMut`, the growable byte buffer, carried as it is; what it
/// holds is named by `buffered`.
#[verifier::external_type_specification]
#[verifier::external_body]
pub struct ExBytesMut(BytesMut);

/// The bytes that a buffer holds, the next to be read first.
pub uninterp spec fn buffered(b: BytesMut) -> Seq<u8>;

/// Calls `BytesMut::len`: the number of bytes that the buffer holds.
#[verifier::external_body]
pub(crate) fn buffer_len(b: &BytesMut) -> (r: usize)
    ensures
        r == buffered(*b).len(),
{
    b.len()
}

/// Indexes the buffer as a slice, through `Deref` of `BytesMut`: the byte
/// at position `i`, which stays in the buffer.
#[verifier::external_body]
pub(crate) fn buffer_byte(b: &BytesMut, i: usize) -> (r: u8)
    requires
        i < buffered(*b).len(),
    ensures
        r == buffered(*b)[i as int],
{
    b[i]
}

/// Calls `Buf::advance` on a `BytesMut`: the first `n` bytes leave the
/// buffer. It panics where the buffer holds fewer.
#[verifier::external_body]
pub(crate) fn buffer_advance(b: &mut BytesMut, n: usize)
    requires
        n <= buffered(*old(b)).len(),
    ensures
        buffered(*final(b)) == buffered(*old(b)).skip(n as int),
{
    b.advance(n)
}

/// Calls `Buf::get_u8` on a `BytesMut`: the first byte leaves the buffer
/// and is returned. It panics on an empty buffer.
#[verifier::external_body]
pub(crate) fn buffer_get_u8(b: &mut BytesMut) -> (r: u8)
    requires
        buffered(*old(b)).len() >= 1,
    ensures
        r == buffered(*old(b))[0],
        buffered(*final(b)) == buffered(*old(b)).skip(1),
{
    b.get_u8()
}

/// Calls `Buf::get_u32` on a `BytesMut`: the first four bytes leave the
/// buffer and are returned as a big-endian number. It panics where the
/// buffer holds fewer.
#[verifier::external_body]
pub(crate) fn buffer_get_u32(b: &mut BytesMut) -> (r: u32)
    requires
        buffered(*old(b)).len() >= 4,
    ensures
        r == be32_value(buffered(*old(b))),
        buffered(*final(b)) == buffered(*old(b)).skip(4),
{
    b.get_u32()
}

/// Calls `BytesMut::split_to`, and copies what it splits off: the first
/// `n` bytes leave the buffer and are returned. It panics where the buffer
/// holds fewer.
#[verifier::external_body]
pub(crate) fn buffer_split_to(b: &mut BytesMut, n: usize) -> (r: Vec<u8>)
    requires
        n <= buffered(*old(b)).len(),
    ensures
        r@ == buffered(*old(b)).take(n as int),
        buffered(*final(b)) == buffered(*old(b)).skip(n as int),
{
    b.split_to(n).to_vec()
}

/// Calls `BufMut::put_u8` on a `Vec<u8>`, which appends the byte.
#[verifier::external_body]
pub(crate) fn put_u8(out: &mut Vec<u8>, n: u8)
    ensures
        final(out)@ == old(out)@.push(n),
{
    out.put_u8(n)
}

/// Calls `BufMut::put_u32` on a `Vec<u8>`, which appends the number's four
/// bytes, the most significant first.
#[verifier::external_body]
pub(crate) fn put_u32(out: &mut Vec<u8>, n: u32)
    ensures
        final(out)@ == old(out)@ + be32(n),
{
    out.put_u32(n)
}

} // verus!

verus! {

/// Calls `BytesMut::with_capacity`: an empty buffer with room for
/// `capacity` bytes.
#[verifier::external_body]
pub(crate) fn buffer_with_capacity(capacity: usize) -> (r: BytesMut)
    ensures
        buffered(r) == Seq::<u8>::empty(),
{
    BytesMut::with_capacity(capacity)
}

/// Calls `BytesMut::extend_from_slice`, which appends the bytes behind
/// those that the buffer holds, growing it where it must.
#[verifier::external_body]
pub(crate) fn buffer_extend(b: &mut BytesMut, data: &[u8])
    ensures
        buffered(*final(b)) == buffered(*old(b)) + data@,
{
    b.extend_from_slice(data)
}

} // verus!
