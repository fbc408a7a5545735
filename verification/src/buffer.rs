//! The byte buffers of the `bytes` crate, seen as sequences of bytes.

use bytes::{Buf, BufMut, Bytes, BytesMut};
use vstd::prelude::*;

verus! {

/// `bytes::BytesMut`, whose bytes `contents` names.
#[verifier::external_type_specification]
#[verifier::external_body]
pub struct ExBytesMut(BytesMut);

/// `bytes::Bytes`, whose bytes `frozen` names.
#[verifier::external_type_specification]
#[verifier::external_body]
pub struct ExBytes(Bytes);

/// The bytes that a `BytesMut` holds, in order.
pub uninterp spec fn contents(buf: BytesMut) -> Seq<u8>;

/// The bytes that a `Bytes` holds, in order.
pub uninterp spec fn frozen(buf: Bytes) -> Seq<u8>;

/// `BytesMut::new` returns a buffer that holds no bytes.
pub assume_specification[ BytesMut::new ]() -> (buf: BytesMut)
    ensures
        contents(buf) == Seq::<u8>::empty(),
;

/// `BytesMut::len` returns the number of bytes held.
pub assume_specification[ BytesMut::len ](buf: &BytesMut) -> (len: usize)
    ensures
        len == contents(*buf).len(),
;

/// `BytesMut::clear` removes every byte.
pub assume_specification[ BytesMut::clear ](buf: &mut BytesMut)
    ensures
        contents(*final(buf)) == Seq::<u8>::empty(),
;

/// `BytesMut::extend_from_slice` appends the bytes of the slice.
pub assume_specification[ BytesMut::extend_from_slice ](buf: &mut BytesMut, extend: &[u8])
    ensures
        contents(*final(buf)) == contents(*old(buf)) + extend@,
;

/// `BytesMut::split_to` removes the first `at` bytes and returns them. It panics where fewer are
/// held.
pub assume_specification[ BytesMut::split_to ](buf: &mut BytesMut, at: usize) -> (head: BytesMut)
    requires
        at <= contents(*old(buf)).len(),
    ensures
        contents(head) == contents(*old(buf)).take(at as int),
        contents(*final(buf)) == contents(*old(buf)).skip(at as int),
;

/// `BytesMut::freeze` keeps the bytes.
pub assume_specification[ BytesMut::freeze ](buf: BytesMut) -> (bytes: Bytes)
    ensures
        frozen(bytes) == contents(buf),
;

/// `Clone` on a `BytesMut` copies the bytes.
pub assume_specification[ <BytesMut as Clone>::clone ](buf: &BytesMut) -> (copy: BytesMut)
    ensures
        contents(copy) == contents(*buf),
;

/// `Clone` on a `Bytes` keeps the bytes.
pub assume_specification[ <Bytes as Clone>::clone ](buf: &Bytes) -> (copy: Bytes)
    ensures
        frozen(copy) == frozen(*buf),
;

/// `Bytes::copy_from_slice` copies the bytes of the slice.
#[verifier::external_body]
pub(crate) fn into_bytes(bytes: &[u8]) -> (buf: Bytes)
    ensures
        frozen(buf) == bytes@,
{
    Bytes::copy_from_slice(bytes)
}

/// `Deref` of a `Bytes` gives the bytes held.
#[verifier::external_body]
pub(crate) fn frozen_slice(buf: &Bytes) -> (bytes: &[u8])
    ensures
        bytes@ == frozen(*buf),
{
    buf
}

/// `Buf::advance` on a `BytesMut` drops the first `count` bytes. It panics where fewer are held.
#[verifier::external_body]
pub(crate) fn advance(buf: &mut BytesMut, count: usize)
    requires
        count <= contents(*old(buf)).len(),
    ensures
        contents(*final(buf)) == contents(*old(buf)).skip(count as int),
{
    buf.advance(count);
}

/// `BufMut::put` on a `BytesMut` appends the bytes of another `BytesMut`.
#[verifier::external_body]
pub(crate) fn put(buf: &mut BytesMut, src: BytesMut)
    ensures
        contents(*final(buf)) == contents(*old(buf)) + contents(src),
{
    buf.put(src);
}

/// The big-endian bytes of a 16-bit integer.
pub open spec fn be16(n: u16) -> Seq<u8> {
    seq![(n / 256) as u8, (n % 256) as u8]
}

/// The big-endian bytes of a 32-bit integer.
pub open spec fn be32(n: u32) -> Seq<u8> {
    be16((n / 65536) as u16) + be16((n % 65536) as u16)
}

/// The big-endian bytes of a 64-bit integer.
pub open spec fn be64(n: u64) -> Seq<u8> {
    be32((n / 4294967296) as u32) + be32((n % 4294967296) as u32)
}

/// `BufMut::put_u16` on a `BytesMut` appends the integer in big-endian order.
#[verifier::external_body]
pub(crate) fn put_u16(buf: &mut BytesMut, n: u16)
    ensures
        contents(*final(buf)) == contents(*old(buf)) + be16(n),
{
    buf.put_u16(n);
}

/// `BufMut::put_u32` on a `BytesMut` appends the integer in big-endian order.
#[verifier::external_body]
pub(crate) fn put_u32(buf: &mut BytesMut, n: u32)
    ensures
        contents(*final(buf)) == contents(*old(buf)) + be32(n),
{
    buf.put_u32(n);
}

/// `BufMut::put_u64` on a `BytesMut` appends the integer in big-endian order.
#[verifier::external_body]
pub(crate) fn put_u64(buf: &mut BytesMut, n: u64)
    ensures
        contents(*final(buf)) == contents(*old(buf)) + be64(n),
{
    buf.put_u64(n);
}

/// `Deref` of a `BytesMut` gives the bytes held.
#[verifier::external_body]
pub(crate) fn as_slice(buf: &BytesMut) -> (bytes: &[u8])
    ensures
        bytes@ == contents(*buf),
{
    buf
}

/// `DerefMut` of a `BytesMut` gives the bytes held, and what is written to them stays.
#[verifier::external_body]
pub(crate) fn as_mut_slice(buf: &mut BytesMut) -> (bytes: &mut [u8])
    ensures
        bytes@ == contents(*old(buf)),
        contents(*final(buf)) == final(bytes)@,
{
    buf
}

} // verus!
