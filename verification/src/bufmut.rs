//! Trusted view of the growable byte buffer the encoder streams into.
//!
//! The buffer type is `bytes::BytesMut`; its contents are named by the
//! uninterpreted [`bytes_of`], and each operation the encoder uses gets a
//! wrapper whose contract states, over `bytes_of`, what the crate's source
//! shows the operation does.

use vstd::prelude::*;

use bytes::BufMut;

use crate::rite::{be16, be32, be_i32};

verus! {

/// `bytes::BytesMut`, declared so buffers can stand in signatures.
#[verifier::external_type_specification]
#[verifier::external_body]
pub struct ExBytesMut(bytes::BytesMut);

/// The bytes a buffer holds, in order, oldest first.
pub uninterp spec fn bytes_of(b: bytes::BytesMut) -> Seq<u8>;

/// Relies on bytes::BytesMut::new: a fresh buffer holds nothing.
#[verifier::external_body]
pub(crate) fn buf_new() -> (b: bytes::BytesMut)
    ensures
        bytes_of(b) == Seq::<u8>::empty(),
{
    bytes::BytesMut::new()
}

/// Relies on bytes::BufMut::put_slice: appends every byte of the slice.
#[verifier::external_body]
pub(crate) fn buf_put_slice(b: &mut bytes::BytesMut, s: &[u8])
    ensures
        bytes_of(*final(b)) == bytes_of(*old(b)) + s@,
{
    b.put_slice(s)
}

/// Relies on bytes::BufMut::put_u8: appends the byte.
#[verifier::external_body]
pub(crate) fn buf_put_u8(b: &mut bytes::BytesMut, v: u8)
    ensures
        bytes_of(*final(b)) == bytes_of(*old(b)) + seq![v],
{
    b.put_u8(v)
}

/// Relies on bytes::BufMut::put_u16: appends the value's two bytes in
/// big-endian order.
#[verifier::external_body]
pub(crate) fn buf_put_u16(b: &mut bytes::BytesMut, v: u16)
    ensures
        bytes_of(*final(b)) == bytes_of(*old(b)) + be16(v),
{
    b.put_u16(v)
}

/// Relies on bytes::BufMut::put_u32: appends the value's four bytes in
/// big-endian order.
#[verifier::external_body]
pub(crate) fn buf_put_u32(b: &mut bytes::BytesMut, v: u32)
    ensures
        bytes_of(*final(b)) == bytes_of(*old(b)) + be32(v),
{
    b.put_u32(v)
}

/// Relies on bytes::BufMut::put_i32: appends the value's four
/// two's-complement bytes in big-endian order.
#[verifier::external_body]
pub(crate) fn buf_put_i32(b: &mut bytes::BytesMut, v: i32)
    ensures
        bytes_of(*final(b)) == bytes_of(*old(b)) + be_i32(v),
{
    b.put_i32(v)
}

/// Relies on bytes::BytesMut::len: how many bytes the buffer holds.
#[verifier::external_body]
pub(crate) fn buf_len(b: &bytes::BytesMut) -> (n: usize)
    ensures
        n == bytes_of(*b).len(),
{
    b.len()
}

/// Relies on bytes::BytesMut's slice access (DerefMut to `[u8]`): overwrites
/// the byte at `i` in place.
#[verifier::external_body]
pub(crate) fn buf_set(b: &mut bytes::BytesMut, i: usize, v: u8)
    requires
        i < bytes_of(*old(b)).len(),
    ensures
        bytes_of(*final(b)) == bytes_of(*old(b)).update(i as int, v),
{
    b[i] = v;
}

/// Relies on bytes::BytesMut::as_ref and slice::to_vec: copies the held
/// bytes out, in order.
#[verifier::external_body]
pub(crate) fn buf_to_vec(b: &bytes::BytesMut) -> (v: Vec<u8>)
    ensures
        v@ == bytes_of(*b),
{
    b.as_ref().to_vec()
}

} // verus!
