//! The byte buffers of the `bytes` crate, as the codec and the encoder use
//! them: their contents are named, and each method the library calls has a
//! contract over those contents.
use bytes::Buf;
use bytes::{Bytes, BytesMut};
use vstd::prelude::*;

verus! {

#[verifier::external_type_specification]
#[verifier::external_body]
pub struct ExBytes(Bytes);

#[verifier::external_type_specification]
#[verifier::external_body]
pub struct ExBytesMut(BytesMut);

/// The bytes that a `Bytes` holds, in order.
pub uninterp spec fn bytes_contents(b: Bytes) -> Seq<u8>;

/// The bytes that a `BytesMut` holds, in order.
pub uninterp spec fn bytes_mut_contents(b: BytesMut) -> Seq<u8>;

/// `Bytes::from(Vec<u8>)`: a `Bytes` that holds exactly the bytes of `v`.
#[verifier::external_body]
pub(crate) fn bytes_from_vec(v: Vec<u8>) -> (b: Bytes)
    ensures
        bytes_contents(b) == v@,
{
    Bytes::from(v)
}

/// `<Bytes as Deref>::deref`: the bytes of `b` as a slice.
#[verifier::external_body]
pub(crate) fn bytes_as_slice(b: &Bytes) -> (s: &[u8])
    ensures
        s@ == bytes_contents(*b),
{
    &b[..]
}

/// `BytesMut::is_empty`: whether `b` holds no bytes.
#[verifier::external_body]
pub(crate) fn bytes_mut_is_empty(b: &BytesMut) -> (r: bool)
    ensures
        r == (bytes_mut_contents(*b).len() == 0),
{
    b.is_empty()
}

/// `<BytesMut as Deref>::deref`: the bytes of `b` as a slice.
#[verifier::external_body]
pub(crate) fn bytes_mut_as_slice(b: &BytesMut) -> (s: &[u8])
    ensures
        s@ == bytes_mut_contents(*b),
{
    &b[..]
}

/// `<BytesMut as Buf>::advance`: drops the first `count` bytes of `b`. The
/// crate panics where `count` exceeds the length, which `requires` rules out.
#[verifier::external_body]
pub(crate) fn bytes_mut_advance(b: &mut BytesMut, count: usize)
    requires
        count <= bytes_mut_contents(*old(b)).len(),
    ensures
        bytes_mut_contents(*final(b)) == bytes_mut_contents(*old(b)).skip(count as int),
{
    b.advance(count)
}

/// `BytesMut::extend_from_slice`: appends the bytes of `s` to `b`.
#[verifier::external_body]
pub(crate) fn bytes_mut_extend_from_slice(b: &mut BytesMut, s: &[u8])
    ensures
        bytes_mut_contents(*final(b)) == bytes_mut_contents(*old(b)) + s@,
{
    b.extend_from_slice(s)
}

} // verus!
