//! The byte buffers of the `bytes` crate, as the encoding and framing code uses them.
//!
//! Both buffer types are opaque here; what they hold is named by [`bytes_view`] and
//! [`bytes_mut_view`], and each call below states what it does to that content.
use vstd::prelude::*;

use bytes::{Bytes, BytesMut};

verus! {

#[verifier::external_type_specification]
#[verifier::external_body]
pub struct ExBytes(Bytes);

#[verifier::external_type_specification]
#[verifier::external_body]
pub struct ExBytesMut(BytesMut);

/// The bytes that a `Bytes` holds, in order.
pub uninterp spec fn bytes_view(b: Bytes) -> Seq<u8>;

/// The bytes that a `BytesMut` holds, in order.
pub uninterp spec fn bytes_mut_view(b: BytesMut) -> Seq<u8>;

/// `Bytes::from(Vec<u8>)`: takes over the vector's bytes, unchanged.
#[verifier::external_body]
pub(crate) fn bytes_from_vec(v: Vec<u8>) -> (b: Bytes)
    ensures
        bytes_view(b) == v@,
{
    Bytes::from(v)
}

/// `<Bytes as Deref>::deref`: the held bytes as a slice.
#[verifier::external_body]
pub(crate) fn bytes_as_slice<'a>(b: &'a Bytes) -> (s: &'a [u8])
    ensures
        s@ == bytes_view(*b),
{
    b
}

/// `BytesMut::new`: an empty buffer.
#[verifier::external_body]
pub(crate) fn bytes_mut_new() -> (b: BytesMut)
    ensures
        bytes_mut_view(b) == Seq::<u8>::empty(),
{
    BytesMut::new()
}

/// `BytesMut::len`: the number of held bytes.
#[verifier::external_body]
pub(crate) fn bytes_mut_len(b: &BytesMut) -> (n: usize)
    ensures
        n == bytes_mut_view(*b).len(),
{
    b.len()
}

/// `BytesMut::extend_from_slice`: appends the slice's bytes. The buffer's growth
/// panics past `isize::MAX` bytes, which the bound leaves out.
#[verifier::external_body]
pub(crate) fn bytes_mut_extend(b: &mut BytesMut, s: &[u8])
    requires
        bytes_mut_view(*old(b)).len() + s@.len() <= isize::MAX,
    ensures
        bytes_mut_view(*final(b)) == bytes_mut_view(*old(b)) + s@,
{
    b.extend_from_slice(s)
}

/// `BytesMut::freeze`: the same bytes, now immutable.
#[verifier::external_body]
pub(crate) fn bytes_mut_freeze(b: BytesMut) -> (r: Bytes)
    ensures
        bytes_view(r) == bytes_mut_view(b),
{
    b.freeze()
}

/// `<BytesMut as Deref>::deref`: the held bytes as a slice.
#[verifier::external_body]
pub(crate) fn bytes_mut_as_slice<'a>(b: &'a BytesMut) -> (s: &'a [u8])
    ensures
        s@ == bytes_mut_view(*b),
{
    b
}

/// `BytesMut::split_to`: the first `at` bytes move to the returned buffer, the rest
/// stay. It panics where `at` exceeds the length, which the bound leaves out.
#[verifier::external_body]
pub(crate) fn bytes_mut_split_to(b: &mut BytesMut, at: usize) -> (front: BytesMut)
    requires
        at <= bytes_mut_view(*old(b)).len(),
    ensures
        bytes_mut_view(front) == bytes_mut_view(*old(b)).take(at as int),
        bytes_mut_view(*final(b)) == bytes_mut_view(*old(b)).skip(at as int),
{
    b.split_to(at)
}

} // verus!
