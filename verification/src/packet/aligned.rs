//! Byte buffers whose memory is aligned, which archived packets need in order to be accessed.

use vstd::prelude::*;

use super::PACKET_BUFFER_SIZE;
use rkyv::{AlignedBytes, AlignedVec};

verus! {

/// The biggest length of an [`AlignedVec`].
pub open spec fn max_aligned_len() -> int {
    isize::MAX - 15
}

/// `rkyv::AlignedVec`, a growable buffer.
#[verifier::external_type_specification]
#[verifier::external_body]
pub struct ExAlignedVec(rkyv::AlignedVec);

/// The bytes that an [`AlignedVec`] holds.
pub uninterp spec fn vec_bytes(vec: AlignedVec) -> Seq<u8>;

/// `AlignedVec::new`: holds nothing.
#[verifier::external_body]
pub(crate) fn vec_new() -> (vec: AlignedVec)
    ensures
        vec_bytes(vec) == Seq::<u8>::empty(),
{
    AlignedVec::new()
}

/// `AlignedVec::len`: how many bytes it holds.
#[verifier::external_body]
pub(crate) fn vec_len(vec: &AlignedVec) -> (len: usize)
    ensures
        len == vec_bytes(*vec).len(),
{
    vec.len()
}

/// `AlignedVec::resize`: cuts off what is too much, and fills up with `value` what is missing.
///
/// It panics beyond the biggest length.
#[verifier::external_body]
pub(crate) fn vec_resize(vec: &mut AlignedVec, new_len: usize, value: u8)
    requires
        new_len <= max_aligned_len(),
    ensures
        vec_bytes(*final(vec)) == Seq::new(
            new_len as nat,
            |i: int| if i < vec_bytes(*old(vec)).len() { vec_bytes(*old(vec))[i] } else { value },
        ),
{
    vec.resize(new_len, value)
}

/// `AlignedVec::as_mut_slice`, whose bytes from `start` up to `end` get replaced by the given ones.
///
/// It panics if the range does not lie within the buffer or if there are more or fewer bytes.
#[verifier::external_body]
pub(crate) fn vec_write(vec: &mut AlignedVec, start: usize, end: usize, bytes: &[u8])
    requires
        start <= end <= vec_bytes(*old(vec)).len(),
        bytes@.len() == end - start,
    ensures
        vec_bytes(*final(vec)) == vec_bytes(*old(vec)).take(start as int) + bytes@
            + vec_bytes(*old(vec)).skip(end as int),
{
    vec.as_mut_slice()[start..end].copy_from_slice(bytes)
}

/// `AlignedVec::as_slice`: all the bytes.
#[verifier::external_body]
pub(crate) fn vec_slice(vec: &AlignedVec) -> (bytes: &[u8])
    ensures
        bytes@ == vec_bytes(*vec),
{
    vec.as_slice()
}

/// `rkyv::AlignedBytes`, a buffer of a fixed size.
#[verifier::external_type_specification]
#[verifier::external_body]
pub struct ExAlignedBytes<const N: usize>(rkyv::AlignedBytes<N>);

/// The bytes that an [`AlignedBytes`] of the size of a packet holds.
pub uninterp spec fn array_bytes(array: AlignedBytes<PACKET_BUFFER_SIZE>) -> Seq<u8>;

/// `AlignedBytes::default`: nothing but zeros.
#[verifier::external_body]
pub(crate) fn array_default() -> (array: AlignedBytes<PACKET_BUFFER_SIZE>)
    ensures
        array_bytes(array) == Seq::new(PACKET_BUFFER_SIZE as nat, |i: int| 0u8),
{
    AlignedBytes::default()
}

/// `AlignedBytes::as_mut`, whose bytes from `start` up to `end` get replaced by the given ones.
///
/// It panics if the range does not lie within the buffer or if there are more or fewer bytes.
#[verifier::external_body]
pub(crate) fn array_write(
    array: &mut AlignedBytes<PACKET_BUFFER_SIZE>,
    start: usize,
    end: usize,
    bytes: &[u8],
)
    requires
        start <= end <= PACKET_BUFFER_SIZE,
        bytes@.len() == end - start,
    ensures
        array_bytes(*final(array)) == array_bytes(*old(array)).take(start as int) + bytes@
            + array_bytes(*old(array)).skip(end as int),
{
    array.as_mut()[start..end].copy_from_slice(bytes)
}

/// `AlignedBytes::as_ref`: all the bytes.
#[verifier::external_body]
pub(crate) fn array_slice(array: &AlignedBytes<PACKET_BUFFER_SIZE>) -> (bytes: &[u8])
    ensures
        bytes@ == array_bytes(*array),
        bytes@.len() == PACKET_BUFFER_SIZE,
{
    array.as_ref()
}

} // verus!
