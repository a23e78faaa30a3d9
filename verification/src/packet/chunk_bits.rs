//! A growable sequence of bits.

use vstd::prelude::*;

use bitvec::vec::BitVec;

verus! {

/// Holds a `bitvec::vec::BitVec`.
#[verifier::external_body]
pub struct ChunkBits {
    bits: BitVec,
}

/// The bits that are held.
pub uninterp spec fn bits_of(bits: ChunkBits) -> Seq<bool>;

/// `BitVec::new`: holds nothing.
#[verifier::external_body]
pub(crate) fn bits_new() -> (bits: ChunkBits)
    ensures
        bits_of(bits) == Seq::<bool>::empty(),
{
    ChunkBits { bits: BitVec::new() }
}

/// `BitVec::len`: how many bits there are.
#[verifier::external_body]
pub(crate) fn bits_len(bits: &ChunkBits) -> (len: usize)
    ensures
        len == bits_of(*bits).len(),
{
    bits.bits.len()
}

/// `BitVec::resize`: cuts off what is too much, and fills up with `value` what is missing.
///
/// It panics if the new length exceeds `BitSlice::MAX_BITS`.
#[verifier::external_body]
pub(crate) fn bits_resize(bits: &mut ChunkBits, new_len: usize, value: bool)
    requires
        new_len <= usize::MAX / 8,
    ensures
        bits_of(*final(bits)) == Seq::new(
            new_len as nat,
            |i: int| if i < bits_of(*old(bits)).len() { bits_of(*old(bits))[i] } else { value },
        ),
{
    bits.bits.resize(new_len, value)
}

/// `BitSlice::replace`: sets a bit and returns what it was before.
///
/// It panics if there is no such bit.
#[verifier::external_body]
pub(crate) fn bits_replace(bits: &mut ChunkBits, index: usize, value: bool) -> (before: bool)
    requires
        index < bits_of(*old(bits)).len(),
    ensures
        before == bits_of(*old(bits))[index as int],
        bits_of(*final(bits)) == bits_of(*old(bits)).update(index as int, value),
{
    bits.bits.replace(index, value)
}

/// `BitSlice::first_zero`: the first bit that is not set.
#[verifier::external_body]
pub(crate) fn bits_first_zero(bits: &ChunkBits) -> (result: Option<usize>)
    ensures
        match result {
            Some(index) => {
                &&& index < bits_of(*bits).len()
                &&& !bits_of(*bits)[index as int]
                &&& forall|i: int| 0 <= i < index ==> bits_of(*bits)[i]
            },
            None => forall|i: int| 0 <= i < bits_of(*bits).len() ==> bits_of(*bits)[i],
        },
{
    bits.bits.first_zero()
}

/// `BitVec::drain` of everything before `count`: removes the first `count` bits.
///
/// It panics if there are fewer.
#[verifier::external_body]
pub(crate) fn bits_drain_front(bits: &mut ChunkBits, count: usize)
    requires
        count <= bits_of(*old(bits)).len(),
    ensures
        bits_of(*final(bits)) == bits_of(*old(bits)).skip(count as int),
{
    bits.bits.drain(..count);
}

} // verus!
