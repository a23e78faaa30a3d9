//! Numbers as bytes, and pieces of byte sequences.

use vstd::prelude::*;

verus! {

/// The value of a sequence of bytes with the most significant byte first.
pub open spec fn be_value(bytes: Seq<u8>) -> nat
    decreases bytes.len(),
{
    if bytes.len() == 0 {
        0
    } else {
        be_value(bytes.drop_last()) * 256 + bytes.last() as nat
    }
}

/// The last `len` bytes of a number with the most significant byte first.
pub open spec fn be_bytes(value: nat, len: nat) -> Seq<u8>
    decreases len,
{
    if len == 0 {
        Seq::empty()
    } else {
        be_bytes(value / 256, (len - 1) as nat).push((value % 256) as u8)
    }
}

/// How many different values fit into `len` bytes.
pub open spec fn byte_values(len: nat) -> nat
    decreases len,
{
    if len == 0 {
        1
    } else {
        256 * byte_values((len - 1) as nat)
    }
}

pub proof fn lemma_be_bytes_len(value: nat, len: nat)
    ensures
        be_bytes(value, len).len() == len,
    decreases len,
{
    if len > 0 {
        lemma_be_bytes_len(value / 256, (len - 1) as nat);
    }
}

/// The bytes of a number that fits have the value of that number.
pub proof fn lemma_be_value_of_bytes(value: nat, len: nat)
    requires
        value < byte_values(len),
    ensures
        be_value(be_bytes(value, len)) == value,
    decreases len,
{
    if len > 0 {
        lemma_be_value_of_bytes(value / 256, (len - 1) as nat);
        let bytes = be_bytes(value, len);
        assert(bytes.drop_last() =~= be_bytes(value / 256, (len - 1) as nat));
    }
}

/// The value of a sequence of bytes has those bytes, and fits into that many bytes.
pub proof fn lemma_be_bytes_of_value(bytes: Seq<u8>)
    ensures
        be_bytes(be_value(bytes), bytes.len()) == bytes,
        be_value(bytes) < byte_values(bytes.len()),
    decreases bytes.len(),
{
    if bytes.len() > 0 {
        lemma_be_bytes_of_value(bytes.drop_last());
        let rest = be_value(bytes.drop_last());
        assert((rest * 256 + bytes.last() as nat) / 256 == rest);
        assert(be_bytes(be_value(bytes), bytes.len()) =~= bytes.drop_last().push(bytes.last()));
        assert(bytes.drop_last().push(bytes.last()) =~= bytes);
    }
}

pub proof fn lemma_u128_fits()
    ensures
        byte_values(16) == u128::MAX + 1,
{
    reveal_with_fuel(byte_values, 17);
}

/// The four bytes of a `u32` with the least significant byte first.
pub open spec fn le_bytes(value: u32) -> Seq<u8> {
    seq![
        (value % 256) as u8,
        (value / 256 % 256) as u8,
        (value / 65536 % 256) as u8,
        (value / 16777216) as u8,
    ]
}

/// The value of four bytes with the least significant byte first.
pub open spec fn le_value(bytes: Seq<u8>) -> u32 {
    (bytes[0] + 256 * bytes[1] + 65536 * bytes[2] + 16777216 * bytes[3]) as u32
}

pub proof fn lemma_le_value_of_bytes(value: u32)
    ensures
        le_bytes(value).len() == 4,
        le_value(le_bytes(value)) == value,
{
}

pub fn u32_to_le_bytes(value: u32) -> (bytes: [u8; 4])
    ensures
        bytes@ == le_bytes(value),
{
    let bytes: [u8; 4] = [
        (value % 256) as u8,
        (value / 256 % 256) as u8,
        (value / 65536 % 256) as u8,
        (value / 16777216) as u8,
    ];
    assert(bytes@ =~= le_bytes(value));
    bytes
}

/// Reads the four bytes that start at `start`.
pub fn u32_from_le_bytes(bytes: &[u8], start: usize) -> (value: u32)
    requires
        start + 4 <= bytes@.len(),
    ensures
        value == le_value(bytes@.subrange(start as int, start + 4)),
{
    let b0: u32 = bytes[start] as u32;
    let b1: u32 = bytes[start + 1] as u32;
    let b2: u32 = bytes[start + 2] as u32;
    let b3: u32 = bytes[start + 3] as u32;
    b0 + 256 * b1 + 65536 * b2 + 16777216 * b3
}

/// Appends a copy of the given bytes.
pub fn extend(target: &mut Vec<u8>, bytes: &[u8])
    ensures
        final(target)@ == old(target)@ + bytes@,
{
    let ghost before = target@;
    target.extend_from_slice(bytes);
    assert(target@ =~= before + bytes@);
}

} // verus!
