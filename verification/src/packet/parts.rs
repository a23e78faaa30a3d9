//! How packets are split into parts.

use vstd::prelude::*;

use super::id::{law_id_bytes, PacketId};
use super::wire::{part_datagram, PART_PACKET_PAYLOAD_SIZE};
use super::{SeqIndex, PACKET_BUFFER_SIZE};
use crate::bytes::lemma_le_value_of_bytes;

verus! {

/// How many parts there can be at most, since every part has its own sequence index.
pub const MAX_PART_COUNT: u64 = 0x1_0000_0000;

/// How many parts are needed for a packet with `len` bytes, of which there is at least one.
pub open spec fn part_count(len: nat) -> nat {
    if len == 0 {
        1
    } else {
        ((len + PART_PACKET_PAYLOAD_SIZE - 1) / PART_PACKET_PAYLOAD_SIZE as int) as nat
    }
}

/// Where the chunk with the given index ends, which is where the next one starts.
pub open spec fn chunk_end(len: nat, index: int) -> int {
    if PART_PACKET_PAYLOAD_SIZE * (index + 1) <= len {
        PART_PACKET_PAYLOAD_SIZE * (index + 1)
    } else {
        len as int
    }
}

/// The bytes of a packet that its part with the given index contains.
///
/// Only the last chunk can contain less than fits.
pub open spec fn chunk(bytes: Seq<u8>, index: int) -> Seq<u8> {
    bytes.subrange(PART_PACKET_PAYLOAD_SIZE * index, chunk_end(bytes.len(), index))
}

/// A part of a packet that is not marked as the last one.
pub open spec fn open_part(id: PacketId, bytes: Seq<u8>, index: int) -> Seq<u8> {
    part_datagram(false, id, index as SeqIndex, chunk(bytes, index))
}

/// A part of a packet.
pub open spec fn part(id: PacketId, bytes: Seq<u8>, index: int) -> Seq<u8> {
    part_datagram(
        index == part_count(bytes.len()) - 1,
        id,
        index as SeqIndex,
        chunk(bytes, index),
    )
}

/// All the parts of a packet.
pub open spec fn packet_parts(id: PacketId, bytes: Seq<u8>) -> Seq<Seq<u8>> {
    Seq::new(part_count(bytes.len()), |index: int| part(id, bytes, index))
}

/// The bytes of all the parts of a packet.
pub open spec fn chunks(bytes: Seq<u8>) -> Seq<Seq<u8>> {
    Seq::new(part_count(bytes.len()), |index: int| chunk(bytes, index))
}

/// Whether every chunk but the last one is filled.
pub open spec fn is_chunking(chunks: Seq<Seq<u8>>) -> bool {
    &&& chunks.len() >= 1
    &&& forall|i: int|
        0 <= i < chunks.len() - 1 ==> (#[trigger] chunks[i]).len() == PART_PACKET_PAYLOAD_SIZE
    &&& chunks.last().len() <= PART_PACKET_PAYLOAD_SIZE
}

/// All the chunks, one after the other.
pub open spec fn joined(chunks: Seq<Seq<u8>>) -> Seq<u8>
    decreases chunks.len(),
{
    if chunks.len() == 0 {
        Seq::empty()
    } else {
        joined(chunks.drop_last()) + chunks.last()
    }
}

/// Where the bytes of the chunks end up.
pub proof fn lemma_joined(chunks: Seq<Seq<u8>>)
    requires
        is_chunking(chunks),
    ensures
        joined(chunks).len() == PART_PACKET_PAYLOAD_SIZE * (chunks.len() - 1)
            + chunks.last().len(),
        forall|i: int, k: int|
            #![trigger chunks[i], joined(chunks)[k]]
            0 <= i < chunks.len() && PART_PACKET_PAYLOAD_SIZE * i <= k < PART_PACKET_PAYLOAD_SIZE
                * i + chunks[i].len() ==> joined(chunks)[k] == chunks[i][k
                - PART_PACKET_PAYLOAD_SIZE * i],
    decreases chunks.len(),
{
    reveal_with_fuel(joined, 2);
    let before = chunks.drop_last();
    if before.len() > 0 {
        assert(before.last() == chunks[chunks.len() - 2]);
        assert(is_chunking(before)) by {
            assert forall|i: int| 0 <= i < before.len() - 1 implies (
            #[trigger] before[i]).len() == PART_PACKET_PAYLOAD_SIZE by {
                assert(before[i] == chunks[i]);
            }
        }
        lemma_joined(before);
    }
    assert forall|i: int, k: int|
        #![trigger chunks[i], joined(chunks)[k]]
        0 <= i < chunks.len() && PART_PACKET_PAYLOAD_SIZE * i <= k < PART_PACKET_PAYLOAD_SIZE * i
            + chunks[i].len() implies joined(chunks)[k] == chunks[i][k
        - PART_PACKET_PAYLOAD_SIZE * i] by {
        if i < before.len() {
            assert(before[i] == chunks[i]);
            assert(joined(before)[k] == before[i][k - PART_PACKET_PAYLOAD_SIZE * i]);
        }
    }
}

/// Everything but the last chunk is filled, and the last one only is empty if there are no bytes.
pub proof fn lemma_chunk_lens(len: nat, index: int)
    requires
        0 <= index < part_count(len),
    ensures
        PART_PACKET_PAYLOAD_SIZE * index <= chunk_end(len, index) <= len,
        chunk_end(len, index) - PART_PACKET_PAYLOAD_SIZE * index <= PART_PACKET_PAYLOAD_SIZE,
        index < part_count(len) - 1 <==> PART_PACKET_PAYLOAD_SIZE * (index + 1) < len,
        index < part_count(len) - 1 ==> chunk_end(len, index) == PART_PACKET_PAYLOAD_SIZE * (index
            + 1),
        index == part_count(len) - 1 ==> chunk_end(len, index) == len,
{
}

/// A packet consists of at least one part, and no part is bigger than a datagram can be.
pub proof fn law_parts_fit(id: PacketId, bytes: Seq<u8>, index: int)
    requires
        0 <= index < part_count(bytes.len()),
    ensures
        packet_parts(id, bytes).len() >= 1,
        packet_parts(id, bytes)[index].len() <= PACKET_BUFFER_SIZE,
{
    lemma_chunk_lens(bytes.len(), index);
    law_id_bytes(id, id);
}

/// Splitting bytes and joining the chunks again results in the same bytes.
pub proof fn law_chunks(bytes: Seq<u8>)
    ensures
        is_chunking(chunks(bytes)),
        joined(chunks(bytes)) == bytes,
{
    let all = chunks(bytes);
    let last = all.len() - 1;
    lemma_chunk_lens(bytes.len(), last);
    assert forall|i: int| 0 <= i < last implies (#[trigger] all[i]).len()
        == PART_PACKET_PAYLOAD_SIZE by {
        lemma_chunk_lens(bytes.len(), i);
    }
    lemma_joined(all);
    assert forall|k: int| 0 <= k < bytes.len() implies #[trigger] joined(all)[k] == bytes[k] by {
        let i = k / PART_PACKET_PAYLOAD_SIZE as int;
        lemma_chunk_lens(bytes.len(), i);
        assert(joined(all)[k] == all[i][k - PART_PACKET_PAYLOAD_SIZE * i]);
    }
    assert(joined(all) =~= bytes);
}

/// There are as few parts as possible, but at least one.
pub proof fn law_part_count(len: nat)
    ensures
        len == 0 ==> part_count(len) == 1,
        len > 0 ==> 491 * (part_count(len) - 1) < len <= 491 * part_count(len),
{
}

/// A part consists of its header, which tells whether it is the last one and which one it is, and of
/// the bytes that stand at its place in the packet.
pub proof fn law_part(id: PacketId, bytes: Seq<u8>, index: int, k: int)
    requires
        part_count(bytes.len()) <= 0x1_0000_0000,
        0 <= index < part_count(bytes.len()),
    ensures
        ({
            let datagram = packet_parts(id, bytes)[index];
            &&& datagram[0] == if 491 * (index + 1) >= bytes.len() {
                3u8
            } else {
                2u8
            }
            &&& 0 <= k < 16 ==> datagram[1 + k] == id.bytes()[k]
            &&& datagram[17] + 256 * datagram[18] + 65536 * datagram[19] + 16777216 * datagram[20]
                == index
            &&& 491 * (index + 1) <= bytes.len() ==> datagram.len() == 512
            &&& 491 * (index + 1) > bytes.len() ==> datagram.len() == 21 + bytes.len() - 491 * index
            &&& 21 <= k < datagram.len() ==> datagram[k] == bytes[491 * index + k - 21]
        }),
{
    law_id_bytes(id, id);
    lemma_chunk_lens(bytes.len(), index);
    lemma_le_value_of_bytes(index as SeqIndex);
}

} // verus!
