//! Reassembling received packets.

use vstd::prelude::*;

use super::aligned::{
    max_aligned_len, vec_bytes, vec_len, vec_new, vec_resize, vec_slice, vec_write,
};
use super::chunk_bits::{
    bits_drain_front, bits_first_zero, bits_len, bits_new, bits_of, bits_replace, bits_resize,
    ChunkBits,
};
use super::parts::{is_chunking, joined, lemma_joined, MAX_PART_COUNT};
use super::wire::PART_PACKET_PAYLOAD_SIZE;
use super::SeqIndex;
use rkyv::AlignedVec;
use vstd::set_lib::{lemma_int_range, lemma_len_subset, lemma_subset_equality, set_int_range};

verus! {

/// How far the reassembly of a packet has got.
#[verifier::ext_equal]
pub struct ReassembledPacketView {
    /// The sequence indices of all chunks that have been received so far.
    pub received: Set<int>,
    /// How many chunks have been received so far, not counting those that completed the packet.
    pub received_count: int,
    /// The index of the last chunk once it is received.
    pub max_index: Option<SeqIndex>,
    /// All the chunks at their places, with zeros in between.
    pub payload: Seq<u8>,
}

/// What receiving a part led to.
pub enum ReceivedPacketView {
    Pending,
    Duplicate,
    Reassembled(Seq<u8>),
}

/// Replaces what is stored from `start` on, with zeros in front of it where nothing is stored yet.
pub open spec fn write_at(stored: Seq<u8>, start: int, bytes: Seq<u8>) -> Seq<u8> {
    let end = start + bytes.len();
    Seq::new(
        if end > stored.len() {
            end as nat
        } else {
            stored.len()
        },
        |i: int|
            if start <= i < end {
                bytes[i - start]
            } else if i < stored.len() {
                stored[i]
            } else {
                0
            },
    )
}

impl ReassembledPacketView {
    /// Nothing has been received yet.
    pub open spec fn new() -> Self {
        ReassembledPacketView {
            received: Set::empty(),
            received_count: 0,
            max_index: None,
            payload: Seq::empty(),
        }
    }

    /// The index of the last chunk after a part was received.
    pub open spec fn max_index_after(self, last: bool, seq_index: SeqIndex) -> Option<SeqIndex> {
        if last {
            Some(seq_index)
        } else {
            self.max_index
        }
    }

    /// Whether a part that was not received yet completes the packet.
    pub open spec fn completed_by(self, last: bool, seq_index: SeqIndex) -> bool {
        self.max_index_after(last, seq_index) matches Some(max_index) && max_index
            == self.received_count
    }

    /// How far the reassembly has got after a part was received.
    pub open spec fn after(self, last: bool, seq_index: SeqIndex, payload: Seq<u8>) -> Self {
        if self.received.contains(seq_index as int) {
            ReassembledPacketView { max_index: self.max_index_after(last, seq_index), ..self }
        } else {
            ReassembledPacketView {
                received: self.received.insert(seq_index as int),
                received_count: if self.completed_by(last, seq_index) {
                    self.received_count
                } else {
                    self.received_count + 1
                },
                max_index: self.max_index_after(last, seq_index),
                payload: write_at(self.payload, PART_PACKET_PAYLOAD_SIZE * seq_index, payload),
            }
        }
    }

    /// What receiving a part leads to.
    pub open spec fn outcome(
        self,
        last: bool,
        seq_index: SeqIndex,
        payload: Seq<u8>,
    ) -> ReceivedPacketView {
        if self.received.contains(seq_index as int) {
            ReceivedPacketView::Duplicate
        } else if self.completed_by(last, seq_index) {
            ReceivedPacketView::Reassembled(self.after(last, seq_index, payload).payload)
        } else {
            ReceivedPacketView::Pending
        }
    }
}

/// Whether there can be a buffer that is big enough for a packet with this part.
pub open spec fn is_addressable(seq_index: SeqIndex, payload_len: int) -> bool {
    PART_PACKET_PAYLOAD_SIZE * seq_index + payload_len <= max_aligned_len()
}

/// The sequence indices of the chunks that have been received, where `chunks` tells it for those
/// starting with `first_pending`.
spec fn received_set(first_pending: int, chunks: Seq<bool>) -> Set<int> {
    Set::new(
        |index: int|
            {
                let offset = index - first_pending;
                0 <= index && (offset < 0 || (offset < chunks.len() && chunks[offset]))
            },
    )
}

/// Reassembles received packets.
pub struct ReassembledPacket {
    /// A buffer for the payload.
    payload: AlignedVec,
    /// Which chunks have been received so far, starting with `first_pending`.
    received_chunks: ChunkBits,
    /// All chunks before this one have been received.
    first_pending: u64,
    /// How many chunks have been received so far.
    ///
    /// The final chunk is not counted.
    received_count: u64,
    /// Set to the index of the last packet once it is received.
    max_index: Option<SeqIndex>,
}

impl View for ReassembledPacket {
    type V = ReassembledPacketView;

    closed spec fn view(&self) -> ReassembledPacketView {
        ReassembledPacketView {
            received: received_set(self.first_pending as int, bits_of(self.received_chunks)),
            received_count: self.received_count as int,
            max_index: self.max_index,
            payload: vec_bytes(self.payload),
        }
    }
}

impl ReassembledPacket {
    pub closed spec fn wf(&self) -> bool {
        &&& self.first_pending + bits_of(self.received_chunks).len() <= MAX_PART_COUNT
        &&& self@.received_count <= self@.received.len()
        &&& self@.received.finite()
    }

    /// Only chunks that can exist have been received.
    pub proof fn lemma_wf(&self)
        requires
            self.wf(),
        ensures
            self@.received.finite(),
            self@.received.subset_of(set_int_range(0, MAX_PART_COUNT as int)),
            self@.received_count <= self@.received.len() <= MAX_PART_COUNT,
    {
        let all = set_int_range(0, MAX_PART_COUNT as int);
        lemma_int_range(0, MAX_PART_COUNT as int);
        assert(self@.received.subset_of(all));
        lemma_len_subset(self@.received, all);
    }

    pub fn new() -> (packet: Self)
        ensures
            packet.wf(),
            packet@ == ReassembledPacketView::new(),
    {
        let packet = ReassembledPacket {
            payload: vec_new(),
            received_chunks: bits_new(),
            first_pending: 0,
            received_count: 0,
            max_index: None,
        };
        assert(packet@ =~= ReassembledPacketView::new());
        packet
    }

    /// Stores the payload of a part at its place.
    ///
    /// The part must be addressable, since there would be no room for it otherwise.
    pub fn receive<'a>(
        &'a mut self,
        last: bool,
        seq_index: SeqIndex,
        payload: &[u8],
    ) -> (received: ReceivedPacket<'a>)
        requires
            old(self).wf(),
            is_addressable(seq_index, payload@.len() as int),
        ensures
            final(self).wf(),
            final(self)@ == old(self)@.after(last, seq_index, payload@),
            received@ == old(self)@.outcome(last, seq_index, payload@),
    {
        proof {
            self.lemma_wf();
        }
        if last {
            self.max_index = Some(seq_index);
        }
        let chunk_index: u64 = seq_index as u64;
        if chunk_index < self.first_pending {
            return ReceivedPacket::Duplicate;
        }
        let ghost chunks = bits_of(self.received_chunks);
        let ghost first = self.first_pending as int;
        let chunk_index_with_offset: usize = (chunk_index - self.first_pending) as usize;
        if chunk_index_with_offset >= bits_len(&self.received_chunks) {
            bits_resize(&mut self.received_chunks, chunk_index_with_offset + 1, false);
        }
        let ghost resized = bits_of(self.received_chunks);
        assert(received_set(first, resized) =~= received_set(first, chunks));
        if bits_replace(&mut self.received_chunks, chunk_index_with_offset, true) {
            assert(bits_of(self.received_chunks) =~= resized);
            return ReceivedPacket::Duplicate;
        }
        let ghost replaced = bits_of(self.received_chunks);
        assert(received_set(first, replaced) =~= received_set(first, chunks).insert(
            seq_index as int,
        ));
        let first_pending: usize = match bits_first_zero(&self.received_chunks) {
            Some(first_pending) => first_pending,
            None => bits_len(&self.received_chunks),
        };
        // round down to a byte boundary, so that the drain won't have to bitshift
        let byte_boundary: usize = first_pending - first_pending % 256;
        bits_drain_front(&mut self.received_chunks, byte_boundary);
        self.first_pending = self.first_pending + byte_boundary as u64;
        assert(received_set(
            self.first_pending as int,
            bits_of(self.received_chunks),
        ) =~= received_set(first, replaced));

        let payload_start: usize = PART_PACKET_PAYLOAD_SIZE * seq_index as usize;
        let payload_end: usize = payload_start + payload.len();
        if payload_end > vec_len(&self.payload) {
            vec_resize(&mut self.payload, payload_end, 0);
        }
        vec_write(&mut self.payload, payload_start, payload_end, payload);
        assert(self@.payload =~= write_at(
            old(self)@.payload,
            PART_PACKET_PAYLOAD_SIZE * seq_index,
            payload@,
        ));

        let complete = match self.max_index {
            Some(max_index) => max_index as u64 == self.received_count,
            None => false,
        };
        if complete {
            ReceivedPacket::Reassembled(vec_slice(&self.payload))
        } else {
            self.received_count = self.received_count + 1;
            ReceivedPacket::Pending
        }
    }

    /// Everything that has been received so far, at its place.
    pub fn payload(&self) -> (payload: &[u8])
        ensures
            payload@ == self@.payload,
    {
        vec_slice(&self.payload)
    }
}

/// A part of a packet was received.
pub enum ReceivedPacket<'a> {
    /// A part of the packet was received, but the packet is not fully reassembled.
    Pending,
    /// This packet was already received and can be ignored.
    ///
    /// The packet might still be pending or it might have been reassembled already.
    Duplicate,
    /// The last part was received and the packet is fully reassembled.
    Reassembled(&'a [u8]),
}

impl<'a> View for ReceivedPacket<'a> {
    type V = ReceivedPacketView;

    open spec fn view(&self) -> ReceivedPacketView {
        match self {
            ReceivedPacket::Pending => ReceivedPacketView::Pending,
            ReceivedPacket::Duplicate => ReceivedPacketView::Duplicate,
            ReceivedPacket::Reassembled(payload) => ReceivedPacketView::Reassembled(payload@),
        }
    }
}

/// How far the reassembly has got after the chunks with the given indices have arrived, one after the
/// other.
pub open spec fn after_arrivals(chunks: Seq<Seq<u8>>, arrivals: Seq<int>) -> ReassembledPacketView
    decreases arrivals.len(),
{
    if arrivals.len() == 0 {
        ReassembledPacketView::new()
    } else {
        let index = arrivals.last();
        after_arrivals(chunks, arrivals.drop_last()).after(
            index == chunks.len() - 1,
            index as SeqIndex,
            chunks[index],
        )
    }
}

/// Whether every arrival is that of one of `count` chunks.
pub open spec fn are_indices(count: nat, arrivals: Seq<int>) -> bool {
    forall|i: int| 0 <= i < arrivals.len() ==> 0 <= #[trigger] arrivals[i] < count
}

/// Whether all of `count` chunks have arrived.
pub open spec fn is_complete(count: nat, arrivals: Seq<int>) -> bool {
    forall|index: int| 0 <= index < count ==> arrivals.contains(index)
}

/// Whether the buffer contains a chunk at its place.
spec fn is_stored(stored: Seq<u8>, chunks: Seq<Seq<u8>>, index: int) -> bool {
    let start = PART_PACKET_PAYLOAD_SIZE * index;
    let end = start + chunks[index].len();
    &&& end <= stored.len()
    &&& forall|i: int| start <= i < end ==> #[trigger] stored[i] == chunks[index][i - start]
}

/// No chunk ends behind the last one, and no chunk is bigger than there is room for it.
proof fn lemma_ends(chunks: Seq<Seq<u8>>, index: int)
    requires
        is_chunking(chunks),
        0 <= index < chunks.len(),
    ensures
        chunks[index].len() <= PART_PACKET_PAYLOAD_SIZE,
        PART_PACKET_PAYLOAD_SIZE * index + chunks[index].len() <= PART_PACKET_PAYLOAD_SIZE * (
        chunks.len() - 1) + chunks.last().len(),
{
    if index < chunks.len() - 1 {
        assert(chunks[index].len() == PART_PACKET_PAYLOAD_SIZE);
    }
}

proof fn lemma_after_arrivals(chunks: Seq<Seq<u8>>, arrivals: Seq<int>)
    requires
        is_chunking(chunks),
        chunks.len() <= MAX_PART_COUNT,
        are_indices(chunks.len(), arrivals),
    ensures
        ({
            let state = after_arrivals(chunks, arrivals);
            let count = chunks.len();
            &&& state.received.finite()
            &&& state.received.subset_of(set_int_range(0, count as int))
            &&& forall|index: int| state.received.contains(index) <==> arrivals.contains(index)
            &&& state.received_count == if state.received.len() == count {
                count - 1
            } else {
                state.received.len() as int
            }
            &&& state.max_index == if state.received.contains(count - 1) {
                Some((count - 1) as SeqIndex)
            } else {
                None
            }
            &&& state.payload.len() <= PART_PACKET_PAYLOAD_SIZE * (count - 1)
                + chunks.last().len()
            &&& forall|index: int|
                state.received.contains(index) ==> #[trigger] is_stored(
                    state.payload,
                    chunks,
                    index,
                )
        }),
    decreases arrivals.len(),
{
    let count = chunks.len();
    lemma_int_range(0, count as int);
    if arrivals.len() > 0 {
        let before = after_arrivals(chunks, arrivals.drop_last());
        let state = after_arrivals(chunks, arrivals);
        let new = arrivals.last();
        lemma_after_arrivals(chunks, arrivals.drop_last());
        lemma_ends(chunks, new);
        lemma_len_subset(before.received, set_int_range(0, count as int));
        assert forall|index: int| state.received.contains(index) <==> arrivals.contains(index) by {
            assert(arrivals =~= arrivals.drop_last().push(new));
            if arrivals.contains(index) && index != new {
                let k = choose|k: int| 0 <= k < arrivals.len() && arrivals[k] == index;
                assert(arrivals.drop_last()[k] == index);
            }
            if arrivals.drop_last().contains(index) {
                let k = choose|k: int|
                    0 <= k < arrivals.len() - 1 && arrivals.drop_last()[k] == index;
                assert(arrivals[k] == index);
            }
            if index == new {
                assert(arrivals[arrivals.len() - 1] == index);
            }
        }
        if before.received.len() == count {
            lemma_subset_equality(before.received, set_int_range(0, count as int));
        }
        if !before.received.contains(new) {
            assert(before.received.subset_of(set_int_range(0, count as int).remove(new)));
            lemma_len_subset(before.received, set_int_range(0, count as int).remove(new));
            if state.received.len() == count {
                lemma_subset_equality(state.received, set_int_range(0, count as int));
                assert(state.received.contains(count - 1));
            }
            assert forall|index: int| state.received.contains(index) implies is_stored(
                state.payload,
                chunks,
                index,
            ) by {
                lemma_ends(chunks, index);
                let start = PART_PACKET_PAYLOAD_SIZE * index;
                let end = start + chunks[index].len();
                if index != new {
                    assert(is_stored(before.payload, chunks, index));
                }
                assert forall|i: int| start <= i < end implies #[trigger] state.payload[i]
                    == chunks[index][i - start] by {
                    if index != new {
                        assert(before.payload[i] == chunks[index][i - start]);
                    }
                }
            }
        }
    }
}

/// The chunks of a packet can arrive in any order and any number of times.
///
/// A chunk that arrived before is recognized as a duplicate, the packet is reassembled as soon as
/// none of its chunks is missing, which results in all the chunks one after the other, and it is
/// pending until then.
pub proof fn law_reassembly(chunks: Seq<Seq<u8>>, arrivals: Seq<int>, index: int)
    requires
        is_chunking(chunks),
        chunks.len() <= MAX_PART_COUNT,
        are_indices(chunks.len(), arrivals),
        0 <= index < chunks.len(),
    ensures
        after_arrivals(chunks, arrivals).outcome(
            index == chunks.len() - 1,
            index as SeqIndex,
            chunks[index],
        ) == if arrivals.contains(index) {
            ReceivedPacketView::Duplicate
        } else if is_complete(chunks.len(), arrivals.push(index)) {
            ReceivedPacketView::Reassembled(joined(chunks))
        } else {
            ReceivedPacketView::Pending
        },
{
    let count = chunks.len();
    let before = after_arrivals(chunks, arrivals);
    let extended = arrivals.push(index);
    let state = after_arrivals(chunks, extended);
    let all = set_int_range(0, count as int);
    lemma_int_range(0, count as int);
    lemma_after_arrivals(chunks, arrivals);
    assert(extended.drop_last() =~= arrivals);
    lemma_after_arrivals(chunks, extended);
    lemma_len_subset(before.received, all);
    if !arrivals.contains(index) {
        assert(state.received.len() == before.received.len() + 1);
        lemma_len_subset(state.received, all);
        if is_complete(count, extended) {
            assert forall|k: int| all.contains(k) implies state.received.contains(k) by {
                assert(extended.contains(k));
            }
            assert(state.received =~= all);
            assert(state.received.contains(count - 1));
            assert(before.received_count == count - 1);
            lemma_joined(chunks);
            assert(is_stored(state.payload, chunks, count - 1));
            assert forall|i: int| 0 <= i < joined(chunks).len() implies state.payload[i]
                == joined(chunks)[i] by {
                let k = i / PART_PACKET_PAYLOAD_SIZE as int;
                lemma_ends(chunks, k);
                assert(state.received.contains(k));
                assert(is_stored(state.payload, chunks, k));
                assert(joined(chunks)[i] == chunks[k][i - PART_PACKET_PAYLOAD_SIZE * k]);
            }
            assert(state.payload =~= joined(chunks));
        } else {
            if state.received.len() == count {
                lemma_subset_equality(state.received, all);
                assert forall|k: int| 0 <= k < count implies extended.contains(k) by {
                    assert(state.received.contains(k));
                }
            }
        }
    }
}

/// Receiving the same part again is recognized and changes nothing.
pub proof fn law_duplicate(
    packet: ReassembledPacketView,
    last: bool,
    seq_index: SeqIndex,
    payload: Seq<u8>,
    again: Seq<u8>,
)
    ensures
        ({
            let after = packet.after(last, seq_index, payload);
            &&& after.outcome(last, seq_index, again) == ReceivedPacketView::Duplicate
            &&& after.after(last, seq_index, again) == after
        }),
{
}

/// A part that was not received before is stored at its place, everything around it stays, and zeros
/// stand where nothing was received yet.
pub proof fn law_stored(
    packet: ReassembledPacketView,
    last: bool,
    seq_index: SeqIndex,
    payload: Seq<u8>,
    i: int,
)
    requires
        !packet.received.contains(seq_index as int),
        0 <= i,
    ensures
        ({
            let after = packet.after(last, seq_index, payload);
            let start = 491 * seq_index;
            let end = start + payload.len();
            &&& after.received == packet.received.insert(seq_index as int)
            &&& packet.payload.len() >= end ==> after.payload.len() == packet.payload.len()
            &&& packet.payload.len() < end ==> after.payload.len() == end
            &&& start <= i < end ==> after.payload[i] == payload[i - start]
            &&& (i < start || end <= i) && i < packet.payload.len() ==> after.payload[i]
                == packet.payload[i]
            &&& packet.payload.len() <= i < start && i < after.payload.len() ==> after.payload[i]
                == 0
        }),
{
}

/// A part is a duplicate if its index was received before. Otherwise, it completes the packet if as
/// many parts were counted before as the index of the last part says.
pub proof fn law_outcome(
    packet: ReassembledPacketView,
    last: bool,
    seq_index: SeqIndex,
    payload: Seq<u8>,
)
    ensures
        ({
            let after = packet.after(last, seq_index, payload);
            let outcome = packet.outcome(last, seq_index, payload);
            &&& last ==> after.max_index == Some(seq_index)
            &&& !last ==> after.max_index == packet.max_index
            &&& packet.received.contains(seq_index as int) <==> outcome
                == ReceivedPacketView::Duplicate
            &&& packet.received.contains(seq_index as int) ==> after.received == packet.received
                && after.received_count == packet.received_count && after.payload == packet.payload
            &&& !packet.received.contains(seq_index as int) ==> {
                let is_complete = after.max_index is Some && after.max_index->Some_0
                    == packet.received_count;
                &&& is_complete ==> outcome == ReceivedPacketView::Reassembled(after.payload)
                    && after.received_count == packet.received_count
                &&& !is_complete ==> outcome == ReceivedPacketView::Pending
                    && after.received_count == packet.received_count + 1
            }
        }),
{
}

} // verus!
