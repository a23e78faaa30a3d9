//! All the packets that are being received.

use vstd::prelude::*;

use super::aligned::max_aligned_len;
use super::error::{
    HandlePacketError, PacketReceiveError, PacketReceiveErrorKind, SeqIndexOutOfRange,
};
use super::id::PacketId;
use super::parts::{
    chunk, chunks, law_chunks, lemma_chunk_lens, part, part_count, MAX_PART_COUNT,
};
use super::receive::{
    after_arrivals, are_indices, is_addressable, is_complete, law_reassembly, ReassembledPacket,
    ReassembledPacketView, ReceivedPacket, ReceivedPacketView,
};
use super::wire::{
    ack, ack_datagram, done_datagram, id_of, kind_of, law_done_datagram, law_part_datagram,
    payload_of, read_id, read_seq_index, seq_index_of, PacketKind, PART_PACKET_PAYLOAD_SIZE,
    PAYLOAD_START, SEQ_INDEX_START,
};
use super::SeqIndex;
use crate::nonzero::NonZeroUsize;
use crate::sorted::{are_sorted_keys, lemma_take_next, sorted_keys};
use crate::time::{Duration, Instant};
use std::collections::BTreeMap;
use vstd::slice::slice_subrange;

verus! {

/// A [`PacketIn`].
#[verifier::ext_equal]
pub struct PacketInView {
    pub last_receive: Instant,
    /// `None` if the packet consists of a single part.
    pub packet: Option<ReassembledPacketView>,
}

/// Everything that is known about a packet that is being received.
pub struct PacketIn {
    last_receive: Instant,
    packet: Option<ReassembledPacket>,
}

impl View for PacketIn {
    type V = PacketInView;

    closed spec fn view(&self) -> PacketInView {
        PacketInView {
            last_receive: self.last_receive,
            packet: match self.packet {
                Some(packet) => Some(packet@),
                None => None,
            },
        }
    }
}

impl PacketIn {
    pub closed spec fn wf(&self) -> bool {
        self.packet matches Some(packet) ==> packet.wf()
    }
}

/// Statistics about the progress of a packet that is being received.
#[derive(Clone, Copy, Debug)]
pub struct PacketInStats {
    pub total_bytes: NonZeroUsize,
    pub received_bytes: NonZeroUsize,
}

/// The biggest sequence index of a part with a payload of the given length.
pub open spec fn max_seq_index(payload_len: int) -> SeqIndex {
    if payload_len > max_aligned_len() {
        0
    } else if (max_aligned_len() - payload_len) / PART_PACKET_PAYLOAD_SIZE as int
        <= SeqIndex::MAX {
        ((max_aligned_len() - payload_len) / PART_PACKET_PAYLOAD_SIZE as int) as SeqIndex
    } else {
        SeqIndex::MAX
    }
}

/// Whether a part is all there is of its packet.
pub open spec fn is_single(last: bool, seq_index: SeqIndex) -> bool {
    last && seq_index == 0
}

/// A [`ReceivePacketBuffer`].
#[verifier::ext_equal]
pub struct ReceivePacketBufferView {
    /// The packets by their ids.
    pub packets: Map<u128, PacketInView>,
}

impl ReceivePacketBufferView {
    /// Replaces or adds a packet.
    pub open spec fn with(self, id: PacketId, packet: PacketInView) -> Self {
        ReceivePacketBufferView { packets: self.packets.insert(id.value, packet) }
    }

    /// What is known about a packet that consists of multiple parts, one of which was received.
    pub open spec fn reassembly(self, id: PacketId) -> Option<ReassembledPacketView> {
        if self.packets.contains_key(id.value) {
            self.packets[id.value].packet
        } else {
            Some(ReassembledPacketView::new())
        }
    }

    /// What receiving a part leads to, provided that the ack can be sent.
    pub open spec fn receive_result(
        self,
        last: bool,
        id: PacketId,
        seq_index: SeqIndex,
        payload: Seq<u8>,
    ) -> Result<ReceivedPacketView, PacketReceiveErrorKind> {
        if is_single(last, seq_index) {
            if !self.packets.contains_key(id.value) {
                Ok(ReceivedPacketView::Reassembled(payload))
            } else if self.packets[id.value].packet is None {
                Ok(ReceivedPacketView::Duplicate)
            } else {
                Err(PacketReceiveErrorKind::Mismatch)
            }
        } else {
            match self.reassembly(id) {
                None => Err(PacketReceiveErrorKind::Mismatch),
                Some(packet) => if is_addressable(seq_index, payload.len() as int) {
                    Ok(packet.outcome(last, seq_index, payload))
                } else {
                    Err(
                        PacketReceiveErrorKind::SeqIndexOutOfRange(
                            SeqIndexOutOfRange {
                                seq_index,
                                seq_max: max_seq_index(payload.len() as int),
                            },
                        ),
                    )
                },
            }
        }
    }

    /// The packets after a part was received.
    pub open spec fn after_receive(
        self,
        last: bool,
        id: PacketId,
        seq_index: SeqIndex,
        payload: Seq<u8>,
        now: Instant,
    ) -> Self {
        if is_single(last, seq_index) {
            if self.packets.contains_key(id.value) {
                self
            } else {
                self.with(id, PacketInView { last_receive: now, packet: None })
            }
        } else {
            match self.reassembly(id) {
                None => self.with(id, PacketInView { last_receive: now, packet: None }),
                Some(packet) => if is_addressable(seq_index, payload.len() as int) {
                    self.with(
                        id,
                        PacketInView {
                            last_receive: now,
                            packet: Some(packet.after(last, seq_index, payload)),
                        },
                    )
                } else {
                    self
                },
            }
        }
    }

    /// The packets without the given one.
    pub open spec fn after_done(self, id: PacketId) -> Self {
        ReceivePacketBufferView { packets: self.packets.remove(id.value) }
    }

    /// The packets that did receive data recently.
    pub open spec fn after_timeout(self, timeout: Duration, now: Instant) -> Self {
        ReceivePacketBufferView {
            packets: self.packets.restrict(
                self.packets.dom().filter(
                    |id: u128|
                        self.packets[id].last_receive.elapsed_spec(now).nanos < timeout.nanos,
                ),
            ),
        }
    }

    /// What a received datagram leads to, provided that the ack can be sent if there is one.
    pub open spec fn handling(self, datagram: Seq<u8>) -> Result<
        ReceivedPacketHandlingView,
        HandlePacketError,
    > {
        if datagram.len() == 0 {
            Err(HandlePacketError::Empty)
        } else {
            match kind_of(datagram) {
                Some(PacketKind::Part) | Some(PacketKind::LastPart) => {
                    if datagram.len() < PAYLOAD_START {
                        Err(HandlePacketError::Malformed)
                    } else {
                        let id = id_of(datagram);
                        let seq_index = seq_index_of(datagram);
                        match self.receive_result(
                            kind_of(datagram) == Some(PacketKind::LastPart),
                            id,
                            seq_index,
                            payload_of(datagram),
                        ) {
                            Ok(received) => Ok(
                                ReceivedPacketHandlingView::Ack { id, seq_index, received },
                            ),
                            Err(kind) => Err(
                                HandlePacketError::Receive(PacketReceiveError { id, kind }),
                            ),
                        }
                    }
                },
                Some(PacketKind::Done) => {
                    if datagram.len() < SEQ_INDEX_START {
                        Err(HandlePacketError::Malformed)
                    } else {
                        Ok(
                            ReceivedPacketHandlingView::Done {
                                known_packet: self.packets.contains_key(id_of(datagram).value),
                            },
                        )
                    }
                },
                _ => Ok(ReceivedPacketHandlingView::Unhandled),
            }
        }
    }

    /// The packets after a datagram was received.
    pub open spec fn after_handling(self, datagram: Seq<u8>, now: Instant) -> Self {
        match kind_of(datagram) {
            Some(PacketKind::Part) | Some(PacketKind::LastPart) => {
                if datagram.len() < PAYLOAD_START {
                    self
                } else {
                    self.after_receive(
                        kind_of(datagram) == Some(PacketKind::LastPart),
                        id_of(datagram),
                        seq_index_of(datagram),
                        payload_of(datagram),
                        now,
                    )
                }
            },
            Some(PacketKind::Done) => {
                if datagram.len() < SEQ_INDEX_START {
                    self
                } else {
                    self.after_done(id_of(datagram))
                }
            },
            _ => self,
        }
    }
}

/// What a received datagram leads to.
pub enum ReceivedPacketHandlingView {
    Ack { id: PacketId, seq_index: SeqIndex, received: ReceivedPacketView },
    Done { known_packet: bool },
    Unhandled,
}

/// What came of a datagram that might contain a part of a packet.
pub enum ReceivedPacketHandling<'a> {
    /// A part of a packet has to be acked.
    Ack(PendingAck<'a>),
    /// The sender is aware that all packets have been received, so the receiver can forget it.
    Done { known_packet: bool },
    /// This packet should be handled by someone else.
    Unhandled,
}

impl<'a> View for ReceivedPacketHandling<'a> {
    type V = ReceivedPacketHandlingView;

    open spec fn view(&self) -> ReceivedPacketHandlingView {
        match self {
            ReceivedPacketHandling::Ack(pending) => ReceivedPacketHandlingView::Ack {
                id: pending.id,
                seq_index: pending.seq_index,
                received: pending.received@,
            },
            ReceivedPacketHandling::Done { known_packet } => ReceivedPacketHandlingView::Done {
                known_packet: *known_packet,
            },
            ReceivedPacketHandling::Unhandled => ReceivedPacketHandlingView::Unhandled,
        }
    }
}

/// A part of a packet was received, but it is not acked yet.
pub struct PendingAck<'a> {
    pub id: PacketId,
    pub seq_index: SeqIndex,
    pub received: ReceivedPacket<'a>,
}

impl<'a> PendingAck<'a> {
    /// The datagram that acks the part.
    pub fn datagram(&self) -> (datagram: Vec<u8>)
        ensures
            datagram@ == ack_datagram(self.id, self.seq_index),
    {
        ack(self.id, self.seq_index)
    }

    /// Concludes the attempt to send the ack.
    ///
    /// The outcome is `Ok(false)` if the ack was not sent because the socket would block. This is
    /// ignored; it's more likely that a packet gets dropped, which results in the same situation,
    /// except that it's not possible to detect if a packet was dropped.
    pub fn conclude(self, outcome: Result<bool, std::io::Error>) -> (result: Result<
        ReceivedPacket<'a>,
        PacketReceiveError,
    >)
        ensures
            match outcome {
                Ok(_) => result == Ok::<_, PacketReceiveError>(self.received),
                Err(error) => result == Err::<ReceivedPacket<'a>, _>(
                    PacketReceiveError { id: self.id, kind: PacketReceiveErrorKind::Io(error) },
                ),
            },
    {
        match outcome {
            Ok(_) => Ok(self.received),
            Err(error) => Err(
                PacketReceiveError { id: self.id, kind: PacketReceiveErrorKind::Io(error) },
            ),
        }
    }
}

/// Received packets to be reassembled.
pub struct ReceivePacketBuffer {
    packets: BTreeMap<u128, PacketIn>,
}

impl View for ReceivePacketBuffer {
    type V = ReceivePacketBufferView;

    closed spec fn view(&self) -> ReceivePacketBufferView {
        ReceivePacketBufferView { packets: self.packets@.map_values(|packet: PacketIn| packet@) }
    }
}

/// Whether there can be a buffer that is big enough for a packet with this part.
fn check_addressable(seq_index: SeqIndex, payload_len: usize) -> (result: Result<
    (),
    SeqIndexOutOfRange,
>)
    ensures
        result is Ok <==> is_addressable(seq_index, payload_len as int),
        result matches Err(error) ==> error == (SeqIndexOutOfRange {
            seq_index,
            seq_max: max_seq_index(payload_len as int),
        }),
{
    let end: u128 = PART_PACKET_PAYLOAD_SIZE as u128 * seq_index as u128 + payload_len as u128;
    let limit: u128 = isize::MAX as u128 - 15;
    if end <= limit {
        return Ok(());
    }
    let seq_max: SeqIndex = if payload_len as u128 > limit {
        0
    } else {
        let max: u128 = (limit - payload_len as u128) / PART_PACKET_PAYLOAD_SIZE as u128;
        if max <= SeqIndex::MAX as u128 {
            max as SeqIndex
        } else {
            SeqIndex::MAX
        }
    };
    Err(SeqIndexOutOfRange { seq_index, seq_max })
}

impl ReceivePacketBuffer {
    pub closed spec fn wf(&self) -> bool {
        forall|id: u128| #[trigger] self.packets@.contains_key(id) ==> self.packets@[id].wf()
    }

    /// Nothing has been received yet.
    pub fn new() -> (buffer: Self)
        ensures
            buffer.wf(),
            buffer@ == (ReceivePacketBufferView { packets: Map::empty() }),
    {
        let buffer = ReceivePacketBuffer { packets: BTreeMap::new() };
        assert(buffer@.packets =~= Map::empty());
        buffer
    }

    fn insert(&mut self, id: PacketId, packet: PacketIn)
        requires
            old(self).wf(),
            packet.wf(),
        ensures
            final(self).wf(),
            final(self)@ == old(self)@.with(id, packet@),
    {
        let _previous = self.packets.insert(id.value, packet);
        assert(self@.packets =~= old(self)@.packets.insert(id.value, packet@));
    }

    /// Handles incoming packets that are relevant for the received packet buffer.
    ///
    /// Which is one of:
    ///
    /// - [`PacketKind::Part`]
    /// - [`PacketKind::LastPart`]
    /// - [`PacketKind::Done`]
    ///
    /// Other packets are ignored.
    pub fn handle<'a>(&'a mut self, buf: &'a [u8], now: Instant) -> (result: Result<
        ReceivedPacketHandling<'a>,
        HandlePacketError,
    >)
        requires
            old(self).wf(),
        ensures
            final(self).wf(),
            final(self)@ == old(self)@.after_handling(buf@, now),
            match old(self)@.handling(buf@) {
                Ok(handling) => result matches Ok(result) && result@ == handling,
                Err(error) => result == Err::<ReceivedPacketHandling<'a>, _>(error),
            },
    {
        if buf.len() == 0 {
            return Err(HandlePacketError::Empty);
        }
        let kind = match PacketKind::from_byte(buf[0]) {
            Some(kind) => kind,
            None => {
                return Ok(ReceivedPacketHandling::Unhandled);
            },
        };
        match kind {
            PacketKind::Part | PacketKind::LastPart => {
                let seq_index: SeqIndex = match read_seq_index(buf) {
                    Some(seq_index) => seq_index,
                    None => {
                        return Err(HandlePacketError::Malformed);
                    },
                };
                let payload = slice_subrange(buf, PAYLOAD_START, buf.len());
                let id = match read_id(buf) {
                    Some(id) => id,
                    None => {
                        return Err(HandlePacketError::Malformed);
                    },
                };
                match self.receive(kind == PacketKind::LastPart, id, seq_index, payload, now) {
                    Ok(pending) => Ok(ReceivedPacketHandling::Ack(pending)),
                    Err(error) => Err(HandlePacketError::Receive(error)),
                }
            },
            PacketKind::Done => {
                let id = match read_id(buf) {
                    Some(id) => id,
                    None => {
                        return Err(HandlePacketError::Malformed);
                    },
                };
                Ok(ReceivedPacketHandling::Done { known_packet: self.done(id) })
            },
            PacketKind::Version | PacketKind::Ping | PacketKind::Ack | PacketKind::FirstUpdate => {
                Ok(ReceivedPacketHandling::Unhandled)
            },
        }
    }

    /// Reassembles the given packet and returns its state, which is still to be acked.
    pub fn receive<'a>(
        &'a mut self,
        last: bool,
        id: PacketId,
        seq_index: SeqIndex,
        payload: &'a [u8],
        now: Instant,
    ) -> (result: Result<PendingAck<'a>, PacketReceiveError>)
        requires
            old(self).wf(),
        ensures
            final(self).wf(),
            final(self)@ == old(self)@.after_receive(last, id, seq_index, payload@, now),
            match old(self)@.receive_result(last, id, seq_index, payload@) {
                Ok(received) => result matches Ok(pending) && pending.id == id && pending.seq_index
                    == seq_index && pending.received@ == received,
                Err(kind) => result == Err::<PendingAck<'a>, _>(PacketReceiveError { id, kind }),
            },
    {
        if last && seq_index == 0 {
            match self.packets.get(&id.value) {
                None => {
                    self.insert(id, PacketIn { last_receive: now, packet: None });
                    Ok(
                        PendingAck { id, seq_index, received: ReceivedPacket::Reassembled(payload) },
                    )
                },
                Some(entry) => {
                    if entry.packet.is_none() {
                        Ok(PendingAck { id, seq_index, received: ReceivedPacket::Duplicate })
                    } else {
                        Err(PacketReceiveError { id, kind: PacketReceiveErrorKind::Mismatch })
                    }
                },
            }
        } else {
            let is_single = match self.packets.get(&id.value) {
                Some(entry) => entry.packet.is_none(),
                None => false,
            };
            if is_single {
                self.insert(id, PacketIn { last_receive: now, packet: None });
                return Err(PacketReceiveError { id, kind: PacketReceiveErrorKind::Mismatch });
            }
            if let Err(error) = check_addressable(seq_index, payload.len()) {
                return Err(
                    PacketReceiveError {
                        id,
                        kind: PacketReceiveErrorKind::SeqIndexOutOfRange(error),
                    },
                );
            }
            let mut packet = match self.packets.remove(&id.value) {
                Some(entry) => entry.packet.unwrap(),
                None => ReassembledPacket::new(),
            };
            let is_reassembled = match packet.receive(last, seq_index, payload) {
                ReceivedPacket::Pending => None,
                ReceivedPacket::Duplicate => Some(false),
                ReceivedPacket::Reassembled(_) => Some(true),
            };
            self.insert(id, PacketIn { last_receive: now, packet: Some(packet) });
            assert(self@ =~= old(self)@.after_receive(last, id, seq_index, payload@, now));
            let received = match is_reassembled {
                None => ReceivedPacket::Pending,
                Some(false) => ReceivedPacket::Duplicate,
                Some(true) => ReceivedPacket::Reassembled(self.reassembled(id)),
            };
            Ok(PendingAck { id, seq_index, received })
        }
    }

    /// The payload of a packet that consists of multiple parts.
    fn reassembled(&self, id: PacketId) -> (payload: &[u8])
        requires
            self.wf(),
            self@.packets.contains_key(id.value),
            self@.packets[id.value].packet is Some,
        ensures
            payload@ == self@.packets[id.value].packet->Some_0.payload,
    {
        let entry = self.packets.get(&id.value).unwrap();
        entry.packet.as_ref().unwrap().payload()
    }

    /// The sender will no longer send any parts for this packet.
    ///
    /// Either because all parts were acked or because the packet was canceled.
    ///
    /// Returns `true` if the client was aware of this packet.
    pub fn done(&mut self, id: PacketId) -> (known_packet: bool)
        requires
            old(self).wf(),
        ensures
            final(self).wf(),
            final(self)@ == old(self)@.after_done(id),
            known_packet == old(self)@.packets.contains_key(id.value),
    {
        let packet = self.packets.remove(&id.value);
        assert(self@.packets =~= old(self)@.packets.remove(id.value));
        packet.is_some()
    }

    /// Forget packets that did not receive data in a long time.
    pub fn timeout_packets(&mut self, timeout: Duration, now: Instant)
        requires
            old(self).wf(),
        ensures
            final(self).wf(),
            final(self)@ == old(self)@.after_timeout(timeout, now),
    {
        let ids = sorted_keys(&self.packets);
        let ghost before = self@;
        assert(before.packets.dom() =~= self.packets@.dom());
        let mut i: usize = 0;
        while i < ids.len()
            invariant
                i <= ids@.len(),
                are_sorted_keys(ids@, before.packets.dom()),
                before == old(self)@,
                self.wf(),
                forall|id: u128| #[trigger]
                    self@.packets.contains_key(id) <==> before.packets.contains_key(id) && (
                    before.packets[id].last_receive.elapsed_spec(now).nanos < timeout.nanos
                        || !ids@.take(i as int).contains(id)),
                forall|id: u128| #[trigger]
                    self@.packets.contains_key(id) ==> self@.packets[id] == before.packets[id],
            decreases ids@.len() - i,
        {
            let id: u128 = ids[i];
            proof {
                lemma_take_next(ids@, before.packets.dom(), i as int);
            }
            let is_outdated = match self.packets.get(&id) {
                Some(packet) => packet.last_receive.elapsed(now).nanos >= timeout.nanos,
                None => false,
            };
            if is_outdated {
                let _known_packet = self.done(PacketId { value: id });
            }
            i = i + 1;
        }
        proof {
            assert(ids@.take(ids@.len() as int) =~= ids@);
            assert(self@.packets =~= before.after_timeout(timeout, now).packets);
        }
    }
}

/// A part of a packet that arrives at the receiver is treated as exactly that part.
pub proof fn law_part_handling(
    buffer: ReceivePacketBufferView,
    id: PacketId,
    bytes: Seq<u8>,
    index: int,
    now: Instant,
)
    requires
        part_count(bytes.len()) <= MAX_PART_COUNT,
        0 <= index < part_count(bytes.len()),
    ensures
        ({
            let last = index == part_count(bytes.len()) - 1;
            let seq_index = index as SeqIndex;
            let payload = chunk(bytes, index);
            &&& buffer.handling(part(id, bytes, index)) == match buffer.receive_result(
                last,
                id,
                seq_index,
                payload,
            ) {
                Ok(received) => Ok::<_, HandlePacketError>(
                    ReceivedPacketHandlingView::Ack { id, seq_index, received },
                ),
                Err(kind) => Err(HandlePacketError::Receive(PacketReceiveError { id, kind })),
            }
            &&& buffer.after_handling(part(id, bytes, index), now) == buffer.after_receive(
                last,
                id,
                seq_index,
                payload,
                now,
            )
        }),
{
    law_part_datagram(
        index == part_count(bytes.len()) - 1,
        id,
        index as SeqIndex,
        chunk(bytes, index),
    );
}

/// The packets after the parts of one packet with the given indices have arrived at the given
/// moments, one after the other.
pub open spec fn after_part_arrivals(
    buffer: ReceivePacketBufferView,
    id: PacketId,
    bytes: Seq<u8>,
    arrivals: Seq<int>,
    moments: Seq<Instant>,
) -> ReceivePacketBufferView
    decreases arrivals.len(),
{
    if arrivals.len() == 0 {
        buffer
    } else {
        after_part_arrivals(
            buffer,
            id,
            bytes,
            arrivals.drop_last(),
            moments.drop_last(),
        ).after_handling(part(id, bytes, arrivals.last()), moments.last())
    }
}

proof fn lemma_after_part_arrivals(
    buffer: ReceivePacketBufferView,
    id: PacketId,
    bytes: Seq<u8>,
    arrivals: Seq<int>,
    moments: Seq<Instant>,
)
    requires
        part_count(bytes.len()) <= MAX_PART_COUNT,
        bytes.len() <= max_aligned_len(),
        !buffer.packets.contains_key(id.value),
        are_indices(part_count(bytes.len()), arrivals),
        moments.len() == arrivals.len(),
    ensures
        ({
            let after = after_part_arrivals(buffer, id, bytes, arrivals, moments);
            if arrivals.len() == 0 {
                !after.packets.contains_key(id.value)
            } else {
                &&& after.packets.contains_key(id.value)
                &&& after.packets[id.value].packet == if part_count(bytes.len()) == 1 {
                    None
                } else {
                    Some(after_arrivals(chunks(bytes), arrivals))
                }
            }
        }),
    decreases arrivals.len(),
{
    if arrivals.len() > 0 {
        let index = arrivals.last();
        let before = after_part_arrivals(
            buffer,
            id,
            bytes,
            arrivals.drop_last(),
            moments.drop_last(),
        );
        lemma_after_part_arrivals(buffer, id, bytes, arrivals.drop_last(), moments.drop_last());
        law_part_handling(before, id, bytes, index, moments.last());
        lemma_chunk_lens(bytes.len(), index);
    }
}

/// The parts of a packet can arrive at the receiver in any order and any number of times.
///
/// Every one of them is acked. A part that arrived before is recognized as a duplicate, the packet
/// is reassembled as soon as none of its parts is missing, which results in the bytes that the sender
/// has split up, and it is pending until then.
pub proof fn law_delivery(
    buffer: ReceivePacketBufferView,
    id: PacketId,
    bytes: Seq<u8>,
    arrivals: Seq<int>,
    moments: Seq<Instant>,
    index: int,
)
    requires
        part_count(bytes.len()) <= MAX_PART_COUNT,
        bytes.len() <= max_aligned_len(),
        !buffer.packets.contains_key(id.value),
        are_indices(part_count(bytes.len()), arrivals),
        moments.len() == arrivals.len(),
        0 <= index < part_count(bytes.len()),
    ensures
        after_part_arrivals(buffer, id, bytes, arrivals, moments).handling(part(id, bytes, index))
            == Ok::<_, HandlePacketError>(
            ReceivedPacketHandlingView::Ack {
                id,
                seq_index: index as SeqIndex,
                received: if arrivals.contains(index) {
                    ReceivedPacketView::Duplicate
                } else if is_complete(part_count(bytes.len()), arrivals.push(index)) {
                    ReceivedPacketView::Reassembled(bytes)
                } else {
                    ReceivedPacketView::Pending
                },
            },
        ),
{
    let before = after_part_arrivals(buffer, id, bytes, arrivals, moments);
    lemma_after_part_arrivals(buffer, id, bytes, arrivals, moments);
    law_part_handling(before, id, bytes, index, Instant { nanos: 0 });
    lemma_chunk_lens(bytes.len(), index);
    law_chunks(bytes);
    law_reassembly(chunks(bytes), arrivals, index);
    if part_count(bytes.len()) == 1 {
        assert(chunk(bytes, 0) =~= bytes);
        if arrivals.len() > 0 {
            assert(arrivals[0] == index);
        } else {
            assert(arrivals.push(index)[0] == index);
            assert(is_complete(part_count(bytes.len()), arrivals.push(index)));
        }
    }
}

/// A packet is reassembled only once, since all of its parts are duplicates from then on.
pub proof fn law_reassembled_once(
    buffer: ReceivePacketBufferView,
    id: PacketId,
    bytes: Seq<u8>,
    arrivals: Seq<int>,
    moments: Seq<Instant>,
    index: int,
)
    requires
        part_count(bytes.len()) <= MAX_PART_COUNT,
        bytes.len() <= max_aligned_len(),
        !buffer.packets.contains_key(id.value),
        are_indices(part_count(bytes.len()), arrivals),
        is_complete(part_count(bytes.len()), arrivals),
        moments.len() == arrivals.len(),
        0 <= index < part_count(bytes.len()),
    ensures
        after_part_arrivals(buffer, id, bytes, arrivals, moments).handling(part(id, bytes, index))
            == Ok::<_, HandlePacketError>(
            ReceivedPacketHandlingView::Ack {
                id,
                seq_index: index as SeqIndex,
                received: ReceivedPacketView::Duplicate,
            },
        ),
{
    law_delivery(buffer, id, bytes, arrivals, moments, index);
    assert(arrivals.contains(index));
}

/// A received datagram has no influence on packets with another id.
pub proof fn law_other_packets(
    buffer: ReceivePacketBufferView,
    datagram: Seq<u8>,
    now: Instant,
    other: PacketId,
)
    requires
        other != id_of(datagram),
    ensures
        ({
            let after = buffer.after_handling(datagram, now);
            &&& after.packets.contains_key(other.value) <==> buffer.packets.contains_key(
                other.value,
            )
            &&& buffer.packets.contains_key(other.value) ==> after.packets[other.value]
                == buffer.packets[other.value]
        }),
{
}

/// A packet is forgotten once its sender is done with it.
pub proof fn law_done_handling(buffer: ReceivePacketBufferView, id: PacketId, now: Instant)
    ensures
        buffer.handling(done_datagram(id)) == Ok::<_, HandlePacketError>(
            ReceivedPacketHandlingView::Done {
                known_packet: buffer.packets.contains_key(id.value),
            },
        ),
        !buffer.after_handling(done_datagram(id), now).packets.contains_key(id.value),
{
    law_done_datagram(id);
}

/// Anything that can happen to received packets.
pub enum ReceiveStep {
    Receive {
        last: bool,
        id: PacketId,
        seq_index: SeqIndex,
        payload: Seq<u8>,
        now: Instant,
    },
    Done { id: PacketId },
    Timeout { timeout: Duration, now: Instant },
}

impl ReceiveStep {
    /// The packets after this has happened.
    pub open spec fn after(self, buffer: ReceivePacketBufferView) -> ReceivePacketBufferView {
        match self {
            ReceiveStep::Receive { last, id, seq_index, payload, now } => buffer.after_receive(
                last,
                id,
                seq_index,
                payload,
                now,
            ),
            ReceiveStep::Done { id } => buffer.after_done(id),
            ReceiveStep::Timeout { timeout, now } => buffer.after_timeout(timeout, now),
        }
    }
}

/// The packets after everything has happened, one after the other.
pub open spec fn after_receive_steps(
    buffer: ReceivePacketBufferView,
    steps: Seq<ReceiveStep>,
) -> ReceivePacketBufferView
    decreases steps.len(),
{
    if steps.len() == 0 {
        buffer
    } else {
        steps.last().after(after_receive_steps(buffer, steps.drop_last()))
    }
}

/// Whether a packet is known all the time.
pub open spec fn stays_known(
    buffer: ReceivePacketBufferView,
    steps: Seq<ReceiveStep>,
    id: PacketId,
) -> bool
    decreases steps.len(),
{
    &&& after_receive_steps(buffer, steps).packets.contains_key(id.value)
    &&& steps.len() > 0 ==> stays_known(buffer, steps.drop_last(), id)
}

proof fn lemma_stays_single(
    buffer: ReceivePacketBufferView,
    steps: Seq<ReceiveStep>,
    id: PacketId,
)
    requires
        stays_known(buffer, steps, id),
    ensures
        after_receive_steps(buffer, steps).packets[id.value].packet is None
            <==> buffer.packets[id.value].packet is None,
    decreases steps.len(),
{
    if steps.len() > 0 {
        lemma_stays_single(buffer, steps.drop_last(), id);
    }
}

/// A packet that was first seen as a single part never takes any other part, and a packet that was
/// first seen as one of multiple parts never takes a single part, for as long as the packet is known.
///
/// There is no other mismatch.
pub proof fn law_mismatch(
    buffer: ReceivePacketBufferView,
    first_last: bool,
    id: PacketId,
    first_seq_index: SeqIndex,
    first_payload: Seq<u8>,
    first_now: Instant,
    steps: Seq<ReceiveStep>,
    last: bool,
    seq_index: SeqIndex,
    payload: Seq<u8>,
)
    requires
        !buffer.packets.contains_key(id.value),
        stays_known(
            buffer.after_receive(first_last, id, first_seq_index, first_payload, first_now),
            steps,
            id,
        ),
    ensures
        after_receive_steps(
            buffer.after_receive(first_last, id, first_seq_index, first_payload, first_now),
            steps,
        ).receive_result(last, id, seq_index, payload) == Err::<ReceivedPacketView, _>(
            PacketReceiveErrorKind::Mismatch,
        ) <==> is_single(last, seq_index) != is_single(first_last, first_seq_index),
{
    let known = buffer.after_receive(first_last, id, first_seq_index, first_payload, first_now);
    lemma_stays_single(known, steps, id);
    lemma_known_at_start(known, steps, id);
}

proof fn lemma_known_at_start(
    buffer: ReceivePacketBufferView,
    steps: Seq<ReceiveStep>,
    id: PacketId,
)
    requires
        stays_known(buffer, steps, id),
    ensures
        buffer.packets.contains_key(id.value),
    decreases steps.len(),
{
    if steps.len() > 0 {
        lemma_known_at_start(buffer, steps.drop_last(), id);
    }
}

/// A packet is still known, and unchanged, if and only if it was known and the whole timeout has not
/// passed yet since it received data.
pub proof fn law_receive_timeout(
    buffer: ReceivePacketBufferView,
    timeout: Duration,
    now: Instant,
    id: u128,
)
    ensures
        ({
            let after = buffer.after_timeout(timeout, now);
            &&& timeout.nanos > 0 ==> (after.packets.contains_key(id)
                <==> buffer.packets.contains_key(id) && now.nanos
                < buffer.packets[id].last_receive.nanos + timeout.nanos)
            &&& timeout.nanos == 0 ==> !after.packets.contains_key(id)
            &&& after.packets.contains_key(id) ==> after.packets[id] == buffer.packets[id]
        }),
{
}

/// Something that happens while a packet is being received.
pub enum DeliveryEvent {
    /// The part with the given index arrives.
    Part { index: int, now: Instant },
    /// Packets that did not receive data in a long time are forgotten.
    Timeout { now: Instant },
}

/// The received packets after everything has happened, one after the other.
pub open spec fn after_events(
    buffer: ReceivePacketBufferView,
    id: PacketId,
    bytes: Seq<u8>,
    timeout: Duration,
    events: Seq<DeliveryEvent>,
) -> ReceivePacketBufferView
    decreases events.len(),
{
    if events.len() == 0 {
        buffer
    } else {
        let before = after_events(buffer, id, bytes, timeout, events.drop_last());
        match events.last() {
            DeliveryEvent::Part { index, now } => before.after_handling(
                part(id, bytes, index),
                now,
            ),
            DeliveryEvent::Timeout { now } => before.after_timeout(timeout, now),
        }
    }
}

/// The indices of the parts that have arrived.
pub open spec fn arrivals_of(events: Seq<DeliveryEvent>) -> Seq<int>
    decreases events.len(),
{
    if events.len() == 0 {
        Seq::empty()
    } else {
        match events.last() {
            DeliveryEvent::Part { index, .. } => arrivals_of(events.drop_last()).push(index),
            DeliveryEvent::Timeout { .. } => arrivals_of(events.drop_last()),
        }
    }
}

/// When data was received, which for a packet that consists of a single part is only the case once.
pub open spec fn last_data(events: Seq<DeliveryEvent>, is_single: bool) -> Option<Instant>
    decreases events.len(),
{
    if events.len() == 0 {
        None
    } else {
        let before = last_data(events.drop_last(), is_single);
        match events.last() {
            DeliveryEvent::Part { now, .. } => if is_single && before is Some {
                before
            } else {
                Some(now)
            },
            DeliveryEvent::Timeout { .. } => before,
        }
    }
}

/// Whether less time than the timeout has passed since data was received whenever packets that did not
/// receive data in a long time are forgotten.
pub open spec fn are_in_time(
    events: Seq<DeliveryEvent>,
    is_single: bool,
    timeout: Duration,
) -> bool
    decreases events.len(),
{
    events.len() > 0 ==> {
        let before = events.drop_last();
        &&& are_in_time(before, is_single, timeout)
        &&& events.last() matches DeliveryEvent::Timeout { now } ==> (last_data(
            before,
            is_single,
        ) matches Some(moment) ==> now.nanos < moment.nanos + timeout.nanos)
    }
}

proof fn lemma_after_events(
    buffer: ReceivePacketBufferView,
    id: PacketId,
    bytes: Seq<u8>,
    timeout: Duration,
    events: Seq<DeliveryEvent>,
)
    requires
        part_count(bytes.len()) <= MAX_PART_COUNT,
        bytes.len() <= max_aligned_len(),
        !buffer.packets.contains_key(id.value),
        are_indices(part_count(bytes.len()), arrivals_of(events)),
        are_in_time(events, part_count(bytes.len()) == 1, timeout),
        timeout.nanos > 0,
    ensures
        ({
            let after = after_events(buffer, id, bytes, timeout, events);
            let arrivals = arrivals_of(events);
            let moment = last_data(events, part_count(bytes.len()) == 1);
            if arrivals.len() == 0 {
                !after.packets.contains_key(id.value) && moment is None
            } else {
                &&& after.packets.contains_key(id.value)
                &&& moment == Some(after.packets[id.value].last_receive)
                &&& after.packets[id.value].packet == if part_count(bytes.len()) == 1 {
                    None
                } else {
                    Some(after_arrivals(chunks(bytes), arrivals))
                }
            }
        }),
    decreases events.len(),
{
    if events.len() > 0 {
        let rest = events.drop_last();
        let before = after_events(buffer, id, bytes, timeout, rest);
        let arrivals = arrivals_of(events);
        match events.last() {
            DeliveryEvent::Part { index, now } => {
                assert(arrivals.drop_last() =~= arrivals_of(rest));
                assert(arrivals[arrivals.len() - 1] == index);
                assert(are_indices(part_count(bytes.len()), arrivals_of(rest))) by {
                    assert forall|i: int| 0 <= i < arrivals_of(rest).len() implies 0
                        <= #[trigger] arrivals_of(rest)[i] < part_count(bytes.len()) by {
                        assert(arrivals_of(rest)[i] == arrivals[i]);
                    }
                }
                lemma_after_events(buffer, id, bytes, timeout, rest);
                law_part_handling(before, id, bytes, index, now);
                lemma_chunk_lens(bytes.len(), index);
            },
            DeliveryEvent::Timeout { now } => {
                lemma_after_events(buffer, id, bytes, timeout, rest);
                law_receive_timeout(before, timeout, now, id.value);
            },
        }
    }
}

/// A packet is delivered no matter how its parts arrive, and no matter when packets that did not receive
/// data in a long time are forgotten in between, as long as less time than the timeout has passed
/// since the packet received data.
pub proof fn law_delivery_in_time(
    buffer: ReceivePacketBufferView,
    id: PacketId,
    bytes: Seq<u8>,
    timeout: Duration,
    events: Seq<DeliveryEvent>,
    index: int,
)
    requires
        part_count(bytes.len()) <= MAX_PART_COUNT,
        bytes.len() <= max_aligned_len(),
        !buffer.packets.contains_key(id.value),
        are_indices(part_count(bytes.len()), arrivals_of(events)),
        are_in_time(events, part_count(bytes.len()) == 1, timeout),
        timeout.nanos > 0,
        0 <= index < part_count(bytes.len()),
    ensures
        after_events(buffer, id, bytes, timeout, events).handling(part(id, bytes, index)) == Ok::<
            _,
            HandlePacketError,
        >(
            ReceivedPacketHandlingView::Ack {
                id,
                seq_index: index as SeqIndex,
                received: if arrivals_of(events).contains(index) {
                    ReceivedPacketView::Duplicate
                } else if is_complete(part_count(bytes.len()), arrivals_of(events).push(index)) {
                    ReceivedPacketView::Reassembled(bytes)
                } else {
                    ReceivedPacketView::Pending
                },
            },
        ),
{
    let before = after_events(buffer, id, bytes, timeout, events);
    let arrivals = arrivals_of(events);
    lemma_after_events(buffer, id, bytes, timeout, events);
    law_part_handling(before, id, bytes, index, Instant { nanos: 0 });
    lemma_chunk_lens(bytes.len(), index);
    law_chunks(bytes);
    law_reassembly(chunks(bytes), arrivals, index);
    if part_count(bytes.len()) == 1 {
        assert(chunk(bytes, 0) =~= bytes);
        if arrivals.len() > 0 {
            assert(arrivals[0] == index);
        } else {
            assert(arrivals.push(index)[0] == index);
            assert(is_complete(part_count(bytes.len()), arrivals.push(index)));
        }
    }
}

/// A packet that consists of a single part is delivered as it is, but only once for as long as it is
/// known, and is known from then on.
pub proof fn law_single_part(
    buffer: ReceivePacketBufferView,
    id: PacketId,
    payload: Seq<u8>,
    now: Instant,
)
    ensures
        ({
            let result = buffer.receive_result(true, id, 0, payload);
            let after = buffer.after_receive(true, id, 0, payload, now);
            &&& !buffer.packets.contains_key(id.value) ==> {
                &&& result == Ok::<_, PacketReceiveErrorKind>(
                    ReceivedPacketView::Reassembled(payload),
                )
                &&& after.packets.contains_key(id.value)
                &&& after.packets[id.value].last_receive == now
                &&& after.receive_result(true, id, 0, payload) == Ok::<_, PacketReceiveErrorKind>(
                    ReceivedPacketView::Duplicate,
                )
            }
            &&& buffer.packets.contains_key(id.value) ==> {
                &&& result is Ok ==> result == Ok::<_, PacketReceiveErrorKind>(
                    ReceivedPacketView::Duplicate,
                )
                &&& after == buffer
            }
        }),
{
}

/// Any other part is treated by the packet that it belongs to, which starts out without any part and
/// remembers when it received data.
pub proof fn law_one_of_many_parts(
    buffer: ReceivePacketBufferView,
    last: bool,
    id: PacketId,
    seq_index: SeqIndex,
    payload: Seq<u8>,
    now: Instant,
)
    requires
        !last || seq_index > 0,
        491 * seq_index + payload.len() <= isize::MAX - 15,
    ensures
        ({
            let result = buffer.receive_result(last, id, seq_index, payload);
            let after = buffer.after_receive(last, id, seq_index, payload, now);
            &&& after.packets.contains_key(id.value)
            &&& after.packets[id.value].last_receive == now
            &&& !buffer.packets.contains_key(id.value) ==> result == Ok::<_, PacketReceiveErrorKind>(
                ReceivedPacketView::Pending,
            ) && after.packets[id.value].packet == Some(
                ReassembledPacketView::new().after(last, seq_index, payload),
            )
            &&& buffer.packets.contains_key(id.value) ==> match buffer.packets[id.value].packet {
                Some(packet) => result == Ok::<_, PacketReceiveErrorKind>(
                    packet.outcome(last, seq_index, payload),
                ) && after.packets[id.value].packet == Some(
                    packet.after(last, seq_index, payload),
                ),
                None => result == Err::<ReceivedPacketView, _>(PacketReceiveErrorKind::Mismatch)
                    && after.packets[id.value].packet is None,
            }
        }),
{
}

/// A part is out of range if and only if no buffer could be big enough for it, which is not the case up
/// to the biggest sequence index that is reported.
pub proof fn law_out_of_range(
    buffer: ReceivePacketBufferView,
    last: bool,
    id: PacketId,
    seq_index: SeqIndex,
    payload: Seq<u8>,
    now: Instant,
)
    requires
        !last || seq_index > 0,
        491 * seq_index + payload.len() > isize::MAX - 15,
        buffer.packets.contains_key(id.value) ==> buffer.packets[id.value].packet is Some,
    ensures
        ({
            let result = buffer.receive_result(last, id, seq_index, payload);
            &&& buffer.after_receive(last, id, seq_index, payload, now) == buffer
            &&& result matches Err(PacketReceiveErrorKind::SeqIndexOutOfRange(error))
                && error.seq_index == seq_index && (payload.len() <= isize::MAX - 15 ==> 491
                * error.seq_max + payload.len() <= isize::MAX - 15 && 491 * (error.seq_max + 1)
                + payload.len() > isize::MAX - 15)
        }),
{
}

/// Only datagrams that start with one of the bytes for parts and done packets are handled, and they
/// have to be long enough.
pub proof fn law_only_parts(buffer: ReceivePacketBufferView, datagram: Seq<u8>, now: Instant)
    ensures
        datagram.len() == 0 ==> buffer.handling(datagram) == Err::<ReceivedPacketHandlingView, _>(
            HandlePacketError::Empty,
        ),
        datagram.len() > 0 && datagram[0] != 2 && datagram[0] != 3 && datagram[0] != 5
            ==> buffer.handling(datagram) == Ok::<_, HandlePacketError>(
            ReceivedPacketHandlingView::Unhandled,
        ),
        0 < datagram.len() < 21 && (datagram[0] == 2 || datagram[0] == 3) ==> buffer.handling(
            datagram,
        ) == Err::<ReceivedPacketHandlingView, _>(HandlePacketError::Malformed),
        0 < datagram.len() < 17 && datagram[0] == 5 ==> buffer.handling(datagram) == Err::<
            ReceivedPacketHandlingView,
            _,
        >(HandlePacketError::Malformed),
        datagram.len() >= 17 && datagram[0] == 5 ==> buffer.handling(datagram) == Ok::<
            _,
            HandlePacketError,
        >(
            ReceivedPacketHandlingView::Done {
                known_packet: buffer.packets.contains_key(id_of(datagram).value),
            },
        ),
        datagram.len() == 0 || (datagram[0] != 2 && datagram[0] != 3 && datagram[0] != 5)
            || datagram.len() < 17 || (datagram[0] != 5 && datagram.len() < 21)
            ==> buffer.after_handling(datagram, now) == buffer,
{
}

} // verus!
