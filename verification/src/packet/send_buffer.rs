//! All the packets that are being sent.

use vstd::prelude::*;

use super::buffer::{all_wf, buffer_views, PacketBuffer};
use super::error::{
    HandlePacketError, PacketAckError, PacketAckErrorKind, SeqIndexAckedBeforeSent,
};
use super::id::PacketId;
use super::queue::{datagram_views, none_acked, pending, PacketQueue};
use super::round::{is_due, missed_turns, Round};
use super::send::{PacketOut, PacketOutView};
use super::wire::{
    ack_datagram, id_of, kind_of, law_ack_datagram, read_id, read_seq_index, seq_index_of,
    PacketKind, PAYLOAD_START,
};
use super::{BatchSize, NonZeroBatchSize, SeqIndex};
use crate::sorted::{are_sorted_keys, lemma_take_next, sorted_keys};
use crate::time::{Duration, Instant};
use std::collections::BTreeMap;

verus! {

/// What came of a datagram that might be an ack.
#[derive(Clone, Copy, Debug, Hash, PartialEq, Eq, Structural)]
pub enum SentPacketHandling {
    /// A sent out packet has been acked.
    Ack {
        /// Whether the packet was already acked before.
        duplicate: bool,
    },
    /// This packet should be handled by someone else.
    Unhandled,
}

/// The sum of the batch sizes of the packets with the given ids.
pub open spec fn batch_size_sum(packets: Map<u128, PacketOutView>, ids: Seq<u128>) -> int
    decreases ids.len(),
{
    if ids.len() == 0 {
        0
    } else {
        batch_size_sum(packets, ids.drop_last()) + packets[ids.last()].batch_size
    }
}

/// The mean of batch sizes, where the sum is only as exact as it can be.
pub open spec fn mean_batch_size(sum: int, count: int) -> int {
    let mean = if sum <= usize::MAX {
        sum / count
    } else {
        usize::MAX as int / count
    };
    if mean < 1 {
        1
    } else if mean > BatchSize::MAX {
        BatchSize::MAX as int
    } else {
        mean
    }
}

/// A [`SendPacketBuffer`].
#[verifier::ext_equal]
pub struct SendPacketBufferView {
    /// How many parts of a new packet are sent at once.
    pub batch_size: int,
    /// The packets by their ids.
    pub packets: Map<u128, PacketOutView>,
}

impl SendPacketBufferView {
    /// What an ack for a part of a packet leads to.
    pub open spec fn ack_result(self, id: PacketId, seq_index: SeqIndex) -> Result<
        bool,
        PacketAckErrorKind,
    > {
        if !self.packets.contains_key(id.value) {
            Err(PacketAckErrorKind::InvalidPacketId)
        } else {
            let queue = self.packets[id.value].queue;
            if seq_index >= queue.known_count() {
                Err(
                    PacketAckErrorKind::SeqIndexAckedBeforeSent(
                        SeqIndexAckedBeforeSent { seq_index },
                    ),
                )
            } else {
                Ok(queue.is_acked(seq_index as int))
            }
        }
    }

    /// The packets after an ack for a part of one of them has arrived.
    pub open spec fn after_ack(self, id: PacketId, seq_index: SeqIndex, now: Instant) -> Self {
        if self.packets.contains_key(id.value) {
            self.with(id, self.packets[id.value].after_ack(seq_index, now))
        } else {
            self
        }
    }

    /// Replaces or adds a packet.
    pub open spec fn with(self, id: PacketId, packet: PacketOutView) -> Self {
        SendPacketBufferView { packets: self.packets.insert(id.value, packet), ..self }
    }

    /// Removes a packet.
    pub open spec fn without(self, id: PacketId) -> Self {
        SendPacketBufferView { packets: self.packets.remove(id.value), ..self }
    }

    /// Whether a datagram contains an ack.
    pub open spec fn is_ack(datagram: Seq<u8>) -> bool {
        kind_of(datagram) == Some(PacketKind::Ack) && datagram.len() >= PAYLOAD_START
    }

    /// What a received datagram leads to.
    pub open spec fn handling(self, datagram: Seq<u8>) -> Result<
        SentPacketHandling,
        HandlePacketError,
    > {
        if datagram.len() == 0 {
            Err(HandlePacketError::Empty)
        } else if kind_of(datagram) != Some(PacketKind::Ack) {
            Ok(SentPacketHandling::Unhandled)
        } else if datagram.len() < PAYLOAD_START {
            Err(HandlePacketError::Malformed)
        } else {
            let id = id_of(datagram);
            match self.ack_result(id, seq_index_of(datagram)) {
                Ok(duplicate) => Ok(SentPacketHandling::Ack { duplicate }),
                Err(kind) => Err(HandlePacketError::Ack(PacketAckError { id, kind })),
            }
        }
    }

    /// The packets after a datagram was received.
    pub open spec fn after_handling(self, datagram: Seq<u8>, now: Instant) -> Self {
        if Self::is_ack(datagram) {
            self.after_ack(id_of(datagram), seq_index_of(datagram), now)
        } else {
            self
        }
    }

    /// The packets that did not miss too many acks.
    pub open spec fn after_timeout(
        self,
        max_missed_acks: int,
        resend_delay: Duration,
        now: Instant,
    ) -> Self {
        SendPacketBufferView {
            packets: self.packets.restrict(
                self.packets.dom().filter(
                    |id: u128|
                        self.packets[id].missed_acks_at(resend_delay, now) <= max_missed_acks,
                ),
            ),
            ..self
        }
    }
}

/// Sent packets that are not yet fully acked.
pub struct SendPacketBuffer {
    batch_size: NonZeroBatchSize,
    packets: BTreeMap<u128, PacketOut>,
}

/// The views of all the packets.
pub open spec fn packet_views(packets: Map<u128, PacketOut>) -> Map<u128, PacketOutView> {
    packets.map_values(|packet: PacketOut| packet@)
}

impl View for SendPacketBuffer {
    type V = SendPacketBufferView;

    closed spec fn view(&self) -> SendPacketBufferView {
        SendPacketBufferView {
            batch_size: self.batch_size@ as int,
            packets: packet_views(self.packets@),
        }
    }
}

impl SendPacketBuffer {
    pub closed spec fn wf(&self) -> bool {
        &&& 1 <= self.batch_size@
        &&& forall|id: u128| #[trigger]
            self.packets@.contains_key(id) ==> self.packets@[id].wf()
    }

    /// Creates a new buffer without any sent packets.
    pub fn new(initial_batch_size: NonZeroBatchSize) -> (buffer: Self)
        ensures
            buffer.wf(),
            buffer@ == (SendPacketBufferView {
                batch_size: initial_batch_size@ as int,
                packets: Map::empty(),
            }),
    {
        let _at_least_one: u16 = initial_batch_size.get();
        let buffer = SendPacketBuffer {
            batch_size: initial_batch_size,
            packets: BTreeMap::new(),
        };
        assert(buffer@.packets =~= Map::empty());
        buffer
    }

    /// How many parts of a new packet are sent at once.
    pub fn batch_size(&self) -> (batch_size: NonZeroBatchSize)
        ensures
            batch_size@ == self@.batch_size,
    {
        self.batch_size
    }

    /// Handles incoming packets that are relevant for the sent packet buffer.
    ///
    /// Which is just [`PacketKind::Ack`], other packets are ignored.
    pub fn handle(&mut self, buf: &[u8], now: Instant) -> (result: Result<
        SentPacketHandling,
        HandlePacketError,
    >)
        requires
            old(self).wf(),
        ensures
            final(self).wf(),
            final(self)@ == old(self)@.after_handling(buf@, now),
            result == old(self)@.handling(buf@),
    {
        if buf.len() == 0 {
            return Err(HandlePacketError::Empty);
        }
        match PacketKind::from_byte(buf[0]) {
            Some(PacketKind::Ack) => {
                let id = match read_id(buf) {
                    Some(id) => id,
                    None => {
                        return Err(HandlePacketError::Malformed);
                    },
                };
                let seq_index: SeqIndex = match read_seq_index(buf) {
                    Some(seq_index) => seq_index,
                    None => {
                        return Err(HandlePacketError::Malformed);
                    },
                };
                match self.ack(id, seq_index, now) {
                    Ok(duplicate) => Ok(SentPacketHandling::Ack { duplicate }),
                    Err(kind) => Err(HandlePacketError::Ack(PacketAckError { id, kind })),
                }
            },
            _ => Ok(SentPacketHandling::Unhandled),
        }
    }

    /// Keeps track of a new packet after an attempt to send its first batch, and returns its id for
    /// tracking purposes.
    ///
    /// The first batch must not be empty.
    pub fn send(
        &mut self,
        id: PacketId,
        packet_queue: PacketQueue,
        outcome: Result<(), std::io::Error>,
        now: Instant,
    ) -> (result: Result<PacketId, std::io::Error>)
        requires
            old(self).wf(),
            packet_queue.wf(),
            pending(packet_queue@.packets).len() > 0,
        ensures
            final(self).wf(),
            match outcome {
                Ok(_) => {
                    &&& final(self)@ == old(self)@.with(
                        id,
                        PacketOutView::sent(packet_queue@, old(self)@.batch_size, now),
                    )
                    &&& result == Ok::<PacketId, std::io::Error>(id)
                },
                Err(error) => {
                    &&& final(self)@ == old(self)@
                    &&& result == Err::<PacketId, _>(error)
                },
            },
    {
        match PacketOut::send(packet_queue, self.batch_size, outcome, now) {
            Ok(packet) => {
                self.insert(id, packet);
                Ok(id)
            },
            Err(error) => Err(error),
        }
    }

    fn insert(&mut self, id: PacketId, packet: PacketOut)
        requires
            old(self).wf(),
            packet.wf(),
        ensures
            final(self).wf(),
            final(self)@ == old(self)@.with(id, packet@),
    {
        let _previous = self.packets.insert(id.value, packet);
        assert(self@.packets =~= old(self)@.packets.insert(id.value, packet@));
    }

    fn remove(&mut self, id: PacketId) -> (packet: Option<PacketOut>)
        requires
            old(self).wf(),
        ensures
            final(self).wf(),
            final(self)@ == old(self)@.without(id),
            packet is Some <==> old(self)@.packets.contains_key(id.value),
            packet matches Some(packet) ==> packet.wf() && packet@
                == old(self)@.packets[id.value],
    {
        let packet = self.packets.remove(&id.value);
        assert(self@.packets =~= old(self)@.packets.remove(id.value));
        packet
    }

    /// Starts a round in which all packets get the opportunity to send their next batch.
    ///
    /// They take their turns in the order of their ids.
    pub fn start_round(&mut self) -> (round: Round)
        requires
            old(self).wf(),
        ensures
            final(self).wf(),
            are_sorted_keys(round@, old(self)@.packets.dom()),
            final(self)@ == (SendPacketBufferView {
                batch_size: if round@.len() == 0 {
                    old(self)@.batch_size
                } else {
                    mean_batch_size(
                        batch_size_sum(old(self)@.packets, round@),
                        round@.len() as int,
                    )
                },
                ..old(self)@
            }),
    {
        let ids = sorted_keys(&self.packets);
        let ghost views = self@.packets;
        assert(views.dom() =~= self.packets@.dom());
        let mut batch_size: usize = 0;
        let mut i: usize = 0;
        while i < ids.len()
            invariant
                i <= ids@.len(),
                views == packet_views(self.packets@),
                are_sorted_keys(ids@, self.packets@.dom()),
                self.wf(),
                batch_size == if batch_size_sum(views, ids@.take(i as int)) <= usize::MAX {
                    batch_size_sum(views, ids@.take(i as int))
                } else {
                    usize::MAX as int
                },
                *self == *old(self),
            decreases ids@.len() - i,
        {
            let id: u128 = ids[i];
            proof {
                lemma_take_next(ids@, self.packets@.dom(), i as int);
            }
            if let Some(packet) = self.packets.get(&id) {
                proof {
                    packet.lemma_wf();
                }
                let packet_batch_size: u16 = packet.batch_size().get();
                batch_size = batch_size.saturating_add(packet_batch_size as usize);
            }
            i = i + 1;
        }
        assert(ids@.take(ids@.len() as int) =~= ids@);
        if ids.len() != 0 {
            let mean: usize = batch_size / ids.len();
            let mean: u16 = if mean <= u16::MAX as usize {
                mean as u16
            } else {
                u16::MAX
            };
            self.batch_size = match NonZeroBatchSize::new(mean) {
                Some(mean) => mean,
                None => NonZeroBatchSize::min_value(),
            };
        }
        Round::new(ids)
    }

    /// Starts sending the next batch of a packet if it is time to do so, and returns how many parts
    /// have to be received from the channel for it.
    fn start_batch(&mut self, id: PacketId, resend_delay: Duration, now: Instant) -> (wanted:
        Option<usize>)
        requires
            old(self).wf(),
        ensures
            final(self).wf(),
            ({
                let is_due = is_due(old(self)@.packets, id.value, resend_delay, now);
                &&& wanted is Some <==> is_due
                &&& final(self)@ == if is_due {
                    old(self)@.with(id, old(self)@.packets[id.value].rebalanced())
                } else {
                    old(self)@
                }
            }),
            wanted matches Some(wanted) ==> wanted == final(self)@.packets[id.value].queue.wanted(
                final(self)@.packets[id.value].batch_size,
            ),
    {
        match self.remove(id) {
            Some(mut packet) => {
                let wanted = packet.start_batch(resend_delay, now);
                self.insert(id, packet);
                assert(self@ =~= old(self)@.with(id, packet@));
                assert(old(self)@ =~= old(self)@.with(id, old(self)@.packets[id.value]));
                wanted
            },
            None => {
                assert(self@ =~= old(self)@);
                None
            },
        }
    }

    /// Starts sending the next batch of the first packet in the round that has something to send.
    ///
    /// Returns that packet and how many parts have to be received from the channel for it. All
    /// packets before it miss their turn.
    pub fn next_batch(&mut self, round: &mut Round, resend_delay: Duration, now: Instant) -> (turn:
        Option<(PacketId, usize)>)
        requires
            old(self).wf(),
        ensures
            final(self).wf(),
            ({
                let packets = old(self)@.packets;
                let missed = missed_turns(packets, old(round)@, resend_delay, now);
                match turn {
                    Some((id, wanted)) => {
                        &&& missed < old(round)@.len()
                        &&& id.value == old(round)@[missed]
                        &&& final(round)@ == old(round)@.skip(missed + 1)
                        &&& is_due(packets, id.value, resend_delay, now)
                        &&& final(self)@ == old(self)@.with(id, packets[id.value].rebalanced())
                        &&& wanted == final(self)@.packets[id.value].queue.wanted(
                            final(self)@.packets[id.value].batch_size,
                        )
                    },
                    None => {
                        &&& missed == old(round)@.len()
                        &&& final(round)@ == Seq::<u128>::empty()
                        &&& final(self)@ == old(self)@
                    },
                }
            }),
    {
        let ghost packets = self@.packets;
        let ghost ids = round@;
        let ghost mut missed: int = 0;
        assert(ids.skip(0) =~= ids);
        loop
            invariant
                self.wf(),
                self@ == old(self)@,
                packets == old(self)@.packets,
                ids == old(round)@,
                0 <= missed <= ids.len(),
                round@ == ids.skip(missed),
                missed_turns(packets, ids, resend_delay, now) == missed + missed_turns(
                    packets,
                    round@,
                    resend_delay,
                    now,
                ),
            decreases ids.len() - missed,
        {
            let id = match round.take_turn() {
                Some(id) => id,
                None => {
                    assert(round@ =~= Seq::empty());
                    return None;
                },
            };
            assert(ids.skip(missed).drop_first() =~= ids.skip(missed + 1));
            if let Some(wanted) = self.start_batch(id, resend_delay, now) {
                return Some((id, wanted));
            }
            proof {
                missed = missed + 1;
            }
        }
    }

    /// Takes in the parts of a packet that were received from the channel, and returns what has to
    /// be sent.
    pub fn batch(&mut self, id: PacketId, supplied: Vec<PacketBuffer>) -> (datagrams: Vec<Vec<u8>>)
        requires
            old(self).wf(),
            old(self)@.packets.contains_key(id.value),
            all_wf(supplied@),
            none_acked(buffer_views(supplied@)),
            supplied@.len() <= old(self)@.packets[id.value].queue.wanted(
                old(self)@.packets[id.value].batch_size,
            ),
        ensures
            final(self).wf(),
            final(self)@ == old(self)@.with(
                id,
                PacketOutView {
                    queue: old(self)@.packets[id.value].queue.after_supply(
                        buffer_views(supplied@),
                    ),
                    ..old(self)@.packets[id.value]
                },
            ),
            datagram_views(datagrams@) == final(self)@.packets[id.value].transmission(id),
            datagrams@.len() > 0,
    {
        let mut packet = self.remove(id).unwrap();
        let datagrams = packet.batch(id, supplied);
        self.insert(id, packet);
        assert(self@ =~= old(self)@.with(id, packet@));
        datagrams
    }

    /// Concludes sending a batch of a packet, which is forgotten if it consisted of a done packet.
    ///
    /// Returns whether the packet was forgotten. The round is over if something could not be sent.
    pub fn finish_batch(
        &mut self,
        round: &mut Round,
        id: PacketId,
        outcome: Result<(), std::io::Error>,
        now: Instant,
    ) -> (result: Result<bool, std::io::Error>)
        requires
            old(self).wf(),
            old(self)@.packets.contains_key(id.value),
        ensures
            final(self).wf(),
            match outcome {
                Ok(_) => {
                    let packet = old(self)@.packets[id.value];
                    let is_done = pending(packet.queue.packets).len() == 0;
                    &&& result == Ok::<bool, std::io::Error>(is_done)
                    &&& final(round)@ == old(round)@
                    &&& final(self)@ == if is_done {
                        old(self)@.without(id)
                    } else {
                        old(self)@.with(id, packet.after_batch(now))
                    }
                },
                Err(error) => {
                    &&& final(self)@ == old(self)@
                    &&& result == Err::<bool, _>(error)
                    &&& final(round)@ == Seq::<u128>::empty()
                },
            },
    {
        let mut packet = self.remove(id).unwrap();
        match packet.finish_batch(outcome, now) {
            Ok(true) => Ok(true),
            Ok(false) => {
                self.insert(id, packet);
                assert(self@ =~= old(self)@.with(id, packet@));
                Ok(false)
            },
            Err(error) => {
                self.insert(id, packet);
                assert(self@ =~= old(self)@);
                round.end();
                Err(error)
            },
        }
    }

    /// The packet with the given id.
    pub fn packet(&self, id: PacketId) -> (packet: Option<&PacketOut>)
        requires
            self.wf(),
        ensures
            packet is Some <==> self@.packets.contains_key(id.value),
            packet matches Some(packet) ==> packet.wf() && packet@ == self@.packets[id.value],
    {
        self.packets.get(&id.value)
    }

    /// Marks a packet part as acked and returns the overall state.
    pub fn ack(&mut self, id: PacketId, seq_index: SeqIndex, now: Instant) -> (result: Result<
        bool,
        PacketAckErrorKind,
    >)
        requires
            old(self).wf(),
        ensures
            final(self).wf(),
            final(self)@ == old(self)@.after_ack(id, seq_index, now),
            result == old(self)@.ack_result(id, seq_index),
    {
        match self.remove(id) {
            Some(mut packet) => {
                let result = packet.ack(seq_index, now);
                self.insert(id, packet);
                assert(self@ =~= old(self)@.with(id, packet@));
                match result {
                    Ok(duplicate) => Ok(duplicate),
                    Err(error) => Err(PacketAckErrorKind::SeqIndexAckedBeforeSent(error)),
                }
            },
            None => {
                assert(self@ =~= old(self)@);
                Err(PacketAckErrorKind::InvalidPacketId)
            },
        }
    }

    /// Forget packets that did not get acks in a long time.
    pub fn timeout_packets(&mut self, max_missed_acks: usize, resend_delay: Duration, now: Instant)
        requires
            old(self).wf(),
        ensures
            final(self).wf(),
            final(self)@ == old(self)@.after_timeout(
                max_missed_acks as int,
                resend_delay,
                now,
            ),
    {
        let ids = sorted_keys(&self.packets);
        let ghost before = self@;
        assert(before.packets.dom() =~= self.packets@.dom());
        let mut i: usize = 0;
        while i < ids.len()
            invariant
                i <= ids@.len(),
                are_sorted_keys(ids@, before.packets.dom()),
                before == old(self)@,
                self.wf(),
                self@.batch_size == before.batch_size,
                forall|id: u128| #[trigger]
                    self@.packets.contains_key(id) <==> before.packets.contains_key(id) && (
                    before.packets[id].missed_acks_at(resend_delay, now) <= max_missed_acks
                        || !ids@.take(i as int).contains(id)),
                forall|id: u128| #[trigger]
                    self@.packets.contains_key(id) ==> self@.packets[id] == before.packets[id],
            decreases ids@.len() - i,
        {
            let id: u128 = ids[i];
            proof {
                lemma_take_next(ids@, before.packets.dom(), i as int);
            }
            let is_outdated = match self.packets.get(&id) {
                Some(packet) => packet.missed_acks(resend_delay, now) > max_missed_acks,
                None => false,
            };
            if is_outdated {
                let _packet = self.remove(PacketId { value: id });
            }
            i = i + 1;
        }
        proof {
            assert(ids@.take(ids@.len() as int) =~= ids@);
            assert(self@.packets =~= before.after_timeout(
                max_missed_acks as int,
                resend_delay,
                now,
            ).packets);
        }
    }
}

/// The ack for a part of a packet, when it arrives at the sender of that packet, acks that part.
pub proof fn law_ack_handling(
    buffer: SendPacketBufferView,
    id: PacketId,
    seq_index: SeqIndex,
    now: Instant,
)
    requires
        buffer.packets.contains_key(id.value),
        seq_index < buffer.packets[id.value].queue.known_count(),
    ensures
        buffer.handling(ack_datagram(id, seq_index)) == Ok::<_, HandlePacketError>(
            SentPacketHandling::Ack {
                duplicate: buffer.packets[id.value].queue.is_acked(seq_index as int),
            },
        ),
        buffer.after_handling(ack_datagram(id, seq_index), now) == buffer.with(
            id,
            buffer.packets[id.value].after_ack(seq_index, now),
        ),
{
    law_ack_datagram(id, seq_index);
}

/// A packet is kept, as it is, if and only if it has not missed more acks than allowed, where the last
/// batch only counts once the whole delay has passed.
pub proof fn law_send_timeout(
    buffer: SendPacketBufferView,
    max_missed_acks: int,
    resend_delay: Duration,
    now: Instant,
    id: u128,
)
    requires
        buffer.packets.contains_key(id) ==> 0 <= buffer.packets[id].missed_acks < usize::MAX,
    ensures
        ({
            let after = buffer.after_timeout(max_missed_acks, resend_delay, now);
            let packet = buffer.packets[id];
            let is_missed = !packet.is_answered && (resend_delay.nanos == 0 || now.nanos
                >= packet.last_send.nanos + resend_delay.nanos);
            &&& after.packets.contains_key(id) <==> buffer.packets.contains_key(id) && if is_missed {
                packet.missed_acks + 1 <= max_missed_acks
            } else {
                packet.missed_acks <= max_missed_acks
            }
            &&& after.packets.contains_key(id) ==> after.packets[id] == packet
            &&& after.batch_size == buffer.batch_size
        }),
{
}

/// An ack is a duplicate if its part was acked before, it is too early if its part is not known, and
/// it is invalid if its packet is not known.
pub proof fn law_ack_result(buffer: SendPacketBufferView, id: PacketId, seq_index: SeqIndex)
    requires
        buffer.packets.contains_key(id.value) ==> buffer.packets[id.value].queue.wf(),
    ensures
        ({
            let queue = buffer.packets[id.value].queue;
            let offset = seq_index - queue.first_unacked;
            let result = buffer.ack_result(id, seq_index);
            &&& !buffer.packets.contains_key(id.value) ==> result == Err::<bool, _>(
                PacketAckErrorKind::InvalidPacketId,
            )
            &&& buffer.packets.contains_key(id.value) ==> {
                &&& offset >= queue.packets.len() ==> result == Err::<bool, _>(
                    PacketAckErrorKind::SeqIndexAckedBeforeSent(
                        SeqIndexAckedBeforeSent { seq_index },
                    ),
                )
                &&& 0 <= offset < queue.packets.len() ==> result == Ok::<_, PacketAckErrorKind>(
                    queue.packets[offset].acked,
                )
                &&& offset < 0 ==> result == Ok::<_, PacketAckErrorKind>(true)
            }
        }),
{
}

/// An ack only concerns the packet that it is for.
pub proof fn law_ack_of_other(
    buffer: SendPacketBufferView,
    id: PacketId,
    seq_index: SeqIndex,
    now: Instant,
    other: u128,
)
    ensures
        ({
            let after = buffer.after_ack(id, seq_index, now);
            &&& after.batch_size == buffer.batch_size
            &&& after.packets.contains_key(other) <==> buffer.packets.contains_key(other)
            &&& other != id.value && buffer.packets.contains_key(other) ==> after.packets[other]
                == buffer.packets[other]
            &&& other == id.value && buffer.packets.contains_key(other) ==> after.packets[other]
                == buffer.packets[other].after_ack(seq_index, now)
        }),
{
}

/// Only datagrams that start with the byte for acks are handled, and they have to be long enough for
/// the id and the sequence index.
pub proof fn law_only_acks(buffer: SendPacketBufferView, datagram: Seq<u8>, now: Instant)
    ensures
        datagram.len() == 0 ==> buffer.handling(datagram) == Err::<SentPacketHandling, _>(
            HandlePacketError::Empty,
        ),
        datagram.len() > 0 && datagram[0] != 4 ==> buffer.handling(datagram) == Ok::<
            _,
            HandlePacketError,
        >(SentPacketHandling::Unhandled),
        0 < datagram.len() < 21 && datagram[0] == 4 ==> buffer.handling(datagram) == Err::<
            SentPacketHandling,
            _,
        >(HandlePacketError::Malformed),
        datagram.len() == 0 || datagram[0] != 4 || datagram.len() < 21 ==> buffer.after_handling(
            datagram,
            now,
        ) == buffer,
        datagram.len() >= 21 && datagram[0] == 4 ==> buffer.after_handling(datagram, now)
            == buffer.after_ack(id_of(datagram), seq_index_of(datagram), now),
{
}

/// Every packet contributes its batch size to the sum once.
pub proof fn law_batch_size_sum(packets: Map<u128, PacketOutView>, ids: Seq<u128>, id: u128)
    ensures
        batch_size_sum(packets, Seq::empty()) == 0,
        batch_size_sum(packets, ids.push(id)) == batch_size_sum(packets, ids)
            + packets[id].batch_size,
{
    assert(ids.push(id).drop_last() =~= ids);
}

/// The mean is rounded down, which makes a difference of less than one for every packet.
pub proof fn law_mean(sum: int, count: int)
    requires
        1 <= count <= sum,
        count <= usize::MAX,
        sum <= 65535 * count,
    ensures
        ({
            let mean = mean_batch_size(sum, count);
            &&& 1 <= mean <= 65535
            &&& sum <= usize::MAX ==> mean * count <= sum < mean * count + count
            &&& sum > usize::MAX ==> mean * count <= usize::MAX < mean * count + count
        }),
{
    let sum = if sum <= usize::MAX {
        sum
    } else {
        usize::MAX as int
    };
    let mean = sum / count;
    assert(mean * count <= sum < mean * count + count) by (nonlinear_arith)
        requires
            count >= 1,
            mean == sum / count,
    ;
    assert(1 <= mean <= 65535) by (nonlinear_arith)
        requires
            1 <= count <= sum,
            sum <= 65535 * count,
            mean * count <= sum < mean * count + count,
    ;
}

/// Packets that all have the same batch size are not changed by taking the mean.
pub proof fn law_mean_of_equals(packets: Map<u128, PacketOutView>, ids: Seq<u128>, batch_size: int)
    requires
        ids.len() > 0,
        1 <= batch_size <= 65535,
        forall|i: int| 0 <= i < ids.len() ==> packets[#[trigger] ids[i]].batch_size == batch_size,
    ensures
        batch_size_sum(packets, ids) == batch_size * ids.len(),
        batch_size * ids.len() <= usize::MAX ==> mean_batch_size(
            batch_size_sum(packets, ids),
            ids.len() as int,
        ) == batch_size,
    decreases ids.len(),
{
    let rest = ids.drop_last();
    let count = ids.len() as int;
    if rest.len() > 0 {
        assert forall|i: int| 0 <= i < rest.len() implies packets[#[trigger] rest[i]].batch_size
            == batch_size by {
            assert(rest[i] == ids[i]);
        }
        law_mean_of_equals(packets, rest, batch_size);
    } else {
        assert(batch_size_sum(packets, rest) == 0);
    }
    assert(packets[ids[count - 1]].batch_size == batch_size);
    assert(batch_size * (count - 1) + batch_size == batch_size * count) by (nonlinear_arith);
    assert((batch_size * count) / count == batch_size) by (nonlinear_arith)
        requires
            count >= 1,
    ;
}

/// Adding, replacing and removing a packet concerns no other one.
pub proof fn law_one_packet(
    buffer: SendPacketBufferView,
    id: PacketId,
    packet: PacketOutView,
    other: u128,
)
    ensures
        buffer.with(id, packet).batch_size == buffer.batch_size,
        buffer.with(id, packet).packets.contains_key(id.value),
        buffer.with(id, packet).packets[id.value] == packet,
        buffer.without(id).batch_size == buffer.batch_size,
        !buffer.without(id).packets.contains_key(id.value),
        other != id.value ==> {
            &&& buffer.with(id, packet).packets.contains_key(other)
                <==> buffer.packets.contains_key(other)
            &&& buffer.without(id).packets.contains_key(other) <==> buffer.packets.contains_key(
                other,
            )
            &&& buffer.packets.contains_key(other) ==> buffer.with(id, packet).packets[other]
                == buffer.packets[other] && buffer.without(id).packets[other]
                == buffer.packets[other]
        },
{
}

} // verus!
