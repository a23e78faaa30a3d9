//! Sending packets reliably.

use vstd::prelude::*;

use super::buffer::{
    all_unacked, all_wf, buffer_views, unacked, PacketBuffer, PacketBufferView,
};
use super::error::SeqIndexAckedBeforeSent;
use super::id::PacketId;
use super::queue::{
    after_acks, datagram_views, law_acks, law_nothing_pending, law_pending, leading_acked,
    lemma_leading_acked, none_acked, pending, up_to, PacketQueue, PacketQueueView,
};
use super::wire::{done, done_datagram};
use super::{BatchSize, NonZeroBatchSize, SeqIndex, PACKET_BUFFER_SIZE};
use crate::time::{Duration, Instant};

verus! {

/// How many parts are sent at once next, given how many were sent at once at most, and how many of
/// the `last_batch_size` parts that were sent last have been acked.
///
/// This is doubled as long as everything is acked, and cut in half otherwise.
pub open spec fn balanced_batch_size(
    old_batch_size: int,
    last_batch_acks: int,
    last_batch_size: int,
) -> int {
    if last_batch_acks >= last_batch_size {
        let doubled = if 2 * last_batch_size <= BatchSize::MAX {
            2 * last_batch_size
        } else {
            BatchSize::MAX as int
        };
        if old_batch_size >= doubled {
            old_batch_size
        } else {
            doubled
        }
    } else if old_batch_size / 2 >= 1 {
        old_batch_size / 2
    } else {
        1
    }
}

/// A [`PacketOut`].
#[verifier::ext_equal]
pub struct PacketOutView {
    pub queue: PacketQueueView,
    pub last_send: Instant,
    pub awaiting_ack_since: Instant,
    pub batch_size: int,
    pub last_batch_size: int,
    pub last_batch_acks: int,
    pub is_answered: bool,
    pub missed_acks: int,
}

impl PacketOutView {
    /// A packet whose first batch has just been sent.
    pub open spec fn sent(queue: PacketQueueView, batch_size: int, now: Instant) -> Self {
        PacketOutView {
            queue,
            last_send: now,
            awaiting_ack_since: now,
            batch_size,
            last_batch_size: up_to(pending(queue.packets), batch_size).len() as int,
            last_batch_acks: 0,
            is_answered: false,
            missed_acks: 0,
        }
    }

    /// How many batches in a row did not result in any ack, including the last one if its time is
    /// over.
    pub open spec fn missed_acks_at(self, resend_delay: Duration, now: Instant) -> int {
        if !self.is_answered && self.is_due(resend_delay, now) && self.missed_acks < usize::MAX {
            self.missed_acks + 1
        } else {
            self.missed_acks
        }
    }

    /// Whether it is time to send the next batch.
    pub open spec fn is_due(self, resend_delay: Duration, now: Instant) -> bool {
        self.last_send.elapsed_spec(now).nanos >= resend_delay.nanos
    }

    /// Adjusts the batch size before a batch is sent.
    pub open spec fn rebalanced(self) -> Self {
        PacketOutView {
            batch_size: balanced_batch_size(
                self.batch_size,
                self.last_batch_acks,
                self.last_batch_size,
            ),
            ..self
        }
    }

    /// What is sent next: the parts that are not acked, or a done packet if there are none.
    pub open spec fn transmission(self, id: PacketId) -> Seq<Seq<u8>> {
        if pending(self.queue.packets).len() == 0 {
            seq![done_datagram(id)]
        } else {
            up_to(pending(self.queue.packets), self.batch_size)
        }
    }

    /// The packet after a batch has been sent.
    pub open spec fn after_batch(self, now: Instant) -> Self {
        let count = up_to(pending(self.queue.packets), self.batch_size).len() as int;
        PacketOutView {
            last_send: now,
            last_batch_size: if count == 0 {
                self.last_batch_size
            } else {
                count
            },
            last_batch_acks: 0,
            is_answered: false,
            missed_acks: if !self.is_answered && self.missed_acks < usize::MAX {
                self.missed_acks + 1
            } else {
                self.missed_acks
            },
            ..self
        }
    }

    /// The packet after an ack has arrived.
    pub open spec fn after_ack(self, seq_index: SeqIndex, now: Instant) -> Self {
        let is_new = seq_index < self.queue.known_count() && !self.queue.is_acked(
            seq_index as int,
        );
        PacketOutView {
            queue: self.queue.after_ack(seq_index as int),
            awaiting_ack_since: now,
            last_batch_acks: if is_new && self.last_batch_acks < BatchSize::MAX {
                self.last_batch_acks + 1
            } else {
                self.last_batch_acks
            },
            is_answered: true,
            missed_acks: 0,
            ..self
        }
    }
}

/// Stores packets of any size so that they can be sent reliably.
///
/// Packets are automatically split into chunks.
pub struct PacketOut {
    /// Contains the packets to be sent.
    packet_queue: PacketQueue,
    /// The last time a batch of packets was sent.
    last_send: Instant,
    /// Updated whenever an ack is received.
    awaiting_ack_since: Instant,
    /// Up to how many packets are sent at once.
    batch_size: NonZeroBatchSize,
    /// How many packets were sent in the last batch.
    last_batch_size: NonZeroBatchSize,
    /// How many acks have been received for the last batch.
    last_batch_acks: BatchSize,
    /// Whether any ack has been received since the last batch.
    is_answered: bool,
    /// How many batches in a row did not result in any ack, not including the last one; used to time
    /// out old packets.
    missed_acks: usize,
}

impl View for PacketOut {
    type V = PacketOutView;

    closed spec fn view(&self) -> PacketOutView {
        PacketOutView {
            queue: self.packet_queue@,
            last_send: self.last_send,
            awaiting_ack_since: self.awaiting_ack_since,
            batch_size: self.batch_size@ as int,
            last_batch_size: self.last_batch_size@ as int,
            last_batch_acks: self.last_batch_acks as int,
            is_answered: self.is_answered,
            missed_acks: self.missed_acks as int,
        }
    }
}

impl PacketOut {
    pub closed spec fn wf(&self) -> bool {
        &&& self.packet_queue.wf()
        &&& 1 <= self.batch_size@
        &&& 1 <= self.last_batch_size@
    }

    pub proof fn lemma_wf(&self)
        requires
            self.wf(),
        ensures
            self@.queue.wf(),
            1 <= self@.batch_size <= BatchSize::MAX,
            1 <= self@.last_batch_size <= BatchSize::MAX,
            0 <= self@.last_batch_acks <= BatchSize::MAX,
            0 <= self@.missed_acks <= usize::MAX,
    {
        self.packet_queue.lemma_wf();
    }

    /// Keeps track of a packet after an attempt to send its first batch.
    ///
    /// The first batch must not be empty. It does not matter if sending it would have blocked, since
    /// that is the same as if it got lost.
    pub fn send(
        packet_queue: PacketQueue,
        initial_batch_size: NonZeroBatchSize,
        outcome: Result<(), std::io::Error>,
        now: Instant,
    ) -> (result: Result<Self, std::io::Error>)
        requires
            packet_queue.wf(),
            pending(packet_queue@.packets).len() > 0,
        ensures
            match outcome {
                Ok(_) => result matches Ok(packet) && packet.wf() && packet@ == PacketOutView::sent(
                    packet_queue@,
                    initial_batch_size@ as int,
                    now,
                ),
                Err(error) => result == Err::<Self, _>(error),
            },
    {
        match outcome {
            Ok(()) => {
                let limit: u16 = initial_batch_size.get();
                let count: usize = packet_queue.pending_count(limit as usize);
                let last_batch_size = NonZeroBatchSize::new(count as u16).unwrap();
                Ok(
                    PacketOut {
                        packet_queue,
                        last_send: now,
                        awaiting_ack_since: now,
                        batch_size: initial_batch_size,
                        last_batch_size,
                        last_batch_acks: 0,
                        is_answered: false,
                        missed_acks: 0,
                    },
                )
            },
            Err(error) => Err(error),
        }
    }

    /// Marks the given packet as acked and returns true if it was already acked previously.
    pub fn ack(&mut self, seq_index: SeqIndex, now: Instant) -> (result: Result<
        bool,
        SeqIndexAckedBeforeSent,
    >)
        requires
            old(self).wf(),
        ensures
            final(self).wf(),
            final(self)@ == old(self)@.after_ack(seq_index, now),
            result == if seq_index >= old(self)@.queue.known_count() {
                Err(SeqIndexAckedBeforeSent { seq_index })
            } else {
                Ok(old(self)@.queue.is_acked(seq_index as int))
            },
    {
        self.awaiting_ack_since = now;
        self.is_answered = true;
        self.missed_acks = 0;
        match self.packet_queue.ack(seq_index) {
            Ok(true) => Ok(true),
            Ok(false) => {
                self.last_batch_acks = self.last_batch_acks.saturating_add(1);
                Ok(false)
            },
            Err(error) => Err(error),
        }
    }

    /// Starts sending the next batch if it is time to do so, and returns how many parts have to be
    /// received from the channel for it.
    pub fn start_batch(&mut self, resend_delay: Duration, now: Instant) -> (wanted: Option<usize>)
        requires
            old(self).wf(),
        ensures
            final(self).wf(),
            final(self)@ == if old(self)@.is_due(resend_delay, now) {
                old(self)@.rebalanced()
            } else {
                old(self)@
            },
            wanted is Some <==> old(self)@.is_due(resend_delay, now),
            wanted matches Some(wanted) ==> wanted == final(self)@.queue.wanted(
                final(self)@.batch_size,
            ),
    {
        if self.last_send.elapsed(now).nanos < resend_delay.nanos {
            return None;
        }
        self.batch_size = Self::balance_batch_size(
            self.batch_size,
            self.last_batch_acks,
            self.last_batch_size,
        );
        let batch_size: u16 = self.batch_size.get();
        Some(self.packet_queue.wanted(batch_size as usize))
    }

    /// Takes in the parts that were received from the channel, and returns what has to be sent.
    pub fn batch(&mut self, id: PacketId, supplied: Vec<PacketBuffer>) -> (datagrams: Vec<Vec<u8>>)
        requires
            old(self).wf(),
            all_wf(supplied@),
            none_acked(buffer_views(supplied@)),
            supplied@.len() <= old(self)@.queue.wanted(old(self)@.batch_size),
        ensures
            final(self).wf(),
            final(self)@ == (PacketOutView {
                queue: old(self)@.queue.after_supply(buffer_views(supplied@)),
                ..old(self)@
            }),
            datagram_views(datagrams@) == final(self)@.transmission(id),
            datagrams@.len() > 0,
    {
        proof {
            self.packet_queue.lemma_wf();
        }
        self.packet_queue.supply(supplied);
        let batch_size: u16 = self.batch_size.get();
        let mut datagrams = self.packet_queue.batch(batch_size as usize);
        assert(datagram_views(datagrams@).len() == datagrams@.len());
        if datagrams.len() == 0 {
            datagrams.push(done(id));
            assert(datagram_views(datagrams@) =~= seq![done_datagram(id)]);
        }
        datagrams
    }

    /// Concludes sending a batch and returns true if it consisted of a done packet.
    pub fn finish_batch(&mut self, outcome: Result<(), std::io::Error>, now: Instant) -> (result:
        Result<bool, std::io::Error>)
        requires
            old(self).wf(),
        ensures
            final(self).wf(),
            match outcome {
                Ok(_) => {
                    &&& final(self)@ == old(self)@.after_batch(now)
                    &&& result == Ok::<bool, std::io::Error>(
                        pending(old(self)@.queue.packets).len() == 0,
                    )
                },
                Err(error) => {
                    &&& final(self)@ == old(self)@
                    &&& result == Err::<bool, _>(error)
                },
            },
    {
        match outcome {
            Ok(()) => {
                let batch_size: u16 = self.batch_size.get();
                let count: usize = self.packet_queue.pending_count(batch_size as usize);
                let is_done = match NonZeroBatchSize::new(count as u16) {
                    Some(count) => {
                        self.last_batch_size = count;
                        false
                    },
                    None => true,
                };
                if !self.is_answered {
                    self.missed_acks = self.missed_acks.saturating_add(1);
                }
                self.is_answered = false;
                self.last_batch_acks = 0;
                self.last_send = now;
                Ok(is_done)
            },
            Err(error) => Err(error),
        }
    }

    /// Returns an estimate for the number of payload bytes that have been acked.
    pub fn acked_bytes(&self) -> (bytes: u64)
        requires
            self.wf(),
        ensures
            bytes == self@.queue.first_unacked * PACKET_BUFFER_SIZE,
    {
        let first_unacked: u64 = self.packet_queue.first_unacked();
        let size: u64 = PACKET_BUFFER_SIZE as u64;
        assert(first_unacked * size <= u64::MAX) by (nonlinear_arith)
            requires
                first_unacked <= 0x1_0000_0000,
                size == 512,
        ;
        first_unacked * size
    }

    /// Since when the sender is waiting for an ack.
    pub fn awaiting_ack_since(&self) -> (since: Instant)
        ensures
            since == self@.awaiting_ack_since,
    {
        self.awaiting_ack_since
    }

    /// Up to this many packets are being sent at once.
    ///
    /// This value is balanced automatically.
    pub fn batch_size(&self) -> (batch_size: NonZeroBatchSize)
        ensures
            batch_size@ == self@.batch_size,
    {
        self.batch_size
    }

    /// How many batches in a row did not result in any ack, including the last one if its time is
    /// over.
    pub fn missed_acks(&self, resend_delay: Duration, now: Instant) -> (count: usize)
        ensures
            count == self@.missed_acks_at(resend_delay, now),
    {
        if !self.is_answered && self.last_send.elapsed(now).nanos >= resend_delay.nanos {
            self.missed_acks.saturating_add(1)
        } else {
            self.missed_acks
        }
    }

    /// Returns an estimate for the current number of bytes of the payload, sent by the last batch.
    ///
    /// This is only an estimate and might even be bigger than the payload, but since this is
    /// intended to be used for measuring throughput, it should not matter all that much.
    pub fn last_batch_bytes(&self) -> (bytes: usize)
        ensures
            bytes == self@.last_batch_size * PACKET_BUFFER_SIZE,
    {
        let last_batch_size: u16 = self.last_batch_size.get();
        last_batch_size as usize * PACKET_BUFFER_SIZE
    }

    /// Adjusts the batch size based on the number of acked chunks.
    pub fn balance_batch_size(
        old_batch_size: NonZeroBatchSize,
        last_batch_acks: BatchSize,
        last_batch_size: NonZeroBatchSize,
    ) -> (batch_size: NonZeroBatchSize)
        ensures
            batch_size@ == balanced_batch_size(
                old_batch_size@ as int,
                last_batch_acks as int,
                last_batch_size@ as int,
            ),
            batch_size@ >= 1,
    {
        // acked_count might be greater if the client is pretending to receive packets that were
        // never sent; since the sender does not remember which packets it sent, just ignore it
        let batch_size = if last_batch_acks >= last_batch_size.get() {
            // all packets of the last batch were acked, try up to twice as much next time
            //
            // using last_batch_size instead of old_batch_size prevents the batch size from growing
            // indefinitely if there are a lot of tiny packets that all get acked
            let doubled_last_batch_size = last_batch_size.saturating_mul(
                NonZeroBatchSize::new(2).unwrap(),
            );
            // a batch can contain less than old_batch_size packets, never lower it
            old_batch_size.max(doubled_last_batch_size)
        } else {
            // not all packets of the last batch were acked, cut the batch size in half
            //
            // this uses old_batch_size instead of last_batch_size, since the last batch might have
            // dropped some packets despite being e.g. just a single packet, which would lower the
            // batch size down all the way to one unnecessarily
            let halved: u16 = old_batch_size.get() / 2;
            // a batch should always contain at least one packet
            match NonZeroBatchSize::new(halved) {
                Some(halved) => halved,
                None => NonZeroBatchSize::min_value(),
            }
        };
        let _at_least_one: u16 = batch_size.get();
        batch_size
    }
}

/// The batch size never shrinks as long as everything is acked, never grows otherwise, and there is
/// always at least one part in a batch.
pub proof fn law_batch_size(old_batch_size: int, last_batch_acks: int, last_batch_size: int)
    requires
        1 <= old_batch_size <= BatchSize::MAX,
        1 <= last_batch_size <= BatchSize::MAX,
        0 <= last_batch_acks <= BatchSize::MAX,
    ensures
        ({
            let new = balanced_batch_size(old_batch_size, last_batch_acks, last_batch_size);
            &&& 1 <= new <= BatchSize::MAX
            &&& last_batch_acks >= last_batch_size ==> new >= old_batch_size
            &&& last_batch_acks < last_batch_size ==> new <= old_batch_size
        }),
{
}

/// A packet that gets no acks is resent as often as it is allowed to miss acks, and no more.
///
/// Being resent without any ack is counted, it is only kept for being resent again as long as the
/// count is below the limit, and an ack resets the count.
pub proof fn law_resend_limit(
    packet: PacketOutView,
    max_missed_acks: usize,
    resend_delay: Duration,
    now: Instant,
)
    requires
        packet.is_due(resend_delay, now),
        !packet.is_answered,
        0 <= packet.missed_acks < usize::MAX,
    ensures
        packet.missed_acks_at(resend_delay, now) <= max_missed_acks <==> packet.missed_acks
            < max_missed_acks,
        packet.rebalanced().after_batch(now).missed_acks == packet.missed_acks + 1,
        forall|seq_index: SeqIndex| (#[trigger] packet.after_ack(seq_index, now)).missed_acks == 0,
        forall|seq_index: SeqIndex|
            (#[trigger] packet.after_ack(seq_index, now)).missed_acks_at(resend_delay, now) == 0,
{
}

/// Nothing but parts that are not acked is sent, and never more than the batch size allows. Once all
/// parts are acked, the receiver is told that the sender is done.
pub proof fn law_transmission(packet: PacketOutView, id: PacketId)
    requires
        packet.queue.wf(),
        packet.batch_size >= 1,
    ensures
        ({
            let datagrams = packet.transmission(id);
            let all_acked = forall|index: int|
                0 <= index < packet.queue.known_count() ==> #[trigger] packet.queue.is_acked(index);
            &&& all_acked ==> datagrams == seq![done_datagram(id)]
            &&& !all_acked ==> {
                &&& 1 <= datagrams.len() <= packet.batch_size
                &&& forall|i: int|
                    0 <= i < datagrams.len() ==> is_unacked(
                        packet.queue.packets,
                        #[trigger] datagrams[i],
                    )
            }
        }),
{
    law_nothing_pending(packet.queue);
    let datagrams = packet.transmission(id);
    if pending(packet.queue.packets).len() > 0 {
        assert forall|i: int| 0 <= i < datagrams.len() implies is_unacked(
            packet.queue.packets,
            #[trigger] datagrams[i],
        ) by {
            lemma_pending_is_unacked(packet.queue.packets, i);
        }
    }
}

/// Whether there is a part with these bytes that is not acked.
pub open spec fn is_unacked(packets: Seq<PacketBufferView>, bytes: Seq<u8>) -> bool {
    exists|i: int| 0 <= i < packets.len() && #[trigger] packets[i] == unacked(bytes)
}

proof fn lemma_pending_is_unacked(packets: Seq<PacketBufferView>, i: int)
    requires
        0 <= i < pending(packets).len(),
    ensures
        is_unacked(packets, pending(packets)[i]),
    decreases packets.len(),
{
    let rest = packets.drop_last();
    if i < pending(rest).len() {
        lemma_pending_is_unacked(rest, i);
        let k = choose|k: int| 0 <= k < rest.len() && #[trigger] rest[k] == unacked(
            pending(rest)[i],
        );
        assert(packets[k] == unacked(pending(packets)[i]));
    } else {
        assert(packets[packets.len() - 1] == unacked(pending(packets)[i]));
    }
}

/// The first batch of a new packet consists of its first parts.
pub proof fn law_first_batch(datagrams: Seq<Seq<u8>>, now: Instant, batch_size: int, id: PacketId)
    requires
        datagrams.len() > 0,
        batch_size >= 1,
    ensures
        ({
            let queue = PacketQueueView {
                first_unacked: 0,
                packets: all_unacked(datagrams),
                has_channel: false,
            };
            PacketOutView::sent(queue, batch_size, now).transmission(id) == up_to(
                datagrams,
                batch_size,
            )
        }),
{
    lemma_pending_of_unacked(datagrams);
}

pub proof fn lemma_pending_of_unacked(datagrams: Seq<Seq<u8>>)
    ensures
        pending(all_unacked(datagrams)) == datagrams,
    decreases datagrams.len(),
{
    if datagrams.len() > 0 {
        lemma_pending_of_unacked(datagrams.drop_last());
        assert(all_unacked(datagrams).drop_last() =~= all_unacked(datagrams.drop_last()));
        assert(pending(all_unacked(datagrams)) =~= datagrams);
    } else {
        assert(pending(all_unacked(datagrams)) =~= datagrams);
    }
}

/// The receiver is told that the sender is done once acks for all parts have arrived, no matter in
/// which order and how often.
pub proof fn law_done_after_acks(packet: PacketOutView, acks: Seq<int>, id: PacketId)
    requires
        packet.queue.wf(),
        packet.batch_size >= 1,
        forall|i: int| 0 <= i < acks.len() ==> 0 <= #[trigger] acks[i] < packet.queue.known_count(),
        forall|index: int| 0 <= index < packet.queue.known_count() ==> #[trigger] acks.contains(index),
    ensures
        (PacketOutView { queue: after_acks(packet.queue, acks), ..packet }).transmission(id) == seq![
            done_datagram(id),
        ],
{
    let after = PacketOutView { queue: after_acks(packet.queue, acks), ..packet };
    if packet.queue.known_count() > 0 {
        law_acks(packet.queue, acks, 0);
    } else {
        assert(acks.len() == 0) by {
            if acks.len() > 0 {
                assert(0 <= acks[0] < packet.queue.known_count());
            }
        }
    }
    assert forall|index: int| 0 <= index < after.queue.known_count() implies (
    #[trigger] after.queue.is_acked(index)) by {
        law_acks(packet.queue, acks, index);
        assert(acks.contains(index));
    }
    law_transmission(after, id);
}

/// Whether a queue contains what is left of the given parts, of which the last ones might not be
/// known yet.
pub open spec fn holds_parts(queue: PacketQueueView, parts: Seq<Seq<u8>>) -> bool {
    &&& queue.known_count() <= parts.len()
    &&& forall|i: int|
        0 <= i < queue.packets.len() ==> (#[trigger] queue.packets[i]).bytes
            == parts[queue.first_unacked + i]
}

/// Parts neither change nor move to another sequence index when acks arrive.
pub proof fn law_ack_keeps_parts(queue: PacketQueueView, parts: Seq<Seq<u8>>, index: int)
    requires
        queue.wf(),
        holds_parts(queue, parts),
        0 <= index,
    ensures
        holds_parts(queue.after_ack(index), parts),
{
    if index < queue.known_count() && !queue.is_acked(index) {
        let offset = index - queue.first_unacked;
        let packets = queue.packets.update(
            offset,
            PacketBufferView { acked: true, ..queue.packets[offset] },
        );
        lemma_leading_acked(packets);
        let after = queue.after_ack(index);
        assert forall|i: int| 0 <= i < after.packets.len() implies (
        #[trigger] after.packets[i]).bytes == parts[after.first_unacked + i] by {
            assert(after.packets[i].bytes == queue.packets[i + leading_acked(packets)].bytes);
        }
    }
}

/// Parts neither change nor move to another sequence index when the next ones become known.
pub proof fn law_supply_keeps_parts(queue: PacketQueueView, parts: Seq<Seq<u8>>, count: int)
    requires
        queue.wf(),
        holds_parts(queue, parts),
        0 <= count <= parts.len() - queue.known_count(),
    ensures
        holds_parts(
            queue.after_supply(
                all_unacked(parts.subrange(queue.known_count(), queue.known_count() + count)),
            ),
            parts,
        ),
{
}

/// Every datagram that is sent for a packet is one of its parts that has not been acked yet, unless
/// all parts that are known have been acked.
pub proof fn law_transmits_parts(
    packet: PacketOutView,
    id: PacketId,
    parts: Seq<Seq<u8>>,
    i: int,
) -> (index: int)
    requires
        packet.queue.wf(),
        packet.batch_size >= 1,
        holds_parts(packet.queue, parts),
        0 <= i < packet.transmission(id).len(),
    ensures
        pending(packet.queue.packets).len() > 0 ==> {
            &&& 0 <= index < packet.queue.known_count()
            &&& !packet.queue.is_acked(index)
            &&& packet.transmission(id)[i] == parts[index]
        },
{
    if pending(packet.queue.packets).len() > 0 {
        lemma_pending_is_unacked(packet.queue.packets, i);
        let bytes = pending(packet.queue.packets)[i];
        let k = choose|k: int|
            0 <= k < packet.queue.packets.len() && #[trigger] packet.queue.packets[k] == unacked(
                bytes,
            );
        packet.queue.first_unacked + k
    } else {
        0
    }
}

/// A packet is due exactly when the whole delay has passed since its last batch was sent, and a
/// packet without any delay always is.
pub proof fn law_due(packet: PacketOutView, resend_delay: Duration, now: Instant)
    ensures
        resend_delay.nanos > 0 ==> (packet.is_due(resend_delay, now) <==> now.nanos
            >= packet.last_send.nanos + resend_delay.nanos),
        resend_delay.nanos == 0 ==> packet.is_due(resend_delay, now),
{
}

/// A batch that was sent at one moment makes the packet due again exactly one delay later.
pub proof fn law_due_after_batch(
    packet: PacketOutView,
    sent: Instant,
    resend_delay: Duration,
    now: Instant,
)
    ensures
        packet.after_batch(sent).is_due(resend_delay, now) <==> resend_delay.nanos == 0 || now.nanos
            >= sent.nanos + resend_delay.nanos,
        PacketOutView::sent(packet.queue, packet.batch_size, sent).is_due(resend_delay, now)
            <==> resend_delay.nanos == 0 || now.nanos >= sent.nanos + resend_delay.nanos,
{
}

/// The last batch only counts as missed once the whole delay has passed without any ack.
pub proof fn law_missed_acks(packet: PacketOutView, resend_delay: Duration, now: Instant)
    requires
        0 <= packet.missed_acks < usize::MAX,
    ensures
        ({
            let is_missed = !packet.is_answered && (resend_delay.nanos == 0 || now.nanos
                >= packet.last_send.nanos + resend_delay.nanos);
            &&& is_missed ==> packet.missed_acks_at(resend_delay, now) == packet.missed_acks + 1
            &&& !is_missed ==> packet.missed_acks_at(resend_delay, now) == packet.missed_acks
        }),
{
}

/// The batch size is cut in half if something was not acked, but is at least one. Otherwise, it is the
/// bigger one of the old one and twice as much as was sent, as far as there is such a number.
pub proof fn law_balance(old_batch_size: int, last_batch_acks: int, last_batch_size: int)
    requires
        1 <= old_batch_size <= 65535,
        1 <= last_batch_size <= 65535,
        0 <= last_batch_acks <= 65535,
    ensures
        ({
            let new = balanced_batch_size(old_batch_size, last_batch_acks, last_batch_size);
            &&& last_batch_acks < last_batch_size && old_batch_size >= 2 ==> 2 * new
                <= old_batch_size < 2 * new + 2
            &&& last_batch_acks < last_batch_size && old_batch_size == 1 ==> new == 1
            &&& last_batch_acks >= last_batch_size ==> {
                &&& old_batch_size <= new <= 65535
                &&& new >= 2 * last_batch_size || new == 65535
                &&& new == old_batch_size || new == 2 * last_batch_size || (new == 65535 && 2
                    * last_batch_size > 65535)
            }
        }),
{
}

/// Rebalancing changes nothing but the batch size, which depends on how much of the last batch was
/// acked.
pub proof fn law_rebalanced(packet: PacketOutView)
    requires
        1 <= packet.batch_size <= 65535,
        1 <= packet.last_batch_size <= 65535,
        0 <= packet.last_batch_acks <= 65535,
    ensures
        ({
            let new = packet.rebalanced();
            &&& new.queue == packet.queue
            &&& new.last_send == packet.last_send
            &&& new.awaiting_ack_since == packet.awaiting_ack_since
            &&& new.last_batch_size == packet.last_batch_size
            &&& new.last_batch_acks == packet.last_batch_acks
            &&& new.is_answered == packet.is_answered
            &&& new.missed_acks == packet.missed_acks
            &&& packet.last_batch_acks < packet.last_batch_size && packet.batch_size >= 2 ==> 2
                * new.batch_size <= packet.batch_size < 2 * new.batch_size + 2
            &&& packet.last_batch_acks >= packet.last_batch_size ==> new.batch_size
                >= packet.batch_size && (new.batch_size >= 2 * packet.last_batch_size
                || new.batch_size == 65535)
        }),
{
}

/// Which parts are sent: the first ones that are not acked, in their order, and as many of them as
/// there are and the batch size allows.
///
/// The returned positions are those of the parts that are sent.
pub proof fn law_sent_parts(packet: PacketOutView, id: PacketId) -> (positions: Seq<int>)
    requires
        packet.batch_size >= 1,
        exists|i: int| 0 <= i < packet.queue.packets.len() && !(
        #[trigger] packet.queue.packets[i]).acked,
    ensures
        ({
            let packets = packet.queue.packets;
            let datagrams = packet.transmission(id);
            &&& positions.len() == datagrams.len()
            &&& 1 <= datagrams.len() <= packet.batch_size
            &&& forall|k: int|
                0 <= k < positions.len() ==> 0 <= #[trigger] positions[k] < packets.len()
                    && !packets[positions[k]].acked && datagrams[k] == packets[positions[k]].bytes
            &&& forall|k: int, l: int|
                0 <= k < l < positions.len() ==> positions[k] < positions[l]
            &&& forall|i: int|
                0 <= i < packets.len() && !(#[trigger] packets[i]).acked ==> positions.contains(i)
                    || (datagrams.len() == packet.batch_size && positions.last() < i)
        }),
{
    let packets = packet.queue.packets;
    let all = law_pending(packets);
    let unacked_position = choose|i: int|
        0 <= i < packets.len() && !(#[trigger] packets[i]).acked;
    assert(all.contains(unacked_position));
    let count = if all.len() <= packet.batch_size {
        all.len() as int
    } else {
        packet.batch_size
    };
    let positions = all.take(count);
    assert forall|i: int| 0 <= i < packets.len() && !(#[trigger] packets[i]).acked implies (
    positions.contains(i) || (count == packet.batch_size && positions.last() < i)) by {
        assert(all.contains(i));
        let k = choose|k: int| 0 <= k < all.len() && all[k] == i;
        if k < count {
            assert(positions[k] == i);
        } else {
            assert(all[count - 1] < all[k]);
        }
    }
    positions
}

/// Sending a batch is remembered, and changes neither the parts nor how many are sent at once.
pub proof fn law_after_batch(packet: PacketOutView, now: Instant)
    requires
        packet.batch_size >= 1,
        0 <= packet.missed_acks < usize::MAX,
    ensures
        ({
            let after = packet.after_batch(now);
            let count = pending(packet.queue.packets).len();
            &&& after.queue == packet.queue
            &&& after.last_send == now
            &&& after.awaiting_ack_since == packet.awaiting_ack_since
            &&& after.batch_size == packet.batch_size
            &&& 1 <= count <= packet.batch_size ==> after.last_batch_size == count
            &&& count > packet.batch_size ==> after.last_batch_size == packet.batch_size
            &&& count == 0 ==> after.last_batch_size == packet.last_batch_size
            &&& after.last_batch_acks == 0
            &&& !after.is_answered
            &&& packet.is_answered ==> after.missed_acks == packet.missed_acks
            &&& !packet.is_answered ==> after.missed_acks == packet.missed_acks + 1
        }),
{
}

/// A packet starts out with nothing acked, and as many parts sent as there are and the batch size
/// allows.
pub proof fn law_sent(queue: PacketQueueView, batch_size: int, now: Instant)
    requires
        batch_size >= 1,
    ensures
        ({
            let packet = PacketOutView::sent(queue, batch_size, now);
            let count = pending(queue.packets).len();
            &&& packet.queue == queue
            &&& packet.last_send == now
            &&& packet.awaiting_ack_since == now
            &&& packet.batch_size == batch_size
            &&& count <= batch_size ==> packet.last_batch_size == count
            &&& count > batch_size ==> packet.last_batch_size == batch_size
            &&& packet.last_batch_acks == 0
            &&& !packet.is_answered
            &&& packet.missed_acks == 0
        }),
{
}

/// An ack is counted if and only if its part is known and was not acked before, and every ack shows
/// that the receiver is still there.
pub proof fn law_after_ack(packet: PacketOutView, seq_index: SeqIndex, now: Instant)
    requires
        packet.queue.wf(),
        0 <= packet.last_batch_acks <= 65535,
    ensures
        ({
            let after = packet.after_ack(seq_index, now);
            let offset = seq_index - packet.queue.first_unacked;
            let is_new = 0 <= offset < packet.queue.packets.len()
                && !packet.queue.packets[offset].acked;
            &&& after.awaiting_ack_since == now
            &&& after.is_answered
            &&& after.missed_acks == 0
            &&& is_new && packet.last_batch_acks < 65535 ==> after.last_batch_acks
                == packet.last_batch_acks + 1
            &&& is_new && packet.last_batch_acks == 65535 ==> after.last_batch_acks == 65535
            &&& !is_new ==> after.last_batch_acks == packet.last_batch_acks && after.queue
                == packet.queue
            &&& after.last_send == packet.last_send
            &&& after.batch_size == packet.batch_size
            &&& after.last_batch_size == packet.last_batch_size
        }),
{
}

} // verus!
