//! The parts of a packet that are yet to be acked.

use vstd::prelude::*;

use super::buffer::{all_wf, buffer_views, PacketBuffer, PacketBufferView};
use super::error::SeqIndexAckedBeforeSent;
use super::parts::MAX_PART_COUNT;
use super::SeqIndex;
use crate::bytes::extend;
use std::collections::VecDeque;

verus! {

/// The datagrams that have not been acked yet.
pub open spec fn pending(packets: Seq<PacketBufferView>) -> Seq<Seq<u8>>
    decreases packets.len(),
{
    if packets.len() == 0 {
        Seq::empty()
    } else if packets.last().acked {
        pending(packets.drop_last())
    } else {
        pending(packets.drop_last()).push(packets.last().bytes)
    }
}

/// How many datagrams are acked before the first one that is not.
pub open spec fn leading_acked(packets: Seq<PacketBufferView>) -> nat
    decreases packets.len(),
{
    if packets.len() > 0 && packets.first().acked {
        1 + leading_acked(packets.drop_first())
    } else {
        0
    }
}

/// The first `count` elements, or all of them if there are fewer.
pub open spec fn up_to<T>(elements: Seq<T>, count: int) -> Seq<T> {
    if elements.len() <= count {
        elements
    } else {
        elements.take(count)
    }
}

/// Whether no datagram has been acked yet.
pub open spec fn none_acked(packets: Seq<PacketBufferView>) -> bool {
    forall|i: int| 0 <= i < packets.len() ==> !(#[trigger] packets[i]).acked
}

/// A [`PacketQueue`].
#[verifier::ext_equal]
pub struct PacketQueueView {
    /// The sequence index of the first part that is not acked, and all before it are.
    pub first_unacked: int,
    /// The parts from there on.
    pub packets: Seq<PacketBufferView>,
    /// Whether further parts can follow.
    pub has_channel: bool,
}

impl PacketQueueView {
    /// Whether the part with the given index is acked.
    pub open spec fn is_acked(self, index: int) -> bool {
        index < self.first_unacked || (index < self.known_count() && self.packets[index
            - self.first_unacked].acked)
    }

    /// How many parts are known so far, including those that are acked.
    pub open spec fn known_count(self) -> int {
        self.first_unacked + self.packets.len()
    }

    /// The queue after the part with the given index was acked.
    pub open spec fn after_ack(self, index: int) -> Self {
        if self.is_acked(index) || index >= self.known_count() {
            self
        } else {
            let offset = index - self.first_unacked;
            let packets = self.packets.update(
                offset,
                PacketBufferView { acked: true, ..self.packets[offset] },
            );
            PacketQueueView {
                first_unacked: self.first_unacked + leading_acked(packets),
                packets: packets.skip(leading_acked(packets) as int),
                ..self
            }
        }
    }

    /// How many parts are missing for the given number of pending ones.
    ///
    /// There are never more parts than there are sequence indices.
    pub open spec fn wanted(self, count: int) -> int {
        let missing = count - pending(self.packets).len();
        let available = MAX_PART_COUNT - self.known_count();
        if !self.has_channel || missing <= 0 {
            0
        } else if missing <= available {
            missing
        } else {
            available
        }
    }

    /// The queue after parts were received from the channel.
    pub open spec fn after_supply(self, packets: Seq<PacketBufferView>) -> Self {
        PacketQueueView { packets: self.packets + packets, ..self }
    }

    /// Whether every part before `first_unacked` is acked and that one is not.
    pub open spec fn wf(self) -> bool {
        &&& 0 <= self.first_unacked
        &&& self.known_count() <= MAX_PART_COUNT
        &&& self.packets.len() > 0 ==> !self.packets.first().acked
    }
}

/// Contains the parts of a packet that have not been acked yet.
pub struct PacketQueue {
    /// A buffer with packets that have not yet been acked.
    ///
    /// Any front packets that are acked can be removed while incrementing `first_unacked`.
    packets: VecDeque<PacketBuffer>,
    /// The index of the first unacked packet, i.e. the offset to add onto `packets`.
    first_unacked: u64,
    /// Whether a channel provides additional packet buffers to chain onto `packets`.
    ///
    /// These packets are generated on a separate thread.
    has_channel: bool,
}

impl View for PacketQueue {
    type V = PacketQueueView;

    closed spec fn view(&self) -> PacketQueueView {
        PacketQueueView {
            first_unacked: self.first_unacked as int,
            packets: buffer_views(self.packets@),
            has_channel: self.has_channel,
        }
    }
}

pub proof fn lemma_pending_prefix(packets: Seq<PacketBufferView>, count: int)
    requires
        0 <= count <= packets.len(),
    ensures
        pending(packets.take(count)).len() <= pending(packets).len(),
        pending(packets).len() - pending(packets.take(count)).len() <= packets.len() - count,
        pending(packets).take(pending(packets.take(count)).len() as int) == pending(
            packets.take(count),
        ),
    decreases packets.len(),
{
    if count == packets.len() {
        assert(packets.take(count) =~= packets);
        assert(pending(packets).take(pending(packets).len() as int) =~= pending(packets));
    } else {
        lemma_pending_prefix(packets.drop_last(), count);
        assert(packets.drop_last().take(count) =~= packets.take(count));
        assert(pending(packets).take(pending(packets.take(count)).len() as int) =~= pending(
            packets.take(count),
        ));
    }
}

pub proof fn lemma_leading_acked(packets: Seq<PacketBufferView>)
    ensures
        leading_acked(packets) <= packets.len(),
        forall|i: int| 0 <= i < leading_acked(packets) ==> (#[trigger] packets[i]).acked,
        leading_acked(packets) < packets.len() ==> !packets[leading_acked(packets) as int].acked,
    decreases packets.len(),
{
    if packets.len() > 0 && packets.first().acked {
        let rest = packets.drop_first();
        lemma_leading_acked(rest);
        assert forall|i: int| 0 <= i < leading_acked(packets) implies (
        #[trigger] packets[i]).acked by {
            if i > 0 {
                assert(rest[i - 1].acked);
            }
        }
    }
}

fn to_deque(packets: Vec<PacketBuffer>) -> (deque: VecDeque<PacketBuffer>)
    ensures
        deque@ == packets@,
{
    let ghost all = packets@;
    let mut packets = packets;
    let mut deque: VecDeque<PacketBuffer> = VecDeque::new();
    assert(packets@ + deque@ =~= all);
    while packets.len() > 0
        invariant
            packets@ + deque@ == all,
        decreases packets@.len(),
    {
        let packet = packets.pop().unwrap();
        deque.push_front(packet);
        assert(packets@ + deque@ =~= all);
    }
    assert(deque@ =~= all);
    deque
}

impl PacketQueue {
    pub closed spec fn wf(&self) -> bool {
        &&& all_wf(self.packets@)
        &&& self@.wf()
    }

    /// All the parts are already known.
    pub fn from_parts(parts: Vec<PacketBuffer>) -> (queue: Self)
        requires
            all_wf(parts@),
            none_acked(buffer_views(parts@)),
            parts@.len() <= MAX_PART_COUNT,
        ensures
            queue.wf(),
            queue@ == (PacketQueueView {
                first_unacked: 0,
                packets: buffer_views(parts@),
                has_channel: false,
            }),
    {
        PacketQueue { packets: to_deque(parts), first_unacked: 0, has_channel: false }
    }

    /// All the parts are yet to be received from a channel.
    pub fn from_channel() -> (queue: Self)
        ensures
            queue.wf(),
            queue@ == (PacketQueueView {
                first_unacked: 0,
                packets: Seq::empty(),
                has_channel: true,
            }),
    {
        let queue = PacketQueue { packets: VecDeque::new(), first_unacked: 0, has_channel: true };
        assert(queue@.packets =~= Seq::empty());
        queue
    }

    /// The index of the first part that is not acked.
    pub fn first_unacked(&self) -> (first_unacked: u64)
        requires
            self.wf(),
        ensures
            first_unacked == self@.first_unacked,
            first_unacked <= MAX_PART_COUNT,
    {
        self.first_unacked
    }

    pub proof fn lemma_wf(&self)
        requires
            self.wf(),
        ensures
            self@.wf(),
    {
    }

    /// How many parts are pending, not counting further than `limit`.
    pub fn pending_count(&self, limit: usize) -> (count: usize)
        requires
            self.wf(),
        ensures
            count == up_to(pending(self@.packets), limit as int).len(),
    {
        let mut count: usize = 0;
        let mut i: usize = 0;
        let ghost views = buffer_views(self.packets@);
        assert(views.take(0) =~= Seq::empty());
        while i < self.packets.len() && count < limit
            invariant
                self.wf(),
                views == buffer_views(self.packets@),
                i <= self.packets@.len(),
                count == pending(views.take(i as int)).len(),
                count <= limit,
            decreases self.packets@.len() - i,
        {
            proof {
                assert(views.take(i + 1).drop_last() =~= views.take(i as int));
            }
            if !self.packets[i].is_acked() {
                count = count + 1;
            }
            i = i + 1;
        }
        proof {
            lemma_pending_prefix(views, i as int);
            assert(views.take(views.len() as int) =~= views);
        }
        count
    }

    /// How many parts should be received from the channel before the next `count` are sent.
    pub fn wanted(&self, count: usize) -> (wanted: usize)
        requires
            self.wf(),
        ensures
            wanted == self@.wanted(count as int),
    {
        if !self.has_channel {
            return 0;
        }
        let missing: usize = count - self.pending_count(count);
        let available: u64 = MAX_PART_COUNT - self.first_unacked - self.packets.len() as u64;
        if missing as u64 <= available {
            missing
        } else {
            available as usize
        }
    }

    /// Chains packets onto the queue that were received from the channel.
    pub fn supply(&mut self, packets: Vec<PacketBuffer>)
        requires
            old(self).wf(),
            all_wf(packets@),
            none_acked(buffer_views(packets@)),
            old(self)@.known_count() + packets@.len() <= MAX_PART_COUNT,
        ensures
            final(self).wf(),
            final(self)@ == old(self)@.after_supply(buffer_views(packets@)),
    {
        let ghost all = packets@;
        let mut added = to_deque(packets);
        self.packets.append(&mut added);
        assert(self@.packets =~= old(self)@.packets + buffer_views(all));
    }

    /// The next up to `count` datagrams to be sent, in order.
    pub fn batch(&self, count: usize) -> (datagrams: Vec<Vec<u8>>)
        requires
            self.wf(),
        ensures
            datagram_views(datagrams@) == up_to(pending(self@.packets), count as int),
    {
        let mut datagrams: Vec<Vec<u8>> = Vec::new();
        let mut i: usize = 0;
        let ghost views = buffer_views(self.packets@);
        proof {
            assert(views.take(0) =~= Seq::empty());
            assert(datagram_views(datagrams@) =~= Seq::empty());
        }
        while i < self.packets.len() && datagrams.len() < count
            invariant
                self.wf(),
                views == buffer_views(self.packets@),
                i <= self.packets@.len(),
                datagram_views(datagrams@) == pending(views.take(i as int)),
                datagrams@.len() <= count,
            decreases self.packets@.len() - i,
        {
            proof {
                assert(views.take(i + 1).drop_last() =~= views.take(i as int));
            }
            let packet = &self.packets[i];
            if !packet.is_acked() {
                let mut datagram: Vec<u8> = Vec::new();
                extend(&mut datagram, packet.as_bytes());
                assert(datagram@ =~= packet@.bytes);
                datagrams.push(datagram);
                assert(datagram_views(datagrams@) =~= pending(views.take(i as int)).push(
                    packet@.bytes,
                ));
            }
            i = i + 1;
        }
        proof {
            lemma_pending_prefix(views, i as int);
            assert(views.take(views.len() as int) =~= views);
            assert(datagram_views(datagrams@).len() == datagrams@.len());
        }
        datagrams
    }

    /// Marks the packet as acked and returns true if it was already acked previously.
    pub fn ack(&mut self, seq_index: SeqIndex) -> (result: Result<bool, SeqIndexAckedBeforeSent>)
        requires
            old(self).wf(),
        ensures
            final(self).wf(),
            final(self)@ == old(self)@.after_ack(seq_index as int),
            result == if seq_index >= old(self)@.known_count() {
                Err(SeqIndexAckedBeforeSent { seq_index })
            } else {
                Ok(old(self)@.is_acked(seq_index as int))
            },
    {
        let seq_index_wide: u64 = seq_index as u64;
        if seq_index_wide < self.first_unacked {
            return Ok(true);
        }
        let offset: u64 = seq_index_wide - self.first_unacked;
        if offset >= self.packets.len() as u64 {
            return Err(SeqIndexAckedBeforeSent { seq_index });
        }
        let offset: usize = offset as usize;
        if self.packets[offset].is_acked() {
            return Ok(true);
        }
        let ghost before = self@.packets;
        let ghost updated = before.update(
            offset as int,
            PacketBufferView { acked: true, ..before[offset as int] },
        );
        let mut packet = self.packets.remove(offset).unwrap();
        let _acked = packet.set_acked();
        self.packets.insert(offset, packet);
        proof {
            assert(self@.packets =~= updated);
            assert(all_wf(self.packets@));
            assert(updated.skip(0) =~= updated);
        }
        let ghost mut drained: int = 0;
        while self.packets.len() > 0 && self.packets[0].is_acked()
            invariant
                all_wf(self.packets@),
                drained >= 0,
                drained + self.packets@.len() == updated.len(),
                self@.packets == updated.skip(drained),
                leading_acked(updated) == drained + leading_acked(updated.skip(drained)),
                self.first_unacked == old(self)@.first_unacked + drained,
                old(self)@.first_unacked + updated.len() <= MAX_PART_COUNT,
                self.has_channel == old(self)@.has_channel,
            decreases self.packets@.len(),
        {
            let ghost queue = self.packets@;
            let _front = self.packets.pop_front();
            self.first_unacked = self.first_unacked + 1;
            proof {
                let rest = updated.skip(drained);
                assert(rest.first() == queue[0]@);
                assert(rest.drop_first() =~= updated.skip(drained + 1));
                assert(self@.packets =~= updated.skip(drained + 1));
                drained = drained + 1;
            }
        }
        proof {
            lemma_leading_acked(updated);
            if self.packets@.len() > 0 {
                assert(self@.packets.first() == self.packets@[0]@);
            }
        }
        Ok(false)
    }
}

/// The contents of all the datagrams.
pub open spec fn datagram_views(datagrams: Seq<Vec<u8>>) -> Seq<Seq<u8>> {
    datagrams.map_values(|datagram: Vec<u8>| datagram@)
}

/// The queue after acks for the parts with the given indices have arrived, one after the other.
pub open spec fn after_acks(queue: PacketQueueView, acks: Seq<int>) -> PacketQueueView
    decreases acks.len(),
{
    if acks.len() == 0 {
        queue
    } else {
        after_acks(queue, acks.drop_last()).after_ack(acks.last())
    }
}

/// An ack makes exactly the part acked that it is for, and no part is ever unacked again.
pub proof fn law_ack(queue: PacketQueueView, index: int, other: int)
    requires
        queue.wf(),
        0 <= index < queue.known_count(),
        0 <= other < queue.known_count(),
    ensures
        queue.after_ack(index).wf(),
        queue.after_ack(index).known_count() == queue.known_count(),
        queue.after_ack(index).is_acked(other) <==> queue.is_acked(other) || other == index,
{
    if !queue.is_acked(index) {
        let offset = index - queue.first_unacked;
        let packets = queue.packets.update(
            offset,
            PacketBufferView { acked: true, ..queue.packets[offset] },
        );
        lemma_leading_acked(packets);
        let after = queue.after_ack(index);
        if queue.first_unacked <= other < after.first_unacked {
            assert(packets[other - queue.first_unacked].acked);
        }
    }
}

/// Acks can arrive in any order and any number of times.
pub proof fn law_acks(queue: PacketQueueView, acks: Seq<int>, other: int)
    requires
        queue.wf(),
        forall|i: int| 0 <= i < acks.len() ==> 0 <= #[trigger] acks[i] < queue.known_count(),
        0 <= other < queue.known_count(),
    ensures
        after_acks(queue, acks).wf(),
        after_acks(queue, acks).known_count() == queue.known_count(),
        after_acks(queue, acks).is_acked(other) <==> queue.is_acked(other) || acks.contains(other),
    decreases acks.len(),
{
    if acks.len() > 0 {
        let before = acks.drop_last();
        law_acks(queue, before, other);
        law_ack(after_acks(queue, before), acks.last(), other);
        if before.contains(other) {
            let i = choose|i: int| 0 <= i < before.len() && before[i] == other;
            assert(acks[i] == other);
        }
        if acks.contains(other) && other != acks.last() {
            let i = choose|i: int| 0 <= i < acks.len() && acks[i] == other;
            assert(before[i] == other);
        }
        if other == acks.last() {
            assert(acks[acks.len() - 1] == other);
        }
    }
}

/// There is nothing left to be sent once all parts are acked, and not before.
pub proof fn law_nothing_pending(queue: PacketQueueView)
    requires
        queue.wf(),
    ensures
        pending(queue.packets).len() == 0 <==> forall|index: int|
            0 <= index < queue.known_count() ==> #[trigger] queue.is_acked(index),
        pending(queue.packets).len() == 0 <==> queue.packets.len() == 0,
{
    if queue.packets.len() > 0 {
        assert(!queue.is_acked(queue.first_unacked));
        let front = queue.packets.take(1);
        assert(front.drop_last() =~= Seq::empty());
        assert(pending(front) == pending(front.drop_last()).push(front.last().bytes));
        lemma_pending_prefix(queue.packets, 1);
    }
}

proof fn lemma_pending_concat(a: Seq<PacketBufferView>, b: Seq<PacketBufferView>)
    ensures
        pending(a + b) == pending(a) + pending(b),
    decreases b.len(),
{
    if b.len() == 0 {
        assert(a + b =~= a);
        assert(pending(a) + pending(b) =~= pending(a));
    } else {
        lemma_pending_concat(a, b.drop_last());
        assert((a + b).drop_last() =~= a + b.drop_last());
        assert((a + b).last() == b.last());
        assert(pending(a + b) =~= pending(a) + pending(b));
    }
}

proof fn lemma_pending_len(packets: Seq<PacketBufferView>)
    requires
        none_acked(packets),
    ensures
        pending(packets).len() == packets.len(),
    decreases packets.len(),
{
    if packets.len() > 0 {
        assert(!packets[packets.len() - 1].acked);
        assert forall|i: int| 0 <= i < packets.len() - 1 implies !(
        #[trigger] packets.drop_last()[i]).acked by {
            assert(!packets[i].acked);
        }
        lemma_pending_len(packets.drop_last());
    }
}

/// How many parts are received from a channel that is going to provide the given ones.
pub open spec fn received_count(
    queue: PacketQueueView,
    channel: Seq<PacketBufferView>,
    count: int,
) -> int {
    if queue.wanted(count) <= channel.len() {
        queue.wanted(count)
    } else {
        channel.len() as int
    }
}

/// The queue after the parts that are wanted have been received from the channel.
pub open spec fn after_receiving(
    queue: PacketQueueView,
    channel: Seq<PacketBufferView>,
    count: int,
) -> PacketQueueView {
    queue.after_supply(channel.take(received_count(queue, channel, count)))
}

/// A batch consists of the first pending parts, no matter whether they are already in the queue or
/// have yet to be received from the channel.
///
/// No more is received than what is missing, nothing that is received gets lost, and the next batch
/// is the same one as long as nothing is acked.
pub proof fn law_batch(queue: PacketQueueView, channel: Seq<PacketBufferView>, count: int)
    requires
        queue.wf(),
        none_acked(channel),
        !queue.has_channel ==> channel.len() == 0,
        queue.known_count() + channel.len() <= MAX_PART_COUNT,
        count >= 0,
    ensures
        ({
            let received = received_count(queue, channel, count);
            let after = after_receiving(queue, channel, count);
            let rest = channel.skip(received);
            let again = after_receiving(after, rest, count);
            &&& 0 <= received
            &&& received == 0 || received <= count - pending(queue.packets).len()
            &&& after.packets + rest == queue.packets + channel
            &&& up_to(pending(after.packets), count) == up_to(
                pending(queue.packets + channel),
                count,
            )
            &&& up_to(pending(again.packets), count) == up_to(pending(after.packets), count)
        }),
{
    let received = received_count(queue, channel, count);
    let after = after_receiving(queue, channel, count);
    let taken = channel.take(received);
    let rest = channel.skip(received);
    let again = after_receiving(after, rest, count);
    assert(taken + rest =~= channel);
    assert(after.packets + rest =~= queue.packets + channel);
    assert forall|i: int| 0 <= i < taken.len() implies !(#[trigger] taken[i]).acked by {
        assert(!channel[i].acked);
    }
    lemma_pending_concat(queue.packets, taken);
    lemma_pending_concat(after.packets, rest);
    lemma_pending_len(taken);
    if received == channel.len() {
        assert(rest =~= Seq::empty());
        assert(after.packets + rest =~= after.packets);
    } else {
        assert(pending(after.packets).len() >= count);
    }
    assert(up_to(pending(after.packets), count) =~= up_to(
        pending(queue.packets + channel),
        count,
    ));
    assert(rest.take(received_count(after, rest, count)) =~= Seq::empty());
    assert(again.packets =~= after.packets);
}

/// The pending datagrams are exactly those that are not acked, each of them once and in their order.
///
/// The returned positions are those of the pending datagrams.
pub proof fn law_pending(packets: Seq<PacketBufferView>) -> (positions: Seq<int>)
    ensures
        positions.len() == pending(packets).len(),
        forall|k: int|
            0 <= k < positions.len() ==> 0 <= #[trigger] positions[k] < packets.len()
                && !packets[positions[k]].acked && pending(packets)[k]
                == packets[positions[k]].bytes,
        forall|k: int, l: int| 0 <= k < l < positions.len() ==> positions[k] < positions[l],
        forall|i: int|
            0 <= i < packets.len() && !(#[trigger] packets[i]).acked ==> positions.contains(i),
    decreases packets.len(),
{
    if packets.len() == 0 {
        Seq::empty()
    } else {
        let rest = packets.drop_last();
        let before = law_pending(rest);
        let last = packets.len() - 1;
        let positions = if packets.last().acked {
            before
        } else {
            before.push(last)
        };
        assert forall|k: int| 0 <= k < positions.len() implies 0 <= #[trigger] positions[k]
            < packets.len() && !packets[positions[k]].acked && pending(packets)[k]
            == packets[positions[k]].bytes by {
            if k < before.len() {
                assert(positions[k] == before[k]);
                assert(rest[before[k]] == packets[before[k]]);
            }
        }
        assert forall|k: int, l: int| 0 <= k < l < positions.len() implies positions[k]
            < positions[l] by {
            assert(before[k] < rest.len());
        }
        assert forall|i: int|
            0 <= i < packets.len() && !(#[trigger] packets[i]).acked implies positions.contains(
            i,
        ) by {
            if i < last {
                assert(!rest[i].acked);
                assert(before.contains(i));
                let k = choose|k: int| 0 <= k < before.len() && before[k] == i;
                assert(positions[k] == i);
            } else {
                assert(positions[before.len() as int] == i);
            }
        }
        positions
    }
}

/// The first elements are kept as they are, as many as there are up to the limit.
pub proof fn law_up_to<T>(elements: Seq<T>, count: int, i: int)
    requires
        count >= 0,
    ensures
        elements.len() <= count ==> up_to(elements, count).len() == elements.len(),
        elements.len() > count ==> up_to(elements, count).len() == count,
        0 <= i < up_to(elements, count).len() ==> up_to(elements, count)[i] == elements[i],
{
}

/// A part is acked if it lies before the queue or is marked in it, and not if it is not known.
pub proof fn law_is_acked(queue: PacketQueueView, index: int)
    ensures
        index < queue.first_unacked ==> queue.is_acked(index),
        queue.first_unacked <= index < queue.first_unacked + queue.packets.len() ==> (
        queue.is_acked(index) <==> queue.packets[index - queue.first_unacked].acked),
        index >= queue.first_unacked && index >= queue.first_unacked + queue.packets.len()
            ==> !queue.is_acked(index),
{
}

/// As much is received from the channel as is missing for a batch, except for what there are no
/// sequence indices for.
pub proof fn law_wanted(queue: PacketQueueView, count: int)
    requires
        queue.wf(),
        count >= 0,
    ensures
        ({
            let wanted = queue.wanted(count);
            let existing = pending(queue.packets).len();
            let known = queue.first_unacked + queue.packets.len();
            &&& !queue.has_channel ==> wanted == 0
            &&& existing >= count ==> wanted == 0
            &&& queue.has_channel && existing < count && known + count - existing
                <= 0x1_0000_0000 ==> existing + wanted == count
            &&& queue.has_channel && existing < count && known + count - existing
                > 0x1_0000_0000 ==> known + wanted == 0x1_0000_0000
        }),
{
}

/// Parts that are received from the channel follow the ones that are already known.
pub proof fn law_supply(queue: PacketQueueView, packets: Seq<PacketBufferView>, i: int)
    ensures
        ({
            let after = queue.after_supply(packets);
            &&& after.first_unacked == queue.first_unacked
            &&& after.has_channel == queue.has_channel
            &&& after.packets.len() == queue.packets.len() + packets.len()
            &&& 0 <= i < queue.packets.len() ==> after.packets[i] == queue.packets[i]
            &&& queue.packets.len() <= i < after.packets.len() ==> after.packets[i] == packets[i
                - queue.packets.len()]
        }),
{
}

/// An ack marks its part, removes the parts before the first one that is not acked, and leaves the
/// contents of all parts alone.
pub proof fn law_acked_parts(queue: PacketQueueView, index: int, other: int)
    requires
        queue.wf(),
        0 <= index,
    ensures
        ({
            let after = queue.after_ack(index);
            &&& after.first_unacked >= queue.first_unacked
            &&& after.first_unacked + after.packets.len() == queue.first_unacked
                + queue.packets.len()
            &&& after.has_channel == queue.has_channel
            &&& after.packets.len() > 0 ==> !after.packets[0].acked
            &&& after.first_unacked <= other < after.first_unacked + after.packets.len() ==> {
                let before = queue.packets[other - queue.first_unacked];
                let now = after.packets[other - after.first_unacked];
                &&& now.bytes == before.bytes
                &&& now.acked <==> before.acked || other == index
            }
            &&& queue.first_unacked <= other < after.first_unacked ==> queue.packets[other
                - queue.first_unacked].acked || other == index
        }),
{
    let offset = index - queue.first_unacked;
    if 0 <= offset < queue.packets.len() && !queue.packets[offset].acked {
        let packets = queue.packets.update(
            offset,
            PacketBufferView { acked: true, ..queue.packets[offset] },
        );
        lemma_leading_acked(packets);
        let after = queue.after_ack(index);
        if queue.first_unacked <= other < after.first_unacked {
            assert(packets[other - queue.first_unacked].acked);
        }
    }
}

/// All parts are known from the first one up to the last one in the queue.
pub proof fn law_known_count(queue: PacketQueueView)
    ensures
        queue.known_count() == queue.first_unacked + queue.packets.len(),
{
}

/// The contents of datagrams are those of each of them, in their order.
pub proof fn law_datagram_views(datagrams: Seq<Vec<u8>>, i: int)
    ensures
        datagram_views(datagrams).len() == datagrams.len(),
        0 <= i < datagrams.len() ==> datagram_views(datagrams)[i] == datagrams[i]@,
{
}

} // verus!
