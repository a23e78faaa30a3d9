//! Everything that is being sent to and received from a single peer.

use vstd::prelude::*;

use super::buffer::{all_wf, buffer_views, PacketBuffer};
use super::error::HandlePacketError;
use super::id::PacketId;
use super::parts::{part, part_count, MAX_PART_COUNT};
use super::queue::{datagram_views, law_ack, none_acked, pending, PacketQueue};
use super::receive::ReceivedPacketView;
use super::receive_buffer::{
    law_part_handling, PendingAck, ReceivePacketBuffer, ReceivePacketBufferView, ReceivedPacketHandling,
    ReceivedPacketHandlingView,
};
use super::round::{is_due, missed_turns, Round};
use super::send::{PacketOut, PacketOutView};
use super::send_buffer::{
    batch_size_sum, law_ack_handling, mean_batch_size, SendPacketBuffer, SendPacketBufferView,
    SentPacketHandling,
};
use super::wire::{ack_datagram, kind_of, law_ack_datagram, PacketKind};
use super::{NonZeroBatchSize, SeqIndex};
use crate::sorted::are_sorted_keys;
use crate::time::{Duration, Instant};

verus! {

/// What came of a received datagram.
pub enum PacketHandling<'a> {
    /// A part of a packet was received and has to be acked.
    Received(PendingAck<'a>),
    /// The sender will stop sending parts for this packet.
    Done { known_packet: bool },
    /// A part of a sent packet was acked by the receiver.
    Ack { duplicate: bool },
}

/// What came of a received datagram.
pub enum PacketHandlingView {
    Received { id: PacketId, seq_index: SeqIndex, received: ReceivedPacketView },
    Done { known_packet: bool },
    Ack { duplicate: bool },
}

impl<'a> View for PacketHandling<'a> {
    type V = PacketHandlingView;

    open spec fn view(&self) -> PacketHandlingView {
        match self {
            PacketHandling::Received(pending) => PacketHandlingView::Received {
                id: pending.id,
                seq_index: pending.seq_index,
                received: pending.received@,
            },
            PacketHandling::Done { known_packet } => PacketHandlingView::Done {
                known_packet: *known_packet,
            },
            PacketHandling::Ack { duplicate } => PacketHandlingView::Ack {
                duplicate: *duplicate,
            },
        }
    }
}

/// A new packet whose first batch was attempted to be sent.
pub struct SendAttempt {
    pub id: PacketId,
    /// The parts of the packet, at least one of which is pending.
    pub queue: PacketQueue,
    /// What came of sending the first batch.
    ///
    /// It does not matter if sending it would have blocked, since that is the same as if it got
    /// lost.
    pub outcome: Result<(), std::io::Error>,
}

impl SendAttempt {
    pub open spec fn wf(&self) -> bool {
        &&& self.queue.wf()
        &&& pending(self.queue@.packets).len() > 0
    }
}

/// Everything that is being sent and received.
#[verifier::ext_equal]
pub struct PacketBuffersView {
    pub send: SendPacketBufferView,
    pub receive: ReceivePacketBufferView,
}

impl PacketBuffersView {
    /// Nothing has been sent or received yet.
    pub open spec fn new(batch_size: int) -> Self {
        PacketBuffersView {
            send: SendPacketBufferView { batch_size, packets: Map::empty() },
            receive: ReceivePacketBufferView { packets: Map::empty() },
        }
    }

    /// What a received datagram leads to, provided that the ack can be sent if there is one.
    pub open spec fn handling(self, datagram: Seq<u8>) -> Result<
        PacketHandlingView,
        HandlePacketError,
    > {
        match self.receive.handling(datagram) {
            Err(error) => Err(error),
            Ok(ReceivedPacketHandlingView::Ack { id, seq_index, received }) => Ok(
                PacketHandlingView::Received { id, seq_index, received },
            ),
            Ok(ReceivedPacketHandlingView::Done { known_packet }) => Ok(
                PacketHandlingView::Done { known_packet },
            ),
            Ok(ReceivedPacketHandlingView::Unhandled) => match self.send.handling(datagram) {
                Err(error) => Err(error),
                Ok(SentPacketHandling::Ack { duplicate }) => Ok(
                    PacketHandlingView::Ack { duplicate },
                ),
                Ok(SentPacketHandling::Unhandled) => Err(
                    HandlePacketError::UnexpectedKind(datagram[0]),
                ),
            },
        }
    }

    /// The packets after a datagram was received.
    ///
    /// A datagram never concerns both sides.
    pub open spec fn after_handling(self, datagram: Seq<u8>, now: Instant) -> Self {
        PacketBuffersView {
            send: self.send.after_handling(datagram, now),
            receive: self.receive.after_handling(datagram, now),
        }
    }

    /// The packets after the attempt to send a new one.
    pub open spec fn after_send(self, attempt: SendAttempt, now: Instant) -> Self {
        match attempt.outcome {
            Ok(_) => PacketBuffersView {
                send: self.send.with(
                    attempt.id,
                    PacketOutView::sent(attempt.queue@, self.send.batch_size, now),
                ),
                ..self
            },
            Err(_) => self,
        }
    }

    /// The packets that have not timed out.
    pub open spec fn after_timeout(
        self,
        resend_delay: Duration,
        max_missed_acks: Option<usize>,
        receive_timeout: Option<Duration>,
        now: Instant,
    ) -> Self {
        PacketBuffersView {
            send: match max_missed_acks {
                Some(max_missed_acks) => self.send.after_timeout(
                    max_missed_acks as int,
                    resend_delay,
                    now,
                ),
                None => self.send,
            },
            receive: match receive_timeout {
                Some(receive_timeout) => self.receive.after_timeout(receive_timeout, now),
                None => self.receive,
            },
        }
    }

    /// The packets after a round was started in which those with the given ids take their turns.
    pub open spec fn after_round_start(self, ids: Seq<u128>) -> Self {
        PacketBuffersView {
            send: SendPacketBufferView {
                batch_size: if ids.len() == 0 {
                    self.send.batch_size
                } else {
                    mean_batch_size(batch_size_sum(self.send.packets, ids), ids.len() as int)
                },
                ..self.send
            },
            ..self
        }
    }
}

/// All packets that are being sent to and received from a single peer.
pub struct PacketBuffers {
    send_buffer: SendPacketBuffer,
    receive_buffer: ReceivePacketBuffer,
}

impl View for PacketBuffers {
    type V = PacketBuffersView;

    closed spec fn view(&self) -> PacketBuffersView {
        PacketBuffersView { send: self.send_buffer@, receive: self.receive_buffer@ }
    }
}

impl PacketBuffers {
    pub closed spec fn wf(&self) -> bool {
        &&& self.send_buffer.wf()
        &&& self.receive_buffer.wf()
    }

    pub fn new(initial_send_batch_size: NonZeroBatchSize) -> (buffers: Self)
        ensures
            buffers.wf(),
            buffers@ == PacketBuffersView::new(initial_send_batch_size@ as int),
    {
        PacketBuffers {
            send_buffer: SendPacketBuffer::new(initial_send_batch_size),
            receive_buffer: ReceivePacketBuffer::new(),
        }
    }

    /// How many parts of a new packet are sent at once.
    pub fn batch_size(&self) -> (batch_size: NonZeroBatchSize)
        ensures
            batch_size@ == self@.send.batch_size,
    {
        self.send_buffer.batch_size()
    }

    /// Keeps track of a new packet after an attempt to send its first batch, and returns its id for
    /// tracking purposes.
    pub fn send(&mut self, attempt: SendAttempt, now: Instant) -> (result: Result<
        PacketId,
        std::io::Error,
    >)
        requires
            old(self).wf(),
            attempt.wf(),
        ensures
            final(self).wf(),
            final(self)@ == old(self)@.after_send(attempt, now),
            result == match attempt.outcome {
                Ok(_) => Ok(attempt.id),
                Err(error) => Err(error),
            },
    {
        self.send_buffer.send(attempt.id, attempt.queue, attempt.outcome, now)
    }

    /// Forgets packets that timed out, and then starts a round in which all packets get the
    /// opportunity to send their next batch.
    pub fn start_update(
        &mut self,
        resend_delay: Duration,
        max_missed_acks: Option<usize>,
        receive_timeout: Option<Duration>,
        now: Instant,
    ) -> (round: Round)
        requires
            old(self).wf(),
        ensures
            final(self).wf(),
            ({
                let known = old(self)@.after_timeout(
                resend_delay,
                max_missed_acks,
                receive_timeout,
                now,
            );
                &&& are_sorted_keys(round@, known.send.packets.dom())
                &&& final(self)@ == known.after_round_start(round@)
            }),
    {
        self.timeout_packets(resend_delay, max_missed_acks, receive_timeout, now);
        self.send_buffer.start_round()
    }

    /// Starts sending the next batch of the first packet in the round that has something to send.
    ///
    /// Returns that packet and how many parts have to be received from the channel for it. All
    /// packets before it miss their turn.
    pub fn next_batch(&mut self, round: &mut Round, resend_delay: Duration, now: Instant) -> (turn:
        Option<(PacketId, usize)>)
        requires
            old(self).wf(),
        ensures
            final(self).wf(),
            final(self)@.receive == old(self)@.receive,
            ({
                let packets = old(self)@.send.packets;
                let missed = missed_turns(packets, old(round)@, resend_delay, now);
                match turn {
                    Some((id, wanted)) => {
                        &&& missed < old(round)@.len()
                        &&& id.value == old(round)@[missed]
                        &&& final(round)@ == old(round)@.skip(missed + 1)
                        &&& is_due(packets, id.value, resend_delay, now)
                        &&& final(self)@.send == old(self)@.send.with(
                            id,
                            packets[id.value].rebalanced(),
                        )
                        &&& wanted == final(self)@.send.packets[id.value].queue.wanted(
                            final(self)@.send.packets[id.value].batch_size,
                        )
                    },
                    None => {
                        &&& missed == old(round)@.len()
                        &&& final(round)@ == Seq::<u128>::empty()
                        &&& final(self)@ == old(self)@
                    },
                }
            }),
    {
        self.send_buffer.next_batch(round, resend_delay, now)
    }

    /// Takes in the parts of a packet that were received from the channel, and returns what has to
    /// be sent.
    pub fn batch(&mut self, id: PacketId, supplied: Vec<PacketBuffer>) -> (datagrams: Vec<Vec<u8>>)
        requires
            old(self).wf(),
            old(self)@.send.packets.contains_key(id.value),
            all_wf(supplied@),
            none_acked(buffer_views(supplied@)),
            supplied@.len() <= old(self)@.send.packets[id.value].queue.wanted(
                old(self)@.send.packets[id.value].batch_size,
            ),
        ensures
            final(self).wf(),
            final(self)@ == (PacketBuffersView {
                send: old(self)@.send.with(
                    id,
                    PacketOutView {
                        queue: old(self)@.send.packets[id.value].queue.after_supply(
                            buffer_views(supplied@),
                        ),
                        ..old(self)@.send.packets[id.value]
                    },
                ),
                ..old(self)@
            }),
            datagram_views(datagrams@) == final(self)@.send.packets[id.value].transmission(id),
            datagrams@.len() > 0,
    {
        self.send_buffer.batch(id, supplied)
    }

    /// Concludes sending a batch of a packet, which is forgotten if it consisted of a done packet.
    ///
    /// Returns whether the packet was forgotten. The round is over if something could not be sent.
    pub fn finish_batch(
        &mut self,
        round: &mut Round,
        id: PacketId,
        outcome: Result<(), std::io::Error>,
        now: Instant,
    ) -> (result: Result<bool, std::io::Error>)
        requires
            old(self).wf(),
            old(self)@.send.packets.contains_key(id.value),
        ensures
            final(self).wf(),
            final(self)@.receive == old(self)@.receive,
            match outcome {
                Ok(_) => {
                    let packet = old(self)@.send.packets[id.value];
                    let is_done = pending(packet.queue.packets).len() == 0;
                    &&& result == Ok::<bool, std::io::Error>(is_done)
                    &&& final(round)@ == old(round)@
                    &&& final(self)@.send == if is_done {
                        old(self)@.send.without(id)
                    } else {
                        old(self)@.send.with(id, packet.after_batch(now))
                    }
                },
                Err(error) => {
                    &&& final(self)@.send == old(self)@.send
                    &&& result == Err::<bool, _>(error)
                    &&& final(round)@ == Seq::<u128>::empty()
                },
            },
    {
        self.send_buffer.finish_batch(round, id, outcome, now)
    }

    /// The packet with the given id, if it is being sent.
    pub fn packet(&self, id: PacketId) -> (packet: Option<&PacketOut>)
        requires
            self.wf(),
        ensures
            packet is Some <==> self@.send.packets.contains_key(id.value),
            packet matches Some(packet) ==> packet.wf() && packet@
                == self@.send.packets[id.value],
    {
        self.send_buffer.packet(id)
    }

    /// Handles a datagram of the peer.
    pub fn handle<'a>(&'a mut self, buf: &'a [u8], now: Instant) -> (result: Result<
        PacketHandling<'a>,
        HandlePacketError,
    >)
        requires
            old(self).wf(),
        ensures
            final(self).wf(),
            final(self)@ == old(self)@.after_handling(buf@, now),
            match old(self)@.handling(buf@) {
                Ok(handling) => result matches Ok(result) && result@ == handling,
                Err(error) => result == Err::<PacketHandling<'a>, _>(error),
            },
    {
        if buf.len() == 0 {
            return Err(HandlePacketError::Empty);
        }
        match self.receive_buffer.handle(buf, now) {
            Ok(ReceivedPacketHandling::Ack(pending)) => {
                return Ok(PacketHandling::Received(pending));
            },
            Ok(ReceivedPacketHandling::Done { known_packet }) => {
                return Ok(PacketHandling::Done { known_packet });
            },
            Ok(ReceivedPacketHandling::Unhandled) => {},
            Err(error) => {
                return Err(error);
            },
        }
        match self.send_buffer.handle(buf, now) {
            Ok(SentPacketHandling::Ack { duplicate }) => Ok(PacketHandling::Ack { duplicate }),
            Ok(SentPacketHandling::Unhandled) => Err(HandlePacketError::UnexpectedKind(buf[0])),
            Err(error) => Err(error),
        }
    }

    /// Forgets packets that timed out.
    pub fn timeout_packets(
        &mut self,
        resend_delay: Duration,
        max_missed_acks: Option<usize>,
        receive_timeout: Option<Duration>,
        now: Instant,
    )
        requires
            old(self).wf(),
        ensures
            final(self).wf(),
            final(self)@ == old(self)@.after_timeout(
                resend_delay,
                max_missed_acks,
                receive_timeout,
                now,
            ),
    {
        if let Some(max_missed_acks) = max_missed_acks {
            self.send_buffer.timeout_packets(max_missed_acks, resend_delay, now);
        }
        if let Some(receive_timeout) = receive_timeout {
            self.receive_buffer.timeout_packets(receive_timeout, now);
        }
    }
}

/// Acks have no influence on what is being received, and everything else has no influence on what is
/// being sent.
pub proof fn law_sides(buffers: PacketBuffersView, datagram: Seq<u8>, now: Instant)
    ensures
        kind_of(datagram) == Some(PacketKind::Ack) ==> buffers.after_handling(
            datagram,
            now,
        ).receive == buffers.receive,
        kind_of(datagram) != Some(PacketKind::Ack) ==> buffers.after_handling(datagram, now).send
            == buffers.send,
{
}

/// What is received by one peer reaches exactly the packet and the part that the other peer has
/// sent: the ack for a part that was received marks that part as acked.
pub proof fn law_acked_by_receiver(
    sender: PacketBuffersView,
    receiver: PacketBuffersView,
    id: PacketId,
    bytes: Seq<u8>,
    index: int,
    now: Instant,
)
    requires
        part_count(bytes.len()) <= MAX_PART_COUNT,
        0 <= index < part_count(bytes.len()),
        sender.send.packets.contains_key(id.value),
        sender.send.packets[id.value].queue.wf(),
        index < sender.send.packets[id.value].queue.known_count(),
        receiver.handling(part(id, bytes, index)) is Ok,
    ensures
        receiver.handling(part(id, bytes, index)) matches Ok(
            PacketHandlingView::Received { id: acked_id, seq_index, .. },
        ) && ({
            let after = sender.after_handling(ack_datagram(acked_id, seq_index), now);
            &&& sender.handling(ack_datagram(acked_id, seq_index)) == Ok::<_, HandlePacketError>(
                PacketHandlingView::Ack {
                    duplicate: sender.send.packets[id.value].queue.is_acked(index),
                },
            )
            &&& after.send.packets[id.value].queue.is_acked(index)
        }),
{
    law_part_handling(receiver.receive, id, bytes, index, now);
    law_ack_handling(sender.send, id, index as SeqIndex, now);
    law_ack_datagram(id, index as SeqIndex);
    law_ack(sender.send.packets[id.value].queue, index, index);
}

/// The first byte of a datagram decides who handles it: parts and done packets are handled by what is
/// being received, acks by what is being sent, and nothing else is expected.
pub proof fn law_dispatch(buffers: PacketBuffersView, datagram: Seq<u8>)
    ensures
        datagram.len() == 0 ==> buffers.handling(datagram) == Err::<PacketHandlingView, _>(
            HandlePacketError::Empty,
        ),
        datagram.len() > 0 && !(2 <= datagram[0] <= 5) ==> buffers.handling(datagram) == Err::<
            PacketHandlingView,
            _,
        >(HandlePacketError::UnexpectedKind(datagram[0])),
        datagram.len() > 0 && datagram[0] == 4 ==> match buffers.send.handling(datagram) {
            Ok(SentPacketHandling::Ack { duplicate }) => buffers.handling(datagram) == Ok::<
                _,
                HandlePacketError,
            >(PacketHandlingView::Ack { duplicate }),
            Ok(SentPacketHandling::Unhandled) => false,
            Err(error) => buffers.handling(datagram) == Err::<PacketHandlingView, _>(error),
        },
        datagram.len() > 0 && (datagram[0] == 2 || datagram[0] == 3 || datagram[0] == 5)
            ==> match buffers.receive.handling(datagram) {
            Ok(ReceivedPacketHandlingView::Ack { id, seq_index, received }) => buffers.handling(
                datagram,
            ) == Ok::<_, HandlePacketError>(
                PacketHandlingView::Received { id, seq_index, received },
            ),
            Ok(ReceivedPacketHandlingView::Done { known_packet }) => buffers.handling(datagram)
                == Ok::<_, HandlePacketError>(PacketHandlingView::Done { known_packet }),
            Ok(ReceivedPacketHandlingView::Unhandled) => false,
            Err(error) => buffers.handling(datagram) == Err::<PacketHandlingView, _>(error),
        },
{
}

/// What is received is what each of the two sides makes of it.
pub proof fn law_both_sides(buffers: PacketBuffersView, datagram: Seq<u8>, now: Instant)
    ensures
        buffers.after_handling(datagram, now).send == buffers.send.after_handling(datagram, now),
        buffers.after_handling(datagram, now).receive == buffers.receive.after_handling(
            datagram,
            now,
        ),
{
}

/// A packet is only kept track of if its first batch could be sent, and has no influence on others.
pub proof fn law_send(
    buffers: PacketBuffersView,
    attempt: SendAttempt,
    now: Instant,
    other: u128,
)
    ensures
        ({
            let after = buffers.after_send(attempt, now);
            &&& attempt.outcome is Err ==> after == buffers
            &&& after.receive == buffers.receive
            &&& after.send.batch_size == buffers.send.batch_size
            &&& attempt.outcome is Ok ==> {
                &&& after.send.packets.contains_key(attempt.id.value)
                &&& after.send.packets[attempt.id.value].queue == attempt.queue@
                &&& after.send.packets[attempt.id.value].batch_size == buffers.send.batch_size
                &&& after.send.packets[attempt.id.value].last_send == now
            }
            &&& other != attempt.id.value ==> (after.send.packets.contains_key(other)
                <==> buffers.send.packets.contains_key(other))
            &&& other != attempt.id.value && buffers.send.packets.contains_key(other)
                ==> after.send.packets[other] == buffers.send.packets[other]
        }),
{
}

/// Packets are only forgotten if there is a limit, and that limit is exceeded.
pub proof fn law_timeouts(
    buffers: PacketBuffersView,
    resend_delay: Duration,
    max_missed_acks: Option<usize>,
    receive_timeout: Option<Duration>,
    now: Instant,
    id: u128,
)
    requires
        receive_timeout matches Some(timeout) ==> timeout.nanos > 0,
        buffers.send.packets.contains_key(id) ==> 0 <= buffers.send.packets[id].missed_acks
            < usize::MAX,
    ensures
        ({
            let after = buffers.after_timeout(resend_delay, max_missed_acks, receive_timeout, now);
            let sent = buffers.send.packets[id];
            let received = buffers.receive.packets[id];
            let is_missed = !sent.is_answered && (resend_delay.nanos == 0 || now.nanos
                >= sent.last_send.nanos + resend_delay.nanos);
            let missed = if is_missed {
                sent.missed_acks + 1
            } else {
                sent.missed_acks
            };
            &&& after.send.batch_size == buffers.send.batch_size
            &&& after.send.packets.contains_key(id) <==> buffers.send.packets.contains_key(id) && (
            max_missed_acks is None || missed <= max_missed_acks->Some_0)
            &&& after.send.packets.contains_key(id) ==> after.send.packets[id] == sent
            &&& after.receive.packets.contains_key(id) <==> buffers.receive.packets.contains_key(id)
                && (receive_timeout is None || now.nanos < received.last_receive.nanos
                + receive_timeout->Some_0.nanos)
            &&& after.receive.packets.contains_key(id) ==> after.receive.packets[id] == received
        }),
{
}

/// Starting a round changes nothing but how many parts of new packets are sent at once, and not even
/// that if there are no packets.
pub proof fn law_round_start(buffers: PacketBuffersView, ids: Seq<u128>)
    ensures
        ({
            let after = buffers.after_round_start(ids);
            &&& after.receive == buffers.receive
            &&& after.send.packets == buffers.send.packets
            &&& ids.len() == 0 ==> after.send.batch_size == buffers.send.batch_size
            &&& ids.len() > 0 ==> after.send.batch_size == mean_batch_size(
                batch_size_sum(buffers.send.packets, ids),
                ids.len() as int,
            )
        }),
{
}

/// Nothing is being sent or received at first.
pub proof fn law_new_buffers(batch_size: int, id: u128)
    ensures
        PacketBuffersView::new(batch_size).send.batch_size == batch_size,
        !PacketBuffersView::new(batch_size).send.packets.contains_key(id),
        !PacketBuffersView::new(batch_size).receive.packets.contains_key(id),
{
}

} // verus!
