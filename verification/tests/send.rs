use std::io;

use ultinet::packet::buffer::PacketBuffer;
use ultinet::packet::queue::PacketQueue;
use ultinet::packet::send::PacketOut;
use ultinet::packet::send_buffer::SendPacketBuffer;
use ultinet::packet::serialize::{serialize_packet, SerializedPacket};
use ultinet::packet::wire::{ack, done};
use ultinet::packet::{
    HandlePacketError, NonZeroBatchSize, PacketAckError, PacketAckErrorKind, PacketId, Round,
    SentPacketHandling, SeqIndexAckedBeforeSent,
};
use ultinet::time::{Duration, Instant};

const DELAY: Duration = Duration { nanos: 100 };

fn id() -> PacketId {
    PacketId { value: 7 }
}

fn at(nanos: u128) -> Instant {
    Instant { nanos }
}

fn size(value: u16) -> NonZeroBatchSize {
    NonZeroBatchSize::new(value).unwrap()
}

/// The parts of a packet that is split into the given number of them.
fn parts(count: usize) -> Vec<PacketBuffer> {
    match serialize_packet(id(), count, &vec![1; 491 * count]) {
        SerializedPacket::Vec(parts) => parts,
        SerializedPacket::Channel(_) => panic!("should not exceed the threshold"),
    }
}

fn datagrams(count: usize) -> Vec<Vec<u8>> {
    parts(count).iter().map(|part| part.as_bytes().to_vec()).collect()
}

fn failure() -> io::Error {
    io::Error::new(io::ErrorKind::Other, "unplugged")
}

#[test]
fn queue_hands_out_unacked_parts() {
    let mut queue = PacketQueue::from_parts(parts(5));
    let all = datagrams(5);
    assert_eq!(queue.batch(3), all[..3]);
    assert_eq!(queue.batch(9), all);
    assert_eq!(queue.pending_count(3), 3);
    assert_eq!(queue.pending_count(9), 5);
    assert_eq!(queue.wanted(9), 0);

    assert_eq!(queue.ack(1), Ok(false));
    assert_eq!(queue.first_unacked(), 0);
    assert_eq!(queue.ack(1), Ok(true));
    assert_eq!(queue.batch(2), [all[0].clone(), all[2].clone()]);
    assert_eq!(queue.ack(0), Ok(false));
    assert_eq!(queue.first_unacked(), 2);
    // the index keeps its meaning after parts were removed
    assert_eq!(queue.ack(0), Ok(true));
    assert_eq!(queue.ack(1), Ok(true));
    assert_eq!(queue.ack(3), Ok(false));
    assert_eq!(queue.batch(9), [all[2].clone(), all[4].clone()]);
    assert_eq!(queue.ack(5), Err(SeqIndexAckedBeforeSent { seq_index: 5 }));
    assert_eq!(queue.ack(2), Ok(false));
    assert_eq!(queue.ack(4), Ok(false));
    assert_eq!(queue.first_unacked(), 5);
    assert!(queue.batch(9).is_empty());
}

#[test]
fn queue_is_supplied_by_a_channel() {
    let mut queue = PacketQueue::from_channel();
    let all = datagrams(4);
    let mut channel = parts(4).into_iter();
    assert_eq!(queue.wanted(2), 2);
    queue.supply(channel.by_ref().take(2).collect());
    assert_eq!(queue.wanted(2), 0);
    assert_eq!(queue.batch(2), all[..2]);
    assert_eq!(queue.ack(2), Err(SeqIndexAckedBeforeSent { seq_index: 2 }));
    assert_eq!(queue.ack(0), Ok(false));
    assert_eq!(queue.wanted(3), 2);
    queue.supply(channel.collect());
    assert_eq!(queue.batch(3), all[1..]);
    queue.supply(vec![]);
    assert_eq!(queue.wanted(5), 2);
}

#[test]
fn batch_size_is_balanced() {
    let balanced = |old: u16, acks: u16, last: u16| {
        PacketOut::balance_batch_size(size(old), acks, size(last)).get()
    };
    // everything was acked
    assert_eq!(balanced(8, 8, 8), 16);
    assert_eq!(balanced(8, 9, 8), 16);
    assert_eq!(balanced(8, 2, 2), 8);
    assert_eq!(balanced(8, 5, 5), 10);
    assert_eq!(balanced(40000, 40000, 40000), 65535);
    // something was not
    assert_eq!(balanced(8, 7, 8), 4);
    assert_eq!(balanced(9, 0, 1), 4);
    assert_eq!(balanced(1, 0, 1), 1);
}

#[test]
fn packets_are_resent_until_they_are_acked() {
    let queue = PacketQueue::from_parts(parts(5));
    let all = datagrams(5);
    let mut packet = PacketOut::send(queue, size(2), Ok(()), at(0)).unwrap();
    assert_eq!(packet.batch_size().get(), 2);
    assert_eq!(packet.last_batch_bytes(), 1024);
    assert_eq!(packet.acked_bytes(), 0);
    assert_eq!(packet.start_batch(DELAY, at(99)), None);

    // both parts were acked, so the next batch contains up to twice as many
    assert!(matches!(packet.ack(0, at(10)), Ok(false)));
    assert!(matches!(packet.ack(1, at(20)), Ok(false)));
    assert!(matches!(packet.ack(1, at(30)), Ok(true)));
    assert_eq!(packet.awaiting_ack_since(), at(30));
    assert_eq!(packet.acked_bytes(), 1024);
    assert_eq!(packet.start_batch(DELAY, at(100)), Some(0));
    assert_eq!(packet.batch_size().get(), 4);
    assert_eq!(packet.batch(id(), vec![]), all[2..]);
    assert!(matches!(packet.finish_batch(Ok(()), at(101)), Ok(false)));
    assert_eq!(packet.last_batch_bytes(), 1536);
    assert_eq!(packet.missed_acks(DELAY, at(200)), 0);
    assert_eq!(packet.missed_acks(DELAY, at(201)), 1);

    // nothing was acked, so there are fewer parts
    assert_eq!(packet.start_batch(DELAY, at(200)), None);
    assert_eq!(packet.start_batch(DELAY, at(201)), Some(0));
    assert_eq!(packet.batch(id(), vec![]), all[2..4]);
    assert!(packet.finish_batch(Err(failure()), at(201)).is_err());
    assert_eq!(packet.missed_acks(DELAY, at(200)), 0);
    assert_eq!(packet.start_batch(DELAY, at(202)), Some(0));
    assert_eq!(packet.batch(id(), vec![]), all[2..3]);
    assert!(matches!(packet.finish_batch(Ok(()), at(202)), Ok(false)));
    assert_eq!(packet.missed_acks(DELAY, at(202)), 1);

    for index in [4, 2, 3] {
        assert!(matches!(packet.ack(index, at(210)), Ok(false)));
    }
    assert_eq!(packet.missed_acks(DELAY, at(999)), 0);
    assert!(packet.ack(5, at(220)).is_err());
    assert_eq!(packet.start_batch(DELAY, at(302)), Some(0));
    assert_eq!(packet.batch(id(), vec![]), [done(id())]);
    assert!(matches!(packet.finish_batch(Ok(()), at(302)), Ok(true)));
}

#[test]
fn packets_are_forgotten_if_the_first_batch_fails() {
    let queue = PacketQueue::from_parts(parts(1));
    assert!(PacketOut::send(queue, size(2), Err(failure()), at(0)).is_err());

    let mut buffer = SendPacketBuffer::new(size(2));
    let queue = PacketQueue::from_parts(parts(1));
    assert!(buffer.send(id(), queue, Err(failure()), at(0)).is_err());
    assert!(buffer.packet(id()).is_none());
}

#[test]
fn packets_take_turns_in_the_order_of_their_ids() {
    let mut buffer = SendPacketBuffer::new(size(3));
    for value in [5, 1 << 100, 2] {
        let queue = PacketQueue::from_parts(parts(8));
        let id = PacketId { value };
        assert_eq!(buffer.send(id, queue, Ok(()), at(0)).unwrap(), id);
    }
    let mut round = buffer.start_round();
    assert_eq!(round.remaining(), [2, 5, 1 << 100]);
    assert_eq!(buffer.batch_size().get(), 3);
    // it is too early
    assert_eq!(buffer.next_batch(&mut round, DELAY, at(50)), None);
    assert!(round.remaining().is_empty());

    // acking one packet fully makes it grow
    let id = PacketId { value: 5 };
    for index in 0..3 {
        assert!(matches!(buffer.ack(id, index, at(1)), Ok(false)));
    }
    let mut round = Round::new(vec![3, 5]);
    // nothing is known about the first packet
    assert_eq!(buffer.next_batch(&mut round, DELAY, at(100)), Some((id, 0)));
    assert_eq!(buffer.batch(id, vec![]).len(), 5);
    assert!(matches!(buffer.finish_batch(&mut round, id, Ok(()), at(100)), Ok(false)));

    let mut round = buffer.start_round();
    assert_eq!(buffer.batch_size().get(), 4);
    let first = PacketId { value: 2 };
    let last = PacketId { value: 1 << 100 };
    assert_eq!(buffer.next_batch(&mut round, DELAY, at(150)), Some((first, 0)));
    assert_eq!(round.remaining(), [5, 1 << 100]);
    assert!(matches!(buffer.finish_batch(&mut round, first, Ok(()), at(150)), Ok(false)));
    // the second packet had its turn a moment ago
    assert_eq!(buffer.next_batch(&mut round, DELAY, at(150)), Some((last, 0)));
    assert!(matches!(buffer.finish_batch(&mut round, last, Ok(()), at(150)), Ok(false)));
    assert_eq!(buffer.next_batch(&mut round, DELAY, at(150)), None);

    let mut empty = SendPacketBuffer::new(size(9));
    assert!(empty.start_round().remaining().is_empty());
    assert_eq!(empty.batch_size().get(), 9);
}

#[test]
fn acks_are_handled() {
    let mut buffer = SendPacketBuffer::new(size(8));
    let queue = PacketQueue::from_parts(parts(2));
    buffer.send(id(), queue, Ok(()), at(0)).unwrap();

    let datagram = ack(id(), 1);
    let handle = |buffer: &mut SendPacketBuffer, datagram: &[u8]| buffer.handle(datagram, at(1));
    assert!(matches!(
        handle(&mut buffer, &datagram),
        Ok(SentPacketHandling::Ack { duplicate: false })
    ));
    assert!(matches!(
        handle(&mut buffer, &datagram),
        Ok(SentPacketHandling::Ack { duplicate: true })
    ));
    assert!(matches!(handle(&mut buffer, &[]), Err(HandlePacketError::Empty)));
    assert!(matches!(handle(&mut buffer, &datagram[..20]), Err(HandlePacketError::Malformed)));
    assert!(matches!(handle(&mut buffer, &datagram[..5]), Err(HandlePacketError::Malformed)));
    assert!(matches!(handle(&mut buffer, &[77]), Ok(SentPacketHandling::Unhandled)));
    assert!(matches!(handle(&mut buffer, &done(id())), Ok(SentPacketHandling::Unhandled)));
    let unknown = PacketId { value: 8 };
    assert!(matches!(
        handle(&mut buffer, &ack(unknown, 0)),
        Err(HandlePacketError::Ack(PacketAckError {
            id,
            kind: PacketAckErrorKind::InvalidPacketId,
        })) if id == unknown
    ));
    assert!(matches!(
        handle(&mut buffer, &ack(id(), 2)),
        Err(HandlePacketError::Ack(PacketAckError {
            kind: PacketAckErrorKind::SeqIndexAckedBeforeSent(SeqIndexAckedBeforeSent {
                seq_index: 2,
            }),
            ..
        }))
    ));

    assert!(matches!(buffer.ack(id(), 0, at(2)), Ok(false)));
    let mut round = Round::new(vec![7, 8]);
    assert_eq!(buffer.next_batch(&mut round, DELAY, at(100)), Some((id(), 0)));
    assert_eq!(buffer.batch(id(), vec![]), [done(id())]);
    assert!(buffer.finish_batch(&mut round, id(), Err(failure()), at(100)).is_err());
    // nobody else takes a turn
    assert!(round.remaining().is_empty());
    assert!(buffer.packet(id()).is_some());
    assert!(matches!(buffer.finish_batch(&mut round, id(), Ok(()), at(100)), Ok(true)));
    assert!(buffer.packet(id()).is_none());
}

#[test]
fn packets_without_acks_time_out() {
    let mut buffer = SendPacketBuffer::new(size(8));
    for value in [7, 8] {
        let queue = PacketQueue::from_parts(parts(2));
        buffer.send(PacketId { value }, queue, Ok(()), at(0)).unwrap();
    }
    // it is resent three times
    for count in 1..=3 {
        let now = at(count * 100);
        buffer.timeout_packets(3, DELAY, now);
        assert_eq!(buffer.packet(id()).unwrap().missed_acks(DELAY, now), count as usize);
        let mut round = Round::new(vec![7]);
        assert_eq!(buffer.next_batch(&mut round, DELAY, now), Some((id(), 0)));
        buffer.batch(id(), vec![]);
        buffer.finish_batch(&mut round, id(), Ok(()), now).unwrap();
    }
    let other = PacketId { value: 8 };
    assert!(matches!(buffer.ack(other, 0, at(350)), Ok(false)));
    buffer.timeout_packets(3, DELAY, at(399));
    assert!(buffer.packet(id()).is_some());
    buffer.timeout_packets(3, DELAY, at(400));
    assert!(buffer.packet(id()).is_none());
    assert!(buffer.packet(other).is_some());
}

#[test]
fn packets_that_may_not_miss_acks_are_never_resent() {
    let mut buffer = SendPacketBuffer::new(size(8));
    let queue = PacketQueue::from_parts(parts(2));
    buffer.send(id(), queue, Ok(()), at(0)).unwrap();
    buffer.timeout_packets(0, DELAY, at(99));
    assert!(buffer.packet(id()).is_some());
    buffer.timeout_packets(0, DELAY, at(100));
    assert!(buffer.packet(id()).is_none());
}
