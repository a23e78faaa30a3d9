use std::io;

use ultinet::packet::queue::PacketQueue;
use ultinet::packet::receive::ReceivedPacket;
use ultinet::packet::receive_buffer::ReceivePacketBuffer;
use ultinet::packet::serialize::{serialize_packet, SerializedPacket};
use ultinet::packet::wire::{ack, done};
use ultinet::packet::{
    HandlePacketError, NonZeroBatchSize, PacketBuffers, PacketHandling, PacketId,
    PacketReceiveError, PacketReceiveErrorKind, ReceivedPacketHandling, SendAttempt,
};
use ultinet::time::{Duration, Instant};

fn at(nanos: u128) -> Instant {
    Instant { nanos }
}

fn size(value: u16) -> NonZeroBatchSize {
    NonZeroBatchSize::new(value).unwrap()
}

fn failure() -> io::Error {
    io::Error::new(io::ErrorKind::Other, "unplugged")
}

fn bytes(len: usize) -> Vec<u8> {
    (0..len).map(|i| (i % 251) as u8).collect()
}

fn datagrams(id: PacketId, bytes: &[u8]) -> Vec<Vec<u8>> {
    match serialize_packet(id, 1000, bytes) {
        SerializedPacket::Vec(parts) => {
            parts.iter().map(|part| part.as_bytes().to_vec()).collect()
        }
        SerializedPacket::Channel(_) => panic!("should not exceed the threshold"),
    }
}

fn attempt(id: PacketId, bytes: &[u8]) -> SendAttempt {
    match serialize_packet(id, 1000, bytes) {
        SerializedPacket::Vec(parts) => {
            SendAttempt { id, queue: PacketQueue::from_parts(parts), outcome: Ok(()) }
        }
        SerializedPacket::Channel(_) => panic!("should not exceed the threshold"),
    }
}

#[derive(Debug, PartialEq)]
enum Received {
    Pending,
    Duplicate,
    Reassembled(Vec<u8>),
}

fn received(packet: ReceivedPacket) -> Received {
    match packet {
        ReceivedPacket::Pending => Received::Pending,
        ReceivedPacket::Duplicate => Received::Duplicate,
        ReceivedPacket::Reassembled(bytes) => Received::Reassembled(bytes.to_vec()),
    }
}

/// Handles a part and returns the ack for it.
fn receive(
    buffer: &mut ReceivePacketBuffer,
    datagram: &[u8],
    now: Instant,
) -> Result<(Vec<u8>, Received), HandlePacketError> {
    match buffer.handle(datagram, now)? {
        ReceivedPacketHandling::Ack(pending) => {
            let ack = pending.datagram();
            Ok((ack, received(pending.conclude(Ok(true)).unwrap())))
        }
        _ => panic!("should be a part"),
    }
}

#[test]
fn single_parts_are_delivered_once() {
    let mut buffer = ReceivePacketBuffer::new();
    let id = PacketId { value: 1 };
    let parts = datagrams(id, &[1, 2, 3]);
    let expected = (ack(id, 0), Received::Reassembled(vec![1, 2, 3]));
    assert_eq!(receive(&mut buffer, &parts[0], at(0)).unwrap(), expected);
    let expected = (ack(id, 0), Received::Duplicate);
    assert_eq!(receive(&mut buffer, &parts[0], at(0)).unwrap(), expected);
    assert!(buffer.done(id));
    assert!(!buffer.done(id));
    let expected = (ack(id, 0), Received::Reassembled(vec![1, 2, 3]));
    assert_eq!(receive(&mut buffer, &parts[0], at(0)).unwrap(), expected);
}

#[test]
fn parts_of_several_packets_can_be_mixed() {
    let mut buffer = ReceivePacketBuffer::new();
    let (first, second) = (PacketId { value: 1 }, PacketId { value: 2 });
    let (a, b) = (bytes(1200), bytes(700));
    let first_parts = datagrams(first, &a);
    let second_parts = datagrams(second, &b);
    let mut handle = |datagram: &[u8]| receive(&mut buffer, datagram, at(0)).unwrap();
    assert_eq!(handle(&first_parts[2]), (ack(first, 2), Received::Pending));
    assert_eq!(handle(&second_parts[0]), (ack(second, 0), Received::Pending));
    assert_eq!(handle(&first_parts[0]), (ack(first, 0), Received::Pending));
    assert_eq!(handle(&first_parts[0]), (ack(first, 0), Received::Duplicate));
    assert_eq!(handle(&second_parts[1]), (ack(second, 1), Received::Reassembled(b)));
    assert_eq!(handle(&first_parts[1]), (ack(first, 1), Received::Reassembled(a)));
    assert_eq!(handle(&first_parts[2]), (ack(first, 2), Received::Duplicate));
}

#[test]
fn kinds_of_packets_must_match() {
    let id = PacketId { value: 1 };
    let single = &datagrams(id, &[1])[0];
    let multiple = &datagrams(id, &bytes(700))[0];
    for (first, second) in [(single, multiple), (multiple, single)] {
        let mut buffer = ReceivePacketBuffer::new();
        receive(&mut buffer, first, at(0)).unwrap();
        assert!(matches!(
            receive(&mut buffer, second, at(0)),
            Err(HandlePacketError::Receive(PacketReceiveError {
                id: PacketId { value: 1 },
                kind: PacketReceiveErrorKind::Mismatch,
            }))
        ));
    }
}

#[test]
fn kinds_of_packets_match_again_once_they_are_forgotten() {
    let id = PacketId { value: 1 };
    let single = &datagrams(id, &[1])[0];
    let multiple = &datagrams(id, &bytes(700))[0];
    let mut buffer = ReceivePacketBuffer::new();
    receive(&mut buffer, single, at(0)).unwrap();
    receive(&mut buffer, single, at(5)).unwrap();
    // a mismatch counts as data nevertheless
    assert!(receive(&mut buffer, multiple, at(50)).is_err());
    buffer.timeout_packets(Duration { nanos: 100 }, at(149));
    assert!(receive(&mut buffer, multiple, at(149)).is_err());
    buffer.timeout_packets(Duration { nanos: 100 }, at(249));
    assert_eq!(receive(&mut buffer, multiple, at(249)).unwrap().1, Received::Pending);
    assert!(receive(&mut buffer, single, at(249)).is_err());
}

#[test]
fn incomplete_datagrams_are_malformed() {
    let mut buffer = ReceivePacketBuffer::new();
    let id = PacketId { value: 1 };
    let part = &datagrams(id, &[1])[0];
    assert!(matches!(buffer.handle(&[], at(0)), Err(HandlePacketError::Empty)));
    assert!(matches!(buffer.handle(&part[..20], at(0)), Err(HandlePacketError::Malformed)));
    assert!(matches!(buffer.handle(&done(id)[..16], at(0)), Err(HandlePacketError::Malformed)));
    assert!(matches!(buffer.handle(&ack(id, 0), at(0)), Ok(ReceivedPacketHandling::Unhandled)));
    assert!(matches!(buffer.handle(&[200], at(0)), Ok(ReceivedPacketHandling::Unhandled)));
    assert!(matches!(
        buffer.handle(&done(id), at(0)),
        Ok(ReceivedPacketHandling::Done { known_packet: false })
    ));
    receive(&mut buffer, part, at(0)).unwrap();
    assert!(matches!(
        buffer.handle(&done(id), at(0)),
        Ok(ReceivedPacketHandling::Done { known_packet: true })
    ));
}

#[test]
fn failed_acks_are_reported() {
    let mut buffer = ReceivePacketBuffer::new();
    let id = PacketId { value: 1 };
    let part = &datagrams(id, &[1])[0];
    let Ok(ReceivedPacketHandling::Ack(pending)) = buffer.handle(part, at(0)) else {
        panic!("should be a part");
    };
    assert!(matches!(
        pending.conclude(Err(failure())),
        Err(PacketReceiveError {
            id: PacketId { value: 1 },
            kind: PacketReceiveErrorKind::Io(_),
        })
    ));
    let Ok(ReceivedPacketHandling::Ack(pending)) = buffer.handle(part, at(0)) else {
        panic!("should be a part");
    };
    // it does not matter if the ack was not sent because the socket would block
    assert_eq!(received(pending.conclude(Ok(false)).unwrap()), Received::Duplicate);
}

#[test]
fn received_packets_time_out() {
    let mut buffer = ReceivePacketBuffer::new();
    let (first, second) = (PacketId { value: 1 }, PacketId { value: 2 });
    let bytes = bytes(1200);
    let first_parts = datagrams(first, &bytes);
    let second_parts = datagrams(second, &bytes);
    receive(&mut buffer, &first_parts[0], at(0)).unwrap();
    receive(&mut buffer, &second_parts[0], at(0)).unwrap();
    receive(&mut buffer, &second_parts[1], at(50)).unwrap();
    buffer.timeout_packets(Duration { nanos: 100 }, at(99));
    buffer.timeout_packets(Duration { nanos: 100 }, at(100));
    assert!(!buffer.done(first));
    assert_eq!(
        receive(&mut buffer, &second_parts[2], at(100)).unwrap().1,
        Received::Reassembled(bytes)
    );
}

#[test]
fn last_parts_can_be_empty() {
    let mut buffer = ReceivePacketBuffer::new();
    let id = PacketId { value: 1 };
    let mut datagram = datagrams(id, &[])[0].clone();
    datagram[17] = 1;
    assert_eq!(receive(&mut buffer, &datagram, at(0)).unwrap().1, Received::Pending);
    let first = &datagrams(id, &bytes(700))[0];
    assert_eq!(
        receive(&mut buffer, first, at(0)).unwrap().1,
        Received::Reassembled(bytes(491))
    );
}

/// Handles a datagram, and hands the ack for it to the sender if there is one.
fn exchange(
    sender: &mut PacketBuffers,
    receiver: &mut PacketBuffers,
    datagram: &[u8],
    now: Instant,
) -> Option<Received> {
    match receiver.handle(datagram, now).unwrap() {
        PacketHandling::Received(pending) => {
            let ack = pending.datagram();
            let received = received(pending.conclude(Ok(true)).unwrap());
            assert!(matches!(sender.handle(&ack, now), Ok(PacketHandling::Ack { .. })));
            Some(received)
        }
        PacketHandling::Done { known_packet } => {
            assert!(known_packet);
            None
        }
        PacketHandling::Ack { .. } => panic!("should not be an ack"),
    }
}

#[test]
fn packets_arrive_despite_losses() {
    let mut sender = PacketBuffers::new(size(4));
    let mut receiver = PacketBuffers::new(size(4));
    let id = PacketId::new();
    let bytes = bytes(491 * 20 + 7);
    assert_eq!(sender.send(attempt(id, &bytes), at(0)).unwrap(), id);
    assert_eq!(sender.batch_size().get(), 4);

    let delay = Duration { nanos: 10 };
    let mut delivered = 0;
    let mut now = 0;
    let mut sent = 0;
    while sender.packet(id).is_some() {
        now += 10;
        assert!(now < 10_000);
        let mut round = sender.start_update(delay, None, None, at(now));
        assert_eq!(round.remaining(), [id.value]);
        assert_eq!(sender.next_batch(&mut round, delay, at(now)), Some((id, 0)));
        let datagrams = sender.batch(id, vec![]);
        for datagram in &datagrams {
            sent += 1;
            // every third datagram gets lost
            if sent % 3 == 0 {
                continue;
            }
            if let Some(Received::Reassembled(received)) =
                exchange(&mut sender, &mut receiver, datagram, at(now))
            {
                assert_eq!(received, bytes);
                delivered += 1;
            }
        }
        sender.finish_batch(&mut round, id, Ok(()), at(now)).unwrap();
    }
    assert_eq!(delivered, 1);
}

#[test]
fn unexpected_kinds_are_reported() {
    let mut buffers = PacketBuffers::new(size(4));
    assert!(matches!(buffers.handle(&[], at(0)), Err(HandlePacketError::Empty)));
    for kind in [0, 1, 6, 99] {
        assert!(matches!(
            buffers.handle(&[kind, 1, 2], at(0)),
            Err(HandlePacketError::UnexpectedKind(unexpected)) if unexpected == kind
        ));
    }
}

#[test]
fn both_sides_time_out() {
    let mut buffers = PacketBuffers::new(size(4));
    let (sent, received) = (PacketId { value: 1 }, PacketId { value: 2 });
    buffers.send(attempt(sent, &[1]), at(0)).unwrap();
    buffers.handle(&datagrams(received, &[1])[0], at(0)).unwrap();
    let delay = Duration { nanos: 10 };
    for count in 1..=2 {
        let now = at(count * 10);
        let mut round = buffers.start_update(delay, None, None, now);
        assert_eq!(buffers.next_batch(&mut round, delay, now), Some((sent, 0)));
        buffers.batch(sent, vec![]);
        buffers.finish_batch(&mut round, sent, Ok(()), now).unwrap();
    }
    let round = buffers.start_update(delay, Some(3), Some(Duration { nanos: 31 }), at(30));
    assert_eq!(round.remaining(), [1]);
    let round = buffers.start_update(delay, Some(2), Some(Duration { nanos: 30 }), at(30));
    assert!(round.remaining().is_empty());
    assert!(matches!(
        buffers.handle(&done(received), at(30)),
        Ok(PacketHandling::Done { known_packet: false })
    ));
}

#[test]
fn failed_sends_leave_nothing_behind() {
    let mut buffers = PacketBuffers::new(size(4));
    let id = PacketId { value: 1 };
    let mut attempt = attempt(id, &[1]);
    attempt.outcome = Err(failure());
    assert!(buffers.send(attempt, at(0)).is_err());
    assert!(buffers.packet(id).is_none());
}
