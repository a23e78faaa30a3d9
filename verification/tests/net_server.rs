use std::io;

use ultinet::config::ServerConfig;
use ultinet::net::server::{
    ClientPacketKind, ClientPacketReaction, PingTask, Server, ServerReaction,
    UnexpectedClientPacket, UnlistenError,
};
use ultinet::net::{
    conclude_ack, HandlerError, PartInfo, RawPacket, Reaction, ReceivedPart, SocketAddr,
};
use ultinet::packet::queue::PacketQueue;
use ultinet::packet::serialize::{serialize_packet, SerializedPacket};
use ultinet::packet::wire::{ack, done, ping};
use ultinet::packet::{HandlePacketError, PacketId, SendAttempt};
use ultinet::time::{Duration, Instant};

fn at(nanos: u128) -> Instant {
    Instant { nanos }
}

fn addr(port: u16) -> SocketAddr {
    SocketAddr::V4 { ip: 0x7f00_0001, port }
}

fn failure() -> io::Error {
    io::Error::new(io::ErrorKind::Other, "unplugged")
}

fn datagram(id: PacketId, bytes: &[u8]) -> Vec<u8> {
    match serialize_packet(id, 1, bytes) {
        SerializedPacket::Vec(parts) => parts[0].as_bytes().to_vec(),
        SerializedPacket::Channel(_) => panic!("should not exceed the threshold"),
    }
}

fn attempt(value: u128, outcome: io::Result<()>) -> SendAttempt {
    let id = PacketId { value };
    match serialize_packet(id, 1, &[1]) {
        SerializedPacket::Vec(parts) => {
            SendAttempt { id, queue: PacketQueue::from_parts(parts), outcome }
        }
        SerializedPacket::Channel(_) => panic!("should not exceed the threshold"),
    }
}

fn listen(server: &mut Server, port: u16) {
    assert!(matches!(
        server.handle_datagram(addr(port), &[], at(0)),
        ServerReaction::VersionRequest
    ));
    server.handle_version_request(addr(port), Ok(true), at(0)).unwrap();
}

fn connect(server: &mut Server, port: u16) {
    listen(server, port);
    assert_eq!(
        server.handle_packet(addr(port), ClientPacketKind::Connect, at(0)),
        ClientPacketReaction::Decide
    );
    server.answer_sent(addr(port), true, attempt(1, Ok(())), at(0)).unwrap();
}

#[test]
fn version_requests_make_listeners() {
    let mut server = Server::new(ServerConfig::default());
    assert!(matches!(
        server.handle_datagram(addr(1), &[1], at(0)),
        ServerReaction::Unexpected(UnexpectedClientPacket::UnknownCompatibility)
    ));
    // not sent because the socket would block
    server.handle_version_request(addr(1), Ok(false), at(0)).unwrap();
    assert!(server.buffers_mut(addr(1)).is_none());
    assert!(matches!(
        server.handle_version_request(addr(1), Err(failure()), at(0)),
        Err(HandlerError::Send { receiver_addr, .. }) if receiver_addr == addr(1)
    ));
    assert!(server.buffers_mut(addr(1)).is_none());
    server.handle_version_request(addr(1), Ok(true), at(0)).unwrap();
    assert_eq!(server.buffers_mut(addr(1)).unwrap().batch_size().get(), 8);
    assert!(server.client(addr(1)).is_none());
}

#[test]
fn listeners_can_be_removed() {
    let mut server = Server::new(ServerConfig::default());
    listen(&mut server, 1);
    listen(&mut server, 2);
    listen(&mut server, 3);
    connect(&mut server, 4);
    assert_eq!(server.unlisten(addr(2)), Ok(true));
    assert_eq!(server.unlisten(addr(2)), Ok(false));
    assert_eq!(server.unlisten(addr(4)), Err(UnlistenError));
    assert!(server.buffers_mut(addr(1)).is_some());
    assert!(server.buffers_mut(addr(3)).is_some());
    server.unlisten_all();
    assert!(server.buffers_mut(addr(1)).is_none());
    assert!(server.buffers_mut(addr(3)).is_none());
    assert_eq!(server.client(addr(4)), Some(0));
}

#[test]
fn listeners_time_out() {
    let mut server = Server::new(ServerConfig::default());
    let day = Duration::from_secs(86400).nanos;
    listen(&mut server, 1);
    connect(&mut server, 2);
    server.handle_version_request(addr(3), Ok(true), at(5)).unwrap();
    server.timeout_listeners(at(day - 1));
    assert!(server.buffers_mut(addr(1)).is_some());
    server.timeout_listeners(at(day));
    assert!(server.buffers_mut(addr(1)).is_none());
    assert!(server.buffers_mut(addr(2)).is_some());
    assert!(server.buffers_mut(addr(3)).is_some());

    let config = ServerConfig { listener_timeout: None, ..ServerConfig::default() };
    let mut server = Server::new(config);
    listen(&mut server, 1);
    server.timeout_listeners(at(2 * day));
    assert!(server.buffers_mut(addr(1)).is_some());
    assert_eq!(server.config(), config);
}

#[test]
fn clients_keep_their_slots() {
    let mut server = Server::new(ServerConfig::default());
    for port in 1..=4 {
        connect(&mut server, port);
        assert_eq!(server.client(addr(port)), Some(port as usize - 1));
    }
    assert_eq!(
        server.handle_packet(addr(2), ClientPacketKind::Disconnect, at(9)),
        ClientPacketReaction::Deliver
    );
    assert_eq!(server.client(addr(2)), None);
    assert!(server.buffers_mut(addr(2)).is_some());
    assert_eq!(server.client(addr(4)), Some(3));
    assert_eq!(server.update_buffers(), [addr(1), addr(3), addr(4)]);
    connect(&mut server, 5);
    assert_eq!(server.client(addr(5)), Some(1));

    // connecting again disconnects
    assert_eq!(
        server.handle_packet(addr(4), ClientPacketKind::Connect, at(9)),
        ClientPacketReaction::Unexpected(UnexpectedClientPacket::AlreadyConnected)
    );
    assert_eq!(server.client(addr(4)), None);
    assert_eq!(server.update_buffers(), [addr(1), addr(5), addr(3)]);
    connect(&mut server, 6);
    assert_eq!(server.client(addr(6)), Some(3));
}

#[test]
fn packets_depend_on_the_connection() {
    let mut server = Server::new(ServerConfig::default());
    listen(&mut server, 1);
    connect(&mut server, 2);
    let unexpected = ClientPacketReaction::Unexpected(UnexpectedClientPacket::NotConnected);
    let mut handle = |port, kind| server.handle_packet(addr(port), kind, at(0));
    assert_eq!(handle(1, ClientPacketKind::Query), ClientPacketReaction::Status);
    assert_eq!(handle(2, ClientPacketKind::Query), ClientPacketReaction::Status);
    assert_eq!(handle(1, ClientPacketKind::User), unexpected);
    assert_eq!(handle(1, ClientPacketKind::Disconnect), unexpected);
    assert_eq!(handle(2, ClientPacketKind::User), ClientPacketReaction::Deliver);
    assert_eq!(handle(1, ClientPacketKind::Connect), ClientPacketReaction::Decide);
}

#[test]
fn rejected_clients_stay_listeners() {
    let mut server = Server::new(ServerConfig::default());
    listen(&mut server, 1);
    let id = server.answer_sent(addr(1), false, attempt(5, Ok(())), at(0)).unwrap();
    assert_eq!(id, PacketId { value: 5 });
    assert!(server.client(addr(1)).is_none());
    assert!(server.buffers_mut(addr(1)).unwrap().packet(id).is_some());

    assert!(matches!(
        server.answer_sent(addr(1), true, attempt(6, Err(failure())), at(0)),
        Err(HandlerError::Send { receiver_addr, .. }) if receiver_addr == addr(1)
    ));
    assert!(server.client(addr(1)).is_none());
}

#[test]
fn clients_are_disconnected_if_the_status_cannot_be_sent() {
    let mut server = Server::new(ServerConfig::default());
    listen(&mut server, 1);
    connect(&mut server, 2);
    for port in [1, 2] {
        server.status_sent(addr(port), attempt(7, Ok(())), at(0)).unwrap();
        assert!(server.status_sent(addr(port), attempt(8, Err(failure())), at(0)).is_err());
        assert!(server.client(addr(port)).is_none());
        let buffers = server.buffers_mut(addr(port)).unwrap();
        assert!(buffers.packet(PacketId { value: 7 }).is_some());
        assert!(buffers.packet(PacketId { value: 8 }).is_none());
    }
}

#[test]
fn clients_are_lost_if_an_update_fails() {
    let mut server = Server::new(ServerConfig::default());
    connect(&mut server, 1);
    connect(&mut server, 2);
    assert_eq!(server.update_buffers(), [addr(1), addr(2)]);
    assert_eq!(server.start_update(addr(2), at(1)).remaining(), [1]);
    server.finish_update(addr(1), Ok(())).unwrap();
    assert!(matches!(
        server.finish_update(addr(2), Err(failure())),
        Err(HandlerError::Send { receiver_addr, .. }) if receiver_addr == addr(2)
    ));
    assert!(server.buffers_mut(addr(2)).is_none());
    assert_eq!(server.unlisten(addr(2)), Ok(false));
    assert_eq!(server.update_buffers(), [addr(1)]);
}

#[test]
fn datagrams_of_known_peers_are_handled() {
    let mut server = Server::new(ServerConfig::default());
    connect(&mut server, 1);
    let id = PacketId { value: 9 };
    let packet = datagram(id, &[4, 5]);
    for info in [PartInfo::Reassembled, PartInfo::Duplicate] {
        let ServerReaction::Known(Reaction::Ack(pending)) =
            server.handle_datagram(addr(1), &packet, at(0))
        else {
            panic!("should be a part");
        };
        assert_eq!(pending.datagram(), ack(id, 0));
        let expected = RawPacket::Part { sender_addr: addr(1), info };
        match conclude_ack(pending, Ok(true), addr(1)) {
            ReceivedPart::Packet(raw, bytes) => {
                assert_eq!(info, PartInfo::Reassembled);
                assert_eq!(raw, expected);
                assert_eq!(bytes, [4, 5]);
            }
            ReceivedPart::Raw(raw) => assert_eq!(raw, expected),
            ReceivedPart::Error(_) => panic!("should be acked"),
        }
    }
    let ServerReaction::Known(Reaction::Ack(pending)) =
        server.handle_datagram(addr(1), &packet, at(0))
    else {
        panic!("should be a part");
    };
    assert!(matches!(
        conclude_ack(pending, Err(failure()), addr(1)),
        ReceivedPart::Error(HandlerError::Handle { error: HandlePacketError::Receive(_), .. })
    ));
    assert!(matches!(
        server.handle_datagram(addr(1), &done(id), at(0)),
        ServerReaction::Known(Reaction::Raw(RawPacket::Done { known_packet: true, .. }))
    ));
    assert!(matches!(
        server.handle_datagram(addr(1), &ack(PacketId { value: 1 }, 0), at(0)),
        ServerReaction::Known(Reaction::Raw(RawPacket::Ack { duplicate: false, .. }))
    ));
    assert!(matches!(
        server.handle_datagram(addr(1), &[6], at(0)),
        ServerReaction::Known(Reaction::Error(HandlerError::Handle {
            error: HandlePacketError::UnexpectedKind(6),
            ..
        }))
    ));
    assert_eq!(
        server.send(addr(1), attempt(3, Ok(())), at(0)).unwrap(),
        PacketId { value: 3 }
    );
}

/// Pings a client and returns the id of the ping.
fn send_ping(server: &mut Server, port: u16, now: Instant) -> PacketId {
    let PingTask::Ping(id) = server.start_ping(addr(port), now) else {
        panic!("should be pinged");
    };
    server.finish_ping(addr(port), id, Ok(true), now).unwrap();
    id
}

#[test]
fn silent_clients_time_out() {
    let mut server = Server::new(ServerConfig::default());
    connect(&mut server, 1);
    connect(&mut server, 2);
    let millis = |millis| at(Duration::from_millis(millis).nanos);
    for time in [0, 2500, 5000, 7500] {
        send_ping(&mut server, 1, millis(time));
        assert!(matches!(server.start_ping(addr(1), millis(time + 2499)), PingTask::Nothing));
    }
    assert!(matches!(
        server.start_ping(addr(1), millis(10000)),
        PingTask::Timeout(HandlerError::Timeout { peer_addr }) if peer_addr == addr(1)
    ));
    assert!(server.client(addr(1)).is_none());
    assert!(server.buffers_mut(addr(1)).is_none());
    assert_eq!(server.client(addr(2)), Some(1));
}

#[test]
fn pongs_must_belong_to_the_current_ping() {
    let config = ServerConfig { max_missed_pongs: Some(0), ..ServerConfig::default() };
    let mut server = Server::new(config);
    connect(&mut server, 1);
    let millis = |millis| at(Duration::from_millis(millis).nanos);
    let first = send_ping(&mut server, 1, millis(0));
    assert!(matches!(
        server.handle_datagram(addr(1), &ping(first), millis(5)),
        ServerReaction::Pong { expected: true }
    ));
    let second = send_ping(&mut server, 1, millis(2500));
    assert_ne!(first, second);
    assert!(matches!(
        server.handle_datagram(addr(1), &ping(first), millis(2600)),
        ServerReaction::Pong { expected: false }
    ));
    assert!(matches!(
        server.handle_datagram(addr(1), &ping(first)[..16], millis(2600)),
        ServerReaction::Known(Reaction::Error(HandlerError::Handle {
            error: HandlePacketError::Malformed,
            ..
        }))
    ));
    assert!(matches!(server.start_ping(addr(1), millis(5000)), PingTask::Timeout(_)));

    // listeners are not pinged
    listen(&mut server, 2);
    assert!(matches!(
        server.handle_datagram(addr(2), &ping(first), millis(2600)),
        ServerReaction::Known(Reaction::Error(HandlerError::Handle {
            error: HandlePacketError::UnexpectedKind(1),
            ..
        }))
    ));
}

#[test]
fn pings_that_would_block_are_sent_later() {
    let config = ServerConfig { max_missed_pongs: None, ..ServerConfig::default() };
    let mut server = Server::new(config);
    connect(&mut server, 1);
    let PingTask::Ping(id) = server.start_ping(addr(1), at(0)) else {
        panic!("should be pinged");
    };
    server.finish_ping(addr(1), id, Ok(false), at(0)).unwrap();
    assert!(matches!(
        server.handle_datagram(addr(1), &ping(id), at(1)),
        ServerReaction::Pong { expected: false }
    ));
    for round in 0..10 {
        send_ping(&mut server, 1, at(Duration::from_secs(3 * round).nanos));
    }
    assert!(matches!(
        server.finish_ping(addr(1), id, Err(failure()), at(1)),
        Err(HandlerError::Send { receiver_addr, .. }) if receiver_addr == addr(1)
    ));
    assert!(server.client(addr(1)).is_none());
}
