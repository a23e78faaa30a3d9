use std::io;

use ultinet::client::{conclude_ack, Client, ClientState, ReceivedPart};
use ultinet::config::{ConnectionConfig, ServerConfig};
use ultinet::net::client::{ServerPacketKind, ServerPacketReaction, UnexpectedServerPacket};
use ultinet::net::SocketAddr;
use ultinet::packet::queue::PacketQueue;
use ultinet::packet::serialize::{serialize_packet, SerializedPacket};
use ultinet::packet::wire::done;
use ultinet::packet::{HandlePacketError, PacketHandling, PacketId, SendAttempt};
use ultinet::server::Server;
use ultinet::time::Instant;

fn at(nanos: u128) -> Instant {
    Instant { nanos }
}

fn addr(port: u16) -> SocketAddr {
    SocketAddr::V4 { ip: 1, port }
}

fn failure() -> io::Error {
    io::Error::new(io::ErrorKind::Other, "unplugged")
}

fn parts(value: u128, len: usize) -> Vec<ultinet::packet::buffer::PacketBuffer> {
    match serialize_packet(PacketId { value }, 9, &vec![6; len]) {
        SerializedPacket::Vec(parts) => parts,
        SerializedPacket::Channel(_) => panic!("should not exceed the threshold"),
    }
}

fn attempt(value: u128, outcome: io::Result<()>) -> SendAttempt {
    SendAttempt {
        id: PacketId { value },
        queue: PacketQueue::from_parts(parts(value, 1)),
        outcome,
    }
}

fn connecting() -> Client {
    let mut client = Client::with_config(ConnectionConfig::default());
    assert_eq!(client.connect(attempt(1, Ok(())), Ok(addr(1)), at(0)).unwrap().value, 1);
    client
}

fn connected() -> Client {
    let mut client = connecting();
    let reaction = client.handle_packet(addr(1), Some(ServerPacketKind::Accept));
    assert!(matches!(reaction, Ok(ServerPacketReaction::Deliver)));
    client
}

#[test]
fn direct_clients_connect_and_disconnect() {
    let mut client = Client::with_config(ConnectionConfig::default());
    assert_eq!(client.config(), ConnectionConfig::default());
    assert_eq!(client.state(), ClientState::Disconnected);
    assert!(client.connect(attempt(1, Err(failure())), Ok(addr(1)), at(0)).is_err());
    assert!(client.connect(attempt(2, Ok(())), Err(failure()), at(0)).is_err());
    assert_eq!(client.state(), ClientState::Disconnected);
    assert!(client.buffers_mut().packet(PacketId { value: 1 }).is_none());
    assert!(client.buffers_mut().packet(PacketId { value: 2 }).is_some());

    let mut client = connecting();
    assert_eq!(client.state(), ClientState::Connecting(addr(1), PacketId { value: 1 }));
    let reaction = client.handle_packet(addr(1), Some(ServerPacketKind::Reject));
    assert!(matches!(reaction, Ok(ServerPacketReaction::Deliver)));
    assert_eq!(client.state(), ClientState::Disconnected);

    let mut client = connected();
    assert_eq!(client.state(), ClientState::Connected(addr(1)));
    assert!(client.disconnect(attempt(3, Err(failure())), Ok(addr(1)), at(0)).is_err());
    assert!(client.disconnect(attempt(3, Ok(())), Err(failure()), at(0)).is_err());
    assert_eq!(client.state(), ClientState::Connected(addr(1)));
    assert!(client.disconnect(attempt(4, Ok(())), Ok(addr(1)), at(0)).is_ok());
    assert_eq!(client.state(), ClientState::Disconnecting(addr(1), PacketId { value: 4 }));

    let mut client = connected();
    let reaction = client.handle_packet(addr(1), Some(ServerPacketKind::Kick));
    assert!(matches!(reaction, Ok(ServerPacketReaction::Deliver)));
    assert_eq!(client.state(), ClientState::Disconnected);
}

#[test]
fn direct_clients_only_expect_packets_of_their_server() {
    let expected = |client: &mut Client, port, kind| match client.handle_packet(addr(port), kind) {
        Ok(ServerPacketReaction::Deliver) => true,
        Ok(ServerPacketReaction::Unexpected(UnexpectedServerPacket::NotConnected)) => false,
        _ => panic!("should be handled"),
    };
    let mut client = connected();
    assert!(expected(&mut client, 2, Some(ServerPacketKind::Status)));
    assert!(!expected(&mut client, 2, Some(ServerPacketKind::User)));
    assert!(!expected(&mut client, 2, Some(ServerPacketKind::Kick)));
    assert!(!expected(&mut client, 1, Some(ServerPacketKind::Accept)));
    assert!(!expected(&mut client, 1, Some(ServerPacketKind::Reject)));
    assert!(expected(&mut client, 1, Some(ServerPacketKind::User)));
    assert!(matches!(
        client.handle_packet(addr(1), None),
        Err(HandlePacketError::Validation)
    ));
    let mut client = connecting();
    assert!(!expected(&mut client, 2, Some(ServerPacketKind::Accept)));
    assert!(!expected(&mut client, 2, Some(ServerPacketKind::Reject)));
    assert!(!expected(&mut client, 1, Some(ServerPacketKind::User)));
    assert!(expected(&mut client, 1, Some(ServerPacketKind::Accept)));
}

#[test]
fn direct_clients_handle_datagrams() {
    let mut client = connected();
    let parts = parts(8, 600);
    let mut results = vec![];
    for index in [0, 0, 1] {
        let handling = client.handle_datagram(parts[index].as_bytes(), at(1)).unwrap();
        let PacketHandling::Received(pending) = handling else {
            panic!("should be a part");
        };
        results.push(match conclude_ack(pending, Ok(true)).unwrap() {
            ReceivedPart::Pending { duplicate } => Err(duplicate),
            ReceivedPart::Packet(bytes) => Ok(bytes.to_vec()),
        });
    }
    assert_eq!(results, [Err(false), Err(true), Ok(vec![6; 600])]);
    let Ok(PacketHandling::Received(pending)) =
        client.handle_datagram(parts[0].as_bytes(), at(1))
    else {
        panic!("should be a part");
    };
    assert!(matches!(conclude_ack(pending, Err(failure())), Err(HandlePacketError::Receive(_))));
    assert!(matches!(
        client.handle_datagram(&done(PacketId { value: 8 }), at(1)),
        Ok(PacketHandling::Done { known_packet: true })
    ));
    assert!(matches!(client.handle_datagram(&[], at(1)), Err(HandlePacketError::Empty)));
    assert_eq!(client.send(attempt(9, Ok(())), at(1)).unwrap().value, 9);
    assert_eq!(client.start_update(at(2)).remaining(), [1, 9]);
}

#[test]
fn direct_servers_start_out_empty() {
    let mut server = Server::with_config(ConnectionConfig::default(), ServerConfig::default());
    assert!(server.client(addr(1)).is_none());
    assert!(server.slots().is_empty());
    assert!(server.buffers_mut(0).is_none());
    assert!(server.handle().is_ok());
}
