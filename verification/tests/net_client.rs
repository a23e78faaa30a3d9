use std::io;

use ultinet::config::{ClientConfig, ConnectionConfig};
use ultinet::net::client::{
    send_version_query, Client, ClientReaction, ClientState, Compatibility, CompatibilityError,
    ConnectError, ForgetError, ListenerTask, QueryError, SendError, ServerPacketKind,
    ServerPacketReaction, UnexpectedServerPacket,
};
use ultinet::net::{HandlerError, Reaction, SocketAddr};
use ultinet::packet::queue::PacketQueue;
use ultinet::packet::serialize::{serialize_packet, SerializedPacket};
use ultinet::packet::wire::ping;
use ultinet::packet::{
    DefaultPackets, HandlePacketError, MalformedVersion, NoPacket, PacketId, Packets, SendAttempt,
};
use ultinet::time::{Duration, Instant};

/// Packets whose compatibility errors are plain texts.
struct TestPackets;

impl Packets for TestPackets {
    type Version = ();
    type CompatibilityError = &'static str;
    type Query = ();
    type Status = ();
    type Connect = ();
    type Disconnect = ();
    type Accept = ();
    type Reject = ();
    type Kick = ();
    type Server = NoPacket;
    type Client = NoPacket;
    type ServerUpdate = NoPacket;
    type ClientUpdate = NoPacket;
}

type TestClient = Client<TestPackets>;

fn config() -> ClientConfig {
    ClientConfig {
        connection: ConnectionConfig {
            resend_delay: Duration { nanos: 100 },
            ..ConnectionConfig::default()
        },
        timeout: Some(Duration { nanos: 1000 }),
    }
}

fn at(nanos: u128) -> Instant {
    Instant { nanos }
}

fn addr(port: u16) -> SocketAddr {
    SocketAddr::V6 { ip: 1, port, flowinfo: 0, scope_id: 0 }
}

fn failure() -> io::Error {
    io::Error::new(io::ErrorKind::Other, "unplugged")
}

fn attempt(value: u128, outcome: io::Result<()>) -> Option<SendAttempt> {
    let id = PacketId { value };
    match serialize_packet(id, 1, &[1]) {
        SerializedPacket::Vec(parts) => {
            Some(SendAttempt { id, queue: PacketQueue::from_parts(parts), outcome })
        }
        SerializedPacket::Channel(_) => panic!("should not exceed the threshold"),
    }
}

fn listen(client: &mut TestClient, port: u16) {
    assert!(matches!(
        client.listen(addr(port), Some(Ok(true)), at(0)),
        Ok(Compatibility::Pending)
    ));
}

fn compatible(client: &mut TestClient, port: u16) {
    listen(client, port);
    assert_eq!(client.resolve_version(addr(port), Ok(Ok(())), at(0)), None);
}

fn connected(client: &mut TestClient, port: u16) {
    compatible(client, port);
    assert!(client.connect(addr(port), attempt(1, Ok(())), at(0)).is_ok());
    assert_eq!(
        client.handle_packet(addr(port), ServerPacketKind::Accept),
        ServerPacketReaction::Deliver
    );
    assert_eq!(client.state(), ClientState::Connected);
}

#[test]
fn version_query_is_empty() {
    assert!(send_version_query().is_empty());
}

#[test]
fn listening_requests_the_version() {
    let mut client = TestClient::new(config());
    assert_eq!(client.config(), config());
    assert!(!client.is_listening(addr(1)));
    assert!(client.compatibility(addr(1)).is_none());
    assert!(client.listen(addr(1), Some(Err(failure())), at(0)).is_err());
    assert!(!client.is_listening(addr(1)));
    listen(&mut client, 1);
    assert!(matches!(client.listen(addr(1), None, at(5)), Ok(Compatibility::Pending)));
    assert_eq!(client.listener_addrs(), [addr(1)]);
}

#[test]
fn versions_decide_compatibility() {
    let mut client = TestClient::new(config());
    listen(&mut client, 1);
    listen(&mut client, 2);
    let handle = |client: &mut TestClient, port, buf: &'static [u8]| match client
        .handle_datagram(addr(port), buf, at(1))
    {
        ClientReaction::Unexpected(unexpected) => Err(unexpected),
        ClientReaction::Version(version) => Ok(version.to_vec()),
        ClientReaction::Known(_) | ClientReaction::Pong(_) => panic!("should not be known"),
    };
    assert_eq!(handle(&mut client, 3, &[0]), Err(UnexpectedServerPacket::UnknownServer));
    assert_eq!(handle(&mut client, 1, &[]), Err(UnexpectedServerPacket::Empty));
    assert_eq!(handle(&mut client, 1, &[2]), Err(UnexpectedServerPacket::PendingCompatibility));
    assert_eq!(handle(&mut client, 1, &[70]), Err(UnexpectedServerPacket::PendingCompatibility));
    assert_eq!(handle(&mut client, 1, &[0]), Ok(vec![]));
    assert_eq!(handle(&mut client, 1, &[0, 8, 9]), Ok(vec![8, 9]));

    assert_eq!(
        client.resolve_version(addr(1), Err(MalformedVersion), at(1)),
        Some(UnexpectedServerPacket::MalformedVersion)
    );
    assert!(matches!(client.compatibility(addr(1)), Some(Compatibility::Pending)));
    assert_eq!(client.resolve_version(addr(1), Ok(Err("too old")), at(1)), None);
    assert!(matches!(
        client.compatibility(addr(1)),
        Some(Compatibility::Incompatible(&"too old"))
    ));
    assert_eq!(handle(&mut client, 1, &[0]), Err(UnexpectedServerPacket::Incompatible));
    assert_eq!(client.resolve_version(addr(2), Ok(Ok(())), at(1)), None);
    assert!(matches!(client.compatibility(addr(2)), Some(Compatibility::Compatible)));
    assert_eq!(client.send_batch_size(addr(2)).unwrap().get(), 8);
    assert!(client.send_batch_size(addr(1)).is_none());
    assert!(client.send_batch_size(addr(3)).is_none());

    // versions are not expected anymore
    assert!(matches!(
        client.handle_datagram(addr(2), &[0], at(1)),
        ClientReaction::Known(Reaction::Error(HandlerError::Handle {
            error: HandlePacketError::UnexpectedKind(0),
            ..
        }))
    ));
    assert!(matches!(
        client.handle_datagram(addr(2), &[], at(1)),
        ClientReaction::Known(Reaction::Error(HandlerError::Handle {
            error: HandlePacketError::Empty,
            ..
        }))
    ));
}

#[test]
fn queries_need_compatibility() {
    let mut client = TestClient::new(config());
    listen(&mut client, 1);
    assert!(matches!(
        client.query(addr(1), None, at(0)),
        Err(QueryError::Compatibility(CompatibilityError::CompatibilityPending))
    ));
    client.resolve_version(addr(1), Ok(Err("too new")), at(1));
    assert!(matches!(
        client.query(addr(1), None, at(0)),
        Err(QueryError::Compatibility(CompatibilityError::Incompatible))
    ));
    compatible(&mut client, 2);
    let id = client.query(addr(2), attempt(4, Ok(())), at(0)).unwrap();
    assert_eq!(id, PacketId { value: 4 });
    assert!(client.buffers_mut(addr(2)).unwrap().packet(id).is_some());
    assert!(matches!(
        client.query(addr(2), attempt(5, Err(failure())), at(0)),
        Err(QueryError::Io(_))
    ));
    assert_eq!(client.state(), ClientState::Disconnected);
    assert!(client.is_listening(addr(2)));
}

#[test]
fn connecting_moves_the_server_to_the_front() {
    let mut client = TestClient::new(config());
    compatible(&mut client, 1);
    listen(&mut client, 2);
    compatible(&mut client, 3);
    assert_eq!(client.server_addr(), None);
    assert!(matches!(
        client.connect(addr(2), None, at(0)),
        Err(ConnectError::Compatibility(CompatibilityError::CompatibilityPending))
    ));
    assert!(matches!(
        client.connect(addr(3), attempt(1, Err(failure())), at(0)),
        Err(ConnectError::Io(_))
    ));
    assert_eq!(client.state(), ClientState::Disconnected);
    let id = client.connect(addr(3), attempt(1, Ok(())), at(0)).unwrap();
    assert_eq!(id, PacketId { value: 1 });
    assert_eq!(client.state(), ClientState::Connecting);
    assert_eq!(client.server_addr(), Some(addr(3)));
    assert_eq!(client.listener_addrs(), [addr(3), addr(1), addr(2)]);
    assert!(matches!(
        client.connect(addr(1), None, at(0)),
        Err(ConnectError::NotDisconnected)
    ));
}

#[test]
fn packets_change_the_state() {
    let unexpected = ServerPacketReaction::Unexpected(UnexpectedServerPacket::NotConnected);
    let kinds = [
        ServerPacketKind::Status,
        ServerPacketKind::Accept,
        ServerPacketKind::Reject,
        ServerPacketKind::Kick,
        ServerPacketKind::User,
    ];
    // (expected, state afterwards) while connecting and while connected
    let connecting = [
        (true, ClientState::Connecting),
        (true, ClientState::Connected),
        (true, ClientState::Disconnected),
        (false, ClientState::Connecting),
        (false, ClientState::Connecting),
    ];
    let while_connected = [
        (true, ClientState::Connected),
        (false, ClientState::Connected),
        (false, ClientState::Connected),
        (true, ClientState::Disconnected),
        (true, ClientState::Connected),
    ];
    for (index, kind) in kinds.into_iter().enumerate() {
        for (is_connected, expected) in [(false, connecting), (true, while_connected)] {
            let mut client = TestClient::new(config());
            compatible(&mut client, 2);
            if is_connected {
                connected(&mut client, 1);
            } else {
                compatible(&mut client, 1);
                client.connect(addr(1), attempt(1, Ok(())), at(0)).unwrap();
            }
            let state = client.state();
            // other servers can only send their status
            let reaction = client.handle_packet(addr(2), kind);
            assert_eq!(reaction == unexpected, kind != ServerPacketKind::Status);
            assert_eq!(client.state(), state);

            let (is_expected, state) = expected[index];
            let reaction = client.handle_packet(addr(1), kind);
            assert_eq!(reaction == ServerPacketReaction::Deliver, is_expected);
            assert_eq!(reaction == unexpected, !is_expected);
            assert_eq!(client.state(), state);
        }
    }
}

#[test]
fn packets_can_only_be_sent_while_connected() {
    let mut client = TestClient::new(config());
    assert!(matches!(client.send(None, at(0)), Err(SendError::NotConnected)));
    assert!(matches!(client.disconnect(None, at(0)), Err(SendError::NotConnected)));
    listen(&mut client, 2);
    listen(&mut client, 3);
    connected(&mut client, 1);
    let id = client.send(attempt(5, Ok(())), at(0)).unwrap();
    assert!(client.buffers_mut(addr(1)).unwrap().packet(id).is_some());
    assert!(client.disconnect(attempt(6, Ok(())), at(0)).is_ok());
    assert_eq!(client.state(), ClientState::Disconnecting);
    assert_eq!(client.server_addr(), Some(addr(1)));
    assert!(matches!(client.send(None, at(0)), Err(SendError::NotConnected)));

    for disconnect in [false, true] {
        let mut client = TestClient::new(config());
        listen(&mut client, 2);
        listen(&mut client, 3);
        connected(&mut client, 1);
        let attempt = attempt(5, Err(failure()));
        let result = if disconnect {
            client.disconnect(attempt, at(0))
        } else {
            client.send(attempt, at(0))
        };
        assert!(matches!(result, Err(SendError::Io(_))));
        assert_eq!(client.state(), ClientState::Disconnected);
        assert_eq!(client.listener_addrs(), [addr(3), addr(2)]);
    }
}

#[test]
fn servers_can_be_forgotten() {
    let mut client = TestClient::new(config());
    for port in [2, 3, 4] {
        listen(&mut client, port);
    }
    connected(&mut client, 1);
    assert_eq!(client.forget(addr(9)), Err(ForgetError::UnknownServer));
    assert_eq!(client.forget(addr(1)), Err(ForgetError::NotDisconnected));
    assert_eq!(client.forget(addr(2)), Ok(()));
    assert_eq!(client.listener_addrs(), [addr(1), addr(4), addr(3)]);
    client.forget_all();
    assert_eq!(client.listener_addrs(), [addr(1)]);
    client.handle_packet(addr(1), ServerPacketKind::Kick);
    assert_eq!(client.forget(addr(1)), Ok(()));
    listen(&mut client, 2);
    client.forget_all();
    assert!(client.listener_addrs().is_empty());
}

#[test]
fn compatibility_can_be_refreshed() {
    let mut client = TestClient::new(config());
    for port in [1, 2, 3] {
        compatible(&mut client, port);
    }
    assert!(client.refresh_all(vec![true, false], Some(failure()), at(50)).is_err());
    assert!(matches!(client.compatibility(addr(1)), Some(Compatibility::Pending)));
    assert!(matches!(client.compatibility(addr(2)), Some(Compatibility::Pending)));
    assert!(matches!(client.compatibility(addr(3)), Some(Compatibility::Compatible)));
    assert!(matches!(client.start_update(addr(1), at(150)), ListenerTask::Nothing));
    assert!(matches!(client.start_update(addr(1), at(151)), ListenerTask::VersionQuery));
    // the request of the second one was not sent because the socket would have blocked
    assert!(matches!(client.start_update(addr(2), at(50)), ListenerTask::VersionQuery));
    client.finish_update(addr(2), Ok(false), at(50)).unwrap();
    assert!(matches!(client.start_update(addr(2), at(51)), ListenerTask::VersionQuery));
    client.finish_update(addr(2), Ok(true), at(51)).unwrap();
    assert!(matches!(client.start_update(addr(2), at(151)), ListenerTask::Nothing));
    assert!(client.refresh_all(vec![true, true, true], None, at(60)).is_ok());
    assert!(matches!(client.compatibility(addr(3)), Some(Compatibility::Pending)));
}

#[test]
fn version_queries_are_repeated() {
    let mut client = TestClient::new(config());
    listen(&mut client, 1);
    assert!(matches!(client.start_update(addr(1), at(100)), ListenerTask::Nothing));
    assert!(matches!(client.start_update(addr(1), at(101)), ListenerTask::VersionQuery));
    client.finish_update(addr(1), Ok(false), at(101)).unwrap();
    assert!(matches!(client.start_update(addr(1), at(101)), ListenerTask::VersionQuery));
    client.finish_update(addr(1), Ok(true), at(101)).unwrap();
    assert!(matches!(client.start_update(addr(1), at(201)), ListenerTask::Nothing));
    assert!(matches!(
        client.finish_update(addr(1), Err(failure()), at(202)),
        Err(HandlerError::Send { receiver_addr, .. }) if receiver_addr == addr(1)
    ));
    assert!(!client.is_listening(addr(1)));
}

#[test]
fn failed_updates_disconnect() {
    let mut client = TestClient::new(config());
    compatible(&mut client, 2);
    connected(&mut client, 1);
    let ListenerTask::Packets(round) = client.start_update(addr(1), at(1)) else {
        panic!("should be compatible");
    };
    assert_eq!(round.remaining(), [1]);
    client.finish_update(addr(1), Ok(true), at(1)).unwrap();
    assert!(client.finish_update(addr(2), Err(failure()), at(1)).is_err());
    assert_eq!(client.state(), ClientState::Connected);
    assert!(client.finish_update(addr(1), Err(failure()), at(1)).is_err());
    assert_eq!(client.state(), ClientState::Disconnected);
    assert!(client.listener_addrs().is_empty());
}

#[test]
fn incompatible_servers_have_nothing_to_do() {
    let mut client = TestClient::new(config());
    listen(&mut client, 1);
    client.resolve_version(addr(1), Ok(Err("too old")), at(0));
    assert!(matches!(client.start_update(addr(1), at(500)), ListenerTask::Nothing));
    assert!(client.timeout_connection(addr(1), at(5000)).is_none());
}

#[test]
fn silent_servers_time_out() {
    let mut client = TestClient::new(config());
    connected(&mut client, 1);
    client.handle_datagram(addr(1), &[9], at(500));
    assert!(client.timeout_connection(addr(1), at(1500)).is_none());
    assert!(matches!(
        client.timeout_connection(addr(1), at(1501)),
        Some(HandlerError::Timeout { peer_addr }) if peer_addr == addr(1)
    ));
    assert_eq!(client.state(), ClientState::Disconnected);
    assert!(client.refresh(addr(1), Err(failure()), at(1501)).is_err());
    assert!(matches!(client.compatibility(addr(1)), Some(Compatibility::Compatible)));
    client.refresh(addr(1), Ok(true), at(1501)).unwrap();
    assert!(matches!(client.compatibility(addr(1)), Some(Compatibility::Pending)));

    // other servers have no influence on the connection
    let mut client = TestClient::new(config());
    compatible(&mut client, 2);
    connected(&mut client, 1);
    client.handle_datagram(addr(1), &[9], at(1500));
    assert!(client.timeout_connection(addr(1), at(1501)).is_none());
    assert!(matches!(
        client.timeout_connection(addr(2), at(1501)),
        Some(HandlerError::Timeout { peer_addr }) if peer_addr == addr(2)
    ));
    client.refresh(addr(2), Ok(true), at(1501)).unwrap();
    assert_eq!(client.state(), ClientState::Connected);
    assert_eq!(client.server_addr(), Some(addr(1)));
    assert!(matches!(client.compatibility(addr(2)), Some(Compatibility::Pending)));

    let mut client = TestClient::new(ClientConfig { timeout: None, ..config() });
    connected(&mut client, 1);
    assert!(client.timeout_connection(addr(1), at(u128::MAX)).is_none());
}

#[test]
fn receive_errors_disconnect() {
    let mut client = TestClient::new(config());
    listen(&mut client, 2);
    connected(&mut client, 1);
    assert!(matches!(client.receive_failed(failure()), HandlerError::Recv(_)));
    assert_eq!(client.state(), ClientState::Disconnected);
    assert!(client.listener_addrs().is_empty());
}

#[test]
fn default_packets_have_no_version() {
    let mut client: Client<DefaultPackets> = Client::new(ClientConfig::default());
    assert!(client.listen(addr(1), Some(Ok(true)), at(0)).is_ok());
    assert_eq!(client.resolve_version(addr(1), Ok(Ok(())), at(0)), None);
    assert!(matches!(client.compatibility(addr(1)), Some(Compatibility::Compatible)));
}

#[test]
fn pings_of_the_connected_server_are_answered() {
    let mut client = TestClient::new(config());
    compatible(&mut client, 2);
    connected(&mut client, 1);
    let datagram = ping(PacketId { value: 77 });
    let ClientReaction::Pong(pong) = client.handle_datagram(addr(1), &datagram, at(900)) else {
        panic!("should be a ping");
    };
    assert_eq!(pong, datagram);
    assert!(client.timeout_connection(addr(1), at(1900)).is_none());
    assert!(matches!(
        client.handle_datagram(addr(1), &datagram[..16], at(901)),
        ClientReaction::Known(Reaction::Error(HandlerError::Handle {
            error: HandlePacketError::Malformed,
            ..
        }))
    ));
    assert!(matches!(
        client.handle_datagram(addr(2), &datagram, at(901)),
        ClientReaction::Known(Reaction::Error(HandlerError::Handle {
            error: HandlePacketError::UnexpectedKind(1),
            ..
        }))
    ));
}
