//! A client that only ever talks to a single server, whose compatibility it does not question.

use vstd::prelude::*;

use crate::config::ConnectionConfig;
use crate::net::client::{ServerPacketKind, ServerPacketReaction, UnexpectedServerPacket};
use crate::net::SocketAddr;
use crate::packet::buffers::PacketBuffersView;
use crate::packet::receive::ReceivedPacket;
use crate::packet::{
    HandlePacketError, PacketBuffers, PacketHandling, PacketId, PacketReceiveError,
    PacketReceiveErrorKind, PendingAck, Round, SendAttempt,
};
use crate::sorted::are_sorted_keys;
use crate::time::Instant;

verus! {

/// Whether a client is connected.
#[derive(Clone, Copy, Debug, PartialEq, Eq, Structural)]
pub enum ClientState {
    /// Client is not connected.
    Disconnected,
    /// Client is awaiting acceptance by the server.
    Connecting(SocketAddr, PacketId),
    /// Client was accepted by the server and is connected.
    Connected(SocketAddr),
    /// Client is waiting for the server to acknowledge it has disconnected.
    Disconnecting(SocketAddr, PacketId),
}

/// The state of a client after a packet was received, if the packet was expected.
pub open spec fn state_after_packet(
    state: ClientState,
    server_addr: SocketAddr,
    kind: ServerPacketKind,
) -> Option<ClientState> {
    let is_connecting = state matches ClientState::Connecting(expected, _) && expected
        == server_addr;
    let is_connected = state == ClientState::Connected(server_addr);
    match kind {
        ServerPacketKind::Status => Some(state),
        ServerPacketKind::Accept => if is_connecting {
            Some(ClientState::Connected(server_addr))
        } else {
            None
        },
        ServerPacketKind::Reject => if is_connecting {
            Some(ClientState::Disconnected)
        } else {
            None
        },
        ServerPacketKind::Kick => if is_connected {
            Some(ClientState::Disconnected)
        } else {
            None
        },
        ServerPacketKind::User => if is_connected {
            Some(state)
        } else {
            None
        },
    }
}

/// A [`Client`].
#[verifier::ext_equal]
pub struct ClientView {
    pub buffers: PacketBuffersView,
    pub state: ClientState,
    pub awaiting_response_since: Option<Instant>,
}

/// Keeps track of the connection to a server.
pub struct Client {
    config: ConnectionConfig,
    buffers: PacketBuffers,
    state: ClientState,
    awaiting_response_since: Option<Instant>,
}

impl View for Client {
    type V = ClientView;

    closed spec fn view(&self) -> ClientView {
        ClientView {
            buffers: self.buffers@,
            state: self.state,
            awaiting_response_since: self.awaiting_response_since,
        }
    }
}

/// What has to be done with a part after the attempt to ack it.
pub enum ReceivedPart<'a> {
    /// The part has to be reported.
    Pending {
        /// Whether the part was already received before.
        duplicate: bool,
    },
    /// The bytes of a whole packet have to be validated.
    Packet(&'a [u8]),
}

/// Concludes the attempt to ack a part.
pub fn conclude_ack<'a>(pending: PendingAck<'a>, outcome: Result<bool, std::io::Error>) -> (result:
    Result<ReceivedPart<'a>, HandlePacketError>)
    ensures
        match outcome {
            Err(error) => result == Err::<ReceivedPart<'a>, _>(
                HandlePacketError::Receive(
                    PacketReceiveError {
                        id: pending.id,
                        kind: PacketReceiveErrorKind::Io(error),
                    },
                ),
            ),
            Ok(_) => result == Ok::<_, HandlePacketError>(
                match pending.received {
                    ReceivedPacket::Pending => ReceivedPart::Pending { duplicate: false },
                    ReceivedPacket::Duplicate => ReceivedPart::Pending { duplicate: true },
                    ReceivedPacket::Reassembled(bytes) => ReceivedPart::<'a>::Packet(bytes),
                },
            ),
        },
{
    match pending.conclude(outcome) {
        Err(error) => Err(HandlePacketError::Receive(error)),
        Ok(ReceivedPacket::Pending) => Ok(ReceivedPart::Pending { duplicate: false }),
        Ok(ReceivedPacket::Duplicate) => Ok(ReceivedPart::Pending { duplicate: true }),
        Ok(ReceivedPacket::Reassembled(bytes)) => Ok(ReceivedPart::Packet(bytes)),
    }
}

impl Client {
    pub closed spec fn wf(&self) -> bool {
        self.buffers.wf()
    }

    pub closed spec fn config_spec(&self) -> ConnectionConfig {
        self.config
    }

    /// Starts out disconnected.
    pub fn with_config(config: ConnectionConfig) -> (client: Self)
        ensures
            client.wf(),
            client.config_spec() == config,
            client@ == (ClientView {
                buffers: PacketBuffersView::new(config.initial_send_batch_size@ as int),
                state: ClientState::Disconnected,
                awaiting_response_since: None,
            }),
    {
        Client {
            config,
            buffers: PacketBuffers::new(config.initial_send_batch_size),
            state: ClientState::Disconnected,
            awaiting_response_since: None,
        }
    }

    /// The configuration of the client.
    pub fn config(&self) -> (config: ConnectionConfig)
        ensures
            config == self.config_spec(),
    {
        self.config
    }

    pub fn state(&self) -> (state: ClientState)
        ensures
            state == self@.state,
    {
        self.state
    }

    /// The packets that are being sent and received.
    pub fn buffers_mut(&mut self) -> (buffers: &mut PacketBuffers)
        requires
            old(self).wf(),
        ensures
            buffers.wf(),
            buffers@ == old(self)@.buffers,
            final(self).config_spec() == old(self).config_spec(),
            final(buffers).wf() ==> final(self).wf(),
            final(self)@ == (ClientView { buffers: final(buffers)@, ..old(self)@ }),
    {
        &mut self.buffers
    }

    /// Keeps track of a packet after an attempt to send its first batch.
    ///
    /// This is how queries and user-defined packets are sent, no matter whether the client is
    /// connected.
    pub fn send(&mut self, attempt: SendAttempt, now: Instant) -> (result: Result<
        PacketId,
        std::io::Error,
    >)
        requires
            old(self).wf(),
            attempt.wf(),
        ensures
            final(self).wf(),
            final(self).config_spec() == old(self).config_spec(),
            final(self)@ == (ClientView {
                buffers: old(self)@.buffers.after_send(attempt, now),
                ..old(self)@
            }),
            result == match attempt.outcome {
                Ok(_) => Ok(attempt.id),
                Err(error) => Err(error),
            },
    {
        self.buffers.send(attempt, now)
    }

    /// Starts connecting after an attempt to send the first batch of the packet.
    ///
    /// The peer is the server that the socket is connected to. The client must be disconnected.
    pub fn connect(
        &mut self,
        attempt: SendAttempt,
        peer: Result<SocketAddr, std::io::Error>,
        now: Instant,
    ) -> (result: Result<PacketId, std::io::Error>)
        requires
            old(self).wf(),
            old(self)@.state == ClientState::Disconnected,
            attempt.wf(),
        ensures
            final(self).wf(),
            final(self).config_spec() == old(self).config_spec(),
            ({
                let after = ClientView {
                    buffers: old(self)@.buffers.after_send(attempt, now),
                    ..old(self)@
                };
                match (attempt.outcome, peer) {
                    (Err(error), _) => {
                        &&& result == Err::<PacketId, _>(error)
                        &&& final(self)@ == after
                    },
                    (Ok(_), Err(error)) => {
                        &&& result == Err::<PacketId, _>(error)
                        &&& final(self)@ == after
                    },
                    (Ok(_), Ok(addr)) => {
                        &&& result == Ok::<_, std::io::Error>(attempt.id)
                        &&& final(self)@ == (ClientView {
                            state: ClientState::Connecting(addr, attempt.id),
                            ..after
                        })
                    },
                }
            }),
    {
        match self.buffers.send(attempt, now) {
            Ok(id) => match peer {
                Ok(addr) => {
                    self.state = ClientState::Connecting(addr, id);
                    Ok(id)
                },
                Err(error) => Err(error),
            },
            Err(error) => Err(error),
        }
    }

    /// Starts disconnecting after an attempt to send the first batch of the packet.
    ///
    /// The peer is the server that the socket is connected to. The client must be connected.
    pub fn disconnect(
        &mut self,
        attempt: SendAttempt,
        peer: Result<SocketAddr, std::io::Error>,
        now: Instant,
    ) -> (result: Result<PacketId, std::io::Error>)
        requires
            old(self).wf(),
            old(self)@.state is Connected,
            attempt.wf(),
        ensures
            final(self).wf(),
            final(self).config_spec() == old(self).config_spec(),
            ({
                let after = ClientView {
                    buffers: old(self)@.buffers.after_send(attempt, now),
                    ..old(self)@
                };
                match (attempt.outcome, peer) {
                    (Err(error), _) => {
                        &&& result == Err::<PacketId, _>(error)
                        &&& final(self)@ == after
                    },
                    (Ok(_), Err(error)) => {
                        &&& result == Err::<PacketId, _>(error)
                        &&& final(self)@ == after
                    },
                    (Ok(_), Ok(addr)) => {
                        &&& result == Ok::<_, std::io::Error>(attempt.id)
                        &&& final(self)@ == (ClientView {
                            state: ClientState::Disconnecting(addr, attempt.id),
                            ..after
                        })
                    },
                }
            }),
    {
        match self.buffers.send(attempt, now) {
            Ok(id) => match peer {
                Ok(addr) => {
                    self.state = ClientState::Disconnecting(addr, id);
                    Ok(id)
                },
                Err(error) => Err(error),
            },
            Err(error) => Err(error),
        }
    }

    /// Forgets packets that timed out, and then starts a round in which all packets get the
    /// opportunity to send their next batch.
    pub fn start_update(&mut self, now: Instant) -> (round: Round)
        requires
            old(self).wf(),
        ensures
            final(self).wf(),
            final(self).config_spec() == old(self).config_spec(),
            ({
                let config = old(self).config_spec();
                let known = old(self)@.buffers.after_timeout(
                    config.resend_delay,
                    config.max_missed_acks,
                    config.receive_timeout,
                    now,
                );
                &&& are_sorted_keys(round@, known.send.packets.dom())
                &&& final(self)@ == (ClientView {
                    buffers: known.after_round_start(round@),
                    ..old(self)@
                })
            }),
    {
        self.buffers.start_update(
            self.config.resend_delay,
            self.config.max_missed_acks,
            self.config.receive_timeout,
            now,
        )
    }

    /// Handles a datagram.
    pub fn handle_datagram<'a>(&'a mut self, buf: &'a [u8], now: Instant) -> (result: Result<
        PacketHandling<'a>,
        HandlePacketError,
    >)
        requires
            old(self).wf(),
        ensures
            final(self).wf(),
            final(self).config_spec() == old(self).config_spec(),
            final(self)@ == (ClientView {
                buffers: old(self)@.buffers.after_handling(buf@, now),
                awaiting_response_since: Some(now),
                ..old(self)@
            }),
            match old(self)@.buffers.handling(buf@) {
                Ok(handling) => result matches Ok(result) && result@ == handling,
                Err(error) => result == Err::<PacketHandling<'a>, _>(error),
            },
    {
        self.awaiting_response_since = Some(now);
        self.buffers.handle(buf, now)
    }

    /// Handles a packet, which is `None` if it is not valid.
    pub fn handle_packet(&mut self, server_addr: SocketAddr, kind: Option<ServerPacketKind>) -> (
        result: Result<ServerPacketReaction, HandlePacketError>)
        requires
            old(self).wf(),
        ensures
            final(self).wf(),
            final(self).config_spec() == old(self).config_spec(),
            match kind {
                None => {
                    &&& result == Err::<ServerPacketReaction, _>(HandlePacketError::Validation)
                    &&& final(self)@ == old(self)@
                },
                Some(kind) => match state_after_packet(old(self)@.state, server_addr, kind) {
                    Some(state) => {
                        &&& result == Ok::<_, HandlePacketError>(ServerPacketReaction::Deliver)
                        &&& final(self)@ == (ClientView { state, ..old(self)@ })
                    },
                    None => {
                        &&& result == Ok::<_, HandlePacketError>(
                            ServerPacketReaction::Unexpected(UnexpectedServerPacket::NotConnected),
                        )
                        &&& final(self)@ == old(self)@
                    },
                },
            },
    {
        let kind = match kind {
            Some(kind) => kind,
            None => {
                return Err(HandlePacketError::Validation);
            },
        };
        let is_connecting = match self.state {
            ClientState::Connecting(expected, _) => expected == server_addr,
            _ => false,
        };
        let is_connected = match self.state {
            ClientState::Connected(expected) => expected == server_addr,
            _ => false,
        };
        match kind {
            ServerPacketKind::Status => {
                return Ok(ServerPacketReaction::Deliver);
            },
            ServerPacketKind::Accept => {
                if is_connecting {
                    self.state = ClientState::Connected(server_addr);
                    return Ok(ServerPacketReaction::Deliver);
                }
            },
            ServerPacketKind::Reject => {
                if is_connecting {
                    self.state = ClientState::Disconnected;
                    return Ok(ServerPacketReaction::Deliver);
                }
            },
            ServerPacketKind::Kick => {
                if is_connected {
                    self.state = ClientState::Disconnected;
                    return Ok(ServerPacketReaction::Deliver);
                }
            },
            ServerPacketKind::User => {
                if is_connected {
                    return Ok(ServerPacketReaction::Deliver);
                }
            },
        }
        Ok(ServerPacketReaction::Unexpected(UnexpectedServerPacket::NotConnected))
    }
}

/// A status is always expected. Only the server that the client is connecting to can accept or reject
/// it, and only the server that it is connected to can kick it and send packets.
pub proof fn law_packets(state: ClientState, server_addr: SocketAddr, kind: ServerPacketKind)
    ensures
        ({
            let after = state_after_packet(state, server_addr, kind);
            let is_connecting = state is Connecting && state->Connecting_0 == server_addr;
            let is_connected = state is Connected && state->Connected_0 == server_addr;
            &&& after is Some <==> match kind {
                ServerPacketKind::Status => true,
                ServerPacketKind::Accept | ServerPacketKind::Reject => is_connecting,
                ServerPacketKind::Kick | ServerPacketKind::User => is_connected,
            }
            &&& after matches Some(after) ==> {
                &&& kind == ServerPacketKind::Accept ==> after == ClientState::Connected(
                    server_addr,
                )
                &&& kind == ServerPacketKind::Reject || kind == ServerPacketKind::Kick ==> after
                    == ClientState::Disconnected
                &&& kind == ServerPacketKind::Status || kind == ServerPacketKind::User ==> after
                    == state
            }
        }),
{
}

} // verus!
