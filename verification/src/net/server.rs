//! What a server knows about its clients.

use vstd::prelude::*;

pub mod view;

use self::view::{
    addrs_of, free_slot, is_client_at, is_step, law_connected, law_disconnected, law_lost,
    law_trimmed, law_with_buffers, law_with_client, lemma_free_slot, lemma_step, lemma_steps,
    lemma_trimmed_addrs, lemma_used_slots, used_slots, ClientConnectionView, ServerStep,
    ServerView, SlotChange,
};
use super::listeners::{ListenerView, Listeners};
use super::{handle_buffers, is_reaction, HandlerError, Reaction, SocketAddr};
use crate::config::ServerConfig;
use crate::packet::buffers::PacketBuffersView;
use crate::packet::wire::{id_of, kind_of, read_id, SEQ_INDEX_START};
use crate::packet::{
    HandlePacketError, PacketBuffers, PacketId, PacketKind, Packets, Round, SendAttempt,
};
use crate::sorted::are_sorted_keys;
use crate::time::Instant;

verus! {

/// Whether a client is allowed to connect.
pub enum Connect<P: Packets> {
    Accept(P::Accept),
    Reject(P::Reject),
}

/// Why a packet of a client was not expected.
#[derive(Clone, Copy, Debug, PartialEq, Eq, Structural)]
pub enum UnexpectedClientPacket {
    /// The client can't know if it is compatible.
    UnknownCompatibility,
    /// Not connected to this client.
    NotConnected,
    /// Already connected to this client.
    AlreadyConnected,
}

/// Cannot unlisten a connected client.
#[derive(Clone, Copy, Debug, PartialEq, Eq, Structural)]
pub struct UnlistenError;

/// A ping that was sent out to a client.
#[derive(Clone, Copy, Debug, Hash, PartialEq, Eq, Structural)]
pub struct ActivePing {
    pub ping_id: PacketId,
    pub ping: Instant,
}

/// A client that is connected to the server.
pub struct ClientConnection {
    client_addr: SocketAddr,
    buffers: PacketBuffers,
    /// The current ping sent out to the client.
    ///
    /// Might be `None` if it failed to send because the socket would have blocked.
    ///
    /// Will be kept around even after a pong was received to know when to send the next one. New
    /// pings will be sent out, even if the client hasn't responded to this one yet.
    active_ping: Option<ActivePing>,
    /// The last time the client responded to a ping.
    last_ping: Option<Instant>,
    /// How many pings the client has not responded to in a row.
    ///
    /// Reset whenever a pong is received. Used to time out clients.
    missed_pings: usize,
}

impl View for ClientConnection {
    type V = ClientConnectionView;

    closed spec fn view(&self) -> ClientConnectionView {
        ClientConnectionView {
            client_addr: self.client_addr,
            buffers: self.buffers@,
            active_ping: self.active_ping,
            last_ping: self.last_ping,
            missed_pings: self.missed_pings as int,
        }
    }
}

impl ClientConnection {
    pub closed spec fn wf(&self) -> bool {
        self.buffers.wf()
    }

    pub fn new(client_addr: SocketAddr, buffers: PacketBuffers) -> (client: Self)
        requires
            buffers.wf(),
        ensures
            client.wf(),
            client@ == ClientConnectionView::new(client_addr, buffers@),
    {
        ClientConnection {
            client_addr,
            buffers,
            active_ping: None,
            last_ping: None,
            missed_pings: 0,
        }
    }
}

/// What has to be done with a datagram.
pub enum ServerReaction<'a> {
    /// The version has to be sent.
    VersionRequest,
    /// The datagram came from a known peer.
    Known(Reaction<'a>),
    /// A client has responded to a ping.
    Pong {
        /// Whether it was the current one.
        expected: bool,
    },
    /// The datagram was not expected.
    Unexpected(UnexpectedClientPacket),
}

/// What has to be done about the pings of a client.
pub enum PingTask {
    /// It is too early for the next ping.
    Nothing,
    /// A ping with this id has to be sent.
    Ping(PacketId),
    /// The error has to be reported, since the client has timed out.
    Timeout(HandlerError),
}

/// What kind of packet was received from a client.
#[derive(Clone, Copy, Debug, PartialEq, Eq, Structural)]
pub enum ClientPacketKind {
    Query,
    Connect,
    Disconnect,
    User,
}

/// What has to be done with a packet of a known peer.
#[derive(Clone, Copy, Debug, PartialEq, Eq, Structural)]
pub enum ClientPacketReaction {
    /// The status has to be sent.
    Status,
    /// It has to be decided whether the client is accepted or rejected.
    Decide,
    /// The packet has to be passed on.
    Deliver,
    /// The packet was not expected.
    Unexpected(UnexpectedClientPacket),
}

/// What has to be done with a packet of a known peer, depending on whether it is connected.
pub open spec fn packet_reaction(is_client: bool, kind: ClientPacketKind) -> ClientPacketReaction {
    match kind {
        ClientPacketKind::Query => ClientPacketReaction::Status,
        ClientPacketKind::Connect => if is_client {
            ClientPacketReaction::Unexpected(UnexpectedClientPacket::AlreadyConnected)
        } else {
            ClientPacketReaction::Decide
        },
        ClientPacketKind::Disconnect | ClientPacketKind::User => if is_client {
            ClientPacketReaction::Deliver
        } else {
            ClientPacketReaction::Unexpected(UnexpectedClientPacket::NotConnected)
        },
    }
}

/// Keeps track of clients.
pub struct Server {
    /// The configuration of the server.
    config: ServerConfig,
    /// All clients that the server is listening to, excluding the ones that are connected.
    ///
    /// Clients get added to this list by sending a version query (an empty packet) and get removed
    /// after [`ServerConfig::listener_timeout`]. Clients in this list are allowed to send status
    /// queries and try connecting to the server.
    listeners: Listeners,
    /// All clients that are connected to the server.
    ///
    /// Listeners are upgraded to clients (and moved to this list) when they try to connect.
    /// Connected clients cannot move position, since the order is also used by entity change
    /// tracking. Instead, they are simply set to [`None`] upon disconnection and can be reused by
    /// new clients.
    clients: Vec<Option<ClientConnection>>,
}

/// The views of all the clients.
pub open spec fn client_views(clients: Seq<Option<ClientConnection>>) -> Seq<
    Option<ClientConnectionView>,
> {
    Seq::new(
        clients.len(),
        |i: int|
            match clients[i] {
                Some(client) => Some(client@),
                None => None,
            },
    )
}

impl View for Server {
    type V = ServerView;

    closed spec fn view(&self) -> ServerView {
        ServerView { listeners: self.listeners@, clients: client_views(self.clients@) }
    }
}

impl Server {
    pub closed spec fn wf(&self) -> bool {
        &&& self.listeners.wf()
        &&& forall|i: int|
            0 <= i < self.clients@.len() ==> ((#[trigger] self.clients@[i]) matches Some(client)
                ==> client.wf())
        &&& self@.wf()
    }

    /// No client is connected twice, and no client is also among the listeners.
    pub proof fn lemma_wf(&self)
        requires
            self.wf(),
        ensures
            self@.wf(),
    {
    }

    pub closed spec fn config_spec(&self) -> ServerConfig {
        self.config
    }

    /// Starts out without any clients.
    pub fn new(config: ServerConfig) -> (server: Self)
        ensures
            server.wf(),
            server@ == (ServerView { listeners: Map::empty(), clients: Seq::empty() }),
            server.config_spec() == config,
    {
        let server = Server { config, listeners: Listeners::new(), clients: Vec::new() };
        assert(server@.clients =~= Seq::empty());
        server
    }

    /// The configuration of the server.
    pub fn config(&self) -> (config: ServerConfig)
        ensures
            config == self.config_spec(),
    {
        self.config
    }

    /// The slot of a connected client.
    pub fn client(&self, addr: SocketAddr) -> (slot: Option<usize>)
        requires
            self.wf(),
        ensures
            slot is Some <==> self@.is_client(addr),
            slot matches Some(slot) ==> slot == self@.slot_of(addr) && is_client_at(
                self@.clients,
                addr,
                slot as int,
            ),
    {
        let mut slot: usize = 0;
        while slot < self.clients.len()
            invariant
                self.wf(),
                slot <= self.clients@.len(),
                forall|i: int| 0 <= i < slot ==> !(#[trigger] is_client_at(self@.clients, addr, i)),
            decreases self.clients@.len() - slot,
        {
            if let Some(client) = &self.clients[slot] {
                if client.client_addr == addr {
                    assert(is_client_at(self@.clients, addr, slot as int));
                    return Some(slot);
                }
            }
            slot = slot + 1;
        }
        None
    }

    /// Stops listening to a client and returns whether the server was listening to it.
    ///
    /// Only works if the client is not connected.
    pub fn unlisten(&mut self, client_addr: SocketAddr) -> (result: Result<bool, UnlistenError>)
        requires
            old(self).wf(),
        ensures
            final(self).wf(),
            final(self).config_spec() == old(self).config_spec(),
            is_step(old(self)@, final(self)@, SlotChange::Kept),
            final(self)@ == (ServerView {
                listeners: old(self)@.listeners.remove(client_addr),
                ..old(self)@
            }),
            result == if old(self)@.listeners.contains_key(client_addr) {
                Ok(true)
            } else if old(self)@.is_client(client_addr) {
                Err(UnlistenError)
            } else {
                Ok(false)
            },
    {
        proof {
            lemma_step(self@, ServerStep::Keep(self@.listeners.remove(client_addr)));
        }
        let removed = self.listeners.remove(client_addr);
        proof {
            assert(self@.clients == old(self)@.clients);
            assert forall|addr: SocketAddr, i: int| #[trigger]
                is_client_at(self@.clients, addr, i) implies !self@.listeners.contains_key(addr) by {
                assert(!old(self)@.listeners.contains_key(addr));
            }
        }
        if removed.is_some() {
            Ok(true)
        } else if self.client(client_addr).is_some() {
            Err(UnlistenError)
        } else {
            Ok(false)
        }
    }

    /// Stops listening to all clients that are not connected.
    pub fn unlisten_all(&mut self)
        requires
            old(self).wf(),
        ensures
            final(self).wf(),
            final(self).config_spec() == old(self).config_spec(),
            is_step(old(self)@, final(self)@, SlotChange::Kept),
            final(self)@ == (ServerView { listeners: Map::empty(), ..old(self)@ }),
    {
        proof {
            lemma_step(self@, ServerStep::Keep(Map::empty()));
        }
        self.listeners.clear();
    }

    /// Stops listening to clients that became listeners too long ago.
    pub fn timeout_listeners(&mut self, now: Instant)
        requires
            old(self).wf(),
        ensures
            final(self).wf(),
            final(self).config_spec() == old(self).config_spec(),
            is_step(old(self)@, final(self)@, SlotChange::Kept),
            final(self)@ == match old(self).config_spec().listener_timeout {
                Some(timeout) => old(self)@.after_listener_timeout(timeout, now),
                None => old(self)@,
            },
    {
        proof {
            lemma_step(self@, ServerStep::Nothing);
            if let Some(timeout) = self.config.listener_timeout {
                let kept = self@.after_listener_timeout(timeout, now).listeners;
                lemma_step(self@, ServerStep::Keep(kept));
            }
        }
        if let Some(timeout) = self.config.listener_timeout {
            self.listeners.timeout(timeout, now);
            proof {
                assert(self@.clients == old(self)@.clients);
                assert forall|addr: SocketAddr, i: int| #[trigger]
                    is_client_at(self@.clients, addr, i) implies !self@.listeners.contains_key(
                    addr,
                ) by {
                    assert(!old(self)@.listeners.contains_key(addr));
                }
            }
        }
    }

    /// The packets of a known peer.
    pub fn buffers_mut(&mut self, addr: SocketAddr) -> (buffers: Option<&mut PacketBuffers>)
        requires
            old(self).wf(),
        ensures
            buffers is Some <==> old(self)@.is_known(addr),
            match buffers {
                Some(buffers) => {
                    &&& buffers.wf()
                    &&& buffers@ == old(self)@.buffers_of(addr)
                    &&& final(self).config_spec() == old(self).config_spec()
                    &&& final(buffers).wf() ==> final(self).wf() && final(self)@ == old(
                        self,
                    )@.with_buffers(addr, final(buffers)@)
                },
                None => *final(self) == *old(self),
            },
    {
        let ghost before = *self;
        match self.client(addr) {
            Some(slot) => {
                proof {
                    assert forall|after: Self|
                        #![trigger after.wf()]
                        #![trigger after@]
                        ({
                            &&& after.listeners == before.listeners
                            &&& after.clients@.len() == before.clients@.len()
                            &&& forall|i: int|
                                0 <= i < after.clients@.len() && i != slot ==> (
                                #[trigger] after.clients@[i]) == before.clients@[i]
                            &&& after.clients@[slot as int] is Some
                            &&& after.clients@[slot as int]->Some_0 == (ClientConnection {
                                buffers: after.clients@[slot as int]->Some_0.buffers,
                                ..before.clients@[slot as int]->Some_0
                            })
                            &&& after.clients@[slot as int]->Some_0.buffers.wf()
                        }) implies after.wf() && after@ == before@.with_buffers(
                        addr,
                        after.clients@[slot as int]->Some_0.buffers@,
                    ) by {
                        let buffers = after.clients@[slot as int]->Some_0.buffers@;
                        law_with_buffers(before@, addr, buffers, addr, 0);
                        assert(after@.clients =~= before@.with_buffers(addr, buffers).clients);
                    }
                }
                match &mut self.clients[slot] {
                    Some(client) => Some(&mut client.buffers),
                    None => None,
                }
            },
            None => {
                proof {
                    assert forall|after: Self|
                        #![trigger after.wf()]
                        #![trigger after@]
                        ({
                            &&& before@.listeners.contains_key(addr)
                            &&& after.clients == before.clients
                            &&& after.listeners.wf()
                            &&& after.listeners@ == before.listeners@.insert(
                                addr,
                                ListenerView {
                                    buffers: after.listeners@[addr].buffers,
                                    ..before.listeners@[addr]
                                },
                            )
                        }) implies after.wf() && after@ == before@.with_buffers(
                        addr,
                        after.listeners@[addr].buffers,
                    ) by {
                        law_with_buffers(before@, addr, after.listeners@[addr].buffers, addr, 0);
                    }
                }
                self.listeners.get_mut(addr)
            },
        }
    }

    /// Handles a datagram.
    pub fn handle_datagram<'a>(
        &'a mut self,
        client_addr: SocketAddr,
        buf: &'a [u8],
        now: Instant,
    ) -> (reaction: ServerReaction<'a>)
        requires
            old(self).wf(),
        ensures
            final(self).wf(),
            final(self).config_spec() == old(self).config_spec(),
            is_step(old(self)@, final(self)@, SlotChange::Kept),
            if buf@.len() == 0 {
                &&& reaction == ServerReaction::<'a>::VersionRequest
                &&& final(self)@ == old(self)@
            } else if !old(self)@.is_known(client_addr) {
                &&& reaction == ServerReaction::<'a>::Unexpected(
                    UnexpectedClientPacket::UnknownCompatibility,
                )
                &&& final(self)@ == old(self)@
            } else if old(self)@.is_client(client_addr) && kind_of(buf@) == Some(
                PacketKind::Ping,
            ) {
                if buf@.len() < SEQ_INDEX_START {
                    &&& reaction == ServerReaction::<'a>::Known(
                        Reaction::<'a>::Error(
                            HandlerError::Handle {
                                sender_addr: client_addr,
                                error: HandlePacketError::Malformed,
                            },
                        ),
                    )
                    &&& final(self)@ == old(self)@
                } else {
                    let client = old(self)@.client(client_addr);
                    &&& reaction == (ServerReaction::Pong { expected: client.is_pong(id_of(buf@)) })
                    &&& final(self)@ == old(self)@.with_client(
                        client_addr,
                        client.after_pong(id_of(buf@), now),
                    )
                }
            } else {
                let buffers = old(self)@.buffers_of(client_addr);
                &&& reaction matches ServerReaction::<'a>::Known(reaction) && is_reaction(
                    reaction,
                    client_addr,
                    buffers.handling(buf@),
                )
                &&& final(self)@ == old(self)@.with_buffers(
                    client_addr,
                    buffers.after_handling(buf@, now),
                )
            },
    {
        proof {
            lemma_steps(self@, client_addr);
        }
        if buf.len() == 0 {
            return ServerReaction::VersionRequest;
        }
        if let Some(PacketKind::Ping) = PacketKind::from_byte(buf[0]) {
            if let Some(slot) = self.client(client_addr) {
                return match read_id(buf) {
                    Some(ping_id) => ServerReaction::Pong {
                        expected: self.handle_pong(slot, ping_id, now),
                    },
                    None => ServerReaction::Known(
                        Reaction::Error(
                            HandlerError::Handle {
                                sender_addr: client_addr,
                                error: HandlePacketError::Malformed,
                            },
                        ),
                    ),
                };
            }
        }
        match self.buffers_mut(client_addr) {
            Some(buffers) => ServerReaction::Known(handle_buffers(buffers, buf, client_addr, now)),
            None => ServerReaction::Unexpected(UnexpectedClientPacket::UnknownCompatibility),
        }
    }

    /// Handles the pong of a client and returns whether it is the one to the current ping.
    fn handle_pong(&mut self, slot: usize, ping_id: PacketId, now: Instant) -> (expected: bool)
        requires
            old(self).wf(),
            slot < old(self)@.clients.len(),
            old(self)@.clients[slot as int] is Some,
        ensures
            final(self).wf(),
            final(self).config_spec() == old(self).config_spec(),
            ({
                let client = old(self)@.clients[slot as int]->Some_0;
                &&& expected == client.is_pong(ping_id)
                &&& final(self)@ == old(self)@.with_client(
                    client.client_addr,
                    client.after_pong(ping_id, now),
                )
            }),
    {
        let ghost before = *self;
        let ghost client = self@.clients[slot as int]->Some_0;
        let mut expected = false;
        if let Some(connection) = &mut self.clients[slot] {
            if let Some(active_ping) = connection.active_ping {
                if active_ping.ping_id == ping_id {
                    connection.last_ping = Some(now);
                    connection.missed_pings = 0;
                    expected = true;
                }
            }
        }
        proof {
            let after = client.after_pong(ping_id, now);
            self.lemma_with_client(before, slot as int, after);
        }
        expected
    }

    /// Replacing what is known about a client.
    proof fn lemma_with_client(&self, before: Self, slot: int, client: ClientConnectionView)
        requires
            before.wf(),
            0 <= slot < before.clients@.len(),
            before.clients@[slot] is Some,
            client.client_addr == before.clients@[slot]->Some_0@.client_addr,
            self.listeners == before.listeners,
            self.clients@.len() == before.clients@.len(),
            forall|i: int|
                0 <= i < self.clients@.len() && i != slot ==> (#[trigger] self.clients@[i])
                    == before.clients@[i],
            self.clients@[slot] is Some,
            self.clients@[slot]->Some_0.wf(),
            self.clients@[slot]->Some_0@ == client,
        ensures
            self.wf(),
            self@ == before@.with_client(client.client_addr, client),
    {
        let addr = client.client_addr;
        assert(is_client_at(before@.clients, addr, slot));
        assert(before@.slot_of(addr) == slot);
        law_with_client(before@, addr, client, addr, slot);
        assert(self@.clients =~= before@.with_client(addr, client).clients);
    }

    /// Decides whether a client has to be pinged, or whether it has missed too many pongs, which
    /// means that it is lost.
    pub fn start_ping(&mut self, client_addr: SocketAddr, now: Instant) -> (task: PingTask)
        requires
            old(self).wf(),
            old(self)@.is_client(client_addr),
        ensures
            final(self).wf(),
            final(self).config_spec() == old(self).config_spec(),
            is_step(
                old(self)@,
                final(self)@,
                if task is Timeout {
                    SlotChange::Freed(client_addr)
                } else {
                    SlotChange::Kept
                },
            ),
            ({
                let client = old(self)@.client(client_addr);
                let config = old(self).config_spec();
                if !client.is_ping_due(config, now) {
                    &&& task == PingTask::Nothing
                    &&& final(self)@ == old(self)@
                } else if client.is_timed_out(config, now) {
                    &&& task == PingTask::Timeout(HandlerError::Timeout { peer_addr: client_addr })
                    &&& final(self)@ == old(self)@.lost(client_addr)
                } else {
                    &&& task matches PingTask::Ping(ping_id) && ping_id.is_random()
                    &&& final(self)@ == old(self)@
                }
            }),
    {
        proof {
            lemma_steps(self@, client_addr);
        }
        let slot: usize = self.client(client_addr).unwrap();
        let (is_due, missed_pings): (bool, usize) = match &self.clients[slot] {
            Some(client) => (
                match client.active_ping {
                    Some(active_ping) => active_ping.ping.elapsed(now).nanos
                        >= self.config.ping_delay.nanos,
                    None => true,
                },
                client.missed_pings,
            ),
            None => (false, 0),
        };
        if !is_due {
            return PingTask::Nothing;
        }
        let is_timed_out = match self.config.max_missed_pongs {
            Some(max_missed_pongs) => missed_pings > max_missed_pongs,
            None => false,
        };
        if is_timed_out {
            proof {
                law_lost(self@, client_addr, client_addr, 0);
            }
            let _client = self.take(slot);
            assert(self@.clients =~= old(self)@.lost(client_addr).clients);
            PingTask::Timeout(HandlerError::Timeout { peer_addr: client_addr })
        } else {
            PingTask::Ping(PacketId::new())
        }
    }

    /// Concludes the attempt to ping a client, who is lost if that failed.
    ///
    /// The outcome is `Ok(false)` if the ping was not sent because the socket would block.
    pub fn finish_ping(
        &mut self,
        client_addr: SocketAddr,
        ping_id: PacketId,
        outcome: Result<bool, std::io::Error>,
        now: Instant,
    ) -> (result: Result<(), HandlerError>)
        requires
            old(self).wf(),
            old(self)@.is_client(client_addr),
        ensures
            final(self).wf(),
            final(self).config_spec() == old(self).config_spec(),
            is_step(
                old(self)@,
                final(self)@,
                if outcome is Err {
                    SlotChange::Freed(client_addr)
                } else {
                    SlotChange::Kept
                },
            ),
            match outcome {
                Ok(sent) => {
                    &&& result == Ok::<(), HandlerError>(())
                    &&& final(self)@ == old(self)@.with_client(
                        client_addr,
                        old(self)@.client(client_addr).after_ping(ping_id, sent, now),
                    )
                },
                Err(error) => {
                    &&& result == Err::<(), _>(
                        HandlerError::Send { receiver_addr: client_addr, error },
                    )
                    &&& final(self)@ == old(self)@.lost(client_addr)
                },
            },
    {
        proof {
            lemma_steps(self@, client_addr);
        }
        match outcome {
            Ok(sent) => {
                let ghost before = *self;
                let slot: usize = self.client(client_addr).unwrap();
                if let Some(connection) = &mut self.clients[slot] {
                    if sent {
                        connection.active_ping = Some(ActivePing { ping_id, ping: now });
                        connection.missed_pings = connection.missed_pings.saturating_add(1);
                    } else {
                        connection.active_ping = None;
                    }
                }
                proof {
                    let client = before@.client(client_addr).after_ping(ping_id, sent, now);
                    self.lemma_with_client(before, slot as int, client);
                }
                Ok(())
            },
            Err(error) => self.finish_update(client_addr, Err(error)),
        }
    }

    /// Concludes the attempt to send the version to a client that has asked for it, who is a
    /// listener from then on.
    ///
    /// The outcome is `Ok(false)` if the version was not sent because the socket would block.
    pub fn handle_version_request(
        &mut self,
        client_addr: SocketAddr,
        outcome: Result<bool, std::io::Error>,
        now: Instant,
    ) -> (result: Result<(), HandlerError>)
        requires
            old(self).wf(),
        ensures
            final(self).wf(),
            final(self).config_spec() == old(self).config_spec(),
            is_step(old(self)@, final(self)@, SlotChange::Kept),
            match outcome {
                Ok(sent) => {
                    &&& result == Ok::<(), HandlerError>(())
                    &&& final(self)@ == if sent && !old(self)@.is_known(client_addr) {
                        ServerView {
                            listeners: old(self)@.listeners.insert(
                                client_addr,
                                ListenerView {
                                    since: now,
                                    buffers: PacketBuffersView::new(
                                        old(
                                            self,
                                        ).config_spec().connection.initial_send_batch_size@ as int,
                                    ),
                                },
                            ),
                            ..old(self)@
                        }
                    } else {
                        old(self)@
                    }
                },
                Err(error) => {
                    &&& result == Err::<(), _>(
                        HandlerError::Send { receiver_addr: client_addr, error },
                    )
                    &&& final(self)@ == old(self)@
                },
            },
    {
        proof {
            lemma_steps(self@, client_addr);
        }
        match outcome {
            Ok(sent) => {
                if sent && !self.listeners.contains(client_addr) && self.client(
                    client_addr,
                ).is_none() {
                    let buffers = PacketBuffers::new(
                        self.config.connection.initial_send_batch_size,
                    );
                    self.listeners.insert(client_addr, buffers, now);
                    proof {
                        assert(self@.clients == old(self)@.clients);
                        assert forall|addr: SocketAddr, i: int| #[trigger]
                            is_client_at(
                                self@.clients,
                                addr,
                                i,
                            ) implies !self@.listeners.contains_key(addr) by {
                            assert(old(self)@.is_client(addr));
                        }
                    }
                }
                Ok(())
            },
            Err(error) => Err(HandlerError::Send { receiver_addr: client_addr, error }),
        }
    }

    /// Moves a connected client to the listeners.
    fn disconnect(&mut self, slot: usize, now: Instant)
        requires
            old(self).wf(),
            slot < old(self)@.clients.len(),
            old(self)@.clients[slot as int] is Some,
        ensures
            final(self).wf(),
            final(self).config_spec() == old(self).config_spec(),
            final(self)@ == old(self)@.disconnected(
                old(self)@.clients[slot as int]->Some_0.client_addr,
                now,
            ),
    {
        let ghost addr = self@.clients[slot as int]->Some_0.client_addr;
        proof {
            assert(is_client_at(self@.clients, addr, slot as int));
            law_disconnected(self@, addr, now, addr, slot as int);
        }
        if let Some(client) = self.take(slot) {
            self.listeners.insert(client.client_addr, client.buffers, now);
            assert(self@.clients =~= old(self)@.disconnected(addr, now).clients);
        }
    }

    /// Empties a slot.
    fn take(&mut self, slot: usize) -> (client: Option<ClientConnection>)
        requires
            slot < old(self)@.clients.len(),
            forall|i: int|
                0 <= i < old(self).clients@.len() ==> ((#[trigger] old(
                    self,
                ).clients@[i]) matches Some(client) ==> client.wf()),
        ensures
            final(self).config == old(self).config,
            final(self).listeners == old(self).listeners,
            final(self).clients@ == old(self).clients@.update(slot as int, None),
            client == old(self).clients@[slot as int],
    {
        let mut client = None;
        std::mem::swap(&mut self.clients[slot], &mut client);
        client
    }

    /// Handles a packet of a known peer.
    pub fn handle_packet(
        &mut self,
        client_addr: SocketAddr,
        kind: ClientPacketKind,
        now: Instant,
    ) -> (reaction: ClientPacketReaction)
        requires
            old(self).wf(),
            old(self)@.is_known(client_addr),
        ensures
            final(self).wf(),
            final(self).config_spec() == old(self).config_spec(),
            is_step(
                old(self)@,
                final(self)@,
                if old(self)@.is_client(client_addr) && (kind == ClientPacketKind::Connect || kind
                    == ClientPacketKind::Disconnect) {
                    SlotChange::Freed(client_addr)
                } else {
                    SlotChange::Kept
                },
            ),
            reaction == packet_reaction(old(self)@.is_client(client_addr), kind),
            final(self)@ == if old(self)@.is_client(client_addr) && (kind
                == ClientPacketKind::Connect || kind == ClientPacketKind::Disconnect) {
                old(self)@.disconnected(client_addr, now)
            } else {
                old(self)@
            },
    {
        proof {
            lemma_steps(self@, client_addr);
        }
        match self.client(client_addr) {
            Some(slot) => match kind {
                ClientPacketKind::Query => ClientPacketReaction::Status,
                ClientPacketKind::Connect => {
                    self.disconnect(slot, now);
                    ClientPacketReaction::Unexpected(UnexpectedClientPacket::AlreadyConnected)
                },
                ClientPacketKind::Disconnect => {
                    self.disconnect(slot, now);
                    ClientPacketReaction::Deliver
                },
                ClientPacketKind::User => ClientPacketReaction::Deliver,
            },
            None => match kind {
                ClientPacketKind::Query => ClientPacketReaction::Status,
                ClientPacketKind::Connect => ClientPacketReaction::Decide,
                ClientPacketKind::Disconnect | ClientPacketKind::User => {
                    ClientPacketReaction::Unexpected(UnexpectedClientPacket::NotConnected)
                },
            },
        }
    }

    /// Keeps track of a packet after an attempt to send its first batch to a known peer.
    pub fn send(&mut self, client_addr: SocketAddr, attempt: SendAttempt, now: Instant) -> (result:
        Result<PacketId, std::io::Error>)
        requires
            old(self).wf(),
            old(self)@.is_known(client_addr),
            attempt.wf(),
        ensures
            final(self).wf(),
            final(self).config_spec() == old(self).config_spec(),
            is_step(old(self)@, final(self)@, SlotChange::Kept),
            final(self)@ == old(self)@.with_buffers(
                client_addr,
                old(self)@.buffers_of(client_addr).after_send(attempt, now),
            ),
            result == match attempt.outcome {
                Ok(_) => Ok(attempt.id),
                Err(error) => Err(error),
            },
    {
        proof {
            lemma_steps(self@, client_addr);
        }
        self.buffers_mut(client_addr).unwrap().send(attempt, now)
    }

    /// Concludes the attempt to send the status to a client that has asked for it.
    ///
    /// Connected clients are disconnected if that failed.
    pub fn status_sent(
        &mut self,
        client_addr: SocketAddr,
        attempt: SendAttempt,
        now: Instant,
    ) -> (result: Result<PacketId, HandlerError>)
        requires
            old(self).wf(),
            old(self)@.is_known(client_addr),
            attempt.wf(),
        ensures
            final(self).wf(),
            final(self).config_spec() == old(self).config_spec(),
            ({
                let after = old(self)@.with_buffers(
                    client_addr,
                    old(self)@.buffers_of(client_addr).after_send(attempt, now),
                );
                &&& is_step(old(self)@, after, SlotChange::Kept)
                &&& is_step(
                    after,
                    final(self)@,
                    if attempt.outcome is Err && old(self)@.is_client(client_addr) {
                        SlotChange::Freed(client_addr)
                    } else {
                        SlotChange::Kept
                    },
                )
                &&& match attempt.outcome {
                    Ok(_) => {
                        &&& result == Ok::<_, HandlerError>(attempt.id)
                        &&& final(self)@ == after
                    },
                    Err(error) => {
                        &&& result == Err::<PacketId, _>(
                            HandlerError::Send { receiver_addr: client_addr, error },
                        )
                        &&& final(self)@ == if old(self)@.is_client(client_addr) {
                            after.disconnected(client_addr, now)
                        } else {
                            after
                        }
                    },
                }
            }),
    {
        proof {
            lemma_steps(self@, client_addr);
        }
        proof {
            let slot = old(self)@.slot_of(client_addr);
            law_with_buffers(
                old(self)@,
                client_addr,
                old(self)@.buffers_of(client_addr).after_send(attempt, now),
                client_addr,
                slot,
            );
            lemma_steps(
                old(self)@.with_buffers(
                    client_addr,
                    old(self)@.buffers_of(client_addr).after_send(attempt, now),
                ),
                client_addr,
            );
        }
        match self.send(client_addr, attempt, now) {
            Ok(id) => Ok(id),
            Err(error) => {
                if let Some(slot) = self.client(client_addr) {
                    self.disconnect(slot, now);
                }
                Err(HandlerError::Send { receiver_addr: client_addr, error })
            },
        }
    }

    /// Concludes the attempt to tell a client whether it was accepted or rejected.
    ///
    /// The client is connected from then on if it was accepted.
    pub fn answer_sent(
        &mut self,
        client_addr: SocketAddr,
        accepted: bool,
        attempt: SendAttempt,
        now: Instant,
    ) -> (result: Result<PacketId, HandlerError>)
        requires
            old(self).wf(),
            old(self)@.listeners.contains_key(client_addr),
            attempt.wf(),
        ensures
            final(self).wf(),
            final(self).config_spec() == old(self).config_spec(),
            ({
                let after = old(self)@.with_buffers(
                    client_addr,
                    old(self)@.buffers_of(client_addr).after_send(attempt, now),
                );
                &&& is_step(old(self)@, after, SlotChange::Kept)
                &&& is_step(
                    after,
                    final(self)@,
                    SlotChange::Kept,
                )
                &&& match attempt.outcome {
                    Ok(_) => {
                        &&& result == Ok::<_, HandlerError>(attempt.id)
                        &&& final(self)@ == if accepted {
                            after.connected(client_addr)
                        } else {
                            after
                        }
                    },
                    Err(error) => {
                        &&& result == Err::<PacketId, _>(
                            HandlerError::Send { receiver_addr: client_addr, error },
                        )
                        &&& final(self)@ == after
                    },
                }
            }),
    {
        proof {
            lemma_steps(self@, client_addr);
        }
        proof {
            law_with_buffers(
                old(self)@,
                client_addr,
                old(self)@.buffers_of(client_addr).after_send(attempt, now),
                client_addr,
                0,
            );
            lemma_steps(
                old(self)@.with_buffers(
                    client_addr,
                    old(self)@.buffers_of(client_addr).after_send(attempt, now),
                ),
                client_addr,
            );
        }
        match self.send(client_addr, attempt, now) {
            Ok(id) => {
                if accepted {
                    self.connect(client_addr);
                }
                Ok(id)
            },
            Err(error) => Err(HandlerError::Send { receiver_addr: client_addr, error }),
        }
    }

    /// Moves a listener to the connected clients.
    fn connect(&mut self, client_addr: SocketAddr)
        requires
            old(self).wf(),
            old(self)@.listeners.contains_key(client_addr),
        ensures
            final(self).wf(),
            final(self).config_spec() == old(self).config_spec(),
            final(self)@ == old(self)@.connected(client_addr),
    {
        proof {
            law_connected(self@, client_addr, client_addr, 0);
            lemma_free_slot(self@.clients);
        }
        let slot: usize = self.get_or_add_free_slot();
        if let Some(buffers) = self.listeners.remove(client_addr) {
            let client = ClientConnection::new(client_addr, buffers);
            self.clients[slot] = Some(client);
        }
        assert(self@.clients =~= old(self)@.connected(client_addr).clients);
    }

    /// The first slot that is not in use, which is added if necessary.
    fn get_or_add_free_slot(&mut self) -> (slot: usize)
        ensures
            slot == free_slot(old(self)@.clients),
            final(self).config == old(self).config,
            final(self).listeners == old(self).listeners,
            final(self).clients@ == if slot < old(self).clients@.len() {
                old(self).clients@
            } else {
                old(self).clients@.push(None)
            },
    {
        let ghost views = self@.clients;
        let mut slot: usize = 0;
        assert(views.skip(0) =~= views);
        while slot < self.clients.len() && self.clients[slot].is_some()
            invariant
                slot <= self.clients@.len(),
                views == client_views(self.clients@),
                free_slot(views) == slot + free_slot(views.skip(slot as int)),
            decreases self.clients@.len() - slot,
        {
            assert(views.skip(slot as int).drop_first() =~= views.skip(slot + 1));
            slot = slot + 1;
        }
        if slot == self.clients.len() {
            self.clients.push(None);
        }
        slot
    }

    /// Removes the slots behind the last client, and returns the addresses of all clients whose
    /// packets have to be updated, in the order in which they take their turns.
    pub fn update_buffers(&mut self) -> (client_addrs: Vec<SocketAddr>)
        requires
            old(self).wf(),
        ensures
            final(self).wf(),
            final(self).config_spec() == old(self).config_spec(),
            is_step(old(self)@, final(self)@, SlotChange::Trimmed),
            final(self)@ == old(self)@.trimmed(),
            client_addrs@ == addrs_of(old(self)@.trimmed().clients),
    {
        proof {
            lemma_step(self@, ServerStep::Trim);
        }
        proof {
            lemma_used_slots(self@.clients);
            assert forall|addr: SocketAddr, slot: int| #[trigger]
                is_client_at(self@.trimmed().clients, addr, slot) <==> is_client_at(
                    self@.clients,
                    addr,
                    slot,
                ) by {
                law_trimmed(self@, addr, slot);
            }
        }
        let ghost views = self@.clients;
        let mut first_empty_slot: usize = 0;
        let mut client_addrs: Vec<SocketAddr> = Vec::new();
        let mut index: usize = 0;
        assert(views.take(0) =~= Seq::empty());
        while index < self.clients.len()
            invariant
                index <= self.clients@.len(),
                views == client_views(self.clients@),
                first_empty_slot <= index,
                first_empty_slot == used_slots(views.take(index as int)),
                client_addrs@ == addrs_of(views.take(index as int)),
            decreases self.clients@.len() - index,
        {
            assert(views.take(index + 1).drop_last() =~= views.take(index as int));
            if let Some(client) = &self.clients[index] {
                first_empty_slot = index + 1;
                client_addrs.push(client.client_addr);
            }
            index = index + 1;
        }
        assert(views.take(index as int) =~= views);
        self.clients.truncate(first_empty_slot);
        proof {
            lemma_trimmed_addrs(views);
            assert(self@.clients =~= old(self)@.trimmed().clients);
        }
        client_addrs
    }

    /// Forgets packets of a client that timed out, and then starts a round in which all its packets
    /// get the opportunity to send their next batch.
    pub fn start_update(&mut self, client_addr: SocketAddr, now: Instant) -> (round: Round)
        requires
            old(self).wf(),
            old(self)@.is_known(client_addr),
        ensures
            final(self).wf(),
            final(self).config_spec() == old(self).config_spec(),
            is_step(old(self)@, final(self)@, SlotChange::Kept),
            ({
                let config = old(self).config_spec().connection;
                let known = old(self)@.buffers_of(client_addr).after_timeout(
                    config.resend_delay,
                    config.max_missed_acks,
                    config.receive_timeout,
                    now,
                );
                &&& are_sorted_keys(round@, known.send.packets.dom())
                &&& final(self)@ == old(self)@.with_buffers(
                    client_addr,
                    known.after_round_start(round@),
                )
            }),
    {
        proof {
            lemma_steps(self@, client_addr);
        }
        let config = self.config.connection;
        self.buffers_mut(client_addr).unwrap().start_update(
            config.resend_delay,
            config.max_missed_acks,
            config.receive_timeout,
            now,
        )
    }

    /// Concludes the round of a client, who is lost if something could not be sent.
    pub fn finish_update(
        &mut self,
        client_addr: SocketAddr,
        outcome: Result<(), std::io::Error>,
    ) -> (result: Result<(), HandlerError>)
        requires
            old(self).wf(),
            old(self)@.is_client(client_addr),
        ensures
            final(self).wf(),
            final(self).config_spec() == old(self).config_spec(),
            is_step(
                old(self)@,
                final(self)@,
                if outcome is Err {
                    SlotChange::Freed(client_addr)
                } else {
                    SlotChange::Kept
                },
            ),
            match outcome {
                Ok(_) => {
                    &&& result == Ok::<(), HandlerError>(())
                    &&& final(self)@ == old(self)@
                },
                Err(error) => {
                    &&& result == Err::<(), _>(
                        HandlerError::Send { receiver_addr: client_addr, error },
                    )
                    &&& final(self)@ == old(self)@.lost(client_addr)
                },
            },
    {
        proof {
            lemma_steps(self@, client_addr);
        }
        match outcome {
            Ok(()) => Ok(()),
            Err(error) => {
                proof {
                    law_lost(self@, client_addr, client_addr, 0);
                }
                if let Some(slot) = self.client(client_addr) {
                    let _client = self.take(slot);
                    assert(self@.clients =~= old(self)@.lost(client_addr).clients);
                }
                Err(HandlerError::Send { receiver_addr: client_addr, error })
            },
        }
    }
}

/// What has to be done with a packet: a query is always answered, and apart from that only clients can
/// send packets and disconnect, and only listeners can connect.
pub proof fn law_packet_reaction(is_client: bool, kind: ClientPacketKind)
    ensures
        ({
            let reaction = packet_reaction(is_client, kind);
            &&& kind == ClientPacketKind::Query <==> reaction == ClientPacketReaction::Status
            &&& !is_client && kind == ClientPacketKind::Connect <==> reaction
                == ClientPacketReaction::Decide
            &&& is_client && (kind == ClientPacketKind::Disconnect || kind
                == ClientPacketKind::User) <==> reaction == ClientPacketReaction::Deliver
            &&& is_client && kind == ClientPacketKind::Connect <==> reaction
                == ClientPacketReaction::Unexpected(UnexpectedClientPacket::AlreadyConnected)
            &&& !is_client && (kind == ClientPacketKind::Disconnect || kind
                == ClientPacketKind::User) <==> reaction == ClientPacketReaction::Unexpected(
                UnexpectedClientPacket::NotConnected,
            )
        }),
{
}

} // verus!
