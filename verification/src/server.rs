//! A server that keeps clients in slots, whose compatibility it does not question.

use vstd::prelude::*;

use crate::config::{ConnectionConfig, ServerConfig};
use crate::net::SocketAddr;
use crate::packet::buffers::PacketBuffersView;
use crate::packet::{HandlePacketError, PacketBuffers, PacketId, Packets, Round};
use crate::sorted::are_sorted_keys;
use crate::time::Instant;

verus! {

/// Whether a client is allowed to connect.
pub enum Connect<P: Packets> {
    Accept(P::Accept),
    Reject(P::Reject),
}

/// A [`Connection`].
#[verifier::ext_equal]
pub struct ConnectionView {
    pub connected: bool,
    pub addr: SocketAddr,
    pub ping_id: PacketId,
    pub ping: Instant,
    pub pong: Option<Instant>,
    pub buffers: PacketBuffersView,
}

/// A client that the server knows.
pub struct Connection {
    connected: bool,
    addr: SocketAddr,
    ping_id: PacketId,
    ping: Instant,
    pong: Option<Instant>,
    buffers: PacketBuffers,
}

impl View for Connection {
    type V = ConnectionView;

    closed spec fn view(&self) -> ConnectionView {
        ConnectionView {
            connected: self.connected,
            addr: self.addr,
            ping_id: self.ping_id,
            ping: self.ping,
            pong: self.pong,
            buffers: self.buffers@,
        }
    }
}

impl Connection {
    pub closed spec fn wf(&self) -> bool {
        self.buffers.wf()
    }
}

/// Keeps track of clients.
pub struct Server {
    config: ConnectionConfig,
    server_config: ServerConfig,
    /// All connections to clients.
    ///
    /// A client cannot move position, since the order is also used by entity change tracking.
    connections: Vec<Option<Connection>>,
}

impl View for Server {
    type V = Seq<Option<ConnectionView>>;

    closed spec fn view(&self) -> Seq<Option<ConnectionView>> {
        Seq::new(
            self.connections@.len(),
            |i: int|
                match self.connections@[i] {
                    Some(connection) => Some(connection@),
                    None => None,
                },
        )
    }
}

impl Server {
    pub closed spec fn wf(&self) -> bool {
        forall|i: int|
            0 <= i < self.connections@.len() ==> ((
            #[trigger] self.connections@[i]) matches Some(connection) ==> connection.wf())
    }

    pub closed spec fn config_spec(&self) -> ConnectionConfig {
        self.config
    }

    pub closed spec fn server_config_spec(&self) -> ServerConfig {
        self.server_config
    }

    /// Starts out without any clients.
    pub fn with_config(config: ConnectionConfig, server_config: ServerConfig) -> (server: Self)
        ensures
            server.wf(),
            server@.len() == 0,
            server.config_spec() == config,
            server.server_config_spec() == server_config,
    {
        Server { config, server_config, connections: Vec::new() }
    }

    /// The slot of the first client with the given address.
    pub fn client(&self, addr: SocketAddr) -> (slot: Option<usize>)
        ensures
            match slot {
                Some(slot) => {
                    &&& slot < self@.len()
                    &&& self@[slot as int] matches Some(connection) && connection.addr == addr
                    &&& forall|i: int|
                        0 <= i < slot ==> ((#[trigger] self@[i]) matches Some(connection)
                            ==> connection.addr != addr)
                },
                None => forall|i: int|
                    0 <= i < self@.len() ==> ((#[trigger] self@[i]) matches Some(connection)
                        ==> connection.addr != addr),
            },
    {
        let mut slot: usize = 0;
        while slot < self.connections.len()
            invariant
                slot <= self.connections@.len(),
                self@.len() == self.connections@.len(),
                forall|i: int|
                    0 <= i < slot ==> ((#[trigger] self@[i]) matches Some(connection)
                        ==> connection.addr != addr),
            decreases self.connections@.len() - slot,
        {
            if let Some(connection) = &self.connections[slot] {
                if connection.addr == addr {
                    return Some(slot);
                }
            }
            slot = slot + 1;
        }
        None
    }

    /// The slots of all clients, in the order in which they take their turns.
    ///
    /// The turns end as soon as something could not be sent.
    pub fn slots(&self) -> (slots: Vec<usize>)
        ensures
            forall|i: int, j: int| 0 <= i < j < slots@.len() ==> slots@[i] < slots@[j],
            forall|slot: usize| #[trigger]
                slots@.contains(slot) <==> slot < self@.len() && self@[slot as int] is Some,
    {
        let mut slots: Vec<usize> = Vec::new();
        let mut slot: usize = 0;
        while slot < self.connections.len()
            invariant
                slot <= self.connections@.len(),
                self@.len() == self.connections@.len(),
                forall|i: int, j: int| 0 <= i < j < slots@.len() ==> slots@[i] < slots@[j],
                forall|i: int| 0 <= i < slots@.len() ==> slots@[i] < slot,
                forall|other: usize| #[trigger]
                    slots@.contains(other) <==> other < slot && self@[other as int] is Some,
            decreases self.connections@.len() - slot,
        {
            let ghost before = slots@;
            if self.connections[slot].is_some() {
                slots.push(slot);
                proof {
                    assert(slots@[before.len() as int] == slot);
                    assert forall|other: usize| #[trigger] slots@.contains(other)
                        <==> before.contains(other) || other == slot by {
                        if before.contains(other) {
                            let i = choose|i: int| 0 <= i < before.len() && before[i] == other;
                            assert(slots@[i] == other);
                        }
                    }
                }
            }
            slot = slot + 1;
        }
        slots
    }

    /// The packets of a client.
    pub fn buffers_mut(&mut self, slot: usize) -> (buffers: Option<&mut PacketBuffers>)
        requires
            old(self).wf(),
        ensures
            buffers is Some <==> slot < old(self)@.len() && old(self)@[slot as int] is Some,
            match buffers {
                Some(buffers) => {
                    let connection = old(self)@[slot as int]->Some_0;
                    &&& buffers.wf()
                    &&& buffers@ == connection.buffers
                    &&& final(self).config_spec() == old(self).config_spec()
                    &&& final(self).server_config_spec() == old(self).server_config_spec()
                    &&& final(buffers).wf() ==> final(self).wf() && final(self)@ == old(
                        self,
                    )@.update(
                        slot as int,
                        Some(ConnectionView { buffers: final(buffers)@, ..connection }),
                    )
                },
                None => *final(self) == *old(self),
            },
    {
        let ghost before = *self;
        if slot >= self.connections.len() || self.connections[slot].is_none() {
            return None;
        }
        proof {
            assert forall|after: Self|
                #![trigger after.wf()]
                #![trigger after@]
                ({
                    &&& after.connections@.len() == before.connections@.len()
                    &&& forall|i: int|
                        0 <= i < after.connections@.len() && i != slot ==> (
                        #[trigger] after.connections@[i]) == before.connections@[i]
                    &&& after.connections@[slot as int] is Some
                    &&& after.connections@[slot as int]->Some_0 == (Connection {
                        buffers: after.connections@[slot as int]->Some_0.buffers,
                        ..before.connections@[slot as int]->Some_0
                    })
                    &&& after.connections@[slot as int]->Some_0.buffers.wf()
                }) implies after.wf() && after@ == before@.update(
                slot as int,
                Some(
                    ConnectionView {
                        buffers: after.connections@[slot as int]->Some_0.buffers@,
                        ..before@[slot as int]->Some_0
                    },
                ),
            ) by {
                assert(after@ =~= before@.update(slot as int, after@[slot as int]));
            }
        }
        match &mut self.connections[slot] {
            Some(connection) => Some(&mut connection.buffers),
            None => None,
        }
    }

    /// Forgets packets of a client that timed out, and then starts a round in which all its packets
    /// get the opportunity to send their next batch.
    pub fn start_update(&mut self, slot: usize, now: Instant) -> (round: Round)
        requires
            old(self).wf(),
            slot < old(self)@.len(),
            old(self)@[slot as int] is Some,
        ensures
            final(self).wf(),
            final(self).config_spec() == old(self).config_spec(),
            final(self).server_config_spec() == old(self).server_config_spec(),
            ({
                let config = old(self).config_spec();
                let connection = old(self)@[slot as int]->Some_0;
                let known = connection.buffers.after_timeout(
                    config.resend_delay,
                    config.max_missed_acks,
                    config.receive_timeout,
                    now,
                );
                &&& are_sorted_keys(round@, known.send.packets.dom())
                &&& final(self)@ == old(self)@.update(
                    slot as int,
                    Some(
                        ConnectionView { buffers: known.after_round_start(round@), ..connection },
                    ),
                )
            }),
    {
        let config = self.config;
        self.buffers_mut(slot).unwrap().start_update(
            config.resend_delay,
            config.max_missed_acks,
            config.receive_timeout,
            now,
        )
    }

    /// Handles incoming packets, none of which are expected yet.
    pub fn handle(&mut self) -> (result: Result<(), HandlePacketError>)
        ensures
            result == Ok::<(), HandlePacketError>(()),
            *final(self) == *old(self),
    {
        Ok(())
    }
}

} // verus!
