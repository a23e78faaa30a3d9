//! Who is connected to a server.

use vstd::prelude::*;

use super::ActivePing;
use crate::config::ServerConfig;
use crate::net::listeners::ListenerView;
use crate::net::SocketAddr;
use crate::packet::buffers::PacketBuffersView;
use crate::packet::PacketId;
use crate::time::{Duration, Instant};

verus! {

/// A client that is connected to the server.
#[verifier::ext_equal]
pub struct ClientConnectionView {
    pub client_addr: SocketAddr,
    pub buffers: PacketBuffersView,
    pub active_ping: Option<ActivePing>,
    pub last_ping: Option<Instant>,
    pub missed_pings: int,
}

impl ClientConnectionView {
    /// A client that has just connected.
    pub open spec fn new(client_addr: SocketAddr, buffers: PacketBuffersView) -> Self {
        ClientConnectionView {
            client_addr,
            buffers,
            active_ping: None,
            last_ping: None,
            missed_pings: 0,
        }
    }

    /// Whether it is time for the next ping.
    pub open spec fn is_ping_due(self, config: ServerConfig, now: Instant) -> bool {
        self.active_ping matches Some(active_ping) ==> active_ping.ping.elapsed_spec(now).nanos
            >= config.ping_delay.nanos
    }

    /// Whether the client has missed too many pongs.
    pub open spec fn is_timed_out(self, config: ServerConfig, now: Instant) -> bool {
        &&& self.is_ping_due(config, now)
        &&& config.max_missed_pongs matches Some(max_missed_pongs)
        &&& self.missed_pings > max_missed_pongs
    }

    /// The client after an attempt to ping it.
    ///
    /// `sent` is `false` if the ping was not sent because the socket would block.
    pub open spec fn after_ping(self, ping_id: PacketId, sent: bool, now: Instant) -> Self {
        if sent {
            ClientConnectionView {
                active_ping: Some(ActivePing { ping_id, ping: now }),
                missed_pings: if self.missed_pings < usize::MAX {
                    self.missed_pings + 1
                } else {
                    self.missed_pings
                },
                ..self
            }
        } else {
            ClientConnectionView { active_ping: None, ..self }
        }
    }

    /// Whether this is the pong to the current ping.
    pub open spec fn is_pong(self, ping_id: PacketId) -> bool {
        self.active_ping matches Some(active_ping) && active_ping.ping_id == ping_id
    }

    /// The client after a pong was received, which is ignored unless it is the one to the current
    /// ping.
    pub open spec fn after_pong(self, ping_id: PacketId, now: Instant) -> Self {
        if self.is_pong(ping_id) {
            ClientConnectionView { last_ping: Some(now), missed_pings: 0, ..self }
        } else {
            self
        }
    }
}

/// A client that never responds is pinged once more than it is allowed to miss pongs, and is timed
/// out when the next ping would be due.
///
/// A client that responds to the current ping is not timed out.
pub proof fn law_pings(
    client: ClientConnectionView,
    config: ServerConfig,
    ping_id: PacketId,
    sent_at: Instant,
    pong_at: Instant,
    now: Instant,
)
    requires
        0 <= client.missed_pings < usize::MAX,
        config.max_missed_pongs is Some,
    ensures
        ({
            let pinged = client.after_ping(ping_id, true, sent_at);
            let max = config.max_missed_pongs->Some_0;
            &&& pinged.is_timed_out(config, now) <==> sent_at.elapsed_spec(now).nanos
                >= config.ping_delay.nanos && client.missed_pings >= max
            &&& !pinged.after_pong(ping_id, pong_at).is_timed_out(config, now)
        }),
{
}

/// The first slot that is not in use, which might have to be added.
pub open spec fn free_slot(clients: Seq<Option<ClientConnectionView>>) -> int
    decreases clients.len(),
{
    if clients.len() == 0 || clients.first() is None {
        0
    } else {
        1 + free_slot(clients.drop_first())
    }
}

/// How many slots there are up to the last one that is in use.
pub open spec fn used_slots(clients: Seq<Option<ClientConnectionView>>) -> int
    decreases clients.len(),
{
    if clients.len() == 0 {
        0
    } else if clients.last() is Some {
        clients.len() as int
    } else {
        used_slots(clients.drop_last())
    }
}

/// The addresses of all clients in the order of their slots.
pub open spec fn addrs_of(clients: Seq<Option<ClientConnectionView>>) -> Seq<SocketAddr>
    decreases clients.len(),
{
    if clients.len() == 0 {
        Seq::empty()
    } else {
        match clients.last() {
            Some(client) => addrs_of(clients.drop_last()).push(client.client_addr),
            None => addrs_of(clients.drop_last()),
        }
    }
}

/// Whether the given slot contains a client with the given address.
pub open spec fn is_client_at(
    clients: Seq<Option<ClientConnectionView>>,
    addr: SocketAddr,
    slot: int,
) -> bool {
    &&& 0 <= slot < clients.len()
    &&& clients[slot] matches Some(client) && client.client_addr == addr
}

/// What a server knows.
#[verifier::ext_equal]
pub struct ServerView {
    /// The peers that are not connected, but could do so.
    pub listeners: Map<SocketAddr, ListenerView>,
    /// The connected clients by their slots.
    pub clients: Seq<Option<ClientConnectionView>>,
}

impl ServerView {
    /// Whether a client with the given address is connected.
    pub open spec fn is_client(self, addr: SocketAddr) -> bool {
        exists|slot: int| is_client_at(self.clients, addr, slot)
    }

    /// The slot of a connected client.
    pub open spec fn slot_of(self, addr: SocketAddr) -> int {
        choose|slot: int| is_client_at(self.clients, addr, slot)
    }

    /// What is known about a connected client.
    pub open spec fn client(self, addr: SocketAddr) -> ClientConnectionView {
        self.clients[self.slot_of(addr)]->Some_0
    }

    /// Replaces what is known about a connected client.
    pub open spec fn with_client(self, addr: SocketAddr, client: ClientConnectionView) -> Self {
        ServerView { clients: self.clients.update(self.slot_of(addr), Some(client)), ..self }
    }

    /// Whether the server knows the peer with the given address.
    pub open spec fn is_known(self, addr: SocketAddr) -> bool {
        self.is_client(addr) || self.listeners.contains_key(addr)
    }

    /// The packets of a known peer.
    pub open spec fn buffers_of(self, addr: SocketAddr) -> PacketBuffersView {
        if self.is_client(addr) {
            self.clients[self.slot_of(addr)]->Some_0.buffers
        } else {
            self.listeners[addr].buffers
        }
    }

    /// Replaces the packets of a known peer.
    pub open spec fn with_buffers(self, addr: SocketAddr, buffers: PacketBuffersView) -> Self {
        if self.is_client(addr) {
            let slot = self.slot_of(addr);
            ServerView {
                clients: self.clients.update(
                    slot,
                    Some(ClientConnectionView { buffers, ..self.clients[slot]->Some_0 }),
                ),
                ..self
            }
        } else {
            ServerView {
                listeners: self.listeners.insert(
                    addr,
                    ListenerView { buffers, ..self.listeners[addr] },
                ),
                ..self
            }
        }
    }

    /// No client is connected twice, and no client is also among the listeners.
    pub open spec fn wf(self) -> bool {
        &&& forall|addr: SocketAddr, i: int, j: int|
            #![trigger is_client_at(self.clients, addr, i), is_client_at(self.clients, addr, j)]
            is_client_at(self.clients, addr, i) && is_client_at(self.clients, addr, j) ==> i == j
        &&& forall|addr: SocketAddr, i: int|
            #![trigger is_client_at(self.clients, addr, i)]
            is_client_at(self.clients, addr, i) ==> !self.listeners.contains_key(addr)
    }

    /// The server after a client has connected, who was a listener before.
    pub open spec fn connected(self, addr: SocketAddr) -> Self {
        let slot = free_slot(self.clients);
        let client = Some(ClientConnectionView::new(addr, self.listeners[addr].buffers));
        ServerView {
            listeners: self.listeners.remove(addr),
            clients: if slot < self.clients.len() {
                self.clients.update(slot, client)
            } else {
                self.clients.push(client)
            },
        }
    }

    /// The server after a client has disconnected, who is a listener from then on.
    pub open spec fn disconnected(self, addr: SocketAddr, now: Instant) -> Self {
        ServerView {
            listeners: self.listeners.insert(
                addr,
                ListenerView { since: now, buffers: self.buffers_of(addr) },
            ),
            clients: self.clients.update(self.slot_of(addr), None),
        }
    }

    /// The server without the slots behind the last client.
    pub open spec fn trimmed(self) -> Self {
        ServerView { clients: self.clients.take(used_slots(self.clients)), ..self }
    }

    /// The server without the peers that became listeners too long ago.
    pub open spec fn after_listener_timeout(self, timeout: Duration, now: Instant) -> Self {
        ServerView {
            listeners: self.listeners.restrict(
                self.listeners.dom().filter(
                    |addr: SocketAddr|
                        self.listeners[addr].since.elapsed_spec(now).nanos < timeout.nanos,
                ),
            ),
            ..self
        }
    }

    /// The server after a client was lost.
    pub open spec fn lost(self, addr: SocketAddr) -> Self {
        ServerView { clients: self.clients.update(self.slot_of(addr), None), ..self }
    }
}

/// Replacing the packets of a known peer has no influence on who is connected.
pub proof fn law_with_buffers(
    server: ServerView,
    addr: SocketAddr,
    buffers: PacketBuffersView,
    other: SocketAddr,
    slot: int,
)
    requires
        server.wf(),
        server.is_known(addr),
    ensures
        ({
            let after = server.with_buffers(addr, buffers);
            &&& after.wf()
            &&& after.is_known(addr)
            &&& after.buffers_of(addr) == buffers
            &&& is_client_at(after.clients, other, slot) <==> is_client_at(
                server.clients,
                other,
                slot,
            )
            &&& after.listeners.contains_key(other) <==> server.listeners.contains_key(other)
        }),
{
    let after = server.with_buffers(addr, buffers);
    if server.is_client(addr) {
        let own = server.slot_of(addr);
        assert(is_client_at(server.clients, addr, own));
        assert forall|any: SocketAddr, i: int| #[trigger]
            is_client_at(after.clients, any, i) <==> is_client_at(server.clients, any, i) by {}
        assert(is_client_at(after.clients, addr, own));
        assert(after.slot_of(addr) == own);
    }
}

/// Replacing what is known about a client has no influence on who is connected.
pub proof fn law_with_client(
    server: ServerView,
    addr: SocketAddr,
    client: ClientConnectionView,
    other: SocketAddr,
    slot: int,
)
    requires
        server.wf(),
        server.is_client(addr),
        client.client_addr == addr,
    ensures
        ({
            let after = server.with_client(addr, client);
            &&& after.wf()
            &&& after.is_client(addr)
            &&& after.client(addr) == client
            &&& is_client_at(after.clients, other, slot) <==> is_client_at(
                server.clients,
                other,
                slot,
            )
        }),
{
    let after = server.with_client(addr, client);
    let own = server.slot_of(addr);
    assert(is_client_at(server.clients, addr, own));
    assert forall|any: SocketAddr, i: int| #[trigger]
        is_client_at(after.clients, any, i) <==> is_client_at(server.clients, any, i) by {}
    assert(is_client_at(after.clients, addr, own));
    assert(after.slot_of(addr) == own);
}

/// A listener that connects is no longer a listener, and no other client moves.
pub proof fn law_connected(server: ServerView, addr: SocketAddr, other: SocketAddr, slot: int)
    requires
        server.wf(),
        server.listeners.contains_key(addr),
    ensures
        ({
            let after = server.connected(addr);
            &&& after.wf()
            &&& after.is_client(addr)
            &&& after.buffers_of(addr) == server.listeners[addr].buffers
            &&& !after.listeners.contains_key(addr)
            &&& is_client_at(server.clients, other, slot) ==> is_client_at(
                after.clients,
                other,
                slot,
            )
            &&& is_client_at(after.clients, other, slot) && other != addr ==> is_client_at(
                server.clients,
                other,
                slot,
            )
        }),
{
    let after = server.connected(addr);
    let own = free_slot(server.clients);
    lemma_free_slot(server.clients);
    assert(is_client_at(after.clients, addr, own));
    assert forall|any: SocketAddr, i: int| #[trigger]
        is_client_at(after.clients, any, i) <==> is_client_at(server.clients, any, i) || (any
            == addr && i == own) by {}
    assert(!is_client_at(server.clients, addr, slot));
    assert forall|i: int| !(#[trigger] is_client_at(server.clients, addr, i)) by {}
    assert(after.slot_of(addr) == own);
}

/// A client that disconnects is a listener from then on, and no other client moves.
pub proof fn law_disconnected(
    server: ServerView,
    addr: SocketAddr,
    now: Instant,
    other: SocketAddr,
    slot: int,
)
    requires
        server.wf(),
        server.is_client(addr),
    ensures
        ({
            let after = server.disconnected(addr, now);
            &&& after.wf()
            &&& !after.is_client(addr)
            &&& after.listeners.contains_key(addr)
            &&& after.buffers_of(addr) == server.buffers_of(addr)
            &&& is_client_at(after.clients, other, slot) <==> is_client_at(
                server.clients,
                other,
                slot,
            ) && other != addr
        }),
{
    let after = server.disconnected(addr, now);
    let own = server.slot_of(addr);
    assert(is_client_at(server.clients, addr, own));
    assert forall|any: SocketAddr, i: int| #[trigger]
        is_client_at(after.clients, any, i) <==> is_client_at(server.clients, any, i) && any
            != addr by {
        if is_client_at(server.clients, any, i) && any == addr {
            assert(i == own);
        }
    }
}

/// A client that is lost is no longer known, and no other client moves.
pub proof fn law_lost(server: ServerView, addr: SocketAddr, other: SocketAddr, slot: int)
    requires
        server.wf(),
        server.is_client(addr),
    ensures
        ({
            let after = server.lost(addr);
            &&& after.wf()
            &&& !after.is_known(addr)
            &&& is_client_at(after.clients, other, slot) <==> is_client_at(
                server.clients,
                other,
                slot,
            ) && other != addr
        }),
{
    let after = server.lost(addr);
    let own = server.slot_of(addr);
    assert(is_client_at(server.clients, addr, own));
    assert forall|any: SocketAddr, i: int| #[trigger]
        is_client_at(after.clients, any, i) <==> is_client_at(server.clients, any, i) && any
            != addr by {
        if is_client_at(server.clients, any, i) && any == addr {
            assert(i == own);
        }
    }
}

pub proof fn lemma_free_slot(clients: Seq<Option<ClientConnectionView>>)
    ensures
        0 <= free_slot(clients) <= clients.len(),
        free_slot(clients) < clients.len() ==> clients[free_slot(clients)] is None,
        forall|i: int| 0 <= i < free_slot(clients) ==> (#[trigger] clients[i]) is Some,
    decreases clients.len(),
{
    if clients.len() > 0 && clients.first() is Some {
        let rest = clients.drop_first();
        lemma_free_slot(rest);
        assert forall|i: int| 0 <= i < free_slot(clients) implies (
        #[trigger] clients[i]) is Some by {
            if i > 0 {
                assert(rest[i - 1] is Some);
            }
        }
    }
}

/// No client is lost when the slots behind the last client are removed.
pub proof fn law_trimmed(server: ServerView, addr: SocketAddr, slot: int)
    requires
        server.wf(),
    ensures
        0 <= used_slots(server.clients) <= server.clients.len(),
        server.trimmed().wf(),
        is_client_at(server.trimmed().clients, addr, slot) <==> is_client_at(
            server.clients,
            addr,
            slot,
        ),
{
    lemma_used_slots(server.clients);
    assert forall|any: SocketAddr, i: int| #[trigger]
        is_client_at(server.trimmed().clients, any, i) <==> is_client_at(
            server.clients,
            any,
            i,
        ) by {}
}

pub proof fn lemma_used_slots(clients: Seq<Option<ClientConnectionView>>)
    ensures
        0 <= used_slots(clients) <= clients.len(),
        forall|i: int| used_slots(clients) <= i < clients.len() ==> (#[trigger] clients[i]) is None,
    decreases clients.len(),
{
    if clients.len() > 0 && clients.last() is None {
        let rest = clients.drop_last();
        lemma_used_slots(rest);
        assert forall|i: int| used_slots(clients) <= i < clients.len() implies (
        #[trigger] clients[i]) is None by {
            if i < rest.len() {
                assert(rest[i] is None);
            }
        }
    }
}

/// The slots behind the last client contribute no addresses.
pub proof fn lemma_trimmed_addrs(clients: Seq<Option<ClientConnectionView>>)
    ensures
        addrs_of(clients.take(used_slots(clients))) == addrs_of(clients),
    decreases clients.len(),
{
    lemma_used_slots(clients);
    if clients.len() == 0 || clients.last() is Some {
        assert(clients.take(used_slots(clients)) =~= clients);
    } else {
        lemma_trimmed_addrs(clients.drop_last());
        lemma_used_slots(clients.drop_last());
        assert(clients.drop_last().take(used_slots(clients)) =~= clients.take(used_slots(clients)));
    }
}

/// What can happen to a server.
pub enum ServerStep {
    /// Nothing changes.
    Nothing,
    /// The packets of a known peer change.
    Buffers(SocketAddr, PacketBuffersView),
    /// Something else that is known about a client changes.
    Learn(SocketAddr, ClientConnectionView),
    /// An unknown peer becomes a listener.
    Listen(SocketAddr, ListenerView),
    /// Only these listeners are kept.
    Keep(Map<SocketAddr, ListenerView>),
    /// A listener connects.
    Connect(SocketAddr),
    /// A client disconnects.
    Disconnect(SocketAddr, Instant),
    /// A client is lost.
    Lose(SocketAddr),
    /// The slots behind the last client are removed.
    Trim,
}

/// What happens to the slots of a server.
pub enum SlotChange {
    /// All clients keep their slots.
    Kept,
    /// The slot of a single client is free from then on.
    Freed(SocketAddr),
    /// All clients keep their slots, but the ones behind the last client are removed.
    Trimmed,
}

impl ServerStep {
    /// Whether this can happen to a server.
    pub open spec fn is_possible(self, server: ServerView) -> bool {
        match self {
            ServerStep::Nothing | ServerStep::Trim => true,
            ServerStep::Buffers(addr, _) => server.is_known(addr),
            ServerStep::Learn(addr, client) => server.is_client(addr) && client.client_addr == addr,
            ServerStep::Listen(addr, _) => !server.is_known(addr),
            ServerStep::Keep(listeners) => listeners.dom().subset_of(server.listeners.dom()),
            ServerStep::Connect(addr) => server.listeners.contains_key(addr),
            ServerStep::Disconnect(addr, _) => server.is_client(addr),
            ServerStep::Lose(addr) => server.is_client(addr),
        }
    }

    /// The server after this has happened.
    pub open spec fn after(self, server: ServerView) -> ServerView {
        match self {
            ServerStep::Nothing => server,
            ServerStep::Buffers(addr, buffers) => server.with_buffers(addr, buffers),
            ServerStep::Learn(addr, client) => server.with_client(addr, client),
            ServerStep::Listen(addr, listener) => ServerView {
                listeners: server.listeners.insert(addr, listener),
                ..server
            },
            ServerStep::Keep(listeners) => ServerView { listeners, ..server },
            ServerStep::Connect(addr) => server.connected(addr),
            ServerStep::Disconnect(addr, now) => server.disconnected(addr, now),
            ServerStep::Lose(addr) => server.lost(addr),
            ServerStep::Trim => server.trimmed(),
        }
    }

    /// What this does to the slots.
    pub open spec fn change(self) -> SlotChange {
        match self {
            ServerStep::Disconnect(addr, _) => SlotChange::Freed(addr),
            ServerStep::Lose(addr) => SlotChange::Freed(addr),
            ServerStep::Trim => SlotChange::Trimmed,
            _ => SlotChange::Kept,
        }
    }
}

/// Whether one thing can happen to a server that leads from one to the other, and what that does to
/// the slots.
pub open spec fn is_step(before: ServerView, after: ServerView, change: SlotChange) -> bool {
    exists|step: ServerStep|
        step.is_possible(before) && step.change() == change && #[trigger] step.after(before)
            == after
}

/// Whether each of these leads to the next one, and what that does to the slots.
pub open spec fn is_run(servers: Seq<ServerView>, changes: Seq<SlotChange>) -> bool
    decreases servers.len(),
{
    &&& servers.len() == changes.len() + 1
    &&& servers.len() > 1 ==> is_run(servers.drop_last(), changes.drop_last()) && is_step(
        servers[servers.len() - 2],
        servers.last(),
        changes.last(),
    )
}

pub proof fn lemma_step(server: ServerView, step: ServerStep)
    requires
        step.is_possible(server),
    ensures
        is_step(server, step.after(server), step.change()),
{
}

/// Everything that can happen because of a single peer.
pub proof fn lemma_steps(server: ServerView, addr: SocketAddr)
    ensures
        is_step(server, server, SlotChange::Kept),
        is_step(server, server.trimmed(), SlotChange::Trimmed),
        server.is_known(addr) ==> forall|buffers: PacketBuffersView|
            is_step(server, #[trigger] server.with_buffers(addr, buffers), SlotChange::Kept),
        !server.is_known(addr) ==> forall|listener: ListenerView|
            is_step(
                server,
                ServerView {
                    listeners: #[trigger] server.listeners.insert(addr, listener),
                    ..server
                },
                SlotChange::Kept,
            ),
        server.listeners.contains_key(addr) ==> is_step(
            server,
            server.connected(addr),
            SlotChange::Kept,
        ),
        server.is_client(addr) ==> {
            &&& forall|client: ClientConnectionView|
                client.client_addr == addr ==> is_step(
                    server,
                    #[trigger] server.with_client(addr, client),
                    SlotChange::Kept,
                )
            &&& forall|now: Instant|
                is_step(
                    server,
                    #[trigger] server.disconnected(addr, now),
                    SlotChange::Freed(addr),
                )
            &&& is_step(server, server.lost(addr), SlotChange::Freed(addr))
        },
{
    lemma_step(server, ServerStep::Nothing);
    lemma_step(server, ServerStep::Trim);
    if server.is_known(addr) {
        assert forall|buffers: PacketBuffersView|
            is_step(server, #[trigger] server.with_buffers(addr, buffers), SlotChange::Kept) by {
            lemma_step(server, ServerStep::Buffers(addr, buffers));
        }
    } else {
        assert forall|listener: ListenerView|
            is_step(
                server,
                ServerView {
                    listeners: #[trigger] server.listeners.insert(addr, listener),
                    ..server
                },
                SlotChange::Kept,
            ) by {
            lemma_step(server, ServerStep::Listen(addr, listener));
        }
    }
    if server.listeners.contains_key(addr) {
        lemma_step(server, ServerStep::Connect(addr));
    }
    if server.is_client(addr) {
        assert forall|client: ClientConnectionView| client.client_addr == addr implies is_step(
            server,
            #[trigger] server.with_client(addr, client),
            SlotChange::Kept,
        ) by {
            lemma_step(server, ServerStep::Learn(addr, client));
        }
        assert forall|now: Instant|
            is_step(
                server,
                #[trigger] server.disconnected(addr, now),
                SlotChange::Freed(addr),
            ) by {
            lemma_step(server, ServerStep::Disconnect(addr, now));
        }
        lemma_step(server, ServerStep::Lose(addr));
    }
}

proof fn lemma_step_keeps(
    before: ServerView,
    after: ServerView,
    change: SlotChange,
    addr: SocketAddr,
    slot: int,
)
    requires
        before.wf(),
        is_step(before, after, change),
    ensures
        after.wf(),
        is_client_at(before.clients, addr, slot) && change != SlotChange::Freed(addr)
            ==> is_client_at(after.clients, addr, slot),
        change != SlotChange::Trimmed ==> after.clients.len() >= before.clients.len(),
{
    let step = choose|step: ServerStep|
        step.is_possible(before) && step.change() == change && #[trigger] step.after(before)
            == after;
    match step {
        ServerStep::Nothing => {},
        ServerStep::Buffers(peer, buffers) => {
            law_with_buffers(before, peer, buffers, addr, slot);
        },
        ServerStep::Learn(peer, client) => {
            law_with_client(before, peer, client, addr, slot);
        },
        ServerStep::Listen(peer, listener) => {
            assert forall|any: SocketAddr, i: int| #[trigger]
                is_client_at(after.clients, any, i) implies !after.listeners.contains_key(any) by {
                assert(before.is_client(any));
            }
        },
        ServerStep::Keep(listeners) => {
            assert forall|any: SocketAddr, i: int| #[trigger]
                is_client_at(after.clients, any, i) implies !after.listeners.contains_key(any) by {
                assert(!before.listeners.contains_key(any));
            }
        },
        ServerStep::Connect(peer) => {
            law_connected(before, peer, addr, slot);
            lemma_free_slot(before.clients);
        },
        ServerStep::Disconnect(peer, now) => {
            law_disconnected(before, peer, now, addr, slot);
        },
        ServerStep::Lose(peer) => {
            law_lost(before, peer, addr, slot);
        },
        ServerStep::Trim => {
            law_trimmed(before, addr, slot);
        },
    }
}

/// Whatever happens to a server, no client is connected twice, and no client is also among the
/// listeners.
pub proof fn law_run(servers: Seq<ServerView>, changes: Seq<SlotChange>)
    requires
        is_run(servers, changes),
        servers.first().wf(),
    ensures
        servers.last().wf(),
    decreases servers.len(),
{
    if servers.len() > 1 {
        law_run(servers.drop_last(), changes.drop_last());
        lemma_step_keeps(
            servers[servers.len() - 2],
            servers.last(),
            changes.last(),
            SocketAddr::V4 { ip: 0, port: 0 },
            0,
        );
    }
}

/// A client keeps its slot through everything that neither disconnects nor loses it.
///
/// There are never fewer slots unless the ones behind the last client are removed.
pub proof fn law_slot_is_kept(
    servers: Seq<ServerView>,
    changes: Seq<SlotChange>,
    addr: SocketAddr,
    slot: int,
)
    requires
        is_run(servers, changes),
        servers.first().wf(),
        is_client_at(servers.first().clients, addr, slot),
        !changes.contains(SlotChange::Freed(addr)),
    ensures
        is_client_at(servers.last().clients, addr, slot),
        !changes.contains(SlotChange::Trimmed) ==> servers.last().clients.len()
            >= servers.first().clients.len(),
    decreases servers.len(),
{
    if servers.len() > 1 {
        let before = changes.drop_last();
        assert(changes[changes.len() - 1] == changes.last());
        assert forall|change: SlotChange| before.contains(change) implies changes.contains(
            change,
        ) by {
            let i = choose|i: int| 0 <= i < before.len() && before[i] == change;
            assert(changes[i] == change);
        }
        law_run(servers.drop_last(), before);
        law_slot_is_kept(servers.drop_last(), before, addr, slot);
        lemma_step_keeps(
            servers[servers.len() - 2],
            servers.last(),
            changes.last(),
            addr,
            slot,
        );
    }
}

/// A client is connected if and only if some slot contains a client with its address, and that slot is
/// the one that it is known by.
pub proof fn law_client(server: ServerView, addr: SocketAddr, slot: int)
    requires
        server.wf(),
    ensures
        server.is_client(addr) <==> exists|i: int|
            0 <= i < server.clients.len() && (#[trigger] server.clients[i]) is Some
                && server.clients[i]->Some_0.client_addr == addr,
        0 <= slot < server.clients.len() && server.clients[slot] is Some
            && server.clients[slot]->Some_0.client_addr == addr ==> {
            &&& server.slot_of(addr) == slot
            &&& server.client(addr) == server.clients[slot]->Some_0
            &&& server.buffers_of(addr) == server.clients[slot]->Some_0.buffers
            &&& server.is_known(addr)
            &&& !server.listeners.contains_key(addr)
        },
{
    if exists|i: int|
        0 <= i < server.clients.len() && (#[trigger] server.clients[i]) is Some
            && server.clients[i]->Some_0.client_addr == addr {
        let i = choose|i: int|
            0 <= i < server.clients.len() && (#[trigger] server.clients[i]) is Some
                && server.clients[i]->Some_0.client_addr == addr;
        assert(is_client_at(server.clients, addr, i));
    }
    if server.is_client(addr) {
        let i = server.slot_of(addr);
        assert(is_client_at(server.clients, addr, i));
        assert(server.clients[i] is Some);
    }
    if 0 <= slot < server.clients.len() && server.clients[slot] is Some
        && server.clients[slot]->Some_0.client_addr == addr {
        assert(is_client_at(server.clients, addr, slot));
    }
}

/// A listener is known by what it was added with.
pub proof fn law_listener(server: ServerView, addr: SocketAddr)
    requires
        server.wf(),
        server.listeners.contains_key(addr),
    ensures
        server.is_known(addr),
        !server.is_client(addr),
        server.buffers_of(addr) == server.listeners[addr].buffers,
{
    if server.is_client(addr) {
        assert(is_client_at(server.clients, addr, server.slot_of(addr)));
    }
}

/// Every occupied slot contributes the address of its client once, in the order of the slots, and
/// nothing else does.
///
/// The returned slots are those of the clients.
pub proof fn law_addrs(clients: Seq<Option<ClientConnectionView>>) -> (slots: Seq<int>)
    ensures
        slots.len() == addrs_of(clients).len(),
        forall|k: int|
            0 <= k < slots.len() ==> 0 <= #[trigger] slots[k] < clients.len()
                && clients[slots[k]] is Some && addrs_of(clients)[k]
                == clients[slots[k]]->Some_0.client_addr,
        forall|k: int, l: int| 0 <= k < l < slots.len() ==> slots[k] < slots[l],
        forall|i: int|
            0 <= i < clients.len() && (#[trigger] clients[i]) is Some ==> slots.contains(i),
    decreases clients.len(),
{
    if clients.len() == 0 {
        Seq::empty()
    } else {
        let rest = clients.drop_last();
        let before = law_addrs(rest);
        let last = clients.len() - 1;
        let slots = if clients.last() is Some {
            before.push(last)
        } else {
            before
        };
        assert forall|k: int| 0 <= k < slots.len() implies 0 <= #[trigger] slots[k] < clients.len()
            && clients[slots[k]] is Some && addrs_of(clients)[k]
            == clients[slots[k]]->Some_0.client_addr by {
            if k < before.len() {
                assert(slots[k] == before[k]);
                assert(rest[before[k]] == clients[before[k]]);
            }
        }
        assert forall|k: int, l: int| 0 <= k < l < slots.len() implies slots[k] < slots[l] by {
            assert(before[k] < rest.len());
        }
        assert forall|i: int| 0 <= i < clients.len() && (#[trigger] clients[i]) is Some implies (
        slots.contains(i)) by {
            if i < last {
                assert(rest[i] is Some);
                assert(before.contains(i));
                let k = choose|k: int| 0 <= k < before.len() && before[k] == i;
                assert(slots[k] == i);
            } else {
                assert(slots[before.len() as int] == i);
            }
        }
        slots
    }
}

/// An address is updated if and only if a client with that address is connected.
pub proof fn law_updated_addrs(server: ServerView, addr: SocketAddr)
    requires
        server.wf(),
    ensures
        addrs_of(server.trimmed().clients).contains(addr) <==> exists|i: int|
            0 <= i < server.clients.len() && (#[trigger] server.clients[i]) is Some
                && server.clients[i]->Some_0.client_addr == addr,
{
    lemma_trimmed_addrs(server.clients);
    let addrs = addrs_of(server.clients);
    let slots = law_addrs(server.clients);
    if addrs.contains(addr) {
        let k = choose|k: int| 0 <= k < addrs.len() && addrs[k] == addr;
        assert(server.clients[slots[k]] is Some);
    }
    if exists|i: int|
        0 <= i < server.clients.len() && (#[trigger] server.clients[i]) is Some
            && server.clients[i]->Some_0.client_addr == addr {
        let i = choose|i: int|
            0 <= i < server.clients.len() && (#[trigger] server.clients[i]) is Some
                && server.clients[i]->Some_0.client_addr == addr;
        assert(slots.contains(i));
        let k = choose|k: int| 0 <= k < slots.len() && slots[k] == i;
        assert(addrs[k] == addr);
    }
}

/// Only slots behind the last client are removed, and all of them are.
pub proof fn law_trimmed_slots(server: ServerView, slot: int)
    ensures
        ({
            let after = server.trimmed();
            &&& after.listeners == server.listeners
            &&& after.clients.len() <= server.clients.len()
            &&& 0 <= slot < after.clients.len() ==> after.clients[slot] == server.clients[slot]
            &&& after.clients.len() <= slot < server.clients.len() ==> server.clients[slot] is None
            &&& after.clients.len() > 0 ==> after.clients[after.clients.len() - 1] is Some
        }),
{
    lemma_used_slots(server.clients);
    lemma_last_used(server.clients);
}

proof fn lemma_last_used(clients: Seq<Option<ClientConnectionView>>)
    ensures
        used_slots(clients) > 0 ==> clients[used_slots(clients) - 1] is Some,
    decreases clients.len(),
{
    if clients.len() > 0 && clients.last() is None {
        lemma_last_used(clients.drop_last());
        lemma_used_slots(clients.drop_last());
    }
}

/// A listener that connects takes the first slot that is free, with what was known about it and without
/// any pings. Nobody else is concerned.
pub proof fn law_new_client(server: ServerView, addr: SocketAddr, slot: int, other: SocketAddr)
    requires
        server.listeners.contains_key(addr),
    ensures
        ({
            let after = server.connected(addr);
            let own = free_slot(server.clients);
            &&& 0 <= own <= server.clients.len()
            &&& 0 <= slot < own ==> server.clients[slot] is Some
            &&& own < server.clients.len() ==> server.clients[own] is None && after.clients.len()
                == server.clients.len()
            &&& own == server.clients.len() ==> after.clients.len() == server.clients.len() + 1
            &&& 0 <= slot < server.clients.len() && slot != own ==> after.clients[slot]
                == server.clients[slot]
            &&& after.clients[own] matches Some(client) && client.client_addr == addr
                && client.buffers == server.listeners[addr].buffers && client.active_ping is None
                && client.last_ping is None && client.missed_pings == 0
            &&& after.listeners.contains_key(other) <==> server.listeners.contains_key(other)
                && other != addr
            &&& after.listeners.contains_key(other) ==> after.listeners[other]
                == server.listeners[other]
        }),
{
    lemma_free_slot(server.clients);
}

/// A client that disconnects frees its slot and becomes a listener at that moment, with what was known
/// about its packets. Nobody else is concerned.
pub proof fn law_new_listener(
    server: ServerView,
    own: int,
    now: Instant,
    slot: int,
    other: SocketAddr,
)
    requires
        server.wf(),
        0 <= own < server.clients.len(),
        server.clients[own] is Some,
    ensures
        ({
            let client = server.clients[own]->Some_0;
            let addr = client.client_addr;
            let after = server.disconnected(addr, now);
            &&& after.clients.len() == server.clients.len()
            &&& after.clients[own] is None
            &&& 0 <= slot < server.clients.len() && slot != own ==> after.clients[slot]
                == server.clients[slot]
            &&& after.listeners.contains_key(addr)
            &&& after.listeners[addr].since == now
            &&& after.listeners[addr].buffers == client.buffers
            &&& other != addr ==> (after.listeners.contains_key(other)
                <==> server.listeners.contains_key(other))
            &&& other != addr && server.listeners.contains_key(other) ==> after.listeners[other]
                == server.listeners[other]
        }),
{
    let addr = server.clients[own]->Some_0.client_addr;
    assert(is_client_at(server.clients, addr, own));
}

/// A client that is lost frees its slot. Nobody else is concerned.
pub proof fn law_lost_client(server: ServerView, own: int, slot: int)
    requires
        server.wf(),
        0 <= own < server.clients.len(),
        server.clients[own] is Some,
    ensures
        ({
            let after = server.lost(server.clients[own]->Some_0.client_addr);
            &&& after.clients.len() == server.clients.len()
            &&& after.clients[own] is None
            &&& 0 <= slot < server.clients.len() && slot != own ==> after.clients[slot]
                == server.clients[slot]
            &&& after.listeners == server.listeners
        }),
{
    assert(is_client_at(server.clients, server.clients[own]->Some_0.client_addr, own));
}

/// Replacing the packets of a client, or anything else that is known about it, concerns nobody else.
pub proof fn law_changed_client(
    server: ServerView,
    own: int,
    client: ClientConnectionView,
    slot: int,
)
    requires
        server.wf(),
        0 <= own < server.clients.len(),
        server.clients[own] is Some,
        client.client_addr == server.clients[own]->Some_0.client_addr,
    ensures
        ({
            let addr = client.client_addr;
            let before = server.clients[own]->Some_0;
            let changed = server.with_client(addr, client);
            let after = server.with_buffers(addr, client.buffers);
            &&& changed.listeners == server.listeners
            &&& changed.clients.len() == server.clients.len()
            &&& changed.clients[own] == Some(client)
            &&& 0 <= slot < server.clients.len() && slot != own ==> changed.clients[slot]
                == server.clients[slot]
            &&& after.listeners == server.listeners
            &&& after.clients.len() == server.clients.len()
            &&& after.clients[own] matches Some(new) && new.client_addr == before.client_addr
                && new.buffers == client.buffers && new.active_ping == before.active_ping
                && new.last_ping == before.last_ping && new.missed_pings == before.missed_pings
            &&& 0 <= slot < server.clients.len() && slot != own ==> after.clients[slot]
                == server.clients[slot]
        }),
{
    assert(is_client_at(server.clients, client.client_addr, own));
}

/// Replacing the packets of a listener concerns nobody else, and does not make it listen any longer.
pub proof fn law_changed_listener(
    server: ServerView,
    addr: SocketAddr,
    buffers: PacketBuffersView,
    other: SocketAddr,
)
    requires
        server.wf(),
        server.listeners.contains_key(addr),
    ensures
        ({
            let after = server.with_buffers(addr, buffers);
            &&& after.clients == server.clients
            &&& after.listeners.contains_key(other) <==> server.listeners.contains_key(other)
            &&& after.listeners[addr].buffers == buffers
            &&& after.listeners[addr].since == server.listeners[addr].since
            &&& other != addr && server.listeners.contains_key(other) ==> after.listeners[other]
                == server.listeners[other]
        }),
{
    law_listener(server, addr);
}

/// A peer is still a listener, and unchanged, if and only if it was one and the whole timeout has not
/// passed yet since it became one. Clients are not concerned.
pub proof fn law_listener_timeout(
    server: ServerView,
    timeout: Duration,
    now: Instant,
    addr: SocketAddr,
)
    ensures
        ({
            let after = server.after_listener_timeout(timeout, now);
            &&& after.clients == server.clients
            &&& timeout.nanos > 0 ==> (after.listeners.contains_key(addr)
                <==> server.listeners.contains_key(addr) && now.nanos
                < server.listeners[addr].since.nanos + timeout.nanos)
            &&& timeout.nanos == 0 ==> !after.listeners.contains_key(addr)
            &&& after.listeners.contains_key(addr) ==> after.listeners[addr]
                == server.listeners[addr]
        }),
{
}

/// A client is pinged at once if there is no current ping, and otherwise exactly when the whole delay
/// has passed since the current one. It is timed out instead if it has missed more pongs than allowed.
pub proof fn law_ping_due(client: ClientConnectionView, config: ServerConfig, now: Instant)
    ensures
        ({
            let is_due = client.active_ping is None || config.ping_delay.nanos == 0 || now.nanos
                >= client.active_ping->Some_0.ping.nanos + config.ping_delay.nanos;
            &&& client.is_ping_due(config, now) <==> is_due
            &&& client.is_timed_out(config, now) <==> is_due && config.max_missed_pongs is Some
                && client.missed_pings > config.max_missed_pongs->Some_0
        }),
{
}

/// A ping that was sent is the current one, and counts as missed until its pong arrives. There is no
/// current ping if it was not sent.
pub proof fn law_ping(client: ClientConnectionView, ping_id: PacketId, now: Instant)
    requires
        0 <= client.missed_pings < usize::MAX,
    ensures
        ({
            let sent = client.after_ping(ping_id, true, now);
            let blocked = client.after_ping(ping_id, false, now);
            &&& sent.active_ping == Some(ActivePing { ping_id, ping: now })
            &&& sent.missed_pings == client.missed_pings + 1
            &&& sent.last_ping == client.last_ping
            &&& sent.client_addr == client.client_addr && sent.buffers == client.buffers
            &&& blocked.active_ping is None
            &&& blocked.missed_pings == client.missed_pings
            &&& blocked.last_ping == client.last_ping
            &&& blocked.client_addr == client.client_addr && blocked.buffers == client.buffers
        }),
{
}

/// Only the pong to the current ping shows that the client is still there.
pub proof fn law_pong(client: ClientConnectionView, ping_id: PacketId, now: Instant)
    ensures
        ({
            let after = client.after_pong(ping_id, now);
            let is_current = client.active_ping is Some && client.active_ping->Some_0.ping_id
                == ping_id;
            &&& client.is_pong(ping_id) <==> is_current
            &&& !is_current ==> after == client
            &&& is_current ==> after.last_ping == Some(now) && after.missed_pings == 0
            &&& after.active_ping == client.active_ping
            &&& after.client_addr == client.client_addr && after.buffers == client.buffers
        }),
{
}

} // verus!
