//! Which servers a client is listening to, and which one it is connected to.

use vstd::prelude::*;

use super::{state_after_packet, ServerPacketKind};
use crate::net::SocketAddr;
use crate::packet::buffers::PacketBuffersView;
use crate::time::{Duration, Instant};

verus! {

/// Whether a client is connected.
#[derive(Clone, Copy, Debug, Hash, PartialEq, Eq, Structural)]
pub enum ClientState {
    /// Client is not connected to a server.
    Disconnected,
    /// Client is awaiting acceptance by the server.
    Connecting,
    /// Client was accepted by the server and is connected.
    Connected,
    /// Client is waiting for the server to acknowledge it has disconnected.
    Disconnecting,
}

/// Why no packet can be sent to a server.
#[derive(Clone, Copy, Debug, PartialEq, Eq, Structural)]
pub enum CompatibilityError {
    /// Compatibility to the server has not yet been determined.
    CompatibilityPending,
    /// Server is incompatible with the client.
    Incompatible,
}

/// What is known about a server.
#[verifier::ext_equal]
pub enum ServerStateView<E> {
    PendingVersion { last_version_query: Option<Instant> },
    Compatible { buffers: PacketBuffersView, last_interaction: Instant },
    Incompatible(E),
}

/// A server that the client is listening to.
#[verifier::ext_equal]
pub struct ServerListenerView<E> {
    pub server_addr: SocketAddr,
    pub state: ServerStateView<E>,
}

impl<E> ServerListenerView<E> {
    /// A server whose version has just been requested.
    ///
    /// `sent` is `false` if the request was not sent because the socket would block.
    pub open spec fn new(server_addr: SocketAddr, sent: bool, now: Instant) -> Self {
        ServerListenerView {
            server_addr,
            state: ServerStateView::PendingVersion {
                last_version_query: if sent {
                    Some(now)
                } else {
                    None
                },
            },
        }
    }

    /// Whether the request for the version has to be sent, because it could not be sent before or
    /// has to be repeated.
    pub open spec fn is_version_query_due(self, resend_delay: Duration, now: Instant) -> bool {
        &&& self.state matches ServerStateView::PendingVersion { last_version_query }
        &&& last_version_query matches Some(query) ==> query.elapsed_spec(now).nanos
            > resend_delay.nanos
    }

    /// Whether nothing was received for too long.
    pub open spec fn is_timed_out(self, timeout: Option<Duration>, now: Instant) -> bool {
        &&& self.state matches ServerStateView::Compatible { last_interaction, .. }
        &&& timeout matches Some(timeout)
        &&& last_interaction.elapsed_spec(now).nanos > timeout.nanos
    }

    /// Replaces the packets of a compatible server.
    pub open spec fn with_buffers(self, buffers: PacketBuffersView) -> Self {
        ServerListenerView {
            state: ServerStateView::Compatible {
                buffers,
                last_interaction: self.state->last_interaction,
            },
            ..self
        }
    }
}

/// Whether the client is listening to the given server at the given position.
pub open spec fn is_listener_at<E>(
    listeners: Seq<ServerListenerView<E>>,
    addr: SocketAddr,
    index: int,
) -> bool {
    0 <= index < listeners.len() && listeners[index].server_addr == addr
}

/// The listeners after one of them was removed, whose place is taken by the last one.
pub open spec fn swap_removed<E>(
    listeners: Seq<ServerListenerView<E>>,
    index: int,
) -> Seq<ServerListenerView<E>> {
    listeners.update(index, listeners.last()).drop_last()
}

/// What a client knows.
#[verifier::ext_equal]
pub struct ClientView<E> {
    pub state: ClientState,
    pub listeners: Seq<ServerListenerView<E>>,
}

impl<E> ClientView<E> {
    /// No server is listened to twice, and there is a server at the front unless the client is
    /// disconnected.
    pub open spec fn wf(self) -> bool {
        &&& forall|addr: SocketAddr, i: int, j: int|
            #![trigger is_listener_at(self.listeners, addr, i), is_listener_at(self.listeners, addr, j)]
            is_listener_at(self.listeners, addr, i) && is_listener_at(self.listeners, addr, j)
                ==> i == j
        &&& self.state != ClientState::Disconnected ==> self.listeners.len() > 0
    }

    /// Whether the client is listening to the given server.
    pub open spec fn is_listening(self, addr: SocketAddr) -> bool {
        exists|i: int| is_listener_at(self.listeners, addr, i)
    }

    /// The position of a server that the client is listening to.
    pub open spec fn index_of(self, addr: SocketAddr) -> int {
        choose|i: int| is_listener_at(self.listeners, addr, i)
    }

    /// What is known about a server that the client is listening to.
    pub open spec fn listener(self, addr: SocketAddr) -> ServerListenerView<E> {
        self.listeners[self.index_of(addr)]
    }

    /// Whether packets can be sent to the given server.
    pub open spec fn is_compatible(self, addr: SocketAddr) -> bool {
        self.is_listening(addr) && self.listener(addr).state is Compatible
    }

    /// Why no packet can be sent to a server that the client is listening to.
    pub open spec fn compatibility_error(self, addr: SocketAddr) -> CompatibilityError {
        if self.listener(addr).state is Incompatible {
            CompatibilityError::Incompatible
        } else {
            CompatibilityError::CompatibilityPending
        }
    }

    /// Whether the client is connected to the given server, or trying to connect to or to disconnect
    /// from it.
    pub open spec fn is_connection(self, addr: SocketAddr) -> bool {
        self.state != ClientState::Disconnected && self.index_of(addr) == 0
    }

    /// The server to which the client is connected.
    pub open spec fn server_addr(self) -> Option<SocketAddr> {
        if self.state == ClientState::Disconnected {
            None
        } else {
            Some(self.listeners[0].server_addr)
        }
    }

    /// Replaces what is known about a server.
    pub open spec fn with(self, addr: SocketAddr, listener: ServerListenerView<E>) -> Self {
        ClientView { listeners: self.listeners.update(self.index_of(addr), listener), ..self }
    }

    /// Replaces the packets of a compatible server.
    pub open spec fn with_buffers(self, addr: SocketAddr, buffers: PacketBuffersView) -> Self {
        self.with(addr, self.listener(addr).with_buffers(buffers))
    }

    /// The packets of a compatible server.
    pub open spec fn buffers_of(self, addr: SocketAddr) -> PacketBuffersView {
        self.listener(addr).state->buffers
    }

    /// Starts listening to another server.
    pub open spec fn with_new(self, listener: ServerListenerView<E>) -> Self {
        ClientView { listeners: self.listeners.push(listener), ..self }
    }

    /// Stops listening to a server, and no longer is connected to it.
    pub open spec fn dropped(self, addr: SocketAddr) -> Self {
        ClientView {
            state: if self.is_connection(addr) {
                ClientState::Disconnected
            } else {
                self.state
            },
            listeners: self.listeners.remove(self.index_of(addr)),
        }
    }

    /// Stops listening to a server, whose place is taken by the last one.
    pub open spec fn forgotten(self, addr: SocketAddr) -> Self {
        ClientView { listeners: swap_removed(self.listeners, self.index_of(addr)), ..self }
    }

    /// Starts connecting to a server, which is at the front from then on.
    pub open spec fn connecting(self, addr: SocketAddr) -> Self {
        let index = self.index_of(addr);
        ClientView {
            state: ClientState::Connecting,
            listeners: self.listeners.remove(index).insert(0, self.listeners[index]),
        }
    }

    /// Loses the connection, and stops listening to that server.
    pub open spec fn connection_lost(self) -> Self {
        ClientView {
            state: ClientState::Disconnected,
            listeners: swap_removed(self.listeners, 0),
        }
    }
}

/// Replacing what is known about a server keeps everything else.
pub proof fn law_with<E>(
    client: ClientView<E>,
    addr: SocketAddr,
    listener: ServerListenerView<E>,
    other: SocketAddr,
)
    requires
        client.wf(),
        client.is_listening(addr),
        listener.server_addr == addr,
    ensures
        ({
            let after = client.with(addr, listener);
            &&& after.wf()
            &&& after.listener(addr) == listener
            &&& after.index_of(addr) == client.index_of(addr)
            &&& after.is_listening(other) <==> client.is_listening(other)
            &&& other != addr && client.is_listening(other) ==> after.listener(other)
                == client.listener(other)
            &&& after.server_addr() == client.server_addr()
        }),
{
    let after = client.with(addr, listener);
    let index = client.index_of(addr);
    assert(is_listener_at(client.listeners, addr, index));
    assert forall|any: SocketAddr, i: int| #[trigger]
        is_listener_at(after.listeners, any, i) <==> is_listener_at(client.listeners, any, i) by {}
    assert(after.index_of(addr) == index) by {
        assert(is_listener_at(after.listeners, addr, index));
    }
    if client.is_listening(other) {
        let i = client.index_of(other);
        assert(is_listener_at(client.listeners, other, i));
        assert(is_listener_at(after.listeners, other, i));
        assert(after.index_of(other) == i);
    }
}

/// The client still listens to all servers except for the one that is dropped, and is still
/// connected unless it was connected to that one.
pub proof fn law_dropped<E>(client: ClientView<E>, addr: SocketAddr, other: SocketAddr)
    requires
        client.wf(),
        client.is_listening(addr),
    ensures
        ({
            let after = client.dropped(addr);
            &&& after.wf()
            &&& !after.is_listening(addr)
            &&& other != addr ==> (after.is_listening(other) <==> client.is_listening(other))
            &&& other != addr && client.is_listening(other) ==> after.listener(other)
                == client.listener(other)
            &&& after.server_addr() == if client.is_connection(addr) {
                None
            } else {
                client.server_addr()
            }
        }),
{
    let after = client.dropped(addr);
    let index = client.index_of(addr);
    assert(is_listener_at(client.listeners, addr, index));
    assert forall|any: SocketAddr, i: int| #[trigger]
        is_listener_at(after.listeners, any, i) <==> any != addr && is_listener_at(
            client.listeners,
            any,
            if i < index {
                i
            } else {
                i + 1
            },
        ) by {
        let k = if i < index {
            i
        } else {
            i + 1
        };
        if is_listener_at(client.listeners, addr, k) {
            assert(k == index);
        }
    }
    if other != addr && client.is_listening(other) {
        let i = client.index_of(other);
        assert(is_listener_at(client.listeners, other, i));
        let k = if i < index {
            i
        } else {
            i - 1
        };
        assert(is_listener_at(after.listeners, other, k));
        assert(after.index_of(other) == k) by {
            assert(is_listener_at(after.listeners, other, after.index_of(other)));
        }
    }
    if other != addr && after.is_listening(other) {
        let i = after.index_of(other);
        assert(is_listener_at(after.listeners, other, i));
        assert(is_listener_at(
            client.listeners,
            other,
            if i < index {
                i
            } else {
                i + 1
            },
        ));
    }
}

/// Starting to connect to a server keeps everything that is known about servers.
pub proof fn law_connecting<E>(client: ClientView<E>, addr: SocketAddr, other: SocketAddr)
    requires
        client.wf(),
        client.is_listening(addr),
    ensures
        ({
            let after = client.connecting(addr);
            &&& after.wf()
            &&& after.server_addr() == Some(addr)
            &&& after.is_listening(other) <==> client.is_listening(other)
            &&& client.is_listening(other) ==> after.listener(other) == client.listener(other)
        }),
{
    let after = client.connecting(addr);
    let index = client.index_of(addr);
    assert(is_listener_at(client.listeners, addr, index));
    assert forall|any: SocketAddr, i: int| #[trigger]
        is_listener_at(after.listeners, any, i) <==> 0 <= i && is_listener_at(
            client.listeners,
            any,
            if i == 0 {
                index
            } else if i <= index {
                i - 1
            } else {
                i
            },
        ) by {}
    if client.is_listening(other) {
        let i = client.index_of(other);
        assert(is_listener_at(client.listeners, other, i));
        let k = if i == index {
            0
        } else if i < index {
            i + 1
        } else {
            i
        };
        assert(is_listener_at(after.listeners, other, k));
        assert(after.index_of(other) == k) by {
            assert(is_listener_at(after.listeners, other, after.index_of(other)));
        }
    }
    if after.is_listening(other) {
        let i = after.index_of(other);
        assert(is_listener_at(after.listeners, other, i));
    }
}

/// The client still listens to all servers except for the one that is forgotten, and is still
/// connected.
pub proof fn law_forgotten<E>(client: ClientView<E>, addr: SocketAddr, other: SocketAddr)
    requires
        client.wf(),
        client.is_listening(addr),
        !client.is_connection(addr),
    ensures
        ({
            let after = client.forgotten(addr);
            &&& after.wf()
            &&& !after.is_listening(addr)
            &&& other != addr ==> (after.is_listening(other) <==> client.is_listening(other))
            &&& other != addr && client.is_listening(other) ==> after.listener(other)
                == client.listener(other)
            &&& after.server_addr() == client.server_addr()
        }),
{
    let after = client.forgotten(addr);
    let index = client.index_of(addr);
    let last = client.listeners.len() - 1;
    assert(is_listener_at(client.listeners, addr, index));
    assert forall|any: SocketAddr, i: int| #[trigger]
        is_listener_at(after.listeners, any, i) <==> 0 <= i < last && any != addr
            && is_listener_at(
            client.listeners,
            any,
            if i == index {
                last
            } else {
                i
            },
        ) by {
        let k = if i == index {
            last
        } else {
            i
        };
        if 0 <= i < last && is_listener_at(client.listeners, addr, k) {
            assert(k == index);
        }
    }
    if other != addr && client.is_listening(other) {
        let i = client.index_of(other);
        assert(is_listener_at(client.listeners, other, i));
        let k = if i == last {
            index
        } else {
            i
        };
        assert(is_listener_at(after.listeners, other, k));
        assert(after.index_of(other) == k) by {
            assert(is_listener_at(after.listeners, other, after.index_of(other)));
        }
    }
    if other != addr && after.is_listening(other) {
        let i = after.index_of(other);
        assert(is_listener_at(after.listeners, other, i));
        assert(is_listener_at(
            client.listeners,
            other,
            if i == index {
                last
            } else {
                i
            },
        ));
    }
}

/// What can happen while a client is updated.
pub enum ClientStep<E> {
    /// Nothing changes.
    Nothing,
    /// Something is found out about a server.
    Learn(SocketAddr, ServerListenerView<E>),
    /// Something could not be sent to a server.
    Drop(SocketAddr),
    /// An expected packet of a server was received.
    Packet(SocketAddr, ServerPacketKind),
    /// The server that the client is connected to was silent for too long.
    TimeOut,
    /// Nothing can be received anymore.
    Fail,
}

impl<E> ClientStep<E> {
    /// Whether this can happen to a client.
    pub open spec fn is_possible(self, client: ClientView<E>) -> bool {
        match self {
            ClientStep::Nothing | ClientStep::TimeOut | ClientStep::Fail => true,
            ClientStep::Learn(addr, listener) => client.is_listening(addr) && listener.server_addr
                == addr,
            ClientStep::Drop(addr) => client.is_listening(addr),
            ClientStep::Packet(addr, kind) => client.is_listening(addr) && state_after_packet(
                client.state,
                client.is_connection(addr),
                kind,
            ) is Some,
        }
    }

    /// The client after this has happened.
    pub open spec fn after(self, client: ClientView<E>) -> ClientView<E> {
        match self {
            ClientStep::Nothing => client,
            ClientStep::Learn(addr, listener) => client.with(addr, listener),
            ClientStep::Drop(addr) => client.dropped(addr),
            ClientStep::Packet(addr, kind) => ClientView {
                state: state_after_packet(client.state, client.is_connection(addr), kind)->Some_0,
                ..client
            },
            ClientStep::TimeOut => ClientView { state: ClientState::Disconnected, ..client },
            ClientStep::Fail => ClientView {
                state: ClientState::Disconnected,
                listeners: Seq::empty(),
            },
        }
    }
}

/// Whether one thing can happen while a client is updated that leads from one to the other.
pub open spec fn is_update_step<E>(before: ClientView<E>, after: ClientView<E>) -> bool {
    exists|step: ClientStep<E>| step.is_possible(before) && #[trigger] step.after(before) == after
}

/// Whether each of these leads to the next one while a client is updated.
pub open spec fn is_update<E>(clients: Seq<ClientView<E>>) -> bool
    decreases clients.len(),
{
    &&& clients.len() > 0
    &&& clients.len() > 1 ==> is_update(clients.drop_last()) && is_update_step(
        clients[clients.len() - 2],
        clients.last(),
    )
}

pub proof fn lemma_update_step<E>(client: ClientView<E>, step: ClientStep<E>)
    requires
        step.is_possible(client),
    ensures
        is_update_step(client, step.after(client)),
{
}

/// Everything that can happen because of a single server.
pub proof fn lemma_update_steps<E>(client: ClientView<E>, addr: SocketAddr)
    ensures
        is_update_step(client, client),
        is_update_step(client, ClientView { state: ClientState::Disconnected, ..client }),
        is_update_step(
            client,
            ClientView::<E> { state: ClientState::Disconnected, listeners: Seq::empty() },
        ),
        client.is_listening(addr) ==> {
            &&& forall|listener: ServerListenerView<E>|
                listener.server_addr == addr ==> is_update_step(
                    client,
                    #[trigger] client.with(addr, listener),
                )
            &&& is_update_step(client, client.dropped(addr))
            &&& forall|kind: ServerPacketKind|
                #[trigger] state_after_packet(
                    client.state,
                    client.is_connection(addr),
                    kind,
                ) matches Some(state) ==> is_update_step(client, ClientView { state, ..client })
        },
{
    lemma_update_step(client, ClientStep::Nothing);
    lemma_update_step(client, ClientStep::TimeOut);
    lemma_update_step(client, ClientStep::Fail);
    if client.is_listening(addr) {
        assert forall|listener: ServerListenerView<E>|
            listener.server_addr == addr implies is_update_step(
            client,
            #[trigger] client.with(addr, listener),
        ) by {
            lemma_update_step(client, ClientStep::Learn(addr, listener));
        }
        lemma_update_step(client, ClientStep::Drop(addr));
        assert forall|kind: ServerPacketKind|
            #[trigger] state_after_packet(client.state, client.is_connection(addr), kind) matches Some(
                state,
            ) implies is_update_step(
            client,
            ClientView {
                state: state_after_packet(client.state, client.is_connection(addr), kind)->Some_0,
                ..client
            },
        ) by {
            lemma_update_step(client, ClientStep::Packet(addr, kind));
        }
    }
}

/// Replacing the packets of a compatible server is something that can happen during an update.
pub proof fn law_with_buffers<E>(
    client: ClientView<E>,
    addr: SocketAddr,
    buffers: PacketBuffersView,
)
    requires
        client.is_compatible(addr),
    ensures
        is_update_step(client, client.with_buffers(addr, buffers)),
{
    assert(is_listener_at(client.listeners, addr, client.index_of(addr)));
    lemma_update_step(
        client,
        ClientStep::Learn(addr, client.listener(addr).with_buffers(buffers)),
    );
}

proof fn lemma_step_keeps<E>(before: ClientView<E>, after: ClientView<E>, addr: SocketAddr)
    requires
        before.wf(),
        is_update_step(before, after),
    ensures
        after.wf(),
        before.state == ClientState::Disconnected ==> after.state == ClientState::Disconnected,
        after.state == ClientState::Connecting ==> before.state == ClientState::Connecting,
        after.state == ClientState::Disconnecting ==> before.state == ClientState::Disconnecting,
        after.state == ClientState::Connected ==> before.state == ClientState::Connecting
            || before.state == ClientState::Connected,
        after.is_listening(addr) ==> before.is_listening(addr),
{
    let step = choose|step: ClientStep<E>|
        step.is_possible(before) && #[trigger] step.after(before) == after;
    match step {
        ClientStep::Learn(server_addr, listener) => {
            law_with(before, server_addr, listener, addr);
        },
        ClientStep::Drop(server_addr) => {
            law_dropped(before, server_addr, addr);
        },
        _ => {},
    }
}

/// However a client is updated, it stays disconnected if it is, it is only connected if it was or was
/// about to be, it neither starts to connect nor to disconnect, and it listens to no other server.
pub proof fn law_update<E>(clients: Seq<ClientView<E>>, addr: SocketAddr)
    requires
        is_update(clients),
        clients.first().wf(),
    ensures
        ({
            let before = clients.first();
            let after = clients.last();
            &&& after.wf()
            &&& before.state == ClientState::Disconnected ==> after.state
                == ClientState::Disconnected
            &&& after.state == ClientState::Connecting ==> before.state == ClientState::Connecting
            &&& after.state == ClientState::Disconnecting ==> before.state
                == ClientState::Disconnecting
            &&& after.state == ClientState::Connected ==> before.state == ClientState::Connecting
                || before.state == ClientState::Connected
            &&& after.is_listening(addr) ==> before.is_listening(addr)
        }),
    decreases clients.len(),
{
    if clients.len() > 1 {
        law_update(clients.drop_last(), addr);
        lemma_step_keeps(clients[clients.len() - 2], clients.last(), addr);
    }
}

/// A compatible server is timed out if and only if there is a timeout and more time than that has
/// passed since something was received. Others never are.
pub proof fn law_timed_out<E>(
    listener: ServerListenerView<E>,
    timeout: Option<Duration>,
    now: Instant,
)
    ensures
        listener.is_timed_out(timeout, now) <==> timeout is Some && (
        listener.state matches ServerStateView::Compatible { last_interaction, .. } && now.nanos
            > last_interaction.nanos + timeout->Some_0.nanos),
        timeout is None ==> !listener.is_timed_out(timeout, now),
{
}

/// The version is requested if and only if it is pending, and either was not requested yet or more time
/// than the delay has passed since.
pub proof fn law_version_query<E>(
    listener: ServerListenerView<E>,
    resend_delay: Duration,
    now: Instant,
)
    ensures
        listener.is_version_query_due(resend_delay, now) <==> (
        listener.state matches ServerStateView::PendingVersion { last_version_query } && (
        last_version_query is None || now.nanos > last_version_query->Some_0.nanos
            + resend_delay.nanos)),
{
}

/// Once its version was requested, a server is pending, and is requested again when more time than the
/// delay has passed, or at once if the request could not be sent.
pub proof fn law_requested<E>(
    server_addr: SocketAddr,
    sent: bool,
    requested: Instant,
    resend_delay: Duration,
    now: Instant,
)
    ensures
        ({
            let listener = ServerListenerView::<E>::new(server_addr, sent, requested);
            &&& listener.server_addr == server_addr
            &&& listener.state is PendingVersion
            &&& listener.is_version_query_due(resend_delay, now) <==> !sent || now.nanos
                > requested.nanos + resend_delay.nanos
        }),
{
}

/// The client listens to a server if and only if some listener has its address, and that listener is
/// the one that it is known by.
pub proof fn law_listener<E>(client: ClientView<E>, addr: SocketAddr, index: int)
    requires
        client.wf(),
    ensures
        client.is_listening(addr) <==> exists|i: int|
            0 <= i < client.listeners.len() && (#[trigger] client.listeners[i]).server_addr == addr,
        0 <= index < client.listeners.len() && client.listeners[index].server_addr == addr ==> {
            &&& client.index_of(addr) == index
            &&& client.listener(addr) == client.listeners[index]
            &&& client.is_compatible(addr) <==> client.listeners[index].state is Compatible
            &&& client.is_connection(addr) <==> client.state != ClientState::Disconnected && index
                == 0
            &&& client.listeners[index].state is Incompatible <==> client.compatibility_error(addr)
                == CompatibilityError::Incompatible
            &&& !(client.listeners[index].state is Incompatible) <==> client.compatibility_error(
                addr,
            ) == CompatibilityError::CompatibilityPending
            &&& client.listeners[index].state matches ServerStateView::Compatible { buffers, .. }
                ==> client.buffers_of(addr) == buffers
        },
        client.state == ClientState::Disconnected <==> client.server_addr() is None,
        client.state != ClientState::Disconnected ==> client.server_addr() == Some(
            client.listeners[0].server_addr,
        ),
{
    if exists|i: int|
        0 <= i < client.listeners.len() && (#[trigger] client.listeners[i]).server_addr == addr {
        let i = choose|i: int|
            0 <= i < client.listeners.len() && (#[trigger] client.listeners[i]).server_addr == addr;
        assert(is_listener_at(client.listeners, addr, i));
    }
    if client.is_listening(addr) {
        let i = client.index_of(addr);
        assert(is_listener_at(client.listeners, addr, i));
        assert(client.listeners[i].server_addr == addr);
    }
    if 0 <= index < client.listeners.len() && client.listeners[index].server_addr == addr {
        assert(is_listener_at(client.listeners, addr, index));
    }
}

/// Replacing what is known about a server concerns no other one, and replacing its packets does not
/// count as having received something.
pub proof fn law_changed_listener<E>(
    client: ClientView<E>,
    own: int,
    listener: ServerListenerView<E>,
    buffers: PacketBuffersView,
    index: int,
)
    requires
        client.wf(),
        0 <= own < client.listeners.len(),
    ensures
        ({
            let addr = client.listeners[own].server_addr;
            let changed = client.with(addr, listener);
            let after = client.with_buffers(addr, buffers);
            &&& changed.state == client.state
            &&& changed.listeners.len() == client.listeners.len()
            &&& changed.listeners[own] == listener
            &&& 0 <= index < client.listeners.len() && index != own ==> changed.listeners[index]
                == client.listeners[index]
            &&& client.listeners[own].state matches ServerStateView::Compatible {
                last_interaction,
                ..
            } ==> {
                &&& after.state == client.state
                &&& after.listeners.len() == client.listeners.len()
                &&& after.listeners[own].server_addr == addr
                &&& after.listeners[own].state == (ServerStateView::<E>::Compatible {
                    buffers,
                    last_interaction,
                })
                &&& 0 <= index < client.listeners.len() && index != own ==> after.listeners[index]
                    == client.listeners[index]
            }
        }),
{
    assert(is_listener_at(client.listeners, client.listeners[own].server_addr, own));
}

/// A new server is listened to in addition to all others.
pub proof fn law_with_new<E>(client: ClientView<E>, listener: ServerListenerView<E>, index: int)
    ensures
        ({
            let after = client.with_new(listener);
            &&& after.state == client.state
            &&& after.listeners.len() == client.listeners.len() + 1
            &&& after.listeners[client.listeners.len() as int] == listener
            &&& 0 <= index < client.listeners.len() ==> after.listeners[index]
                == client.listeners[index]
        }),
{
}

/// Losing the connection disconnects and stops listening to exactly that server.
pub proof fn law_connection_lost<E>(client: ClientView<E>, index: int)
    requires
        client.listeners.len() > 0,
    ensures
        ({
            let after = client.connection_lost();
            let last = client.listeners.len() - 1;
            &&& after.state == ClientState::Disconnected
            &&& after.listeners.len() == last
            &&& last > 0 ==> after.listeners[0] == client.listeners[last]
            &&& 0 < index < last ==> after.listeners[index] == client.listeners[index]
        }),
{
}

/// Dropping a server keeps all others in their order, and only disconnects if it is the one that the
/// client is connected to.
pub proof fn law_dropped_listener<E>(client: ClientView<E>, own: int, index: int)
    requires
        client.wf(),
        0 <= own < client.listeners.len(),
    ensures
        ({
            let after = client.dropped(client.listeners[own].server_addr);
            &&& own == 0 ==> after.state == ClientState::Disconnected
            &&& own > 0 ==> after.state == client.state
            &&& after.listeners.len() == client.listeners.len() - 1
            &&& 0 <= index < own ==> after.listeners[index] == client.listeners[index]
            &&& own <= index < after.listeners.len() ==> after.listeners[index]
                == client.listeners[index + 1]
        }),
{
    assert(is_listener_at(client.listeners, client.listeners[own].server_addr, own));
}

/// The server that the client is connecting to comes first, and all others keep their order.
pub proof fn law_connecting_first<E>(client: ClientView<E>, own: int, index: int)
    requires
        client.wf(),
        0 <= own < client.listeners.len(),
    ensures
        ({
            let after = client.connecting(client.listeners[own].server_addr);
            &&& after.state == ClientState::Connecting
            &&& after.listeners.len() == client.listeners.len()
            &&& after.listeners[0] == client.listeners[own]
            &&& 0 <= index < own ==> after.listeners[index + 1] == client.listeners[index]
            &&& own < index < client.listeners.len() ==> after.listeners[index]
                == client.listeners[index]
        }),
{
    assert(is_listener_at(client.listeners, client.listeners[own].server_addr, own));
}

/// A status is always expected. Only the server that the client is connecting to can accept or reject
/// it, and only the server that it is connected to can kick it and send packets.
pub proof fn law_packets<E>(client: ClientView<E>, own: int, kind: ServerPacketKind)
    requires
        client.wf(),
        0 <= own < client.listeners.len(),
    ensures
        ({
            let addr = client.listeners[own].server_addr;
            let after = state_after_packet(client.state, client.is_connection(addr), kind);
            let is_connecting = own == 0 && client.state == ClientState::Connecting;
            let is_connected = own == 0 && client.state == ClientState::Connected;
            &&& after is Some <==> match kind {
                ServerPacketKind::Status => true,
                ServerPacketKind::Accept | ServerPacketKind::Reject => is_connecting,
                ServerPacketKind::Kick | ServerPacketKind::User => is_connected,
            }
            &&& after matches Some(state) ==> {
                &&& kind == ServerPacketKind::Accept ==> state == ClientState::Connected
                &&& kind == ServerPacketKind::Reject || kind == ServerPacketKind::Kick ==> state
                    == ClientState::Disconnected
                &&& kind == ServerPacketKind::Status || kind == ServerPacketKind::User ==> state
                    == client.state
            }
        }),
{
    assert(is_listener_at(client.listeners, client.listeners[own].server_addr, own));
}

} // verus!
