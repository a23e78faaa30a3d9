//! What a client knows about servers.

use vstd::prelude::*;

pub mod view;

pub use self::view::{ClientState, CompatibilityError};
use self::view::{
    is_listener_at, is_update_step, law_connecting, law_dropped, law_forgotten, law_with,
    lemma_update_step, lemma_update_steps, swap_removed, ClientStep, ClientView,
    ServerListenerView, ServerStateView,
};
use super::{handle_buffers, is_reaction, HandlerError, Reaction, SocketAddr};
use crate::config::ClientConfig;
use crate::packet::buffers::PacketBuffersView;
use crate::packet::wire::{id_of, kind_of, ping, ping_datagram, read_id, SEQ_INDEX_START};
use crate::packet::{
    HandlePacketError, MalformedVersion, NonZeroBatchSize, PacketBuffers, PacketId, PacketKind,
    Packets, Round, SendAttempt,
};
use crate::sorted::are_sorted_keys;
use crate::time::Instant;
use vstd::slice::slice_subrange;

verus! {

/// The compatibility to a server.
pub enum Compatibility<'a, P: Packets> {
    /// Compatibility to the server has not yet been determined.
    Pending,
    /// The server is compatible and can be communicated with.
    Compatible,
    /// The server was determined to be incompatible, so there is no way to communicate.
    Incompatible(&'a P::CompatibilityError),
}

/// Why a packet of a server was not expected.
#[derive(Clone, Copy, Debug, PartialEq, Eq, Structural)]
pub enum UnexpectedServerPacket {
    /// Not listening to this server.
    UnknownServer,
    /// Empty packet.
    Empty,
    /// Packet during pending compatible check.
    PendingCompatibility,
    /// Malformed version packet.
    MalformedVersion,
    /// Not connected to this server.
    NotConnected,
    /// Incompatible with this server.
    Incompatible,
}

#[derive(Clone, Copy, Debug, PartialEq, Eq, Structural)]
pub enum ForgetError {
    /// Client is not disconnected from this server.
    NotDisconnected,
    /// Client was not listening to this server.
    UnknownServer,
}

#[derive(Debug)]
pub enum QueryError {
    Compatibility(CompatibilityError),
    Io(std::io::Error),
}

#[derive(Debug)]
pub enum ConnectError {
    Compatibility(CompatibilityError),
    /// Client can only connect while fully disconnected.
    NotDisconnected,
    Io(std::io::Error),
}

#[derive(Debug)]
pub enum SendError {
    /// Client can only send packets while connected.
    NotConnected,
    Io(std::io::Error),
}

/// What is known about a server.
pub enum ServerState<E> {
    PendingVersion {
        /// The last time the version was requested.
        ///
        /// Is `None` if it failed to send because the socket would have blocked, which means that
        /// it still has to be sent.
        last_version_query: Option<Instant>,
    },
    Compatible { buffers: PacketBuffers, last_interaction: Instant },
    Incompatible(E),
}

impl<E> View for ServerState<E> {
    type V = ServerStateView<E>;

    open spec fn view(&self) -> ServerStateView<E> {
        match *self {
            ServerState::PendingVersion { last_version_query } => ServerStateView::PendingVersion {
                last_version_query,
            },
            ServerState::Compatible { buffers, last_interaction } => ServerStateView::Compatible {
                buffers: buffers@,
                last_interaction,
            },
            ServerState::Incompatible(error) => ServerStateView::Incompatible(error),
        }
    }
}

impl<E> ServerState<E> {
    pub open spec fn wf(&self) -> bool {
        *self matches ServerState::Compatible { buffers, .. } ==> buffers.wf()
    }
}

/// A server that the client is listening to.
pub struct ServerListener<E> {
    server_addr: SocketAddr,
    state: ServerState<E>,
}

impl<E> View for ServerListener<E> {
    type V = ServerListenerView<E>;

    closed spec fn view(&self) -> ServerListenerView<E> {
        ServerListenerView { server_addr: self.server_addr, state: self.state@ }
    }
}

/// What a listener has to send.
pub enum ListenerTask {
    /// There is nothing to be sent.
    Nothing,
    /// The version has to be requested.
    VersionQuery,
    /// The packets take their turns.
    Packets(Round),
}

impl<E> ServerListener<E> {
    pub closed spec fn wf(&self) -> bool {
        self.state.wf()
    }

    /// Starts listening to a server after an attempt to request its version.
    pub fn new(server_addr: SocketAddr, outcome: Result<bool, std::io::Error>, now: Instant) -> (
        result: Result<Self, std::io::Error>)
        ensures
            match outcome {
                Ok(sent) => result matches Ok(listener) && listener.wf() && listener@
                    == ServerListenerView::<E>::new(server_addr, sent, now),
                Err(error) => result == Err::<Self, _>(error),
            },
    {
        match outcome {
            Ok(sent) => Ok(
                ServerListener { server_addr, state: Self::pending_version_query(sent, now) },
            ),
            Err(error) => Err(error),
        }
    }

    fn pending_version_query(sent: bool, now: Instant) -> (state: ServerState<E>)
        ensures
            state == (ServerState::<E>::PendingVersion {
                last_version_query: if sent {
                    Some(now)
                } else {
                    None
                },
            }),
    {
        if sent {
            ServerState::PendingVersion { last_version_query: Some(now) }
        } else {
            ServerState::PendingVersion { last_version_query: None }
        }
    }

    /// Resets the compatibility after an attempt to request the version.
    pub fn refresh(&mut self, outcome: Result<bool, std::io::Error>, now: Instant) -> (result:
        Result<(), std::io::Error>)
        requires
            old(self).wf(),
        ensures
            final(self).wf(),
            match outcome {
                Ok(sent) => {
                    &&& result == Ok::<(), std::io::Error>(())
                    &&& final(self)@ == ServerListenerView::<E>::new(
                        old(self)@.server_addr,
                        sent,
                        now,
                    )
                },
                Err(error) => {
                    &&& result == Err::<(), _>(error)
                    &&& final(self)@ == old(self)@
                },
            },
    {
        match outcome {
            Ok(sent) => {
                self.state = Self::pending_version_query(sent, now);
                Ok(())
            },
            Err(error) => Err(error),
        }
    }

    /// Starts updating the packets if the server is compatible, or the request for the version.
    ///
    /// - Times out old packets
    /// - (Re)Send pending packets including version queries
    pub fn start_update(&mut self, config: &ClientConfig, now: Instant) -> (task: ListenerTask)
        requires
            old(self).wf(),
        ensures
            final(self).wf(),
            match old(self)@.state {
                ServerStateView::PendingVersion { .. } => {
                    &&& final(self)@ == old(self)@
                    &&& task == if old(self)@.is_version_query_due(
                        config.connection.resend_delay,
                        now,
                    ) {
                        ListenerTask::VersionQuery
                    } else {
                        ListenerTask::Nothing
                    }
                },
                ServerStateView::Compatible { buffers, .. } => {
                    let known = buffers.after_timeout(
                        config.connection.resend_delay,
                        config.connection.max_missed_acks,
                        config.connection.receive_timeout,
                        now,
                    );
                    &&& task matches ListenerTask::Packets(round)
                    &&& are_sorted_keys(round@, known.send.packets.dom())
                    &&& final(self)@ == old(self)@.with_buffers(known.after_round_start(round@))
                },
                ServerStateView::Incompatible(_) => {
                    &&& final(self)@ == old(self)@
                    &&& task == ListenerTask::Nothing
                },
            },
    {
        match &mut self.state {
            ServerState::PendingVersion { last_version_query } => {
                match *last_version_query {
                    Some(query) => {
                        if query.elapsed(now).nanos > config.connection.resend_delay.nanos {
                            ListenerTask::VersionQuery
                        } else {
                            ListenerTask::Nothing
                        }
                    },
                    None => ListenerTask::VersionQuery,
                }
            },
            ServerState::Compatible { buffers, .. } => ListenerTask::Packets(
                buffers.start_update(
                    config.connection.resend_delay,
                    config.connection.max_missed_acks,
                    config.connection.receive_timeout,
                    now,
                ),
            ),
            ServerState::Incompatible(_) => ListenerTask::Nothing,
        }
    }

    /// Concludes an update after what had to be sent was attempted to be sent.
    ///
    /// The outcome is `Ok(false)` if the request for the version was not sent because the socket
    /// would block. The listener should not be kept if there is an error.
    pub fn finish_update(&mut self, outcome: Result<bool, std::io::Error>, now: Instant) -> (result:
        Result<(), HandlerError>)
        requires
            old(self).wf(),
        ensures
            final(self).wf(),
            match outcome {
                Ok(sent) => {
                    &&& result == Ok::<(), HandlerError>(())
                    &&& final(self)@ == if sent && old(self)@.state is PendingVersion {
                        ServerListenerView::<E>::new(old(self)@.server_addr, true, now)
                    } else {
                        old(self)@
                    }
                },
                Err(error) => {
                    &&& result == Err::<(), _>(
                        HandlerError::Send { receiver_addr: old(self)@.server_addr, error },
                    )
                    &&& final(self)@ == old(self)@
                },
            },
    {
        match outcome {
            Ok(sent) => {
                if sent {
                    if let ServerState::PendingVersion { last_version_query } = &mut self.state {
                        *last_version_query = Some(now);
                    }
                }
                Ok(())
            },
            Err(error) => Err(HandlerError::Send { receiver_addr: self.server_addr, error }),
        }
    }
}

/// A request for the version of a server, which is an empty datagram.
pub fn send_version_query() -> (datagram: Vec<u8>)
    ensures
        datagram@ == Seq::<u8>::empty(),
{
    Vec::new()
}

/// What has to be done with a datagram.
pub enum ClientReaction<'a> {
    /// The datagram was not expected.
    Unexpected(UnexpectedServerPacket),
    /// The version of the server has to be read from these bytes.
    Version(&'a [u8]),
    /// The datagram came from a compatible server.
    Known(Reaction<'a>),
    /// The server has sent a ping, which has to be responded to with this datagram.
    Pong(Vec<u8>),
}

/// What kind of packet was received from a server.
#[derive(Clone, Copy, Debug, PartialEq, Eq, Structural)]
pub enum ServerPacketKind {
    Status,
    Accept,
    Reject,
    Kick,
    User,
}

/// What has to be done with a packet of a compatible server.
#[derive(Clone, Copy, Debug, PartialEq, Eq, Structural)]
pub enum ServerPacketReaction {
    /// The packet has to be passed on.
    Deliver,
    /// The packet was not expected.
    Unexpected(UnexpectedServerPacket),
}

/// The state of a client after a packet was received, if the packet was expected.
pub open spec fn state_after_packet(
    state: ClientState,
    is_connection: bool,
    kind: ServerPacketKind,
) -> Option<ClientState> {
    match kind {
        ServerPacketKind::Status => Some(state),
        ServerPacketKind::Accept => if is_connection && state == ClientState::Connecting {
            Some(ClientState::Connected)
        } else {
            None
        },
        ServerPacketKind::Reject => if is_connection && state == ClientState::Connecting {
            Some(ClientState::Disconnected)
        } else {
            None
        },
        ServerPacketKind::Kick => if is_connection && state == ClientState::Connected {
            Some(ClientState::Disconnected)
        } else {
            None
        },
        ServerPacketKind::User => if is_connection && state == ClientState::Connected {
            Some(state)
        } else {
            None
        },
    }
}

/// Keeps track of servers.
pub struct Client<P: Packets> {
    config: ClientConfig,
    state: ClientState,
    /// Contains servers that the client is listening to.
    ///
    /// Unless `state` is set to [`ClientState::Disconnected`], the first entry contains the
    /// connection to the server that the client is currently connected to. All other entries are
    /// just used for status queries.
    ///
    /// Never contains duplicate server addresses.
    listeners: Vec<ServerListener<P::CompatibilityError>>,
}

/// The views of all the listeners.
pub open spec fn listener_views<E>(listeners: Seq<ServerListener<E>>) -> Seq<ServerListenerView<E>> {
    Seq::new(listeners.len(), |i: int| listeners[i]@)
}

impl<P: Packets> View for Client<P> {
    type V = ClientView<P::CompatibilityError>;

    closed spec fn view(&self) -> ClientView<P::CompatibilityError> {
        ClientView { state: self.state, listeners: listener_views(self.listeners@) }
    }
}

/// Whether the compatibility is the one of a listener.
pub open spec fn is_compatibility_of<'a, P: Packets>(
    compatibility: Compatibility<'a, P>,
    listener: ServerListenerView<P::CompatibilityError>,
) -> bool {
    match listener.state {
        ServerStateView::PendingVersion { .. } => compatibility is Pending,
        ServerStateView::Compatible { .. } => compatibility is Compatible,
        ServerStateView::Incompatible(error) => compatibility == Compatibility::<
            'a,
            P,
        >::Incompatible(&error),
    }
}

impl<P: Packets> Client<P> {
    pub closed spec fn wf(&self) -> bool {
        &&& forall|i: int| 0 <= i < self.listeners@.len() ==> (#[trigger] self.listeners@[i]).wf()
        &&& self@.wf()
    }

    /// No server is listened to twice, and there is a server at the front unless the client is
    /// disconnected.
    pub proof fn lemma_wf(&self)
        requires
            self.wf(),
        ensures
            self@.wf(),
    {
    }

    pub closed spec fn config_spec(&self) -> ClientConfig {
        self.config
    }

    /// Starts out without any servers.
    pub fn new(config: ClientConfig) -> (client: Self)
        ensures
            client.wf(),
            client@.state == ClientState::Disconnected,
            client@.listeners.len() == 0,
            client.config_spec() == config,
    {
        Client { config, state: ClientState::Disconnected, listeners: Vec::new() }
    }

    /// The configuration of the client.
    pub fn config(&self) -> (config: ClientConfig)
        ensures
            config == self.config_spec(),
    {
        self.config
    }

    pub fn state(&self) -> (state: ClientState)
        ensures
            state == self@.state,
    {
        self.state
    }

    /// The server to which the client is connected to (or trying to connect to/disconnect from).
    pub fn server_addr(&self) -> (server_addr: Option<SocketAddr>)
        requires
            self.wf(),
        ensures
            server_addr == self@.server_addr(),
    {
        match self.state {
            ClientState::Disconnected => None,
            ClientState::Connecting | ClientState::Connected | ClientState::Disconnecting => {
                Some(self.listeners[0].server_addr)
            },
        }
    }

    fn position(&self, server_addr: SocketAddr) -> (index: Option<usize>)
        requires
            self.wf(),
        ensures
            index is Some <==> self@.is_listening(server_addr),
            index matches Some(index) ==> index == self@.index_of(server_addr) && is_listener_at(
                self@.listeners,
                server_addr,
                index as int,
            ),
    {
        let mut index: usize = 0;
        while index < self.listeners.len()
            invariant
                self.wf(),
                index <= self.listeners@.len(),
                forall|i: int|
                    0 <= i < index ==> !(#[trigger] is_listener_at(
                        self@.listeners,
                        server_addr,
                        i,
                    )),
            decreases self.listeners@.len() - index,
        {
            if self.listeners[index].server_addr == server_addr {
                assert(is_listener_at(self@.listeners, server_addr, index as int));
                return Some(index);
            }
            index = index + 1;
        }
        None
    }

    /// Whether the client is listening to the given server.
    pub fn is_listening(&self, server_addr: SocketAddr) -> (listening: bool)
        requires
            self.wf(),
        ensures
            listening == self@.is_listening(server_addr),
    {
        self.position(server_addr).is_some()
    }

    /// Returns the compatibility to the given server.
    pub fn compatibility(&self, server_addr: SocketAddr) -> (compatibility: Option<
        Compatibility<'_, P>,
    >)
        requires
            self.wf(),
        ensures
            compatibility is Some <==> self@.is_listening(server_addr),
            compatibility matches Some(compatibility) ==> is_compatibility_of(
                compatibility,
                self@.listener(server_addr),
            ),
    {
        match self.position(server_addr) {
            Some(index) => match &self.listeners[index].state {
                ServerState::PendingVersion { .. } => Some(Compatibility::Pending),
                ServerState::Compatible { .. } => Some(Compatibility::Compatible),
                ServerState::Incompatible(error) => Some(Compatibility::Incompatible(error)),
            },
            None => None,
        }
    }

    /// How many parts of a new packet are sent at once to the given server, if it is compatible.
    pub fn send_batch_size(&self, server_addr: SocketAddr) -> (batch_size: Option<NonZeroBatchSize>)
        requires
            self.wf(),
        ensures
            batch_size is Some <==> self@.is_compatible(server_addr),
            batch_size matches Some(batch_size) ==> batch_size@ == self@.buffers_of(
                server_addr,
            ).send.batch_size,
    {
        match self.position(server_addr) {
            Some(index) => match &self.listeners[index].state {
                ServerState::Compatible { buffers, .. } => Some(buffers.batch_size()),
                ServerState::PendingVersion { .. } | ServerState::Incompatible(_) => None,
            },
            None => None,
        }
    }

    /// Starts sending version requests to the server if its compatibility is not known yet.
    ///
    /// The outcome is that of requesting the version, which has to be attempted if the client is not
    /// listening to the server yet.
    pub fn listen(
        &mut self,
        server_addr: SocketAddr,
        outcome: Option<Result<bool, std::io::Error>>,
        now: Instant,
    ) -> (result: Result<Compatibility<'_, P>, std::io::Error>)
        requires
            old(self).wf(),
            outcome is Some <==> !old(self)@.is_listening(server_addr),
        ensures
            final(self).wf(),
            final(self).config_spec() == old(self).config_spec(),
            match outcome {
                None => {
                    &&& result matches Ok(compatibility) && is_compatibility_of(
                        compatibility,
                        old(self)@.listener(server_addr),
                    )
                    &&& final(self)@ == old(self)@
                },
                Some(Ok(sent)) => {
                    &&& result matches Ok(compatibility) && compatibility is Pending
                    &&& final(self)@ == old(self)@.with_new(
                        ServerListenerView::new(server_addr, sent, now),
                    )
                },
                Some(Err(error)) => {
                    &&& result == Err::<Compatibility<'_, P>, _>(error)
                    &&& final(self)@ == old(self)@
                },
            },
    {
        match self.get_or_add_listener(server_addr, outcome, now) {
            Ok(()) => {
                proof {
                    let last = self@.listeners.len() - 1;
                    if outcome is Some {
                        assert(is_listener_at(self@.listeners, server_addr, last));
                    }
                }
                Ok(self.compatibility(server_addr).unwrap())
            },
            Err(error) => Err(error),
        }
    }

    /// Listens to the given server if the client is not doing so yet.
    ///
    /// The outcome is that of requesting the version, which has to be attempted if the client is not
    /// listening to the server yet.
    pub fn get_or_add_listener(
        &mut self,
        server_addr: SocketAddr,
        outcome: Option<Result<bool, std::io::Error>>,
        now: Instant,
    ) -> (result: Result<(), std::io::Error>)
        requires
            old(self).wf(),
            outcome is Some <==> !old(self)@.is_listening(server_addr),
        ensures
            final(self).wf(),
            final(self).config_spec() == old(self).config_spec(),
            match outcome {
                None => {
                    &&& result == Ok::<(), std::io::Error>(())
                    &&& final(self)@ == old(self)@
                },
                Some(Ok(sent)) => {
                    &&& result == Ok::<(), std::io::Error>(())
                    &&& final(self)@ == old(self)@.with_new(
                        ServerListenerView::new(server_addr, sent, now),
                    )
                },
                Some(Err(error)) => {
                    &&& result == Err::<(), _>(error)
                    &&& final(self)@ == old(self)@
                },
            },
    {
        match outcome {
            None => Ok(()),
            Some(outcome) => match ServerListener::new(server_addr, outcome, now) {
                Ok(listener) => {
                    self.listeners.push(listener);
                    proof {
                        let before = old(self)@;
                        let after = before.with_new(listener@);
                        assert(self@.listeners =~= after.listeners);
                        assert forall|any: SocketAddr, i: int| #[trigger]
                            is_listener_at(after.listeners, any, i) <==> is_listener_at(
                                before.listeners,
                                any,
                                i,
                            ) || (any == server_addr && i == before.listeners.len()) by {}
                        assert forall|i: int|
                            !(#[trigger] is_listener_at(before.listeners, server_addr, i)) by {}
                    }
                    Ok(())
                },
                Err(error) => Err(error),
            },
        }
    }

    /// Stops listening to the given server.
    ///
    /// Only works if the client is disconnected from the server.
    pub fn forget(&mut self, server_addr: SocketAddr) -> (result: Result<(), ForgetError>)
        requires
            old(self).wf(),
        ensures
            final(self).wf(),
            final(self).config_spec() == old(self).config_spec(),
            if !old(self)@.is_listening(server_addr) {
                &&& result == Err::<(), _>(ForgetError::UnknownServer)
                &&& final(self)@ == old(self)@
            } else if old(self)@.is_connection(server_addr) {
                &&& result == Err::<(), _>(ForgetError::NotDisconnected)
                &&& final(self)@ == old(self)@
            } else {
                &&& result == Ok::<(), ForgetError>(())
                &&& final(self)@ == old(self)@.forgotten(server_addr)
            },
    {
        match self.position(server_addr) {
            Some(index) => {
                if index == 0 && self.state != ClientState::Disconnected {
                    Err(ForgetError::NotDisconnected)
                } else {
                    proof {
                        law_forgotten(self@, server_addr, server_addr);
                    }
                    let _listener = self.listeners.swap_remove(index);
                    assert(self@.listeners =~= swap_removed(old(self)@.listeners, index as int));
                    Ok(())
                }
            },
            None => Err(ForgetError::UnknownServer),
        }
    }

    /// Stops listening to all disconnected servers.
    pub fn forget_all(&mut self)
        requires
            old(self).wf(),
        ensures
            final(self).wf(),
            final(self).config_spec() == old(self).config_spec(),
            final(self)@ == (ClientView {
                listeners: if old(self)@.state == ClientState::Disconnected {
                    Seq::empty()
                } else {
                    old(self)@.listeners.take(1)
                },
                ..old(self)@
            }),
    {
        if self.state == ClientState::Disconnected {
            self.listeners.clear();
            assert(self@.listeners =~= Seq::empty());
        } else {
            self.listeners.truncate(1);
            assert(self@.listeners =~= old(self)@.listeners.take(1));
        }
    }

    /// The addresses of all servers that the client is listening to.
    pub fn listener_addrs(&self) -> (server_addrs: Vec<SocketAddr>)
        ensures
            server_addrs@ == self@.listeners.map_values(
                |listener: ServerListenerView<P::CompatibilityError>| listener.server_addr,
            ),
    {
        let mut server_addrs: Vec<SocketAddr> = Vec::new();
        let mut index: usize = 0;
        while index < self.listeners.len()
            invariant
                index <= self.listeners@.len(),
                server_addrs@.len() == index,
                forall|i: int|
                    0 <= i < index ==> server_addrs@[i] == self@.listeners[i].server_addr,
            decreases self.listeners@.len() - index,
        {
            server_addrs.push(self.listeners[index].server_addr);
            index = index + 1;
        }
        assert(server_addrs@ =~= self@.listeners.map_values(
            |listener: ServerListenerView<P::CompatibilityError>| listener.server_addr,
        ));
        server_addrs
    }

    /// Resets the compatibility state for all servers.
    ///
    /// The outcomes are those of requesting the versions of the first servers. If there are fewer
    /// than servers, requesting the version of the next one has failed.
    pub fn refresh_all(
        &mut self,
        outcomes: Vec<bool>,
        failure: Option<std::io::Error>,
        now: Instant,
    ) -> (result: Result<(), std::io::Error>)
        requires
            old(self).wf(),
            outcomes@.len() <= old(self)@.listeners.len(),
            failure is None <==> outcomes@.len() == old(self)@.listeners.len(),
        ensures
            final(self).wf(),
            final(self).config_spec() == old(self).config_spec(),
            final(self)@ == (ClientView {
                listeners: Seq::new(
                    old(self)@.listeners.len(),
                    |i: int|
                        if i < outcomes@.len() {
                            ServerListenerView::new(
                                old(self)@.listeners[i].server_addr,
                                outcomes@[i],
                                now,
                            )
                        } else {
                            old(self)@.listeners[i]
                        },
                ),
                ..old(self)@
            }),
            result == match failure {
                Some(error) => Err(error),
                None => Ok(()),
            },
    {
        let mut index: usize = 0;
        while index < outcomes.len()
            invariant
                index <= outcomes@.len() <= self.listeners@.len(),
                self.listeners@.len() == old(self)@.listeners.len(),
                forall|i: int|
                    0 <= i < self.listeners@.len() ==> (#[trigger] self.listeners@[i]).wf(),
                self.config == old(self).config_spec(),
                self.state == old(self)@.state,
                forall|i: int|
                    0 <= i < self.listeners@.len() ==> (#[trigger] self.listeners@[i])@ == if i
                        < index {
                        ServerListenerView::new(
                            old(self)@.listeners[i].server_addr,
                            outcomes@[i],
                            now,
                        )
                    } else {
                        old(self)@.listeners[i]
                    },
            decreases outcomes@.len() - index,
        {
            let _refreshed = self.listeners[index].refresh(Ok(outcomes[index]), now);
            index = index + 1;
        }
        proof {
            let before = old(self)@;
            assert forall|any: SocketAddr, i: int| #[trigger]
                is_listener_at(self@.listeners, any, i) <==> is_listener_at(
                    before.listeners,
                    any,
                    i,
                ) by {}
            assert(self@.listeners =~= Seq::new(
                before.listeners.len(),
                |i: int|
                    if i < outcomes@.len() {
                        ServerListenerView::new(
                            before.listeners[i].server_addr,
                            outcomes@[i],
                            now,
                        )
                    } else {
                        before.listeners[i]
                    },
            ));
        }
        match failure {
            Some(error) => Err(error),
            None => Ok(()),
        }
    }

    /// The packets of a compatible server.
    pub fn buffers_mut(&mut self, server_addr: SocketAddr) -> (buffers: Option<&mut PacketBuffers>)
        requires
            old(self).wf(),
        ensures
            buffers is Some <==> old(self)@.is_compatible(server_addr),
            match buffers {
                Some(buffers) => {
                    &&& buffers.wf()
                    &&& buffers@ == old(self)@.buffers_of(server_addr)
                    &&& final(self).config_spec() == old(self).config_spec()
                    &&& final(buffers).wf() ==> final(self).wf() && final(self)@ == old(
                        self,
                    )@.with_buffers(server_addr, final(buffers)@)
                },
                None => *final(self) == *old(self),
            },
    {
        let ghost before = *self;
        if self.send_batch_size(server_addr).is_none() {
            return None;
        }
        match self.position(server_addr) {
            Some(index) => {
                proof {
                    assert forall|after: Self|
                        #![trigger after.wf()]
                        #![trigger after@]
                        ({
                            let old_listener = before.listeners@[index as int];
                            let listener = after.listeners@[index as int];
                            &&& after.state == before.state
                            &&& after.listeners@.len() == before.listeners@.len()
                            &&& forall|i: int|
                                0 <= i < after.listeners@.len() && i != index ==> (
                                #[trigger] after.listeners@[i]) == before.listeners@[i]
                            &&& listener.server_addr == old_listener.server_addr
                            &&& old_listener.state is Compatible
                            &&& listener.state is Compatible
                            &&& listener.state->last_interaction
                                == old_listener.state->last_interaction
                            &&& listener.state->buffers.wf()
                        }) implies after.wf() && after@ == before@.with_buffers(
                        server_addr,
                        after.listeners@[index as int].state->buffers@,
                    ) by {
                        let buffers = after.listeners@[index as int].state->buffers@;
                        law_with(
                            before@,
                            server_addr,
                            before@.listener(server_addr).with_buffers(buffers),
                            server_addr,
                        );
                        assert(after@.listeners =~= before@.with_buffers(
                            server_addr,
                            buffers,
                        ).listeners);
                    }
                }
                match &mut self.listeners[index].state {
                    ServerState::Compatible { buffers, .. } => Some(buffers),
                    ServerState::PendingVersion { .. } | ServerState::Incompatible(_) => None,
                }
            },
            None => None,
        }
    }

    /// Why no packet can be sent to a server that the client is listening to.
    fn compatibility_error(&self, server_addr: SocketAddr) -> (error: CompatibilityError)
        requires
            self.wf(),
            self@.is_listening(server_addr),
            !self@.is_compatible(server_addr),
        ensures
            error == self@.compatibility_error(server_addr),
    {
        match self.compatibility(server_addr) {
            Some(Compatibility::Incompatible(_)) => CompatibilityError::Incompatible,
            _ => CompatibilityError::CompatibilityPending,
        }
    }

    /// Sends a query request to the given server, which the client has to be listening to.
    ///
    /// Sending it has to be attempted if the server is compatible.
    pub fn query(
        &mut self,
        server_addr: SocketAddr,
        attempt: Option<SendAttempt>,
        now: Instant,
    ) -> (result: Result<PacketId, QueryError>)
        requires
            old(self).wf(),
            old(self)@.is_listening(server_addr),
            attempt is Some <==> old(self)@.is_compatible(server_addr),
            attempt matches Some(attempt) ==> attempt.wf(),
        ensures
            final(self).wf(),
            final(self).config_spec() == old(self).config_spec(),
            match attempt {
                None => {
                    &&& result == Err::<PacketId, _>(
                        QueryError::Compatibility(old(self)@.compatibility_error(server_addr)),
                    )
                    &&& final(self)@ == old(self)@
                },
                Some(attempt) => {
                    &&& result == match attempt.outcome {
                        Ok(_) => Ok(attempt.id),
                        Err(error) => Err(QueryError::Io(error)),
                    }
                    &&& final(self)@ == old(self)@.with_buffers(
                        server_addr,
                        old(self)@.buffers_of(server_addr).after_send(attempt, now),
                    )
                },
            },
    {
        match attempt {
            None => Err(QueryError::Compatibility(self.compatibility_error(server_addr))),
            Some(attempt) => match self.buffers_mut(server_addr).unwrap().send(attempt, now) {
                Ok(id) => Ok(id),
                Err(error) => Err(QueryError::Io(error)),
            },
        }
    }

    /// Starts connecting to the given server, which the client has to be listening to.
    ///
    /// Sending the packet has to be attempted if the client is disconnected and the server is
    /// compatible.
    pub fn connect(
        &mut self,
        server_addr: SocketAddr,
        attempt: Option<SendAttempt>,
        now: Instant,
    ) -> (result: Result<PacketId, ConnectError>)
        requires
            old(self).wf(),
            old(self)@.state == ClientState::Disconnected ==> old(self)@.is_listening(server_addr),
            attempt is Some <==> old(self)@.state == ClientState::Disconnected && old(
                self,
            )@.is_compatible(server_addr),
            attempt matches Some(attempt) ==> attempt.wf(),
        ensures
            final(self).wf(),
            final(self).config_spec() == old(self).config_spec(),
            match attempt {
                None => {
                    &&& result == Err::<PacketId, _>(
                        if old(self)@.state == ClientState::Disconnected {
                            ConnectError::Compatibility(
                                old(self)@.compatibility_error(server_addr),
                            )
                        } else {
                            ConnectError::NotDisconnected
                        },
                    )
                    &&& final(self)@ == old(self)@
                },
                Some(attempt) => {
                    let after = old(self)@.with_buffers(
                        server_addr,
                        old(self)@.buffers_of(server_addr).after_send(attempt, now),
                    );
                    match attempt.outcome {
                        Ok(_) => {
                            &&& result == Ok::<_, ConnectError>(attempt.id)
                            &&& final(self)@ == after.connecting(server_addr)
                        },
                        Err(error) => {
                            &&& result == Err::<PacketId, _>(ConnectError::Io(error))
                            &&& final(self)@ == after
                        },
                    }
                },
            },
    {
        if self.state != ClientState::Disconnected {
            return Err(ConnectError::NotDisconnected);
        }
        let attempt = match attempt {
            Some(attempt) => attempt,
            None => {
                return Err(ConnectError::Compatibility(self.compatibility_error(server_addr)));
            },
        };
        proof {
            law_with(
                self@,
                server_addr,
                self@.listener(server_addr).with_buffers(
                    self@.buffers_of(server_addr).after_send(attempt, now),
                ),
                server_addr,
            );
        }
        match self.buffers_mut(server_addr).unwrap().send(attempt, now) {
            Ok(id) => {
                self.start_connecting(server_addr);
                Ok(id)
            },
            Err(error) => Err(ConnectError::Io(error)),
        }
    }

    fn start_connecting(&mut self, server_addr: SocketAddr)
        requires
            old(self).wf(),
            old(self)@.is_listening(server_addr),
        ensures
            final(self).wf(),
            final(self).config_spec() == old(self).config_spec(),
            final(self)@ == old(self)@.connecting(server_addr),
    {
        proof {
            law_connecting(self@, server_addr, server_addr);
        }
        if let Some(index) = self.position(server_addr) {
            let listener = self.listeners.remove(index);
            self.listeners.insert(0, listener);
            self.state = ClientState::Connecting;
            assert(self@.listeners =~= old(self)@.connecting(server_addr).listeners);
        }
    }

    /// Sends a packet to the server that the client is connected to.
    ///
    /// Sending it has to be attempted if the client is connected.
    pub fn send(&mut self, attempt: Option<SendAttempt>, now: Instant) -> (result: Result<
        PacketId,
        SendError,
    >)
        requires
            old(self).wf(),
            attempt is Some <==> old(self)@.state == ClientState::Connected,
            attempt is Some ==> old(self)@.listeners[0].state is Compatible,
            attempt matches Some(attempt) ==> attempt.wf(),
        ensures
            final(self).wf(),
            final(self).config_spec() == old(self).config_spec(),
            match attempt {
                None => {
                    &&& result == Err::<PacketId, _>(SendError::NotConnected)
                    &&& final(self)@ == old(self)@
                },
                Some(attempt) => match attempt.outcome {
                    Ok(_) => {
                        &&& result == Ok::<_, SendError>(attempt.id)
                        &&& final(self)@ == old(self)@.with_buffers(
                            old(self)@.listeners[0].server_addr,
                            old(self)@.buffers_of(old(self)@.listeners[0].server_addr).after_send(
                                attempt,
                                now,
                            ),
                        )
                    },
                    Err(error) => {
                        &&& result == Err::<PacketId, _>(SendError::Io(error))
                        &&& final(self)@ == old(self)@.connection_lost()
                    },
                },
            },
    {
        let attempt = match attempt {
            Some(attempt) => attempt,
            None => {
                return Err(SendError::NotConnected);
            },
        };
        let server_addr = self.listeners[0].server_addr;
        proof {
            assert(is_listener_at(self@.listeners, server_addr, 0));
            let listener = self@.listener(server_addr);
            law_with(
                self@,
                server_addr,
                listener.with_buffers(self@.buffers_of(server_addr).after_send(attempt, now)),
                server_addr,
            );
        }
        match self.buffers_mut(server_addr).unwrap().send(attempt, now) {
            Ok(id) => Ok(id),
            Err(error) => {
                self.lose_connection();
                assert(self@.listeners =~= old(self)@.connection_lost().listeners);
                Err(SendError::Io(error))
            },
        }
    }

    /// Starts disconnecting from the server that the client is connected to.
    ///
    /// Sending the packet has to be attempted if the client is connected.
    pub fn disconnect(&mut self, attempt: Option<SendAttempt>, now: Instant) -> (result: Result<
        PacketId,
        SendError,
    >)
        requires
            old(self).wf(),
            attempt is Some <==> old(self)@.state == ClientState::Connected,
            attempt is Some ==> old(self)@.listeners[0].state is Compatible,
            attempt matches Some(attempt) ==> attempt.wf(),
        ensures
            final(self).wf(),
            final(self).config_spec() == old(self).config_spec(),
            match attempt {
                None => {
                    &&& result == Err::<PacketId, _>(SendError::NotConnected)
                    &&& final(self)@ == old(self)@
                },
                Some(attempt) => match attempt.outcome {
                    Ok(_) => {
                        &&& result == Ok::<_, SendError>(attempt.id)
                        &&& final(self)@ == (ClientView {
                            state: ClientState::Disconnecting,
                            ..old(self)@.with_buffers(
                                old(self)@.listeners[0].server_addr,
                                old(self)@.buffers_of(
                                    old(self)@.listeners[0].server_addr,
                                ).after_send(attempt, now),
                            )
                        })
                    },
                    Err(error) => {
                        &&& result == Err::<PacketId, _>(SendError::Io(error))
                        &&& final(self)@ == old(self)@.connection_lost()
                    },
                },
            },
    {
        match self.send(attempt, now) {
            Ok(id) => {
                self.state = ClientState::Disconnecting;
                Ok(id)
            },
            Err(error) => Err(error),
        }
    }

    fn lose_connection(&mut self)
        requires
            old(self).wf(),
            old(self)@.listeners.len() > 0,
        ensures
            final(self).wf(),
            final(self).config_spec() == old(self).config_spec(),
            final(self)@ == old(self)@.connection_lost(),
    {
        proof {
            let before = ClientView { state: ClientState::Disconnected, ..self@ };
            let addr = before.listeners[0].server_addr;
            assert(is_listener_at(before.listeners, addr, 0));
            assert(before.index_of(addr) == 0);
            law_forgotten(before, addr, addr);
        }
        let _listener = self.listeners.swap_remove(0);
        self.state = ClientState::Disconnected;
        assert(self@.listeners =~= old(self)@.connection_lost().listeners);
    }

    /// Starts updating a server that the client is listening to.
    ///
    /// - Times out old packets
    /// - (Re)Send pending packets including version queries
    pub fn start_update(&mut self, server_addr: SocketAddr, now: Instant) -> (task: ListenerTask)
        requires
            old(self).wf(),
            old(self)@.is_listening(server_addr),
        ensures
            final(self).wf(),
            final(self).config_spec() == old(self).config_spec(),
            is_update_step(old(self)@, final(self)@),
            ({
                let config = old(self).config_spec().connection;
                let listener = old(self)@.listener(server_addr);
                match listener.state {
                    ServerStateView::PendingVersion { .. } => {
                        &&& final(self)@ == old(self)@
                        &&& task == if listener.is_version_query_due(config.resend_delay, now) {
                            ListenerTask::VersionQuery
                        } else {
                            ListenerTask::Nothing
                        }
                    },
                    ServerStateView::Compatible { buffers, .. } => {
                        let known = buffers.after_timeout(
                            config.resend_delay,
                            config.max_missed_acks,
                            config.receive_timeout,
                            now,
                        );
                        &&& task matches ListenerTask::Packets(round)
                        &&& are_sorted_keys(round@, known.send.packets.dom())
                        &&& final(self)@ == old(self)@.with_buffers(
                            server_addr,
                            known.after_round_start(round@),
                        )
                    },
                    ServerStateView::Incompatible(_) => {
                        &&& final(self)@ == old(self)@
                        &&& task == ListenerTask::Nothing
                    },
                }
            }),
    {
        proof {
            lemma_update_steps(self@, server_addr);
        }
        let index: usize = self.position(server_addr).unwrap();
        let config = self.config;
        let task = self.listeners[index].start_update(&config, now);
        proof {
            let listener = self.listeners@[index as int]@;
            law_with(old(self)@, server_addr, listener, server_addr);
            assert(self@.listeners =~= old(self)@.with(server_addr, listener).listeners);
            assert(old(self)@.listeners =~= old(self)@.with(
                server_addr,
                old(self)@.listener(server_addr),
            ).listeners);
        }
        task
    }

    /// Concludes the update of a server after what had to be sent was attempted to be sent.
    ///
    /// The outcome is `Ok(false)` if the request for the version was not sent because the socket
    /// would block. The client stops listening to the server if there is an error, which also means
    /// that it is no longer connected to it.
    pub fn finish_update(
        &mut self,
        server_addr: SocketAddr,
        outcome: Result<bool, std::io::Error>,
        now: Instant,
    ) -> (result: Result<(), HandlerError>)
        requires
            old(self).wf(),
            old(self)@.is_listening(server_addr),
        ensures
            final(self).wf(),
            final(self).config_spec() == old(self).config_spec(),
            is_update_step(old(self)@, final(self)@),
            match outcome {
                Ok(sent) => {
                    &&& result == Ok::<(), HandlerError>(())
                    &&& final(self)@ == if sent && old(self)@.listener(
                        server_addr,
                    ).state is PendingVersion {
                        old(self)@.with(
                            server_addr,
                            ServerListenerView::new(server_addr, true, now),
                        )
                    } else {
                        old(self)@
                    }
                },
                Err(error) => {
                    &&& result == Err::<(), _>(
                        HandlerError::Send { receiver_addr: server_addr, error },
                    )
                    &&& final(self)@ == old(self)@.dropped(server_addr)
                },
            },
    {
        proof {
            lemma_update_steps(self@, server_addr);
        }
        let index: usize = self.position(server_addr).unwrap();
        let result = self.listeners[index].finish_update(outcome, now);
        proof {
            let listener = self.listeners@[index as int]@;
            law_with(old(self)@, server_addr, listener, server_addr);
            law_dropped(old(self)@, server_addr, server_addr);
            assert(self@.listeners =~= old(self)@.with(server_addr, listener).listeners);
            assert(old(self)@.listeners =~= old(self)@.with(
                server_addr,
                old(self)@.listener(server_addr),
            ).listeners);
        }
        if result.is_err() {
            if index == 0 && self.state != ClientState::Disconnected {
                self.state = ClientState::Disconnected;
            }
            let _listener = self.listeners.remove(index);
            assert(self@.listeners =~= old(self)@.dropped(server_addr).listeners);
        }
        result
    }

    /// Handles a datagram.
    pub fn handle_datagram<'a>(
        &'a mut self,
        server_addr: SocketAddr,
        buf: &'a [u8],
        now: Instant,
    ) -> (reaction: ClientReaction<'a>)
        requires
            old(self).wf(),
        ensures
            final(self).wf(),
            final(self).config_spec() == old(self).config_spec(),
            is_update_step(old(self)@, final(self)@),
            if !old(self)@.is_listening(server_addr) {
                &&& reaction == ClientReaction::<'a>::Unexpected(
                    UnexpectedServerPacket::UnknownServer,
                )
                &&& final(self)@ == old(self)@
            } else {
                let listener = old(self)@.listener(server_addr);
                match listener.state {
                    ServerStateView::PendingVersion { .. } => {
                        &&& final(self)@ == old(self)@
                        &&& if buf@.len() == 0 {
                            reaction == ClientReaction::<'a>::Unexpected(
                                UnexpectedServerPacket::Empty,
                            )
                        } else if kind_of(buf@) != Some(PacketKind::Version) {
                            reaction == ClientReaction::<'a>::Unexpected(
                                UnexpectedServerPacket::PendingCompatibility,
                            )
                        } else {
                            reaction matches ClientReaction::<'a>::Version(version) && version@
                                == buf@.skip(1)
                        }
                    },
                    ServerStateView::Compatible { buffers, .. } => {
                        let is_ping = old(self)@.is_connection(server_addr) && kind_of(buf@)
                            == Some(PacketKind::Ping);
                        &&& if !is_ping {
                            reaction matches ClientReaction::<'a>::Known(reaction) && is_reaction(
                                reaction,
                                server_addr,
                                buffers.handling(buf@),
                            )
                        } else if buf@.len() < SEQ_INDEX_START {
                            reaction == ClientReaction::<'a>::Known(
                                Reaction::<'a>::Error(
                                    HandlerError::Handle {
                                        sender_addr: server_addr,
                                        error: HandlePacketError::Malformed,
                                    },
                                ),
                            )
                        } else {
                            reaction matches ClientReaction::<'a>::Pong(pong) && pong@
                                == ping_datagram(id_of(buf@))
                        }
                        &&& final(self)@ == old(self)@.with(
                            server_addr,
                            ServerListenerView {
                                state: ServerStateView::Compatible {
                                    buffers: if is_ping {
                                        buffers
                                    } else {
                                        buffers.after_handling(buf@, now)
                                    },
                                    last_interaction: now,
                                },
                                ..listener
                            },
                        )
                    },
                    ServerStateView::Incompatible(_) => {
                        &&& final(self)@ == old(self)@
                        &&& reaction == ClientReaction::<'a>::Unexpected(
                            UnexpectedServerPacket::Incompatible,
                        )
                    },
                }
            },
    {
        proof {
            lemma_update_steps(self@, server_addr);
        }
        match self.compatibility(server_addr) {
            None => {
                return ClientReaction::Unexpected(UnexpectedServerPacket::UnknownServer);
            },
            Some(Compatibility::Pending) => {
                if buf.len() == 0 {
                    return ClientReaction::Unexpected(UnexpectedServerPacket::Empty);
                }
                return match PacketKind::from_byte(buf[0]) {
                    Some(PacketKind::Version) => ClientReaction::Version(
                        slice_subrange(buf, 1, buf.len()),
                    ),
                    _ => ClientReaction::Unexpected(UnexpectedServerPacket::PendingCompatibility),
                };
            },
            Some(Compatibility::Incompatible(_)) => {
                return ClientReaction::Unexpected(UnexpectedServerPacket::Incompatible);
            },
            Some(Compatibility::Compatible) => {},
        }
        if buf.len() > 0 && self.is_connection(server_addr) {
            if let Some(PacketKind::Ping) = PacketKind::from_byte(buf[0]) {
                self.interact(server_addr, now);
                return match read_id(buf) {
                    Some(ping_id) => ClientReaction::Pong(ping(ping_id)),
                    None => ClientReaction::Known(
                        Reaction::Error(
                            HandlerError::Handle {
                                sender_addr: server_addr,
                                error: HandlePacketError::Malformed,
                            },
                        ),
                    ),
                };
            }
        }
        ClientReaction::Known(self.handle_known(server_addr, buf, now))
    }

    /// Handles a datagram of a compatible server.
    fn handle_known<'a>(
        &'a mut self,
        server_addr: SocketAddr,
        buf: &'a [u8],
        now: Instant,
    ) -> (reaction: Reaction<'a>)
        requires
            old(self).wf(),
            old(self)@.is_compatible(server_addr),
        ensures
            final(self).wf(),
            final(self).config_spec() == old(self).config_spec(),
            is_reaction(reaction, server_addr, old(self)@.buffers_of(server_addr).handling(buf@)),
            final(self)@ == old(self)@.with(
                server_addr,
                ServerListenerView {
                    state: ServerStateView::Compatible {
                        buffers: old(self)@.buffers_of(server_addr).after_handling(buf@, now),
                        last_interaction: now,
                    },
                    ..old(self)@.listener(server_addr)
                },
            ),
    {
        self.interact(server_addr, now);
        handle_buffers(self.buffers_mut(server_addr).unwrap(), buf, server_addr, now)
    }

    /// Whether the client is connected to the given server, or trying to connect to or to disconnect
    /// from it.
    fn is_connection(&self, server_addr: SocketAddr) -> (connected: bool)
        requires
            self.wf(),
            self@.is_listening(server_addr),
        ensures
            connected == self@.is_connection(server_addr),
    {
        let index: usize = self.position(server_addr).unwrap();
        // if there is a connection, the first entry is the connected server
        index == 0 && self.state != ClientState::Disconnected
    }

    /// Remembers that something was received from a compatible server.
    fn interact(&mut self, server_addr: SocketAddr, now: Instant)
        requires
            old(self).wf(),
            old(self)@.is_compatible(server_addr),
        ensures
            final(self).wf(),
            final(self).config_spec() == old(self).config_spec(),
            final(self)@ == old(self)@.with(
                server_addr,
                ServerListenerView {
                    state: ServerStateView::Compatible {
                        buffers: old(self)@.buffers_of(server_addr),
                        last_interaction: now,
                    },
                    ..old(self)@.listener(server_addr)
                },
            ),
            final(self)@.is_compatible(server_addr),
            final(self)@.index_of(server_addr) == old(self)@.index_of(server_addr),
    {
        let index: usize = self.position(server_addr).unwrap();
        if let ServerState::Compatible { last_interaction, .. } = &mut self.listeners[index].state {
            *last_interaction = now;
        }
        proof {
            let listener = self.listeners@[index as int]@;
            law_with(old(self)@, server_addr, listener, server_addr);
            assert(self@.listeners =~= old(self)@.with(server_addr, listener).listeners);
        }
    }

    /// Handles the version of a server after an attempt to read it, and after it was checked whether
    /// the version is compatible if it could be read.
    ///
    /// The server's compatibility must be pending.
    pub fn resolve_version(
        &mut self,
        server_addr: SocketAddr,
        answer: Result<Result<(), P::CompatibilityError>, MalformedVersion>,
        now: Instant,
    ) -> (unexpected: Option<UnexpectedServerPacket>)
        requires
            old(self).wf(),
            old(self)@.is_listening(server_addr),
            old(self)@.listener(server_addr).state is PendingVersion,
        ensures
            final(self).wf(),
            final(self).config_spec() == old(self).config_spec(),
            is_update_step(old(self)@, final(self)@),
            match answer {
                Err(_) => {
                    &&& unexpected == Some(UnexpectedServerPacket::MalformedVersion)
                    &&& final(self)@ == old(self)@
                },
                Ok(Ok(_)) => {
                    &&& unexpected is None
                    &&& final(self)@ == old(self)@.with(
                        server_addr,
                        ServerListenerView {
                            server_addr,
                            state: ServerStateView::Compatible {
                                buffers: PacketBuffersView::new(
                                    old(
                                        self,
                                    ).config_spec().connection.initial_send_batch_size@ as int,
                                ),
                                last_interaction: now,
                            },
                        },
                    )
                },
                Ok(Err(error)) => {
                    &&& unexpected is None
                    &&& final(self)@ == old(self)@.with(
                        server_addr,
                        ServerListenerView {
                            server_addr,
                            state: ServerStateView::Incompatible(error),
                        },
                    )
                },
            },
    {
        proof {
            lemma_update_steps(self@, server_addr);
        }
        let state = match answer {
            Err(_) => {
                return Some(UnexpectedServerPacket::MalformedVersion);
            },
            Ok(Ok(())) => ServerState::Compatible {
                buffers: PacketBuffers::new(self.config.connection.initial_send_batch_size),
                last_interaction: now,
            },
            Ok(Err(error)) => ServerState::Incompatible(error),
        };
        let index: usize = self.position(server_addr).unwrap();
        self.listeners[index].state = state;
        proof {
            let listener = self.listeners@[index as int]@;
            law_with(old(self)@, server_addr, listener, server_addr);
            assert(self@.listeners =~= old(self)@.with(server_addr, listener).listeners);
        }
        None
    }

    /// Handles a packet of a server that the client is listening to.
    pub fn handle_packet(&mut self, server_addr: SocketAddr, kind: ServerPacketKind) -> (reaction:
        ServerPacketReaction)
        requires
            old(self).wf(),
            old(self)@.is_listening(server_addr),
        ensures
            final(self).wf(),
            final(self).config_spec() == old(self).config_spec(),
            is_update_step(old(self)@, final(self)@),
            match state_after_packet(
                old(self)@.state,
                old(self)@.is_connection(server_addr),
                kind,
            ) {
                Some(state) => {
                    &&& reaction == ServerPacketReaction::Deliver
                    &&& final(self)@ == (ClientView { state, ..old(self)@ })
                },
                None => {
                    &&& reaction == ServerPacketReaction::Unexpected(
                        UnexpectedServerPacket::NotConnected,
                    )
                    &&& final(self)@ == old(self)@
                },
            },
    {
        proof {
            lemma_update_steps(self@, server_addr);
        }
        let is_connection = self.is_connection(server_addr);
        let is_expected = match kind {
            ServerPacketKind::Status => true,
            ServerPacketKind::Accept | ServerPacketKind::Reject => is_connection && self.state
                == ClientState::Connecting,
            ServerPacketKind::Kick | ServerPacketKind::User => is_connection && self.state
                == ClientState::Connected,
        };
        if !is_expected {
            return ServerPacketReaction::Unexpected(UnexpectedServerPacket::NotConnected);
        }
        match kind {
            ServerPacketKind::Accept => {
                self.state = ClientState::Connected;
            },
            ServerPacketKind::Reject | ServerPacketKind::Kick => {
                self.state = ClientState::Disconnected;
            },
            ServerPacketKind::Status | ServerPacketKind::User => {},
        }
        ServerPacketReaction::Deliver
    }

    /// Disconnects and stops listening to all servers, since nothing can be received anymore.
    pub fn receive_failed(&mut self, error: std::io::Error) -> (reported: HandlerError)
        requires
            old(self).wf(),
        ensures
            final(self).wf(),
            final(self).config_spec() == old(self).config_spec(),
            is_update_step(old(self)@, final(self)@),
            final(self)@ == (ClientView::<P::CompatibilityError> {
                state: ClientState::Disconnected,
                listeners: Seq::empty(),
            }),
            reported == HandlerError::Recv(error),
    {
        proof {
            lemma_update_step(self@, ClientStep::Fail);
        }
        self.state = ClientState::Disconnected;
        self.forget_all();
        HandlerError::Recv(error)
    }

    /// Reports a compatible server from which nothing was received for too long, and disconnects if
    /// it is the one that the client is connected to.
    ///
    /// The compatibility has to be refreshed in that case.
    pub fn timeout_connection(&mut self, server_addr: SocketAddr, now: Instant) -> (error: Option<
        HandlerError,
    >)
        requires
            old(self).wf(),
            old(self)@.is_listening(server_addr),
        ensures
            final(self).wf(),
            final(self).config_spec() == old(self).config_spec(),
            is_update_step(old(self)@, final(self)@),
            if old(self)@.listener(server_addr).is_timed_out(
                old(self).config_spec().timeout,
                now,
            ) {
                &&& error == Some(HandlerError::Timeout { peer_addr: server_addr })
                &&& final(self)@ == if old(self)@.is_connection(server_addr) {
                    ClientView { state: ClientState::Disconnected, ..old(self)@ }
                } else {
                    old(self)@
                }
            } else {
                &&& error is None
                &&& final(self)@ == old(self)@
            },
    {
        proof {
            lemma_update_steps(self@, server_addr);
        }
        let index: usize = self.position(server_addr).unwrap();
        let is_timed_out = match (&self.listeners[index].state, self.config.timeout) {
            (ServerState::Compatible { last_interaction, .. }, Some(timeout)) => {
                last_interaction.elapsed(now).nanos > timeout.nanos
            },
            _ => false,
        };
        if is_timed_out {
            if self.is_connection(server_addr) {
                self.state = ClientState::Disconnected;
            }
            Some(HandlerError::Timeout { peer_addr: server_addr })
        } else {
            None
        }
    }

    /// Resets the compatibility of a server after an attempt to request its version.
    pub fn refresh(
        &mut self,
        server_addr: SocketAddr,
        outcome: Result<bool, std::io::Error>,
        now: Instant,
    ) -> (result: Result<(), HandlerError>)
        requires
            old(self).wf(),
            old(self)@.is_listening(server_addr),
        ensures
            final(self).wf(),
            final(self).config_spec() == old(self).config_spec(),
            is_update_step(old(self)@, final(self)@),
            match outcome {
                Ok(sent) => {
                    &&& result == Ok::<(), HandlerError>(())
                    &&& final(self)@ == old(self)@.with(
                        server_addr,
                        ServerListenerView::new(server_addr, sent, now),
                    )
                },
                Err(error) => {
                    &&& result == Err::<(), _>(
                        HandlerError::Send { receiver_addr: server_addr, error },
                    )
                    &&& final(self)@ == old(self)@
                },
            },
    {
        proof {
            lemma_update_steps(self@, server_addr);
        }
        let index: usize = self.position(server_addr).unwrap();
        let result = self.listeners[index].refresh(outcome, now);
        proof {
            let listener = self.listeners@[index as int]@;
            law_with(old(self)@, server_addr, listener, server_addr);
            assert(self@.listeners =~= old(self)@.with(server_addr, listener).listeners);
            assert(old(self)@.listeners =~= old(self)@.with(
                server_addr,
                old(self)@.listener(server_addr),
            ).listeners);
        }
        match result {
            Ok(()) => Ok(()),
            Err(error) => Err(HandlerError::Send { receiver_addr: server_addr, error }),
        }
    }
}

/// The compatibility tells exactly what is known about a server.
pub proof fn law_compatibility<'a, P: Packets>(
    compatibility: Compatibility<'a, P>,
    listener: ServerListenerView<P::CompatibilityError>,
)
    requires
        is_compatibility_of(compatibility, listener),
    ensures
        compatibility is Pending <==> listener.state is PendingVersion,
        compatibility is Compatible <==> listener.state is Compatible,
        listener.state matches ServerStateView::Incompatible(error) ==> (
        compatibility matches Compatibility::Incompatible(reported) && *reported == error),
{
}

} // verus!
