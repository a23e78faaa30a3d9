//! The packets that server and client communicate with.

use vstd::prelude::*;

pub mod aligned;
pub mod buffer;
pub mod buffers;
pub mod chunk_bits;
pub mod error;
pub mod id;
pub mod parts;
pub mod queue;
pub mod receive;
pub mod receive_buffer;
pub mod round;
pub mod send;
pub mod send_buffer;
pub mod serialize;
pub mod wire;

pub use self::buffers::{PacketBuffers, PacketHandling, SendAttempt};
pub use self::error::{
    HandlePacketError, InvalidDonePacketId, MalformedVersion, NoUpdateError, PacketAckError,
    PacketAckErrorKind, PacketReceiveError, PacketReceiveErrorKind, SeqIndexAckedBeforeSent,
    SeqIndexOutOfRange,
};
pub use self::id::PacketId;
pub use self::receive_buffer::{PacketInStats, PendingAck, ReceivedPacketHandling};
pub use self::round::Round;
pub use self::send_buffer::SentPacketHandling;
pub use self::wire::PacketKind;
use self::wire::kind_of;
use crate::bytes::extend;
use std::convert::Infallible;
use vstd::slice::slice_subrange;

verus! {

/// The maximum size of a packet.
pub const PACKET_BUFFER_SIZE: usize = 512;

/// The max size for the data section of a packet, i.e. without the single kind byte.
pub const PACKET_DATA_SIZE: usize = 511;

pub type NonZeroBufferIndex = crate::nonzero::NonZeroU16;

pub type BufferIndex = u16;

pub type NonZeroBatchSize = crate::nonzero::NonZeroU16;

pub type BatchSize = u16;

/// Can store a single sequence index.
pub type SeqIndex = u32;

/// Various packet types that are used by server and client to communicate with each other.
pub trait Packets: 'static {
    /// Sent out by the server upon the client requesting its version by sending an empty packet.
    ///
    /// Used to determine if the client and server are compatible in terms of packets.
    ///
    /// It is highly recommended for the layout of this packet to either not change or at least be
    /// backward/forward compatible. By doing so, there will be no false positives when checking
    /// compatibility and it also allows for nicer error messages in the case of incompatibility.
    ///
    /// I.e. if the layout changes, the client can no longer know the exact version of the server
    /// or (while unlikely) it might even interpret an incompatible version packet as being
    /// compatible to its own version.
    type Version: VersionPacket;

    /// Contains additional information in case of a version mismatch.
    type CompatibilityError;

    /// Sent out by the client to query status information from a server.
    ///
    /// Can also be used to discover servers by sending a broadcast.
    type Query: Packet;

    /// Sent out by the server in response to a status query request.
    type Status: Packet;

    /// Sent out by the client in an attempt to connect to a server, followed up by accept/reject.
    type Connect: Packet;

    /// Sent out by the client to notify the server that it has disconnected.
    type Disconnect: Packet;

    /// Sent out by the server to notify a client that it has been accepted and is now connected.
    type Accept: Packet;

    /// Sent out by the server to notify a client that it has been rejected.
    type Reject: Packet;

    /// Sent out by the server to notify a client that it has been kicked and is now disconnected.
    type Kick: Packet;

    /// User-defined packet sent by the server.
    type Server: Packet;

    /// User-defined packet sent by the client.
    type Client: Packet;

    /// User-defined update packet sent by the server.
    type ServerUpdate: UpdatePacket;

    /// User-defined update packet sent by the client.
    type ClientUpdate: UpdatePacket;
}

/// Anything that can be sent reliably.
pub trait Packet: Send + 'static {

}

impl<T: Send + 'static> Packet for T {

}

/// Contains only the necessary packets to establish a connection between server and client.
pub struct DefaultPackets;

impl Packets for DefaultPackets {
    type Version = ();

    type CompatibilityError = Infallible;

    type Query = ();

    type Status = ();

    type Connect = ();

    type Disconnect = ();

    type Accept = ();

    type Reject = ();

    type Kick = ();

    type Server = NoPacket;

    type Client = NoPacket;

    type ServerUpdate = NoPacket;

    type ClientUpdate = NoPacket;
}

/// Server packets for dealing with client connections.
pub enum ServerConnectionPacket<P: Packets> {
    Status(P::Status),
    Accept(P::Accept),
    Reject(P::Reject),
    Kick(P::Kick),
    User(P::Server),
}

/// Client packets for establishing a server connection.
pub enum ClientConnectionPacket<P: Packets> {
    Query(P::Query),
    Connect(P::Connect),
    Disconnect(P::Disconnect),
    User(P::Client),
}

/// Version information of a server.
pub trait VersionPacket: Sized {
    /// Whether the given bytes are what this version can be written as, which is left open unless
    /// it is specified.
    open spec fn writes(&self, bytes: Seq<u8>) -> bool {
        true
    }

    /// Writes version information to the given buffer.
    ///
    /// Returns the number of bytes written, which must be at most [`PACKET_DATA_SIZE`].
    fn write(&self, buf: &mut [u8]) -> (len: usize)
        requires
            old(buf)@.len() == PACKET_DATA_SIZE,
        ensures
            len <= PACKET_DATA_SIZE,
            final(buf)@.len() == old(buf)@.len(),
            self.writes(final(buf)@.take(len as int)),
    ;

    /// Tries to read version information from the given buffer.
    fn read(buf: &[u8]) -> Result<Self, MalformedVersion>;
}

/// Does not contain any version information but only accepts empty packets in response as well.
impl VersionPacket for () {
    open spec fn writes(&self, bytes: Seq<u8>) -> bool {
        bytes.len() == 0
    }

    fn write(&self, _buf: &mut [u8]) -> (len: usize)
        ensures
            len == 0,
            final(_buf)@ == old(_buf)@,
    {
        0
    }

    fn read(buf: &[u8]) -> (result: Result<Self, MalformedVersion>)
        ensures
            result == if buf@.len() == 0 {
                Ok(())
            } else {
                Err(MalformedVersion)
            },
    {
        if buf.len() == 0 {
            Ok(())
        } else {
            Err(MalformedVersion)
        }
    }
}

/// Packets for things that constantly change, which means it's okay if some are dropped.
///
/// These packets must fit into a single datagram.
pub trait UpdatePacket: Sized {
    type ReadError;

    /// The size of the packet, which must be at most [`PACKET_BUFFER_SIZE`].
    ///
    /// Used as an upfront check to see if the packet might fit in the remaining buffer.
    fn len(&self) -> (len: NonZeroBufferIndex)
        ensures
            len@ <= PACKET_BUFFER_SIZE,
    ;

    /// Writes exactly [`UpdatePacket::len()`] bytes to the given buffer.
    ///
    /// Panics if the buffer is too small.
    fn write(&self, buf: &mut [u8])
        requires
            forall|len: NonZeroBufferIndex| #[trigger]
                call_ensures(Self::len, (self,), len) ==> len@ <= old(buf)@.len(),
        ensures
            final(buf)@.len() == old(buf)@.len(),
            forall|len: NonZeroBufferIndex| #[trigger]
                call_ensures(Self::len, (self,), len) ==> final(buf)@.skip(len@ as int) == old(
                    buf,
                )@.skip(len@ as int),
    ;

    /// Tries to read a packet from the given buffer.
    ///
    /// The returned value can be used to get the number of read bytes via [`UpdatePacket::len()`].
    fn read(buf: &[u8]) -> Result<Self, Self::ReadError>;
}

/// A packet that does not exist.
#[derive(Clone, Copy, Debug, Hash, PartialEq, Eq)]
pub struct NoPacket {
    never: Infallible,
}

/// What a packet that does not exist looks like when it is received.
#[derive(Clone, Copy, Debug, Hash, PartialEq, Eq)]
pub struct ArchivedNoPacket {
    never: Infallible,
}

/// Since there are no such packets, none of them is ever asked for its size or written.
impl UpdatePacket for NoPacket {
    type ReadError = NoUpdateError;

    fn len(&self) -> NonZeroBufferIndex {
        NonZeroBufferIndex::min_value()
    }

    fn write(&self, _buf: &mut [u8]) {
    }

    fn read(_buf: &[u8]) -> (result: Result<Self, NoUpdateError>)
        ensures
            result == Err::<Self, _>(NoUpdateError),
    {
        Err(NoUpdateError)
    }
}

/// What a server responds with when its version is requested.
pub open spec fn version_datagram(version: Seq<u8>) -> Seq<u8> {
    seq![PacketKind::Version.byte()] + version
}

/// What is written into a version packet can be read from it.
pub proof fn law_version_datagram(version: Seq<u8>)
    ensures
        kind_of(version_datagram(version)) == Some(PacketKind::Version),
        version_datagram(version).skip(1) == version,
{
    assert(version_datagram(version).skip(1) =~= version);
}

/// What a server responds with when its version is requested, which is the given version.
pub fn version_response(version: &[u8]) -> (datagram: Vec<u8>)
    ensures
        datagram@ == version_datagram(version@),
{
    let mut datagram: Vec<u8> = Vec::new();
    datagram.push(PacketKind::Version.to_byte());
    extend(&mut datagram, version);
    assert(datagram@ =~= version_datagram(version@));
    datagram
}

/// What a server responds with when its version is requested.
///
/// What stands behind the kind is what the version packet writes.
pub fn send_version<V: VersionPacket>(version: &V) -> (datagram: Vec<u8>)
    ensures
        1 <= datagram@.len() <= PACKET_BUFFER_SIZE,
        kind_of(datagram@) == Some(PacketKind::Version),
        exists|bytes: Seq<u8>| #[trigger]
            version.writes(bytes) && datagram@ == version_datagram(bytes),
{
    let mut buf: [u8; PACKET_DATA_SIZE] = [0; PACKET_DATA_SIZE];
    let len: usize = version.write(&mut buf);
    assert(version.writes(buf@.take(len as int)));
    version_response(slice_subrange(&buf, 0, len))
}

} // verus!
