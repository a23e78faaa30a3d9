//! What servers and clients have in common.

use vstd::prelude::*;

pub mod client;
pub mod listeners;
pub mod server;

use crate::packet::buffers::PacketHandlingView;
use crate::packet::receive::ReceivedPacket;
use crate::packet::{
    HandlePacketError, PacketBuffers, PacketHandling, PacketReceiveError, PacketReceiveErrorKind,
    PendingAck,
};
use crate::time::Instant;

verus! {

/// The address of a peer.
#[allow(inconsistent_fields)]
#[derive(Clone, Copy, Debug, Hash, PartialEq, Eq, Structural)]
pub enum SocketAddr {
    V4 {
        /// The four bytes of the address as one number, with the most significant byte first.
        ip: u32,
        port: u16,
    },
    V6 {
        /// The sixteen bytes of the address as one number, with the most significant byte first.
        ip: u128,
        port: u16,
        flowinfo: u32,
        scope_id: u32,
    },
}

/// Informs about a datagram that was received from a peer.
#[derive(Clone, Copy, Debug, Hash, PartialEq, Eq, Structural)]
pub enum RawPacket {
    /// A part of a packet was received.
    Part {
        /// The sender of this packet part.
        sender_addr: SocketAddr,
        /// Information about the received part.
        info: PartInfo,
    },
    /// The sender will no longer send updates for this packet.
    ///
    /// Either because the packet was fully acked by the receiver, or because the sender is no
    /// longer interested in the client receiving this packet and canceled it.
    Done {
        /// The sender of this packet part.
        sender_addr: SocketAddr,
        /// Whether the receiver was aware of this packets existence.
        ///
        /// This can be `false` if the receiver never received any of the part packets before the
        /// sender canceled the packet altogether.
        known_packet: bool,
    },
    /// A part of a sent packet was acked by its receiver.
    Ack {
        /// The receiver who acked this packet part.
        receiver_addr: SocketAddr,
        /// Whether the receiver has already acked this packet before, which can happen, if e.g. the
        /// sender had resent this part even though the client received it the first time and just
        /// acked it very late.
        duplicate: bool,
    },
}

#[derive(Clone, Copy, Debug, Hash, PartialEq, Eq, Structural)]
pub enum PartInfo {
    /// A new part was received, but the packet is not yet fully reassembled.
    Pending,
    /// This was the last packet that was required to fully reassemble the packet.
    Reassembled,
    /// This part was already received before, which can happen if the corresponding `ack` did
    /// not reach the sender.
    ///
    /// Can still happen even after the packet has been reassembled.
    Duplicate,
}

/// Something that went wrong while communicating with peers.
#[allow(inconsistent_fields)]
#[derive(Debug)]
pub enum HandlerError {
    /// Receiving a datagram failed.
    Recv(std::io::Error),
    /// Sending a datagram failed.
    Send { receiver_addr: SocketAddr, error: std::io::Error },
    /// A packet could be reassembled, but it is not valid.
    PacketValidation { sender_addr: SocketAddr },
    /// A datagram could not be handled.
    Handle { sender_addr: SocketAddr, error: HandlePacketError },
    /// Nothing was received from a peer for too long.
    Timeout { peer_addr: SocketAddr },
}

/// A connection handler that simply ignores all packets.
///
/// For servers, returns a default status and accepts all clients.
#[derive(Clone, Copy, Debug, Default, Hash, PartialEq, Eq)]
pub struct DefaultConnectionHandler;

/// A connection handler that logs all events to `stdout`.
#[derive(Clone, Copy, Debug, Default, Hash, PartialEq, Eq)]
pub struct BasicLogConnectionHandler;

/// What has to be done with a datagram of a known peer.
pub enum Reaction<'a> {
    /// The error has to be reported.
    Error(HandlerError),
    /// The datagram has to be reported.
    Raw(RawPacket),
    /// The part has to be acked.
    Ack(PendingAck<'a>),
}

/// Whether the reaction is the right one for what came of a datagram.
pub open spec fn is_reaction<'a>(
    reaction: Reaction<'a>,
    addr: SocketAddr,
    handling: Result<PacketHandlingView, HandlePacketError>,
) -> bool {
    match handling {
        Err(error) => reaction == Reaction::<'a>::Error(
            HandlerError::Handle { sender_addr: addr, error },
        ),
        Ok(PacketHandlingView::Done { known_packet }) => reaction == Reaction::<'a>::Raw(
            RawPacket::Done { sender_addr: addr, known_packet },
        ),
        Ok(PacketHandlingView::Ack { duplicate }) => reaction == Reaction::<'a>::Raw(
            RawPacket::Ack { receiver_addr: addr, duplicate },
        ),
        Ok(PacketHandlingView::Received { id, seq_index, received }) => reaction matches Reaction::<
            'a,
        >::Ack(pending) && pending.id == id && pending.seq_index == seq_index
            && pending.received@ == received,
    }
}

/// Handles a datagram of a known peer.
pub fn handle_buffers<'a>(
    buffers: &'a mut PacketBuffers,
    buf: &'a [u8],
    addr: SocketAddr,
    now: Instant,
) -> (reaction: Reaction<'a>)
    requires
        old(buffers).wf(),
    ensures
        final(buffers).wf(),
        final(buffers)@ == old(buffers)@.after_handling(buf@, now),
        is_reaction(reaction, addr, old(buffers)@.handling(buf@)),
{
    match buffers.handle(buf, now) {
        Ok(PacketHandling::Received(pending)) => Reaction::Ack(pending),
        Ok(PacketHandling::Done { known_packet }) => Reaction::Raw(
            RawPacket::Done { sender_addr: addr, known_packet },
        ),
        Ok(PacketHandling::Ack { duplicate }) => Reaction::Raw(
            RawPacket::Ack { receiver_addr: addr, duplicate },
        ),
        Err(error) => Reaction::Error(HandlerError::Handle { sender_addr: addr, error }),
    }
}

/// What has to be done with a part after the attempt to ack it.
pub enum ReceivedPart<'a> {
    /// The error has to be reported.
    Error(HandlerError),
    /// The datagram has to be reported.
    Raw(RawPacket),
    /// The datagram has to be reported, and the bytes of a whole packet have to be validated.
    Packet(RawPacket, &'a [u8]),
}

/// Concludes the attempt to ack a part.
///
/// The outcome is `Ok(false)` if the ack was not sent because the socket would block.
pub fn conclude_ack<'a>(
    pending: PendingAck<'a>,
    outcome: Result<bool, std::io::Error>,
    addr: SocketAddr,
) -> (part: ReceivedPart<'a>)
    ensures
        match outcome {
            Err(error) => part == ReceivedPart::<'a>::Error(
                HandlerError::Handle {
                    sender_addr: addr,
                    error: HandlePacketError::Receive(
                        PacketReceiveError {
                            id: pending.id,
                            kind: PacketReceiveErrorKind::Io(error),
                        },
                    ),
                },
            ),
            Ok(_) => match pending.received {
                ReceivedPacket::Pending => part == ReceivedPart::<'a>::Raw(
                    RawPacket::Part { sender_addr: addr, info: PartInfo::Pending },
                ),
                ReceivedPacket::Duplicate => part == ReceivedPart::<'a>::Raw(
                    RawPacket::Part { sender_addr: addr, info: PartInfo::Duplicate },
                ),
                ReceivedPacket::Reassembled(bytes) => part == ReceivedPart::<'a>::Packet(
                    RawPacket::Part { sender_addr: addr, info: PartInfo::Reassembled },
                    bytes,
                ),
            },
        },
{
    match pending.conclude(outcome) {
        Err(error) => ReceivedPart::Error(
            HandlerError::Handle { sender_addr: addr, error: HandlePacketError::Receive(error) },
        ),
        Ok(ReceivedPacket::Pending) => ReceivedPart::Raw(
            RawPacket::Part { sender_addr: addr, info: PartInfo::Pending },
        ),
        Ok(ReceivedPacket::Duplicate) => ReceivedPart::Raw(
            RawPacket::Part { sender_addr: addr, info: PartInfo::Duplicate },
        ),
        Ok(ReceivedPacket::Reassembled(bytes)) => ReceivedPart::Packet(
            RawPacket::Part { sender_addr: addr, info: PartInfo::Reassembled },
            bytes,
        ),
    }
}

/// A datagram is reported together with the peer that it came from and with what came of it, and a part
/// is to be acked under its own id and sequence index.
pub proof fn law_reaction<'a>(
    reaction: Reaction<'a>,
    addr: SocketAddr,
    handling: Result<PacketHandlingView, HandlePacketError>,
)
    requires
        is_reaction(reaction, addr, handling),
    ensures
        reaction is Error <==> handling is Err,
        reaction matches Reaction::Error(error) ==> (
        error matches HandlerError::Handle { sender_addr, error } && sender_addr == addr && handling
            == Err::<PacketHandlingView, _>(error)),
        reaction matches Reaction::Raw(raw) ==> match raw {
            RawPacket::Done { sender_addr, known_packet } => sender_addr == addr && handling
                == Ok::<_, HandlePacketError>(PacketHandlingView::Done { known_packet }),
            RawPacket::Ack { receiver_addr, duplicate } => receiver_addr == addr && handling
                == Ok::<_, HandlePacketError>(PacketHandlingView::Ack { duplicate }),
            RawPacket::Part { .. } => false,
        },
        reaction matches Reaction::Ack(pending) ==> handling == Ok::<_, HandlePacketError>(
            PacketHandlingView::Received {
                id: pending.id,
                seq_index: pending.seq_index,
                received: pending.received@,
            },
        ),
{
}

} // verus!
