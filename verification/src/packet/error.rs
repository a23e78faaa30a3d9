//! What can go wrong when handling packets.

use vstd::prelude::*;

use super::id::PacketId;
use super::SeqIndex;

verus! {

/// `std::io::Error`, which is what sending a datagram can fail with.
#[verifier::external_type_specification]
#[verifier::external_body]
pub struct ExIoError(std::io::Error);

/// The version packet of a server could not be read.
#[derive(Clone, Copy, Debug, PartialEq, Eq, Structural)]
pub struct MalformedVersion;

/// An update packet was received even though there are none.
#[derive(Clone, Copy, Debug, PartialEq, Eq, Structural)]
pub struct NoUpdateError;

/// An ack could not be handled.
#[derive(Clone, Copy, Debug, PartialEq, Eq, Structural)]
pub struct PacketAckError {
    pub id: PacketId,
    pub kind: PacketAckErrorKind,
}

#[derive(Clone, Copy, Debug, PartialEq, Eq, Structural)]
pub enum PacketAckErrorKind {
    /// There is no packet with this id.
    InvalidPacketId,
    /// There is no such part.
    SeqIndexOutOfRange(SeqIndexOutOfRange),
    /// The part has not been sent yet.
    SeqIndexAckedBeforeSent(SeqIndexAckedBeforeSent),
}

/// A done packet has an id that does not exist.
#[derive(Clone, Copy, Debug, PartialEq, Eq, Structural)]
pub struct InvalidDonePacketId {
    pub id: PacketId,
}

/// A received datagram could not be handled.
#[derive(Debug)]
pub enum HandlePacketError {
    /// There is not even a kind.
    Empty,
    /// The datagram ends too early.
    Malformed,
    Receive(PacketReceiveError),
    Ack(PacketAckError),
    Done(InvalidDonePacketId),
    Io(std::io::Error),
    /// Nobody is interested in datagrams that start with this byte.
    UnexpectedKind(u8),
    /// The reassembled packet is not valid.
    Validation,
}

/// A part could not be handled.
#[derive(Debug)]
pub struct PacketReceiveError {
    pub id: PacketId,
    pub kind: PacketReceiveErrorKind,
}

#[derive(Debug)]
pub enum PacketReceiveErrorKind {
    /// A packet with this id already exists with a different type.
    Mismatch,
    /// There cannot be a packet that is big enough for this part.
    SeqIndexOutOfRange(SeqIndexOutOfRange),
    /// The ack could not be sent.
    Io(std::io::Error),
}

/// The packet sequence index is out of range.
#[derive(Clone, Copy, Debug, PartialEq, Eq, Structural)]
pub struct SeqIndexOutOfRange {
    pub seq_index: SeqIndex,
    pub seq_max: SeqIndex,
}

/// The packet sequence index got acked before it was sent.
#[derive(Clone, Copy, Debug, PartialEq, Eq, Structural)]
pub struct SeqIndexAckedBeforeSent {
    pub seq_index: SeqIndex,
}

} // verus!
