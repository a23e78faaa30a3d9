//! What datagrams look like.
//!
//! A datagram starts with a single byte for its [`PacketKind`]. The ones that belong to a packet
//! continue with the id of that packet, and the ones that belong to a single part of it continue
//! with the sequence index of that part. Everything else is payload.

use vstd::prelude::*;

use super::id::{law_id_bytes, PacketId};
use super::SeqIndex;
use crate::bytes::{
    be_value, extend, le_bytes, le_value, lemma_le_value_of_bytes, u32_from_le_bytes,
    u32_to_le_bytes,
};
use vstd::slice::slice_subrange;

verus! {

/// The first byte of a datagram.
#[derive(Clone, Copy, Debug, Hash, PartialEq, Eq, PartialOrd, Ord, Structural)]
pub enum PacketKind {
    /// Used to check for compatibility between client and server.
    ///
    /// - A client sends out an empty packet to a server to request its version.
    /// - A server, in turn, responds with a version packet.
    Version,
    /// Sent out periodically by the server, expecting the client to respond to it.
    ///
    /// - If a server doesn't get a pong for a long time, that client gets timed out.
    /// - If a client doesn't receive a ping from the server, it also times out.
    ///
    /// Pongs use the same kind. It is simply considered a "pong" when sent by a client.
    ///
    /// Every new ping packet also contains a freshly generated id that must be provided in the pong
    /// packet to prevent clients from faking their ping times by sending pongs before a ping.
    Ping,
    /// A part of a reliable packet.
    Part,
    /// The last part of a reliable packet.
    LastPart,
    /// Confirms that a reliable packet (or part) has been received.
    Ack,
    /// Confirms that all acks of a reliable packet were received by the sender.
    ///
    /// This allows the receiver to forget this id, since the sender guarantees to never send a
    /// packet with this id again.
    Done,
    /// Not a packet kind, but instead marks the start of the first update packet.
    FirstUpdate,
}

impl PacketKind {
    /// The byte that stands for this kind.
    pub open spec fn byte(self) -> u8 {
        match self {
            PacketKind::Version => 0,
            PacketKind::Ping => 1,
            PacketKind::Part => 2,
            PacketKind::LastPart => 3,
            PacketKind::Ack => 4,
            PacketKind::Done => 5,
            PacketKind::FirstUpdate => 6,
        }
    }

    /// The kind that the given byte stands for, if there is one.
    pub open spec fn of_byte(byte: u8) -> Option<PacketKind> {
        match byte {
            0 => Some(PacketKind::Version),
            1 => Some(PacketKind::Ping),
            2 => Some(PacketKind::Part),
            3 => Some(PacketKind::LastPart),
            4 => Some(PacketKind::Ack),
            5 => Some(PacketKind::Done),
            6 => Some(PacketKind::FirstUpdate),
            _ => None,
        }
    }

    pub fn to_byte(self) -> (byte: u8)
        ensures
            byte == self.byte(),
    {
        match self {
            PacketKind::Version => 0,
            PacketKind::Ping => 1,
            PacketKind::Part => 2,
            PacketKind::LastPart => 3,
            PacketKind::Ack => 4,
            PacketKind::Done => 5,
            PacketKind::FirstUpdate => 6,
        }
    }

    pub fn from_byte(byte: u8) -> (kind: Option<PacketKind>)
        ensures
            kind == PacketKind::of_byte(byte),
    {
        match byte {
            0 => Some(PacketKind::Version),
            1 => Some(PacketKind::Ping),
            2 => Some(PacketKind::Part),
            3 => Some(PacketKind::LastPart),
            4 => Some(PacketKind::Ack),
            5 => Some(PacketKind::Done),
            6 => Some(PacketKind::FirstUpdate),
            _ => None,
        }
    }
}

/// Where the sequence index starts, which is behind kind and id.
pub const SEQ_INDEX_START: usize = 17;

/// Where the payload of a part starts, which is behind kind, id and sequence index.
pub const PAYLOAD_START: usize = 21;

/// How much payload a part packet can hold at most.
///
/// Everything except kind, id and sequence index.
pub const PART_PACKET_PAYLOAD_SIZE: usize = 491;

/// Kind and id.
pub open spec fn header(kind: PacketKind, id: PacketId) -> Seq<u8> {
    seq![kind.byte()] + id.bytes()
}

/// Everything in front of the payload of a part.
pub open spec fn part_header(last: bool, id: PacketId, seq_index: SeqIndex) -> Seq<u8> {
    header(
        if last {
            PacketKind::LastPart
        } else {
            PacketKind::Part
        },
        id,
    ) + le_bytes(seq_index)
}

/// A part of a packet.
pub open spec fn part_datagram(
    last: bool,
    id: PacketId,
    seq_index: SeqIndex,
    payload: Seq<u8>,
) -> Seq<u8> {
    part_header(last, id, seq_index) + payload
}

/// Confirms that a part has been received.
pub open spec fn ack_datagram(id: PacketId, seq_index: SeqIndex) -> Seq<u8> {
    header(PacketKind::Ack, id) + le_bytes(seq_index)
}

/// Confirms that all acks of a packet have been received.
pub open spec fn done_datagram(id: PacketId) -> Seq<u8> {
    header(PacketKind::Done, id)
}

/// Asks a client to respond with the same datagram.
pub open spec fn ping_datagram(id: PacketId) -> Seq<u8> {
    header(PacketKind::Ping, id)
}

/// The kind of a datagram, if there is one.
pub open spec fn kind_of(datagram: Seq<u8>) -> Option<PacketKind> {
    if datagram.len() == 0 {
        None
    } else {
        PacketKind::of_byte(datagram[0])
    }
}

/// The id in a datagram that is long enough to contain one.
pub open spec fn id_of(datagram: Seq<u8>) -> PacketId {
    PacketId { value: be_value(datagram.subrange(1, SEQ_INDEX_START as int)) as u128 }
}

/// The sequence index in a datagram that is long enough to contain one.
pub open spec fn seq_index_of(datagram: Seq<u8>) -> SeqIndex {
    le_value(datagram.subrange(SEQ_INDEX_START as int, PAYLOAD_START as int))
}

/// The payload in a datagram that is long enough to be a part.
pub open spec fn payload_of(datagram: Seq<u8>) -> Seq<u8> {
    datagram.skip(PAYLOAD_START as int)
}

/// Reads the id of a datagram, which fails if the datagram ends before that.
pub fn read_id(datagram: &[u8]) -> (result: Option<PacketId>)
    ensures
        result is Some <==> datagram@.len() >= SEQ_INDEX_START,
        result matches Some(id) ==> id == id_of(datagram@),
{
    if datagram.len() < SEQ_INDEX_START {
        None
    } else {
        PacketId::from_slice(slice_subrange(datagram, 1, SEQ_INDEX_START))
    }
}

/// Reads the sequence index of a datagram, which fails if the datagram ends before that.
pub fn read_seq_index(datagram: &[u8]) -> (result: Option<SeqIndex>)
    ensures
        result is Some <==> datagram@.len() >= PAYLOAD_START,
        result matches Some(seq_index) ==> seq_index == seq_index_of(datagram@),
{
    if datagram.len() < PAYLOAD_START {
        None
    } else {
        Some(u32_from_le_bytes(datagram, SEQ_INDEX_START))
    }
}

fn write_header(kind: PacketKind, id: PacketId) -> (bytes: Vec<u8>)
    ensures
        bytes@ == header(kind, id),
{
    let mut bytes: Vec<u8> = Vec::new();
    bytes.push(kind.to_byte());
    extend(&mut bytes, &id.as_bytes());
    assert(bytes@ =~= header(kind, id));
    bytes
}

/// Everything in front of the payload of a part that is not the last one.
pub fn write_part_header(id: PacketId, seq_index: SeqIndex) -> (bytes: Vec<u8>)
    ensures
        bytes@ == part_header(false, id, seq_index),
        bytes@.len() == PAYLOAD_START,
{
    let mut bytes = write_header(PacketKind::Part, id);
    extend(&mut bytes, &u32_to_le_bytes(seq_index));
    proof {
        law_id_bytes(id, id);
    }
    bytes
}

/// Confirms that a part has been received.
pub fn ack(id: PacketId, seq_index: SeqIndex) -> (bytes: Vec<u8>)
    ensures
        bytes@ == ack_datagram(id, seq_index),
{
    let mut bytes = write_header(PacketKind::Ack, id);
    extend(&mut bytes, &u32_to_le_bytes(seq_index));
    bytes
}

/// Confirms that all acks of a packet have been received.
pub fn done(id: PacketId) -> (bytes: Vec<u8>)
    ensures
        bytes@ == done_datagram(id),
{
    write_header(PacketKind::Done, id)
}

/// Asks a client to respond with the same datagram, or responds to that.
pub fn ping(id: PacketId) -> (bytes: Vec<u8>)
    ensures
        bytes@ == ping_datagram(id),
{
    write_header(PacketKind::Ping, id)
}

/// The byte of a kind stands for that kind, and no byte stands for two of them.
pub proof fn law_kind_bytes(kind: PacketKind, byte: u8)
    ensures
        PacketKind::of_byte(kind.byte()) == Some(kind),
        PacketKind::of_byte(byte) == Some(kind) <==> byte == kind.byte(),
{
}

/// What is written into a part can be read from it.
pub proof fn law_part_datagram(last: bool, id: PacketId, seq_index: SeqIndex, payload: Seq<u8>)
    ensures
        ({
            let datagram = part_datagram(last, id, seq_index, payload);
            &&& datagram.len() == PAYLOAD_START + payload.len()
            &&& kind_of(datagram) == Some(
                if last {
                    PacketKind::LastPart
                } else {
                    PacketKind::Part
                },
            )
            &&& id_of(datagram) == id
            &&& seq_index_of(datagram) == seq_index
            &&& payload_of(datagram) == payload
        }),
{
    let datagram = part_datagram(last, id, seq_index, payload);
    law_id_bytes(id, id);
    lemma_le_value_of_bytes(seq_index);
    assert(datagram.subrange(1, SEQ_INDEX_START as int) =~= id.bytes());
    assert(datagram.subrange(SEQ_INDEX_START as int, PAYLOAD_START as int) =~= le_bytes(seq_index));
    assert(payload_of(datagram) =~= payload);
}

/// What is written into an ack can be read from it.
pub proof fn law_ack_datagram(id: PacketId, seq_index: SeqIndex)
    ensures
        ({
            let datagram = ack_datagram(id, seq_index);
            &&& datagram.len() == PAYLOAD_START
            &&& kind_of(datagram) == Some(PacketKind::Ack)
            &&& id_of(datagram) == id
            &&& seq_index_of(datagram) == seq_index
        }),
{
    let datagram = ack_datagram(id, seq_index);
    law_id_bytes(id, id);
    lemma_le_value_of_bytes(seq_index);
    assert(datagram.subrange(1, SEQ_INDEX_START as int) =~= id.bytes());
    assert(datagram.subrange(SEQ_INDEX_START as int, PAYLOAD_START as int) =~= le_bytes(seq_index));
}

/// What is written into a ping can be read from it.
pub proof fn law_ping_datagram(id: PacketId)
    ensures
        ({
            let datagram = ping_datagram(id);
            &&& datagram.len() == SEQ_INDEX_START
            &&& kind_of(datagram) == Some(PacketKind::Ping)
            &&& id_of(datagram) == id
        }),
{
    law_id_bytes(id, id);
    assert(ping_datagram(id).subrange(1, SEQ_INDEX_START as int) =~= id.bytes());
}

/// What is written into a done packet can be read from it.
pub proof fn law_done_datagram(id: PacketId)
    ensures
        ({
            let datagram = done_datagram(id);
            &&& datagram.len() == SEQ_INDEX_START
            &&& kind_of(datagram) == Some(PacketKind::Done)
            &&& id_of(datagram) == id
        }),
{
    law_id_bytes(id, id);
    assert(done_datagram(id).subrange(1, SEQ_INDEX_START as int) =~= id.bytes());
}

} // verus!
