//! The ids by which both sides know a packet.

use vstd::prelude::*;

use crate::bytes::{
    be_bytes, be_value, lemma_be_bytes_len, lemma_be_bytes_of_value, lemma_be_value_of_bytes,
    lemma_u128_fits,
};
use uuid::Uuid;

verus! {

/// How many bytes a packet id takes up in a datagram.
pub const PACKET_ID_SIZE: usize = 16;

/// `Uuid::new_v4` followed by `Uuid::as_u128`: a random number with the version and the variant of
/// a random UUID in it. Nothing else is known of it.
#[verifier::external_body]
fn random_uuid() -> (value: u128)
    ensures
        value / 0x1000_0000_0000_0000_0000 % 16 == 4,
        value / 0x4000_0000_0000_0000 % 4 == 2,
{
    Uuid::new_v4().as_u128()
}

/// `Uuid::from_u128` followed by `Uuid::into_bytes`: the sixteen bytes of the number, with the most
/// significant byte first.
#[verifier::external_body]
fn uuid_to_bytes(value: u128) -> (bytes: [u8; 16])
    ensures
        bytes@ == be_bytes(value as nat, 16),
{
    Uuid::from_u128(value).into_bytes()
}

/// `Uuid::from_slice` followed by `Uuid::as_u128`: succeeds for exactly sixteen bytes, which are
/// read with the most significant byte first.
#[verifier::external_body]
fn uuid_from_slice(bytes: &[u8]) -> (result: Option<u128>)
    ensures
        result is Some <==> bytes@.len() == 16,
        result matches Some(value) ==> value == be_value(bytes@),
{
    Uuid::from_slice(bytes).ok().map(|uuid| uuid.as_u128())
}

/// Identifies a packet.
///
/// Ids are ordered like the bytes that they consist of.
#[derive(Clone, Copy, Debug, Hash, PartialEq, Eq, PartialOrd, Ord, Structural)]
pub struct PacketId {
    /// The bytes of the id as one number, with the most significant byte first.
    pub value: u128,
}

impl PacketId {
    /// The bytes that stand for this id in a datagram.
    pub open spec fn bytes(self) -> Seq<u8> {
        be_bytes(self.value as nat, 16)
    }

    /// Whether this has the version and the variant of a random UUID.
    pub open spec fn is_random(self) -> bool {
        &&& self.value / 0x1000_0000_0000_0000_0000 % 16 == 4
        &&& self.value / 0x4000_0000_0000_0000 % 4 == 2
    }

    /// Creates a random id.
    pub fn new() -> (id: Self)
        ensures
            id.is_random(),
    {
        PacketId { value: random_uuid() }
    }

    pub fn as_bytes(&self) -> (bytes: [u8; 16])
        ensures
            bytes@ == self.bytes(),
            bytes@.len() == PACKET_ID_SIZE,
    {
        uuid_to_bytes(self.value)
    }

    /// Only succeeds for exactly sixteen bytes.
    pub fn from_slice(bytes: &[u8]) -> (result: Option<Self>)
        ensures
            result is Some <==> bytes@.len() == PACKET_ID_SIZE,
            result matches Some(id) ==> id.bytes() == bytes@,
            result matches Some(id) ==> id.value == be_value(bytes@),
    {
        proof {
            lemma_be_bytes_of_value(bytes@);
        }
        match uuid_from_slice(bytes) {
            Some(value) => Some(PacketId { value }),
            None => None,
        }
    }
}

/// An id is determined by its bytes, of which there are always sixteen.
pub proof fn law_id_bytes(a: PacketId, b: PacketId)
    ensures
        a.bytes().len() == PACKET_ID_SIZE,
        be_value(a.bytes()) == a.value,
        a.bytes() == b.bytes() ==> a == b,
{
    lemma_u128_fits();
    lemma_be_bytes_len(a.value as nat, 16);
    lemma_be_value_of_bytes(a.value as nat, 16);
    lemma_be_value_of_bytes(b.value as nat, 16);
}

} // verus!
