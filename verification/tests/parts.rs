use ultinet::nonzero::NonZeroUsize;
use ultinet::packet::buffer::PacketBuffer;
use ultinet::packet::receive::{ReassembledPacket, ReceivedPacket};
use ultinet::packet::serialize::{
    finish_serialization, serialize_packet, start_serialization, ChannelPacketSerializer,
    SerializedPacket, VecPacketSerializer,
};
use ultinet::packet::PacketId;

fn id() -> PacketId {
    PacketId { value: 7 }
}

fn bytes(len: usize) -> Vec<u8> {
    (0..len).map(|i| (i * 31 + i / 256) as u8).collect()
}

fn datagrams(parts: &[PacketBuffer]) -> Vec<Vec<u8>> {
    parts.iter().map(|part| part.as_bytes().to_vec()).collect()
}

/// The parts that a packet is expected to be split into.
fn expected_parts(bytes: &[u8]) -> Vec<Vec<u8>> {
    let mut chunks: Vec<&[u8]> = bytes.chunks(491).collect();
    if chunks.is_empty() {
        chunks.push(&[]);
    }
    let count = chunks.len();
    chunks
        .into_iter()
        .enumerate()
        .map(|(index, chunk)| {
            let mut datagram = vec![if index + 1 == count { 3 } else { 2 }];
            datagram.extend_from_slice(&7u128.to_be_bytes());
            datagram.extend_from_slice(&(index as u32).to_le_bytes());
            datagram.extend_from_slice(chunk);
            datagram
        })
        .collect()
}

fn split(bytes: &[u8], threshold: usize) -> (bool, Vec<Vec<u8>>) {
    match serialize_packet(id(), threshold, bytes) {
        SerializedPacket::Vec(parts) => (false, datagrams(&parts)),
        SerializedPacket::Channel(packet) => {
            assert_eq!(packet.already_serialized.len(), threshold);
            (true, datagrams(&packet.into_parts(bytes)))
        }
    }
}

#[test]
fn packets_are_split_into_parts() {
    for len in [0, 1, 490, 491, 492, 981, 982, 983, 4910] {
        let bytes = bytes(len);
        let (background, parts) = split(&bytes, 100);
        assert!(!background);
        assert_eq!(parts, expected_parts(&bytes));
    }
}

#[test]
fn big_packets_are_split_in_the_background() {
    let bytes = bytes(491 * 3 + 1);
    for threshold in 0..=5 {
        let (background, parts) = split(&bytes, threshold);
        assert_eq!(background, threshold < 4);
        assert_eq!(parts, expected_parts(&bytes));
    }
}

#[test]
fn empty_packets_can_be_split_in_the_background() {
    let (background, parts) = split(&[], 0);
    assert!(background);
    assert_eq!(parts, expected_parts(&[]));
}

#[test]
fn writes_are_concatenated() {
    let bytes = bytes(2000);
    let mut serializer = VecPacketSerializer::new(id(), NonZeroUsize::new(5).unwrap());
    assert_eq!(serializer.pos(), 0);
    for piece in bytes.chunks(77) {
        assert!(serializer.write(piece).is_ok());
        assert_eq!(serializer.pos(), 0);
    }
    assert!(serializer.write(&[]).is_ok());
    assert_eq!(datagrams(&serializer.finish()), expected_parts(&bytes));
}

#[test]
fn giving_up_returns_filled_parts() {
    let bytes = bytes(491 * 2 + 1);
    let mut serializer = start_serialization(id(), 2).unwrap();
    assert!(serializer.write(&bytes[..491 * 2]).is_ok());
    let Err(parts) = serializer.write(&bytes[491 * 2..]) else {
        panic!("should be too much");
    };
    assert_eq!(datagrams(&parts), expected_parts(&bytes)[..2]);

    let SerializedPacket::Channel(packet) = finish_serialization(id(), Some(Err(parts))) else {
        panic!("should be in the background");
    };
    assert_eq!(datagrams(&packet.into_parts(&bytes)), expected_parts(&bytes));
    assert!(start_serialization(id(), 0).is_none());
}

#[test]
fn parts_are_made_one_at_a_time() {
    let bytes = bytes(491 * 3);
    let mut serializer = ChannelPacketSerializer::new(id(), 1);
    assert_eq!(serializer.pos(), 0);
    let (rest, part) = serializer.write_some(&bytes);
    assert_eq!(rest.len(), 491 * 2);
    assert!(part.is_none());
    // the first part is skipped
    let (rest, part) = serializer.write_some(rest);
    assert_eq!(rest.len(), 491);
    assert!(part.is_none());
    let (rest, part) = serializer.write_some(rest);
    assert_eq!(rest.len(), 0);
    assert_eq!(part.unwrap().as_bytes(), expected_parts(&bytes)[1]);
    let (rest, part) = serializer.write_some(rest);
    assert!(rest.is_empty() && part.is_none());
    assert_eq!(serializer.pos(), 0);
    assert_eq!(serializer.finish().as_bytes(), expected_parts(&bytes)[2]);
}

fn receive(packet: &mut ReassembledPacket, datagram: &[u8]) -> Option<Option<Vec<u8>>> {
    let seq_index = u32::from_le_bytes(datagram[17..21].try_into().unwrap());
    match packet.receive(datagram[0] == 3, seq_index, &datagram[21..]) {
        ReceivedPacket::Pending => Some(None),
        ReceivedPacket::Duplicate => None,
        ReceivedPacket::Reassembled(bytes) => Some(Some(bytes.to_vec())),
    }
}

#[test]
fn parts_can_arrive_in_any_order() {
    let bytes = bytes(491 * 4 + 100);
    let parts = expected_parts(&bytes);
    let mut packet = ReassembledPacket::new();
    for index in [4, 0, 2] {
        assert_eq!(receive(&mut packet, &parts[index]), Some(None));
        assert_eq!(receive(&mut packet, &parts[index]), None);
    }
    assert_eq!(receive(&mut packet, &parts[3]), Some(None));
    assert_eq!(receive(&mut packet, &parts[1]), Some(Some(bytes.clone())));
    assert_eq!(packet.payload(), bytes);
    for part in &parts {
        assert_eq!(receive(&mut packet, part), None);
    }
}

#[test]
fn many_parts_are_reassembled() {
    let bytes = bytes(491 * 1000 + 3);
    let parts = expected_parts(&bytes);
    let mut packet = ReassembledPacket::new();
    // more than enough for received chunks to be forgotten
    for part in &parts[..600] {
        assert_eq!(receive(&mut packet, part), Some(None));
    }
    for part in &parts[..600] {
        assert_eq!(receive(&mut packet, part), None);
    }
    for part in parts[601..].iter().rev() {
        assert_eq!(receive(&mut packet, part), Some(None));
    }
    assert_eq!(receive(&mut packet, &parts[600]), Some(Some(bytes)));
}

#[test]
fn gaps_are_filled_with_zeros() {
    let mut packet = ReassembledPacket::new();
    assert_eq!(receive(&mut packet, &expected_parts(&bytes(500))[1]), Some(None));
    assert_eq!(&packet.payload()[..491], &[0; 491]);
    assert_eq!(packet.payload().len(), 500);
}
