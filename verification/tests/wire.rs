use ultinet::bytes::{extend, u32_from_le_bytes, u32_to_le_bytes};
use ultinet::nonzero::{NonZeroU16, NonZeroUsize};
use ultinet::packet::buffer::PacketBuffer;
use ultinet::packet::wire::{ack, done, ping, read_id, read_seq_index, write_part_header, PacketKind};
use ultinet::packet::{
    send_version, version_response, MalformedVersion, NoPacket, NoUpdateError, PacketId,
    UpdatePacket, VersionPacket,
};
use ultinet::time::{Duration, Instant};

fn id() -> PacketId {
    PacketId { value: 0x0102_0304_0506_0708_090a_0b0c_0d0e_0f10 }
}

const ID_BYTES: [u8; 16] = [1, 2, 3, 4, 5, 6, 7, 8, 9, 10, 11, 12, 13, 14, 15, 16];

#[test]
fn kinds_have_fixed_bytes() {
    let kinds = [
        PacketKind::Version,
        PacketKind::Ping,
        PacketKind::Part,
        PacketKind::LastPart,
        PacketKind::Ack,
        PacketKind::Done,
        PacketKind::FirstUpdate,
    ];
    for (byte, kind) in kinds.into_iter().enumerate() {
        assert_eq!(kind.to_byte() as usize, byte);
        assert_eq!(PacketKind::from_byte(byte as u8), Some(kind));
    }
    for byte in 7..=255 {
        assert_eq!(PacketKind::from_byte(byte), None);
    }
}

#[test]
fn ids_are_big_endian() {
    assert_eq!(id().as_bytes(), ID_BYTES);
    assert_eq!(PacketId::from_slice(&ID_BYTES), Some(id()));
    assert_eq!(PacketId::from_slice(&ID_BYTES[1..]), None);
    assert_eq!(PacketId::from_slice(&[0; 17]), None);
}

#[test]
fn new_ids_are_random_uuids() {
    let id = PacketId::new();
    let bytes = id.as_bytes();
    assert_eq!(bytes[6] >> 4, 4);
    assert_eq!(bytes[8] >> 6, 2);
    assert_ne!(id, PacketId::new());
    assert_eq!(PacketId::from_slice(&bytes), Some(id));
}

#[test]
fn ids_are_ordered_like_their_bytes() {
    let small = PacketId { value: 1 };
    let big = PacketId { value: 1 << 120 };
    assert!(small < big);
    assert!(small.as_bytes() < big.as_bytes());
}

#[test]
fn numbers_are_little_endian() {
    assert_eq!(u32_to_le_bytes(0x0102_0304), [4, 3, 2, 1]);
    assert_eq!(u32_from_le_bytes(&[9, 4, 3, 2, 1], 1), 0x0102_0304);
    assert_eq!(u32_from_le_bytes(&u32_to_le_bytes(u32::MAX), 0), u32::MAX);
    let mut bytes = vec![1];
    extend(&mut bytes, &[2, 3]);
    assert_eq!(bytes, [1, 2, 3]);
}

#[test]
fn ack_layout() {
    let datagram = ack(id(), 0x0201);
    let mut expected = vec![4];
    expected.extend_from_slice(&ID_BYTES);
    expected.extend_from_slice(&[1, 2, 0, 0]);
    assert_eq!(datagram, expected);
    assert_eq!(read_id(&datagram), Some(id()));
    assert_eq!(read_seq_index(&datagram), Some(0x0201));
    assert_eq!(read_seq_index(&datagram[..20]), None);
}

#[test]
fn done_layout() {
    let datagram = done(id());
    let mut expected = vec![5];
    expected.extend_from_slice(&ID_BYTES);
    assert_eq!(datagram, expected);
    assert_eq!(read_id(&datagram), Some(id()));
    assert_eq!(read_id(&datagram[..16]), None);
}

#[test]
fn ping_layout() {
    let datagram = ping(id());
    assert_eq!(datagram[0], 1);
    assert_eq!(datagram[1..], ID_BYTES);
    assert_eq!(read_id(&datagram), Some(id()));
}

#[test]
fn part_header_layout() {
    let header = write_part_header(id(), 258);
    let mut expected = vec![2];
    expected.extend_from_slice(&ID_BYTES);
    expected.extend_from_slice(&[2, 1, 0, 0]);
    assert_eq!(header, expected);
}

#[test]
fn buffers_take_what_fits() {
    let mut buffer = PacketBuffer::new(id());
    assert_eq!(buffer.as_bytes().len(), 21);
    let data: Vec<u8> = (0..500).map(|i| i as u8).collect();
    let rest = buffer.append(&data);
    assert_eq!(rest, &data[491..]);
    assert_eq!(buffer.as_bytes().len(), 512);
    assert_eq!(&buffer.as_bytes()[21..], &data[..491]);
    assert_eq!(buffer.append(&data).len(), 500);

    let next = buffer.new_next();
    assert_eq!(next.as_bytes(), write_part_header(id(), 1).as_slice());

    let copy = buffer.copy();
    assert_eq!(copy.as_bytes(), buffer.as_bytes());

    buffer.next();
    buffer.mark_last();
    assert_eq!(buffer.as_bytes()[0], 3);
    assert_eq!(&buffer.as_bytes()[1..], &write_part_header(id(), 1)[1..]);

    assert!(!buffer.set_acked());
    assert!(buffer.set_acked());
    let mut other = PacketBuffer::empty();
    assert_eq!(other.as_bytes(), &[] as &[u8]);
    other.copy_from(&buffer);
    assert!(other.is_acked());
    assert_eq!(other.as_bytes(), buffer.as_bytes());
    other.clear();
    assert_eq!(other.as_bytes(), &[] as &[u8]);
}

#[test]
fn skipping_only_makes_room() {
    let mut buffer = PacketBuffer::empty();
    let rest = buffer.skip(&[7; 600]);
    assert_eq!(rest.len(), 88);
    assert_eq!(buffer.as_bytes(), &[0; 512]);
}

struct Text(&'static [u8]);

impl VersionPacket for Text {
    fn write(&self, buf: &mut [u8]) -> usize {
        buf[..self.0.len()].copy_from_slice(self.0);
        self.0.len()
    }

    fn read(_buf: &[u8]) -> Result<Self, MalformedVersion> {
        Err(MalformedVersion)
    }
}

#[test]
fn version_packets() {
    assert_eq!(version_response(&[7, 8]), [0, 7, 8]);
    assert_eq!(send_version(&()), [0]);
    assert_eq!(send_version(&Text(b"1.2")), *b"\x001.2");
    assert_eq!(<() as VersionPacket>::read(&[]), Ok(()));
    assert_eq!(<() as VersionPacket>::read(&[0]), Err(MalformedVersion));
}

#[test]
fn there_are_no_update_packets() {
    assert_eq!(NoPacket::read(&[6]), Err(NoUpdateError));
}

#[test]
fn non_zero_numbers() {
    assert!(NonZeroU16::new(0).is_none());
    assert!(NonZeroUsize::new(0).is_none());
    assert_eq!(NonZeroUsize::new(3).unwrap().get(), 3);
    let number = NonZeroU16::new(40000).unwrap();
    let two = NonZeroU16::new(2).unwrap();
    assert_eq!(number.saturating_mul(two).get(), 65535);
    assert_eq!(two.saturating_mul(two).get(), 4);
    assert_eq!(number.max(two).get(), 40000);
    assert_eq!(two.max(number).get(), 40000);
    assert_eq!(NonZeroU16::min_value().get(), 1);
}

#[test]
fn time_is_counted_in_nanoseconds() {
    assert_eq!(Duration::from_secs(3).nanos, 3_000_000_000);
    assert_eq!(Duration::from_millis(5).nanos, 5_000_000);
    let start = Instant { nanos: 10 };
    assert_eq!(start.elapsed(Instant { nanos: 15 }), Duration { nanos: 5 });
    assert_eq!(start.elapsed(Instant { nanos: 3 }), Duration { nanos: 0 });
}
