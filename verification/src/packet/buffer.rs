//! Buffers for single datagrams.

use vstd::prelude::*;

use super::aligned::{array_bytes, array_default, array_slice, array_write};
use super::id::PacketId;
use super::wire::{
    part_header, seq_index_of, write_part_header, PacketKind, PAYLOAD_START, SEQ_INDEX_START,
};
use super::{BufferIndex, SeqIndex, PACKET_BUFFER_SIZE};
use crate::bytes::{le_bytes, u32_from_le_bytes, u32_to_le_bytes};
use rkyv::AlignedBytes;
use vstd::slice::slice_subrange;

verus! {

/// A datagram, and whether its receiver has acked it.
#[verifier::ext_equal]
pub struct PacketBufferView {
    pub acked: bool,
    pub bytes: Seq<u8>,
}

/// A datagram that has not been acked yet.
pub open spec fn unacked(bytes: Seq<u8>) -> PacketBufferView {
    PacketBufferView { acked: false, bytes }
}

/// Datagrams that have not been acked yet.
pub open spec fn all_unacked(datagrams: Seq<Seq<u8>>) -> Seq<PacketBufferView> {
    Seq::new(datagrams.len(), |i: int| unacked(datagrams[i]))
}

/// The views of all the buffers.
pub open spec fn buffer_views(buffers: Seq<PacketBuffer>) -> Seq<PacketBufferView> {
    Seq::new(buffers.len(), |i: int| buffers[i]@)
}

/// Whether all the buffers are well-formed.
pub open spec fn all_wf(buffers: Seq<PacketBuffer>) -> bool {
    forall|i: int| 0 <= i < buffers.len() ==> (#[trigger] buffers[i]).wf()
}

/// Room for a single datagram.
pub struct PacketBuffer {
    acked: bool,
    len: BufferIndex,
    data: AlignedBytes<PACKET_BUFFER_SIZE>,
}

impl View for PacketBuffer {
    type V = PacketBufferView;

    closed spec fn view(&self) -> PacketBufferView {
        PacketBufferView {
            acked: self.acked,
            bytes: array_bytes(self.data).take(self.len as int),
        }
    }
}

/// How many of the given number of bytes fit behind those that are already there.
pub open spec fn fitting(len: int, count: int) -> int {
    if len + count <= PACKET_BUFFER_SIZE {
        count
    } else {
        PACKET_BUFFER_SIZE - len
    }
}

impl PacketBuffer {
    pub closed spec fn wf(&self) -> bool {
        &&& self.len <= PACKET_BUFFER_SIZE
        &&& array_bytes(self.data).len() == PACKET_BUFFER_SIZE
    }

    /// All the memory of the buffer, of which only the beginning is used.
    pub closed spec fn memory(&self) -> Seq<u8> {
        array_bytes(self.data)
    }

    /// The used bytes are the beginning of the memory.
    pub proof fn lemma_memory(&self)
        requires
            self.wf(),
        ensures
            self.memory().len() == PACKET_BUFFER_SIZE,
            self@.bytes.len() <= PACKET_BUFFER_SIZE,
            self@.bytes == self.memory().take(self@.bytes.len() as int),
    {
    }

    /// An empty buffer.
    pub fn empty() -> (buffer: Self)
        ensures
            buffer.wf(),
            buffer@ == unacked(Seq::empty()),
    {
        let buffer = PacketBuffer { acked: false, len: 0, data: array_default() };
        assert(buffer@.bytes =~= Seq::empty());
        buffer
    }

    /// The first part of a packet, without any payload.
    pub fn new(id: PacketId) -> (buffer: Self)
        ensures
            buffer.wf(),
            buffer@ == unacked(part_header(false, id, 0)),
    {
        let mut buffer = PacketBuffer::empty();
        let header = write_part_header(id, 0);
        let _rest = buffer.append(header.as_slice());
        assert(buffer@.bytes =~= part_header(false, id, 0));
        buffer
    }

    /// Removes all the bytes.
    pub fn clear(&mut self)
        requires
            old(self).wf(),
        ensures
            final(self).wf(),
            final(self)@ == (PacketBufferView { bytes: Seq::empty(), ..old(self)@ }),
            final(self).memory() == old(self).memory(),
    {
        self.len = 0;
        assert(self@.bytes =~= Seq::empty());
    }

    /// Appends as much as fits and returns what does not.
    pub fn append<'a>(&mut self, data: &'a [u8]) -> (rest: &'a [u8])
        requires
            old(self).wf(),
        ensures
            final(self).wf(),
            final(self)@ == (PacketBufferView {
                bytes: old(self)@.bytes + data@.take(
                    fitting(old(self)@.bytes.len() as int, data@.len() as int),
                ),
                ..old(self)@
            }),
            rest@ == data@.skip(fitting(old(self)@.bytes.len() as int, data@.len() as int)),
    {
        let end: usize = self.len as usize;
        let room: usize = PACKET_BUFFER_SIZE - end;
        let count: usize = if data.len() <= room {
            data.len()
        } else {
            room
        };
        let new_end: usize = end + count;
        let ghost before = array_bytes(self.data);
        array_write(&mut self.data, end, new_end, slice_subrange(data, 0, count));
        self.len = new_end as u16;
        proof {
            assert(array_bytes(self.data).take(new_end as int) =~= before.take(end as int)
                + data@.take(count as int));
        }
        slice_subrange(data, count, data.len())
    }

    /// Makes room for as much as fits without storing it and returns what does not fit.
    pub fn skip<'a>(&mut self, data: &'a [u8]) -> (rest: &'a [u8])
        requires
            old(self).wf(),
        ensures
            final(self).wf(),
            final(self).memory() == old(self).memory(),
            final(self)@.acked == old(self)@.acked,
            final(self)@.bytes == old(self).memory().take(
                old(self)@.bytes.len() + fitting(old(self)@.bytes.len() as int, data@.len() as int),
            ),
            rest@ == data@.skip(fitting(old(self)@.bytes.len() as int, data@.len() as int)),
    {
        let end: usize = self.len as usize;
        let room: usize = PACKET_BUFFER_SIZE - end;
        let count: usize = if data.len() <= room {
            data.len()
        } else {
            room
        };
        self.len = (end + count) as u16;
        slice_subrange(data, count, data.len())
    }

    /// Marks this part as the last one of its packet.
    pub fn mark_last(&mut self)
        requires
            old(self).wf(),
            old(self)@.bytes.len() > 0,
        ensures
            final(self).wf(),
            final(self)@ == (PacketBufferView {
                bytes: old(self)@.bytes.update(0, PacketKind::LastPart.byte()),
                ..old(self)@
            }),
    {
        let kind: [u8; 1] = [PacketKind::LastPart.to_byte()];
        let ghost before = self@.bytes;
        array_write(&mut self.data, 0, 1, &kind);
        assert(self@.bytes =~= before.update(0, PacketKind::LastPart.byte()));
    }

    /// Turns this into the next part of the same packet, without any payload.
    pub fn next(&mut self)
        requires
            old(self).wf(),
            old(self)@.bytes.len() >= PAYLOAD_START,
            seq_index_of(old(self)@.bytes) < SeqIndex::MAX,
        ensures
            final(self).wf(),
            final(self)@ == (PacketBufferView {
                bytes: next_header(old(self)@.bytes),
                ..old(self)@
            }),
    {
        let ghost before = self@.bytes;
        let seq_index: SeqIndex = self.seq_index();
        array_write(
            &mut self.data,
            SEQ_INDEX_START,
            PAYLOAD_START,
            &u32_to_le_bytes(seq_index + 1),
        );
        self.len = PAYLOAD_START as u16;
        assert(self@.bytes =~= next_header(before));
    }

    /// The next part of the same packet, without any payload.
    pub fn new_next(&self) -> (buffer: Self)
        requires
            self.wf(),
            self@.bytes.len() >= PAYLOAD_START,
            seq_index_of(self@.bytes) < SeqIndex::MAX,
        ensures
            buffer.wf(),
            buffer@ == unacked(next_header(self@.bytes)),
    {
        let mut buffer = PacketBuffer::empty();
        let _rest = buffer.append(slice_subrange(self.as_bytes(), 0, PAYLOAD_START));
        let ghost before = buffer@.bytes;
        proof {
            assert(before =~= self@.bytes.take(PAYLOAD_START as int));
            assert(before.subrange(SEQ_INDEX_START as int, PAYLOAD_START as int)
                =~= self@.bytes.subrange(SEQ_INDEX_START as int, PAYLOAD_START as int));
            assert(before.take(SEQ_INDEX_START as int) =~= self@.bytes.take(
                SEQ_INDEX_START as int,
            ));
        }
        buffer.next();
        buffer
    }

    /// The sequence index of the part.
    fn seq_index(&self) -> (seq_index: SeqIndex)
        requires
            self.wf(),
            self@.bytes.len() >= PAYLOAD_START,
        ensures
            seq_index == seq_index_of(self@.bytes),
    {
        assert(self@.bytes.subrange(SEQ_INDEX_START as int, PAYLOAD_START as int)
            =~= array_bytes(self.data).subrange(SEQ_INDEX_START as int, PAYLOAD_START as int));
        u32_from_le_bytes(array_slice(&self.data), SEQ_INDEX_START)
    }

    /// A buffer with the same bytes.
    pub fn copy(&self) -> (buffer: Self)
        requires
            self.wf(),
        ensures
            buffer.wf(),
            buffer@ == self@,
    {
        let mut buffer = PacketBuffer { acked: self.acked, len: self.len, data: array_default() };
        array_write(&mut buffer.data, 0, self.len as usize, self.as_bytes());
        assert(buffer@.bytes =~= self@.bytes);
        buffer
    }

    /// Takes over the bytes of another buffer, as well as whether it is acked.
    pub fn copy_from(&mut self, source: &Self)
        requires
            old(self).wf(),
            source.wf(),
        ensures
            final(self).wf(),
            final(self)@ == source@,
    {
        self.acked = source.acked;
        self.len = source.len;
        array_write(&mut self.data, 0, source.len as usize, source.as_bytes());
        assert(self@.bytes =~= source@.bytes);
    }

    /// All the used bytes, which is what gets sent.
    pub fn as_bytes(&self) -> (bytes: &[u8])
        requires
            self.wf(),
        ensures
            bytes@ == self@.bytes,
    {
        let bytes = slice_subrange(array_slice(&self.data), 0, self.len as usize);
        assert(bytes@ =~= self@.bytes);
        bytes
    }

    /// Whether the receiver has acked this.
    pub fn is_acked(&self) -> (acked: bool)
        ensures
            acked == self@.acked,
    {
        self.acked
    }

    /// Remembers that the receiver has acked this and returns whether it already had before.
    pub fn set_acked(&mut self) -> (before: bool)
        requires
            old(self).wf(),
        ensures
            final(self).wf(),
            final(self)@ == (PacketBufferView { acked: true, ..old(self)@ }),
            before == old(self)@.acked,
    {
        let before = self.acked;
        self.acked = true;
        before
    }
}

/// The header of the part that follows the given one.
pub open spec fn next_header(bytes: Seq<u8>) -> Seq<u8> {
    bytes.take(SEQ_INDEX_START as int) + le_bytes((seq_index_of(bytes) + 1) as u32)
}

/// Buffers are seen as each of them is, in their order, and datagrams start out without being acked.
pub proof fn law_buffer_views(buffers: Seq<PacketBuffer>, datagrams: Seq<Seq<u8>>, i: int)
    ensures
        buffer_views(buffers).len() == buffers.len(),
        0 <= i < buffers.len() ==> buffer_views(buffers)[i] == buffers[i]@,
        all_unacked(datagrams).len() == datagrams.len(),
        0 <= i < datagrams.len() ==> all_unacked(datagrams)[i].bytes == datagrams[i]
            && !all_unacked(datagrams)[i].acked,
{
}

/// As much is appended as there are bytes and as fits.
pub proof fn law_fitting(len: int, count: int)
    requires
        0 <= len <= 512,
        0 <= count,
    ensures
        len + count <= 512 ==> fitting(len, count) == count,
        len + count > 512 ==> len + fitting(len, count) == 512,
{
}

} // verus!
