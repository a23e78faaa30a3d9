//! Splitting serialized packets into parts.

use vstd::prelude::*;

use super::id::{law_id_bytes, PacketId};
use super::parts::{
    chunk, lemma_chunk_lens, open_part, packet_parts, part, part_count, MAX_PART_COUNT,
};
use super::buffer::{
    all_unacked, all_wf, buffer_views, next_header, unacked, PacketBuffer,
};
use super::wire::{
    law_part_datagram, part_header, seq_index_of, PacketKind, PART_PACKET_PAYLOAD_SIZE,
    PAYLOAD_START, SEQ_INDEX_START,
};
use super::{SeqIndex, PACKET_BUFFER_SIZE};
use crate::nonzero::NonZeroUsize;

verus! {

/// Appending to the part that is currently being written.
proof fn lemma_append(id: PacketId, written: Seq<u8>, bytes: Seq<u8>, count: int)
    requires
        0 <= count <= bytes.len(),
        count <= PART_PACKET_PAYLOAD_SIZE * part_count(written.len()) - written.len(),
        part_count(written.len()) <= MAX_PART_COUNT,
    ensures
        ({
            let index = part_count(written.len()) - 1;
            let longer = written + bytes.take(count);
            &&& part_count(longer.len()) == part_count(written.len())
            &&& open_part(id, written, index) + bytes.take(count) == open_part(id, longer, index)
            &&& forall|i: int|
                0 <= i < index ==> #[trigger] open_part(id, longer, i) == open_part(id, written, i)
        }),
{
    let index = part_count(written.len()) - 1;
    let longer = written + bytes.take(count);
    lemma_chunk_lens(written.len(), index);
    assert(chunk(longer, index) =~= chunk(written, index) + bytes.take(count));
    assert(open_part(id, written, index) + bytes.take(count) =~= open_part(id, longer, index));
    assert forall|i: int| 0 <= i < index implies #[trigger] open_part(id, longer, i) == open_part(
        id,
        written,
        i,
    ) by {
        assert(chunk(longer, i) =~= chunk(written, i));
    }
}

/// Starting a new part.
proof fn lemma_next(id: PacketId, written: Seq<u8>, bytes: Seq<u8>, count: int)
    requires
        0 < count <= bytes.len(),
        count <= PART_PACKET_PAYLOAD_SIZE,
        written.len() == PART_PACKET_PAYLOAD_SIZE * part_count(written.len()),
        part_count(written.len()) < MAX_PART_COUNT,
    ensures
        ({
            let index = part_count(written.len()) - 1;
            let longer = written + bytes.take(count);
            &&& part_count(longer.len()) == part_count(written.len()) + 1
            &&& next_header(open_part(id, written, index)) + bytes.take(count) == open_part(
                id,
                longer,
                index + 1,
            )
            &&& forall|i: int|
                0 <= i <= index ==> #[trigger] open_part(id, longer, i) == open_part(id, written, i)
        }),
{
    let index = part_count(written.len()) - 1;
    let longer = written + bytes.take(count);
    law_id_bytes(id, id);
    law_part_datagram(false, id, index as SeqIndex, chunk(written, index));
    assert(chunk(longer, index + 1) =~= bytes.take(count));
    assert(next_header(open_part(id, written, index)) =~= part_header(
        false,
        id,
        (index + 1) as SeqIndex,
    ));
    assert forall|i: int| 0 <= i <= index implies #[trigger] open_part(id, longer, i) == open_part(
        id,
        written,
        i,
    ) by {
        assert(chunk(longer, i) =~= chunk(written, i));
    }
}

/// The header of a part determines the header of the next one.
proof fn lemma_next_header(bytes: Seq<u8>, id: PacketId, index: SeqIndex)
    requires
        bytes.len() >= PAYLOAD_START,
        bytes.take(PAYLOAD_START as int) == part_header(false, id, index),
        index < SeqIndex::MAX,
    ensures
        seq_index_of(bytes) == index,
        next_header(bytes) == part_header(false, id, (index + 1) as SeqIndex),
{
    let header = part_header(false, id, index);
    law_part_datagram(false, id, index, Seq::empty());
    assert(part_header(false, id, index) + Seq::<u8>::empty() =~= header);
    assert(bytes.subrange(SEQ_INDEX_START as int, PAYLOAD_START as int) =~= header.subrange(
        SEQ_INDEX_START as int,
        PAYLOAD_START as int,
    ));
    law_id_bytes(id, id);
    assert(bytes.take(SEQ_INDEX_START as int) =~= header.take(SEQ_INDEX_START as int));
    assert(next_header(bytes) =~= part_header(false, id, (index + 1) as SeqIndex));
}

/// The first parts of a packet of which only `bytes` is known so far.
pub open spec fn open_parts(id: PacketId, bytes: Seq<u8>, count: nat) -> Seq<Seq<u8>> {
    Seq::new(count, |i: int| open_part(id, bytes, i))
}

/// Marking the last part makes all parts complete.
proof fn lemma_mark_last(id: PacketId, bytes: Seq<u8>)
    requires
        part_count(bytes.len()) <= MAX_PART_COUNT,
    ensures
        ({
            let index = part_count(bytes.len()) - 1;
            open_part(id, bytes, index).update(0, PacketKind::LastPart.byte()) == part(
                id,
                bytes,
                index,
            )
        }),
{
    let index = part_count(bytes.len()) - 1;
    assert(open_part(id, bytes, index).update(0, PacketKind::LastPart.byte())
        =~= part(id, bytes, index));
}

/// Splits a packet into parts until there are too many.
pub struct VecPacketSerializer {
    background_serialization_threshold: NonZeroUsize,
    buf: Vec<PacketBuffer>,
    id: Ghost<PacketId>,
    written: Ghost<Seq<u8>>,
}

impl VecPacketSerializer {
    /// The packet that this is a part of.
    pub closed spec fn id(&self) -> PacketId {
        self.id@
    }

    /// Everything that has been written so far.
    pub closed spec fn written(&self) -> Seq<u8> {
        self.written@
    }

    /// Up to how many parts there can be.
    pub closed spec fn threshold(&self) -> int {
        self.background_serialization_threshold@ as int
    }

    /// The parts so far.
    pub closed spec fn parts(&self) -> Seq<PacketBuffer> {
        self.buf@
    }

    pub open spec fn wf(&self) -> bool {
        &&& all_wf(self.parts())
        &&& buffer_views(self.parts()) == all_unacked(
            open_parts(self.id(), self.written(), part_count(self.written().len())),
        )
        &&& part_count(self.written().len()) <= self.threshold()
        &&& part_count(self.written().len()) <= MAX_PART_COUNT
    }

    proof fn lemma_wf(&self)
        requires
            self.wf(),
        ensures
            self.parts().len() == part_count(self.written().len()),
            forall|i: int|
                0 <= i < self.parts().len() ==> (#[trigger] self.parts()[i])@ == unacked(
                    open_part(self.id(), self.written(), i),
                ),
    {
        let parts = all_unacked(
            open_parts(self.id(), self.written(), part_count(self.written().len())),
        );
        assert(buffer_views(self.parts()).len() == parts.len());
        assert forall|i: int| 0 <= i < self.parts().len() implies (#[trigger] self.parts()[i])@
            == unacked(open_part(self.id(), self.written(), i)) by {
            assert(buffer_views(self.parts())[i] == parts[i]);
        }
    }

    /// Starts out with a single part without any payload.
    pub fn new(id: PacketId, background_serialization_threshold: NonZeroUsize) -> (serializer: Self)
        ensures
            serializer.wf(),
            serializer.id() == id,
            serializer.written() == Seq::<u8>::empty(),
            serializer.threshold() == background_serialization_threshold@,
    {
        let first = PacketBuffer::new(id);
        let mut buf: Vec<PacketBuffer> = Vec::new();
        buf.push(first);
        let serializer = VecPacketSerializer {
            background_serialization_threshold,
            buf,
            id: Ghost(id),
            written: Ghost(Seq::empty()),
        };
        let _threshold: usize = background_serialization_threshold.get();
        proof {
            assert(open_part(id, Seq::empty(), 0) =~= part_header(false, id, 0));
            assert(buffer_views(serializer.parts()) =~= all_unacked(
                open_parts(id, Seq::empty(), 1),
            ));
        }
        serializer
    }

    /// The position is not tracked, so it always is the start.
    pub fn pos(&self) -> (pos: usize)
        ensures
            pos == 0,
    {
        0
    }

    /// Appends the given bytes, and gives up and returns all the filled parts if there would be more
    /// parts than the threshold allows.
    pub fn write(&mut self, bytes: &[u8]) -> (result: Result<(), Vec<PacketBuffer>>)
        requires
            old(self).wf(),
            part_count((old(self).written() + bytes@).len()) <= MAX_PART_COUNT,
        ensures
            final(self).id() == old(self).id(),
            final(self).threshold() == old(self).threshold(),
            result is Ok <==> part_count((old(self).written() + bytes@).len())
                <= old(self).threshold(),
            match result {
                Ok(_) => {
                    &&& final(self).wf()
                    &&& final(self).written() == old(self).written() + bytes@
                },
                Err(parts) => {
                    &&& all_wf(parts@)
                    &&& buffer_views(parts@) == all_unacked(
                        open_parts(
                            old(self).id(),
                            old(self).written() + bytes@,
                            old(self).threshold() as nat,
                        ),
                    )
                    &&& final(self).parts() == Seq::<PacketBuffer>::empty()
                },
            },
    {
        let ghost all = self.written() + bytes@;
        let ghost id = self.id();
        let mut remaining = bytes;
        while remaining.len() > 0
            invariant
                self.wf(),
                self.written() + remaining@ == all,
                self.id() == id,
                id == old(self).id(),
                self.threshold() == old(self).threshold(),
                all == old(self).written() + bytes@,
                part_count(all.len()) <= MAX_PART_COUNT,
            decreases remaining@.len(),
        {
            let at_limit = self.buf.len() == self.background_serialization_threshold.get();
            let ghost written = self.written();
            let ghost index = part_count(written.len()) - 1;
            let ghost before = self.buf@;
            proof {
                self.lemma_wf();
                law_part_datagram(false, id, index as SeqIndex, chunk(written, index));
                lemma_chunk_lens(written.len(), index);
            }
            let last: usize = self.buf.len() - 1;
            let rest = self.buf[last].append(remaining);
            let ghost mut count = remaining@.len() - rest@.len();
            let rest = if rest.len() == remaining.len() {
                proof {
                    assert(self.buf@[index]@.bytes =~= open_part(id, written, index));
                    assert(buffer_views(self.buf@) =~= buffer_views(before));
                }
                if at_limit {
                    let mut parts: Vec<PacketBuffer> = Vec::new();
                    std::mem::swap(&mut self.buf, &mut parts);
                    proof {
                        let threshold = self.threshold() as nat;
                        assert(buffer_views(parts@) =~= all_unacked(
                            open_parts(id, all, threshold),
                        )) by {
                            assert forall|i: int| 0 <= i < threshold implies #[trigger] open_part(
                                id,
                                all,
                                i,
                            ) == open_part(id, written, i) by {
                                assert(chunk(all, i) =~= chunk(written, i));
                            }
                        }
                    }
                    return Err(parts);
                }
                let mut packet = self.buf[last].new_next();
                let rest = packet.append(remaining);
                self.buf.push(packet);
                proof {
                    count = remaining@.len() - rest@.len();
                    lemma_next(id, written, remaining@, count);
                }
                rest
            } else {
                proof {
                    lemma_append(id, written, remaining@, count);
                }
                rest
            };
            self.written = Ghost(written + remaining@.take(count));
            proof {
                assert(self.written() + rest@ =~= all);
                assert(buffer_views(self.parts()) =~= all_unacked(
                    open_parts(id, self.written(), part_count(self.written().len())),
                ));
            }
            remaining = rest;
        }
        assert(self.written() =~= all);
        Ok(())
    }

    /// Marks the last part as such and returns all of them.
    pub fn finish(self) -> (parts: Vec<PacketBuffer>)
        requires
            self.wf(),
        ensures
            all_wf(parts@),
            buffer_views(parts@) == all_unacked(packet_parts(self.id(), self.written())),
    {
        proof {
            self.lemma_wf();
            lemma_mark_last(self.id(), self.written());
        }
        let mut parts = self.buf;
        let last: usize = parts.len() - 1;
        parts[last].mark_last();
        proof {
            assert(buffer_views(parts@) =~= all_unacked(packet_parts(self.id(), self.written())));
        }
        parts
    }
}

/// The receiving end of the channel is gone, so nobody is interested in the remaining parts.
#[derive(Clone, Copy, Debug, PartialEq, Eq, Structural)]
pub struct ReceiverDropped;

/// How many of the next bytes are written at once, which is as many as fit into the part that is
/// currently being written, or into the next one if it is already filled.
pub open spec fn taken(written_len: nat, len: nat) -> int {
    let room = PART_PACKET_PAYLOAD_SIZE * part_count(written_len) - written_len;
    let limit = if room == 0 {
        PART_PACKET_PAYLOAD_SIZE as int
    } else {
        room
    };
    if len <= limit {
        len as int
    } else {
        limit
    }
}

/// Splits a packet into parts, one at a time.
///
/// The first parts are skipped, since they are already known.
pub struct ChannelPacketSerializer {
    skip: usize,
    buf: PacketBuffer,
    id: Ghost<PacketId>,
    written: Ghost<Seq<u8>>,
    first: Ghost<int>,
}

impl ChannelPacketSerializer {
    /// The packet that is split into parts.
    pub closed spec fn id(&self) -> PacketId {
        self.id@
    }

    /// Everything that has been written so far.
    pub closed spec fn written(&self) -> Seq<u8> {
        self.written@
    }

    /// The first part that is not skipped.
    pub closed spec fn first(&self) -> int {
        self.first@
    }

    /// The part that is currently being written.
    pub open spec fn index(&self) -> int {
        part_count(self.written().len()) - 1
    }

    pub closed spec fn wf(&self) -> bool {
        &&& self.first() >= 0
        &&& self.index() < MAX_PART_COUNT
        &&& self.skip == if self.first() > self.index() {
            self.first() - self.index()
        } else {
            0
        }
        &&& self.buf.wf()
        &&& if self.first() > self.index() {
            &&& !self.buf@.acked
            &&& self.buf@.bytes.len() == open_part(self.id(), self.written(), self.index()).len()
            &&& self.buf@.bytes.take(PAYLOAD_START as int) == part_header(
                false,
                self.id(),
                self.index() as SeqIndex,
            )
        } else {
            self.buf@ == unacked(open_part(self.id(), self.written(), self.index()))
        }
    }

    /// Starts out with a part without any payload.
    pub fn new(id: PacketId, skip: usize) -> (serializer: Self)
        ensures
            serializer.wf(),
            serializer.id() == id,
            serializer.written() == Seq::<u8>::empty(),
            serializer.first() == skip,
    {
        let serializer = ChannelPacketSerializer {
            skip,
            buf: PacketBuffer::new(id),
            id: Ghost(id),
            written: Ghost(Seq::empty()),
            first: Ghost(skip as int),
        };
        proof {
            law_part_datagram(false, id, 0, Seq::empty());
            assert(open_part(id, Seq::empty(), 0) =~= part_header(false, id, 0));
            assert(serializer.buf@.bytes.take(PAYLOAD_START as int) =~= part_header(false, id, 0));
        }
        serializer
    }

    /// The position is not tracked, so it always is the start.
    pub fn pos(&self) -> (pos: usize)
        ensures
            pos == 0,
    {
        0
    }

    /// Appends some of the given bytes, returns the remaining ones and a part if it is complete.
    ///
    /// A part is only known to be complete, and not the last one, once there are bytes that do not
    /// fit into it anymore.
    pub fn write_some<'a>(&mut self, bytes: &'a [u8]) -> (result: (&'a [u8], Option<PacketBuffer>))
        requires
            old(self).wf(),
            part_count((old(self).written() + bytes@).len()) <= MAX_PART_COUNT,
        ensures
            final(self).wf(),
            final(self).id() == old(self).id(),
            final(self).first() == old(self).first(),
            ({
                let count = taken(old(self).written().len(), bytes@.len());
                let is_filled = old(self).written().len() == PART_PACKET_PAYLOAD_SIZE * part_count(
                    old(self).written().len(),
                );
                &&& final(self).written() == old(self).written() + bytes@.take(count)
                &&& result.0@ == bytes@.skip(count)
                &&& result.1 is Some <==> bytes@.len() > 0 && is_filled && old(self).index()
                    >= old(self).first()
                &&& result.1 matches Some(part) ==> {
                    &&& part.wf()
                    &&& part@ == unacked(
                        open_part(old(self).id(), old(self).written(), old(self).index()),
                    )
                }
            }),
    {
        let ghost written = self.written();
        let ghost id = self.id();
        let ghost index = self.index();
        let ghost count = taken(written.len(), bytes@.len());
        if bytes.len() == 0 {
            assert(written + bytes@.take(count) =~= written);
            assert(bytes@.skip(count) =~= bytes@);
            return (bytes, None);
        }
        proof {
            lemma_chunk_lens(written.len(), index);
            law_part_datagram(false, id, index as SeqIndex, chunk(written, index));
            law_part_datagram(false, id, index as SeqIndex, Seq::empty());
            assert(open_part(id, written, index).take(PAYLOAD_START as int) =~= part_header(
                false,
                id,
                index as SeqIndex,
            ));
        }
        let mut full = None;
        if self.buf.as_bytes().len() == PACKET_BUFFER_SIZE {
            if self.skip > 0 {
                self.skip = self.skip - 1;
            } else {
                full = Some(self.buf.copy());
            }
            proof {
                lemma_next(id, written, bytes@, count);
                lemma_next_header(self.buf@.bytes, id, index as SeqIndex);
                lemma_next_header(open_part(id, written, index), id, index as SeqIndex);
                law_part_datagram(false, id, (index + 1) as SeqIndex, Seq::empty());
            }
            self.buf.next();
        } else {
            proof {
                lemma_append(id, written, bytes@, count);
            }
        }
        let ghost started = self.buf;
        let rest = if self.skip > 0 {
            let rest = self.buf.skip(bytes);
            proof {
                started.lemma_memory();
                self.buf.lemma_memory();
                assert(self.buf@.bytes.take(PAYLOAD_START as int) =~= started@.bytes.take(
                    PAYLOAD_START as int,
                ));
                assert(started@.bytes.take(PAYLOAD_START as int) =~= part_header(
                    false,
                    id,
                    (part_count((written + bytes@.take(count)).len()) - 1) as SeqIndex,
                ));
            }
            rest
        } else {
            self.buf.append(bytes)
        };
        self.written = Ghost(written + bytes@.take(count));
        (rest, full)
    }

    /// Marks the last part as such and returns it.
    pub fn finish(self) -> (last: PacketBuffer)
        requires
            self.wf(),
            self.first() <= self.index(),
        ensures
            last.wf(),
            last@ == unacked(part(self.id(), self.written(), self.index())),
    {
        proof {
            lemma_mark_last(self.id(), self.written());
        }
        let mut last = self.buf;
        last.mark_last();
        last
    }
}

/// A packet that has been split into parts, or is going to be.
pub enum SerializedPacket {
    /// All the parts.
    Vec(Vec<PacketBuffer>),
    /// The parts are yet to be made.
    Channel(BackgroundPacket),
}

/// What is needed to make the parts of a packet one by one.
pub struct BackgroundPacket {
    /// The first parts.
    pub already_serialized: Vec<PacketBuffer>,
    /// Makes the remaining parts.
    pub serializer: ChannelPacketSerializer,
}

impl BackgroundPacket {
    /// Whether this is the start for the given packet, of which `count` parts are already known.
    pub open spec fn starts(&self, id: PacketId, bytes: Seq<u8>, count: nat) -> bool {
        &&& all_wf(self.already_serialized@)
        &&& buffer_views(self.already_serialized@) == all_unacked(open_parts(id, bytes, count))
        &&& self.serializer.wf()
        &&& self.serializer.id() == id
        &&& self.serializer.written() == Seq::<u8>::empty()
        &&& self.serializer.first() == count
    }

    /// All the parts in the order in which they are made when the packet consists of `bytes`.
    pub fn into_parts(self, bytes: &[u8]) -> (parts: Vec<PacketBuffer>)
        requires
            self.starts(self.serializer.id(), bytes@, self.already_serialized@.len()),
            self.already_serialized@.len() < part_count(bytes@.len()) <= MAX_PART_COUNT,
        ensures
            all_wf(parts@),
            buffer_views(parts@) == all_unacked(packet_parts(self.serializer.id(), bytes@)),
    {
        let ghost id = self.serializer.id();
        let ghost first = self.already_serialized@.len();
        let ghost known = all_unacked(open_parts(id, bytes@, first));
        let mut parts = self.already_serialized;
        let mut serializer = self.serializer;
        let mut remaining = bytes;
        proof {
            assert forall|i: int| 0 <= i < first implies parts@[i]@ == unacked(
                #[trigger] open_part(id, bytes@, i),
            ) by {
                assert(buffer_views(parts@)[i] == known[i]);
            }
            assert(serializer.written() + remaining@ =~= bytes@);
        }
        while remaining.len() > 0
            invariant
                part_count(bytes@.len()) <= MAX_PART_COUNT,
                first < part_count(bytes@.len()),
                serializer.wf(),
                serializer.id() == id,
                serializer.first() == first,
                serializer.written() + remaining@ == bytes@,
                all_wf(parts@),
                parts@.len() == if first > serializer.index() {
                    first as int
                } else {
                    serializer.index()
                },
                forall|i: int|
                    0 <= i < parts@.len() ==> parts@[i]@ == unacked(
                        #[trigger] open_part(id, bytes@, i),
                    ),
            decreases remaining@.len(),
        {
            let ghost written = serializer.written();
            let ghost index = serializer.index();
            let (rest, full) = serializer.write_some(remaining);
            proof {
                let count = taken(written.len(), remaining@.len());
                assert(serializer.written() + rest@ =~= bytes@);
                lemma_chunk_lens(written.len(), index);
                if full is Some {
                    assert(chunk(written, index) =~= chunk(bytes@, index));
                }
            }
            if let Some(part) = full {
                parts.push(part);
            }
            remaining = rest;
        }
        assert(serializer.written() =~= bytes@);
        parts.push(serializer.finish());
        proof {
            assert forall|i: int| 0 <= i < part_count(bytes@.len()) - 1 implies (
            #[trigger] buffer_views(parts@)[i]) == unacked(part(id, bytes@, i)) by {
                assert(parts@[i]@ == unacked(open_part(id, bytes@, i)));
            }
            assert(buffer_views(parts@) =~= all_unacked(packet_parts(id, bytes@)));
        }
        parts
    }
}

/// Starts splitting a packet into parts, unless that is not to be done right away at all.
pub fn start_serialization(
    id: PacketId,
    background_serialization_threshold: usize,
) -> (serializer: Option<VecPacketSerializer>)
    ensures
        serializer is Some <==> background_serialization_threshold != 0,
        serializer matches Some(serializer) ==> {
            &&& serializer.wf()
            &&& serializer.id() == id
            &&& serializer.written() == Seq::<u8>::empty()
            &&& serializer.threshold() == background_serialization_threshold
        },
{
    match NonZeroUsize::new(background_serialization_threshold) {
        Some(threshold) => Some(VecPacketSerializer::new(id, threshold)),
        None => None,
    }
}

/// Concludes what [`start_serialization`] has started.
///
/// - `None`: nothing was started
/// - `Some(Ok(_))`: everything was written
/// - `Some(Err(_))`: these parts were filled before it was given up
pub fn finish_serialization(
    id: PacketId,
    attempt: Option<Result<VecPacketSerializer, Vec<PacketBuffer>>>,
) -> (packet: SerializedPacket)
    requires
        attempt matches Some(Ok(serializer)) ==> serializer.wf(),
    ensures
        match attempt {
            Some(Ok(serializer)) => packet matches SerializedPacket::Vec(parts) && all_wf(parts@)
                && buffer_views(parts@) == all_unacked(
                packet_parts(serializer.id(), serializer.written()),
            ),
            Some(Err(already_serialized)) => {
                &&& packet matches SerializedPacket::Channel(packet)
                &&& packet.already_serialized == already_serialized
                &&& packet.serializer.wf()
                &&& packet.serializer.id() == id
                &&& packet.serializer.written() == Seq::<u8>::empty()
                &&& packet.serializer.first() == already_serialized@.len()
            },
            None => {
                &&& packet matches SerializedPacket::Channel(packet)
                &&& packet.starts(id, Seq::empty(), 0)
            },
        },
{
    let already_serialized = match attempt {
        Some(Ok(serializer)) => {
            return SerializedPacket::Vec(serializer.finish());
        },
        Some(Err(already_serialized)) => already_serialized,
        None => {
            let nothing: Vec<PacketBuffer> = Vec::new();
            assert(buffer_views(nothing@) =~= all_unacked(open_parts(id, Seq::empty(), 0)));
            nothing
        },
    };
    let serializer = ChannelPacketSerializer::new(id, already_serialized.len());
    SerializedPacket::Channel(BackgroundPacket { already_serialized, serializer })
}

/// Splits a packet into parts, leaving that for later if there are more than
/// `background_serialization_threshold` of them.
pub fn serialize_packet(
    id: PacketId,
    background_serialization_threshold: usize,
    bytes: &[u8],
) -> (packet: SerializedPacket)
    requires
        part_count(bytes@.len()) <= MAX_PART_COUNT,
    ensures
        match packet {
            SerializedPacket::Vec(parts) => {
                &&& part_count(bytes@.len()) <= background_serialization_threshold
                &&& all_wf(parts@)
                &&& buffer_views(parts@) == all_unacked(packet_parts(id, bytes@))
            },
            SerializedPacket::Channel(packet) => {
                &&& part_count(bytes@.len()) > background_serialization_threshold
                &&& packet.starts(id, bytes@, background_serialization_threshold as nat)
            },
        },
{
    let attempt = match start_serialization(id, background_serialization_threshold) {
        Some(mut serializer) => {
            assert(serializer.written() + bytes@ =~= bytes@);
            match serializer.write(bytes) {
                Ok(()) => Some(Ok(serializer)),
                Err(already_serialized) => Some(Err(already_serialized)),
            }
        },
        None => None,
    };
    let packet = finish_serialization(id, attempt);
    proof {
        assert(all_unacked(open_parts(id, Seq::empty(), 0)) =~= all_unacked(
            open_parts(id, bytes@, 0),
        ));
        if packet is Channel {
            assert(buffer_views(packet->Channel_0.already_serialized@).len()
                == packet->Channel_0.already_serialized@.len());
        }
    }
    packet
}

} // verus!
