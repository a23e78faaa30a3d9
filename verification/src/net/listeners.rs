//! The packets of peers that are known by their addresses.

use vstd::prelude::*;

use super::SocketAddr;
use crate::packet::buffers::PacketBuffersView;
use crate::packet::PacketBuffers;
use crate::time::{Duration, Instant};

verus! {

/// A [`Listener`] whose address is known.
#[verifier::ext_equal]
pub struct ListenerView {
    pub since: Instant,
    pub buffers: PacketBuffersView,
}

/// A peer and the packets that are being sent to and received from it.
pub struct Listener {
    addr: SocketAddr,
    /// When the peer was added.
    since: Instant,
    buffers: PacketBuffers,
}

impl View for Listener {
    type V = ListenerView;

    closed spec fn view(&self) -> ListenerView {
        ListenerView { since: self.since, buffers: self.buffers@ }
    }
}

/// Peers with different addresses.
pub struct Listeners {
    entries: Vec<Listener>,
}

/// The position of a listener with the given address.
spec fn position_of(entries: Seq<Listener>, addr: SocketAddr) -> int {
    choose|i: int| 0 <= i < entries.len() && #[trigger] entries[i].addr == addr
}

spec fn has_addr(entries: Seq<Listener>, addr: SocketAddr) -> bool {
    exists|i: int| 0 <= i < entries.len() && #[trigger] entries[i].addr == addr
}

impl View for Listeners {
    type V = Map<SocketAddr, ListenerView>;

    closed spec fn view(&self) -> Map<SocketAddr, ListenerView> {
        Map::new(
            |addr: SocketAddr| has_addr(self.entries@, addr),
            |addr: SocketAddr| self.entries@[position_of(self.entries@, addr)]@,
        )
    }
}

impl Listeners {
    pub closed spec fn wf(&self) -> bool {
        &&& forall|i: int, j: int|
            0 <= i < j < self.entries@.len() ==> (#[trigger] self.entries@[i]).addr != (
            #[trigger] self.entries@[j]).addr
        &&& forall|i: int|
            0 <= i < self.entries@.len() ==> (#[trigger] self.entries@[i]).buffers.wf()
    }

    proof fn lemma_entry(&self, i: int)
        requires
            self.wf(),
            0 <= i < self.entries@.len(),
        ensures
            self@.contains_key(self.entries@[i].addr),
            self@[self.entries@[i].addr] == self.entries@[i]@,
    {
        let addr = self.entries@[i].addr;
        assert(has_addr(self.entries@, addr));
        let p = position_of(self.entries@, addr);
        assert(0 <= p < self.entries@.len() && self.entries@[p].addr == addr);
        assert(p == i);
    }

    /// Replaces the packets of a listener.
    proof fn lemma_update(before: Self, after: Self, i: int)
        requires
            before.wf(),
            0 <= i < before.entries@.len(),
            after.entries@ == before.entries@.update(
                i,
                Listener { buffers: after.entries@[i].buffers, ..before.entries@[i] },
            ),
            after.entries@[i].buffers.wf(),
        ensures
            after.wf(),
            after@ == before@.insert(before.entries@[i].addr, after.entries@[i]@),
    {
        let addr = before.entries@[i].addr;
        assert(after.wf());
        assert forall|other: SocketAddr| after@.contains_key(other)
            <==> #[trigger] before@.contains_key(other) by {
            if has_addr(after.entries@, other) {
                let p = position_of(after.entries@, other);
                assert(before.entries@[p].addr == other);
            }
            if has_addr(before.entries@, other) {
                let p = position_of(before.entries@, other);
                assert(after.entries@[p].addr == other);
            }
        }
        assert(has_addr(before.entries@, addr));
        assert forall|other: SocketAddr| #[trigger] after@.contains_key(other) implies after@[other]
            == before@.insert(addr, after.entries@[i]@)[other] by {
            let p = position_of(after.entries@, other);
            assert(has_addr(after.entries@, other));
            assert(after.entries@[p].addr == other);
            after.lemma_entry(p);
            before.lemma_entry(p);
        }
        assert(after@ =~= before@.insert(addr, after.entries@[i]@));
    }

    pub fn new() -> (listeners: Self)
        ensures
            listeners.wf(),
            listeners@ == Map::<SocketAddr, ListenerView>::empty(),
    {
        let listeners = Listeners { entries: Vec::new() };
        assert(listeners@ =~= Map::empty());
        listeners
    }

    fn position(&self, addr: SocketAddr) -> (position: Option<usize>)
        requires
            self.wf(),
        ensures
            position is Some <==> self@.contains_key(addr),
            position matches Some(i) ==> i < self.entries@.len() && self.entries@[i as int].addr
                == addr && self@[addr] == self.entries@[i as int]@,
    {
        let mut i: usize = 0;
        while i < self.entries.len()
            invariant
                self.wf(),
                i <= self.entries@.len(),
                forall|j: int| 0 <= j < i ==> (#[trigger] self.entries@[j]).addr != addr,
            decreases self.entries@.len() - i,
        {
            if self.entries[i].addr == addr {
                proof {
                    self.lemma_entry(i as int);
                }
                return Some(i);
            }
            i = i + 1;
        }
        None
    }

    /// Whether there is a peer with this address.
    pub fn contains(&self, addr: SocketAddr) -> (known: bool)
        requires
            self.wf(),
        ensures
            known == self@.contains_key(addr),
    {
        self.position(addr).is_some()
    }

    /// The packets of the peer with this address.
    pub fn get_mut(&mut self, addr: SocketAddr) -> (buffers: Option<&mut PacketBuffers>)
        requires
            old(self).wf(),
        ensures
            buffers is Some <==> old(self)@.contains_key(addr),
            match buffers {
                Some(buffers) => {
                    &&& buffers.wf()
                    &&& buffers@ == old(self)@[addr].buffers
                    &&& final(buffers).wf() ==> final(self).wf() && final(self)@ == old(
                        self,
                    )@.insert(
                        addr,
                        ListenerView { buffers: final(buffers)@, ..old(self)@[addr] },
                    )
                },
                None => *final(self) == *old(self),
            },
    {
        match self.position(addr) {
            Some(i) => {
                proof {
                    let before = *self;
                    assert forall|after: Self|
                        #![trigger after.wf()]
                        #![trigger after@]
                        after.entries@ == before.entries@.update(
                            i as int,
                            Listener {
                                buffers: after.entries@[i as int].buffers,
                                ..before.entries@[i as int]
                            },
                        ) && after.entries@[i as int].buffers.wf() implies after.wf() && after@
                        == before@.insert(addr, after.entries@[i as int]@) by {
                        Self::lemma_update(before, after, i as int);
                    }
                }
                Some(&mut self.entries[i].buffers)
            },
            None => None,
        }
    }

    /// Adds a peer that is not known yet.
    pub fn insert(&mut self, addr: SocketAddr, buffers: PacketBuffers, now: Instant)
        requires
            old(self).wf(),
            !old(self)@.contains_key(addr),
            buffers.wf(),
        ensures
            final(self).wf(),
            final(self)@ == old(self)@.insert(
                addr,
                ListenerView { since: now, buffers: buffers@ },
            ),
    {
        let ghost before = *self;
        let ghost listener = ListenerView { since: now, buffers: buffers@ };
        self.entries.push(Listener { addr, since: now, buffers });
        proof {
            let last = before.entries@.len() as int;
            assert forall|j: int| 0 <= j < last implies (
            #[trigger] self.entries@[j]).addr != addr by {
                assert(self.entries@[j] == before.entries@[j]);
                before.lemma_entry(j);
            }
            assert(self.wf());
            self.lemma_entry(last);
            assert forall|other: SocketAddr| #[trigger] self@.contains_key(other)
                <==> before@.insert(addr, listener).contains_key(other) by {
                if has_addr(self.entries@, other) && other != addr {
                    let p = position_of(self.entries@, other);
                    assert(before.entries@[p].addr == other);
                }
                if has_addr(before.entries@, other) {
                    let p = position_of(before.entries@, other);
                    assert(self.entries@[p].addr == other);
                }
            }
            assert forall|other: SocketAddr| #[trigger]
                self@.contains_key(other) implies self@[other] == before@.insert(
                addr,
                listener,
            )[other] by {
                let p = position_of(self.entries@, other);
                assert(has_addr(self.entries@, other));
                assert(self.entries@[p].addr == other);
                self.lemma_entry(p);
                if p < last {
                    before.lemma_entry(p);
                }
            }
            assert(self@ =~= before@.insert(addr, listener));
        }
    }

    /// Removes a peer and returns its packets.
    pub fn remove(&mut self, addr: SocketAddr) -> (buffers: Option<PacketBuffers>)
        requires
            old(self).wf(),
        ensures
            final(self).wf(),
            final(self)@ == old(self)@.remove(addr),
            buffers is Some <==> old(self)@.contains_key(addr),
            buffers matches Some(buffers) ==> buffers.wf() && buffers@ == old(self)@[addr].buffers,
    {
        match self.position(addr) {
            Some(i) => Some(self.remove_at(i)),
            None => {
                assert(self@ =~= self@.remove(addr));
                None
            },
        }
    }

    /// Removes a peer, whose place is taken by the last one, and returns its packets.
    fn remove_at(&mut self, i: usize) -> (buffers: PacketBuffers)
        requires
            old(self).wf(),
            i < old(self).entries@.len(),
        ensures
            final(self).wf(),
            final(self)@ == old(self)@.remove(old(self).entries@[i as int].addr),
            final(self).entries@.len() == old(self).entries@.len() - 1,
            forall|j: int|
                0 <= j < i ==> (#[trigger] final(self).entries@[j]) == old(self).entries@[j],
            buffers.wf(),
            buffers@ == old(self)@[old(self).entries@[i as int].addr].buffers,
    {
        let ghost before = *self;
        let ghost addr = self.entries@[i as int].addr;
        proof {
            before.lemma_entry(i as int);
        }
        let listener = self.entries.swap_remove(i);
        proof {
            let last = before.entries@.len() - 1;
            assert forall|j: int| 0 <= j < self.entries@.len() implies (
            #[trigger] self.entries@[j]) == before.entries@[if j == i {
                last
            } else {
                j
            }] by {}
            assert(self.wf());
            assert forall|other: SocketAddr| #[trigger] self@.contains_key(other)
                <==> before@.remove(addr).contains_key(other) by {
                if has_addr(self.entries@, other) {
                    let p = position_of(self.entries@, other);
                    let q = if p == i {
                        last
                    } else {
                        p
                    };
                    assert(before.entries@[q].addr == other);
                }
                if has_addr(before.entries@, other) && other != addr {
                    let p = position_of(before.entries@, other);
                    let q = if p == last {
                        i as int
                    } else {
                        p
                    };
                    assert(self.entries@[q].addr == other);
                }
            }
            assert forall|other: SocketAddr| #[trigger]
                self@.contains_key(other) implies self@[other] == before@[other] by {
                let p = position_of(self.entries@, other);
                assert(has_addr(self.entries@, other));
                assert(self.entries@[p].addr == other);
                self.lemma_entry(p);
                before.lemma_entry(
                    if p == i {
                        last
                    } else {
                        p
                    },
                );
            }
            assert(self@ =~= before@.remove(addr));
        }
        listener.buffers
    }

    /// Removes all peers that were added too long ago.
    pub fn timeout(&mut self, timeout: Duration, now: Instant)
        requires
            old(self).wf(),
        ensures
            final(self).wf(),
            final(self)@ == old(self)@.restrict(
                old(self)@.dom().filter(
                    |addr: SocketAddr|
                        old(self)@[addr].since.elapsed_spec(now).nanos < timeout.nanos,
                ),
            ),
    {
        let ghost before = self@;
        let mut i: usize = 0;
        while i < self.entries.len()
            invariant
                self.wf(),
                before == old(self)@,
                i <= self.entries@.len(),
                self@.submap_of(before),
                forall|addr: SocketAddr| #[trigger]
                    before.contains_key(addr) && !self@.contains_key(addr)
                        ==> before[addr].since.elapsed_spec(now).nanos >= timeout.nanos,
                forall|j: int|
                    0 <= j < i ==> (#[trigger] self.entries@[j]).since.elapsed_spec(now).nanos
                        < timeout.nanos,
            decreases self.entries@.len() - i,
        {
            let ghost known = *self;
            proof {
                known.lemma_entry(i as int);
            }
            if self.entries[i].since.elapsed(now).nanos < timeout.nanos {
                i = i + 1;
            } else {
                let _buffers = self.remove_at(i);
            }
        }
        proof {
            let kept = before.restrict(
                before.dom().filter(
                    |addr: SocketAddr| before[addr].since.elapsed_spec(now).nanos < timeout.nanos,
                ),
            );
            assert forall|addr: SocketAddr| #[trigger] self@.contains_key(addr) implies kept.contains_key(
                addr,
            ) by {
                let p = position_of(self.entries@, addr);
                assert(has_addr(self.entries@, addr));
                assert(self.entries@[p].addr == addr);
                self.lemma_entry(p);
                assert(before.contains_key(addr));
            }
            assert(self@ =~= kept);
        }
    }

    /// Removes all peers.
    pub fn clear(&mut self)
        ensures
            final(self).wf(),
            final(self)@ == Map::<SocketAddr, ListenerView>::empty(),
    {
        self.entries.clear();
        assert(self@ =~= Map::empty());
    }
}

} // verus!
