//! Taking turns.

use vstd::prelude::*;

use super::id::PacketId;
use super::send::PacketOutView;
use crate::sorted::are_sorted_keys;
use crate::time::{Duration, Instant};
use vstd::slice::slice_subrange;

verus! {

/// A round in which packets get the opportunity to send their next batch.
pub struct Round {
    ids: Vec<u128>,
    next: usize,
}

impl View for Round {
    type V = Seq<u128>;

    /// The ids of the packets that have not taken their turn yet.
    closed spec fn view(&self) -> Seq<u128> {
        self.ids@.skip(self.next as int)
    }
}

impl Round {
    #[verifier::type_invariant]
    spec fn is_valid(self) -> bool {
        self.next <= self.ids@.len()
    }

    /// The packets with the given ids take their turns in this order.
    pub fn new(ids: Vec<u128>) -> (round: Self)
        ensures
            round@ == ids@,
    {
        let round = Round { ids, next: 0 };
        assert(round@ =~= ids@);
        round
    }

    /// The ids of the packets that have not taken their turn yet.
    pub fn remaining(&self) -> (ids: &[u128])
        ensures
            ids@ == self@,
    {
        proof {
            use_type_invariant(self);
        }
        slice_subrange(self.ids.as_slice(), self.next, self.ids.len())
    }

    /// The packet whose turn it is.
    pub fn take_turn(&mut self) -> (id: Option<PacketId>)
        ensures
            match id {
                Some(id) => {
                    &&& old(self)@.len() > 0
                    &&& id.value == old(self)@.first()
                    &&& final(self)@ == old(self)@.drop_first()
                },
                None => {
                    &&& old(self)@.len() == 0
                    &&& final(self)@ == old(self)@
                },
            },
    {
        proof {
            use_type_invariant(&*self);
        }
        if self.next < self.ids.len() {
            let value: u128 = self.ids[self.next];
            self.next = self.next + 1;
            assert(self@ =~= old(self)@.drop_first());
            Some(PacketId { value })
        } else {
            None
        }
    }

    /// Nobody takes a turn anymore.
    pub fn end(&mut self)
        ensures
            final(self)@ == Seq::<u128>::empty(),
    {
        self.next = self.ids.len();
        assert(self@ =~= Seq::empty());
    }
}

/// Whether it is time for the packet with the given id to send its next batch.
pub open spec fn is_due(
    packets: Map<u128, PacketOutView>,
    id: u128,
    resend_delay: Duration,
    now: Instant,
) -> bool {
    packets.contains_key(id) && packets[id].is_due(resend_delay, now)
}

/// How many packets miss their turn before the first one that has something to send.
pub open spec fn missed_turns(
    packets: Map<u128, PacketOutView>,
    ids: Seq<u128>,
    resend_delay: Duration,
    now: Instant,
) -> int
    decreases ids.len(),
{
    if ids.len() == 0 || is_due(packets, ids.first(), resend_delay, now) {
        0
    } else {
        1 + missed_turns(packets, ids.drop_first(), resend_delay, now)
    }
}

pub proof fn lemma_missed_turns(
    packets: Map<u128, PacketOutView>,
    ids: Seq<u128>,
    resend_delay: Duration,
    now: Instant,
)
    ensures
        ({
            let missed = missed_turns(packets, ids, resend_delay, now);
            &&& 0 <= missed <= ids.len()
            &&& missed < ids.len() ==> is_due(packets, ids[missed], resend_delay, now)
            &&& forall|i: int|
                0 <= i < missed ==> !is_due(packets, #[trigger] ids[i], resend_delay, now)
        }),
    decreases ids.len(),
{
    if ids.len() > 0 && !is_due(packets, ids.first(), resend_delay, now) {
        let rest = ids.drop_first();
        lemma_missed_turns(packets, rest, resend_delay, now);
        let missed = missed_turns(packets, ids, resend_delay, now);
        assert forall|i: int| 0 <= i < missed implies !is_due(
            packets,
            #[trigger] ids[i],
            resend_delay,
            now,
        ) by {
            if i > 0 {
                assert(ids[i] == rest[i - 1]);
            }
        }
    }
}

/// Whoever misses a turn has nothing to send, and nobody takes more than one turn in a round.
pub proof fn law_turns(
    packets: Map<u128, PacketOutView>,
    ids: Seq<u128>,
    domain: Set<u128>,
    resend_delay: Duration,
    now: Instant,
    missed: int,
    later: int,
)
    requires
        are_sorted_keys(ids, domain),
    ensures
        ({
            let turn = missed_turns(packets, ids, resend_delay, now);
            &&& 0 <= turn <= ids.len()
            &&& 0 <= missed < turn ==> !is_due(packets, ids[missed], resend_delay, now)
            &&& turn < later < ids.len() ==> ids[turn] < ids[later]
        }),
{
    lemma_missed_turns(packets, ids, resend_delay, now);
}

/// A packet is due exactly if it is known and the whole delay has passed since its last batch.
pub proof fn law_due_packet(
    packets: Map<u128, PacketOutView>,
    id: u128,
    resend_delay: Duration,
    now: Instant,
)
    ensures
        is_due(packets, id, resend_delay, now) <==> packets.contains_key(id) && (
        resend_delay.nanos == 0 || now.nanos >= packets[id].last_send.nanos + resend_delay.nanos),
{
}

/// The turn goes to the first packet whose delay has passed, if there is one.
pub proof fn law_turn(
    packets: Map<u128, PacketOutView>,
    ids: Seq<u128>,
    resend_delay: Duration,
    now: Instant,
    i: int,
)
    ensures
        ({
            let turn = missed_turns(packets, ids, resend_delay, now);
            &&& 0 <= turn <= ids.len()
            &&& turn < ids.len() ==> packets.contains_key(ids[turn]) && (resend_delay.nanos == 0
                || now.nanos >= packets[ids[turn]].last_send.nanos + resend_delay.nanos)
            &&& 0 <= i < turn && packets.contains_key(ids[i]) ==> resend_delay.nanos > 0
                && now.nanos < packets[ids[i]].last_send.nanos + resend_delay.nanos
        }),
{
    lemma_missed_turns(packets, ids, resend_delay, now);
    if 0 <= i < missed_turns(packets, ids, resend_delay, now) {
        assert(!is_due(packets, ids[i], resend_delay, now));
    }
}

} // verus!
