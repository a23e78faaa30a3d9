//! Going through maps in the order of their keys.

use vstd::prelude::*;

use std::collections::BTreeMap;
use vstd::laws_cmp::obeys_cmp;
use vstd::std_specs::btree::increasing_seq;
use vstd::std_specs::cmp::OrdSpec;
use vstd::std_specs::iter::IteratorSpec;

verus! {

/// Whether the keys are exactly those of the map, in increasing order.
pub open spec fn are_sorted_keys(keys: Seq<u128>, domain: Set<u128>) -> bool {
    &&& forall|i: int, j: int| 0 <= i < j < keys.len() ==> keys[i] < keys[j]
    &&& forall|key: u128| keys.contains(key) <==> #[trigger] domain.contains(key)
}

/// All the keys of a map, in increasing order.
pub fn sorted_keys<V>(map: &BTreeMap<u128, V>) -> (keys: Vec<u128>)
    ensures
        are_sorted_keys(keys@, map@.dom()),
{
    broadcast use vstd::laws_cmp::group_laws_cmp;

    let mut keys: Vec<u128> = Vec::new();
    let iter = map.keys();
    let ghost all = iter.remaining();
    for key in it: iter
        invariant
            it.seq() == all,
            keys@.len() == it.index(),
            forall|i: int| 0 <= i < keys@.len() ==> keys@[i] == *all[i],
    {
        keys.push(*key);
    }
    proof {
        assert(keys@ =~= all.unref());
        assert forall|key: u128| keys@.contains(key) <==> #[trigger] map@.dom().contains(key) by {
            assert(all.unref().to_set().contains(key) <==> map@.dom().contains(key));
        }
        assert(obeys_cmp::<u128>());
        assert(obeys_cmp::<&u128>());
        assert(increasing_seq(all));
        assert forall|i: int, j: int| 0 <= i < j < keys@.len() implies keys@[i] < keys@[j] by {
            assert(OrdSpec::cmp_spec(&all[i], &all[j]) is Less);
        }
    }
    keys
}

/// What lies in front of a key, followed by that key.
pub proof fn lemma_take_next(keys: Seq<u128>, domain: Set<u128>, i: int)
    requires
        are_sorted_keys(keys, domain),
        0 <= i < keys.len(),
    ensures
        keys.take(i + 1).drop_last() == keys.take(i),
        keys.take(i + 1).last() == keys[i],
        domain.contains(keys[i]),
        !keys.take(i).contains(keys[i]),
        forall|key: u128| #[trigger]
            keys.take(i + 1).contains(key) <==> keys.take(i).contains(key) || key == keys[i],
{
    let before = keys.take(i);
    let after = keys.take(i + 1);
    assert(after.drop_last() =~= before);
    assert(keys.contains(keys[i]));
    assert forall|key: u128| #[trigger] after.contains(key) <==> before.contains(key) || key
        == keys[i] by {
        if after.contains(key) {
            let k = choose|k: int| 0 <= k < after.len() && after[k] == key;
            if k < i {
                assert(before[k] == key);
            }
        }
        if before.contains(key) {
            let k = choose|k: int| 0 <= k < before.len() && before[k] == key;
            assert(after[k] == key);
        }
        assert(after[i] == keys[i]);
    }
}

} // verus!
