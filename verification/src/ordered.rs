//! Iteration over maps keyed by integers.
use std::collections::BTreeMap;
use vstd::prelude::*;

verus! {

broadcast use vstd::std_specs::btree::group_btree_axioms;

/// Strictly ascending.
pub open spec fn ascending(keys: Seq<u64>) -> bool {
    forall|i: int, j: int| 0 <= i < j < keys.len() ==> keys[i] < keys[j]
}

/// The keys of the map in ascending order.
pub fn sorted_keys<V>(map: &BTreeMap<u64, V>) -> (keys: Vec<u64>)
    ensures
        ascending(keys@),
        forall|k: u64| map@.contains_key(k) <==> keys@.contains(k),
{
    broadcast use vstd::laws_cmp::group_laws_cmp;

    let mut keys: Vec<u64> = Vec::new();
    let iter = map.iter();
    let ghost all = vstd::std_specs::iter::IteratorSpec::remaining(&iter);
    let ghost all_keys = all.map_values(|kv: (&u64, &V)| *kv.0);
    for pair in it: iter
        invariant
            it.seq() == all,
            all_keys == all.map_values(|kv: (&u64, &V)| *kv.0),
            keys@ == all_keys.subrange(0, it.index()),
    {
        keys.push(*pair.0);
        assert(keys@ =~= all_keys.subrange(0, it.index() + 1));
    }
    assert(keys@ =~= all_keys);
    proof {
        assert(vstd::std_specs::btree::increasing_seq(all_keys));
        assert forall|i: int, j: int| 0 <= i < j < keys@.len() implies keys@[i] < keys@[j] by {
            assert(vstd::std_specs::cmp::OrdSpec::cmp_spec(&all_keys[i], &all_keys[j]) is Less);
        }
        assert forall|k: u64| map@.contains_key(k) <==> keys@.contains(k) by {
            if map@.contains_key(k) {
                assert(all.contains((&k, &map@[k])));
                let i = choose|i: int| 0 <= i < all.len() && all[i] == (&k, &map@[k]);
                assert(all_keys[i] == k);
            }
            if keys@.contains(k) {
                let i = choose|i: int| 0 <= i < keys@.len() && keys@[i] == k;
                assert(*all[i].0 == k);
                assert(map@.contains_key(*all[i].0));
            }
        }
    }
    keys
}

} // verus!
