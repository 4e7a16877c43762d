//! The order in which a map of accounts is walked.

use crate::accounts::is_sorted_entries;
use std::collections::BTreeMap;
use vstd::prelude::*;
use vstd::std_specs::btree::*;
use vstd::std_specs::cmp::OrdSpec;
use vstd::std_specs::iter::IteratorSpec;

verus! {

broadcast use {vstd::std_specs::btree::group_btree_axioms, vstd::laws_cmp::group_laws_cmp};

proof fn lemma_increasing(keys: Seq<u64>)
    requires
        increasing_seq(keys),
    ensures
        forall|i: int, j: int| 0 <= i < j < keys.len() ==> keys[i] < keys[j],
{
    assert forall|i: int, j: int| 0 <= i < j < keys.len() implies keys[i] < keys[j] by {
        assert(keys[i].cmp_spec(&keys[j]) is Less);
    }
}

/// A walk over a map of accounts lists the accounts in the order of their
/// addresses.
pub proof fn lemma_iteration_is_sorted(balances: &BTreeMap<u64, u64>, entries: Seq<(u64, u64)>)
    requires
        increasing_seq(
            spec_btree_map_iter(balances).remaining().map_values(|kv: (&u64, &u64)| *kv.0),
        ),
        entries.len() == spec_btree_map_iter(balances).remaining().len(),
        forall|i: int|
            0 <= i < entries.len() ==> entries[i].0 == *spec_btree_map_iter(
                balances,
            ).remaining()[i].0 && entries[i].1 == *spec_btree_map_iter(balances).remaining()[i].1,
    ensures
        is_sorted_entries(entries, balances@),
{
    let walk = spec_btree_map_iter(balances).remaining();
    let keys = walk.map_values(|kv: (&u64, &u64)| *kv.0);
    lemma_increasing(keys);
    assert forall|i: int, j: int| 0 <= i < j < entries.len() implies entries[i].0 < entries[j].0 by {
        assert(keys[i] == entries[i].0);
        assert(keys[j] == entries[j].0);
    }
    assert forall|i: int| 0 <= i < entries.len() implies balances@.contains_key(
        #[trigger] entries[i].0,
    ) && balances@[entries[i].0] == entries[i].1 by {
        assert(balances@.contains_key(*walk[i].0));
    }
    assert forall|address: u64| #[trigger] balances@.contains_key(address) implies exists|i: int|
        0 <= i < entries.len() && #[trigger] entries[i].0 == address by {
        assert(walk.contains((&address, &balances@[address])));
        let i = choose|i: int| 0 <= i < walk.len() && walk[i] == (&address, &balances@[address]);
        assert(entries[i].0 == address);
    }
}

} // verus!
