//! The order in which the entries of the chain store are walked.

use crate::chain_info::ChainInfo;
use crate::hash::Blake2bHash;
use std::collections::BTreeMap;
use vstd::prelude::*;
use vstd::std_specs::btree::*;
use vstd::std_specs::cmp::OrdSpec;
use vstd::std_specs::iter::IteratorSpec;

verus! {

broadcast use {vstd::std_specs::btree::group_btree_axioms, vstd::laws_cmp::group_laws_cmp};

/// The keys of a walk come in the order of the digests.
pub proof fn lemma_walk_order(infos: &BTreeMap<(u64, u64, u64, u64), ChainInfo>)
    requires
        increasing_seq(
            spec_btree_map_iter(infos).remaining().map_values(
                |kv: (&(u64, u64, u64, u64), &ChainInfo)| *kv.0,
            ),
        ),
    ensures
        forall|i: int, j: int|
            0 <= i < j < spec_btree_map_iter(infos).remaining().len() ==> Blake2bHash::of_key(
                *(#[trigger] spec_btree_map_iter(infos).remaining()[i]).0,
            ).lex_lt(Blake2bHash::of_key(*(#[trigger] spec_btree_map_iter(infos).remaining()[j]).0)),
{
    let walk = spec_btree_map_iter(infos).remaining();
    let keys = walk.map_values(|kv: (&(u64, u64, u64, u64), &ChainInfo)| *kv.0);
    assert forall|i: int, j: int| 0 <= i < j < walk.len() implies Blake2bHash::of_key(
        *(#[trigger] walk[i]).0,
    ).lex_lt(Blake2bHash::of_key(*(#[trigger] walk[j]).0)) by {
        assert(keys[i] == *walk[i].0);
        assert(keys[j] == *walk[j].0);
        assert(keys[i].cmp_spec(&keys[j]) is Less);
    }
}

/// A walk meets every entry, and nothing else.
pub proof fn lemma_walk_complete(infos: &BTreeMap<(u64, u64, u64, u64), ChainInfo>)
    ensures
        forall|i: int|
            0 <= i < spec_btree_map_iter(infos).remaining().len() ==> infos@.contains_key(
                *(#[trigger] spec_btree_map_iter(infos).remaining()[i]).0,
            ) && infos@[*spec_btree_map_iter(infos).remaining()[i].0] == *spec_btree_map_iter(
                infos,
            ).remaining()[i].1,
        forall|key: (u64, u64, u64, u64)| #[trigger]
            infos@.contains_key(key) ==> exists|i: int|
                0 <= i < spec_btree_map_iter(infos).remaining().len() && *(
                #[trigger] spec_btree_map_iter(infos).remaining()[i]).0 == key,
{
    let walk = spec_btree_map_iter(infos).remaining();
    assert forall|i: int| 0 <= i < walk.len() implies infos@.contains_key(*(#[trigger] walk[i]).0)
        && infos@[*walk[i].0] == *walk[i].1 by {
        assert(infos@.contains_key(*walk[i].0));
    }
    assert forall|key: (u64, u64, u64, u64)| #[trigger] infos@.contains_key(key) implies exists|
        i: int,
    | 0 <= i < walk.len() && *(#[trigger] walk[i]).0 == key by {
        assert(walk.contains((&key, &infos@[key])));
        let i = choose|i: int| 0 <= i < walk.len() && walk[i] == (&key, &infos@[key]);
        assert(*walk[i].0 == key);
    }
}

} // verus!
