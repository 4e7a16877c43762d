//! The chain store: every block that was accepted, with its place relative to
//! the main chain; the head; and the receipts of the micro blocks above the
//! last macro block.

use crate::accounts::Receipts;
use crate::block::Block;
use crate::chain_info::ChainInfo;
use crate::hash::Blake2bHash;
use crate::policy::Policy;
use crate::store_order::{lemma_walk_complete, lemma_walk_order};
use std::collections::BTreeMap;
use vstd::prelude::*;
use vstd::std_specs::btree::*;
use vstd::std_specs::iter::IteratorSpec;

verus! {

broadcast use {vstd::std_specs::btree::group_btree_axioms, vstd::laws_cmp::group_laws_cmp};

/// The entries of the blocks, the head and the receipts.
pub struct ChainStore {
    /// The entries, by the words of the digest of their block.
    pub infos: BTreeMap<(u64, u64, u64, u64), ChainInfo>,
    /// The digest of the head of the main chain.
    pub head: Option<Blake2bHash>,
    /// The receipts, by the height of the block that they belong to.
    pub receipts: BTreeMap<u32, Receipts>,
}

/// The entries by digest, given the entries by the words of the digest.
pub open spec fn by_hash(infos: Map<(u64, u64, u64, u64), ChainInfo>) -> Map<Blake2bHash, ChainInfo> {
    Map::new(|hash: Blake2bHash| infos.contains_key(hash.key()), |hash: Blake2bHash| infos[hash.key()])
}

/// The digests in `hashes` are in the order of the digests, and they are the
/// digests of the entries of `infos` whose height lies between `low` and `high`.
pub open spec fn lists_range(
    hashes: Seq<Blake2bHash>,
    infos: Map<Blake2bHash, ChainInfo>,
    low: u32,
    high: u32,
) -> bool {
    &&& forall|i: int, j: int| 0 <= i < j < hashes.len() ==> hashes[i].lex_lt(hashes[j])
    &&& forall|hash: Blake2bHash|
        hashes.contains(hash) <==> infos.contains_key(hash) && low
            <= infos[hash].head.spec_block_number() <= high
}

proof fn lemma_lists_range_prefix(
    a: Seq<Blake2bHash>,
    b: Seq<Blake2bHash>,
    infos: Map<Blake2bHash, ChainInfo>,
    low: u32,
    high: u32,
    n: nat,
)
    requires
        lists_range(a, infos, low, high),
        lists_range(b, infos, low, high),
        n <= a.len(),
    ensures
        n <= b.len(),
        forall|i: int| 0 <= i < n ==> a[i] == b[i],
    decreases n,
{
    if n > 0 {
        lemma_lists_range_prefix(a, b, infos, low, high, (n - 1) as nat);
        let k = n - 1;
        assert(a.contains(a[k]));
        assert(b.contains(a[k]));
        let j = choose|j: int| 0 <= j < b.len() && b[j] == a[k];
        if j < k {
            assert(a[j] == b[j]);
            assert(a[j].lex_lt(a[k]));
        } else if j > k {
            assert(b.contains(b[k]));
            assert(a.contains(b[k]));
            let i = choose|i: int| 0 <= i < a.len() && a[i] == b[k];
            assert(b[k].lex_lt(b[j]));
            if i < k {
                assert(a[i] == b[i]);
                assert(b[i].lex_lt(b[k]));
            } else if i > k {
                assert(a[k].lex_lt(a[i]));
            }
        }
    }
}

/// There is one way only to list the digests of the entries whose height
/// lies in a range in the order of the digests.
pub proof fn law_range_listing_is_unique(
    a: Seq<Blake2bHash>,
    b: Seq<Blake2bHash>,
    infos: Map<Blake2bHash, ChainInfo>,
    low: u32,
    high: u32,
)
    requires
        lists_range(a, infos, low, high),
        lists_range(b, infos, low, high),
    ensures
        a == b,
{
    lemma_lists_range_prefix(a, b, infos, low, high, a.len());
    lemma_lists_range_prefix(b, a, infos, low, high, b.len());
    assert(a =~= b);
}

/// The digests of the entries of `infos` whose block belongs to `epoch`.
pub open spec fn pruned(policy: Policy, infos: Map<Blake2bHash, ChainInfo>, epoch: int) -> Set<
    Blake2bHash,
> {
    Set::new(
        |hash: Blake2bHash|
            infos.contains_key(hash) && policy.spec_epoch_at(infos[hash].head.spec_block_number())
                == epoch,
    )
}

impl ChainStore {
    /// The entries, by the digest of their block.
    pub open spec fn chain_infos(self) -> Map<Blake2bHash, ChainInfo> {
        by_hash(self.infos@)
    }

    /// A store without entries.
    pub fn new() -> (store: ChainStore)
        ensures
            store.chain_infos() == Map::<Blake2bHash, ChainInfo>::empty(),
            store.head is None,
            store.receipts@ == Map::<u32, Receipts>::empty(),
    {
        let store = ChainStore { infos: BTreeMap::new(), head: None, receipts: BTreeMap::new() };
        assert(store.chain_infos() =~= Map::<Blake2bHash, ChainInfo>::empty());
        store
    }

    /// The entry of the block with digest `hash`, if the store has one.
    pub fn get_chain_info(&self, hash: &Blake2bHash) -> (found: Option<&ChainInfo>)
        ensures
            match found {
                Some(info) => self.chain_infos().contains_key(*hash) && *info
                    == self.chain_infos()[*hash],
                None => !self.chain_infos().contains_key(*hash),
            },
    {
        let key = hash.words();
        self.infos.get(&key)
    }

    /// Stores `info` under `hash`, in place of what was stored there.
    pub fn put_chain_info(&mut self, hash: &Blake2bHash, info: ChainInfo)
        ensures
            final(self).chain_infos() == old(self).chain_infos().insert(*hash, info),
            final(self).head == old(self).head,
            final(self).receipts == old(self).receipts,
    {
        let key = hash.words();
        self.infos.insert(key, info);
        assert(self.chain_infos() =~= old(self).chain_infos().insert(*hash, info));
    }

    /// Removes the entry under `hash`.
    pub fn remove_chain_info(&mut self, hash: &Blake2bHash)
        ensures
            final(self).chain_infos() == old(self).chain_infos().remove(*hash),
            final(self).head == old(self).head,
            final(self).receipts == old(self).receipts,
    {
        let key = hash.words();
        self.infos.remove(&key);
        assert(self.chain_infos() =~= old(self).chain_infos().remove(*hash));
    }

    /// Changes the place of the block under `hash`; the block stays.
    pub fn set_main_chain(
        &mut self,
        hash: &Blake2bHash,
        on_main_chain: bool,
        successor: Option<Blake2bHash>,
    )
        requires
            old(self).chain_infos().contains_key(*hash),
        ensures
            final(self).chain_infos() == old(self).chain_infos().insert(
                *hash,
                old(self).chain_infos()[*hash].relinked(on_main_chain, successor),
            ),
            final(self).head == old(self).head,
            final(self).receipts == old(self).receipts,
    {
        let key = hash.words();
        match self.infos.remove(&key) {
            Some(mut info) => {
                info.on_main_chain = on_main_chain;
                info.main_chain_successor = successor;
                self.infos.insert(key, info);
            },
            None => {},
        }
        assert(self.chain_infos() =~= old(self).chain_infos().insert(
            *hash,
            old(self).chain_infos()[*hash].relinked(on_main_chain, successor),
        ));
    }

    /// Makes `hash` the head.
    pub fn set_head(&mut self, hash: &Blake2bHash)
        ensures
            final(self).head == Some(*hash),
            final(self).infos == old(self).infos,
            final(self).receipts == old(self).receipts,
    {
        self.head = Some(*hash);
    }

    /// Stores the receipts of the block at `height`.
    pub fn put_receipts(&mut self, height: u32, receipts: Receipts)
        ensures
            final(self).receipts@ == old(self).receipts@.insert(height, receipts),
            final(self).infos == old(self).infos,
            final(self).head == old(self).head,
    {
        self.receipts.insert(height, receipts);
    }

    /// The receipts of the block at `height`, if the store has them.
    pub fn get_receipts(&self, height: u32) -> (found: Option<&Receipts>)
        ensures
            match found {
                Some(receipts) => self.receipts@.contains_key(height) && *receipts
                    == self.receipts@[height],
                None => !self.receipts@.contains_key(height),
            },
    {
        self.receipts.get(&height)
    }

    /// Removes all receipts.
    pub fn clear_receipts(&mut self)
        ensures
            final(self).receipts@ == Map::<u32, Receipts>::empty(),
            final(self).infos == old(self).infos,
            final(self).head == old(self).head,
    {
        self.receipts.clear();
    }

    /// The digests of the blocks whose height lies between `low` and `high`,
    /// in the order of the digests.
    pub fn hashes_in_range(&self, low: u32, high: u32) -> (hashes: Vec<Blake2bHash>)
        ensures
            lists_range(hashes@, self.chain_infos(), low, high),
    {
        let mut hashes: Vec<Blake2bHash> = Vec::new();
        let ghost mut places: Seq<int> = Seq::empty();
        for kv in it: self.infos.iter()
            invariant
                it.seq() == spec_btree_map_iter(&self.infos).remaining(),
                increasing_seq(
                    it.seq().map_values(|kv: (&(u64, u64, u64, u64), &ChainInfo)| *kv.0),
                ),
                places.len() == hashes@.len(),
                forall|p: int|
                    0 <= p < places.len() ==> 0 <= #[trigger] places[p] < it.index() && hashes@[p]
                        == Blake2bHash::of_key(*it.seq()[places[p]].0) && low
                        <= it.seq()[places[p]].1.head.spec_block_number() <= high,
                forall|p: int, q: int| 0 <= p < q < places.len() ==> places[p] < places[q],
                forall|i: int|
                    0 <= i < it.index() && low <= (#[trigger] it.seq()[i]).1.head.spec_block_number()
                        <= high ==> exists|p: int| 0 <= p < places.len() && places[p] == i,
        {
            let number = kv.1.head.block_number();
            if low <= number && number <= high {
                let ghost before = places;
                proof {
                    places = places.push(it.index());
                    assert(forall|p: int| 0 <= p < before.len() ==> places[p] == before[p]);
                }
                hashes.push(Blake2bHash { w0: kv.0.0, w1: kv.0.1, w2: kv.0.2, w3: kv.0.3 });
                assert forall|i: int|
                    0 <= i < it.index() + 1 && low <= (
                    #[trigger] it.seq()[i]).1.head.spec_block_number() <= high implies exists|p: int|
                    0 <= p < places.len() && places[p] == i by {
                    if i < it.index() {
                        let p = choose|p: int| 0 <= p < before.len() && before[p] == i;
                        assert(places[p] == i);
                    } else {
                        assert(places[before.len() as int] == i);
                    }
                }
            }
        }
        proof {
            let walk = spec_btree_map_iter(&self.infos).remaining();
            lemma_walk_order(&self.infos);
            lemma_walk_complete(&self.infos);
            let infos = self.chain_infos();
            assert forall|i: int, j: int| 0 <= i < j < hashes@.len() implies hashes@[i].lex_lt(
                hashes@[j],
            ) by {
                assert(places[i] < places[j]);
                assert(Blake2bHash::of_key(*walk[places[i]].0).lex_lt(
                    Blake2bHash::of_key(*walk[places[j]].0),
                ));
            }
            assert forall|hash: Blake2bHash| hashes@.contains(hash) <==> infos.contains_key(hash)
                && low <= infos[hash].head.spec_block_number() <= high by {
                if hashes@.contains(hash) {
                    let p = choose|p: int| 0 <= p < hashes@.len() && hashes@[p] == hash;
                    let i = places[p];
                    assert(self.infos@.contains_key(*walk[i].0));
                    assert(hash.key() == *walk[i].0);
                }
                if infos.contains_key(hash) && low <= infos[hash].head.spec_block_number() <= high {
                    assert(self.infos@.contains_key(hash.key()));
                    let i = choose|i: int| 0 <= i < walk.len() && *(#[trigger] walk[i]).0 == hash.key();
                    assert(self.infos@[*walk[i].0] == *walk[i].1);
                    let p = choose|p: int| 0 <= p < places.len() && places[p] == i;
                    assert(hashes@[p] == hash);
                }
            }
        }
        hashes
    }

    /// Removes the entries whose height lies between `low` and `high`.
    pub fn remove_range(&mut self, low: u32, high: u32)
        ensures
            final(self).chain_infos() == old(self).chain_infos().remove_keys(
                Set::new(
                    |hash: Blake2bHash|
                        old(self).chain_infos().contains_key(hash) && low <= old(
                            self,
                        ).chain_infos()[hash].head.spec_block_number() <= high,
                ),
            ),
            final(self).head == old(self).head,
            final(self).receipts == old(self).receipts,
    {
        let doomed = self.hashes_in_range(low, high);
        let mut i: usize = 0;
        while i < doomed.len()
            invariant
                i <= doomed@.len(),
                lists_range(doomed@, old(self).chain_infos(), low, high),
                self.chain_infos() == old(self).chain_infos().remove_keys(
                    doomed@.take(i as int).to_set(),
                ),
                self.head == old(self).head,
                self.receipts == old(self).receipts,
            decreases doomed@.len() - i,
        {
            let ghost before = self.chain_infos();
            self.remove_chain_info(&doomed[i]);
            proof {
                let next = doomed@.take(i + 1);
                assert(next.drop_last() =~= doomed@.take(i as int));
                assert(forall|hash: Blake2bHash|
                    next.to_set().contains(hash) <==> (doomed@.take(i as int).to_set().contains(hash)
                        || hash == doomed@[i as int])) by {
                    assert forall|hash: Blake2bHash| next.to_set().contains(hash) implies (doomed@.take(
                        i as int,
                    ).to_set().contains(hash) || hash == doomed@[i as int]) by {
                        let p = choose|p: int| 0 <= p < next.len() && next[p] == hash;
                        if p < i {
                            assert(doomed@.take(i as int)[p] == hash);
                        }
                    }
                    assert forall|hash: Blake2bHash|
                        (doomed@.take(i as int).to_set().contains(hash) || hash
                            == doomed@[i as int]) implies next.to_set().contains(hash) by {
                        if hash == doomed@[i as int] {
                            assert(next[i as int] == hash);
                        } else {
                            let p = choose|p: int|
                                0 <= p < doomed@.take(i as int).len() && doomed@.take(i as int)[p]
                                    == hash;
                            assert(next[p] == hash);
                        }
                    }
                }
                assert(self.chain_infos() =~= old(self).chain_infos().remove_keys(next.to_set()));
            }
            i = i + 1;
        }
        proof {
            assert(doomed@.take(i as int) =~= doomed@);
            assert(doomed@.to_set() =~= Set::new(
                |hash: Blake2bHash|
                    old(self).chain_infos().contains_key(hash) && low <= old(
                        self,
                    ).chain_infos()[hash].head.spec_block_number() <= high,
            ));
        }
    }

    /// Removes the entries of the blocks that belong to `epoch`.
    pub fn prune_epoch(&mut self, policy: &Policy, epoch: u32)
        requires
            policy.wf(),
        ensures
            final(self).chain_infos() == old(self).chain_infos().remove_keys(
                pruned(*policy, old(self).chain_infos(), epoch as int),
            ),
            final(self).head == old(self).head,
            final(self).receipts == old(self).receipts,
    {
        let bounds = policy.epoch_bounds(epoch);
        self.remove_range(bounds.0, bounds.1);
        proof {
            assert(pruned(*policy, old(self).chain_infos(), epoch as int) =~= Set::new(
                |hash: Blake2bHash|
                    old(self).chain_infos().contains_key(hash) && bounds.0 <= old(
                        self,
                    ).chain_infos()[hash].head.spec_block_number() <= bounds.1,
            ));
        }
    }

    /// The blocks at `height`, in the order of the digests under which they
    /// are stored.
    pub fn get_blocks_at(&self, height: u32) -> (blocks: Vec<Block>)
        ensures
            exists|hashes: Seq<Blake2bHash>|
                {
                    &&& #[trigger] lists_range(hashes, self.chain_infos(), height, height)
                    &&& blocks@.len() == hashes.len()
                    &&& forall|i: int|
                        0 <= i < blocks@.len() ==> (#[trigger] blocks@[i])@
                            == self.chain_infos()[hashes[i]].head@
                },
    {
        let hashes = self.hashes_in_range(height, height);
        let mut blocks: Vec<Block> = Vec::new();
        let mut i: usize = 0;
        while i < hashes.len()
            invariant
                i <= hashes@.len(),
                lists_range(hashes@, self.chain_infos(), height, height),
                blocks@.len() == i,
                forall|k: int|
                    0 <= k < i ==> (#[trigger] blocks@[k])@ == self.chain_infos()[hashes@[k]].head@,
            decreases hashes@.len() - i,
        {
            assert(hashes@.contains(hashes@[i as int]));
            let info = self.get_chain_info(&hashes[i]).unwrap();
            blocks.push(info.head.clone());
            i = i + 1;
        }
        blocks
    }
}

} // verus!
