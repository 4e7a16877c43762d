//! Changing the main chain to a better branch.

use crate::accounts::accounts_root;
use crate::block::{Block, MacroBlock};
use crate::blockchain::{
    applied_log, blocks_view, events_view, receipts_view, reverted_log, BlockLog, Blockchain,
    BlockchainEvent, BlockchainEventView, WriteTransaction,
};
use crate::chain_view::ChainView;
use crate::error::{PushError, PushResult};
use crate::hash::Blake2bHash;
use crate::upkeep::{
    lemma_applied_revertible, lemma_purge_keeps_wf, lemma_rebranch_keeps_wf, lemma_relinked_at,
    lemma_revert_step, lemma_revertible_frame,
};
use vstd::prelude::*;
use vstd::std_specs::btree::*;

verus! {


impl Blockchain {
    /// Walks up the branch of the stored block `tip`, which is no part of the
    /// main chain, as long as the parent of a block is stored one below it and
    /// is no part of the main chain. Gives the blocks of the branch, `tip`
    /// first, and whether the lowest one hangs on the main chain.
    fn branch_of(&self, tip: &Blake2bHash) -> (found: (Vec<Blake2bHash>, bool))
        requires
            self@.infos.contains_key(*tip),
            !self@.on_main(*tip),
        ensures
            self@.is_branch(found.0@, *tip),
            !self@.continues(found.0@.last()),
            found.1 == self@.rooted(found.0@.last()),
    {
        let ghost chain = self@;
        let mut fork: Vec<Blake2bHash> = Vec::new();
        let mut current: Blake2bHash = *tip;
        let mut done = false;
        let mut rooted = false;
        while !done
            invariant
                chain == self@,
                !done ==> chain.infos.contains_key(current) && !chain.on_main(current)
                    && chain.number(current) == chain.number(*tip) - fork@.len(),
                !done && fork@.len() == 0 ==> current == *tip,
                !done && fork@.len() > 0 ==> chain.parent(fork@.last()) == current,
                fork@.len() > 0 ==> fork@[0] == *tip,
                forall|i: int|
                    0 <= i < fork@.len() ==> chain.infos.contains_key(#[trigger] fork@[i])
                        && !chain.on_main(fork@[i]) && chain.number(fork@[i]) == chain.number(*tip)
                        - i,
                forall|i: int|
                    0 <= i < fork@.len() - 1 ==> #[trigger] chain.parent(fork@[i]) == fork@[i + 1],
                done ==> fork@.len() > 0,
                !done ==> !rooted,
                done ==> !chain.continues(fork@.last()),
                done ==> rooted == chain.rooted(fork@.last()),
            decreases
                    (if done {
                        0
                    } else {
                        chain.number(current) + 1
                    }),
        {
            let info = self.chain_store.get_chain_info(&current).unwrap();
            let parent_hash = info.head.parent_hash();
            let number = info.head.block_number();
            fork.push(current);
            assert(fork@.last() == current);
            assert(chain.parent(current) == parent_hash);
            match self.chain_store.get_chain_info(&parent_hash) {
                Some(parent) => {
                    if parent.on_main_chain {
                        rooted = true;
                        done = true;
                    } else if number > 0 && parent.head.block_number() == number - 1 {
                        current = parent_hash;
                    } else {
                        done = true;
                    }
                },
                None => {
                    done = true;
                },
            }
        }
        (fork, rooted)
    }

    /// Removes from the store the highest `count` blocks of `fork`.
    fn remove_fork_blocks(&mut self, fork: &Vec<Blake2bHash>, count: usize)
        requires
            count <= fork@.len(),
        ensures
            final(self)@ == old(self)@.purged(fork@, count as int),
            final(self).chain_store.head == old(self).chain_store.head,
            final(self).notifier == old(self).notifier,
            final(self).fork_notifier == old(self).fork_notifier,
            final(self).log_notifier == old(self).log_notifier,
    {
        let mut j: usize = 0;
        proof {
            assert(fork@.take(0).to_set() =~= Set::<Blake2bHash>::empty());
            assert(self@.infos =~= old(self)@.infos.remove_keys(fork@.take(0).to_set()));
        }
        while j < count
            invariant
                j <= count <= fork@.len(),
                self@ == old(self)@.purged(fork@, j as int),
                self.chain_store.head == old(self).chain_store.head,
                self.notifier == old(self).notifier,
                self.fork_notifier == old(self).fork_notifier,
                self.log_notifier == old(self).log_notifier,
            decreases count - j,
        {
            self.chain_store.remove_chain_info(&fork[j]);
            proof {
                let before = fork@.take(j as int);
                let after = fork@.take(j + 1);
                assert(after =~= before.push(fork@[j as int]));
                assert(after.to_set() =~= before.to_set().insert(fork@[j as int])) by {
                    assert forall|hash: Blake2bHash| after.to_set().contains(hash) implies before.to_set().insert(
                        fork@[j as int],
                    ).contains(hash) by {
                        let p = choose|p: int| 0 <= p < after.len() && after[p] == hash;
                        if p < j {
                            assert(before[p] == hash);
                        }
                    }
                    assert forall|hash: Blake2bHash|
                        before.to_set().insert(fork@[j as int]).contains(
                            hash,
                        ) implies after.to_set().contains(hash) by {
                        if hash == fork@[j as int] {
                            assert(after[j as int] == hash);
                        } else {
                            let p = choose|p: int| 0 <= p < before.len() && before[p] == hash;
                            assert(after[p] == hash);
                        }
                    }
                }
                assert(self@.infos =~= old(self)@.infos.remove_keys(after.to_set()));
            }
            j = j + 1;
        }
    }

    /// Takes the block `current` of the main chain, which lies above
    /// `ancestor`, back inside the transaction. Gives the digest of its
    /// parent, the block and its log.
    fn revert_step(
        &self,
        txn: &mut WriteTransaction,
        current: &Blake2bHash,
        Ghost(ancestor): Ghost<Blake2bHash>,
    ) -> (out: (Blake2bHash, Block, BlockLog))
        requires
            self@.policy.wf(),
            self@.keyed(),
            crate::upkeep::main_chain_above(self@, ancestor),
            self@.infos.contains_key(*current),
            self@.on_main(*current),
            self@.number(*current) >= self@.number(ancestor),
            *current != ancestor,
            old(txn).accounts.wf(),
            receipts_view(old(txn).receipts@) == self@.receipts,
            self@.revertible(old(txn).accounts@, *current),
            accounts_root(old(txn).accounts@) == self@.block(*current).spec_state_root(),
        ensures
            out.0 == self@.parent(*current),
            out.1@ == self@.block(*current)@,
            out.2 == reverted_log(self@.block(*current)),
            self@.number(*current) > self@.number(ancestor),
            self@.infos.contains_key(out.0),
            self@.on_main(out.0),
            self@.number(out.0) + 1 == self@.number(*current),
            final(txn).accounts.wf(),
            final(txn).receipts == old(txn).receipts,
            self@.revert_block(old(txn).accounts@, *current) == Ok::<
                Map<u64, u64>,
                crate::accounts::AccountError,
            >(final(txn).accounts@),
            self@.revertible(final(txn).accounts@, out.0),
            accounts_root(final(txn).accounts@) == self@.block(out.0).spec_state_root(),
    {
        let info = self.chain_store.get_chain_info(current).unwrap();
        let ghost chain = self@;
        let ghost accounts = txn.accounts@;
        proof {
            reveal(ChainView::revert_block);
            lemma_revert_step(chain, ancestor, *current, accounts);
            assert(txn.over(chain) == chain.with_accounts(accounts));
            assert(txn.over(chain).revert_block(accounts, *current) == chain.revert_block(
                accounts,
                *current,
            ));
            assert(chain.receipts.contains_key(info.head.spec_block_number()));
        }
        let log = self.revert_accounts(txn, &info.head).unwrap();
        (info.head.parent_hash(), info.head.clone(), log)
    }

    /// Takes the main chain back, inside the transaction, from the head down
    /// to the block `ancestor` of the main chain. Gives the blocks that were
    /// taken back, the head first: their digests, the blocks, and their logs.
    fn revert_to(&self, txn: &mut WriteTransaction, ancestor: &Blake2bHash) -> (out: (
        Vec<Blake2bHash>,
        Vec<(Blake2bHash, Block)>,
        Vec<BlockLog>,
    ))
        requires
            self@.policy.wf(),
            self@.keyed(),
            self@.heads(),
            self@.main_linked(),
            self@.topped(),
            self@.single(),
            self@.settled(),
            old(txn).over(self@) == self@,
            self@.infos.contains_key(*ancestor),
            self@.on_main(*ancestor),
            self@.number(*ancestor) >= self@.macro_number(),
        ensures
            self@.is_reverted(out.0@, *ancestor),
            final(txn).accounts.wf(),
            final(txn).accounts@ == self@.unwound(out.0@, out.0@.len()),
            final(txn).receipts == old(txn).receipts,
            self@.revertible(final(txn).accounts@, *ancestor),
            accounts_root(final(txn).accounts@) == self@.block(*ancestor).spec_state_root(),
            blocks_view(out.1@) == crate::transition::reverted_blocks(self@, out.0@),
            out.2@ == crate::transition::reverted_logs(self@, out.0@),
    {
        let ghost chain = self@;
        let mut reverted: Vec<Blake2bHash> = Vec::new();
        let mut blocks: Vec<(Blake2bHash, Block)> = Vec::new();
        let mut logs: Vec<BlockLog> = Vec::new();
        let mut current: Blake2bHash = self.state.head_hash;
        proof {
            assert(chain.infos.contains_key(chain.head));
            crate::upkeep::lemma_main_chain_above(chain, *ancestor);
        }
        while current != *ancestor
            invariant
                chain == self@,
                chain.policy.wf(),
                chain.keyed(),
                crate::upkeep::main_chain_above(chain, *ancestor),
                chain.infos.contains_key(*ancestor),
                chain.infos.contains_key(chain.head),
                chain.infos.contains_key(current),
                chain.on_main(current),
                chain.number(current) >= chain.number(*ancestor),
                chain.number(current) == chain.head_number() - reverted@.len(),
                reverted@.len() == 0 ==> current == chain.head,
                reverted@.len() > 0 ==> reverted@[0] == chain.head && chain.parent(
                    reverted@.last(),
                ) == current,
                forall|j: int|
                    0 <= j < reverted@.len() ==> chain.infos.contains_key(#[trigger] reverted@[j])
                        && chain.on_main(reverted@[j]) && chain.number(reverted@[j])
                        == chain.head_number() - j,
                forall|j: int|
                    0 <= j < reverted@.len() - 1 ==> #[trigger] chain.parent(reverted@[j])
                        == reverted@[j + 1],
                txn.accounts.wf(),
                txn.accounts@ == chain.unwound(reverted@, reverted@.len()),
                txn.receipts == old(txn).receipts,
                receipts_view(txn.receipts@) == chain.receipts,
                chain.revertible(txn.accounts@, current),
                accounts_root(txn.accounts@) == chain.block(current).spec_state_root(),
                blocks@.len() == reverted@.len(),
                logs@.len() == reverted@.len(),
                forall|j: int|
                    0 <= j < reverted@.len() ==> (#[trigger] blocks@[j]).0 == reverted@[j]
                        && blocks@[j].1@ == chain.block(reverted@[j])@,
                forall|j: int|
                    0 <= j < reverted@.len() ==> #[trigger] logs@[j] == reverted_log(
                        chain.block(reverted@[j]),
                    ),
            decreases chain.number(current),
        {
            let ghost before = reverted@;
            let step = self.revert_step(txn, &current, Ghost(*ancestor));
            logs.push(step.2);
            blocks.push((current, step.1));
            reverted.push(current);
            proof {
                crate::transition::lemma_unwound_prefix(chain, before, reverted@, before.len());
                assert(reverted@.len() == before.len() + 1);
                assert forall|j: int| 0 <= j < reverted@.len() - 1 implies #[trigger] chain.parent(
                    reverted@[j],
                ) == reverted@[j + 1] by {
                    if j < before.len() - 1 {
                        assert(chain.parent(before[j]) == before[j + 1]);
                    }
                }
            }
            current = step.0;
        }
        proof {
            assert(blocks_view(blocks@) =~= crate::transition::reverted_blocks(chain, reverted@));
            assert(logs@ =~= crate::transition::reverted_logs(chain, reverted@));
        }
        (reverted, blocks, logs)
    }

    /// Applies the stored block `hash` inside the transaction, on top of its
    /// parent. Gives the block and its log, or nothing where it is refused.
    fn replay_step(&self, txn: &mut WriteTransaction, hash: &Blake2bHash) -> (out: Option<
        (Block, BlockLog),
    >)
        requires
            self@.policy.wf(),
            self@.infos.contains_key(*hash),
            self@.parent_stored(*hash),
            self@.number(*hash) > self@.macro_number(),
            old(txn).accounts.wf(),
            accounts_root(old(txn).accounts@) == self@.block(self@.parent(*hash)).spec_state_root(),
            old(txn).over(self@).revertible(old(txn).accounts@, self@.parent(*hash)),
        ensures
            final(txn).accounts.wf(),
            match out {
                Some(applied) => {
                    &&& self@.applied(
                        old(txn).accounts@,
                        receipts_view(old(txn).receipts@),
                        self@.block(*hash),
                    ) == Ok::<(Map<u64, u64>, Map<u32, Seq<u64>>), PushError>(
                        (final(txn).accounts@, receipts_view(final(txn).receipts@)),
                    )
                    &&& applied.0@ == self@.block(*hash)@
                    &&& applied.1 == applied_log(self@.block(*hash))
                    &&& accounts_root(final(txn).accounts@) == self@.block(*hash).spec_state_root()
                    &&& self@.block(*hash).spec_is_macro() ==> receipts_view(final(txn).receipts@)
                        == Map::<u32, Seq<u64>>::empty()
                    &&& !self@.block(*hash).spec_is_macro() ==> final(txn).over(self@).revertible(
                        final(txn).accounts@,
                        *hash,
                    ) && receipts_view(final(txn).receipts@) == receipts_view(
                        old(txn).receipts@,
                    ).insert(
                        self@.block(*hash).spec_block_number(),
                        receipts_view(final(txn).receipts@)[self@.block(*hash).spec_block_number()],
                    )
                },
                None => self@.applied(
                    old(txn).accounts@,
                    receipts_view(old(txn).receipts@),
                    self@.block(*hash),
                ) is Err,
            },
    {
        let ghost chain = self@;
        let ghost mid = txn.over(chain);
        let info = self.chain_store.get_chain_info(hash).unwrap();
        match self.check_and_commit(&info.head, txn) {
            Ok(log) => {
                proof {
                    reveal(ChainView::applied);
                    assert(mid.applied(mid.accounts, mid.receipts, mid.block(*hash))
                        == chain.applied(mid.accounts, mid.receipts, chain.block(*hash)));
                    lemma_applied_revertible(
                        mid,
                        *hash,
                        txn.accounts@,
                        receipts_view(txn.receipts@),
                    );
                    assert(txn.over(chain) == (ChainView {
                        accounts: txn.accounts@,
                        receipts: receipts_view(txn.receipts@),
                        ..mid
                    }));
                }
                Some((info.head.clone(), log))
            },
            Err(_) => {
                proof {
                    reveal(ChainView::applied);
                }
                None
            },
        }
    }

    /// Applies, inside the transaction, the blocks of the branch `fork` from
    /// the lowest on, until one is refused. Gives the number of blocks that
    /// were applied, and those blocks with their logs, the lowest first.
    fn replay_fork(&self, txn: &mut WriteTransaction, fork: &Vec<Blake2bHash>) -> (out: (
        usize,
        Vec<(Blake2bHash, Block)>,
        Vec<BlockLog>,
    ))
        requires
            self@.policy.wf(),
            self@.is_branch(fork@, fork@[0]),
            self@.parent_stored(fork@.last()),
            forall|i: int|
                0 <= i < fork@.len() ==> self@.number(#[trigger] fork@[i]) > self@.macro_number(),
            forall|i: int| 1 <= i < fork@.len() ==> !self@.block(#[trigger] fork@[i]).spec_is_macro(),
            old(txn).accounts.wf(),
            receipts_view(old(txn).receipts@) == self@.receipts,
            old(txn).over(self@).revertible(old(txn).accounts@, self@.parent(fork@.last())),
            accounts_root(old(txn).accounts@) == self@.block(
                self@.parent(fork@.last()),
            ).spec_state_root(),
        ensures
            final(txn).accounts.wf(),
            out.0 <= fork@.len(),
            out.0 == out.1@.len(),
            out.0 == out.2@.len(),
            self@.replayed(old(txn).accounts@, fork@, out.0 as nat) is Ok,
            out.0 < fork@.len() ==> self@.replayed(
                old(txn).accounts@,
                fork@,
                (out.0 + 1) as nat,
            ) is Err,
            out.0 == fork@.len() ==> {
                &&& self@.replayed(old(txn).accounts@, fork@, out.0 as nat) == Ok::<
                    (Map<u64, u64>, Map<u32, Seq<u64>>),
                    PushError,
                >((final(txn).accounts@, receipts_view(final(txn).receipts@)))
                &&& forall|height: u32| #[trigger]
                    receipts_view(final(txn).receipts@).contains_key(height)
                        ==> self@.receipts.contains_key(height) || self@.number(
                        self@.parent(fork@.last()),
                    ) < height <= self@.number(fork@[0])
                &&& accounts_root(final(txn).accounts@) == self@.block(fork@[0]).spec_state_root()
                &&& !self@.block(fork@[0]).spec_is_macro() ==> final(txn).over(self@).revertible(
                    final(txn).accounts@,
                    fork@[0],
                )
                &&& self@.block(fork@[0]).spec_is_macro() ==> receipts_view(final(txn).receipts@)
                    == Map::<u32, Seq<u64>>::empty()
            },
            forall|i: int|
                0 <= i < out.0 ==> (#[trigger] out.1@[i]).0 == fork@[fork@.len() - 1 - i]
                    && out.1@[i].1@ == self@.block(fork@[fork@.len() - 1 - i])@,
            forall|i: int|
                0 <= i < out.0 ==> #[trigger] out.2@[i] == applied_log(
                    self@.block(fork@[fork@.len() - 1 - i]),
                ),
    {
        let ghost chain = self@;
        let ghost start = txn.accounts@;
        let ghost ancestor = chain.parent(fork@.last());
        let n: usize = fork.len();
        let mut blocks: Vec<(Blake2bHash, Block)> = Vec::new();
        let mut logs: Vec<BlockLog> = Vec::new();
        let mut k: usize = 0;
        let ghost mut top: Blake2bHash = ancestor;
        proof {
            crate::upkeep::lemma_branch_ready(chain, fork@);
            crate::upkeep::lemma_branch_step(chain, fork@, 0);
        }
        let mut refused = false;
        while k < n && !refused
            invariant
                refused ==> k < n && chain.replayed(start, fork@, (k + 1) as nat) is Err,
                chain.replayed(start, fork@, k as nat) is Ok,
                chain == self@,
                chain.policy.wf(),
                n == fork@.len(),
                k <= n,
                start == old(txn).accounts@,
                ancestor == chain.parent(fork@.last()),
                crate::upkeep::branch_ready(chain, fork@),
                txn.accounts.wf(),
                !refused ==> chain.replayed(start, fork@, k as nat) == Ok::<
                    (Map<u64, u64>, Map<u32, Seq<u64>>),
                    PushError,
                >((txn.accounts@, receipts_view(txn.receipts@))),
                top == (if k == 0 {
                    ancestor
                } else {
                    fork@[n - k]
                }),
                chain.infos.contains_key(top),
                !refused ==> accounts_root(txn.accounts@) == chain.block(top).spec_state_root(),
                !refused && (k == 0 || !chain.block(top).spec_is_macro())
                    ==> txn.over(chain).revertible(txn.accounts@, top),
                !refused && k > 0 && chain.block(top).spec_is_macro() ==> receipts_view(
                    txn.receipts@,
                ) == Map::<u32, Seq<u64>>::empty(),
                !refused ==> forall|height: u32| #[trigger]
                    receipts_view(txn.receipts@).contains_key(height)
                        ==> chain.receipts.contains_key(height) || chain.number(ancestor) < height
                        <= chain.number(fork@[0]),
                blocks@.len() == k,
                logs@.len() == k,
                forall|i: int|
                    0 <= i < k ==> (#[trigger] blocks@[i]).0 == fork@[n - 1 - i] && blocks@[i].1@
                        == chain.block(fork@[n - 1 - i])@,
                forall|i: int|
                    0 <= i < k ==> #[trigger] logs@[i] == applied_log(chain.block(fork@[n - 1 - i])),
            decreases n - k + (if refused { 0int } else { 1int }),
        {
            let hash = fork[n - 1 - k];
            let ghost before = (txn.accounts@, receipts_view(txn.receipts@));
            proof {
                crate::upkeep::lemma_branch_step(chain, fork@, k as int);
            }
            match self.replay_step(txn, &hash) {
                Some(applied) => {
                    proof {
                        top = hash;
                        crate::upkeep::lemma_replay_progress(
                            chain,
                            fork@,
                            start,
                            k as nat,
                            before,
                            (txn.accounts@, receipts_view(txn.receipts@)),
                        );
                    }
                    logs.push(applied.1);
                    blocks.push((hash, applied.0));
                    k = k + 1;
                },
                None => {
                    proof {
                        crate::upkeep::lemma_replay_refused(chain, fork@, start, k as nat, before);
                    }
                    refused = true;
                },
            }
        }
        (k, blocks, logs)
    }

    /// Gives the blocks their new places after the main chain changed to the
    /// branch `fork`: the blocks of `reverted` leave the main chain, the
    /// ancestor is followed by the lowest block of the branch, and the blocks
    /// of the branch join the main chain, each followed by the next higher one.
    #[verifier::rlimit(30)]
    fn relink(&mut self, fork: &Vec<Blake2bHash>, reverted: &Vec<Blake2bHash>)
        requires
            old(self)@.candidate(fork@[0]),
            old(self)@.is_branch(fork@, fork@[0]),
            old(self)@.parent_stored(fork@.last()),
            old(self)@.on_main(old(self)@.parent(fork@.last())),
            old(self)@.is_reverted(reverted@, old(self)@.parent(fork@.last())),
        ensures
            final(self)@ == (ChainView {
                infos: old(self)@.relinked(
                    fork@,
                    reverted@,
                    old(self)@.parent(fork@.last()),
                ),
                ..old(self)@
            }),
            final(self).chain_store.head == old(self).chain_store.head,
            final(self).notifier == old(self).notifier,
            final(self).fork_notifier == old(self).fork_notifier,
            final(self).log_notifier == old(self).log_notifier,
    {
        let ghost pre = self@;
        let ghost ancestor = pre.parent(fork@.last());
        let ghost target = pre.relinked(fork@, reverted@, ancestor);
        let ghost mut done: Set<Blake2bHash> = Set::empty();
        let n: usize = fork.len();
        let lowest = fork[n - 1];
        let ancestor_hash = self.chain_store.get_chain_info(&lowest).unwrap().head.parent_hash();
        proof {
            assert(pre.infos.contains_key(fork@[n - 1]));
            lemma_relinked_at(pre, fork@, reverted@);
            assert(self@.infos =~= crate::upkeep::partly(pre.infos, target, done));
        }
        // Unset the flags on the current main chain up to (excluding) the common ancestor.
        let mut j: usize = 0;
        while j < reverted.len()
            invariant
                j <= reverted@.len(),
                self@ == (ChainView {
                    infos: crate::upkeep::partly(pre.infos, target, done),
                    ..pre
                }),
                done == reverted@.take(j as int).to_set(),
                forall|j: int|
                    0 <= j < reverted@.len() ==> pre.infos.contains_key(reverted@[j])
                        && #[trigger] target[reverted@[j]] == pre.infos[reverted@[j]].relinked(
                        false,
                        None,
                    ),
                self.chain_store.head == old(self).chain_store.head,
                self.notifier == old(self).notifier,
                self.fork_notifier == old(self).fork_notifier,
                self.log_notifier == old(self).log_notifier,
            decreases reverted@.len() - j,
        {
            let hash = reverted[j];
            proof {
                assert(target[reverted@[j as int]] == pre.infos[reverted@[j as int]].relinked(
                    false,
                    None,
                ));
            }
            self.chain_store.set_main_chain(&hash, false, None);
            proof {
                let next = reverted@.take(j + 1);
                assert(next =~= reverted@.take(j as int).push(hash));
                assert(next.to_set() =~= done.insert(hash)) by {
                    lemma_take_to_set(reverted@, j as int);
                }
                done = done.insert(hash);
                assert(self@.infos =~= crate::upkeep::partly(pre.infos, target, done));
            }
            j = j + 1;
        }
        proof {
            assert(reverted@.take(j as int) =~= reverted@);
        }
        // Update the successor of the common ancestor.
        self.chain_store.set_main_chain(&ancestor_hash, true, Some(lowest));
        proof {
            done = done.insert(ancestor);
            assert(self@.infos =~= crate::upkeep::partly(pre.infos, target, done));
        }
        // Set the flags on the fork.
        let mut i: usize = n;
        let ghost base = done;
        while i > 0
            invariant
                i <= n,
                n == fork@.len(),
                self@ == (ChainView {
                    infos: crate::upkeep::partly(pre.infos, target, done),
                    ..pre
                }),
                base == reverted@.to_set().insert(ancestor),
                done == base.union(fork@.subrange(i as int, n as int).to_set()),
                forall|i: int|
                    0 <= i < fork@.len() ==> pre.infos.contains_key(fork@[i])
                        && #[trigger] target[fork@[i]] == pre.infos[fork@[i]].relinked(
                        true,
                        if i == 0 {
                            None
                        } else {
                            Some(fork@[i - 1])
                        },
                    ),
                self.chain_store.head == old(self).chain_store.head,
                self.notifier == old(self).notifier,
                self.fork_notifier == old(self).fork_notifier,
                self.log_notifier == old(self).log_notifier,
            decreases i,
        {
            i = i - 1;
            let hash = fork[i];
            let successor = if i > 0 {
                Some(fork[i - 1])
            } else {
                None
            };
            proof {
                assert(target[fork@[i as int]] == pre.infos[fork@[i as int]].relinked(
                    true,
                    successor,
                ));
            }
            self.chain_store.set_main_chain(&hash, true, successor);
            proof {
                let before = fork@.subrange(i + 1, n as int);
                let after = fork@.subrange(i as int, n as int);
                assert(after.to_set() =~= before.to_set().insert(hash)) by {
                    assert forall|x: Blake2bHash| after.to_set().contains(x) implies before.to_set().insert(
                        hash,
                    ).contains(x) by {
                        let p = choose|p: int| 0 <= p < after.len() && after[p] == x;
                        if p > 0 {
                            assert(before[p - 1] == x);
                        }
                    }
                    assert forall|x: Blake2bHash|
                        before.to_set().insert(hash).contains(x) implies after.to_set().contains(
                        x,
                    ) by {
                        if x == hash {
                            assert(after[0] == x);
                        } else {
                            let p = choose|p: int| 0 <= p < before.len() && before[p] == x;
                            assert(after[p + 1] == x);
                        }
                    }
                }
                done = done.insert(hash);
                assert(done =~= base.union(after.to_set()));
                assert(self@.infos =~= crate::upkeep::partly(pre.infos, target, done));
            }
        }
        proof {
            assert(fork@.subrange(0, n as int) =~= fork@);
            assert(done =~= reverted@.to_set().insert(ancestor).union(fork@.to_set()));
        }
    }

    /// Rebranches the main chain to the branch of the stored block
    /// `block_hash`. The branch is walked up to the main chain; where it does
    /// not reach it, or not one above a block of it, the fork is invalid and
    /// its blocks leave the store. Where it reaches the main chain below the
    /// last macro block, the fork is invalid and nothing but the block itself
    /// leaves the store: no branch crosses a macro block. Otherwise the
    /// main chain above the common ancestor is taken back from the accounts
    /// and the blocks of the branch are applied, all inside a transaction.
    /// Where one is refused, the fork is invalid, the accounts stay, and the
    /// refused block and those above it leave the store. Otherwise the blocks
    /// get their new places, the highest block of the branch is the head, and
    /// an event and the block logs tell of it.
    pub fn rebranch(&mut self, block_hash: Blake2bHash) -> (result: Result<PushResult, PushError>)
        requires
            old(self)@.candidate(block_hash),
            old(self).chain_store.head == Some(old(self)@.head),
        ensures
            final(self).wf(),
            old(self)@.rebranch_post(block_hash, final(self)@, result),
            final(self).fork_notifier == old(self).fork_notifier,
            result is Err ==> final(self).notifier == old(self).notifier && final(self).log_notifier
                == old(self).log_notifier,
            result is Ok ==> exists|fork: Seq<Blake2bHash>, reverted: Seq<Blake2bHash>|
                {
                    &&& #[trigger] old(self)@.is_branch(fork, block_hash)
                    &&& #[trigger] old(self)@.is_reverted(reverted, old(self)@.parent(fork.last()))
                    &&& events_view(final(self).notifier@) == events_view(old(self).notifier@).push(
                        BlockchainEventView::Rebranched(
                            crate::transition::reverted_blocks(old(self)@, reverted),
                            crate::transition::adopted_blocks(old(self)@, fork),
                        ),
                    )
                    &&& final(self).log_notifier@ == old(self).log_notifier@
                        + crate::transition::reverted_logs(old(self)@, reverted)
                        + crate::transition::adopted_logs(old(self)@, fork)
                },
    {
        let ghost pre = self@;
        // Find the common ancestor between the main chain and the fork chain: walk up
        // the fork chain until a block is part of the main chain.
        let (fork_chain, rooted) = self.branch_of(&block_hash);
        let n: usize = fork_chain.len();
        if !rooted {
            self.remove_fork_blocks(&fork_chain, n);
            proof {
                lemma_purge_keeps_wf(pre, fork_chain@, n as int);
                assert(pre.branch_outcome(
                    block_hash,
                    fork_chain@,
                    self@,
                    Err(PushError::InvalidFork),
                ));
            }
            return Err(PushError::InvalidFork);
        }
        let lowest = self.chain_store.get_chain_info(&fork_chain[n - 1]).unwrap();
        let ancestor = lowest.head.parent_hash();
        let lowest_number = lowest.head.block_number();
        proof {
            assert(pre.infos.contains_key(fork_chain@[n - 1]));
            assert(pre.infos.contains_key(pre.macro_head));
        }
        // Check if the ancestor is in the current batch: no branch crosses a macro block.
        let ancestor_number = self.chain_store.get_chain_info(&ancestor).unwrap().head.block_number();
        let macro_number = self.chain_store.get_chain_info(
            &self.state.macro_head_hash,
        ).unwrap().head.block_number();
        if ancestor_number < macro_number {
            // Nothing was written but the block itself.
            self.remove_fork_blocks(&fork_chain, 1);
            proof {
                lemma_purge_keeps_wf(pre, fork_chain@, 1);
                assert(pre.branch_outcome(
                    block_hash,
                    fork_chain@,
                    self@,
                    Err(PushError::InvalidFork),
                ));
            }
            return Err(PushError::InvalidFork);
        }
        // The branch hangs on the ancestor only where its lowest block is one above it.
        if lowest_number == 0 || ancestor_number != lowest_number - 1 {
            self.remove_fork_blocks(&fork_chain, n);
            proof {
                lemma_purge_keeps_wf(pre, fork_chain@, n as int);
                assert(pre.branch_outcome(
                    block_hash,
                    fork_chain@,
                    self@,
                    Err(PushError::InvalidFork),
                ));
            }
            return Err(PushError::InvalidFork);
        }
        proof {
            crate::upkeep::lemma_candidate_branch(pre, fork_chain@);
        }
        // Revert the accounts to the common ancestor.
        let mut txn = self.write_transaction();
        let (revert_chain, reverted_blocks, revert_logs) = self.revert_to(&mut txn, &ancestor);
        // Push each fork block.
        proof {
            assert(txn.over(pre).revertible(txn.accounts@, ancestor)) by {
                assert(txn.over(pre) == pre.with_accounts(txn.accounts@));
                lemma_revertible_frame(pre, txn.over(pre), txn.accounts@, ancestor);
            }
        }
        let ghost start = txn.accounts@;
        let (applied, adopted_blocks, adopt_logs) = self.replay_fork(&mut txn, &fork_chain);
        if applied < n {
            // Delete invalid fork blocks from the store.
            self.remove_fork_blocks(&fork_chain, n - applied);
            proof {
                lemma_purge_keeps_wf(pre, fork_chain@, n - applied);
                crate::upkeep::lemma_replayed_fails(
                    pre,
                    start,
                    fork_chain@,
                    (applied + 1) as nat,
                    n as nat,
                );
                assert(pre.replayed(start, fork_chain@, (applied + 1) as nat) is Err);
                assert(pre.switch_post(
                    fork_chain@,
                    revert_chain@,
                    ancestor,
                    self@,
                    Err(PushError::InvalidFork),
                ));
                assert(pre.branch_outcome(
                    block_hash,
                    fork_chain@,
                    self@,
                    Err(PushError::InvalidFork),
                ));
            }
            return Err(PushError::InvalidFork);
        }
        let ghost accounts = txn.accounts@;
        let ghost receipts = receipts_view(txn.receipts@);
        proof {
            assert(txn.over(pre) == (ChainView { accounts, receipts, ..pre }));
            assert(pre.infos.contains_key(pre.head));
            assert(pre.number(block_hash) >= pre.head_number());
            assert forall|height: u32| #[trigger] receipts.contains_key(height) implies pre.macro_number()
                < height <= pre.number(fork_chain@[0]) by {}
            lemma_rebranch_keeps_wf(pre, fork_chain@, revert_chain@, accounts, receipts);
        }
        let tip = self.chain_store.get_chain_info(&block_hash).unwrap();
        let is_macro = tip.head.is_macro();
        let is_election = self.policy.is_election_block_at(tip.head.block_number());
        let new_slots = match &tip.head {
            Block::Macro(MacroBlock { body: Some(body), .. }) => match &body.validators {
                Some(keys) => crate::block::copy_of(keys),
                None => Vec::new(),
            },
            _ => Vec::new(),
        };
        self.relink(&fork_chain, &revert_chain);
        self.commit_transaction(txn);
        self.set_heads(block_hash, is_macro, is_election, new_slots);
        proof {
            assert(self@ == pre.rebranched(fork_chain@, revert_chain@, ancestor, accounts, receipts));
            assert(pre.switch_post(
                fork_chain@,
                revert_chain@,
                ancestor,
                self@,
                Ok(PushResult::Rebranched),
            ));
            assert(pre.branch_outcome(block_hash, fork_chain@, self@, Ok(PushResult::Rebranched)));
        }
        let ghost events = self.notifier@;
        self.notifier.push(BlockchainEvent::Rebranched(reverted_blocks, adopted_blocks));
        append_logs(&mut self.log_notifier, &revert_logs);
        append_logs(&mut self.log_notifier, &adopt_logs);
        proof {
            assert(blocks_view(adopted_blocks@) =~= crate::transition::adopted_blocks(
                pre,
                fork_chain@,
            ));
            assert(adopt_logs@ =~= crate::transition::adopted_logs(pre, fork_chain@));
            assert(events_view(self.notifier@) =~= events_view(events).push(
                BlockchainEventView::Rebranched(
                    crate::transition::reverted_blocks(pre, revert_chain@),
                    crate::transition::adopted_blocks(pre, fork_chain@),
                ),
            ));
        }
        Ok(PushResult::Rebranched)
    }
}

/// Adds the logs of `more` to `logs`.
fn append_logs(logs: &mut Vec<BlockLog>, more: &Vec<BlockLog>)
    ensures
        final(logs)@ == old(logs)@ + more@,
{
    let mut i: usize = 0;
    while i < more.len()
        invariant
            i <= more@.len(),
            logs@ == old(logs)@ + more@.take(i as int),
        decreases more@.len() - i,
    {
        logs.push(more[i]);
        assert(logs@ =~= old(logs)@ + more@.take(i + 1));
        i = i + 1;
    }
    assert(more@.take(i as int) =~= more@);
}

/// The first `j + 1` elements of a sequence are the first `j` and the one
/// after them.
proof fn lemma_take_to_set(items: Seq<Blake2bHash>, j: int)
    requires
        0 <= j < items.len(),
    ensures
        items.take(j + 1).to_set() == items.take(j).to_set().insert(items[j]),
{
    let before = items.take(j);
    let after = items.take(j + 1);
    assert forall|x: Blake2bHash| after.to_set().contains(x) implies before.to_set().insert(
        items[j],
    ).contains(x) by {
        let p = choose|p: int| 0 <= p < after.len() && after[p] == x;
        if p < j {
            assert(before[p] == x);
        }
    }
    assert forall|x: Blake2bHash| before.to_set().insert(items[j]).contains(
        x,
    ) implies after.to_set().contains(x) by {
        if x == items[j] {
            assert(after[j] == x);
        } else {
            let p = choose|p: int| 0 <= p < before.len() && before[p] == x;
            assert(after[p] == x);
        }
    }
    assert(after.to_set() =~= before.to_set().insert(items[j]));
}

} // verus!
