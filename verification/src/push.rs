//! Pushing a block into the chain.

use crate::block::{Block, ForkProof, MacroBlock, MicroBlock, MicroJustification};
use crate::blockchain::{
    applied_log, events_view, receipts_view, BlockLog, Blockchain, BlockchainEvent,
    BlockchainEventView, ForkEvent, WriteTransaction,
};
use crate::chain_info::ChainInfo;
use crate::chain_view::ChainView;
use crate::error::{PushError, PushResult};
use crate::hash::Blake2bHash;
use crate::policy::MAX_EPOCHS_STORED;
use crate::transition::{elected, ChainOrdering};
use crate::upkeep::{lemma_extend_keeps_wf, lemma_store_keeps_wf};
use vstd::prelude::*;
use vstd::std_specs::btree::*;

verus! {

broadcast use {vstd::std_specs::btree::group_btree_axioms, vstd::laws_cmp::group_laws_cmp};

/// The event that tells that `block` became the head by extending the chain.
pub open spec fn extended_event(chain: ChainView, block: Block) -> BlockchainEventView {
    if chain.policy.spec_is_election_block_at(block.spec_block_number()) {
        BlockchainEventView::EpochFinalized(block.spec_hash())
    } else if chain.policy.spec_is_macro_block_at(block.spec_block_number()) {
        BlockchainEventView::Finalized(block.spec_hash())
    } else {
        BlockchainEventView::Extended(block.spec_hash())
    }
}

/// The events that make the fork proofs known.
pub open spec fn fork_events(proofs: Seq<ForkProof>) -> Seq<ForkEvent> {
    Seq::new(proofs.len(), |i: int| ForkEvent::Detected(proofs[i]))
}

/// What a push of `block` that gave `result` tells those who listen: when the
/// block extended the chain, an event and its log; when the main chain
/// changed to its branch, an event with the blocks that left and joined the
/// main chain, and the logs of taking the former back and applying the
/// latter; and nothing otherwise.
pub open spec fn notes_post(
    pre: ChainView,
    block: Block,
    result: Result<PushResult, PushError>,
    events_before: Seq<BlockchainEventView>,
    events_after: Seq<BlockchainEventView>,
    logs_before: Seq<BlockLog>,
    logs_after: Seq<BlockLog>,
) -> bool {
    match result {
        Ok(PushResult::Extended) => events_after == events_before.push(extended_event(pre, block))
            && logs_after == logs_before.push(applied_log(block)),
        Ok(PushResult::Rebranched) => exists|fork: Seq<Blake2bHash>, reverted: Seq<Blake2bHash>|
            {
                &&& #[trigger] pre.stored(block).is_branch(fork, block.spec_hash())
                &&& #[trigger] pre.stored(block).is_reverted(
                    reverted,
                    pre.stored(block).parent(fork.last()),
                )
                &&& events_after == events_before.push(
                    BlockchainEventView::Rebranched(
                        crate::transition::reverted_blocks(pre.stored(block), reverted),
                        crate::transition::adopted_blocks(pre.stored(block), fork),
                    ),
                )
                &&& logs_after == logs_before + crate::transition::reverted_logs(
                    pre.stored(block),
                    reverted,
                ) + crate::transition::adopted_logs(pre.stored(block), fork)
            },
        _ => events_after == events_before && logs_after == logs_before,
    }
}

/// Adds to `events` an event for each of `proofs`.
fn notify_forks(events: &mut Vec<ForkEvent>, proofs: &Vec<ForkProof>)
    ensures
        final(events)@ == old(events)@ + fork_events(proofs@),
{
    let mut i: usize = 0;
    while i < proofs.len()
        invariant
            i <= proofs@.len(),
            events@ == old(events)@ + fork_events(proofs@).take(i as int),
        decreases proofs@.len() - i,
    {
        events.push(ForkEvent::Detected(proofs[i]));
        assert(events@ =~= old(events)@ + fork_events(proofs@).take(i + 1));
        i = i + 1;
    }
    assert(fork_events(proofs@).take(i as int) =~= fork_events(proofs@));
}

impl Blockchain {
    /// Makes the accounts and receipts of the transaction those of the chain.
    pub(crate) fn commit_transaction(&mut self, txn: WriteTransaction)
        ensures
            final(self)@ == txn.over(old(self)@),
            final(self).chain_store.head == old(self).chain_store.head,
            final(self).notifier == old(self).notifier,
            final(self).fork_notifier == old(self).fork_notifier,
            final(self).log_notifier == old(self).log_notifier,
    {
        self.state.accounts = txn.accounts;
        self.chain_store.receipts = txn.receipts;
    }

    /// Makes `hash`, the digest of the stored block `block`, the head: a macro
    /// block is the last macro block, and an election block the last election
    /// block, whose validators take over from the current ones.
    pub(crate) fn set_heads(&mut self, hash: Blake2bHash, is_macro: bool, is_election: bool, elected: Vec<u64>)
        ensures
            final(self)@ == (ChainView {
                head: hash,
                macro_head: if is_macro {
                    hash
                } else {
                    old(self)@.macro_head
                },
                election_head: if is_macro && is_election {
                    hash
                } else {
                    old(self)@.election_head
                },
                current_slots: if is_macro && is_election {
                    elected@
                } else {
                    old(self)@.current_slots
                },
                previous_slots: if is_macro && is_election {
                    old(self)@.current_slots
                } else {
                    old(self)@.previous_slots
                },
                ..old(self)@
            }),
            final(self).chain_store.head == Some(hash),
            final(self).notifier == old(self).notifier,
            final(self).fork_notifier == old(self).fork_notifier,
            final(self).log_notifier == old(self).log_notifier,
    {
        self.chain_store.set_head(&hash);
        if is_macro {
            self.state.macro_head_hash = hash;
            if is_election {
                self.state.election_head_hash = hash;
                let mut slots = elected;
                std::mem::swap(&mut self.state.current_slots, &mut slots);
                self.state.previous_slots = slots;
            }
        }
        self.state.head_hash = hash;
    }

    /// Extends the main chain by the block of `chain_info`, whose parent is
    /// the head. The block is applied to the accounts; where that fails,
    /// nothing changes. Otherwise the block becomes the head, its parent
    /// names it as successor, an election block drops an old epoch from the
    /// store, and an event and the block log tell of it.
    pub fn extend(&mut self, block_hash: Blake2bHash, chain_info: ChainInfo) -> (result: Result<
        PushResult,
        PushError,
    >)
        requires
            old(self).wf(),
            chain_info == (ChainInfo {
                head: chain_info.head,
                on_main_chain: false,
                main_chain_successor: None,
            }),
            block_hash == chain_info.head.spec_hash(),
            chain_info.head.spec_parent_hash() == old(self)@.head,
            !old(self)@.infos.contains_key(block_hash),
            chain_info.head.spec_block_number() == old(self)@.head_number() + 1,
            chain_info.head.spec_is_macro() == old(self)@.policy.spec_is_macro_block_at(
                chain_info.head.spec_block_number(),
            ),
        ensures
            final(self).wf(),
            final(self).fork_notifier == old(self).fork_notifier,
            match old(self)@.applied(old(self)@.accounts, old(self)@.receipts, chain_info.head) {
                Err(e) => {
                    &&& result == Err::<PushResult, PushError>(e)
                    &&& final(self)@ == old(self)@
                    &&& final(self).notifier == old(self).notifier
                    &&& final(self).log_notifier == old(self).log_notifier
                },
                Ok(state) => {
                    &&& result == Ok::<PushResult, PushError>(PushResult::Extended)
                    &&& final(self)@ == old(self)@.extended(chain_info.head, state.0, state.1)
                    &&& events_view(final(self).notifier@) == events_view(old(self).notifier@).push(
                        extended_event(old(self)@, chain_info.head),
                    )
                    &&& final(self).log_notifier@ == old(self).log_notifier@.push(
                        applied_log(chain_info.head),
                    )
                },
            },
    {
        let mut txn = self.write_transaction();
        let block_number = chain_info.head.block_number();
        let is_macro_block = self.policy.is_macro_block_at(block_number);
        let is_election_block = self.policy.is_election_block_at(block_number);
        let block_log = match self.check_and_commit(&chain_info.head, &mut txn) {
            Ok(block_log) => block_log,
            Err(e) => {
                return Err(e);
            },
        };
        let ghost pre = self@;
        let ghost block = chain_info.head;
        let ghost accounts = txn.accounts@;
        let ghost receipts = receipts_view(txn.receipts@);
        proof {
            lemma_extend_keeps_wf(pre, block, accounts, receipts);
        }
        let new_slots = match &chain_info.head {
            Block::Macro(MacroBlock { body: Some(body), .. }) => match &body.validators {
                Some(keys) => crate::block::copy_of(keys),
                None => Vec::new(),
            },
            _ => Vec::new(),
        };
        let is_macro = chain_info.head.is_macro();
        let parent_hash = chain_info.head.parent_hash();
        let mut chain_info = chain_info;
        chain_info.on_main_chain = true;
        self.chain_store.put_chain_info(&block_hash, chain_info);
        self.chain_store.set_main_chain(&parent_hash, true, Some(block_hash));
        if is_election_block {
            let epoch = self.policy.epoch_at(block_number);
            let old_epoch = if epoch >= MAX_EPOCHS_STORED {
                epoch - MAX_EPOCHS_STORED
            } else {
                0
            };
            self.chain_store.prune_epoch(&self.policy, old_epoch);
        }
        self.commit_transaction(txn);
        self.set_heads(block_hash, is_macro, is_election_block, new_slots);
        proof {
            assert(self@.infos =~= pre.extended(block, accounts, receipts).infos);
            assert(self@ == pre.extended(block, accounts, receipts));
        }
        let ghost events = self.notifier@;
        if is_election_block {
            self.notifier.push(BlockchainEvent::EpochFinalized(block_hash));
        } else if is_macro_block {
            self.notifier.push(BlockchainEvent::Finalized(block_hash));
        } else {
            self.notifier.push(BlockchainEvent::Extended(block_hash));
        }
        assert(events_view(self.notifier@) =~= events_view(events).push(
            extended_event(pre, block),
        ));
        self.log_notifier.push(block_log);
        Ok(PushResult::Extended)
    }

    /// How `block`, which is new to the store, relates to the main chain.
    pub fn order_chains(&self, block: &Block) -> (order: ChainOrdering)
        requires
            self.wf(),
        ensures
            order == self@.ordering(*block),
    {
        let head_hash = self.state.head_hash;
        let head_number = self.block_number();
        if block.parent_hash() == head_hash && block.block_number() as u64 == head_number as u64
            + 1 {
            ChainOrdering::Extend
        } else if block.block_number() > head_number {
            ChainOrdering::Superior
        } else if block.block_number() == head_number {
            if block.hash().precedes(&head_hash) {
                ChainOrdering::Superior
            } else {
                ChainOrdering::Inferior
            }
        } else {
            ChainOrdering::Unknown
        }
    }

    /// The fork proofs that `block` gives with the stored micro blocks at its
    /// height that are signed by their proposer and have its entropy.
    pub fn detect_forks(&self, block: &Block) -> (proofs: Vec<ForkProof>)
        requires
            self@.infos.contains_key(block.spec_parent_hash()),
        ensures
            match *block {
                Block::Micro(
                    MicroBlock { justification: Some(MicroJustification::Micro(signature)), .. },
                ) => exists|others: Seq<Blake2bHash>|
                    crate::chain_store::lists_range(
                        others,
                        self@.infos,
                        block.spec_block_number(),
                        block.spec_block_number(),
                    ) && proofs@ == crate::transition::detected(self@, *block, signature, others),
                _ => proofs@.len() == 0,
            },
    {
        let mut proofs: Vec<ForkProof> = Vec::new();
        if let Block::Micro(micro_block) = block {
            if let Some(MicroJustification::Micro(signature)) = micro_block.justification {
                // Two blocks in the same slot and with the same height: since the
                // validator for the slot was checked, this is enough for a fork proof.
                let number = block.block_number();
                let others = self.chain_store.hashes_in_range(number, number);
                let prev_vrf_seed = self.chain_store.get_chain_info(
                    &block.parent_hash(),
                ).unwrap().head.seed();
                let ghost chain = self@;
                let mut i: usize = 0;
                while i < others.len()
                    invariant
                        i <= others@.len(),
                        chain == self@,
                        *block == Block::Micro(*micro_block),
                        micro_block.justification == Some(MicroJustification::Micro(signature)),
                        prev_vrf_seed == chain.block(block.spec_parent_hash()).spec_header().seed,
                        crate::chain_store::lists_range(others@, chain.infos, number, number),
                        proofs@ == crate::transition::detected(
                            chain,
                            *block,
                            signature,
                            others@.take(i as int),
                        ),
                    decreases others@.len() - i,
                {
                    assert(others@.take(i + 1).drop_last() =~= others@.take(i as int));
                    assert(others@.contains(others@[i as int]));
                    let other = self.chain_store.get_chain_info(&others[i]).unwrap();
                    if let Block::Micro(other_block) = &other.head {
                        if let Some(MicroJustification::Micro(other_signature)) =
                            other_block.justification {
                            if other_block.header.seed.entropy == micro_block.header.seed.entropy {
                                proofs.push(
                                    ForkProof {
                                        header1: micro_block.header,
                                        header2: other_block.header,
                                        justification1: signature,
                                        justification2: other_signature,
                                        prev_vrf_seed,
                                    },
                                );
                            }
                        }
                    }
                    i = i + 1;
                }
                assert(others@.take(i as int) =~= others@);
            }
        }
        proofs
    }

    /// What a push of `block` gives before the block is compared with the
    /// main chain, if it ends there; nothing changes then. A block at or
    /// below the last macro block is ignored; a block that the store has is
    /// known; a block whose parent the store does not have, or that nobody is
    /// to propose, is an orphan; and a block that breaks a rule of the header,
    /// the justification or the body, in this order, is invalid. Set the
    /// trusted flag to skip the verification of seeds and signatures.
    pub fn check_block(&self, block: &Block, trusted: bool) -> (verdict: Option<
        Result<PushResult, PushError>,
    >)
        requires
            self.wf(),
        ensures
            verdict == self@.early_verdict(*block, trusted),
    {
        proof {
            assert(self@.infos.contains_key(self@.head));
        }
        // Ignore all blocks that precede (or are at the same height) as the most
        // recent accepted macro block.
        let last_macro_block = self.policy.last_macro_block(self.block_number());
        if block.block_number() <= last_macro_block {
            return Some(Ok(PushResult::Ignored));
        }
        // Check if we already know this block.
        let hash = block.hash();
        if self.chain_store.get_chain_info(&hash).is_some() {
            return Some(Ok(PushResult::Known));
        }
        // Check if we have this block's parent.
        let prev_info = match self.chain_store.get_chain_info(&block.parent_hash()) {
            Some(prev_info) => prev_info,
            None => {
                return Some(Err(PushError::Orphan));
            },
        };
        // Get the intended block proposer.
        let offset = if block.is_macro() {
            block.view_number()
        } else {
            block.block_number()
        };
        let proposer = match crate::slots::get_proposer_at(
            &self.state.current_slots,
            block.block_number(),
            offset,
            &prev_info.head.seed().entropy,
        ) {
            Some(proposer) => proposer,
            None => {
                return Some(Err(PushError::Orphan));
            },
        };
        // Check the header.
        if let Err(e) = crate::verify::verify_block_header(
            &self.policy,
            self.now,
            block,
            &prev_info.head,
            proposer,
            !trusted,
        ) {
            return Some(Err(e));
        }
        // Check the justification.
        if let Err(e) = crate::verify::verify_block_justification(
            &self.policy,
            block,
            proposer,
            !trusted,
        ) {
            return Some(Err(e));
        }
        // Check the body.
        if let Err(e) = crate::verify::verify_block_body(&self.policy, block) {
            return Some(Err(e));
        }
        None
    }

    /// Pushes a block that `check_block` has let through: makes its fork
    /// proofs known, compares it with the main chain, and extends the main
    /// chain, changes it to the branch of the block, or stores the block
    /// beside it.
    #[verifier::rlimit(30)]
    pub fn push_checked(&mut self, block: Block, trusted: bool) -> (result: Result<
        PushResult,
        PushError,
    >)
        requires
            old(self).wf(),
            old(self)@.early_verdict(block, trusted) is None,
        ensures
            final(self).wf(),
            old(self)@.push_post(block, trusted, final(self)@, result),
            exists|proofs: Seq<ForkProof>| #[trigger]
                old(self)@.forks(block, trusted, proofs) && final(self).fork_notifier@ == old(
                    self,
                ).fork_notifier@ + fork_events(proofs),
            notes_post(
                old(self)@,
                block,
                result,
                events_view(old(self).notifier@),
                events_view(final(self).notifier@),
                old(self).log_notifier@,
                final(self).log_notifier@,
            ),
    {
        let ghost pre = self@;
        proof {
            assert(pre.infos.contains_key(pre.head));
        }
        let hash = block.hash();
        // Detect forks in micro blocks other than skip blocks.
        let proofs = self.detect_forks(&block);
        assert(pre.forks(block, trusted, proofs@));
        // Calculate chain ordering.
        let chain_order = self.order_chains(&block);
        let prev_info = self.chain_store.get_chain_info(&block.parent_hash()).unwrap();
        let chain_info = ChainInfo::from_block(block, prev_info);
        notify_forks(&mut self.fork_notifier, &proofs);
        proof {
            lemma_store_keeps_wf(pre, block);
            pre.policy.lemma_last_macro_block(pre.block(pre.head).spec_block_number());
        }
        // Extend, rebranch or just store the block depending on the chain ordering.
        match chain_order {
            ChainOrdering::Extend => self.extend(hash, chain_info),
            ChainOrdering::Superior => {
                self.chain_store.put_chain_info(&hash, chain_info);
                proof {
                    assert(self@ == pre.stored(block));
                    assert(self@.infos.contains_key(hash));
                }
                self.rebranch(hash)
            },
            ChainOrdering::Inferior => {
                self.chain_store.put_chain_info(&hash, chain_info);
                proof {
                    assert(self@ == pre.stored(block));
                    pre.policy.lemma_micro_above_last_macro(
                        pre.block(pre.head).spec_block_number(),
                        block.spec_block_number(),
                    );
                }
                Ok(PushResult::Ignored)
            },
            ChainOrdering::Unknown => {
                self.chain_store.put_chain_info(&hash, chain_info);
                proof {
                    assert(self@ == pre.stored(block));
                    pre.policy.lemma_micro_above_last_macro(
                        pre.block(pre.head).spec_block_number(),
                        block.spec_block_number(),
                    );
                }
                Ok(PushResult::Forked)
            },
        }
    }

    /// Pushes a block into the chain: checks it, and goes on with it where
    /// the checks let it through. Set the trusted flag to skip the
    /// verification of seeds and signatures, when the source of the block can
    /// be trusted.
    pub fn do_push(&mut self, block: Block, trusted: bool) -> (result: Result<
        PushResult,
        PushError,
    >)
        requires
            old(self).wf(),
        ensures
            final(self).wf(),
            old(self)@.push_post(block, trusted, final(self)@, result),
            exists|proofs: Seq<ForkProof>| #[trigger]
                old(self)@.forks(block, trusted, proofs) && final(self).fork_notifier@ == old(
                    self,
                ).fork_notifier@ + fork_events(proofs),
            notes_post(
                old(self)@,
                block,
                result,
                events_view(old(self).notifier@),
                events_view(final(self).notifier@),
                old(self).log_notifier@,
                final(self).log_notifier@,
            ),
    {
        match self.check_block(&block, trusted) {
            Some(verdict) => {
                proof {
                    let none: Seq<ForkProof> = Seq::empty();
                    assert(self.fork_notifier@ =~= self.fork_notifier@ + fork_events(none));
                    assert(self@.forks(block, trusted, none));
                }
                verdict
            },
            None => self.push_checked(block, trusted),
        }
    }

    /// Pushes a block into the chain.
    pub fn push(&mut self, block: Block) -> (result: Result<PushResult, PushError>)
        requires
            old(self).wf(),
        ensures
            final(self).wf(),
            old(self)@.push_post(block, false, final(self)@, result),
            exists|proofs: Seq<ForkProof>| #[trigger]
                old(self)@.forks(block, false, proofs) && final(self).fork_notifier@ == old(
                    self,
                ).fork_notifier@ + fork_events(proofs),
            notes_post(
                old(self)@,
                block,
                result,
                events_view(old(self).notifier@),
                events_view(final(self).notifier@),
                old(self).log_notifier@,
                final(self).log_notifier@,
            ),
    {
        self.push_wrapperfn(block, false)
    }

    /// Pushes a block into the chain. The trusted version of the push skips
    /// the verifications that can only be skipped when the source is trusted:
    /// this is the case of a validator pushing its own blocks.
    pub fn trusted_push(&mut self, block: Block) -> (result: Result<PushResult, PushError>)
        requires
            old(self).wf(),
        ensures
            final(self).wf(),
            old(self)@.push_post(block, true, final(self)@, result),
            exists|proofs: Seq<ForkProof>| #[trigger]
                old(self)@.forks(block, true, proofs) && final(self).fork_notifier@ == old(
                    self,
                ).fork_notifier@ + fork_events(proofs),
            notes_post(
                old(self)@,
                block,
                result,
                events_view(old(self).notifier@),
                events_view(final(self).notifier@),
                old(self).log_notifier@,
                final(self).log_notifier@,
            ),
    {
        self.push_wrapperfn(block, true)
    }

    /// Pushes a block into the chain, with or without trust in its source.
    pub fn push_wrapperfn(&mut self, block: Block, trust: bool) -> (result: Result<
        PushResult,
        PushError,
    >)
        requires
            old(self).wf(),
        ensures
            final(self).wf(),
            old(self)@.push_post(block, trust, final(self)@, result),
            exists|proofs: Seq<ForkProof>| #[trigger]
                old(self)@.forks(block, trust, proofs) && final(self).fork_notifier@ == old(
                    self,
                ).fork_notifier@ + fork_events(proofs),
            notes_post(
                old(self)@,
                block,
                result,
                events_view(old(self).notifier@),
                events_view(final(self).notifier@),
                old(self).log_notifier@,
                final(self).log_notifier@,
            ),
    {
        self.do_push(block, trust)
    }
}

} // verus!
