//! What a push does to the chain, stated over the chain as a mathematical
//! value.

use crate::block::{Block, ForkProof, MacroBlock, MicroBlock, MicroJustification};
use crate::chain_info::ChainInfo;
use crate::chain_store::{lists_range, pruned};
use crate::chain_view::ChainView;
use crate::error::{PushError, PushResult};
use crate::hash::Blake2bHash;
use crate::policy::MAX_EPOCHS_STORED;
use crate::slots::proposer_at;
use crate::verify::block_error;
use vstd::prelude::*;

verus! {

/// How a block that is new to the store relates to the main chain.
#[derive(Clone, Copy, Debug, PartialEq, Eq, Structural)]
pub enum ChainOrdering {
    /// The parent of the block is the head.
    Extend,
    /// The branch of the block is better than the main chain.
    Superior,
    /// The branch of the block ends at the height of the head and is worse
    /// than the main chain.
    Inferior,
    /// The branch of the block ends below the head.
    Unknown,
}

/// The validators that `block` names for the next epoch.
pub open spec fn elected(block: Block) -> Seq<u64> {
    block.spec_validators()
}

/// By how much the turn has moved on when `block` is proposed: the round of a
/// macro block, the height of a micro block.
pub open spec fn proposer_offset(block: Block) -> u32 {
    if block.spec_is_macro() {
        block.spec_header().view_number
    } else {
        block.spec_block_number()
    }
}

/// The fork proofs that `block` gives with those of the blocks `others` that
/// are micro blocks signed by their proposer and have the entropy of `block`.
pub open spec fn detected(
    chain: ChainView,
    block: Block,
    signature: crate::block::Signature,
    others: Seq<Blake2bHash>,
) -> Seq<ForkProof>
    decreases others.len(),
{
    if others.len() == 0 {
        Seq::empty()
    } else {
        let before = detected(chain, block, signature, others.drop_last());
        match chain.block(others.last()) {
            Block::Micro(
                MicroBlock { justification: Some(MicroJustification::Micro(other)), header, .. },
            ) => if header.seed.entropy == block.spec_header().seed.entropy {
                before.push(
                    ForkProof {
                        header1: block.spec_header(),
                        header2: header,
                        justification1: signature,
                        justification2: other,
                        prev_vrf_seed: chain.block(block.spec_parent_hash()).spec_header().seed,
                    },
                )
            } else {
                before
            },
            _ => before,
        }
    }
}

impl ChainView {
    /// How `block`, which is new to the store, relates to the main chain. A
    /// block on the head, one above it, extends the chain. Otherwise the
    /// branch that ends higher is the better one, and of two that end at one
    /// height the one whose last block has the digest that comes first.
    pub open spec fn ordering(self, block: Block) -> ChainOrdering {
        if block.spec_parent_hash() == self.head && block.spec_block_number() == self.head_number()
            + 1 {
            ChainOrdering::Extend
        } else if block.spec_block_number() > self.head_number() {
            ChainOrdering::Superior
        } else if block.spec_block_number() == self.head_number() {
            if block.spec_hash().lex_lt(self.head) {
                ChainOrdering::Superior
            } else {
                ChainOrdering::Inferior
            }
        } else {
            ChainOrdering::Unknown
        }
    }

    /// Whether `block` lies at or below the last macro block.
    pub open spec fn below_finality(self, block: Block) -> bool {
        block.spec_block_number() <= self.policy.spec_last_macro_block(
            self.block(self.head).spec_block_number(),
        )
    }

    /// Whether the store has the parent of `block`.
    pub open spec fn has_parent(self, block: Block) -> bool {
        self.infos.contains_key(block.spec_parent_hash())
    }

    /// The validator that is to propose `block`.
    pub open spec fn proposer(self, block: Block) -> Option<u64> {
        proposer_at(
            self.current_slots,
            block.spec_block_number(),
            proposer_offset(block),
            self.block(block.spec_parent_hash()).spec_header().seed.entropy,
        )
    }

    /// What a push gives before the block is compared with the main chain, if
    /// it ends there: a block at or below the last macro block is ignored; a
    /// block that the store has is known; a block whose parent the store does
    /// not have, or that nobody is to propose, is an orphan; and a block that
    /// breaks a rule is invalid.
    pub open spec fn early_verdict(self, block: Block, trusted: bool) -> Option<
        Result<PushResult, PushError>,
    > {
        if self.below_finality(block) {
            Some(Ok(PushResult::Ignored))
        } else if self.infos.contains_key(block.spec_hash()) {
            Some(Ok(PushResult::Known))
        } else if !self.has_parent(block) {
            Some(Err(PushError::Orphan))
        } else if self.proposer(block) is None {
            Some(Err(PushError::Orphan))
        } else if let Some(e) = block_error(
            self.policy,
            self.now,
            block,
            self.block(block.spec_parent_hash()),
            self.proposer(block)->0,
            !trusted,
        ) {
            Some(Err(PushError::InvalidBlock(e)))
        } else {
            None
        }
    }

    /// The fork proofs that a push of `block` makes known: none unless the
    /// push gets as far as comparing the block with the main chain and the
    /// block is a micro block signed by its proposer; then one for each
    /// stored block like it at its height with its entropy, in the order of
    /// the digests of those blocks.
    pub open spec fn forks(self, block: Block, trusted: bool, proofs: Seq<ForkProof>) -> bool {
        match block {
            Block::Micro(
                MicroBlock { justification: Some(MicroJustification::Micro(signature)), .. },
            ) => if self.early_verdict(block, trusted) is None {
                exists|others: Seq<Blake2bHash>|
                    lists_range(
                        others,
                        self.infos,
                        block.spec_block_number(),
                        block.spec_block_number(),
                    ) && proofs == detected(self, block, signature, others)
            } else {
                proofs.len() == 0
            },
            _ => proofs.len() == 0,
        }
    }

    /// The chain with `block` stored beside the main chain.
    pub open spec fn stored(self, block: Block) -> ChainView {
        ChainView {
            infos: self.infos.insert(
                block.spec_hash(),
                ChainInfo { head: block, on_main_chain: false, main_chain_successor: None },
            ),
            ..self
        }
    }

    /// The epoch whose blocks leave the store when the election block at
    /// `block_number` becomes the head.
    pub open spec fn epoch_to_prune(self, block_number: u32) -> int {
        let epoch = self.policy.spec_epoch_at(block_number);
        if epoch >= MAX_EPOCHS_STORED {
            epoch - MAX_EPOCHS_STORED
        } else {
            0
        }
    }

    /// The heads and validators once `block`, with digest `hash`, is the head.
    /// A macro block is the last macro block; an election block also is the
    /// last election block and brings its validators.
    pub open spec fn headed(self, block: Block) -> ChainView {
        let hash = block.spec_hash();
        let election = self.policy.spec_is_election_block_at(block.spec_block_number());
        ChainView {
            head: hash,
            macro_head: if block.spec_is_macro() {
                hash
            } else {
                self.macro_head
            },
            election_head: if block.spec_is_macro() && election {
                hash
            } else {
                self.election_head
            },
            current_slots: if block.spec_is_macro() && election {
                elected(block)
            } else {
                self.current_slots
            },
            previous_slots: if block.spec_is_macro() && election {
                self.current_slots
            } else {
                self.previous_slots
            },
            ..self
        }
    }

    /// The chain after `block` was put on the head, with the accounts and
    /// receipts that applying it gave. The block is part of the main chain and
    /// the successor of the old head; an election block drops an old epoch
    /// from the store.
    pub open spec fn extended(
        self,
        block: Block,
        accounts: Map<u64, u64>,
        receipts: Map<u32, Seq<u64>>,
    ) -> ChainView {
        let hash = block.spec_hash();
        let linked = self.infos.insert(
            hash,
            ChainInfo { head: block, on_main_chain: true, main_chain_successor: None },
        ).insert(self.head, self.infos[self.head].relinked(true, Some(hash)));
        let kept = if self.policy.spec_is_election_block_at(block.spec_block_number()) {
            linked.remove_keys(
                pruned(self.policy, linked, self.epoch_to_prune(block.spec_block_number())),
            )
        } else {
            linked
        };
        ChainView { infos: kept, accounts, receipts, ..self.headed(block) }
    }

    /// `chain` leads from `tip` down to, and without, `root`: each block is
    /// the parent of the one before it.
    pub open spec fn descends(
        self,
        chain: Seq<Blake2bHash>,
        tip: Blake2bHash,
        root: Blake2bHash,
    ) -> bool {
        &&& self.infos.contains_key(tip)
        &&& self.infos.contains_key(root)
        &&& self.number(root) + chain.len() == self.number(tip)
        &&& chain.len() == 0 ==> tip == root
        &&& chain.len() > 0 ==> chain[0] == tip && self.parent(chain.last()) == root
        &&& forall|i: int|
            0 <= i < chain.len() ==> self.infos.contains_key(#[trigger] chain[i]) && self.number(
                chain[i],
            ) == self.number(tip) - i
        &&& forall|i: int|
            0 <= i < chain.len() - 1 ==> #[trigger] self.parent(chain[i]) == chain[i + 1]
    }

    /// `fork` is the branch of `tip`: it leads from `tip` down through blocks
    /// that are no part of the main chain, each the parent of the one before
    /// it and one below it.
    pub open spec fn is_branch(self, fork: Seq<Blake2bHash>, tip: Blake2bHash) -> bool {
        &&& fork.len() > 0
        &&& fork[0] == tip
        &&& forall|i: int|
            0 <= i < fork.len() ==> self.infos.contains_key(#[trigger] fork[i]) && !self.on_main(
                fork[i],
            ) && self.number(fork[i]) == self.number(tip) - i
        &&& forall|i: int| 0 <= i < fork.len() - 1 ==> #[trigger] self.parent(fork[i]) == fork[i + 1]
    }

    /// Whether the store has the parent of the stored block `hash`, one below it.
    pub open spec fn parent_stored(self, hash: Blake2bHash) -> bool {
        &&& self.infos.contains_key(self.parent(hash))
        &&& self.number(self.parent(hash)) + 1 == self.number(hash)
    }

    /// Whether the branch of the stored block `hash` goes on below it: its
    /// parent is stored one below it and is no part of the main chain.
    pub open spec fn continues(self, hash: Blake2bHash) -> bool {
        &&& self.parent_stored(hash)
        &&& !self.on_main(self.parent(hash))
    }

    /// Whether the stored block `hash` hangs on the main chain: its parent is
    /// stored and is part of the main chain.
    pub open spec fn rooted(self, hash: Blake2bHash) -> bool {
        &&& self.infos.contains_key(self.parent(hash))
        &&& self.on_main(self.parent(hash))
    }

    /// `reverted` is the part of the main chain above `ancestor`, from the
    /// head down.
    pub open spec fn is_reverted(self, reverted: Seq<Blake2bHash>, ancestor: Blake2bHash) -> bool {
        &&& self.descends(reverted, self.head, ancestor)
        &&& self.on_main(ancestor)
        &&& forall|i: int| 0 <= i < reverted.len() ==> self.on_main(#[trigger] reverted[i])
    }

    /// The accounts after the first `k` blocks of `reverted` were taken back.
    pub open spec fn unwound(self, reverted: Seq<Blake2bHash>, k: nat) -> Map<u64, u64>
        decreases k,
    {
        if k == 0 {
            self.accounts
        } else {
            self.revert_block(self.unwound(reverted, (k - 1) as nat), reverted[k - 1])->Ok_0
        }
    }

    /// The accounts and receipts after the lowest `k` blocks of `fork` were
    /// applied to the accounts `start`, or why one of them was refused.
    pub open spec fn replayed(self, start: Map<u64, u64>, fork: Seq<Blake2bHash>, k: nat) -> Result<
        (Map<u64, u64>, Map<u32, Seq<u64>>),
        PushError,
    >
        decreases k,
    {
        if k == 0 {
            Ok((start, self.receipts))
        } else {
            match self.replayed(start, fork, (k - 1) as nat) {
                Err(e) => Err(e),
                Ok(state) => self.applied(state.0, state.1, self.block(fork[fork.len() - k])),
            }
        }
    }

    /// The entries after the main chain changed to the branch `fork`: the
    /// blocks of `reverted` are no part of the main chain and have no
    /// successor; `ancestor` is followed by the lowest block of `fork`; and
    /// each block of `fork` is part of the main chain, followed by the next
    /// higher one.
    pub open spec fn relinked(
        self,
        fork: Seq<Blake2bHash>,
        reverted: Seq<Blake2bHash>,
        ancestor: Blake2bHash,
    ) -> Map<Blake2bHash, ChainInfo> {
        Map::new(
            |hash: Blake2bHash| self.infos.contains_key(hash),
            |hash: Blake2bHash|
                if reverted.contains(hash) {
                    self.infos[hash].relinked(false, None)
                } else if hash == ancestor {
                    self.infos[hash].relinked(true, Some(fork.last()))
                } else if fork.contains(hash) {
                    self.infos[hash].relinked(
                        true,
                        if fork.index_of(hash) == 0 {
                            None
                        } else {
                            Some(fork[fork.index_of(hash) - 1])
                        },
                    )
                } else {
                    self.infos[hash]
                },
        )
    }

    /// The chain after the main chain changed to the branch `fork`, with the
    /// accounts and receipts that applying its blocks gave.
    pub open spec fn rebranched(
        self,
        fork: Seq<Blake2bHash>,
        reverted: Seq<Blake2bHash>,
        ancestor: Blake2bHash,
        accounts: Map<u64, u64>,
        receipts: Map<u32, Seq<u64>>,
    ) -> ChainView {
        ChainView {
            infos: self.relinked(fork, reverted, ancestor),
            accounts,
            receipts,
            ..self.headed(self.block(fork[0]))
        }
    }

    /// The chain after the highest `count` blocks of `fork` have left the store.
    pub open spec fn purged(self, fork: Seq<Blake2bHash>, count: int) -> ChainView {
        ChainView { infos: self.infos.remove_keys(fork.take(count).to_set()), ..self }
    }

    /// What a change of the main chain to the branch `fork`, which hangs on
    /// the block `ancestor` of the main chain, gives. The main chain above the
    /// ancestor, `reverted`, is taken back from the accounts, and the blocks
    /// of the branch are applied from the lowest on. Where all are applied,
    /// the branch is the main chain and its highest block the head. Where one
    /// is refused, the fork is invalid: the accounts and the main chain stay,
    /// and the refused block and those above it leave the store.
    pub open spec fn switch_post(
        self,
        fork: Seq<Blake2bHash>,
        reverted: Seq<Blake2bHash>,
        ancestor: Blake2bHash,
        post: ChainView,
        result: Result<PushResult, PushError>,
    ) -> bool {
        let start = self.unwound(reverted, reverted.len());
        match self.replayed(start, fork, fork.len()) {
            Ok(state) => result == Ok::<PushResult, PushError>(PushResult::Rebranched) && post
                == self.rebranched(fork, reverted, ancestor, state.0, state.1),
            Err(_) => result == Err::<PushResult, PushError>(PushError::InvalidFork) && exists|
                k: nat,
            |
                1 <= k <= fork.len() && self.replayed(start, fork, (k - 1) as nat) is Ok
                    && #[trigger] self.replayed(start, fork, k) is Err && post == self.purged(
                    fork,
                    fork.len() - k + 1,
                ),
        }
    }

    /// What a change of the main chain to the branch `fork` of the stored
    /// block `tip` gives. The branch leads down from `tip` as far as it goes
    /// on. Where its lowest block does not hang on the main chain, the fork is
    /// invalid and the blocks of the branch leave the store. Where it hangs on
    /// a block below the last macro block, the fork is invalid and `tip`
    /// leaves the store again, so that nothing has changed. Where it hangs on
    /// a block that is not one below its lowest block, the fork is invalid and
    /// the blocks of the branch leave the store. Otherwise the main chain
    /// changes to the branch, or one of its blocks is refused.
    pub open spec fn branch_outcome(
        self,
        tip: Blake2bHash,
        fork: Seq<Blake2bHash>,
        post: ChainView,
        result: Result<PushResult, PushError>,
    ) -> bool {
        &&& self.is_branch(fork, tip)
        &&& !self.continues(fork.last())
        &&& if !self.rooted(fork.last()) {
            result == Err::<PushResult, PushError>(PushError::InvalidFork) && post
                == self.purged(fork, fork.len() as int)
        } else if self.number(self.parent(fork.last())) < self.macro_number() {
            result == Err::<PushResult, PushError>(PushError::InvalidFork) && post
                == self.purged(fork, 1)
        } else if !self.parent_stored(fork.last()) {
            result == Err::<PushResult, PushError>(PushError::InvalidFork) && post
                == self.purged(fork, fork.len() as int)
        } else {
            exists|reverted: Seq<Blake2bHash>|
                {
                    &&& #[trigger] self.is_reverted(reverted, self.parent(fork.last()))
                    &&& self.switch_post(fork, reverted, self.parent(fork.last()), post, result)
                }
        }
    }

    /// What a change of the main chain to the branch of the stored block
    /// `tip` gives: what it gives for the branch of `tip`.
    pub open spec fn rebranch_post(
        self,
        tip: Blake2bHash,
        post: ChainView,
        result: Result<PushResult, PushError>,
    ) -> bool {
        exists|fork: Seq<Blake2bHash>| #[trigger] self.branch_outcome(tip, fork, post, result)
    }

    /// What a push of `block` does: `post` is the chain after it and `result`
    /// what it gives. Where the push ends before the block is compared with
    /// the main chain, nothing changes. A block on a branch that is not better
    /// than the main chain is stored, and ignored or said to be forked. A
    /// block on the head is applied and becomes the head, or is refused and
    /// leaves everything as it was. A block on a better branch changes the
    /// main chain to its branch.
    pub open spec fn push_post(
        self,
        block: Block,
        trusted: bool,
        post: ChainView,
        result: Result<PushResult, PushError>,
    ) -> bool {
        match self.early_verdict(block, trusted) {
            Some(verdict) => result == verdict && post == self,
            None => match self.ordering(block) {
                ChainOrdering::Inferior => result == Ok::<PushResult, PushError>(
                    PushResult::Ignored,
                ) && post == self.stored(block),
                ChainOrdering::Unknown => result == Ok::<PushResult, PushError>(PushResult::Forked)
                    && post == self.stored(block),
                ChainOrdering::Extend => match self.applied(self.accounts, self.receipts, block) {
                    Err(e) => result == Err::<PushResult, PushError>(e) && post == self,
                    Ok(state) => result == Ok::<PushResult, PushError>(PushResult::Extended)
                        && post == self.extended(block, state.0, state.1),
                },
                ChainOrdering::Superior => self.stored(block).rebranch_post(
                    block.spec_hash(),
                    post,
                    result,
                ),
            },
        }
    }
}

/// What taking back the first `k` blocks gives depends on those blocks only.
pub proof fn lemma_unwound_prefix(
    chain: ChainView,
    a: Seq<Blake2bHash>,
    b: Seq<Blake2bHash>,
    k: nat,
)
    requires
        k <= a.len(),
        k <= b.len(),
        forall|i: int| 0 <= i < k ==> a[i] == b[i],
    ensures
        chain.unwound(a, k) == chain.unwound(b, k),
    decreases k,
{
    if k > 0 {
        lemma_unwound_prefix(chain, a, b, (k - 1) as nat);
    }
}

/// The blocks that left the main chain, as an event lists them: the old head
/// first.
pub open spec fn reverted_blocks(chain: ChainView, reverted: Seq<Blake2bHash>) -> Seq<
    (Blake2bHash, crate::block::BlockView),
> {
    Seq::new(reverted.len(), |j: int| (reverted[j], chain.block(reverted[j])@))
}

/// The blocks that joined the main chain, as an event lists them: the new
/// head last.
pub open spec fn adopted_blocks(chain: ChainView, fork: Seq<Blake2bHash>) -> Seq<
    (Blake2bHash, crate::block::BlockView),
> {
    Seq::new(
        fork.len(),
        |i: int| (fork[fork.len() - 1 - i], chain.block(fork[fork.len() - 1 - i])@),
    )
}

/// The logs of the blocks that were taken back, the old head first.
pub open spec fn reverted_logs(chain: ChainView, reverted: Seq<Blake2bHash>) -> Seq<
    crate::blockchain::BlockLog,
> {
    Seq::new(reverted.len(), |j: int| crate::blockchain::reverted_log(chain.block(reverted[j])))
}

/// The logs of the blocks that were applied, the new head last.
pub open spec fn adopted_logs(chain: ChainView, fork: Seq<Blake2bHash>) -> Seq<
    crate::blockchain::BlockLog,
> {
    Seq::new(
        fork.len(),
        |i: int| crate::blockchain::applied_log(chain.block(fork[fork.len() - 1 - i])),
    )
}

} // verus!
