//! The chain as a mathematical value: what the blockchain holds, the
//! conditions that always hold of it, and what applying a block gives.

use crate::accounts::{accounts_root, commit_result, live, revert_result};
use crate::block::{Block, BlockError, Transaction};
use crate::chain_info::ChainInfo;
use crate::error::PushError;
use crate::hash::Blake2bHash;
use crate::inherent::{block_inherents, first_view_number};
use crate::policy::Policy;
use crate::roots::{history_root_after, pk_tree_root_of};
use vstd::prelude::*;

verus! {

/// What a blockchain holds.
pub struct ChainView {
    pub policy: Policy,
    /// The clock, in milliseconds.
    pub now: u64,
    /// The entries of the chain store, by the digest of their block.
    pub infos: Map<Blake2bHash, ChainInfo>,
    /// The digest of the head of the main chain.
    pub head: Blake2bHash,
    /// The digest of the last macro block of the main chain.
    pub macro_head: Blake2bHash,
    /// The digest of the last election block of the main chain.
    pub election_head: Blake2bHash,
    /// The keys of the validators of the current epoch.
    pub current_slots: Seq<u64>,
    /// The keys of the validators of the epoch before.
    pub previous_slots: Seq<u64>,
    /// The balances of the live accounts.
    pub accounts: Map<u64, u64>,
    /// The receipts, by height: for each inherent of the block what it burned.
    pub receipts: Map<u32, Seq<u64>>,
}

/// Whether a transaction with digest `tx_hash` is part of one of the `depth`
/// blocks that end with the block `tip`, each being the parent of the next.
pub open spec fn tx_in_window(
    infos: Map<Blake2bHash, ChainInfo>,
    tip: Blake2bHash,
    tx_hash: Blake2bHash,
    depth: nat,
) -> bool
    decreases depth,
{
    if depth == 0 || !infos.contains_key(tip) {
        false
    } else {
        has_transaction(infos[tip].head.spec_transactions(), tx_hash) || tx_in_window(
            infos,
            infos[tip].head.spec_parent_hash(),
            tx_hash,
            (depth - 1) as nat,
        )
    }
}

/// Whether one of `txs` has the digest `tx_hash`.
pub open spec fn has_transaction(txs: Seq<Transaction>, tx_hash: Blake2bHash) -> bool {
    exists|i: int| 0 <= i < txs.len() && (#[trigger] txs[i]).hash == tx_hash
}

impl ChainView {
    /// The stored block with digest `hash`.
    pub open spec fn block(self, hash: Blake2bHash) -> Block {
        self.infos[hash].head
    }

    /// The height of the stored block with digest `hash`.
    pub open spec fn number(self, hash: Blake2bHash) -> int {
        self.infos[hash].head.spec_block_number() as int
    }

    /// The digest of the parent of the stored block with digest `hash`.
    pub open spec fn parent(self, hash: Blake2bHash) -> Blake2bHash {
        self.infos[hash].head.spec_parent_hash()
    }

    /// Whether the stored block with digest `hash` is part of the main chain.
    pub open spec fn on_main(self, hash: Blake2bHash) -> bool {
        self.infos[hash].on_main_chain
    }

    /// The height of the head of the main chain.
    pub open spec fn head_number(self) -> int {
        self.number(self.head)
    }

    /// The height of the last macro block of the main chain: what lies at or
    /// below it is final.
    pub open spec fn macro_number(self) -> int {
        self.number(self.macro_head)
    }

    /// Every entry is stored under the digest of its block.
    pub open spec fn keyed(self) -> bool {
        forall|hash: Blake2bHash| #[trigger]
            self.infos.contains_key(hash) ==> self.block(hash).spec_hash() == hash
    }

    /// Macro blocks stand at the heights of macro blocks, and nowhere else.
    pub open spec fn kinds(self) -> bool {
        forall|hash: Blake2bHash| #[trigger]
            self.infos.contains_key(hash) ==> self.block(hash).spec_is_macro()
                == self.policy.spec_is_macro_block_at(self.block(hash).spec_block_number())
    }

    /// The head and the last macro block are part of the main chain, nothing
    /// follows the head, and the last macro block is the one that the height
    /// of the head asks for.
    pub open spec fn heads(self) -> bool {
        &&& self.infos.contains_key(self.head)
        &&& self.on_main(self.head)
        &&& self.infos[self.head].main_chain_successor is None
        &&& self.infos.contains_key(self.macro_head)
        &&& self.on_main(self.macro_head)
        &&& self.macro_number() == self.policy.spec_last_macro_block(
            self.block(self.head).spec_block_number(),
        )
    }

    /// A block that is not part of the main chain stands at the height of a
    /// micro block and has no successor. This is not asked of `spare`.
    pub open spec fn off_main_but(self, spare: Option<Blake2bHash>) -> bool {
        forall|hash: Blake2bHash| #[trigger]
            self.infos.contains_key(hash) && !self.on_main(hash) && spare != Some(hash) ==> {
                &&& !self.policy.spec_is_macro_block_at(self.block(hash).spec_block_number())
                &&& self.infos[hash].main_chain_successor is None
            }
    }

    /// A block that is not part of the main chain stands at the height of a
    /// micro block and has no successor.
    pub open spec fn off_main(self) -> bool {
        self.off_main_but(None)
    }

    /// Above the last macro block, the parent of a block of the main chain is
    /// part of the main chain, one below, and names the block as its successor.
    pub open spec fn main_linked(self) -> bool {
        forall|hash: Blake2bHash| #[trigger]
            self.infos.contains_key(hash) && self.on_main(hash) && self.number(hash)
                > self.macro_number() ==> {
                &&& self.infos.contains_key(self.parent(hash))
                &&& self.on_main(self.parent(hash))
                &&& self.number(self.parent(hash)) + 1 == self.number(hash)
                &&& self.infos[self.parent(hash)].main_chain_successor == Some(hash)
            }
    }

    /// No block of the main chain lies above the head.
    pub open spec fn topped(self) -> bool {
        forall|hash: Blake2bHash| #[trigger]
            self.infos.contains_key(hash) && self.on_main(hash) ==> self.number(hash)
                <= self.head_number()
    }

    /// From the last macro block on, the main chain has one block at most at
    /// each height.
    pub open spec fn single(self) -> bool {
        forall|a: Blake2bHash, b: Blake2bHash|
            #![trigger self.infos.contains_key(a), self.infos.contains_key(b)]
            self.infos.contains_key(a) && self.infos.contains_key(b) && self.on_main(a)
                && self.on_main(b) && self.number(a) == self.number(b) && self.number(a)
                >= self.macro_number() ==> a == b
    }

    /// Receipts are kept for heights above the last macro block, up to the head.
    pub open spec fn receipts_in_batch(self) -> bool {
        forall|height: u32| #[trigger]
            self.receipts.contains_key(height) ==> self.macro_number() < height
                <= self.head_number()
    }

    /// The inherents of the stored block `hash`, whose parent is stored.
    pub open spec fn inherents_of(self, hash: Blake2bHash) -> Seq<crate::accounts::Inherent> {
        let parent = self.block(self.parent(hash));
        block_inherents(
            self.policy,
            self.block(hash),
            first_view_number(parent),
            self.current_slots,
            parent.spec_header().seed.entropy,
        )
    }

    /// What reverting the stored block `hash` gives, with the receipts that
    /// are stored for its height.
    #[verifier::opaque]
    pub open spec fn revert_block(self, accounts: Map<u64, u64>, hash: Blake2bHash) -> Result<
        Map<u64, u64>,
        crate::accounts::AccountError,
    > {
        revert_result(
            accounts,
            self.block(hash).spec_transactions(),
            self.inherents_of(hash),
            self.receipts[self.block(hash).spec_block_number()],
        )
    }

    /// The main chain can be taken back from the block `hash`, where the
    /// accounts are `accounts`, down to the last macro block: each block on
    /// the way is a micro block with its parent and its receipts stored, and
    /// to revert it gives accounts with the state root of the parent.
    pub open spec fn revertible(self, accounts: Map<u64, u64>, hash: Blake2bHash) -> bool
        decreases self.number(hash),
    {
        if !self.infos.contains_key(hash) {
            false
        } else if self.number(hash) <= self.macro_number() {
            true
        } else if !(self.infos.contains_key(self.parent(hash)) && self.number(self.parent(hash)) + 1
            == self.number(hash)) {
            false
        } else {
            &&& !self.block(hash).spec_is_macro()
            &&& self.receipts.contains_key(self.block(hash).spec_block_number())
            &&& match self.revert_block(accounts, hash) {
                Ok(before) => live(before) && accounts_root(before) == self.block(
                    self.parent(hash),
                ).spec_state_root() && self.revertible(before, self.parent(hash)),
                Err(_) => false,
            }
        }
    }

    /// The accounts are those that the head commits to, and the main chain
    /// can be taken back from the head.
    pub open spec fn settled(self) -> bool {
        &&& live(self.accounts)
        &&& accounts_root(self.accounts) == self.block(self.head).spec_state_root()
        &&& self.revertible(self.accounts, self.head)
    }

    /// What always holds of a blockchain between two operations, but for
    /// what is not asked of `spare`.
    pub open spec fn wf_but(self, spare: Option<Blake2bHash>) -> bool {
        &&& self.policy.wf()
        &&& self.keyed()
        &&& self.kinds()
        &&& self.heads()
        &&& self.off_main_but(spare)
        &&& self.main_linked()
        &&& self.topped()
        &&& self.single()
        &&& self.receipts_in_batch()
        &&& self.settled()
    }

    /// What always holds of a blockchain between two operations.
    pub open spec fn wf(self) -> bool {
        self.wf_but(None)
    }

    /// The stored block `tip` may become the head by a change of the main
    /// chain: it is no part of the main chain, has no successor, and lies
    /// above the last macro block and not below the head.
    pub open spec fn candidate(self, tip: Blake2bHash) -> bool {
        &&& self.wf_but(Some(tip))
        &&& self.infos.contains_key(tip)
        &&& !self.on_main(tip)
        &&& self.infos[tip].main_chain_successor is None
        &&& self.number(tip) > self.macro_number()
        &&& self.number(tip) >= self.head_number()
    }

    /// Whether one of the transactions of `block` is part of the blocks that
    /// end with the stored block `parent`, as far back as transactions are
    /// remembered.
    pub open spec fn replays(self, block: Block, parent: Blake2bHash) -> bool {
        exists|i: int|
            0 <= i < block.spec_transactions().len() && tx_in_window(
                self.infos,
                parent,
                (#[trigger] block.spec_transactions()[i]).hash,
                self.policy.transaction_validity_window as nat,
            )
    }

    /// The chain with other accounts.
    pub open spec fn with_accounts(self, accounts: Map<u64, u64>) -> ChainView {
        ChainView { accounts, ..self }
    }

    /// The inherents of `block`, which is to follow its stored parent.
    pub open spec fn inherents_of_new(self, block: Block) -> Seq<crate::accounts::Inherent> {
        let parent = self.block(block.spec_parent_hash());
        block_inherents(
            self.policy,
            block,
            first_view_number(parent),
            self.current_slots,
            parent.spec_header().seed.entropy,
        )
    }

    /// What committing `block` after its stored parent gives, where the
    /// accounts are `accounts` and the receipts `receipts`: the accounts and
    /// receipts after it, or why the block is refused. The accounts must take
    /// the transactions and inherents, and the accounts after them must have
    /// the state root of the block. A macro block leaves no receipts; a micro
    /// block adds its own.
    pub open spec fn committed(
        self,
        accounts: Map<u64, u64>,
        receipts: Map<u32, Seq<u64>>,
        block: Block,
    ) -> Result<(Map<u64, u64>, Map<u32, Seq<u64>>), PushError> {
        match commit_result(accounts, block.spec_transactions(), self.inherents_of_new(block)) {
            Err(e) => Err(PushError::AccountsError(e)),
            Ok(after) => if accounts_root(after.0) != block.spec_state_root() {
                Err(PushError::InvalidBlock(BlockError::AccountsHashMismatch))
            } else if block.spec_is_macro() {
                Ok((after.0, Map::empty()))
            } else {
                Ok((after.0, receipts.insert(block.spec_block_number(), after.1)))
            },
        }
    }

    /// What is wrong with the state after `block` was committed on top of its
    /// stored parent, if anything. The accounts, which are `accounts`, must
    /// have the state root of the block. The history root of the block must be
    /// the one that follows from the history root of the parent and the
    /// transactions of the block. The PK-tree root of an election block must
    /// commit to the validators that the block names.
    pub open spec fn state_error(self, accounts: Map<u64, u64>, block: Block) -> Option<BlockError> {
        let header = block.spec_header();
        let parent = self.block(block.spec_parent_hash()).spec_header();
        if accounts_root(accounts) != header.state_root {
            Some(BlockError::AccountsHashMismatch)
        } else if header.history_root != history_root_after(
            parent.history_root,
            block.spec_transactions(),
        ) {
            Some(BlockError::InvalidHistoryRoot)
        } else if block.spec_is_macro() && self.policy.spec_is_election_block_at(
            header.block_number,
        ) && header.pk_tree_root != pk_tree_root_of(block.spec_validators()) {
            Some(BlockError::InvalidPkTreeRoot)
        } else {
            None
        }
    }

    /// What applying `block` after its stored parent gives: a micro block must
    /// not repeat a transaction of the blocks before it, the block must
    /// commit, and the state after it must be the one that its header names.
    #[verifier::opaque]
    pub open spec fn applied(
        self,
        accounts: Map<u64, u64>,
        receipts: Map<u32, Seq<u64>>,
        block: Block,
    ) -> Result<(Map<u64, u64>, Map<u32, Seq<u64>>), PushError> {
        if !block.spec_is_macro() && self.replays(block, block.spec_parent_hash()) {
            Err(PushError::DuplicateTransaction)
        } else {
            match self.committed(accounts, receipts, block) {
                Err(e) => Err(e),
                Ok(state) => match self.state_error(state.0, block) {
                    Some(e) => Err(PushError::InvalidBlock(e)),
                    None => Ok(state),
                },
            }
        }
    }
}

} // verus!
