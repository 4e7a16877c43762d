//! Applying a block to the accounts, and taking it back.

use crate::accounts::Accounts;
use crate::block::{Block, BlockError, MacroBlock, MicroBlock, Transaction};
use crate::blockchain::{
    applied_log, receipts_view, reverted_log, BlockLog, Blockchain, WriteTransaction,
};
use crate::chain_view::ChainView;
use crate::error::PushError;
use crate::inherent::create_inherents;
use vstd::prelude::*;
use vstd::std_specs::btree::*;

verus! {

broadcast use {vstd::std_specs::btree::group_btree_axioms, vstd::laws_cmp::group_laws_cmp};

impl WriteTransaction {
    /// The chain as it is inside the transaction.
    pub open spec fn over(self, chain: ChainView) -> ChainView {
        ChainView { accounts: self.accounts@, receipts: receipts_view(self.receipts@), ..chain }
    }
}

impl Blockchain {
    /// Opens a transaction: it works on a copy of the accounts and receipts.
    pub fn write_transaction(&self) -> (txn: WriteTransaction)
        ensures
            txn.accounts@ == self@.accounts,
            txn.receipts@ == self.chain_store.receipts@,
            txn.over(self@) == self@,
    {
        WriteTransaction {
            accounts: Accounts { balances: self.state.accounts.balances.clone() },
            receipts: self.chain_store.receipts.clone(),
        }
    }

    /// Commits `block` to the accounts of the transaction: builds the
    /// inherents and applies transactions and inherents. Where the accounts
    /// refuse them, the transaction stays as it was. Otherwise the receipts of
    /// a micro block are kept, all receipts are dropped at a macro block, and
    /// the accounts are compared with the state root of the block.
    pub fn commit_accounts(&self, block: &Block, txn: &mut WriteTransaction) -> (result: Result<
        BlockLog,
        PushError,
    >)
        requires
            self@.policy.wf(),
            old(txn).accounts.wf(),
            self@.infos.contains_key(block.spec_parent_hash()),
        ensures
            final(txn).accounts.wf(),
            match result {
                Ok(log) => log == applied_log(*block) && self@.committed(
                    old(txn).accounts@,
                    receipts_view(old(txn).receipts@),
                    *block,
                ) == Ok::<(Map<u64, u64>, Map<u32, Seq<u64>>), PushError>(
                    (final(txn).accounts@, receipts_view(final(txn).receipts@)),
                ),
                Err(e) => self@.committed(
                    old(txn).accounts@,
                    receipts_view(old(txn).receipts@),
                    *block,
                ) == Err::<(Map<u64, u64>, Map<u32, Seq<u64>>), PushError>(e),
            },
            result matches Err(PushError::AccountsError(_)) ==> *final(txn) == *old(txn),
    {
        let parent = self.chain_store.get_chain_info(&block.parent_hash()).unwrap();
        let first_view = if parent.head.is_macro() {
            0
        } else {
            parent.head.view_number()
        };
        let entropy = parent.head.seed().entropy;
        let inherents = create_inherents(
            &self.policy,
            block,
            first_view,
            &self.state.current_slots,
            &entropy,
        );
        let none: Vec<Transaction> = Vec::new();
        let transactions: &Vec<Transaction> = match block {
            Block::Micro(MicroBlock { body: Some(body), .. }) => &body.transactions,
            _ => &none,
        };
        assert(transactions@ =~= block.spec_transactions());
        let receipts = match txn.accounts.commit(transactions, &inherents) {
            Ok(receipts) => receipts,
            Err(e) => {
                return Err(PushError::AccountsError(e));
            },
        };
        match block {
            Block::Macro(_) => {
                // Macro blocks are final: the receipts of the batch are no longer needed.
                txn.receipts.clear();
                assert(receipts_view(txn.receipts@) =~= Map::<u32, Seq<u64>>::empty());
            },
            Block::Micro(_) => {
                txn.receipts.insert(block.block_number(), receipts);
                assert(receipts_view(txn.receipts@) =~= receipts_view(old(txn).receipts@).insert(
                    block.spec_block_number(),
                    receipts.burned@,
                ));
            },
        }
        let accounts_hash = txn.accounts.hash();
        if block.state_root() != accounts_hash {
            return Err(PushError::InvalidBlock(BlockError::AccountsHashMismatch));
        }
        Ok(
            BlockLog::AppliedBlock {
                block_hash: block.hash(),
                block_number: block.block_number(),
                num_transactions: block.num_transactions(),
            },
        )
    }

    /// Takes the stored micro block `block` back from the accounts of the
    /// transaction, with the receipts that are stored for its height.
    pub fn revert_accounts(&self, txn: &mut WriteTransaction, block: &Block) -> (result: Result<
        BlockLog,
        PushError,
    >)
        requires
            self@.policy.wf(),
            old(txn).accounts.wf(),
            self@.infos.contains_key(block.spec_hash()),
            self@.block(block.spec_hash()) == *block,
            self@.infos.contains_key(block.spec_parent_hash()),
            crate::accounts::accounts_root(old(txn).accounts@) == block.spec_state_root(),
            old(txn).receipts@.contains_key(block.spec_block_number()),
            old(txn).over(self@).revert_block(old(txn).accounts@, block.spec_hash()) is Ok,
        ensures
            result == Ok::<BlockLog, PushError>(reverted_log(*block)),
            final(txn).accounts.wf(),
            final(txn).receipts == old(txn).receipts,
            old(txn).over(self@).revert_block(old(txn).accounts@, block.spec_hash()) == Ok::<
                Map<u64, u64>,
                crate::accounts::AccountError,
            >(final(txn).accounts@),
    {
        proof {
            reveal(ChainView::revert_block);
        }
        let parent = self.chain_store.get_chain_info(&block.parent_hash()).unwrap();
        let first_view = if parent.head.is_macro() {
            0
        } else {
            parent.head.view_number()
        };
        let entropy = parent.head.seed().entropy;
        let inherents = create_inherents(
            &self.policy,
            block,
            first_view,
            &self.state.current_slots,
            &entropy,
        );
        let none: Vec<Transaction> = Vec::new();
        let transactions: &Vec<Transaction> = match block {
            Block::Micro(MicroBlock { body: Some(body), .. }) => &body.transactions,
            _ => &none,
        };
        assert(transactions@ =~= block.spec_transactions());
        let number = block.block_number();
        // The receipts are there and fit the block: the block was committed with them.
        let receipts = txn.receipts.get(&number).unwrap();
        txn.accounts.revert(transactions, &inherents, receipts).unwrap();
        Ok(
            BlockLog::RevertedBlock {
                block_hash: block.hash(),
                block_number: block.block_number(),
                num_transactions: block.num_transactions(),
            },
        )
    }

    /// Verifies the state after `block` was committed inside the transaction
    /// against the header of the block: the state root, the history root, and
    /// the PK-tree root of an election block.
    pub fn verify_block_state(&self, block: &Block, txn: &WriteTransaction) -> (result: Result<
        (),
        PushError,
    >)
        requires
            self@.policy.wf(),
            self@.infos.contains_key(block.spec_parent_hash()),
        ensures
            result == crate::verify::outcome(self@.state_error(txn.accounts@, *block)),
    {
        let header = block.header();
        if header.state_root != txn.accounts.get_root() {
            return Err(PushError::InvalidBlock(BlockError::AccountsHashMismatch));
        }
        let parent = self.chain_store.get_chain_info(&block.parent_hash()).unwrap();
        let none: Vec<Transaction> = Vec::new();
        let transactions: &Vec<Transaction> = match block {
            Block::Micro(MicroBlock { body: Some(body), .. }) => &body.transactions,
            _ => &none,
        };
        assert(transactions@ =~= block.spec_transactions());
        if header.history_root != crate::roots::history_root(
            &parent.head.header().history_root,
            transactions,
        ) {
            return Err(PushError::InvalidBlock(BlockError::InvalidHistoryRoot));
        }
        if block.is_macro() && self.policy.is_election_block_at(header.block_number) {
            let no_keys: Vec<u64> = Vec::new();
            let keys: &Vec<u64> = match block {
                Block::Macro(MacroBlock { body: Some(body), .. }) => match &body.validators {
                    Some(keys) => keys,
                    None => &no_keys,
                },
                _ => &no_keys,
            };
            assert(keys@ =~= block.spec_validators());
            if header.pk_tree_root != crate::roots::pk_tree_root(keys) {
                return Err(PushError::InvalidBlock(BlockError::InvalidPkTreeRoot));
            }
        }
        Ok(())
    }

    /// Whether one of the transactions of `block` is part of the blocks that
    /// end with its parent, as far back as transactions are remembered.
    pub fn repeats_transaction(&self, block: &Block) -> (repeats: bool)
        ensures
            repeats == self@.replays(*block, block.spec_parent_hash()),
    {
        let ghost infos = self@.infos;
        let ghost window = self@.policy.transaction_validity_window as nat;
        let ghost txs = block.spec_transactions();
        let parent_hash = block.parent_hash();
        if let Block::Micro(MicroBlock { body: Some(body), .. }) = block {
            let mut i: usize = 0;
            while i < body.transactions.len()
                invariant
                    i <= body.transactions@.len(),
                    txs == body.transactions@,
                    txs == block.spec_transactions(),
                    parent_hash == block.spec_parent_hash(),
                    infos == self@.infos,
                    window == self@.policy.transaction_validity_window as nat,
                    forall|k: int|
                        0 <= k < i ==> !crate::chain_view::tx_in_window(
                            infos,
                            parent_hash,
                            (#[trigger] txs[k]).hash,
                            window,
                        ),
                decreases body.transactions@.len() - i,
            {
                let tx_hash = body.transactions[i].hash;
                if self.tx_in_validity_window_from(&tx_hash, &parent_hash) {
                    assert(crate::chain_view::tx_in_window(
                        infos,
                        parent_hash,
                        txs[i as int].hash,
                        window,
                    ));
                    return true;
                }
                i = i + 1;
            }
        }
        false
    }

    /// Applies `block` inside the transaction. A micro block must not repeat a
    /// transaction of the blocks before it: where it does, nothing is
    /// committed and the transaction stays as it was. Then the block is
    /// committed to the accounts; where they refuse it, the transaction stays
    /// as it was, too. Then the state is verified against the header.
    pub fn check_and_commit(&self, block: &Block, txn: &mut WriteTransaction) -> (result: Result<
        BlockLog,
        PushError,
    >)
        requires
            self@.policy.wf(),
            old(txn).accounts.wf(),
            self@.infos.contains_key(block.spec_parent_hash()),
        ensures
            final(txn).accounts.wf(),
            match result {
                Ok(log) => log == applied_log(*block) && self@.applied(
                    old(txn).accounts@,
                    receipts_view(old(txn).receipts@),
                    *block,
                ) == Ok::<(Map<u64, u64>, Map<u32, Seq<u64>>), PushError>(
                    (final(txn).accounts@, receipts_view(final(txn).receipts@)),
                ),
                Err(e) => self@.applied(
                    old(txn).accounts@,
                    receipts_view(old(txn).receipts@),
                    *block,
                ) == Err::<(Map<u64, u64>, Map<u32, Seq<u64>>), PushError>(e),
            },
            result == Err::<BlockLog, PushError>(PushError::DuplicateTransaction) ==> *final(txn)
                == *old(txn),
            result matches Err(PushError::AccountsError(_)) ==> *final(txn) == *old(txn),
    {
        proof {
            reveal(ChainView::applied);
        }
        // Check transactions against replay. This is only necessary for micro blocks.
        if block.is_micro() {
            if self.repeats_transaction(block) {
                return Err(PushError::DuplicateTransaction);
            }
        }
        // Commit block to the accounts.
        let block_log = self.commit_accounts(block, txn);
        if let Err(e) = block_log {
            return Err(e);
        }
        // Verify the state against the block.
        if let Err(e) = self.verify_block_state(block, txn) {
            return Err(e);
        }
        block_log
    }
}

} // verus!
