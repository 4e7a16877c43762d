//! The blockchain: the chain store, the accounts and the heads, with the
//! events that its operations leave for those who listen.

use crate::accounts::{accounts_root, Accounts, Receipts};
use crate::block::{Block, BlockView, ForkProof, MacroBlock, MicroBlock};
use crate::chain_info::ChainInfo;
use crate::chain_store::ChainStore;
use crate::chain_view::{has_transaction, tx_in_window, ChainView};
use crate::hash::Blake2bHash;
use crate::policy::Policy;
use std::collections::BTreeMap;
use vstd::prelude::*;
use vstd::std_specs::btree::*;

verus! {

broadcast use {vstd::std_specs::btree::group_btree_axioms, vstd::laws_cmp::group_laws_cmp};

/// What changed on the main chain.
#[derive(Clone, Debug, PartialEq, Eq)]
pub enum BlockchainEvent {
    /// A micro block became the head.
    Extended(Blake2bHash),
    /// A macro block that is no election block became the head.
    Finalized(Blake2bHash),
    /// An election block became the head.
    EpochFinalized(Blake2bHash),
    /// The main chain changed its branch: the blocks that left the main chain,
    /// the old head first, and the blocks that joined it, the new head last.
    Rebranched(Vec<(Blake2bHash, Block)>, Vec<(Blake2bHash, Block)>),
}

/// What was found out about the validators.
#[derive(Clone, Copy, Debug, PartialEq, Eq, Structural)]
pub enum ForkEvent {
    /// One validator proposed two blocks for one slot.
    Detected(ForkProof),
}

/// What happened to the accounts.
#[derive(Clone, Copy, Debug, PartialEq, Eq, Structural)]
pub enum BlockLog {
    /// A block was applied to the accounts.
    AppliedBlock { block_hash: Blake2bHash, block_number: u32, num_transactions: usize },
    /// A block was taken back from the accounts.
    RevertedBlock { block_hash: Blake2bHash, block_number: u32, num_transactions: usize },
}

/// The contents of an event.
pub enum BlockchainEventView {
    Extended(Blake2bHash),
    Finalized(Blake2bHash),
    EpochFinalized(Blake2bHash),
    Rebranched(Seq<(Blake2bHash, BlockView)>, Seq<(Blake2bHash, BlockView)>),
}

/// The contents of the blocks of an event.
pub open spec fn blocks_view(blocks: Seq<(Blake2bHash, Block)>) -> Seq<(Blake2bHash, BlockView)> {
    Seq::new(blocks.len(), |i: int| (blocks[i].0, blocks[i].1@))
}

impl View for BlockchainEvent {
    type V = BlockchainEventView;

    open spec fn view(&self) -> BlockchainEventView {
        match *self {
            BlockchainEvent::Extended(hash) => BlockchainEventView::Extended(hash),
            BlockchainEvent::Finalized(hash) => BlockchainEventView::Finalized(hash),
            BlockchainEvent::EpochFinalized(hash) => BlockchainEventView::EpochFinalized(hash),
            BlockchainEvent::Rebranched(reverted, adopted) => BlockchainEventView::Rebranched(
                blocks_view(reverted@),
                blocks_view(adopted@),
            ),
        }
    }
}

/// The contents of a list of events.
pub open spec fn events_view(events: Seq<BlockchainEvent>) -> Seq<BlockchainEventView> {
    Seq::new(events.len(), |i: int| events[i]@)
}

/// The log of the block when it is applied.
pub open spec fn applied_log(block: Block) -> BlockLog {
    BlockLog::AppliedBlock {
        block_hash: block.spec_hash(),
        block_number: block.spec_block_number(),
        num_transactions: block.spec_transactions().len() as usize,
    }
}

/// The log of the block when it is taken back.
pub open spec fn reverted_log(block: Block) -> BlockLog {
    BlockLog::RevertedBlock {
        block_hash: block.spec_hash(),
        block_number: block.spec_block_number(),
        num_transactions: block.spec_transactions().len() as usize,
    }
}

/// What the blockchain holds besides the chain store.
pub struct BlockchainState {
    /// The digest of the head of the main chain.
    pub head_hash: Blake2bHash,
    /// The digest of the last macro block of the main chain.
    pub macro_head_hash: Blake2bHash,
    /// The digest of the last election block of the main chain.
    pub election_head_hash: Blake2bHash,
    /// The keys of the validators of the current epoch.
    pub current_slots: Vec<u64>,
    /// The keys of the validators of the epoch before.
    pub previous_slots: Vec<u64>,
    /// The accounts after the head.
    pub accounts: Accounts,
}

/// The chain: its store, its heads and accounts, and what it has to tell.
pub struct Blockchain {
    pub policy: Policy,
    /// The clock, in milliseconds: blocks with a later timestamp are refused.
    pub now: u64,
    pub chain_store: ChainStore,
    pub state: BlockchainState,
    /// The events that were not taken yet, oldest first.
    pub notifier: Vec<BlockchainEvent>,
    /// The fork events that were not taken yet, oldest first.
    pub fork_notifier: Vec<ForkEvent>,
    /// The block logs that were not taken yet, oldest first.
    pub log_notifier: Vec<BlockLog>,
}

/// The accounts and receipts on which a change of the main chain works until
/// it is known to succeed.
pub struct WriteTransaction {
    pub accounts: Accounts,
    pub receipts: BTreeMap<u32, Receipts>,
}

/// The receipts by height, each as the amounts that it lists.
pub open spec fn receipts_view(receipts: Map<u32, Receipts>) -> Map<u32, Seq<u64>> {
    Map::new(|height: u32| receipts.contains_key(height), |height: u32| receipts[height].burned@)
}

impl View for Blockchain {
    type V = ChainView;

    open spec fn view(&self) -> ChainView {
        ChainView {
            policy: self.policy,
            now: self.now,
            infos: self.chain_store.chain_infos(),
            head: self.state.head_hash,
            macro_head: self.state.macro_head_hash,
            election_head: self.state.election_head_hash,
            current_slots: self.state.current_slots@,
            previous_slots: self.state.previous_slots@,
            accounts: self.state.accounts@,
            receipts: receipts_view(self.chain_store.receipts@),
        }
    }
}

/// Whether one of the transactions of `block` has the digest `tx_hash`.
pub fn block_has_transaction(block: &Block, tx_hash: &Blake2bHash) -> (found: bool)
    ensures
        found == has_transaction(block.spec_transactions(), *tx_hash),
{
    match block {
        Block::Micro(MicroBlock { body: Some(body), .. }) => {
            let mut i: usize = 0;
            while i < body.transactions.len()
                invariant
                    i <= body.transactions@.len(),
                    block.spec_transactions() == body.transactions@,
                    forall|k: int| 0 <= k < i ==> (#[trigger] body.transactions@[k]).hash != *tx_hash,
                decreases body.transactions@.len() - i,
            {
                if body.transactions[i].hash == *tx_hash {
                    assert(block.spec_transactions()[i as int].hash == *tx_hash);
                    return true;
                }
                i = i + 1;
            }
            false
        },
        _ => false,
    }
}

impl Blockchain {
    /// What always holds of a blockchain between two operations.
    pub open spec fn wf(self) -> bool {
        &&& self@.wf()
        &&& self.chain_store.head == Some(self.state.head_hash)
    }

    /// The chain that starts with `genesis`, on the accounts `accounts`.
    /// There is one where the policy is usable, the block is a macro block at
    /// height zero, and its state root is that of the accounts.
    pub fn new(policy: Policy, genesis: Block, accounts: Accounts, now: u64) -> (chain: Option<
        Blockchain,
    >)
        requires
            accounts.wf(),
        ensures
            chain is Some <==> policy.wf() && genesis.spec_is_macro() && genesis.spec_block_number()
                == 0 && genesis.spec_state_root() == accounts_root(accounts@),
            chain matches Some(chain) ==> {
                &&& chain.wf()
                &&& chain@.infos == Map::<Blake2bHash, ChainInfo>::empty().insert(
                    genesis.spec_hash(),
                    ChainInfo { head: genesis, on_main_chain: true, main_chain_successor: None },
                )
                &&& chain@.head == genesis.spec_hash()
                &&& chain@.macro_head == genesis.spec_hash()
                &&& chain@.election_head == genesis.spec_hash()
                &&& chain@.accounts == accounts@
                &&& chain@.receipts == Map::<u32, Seq<u64>>::empty()
                &&& chain@.policy == policy
                &&& chain@.now == now
                &&& chain@.previous_slots == Seq::<u64>::empty()
                &&& chain@.current_slots == match genesis {
                    Block::Macro(MacroBlock { body: Some(body), .. }) => match body.validators {
                        Some(keys) => keys@,
                        None => Seq::empty(),
                    },
                    _ => Seq::empty(),
                }
                &&& chain.notifier@.len() == 0
                &&& chain.fork_notifier@.len() == 0
                &&& chain.log_notifier@.len() == 0
            },
    {
        if policy.batch_length == 0 || policy.batches_per_epoch == 0 {
            return None;
        }
        if policy.batch_length.checked_mul(policy.batches_per_epoch).is_none() {
            return None;
        }
        if !genesis.is_macro() || genesis.block_number() != 0 {
            return None;
        }
        if genesis.state_root() != accounts.hash() {
            return None;
        }
        let current_slots = match &genesis {
            Block::Macro(MacroBlock { body: Some(body), .. }) => match &body.validators {
                Some(keys) => crate::block::copy_of(keys),
                None => Vec::new(),
            },
            _ => Vec::new(),
        };
        let hash = genesis.hash();
        let mut chain_store = ChainStore::new();
        let ghost block = genesis;
        chain_store.put_chain_info(&hash, ChainInfo::genesis(genesis));
        chain_store.set_head(&hash);
        let chain = Blockchain {
            policy,
            now,
            chain_store,
            state: BlockchainState {
                head_hash: hash,
                macro_head_hash: hash,
                election_head_hash: hash,
                current_slots,
                previous_slots: Vec::new(),
                accounts,
            },
            notifier: Vec::new(),
            fork_notifier: Vec::new(),
            log_notifier: Vec::new(),
        };
        proof {
            assert(chain@.receipts =~= Map::<u32, Seq<u64>>::empty());
            assert(chain@.infos.dom() =~= set![hash]);
            policy.lemma_last_macro_block(0);
            assert(chain@.infos.contains_key(hash));
            assert(chain@.revertible(chain@.accounts, hash));
        }
        Some(chain)
    }

    /// Takes the events that wait to be told, oldest first.
    pub fn take_events(&mut self) -> (events: Vec<BlockchainEvent>)
        ensures
            events == old(self).notifier,
            final(self).notifier@.len() == 0,
            final(self)@ == old(self)@,
            final(self).chain_store == old(self).chain_store,
            final(self).fork_notifier == old(self).fork_notifier,
            final(self).log_notifier == old(self).log_notifier,
    {
        let mut events: Vec<BlockchainEvent> = Vec::new();
        std::mem::swap(&mut self.notifier, &mut events);
        events
    }

    /// Takes the fork events that wait to be told, oldest first.
    pub fn take_fork_events(&mut self) -> (events: Vec<ForkEvent>)
        ensures
            events == old(self).fork_notifier,
            final(self).fork_notifier@.len() == 0,
            final(self)@ == old(self)@,
            final(self).chain_store == old(self).chain_store,
            final(self).notifier == old(self).notifier,
            final(self).log_notifier == old(self).log_notifier,
    {
        let mut events: Vec<ForkEvent> = Vec::new();
        std::mem::swap(&mut self.fork_notifier, &mut events);
        events
    }

    /// Takes the block logs that wait to be told, oldest first.
    pub fn take_block_logs(&mut self) -> (logs: Vec<BlockLog>)
        ensures
            logs == old(self).log_notifier,
            final(self).log_notifier@.len() == 0,
            final(self)@ == old(self)@,
            final(self).chain_store == old(self).chain_store,
            final(self).notifier == old(self).notifier,
            final(self).fork_notifier == old(self).fork_notifier,
    {
        let mut logs: Vec<BlockLog> = Vec::new();
        std::mem::swap(&mut self.log_notifier, &mut logs);
        logs
    }

    /// The blocks at `height`, in the order of their digests.
    pub fn get_blocks_at(&self, height: u32) -> (blocks: Vec<Block>)
        ensures
            exists|hashes: Seq<Blake2bHash>|
                {
                    &&& #[trigger] crate::chain_store::lists_range(
                        hashes,
                        self@.infos,
                        height,
                        height,
                    )
                    &&& blocks@.len() == hashes.len()
                    &&& forall|i: int|
                        0 <= i < blocks@.len() ==> (#[trigger] blocks@[i])@ == self@.block(
                            hashes[i],
                        )@
                },
    {
        let blocks = self.chain_store.get_blocks_at(height);
        proof {
            let hashes = choose|hashes: Seq<Blake2bHash>|
                {
                    &&& #[trigger] crate::chain_store::lists_range(
                        hashes,
                        self.chain_store.chain_infos(),
                        height,
                        height,
                    )
                    &&& blocks@.len() == hashes.len()
                    &&& forall|i: int|
                        0 <= i < blocks@.len() ==> (#[trigger] blocks@[i])@
                            == self.chain_store.chain_infos()[hashes[i]].head@
                };
            assert(crate::chain_store::lists_range(hashes, self@.infos, height, height));
        }
        blocks
    }

    /// Sets the clock.
    pub fn set_time(&mut self, now: u64)
        ensures
            final(self)@ == (ChainView { now, ..old(self)@ }),
            final(self).chain_store == old(self).chain_store,
            final(self).state == old(self).state,
            final(self).notifier == old(self).notifier,
            final(self).fork_notifier == old(self).fork_notifier,
            final(self).log_notifier == old(self).log_notifier,
    {
        self.now = now;
    }

    /// The digest of the head of the main chain.
    pub fn head_hash(&self) -> (hash: Blake2bHash)
        ensures
            hash == self@.head,
    {
        self.state.head_hash
    }

    /// The digest of the last macro block of the main chain.
    pub fn macro_head_hash(&self) -> (hash: Blake2bHash)
        ensures
            hash == self@.macro_head,
    {
        self.state.macro_head_hash
    }

    /// The digest of the last election block of the main chain.
    pub fn election_head_hash(&self) -> (hash: Blake2bHash)
        ensures
            hash == self@.election_head,
    {
        self.state.election_head_hash
    }

    /// The entry of the head of the main chain.
    pub fn main_chain(&self) -> (info: &ChainInfo)
        requires
            self.wf(),
        ensures
            *info == self@.infos[self@.head],
    {
        self.chain_store.get_chain_info(&self.state.head_hash).unwrap()
    }

    /// The height of the head of the main chain.
    pub fn block_number(&self) -> (number: u32)
        requires
            self.wf(),
        ensures
            number == self@.head_number(),
    {
        self.main_chain().head.block_number()
    }

    /// The entry of the last macro block of the main chain.
    pub fn macro_info(&self) -> (info: &ChainInfo)
        requires
            self.wf(),
        ensures
            *info == self@.infos[self@.macro_head],
    {
        self.chain_store.get_chain_info(&self.state.macro_head_hash).unwrap()
    }

    /// The block with digest `hash`, if the store has it.
    pub fn get_block(&self, hash: &Blake2bHash) -> (found: Option<&Block>)
        ensures
            match found {
                Some(block) => self@.infos.contains_key(*hash) && *block == self@.block(*hash),
                None => !self@.infos.contains_key(*hash),
            },
    {
        match self.chain_store.get_chain_info(hash) {
            Some(info) => Some(&info.head),
            None => None,
        }
    }

    /// The keys of the validators of the current epoch.
    pub fn current_validators(&self) -> (slots: &Vec<u64>)
        ensures
            slots@ == self@.current_slots,
    {
        &self.state.current_slots
    }

    /// Whether a transaction with digest `tx_hash` is part of the blocks that
    /// end with the block `tip`, as far back as transactions are remembered.
    pub fn tx_in_validity_window_from(&self, tx_hash: &Blake2bHash, tip: &Blake2bHash) -> (found:
        bool)
        ensures
            found == tx_in_window(
                self@.infos,
                *tip,
                *tx_hash,
                self@.policy.transaction_validity_window as nat,
            ),
    {
        let mut depth: u32 = self.policy.transaction_validity_window;
        let mut current: Blake2bHash = *tip;
        let mut found = false;
        while depth > 0 && !found
            invariant
                tx_in_window(
                    self@.infos,
                    *tip,
                    *tx_hash,
                    self@.policy.transaction_validity_window as nat,
                ) == (found || tx_in_window(self@.infos, current, *tx_hash, depth as nat)),
            decreases depth + if found { 0int } else { 1int },
        {
            match self.chain_store.get_chain_info(&current) {
                None => {
                    depth = 0;
                },
                Some(info) => {
                    found = block_has_transaction(&info.head, tx_hash);
                    current = info.head.parent_hash();
                    depth = depth - 1;
                },
            }
        }
        found
    }

    /// Whether a transaction with digest `tx_hash` is part of the main chain,
    /// as far back as transactions are remembered.
    pub fn contains_tx_in_validity_window(&self, tx_hash: &Blake2bHash) -> (found: bool)
        ensures
            found == tx_in_window(
                self@.infos,
                self@.head,
                *tx_hash,
                self@.policy.transaction_validity_window as nat,
            ),
    {
        self.tx_in_validity_window_from(tx_hash, &self.state.head_hash)
    }
}

} // verus!
