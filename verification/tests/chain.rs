use albatross_chain::accounts::{AccountError, Accounts};
use albatross_chain::block::{
    Block, BlockError, Header, MacroBlock, MacroBody, MacroJustification, MicroBlock, MicroBody,
    MicroJustification, Signature, SkipBlockProof, Transaction, VrfSeed,
};
use albatross_chain::blockchain::{BlockLog, Blockchain, BlockchainEvent, ForkEvent};
use albatross_chain::error::{PushError, PushResult};
use albatross_chain::hash::Blake2bHash;
use albatross_chain::inherent::create_inherents;
use albatross_chain::policy::Policy;
use albatross_chain::roots::{history_root, pk_tree_root};

const VALIDATOR: u64 = 7;

fn h(n: u64) -> Blake2bHash {
    Blake2bHash { w0: 0, w1: 0, w2: 0, w3: n }
}

fn policy() -> Policy {
    Policy {
        batch_length: 4,
        batches_per_epoch: 2,
        version: 1,
        transaction_validity_window: 8,
        timestamp_max_drift: 1_000,
        block_producer_timeout: 500,
        two_f_plus_one: 3,
        slash_penalty: 10,
        epoch_reward: 5,
    }
}

fn seed(entropy: u64) -> VrfSeed {
    VrfSeed { entropy: h(entropy), signer: VALIDATOR }
}

fn header(number: u32, hash: Blake2bHash, parent: Blake2bHash, root: Blake2bHash) -> Header {
    Header {
        version: 1,
        block_number: number,
        view_number: 0,
        timestamp: 100 * number as u64,
        hash,
        parent_hash: parent,
        seed: seed(1_000 + hash.w3),
        state_root: root,
        body_root: h(0),
        history_root: h(0),
        pk_tree_root: h(0),
    }
}

fn micro(
    number: u32,
    hash: Blake2bHash,
    parent: Blake2bHash,
    root: Blake2bHash,
    transactions: Vec<Transaction>,
) -> Block {
    // the history root is the one after a parent whose history is still empty
    let mut header = header(number, hash, parent, root);
    header.history_root = history_root(&h(0), &transactions);
    Block::Micro(MicroBlock {
        header,
        justification: Some(MicroJustification::Micro(Signature { signer: VALIDATOR })),
        body: Some(MicroBody { hash: h(0), fork_proofs: vec![], transactions }),
    })
}

fn macro_block(
    number: u32,
    hash: Blake2bHash,
    parent: Blake2bHash,
    root: Blake2bHash,
    validators: Option<Vec<u64>>,
) -> Block {
    let mut header = header(number, hash, parent, root);
    if let Some(keys) = &validators {
        header.pk_tree_root = pk_tree_root(keys);
    }
    Block::Macro(MacroBlock {
        header,
        justification: Some(MacroJustification { round: 0, votes: 3 }),
        body: Some(MacroBody { hash: h(0), validators }),
    })
}

fn genesis_accounts() -> Accounts {
    let mut accounts = Accounts::new();
    accounts.set_balance(1, 1_000);
    accounts.set_balance(2, 500);
    accounts
}

fn genesis() -> Block {
    macro_block(0, h(100), h(0), genesis_accounts().hash(), Some(vec![VALIDATOR]))
}

fn new_chain() -> Blockchain {
    let mut chain = Blockchain::new(policy(), genesis(), genesis_accounts(), 0).unwrap();
    chain.set_time(1_000_000);
    chain
}

fn transfer(hash: u64, sender: u64, recipient: u64, value: u64, fee: u64) -> Transaction {
    Transaction { hash: h(hash), sender, recipient, value, fee, validity_start_height: 0 }
}

/// The state root that a block with these transactions has on top of the accounts.
fn root_after(accounts: &Accounts, transactions: &Vec<Transaction>) -> Blake2bHash {
    let mut work = accounts.clone();
    work.commit(transactions, &vec![]).unwrap();
    work.hash()
}

fn plain_root() -> Blake2bHash {
    genesis_accounts().hash()
}

#[test]
fn orphan_block_is_rejected_and_store_stays() {
    let mut chain = new_chain();
    let block = micro(1, h(1), Blake2bHash { w0: 0xAAAA_AAAA_AAAA_AAAA, w1: 0xAAAA_AAAA_AAAA_AAAA, w2: 0xAAAA_AAAA_AAAA_AAAA, w3: 0xAAAA_AAAA_AAAA_AAAA }, plain_root(), vec![]);
    assert_eq!(chain.push(block), Err(PushError::Orphan));
    assert_eq!(chain.head_hash(), h(100));
    assert!(chain.get_block(&h(1)).is_none());
    assert_eq!(chain.chain_store.infos.len(), 1);
    assert!(chain.notifier.is_empty());
}

#[test]
fn genesis_successor_extends() {
    let mut chain = new_chain();
    let b1 = micro(1, h(1), h(100), plain_root(), vec![]);
    assert_eq!(chain.push(b1), Ok(PushResult::Extended));
    assert_eq!(chain.head_hash(), h(1));
    assert_eq!(chain.notifier, vec![BlockchainEvent::Extended(h(1))]);
    assert_eq!(
        chain.log_notifier,
        vec![BlockLog::AppliedBlock { block_hash: h(1), block_number: 1, num_transactions: 0 }]
    );
    assert_eq!(chain.chain_store.head, Some(h(1)));
    let parent = chain.chain_store.get_chain_info(&h(100)).unwrap();
    assert_eq!(parent.main_chain_successor, Some(h(1)));
    assert!(chain.main_chain().on_main_chain);
}

#[test]
fn pushing_twice_gives_known() {
    let mut chain = new_chain();
    let b1 = micro(1, h(1), h(100), plain_root(), vec![]);
    assert_eq!(chain.push(b1.clone()), Ok(PushResult::Extended));
    assert_eq!(chain.push(b1), Ok(PushResult::Known));
    assert_eq!(chain.notifier.len(), 1);
}

fn chain_of_two() -> Blockchain {
    let mut chain = new_chain();
    assert_eq!(chain.push(micro(1, h(1), h(100), plain_root(), vec![])), Ok(PushResult::Extended));
    assert_eq!(chain.push(micro(2, h(20), h(1), plain_root(), vec![])), Ok(PushResult::Extended));
    chain
}

#[test]
fn lower_branch_is_forked_without_rebranch() {
    let mut chain = chain_of_two();
    let events = chain.notifier.len();
    assert_eq!(chain.push(micro(1, h(11), h(100), plain_root(), vec![])), Ok(PushResult::Forked));
    assert_eq!(chain.head_hash(), h(20));
    assert_eq!(chain.notifier.len(), events);
    assert!(!chain.chain_store.get_chain_info(&h(11)).unwrap().on_main_chain);
    assert!(chain.fork_notifier.is_empty());
}

#[test]
fn fork_with_same_entropy_is_detected() {
    let mut chain = chain_of_two();
    // A second block at height 1 with the seed of the first one.
    let mut twin = micro(1, h(11), h(100), plain_root(), vec![]);
    if let Block::Micro(block) = &mut twin {
        block.header.seed = seed(1_001);
    }
    assert_eq!(chain.push(twin.clone()), Ok(PushResult::Forked));
    assert_eq!(chain.fork_notifier.len(), 1);
    let ForkEvent::Detected(proof) = chain.fork_notifier[0];
    assert_eq!(proof.header1, twin.header());
    assert_eq!(proof.header2.hash, h(1));
    assert_eq!(proof.prev_vrf_seed, genesis().seed());
    assert_eq!(proof.justification1, Signature { signer: VALIDATOR });
}

#[test]
fn superior_branch_rebranches() {
    let mut chain = chain_of_two();
    let before = chain.notifier.len();
    let b1x = micro(1, h(11), h(100), plain_root(), vec![]);
    // At the height of the head, with a digest that comes after that of the head.
    let b2x = micro(2, h(21), h(11), plain_root(), vec![]);
    let b3x = micro(3, h(31), h(21), plain_root(), vec![]);
    assert_eq!(chain.push(b1x.clone()), Ok(PushResult::Forked));
    assert_eq!(chain.push(b2x.clone()), Ok(PushResult::Ignored));
    assert_eq!(chain.head_hash(), h(20));
    assert_eq!(chain.push(b3x.clone()), Ok(PushResult::Rebranched));
    assert_eq!(chain.head_hash(), h(31));
    assert_eq!(chain.notifier.len(), before + 1);
    match &chain.notifier[before] {
        BlockchainEvent::Rebranched(reverted, adopted) => {
            let reverted: Vec<Blake2bHash> = reverted.iter().map(|pair| pair.0).collect();
            assert_eq!(reverted, vec![h(20), h(1)]);
            assert_eq!(adopted, &vec![(h(11), b1x), (h(21), b2x), (h(31), b3x.clone())]);
        }
        other => panic!("unexpected event {:?}", other),
    }
    assert_eq!(chain.state.accounts.hash(), b3x.state_root());
    let logs = &chain.log_notifier[chain.log_notifier.len() - 5..];
    assert_eq!(
        logs,
        &[
            BlockLog::RevertedBlock { block_hash: h(20), block_number: 2, num_transactions: 0 },
            BlockLog::RevertedBlock { block_hash: h(1), block_number: 1, num_transactions: 0 },
            BlockLog::AppliedBlock { block_hash: h(11), block_number: 1, num_transactions: 0 },
            BlockLog::AppliedBlock { block_hash: h(21), block_number: 2, num_transactions: 0 },
            BlockLog::AppliedBlock { block_hash: h(31), block_number: 3, num_transactions: 0 },
        ]
    );
    // the places of the blocks
    let store = &chain.chain_store;
    assert!(!store.get_chain_info(&h(1)).unwrap().on_main_chain);
    assert!(!store.get_chain_info(&h(20)).unwrap().on_main_chain);
    assert_eq!(store.get_chain_info(&h(20)).unwrap().main_chain_successor, None);
    assert_eq!(store.get_chain_info(&h(100)).unwrap().main_chain_successor, Some(h(11)));
    assert_eq!(store.get_chain_info(&h(11)).unwrap().main_chain_successor, Some(h(21)));
    assert_eq!(store.get_chain_info(&h(21)).unwrap().main_chain_successor, Some(h(31)));
    assert_eq!(store.get_chain_info(&h(31)).unwrap().main_chain_successor, None);
    assert!(store.get_chain_info(&h(31)).unwrap().on_main_chain);
}

#[test]
fn equal_height_with_earlier_digest_rebranches() {
    let mut chain = chain_of_two();
    assert_eq!(chain.push(micro(1, h(11), h(100), plain_root(), vec![])), Ok(PushResult::Forked));
    // h(19) comes before the head h(20)
    assert_eq!(chain.push(micro(2, h(19), h(11), plain_root(), vec![])), Ok(PushResult::Rebranched));
    assert_eq!(chain.head_hash(), h(19));
}

fn chain_at_macro() -> Blockchain {
    let mut chain = new_chain();
    assert_eq!(chain.push(micro(1, h(1), h(100), plain_root(), vec![])), Ok(PushResult::Extended));
    assert_eq!(chain.push(micro(2, h(2), h(1), plain_root(), vec![])), Ok(PushResult::Extended));
    assert_eq!(chain.push(micro(3, h(3), h(2), plain_root(), vec![])), Ok(PushResult::Extended));
    assert_eq!(
        chain.push(macro_block(4, h(4), h(3), plain_root(), None)),
        Ok(PushResult::Extended)
    );
    chain
}

#[test]
fn blocks_at_or_below_the_macro_head_are_ignored() {
    let mut chain = chain_at_macro();
    assert_eq!(chain.macro_head_hash(), h(4));
    assert_eq!(chain.notifier.last(), Some(&BlockchainEvent::Finalized(h(4))));
    let count = chain.chain_store.infos.len();
    for number in 1..=4u32 {
        let block = micro(number, h(50 + number as u64), h(100), plain_root(), vec![]);
        assert_eq!(chain.push(block), Ok(PushResult::Ignored));
    }
    // the macro block itself is final, too
    assert_eq!(chain.push(macro_block(4, h(4), h(3), plain_root(), None)), Ok(PushResult::Ignored));
    assert_eq!(chain.chain_store.infos.len(), count);
    assert_eq!(chain.head_hash(), h(4));
}

#[test]
fn macro_block_clears_receipts_and_no_branch_crosses_it() {
    let mut chain = chain_at_macro();
    assert!(chain.chain_store.receipts.is_empty());
    let events = chain.notifier.len();
    let logs = chain.log_notifier.len();
    let stored = chain.chain_store.infos.len();
    let accounts_hash = chain.state.accounts.hash();
    // a block above the macro block whose parent was never accepted
    assert_eq!(
        chain.push(micro(5, h(55), h(44), plain_root(), vec![])),
        Err(PushError::Orphan)
    );
    // a block above the macro block on a block of the main chain below it
    assert_eq!(
        chain.push(micro(5, h(56), h(2), plain_root(), vec![])),
        Err(PushError::InvalidFork)
    );
    assert_eq!(
        chain.push(micro(6, h(57), h(3), plain_root(), vec![])),
        Err(PushError::InvalidFork)
    );
    assert_eq!(chain.head_hash(), h(4));
    assert_eq!(chain.macro_head_hash(), h(4));
    assert!(chain.main_chain().on_main_chain);
    assert_eq!(chain.state.accounts.hash(), accounts_hash);
    assert_eq!(chain.notifier.len(), events);
    assert_eq!(chain.log_notifier.len(), logs);
    assert_eq!(chain.chain_store.infos.len(), stored);
    assert!(chain.get_block(&h(56)).is_none());
    assert!(chain.get_block(&h(57)).is_none());
    assert_eq!(chain.push(micro(5, h(5), h(4), plain_root(), vec![])), Ok(PushResult::Extended));
    assert_eq!(chain.chain_store.receipts.len(), 1);
}

#[test]
fn height_that_does_not_follow_the_parent_is_no_orphan() {
    let mut chain = long_batches();
    for (number, hash, parent) in [(1, 1, 100), (2, 2, 1), (3, 3, 2)] {
        let block = micro(number, h(hash), h(parent), plain_root(), vec![]);
        assert_eq!(chain.push(block), Ok(PushResult::Extended));
    }
    let stored = chain.chain_store.infos.len();
    // on the head, but two above it: the branch does not hang one above the main chain
    assert_eq!(
        chain.push(micro(5, h(50), h(3), plain_root(), vec![])),
        Err(PushError::InvalidFork)
    );
    assert!(chain.get_block(&h(50)).is_none());
    // on a block of the main chain, at a height that does not follow it, below the head
    assert_eq!(chain.push(micro(2, h(60), h(100), plain_root(), vec![])), Ok(PushResult::Forked));
    assert!(!chain.chain_store.get_chain_info(&h(60)).unwrap().on_main_chain);
    // its branch never becomes the main chain
    assert_eq!(chain.push(micro(3, h(61), h(60), plain_root(), vec![])), Ok(PushResult::Ignored));
    assert_eq!(
        chain.push(micro(4, h(62), h(61), plain_root(), vec![])),
        Err(PushError::InvalidFork)
    );
    assert!(chain.get_block(&h(60)).is_none());
    assert!(chain.get_block(&h(61)).is_none());
    assert!(chain.get_block(&h(62)).is_none());
    assert_eq!(chain.chain_store.infos.len(), stored);
    assert_eq!(chain.head_hash(), h(3));
    // a rule that the block breaks comes before all that
    let mut bad = micro(9, h(70), h(3), plain_root(), vec![]);
    if let Block::Micro(inner) = &mut bad {
        inner.header.version = 2;
    }
    assert_eq!(chain.push(bad), Err(PushError::InvalidBlock(BlockError::UnsupportedVersion)));
    assert_eq!(chain.push(micro(4, h(4), h(3), plain_root(), vec![])), Ok(PushResult::Extended));
}

#[test]
fn history_root_must_follow_from_the_parent() {
    let mut chain = new_chain();
    let txs = vec![transfer(900, 1, 3, 100, 1)];
    let root = root_after(&chain.state.accounts, &txs);
    let mut block = micro(1, h(1), h(100), root, txs.clone());
    if let Block::Micro(inner) = &mut block {
        inner.header.history_root = h(0);
    }
    assert_eq!(
        chain.push(block),
        Err(PushError::InvalidBlock(BlockError::InvalidHistoryRoot))
    );
    assert_eq!(chain.head_hash(), h(100));
    assert_eq!(chain.state.accounts.balance(1), 1_000);
    assert!(chain.chain_store.receipts.is_empty());
    // a block without transactions must leave the history root as it is
    let mut empty = micro(1, h(1), h(100), plain_root(), vec![]);
    if let Block::Micro(inner) = &mut empty {
        inner.header.history_root = h(1);
    }
    assert_eq!(
        chain.push(empty),
        Err(PushError::InvalidBlock(BlockError::InvalidHistoryRoot))
    );
    // a wrong state root is found first
    let mut both = micro(1, h(1), h(100), plain_root(), txs.clone());
    if let Block::Micro(inner) = &mut both {
        inner.header.history_root = h(0);
    }
    assert_eq!(
        chain.push(both),
        Err(PushError::InvalidBlock(BlockError::AccountsHashMismatch))
    );
    let good = micro(1, h(1), h(100), root, txs.clone());
    assert_eq!(good.header().history_root, history_root(&h(0), &txs));
    assert_eq!(chain.push(good), Ok(PushResult::Extended));
    // the next block goes on from the history of this one
    let next = micro(2, h(2), h(1), root, vec![]);
    assert_eq!(
        chain.push(next),
        Err(PushError::InvalidBlock(BlockError::InvalidHistoryRoot))
    );
    let mut next = micro(2, h(2), h(1), root, vec![]);
    if let Block::Micro(inner) = &mut next {
        inner.header.history_root = history_root(&h(0), &txs);
    }
    assert_eq!(chain.push(next), Ok(PushResult::Extended));
}

#[test]
fn replay_and_accounts_error_leave_the_transaction_untouched() {
    let mut chain = new_chain();
    let txs = vec![transfer(900, 1, 3, 100, 1)];
    let root = root_after(&chain.state.accounts, &txs);
    assert_eq!(chain.push(micro(1, h(1), h(100), root, txs.clone())), Ok(PushResult::Extended));
    let mut txn = chain.write_transaction();
    let accounts = txn.accounts.balances.clone();
    let receipts = txn.receipts.clone();
    assert_eq!(receipts.len(), 1);
    let replay = micro(2, h(2), h(1), root, txs);
    assert_eq!(chain.check_and_commit(&replay, &mut txn), Err(PushError::DuplicateTransaction));
    assert_eq!(txn.accounts.balances, accounts);
    assert_eq!(txn.receipts, receipts);
    let poor = micro(2, h(2), h(1), root, vec![transfer(901, 9, 3, 1, 0)]);
    assert_eq!(
        chain.check_and_commit(&poor, &mut txn),
        Err(PushError::AccountsError(AccountError::InsufficientFunds))
    );
    assert_eq!(txn.accounts.balances, accounts);
    assert_eq!(txn.receipts, receipts);
    assert_eq!(
        chain.commit_accounts(&poor, &mut txn),
        Err(PushError::AccountsError(AccountError::InsufficientFunds))
    );
    assert_eq!(txn.receipts, receipts);
    // a macro block never repeats a transaction, and drops the receipts when it commits
    let closing = macro_block(2, h(2), h(1), root, None);
    let mut closing = closing;
    if let Block::Macro(inner) = &mut closing {
        inner.header.history_root = history_root(&h(0), &vec![transfer(900, 1, 3, 100, 1)]);
    }
    assert!(chain.check_and_commit(&closing, &mut txn).is_ok());
    assert!(txn.receipts.is_empty());
    assert_eq!(chain.chain_store.receipts.len(), 1);
}

#[test]
fn election_block_rotates_validators_and_prunes() {
    let mut chain = chain_at_macro();
    for number in 5..8u32 {
        let block = micro(number, h(number as u64), h(number as u64 - 1), plain_root(), vec![]);
        assert_eq!(chain.push(block), Ok(PushResult::Extended));
    }
    // The election block rewards the validator of the epoch that ends.
    let mut accounts = chain.state.accounts.clone();
    let election = macro_block(8, h(8), h(7), plain_root(), Some(vec![8, 9]));
    let inherents = create_inherents(&policy(), &election, 0, &vec![VALIDATOR], &seed(1_007).entropy);
    assert_eq!(inherents.len(), 1);
    accounts.commit(&vec![], &inherents).unwrap();
    let mut wrong = macro_block(8, h(8), h(7), accounts.hash(), Some(vec![8, 9]));
    if let Block::Macro(inner) = &mut wrong {
        inner.header.pk_tree_root = pk_tree_root(&vec![9, 8]);
    }
    assert_eq!(
        chain.push(wrong),
        Err(PushError::InvalidBlock(BlockError::InvalidPkTreeRoot))
    );
    assert_eq!(chain.head_hash(), h(7));
    assert_eq!(chain.current_validators(), &vec![VALIDATOR]);
    let election = macro_block(8, h(8), h(7), accounts.hash(), Some(vec![8, 9]));
    assert_eq!(chain.push(election), Ok(PushResult::Extended));
    assert_eq!(chain.notifier.last(), Some(&BlockchainEvent::EpochFinalized(h(8))));
    assert_eq!(chain.election_head_hash(), h(8));
    assert_eq!(chain.macro_head_hash(), h(8));
    assert_eq!(chain.current_validators(), &vec![8, 9]);
    assert_eq!(chain.state.previous_slots, vec![VALIDATOR]);
    assert_eq!(chain.state.accounts.balance(VALIDATOR), 5);
    // epoch 0, the genesis block, has left the store; epoch 1 is kept
    assert!(chain.get_block(&h(100)).is_none());
    assert!(chain.get_block(&h(1)).is_some());
    assert!(chain.get_block(&h(8)).is_some());
}

#[test]
fn transactions_are_committed_and_replay_is_refused() {
    let mut chain = new_chain();
    let txs = vec![transfer(900, 1, 3, 100, 1)];
    let root1 = root_after(&chain.state.accounts, &txs);
    assert_eq!(chain.push(micro(1, h(1), h(100), root1, txs.clone())), Ok(PushResult::Extended));
    assert_eq!(chain.state.accounts.balance(1), 899);
    assert_eq!(chain.state.accounts.balance(3), 100);
    assert_eq!(chain.state.accounts.hash(), root1);
    assert!(chain.contains_tx_in_validity_window(&h(900)));
    assert!(!chain.contains_tx_in_validity_window(&h(901)));
    // the same transaction in the next block
    let root2 = root_after(&chain.state.accounts, &txs);
    assert_eq!(
        chain.push(micro(2, h(2), h(1), root2, txs)),
        Err(PushError::DuplicateTransaction)
    );
    assert_eq!(chain.head_hash(), h(1));
    assert_eq!(chain.state.accounts.hash(), root1);
}

#[test]
fn wrong_state_root_is_refused_and_nothing_changes() {
    let mut chain = new_chain();
    let txs = vec![transfer(900, 1, 3, 100, 1)];
    let result = chain.push(micro(1, h(1), h(100), plain_root(), txs));
    assert_eq!(result, Err(PushError::InvalidBlock(BlockError::AccountsHashMismatch)));
    assert_eq!(chain.head_hash(), h(100));
    assert_eq!(chain.state.accounts.balance(1), 1_000);
    assert!(chain.get_block(&h(1)).is_none());
    assert!(chain.chain_store.receipts.is_empty());
}

#[test]
fn accounts_error_is_surfaced() {
    let mut chain = new_chain();
    let txs = vec![transfer(900, 2, 3, 600, 0)];
    let result = chain.push(micro(1, h(1), h(100), plain_root(), txs));
    assert_eq!(result, Err(PushError::AccountsError(AccountError::InsufficientFunds)));
    assert_eq!(chain.head_hash(), h(100));
}

#[test]
fn rebranch_reverts_and_commits_accounts() {
    let mut chain = new_chain();
    let genesis_root = chain.state.accounts.hash();
    let txs1 = vec![transfer(900, 1, 3, 100, 1)];
    let root1 = root_after(&chain.state.accounts, &txs1);
    assert_eq!(chain.push(micro(1, h(10), h(100), root1, txs1)), Ok(PushResult::Extended));
    // a sibling of the head with another transaction and an earlier digest
    let txs1x = vec![transfer(901, 2, 4, 50, 0)];
    let root1x = root_after(&genesis_accounts(), &txs1x);
    assert_eq!(chain.push(micro(1, h(9), h(100), root1x, txs1x)), Ok(PushResult::Rebranched));
    assert_eq!(chain.head_hash(), h(9));
    assert_eq!(chain.state.accounts.hash(), root1x);
    assert_eq!(chain.state.accounts.balance(1), 1_000);
    assert_eq!(chain.state.accounts.balance(3), 0);
    assert_eq!(chain.state.accounts.balance(4), 50);
    assert_ne!(root1x, genesis_root);
    // and back onto the first chain, which grows by a block
    let txs2 = vec![transfer(902, 3, 1, 10, 0)];
    let mut first = genesis_accounts();
    first.commit(&vec![transfer(900, 1, 3, 100, 1)], &vec![]).unwrap();
    let root2 = root_after(&first, &txs2);
    let mut back = micro(2, h(12), h(10), root2, txs2.clone());
    if let Block::Micro(inner) = &mut back {
        let before = history_root(&h(0), &vec![transfer(900, 1, 3, 100, 1)]);
        inner.header.history_root = history_root(&before, &txs2);
    }
    assert_eq!(chain.push(back), Ok(PushResult::Rebranched));
    assert_eq!(chain.head_hash(), h(12));
    assert_eq!(chain.state.accounts.hash(), root2);
    assert_eq!(chain.state.accounts.balance(1), 909);
    assert_eq!(chain.state.accounts.balance(3), 90);
    assert_eq!(chain.state.accounts.balance(4), 0);
}

#[test]
fn invalid_fork_is_expunged() {
    let mut chain = chain_of_two();
    assert_eq!(chain.push(micro(1, h(11), h(100), plain_root(), vec![])), Ok(PushResult::Forked));
    // the branch continues with a block whose state root is wrong
    let bad = micro(2, h(21), h(11), h(12345), vec![]);
    assert_eq!(chain.push(bad), Ok(PushResult::Ignored));
    let events = chain.notifier.len();
    let accounts_hash = chain.state.accounts.hash();
    assert_eq!(
        chain.push(micro(3, h(31), h(21), plain_root(), vec![])),
        Err(PushError::InvalidFork)
    );
    assert_eq!(chain.head_hash(), h(20));
    assert_eq!(chain.state.accounts.hash(), accounts_hash);
    assert_eq!(chain.notifier.len(), events);
    // the refused block and the one above it are gone, the one below stays
    assert!(chain.get_block(&h(21)).is_none());
    assert!(chain.get_block(&h(31)).is_none());
    assert!(chain.get_block(&h(11)).is_some());
    assert!(chain.main_chain().on_main_chain);
    assert!(chain.chain_store.get_chain_info(&h(1)).unwrap().on_main_chain);
}

#[test]
fn trusted_push_skips_signature_checks() {
    let mut chain = new_chain();
    let mut block = micro(1, h(1), h(100), plain_root(), vec![]);
    if let Block::Micro(inner) = &mut block {
        inner.justification = Some(MicroJustification::Micro(Signature { signer: 99 }));
        inner.header.seed.signer = 98;
    }
    assert_eq!(
        chain.push(block.clone()),
        Err(PushError::InvalidBlock(BlockError::InvalidSeed))
    );
    assert_eq!(chain.trusted_push(block), Ok(PushResult::Extended));
}

#[test]
fn head_number_never_decreases() {
    let mut chain = new_chain();
    let blocks = vec![
        micro(1, h(1), h(100), plain_root(), vec![]),
        micro(1, h(11), h(100), plain_root(), vec![]),
        micro(2, h(20), h(1), plain_root(), vec![]),
        micro(1, h(12), h(100), plain_root(), vec![]),
        micro(2, h(20), h(1), plain_root(), vec![]),
        micro(2, h(21), h(11), plain_root(), vec![]),
        micro(7, h(77), h(66), plain_root(), vec![]),
    ];
    let mut last = chain.block_number();
    for block in blocks {
        let _ = chain.push(block);
        assert!(chain.block_number() >= last);
        last = chain.block_number();
        assert_eq!(chain.state.accounts.hash(), chain.main_chain().head.state_root());
    }
    assert_eq!(last, 2);
}

#[test]
fn second_push_never_commits_twice() {
    let txs = vec![transfer(900, 1, 3, 100, 1)];
    let root = root_after(&genesis_accounts(), &txs);
    let block = micro(1, h(1), h(100), root, txs);
    let mut once = new_chain();
    assert_eq!(once.push(block.clone()), Ok(PushResult::Extended));
    let mut twice = new_chain();
    assert_eq!(twice.push(block.clone()), Ok(PushResult::Extended));
    assert_eq!(twice.trusted_push(block), Ok(PushResult::Known));
    assert_eq!(once.state.accounts.hash(), twice.state.accounts.hash());
    assert_eq!(twice.state.accounts.balance(3), 100);
}

#[test]
fn skip_block_needs_timeout_and_empty_body() {
    let mut chain = new_chain();
    let mut skip = micro(1, h(1), h(100), plain_root(), vec![]);
    if let Block::Micro(inner) = &mut skip {
        inner.justification = Some(MicroJustification::Skip(SkipBlockProof { votes: 3 }));
    }
    assert_eq!(
        chain.push(skip.clone()),
        Err(PushError::InvalidBlock(BlockError::InvalidSkipBlockTimestamp))
    );
    if let Block::Micro(inner) = &mut skip {
        inner.header.timestamp = 500;
        inner.justification = Some(MicroJustification::Skip(SkipBlockProof { votes: 2 }));
    }
    assert_eq!(
        chain.push(skip.clone()),
        Err(PushError::InvalidBlock(BlockError::InvalidSkipBlockProof))
    );
    if let Block::Micro(inner) = &mut skip {
        inner.justification = Some(MicroJustification::Skip(SkipBlockProof { votes: 3 }));
    }
    assert!(skip.is_skip());
    assert_eq!(chain.push(skip), Ok(PushResult::Extended));
}

#[test]
fn genesis_must_fit_the_accounts() {
    assert!(Blockchain::new(policy(), genesis(), Accounts::new(), 0).is_none());
    let micro_genesis = micro(0, h(100), h(0), plain_root(), vec![]);
    assert!(Blockchain::new(policy(), micro_genesis, genesis_accounts(), 0).is_none());
    let mut broken = policy();
    broken.batch_length = 0;
    assert!(Blockchain::new(broken, genesis(), genesis_accounts(), 0).is_none());
    let chain = Blockchain::new(policy(), genesis(), genesis_accounts(), 0).unwrap();
    assert_eq!(chain.block_number(), 0);
    assert_eq!(chain.current_validators(), &vec![VALIDATOR]);
}

#[test]
fn without_validators_every_block_is_an_orphan() {
    let genesis = macro_block(0, h(100), h(0), plain_root(), Some(vec![]));
    let mut chain = Blockchain::new(policy(), genesis, genesis_accounts(), 0).unwrap();
    chain.set_time(1_000_000);
    assert_eq!(
        chain.push(micro(1, h(1), h(100), plain_root(), vec![])),
        Err(PushError::Orphan)
    );
}

fn long_batches() -> Blockchain {
    let mut policy = policy();
    policy.batch_length = 8;
    let mut chain = Blockchain::new(policy, genesis(), genesis_accounts(), 0).unwrap();
    chain.set_time(1_000_000);
    chain
}

#[test]
fn branch_that_lost_its_parent_is_an_invalid_fork() {
    let mut chain = long_batches();
    for (number, hash, parent) in [(1, 1, 100), (2, 2, 1), (3, 3, 2)] {
        let block = micro(number, h(hash), h(parent), plain_root(), vec![]);
        assert_eq!(chain.push(block), Ok(PushResult::Extended));
    }
    assert_eq!(chain.push(micro(1, h(11), h(100), plain_root(), vec![])), Ok(PushResult::Forked));
    // a block with a wrong state root, and two children of it at the height of the head
    assert_eq!(chain.push(micro(2, h(21), h(11), h(666), vec![])), Ok(PushResult::Forked));
    assert_eq!(chain.push(micro(3, h(31), h(21), plain_root(), vec![])), Ok(PushResult::Ignored));
    assert_eq!(chain.push(micro(3, h(32), h(21), plain_root(), vec![])), Ok(PushResult::Ignored));
    // the first child grows: its branch is refused from the wrong block on
    assert_eq!(
        chain.push(micro(4, h(41), h(31), plain_root(), vec![])),
        Err(PushError::InvalidFork)
    );
    assert!(chain.get_block(&h(11)).is_some());
    assert!(chain.get_block(&h(21)).is_none());
    assert!(chain.get_block(&h(31)).is_none());
    assert!(chain.get_block(&h(41)).is_none());
    // the second child is still there, but its parent is gone
    assert!(chain.get_block(&h(32)).is_some());
    assert_eq!(
        chain.push(micro(4, h(42), h(32), plain_root(), vec![])),
        Err(PushError::InvalidFork)
    );
    assert!(chain.get_block(&h(32)).is_none());
    assert!(chain.get_block(&h(42)).is_none());
    assert_eq!(chain.head_hash(), h(3));
    assert_eq!(chain.state.accounts.hash(), plain_root());
    // the main chain goes on
    assert_eq!(chain.push(micro(4, h(4), h(3), plain_root(), vec![])), Ok(PushResult::Extended));
}

#[test]
fn rebranch_onto_a_macro_block_moves_finality() {
    let mut chain = new_chain();
    for (number, hash, parent) in [(1, 1, 100), (2, 2, 1), (3, 3, 2)] {
        let block = micro(number, h(hash), h(parent), plain_root(), vec![]);
        assert_eq!(chain.push(block), Ok(PushResult::Extended));
    }
    assert_eq!(chain.chain_store.receipts.len(), 3);
    assert_eq!(chain.push(micro(1, h(11), h(100), plain_root(), vec![])), Ok(PushResult::Forked));
    assert_eq!(chain.push(micro(2, h(21), h(11), plain_root(), vec![])), Ok(PushResult::Forked));
    assert_eq!(chain.push(micro(3, h(31), h(21), plain_root(), vec![])), Ok(PushResult::Ignored));
    let tip = macro_block(4, h(41), h(31), plain_root(), None);
    assert_eq!(chain.push(tip), Ok(PushResult::Rebranched));
    assert_eq!(chain.head_hash(), h(41));
    assert_eq!(chain.macro_head_hash(), h(41));
    assert_eq!(chain.election_head_hash(), h(100));
    assert!(chain.chain_store.receipts.is_empty());
    match chain.notifier.last() {
        Some(BlockchainEvent::Rebranched(reverted, adopted)) => {
            assert_eq!(reverted.len(), 3);
            assert_eq!(adopted.len(), 4);
            assert_eq!(reverted[0].0, h(3));
            assert_eq!(adopted[3].0, h(41));
        }
        other => panic!("unexpected event {:?}", other),
    }
    // what lies at or below the macro block is final
    assert_eq!(chain.push(micro(4, h(4), h(3), plain_root(), vec![])), Ok(PushResult::Ignored));
    assert_eq!(chain.push(micro(5, h(5), h(41), plain_root(), vec![])), Ok(PushResult::Extended));
    assert!(chain.block_number() > chain.macro_info().head.block_number());
}

#[test]
fn view_changes_slash_the_proposer() {
    // the validator holds something to lose
    let mut accounts = genesis_accounts();
    accounts.set_balance(VALIDATOR, 25);
    let genesis = macro_block(0, h(100), h(0), accounts.hash(), Some(vec![VALIDATOR]));
    let mut chain = Blockchain::new(policy(), genesis, accounts.clone(), 0).unwrap();
    chain.set_time(1_000_000);
    let mut block = micro(1, h(1), h(100), plain_root(), vec![]);
    if let Block::Micro(inner) = &mut block {
        inner.header.view_number = 2;
    }
    let inherents = create_inherents(&policy(), &block, 0, &vec![VALIDATOR], &seed(1_100).entropy);
    assert_eq!(inherents.len(), 2);
    let receipts = accounts.commit(&vec![], &inherents).unwrap();
    assert_eq!(receipts.burned, vec![10, 10]);
    if let Block::Micro(inner) = &mut block {
        inner.header.state_root = accounts.hash();
    }
    assert_eq!(chain.push(block), Ok(PushResult::Extended));
    assert_eq!(chain.state.accounts.balance(VALIDATOR), 5);
    assert_eq!(chain.chain_store.get_receipts(1).unwrap().burned, vec![10, 10]);
    // the next block counts its views from those of its parent
    let mut next = micro(2, h(2), h(1), plain_root(), vec![]);
    if let Block::Micro(inner) = &mut next {
        inner.header.view_number = 3;
    }
    let inherents = create_inherents(&policy(), &next, 2, &vec![VALIDATOR], &seed(1_001).entropy);
    assert_eq!(inherents.len(), 1);
    let receipts = accounts.commit(&vec![], &inherents).unwrap();
    assert_eq!(receipts.burned, vec![5]);
    if let Block::Micro(inner) = &mut next {
        inner.header.state_root = accounts.hash();
    }
    assert_eq!(chain.push(next), Ok(PushResult::Extended));
    assert_eq!(chain.state.accounts.balance(VALIDATOR), 0);
}

#[test]
fn events_are_taken_once() {
    let mut chain = chain_of_two();
    assert_eq!(
        chain.take_events(),
        vec![BlockchainEvent::Extended(h(1)), BlockchainEvent::Extended(h(20))]
    );
    assert!(chain.take_events().is_empty());
    assert_eq!(chain.take_block_logs().len(), 2);
    assert!(chain.take_block_logs().is_empty());
    assert!(chain.take_fork_events().is_empty());
    assert_eq!(chain.head_hash(), h(20));
    let at_two = chain.get_blocks_at(2);
    assert_eq!(at_two.len(), 1);
    assert_eq!(at_two[0].hash(), h(20));
    assert!(chain.get_blocks_at(3).is_empty());
}

#[test]
fn check_block_gives_the_early_verdicts_and_changes_nothing() {
    let mut chain = chain_at_macro();
    let stored = chain.chain_store.infos.len();
    let below = micro(3, h(33), h(2), plain_root(), vec![]);
    assert_eq!(chain.check_block(&below, false), Some(Ok(PushResult::Ignored)));
    let orphan = micro(5, h(55), h(44), plain_root(), vec![]);
    assert_eq!(chain.check_block(&orphan, false), Some(Err(PushError::Orphan)));
    let mut unsigned = micro(5, h(5), h(4), plain_root(), vec![]);
    if let Block::Micro(inner) = &mut unsigned {
        inner.justification = None;
    }
    assert_eq!(
        chain.check_block(&unsigned, true),
        Some(Err(PushError::InvalidBlock(BlockError::NoJustification)))
    );
    // a block on a parent at another height is checked like any other
    let mut gap = micro(7, h(7), h(4), plain_root(), vec![]);
    if let Block::Micro(inner) = &mut gap {
        inner.header.seed.signer = 1;
    }
    assert_eq!(
        chain.check_block(&gap, false),
        Some(Err(PushError::InvalidBlock(BlockError::InvalidSeed)))
    );
    assert_eq!(chain.check_block(&gap, true), None);
    let good = micro(5, h(5), h(4), plain_root(), vec![]);
    assert_eq!(chain.check_block(&good, false), None);
    assert_eq!(chain.chain_store.infos.len(), stored);
    assert!(chain.fork_notifier.is_empty());
    assert_eq!(chain.push_checked(good.clone(), false), Ok(PushResult::Extended));
    assert_eq!(chain.check_block(&good, false), Some(Ok(PushResult::Known)));
}
