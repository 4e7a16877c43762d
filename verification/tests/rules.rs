use albatross_chain::accounts::{Inherent, InherentType, Receipts};
use albatross_chain::block::{
    Block, BlockError, ForkProof, Header, MacroBlock, MacroBody, MacroJustification, MicroBlock,
    MicroBody, MicroJustification, Signature, SkipBlockProof, Transaction, TransactionError,
    VrfSeed,
};
use albatross_chain::chain_info::ChainInfo;
use albatross_chain::chain_store::ChainStore;
use albatross_chain::error::PushError;
use albatross_chain::hash::Blake2bHash;
use albatross_chain::inherent::{create_inherents, ViewChanges};
use albatross_chain::hash::blake2b;
use albatross_chain::policy::{Policy, MAX_EPOCHS_STORED};
use albatross_chain::roots::{history_root, pk_tree_root};
use albatross_chain::slots::get_proposer_at;
use albatross_chain::verify::{
    verify_block_body, verify_block_header, verify_block_justification,
};

fn h(n: u64) -> Blake2bHash {
    Blake2bHash { w0: 0, w1: 0, w2: 0, w3: n }
}

fn policy() -> Policy {
    Policy {
        batch_length: 4,
        batches_per_epoch: 2,
        version: 1,
        transaction_validity_window: 8,
        timestamp_max_drift: 1_000,
        block_producer_timeout: 500,
        two_f_plus_one: 3,
        slash_penalty: 10,
        epoch_reward: 5,
    }
}

fn header(number: u32, hash: u64) -> Header {
    Header {
        version: 1,
        block_number: number,
        view_number: 0,
        timestamp: 1_000,
        hash: h(hash),
        parent_hash: h(0),
        seed: VrfSeed { entropy: h(hash + 1_000), signer: 7 },
        state_root: h(0),
        body_root: h(5),
        history_root: h(0),
        pk_tree_root: h(0),
    }
}

fn micro(number: u32, hash: u64) -> MicroBlock {
    MicroBlock {
        header: header(number, hash),
        justification: Some(MicroJustification::Micro(Signature { signer: 7 })),
        body: Some(MicroBody { hash: h(5), fork_proofs: vec![], transactions: vec![] }),
    }
}

fn macro_block(number: u32, hash: u64) -> MacroBlock {
    MacroBlock {
        header: header(number, hash),
        justification: Some(MacroJustification { round: 0, votes: 3 }),
        body: Some(MacroBody { hash: h(5), validators: None }),
    }
}

fn tx(hash: u64) -> Transaction {
    Transaction {
        hash: h(hash),
        sender: 1,
        recipient: 2,
        value: 10,
        fee: 1,
        validity_start_height: 0,
    }
}

fn invalid(error: BlockError) -> Result<(), PushError> {
    Err(PushError::InvalidBlock(error))
}

fn check_header(block: &Block, now: u64, check: bool) -> Result<(), PushError> {
    let parent = Block::Micro(micro(block.block_number() - 1, 99));
    verify_block_header(&policy(), now, block, &parent, 7, check)
}

#[test]
fn policy_places_macro_and_election_blocks() {
    let policy = policy();
    assert_eq!(MAX_EPOCHS_STORED, 1);
    assert_eq!(policy.epoch_length(), 8);
    let expected = [(0, 0), (1, 0), (3, 0), (4, 4), (5, 4), (7, 4), (8, 8), (13, 12)];
    for (number, last) in expected {
        assert_eq!(policy.last_macro_block(number), last);
    }
    assert_eq!(policy.last_macro_block(u32::MAX), u32::MAX - 3);
    assert!(policy.is_macro_block_at(0));
    assert!(!policy.is_macro_block_at(3));
    assert!(policy.is_macro_block_at(4));
    assert!(policy.is_election_block_at(0));
    assert!(!policy.is_election_block_at(4));
    assert!(policy.is_election_block_at(8));
    assert_eq!(policy.epoch_at(0), 0);
    assert_eq!(policy.epoch_at(1), 1);
    assert_eq!(policy.epoch_at(8), 1);
    assert_eq!(policy.epoch_at(9), 2);
    assert_eq!(policy.epoch_at(16), 2);
    assert_eq!(policy.epoch_at(u32::MAX), 536_870_912);
    assert_eq!(policy.epoch_bounds(0), (0, 0));
    assert_eq!(policy.epoch_bounds(1), (1, 8));
    assert_eq!(policy.epoch_bounds(2), (9, 16));
    assert_eq!(policy.epoch_bounds(536_870_912), (4_294_967_289, u32::MAX));
    let (low, high) = policy.epoch_bounds(536_870_913);
    assert!(low > high);
}

#[test]
fn proposer_is_picked_by_entropy_height_and_offset() {
    let slots = vec![10, 11, 12];
    assert_eq!(get_proposer_at(&vec![], 1, 1, &h(0)), None);
    assert_eq!(get_proposer_at(&slots, 0, 0, &h(0)), Some(10));
    assert_eq!(get_proposer_at(&slots, 1, 1, &h(0)), Some(12));
    assert_eq!(get_proposer_at(&slots, 1, 1, &h(2)), Some(11));
    assert_eq!(get_proposer_at(&slots, u32::MAX, u32::MAX, &h(u64::MAX)), Some(10));
}

#[test]
fn inherents_reward_then_slash_views_then_forks() {
    let slots = vec![10, 11, 12];
    let mut block = micro(5, 1);
    block.header.view_number = 3;
    let proof = ForkProof {
        header1: header(4, 40),
        header2: header(4, 41),
        justification1: Signature { signer: 7 },
        justification2: Signature { signer: 7 },
        prev_vrf_seed: VrfSeed { entropy: h(0), signer: 7 },
    };
    block.body = Some(MicroBody { hash: h(5), fork_proofs: vec![proof], transactions: vec![] });
    let inherents = create_inherents(&policy(), &Block::Micro(block), 1, &slots, &h(0));
    let slash = |target| Inherent { ty: InherentType::Slash, target, value: 10 };
    // views 1 and 2 passed at height 5: slots (5 + 1) % 3 and (5 + 2) % 3
    assert_eq!(inherents, vec![slash(10), slash(11), slash(7)]);

    let mut election = macro_block(8, 2);
    election.header.view_number = 1;
    let inherents = create_inherents(&policy(), &Block::Macro(election), 0, &slots, &h(1));
    let reward = |target| Inherent { ty: InherentType::Reward, target, value: 5 };
    assert_eq!(inherents, vec![reward(10), reward(11), reward(12), slash(10)]);

    let plain = create_inherents(&policy(), &Block::Macro(macro_block(4, 3)), 0, &slots, &h(1));
    assert!(plain.is_empty());
    let backwards = ViewChanges::new(5, 3, 1);
    assert_eq!(backwards.first_view_number, 3);
    let mut late = micro(5, 1);
    late.header.view_number = 1;
    assert!(create_inherents(&policy(), &Block::Micro(late), 3, &slots, &h(0)).is_empty());
}

#[test]
fn header_rules() {
    let good = Block::Micro(micro(5, 1));
    assert_eq!(check_header(&good, 0, true), Ok(()));
    let mut block = micro(5, 1);
    block.header.version = 2;
    assert_eq!(check_header(&Block::Micro(block), 0, true), invalid(BlockError::UnsupportedVersion));
    let mut block = micro(5, 1);
    block.header.timestamp = 1_001;
    assert_eq!(check_header(&Block::Micro(block.clone()), 0, true), invalid(BlockError::FromTheFuture));
    assert_eq!(check_header(&Block::Micro(block), 1, true), Ok(()));
    assert_eq!(
        check_header(&Block::Micro(micro(4, 1)), 0, true),
        invalid(BlockError::InvalidJustification)
    );
    assert_eq!(
        check_header(&Block::Macro(macro_block(5, 1)), 0, true),
        invalid(BlockError::InvalidJustification)
    );
    assert_eq!(check_header(&Block::Macro(macro_block(4, 1)), 0, true), Ok(()));
    let mut block = micro(5, 1);
    block.header.seed.signer = 8;
    assert_eq!(check_header(&Block::Micro(block.clone()), 0, true), invalid(BlockError::InvalidSeed));
    assert_eq!(check_header(&Block::Micro(block), 0, false), Ok(()));
}

#[test]
fn justification_rules() {
    let policy = policy();
    let check = |block: &Block, check: bool| verify_block_justification(&policy, block, 7, check);
    assert_eq!(check(&Block::Micro(micro(5, 1)), true), Ok(()));
    let mut block = micro(5, 1);
    block.justification = None;
    assert_eq!(check(&Block::Micro(block), false), invalid(BlockError::NoJustification));
    let mut block = micro(5, 1);
    block.justification = Some(MicroJustification::Micro(Signature { signer: 8 }));
    assert_eq!(check(&Block::Micro(block.clone()), true), invalid(BlockError::InvalidJustification));
    assert_eq!(check(&Block::Micro(block), false), Ok(()));
    let mut block = macro_block(4, 1);
    block.justification = None;
    assert_eq!(check(&Block::Macro(block), false), invalid(BlockError::NoJustification));
    let mut block = macro_block(4, 1);
    block.justification = Some(MacroJustification { round: 0, votes: 2 });
    assert_eq!(check(&Block::Macro(block.clone()), true), invalid(BlockError::InvalidJustification));
    assert_eq!(check(&Block::Macro(block), false), Ok(()));
    let mut block = macro_block(4, 1);
    block.justification = Some(MacroJustification { round: 1, votes: 3 });
    assert_eq!(check(&Block::Macro(block), true), invalid(BlockError::InvalidJustification));
    assert_eq!(check(&Block::Macro(macro_block(4, 1)), true), Ok(()));
}

#[test]
fn body_rules_of_macro_blocks() {
    let policy = policy();
    let check = |block: MacroBlock| verify_block_body(&policy, &Block::Macro(block));
    assert_eq!(check(macro_block(4, 1)), Ok(()));
    let mut block = macro_block(4, 1);
    block.body = None;
    assert_eq!(check(block), invalid(BlockError::MissingBody));
    let mut block = macro_block(4, 1);
    block.header.body_root = h(6);
    assert_eq!(check(block), invalid(BlockError::BodyHashMismatch));
    let mut block = macro_block(4, 1);
    block.body = Some(MacroBody { hash: h(5), validators: Some(vec![1]) });
    assert_eq!(check(block), invalid(BlockError::InvalidValidators));
    assert_eq!(check(macro_block(8, 1)), invalid(BlockError::InvalidValidators));
    let mut block = macro_block(8, 1);
    block.body = Some(MacroBody { hash: h(5), validators: Some(vec![]) });
    assert_eq!(check(block), invalid(BlockError::InvalidValidators));
    let mut block = macro_block(8, 1);
    block.body = Some(MacroBody { hash: h(5), validators: Some(vec![1]) });
    assert_eq!(check(block), Ok(()));
}

fn with_body(fork_proofs: Vec<ForkProof>, transactions: Vec<Transaction>) -> Block {
    let mut block = micro(5, 1);
    block.body = Some(MicroBody { hash: h(5), fork_proofs, transactions });
    Block::Micro(block)
}

fn fork_proof(first: u64, second: u64) -> ForkProof {
    ForkProof {
        header1: header(4, first),
        header2: header(4, second),
        justification1: Signature { signer: 7 },
        justification2: Signature { signer: 7 },
        prev_vrf_seed: VrfSeed { entropy: h(0), signer: 7 },
    }
}

#[test]
fn body_rules_of_micro_blocks() {
    let policy = policy();
    let check = |block: &Block| verify_block_body(&policy, block);
    assert_eq!(check(&with_body(vec![], vec![])), Ok(()));
    let mut block = micro(5, 1);
    block.body = None;
    assert_eq!(check(&Block::Micro(block)), invalid(BlockError::MissingBody));
    let mut block = micro(5, 1);
    block.header.body_root = h(6);
    assert_eq!(check(&Block::Micro(block)), invalid(BlockError::BodyHashMismatch));

    assert_eq!(check(&with_body(vec![fork_proof(1, 2), fork_proof(3, 4)], vec![])), Ok(()));
    assert_eq!(
        check(&with_body(vec![fork_proof(1, 1)], vec![])),
        invalid(BlockError::InvalidForkProof)
    );
    let mut other_height = fork_proof(1, 2);
    other_height.header2.block_number = 3;
    assert_eq!(
        check(&with_body(vec![other_height], vec![])),
        invalid(BlockError::InvalidForkProof)
    );
    let mut other_signer = fork_proof(1, 2);
    other_signer.justification2.signer = 8;
    assert_eq!(
        check(&with_body(vec![other_signer], vec![])),
        invalid(BlockError::InvalidForkProof)
    );
    assert_eq!(
        check(&with_body(vec![fork_proof(1, 2), fork_proof(1, 3)], vec![])),
        invalid(BlockError::DuplicateForkProof)
    );
    assert_eq!(
        check(&with_body(vec![fork_proof(3, 4), fork_proof(1, 2)], vec![])),
        invalid(BlockError::ForkProofsNotOrdered)
    );

    assert_eq!(check(&with_body(vec![], vec![tx(1), tx(2)])), Ok(()));
    assert_eq!(
        check(&with_body(vec![], vec![tx(1), tx(2), tx(1)])),
        invalid(BlockError::DuplicateTransaction)
    );
    let mut zero = tx(1);
    zero.value = 0;
    assert_eq!(
        check(&with_body(vec![], vec![zero])),
        invalid(BlockError::InvalidTransaction(TransactionError::ZeroValue))
    );
    let mut huge = tx(1);
    huge.value = u64::MAX;
    assert_eq!(
        check(&with_body(vec![], vec![huge])),
        invalid(BlockError::InvalidTransaction(TransactionError::Overflow))
    );
    let mut own = tx(1);
    own.recipient = 1;
    assert_eq!(
        check(&with_body(vec![], vec![own])),
        invalid(BlockError::InvalidTransaction(TransactionError::SenderEqualsRecipient))
    );
    let mut early = tx(1);
    early.validity_start_height = 6;
    assert_eq!(check(&with_body(vec![], vec![early])), invalid(BlockError::ExpiredTransaction));
    // valid from height 0 on, for 8 blocks
    let mut far = micro(7, 1);
    far.body = Some(MicroBody { hash: h(5), fork_proofs: vec![], transactions: vec![tx(1)] });
    assert_eq!(check(&Block::Micro(far.clone())), Ok(()));
    far.header.block_number = 8;
    assert_eq!(check(&Block::Micro(far.clone())), invalid(BlockError::ExpiredTransaction));
    if let Some(body) = &mut far.body {
        body.transactions[0].validity_start_height = 1;
    }
    assert_eq!(check(&Block::Micro(far.clone())), Ok(()));
    far.header.block_number = 9;
    assert_eq!(check(&Block::Micro(far)), invalid(BlockError::ExpiredTransaction));
    // the first thing that is wrong is reported
    assert_eq!(
        check(&with_body(vec![fork_proof(1, 1)], vec![tx(1), tx(1)])),
        invalid(BlockError::InvalidForkProof)
    );
}

#[test]
fn skip_block_body_must_be_empty() {
    let policy = policy();
    let mut block = micro(5, 1);
    block.justification = Some(MicroJustification::Skip(SkipBlockProof { votes: 3 }));
    block.body = Some(MicroBody { hash: h(5), fork_proofs: vec![], transactions: vec![tx(1)] });
    assert_eq!(
        verify_block_body(&policy, &Block::Micro(block)),
        invalid(BlockError::InvalidSkipBlockBody)
    );
}

fn info(number: u32, hash: u64) -> ChainInfo {
    ChainInfo::genesis(Block::Micro(micro(number, hash)))
}

#[test]
fn store_keeps_entries_by_digest() {
    let mut store = ChainStore::new();
    assert!(store.get_chain_info(&h(1)).is_none());
    store.put_chain_info(&h(1), info(1, 1));
    store.put_chain_info(&h(3), info(2, 3));
    store.put_chain_info(&h(2), info(2, 2));
    assert_eq!(store.get_chain_info(&h(3)).unwrap().head.block_number(), 2);
    assert_eq!(store.hashes_in_range(2, 2), vec![h(2), h(3)]);
    assert_eq!(store.hashes_in_range(0, 9), vec![h(1), h(2), h(3)]);
    assert_eq!(store.hashes_in_range(3, 2), Vec::<Blake2bHash>::new());
    let blocks = store.get_blocks_at(2);
    assert_eq!(blocks, vec![Block::Micro(micro(2, 2)), Block::Micro(micro(2, 3))]);
    store.set_main_chain(&h(2), false, Some(h(9)));
    let changed = store.get_chain_info(&h(2)).unwrap();
    assert!(!changed.on_main_chain);
    assert_eq!(changed.main_chain_successor, Some(h(9)));
    assert_eq!(changed.head, Block::Micro(micro(2, 2)));
    store.remove_chain_info(&h(2));
    assert!(store.get_chain_info(&h(2)).is_none());
    assert_eq!(store.hashes_in_range(2, 2), vec![h(3)]);
    store.set_head(&h(3));
    assert_eq!(store.head, Some(h(3)));
}

#[test]
fn store_prunes_an_epoch() {
    let mut store = ChainStore::new();
    for number in 0..20u32 {
        store.put_chain_info(&h(number as u64), info(number, number as u64));
    }
    store.prune_epoch(&policy(), 1);
    assert_eq!(store.infos.len(), 12);
    assert!(store.get_chain_info(&h(0)).is_some());
    assert!(store.get_chain_info(&h(1)).is_none());
    assert!(store.get_chain_info(&h(8)).is_none());
    assert!(store.get_chain_info(&h(9)).is_some());
    store.prune_epoch(&policy(), 0);
    assert!(store.get_chain_info(&h(0)).is_none());
    assert_eq!(store.infos.len(), 11);
    store.remove_range(10, 18);
    assert_eq!(store.hashes_in_range(0, u32::MAX), vec![h(9), h(19)]);
}

#[test]
fn store_keeps_receipts_by_height() {
    let mut store = ChainStore::new();
    assert!(store.get_receipts(3).is_none());
    store.put_receipts(3, Receipts { burned: vec![1, 2] });
    store.put_receipts(4, Receipts { burned: vec![] });
    assert_eq!(store.get_receipts(3), Some(&Receipts { burned: vec![1, 2] }));
    store.clear_receipts();
    assert!(store.get_receipts(3).is_none());
    assert!(store.get_receipts(4).is_none());
}

#[test]
fn history_root_commits_to_the_parent_and_the_transactions() {
    let parent = Blake2bHash { w0: 1, w1: 2, w2: 3, w3: 4 };
    assert_eq!(history_root(&parent, &vec![]), parent);
    let mut bytes = vec![];
    for word in [1u64, 2, 3, 4] {
        bytes.extend_from_slice(&word.to_be_bytes());
    }
    for hash in [7u64, 9] {
        bytes.extend_from_slice(&[0u8; 24]);
        bytes.extend_from_slice(&hash.to_be_bytes());
    }
    assert_eq!(history_root(&parent, &vec![tx(7), tx(9)]), blake2b(&bytes));
    assert_ne!(history_root(&parent, &vec![tx(9), tx(7)]), blake2b(&bytes));
    assert_ne!(history_root(&h(0), &vec![tx(7), tx(9)]), blake2b(&bytes));
}

#[test]
fn pk_tree_root_commits_to_the_keys_in_order() {
    let mut bytes = vec![];
    bytes.extend_from_slice(&8u64.to_be_bytes());
    bytes.extend_from_slice(&0x0102_0304_0506_0708u64.to_be_bytes());
    assert_eq!(pk_tree_root(&vec![8, 0x0102_0304_0506_0708]), blake2b(&bytes));
    assert_ne!(pk_tree_root(&vec![0x0102_0304_0506_0708, 8]), blake2b(&bytes));
    assert_eq!(pk_tree_root(&vec![]), blake2b(&[]));
}
