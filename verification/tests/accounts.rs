use albatross_chain::accounts::{AccountError, Accounts, Inherent, InherentType, Receipts};
use albatross_chain::block::Transaction;
use albatross_chain::hash::{blake2b, u64_from_be_bytes, Blake2bHash};

fn h(n: u64) -> Blake2bHash {
    Blake2bHash { w0: 0, w1: 0, w2: 0, w3: n }
}

fn transfer(sender: u64, recipient: u64, value: u64, fee: u64) -> Transaction {
    Transaction { hash: h(value), sender, recipient, value, fee, validity_start_height: 0 }
}

fn slash(target: u64, value: u64) -> Inherent {
    Inherent { ty: InherentType::Slash, target, value }
}

fn reward(target: u64, value: u64) -> Inherent {
    Inherent { ty: InherentType::Reward, target, value }
}

fn accounts(balances: &[(u64, u64)]) -> Accounts {
    let mut accounts = Accounts::new();
    for (address, balance) in balances {
        accounts.set_balance(*address, *balance);
    }
    accounts
}

#[test]
fn blake2b_of_nothing_is_the_known_digest() {
    // 0e5751c026e543b2 e8ab2eb06099daa1 d1e5df47778f7787 faab45cdf12fe3a8
    assert_eq!(
        blake2b(&[]),
        Blake2bHash {
            w0: 0x0e5751c026e543b2,
            w1: 0xe8ab2eb06099daa1,
            w2: 0xd1e5df47778f7787,
            w3: 0xfaab45cdf12fe3a8,
        }
    );
}

#[test]
fn blake2b_of_abc_is_the_known_digest() {
    // bddd813c63423972 3171ef3fee98579b 94964e3bb1cb3e42 7262c8c068d52319
    assert_eq!(
        blake2b(b"abc"),
        Blake2bHash {
            w0: 0xbddd813c63423972,
            w1: 0x3171ef3fee98579b,
            w2: 0x94964e3bb1cb3e42,
            w3: 0x7262c8c068d52319,
        }
    );
}

#[test]
fn digest_words_are_read_most_significant_byte_first() {
    let mut bytes = [0u8; 32];
    bytes[7] = 1;
    bytes[8] = 0xFF;
    bytes[31] = 9;
    let hash = Blake2bHash::from_bytes(&bytes);
    assert_eq!(hash, Blake2bHash { w0: 1, w1: 0xFF00_0000_0000_0000, w2: 0, w3: 9 });
    assert_eq!(u64_from_be_bytes(&[0, 0, 0, 0, 0, 0, 1, 2, 3], 1), 0x0000_0000_0001_0203);
    assert_eq!(Blake2bHash::zero(), h(0));
}

#[test]
fn digests_are_ordered_word_by_word() {
    assert!(h(1).precedes(&h(2)));
    assert!(!h(2).precedes(&h(1)));
    assert!(!h(2).precedes(&h(2)));
    let high = Blake2bHash { w0: 1, w1: 0, w2: 0, w3: 0 };
    let low = Blake2bHash { w0: 0, w1: u64::MAX, w2: u64::MAX, w3: u64::MAX };
    assert!(low.precedes(&high));
    assert!(!high.precedes(&low));
}

#[test]
fn root_of_no_accounts_is_the_digest_of_nothing() {
    assert_eq!(Accounts::new().hash(), blake2b(&[]));
}

#[test]
fn root_is_the_digest_of_the_accounts_in_order() {
    let mut bytes = vec![];
    bytes.extend_from_slice(&3u64.to_be_bytes());
    bytes.extend_from_slice(&70u64.to_be_bytes());
    bytes.extend_from_slice(&0x0102_0304_0506_0708u64.to_be_bytes());
    bytes.extend_from_slice(&u64::MAX.to_be_bytes());
    let one = accounts(&[(0x0102_0304_0506_0708, u64::MAX), (3, 70)]);
    let other = accounts(&[(3, 70), (9, 1), (0x0102_0304_0506_0708, u64::MAX), (9, 0)]);
    assert_eq!(one.hash(), blake2b(&bytes));
    assert_eq!(other.hash(), blake2b(&bytes));
    assert_eq!(one.get_root(), one.hash());
    assert_ne!(one.hash(), accounts(&[(3, 71)]).hash());
}

#[test]
fn commit_moves_value_and_burns_the_fee() {
    let mut ledger = accounts(&[(1, 100)]);
    let receipts = ledger.commit(&vec![transfer(1, 2, 30, 5)], &vec![]).unwrap();
    assert_eq!(receipts, Receipts { burned: vec![] });
    assert_eq!(ledger.balance(1), 65);
    assert_eq!(ledger.balance(2), 30);
    assert_eq!(ledger.balance(3), 0);
}

#[test]
fn commit_applies_inherents_after_transactions() {
    let mut ledger = accounts(&[(1, 100), (2, 4)]);
    let receipts = ledger
        .commit(
            &vec![transfer(1, 2, 1, 0)],
            &vec![slash(2, 10), reward(3, 7), slash(1, 10), slash(9, 10)],
        )
        .unwrap();
    assert_eq!(receipts.burned, vec![5, 0, 10, 0]);
    assert_eq!(ledger.balance(1), 89);
    assert_eq!(ledger.balance(2), 0);
    assert_eq!(ledger.balance(3), 7);
    assert!(!ledger.balances.contains_key(&2));
}

#[test]
fn revert_restores_the_accounts() {
    let start = accounts(&[(1, 100), (2, 4)]);
    let mut ledger = start.clone();
    let txs = vec![transfer(1, 2, 1, 0), transfer(2, 5, 5, 0), transfer(1, 1, 3, 2)];
    let inherents = vec![slash(2, 10), reward(3, 7), slash(1, 10)];
    let before = ledger.hash();
    let receipts = ledger.commit(&txs, &inherents).unwrap();
    assert_ne!(ledger.hash(), before);
    assert_eq!(ledger.revert(&txs, &inherents, &receipts), Ok(()));
    assert_eq!(ledger.hash(), before);
    assert_eq!(ledger.balances, start.balances);
}

#[test]
fn failed_commit_changes_nothing() {
    let mut ledger = accounts(&[(1, 100), (2, u64::MAX)]);
    let before = ledger.balances.clone();
    assert_eq!(
        ledger.commit(&vec![transfer(1, 3, 50, 0), transfer(1, 3, 50, 1)], &vec![]),
        Err(AccountError::InsufficientFunds)
    );
    assert_eq!(ledger.balances, before);
    assert_eq!(
        ledger.commit(&vec![transfer(1, 2, 1, 0)], &vec![]),
        Err(AccountError::BalanceOverflow)
    );
    assert_eq!(
        ledger.commit(&vec![transfer(1, 3, u64::MAX, 1)], &vec![]),
        Err(AccountError::InsufficientFunds)
    );
    assert_eq!(
        ledger.commit(&vec![], &vec![reward(2, 1)]),
        Err(AccountError::BalanceOverflow)
    );
    assert_eq!(ledger.balances, before);
}

#[test]
fn revert_checks_the_receipts() {
    let mut ledger = accounts(&[(1, 100)]);
    let before = ledger.balances.clone();
    let none = Receipts { burned: vec![] };
    assert_eq!(
        ledger.revert(&vec![], &vec![slash(1, 5)], &none),
        Err(AccountError::InvalidReceipt)
    );
    assert_eq!(
        ledger.revert(&vec![], &vec![slash(1, 5)], &Receipts { burned: vec![6] }),
        Err(AccountError::InvalidReceipt)
    );
    assert_eq!(
        ledger.revert(&vec![], &vec![reward(1, 5)], &Receipts { burned: vec![1] }),
        Err(AccountError::InvalidReceipt)
    );
    assert_eq!(
        ledger.revert(&vec![], &vec![reward(1, 500)], &Receipts { burned: vec![0] }),
        Err(AccountError::InsufficientFunds)
    );
    assert_eq!(
        ledger.revert(&vec![transfer(2, 1, 500, 0)], &vec![], &none),
        Err(AccountError::InsufficientFunds)
    );
    assert_eq!(ledger.balances, before);
    assert_eq!(ledger.revert(&vec![], &vec![slash(1, 5)], &Receipts { burned: vec![5] }), Ok(()));
    assert_eq!(ledger.balance(1), 105);
}
