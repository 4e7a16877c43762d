//! The accounts: a balance for each live account, changed by the transactions
//! and inherents of a block and restored by reverting them.

use crate::block::Transaction;
use crate::hash::{blake2b, blake2b_256, hash_of_bytes, Blake2bHash};
use std::collections::BTreeMap;
use vstd::prelude::*;
use vstd::std_specs::btree::*;
use vstd::std_specs::iter::IteratorSpec;
use crate::accounts_order::lemma_iteration_is_sorted;

verus! {

broadcast use {vstd::std_specs::btree::group_btree_axioms, vstd::laws_cmp::group_laws_cmp};

/// Why the accounts refuse a change.
#[derive(Clone, Copy, Debug, PartialEq, Eq, Structural)]
pub enum AccountError {
    /// An account would have to pay more than it holds.
    InsufficientFunds,
    /// An account would hold more than a balance can express.
    BalanceOverflow,
    /// The receipts do not fit the inherents that they belong to.
    InvalidReceipt,
}

/// The kinds of inherents.
#[derive(Clone, Copy, Debug, PartialEq, Eq, Structural)]
pub enum InherentType {
    /// Adds the value to the balance of the target.
    Reward,
    /// Burns the value, or the whole balance where that is less, of the target.
    Slash,
}

/// A change of the accounts that the chain derives from a block.
#[derive(Clone, Copy, Debug, PartialEq, Eq, Structural)]
pub struct Inherent {
    pub ty: InherentType,
    pub target: u64,
    pub value: u64,
}

/// What a commit leaves behind so that it can be reverted: for each inherent,
/// in their order, the amount that it burned.
#[derive(Clone, Debug, PartialEq, Eq)]
pub struct Receipts {
    pub burned: Vec<u64>,
}

/// The balances of the live accounts. An account is live while its balance is
/// not zero.
#[derive(Clone, Debug)]
pub struct Accounts {
    pub balances: BTreeMap<u64, u64>,
}

/// The balance of `address`; zero where the account is not live.
pub open spec fn balance_of(accounts: Map<u64, u64>, address: u64) -> u64 {
    if accounts.contains_key(address) {
        accounts[address]
    } else {
        0
    }
}

/// The accounts with the balance of `address` set to `balance`.
pub open spec fn with_balance(accounts: Map<u64, u64>, address: u64, balance: u64) -> Map<
    u64,
    u64,
> {
    if balance == 0 {
        accounts.remove(address)
    } else {
        accounts.insert(address, balance)
    }
}

/// Only live accounts are held.
pub open spec fn live(accounts: Map<u64, u64>) -> bool {
    forall|address: u64| accounts.contains_key(address) ==> accounts[address] > 0
}

/// The accounts after `tx`: the sender pays value and fee, the recipient
/// receives the value.
pub open spec fn apply_transaction(accounts: Map<u64, u64>, tx: Transaction) -> Result<
    Map<u64, u64>,
    AccountError,
> {
    let sender = balance_of(accounts, tx.sender);
    if sender < tx.value + tx.fee {
        Err(AccountError::InsufficientFunds)
    } else {
        let paid = with_balance(accounts, tx.sender, (sender - tx.value - tx.fee) as u64);
        let recipient = balance_of(paid, tx.recipient);
        if recipient + tx.value > u64::MAX {
            Err(AccountError::BalanceOverflow)
        } else {
            Ok(with_balance(paid, tx.recipient, (recipient + tx.value) as u64))
        }
    }
}

/// The accounts before `tx`, given the accounts after it.
pub open spec fn revert_transaction(accounts: Map<u64, u64>, tx: Transaction) -> Result<
    Map<u64, u64>,
    AccountError,
> {
    let recipient = balance_of(accounts, tx.recipient);
    if recipient < tx.value {
        Err(AccountError::InsufficientFunds)
    } else {
        let returned = with_balance(accounts, tx.recipient, (recipient - tx.value) as u64);
        let sender = balance_of(returned, tx.sender);
        if sender + tx.value + tx.fee > u64::MAX {
            Err(AccountError::BalanceOverflow)
        } else {
            Ok(with_balance(returned, tx.sender, (sender + tx.value + tx.fee) as u64))
        }
    }
}

/// The accounts after the transactions, applied in their order.
pub open spec fn apply_transactions(accounts: Map<u64, u64>, txs: Seq<Transaction>) -> Result<
    Map<u64, u64>,
    AccountError,
>
    decreases txs.len(),
{
    if txs.len() == 0 {
        Ok(accounts)
    } else {
        match apply_transactions(accounts, txs.drop_last()) {
            Ok(before) => apply_transaction(before, txs.last()),
            Err(e) => Err(e),
        }
    }
}

/// The accounts before the transactions, which are reverted last one first.
pub open spec fn revert_transactions(accounts: Map<u64, u64>, txs: Seq<Transaction>) -> Result<
    Map<u64, u64>,
    AccountError,
>
    decreases txs.len(),
{
    if txs.len() == 0 {
        Ok(accounts)
    } else {
        match revert_transaction(accounts, txs.last()) {
            Ok(before) => revert_transactions(before, txs.drop_last()),
            Err(e) => Err(e),
        }
    }
}

/// The accounts after `inherent`, and the amount that it burned.
pub open spec fn apply_inherent(accounts: Map<u64, u64>, inherent: Inherent) -> Result<
    (Map<u64, u64>, u64),
    AccountError,
> {
    let balance = balance_of(accounts, inherent.target);
    match inherent.ty {
        InherentType::Reward => if balance + inherent.value > u64::MAX {
            Err(AccountError::BalanceOverflow)
        } else {
            Ok((with_balance(accounts, inherent.target, (balance + inherent.value) as u64), 0))
        },
        InherentType::Slash => {
            let burned = if balance < inherent.value {
                balance
            } else {
                inherent.value
            };
            Ok((with_balance(accounts, inherent.target, (balance - burned) as u64), burned))
        },
    }
}

/// The accounts before `inherent`, given the accounts after it and the
/// amount that it burned.
pub open spec fn revert_inherent(accounts: Map<u64, u64>, inherent: Inherent, burned: u64) -> Result<
    Map<u64, u64>,
    AccountError,
> {
    let balance = balance_of(accounts, inherent.target);
    match inherent.ty {
        InherentType::Reward => if burned != 0 {
            Err(AccountError::InvalidReceipt)
        } else if balance < inherent.value {
            Err(AccountError::InsufficientFunds)
        } else {
            Ok(with_balance(accounts, inherent.target, (balance - inherent.value) as u64))
        },
        InherentType::Slash => if burned > inherent.value {
            Err(AccountError::InvalidReceipt)
        } else if balance + burned > u64::MAX {
            Err(AccountError::BalanceOverflow)
        } else {
            Ok(with_balance(accounts, inherent.target, (balance + burned) as u64))
        },
    }
}

/// The accounts after the inherents, applied in their order, and the amounts
/// that they burned.
pub open spec fn apply_inherents(accounts: Map<u64, u64>, inherents: Seq<Inherent>) -> Result<
    (Map<u64, u64>, Seq<u64>),
    AccountError,
>
    decreases inherents.len(),
{
    if inherents.len() == 0 {
        Ok((accounts, Seq::empty()))
    } else {
        match apply_inherents(accounts, inherents.drop_last()) {
            Ok(before) => match apply_inherent(before.0, inherents.last()) {
                Ok(after) => Ok((after.0, before.1.push(after.1))),
                Err(e) => Err(e),
            },
            Err(e) => Err(e),
        }
    }
}

/// The accounts before the inherents, which are reverted last one first.
pub open spec fn revert_inherents(
    accounts: Map<u64, u64>,
    inherents: Seq<Inherent>,
    burned: Seq<u64>,
) -> Result<Map<u64, u64>, AccountError>
    decreases inherents.len(),
{
    if inherents.len() != burned.len() {
        Err(AccountError::InvalidReceipt)
    } else if inherents.len() == 0 {
        Ok(accounts)
    } else {
        match revert_inherent(accounts, inherents.last(), burned.last()) {
            Ok(before) => revert_inherents(before, inherents.drop_last(), burned.drop_last()),
            Err(e) => Err(e),
        }
    }
}

/// What a commit gives: the accounts after the transactions and then the
/// inherents, with the receipts; or the first error, in which case nothing
/// changes.
pub open spec fn commit_result(
    accounts: Map<u64, u64>,
    txs: Seq<Transaction>,
    inherents: Seq<Inherent>,
) -> Result<(Map<u64, u64>, Seq<u64>), AccountError> {
    match apply_transactions(accounts, txs) {
        Ok(after) => apply_inherents(after, inherents),
        Err(e) => Err(e),
    }
}

/// What a revert gives: the accounts before the inherents and then the
/// transactions, or the first error.
pub open spec fn revert_result(
    accounts: Map<u64, u64>,
    txs: Seq<Transaction>,
    inherents: Seq<Inherent>,
    burned: Seq<u64>,
) -> Result<Map<u64, u64>, AccountError> {
    match revert_inherents(accounts, inherents, burned) {
        Ok(before) => revert_transactions(before, txs),
        Err(e) => Err(e),
    }
}

/// The eight bytes of `word`, most significant byte first.
pub open spec fn be_bytes_of_u64(word: u64) -> Seq<u8> {
    seq![
        (word / 0x100_0000_0000_0000) as u8,
        (word / 0x1_0000_0000_0000 % 256) as u8,
        (word / 0x100_0000_0000 % 256) as u8,
        (word / 0x1_0000_0000 % 256) as u8,
        (word / 0x100_0000 % 256) as u8,
        (word / 0x1_0000 % 256) as u8,
        (word / 0x100 % 256) as u8,
        (word % 256) as u8,
    ]
}

/// The bytes that stand for `entries`: for each account its address and then
/// its balance, sixteen bytes in all.
pub open spec fn encode_entries(entries: Seq<(u64, u64)>) -> Seq<u8>
    decreases entries.len(),
{
    if entries.len() == 0 {
        Seq::empty()
    } else {
        encode_entries(entries.drop_last()) + be_bytes_of_u64(entries.last().0) + be_bytes_of_u64(
            entries.last().1,
        )
    }
}

/// `entries` lists the accounts with their balances in the order of the
/// addresses.
pub open spec fn is_sorted_entries(entries: Seq<(u64, u64)>, accounts: Map<u64, u64>) -> bool {
    &&& forall|i: int, j: int| 0 <= i < j < entries.len() ==> entries[i].0 < entries[j].0
    &&& forall|i: int|
        0 <= i < entries.len() ==> accounts.contains_key(#[trigger] entries[i].0) && accounts[entries[i].0]
            == entries[i].1
    &&& forall|address: u64| #[trigger]
        accounts.contains_key(address) ==> exists|i: int|
            0 <= i < entries.len() && #[trigger] entries[i].0 == address
}

/// The accounts with their balances, in the order of the addresses.
#[verifier::opaque]
pub open spec fn sorted_entries(accounts: Map<u64, u64>) -> Seq<(u64, u64)> {
    choose|entries: Seq<(u64, u64)>| is_sorted_entries(entries, accounts)
}

/// The commitment to the accounts: the Blake2b digest of the bytes that stand
/// for the accounts in the order of their addresses.
#[verifier::opaque]
pub open spec fn accounts_root(accounts: Map<u64, u64>) -> Blake2bHash {
    hash_of_bytes(blake2b_256(encode_entries(sorted_entries(accounts))))
}

/// There is one way only to list accounts in the order of their addresses.
pub proof fn lemma_sorted_entries_unique(
    a: Seq<(u64, u64)>,
    b: Seq<(u64, u64)>,
    accounts: Map<u64, u64>,
)
    requires
        is_sorted_entries(a, accounts),
        is_sorted_entries(b, accounts),
    ensures
        a == b,
{
    lemma_sorted_prefix(a, b, accounts, a.len());
    lemma_sorted_prefix(b, a, accounts, b.len());
    assert(a =~= b);
}

proof fn lemma_sorted_prefix(
    a: Seq<(u64, u64)>,
    b: Seq<(u64, u64)>,
    accounts: Map<u64, u64>,
    n: nat,
)
    requires
        is_sorted_entries(a, accounts),
        is_sorted_entries(b, accounts),
        n <= a.len(),
    ensures
        n <= b.len(),
        forall|i: int| 0 <= i < n ==> a[i] == b[i],
    decreases n,
{
    if n > 0 {
        lemma_sorted_prefix(a, b, accounts, (n - 1) as nat);
        let k = n - 1;
        // the address at `k` in `a` is held, so `b` lists it at some place `j`
        let address = a[k].0;
        assert(accounts.contains_key(address));
        let j = choose|j: int| 0 <= j < b.len() && #[trigger] b[j].0 == address;
        if j < k {
            assert(a[j] == b[j]);
        } else if j > k {
            // then `b` lists at `k` an address that `a` lists before `k`
            let other = b[k].0;
            assert(accounts.contains_key(other));
            let i = choose|i: int| 0 <= i < a.len() && #[trigger] a[i].0 == other;
            if i < k {
                assert(a[i] == b[i]);
            }
        }
        assert(a[k].0 == b[k].0);
    }
}

proof fn lemma_with_balance_back(accounts: Map<u64, u64>, address: u64, balance: u64)
    requires
        live(accounts),
    ensures
        live(with_balance(accounts, address, balance)),
        balance_of(with_balance(accounts, address, balance), address) == balance,
        with_balance(
            with_balance(accounts, address, balance),
            address,
            balance_of(accounts, address),
        ) == accounts,
{
    assert(with_balance(
        with_balance(accounts, address, balance),
        address,
        balance_of(accounts, address),
    ) =~= accounts);
}

/// Applying a transaction keeps only live accounts, and reverting it gives
/// the accounts back.
pub proof fn lemma_transaction_round_trip(accounts: Map<u64, u64>, tx: Transaction)
    requires
        live(accounts),
        apply_transaction(accounts, tx) is Ok,
    ensures
        live(apply_transaction(accounts, tx)->Ok_0),
        revert_transaction(apply_transaction(accounts, tx)->Ok_0, tx) == Ok::<
            Map<u64, u64>,
            AccountError,
        >(accounts),
{
    let sender = balance_of(accounts, tx.sender);
    let rest = (sender - tx.value - tx.fee) as u64;
    let paid = with_balance(accounts, tx.sender, rest);
    lemma_with_balance_back(accounts, tx.sender, rest);
    let recipient = balance_of(paid, tx.recipient);
    lemma_with_balance_back(paid, tx.recipient, (recipient + tx.value) as u64);
}

/// Applying transactions keeps only live accounts, and reverting them gives
/// the accounts back.
pub proof fn lemma_transactions_round_trip(accounts: Map<u64, u64>, txs: Seq<Transaction>)
    requires
        live(accounts),
        apply_transactions(accounts, txs) is Ok,
    ensures
        live(apply_transactions(accounts, txs)->Ok_0),
        revert_transactions(apply_transactions(accounts, txs)->Ok_0, txs) == Ok::<
            Map<u64, u64>,
            AccountError,
        >(accounts),
    decreases txs.len(),
{
    if txs.len() > 0 {
        lemma_transactions_round_trip(accounts, txs.drop_last());
        let before = apply_transactions(accounts, txs.drop_last())->Ok_0;
        lemma_transaction_round_trip(before, txs.last());
    }
}

/// Applying an inherent keeps only live accounts, and reverting it with the
/// amount that it burned gives the accounts back.
pub proof fn lemma_inherent_round_trip(accounts: Map<u64, u64>, inherent: Inherent)
    requires
        live(accounts),
        apply_inherent(accounts, inherent) is Ok,
    ensures
        live(apply_inherent(accounts, inherent)->Ok_0.0),
        revert_inherent(
            apply_inherent(accounts, inherent)->Ok_0.0,
            inherent,
            apply_inherent(accounts, inherent)->Ok_0.1,
        ) == Ok::<Map<u64, u64>, AccountError>(accounts),
{
    let balance = balance_of(accounts, inherent.target);
    let after = apply_inherent(accounts, inherent)->Ok_0;
    lemma_with_balance_back(accounts, inherent.target, balance_of(after.0, inherent.target));
    assert(after.0 =~= with_balance(
        accounts,
        inherent.target,
        balance_of(after.0, inherent.target),
    ));
}

/// Applying inherents keeps only live accounts and gives one receipt for
/// each, and reverting them with the receipts gives the accounts back.
pub proof fn lemma_inherents_round_trip(accounts: Map<u64, u64>, inherents: Seq<Inherent>)
    requires
        live(accounts),
        apply_inherents(accounts, inherents) is Ok,
    ensures
        live(apply_inherents(accounts, inherents)->Ok_0.0),
        apply_inherents(accounts, inherents)->Ok_0.1.len() == inherents.len(),
        revert_inherents(
            apply_inherents(accounts, inherents)->Ok_0.0,
            inherents,
            apply_inherents(accounts, inherents)->Ok_0.1,
        ) == Ok::<Map<u64, u64>, AccountError>(accounts),
    decreases inherents.len(),
{
    if inherents.len() > 0 {
        lemma_inherents_round_trip(accounts, inherents.drop_last());
        let before = apply_inherents(accounts, inherents.drop_last())->Ok_0;
        lemma_inherent_round_trip(before.0, inherents.last());
        let after = apply_inherent(before.0, inherents.last())->Ok_0;
        assert(before.1.push(after.1).drop_last() =~= before.1);
    }
}

/// A commit keeps only live accounts, and the revert of the same
/// transactions and inherents with the receipts of the commit gives the
/// accounts back as they were.
pub proof fn lemma_commit_revert_round_trip(
    accounts: Map<u64, u64>,
    txs: Seq<Transaction>,
    inherents: Seq<Inherent>,
)
    requires
        live(accounts),
        commit_result(accounts, txs, inherents) is Ok,
    ensures
        live(commit_result(accounts, txs, inherents)->Ok_0.0),
        revert_result(
            commit_result(accounts, txs, inherents)->Ok_0.0,
            txs,
            inherents,
            commit_result(accounts, txs, inherents)->Ok_0.1,
        ) == Ok::<Map<u64, u64>, AccountError>(accounts),
{
    lemma_transactions_round_trip(accounts, txs);
    let after = apply_transactions(accounts, txs)->Ok_0;
    lemma_inherents_round_trip(after, inherents);
}

impl View for Accounts {
    type V = Map<u64, u64>;

    open spec fn view(&self) -> Map<u64, u64> {
        self.balances@
    }
}

/// Adds to `out` the eight bytes of `word`, most significant byte first.
pub fn push_u64_be(out: &mut Vec<u8>, word: u64)
    ensures
        final(out)@ == old(out)@ + be_bytes_of_u64(word),
{
    proof {
        assert((word >> 56) == word / 0x100_0000_0000_0000 && ((word >> 48) & 0xff) == word
            / 0x1_0000_0000_0000 % 256 && ((word >> 40) & 0xff) == word / 0x100_0000_0000 % 256 && (
        (word >> 32) & 0xff) == word / 0x1_0000_0000 % 256 && ((word >> 24) & 0xff) == word
            / 0x100_0000 % 256 && ((word >> 16) & 0xff) == word / 0x1_0000 % 256 && ((word >> 8)
            & 0xff) == word / 0x100 % 256 && (word & 0xff) == word % 256 && (word >> 56) < 256)
            by (bit_vector);
    }
    out.push((word >> 56) as u8);
    out.push(((word >> 48) & 0xff) as u8);
    out.push(((word >> 40) & 0xff) as u8);
    out.push(((word >> 32) & 0xff) as u8);
    out.push(((word >> 24) & 0xff) as u8);
    out.push(((word >> 16) & 0xff) as u8);
    out.push(((word >> 8) & 0xff) as u8);
    out.push((word & 0xff) as u8);
    assert(out@ =~= old(out)@ + be_bytes_of_u64(word));
}

impl Accounts {
    /// Only live accounts are held.
    pub open spec fn wf(self) -> bool {
        live(self@)
    }

    /// No accounts.
    pub fn new() -> (accounts: Accounts)
        ensures
            accounts@ == Map::<u64, u64>::empty(),
            accounts.wf(),
    {
        Accounts { balances: BTreeMap::new() }
    }

    /// The balance of `address`; zero where the account is not live.
    pub fn balance(&self, address: u64) -> (balance: u64)
        ensures
            balance == balance_of(self@, address),
    {
        match self.balances.get(&address) {
            Some(balance) => *balance,
            None => 0,
        }
    }

    /// Sets the balance of `address`. This is how the first accounts of a
    /// chain come to be.
    pub fn set_balance(&mut self, address: u64, balance: u64)
        requires
            old(self).wf(),
        ensures
            final(self)@ == with_balance(old(self)@, address, balance),
            final(self).wf(),
    {
        if balance == 0 {
            self.balances.remove(&address);
        } else {
            self.balances.insert(address, balance);
        }
        assert(self@ =~= with_balance(old(self)@, address, balance));
    }

    fn apply_one(&mut self, tx: &Transaction) -> (result: Result<(), AccountError>)
        requires
            old(self).wf(),
        ensures
            match result {
                Ok(_) => apply_transaction(old(self)@, *tx) == Ok::<Map<u64, u64>, AccountError>(
                    final(self)@,
                ),
                Err(e) => apply_transaction(old(self)@, *tx) == Err::<Map<u64, u64>, AccountError>(
                    e,
                ),
            },
            final(self).wf(),
    {
        let sender = self.balance(tx.sender);
        let total = match tx.value.checked_add(tx.fee) {
            Some(total) => total,
            None => { return Err(AccountError::InsufficientFunds); },
        };
        if sender < total {
            return Err(AccountError::InsufficientFunds);
        }
        let recipient = if tx.recipient == tx.sender {
            sender - total
        } else {
            self.balance(tx.recipient)
        };
        let credited = match recipient.checked_add(tx.value) {
            Some(credited) => credited,
            None => { return Err(AccountError::BalanceOverflow); },
        };
        self.set_balance(tx.sender, sender - total);
        self.set_balance(tx.recipient, credited);
        Ok(())
    }

    fn revert_one(&mut self, tx: &Transaction) -> (result: Result<(), AccountError>)
        requires
            old(self).wf(),
        ensures
            match result {
                Ok(_) => revert_transaction(old(self)@, *tx) == Ok::<Map<u64, u64>, AccountError>(
                    final(self)@,
                ),
                Err(e) => revert_transaction(old(self)@, *tx) == Err::<Map<u64, u64>, AccountError>(
                    e,
                ),
            },
            final(self).wf(),
    {
        let recipient = self.balance(tx.recipient);
        if recipient < tx.value {
            return Err(AccountError::InsufficientFunds);
        }
        let sender = if tx.sender == tx.recipient {
            recipient - tx.value
        } else {
            self.balance(tx.sender)
        };
        let restored = match sender.checked_add(tx.value) {
            Some(sum) => match sum.checked_add(tx.fee) {
                Some(restored) => restored,
                None => { return Err(AccountError::BalanceOverflow); },
            },
            None => { return Err(AccountError::BalanceOverflow); },
        };
        self.set_balance(tx.recipient, recipient - tx.value);
        self.set_balance(tx.sender, restored);
        Ok(())
    }

    fn apply_inherent_one(&mut self, inherent: &Inherent) -> (result: Result<u64, AccountError>)
        requires
            old(self).wf(),
        ensures
            match result {
                Ok(burned) => apply_inherent(old(self)@, *inherent) == Ok::<
                    (Map<u64, u64>, u64),
                    AccountError,
                >((final(self)@, burned)),
                Err(e) => apply_inherent(old(self)@, *inherent) == Err::<
                    (Map<u64, u64>, u64),
                    AccountError,
                >(e),
            },
            final(self).wf(),
    {
        let balance = self.balance(inherent.target);
        match inherent.ty {
            InherentType::Reward => match balance.checked_add(inherent.value) {
                Some(sum) => {
                    self.set_balance(inherent.target, sum);
                    Ok(0)
                },
                None => Err(AccountError::BalanceOverflow),
            },
            InherentType::Slash => {
                let burned = if balance < inherent.value {
                    balance
                } else {
                    inherent.value
                };
                self.set_balance(inherent.target, balance - burned);
                Ok(burned)
            },
        }
    }

    fn revert_inherent_one(&mut self, inherent: &Inherent, burned: u64) -> (result: Result<
        (),
        AccountError,
    >)
        requires
            old(self).wf(),
        ensures
            match result {
                Ok(_) => revert_inherent(old(self)@, *inherent, burned) == Ok::<
                    Map<u64, u64>,
                    AccountError,
                >(final(self)@),
                Err(e) => revert_inherent(old(self)@, *inherent, burned) == Err::<
                    Map<u64, u64>,
                    AccountError,
                >(e),
            },
            final(self).wf(),
    {
        let balance = self.balance(inherent.target);
        match inherent.ty {
            InherentType::Reward => {
                if burned != 0 {
                    return Err(AccountError::InvalidReceipt);
                }
                if balance < inherent.value {
                    return Err(AccountError::InsufficientFunds);
                }
                self.set_balance(inherent.target, balance - inherent.value);
                Ok(())
            },
            InherentType::Slash => {
                if burned > inherent.value {
                    return Err(AccountError::InvalidReceipt);
                }
                match balance.checked_add(burned) {
                    Some(sum) => {
                        self.set_balance(inherent.target, sum);
                        Ok(())
                    },
                    None => Err(AccountError::BalanceOverflow),
                }
            },
        }
    }

    /// Applies the transactions and then the inherents of a block, each in
    /// their order. Gives the receipts, or the first error; on an error the
    /// accounts stay as they were.
    pub fn commit(&mut self, transactions: &Vec<Transaction>, inherents: &Vec<Inherent>) -> (result:
        Result<Receipts, AccountError>)
        requires
            old(self).wf(),
        ensures
            match result {
                Ok(receipts) => commit_result(old(self)@, transactions@, inherents@) == Ok::<
                    (Map<u64, u64>, Seq<u64>),
                    AccountError,
                >((final(self)@, receipts.burned@)),
                Err(e) => commit_result(old(self)@, transactions@, inherents@) == Err::<
                    (Map<u64, u64>, Seq<u64>),
                    AccountError,
                >(e) && *final(self) == *old(self),
            },
            final(self).wf(),
    {
        let mut work = Accounts { balances: self.balances.clone() };
        let mut i: usize = 0;
        while i < transactions.len()
            invariant
                i <= transactions@.len(),
                work.wf(),
                apply_transactions(old(self)@, transactions@.take(i as int)) == Ok::<
                    Map<u64, u64>,
                    AccountError,
                >(work@),
                *self == *old(self),
                old(self).wf(),
            decreases transactions@.len() - i,
        {
            assert(transactions@.take(i + 1).drop_last() =~= transactions@.take(i as int));
            let step = work.apply_one(&transactions[i]);
            if let Err(e) = step {
                proof {
                    lemma_apply_transactions_fails(old(self)@, transactions@, i as int);
                }
                return Err(e);
            }
            i = i + 1;
        }
        assert(transactions@.take(i as int) =~= transactions@);
        let ghost after = work@;
        let mut burned: Vec<u64> = Vec::new();
        let mut j: usize = 0;
        while j < inherents.len()
            invariant
                j <= inherents@.len(),
                work.wf(),
                apply_transactions(old(self)@, transactions@) == Ok::<Map<u64, u64>, AccountError>(
                    after,
                ),
                apply_inherents(after, inherents@.take(j as int)) == Ok::<
                    (Map<u64, u64>, Seq<u64>),
                    AccountError,
                >((work@, burned@)),
                *self == *old(self),
                old(self).wf(),
            decreases inherents@.len() - j,
        {
            assert(inherents@.take(j + 1).drop_last() =~= inherents@.take(j as int));
            match work.apply_inherent_one(&inherents[j]) {
                Ok(amount) => {
                    burned.push(amount);
                },
                Err(e) => {
                    proof {
                        lemma_apply_inherents_fails(after, inherents@, j as int);
                    }
                    return Err(e);
                },
            }
            j = j + 1;
        }
        assert(inherents@.take(j as int) =~= inherents@);
        self.balances = work.balances;
        Ok(Receipts { burned })
    }

    /// Undoes a commit: reverts the inherents and then the transactions, each
    /// last one first. On an error the accounts stay as they were.
    pub fn revert(
        &mut self,
        transactions: &Vec<Transaction>,
        inherents: &Vec<Inherent>,
        receipts: &Receipts,
    ) -> (result: Result<(), AccountError>)
        requires
            old(self).wf(),
        ensures
            match result {
                Ok(_) => revert_result(
                    old(self)@,
                    transactions@,
                    inherents@,
                    receipts.burned@,
                ) == Ok::<Map<u64, u64>, AccountError>(final(self)@),
                Err(e) => revert_result(
                    old(self)@,
                    transactions@,
                    inherents@,
                    receipts.burned@,
                ) == Err::<Map<u64, u64>, AccountError>(e) && *final(self) == *old(self),
            },
            final(self).wf(),
    {
        if inherents.len() != receipts.burned.len() {
            return Err(AccountError::InvalidReceipt);
        }
        let mut work = Accounts { balances: self.balances.clone() };
        let mut j: usize = inherents.len();
        assert(inherents@.take(j as int) =~= inherents@);
        assert(receipts.burned@.take(j as int) =~= receipts.burned@);
        while j > 0
            invariant
                j <= inherents@.len(),
                inherents@.len() == receipts.burned@.len(),
                work.wf(),
                revert_inherents(old(self)@, inherents@, receipts.burned@) == revert_inherents(
                    work@,
                    inherents@.take(j as int),
                    receipts.burned@.take(j as int),
                ),
                *self == *old(self),
                old(self).wf(),
            decreases j,
        {
            assert(inherents@.take(j as int).drop_last() =~= inherents@.take(j - 1));
            assert(receipts.burned@.take(j as int).drop_last() =~= receipts.burned@.take(j - 1));
            j = j - 1;
            if let Err(e) = work.revert_inherent_one(&inherents[j], receipts.burned[j]) {
                return Err(e);
            }
        }
        let mut i: usize = transactions.len();
        let ghost before = work@;
        assert(transactions@.take(i as int) =~= transactions@);
        while i > 0
            invariant
                i <= transactions@.len(),
                work.wf(),
                revert_inherents(old(self)@, inherents@, receipts.burned@) == Ok::<
                    Map<u64, u64>,
                    AccountError,
                >(before),
                revert_transactions(before, transactions@) == revert_transactions(
                    work@,
                    transactions@.take(i as int),
                ),
                *self == *old(self),
                old(self).wf(),
            decreases i,
        {
            assert(transactions@.take(i as int).drop_last() =~= transactions@.take(i - 1));
            i = i - 1;
            if let Err(e) = work.revert_one(&transactions[i]) {
                return Err(e);
            }
        }
        self.balances = work.balances;
        Ok(())
    }

    /// The commitment to the accounts.
    pub fn hash(&self) -> (root: Blake2bHash)
        ensures
            root == accounts_root(self@),
    {
        let mut bytes: Vec<u8> = Vec::new();
        let ghost mut entries: Seq<(u64, u64)> = Seq::empty();
        for kv in it: self.balances.iter()
            invariant
                it.seq() == spec_btree_map_iter(&self.balances).remaining(),
                increasing_seq(it.seq().map_values(|kv: (&u64, &u64)| *kv.0)),
                entries.len() == it.index(),
                forall|i: int|
                    0 <= i < entries.len() ==> entries[i].0 == *it.seq()[i].0 && entries[i].1
                        == *it.seq()[i].1,
                bytes@ == encode_entries(entries),
        {
            let ghost before = entries;
            proof {
                entries = entries.push((*kv.0, *kv.1));
                assert(entries.drop_last() =~= before);
            }
            push_u64_be(&mut bytes, *kv.0);
            push_u64_be(&mut bytes, *kv.1);
        }
        proof {
            reveal(sorted_entries);
            reveal(accounts_root);
            lemma_iteration_is_sorted(&self.balances, entries);
            lemma_sorted_entries_unique(entries, sorted_entries(self@), self@);
        }
        blake2b(bytes.as_slice())
    }

    /// The commitment to the accounts.
    pub fn get_root(&self) -> (root: Blake2bHash)
        ensures
            root == accounts_root(self@),
    {
        self.hash()
    }
}

proof fn lemma_apply_transactions_fails(accounts: Map<u64, u64>, txs: Seq<Transaction>, i: int)
    requires
        0 <= i < txs.len(),
        apply_transactions(accounts, txs.take(i + 1)) is Err,
    ensures
        apply_transactions(accounts, txs) == apply_transactions(accounts, txs.take(i + 1)),
    decreases txs.len(),
{
    if i + 1 < txs.len() {
        assert(txs.drop_last().take(i + 1) =~= txs.take(i + 1));
        lemma_apply_transactions_fails(accounts, txs.drop_last(), i);
    } else {
        assert(txs.take(i + 1) =~= txs);
    }
}

proof fn lemma_apply_inherents_fails(accounts: Map<u64, u64>, inherents: Seq<Inherent>, j: int)
    requires
        0 <= j < inherents.len(),
        apply_inherents(accounts, inherents.take(j + 1)) is Err,
    ensures
        apply_inherents(accounts, inherents) == apply_inherents(accounts, inherents.take(j + 1)),
    decreases inherents.len(),
{
    if j + 1 < inherents.len() {
        assert(inherents.drop_last().take(j + 1) =~= inherents.take(j + 1));
        lemma_apply_inherents_fails(accounts, inherents.drop_last(), j);
    } else {
        assert(inherents.take(j + 1) =~= inherents);
    }
}

} // verus!
