//! What a push gives.

use crate::accounts::AccountError;
use crate::block::BlockError;
use vstd::prelude::*;

verus! {

/// How a block that was accepted relates to the main chain.
#[derive(Clone, Copy, Debug, PartialEq, Eq, Structural)]
pub enum PushResult {
    /// The store had the block already.
    Known,
    /// The block is the new head; its parent was the head.
    Extended,
    /// The block is the new head; the main chain changed to its branch.
    Rebranched,
    /// The block was stored on a branch that is not the main chain.
    Forked,
    /// The block lies at or below the last macro block, or on a branch that is
    /// worse than the main chain.
    Ignored,
}

/// Why a block was refused.
#[derive(Clone, Copy, Debug, PartialEq, Eq, Structural)]
pub enum PushError {
    /// The parent is not known, or nobody is to propose the block.
    Orphan,
    /// The block breaks a rule.
    InvalidBlock(BlockError),
    /// A block of the branch cannot be applied to the accounts.
    InvalidFork,
    /// A transaction of the block is part of the main chain already.
    DuplicateTransaction,
    /// The accounts refuse the block.
    AccountsError(AccountError),
}

} // verus!
