//! The validators of an epoch and the proposer of each slot.

use crate::hash::Blake2bHash;
use vstd::prelude::*;

verus! {

/// The validator that proposes the block at `block_number` when the turn has
/// moved on by `offset`: the entropy of the parent's seed picks the slot.
/// None where there are no slots.
pub open spec fn proposer_at(
    slots: Seq<u64>,
    block_number: u32,
    offset: u32,
    entropy: Blake2bHash,
) -> Option<u64> {
    if slots.len() == 0 {
        None
    } else {
        Some(slots[(entropy.w3 + block_number + offset) % (slots.len() as int)])
    }
}

/// The validator that proposes the block at `block_number` when the turn has
/// moved on by `offset`.
pub fn get_proposer_at(
    slots: &Vec<u64>,
    block_number: u32,
    offset: u32,
    entropy: &Blake2bHash,
) -> (proposer: Option<u64>)
    ensures
        proposer == proposer_at(slots@, block_number, offset, *entropy),
{
    if slots.len() == 0 {
        None
    } else {
        let turn: u128 = entropy.w3 as u128 + block_number as u128 + offset as u128;
        let slot: u128 = turn % (slots.len() as u128);
        Some(slots[slot as usize])
    }
}

} // verus!
