//! What the chain store keeps for each block.

use crate::block::Block;
use crate::hash::Blake2bHash;
use vstd::prelude::*;

verus! {

/// A block with its place relative to the main chain.
#[derive(Debug, PartialEq, Eq)]
pub struct ChainInfo {
    /// The block.
    pub head: Block,
    /// Whether the block is part of the main chain.
    pub on_main_chain: bool,
    /// The block that follows this one on the main chain, if there is one.
    pub main_chain_successor: Option<Blake2bHash>,
}

impl ChainInfo {
    /// The entry for a block that has just come in: it is not yet part of the
    /// main chain. The parent has been found; nothing of it is kept.
    pub fn from_block(block: Block, prev_info: &ChainInfo) -> (info: ChainInfo)
        ensures
            info == (ChainInfo { head: block, on_main_chain: false, main_chain_successor: None }),
    {
        ChainInfo { head: block, on_main_chain: false, main_chain_successor: None }
    }

    /// The entry for the first block of a chain.
    pub fn genesis(block: Block) -> (info: ChainInfo)
        ensures
            info == (ChainInfo { head: block, on_main_chain: true, main_chain_successor: None }),
    {
        ChainInfo { head: block, on_main_chain: true, main_chain_successor: None }
    }

    /// The same block with another place.
    pub open spec fn relinked(self, on_main_chain: bool, successor: Option<Blake2bHash>) -> ChainInfo {
        ChainInfo { head: self.head, on_main_chain, main_chain_successor: successor }
    }
}

} // verus!
