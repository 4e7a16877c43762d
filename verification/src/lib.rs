//! Chain management for an Albatross-style proof-of-stake node: block
//! ingestion, main-chain selection, accounts commit and revert, and macro-block
//! finality, with every operation carrying a machine-checked contract.
//!
//! A [`blockchain::Blockchain`] holds the chain store, the accounts and the
//! heads. [`blockchain::Blockchain::push`] takes a block and extends the main
//! chain, changes it to a better branch, stores the block beside it, or
//! refuses the block. What a push does is stated over the chain as a
//! mathematical value, [`chain_view::ChainView`]; what holds of every chain
//! and of every push is proved in [`laws`].

pub mod accounts;
pub mod accounts_order;
pub mod bigint;
pub mod bits;
pub mod block;
pub mod blockchain;
pub mod chain_info;
pub mod chain_store;
pub mod chain_view;
pub mod commit;
pub mod error;
pub mod hash;
pub mod inherent;
pub mod laws;
pub mod network;
pub mod policy;
pub mod protocol;
pub mod push;
pub mod rebranch;
pub mod roots;
pub mod slots;
pub mod store_order;
pub mod transition;
pub mod upkeep;
pub mod verify;
