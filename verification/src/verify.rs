//! The rules that a block must keep, given its parent and its proposer.

use crate::block::{
    Block, BlockError, ForkProof, MacroBlock, MicroBlock, MicroJustification, Transaction,
    TransactionError,
};
use crate::error::PushError;
use crate::policy::Policy;
use vstd::prelude::*;

verus! {

/// What is wrong with the header of `block`, if anything. The version must be
/// that of the network; the timestamp may lie ahead of `now` by the allowed
/// drift at most; a macro block stands at the heights of macro blocks and
/// nowhere else; a skip block comes when the time of the proposer is up; and,
/// unless the source is trusted, the seed of a block that is no skip block
/// verifies under the key of the proposer.
pub open spec fn header_error(
    policy: Policy,
    now: u64,
    block: Block,
    parent: Block,
    proposer: u64,
    check_signatures: bool,
) -> Option<BlockError> {
    let header = block.spec_header();
    if header.version != policy.version {
        Some(BlockError::UnsupportedVersion)
    } else if header.timestamp > now + policy.timestamp_max_drift {
        Some(BlockError::FromTheFuture)
    } else if block.spec_is_macro() != policy.spec_is_macro_block_at(header.block_number) {
        Some(BlockError::InvalidJustification)
    } else if block.spec_is_skip() && header.timestamp != parent.spec_header().timestamp
        + policy.block_producer_timeout {
        Some(BlockError::InvalidSkipBlockTimestamp)
    } else if check_signatures && !block.spec_is_skip() && header.seed.signer != proposer {
        Some(BlockError::InvalidSeed)
    } else {
        None
    }
}

/// What is wrong with the justification of `block`, if anything. It must be
/// there; and, unless the source is trusted, a macro block has enough votes
/// for its round, a micro block is signed by the proposer, and a skip block
/// has enough votes.
pub open spec fn justification_error(
    policy: Policy,
    block: Block,
    proposer: u64,
    check_signatures: bool,
) -> Option<BlockError> {
    match block {
        Block::Macro(MacroBlock { justification: None, .. }) => Some(BlockError::NoJustification),
        Block::Macro(MacroBlock { justification: Some(proof), header, .. }) => if check_signatures
            && (proof.round != header.view_number || proof.votes < policy.two_f_plus_one) {
            Some(BlockError::InvalidJustification)
        } else {
            None
        },
        Block::Micro(MicroBlock { justification: None, .. }) => Some(BlockError::NoJustification),
        Block::Micro(
            MicroBlock { justification: Some(MicroJustification::Micro(signature)), .. },
        ) => if check_signatures && signature.signer != proposer {
            Some(BlockError::InvalidJustification)
        } else {
            None
        },
        Block::Micro(MicroBlock { justification: Some(MicroJustification::Skip(proof)), .. }) => if check_signatures
            && proof.votes < policy.two_f_plus_one {
            Some(BlockError::InvalidSkipBlockProof)
        } else {
            None
        },
    }
}

/// What is wrong with `tx` by itself, if anything.
pub open spec fn transaction_error(tx: Transaction) -> Option<TransactionError> {
    if tx.value == 0 {
        Some(TransactionError::ZeroValue)
    } else if tx.value + tx.fee > u64::MAX {
        Some(TransactionError::Overflow)
    } else if tx.sender == tx.recipient {
        Some(TransactionError::SenderEqualsRecipient)
    } else {
        None
    }
}

/// What is wrong with the transaction at `i`, if anything: it breaks a rule
/// by itself, it is not valid at the height of the block, or it comes a second
/// time.
pub open spec fn transaction_error_at(
    policy: Policy,
    block_number: u32,
    txs: Seq<Transaction>,
    i: int,
) -> Option<BlockError> {
    let tx = txs[i];
    if let Some(e) = transaction_error(tx) {
        Some(BlockError::InvalidTransaction(e))
    } else if !(tx.validity_start_height <= block_number < tx.validity_start_height
        + policy.transaction_validity_window) {
        Some(BlockError::ExpiredTransaction)
    } else if exists|j: int| 0 <= j < i && txs[j].hash == tx.hash {
        Some(BlockError::DuplicateTransaction)
    } else {
        None
    }
}

/// The first thing that is wrong with the first `n` transactions.
pub open spec fn transactions_error(
    policy: Policy,
    block_number: u32,
    txs: Seq<Transaction>,
    n: nat,
) -> Option<BlockError>
    decreases n,
{
    if n == 0 {
        None
    } else {
        match transactions_error(policy, block_number, txs, (n - 1) as nat) {
            Some(e) => Some(e),
            None => transaction_error_at(policy, block_number, txs, n - 1),
        }
    }
}

/// Whether `proof` shows two different blocks of one validator for one slot.
pub open spec fn fork_proof_valid(proof: ForkProof) -> bool {
    &&& proof.header1.block_number == proof.header2.block_number
    &&& proof.header1.view_number == proof.header2.view_number
    &&& proof.header1.hash != proof.header2.hash
    &&& proof.justification1.signer == proof.justification2.signer
}

/// What is wrong with the fork proof at `i`, if anything: it shows no fork, or
/// it does not come after the one before it in the order of the digests of the
/// first header.
pub open spec fn fork_proof_error_at(proofs: Seq<ForkProof>, i: int) -> Option<BlockError> {
    if !fork_proof_valid(proofs[i]) {
        Some(BlockError::InvalidForkProof)
    } else if i > 0 && proofs[i - 1].header1.hash == proofs[i].header1.hash {
        Some(BlockError::DuplicateForkProof)
    } else if i > 0 && !proofs[i - 1].header1.hash.lex_lt(proofs[i].header1.hash) {
        Some(BlockError::ForkProofsNotOrdered)
    } else {
        None
    }
}

/// The first thing that is wrong with the first `n` fork proofs.
pub open spec fn fork_proofs_error(proofs: Seq<ForkProof>, n: nat) -> Option<BlockError>
    decreases n,
{
    if n == 0 {
        None
    } else {
        match fork_proofs_error(proofs, (n - 1) as nat) {
            Some(e) => Some(e),
            None => fork_proof_error_at(proofs, n - 1),
        }
    }
}

/// What is wrong with the body of `block`, if anything. The body must be
/// there, with the digest that the header names. A macro block names the next
/// validators exactly where it is an election block. The body of a skip block
/// is empty; that of another micro block holds fork proofs and transactions
/// that keep their rules.
pub open spec fn body_error(policy: Policy, block: Block) -> Option<BlockError> {
    match block {
        Block::Macro(MacroBlock { body: None, .. }) => Some(BlockError::MissingBody),
        Block::Macro(MacroBlock { body: Some(body), header, .. }) => if body.hash
            != header.body_root {
            Some(BlockError::BodyHashMismatch)
        } else if policy.spec_is_election_block_at(header.block_number) != (
        body.validators matches Some(keys) && keys@.len() > 0) {
            Some(BlockError::InvalidValidators)
        } else {
            None
        },
        Block::Micro(MicroBlock { body: None, .. }) => Some(BlockError::MissingBody),
        Block::Micro(MicroBlock { body: Some(body), header, .. }) => if body.hash
            != header.body_root {
            Some(BlockError::BodyHashMismatch)
        } else if block.spec_is_skip() && (body.transactions@.len() > 0 || body.fork_proofs@.len()
            > 0) {
            Some(BlockError::InvalidSkipBlockBody)
        } else if let Some(e) = fork_proofs_error(body.fork_proofs@, body.fork_proofs@.len()) {
            Some(e)
        } else {
            transactions_error(
                policy,
                header.block_number,
                body.transactions@,
                body.transactions@.len(),
            )
        },
    }
}

/// The first thing that is wrong with `block`: its header, then its
/// justification, then its body.
pub open spec fn block_error(
    policy: Policy,
    now: u64,
    block: Block,
    parent: Block,
    proposer: u64,
    check_signatures: bool,
) -> Option<BlockError> {
    if let Some(e) = header_error(policy, now, block, parent, proposer, check_signatures) {
        Some(e)
    } else if let Some(e) = justification_error(policy, block, proposer, check_signatures) {
        Some(e)
    } else {
        body_error(policy, block)
    }
}

/// The outcome of a check.
pub open spec fn outcome(error: Option<BlockError>) -> Result<(), PushError> {
    match error {
        Some(e) => Err(PushError::InvalidBlock(e)),
        None => Ok(()),
    }
}

/// Checks the header of `block`.
pub fn verify_block_header(
    policy: &Policy,
    now: u64,
    block: &Block,
    parent: &Block,
    proposer: u64,
    check_signatures: bool,
) -> (result: Result<(), PushError>)
    requires
        policy.wf(),
    ensures
        result == outcome(header_error(*policy, now, *block, *parent, proposer, check_signatures)),
{
    let header = block.header();
    if header.version != policy.version {
        return Err(PushError::InvalidBlock(BlockError::UnsupportedVersion));
    }
    let latest = now as u128 + policy.timestamp_max_drift as u128;
    if header.timestamp as u128 > latest {
        return Err(PushError::InvalidBlock(BlockError::FromTheFuture));
    }
    if block.is_macro() != policy.is_macro_block_at(header.block_number) {
        return Err(PushError::InvalidBlock(BlockError::InvalidJustification));
    }
    if block.is_skip() {
        let due = parent.header().timestamp as u128 + policy.block_producer_timeout as u128;
        if header.timestamp as u128 != due {
            return Err(PushError::InvalidBlock(BlockError::InvalidSkipBlockTimestamp));
        }
    }
    if check_signatures && !block.is_skip() && header.seed.signer != proposer {
        return Err(PushError::InvalidBlock(BlockError::InvalidSeed));
    }
    Ok(())
}

/// Checks the justification of `block`.
pub fn verify_block_justification(
    policy: &Policy,
    block: &Block,
    proposer: u64,
    check_signatures: bool,
) -> (result: Result<(), PushError>)
    ensures
        result == outcome(justification_error(*policy, *block, proposer, check_signatures)),
{
    match block {
        Block::Macro(macro_block) => match macro_block.justification {
            None => Err(PushError::InvalidBlock(BlockError::NoJustification)),
            Some(proof) => {
                if check_signatures && (proof.round != macro_block.header.view_number || proof.votes
                    < policy.two_f_plus_one) {
                    Err(PushError::InvalidBlock(BlockError::InvalidJustification))
                } else {
                    Ok(())
                }
            },
        },
        Block::Micro(micro_block) => match micro_block.justification {
            None => Err(PushError::InvalidBlock(BlockError::NoJustification)),
            Some(MicroJustification::Micro(signature)) => {
                if check_signatures && signature.signer != proposer {
                    Err(PushError::InvalidBlock(BlockError::InvalidJustification))
                } else {
                    Ok(())
                }
            },
            Some(MicroJustification::Skip(proof)) => {
                if check_signatures && proof.votes < policy.two_f_plus_one {
                    Err(PushError::InvalidBlock(BlockError::InvalidSkipBlockProof))
                } else {
                    Ok(())
                }
            },
        },
    }
}

fn check_fork_proofs(proofs: &Vec<ForkProof>) -> (error: Option<BlockError>)
    ensures
        error == fork_proofs_error(proofs@, proofs@.len()),
{
    let mut i: usize = 0;
    while i < proofs.len()
        invariant
            i <= proofs@.len(),
            fork_proofs_error(proofs@, i as nat) is None,
        decreases proofs@.len() - i,
    {
        let proof = &proofs[i];
        let found = if !(proof.header1.block_number == proof.header2.block_number
            && proof.header1.view_number == proof.header2.view_number && proof.header1.hash
            != proof.header2.hash && proof.justification1.signer == proof.justification2.signer) {
            Some(BlockError::InvalidForkProof)
        } else if i > 0 && proofs[i - 1].header1.hash == proof.header1.hash {
            Some(BlockError::DuplicateForkProof)
        } else if i > 0 && !proofs[i - 1].header1.hash.precedes(&proof.header1.hash) {
            Some(BlockError::ForkProofsNotOrdered)
        } else {
            None
        };
        assert(found == fork_proof_error_at(proofs@, i as int));
        if found.is_some() {
            proof {
                lemma_fork_proofs_error_stays(proofs@, (i + 1) as nat, proofs@.len());
            }
            return found;
        }
        i = i + 1;
    }
    None
}

fn check_transactions(policy: &Policy, block_number: u32, txs: &Vec<Transaction>) -> (error: Option<
    BlockError,
>)
    ensures
        error == transactions_error(*policy, block_number, txs@, txs@.len()),
{
    let mut i: usize = 0;
    while i < txs.len()
        invariant
            i <= txs@.len(),
            transactions_error(*policy, block_number, txs@, i as nat) is None,
        decreases txs@.len() - i,
    {
        let tx = &txs[i];
        let own = if tx.value == 0 {
            Some(TransactionError::ZeroValue)
        } else if tx.value as u128 + tx.fee as u128 > u64::MAX as u128 {
            Some(TransactionError::Overflow)
        } else if tx.sender == tx.recipient {
            Some(TransactionError::SenderEqualsRecipient)
        } else {
            None
        };
        assert(own == transaction_error(*tx));
        let found = match own {
            Some(e) => Some(BlockError::InvalidTransaction(e)),
            None => {
                let end = tx.validity_start_height as u64 + policy.transaction_validity_window as u64;
                if !(tx.validity_start_height <= block_number && (block_number as u64) < end) {
                    Some(BlockError::ExpiredTransaction)
                } else {
                    let mut twice = false;
                    let mut j: usize = 0;
                    while j < i
                        invariant
                            j <= i < txs@.len(),
                            twice == exists|k: int| 0 <= k < j && txs@[k].hash == txs@[i as int].hash,
                        decreases i - j,
                    {
                        if txs[j].hash == txs[i].hash {
                            twice = true;
                        }
                        j = j + 1;
                    }
                    if twice {
                        Some(BlockError::DuplicateTransaction)
                    } else {
                        None
                    }
                }
            },
        };
        assert(found == transaction_error_at(*policy, block_number, txs@, i as int));
        if found.is_some() {
            proof {
                lemma_transactions_error_stays(
                    *policy,
                    block_number,
                    txs@,
                    (i + 1) as nat,
                    txs@.len(),
                );
            }
            return found;
        }
        i = i + 1;
    }
    None
}

proof fn lemma_fork_proofs_error_stays(proofs: Seq<ForkProof>, n: nat, m: nat)
    requires
        n <= m,
        fork_proofs_error(proofs, n) is Some,
    ensures
        fork_proofs_error(proofs, m) == fork_proofs_error(proofs, n),
    decreases m,
{
    if n < m {
        lemma_fork_proofs_error_stays(proofs, n, (m - 1) as nat);
    }
}

proof fn lemma_transactions_error_stays(
    policy: Policy,
    block_number: u32,
    txs: Seq<Transaction>,
    n: nat,
    m: nat,
)
    requires
        n <= m,
        transactions_error(policy, block_number, txs, n) is Some,
    ensures
        transactions_error(policy, block_number, txs, m) == transactions_error(
            policy,
            block_number,
            txs,
            n,
        ),
    decreases m,
{
    if n < m {
        lemma_transactions_error_stays(policy, block_number, txs, n, (m - 1) as nat);
    }
}

/// Checks the body of `block`.
pub fn verify_block_body(policy: &Policy, block: &Block) -> (result: Result<(), PushError>)
    requires
        policy.wf(),
    ensures
        result == outcome(body_error(*policy, *block)),
{
    match block {
        Block::Macro(macro_block) => match &macro_block.body {
            None => Err(PushError::InvalidBlock(BlockError::MissingBody)),
            Some(body) => {
                if body.hash != macro_block.header.body_root {
                    return Err(PushError::InvalidBlock(BlockError::BodyHashMismatch));
                }
                let names = match &body.validators {
                    Some(keys) => keys.len() > 0,
                    None => false,
                };
                if policy.is_election_block_at(macro_block.header.block_number) != names {
                    return Err(PushError::InvalidBlock(BlockError::InvalidValidators));
                }
                Ok(())
            },
        },
        Block::Micro(micro_block) => match &micro_block.body {
            None => Err(PushError::InvalidBlock(BlockError::MissingBody)),
            Some(body) => {
                if body.hash != micro_block.header.body_root {
                    return Err(PushError::InvalidBlock(BlockError::BodyHashMismatch));
                }
                if block.is_skip() && (body.transactions.len() > 0 || body.fork_proofs.len() > 0) {
                    return Err(PushError::InvalidBlock(BlockError::InvalidSkipBlockBody));
                }
                if let Some(e) = check_fork_proofs(&body.fork_proofs) {
                    return Err(PushError::InvalidBlock(e));
                }
                match check_transactions(policy, micro_block.header.block_number, &body.transactions) {
                    Some(e) => Err(PushError::InvalidBlock(e)),
                    None => Ok(()),
                }
            },
        },
    }
}

} // verus!
