//! Blocks as the chain reads them: headers, justifications and bodies.
//!
//! Digests, seeds and signatures are checked where a block is decoded. A block
//! here records the outcome of those checks as plain values: the digest of
//! each part, and the key under which a seed or a signature verifies.

use crate::hash::Blake2bHash;
use vstd::prelude::*;

verus! {

/// The seed of a block, from which the next proposer is drawn.
#[derive(Clone, Copy, Debug, PartialEq, Eq, Structural)]
pub struct VrfSeed {
    /// The entropy that the seed yields.
    pub entropy: Blake2bHash,
    /// The key under which the seed verifies as the successor of the seed of
    /// the parent block.
    pub signer: u64,
}

/// What the two kinds of blocks have in common.
#[derive(Clone, Copy, Debug, PartialEq, Eq, Structural)]
pub struct Header {
    pub version: u16,
    pub block_number: u32,
    /// The view number of a micro block, the round of a macro block.
    pub view_number: u32,
    /// Milliseconds since the epoch of the clock.
    pub timestamp: u64,
    /// The digest of this header: the identifier of the block.
    pub hash: Blake2bHash,
    pub parent_hash: Blake2bHash,
    pub seed: VrfSeed,
    /// The commitment to the accounts after this block.
    pub state_root: Blake2bHash,
    /// The digest of the body.
    pub body_root: Blake2bHash,
    /// The commitment to the history of transactions up to this block.
    pub history_root: Blake2bHash,
    /// On an election block, the commitment to the validators that it names.
    pub pk_tree_root: Blake2bHash,
}

/// The signature of a single validator.
#[derive(Clone, Copy, Debug, PartialEq, Eq, Structural)]
pub struct Signature {
    /// The key under which the signature verifies.
    pub signer: u64,
}

/// The proof that the validators gave up on the proposer of a slot.
#[derive(Clone, Copy, Debug, PartialEq, Eq, Structural)]
pub struct SkipBlockProof {
    /// The number of slots whose owners signed.
    pub votes: u16,
}

/// What justifies a micro block.
#[derive(Clone, Copy, Debug, PartialEq, Eq, Structural)]
pub enum MicroJustification {
    Micro(Signature),
    Skip(SkipBlockProof),
}

/// What justifies a macro block: the aggregate signature of the committee.
#[derive(Clone, Copy, Debug, PartialEq, Eq, Structural)]
pub struct MacroJustification {
    /// The round in which the committee agreed.
    pub round: u32,
    /// The number of slots whose owners signed.
    pub votes: u16,
}

/// A transfer between two accounts.
#[derive(Clone, Copy, Debug, PartialEq, Eq, Structural)]
pub struct Transaction {
    /// The digest of the transaction.
    pub hash: Blake2bHash,
    pub sender: u64,
    pub recipient: u64,
    pub value: u64,
    pub fee: u64,
    pub validity_start_height: u32,
}

/// Two micro blocks of one proposer for one slot.
#[derive(Clone, Copy, Debug, PartialEq, Eq, Structural)]
pub struct ForkProof {
    pub header1: Header,
    pub header2: Header,
    pub justification1: Signature,
    pub justification2: Signature,
    pub prev_vrf_seed: VrfSeed,
}

/// The body of a micro block.
#[derive(Debug, PartialEq, Eq)]
pub struct MicroBody {
    /// The digest of the body.
    pub hash: Blake2bHash,
    pub fork_proofs: Vec<ForkProof>,
    pub transactions: Vec<Transaction>,
}

/// The body of a macro block.
#[derive(Debug, PartialEq, Eq)]
pub struct MacroBody {
    /// The digest of the body.
    pub hash: Blake2bHash,
    /// The keys of the validators of the next epoch, on an election block.
    pub validators: Option<Vec<u64>>,
}

/// A block of a single proposer, or a skip block in its place.
#[derive(Debug, PartialEq, Eq)]
pub struct MicroBlock {
    pub header: Header,
    pub justification: Option<MicroJustification>,
    pub body: Option<MicroBody>,
}

/// A block of the committee: it ends a batch, and what it holds is final.
#[derive(Debug, PartialEq, Eq)]
pub struct MacroBlock {
    pub header: Header,
    pub justification: Option<MacroJustification>,
    pub body: Option<MacroBody>,
}

/// A block of either kind.
#[derive(Debug, PartialEq, Eq)]
pub enum Block {
    Macro(MacroBlock),
    Micro(MicroBlock),
}

/// What is wrong with a transaction.
#[derive(Clone, Copy, Debug, PartialEq, Eq, Structural)]
pub enum TransactionError {
    ZeroValue,
    Overflow,
    SenderEqualsRecipient,
}

/// What is wrong with a block.
#[derive(Clone, Copy, Debug, PartialEq, Eq, Structural)]
pub enum BlockError {
    UnsupportedVersion,
    ExtraDataTooLarge,
    FromTheFuture,
    SizeExceeded,
    BodyHashMismatch,
    AccountsHashMismatch,
    NoJustification,
    NoSkipBlockProof,
    MissingBody,
    InvalidForkProof,
    DuplicateForkProof,
    ForkProofsNotOrdered,
    DuplicateTransaction,
    InvalidTransaction(TransactionError),
    ExpiredTransaction,
    TransactionExecutionMismatch,
    DuplicateReceipt,
    InvalidReceipt,
    ReceiptsNotOrdered,
    InvalidJustification,
    InvalidSkipBlockProof,
    InvalidSeed,
    InvalidHistoryRoot,
    InvalidValidators,
    InvalidPkTreeRoot,
    InvalidSkipBlockTimestamp,
    InvalidSkipBlockBody,
}

/// The contents of a micro body.
pub struct MicroBodyView {
    pub hash: Blake2bHash,
    pub fork_proofs: Seq<ForkProof>,
    pub transactions: Seq<Transaction>,
}

/// The contents of a macro body.
pub struct MacroBodyView {
    pub hash: Blake2bHash,
    pub validators: Option<Seq<u64>>,
}

/// The contents of a block.
#[allow(inconsistent_fields)]
pub enum BlockView {
    Macro { header: Header, justification: Option<MacroJustification>, body: Option<MacroBodyView> },
    Micro { header: Header, justification: Option<MicroJustification>, body: Option<MicroBodyView> },
}

impl View for MicroBody {
    type V = MicroBodyView;

    open spec fn view(&self) -> MicroBodyView {
        MicroBodyView {
            hash: self.hash,
            fork_proofs: self.fork_proofs@,
            transactions: self.transactions@,
        }
    }
}

impl View for MacroBody {
    type V = MacroBodyView;

    open spec fn view(&self) -> MacroBodyView {
        MacroBodyView {
            hash: self.hash,
            validators: match self.validators {
                Some(keys) => Some(keys@),
                None => None,
            },
        }
    }
}

impl View for Block {
    type V = BlockView;

    open spec fn view(&self) -> BlockView {
        match *self {
            Block::Macro(block) => BlockView::Macro {
                header: block.header,
                justification: block.justification,
                body: match block.body {
                    Some(body) => Some(body@),
                    None => None,
                },
            },
            Block::Micro(block) => BlockView::Micro {
                header: block.header,
                justification: block.justification,
                body: match block.body {
                    Some(body) => Some(body@),
                    None => None,
                },
            },
        }
    }
}

/// A vector with the elements of `items`.
pub fn copy_of<T: Copy>(items: &Vec<T>) -> (copy: Vec<T>)
    ensures
        copy@ == items@,
{
    let mut copy: Vec<T> = Vec::new();
    let mut i: usize = 0;
    while i < items.len()
        invariant
            i <= items@.len(),
            copy@ == items@.take(i as int),
        decreases items@.len() - i,
    {
        copy.push(items[i]);
        assert(copy@ =~= items@.take(i + 1));
        i = i + 1;
    }
    assert(items@.take(i as int) =~= items@);
    copy
}

impl Clone for MicroBody {
    fn clone(&self) -> (copy: Self)
        ensures
            copy@ == self@,
    {
        MicroBody {
            hash: self.hash,
            fork_proofs: copy_of(&self.fork_proofs),
            transactions: copy_of(&self.transactions),
        }
    }
}

impl Clone for MacroBody {
    fn clone(&self) -> (copy: Self)
        ensures
            copy@ == self@,
    {
        MacroBody {
            hash: self.hash,
            validators: match &self.validators {
                Some(keys) => Some(copy_of(keys)),
                None => None,
            },
        }
    }
}

impl Clone for MicroBlock {
    fn clone(&self) -> (copy: Self)
        ensures
            Block::Micro(copy)@ == Block::Micro(*self)@,
    {
        MicroBlock {
            header: self.header,
            justification: self.justification,
            body: match &self.body {
                Some(body) => Some(body.clone()),
                None => None,
            },
        }
    }
}

impl Clone for MacroBlock {
    fn clone(&self) -> (copy: Self)
        ensures
            Block::Macro(copy)@ == Block::Macro(*self)@,
    {
        MacroBlock {
            header: self.header,
            justification: self.justification,
            body: match &self.body {
                Some(body) => Some(body.clone()),
                None => None,
            },
        }
    }
}

impl Clone for Block {
    fn clone(&self) -> (copy: Self)
        ensures
            copy@ == self@,
    {
        match self {
            Block::Macro(block) => Block::Macro(block.clone()),
            Block::Micro(block) => Block::Micro(block.clone()),
        }
    }
}

impl Block {
    /// The header.
    pub open spec fn spec_header(self) -> Header {
        match self {
            Block::Macro(block) => block.header,
            Block::Micro(block) => block.header,
        }
    }

    /// The digest of the header: the identifier of the block.
    pub open spec fn spec_hash(self) -> Blake2bHash {
        self.spec_header().hash
    }

    /// The digest of the parent.
    pub open spec fn spec_parent_hash(self) -> Blake2bHash {
        self.spec_header().parent_hash
    }

    /// The height.
    pub open spec fn spec_block_number(self) -> u32 {
        self.spec_header().block_number
    }

    /// The commitment to the accounts after the block.
    pub open spec fn spec_state_root(self) -> Blake2bHash {
        self.spec_header().state_root
    }

    /// Whether the block is a macro block.
    pub open spec fn spec_is_macro(self) -> bool {
        self is Macro
    }

    /// A skip block is a micro block that a skip block proof justifies.
    pub open spec fn spec_is_skip(self) -> bool {
        self matches Block::Micro(block) && block.justification matches Some(
            MicroJustification::Skip(_),
        )
    }

    /// The transactions of the body; none where the block is a macro block or
    /// has no body.
    pub open spec fn spec_transactions(self) -> Seq<Transaction> {
        match self {
            Block::Micro(MicroBlock { body: Some(body), .. }) => body.transactions@,
            _ => Seq::empty(),
        }
    }

    /// The fork proofs of the body; none where the block is a macro block or
    /// has no body.
    pub open spec fn spec_fork_proofs(self) -> Seq<ForkProof> {
        match self {
            Block::Micro(MicroBlock { body: Some(body), .. }) => body.fork_proofs@,
            _ => Seq::empty(),
        }
    }

    /// The validators that the block names for the next epoch; none where it
    /// names none.
    pub open spec fn spec_validators(self) -> Seq<u64> {
        match self {
            Block::Macro(MacroBlock { body: Some(body), .. }) => match body.validators {
                Some(keys) => keys@,
                None => Seq::empty(),
            },
            _ => Seq::empty(),
        }
    }

    /// The header.
    pub fn header(&self) -> (header: Header)
        ensures
            header == self.spec_header(),
    {
        match self {
            Block::Macro(block) => block.header,
            Block::Micro(block) => block.header,
        }
    }

    /// The digest of the header: the identifier of the block.
    pub fn hash(&self) -> (hash: Blake2bHash)
        ensures
            hash == self.spec_hash(),
    {
        self.header().hash
    }

    /// The digest of the parent.
    pub fn parent_hash(&self) -> (hash: Blake2bHash)
        ensures
            hash == self.spec_parent_hash(),
    {
        self.header().parent_hash
    }

    /// The height.
    pub fn block_number(&self) -> (number: u32)
        ensures
            number == self.spec_block_number(),
    {
        self.header().block_number
    }

    /// The view number of a micro block, the round of a macro block.
    pub fn view_number(&self) -> (number: u32)
        ensures
            number == self.spec_header().view_number,
    {
        self.header().view_number
    }

    /// The commitment to the accounts after the block.
    pub fn state_root(&self) -> (root: Blake2bHash)
        ensures
            root == self.spec_state_root(),
    {
        self.header().state_root
    }

    /// The seed.
    pub fn seed(&self) -> (seed: VrfSeed)
        ensures
            seed == self.spec_header().seed,
    {
        self.header().seed
    }

    /// Whether the block is a macro block.
    pub fn is_macro(&self) -> (is_macro: bool)
        ensures
            is_macro == self.spec_is_macro(),
    {
        match self {
            Block::Macro(_) => true,
            Block::Micro(_) => false,
        }
    }

    /// Whether the block is a micro block.
    pub fn is_micro(&self) -> (is_micro: bool)
        ensures
            is_micro == !self.spec_is_macro(),
    {
        !self.is_macro()
    }

    /// Whether the block is a skip block.
    pub fn is_skip(&self) -> (is_skip: bool)
        ensures
            is_skip == self.spec_is_skip(),
    {
        match self {
            Block::Micro(block) => match block.justification {
                Some(MicroJustification::Skip(_)) => true,
                _ => false,
            },
            Block::Macro(_) => false,
        }
    }

    /// The number of transactions in the block.
    pub fn num_transactions(&self) -> (count: usize)
        ensures
            count == self.spec_transactions().len(),
    {
        match self {
            Block::Micro(MicroBlock { body: Some(body), .. }) => body.transactions.len(),
            _ => 0,
        }
    }
}

} // verus!
