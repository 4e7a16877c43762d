//! The inherents of a block: what the chain itself adds to the transactions.

use crate::accounts::{Inherent, InherentType};
use crate::block::{Block, ForkProof, MicroBlock};
use crate::hash::Blake2bHash;
use crate::policy::Policy;
use crate::slots::{get_proposer_at, proposer_at};
use vstd::prelude::*;

verus! {

/// The views that passed without a block before the block at `block_number`
/// came: those from `first_view_number` up to, and without, `last_view_number`.
#[derive(Clone, Copy, Debug, PartialEq, Eq, Structural)]
pub struct ViewChanges {
    pub block_number: u32,
    pub first_view_number: u32,
    pub last_view_number: u32,
}

impl ViewChanges {
    /// The views from `first_view_number` up to, and without,
    /// `last_view_number` at the height `block_number`.
    pub fn new(block_number: u32, first_view_number: u32, last_view_number: u32) -> (changes:
        ViewChanges)
        ensures
            changes == (ViewChanges { block_number, first_view_number, last_view_number }),
    {
        ViewChanges { block_number, first_view_number, last_view_number }
    }

    /// The number of views that passed.
    pub open spec fn count(self) -> nat {
        if self.first_view_number < self.last_view_number {
            (self.last_view_number - self.first_view_number) as nat
        } else {
            0
        }
    }
}

/// The view number from which the views of a block are counted: that of its
/// parent within a batch, zero after a macro block.
pub open spec fn first_view_number(parent: Block) -> u32 {
    if parent.spec_is_macro() {
        0
    } else {
        parent.spec_header().view_number
    }
}

/// A slash for each view that passed: it hits the validator whose turn it was.
/// None where there are no slots.
pub open spec fn view_change_slashes(
    slots: Seq<u64>,
    changes: ViewChanges,
    entropy: Blake2bHash,
    penalty: u64,
) -> Seq<Inherent> {
    if slots.len() == 0 {
        Seq::empty()
    } else {
        Seq::new(
            changes.count(),
            |i: int|
                Inherent {
                    ty: InherentType::Slash,
                    target: proposer_at(
                        slots,
                        changes.block_number,
                        (changes.first_view_number + i) as u32,
                        entropy,
                    )->0,
                    value: penalty,
                },
        )
    }
}

/// A slash for each fork proof: it hits the validator that signed both headers.
pub open spec fn fork_proof_slashes(proofs: Seq<ForkProof>, penalty: u64) -> Seq<Inherent> {
    Seq::new(
        proofs.len(),
        |i: int|
            Inherent { ty: InherentType::Slash, target: proofs[i].header1.seed.signer, value: penalty },
    )
}

/// A reward for each validator of the epoch that ends.
pub open spec fn epoch_rewards(slots: Seq<u64>, reward: u64) -> Seq<Inherent> {
    Seq::new(
        slots.len(),
        |i: int| Inherent { ty: InherentType::Reward, target: slots[i], value: reward },
    )
}

/// The inherents of `block`. An election block first rewards the validators of
/// the epoch that it ends. Every block then slashes for the views that passed
/// since `first_view`, and a micro block after that for its fork proofs.
pub open spec fn block_inherents(
    policy: Policy,
    block: Block,
    first_view: u32,
    slots: Seq<u64>,
    entropy: Blake2bHash,
) -> Seq<Inherent> {
    let changes = ViewChanges {
        block_number: block.spec_block_number(),
        first_view_number: first_view,
        last_view_number: block.spec_header().view_number,
    };
    let slashes = view_change_slashes(slots, changes, entropy, policy.slash_penalty);
    match block {
        Block::Macro(_) => if policy.spec_is_election_block_at(block.spec_block_number()) {
            epoch_rewards(slots, policy.epoch_reward) + slashes
        } else {
            slashes
        },
        Block::Micro(_) => slashes + fork_proof_slashes(
            block.spec_fork_proofs(),
            policy.slash_penalty,
        ),
    }
}

/// Rewards the validators of the epoch that ends.
pub fn finalize_previous_epoch(slots: &Vec<u64>, reward: u64) -> (inherents: Vec<Inherent>)
    ensures
        inherents@ == epoch_rewards(slots@, reward),
{
    let mut inherents: Vec<Inherent> = Vec::new();
    let mut i: usize = 0;
    while i < slots.len()
        invariant
            i <= slots@.len(),
            inherents@ == epoch_rewards(slots@, reward).take(i as int),
        decreases slots@.len() - i,
    {
        inherents.push(Inherent { ty: InherentType::Reward, target: slots[i], value: reward });
        assert(inherents@ =~= epoch_rewards(slots@, reward).take(i + 1));
        i = i + 1;
    }
    assert(epoch_rewards(slots@, reward).take(i as int) =~= epoch_rewards(slots@, reward));
    inherents
}

/// Adds to `inherents` the slashes for the views that passed and for the
/// fork proofs.
pub fn create_slash_inherents(
    inherents: &mut Vec<Inherent>,
    fork_proofs: &Vec<ForkProof>,
    changes: &ViewChanges,
    slots: &Vec<u64>,
    entropy: &Blake2bHash,
    penalty: u64,
)
    ensures
        final(inherents)@ == old(inherents)@ + view_change_slashes(
            slots@,
            *changes,
            *entropy,
            penalty,
        ) + fork_proof_slashes(fork_proofs@, penalty),
{
    let ghost slashes = view_change_slashes(slots@, *changes, *entropy, penalty);
    let mut view: u32 = changes.first_view_number;
    let ghost mut done: int = 0;
    while view < changes.last_view_number
        invariant
            changes.first_view_number <= view,
            changes.count() > 0 ==> view <= changes.last_view_number,
            changes.count() == 0 ==> done == 0,
            done == view - changes.first_view_number,
            slashes == view_change_slashes(slots@, *changes, *entropy, penalty),
            slots@.len() > 0 ==> inherents@ == old(inherents)@ + slashes.take(done),
            slots@.len() == 0 ==> inherents@ == old(inherents)@,
        decreases changes.last_view_number - view,
    {
        match get_proposer_at(slots, changes.block_number, view, entropy) {
            Some(target) => {
                inherents.push(Inherent { ty: InherentType::Slash, target, value: penalty });
                assert(inherents@ =~= old(inherents)@ + slashes.take(done + 1));
            },
            None => {},
        }
        view = view + 1;
        proof {
            done = done + 1;
        }
    }
    proof {
        if slots@.len() > 0 {
            assert(slashes.take(done) =~= slashes);
        } else {
            assert(old(inherents)@ + slashes =~= old(inherents)@);
        }
    }
    let ghost before = inherents@;
    let mut i: usize = 0;
    while i < fork_proofs.len()
        invariant
            i <= fork_proofs@.len(),
            inherents@ == before + fork_proof_slashes(fork_proofs@, penalty).take(i as int),
        decreases fork_proofs@.len() - i,
    {
        inherents.push(
            Inherent {
                ty: InherentType::Slash,
                target: fork_proofs[i].header1.seed.signer,
                value: penalty,
            },
        );
        assert(inherents@ =~= before + fork_proof_slashes(fork_proofs@, penalty).take(i + 1));
        i = i + 1;
    }
    assert(fork_proof_slashes(fork_proofs@, penalty).take(i as int) =~= fork_proof_slashes(
        fork_proofs@,
        penalty,
    ));
}

/// The inherents of `block`.
pub fn create_inherents(
    policy: &Policy,
    block: &Block,
    first_view: u32,
    slots: &Vec<u64>,
    entropy: &Blake2bHash,
) -> (inherents: Vec<Inherent>)
    requires
        policy.wf(),
    ensures
        inherents@ == block_inherents(*policy, *block, first_view, slots@, *entropy),
{
    let changes = ViewChanges::new(block.block_number(), first_view, block.view_number());
    match block {
        Block::Macro(_) => {
            let mut inherents = if policy.is_election_block_at(block.block_number()) {
                finalize_previous_epoch(slots, policy.epoch_reward)
            } else {
                Vec::new()
            };
            let ghost before = inherents@;
            let none: Vec<ForkProof> = Vec::new();
            create_slash_inherents(
                &mut inherents,
                &none,
                &changes,
                slots,
                entropy,
                policy.slash_penalty,
            );
            assert(inherents@ =~= before + view_change_slashes(
                slots@,
                changes,
                *entropy,
                policy.slash_penalty,
            ));
            assert(Seq::<Inherent>::empty() + view_change_slashes(
                slots@,
                changes,
                *entropy,
                policy.slash_penalty,
            ) =~= view_change_slashes(slots@, changes, *entropy, policy.slash_penalty));
            inherents
        },
        Block::Micro(MicroBlock { body: Some(body), .. }) => {
            let mut inherents: Vec<Inherent> = Vec::new();
            create_slash_inherents(
                &mut inherents,
                &body.fork_proofs,
                &changes,
                slots,
                entropy,
                policy.slash_penalty,
            );
            assert(inherents@ =~= view_change_slashes(
                slots@,
                changes,
                *entropy,
                policy.slash_penalty,
            ) + fork_proof_slashes(body.fork_proofs@, policy.slash_penalty));
            inherents
        },
        Block::Micro(_) => {
            let mut inherents: Vec<Inherent> = Vec::new();
            let none: Vec<ForkProof> = Vec::new();
            create_slash_inherents(
                &mut inherents,
                &none,
                &changes,
                slots,
                entropy,
                policy.slash_penalty,
            );
            assert(inherents@ =~= view_change_slashes(
                slots@,
                changes,
                *entropy,
                policy.slash_penalty,
            ) + fork_proof_slashes(Seq::empty(), policy.slash_penalty));
            inherents
        },
    }
}

} // verus!
