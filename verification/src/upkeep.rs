//! Why the operations keep the conditions that hold of a chain.

use crate::accounts::{accounts_root, lemma_commit_revert_round_trip, live};
use crate::block::Block;
use crate::chain_info::ChainInfo;
use crate::chain_view::ChainView;
use crate::hash::Blake2bHash;
use vstd::prelude::*;

verus! {

/// The main chain can still be taken back from a block after a change that
/// keeps the policy, the validators, the stored blocks and the receipts up to
/// the height of that block, and does not lower the last macro block.
pub proof fn lemma_revertible_frame(
    pre: ChainView,
    post: ChainView,
    accounts: Map<u64, u64>,
    hash: Blake2bHash,
)
    requires
        pre.revertible(accounts, hash),
        post.policy == pre.policy,
        post.current_slots == pre.current_slots,
        post.macro_number() >= pre.macro_number(),
        forall|other: Blake2bHash|
            #![trigger pre.infos.contains_key(other)]
            pre.infos.contains_key(other) ==> post.infos.contains_key(other) && post.block(other)
                == pre.block(other),
        forall|height: u32|
            #![trigger pre.receipts.contains_key(height)]
            pre.receipts.contains_key(height) && height <= pre.number(hash)
                ==> post.receipts.contains_key(height) && post.receipts[height]
                == pre.receipts[height],
    ensures
        post.revertible(accounts, hash),
    decreases pre.number(hash),
{
    reveal(ChainView::revert_block);
    assert(pre.infos.contains_key(hash));
    if pre.number(hash) > pre.macro_number() {
        let parent = pre.parent(hash);
        assert(pre.infos.contains_key(hash));
        assert(pre.infos.contains_key(parent));
        assert(post.block(hash) == pre.block(hash));
        assert(post.block(parent) == pre.block(parent));
        assert(pre.receipts.contains_key(pre.block(hash).spec_block_number()));
        if post.number(hash) > post.macro_number() {
            let before = pre.revert_block(accounts, hash)->Ok_0;
            assert(post.revert_block(accounts, hash) == pre.revert_block(accounts, hash));
            lemma_revertible_frame(pre, post, before, parent);
        }
    }
}

/// Putting a block on the head keeps the conditions that hold of a chain.
pub proof fn lemma_extend_keeps_wf(
    pre: ChainView,
    block: Block,
    accounts: Map<u64, u64>,
    receipts: Map<u32, Seq<u64>>,
)
    requires
        pre.wf(),
        block.spec_parent_hash() == pre.head,
        !pre.infos.contains_key(block.spec_hash()),
        block.spec_block_number() == pre.head_number() + 1,
        block.spec_is_macro() == pre.policy.spec_is_macro_block_at(block.spec_block_number()),
        pre.applied(pre.accounts, pre.receipts, block) == Ok::<
            (Map<u64, u64>, Map<u32, Seq<u64>>),
            crate::error::PushError,
        >((accounts, receipts)),
    ensures
        pre.extended(block, accounts, receipts).wf(),
{
    reveal(ChainView::revert_block);
    reveal(ChainView::applied);
    let post = pre.extended(block, accounts, receipts);
    let hash = block.spec_hash();
    let n = block.spec_block_number();
    let policy = pre.policy;
    let election = policy.spec_is_election_block_at(n);
    let linked = pre.infos.insert(
        hash,
        ChainInfo { head: block, on_main_chain: true, main_chain_successor: None },
    ).insert(pre.head, pre.infos[pre.head].relinked(true, Some(hash)));
    policy.lemma_last_macro_block(n);
    policy.lemma_last_macro_block(pre.block(pre.head).spec_block_number());
    if election {
        policy.lemma_election_is_macro(n);
    }
    if !block.spec_is_macro() {
        policy.lemma_last_macro_block_after_micro(n);
    }
    // what is kept of the store
    assert forall|other: Blake2bHash| #[trigger] post.infos.contains_key(other) implies (other
        == hash || pre.infos.contains_key(other)) && post.block(other) == (if other == hash {
        block
    } else {
        pre.block(other)
    }) && post.on_main(other) == (if other == hash {
        true
    } else {
        pre.on_main(other)
    }) by {
        assert(linked.contains_key(other));
    }
    assert(post.infos.contains_key(hash) && post.infos[hash].main_chain_successor is None) by {
        assert(linked.contains_key(hash));
        if election {
            policy.lemma_epoch_members(n);
            assert(policy.spec_epoch_at(n) != pre.epoch_to_prune(n));
        }
    }
    assert forall|other: Blake2bHash|
        pre.infos.contains_key(other) && pre.number(other) >= n implies #[trigger] post.infos.contains_key(
        other,
    ) by {
        assert(linked.contains_key(other));
        if election {
            if policy.spec_epoch_at(pre.block(other).spec_block_number()) == pre.epoch_to_prune(n) {
                policy.lemma_epoch_members(n);
                policy.lemma_earlier_epoch_is_lower(n, pre.block(other).spec_block_number());
            }
        }
    }
    assert forall|other: Blake2bHash| pre.infos.contains_key(other) && !election
        implies #[trigger] post.infos.contains_key(other) by {
        assert(linked.contains_key(other));
    }
    assert(post.macro_number() == policy.spec_last_macro_block(n));
    assert(post.heads());
    assert(post.keyed());
    assert(post.kinds());
    assert(post.topped());
    assert(post.single());
    assert(post.off_main()) by {
        assert forall|other: Blake2bHash| #[trigger]
            post.infos.contains_key(other) && !post.on_main(other) implies {
            &&& !policy.spec_is_macro_block_at(post.block(other).spec_block_number())
            &&& post.infos[other].main_chain_successor is None
        } by {
            assert(pre.infos.contains_key(other));
            assert(other != pre.head);
        }
    }
    assert(post.main_linked()) by {
        assert forall|other: Blake2bHash| #[trigger]
            post.infos.contains_key(other) && post.on_main(other) && post.number(other)
                > post.macro_number() implies {
            &&& post.infos.contains_key(post.parent(other))
            &&& post.on_main(post.parent(other))
            &&& post.number(post.parent(other)) + 1 == post.number(other)
            &&& post.infos[post.parent(other)].main_chain_successor == Some(other)
        } by {
            if other == hash {
                assert(!election);
                assert(post.infos.contains_key(pre.head));
            } else {
                assert(pre.infos.contains_key(other));
                let parent = pre.parent(other);
                assert(pre.infos.contains_key(parent));
                assert(parent != pre.head);
                assert(post.infos.contains_key(parent));
            }
        }
    }
    assert(post.receipts_in_batch());
    lemma_commit_revert_round_trip(
        pre.accounts,
        block.spec_transactions(),
        pre.inherents_of_new(block),
    );
    assert(post.settled()) by {
        if !block.spec_is_macro() {
            assert(post.infos.contains_key(pre.head));
            assert(post.block(pre.head) == pre.block(pre.head));
            assert(post.revert_block(accounts, hash) == Ok::<
                Map<u64, u64>,
                crate::accounts::AccountError,
            >(pre.accounts));
            lemma_revertible_frame(pre, post, pre.accounts, pre.head);
        }
    }
}

/// The blocks of the branch of a candidate lie above the last macro block.
pub proof fn lemma_branch_above_macro(pre: ChainView, fork: Seq<Blake2bHash>, i: int)
    requires
        pre.candidate(fork[0]),
        pre.is_branch(fork, fork[0]),
        0 <= i < fork.len(),
    ensures
        pre.number(fork[i]) > pre.macro_number(),
    decreases i,
{
    if i > 0 {
        lemma_branch_above_macro(pre, fork, i - 1);
        assert(pre.parent(fork[i - 1]) == fork[i]);
        assert(pre.infos.contains_key(fork[i]));
        if pre.number(fork[i]) == pre.macro_number() {
            assert(pre.infos.contains_key(pre.head));
            pre.policy.lemma_last_macro_block(pre.block(pre.head).spec_block_number());
            assert(pre.number(fork[0]) != pre.number(fork[i]));
        }
    }
}

/// A block of the main chain above the ancestor is one of the reverted blocks.
pub proof fn lemma_reverted_covers(
    pre: ChainView,
    reverted: Seq<Blake2bHash>,
    ancestor: Blake2bHash,
    hash: Blake2bHash,
)
    requires
        pre.heads(),
        pre.topped(),
        pre.single(),
        pre.is_reverted(reverted, ancestor),
        pre.number(ancestor) >= pre.macro_number(),
        pre.infos.contains_key(hash),
        pre.on_main(hash),
        pre.number(hash) > pre.number(ancestor),
    ensures
        reverted.contains(hash),
        reverted[pre.head_number() - pre.number(hash)] == hash,
{
    assert(pre.infos.contains_key(pre.head));
    let i = pre.head_number() - pre.number(hash);
    assert(0 <= i < reverted.len());
    assert(pre.infos.contains_key(reverted[i]));
    assert(pre.on_main(reverted[i]));
}

/// What the entries are after the main chain changed to a branch.
pub proof fn lemma_relinked_entries(
    pre: ChainView,
    fork: Seq<Blake2bHash>,
    reverted: Seq<Blake2bHash>,
)
    requires
        pre.candidate(fork[0]),
        pre.is_branch(fork, fork[0]),
        pre.parent_stored(fork.last()),
        pre.on_main(pre.parent(fork.last())),
        pre.is_reverted(reverted, pre.parent(fork.last())),
    ensures
        ({
            let ancestor = pre.parent(fork.last());
            let infos = pre.relinked(fork, reverted, ancestor);
            &&& forall|hash: Blake2bHash|
                infos.contains_key(hash) <==> #[trigger] pre.infos.contains_key(hash)
            &&& forall|hash: Blake2bHash| #[trigger]
                pre.infos.contains_key(hash) ==> infos[hash].head == pre.infos[hash].head
            &&& forall|i: int|
                0 <= i < fork.len() ==> (#[trigger] infos[fork[i]]).on_main_chain
                    && infos[fork[i]].main_chain_successor == (if i == 0 {
                    None
                } else {
                    Some(fork[i - 1])
                })
            &&& forall|j: int|
                0 <= j < reverted.len() ==> !(#[trigger] infos[reverted[j]]).on_main_chain
                    && infos[reverted[j]].main_chain_successor is None
            &&& infos[ancestor].on_main_chain
            &&& infos[ancestor].main_chain_successor == Some(fork.last())
            &&& forall|hash: Blake2bHash| #[trigger]
                pre.infos.contains_key(hash) && !fork.contains(hash) && !reverted.contains(hash)
                    && hash != ancestor ==> infos[hash] == pre.infos[hash]
            &&& forall|j: int|
                0 <= j < reverted.len() ==> pre.number(#[trigger] reverted[j]) > pre.number(
                    ancestor,
                )
            &&& forall|i: int|
                0 <= i < fork.len() ==> pre.number(#[trigger] fork[i]) > pre.number(ancestor)
        }),
{
    let ancestor = pre.parent(fork.last());
    let infos = pre.relinked(fork, reverted, ancestor);
    assert forall|i: int| 0 <= i < fork.len() implies (#[trigger] infos[fork[i]]).on_main_chain
        && infos[fork[i]].main_chain_successor == (if i == 0 {
        None
    } else {
        Some(fork[i - 1])
    }) by {
        let hash = fork[i];
        assert(fork.contains(hash));
        if reverted.contains(hash) {
            let j = choose|j: int| 0 <= j < reverted.len() && reverted[j] == hash;
            assert(pre.on_main(reverted[j]));
        }
        let at = fork.index_of(hash);
        assert(0 <= at < fork.len() && fork[at] == hash);
        assert(pre.number(fork[at]) == pre.number(fork[i]));
    }
    assert forall|j: int| 0 <= j < reverted.len() implies !(
    #[trigger] infos[reverted[j]]).on_main_chain && infos[reverted[j]].main_chain_successor is None by {
        assert(reverted.contains(reverted[j]));
    }
    assert(!reverted.contains(ancestor)) by {
        if reverted.contains(ancestor) {
            let j = choose|j: int| 0 <= j < reverted.len() && reverted[j] == ancestor;
            assert(pre.number(reverted[j]) == pre.head_number() - j);
        }
    }
}

/// A change of the main chain to a branch keeps the conditions that hold of
/// a chain.
#[verifier::rlimit(30)]
pub proof fn lemma_rebranch_keeps_wf(
    pre: ChainView,
    fork: Seq<Blake2bHash>,
    reverted: Seq<Blake2bHash>,
    accounts: Map<u64, u64>,
    receipts: Map<u32, Seq<u64>>,
)
    requires
        pre.candidate(fork[0]),
        pre.is_branch(fork, fork[0]),
        pre.parent_stored(fork.last()),
        pre.on_main(pre.parent(fork.last())),
        pre.is_reverted(reverted, pre.parent(fork.last())),
        live(accounts),
        accounts_root(accounts) == pre.block(fork[0]).spec_state_root(),
        !pre.block(fork[0]).spec_is_macro() ==> (ChainView { accounts, receipts, ..pre }).revertible(
            accounts,
            fork[0],
        ),
        forall|height: u32| #[trigger]
            receipts.contains_key(height) ==> pre.macro_number() < height <= pre.number(fork[0]),
        pre.block(fork[0]).spec_is_macro() ==> receipts == Map::<u32, Seq<u64>>::empty(),
    ensures
        pre.rebranched(fork, reverted, pre.parent(fork.last()), accounts, receipts).wf(),
{
    let tip = fork[0];
    let ancestor = pre.parent(fork.last());
    let post = pre.rebranched(fork, reverted, ancestor, accounts, receipts);
    let policy = pre.policy;
    let m = pre.macro_number();
    lemma_relinked_entries(pre, fork, reverted);
    lemma_branch_above_macro(pre, fork, fork.len() - 1);
    assert(pre.infos.contains_key(pre.head));
    assert(pre.infos.contains_key(pre.macro_head));
    assert(pre.infos.contains_key(tip));
    assert(pre.infos.contains_key(ancestor));
    assert(pre.number(ancestor) >= m);
    policy.lemma_last_macro_block(pre.block(pre.head).spec_block_number());
    policy.lemma_last_macro_block(pre.block(tip).spec_block_number());
    // every block of the main chain above the ancestor was reverted
    assert forall|hash: Blake2bHash|
        pre.infos.contains_key(hash) && pre.on_main(hash) && pre.number(hash) > pre.number(
            ancestor,
        ) implies #[trigger] reverted.contains(hash) by {
        lemma_reverted_covers(pre, reverted, ancestor, hash);
    }
    assert forall|hash: Blake2bHash| #[trigger] post.infos.contains_key(hash) implies post.on_main(
        hash,
    ) == (fork.contains(hash) || (pre.on_main(hash) && !reverted.contains(hash))) by {
        if fork.contains(hash) {
            let i = choose|i: int| 0 <= i < fork.len() && fork[i] == hash;
            assert(post.infos[fork[i]].on_main_chain);
        } else if reverted.contains(hash) {
            let j = choose|j: int| 0 <= j < reverted.len() && reverted[j] == hash;
            assert(!post.infos[reverted[j]].on_main_chain);
        } else if hash != ancestor {
            assert(pre.infos.contains_key(hash));
        }
    }
    assert(post.keyed());
    assert(post.kinds());
    assert(!reverted.contains(pre.macro_head)) by {
        if reverted.contains(pre.macro_head) {
            let j = choose|j: int| 0 <= j < reverted.len() && reverted[j] == pre.macro_head;
            assert(pre.number(reverted[j]) > pre.number(ancestor));
        }
    }
    assert(post.infos[fork[0]].on_main_chain);
    if !pre.block(tip).spec_is_macro() {
        assert forall|between: u32| m < between <= pre.number(tip) implies !#[trigger] policy.spec_is_macro_block_at(
            between,
        ) by {
            if between <= pre.head_number() {
                policy.lemma_micro_above_last_macro(
                    pre.block(pre.head).spec_block_number(),
                    between,
                );
            } else {
                let i = pre.number(tip) - between;
                assert(pre.number(ancestor) <= pre.head_number());
                assert(0 <= i < fork.len());
                assert(pre.infos.contains_key(fork[i]));
                assert(pre.number(fork[i]) == between);
                if i > 0 {
                    assert(pre.number(fork[i]) != pre.number(fork[0]));
                }
            }
        }
        policy.lemma_last_macro_block_is(m as u32, pre.block(tip).spec_block_number());
    }
    assert(post.heads());
    assert(post.off_main()) by {
        assert forall|hash: Blake2bHash| #[trigger]
            post.infos.contains_key(hash) && !post.on_main(hash) implies {
            &&& !policy.spec_is_macro_block_at(post.block(hash).spec_block_number())
            &&& post.infos[hash].main_chain_successor is None
        } by {
            assert(pre.infos.contains_key(hash));
            if reverted.contains(hash) {
                let j = choose|j: int| 0 <= j < reverted.len() && reverted[j] == hash;
                assert(pre.on_main(reverted[j]));
                assert(pre.number(reverted[j]) > pre.number(ancestor));
                policy.lemma_micro_above_last_macro(
                    pre.block(pre.head).spec_block_number(),
                    pre.block(hash).spec_block_number(),
                );
                assert(post.infos[reverted[j]].main_chain_successor is None);
            } else {
                assert(!fork.contains(hash));
                assert(hash != tip) by {
                    assert(fork.contains(fork[0]));
                }
            }
        }
    }
    assert(post.topped()) by {
        assert forall|hash: Blake2bHash| #[trigger]
            post.infos.contains_key(hash) && post.on_main(hash) implies post.number(hash)
            <= post.head_number() by {
            assert(pre.infos.contains_key(hash));
            if fork.contains(hash) {
                let i = choose|i: int| 0 <= i < fork.len() && fork[i] == hash;
                assert(pre.number(fork[i]) == pre.number(tip) - i);
            } else {
                assert(pre.on_main(hash) && !reverted.contains(hash));
            }
        }
    }
    assert(post.single()) by {
        assert forall|a: Blake2bHash, b: Blake2bHash|
            #![trigger post.infos.contains_key(a), post.infos.contains_key(b)]
            post.infos.contains_key(a) && post.infos.contains_key(b) && post.on_main(a)
                && post.on_main(b) && post.number(a) == post.number(b) && post.number(a)
                >= post.macro_number() implies a == b by {
            assert(pre.infos.contains_key(a) && pre.infos.contains_key(b));
            if fork.contains(a) {
                let i = choose|i: int| 0 <= i < fork.len() && fork[i] == a;
                assert(pre.number(fork[i]) == pre.number(tip) - i);
                if fork.contains(b) {
                    let j = choose|j: int| 0 <= j < fork.len() && fork[j] == b;
                    assert(pre.number(fork[j]) == pre.number(tip) - j);
                } else {
                    assert(pre.on_main(b) && !reverted.contains(b));
                }
            } else if fork.contains(b) {
                let j = choose|j: int| 0 <= j < fork.len() && fork[j] == b;
                assert(pre.number(fork[j]) == pre.number(tip) - j);
                assert(pre.on_main(a) && !reverted.contains(a));
            }
        }
    }
    assert(post.main_linked()) by {
        assert forall|hash: Blake2bHash| #[trigger]
            post.infos.contains_key(hash) && post.on_main(hash) && post.number(hash)
                > post.macro_number() implies {
            &&& post.infos.contains_key(post.parent(hash))
            &&& post.on_main(post.parent(hash))
            &&& post.number(post.parent(hash)) + 1 == post.number(hash)
            &&& post.infos[post.parent(hash)].main_chain_successor == Some(hash)
        } by {
            assert(pre.infos.contains_key(hash));
            if fork.contains(hash) {
                let i = choose|i: int| 0 <= i < fork.len() && fork[i] == hash;
                if i < fork.len() - 1 {
                    assert(pre.parent(fork[i]) == fork[i + 1]);
                    assert(pre.infos.contains_key(fork[i + 1]));
                    assert(post.infos[fork[i + 1]].on_main_chain);
                    assert(pre.number(fork[i + 1]) == pre.number(tip) - (i + 1));
                    assert(pre.number(fork[i]) == pre.number(tip) - i);
                } else {
                    assert(fork[i] == fork.last());
                }
            } else {
                assert(pre.on_main(hash) && !reverted.contains(hash));
                let parent = pre.parent(hash);
                assert(pre.infos.contains_key(parent));
                assert(!reverted.contains(parent)) by {
                    if reverted.contains(parent) {
                        let j = choose|j: int| 0 <= j < reverted.len() && reverted[j] == parent;
                        assert(pre.number(reverted[j]) > pre.number(ancestor));
                    }
                }
                assert(!fork.contains(parent)) by {
                    if fork.contains(parent) {
                        let i = choose|i: int| 0 <= i < fork.len() && fork[i] == parent;
                        assert(!pre.on_main(fork[i]));
                    }
                }
                assert(parent != ancestor);
            }
        }
    }
    assert(post.receipts_in_batch());
    assert(post.settled()) by {
        if !pre.block(tip).spec_is_macro() {
            let mid = ChainView { accounts, receipts, ..pre };
            lemma_revertible_frame(mid, post, accounts, tip);
        }
    }
}

/// The main chain is in order above the block `ancestor`, which is part of it
/// and not below the last macro block.
pub closed spec fn main_chain_above(chain: ChainView, ancestor: Blake2bHash) -> bool {
    &&& chain.heads()
    &&& chain.main_linked()
    &&& chain.single()
    &&& chain.infos.contains_key(ancestor)
    &&& chain.on_main(ancestor)
    &&& chain.number(ancestor) >= chain.macro_number()
}

/// The main chain is in order above a block of it that is not below the last
/// macro block.
pub proof fn lemma_main_chain_above(chain: ChainView, ancestor: Blake2bHash)
    requires
        chain.heads(),
        chain.main_linked(),
        chain.single(),
        chain.infos.contains_key(ancestor),
        chain.on_main(ancestor),
        chain.number(ancestor) >= chain.macro_number(),
    ensures
        main_chain_above(chain, ancestor),
{
}

/// What holds of a block of the main chain above the ancestor that is taken
/// back: its parent is part of the main chain, its receipts are stored, and
/// to revert it gives accounts from which the chain can be taken back further.
pub proof fn lemma_revert_step(
    chain: ChainView,
    ancestor: Blake2bHash,
    current: Blake2bHash,
    accounts: Map<u64, u64>,
)
    requires
        main_chain_above(chain, ancestor),
        chain.infos.contains_key(current),
        chain.on_main(current),
        chain.number(current) >= chain.number(ancestor),
        current != ancestor,
        chain.revertible(accounts, current),
    ensures
        chain.number(current) > chain.number(ancestor),
        chain.infos.contains_key(chain.parent(current)),
        chain.on_main(chain.parent(current)),
        chain.number(chain.parent(current)) + 1 == chain.number(current),
        chain.receipts.contains_key(chain.block(current).spec_block_number()),
        chain.revert_block(accounts, current) is Ok,
        live(chain.revert_block(accounts, current)->Ok_0),
        accounts_root(chain.revert_block(accounts, current)->Ok_0) == chain.block(
            chain.parent(current),
        ).spec_state_root(),
        chain.revertible(chain.revert_block(accounts, current)->Ok_0, chain.parent(current)),
{
}

/// After a block was applied on top of its parent, the accounts are live and
/// have the state root of the block; a macro block leaves no receipts, and a
/// micro block above the last macro block can be taken back again.
pub proof fn lemma_applied_revertible(
    mid: ChainView,
    hash: Blake2bHash,
    accounts: Map<u64, u64>,
    receipts: Map<u32, Seq<u64>>,
)
    requires
        live(mid.accounts),
        mid.infos.contains_key(hash),
        mid.infos.contains_key(mid.parent(hash)),
        mid.number(mid.parent(hash)) + 1 == mid.number(hash),
        mid.number(hash) > mid.macro_number(),
        mid.applied(mid.accounts, mid.receipts, mid.block(hash)) == Ok::<
            (Map<u64, u64>, Map<u32, Seq<u64>>),
            crate::error::PushError,
        >((accounts, receipts)),
        accounts_root(mid.accounts) == mid.block(mid.parent(hash)).spec_state_root(),
        mid.revertible(mid.accounts, mid.parent(hash)),
    ensures
        live(accounts),
        accounts_root(accounts) == mid.block(hash).spec_state_root(),
        mid.block(hash).spec_is_macro() ==> receipts == Map::<u32, Seq<u64>>::empty(),
        !mid.block(hash).spec_is_macro() ==> receipts == mid.receipts.insert(
            mid.block(hash).spec_block_number(),
            receipts[mid.block(hash).spec_block_number()],
        ) && (ChainView { accounts, receipts, ..mid }).revertible(accounts, hash),
{
    reveal(ChainView::revert_block);
    reveal(ChainView::applied);
    let block = mid.block(hash);
    let post = ChainView { accounts, receipts, ..mid };
    lemma_commit_revert_round_trip(
        mid.accounts,
        block.spec_transactions(),
        mid.inherents_of_new(block),
    );
    if !block.spec_is_macro() {
        assert(receipts =~= mid.receipts.insert(
            block.spec_block_number(),
            receipts[block.spec_block_number()],
        ));
        assert(post.revert_block(accounts, hash) == Ok::<
            Map<u64, u64>,
            crate::accounts::AccountError,
        >(mid.accounts));
        lemma_revertible_frame(mid, post, mid.accounts, mid.parent(hash));
    }
}

/// The branch `fork` hangs on a stored block, lies above the last macro
/// block, and all its blocks but the highest are micro blocks.
pub closed spec fn branch_ready(chain: ChainView, fork: Seq<Blake2bHash>) -> bool {
    &&& chain.is_branch(fork, fork[0])
    &&& chain.parent_stored(fork.last())
    &&& forall|i: int| 0 <= i < fork.len() ==> chain.number(#[trigger] fork[i]) > chain.macro_number()
    &&& forall|i: int| 1 <= i < fork.len() ==> !chain.block(#[trigger] fork[i]).spec_is_macro()
}

/// A branch that hangs on a stored block and lies above the last macro
/// block, with micro blocks below its highest block, is ready.
pub proof fn lemma_branch_ready(chain: ChainView, fork: Seq<Blake2bHash>)
    requires
        chain.is_branch(fork, fork[0]),
        chain.parent_stored(fork.last()),
        forall|i: int| 0 <= i < fork.len() ==> chain.number(#[trigger] fork[i]) > chain.macro_number(),
        forall|i: int| 1 <= i < fork.len() ==> !chain.block(#[trigger] fork[i]).spec_is_macro(),
    ensures
        branch_ready(chain, fork),
{
}

/// What holds of the block of a ready branch that is the `k`-th from below,
/// counted from zero.
pub proof fn lemma_branch_step(chain: ChainView, fork: Seq<Blake2bHash>, k: int)
    requires
        branch_ready(chain, fork),
        0 <= k < fork.len(),
    ensures
        chain.infos.contains_key(fork[fork.len() - 1 - k]),
        chain.parent_stored(fork[fork.len() - 1 - k]),
        chain.parent(fork[fork.len() - 1 - k]) == (if k == 0 {
            chain.parent(fork.last())
        } else {
            fork[fork.len() - k]
        }),
        chain.number(fork[fork.len() - 1 - k]) > chain.macro_number(),
        chain.number(chain.parent(fork.last())) < chain.number(fork[fork.len() - 1 - k])
            <= chain.number(fork[0]),
        k > 0 ==> !chain.block(fork[fork.len() - k]).spec_is_macro(),
        chain.infos.contains_key(chain.parent(fork.last())),
{
    let n = fork.len() as int;
    assert(chain.infos.contains_key(fork[n - 1 - k]));
    assert(chain.number(fork[n - 1 - k]) == chain.number(fork[0]) - (n - 1 - k));
    assert(chain.number(fork[n - 1]) == chain.number(fork[0]) - (n - 1));
    if k > 0 {
        assert(chain.parent(fork[n - 1 - k]) == fork[n - k]);
        assert(chain.infos.contains_key(fork[n - k]));
        assert(chain.number(fork[n - k]) == chain.number(fork[0]) - (n - k));
    }
}

/// One more block of a ready branch was applied: what held of the blocks
/// below it holds of it.
pub proof fn lemma_replay_progress(
    chain: ChainView,
    fork: Seq<Blake2bHash>,
    start: Map<u64, u64>,
    k: nat,
    before: (Map<u64, u64>, Map<u32, Seq<u64>>),
    after: (Map<u64, u64>, Map<u32, Seq<u64>>),
)
    requires
        branch_ready(chain, fork),
        k < fork.len(),
        chain.replayed(start, fork, k) == Ok::<
            (Map<u64, u64>, Map<u32, Seq<u64>>),
            crate::error::PushError,
        >(before),
        chain.applied(before.0, before.1, chain.block(fork[fork.len() - 1 - k])) == Ok::<
            (Map<u64, u64>, Map<u32, Seq<u64>>),
            crate::error::PushError,
        >(after),
        !chain.block(fork[fork.len() - 1 - k]).spec_is_macro() ==> after.1 == before.1.insert(
            chain.block(fork[fork.len() - 1 - k]).spec_block_number(),
            after.1[chain.block(fork[fork.len() - 1 - k]).spec_block_number()],
        ),
        chain.block(fork[fork.len() - 1 - k]).spec_is_macro() ==> after.1 == Map::<
            u32,
            Seq<u64>,
        >::empty(),
        forall|height: u32| #[trigger]
            before.1.contains_key(height) ==> chain.receipts.contains_key(height) || chain.number(
                chain.parent(fork.last()),
            ) < height <= chain.number(fork[0]),
    ensures
        chain.replayed(start, fork, k + 1) == Ok::<
            (Map<u64, u64>, Map<u32, Seq<u64>>),
            crate::error::PushError,
        >(after),
        forall|height: u32| #[trigger]
            after.1.contains_key(height) ==> chain.receipts.contains_key(height) || chain.number(
                chain.parent(fork.last()),
            ) < height <= chain.number(fork[0]),
{
    lemma_branch_step(chain, fork, k as int);
}

/// A block of a ready branch was refused: the replay fails there.
pub proof fn lemma_replay_refused(
    chain: ChainView,
    fork: Seq<Blake2bHash>,
    start: Map<u64, u64>,
    k: nat,
    before: (Map<u64, u64>, Map<u32, Seq<u64>>),
)
    requires
        k < fork.len(),
        chain.replayed(start, fork, k) == Ok::<
            (Map<u64, u64>, Map<u32, Seq<u64>>),
            crate::error::PushError,
        >(before),
        chain.applied(before.0, before.1, chain.block(fork[fork.len() - 1 - k])) is Err,
    ensures
        chain.replayed(start, fork, k + 1) is Err,
{
}

/// The entries of `infos`, with those of `target` in place of them for the
/// digests in `done`.
pub open spec fn partly(
    infos: Map<Blake2bHash, ChainInfo>,
    target: Map<Blake2bHash, ChainInfo>,
    done: Set<Blake2bHash>,
) -> Map<Blake2bHash, ChainInfo> {
    Map::new(
        |hash: Blake2bHash| infos.contains_key(hash),
        |hash: Blake2bHash|
            if done.contains(hash) {
                target[hash]
            } else {
                infos[hash]
            },
    )
}

/// What the entries of the blocks that change their place are after the main
/// chain changed to a branch, and that no other entry changes.
pub proof fn lemma_relinked_at(pre: ChainView, fork: Seq<Blake2bHash>, reverted: Seq<Blake2bHash>)
    requires
        pre.candidate(fork[0]),
        pre.is_branch(fork, fork[0]),
        pre.parent_stored(fork.last()),
        pre.on_main(pre.parent(fork.last())),
        pre.is_reverted(reverted, pre.parent(fork.last())),
    ensures
        ({
            let ancestor = pre.parent(fork.last());
            let target = pre.relinked(fork, reverted, ancestor);
            &&& forall|i: int|
                0 <= i < fork.len() ==> pre.infos.contains_key(fork[i]) && #[trigger] target[fork[i]]
                    == pre.infos[fork[i]].relinked(
                    true,
                    if i == 0 {
                        None
                    } else {
                        Some(fork[i - 1])
                    },
                )
            &&& forall|j: int|
                0 <= j < reverted.len() ==> pre.infos.contains_key(reverted[j])
                    && #[trigger] target[reverted[j]] == pre.infos[reverted[j]].relinked(false, None)
            &&& pre.infos.contains_key(ancestor)
            &&& target[ancestor] == pre.infos[ancestor].relinked(true, Some(fork.last()))
            &&& target == partly(
                pre.infos,
                target,
                reverted.to_set().insert(ancestor).union(fork.to_set()),
            )
        }),
{
    let ancestor = pre.parent(fork.last());
    let target = pre.relinked(fork, reverted, ancestor);
    lemma_relinked_entries(pre, fork, reverted);
    assert forall|i: int| 0 <= i < fork.len() implies pre.infos.contains_key(fork[i])
        && #[trigger] target[fork[i]] == pre.infos[fork[i]].relinked(
        true,
        if i == 0 {
            None
        } else {
            Some(fork[i - 1])
        },
    ) by {
        let hash = fork[i];
        assert(pre.infos.contains_key(hash));
        assert(fork.contains(hash));
        if reverted.contains(hash) {
            let j = choose|j: int| 0 <= j < reverted.len() && reverted[j] == hash;
            assert(pre.on_main(reverted[j]));
        }
        let at = fork.index_of(hash);
        assert(0 <= at < fork.len() && fork[at] == hash);
        assert(pre.number(fork[at]) == pre.number(fork[i]));
    }
    assert forall|j: int| 0 <= j < reverted.len() implies pre.infos.contains_key(reverted[j])
        && #[trigger] target[reverted[j]] == pre.infos[reverted[j]].relinked(false, None) by {
        assert(reverted.contains(reverted[j]));
    }
    assert(!reverted.contains(ancestor)) by {
        if reverted.contains(ancestor) {
            let j = choose|j: int| 0 <= j < reverted.len() && reverted[j] == ancestor;
            assert(pre.number(reverted[j]) == pre.head_number() - j);
        }
    }
    assert(target =~= partly(
        pre.infos,
        target,
        reverted.to_set().insert(ancestor).union(fork.to_set()),
    ));
}

/// The main chain can still be taken back from one of its blocks after a
/// change that keeps the policy, the validators, the last macro block, the
/// receipts and the blocks of the main chain.
pub proof fn lemma_revertible_main_frame(
    pre: ChainView,
    post: ChainView,
    accounts: Map<u64, u64>,
    hash: Blake2bHash,
)
    requires
        pre.revertible(accounts, hash),
        pre.main_linked(),
        pre.on_main(hash),
        post.policy == pre.policy,
        post.current_slots == pre.current_slots,
        post.receipts == pre.receipts,
        post.macro_number() == pre.macro_number(),
        forall|other: Blake2bHash|
            #![trigger pre.infos.contains_key(other)]
            pre.infos.contains_key(other) && pre.on_main(other) ==> post.infos.contains_key(other)
                && post.block(other) == pre.block(other),
    ensures
        post.revertible(accounts, hash),
    decreases pre.number(hash),
{
    reveal(ChainView::revert_block);
    assert(pre.infos.contains_key(hash));
    if pre.number(hash) > pre.macro_number() {
        let parent = pre.parent(hash);
        assert(pre.infos.contains_key(parent));
        assert(post.block(hash) == pre.block(hash));
        assert(post.block(parent) == pre.block(parent));
        let before = pre.revert_block(accounts, hash)->Ok_0;
        assert(post.revert_block(accounts, hash) == pre.revert_block(accounts, hash));
        lemma_revertible_main_frame(pre, post, before, parent);
    }
}

/// Taking blocks of the branch of a candidate, the candidate among them, out
/// of the store gives a chain of which all holds that always holds.
pub proof fn lemma_purge_keeps_wf(pre: ChainView, fork: Seq<Blake2bHash>, count: int)
    requires
        pre.candidate(fork[0]),
        pre.is_branch(fork, fork[0]),
        1 <= count <= fork.len(),
    ensures
        pre.purged(fork, count).wf(),
{
    let post = pre.purged(fork, count);
    let gone = fork.take(count).to_set();
    assert(gone.contains(fork[0])) by {
        assert(fork.take(count)[0] == fork[0]);
    }
    assert forall|hash: Blake2bHash| gone.contains(hash) implies pre.infos.contains_key(hash)
        && !pre.on_main(hash) by {
        let p = choose|p: int| 0 <= p < fork.take(count).len() && fork.take(count)[p] == hash;
        assert(fork[p] == hash);
    }
    assert forall|hash: Blake2bHash| #[trigger] post.infos.contains_key(hash) implies pre.infos.contains_key(
        hash,
    ) && post.infos[hash] == pre.infos[hash] && !gone.contains(hash) by {}
    assert forall|hash: Blake2bHash|
        pre.infos.contains_key(hash) && pre.on_main(hash) implies #[trigger] post.infos.contains_key(
        hash,
    ) by {}
    assert(pre.infos.contains_key(pre.head));
    assert(pre.infos.contains_key(pre.macro_head));
    assert(post.infos.contains_key(pre.head));
    assert(post.infos.contains_key(pre.macro_head));
    assert(post.heads());
    assert(post.keyed());
    assert(post.kinds());
    assert(post.off_main());
    assert(post.main_linked()) by {
        assert forall|hash: Blake2bHash| #[trigger]
            post.infos.contains_key(hash) && post.on_main(hash) && post.number(hash)
                > post.macro_number() implies {
            &&& post.infos.contains_key(post.parent(hash))
            &&& post.on_main(post.parent(hash))
            &&& post.number(post.parent(hash)) + 1 == post.number(hash)
            &&& post.infos[post.parent(hash)].main_chain_successor == Some(hash)
        } by {
            assert(pre.infos.contains_key(hash));
            assert(pre.infos.contains_key(pre.parent(hash)));
            assert(post.infos.contains_key(pre.parent(hash)));
        }
    }
    assert(post.topped());
    assert(post.single());
    assert(post.receipts_in_batch());
    lemma_revertible_main_frame(pre, post, pre.accounts, pre.head);
}

/// Once a block of a branch is refused, the replay of the branch fails.
pub proof fn lemma_replayed_fails(
    chain: ChainView,
    start: Map<u64, u64>,
    fork: Seq<Blake2bHash>,
    k: nat,
    n: nat,
)
    requires
        k <= n,
        chain.replayed(start, fork, k) is Err,
    ensures
        chain.replayed(start, fork, n) is Err,
    decreases n,
{
    if k < n {
        lemma_replayed_fails(chain, start, fork, k, (n - 1) as nat);
    }
}

/// What holds of the branch of a candidate that reaches the main chain: its
/// blocks lie above the last macro block, all but the highest are micro
/// blocks, and the block on which it hangs is not below the last macro block.
pub proof fn lemma_candidate_branch(pre: ChainView, fork: Seq<Blake2bHash>)
    requires
        pre.candidate(fork[0]),
        pre.is_branch(fork, fork[0]),
        pre.parent_stored(fork.last()),
    ensures
        forall|i: int| 0 <= i < fork.len() ==> pre.number(#[trigger] fork[i]) > pre.macro_number(),
        forall|i: int| 1 <= i < fork.len() ==> !pre.block(#[trigger] fork[i]).spec_is_macro(),
        pre.number(pre.parent(fork.last())) >= pre.macro_number(),
{
    assert forall|i: int| 0 <= i < fork.len() implies pre.number(#[trigger] fork[i])
        > pre.macro_number() by {
        lemma_branch_above_macro(pre, fork, i);
    }
    assert forall|i: int| 1 <= i < fork.len() implies !pre.block(#[trigger] fork[i]).spec_is_macro() by {
        assert(pre.infos.contains_key(fork[i]));
        assert(pre.number(fork[i]) != pre.number(fork[0]));
    }
    assert(pre.number(fork[fork.len() - 1]) > pre.macro_number());
}

/// Storing a new block beside the main chain keeps the conditions that hold
/// of a chain, but that the block may stand at the height of a macro block.
pub proof fn lemma_store_keeps_wf(pre: ChainView, block: Block)
    requires
        pre.wf(),
        !pre.infos.contains_key(block.spec_hash()),
        block.spec_is_macro() == pre.policy.spec_is_macro_block_at(block.spec_block_number()),
    ensures
        pre.stored(block).wf_but(Some(block.spec_hash())),
        !pre.policy.spec_is_macro_block_at(block.spec_block_number()) ==> pre.stored(block).wf(),
{
    let post = pre.stored(block);
    let hash = block.spec_hash();
    assert(pre.infos.contains_key(pre.head));
    assert(pre.infos.contains_key(pre.macro_head));
    assert forall|other: Blake2bHash| #[trigger] post.infos.contains_key(other) implies (other
        == hash || pre.infos.contains_key(other)) by {}
    assert forall|other: Blake2bHash| #[trigger] pre.infos.contains_key(other) implies post.infos.contains_key(
        other,
    ) && post.infos[other] == pre.infos[other] by {}
    assert(post.heads());
    assert(post.keyed());
    assert(post.kinds());
    assert(post.off_main_but(Some(hash)));
    assert(post.main_linked()) by {
        assert forall|other: Blake2bHash| #[trigger]
            post.infos.contains_key(other) && post.on_main(other) && post.number(other)
                > post.macro_number() implies {
            &&& post.infos.contains_key(post.parent(other))
            &&& post.on_main(post.parent(other))
            &&& post.number(post.parent(other)) + 1 == post.number(other)
            &&& post.infos[post.parent(other)].main_chain_successor == Some(other)
        } by {
            assert(pre.infos.contains_key(other));
            assert(pre.infos.contains_key(pre.parent(other)));
        }
    }
    assert(post.topped());
    assert(post.single());
    assert(post.receipts_in_batch());
    lemma_revertible_frame(pre, post, pre.accounts, pre.head);
}

} // verus!
