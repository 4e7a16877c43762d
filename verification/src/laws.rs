//! What holds of every chain and of every push.

use crate::accounts::accounts_root;
use crate::block::Block;
use crate::chain_view::ChainView;
use crate::error::{PushError, PushResult};
use crate::hash::Blake2bHash;
use crate::transition::ChainOrdering;
use vstd::prelude::*;

verus! {

/// The accounts are always those that the head of the main chain commits to.
pub proof fn law_accounts_match_head(chain: ChainView)
    requires
        chain.wf(),
    ensures
        accounts_root(chain.accounts) == chain.block(chain.head).spec_state_root(),
{
}

/// The head of the main chain is never below the last macro block, and the
/// last macro block is part of the main chain.
pub proof fn law_head_above_finality(chain: ChainView)
    requires
        chain.wf(),
    ensures
        chain.infos.contains_key(chain.macro_head),
        chain.on_main(chain.macro_head),
        chain.head_number() >= chain.macro_number(),
{
    assert(chain.infos.contains_key(chain.head));
    chain.policy.lemma_last_macro_block(chain.block(chain.head).spec_block_number());
}

/// A push never changes a block that the store keeps.
pub proof fn law_blocks_never_change(
    pre: ChainView,
    block: Block,
    trusted: bool,
    post: ChainView,
    result: Result<PushResult, PushError>,
    hash: Blake2bHash,
)
    requires
        pre.wf(),
        pre.push_post(block, trusted, post, result),
        pre.infos.contains_key(hash),
        post.infos.contains_key(hash),
    ensures
        post.block(hash) == pre.block(hash),
{
    if pre.early_verdict(block, trusted) is None {
        match pre.ordering(block) {
            ChainOrdering::Superior => {
                let mid = pre.stored(block);
                let fork = choose|fork: Seq<Blake2bHash>|
                    mid.branch_outcome(block.spec_hash(), fork, post, result);
                assert(mid.block(hash) == pre.block(hash));
            },
            _ => {},
        }
    }
}

/// As long as no push changes the main chain to another branch, the height of
/// the head does not go down.
pub proof fn law_head_never_falls(
    pre: ChainView,
    block: Block,
    trusted: bool,
    post: ChainView,
    result: Result<PushResult, PushError>,
)
    requires
        pre.wf(),
        pre.push_post(block, trusted, post, result),
        kept_branch(result),
    ensures
        post.head_number() >= pre.head_number(),
{
    law_push_keeps_wf(pre, block, trusted, post, result);
    assert(pre.infos.contains_key(pre.head));
    assert(post.infos.contains_key(post.head));
    if pre.early_verdict(block, trusted) is None {
        match pre.ordering(block) {
            ChainOrdering::Superior => {
                // the push would have changed the branch or failed
            },
            ChainOrdering::Extend => {
                reveal(ChainView::applied);
            },
            _ => {},
        }
    }
}

/// A run of pushes from a chain of which all holds that always holds: each
/// state but the first is what the push of the block before it made of the
/// state before it.
pub open spec fn is_run(
    states: Seq<ChainView>,
    blocks: Seq<Block>,
    trusted: Seq<bool>,
    results: Seq<Result<PushResult, PushError>>,
) -> bool {
    &&& states.len() == blocks.len() + 1
    &&& trusted.len() == blocks.len()
    &&& results.len() == blocks.len()
    &&& states[0].wf()
    &&& forall|i: int|
        0 <= i < blocks.len() ==> states[i].push_post(
            blocks[i],
            trusted[i],
            states[i + 1],
            #[trigger] results[i],
        )
}

/// Whether a push that gave `result` left the main chain on its branch.
pub open spec fn kept_branch(result: Result<PushResult, PushError>) -> bool {
    result == Ok::<PushResult, PushError>(PushResult::Extended) || result == Ok::<
        PushResult,
        PushError,
    >(PushResult::Ignored) || result == Ok::<PushResult, PushError>(PushResult::Known) || result
        == Ok::<PushResult, PushError>(PushResult::Forked)
}

/// In every state of a run of pushes, the accounts are those that the head of
/// the main chain commits to.
pub proof fn law_accounts_match_head_over_run(
    states: Seq<ChainView>,
    blocks: Seq<Block>,
    trusted: Seq<bool>,
    results: Seq<Result<PushResult, PushError>>,
    at: int,
)
    requires
        is_run(states, blocks, trusted, results),
        0 <= at < states.len(),
    ensures
        states[at].wf(),
        accounts_root(states[at].accounts) == states[at].block(states[at].head).spec_state_root(),
    decreases at,
{
    if at > 0 {
        law_accounts_match_head_over_run(states, blocks, trusted, results, at - 1);
        assert(states[at - 1].push_post(
            blocks[at - 1],
            trusted[at - 1],
            states[at],
            results[at - 1],
        ));
        law_push_keeps_wf(
            states[at - 1],
            blocks[at - 1],
            trusted[at - 1],
            states[at],
            results[at - 1],
        );
    }
}

/// Over a run of pushes none of which changes the main chain to another
/// branch, the height of the head does not go down.
pub proof fn law_head_never_falls_over_run(
    states: Seq<ChainView>,
    blocks: Seq<Block>,
    trusted: Seq<bool>,
    results: Seq<Result<PushResult, PushError>>,
    from: int,
    to: int,
)
    requires
        is_run(states, blocks, trusted, results),
        forall|i: int| 0 <= i < results.len() ==> kept_branch(#[trigger] results[i]),
        0 <= from <= to < states.len(),
    ensures
        states[from].head_number() <= states[to].head_number(),
    decreases to - from,
{
    if from < to {
        law_head_never_falls_over_run(states, blocks, trusted, results, from, to - 1);
        law_accounts_match_head_over_run(states, blocks, trusted, results, to - 1);
        assert(kept_branch(results[to - 1]));
        assert(states[to - 1].push_post(
            blocks[to - 1],
            trusted[to - 1],
            states[to],
            results[to - 1],
        ));
        law_head_never_falls(
            states[to - 1],
            blocks[to - 1],
            trusted[to - 1],
            states[to],
            results[to - 1],
        );
    }
}

/// A push that changes the main chain to another branch makes a block above
/// the last macro block the head, and the branch hangs on a block of the main
/// chain that is not below the last macro block.
pub proof fn law_rebranch_respects_finality(
    pre: ChainView,
    block: Block,
    trusted: bool,
    post: ChainView,
    result: Result<PushResult, PushError>,
)
    requires
        pre.wf(),
        pre.push_post(block, trusted, post, result),
        result == Ok::<PushResult, PushError>(PushResult::Rebranched),
    ensures
        post.head == block.spec_hash(),
        post.head_number() > pre.macro_number(),
        exists|fork: Seq<Blake2bHash>| #[trigger]
            pre.stored(block).is_branch(fork, block.spec_hash()) && pre.stored(block).on_main(
                pre.stored(block).parent(fork.last()),
            ) && pre.stored(block).number(pre.stored(block).parent(fork.last()))
                >= pre.macro_number(),
{
    law_push_keeps_wf(pre, block, trusted, post, result);
    assert(pre.infos.contains_key(pre.head));
    assert(pre.infos.contains_key(pre.macro_head));
    assert(post.infos.contains_key(post.head));
    let mid = pre.stored(block);
    assert(pre.early_verdict(block, trusted) is None);
    assert(pre.ordering(block) == ChainOrdering::Superior) by {
        reveal(ChainView::applied);
    }
    assert(mid.macro_number() == pre.macro_number());
    let fork = choose|fork: Seq<Blake2bHash>|
        mid.branch_outcome(block.spec_hash(), fork, post, result);
    assert(mid.is_branch(fork, block.spec_hash()));
}

/// A block that was accepted, is a micro block and does not lie at or below
/// the last macro block is known when it is pushed again, and the second
/// push changes nothing.
pub proof fn law_second_push_is_known(
    pre: ChainView,
    block: Block,
    first_trusted: bool,
    mid: ChainView,
    first: Result<PushResult, PushError>,
    second_trusted: bool,
    post: ChainView,
    second: Result<PushResult, PushError>,
)
    requires
        pre.wf(),
        pre.push_post(block, first_trusted, mid, first),
        mid.push_post(block, second_trusted, post, second),
        first is Ok,
        !pre.below_finality(block),
        !block.spec_is_macro(),
    ensures
        second == Ok::<PushResult, PushError>(PushResult::Known),
        post == mid,
{
    law_push_keeps_wf(pre, block, first_trusted, mid, first);
    lemma_accepted_is_stored(pre, block, first_trusted, mid, first);
    assert(mid.infos.contains_key(mid.head));
    if mid != pre && mid.head == block.spec_hash() {
        mid.policy.lemma_last_macro_block(block.spec_block_number());
    }
}

/// A block that was accepted and is pushed again changes nothing: the accounts
/// are those after the first push.
pub proof fn law_second_push_changes_nothing(
    pre: ChainView,
    block: Block,
    first_trusted: bool,
    mid: ChainView,
    first: Result<PushResult, PushError>,
    second_trusted: bool,
    post: ChainView,
    second: Result<PushResult, PushError>,
)
    requires
        pre.wf(),
        pre.push_post(block, first_trusted, mid, first),
        mid.push_post(block, second_trusted, post, second),
        first is Ok,
    ensures
        second == Ok::<PushResult, PushError>(PushResult::Known) || second == Ok::<
            PushResult,
            PushError,
        >(PushResult::Ignored),
        post == mid,
        accounts_root(post.accounts) == accounts_root(mid.accounts),
{
    law_push_keeps_wf(pre, block, first_trusted, mid, first);
    if !pre.below_finality(block) {
        lemma_accepted_is_stored(pre, block, first_trusted, mid, first);
        assert(mid.infos.contains_key(mid.head));
    }
}

/// After a push that accepted a block above the last macro block, the store
/// holds the block, and the height of the head has not gone down.
proof fn lemma_accepted_is_stored(
    pre: ChainView,
    block: Block,
    trusted: bool,
    post: ChainView,
    result: Result<PushResult, PushError>,
)
    requires
        pre.wf(),
        pre.push_post(block, trusted, post, result),
        result is Ok,
        !pre.below_finality(block),
    ensures
        post.infos.contains_key(block.spec_hash()),
        post == pre || (post.block(block.spec_hash()) == block && (post.head == block.spec_hash()
            || (post.head == pre.head && post.block(post.head) == pre.block(pre.head)))),
{
    law_push_keeps_wf(pre, block, trusted, post, result);
    assert(pre.infos.contains_key(pre.head));
    assert(post.infos.contains_key(post.head));
    if pre.early_verdict(block, trusted) is None {
        match pre.ordering(block) {
            ChainOrdering::Superior => {
                let mid = pre.stored(block);
                assert(mid.infos.contains_key(block.spec_hash()));
            },
            ChainOrdering::Extend => {
                reveal(ChainView::applied);
            },
            _ => {},
        }
    }
}

/// Two chains with the same head have accounts with the same commitment:
/// whatever branches the main chain took on the way, once a block is the
/// head again the accounts are those that it commits to.
pub proof fn law_same_head_same_accounts(a: ChainView, b: ChainView)
    requires
        a.wf(),
        b.wf(),
        a.head == b.head,
        a.block(a.head) == b.block(b.head),
    ensures
        accounts_root(a.accounts) == accounts_root(b.accounts),
{
}

/// Taking the main chain back to one of its blocks that is not below the
/// last macro block gives accounts with the state root of that block.
pub proof fn law_revert_restores_state_root(
    chain: ChainView,
    reverted: Seq<Blake2bHash>,
    ancestor: Blake2bHash,
)
    requires
        chain.wf(),
        chain.is_reverted(reverted, ancestor),
        chain.number(ancestor) >= chain.macro_number(),
    ensures
        accounts_root(chain.unwound(reverted, reverted.len())) == chain.block(
            ancestor,
        ).spec_state_root(),
        chain.revertible(chain.unwound(reverted, reverted.len()), ancestor),
{
    lemma_unwound(chain, reverted, ancestor, reverted.len());
}

proof fn lemma_unwound(chain: ChainView, reverted: Seq<Blake2bHash>, ancestor: Blake2bHash, k: nat)
    requires
        chain.heads(),
        chain.main_linked(),
        chain.single(),
        chain.settled(),
        chain.is_reverted(reverted, ancestor),
        chain.number(ancestor) >= chain.macro_number(),
        k <= reverted.len(),
    ensures
        ({
            let at = if k == reverted.len() {
                ancestor
            } else {
                reverted[k as int]
            };
            &&& crate::accounts::live(chain.unwound(reverted, k))
            &&& accounts_root(chain.unwound(reverted, k)) == chain.block(at).spec_state_root()
            &&& chain.revertible(chain.unwound(reverted, k), at)
        }),
    decreases k,
{
    assert(chain.infos.contains_key(chain.head));
    if k > 0 {
        lemma_unwound(chain, reverted, ancestor, (k - 1) as nat);
        let current = reverted[k - 1];
        assert(chain.infos.contains_key(current));
        assert(chain.number(current) == chain.head_number() - (k - 1));
        if k < reverted.len() {
            assert(chain.parent(reverted[k - 1]) == reverted[k as int]);
        }
    }
}

/// What holds after the lowest `k` blocks of the branch of a candidate were
/// applied to the accounts at the block on which the branch hangs.
proof fn lemma_replayed(chain: ChainView, fork: Seq<Blake2bHash>, start: Map<u64, u64>, k: nat)
    requires
        crate::upkeep::branch_ready(chain, fork),
        fork.len() > 0,
        crate::accounts::live(start),
        accounts_root(start) == chain.block(chain.parent(fork.last())).spec_state_root(),
        chain.revertible(start, chain.parent(fork.last())),
        k <= fork.len(),
        chain.replayed(start, fork, k) is Ok,
    ensures
        ({
            let state = chain.replayed(start, fork, k)->Ok_0;
            let top = if k == 0 {
                chain.parent(fork.last())
            } else {
                fork[fork.len() - k]
            };
            let after = ChainView { accounts: state.0, receipts: state.1, ..chain };
            &&& crate::accounts::live(state.0)
            &&& accounts_root(state.0) == chain.block(top).spec_state_root()
            &&& k == 0 || !chain.block(top).spec_is_macro() ==> after.revertible(state.0, top)
            &&& k > 0 && chain.block(top).spec_is_macro() ==> state.1 == Map::<
                u32,
                Seq<u64>,
            >::empty()
            &&& forall|height: u32| #[trigger]
                state.1.contains_key(height) ==> chain.receipts.contains_key(height)
                    || chain.number(chain.parent(fork.last())) < height <= chain.number(fork[0])
        }),
    decreases k,
{
    let ancestor = chain.parent(fork.last());
    if k == 0 {
        crate::upkeep::lemma_revertible_frame(
            chain,
            ChainView { accounts: start, receipts: chain.receipts, ..chain },
            start,
            ancestor,
        );
    } else {
        let j = (k - 1) as nat;
        lemma_replayed(chain, fork, start, j);
        crate::upkeep::lemma_branch_step(chain, fork, j as int);
        let before = chain.replayed(start, fork, j)->Ok_0;
        let state = chain.replayed(start, fork, k)->Ok_0;
        let hash = fork[fork.len() - k];
        let mid = ChainView { accounts: before.0, receipts: before.1, ..chain };
        assert(mid.applied(mid.accounts, mid.receipts, mid.block(hash)) == chain.applied(
            before.0,
            before.1,
            chain.block(hash),
        )) by {
            reveal(ChainView::applied);
        }
        crate::upkeep::lemma_applied_revertible(mid, hash, state.0, state.1);
        assert((ChainView { accounts: state.0, receipts: state.1, ..mid }) == (ChainView {
            accounts: state.0,
            receipts: state.1,
            ..chain
        }));
        assert forall|height: u32| #[trigger] state.1.contains_key(height) implies chain.receipts.contains_key(
            height,
        ) || chain.number(ancestor) < height <= chain.number(fork[0]) by {
            if height != chain.block(hash).spec_block_number() {
                assert(before.1.contains_key(height));
            }
        }
    }
}

/// A push keeps the conditions that hold of a chain: whatever is pushed, the
/// accounts are those that the head commits to afterwards, the last macro
/// block is part of the main chain, and the main chain can be taken back to
/// it.
pub proof fn law_push_keeps_wf(
    pre: ChainView,
    block: Block,
    trusted: bool,
    post: ChainView,
    result: Result<PushResult, PushError>,
)
    requires
        pre.wf(),
        pre.push_post(block, trusted, post, result),
    ensures
        post.wf(),
        accounts_root(post.accounts) == post.block(post.head).spec_state_root(),
{
    assert(pre.infos.contains_key(pre.head));
    assert(pre.infos.contains_key(pre.macro_head));
    if pre.early_verdict(block, trusted) is None {
        let hash = block.spec_hash();
        crate::upkeep::lemma_store_keeps_wf(pre, block);
        pre.policy.lemma_last_macro_block(pre.block(pre.head).spec_block_number());
        match pre.ordering(block) {
            ChainOrdering::Extend => {
                if pre.applied(pre.accounts, pre.receipts, block) is Ok {
                    let state = pre.applied(pre.accounts, pre.receipts, block)->Ok_0;
                    crate::upkeep::lemma_extend_keeps_wf(pre, block, state.0, state.1);
                }
            },
            ChainOrdering::Superior => {
                let mid = pre.stored(block);
                assert(mid.infos.contains_key(hash));
                assert(mid.candidate(hash));
                let fork = choose|fork: Seq<Blake2bHash>|
                    mid.branch_outcome(hash, fork, post, result);
                if !mid.rooted(fork.last()) || !mid.parent_stored(fork.last()) {
                    crate::upkeep::lemma_purge_keeps_wf(mid, fork, fork.len() as int);
                    crate::upkeep::lemma_purge_keeps_wf(mid, fork, 1);
                } else if mid.number(mid.parent(fork.last())) < mid.macro_number() {
                    crate::upkeep::lemma_purge_keeps_wf(mid, fork, 1);
                } else {
                    let ancestor = mid.parent(fork.last());
                    let reverted = choose|reverted: Seq<Blake2bHash>|
                        #[trigger] mid.is_reverted(reverted, ancestor) && mid.switch_post(
                            fork,
                            reverted,
                            ancestor,
                            post,
                            result,
                        );
                    lemma_unwound(mid, reverted, ancestor, reverted.len());
                    crate::upkeep::lemma_candidate_branch(mid, fork);
                    crate::upkeep::lemma_branch_ready(mid, fork);
                    let start = mid.unwound(reverted, reverted.len());
                    match mid.replayed(start, fork, fork.len()) {
                        Ok(state) => {
                            lemma_replayed(mid, fork, start, fork.len());
                            assert forall|height: u32| #[trigger]
                                state.1.contains_key(height) implies mid.macro_number() < height
                                <= mid.number(fork[0]) by {
                                assert(mid.infos.contains_key(ancestor));
                            }
                            crate::upkeep::lemma_rebranch_keeps_wf(
                                mid,
                                fork,
                                reverted,
                                state.0,
                                state.1,
                            );
                        },
                        Err(_) => {
                            let k = choose|k: nat|
                                1 <= k <= fork.len() && mid.replayed(start, fork, (k - 1) as nat) is Ok
                                    && #[trigger] mid.replayed(start, fork, k) is Err && post
                                    == mid.purged(fork, fork.len() - k + 1);
                            crate::upkeep::lemma_purge_keeps_wf(mid, fork, fork.len() - k + 1);
                        },
                    }
                }
            },
            _ => {
                pre.policy.lemma_micro_above_last_macro(
                    pre.block(pre.head).spec_block_number(),
                    block.spec_block_number(),
                );
            },
        }
    }
}

/// Two branches of one block agree as far as both reach.
proof fn lemma_branch_prefix(
    chain: ChainView,
    a: Seq<Blake2bHash>,
    b: Seq<Blake2bHash>,
    tip: Blake2bHash,
    n: int,
)
    requires
        chain.is_branch(a, tip),
        chain.is_branch(b, tip),
        0 <= n <= a.len(),
        n <= b.len(),
    ensures
        forall|i: int| 0 <= i < n ==> a[i] == b[i],
    decreases n,
{
    if n > 1 {
        lemma_branch_prefix(chain, a, b, tip, n - 1);
        assert(chain.parent(a[n - 2]) == a[n - 1]);
        assert(chain.parent(b[n - 2]) == b[n - 1]);
    }
}

/// Whether a branch ends where it is: the parent of its lowest block is not
/// stored one below it, or is part of the main chain.
pub open spec fn branch_ends(chain: ChainView, fork: Seq<Blake2bHash>) -> bool {
    !chain.continues(fork.last())
}

/// A block has one branch only that ends.
pub proof fn law_branch_is_unique(
    chain: ChainView,
    a: Seq<Blake2bHash>,
    b: Seq<Blake2bHash>,
    tip: Blake2bHash,
)
    requires
        chain.is_branch(a, tip),
        chain.is_branch(b, tip),
        branch_ends(chain, a),
        branch_ends(chain, b),
    ensures
        a == b,
{
    if a.len() <= b.len() {
        lemma_branch_prefix(chain, a, b, tip, a.len() as int);
        if a.len() < b.len() {
            let n = a.len() as int;
            assert(chain.parent(b[n - 1]) == b[n]);
            assert(chain.infos.contains_key(b[n]));
            assert(!chain.on_main(b[n]));
            assert(chain.number(b[n]) == chain.number(tip) - n);
            assert(chain.number(a[n - 1]) == chain.number(tip) - (n - 1));
        }
    } else {
        lemma_branch_prefix(chain, a, b, tip, b.len() as int);
        let n = b.len() as int;
        assert(chain.parent(a[n - 1]) == a[n]);
        assert(chain.infos.contains_key(a[n]));
        assert(!chain.on_main(a[n]));
        assert(chain.number(a[n]) == chain.number(tip) - n);
        assert(chain.number(b[n - 1]) == chain.number(tip) - (n - 1));
    }
    assert(a =~= b);
}

proof fn lemma_reverted_prefix(
    chain: ChainView,
    a: Seq<Blake2bHash>,
    b: Seq<Blake2bHash>,
    ancestor: Blake2bHash,
    n: int,
)
    requires
        chain.is_reverted(a, ancestor),
        chain.is_reverted(b, ancestor),
        0 <= n <= a.len(),
    ensures
        a.len() == b.len(),
        forall|i: int| 0 <= i < n ==> a[i] == b[i],
    decreases n,
{
    if n > 1 {
        lemma_reverted_prefix(chain, a, b, ancestor, n - 1);
        assert(chain.parent(a[n - 2]) == a[n - 1]);
        assert(chain.parent(b[n - 2]) == b[n - 1]);
    }
}

/// The main chain has one part only that leads from the head down to a block.
pub proof fn law_reverted_is_unique(
    chain: ChainView,
    a: Seq<Blake2bHash>,
    b: Seq<Blake2bHash>,
    ancestor: Blake2bHash,
)
    requires
        chain.is_reverted(a, ancestor),
        chain.is_reverted(b, ancestor),
    ensures
        a == b,
{
    lemma_reverted_prefix(chain, a, b, ancestor, a.len() as int);
    assert(a =~= b);
}

/// No branch crosses a macro block: a push of a block whose branch is better
/// than the main chain but hangs on the main chain below the last macro
/// block gives an invalid fork and changes nothing.
pub proof fn law_no_branch_crosses_finality(
    pre: ChainView,
    block: Block,
    trusted: bool,
    post: ChainView,
    result: Result<PushResult, PushError>,
    fork: Seq<Blake2bHash>,
)
    requires
        pre.wf(),
        pre.push_post(block, trusted, post, result),
        pre.early_verdict(block, trusted) is None,
        pre.ordering(block) == ChainOrdering::Superior,
        pre.stored(block).is_branch(fork, block.spec_hash()),
        branch_ends(pre.stored(block), fork),
        pre.stored(block).rooted(fork.last()),
        pre.stored(block).number(pre.stored(block).parent(fork.last())) < pre.macro_number(),
    ensures
        result == Err::<PushResult, PushError>(PushError::InvalidFork),
        post == pre,
{
    let mid = pre.stored(block);
    let tip = block.spec_hash();
    assert(pre.infos.contains_key(pre.macro_head));
    let found = choose|found: Seq<Blake2bHash>| mid.branch_outcome(tip, found, post, result);
    law_branch_is_unique(mid, found, fork, tip);
    assert(fork.take(1).to_set() =~= set![tip]) by {
        assert(fork.take(1)[0] == tip);
    }
    assert(post.infos =~= pre.infos);
}

/// A block on a parent of the main chain below the last macro block, above
/// which it would have to be the head, is an invalid fork: the push gives
/// that and changes nothing.
pub proof fn law_block_below_finality_is_invalid_fork(
    pre: ChainView,
    block: Block,
    trusted: bool,
    post: ChainView,
    result: Result<PushResult, PushError>,
)
    requires
        pre.wf(),
        pre.push_post(block, trusted, post, result),
        pre.early_verdict(block, trusted) is None,
        pre.ordering(block) == ChainOrdering::Superior,
        pre.on_main(block.spec_parent_hash()),
        pre.number(block.spec_parent_hash()) < pre.macro_number(),
    ensures
        result == Err::<PushResult, PushError>(PushError::InvalidFork),
        post == pre,
{
    let mid = pre.stored(block);
    let fork = seq![block.spec_hash()];
    assert(mid.infos.contains_key(block.spec_hash()));
    assert(mid.infos.contains_key(block.spec_parent_hash()));
    assert(mid.is_branch(fork, block.spec_hash()));
    assert(fork.last() == block.spec_hash());
    law_no_branch_crosses_finality(pre, block, trusted, post, result, fork);
}

/// A change of the main chain to a branch has one outcome only.
proof fn lemma_switch_is_deterministic(
    chain: ChainView,
    fork: Seq<Blake2bHash>,
    reverted: Seq<Blake2bHash>,
    ancestor: Blake2bHash,
    post1: ChainView,
    result1: Result<PushResult, PushError>,
    post2: ChainView,
    result2: Result<PushResult, PushError>,
)
    requires
        chain.switch_post(fork, reverted, ancestor, post1, result1),
        chain.switch_post(fork, reverted, ancestor, post2, result2),
    ensures
        post1 == post2,
        result1 == result2,
{
    let start = chain.unwound(reverted, reverted.len());
    if chain.replayed(start, fork, fork.len()) is Err {
        let k1 = choose|k: nat|
            1 <= k <= fork.len() && chain.replayed(start, fork, (k - 1) as nat) is Ok
                && #[trigger] chain.replayed(start, fork, k) is Err && post1 == chain.purged(
                fork,
                fork.len() - k + 1,
            );
        let k2 = choose|k: nat|
            1 <= k <= fork.len() && chain.replayed(start, fork, (k - 1) as nat) is Ok
                && #[trigger] chain.replayed(start, fork, k) is Err && post2 == chain.purged(
                fork,
                fork.len() - k + 1,
            );
        if k1 < k2 {
            crate::upkeep::lemma_replayed_fails(chain, start, fork, k1, (k2 - 1) as nat);
        }
        if k2 < k1 {
            crate::upkeep::lemma_replayed_fails(chain, start, fork, k2, (k1 - 1) as nat);
        }
    }
}

/// A push has one outcome only: the chain before it, the block and the trust
/// in its source fix the chain after it and what the push gives.
pub proof fn law_push_is_deterministic(
    pre: ChainView,
    block: Block,
    trusted: bool,
    post1: ChainView,
    result1: Result<PushResult, PushError>,
    post2: ChainView,
    result2: Result<PushResult, PushError>,
)
    requires
        pre.push_post(block, trusted, post1, result1),
        pre.push_post(block, trusted, post2, result2),
    ensures
        post1 == post2,
        result1 == result2,
{
    if pre.early_verdict(block, trusted) is None && pre.ordering(block) == ChainOrdering::Superior {
        let mid = pre.stored(block);
        let tip = block.spec_hash();
        let fork1 = choose|fork: Seq<Blake2bHash>| mid.branch_outcome(tip, fork, post1, result1);
        let fork2 = choose|fork: Seq<Blake2bHash>| mid.branch_outcome(tip, fork, post2, result2);
        law_branch_is_unique(mid, fork1, fork2, tip);
        if mid.rooted(fork1.last()) && mid.parent_stored(fork1.last()) && mid.number(
            mid.parent(fork1.last()),
        ) >= mid.macro_number() {
            let ancestor = mid.parent(fork1.last());
            let reverted1 = choose|reverted: Seq<Blake2bHash>|
                #[trigger] mid.is_reverted(reverted, ancestor) && mid.switch_post(
                    fork1,
                    reverted,
                    ancestor,
                    post1,
                    result1,
                );
            let reverted2 = choose|reverted: Seq<Blake2bHash>|
                #[trigger] mid.is_reverted(reverted, ancestor) && mid.switch_post(
                    fork1,
                    reverted,
                    ancestor,
                    post2,
                    result2,
                );
            law_reverted_is_unique(mid, reverted1, reverted2, ancestor);
            lemma_switch_is_deterministic(
                mid,
                fork1,
                reverted1,
                ancestor,
                post1,
                result1,
                post2,
                result2,
            );
        }
    }
}

} // verus!
