//! The rules that fix which heights hold macro and election blocks, and the
//! other parameters on which all nodes of one network agree.

use vstd::arithmetic::div_mod::{
    lemma_div_is_ordered, lemma_fundamental_div_mod, lemma_fundamental_div_mod_converse,
    lemma_mod_bound, lemma_mod_multiples_basic,
};
use vstd::prelude::*;

verus! {

/// How many epochs the chain store keeps below the current one.
pub const MAX_EPOCHS_STORED: u32 = 1;

/// The parameters of a network.
#[derive(Clone, Copy, Debug, PartialEq, Eq, Structural)]
pub struct Policy {
    /// The number of blocks in a batch; the last one is a macro block.
    pub batch_length: u32,
    /// The number of batches in an epoch; the last block of an epoch is an
    /// election block.
    pub batches_per_epoch: u32,
    /// The block version that the network runs.
    pub version: u16,
    /// For how many blocks a transaction may be included after the height
    /// from which it is valid, and for how many blocks it is remembered.
    pub transaction_validity_window: u32,
    /// How far, in milliseconds, a block's timestamp may lie ahead of the clock.
    pub timestamp_max_drift: u64,
    /// The time, in milliseconds, after which a skip block replaces a block
    /// that did not come.
    pub block_producer_timeout: u64,
    /// The number of votes that a macro block or a skip block needs.
    pub two_f_plus_one: u16,
    /// The most that a slash burns of a validator's balance.
    pub slash_penalty: u64,
    /// What each validator of an epoch receives when the epoch is finalized.
    pub epoch_reward: u64,
}

impl Policy {
    /// The parameters are usable: batches and epochs are not empty, and the
    /// length of an epoch fits the type of a block number.
    pub open spec fn wf(self) -> bool {
        &&& self.batch_length >= 1
        &&& self.batches_per_epoch >= 1
        &&& self.batch_length * self.batches_per_epoch <= u32::MAX
    }

    /// The number of blocks in an epoch.
    pub open spec fn spec_epoch_length(self) -> int {
        self.batch_length * self.batches_per_epoch
    }

    /// The height of the last macro block at or below `block_number`.
    pub open spec fn spec_last_macro_block(self, block_number: u32) -> int {
        (block_number as int / self.batch_length as int) * self.batch_length
    }

    /// Whether the block at `block_number` is a macro block.
    pub open spec fn spec_is_macro_block_at(self, block_number: u32) -> bool {
        block_number as int % self.batch_length as int == 0
    }

    /// Whether the block at `block_number` is an election block.
    pub open spec fn spec_is_election_block_at(self, block_number: u32) -> bool {
        block_number as int % self.spec_epoch_length() == 0
    }

    /// The epoch that the block at `block_number` belongs to: the genesis
    /// block alone forms epoch 0, and each election block ends its epoch.
    pub open spec fn spec_epoch_at(self, block_number: u32) -> int {
        let length = self.spec_epoch_length();
        if block_number as int % length == 0 {
            block_number as int / length
        } else {
            block_number as int / length + 1
        }
    }

    /// The number of blocks in an epoch.
    pub fn epoch_length(&self) -> (length: u32)
        requires
            self.wf(),
        ensures
            length == self.spec_epoch_length(),
            length >= 1,
    {
        proof {
            assert(self.batch_length * self.batches_per_epoch >= 1) by (nonlinear_arith)
                requires
                    self.batch_length >= 1,
                    self.batches_per_epoch >= 1,
            ;
        }
        self.batch_length * self.batches_per_epoch
    }

    /// The height of the last macro block at or below `block_number`.
    pub fn last_macro_block(&self, block_number: u32) -> (height: u32)
        requires
            self.wf(),
        ensures
            height == self.spec_last_macro_block(block_number),
    {
        proof {
            self.lemma_last_macro_block(block_number);
        }
        block_number / self.batch_length * self.batch_length
    }

    /// Whether the block at `block_number` is a macro block.
    pub fn is_macro_block_at(&self, block_number: u32) -> (is_macro: bool)
        requires
            self.wf(),
        ensures
            is_macro == self.spec_is_macro_block_at(block_number),
    {
        block_number % self.batch_length == 0
    }

    /// Whether the block at `block_number` is an election block.
    pub fn is_election_block_at(&self, block_number: u32) -> (is_election: bool)
        requires
            self.wf(),
        ensures
            is_election == self.spec_is_election_block_at(block_number),
    {
        block_number % self.epoch_length() == 0
    }

    /// The epoch that the block at `block_number` belongs to.
    pub fn epoch_at(&self, block_number: u32) -> (epoch: u32)
        requires
            self.wf(),
        ensures
            epoch == self.spec_epoch_at(block_number),
    {
        let length = self.epoch_length();
        proof {
            lemma_fundamental_div_mod(block_number as int, length as int);
            lemma_mod_bound(block_number as int, length as int);
            assert(block_number as int % (length as int) != 0 ==> block_number as int / (
            length as int) < u32::MAX) by (nonlinear_arith)
                requires
                    block_number as int == (length as int) * (block_number as int / (
                    length as int)) + block_number as int % (length as int),
                    0 <= block_number as int % (length as int),
                    length >= 1,
                    block_number <= u32::MAX,
            ;
        }
        if block_number % length == 0 {
            block_number / length
        } else {
            block_number / length + 1
        }
    }

    /// The last macro block at or below a height is a macro block, lies less
    /// than a batch below the height, and no macro block lies between the two.
    pub proof fn lemma_last_macro_block(self, block_number: u32)
        requires
            self.wf(),
        ensures
            0 <= self.spec_last_macro_block(block_number) <= block_number,
            block_number - self.spec_last_macro_block(block_number) < self.batch_length,
            self.spec_is_macro_block_at(self.spec_last_macro_block(block_number) as u32),
            self.spec_is_macro_block_at(block_number) <==> self.spec_last_macro_block(block_number)
                == block_number,
            block_number as int / self.batch_length as int <= u32::MAX,
    {
        let n = block_number as int;
        let b = self.batch_length as int;
        lemma_fundamental_div_mod(n, b);
        lemma_mod_bound(n, b);
        assert(b * (n / b) == (n / b) * b) by (nonlinear_arith);
        lemma_mod_multiples_basic(n / b, b);
        assert(0 <= n / b <= n) by (nonlinear_arith)
            requires
                n == b * (n / b) + n % b,
                0 <= n % b < b,
                b >= 1,
                n >= 0,
        ;
    }

    /// Every height above the last macro block of `head`, up to `head`, holds
    /// a micro block.
    pub proof fn lemma_micro_above_last_macro(self, head: u32, block_number: u32)
        requires
            self.wf(),
            self.spec_last_macro_block(head) < block_number <= head,
        ensures
            !self.spec_is_macro_block_at(block_number),
            self.spec_last_macro_block(block_number) == self.spec_last_macro_block(head),
    {
        let n = head as int;
        let k = block_number as int;
        let b = self.batch_length as int;
        self.lemma_last_macro_block(head);
        let q = n / b;
        lemma_fundamental_div_mod(n, b);
        lemma_mod_bound(n, b);
        assert(q * b == b * q) by (nonlinear_arith);
        let r = k - q * b;
        assert(0 < r < b);
        lemma_fundamental_div_mod_converse(k, b, q, r);
    }

    /// The last macro block below a height that holds a micro block is the
    /// last macro block of the height before.
    pub proof fn lemma_last_macro_block_after_micro(self, block_number: u32)
        requires
            self.wf(),
            block_number >= 1,
            !self.spec_is_macro_block_at(block_number),
        ensures
            self.spec_last_macro_block(block_number) == self.spec_last_macro_block(
                (block_number - 1) as u32,
            ),
    {
        self.lemma_last_macro_block(block_number);
        self.lemma_last_macro_block((block_number - 1) as u32);
        if self.spec_last_macro_block(block_number) < block_number - 1 {
            self.lemma_micro_above_last_macro(block_number, (block_number - 1) as u32);
        }
    }

    /// A macro block with no macro block between it and a height above it is
    /// the last macro block of that height.
    pub proof fn lemma_last_macro_block_is(self, macro_number: u32, block_number: u32)
        requires
            self.wf(),
            macro_number <= block_number,
            self.spec_is_macro_block_at(macro_number),
            forall|between: u32|
                macro_number < between <= block_number ==> !#[trigger] self.spec_is_macro_block_at(
                    between,
                ),
        ensures
            self.spec_last_macro_block(block_number) == macro_number,
    {
        self.lemma_last_macro_block(block_number);
        self.lemma_last_macro_block(macro_number);
        self.lemma_last_macro_block_monotone(macro_number, block_number);
        let last = self.spec_last_macro_block(block_number) as u32;
        if last > macro_number {
            assert(!self.spec_is_macro_block_at(last));
        }
    }

    /// The last macro block does not move down when the height moves up.
    pub proof fn lemma_last_macro_block_monotone(self, low: u32, high: u32)
        requires
            self.wf(),
            low <= high,
        ensures
            self.spec_last_macro_block(low) <= self.spec_last_macro_block(high),
    {
        let b = self.batch_length as int;
        lemma_div_is_ordered(low as int, high as int, b);
        assert((low as int / b) * b <= (high as int / b) * b) by (nonlinear_arith)
            requires
                low as int / b <= high as int / b,
                b >= 1,
        ;
    }

    /// An election block is a macro block.
    pub proof fn lemma_election_is_macro(self, block_number: u32)
        requires
            self.wf(),
            self.spec_is_election_block_at(block_number),
        ensures
            self.spec_is_macro_block_at(block_number),
    {
        let n = block_number as int;
        let b = self.batch_length as int;
        let e = self.spec_epoch_length();
        assert(e >= 1) by (nonlinear_arith)
            requires
                e == b * self.batches_per_epoch as int,
                b >= 1,
                self.batches_per_epoch >= 1,
        ;
        lemma_fundamental_div_mod(n, e);
        let q = n / e;
        assert(n == (q * self.batches_per_epoch as int) * b) by (nonlinear_arith)
            requires
                n == e * q,
                e == b * self.batches_per_epoch as int,
        ;
        lemma_mod_multiples_basic(q * self.batches_per_epoch as int, b);
    }

    /// The epoch does not move down when the height moves up.
    pub proof fn lemma_epoch_at_monotone(self, low: u32, high: u32)
        requires
            self.wf(),
            low <= high,
        ensures
            0 <= self.spec_epoch_at(low) <= self.spec_epoch_at(high),
    {
        let e = self.spec_epoch_length();
        let lo = low as int;
        let hi = high as int;
        assert(e >= 1) by (nonlinear_arith)
            requires
                e == self.batch_length as int * self.batches_per_epoch as int,
                self.batch_length >= 1,
                self.batches_per_epoch >= 1,
        ;
        lemma_fundamental_div_mod(lo, e);
        lemma_fundamental_div_mod(hi, e);
        lemma_mod_bound(lo, e);
        lemma_mod_bound(hi, e);
        lemma_div_is_ordered(lo, hi, e);
        lemma_div_is_ordered(0, lo, e);
        if lo / e == hi / e && lo % e != 0 {
            assert(hi % e != 0);
        }
    }

    /// An election block above the genesis block ends an epoch that is not
    /// the first one, and only lower blocks belong to earlier epochs.
    pub proof fn lemma_earlier_epoch_is_lower(self, election: u32, block_number: u32)
        requires
            self.wf(),
            self.spec_epoch_at(block_number) < self.spec_epoch_at(election),
        ensures
            block_number < election,
    {
        if block_number >= election {
            self.lemma_epoch_at_monotone(election, block_number);
        }
    }

    /// The heights of the blocks of `epoch`: the lowest and the highest one.
    /// Where the lowest is above the highest, the epoch has no block.
    pub fn epoch_bounds(&self, epoch: u32) -> (bounds: (u32, u32))
        requires
            self.wf(),
        ensures
            forall|block_number: u32|
                #![trigger self.spec_epoch_at(block_number)]
                self.spec_epoch_at(block_number) == epoch <==> bounds.0 <= block_number
                    <= bounds.1,
    {
        let length: u64 = self.epoch_length() as u64;
        if epoch == 0 {
            proof {
                assert forall|block_number: u32|
                    #![trigger self.spec_epoch_at(block_number)]
                    self.spec_epoch_at(block_number) == 0 <==> block_number == 0 by {
                    self.lemma_epoch_members(block_number);
                }
            }
            return (0, 0);
        }
        assert((epoch - 1) * length <= 0xffff_ffff * 0xffff_ffff) by (nonlinear_arith)
            requires
                0 <= epoch - 1 <= 0xffff_ffff,
                0 <= length <= 0xffff_ffff,
        ;
        assert(epoch * length <= 0xffff_ffff * 0xffff_ffff) by (nonlinear_arith)
            requires
                0 <= epoch <= 0xffff_ffff,
                0 <= length <= 0xffff_ffff,
        ;
        let below: u64 = (epoch as u64 - 1) * length;
        let top: u64 = epoch as u64 * length;
        proof {
            assert(top == below + length) by (nonlinear_arith)
                requires
                    below == (epoch - 1) * length,
                    top == epoch * length,
            ;
            assert forall|block_number: u32|
                #![trigger self.spec_epoch_at(block_number)]
                self.spec_epoch_at(block_number) == epoch <==> below < block_number <= top by {
                self.lemma_epoch_members(block_number);
                let e = self.spec_epoch_at(block_number);
                assert(e * length == (e - 1) * length + length) by (nonlinear_arith);
                if e < epoch {
                    assert(e * length <= (epoch - 1) * length) by (nonlinear_arith)
                        requires
                            e <= epoch - 1,
                            length >= 0,
                    ;
                }
                if e > epoch {
                    assert((e - 1) * length >= epoch * length) by (nonlinear_arith)
                        requires
                            e - 1 >= epoch,
                            length >= 0,
                    ;
                }
            }
        }
        if below >= 0xffff_ffff {
            (1, 0)
        } else if top >= 0xffff_ffff {
            ((below + 1) as u32, 0xffff_ffff)
        } else {
            ((below + 1) as u32, top as u32)
        }
    }

    /// A block belongs to the epoch whose election block is the first one at
    /// or above it.
    pub proof fn lemma_epoch_members(self, block_number: u32)
        requires
            self.wf(),
        ensures
            self.spec_epoch_at(block_number) >= 0,
            (self.spec_epoch_at(block_number) - 1) * self.spec_epoch_length() < block_number
                <= self.spec_epoch_at(block_number) * self.spec_epoch_length() || (block_number
                == 0 && self.spec_epoch_at(block_number) == 0),
            block_number == 0 <==> self.spec_epoch_at(block_number) == 0,
    {
        let n = block_number as int;
        let e = self.spec_epoch_length();
        assert(e >= 1) by (nonlinear_arith)
            requires
                e == self.batch_length as int * self.batches_per_epoch as int,
                self.batch_length >= 1,
                self.batches_per_epoch >= 1,
        ;
        lemma_fundamental_div_mod(n, e);
        lemma_mod_bound(n, e);
        lemma_div_is_ordered(0, n, e);
        let q = n / e;
        assert(q >= 0);
        assert(e * q == q * e && (q + 1) * e == q * e + e && (q - 1) * e == q * e - e)
            by (nonlinear_arith);
        if q == 0 {
            assert(e * q == 0) by (nonlinear_arith)
                requires
                    q == 0,
            ;
        }
    }
}

} // verus!
