//! Big integers of 768 bits, as the pairing library holds them.

use crate::hash::{be_bytes_value, u64_from_be_bytes};
use vstd::prelude::*;

verus! {

/// The type `ark_ff::BigInt`: a big integer of `N` limbs. Nothing is known of
/// a value but what the functions below say.
#[verifier::external_type_specification]
#[verifier::external_body]
pub struct ExBigInt<const N: usize>(ark_ff::BigInt<N>);

/// The twelve limbs of a big integer, least significant limb first.
pub uninterp spec fn big_int_limbs(value: ark_ff::BigInt<12>) -> Seq<u64>;

/// Calls `ark_ff::BigInt::<12>::new`: the big integer holds the limbs that
/// it was made of, in their order.
#[verifier::external_body]
fn big_int_new(limbs: [u64; 12]) -> (value: ark_ff::BigInt<12>)
    ensures
        big_int_limbs(value) == limbs@,
{
    ark_ff::BigInt::<12>::new(limbs)
}

/// The limbs that 96 bytes spell, most significant byte first: the last
/// eight bytes spell the first limb.
pub open spec fn limbs_of_bytes_be(bytes: Seq<u8>) -> Seq<u64> {
    Seq::new(12, |i: int| be_bytes_value(bytes.subrange(8 * (11 - i), 8 * (11 - i) + 8)) as u64)
}

/// Reads the limbs that `bytes` spell, most significant byte first.
pub fn limbs_from_bytes_be(bytes: &[u8; 96]) -> (limbs: [u64; 12])
    ensures
        limbs@ == limbs_of_bytes_be(bytes@),
{
    let mut limbs: [u64; 12] = [0u64; 12];
    let slice: &[u8] = bytes.as_slice();
    let mut k: usize = 0;
    while k < 12
        invariant
            k <= 12,
            slice@ == bytes@,
            slice@.len() == 96,
            forall|i: int| 12 - k <= i < 12 ==> limbs@[i] == limbs_of_bytes_be(bytes@)[i],
        decreases 12 - k,
    {
        let word = u64_from_be_bytes(slice, 8 * k);
        proof {
            crate::hash::lemma_be_bytes_value_bound(bytes@.subrange(8 * k as int, 8 * k + 8));
        }
        limbs[11 - k] = word;
        k = k + 1;
    }
    assert(limbs@ =~= limbs_of_bytes_be(bytes@));
    limbs
}

/// Creates a big integer from 96 bytes, most significant byte first.
pub fn big_int_from_bytes_be(bytes: &[u8; 96]) -> (value: ark_ff::BigInt<12>)
    ensures
        big_int_limbs(value) == limbs_of_bytes_be(bytes@),
{
    big_int_new(limbs_from_bytes_be(bytes))
}

} // verus!
