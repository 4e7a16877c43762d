//! The commitments of a header besides the state root: to the history of
//! transactions, and to the validators that an election block names.

use crate::accounts::{be_bytes_of_u64, push_u64_be};
use crate::block::Transaction;
use crate::hash::{blake2b, blake2b_256, hash_of_bytes, Blake2bHash};
use vstd::prelude::*;

verus! {

/// The 32 bytes of a digest, most significant byte first.
pub open spec fn be_bytes_of_hash(hash: Blake2bHash) -> Seq<u8> {
    be_bytes_of_u64(hash.w0) + be_bytes_of_u64(hash.w1) + be_bytes_of_u64(hash.w2)
        + be_bytes_of_u64(hash.w3)
}

/// The digests of the transactions, one after the other.
pub open spec fn encode_tx_hashes(txs: Seq<Transaction>) -> Seq<u8>
    decreases txs.len(),
{
    if txs.len() == 0 {
        Seq::empty()
    } else {
        encode_tx_hashes(txs.drop_last()) + be_bytes_of_hash(txs.last().hash)
    }
}

/// The keys, one after the other, each as eight bytes.
pub open spec fn encode_keys(keys: Seq<u64>) -> Seq<u8>
    decreases keys.len(),
{
    if keys.len() == 0 {
        Seq::empty()
    } else {
        encode_keys(keys.drop_last()) + be_bytes_of_u64(keys.last())
    }
}

/// The history root after a block with the transactions `txs`, where the
/// history root of its parent is `parent_root`: a block without transactions
/// leaves the history as it is; another one commits to the history before it
/// and to its transactions in their order.
#[verifier::opaque]
pub open spec fn history_root_after(parent_root: Blake2bHash, txs: Seq<Transaction>) -> Blake2bHash {
    if txs.len() == 0 {
        parent_root
    } else {
        hash_of_bytes(blake2b_256(be_bytes_of_hash(parent_root) + encode_tx_hashes(txs)))
    }
}

/// The commitment to the validators with the keys `keys`, in their order.
#[verifier::opaque]
pub open spec fn pk_tree_root_of(keys: Seq<u64>) -> Blake2bHash {
    hash_of_bytes(blake2b_256(encode_keys(keys)))
}

/// Adds to `out` the 32 bytes of `hash`.
pub fn push_hash_be(out: &mut Vec<u8>, hash: &Blake2bHash)
    ensures
        final(out)@ == old(out)@ + be_bytes_of_hash(*hash),
{
    push_u64_be(out, hash.w0);
    push_u64_be(out, hash.w1);
    push_u64_be(out, hash.w2);
    push_u64_be(out, hash.w3);
    assert(out@ =~= old(out)@ + be_bytes_of_hash(*hash));
}

/// The history root after a block with the transactions `txs`, where the
/// history root of its parent is `parent_root`.
pub fn history_root(parent_root: &Blake2bHash, txs: &Vec<Transaction>) -> (root: Blake2bHash)
    ensures
        root == history_root_after(*parent_root, txs@),
{
    proof {
        reveal(history_root_after);
    }
    if txs.len() == 0 {
        return *parent_root;
    }
    let mut bytes: Vec<u8> = Vec::new();
    push_hash_be(&mut bytes, parent_root);
    let mut i: usize = 0;
    assert(bytes@ =~= be_bytes_of_hash(*parent_root) + encode_tx_hashes(txs@.take(0)));
    while i < txs.len()
        invariant
            i <= txs@.len(),
            bytes@ == be_bytes_of_hash(*parent_root) + encode_tx_hashes(txs@.take(i as int)),
        decreases txs@.len() - i,
    {
        let ghost before = bytes@;
        push_hash_be(&mut bytes, &txs[i].hash);
        proof {
            assert(txs@.take(i + 1).drop_last() =~= txs@.take(i as int));
            assert(bytes@ =~= be_bytes_of_hash(*parent_root) + encode_tx_hashes(
                txs@.take(i + 1),
            ));
        }
        i = i + 1;
    }
    assert(txs@.take(i as int) =~= txs@);
    blake2b(bytes.as_slice())
}

/// The commitment to the validators with the keys `keys`, in their order.
pub fn pk_tree_root(keys: &Vec<u64>) -> (root: Blake2bHash)
    ensures
        root == pk_tree_root_of(keys@),
{
    proof {
        reveal(pk_tree_root_of);
    }
    let mut bytes: Vec<u8> = Vec::new();
    let mut i: usize = 0;
    while i < keys.len()
        invariant
            i <= keys@.len(),
            bytes@ == encode_keys(keys@.take(i as int)),
        decreases keys@.len() - i,
    {
        push_u64_be(&mut bytes, keys[i]);
        proof {
            assert(keys@.take(i + 1).drop_last() =~= keys@.take(i as int));
        }
        i = i + 1;
    }
    assert(keys@.take(i as int) =~= keys@);
    blake2b(bytes.as_slice())
}

} // verus!
