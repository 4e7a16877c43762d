//! 256-bit digests: the identifiers of blocks and transactions, and the
//! commitment to the accounts.

use blake2::Digest;
use vstd::prelude::*;

verus! {

/// A 256-bit digest, held as four words, the first word being the most
/// significant one.
#[derive(Clone, Copy, Debug, PartialEq, Eq, Structural, Hash)]
pub struct Blake2bHash {
    pub w0: u64,
    pub w1: u64,
    pub w2: u64,
    pub w3: u64,
}

/// The number that `bytes` spell, first byte most significant.
pub open spec fn be_bytes_value(bytes: Seq<u8>) -> nat
    decreases bytes.len(),
{
    if bytes.len() == 0 {
        0
    } else {
        be_bytes_value(bytes.drop_last()) * 256 + bytes.last() as nat
    }
}

/// The Blake2b digest, 32 bytes long, of `data`.
pub uninterp spec fn blake2b_256(data: Seq<u8>) -> Seq<u8>;

/// The digest that 32 bytes spell: each group of eight bytes gives one word.
pub open spec fn hash_of_bytes(bytes: Seq<u8>) -> Blake2bHash {
    Blake2bHash {
        w0: be_bytes_value(bytes.subrange(0, 8)) as u64,
        w1: be_bytes_value(bytes.subrange(8, 16)) as u64,
        w2: be_bytes_value(bytes.subrange(16, 24)) as u64,
        w3: be_bytes_value(bytes.subrange(24, 32)) as u64,
    }
}

/// Eight bytes spell a number that fits a word.
pub proof fn lemma_be_bytes_value_bound(bytes: Seq<u8>)
    requires
        bytes.len() <= 8,
    ensures
        be_bytes_value(bytes) < vstd::arithmetic::power::pow(256, bytes.len()),
        be_bytes_value(bytes) <= u64::MAX,
    decreases bytes.len(),
{
    vstd::arithmetic::power::lemma_pow0(256);
    if bytes.len() > 0 {
        lemma_be_bytes_value_bound(bytes.drop_last());
        vstd::arithmetic::power::lemma_pow_adds(256, (bytes.len() - 1) as nat, 1);
        vstd::arithmetic::power::lemma_pow1(256);
    }
    lemma_pow256_values();
}

proof fn lemma_pow256_values()
    ensures
        vstd::arithmetic::power::pow(256, 0) == 1,
        vstd::arithmetic::power::pow(256, 1) == 0x100,
        vstd::arithmetic::power::pow(256, 2) == 0x1_0000,
        vstd::arithmetic::power::pow(256, 3) == 0x100_0000,
        vstd::arithmetic::power::pow(256, 4) == 0x1_0000_0000,
        vstd::arithmetic::power::pow(256, 5) == 0x100_0000_0000,
        vstd::arithmetic::power::pow(256, 6) == 0x1_0000_0000_0000,
        vstd::arithmetic::power::pow(256, 7) == 0x100_0000_0000_0000,
        vstd::arithmetic::power::pow(256, 8) == 0x1_0000_0000_0000_0000,
{
    reveal_with_fuel(vstd::arithmetic::power::pow, 10);
}

/// Reads the word that the eight bytes of `bytes` from `start` on spell, first
/// byte most significant.
pub fn u64_from_be_bytes(bytes: &[u8], start: usize) -> (word: u64)
    requires
        start + 8 <= bytes@.len(),
    ensures
        word == be_bytes_value(bytes@.subrange(start as int, start + 8)),
{
    let mut word: u64 = 0;
    let mut i: usize = 0;
    let len: usize = bytes.len();
    while i < 8
        invariant
            i <= 8,
            len == bytes@.len(),
            start + 8 <= bytes@.len(),
            word == be_bytes_value(bytes@.subrange(start as int, start + i)),
        decreases 8 - i,
    {
        proof {
            let prefix = bytes@.subrange(start as int, start + i);
            let next = bytes@.subrange(start as int, start + i + 1);
            assert(next.drop_last() =~= prefix);
            lemma_be_bytes_value_bound(prefix);
            lemma_be_bytes_value_bound(next);
            lemma_pow256_values();
        }
        word = word * 256 + bytes[start + i] as u64;
        i = i + 1;
    }
    word
}

/// Calls `blake2::Blake2b::<U32>::digest`: the result is the 32-byte Blake2b
/// digest of `data`, a function of `data` alone.
#[verifier::external_body]
fn blake2b_digest(data: &[u8]) -> (digest: [u8; 32])
    ensures
        digest@ == blake2b_256(data@),
{
    blake2::Blake2b::<blake2::digest::consts::U32>::digest(data).into()
}

impl Blake2bHash {
    /// The four words as a tuple, the order of which is the order of the digests.
    pub open spec fn key(self) -> (u64, u64, u64, u64) {
        (self.w0, self.w1, self.w2, self.w3)
    }

    /// The digest with the given words.
    pub open spec fn of_key(key: (u64, u64, u64, u64)) -> Blake2bHash {
        Blake2bHash { w0: key.0, w1: key.1, w2: key.2, w3: key.3 }
    }

    /// Whether `self` comes before `other` when the two are compared word by
    /// word from the most significant word on.
    pub open spec fn lex_lt(self, other: Blake2bHash) -> bool {
        self.w0 < other.w0 || (self.w0 == other.w0 && (self.w1 < other.w1 || (self.w1 == other.w1
            && (self.w2 < other.w2 || (self.w2 == other.w2 && self.w3 < other.w3)))))
    }

    /// The digest with all bits zero.
    pub fn zero() -> (hash: Blake2bHash)
        ensures
            hash == (Blake2bHash { w0: 0, w1: 0, w2: 0, w3: 0 }),
    {
        Blake2bHash { w0: 0, w1: 0, w2: 0, w3: 0 }
    }

    /// The four words as a tuple.
    pub fn words(&self) -> (key: (u64, u64, u64, u64))
        ensures
            key == self.key(),
    {
        (self.w0, self.w1, self.w2, self.w3)
    }

    /// The digest that `bytes` spell.
    pub fn from_bytes(bytes: &[u8; 32]) -> (hash: Blake2bHash)
        ensures
            hash == hash_of_bytes(bytes@),
    {
        let slice: &[u8] = bytes.as_slice();
        Blake2bHash {
            w0: u64_from_be_bytes(slice, 0),
            w1: u64_from_be_bytes(slice, 8),
            w2: u64_from_be_bytes(slice, 16),
            w3: u64_from_be_bytes(slice, 24),
        }
    }

    /// Whether `self` comes before `other` in the order of the digests.
    pub fn precedes(&self, other: &Blake2bHash) -> (before: bool)
        ensures
            before == self.lex_lt(*other),
    {
        if self.w0 != other.w0 {
            self.w0 < other.w0
        } else if self.w1 != other.w1 {
            self.w1 < other.w1
        } else if self.w2 != other.w2 {
            self.w2 < other.w2
        } else {
            self.w3 < other.w3
        }
    }
}

/// The Blake2b digest of `data`.
pub fn blake2b(data: &[u8]) -> (hash: Blake2bHash)
    ensures
        hash == hash_of_bytes(blake2b_256(data@)),
{
    let digest = blake2b_digest(data);
    Blake2bHash::from_bytes(&digest)
}

/// The order of the digests never puts a digest before itself, and of two
/// different digests it puts exactly one before the other.
pub proof fn law_digest_order_is_total(a: Blake2bHash, b: Blake2bHash)
    ensures
        !a.lex_lt(a),
        a != b ==> (a.lex_lt(b) != b.lex_lt(a)),
        a.lex_lt(b) ==> !b.lex_lt(a),
{
}

} // verus!
