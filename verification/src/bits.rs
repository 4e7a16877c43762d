//! Conversions between bytes and sequences of bits.

use vstd::arithmetic::power2::{lemma2_to64, pow2};
use vstd::prelude::*;
use vstd::slice::slice_subrange;

verus! {

/// The bit of weight `2^j` in `byte`.
pub open spec fn byte_bit(byte: u8, j: nat) -> bool {
    (byte as nat / pow2(j)) % 2 == 1
}

/// The bits of `bytes`, each byte giving eight bits, highest weight first.
pub open spec fn bits_of_bytes(bytes: Seq<u8>) -> Seq<bool> {
    Seq::new(8 * bytes.len(), |i: int| byte_bit(bytes[i / 8], (7 - i % 8) as nat))
}

/// The eight bits of `byte`, lowest weight first.
pub open spec fn le_bits_of_byte(byte: u8) -> Seq<bool> {
    Seq::new(8, |i: int| byte_bit(byte, i as nat))
}

/// The number whose binary digits are `bits`, lowest weight first.
pub open spec fn le_bits_value(bits: Seq<bool>) -> nat
    decreases bits.len(),
{
    if bits.len() == 0 {
        0
    } else {
        le_bits_value(bits.drop_last()) + if bits.last() {
            pow2((bits.len() - 1) as nat)
        } else {
            0
        }
    }
}

/// The number whose binary digits are `bits`, highest weight first.
pub open spec fn be_bits_value(bits: Seq<bool>) -> nat {
    le_bits_value(bits.reverse())
}

/// The bytes that `bits` spell when each group of eight holds one byte, lowest
/// weight first, and the groups are written out last group first.
pub open spec fn be_bytes_of_le_bits(bits: Seq<bool>) -> Seq<u8> {
    let n = bits.len() / 8;
    Seq::new(n, |k: int| le_bits_value(bits.subrange((n - 1 - k) * 8, (n - k) * 8)) as u8)
}

/// A number written with `n` binary digits is below `2^n`.
pub proof fn lemma_le_bits_value_bound(bits: Seq<bool>)
    ensures
        le_bits_value(bits) < pow2(bits.len()),
    decreases bits.len(),
{
    if bits.len() == 0 {
        lemma2_to64();
    } else {
        lemma_le_bits_value_bound(bits.drop_last());
        vstd::arithmetic::power2::lemma_pow2_unfold(bits.len());
    }
}

proof fn lemma_shift_is_bit(byte: u8, j: u8)
    requires
        j < 8,
    ensures
        ((byte >> j) & 1 == 1) == byte_bit(byte, j as nat),
{
    lemma2_to64();
    assert(((byte >> j) & 1 == 1) == ((byte / (1u8 << j)) % 2 == 1)) by (bit_vector)
        requires
            j < 8,
    ;
    assert((j == 0 ==> (1u8 << j) == 1) && (j == 1 ==> (1u8 << j) == 2) && (j == 2 ==> (1u8 << j)
        == 4) && (j == 3 ==> (1u8 << j) == 8) && (j == 4 ==> (1u8 << j) == 16) && (j == 5 ==> (1u8
        << j) == 32) && (j == 6 ==> (1u8 << j) == 64) && (j == 7 ==> (1u8 << j) == 128))
        by (bit_vector);
}

/// Transforms bytes into bits, keeping the order of the bytes and writing each
/// byte highest bit first.
pub fn bytes_to_bits(bytes: &[u8]) -> (bits: Vec<bool>)
    requires
        8 * bytes@.len() <= usize::MAX,
    ensures
        bits@ == bits_of_bytes(bytes@),
{
    let mut bits: Vec<bool> = Vec::new();
    let mut i: usize = 0;
    while i < bytes.len()
        invariant
            i <= bytes@.len(),
            bits@.len() == 8 * i,
            forall|k: int| 0 <= k < bits@.len() ==> bits@[k] == bits_of_bytes(bytes@)[k],
        decreases bytes@.len() - i,
    {
        let byte: u8 = bytes[i];
        let mut j: u8 = 8;
        while j > 0
            invariant
                j <= 8,
                i < bytes@.len(),
                byte == bytes@[i as int],
                bits@.len() == 8 * i + (8 - j),
                forall|k: int| 0 <= k < bits@.len() ==> bits@[k] == bits_of_bytes(bytes@)[k],
            decreases j,
        {
            j = j - 1;
            proof {
                lemma_shift_is_bit(byte, j);
            }
            bits.push((byte >> j) & 1 == 1);
        }
        i = i + 1;
    }
    assert(bits@ =~= bits_of_bytes(bytes@));
    bits
}

/// Transforms at most eight bits, lowest weight first, into the byte they spell.
pub fn byte_from_le_bits(bits: &[bool]) -> (byte: u8)
    requires
        bits@.len() <= 8,
    ensures
        byte == le_bits_value(bits@),
{
    let mut byte: u8 = 0;
    let mut base: u8 = 1;
    let mut i: usize = 0;
    proof {
        lemma2_to64();
    }
    while i < bits.len()
        invariant
            i <= bits@.len() <= 8,
            i < 8 ==> base == pow2(i as nat),
            byte == le_bits_value(bits@.take(i as int)),
        decreases bits@.len() - i,
    {
        proof {
            lemma2_to64();
            lemma_le_bits_value_bound(bits@.take(i as int));
            assert(bits@.take(i + 1).drop_last() =~= bits@.take(i as int));
            vstd::arithmetic::power2::lemma_pow2_unfold((i + 1) as nat);
        }
        if bits[i] {
            byte = byte + base;
        }
        base = base.wrapping_mul(2);
        i = i + 1;
    }
    assert(bits@.take(i as int) =~= bits@);
    byte
}

/// Transforms at most eight bits, highest weight first, into the byte they spell.
pub fn byte_from_be_bits(bits: &[bool]) -> (byte: u8)
    requires
        bits@.len() <= 8,
    ensures
        byte == be_bits_value(bits@),
{
    let mut byte: u8 = 0;
    let mut base: u8 = 1;
    let mut i: usize = 0;
    let n: usize = bits.len();
    proof {
        lemma2_to64();
    }
    while i < n
        invariant
            n == bits@.len(),
            i <= n <= 8,
            i < 8 ==> base == pow2(i as nat),
            byte == le_bits_value(bits@.reverse().take(i as int)),
        decreases n - i,
    {
        proof {
            lemma2_to64();
            lemma_le_bits_value_bound(bits@.reverse().take(i as int));
            assert(bits@.reverse().take(i + 1).drop_last() =~= bits@.reverse().take(i as int));
            vstd::arithmetic::power2::lemma_pow2_unfold((i + 1) as nat);
        }
        if bits[n - 1 - i] {
            byte = byte + base;
        }
        base = base.wrapping_mul(2);
        i = i + 1;
    }
    assert(bits@.reverse().take(i as int) =~= bits@.reverse());
    byte
}

/// Transforms a byte into its eight bits, lowest weight first.
pub fn byte_to_le_bits(byte: u8) -> (bits: Vec<bool>)
    ensures
        bits@ == le_bits_of_byte(byte),
{
    let mut bits: Vec<bool> = Vec::new();
    let mut rest: u8 = byte;
    let mut i: u8 = 0;
    proof {
        lemma2_to64();
    }
    while i < 8
        invariant
            i <= 8,
            bits@.len() == i,
            rest as nat == byte as nat / pow2(i as nat),
            forall|k: int| 0 <= k < i ==> bits@[k] == byte_bit(byte, k as nat),
        decreases 8 - i,
    {
        proof {
            lemma2_to64();
            vstd::arithmetic::power2::lemma_pow2_unfold((i + 1) as nat);
            vstd::arithmetic::power2::lemma_pow2_pos(i as nat);
            vstd::arithmetic::div_mod::lemma_div_denominator(
                byte as int,
                pow2(i as nat) as int,
                2,
            );
            assert(rest >> 1 == rest / 2) by (bit_vector);
        }
        bits.push(rest % 2 != 0);
        rest = rest >> 1;
        i = i + 1;
    }
    assert(bits@ =~= le_bits_of_byte(byte));
    bits
}

/// Transforms bits, lowest weight first, into bytes, highest byte first: the
/// last eight bits give the first byte.
pub fn bytes_be_from_le_bits(bits: &[bool]) -> (bytes: Vec<u8>)
    requires
        bits@.len() % 8 == 0,
    ensures
        bytes@ == be_bytes_of_le_bits(bits@),
{
    let n: usize = bits.len() / 8;
    let mut bytes: Vec<u8> = Vec::new();
    let mut k: usize = 0;
    while k < n
        invariant
            n == bits@.len() / 8,
            n * 8 == bits@.len(),
            bits@.len() <= usize::MAX,
            bits@.len() % 8 == 0,
            k <= n,
            bytes@.len() == k,
            forall|q: int| 0 <= q < k ==> bytes@[q] == be_bytes_of_le_bits(bits@)[q],
        decreases n - k,
    {
        let start: usize = (n - 1 - k) * 8;
        let chunk = slice_subrange(bits, start, start + 8);
        proof {
            lemma_le_bits_value_bound(chunk@);
            lemma2_to64();
        }
        bytes.push(byte_from_le_bits(chunk));
        k = k + 1;
    }
    assert(bytes@ =~= be_bytes_of_le_bits(bits@));
    bytes
}

/// Writing a byte as bits and reading the bits back gives the byte again.
pub proof fn law_le_bits_round_trip(byte: u8)
    ensures
        le_bits_value(le_bits_of_byte(byte)) == byte,
{
    lemma2_to64();
    let bits = le_bits_of_byte(byte);
    lemma_le_prefix_value(byte, 8);
    assert(bits.take(8) =~= bits);
}

proof fn lemma_le_prefix_value(byte: u8, n: nat)
    requires
        n <= 8,
    ensures
        le_bits_value(le_bits_of_byte(byte).take(n as int)) == byte as nat % pow2(n),
    decreases n,
{
    lemma2_to64();
    let bits = le_bits_of_byte(byte);
    if n == 0 {
    } else {
        lemma_le_prefix_value(byte, (n - 1) as nat);
        assert(bits.take(n as int).drop_last() =~= bits.take(n - 1));
        let p = pow2((n - 1) as nat);
        vstd::arithmetic::power2::lemma_pow2_unfold(n);
        vstd::arithmetic::power2::lemma_pow2_pos((n - 1) as nat);
        let b = byte as int;
        let p = p as int;
        let m = (b / p) % 2;
        let q = (b / p) / 2;
        let r = m * p + b % p;
        vstd::arithmetic::div_mod::lemma_fundamental_div_mod(b, p);
        vstd::arithmetic::div_mod::lemma_mod_bound(b, p);
        assert(b == (2 * p) * q + r && 0 <= r < 2 * p) by (nonlinear_arith)
            requires
                b == p * (b / p) + b % p,
                b / p == 2 * q + m,
                0 <= m < 2,
                0 <= b % p < p,
                r == m * p + b % p,
        ;
        vstd::arithmetic::div_mod::lemma_fundamental_div_mod_converse(b, 2 * p, q, r);
        assert(m * p == if m == 1 { p } else { 0 }) by (nonlinear_arith)
            requires
                0 <= m < 2,
        ;
    }
}

proof fn lemma_value_of_eight(group: Seq<bool>)
    requires
        group.len() == 8,
    ensures
        le_bits_value(group) == (if group[0] { 1nat } else { 0 }) + (if group[1] { 2nat } else { 0 })
            + (if group[2] { 4nat } else { 0 }) + (if group[3] { 8nat } else { 0 }) + (if group[4] {
            16nat
        } else {
            0
        }) + (if group[5] { 32nat } else { 0 }) + (if group[6] { 64nat } else { 0 }) + (
        if group[7] { 128nat } else { 0 }),
{
    lemma2_to64();
    let g7 = group.drop_last();
    let g6 = g7.drop_last();
    let g5 = g6.drop_last();
    let g4 = g5.drop_last();
    let g3 = g4.drop_last();
    let g2 = g3.drop_last();
    let g1 = g2.drop_last();
    let g0 = g1.drop_last();
    assert(le_bits_value(g0) == 0);
    assert(le_bits_value(g1) == le_bits_value(g0) + if g1.last() { pow2(0) } else { 0 });
    assert(le_bits_value(g2) == le_bits_value(g1) + if g2.last() { pow2(1) } else { 0 });
    assert(le_bits_value(g3) == le_bits_value(g2) + if g3.last() { pow2(2) } else { 0 });
    assert(le_bits_value(g4) == le_bits_value(g3) + if g4.last() { pow2(3) } else { 0 });
    assert(le_bits_value(g5) == le_bits_value(g4) + if g5.last() { pow2(4) } else { 0 });
    assert(le_bits_value(g6) == le_bits_value(g5) + if g6.last() { pow2(5) } else { 0 });
    assert(le_bits_value(g7) == le_bits_value(g6) + if g7.last() { pow2(6) } else { 0 });
    assert(le_bits_value(group) == le_bits_value(g7) + if group.last() { pow2(7) } else { 0 });
    assert(g1.last() == group[0] && g2.last() == group[1] && g3.last() == group[2] && g4.last()
        == group[3] && g5.last() == group[4] && g6.last() == group[5] && g7.last() == group[6]);
}

/// Each bit of the byte that eight bits spell, lowest weight first, is the
/// bit at its place.
#[verifier::rlimit(30)]
pub proof fn lemma_bit_of_le_value(group: Seq<bool>, place: nat)
    requires
        group.len() == 8,
        place < 8,
    ensures
        le_bits_value(group) < 256,
        byte_bit(le_bits_value(group) as u8, place) == group[place as int],
{
    lemma2_to64();
    lemma_value_of_eight(group);
    let value = le_bits_value(group);
    let low = (if group[0] { 1nat } else { 0 }) + (if group[1] { 2nat } else { 0 }) + (
    if group[2] { 4nat } else { 0 }) + (if group[3] { 8nat } else { 0 });
    let high = (if group[4] { 1nat } else { 0 }) + (if group[5] { 2nat } else { 0 }) + (
    if group[6] { 4nat } else { 0 }) + (if group[7] { 8nat } else { 0 });
    assert(value == low + 16 * high);
    assert(low < 16 && high < 16);
    if place == 0 {
        assert((value / 1) % 2 == (if group[0] { 1nat } else { 0 }));
    } else if place == 1 {
        assert((value / 2) % 2 == (if group[1] { 1nat } else { 0 }));
    } else if place == 2 {
        assert((value / 4) % 2 == (if group[2] { 1nat } else { 0 }));
    } else if place == 3 {
        assert((value / 8) % 2 == (if group[3] { 1nat } else { 0 }));
    } else if place == 4 {
        assert((value / 16) % 2 == (if group[4] { 1nat } else { 0 }));
    } else if place == 5 {
        assert((value / 32) % 2 == (if group[5] { 1nat } else { 0 }));
    } else if place == 6 {
        assert((value / 64) % 2 == (if group[6] { 1nat } else { 0 }));
    } else {
        assert((value / 128) % 2 == (if group[7] { 1nat } else { 0 }));
    }
}

/// Writing bits as bytes, last group first, and the bytes as bits again,
/// highest bit first, gives the bits in reverse.
pub proof fn law_bytes_and_bits_undo_each_other(bits: Seq<bool>)
    requires
        bits.len() % 8 == 0,
    ensures
        bits_of_bytes(be_bytes_of_le_bits(bits)) == bits.reverse(),
{
    let bytes = be_bytes_of_le_bits(bits);
    let n = (bits.len() / 8) as int;
    assert(bytes.len() == n);
    assert(8 * n == bits.len());
    let back = bits_of_bytes(bytes);
    assert(back.len() == bits.len());
    assert forall|i: int| 0 <= i < back.len() implies back[i] == bits.reverse()[i] by {
        let k = i / 8;
        let place = (7 - i % 8) as nat;
        let group = bits.subrange((n - 1 - k) * 8, (n - k) * 8);
        lemma_bit_of_le_value(group, place);
        assert(bytes[k] == le_bits_value(group) as u8);
        assert(group[place as int] == bits[(n - 1 - k) * 8 + place]);
        assert((n - 1 - k) * 8 + place == bits.len() - 1 - i);
    }
    assert(back =~= bits.reverse());
}

} // verus!
