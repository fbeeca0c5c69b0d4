//! Bit sequences and how they pack into bytes, least significant bit first.

use vstd::arithmetic::div_mod::{
    lemma_basic_div, lemma_fundamental_div_mod_converse, lemma_hoist_over_denominator,
};
use vstd::arithmetic::power2::{
    lemma2_to64, lemma_pow2_adds, lemma_pow2_pos, lemma_pow2_strictly_increases,
    lemma_pow2_unfold, pow2,
};
use vstd::prelude::*;

verus! {

/// Bit `i` of the integer `v`, counted from the least significant bit.
/// For a negative `v` these are the bits of its two's complement form.
pub open spec fn bit_of(v: int, i: nat) -> bool {
    (v / (pow2(i) as int)) % 2 == 1
}

/// The lowest `n` bits of `v`, least significant bit first.
pub open spec fn le_bits(v: int, n: nat) -> Seq<bool> {
    Seq::new(n, |i: int| bit_of(v, i as nat))
}

/// `n` copies of the bit `b`.
pub open spec fn repeat_bit(b: bool, n: nat) -> Seq<bool> {
    Seq::new(n, |i: int| b)
}

/// What bit `i` of a byte adds to the byte's value.
pub open spec fn bit_weight(b: bool, i: nat) -> int {
    if b {
        pow2(i) as int
    } else {
        0
    }
}

/// The byte made of the eight bits of `bits` that start at `8 * k`, the first
/// of them being the least significant.
pub open spec fn byte_at(bits: Seq<bool>, k: int) -> int {
    bit_weight(bits[8 * k], 0) + bit_weight(bits[8 * k + 1], 1) + bit_weight(bits[8 * k + 2], 2)
        + bit_weight(bits[8 * k + 3], 3) + bit_weight(bits[8 * k + 4], 4) + bit_weight(
        bits[8 * k + 5],
        5,
    ) + bit_weight(bits[8 * k + 6], 6) + bit_weight(bits[8 * k + 7], 7)
}

/// The whole bytes that `bits` fills; a trailing group of fewer than eight
/// bits is left out.
pub open spec fn packed_bytes(bits: Seq<bool>) -> Seq<u8> {
    Seq::new((bits.len() / 8) as nat, |k: int| byte_at(bits, k) as u8)
}

/// How many zero bits bring a stream of `len` bits to a byte boundary.
pub open spec fn padding(len: nat) -> nat {
    ((8 - len % 8) % 8) as nat
}

/// `bits` followed by zero bits up to the next byte boundary.
pub open spec fn pad_to_byte(bits: Seq<bool>) -> Seq<bool> {
    bits + repeat_bit(false, padding(bits.len()))
}

/// The eight low bits of a byte value pack back into that value.
pub proof fn lemma_packed_byte(v: int)
    requires
        0 <= v < 256,
    ensures
        packed_bytes(le_bits(v, 8)) == seq![v as u8],
{
    lemma2_to64();
    let u = v as u8;
    assert(u % 2 + 2 * ((u / 2) % 2) + 4 * ((u / 4) % 2) + 8 * ((u / 8) % 2) + 16 * ((u / 16) % 2)
        + 32 * ((u / 32) % 2) + 64 * ((u / 64) % 2) + 128 * ((u / 128) % 2) == u) by (bit_vector);
    assert(packed_bytes(le_bits(v, 8)) =~= seq![v as u8]);
}

/// Packing a stream that continues after a byte boundary packs the two parts
/// one after the other.
pub proof fn lemma_packed_concat(a: Seq<bool>, b: Seq<bool>)
    requires
        a.len() % 8 == 0,
    ensures
        packed_bytes(a + b) == packed_bytes(a) + packed_bytes(b),
{
    assert forall|k: int| 0 <= k < packed_bytes(a + b).len() implies packed_bytes(a + b)[k] == (
    packed_bytes(a) + packed_bytes(b))[k] by {
        let j = k - a.len() / 8;
    }
}

/// A value that fits in `n` bits has only zero bits above them.
pub proof fn lemma_le_bits_zero_extend(v: int, n: nat, m: nat)
    requires
        0 <= v < pow2(n),
        n <= m,
    ensures
        le_bits(v, m) == le_bits(v, n) + repeat_bit(false, (m - n) as nat),
{
    assert forall|i: int| n <= i < m implies !(#[trigger] le_bits(v, m)[i]) by {
        if n < i {
            lemma_pow2_strictly_increases(n, i as nat);
        }
        lemma_basic_div(v, pow2(i as nat) as int);
    }
}

/// Adding a multiple of `2^(i+1)` to a number leaves its bit `i` as it was.
pub proof fn lemma_bit_of_shifted(v: int, m: int, i: nat)
    ensures
        bit_of(v + m * pow2(i + 1), i) == bit_of(v, i),
{
    let p = pow2(i) as int;
    lemma_pow2_pos(i);
    lemma_pow2_unfold(i + 1);
    assert(m * pow2(i + 1) == (2 * m) * p) by (nonlinear_arith)
        requires
            pow2(i + 1) == 2 * p,
    ;
    lemma_hoist_over_denominator(v, 2 * m, p as nat);
}

/// From bit 31 upwards, every bit of a 32-bit signed number is its sign.
pub proof fn lemma_bit_of_sign(v: int, i: nat)
    requires
        -0x8000_0000 <= v < 0x8000_0000,
        i >= 31,
    ensures
        bit_of(v, i) == (v < 0),
{
    let p = pow2(i) as int;
    lemma2_to64();
    if i > 31 {
        lemma_pow2_strictly_increases(31, i);
    }
    if v >= 0 {
        lemma_basic_div(v, p);
    } else {
        lemma_fundamental_div_mod_converse(v, p, -1, v + p);
    }
}

/// The biased form of a 32-bit signed number in a field of more than 32 bits:
/// the 32 bits of its two's complement form, then copies of its sign bit, and
/// at the top the inverse of its sign bit.
pub proof fn lemma_bias_bits_wide(v: int, n: nat)
    requires
        -0x8000_0000 <= v < 0x8000_0000,
        n > 32,
    ensures
        le_bits(v + pow2((n - 1) as nat), n) == le_bits(
            if v < 0 {
                v + 0x1_0000_0000
            } else {
                v
            },
            32,
        ) + repeat_bit(v < 0, (n - 33) as nat) + seq![v >= 0],
{
    let top = pow2((n - 1) as nat) as int;
    let biased = v + top;
    let low = if v < 0 {
        v + 0x1_0000_0000
    } else {
        v
    };
    let rhs = le_bits(low, 32) + repeat_bit(v < 0, (n - 33) as nat) + seq![v >= 0];
    lemma2_to64();
    lemma_pow2_strictly_increases(31, (n - 1) as nat);
    assert forall|i: int| 0 <= i < n implies #[trigger] le_bits(biased, n)[i] == rhs[i] by {
        let k = i as nat;
        if i < n - 1 {
            let e = (n - 2 - i) as nat;
            lemma_pow2_adds(k + 1, e);
            assert(top == pow2(e) * pow2(k + 1)) by (nonlinear_arith)
                requires
                    top == pow2(k + 1) * pow2(e),
            ;
            lemma_bit_of_shifted(v, pow2(e) as int, k);
            if i < 32 {
                if v < 0 {
                    let f = (31 - i) as nat;
                    lemma_pow2_adds(k + 1, f);
                    assert(0x1_0000_0000 == pow2(f) * pow2(k + 1)) by (nonlinear_arith)
                        requires
                            pow2(32) == pow2(k + 1) * pow2(f),
                            pow2(32) == 0x1_0000_0000,
                    ;
                    lemma_bit_of_shifted(v, pow2(f) as int, k);
                }
            } else {
                lemma_bit_of_sign(v, k);
            }
        } else {
            if v >= 0 {
                lemma_fundamental_div_mod_converse(biased, top, 1, v);
            } else {
                lemma_fundamental_div_mod_converse(biased, top, 0, biased);
            }
        }
    }
}

/// Padding a stream that continues after a byte boundary pads its second
/// part, and the bytes of the two parts follow one another.
pub proof fn lemma_packed_padded_concat(a: Seq<bool>, b: Seq<bool>)
    requires
        a.len() % 8 == 0,
    ensures
        packed_bytes(pad_to_byte(a + b)) == packed_bytes(a) + packed_bytes(pad_to_byte(b)),
{
}

} // verus!
