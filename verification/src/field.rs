//! Numbers in fields of a fixed bit width, unsigned or biased.

use crate::error::{EncodeError, Field};
use vstd::arithmetic::power2::{
    lemma2_to64, lemma2_to64_rest, lemma_pow2_strictly_increases, lemma_pow2_unfold, pow2,
};
use vstd::bits::lemma_u64_shl_is_mul;
use vstd::prelude::*;

verus! {

/// Whether `v` can be written as an unsigned number of `bits` bits.
pub open spec fn fits_unsigned(v: int, bits: nat) -> bool {
    0 <= v < pow2(bits)
}

/// Whether `v` lies in the signed range of a field of `bits` bits, which is
/// `-2^(bits-1) ..= 2^(bits-1) - 1`. No number lies in a field of no bits.
pub open spec fn fits_signed(v: int, bits: nat) -> bool {
    bits >= 1 && -pow2((bits - 1) as nat) <= v < pow2((bits - 1) as nat)
}

/// The unsigned number that stands for the signed `v` in a field of `bits`
/// bits: `v` plus half the field's range.
pub open spec fn bias(v: int, bits: nat) -> int {
    v + pow2((bits - 1) as nat)
}

/// The signed number that the unsigned `u` stands for in a field of `bits`
/// bits.
pub open spec fn debias(u: int, bits: nat) -> int {
    u - pow2((bits - 1) as nat)
}

/// The error for a `value` that `field`, of `bits` bits, cannot hold.
pub open spec fn overflow(field: Field, value: int, bits: u8) -> EncodeError {
    EncodeError::FieldOverflow { field, value: value as i128, bits }
}

/// Biasing a number of the signed range gives a number of the unsigned range,
/// and removing the bias gives the number back.
pub proof fn lemma_bias_round_trip(v: int, bits: nat)
    requires
        fits_signed(v, bits),
    ensures
        fits_unsigned(bias(v, bits), bits),
        debias(bias(v, bits), bits) == v,
{
    lemma_pow2_unfold(bits);
}

/// Two to the power `k`.
pub(crate) fn pow2_u64(k: u8) -> (r: u64)
    requires
        k < 64,
    ensures
        r == pow2(k as nat),
{
    proof {
        if k < 63 {
            lemma_pow2_strictly_increases(k as nat, 63);
        }
        lemma2_to64_rest();
        lemma_u64_shl_is_mul(1, k as u64);
    }
    1u64 << (k as u64)
}

/// Whether `value` fits in an unsigned field of `bits` bits.
pub fn check_unsigned(value: u32, bits: u8) -> (ok: bool)
    ensures
        ok == fits_unsigned(value as int, bits as nat),
{
    if bits >= 32 {
        proof {
            lemma2_to64();
            if bits > 32 {
                lemma_pow2_strictly_increases(32, bits as nat);
            }
        }
        true
    } else {
        (value as u64) < pow2_u64(bits)
    }
}

/// Whether `value` lies in the signed range of a field of `bits` bits.
pub fn check_signed(value: i32, bits: u8) -> (ok: bool)
    ensures
        ok == fits_signed(value as int, bits as nat),
{
    if bits == 0 {
        false
    } else if bits > 32 {
        proof {
            lemma2_to64();
            lemma_pow2_strictly_increases(31, (bits - 1) as nat);
        }
        true
    } else {
        let half: u64 = pow2_u64(bits - 1);
        proof {
            lemma2_to64();
        }
        -(half as i64) <= value as i64 && (value as i64) < half as i64
    }
}

/// The biased form of `value` for a field of at most 32 bits.
pub(crate) fn bias_value(value: i32, bits: u8) -> (r: u32)
    requires
        bits <= 32,
        fits_signed(value as int, bits as nat),
    ensures
        r == bias(value as int, bits as nat),
        fits_unsigned(r as int, bits as nat),
{
    let half: u64 = pow2_u64(bits - 1);
    proof {
        lemma2_to64();
    }
    (value as i64 + half as i64) as u32
}

} // verus!
