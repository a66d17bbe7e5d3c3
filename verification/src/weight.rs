//! Ownership weights: powers of two that handles hold of a slot's counter.

use vstd::prelude::*;
use vstd::arithmetic::power2::{pow2, lemma2_to64_rest, lemma_pow2_strictly_increases};

verus! {

/// Largest exponent a handle can carry: the one handed out with a fresh slot.
pub const MAX_WEIGHT_EXP: u8 = 63;

/// Total weight of an occupied slot, `2^MAX_WEIGHT_EXP`.
pub const MAX_WEIGHT: u64 = 0x8000_0000_0000_0000;

/// The weight that belongs to exponent `exp`, `2^exp`.
pub fn two_two_the(exp: u8) -> (weight: u64)
    requires
        exp <= MAX_WEIGHT_EXP,
    ensures
        weight == pow2(exp as nat),
        0 < weight <= MAX_WEIGHT,
{
    proof {
        lemma_shift_is_pow2(exp);
    }
    1u64 << exp
}

/// Shifting one to the left by `exp` places gives `2^exp`, which stays within the total weight.
pub proof fn lemma_shift_is_pow2(exp: u8)
    requires
        exp <= MAX_WEIGHT_EXP,
    ensures
        (1u64 << exp) == pow2(exp as nat),
        0 < pow2(exp as nat) <= MAX_WEIGHT,
{
    let e: u64 = exp as u64;
    assert(1u64 << exp == 1u64 << e) by (bit_vector)
        requires
            e == exp,
    ;
    vstd::bits::lemma_u64_pow2_no_overflow(e as nat);
    vstd::bits::lemma_u64_shl_is_mul(1, e);
    lemma2_to64_rest();
    if exp < 63 {
        lemma_pow2_strictly_increases(exp as nat, 63);
    }
}

} // verus!
