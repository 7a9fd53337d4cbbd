//! Bit fields of a 32-bit word.

use vstd::arithmetic::div_mod::{
    lemma_basic_div, lemma_fundamental_div_mod_converse, lemma_mod_breakdown, lemma_small_mod,
};
use vstd::arithmetic::power2::{
    lemma2_to64, lemma_pow2_adds, lemma_pow2_pos, lemma_pow2_strictly_increases, pow2,
};
use vstd::bits::{lemma_u32_low_bits_mask_is_mod, lemma_u32_shl_is_mul, lemma_u32_shr_is_div};
use vstd::prelude::*;

verus! {

/// The number held by the `width` bits of `word` whose least significant bit
/// is bit `low` of `word` (bit 0 being the least significant of all).
pub open spec fn bit_field(word: nat, low: nat, width: nat) -> nat {
    (word / pow2(low)) % pow2(width)
}

/// The bits of `word` below bit `low + width` are the field of `width` bits
/// at `low`, followed by the bits below `low`.
pub proof fn lemma_bit_field_split(word: nat, low: nat, width: nat)
    ensures
        word % pow2(low + width) == bit_field(word, low, width) * pow2(low) + word % pow2(low),
{
    lemma_pow2_pos(low);
    lemma_pow2_pos(width);
    lemma_pow2_adds(low, width);
    lemma_mod_breakdown(word as int, pow2(low) as int, pow2(width) as int);
    assert(pow2(low) * ((word / pow2(low)) % pow2(width)) == ((word / pow2(low)) % pow2(width))
        * pow2(low)) by (nonlinear_arith);
}

/// In a word put together from the bits `lower` below bit `low`, the field
/// `field` of `width` bits at `low`, and the bits `upper` above the field,
/// the field at `low` is `field`.
pub proof fn lemma_bit_field_join(upper: nat, field: nat, lower: nat, low: nat, width: nat)
    requires
        field < pow2(width),
        lower < pow2(low),
    ensures
        bit_field(upper * pow2(low + width) + field * pow2(low) + lower, low, width) == field,
{
    let below = pow2(low);
    let span = pow2(width);
    let word = upper * pow2(low + width) + field * below + lower;
    let above = upper * span + field;
    lemma_pow2_adds(low, width);
    assert(word == above * below + lower) by (nonlinear_arith)
        requires
            word == upper * (below * span) + field * below + lower,
            above == upper * span + field,
    ;
    lemma_fundamental_div_mod_converse(word as int, below as int, above as int, lower as int);
    lemma_fundamental_div_mod_converse(above as int, span as int, upper as int, field as int);
}

/// Cuts a field out of `word`: shifts `word` right by `low` bits and keeps
/// the lowest `width` bits of what is left.
pub fn extract(word: u32, low: u32, width: u32) -> (r: u32)
    ensures
        r == bit_field(word as nat, low as nat, width as nat),
{
    proof {
        lemma2_to64();
        lemma_pow2_pos(width as nat);
    }
    if low >= 32 {
        proof {
            if low > 32 {
                lemma_pow2_strictly_increases(32, low as nat);
            }
            lemma_basic_div(word as int, pow2(low as nat) as int);
            lemma_small_mod(0, pow2(width as nat));
        }
        return 0;
    }
    let shifted: u32 = word >> low;
    proof {
        lemma_u32_shr_is_div(word, low);
    }
    if width >= 32 {
        proof {
            if width > 32 {
                lemma_pow2_strictly_increases(32, width as nat);
            }
            lemma_small_mod(shifted as nat, pow2(width as nat));
        }
        return shifted;
    }
    proof {
        lemma_u32_shl_is_mul(1, width);
        lemma_u32_low_bits_mask_is_mod(shifted, width as nat);
    }
    let mask: u32 = (1u32 << width) - 1;
    shifted & mask
}

/// Shifts `value` left by `low` bits, where no bit is lost by it.
pub(crate) fn place(value: u32, low: u32) -> (r: u32)
    requires
        low < 32,
        value * pow2(low as nat) <= u32::MAX,
    ensures
        r == value * pow2(low as nat),
{
    proof {
        lemma_u32_shl_is_mul(value, low);
    }
    value << low
}

} // verus!
