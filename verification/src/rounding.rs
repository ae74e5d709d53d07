//! Rounding of natural numbers to the precision of a binary32 significand.
//!
//! A binary32 value carries 24 significant bits. A natural number that needs
//! more bits is replaced by the nearest number that fits, and a number
//! halfway between two candidates goes to the one whose 24-bit significand is
//! even. Everything here works on naturals; signs and exponents are handled
//! by the callers.

use vstd::prelude::*;
use vstd::arithmetic::div_mod::{
    lemma_div_denominator,
    lemma_div_multiples_vanish_quotient,
    lemma_fundamental_div_mod,
    lemma_truncate_middle,
};
use vstd::arithmetic::power2::{pow2, lemma_pow2_pos, lemma_pow2_unfold, lemma2_to64};

verus! {

/// The first natural number that no longer fits in 24 bits.
pub const SIGNIFICAND_LIMIT: u128 = 0x100_0000;

/// How many low bits of `u` do not fit in a 24-bit significand:
/// zero below `2^24`, otherwise the bit length of `u` minus 24.
pub open spec fn excess_bits(u: nat) -> nat
    decreases u,
{
    if u < SIGNIFICAND_LIMIT {
        0
    } else {
        1 + excess_bits(u / 2)
    }
}

/// The multiple of `unit` nearest to `u`. When `u` lies exactly halfway
/// between two multiples, the even multiple is taken.
pub open spec fn nearest_multiple(u: nat, unit: nat) -> nat
    recommends
        unit > 0,
{
    let quotient = u / unit;
    let remainder = u % unit;
    if 2 * remainder < unit || (2 * remainder == unit && quotient % 2 == 0) {
        quotient * unit
    } else {
        (quotient + 1) * unit
    }
}

/// The number with at most 24 significant bits nearest to `u`, ties going to
/// the even significand.
pub open spec fn nearest_representable(u: nat) -> nat {
    nearest_multiple(u, pow2(excess_bits(u)))
}

/// Scaling the number and the unit by the same factor scales the nearest multiple.
pub proof fn lemma_nearest_multiple_scales(u: nat, unit: nat, factor: nat)
    requires
        unit > 0,
        factor > 0,
    ensures
        nearest_multiple(u * factor, unit * factor) == nearest_multiple(u, unit) * factor,
{
    let quotient = u / unit;
    let remainder = u % unit;
    assert(unit * factor > 0) by (nonlinear_arith)
        requires
            unit > 0,
            factor > 0,
    ;
    assert((u * factor) / (unit * factor) == quotient) by {
        lemma_div_multiples_vanish_quotient(factor as int, u as int, unit as int);
        assert(factor * unit == unit * factor) by (nonlinear_arith);
    }
    assert((u * factor) % (unit * factor) == remainder * factor) by {
        lemma_truncate_middle(u as int, factor as int, unit as int);
        assert(factor * unit == unit * factor) by (nonlinear_arith);
    }
    assert((2 * (remainder * factor) < unit * factor) == (2 * remainder < unit))
        by (nonlinear_arith)
        requires
            factor > 0,
    ;
    assert((2 * (remainder * factor) == unit * factor) == (2 * remainder == unit))
        by (nonlinear_arith)
        requires
            factor > 0,
    ;
    assert(quotient * (unit * factor) == (quotient * unit) * factor) by (nonlinear_arith);
    assert((quotient + 1) * (unit * factor) == ((quotient + 1) * unit) * factor)
        by (nonlinear_arith);
}

/// A number below `2^24` is its own nearest representable number.
pub proof fn lemma_small_is_representable(u: nat)
    requires
        u < SIGNIFICAND_LIMIT,
    ensures
        nearest_representable(u) == u,
{
    lemma2_to64();
}

/// Doubling a number doubles its nearest representable number.
pub proof fn lemma_nearest_representable_doubles(u: nat)
    ensures
        nearest_representable(2 * u) == 2 * nearest_representable(u),
{
    if 2 * u < SIGNIFICAND_LIMIT {
        lemma_small_is_representable(u);
        lemma_small_is_representable(2 * u);
    } else {
        let bits = excess_bits(u);
        lemma_pow2_unfold(1 + bits);
        lemma_pow2_pos(bits);
        lemma_nearest_multiple_scales(u, pow2(bits), 2);
    }
}

/// Multiplying a number by a power of two multiplies its nearest
/// representable number by the same power.
pub proof fn lemma_nearest_representable_scales(u: nat, shift: nat)
    ensures
        nearest_representable(u * pow2(shift)) == nearest_representable(u) * pow2(shift),
    decreases shift,
{
    if shift == 0 {
        lemma2_to64();
    } else {
        let lower = pow2((shift - 1) as nat);
        lemma_pow2_unfold(shift);
        lemma_nearest_representable_scales(u, (shift - 1) as nat);
        lemma_nearest_representable_doubles(u * lower);
        assert(u * (2 * lower) == 2 * (u * lower)) by (nonlinear_arith);
        assert(nearest_representable(u) * (2 * lower) == 2 * (nearest_representable(u) * lower))
            by (nonlinear_arith);
    }
}

/// Rounds `x` to 24 significant bits, ties to the even significand.
pub fn round_to_significand(x: u128) -> (rounded: u128)
    requires
        x <= u128::MAX / 2,
    ensures
        rounded == nearest_representable(x as nat),
        rounded <= 2 * x,
{
    let mut unit: u128 = 1;
    let mut quotient: u128 = x;
    let ghost mut bits: nat = 0;
    proof {
        lemma2_to64();
    }
    while quotient >= SIGNIFICAND_LIMIT
        invariant
            unit == pow2(bits),
            unit > 0,
            quotient == x / unit,
            excess_bits(x as nat) == bits + excess_bits(quotient as nat),
            x <= u128::MAX / 2,
        decreases quotient,
    {
        proof {
            lemma_div_denominator(x as int, unit as int, 2);
            lemma_fundamental_div_mod(x as int, unit as int);
            assert(unit * quotient >= unit * 2) by (nonlinear_arith)
                requires
                    quotient >= 2,
                    unit > 0,
            ;
            lemma_pow2_unfold(bits + 1);
            bits = bits + 1;
        }
        quotient = quotient / 2;
        unit = unit * 2;
    }
    proof {
        lemma_fundamental_div_mod(x as int, unit as int);
    }
    let remainder: u128 = x % unit;
    let below: u128 = quotient * unit;
    if 2 * remainder < unit || (2 * remainder == unit && quotient % 2 == 0) {
        below
    } else {
        proof {
            assert((quotient + 1) * unit == quotient * unit + unit) by (nonlinear_arith);
        }
        below + unit
    }
}

} // verus!
