//! Why [`nearest_representable`] deserves its name.
//!
//! A natural number is *short* when it is `m * 2^e` with `m` below `2^24`:
//! these are the naturals that a 24-bit significand can hold. The lemmas here
//! show that rounding returns a short number, keeps short numbers, never
//! reorders two numbers, and that no short number lies nearer to the input
//! than the result.

use vstd::prelude::*;
use vstd::arithmetic::power2::{
    pow2,
    lemma_pow2_adds,
    lemma_pow2_pos,
    lemma_pow2_strictly_increases,
    lemma_pow2_unfold,
    lemma2_to64,
};
use vstd::arithmetic::div_mod::{
    lemma_div_is_ordered,
    lemma_fundamental_div_mod,
    lemma_fundamental_div_mod_converse,
    lemma_mod_bound,
    lemma_mod_multiples_basic,
};
use crate::rounding::{
    excess_bits,
    lemma_nearest_representable_scales,
    lemma_small_is_representable,
    nearest_multiple,
    nearest_representable,
    SIGNIFICAND_LIMIT,
};

verus! {

/// The distance between two naturals.
pub open spec fn distance(a: nat, b: nat) -> nat {
    if a <= b {
        (b - a) as nat
    } else {
        (a - b) as nat
    }
}

/// A number of `excess_bits(u)` excess bits lies below `2^(24 + excess)`,
/// and from `2^(23 + excess)` on when there is any excess.
pub proof fn lemma_excess_bits_bounds(u: nat)
    ensures
        u < pow2(24 + excess_bits(u)),
        excess_bits(u) > 0 ==> pow2(23 + excess_bits(u)) <= u,
    decreases u,
{
    lemma2_to64();
    if u >= SIGNIFICAND_LIMIT {
        let inner = excess_bits(u / 2);
        lemma_excess_bits_bounds(u / 2);
        lemma_pow2_unfold(24 + inner + 1);
        lemma_pow2_unfold(23 + inner + 1);
    }
}

/// A larger number has at least as many excess bits.
pub proof fn lemma_excess_bits_monotone(u: nat, v: nat)
    requires
        u <= v,
    ensures
        excess_bits(u) <= excess_bits(v),
{
    lemma_excess_bits_bounds(u);
    lemma_excess_bits_bounds(v);
    if excess_bits(u) > excess_bits(v) {
        if 24 + excess_bits(v) < 23 + excess_bits(u) {
            lemma_pow2_strictly_increases(24 + excess_bits(v), 23 + excess_bits(u));
        }
    }
}

/// The nearest multiple is the multiple just below or just above, and lies
/// within half a unit of the number.
pub proof fn lemma_nearest_multiple_is_adjacent(u: nat, unit: nat)
    requires
        unit > 0,
    ensures
        nearest_multiple(u, unit) == (u / unit) * unit || nearest_multiple(u, unit) == (u / unit
            + 1) * unit,
        (u / unit) * unit <= u < (u / unit + 1) * unit,
        2 * distance(nearest_multiple(u, unit), u) <= unit,
        nearest_multiple(u, unit) % unit == 0,
{
    let quotient = u / unit;
    let remainder = u % unit;
    lemma_fundamental_div_mod(u as int, unit as int);
    lemma_mod_bound(u as int, unit as int);
    assert(unit * quotient == quotient * unit) by (nonlinear_arith);
    assert((quotient + 1) * unit == quotient * unit + unit) by (nonlinear_arith);
    lemma_mod_multiples_basic(quotient as int, unit as int);
    lemma_mod_multiples_basic((quotient + 1) as int, unit as int);
}

/// For a fixed unit, the nearest multiple never reorders two numbers.
pub proof fn lemma_nearest_multiple_monotone(u: nat, v: nat, unit: nat)
    requires
        unit > 0,
        u <= v,
    ensures
        nearest_multiple(u, unit) <= nearest_multiple(v, unit),
{
    lemma_nearest_multiple_is_adjacent(u, unit);
    lemma_nearest_multiple_is_adjacent(v, unit);
    lemma_div_is_ordered(u as int, v as int, unit as int);
    let low = u / unit;
    let high = v / unit;
    if low < high {
        assert((low + 1) * unit <= high * unit) by (nonlinear_arith)
            requires
                low + 1 <= high,
                unit > 0,
        ;
    } else {
        lemma_fundamental_div_mod(u as int, unit as int);
        lemma_fundamental_div_mod(v as int, unit as int);
    }
}

/// Rounding never reorders two numbers.
pub proof fn lemma_nearest_representable_monotone(u: nat, v: nat)
    requires
        u <= v,
    ensures
        nearest_representable(u) <= nearest_representable(v),
{
    let low_bits = excess_bits(u);
    let high_bits = excess_bits(v);
    lemma_excess_bits_monotone(u, v);
    lemma_pow2_pos(low_bits);
    lemma_pow2_pos(high_bits);
    if low_bits == high_bits {
        lemma_nearest_multiple_monotone(u, v, pow2(low_bits));
    } else {
        // The result for `u` stays within its binade, at or below
        // `2^(24 + low_bits)`; the result for `v` starts at `2^(23 + high_bits)`.
        let low_unit = pow2(low_bits);
        let high_unit = pow2(high_bits);
        let border = pow2(24 + low_bits);
        lemma2_to64();
        lemma_excess_bits_bounds(u);
        lemma_excess_bits_bounds(v);
        lemma_pow2_adds(24, low_bits);
        lemma_nearest_multiple_is_adjacent(u, low_unit);
        lemma_nearest_multiple_is_adjacent(v, high_unit);
        assert(u / low_unit + 1 <= 0x100_0000) by {
            if u / low_unit >= 0x100_0000 {
                assert((u / low_unit) * low_unit >= 0x100_0000 * low_unit) by (nonlinear_arith)
                    requires
                        u / low_unit >= 0x100_0000,
                        low_unit > 0,
                ;
            }
        }
        assert((u / low_unit + 1) * low_unit <= 0x100_0000 * low_unit) by (nonlinear_arith)
            requires
                u / low_unit + 1 <= 0x100_0000,
                low_unit > 0,
        ;
        assert(nearest_representable(u) <= border);
        if 24 + low_bits < 23 + high_bits {
            lemma_pow2_strictly_increases(24 + low_bits, 23 + high_bits);
        }
        assert(border <= pow2(23 + high_bits));
        // The multiple just below `v` starts the binade of `v`.
        lemma_pow2_adds(23, high_bits);
        assert(v / high_unit >= 0x80_0000) by {
            if v / high_unit < 0x80_0000 {
                assert((v / high_unit + 1) * high_unit <= 0x80_0000 * high_unit)
                    by (nonlinear_arith)
                    requires
                        v / high_unit + 1 <= 0x80_0000,
                        high_unit > 0,
                ;
            }
        }
        assert((v / high_unit) * high_unit >= 0x80_0000 * high_unit) by (nonlinear_arith)
            requires
                v / high_unit >= 0x80_0000,
                high_unit > 0,
        ;
    }
}

/// A short number, `significand * 2^exponent` with the significand below
/// `2^24`, is kept by rounding.
pub proof fn lemma_short_is_kept(significand: nat, exponent: nat)
    requires
        significand < SIGNIFICAND_LIMIT,
    ensures
        nearest_representable(significand * pow2(exponent)) == significand * pow2(exponent),
{
    lemma_nearest_representable_scales(significand, exponent);
    lemma_small_is_representable(significand);
}

/// A short number from `2^(23 + bits)` on is a multiple of `2^bits`.
pub proof fn lemma_short_in_binade_is_multiple(significand: nat, exponent: nat, bits: nat)
    requires
        significand < SIGNIFICAND_LIMIT,
        significand * pow2(exponent) >= pow2(23 + bits),
    ensures
        (significand * pow2(exponent)) % pow2(bits) == 0,
{
    lemma_pow2_pos(bits);
    lemma_pow2_pos(exponent);
    if exponent >= bits {
        let rest = pow2((exponent - bits) as nat);
        lemma_pow2_adds((exponent - bits) as nat, bits);
        assert(significand * (rest * pow2(bits)) == (significand * rest) * pow2(bits))
            by (nonlinear_arith);
        lemma_mod_multiples_basic((significand * rest) as int, pow2(bits) as int);
    } else {
        lemma2_to64();
        lemma_pow2_adds(24, exponent);
        assert(significand * pow2(exponent) < 0x100_0000 * pow2(exponent)) by (nonlinear_arith)
            requires
                significand < 0x100_0000,
                pow2(exponent) > 0,
        ;
        if 24 + exponent < 23 + bits {
            lemma_pow2_strictly_increases(24 + exponent, 23 + bits);
        }
    }
}

/// The result of rounding is short: a significand of at most `2^24` times
/// the power of two of the excess bits.
pub proof fn lemma_result_is_short(u: nat)
    ensures
        nearest_representable(u) % pow2(excess_bits(u)) == 0,
        nearest_representable(u) / pow2(excess_bits(u)) <= SIGNIFICAND_LIMIT,
{
    let unit = pow2(excess_bits(u));
    let quotient = u / unit;
    lemma_pow2_pos(excess_bits(u));
    lemma_nearest_multiple_is_adjacent(u, unit);
    lemma_excess_bits_bounds(u);
    lemma2_to64();
    lemma_pow2_adds(24, excess_bits(u));
    assert(quotient < 0x100_0000) by {
        if quotient >= 0x100_0000 {
            assert(quotient * unit >= 0x100_0000 * unit) by (nonlinear_arith)
                requires
                    quotient >= 0x100_0000,
                    unit > 0,
            ;
        }
    }
    lemma_fundamental_div_mod_converse((quotient * unit) as int, unit as int, quotient as int, 0);
    lemma_fundamental_div_mod_converse(
        ((quotient + 1) * unit) as int,
        unit as int,
        (quotient + 1) as int,
        0,
    );
}

/// A number exactly halfway between two multiples of its unit goes to the
/// one with the even significand.
pub proof fn lemma_tie_goes_to_even(u: nat)
    requires
        2 * (u % pow2(excess_bits(u))) == pow2(excess_bits(u)),
    ensures
        (nearest_representable(u) / pow2(excess_bits(u))) % 2 == 0,
{
    let unit = pow2(excess_bits(u));
    let quotient = u / unit;
    lemma_pow2_pos(excess_bits(u));
    lemma_fundamental_div_mod_converse((quotient * unit) as int, unit as int, quotient as int, 0);
    lemma_fundamental_div_mod_converse(
        ((quotient + 1) * unit) as int,
        unit as int,
        (quotient + 1) as int,
        0,
    );
}

/// No short number lies nearer to `u` than the result of rounding `u`.
pub proof fn lemma_nearest_representable_is_nearest(u: nat, significand: nat, exponent: nat)
    requires
        significand < SIGNIFICAND_LIMIT,
    ensures
        distance(nearest_representable(u), u) <= distance(significand * pow2(exponent), u),
{
    let bits = excess_bits(u);
    let unit = pow2(bits);
    let quotient = u / unit;
    let other = significand * pow2(exponent);
    lemma_pow2_pos(bits);
    lemma_nearest_multiple_is_adjacent(u, unit);
    // No short number lies strictly between the two multiples around `u`.
    if quotient * unit < other < (quotient + 1) * unit {
        if bits == 0 {
            lemma2_to64();
            assert(quotient * 1 == quotient) by (nonlinear_arith);
            assert((quotient + 1) * 1 == quotient + 1) by (nonlinear_arith);
        } else {
            lemma_excess_bits_bounds(u);
            lemma2_to64();
            lemma_pow2_adds(23, bits);
            assert(quotient >= 0x80_0000) by {
                if quotient < 0x80_0000 {
                    assert((quotient + 1) * unit <= 0x80_0000 * unit) by (nonlinear_arith)
                        requires
                            quotient + 1 <= 0x80_0000,
                            unit > 0,
                    ;
                }
            }
            assert(quotient * unit >= 0x80_0000 * unit) by (nonlinear_arith)
                requires
                    quotient >= 0x80_0000,
                    unit > 0,
            ;
            lemma_short_in_binade_is_multiple(significand, exponent, bits);
            lemma_fundamental_div_mod(other as int, unit as int);
            let multiple = other / unit;
            assert(unit * multiple == multiple * unit) by (nonlinear_arith);
            assert(quotient < multiple < quotient + 1) by (nonlinear_arith)
                requires
                    quotient * unit < multiple * unit < (quotient + 1) * unit,
                    unit > 0,
            ;
        }
    }
    let below = quotient * unit;
    let above = (quotient + 1) * unit;
    let rounded = nearest_representable(u);
    assert(rounded == below || rounded == above);
    assert(other <= below || other >= above);
    assert(below <= u < above);
    assert(2 * distance(rounded, u) <= unit);
    assert(above == below + unit) by (nonlinear_arith)
        requires
            above == (quotient + 1) * unit,
            below == quotient * unit,
    ;
}

} // verus!
