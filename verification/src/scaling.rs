//! Whole parts of numbers given as a significand and a power of two.

use vstd::prelude::*;
use vstd::arithmetic::div_mod::{
    lemma_basic_div,
    lemma_div_by_multiple,
    lemma_div_multiples_vanish_quotient,
};
use vstd::arithmetic::power2::{
    pow2,
    lemma_pow2_adds,
    lemma_pow2_pos,
    lemma_pow2_strictly_increases,
    lemma_pow2_unfold,
    lemma2_to64,
    lemma2_to64_rest,
};

verus! {

/// The cap on whole parts: `2^15`, the magnitude of the least sixteen-bit
/// signed integer. A larger whole part is clamped whatever its sign.
pub const WHOLE_CAP: u128 = 0x8000;

/// `2^exponent` as a machine integer.
pub fn power_of_two(exponent: u32) -> (power: u128)
    requires
        exponent <= 126,
    ensures
        power == pow2(exponent as nat),
{
    let mut power: u128 = 1;
    let mut done: u32 = 0;
    proof {
        lemma2_to64();
        lemma2_to64_rest();
        lemma_pow2_adds(63, 63);
    }
    while done < exponent
        invariant
            done <= exponent <= 126,
            power == pow2(done as nat),
            pow2(126) == 0x4000_0000_0000_0000_0000_0000_0000_0000,
        decreases exponent - done,
    {
        proof {
            lemma_pow2_unfold((done + 1) as nat);
            if done + 1 < 126 {
                lemma_pow2_strictly_increases((done + 1) as nat, 126);
            }
        }
        power = power * 2;
        done = done + 1;
    }
    power
}

/// The whole part of `significand * 2^scale / 2^point`, capped at `2^15`.
pub open spec fn capped_whole_part(significand: nat, scale: nat, point: nat) -> nat {
    let whole = significand * pow2(scale) / pow2(point);
    if whole >= WHOLE_CAP {
        WHOLE_CAP as nat
    } else {
        whole
    }
}

/// Computes the whole part of `significand * 2^scale / 2^point`, capped at `2^15`.
pub fn whole_part(significand: u128, scale: u32, point: u32) -> (whole: u128)
    requires
        significand < 0x8000_0000_0000_0000_0000_0000_0000_0000,
    ensures
        whole == capped_whole_part(significand as nat, scale as nat, point as nat),
{
    proof {
        lemma2_to64();
        lemma_pow2_pos(scale as nat);
        lemma_pow2_pos(point as nat);
    }
    if scale >= point {
        let up: u32 = scale - point;
        proof {
            let number = significand as nat;
            let power = pow2(up as nat);
            let divisor = pow2(point as nat);
            lemma_pow2_adds(up as nat, point as nat);
            lemma_pow2_pos(up as nat);
            assert(number * (power * divisor) == (number * power) * divisor) by (nonlinear_arith);
            lemma_div_by_multiple((number * power) as int, divisor as int);
            assert(number * pow2(scale as nat) / divisor == number * power);
        }
        if significand == 0 {
            proof {
                assert(0 * pow2(up as nat) == 0) by (nonlinear_arith);
            }
            0
        } else if up >= 16 || significand >= WHOLE_CAP {
            proof {
                if up > 16 {
                    lemma_pow2_strictly_increases(16, up as nat);
                }
                let power = pow2(up as nat);
                assert(significand * power >= WHOLE_CAP) by (nonlinear_arith)
                    requires
                        significand >= 1,
                        power >= 1,
                        significand >= WHOLE_CAP || power >= 0x10000,
                ;
            }
            WHOLE_CAP
        } else {
            let power: u128 = power_of_two(up);
            proof {
                if up < 15 {
                    lemma_pow2_strictly_increases(up as nat, 15);
                }
                assert(significand * power <= 0x8000 * 0x8000) by (nonlinear_arith)
                    requires
                        significand <= 0x8000,
                        power <= 0x8000,
                ;
            }
            let whole: u128 = significand * power;
            if whole >= WHOLE_CAP {
                WHOLE_CAP
            } else {
                whole
            }
        }
    } else {
        let down: u32 = point - scale;
        proof {
            let number = significand as nat;
            let power = pow2(scale as nat);
            let divisor = pow2(down as nat);
            lemma_pow2_adds(down as nat, scale as nat);
            lemma_pow2_pos(down as nat);
            lemma_div_multiples_vanish_quotient(power as int, number as int, divisor as int);
            assert(power * number == number * power) by (nonlinear_arith);
            assert(power * divisor == divisor * power) by (nonlinear_arith);
            assert(number * power / pow2(point as nat) == number / divisor);
        }
        if down >= 127 {
            proof {
                lemma2_to64_rest();
                lemma_pow2_adds(63, 64);
                if down > 127 {
                    lemma_pow2_strictly_increases(127, down as nat);
                }
                lemma_basic_div(significand as int, pow2(down as nat) as int);
            }
            0
        } else {
            let whole: u128 = significand / power_of_two(down);
            if whole >= WHOLE_CAP {
                WHOLE_CAP
            } else {
                whole
            }
        }
    }
}

} // verus!
