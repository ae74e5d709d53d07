//! Single-precision binary floating-point values, held by their encoding.
//!
//! A [`Binary32`] is the 32-bit pattern of an IEEE 754 binary32 value: one
//! sign bit, eight exponent bits and twenty-three fraction bits. Its view is
//! what the pattern stands for, a [`Decoded`] value. Every finite binary32
//! number is a whole multiple of `2^-149`, the smallest positive one, so
//! magnitudes are measured in that unit and the specifications stay within
//! the integers.

use vstd::prelude::*;
use vstd::arithmetic::div_mod::{
    lemma_div_by_multiple,
    lemma_div_is_ordered,
    lemma_fundamental_div_mod,
    lemma_mod_bound,
};
use vstd::arithmetic::power2::{
    pow2,
    lemma_pow2_adds,
    lemma_pow2_pos,
    lemma_pow2_strictly_increases,
    lemma2_to64,
};
use crate::nearest::{lemma_nearest_representable_monotone, lemma_short_is_kept};
use crate::rounding::{
    lemma_nearest_representable_scales,
    lemma_small_is_representable,
    nearest_representable,
    round_to_significand,
};
use crate::scaling::whole_part;

verus! {

/// The encoding of positive one.
pub const ONE_BITS: u32 = 0x3F80_0000;

/// The sign bit, which alone is the encoding of negative zero.
pub const SIGN_BIT: u32 = 0x8000_0000;

/// The first natural number that no longer fits in the fraction field.
pub const FRACTION_LIMIT: u32 = 0x80_0000;

/// The exponent field of infinities and of patterns that encode no number.
pub const EXPONENT_SPECIAL: u32 = 0xFF;

/// The binary point of a magnitude: `2^POINT` units make up the number one.
pub const POINT: u32 = 149;

/// How many units of `2^-149` make up the number one.
pub open spec fn units_per_one() -> nat {
    pow2(POINT as nat)
}

/// A whole number clamped to what a sixteen-bit signed integer can hold.
pub open spec fn clamped(whole: int) -> int {
    if whole >= i16::MAX {
        i16::MAX as int
    } else if whole <= i16::MIN {
        i16::MIN as int
    } else {
        whole
    }
}

/// A whole number with the sign of the value it came from.
pub open spec fn with_sign(negative: bool, whole: int) -> int {
    if negative {
        -whole
    } else {
        whole
    }
}

/// What a binary32 pattern stands for.
pub enum Decoded {
    /// No number at all.
    Nan,
    /// Positive or negative infinity.
    Infinity { negative: bool },
    /// A number, by its sign and its absolute value in units of `2^-149`.
    /// Zero has a sign too.
    Finite { negative: bool, magnitude: nat },
}

impl Decoded {
    /// Whether the value is a number between zero and one, both included.
    /// Negative zero counts as zero; infinities and patterns that encode no
    /// number are outside.
    pub open spec fn within_unit_interval(self) -> bool {
        &&& self matches Decoded::Finite { negative, magnitude }
        &&& magnitude <= units_per_one()
        &&& (negative ==> magnitude == 0)
    }

    /// The integer that single-precision arithmetic gives for `count` times
    /// this value. The count is rounded to binary32, the exact product of
    /// the rounded count and this value is rounded to binary32 again, and
    /// the result is truncated toward zero and clamped to the sixteen-bit
    /// signed range. Infinity times a positive count stays infinite and is
    /// clamped; infinity times zero is no number, and no number gives zero.
    pub open spec fn truncated_product(self, count: nat) -> int {
        match self {
            Decoded::Nan => 0,
            Decoded::Infinity { negative } => if count == 0 {
                0
            } else if negative {
                i16::MIN as int
            } else {
                i16::MAX as int
            },
            Decoded::Finite { negative, magnitude } => {
                let product = nearest_representable(nearest_representable(count) * magnitude);
                let whole = (product / units_per_one()) as int;
                clamped(with_sign(negative, whole))
            },
        }
    }

    /// A share between zero and one of a count is a count between zero and
    /// that count.
    pub proof fn lemma_share_is_bounded_by_count(self, count: nat)
        requires
            self.within_unit_interval(),
        ensures
            0 <= self.truncated_product(count) <= count,
    {
        let one = units_per_one();
        let magnitude = self->magnitude;
        let exact = nearest_representable(count) * magnitude;
        lemma_pow2_pos(POINT as nat);
        if magnitude == 0 {
            assert(nearest_representable(count) * 0 == 0) by (nonlinear_arith);
            lemma_small_is_representable(0);
        } else if count < 0x100_0000 {
            lemma_small_is_representable(count);
            assert(exact <= count * one) by (nonlinear_arith)
                requires
                    exact == count * magnitude,
                    magnitude <= one,
            ;
            lemma_nearest_representable_monotone(exact, count * one);
            lemma_short_is_kept(count, POINT as nat);
            lemma_div_is_ordered(
                nearest_representable(exact) as int,
                (count * one) as int,
                one as int,
            );
            lemma_div_by_multiple(count as int, one as int);
        }
    }

    /// Where the count and the whole part of the exact product are below
    /// `2^24`, the result is that whole part, or one more in magnitude where
    /// rounding carries the product up to the next whole number.
    pub proof fn lemma_product_is_floor_or_next(self, count: nat)
        requires
            self is Finite,
            count < 0x100_0000,
            (count * self->magnitude) / units_per_one() < 0x100_0000,
        ensures
            ({
                let floor = ((count * self->magnitude) / units_per_one()) as int;
                let got = self.truncated_product(count);
                ||| got == clamped(with_sign(self->Finite_negative, floor))
                ||| got == clamped(with_sign(self->Finite_negative, floor + 1))
            }),
    {
        let one = units_per_one();
        let exact = count * self->magnitude;
        let floor = exact / one;
        let rounded = nearest_representable(exact);
        lemma_pow2_pos(POINT as nat);
        lemma_small_is_representable(count);
        // The exact product lies between two whole numbers that rounding keeps.
        lemma_fundamental_div_mod(exact as int, one as int);
        lemma_mod_bound(exact as int, one as int);
        assert(one * floor == floor * one) by (nonlinear_arith);
        assert((floor + 1) * one == floor * one + one) by (nonlinear_arith);
        lemma_short_is_kept(floor, POINT as nat);
        if floor + 1 < 0x100_0000 {
            lemma_short_is_kept(floor + 1, POINT as nat);
        } else {
            lemma2_to64();
            lemma_pow2_adds(24, POINT as nat);
            assert(1 * pow2(173) == pow2(173)) by (nonlinear_arith);
            lemma_short_is_kept(1, 173);
        }
        lemma_nearest_representable_monotone(floor * one, exact);
        lemma_nearest_representable_monotone(exact, (floor + 1) * one);
        lemma_div_is_ordered((floor * one) as int, rounded as int, one as int);
        lemma_div_is_ordered(rounded as int, ((floor + 1) * one) as int, one as int);
        lemma_div_by_multiple(floor as int, one as int);
        lemma_div_by_multiple((floor + 1) as int, one as int);
    }

    /// On a host of fewer than `2^24` cores, a share between zero and one
    /// gives the whole part of the exact product, or one more where
    /// rounding carries the product up to the next whole number.
    pub proof fn lemma_share_is_floor_or_next(self, count: nat)
        requires
            self.within_unit_interval(),
            count < 0x100_0000,
        ensures
            ({
                let floor = ((count * self->magnitude) / units_per_one()) as int;
                let got = self.truncated_product(count);
                got == clamped(floor) || got == clamped(floor + 1)
            }),
    {
        let one = units_per_one();
        let magnitude = self->magnitude;
        let exact = count * magnitude;
        lemma_pow2_pos(POINT as nat);
        // The whole part of the exact product is at most the count.
        assert(exact <= count * one) by (nonlinear_arith)
            requires
                exact == count * magnitude,
                magnitude <= one,
        ;
        lemma_div_is_ordered(exact as int, (count * one) as int, one as int);
        lemma_div_by_multiple(count as int, one as int);
        self.lemma_product_is_floor_or_next(count);
        if magnitude == 0 {
            assert(count * 0 == 0) by (nonlinear_arith);
            lemma_small_is_representable(0);
        }
    }

    /// Where the exact product of a count below `2^24` and a number that is
    /// not negative is itself short, `significand * 2^exponent` with the
    /// significand below `2^24`, nothing is rounded: the result is the whole
    /// part of the exact product, clamped.
    pub proof fn lemma_short_product_is_floor(self, count: nat, significand: nat, exponent: nat)
        requires
            self is Finite,
            !self->Finite_negative,
            count < 0x100_0000,
            significand < 0x100_0000,
            count * self->magnitude == significand * pow2(exponent),
        ensures
            self.truncated_product(count) == clamped(
                ((count * self->magnitude) / units_per_one()) as int,
            ),
    {
        lemma_small_is_representable(count);
        lemma_short_is_kept(significand, exponent);
    }
}

/// A binary32 value, identified with its bit pattern. Two values are equal
/// when their patterns are, which is not how floats compare: a pattern that
/// encodes no number equals itself, and the two zeros differ.
#[derive(Clone, Copy, Debug, PartialEq, Eq, Structural)]
pub struct Binary32 {
    pub bits: u32,
}

impl View for Binary32 {
    type V = Decoded;

    open spec fn view(&self) -> Decoded {
        if self.exponent_field() < EXPONENT_SPECIAL {
            Decoded::Finite {
                negative: self.sign(),
                magnitude: self.significand() * pow2(self.scale()),
            }
        } else if self.fraction_field() == 0 {
            Decoded::Infinity { negative: self.sign() }
        } else {
            Decoded::Nan
        }
    }
}

impl Binary32 {
    /// Whether the sign bit is set.
    pub open spec fn sign(self) -> bool {
        self.bits >= SIGN_BIT
    }

    /// The eight exponent bits.
    pub open spec fn exponent_field(self) -> nat {
        ((self.bits / FRACTION_LIMIT) % 0x100) as nat
    }

    /// The twenty-three fraction bits.
    pub open spec fn fraction_field(self) -> nat {
        (self.bits % FRACTION_LIMIT) as nat
    }

    /// The significand of a finite value: the fraction bits, with the
    /// implicit leading bit unless the exponent field is zero.
    pub open spec fn significand(self) -> nat {
        if self.exponent_field() == 0 {
            self.fraction_field()
        } else {
            (FRACTION_LIMIT + self.fraction_field()) as nat
        }
    }

    /// The power of two by which the significand of a finite value is
    /// multiplied to give its magnitude in units of `2^-149`.
    pub open spec fn scale(self) -> nat {
        if self.exponent_field() == 0 {
            0
        } else {
            (self.exponent_field() - 1) as nat
        }
    }

    /// Wraps a bit pattern.
    pub fn from_bits(bits: u32) -> (value: Self)
        ensures
            value.bits == bits,
    {
        Binary32 { bits }
    }

    /// The bit pattern.
    pub fn to_bits(&self) -> (bits: u32)
        ensures
            bits == self.bits,
    {
        self.bits
    }

    /// Tests whether the value is a number between zero and one, both
    /// included.
    pub fn is_within_unit_interval(&self) -> (within: bool)
        ensures
            within == self@.within_unit_interval(),
    {
        proof {
            self.lemma_compared_with_one();
        }
        self.bits <= ONE_BITS || self.bits == SIGN_BIT
    }

    /// Multiplies a count by this value as single-precision arithmetic does
    /// and converts the product to a sixteen-bit integer.
    pub fn multiply_count(&self, count: usize) -> (whole: i16)
        ensures
            whole == self@.truncated_product(count as nat),
    {
        let exponent: u32 = (self.bits / FRACTION_LIMIT) % 0x100;
        let fraction: u32 = self.bits % FRACTION_LIMIT;
        let negative = self.bits >= SIGN_BIT;
        if exponent == EXPONENT_SPECIAL {
            if fraction != 0 || count == 0 {
                0
            } else if negative {
                i16::MIN
            } else {
                i16::MAX
            }
        } else {
            let significand: u32 = if exponent == 0 {
                fraction
            } else {
                FRACTION_LIMIT + fraction
            };
            let scale: u32 = if exponent == 0 {
                0
            } else {
                exponent - 1
            };
            let rounded_count: u128 = round_to_significand(count as u128);
            assert(rounded_count * significand <= 0x2_0000_0000_0000_0000 * 0x100_0000)
                by (nonlinear_arith)
                requires
                    rounded_count <= 0x2_0000_0000_0000_0000,
                    significand <= 0x100_0000,
            ;
            let product: u128 = round_to_significand(rounded_count * (significand as u128));
            proof {
                // Rounding commutes with the power of two of the scale.
                let power = pow2(scale as nat);
                assert(rounded_count * (significand * power) == (rounded_count * significand)
                    * power) by (nonlinear_arith);
                lemma_nearest_representable_scales(
                    (rounded_count * significand) as nat,
                    scale as nat,
                );
            }
            let whole: u128 = whole_part(product, scale, POINT);
            if negative {
                if whole >= 0x8000 {
                    i16::MIN
                } else {
                    -(whole as i16)
                }
            } else {
                if whole >= 0x7FFF {
                    i16::MAX
                } else {
                    whole as i16
                }
            }
        }
    }

    /// How the pattern of a number compares with the patterns of zero and
    /// of one: without the sign bit, patterns are ordered as magnitudes are.
    pub proof fn lemma_compared_with_one(self)
        ensures
            self@ is Finite <==> self.bits % SIGN_BIT < 0x7F80_0000,
            self@ is Finite ==> (self@->Finite_negative <==> self.bits >= SIGN_BIT),
            self@ is Finite ==> (self@->magnitude <= units_per_one() <==> self.bits % SIGN_BIT
                <= ONE_BITS),
            self@ is Finite ==> (self@->magnitude == 0 <==> self.bits % SIGN_BIT == 0),
    {
        let exponent = self.exponent_field();
        let fraction = self.fraction_field();
        assert(self.bits % SIGN_BIT == exponent * FRACTION_LIMIT + fraction);
        if self@ is Finite {
            let power = pow2(self.scale());
            let significand = self.significand();
            lemma2_to64();
            lemma_pow2_pos(self.scale());
            if exponent == 127 {
                lemma_pow2_adds(23, 126);
                assert((significand * pow2(126) <= pow2(23) * pow2(126)) <==> significand <= pow2(
                    23,
                )) by (nonlinear_arith)
                    requires
                        pow2(126) > 0,
                ;
            } else if exponent < 127 {
                lemma_pow2_adds(24, 125);
                if self.scale() < 125 {
                    lemma_pow2_strictly_increases(self.scale(), 125);
                }
                assert(significand * power <= pow2(24) * pow2(125)) by (nonlinear_arith)
                    requires
                        significand <= pow2(24),
                        power <= pow2(125),
                ;
            } else {
                lemma_pow2_adds(23, 127);
                lemma_pow2_strictly_increases(149, 150);
                if self.scale() > 127 {
                    lemma_pow2_strictly_increases(127, self.scale());
                }
                assert(significand * power >= pow2(23) * pow2(127)) by (nonlinear_arith)
                    requires
                        significand >= pow2(23),
                        power >= pow2(127),
                ;
            }
            assert((significand * power == 0) <==> significand == 0) by (nonlinear_arith)
                requires
                    power > 0,
            ;
        }
    }
}

} // verus!
