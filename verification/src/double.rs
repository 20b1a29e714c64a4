//! Double-precision numbers carried by their bit patterns.

use crate::scalar::{Scalar, INFINITY_BITS, SIGN_BIT};
use vstd::arithmetic::power2::{lemma2_to64, lemma2_to64_rest, lemma_pow2_strictly_increases, pow2};
use vstd::prelude::*;

verus! {

/// The bit that carries the sign.
pub const DOUBLE_SIGN_BIT: u64 = 0x8000_0000_0000_0000;

/// Bits of positive infinity.
pub const DOUBLE_INFINITY_BITS: u64 = 0x7ff0_0000_0000_0000;

/// One more than the largest fraction: two to the power of 52.
pub const DOUBLE_FRACTIONS: u64 = 0x0010_0000_0000_0000;

/// What the exponent of a number is larger by in double precision than in
/// single precision: 896, in the place of the exponent.
pub const REBIAS: u64 = 0x3800_0000_0000_0000;

/// The fractions in double precision for one in single precision: two to the
/// power of 29.
pub const FRACTIONS_PER_SINGLE: u64 = 0x2000_0000;

/// Bits of the pattern in single precision that is taken for what is no number.
pub const QUIET_NAN_BITS: u32 = 0x7fc0_0000;

/// A binary64 number, held as its bit pattern.
#[derive(Clone, Copy, Debug)]
pub struct Double {
    pub bits: u64,
}

/// The integer nearest to `a / b`, and of two that are as near the even one.
pub open spec fn half_even(a: int, b: int) -> int {
    let whole = a / b;
    let rest = a % b;
    if 2 * rest > b || 2 * rest == b && whole % 2 == 1 {
        whole + 1
    } else {
        whole
    }
}

/// No integer is nearer to `a / b`, and where another one is as near, the chosen
/// one is even.
pub proof fn lemma_half_even_is_nearest(a: int, b: int, other: int)
    requires
        0 <= a,
        0 < b,
    ensures
        ({
            let chosen = half_even(a, b);
            let distance = if a >= chosen * b {
                a - chosen * b
            } else {
                chosen * b - a
            };
            let other_distance = if a >= other * b {
                a - other * b
            } else {
                other * b - a
            };
            &&& distance <= other_distance
            &&& distance == other_distance && other != chosen ==> chosen % 2 == 0
        }),
{
    let whole = a / b;
    let rest = a % b;
    let chosen = half_even(a, b);
    vstd::arithmetic::div_mod::lemma_fundamental_div_mod(a, b);
    vstd::arithmetic::div_mod::lemma_mod_bound(a, b);
    assert(b * whole == whole * b) by (nonlinear_arith);
    assert((whole + 1) * b == whole * b + b) by (nonlinear_arith);
    if other <= whole {
        assert(other * b <= whole * b) by (nonlinear_arith)
            requires
                other <= whole,
                0 < b,
        ;
        if other < whole {
            assert(other * b <= (whole - 1) * b) by (nonlinear_arith)
                requires
                    other <= whole - 1,
                    0 < b,
            ;
            assert((whole - 1) * b == whole * b - b) by (nonlinear_arith);
        }
    } else {
        assert(other * b >= (whole + 1) * b) by (nonlinear_arith)
            requires
                other >= whole + 1,
                0 < b,
        ;
        if other > whole + 1 {
            assert(other * b >= (whole + 2) * b) by (nonlinear_arith)
                requires
                    other >= whole + 2,
                    0 < b,
            ;
            assert((whole + 2) * b == whole * b + 2 * b) by (nonlinear_arith);
        }
    }
}

/// The integer nearest to `a / b`, and of two that are as near the even one.
pub(crate) fn round_half_even(a: u64, b: u64) -> (rounded: u64)
    requires
        2 <= b <= DOUBLE_SIGN_BIT,
    ensures
        rounded == half_even(a as int, b as int),
{
    let whole: u64 = a / b;
    let rest: u64 = a % b;
    assert(whole <= a / 2) by (nonlinear_arith)
        requires
            whole == a / b,
            2 <= b,
    ;
    if rest > b - rest || rest == b - rest && whole % 2 == 1 {
        whole + 1
    } else {
        whole
    }
}

impl Double {
    /// The bits without the sign.
    pub open spec fn magnitude(self) -> int {
        if self.bits >= DOUBLE_SIGN_BIT {
            self.bits - DOUBLE_SIGN_BIT
        } else {
            self.bits as int
        }
    }

    /// The exponent as it is encoded.
    pub open spec fn exponent(self) -> int {
        self.magnitude() / DOUBLE_FRACTIONS as int
    }

    /// The digits of a normal number, in units of its last place.
    pub open spec fn significand(self) -> int {
        DOUBLE_FRACTIONS + self.magnitude() % DOUBLE_FRACTIONS as int
    }

    /// The bits, without the sign, of the nearest number in single precision.
    ///
    /// Bit patterns are numbered in the order of the numbers, so where single
    /// precision has normal numbers the pattern itself is rounded; a number that
    /// is too large becomes infinite.  Where single precision has a fixed unit,
    /// the number of units is rounded.  Below half a unit nothing is left.
    pub open spec fn single_magnitude(self) -> int {
        if self.magnitude() > DOUBLE_INFINITY_BITS {
            QUIET_NAN_BITS as int
        } else if self.exponent() >= 897 {
            let rounded = half_even(
                self.magnitude() - REBIAS,
                FRACTIONS_PER_SINGLE as int,
            );
            if rounded < INFINITY_BITS {
                rounded
            } else {
                INFINITY_BITS as int
            }
        } else if self.exponent() >= 873 {
            half_even(self.significand(), pow2((926 - self.exponent()) as nat) as int)
        } else {
            0
        }
    }

    /// The nearest number in single precision, of two that are as near the one
    /// with the even pattern.
    pub open spec fn to_single_spec(self) -> Scalar {
        Scalar {
            bits: if self.bits >= DOUBLE_SIGN_BIT {
                (SIGN_BIT + self.single_magnitude()) as u32
            } else {
                self.single_magnitude() as u32
            },
        }
    }

    /// The number encoded by `bits`.
    pub fn from_bits(bits: u64) -> (number: Double)
        ensures
            number.bits == bits,
    {
        Double { bits }
    }

    /// The nearest number in single precision, of two that are as near the one
    /// with the even pattern.
    pub fn to_single(self) -> (number: Scalar)
        ensures
            number == self.to_single_spec(),
    {
        let negative = self.bits >= DOUBLE_SIGN_BIT;
        let magnitude: u64 = if negative {
            self.bits - DOUBLE_SIGN_BIT
        } else {
            self.bits
        };
        let exponent: u64 = magnitude / DOUBLE_FRACTIONS;
        let single: u32 = if magnitude > DOUBLE_INFINITY_BITS {
            QUIET_NAN_BITS
        } else if exponent >= 897 {
            let rounded: u64 = round_half_even(magnitude - REBIAS, FRACTIONS_PER_SINGLE);
            if rounded < INFINITY_BITS as u64 {
                rounded as u32
            } else {
                INFINITY_BITS
            }
        } else if exponent >= 873 {
            let shift: u64 = 926 - exponent;
            proof {
                lemma2_to64();
                lemma2_to64_rest();
                if shift < 53 {
                    lemma_pow2_strictly_increases(shift as nat, 53);
                }
                if 30 < shift {
                    lemma_pow2_strictly_increases(30, shift as nat);
                }
                vstd::bits::lemma_u64_shl_is_mul(1, shift);
            }
            let units: u64 = 1u64 << shift;
            let significand: u64 = DOUBLE_FRACTIONS + magnitude % DOUBLE_FRACTIONS;
            let rounded: u64 = round_half_even(significand, units);
            assert(rounded <= 0x80_0000) by {
                let whole = significand as int / units as int;
                assert(whole <= 0x7f_ffff) by (nonlinear_arith)
                    requires
                        whole == significand as int / units as int,
                        significand < 0x20_0000_0000_0000,
                        units >= 0x4000_0000,
                ;
            }
            rounded as u32
        } else {
            0
        };
        assert(single < SIGN_BIT);
        Scalar {
            bits: if negative {
                SIGN_BIT + single
            } else {
                single
            },
        }
    }
}

/// Numbers in double precision, rounded to single precision.
pub open spec fn singles(values: Seq<Double>) -> Seq<Scalar> {
    values.map_values(|value: Double| value.to_single_spec())
}

/// Rounds numbers to single precision.
pub fn round_all(values: &Vec<Double>) -> (rounded: Vec<Scalar>)
    ensures
        rounded@ == singles(values@),
{
    let mut rounded: Vec<Scalar> = Vec::new();
    let mut next: usize = 0;
    while next < values.len()
        invariant
            next <= values@.len(),
            rounded@ == singles(values@).take(next as int),
        decreases values@.len() - next,
    {
        rounded.push(values[next].to_single());
        assert(rounded@ =~= singles(values@).take(next + 1));
        next += 1;
    }
    assert(rounded@ =~= singles(values@));
    rounded
}

/// What rounding to single precision keeps: the sign; numbers that single precision has; and
/// of others in its normal range the nearest.  A pattern counts the numbers in order, with
/// 536,870,912 of double precision for each of single precision, and the exponent counts
/// from 896 further on.
pub proof fn lemma_rounding_keeps_close(number: Double)
    requires
        0x3810_0000_0000_0000 <= number.bits < 0x47ef_ffff_f000_0000,
    ensures
        ({
            let single = number.to_single_spec();
            let from = number.bits - 0x3800_0000_0000_0000;
            let negated = Double { bits: (number.bits + 0x8000_0000_0000_0000) as u64 };
            &&& single.bits < 0x7f80_0000
            &&& 2 * from <= 2 * (single.bits * 0x2000_0000) + 0x2000_0000
            &&& 2 * (single.bits * 0x2000_0000) <= 2 * from + 0x2000_0000
            &&& from % 0x2000_0000 == 0 ==> single.bits * 0x2000_0000 == from
            &&& negated.to_single_spec().bits == single.bits + 0x8000_0000
        }),
{
}

/// What rounding to single precision loses: what is too large becomes infinite, what is too
/// small zero, and what is no number stays none.
pub proof fn lemma_rounding_has_limits(number: Double)
    ensures
        0x47f0_0000_0000_0000 <= number.bits <= 0x7ff0_0000_0000_0000
            ==> number.to_single_spec().bits == 0x7f80_0000,
        number.bits < 0x3690_0000_0000_0000 ==> number.to_single_spec().bits == 0,
        0x7ff0_0000_0000_0000 < number.bits < 0x8000_0000_0000_0000
            ==> number.to_single_spec().is_nan_spec(),
        0xfff0_0000_0000_0000 < number.bits ==> number.to_single_spec().is_nan_spec(),
{
}

/// Lists of numbers are rounded one by one.
pub proof fn lemma_lists_are_rounded_one_by_one(values: Seq<Double>, i: int)
    requires
        0 <= i < values.len(),
    ensures
        singles(values).len() == values.len(),
        singles(values)[i] == values[i].to_single_spec(),
{
}

} // verus!
