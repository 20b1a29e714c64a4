//! Conversions between counts and numbers.

use crate::double::{half_even, round_half_even};
use crate::scalar::{lemma_rank_orders_values, units, Scalar, SIGN_BIT};
use vstd::arithmetic::power2::{
    lemma2_to64, lemma2_to64_rest, lemma_pow2_adds, lemma_pow2_pos, lemma_pow2_strictly_increases,
    lemma_pow2_unfold, pow2,
};
use vstd::prelude::*;

verus! {

/// Bits of the number that is two to the power of 64.
pub const PAST_COUNTS_BITS: u32 = 0x5f80_0000;

/// The position of the highest binary digit of a positive count.
pub open spec fn highest_digit(n: nat) -> nat
    decreases n,
{
    if n <= 1 {
        0
    } else {
        highest_digit(n / 2) + 1
    }
}

/// A positive count lies between the powers of two around it.
pub proof fn lemma_highest_digit(n: nat)
    requires
        0 < n,
    ensures
        pow2(highest_digit(n)) <= n < pow2(highest_digit(n) + 1),
    decreases n,
{
    lemma2_to64();
    if n > 1 {
        lemma_highest_digit(n / 2);
        lemma_pow2_unfold(highest_digit(n));
        lemma_pow2_unfold(highest_digit(n) + 1);
    }
}

/// The 24 leading binary digits of a positive count.  Digits beyond them are
/// rounded away, to the even result where the count is half way.
pub open spec fn leading_digits(n: nat) -> int {
    let top = highest_digit(n);
    if top <= 23 {
        (n * pow2((23 - top) as nat)) as int
    } else {
        half_even(n as int, pow2((top - 23) as nat) as int)
    }
}

/// The leading digits take 24 places, or round up to the next power of two.
proof fn lemma_leading_digits(n: nat)
    requires
        0 < n,
    ensures
        0x80_0000 <= leading_digits(n) <= 0x100_0000,
        highest_digit(n) <= 23 ==> leading_digits(n) < 0x100_0000,
{
    let top = highest_digit(n);
    lemma_highest_digit(n);
    lemma2_to64();
    lemma_pow2_unfold(top + 1);
    if top <= 23 {
        let scale = pow2((23 - top) as nat);
        lemma_pow2_adds(top, (23 - top) as nat);
        lemma_pow2_pos((23 - top) as nat);
        let low = pow2(top);
        assert(low * scale <= n * scale < 2 * (low * scale)) by (nonlinear_arith)
            requires
                low <= n < 2 * low,
                scale > 0,
        ;
    } else {
        let scale = pow2((top - 23) as nat);
        lemma_pow2_adds(23, (top - 23) as nat);
        lemma_pow2_pos((top - 23) as nat);
        let whole = n as int / scale as int;
        assert(0x80_0000 <= whole < 0x100_0000) by (nonlinear_arith)
            requires
                whole == n as int / scale as int,
                0x80_0000 * scale <= n < 0x100_0000 * scale,
                scale > 0,
        ;
    }
}

impl Scalar {
    /// The number nearest to a count.
    pub open spec fn of_count_spec(n: nat) -> Scalar {
        Scalar {
            bits: if n == 0 {
                0
            } else {
                ((highest_digit(n) + 126) * 0x80_0000 + leading_digits(n)) as u32
            },
        }
    }

    /// The whole part of a number, limited to what a count can be; zero for a
    /// negative number and for a pattern that is no number.
    pub open spec fn whole_spec(self) -> int {
        if self.is_nan_spec() || self.is_negative_spec() {
            0
        } else if self.magnitude() >= PAST_COUNTS_BITS {
            u64::MAX as int
        } else {
            self.value() / pow2(149) as int
        }
    }

    /// The number nearest to a count.
    pub fn of_count(n: u64) -> (number: Scalar)
        ensures
            number == Scalar::of_count_spec(n as nat),
    {
        if n == 0 {
            return Scalar { bits: 0 };
        }
        let mut top: u64 = 0;
        let mut rest: u64 = n;
        proof {
            lemma_highest_digit(n as nat);
            lemma2_to64();
            lemma2_to64_rest();
            if highest_digit(n as nat) > 63 {
                if highest_digit(n as nat) > 64 {
                    lemma_pow2_strictly_increases(64, highest_digit(n as nat));
                }
                assert(false);
            }
        }
        while rest > 1
            invariant
                0 < rest,
                highest_digit(n as nat) <= 63,
                highest_digit(n as nat) == top + highest_digit(rest as nat),
            decreases rest,
        {
            rest = rest / 2;
            top = top + 1;
        }
        proof {
            lemma_leading_digits(n as nat);
        }
        let digits: u64 = if top <= 23 {
            let shift: u64 = 23 - top;
            proof {
                vstd::bits::lemma_u64_shl_is_mul(n, shift);
            }
            n << shift
        } else {
            let shift: u64 = top - 23;
            proof {
                lemma2_to64();
                lemma2_to64_rest();
                lemma_pow2_strictly_increases(shift as nat, 63);
                if shift > 1 {
                    lemma_pow2_strictly_increases(1, shift as nat);
                }
                vstd::bits::lemma_u64_shl_is_mul(1, shift);
            }
            round_half_even(n, 1u64 << shift)
        };
        Scalar { bits: ((top + 126) * 0x80_0000 + digits) as u32 }
    }

    /// The whole part of a number, limited to what a count can be; zero for a
    /// negative number and for a pattern that is no number.
    pub fn whole(self) -> (count: u64)
        ensures
            count == self.whole_spec(),
    {
        if self.is_nan() || self.to_bits() >= SIGN_BIT {
            return 0;
        }
        let bits: u32 = self.to_bits();
        if bits >= PAST_COUNTS_BITS {
            return u64::MAX;
        }
        let exponent: u64 = (bits / 0x80_0000) as u64;
        let fraction: u64 = (bits % 0x80_0000) as u64;
        let digits: u64 = 0x80_0000 + fraction;
        proof {
            lemma_whole(self);
            lemma2_to64();
            lemma2_to64_rest();
        }
        if exponent < 127 {
            0
        } else if exponent < 150 {
            let shift: u64 = 150 - exponent;
            proof {
                vstd::bits::lemma_u64_shr_is_div(digits, shift);
            }
            digits >> shift
        } else {
            let shift: u64 = exponent - 150;
            proof {
                if shift < 40 {
                    lemma_pow2_strictly_increases(shift as nat, 40);
                }
                let scale = pow2(shift as nat);
                assert(digits * scale <= 0xff_ffff * 0x100_0000_0000) by (nonlinear_arith)
                    requires
                        digits <= 0xff_ffff,
                        0 <= scale <= 0x100_0000_0000,
                ;
                vstd::bits::lemma_u64_shl_is_mul(digits, shift);
            }
            digits << shift
        }
    }
}

/// The whole part is never negative.
pub proof fn lemma_whole_is_not_negative(number: Scalar)
    ensures
        0 <= number.whole_spec(),
{
    if !number.is_negative_spec() && number.magnitude() < PAST_COUNTS_BITS {
        lemma_rank_orders_values(Scalar { bits: 0 }, number);
        lemma_pow2_pos(149);
        vstd::arithmetic::div_mod::lemma_div_pos_is_pos(number.value(), pow2(149) as int);
    }
}

/// The whole part of a number from the places of its digits.
proof fn lemma_whole(number: Scalar)
    requires
        !number.is_negative_spec(),
        number.magnitude() < PAST_COUNTS_BITS,
    ensures
        ({
            let exponent = number.magnitude() / 0x80_0000;
            let digits = 0x80_0000 + number.magnitude() % 0x80_0000;
            number.whole_spec() == if exponent < 127 {
                0
            } else if exponent < 150 {
                digits / pow2((150 - exponent) as nat) as int
            } else {
                digits * pow2((exponent - 150) as nat)
            }
        }),
{
    let exponent = number.magnitude() / 0x80_0000;
    let fraction = number.magnitude() % 0x80_0000;
    let digits = 0x80_0000 + fraction;
    lemma_pow2_pos(149);
    lemma2_to64();
    if exponent == 0 {
        lemma_pow2_strictly_increases(24, 149);
        vstd::arithmetic::div_mod::lemma_basic_div(fraction, pow2(149) as int);
    } else if exponent < 150 {
        let low = pow2((exponent - 1) as nat) as int;
        let scale = pow2((150 - exponent) as nat) as int;
        lemma_pow2_adds((exponent - 1) as nat, (150 - exponent) as nat);
        lemma_pow2_pos((exponent - 1) as nat);
        lemma_pow2_pos((150 - exponent) as nat);
        assert(digits * low == low * digits) by (nonlinear_arith);
        vstd::arithmetic::div_mod::lemma_div_multiples_vanish_quotient(low, digits, scale);
        if exponent < 127 {
            if exponent < 126 {
                lemma_pow2_strictly_increases(24, (150 - exponent) as nat);
            }
            vstd::arithmetic::div_mod::lemma_basic_div(digits, scale);
        }
    } else {
        let scale = pow2((exponent - 150) as nat) as int;
        lemma_pow2_adds(149, (exponent - 150) as nat);
        let unit = pow2(149) as int;
        assert(digits * (unit * scale) == (digits * scale) * unit) by (nonlinear_arith);
        vstd::arithmetic::div_mod::lemma_div_by_multiple(digits * scale, unit);
    }
}

impl Scalar {
    /// The least count that is no smaller than a number, as far as there is one;
    /// zero for a negative number and for a pattern that is no number.
    pub open spec fn ceiling_spec(self) -> int {
        if self.is_nan_spec() || self.is_negative_spec() {
            0
        } else if self.magnitude() >= PAST_COUNTS_BITS {
            u64::MAX as int
        } else {
            (self.value() + pow2(149) - 1) / pow2(149) as int
        }
    }

    /// The least count that is no smaller than a number, as far as there is one;
    /// zero for a negative number and for a pattern that is no number.
    pub fn ceiling(self) -> (count: u64)
        ensures
            count == self.ceiling_spec(),
    {
        if self.is_nan() || self.to_bits() >= SIGN_BIT {
            return 0;
        }
        let bits: u32 = self.to_bits();
        if bits >= PAST_COUNTS_BITS {
            return u64::MAX;
        }
        let exponent: u64 = (bits / 0x80_0000) as u64;
        let fraction: u64 = (bits % 0x80_0000) as u64;
        let digits: u64 = 0x80_0000 + fraction;
        proof {
            lemma_ceiling(self);
            lemma2_to64();
            lemma2_to64_rest();
        }
        if bits == 0 {
            0
        } else if exponent < 127 {
            1
        } else if exponent < 150 {
            let shift: u64 = 150 - exponent;
            proof {
                vstd::bits::lemma_u64_shl_is_mul(1, shift);
                lemma_pow2_strictly_increases(shift as nat, 24);
                lemma_pow2_pos(shift as nat);
                vstd::bits::lemma_u64_shr_is_div((digits + pow2(shift as nat) - 1) as u64, shift);
            }
            (digits + ((1u64 << shift) - 1)) >> shift
        } else {
            let shift: u64 = exponent - 150;
            proof {
                if shift < 40 {
                    lemma_pow2_strictly_increases(shift as nat, 40);
                }
                let scale = pow2(shift as nat);
                assert(digits * scale <= 0xff_ffff * 0x100_0000_0000) by (nonlinear_arith)
                    requires
                        digits <= 0xff_ffff,
                        0 <= scale <= 0x100_0000_0000,
                ;
                vstd::bits::lemma_u64_shl_is_mul(digits, shift);
            }
            digits << shift
        }
    }
}

/// The least count from the places of the digits.
proof fn lemma_ceiling(number: Scalar)
    requires
        !number.is_negative_spec(),
        number.magnitude() < PAST_COUNTS_BITS,
    ensures
        ({
            let exponent = number.magnitude() / 0x80_0000;
            let digits = 0x80_0000 + number.magnitude() % 0x80_0000;
            number.ceiling_spec() == if number.magnitude() == 0 {
                0
            } else if exponent < 127 {
                1
            } else if exponent < 150 {
                (digits + pow2((150 - exponent) as nat) - 1) / pow2((150 - exponent) as nat) as int
            } else {
                digits * pow2((exponent - 150) as nat)
            }
        }),
{
    let exponent = number.magnitude() / 0x80_0000;
    let fraction = number.magnitude() % 0x80_0000;
    let digits = 0x80_0000 + fraction;
    let unit = pow2(149) as int;
    lemma_pow2_pos(149);
    lemma2_to64();
    lemma2_to64_rest();
    if exponent == 0 {
        lemma_pow2_strictly_increases(24, 149);
        if fraction == 0 {
            vstd::arithmetic::div_mod::lemma_basic_div(unit - 1, unit);
        } else {
            vstd::arithmetic::div_mod::lemma_fundamental_div_mod_converse(
                fraction + unit - 1,
                unit,
                1,
                fraction - 1,
            );
        }
    } else if exponent < 150 {
        let low = pow2((exponent - 1) as nat) as int;
        let scale = pow2((150 - exponent) as nat) as int;
        lemma_pow2_adds((exponent - 1) as nat, (150 - exponent) as nat);
        lemma_pow2_pos((exponent - 1) as nat);
        lemma_pow2_pos((150 - exponent) as nat);
        let whole = (digits + scale - 1) / scale;
        let rest = (digits + scale - 1) % scale;
        vstd::arithmetic::div_mod::lemma_fundamental_div_mod(digits + scale - 1, scale);
        vstd::arithmetic::div_mod::lemma_mod_bound(digits + scale - 1, scale);
        assert(digits * low + unit - 1 == whole * unit + (rest * low + low - 1) && 0 <= rest * low
            + low - 1 < unit) by (nonlinear_arith)
            requires
                unit == low * scale,
                digits + scale - 1 == scale * whole + rest,
                0 <= rest < scale,
                low >= 1,
        ;
        assert(whole * unit == unit * whole) by (nonlinear_arith);
        vstd::arithmetic::div_mod::lemma_fundamental_div_mod_converse(
            digits * low + unit - 1,
            unit,
            whole,
            rest * low + low - 1,
        );
        if exponent < 127 {
            if exponent < 126 {
                lemma_pow2_strictly_increases(24, (150 - exponent) as nat);
            }
            vstd::arithmetic::div_mod::lemma_fundamental_div_mod_converse(
                digits + scale - 1,
                scale,
                1,
                digits - 1,
            );
        }
    } else {
        let scale = pow2((exponent - 150) as nat) as int;
        lemma_pow2_adds(149, (exponent - 150) as nat);
        let whole = digits * scale;
        assert(digits * (unit * scale) + unit - 1 == unit * whole + (unit - 1)) by (nonlinear_arith)
            requires
                whole == digits * scale,
        ;
        vstd::arithmetic::div_mod::lemma_fundamental_div_mod_converse(
            digits * (unit * scale) + unit - 1,
            unit,
            whole,
            unit - 1,
        );
    }
}

/// Bits of the number that is two to the power of 31.
pub const PAST_INTEGERS_BITS: u32 = 0x4f00_0000;

impl Scalar {
    /// The size of the whole number nearest to a finite number, the larger one
    /// where two are as near.
    pub open spec fn nearest_size(self) -> int {
        (2 * units(self.magnitude()) + pow2(149)) / (2 * pow2(149)) as int
    }

    /// The nearest whole number, away from zero where two are as near, limited to
    /// 32 bits; zero for a pattern that is no number.
    pub open spec fn nearest_spec(self) -> i32 {
        if self.is_nan_spec() {
            0
        } else if self.magnitude() >= PAST_INTEGERS_BITS {
            if self.is_negative_spec() {
                i32::MIN
            } else {
                i32::MAX
            }
        } else if self.is_negative_spec() {
            (-self.nearest_size()) as i32
        } else {
            self.nearest_size() as i32
        }
    }

    /// The nearest whole number, away from zero where two are as near, limited to
    /// 32 bits; zero for a pattern that is no number.
    pub fn nearest(self) -> (whole: i32)
        ensures
            whole == self.nearest_spec(),
    {
        if self.is_nan() {
            return 0;
        }
        let negative = self.to_bits() >= SIGN_BIT;
        let bits: u32 = self.abs().to_bits();
        if bits >= PAST_INTEGERS_BITS {
            return if negative {
                i32::MIN
            } else {
                i32::MAX
            };
        }
        let exponent: u64 = (bits / 0x80_0000) as u64;
        let fraction: u64 = (bits % 0x80_0000) as u64;
        let digits: u64 = 0x80_0000 + fraction;
        proof {
            lemma_nearest(self);
            lemma2_to64();
            lemma2_to64_rest();
        }
        let size: u64 = if exponent < 126 {
            0
        } else if exponent < 150 {
            let shift: u64 = 150 - exponent;
            proof {
                vstd::bits::lemma_u64_shl_is_mul(1, (shift - 1) as u64);
                lemma_pow2_strictly_increases((shift - 1) as nat, 24);
                vstd::bits::lemma_u64_shr_is_div((digits + pow2((shift - 1) as nat)) as u64, shift);
            }
            let half: u64 = 1u64 << (shift - 1);
            (digits + half) >> shift
        } else {
            let shift: u64 = exponent - 150;
            proof {
                lemma_pow2_strictly_increases(shift as nat, 8);
                let scale = pow2(shift as nat);
                assert(digits * scale <= 0xff_ffff * 0x100) by (nonlinear_arith)
                    requires
                        digits <= 0xff_ffff,
                        0 <= scale <= 0x100,
                ;
                vstd::bits::lemma_u64_shl_is_mul(digits, shift);
            }
            digits << shift
        };
        if negative {
            -(size as i32)
        } else {
            size as i32
        }
    }
}

/// The nearest whole number from the places of the digits.
proof fn lemma_nearest(number: Scalar)
    requires
        number.magnitude() < PAST_INTEGERS_BITS,
    ensures
        ({
            let exponent = number.magnitude() / 0x80_0000;
            let digits = 0x80_0000 + number.magnitude() % 0x80_0000;
            number.nearest_size() == if exponent < 126 {
                0
            } else if exponent < 150 {
                (digits + pow2((149 - exponent) as nat)) / pow2((150 - exponent) as nat) as int
            } else {
                digits * pow2((exponent - 150) as nat)
            }
        }),
        0 <= number.nearest_size() < 0x8000_0000,
{
    let exponent = number.magnitude() / 0x80_0000;
    let fraction = number.magnitude() % 0x80_0000;
    let digits = 0x80_0000 + fraction;
    let unit = pow2(149) as int;
    lemma_pow2_pos(149);
    lemma2_to64();
    lemma2_to64_rest();
    if exponent == 0 {
        lemma_pow2_strictly_increases(25, 149);
        vstd::arithmetic::div_mod::lemma_basic_div(2 * fraction + unit, 2 * unit);
    } else if exponent < 150 {
        let low = pow2((exponent - 1) as nat) as int;
        let half = pow2((149 - exponent) as nat) as int;
        let scale = pow2((150 - exponent) as nat) as int;
        lemma_pow2_adds((exponent - 1) as nat, (150 - exponent) as nat);
        lemma_pow2_unfold((150 - exponent) as nat);
        lemma_pow2_pos((exponent - 1) as nat);
        lemma_pow2_pos((149 - exponent) as nat);
        assert(2 * (digits * low) + low * scale == (2 * low) * (digits + half) && 2 * (low * scale)
            == (2 * low) * scale) by (nonlinear_arith)
            requires
                scale == 2 * half,
        ;
        vstd::arithmetic::div_mod::lemma_div_multiples_vanish_quotient(
            2 * low,
            digits + half,
            scale,
        );
        if exponent < 126 {
            if exponent < 125 {
                lemma_pow2_strictly_increases(24, (149 - exponent) as nat);
            }
            vstd::arithmetic::div_mod::lemma_basic_div(digits + half, scale);
        } else {
            assert(0 <= (digits + half) / scale <= digits + half) by (nonlinear_arith)
                requires
                    scale >= 1,
                    0 <= digits + half,
            ;
            lemma_pow2_strictly_increases((149 - exponent) as nat, 24);
        }
    } else {
        let scale = pow2((exponent - 150) as nat) as int;
        lemma_pow2_adds(149, (exponent - 150) as nat);
        lemma_pow2_pos((exponent - 150) as nat);
        let whole = digits * scale;
        lemma_pow2_strictly_increases((exponent - 150) as nat, 8);
        assert(0 <= whole <= 0xff_ffff * 128) by (nonlinear_arith)
            requires
                0 <= digits <= 0xff_ffff,
                0 <= scale <= 128,
                whole == digits * scale,
        ;
        assert(2 * (digits * (unit * scale)) + unit == unit * (2 * whole + 1) && 2 * unit == unit
            * 2) by (nonlinear_arith)
            requires
                whole == digits * scale,
        ;
        vstd::arithmetic::div_mod::lemma_div_multiples_vanish_quotient(unit, 2 * whole + 1, 2);
    }
}

/// Counts of up to 24 binary digits are exact, and come back as they were.
pub proof fn lemma_small_counts_are_exact(n: nat)
    requires
        n < 0x100_0000,
    ensures
        Scalar::of_count_spec(n).is_finite_spec(),
        Scalar::of_count_spec(n).value() == n * pow2(149),
        Scalar::of_count_spec(n).whole_spec() == n,
{
    let number = Scalar::of_count_spec(n);
    let unit = pow2(149);
    lemma_pow2_pos(149);
    assert(0 * unit == 0) by (nonlinear_arith);
    if n > 0 {
        let top = highest_digit(n);
        lemma_highest_digit(n);
        lemma2_to64();
        if top >= 24 {
            if top > 24 {
                lemma_pow2_strictly_increases(24, top);
            }
            assert(false);
        }
        lemma_leading_digits(n);
        let digits = leading_digits(n);
        assert(number.bits == (top + 126) * 0x80_0000 + digits);
        assert(number.magnitude() / 0x80_0000 == top + 127);
        assert(number.magnitude() % 0x80_0000 == digits - 0x80_0000);
        let scale = pow2((23 - top) as nat);
        let low = pow2((top + 126) as nat);
        lemma_pow2_adds((23 - top) as nat, (top + 126) as nat);
        assert((n * scale) * low == n * (scale * low)) by (nonlinear_arith);
    }
    vstd::arithmetic::div_mod::lemma_div_by_multiple(n as int, unit as int);
}

/// What the conversions of a number to a whole one are: the greatest that is no larger, the
/// least that is no smaller, and the nearest, away from zero where two are as near.  Values
/// are counted in units of two to the power of minus 149.
pub proof fn lemma_whole_numbers_are_close(number: Scalar)
    requires
        number.bits < 0x4f00_0000,
    ensures
        ({
            let unit = pow2(149) as int;
            let down = number.whole_spec();
            let up = number.ceiling_spec();
            let near = number.nearest_spec();
            &&& down * unit <= number.value() < (down + 1) * unit
            &&& (up - 1) * unit < number.value() <= up * unit
            &&& 2 * near * unit <= 2 * number.value() + unit
            &&& 2 * number.value() < 2 * near * unit + unit
            &&& (Scalar { bits: (number.bits + 0x8000_0000) as u32 }).nearest_spec() == -near
        }),
{
    let unit = pow2(149) as int;
    let value = number.value();
    let twice = 2 * value + unit;
    lemma_pow2_pos(149);
    lemma_nearest(number);
    vstd::arithmetic::div_mod::lemma_fundamental_div_mod(value, unit);
    vstd::arithmetic::div_mod::lemma_mod_bound(value, unit);
    vstd::arithmetic::div_mod::lemma_fundamental_div_mod(value + unit - 1, unit);
    vstd::arithmetic::div_mod::lemma_mod_bound(value + unit - 1, unit);
    vstd::arithmetic::div_mod::lemma_fundamental_div_mod(twice, 2 * unit);
    vstd::arithmetic::div_mod::lemma_mod_bound(twice, 2 * unit);
    let down = value / unit;
    let up = (value + unit - 1) / unit;
    let near = twice / (2 * unit);
    assert((down + 1) * unit == down * unit + unit && down * unit == unit * down)
        by (nonlinear_arith);
    assert((up - 1) * unit == up * unit - unit && up * unit == unit * up) by (nonlinear_arith);
    assert(2 * near * unit == (2 * unit) * near) by (nonlinear_arith);
    let negated = Scalar { bits: (number.bits + 0x8000_0000) as u32 };
    assert(negated.magnitude() == number.magnitude());
}

/// What is past the range of whole numbers becomes the nearest end of it, and what is no
/// number becomes zero.
pub proof fn lemma_whole_numbers_have_limits(number: Scalar)
    ensures
        0x5f80_0000 <= number.bits <= 0x7f80_0000 ==> number.whole_spec()
            == 0xffff_ffff_ffff_ffff && number.ceiling_spec() == 0xffff_ffff_ffff_ffff,
        0x8000_0000 <= number.bits || number.is_nan_spec() ==> number.whole_spec() == 0
            && number.ceiling_spec() == 0,
        0x4f00_0000 <= number.bits <= 0x7f80_0000 ==> number.nearest_spec() == 0x7fff_ffff,
        0xcf00_0000 <= number.bits <= 0xff80_0000 ==> number.nearest_spec() == -0x8000_0000,
        number.is_nan_spec() ==> number.nearest_spec() == 0,
{
}

} // verus!
