//! Single-precision numbers carried by their bit patterns.
//!
//! A [`Scalar`] is an IEEE 754 binary32 value held as the 32 bits that encode
//! it.  Ordering, classification, sign changes and clamping need no rounding,
//! so they are carried out on the bits; everything that rounds (sums, products,
//! roots) is left to the caller, who hands the resulting bits back.

use vstd::arithmetic::power2::{lemma_pow2_adds, lemma_pow2_pos, pow2};
use vstd::prelude::*;

verus! {

/// Bits of `0.0`.
pub const ZERO_BITS: u32 = 0x0000_0000;

/// Bits of `1.0`.
pub const ONE_BITS: u32 = 0x3f80_0000;

/// Bits of `0.5`.
pub const HALF_BITS: u32 = 0x3f00_0000;

/// Bits of `2.0`.
pub const TWO_BITS: u32 = 0x4000_0000;

/// Bits of `3.0`.
pub const THREE_BITS: u32 = 0x4040_0000;

/// Bits of two pi.
pub const TWO_PI_BITS: u32 = 0x40c9_0fdb;

/// Bits of `-1.0`.
pub const MINUS_ONE_BITS: u32 = 0xbf80_0000;

/// Bits of positive infinity.
pub const INFINITY_BITS: u32 = 0x7f80_0000;

/// Bits of negative infinity.
pub const NEG_INFINITY_BITS: u32 = 0xff80_0000;

/// The bit that carries the sign.
pub const SIGN_BIT: u32 = 0x8000_0000;

/// A binary32 number, held as its bit pattern.
#[derive(Clone, Copy, Debug)]
pub struct Scalar {
    pub bits: u32,
}

impl PartialEq for Scalar {
    /// `self == other` of IEEE 754: zeros of both signs are equal, and a pattern
    /// that is no number equals nothing.
    fn eq(&self, other: &Scalar) -> (equal: bool) {
        !self.is_nan() && !other.is_nan() && self.rank_key() == other.rank_key()
    }
}

impl vstd::std_specs::cmp::PartialEqSpecImpl for Scalar {
    open spec fn obeys_eq_spec() -> bool {
        true
    }

    open spec fn eq_spec(&self, other: &Scalar) -> bool {
        !self.is_nan_spec() && !other.is_nan_spec() && self.rank() == other.rank()
    }
}

/// The size of a finite number with magnitude bits `magnitude`, counted in
/// units of the smallest positive number (two to the power of minus 149).
pub open spec fn units(magnitude: int) -> int {
    let exponent = magnitude / 0x80_0000;
    let fraction = magnitude % 0x80_0000;
    if exponent <= 0 {
        fraction
    } else {
        (0x80_0000 + fraction) * pow2((exponent - 1) as nat) as int
    }
}

impl Scalar {
    /// Whether the sign bit is set.
    pub open spec fn is_negative_spec(self) -> bool {
        self.bits >= SIGN_BIT
    }

    /// The bits without the sign.
    pub open spec fn magnitude(self) -> int {
        if self.bits >= SIGN_BIT {
            self.bits - SIGN_BIT
        } else {
            self.bits as int
        }
    }

    /// Whether this pattern encodes no number.
    pub open spec fn is_nan_spec(self) -> bool {
        self.magnitude() > INFINITY_BITS
    }

    /// Whether this pattern encodes a number other than the infinities.
    pub open spec fn is_finite_spec(self) -> bool {
        self.magnitude() < INFINITY_BITS
    }

    /// The position of a number (infinities included) on the number line:
    /// patterns that encode the same number share a rank, and a larger number
    /// has a larger rank (see [`lemma_rank_orders_values`]).
    pub open spec fn rank(self) -> int {
        if self.is_negative_spec() {
            -self.magnitude()
        } else {
            self.magnitude()
        }
    }

    /// The exact value of a finite number, in units of two to the power of
    /// minus 149.
    pub open spec fn value(self) -> int {
        if self.is_negative_spec() {
            -units(self.magnitude())
        } else {
            units(self.magnitude())
        }
    }

    /// `self < other` of IEEE 754: false as soon as one side is no number.
    pub open spec fn lt_spec(self, other: Scalar) -> bool {
        !self.is_nan_spec() && !other.is_nan_spec() && self.rank() < other.rank()
    }

    /// `self <= other` of IEEE 754.
    pub open spec fn le_spec(self, other: Scalar) -> bool {
        !self.is_nan_spec() && !other.is_nan_spec() && self.rank() <= other.rank()
    }

    /// The smaller of two numbers; a pattern that is no number loses.
    pub open spec fn min_spec(self, other: Scalar) -> Scalar {
        if self.is_nan_spec() || other.lt_spec(self) {
            other
        } else {
            self
        }
    }

    /// The larger of two numbers; a pattern that is no number loses.
    pub open spec fn max_spec(self, other: Scalar) -> Scalar {
        if self.is_nan_spec() || self.lt_spec(other) {
            other
        } else {
            self
        }
    }

    /// `self` moved into `low ..= high`.
    pub open spec fn clamp_spec(self, low: Scalar, high: Scalar) -> Scalar {
        if self.lt_spec(low) {
            low
        } else if high.lt_spec(self) {
            high
        } else {
            self
        }
    }

    /// The same pattern with the sign bit cleared.
    pub open spec fn abs_spec(self) -> Scalar {
        Scalar { bits: self.magnitude() as u32 }
    }

    /// The same pattern with the sign bit flipped.
    pub open spec fn neg_spec(self) -> Scalar {
        if self.is_negative_spec() {
            Scalar { bits: (self.bits - SIGN_BIT) as u32 }
        } else {
            Scalar { bits: (self.bits + SIGN_BIT) as u32 }
        }
    }

    /// The number encoded by `bits`.
    pub fn from_bits(bits: u32) -> (number: Scalar)
        ensures
            number.bits == bits,
    {
        Scalar { bits }
    }

    /// The bits that encode this number.
    pub fn to_bits(self) -> (bits: u32)
        ensures
            bits == self.bits,
    {
        self.bits
    }

    /// `0.0`.
    pub fn zero() -> (number: Scalar)
        ensures
            number.bits == ZERO_BITS,
    {
        Scalar { bits: ZERO_BITS }
    }

    /// `1.0`.
    pub fn one() -> (number: Scalar)
        ensures
            number.bits == ONE_BITS,
    {
        Scalar { bits: ONE_BITS }
    }

    fn magnitude_bits(self) -> (magnitude: u32)
        ensures
            magnitude == self.magnitude(),
    {
        if self.bits >= SIGN_BIT {
            self.bits - SIGN_BIT
        } else {
            self.bits
        }
    }

    /// The rank as a machine integer.
    pub fn rank_key(self) -> (key: i64)
        ensures
            key == self.rank(),
    {
        if self.bits >= SIGN_BIT {
            -((self.bits - SIGN_BIT) as i64)
        } else {
            self.bits as i64
        }
    }

    /// Whether this pattern encodes no number.
    pub fn is_nan(self) -> (result: bool)
        ensures
            result == self.is_nan_spec(),
    {
        self.magnitude_bits() > INFINITY_BITS
    }

    /// Whether this pattern encodes a number other than the infinities.
    pub fn is_finite(self) -> (result: bool)
        ensures
            result == self.is_finite_spec(),
    {
        self.magnitude_bits() < INFINITY_BITS
    }

    /// Whether `self < other`.
    pub fn less_than(self, other: Scalar) -> (result: bool)
        ensures
            result == self.lt_spec(other),
    {
        !self.is_nan() && !other.is_nan() && self.rank_key() < other.rank_key()
    }

    /// Whether `self <= other`.
    pub fn at_most(self, other: Scalar) -> (result: bool)
        ensures
            result == self.le_spec(other),
    {
        !self.is_nan() && !other.is_nan() && self.rank_key() <= other.rank_key()
    }

    /// The smaller of two numbers; a pattern that is no number loses.
    pub fn min(self, other: Scalar) -> (result: Scalar)
        ensures
            result == self.min_spec(other),
    {
        if self.is_nan() || other.less_than(self) {
            other
        } else {
            self
        }
    }

    /// The larger of two numbers; a pattern that is no number loses.
    pub fn max(self, other: Scalar) -> (result: Scalar)
        ensures
            result == self.max_spec(other),
    {
        if self.is_nan() || self.less_than(other) {
            other
        } else {
            self
        }
    }

    /// `self` moved into `low ..= high`.
    pub fn clamp(self, low: Scalar, high: Scalar) -> (result: Scalar)
        requires
            low.le_spec(high),
        ensures
            result == self.clamp_spec(low, high),
    {
        if self.less_than(low) {
            low
        } else if high.less_than(self) {
            high
        } else {
            self
        }
    }

    /// The number without its sign.
    pub fn abs(self) -> (result: Scalar)
        ensures
            result == self.abs_spec(),
    {
        Scalar { bits: self.magnitude_bits() }
    }

    /// The number with its sign flipped.
    pub fn neg(self) -> (result: Scalar)
        ensures
            result == self.neg_spec(),
    {
        if self.bits >= SIGN_BIT {
            Scalar { bits: self.bits - SIGN_BIT }
        } else {
            Scalar { bits: self.bits + SIGN_BIT }
        }
    }
}

/// A larger magnitude below infinity stands for a larger size.
proof fn lemma_units_increase(small: int, large: int)
    requires
        0 <= small < large,
    ensures
        0 <= units(small) < units(large),
{
    let e1 = small / 0x80_0000;
    let m1 = small % 0x80_0000;
    let e2 = large / 0x80_0000;
    let m2 = large % 0x80_0000;
    assert(e1 <= e2);
    assert(e1 == e2 ==> m1 < m2);
    if e2 > 0 {
        let p2 = pow2((e2 - 1) as nat) as int;
        lemma_pow2_pos((e2 - 1) as nat);
        if e1 == 0 {
            assert((0x80_0000 + m2) * p2 >= 0x80_0000 + m2) by (nonlinear_arith)
                requires
                    p2 >= 1,
                    m2 >= 0,
            ;
        } else {
            let p1 = pow2((e1 - 1) as nat) as int;
            lemma_pow2_pos((e1 - 1) as nat);
            assert(0 <= (0x80_0000 + m1) * p1) by (nonlinear_arith)
                requires
                    p1 >= 1,
                    m1 >= 0,
            ;
            if e1 == e2 {
                assert((0x80_0000 + m1) * p1 < (0x80_0000 + m2) * p1) by (nonlinear_arith)
                    requires
                        p1 >= 1,
                        m1 < m2,
                ;
            } else {
                let gap = pow2((e2 - e1) as nat) as int;
                lemma_pow2_adds((e1 - 1) as nat, (e2 - e1) as nat);
                lemma_pow2_adds(1, (e2 - e1 - 1) as nat);
                lemma_pow2_pos((e2 - e1 - 1) as nat);
                vstd::arithmetic::power2::lemma2_to64();
                assert(gap >= 2);
                assert(p2 == p1 * gap);
                assert((0x80_0000 + m1) * p1 < (0x80_0000 + m2) * p2) by (nonlinear_arith)
                    requires
                        p2 == p1 * gap,
                        p1 >= 1,
                        gap >= 2,
                        0 <= m1 < 0x80_0000,
                        m2 >= 0,
                ;
            }
        }
    }
}

/// The rank orders finite numbers exactly as their values do.
pub proof fn lemma_rank_orders_values(a: Scalar, b: Scalar)
    requires
        a.is_finite_spec(),
        b.is_finite_spec(),
    ensures
        a.rank() < b.rank() <==> a.value() < b.value(),
        a.rank() == b.rank() <==> a.value() == b.value(),
{
    let ma = a.magnitude();
    let mb = b.magnitude();
    if ma < mb {
        lemma_units_increase(ma, mb);
    }
    if mb < ma {
        lemma_units_increase(mb, ma);
    }
    if 0 < ma {
        lemma_units_increase(0, ma);
    }
    if 0 < mb {
        lemma_units_increase(0, mb);
    }
}

/// Comparing, choosing and moving numbers follow their exact values, whatever their
/// bits; zeros of both signs are the same number.
pub proof fn lemma_order_is_that_of_values(a: Scalar, b: Scalar, low: Scalar, high: Scalar)
    requires
        a.is_finite_spec(),
        b.is_finite_spec(),
        low.is_finite_spec(),
        high.is_finite_spec(),
        low.value() <= high.value(),
    ensures
        a.lt_spec(b) <==> a.value() < b.value(),
        a.le_spec(b) <==> a.value() <= b.value(),
        a.min_spec(b) == a || a.min_spec(b) == b,
        a.min_spec(b).value() <= a.value() && a.min_spec(b).value() <= b.value(),
        a.max_spec(b) == a || a.max_spec(b) == b,
        a.max_spec(b).value() >= a.value() && a.max_spec(b).value() >= b.value(),
        low.value() <= a.value() <= high.value() ==> a.clamp_spec(low, high) == a,
        a.value() < low.value() ==> a.clamp_spec(low, high) == low,
        a.value() > high.value() ==> a.clamp_spec(low, high) == high,
        a.neg_spec().value() == -a.value(),
        a.value() >= 0 ==> a.abs_spec().value() == a.value(),
        a.value() <= 0 ==> a.abs_spec().value() == -a.value(),
{
    lemma_rank_orders_values(a, b);
    lemma_rank_orders_values(a, low);
    lemma_rank_orders_values(a, high);
    let zero = Scalar { bits: 0 };
    lemma_rank_orders_values(zero, a);
    lemma_rank_orders_values(zero, a.abs_spec());
}

/// What a bit pattern is: with the exponent all ones it is infinite or, with any
/// digit behind it, no number.  A pattern that is no number is neither smaller nor
/// larger than anything, and gives way to a number.  Everything finite lies between
/// the infinities.
pub proof fn lemma_patterns(a: Scalar, b: Scalar)
    ensures
        a.is_nan_spec() <==> 0x7f80_0000 < a.bits < 0x8000_0000 || 0xff80_0000 < a.bits,
        a.is_finite_spec() <==> a.bits < 0x7f80_0000 || 0x8000_0000 <= a.bits < 0xff80_0000,
        a.is_nan_spec() || b.is_nan_spec() ==> !a.lt_spec(b) && !a.le_spec(b),
        a.is_nan_spec() ==> a.min_spec(b) == b && a.max_spec(b) == b,
        !a.is_nan_spec() && b.is_nan_spec() ==> a.min_spec(b) == a && a.max_spec(b) == a,
        a.is_finite_spec() ==> a.lt_spec(Scalar { bits: 0x7f80_0000 }) && (Scalar {
            bits: 0xff80_0000,
        }).lt_spec(a),
        (Scalar { bits: 0xff80_0000 }).lt_spec(Scalar { bits: 0x7f80_0000 }),
        !a.is_nan_spec() && !b.is_nan_spec() ==> (a.lt_spec(b) || b.le_spec(a)),
        a.is_negative_spec() <==> a.bits >= 0x8000_0000,
        a.neg_spec().neg_spec() == a,
        a.bits < 0x8000_0000 ==> a.neg_spec().bits == a.bits + 0x8000_0000,
        a.abs_spec().bits < 0x8000_0000,
        a.abs_spec() == a || a.abs_spec() == a.neg_spec(),
{
}

} // verus!
