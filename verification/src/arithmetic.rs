//! Vector arithmetic on top of rounding operations that the caller supplies.

use crate::kernel::{function1, function3, image1, image3};
use crate::math::Vec3;
use crate::scalar::{Scalar, ONE_BITS, THREE_BITS, ZERO_BITS};
use vstd::prelude::*;

verus! {

/// An operation on two numbers that rounds its result.
#[derive(Clone, Copy, Debug, PartialEq, Eq, Structural)]
pub enum Operation {
    Sum,
    Difference,
    Product,
    Quotient,
    Power,
}

/// Rounding operations: `compute` carries one out, `normalize` scales a vector
/// to unit length where that is possible.
#[derive(Clone, Copy)]
pub struct Arithmetic<F, N> {
    pub compute: F,
    pub normalize: N,
}

/// The operations of an [`Arithmetic`] as mathematical functions.
pub struct ArithmeticModel {
    pub compute: spec_fn(Operation, Scalar, Scalar) -> Scalar,
    pub normalize: spec_fn(Vec3) -> Option<Vec3>,
}

impl ArithmeticModel {
    pub open spec fn sum(self, a: Scalar, b: Scalar) -> Scalar {
        (self.compute)(Operation::Sum, a, b)
    }

    pub open spec fn difference(self, a: Scalar, b: Scalar) -> Scalar {
        (self.compute)(Operation::Difference, a, b)
    }

    pub open spec fn product(self, a: Scalar, b: Scalar) -> Scalar {
        (self.compute)(Operation::Product, a, b)
    }

    pub open spec fn quotient(self, a: Scalar, b: Scalar) -> Scalar {
        (self.compute)(Operation::Quotient, a, b)
    }

    pub open spec fn power(self, a: Scalar, b: Scalar) -> Scalar {
        (self.compute)(Operation::Power, a, b)
    }

    /// Sums as a function of two numbers.
    pub open spec fn sums(self) -> spec_fn(Scalar, Scalar) -> Scalar {
        |a: Scalar, b: Scalar| self.sum(a, b)
    }

    /// The means of sums of so many numbers, by division.
    pub open spec fn means(self) -> spec_fn(Scalar, u32) -> Scalar {
        |sum: Scalar, count: u32| self.quotient(sum, Scalar::of_count_spec(count as nat))
    }

    /// The means of sums of so many numbers, through the reciprocal of how many
    /// they are.
    pub open spec fn scaled_means(self) -> spec_fn(Scalar, u32) -> Scalar {
        |sum: Scalar, count: u32|
            self.product(
                sum,
                self.quotient(Scalar { bits: ONE_BITS }, Scalar::of_count_spec(count as nat)),
            )
    }

    /// The sum of two vectors.
    pub open spec fn plus(self, a: Vec3, b: Vec3) -> Vec3 {
        Vec3 { x: self.sum(a.x, b.x), y: self.sum(a.y, b.y), z: self.sum(a.z, b.z) }
    }

    /// The difference of two vectors.
    pub open spec fn minus(self, a: Vec3, b: Vec3) -> Vec3 {
        Vec3 {
            x: self.difference(a.x, b.x),
            y: self.difference(a.y, b.y),
            z: self.difference(a.z, b.z),
        }
    }

    /// A vector times a number.
    pub open spec fn times(self, a: Vec3, factor: Scalar) -> Vec3 {
        Vec3 {
            x: self.product(a.x, factor),
            y: self.product(a.y, factor),
            z: self.product(a.z, factor),
        }
    }

    /// The scalar product, summed from the left.
    pub open spec fn dot(self, a: Vec3, b: Vec3) -> Scalar {
        self.sum(
            self.sum(self.product(a.x, b.x), self.product(a.y, b.y)),
            self.product(a.z, b.z),
        )
    }

    /// The vector product.
    pub open spec fn cross(self, a: Vec3, b: Vec3) -> Vec3 {
        Vec3 {
            x: self.difference(self.product(a.y, b.z), self.product(a.z, b.y)),
            y: self.difference(self.product(a.z, b.x), self.product(a.x, b.z)),
            z: self.difference(self.product(a.x, b.y), self.product(a.y, b.x)),
        }
    }

    /// A vector divided by a number.
    pub open spec fn over(self, a: Vec3, divisor: Scalar) -> Vec3 {
        Vec3 {
            x: self.quotient(a.x, divisor),
            y: self.quotient(a.y, divisor),
            z: self.quotient(a.z, divisor),
        }
    }

    /// The mean of three vectors, summed from the left.
    pub open spec fn mean(self, a: Vec3, b: Vec3, c: Vec3) -> Vec3 {
        self.over(self.plus(self.plus(a, b), c), Scalar { bits: THREE_BITS })
    }

    /// The unit normal of the triangle between three points, or `None` where they
    /// span no area.
    pub open spec fn facet_normal(self, a: Vec3, b: Vec3, c: Vec3) -> Option<Vec3> {
        (self.normalize)(self.cross(self.minus(b, a), self.minus(c, a)))
    }
}

impl ArithmeticModel {
    /// Whether the operations are exact where nothing has to be rounded: a number
    /// less itself is zero, zero times or over a positive number is zero, a
    /// positive number over itself is one, and one times it is the number.
    pub open spec fn keeps_identities(self) -> bool {
        let zero = Scalar { bits: ZERO_BITS };
        let one = Scalar { bits: ONE_BITS };
        &&& forall|a: Scalar| a.is_finite_spec() ==> #[trigger] self.difference(a, a) == zero
        &&& forall|c: Scalar|
            c.is_finite_spec() && zero.lt_spec(c) ==> #[trigger] self.quotient(zero, c) == zero
        &&& forall|c: Scalar|
            c.is_finite_spec() && zero.lt_spec(c) ==> #[trigger] self.quotient(c, c) == one
        &&& forall|c: Scalar|
            c.is_finite_spec() && zero.lt_spec(c) ==> #[trigger] self.product(zero, c) == zero
        &&& forall|c: Scalar|
            c.is_finite_spec() && zero.lt_spec(c) ==> #[trigger] self.product(one, c) == c
    }

    /// Whether factors can be exchanged.
    pub open spec fn commutes(self) -> bool {
        forall|a: Scalar, b: Scalar|
            a.is_finite_spec() && b.is_finite_spec() ==> #[trigger] self.product(a, b)
                == self.product(b, a)
    }

    /// Whether a larger number leaves no smaller difference to a finite number.
    pub open spec fn orders_differences(self) -> bool {
        forall|a: Scalar, b: Scalar, c: Scalar|
            c.is_finite_spec() && a.le_spec(b) ==> (#[trigger] self.difference(a, c)).le_spec(
                #[trigger] self.difference(b, c),
            )
    }

    /// Whether a larger positive divisor of a finite number that is not negative
    /// gives no larger quotient.
    pub open spec fn orders_divisors(self) -> bool {
        let zero = Scalar { bits: ZERO_BITS };
        forall|a: Scalar, c: Scalar, d: Scalar|
            a.is_finite_spec() && zero.le_spec(a) && zero.lt_spec(c) && c.le_spec(d)
                ==> (#[trigger] self.quotient(a, d)).le_spec(#[trigger] self.quotient(a, c))
    }

    /// Whether rounding keeps numbers in order: a larger number gives no smaller
    /// product with a number that is not negative, no smaller quotient by a
    /// positive number and no smaller power, and zero stays zero.
    pub open spec fn keeps_order(self) -> bool {
        let zero = Scalar { bits: ZERO_BITS };
        let one = Scalar { bits: ONE_BITS };
        &&& forall|a: Scalar, b: Scalar, c: Scalar|
            a.is_finite_spec() && b.is_finite_spec() && c.is_finite_spec() && zero.le_spec(c)
                && a.le_spec(b) ==> #[trigger] self.product(c, a).le_spec(
                #[trigger] self.product(c, b),
            )
        &&& forall|a: Scalar, b: Scalar, c: Scalar|
            c.is_finite_spec() && zero.lt_spec(c) && a.le_spec(b) ==> #[trigger] self.quotient(
                a,
                c,
            ).le_spec(#[trigger] self.quotient(b, c))
        &&& forall|a: Scalar, b: Scalar, c: Scalar|
            a.is_finite_spec() && b.is_finite_spec() && c.is_finite_spec() && zero.le_spec(a)
                && a.le_spec(b) && one.le_spec(c) ==> #[trigger] self.power(a, c).le_spec(
                #[trigger] self.power(b, c),
            )
        &&& forall|c: Scalar|
            c.is_finite_spec() && zero.le_spec(c) ==> zero.le_spec(#[trigger] self.product(c, zero))
        &&& forall|a: Scalar, c: Scalar|
            zero.le_spec(a) && c.is_finite_spec() && zero.lt_spec(c) ==> zero.le_spec(
                #[trigger] self.quotient(a, c),
            )
        &&& forall|a: Scalar, c: Scalar|
            a.is_finite_spec() && zero.le_spec(a) && c.is_finite_spec() && one.le_spec(c)
                ==> zero.le_spec(#[trigger] self.power(a, c))
    }
}

impl<F, N> Arithmetic<F, N> where
    F: Fn(Operation, Scalar, Scalar) -> Scalar,
    N: Fn(Vec3) -> Option<Vec3>,
 {
    /// The closures are total functions.
    pub open spec fn wf(self) -> bool {
        &&& function3(self.compute)
        &&& function1(self.normalize)
    }

    /// The closures as mathematical functions.
    pub open spec fn model(self) -> ArithmeticModel {
        ArithmeticModel {
            compute: |operation: Operation, a: Scalar, b: Scalar|
                image3(self.compute, operation, a, b),
            normalize: |v: Vec3| image1(self.normalize, v),
        }
    }

    fn apply(&self, operation: Operation, a: Scalar, b: Scalar) -> (result: Scalar)
        requires
            self.wf(),
        ensures
            result == (self.model().compute)(operation, a, b),
    {
        let result = (self.compute)(operation, a, b);
        assert(result == image3(self.compute, operation, a, b));
        result
    }

    pub fn sum(&self, a: Scalar, b: Scalar) -> (result: Scalar)
        requires
            self.wf(),
        ensures
            result == self.model().sum(a, b),
    {
        self.apply(Operation::Sum, a, b)
    }

    pub fn difference(&self, a: Scalar, b: Scalar) -> (result: Scalar)
        requires
            self.wf(),
        ensures
            result == self.model().difference(a, b),
    {
        self.apply(Operation::Difference, a, b)
    }

    pub fn product(&self, a: Scalar, b: Scalar) -> (result: Scalar)
        requires
            self.wf(),
        ensures
            result == self.model().product(a, b),
    {
        self.apply(Operation::Product, a, b)
    }

    pub fn quotient(&self, a: Scalar, b: Scalar) -> (result: Scalar)
        requires
            self.wf(),
        ensures
            result == self.model().quotient(a, b),
    {
        self.apply(Operation::Quotient, a, b)
    }

    pub fn power(&self, a: Scalar, b: Scalar) -> (result: Scalar)
        requires
            self.wf(),
        ensures
            result == self.model().power(a, b),
    {
        self.apply(Operation::Power, a, b)
    }

    /// The vector of unit length in the same direction, where there is one.
    pub fn normalized(&self, v: Vec3) -> (unit: Option<Vec3>)
        requires
            self.wf(),
        ensures
            unit == (self.model().normalize)(v),
    {
        let unit = (self.normalize)(v);
        assert(unit == image1(self.normalize, v));
        unit
    }

    /// The sum of two vectors.
    pub fn plus(&self, a: Vec3, b: Vec3) -> (result: Vec3)
        requires
            self.wf(),
        ensures
            result == self.model().plus(a, b),
    {
        Vec3 { x: self.sum(a.x, b.x), y: self.sum(a.y, b.y), z: self.sum(a.z, b.z) }
    }

    /// The difference of two vectors.
    pub fn minus(&self, a: Vec3, b: Vec3) -> (result: Vec3)
        requires
            self.wf(),
        ensures
            result == self.model().minus(a, b),
    {
        Vec3 {
            x: self.difference(a.x, b.x),
            y: self.difference(a.y, b.y),
            z: self.difference(a.z, b.z),
        }
    }

    /// A vector times a number.
    pub fn times(&self, a: Vec3, factor: Scalar) -> (result: Vec3)
        requires
            self.wf(),
        ensures
            result == self.model().times(a, factor),
    {
        Vec3 {
            x: self.product(a.x, factor),
            y: self.product(a.y, factor),
            z: self.product(a.z, factor),
        }
    }

    /// The scalar product, summed from the left.
    pub fn dot(&self, a: Vec3, b: Vec3) -> (result: Scalar)
        requires
            self.wf(),
        ensures
            result == self.model().dot(a, b),
    {
        self.sum(
            self.sum(self.product(a.x, b.x), self.product(a.y, b.y)),
            self.product(a.z, b.z),
        )
    }

    /// The vector product.
    pub fn cross(&self, a: Vec3, b: Vec3) -> (result: Vec3)
        requires
            self.wf(),
        ensures
            result == self.model().cross(a, b),
    {
        Vec3 {
            x: self.difference(self.product(a.y, b.z), self.product(a.z, b.y)),
            y: self.difference(self.product(a.z, b.x), self.product(a.x, b.z)),
            z: self.difference(self.product(a.x, b.y), self.product(a.y, b.x)),
        }
    }

    /// A vector divided by a number.
    pub fn over(&self, a: Vec3, divisor: Scalar) -> (result: Vec3)
        requires
            self.wf(),
        ensures
            result == self.model().over(a, divisor),
    {
        Vec3 {
            x: self.quotient(a.x, divisor),
            y: self.quotient(a.y, divisor),
            z: self.quotient(a.z, divisor),
        }
    }

    /// The mean of three vectors, summed from the left.
    pub fn mean(&self, a: Vec3, b: Vec3, c: Vec3) -> (result: Vec3)
        requires
            self.wf(),
        ensures
            result == self.model().mean(a, b, c),
    {
        self.over(self.plus(self.plus(a, b), c), Scalar { bits: THREE_BITS })
    }

    /// The unit normal of the triangle between three points, or `None` where they
    /// span no area.
    pub fn facet_normal(&self, a: Vec3, b: Vec3, c: Vec3) -> (normal: Option<Vec3>)
        requires
            self.wf(),
        ensures
            normal == self.model().facet_normal(a, b, c),
    {
        self.normalized(self.cross(self.minus(b, a), self.minus(c, a)))
    }
}

/// What is computed of vectors, component by component, and in which order.
pub proof fn lemma_vectors_are_computed_by_component(
    model: ArithmeticModel,
    a: Vec3,
    b: Vec3,
    c: Vec3,
    f: Scalar,
)
    ensures
        ({
            let plus = |x: Scalar, y: Scalar| (model.compute)(Operation::Sum, x, y);
            let minus = |x: Scalar, y: Scalar| (model.compute)(Operation::Difference, x, y);
            let times = |x: Scalar, y: Scalar| (model.compute)(Operation::Product, x, y);
            let over = |x: Scalar, y: Scalar| (model.compute)(Operation::Quotient, x, y);
            let three = Scalar { bits: 0x4040_0000 };
            &&& model.plus(a, b).x == plus(a.x, b.x)
            &&& model.plus(a, b).y == plus(a.y, b.y)
            &&& model.plus(a, b).z == plus(a.z, b.z)
            &&& model.minus(a, b).x == minus(a.x, b.x)
            &&& model.minus(a, b).y == minus(a.y, b.y)
            &&& model.minus(a, b).z == minus(a.z, b.z)
            &&& model.times(a, f).x == times(a.x, f)
            &&& model.times(a, f).y == times(a.y, f)
            &&& model.times(a, f).z == times(a.z, f)
            &&& model.over(a, f).x == over(a.x, f)
            &&& model.over(a, f).y == over(a.y, f)
            &&& model.over(a, f).z == over(a.z, f)
            &&& model.dot(a, b) == plus(
                plus(times(a.x, b.x), times(a.y, b.y)),
                times(a.z, b.z),
            )
            &&& model.cross(a, b).x == minus(times(a.y, b.z), times(a.z, b.y))
            &&& model.cross(a, b).y == minus(times(a.z, b.x), times(a.x, b.z))
            &&& model.cross(a, b).z == minus(times(a.x, b.y), times(a.y, b.x))
            &&& model.mean(a, b, c).x == over(plus(plus(a.x, b.x), c.x), three)
            &&& model.mean(a, b, c).y == over(plus(plus(a.y, b.y), c.y), three)
            &&& model.mean(a, b, c).z == over(plus(plus(a.z, b.z), c.z), three)
            &&& model.power(f, f) == (model.compute)(Operation::Power, f, f)
        }),
{
}

/// The normal of a triangle points to the side from which its corners run
/// counterclockwise: it is the unit vector along the product of the edges from the
/// first corner to the second and to the third, in this order.
pub proof fn lemma_normals_follow_the_winding(model: ArithmeticModel, a: Vec3, b: Vec3, c: Vec3)
    ensures
        ({
            let minus = |x: Scalar, y: Scalar| (model.compute)(Operation::Difference, x, y);
            let times = |x: Scalar, y: Scalar| (model.compute)(Operation::Product, x, y);
            let (ex, ey, ez) = (minus(b.x, a.x), minus(b.y, a.y), minus(b.z, a.z));
            let (fx, fy, fz) = (minus(c.x, a.x), minus(c.y, a.y), minus(c.z, a.z));
            model.facet_normal(a, b, c) == (model.normalize)(
                Vec3 {
                    x: minus(times(ey, fz), times(ez, fy)),
                    y: minus(times(ez, fx), times(ex, fz)),
                    z: minus(times(ex, fy), times(ey, fx)),
                },
            )
        }),
{
}

/// Sums of samples and their means.
pub proof fn lemma_means_divide_by_the_count(model: ArithmeticModel, sum: Scalar, count: u32, b: Scalar)
    ensures
        ({
            let number = Scalar::of_count_spec(count as nat);
            let one = Scalar { bits: 0x3f80_0000 };
            &&& (model.sums())(sum, b) == (model.compute)(Operation::Sum, sum, b)
            &&& (model.means())(sum, count) == (model.compute)(Operation::Quotient, sum, number)
            &&& (model.scaled_means())(sum, count) == (model.compute)(
                Operation::Product,
                sum,
                (model.compute)(Operation::Quotient, one, number),
            )
        }),
{
}

} // verus!
