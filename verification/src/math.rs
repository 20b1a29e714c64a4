//! Three-component vectors.

use crate::scalar::{Scalar, ZERO_BITS};
use vstd::prelude::*;

verus! {

/// The componentwise minimum of a non-empty sequence, taken from the left.
pub open spec fn least(points: Seq<Vec3>) -> Vec3
    decreases points.len(),
{
    if points.len() <= 1 {
        points[0]
    } else {
        least(points.drop_last()).min_spec(points.last())
    }
}

/// The componentwise maximum of a non-empty sequence, taken from the left.
pub open spec fn greatest(points: Seq<Vec3>) -> Vec3
    decreases points.len(),
{
    if points.len() <= 1 {
        points[0]
    } else {
        greatest(points.drop_last()).max_spec(points.last())
    }
}

/// `low` is below, or at, every component of `point` that is a number.
pub open spec fn bounds_below(low: Vec3, point: Vec3) -> bool {
    forall|axis: int|
        0 <= axis < 3 && !(#[trigger] point.axis_spec(axis)).is_nan_spec() ==> low.axis_spec(
            axis,
        ).le_spec(point.axis_spec(axis))
}

/// `high` is above, or at, every component of `point` that is a number.
pub open spec fn bounds_above(high: Vec3, point: Vec3) -> bool {
    forall|axis: int|
        0 <= axis < 3 && !(#[trigger] point.axis_spec(axis)).is_nan_spec() ==> point.axis_spec(
            axis,
        ).le_spec(high.axis_spec(axis))
}

/// `component` is the component of one of the points along `axis`.
pub open spec fn attained(points: Seq<Vec3>, axis: int, component: Scalar) -> bool {
    exists|i: int| 0 <= i < points.len() && (#[trigger] points[i]).axis_spec(axis) == component
}

/// The minimum lies below every point, and each of its components is a
/// component of one of the points.
pub proof fn lemma_least_is_tight(points: Seq<Vec3>)
    requires
        points.len() > 0,
    ensures
        forall|i: int| 0 <= i < points.len() ==> bounds_below(least(points), #[trigger] points[i]),
        forall|axis: int|
            0 <= axis < 3 ==> #[trigger] attained(points, axis, least(points).axis_spec(axis)),
    decreases points.len(),
{
    let whole = least(points);
    if points.len() == 1 {
        assert forall|axis: int| 0 <= axis < 3 implies #[trigger] attained(
            points,
            axis,
            whole.axis_spec(axis),
        ) by {
            assert(points[0].axis_spec(axis) == whole.axis_spec(axis));
        }
    } else {
        let front = points.drop_last();
        lemma_least_is_tight(front);
        assert forall|i: int| 0 <= i < points.len() implies bounds_below(
            whole,
            #[trigger] points[i],
        ) by {
            if i < front.len() {
                assert(points[i] == front[i]);
                assert(bounds_below(least(front), front[i]));
            }
            assert forall|axis: int|
                0 <= axis < 3 && !(#[trigger] points[i].axis_spec(axis)).is_nan_spec() implies whole.axis_spec(
            axis).le_spec(points[i].axis_spec(axis)) by {
                if i < front.len() {
                    assert(least(front).axis_spec(axis).le_spec(front[i].axis_spec(axis)));
                }
            }
        }
        assert forall|axis: int| 0 <= axis < 3 implies #[trigger] attained(
            points,
            axis,
            whole.axis_spec(axis),
        ) by {
            if whole.axis_spec(axis) == points.last().axis_spec(axis) {
                assert(points[points.len() - 1].axis_spec(axis) == whole.axis_spec(axis));
            } else {
                assert(whole.axis_spec(axis) == least(front).axis_spec(axis));
                assert(attained(front, axis, least(front).axis_spec(axis)));
                let i = choose|i: int|
                    0 <= i < front.len() && (#[trigger] front[i]).axis_spec(axis) == least(
                        front,
                    ).axis_spec(axis);
                assert(points[i].axis_spec(axis) == front[i].axis_spec(axis));
            }
        }
    }
}

/// The maximum lies above every point, and each of its components is a
/// component of one of the points.
pub proof fn lemma_greatest_is_tight(points: Seq<Vec3>)
    requires
        points.len() > 0,
    ensures
        forall|i: int|
            0 <= i < points.len() ==> bounds_above(greatest(points), #[trigger] points[i]),
        forall|axis: int|
            0 <= axis < 3 ==> #[trigger] attained(points, axis, greatest(points).axis_spec(axis)),
    decreases points.len(),
{
    let whole = greatest(points);
    if points.len() == 1 {
        assert forall|axis: int| 0 <= axis < 3 implies #[trigger] attained(
            points,
            axis,
            whole.axis_spec(axis),
        ) by {
            assert(points[0].axis_spec(axis) == whole.axis_spec(axis));
        }
    } else {
        let front = points.drop_last();
        lemma_greatest_is_tight(front);
        assert forall|i: int| 0 <= i < points.len() implies bounds_above(
            whole,
            #[trigger] points[i],
        ) by {
            if i < front.len() {
                assert(points[i] == front[i]);
                assert(bounds_above(greatest(front), front[i]));
            }
            assert forall|axis: int|
                0 <= axis < 3 && !(#[trigger] points[i].axis_spec(axis)).is_nan_spec() implies points[i].axis_spec(
            axis).le_spec(whole.axis_spec(axis)) by {
                if i < front.len() {
                    assert(front[i].axis_spec(axis).le_spec(greatest(front).axis_spec(axis)));
                }
            }
        }
        assert forall|axis: int| 0 <= axis < 3 implies #[trigger] attained(
            points,
            axis,
            whole.axis_spec(axis),
        ) by {
            if whole.axis_spec(axis) == points.last().axis_spec(axis) {
                assert(points[points.len() - 1].axis_spec(axis) == whole.axis_spec(axis));
            } else {
                assert(whole.axis_spec(axis) == greatest(front).axis_spec(axis));
                assert(attained(front, axis, greatest(front).axis_spec(axis)));
                let i = choose|i: int|
                    0 <= i < front.len() && (#[trigger] front[i]).axis_spec(axis) == greatest(
                        front,
                    ).axis_spec(axis);
                assert(points[i].axis_spec(axis) == front[i].axis_spec(axis));
            }
        }
    }
}

/// A point, direction or color.
#[derive(Clone, Copy, Debug, PartialEq)]
pub struct Vec3 {
    pub x: Scalar,
    pub y: Scalar,
    pub z: Scalar,
}

/// Four components, as the renderer's buffers hold them.
#[derive(Clone, Copy, Debug, PartialEq)]
pub struct Vec4 {
    pub x: Scalar,
    pub y: Scalar,
    pub z: Scalar,
    pub w: Scalar,
}

impl Vec3 {
    /// The vector with a fourth component of zero.
    pub open spec fn extend_spec(self) -> Vec4 {
        Vec4 { x: self.x, y: self.y, z: self.z, w: Scalar { bits: ZERO_BITS } }
    }

    /// The componentwise minimum.
    pub open spec fn min_spec(self, other: Vec3) -> Vec3 {
        Vec3 {
            x: self.x.min_spec(other.x),
            y: self.y.min_spec(other.y),
            z: self.z.min_spec(other.z),
        }
    }

    /// The componentwise maximum.
    pub open spec fn max_spec(self, other: Vec3) -> Vec3 {
        Vec3 {
            x: self.x.max_spec(other.x),
            y: self.y.max_spec(other.y),
            z: self.z.max_spec(other.z),
        }
    }

    /// Whether every component is finite.
    pub open spec fn is_finite_spec(self) -> bool {
        self.x.is_finite_spec() && self.y.is_finite_spec() && self.z.is_finite_spec()
    }

    /// The component along axis 0, 1 or (any other number) 2.
    pub open spec fn axis_spec(self, axis: int) -> Scalar {
        if axis == 0 {
            self.x
        } else if axis == 1 {
            self.y
        } else {
            self.z
        }
    }

    /// A vector of three components.
    pub fn new(x: Scalar, y: Scalar, z: Scalar) -> (vector: Vec3)
        ensures
            vector == (Vec3 { x, y, z }),
    {
        Vec3 { x, y, z }
    }

    /// The componentwise minimum.
    pub fn min(self, other: Vec3) -> (result: Vec3)
        ensures
            result == self.min_spec(other),
    {
        Vec3 { x: self.x.min(other.x), y: self.y.min(other.y), z: self.z.min(other.z) }
    }

    /// The componentwise maximum.
    pub fn max(self, other: Vec3) -> (result: Vec3)
        ensures
            result == self.max_spec(other),
    {
        Vec3 { x: self.x.max(other.x), y: self.y.max(other.y), z: self.z.max(other.z) }
    }

    /// The vector with a fourth component of zero.
    pub fn extend(self) -> (extended: Vec4)
        ensures
            extended == self.extend_spec(),
    {
        Vec4 { x: self.x, y: self.y, z: self.z, w: Scalar::zero() }
    }

    /// Whether every component is finite.
    pub fn is_finite(self) -> (result: bool)
        ensures
            result == self.is_finite_spec(),
    {
        self.x.is_finite() && self.y.is_finite() && self.z.is_finite()
    }
}

/// The points whose coordinates are the first three of every `stride` numbers;
/// numbers that do not fill a group are left out.
pub open spec fn chunk_points(values: Seq<Scalar>, stride: int) -> Seq<Vec3> {
    Seq::new(
        (values.len() as int / stride) as nat,
        |i: int|
            Vec3 {
                x: values[i * stride],
                y: values[i * stride + 1],
                z: values[i * stride + 2],
            },
    )
}

/// Groups numbers into points, `stride` numbers for each.
pub fn points_from(values: &Vec<Scalar>, stride: usize) -> (points: Vec<Vec3>)
    requires
        3 <= stride,
    ensures
        points@ == chunk_points(values@, stride as int),
{
    let mut points: Vec<Vec3> = Vec::new();
    let mut offset: usize = 0;
    let ghost count = values@.len() as int / stride as int;
    proof {
        vstd::arithmetic::div_mod::lemma_fundamental_div_mod(values@.len() as int, stride as int);
        vstd::arithmetic::div_mod::lemma_mod_bound(values@.len() as int, stride as int);
        assert(0 * (stride as int) == 0);
    }
    while values.len() - offset >= stride
        invariant
            3 <= stride,
            offset <= values@.len(),
            offset == points@.len() * stride,
            count == values@.len() as int / stride as int,
            stride * count <= values@.len() < stride * count + stride,
            points@.len() <= count,
            points@ == chunk_points(values@, stride as int).take(points@.len() as int),
        decreases values@.len() - offset,
    {
        let ghost n = points@.len() as int;
        let ghost all = chunk_points(values@, stride as int);
        assert(n < count) by (nonlinear_arith)
            requires
                offset == n * stride,
                values@.len() - offset >= stride,
                values@.len() < stride * count + stride,
                stride >= 3,
        ;
        let point = Vec3 { x: values[offset], y: values[offset + 1], z: values[offset + 2] };
        assert(point == all[n]);
        points.push(point);
        assert(points@ =~= all.take(n + 1));
        assert((n + 1) * stride == n * stride + stride) by (nonlinear_arith);
        offset += stride;
    }
    assert(points@.len() == count) by (nonlinear_arith)
        requires
            offset == points@.len() * stride,
            values@.len() - offset < stride,
            stride * count <= values@.len(),
            points@.len() <= count,
            stride >= 3,
    ;
    assert(points@ =~= chunk_points(values@, stride as int));
    points
}

/// Points are made of numbers in order: of each group the first three are x, y and z, and
/// numbers that fill no group make no point.
pub proof fn lemma_points_take_three_of_each_group(values: Seq<Scalar>, stride: int, i: int)
    requires
        3 <= stride,
        0 <= i < chunk_points(values, stride).len(),
    ensures
        chunk_points(values, stride).len() * stride <= values.len() < (chunk_points(
            values,
            stride,
        ).len() + 1) * stride,
        chunk_points(values, stride)[i].x == values[i * stride],
        chunk_points(values, stride)[i].y == values[i * stride + 1],
        chunk_points(values, stride)[i].z == values[i * stride + 2],
        0 <= i * stride && i * stride + 2 < values.len(),
{
    let all = values.len() as int;
    let count = all / stride;
    vstd::arithmetic::div_mod::lemma_fundamental_div_mod(all, stride);
    vstd::arithmetic::div_mod::lemma_mod_bound(all, stride);
    assert(count * stride <= all < (count + 1) * stride && 0 <= i * stride && i * stride + 2 < all)
        by (nonlinear_arith)
        requires
            all == stride * count + all % stride,
            0 <= all % stride < stride,
            0 <= i < count,
            3 <= stride,
    ;
}

/// A vector with a fourth component has zero there.
pub proof fn lemma_fourth_component_is_zero(v: Vec3, w: Vec3)
    ensures
        v.extend_spec().x == v.x,
        v.extend_spec().y == v.y,
        v.extend_spec().z == v.z,
        v.extend_spec().w.bits == 0,
        v.axis_spec(0) == v.x,
        v.axis_spec(1) == v.y,
        v.axis_spec(2) == v.z,
        v.is_finite_spec() <==> v.x.is_finite_spec() && v.y.is_finite_spec()
            && v.z.is_finite_spec(),
        v.min_spec(w).x == v.x.min_spec(w.x),
        v.min_spec(w).y == v.y.min_spec(w.y),
        v.min_spec(w).z == v.z.min_spec(w.z),
        v.max_spec(w).x == v.x.max_spec(w.x),
        v.max_spec(w).y == v.y.max_spec(w.y),
        v.max_spec(w).z == v.z.max_spec(w.z),
{
}

} // verus!
