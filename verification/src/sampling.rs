//! Directions of texels and positions of samples.

use crate::arithmetic::{Arithmetic, ArithmeticModel, Operation};
use crate::kernel::{function1, image1, model1};
use crate::math::Vec3;
use crate::scalar::{Scalar, HALF_BITS, ONE_BITS, TWO_PI_BITS, ZERO_BITS};
use vstd::prelude::*;

verus! {

/// Bits of a quarter turn: half of pi.
pub const QUARTER_TURN_BITS: u32 = 0x3fc9_0fdb;

/// The center of a cell of a grid over the unit square, as exact fractions:
/// `u_num / u_den` across and `v_num / v_den` down.
#[derive(Clone, Copy, Debug, PartialEq, Eq, Structural)]
pub struct TexelCenter {
    pub u_num: u64,
    pub u_den: u64,
    pub v_num: u64,
    pub v_den: u64,
}

impl TexelCenter {
    /// The center of the cell in column `x` and row `y`: at `x + 1/2` of `width`
    /// columns and `y + 1/2` of `height` rows.
    pub open spec fn of(x: int, y: int, width: int, height: int) -> TexelCenter {
        TexelCenter {
            u_num: (2 * x + 1) as u64,
            u_den: (2 * width) as u64,
            v_num: (2 * y + 1) as u64,
            v_den: (2 * height) as u64,
        }
    }

    /// The azimuth from +Z toward +X that the center stands for, as a numerator
    /// over `azimuth_den` turns: half a turn less than `u`.
    pub open spec fn azimuth_num(self) -> int {
        2 * self.u_num - self.u_den
    }

    /// The denominator of the azimuth.
    pub open spec fn azimuth_den(self) -> int {
        2 * self.u_den
    }

    /// The elevation above the horizon that the center stands for, as a
    /// numerator over `v_den` quarter turns: what `v` leaves of one.
    pub open spec fn elevation_num(self) -> int {
        self.v_den - self.v_num
    }
}

/// The center of the cell in column `x` and row `y` of a grid.
pub fn texel_center(x: u32, y: u32, width: u32, height: u32) -> (center: TexelCenter)
    ensures
        center == TexelCenter::of(x as int, y as int, width as int, height as int),
{
    TexelCenter {
        u_num: 2 * (x as u64) + 1,
        u_den: 2 * (width as u64),
        v_num: 2 * (y as u64) + 1,
        v_den: 2 * (height as u64),
    }
}

/// The rounding arithmetic behind directions: besides the operations on two
/// numbers, the sine and the cosine of an angle.
pub struct LatlongMath<F, N, S, C> {
    pub operations: Arithmetic<F, N>,
    pub sine: S,
    pub cosine: C,
}

/// The arithmetic of a [`LatlongMath`] as mathematical functions.
pub struct LatlongModel {
    pub operations: ArithmeticModel,
    pub sine: spec_fn(Scalar) -> Scalar,
    pub cosine: spec_fn(Scalar) -> Scalar,
}

impl ArithmeticModel {
    /// How far along the center of a cell lies: the number of the cell and a half,
    /// over the number of cells.
    pub open spec fn fraction(self, num: u64, den: u64) -> Scalar {
        self.quotient(
            self.sum(Scalar::of_count_spec((num / 2) as nat), Scalar { bits: HALF_BITS }),
            Scalar::of_count_spec((den / 2) as nat),
        )
    }
}

impl<F, N> Arithmetic<F, N> where
    F: Fn(Operation, Scalar, Scalar) -> Scalar,
    N: Fn(Vec3) -> Option<Vec3>,
 {
    /// How far along the center of a cell lies.
    fn fraction(&self, num: u64, den: u64) -> (fraction: Scalar)
        requires
            self.wf(),
        ensures
            fraction == self.model().fraction(num, den),
    {
        self.quotient(
            self.sum(Scalar::of_count(num / 2), Scalar { bits: HALF_BITS }),
            Scalar::of_count(den / 2),
        )
    }
}

impl LatlongModel {
    /// The angle from +Z toward +X at a fraction of the way across: half a turn
    /// less than that fraction of a turn.
    pub open spec fn azimuth(self, num: u64, den: u64) -> Scalar {
        self.operations.product(
            self.operations.difference(self.operations.fraction(num, den), Scalar { bits: HALF_BITS }),
            Scalar { bits: TWO_PI_BITS },
        )
    }

    /// The angle above the horizon at a fraction of the way down: what that leaves
    /// of a quarter turn.
    pub open spec fn elevation(self, num: u64, den: u64) -> Scalar {
        self.operations.product(
            self.operations.difference(Scalar { bits: ONE_BITS }, self.operations.fraction(num, den)),
            Scalar { bits: QUARTER_TURN_BITS },
        )
    }

    /// The unit vector at an azimuth and an elevation: with the sine of the
    /// elevation as its height, and its cosine as the distance from the vertical.
    pub open spec fn direction_spec(self, center: TexelCenter) -> Vec3 {
        let azimuth = self.azimuth(center.u_num, center.u_den);
        let elevation = self.elevation(center.v_num, center.v_den);
        let horizontal = (self.cosine)(elevation);
        Vec3 {
            x: self.operations.product((self.sine)(azimuth), horizontal),
            y: (self.sine)(elevation),
            z: self.operations.product((self.cosine)(azimuth), horizontal),
        }
    }

    /// The unit vectors that the centers of texels stand for.
    pub open spec fn directions(self) -> spec_fn(TexelCenter) -> Vec3 {
        |center: TexelCenter| self.direction_spec(center)
    }

    /// Whether elevations at fractions with the denominator `den` fall on the way
    /// down, between a quarter turn and the horizon, and sines rise there.
    pub open spec fn is_ordered(self, den: u64) -> bool {
        let zero = Scalar { bits: ZERO_BITS };
        let quarter = Scalar { bits: QUARTER_TURN_BITS };
        &&& forall|upper: u64, lower: u64|
            upper <= lower < den ==> {
                let high = #[trigger] self.elevation(upper, den);
                let low = #[trigger] self.elevation(lower, den);
                zero.lt_spec(low) && low.le_spec(high) && high.le_spec(quarter)
            }
        &&& forall|low: Scalar, high: Scalar|
            zero.lt_spec(low) && low.le_spec(high) && high.le_spec(quarter) ==> {
                &&& zero.lt_spec(#[trigger] (self.sine)(low))
                &&& (self.sine)(low).le_spec(#[trigger] (self.sine)(high))
            }
    }
}

impl<F, N, S, C> LatlongMath<F, N, S, C> where
    F: Fn(Operation, Scalar, Scalar) -> Scalar,
    N: Fn(Vec3) -> Option<Vec3>,
    S: Fn(Scalar) -> Scalar,
    C: Fn(Scalar) -> Scalar,
 {
    /// The closures are total functions.
    pub open spec fn wf(self) -> bool {
        &&& self.operations.wf()
        &&& function1(self.sine)
        &&& function1(self.cosine)
    }

    /// The closures as mathematical functions.
    pub open spec fn model(self) -> LatlongModel {
        LatlongModel {
            operations: self.operations.model(),
            sine: model1(self.sine),
            cosine: model1(self.cosine),
        }
    }

    /// The unit vector that the center of a texel stands for.
    pub fn direction(&self, center: TexelCenter) -> (vector: Vec3)
        requires
            self.wf(),
        ensures
            vector == self.model().direction_spec(center),
    {
        let across = self.operations.fraction(center.u_num, center.u_den);
        let down = self.operations.fraction(center.v_num, center.v_den);
        let azimuth = self.operations.product(
            self.operations.difference(across, Scalar { bits: HALF_BITS }),
            Scalar { bits: TWO_PI_BITS },
        );
        let elevation = self.operations.product(
            self.operations.difference(Scalar::one(), down),
            Scalar { bits: QUARTER_TURN_BITS },
        );
        let horizontal = (self.cosine)(elevation);
        assert(horizontal == image1(self.cosine, elevation));
        let aside = (self.sine)(azimuth);
        assert(aside == image1(self.sine, azimuth));
        let ahead = (self.cosine)(azimuth);
        assert(ahead == image1(self.cosine, azimuth));
        let y = (self.sine)(elevation);
        assert(y == image1(self.sine, elevation));
        Vec3 {
            x: self.operations.product(aside, horizontal),
            y,
            z: self.operations.product(ahead, horizontal),
        }
    }
}

/// The direction of a texel of an upper-hemisphere panorama: azimuth
/// `u - 1/2` turns from +Z toward +X, elevation `1 - v` quarter turns, for the
/// texel's center.
pub fn hemisphere_latlong_direction<
    F: Fn(Operation, Scalar, Scalar) -> Scalar,
    N: Fn(Vec3) -> Option<Vec3>,
    S: Fn(Scalar) -> Scalar,
    C: Fn(Scalar) -> Scalar,
>(x: u32, y: u32, width: u32, height: u32, math: &LatlongMath<F, N, S, C>) -> (vector: Vec3)
    requires
        math.wf(),
    ensures
        vector == math.model().direction_spec(
            TexelCenter::of(x as int, y as int, width as int, height as int),
        ),
{
    math.direction(texel_center(x, y, width, height))
}

/// Directions lie in the upper hemisphere, and no lower row of a panorama has a
/// higher direction, for arithmetic that keeps elevations and sines in order.
pub proof fn lemma_directions_fall_toward_the_horizon(
    model: LatlongModel,
    x: u32,
    y1: u32,
    y2: u32,
    width: u32,
    height: u32,
)
    requires
        model.is_ordered((2 * height) as u64),
        x < width,
        y1 < y2 < height,
    ensures
        ({
            let upper = TexelCenter::of(x as int, y1 as int, width as int, height as int);
            let lower = TexelCenter::of(x as int, y2 as int, width as int, height as int);
            &&& (Scalar { bits: ZERO_BITS }).lt_spec(model.direction_spec(lower).y)
            &&& model.direction_spec(lower).y.le_spec(model.direction_spec(upper).y)
        }),
{
    let upper = TexelCenter::of(x as int, y1 as int, width as int, height as int);
    let lower = TexelCenter::of(x as int, y2 as int, width as int, height as int);
    assert(upper.v_num <= lower.v_num < lower.v_den && upper.v_den == lower.v_den);
    let high = model.elevation(upper.v_num, upper.v_den);
    let low = model.elevation(lower.v_num, lower.v_den);
    assert(low.le_spec(high));
}

/// The middle column of a panorama with an odd number of columns has azimuth
/// zero: it faces +Z.
pub proof fn lemma_center_faces_positive_z(x: u32, y: u32, width: u32, height: u32)
    requires
        2 * x + 1 == width,
    ensures
        TexelCenter::of(x as int, y as int, width as int, height as int).azimuth_num() == 0,
{
}

/// Azimuth increases with the column.
pub proof fn lemma_azimuth_increases(x1: u32, x2: u32, y: u32, width: u32, height: u32)
    requires
        x1 < x2 < width,
    ensures
        ({
            let left = TexelCenter::of(x1 as int, y as int, width as int, height as int);
            let right = TexelCenter::of(x2 as int, y as int, width as int, height as int);
            left.azimuth_den() == right.azimuth_den() && left.azimuth_num() < right.azimuth_num()
        }),
{
}

/// Every texel lies strictly between zenith and horizon and less than half a
/// turn from +Z, and lower rows lie closer to the horizon.
pub proof fn lemma_rows_run_from_zenith_to_horizon(
    x: u32,
    y1: u32,
    y2: u32,
    width: u32,
    height: u32,
)
    requires
        x < width,
        y1 < y2 < height,
    ensures
        ({
            let upper = TexelCenter::of(x as int, y1 as int, width as int, height as int);
            let lower = TexelCenter::of(x as int, y2 as int, width as int, height as int);
            &&& 0 < lower.elevation_num() < upper.elevation_num() < upper.v_den
            &&& lower.v_den == upper.v_den
            &&& -upper.azimuth_den() < 2 * upper.azimuth_num() < upper.azimuth_den()
        }),
{
}

/// Scaling a center by the size of the grid and moving it back by half a cell
/// gives the column and the row.
pub proof fn lemma_centers_round_trip(x: u32, y: u32, width: u32, height: u32)
    requires
        x < width,
        y < height,
    ensures
        ({
            let center = TexelCenter::of(x as int, y as int, width as int, height as int);
            &&& 2 * center.u_num * width - center.u_den == 2 * center.u_den * x
            &&& 2 * center.v_num * height - center.v_den == 2 * center.v_den * y
        }),
{
    let center = TexelCenter::of(x as int, y as int, width as int, height as int);
    assert(2 * (2 * x + 1) * width - 2 * width == 2 * (2 * width) * x) by (nonlinear_arith);
    assert(2 * (2 * y + 1) * height - 2 * height == 2 * (2 * height) * y) by (nonlinear_arith);
}

/// The side of the square grid for a number of samples: the least whole number
/// that is no smaller than the root.
pub open spec fn grid_side(root: spec_fn(Scalar) -> Scalar, sample_count: u32) -> u32 {
    let side = root(Scalar::of_count_spec(sample_count as nat)).ceiling_spec();
    if side < u32::MAX {
        side as u32
    } else {
        u32::MAX
    }
}

/// The position of a sample in the unit square: the center of cell
/// `sample_index` of a square grid, counted row by row.  `root` is the square
/// root.
pub fn stratified_sample_2d<
    F: Fn(Operation, Scalar, Scalar) -> Scalar,
    N: Fn(Vec3) -> Option<Vec3>,
    R: Fn(Scalar) -> Scalar,
>(sample_index: u32, sample_count: u32, math: &Arithmetic<F, N>, root: &R) -> (position: (
    Scalar,
    Scalar,
))
    requires
        math.wf(),
        function1(*root),
        grid_side(model1(*root), sample_count) > 0,
    ensures
        ({
            let grid = grid_side(model1(*root), sample_count);
            let center = TexelCenter::of(
                (sample_index % grid) as int,
                (sample_index / grid) as int,
                grid as int,
                grid as int,
            );
            &&& position.0 == math.model().fraction(center.u_num, center.u_den)
            &&& position.1 == math.model().fraction(center.v_num, center.v_den)
        }),
        ({
            let grid = grid_side(model1(*root), sample_count);
            let middle = |cell: u32|
                (math.model().compute)(
                    Operation::Quotient,
                    (math.model().compute)(
                        Operation::Sum,
                        Scalar::of_count_spec(cell as nat),
                        Scalar { bits: 0x3f00_0000 },
                    ),
                    Scalar::of_count_spec(grid as nat),
                );
            &&& position.0 == middle(sample_index % grid)
            &&& position.1 == middle(sample_index / grid)
        }),
{
    let count = Scalar::of_count(sample_count as u64);
    let found = root(count);
    assert(found == image1(*root, count));
    let side: u64 = found.ceiling();
    let grid: u32 = if side < u32::MAX as u64 {
        side as u32
    } else {
        u32::MAX
    };
    let center = texel_center(sample_index % grid, sample_index / grid, grid, grid);
    (math.fraction(center.u_num, center.u_den), math.fraction(center.v_num, center.v_den))
}

/// Samples that the grid has room for lie in the unit square, and no two of
/// them share a position.
pub proof fn lemma_samples_are_stratified(i: u32, j: u32, grid: u32)
    requires
        grid > 0,
        i < grid * grid,
        j < grid * grid,
    ensures
        ({
            let a = TexelCenter::of((i % grid) as int, (i / grid) as int, grid as int, grid as int);
            let b = TexelCenter::of((j % grid) as int, (j / grid) as int, grid as int, grid as int);
            &&& 0 < a.u_num < a.u_den
            &&& 0 < a.v_num < a.v_den
            &&& a == b ==> i == j
        }),
{
    assert(i == grid * (i / grid) + i % grid) by (nonlinear_arith)
        requires
            grid > 0,
    ;
    assert(j == grid * (j / grid) + j % grid) by (nonlinear_arith)
        requires
            grid > 0,
    ;
    assert(i / grid < grid) by (nonlinear_arith)
        requires
            grid > 0,
            i < grid * grid,
    ;
    assert(j / grid < grid) by (nonlinear_arith)
        requires
            grid > 0,
            j < grid * grid,
    ;
}

/// What the direction of a texel is.  With `u` and `v` the number of its column and row
/// and a half, over how many there are, it lies `u` less half of a turn from +Z toward
/// +X, and at what `v` leaves of a quarter turn above the horizon.
pub proof fn lemma_directions_lie_at_their_angles(
    model: LatlongModel,
    x: u32,
    y: u32,
    width: u32,
    height: u32,
)
    ensures
        ({
            let number = |n: u32| Scalar::of_count_spec(n as nat);
            let half = Scalar { bits: 0x3f00_0000 };
            let plus = |a: Scalar, b: Scalar| (model.operations.compute)(Operation::Sum, a, b);
            let minus = |a: Scalar, b: Scalar|
                (model.operations.compute)(Operation::Difference, a, b);
            let times = |a: Scalar, b: Scalar|
                (model.operations.compute)(Operation::Product, a, b);
            let over = |a: Scalar, b: Scalar|
                (model.operations.compute)(Operation::Quotient, a, b);
            let u = over(plus(number(x), half), number(width));
            let v = over(plus(number(y), half), number(height));
            let azimuth = times(minus(u, half), Scalar { bits: 0x40c9_0fdb });
            let elevation = times(
                minus(Scalar { bits: 0x3f80_0000 }, v),
                Scalar { bits: 0x3fc9_0fdb },
            );
            let found = model.direction_spec(
                TexelCenter::of(x as int, y as int, width as int, height as int),
            );
            &&& found.x == times((model.sine)(azimuth), (model.cosine)(elevation))
            &&& found.y == (model.sine)(elevation)
            &&& found.z == times((model.cosine)(azimuth), (model.cosine)(elevation))
            &&& (model.directions())(
                TexelCenter::of(x as int, y as int, width as int, height as int),
            ) == found
        }),
{
}

/// The side of the grid for a number of samples is its root, rounded up: samples on a grid of
/// that side are told apart.
pub proof fn lemma_grids_have_the_root_as_their_side(
    root: spec_fn(Scalar) -> Scalar,
    sample_count: u32,
)
    ensures
        ({
            let side = root(Scalar::of_count_spec(sample_count as nat)).ceiling_spec();
            &&& 0 <= side < 0xffff_ffff ==> grid_side(root, sample_count) == side
            &&& side >= 0xffff_ffff ==> grid_side(root, sample_count) == 0xffff_ffff
        }),
{
}

} // verus!
