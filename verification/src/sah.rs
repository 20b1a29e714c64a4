//! Where to split a set of triangles: the binned surface-area heuristic.

use crate::arithmetic::{Arithmetic, ArithmeticModel, Operation};
use crate::conversion::{lemma_small_counts_are_exact, lemma_whole_is_not_negative};
use crate::geometry::Triangle;
use crate::math::{
    attained, bounds_above, bounds_below, greatest, least, lemma_greatest_is_tight,
    lemma_least_is_tight, Vec3,
};
use crate::scalar::{
    lemma_rank_orders_values, Scalar, INFINITY_BITS, NEG_INFINITY_BITS, TWO_BITS, ZERO_BITS,
};
use vstd::arithmetic::power2::{lemma_pow2_pos, pow2};
use vstd::prelude::*;

verus! {

/// Number of bins along an axis.
pub const SAH_BINS: usize = 12;

/// Bits of `1.0e-8`, the extent up to which centroids count as coincident.
pub const FLAT_EXTENT_BITS: u32 = 0x322b_cc77;

/// A triangle with what the split decisions read of it.
#[derive(Clone, Copy, Debug, PartialEq)]
pub struct BuildTriangle {
    pub triangle: Triangle,
    pub bounds_min: Vec3,
    pub bounds_max: Vec3,
    pub centroid: Vec3,
}

/// The lower corners of the boxes of `items`.
pub open spec fn lower_corners(items: Seq<BuildTriangle>) -> Seq<Vec3> {
    items.map_values(|item: BuildTriangle| item.bounds_min)
}

/// The upper corners of the boxes of `items`.
pub open spec fn upper_corners(items: Seq<BuildTriangle>) -> Seq<Vec3> {
    items.map_values(|item: BuildTriangle| item.bounds_max)
}

/// The centroids of `items`.
pub open spec fn centroids(items: Seq<BuildTriangle>) -> Seq<Vec3> {
    items.map_values(|item: BuildTriangle| item.centroid)
}

/// The triangles of one bin: how many, and the box around them.
#[derive(Clone, Copy, Debug, PartialEq)]
pub struct SahBin {
    pub count: usize,
    pub bounds_min: Vec3,
    pub bounds_max: Vec3,
}

/// The cheapest split found so far.
#[derive(Clone, Copy, Debug, PartialEq)]
pub struct SahBest {
    pub axis: usize,
    pub left_count: usize,
    pub cost: Scalar,
}

/// Whether centroids that spread over `extent` count as coincident.
pub open spec fn is_flat(extent: Scalar) -> bool {
    extent.le_spec(Scalar { bits: FLAT_EXTENT_BITS })
}

/// The axis of the largest component; earlier axes win ties.
pub open spec fn longest_axis_spec(value: Vec3) -> int {
    if value.y.le_spec(value.x) && value.z.le_spec(value.x) {
        0
    } else if value.z.le_spec(value.y) {
        1
    } else {
        2
    }
}

/// All components equal to `component`.
pub open spec fn splat(component: Scalar) -> Vec3 {
    Vec3 { x: component, y: component, z: component }
}

impl SahBin {
    /// The bin without triangles.
    pub open spec fn empty_spec() -> SahBin {
        SahBin {
            count: 0,
            bounds_min: splat(Scalar { bits: INFINITY_BITS }),
            bounds_max: splat(Scalar { bits: NEG_INFINITY_BITS }),
        }
    }

    /// The bin with one more triangle in it.
    pub open spec fn add_spec(self, bounds_min: Vec3, bounds_max: Vec3) -> SahBin {
        SahBin {
            count: (self.count + 1) as usize,
            bounds_min: self.bounds_min.min_spec(bounds_min),
            bounds_max: self.bounds_max.max_spec(bounds_max),
        }
    }

    /// The bin together with the triangles of another one.
    pub open spec fn merge_spec(self, other: SahBin) -> SahBin {
        if other.count > 0 {
            SahBin {
                count: (self.count + other.count) as usize,
                bounds_min: self.bounds_min.min_spec(other.bounds_min),
                bounds_max: self.bounds_max.max_spec(other.bounds_max),
            }
        } else {
            self
        }
    }

    /// The bin without triangles.
    pub fn empty() -> (bin: SahBin)
        ensures
            bin == SahBin::empty_spec(),
    {
        let high = Scalar { bits: INFINITY_BITS };
        let low = Scalar { bits: NEG_INFINITY_BITS };
        SahBin {
            count: 0,
            bounds_min: Vec3 { x: high, y: high, z: high },
            bounds_max: Vec3 { x: low, y: low, z: low },
        }
    }

    /// Puts one more triangle into the bin.
    pub fn add(&mut self, bounds_min: Vec3, bounds_max: Vec3)
        requires
            old(self).count < usize::MAX,
        ensures
            *final(self) == old(self).add_spec(bounds_min, bounds_max),
    {
        self.count = self.count + 1;
        self.bounds_min = self.bounds_min.min(bounds_min);
        self.bounds_max = self.bounds_max.max(bounds_max);
    }

    fn merge(self, other: SahBin) -> (bin: SahBin)
        requires
            self.count + other.count <= usize::MAX,
        ensures
            bin == self.merge_spec(other),
    {
        if other.count > 0 {
            SahBin {
                count: self.count + other.count,
                bounds_min: self.bounds_min.min(other.bounds_min),
                bounds_max: self.bounds_max.max(other.bounds_max),
            }
        } else {
            self
        }
    }
}

/// The first `n` bins taken together.
pub open spec fn left_of(bins: Seq<SahBin>, n: int) -> SahBin
    decreases n,
{
    if n <= 0 {
        SahBin::empty_spec()
    } else {
        left_of(bins, n - 1).merge_spec(bins[n - 1])
    }
}

/// The bins from `n` on taken together.
pub open spec fn right_of(bins: Seq<SahBin>, n: int) -> SahBin
    decreases bins.len() - n,
{
    if n >= bins.len() {
        SahBin::empty_spec()
    } else {
        right_of(bins, n + 1).merge_spec(bins[n])
    }
}

/// How many triangles the first `n` bins hold.
pub open spec fn total(bins: Seq<SahBin>, n: int) -> int
    decreases n,
{
    if n <= 0 {
        0
    } else {
        total(bins, n - 1) + bins[n - 1].count
    }
}

impl ArithmeticModel {
    /// How far the centroids spread along `axis`.
    pub open spec fn extent(self, low: Vec3, high: Vec3, axis: int) -> Scalar {
        self.difference(high.axis_spec(axis), low.axis_spec(axis))
    }

    /// How far the centroids spread along each axis.
    pub open spec fn extents(self, low: Vec3, high: Vec3) -> Vec3 {
        Vec3 {
            x: self.extent(low, high, 0),
            y: self.extent(low, high, 1),
            z: self.extent(low, high, 2),
        }
    }

    /// The bin of a centroid along `axis`.
    pub open spec fn bin_of(self, centroid: Vec3, low: Vec3, high: Vec3, axis: int) -> int {
        let extent = self.extent(low, high, axis);
        if is_flat(extent) {
            0
        } else {
            let place = self.quotient(
                self.difference(centroid.axis_spec(axis), low.axis_spec(axis)),
                extent,
            );
            let bin = self.product(place, Scalar::of_count_spec(SAH_BINS as nat)).whole_spec();
            if bin < SAH_BINS {
                bin
            } else {
                SAH_BINS - 1
            }
        }
    }

    /// The surface area of a box; zero for a box that holds nothing.
    pub open spec fn surface_area_spec(self, low: Vec3, high: Vec3) -> Scalar {
        let extent = self.extents(low, high);
        let zero = Scalar { bits: ZERO_BITS };
        if extent.x.lt_spec(zero) || extent.y.lt_spec(zero) || extent.z.lt_spec(zero) {
            zero
        } else {
            let faces = self.sum(
                self.sum(self.product(extent.x, extent.y), self.product(extent.x, extent.z)),
                self.product(extent.y, extent.z),
            );
            self.product(Scalar { bits: TWO_BITS }, faces)
        }
    }

    /// Bin number `bin` along `axis` after all of `items` were put into theirs.
    pub open spec fn filled(
        self,
        items: Seq<BuildTriangle>,
        low: Vec3,
        high: Vec3,
        axis: int,
        bin: int,
    ) -> SahBin
        decreases items.len(),
    {
        if items.len() == 0 {
            SahBin::empty_spec()
        } else {
            let before = self.filled(items.drop_last(), low, high, axis, bin);
            let last = items.last();
            if self.bin_of(last.centroid, low, high, axis) == bin {
                before.add_spec(last.bounds_min, last.bounds_max)
            } else {
                before
            }
        }
    }

    /// All bins along `axis`.
    pub open spec fn bins(
        self,
        items: Seq<BuildTriangle>,
        low: Vec3,
        high: Vec3,
        axis: int,
    ) -> Seq<SahBin> {
        Seq::new(SAH_BINS as nat, |bin: int| self.filled(items, low, high, axis, bin))
    }

    /// What splitting after bin number `split` costs.
    pub open spec fn split_cost(self, bins: Seq<SahBin>, split: int) -> Scalar {
        let left = left_of(bins, split + 1);
        let right = right_of(bins, split + 1);
        self.sum(
            self.product(
                self.surface_area_spec(left.bounds_min, left.bounds_max),
                Scalar::of_count_spec(left.count as nat),
            ),
            self.product(
                self.surface_area_spec(right.bounds_min, right.bounds_max),
                Scalar::of_count_spec(right.count as nat),
            ),
        )
    }

    /// Splitting after bin number `split` leaves triangles on both sides.
    pub open spec fn is_candidate(self, bins: Seq<SahBin>, split: int) -> bool {
        left_of(bins, split + 1).count > 0 && right_of(bins, split + 1).count > 0
    }

    /// The cheapest of `best` and the first `n` splits along `axis`; a later
    /// split has to be cheaper to win.
    pub open spec fn best_split(
        self,
        bins: Seq<SahBin>,
        axis: int,
        n: int,
        best: SahBest,
    ) -> SahBest
        decreases n,
    {
        if n <= 0 {
            best
        } else {
            let before = self.best_split(bins, axis, n - 1, best);
            if self.is_candidate(bins, n - 1) && self.split_cost(bins, n - 1).lt_spec(before.cost) {
                SahBest {
                    axis: axis as usize,
                    left_count: left_of(bins, n).count,
                    cost: self.split_cost(bins, n - 1),
                }
            } else {
                before
            }
        }
    }

    /// The cheapest split along the first `n` axes.
    pub open spec fn best_axis(
        self,
        items: Seq<BuildTriangle>,
        low: Vec3,
        high: Vec3,
        n: int,
    ) -> SahBest
        decreases n,
    {
        if n <= 0 {
            SahBest { axis: 0, left_count: 0, cost: Scalar { bits: INFINITY_BITS } }
        } else {
            let before = self.best_axis(items, low, high, n - 1);
            if is_flat(self.extent(low, high, n - 1)) {
                before
            } else {
                self.best_split(self.bins(items, low, high, n - 1), n - 1, SAH_BINS - 1, before)
            }
        }
    }

    /// The axis and the number of triangles on its lower side of the cheapest
    /// split, if some split has a finite cost.
    pub open spec fn sah_split_spec(
        self,
        items: Seq<BuildTriangle>,
        low: Vec3,
        high: Vec3,
    ) -> Option<(usize, usize)> {
        let best = self.best_axis(items, low, high, 3);
        if best.cost.is_finite_spec() {
            Some((best.axis, best.left_count))
        } else {
            None
        }
    }
}

/// Counts over prefixes grow.
proof fn lemma_total_grows(bins: Seq<SahBin>, m: int, n: int)
    requires
        0 <= m <= n,
    ensures
        0 <= total(bins, m) <= total(bins, n),
    decreases n,
{
    if n > 0 {
        if m < n {
            lemma_total_grows(bins, m, n - 1);
        } else {
            lemma_total_grows(bins, m - 1, n - 1);
        }
    }
}

/// A bin changed outside the first `n` does not change their count, and one
/// changed inside changes it by as much as it changed itself.
proof fn lemma_total_update(bins: Seq<SahBin>, changed: int, bin: SahBin, n: int)
    requires
        0 <= changed < bins.len(),
        0 <= n <= bins.len(),
    ensures
        total(bins.update(changed, bin), n) == total(bins, n) + (if changed < n {
            bin.count - bins[changed].count
        } else {
            0
        }),
    decreases n,
{
    if n > 0 {
        lemma_total_update(bins, changed, bin, n - 1);
    }
}

/// The bins on the left hold what their counts say.
proof fn lemma_left_count(bins: Seq<SahBin>, n: int)
    requires
        0 <= n <= bins.len(),
        total(bins, bins.len() as int) <= usize::MAX,
    ensures
        left_of(bins, n).count == total(bins, n),
    decreases n,
{
    lemma_total_grows(bins, n, bins.len() as int);
    if n > 0 {
        lemma_left_count(bins, n - 1);
    }
}

/// The bins on the right hold the rest.
proof fn lemma_right_count(bins: Seq<SahBin>, n: int)
    requires
        0 <= n <= bins.len(),
        total(bins, bins.len() as int) <= usize::MAX,
    ensures
        right_of(bins, n).count == total(bins, bins.len() as int) - total(bins, n),
    decreases bins.len() - n,
{
    lemma_total_grows(bins, n, bins.len() as int);
    if n < bins.len() {
        lemma_right_count(bins, n + 1);
        lemma_total_grows(bins, n + 1, bins.len() as int);
        lemma_total_grows(bins, 0, n);
    }
}

/// Every triangle is in exactly one bin.
proof fn lemma_bins_hold_all(
    model: ArithmeticModel,
    items: Seq<BuildTriangle>,
    low: Vec3,
    high: Vec3,
    axis: int,
)
    requires
        items.len() <= usize::MAX,
    ensures
        total(model.bins(items, low, high, axis), SAH_BINS as int) == items.len(),
    decreases items.len(),
{
    let bins = model.bins(items, low, high, axis);
    if items.len() == 0 {
        lemma_total_of_empty(bins, SAH_BINS as int);
    } else {
        let front = model.bins(items.drop_last(), low, high, axis);
        lemma_bins_hold_all(model, items.drop_last(), low, high, axis);
        let last = items.last();
        let bin = model.bin_of(last.centroid, low, high, axis);
        lemma_whole_is_not_negative(
            model.product(
                model.quotient(
                    model.difference(last.centroid.axis_spec(axis), low.axis_spec(axis)),
                    model.extent(low, high, axis),
                ),
                Scalar::of_count_spec(SAH_BINS as nat),
            ),
        );
        assert(0 <= bin < SAH_BINS);
        assert(bins =~= front.update(bin, front[bin].add_spec(last.bounds_min, last.bounds_max)));
        lemma_total_update(
            front,
            bin,
            front[bin].add_spec(last.bounds_min, last.bounds_max),
            SAH_BINS as int,
        );
        lemma_total_grows(front, bin + 1, SAH_BINS as int);
        lemma_total_grows(front, 0, bin);
    }
}

proof fn lemma_total_of_empty(bins: Seq<SahBin>, n: int)
    requires
        forall|i: int| 0 <= i < bins.len() ==> (#[trigger] bins[i]).count == 0,
        n <= bins.len(),
    ensures
        total(bins, n) == 0,
    decreases n,
{
    if n > 0 {
        lemma_total_of_empty(bins, n - 1);
    }
}

/// The splits that were compared never beat the one that was kept, and the kept
/// one leaves triangles on both sides.
proof fn lemma_best_split(
    model: ArithmeticModel,
    bins: Seq<SahBin>,
    axis: int,
    n: int,
    best: SahBest,
)
    requires
        bins.len() == SAH_BINS,
        0 <= n < SAH_BINS,
        0 <= axis < 3,
        total(bins, SAH_BINS as int) <= usize::MAX,
    ensures
        ({
            let kept = model.best_split(bins, axis, n, best);
            &&& kept == best || (kept.axis == axis && 0 < kept.left_count < total(
                bins,
                SAH_BINS as int,
            ) && kept.cost.lt_spec(best.cost))
            &&& forall|split: int|
                0 <= split < n && #[trigger] model.is_candidate(bins, split)
                    ==> !model.split_cost(bins, split).lt_spec(kept.cost)
        }),
    decreases n,
{
    if n > 0 {
        lemma_best_split(model, bins, axis, n - 1, best);
        lemma_left_count(bins, n);
        lemma_right_count(bins, n);
    }
}

/// A split that is returned leaves at least one triangle on either side.
pub proof fn lemma_split_is_proper(
    model: ArithmeticModel,
    items: Seq<BuildTriangle>,
    low: Vec3,
    high: Vec3,
)
    requires
        items.len() <= usize::MAX,
    ensures
        model.sah_split_spec(items, low, high) matches Some(split) ==> split.0 < 3 && 0 < split.1
            < items.len(),
{
    let infinity = Scalar { bits: INFINITY_BITS };
    assert(!infinity.is_finite_spec());
    lemma_best_axis_is_proper(model, items, low, high, 3);
}

proof fn lemma_best_axis_is_proper(
    model: ArithmeticModel,
    items: Seq<BuildTriangle>,
    low: Vec3,
    high: Vec3,
    n: int,
)
    requires
        items.len() <= usize::MAX,
        0 <= n <= 3,
    ensures
        ({
            let best = model.best_axis(items, low, high, n);
            best.cost == (Scalar { bits: INFINITY_BITS }) || (best.axis < 3 && 0 < best.left_count
                < items.len())
        }),
    decreases n,
{
    if n > 0 {
        lemma_best_axis_is_proper(model, items, low, high, n - 1);
        let before = model.best_axis(items, low, high, n - 1);
        let bins = model.bins(items, low, high, n - 1);
        lemma_bins_hold_all(model, items, low, high, n - 1);
        lemma_best_split(model, bins, n - 1, SAH_BINS - 1, before);
    }
}

/// No split of the same triangles costs less than the one that is returned:
/// along every axis on which the centroids spread, each split that leaves
/// triangles on both sides costs at least as much, or has no comparable cost.
pub proof fn lemma_split_is_cheapest(
    model: ArithmeticModel,
    items: Seq<BuildTriangle>,
    low: Vec3,
    high: Vec3,
    axis: int,
    split: int,
)
    requires
        items.len() <= usize::MAX,
        0 <= axis < 3,
        0 <= split < SAH_BINS - 1,
        !is_flat(model.extent(low, high, axis)),
        model.is_candidate(model.bins(items, low, high, axis), split),
    ensures
        !model.split_cost(model.bins(items, low, high, axis), split).lt_spec(
            model.best_axis(items, low, high, 3).cost,
        ),
{
    lemma_kept_is_cheapest(model, items, low, high, axis, split, 3);
}

proof fn lemma_kept_is_cheapest(
    model: ArithmeticModel,
    items: Seq<BuildTriangle>,
    low: Vec3,
    high: Vec3,
    axis: int,
    split: int,
    n: int,
)
    requires
        items.len() <= usize::MAX,
        0 <= axis < n <= 3,
        0 <= split < SAH_BINS - 1,
        !is_flat(model.extent(low, high, axis)),
        model.is_candidate(model.bins(items, low, high, axis), split),
    ensures
        !model.split_cost(model.bins(items, low, high, axis), split).lt_spec(
            model.best_axis(items, low, high, n).cost,
        ),
    decreases n,
{
    let before = model.best_axis(items, low, high, n - 1);
    let bins = model.bins(items, low, high, n - 1);
    lemma_bins_hold_all(model, items, low, high, n - 1);
    lemma_best_split(model, bins, n - 1, SAH_BINS - 1, before);
    if axis < n - 1 {
        lemma_kept_is_cheapest(model, items, low, high, axis, split, n - 1);
    }
}

/// Every split that is compared has a finite cost.
pub open spec fn costs_are_finite(
    model: ArithmeticModel,
    items: Seq<BuildTriangle>,
    low: Vec3,
    high: Vec3,
) -> bool {
    forall|axis: int, split: int|
        0 <= axis < 3 && 0 <= split < SAH_BINS - 1 && !is_flat(model.extent(low, high, axis))
            && model.is_candidate(model.bins(items, low, high, axis), split)
            ==> #[trigger] model.split_cost(
            model.bins(items, low, high, axis),
            split,
        ).is_finite_spec()
}

/// A split is found whenever the centroids spread along some axis, where no cost
/// overflows and the operations are exact where nothing has to be rounded: the
/// lowest centroid comes into the first bin, the highest into the last one.
pub proof fn lemma_spread_is_split(
    model: ArithmeticModel,
    items: Seq<BuildTriangle>,
    low: Vec3,
    high: Vec3,
    axis: int,
)
    requires
        0 < items.len() <= usize::MAX,
        low == least(centroids(items)),
        high == greatest(centroids(items)),
        0 <= axis < 3,
        low.axis_spec(axis).is_finite_spec(),
        model.extent(low, high, axis).is_finite_spec(),
        !is_flat(model.extent(low, high, axis)),
        model.keeps_identities(),
        costs_are_finite(model, items, low, high),
    ensures
        model.sah_split_spec(items, low, high) is Some,
{
    let bins = model.bins(items, low, high, axis);
    let points = centroids(items);
    let extent = model.extent(low, high, axis);
    let zero = Scalar { bits: ZERO_BITS };
    lemma_small_counts_are_exact(SAH_BINS as nat);
    lemma_twelve_is_positive();
    assert(zero.lt_spec(extent));
    lemma_least_is_tight(points);
    lemma_greatest_is_tight(points);
    assert(attained(points, axis, low.axis_spec(axis)));
    assert(attained(points, axis, high.axis_spec(axis)));
    let first = choose|i: int|
        0 <= i < points.len() && (#[trigger] points[i]).axis_spec(axis) == low.axis_spec(axis);
    let last = choose|i: int|
        0 <= i < points.len() && (#[trigger] points[i]).axis_spec(axis) == high.axis_spec(axis);
    assert(points[first] == items[first].centroid);
    assert(points[last] == items[last].centroid);
    lemma_pow2_pos(149);
    vstd::arithmetic::div_mod::lemma_basic_div(0, pow2(149) as int);
    assert(zero.whole_spec() == 0);
    assert(model.bin_of(items[first].centroid, low, high, axis) == 0);
    assert(model.bin_of(items[last].centroid, low, high, axis) == SAH_BINS - 1);
    lemma_filled_count(model, items, low, high, axis, 0);
    lemma_filled_count(model, items, low, high, axis, SAH_BINS - 1);
    lemma_bins_hold_all(model, items, low, high, axis);
    lemma_left_count(bins, 1);
    lemma_right_count(bins, 1);
    assert(total(bins, 1) == total(bins, 0) + bins[0].count);
    assert(total(bins, SAH_BINS as int) == total(bins, SAH_BINS - 1) + bins[SAH_BINS - 1].count);
    lemma_total_grows(bins, 1, SAH_BINS - 1);
    assert(model.is_candidate(bins, 0));
    assert(model.split_cost(bins, 0).is_finite_spec());
    lemma_split_is_cheapest(model, items, low, high, axis, 0);
    lemma_best_cost(model, items, low, high, 3);
}

/// The number of bins is a positive number.
proof fn lemma_twelve_is_positive()
    ensures
        (Scalar { bits: ZERO_BITS }).lt_spec(Scalar::of_count_spec(SAH_BINS as nat)),
{
    lemma_small_counts_are_exact(SAH_BINS as nat);
    lemma_rank_orders_values(
        Scalar { bits: ZERO_BITS },
        Scalar::of_count_spec(SAH_BINS as nat),
    );
    lemma_pow2_pos(149);
}

/// A bin holds at most all triangles, and some where one belongs into it.
proof fn lemma_filled_count(
    model: ArithmeticModel,
    items: Seq<BuildTriangle>,
    low: Vec3,
    high: Vec3,
    axis: int,
    bin: int,
)
    requires
        items.len() <= usize::MAX,
    ensures
        model.filled(items, low, high, axis, bin).count <= items.len(),
        forall|i: int|
            0 <= i < items.len() && #[trigger] model.bin_of(items[i].centroid, low, high, axis)
                == bin ==> model.filled(items, low, high, axis, bin).count > 0,
    decreases items.len(),
{
    if items.len() > 0 {
        let front = items.drop_last();
        lemma_filled_count(model, front, low, high, axis, bin);
        assert forall|i: int|
            0 <= i < items.len() && #[trigger] model.bin_of(items[i].centroid, low, high, axis)
                == bin implies model.filled(items, low, high, axis, bin).count > 0 by {
            if i < front.len() {
                assert(front[i] == items[i]);
                assert(model.bin_of(front[i].centroid, low, high, axis) == bin);
            }
        }
    }
}

/// The cost that is kept is finite, unless nothing was kept.
proof fn lemma_best_cost(
    model: ArithmeticModel,
    items: Seq<BuildTriangle>,
    low: Vec3,
    high: Vec3,
    n: int,
)
    requires
        0 <= n <= 3,
        costs_are_finite(model, items, low, high),
    ensures
        ({
            let best = model.best_axis(items, low, high, n);
            best.cost == (Scalar { bits: INFINITY_BITS }) || best.cost.is_finite_spec()
        }),
    decreases n,
{
    if n > 0 {
        lemma_best_cost(model, items, low, high, n - 1);
        let before = model.best_axis(items, low, high, n - 1);
        if !is_flat(model.extent(low, high, n - 1)) {
            lemma_best_split_cost(model, items, low, high, n - 1, SAH_BINS - 1, before);
        }
    }
}

proof fn lemma_best_split_cost(
    model: ArithmeticModel,
    items: Seq<BuildTriangle>,
    low: Vec3,
    high: Vec3,
    axis: int,
    n: int,
    best: SahBest,
)
    requires
        0 <= axis < 3,
        0 <= n <= SAH_BINS - 1,
        !is_flat(model.extent(low, high, axis)),
        costs_are_finite(model, items, low, high),
    ensures
        ({
            let kept = model.best_split(model.bins(items, low, high, axis), axis, n, best);
            kept == best || kept.cost.is_finite_spec()
        }),
    decreases n,
{
    if n > 0 {
        lemma_best_split_cost(model, items, low, high, axis, n - 1, best);
        let bins = model.bins(items, low, high, axis);
        if model.is_candidate(bins, n - 1) {
            assert(model.split_cost(bins, n - 1).is_finite_spec());
        }
    }
}

/// The component along axis 0, 1 or (any other number) 2.
pub fn axis_value(value: Vec3, axis: usize) -> (component: Scalar)
    ensures
        component == value.axis_spec(axis as int),
{
    if axis == 0 {
        value.x
    } else if axis == 1 {
        value.y
    } else {
        value.z
    }
}

/// The axis of the largest component; earlier axes win ties.
pub fn longest_axis(value: Vec3) -> (axis: usize)
    ensures
        axis == longest_axis_spec(value),
{
    if value.y.at_most(value.x) && value.z.at_most(value.x) {
        0
    } else if value.z.at_most(value.y) {
        1
    } else {
        2
    }
}

/// The box around the triangles `items[start .. end]`.
pub fn triangle_bounds(items: &Vec<BuildTriangle>, start: usize, end: usize) -> (bounds: (
    Vec3,
    Vec3,
))
    requires
        start < end <= items@.len(),
    ensures
        bounds.0 == least(lower_corners(items@.subrange(start as int, end as int))),
        bounds.1 == greatest(upper_corners(items@.subrange(start as int, end as int))),
{
    let mut bounds_min = items[start].bounds_min;
    let mut bounds_max = items[start].bounds_max;
    let mut next: usize = start + 1;
    let ghost range = items@.subrange(start as int, end as int);
    while next < end
        invariant
            start < next <= end <= items@.len(),
            range == items@.subrange(start as int, end as int),
            bounds_min == least(lower_corners(range.take(next - start))),
            bounds_max == greatest(upper_corners(range.take(next - start))),
        decreases end - next,
    {
        let item = items[next];
        bounds_min = bounds_min.min(item.bounds_min);
        bounds_max = bounds_max.max(item.bounds_max);
        proof {
            let before = range.take(next - start);
            let after = range.take(next + 1 - start);
            assert(lower_corners(after).drop_last() =~= lower_corners(before));
            assert(upper_corners(after).drop_last() =~= upper_corners(before));
        }
        next += 1;
    }
    assert(range.take(end - start) =~= range);
    (bounds_min, bounds_max)
}

/// The box around the centroids of the triangles `items[start .. end]`.
pub fn centroid_bounds(items: &Vec<BuildTriangle>, start: usize, end: usize) -> (bounds: (
    Vec3,
    Vec3,
))
    requires
        start < end <= items@.len(),
    ensures
        bounds.0 == least(centroids(items@.subrange(start as int, end as int))),
        bounds.1 == greatest(centroids(items@.subrange(start as int, end as int))),
{
    let mut bounds_min = items[start].centroid;
    let mut bounds_max = items[start].centroid;
    let mut next: usize = start + 1;
    let ghost range = items@.subrange(start as int, end as int);
    while next < end
        invariant
            start < next <= end <= items@.len(),
            range == items@.subrange(start as int, end as int),
            bounds_min == least(centroids(range.take(next - start))),
            bounds_max == greatest(centroids(range.take(next - start))),
        decreases end - next,
    {
        let item = items[next];
        bounds_min = bounds_min.min(item.centroid);
        bounds_max = bounds_max.max(item.centroid);
        proof {
            let before = range.take(next - start);
            let after = range.take(next + 1 - start);
            assert(centroids(after).drop_last() =~= centroids(before));
        }
        next += 1;
    }
    assert(range.take(end - start) =~= range);
    (bounds_min, bounds_max)
}

impl<F, N> Arithmetic<F, N> where
    F: Copy + Fn(Operation, Scalar, Scalar) -> Scalar,
    N: Copy + Fn(Vec3) -> Option<Vec3>,
 {
    /// How far a box reaches along `axis`.
    fn extent(self, low: Vec3, high: Vec3, axis: usize) -> (extent: Scalar)
        requires
            self.wf(),
        ensures
            extent == self.model().extent(low, high, axis as int),
    {
        self.difference(axis_value(high, axis), axis_value(low, axis))
    }

    /// How far a box reaches along each axis.
    pub fn extents(self, low: Vec3, high: Vec3) -> (extents: Vec3)
        requires
            self.wf(),
        ensures
            extents == self.model().extents(low, high),
    {
        Vec3 {
            x: self.extent(low, high, 0),
            y: self.extent(low, high, 1),
            z: self.extent(low, high, 2),
        }
    }

    /// The bin of a centroid along `axis`.
    pub fn centroid_bin(self, centroid: Vec3, low: Vec3, high: Vec3, axis: usize) -> (bin: usize)
        requires
            self.wf(),
        ensures
            bin == self.model().bin_of(centroid, low, high, axis as int),
            bin < SAH_BINS,
    {
        let extent = self.extent(low, high, axis);
        if extent.at_most(Scalar { bits: FLAT_EXTENT_BITS }) {
            return 0;
        }
        let place = self.quotient(
            self.difference(axis_value(centroid, axis), axis_value(low, axis)),
            extent,
        );
        let bin: u64 = self.product(place, Scalar::of_count(SAH_BINS as u64)).whole();
        if bin < SAH_BINS as u64 {
            bin as usize
        } else {
            SAH_BINS - 1
        }
    }

    /// The surface area of a box; zero for a box that holds nothing.
    pub fn surface_area(self, low: Vec3, high: Vec3) -> (area: Scalar)
        requires
            self.wf(),
        ensures
            area == self.model().surface_area_spec(low, high),
    {
        let extent = self.extents(low, high);
        let zero = Scalar::zero();
        if extent.x.less_than(zero) || extent.y.less_than(zero) || extent.z.less_than(zero) {
            return zero;
        }
        let faces = self.sum(
            self.sum(self.product(extent.x, extent.y), self.product(extent.x, extent.z)),
            self.product(extent.y, extent.z),
        );
        self.product(Scalar { bits: TWO_BITS }, faces)
    }

    /// Puts the triangles `items[start .. end]` into their bins along `axis`.
    fn fill_bins(
        self,
        items: &Vec<BuildTriangle>,
        start: usize,
        end: usize,
        low: Vec3,
        high: Vec3,
        axis: usize,
    ) -> (bins: Vec<SahBin>)
        requires
            self.wf(),
            start <= end <= items@.len(),
        ensures
            bins@ == self.model().bins(
                items@.subrange(start as int, end as int),
                low,
                high,
                axis as int,
            ),
    {
        let ghost model = self.model();
        let ghost range = items@.subrange(start as int, end as int);
        let mut bins: Vec<SahBin> = Vec::new();
        let mut bin: usize = 0;
        while bin < SAH_BINS
            invariant
                bin <= SAH_BINS,
                bins@.len() == bin,
                forall|i: int| 0 <= i < bin ==> bins@[i] == SahBin::empty_spec(),
            decreases SAH_BINS - bin,
        {
            bins.push(SahBin::empty());
            bin += 1;
        }
        let mut next: usize = start;
        assert(bins@ =~= model.bins(range.take(0), low, high, axis as int));
        while next < end
            invariant
                self.wf(),
                model == self.model(),
                start <= next <= end <= items@.len(),
                range == items@.subrange(start as int, end as int),
                bins@ == model.bins(range.take(next - start), low, high, axis as int),
            decreases end - next,
        {
            let item = items[next];
            let index: usize = self.centroid_bin(item.centroid, low, high, axis);
            let ghost before = range.take(next - start);
            let ghost after = range.take(next + 1 - start);
            proof {
                assert(after.drop_last() =~= before);
                assert(after.last() == item);
                lemma_bins_hold_all(model, before, low, high, axis as int);
                lemma_total_grows(bins@, index + 1, SAH_BINS as int);
                lemma_total_grows(bins@, 0, index as int);
            }
            let mut bin = bins[index];
            bin.add(item.bounds_min, item.bounds_max);
            bins.set(index, bin);
            assert(bins@ =~= model.bins(after, low, high, axis as int));
            next += 1;
        }
        assert(range.take(end - start) =~= range);
        bins
    }

    /// Compares all splits along `axis` with the best one so far.
    fn improve_along(self, bins: &Vec<SahBin>, axis: usize, best: SahBest) -> (kept: SahBest)
        requires
            self.wf(),
            bins@.len() == SAH_BINS,
            total(bins@, SAH_BINS as int) <= usize::MAX,
        ensures
            kept == self.model().best_split(bins@, axis as int, SAH_BINS - 1, best),
    {
        let ghost model = self.model();
        let mut rights: Vec<SahBin> = Vec::new();
        let mut right = SahBin::empty();
        let mut bin: usize = SAH_BINS;
        // `rights[i]` covers the bins from `SAH_BINS - 1 - i` on.
        while bin > 1
            invariant
                1 <= bin <= SAH_BINS,
                bins@.len() == SAH_BINS,
                total(bins@, SAH_BINS as int) <= usize::MAX,
                right == right_of(bins@, bin as int),
                rights@.len() == SAH_BINS - bin,
                forall|i: int|
                    0 <= i < rights@.len() ==> rights@[i] == right_of(bins@, SAH_BINS - 1 - i),
            decreases bin,
        {
            proof {
                lemma_right_count(bins@, bin as int);
                lemma_total_grows(bins@, bin as int, SAH_BINS as int);
                lemma_total_grows(bins@, 0, bin - 1);
            }
            bin -= 1;
            right = right.merge(bins[bin]);
            rights.push(right);
        }
        let mut kept = best;
        let mut left = SahBin::empty();
        let mut split: usize = 0;
        while split < SAH_BINS - 1
            invariant
                self.wf(),
                model == self.model(),
                split <= SAH_BINS - 1,
                bins@.len() == SAH_BINS,
                total(bins@, SAH_BINS as int) <= usize::MAX,
                left == left_of(bins@, split as int),
                rights@.len() == SAH_BINS - 1,
                forall|i: int|
                    0 <= i < rights@.len() ==> rights@[i] == right_of(bins@, SAH_BINS - 1 - i),
                kept == model.best_split(bins@, axis as int, split as int, best),
            decreases SAH_BINS - 1 - split,
        {
            proof {
                lemma_left_count(bins@, split as int);
                lemma_total_grows(bins@, split + 1, SAH_BINS as int);
            }
            left = left.merge(bins[split]);
            let right = rights[SAH_BINS - 2 - split];
            assert(right == right_of(bins@, split + 1));
            if left.count != 0 && right.count != 0 {
                let left_area = self.surface_area(left.bounds_min, left.bounds_max);
                let right_area = self.surface_area(right.bounds_min, right.bounds_max);
                let cost = self.sum(
                    self.product(left_area, Scalar::of_count(left.count as u64)),
                    self.product(right_area, Scalar::of_count(right.count as u64)),
                );
                if cost.less_than(kept.cost) {
                    kept = SahBest { axis, left_count: left.count, cost };
                }
            }
            split += 1;
        }
        kept
    }

    /// The cheapest way to split the triangles `items[start .. end]`: an axis
    /// and the number of triangles on its lower side.  `None` when no split has
    /// a finite cost.
    pub fn sah_split(
        self,
        items: &Vec<BuildTriangle>,
        start: usize,
        end: usize,
        low: Vec3,
        high: Vec3,
    ) -> (split: Option<(usize, usize)>)
        requires
            self.wf(),
            start <= end <= items@.len(),
        ensures
            split == self.model().sah_split_spec(
                items@.subrange(start as int, end as int),
                low,
                high,
            ),
            split matches Some(chosen) ==> chosen.0 < 3 && 0 < chosen.1 < end - start,
    {
        let ghost model = self.model();
        let ghost range = items@.subrange(start as int, end as int);
        let mut best = SahBest {
            axis: 0,
            left_count: 0,
            cost: Scalar { bits: INFINITY_BITS },
        };
        let mut axis: usize = 0;
        while axis < 3
            invariant
                self.wf(),
                model == self.model(),
                axis <= 3,
                start <= end <= items@.len(),
                range == items@.subrange(start as int, end as int),
                best == model.best_axis(range, low, high, axis as int),
            decreases 3 - axis,
        {
            let extent = self.extent(low, high, axis);
            if !extent.at_most(Scalar { bits: FLAT_EXTENT_BITS }) {
                let bins = self.fill_bins(items, start, end, low, high, axis);
                proof {
                    lemma_bins_hold_all(model, range, low, high, axis as int);
                }
                best = self.improve_along(&bins, axis, best);
            }
            axis += 1;
        }
        proof {
            lemma_split_is_proper(model, range, low, high);
        }
        if best.cost.is_finite() {
            Some((best.axis, best.left_count))
        } else {
            None
        }
    }
}

/// Which of twelve bins a triangle belongs into: how far its centroid lies along the spread
/// of all centroids, in twelfths, and the last one for the end; the first one for all where
/// the spread is no more than a hundred-millionth.
pub proof fn lemma_bins_are_twelfths(
    model: ArithmeticModel,
    centroid: Vec3,
    low: Vec3,
    high: Vec3,
    axis: int,
)
    requires
        0 <= axis < 3,
    ensures
        ({
            let minus = |a: Scalar, b: Scalar| (model.compute)(Operation::Difference, a, b);
            let along = |v: Vec3| if axis == 0 {
                v.x
            } else if axis == 1 {
                v.y
            } else {
                v.z
            };
            let spread = minus(along(high), along(low));
            let place = (model.compute)(
                Operation::Product,
                (model.compute)(
                    Operation::Quotient,
                    minus(along(centroid), along(low)),
                    spread,
                ),
                Scalar::of_count_spec(12),
            ).whole_spec();
            let bin = model.bin_of(centroid, low, high, axis);
            &&& 0 <= bin < 12
            &&& !spread.is_nan_spec() && spread.rank() <= 0x322b_cc77 ==> bin == 0
            &&& spread.is_nan_spec() || spread.rank() > 0x322b_cc77 ==> bin == if place < 12 {
                place
            } else {
                11
            }
        }),
{
    lemma_whole_is_not_negative(
        model.product(
            model.quotient(
                model.difference(centroid.axis_spec(axis), low.axis_spec(axis)),
                model.extent(low, high, axis),
            ),
            Scalar::of_count_spec(SAH_BINS as nat),
        ),
    );
}

/// The area of a box is twice the sum of its three sides; a box that is turned inside out
/// has none.  Of an axis with the longest side none is longer, and the first of them is
/// taken.
pub proof fn lemma_areas_are_of_all_sides(model: ArithmeticModel, low: Vec3, high: Vec3)
    ensures
        ({
            let minus = |a: Scalar, b: Scalar| (model.compute)(Operation::Difference, a, b);
            let plus = |a: Scalar, b: Scalar| (model.compute)(Operation::Sum, a, b);
            let times = |a: Scalar, b: Scalar| (model.compute)(Operation::Product, a, b);
            let (x, y, z) = (minus(high.x, low.x), minus(high.y, low.y), minus(high.z, low.z));
            let ordered = !x.is_nan_spec() && !y.is_nan_spec() && !z.is_nan_spec();
            let axis = longest_axis_spec(model.extents(low, high));
            &&& ordered && (x.rank() < 0 || y.rank() < 0 || z.rank() < 0)
                ==> model.surface_area_spec(low, high).bits == 0
            &&& ordered && x.rank() >= 0 && y.rank() >= 0 && z.rank() >= 0
                ==> model.surface_area_spec(low, high) == times(
                Scalar { bits: 0x4000_0000 },
                plus(plus(times(x, y), times(x, z)), times(y, z)),
            )
            &&& ordered ==> (axis == 0 <==> y.rank() <= x.rank() && z.rank() <= x.rank())
            &&& ordered ==> (axis == 1 <==> x.rank() < y.rank() && z.rank() <= y.rank())
            &&& ordered ==> (axis == 2 <==> x.rank() < z.rank() && y.rank() < z.rank())
        }),
{
}

/// How many of some triangles fulfil a condition.
pub open spec fn count_of(items: Seq<BuildTriangle>, test: spec_fn(BuildTriangle) -> bool) -> nat
    decreases items.len(),
{
    if items.len() == 0 {
        0
    } else {
        count_of(items.drop_last(), test) + if test(items.last()) {
            1nat
        } else {
            0
        }
    }
}

/// Whether a box holds the boxes of all triangles that fulfil a condition.
pub open spec fn holds_boxes(
    bin: SahBin,
    items: Seq<BuildTriangle>,
    test: spec_fn(BuildTriangle) -> bool,
) -> bool {
    forall|i: int|
        0 <= i < items.len() && test(#[trigger] items[i]) ==> bounds_below(
            bin.bounds_min,
            items[i].bounds_min,
        ) && bounds_above(bin.bounds_max, items[i].bounds_max)
}

proof fn lemma_smaller_is_below(a: Vec3, b: Vec3, point: Vec3)
    ensures
        bounds_below(a, point) || bounds_below(b, point) ==> bounds_below(a.min_spec(b), point),
        bounds_above(a, point) || bounds_above(b, point) ==> bounds_above(a.max_spec(b), point),
        bounds_below(a.min_spec(point), point),
        bounds_above(a.max_spec(point), point),
{
    let low = a.min_spec(b);
    let high = a.max_spec(b);
    if bounds_below(a, point) || bounds_below(b, point) {
        assert forall|axis: int|
            0 <= axis < 3 && !(#[trigger] point.axis_spec(axis)).is_nan_spec() implies low.axis_spec(
        axis).le_spec(point.axis_spec(axis)) by {
            assert(bounds_below(a, point) ==> a.axis_spec(axis).le_spec(point.axis_spec(axis)));
            assert(bounds_below(b, point) ==> b.axis_spec(axis).le_spec(point.axis_spec(axis)));
        }
    }
    if bounds_above(a, point) || bounds_above(b, point) {
        assert forall|axis: int|
            0 <= axis < 3 && !(#[trigger] point.axis_spec(axis)).is_nan_spec() implies point.axis_spec(
        axis).le_spec(high.axis_spec(axis)) by {
            assert(bounds_above(a, point) ==> point.axis_spec(axis).le_spec(a.axis_spec(axis)));
            assert(bounds_above(b, point) ==> point.axis_spec(axis).le_spec(b.axis_spec(axis)));
        }
    }
}

proof fn lemma_bin_holds_its_triangles(
    model: ArithmeticModel,
    items: Seq<BuildTriangle>,
    low: Vec3,
    high: Vec3,
    axis: int,
    bin: int,
)
    requires
        items.len() <= usize::MAX,
    ensures
        ({
            let test = |item: BuildTriangle| model.bin_of(item.centroid, low, high, axis) == bin;
            let filled = model.filled(items, low, high, axis, bin);
            &&& filled.count == count_of(items, test)
            &&& filled.count <= items.len()
            &&& holds_boxes(filled, items, test)
        }),
    decreases items.len(),
{
    if items.len() > 0 {
        let test = |item: BuildTriangle| model.bin_of(item.centroid, low, high, axis) == bin;
        let front = items.drop_last();
        lemma_bin_holds_its_triangles(model, front, low, high, axis, bin);
        let before = model.filled(front, low, high, axis, bin);
        let after = model.filled(items, low, high, axis, bin);
        let last = items.last();
        assert forall|i: int| 0 <= i < items.len() && test(#[trigger] items[i]) implies bounds_below(
            after.bounds_min,
            items[i].bounds_min,
        ) && bounds_above(after.bounds_max, items[i].bounds_max) by {
            if i < front.len() {
                assert(front[i] == items[i]);
            }
            lemma_smaller_is_below(before.bounds_min, last.bounds_min, items[i].bounds_min);
            lemma_smaller_is_below(before.bounds_max, last.bounds_max, items[i].bounds_max);
        }
    }
}

proof fn lemma_counts_add_up(
    items: Seq<BuildTriangle>,
    one: spec_fn(BuildTriangle) -> bool,
    other: spec_fn(BuildTriangle) -> bool,
    either: spec_fn(BuildTriangle) -> bool,
)
    requires
        forall|item: BuildTriangle| #![trigger either(item)]
            either(item) <==> one(item) || other(item),
        forall|item: BuildTriangle| #![trigger one(item), other(item)] !(one(item) && other(item)),
    ensures
        count_of(items, either) == count_of(items, one) + count_of(items, other),
        count_of(items, either) <= items.len(),
    decreases items.len(),
{
    if items.len() > 0 {
        lemma_counts_add_up(items.drop_last(), one, other, either);
        let last = items.last();
        assert(either(last) <==> one(last) || other(last));
        assert(!(one(last) && other(last)));
    }
}

proof fn lemma_none_are_counted(items: Seq<BuildTriangle>, test: spec_fn(BuildTriangle) -> bool)
    requires
        forall|item: BuildTriangle| !#[trigger] test(item),
    ensures
        count_of(items, test) == 0,
    decreases items.len(),
{
    if items.len() > 0 {
        lemma_none_are_counted(items.drop_last(), test);
        assert(!test(items.last()));
    }
}

proof fn lemma_counted_where_one_is(
    items: Seq<BuildTriangle>,
    test: spec_fn(BuildTriangle) -> bool,
    i: int,
)
    requires
        0 <= i < items.len(),
        test(items[i]),
    ensures
        count_of(items, test) > 0,
    decreases items.len(),
{
    if i < items.len() - 1 {
        assert(items.drop_last()[i] == items[i]);
        lemma_counted_where_one_is(items.drop_last(), test, i);
    }
}

proof fn lemma_merging_holds_both(
    items: Seq<BuildTriangle>,
    first: SahBin,
    second: SahBin,
    one: spec_fn(BuildTriangle) -> bool,
    other: spec_fn(BuildTriangle) -> bool,
    either: spec_fn(BuildTriangle) -> bool,
)
    requires
        items.len() <= usize::MAX,
        forall|item: BuildTriangle| #![trigger either(item)]
            either(item) <==> one(item) || other(item),
        forall|item: BuildTriangle| #![trigger one(item), other(item)] !(one(item) && other(item)),
        first.count == count_of(items, one),
        second.count == count_of(items, other),
        holds_boxes(first, items, one),
        holds_boxes(second, items, other),
    ensures
        first.merge_spec(second).count == count_of(items, either),
        holds_boxes(first.merge_spec(second), items, either),
{
    lemma_counts_add_up(items, one, other, either);
    let both = first.merge_spec(second);
    assert forall|i: int| 0 <= i < items.len() && either(#[trigger] items[i]) implies bounds_below(
        both.bounds_min,
        items[i].bounds_min,
    ) && bounds_above(both.bounds_max, items[i].bounds_max) by {
        assert(one(items[i]) || other(items[i]));
        if other(items[i]) {
            lemma_counted_where_one_is(items, other, i);
        }
        lemma_smaller_is_below(first.bounds_min, second.bounds_min, items[i].bounds_min);
        lemma_smaller_is_below(first.bounds_max, second.bounds_max, items[i].bounds_max);
    }
}

proof fn lemma_left_side(
    model: ArithmeticModel,
    items: Seq<BuildTriangle>,
    low: Vec3,
    high: Vec3,
    axis: int,
    n: int,
)
    requires
        items.len() <= usize::MAX,
        0 <= axis < 3,
        0 <= n <= 12,
    ensures
        ({
            let left = left_of(model.bins(items, low, high, axis), n);
            let before = |item: BuildTriangle| model.bin_of(item.centroid, low, high, axis) < n;
            &&& left.count == count_of(items, before)
            &&& holds_boxes(left, items, before)
        }),
    decreases n,
{
    let bins = model.bins(items, low, high, axis);
    let before = |item: BuildTriangle| model.bin_of(item.centroid, low, high, axis) < n;
    assert forall|item: BuildTriangle| 0 <= #[trigger] model.bin_of(
        item.centroid,
        low,
        high,
        axis,
    ) by {
        lemma_bins_are_twelfths(model, item.centroid, low, high, axis);
    }
    if n == 0 {
        lemma_none_are_counted(items, before);
    } else {
        lemma_left_side(model, items, low, high, axis, n - 1);
        lemma_bin_holds_its_triangles(model, items, low, high, axis, n - 1);
        lemma_merging_holds_both(
            items,
            left_of(bins, n - 1),
            bins[n - 1],
            |item: BuildTriangle| model.bin_of(item.centroid, low, high, axis) < n - 1,
            |item: BuildTriangle| model.bin_of(item.centroid, low, high, axis) == n - 1,
            before,
        );
    }
}

proof fn lemma_right_side(
    model: ArithmeticModel,
    items: Seq<BuildTriangle>,
    low: Vec3,
    high: Vec3,
    axis: int,
    n: int,
)
    requires
        items.len() <= usize::MAX,
        0 <= axis < 3,
        0 <= n <= 12,
    ensures
        ({
            let right = right_of(model.bins(items, low, high, axis), n);
            let behind = |item: BuildTriangle| model.bin_of(item.centroid, low, high, axis) >= n;
            &&& right.count == count_of(items, behind)
            &&& holds_boxes(right, items, behind)
        }),
    decreases 12 - n,
{
    let bins = model.bins(items, low, high, axis);
    let behind = |item: BuildTriangle| model.bin_of(item.centroid, low, high, axis) >= n;
    assert forall|item: BuildTriangle| (#[trigger] model.bin_of(
        item.centroid,
        low,
        high,
        axis,
    )) < 12 by {
        lemma_bins_are_twelfths(model, item.centroid, low, high, axis);
    }
    if n == 12 {
        lemma_none_are_counted(items, behind);
    } else {
        lemma_right_side(model, items, low, high, axis, n + 1);
        lemma_bin_holds_its_triangles(model, items, low, high, axis, n);
        lemma_merging_holds_both(
            items,
            right_of(bins, n + 1),
            bins[n],
            |item: BuildTriangle| model.bin_of(item.centroid, low, high, axis) >= n + 1,
            |item: BuildTriangle| model.bin_of(item.centroid, low, high, axis) == n,
            behind,
        );
    }
}

/// What splitting behind a bin costs: the area of the box around the triangles up to the bin
/// times their number, and the same of the triangles behind it.  Each of the boxes holds
/// all triangles of its side, and every triangle is counted on one side.
pub proof fn lemma_splits_cost_area_times_count(
    model: ArithmeticModel,
    items: Seq<BuildTriangle>,
    low: Vec3,
    high: Vec3,
    axis: int,
    split: int,
)
    requires
        items.len() <= usize::MAX,
        0 <= axis < 3,
        0 <= split < 11,
    ensures
        ({
            let bins = model.bins(items, low, high, axis);
            let left = left_of(bins, split + 1);
            let right = right_of(bins, split + 1);
            let before = |item: BuildTriangle|
                model.bin_of(item.centroid, low, high, axis) <= split;
            let behind = |item: BuildTriangle|
                model.bin_of(item.centroid, low, high, axis) > split;
            let weigh = |side: SahBin|
                (model.compute)(
                    Operation::Product,
                    model.surface_area_spec(side.bounds_min, side.bounds_max),
                    Scalar::of_count_spec(side.count as nat),
                );
            &&& left.count == count_of(items, before)
            &&& right.count == count_of(items, behind)
            &&& left.count + right.count == items.len()
            &&& holds_boxes(left, items, before)
            &&& holds_boxes(right, items, behind)
            &&& model.split_cost(bins, split) == (model.compute)(
                Operation::Sum,
                weigh(left),
                weigh(right),
            )
            &&& model.is_candidate(bins, split) <==> left.count > 0 && right.count > 0
        }),
{
    lemma_left_side(model, items, low, high, axis, split + 1);
    lemma_right_side(model, items, low, high, axis, split + 1);
    let bins = model.bins(items, low, high, axis);
    let before = |item: BuildTriangle| model.bin_of(item.centroid, low, high, axis) <= split;
    let behind = |item: BuildTriangle| model.bin_of(item.centroid, low, high, axis) > split;
    let lower = |item: BuildTriangle| model.bin_of(item.centroid, low, high, axis) < split + 1;
    let upper = |item: BuildTriangle| model.bin_of(item.centroid, low, high, axis) >= split + 1;
    assert(before =~= lower);
    assert(behind =~= upper);
    lemma_bins_hold_all(model, items, low, high, axis);
    lemma_left_count(bins, split + 1);
    lemma_right_count(bins, split + 1);
}

/// The split that is kept is one of those that were compared: its cost and the number of
/// triangles on its lower side are those of a split along its axis.
pub proof fn lemma_kept_split_was_compared(
    model: ArithmeticModel,
    items: Seq<BuildTriangle>,
    low: Vec3,
    high: Vec3,
    n: int,
)
    requires
        items.len() <= usize::MAX,
        0 <= n <= 3,
    ensures
        ({
            let best = model.best_axis(items, low, high, n);
            best.cost.bits == 0x7f80_0000 || is_split(model, items, low, high, best)
        }),
        model.sah_split_spec(items, low, high) matches Some(found) ==> found.0
            == model.best_axis(items, low, high, 3).axis && found.1 == model.best_axis(
            items,
            low,
            high,
            3,
        ).left_count,
    decreases n,
{
    if n > 0 {
        lemma_kept_split_was_compared(model, items, low, high, n - 1);
        let before = model.best_axis(items, low, high, n - 1);
        if !is_flat(model.extent(low, high, n - 1)) {
            lemma_compared_split(model, items, low, high, n - 1, 11, before);
        }
    }
}

/// Whether a split has the cost and the count of one that leaves triangles on both sides,
/// along an axis on which the centroids spread.
pub open spec fn is_split(
    model: ArithmeticModel,
    items: Seq<BuildTriangle>,
    low: Vec3,
    high: Vec3,
    best: SahBest,
) -> bool {
    exists|split: int|
        0 <= split < 11 && best.axis < 3 && !is_flat(model.extent(low, high, best.axis as int))
            && #[trigger] model.is_candidate(model.bins(items, low, high, best.axis as int), split)
            && best.cost == model.split_cost(
            model.bins(items, low, high, best.axis as int),
            split,
        ) && best.left_count == left_of(
            model.bins(items, low, high, best.axis as int),
            split + 1,
        ).count
}

proof fn lemma_compared_split(
    model: ArithmeticModel,
    items: Seq<BuildTriangle>,
    low: Vec3,
    high: Vec3,
    axis: int,
    n: int,
    best: SahBest,
)
    requires
        0 <= axis < 3,
        0 <= n <= 11,
        !is_flat(model.extent(low, high, axis)),
    ensures
        ({
            let kept = model.best_split(model.bins(items, low, high, axis), axis, n, best);
            kept == best || is_split(model, items, low, high, kept)
        }),
    decreases n,
{
    if n > 0 {
        lemma_compared_split(model, items, low, high, axis, n - 1, best);
        let bins = model.bins(items, low, high, axis);
        let before = model.best_split(bins, axis, n - 1, best);
        let kept = model.best_split(bins, axis, n, best);
        if model.is_candidate(bins, n - 1) && model.split_cost(bins, n - 1).lt_spec(before.cost) {
            assert(kept.axis == axis);
            assert(model.is_candidate(model.bins(items, low, high, kept.axis as int), n - 1));
            assert(is_split(model, items, low, high, kept));
        }
    }
}

} // verus!
