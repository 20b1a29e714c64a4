//! Times and counts of a bake.

use crate::config::{product, ResolvedBakeConfig};
use crate::dispatch::traces_per_row;
use vstd::prelude::*;

verus! {

/// The longest time that is told apart, in nanoseconds.
pub const MAX_NANOS: u128 = 18_446_744_073_709_551_615_999_999_999;

/// Half a time, rounded down.
pub open spec fn halved_spec(nanos: u128) -> u128 {
    nanos / 2
}

/// Twice a time, but no more than the longest.
pub open spec fn doubled_spec(nanos: u128) -> u128 {
    if nanos * 2 <= MAX_NANOS {
        (nanos * 2) as u128
    } else {
        MAX_NANOS
    }
}

/// Half a time, rounded down.
pub(crate) fn halved(nanos: u128) -> (half: u128)
    ensures
        half == halved_spec(nanos),
{
    nanos / 2
}

/// Twice a time, but no more than the longest.
pub(crate) fn doubled(nanos: u128) -> (double: u128)
    ensures
        double == doubled_spec(nanos),
{
    if nanos <= MAX_NANOS / 2 {
        nanos * 2
    } else {
        MAX_NANOS
    }
}

/// The least time between two updates of a progressive bake, unless set
/// otherwise: half a second.
pub const DEFAULT_UPDATE_INTERVAL_NANOS: u128 = 500_000_000;

/// How often a progressive bake hands out what it has.
#[derive(Clone, Copy, Debug, PartialEq, Eq, Structural)]
pub struct ProgressiveBakeOptions {
    pub update_interval_nanos: u128,
}

impl Default for ProgressiveBakeOptions {
    fn default() -> (options: ProgressiveBakeOptions)
        ensures
            options.update_interval_nanos == DEFAULT_UPDATE_INTERVAL_NANOS,
            options.update_interval_nanos == 500_000_000,
    {
        ProgressiveBakeOptions { update_interval_nanos: DEFAULT_UPDATE_INTERVAL_NANOS }
    }
}

/// How long the parts of a bake took, in nanoseconds.
#[derive(Clone, Copy, Debug, PartialEq, Eq, Structural)]
pub struct BakeTimes {
    pub bvh_build: u128,
    pub gpu_setup: u128,
    pub gpu_dispatch: u128,
    pub gpu_timestamp: Option<u128>,
    pub readback: u128,
}

/// What a bake did.
#[derive(Clone, Copy, Debug, PartialEq, Eq, Structural)]
pub struct GpuBakeStats {
    pub triangle_count: usize,
    pub bvh_node_count: usize,
    pub width: u32,
    pub height: u32,
    pub samples: u32,
    pub max_repeat_radius: u32,
    pub rows_per_dispatch: u32,
    pub dispatch_count: u32,
    pub sample_lanes: u32,
    pub samples_per_lane: u32,
    pub camera_ray_count: u64,
    pub max_periodic_copies_per_ray: u64,
    pub max_bvh_traces: u64,
    pub times: BakeTimes,
}

/// What is left of a time when two parts are taken out, at least nothing.
pub open spec fn remaining_nanos_spec(total: u128, first: u128, second: u128) -> int {
    if total < first + second {
        0
    } else {
        total - first - second
    }
}

/// What is left of a time when two parts are taken out, at least nothing.
pub fn remaining_nanos(total: u128, first: u128, second: u128) -> (rest: u128)
    ensures
        rest == remaining_nanos_spec(total, first, second),
{
    if total < first || total - first < second {
        0
    } else {
        total - first - second
    }
}

/// The share of one out of `count` tiles in a time, rounded down.
pub fn nanos_per_tile(total: u128, count: u32) -> (share: u128)
    requires
        count > 0,
    ensures
        share == total / count as u128,
{
    total / count as u128
}

/// The times for building the tree and setting up the device, which only the
/// first tile of the first batch reports.
pub fn reported_setup(
    already_reported: bool,
    tile_index: usize,
    bvh_build: u128,
    gpu_setup: u128,
) -> (times: (u128, u128))
    ensures
        times == if !already_reported && tile_index == 0 {
            (bvh_build, gpu_setup)
        } else {
            (0u128, 0u128)
        },
        already_reported || tile_index > 0 ==> times.0 == 0 && times.1 == 0,
        !already_reported && tile_index == 0 ==> times.0 == bvh_build && times.1 == gpu_setup,
{
    if !already_reported && tile_index == 0 {
        (bvh_build, gpu_setup)
    } else {
        (0, 0)
    }
}

/// Periodic copies of the tile that a ray may cross.
pub open spec fn periodic_copies(max_repeat_radius: u32) -> int {
    (max_repeat_radius * 2 + 1) * (max_repeat_radius * 2 + 1)
}

/// Camera rays of a bake.
pub open spec fn camera_rays(config: ResolvedBakeConfig) -> int {
    config.width * config.height * config.samples
}

/// Tree traversals of a bake at most: one for each copy that a camera ray may
/// cross, and as many again for shadows.
pub open spec fn bvh_traces(config: ResolvedBakeConfig) -> int {
    camera_rays(config) * periodic_copies(config.max_repeat_radius) * (if config.enable_shadows {
        2int
    } else {
        1
    })
}

/// Whether the counts of a bake fit.
pub open spec fn counts_fit(config: ResolvedBakeConfig) -> bool {
    &&& camera_rays(config) <= u64::MAX
    &&& periodic_copies(config.max_repeat_radius) <= u64::MAX
    &&& bvh_traces(config) <= u64::MAX
}

/// Tree traversals of some camera rays at most, where they can be counted.
fn checked_traces(camera_rays: Option<u64>, config: &ResolvedBakeConfig) -> (traces: Option<u64>)
    ensures
        traces == match camera_rays {
            Some(rays) => {
                let all = rays * periodic_copies(config.max_repeat_radius) * (
                if config.enable_shadows {
                    2int
                } else {
                    1
                });
                if periodic_copies(config.max_repeat_radius) <= u64::MAX && all <= u64::MAX {
                    Some(all as u64)
                } else {
                    None
                }
            },
            None => None,
        },
{
    let per_axis: u64 = config.max_repeat_radius as u64 * 2 + 1;
    let factor: u64 = if config.enable_shadows {
        2
    } else {
        1
    };
    let rays: u64 = match camera_rays {
        Some(rays) => rays,
        None => return None,
    };
    let copies: u64 = match per_axis.checked_mul(per_axis) {
        Some(copies) => copies,
        None => return None,
    };
    assert(0 <= rays * copies <= rays * copies * factor) by (nonlinear_arith)
        requires
            factor >= 1,
    ;
    match rays.checked_mul(copies) {
        Some(traces) => traces.checked_mul(factor),
        None => None,
    }
}

/// Whether the counts of a bake fit, and so do those of one of its rows.
pub fn check_counts(config: &ResolvedBakeConfig) -> (fit: bool)
    ensures
        fit == (counts_fit(*config) && traces_per_row(
            config.width,
            config.samples,
            config.max_repeat_radius,
            config.enable_shadows,
        ) <= u64::MAX),
{
    let pixels: u64 = product(config.width, config.height);
    let rays: Option<u64> = pixels.checked_mul(config.samples as u64);
    let row: Option<u64> = Some(product(config.width, config.samples));
    proof {
        let diameter = config.max_repeat_radius * 2 + 1;
        let rays_of_row = config.width * config.samples;
        assert(rays_of_row * (diameter * diameter) == rays_of_row * diameter * diameter)
            by (nonlinear_arith);
    }
    checked_traces(rays, config).is_some() && checked_traces(row, config).is_some()
}

/// What a bake of one image did.
pub open spec fn bake_stats_spec(
    config: ResolvedBakeConfig,
    triangle_count: usize,
    bvh_node_count: usize,
    rows_per_dispatch: u32,
    dispatch_count: u32,
    sample_lanes: u32,
    samples_per_lane: u32,
    times: BakeTimes,
) -> GpuBakeStats {
    GpuBakeStats {
        triangle_count,
        bvh_node_count,
        width: config.width,
        height: config.height,
        samples: config.samples,
        max_repeat_radius: config.max_repeat_radius,
        rows_per_dispatch,
        dispatch_count,
        sample_lanes,
        samples_per_lane,
        camera_ray_count: camera_rays(config) as u64,
        max_periodic_copies_per_ray: periodic_copies(config.max_repeat_radius) as u64,
        max_bvh_traces: bvh_traces(config) as u64,
        times,
    }
}

/// What a bake of one image did.
pub fn bake_stats(
    config: &ResolvedBakeConfig,
    triangle_count: usize,
    bvh_node_count: usize,
    rows_per_dispatch: u32,
    dispatch_count: u32,
    sample_lanes: u32,
    samples_per_lane: u32,
    times: BakeTimes,
) -> (stats: GpuBakeStats)
    requires
        counts_fit(*config),
    ensures
        stats == bake_stats_spec(
            *config,
            triangle_count,
            bvh_node_count,
            rows_per_dispatch,
            dispatch_count,
            sample_lanes,
            samples_per_lane,
            times,
        ),
{
    let per_axis: u64 = config.max_repeat_radius as u64 * 2 + 1;
    let copies: u64 = per_axis * per_axis;
    let pixels: u64 = product(config.width, config.height);
    let camera_ray_count: u64 = pixels * config.samples as u64;
    let trace_multiplier: u64 = if config.enable_shadows {
        2
    } else {
        1
    };
    assert(0 <= camera_ray_count * copies <= camera_ray_count * copies * trace_multiplier)
        by (nonlinear_arith)
        requires
            trace_multiplier >= 1,
            camera_ray_count >= 0,
            copies >= 0,
    ;
    let max_bvh_traces: u64 = camera_ray_count * copies * trace_multiplier;
    GpuBakeStats {
        triangle_count,
        bvh_node_count,
        width: config.width,
        height: config.height,
        samples: config.samples,
        max_repeat_radius: config.max_repeat_radius,
        rows_per_dispatch,
        dispatch_count,
        sample_lanes,
        samples_per_lane,
        camera_ray_count,
        max_periodic_copies_per_ray: copies,
        max_bvh_traces,
        times,
    }
}

/// Two times together, where both are known.
pub open spec fn both_known(a: Option<u128>, b: Option<u128>) -> Option<u128> {
    match (a, b) {
        (Some(a), Some(b)) => Some((a + b) as u128),
        _ => None,
    }
}

impl BakeTimes {
    /// The times of two bakes together.
    pub open spec fn plus(self, other: BakeTimes) -> BakeTimes {
        BakeTimes {
            bvh_build: (self.bvh_build + other.bvh_build) as u128,
            gpu_setup: (self.gpu_setup + other.gpu_setup) as u128,
            gpu_dispatch: (self.gpu_dispatch + other.gpu_dispatch) as u128,
            gpu_timestamp: both_known(self.gpu_timestamp, other.gpu_timestamp),
            readback: (self.readback + other.readback) as u128,
        }
    }

    /// Whether the times of two bakes together can be told apart.
    pub open spec fn can_add(self, other: BakeTimes) -> bool {
        &&& self.bvh_build + other.bvh_build <= MAX_NANOS
        &&& self.gpu_setup + other.gpu_setup <= MAX_NANOS
        &&& self.gpu_dispatch + other.gpu_dispatch <= MAX_NANOS
        &&& match (self.gpu_timestamp, other.gpu_timestamp) {
            (Some(a), Some(b)) => a + b <= MAX_NANOS,
            _ => true,
        }
        &&& self.readback + other.readback <= MAX_NANOS
    }
}

/// The counts and times of an atlas with one more tile.
pub open spec fn merged(
    total: GpuBakeStats,
    tile: GpuBakeStats,
    atlas_width: u32,
    atlas_height: u32,
) -> GpuBakeStats {
    GpuBakeStats {
        width: atlas_width,
        height: atlas_height,
        dispatch_count: (total.dispatch_count + tile.dispatch_count) as u32,
        camera_ray_count: (total.camera_ray_count + tile.camera_ray_count) as u64,
        max_bvh_traces: (total.max_bvh_traces + tile.max_bvh_traces) as u64,
        times: total.times.plus(tile.times),
        ..total
    }
}

/// Whether the counts and times of an atlas with one more tile fit.
pub open spec fn can_merge(total: GpuBakeStats, tile: GpuBakeStats) -> bool {
    &&& total.dispatch_count + tile.dispatch_count <= u32::MAX
    &&& total.camera_ray_count + tile.camera_ray_count <= u64::MAX
    &&& total.max_bvh_traces + tile.max_bvh_traces <= u64::MAX
    &&& total.times.can_add(tile.times)
}

/// Whether two times together can be told apart.
fn check_sum(a: u128, b: u128) -> (fit: bool)
    ensures
        fit == (a + b <= MAX_NANOS),
{
    a <= MAX_NANOS && b <= MAX_NANOS - a
}

/// Whether a tile can be added to the total of an atlas.
pub open spec fn can_add_tile(total: Option<GpuBakeStats>, tile: GpuBakeStats) -> bool {
    match total {
        Some(total) => can_merge(total, tile),
        None => true,
    }
}

/// Whether a tile can be added to the total of an atlas.
pub fn check_merge(total: &Option<GpuBakeStats>, tile: &GpuBakeStats) -> (fit: bool)
    ensures
        fit == can_add_tile(*total, *tile),
{
    match *total {
        Some(total) => {
            let counted = total.dispatch_count.checked_add(tile.dispatch_count).is_some()
                && total.camera_ray_count.checked_add(tile.camera_ray_count).is_some()
                && total.max_bvh_traces.checked_add(tile.max_bvh_traces).is_some();
            let timed = match (total.times.gpu_timestamp, tile.times.gpu_timestamp) {
                (Some(a), Some(b)) => check_sum(a, b),
                _ => true,
            };
            counted && timed && check_sum(total.times.bvh_build, tile.times.bvh_build) && check_sum(
                total.times.gpu_setup,
                tile.times.gpu_setup,
            ) && check_sum(total.times.gpu_dispatch, tile.times.gpu_dispatch) && check_sum(
                total.times.readback,
                tile.times.readback,
            )
        },
        None => true,
    }
}

/// Adds what the bake of a tile did to the total of the atlas.
pub fn merge_stats(
    total: &mut GpuBakeStats,
    tile: &GpuBakeStats,
    atlas_width: u32,
    atlas_height: u32,
)
    requires
        can_merge(*old(total), *tile),
    ensures
        *final(total) == merged(*old(total), *tile, atlas_width, atlas_height),
{
    total.width = atlas_width;
    total.height = atlas_height;
    total.dispatch_count = total.dispatch_count + tile.dispatch_count;
    total.camera_ray_count = total.camera_ray_count + tile.camera_ray_count;
    total.max_bvh_traces = total.max_bvh_traces + tile.max_bvh_traces;
    let gpu_timestamp = match (total.times.gpu_timestamp, tile.times.gpu_timestamp) {
        (Some(total), Some(tile)) => Some(total + tile),
        _ => None,
    };
    total.times =
    BakeTimes {
        bvh_build: total.times.bvh_build + tile.times.bvh_build,
        gpu_setup: total.times.gpu_setup + tile.times.gpu_setup,
        gpu_dispatch: total.times.gpu_dispatch + tile.times.gpu_dispatch,
        gpu_timestamp,
        readback: total.times.readback + tile.times.readback,
    };
}

/// Adds a tile to the total of an atlas that may have none yet: the first tile
/// becomes the total, under the size of the atlas.
pub fn add_tile_stats(
    total: &mut Option<GpuBakeStats>,
    tile: &GpuBakeStats,
    atlas_width: u32,
    atlas_height: u32,
)
    requires
        can_add_tile(*old(total), *tile),
    ensures
        *final(total) == Some(
            match *old(total) {
                Some(total) => merged(total, *tile, atlas_width, atlas_height),
                None => GpuBakeStats { width: atlas_width, height: atlas_height, ..*tile },
            },
        ),
{
    let combined = match *total {
        Some(so_far) => {
            let mut combined = so_far;
            merge_stats(&mut combined, tile, atlas_width, atlas_height);
            combined
        },
        None => {
            let mut first = *tile;
            first.width = atlas_width;
            first.height = atlas_height;
            first
        },
    };
    *total = Some(combined);
}

/// The order in which the tiles behind the first are added does not change the
/// total.
pub proof fn lemma_merging_commutes(
    total: GpuBakeStats,
    first: GpuBakeStats,
    second: GpuBakeStats,
    atlas_width: u32,
    atlas_height: u32,
)
    requires
        can_merge(total, first),
        can_merge(merged(total, first, atlas_width, atlas_height), second),
        can_merge(total, second),
        can_merge(merged(total, second, atlas_width, atlas_height), first),
    ensures
        merged(
            merged(total, first, atlas_width, atlas_height),
            second,
            atlas_width,
            atlas_height,
        ) == merged(
            merged(total, second, atlas_width, atlas_height),
            first,
            atlas_width,
            atlas_height,
        ),
{
}

/// What a bake counts: a camera ray for each pixel and sample; copies in a square of as many
/// to each side as the tile repeats; and for each ray and copy a trace, and another for
/// shadows.
pub proof fn lemma_counts_come_from_the_settings(
    config: ResolvedBakeConfig,
    triangle_count: usize,
    bvh_node_count: usize,
    rows_per_dispatch: u32,
    dispatch_count: u32,
    sample_lanes: u32,
    samples_per_lane: u32,
    times: BakeTimes,
)
    requires
        counts_fit(config),
    ensures
        ({
            let stats = bake_stats_spec(
                config,
                triangle_count,
                bvh_node_count,
                rows_per_dispatch,
                dispatch_count,
                sample_lanes,
                samples_per_lane,
                times,
            );
            let copies = (2 * config.max_repeat_radius + 1) * (2 * config.max_repeat_radius + 1);
            let rays = config.width * config.height * config.samples;
            &&& stats.triangle_count == triangle_count
            &&& stats.bvh_node_count == bvh_node_count
            &&& stats.width == config.width
            &&& stats.height == config.height
            &&& stats.samples == config.samples
            &&& stats.max_repeat_radius == config.max_repeat_radius
            &&& stats.rows_per_dispatch == rows_per_dispatch
            &&& stats.dispatch_count == dispatch_count
            &&& stats.sample_lanes == sample_lanes
            &&& stats.samples_per_lane == samples_per_lane
            &&& stats.camera_ray_count == rays
            &&& stats.max_periodic_copies_per_ray == copies
            &&& config.enable_shadows ==> stats.max_bvh_traces == 2 * (rays * copies)
            &&& !config.enable_shadows ==> stats.max_bvh_traces == rays * copies
            &&& stats.times == times
        }),
{
    let rays = camera_rays(config);
    let copies = periodic_copies(config.max_repeat_radius);
    assert(rays >= 0) by (nonlinear_arith)
        requires
            rays == config.width * config.height * config.samples,
    ;
    assert(copies >= 0) by (nonlinear_arith)
        requires
            copies == (config.max_repeat_radius * 2 + 1) * (config.max_repeat_radius * 2 + 1),
    ;
    assert(rays * copies >= 0 && rays * copies * 2 == 2 * (rays * copies) && rays * copies * 1
        == rays * copies) by (nonlinear_arith)
        requires
            rays >= 0,
            copies >= 0,
    ;
}

/// What an atlas counts: the dispatches, rays, traces and times of its tiles together,
/// under its own size, and what is the same for all tiles from the first; the time on the
/// device is known where it is known of all tiles.
pub proof fn lemma_tiles_add_up(
    total: GpuBakeStats,
    tile: GpuBakeStats,
    atlas_width: u32,
    atlas_height: u32,
)
    requires
        can_merge(total, tile),
    ensures
        ({
            let all = merged(total, tile, atlas_width, atlas_height);
            &&& all.width == atlas_width
            &&& all.height == atlas_height
            &&& all.dispatch_count == total.dispatch_count + tile.dispatch_count
            &&& all.camera_ray_count == total.camera_ray_count + tile.camera_ray_count
            &&& all.max_bvh_traces == total.max_bvh_traces + tile.max_bvh_traces
            &&& all.times.bvh_build == total.times.bvh_build + tile.times.bvh_build
            &&& all.times.gpu_setup == total.times.gpu_setup + tile.times.gpu_setup
            &&& all.times.gpu_dispatch == total.times.gpu_dispatch + tile.times.gpu_dispatch
            &&& all.times.readback == total.times.readback + tile.times.readback
            &&& all.times.gpu_timestamp is Some <==> total.times.gpu_timestamp is Some
                && tile.times.gpu_timestamp is Some
            &&& all.times.gpu_timestamp is Some ==> all.times.gpu_timestamp.unwrap()
                == total.times.gpu_timestamp.unwrap() + tile.times.gpu_timestamp.unwrap()
            &&& all.triangle_count == total.triangle_count
            &&& all.bvh_node_count == total.bvh_node_count
            &&& all.samples == total.samples
            &&& all.max_repeat_radius == total.max_repeat_radius
            &&& all.rows_per_dispatch == total.rows_per_dispatch
            &&& all.sample_lanes == total.sample_lanes
            &&& all.samples_per_lane == total.samples_per_lane
            &&& all.max_periodic_copies_per_ray == total.max_periodic_copies_per_ray
        }),
{
}

/// Taking two parts out of a time leaves what they do not fill.
pub proof fn lemma_parts_of_a_time(total: u128, first: u128, second: u128)
    ensures
        first + second <= total ==> first + second + remaining_nanos_spec(total, first, second)
            == total,
        first + second > total ==> remaining_nanos_spec(total, first, second) == 0,
        total <= 9_223_372_036_854_775_807_999_999_999 ==> doubled_spec(total) == 2 * total,
        total > 9_223_372_036_854_775_807_999_999_999 ==> doubled_spec(total)
            == 18_446_744_073_709_551_615_999_999_999,
        2 * halved_spec(total) <= total <= 2 * halved_spec(total) + 1,
{
}

/// Counts of a bake fit where its camera rays, the copies that a ray may cross, and its
/// traces are less than two to the power of 64 each.
pub proof fn lemma_counts_fit_in_64_bits(config: ResolvedBakeConfig)
    ensures
        ({
            let rays = config.width * config.height * config.samples;
            let copies = (2 * config.max_repeat_radius + 1) * (2 * config.max_repeat_radius + 1);
            let traces = if config.enable_shadows {
                rays * copies * 2
            } else {
                rays * copies * 1
            };
            counts_fit(config) <==> rays < 0x1_0000_0000_0000_0000 && copies
                < 0x1_0000_0000_0000_0000 && traces < 0x1_0000_0000_0000_0000
        }),
{
}

/// Which tiles can be added to an atlas: those that leave all counts and times countable.
pub proof fn lemma_tiles_can_be_added_while_they_are_countable(
    total: GpuBakeStats,
    tile: GpuBakeStats,
)
    ensures
        can_add_tile(None, tile),
        can_add_tile(Some(total), tile) <==> {
            &&& total.dispatch_count + tile.dispatch_count < 0x1_0000_0000
            &&& total.camera_ray_count + tile.camera_ray_count < 0x1_0000_0000_0000_0000
            &&& total.max_bvh_traces + tile.max_bvh_traces < 0x1_0000_0000_0000_0000
            &&& total.times.bvh_build + tile.times.bvh_build
                <= 18_446_744_073_709_551_615_999_999_999
            &&& total.times.gpu_setup + tile.times.gpu_setup
                <= 18_446_744_073_709_551_615_999_999_999
            &&& total.times.gpu_dispatch + tile.times.gpu_dispatch
                <= 18_446_744_073_709_551_615_999_999_999
            &&& total.times.readback + tile.times.readback
                <= 18_446_744_073_709_551_615_999_999_999
            &&& total.times.gpu_timestamp is Some && tile.times.gpu_timestamp is Some
                ==> total.times.gpu_timestamp.unwrap() + tile.times.gpu_timestamp.unwrap()
                <= 18_446_744_073_709_551_615_999_999_999
        },
{
}

} // verus!
