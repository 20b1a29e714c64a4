//! How much work goes into one dispatch, and what fits into the buffers of a
//! device.

use crate::config::{product, ResolvedBakeConfig};
use vstd::arithmetic::div_mod::{
    lemma_div_is_ordered, lemma_div_is_ordered_by_denominator, lemma_fundamental_div_mod,
    lemma_mod_bound,
};
use vstd::prelude::*;

verus! {

/// Ray traces that one dispatch aims at.
pub const TARGET_RAY_TRACES_PER_DISPATCH: u64 = 1_024_000_000;

/// Columns of a compute workgroup.
pub const WORKGROUP_WIDTH: u32 = 8;

/// Rows of a compute workgroup.
pub const WORKGROUP_HEIGHT: u32 = 8;

/// Samples from which on a bake runs sample-parallel.
pub const SAMPLE_PARALLEL_THRESHOLD: u32 = 2048;

/// Most lanes that share the samples of a pixel.
pub const SAMPLE_PARALLEL_LANES: u32 = 128;

/// Samples in a lane.
pub const SAMPLE_PARALLEL_SAMPLES_PER_LANE: u32 = 64;

/// Samples in a lane of a bake with many samples.
pub const HIGH_SAMPLE_PARALLEL_SAMPLES_PER_LANE: u32 = 512;

/// Samples from which on a bake counts as one with many.
pub const HIGH_SAMPLE_THRESHOLD: u32 = 65_536;

/// Bytes that the lanes of all pixels may take up.
pub const MAX_SAMPLE_PARALLEL_BUFFER_BYTES: u64 = 536_870_912;

/// Bytes of a pixel in an output buffer: four single-precision numbers.
pub const OUTPUT_PIXEL_BYTES: u64 = 16;

/// Bytes of a triangle in a buffer: five times four numbers.
pub const GPU_TRIANGLE_BYTES: u64 = 80;

/// Bytes of a tree node in a buffer: two times four numbers and four indices.
pub const GPU_BVH_NODE_BYTES: u64 = 48;

/// Most tiles of an atlas that are baked together.
pub const ATLAS_TILE_BATCH_SIZE: usize = 8;

/// Why a bake fails.
#[derive(Clone, Copy, Debug, PartialEq, Eq)]
pub enum GpuBakeError {
    NoAdapter,
    BufferMapFailed,
    MapChannelClosed,
    ImageTooLarge { width: u32, height: u32 },
    OutputBufferTooLarge { required_bytes: u64, limit_bytes: u64 },
    SceneBufferTooLarge { resource: &'static str, required_bytes: u64, limit_bytes: u64 },
    SceneCountTooLarge { resource: &'static str, count: usize },
    Cancelled,
}

/// What a device allows of its buffers.
#[derive(Clone, Copy, Debug, PartialEq, Eq, Structural)]
pub struct BufferLimits {
    pub max_buffer_size: u64,
    pub max_storage_buffer_binding_size: u32,
}

impl BufferLimits {
    /// Bytes that a storage buffer may have.
    pub open spec fn storage_spec(self) -> u64 {
        if self.max_buffer_size <= self.max_storage_buffer_binding_size {
            self.max_buffer_size
        } else {
            self.max_storage_buffer_binding_size as u64
        }
    }

    /// Bytes that a storage buffer may have.
    pub fn storage(self) -> (bytes: u64)
        ensures
            bytes == self.storage_spec(),
    {
        let binding: u64 = self.max_storage_buffer_binding_size as u64;
        if self.max_buffer_size <= binding {
            self.max_buffer_size
        } else {
            binding
        }
    }
}

/// The quotient rounded up.
pub open spec fn ceil_div(a: int, b: int) -> int {
    (a + b - 1) / b
}

/// The quotient rounded up.
pub fn div_ceil(a: u32, b: u32) -> (quotient: u32)
    requires
        b > 0,
    ensures
        quotient == ceil_div(a as int, b as int),
        a <= quotient * b,
        quotient * b < a + b,
{
    let floor: u32 = a / b;
    let rest: u32 = a % b;
    proof {
        lemma_ceil_div(a as int, b as int);
        lemma_fundamental_div_mod(a as int, b as int);
        assert(floor * b == b * floor) by (nonlinear_arith);
        assert((floor + 1) * b == b * floor + b) by (nonlinear_arith);
        assert(rest > 0 ==> floor < a) by (nonlinear_arith)
            requires
                a == b * floor + rest,
                b > 0,
                rest >= 0,
        ;
        if rest > 0 {
            lemma_ceil_div_unique(a as int, b as int, floor + 1);
        } else {
            lemma_ceil_div_unique(a as int, b as int, floor as int);
        }
    }
    if rest > 0 {
        floor + 1
    } else {
        floor
    }
}

/// The quotient rounded up is the least number of groups of `b` that hold `a`.
pub proof fn lemma_ceil_div(a: int, b: int)
    requires
        0 <= a,
        b > 0,
    ensures
        0 <= ceil_div(a, b),
        a <= ceil_div(a, b) * b < a + b,
        a > 0 ==> ceil_div(a, b) > 0,
{
    let q = ceil_div(a, b);
    lemma_fundamental_div_mod(a + b - 1, b);
    lemma_mod_bound(a + b - 1, b);
    assert(q * b == b * q) by (nonlinear_arith);
    assert(0 <= q) by (nonlinear_arith)
        requires
            a + b - 1 == b * q + (a + b - 1) % b,
            (a + b - 1) % b < b,
            0 <= a,
            b > 0,
    ;
    assert(a > 0 ==> q > 0) by (nonlinear_arith)
        requires
            a <= q * b,
            b > 0,
    ;
}

proof fn lemma_ceil_div_unique(a: int, b: int, q: int)
    requires
        0 <= a,
        b > 0,
        a <= q * b < a + b,
    ensures
        q == ceil_div(a, b),
{
    lemma_ceil_div(a, b);
    let p = ceil_div(a, b);
    assert(q == p) by (nonlinear_arith)
        requires
            a <= q * b < a + b,
            a <= p * b < a + b,
            b > 0,
    ;
}

/// Ray traces for one row of pixels: for each sample one trace into each
/// periodic copy of the tile, and as many again for shadows.
pub open spec fn traces_per_row(
    width: u32,
    samples: u32,
    max_repeat_radius: u32,
    enable_shadows: bool,
) -> int {
    let diameter = max_repeat_radius * 2 + 1;
    width * samples * diameter * diameter * (if enable_shadows {
        2int
    } else {
        1
    })
}

/// Rows that the trace budget allows, at least one.
pub open spec fn budget_rows(traces: int) -> int {
    if traces <= 0 {
        TARGET_RAY_TRACES_PER_DISPATCH as int
    } else if TARGET_RAY_TRACES_PER_DISPATCH as int / traces < 1 {
        1
    } else {
        TARGET_RAY_TRACES_PER_DISPATCH as int / traces
    }
}

/// Rows of one dispatch: what the budget allows, rounded up to whole
/// workgroups where the image has that many rows, and no more than it has.
pub open spec fn dispatch_rows(height: int, traces: int) -> int {
    let allowed = if budget_rows(traces) < height {
        budget_rows(traces)
    } else {
        height
    };
    if height < WORKGROUP_HEIGHT {
        allowed
    } else {
        let groups = if allowed < WORKGROUP_HEIGHT {
            1
        } else {
            ceil_div(allowed, WORKGROUP_HEIGHT as int)
        };
        if groups * WORKGROUP_HEIGHT < height {
            groups * WORKGROUP_HEIGHT
        } else {
            height
        }
    }
}

/// Rows of one dispatch for the given settings.
pub fn rows_per_dispatch(config: &ResolvedBakeConfig) -> (rows: u32)
    requires
        traces_per_row(
            config.width,
            config.samples,
            config.max_repeat_radius,
            config.enable_shadows,
        ) <= u64::MAX,
    ensures
        rows == dispatch_rows(
            config.height as int,
            traces_per_row(
                config.width,
                config.samples,
                config.max_repeat_radius,
                config.enable_shadows,
            ),
        ),
{
    rows_per_dispatch_for(
        config.width,
        config.height,
        config.samples,
        config.max_repeat_radius,
        config.enable_shadows,
    )
}

/// Rows of one dispatch.
pub fn rows_per_dispatch_for(
    width: u32,
    height: u32,
    samples: u32,
    max_repeat_radius: u32,
    enable_shadows: bool,
) -> (rows: u32)
    requires
        traces_per_row(width, samples, max_repeat_radius, enable_shadows) <= u64::MAX,
    ensures
        rows == dispatch_rows(
            height as int,
            traces_per_row(width, samples, max_repeat_radius, enable_shadows),
        ),
{
    let diameter: u64 = max_repeat_radius as u64 * 2 + 1;
    let traces_per_sample: u64 = if enable_shadows {
        2
    } else {
        1
    };
    let ghost traces = traces_per_row(width, samples, max_repeat_radius, enable_shadows);
    let pixels_of_row: u64 = product(width, samples);
    assert(pixels_of_row * diameter <= pixels_of_row * diameter * diameter <= traces && traces
        == pixels_of_row * diameter * diameter * traces_per_sample) by (nonlinear_arith)
        requires
            traces == width * samples * diameter * diameter * traces_per_sample,
            pixels_of_row == width * samples,
            diameter >= 1,
            traces_per_sample >= 1,
    ;
    let traces_per_row: u64 = pixels_of_row * diameter * diameter * traces_per_sample;
    let budget: u64 = if traces_per_row == 0 {
        TARGET_RAY_TRACES_PER_DISPATCH
    } else if TARGET_RAY_TRACES_PER_DISPATCH / traces_per_row < 1 {
        1
    } else {
        TARGET_RAY_TRACES_PER_DISPATCH / traces_per_row
    };
    assert(budget <= TARGET_RAY_TRACES_PER_DISPATCH) by {
        if traces_per_row > 0 {
            vstd::arithmetic::div_mod::lemma_div_nonincreasing(
                TARGET_RAY_TRACES_PER_DISPATCH as int,
                traces_per_row as int,
            );
        }
    }
    let allowed: u32 = if budget < height as u64 {
        budget as u32
    } else {
        height
    };
    if height < WORKGROUP_HEIGHT {
        return allowed;
    }
    let groups: u32 = if allowed < WORKGROUP_HEIGHT {
        1
    } else {
        div_ceil(allowed, WORKGROUP_HEIGHT)
    };
    if groups * WORKGROUP_HEIGHT < height {
        groups * WORKGROUP_HEIGHT
    } else {
        height
    }
}

/// A dispatch has at least one row of an image that has rows, and at most all
/// of them; in an image no lower than a workgroup it is a whole number of
/// workgroups high or takes all rows; and what it has over the budget is less
/// than a workgroup.
pub proof fn lemma_dispatch_follows_budget(height: int, traces: int)
    requires
        0 < height,
        0 <= traces,
    ensures
        1 <= dispatch_rows(height, traces) <= height,
        height < WORKGROUP_HEIGHT || dispatch_rows(height, traces) == height || dispatch_rows(
            height,
            traces,
        ) % WORKGROUP_HEIGHT as int == 0,
        dispatch_rows(height, traces) > WORKGROUP_HEIGHT ==> (dispatch_rows(height, traces)
            - WORKGROUP_HEIGHT) * traces < TARGET_RAY_TRACES_PER_DISPATCH,
{
    let budget = budget_rows(traces);
    let rows = dispatch_rows(height, traces);
    let allowed = if budget < height {
        budget
    } else {
        height
    };
    if height >= WORKGROUP_HEIGHT && allowed >= WORKGROUP_HEIGHT {
        lemma_ceil_div(allowed, WORKGROUP_HEIGHT as int);
    }
    if rows > WORKGROUP_HEIGHT {
        assert(rows - WORKGROUP_HEIGHT < budget);
        if traces > 0 {
            let target = TARGET_RAY_TRACES_PER_DISPATCH as int;
            lemma_fundamental_div_mod(target, traces);
            lemma_mod_bound(target, traces);
            assert((rows - WORKGROUP_HEIGHT) * traces < target) by (nonlinear_arith)
                requires
                    rows - WORKGROUP_HEIGHT < budget,
                    budget == target / traces || budget == 1,
                    rows - WORKGROUP_HEIGHT >= 1,
                    target == traces * (target / traces) + target % traces,
                    target % traces >= 0,
                    traces > 0,
            ;
        } else {
            assert((rows - WORKGROUP_HEIGHT) * traces == 0) by (nonlinear_arith)
                requires
                    traces == 0,
            ;
        }
    }
}

/// Fewer traces in a row never make a dispatch smaller: leaving out shadows
/// frees their part of the budget.
pub proof fn lemma_fewer_traces_more_rows(height: int, fewer: int, more: int)
    requires
        0 <= height,
        0 <= fewer <= more,
    ensures
        dispatch_rows(height, fewer) >= dispatch_rows(height, more),
{
    let target = TARGET_RAY_TRACES_PER_DISPATCH as int;
    if fewer > 0 {
        lemma_div_is_ordered_by_denominator(target, fewer, more);
    } else if more > 0 {
        vstd::arithmetic::div_mod::lemma_div_nonincreasing(target, more);
    }
    let a = if budget_rows(fewer) < height {
        budget_rows(fewer)
    } else {
        height
    };
    let b = if budget_rows(more) < height {
        budget_rows(more)
    } else {
        height
    };
    assert(b <= a);
    lemma_div_is_ordered(b + 7, a + 7, WORKGROUP_HEIGHT as int);
    if a >= WORKGROUP_HEIGHT {
        lemma_ceil_div(a, WORKGROUP_HEIGHT as int);
    }
}

/// Leaving out shadows halves the traces of a row.
pub proof fn lemma_shadows_double_traces(width: u32, samples: u32, max_repeat_radius: u32)
    ensures
        traces_per_row(width, samples, max_repeat_radius, true) == 2 * traces_per_row(
            width,
            samples,
            max_repeat_radius,
            false,
        ),
        traces_per_row(width, samples, max_repeat_radius, false) >= 0,
{
    let diameter = max_repeat_radius * 2 + 1;
    assert(width * samples * diameter * diameter * 2 == 2 * (width * samples * diameter * diameter
        * 1)) by (nonlinear_arith);
    assert(width * samples * diameter * diameter * 1 >= 0) by (nonlinear_arith)
        requires
            diameter >= 1,
    ;
}

/// Lanes that share a number of samples.
pub open spec fn sample_lanes_spec(sample_count: u32) -> int {
    let lanes = ceil_div(sample_count as int, SAMPLE_PARALLEL_SAMPLES_PER_LANE as int);
    if lanes < 1 {
        1
    } else if lanes > SAMPLE_PARALLEL_LANES {
        SAMPLE_PARALLEL_LANES as int
    } else {
        lanes
    }
}

/// Lanes that share a number of samples.
pub fn sample_lanes_for(sample_count: u32) -> (lanes: u32)
    ensures
        lanes == sample_lanes_spec(sample_count),
        1 <= lanes <= SAMPLE_PARALLEL_LANES,
{
    let lanes: u32 = div_ceil(sample_count, SAMPLE_PARALLEL_SAMPLES_PER_LANE);
    if lanes < 1 {
        1
    } else if lanes > SAMPLE_PARALLEL_LANES {
        SAMPLE_PARALLEL_LANES
    } else {
        lanes
    }
}

/// Samples in a lane.
pub open spec fn samples_per_lane_spec(sample_count: u32) -> u32 {
    if sample_count >= HIGH_SAMPLE_THRESHOLD {
        HIGH_SAMPLE_PARALLEL_SAMPLES_PER_LANE
    } else {
        SAMPLE_PARALLEL_SAMPLES_PER_LANE
    }
}

/// Samples in a lane.
pub fn sample_parallel_samples_per_lane(sample_count: u32) -> (samples: u32)
    ensures
        samples == samples_per_lane_spec(sample_count),
{
    if sample_count >= HIGH_SAMPLE_THRESHOLD {
        HIGH_SAMPLE_PARALLEL_SAMPLES_PER_LANE
    } else {
        SAMPLE_PARALLEL_SAMPLES_PER_LANE
    }
}

/// The number of pixels, where it fits into the 32-bit indices of a shader.
pub fn checked_pixel_count(width: u32, height: u32) -> (count: Result<u64, GpuBakeError>)
    ensures
        count == if width * height <= u32::MAX {
            Ok::<u64, GpuBakeError>((width * height) as u64)
        } else {
            Err(GpuBakeError::ImageTooLarge { width, height })
        },
{
    let pixel_count: u64 = product(width, height);
    if pixel_count > u32::MAX as u64 {
        return Err(GpuBakeError::ImageTooLarge { width, height });
    }
    Ok(pixel_count)
}

/// Whether a storage buffer of this size is allowed.
pub fn validate_storage_buffer_size(required_bytes: u64, limits: &BufferLimits) -> (valid: Result<
    (),
    GpuBakeError,
>)
    ensures
        valid == if required_bytes <= limits.storage_spec() {
            Ok::<(), GpuBakeError>(())
        } else {
            Err(
                GpuBakeError::OutputBufferTooLarge {
                    required_bytes,
                    limit_bytes: limits.storage_spec(),
                },
            )
        },
{
    let limit_bytes: u64 = limits.storage();
    if required_bytes > limit_bytes {
        return Err(GpuBakeError::OutputBufferTooLarge { required_bytes, limit_bytes });
    }
    Ok(())
}

/// Bytes of one lane of all pixels.
pub open spec fn lane_bytes(pixel_count: u64) -> int {
    (if pixel_count < 1 {
        1
    } else {
        pixel_count as int
    }) * OUTPUT_PIXEL_BYTES
}

/// Bytes that the lanes of all pixels may take up on a device.
pub open spec fn lane_buffer_limit(limits: BufferLimits) -> int {
    if limits.storage_spec() < MAX_SAMPLE_PARALLEL_BUFFER_BYTES {
        limits.storage_spec() as int
    } else {
        MAX_SAMPLE_PARALLEL_BUFFER_BYTES as int
    }
}

/// Lanes that fit into a buffer, at least one.
pub open spec fn lanes_that_fit(pixel_count: u64, limits: BufferLimits) -> int {
    let lanes = lane_buffer_limit(limits) / lane_bytes(pixel_count);
    if lanes < 1 {
        1
    } else if lanes > SAMPLE_PARALLEL_LANES {
        SAMPLE_PARALLEL_LANES as int
    } else {
        lanes
    }
}

/// Lanes for an image of `pixel_count` pixels: as many as fit into a buffer of
/// the device.  Refused where a single lane is larger than the device allows.
pub fn sample_parallel_lanes_for_pixel_count(
    pixel_count: u64,
    limits: &BufferLimits,
) -> (lanes: Result<u32, GpuBakeError>)
    requires
        lane_bytes(pixel_count) <= u64::MAX,
    ensures
        lanes == if lane_bytes(pixel_count) <= limits.storage_spec() {
            Ok::<u32, GpuBakeError>(lanes_that_fit(pixel_count, *limits) as u32)
        } else {
            Err(
                GpuBakeError::OutputBufferTooLarge {
                    required_bytes: lane_bytes(pixel_count) as u64,
                    limit_bytes: limits.storage_spec(),
                },
            )
        },
{
    let counted: u64 = if pixel_count < 1 {
        1
    } else {
        pixel_count
    };
    let bytes_per_lane: u64 = counted * OUTPUT_PIXEL_BYTES;
    let storage: u64 = limits.storage();
    let buffer_limit: u64 = if storage < MAX_SAMPLE_PARALLEL_BUFFER_BYTES {
        storage
    } else {
        MAX_SAMPLE_PARALLEL_BUFFER_BYTES
    };
    match validate_storage_buffer_size(bytes_per_lane, limits) {
        Ok(_) => {},
        Err(error) => return Err(error),
    }
    let lanes: u64 = buffer_limit / bytes_per_lane;
    if lanes < 1 {
        Ok(1)
    } else if lanes > SAMPLE_PARALLEL_LANES as u64 {
        Ok(SAMPLE_PARALLEL_LANES)
    } else {
        Ok(lanes as u32)
    }
}

/// The lanes of an image that is not refused are within the limit of lanes, and
/// together they take up no more than the device allows.
pub proof fn lemma_lanes_fit_the_storage_binding(pixel_count: u64, limits: BufferLimits)
    requires
        lane_bytes(pixel_count) <= limits.storage_spec(),
    ensures
        1 <= lanes_that_fit(pixel_count, limits) <= SAMPLE_PARALLEL_LANES,
        pixel_count * lanes_that_fit(pixel_count, limits) * OUTPUT_PIXEL_BYTES
            <= limits.storage_spec(),
        limits.storage_spec() <= limits.max_buffer_size,
        limits.storage_spec() <= limits.max_storage_buffer_binding_size,
{
    let bytes = lane_bytes(pixel_count);
    let lanes = lanes_that_fit(pixel_count, limits);
    let limit = lane_buffer_limit(limits);
    lemma_fundamental_div_mod(limit, bytes);
    lemma_mod_bound(limit, bytes);
    assert(lanes * bytes <= limits.storage_spec()) by (nonlinear_arith)
        requires
            lanes == 1 || lanes <= limit / bytes,
            bytes <= limits.storage_spec(),
            limit <= limits.storage_spec(),
            limit == bytes * (limit / bytes) + limit % bytes,
            limit % bytes >= 0,
            bytes > 0,
    ;
    assert(pixel_count * lanes * OUTPUT_PIXEL_BYTES <= lanes * bytes) by (nonlinear_arith)
        requires
            pixel_count * OUTPUT_PIXEL_BYTES <= bytes,
            lanes >= 1,
    ;
}

/// Lanes of a sample-parallel bake: as many as fit, and no more than the
/// samples ask for.
pub open spec fn bake_lanes(pixel_count: u64, samples: u32, limits: BufferLimits) -> int {
    if sample_lanes_spec(samples) < lanes_that_fit(pixel_count, limits) {
        sample_lanes_spec(samples)
    } else {
        lanes_that_fit(pixel_count, limits)
    }
}

/// How a bake shares its samples among lanes.
#[derive(Clone, Copy, Debug, PartialEq, Eq, Structural)]
pub struct LanePlan {
    pub pixel_count: u64,
    pub lanes: u32,
    pub samples_per_lane: u32,
    pub output_bytes: u64,
}

/// Plans the lanes of a sample-parallel bake.
pub fn plan_lanes(config: &ResolvedBakeConfig, limits: &BufferLimits) -> (plan: Result<
    LanePlan,
    GpuBakeError,
>)
    ensures
        ({
            let pixels = config.width * config.height;
            plan == if pixels > u32::MAX {
                Err::<LanePlan, GpuBakeError>(
                    GpuBakeError::ImageTooLarge { width: config.width, height: config.height },
                )
            } else if lane_bytes(pixels as u64) > limits.storage_spec() {
                Err(
                    GpuBakeError::OutputBufferTooLarge {
                        required_bytes: lane_bytes(pixels as u64) as u64,
                        limit_bytes: limits.storage_spec(),
                    },
                )
            } else {
                Ok(
                    LanePlan {
                        pixel_count: pixels as u64,
                        lanes: bake_lanes(pixels as u64, config.samples, *limits) as u32,
                        samples_per_lane: samples_per_lane_spec(config.samples),
                        output_bytes: (pixels * bake_lanes(pixels as u64, config.samples, *limits)
                            * OUTPUT_PIXEL_BYTES) as u64,
                    },
                )
            }
        }),
        plan matches Ok(plan) ==> 1 <= plan.lanes <= SAMPLE_PARALLEL_LANES && plan.output_bytes
            <= limits.storage_spec() && plan.output_bytes == plan.pixel_count * plan.lanes
            * OUTPUT_PIXEL_BYTES,
{
    let pixel_count: u64 = match checked_pixel_count(config.width, config.height) {
        Ok(count) => count,
        Err(error) => return Err(error),
    };
    let fitting: u32 = match sample_parallel_lanes_for_pixel_count(pixel_count, limits) {
        Ok(lanes) => lanes,
        Err(error) => return Err(error),
    };
    proof {
        lemma_lanes_fit_the_storage_binding(pixel_count, *limits);
    }
    let wanted: u32 = sample_lanes_for(config.samples);
    let lanes: u32 = if wanted < fitting {
        wanted
    } else {
        fitting
    };
    assert(pixel_count * lanes <= pixel_count * fitting) by (nonlinear_arith)
        requires
            lanes <= fitting,
    ;
    assert(0 <= pixel_count * lanes) by (nonlinear_arith);
    let output_bytes: u64 = pixel_count * lanes as u64 * OUTPUT_PIXEL_BYTES;
    Ok(
        LanePlan {
            pixel_count,
            lanes,
            samples_per_lane: sample_parallel_samples_per_lane(config.samples),
            output_bytes,
        },
    )
}

/// Why a buffer for `count` items of the scene is refused, if it is.
pub open spec fn scene_buffer_error(
    resource: &'static str,
    item_bytes: u64,
    count: usize,
    limits: BufferLimits,
) -> Option<GpuBakeError> {
    if count > u32::MAX {
        Some(GpuBakeError::SceneCountTooLarge { resource, count })
    } else if count * item_bytes > limits.storage_spec() {
        Some(
            GpuBakeError::SceneBufferTooLarge {
                resource,
                required_bytes: (count * item_bytes) as u64,
                limit_bytes: limits.storage_spec(),
            },
        )
    } else {
        None
    }
}

/// Whether a buffer for `count` items of `item_bytes` bytes is allowed.
pub fn validate_scene_buffer(
    resource: &'static str,
    item_bytes: u64,
    count: usize,
    limits: &BufferLimits,
) -> (valid: Result<(), GpuBakeError>)
    requires
        item_bytes <= u32::MAX,
    ensures
        valid == match scene_buffer_error(resource, item_bytes, count, *limits) {
            Some(error) => Err::<(), GpuBakeError>(error),
            None => Ok(()),
        },
{
    if count > u32::MAX as usize {
        return Err(GpuBakeError::SceneCountTooLarge { resource, count });
    }
    let required_bytes: u64 = product(count as u32, item_bytes as u32);
    let limit_bytes: u64 = limits.storage();
    if required_bytes > limit_bytes {
        return Err(GpuBakeError::SceneBufferTooLarge { resource, required_bytes, limit_bytes });
    }
    Ok(())
}

/// Whether buffers for the triangles and the tree of a scene are allowed.
pub fn validate_scene_buffers(
    limits: &BufferLimits,
    triangle_count: usize,
    node_count: usize,
) -> (valid: Result<(), GpuBakeError>)
    ensures
        valid == match scene_buffer_error("triangle", GPU_TRIANGLE_BYTES, triangle_count, *limits) {
            Some(error) => Err::<(), GpuBakeError>(error),
            None => match scene_buffer_error("BVH node", GPU_BVH_NODE_BYTES, node_count, *limits) {
                Some(error) => Err(error),
                None => Ok(()),
            },
        },
{
    match validate_scene_buffer("triangle", GPU_TRIANGLE_BYTES, triangle_count, limits) {
        Ok(_) => validate_scene_buffer("BVH node", GPU_BVH_NODE_BYTES, node_count, limits),
        Err(error) => Err(error),
    }
}

/// Tiles that a device has room for together, from one to the batch size.
pub open spec fn batch_capacity(
    pixel_count: int,
    lanes: u32,
    limits: BufferLimits,
) -> int {
    let tile_bytes = pixel_count * lanes * OUTPUT_PIXEL_BYTES;
    let fitting = if tile_bytes < 1 {
        limits.max_buffer_size as int
    } else {
        limits.max_buffer_size as int / tile_bytes
    };
    if fitting < 1 {
        1
    } else if fitting < ATLAS_TILE_BATCH_SIZE {
        fitting
    } else {
        ATLAS_TILE_BATCH_SIZE as int
    }
}

/// How many tiles of an atlas are baked together.
pub fn atlas_batch_capacity(
    config: &ResolvedBakeConfig,
    lanes: u32,
    limits: &BufferLimits,
) -> (capacity: usize)
    requires
        config.width * config.height * lanes * OUTPUT_PIXEL_BYTES <= u64::MAX,
    ensures
        capacity == batch_capacity(config.width * config.height, lanes, *limits),
        1 <= capacity <= ATLAS_TILE_BATCH_SIZE,
{
    let pixel_count: u64 = product(config.width, config.height);
    assert(pixel_count * lanes <= u64::MAX) by (nonlinear_arith)
        requires
            pixel_count * lanes * OUTPUT_PIXEL_BYTES <= u64::MAX,
    ;
    assert(0 <= pixel_count * lanes) by (nonlinear_arith);
    let tile_bytes: u64 = pixel_count * lanes as u64 * OUTPUT_PIXEL_BYTES;
    let fitting: u64 = if tile_bytes < 1 {
        limits.max_buffer_size
    } else {
        limits.max_buffer_size / tile_bytes
    };
    if fitting < 1 {
        1
    } else if fitting < ATLAS_TILE_BATCH_SIZE as u64 {
        fitting as usize
    } else {
        ATLAS_TILE_BATCH_SIZE
    }
}

/// The tiles of a batch of more than one tile fit into one buffer.
pub proof fn lemma_batch_fits_the_buffer(pixel_count: int, lanes: u32, limits: BufferLimits)
    requires
        0 <= pixel_count,
        batch_capacity(pixel_count, lanes, limits) > 1,
    ensures
        batch_capacity(pixel_count, lanes, limits) * (pixel_count * lanes * OUTPUT_PIXEL_BYTES)
            <= limits.max_buffer_size,
{
    let bytes = pixel_count * lanes * OUTPUT_PIXEL_BYTES;
    let capacity = batch_capacity(pixel_count, lanes, limits);
    if bytes >= 1 {
        let limit = limits.max_buffer_size as int;
        lemma_fundamental_div_mod(limit, bytes);
        lemma_mod_bound(limit, bytes);
        assert(capacity * bytes <= limit) by (nonlinear_arith)
            requires
                capacity <= limit / bytes,
                limit == bytes * (limit / bytes) + limit % bytes,
                limit % bytes >= 0,
                bytes >= 1,
        ;
    } else {
        assert(bytes == 0) by (nonlinear_arith)
            requires
                bytes == pixel_count * lanes * OUTPUT_PIXEL_BYTES,
                bytes < 1,
                0 <= pixel_count,
        ;
        assert(capacity * bytes == 0) by (nonlinear_arith)
            requires
                bytes == 0,
        ;
    }
}

/// Rays of a row: one for each pixel and sample, times the copies of the tile in a square
/// of as many to each side as the tile repeats.
pub proof fn lemma_copies_multiply_traces(width: u32, samples: u32, radius: u32, shadows: bool)
    ensures
        traces_per_row(width, samples, 0, false) == width * samples,
        traces_per_row(width, samples, radius, shadows) == (2 * radius + 1) * (2 * radius + 1)
            * traces_per_row(width, samples, 0, shadows),
{
    let d = radius * 2 + 1;
    let f: int = if shadows {
        2
    } else {
        1
    };
    assert(width * samples * 1 * 1 * 1 == width * samples) by (nonlinear_arith);
    assert(width * samples * d * d * f == d * d * (width * samples * 1 * 1 * f))
        by (nonlinear_arith);
}

/// How many rows a dispatch takes: as many as make no more than 1,024,000,000 traces, but
/// at least one, no more than the image has, and rounded up to whole groups of eight
/// where the image has eight.
pub proof fn lemma_dispatches_take_whole_groups(height: int, traces: int)
    requires
        0 < height,
        0 < traces,
    ensures
        ({
            let rows = dispatch_rows(height, traces);
            &&& 1 <= rows <= height
            &&& rows < height && height >= 8 ==> rows % 8 == 0
            &&& rows < height ==> (rows + 1) * traces > 1_024_000_000
            &&& rows > 8 ==> (rows - 8) * traces < 1_024_000_000
            &&& height < 8 && rows > 1 ==> rows * traces <= 1_024_000_000
        }),
{
    lemma_dispatch_follows_budget(height, traces);
    let rows = dispatch_rows(height, traces);
    let budget = budget_rows(traces);
    let target: int = 1_024_000_000;
    lemma_fundamental_div_mod(target, traces);
    lemma_mod_bound(target, traces);
    let allowed = if budget < height {
        budget
    } else {
        height
    };
    lemma_ceil_div(allowed, 8);
    if rows < height {
        assert(rows >= budget);
        assert((rows + 1) * traces > target) by (nonlinear_arith)
            requires
                rows >= budget,
                budget >= target / traces,
                target == traces * (target / traces) + target % traces,
                target % traces < traces,
                traces > 0,
        ;
    }
    if height < 8 && rows > 1 {
        assert(rows <= budget);
        assert(budget == target / traces);
        assert(rows * traces <= target) by (nonlinear_arith)
            requires
                rows <= target / traces,
                target == traces * (target / traces) + target % traces,
                target % traces >= 0,
                traces > 0,
        ;
    }
}

/// How many lanes share samples: as few as take 64 samples each, from one to 128.
pub proof fn lemma_lanes_take_64_samples(count: u32)
    ensures
        ({
            let lanes = sample_lanes_spec(count);
            &&& 1 <= lanes <= 128
            &&& lanes < 128 ==> count <= lanes * 64
            &&& lanes > 1 ==> (lanes - 1) * 64 < count
        }),
        count >= 65_536 ==> samples_per_lane_spec(count) == 512,
        count < 65_536 ==> samples_per_lane_spec(count) == 64,
{
    lemma_ceil_div(count as int, 64);
}

/// How many lanes fit into a buffer: with 16 bytes to a pixel as many as 536,870,912 bytes
/// hold, or what the device allows where that is less, from one to 128; and no more are
/// used than the samples ask for.
pub proof fn lemma_lanes_fill_the_buffer(pixel_count: u64, samples: u32, limits: BufferLimits)
    requires
        pixel_count > 0,
    ensures
        ({
            let least = |a: int, b: int| if a < b {
                a
            } else {
                b
            };
            let storage = least(
                limits.max_buffer_size as int,
                limits.max_storage_buffer_binding_size as int,
            );
            let limit = least(storage, 536_870_912);
            let lanes = lanes_that_fit(pixel_count, limits);
            &&& limits.storage_spec() == storage
            &&& lane_bytes(pixel_count) == pixel_count * 16
            &&& 1 <= lanes <= 128
            &&& lanes > 1 ==> lanes * (pixel_count * 16) <= limit
            &&& lanes < 128 ==> (lanes + 1) * (pixel_count * 16) > limit
            &&& bake_lanes(pixel_count, samples, limits) == least(
                lanes,
                sample_lanes_spec(samples),
            )
        }),
{
    let limit = lane_buffer_limit(limits);
    let bytes = pixel_count * 16;
    let lanes = lanes_that_fit(pixel_count, limits);
    lemma_fundamental_div_mod(limit, bytes);
    lemma_mod_bound(limit, bytes);
    let fit = limit / bytes;
    if lanes > 1 {
        assert(lanes * bytes <= limit) by (nonlinear_arith)
            requires
                lanes <= fit,
                limit == bytes * fit + limit % bytes,
                limit % bytes >= 0,
                bytes > 0,
        ;
    }
    if lanes < 128 {
        assert((lanes + 1) * bytes > limit) by (nonlinear_arith)
            requires
                lanes >= fit,
                limit == bytes * fit + limit % bytes,
                limit % bytes < bytes,
                bytes > 0,
        ;
    }
}

/// How many tiles are baked together: as many as a buffer of the device holds with 16
/// bytes to a pixel and lane, from one to eight.
pub proof fn lemma_batches_fill_the_buffer(pixel_count: int, lanes: u32, limits: BufferLimits)
    requires
        pixel_count > 0,
        lanes > 0,
    ensures
        ({
            let tiles = batch_capacity(pixel_count, lanes, limits);
            &&& 1 <= tiles <= 8
            &&& tiles > 1 ==> tiles * (pixel_count * lanes * 16) <= limits.max_buffer_size
            &&& tiles < 8 ==> (tiles + 1) * (pixel_count * lanes * 16) > limits.max_buffer_size
        }),
{
    let limit = limits.max_buffer_size as int;
    let bytes = pixel_count * lanes * 16;
    let tiles = batch_capacity(pixel_count, lanes, limits);
    assert(bytes > 0) by (nonlinear_arith)
        requires
            bytes == pixel_count * lanes * 16,
            pixel_count > 0,
            lanes > 0,
    ;
    lemma_fundamental_div_mod(limit, bytes);
    lemma_mod_bound(limit, bytes);
    if tiles > 1 {
        lemma_batch_fits_the_buffer(pixel_count, lanes, limits);
    }
    if tiles < 8 {
        assert((tiles + 1) * bytes > limit) by (nonlinear_arith)
            requires
                tiles >= limit / bytes,
                limit == bytes * (limit / bytes) + limit % bytes,
                limit % bytes < bytes,
                bytes > 0,
        ;
    }
}

/// A buffer of the scene is refused where its items cannot be numbered, or where they take
/// more bytes than the device allows; the error says what the items are.
pub proof fn lemma_scene_buffers_are_refused_for_a_reason(
    resource: &'static str,
    item_bytes: u64,
    count: usize,
    limits: BufferLimits,
)
    requires
        item_bytes <= u32::MAX,
    ensures
        count > 0xffff_ffff ==> scene_buffer_error(resource, item_bytes, count, limits) == Some(
            GpuBakeError::SceneCountTooLarge { resource, count },
        ),
        count <= 0xffff_ffff ==> (scene_buffer_error(resource, item_bytes, count, limits) is None
            <==> count * item_bytes <= limits.max_buffer_size && count * item_bytes
            <= limits.max_storage_buffer_binding_size),
        count <= 0xffff_ffff && scene_buffer_error(resource, item_bytes, count, limits) is Some
            ==> {
            let error = scene_buffer_error(resource, item_bytes, count, limits).unwrap();
            &&& error matches GpuBakeError::SceneBufferTooLarge {
                resource: named,
                required_bytes,
                limit_bytes,
            } && named == resource && required_bytes == count * item_bytes && (limit_bytes
                == limits.max_buffer_size || limit_bytes
                == limits.max_storage_buffer_binding_size) && limit_bytes
                <= limits.max_buffer_size && limit_bytes
                <= limits.max_storage_buffer_binding_size
        },
        GPU_TRIANGLE_BYTES == 80,
        GPU_BVH_NODE_BYTES == 48,
{
    assert(count <= 0xffff_ffff ==> 0 <= count * item_bytes <= u64::MAX) by (nonlinear_arith)
        requires
            item_bytes <= u32::MAX,
    ;
}

} // verus!
