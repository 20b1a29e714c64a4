//! In which pieces a bake is carried out.
//!
//! The schedules here only say what comes next; whoever owns the device carries
//! a piece out and comes back for the next one.

use crate::config::{product, BakeMode, ResolvedBakeConfig};
use crate::dispatch::{
    ceil_div, checked_pixel_count, dispatch_rows, div_ceil, lemma_ceil_div, rows_per_dispatch_for,
    sample_lanes_for, sample_lanes_spec, traces_per_row, GpuBakeError, SAMPLE_PARALLEL_THRESHOLD,
};
use crate::stats::{halved_spec, doubled_spec, halved, doubled, MAX_NANOS};
use vstd::arithmetic::div_mod::{lemma_fundamental_div_mod, lemma_mod_bound};
use vstd::prelude::*;

verus! {

/// The numbers from `start` up to, but not including, `end`.
#[derive(Clone, Copy, Debug, PartialEq, Eq, Structural)]
pub struct Run {
    pub start: u32,
    pub end: u32,
}

/// Run `k` of the numbers below `total` in runs of `size`.
pub open spec fn run_spec(total: u32, size: u32, k: int) -> Run {
    Run {
        start: (k * size) as u32,
        end: if (k + 1) * size < total {
            ((k + 1) * size) as u32
        } else {
            total
        },
    }
}

/// The numbers below `total`, handed out in runs of `size`.
#[derive(Clone, Copy, Debug, PartialEq, Eq, Structural)]
pub struct Runs {
    pub total: u32,
    pub size: u32,
    pub next: u32,
    pub count: u32,
}

impl Runs {
    /// The first `count` runs are handed out, and `next` is where they end.
    pub open spec fn wf(self) -> bool {
        &&& self.size > 0
        &&& self.count <= ceil_div(self.total as int, self.size as int)
        &&& self.next == if self.count * self.size < self.total {
            self.count * self.size
        } else {
            self.total as int
        }
    }

    /// Starts to hand out runs.
    pub fn new(total: u32, size: u32) -> (runs: Runs)
        requires
            size > 0,
        ensures
            runs.wf(),
            runs == (Runs { total, size, next: 0, count: 0 }),
    {
        proof {
            lemma_ceil_div(total as int, size as int);
        }
        Runs { total, size, next: 0, count: 0 }
    }

    /// Hands out the next run, or `None` when all numbers are handed out.
    pub fn next_run(&mut self) -> (run: Option<Run>)
        requires
            old(self).wf(),
        ensures
            final(self).wf(),
            final(self).total == old(self).total,
            final(self).size == old(self).size,
            old(self).next >= old(self).total ==> run is None && *final(self) == *old(self),
            old(self).next < old(self).total ==> {
                &&& run == Some(run_spec(old(self).total, old(self).size, old(self).count as int))
                &&& run.unwrap().start == old(self).next
                &&& run.unwrap().end == final(self).next
                &&& run.unwrap().start < run.unwrap().end <= old(self).total
                &&& run.unwrap().end - run.unwrap().start <= old(self).size
                &&& final(self).count == old(self).count + 1
            },
    {
        if self.next >= self.total {
            return None;
        }
        proof {
            lemma_next_run(*self);
            let size = self.size as int;
            let count = self.count as int;
            assert((count + 1) * size == count * size + size) by (nonlinear_arith);
        }
        let start: u32 = self.next;
        let end: u32 = if self.total - start <= self.size {
            self.total
        } else {
            start + self.size
        };
        self.next = end;
        self.count = self.count + 1;
        Some(Run { start, end })
    }
}

/// The runs after the next one.
pub open spec fn after_run(runs: Runs) -> Runs {
    Runs {
        next: run_spec(runs.total, runs.size, runs.count as int).end,
        count: (runs.count + 1) as u32,
        ..runs
    }
}

/// Handing out a run leaves the rest in order.
pub(crate) proof fn lemma_next_run(runs: Runs)
    requires
        runs.wf(),
        runs.next < runs.total,
    ensures
        after_run(runs).wf(),
        run_spec(runs.total, runs.size, runs.count as int).start == runs.next,
        runs.next < after_run(runs).next <= runs.total,
        after_run(runs).next == if runs.total - runs.next < runs.size {
            runs.total as int
        } else {
            runs.next + runs.size
        },
        run_spec(runs.total, runs.size, runs.count as int).end == after_run(runs).next,
        after_run(runs).count == runs.count + 1,
{
    let size = runs.size as int;
    let count = runs.count as int;
    lemma_ceil_div(runs.total as int, size);
    let all = ceil_div(runs.total as int, size);
    assert(count < all) by (nonlinear_arith)
        requires
            count * size < runs.total,
            runs.total <= all * size,
            size > 0,
    ;
    assert((count + 1) * size == count * size + size) by (nonlinear_arith);
    assert(all <= runs.total) by (nonlinear_arith)
        requires
            all * size < runs.total + size,
            size >= 1,
            runs.total >= 1,
    ;
}

/// Whether a number lies in a run.
pub open spec fn in_run(run: Run, number: int) -> bool {
    run.start <= number < run.end
}

/// Every number below the total lies in exactly one of the runs.
pub proof fn lemma_runs_cover_once(total: u32, size: u32, number: int)
    requires
        size > 0,
        0 <= number < total,
    ensures
        0 <= number / size as int,
        number / size as int * size < total,
        in_run(run_spec(total, size, number / size as int), number),
        forall|k: int|
            0 <= k && k * size < total && in_run(#[trigger] run_spec(total, size, k), number) ==> k
                == number / size as int,
{
    let s = size as int;
    let q = number / s;
    lemma_fundamental_div_mod(number, s);
    lemma_mod_bound(number, s);
    assert(q * s <= number < (q + 1) * s && 0 <= q) by (nonlinear_arith)
        requires
            number == s * q + number % s,
            0 <= number % s < s,
            s > 0,
            number >= 0,
    ;
    assert forall|k: int|
        0 <= k && k * size < total && in_run(#[trigger] run_spec(total, size, k), number) implies k
        == q by {
        assert(0 <= k * s) by (nonlinear_arith)
            requires
                0 <= k,
                s > 0,
        ;
        assert(k == q) by (nonlinear_arith)
            requires
                q * s <= number < (q + 1) * s,
                k * s <= number < (k + 1) * s,
                s > 0,
        ;
    }
}

/// The samples of one wave of a sample-parallel bake, and the lanes that share
/// them.
#[derive(Clone, Copy, Debug, PartialEq, Eq, Structural)]
pub struct Wave {
    pub sample_offset: u32,
    pub sample_limit: u32,
    pub active_lanes: u32,
}

/// Lanes that the remaining samples keep busy, from one to all.
pub open spec fn active_lanes_spec(remaining: int, lanes: u32, samples_per_lane: u32) -> int {
    let needed = ceil_div(remaining, samples_per_lane as int);
    if needed < 1 {
        1
    } else if needed < lanes {
        needed
    } else {
        lanes as int
    }
}

/// The waves of a sample-parallel bake.
#[derive(Clone, Copy, Debug, PartialEq, Eq, Structural)]
pub struct WaveSchedule {
    pub runs: Runs,
    pub lanes: u32,
    pub samples_per_lane: u32,
}

impl WaveSchedule {
    /// A wave has room for the samples of all lanes.
    pub open spec fn wf(self) -> bool {
        &&& self.runs.wf()
        &&& self.lanes > 0
        &&& self.samples_per_lane > 0
        &&& self.runs.size == self.lanes * self.samples_per_lane
    }

    /// The waves for `samples` samples, none of them begun.
    pub open spec fn of(samples: u32, lanes: u32, samples_per_lane: u32) -> WaveSchedule {
        WaveSchedule {
            runs: Runs {
                total: samples,
                size: (lanes * samples_per_lane) as u32,
                next: 0,
                count: 0,
            },
            lanes,
            samples_per_lane,
        }
    }

    /// Plans waves for `samples` samples.
    pub fn new(samples: u32, lanes: u32, samples_per_lane: u32) -> (schedule: WaveSchedule)
        requires
            lanes > 0,
            samples_per_lane > 0,
            lanes * samples_per_lane <= u32::MAX,
        ensures
            schedule.wf(),
            schedule == WaveSchedule::of(samples, lanes, samples_per_lane),
    {
        assert(lanes * samples_per_lane > 0) by (nonlinear_arith)
            requires
                lanes > 0,
                samples_per_lane > 0,
        ;
        let size: u32 = lanes * samples_per_lane;
        WaveSchedule { runs: Runs::new(samples, size), lanes, samples_per_lane }
    }

    /// Whether samples are left.
    pub open spec fn has_more(self) -> bool {
        self.runs.next < self.runs.total
    }

    /// The wave that comes next.
    pub open spec fn upcoming(self) -> Wave {
        let run = run_spec(self.runs.total, self.runs.size, self.runs.count as int);
        Wave {
            sample_offset: run.start,
            sample_limit: run.end,
            active_lanes: active_lanes_spec(
                self.runs.total - self.runs.next,
                self.lanes,
                self.samples_per_lane,
            ) as u32,
        }
    }

    /// The schedule after the next wave.
    pub open spec fn advanced(self) -> WaveSchedule {
        WaveSchedule {
            runs: Runs {
                next: self.upcoming().sample_limit,
                count: (self.runs.count + 1) as u32,
                ..self.runs
            },
            ..self
        }
    }

    /// The next wave, or `None` when all samples are taken.
    pub fn next_wave(&mut self) -> (wave: Option<Wave>)
        requires
            old(self).wf(),
        ensures
            final(self).wf(),
            !old(self).has_more() ==> wave is None && *final(self) == *old(self),
            old(self).has_more() ==> {
                &&& wave == Some(old(self).upcoming())
                &&& *final(self) == old(self).advanced()
                &&& wave.unwrap().sample_offset == old(self).runs.next
                &&& wave.unwrap().sample_limit == final(self).runs.next
                &&& wave.unwrap().sample_offset < wave.unwrap().sample_limit
                    <= old(self).runs.total
                &&& 1 <= wave.unwrap().active_lanes <= old(self).lanes
                &&& final(self).runs.count == old(self).runs.count + 1
            },
    {
        let next: u32 = self.runs.next;
        let total: u32 = self.runs.total;
        match self.runs.next_run() {
            Some(run) => {
                let remaining: u32 = total - next;
                let needed: u32 = div_ceil(remaining, self.samples_per_lane);
                let active_lanes: u32 = if needed < 1 {
                    1
                } else if needed < self.lanes {
                    needed
                } else {
                    self.lanes
                };
                Some(
                    Wave { sample_offset: run.start, sample_limit: run.end, active_lanes },
                )
            },
            None => None,
        }
    }
}

/// The active lanes of a wave have room for its samples, and none of them is
/// left without one.
pub proof fn lemma_lanes_hold_the_wave(samples: u32, lanes: u32, samples_per_lane: u32, k: int)
    requires
        lanes > 0,
        samples_per_lane > 0,
        lanes * samples_per_lane <= u32::MAX,
        0 <= k,
        k * (lanes * samples_per_lane) < samples,
    ensures
        ({
            let run = run_spec(samples, (lanes * samples_per_lane) as u32, k);
            let active = active_lanes_spec(samples - run.start, lanes, samples_per_lane);
            &&& (active - 1) * samples_per_lane < run.end - run.start
            &&& run.end - run.start <= active * samples_per_lane
        }),
{
    let size = lanes * samples_per_lane;
    assert(size > 0 && 0 <= k * size) by (nonlinear_arith)
        requires
            size == lanes * samples_per_lane,
            lanes > 0,
            samples_per_lane > 0,
            0 <= k,
    ;
    assert((k + 1) * size == k * size + size) by (nonlinear_arith);
    let run = run_spec(samples, size as u32, k);
    let remaining = samples - run.start;
    let needed = ceil_div(remaining, samples_per_lane as int);
    lemma_ceil_div(remaining, samples_per_lane as int);
    let active = active_lanes_spec(remaining, lanes, samples_per_lane);
    assert((needed - 1) * samples_per_lane == needed * samples_per_lane - samples_per_lane)
        by (nonlinear_arith);
    if needed < lanes {
        assert(needed * samples_per_lane <= (lanes - 1) * samples_per_lane) by (nonlinear_arith)
            requires
                needed <= lanes - 1,
        ;
        assert((lanes - 1) * samples_per_lane == size - samples_per_lane) by (nonlinear_arith)
            requires
                size == lanes * samples_per_lane,
        ;
    } else {
        assert((lanes - 1) * samples_per_lane == size - samples_per_lane) by (nonlinear_arith)
            requires
                size == lanes * samples_per_lane,
        ;
        assert((lanes - 1) * samples_per_lane <= (needed - 1) * samples_per_lane)
            by (nonlinear_arith)
            requires
                lanes <= needed,
        ;
    }
}

/// Rows of an image that one dispatch covers.
#[derive(Clone, Copy, Debug, PartialEq, Eq, Structural)]
pub struct RowChunk {
    pub y_offset: u32,
    pub active_height: u32,
    pub completed_rows: u32,
}

/// The next rows to dispatch, or `None` when the image is done.
pub fn next_rows(runs: &mut Runs) -> (chunk: Option<RowChunk>)
    requires
        old(runs).wf(),
    ensures
        final(runs).wf(),
        final(runs).total == old(runs).total,
        final(runs).size == old(runs).size,
        old(runs).next >= old(runs).total ==> chunk is None && *final(runs) == *old(runs),
        old(runs).next < old(runs).total ==> {
            let run = run_spec(old(runs).total, old(runs).size, old(runs).count as int);
            &&& chunk == Some(
                RowChunk {
                    y_offset: run.start,
                    active_height: (run.end - run.start) as u32,
                    completed_rows: run.end,
                },
            )
            &&& run.start == old(runs).next
            &&& run.start < run.end == final(runs).next
            &&& final(runs).count == old(runs).count + 1
        },
{
    match runs.next_run() {
        Some(run) => Some(
            RowChunk {
                y_offset: run.start,
                active_height: run.end - run.start,
                completed_rows: run.end,
            },
        ),
        None => None,
    }
}

/// Workgroups that cover a dispatch: columns and rows.
pub fn workgroups(width: u32, height: u32) -> (groups: (u32, u32))
    ensures
        groups.0 == ceil_div(width as int, crate::dispatch::WORKGROUP_WIDTH as int),
        groups.1 == ceil_div(height as int, crate::dispatch::WORKGROUP_HEIGHT as int),
{
    (
        div_ceil(width, crate::dispatch::WORKGROUP_WIDTH),
        div_ceil(height, crate::dispatch::WORKGROUP_HEIGHT),
    )
}

/// One batch of samples of a progressive bake.
#[derive(Clone, Copy, Debug, PartialEq, Eq, Structural)]
pub struct SampleBatch {
    pub sample_offset: u32,
    pub sample_limit: u32,
    pub active_lanes: u32,
    pub samples_per_lane: u32,
    pub rows_per_dispatch: u32,
}

/// The batches of a progressive bake.  They grow while they take less than half
/// the time between two updates, and shrink when they take more than twice it.
#[derive(Clone, Copy, Debug, PartialEq, Eq, Structural)]
pub struct ProgressiveSchedule {
    pub samples: u32,
    pub max_lanes: u32,
    pub target_nanos: u128,
    pub completed_samples: u32,
    pub batch_samples: u32,
}

/// Nanoseconds of a millisecond, the least time between two updates.
pub const MIN_INTERVAL_NANOS: u128 = 1_000_000;

impl ProgressiveSchedule {
    /// Batches have samples and lanes, and are not complete too early.
    pub open spec fn wf(self) -> bool {
        &&& self.max_lanes > 0
        &&& self.batch_samples > 0
        &&& self.completed_samples <= self.samples
        &&& MIN_INTERVAL_NANOS <= self.target_nanos <= MAX_NANOS
    }

    /// Samples that remain.
    pub open spec fn remaining(self) -> int {
        self.samples - self.completed_samples
    }

    /// Samples of the next batch.
    pub open spec fn active_batch(self) -> int {
        if self.batch_samples < self.remaining() {
            self.batch_samples as int
        } else {
            self.remaining()
        }
    }

    /// The batch that comes next.
    pub open spec fn batch_spec(self, config: ResolvedBakeConfig) -> SampleBatch {
        let count = self.active_batch();
        let wanted = sample_lanes_spec(count as u32);
        let lanes = if wanted < self.max_lanes {
            wanted
        } else {
            self.max_lanes as int
        };
        SampleBatch {
            sample_offset: self.completed_samples,
            sample_limit: (self.completed_samples + count) as u32,
            active_lanes: lanes as u32,
            samples_per_lane: ceil_div(count, lanes) as u32,
            rows_per_dispatch: dispatch_rows(
                config.height as int,
                traces_per_row(
                    config.width,
                    count as u32,
                    config.max_repeat_radius,
                    config.enable_shadows,
                ),
            ) as u32,
        }
    }

    /// The size of the batch after one of `count` samples that took
    /// `elapsed_nanos`.
    pub open spec fn adapted(self, elapsed_nanos: u128) -> u32 {
        if elapsed_nanos < halved_spec(self.target_nanos) && self.active_batch()
            < self.remaining() {
            if self.batch_samples * 2 <= u32::MAX {
                (self.batch_samples * 2) as u32
            } else {
                u32::MAX
            }
        } else if elapsed_nanos > doubled_spec(self.target_nanos) && self.batch_samples > 1 {
            self.batch_samples / 2
        } else {
            self.batch_samples
        }
    }

    /// The schedule after the next batch, if that takes `elapsed_nanos`.
    pub open spec fn after_batch(self, elapsed_nanos: u128) -> ProgressiveSchedule {
        ProgressiveSchedule {
            completed_samples: (self.completed_samples + self.active_batch()) as u32,
            batch_samples: self.adapted(elapsed_nanos),
            ..self
        }
    }

    /// The schedule before the first batch.
    pub open spec fn of(samples: u32, max_lanes: u32, update_interval_nanos: u128) -> ProgressiveSchedule {
        ProgressiveSchedule {
            samples,
            max_lanes,
            target_nanos: if update_interval_nanos < MIN_INTERVAL_NANOS {
                MIN_INTERVAL_NANOS
            } else {
                update_interval_nanos
            },
            completed_samples: 0,
            batch_samples: 1,
        }
    }

    /// Plans batches for `samples` samples with an update every
    /// `update_interval_nanos`.
    pub fn new(samples: u32, max_lanes: u32, update_interval_nanos: u128) -> (schedule:
        ProgressiveSchedule)
        requires
            max_lanes > 0,
            update_interval_nanos <= MAX_NANOS,
        ensures
            schedule.wf(),
            schedule == ProgressiveSchedule::of(samples, max_lanes, update_interval_nanos),
    {
        let target_nanos: u128 = if update_interval_nanos < MIN_INTERVAL_NANOS {
            MIN_INTERVAL_NANOS
        } else {
            update_interval_nanos
        };
        ProgressiveSchedule {
            samples,
            max_lanes,
            target_nanos,
            completed_samples: 0,
            batch_samples: 1,
        }
    }

    /// The next batch, or `None` when all samples are taken.
    pub fn begin_batch(&self, config: &ResolvedBakeConfig) -> (batch: Option<SampleBatch>)
        requires
            self.wf(),
            self.samples == config.samples,
            traces_per_row(
                config.width,
                config.samples,
                config.max_repeat_radius,
                config.enable_shadows,
            ) <= u64::MAX,
        ensures
            self.completed_samples >= self.samples ==> batch is None,
            self.completed_samples < self.samples ==> {
                &&& batch == Some(self.batch_spec(*config))
                &&& batch.unwrap().sample_offset == self.completed_samples
                &&& batch.unwrap().sample_limit == self.completed_samples + self.active_batch()
                &&& batch.unwrap().sample_offset < batch.unwrap().sample_limit <= self.samples
                &&& 1 <= batch.unwrap().active_lanes <= self.max_lanes
                &&& batch.unwrap().sample_limit - batch.unwrap().sample_offset
                    <= batch.unwrap().active_lanes * batch.unwrap().samples_per_lane
            },
    {
        if self.completed_samples >= self.samples {
            return None;
        }
        let remaining: u32 = self.samples - self.completed_samples;
        let count: u32 = if self.batch_samples < remaining {
            self.batch_samples
        } else {
            remaining
        };
        proof {
            lemma_fewer_samples_fewer_traces(
                config.width,
                count,
                config.samples,
                config.max_repeat_radius,
                config.enable_shadows,
            );
        }
        let rows_per_dispatch: u32 = rows_per_dispatch_for(
            config.width,
            config.height,
            count,
            config.max_repeat_radius,
            config.enable_shadows,
        );
        let wanted: u32 = sample_lanes_for(count);
        let active_lanes: u32 = if wanted < self.max_lanes {
            wanted
        } else {
            self.max_lanes
        };
        let samples_per_lane: u32 = div_ceil(count, active_lanes);
        assert(active_lanes * samples_per_lane == samples_per_lane * active_lanes)
            by (nonlinear_arith);
        Some(
            SampleBatch {
                sample_offset: self.completed_samples,
                sample_limit: self.completed_samples + count,
                active_lanes,
                samples_per_lane,
                rows_per_dispatch,
            },
        )
    }

    /// Takes note of a batch that took `elapsed_nanos`.
    pub fn finish_batch(&mut self, elapsed_nanos: u128)
        requires
            old(self).wf(),
            old(self).completed_samples < old(self).samples,
        ensures
            final(self).wf(),
            *final(self) == old(self).after_batch(elapsed_nanos),
            final(self).remaining() < old(self).remaining(),
    {
        let remaining: u32 = self.samples - self.completed_samples;
        let count: u32 = if self.batch_samples < remaining {
            self.batch_samples
        } else {
            remaining
        };
        self.completed_samples = self.completed_samples + count;
        if elapsed_nanos < halved(self.target_nanos) && count < remaining {
            self.batch_samples = if self.batch_samples <= u32::MAX / 2 {
                self.batch_samples * 2
            } else {
                u32::MAX
            };
        } else if elapsed_nanos > doubled(self.target_nanos) && self.batch_samples > 1 {
            self.batch_samples = self.batch_samples / 2;
        }
    }
}

/// Each batch begins where the one before it ends, however long that took, and
/// batches do not run out before the samples do.
pub proof fn lemma_batches_adjoin(
    schedule: ProgressiveSchedule,
    config: ResolvedBakeConfig,
    elapsed_nanos: u128,
)
    requires
        schedule.wf(),
        schedule.completed_samples < schedule.samples,
    ensures
        ({
            let next = schedule.after_batch(elapsed_nanos);
            &&& next.wf()
            &&& next.batch_spec(config).sample_offset == schedule.batch_spec(config).sample_limit
            &&& next.completed_samples < next.samples ==> next.batch_spec(config).sample_offset
                < next.batch_spec(config).sample_limit <= next.samples
            &&& next.completed_samples == next.samples <==> schedule.batch_spec(
                config,
            ).sample_limit == schedule.samples
        }),
{
}

/// A batch that fits into two bakes takes the same samples in both, in the same
/// lanes and rows: a preview has taken the samples that a bake with fewer
/// samples in all takes first.
pub proof fn lemma_batches_do_not_depend_on_the_target(
    first: ProgressiveSchedule,
    second: ProgressiveSchedule,
    config: ResolvedBakeConfig,
    other: ResolvedBakeConfig,
)
    requires
        first.wf(),
        second == (ProgressiveSchedule { samples: second.samples, ..first }),
        other == (ResolvedBakeConfig { samples: other.samples, ..config }),
        first.batch_samples <= first.remaining(),
        second.batch_samples <= second.remaining(),
    ensures
        first.batch_spec(config) == second.batch_spec(other),
{
}

/// Fewer samples take fewer traces.
proof fn lemma_fewer_samples_fewer_traces(
    width: u32,
    fewer: u32,
    more: u32,
    max_repeat_radius: u32,
    enable_shadows: bool,
)
    requires
        fewer <= more,
    ensures
        traces_per_row(width, fewer, max_repeat_radius, enable_shadows) <= traces_per_row(
            width,
            more,
            max_repeat_radius,
            enable_shadows,
        ),
{
    let diameter = max_repeat_radius * 2 + 1;
    let factor = if enable_shadows {
        2int
    } else {
        1
    };
    assert(width * fewer <= width * more) by (nonlinear_arith)
        requires
            fewer <= more,
    ;
    assert(width * fewer * diameter <= width * more * diameter) by (nonlinear_arith)
        requires
            width * fewer <= width * more,
            diameter >= 1,
    ;
    assert(width * fewer * diameter * diameter <= width * more * diameter * diameter)
        by (nonlinear_arith)
        requires
            width * fewer * diameter <= width * more * diameter,
            diameter >= 1,
    ;
    assert(width * fewer * diameter * diameter * factor <= width * more * diameter * diameter
        * factor) by (nonlinear_arith)
        requires
            width * fewer * diameter * diameter <= width * more * diameter * diameter,
            factor >= 1,
    ;
}

/// How a bake of one image is carried out.
#[derive(Clone, Copy, Debug, PartialEq, Eq, Structural)]
pub enum BakePath {
    Rows,
    SampleParallel,
}

/// How a bake is carried out: with many samples sample-parallel, else row by
/// row.  Refused where the image has more pixels than a shader can index.
pub fn bake_path(config: &ResolvedBakeConfig) -> (path: Result<BakePath, GpuBakeError>)
    ensures
        path == if config.width * config.height > u32::MAX {
            Err::<BakePath, GpuBakeError>(
                GpuBakeError::ImageTooLarge { width: config.width, height: config.height },
            )
        } else if config.samples >= SAMPLE_PARALLEL_THRESHOLD {
            Ok(BakePath::SampleParallel)
        } else {
            Ok(BakePath::Rows)
        },
        path is Err <==> config.width * config.height > 0xffff_ffff,
        path == Ok::<BakePath, GpuBakeError>(BakePath::SampleParallel) <==> config.width
            * config.height <= 0xffff_ffff && config.samples >= 2048,
{
    match checked_pixel_count(config.width, config.height) {
        Ok(_) => if config.samples >= SAMPLE_PARALLEL_THRESHOLD {
            Ok(BakePath::SampleParallel)
        } else {
            Ok(BakePath::Rows)
        },
        Err(error) => Err(error),
    }
}

/// The sizes of an atlas of several tiles.
#[derive(Clone, Copy, Debug, PartialEq, Eq, Structural)]
pub struct AtlasGrid {
    pub atlas_width: u32,
    pub atlas_height: u32,
    pub tile_width: u32,
    pub tile_height: u32,
    pub light_width: u32,
    pub light_count: u32,
    pub pixel_count: usize,
}

/// What an atlas consists of: one bake, or a grid of tiles.
#[derive(Clone, Copy, Debug, PartialEq, Eq, Structural)]
pub enum AtlasPath {
    Whole(BakePath),
    Tiled(AtlasGrid),
}

impl AtlasGrid {
    /// The grid of tiles that settings ask for.
    pub open spec fn of(config: ResolvedBakeConfig) -> AtlasGrid {
        AtlasGrid {
            atlas_width: config.atlas_columns() as u32,
            atlas_height: config.atlas_rows() as u32,
            tile_width: config.tile_columns(),
            tile_height: config.height,
            light_width: config.light_columns(),
            light_count: config.lights() as u32,
            pixel_count: (config.atlas_columns() * config.atlas_rows()) as usize,
        }
    }

    /// The tiles fill the atlas.
    pub open spec fn wf(self) -> bool {
        &&& self.light_width > 0
        &&& self.atlas_width == self.tile_width * self.light_width
        &&& self.atlas_height * self.light_width == self.tile_height * self.light_count
        &&& self.light_count % self.light_width == 0
        &&& self.pixel_count == self.atlas_width * self.atlas_height
    }
}

/// Whether an atlas is one bake of the settings as they are.  Only single mode
/// takes the light of the settings; the other modes light each tile from the grid
/// of lights, though that may have a single place.
pub open spec fn is_whole(config: ResolvedBakeConfig) -> bool {
    config.mode == BakeMode::Single
}

/// Decides what an atlas consists of: one bake in single mode, else a tile for
/// each light of the grid.
pub fn atlas_path(config: &ResolvedBakeConfig) -> (path: Result<AtlasPath, GpuBakeError>)
    requires
        config.sizes_fit(),
        config.light_columns() > 0,
    ensures
        path == if config.tile_columns() * config.height > u32::MAX {
            Err::<AtlasPath, GpuBakeError>(
                GpuBakeError::ImageTooLarge { width: config.tile_columns(), height: config.height },
            )
        } else if is_whole(*config) {
            Ok(
                AtlasPath::Whole(
                    if config.samples >= SAMPLE_PARALLEL_THRESHOLD {
                        BakePath::SampleParallel
                    } else {
                        BakePath::Rows
                    },
                ),
            )
        } else if config.atlas_columns() * config.atlas_rows() > usize::MAX {
            Err(
                GpuBakeError::ImageTooLarge {
                    width: config.atlas_columns() as u32,
                    height: config.atlas_rows() as u32,
                },
            )
        } else {
            Ok(AtlasPath::Tiled(AtlasGrid::of(*config)))
        },
        path matches Ok(AtlasPath::Tiled(grid)) ==> grid.wf(),
        path matches Ok(AtlasPath::Whole(whole)) ==> config.mode == BakeMode::Single && (whole
            == BakePath::SampleParallel <==> config.samples >= 2048),
        path matches Ok(AtlasPath::Tiled(grid)) ==> config.mode != BakeMode::Single
            && grid.tile_height == config.height && grid.light_width == config.light_width,
{
    let tile_width: u32 = config.camera_tile_width();
    let tile_height: u32 = config.camera_tile_height();
    match checked_pixel_count(tile_width, tile_height) {
        Ok(_) => {},
        Err(error) => return Err(error),
    }
    if config.mode == BakeMode::Single {
        return match bake_path(config) {
            Ok(path) => Ok(AtlasPath::Whole(path)),
            Err(error) => Err(error),
        };
    }
    let light_count: u32 = config.light_count();
    let atlas_width: u32 = config.atlas_width();
    let atlas_height: u32 = config.atlas_height();
    let pixel_count: u64 = product(atlas_width, atlas_height);
    if pixel_count > usize::MAX as u64 {
        return Err(GpuBakeError::ImageTooLarge { width: atlas_width, height: atlas_height });
    }
    proof {
        let columns = config.light_columns();
        let rows = config.light_rows();
        assert(config.height * rows * columns == config.height * (columns * rows))
            by (nonlinear_arith);
        assert((columns * rows) % columns as int == 0) by {
            vstd::arithmetic::div_mod::lemma_mod_multiples_basic(rows as int, columns as int);
            assert(rows * columns == columns * rows) by (nonlinear_arith);
        }
    }
    Ok(
        AtlasPath::Tiled(
            AtlasGrid {
                atlas_width,
                atlas_height,
                tile_width,
                tile_height,
                light_width: config.effective_light_width(),
                light_count,
                pixel_count: pixel_count as usize,
            },
        ),
    )
}

/// The column and the row of a tile in the grid of lights.
pub fn tile_position(tile_index: u32, light_width: u32) -> (position: (u32, u32))
    requires
        light_width > 0,
    ensures
        position.0 == tile_index % light_width,
        position.1 == tile_index / light_width,
{
    (tile_index % light_width, tile_index / light_width)
}

/// Each place in the grid of lights is that of exactly one tile.
pub proof fn lemma_tile_positions_are_distinct(x: int, y: int, tile_index: int, light_width: int)
    requires
        0 <= x < light_width,
        0 <= y,
        0 <= tile_index,
    ensures
        tile_index % light_width == x && tile_index / light_width == y <==> tile_index == y
            * light_width + x,
{
    lemma_fundamental_div_mod(tile_index, light_width);
    if tile_index == y * light_width + x {
        vstd::arithmetic::div_mod::lemma_fundamental_div_mod_converse(
            tile_index,
            light_width,
            y,
            x,
        );
    } else if tile_index % light_width == x && tile_index / light_width == y {
        assert(light_width * y == y * light_width) by (nonlinear_arith);
    }
}

/// What a wave takes: it goes on where the one before ended, and takes for each lane the
/// samples of a lane, or what is left.
pub proof fn lemma_waves_take_the_samples_of_all_lanes(schedule: WaveSchedule)
    requires
        schedule.wf(),
        schedule.has_more(),
    ensures
        ({
            let wave = schedule.upcoming();
            let room = schedule.lanes * schedule.samples_per_lane;
            let left = schedule.runs.total - schedule.runs.next;
            &&& wave.sample_offset == schedule.runs.next
            &&& wave.sample_limit == schedule.runs.next + if left < room {
                left
            } else {
                room
            }
            &&& 1 <= wave.active_lanes <= schedule.lanes
            &&& wave.sample_limit - wave.sample_offset <= wave.active_lanes
                * schedule.samples_per_lane
            &&& (wave.active_lanes - 1) * schedule.samples_per_lane < wave.sample_limit
                - wave.sample_offset
            &&& schedule.advanced().runs.next == wave.sample_limit
            &&& schedule.advanced().runs.total == schedule.runs.total
            &&& schedule.advanced().runs.count == schedule.runs.count + 1
            &&& schedule.advanced().lanes == schedule.lanes
            &&& schedule.advanced().samples_per_lane == schedule.samples_per_lane
        }),
{
    lemma_next_run(schedule.runs);
    let left = schedule.runs.total - schedule.runs.next;
    let spl = schedule.samples_per_lane as int;
    let lanes = schedule.lanes as int;
    let room = lanes * spl;
    let active = active_lanes_spec(left, schedule.lanes, schedule.samples_per_lane);
    let needed = ceil_div(left, spl);
    let taken = if left < room {
        left
    } else {
        room
    };
    lemma_ceil_div(left, spl);
    assert(1 <= active <= lanes);
    assert(taken <= active * spl && (active - 1) * spl < taken) by (nonlinear_arith)
        requires
            left <= needed * spl < left + spl,
            room == lanes * spl,
            needed >= 1,
            lanes >= 1,
            spl > 0,
            left > 0,
            active == if needed < lanes { needed } else { lanes },
            taken == if left < room { left } else { room },
    ;
}

/// What a batch of a progressive bake takes: it goes on where the one before ended, and
/// takes as many samples as the batches have come to, or what is left; its lanes share
/// them evenly.
pub proof fn lemma_batches_take_their_samples(
    schedule: ProgressiveSchedule,
    config: ResolvedBakeConfig,
)
    requires
        schedule.wf(),
        schedule.completed_samples < schedule.samples,
    ensures
        ({
            let batch = schedule.batch_spec(config);
            let left = schedule.samples - schedule.completed_samples;
            let count = if schedule.batch_samples < left {
                schedule.batch_samples as int
            } else {
                left
            };
            let wanted = sample_lanes_spec(count as u32);
            &&& batch.sample_offset == schedule.completed_samples
            &&& batch.sample_limit == schedule.completed_samples + count
            &&& batch.active_lanes == if wanted < schedule.max_lanes {
                wanted
            } else {
                schedule.max_lanes as int
            }
            &&& count <= batch.active_lanes * batch.samples_per_lane < count
                + batch.active_lanes
            &&& batch.rows_per_dispatch == dispatch_rows(
                config.height as int,
                traces_per_row(
                    config.width,
                    count as u32,
                    config.max_repeat_radius,
                    config.enable_shadows,
                ),
            ) as u32
        }),
{
    let count = schedule.active_batch();
    let wanted = sample_lanes_spec(count as u32);
    let lanes = if wanted < schedule.max_lanes {
        wanted
    } else {
        schedule.max_lanes as int
    };
    assert(1 <= lanes <= 128);
    lemma_ceil_div(count, lanes);
    let each = ceil_div(count, lanes);
    assert(each <= count) by (nonlinear_arith)
        requires
            each * lanes < count + lanes,
            1 <= lanes,
            1 <= count,
    ;
    assert(each * lanes == lanes * each) by (nonlinear_arith);
}

/// How batches grow and shrink: the first has one sample; one that took less than half of
/// the time between updates, with samples left, is followed by one of twice the samples; one
/// that took more than twice the time by one of half of them; any other by one of the same.
pub proof fn lemma_batches_follow_the_clock(
    schedule: ProgressiveSchedule,
    elapsed_nanos: u128,
    samples: u32,
    max_lanes: u32,
    interval_nanos: u128,
)
    requires
        schedule.wf(),
        schedule.completed_samples < schedule.samples,
        schedule.target_nanos <= 9_223_372_036_854_775_807_999_999_999,
    ensures
        ({
            let next = schedule.after_batch(elapsed_nanos);
            let left = schedule.samples - schedule.completed_samples;
            let fast = elapsed_nanos < schedule.target_nanos / 2 && schedule.batch_samples < left;
            let slow = elapsed_nanos > 2 * schedule.target_nanos;
            &&& fast && schedule.batch_samples < 0x8000_0000 ==> next.batch_samples == 2
                * schedule.batch_samples
            &&& fast && schedule.batch_samples >= 0x8000_0000 ==> next.batch_samples
                == 0xffff_ffff
            &&& slow && schedule.batch_samples > 1 ==> next.batch_samples
                == schedule.batch_samples / 2
            &&& slow && schedule.batch_samples == 1 ==> next.batch_samples == 1
            &&& !fast && !slow ==> next.batch_samples == schedule.batch_samples
            &&& next.completed_samples == if schedule.batch_samples < left {
                schedule.completed_samples + schedule.batch_samples
            } else {
                schedule.samples as int
            }
            &&& next.samples == schedule.samples
            &&& next.max_lanes == schedule.max_lanes
            &&& next.target_nanos == schedule.target_nanos
        }),
        ({
            let first = ProgressiveSchedule::of(samples, max_lanes, interval_nanos);
            &&& first.batch_samples == 1
            &&& first.completed_samples == 0
            &&& first.samples == samples
            &&& first.max_lanes == max_lanes
            &&& interval_nanos >= 1_000_000 ==> first.target_nanos == interval_nanos
            &&& interval_nanos < 1_000_000 ==> first.target_nanos == 1_000_000
        }),
{
}

/// The sizes of an atlas: a tile for each light of the grid, side by side in a row for
/// each row of lights.  A tile is as wide as the image, or one pixel where it does not
/// depend on the direction around the normal.
pub proof fn lemma_grids_have_a_tile_for_each_light(config: ResolvedBakeConfig)
    requires
        config.sizes_fit(),
        config.atlas_columns() * config.atlas_rows() <= usize::MAX,
    ensures
        ({
            let grid = AtlasGrid::of(config);
            &&& grid.tile_height == config.height
            &&& config.mode == BakeMode::Isotropic ==> grid.tile_width == 1
            &&& config.mode != BakeMode::Isotropic ==> grid.tile_width == config.width
            &&& config.mode != BakeMode::Single ==> {
                &&& grid.light_width == config.light_width
                &&& grid.light_count == config.light_width * config.light_height
                &&& grid.atlas_width == grid.tile_width * config.light_width
                &&& grid.atlas_height == config.height * config.light_height
            }
            &&& config.mode == BakeMode::Single ==> {
                &&& grid.light_width == 1
                &&& grid.light_count == 1
                &&& grid.atlas_width == config.width
                &&& grid.atlas_height == config.height
            }
            &&& grid.pixel_count == grid.atlas_width * grid.atlas_height
        }),
{
    assert(0 <= config.atlas_columns() && 0 <= config.atlas_rows() && 0 <= config.lights())
        by (nonlinear_arith);
    assert(0 <= config.atlas_columns() * config.atlas_rows()) by (nonlinear_arith)
        requires
            0 <= config.atlas_columns(),
            0 <= config.atlas_rows(),
    ;
    let grid = AtlasGrid::of(config);
    let (tile, lights, rows) = (config.tile_columns(), config.light_columns(), config.light_rows());
    assert(grid.atlas_width == tile * lights);
    assert(grid.atlas_height == config.height * rows);
    assert(grid.light_count == lights * rows);
    assert(grid.pixel_count == grid.atlas_width * grid.atlas_height);
    if config.mode == BakeMode::Single {
        assert(tile * 1 == tile && config.height * 1 == config.height) by (nonlinear_arith);
    }
}

} // verus!
