//! How the sums of bakes in batches and in waves compare.
//!
//! The device adds up the light of the samples of a lane, and the lanes are added
//! up here.  Both round, so bakes that group their samples in other ways can
//! differ in the last digits.  Where nothing is rounded they cannot.

use crate::bake::{
    lemma_bake_stays_in_order, lemma_fewer_readings_fit, ProgressiveState, Stage, WaveState,
};
use crate::config::ResolvedBakeConfig;
use crate::dispatch::lemma_ceil_div;
use crate::image::{lane_sum, rgb_spec};
use crate::math::{Vec3, Vec4};
use crate::preview::black;
use crate::progress::{
    lemma_after, lemma_batches_follow_each_other, lemma_prefix_fits, lemma_round, Round,
};
use crate::scalar::{lemma_rank_orders_values, Scalar};
use crate::schedule::{after_run, lemma_lanes_hold_the_wave, lemma_next_run};
use vstd::prelude::*;

verus! {

/// The light of the first `n` samples together.
pub open spec fn light_of(light: spec_fn(int) -> int, n: int) -> int
    decreases n,
{
    if n <= 0 {
        0
    } else {
        light_of(light, n - 1) + light(n - 1)
    }
}

/// A pass over the samples from `offset` to `limit`, `per_lane` of them in each of
/// its lanes.
pub struct Sampling {
    pub offset: int,
    pub limit: int,
    pub per_lane: int,
    pub lanes: int,
}

impl Sampling {
    /// Where lane `lane` begins.
    pub open spec fn bound(self, lane: int) -> int {
        if self.offset + lane * self.per_lane < self.limit {
            self.offset + lane * self.per_lane
        } else {
            self.limit
        }
    }
}

/// Whether two finite numbers are added without rounding.
pub open spec fn adds_exactly(sum: spec_fn(Scalar, Scalar) -> Scalar, a: Scalar, b: Scalar) -> bool {
    &&& a.is_finite_spec()
    &&& b.is_finite_spec()
    &&& sum(a, b).is_finite_spec()
    &&& sum(a, b).value() == a.value() + b.value()
}

/// Whether lane `lane` has left exactly the light of its samples for a component of
/// a pixel, and is added without rounding.
pub open spec fn lane_is_exact(
    sum: spec_fn(Scalar, Scalar) -> Scalar,
    light: spec_fn(int) -> int,
    sampling: Sampling,
    before: Vec3,
    partials: Seq<Vec4>,
    start: int,
    pixels: int,
    pixel: int,
    axis: int,
    lane: int,
) -> bool {
    let left = rgb_spec(partials[start + lane * pixels + pixel]).axis_spec(axis);
    &&& left.is_finite_spec()
    &&& left.value() == light_of(light, sampling.bound(lane + 1)) - light_of(
        light,
        sampling.bound(lane),
    )
    &&& adds_exactly(
        sum,
        lane_sum(sum, before, partials, start, pixels, pixel, lane).axis_spec(axis),
        left,
    )
}

/// Whether all lanes of a pass are exact for a component of a pixel.
pub open spec fn pass_is_exact(
    sum: spec_fn(Scalar, Scalar) -> Scalar,
    light: spec_fn(int) -> int,
    sampling: Sampling,
    before: Vec3,
    partials: Seq<Vec4>,
    start: int,
    pixels: int,
    pixel: int,
    axis: int,
) -> bool {
    forall|lane: int|
        0 <= lane < sampling.lanes ==> #[trigger] lane_is_exact(
            sum,
            light,
            sampling,
            before,
            partials,
            start,
            pixels,
            pixel,
            axis,
            lane,
        )
}

/// The first `lanes` lanes of an exact pass add the light of their samples.
proof fn lemma_lanes_add_their_light(
    sum: spec_fn(Scalar, Scalar) -> Scalar,
    light: spec_fn(int) -> int,
    sampling: Sampling,
    before: Vec3,
    partials: Seq<Vec4>,
    start: int,
    pixels: int,
    pixel: int,
    axis: int,
    lanes: int,
)
    requires
        before.axis_spec(axis).is_finite_spec(),
        pass_is_exact(sum, light, sampling, before, partials, start, pixels, pixel, axis),
        0 <= lanes <= sampling.lanes,
        sampling.offset <= sampling.limit,
    ensures
        ({
            let after = lane_sum(sum, before, partials, start, pixels, pixel, lanes).axis_spec(axis);
            &&& after.is_finite_spec()
            &&& after.value() == before.axis_spec(axis).value() + light_of(
                light,
                sampling.bound(lanes),
            ) - light_of(light, sampling.offset)
        }),
    decreases lanes,
{
    if lanes == 0 {
        assert(0 * sampling.per_lane == 0);
    } else {
        lemma_lanes_add_their_light(
            sum,
            light,
            sampling,
            before,
            partials,
            start,
            pixels,
            pixel,
            axis,
            lanes - 1,
        );
        assert(lane_is_exact(
            sum,
            light,
            sampling,
            before,
            partials,
            start,
            pixels,
            pixel,
            axis,
            lanes - 1,
        ));
    }
}

impl ProgressiveState {
    /// The samples of batch `k`.
    pub open spec fn sampling(
        self,
        config: ResolvedBakeConfig,
        sum: spec_fn(Scalar, Scalar) -> Scalar,
        mean: spec_fn(Scalar, u32) -> Scalar,
        rounds: Seq<Round>,
        k: int,
    ) -> Sampling {
        let batch = self.batch(config, sum, mean, rounds, k);
        Sampling {
            offset: batch.sample_offset as int,
            limit: batch.sample_limit as int,
            per_lane: batch.samples_per_lane as int,
            lanes: batch.active_lanes as int,
        }
    }

    /// Whether nothing is rounded in round `k` for a component of a pixel.
    pub open spec fn round_is_exact(
        self,
        config: ResolvedBakeConfig,
        sum: spec_fn(Scalar, Scalar) -> Scalar,
        mean: spec_fn(Scalar, u32) -> Scalar,
        rounds: Seq<Round>,
        light: spec_fn(int) -> int,
        pixel: int,
        axis: int,
        k: int,
    ) -> bool {
        pass_is_exact(
            sum,
            light,
            self.sampling(config, sum, mean, rounds, k),
            self.before(config, sum, mean, rounds, k).sums[pixel],
            rounds[k].partials,
            0,
            self.pixel_count as int,
            pixel,
            axis,
        )
    }
}

/// A progressive bake in which nothing is rounded holds the light of the samples
/// that it has completed.
pub proof fn lemma_batches_hold_the_light_so_far(
    state: ProgressiveState,
    config: ResolvedBakeConfig,
    sum: spec_fn(Scalar, Scalar) -> Scalar,
    mean: spec_fn(Scalar, u32) -> Scalar,
    rounds: Seq<Round>,
    light: spec_fn(int) -> int,
    pixel: int,
    axis: int,
    n: int,
)
    requires
        state.wf(),
        state.stage == Stage::Idle,
        state.schedule.completed_samples == 0,
        state.fits(config, sum, mean, rounds),
        0 <= pixel < state.pixel_count,
        0 <= axis < 3,
        state.sums[pixel] == black(),
        0 <= n <= rounds.len(),
        forall|k: int|
            0 <= k < rounds.len() ==> #[trigger] state.round_is_exact(
                config,
                sum,
                mean,
                rounds,
                light,
                pixel,
                axis,
                k,
            ),
    ensures
        ({
            let after = state.before(config, sum, mean, rounds, n);
            &&& after.sums[pixel].axis_spec(axis).is_finite_spec()
            &&& after.sums[pixel].axis_spec(axis).value() == light_of(
                light,
                after.schedule.completed_samples as int,
            )
        }),
    decreases n,
{
    if n == 0 {
        assert(rounds.take(0) =~= Seq::empty());
    } else {
        let k = n - 1;
        lemma_batches_hold_the_light_so_far(
            state,
            config,
            sum,
            mean,
            rounds,
            light,
            pixel,
            axis,
            k,
        );
        lemma_round(state, config, sum, mean, rounds, k);
        lemma_batches_follow_each_other(state, config, sum, mean, rounds, k, 0);
        lemma_prefix_fits(state, config, sum, mean, rounds, k);
        lemma_after(state, config, sum, mean, rounds.take(k));
        let before = state.before(config, sum, mean, rounds, k);
        let sampling = state.sampling(config, sum, mean, rounds, k);
        let count = sampling.limit - sampling.offset;
        lemma_ceil_div(count, sampling.lanes);
        assert(sampling.lanes * sampling.per_lane >= count) by {
            let needed = crate::dispatch::ceil_div(count, sampling.lanes);
            assert(needed <= count) by (nonlinear_arith)
                requires
                    needed * sampling.lanes < count + sampling.lanes,
                    sampling.lanes >= 1,
                    count >= 1,
            ;
            assert(needed * sampling.lanes == sampling.lanes * needed) by (nonlinear_arith);
        }
        assert(state.round_is_exact(config, sum, mean, rounds, light, pixel, axis, k));
        lemma_lanes_add_their_light(
            sum,
            light,
            sampling,
            before.sums[pixel],
            rounds[k].partials,
            0,
            state.pixel_count as int,
            pixel,
            axis,
            sampling.lanes,
        );
    }
}

impl WaveState {
    /// The samples of the wave under way.
    pub open spec fn sampling(self) -> Sampling {
        let wave = self.wave.unwrap();
        Sampling {
            offset: wave.sample_offset as int,
            limit: wave.sample_limit as int,
            per_lane: self.schedule.samples_per_lane as int,
            lanes: wave.active_lanes as int,
        }
    }

    /// Whether nothing is rounded in wave `k` for a component of a pixel of a tile.
    pub open spec fn wave_is_exact(
        self,
        sum: spec_fn(Scalar, Scalar) -> Scalar,
        readings: Seq<Seq<Vec4>>,
        light: spec_fn(int) -> int,
        tile: int,
        pixel: int,
        axis: int,
        k: int,
    ) -> bool {
        let state = self.in_wave(sum, readings, k);
        pass_is_exact(
            sum,
            light,
            state.sampling(),
            state.sums[tile][pixel],
            readings[k],
            tile * state.partials_per_tile(),
            self.pixel_count as int,
            pixel,
            axis,
        )
    }
}

/// A bake in waves in which nothing is rounded holds the light of the samples of
/// its waves so far.
pub proof fn lemma_waves_hold_the_light_so_far(
    state: WaveState,
    sum: spec_fn(Scalar, Scalar) -> Scalar,
    readings: Seq<Seq<Vec4>>,
    light: spec_fn(int) -> int,
    tile: int,
    pixel: int,
    axis: int,
)
    requires
        state.wf(),
        state.wave is None,
        state.schedule.runs.next == 0,
        state.fits(sum, readings),
        0 <= tile < state.sums.len(),
        0 <= pixel < state.pixel_count,
        0 <= axis < 3,
        state.sums[tile][pixel] == black(),
        forall|k: int|
            0 <= k < readings.len() ==> #[trigger] state.wave_is_exact(
                sum,
                readings,
                light,
                tile,
                pixel,
                axis,
                k,
            ),
    ensures
        ({
            let after = state.after(sum, readings);
            &&& after.sums[tile][pixel].axis_spec(axis).is_finite_spec()
            &&& after.sums[tile][pixel].axis_spec(axis).value() == light_of(
                light,
                after.schedule.runs.next as int,
            )
        }),
    decreases readings.len(),
{
    if readings.len() > 0 {
        let fewer = readings.drop_last();
        let last = readings.len() - 1;
        lemma_fewer_readings_fit(state, sum, readings);
        assert forall|k: int| 0 <= k < fewer.len() implies #[trigger] state.wave_is_exact(
            sum,
            fewer,
            light,
            tile,
            pixel,
            axis,
            k,
        ) by {
            assert(state.wave_is_exact(sum, readings, light, tile, pixel, axis, k));
            assert(state.in_wave(sum, fewer, k) == state.in_wave(sum, readings, k));
        }
        lemma_waves_hold_the_light_so_far(state, sum, fewer, light, tile, pixel, axis);
        lemma_bake_stays_in_order(state, sum, fewer);
        assert(readings.take(last) =~= fewer);
        let before = state.after(sum, fewer);
        let wave = state.in_wave(sum, readings, last);
        assert(wave == before.begun());
        assert(before.schedule.has_more());
        let runs = before.schedule.runs;
        lemma_next_run(runs);
        assert(before.schedule.advanced().runs == after_run(runs));
        lemma_lanes_hold_the_wave(
            runs.total,
            before.schedule.lanes,
            before.schedule.samples_per_lane,
            runs.count as int,
        );
        let sampling = wave.sampling();
        assert(before.sums[tile].len() == before.pixel_count);
        assert(state.wave_is_exact(sum, readings, light, tile, pixel, axis, last));
        lemma_lanes_add_their_light(
            sum,
            light,
            sampling,
            before.sums[tile][pixel],
            readings[last],
            tile * wave.partials_per_tile(),
            state.pixel_count as int,
            pixel,
            axis,
            sampling.lanes,
        );
    }
}

/// Where nothing is rounded, a progressive bake and a bake in waves that have
/// completed as many samples hold the same sums, however they group the samples.
pub proof fn lemma_batches_and_waves_agree(
    batches: ProgressiveState,
    config: ResolvedBakeConfig,
    mean: spec_fn(Scalar, u32) -> Scalar,
    rounds: Seq<Round>,
    waves: WaveState,
    readings: Seq<Seq<Vec4>>,
    sum: spec_fn(Scalar, Scalar) -> Scalar,
    light: spec_fn(int) -> int,
    tile: int,
    pixel: int,
    axis: int,
)
    requires
        batches.wf(),
        batches.stage == Stage::Idle,
        batches.schedule.completed_samples == 0,
        batches.fits(config, sum, mean, rounds),
        waves.wf(),
        waves.wave is None,
        waves.schedule.runs.next == 0,
        waves.fits(sum, readings),
        0 <= tile < waves.sums.len(),
        0 <= pixel < batches.pixel_count,
        batches.pixel_count == waves.pixel_count,
        0 <= axis < 3,
        batches.sums[pixel] == black(),
        waves.sums[tile][pixel] == black(),
        forall|k: int|
            0 <= k < rounds.len() ==> #[trigger] batches.round_is_exact(
                config,
                sum,
                mean,
                rounds,
                light,
                pixel,
                axis,
                k,
            ),
        forall|k: int|
            0 <= k < readings.len() ==> #[trigger] waves.wave_is_exact(
                sum,
                readings,
                light,
                tile,
                pixel,
                axis,
                k,
            ),
        batches.after(config, sum, mean, rounds).schedule.completed_samples == waves.after(
            sum,
            readings,
        ).schedule.runs.next,
    ensures
        ({
            let one = batches.after(config, sum, mean, rounds).sums[pixel].axis_spec(axis);
            let other = waves.after(sum, readings).sums[tile][pixel].axis_spec(axis);
            one.value() == other.value() && one.rank() == other.rank()
        }),
{
    let n = rounds.len() as int;
    assert(rounds.take(n) =~= rounds);
    lemma_batches_hold_the_light_so_far(
        batches,
        config,
        sum,
        mean,
        rounds,
        light,
        pixel,
        axis,
        n,
    );
    lemma_waves_hold_the_light_so_far(waves, sum, readings, light, tile, pixel, axis);
    lemma_rank_orders_values(
        batches.after(config, sum, mean, rounds).sums[pixel].axis_spec(axis),
        waves.after(sum, readings).sums[tile][pixel].axis_spec(axis),
    );
}

} // verus!
