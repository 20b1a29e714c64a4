//! Whole runs of a progressive bake.

use crate::bake::{
    black_image, lane_colors, lemma_lanes_are_added_in_order, total, ProgressiveState, Stage,
};
use crate::config::ResolvedBakeConfig;
use crate::dispatch::{ceil_div, lemma_ceil_div};
use crate::math::{Vec3, Vec4};
use crate::scalar::Scalar;
use crate::schedule::{
    in_run, lemma_batches_adjoin, lemma_next_run, lemma_runs_cover_once, run_spec, SampleBatch,
};
use vstd::prelude::*;

verus! {

/// What a batch has left, and how long it has taken.
pub struct Round {
    pub partials: Seq<Vec4>,
    pub elapsed_nanos: u128,
}

impl ProgressiveState {
    /// The bake with as many passes over the batch under way dispatched.
    pub open spec fn passed(self, passes: nat) -> ProgressiveState
        decreases passes,
    {
        if passes == 0 {
            self
        } else {
            self.passed((passes - 1) as nat).advanced()
        }
    }

    /// How many passes cover the rows of the batch under way.
    pub open spec fn passes(self) -> nat {
        ceil_div(self.stage->chunks.total as int, self.stage->chunks.size as int) as nat
    }

    /// The bake with the results of a round taken in and shown, from where its
    /// batch has not begun.
    pub open spec fn shown(
        self,
        config: ResolvedBakeConfig,
        sum: spec_fn(Scalar, Scalar) -> Scalar,
        mean: spec_fn(Scalar, u32) -> Scalar,
        round: Round,
    ) -> ProgressiveState {
        let begun = self.begun(config);
        begun.passed(begun.passes()).accepted(sum, mean, round.partials)
    }

    /// The bake after as many batches as there are rounds.
    pub open spec fn after(
        self,
        config: ResolvedBakeConfig,
        sum: spec_fn(Scalar, Scalar) -> Scalar,
        mean: spec_fn(Scalar, u32) -> Scalar,
        rounds: Seq<Round>,
    ) -> ProgressiveState
        decreases rounds.len(),
    {
        if rounds.len() == 0 {
            self
        } else {
            let round = rounds.last();
            self.after(config, sum, mean, rounds.drop_last()).shown(
                config,
                sum,
                mean,
                round,
            ).ended(round.elapsed_nanos)
        }
    }

    /// The bake before batch `k`.
    pub open spec fn before(
        self,
        config: ResolvedBakeConfig,
        sum: spec_fn(Scalar, Scalar) -> Scalar,
        mean: spec_fn(Scalar, u32) -> Scalar,
        rounds: Seq<Round>,
        k: int,
    ) -> ProgressiveState {
        self.after(config, sum, mean, rounds.take(k))
    }

    /// Batch `k`.
    pub open spec fn batch(
        self,
        config: ResolvedBakeConfig,
        sum: spec_fn(Scalar, Scalar) -> Scalar,
        mean: spec_fn(Scalar, u32) -> Scalar,
        rounds: Seq<Round>,
        k: int,
    ) -> SampleBatch {
        self.before(config, sum, mean, rounds, k).schedule.batch_spec(config)
    }

    /// Whether there is a batch `k`, and its round holds what it leaves.
    pub open spec fn round_fits(
        self,
        config: ResolvedBakeConfig,
        sum: spec_fn(Scalar, Scalar) -> Scalar,
        mean: spec_fn(Scalar, u32) -> Scalar,
        rounds: Seq<Round>,
        k: int,
    ) -> bool {
        let batch = self.batch(config, sum, mean, rounds, k);
        &&& self.before(config, sum, mean, rounds, k).has_more()
        &&& rounds[k].partials.len() == batch.active_lanes * self.pixel_count
    }

    /// Whether there is a batch for each round, and each round holds what its batch
    /// leaves.
    pub open spec fn fits(
        self,
        config: ResolvedBakeConfig,
        sum: spec_fn(Scalar, Scalar) -> Scalar,
        mean: spec_fn(Scalar, u32) -> Scalar,
        rounds: Seq<Round>,
    ) -> bool {
        forall|k: int|
            0 <= k < rounds.len() ==> #[trigger] self.round_fits(config, sum, mean, rounds, k)
    }

    /// What the first `n` batches have left for a pixel, in order.
    pub open spec fn colors(
        self,
        config: ResolvedBakeConfig,
        sum: spec_fn(Scalar, Scalar) -> Scalar,
        mean: spec_fn(Scalar, u32) -> Scalar,
        rounds: Seq<Round>,
        pixel: int,
        n: int,
    ) -> Seq<Vec3>
        decreases n,
    {
        if n <= 0 {
            Seq::empty()
        } else {
            self.colors(config, sum, mean, rounds, pixel, n - 1) + lane_colors(
                rounds[n - 1].partials,
                0,
                self.pixel_count as int,
                pixel,
                self.batch(config, sum, mean, rounds, n - 1).active_lanes as int,
            )
        }
    }
}

/// Passes change nothing but how many rows are dispatched.
proof fn lemma_passes_keep_the_batch(state: ProgressiveState, passes: nat)
    requires
        state.stage is Dispatching,
    ensures
        ({
            let passed = state.passed(passes);
            &&& passed.stage is Dispatching
            &&& passed.stage->batch == state.stage->batch
            &&& passed == (ProgressiveState {
                stage: passed.stage,
                dispatch_count: passed.dispatch_count,
                ..state
            })
        }),
    decreases passes,
{
    if passes > 0 {
        lemma_passes_keep_the_batch(state, (passes - 1) as nat);
    }
}

/// The passes of a batch cover its rows without a gap: each begins at the row
/// where those before it end, and after the last one no row is left.
pub proof fn lemma_passes_cover_the_rows(
    state: ProgressiveState,
    config: ResolvedBakeConfig,
    pass: nat,
)
    requires
        pass <= state.begun(config).passes(),
    ensures
        ({
            let begun = state.begun(config);
            let passed = begun.passed(pass);
            &&& passed.stage->chunks.wf()
            &&& passed.stage->chunks.total == state.base.height
            &&& passed.stage->chunks.size == begun.stage->chunks.size
            &&& passed.stage->chunks.count == pass
            &&& passed.has_rows() <==> pass < begun.passes()
            &&& passed.has_rows() ==> passed.upcoming().y_offset == passed.stage->chunks.next
                && passed.upcoming().y_offset + passed.upcoming().active_height
                == passed.advanced().stage->chunks.next <= state.base.height
        }),
    decreases pass,
{
    let begun = state.begun(config);
    let size = begun.stage->chunks.size as int;
    let height = state.base.height as int;
    lemma_ceil_div(height, size);
    lemma_passes_keep_the_batch(begun, pass);
    if pass > 0 {
        lemma_passes_cover_the_rows(state, config, (pass - 1) as nat);
        lemma_next_run(begun.passed((pass - 1) as nat).stage->chunks);
    }
    let passed = begun.passed(pass);
    if pass < begun.passes() {
        assert(pass * size < height) by (nonlinear_arith)
            requires
                pass + 1 <= begun.passes(),
                begun.passes() * size < height + size,
                size > 0,
        ;
        lemma_next_run(passed.stage->chunks);
    }
}

/// A batch is between no and all samples, and is taken by at least one lane.
proof fn lemma_next_batch(state: ProgressiveState, config: ResolvedBakeConfig)
    requires
        state.schedule.wf(),
        state.has_more(),
    ensures
        ({
            let batch = state.schedule.batch_spec(config);
            &&& batch.sample_offset == state.schedule.completed_samples
            &&& batch.sample_offset < batch.sample_limit <= state.schedule.samples
            &&& batch.sample_limit == state.schedule.completed_samples
                + state.schedule.active_batch()
        }),
{
}

/// A bake stays a bake of the same image.
pub(crate) proof fn lemma_after(
    state: ProgressiveState,
    config: ResolvedBakeConfig,
    sum: spec_fn(Scalar, Scalar) -> Scalar,
    mean: spec_fn(Scalar, u32) -> Scalar,
    rounds: Seq<Round>,
)
    requires
        state.wf(),
        state.stage == Stage::Idle,
        state.fits(config, sum, mean, rounds),
    ensures
        ({
            let after = state.after(config, sum, mean, rounds);
            &&& after.wf()
            &&& after.stage == Stage::Idle
            &&& after.base == state.base
            &&& after.pixel_count == state.pixel_count
            &&& after.schedule.samples == state.schedule.samples
            &&& after.schedule.max_lanes == state.schedule.max_lanes
        }),
    decreases rounds.len(),
{
    if rounds.len() > 0 {
        let front = rounds.drop_last();
        let last = rounds.len() - 1;
        lemma_prefix_fits(state, config, sum, mean, rounds, last);
        assert(front =~= rounds.take(last));
        lemma_after(state, config, sum, mean, front);
        let before = state.after(config, sum, mean, front);
        assert(before == state.before(config, sum, mean, rounds, last));
        assert(state.round_fits(config, sum, mean, rounds, last));
        let begun = before.begun(config);
        lemma_passes_keep_the_batch(begun, begun.passes());
        lemma_next_batch(before, config);
        lemma_batches_adjoin(
            before.schedule,
            config,
            rounds.last().elapsed_nanos,
        );
    }
}

/// The first rounds of rounds that fit do too.
pub(crate) proof fn lemma_prefix_fits(
    state: ProgressiveState,
    config: ResolvedBakeConfig,
    sum: spec_fn(Scalar, Scalar) -> Scalar,
    mean: spec_fn(Scalar, u32) -> Scalar,
    rounds: Seq<Round>,
    n: int,
)
    requires
        0 <= n <= rounds.len(),
        state.fits(config, sum, mean, rounds),
    ensures
        state.fits(config, sum, mean, rounds.take(n)),
{
    let front = rounds.take(n);
    assert forall|k: int| 0 <= k < front.len() implies #[trigger] state.round_fits(
        config,
        sum,
        mean,
        front,
        k,
    ) by {
        assert(front.take(k) =~= rounds.take(k));
        assert(state.round_fits(config, sum, mean, rounds, k));
    }
}

/// Over a whole run the batches take the samples from the first one on, one batch
/// after the other: batch `k` begins where batch `k - 1` ends, every pass of it
/// takes its samples, and it ends at the number of samples that are completed
/// after it, which is never more than there are.
pub proof fn lemma_batches_follow_each_other(
    state: ProgressiveState,
    config: ResolvedBakeConfig,
    sum: spec_fn(Scalar, Scalar) -> Scalar,
    mean: spec_fn(Scalar, u32) -> Scalar,
    rounds: Seq<Round>,
    k: int,
    pass: nat,
)
    requires
        state.wf(),
        state.stage == Stage::Idle,
        state.schedule.completed_samples == 0,
        state.fits(config, sum, mean, rounds),
        0 <= k < rounds.len(),
    ensures
        ({
            let before = state.before(config, sum, mean, rounds, k);
            let after = state.before(config, sum, mean, rounds, k + 1);
            let batch = state.batch(config, sum, mean, rounds, k);
            let params = before.begun(config).passed(pass).upcoming();
            &&& batch.sample_offset == before.schedule.completed_samples
            &&& batch.sample_limit == after.schedule.completed_samples
            &&& batch.sample_offset < batch.sample_limit <= state.schedule.samples
            &&& k == 0 ==> batch.sample_offset == 0
            &&& k > 0 ==> batch.sample_offset == state.batch(
                config,
                sum,
                mean,
                rounds,
                k - 1,
            ).sample_limit
            &&& params.sample_offset == batch.sample_offset
            &&& params.sample_limit == batch.sample_limit
            &&& params.sample_lanes == batch.active_lanes
        }),
{
    let before = state.before(config, sum, mean, rounds, k);
    assert(state.round_fits(config, sum, mean, rounds, k));
    lemma_prefix_fits(state, config, sum, mean, rounds, k);
    lemma_after(state, config, sum, mean, rounds.take(k));
    lemma_next_batch(before, config);
    lemma_round(state, config, sum, mean, rounds, k);
    lemma_passes_keep_the_batch(before.begun(config), pass);
    if k > 0 {
        let earlier = state.before(config, sum, mean, rounds, k - 1);
        assert(state.round_fits(config, sum, mean, rounds, k - 1));
        lemma_prefix_fits(state, config, sum, mean, rounds, k - 1);
        lemma_after(state, config, sum, mean, rounds.take(k - 1));
        lemma_next_batch(earlier, config);
        lemma_round(state, config, sum, mean, rounds, k - 1);
    }
}

/// What one round makes of a bake.
pub(crate) proof fn lemma_round(
    state: ProgressiveState,
    config: ResolvedBakeConfig,
    sum: spec_fn(Scalar, Scalar) -> Scalar,
    mean: spec_fn(Scalar, u32) -> Scalar,
    rounds: Seq<Round>,
    k: int,
)
    requires
        0 <= k < rounds.len(),
    ensures
        ({
            let before = state.before(config, sum, mean, rounds, k);
            let after = state.before(config, sum, mean, rounds, k + 1);
            let shown = before.shown(config, sum, mean, rounds[k]);
            &&& after == shown.ended(rounds[k].elapsed_nanos)
            &&& shown.schedule == before.schedule
            &&& shown == before.begun(config).accepted(
                sum,
                mean,
                rounds[k].partials,
            ).with_dispatches(shown.dispatch_count)
        }),
{
    let before = state.before(config, sum, mean, rounds, k);
    let prefix = rounds.take(k + 1);
    assert(prefix.drop_last() =~= rounds.take(k));
    assert(prefix.last() == rounds[k]);
    let begun = before.begun(config);
    lemma_passes_keep_the_batch(begun, begun.passes());
}

/// Every sample that is completed was taken by exactly one batch.
pub proof fn lemma_samples_are_taken_once(
    state: ProgressiveState,
    config: ResolvedBakeConfig,
    sum: spec_fn(Scalar, Scalar) -> Scalar,
    mean: spec_fn(Scalar, u32) -> Scalar,
    rounds: Seq<Round>,
    sample: int,
)
    requires
        state.wf(),
        state.stage == Stage::Idle,
        state.schedule.completed_samples == 0,
        state.fits(config, sum, mean, rounds),
        0 <= sample < state.after(config, sum, mean, rounds).schedule.completed_samples,
    ensures
        exists|k: int|
            0 <= k < rounds.len() && in_batch(
                #[trigger] state.batch(config, sum, mean, rounds, k),
                sample,
            ),
        forall|j: int, k: int|
            0 <= j < rounds.len() && 0 <= k < rounds.len() && in_batch(
                #[trigger] state.batch(config, sum, mean, rounds, j),
                sample,
            ) && in_batch(#[trigger] state.batch(config, sum, mean, rounds, k), sample) ==> j == k,
{
    assert(rounds.take(rounds.len() as int) =~= rounds);
    lemma_some_batch_takes(state, config, sum, mean, rounds, rounds.len() as int, sample);
    assert forall|j: int, k: int|
        0 <= j < rounds.len() && 0 <= k < rounds.len() && in_batch(
            #[trigger] state.batch(config, sum, mean, rounds, j),
            sample,
        ) && in_batch(#[trigger] state.batch(config, sum, mean, rounds, k), sample) implies j
        == k by {
        if j < k {
            lemma_completed_grows(state, config, sum, mean, rounds, j + 1, k);
        } else if k < j {
            lemma_completed_grows(state, config, sum, mean, rounds, k + 1, j);
        }
        lemma_batches_follow_each_other(state, config, sum, mean, rounds, j, 0);
        lemma_batches_follow_each_other(state, config, sum, mean, rounds, k, 0);
    }
}

/// Whether a sample is among those that a batch takes.
pub open spec fn in_batch(batch: SampleBatch, sample: int) -> bool {
    batch.sample_offset <= sample < batch.sample_limit
}

proof fn lemma_some_batch_takes(
    state: ProgressiveState,
    config: ResolvedBakeConfig,
    sum: spec_fn(Scalar, Scalar) -> Scalar,
    mean: spec_fn(Scalar, u32) -> Scalar,
    rounds: Seq<Round>,
    n: int,
    sample: int,
)
    requires
        state.wf(),
        state.stage == Stage::Idle,
        state.schedule.completed_samples == 0,
        state.fits(config, sum, mean, rounds),
        0 <= n <= rounds.len(),
        0 <= sample < state.before(config, sum, mean, rounds, n).schedule.completed_samples,
    ensures
        exists|k: int|
            0 <= k < n && in_batch(#[trigger] state.batch(config, sum, mean, rounds, k), sample),
    decreases n,
{
    if n > 0 {
        lemma_batches_follow_each_other(state, config, sum, mean, rounds, n - 1, 0);
        let batch = state.batch(config, sum, mean, rounds, n - 1);
        if sample < batch.sample_offset {
            lemma_some_batch_takes(state, config, sum, mean, rounds, n - 1, sample);
        } else {
            assert(in_batch(batch, sample));
        }
    } else {
        assert(rounds.take(0) =~= Seq::empty());
    }
}

/// Completed samples never become fewer.
proof fn lemma_completed_grows(
    state: ProgressiveState,
    config: ResolvedBakeConfig,
    sum: spec_fn(Scalar, Scalar) -> Scalar,
    mean: spec_fn(Scalar, u32) -> Scalar,
    rounds: Seq<Round>,
    m: int,
    n: int,
)
    requires
        state.wf(),
        state.stage == Stage::Idle,
        state.schedule.completed_samples == 0,
        state.fits(config, sum, mean, rounds),
        0 <= m <= n <= rounds.len(),
    ensures
        state.before(config, sum, mean, rounds, m).schedule.completed_samples <= state.before(
            config,
            sum,
            mean,
            rounds,
            n,
        ).schedule.completed_samples,
    decreases n,
{
    if m < n {
        lemma_batches_follow_each_other(state, config, sum, mean, rounds, n - 1, 0);
        lemma_completed_grows(state, config, sum, mean, rounds, m, n - 1);
    }
}

/// A preview at a number of samples has taken the samples that a bake takes whose
/// target is that number: those of its batches so far are those of the waves of
/// such a bake, whatever the size of a wave.
pub proof fn lemma_preview_takes_the_samples_of_a_smaller_bake(
    state: ProgressiveState,
    config: ResolvedBakeConfig,
    sum: spec_fn(Scalar, Scalar) -> Scalar,
    mean: spec_fn(Scalar, u32) -> Scalar,
    rounds: Seq<Round>,
    wave_size: u32,
    sample: int,
)
    requires
        state.wf(),
        state.stage == Stage::Idle,
        state.schedule.completed_samples == 0,
        state.fits(config, sum, mean, rounds),
        wave_size > 0,
    ensures
        ({
            let target = state.after(config, sum, mean, rounds).schedule.completed_samples;
            &&& (exists|k: int|
                0 <= k < rounds.len() && in_batch(
                    #[trigger] state.batch(config, sum, mean, rounds, k),
                    sample,
                )) <==> 0 <= sample < target
            &&& (exists|k: int|
                0 <= k && k * wave_size < target && in_run(
                    #[trigger] run_spec(target, wave_size, k),
                    sample,
                )) <==> 0 <= sample < target
        }),
{
    let n = rounds.len() as int;
    let target = state.after(config, sum, mean, rounds).schedule.completed_samples;
    assert(rounds.take(n) =~= rounds);
    if 0 <= sample < target {
        lemma_samples_are_taken_once(state, config, sum, mean, rounds, sample);
        lemma_runs_cover_once(target, wave_size, sample);
    }
    assert forall|k: int|
        0 <= k < n && in_batch(
            #[trigger] state.batch(config, sum, mean, rounds, k),
            sample,
        ) implies 0 <= sample < target by {
        lemma_batches_follow_each_other(state, config, sum, mean, rounds, k, 0);
        lemma_completed_grows(state, config, sum, mean, rounds, k + 1, n);
    }
    assert forall|k: int|
        0 <= k && k * wave_size < target && in_run(
            #[trigger] run_spec(target, wave_size, k),
            sample,
        ) implies 0 <= sample < target by {
        assert(0 <= k * wave_size) by (nonlinear_arith)
            requires
                0 <= k,
        ;
    }
}

/// The frame that is shown after a batch holds exactly the samples up to its own
/// number: for each pixel it is the mean, over that number, of what all batches so
/// far have left, added in their order.  A run that completes all samples shows
/// them all in its last frame.
pub proof fn lemma_frames_hold_all_samples_so_far(
    state: ProgressiveState,
    config: ResolvedBakeConfig,
    sum: spec_fn(Scalar, Scalar) -> Scalar,
    mean: spec_fn(Scalar, u32) -> Scalar,
    rounds: Seq<Round>,
    pixel: int,
)
    requires
        state.wf(),
        state.stage == Stage::Idle,
        state.schedule.completed_samples == 0,
        state.sums == black_image(state.pixel_count as nat),
        state.fits(config, sum, mean, rounds),
        0 < rounds.len(),
        0 <= pixel < state.pixel_count,
    ensures
        ({
            let n = rounds.len() as int;
            let after = state.after(config, sum, mean, rounds);
            let shown = state.before(config, sum, mean, rounds, n - 1).shown(
                config,
                sum,
                mean,
                rounds.last(),
            );
            let count = after.schedule.completed_samples;
            let all = total(sum, state.colors(config, sum, mean, rounds, pixel, n));
            &&& count == state.batch(config, sum, mean, rounds, n - 1).sample_limit
            &&& shown.sums[pixel] == all
            &&& shown.means[pixel] == Vec3 {
                x: mean(all.x, count),
                y: mean(all.y, count),
                z: mean(all.z, count),
            }
            &&& after.sums == shown.sums
            &&& after.means == shown.means
            &&& !after.has_more() ==> count == state.schedule.samples
        }),
{
    let n = rounds.len() as int;
    assert(rounds.take(n) =~= rounds);
    lemma_sums(state, config, sum, mean, rounds, pixel, n);
    lemma_round(state, config, sum, mean, rounds, n - 1);
    lemma_batches_follow_each_other(state, config, sum, mean, rounds, n - 1, 0);
    lemma_after(state, config, sum, mean, rounds);
}

proof fn lemma_sums(
    state: ProgressiveState,
    config: ResolvedBakeConfig,
    sum: spec_fn(Scalar, Scalar) -> Scalar,
    mean: spec_fn(Scalar, u32) -> Scalar,
    rounds: Seq<Round>,
    pixel: int,
    n: int,
)
    requires
        state.wf(),
        state.stage == Stage::Idle,
        state.schedule.completed_samples == 0,
        state.sums == black_image(state.pixel_count as nat),
        state.fits(config, sum, mean, rounds),
        0 <= n <= rounds.len(),
        0 <= pixel < state.pixel_count,
    ensures
        state.before(config, sum, mean, rounds, n).sums.len() == state.pixel_count,
        state.before(config, sum, mean, rounds, n).sums[pixel] == total(
            sum,
            state.colors(config, sum, mean, rounds, pixel, n),
        ),
    decreases n,
{
    if n == 0 {
        assert(rounds.take(0) =~= Seq::empty());
    } else {
        lemma_sums(state, config, sum, mean, rounds, pixel, n - 1);
        lemma_round(state, config, sum, mean, rounds, n - 1);
        lemma_batches_follow_each_other(state, config, sum, mean, rounds, n - 1, 0);
        lemma_lanes_are_added_in_order(
            sum,
            state.colors(config, sum, mean, rounds, pixel, n - 1),
            rounds[n - 1].partials,
            0,
            state.pixel_count as int,
            pixel,
            state.batch(config, sum, mean, rounds, n - 1).active_lanes as int,
        );
    }
}

} // verus!
