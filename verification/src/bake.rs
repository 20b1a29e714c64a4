//! Bakes, step by step.
//!
//! A bake here says which pass the device has to carry out next and takes in
//! what the device has left in its buffer.  Whoever owns the device carries the
//! passes out, tells how long they took, and whether the bake is cancelled.

use crate::arithmetic::{Arithmetic, ArithmeticModel, Operation};
use crate::config::{BakeMode, ResolvedBakeConfig};
use crate::control::check_flag;
use crate::dispatch::{
    ceil_div, dispatch_rows, lemma_ceil_div, lemma_dispatches_take_whole_groups,
    rows_per_dispatch, traces_per_row, GpuBakeError, OUTPUT_PIXEL_BYTES, WORKGROUP_HEIGHT,
    WORKGROUP_WIDTH,
};
use crate::image::{
    add_lanes, average_pixels, averaged, blit_tile, colors, is_blitted, lane_sum,
    lemma_pixel_of_tile, lemma_tile_lies_in_atlas, lemma_tiles_fill_the_atlas, pixel_at, plus,
    rgb_pixels, rgb_spec, scale_pixels, tile_of, tile_pixel,
};
use crate::math::{Vec3, Vec4};
use crate::params::{
    carries_scene, carries_settings, sample_parallel_params, sample_parallel_params_spec,
    GpuParams, SceneGpuParams,
};
use crate::preview::black;
use crate::sampling::{LatlongMath, TexelCenter};
use crate::scalar::{Scalar, ZERO_BITS};
use crate::schedule::{
    after_run, lemma_next_run, next_rows, run_spec, tile_position, workgroups, AtlasGrid,
    ProgressiveSchedule, RowChunk, Run, Runs, SampleBatch, Wave, WaveSchedule,
};
use crate::session::{AtlasProgressFrame, GpuBakeResult, ProgressChunk, ProgressiveFrame};
use crate::stats::{
    add_tile_stats, bake_stats, bake_stats_spec, can_add_tile, counts_fit, merged, BakeTimes,
    GpuBakeStats, MAX_NANOS,
};
use crate::text::copy_all;
use crate::timer::{row_bytes, tile_bytes, ByteRange};
use vstd::arithmetic::div_mod::{
    lemma_fundamental_div_mod, lemma_fundamental_div_mod_converse, lemma_mod_bound,
};
use vstd::prelude::*;

verus! {

/// A pass of the device: its parameters and the workgroups that cover it.
#[derive(Clone, Copy, Debug, PartialEq)]
pub struct Pass {
    pub params: GpuParams,
    pub group_columns: u32,
    pub group_rows: u32,
    pub group_lanes: u32,
}

impl Pass {
    /// The pass with the given parameters: it covers the active rows, in as many
    /// layers as there are lanes.
    pub open spec fn of(params: GpuParams) -> Pass {
        Pass {
            params,
            group_columns: ceil_div(params.width as int, WORKGROUP_WIDTH as int) as u32,
            group_rows: ceil_div(params.active_height as int, WORKGROUP_HEIGHT as int) as u32,
            group_lanes: params.sample_lanes,
        }
    }

    /// The pass with the given parameters.
    pub fn new(params: GpuParams) -> (pass: Pass)
        ensures
            pass == Pass::of(params),
    {
        let (group_columns, group_rows) = workgroups(params.width, params.active_height);
        Pass { params, group_columns, group_rows, group_lanes: params.sample_lanes }
    }
}

/// An image without any light.
pub open spec fn black_image(pixel_count: nat) -> Seq<Vec3> {
    Seq::new(pixel_count, |p: int| black())
}

/// An image without any light.
pub fn black_pixels(pixel_count: usize) -> (pixels: Vec<Vec3>)
    ensures
        pixels@ == black_image(pixel_count as nat),
{
    let zero = Scalar::zero();
    let mut pixels: Vec<Vec3> = Vec::new();
    let mut next: usize = 0;
    while next < pixel_count
        invariant
            zero == (Scalar { bits: ZERO_BITS }),
            next <= pixel_count,
            pixels@ == black_image(next as nat),
        decreases pixel_count - next,
    {
        pixels.push(Vec3 { x: zero, y: zero, z: zero });
        assert(pixels@ =~= black_image((next + 1) as nat));
        next += 1;
    }
    pixels
}

/// The images in a list, as sequences.
pub open spec fn images(list: Seq<Vec<Vec3>>) -> Seq<Seq<Vec3>> {
    list.map_values(|image: Vec<Vec3>| image@)
}

/// The image with the partial results of all lanes added, taken from `start`.
pub open spec fn with_lanes(
    sum: spec_fn(Scalar, Scalar) -> Scalar,
    image: Seq<Vec3>,
    partials: Seq<Vec4>,
    start: int,
    lanes: int,
) -> Seq<Vec3> {
    Seq::new(
        image.len(),
        |p: int| lane_sum(sum, image[p], partials, start, image.len() as int, p, lanes),
    )
}

/// Whether pixels are sums of so many samples, channel by channel times the reciprocal of
/// their number.
pub open spec fn is_scaled(
    model: ArithmeticModel,
    sums: Seq<Vec3>,
    count: u32,
    pixels: Seq<Vec3>,
) -> bool {
    let one = Scalar { bits: 0x3f80_0000 };
    let share = (model.compute)(
        Operation::Quotient,
        one,
        Scalar::of_count_spec(count as nat),
    );
    &&& pixels.len() == sums.len()
    &&& forall|p: int|
        0 <= p < pixels.len() ==> {
            let pixel = #[trigger] pixels[p];
            &&& pixel.x == (model.compute)(Operation::Product, sums[p].x, share)
            &&& pixel.y == (model.compute)(Operation::Product, sums[p].y, share)
            &&& pixel.z == (model.compute)(Operation::Product, sums[p].z, share)
        }
}

/// Whether pixels are sums of so many samples, channel by channel divided by their number.
pub open spec fn is_divided(
    model: ArithmeticModel,
    sums: Seq<Vec3>,
    count: u32,
    pixels: Seq<Vec3>,
) -> bool {
    let number = Scalar::of_count_spec(count as nat);
    &&& pixels.len() == sums.len()
    &&& forall|p: int|
        0 <= p < pixels.len() ==> {
            let pixel = #[trigger] pixels[p];
            &&& pixel.x == (model.compute)(Operation::Quotient, sums[p].x, number)
            &&& pixel.y == (model.compute)(Operation::Quotient, sums[p].y, number)
            &&& pixel.z == (model.compute)(Operation::Quotient, sums[p].z, number)
        }
}

/// A bake of tiles of one size whose samples are spread over lanes.
#[derive(Debug)]
pub struct WaveBake {
    pub pixel_count: usize,
    pub schedule: WaveSchedule,
    pub wave: Option<Wave>,
    pub sums: Vec<Vec<Vec3>>,
}

/// A [`WaveBake`] with its images as sequences.
#[verifier::ext_equal]
pub struct WaveState {
    pub pixel_count: usize,
    pub schedule: WaveSchedule,
    pub wave: Option<Wave>,
    pub sums: Seq<Seq<Vec3>>,
}

impl View for WaveBake {
    type V = WaveState;

    open spec fn view(&self) -> WaveState {
        WaveState {
            pixel_count: self.pixel_count,
            schedule: self.schedule,
            wave: self.wave,
            sums: images(self.sums@),
        }
    }
}

impl WaveState {
    /// Every tile has its pixels, a wave uses no more lanes than there are, and
    /// the results of a wave of all tiles fit into one buffer.
    pub open spec fn wf(self) -> bool {
        &&& self.schedule.wf()
        &&& forall|t: int|
            0 <= t < self.sums.len() ==> (#[trigger] self.sums[t]).len() == self.pixel_count
        &&& match self.wave {
            Some(wave) => {
                &&& 1 <= wave.active_lanes <= self.schedule.lanes
                &&& wave.sample_offset < wave.sample_limit == self.schedule.runs.next
            },
            None => true,
        }
        &&& self.sums.len() * (self.pixel_count * self.schedule.lanes * OUTPUT_PIXEL_BYTES)
            <= u64::MAX
    }

    /// The bake of `tiles` tiles before its first wave.
    pub open spec fn start(
        tiles: nat,
        pixel_count: usize,
        samples: u32,
        lanes: u32,
        samples_per_lane: u32,
    ) -> WaveState {
        WaveState {
            pixel_count,
            schedule: WaveSchedule::of(samples, lanes, samples_per_lane),
            wave: None,
            sums: Seq::new(tiles, |t: int| black_image(pixel_count as nat)),
        }
    }

    /// The bake with its next wave under way.
    pub open spec fn begun(self) -> WaveState {
        WaveState {
            schedule: self.schedule.advanced(),
            wave: Some(self.schedule.upcoming()),
            ..self
        }
    }

    /// Results that a wave leaves for a tile.
    pub open spec fn partials_per_tile(self) -> int {
        self.wave.unwrap().active_lanes * self.pixel_count
    }

    /// The bake with the results of the wave that is under way taken in.
    pub open spec fn accepted(
        self,
        sum: spec_fn(Scalar, Scalar) -> Scalar,
        partials: Seq<Vec4>,
    ) -> WaveState {
        WaveState {
            wave: None,
            sums: Seq::new(
                self.sums.len(),
                |t: int|
                    with_lanes(
                        sum,
                        self.sums[t],
                        partials,
                        t * self.partials_per_tile(),
                        self.wave.unwrap().active_lanes as int,
                    ),
            ),
            ..self
        }
    }

    /// Whether all waves are done.
    pub open spec fn is_done(self) -> bool {
        self.wave is None && !self.schedule.has_more()
    }

    /// The parameters of the wave that is under way, for one tile.
    pub open spec fn wave_params(
        self,
        config: ResolvedBakeConfig,
        scene: SceneGpuParams,
        math: ArithmeticModel,
    ) -> GpuParams {
        let wave = self.wave.unwrap();
        GpuParams {
            sample_offset: wave.sample_offset,
            sample_limit: wave.sample_limit,
            sample_lanes: wave.active_lanes,
            ..sample_parallel_params_spec(
                config,
                scene,
                self.schedule.samples_per_lane,
                self.schedule.lanes,
                math,
            )
        }
    }
}

impl WaveBake {
    /// Starts a bake of `tiles` tiles of `pixel_count` pixels each.
    pub fn new(
        tiles: usize,
        pixel_count: usize,
        samples: u32,
        lanes: u32,
        samples_per_lane: u32,
    ) -> (bake: WaveBake)
        requires
            lanes > 0,
            samples_per_lane > 0,
            lanes * samples_per_lane <= u32::MAX,
            tiles * (pixel_count * lanes * OUTPUT_PIXEL_BYTES) <= u64::MAX,
        ensures
            bake@.wf(),
            bake@ == WaveState::start(tiles as nat, pixel_count, samples, lanes, samples_per_lane),
    {
        let schedule = WaveSchedule::new(samples, lanes, samples_per_lane);
        let mut sums: Vec<Vec<Vec3>> = Vec::new();
        let mut next: usize = 0;
        while next < tiles
            invariant
                next <= tiles,
                images(sums@) =~= Seq::new(next as nat, |t: int| black_image(pixel_count as nat)),
            decreases tiles - next,
        {
            let ghost before = images(sums@);
            let image = black_pixels(pixel_count);
            sums.push(image);
            assert(images(sums@) =~= before.push(black_image(pixel_count as nat)));
            next += 1;
        }
        let bake = WaveBake { pixel_count, schedule, wave: None, sums };
        assert(bake@ =~= WaveState::start(
            tiles as nat,
            pixel_count,
            samples,
            lanes,
            samples_per_lane,
        ));
        bake
    }

    /// Begins the next wave, or tells that there is none.  A bake with samples
    /// left stops where it is cancelled.
    pub fn begin_wave(&mut self, cancelled: bool) -> (wave: Result<Option<Wave>, GpuBakeError>)
        requires
            old(self)@.wf(),
            old(self).wave is None,
        ensures
            final(self)@.wf(),
            !old(self).schedule.has_more() ==> wave == Ok::<Option<Wave>, GpuBakeError>(None)
                && final(self)@ == old(self)@,
            old(self).schedule.has_more() && cancelled ==> wave == Err::<
                Option<Wave>,
                GpuBakeError,
            >(GpuBakeError::Cancelled) && final(self)@ == old(self)@,
            old(self).schedule.has_more() && !cancelled ==> {
                &&& wave == Ok::<Option<Wave>, GpuBakeError>(Some(old(self).schedule.upcoming()))
                &&& final(self)@ == old(self)@.begun()
            },
    {
        if self.schedule.runs.next >= self.schedule.runs.total {
            return Ok(None);
        }
        match check_flag(cancelled) {
            Ok(_) => {},
            Err(error) => return Err(error),
        }
        let wave = self.schedule.next_wave();
        self.wave = wave;
        Ok(wave)
    }

    /// The pass that the wave under way takes for one tile.  Between the tiles
    /// of a wave a bake stops where it is cancelled.
    pub fn tile_pass<F: Fn(Operation, Scalar, Scalar) -> Scalar, N: Fn(Vec3) -> Option<Vec3>>(
        &self,
        config: &ResolvedBakeConfig,
        scene: SceneGpuParams,
        cancelled: bool,
        math: &Arithmetic<F, N>,
    ) -> (pass: Result<Pass, GpuBakeError>)
        requires
            self.wave is Some,
            config.samples == self.schedule.runs.total,
            math.wf(),
        ensures
            pass == if cancelled {
                Err::<Pass, GpuBakeError>(GpuBakeError::Cancelled)
            } else {
                Ok(
                    Pass::of(self@.wave_params(*config, scene, math.model())),
                )
            },
    {
        match check_flag(cancelled) {
            Ok(_) => {},
            Err(error) => return Err(error),
        }
        let wave = self.wave.unwrap();
        let mut params = sample_parallel_params(
            config,
            scene,
            self.schedule.samples_per_lane,
            self.schedule.lanes,
            math,
        );
        params.sample_offset = wave.sample_offset;
        params.sample_limit = wave.sample_limit;
        params.sample_lanes = wave.active_lanes;
        Ok(Pass::new(params))
    }

    /// Where the results of the wave under way for one tile stand in the buffer
    /// that takes those of all tiles.
    pub fn tile_range(&self, tile: u32) -> (range: ByteRange)
        requires
            self@.wf(),
            self.wave is Some,
            tile < self.sums@.len(),
        ensures
            range.size == self@.partials_per_tile() * OUTPUT_PIXEL_BYTES,
            range.offset == tile * (self@.partials_per_tile() * OUTPUT_PIXEL_BYTES),
            range.size == self.wave.unwrap().active_lanes * self.pixel_count * 16,
            range.offset == tile * range.size,
            range.offset + range.size <= self@.sums.len() * (self@.partials_per_tile()
                * OUTPUT_PIXEL_BYTES) <= u64::MAX,
    {
        let wave = self.wave.unwrap();
        let ghost tiles = self.sums@.len();
        let ghost all = self.pixel_count * self.schedule.lanes * OUTPUT_PIXEL_BYTES;
        let ghost partials = wave.active_lanes * self.pixel_count;
        let ghost bytes = partials * OUTPUT_PIXEL_BYTES;
        proof {
            assert(self@.sums.len() == tiles);
            assert(0 <= partials <= bytes <= all) by (nonlinear_arith)
                requires
                    partials == wave.active_lanes * self.pixel_count,
                    bytes == partials * OUTPUT_PIXEL_BYTES,
                    all == self.pixel_count * self.schedule.lanes * OUTPUT_PIXEL_BYTES,
                    0 <= wave.active_lanes <= self.schedule.lanes,
                    self.pixel_count >= 0,
                    OUTPUT_PIXEL_BYTES >= 1,
            ;
            assert(bytes <= tiles * bytes && tiles * bytes <= tiles * all && (tile + 1) * bytes
                <= tiles * bytes) by (nonlinear_arith)
                requires
                    1 <= tile + 1 <= tiles,
                    0 <= bytes <= all,
            ;
        }
        let bytes_per_tile: u64 = wave.active_lanes as u64 * self.pixel_count as u64
            * OUTPUT_PIXEL_BYTES;
        tile_bytes(tile, bytes_per_tile)
    }

    /// Takes in the results of the wave under way: those of each tile stand one
    /// after the other, and for each tile those of each lane.
    pub fn accept<F: Fn(Operation, Scalar, Scalar) -> Scalar, N: Fn(Vec3) -> Option<Vec3>>(
        &mut self,
        partials: &Vec<Vec4>,
        math: &Arithmetic<F, N>,
    )
        requires
            old(self)@.wf(),
            old(self).wave is Some,
            math.wf(),
            partials@.len() == old(self)@.sums.len() * old(self)@.partials_per_tile(),
        ensures
            final(self)@.wf(),
            final(self)@ == old(self)@.accepted(math.model().sums(), partials@),
    {
        let wave = self.wave.unwrap();
        let lanes: u32 = wave.active_lanes;
        let tiles: usize = self.sums.len();
        let total: usize = partials.len();
        let pixel_count: usize = self.pixel_count;
        let ghost before = self@;
        let ghost after = before.accepted(math.model().sums(), partials@);
        let ghost per_tile = before.partials_per_tile();
        let mut tile: usize = 0;
        let mut start: usize = 0;
        assert(0 * per_tile == 0);
        assert(per_tile >= 0) by (nonlinear_arith)
            requires
                per_tile == lanes * pixel_count,
        ;
        while tile < tiles
            invariant
                math.wf(),
                before.wf(),
                before.wave == Some(wave),
                lanes == wave.active_lanes,
                per_tile == before.partials_per_tile() == lanes * pixel_count,
                per_tile >= 0,
                after == before.accepted(math.model().sums(), partials@),
                tiles == before.sums.len() == self.sums@.len(),
                pixel_count == before.pixel_count == self.pixel_count,
                self.schedule == before.schedule,
                total == partials@.len() == tiles * per_tile,
                tile <= tiles,
                start == tile * per_tile,
                forall|t: int|
                    tile <= t < tiles ==> (#[trigger] self.sums@[t])@ == before.sums[t],
                forall|t: int| 0 <= t < tile ==> (#[trigger] self.sums@[t])@ == after.sums[t],
            decreases tiles - tile,
        {
            assert((tile + 1) * per_tile == tile * per_tile + per_tile && (tile + 1) * per_tile
                <= tiles * per_tile) by (nonlinear_arith)
                requires
                    tile < tiles,
                    per_tile >= 0,
            ;
            assert(self.sums@[tile as int]@ == before.sums[tile as int]);
            add_lanes(&mut self.sums[tile], partials, start, lanes, math);
            assert(self.sums@[tile as int]@ =~= after.sums[tile as int]);
            start = start + lanes as usize * pixel_count;
            tile += 1;
        }
        self.wave = None;
        assert(self@.sums =~= after.sums);
    }

    /// What the bake has for one tile when all waves are done.
    pub fn tile_result<F: Fn(Operation, Scalar, Scalar) -> Scalar, N: Fn(Vec3) -> Option<Vec3>>(
        &self,
        tile: usize,
        config: &ResolvedBakeConfig,
        scene: SceneGpuParams,
        times: BakeTimes,
        math: &Arithmetic<F, N>,
    ) -> (result: GpuBakeResult)
        requires
            self@.wf(),
            self@.is_done(),
            tile < self.sums@.len(),
            counts_fit(*config),
            math.wf(),
        ensures
            result.pixels@ == averaged(
                math.model().scaled_means(),
                self@.sums[tile as int],
                config.samples,
            ),
            is_scaled(math.model(), self@.sums[tile as int], config.samples, result.pixels@),
            result.stats == bake_stats_spec(
                *config,
                scene.triangle_count,
                scene.node_count,
                config.height,
                self.schedule.runs.count,
                self.schedule.lanes,
                self.schedule.samples_per_lane,
                times,
            ),
            self.schedule.runs.count == ceil_div(
                self.schedule.runs.total as int,
                self.schedule.lanes * self.schedule.samples_per_lane,
            ),
    {
        proof {
            lemma_waves_are_counted(self.schedule);
        }
        let pixels = scale_pixels(&self.sums[tile], config.samples, math);
        let stats = bake_stats(
            config,
            scene.triangle_count,
            scene.node_count,
            config.height,
            self.schedule.runs.count,
            self.schedule.lanes,
            self.schedule.samples_per_lane,
            times,
        );
        GpuBakeResult { pixels, stats }
    }
}

/// A schedule without samples left has handed out exactly the waves that they
/// fill.
pub proof fn lemma_waves_are_counted(schedule: WaveSchedule)
    requires
        schedule.wf(),
        !schedule.has_more(),
    ensures
        schedule.runs.count == ceil_div(
            schedule.runs.total as int,
            schedule.lanes * schedule.samples_per_lane,
        ),
{
    lemma_runs_are_counted(schedule.runs);
}

/// Runs that are all handed out are as many as the numbers fill.
proof fn lemma_runs_are_counted(runs: Runs)
    requires
        runs.wf(),
        runs.next >= runs.total,
    ensures
        runs.count == ceil_div(runs.total as int, runs.size as int),
{
    let total = runs.total as int;
    let size = runs.size as int;
    let count = runs.count as int;
    lemma_ceil_div(total, size);
    let all = ceil_div(total, size);
    assert(count >= all) by (nonlinear_arith)
        requires
            count * size >= total,
            all * size < total + size,
            size > 0,
    ;
}

/// Colors added to black one after the other.
pub open spec fn total(sum: spec_fn(Scalar, Scalar) -> Scalar, colors: Seq<Vec3>) -> Vec3
    decreases colors.len(),
{
    if colors.len() == 0 {
        black()
    } else {
        plus(sum, total(sum, colors.drop_last()), colors.last())
    }
}

/// What each lane of a wave leaves for a pixel.
pub open spec fn lane_colors(
    partials: Seq<Vec4>,
    start: int,
    pixels: int,
    pixel: int,
    lanes: int,
) -> Seq<Vec3> {
    Seq::new(lanes as nat, |lane: int| rgb_spec(partials[start + lane * pixels + pixel]))
}

/// Adding the lanes of a wave to a pixel continues its sum in the order of the
/// lanes.
pub proof fn lemma_lanes_are_added_in_order(
    sum: spec_fn(Scalar, Scalar) -> Scalar,
    earlier: Seq<Vec3>,
    partials: Seq<Vec4>,
    start: int,
    pixels: int,
    pixel: int,
    lanes: int,
)
    requires
        0 <= lanes,
    ensures
        lane_sum(sum, total(sum, earlier), partials, start, pixels, pixel, lanes) == total(
            sum,
            earlier + lane_colors(partials, start, pixels, pixel, lanes),
        ),
    decreases lanes,
{
    let all = earlier + lane_colors(partials, start, pixels, pixel, lanes);
    if lanes == 0 {
        assert(all =~= earlier);
    } else {
        lemma_lanes_are_added_in_order(
            sum,
            earlier,
            partials,
            start,
            pixels,
            pixel,
            lanes - 1,
        );
        assert(all.drop_last() =~= earlier + lane_colors(
            partials,
            start,
            pixels,
            pixel,
            lanes - 1,
        ));
    }
}

/// A bake starts from nothing, and a wave adds to each pixel of each tile what
/// its lanes have left for that pixel and nothing else, in the order of the
/// lanes.  So after the last wave a pixel holds the results of all waves, added
/// one after the other.
pub proof fn lemma_waves_are_added_in_order(
    state: WaveState,
    sum: spec_fn(Scalar, Scalar) -> Scalar,
    partials: Seq<Vec4>,
    earlier: Seq<Vec3>,
    tile: int,
    pixel: int,
)
    requires
        state.wf(),
        state.wave is Some,
        0 <= tile < state.sums.len(),
        0 <= pixel < state.pixel_count,
        state.sums[tile][pixel] == total(sum, earlier),
    ensures
        black_image(state.pixel_count as nat)[pixel] == total(sum, Seq::empty()),
        state.accepted(sum, partials).sums[tile][pixel] == total(
            sum,
            earlier + lane_colors(
                partials,
                tile * state.partials_per_tile(),
                state.pixel_count as int,
                pixel,
                state.wave.unwrap().active_lanes as int,
            ),
        ),
{
    assert(state.sums[tile].len() == state.pixel_count);
    lemma_lanes_are_added_in_order(
        sum,
        earlier,
        partials,
        tile * state.partials_per_tile(),
        state.pixel_count as int,
        pixel,
        state.wave.unwrap().active_lanes as int,
    );
}

impl WaveState {
    /// The bake of one of the tiles alone.
    pub open spec fn alone(self, tile: int) -> WaveState {
        WaveState { sums: seq![self.sums[tile]], ..self }
    }

    /// What a wave of all tiles leaves for one of them.
    pub open spec fn partials_of(self, partials: Seq<Vec4>, tile: int) -> Seq<Vec4> {
        partials.subrange(
            tile * self.partials_per_tile(),
            (tile + 1) * self.partials_per_tile(),
        )
    }
}

/// The sum over lanes does not depend on where their results stand.
proof fn lemma_lanes_can_be_moved(
    sum: spec_fn(Scalar, Scalar) -> Scalar,
    before: Vec3,
    partials: Seq<Vec4>,
    start: int,
    end: int,
    pixels: int,
    pixel: int,
    lanes: int,
)
    requires
        0 <= start,
        0 <= lanes,
        start + lanes * pixels <= end <= partials.len(),
        0 <= pixel < pixels,
    ensures
        lane_sum(sum, before, partials.subrange(start, end), 0, pixels, pixel, lanes) == lane_sum(
            sum,
            before,
            partials,
            start,
            pixels,
            pixel,
            lanes,
        ),
    decreases lanes,
{
    if lanes > 0 {
        assert(lanes * pixels == (lanes - 1) * pixels + pixels && 0 <= (lanes - 1) * pixels)
            by (nonlinear_arith)
            requires
                lanes >= 1,
                pixels >= 0,
        ;
        lemma_lanes_can_be_moved(sum, before, partials, start, end, pixels, pixel, lanes - 1);
    }
}

/// A wave of a batch adds to a tile what it adds to the tile alone.
proof fn lemma_batched_tiles_are_accepted_alone(
    state: WaveState,
    sum: spec_fn(Scalar, Scalar) -> Scalar,
    partials: Seq<Vec4>,
    tile: int,
)
    requires
        state.wf(),
        state.wave is Some,
        partials.len() == state.sums.len() * state.partials_per_tile(),
        0 <= tile < state.sums.len(),
    ensures
        state.alone(tile).accepted(sum, state.partials_of(partials, tile)) == state.accepted(
            sum,
            partials,
        ).alone(tile),
{
    let per_tile = state.partials_per_tile();
    let lanes = state.wave.unwrap().active_lanes as int;
    let pixels = state.pixel_count as int;
    let start = tile * per_tile;
    let end = (tile + 1) * per_tile;
    let single = state.alone(tile).accepted(sum, state.partials_of(partials, tile));
    let all = state.accepted(sum, partials).alone(tile);
    assert(0 <= per_tile) by (nonlinear_arith)
        requires
            per_tile == lanes * pixels,
            lanes >= 0,
            pixels >= 0,
    ;
    assert(0 <= start && start + per_tile == end && end <= partials.len()) by (nonlinear_arith)
        requires
            start == tile * per_tile,
            end == (tile + 1) * per_tile,
            0 <= tile < state.sums.len(),
            partials.len() == state.sums.len() * per_tile,
            0 <= per_tile,
    ;
    assert(state.sums[tile].len() == pixels);
    assert(0 * per_tile == 0);
    assert forall|p: int| 0 <= p < pixels implies #[trigger] single.sums[0][p] == all.sums[0][p] by {
        lemma_lanes_can_be_moved(
            sum,
            state.sums[tile][p],
            partials,
            start,
            end,
            pixels,
            p,
            lanes,
        );
    }
    assert(single.sums[0] =~= all.sums[0]);
    assert(single.sums =~= all.sums);
}

impl WaveState {
    /// The bake after as many waves as there are readings, when each wave has left
    /// the reading of its number.
    pub open spec fn after(
        self,
        sum: spec_fn(Scalar, Scalar) -> Scalar,
        readings: Seq<Seq<Vec4>>,
    ) -> WaveState
        decreases readings.len(),
    {
        if readings.len() == 0 {
            self
        } else {
            self.after(sum, readings.drop_last()).begun().accepted(sum, readings.last())
        }
    }

    /// The bake with wave `k` under way.
    pub open spec fn in_wave(
        self,
        sum: spec_fn(Scalar, Scalar) -> Scalar,
        readings: Seq<Seq<Vec4>>,
        k: int,
    ) -> WaveState {
        self.after(sum, readings.take(k)).begun()
    }

    /// Whether there is a wave for each reading, and each reading holds what its
    /// wave leaves for all tiles.
    pub open spec fn fits(
        self,
        sum: spec_fn(Scalar, Scalar) -> Scalar,
        readings: Seq<Seq<Vec4>>,
    ) -> bool {
        forall|k: int|
            0 <= k < readings.len() ==> {
                let state = #[trigger] self.in_wave(sum, readings, k);
                &&& self.after(sum, readings.take(k)).schedule.has_more()
                &&& readings[k].len() == self.sums.len() * state.partials_per_tile()
            }
    }

    /// What each wave leaves for one of the tiles.
    pub open spec fn readings_of(
        self,
        sum: spec_fn(Scalar, Scalar) -> Scalar,
        readings: Seq<Seq<Vec4>>,
        tile: int,
    ) -> Seq<Seq<Vec4>> {
        Seq::new(
            readings.len(),
            |k: int| self.in_wave(sum, readings, k).partials_of(readings[k], tile),
        )
    }
}

/// A bake stays in order when a wave begins and when its results are taken in.
proof fn lemma_waves_keep_order(
    state: WaveState,
    sum: spec_fn(Scalar, Scalar) -> Scalar,
    partials: Seq<Vec4>,
)
    requires
        state.wf(),
        state.wave is None,
        state.schedule.has_more(),
    ensures
        state.begun().wf(),
        state.begun().accepted(sum, partials).wf(),
        state.begun().accepted(sum, partials).wave is None,
        state.begun().accepted(sum, partials).sums.len() == state.sums.len(),
        state.begun().accepted(sum, partials).pixel_count == state.pixel_count,
{
    let schedule = state.schedule;
    lemma_next_run(schedule.runs);
    assert(schedule.advanced().runs == after_run(schedule.runs));
    let accepted = state.begun().accepted(sum, partials);
    assert forall|t: int| 0 <= t < accepted.sums.len() implies (#[trigger] accepted.sums[t]).len()
        == accepted.pixel_count by {
        assert(state.sums[t].len() == state.pixel_count);
    }
}

/// A bake stays in order over any number of waves.
pub(crate) proof fn lemma_bake_stays_in_order(
    state: WaveState,
    sum: spec_fn(Scalar, Scalar) -> Scalar,
    readings: Seq<Seq<Vec4>>,
)
    requires
        state.wf(),
        state.wave is None,
        state.fits(sum, readings),
    ensures
        state.after(sum, readings).wf(),
        state.after(sum, readings).wave is None,
        state.after(sum, readings).sums.len() == state.sums.len(),
        state.after(sum, readings).pixel_count == state.pixel_count,
    decreases readings.len(),
{
    if readings.len() > 0 {
        let fewer = readings.drop_last();
        let last = readings.len() - 1;
        lemma_fewer_readings_fit(state, sum, readings);
        lemma_bake_stays_in_order(state, sum, fewer);
        assert(readings.take(last) =~= fewer);
        assert(state.in_wave(sum, readings, last) == state.after(sum, fewer).begun());
        lemma_waves_keep_order(state.after(sum, fewer), sum, readings.last());
    }
}

/// Readings fit without the last one.
pub(crate) proof fn lemma_fewer_readings_fit(
    state: WaveState,
    sum: spec_fn(Scalar, Scalar) -> Scalar,
    readings: Seq<Seq<Vec4>>,
)
    requires
        state.fits(sum, readings),
        readings.len() > 0,
    ensures
        state.fits(sum, readings.drop_last()),
        forall|k: int|
            0 <= k < readings.len() - 1 ==> #[trigger] state.in_wave(sum, readings.drop_last(), k)
                == state.in_wave(sum, readings, k),
{
    let fewer = readings.drop_last();
    assert forall|k: int| 0 <= k < fewer.len() implies {
        let wave = #[trigger] state.in_wave(sum, fewer, k);
        &&& wave == state.in_wave(sum, readings, k)
        &&& state.after(sum, fewer.take(k)).schedule.has_more()
        &&& fewer[k].len() == state.sums.len() * wave.partials_per_tile()
    } by {
        assert(fewer.take(k) =~= readings.take(k));
        assert(state.in_wave(sum, readings, k) == state.in_wave(sum, fewer, k));
    }
}

/// Over all waves of a batch, a tile is baked as it is alone: from what the
/// waves have left for it, a bake of that tile by itself comes to the same
/// pixels, through the same waves.
pub proof fn lemma_batches_bake_tiles_alone(
    state: WaveState,
    sum: spec_fn(Scalar, Scalar) -> Scalar,
    readings: Seq<Seq<Vec4>>,
    tile: int,
)
    requires
        state.wf(),
        state.wave is None,
        state.fits(sum, readings),
        0 <= tile < state.sums.len(),
    ensures
        state.alone(tile).after(sum, state.readings_of(sum, readings, tile)) == state.after(
            sum,
            readings,
        ).alone(tile),
        forall|k: int|
            0 <= k < readings.len() ==> #[trigger] state.alone(tile).in_wave(
                sum,
                state.readings_of(sum, readings, tile),
                k,
            ) == state.in_wave(sum, readings, k).alone(tile),
        state.after(sum, readings).is_done() ==> state.alone(tile).after(
            sum,
            state.readings_of(sum, readings, tile),
        ).is_done(),
    decreases readings.len(),
{
    let single = state.alone(tile);
    let parts = state.readings_of(sum, readings, tile);
    if readings.len() == 0 {
        assert(parts.len() == 0);
    } else {
        let fewer = readings.drop_last();
        let last = readings.len() - 1;
        lemma_fewer_readings_fit(state, sum, readings);
        lemma_batches_bake_tiles_alone(state, sum, fewer, tile);
        lemma_bake_stays_in_order(state, sum, fewer);
        let fewer_parts = state.readings_of(sum, fewer, tile);
        assert(parts.drop_last() =~= fewer_parts) by {
            assert forall|k: int| 0 <= k < last implies #[trigger] parts.drop_last()[k]
                == fewer_parts[k] by {
                assert(state.in_wave(sum, fewer, k) == state.in_wave(sum, readings, k));
            }
        }
        assert(readings.take(last) =~= fewer);
        assert(parts.take(last) =~= fewer_parts);
        let before = state.after(sum, fewer);
        let wave = before.begun();
        assert(wave == state.in_wave(sum, readings, last));
        lemma_waves_keep_order(before, sum, readings.last());
        assert(before.alone(tile).begun() =~= wave.alone(tile));
        assert(single.in_wave(sum, parts, last) == wave.alone(tile));
        lemma_batched_tiles_are_accepted_alone(wave, sum, readings.last(), tile);
        assert(parts.last() == wave.partials_of(readings.last(), tile));
        assert forall|k: int| 0 <= k < readings.len() implies #[trigger] single.in_wave(
            sum,
            parts,
            k,
        ) == state.in_wave(sum, readings, k).alone(tile) by {
            if k < last {
                assert(parts.take(k) =~= fewer_parts.take(k));
                assert(single.in_wave(sum, parts, k) == single.in_wave(sum, fewer_parts, k));
                assert(state.in_wave(sum, fewer, k) == state.in_wave(sum, readings, k));
            }
        }
    }
}

/// How far a progressive bake has come with a batch of samples.
#[derive(Clone, Copy, Debug, PartialEq, Eq, Structural)]
pub enum Stage {
    /// No batch is under way.
    Idle,
    /// Passes are left to carry out, or their results are not taken in yet.
    Dispatching { batch: SampleBatch, chunks: Runs },
    /// The results are taken in and shown.
    Shown,
}

/// A bake that shows what it has after every batch of samples.
#[derive(Debug)]
pub struct ProgressiveBake {
    pub base: GpuParams,
    pub pixel_count: usize,
    pub schedule: ProgressiveSchedule,
    pub stage: Stage,
    pub dispatch_count: u32,
    pub sums: Vec<Vec3>,
    pub means: Vec<Vec3>,
}

/// A [`ProgressiveBake`] with its images as sequences.
#[verifier::ext_equal]
pub struct ProgressiveState {
    pub base: GpuParams,
    pub pixel_count: usize,
    pub schedule: ProgressiveSchedule,
    pub stage: Stage,
    pub dispatch_count: u32,
    pub sums: Seq<Vec3>,
    pub means: Seq<Vec3>,
}

impl View for ProgressiveBake {
    type V = ProgressiveState;

    open spec fn view(&self) -> ProgressiveState {
        ProgressiveState {
            base: self.base,
            pixel_count: self.pixel_count,
            schedule: self.schedule,
            stage: self.stage,
            dispatch_count: self.dispatch_count,
            sums: self.sums@,
            means: self.means@,
        }
    }
}

/// The rows of an image in runs, none of them handed out; no run is empty.
pub open spec fn row_runs(height: u32, rows_per_dispatch: u32) -> Runs {
    Runs {
        total: height,
        size: if rows_per_dispatch < 1 {
            1
        } else {
            rows_per_dispatch
        },
        next: 0,
        count: 0,
    }
}

/// Starts to hand out the rows of an image.
fn start_rows(height: u32, rows_per_dispatch: u32) -> (chunks: Runs)
    ensures
        chunks.wf(),
        chunks == row_runs(height, rows_per_dispatch),
{
    let size: u32 = if rows_per_dispatch < 1 {
        1
    } else {
        rows_per_dispatch
    };
    Runs::new(height, size)
}

impl ProgressiveState {
    /// The images have their pixels, the results of a batch fit into a buffer,
    /// and a batch under way is the one that comes next.
    pub open spec fn wf(self) -> bool {
        &&& self.schedule.wf()
        &&& self.schedule.samples == self.base.target_samples
        &&& self.sums.len() == self.pixel_count
        &&& self.means.len() == self.pixel_count
        &&& self.pixel_count == self.base.width * self.base.height
        &&& self.pixel_count * self.schedule.max_lanes * OUTPUT_PIXEL_BYTES <= u64::MAX
        &&& match self.stage {
            Stage::Idle => true,
            Stage::Dispatching { batch, chunks } => {
                &&& chunks.wf()
                &&& chunks.total == self.base.height
                &&& self.schedule.completed_samples < self.schedule.samples
                &&& batch.sample_offset == self.schedule.completed_samples
                &&& batch.sample_limit == self.schedule.completed_samples
                    + self.schedule.active_batch()
                &&& 1 <= batch.active_lanes <= self.schedule.max_lanes
            },
            Stage::Shown => self.schedule.completed_samples < self.schedule.samples,
        }
    }

    /// The bake before its first batch.
    pub open spec fn start(
        config: ResolvedBakeConfig,
        scene: SceneGpuParams,
        pixel_count: usize,
        max_lanes: u32,
        update_interval_nanos: u128,
        math: ArithmeticModel,
    ) -> ProgressiveState {
        ProgressiveState {
            base: sample_parallel_params_spec(config, scene, config.samples, 1, math),
            pixel_count,
            schedule: ProgressiveSchedule::of(config.samples, max_lanes, update_interval_nanos),
            stage: Stage::Idle,
            dispatch_count: 0,
            sums: black_image(pixel_count as nat),
            means: black_image(pixel_count as nat),
        }
    }

    /// Whether samples are left.
    pub open spec fn has_more(self) -> bool {
        self.schedule.completed_samples < self.schedule.samples
    }

    /// The bake with its next batch under way.
    pub open spec fn begun(self, config: ResolvedBakeConfig) -> ProgressiveState {
        let batch = self.schedule.batch_spec(config);
        ProgressiveState {
            stage: Stage::Dispatching {
                batch,
                chunks: row_runs(self.base.height, batch.rows_per_dispatch),
            },
            ..self
        }
    }

    /// Whether the batch under way has rows left to dispatch.
    pub open spec fn has_rows(self) -> bool {
        self.stage matches Stage::Dispatching { batch, chunks } && chunks.next < chunks.total
    }

    /// The parameters of the pass over the next rows of the batch under way.
    pub open spec fn upcoming(self) -> GpuParams {
        let batch = self.stage->batch;
        let chunks = self.stage->chunks;
        let rows = run_spec(chunks.total, chunks.size, chunks.count as int);
        GpuParams {
            samples: batch.samples_per_lane,
            sample_offset: batch.sample_offset,
            sample_limit: batch.sample_limit,
            sample_lanes: batch.active_lanes,
            y_offset: rows.start,
            active_height: (rows.end - rows.start) as u32,
            ..self.base
        }
    }

    /// The bake with the next rows dispatched.
    pub open spec fn advanced(self) -> ProgressiveState {
        let chunks = self.stage->chunks;
        ProgressiveState {
            stage: Stage::Dispatching {
                batch: self.stage->batch,
                chunks: Runs {
                    next: run_spec(chunks.total, chunks.size, chunks.count as int).end,
                    count: (chunks.count + 1) as u32,
                    ..chunks
                },
            },
            dispatch_count: (self.dispatch_count + 1) as u32,
            ..self
        }
    }

    /// The bake with the results of the batch under way taken in.
    pub open spec fn accepted(
        self,
        sum: spec_fn(Scalar, Scalar) -> Scalar,
        mean: spec_fn(Scalar, u32) -> Scalar,
        partials: Seq<Vec4>,
    ) -> ProgressiveState {
        let batch = self.stage->batch;
        let sums = with_lanes(sum, self.sums, partials, 0, batch.active_lanes as int);
        ProgressiveState {
            stage: Stage::Shown,
            sums,
            means: averaged(mean, sums, batch.sample_limit),
            ..self
        }
    }

    /// The bake with its batch ended, after the given time.
    pub open spec fn ended(self, elapsed_nanos: u128) -> ProgressiveState {
        ProgressiveState {
            schedule: self.schedule.after_batch(elapsed_nanos),
            stage: Stage::Idle,
            ..self
        }
    }

    /// The bake with another number of dispatches.
    pub open spec fn with_dispatches(self, dispatch_count: u32) -> ProgressiveState {
        ProgressiveState { dispatch_count, ..self }
    }
}

impl ProgressiveBake {
    /// Starts a bake of an image of `pixel_count` pixels.
    pub fn new<F: Fn(Operation, Scalar, Scalar) -> Scalar, N: Fn(Vec3) -> Option<Vec3>>(
        config: &ResolvedBakeConfig,
        scene: SceneGpuParams,
        pixel_count: usize,
        max_lanes: u32,
        update_interval_nanos: u128,
        math: &Arithmetic<F, N>,
    ) -> (bake: ProgressiveBake)
        requires
            math.wf(),
            pixel_count == config.width * config.height,
            max_lanes > 0,
            pixel_count * max_lanes * OUTPUT_PIXEL_BYTES <= u64::MAX,
            update_interval_nanos <= MAX_NANOS,
        ensures
            bake@.wf(),
            bake@ == ProgressiveState::start(
                *config,
                scene,
                pixel_count,
                max_lanes,
                update_interval_nanos,
                math.model(),
            ),
    {
        ProgressiveBake {
            base: sample_parallel_params(config, scene, config.samples, 1, math),
            pixel_count,
            schedule: ProgressiveSchedule::new(config.samples, max_lanes, update_interval_nanos),
            stage: Stage::Idle,
            dispatch_count: 0,
            sums: black_pixels(pixel_count),
            means: black_pixels(pixel_count),
        }
    }

    /// Begins the next batch; `false` where there is none.  A bake with samples
    /// left stops where it is cancelled.
    pub fn begin_batch(&mut self, config: &ResolvedBakeConfig, cancelled: bool) -> (begun: Result<
        bool,
        GpuBakeError,
    >)
        requires
            old(self)@.wf(),
            old(self).stage == Stage::Idle,
            config.samples == old(self).base.target_samples,
            traces_per_row(
                config.width,
                config.samples,
                config.max_repeat_radius,
                config.enable_shadows,
            ) <= u64::MAX,
        ensures
            final(self)@.wf(),
            begun == if !old(self)@.has_more() {
                Ok::<bool, GpuBakeError>(false)
            } else if cancelled {
                Err(GpuBakeError::Cancelled)
            } else {
                Ok(true)
            },
            final(self)@ == if old(self)@.has_more() && !cancelled {
                old(self)@.begun(*config)
            } else {
                old(self)@
            },
    {
        match self.schedule.begin_batch(config) {
            None => Ok(false),
            Some(batch) => {
                match check_flag(cancelled) {
                    Ok(_) => {},
                    Err(error) => return Err(error),
                }
                let chunks = start_rows(self.base.height, batch.rows_per_dispatch);
                self.stage = Stage::Dispatching { batch, chunks };
                Ok(true)
            },
        }
    }

    /// The pass over the next rows of the batch under way, or `None` where all
    /// rows are dispatched.  A batch with rows left stops where the bake is
    /// cancelled.
    pub fn next_pass(&mut self, cancelled: bool) -> (pass: Result<Option<Pass>, GpuBakeError>)
        requires
            old(self)@.wf(),
            old(self).stage is Dispatching,
            old(self)@.has_rows() ==> old(self).dispatch_count < u32::MAX,
        ensures
            final(self)@.wf(),
            final(self).stage is Dispatching,
            pass == if !old(self)@.has_rows() {
                Ok::<Option<Pass>, GpuBakeError>(None)
            } else if cancelled {
                Err(GpuBakeError::Cancelled)
            } else {
                Ok(Some(Pass::of(old(self)@.upcoming())))
            },
            final(self)@ == if old(self)@.has_rows() && !cancelled {
                old(self)@.advanced()
            } else {
                old(self)@
            },
    {
        match self.stage {
            Stage::Dispatching { batch, chunks } => {
                if chunks.next >= chunks.total {
                    return Ok(None);
                }
                match check_flag(cancelled) {
                    Ok(_) => {},
                    Err(error) => return Err(error),
                }
                let mut left = chunks;
                match next_rows(&mut left) {
                    Some(rows) => {
                        self.stage = Stage::Dispatching { batch, chunks: left };
                        self.dispatch_count = self.dispatch_count + 1;
                        let mut params = self.base;
                        params.samples = batch.samples_per_lane;
                        params.sample_offset = batch.sample_offset;
                        params.sample_limit = batch.sample_limit;
                        params.sample_lanes = batch.active_lanes;
                        params.y_offset = rows.y_offset;
                        params.active_height = rows.active_height;
                        Ok(Some(Pass::new(params)))
                    },
                    None => Ok(None),
                }
            },
            _ => Ok(None),
        }
    }

    /// Bytes that the batch under way leaves in its buffer.
    pub fn readback_bytes(&self) -> (bytes: u64)
        requires
            self@.wf(),
            self.stage is Dispatching,
        ensures
            bytes == self.stage->batch.active_lanes * self.pixel_count * OUTPUT_PIXEL_BYTES,
            bytes == self.stage->batch.active_lanes * self.pixel_count * 16,
    {
        let lanes: u32 = match self.stage {
            Stage::Dispatching { batch, chunks: _ } => batch.active_lanes,
            _ => 0,
        };
        assert(0 <= lanes * self.pixel_count <= lanes * self.pixel_count * OUTPUT_PIXEL_BYTES
            <= self.pixel_count * self.schedule.max_lanes * OUTPUT_PIXEL_BYTES)
            by (nonlinear_arith)
            requires
                lanes <= self.schedule.max_lanes,
                OUTPUT_PIXEL_BYTES >= 1,
        ;
        lanes as u64 * self.pixel_count as u64 * OUTPUT_PIXEL_BYTES
    }

    /// Takes in the results of the batch under way and shows the means of all
    /// samples so far.
    pub fn accept<F: Fn(Operation, Scalar, Scalar) -> Scalar, N: Fn(Vec3) -> Option<Vec3>>(
        &mut self,
        partials: &Vec<Vec4>,
        math: &Arithmetic<F, N>,
    ) -> (frame: ProgressiveFrame)
        requires
            old(self)@.wf(),
            old(self).stage is Dispatching,
            !old(self)@.has_rows(),
            math.wf(),
            partials@.len() == old(self).stage->batch.active_lanes * old(self).pixel_count,
        ensures
            final(self)@.wf(),
            final(self)@ == old(self)@.accepted(math.model().sums(), math.model().means(), partials@),
            frame.completed_samples == old(self).stage->batch.sample_limit,
            frame.total_samples == old(self).base.target_samples,
            frame.width == old(self).base.width,
            frame.height == old(self).base.height,
            frame.pixels@ == final(self)@.means,
            is_divided(
                math.model(),
                final(self)@.sums,
                frame.completed_samples,
                frame.pixels@,
            ),
    {
        let ghost after = self@.accepted(math.model().sums(), math.model().means(), partials@);
        let mut completed_samples: u32 = 0;
        if let Stage::Dispatching { batch, chunks: _ } = self.stage {
            add_lanes(&mut self.sums, partials, 0, batch.active_lanes, math);
            assert(self.sums@ =~= after.sums);
            completed_samples = batch.sample_limit;
        }
        self.means = average_pixels(&self.sums, completed_samples, math);
        self.stage = Stage::Shown;
        assert(self@ =~= after);
        ProgressiveFrame {
            completed_samples,
            total_samples: self.base.target_samples,
            width: self.base.width,
            height: self.base.height,
            pixels: copy_all(&self.means),
        }
    }

    /// Ends a batch that took `elapsed_nanos` and fits the size of the next one
    /// to it.
    pub fn end_batch(&mut self, elapsed_nanos: u128)
        requires
            old(self)@.wf(),
            old(self).stage == Stage::Shown,
        ensures
            final(self)@.wf(),
            final(self)@ == old(self)@.ended(elapsed_nanos),
    {
        self.schedule.finish_batch(elapsed_nanos);
        self.stage = Stage::Idle;
    }

    /// What the bake has when all samples are taken.
    pub fn finish(self, config: &ResolvedBakeConfig, scene: SceneGpuParams, times: BakeTimes)
        -> (result: GpuBakeResult)
        requires
            self@.wf(),
            self.stage == Stage::Idle,
            !self@.has_more(),
            counts_fit(*config),
            traces_per_row(
                config.width,
                config.samples,
                config.max_repeat_radius,
                config.enable_shadows,
            ) <= u64::MAX,
        ensures
            result.pixels@ == self@.means,
            result.stats == bake_stats_spec(
                *config,
                scene.triangle_count,
                scene.node_count,
                image_rows(*config),
                self.dispatch_count,
                1,
                config.samples,
                times,
            ),
    {
        let stats = bake_stats(
            config,
            scene.triangle_count,
            scene.node_count,
            rows_per_dispatch(config),
            self.dispatch_count,
            1,
            config.samples,
            times,
        );
        GpuBakeResult { pixels: self.means, stats }
    }
}

/// Rows that one dispatch with all samples covers.
pub open spec fn image_rows(config: ResolvedBakeConfig) -> u32 {
    dispatch_rows(
        config.height as int,
        traces_per_row(
            config.width,
            config.samples,
            config.max_repeat_radius,
            config.enable_shadows,
        ),
    ) as u32
}

/// A batch adds to each pixel what its lanes have left for that pixel and
/// nothing else, in the order of the lanes, and shows the mean over all samples
/// up to the end of the batch.
pub proof fn lemma_batches_are_added_in_order(
    state: ProgressiveState,
    sum: spec_fn(Scalar, Scalar) -> Scalar,
    mean: spec_fn(Scalar, u32) -> Scalar,
    partials: Seq<Vec4>,
    earlier: Seq<Vec3>,
    pixel: int,
)
    requires
        state.wf(),
        state.stage is Dispatching,
        0 <= pixel < state.pixel_count,
        state.sums[pixel] == total(sum, earlier),
    ensures
        ({
            let batch = state.stage->batch;
            let after = state.accepted(sum, mean, partials);
            let all = total(
                sum,
                earlier + lane_colors(
                    partials,
                    0,
                    state.pixel_count as int,
                    pixel,
                    batch.active_lanes as int,
                ),
            );
            let count = batch.sample_limit;
            &&& after.sums[pixel] == all
            &&& after.means[pixel] == Vec3 {
                x: mean(all.x, count),
                y: mean(all.y, count),
                z: mean(all.z, count),
            }
        }),
{
    lemma_lanes_are_added_in_order(
        sum,
        earlier,
        partials,
        0,
        state.pixel_count as int,
        pixel,
        state.stage->batch.active_lanes as int,
    );
}

/// A bake that takes all samples of a few rows at a time.
#[derive(Clone, Copy, Debug, PartialEq)]
pub struct RowBake {
    pub base: GpuParams,
    pub rows_per_dispatch: u32,
    pub chunks: Runs,
}

/// A pass over some rows, and where they stand in the image.
#[derive(Clone, Copy, Debug, PartialEq)]
pub struct RowPass {
    pub pass: Pass,
    pub rows: RowChunk,
    pub range: ByteRange,
}

impl RowBake {
    /// The rows are those of the image, whose pixels can be numbered.
    pub open spec fn wf(self) -> bool {
        &&& self.chunks.wf()
        &&& self.chunks.total == self.base.height
        &&& self.base.width * self.base.height <= u32::MAX
    }

    /// The bake before its first pass.  Its passes leave means, not sums.
    pub open spec fn start(
        config: ResolvedBakeConfig,
        scene: SceneGpuParams,
        math: ArithmeticModel,
    ) -> RowBake {
        RowBake {
            base: GpuParams {
                sums_samples: 0,
                ..sample_parallel_params_spec(config, scene, config.samples, 1, math)
            },
            rows_per_dispatch: image_rows(config),
            chunks: row_runs(config.height, image_rows(config)),
        }
    }

    /// Whether rows are left.
    pub open spec fn has_more(self) -> bool {
        self.chunks.next < self.chunks.total
    }

    /// The rows that come next.
    pub open spec fn upcoming_rows(self) -> RowChunk {
        let run = run_spec(self.chunks.total, self.chunks.size, self.chunks.count as int);
        RowChunk {
            y_offset: run.start,
            active_height: (run.end - run.start) as u32,
            completed_rows: run.end,
        }
    }

    /// The pass that comes next.
    pub open spec fn upcoming(self) -> RowPass {
        let rows = self.upcoming_rows();
        RowPass {
            pass: Pass::of(
                GpuParams {
                    y_offset: rows.y_offset,
                    active_height: rows.active_height,
                    ..self.base
                },
            ),
            rows,
            range: ByteRange {
                offset: (rows.y_offset * self.base.width * OUTPUT_PIXEL_BYTES) as u64,
                size: (rows.active_height * self.base.width * OUTPUT_PIXEL_BYTES) as u64,
            },
        }
    }

    /// Starts a bake of an image whose pixels can be numbered.
    pub fn new<F: Fn(Operation, Scalar, Scalar) -> Scalar, N: Fn(Vec3) -> Option<Vec3>>(
        config: &ResolvedBakeConfig,
        scene: SceneGpuParams,
        math: &Arithmetic<F, N>,
    ) -> (bake: RowBake)
        requires
            math.wf(),
            config.width * config.height <= u32::MAX,
            traces_per_row(
                config.width,
                config.samples,
                config.max_repeat_radius,
                config.enable_shadows,
            ) <= u64::MAX,
        ensures
            bake.wf(),
            bake == RowBake::start(*config, scene, math.model()),
    {
        let mut base = sample_parallel_params(config, scene, config.samples, 1, math);
        base.sums_samples = 0;
        let rows_per_dispatch: u32 = rows_per_dispatch(config);
        RowBake { base, rows_per_dispatch, chunks: start_rows(config.height, rows_per_dispatch) }
    }

    /// The next pass, or `None` where all rows are dispatched.
    pub fn next_pass(&mut self) -> (pass: Option<RowPass>)
        requires
            old(self).wf(),
        ensures
            final(self).wf(),
            final(self).base == old(self).base,
            final(self).rows_per_dispatch == old(self).rows_per_dispatch,
            !old(self).has_more() ==> pass is None && *final(self) == *old(self),
            old(self).has_more() ==> {
                &&& pass == Some(old(self).upcoming())
                &&& final(self).chunks.size == old(self).chunks.size
                &&& final(self).chunks.next == old(self).upcoming_rows().completed_rows
                &&& final(self).chunks.count == old(self).chunks.count + 1
                &&& old(self).upcoming_rows().y_offset == old(self).chunks.next
                &&& old(self).upcoming_rows().y_offset
                    < old(self).upcoming_rows().completed_rows <= old(self).base.height
            },
    {
        match next_rows(&mut self.chunks) {
            Some(rows) => {
                let mut params = self.base;
                params.y_offset = rows.y_offset;
                params.active_height = rows.active_height;
                assert(self.base.width * (rows.y_offset + rows.active_height) <= self.base.width
                    * self.base.height) by (nonlinear_arith)
                    requires
                        rows.y_offset + rows.active_height <= self.base.height,
                ;
                let range = row_bytes(self.base.width, rows.y_offset, rows.active_height);
                Some(RowPass { pass: Pass::new(params), rows, range })
            },
            None => None,
        }
    }

    /// What a pass has left of the image.
    pub fn chunk(&self, pass: &RowPass, rgba: &Vec<Vec4>) -> (chunk: ProgressChunk)
        ensures
            chunk.y_offset == pass.rows.y_offset,
            chunk.height == pass.rows.active_height,
            chunk.width == self.base.width,
            chunk.completed_rows == pass.rows.completed_rows,
            chunk.total_rows == self.base.height,
            chunk.pixels@ == colors(rgba@),
    {
        ProgressChunk {
            y_offset: pass.rows.y_offset,
            height: pass.rows.active_height,
            width: self.base.width,
            completed_rows: pass.rows.completed_rows,
            total_rows: self.base.height,
            pixels: rgb_pixels(rgba),
        }
    }

    /// What the bake has when all rows are dispatched and the image is read.
    pub fn finish(
        self,
        config: &ResolvedBakeConfig,
        scene: SceneGpuParams,
        rgba: &Vec<Vec4>,
        times: BakeTimes,
    ) -> (result: GpuBakeResult)
        requires
            self.wf(),
            !self.has_more(),
            counts_fit(*config),
        ensures
            result.pixels@ == colors(rgba@),
            result.stats == bake_stats_spec(
                *config,
                scene.triangle_count,
                scene.node_count,
                self.rows_per_dispatch,
                self.chunks.count,
                1,
                config.samples,
                times,
            ),
            self.chunks.count == ceil_div(self.base.height as int, self.chunks.size as int),
    {
        proof {
            lemma_runs_are_counted(self.chunks);
        }
        let stats = bake_stats(
            config,
            scene.triangle_count,
            scene.node_count,
            self.rows_per_dispatch,
            self.chunks.count,
            1,
            config.samples,
            times,
        );
        GpuBakeResult { pixels: rgb_pixels(rgba), stats }
    }
}

/// The passes of a bake row by row cover the image without a gap: the bytes of
/// each begin where those before it end, and those of the last end with the
/// image.
pub proof fn lemma_row_ranges_adjoin(bake: RowBake)
    requires
        bake.wf(),
        bake.has_more(),
    ensures
        ({
            let range = bake.upcoming().range;
            let rows = bake.upcoming_rows();
            let bytes_per_row = bake.base.width * OUTPUT_PIXEL_BYTES;
            &&& range.offset == bake.chunks.next * bytes_per_row
            &&& range.offset + range.size == rows.completed_rows * bytes_per_row
            &&& rows.completed_rows == bake.base.height <==> bake.chunks.total
                - bake.chunks.next <= bake.chunks.size
        }),
{
    let width = bake.base.width as int;
    let rows = bake.upcoming_rows();
    let count = bake.chunks.count as int;
    let size = bake.chunks.size as int;
    assert((count + 1) * size == count * size + size) by (nonlinear_arith);
    let start = rows.y_offset as int;
    let height = rows.active_height as int;
    assert(start + height == rows.completed_rows);
    assert(0 <= start * width && 0 <= height * width && start * width + height * width <= width
        * bake.base.height) by (nonlinear_arith)
        requires
            0 <= start,
            0 <= height,
            0 <= width,
            start + height <= bake.base.height,
    ;
    assert(start * width * OUTPUT_PIXEL_BYTES == start * (width * OUTPUT_PIXEL_BYTES) && start
        * width * OUTPUT_PIXEL_BYTES + height * width * OUTPUT_PIXEL_BYTES == (start + height) * (
    width * OUTPUT_PIXEL_BYTES)) by (nonlinear_arith);
}

/// The atlas with the given tiles in their places, and black elsewhere.
pub open spec fn atlas_of(grid: AtlasGrid, tiles: Seq<Seq<Vec3>>) -> Seq<Vec3> {
    Seq::new(
        grid.pixel_count as nat,
        |i: int|
            {
                let x = i % grid.atlas_width as int;
                let y = i / grid.atlas_width as int;
                let tile = tile_of(grid, x, y);
                if tile < tiles.len() {
                    tile_pixel(grid, tiles[tile], x, y)
                } else {
                    black()
                }
            },
    )
}

/// Where a place in a sequence stands in an image.
proof fn lemma_place_in_image(i: int, width: int, height: int)
    requires
        0 <= i < width * height,
        0 <= width,
        0 <= height,
    ensures
        0 <= i % width < width,
        0 <= i / width < height,
        i / width * width + i % width == i,
{
    assert(width > 0) by (nonlinear_arith)
        requires
            0 <= i < width * height,
            0 <= width,
            0 <= height,
    ;
    lemma_fundamental_div_mod(i, width);
    lemma_mod_bound(i, width);
    let q = i / width;
    assert(width * q == q * width) by (nonlinear_arith);
    assert(0 <= q < height) by (nonlinear_arith)
        requires
            i == width * q + i % width,
            0 <= i % width < width,
            0 <= i < width * height,
    ;
}

/// Putting the next tile in its place gives the atlas with one more tile.
proof fn lemma_blit_adds_a_tile(
    grid: AtlasGrid,
    tiles: Seq<Seq<Vec3>>,
    tile: Seq<Vec3>,
    after: Seq<Vec3>,
)
    requires
        grid.wf(),
        is_blitted(grid, atlas_of(grid, tiles), tile, tiles.len() as int, after),
    ensures
        after == atlas_of(grid, tiles.push(tile)),
{
    let before = atlas_of(grid, tiles);
    let all = atlas_of(grid, tiles.push(tile));
    let width = grid.atlas_width as int;
    assert forall|i: int| 0 <= i < grid.pixel_count implies #[trigger] after[i] == all[i] by {
        let x = i % width;
        let y = i / width;
        lemma_place_in_image(i, width, grid.atlas_height as int);
        assert(pixel_at(after, width, x, y) == after[i]);
        assert(pixel_at(before, width, x, y) == before[i]);
        lemma_tiles_fill_the_atlas(grid, x, y);
    }
    assert(after =~= all);
}

/// A bake of an atlas, tile by tile.
pub struct AtlasBake {
    pub grid: AtlasGrid,
    pub batches: Runs,
    pub run: Option<Run>,
    pub completed_tiles: u32,
    pub atlas: Vec<Vec3>,
    pub stats: Option<GpuBakeStats>,
    /// The images of the tiles that are complete.
    pub tiles: Ghost<Seq<Seq<Vec3>>>,
}

/// An [`AtlasBake`] with its image as a sequence.
#[verifier::ext_equal]
pub struct AtlasState {
    pub grid: AtlasGrid,
    pub batches: Runs,
    pub run: Option<Run>,
    pub completed_tiles: u32,
    pub atlas: Seq<Vec3>,
    pub stats: Option<GpuBakeStats>,
    pub tiles: Seq<Seq<Vec3>>,
}

impl View for AtlasBake {
    type V = AtlasState;

    open spec fn view(&self) -> AtlasState {
        AtlasState {
            grid: self.grid,
            batches: self.batches,
            run: self.run,
            completed_tiles: self.completed_tiles,
            atlas: self.atlas@,
            stats: self.stats,
            tiles: self.tiles@,
        }
    }
}

impl AtlasState {
    /// The tiles that are complete are in their places and the rest of the atlas
    /// is black.  Complete are the tiles of the batches before the one under way,
    /// and some of that.
    pub open spec fn wf(self) -> bool {
        &&& self.grid.wf()
        &&& self.tiles.len() == self.completed_tiles
        &&& self.atlas == atlas_of(self.grid, self.tiles)
        &&& self.batches.wf()
        &&& self.batches.total == self.grid.light_count
        &&& match self.run {
            Some(run) => {
                &&& run.start <= self.completed_tiles < run.end
                &&& run.end == self.batches.next
            },
            None => self.completed_tiles == self.batches.next,
        }
        &&& self.stats is Some <==> self.completed_tiles > 0
        &&& self.batches.next <= self.batches.total
    }

    /// Whether batches are left.
    pub open spec fn has_more(self) -> bool {
        self.batches.next < self.batches.total
    }

    /// The batch that comes next.
    pub open spec fn upcoming(self) -> Run {
        run_spec(self.batches.total, self.batches.size, self.batches.count as int)
    }

    /// The bake with its next batch under way.
    pub open spec fn begun(self) -> AtlasState {
        AtlasState {
            batches: Runs {
                next: self.upcoming().end,
                count: (self.batches.count + 1) as u32,
                ..self.batches
            },
            run: Some(self.upcoming()),
            ..self
        }
    }

    /// The totals with one more tile.
    pub open spec fn stats_with(self, tile: GpuBakeStats) -> GpuBakeStats {
        match self.stats {
            Some(so_far) => merged(so_far, tile, self.grid.atlas_width, self.grid.atlas_height),
            None => GpuBakeStats {
                width: self.grid.atlas_width,
                height: self.grid.atlas_height,
                ..tile
            },
        }
    }
}

impl AtlasBake {
    /// Starts a bake, with up to `capacity` tiles in a batch.  The image is put
    /// together in `space`, which is empty but may have room set aside.
    pub fn new(grid: AtlasGrid, capacity: u32, space: Vec<Vec3>) -> (bake: AtlasBake)
        requires
            grid.wf(),
            capacity > 0,
            space@.len() == 0,
        ensures
            bake@.wf(),
            bake@ == (AtlasState {
                grid,
                batches: Runs { total: grid.light_count, size: capacity, next: 0, count: 0 },
                run: None,
                completed_tiles: 0,
                atlas: black_image(grid.pixel_count as nat),
                stats: None,
                tiles: Seq::empty(),
            }),
    {
        let batches = Runs::new(grid.light_count, capacity);
        let mut atlas = space;
        let zero = Scalar::zero();
        let mut next: usize = 0;
        assert(atlas@ =~= black_image(0));
        while next < grid.pixel_count
            invariant
                zero == (Scalar { bits: ZERO_BITS }),
                next <= grid.pixel_count,
                atlas@ == black_image(next as nat),
            decreases grid.pixel_count - next,
        {
            atlas.push(Vec3 { x: zero, y: zero, z: zero });
            assert(atlas@ =~= black_image((next + 1) as nat));
            next += 1;
        }
        proof {
            let empty: Seq<Seq<Vec3>> = Seq::empty();
            assert forall|i: int| 0 <= i < grid.pixel_count implies #[trigger] atlas_of(
                grid,
                empty,
            )[i] == black() by {
                let x = i % grid.atlas_width as int;
                let y = i / grid.atlas_width as int;
                lemma_place_in_image(i, grid.atlas_width as int, grid.atlas_height as int);
                lemma_tiles_fill_the_atlas(grid, x, y);
            }
            assert(atlas@ =~= atlas_of(grid, empty));
        }
        AtlasBake {
            grid,
            batches,
            run: None,
            completed_tiles: 0,
            atlas,
            stats: None,
            tiles: Ghost(Seq::empty()),
        }
    }

    /// Begins the next batch and tells its tiles, or `None` where there is none.
    /// A bake with tiles left stops where it is cancelled.
    pub fn begin_batch(&mut self, cancelled: bool) -> (run: Result<Option<Run>, GpuBakeError>)
        requires
            old(self)@.wf(),
            old(self).run is None,
        ensures
            final(self)@.wf(),
            run == if !old(self)@.has_more() {
                Ok::<Option<Run>, GpuBakeError>(None)
            } else if cancelled {
                Err(GpuBakeError::Cancelled)
            } else {
                Ok(Some(old(self)@.upcoming()))
            },
            final(self)@ == if old(self)@.has_more() && !cancelled {
                old(self)@.begun()
            } else {
                old(self)@
            },
    {
        if self.batches.next >= self.batches.total {
            return Ok(None);
        }
        match check_flag(cancelled) {
            Ok(_) => {},
            Err(error) => return Err(error),
        }
        let run = self.batches.next_run();
        self.run = run;
        Ok(run)
    }

    /// The settings of each tile of the batch under way: the light of a tile is
    /// the one at its place in the grid of lights.
    pub fn tile_configs<
        F: Fn(Operation, Scalar, Scalar) -> Scalar,
        N: Fn(Vec3) -> Option<Vec3>,
        S: Fn(Scalar) -> Scalar,
        C: Fn(Scalar) -> Scalar,
    >(
        &self,
        config: &ResolvedBakeConfig,
        math: &LatlongMath<F, N, S, C>,
    ) -> (configs: Vec<ResolvedBakeConfig>)
        requires
            self@.wf(),
            self.run is Some,
            math.wf(),
        ensures
            configs@.len() == self.run.unwrap().end - self.run.unwrap().start,
            forall|i: int|
                0 <= i < configs@.len() ==> #[trigger] configs@[i] == config.tile_config(
                    (self.run.unwrap().start + i) % self.grid.light_width as int,
                    (self.run.unwrap().start + i) / self.grid.light_width as int,
                    math.model().directions(),
                ),
            forall|x: int, y: int|
                0 <= x < self.grid.light_width && 0 <= y && self.run.unwrap().start <= y
                    * self.grid.light_width + x < self.run.unwrap().end
                    ==> #[trigger] config.tile_config(x, y, math.model().directions())
                    == configs@[y * self.grid.light_width + x - self.run.unwrap().start],
    {
        let run = self.run.unwrap();
        let light_width: u32 = self.grid.light_width;
        let mut configs: Vec<ResolvedBakeConfig> = Vec::new();
        let mut tile: u32 = run.start;
        while tile < run.end
            invariant
                math.wf(),
                light_width == self.grid.light_width > 0,
                run.start <= tile <= run.end,
                configs@.len() == tile - run.start,
                forall|i: int|
                    0 <= i < configs@.len() ==> #[trigger] configs@[i] == config.tile_config(
                        (run.start + i) % light_width as int,
                        (run.start + i) / light_width as int,
                        math.model().directions(),
                    ),
            decreases run.end - tile,
        {
            let (light_x, light_y) = tile_position(tile, light_width);
            configs.push(config.config_for_tile(light_x, light_y, math));
            tile += 1;
        }
        proof {
            let width = light_width as int;
            let start = run.start as int;
            assert forall|x: int, y: int|
                0 <= x < width && 0 <= y && start <= y * width + x
                    < run.end implies #[trigger] config.tile_config(
                x,
                y,
                math.model().directions(),
            ) == configs@[y * width + x - start] by {
                lemma_fundamental_div_mod_converse(y * width + x, width, y, x);
            }
        }
        configs
    }

    /// Puts the next tile of the batch under way in its place and adds up what
    /// its bake did.
    pub fn accept_tile(&mut self, tile: &GpuBakeResult)
        requires
            old(self)@.wf(),
            old(self).run is Some,
            tile.pixels@.len() >= old(self).grid.tile_width * old(self).grid.tile_height,
            can_add_tile(old(self).stats, tile.stats),
        ensures
            final(self)@.wf(),
            final(self)@ == (AtlasState {
                run: if old(self).completed_tiles + 1 == old(self).run.unwrap().end {
                    None
                } else {
                    old(self).run
                },
                completed_tiles: (old(self).completed_tiles + 1) as u32,
                atlas: atlas_of(old(self).grid, old(self)@.tiles.push(tile.pixels@)),
                stats: Some(old(self)@.stats_with(tile.stats)),
                tiles: old(self)@.tiles.push(tile.pixels@),
                ..old(self)@
            }),
    {
        let grid = self.grid;
        blit_tile(&mut self.atlas, &grid, &tile.pixels, self.completed_tiles);
        proof {
            lemma_blit_adds_a_tile(grid, self.tiles@, tile.pixels@, self.atlas@);
            self.tiles@ = self.tiles@.push(tile.pixels@);
        }
        add_tile_stats(&mut self.stats, &tile.stats, grid.atlas_width, grid.atlas_height);
        self.completed_tiles = self.completed_tiles + 1;
        match self.run {
            Some(run) => {
                if self.completed_tiles == run.end {
                    self.run = None;
                }
            },
            None => {},
        }
    }

    /// What the bake has so far: the tiles that are complete, and black elsewhere.
    pub fn frame(&self) -> (frame: AtlasProgressFrame)
        requires
            self@.wf(),
        ensures
            frame.completed_tiles == self.completed_tiles,
            frame.total_tiles == self.grid.light_count,
            frame.width == self.grid.atlas_width,
            frame.height == self.grid.atlas_height,
            frame.pixels@ == atlas_of(self.grid, self@.tiles),
            self@.tiles.len() == frame.completed_tiles,
    {
        AtlasProgressFrame {
            completed_tiles: self.completed_tiles,
            total_tiles: self.grid.light_count,
            width: self.grid.atlas_width,
            height: self.grid.atlas_height,
            pixels: copy_all(&self.atlas),
        }
    }

    /// What the bake has when all tiles are in place.
    pub fn finish(self) -> (result: GpuBakeResult)
        requires
            self@.wf(),
            self.run is None,
            !self@.has_more(),
            self.grid.light_count > 0,
        ensures
            result.pixels@ == atlas_of(self.grid, self@.tiles),
            self@.tiles.len() == self.grid.light_count,
            Some(result.stats) == self.stats,
    {
        let stats = self.stats.unwrap();
        GpuBakeResult { pixels: self.atlas, stats }
    }
}

/// An atlas shows the tiles that are complete in their places, row by row in the
/// grid of lights, and black where none is; with all of its tiles it consists of
/// them.
pub proof fn lemma_atlas_consists_of_tiles(grid: AtlasGrid, tiles: Seq<Seq<Vec3>>, x: int, y: int)
    requires
        grid.wf(),
        0 <= x < grid.atlas_width,
        0 <= y < grid.atlas_height,
    ensures
        ({
            let tile = tile_of(grid, x, y);
            let shown = pixel_at(atlas_of(grid, tiles), grid.atlas_width as int, x, y);
            &&& 0 <= tile < grid.light_count
            &&& tile < tiles.len() ==> shown == tile_pixel(grid, tiles[tile], x, y)
            &&& tile >= tiles.len() ==> shown == black()
        }),
{
    let width = grid.atlas_width as int;
    let i = y * width + x;
    lemma_tiles_fill_the_atlas(grid, x, y);
    lemma_fundamental_div_mod_converse(i, width, y, x);
    assert(0 <= i < width * grid.atlas_height) by (nonlinear_arith)
        requires
            i == y * width + x,
            0 <= x < width,
            0 <= y < grid.atlas_height,
    ;
}

/// A tile of an atlas is what a bake of one light gives, with the light of its
/// place in the grid: the settings of the tile are those of single mode with that
/// light, and its pixels are those that a bake of the tile alone comes to, through
/// the same passes and from what these have left for the tile.
pub proof fn lemma_atlas_tiles_match_single_light_bakes(
    atlas: AtlasState,
    config: ResolvedBakeConfig,
    direction: spec_fn(TexelCenter) -> Vec3,
    scene: SceneGpuParams,
    math: ArithmeticModel,
    batch: WaveState,
    sum: spec_fn(Scalar, Scalar) -> Scalar,
    mean: spec_fn(Scalar, u32) -> Scalar,
    readings: Seq<Seq<Vec4>>,
    index: int,
    light_x: int,
    light_y: int,
    x: int,
    y: int,
)
    requires
        atlas.wf(),
        atlas.grid == AtlasGrid::of(config),
        config.mode != BakeMode::Single,
        0 <= light_x < atlas.grid.light_width,
        0 <= light_y,
        light_y * atlas.grid.light_width + light_x < atlas.tiles.len(),
        0 <= x < atlas.grid.tile_width,
        0 <= y < atlas.grid.tile_height,
        batch.wf(),
        batch == WaveState::start(
            batch.sums.len(),
            batch.pixel_count,
            config.samples,
            batch.schedule.lanes,
            batch.schedule.samples_per_lane,
        ),
        batch.pixel_count == atlas.grid.tile_width * atlas.grid.tile_height,
        batch.fits(sum, readings),
        0 <= index < batch.sums.len(),
        atlas.tiles[light_y * atlas.grid.light_width + light_x] == averaged(
            mean,
            batch.after(sum, readings).sums[index],
            config.samples,
        ),
    ensures
        ({
            let tile = config.tile_config(light_x, light_y, direction);
            let grid = atlas.grid;
            let single = WaveState::start(
                1,
                batch.pixel_count,
                tile.samples,
                batch.schedule.lanes,
                batch.schedule.samples_per_lane,
            );
            let parts = batch.readings_of(sum, readings, index);
            let pixels = averaged(mean, single.after(sum, parts).sums[0], tile.samples);
            &&& tile.mode == BakeMode::Single
            &&& tile.light == direction(
                TexelCenter::of(
                    light_x,
                    light_y,
                    config.light_width as int,
                    config.light_height as int,
                ),
            )
            &&& forall|k: int|
                0 <= k < readings.len() ==> (#[trigger] single.in_wave(sum, parts, k)).wave_params(
                    tile,
                    scene,
                    math,
                ) == batch.in_wave(sum, readings, k).wave_params(tile, scene, math)
            &&& pixel_at(
                atlas.atlas,
                grid.atlas_width as int,
                light_x * grid.tile_width + x,
                light_y * grid.tile_height + y,
            ) == pixel_at(pixels, grid.tile_width as int, x, y)
        }),
{
    let grid = atlas.grid;
    let width = grid.light_width as int;
    let tile = light_y * width + light_x;
    let parts = batch.readings_of(sum, readings, index);
    let single = WaveState::start(
        1,
        batch.pixel_count,
        config.samples,
        batch.schedule.lanes,
        batch.schedule.samples_per_lane,
    );
    assert(batch.alone(index) =~= single) by {
        assert(batch.sums[index] == black_image(batch.pixel_count as nat));
        assert(batch.alone(index).sums =~= single.sums);
    }
    lemma_batches_bake_tiles_alone(batch, sum, readings, index);
    assert(single.after(sum, parts).sums[0] == batch.after(sum, readings).sums[index]);
    assert(0 <= tile) by (nonlinear_arith)
        requires
            tile == light_y * width + light_x,
            0 <= light_y,
            0 <= light_x,
            0 <= width,
    ;
    lemma_fundamental_div_mod_converse(tile, width, light_y, light_x);
    lemma_tile_lies_in_atlas(grid, tile);
    let column = light_x * grid.tile_width + x;
    let row = light_y * grid.tile_height + y;
    lemma_pixel_of_tile(grid, tile, column, row);
    lemma_atlas_consists_of_tiles(grid, atlas.tiles, column, row);
}

/// Every pass of a wave, for whichever tile, carries the settings and the scene of
/// the tile; it takes the samples of its wave, in the lanes of the wave, over all
/// rows, and leaves sums.
pub proof fn lemma_waves_carry_the_settings(
    state: WaveState,
    config: ResolvedBakeConfig,
    scene: SceneGpuParams,
    math: ArithmeticModel,
)
    requires
        state.wave is Some,
    ensures
        ({
            let params = state.wave_params(config, scene, math);
            &&& carries_settings(params, config)
            &&& carries_scene(params, scene)
            &&& params.sample_offset == state.wave.unwrap().sample_offset
            &&& params.sample_limit == state.wave.unwrap().sample_limit
            &&& params.sample_lanes == state.wave.unwrap().active_lanes
            &&& params.samples == state.schedule.samples_per_lane
            &&& params.y_offset == 0
            &&& params.active_height == config.height
            &&& params.sums_samples == 1
        }),
{
}

/// Every pass of a progressive bake carries the settings and the scene that the bake
/// was started with, whatever has happened since: no step of the bake touches them.
/// A pass takes the samples of its batch, over the next rows, and leaves sums.
pub proof fn lemma_batches_carry_the_settings(
    state: ProgressiveState,
    config: ResolvedBakeConfig,
    scene: SceneGpuParams,
    pixel_count: usize,
    max_lanes: u32,
    update_interval_nanos: u128,
    math: ArithmeticModel,
)
    requires
        state.base == ProgressiveState::start(
            config,
            scene,
            pixel_count,
            max_lanes,
            update_interval_nanos,
            math,
        ).base,
    ensures
        state.stage is Dispatching ==> {
            let params = state.upcoming();
            let chunks = state.stage->chunks;
            &&& carries_settings(params, config)
            &&& carries_scene(params, scene)
            &&& params.sample_offset == state.stage->batch.sample_offset
            &&& params.sample_limit == state.stage->batch.sample_limit
            &&& params.sample_lanes == state.stage->batch.active_lanes
            &&& params.samples == state.stage->batch.samples_per_lane
            &&& params.sums_samples == 1
            &&& chunks.wf() && chunks.next < chunks.total ==> {
                &&& params.y_offset == chunks.next
                &&& params.active_height == if chunks.total - chunks.next < chunks.size {
                    chunks.total - chunks.next
                } else {
                    chunks.size as int
                }
            }
        },
        state.begun(config).base == state.base,
        state.advanced().base == state.base,
        forall|
            sum: spec_fn(Scalar, Scalar) -> Scalar,
            mean: spec_fn(Scalar, u32) -> Scalar,
            partials: Seq<Vec4>,
        | #[trigger] state.accepted(sum, mean, partials).base == state.base,
        forall|elapsed_nanos: u128| #[trigger] state.ended(elapsed_nanos).base == state.base,
{
    if state.stage is Dispatching && state.stage->chunks.wf() && state.stage->chunks.next
        < state.stage->chunks.total {
        lemma_next_run(state.stage->chunks);
    }
}

/// Every pass of a bake row by row carries the settings and the scene; it takes all
/// samples of the next rows in one lane and leaves means.
pub proof fn lemma_rows_carry_the_settings(
    bake: RowBake,
    config: ResolvedBakeConfig,
    scene: SceneGpuParams,
    math: ArithmeticModel,
)
    requires
        bake.wf(),
        bake.has_more(),
        bake.base == RowBake::start(config, scene, math).base,
    ensures
        ({
            let next = bake.upcoming();
            let params = next.pass.params;
            let rows = if bake.chunks.total - bake.chunks.next < bake.chunks.size {
                bake.chunks.total - bake.chunks.next
            } else {
                bake.chunks.size as int
            };
            &&& carries_settings(params, config)
            &&& carries_scene(params, scene)
            &&& params.samples == config.samples
            &&& params.sample_offset == 0
            &&& params.sample_limit == config.samples
            &&& params.sample_lanes == 1
            &&& params.sums_samples == 0
            &&& params.y_offset == bake.chunks.next
            &&& params.active_height == rows
            &&& next.rows.y_offset == bake.chunks.next
            &&& next.rows.active_height == rows
            &&& next.rows.completed_rows == bake.chunks.next + rows
            &&& next.range.offset == bake.chunks.next * config.width * 16
            &&& next.range.size == rows * config.width * 16
        }),
{
    lemma_next_run(bake.chunks);
    let rows = bake.upcoming_rows();
    let (start, height) = (rows.y_offset as int, rows.active_height as int);
    let width = config.width as int;
    assert(0 <= start * width * 16 <= u64::MAX && 0 <= height * width * 16 <= u64::MAX)
        by (nonlinear_arith)
        requires
            0 <= start,
            0 <= height,
            start + height <= config.height,
            width == config.width,
            config.width * config.height <= u32::MAX,
    ;
}

/// The workgroups of a pass are squares of eight by eight pixels, and there are as few
/// of them as cover the image and the active rows; there is a layer for each lane.
pub proof fn lemma_passes_cover_their_rows(params: GpuParams)
    ensures
        ({
            let pass = Pass::of(params);
            &&& pass.params == params
            &&& params.width <= 8 * pass.group_columns < params.width + 8
            &&& params.active_height <= 8 * pass.group_rows < params.active_height + 8
            &&& pass.group_lanes == params.sample_lanes
        }),
{
    lemma_ceil_div(params.width as int, 8);
    lemma_ceil_div(params.active_height as int, 8);
}

/// Where the pixels of a tile stand in the atlas: tile `t` is the one in column
/// `t % light_width` and row `t / light_width` of the grid, its rows run on as rows of the
/// atlas, and a tile that is not there yet is black.
pub proof fn lemma_tiles_stand_in_their_places(
    grid: AtlasGrid,
    tiles: Seq<Seq<Vec3>>,
    t: int,
    x: int,
    y: int,
)
    requires
        grid.wf(),
        0 <= t < grid.light_count,
        0 <= x < grid.tile_width,
        0 <= y < grid.tile_height,
    ensures
        ({
            let column = t % grid.light_width as int * grid.tile_width + x;
            let row = t / grid.light_width as int * grid.tile_height + y;
            let place = row * grid.atlas_width + column;
            let shown = atlas_of(grid, tiles)[place];
            &&& 0 <= column < grid.atlas_width
            &&& 0 <= row < grid.atlas_height
            &&& 0 <= place < atlas_of(grid, tiles).len()
            &&& t < tiles.len() ==> shown == tiles[t][y * grid.tile_width + x]
            &&& t >= tiles.len() ==> shown.x.bits == 0 && shown.y.bits == 0 && shown.z.bits == 0
        }),
{
    let width = grid.light_width as int;
    let column = t % width * grid.tile_width + x;
    let row = t / width * grid.tile_height + y;
    lemma_fundamental_div_mod(t, width);
    lemma_mod_bound(t, width);
    lemma_tile_lies_in_atlas(grid, t);
    lemma_pixel_of_tile(grid, t, column, row);
    lemma_atlas_consists_of_tiles(grid, tiles, column, row);
    let tw = grid.tile_width as int;
    let th = grid.tile_height as int;
    lemma_fundamental_div_mod_converse(column, tw, t % width, x);
    lemma_fundamental_div_mod_converse(row, th, t / width, y);
    assert(0 <= row * grid.atlas_width + column < grid.atlas_width * grid.atlas_height)
        by (nonlinear_arith)
        requires
            0 <= column < grid.atlas_width,
            0 <= row < grid.atlas_height,
    ;
}

/// A bake starts from black, pixel by pixel.
pub proof fn lemma_bakes_start_black(
    tiles: nat,
    pixel_count: usize,
    samples: u32,
    lanes: u32,
    samples_per_lane: u32,
)
    ensures
        ({
            let state = WaveState::start(tiles, pixel_count, samples, lanes, samples_per_lane);
            &&& state.sums.len() == tiles
            &&& forall|t: int, p: int|
                0 <= t < tiles && 0 <= p < pixel_count ==> {
                    let pixel = #[trigger] state.sums[t][p];
                    pixel.x.bits == 0 && pixel.y.bits == 0 && pixel.z.bits == 0
                }
            &&& state.wave is None
            &&& state.schedule.lanes == lanes
            &&& state.schedule.samples_per_lane == samples_per_lane
            &&& state.schedule.runs.total == samples
            &&& state.schedule.runs.next == 0
            &&& state.schedule.runs.count == 0
            &&& lanes * samples_per_lane <= u32::MAX ==> state.schedule.runs.size == lanes
                * samples_per_lane
        }),
{
    assert(lanes * samples_per_lane >= 0) by (nonlinear_arith);
}

/// How many rows a pass takes where each takes all samples: as many as the traces of a row
/// with all samples allow, and the rows are handed out from the first one.
pub proof fn lemma_rows_are_handed_out_by_traces(
    config: ResolvedBakeConfig,
    scene: SceneGpuParams,
    math: ArithmeticModel,
)
    requires
        config.height > 0,
        config.width > 0,
        config.samples > 0,
    ensures
        ({
            let bake = RowBake::start(config, scene, math);
            let traces = traces_per_row(
                config.width,
                config.samples,
                config.max_repeat_radius,
                config.enable_shadows,
            );
            let rows = bake.rows_per_dispatch;
            &&& 1 <= rows <= config.height
            &&& rows < config.height ==> (rows + 1) * traces > 1_024_000_000
            &&& rows > 8 ==> (rows - 8) * traces < 1_024_000_000
            &&& bake.chunks.total == config.height
            &&& bake.chunks.size == rows
            &&& bake.chunks.next == 0
            &&& bake.chunks.count == 0
            &&& image_rows(config) == rows
        }),
{
    let traces = traces_per_row(
        config.width,
        config.samples,
        config.max_repeat_radius,
        config.enable_shadows,
    );
    let d = config.max_repeat_radius * 2 + 1;
    let f: int = if config.enable_shadows {
        2
    } else {
        1
    };
    assert(config.width * config.samples * d * d * f > 0) by (nonlinear_arith)
        requires
            config.width > 0,
            config.samples > 0,
            d > 0,
            f > 0,
    ;
    lemma_dispatches_take_whole_groups(config.height as int, traces);
}

/// A batch hands out its rows from the first one, in runs of as many rows as it allows.
pub proof fn lemma_batches_hand_out_all_rows(state: ProgressiveState, config: ResolvedBakeConfig)
    ensures
        ({
            let begun = state.begun(config);
            let batch = state.schedule.batch_spec(config);
            &&& begun.stage is Dispatching
            &&& begun.stage->batch == batch
            &&& begun.stage->chunks.total == state.base.height
            &&& begun.stage->chunks.next == 0
            &&& begun.stage->chunks.count == 0
            &&& batch.rows_per_dispatch >= 1 ==> begun.stage->chunks.size
                == batch.rows_per_dispatch
            &&& batch.rows_per_dispatch == 0 ==> begun.stage->chunks.size == 1
            &&& state.has_more() <==> state.schedule.completed_samples < state.schedule.samples
            &&& begun.sums == state.sums
            &&& begun.means == state.means
            &&& begun.schedule == state.schedule
            &&& begun.dispatch_count == state.dispatch_count
        }),
{
}

/// What the bake of an atlas does as it goes on: batches of tiles follow one another, as many
/// tiles each as fit together, and each tile adds to what the atlas counts.
pub proof fn lemma_atlas_batches_follow_each_other(state: AtlasState, tile: GpuBakeStats)
    requires
        state.wf(),
    ensures
        state.has_more() <==> state.batches.next < state.grid.light_count,
        state.has_more() ==> {
            let next = state.begun();
            let run = state.upcoming();
            &&& run.start == state.batches.next
            &&& run.end == if state.grid.light_count - state.batches.next < state.batches.size {
                state.grid.light_count as int
            } else {
                state.batches.next + state.batches.size
            }
            &&& next.run == Some(run)
            &&& next.batches.next == run.end
            &&& next.batches.size == state.batches.size
            &&& next.tiles == state.tiles
            &&& next.atlas == state.atlas
            &&& next.completed_tiles == state.completed_tiles
            &&& next.stats == state.stats
        },
        state.stats is None ==> {
            let all = state.stats_with(tile);
            &&& all.width == state.grid.atlas_width
            &&& all.height == state.grid.atlas_height
            &&& all.dispatch_count == tile.dispatch_count
            &&& all.camera_ray_count == tile.camera_ray_count
            &&& all.max_bvh_traces == tile.max_bvh_traces
            &&& all.samples == tile.samples
            &&& all.triangle_count == tile.triangle_count
            &&& all.bvh_node_count == tile.bvh_node_count
            &&& all.times == tile.times
        },
        state.stats matches Some(so_far) ==> state.stats_with(tile) == merged(
            so_far,
            tile,
            state.grid.atlas_width,
            state.grid.atlas_height,
        ),
{
    if state.has_more() {
        lemma_next_run(state.batches);
    }
}

/// Beginning a wave takes the next samples and touches nothing else; taking it in keeps the
/// size and the schedule, and adds to each pixel of each tile what the lanes of the wave
/// have left for the tile, one tile behind the other.
pub proof fn lemma_waves_touch_their_sums_alone(
    state: WaveState,
    sum: spec_fn(Scalar, Scalar) -> Scalar,
    partials: Seq<Vec4>,
    tile: int,
    pixel: int,
)
    requires
        state.wf(),
        state.wave is Some,
        0 <= tile < state.sums.len(),
        0 <= pixel < state.pixel_count,
    ensures
        ({
            let after = state.accepted(sum, partials);
            let lanes = state.wave.unwrap().active_lanes as int;
            let pixels = state.pixel_count as int;
            &&& after.wave is None
            &&& after.schedule == state.schedule
            &&& after.pixel_count == state.pixel_count
            &&& after.sums.len() == state.sums.len()
            &&& after.sums[tile].len() == state.pixel_count
            &&& after.sums[tile][pixel] == lane_sum(
                sum,
                state.sums[tile][pixel],
                partials,
                tile * (lanes * pixels),
                pixels,
                pixel,
                lanes,
            )
        }),
        ({
            let next = state.begun();
            &&& next.wave == Some(state.schedule.upcoming())
            &&& next.sums == state.sums
            &&& next.pixel_count == state.pixel_count
        }),
{
}

} // verus!
