use xbrdf::arithmetic::{Arithmetic, Operation};
use xbrdf::bake::{AtlasBake, Pass, ProgressiveBake, RowBake, Stage, WaveBake};
use xbrdf::config::{BakeMode, MaterialKind, ResolvedBakeConfig, ResolvedMaterial, SamplerKind};
use xbrdf::dispatch::GpuBakeError;
use xbrdf::math::{Vec3, Vec4};
use xbrdf::params::{RayTolerances, SceneGpuParams};
use xbrdf::sampling::LatlongMath;
use xbrdf::scalar::Scalar;
use xbrdf::schedule::{atlas_path, AtlasPath, ProgressiveSchedule, Run, Wave};
use xbrdf::session::GpuBakeResult;
use xbrdf::stats::{bake_stats, check_counts, check_merge, BakeTimes, GpuBakeStats, MAX_NANOS};

fn number(value: f32) -> Scalar {
    Scalar::from_bits(value.to_bits())
}

fn value(number: Scalar) -> f32 {
    f32::from_bits(number.to_bits())
}

fn vector(x: f32, y: f32, z: f32) -> Vec3 {
    Vec3::new(number(x), number(y), number(z))
}

fn compute(operation: Operation, a: Scalar, b: Scalar) -> Scalar {
    let (a, b) = (value(a), value(b));
    number(match operation {
        Operation::Sum => a + b,
        Operation::Difference => a - b,
        Operation::Product => a * b,
        Operation::Quotient => a / b,
        Operation::Power => a.powf(b),
    })
}

fn normalize(v: Vec3) -> Option<Vec3> {
    let (x, y, z) = (value(v.x), value(v.y), value(v.z));
    let length = (x * x + y * y + z * z).sqrt();
    if length > 0.0 && length.is_finite() {
        Some(vector(x / length, y / length, z / length))
    } else {
        None
    }
}

fn math() -> Arithmetic<
    impl Copy + Fn(Operation, Scalar, Scalar) -> Scalar,
    impl Copy + Fn(Vec3) -> Option<Vec3>,
> {
    Arithmetic { compute, normalize }
}

fn latlong() -> LatlongMath<
    impl Copy + Fn(Operation, Scalar, Scalar) -> Scalar,
    impl Copy + Fn(Vec3) -> Option<Vec3>,
    impl Fn(Scalar) -> Scalar,
    impl Fn(Scalar) -> Scalar,
> {
    LatlongMath {
        operations: math(),
        sine: |angle: Scalar| number(value(angle).sin()),
        cosine: |angle: Scalar| number(value(angle).cos()),
    }
}

fn config(width: u32, height: u32, samples: u32) -> ResolvedBakeConfig {
    ResolvedBakeConfig {
        obj: std::path::PathBuf::new(),
        width,
        height,
        mode: BakeMode::Single,
        light_width: 1,
        light_height: 1,
        samples,
        tile_width_override: None,
        tile_depth_override: None,
        light: vector(0.0, 1.0, 0.0),
        max_repeat_radius: 0,
        sampler: SamplerKind::Halton,
        enable_shadows: false,
        material: ResolvedMaterial {
            kind: MaterialKind::Lambertian,
            color: vector(1.0, 1.0, 1.0),
            roughness: None,
        },
    }
}

fn scene() -> SceneGpuParams {
    let corner = Vec4 { x: number(0.0), y: number(0.0), z: number(0.0), w: number(0.0) };
    let tolerances = RayTolerances {
        ray_origin: number(0.1),
        hit: number(0.2),
        determinant: number(0.3),
    };
    SceneGpuParams {
        triangle_count: 7,
        node_count: 13,
        tile_min_x: number(0.0),
        tile_min_z: number(0.0),
        tile_width: number(1.0),
        tile_depth: number(1.0),
        bounds_min: corner,
        bounds_max: corner,
        ray_epsilon: tolerances.ray_origin,
        hit_epsilon: tolerances.hit,
        determinant_epsilon: tolerances.determinant,
    }
}

fn times(all: u128) -> BakeTimes {
    BakeTimes {
        bvh_build: all,
        gpu_setup: all,
        gpu_dispatch: all,
        gpu_timestamp: Some(all),
        readback: all,
    }
}

/// What sample `s` contributes to pixel `p`.
fn contribution(p: u32, s: u32) -> f32 {
    (p + 1) as f32 * (s % 5) as f32
}

/// Stands in for the device: every lane takes its share of the samples.
fn carry_out(pass: &Pass, buffer: &mut [Vec4]) {
    let params = pass.params;
    let pixels = params.width * params.height;
    assert_eq!(pass.group_columns, params.width.div_ceil(8));
    assert_eq!(pass.group_rows, params.active_height.div_ceil(8));
    assert_eq!(pass.group_lanes, params.sample_lanes);
    for lane in 0..params.sample_lanes {
        for y in params.y_offset..params.y_offset + params.active_height {
            for x in 0..params.width {
                let p = y * params.width + x;
                let first = params.sample_offset + lane * params.samples;
                let last = (first + params.samples).min(params.sample_limit);
                let light: f32 = (first..last).map(|s| contribution(p, s)).sum();
                let light = if params.sums_samples == 1 {
                    light
                } else {
                    light / params.target_samples as f32
                };
                buffer[(lane * pixels + p) as usize] = Vec4 {
                    x: number(light),
                    y: number(2.0 * light),
                    z: number(0.0),
                    w: number(1.0),
                };
            }
        }
    }
}

fn expected(p: u32, samples: u32) -> Vec3 {
    let all: f32 = (0..samples).map(|s| contribution(p, s)).sum();
    vector(all / samples as f32, 2.0 * all / samples as f32, 0.0)
}

/// The same through the reciprocal of the number of samples.
fn scaled(p: u32, samples: u32) -> Vec3 {
    let all: f32 = (0..samples).map(|s| contribution(p, s)).sum();
    let share = 1.0 / samples as f32;
    vector(all * share, 2.0 * all * share, 0.0)
}

fn blank(count: usize) -> Vec<Vec4> {
    let zero = number(0.0);
    vec![Vec4 { x: zero, y: zero, z: zero, w: zero }; count]
}

#[test]
fn waves_add_up_all_samples() {
    let config = config(3, 2, 70);
    let mut bake = WaveBake::new(1, 6, 70, 4, 8);
    let mut waves = Vec::new();
    while let Some(wave) = bake.begin_wave(false).unwrap() {
        waves.push(wave);
        let range = bake.tile_range(0);
        assert_eq!(range.offset, 0);
        assert_eq!(range.size, wave.active_lanes as u64 * 6 * 16);
        let mut buffer = blank((range.size / 16) as usize);
        let pass = bake.tile_pass(&config, scene(), false, &math()).unwrap();
        assert_eq!(pass.params.samples, 8);
        assert_eq!(pass.params.target_samples, 70);
        carry_out(&pass, &mut buffer);
        bake.accept(&buffer, &math());
    }
    assert_eq!(
        waves,
        [
            Wave { sample_offset: 0, sample_limit: 32, active_lanes: 4 },
            Wave { sample_offset: 32, sample_limit: 64, active_lanes: 4 },
            Wave { sample_offset: 64, sample_limit: 70, active_lanes: 1 },
        ]
    );
    let result = bake.tile_result(0, &config, scene(), times(3), &math());
    for p in 0..6 {
        assert_eq!(result.pixels[p as usize], scaled(p, 70));
    }
    assert_eq!(result.stats.dispatch_count, 3);
    assert_eq!(result.stats.sample_lanes, 4);
    assert_eq!(result.stats.samples_per_lane, 8);
    assert_eq!(result.stats.rows_per_dispatch, 2);
    assert_eq!(result.stats.camera_ray_count, 420);
    assert_eq!((result.stats.triangle_count, result.stats.bvh_node_count), (7, 13));
}

#[test]
fn tiles_of_a_batch_are_kept_apart() {
    let config = config(2, 1, 10);
    let mut bake = WaveBake::new(3, 2, 10, 2, 4);
    while bake.begin_wave(false).unwrap().is_some() {
        let last = bake.tile_range(2);
        let mut buffer = blank(((last.offset + last.size) / 16) as usize);
        for tile in 0..3 {
            let range = bake.tile_range(tile);
            let pass = bake.tile_pass(&config, scene(), false, &math()).unwrap();
            let from = (range.offset / 16) as usize;
            let to = from + (range.size / 16) as usize;
            carry_out(&pass, &mut buffer[from..to]);
            for pixel in &mut buffer[from..to] {
                pixel.z = number(tile as f32);
            }
        }
        bake.accept(&buffer, &math());
    }
    for tile in 0..3 {
        let result = bake.tile_result(tile, &config, scene(), times(0), &math());
        for p in 0..2 {
            let light = scaled(p, 10);
            // Two waves: two lanes, then one.
            let mark = number(3.0 * tile as f32 * (1.0 / 10.0));
            assert_eq!(result.pixels[p as usize], Vec3::new(light.x, light.y, mark));
        }
    }
}

#[test]
fn a_cancelled_bake_stops() {
    let settings = config(2, 1, 10);
    let mut bake = WaveBake::new(1, 2, 10, 2, 4);
    assert_eq!(bake.begin_wave(true), Err(GpuBakeError::Cancelled));
    assert!(bake.begin_wave(false).unwrap().is_some());
    assert_eq!(
        bake.tile_pass(&settings, scene(), true, &math()),
        Err(GpuBakeError::Cancelled)
    );
    // A bake without samples has nothing to stop.
    assert_eq!(WaveBake::new(1, 2, 0, 2, 4).begin_wave(true), Ok(None));

    let mut bake =
        ProgressiveBake::new(&settings, scene(), 2, 2, 500_000_000, &math());
    assert_eq!(bake.begin_batch(&settings, true), Err(GpuBakeError::Cancelled));
    assert_eq!(bake.begin_batch(&settings, false), Ok(true));
    assert_eq!(bake.next_pass(true), Err(GpuBakeError::Cancelled));
    assert!(bake.next_pass(false).unwrap().is_some());
    assert_eq!(bake.next_pass(true), Ok(None));
}

#[test]
fn progressive_bakes_show_means_so_far() {
    let config = config(3, 2, 20);
    let mut bake = ProgressiveBake::new(&config, scene(), 6, 4, 500_000_000, &math());
    let mut shown = Vec::new();
    while bake.begin_batch(&config, false).unwrap() {
        let mut buffer = blank((bake.readback_bytes() / 16) as usize);
        while let Some(pass) = bake.next_pass(false).unwrap() {
            assert_eq!(pass.params.target_samples, 20);
            carry_out(&pass, &mut buffer);
        }
        let frame = bake.accept(&buffer, &math());
        assert_eq!((frame.total_samples, frame.width, frame.height), (20, 3, 2));
        for p in 0..6 {
            assert_eq!(frame.pixels[p as usize], expected(p, frame.completed_samples));
        }
        shown.push(frame.completed_samples);
        assert_eq!(bake.stage, Stage::Shown);
        bake.end_batch(1);
    }
    assert_eq!(shown, [1, 3, 7, 15, 20]);
    let result = bake.finish(&config, scene(), times(1));
    for p in 0..6 {
        assert_eq!(result.pixels[p as usize], expected(p, 20));
    }
    assert_eq!(result.stats.dispatch_count, 5);
    assert_eq!((result.stats.sample_lanes, result.stats.samples_per_lane), (1, 20));
}

#[test]
fn batches_take_every_sample_once() {
    // The pace of the device decides how large batches are, not what they take.
    for paces in [[1u128, 1, 1], [1, 1_000_000_000_000, 1], [1_000_000_000_000; 3]] {
        let config = config(2, 3, 41);
        let mut bake = ProgressiveBake::new(&config, scene(), 6, 4, 500_000_000, &math());
        let mut taken = Vec::new();
        let mut round = 0;
        while bake.begin_batch(&config, false).unwrap() {
            let Stage::Dispatching { batch, .. } = bake.stage else {
                panic!("a batch is under way");
            };
            assert_eq!(batch.sample_offset as usize, taken.len());
            taken.extend(batch.sample_offset..batch.sample_limit);
            let mut buffer = blank((bake.readback_bytes() / 16) as usize);
            let mut rows = 0;
            while let Some(pass) = bake.next_pass(false).unwrap() {
                assert_eq!(pass.params.y_offset, rows);
                rows += pass.params.active_height;
                assert_eq!(pass.params.sample_offset, batch.sample_offset);
                assert_eq!(pass.params.sample_limit, batch.sample_limit);
                carry_out(&pass, &mut buffer);
            }
            assert_eq!(rows, 3);
            let frame = bake.accept(&buffer, &math());
            assert_eq!(frame.completed_samples as usize, taken.len());
            for p in 0..6 {
                assert_eq!(frame.pixels[p as usize], expected(p, frame.completed_samples));
            }
            bake.end_batch(paces[round % 3]);
            round += 1;
        }
        assert_eq!(taken, (0..41).collect::<Vec<u32>>());
    }
}

#[test]
fn progressive_and_wave_bakes_agree() {
    let config = config(2, 2, 33);
    let mut waves = WaveBake::new(1, 4, 33, 3, 4);
    while waves.begin_wave(false).unwrap().is_some() {
        let mut buffer = blank((waves.tile_range(0).size / 16) as usize);
        let pass = waves.tile_pass(&config, scene(), false, &math()).unwrap();
        carry_out(&pass, &mut buffer);
        waves.accept(&buffer, &math());
    }
    let mut batches =
        ProgressiveBake::new(&config, scene(), 4, 3, 500_000_000, &math());
    while batches.begin_batch(&config, false).unwrap() {
        let mut buffer = blank((batches.readback_bytes() / 16) as usize);
        while let Some(pass) = batches.next_pass(false).unwrap() {
            carry_out(&pass, &mut buffer);
        }
        batches.accept(&buffer, &math());
        batches.end_batch(1_000_000_000_000);
    }
    // The sums are small whole numbers, so nothing is rounded.
    assert_eq!(waves.sums[0], batches.sums);
    let first = waves.tile_result(0, &config, scene(), times(1), &math());
    let second = batches.finish(&config, scene(), times(1));
    for p in 0..4 {
        assert_eq!(first.pixels[p as usize], scaled(p, 33));
        assert_eq!(second.pixels[p as usize], expected(p, 33));
        let (a, b) = (value(first.pixels[p as usize].y), value(second.pixels[p as usize].y));
        assert!((a - b).abs() <= a * f32::EPSILON);
    }
}

#[test]
fn row_bakes_leave_means_row_by_row() {
    // The image is high and its samples many enough for several dispatches.
    let config = config(4096, 24, 40_000);
    let mut bake = RowBake::new(&config, scene(), &math());
    assert_eq!(bake.rows_per_dispatch, 8);
    assert_eq!(bake.base.sums_samples, 0);
    let mut next = 0;
    while let Some(rows) = bake.next_pass() {
        assert_eq!(rows.range.offset, next);
        next = rows.range.offset + rows.range.size;
        assert_eq!(rows.pass.params.y_offset, rows.rows.y_offset);
        assert_eq!(rows.pass.params.active_height, 8);
        assert_eq!(rows.pass.group_lanes, 1);
        let mut rgba = blank(2);
        rgba[1].y = number(0.5);
        let chunk = bake.chunk(&rows, &rgba);
        assert_eq!(chunk.completed_rows, chunk.y_offset + chunk.height);
        assert_eq!((chunk.width, chunk.total_rows), (4096, 24));
        assert_eq!(chunk.pixels[1], vector(0.0, 0.5, 0.0));
    }
    assert_eq!(next, 4096 * 24 * 16);
    let rgba = blank(4096 * 24);
    let result = bake.finish(&config, scene(), &rgba, times(1));
    assert_eq!(result.stats.dispatch_count, 3);
    assert_eq!(result.stats.rows_per_dispatch, 8);
    assert_eq!(result.pixels.len(), 4096 * 24);

    let small = self::config(3, 2, 5);
    let mut bake = RowBake::new(&small, scene(), &math());
    let mut buffer = blank(6);
    while let Some(rows) = bake.next_pass() {
        carry_out(&rows.pass, &mut buffer);
    }
    let result = bake.finish(&small, scene(), &buffer, times(1));
    for p in 0..6 {
        assert_eq!(result.pixels[p as usize], expected(p, 5));
    }
}

#[test]
fn atlas_bakes_put_tiles_in_place() {
    let full = ResolvedBakeConfig {
        mode: BakeMode::Full,
        light_width: 3,
        light_height: 2,
        ..config(2, 1, 4)
    };
    let AtlasPath::Tiled(grid) = atlas_path(&full).unwrap() else {
        panic!("several lights make several tiles");
    };
    let mut bake = AtlasBake::new(grid, 4, Vec::new());
    assert_eq!(bake.begin_batch(true), Err(GpuBakeError::Cancelled));
    let mut runs = Vec::new();
    let mut tile = 0;
    while let Some(run) = bake.begin_batch(false).unwrap() {
        let configs = bake.tile_configs(&full, &latlong());
        assert_eq!(configs.len() as u32, run.end - run.start);
        for settings in &configs {
            assert_eq!((settings.width, settings.height, settings.mode), (2, 1, BakeMode::Single));
            let light = full.light_direction_for_tile(tile % 3, tile / 3, &latlong());
            assert_eq!(settings.light, light);
            let pixels = vec![vector(tile as f32, 0.0, 0.0), vector(tile as f32, 1.0, 0.0)];
            let stats = bake_stats(settings, 7, 13, 1, 1, 4, 1, times(2));
            assert!(check_merge(&bake.stats, &stats));
            bake.accept_tile(&GpuBakeResult { pixels, stats });
            tile += 1;
            let frame = bake.frame();
            for (p, pixel) in frame.pixels.iter().enumerate() {
                // Tiles are two pixels wide, three of them in a row of the atlas.
                let place = (p / 6 * 3 + p % 6 / 2) as u32;
                let shown = vector(place as f32, (p % 2) as f32, 0.0);
                let black = vector(0.0, 0.0, 0.0);
                assert_eq!(*pixel, if place < tile { shown } else { black });
            }
            assert_eq!((frame.completed_tiles, frame.total_tiles), (tile, 6));
            assert_eq!((frame.width, frame.height), (6, 2));
        }
        runs.push(run);
    }
    assert_eq!(runs, [Run { start: 0, end: 4 }, Run { start: 4, end: 6 }]);
    let result = bake.finish();
    for y in 0..2usize {
        for x in 0..6usize {
            let tile = y * 3 + x / 2;
            assert_eq!(
                result.pixels[y * 6 + x],
                vector(tile as f32, (x % 2) as f32, 0.0)
            );
        }
    }
    assert_eq!((result.stats.width, result.stats.height), (6, 2));
    assert_eq!(result.stats.dispatch_count, 6);
    assert_eq!(result.stats.camera_ray_count, 48);
    assert_eq!(result.stats.times.readback, 12);
}

#[test]
fn counts_that_do_not_fit_are_found() {
    assert!(check_counts(&config(256, 64, 64)));
    let huge = ResolvedBakeConfig {
        max_repeat_radius: u32::MAX,
        ..config(1, 1, 1)
    };
    assert!(!check_counts(&huge));
    assert!(!check_counts(&config(u32::MAX, u32::MAX, 2)));

    let stats = bake_stats(&config(2, 1, 4), 7, 13, 1, 1, 4, 1, times(2));
    let long = GpuBakeStats { times: times(MAX_NANOS), ..stats };
    assert!(check_merge(&None, &long));
    assert!(!check_merge(&Some(stats), &long));
    let many = GpuBakeStats { dispatch_count: u32::MAX, ..stats };
    assert!(!check_merge(&Some(many), &stats));
    assert!(check_merge(&Some(stats), &stats));
}

#[test]
fn previews_take_a_prefix_of_the_samples() {
    let (few, many) = (config(3, 2, 15), config(3, 2, 500));
    let mut short = ProgressiveSchedule::new(15, 4, 500_000_000);
    let mut long = ProgressiveSchedule::new(500, 4, 500_000_000);
    while let Some(batch) = short.begin_batch(&few) {
        assert_eq!(long.begin_batch(&many), Some(batch));
        short.finish_batch(1);
        long.finish_batch(1);
    }
    assert_eq!((short.completed_samples, long.completed_samples), (15, 15));
}
