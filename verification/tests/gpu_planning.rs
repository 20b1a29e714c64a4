use xbrdf::arithmetic::{Arithmetic, Operation};
use xbrdf::bvh::GpuBvhNode;
use xbrdf::config::{BakeMode, MaterialKind, ResolvedBakeConfig, ResolvedMaterial, SamplerKind};
use xbrdf::control::{check_flag, BakeControl};
use xbrdf::dispatch::{
    atlas_batch_capacity, checked_pixel_count, div_ceil, plan_lanes, rows_per_dispatch_for,
    sample_lanes_for, sample_parallel_lanes_for_pixel_count, sample_parallel_samples_per_lane,
    validate_scene_buffer, validate_scene_buffers, BufferLimits, GpuBakeError, OUTPUT_PIXEL_BYTES,
};
use xbrdf::geometry::{Bounds, ColorSource, Mesh, Triangle};
use xbrdf::image::{add_lanes, average_pixels, blit_tile, rgb_pixels, scale_pixels};
use xbrdf::math::{Vec3, Vec4};
use xbrdf::params::{
    sample_parallel_params, sampler_code, RayTolerances, SceneGpuParams,
};
use xbrdf::sah::{BuildTriangle, SAH_BINS};
use xbrdf::scalar::Scalar;
use xbrdf::scene_key::{is_cached, mesh_cache_key};
use xbrdf::schedule::{
    atlas_path, bake_path, next_rows, tile_position, workgroups, AtlasPath, BakePath,
    ProgressiveSchedule, RowChunk, Runs, Wave, WaveSchedule,
};
use xbrdf::stats::{
    add_tile_stats, bake_stats, nanos_per_tile, remaining_nanos, reported_setup, BakeTimes,
    ProgressiveBakeOptions,
};
use xbrdf::timer::{pass_queries, pass_ticks, query_bytes, query_count, row_bytes, tile_bytes};

fn number(value: f32) -> Scalar {
    Scalar::from_bits(value.to_bits())
}

fn value(number: Scalar) -> f32 {
    f32::from_bits(number.to_bits())
}

fn vector(x: f32, y: f32, z: f32) -> Vec3 {
    Vec3::new(number(x), number(y), number(z))
}

fn rgba(x: f32, y: f32, z: f32) -> Vec4 {
    Vec4 { x: number(x), y: number(y), z: number(z), w: number(1.0) }
}

fn compute(operation: Operation, a: Scalar, b: Scalar) -> Scalar {
    let (a, b) = (value(a), value(b));
    number(match operation {
        Operation::Sum => a + b,
        Operation::Difference => a - b,
        Operation::Product => a * b,
        Operation::Quotient => a / b,
        Operation::Power => a.powf(b),
    })
}

fn normalize(v: Vec3) -> Option<Vec3> {
    let (x, y, z) = (value(v.x), value(v.y), value(v.z));
    let length = (x * x + y * y + z * z).sqrt();
    if length > 0.0 && length.is_finite() {
        Some(vector(x / length, y / length, z / length))
    } else {
        None
    }
}

fn math() -> Arithmetic<
    impl Copy + Fn(Operation, Scalar, Scalar) -> Scalar,
    impl Copy + Fn(Vec3) -> Option<Vec3>,
> {
    Arithmetic { compute, normalize }
}

fn default_limits() -> BufferLimits {
    let limits = wgpu::Limits::default();
    BufferLimits {
        max_buffer_size: limits.max_buffer_size,
        max_storage_buffer_binding_size: limits.max_storage_buffer_binding_size,
    }
}

fn config(samples: u32) -> ResolvedBakeConfig {
    ResolvedBakeConfig {
        obj: std::path::PathBuf::new(),
        width: 4,
        height: 2,
        mode: BakeMode::Single,
        light_width: 1,
        light_height: 1,
        samples,
        tile_width_override: None,
        tile_depth_override: None,
        light: vector(-1.0, 1.0, -1.0),
        max_repeat_radius: 2,
        sampler: SamplerKind::Halton,
        enable_shadows: true,
        material: ResolvedMaterial {
            kind: MaterialKind::Lambertian,
            color: vector(1.0, 1.0, 1.0),
            roughness: None,
        },
    }
}

fn tile_mesh(scale: f32) -> Mesh {
    let bounds = Bounds {
        min: vector(-0.5 * scale, -0.25 * scale, -0.5 * scale),
        max: vector(0.5 * scale, 0.0, 0.5 * scale),
    };
    Mesh {
        triangles: Vec::new(),
        bounds,
        original_bounds: bounds,
        y_offset_to_zero: number(0.0),
        tile_min_x: number(-0.5 * scale),
        tile_min_z: number(-0.5 * scale),
        tile_width: number(scale),
        tile_depth: number(scale),
        color_source: ColorSource::Uncolored,
    }
}

fn tolerances(mesh: &Mesh) -> RayTolerances {
    math().ray_tolerances(mesh)
}

fn triangle(x: f32) -> Triangle {
    Triangle {
        v0: vector(x, 0.0, 0.0),
        v1: vector(x, 1.0, 0.0),
        v2: vector(x, 0.0, 1.0),
        normal: vector(1.0, 0.0, 0.0),
        color: vector(1.0, 1.0, 1.0),
    }
}

fn build(triangles: &Vec<Triangle>) -> (Vec<xbrdf::bvh::GpuTriangle>, Vec<GpuBvhNode>) {
    math().build_bvh(triangles)
}

fn depth(nodes: &[GpuBvhNode], index: u32) -> u32 {
    let node = nodes[index as usize];
    if node.triangle_count > 0 {
        1
    } else {
        1 + depth(nodes, node.child_or_first).max(depth(nodes, node.child_b))
    }
}

fn times(all: u128) -> BakeTimes {
    BakeTimes {
        bvh_build: all,
        gpu_setup: all,
        gpu_dispatch: all,
        gpu_timestamp: Some(all),
        readback: all,
    }
}

#[test]
fn shader_pixel_indexing_limit_is_enforced() {
    assert_eq!(checked_pixel_count(65_535, 65_537).unwrap(), u32::MAX as u64);
    assert!(matches!(
        checked_pixel_count(65_536, 65_536),
        Err(GpuBakeError::ImageTooLarge { .. })
    ));
}

#[test]
fn sample_lanes_fit_the_storage_binding() {
    let limits = default_limits();
    let pixels = 1024 * 1024;
    let lanes = sample_parallel_lanes_for_pixel_count(pixels, &limits).unwrap();
    let bytes = pixels * lanes as u64 * OUTPUT_PIXEL_BYTES;
    assert!(bytes <= limits.max_storage_buffer_binding_size as u64);
    assert!(bytes <= limits.max_buffer_size);
}

#[test]
fn shadowless_dispatch_budget_does_not_reserve_shadow_traces() {
    let with_shadows = rows_per_dispatch_for(256, 128, 1024, 2, true);
    let without_shadows = rows_per_dispatch_for(256, 128, 1024, 2, false);
    assert_eq!(with_shadows, 80);
    assert_eq!(without_shadows, 128);
}

#[test]
fn skewed_bvh_stays_within_the_shader_stack() {
    let triangles: Vec<_> = (0..100).map(|index| triangle(2.0f32.powi(index))).collect();
    let (_, nodes) = build(&triangles);

    assert!(depth(&nodes, 0) <= 64);
}

#[test]
fn ray_tolerances_follow_uniform_geometry_scale() {
    let small = tolerances(&tile_mesh(1.0e-3));
    let unit = tolerances(&tile_mesh(1.0));
    let large = tolerances(&tile_mesh(1.0e3));
    assert!((value(small.ray_origin) * 1.0e3 - value(unit.ray_origin)).abs() < 1.0e-8);
    assert!((value(large.ray_origin) / 1.0e3 - value(unit.ray_origin)).abs() < 1.0e-8);
    assert!((value(small.determinant) * 1.0e6 - value(unit.determinant)).abs() < 1.0e-8);
    assert!((value(large.determinant) / 1.0e6 - value(unit.determinant)).abs() < 1.0e-8);
}

#[test]
fn ray_tolerances_follow_their_formulas() {
    for scale in [1.0e-3f32, 1.0, 37.5, 1.0e3] {
        let found = tolerances(&tile_mesh(scale));
        let coordinates = 0.5 * scale;
        let origin = (scale * 1.0e-5).max(coordinates * f32::EPSILON * 8.0);
        assert_eq!(value(found.ray_origin), origin);
        assert_eq!(value(found.hit), origin * 0.1);
        assert_eq!(value(found.determinant), scale * scale * 1.0e-7);
    }
    // Powers of two only change the exponent.
    let unit = tolerances(&tile_mesh(1.0));
    for factor in [0.125f32, 2.0, 1024.0] {
        let scaled = tolerances(&tile_mesh(factor));
        assert_eq!(value(scaled.ray_origin), value(unit.ray_origin) * factor);
        assert_eq!(value(scaled.hit), value(unit.hit) * factor);
        assert_eq!(value(scaled.determinant), value(unit.determinant) * factor * factor);
    }
    // Far from the origin the rounding of coordinates decides.
    let mut far = tile_mesh(1.0);
    far.bounds.min.x = number(1.0e6);
    far.bounds.max.x = number(1.0e6 + 1.0);
    let origin = (1.0e6f32 + 1.0) * f32::EPSILON * 8.0;
    assert_eq!(value(tolerances(&far).ray_origin), origin);
}

#[test]
fn boxes_and_bins_follow_their_formulas() {
    let math = math();
    let (low, high) = (vector(-1.0, 0.1, 2.0), vector(0.7, 3.3, 2.9));
    let (x, y, z) = (0.7f32 + 1.0, 3.3f32 - 0.1, 2.9f32 - 2.0);
    assert_eq!(value(math.surface_area(low, high)), 2.0 * (x * y + x * z + y * z));
    assert_eq!(value(math.surface_area(high, low)), 0.0);
    assert_eq!(math.centroid_bin(low, low, high, 1), 0);
    assert_eq!(math.centroid_bin(high, low, high, 1), SAH_BINS - 1);
    assert_eq!(math.centroid_bin(vector(0.0, 1.8, 0.0), low, high, 1), 6);
    assert_eq!(math.centroid_bin(high, low, low, 1), 0);
}

#[test]
fn triangles_that_spread_are_split() {
    let item = |x: f32| BuildTriangle {
        triangle: triangle(x),
        bounds_min: vector(x, 0.0, 0.0),
        bounds_max: vector(x, 1.0, 1.0),
        centroid: vector(x, 1.0 / 3.0, 1.0 / 3.0),
    };
    let items: Vec<_> = [5.0, 0.0, 1.0, 0.5].into_iter().map(item).collect();
    let (low, high) = (vector(0.0, 1.0 / 3.0, 1.0 / 3.0), vector(5.0, 1.0 / 3.0, 1.0 / 3.0));
    assert_eq!(math().sah_split(&items, 0, 4, low, high), Some((0, 3)));
    // Without any spread there is nothing to split by.
    assert_eq!(math().sah_split(&items, 0, 4, low, low), None);
}

#[test]
fn one_oversized_lane_is_rejected() {
    let limits = default_limits();
    let pixels = limits.max_storage_buffer_binding_size as u64 / OUTPUT_PIXEL_BYTES + 1;
    assert!(matches!(
        sample_parallel_lanes_for_pixel_count(pixels, &limits),
        Err(GpuBakeError::OutputBufferTooLarge { .. })
    ));
}

#[test]
fn bake_control_is_shared_and_observable() {
    let control = BakeControl::default();
    let worker = control.clone();
    assert!(!worker.is_cancelled());
    control.cancel();
    assert!(worker.is_cancelled());
    assert!(matches!(worker.check(), Err(GpuBakeError::Cancelled)));
}

#[test]
fn only_a_thrown_switch_cancels() {
    assert_eq!(check_flag(false), Ok(()));
    assert_eq!(check_flag(true), Err(GpuBakeError::Cancelled));
    assert_eq!(BakeControl::default().check(), Ok(()));
}

#[test]
fn every_triangle_is_in_one_leaf() {
    let triangles: Vec<_> = (0..37).map(|index| triangle((index * 17 % 37) as f32)).collect();
    let (ordered, nodes) = build(&triangles);
    assert_eq!(ordered.len(), 37);
    let mut leaf_triangles = 0;
    let mut covered = vec![0; 37];
    for node in nodes.iter().filter(|node| node.triangle_count > 0) {
        leaf_triangles += node.triangle_count;
        assert!(node.triangle_count <= 4);
        for place in node.child_or_first..node.child_or_first + node.triangle_count {
            covered[place as usize] += 1;
            let x = value(ordered[place as usize].v0.x);
            assert!(value(node.bounds_min.x) <= x && x <= value(node.bounds_max.x));
        }
    }
    assert_eq!(leaf_triangles, 37);
    assert!(covered.iter().all(|count| *count == 1));
    let mut xs: Vec<_> = ordered.iter().map(|t| value(t.v0.x) as u32).collect();
    xs.sort();
    assert_eq!(xs, (0..37).collect::<Vec<_>>());
}

#[test]
fn dispatch_rows_are_whole_workgroups() {
    assert_eq!(rows_per_dispatch_for(256, 5, 1, 0, false), 5);
    assert_eq!(rows_per_dispatch_for(1 << 20, 5, 1000, 0, false), 1);
    assert_eq!(rows_per_dispatch_for(1 << 20, 100, 1000, 0, false), 8);
    assert_eq!(rows_per_dispatch_for(0, 100, 1, 0, true), 100);
    assert_eq!(rows_per_dispatch_for(1_024_000, 100, 100, 0, false), 16);
    assert_eq!(rows_per_dispatch_for(1, 0, 1, 0, false), 0);
    assert_eq!(div_ceil(17, 8), 3);
    assert_eq!(div_ceil(16, 8), 2);
    assert_eq!(div_ceil(0, 8), 0);
    assert_eq!(workgroups(9, 16), (2, 2));
}

#[test]
fn lanes_follow_samples() {
    assert_eq!(sample_lanes_for(0), 1);
    assert_eq!(sample_lanes_for(64), 1);
    assert_eq!(sample_lanes_for(65), 2);
    assert_eq!(sample_lanes_for(u32::MAX), 128);
    assert_eq!(sample_parallel_samples_per_lane(65_535), 64);
    assert_eq!(sample_parallel_samples_per_lane(65_536), 512);
    let plan = plan_lanes(&config(200), &default_limits()).unwrap();
    assert_eq!((plan.pixel_count, plan.lanes, plan.samples_per_lane), (8, 4, 64));
    assert_eq!(plan.output_bytes, 8 * 4 * 16);
    let wide = ResolvedBakeConfig { width: 70_000, height: 70_000, ..config(1) };
    assert_eq!(
        plan_lanes(&wide, &default_limits()),
        Err(GpuBakeError::ImageTooLarge { width: 70_000, height: 70_000 })
    );
}

#[test]
fn scene_buffers_are_checked_against_limits() {
    let limits = BufferLimits { max_buffer_size: 800, max_storage_buffer_binding_size: 480 };
    assert_eq!(validate_scene_buffers(&limits, 6, 10), Ok(()));
    assert_eq!(
        validate_scene_buffers(&limits, 7, 10),
        Err(GpuBakeError::SceneBufferTooLarge {
            resource: "triangle",
            required_bytes: 560,
            limit_bytes: 480
        })
    );
    assert_eq!(
        validate_scene_buffers(&limits, 6, 11),
        Err(GpuBakeError::SceneBufferTooLarge {
            resource: "BVH node",
            required_bytes: 528,
            limit_bytes: 480
        })
    );
    assert_eq!(
        validate_scene_buffer("triangle", 1, 1 << 33, &limits),
        Err(GpuBakeError::SceneCountTooLarge { resource: "triangle", count: 1 << 33 })
    );
}

#[test]
fn batches_fit_the_buffer() {
    let limits = BufferLimits { max_buffer_size: 1000, max_storage_buffer_binding_size: 1000 };
    assert_eq!(atlas_batch_capacity(&config(1), 1, &limits), 7);
    assert_eq!(atlas_batch_capacity(&config(1), 100, &limits), 1);
    assert_eq!(atlas_batch_capacity(&config(1), 1, &default_limits()), 8);
}

#[test]
fn waves_cover_all_samples_once() {
    let mut schedule = WaveSchedule::new(1000, 4, 64);
    let mut waves = Vec::new();
    while let Some(wave) = schedule.next_wave() {
        waves.push(wave);
    }
    assert_eq!(
        waves,
        [
            Wave { sample_offset: 0, sample_limit: 256, active_lanes: 4 },
            Wave { sample_offset: 256, sample_limit: 512, active_lanes: 4 },
            Wave { sample_offset: 512, sample_limit: 768, active_lanes: 4 },
            Wave { sample_offset: 768, sample_limit: 1000, active_lanes: 4 },
        ]
    );
    let mut short = WaveSchedule::new(65, 4, 64);
    assert_eq!(
        short.next_wave(),
        Some(Wave { sample_offset: 0, sample_limit: 65, active_lanes: 2 })
    );
    assert_eq!(short.next_wave(), None);
    assert_eq!(short.runs.count, 1);
}

#[test]
fn row_chunks_cover_the_image() {
    let mut runs = Runs::new(20, 8);
    let mut chunks = Vec::new();
    while let Some(chunk) = next_rows(&mut runs) {
        chunks.push(chunk);
    }
    assert_eq!(
        chunks,
        [
            RowChunk { y_offset: 0, active_height: 8, completed_rows: 8 },
            RowChunk { y_offset: 8, active_height: 8, completed_rows: 16 },
            RowChunk { y_offset: 16, active_height: 4, completed_rows: 20 },
        ]
    );
}

#[test]
fn progressive_batches_adapt_to_the_interval() {
    let config = config(100);
    let options = ProgressiveBakeOptions::default();
    assert_eq!(options.update_interval_nanos, 500_000_000);
    let mut schedule = ProgressiveSchedule::new(100, 4, options.update_interval_nanos);
    let mut counts = Vec::new();
    let mut completed = 0;
    while let Some(batch) = schedule.begin_batch(&config) {
        assert_eq!(batch.sample_offset, completed);
        completed = batch.sample_limit;
        counts.push(batch.sample_limit - batch.sample_offset);
        let elapsed = if counts.len() == 5 { 2_000_000_000 } else { 1 };
        schedule.finish_batch(elapsed);
    }
    assert_eq!(counts, [1, 2, 4, 8, 16, 8, 16, 32, 13]);
    assert_eq!(completed, 100);
    assert_eq!(ProgressiveSchedule::new(1, 1, 0).target_nanos, 1_000_000);
}

#[test]
fn the_path_of_a_bake_follows_its_settings() {
    assert_eq!(bake_path(&config(2047)), Ok(BakePath::Rows));
    assert_eq!(bake_path(&config(2048)), Ok(BakePath::SampleParallel));
    assert_eq!(atlas_path(&config(1)), Ok(AtlasPath::Whole(BakePath::Rows)));
    let full = ResolvedBakeConfig {
        mode: BakeMode::Full,
        light_width: 3,
        light_height: 2,
        ..config(1)
    };
    match atlas_path(&full).unwrap() {
        AtlasPath::Tiled(grid) => {
            assert_eq!((grid.atlas_width, grid.atlas_height), (12, 4));
            assert_eq!((grid.light_count, grid.pixel_count), (6, 48));
        }
        AtlasPath::Whole(_) => panic!("several lights make several tiles"),
    }
    assert_eq!(tile_position(4, 3), (1, 1));
}

#[test]
fn only_single_mode_takes_the_light_of_the_settings() {
    for mode in [BakeMode::Full, BakeMode::Isotropic] {
        let one_light = ResolvedBakeConfig { mode, width: 1, ..config(1) };
        match atlas_path(&one_light).unwrap() {
            AtlasPath::Tiled(grid) => assert_eq!((grid.light_count, grid.pixel_count), (1, 2)),
            AtlasPath::Whole(_) => panic!("a grid of one light makes one tile"),
        }
    }
    let single = ResolvedBakeConfig { light_width: 3, light_height: 2, ..config(2048) };
    assert_eq!(atlas_path(&single), Ok(AtlasPath::Whole(BakePath::SampleParallel)));
}

#[test]
fn tiles_fill_the_atlas() {
    let full = ResolvedBakeConfig {
        mode: BakeMode::Full,
        light_width: 3,
        light_height: 2,
        ..config(1)
    };
    let AtlasPath::Tiled(grid) = atlas_path(&full).unwrap() else {
        panic!("several lights make several tiles");
    };
    let mut atlas = vec![vector(-1.0, 0.0, 0.0); grid.pixel_count];
    for tile in 0..grid.light_count {
        let pixels: Vec<_> = (0..8).map(|p| vector(tile as f32, p as f32, 0.0)).collect();
        blit_tile(&mut atlas, &grid, &pixels, tile);
    }
    for y in 0..4usize {
        for x in 0..12usize {
            let tile = (y / 2) * 3 + x / 4;
            let pixel = (y % 2) * 4 + x % 4;
            assert_eq!(atlas[y * 12 + x], vector(tile as f32, pixel as f32, 0.0));
        }
    }
}

#[test]
fn lanes_are_added_up_in_order() {
    let mut sums = vec![vector(1.0, 0.0, 0.0), vector(0.0, 1.0, 0.0)];
    let partials: Vec<_> = (0..7).map(|i| rgba(i as f32, 2.0 * i as f32, 0.5)).collect();
    add_lanes(&mut sums, &partials, 1, 3, &math());
    assert_eq!(sums[0], vector(1.0 + 1.0 + 3.0 + 5.0, 2.0 + 6.0 + 10.0, 1.5));
    assert_eq!(sums[1], vector(2.0 + 4.0 + 6.0, 1.0 + 4.0 + 8.0 + 12.0, 1.5));
    let halved = average_pixels(&sums, 2, &math());
    assert_eq!(halved[0], vector(5.0, 9.0, 0.75));
    assert_eq!(value(average_pixels(&sums, 49, &math())[0].x), 10.0 / 49.0);
    assert_eq!(value(scale_pixels(&sums, 49, &math())[0].x), 10.0 * (1.0 / 49.0));
    assert_eq!(rgb_pixels(&partials)[2], vector(2.0, 4.0, 0.5));
}

#[test]
fn stats_count_rays_and_traces() {
    let config = config(10);
    let stats = bake_stats(&config, 5, 3, 2, 1, 1, 10, times(1));
    assert_eq!(stats.camera_ray_count, 80);
    assert_eq!(stats.max_periodic_copies_per_ray, 25);
    assert_eq!(stats.max_bvh_traces, 4000);
    let mut total = None;
    add_tile_stats(&mut total, &stats, 12, 4);
    assert_eq!(total.unwrap().width, 12);
    let untimed = xbrdf::stats::GpuBakeStats {
        times: BakeTimes { gpu_timestamp: None, ..times(2) },
        ..stats
    };
    add_tile_stats(&mut total, &untimed, 12, 4);
    let total = total.unwrap();
    assert_eq!((total.dispatch_count, total.camera_ray_count), (2, 160));
    assert_eq!(total.times.readback, 3);
    assert_eq!(total.times.gpu_timestamp, None);
    assert_eq!(remaining_nanos(10, 3, 4), 3);
    assert_eq!(remaining_nanos(10, 7, 4), 0);
    assert_eq!(nanos_per_tile(10, 3), 3);
    assert_eq!(reported_setup(false, 0, 4, 5), (4, 5));
    assert_eq!(reported_setup(false, 1, 4, 5), (0, 0));
    assert_eq!(reported_setup(true, 0, 4, 5), (0, 0));
}

#[test]
fn timestamps_are_paired() {
    assert_eq!(query_count(0), None);
    assert_eq!(query_count(3), Some(6));
    assert_eq!(query_count(u32::MAX), None);
    assert_eq!(query_bytes(6), 48);
    assert_eq!(pass_queries(2), (4, 5));
    assert_eq!(pass_ticks(&vec![10, 15, 7, 3, 1]), [5, 0]);
    assert_eq!(row_bytes(4, 2, 3).offset, 128);
    assert_eq!(row_bytes(4, 2, 3).size, 192);
    assert_eq!(tile_bytes(3, 100).offset, 300);
}

#[test]
fn shader_parameters_follow_the_settings() {
    let mesh = tile_mesh(1.0);
    let scene = SceneGpuParams::new(&mesh, 7, 3, tolerances(&mesh));
    let config = ResolvedBakeConfig {
        sampler: SamplerKind::Random,
        light: vector(0.0, 0.5, 0.0),
        ..config(300)
    };
    let params = sample_parallel_params(&config, scene, 64, 5, &math());
    assert_eq!((params.width, params.height, params.samples), (4, 2, 64));
    assert_eq!((params.triangle_count, params.node_count), (7, 3));
    assert_eq!((params.sample_limit, params.target_samples, params.sample_lanes), (300, 300, 5));
    assert_eq!((params.material_code, params.sampler_code, params.shadow_code), (0, 1, 1));
    assert_eq!(value(params.material_params.x), 2.0);
    assert_eq!(value(params.material_params.z), 0.0);
    assert_eq!(value(params.material_params.w), 1.0);
    assert_eq!(value(params.bounds_min.y), -0.25);
    assert_eq!(sampler_code(SamplerKind::Halton), 0);
}

#[test]
fn scene_keys_tell_scenes_apart() {
    let mesh = tile_mesh(1.0);
    let key = mesh_cache_key(&mesh);
    let mut bytes = Vec::new();
    for v in [mesh.bounds.min, mesh.bounds.max] {
        for c in [v.x, v.y, v.z] {
            bytes.extend_from_slice(&c.to_bits().to_le_bytes());
        }
    }
    for c in [mesh.tile_min_x, mesh.tile_min_z, mesh.tile_width, mesh.tile_depth] {
        bytes.extend_from_slice(&c.to_bits().to_le_bytes());
    }
    assert_eq!(&key, blake3::hash(&bytes).as_bytes());
    let mut hasher = blake3::Hasher::new();
    for chunk in bytes.chunks(4) {
        hasher.update(chunk);
    }
    assert_eq!(&key, hasher.finalize().as_bytes());
    let other = Mesh { triangles: vec![triangle(1.0)], ..tile_mesh(1.0) };
    assert_ne!(key, mesh_cache_key(&other));
    assert!(is_cached(Some(&key), &mesh_cache_key(&tile_mesh(1.0))));
    assert!(!is_cached(Some(&key), &mesh_cache_key(&other)));
    assert!(!is_cached(None, &key));
}
