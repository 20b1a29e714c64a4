use std::path::PathBuf;
use xbrdf::arithmetic::{Arithmetic, Operation};
use xbrdf::atlas::AtlasMetadata;
use xbrdf::config::{BakeMode, MaterialKind, ResolvedBakeConfig, ResolvedMaterial, SamplerKind};
use xbrdf::double::Double;
use xbrdf::fbx::{Node, Property};
use xbrdf::geometry::Triangle;
use xbrdf::math::Vec3;
use xbrdf::preview::{PreviewImage, PreviewMeta};
use xbrdf::preview_mesh::{build_torus, smooth_position_key, torus_indices, Cell, PreviewError};
use xbrdf::reference::{
    intersect_triangle, normalized_lambertian, normalized_phong_specular, INV_PI_BITS,
};
use xbrdf::report::{
    assemble_vec3, components, dispatch_line, geometry_line, image_line, mode_line, sampling_line,
    shadows_line, size_mismatch_message,
};
use xbrdf::sampling::LatlongMath;
use xbrdf::scalar::Scalar;
use xbrdf::session::{
    history_ticks, is_progressive, progress_label, total_work, AtlasProgressFrame, BakeEvent,
    Progress, ProgressiveFrame, RenderSnapshot, Session,
};
use xbrdf::settings::{
    choose_override_path, extents_label, gui_text, is_preview_extension, path_to_gui_string,
    preview_extents, preview_label, selected_model, trimmed_path, trimmed_text, BakeSettings,
    PreviewModelOption, PreviewModelSource,
};
use xbrdf::stats::{BakeTimes, GpuBakeStats};

fn number(value: f32) -> Scalar {
    Scalar::from_bits(value.to_bits())
}

fn value(number: Scalar) -> f32 {
    f32::from_bits(number.to_bits())
}

fn vector(x: f32, y: f32, z: f32) -> Vec3 {
    Vec3::new(number(x), number(y), number(z))
}

fn compute(operation: Operation, a: Scalar, b: Scalar) -> Scalar {
    let (a, b) = (value(a), value(b));
    number(match operation {
        Operation::Sum => a + b,
        Operation::Difference => a - b,
        Operation::Product => a * b,
        Operation::Quotient => a / b,
        Operation::Power => a.powf(b),
    })
}

fn normalize(v: Vec3) -> Option<Vec3> {
    let (x, y, z) = (value(v.x), value(v.y), value(v.z));
    let length = (x * x + y * y + z * z).sqrt();
    if length > 0.0 && length.is_finite() {
        Some(vector(x / length, y / length, z / length))
    } else {
        None
    }
}

fn math() -> Arithmetic<
    impl Copy + Fn(Operation, Scalar, Scalar) -> Scalar,
    impl Copy + Fn(Vec3) -> Option<Vec3>,
> {
    Arithmetic { compute, normalize }
}

fn latlong() -> LatlongMath<
    impl Copy + Fn(Operation, Scalar, Scalar) -> Scalar,
    impl Copy + Fn(Vec3) -> Option<Vec3>,
    impl Fn(Scalar) -> Scalar,
    impl Fn(Scalar) -> Scalar,
> {
    LatlongMath {
        operations: math(),
        sine: |angle: Scalar| number(value(angle).sin()),
        cosine: |angle: Scalar| number(value(angle).cos()),
    }
}

fn stats() -> GpuBakeStats {
    GpuBakeStats {
        triangle_count: 12,
        bvh_node_count: 7,
        width: 16,
        height: 8,
        samples: 64,
        max_repeat_radius: 2,
        rows_per_dispatch: 8,
        dispatch_count: 1,
        sample_lanes: 1,
        samples_per_lane: 64,
        camera_ray_count: 8192,
        max_periodic_copies_per_ray: 25,
        max_bvh_traces: 409_600,
        times: BakeTimes {
            bvh_build: 0,
            gpu_setup: 0,
            gpu_dispatch: 0,
            gpu_timestamp: None,
            readback: 0,
        },
    }
}

fn config() -> ResolvedBakeConfig {
    ResolvedBakeConfig {
        obj: "flat.obj".into(),
        width: 16,
        height: 8,
        mode: BakeMode::Full,
        light_width: 4,
        light_height: 3,
        samples: 64,
        tile_width_override: None,
        tile_depth_override: None,
        light: vector(0.0, 1.0, 0.0),
        max_repeat_radius: 2,
        sampler: SamplerKind::Random,
        enable_shadows: false,
        material: ResolvedMaterial {
            kind: MaterialKind::SpecularPhong,
            color: vector(1.0, 0.5, 0.25),
            roughness: Some(number(0.125)),
        },
    }
}

fn snapshot(label: &str) -> RenderSnapshot {
    RenderSnapshot {
        image: PreviewImage::new(2, 2, PreviewMeta::default()),
        label: label.to_string(),
    }
}

fn frame(completed: u32, level: f32) -> BakeEvent {
    BakeEvent::Frame(ProgressiveFrame {
        completed_samples: completed,
        total_samples: 8,
        width: 1,
        height: 1,
        pixels: vec![vector(level, 0.0, 0.0)],
    })
}

fn finished() -> BakeEvent {
    BakeEvent::Finished {
        stats: stats(),
        image: "out/xbrdf_view.exr".to_string(),
        manifest: "out/manifest.toml".to_string(),
    }
}

#[test]
fn history_evicts_oldest_images_to_fit_budget() {
    let mut app = Session::default();
    for label in ["first", "second", "third"] {
        app.history.push(snapshot(label));
    }
    let one_image_bytes = app.history[0].image.rgb.len() * std::mem::size_of::<[f32; 3]>()
        + app.history[0].image.rgba.len();
    app.trim_history(one_image_bytes);
    assert_eq!(app.history.len(), 1);
    assert_eq!(app.history[0].label, "third");
}

#[test]
fn the_selected_snapshot_stays_selected_while_it_is_kept() {
    let mut app = Session::default();
    for label in ["first", "second", "third"] {
        app.push_history(snapshot(label));
    }
    assert_eq!(app.history_index, 2);
    assert_eq!(app.history_bytes(), 3 * (4 * 12 + 16));
    app.select_history(1);
    assert!(!app.follow_latest);
    app.trim_history(2 * 64);
    assert_eq!((app.history.len(), app.history_index), (2, 0));
    assert_eq!(app.history[0].label, "second");
    app.trim_history(0);
    assert_eq!((app.history.len(), app.history_index), (1, -1));
    app.select_history(-7);
    assert_eq!(app.history_index, 0);
    assert!(app.follow_latest);
    app.select_history(99);
    assert_eq!(app.history_index, 0);
    app.clear_history();
    assert_eq!((app.history.len(), app.history_index), (0, -1));
    assert_eq!((app.preview.width, app.preview.rgb.len()), (0, 0));
    app.select_history(0);
    assert_eq!(app.history_index, -1);
}

#[test]
fn a_bake_runs_from_start_to_history() {
    let mut app = Session::default();
    assert_eq!(app.status, "Idle");
    assert!(app.start_bake());
    assert!(!app.start_bake());
    assert_eq!(app.status, "Starting bake");
    assert!(app.receive(BakeEvent::Status("Loading geometry".to_string()), &math()));
    assert_eq!(app.status, "Loading geometry");
    let meta = PreviewMeta::default();
    assert!(app.receive(BakeEvent::Started { width: 1, height: 1, meta, total_work: 8 }, &math()));
    assert_eq!((app.total_samples, app.completed_samples), (8, 0));
    assert!(app.take_preview_change());
    assert!(!app.take_preview_change());
    assert_eq!(app.preview_version, 1);
    assert!(app.receive(frame(3, 0.5), &math()));
    assert_eq!(app.status, "Baking samples 3 / 8");
    assert_eq!(app.progress, Progress { done: 3, whole: 8 });
    assert_eq!(app.preview.rgb[0], vector(0.5, 0.0, 0.0));
    assert_eq!(app.preview.rgba, [186, 0, 0, 255]);
    assert!(app.cancel_bake());
    assert_eq!(app.status, "Cancelling bake");
    assert!(!app.receive(finished(), &math()));
    assert!(!app.baking);
    assert!(!app.cancel_bake());
    assert_eq!(app.status, "Wrote out/xbrdf_view.exr and out/manifest.toml");
    assert_eq!(app.progress, Progress { done: 1, whole: 1 });
    assert_eq!(app.completed_samples, 8);
    assert_eq!(app.history[0].label, "8 samples");
    assert_eq!(app.history[0].image.rgb[0], vector(0.5, 0.0, 0.0));
    assert_eq!(app.last_stats, Some(stats()));
    assert!(app.latest_bake_preview.is_none());
}

#[test]
fn an_old_snapshot_stays_in_view_during_a_bake() {
    let mut app = Session::default();
    app.push_history(snapshot("first"));
    app.push_history(snapshot("second"));
    app.start_bake();
    app.select_history(0);
    app.receive(frame(1, 0.25), &math());
    assert_eq!(app.preview.width, 2);
    assert_eq!(app.latest_bake_preview.as_ref().unwrap().width, 1);
    let tiles = AtlasProgressFrame {
        completed_tiles: 2,
        total_tiles: 0,
        width: 1,
        height: 1,
        pixels: vec![vector(1.0, 1.0, 1.0)],
    };
    app.receive(BakeEvent::AtlasFrame(tiles), &math());
    assert_eq!(app.status, "Baking atlas tile 2 / 0");
    assert_eq!(app.progress, Progress { done: 0, whole: 1 });
    app.receive(finished(), &math());
    assert_eq!((app.history.len(), app.history_index), (3, 0));
    assert_eq!(app.history[2].image.rgb[0], vector(1.0, 1.0, 1.0));
}

#[test]
fn a_bake_keeps_its_own_layout_while_another_image_is_shown() {
    let single = PreviewMeta::default();
    let full = PreviewMeta::from_config(&config());
    assert!(single != full);
    let mut app = Session::default();
    app.push_history(RenderSnapshot {
        image: PreviewImage::new(2, 2, full),
        label: "full".to_string(),
    });
    app.start_bake();
    app.receive(BakeEvent::Started { width: 1, height: 1, meta: single, total_work: 8 }, &math());
    app.select_history(0);
    app.push_history(snapshot("newer"));
    app.select_history(0);
    assert!(!app.follow_latest);
    assert_eq!(app.preview.meta, full);
    app.receive(frame(8, 0.5), &math());
    assert_eq!(app.preview.meta, full);
    assert_eq!(app.latest_bake_preview.as_ref().unwrap().meta, single);
    app.receive(finished(), &math());
    let kept = app.history.last().unwrap();
    assert_eq!(kept.image.meta, single);
    assert_eq!(kept.label, "8 samples");
    assert_eq!(kept.image.rgb[0], vector(0.5, 0.0, 0.0));
}

#[test]
fn colors_are_encoded_for_the_screen() {
    let levels = [0.0, 0.001, 0.18, 0.5, 0.999, 1.0, 7.0, -1.0, f32::NAN, f32::INFINITY];
    for exposure in [0.0, 1.0, -2.5] {
        let mut image = PreviewImage::new(1, 1, PreviewMeta::default());
        image.exposure = number(exposure);
        for level in levels {
            image.write_pixels(&vec![vector(level, 0.0, 0.0)], &math());
            let encoded = (level * 2.0f32.powf(exposure)).max(0.0).powf(1.0 / 2.2);
            let byte = (encoded.clamp(0.0, 1.0) * 255.0 + 0.5) as u8;
            assert_eq!(image.rgba, [byte, 0, 0, 255], "{level} at {exposure}");
        }
    }
}

#[test]
fn positions_fall_into_cells() {
    for c in [0.0f32, 1.0e-5, 0.000_014_9, 0.000_015, -0.000_015, 0.5, -3.25, 1.0e9, f32::NAN] {
        let cell = smooth_position_key(vector(c, -c, 2.0 * c), &math());
        let of = |x: f32| (x * 100_000.0).round() as i32;
        assert_eq!(cell, Cell { x: of(c), y: of(-c), z: of(2.0 * c) });
    }
}

#[test]
fn an_error_ends_a_bake() {
    let mut app = Session::default();
    app.start_bake();
    app.receive(frame(1, 0.25), &math());
    assert!(!app.receive(BakeEvent::Error("bake cancelled".to_string()), &math()));
    assert!(!app.baking);
    assert_eq!(app.status, "bake cancelled");
    assert!(app.latest_bake_preview.is_none());
    assert!(app.history.is_empty());
}

#[test]
fn loaded_atlases_are_kept() {
    let mut app = Session::default();
    let image = PreviewImage::from_pixels(
        1,
        2,
        &vec![vector(1.0, 2.0, 3.0), vector(4.0, 5.0, 6.0), vector(7.0, 8.0, 9.0)],
        PreviewMeta::default(),
        &math(),
    );
    assert_eq!(image.pixel(0, 1), vector(4.0, 5.0, 6.0));
    assert!(image.can_save());
    assert!(!PreviewImage::default().can_save());
    app.accept_loaded(image, "out/xbrdf_current_atlas.exr");
    assert_eq!(app.history[0].label, "loaded atlas");
    assert_eq!(app.status, "Loaded current atlas out/xbrdf_current_atlas.exr");
    assert_eq!(app.preview.height, 2);
}

#[test]
fn metadata_round_trips() {
    let meta = PreviewMeta::from_config(&config());
    let metadata = meta.to_atlas_metadata(64, 24);
    assert_eq!(metadata, AtlasMetadata::from_config(&config()));
    assert_eq!(PreviewMeta::from_atlas_metadata(metadata), meta);
    assert_eq!(meta.mode_code(), 1);
    assert_eq!(
        size_mismatch_message(3, 4, &metadata),
        "atlas dimensions 3x4 do not match metadata 64x24"
    );
}

#[test]
fn labels_count_work() {
    assert_eq!(progress_label(BakeMode::Single, 0, 64), "0 / 64 samples");
    assert_eq!(progress_label(BakeMode::Full, 10, 12), "10 / 12 tiles");
    assert_eq!(total_work(&config()), 12);
    assert!(!is_progressive(&config()));
    let single = ResolvedBakeConfig { mode: BakeMode::Single, ..config() };
    assert_eq!(total_work(&single), 64);
    assert!(is_progressive(&single));
    assert_eq!(history_ticks(3), [0, 1, 2]);
    assert_eq!(history_ticks(0), []);
    let many = history_ticks(200);
    assert_eq!((many.len(), many[1], many[66]), (67, 3, 198));
}

#[test]
fn entered_settings_are_clamped() {
    let mut settings = BakeSettings {
        width: 0,
        height: 20_000,
        samples: i32::MAX,
        max_repeat_radius: -1,
        roughness: number(2.0),
        update_interval_seconds: number(0.0),
        preview_model_index: 9,
        ..BakeSettings::default()
    };
    settings.clamp_inputs(3);
    assert_eq!((settings.width, settings.height), (1, 16_384));
    assert_eq!((settings.samples, settings.max_repeat_radius), (100_000_000, 0));
    assert_eq!(settings.roughness, number(1.0));
    assert_eq!(settings.update_interval_seconds, number(0.05));
    assert_eq!(settings.preview_model_index, 2);
    assert_eq!(selected_model(0, 0), 0);
}

#[test]
fn settings_take_over_and_give_back_a_configuration() {
    let mut settings = BakeSettings::default();
    settings.take_over(&config(), "flat.obj".to_string());
    assert_eq!(settings.bake_mode(), BakeMode::Full);
    assert_eq!(settings.sampler_kind(), SamplerKind::Random);
    assert_eq!(settings.material_kind(), MaterialKind::SpecularPhong);
    assert_eq!(settings.preview_light, vector(0.0, 1.0, 0.0));
    let overrides = settings.overrides(None);
    assert_eq!(overrides.width, Some(16));
    assert_eq!(overrides.mode, Some(BakeMode::Full));
    assert_eq!(overrides.material_roughness, Some(number(0.125)));
    assert_eq!(overrides.tile_width, None);
    let extents = preview_extents(&settings);
    assert_eq!((extents.atlas_width, extents.atlas_height), (64, 24));
    assert_eq!(
        extents_label(&extents),
        "Output 64x24; tile 16x8; 12 light directions"
    );
}

#[test]
fn loaded_atlases_take_the_layout_of_the_settings() {
    let settings = |mode_index| BakeSettings {
        width: 16,
        height: 8,
        light_width: 4,
        light_height: 3,
        mode_index,
        ..BakeSettings::default()
    };
    let meta = |mode, camera_width, light_width, light_height| PreviewMeta {
        mode,
        camera_width,
        camera_height: 8,
        light_width,
        light_height,
    };
    assert_eq!(settings(0).preview_meta(), meta(BakeMode::Single, 16, 1, 1));
    assert_eq!(settings(1).preview_meta(), meta(BakeMode::Full, 16, 4, 3));
    assert_eq!(settings(2).preview_meta(), meta(BakeMode::Isotropic, 1, 4, 3));
    assert!(settings(0).atlas_metadata().dimensions_match(16, 8));
    assert!(settings(1).atlas_metadata().dimensions_match(64, 24));
    assert!(settings(2).atlas_metadata().dimensions_match(4, 24));
    assert!(!settings(2).atlas_metadata().dimensions_match(64, 24));
    assert!(!settings(2).atlas_metadata().camera_azimuth_wraps);
}

#[test]
fn paths_are_shown_with_slashes() {
    assert_eq!(gui_text("a\\b/c\\"), "a/b/c/");
    assert_eq!(path_to_gui_string(&PathBuf::from("a/b.obj")), "a/b.obj");
    assert_eq!(trimmed_text("  "), None);
    assert_eq!(trimmed_text(" a b\n"), Some("a b".to_string()));
    assert_eq!(trimmed_path(" x "), Some(PathBuf::from("x")));
    assert_eq!(trimmed_path(""), None);
    let path = || PathBuf::from("p");
    assert_eq!(choose_override_path(path(), true, Some("c".into()), None), path());
    assert_eq!(
        choose_override_path(path(), false, Some("c".into()), Some("w".into())),
        PathBuf::from("c")
    );
    assert_eq!(choose_override_path(path(), false, None, Some("w".into())), PathBuf::from("w"));
    assert_eq!(choose_override_path(path(), false, None, None), path());
}

#[test]
fn preview_models_are_told_apart() {
    let torus = PreviewModelOption { label: "Torus".into(), source: PreviewModelSource::Torus };
    assert_eq!(torus.key(), "synthetic:torus");
    let pig = PreviewModelOption {
        label: preview_label(Some("pig")),
        source: PreviewModelSource::Fbx("assets/preview/pig.fbx".into()),
    };
    assert_eq!(pig.key(), "assets/preview/pig.fbx");
    assert_eq!(preview_label(None), "FBX");
    assert!(is_preview_extension(Some("FbX")));
    assert!(!is_preview_extension(Some("obj")));
    assert!(!is_preview_extension(None));
}

#[test]
fn the_report_states_counts() {
    assert_eq!(image_line(&stats()), "  image: 16x8 (128 pixels)");
    assert_eq!(
        mode_line(&config()),
        "  mode: full, camera tile 16x8, light grid 4x3 (12 light directions)"
    );
    assert_eq!(geometry_line(&stats()), "  geometry: 12 triangles, 7 BVH nodes");
    assert_eq!(
        sampling_line(&config(), &stats()),
        "  sampling: 64 samples/pixel, random, 8192 camera rays, max repeat radius 2, max 25 periodic copies/ray"
    );
    assert_eq!(shadows_line(&config()), "  shadows: disabled");
    assert_eq!(
        dispatch_line(&config(), &stats()),
        "  dispatch: 1 row chunks, 8 rows/chunk, max 409600 BVH traces (camera visibility only)"
    );
    let lanes = GpuBakeStats { sample_lanes: 4, ..stats() };
    let shadowed = ResolvedBakeConfig { enable_shadows: true, ..config() };
    assert_eq!(
        dispatch_line(&shadowed, &lanes),
        "  dispatch: 1 sample waves, 8 rows/wave, up to 4 sample lanes x 64 samples/lane, max 409600 BVH traces (including shadows)"
    );
}

#[test]
fn vectors_are_read_from_text() {
    let read = |text: &str| {
        let parts = components(text);
        let read = parts.iter().map(|part| part.parse().ok().map(number)).collect();
        assemble_vec3(&parts, &read)
    };
    assert_eq!(read("1, -2.5 ,3"), Ok(vector(1.0, -2.5, 3.0)));
    assert_eq!(read("1,2"), Err("expected x,y,z".to_string()));
    assert_eq!(read("1,2,3,"), Err("expected x,y,z".to_string()));
    assert_eq!(read("1, y ,z"), Err("invalid float component `y`".to_string()));
    assert_eq!(components("a,,\u{e4} "), ["a", "", "\u{e4}"]);
    assert_eq!(components(""), [""]);
}

#[test]
fn ray_triangle_hit_works() {
    let math = math();
    let triangle = Triangle {
        v0: vector(-1.0, 0.0, -1.0),
        v1: vector(1.0, 0.0, -1.0),
        v2: vector(0.0, 0.0, 1.0),
        normal: vector(0.0, 1.0, 0.0),
        color: vector(1.0, 1.0, 1.0),
    };

    let hit = intersect_triangle(
        vector(0.0, 1.0, 0.0),
        vector(0.0, -1.0, 0.0),
        &triangle,
        &math,
    )
    .unwrap();

    assert!((value(hit.t) - 1.0).abs() < 1.0e-5);
    let position = hit.position;
    assert_eq!((value(position.x), value(position.y), value(position.z)), (0.0, 0.0, 0.0));
    let miss = |x, y, z| {
        intersect_triangle(vector(x, 1.0, 0.0), vector(0.0, y, z), &triangle, &math).is_none()
    };
    assert!(miss(0.0, 1.0, 0.0));
    assert!(miss(3.0, -1.0, 0.0));
    assert!(miss(-0.9, -1.0, 0.0));
    assert!(miss(0.0, 0.0, 1.0));
}

#[test]
fn flat_lambertian_normalizes_to_inverse_pi() {
    let math = math();
    let light = normalize(vector(0.0, 1.0, -1.0)).unwrap();
    let response = normalized_lambertian(vector(0.0, 1.0, 0.0), light, &math);

    assert!((value(response) - value(Scalar::from_bits(INV_PI_BITS))).abs() < 1.0e-5);
    assert_eq!(value(Scalar::from_bits(INV_PI_BITS)), 1.0 / std::f32::consts::PI);
}

#[test]
fn phong_specular_peaks_at_mirror_direction() {
    let math = math();
    let up = vector(0.0, 1.0, 0.0);
    let light = normalize(vector(0.0, 1.0, -1.0)).unwrap();
    let mirror = normalize(vector(0.0, value(light.y), -value(light.z))).unwrap();
    let off_mirror = normalize(vector(0.2, value(light.y), -value(light.z))).unwrap();

    let peak = value(normalized_phong_specular(up, light, mirror, number(500.0), &math));
    let off_peak = value(normalized_phong_specular(up, light, off_mirror, number(500.0), &math));

    assert!(peak > 10.0, "{peak}");
    assert!(off_peak < peak * 0.1, "peak={peak} off_peak={off_peak}");
    let behind = normalized_phong_specular(
        vector(0.0, -1.0, 0.0),
        light,
        mirror,
        number(500.0),
        &math,
    );
    assert_eq!(value(behind), 0.0);
}

fn geometry(vertices: &[f32], indices: &[i32], uvs: Option<&[f32]>) -> Vec<Node> {
    let leaf = |name: &str, property| Node {
        name: name.to_string(),
        properties: vec![property],
        children: Vec::new(),
    };
    let numbers = |values: &[f32]| {
        values.iter().map(|v| Double::from_bits(f64::from(*v).to_bits())).collect()
    };
    let mut children = vec![
        leaf("Vertices", Property::FloatArray(numbers(vertices))),
        leaf("PolygonVertexIndex", Property::I32Array(indices.to_vec())),
    ];
    if let Some(uvs) = uvs {
        children.push(Node {
            name: "LayerElementUV".to_string(),
            properties: Vec::new(),
            children: vec![
                leaf("MappingInformationType", Property::Text("ByVertice".to_string())),
                leaf("UV", Property::FloatArray(numbers(uvs))),
            ],
        });
    }
    vec![Node { name: "Geometry".to_string(), properties: Vec::new(), children }]
}

const QUAD: [f32; 12] = [0.0, 0.0, 0.0, 0.0, 0.0, 2.0, 2.0, 0.0, 2.0, 2.0, 0.0, 0.0];

#[test]
fn preview_models_are_fanned_smoothed_and_fitted() {
    let math = math();
    let roots = geometry(&QUAD, &[0, 1, 2, -4], None);
    let (vertices, indices) = math.load_preview_fbx(&roots).unwrap();
    assert_eq!(indices, [0, 1, 2, 3, 4, 5]);
    assert_eq!(vertices.len(), 6);
    assert!((value(vertices[0].position.x) + 0.9).abs() < 1.0e-6);
    assert!((value(vertices[2].position.x) - 0.9).abs() < 1.0e-6);
    for vertex in &vertices {
        assert!((value(vertex.normal.y) - 1.0).abs() < 1.0e-6);
    }
    assert_eq!(vertices[0].normal, vertices[3].normal);

    let uvs = [0.0, 0.0, 0.0, 1.0, 1.0, 1.0, 1.0, 0.0];
    let roots = geometry(&QUAD, &[0, 1, 2, -4], Some(&uvs));
    let (vertices, _) = math.load_preview_fbx(&roots).unwrap();
    assert!((value(vertices[0].tangent.x) - 1.0).abs() < 1.0e-6);
}

#[test]
fn unusable_preview_models_are_refused() {
    let math = math();
    let load = |vertices: &[f32], indices: &[i32]| {
        math.load_preview_fbx(&geometry(vertices, indices, None)).unwrap_err()
    };
    assert_eq!(load(&QUAD[1..], &[0, 1, -3]), PreviewError::RaggedVertices);
    assert_eq!(load(&[f32::NAN, 0.0, 0.0], &[0]), PreviewError::NonFinitePosition);
    assert_eq!(load(&QUAD, &[0, i32::MIN, 9]), PreviewError::InvalidIndex);
    assert_eq!(load(&QUAD, &[0, 9, i32::MIN]), PreviewError::IndexOutOfRange);
    assert_eq!(load(&QUAD, &[0, 1, 2]), PreviewError::NoTriangles);
    assert_eq!(load(&QUAD, &[0, 0, -2]), PreviewError::NoTriangles);
    assert_eq!(
        PreviewError::NoTriangles.message(),
        "FBX contains no previewable triangle mesh"
    );
}

#[test]
fn a_torus_closes_around() {
    let (vertices, indices) = build_torus(3, 4, number(0.86), number(0.28), &latlong());
    assert_eq!(vertices.len(), 12);
    let tau = std::f32::consts::TAU;
    let (su, cu) = (1.0f32 / 3.0 * tau).sin_cos();
    let (sv, cv) = (3.0f32 / 4.0 * tau).sin_cos();
    let ring = 0.86 + 0.28 * cv;
    assert_eq!(vertices[7].position, vector(ring * su, 0.28 * sv, ring * cu));
    let normal = normalize(vector(cv * su, sv, cv * cu)).unwrap();
    let tangent = normalize(vector(cu, 0.0, -su)).unwrap();
    assert_eq!((vertices[7].normal, vertices[7].tangent), (normal, tangent));
    assert_eq!(vertices[7].bitangent, math().cross(normal, tangent));
    assert_eq!(vertices[0].position, vector(0.0, 0.0, 0.86 + 0.28));
    assert_eq!(indices, torus_indices(3, 4));
    assert_eq!(indices.len(), 72);
    assert_eq!(indices[..6], [0, 4, 5, 0, 5, 1]);
    assert_eq!(indices[66..], [11, 3, 0, 11, 0, 8]);
    for vertex in 0..12 {
        assert_eq!(indices.iter().filter(|index| **index == vertex).count(), 6);
    }
}
