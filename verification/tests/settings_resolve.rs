use std::path::PathBuf;
use xbrdf::arithmetic::{Arithmetic, Operation};
use xbrdf::config::{
    parse_bake_mode, parse_material_kind, parse_sampler_kind, resolve_material, BakeConfigFile,
    BakeMode, BakeOverrides, ConfigError, MaterialConfigFile, MaterialKind, ResolvedBakeConfig,
    ResolvedMaterial, SamplerKind, DEFAULT_HEIGHT, DEFAULT_LIGHT_HEIGHT, DEFAULT_LIGHT_WIDTH,
    DEFAULT_MAX_REPEAT_RADIUS, MAX_PHONG_EXPONENT_BITS,
};
use xbrdf::geometry::{Bounds, ColorSource, Mesh};
use xbrdf::manifest::Manifest;
use xbrdf::math::Vec3;
use xbrdf::paths::{choose_path, resolve_path};
use xbrdf::sampling::{hemisphere_latlong_direction, LatlongMath};
use xbrdf::scalar::Scalar;

fn number(value: f32) -> Scalar {
    Scalar::from_bits(value.to_bits())
}

fn value(number: Scalar) -> f32 {
    f32::from_bits(number.to_bits())
}

fn vector(x: f32, y: f32, z: f32) -> Vec3 {
    Vec3::new(number(x), number(y), number(z))
}

fn normalize(v: Vec3) -> Option<Vec3> {
    let (x, y, z) = (value(v.x), value(v.y), value(v.z));
    let length = (x * x + y * y + z * z).sqrt();
    if length > 0.0 && length.is_finite() {
        Some(vector(x / length, y / length, z / length))
    } else {
        None
    }
}

fn compute(operation: Operation, a: Scalar, b: Scalar) -> Scalar {
    let (a, b) = (value(a), value(b));
    number(match operation {
        Operation::Sum => a + b,
        Operation::Difference => a - b,
        Operation::Product => a * b,
        Operation::Quotient => a / b,
        Operation::Power => a.powf(b),
    })
}

fn math() -> Arithmetic<
    impl Copy + Fn(Operation, Scalar, Scalar) -> Scalar,
    impl Copy + Fn(Vec3) -> Option<Vec3>,
> {
    Arithmetic { compute, normalize }
}

fn latlong() -> LatlongMath<
    impl Copy + Fn(Operation, Scalar, Scalar) -> Scalar,
    impl Copy + Fn(Vec3) -> Option<Vec3>,
    impl Fn(Scalar) -> Scalar,
    impl Fn(Scalar) -> Scalar,
> {
    LatlongMath {
        operations: math(),
        sine: |angle: Scalar| number(value(angle).sin()),
        cosine: |angle: Scalar| number(value(angle).cos()),
    }
}

fn with_obj() -> BakeConfigFile {
    BakeConfigFile { obj: Some("asset.obj".into()), ..BakeConfigFile::default() }
}

fn refused(file: BakeConfigFile, overrides: BakeOverrides) -> ConfigError {
    file.resolve(None, overrides, &normalize).unwrap_err()
}

fn base() -> ResolvedBakeConfig {
    ResolvedBakeConfig {
        obj: "flat.obj".into(),
        width: 16,
        height: 8,
        mode: BakeMode::Full,
        light_width: 4,
        light_height: 3,
        samples: 1,
        tile_width_override: None,
        tile_depth_override: None,
        light: vector(0.0, 1.0, 0.0),
        max_repeat_radius: DEFAULT_MAX_REPEAT_RADIUS,
        sampler: SamplerKind::Halton,
        enable_shadows: true,
        material: ResolvedMaterial {
            kind: MaterialKind::Lambertian,
            color: vector(1.0, 1.0, 1.0),
            roughness: None,
        },
    }
}

#[test]
fn defaults_and_overrides_resolve() {
    let config = BakeConfigFile {
        obj: Some("asset.obj".into()),
        width: Some(8),
        height: None,
        mode: None,
        light_width: None,
        light_height: None,
        samples: Some(2),
        tile_width: None,
        tile_depth: None,
        light: None,
        max_repeat_radius: None,
        sampler: None,
        enable_shadows: None,
        material: MaterialConfigFile::default(),
    };
    let overrides = BakeOverrides {
        width: Some(16),
        light: Some(vector(0.0, 2.0, 0.0)),
        ..BakeOverrides::default()
    };

    let path = PathBuf::from("assets/fixtures/flat.toml");
    let resolved = config.resolve(Some(&path), overrides, &normalize).unwrap();

    assert_eq!(resolved.obj, PathBuf::from("assets/fixtures/asset.obj"));
    assert_eq!(resolved.width, 16);
    assert_eq!(resolved.height, DEFAULT_HEIGHT);
    assert_eq!(resolved.mode, BakeMode::Single);
    assert_eq!(resolved.atlas_width(), 16);
    assert_eq!(resolved.atlas_height(), DEFAULT_HEIGHT);
    assert_eq!(resolved.samples, 2);
    assert_eq!(resolved.light, vector(0.0, 1.0, 0.0));
    assert_eq!(resolved.max_repeat_radius, DEFAULT_MAX_REPEAT_RADIUS);
    assert_eq!(resolved.sampler, SamplerKind::Halton);
    assert!(resolved.enable_shadows);
    assert_eq!(resolved.material.kind, MaterialKind::Lambertian);
}

#[test]
fn specular_material_resolves_with_sharp_exponent() {
    let config = BakeConfigFile {
        obj: Some("asset.obj".into()),
        material: MaterialConfigFile {
            kind: Some(MaterialKind::SpecularPhong),
            color: Some(vector(0.8, 0.9, 1.0)),
            roughness: Some(number(0.0)),
        },
        ..BakeConfigFile::default()
    };

    let resolved = config.resolve(None, BakeOverrides::default(), &normalize).unwrap();

    assert_eq!(resolved.material.kind, MaterialKind::SpecularPhong);
    assert_eq!(resolved.material.color, vector(0.8, 0.9, 1.0));
    assert_eq!(resolved.material.roughness, Some(number(0.0)));
    assert_eq!(
        resolved.material.phong_exponent(&math()),
        Some(Scalar::from_bits(MAX_PHONG_EXPONENT_BITS))
    );
    assert_eq!(value(Scalar::from_bits(MAX_PHONG_EXPONENT_BITS)), 1_000_000.0);
}

#[test]
fn roughness_is_clamped() {
    let specular = |roughness| MaterialConfigFile {
        kind: Some(MaterialKind::SpecularPhong),
        color: None,
        roughness: Some(number(roughness)),
    };
    for (given, kept) in [(1.5, 1.0), (-0.1, 0.0), (0.25, 0.25), (1.0, 1.0)] {
        assert_eq!(
            resolve_material(&specular(given), &BakeOverrides::default()),
            Ok(ResolvedMaterial {
                kind: MaterialKind::SpecularPhong,
                color: vector(1.0, 1.0, 1.0),
                roughness: Some(number(kept)),
            })
        );
    }
}

#[test]
fn rougher_materials_are_never_sharper() {
    let exponent = |roughness| {
        let material = ResolvedMaterial {
            kind: MaterialKind::SpecularPhong,
            color: vector(1.0, 1.0, 1.0),
            roughness,
        };
        value(material.phong_exponent(&math()).unwrap())
    };
    let mut sharper = 1_000_000.0;
    for step in 0..=1200 {
        let next = exponent(Some(number(step as f32 / 1000.0)));
        assert!(1.0 <= next && next <= sharper);
        sharper = next;
    }
    assert_eq!(exponent(Some(number(1.2))), exponent(Some(number(1.0))));
    assert_eq!(exponent(Some(number(-3.0))), exponent(Some(number(0.0))));
    assert_eq!(exponent(None), exponent(Some(number(0.05))));
}

#[test]
fn atlas_dimensions_follow_bake_mode() {
    let base = base();

    assert_eq!(base.camera_tile_width(), 16);
    assert_eq!(base.camera_tile_height(), 8);
    assert_eq!(base.atlas_width(), 64);
    assert_eq!(base.atlas_height(), 24);
    assert_eq!(base.light_count(), 12);

    let isotropic = ResolvedBakeConfig { mode: BakeMode::Isotropic, ..base };
    assert_eq!(isotropic.camera_tile_width(), 1);
    assert_eq!(isotropic.camera_tile_height(), 8);
    assert_eq!(isotropic.atlas_width(), 4);
    assert_eq!(isotropic.atlas_height(), 24);
}

#[test]
fn every_refusal_names_its_reason() {
    let color = |x, y, z| BakeOverrides {
        material_color: Some(vector(x, y, z)),
        ..BakeOverrides::default()
    };
    assert_eq!(refused(with_obj(), color(-0.1, 0.0, 0.0)), ConfigError::InvalidMaterialColor);
    assert_eq!(refused(with_obj(), color(0.0, f32::NAN, 0.0)), ConfigError::InvalidMaterialColor);
    for roughness in [f32::NAN, f32::INFINITY, f32::NEG_INFINITY] {
        let overrides = BakeOverrides {
            material_roughness: Some(number(roughness)),
            ..BakeOverrides::default()
        };
        assert_eq!(refused(with_obj(), overrides), ConfigError::InvalidMaterialRoughness);
    }
    assert_eq!(
        refused(BakeConfigFile::default(), BakeOverrides::default()),
        ConfigError::MissingObj
    );
    assert_eq!(
        refused(with_obj(), BakeOverrides { height: Some(0), ..BakeOverrides::default() }),
        ConfigError::InvalidResolution
    );
    assert_eq!(
        refused(with_obj(), BakeOverrides { light_width: Some(0), ..BakeOverrides::default() }),
        ConfigError::InvalidResolution
    );
    assert_eq!(
        refused(with_obj(), BakeOverrides { samples: Some(0), ..BakeOverrides::default() }),
        ConfigError::InvalidSamples
    );
    assert_eq!(
        refused(
            with_obj(),
            BakeOverrides { tile_depth: Some(number(0.0)), ..BakeOverrides::default() }
        ),
        ConfigError::InvalidTileOverride
    );
    for light in [vector(0.0, 0.0, 0.0), vector(1.0, -1.0, 0.0), vector(1.0, 1.0e-5, 0.0)] {
        let overrides = BakeOverrides { light: Some(light), ..BakeOverrides::default() };
        assert_eq!(refused(with_obj(), overrides), ConfigError::InvalidLight);
    }
    assert_eq!(
        refused(
            with_obj(),
            BakeOverrides { max_repeat_radius: Some(17), ..BakeOverrides::default() }
        ),
        ConfigError::InvalidMaxRepeatRadius
    );
    assert_eq!(
        ConfigError::InvalidMaxRepeatRadius.message(),
        "max_repeat_radius must be in the 0..=16 range"
    );
}

#[test]
fn what_an_override_sets_is_not_read_from_the_file() {
    let overrides = BakeOverrides {
        width: Some(3),
        mode: Some(BakeMode::Full),
        enable_shadows: Some(false),
        ..BakeOverrides::default()
    };
    let file = BakeConfigFile {
        width: Some(0),
        mode: Some(BakeMode::Isotropic),
        enable_shadows: Some(true),
        ..with_obj()
    };
    let resolved = file.resolve(None, overrides, &normalize).unwrap();
    assert_eq!(resolved.width, 3);
    assert_eq!(resolved.mode, BakeMode::Full);
    assert!(!resolved.enable_shadows);
    assert_eq!(resolved.obj, PathBuf::from("asset.obj"));
    assert_eq!((resolved.light_width, resolved.light_height), (8, 4));
    assert!((value(resolved.light.y) - 0.70710677).abs() < 1.0e-6);
    assert!((value(resolved.light.z) + 0.70710677).abs() < 1.0e-6);
}

#[test]
fn roughness_is_kept_for_specular_materials_only() {
    let overrides = |kind| BakeOverrides {
        material_kind: Some(kind),
        material_roughness: Some(number(0.25)),
        ..BakeOverrides::default()
    };
    let diffuse = with_obj().resolve(None, overrides(MaterialKind::Lambertian), &normalize).unwrap();
    assert_eq!(diffuse.material.roughness, None);
    assert_eq!(diffuse.material.phong_exponent(&math()), None);
    assert_eq!(diffuse.material.model_description(), "Lambertian diffuse BRDF");
    let specular =
        with_obj().resolve(None, overrides(MaterialKind::SpecularPhong), &normalize).unwrap();
    assert_eq!(specular.material.roughness, Some(number(0.25)));
    assert_eq!(specular.material.phong_exponent(&math()), Some(number(30.0)));
    let unset = BakeOverrides {
        material_kind: Some(MaterialKind::SpecularPhong),
        ..BakeOverrides::default()
    };
    let default = with_obj().resolve(None, unset, &normalize).unwrap();
    assert_eq!(default.material.roughness, Some(number(0.05)));
}

#[test]
fn names_are_read_in_any_case_and_with_white_space() {
    assert_eq!(parse_bake_mode(" Full\t"), Ok(BakeMode::Full));
    assert_eq!("4D".parse(), Ok(BakeMode::Full));
    assert_eq!(parse_bake_mode("fixed-light"), Ok(BakeMode::Single));
    assert_eq!(parse_bake_mode("ISO"), Ok(BakeMode::Isotropic));
    assert_eq!(
        parse_bake_mode("both"),
        Err("expected one of: single, full, isotropic".to_string())
    );
    assert_eq!(parse_sampler_kind("\u{a0}QMC\u{3000}"), Ok(SamplerKind::Halton));
    assert_eq!("hashed".parse(), Ok(SamplerKind::Random));
    assert_eq!(parse_sampler_kind(""), Err("expected one of: halton, random".to_string()));
    assert_eq!(parse_material_kind("Diffuse"), Ok(MaterialKind::Lambertian));
    assert_eq!("specular-phong".parse(), Ok(MaterialKind::SpecularPhong));
    assert_eq!(
        parse_material_kind("glass"),
        Err("expected one of: lambertian, specular_phong, specular".to_string())
    );
    for mode in [BakeMode::Single, BakeMode::Full, BakeMode::Isotropic] {
        assert_eq!(parse_bake_mode(mode.as_str()), Ok(mode));
    }
    for kind in [SamplerKind::Halton, SamplerKind::Random] {
        assert_eq!(parse_sampler_kind(kind.as_str()), Ok(kind));
    }
    for kind in [MaterialKind::Lambertian, MaterialKind::SpecularPhong] {
        assert_eq!(parse_material_kind(kind.as_str()), Ok(kind));
    }
}

#[test]
fn relative_paths_are_joined_to_a_directory() {
    let joined = resolve_path(Some("assets".into()), "mesh.obj".into());
    assert_eq!(joined, PathBuf::from("assets").join("mesh.obj"));
    assert_eq!(resolve_path(None, "mesh.obj".into()), PathBuf::from("mesh.obj"));
    assert_eq!(choose_path("/a".into(), true, Some("/b/a".into())), PathBuf::from("/a"));
    assert_eq!(choose_path("a".into(), false, Some("/b/a".into())), PathBuf::from("/b/a"));
}

#[test]
fn tile_settings_are_those_of_a_single_bake() {
    let tile = base().config_for_tile(2, 1, &latlong());
    assert_eq!(tile.mode, BakeMode::Single);
    assert_eq!((tile.atlas_width(), tile.atlas_height(), tile.light_count()), (16, 8, 1));
    let size = base();
    let light = hemisphere_latlong_direction(
        2,
        1,
        size.effective_light_width(),
        size.effective_light_height(),
        &latlong(),
    );
    assert_eq!(tile.light, light);
    assert_eq!(size.light_direction_for_tile(2, 1, &latlong()), light);
    assert_ne!(size.light_direction_for_tile(1, 1, &latlong()), light);
    let again = tile.config_for_tile(0, 0, &latlong());
    assert_eq!(again, tile);
    assert!(base().check_sizes());
    assert!(!ResolvedBakeConfig { width: u32::MAX, ..base() }.check_sizes());
}

#[test]
fn manifest_records_the_bake() {
    let bounds = Bounds { min: vector(-1.0, 0.0, -1.0), max: vector(1.0, 0.0, 1.0) };
    let mesh = Mesh {
        triangles: Vec::new(),
        bounds,
        original_bounds: bounds,
        y_offset_to_zero: number(0.0),
        tile_min_x: number(-1.0),
        tile_min_z: number(-1.0),
        tile_width: number(2.0),
        tile_depth: number(2.0),
        color_source: ColorSource::Uncolored,
    };
    let config = ResolvedBakeConfig {
        width: 4,
        height: 2,
        mode: BakeMode::Single,
        light_width: DEFAULT_LIGHT_WIDTH,
        light_height: DEFAULT_LIGHT_HEIGHT,
        ..base()
    };
    let manifest = Manifest::new(&config, &mesh, "1.2.3", &math());
    assert_eq!(manifest.tool.name, "xbrdf-bake");
    assert_eq!(manifest.tool.version, "1.2.3");
    assert_eq!(manifest.input.color_source, "none");
    assert_eq!(manifest.input.tile_size, (number(2.0), number(2.0)));
    assert_eq!((manifest.output.width, manifest.output.height), (4, 2));
    assert_eq!(manifest.output.image, "xbrdf_view.exr");
    assert_eq!(manifest.convention.macro_normal, vector(0.0, 1.0, 0.0));
    assert_eq!(manifest.bake.light_count, 1);
    assert_eq!(
        manifest.bake.transport,
        "direct lighting with visibility and shadow rays"
    );
    assert_eq!(manifest.bake.material.phong_exponent, None);

    // What a bake does not read is not recorded; what it reads is.
    let unread = ResolvedBakeConfig {
        light_width: 7,
        tile_width_override: Some(number(3.0)),
        ..config.config_for_tile(0, 0, &latlong())
    };
    assert_eq!(Manifest::new(&unread, &mesh, "1.2.3", &math()), manifest);
    let read = ResolvedBakeConfig { samples: 2, ..unread };
    assert_ne!(Manifest::new(&read, &mesh, "1.2.3", &math()), manifest);
}
