use xbrdf::arithmetic::{Arithmetic, Operation};
use xbrdf::atlas::{hemisphere_uv, AtlasMath, AtlasMetadata, ARTIFACT_SCHEMA_VERSION};
use xbrdf::config::{BakeMode, MaterialKind, ResolvedBakeConfig, ResolvedMaterial, SamplerKind};
use xbrdf::math::Vec3;
use xbrdf::sampling::{
    hemisphere_latlong_direction, stratified_sample_2d, texel_center, LatlongMath, TexelCenter,
    QUARTER_TURN_BITS,
};
use xbrdf::scalar::Scalar;

fn number(value: f32) -> Scalar {
    Scalar::from_bits(value.to_bits())
}

fn value(number: Scalar) -> f32 {
    f32::from_bits(number.to_bits())
}

fn vector(x: f32, y: f32, z: f32) -> Vec3 {
    Vec3::new(number(x), number(y), number(z))
}

fn compute(operation: Operation, a: Scalar, b: Scalar) -> Scalar {
    let (a, b) = (value(a), value(b));
    number(match operation {
        Operation::Sum => a + b,
        Operation::Difference => a - b,
        Operation::Product => a * b,
        Operation::Quotient => a / b,
        Operation::Power => a.powf(b),
    })
}

fn normalize(v: Vec3) -> Option<Vec3> {
    let (x, y, z) = (value(v.x), value(v.y), value(v.z));
    let length = (x * x + y * y + z * z).sqrt();
    if length > 0.0 && length.is_finite() {
        Some(vector(x / length, y / length, z / length))
    } else {
        None
    }
}

fn math() -> Arithmetic<
    impl Copy + Fn(Operation, Scalar, Scalar) -> Scalar,
    impl Copy + Fn(Vec3) -> Option<Vec3>,
> {
    Arithmetic { compute, normalize }
}

fn latlong() -> LatlongMath<
    impl Copy + Fn(Operation, Scalar, Scalar) -> Scalar,
    impl Copy + Fn(Vec3) -> Option<Vec3>,
    impl Fn(Scalar) -> Scalar,
    impl Fn(Scalar) -> Scalar,
> {
    LatlongMath {
        operations: math(),
        sine: |angle: Scalar| number(value(angle).sin()),
        cosine: |angle: Scalar| number(value(angle).cos()),
    }
}

fn atlas_math() -> AtlasMath<
    impl Copy + Fn(Operation, Scalar, Scalar) -> Scalar,
    impl Copy + Fn(Vec3) -> Option<Vec3>,
    impl Fn(Scalar, Scalar) -> Scalar,
    impl Fn(Scalar) -> Scalar,
    impl Fn(Scalar, Scalar) -> Scalar,
> {
    AtlasMath {
        operations: math(),
        arctangent: |a: Scalar, b: Scalar| number(value(a).atan2(value(b))),
        arcsine: |sine: Scalar| number(value(sine).asin()),
        remainder: |a: Scalar, b: Scalar| number(value(a).rem_euclid(value(b))),
    }
}

fn uv_of(v: Vec3) -> Option<(f32, f32)> {
    hemisphere_uv(v, &atlas_math()).map(|(u, v)| (value(u), value(v)))
}

fn config(mode: BakeMode) -> ResolvedBakeConfig {
    ResolvedBakeConfig {
        obj: "flat.obj".into(),
        width: 16,
        height: 8,
        mode,
        light_width: 4,
        light_height: 3,
        samples: 1,
        tile_width_override: None,
        tile_depth_override: None,
        light: vector(0.0, 1.0, 0.0),
        max_repeat_radius: 2,
        sampler: SamplerKind::Halton,
        enable_shadows: true,
        material: ResolvedMaterial {
            kind: MaterialKind::Lambertian,
            color: vector(1.0, 1.0, 1.0),
            roughness: None,
        },
    }
}

#[test]
fn latlong_center_faces_positive_z() {
    let direction = hemisphere_latlong_direction(2, 3, 5, 4, &latlong());
    assert!(value(direction.z) > 0.9, "{direction:?}");
    assert!(value(direction.x).abs() < 1.0e-5, "{direction:?}");
    assert!(value(direction.y) > 0.0, "{direction:?}");
}

#[test]
fn azimuth_increases_toward_positive_x() {
    let left = hemisphere_latlong_direction(1, 3, 8, 4, &latlong());
    let right = hemisphere_latlong_direction(5, 3, 8, 4, &latlong());

    assert!(value(right.x) > value(left.x), "left={left:?} right={right:?}");
}

#[test]
fn rows_run_from_zenith_to_horizon() {
    let top = hemisphere_latlong_direction(2, 0, 4, 4, &latlong());
    let bottom = hemisphere_latlong_direction(2, 3, 4, 4, &latlong());

    assert!(value(top.y) > value(bottom.y), "top={top:?} bottom={bottom:?}");
}

#[test]
fn direction_centers_round_trip_to_texel_centers() {
    for y in 0..4 {
        for x in 0..8 {
            let direction = hemisphere_latlong_direction(x, y, 8, 4, &latlong());
            let uv = uv_of(direction).unwrap();
            assert!((uv.0 * 8.0 - 0.5 - x as f32).abs() < 1.0e-5);
            assert!((uv.1 * 4.0 - 0.5 - y as f32).abs() < 1.0e-5);
        }
    }
}

#[test]
fn lower_hemisphere_is_not_addressable() {
    assert_eq!(uv_of(vector(0.0, -1.0, 0.0)), None);
}

#[test]
fn vectors_without_a_direction_are_not_addressable() {
    assert_eq!(uv_of(vector(0.0, 0.0, 0.0)), None);
}

#[test]
fn texel_centers_are_exact_fractions() {
    let center = texel_center(2, 3, 5, 4);
    assert_eq!(center, TexelCenter { u_num: 5, u_den: 10, v_num: 7, v_den: 8 });
}

#[test]
fn samples_fill_a_grid_row_by_row() {
    let root = |count: Scalar| number(value(count).sqrt());
    let sample = stratified_sample_2d(7, 9, &math(), &root);
    assert_eq!(sample, (number(1.5 / 3.0), number(2.5 / 3.0)));
    // Ten samples take a grid of four by four.
    assert_eq!(stratified_sample_2d(6, 10, &math(), &root), (number(0.625), number(0.375)));
    let mut seen = Vec::new();
    for index in 0..9 {
        let sample = stratified_sample_2d(index, 9, &math(), &root);
        assert!(!seen.contains(&sample));
        seen.push(sample);
    }
}

#[test]
fn metadata_describes_the_atlas() {
    let metadata = AtlasMetadata::from_config(&config(BakeMode::Full));
    assert_eq!(metadata.schema_version, ARTIFACT_SCHEMA_VERSION);
    assert_eq!((metadata.atlas_width, metadata.atlas_height), (64, 24));
    assert_eq!((metadata.camera_width, metadata.camera_height), (16, 8));
    assert_eq!((metadata.light_width, metadata.light_height), (4, 3));
    assert!(metadata.camera_azimuth_wraps);
    assert!(metadata.dimensions_match(64, 24));
    assert!(!metadata.dimensions_match(64, 23));
    let older = AtlasMetadata { schema_version: 0, ..metadata };
    assert!(!older.dimensions_match(64, 24));
    assert!(!AtlasMetadata::from_config(&config(BakeMode::Isotropic)).camera_azimuth_wraps);
}

#[test]
fn directions_address_texels_of_light_tiles() {
    let math = atlas_math();
    let metadata = AtlasMetadata::from_config(&config(BakeMode::Full));
    let outgoing = hemisphere_latlong_direction(5, 2, 16, 8, &latlong());
    let (x, y) = metadata.texel_for_light_tile(outgoing, 1, 2, &math).unwrap();
    assert!((value(x) - 21.0).abs() < 1.0e-3, "{x:?}");
    assert!((value(y) - 18.0).abs() < 1.0e-3, "{y:?}");
    assert!(metadata.texel_for_light_tile(outgoing, 4, 0, &math).is_none());
    assert!(metadata.texel_for_light_tile(outgoing, 0, 3, &math).is_none());
    assert!(metadata.texel_for_light_tile(vector(0.0, -1.0, 0.0), 0, 0, &math).is_none());

    let isotropic = AtlasMetadata::from_config(&config(BakeMode::Isotropic));
    let (x, _) = isotropic.texel_for_light_tile(outgoing, 3, 0, &math).unwrap();
    assert_eq!(value(x), 3.0);

    let light = hemisphere_latlong_direction(3, 1, 4, 3, &latlong());
    let (x, y) = metadata.light_grid_position(light, &math).unwrap();
    assert!((value(x) - 3.0).abs() < 1.0e-4);
    assert!((value(y) - 1.0).abs() < 1.0e-4);
    assert!(metadata.light_grid_position(vector(0.0, -1.0, 0.0), &math).is_none());
}

#[test]
fn directions_are_unit_vectors_of_the_upper_hemisphere() {
    assert_eq!(QUARTER_TURN_BITS, std::f32::consts::FRAC_PI_2.to_bits());
    let exact = hemisphere_latlong_direction(0, 0, 1, 1, &latlong());
    let half = std::f32::consts::FRAC_PI_4;
    assert_eq!(exact, vector(0.0, half.sin(), half.cos()));
    for x in 0..16 {
        let mut above = 2.0;
        for y in 0..64 {
            let found = hemisphere_latlong_direction(x, y, 16, 64, &latlong());
            let (a, b, c) = (value(found.x), value(found.y), value(found.z));
            assert!(((a * a + b * b + c * c).sqrt() - 1.0).abs() < 1.0e-5);
            assert!(0.0 < b && b <= above);
            above = b;
        }
    }
}

#[test]
fn addresses_follow_their_formulas() {
    let math = atlas_math();
    let tau = std::f32::consts::TAU;
    let quarter = std::f32::consts::FRAC_PI_2;
    let metadata = AtlasMetadata::from_config(&config(BakeMode::Full));
    for (x, y, z) in [(0.3, 0.8, -0.5), (-0.7, 0.1, 0.2), (0.0, 1.0, 0.0), (0.6, 0.0, 0.8)] {
        let unit = normalize(vector(x, y, z)).unwrap();
        let u = (value(unit.x).atan2(value(unit.z)) / tau + 0.5).rem_euclid(1.0);
        let v = 1.0 - value(unit.y).clamp(0.0, 1.0).asin() / quarter;
        assert_eq!(uv_of(vector(x, y, z)), Some((u, v)));
        let (at_x, at_y) = metadata.texel_for_light_tile(vector(x, y, z), 2, 1, &math).unwrap();
        assert_eq!(value(at_x), 2.0 * 16.0 + (u * 16.0 - 0.5));
        assert_eq!(value(at_y), 1.0 * 8.0 + (v * 8.0 - 0.5));
        let (at_x, at_y) = metadata.light_grid_position(vector(x, y, z), &math).unwrap();
        assert_eq!((value(at_x), value(at_y)), (u * 4.0 - 0.5, v * 3.0 - 0.5));
    }
    let direction = hemisphere_latlong_direction(2, 1, 7, 5, &latlong());
    let azimuth = (2.5f32 / 7.0 - 0.5) * tau;
    let elevation = (1.0 - 1.5f32 / 5.0) * quarter;
    let horizontal = elevation.cos();
    let expected = vector(azimuth.sin() * horizontal, elevation.sin(), azimuth.cos() * horizontal);
    assert_eq!(direction, expected);
}
