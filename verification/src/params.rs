//! The parameters that a shader reads.

use crate::arithmetic::{Arithmetic, ArithmeticModel, Operation};
use crate::config::{MaterialKind, ResolvedBakeConfig, SamplerKind, MIN_LIGHT_COS_BITS};
use crate::geometry::Mesh;
use crate::math::{Vec3, Vec4};
use crate::scalar::{lemma_rank_orders_values, Scalar, ONE_BITS, ZERO_BITS};
use vstd::prelude::*;

verus! {

/// Bits of the smallest normal positive number.
pub const MIN_POSITIVE_BITS: u32 = 0x0080_0000;

/// Bits of two to the power of minus 23, the distance from one to the next
/// larger number.
pub const UNIT_ROUNDOFF_BITS: u32 = 0x3400_0000;

/// Bits of `8.0`.
pub const EIGHT_BITS: u32 = 0x4100_0000;

/// Bits of `1.0e-5`, the tolerance of ray origins for geometry of size one.
pub const ORIGIN_FACTOR_BITS: u32 = 0x3727_c5ac;

/// Bits of `0.1`, the tolerance of hits for a tolerance of ray origins of one.
pub const HIT_FACTOR_BITS: u32 = 0x3dcc_cccd;

/// Bits of `1.0e-7`, the tolerance of determinants for geometry of size one.
pub const DETERMINANT_FACTOR_BITS: u32 = 0x33d6_bf95;

/// The distances below which rays treat surfaces as touching.
#[derive(Clone, Copy, Debug, PartialEq)]
pub struct RayTolerances {
    pub ray_origin: Scalar,
    pub hit: Scalar,
    pub determinant: Scalar,
}

/// The rounding error of coordinates of the given size: eight units in the last
/// place.
pub open spec fn roundoff(model: ArithmeticModel, coordinates: Scalar) -> Scalar {
    model.product(
        model.product(coordinates, Scalar { bits: UNIT_ROUNDOFF_BITS }),
        Scalar { bits: EIGHT_BITS },
    )
}

/// The size of a mesh: the largest of the sides of its tile and its bounds.
pub open spec fn geometry_scale(mesh: Mesh, model: ArithmeticModel) -> Scalar {
    let low = mesh.bounds.min;
    let high = mesh.bounds.max;
    mesh.tile_width.max_spec(mesh.tile_depth).max_spec(
        model.difference(high.x, low.x).abs_spec(),
    ).max_spec(model.difference(high.y, low.y).abs_spec()).max_spec(
        model.difference(high.z, low.z).abs_spec(),
    ).max_spec(Scalar { bits: MIN_POSITIVE_BITS })
}

/// The largest absolute coordinate of the bounds of a mesh.
pub open spec fn coordinate_scale(mesh: Mesh) -> Scalar {
    let low = mesh.bounds.min;
    let high = mesh.bounds.max;
    low.x.abs_spec().max_spec(low.y.abs_spec()).max_spec(low.z.abs_spec()).max_spec(
        high.x.abs_spec(),
    ).max_spec(high.y.abs_spec()).max_spec(high.z.abs_spec())
}

/// The tolerances for a mesh.
pub open spec fn ray_tolerances_spec(mesh: Mesh, model: ArithmeticModel) -> RayTolerances {
    let scale = geometry_scale(mesh, model);
    let ray_origin = model.product(scale, Scalar { bits: ORIGIN_FACTOR_BITS }).max_spec(
        roundoff(model, coordinate_scale(mesh)),
    ).max_spec(Scalar { bits: MIN_POSITIVE_BITS });
    RayTolerances {
        ray_origin,
        hit: model.product(ray_origin, Scalar { bits: HIT_FACTOR_BITS }),
        determinant: model.product(
            model.product(scale, scale),
            Scalar { bits: DETERMINANT_FACTOR_BITS },
        ),
    }
}

impl<F, N> Arithmetic<F, N> where
    F: Fn(Operation, Scalar, Scalar) -> Scalar,
    N: Fn(Vec3) -> Option<Vec3>,
 {
    /// The absolute difference of two numbers.
    fn distance(&self, a: Scalar, b: Scalar) -> (distance: Scalar)
        requires
            self.wf(),
        ensures
            distance == self.model().difference(a, b).abs_spec(),
    {
        self.difference(a, b).abs()
    }

    /// The tolerances for a mesh.  They grow with its size, and never fall
    /// below the rounding error of its coordinates nor below the smallest
    /// normal number.
    pub fn ray_tolerances(&self, mesh: &Mesh) -> (tolerances: RayTolerances)
        requires
            self.wf(),
        ensures
            tolerances == ray_tolerances_spec(*mesh, self.model()),
    {
        let low = mesh.bounds.min;
        let high = mesh.bounds.max;
        let tile = mesh.tile_width.max(mesh.tile_depth);
        let scale = tile.max(self.distance(high.x, low.x)).max(self.distance(high.y, low.y)).max(
            self.distance(high.z, low.z),
        ).max(Scalar { bits: MIN_POSITIVE_BITS });
        let coordinates = low.x.abs().max(low.y.abs()).max(low.z.abs()).max(high.x.abs()).max(
            high.y.abs(),
        ).max(high.z.abs());
        let roundoff_floor = self.product(
            self.product(coordinates, Scalar { bits: UNIT_ROUNDOFF_BITS }),
            Scalar { bits: EIGHT_BITS },
        );
        let scaled = self.product(scale, Scalar { bits: ORIGIN_FACTOR_BITS });
        let ray_origin = scaled.max(roundoff_floor).max(Scalar { bits: MIN_POSITIVE_BITS });
        let hit = self.product(ray_origin, Scalar { bits: HIT_FACTOR_BITS });
        let determinant = self.product(
            self.product(scale, scale),
            Scalar { bits: DETERMINANT_FACTOR_BITS },
        );
        RayTolerances { ray_origin, hit, determinant }
    }
}

/// The tolerance for ray origins is positive, and at least the scaled size of
/// the geometry and the rounding error of its coordinates where those are
/// numbers.
pub proof fn lemma_ray_origin_covers_roundoff(mesh: Mesh, model: ArithmeticModel)
    ensures
        ({
            let origin = ray_tolerances_spec(mesh, model).ray_origin;
            let scaled = model.product(
                geometry_scale(mesh, model),
                Scalar { bits: ORIGIN_FACTOR_BITS },
            );
            let roundoff = roundoff(model, coordinate_scale(mesh));
            &&& (Scalar { bits: MIN_POSITIVE_BITS }).le_spec(origin)
            &&& !scaled.is_nan_spec() ==> scaled.le_spec(origin)
            &&& !roundoff.is_nan_spec() ==> roundoff.le_spec(origin)
        }),
{
}

/// Whether `b` is exactly `num / den` times as large as `a`.
pub open spec fn scales(a: Scalar, b: Scalar, num: int, den: int) -> bool {
    &&& a.is_finite_spec()
    &&& b.is_finite_spec()
    &&& b.value() * den == a.value() * num
}

/// Whether a result lies where numbers have all their digits.
pub open spec fn is_ordinary(number: Scalar) -> bool {
    number.is_finite_spec() && number.magnitude() > MIN_POSITIVE_BITS
}

/// Whether operations on numbers that are `num / den` times as large give results
/// that are as many times as large, wherever the results have all their digits.
/// Rounding to binary digits has this property for powers of two.
pub open spec fn keeps_scale(model: ArithmeticModel, num: int, den: int) -> bool {
    &&& forall|a: Scalar, b: Scalar, c: Scalar, d: Scalar|
        scales(a, c, num, den) && scales(b, d, num, den) && (is_ordinary(model.difference(a, b))
            || model.difference(a, b).rank() == 0) && (is_ordinary(model.difference(c, d))
            || model.difference(c, d).rank() == 0) ==> scales(
            #[trigger] model.difference(a, b),
            #[trigger] model.difference(c, d),
            num,
            den,
        )
    &&& forall|a: Scalar, c: Scalar, factor: Scalar|
        scales(a, c, num, den) && is_ordinary(model.product(a, factor)) && is_ordinary(
            model.product(c, factor),
        ) ==> scales(
            #[trigger] model.product(a, factor),
            #[trigger] model.product(c, factor),
            num,
            den,
        )
    &&& forall|a: Scalar, c: Scalar|
        scales(a, c, num, den) && is_ordinary(model.product(a, a)) && is_ordinary(
            model.product(c, c),
        ) ==> scales(
            #[trigger] model.product(a, a),
            #[trigger] model.product(c, c),
            num * num,
            den * den,
        )
}

/// Whether `scaled` has the tile and the bounds of `mesh`, `num / den` times as
/// large.
pub open spec fn is_scaled(mesh: Mesh, scaled: Mesh, num: int, den: int) -> bool {
    &&& scales(mesh.tile_width, scaled.tile_width, num, den)
    &&& scales(mesh.tile_depth, scaled.tile_depth, num, den)
    &&& scales(mesh.bounds.min.x, scaled.bounds.min.x, num, den)
    &&& scales(mesh.bounds.min.y, scaled.bounds.min.y, num, den)
    &&& scales(mesh.bounds.min.z, scaled.bounds.min.z, num, den)
    &&& scales(mesh.bounds.max.x, scaled.bounds.max.x, num, den)
    &&& scales(mesh.bounds.max.y, scaled.bounds.max.y, num, den)
    &&& scales(mesh.bounds.max.z, scaled.bounds.max.z, num, den)
}

/// Whether the tolerances of a mesh are computed without leaving the range in
/// which numbers have all their digits.
pub open spec fn has_ordinary_tolerances(mesh: Mesh, model: ArithmeticModel) -> bool {
    let low = mesh.bounds.min;
    let high = mesh.bounds.max;
    let scale = geometry_scale(mesh, model);
    let coordinates = coordinate_scale(mesh);
    let spread = |a: Scalar, b: Scalar|
        is_ordinary(model.difference(a, b)) || model.difference(a, b).rank() == 0;
    &&& spread(high.x, low.x) && spread(high.y, low.y) && spread(high.z, low.z)
    &&& (Scalar { bits: MIN_POSITIVE_BITS }).lt_spec(mesh.tile_width)
    &&& (Scalar { bits: MIN_POSITIVE_BITS }).lt_spec(
        model.product(scale, Scalar { bits: ORIGIN_FACTOR_BITS }),
    )
    &&& is_ordinary(model.product(scale, Scalar { bits: ORIGIN_FACTOR_BITS }))
    &&& is_ordinary(model.product(coordinates, Scalar { bits: UNIT_ROUNDOFF_BITS }))
    &&& is_ordinary(roundoff(model, coordinates))
    &&& is_ordinary(ray_tolerances_spec(mesh, model).hit)
    &&& is_ordinary(model.product(scale, scale))
    &&& is_ordinary(ray_tolerances_spec(mesh, model).determinant)
}

/// Sizes are not negative, and the size of a scaled number is scaled.
proof fn lemma_abs_scales(a: Scalar, b: Scalar, num: int, den: int)
    requires
        scales(a, b, num, den),
        num > 0,
        den > 0,
    ensures
        scales(a.abs_spec(), b.abs_spec(), num, den),
{
    let zero = Scalar { bits: ZERO_BITS };
    lemma_rank_orders_values(zero, a.abs_spec());
    lemma_rank_orders_values(zero, b.abs_spec());
    let x = a.abs_spec().value();
    let y = b.abs_spec().value();
    assert(a.value() == x || a.value() == -x);
    assert(b.value() == y || b.value() == -y);
    assert(y * den == x * num) by (nonlinear_arith)
        requires
            x >= 0,
            y >= 0,
            num > 0,
            den > 0,
            y * den == x * num || (-y) * den == (-x) * num || (-y) * den == x * num || y * den
                == (-x) * num,
    ;
}

/// The larger of two scaled numbers is the scaled larger one.
proof fn lemma_max_scales(a: Scalar, b: Scalar, c: Scalar, d: Scalar, num: int, den: int)
    requires
        scales(a, c, num, den),
        scales(b, d, num, den),
        num > 0,
        den > 0,
    ensures
        scales(a.max_spec(b), c.max_spec(d), num, den),
{
    lemma_rank_orders_values(a, b);
    lemma_rank_orders_values(c, d);
    let (p, q, r, s) = (a.value(), b.value(), c.value(), d.value());
    assert(p < q <==> r < s) by (nonlinear_arith)
        requires
            r * den == p * num,
            s * den == q * num,
            num > 0,
            den > 0,
    ;
}

/// Scaled differences have scaled sizes.
proof fn lemma_distance_scales(
    model: ArithmeticModel,
    a: Scalar,
    b: Scalar,
    c: Scalar,
    d: Scalar,
    num: int,
    den: int,
)
    requires
        keeps_scale(model, num, den),
        scales(a, c, num, den),
        scales(b, d, num, den),
        is_ordinary(model.difference(a, b)) || model.difference(a, b).rank() == 0,
        is_ordinary(model.difference(c, d)) || model.difference(c, d).rank() == 0,
        num > 0,
        den > 0,
    ensures
        scales(model.difference(a, b).abs_spec(), model.difference(c, d).abs_spec(), num, den),
{
    lemma_abs_scales(model.difference(a, b), model.difference(c, d), num, den);
}

/// Geometry that is so many times as large has tolerances for distances that are
/// as many times as large, and one for determinants that is larger by the square,
/// where rounding keeps scales and no tolerance is too small for it.
pub proof fn lemma_tolerances_follow_the_scale(
    mesh: Mesh,
    scaled: Mesh,
    model: ArithmeticModel,
    num: int,
    den: int,
)
    requires
        num > 0,
        den > 0,
        is_scaled(mesh, scaled, num, den),
        keeps_scale(model, num, den),
        keeps_scale(model, num * num, den * den),
        has_ordinary_tolerances(mesh, model),
        has_ordinary_tolerances(scaled, model),
    ensures
        ({
            let before = ray_tolerances_spec(mesh, model);
            let after = ray_tolerances_spec(scaled, model);
            &&& scales(before.ray_origin, after.ray_origin, num, den)
            &&& scales(before.hit, after.hit, num, den)
            &&& scales(before.determinant, after.determinant, num * num, den * den)
        }),
{
    let (l, h) = (mesh.bounds.min, mesh.bounds.max);
    let (m, i) = (scaled.bounds.min, scaled.bounds.max);
    let least = Scalar { bits: MIN_POSITIVE_BITS };
    lemma_distance_scales(model, h.x, l.x, i.x, m.x, num, den);
    lemma_distance_scales(model, h.y, l.y, i.y, m.y, num, den);
    lemma_distance_scales(model, h.z, l.z, i.z, m.z, num, den);
    let (dx, dy, dz) = (
        model.difference(h.x, l.x).abs_spec(),
        model.difference(h.y, l.y).abs_spec(),
        model.difference(h.z, l.z).abs_spec(),
    );
    let (ex, ey, ez) = (
        model.difference(i.x, m.x).abs_spec(),
        model.difference(i.y, m.y).abs_spec(),
        model.difference(i.z, m.z).abs_spec(),
    );
    let (t1, s1) = (
        mesh.tile_width.max_spec(mesh.tile_depth),
        scaled.tile_width.max_spec(scaled.tile_depth),
    );
    lemma_max_scales(
        mesh.tile_width,
        mesh.tile_depth,
        scaled.tile_width,
        scaled.tile_depth,
        num,
        den,
    );
    lemma_max_scales(t1, dx, s1, ex, num, den);
    lemma_max_scales(t1.max_spec(dx), dy, s1.max_spec(ex), ey, num, den);
    lemma_max_scales(
        t1.max_spec(dx).max_spec(dy),
        dz,
        s1.max_spec(ex).max_spec(ey),
        ez,
        num,
        den,
    );
    let scale = geometry_scale(mesh, model);
    let larger = geometry_scale(scaled, model);
    assert(scale == t1.max_spec(dx).max_spec(dy).max_spec(dz));
    assert(larger == s1.max_spec(ex).max_spec(ey).max_spec(ez));
    lemma_coordinates_scale(mesh, scaled, num, den);
    let coordinates = coordinate_scale(mesh);
    let farther = coordinate_scale(scaled);
    let unit = Scalar { bits: UNIT_ROUNDOFF_BITS };
    let eight = Scalar { bits: EIGHT_BITS };
    let share = Scalar { bits: ORIGIN_FACTOR_BITS };
    assert(scales(model.product(coordinates, unit), model.product(farther, unit), num, den));
    assert(scales(roundoff(model, coordinates), roundoff(model, farther), num, den));
    assert(scales(model.product(scale, share), model.product(larger, share), num, den));
    lemma_max_scales(
        model.product(scale, share),
        roundoff(model, coordinates),
        model.product(larger, share),
        roundoff(model, farther),
        num,
        den,
    );
    let before = ray_tolerances_spec(mesh, model);
    let after = ray_tolerances_spec(scaled, model);
    assert(before.ray_origin == model.product(scale, share).max_spec(
        roundoff(model, coordinates),
    ));
    assert(after.ray_origin == model.product(larger, share).max_spec(roundoff(model, farther)));
    let tenth = Scalar { bits: HIT_FACTOR_BITS };
    assert(scales(
        model.product(before.ray_origin, tenth),
        model.product(after.ray_origin, tenth),
        num,
        den,
    ));
    assert(scales(
        model.product(scale, scale),
        model.product(larger, larger),
        num * num,
        den * den,
    ));
}

proof fn lemma_coordinates_scale(mesh: Mesh, scaled: Mesh, num: int, den: int)
    requires
        num > 0,
        den > 0,
        is_scaled(mesh, scaled, num, den),
    ensures
        scales(coordinate_scale(mesh), coordinate_scale(scaled), num, den),
{
    let (l, h) = (mesh.bounds.min, mesh.bounds.max);
    let (m, i) = (scaled.bounds.min, scaled.bounds.max);
    lemma_abs_scales(l.x, m.x, num, den);
    lemma_abs_scales(l.y, m.y, num, den);
    lemma_abs_scales(l.z, m.z, num, den);
    lemma_abs_scales(h.x, i.x, num, den);
    lemma_abs_scales(h.y, i.y, num, den);
    lemma_abs_scales(h.z, i.z, num, den);
    let (a, b) = (l.x.abs_spec(), m.x.abs_spec());
    lemma_max_scales(a, l.y.abs_spec(), b, m.y.abs_spec(), num, den);
    let (a, b) = (a.max_spec(l.y.abs_spec()), b.max_spec(m.y.abs_spec()));
    lemma_max_scales(a, l.z.abs_spec(), b, m.z.abs_spec(), num, den);
    let (a, b) = (a.max_spec(l.z.abs_spec()), b.max_spec(m.z.abs_spec()));
    lemma_max_scales(a, h.x.abs_spec(), b, i.x.abs_spec(), num, den);
    let (a, b) = (a.max_spec(h.x.abs_spec()), b.max_spec(i.x.abs_spec()));
    lemma_max_scales(a, h.y.abs_spec(), b, i.y.abs_spec(), num, den);
    let (a, b) = (a.max_spec(h.y.abs_spec()), b.max_spec(i.y.abs_spec()));
    lemma_max_scales(a, h.z.abs_spec(), b, i.z.abs_spec(), num, den);
}

/// What the shader reads of the scene.
#[derive(Clone, Copy, Debug, PartialEq)]
pub struct SceneGpuParams {
    pub triangle_count: usize,
    pub node_count: usize,
    pub tile_min_x: Scalar,
    pub tile_min_z: Scalar,
    pub tile_width: Scalar,
    pub tile_depth: Scalar,
    pub bounds_min: Vec4,
    pub bounds_max: Vec4,
    pub ray_epsilon: Scalar,
    pub hit_epsilon: Scalar,
    pub determinant_epsilon: Scalar,
}

impl SceneGpuParams {
    /// What the shader reads of a mesh whose tree has `node_count` nodes.
    pub open spec fn of(
        mesh: Mesh,
        triangle_count: usize,
        node_count: usize,
        tolerances: RayTolerances,
    ) -> SceneGpuParams {
        SceneGpuParams {
            triangle_count,
            node_count,
            tile_min_x: mesh.tile_min_x,
            tile_min_z: mesh.tile_min_z,
            tile_width: mesh.tile_width,
            tile_depth: mesh.tile_depth,
            bounds_min: mesh.bounds.min.extend_spec(),
            bounds_max: mesh.bounds.max.extend_spec(),
            ray_epsilon: tolerances.ray_origin,
            hit_epsilon: tolerances.hit,
            determinant_epsilon: tolerances.determinant,
        }
    }

    /// What the shader reads of a mesh whose tree has `node_count` nodes.
    pub fn new(
        mesh: &Mesh,
        triangle_count: usize,
        node_count: usize,
        tolerances: RayTolerances,
    ) -> (scene: SceneGpuParams)
        ensures
            scene == SceneGpuParams::of(*mesh, triangle_count, node_count, tolerances),
    {
        SceneGpuParams {
            triangle_count,
            node_count,
            tile_min_x: mesh.tile_min_x,
            tile_min_z: mesh.tile_min_z,
            tile_width: mesh.tile_width,
            tile_depth: mesh.tile_depth,
            bounds_min: mesh.bounds.min.extend(),
            bounds_max: mesh.bounds.max.extend(),
            ray_epsilon: tolerances.ray_origin,
            hit_epsilon: tolerances.hit,
            determinant_epsilon: tolerances.determinant,
        }
    }
}

/// The parameters of one dispatch.
#[derive(Clone, Copy, Debug, PartialEq)]
pub struct GpuParams {
    pub width: u32,
    pub height: u32,
    pub samples: u32,
    pub triangle_count: u32,
    pub node_count: u32,
    pub max_repeat_radius: u32,
    pub y_offset: u32,
    pub active_height: u32,
    pub sample_offset: u32,
    pub target_samples: u32,
    pub sample_limit: u32,
    pub sample_lanes: u32,
    pub tile_min_x: Scalar,
    pub tile_min_z: Scalar,
    pub tile_width: Scalar,
    pub tile_depth: Scalar,
    pub bounds_min: Vec4,
    pub bounds_max: Vec4,
    pub light_dir: Vec4,
    pub material_color: Vec4,
    pub material_code: u32,
    pub sampler_code: u32,
    pub shadow_code: u32,
    pub sums_samples: u32,
    pub material_params: Vec4,
    pub intersection_params: Vec4,
}

/// The number by which the shader knows a sampler.
pub open spec fn sampler_code_spec(sampler: SamplerKind) -> u32 {
    match sampler {
        SamplerKind::Halton => 0,
        SamplerKind::Random => 1,
    }
}

/// The number by which the shader knows a material.
pub open spec fn material_code_spec(kind: MaterialKind) -> u32 {
    match kind {
        MaterialKind::Lambertian => 0,
        MaterialKind::SpecularPhong => 1,
    }
}

/// The number by which the shader knows a sampler.
pub fn sampler_code(sampler: SamplerKind) -> (code: u32)
    ensures
        code == sampler_code_spec(sampler),
{
    match sampler {
        SamplerKind::Halton => 0,
        SamplerKind::Random => 1,
    }
}

/// The number by which the shader knows a material.
pub fn material_code(kind: MaterialKind) -> (code: u32)
    ensures
        code == material_code_spec(kind),
{
    match kind {
        MaterialKind::Lambertian => 0,
        MaterialKind::SpecularPhong => 1,
    }
}

/// The parameters of a dispatch over the whole image that leaves the sums of
/// its samples.
pub open spec fn sample_parallel_params_spec(
    config: ResolvedBakeConfig,
    scene: SceneGpuParams,
    samples_per_lane: u32,
    sample_lanes: u32,
    math: ArithmeticModel,
) -> GpuParams {
    let zero = Scalar { bits: ZERO_BITS };
    GpuParams {
        width: config.width,
        height: config.height,
        samples: samples_per_lane,
        triangle_count: scene.triangle_count as u32,
        node_count: scene.node_count as u32,
        max_repeat_radius: config.max_repeat_radius,
        y_offset: 0,
        active_height: config.height,
        sample_offset: 0,
        target_samples: config.samples,
        sample_limit: config.samples,
        sample_lanes,
        tile_min_x: scene.tile_min_x,
        tile_min_z: scene.tile_min_z,
        tile_width: scene.tile_width,
        tile_depth: scene.tile_depth,
        bounds_min: scene.bounds_min,
        bounds_max: scene.bounds_max,
        light_dir: config.light.extend_spec(),
        material_color: config.material.color.extend_spec(),
        material_code: material_code_spec(config.material.kind),
        sampler_code: sampler_code_spec(config.sampler),
        shadow_code: if config.enable_shadows {
            1
        } else {
            0
        },
        sums_samples: 1,
        material_params: Vec4 {
            x: math.quotient(
                Scalar { bits: ONE_BITS },
                config.light.y.max_spec(Scalar { bits: MIN_LIGHT_COS_BITS }),
            ),
            y: scene.ray_epsilon,
            z: match config.material.roughness {
                Some(roughness) => roughness,
                None => zero,
            },
            w: match config.material.phong_exponent_spec(math) {
                Some(exponent) => exponent,
                None => Scalar { bits: ONE_BITS },
            },
        },
        intersection_params: Vec4 {
            x: scene.hit_epsilon,
            y: scene.determinant_epsilon,
            z: zero,
            w: zero,
        },
    }
}

/// The parameters of a dispatch over the whole image that leaves the sums of
/// its samples.
pub fn sample_parallel_params<F: Fn(Operation, Scalar, Scalar) -> Scalar, N: Fn(Vec3) -> Option<Vec3>>(
    config: &ResolvedBakeConfig,
    scene: SceneGpuParams,
    samples_per_lane: u32,
    sample_lanes: u32,
    math: &Arithmetic<F, N>,
) -> (params: GpuParams)
    requires
        math.wf(),
    ensures
        params == sample_parallel_params_spec(
            *config,
            scene,
            samples_per_lane,
            sample_lanes,
            math.model(),
        ),
{
    let zero = Scalar::zero();
    let cosine = config.light.y.max(Scalar { bits: MIN_LIGHT_COS_BITS });
    let inverse = math.quotient(Scalar::one(), cosine);
    let roughness = match config.material.roughness {
        Some(roughness) => roughness,
        None => zero,
    };
    let exponent = match config.material.phong_exponent(math) {
        Some(exponent) => exponent,
        None => Scalar::one(),
    };
    GpuParams {
        width: config.width,
        height: config.height,
        samples: samples_per_lane,
        triangle_count: scene.triangle_count as u32,
        node_count: scene.node_count as u32,
        max_repeat_radius: config.max_repeat_radius,
        y_offset: 0,
        active_height: config.height,
        sample_offset: 0,
        target_samples: config.samples,
        sample_limit: config.samples,
        sample_lanes,
        tile_min_x: scene.tile_min_x,
        tile_min_z: scene.tile_min_z,
        tile_width: scene.tile_width,
        tile_depth: scene.tile_depth,
        bounds_min: scene.bounds_min,
        bounds_max: scene.bounds_max,
        light_dir: config.light.extend(),
        material_color: config.material.color.extend(),
        material_code: material_code(config.material.kind),
        sampler_code: sampler_code(config.sampler),
        shadow_code: if config.enable_shadows {
            1
        } else {
            0
        },
        sums_samples: 1,
        material_params: Vec4 { x: inverse, y: scene.ray_epsilon, z: roughness, w: exponent },
        intersection_params: Vec4 {
            x: scene.hit_epsilon,
            y: scene.determinant_epsilon,
            z: zero,
            w: zero,
        },
    }
}

/// The parameters of a pass carry the settings and the scene: the size of the image,
/// the light, the color, the kind and the sharpness of the material, the sampler, the
/// shadows, the copies of the tile, and where the tile and the bounds of the mesh lie.
pub proof fn lemma_parameters_carry_the_settings(
    config: ResolvedBakeConfig,
    mesh: Mesh,
    triangle_count: usize,
    node_count: usize,
    tolerances: RayTolerances,
    samples_per_lane: u32,
    sample_lanes: u32,
    math: ArithmeticModel,
)
    requires
        triangle_count <= u32::MAX,
        node_count <= u32::MAX,
    ensures
        ({
            let scene = SceneGpuParams::of(mesh, triangle_count, node_count, tolerances);
            let params = sample_parallel_params_spec(
                config,
                scene,
                samples_per_lane,
                sample_lanes,
                math,
            );
            &&& params.width == config.width
            &&& params.height == config.height
            &&& params.samples == samples_per_lane
            &&& params.sample_lanes == sample_lanes
            &&& params.sample_offset == 0
            &&& params.sample_limit == config.samples
            &&& params.target_samples == config.samples
            &&& params.y_offset == 0
            &&& params.active_height == config.height
            &&& params.max_repeat_radius == config.max_repeat_radius
            &&& params.triangle_count == triangle_count
            &&& params.node_count == node_count
            &&& params.material_code == 1 <==> config.material.kind == MaterialKind::SpecularPhong
            &&& params.material_code == 0 <==> config.material.kind == MaterialKind::Lambertian
            &&& params.sampler_code == 0 <==> config.sampler == SamplerKind::Halton
            &&& params.sampler_code == 1 <==> config.sampler == SamplerKind::Random
            &&& params.shadow_code == 1 <==> config.enable_shadows
            &&& params.shadow_code == 0 <==> !config.enable_shadows
            &&& params.sums_samples == 1
        }),
{
}

/// The numbers in the parameters of a pass are those of the settings, the mesh and
/// the tolerances, component by component.
pub proof fn lemma_parameters_carry_the_numbers(
    config: ResolvedBakeConfig,
    mesh: Mesh,
    triangle_count: usize,
    node_count: usize,
    tolerances: RayTolerances,
    samples_per_lane: u32,
    sample_lanes: u32,
    math: ArithmeticModel,
)
    ensures
        ({
            let scene = SceneGpuParams::of(mesh, triangle_count, node_count, tolerances);
            let params = sample_parallel_params_spec(
                config,
                scene,
                samples_per_lane,
                sample_lanes,
                math,
            );
            let zero = Scalar { bits: 0 };
            let one = Scalar { bits: 0x3f80_0000 };
            let cosine = if config.light.y.is_nan_spec() || config.light.y.rank() < 0x38d1_b717 {
                Scalar { bits: 0x38d1_b717 }
            } else {
                config.light.y
            };
            &&& params.light_dir.x == config.light.x
            &&& params.light_dir.y == config.light.y
            &&& params.light_dir.z == config.light.z
            &&& params.light_dir.w == zero
            &&& params.material_color.x == config.material.color.x
            &&& params.material_color.y == config.material.color.y
            &&& params.material_color.z == config.material.color.z
            &&& params.material_color.w == zero
            &&& params.tile_min_x == mesh.tile_min_x
            &&& params.tile_min_z == mesh.tile_min_z
            &&& params.tile_width == mesh.tile_width
            &&& params.tile_depth == mesh.tile_depth
            &&& params.bounds_min.x == mesh.bounds.min.x
            &&& params.bounds_min.y == mesh.bounds.min.y
            &&& params.bounds_min.z == mesh.bounds.min.z
            &&& params.bounds_max.x == mesh.bounds.max.x
            &&& params.bounds_max.y == mesh.bounds.max.y
            &&& params.bounds_max.z == mesh.bounds.max.z
            &&& params.material_params.x == (math.compute)(Operation::Quotient, one, cosine)
            &&& params.material_params.y == tolerances.ray_origin
            &&& config.material.roughness is Some ==> params.material_params.z
                == config.material.roughness.unwrap()
            &&& config.material.roughness is None ==> params.material_params.z == zero
            &&& config.material.kind == MaterialKind::Lambertian ==> params.material_params.w
                == one
            &&& config.material.kind == MaterialKind::SpecularPhong ==> Some(
                params.material_params.w,
            ) == config.material.phong_exponent_spec(math)
            &&& params.intersection_params.x == tolerances.hit
            &&& params.intersection_params.y == tolerances.determinant
            &&& params.intersection_params.z == zero
            &&& params.intersection_params.w == zero
        }),
{
}

/// What the tolerances of a mesh are: of its size, the largest of the sides of its
/// tile and its bounds, a hundred-thousandth, but no less than eight units in the last
/// place of its largest coordinate, for the origins of rays; a tenth of that for hits;
/// and of the square of its size a ten-millionth for determinants.
pub proof fn lemma_tolerances_come_from_the_size(mesh: Mesh, model: ArithmeticModel)
    ensures
        ({
            let times = |a: Scalar, b: Scalar| (model.compute)(Operation::Product, a, b);
            let size = geometry_scale(mesh, model);
            let far = coordinate_scale(mesh);
            let found = ray_tolerances_spec(mesh, model);
            let scaled = times(size, Scalar { bits: 0x3727_c5ac });
            let floor = times(
                times(far, Scalar { bits: 0x3400_0000 }),
                Scalar { bits: 0x4100_0000 },
            );
            let least = Scalar { bits: 0x0080_0000 };
            &&& found.ray_origin == scaled || found.ray_origin == floor || found.ray_origin
                == least
            &&& !scaled.is_nan_spec() ==> scaled.rank() <= found.ray_origin.rank()
            &&& !floor.is_nan_spec() ==> floor.rank() <= found.ray_origin.rank()
            &&& 0x0080_0000 <= found.ray_origin.rank()
            &&& found.hit == times(found.ray_origin, Scalar { bits: 0x3dcc_cccd })
            &&& found.determinant == times(times(size, size), Scalar { bits: 0x33d6_bf95 })
        }),
{
}

/// The size of a mesh is one of the sides of its tile and its bounds, or the least
/// positive normal number, and no side is larger; its largest coordinate is that of a
/// corner of its bounds, and none is larger.
pub proof fn lemma_sizes_are_the_largest(mesh: Mesh, model: ArithmeticModel)
    ensures
        ({
            let low = mesh.bounds.min;
            let high = mesh.bounds.max;
            let side = |a: Scalar, b: Scalar|
                (model.compute)(Operation::Difference, a, b).abs_spec();
            let sides = seq![
                mesh.tile_width,
                mesh.tile_depth,
                side(high.x, low.x),
                side(high.y, low.y),
                side(high.z, low.z),
                Scalar { bits: 0x0080_0000 },
            ];
            let corners = seq![
                low.x.abs_spec(),
                low.y.abs_spec(),
                low.z.abs_spec(),
                high.x.abs_spec(),
                high.y.abs_spec(),
                high.z.abs_spec(),
            ];
            &&& is_largest_of(geometry_scale(mesh, model), sides)
            &&& (!low.x.is_nan_spec() ==> is_largest_of(coordinate_scale(mesh), corners))
        }),
{
    let low = mesh.bounds.min;
    let high = mesh.bounds.max;
    let side = |a: Scalar, b: Scalar| (model.compute)(Operation::Difference, a, b).abs_spec();
    let sides = seq![
        mesh.tile_width,
        mesh.tile_depth,
        side(high.x, low.x),
        side(high.y, low.y),
        side(high.z, low.z),
        Scalar { bits: 0x0080_0000 },
    ];
    let size = geometry_scale(mesh, model);
    assert(size == sides[0] || size == sides[1] || size == sides[2] || size == sides[3] || size
        == sides[4] || size == sides[5]);
    let corners = seq![
        low.x.abs_spec(),
        low.y.abs_spec(),
        low.z.abs_spec(),
        high.x.abs_spec(),
        high.y.abs_spec(),
        high.z.abs_spec(),
    ];
    let far = coordinate_scale(mesh);
    assert(far == corners[0] || far == corners[1] || far == corners[2] || far == corners[3] || far
        == corners[4] || far == corners[5]);
}

/// Whether a number is one of several, and none of those that are numbers is larger.
pub open spec fn is_largest_of(number: Scalar, several: Seq<Scalar>) -> bool {
    &&& exists|i: int| 0 <= i < several.len() && #[trigger] several[i] == number
    &&& forall|i: int|
        0 <= i < several.len() && !(#[trigger] several[i]).is_nan_spec() ==> several[i].rank()
            <= number.rank()
}

/// Whether the parameters of a pass carry the settings: the size of the image, the
/// light, the color and the kind of the material, the sampler and the shadows.
pub open spec fn carries_settings(params: GpuParams, config: ResolvedBakeConfig) -> bool {
    &&& params.width == config.width
    &&& params.height == config.height
    &&& params.target_samples == config.samples
    &&& params.max_repeat_radius == config.max_repeat_radius
    &&& params.light_dir.x == config.light.x
    &&& params.light_dir.y == config.light.y
    &&& params.light_dir.z == config.light.z
    &&& params.material_color.x == config.material.color.x
    &&& params.material_color.y == config.material.color.y
    &&& params.material_color.z == config.material.color.z
    &&& params.material_code == 1 <==> config.material.kind == MaterialKind::SpecularPhong
    &&& params.material_code == 0 <==> config.material.kind == MaterialKind::Lambertian
    &&& params.sampler_code == 1 <==> config.sampler == SamplerKind::Random
    &&& params.sampler_code == 0 <==> config.sampler == SamplerKind::Halton
    &&& params.shadow_code == 1 <==> config.enable_shadows
    &&& params.shadow_code == 0 <==> !config.enable_shadows
    &&& config.material.roughness matches Some(roughness) ==> params.material_params.z == roughness
}

/// Whether the parameters of a pass carry the scene: how large its buffers are, its
/// tile, its bounds and its tolerances.
pub open spec fn carries_scene(params: GpuParams, scene: SceneGpuParams) -> bool {
    &&& scene.triangle_count <= u32::MAX ==> params.triangle_count == scene.triangle_count
    &&& scene.node_count <= u32::MAX ==> params.node_count == scene.node_count
    &&& params.tile_min_x == scene.tile_min_x
    &&& params.tile_min_z == scene.tile_min_z
    &&& params.tile_width == scene.tile_width
    &&& params.tile_depth == scene.tile_depth
    &&& params.bounds_min == scene.bounds_min
    &&& params.bounds_max == scene.bounds_max
    &&& params.material_params.y == scene.ray_epsilon
    &&& params.intersection_params.x == scene.hit_epsilon
    &&& params.intersection_params.y == scene.determinant_epsilon
}

} // verus!
