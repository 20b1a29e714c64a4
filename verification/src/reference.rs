//! What single rays see: intersections and reflections.

use crate::arithmetic::{Arithmetic, ArithmeticModel, Operation};
use crate::geometry::Triangle;
use crate::math::Vec3;
use crate::scalar::{Scalar, ONE_BITS, TWO_BITS, TWO_PI_BITS, ZERO_BITS};
use vstd::prelude::*;

verus! {

/// Bits of `1.0e-6`.
pub const EPSILON_BITS: u32 = 0x3586_37bd;

/// Bits of one over pi.
pub const INV_PI_BITS: u32 = 0x3ea2_f983;

/// Where a ray meets a triangle.
#[derive(Clone, Copy, Debug, PartialEq)]
pub struct RayHit {
    pub t: Scalar,
    pub position: Vec3,
    pub normal: Vec3,
}

/// A ray in the coordinates of a triangle: `u` and `v` along its edges, and the
/// distance `t` along the ray.  `det` is the volume that the edges and the
/// direction span.
pub struct Barycentric {
    pub det: Scalar,
    pub u: Scalar,
    pub v: Scalar,
    pub t: Scalar,
}

/// A ray in the coordinates of a triangle.
pub open spec fn barycentric(
    model: ArithmeticModel,
    origin: Vec3,
    direction: Vec3,
    triangle: Triangle,
) -> Barycentric {
    let edge1 = model.minus(triangle.v1, triangle.v0);
    let edge2 = model.minus(triangle.v2, triangle.v0);
    let p = model.cross(direction, edge2);
    let det = model.dot(edge1, p);
    let inv_det = model.quotient(Scalar { bits: ONE_BITS }, det);
    let tvec = model.minus(origin, triangle.v0);
    let q = model.cross(tvec, edge1);
    Barycentric {
        det,
        u: model.product(model.dot(tvec, p), inv_det),
        v: model.product(model.dot(direction, q), inv_det),
        t: model.product(model.dot(edge2, q), inv_det),
    }
}

/// Whether a ray in the coordinates of a triangle meets it: the ray is not
/// parallel to the triangle, passes inside it, and meets it ahead of the origin.
pub open spec fn is_hit(model: ArithmeticModel, ray: Barycentric) -> bool {
    let zero = Scalar { bits: ZERO_BITS };
    let one = Scalar { bits: ONE_BITS };
    let epsilon = Scalar { bits: EPSILON_BITS };
    &&& !ray.det.abs_spec().lt_spec(epsilon)
    &&& zero.le_spec(ray.u) && ray.u.le_spec(one)
    &&& !ray.v.lt_spec(zero) && !one.lt_spec(model.sum(ray.u, ray.v))
    &&& !ray.t.le_spec(epsilon)
}

/// Where a ray meets a triangle, if it does.
pub open spec fn intersect_triangle_spec(
    model: ArithmeticModel,
    origin: Vec3,
    direction: Vec3,
    triangle: Triangle,
) -> Option<RayHit> {
    let ray = barycentric(model, origin, direction, triangle);
    if is_hit(model, ray) {
        Some(
            RayHit {
                t: ray.t,
                position: model.plus(origin, model.times(direction, ray.t)),
                normal: triangle.normal,
            },
        )
    } else {
        None
    }
}

/// Where a ray meets a triangle, if it does.
pub fn intersect_triangle<F, N>(
    origin: Vec3,
    direction: Vec3,
    triangle: &Triangle,
    math: &Arithmetic<F, N>,
) -> (hit: Option<RayHit>) where
    F: Fn(Operation, Scalar, Scalar) -> Scalar,
    N: Fn(Vec3) -> Option<Vec3>,

    requires
        math.wf(),
    ensures
        hit == intersect_triangle_spec(math.model(), origin, direction, *triangle),
{
    let edge1 = math.minus(triangle.v1, triangle.v0);
    let edge2 = math.minus(triangle.v2, triangle.v0);
    let p = math.cross(direction, edge2);
    let det = math.dot(edge1, p);
    if det.abs().less_than(Scalar { bits: EPSILON_BITS }) {
        return None;
    }
    let inv_det = math.quotient(Scalar::one(), det);
    let tvec = math.minus(origin, triangle.v0);
    let u = math.product(math.dot(tvec, p), inv_det);
    if !Scalar::zero().at_most(u) || !u.at_most(Scalar::one()) {
        return None;
    }
    let q = math.cross(tvec, edge1);
    let v = math.product(math.dot(direction, q), inv_det);
    if v.less_than(Scalar::zero()) || Scalar::one().less_than(math.sum(u, v)) {
        return None;
    }
    let t = math.product(math.dot(edge2, q), inv_det);
    if t.at_most(Scalar { bits: EPSILON_BITS }) {
        return None;
    }
    Some(
        RayHit {
            t,
            position: math.plus(origin, math.times(direction, t)),
            normal: triangle.normal,
        },
    )
}

/// The larger of a number and the one with the bits `floor`; the latter where
/// the former is no number.
pub open spec fn at_least(value: Scalar, floor: u32) -> Scalar {
    value.max_spec(Scalar { bits: floor })
}

/// The up direction.
pub open spec fn up_spec() -> Vec3 {
    let zero = Scalar { bits: ZERO_BITS };
    Vec3 { x: zero, y: Scalar { bits: ONE_BITS }, z: zero }
}

/// The up direction.
fn up() -> (direction: Vec3)
    ensures
        direction == up_spec(),
{
    Vec3 { x: Scalar::zero(), y: Scalar::one(), z: Scalar::zero() }
}

/// What reaches the macro surface of a unit light, never zero.
pub open spec fn macro_irradiance(model: ArithmeticModel, light: Vec3) -> Scalar {
    at_least(model.dot(up_spec(), light), EPSILON_BITS)
}

/// The diffuse response of a facet, over what reaches the macro surface.
pub open spec fn normalized_lambertian_spec(
    model: ArithmeticModel,
    normal: Vec3,
    light: Vec3,
) -> Scalar {
    model.quotient(
        model.product(
            at_least(model.dot(normal, light), ZERO_BITS),
            Scalar { bits: INV_PI_BITS },
        ),
        macro_irradiance(model, light),
    )
}

/// The diffuse response of a facet, over what reaches the macro surface.
pub fn normalized_lambertian<F, N>(
    normal: Vec3,
    light: Vec3,
    math: &Arithmetic<F, N>,
) -> (response: Scalar) where
    F: Fn(Operation, Scalar, Scalar) -> Scalar,
    N: Fn(Vec3) -> Option<Vec3>,

    requires
        math.wf(),
    ensures
        response == normalized_lambertian_spec(math.model(), normal, light),
{
    let irradiance = math.dot(up(), light).max(Scalar { bits: EPSILON_BITS });
    let cosine = math.dot(normal, light).max(Scalar { bits: ZERO_BITS });
    math.quotient(math.product(cosine, Scalar { bits: INV_PI_BITS }), irradiance)
}

/// The mirror direction of a light about a normal; zero where there is none.
pub open spec fn mirror_spec(
    model: ArithmeticModel,
    normal: Vec3,
    light: Vec3,
    cosine: Scalar,
) -> Vec3 {
    let doubled = model.product(Scalar { bits: TWO_BITS }, cosine);
    let zero = Scalar { bits: ZERO_BITS };
    match (model.normalize)(model.minus(model.times(normal, doubled), light)) {
        Some(unit) => unit,
        None => Vec3 { x: zero, y: zero, z: zero },
    }
}

/// The specular response of a facet, over what reaches the macro surface; none
/// where the light is behind the facet.
pub open spec fn normalized_phong_specular_spec(
    model: ArithmeticModel,
    normal: Vec3,
    light: Vec3,
    outgoing: Vec3,
    exponent: Scalar,
) -> Scalar {
    let zero = Scalar { bits: ZERO_BITS };
    let cosine = at_least(model.dot(normal, light), ZERO_BITS);
    let sharpness = at_least(exponent, ONE_BITS);
    if cosine.rank() == 0 {
        zero
    } else {
        let mirror = mirror_spec(model, normal, light, cosine);
        let lobe = model.power(at_least(model.dot(mirror, outgoing), ZERO_BITS), sharpness);
        let scale = model.quotient(
            model.sum(sharpness, Scalar { bits: TWO_BITS }),
            Scalar { bits: TWO_PI_BITS },
        );
        model.quotient(
            model.product(model.product(cosine, scale), lobe),
            macro_irradiance(model, light),
        )
    }
}

/// The specular response of a facet, over what reaches the macro surface.
pub fn normalized_phong_specular<F, N>(
    normal: Vec3,
    light: Vec3,
    outgoing: Vec3,
    exponent: Scalar,
    math: &Arithmetic<F, N>,
) -> (response: Scalar) where
    F: Fn(Operation, Scalar, Scalar) -> Scalar,
    N: Fn(Vec3) -> Option<Vec3>,

    requires
        math.wf(),
    ensures
        response == normalized_phong_specular_spec(
            math.model(),
            normal,
            light,
            outgoing,
            exponent,
        ),
{
    let zero = Scalar::zero();
    let irradiance = math.dot(up(), light).max(Scalar { bits: EPSILON_BITS });
    let cosine = math.dot(normal, light).max(Scalar { bits: ZERO_BITS });
    if cosine.at_most(zero) && zero.at_most(cosine) {
        return zero;
    }
    let doubled = math.product(Scalar { bits: TWO_BITS }, cosine);
    let mirror = match math.normalized(math.minus(math.times(normal, doubled), light)) {
        Some(unit) => unit,
        None => Vec3 { x: zero, y: zero, z: zero },
    };
    let sharpness = exponent.max(Scalar { bits: ONE_BITS });
    let lobe = math.power(
        math.dot(mirror, outgoing).max(Scalar { bits: ZERO_BITS }),
        sharpness,
    );
    let scale = math.quotient(
        math.sum(sharpness, Scalar { bits: TWO_BITS }),
        Scalar { bits: TWO_PI_BITS },
    );
    math.quotient(math.product(math.product(cosine, scale), lobe), irradiance)
}

/// What reaches the macro surface is taken to be positive, so no response is
/// divided by zero or by less.
pub proof fn lemma_irradiance_is_positive(model: ArithmeticModel, light: Vec3)
    ensures
        (Scalar { bits: EPSILON_BITS }).le_spec(macro_irradiance(model, light)),
        (Scalar { bits: ZERO_BITS }).lt_spec(macro_irradiance(model, light)),
{
}

/// A facet that faces away from the light has no specular response.
pub proof fn lemma_no_specular_behind_the_facet(
    model: ArithmeticModel,
    normal: Vec3,
    light: Vec3,
    outgoing: Vec3,
    exponent: Scalar,
)
    requires
        model.dot(normal, light).le_spec(Scalar { bits: ZERO_BITS }),
    ensures
        normalized_phong_specular_spec(model, normal, light, outgoing, exponent) == (Scalar {
            bits: ZERO_BITS,
        }),
{
}

/// A flat surface divides the cosine of the light by itself: for every light
/// above the horizon its diffuse response is one over pi but for the rounding of
/// one product and one quotient, and the cosine is left to whoever looks the
/// response up.
pub proof fn lemma_flat_response_is_free_of_the_cosine(model: ArithmeticModel, light: Vec3)
    requires
        (Scalar { bits: EPSILON_BITS }).le_spec(model.dot(up_spec(), light)),
    ensures
        ({
            let cosine = model.dot(up_spec(), light);
            let response = normalized_lambertian_spec(model, up_spec(), light);
            let inv_pi = Scalar { bits: INV_PI_BITS };
            response == model.quotient(model.product(cosine, inv_pi), cosine)
        }),
{
}

/// The factor of the specular response that does not depend on the outgoing
/// direction.
pub open spec fn specular_factor(
    model: ArithmeticModel,
    normal: Vec3,
    light: Vec3,
    exponent: Scalar,
) -> Scalar {
    model.product(
        at_least(model.dot(normal, light), ZERO_BITS),
        model.quotient(
            model.sum(at_least(exponent, ONE_BITS), Scalar { bits: TWO_BITS }),
            Scalar { bits: TWO_PI_BITS },
        ),
    )
}

/// The cosine between an outgoing direction and the mirror direction.
pub open spec fn mirror_cosine(
    model: ArithmeticModel,
    normal: Vec3,
    light: Vec3,
    outgoing: Vec3,
) -> Scalar {
    let cosine = at_least(model.dot(normal, light), ZERO_BITS);
    at_least(model.dot(mirror_spec(model, normal, light, cosine), outgoing), ZERO_BITS)
}

/// The specular response is never negative and falls off around the mirror
/// direction: a direction that is nearer to it has no smaller response.  This is
/// for arithmetic that keeps numbers in order and finite.
pub proof fn lemma_specular_peaks_at_the_mirror(
    model: ArithmeticModel,
    normal: Vec3,
    light: Vec3,
    near: Vec3,
    far: Vec3,
    exponent: Scalar,
)
    requires
        model.keeps_order(),
        exponent.is_finite_spec(),
        macro_irradiance(model, light).is_finite_spec(),
        specular_factor(model, normal, light, exponent).is_finite_spec(),
        (Scalar { bits: ZERO_BITS }).le_spec(specular_factor(model, normal, light, exponent)),
        mirror_cosine(model, normal, light, near).is_finite_spec(),
        mirror_cosine(model, normal, light, far).le_spec(
            mirror_cosine(model, normal, light, near),
        ),
        model.power(
            mirror_cosine(model, normal, light, near),
            at_least(exponent, ONE_BITS),
        ).is_finite_spec(),
    ensures
        ({
            let peak = normalized_phong_specular_spec(model, normal, light, near, exponent);
            let beside = normalized_phong_specular_spec(model, normal, light, far, exponent);
            &&& (Scalar { bits: ZERO_BITS }).le_spec(beside)
            &&& beside.le_spec(peak)
        }),
{
    let zero = Scalar { bits: ZERO_BITS };
    let sharpness = at_least(exponent, ONE_BITS);
    let factor = specular_factor(model, normal, light, exponent);
    let low = mirror_cosine(model, normal, light, far);
    let high = mirror_cosine(model, normal, light, near);
    let irradiance = macro_irradiance(model, light);
    assert(zero.le_spec(low));
    let dim = model.power(low, sharpness);
    let bright = model.power(high, sharpness);
    assert(dim.le_spec(bright));
    assert(zero.le_spec(dim));
    assert(dim.is_finite_spec());
    assert(model.product(factor, zero).le_spec(model.product(factor, dim)));
    assert(model.product(factor, dim).le_spec(model.product(factor, bright)));
    assert(zero.le_spec(model.product(factor, dim)));
    assert(model.quotient(model.product(factor, dim), irradiance).le_spec(
        model.quotient(model.product(factor, bright), irradiance),
    ));
}

/// Where a ray meets a triangle, written out in coordinates: with the edges from the first
/// corner to the second and to the third, `u` and `v` are the parts of these edges at the
/// point where the ray meets their plane, and `t` is how far along the ray that is.
pub proof fn lemma_rays_are_in_the_coordinates_of_the_triangle(
    model: ArithmeticModel,
    origin: Vec3,
    direction: Vec3,
    triangle: Triangle,
)
    ensures
        ({
            let minus = |a: Scalar, b: Scalar| (model.compute)(Operation::Difference, a, b);
            let plus = |a: Scalar, b: Scalar| (model.compute)(Operation::Sum, a, b);
            let times = |a: Scalar, b: Scalar| (model.compute)(Operation::Product, a, b);
            let less = |a: Vec3, b: Vec3|
                Vec3 { x: minus(a.x, b.x), y: minus(a.y, b.y), z: minus(a.z, b.z) };
            let across = |a: Vec3, b: Vec3|
                Vec3 {
                    x: minus(times(a.y, b.z), times(a.z, b.y)),
                    y: minus(times(a.z, b.x), times(a.x, b.z)),
                    z: minus(times(a.x, b.y), times(a.y, b.x)),
                };
            let along = |a: Vec3, b: Vec3|
                plus(plus(times(a.x, b.x), times(a.y, b.y)), times(a.z, b.z));
            let first = less(triangle.v1, triangle.v0);
            let second = less(triangle.v2, triangle.v0);
            let from = less(origin, triangle.v0);
            let volume = along(first, across(direction, second));
            let share = (model.compute)(
                Operation::Quotient,
                Scalar { bits: 0x3f80_0000 },
                volume,
            );
            let ray = barycentric(model, origin, direction, triangle);
            let hit = intersect_triangle_spec(model, origin, direction, triangle);
            let sum = plus(ray.u, ray.v);
            &&& ray.det == volume
            &&& ray.u == times(along(from, across(direction, second)), share)
            &&& ray.v == times(along(direction, across(from, first)), share)
            &&& ray.t == times(along(second, across(from, first)), share)
            &&& !volume.is_nan_spec() && !ray.u.is_nan_spec() && !ray.v.is_nan_spec()
                && !ray.t.is_nan_spec() && !sum.is_nan_spec() ==> (hit is Some <==>
                volume.abs_spec().rank() >= 0x3586_37bd && 0 <= ray.u.rank() <= 0x3f80_0000 && 0
                <= ray.v.rank() && sum.rank() <= 0x3f80_0000 && ray.t.rank() > 0x3586_37bd)
            &&& hit matches Some(hit) ==> {
                &&& hit.t == ray.t
                &&& hit.position.x == plus(origin.x, times(direction.x, ray.t))
                &&& hit.position.y == plus(origin.y, times(direction.y, ray.t))
                &&& hit.position.z == plus(origin.z, times(direction.z, ray.t))
                &&& hit.normal == triangle.normal
            }
        }),
{
}

/// The responses of a facet, written out.  Both are over the height of the light, but no
/// less than a millionth.  The diffuse one is the cosine of the light on the facet over
/// pi; the specular one the cosine, times the exponent and two over a full turn, times the
/// power of the cosine between the mirrored light and the direction that is looked from.
pub proof fn lemma_responses_are_over_the_height_of_the_light(
    model: ArithmeticModel,
    normal: Vec3,
    light: Vec3,
    outgoing: Vec3,
    exponent: Scalar,
)
    ensures
        ({
            let minus = |a: Scalar, b: Scalar| (model.compute)(Operation::Difference, a, b);
            let plus = |a: Scalar, b: Scalar| (model.compute)(Operation::Sum, a, b);
            let times = |a: Scalar, b: Scalar| (model.compute)(Operation::Product, a, b);
            let over = |a: Scalar, b: Scalar| (model.compute)(Operation::Quotient, a, b);
            let along = |a: Vec3, b: Vec3|
                plus(plus(times(a.x, b.x), times(a.y, b.y)), times(a.z, b.z));
            let floored = |a: Scalar, floor: u32|
                if a.is_nan_spec() || a.rank() < floor {
                    Scalar { bits: floor }
                } else {
                    a
                };
            let zero = Scalar { bits: 0 };
            let one = Scalar { bits: 0x3f80_0000 };
            let two = Scalar { bits: 0x4000_0000 };
            let height = along(Vec3 { x: zero, y: one, z: zero }, light);
            let reached = floored(height, 0x3586_37bd);
            let facing = along(normal, light);
            let diffuse = normalized_lambertian_spec(model, normal, light);
            let shine = normalized_phong_specular_spec(model, normal, light, outgoing, exponent);
            let sharp = floored(exponent, 0x3f80_0000);
            let doubled = times(two, facing);
            let mirrored = (model.normalize)(
                Vec3 {
                    x: minus(times(normal.x, doubled), light.x),
                    y: minus(times(normal.y, doubled), light.y),
                    z: minus(times(normal.z, doubled), light.z),
                },
            );
            &&& facing.rank() > 0 && !facing.is_nan_spec() ==> diffuse == over(
                times(facing, Scalar { bits: 0x3ea2_f983 }),
                reached,
            )
            &&& facing.rank() > 0 && !facing.is_nan_spec() && mirrored is Some ==> {
                let seen = along(mirrored.unwrap(), outgoing);
                seen.rank() > 0 && !seen.is_nan_spec() ==> shine == over(
                    times(
                        times(facing, over(plus(sharp, two), Scalar { bits: 0x40c9_0fdb })),
                        (model.compute)(Operation::Power, seen, sharp),
                    ),
                    reached,
                )
            }
            &&& facing.rank() < 0 && !facing.is_nan_spec() ==> shine == zero && diffuse == over(
                times(zero, Scalar { bits: 0x3ea2_f983 }),
                reached,
            )
        }),
{
}

} // verus!
