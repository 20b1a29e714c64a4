//! Meshes that an atlas is shown on.

use crate::arithmetic::{Arithmetic, ArithmeticModel, Operation};
use crate::choice::value_or;
use crate::double::{round_all, singles};
use crate::fbx::{
    all_geometry_nodes, child_f64_array, child_f64_array_spec, child_i32_array,
    child_i32_array_spec, child_string, child_string_spec, decode_polygon_index, find_child,
    find_named, open_corners, pointees, polygons, refers_to, vertex_of, Node, Polygon,
};
use crate::geometry::edge_product;
use crate::kernel::image1;
use crate::math::{chunk_points, greatest, least, points_from, Vec3};
use crate::obj::all_finite;
use crate::sampling::{LatlongMath, LatlongModel};
use crate::scalar::{Scalar, HALF_BITS, MINUS_ONE_BITS, ONE_BITS, TWO_PI_BITS, ZERO_BITS};
use crate::text::same_text;
use std::collections::HashMap;
use vstd::prelude::*;

verus! {

/// Bits of `1.0e-8`.
pub const MIN_UV_AREA_BITS: u32 = 0x322b_cc77;

/// Bits of `100000.0`, the number of cells in a unit of length.
pub const CELLS_PER_UNIT_BITS: u32 = 0x47c3_5000;

/// Bits of `0.9`.
pub const STEEP_BITS: u32 = 0x3f66_6666;

/// Bits of `1.8`, the size that a model is scaled to.
pub const FIT_SIZE_BITS: u32 = 0x3fe6_6666;

/// Bits of `1.0e-6`.
pub const MIN_EXTENT_BITS: u32 = 0x3586_37bd;

/// A vertex with its tangent frame.
#[derive(Clone, Copy, Debug, PartialEq)]
pub struct ModelVertex {
    pub position: Vec3,
    pub normal: Vec3,
    pub tangent: Vec3,
    pub bitangent: Vec3,
}

/// A position on a texture.
#[derive(Clone, Copy, Debug, PartialEq)]
pub struct Uv {
    pub u: Scalar,
    pub v: Scalar,
}

/// Why a preview model cannot be shown.
#[derive(Clone, Copy, Debug, PartialEq, Eq, Structural)]
pub enum PreviewError {
    RaggedVertices,
    NonFinitePosition,
    InvalidIndex,
    IndexOutOfRange,
    NoTriangles,
}

impl PreviewError {
    /// The message for the error.
    pub open spec fn message_spec(self) -> Seq<char> {
        match self {
            PreviewError::RaggedVertices =>
                "FBX vertex array length is not divisible by three"@,
            PreviewError::NonFinitePosition => "FBX contains a non-finite position"@,
            PreviewError::InvalidIndex => "FBX contains an invalid polygon index"@,
            PreviewError::IndexOutOfRange => "FBX polygon index is out of range"@,
            PreviewError::NoTriangles => "FBX contains no previewable triangle mesh"@,
        }
    }

    /// The message for the error.
    pub fn message(self) -> (message: &'static str)
        ensures
            message@ == self.message_spec(),
    {
        match self {
            PreviewError::RaggedVertices => "FBX vertex array length is not divisible by three",
            PreviewError::NonFinitePosition => "FBX contains a non-finite position",
            PreviewError::InvalidIndex => "FBX contains an invalid polygon index",
            PreviewError::IndexOutOfRange => "FBX polygon index is out of range",
            PreviewError::NoTriangles => "FBX contains no previewable triangle mesh",
        }
    }
}

/// The texture positions of a geometry node and how corners refer to them.
#[derive(Debug)]
pub struct FbxUvLayer {
    pub mapping: String,
    pub reference: String,
    pub uvs: Vec<Uv>,
    pub indices: Vec<i32>,
}

/// A [`FbxUvLayer`] with its contents as sequences.
#[verifier::ext_equal]
pub struct UvLayer {
    pub mapping: Seq<char>,
    pub reference: Seq<char>,
    pub uvs: Seq<Uv>,
    pub indices: Seq<i32>,
}

impl View for FbxUvLayer {
    type V = UvLayer;

    open spec fn view(&self) -> UvLayer {
        UvLayer {
            mapping: self.mapping@,
            reference: self.reference@,
            uvs: self.uvs@,
            indices: self.indices@,
        }
    }
}

/// The texture position at the origin.
pub open spec fn origin_uv() -> Uv {
    Uv { u: Scalar { bits: ZERO_BITS }, v: Scalar { bits: ZERO_BITS } }
}

/// A number, at least zero.
pub open spec fn not_negative(value: i32) -> int {
    if value < 0 {
        0
    } else {
        value as int
    }
}

impl UvLayer {
    /// The slot that a corner refers to: that of its vertex, or its own.
    pub open spec fn slot(self, corner: usize, vertex: usize) -> usize {
        if self.mapping == "ByVertice"@ || self.mapping == "ByVertex"@ {
            vertex
        } else {
            corner
        }
    }

    /// The texture position of a corner; the origin where there is none.
    pub open spec fn uv_at_spec(self, corner: usize, vertex: usize) -> Uv {
        let slot = self.slot(corner, vertex);
        let direct = if self.reference == "IndexToDirect"@ || self.reference == "Index"@ {
            not_negative(
                if slot < self.indices.len() {
                    self.indices[slot as int]
                } else {
                    slot as i32
                },
            )
        } else {
            slot as int
        };
        if direct < self.uvs.len() {
            self.uvs[direct]
        } else {
            origin_uv()
        }
    }
}

impl FbxUvLayer {
    /// The texture position of a corner, by its number among all corners and
    /// the number of its vertex.
    pub fn uv_at(&self, corner: usize, vertex: usize) -> (uv: Uv)
        ensures
            uv == self@.uv_at_spec(corner, vertex),
    {
        let slot: usize = if same_text(self.mapping.as_str(), "ByVertice") || same_text(
            self.mapping.as_str(),
            "ByVertex",
        ) {
            vertex
        } else {
            corner
        };
        let direct: usize = if same_text(self.reference.as_str(), "IndexToDirect") || same_text(
            self.reference.as_str(),
            "Index",
        ) {
            let index: i32 = if slot < self.indices.len() {
                self.indices[slot]
            } else {
                slot as i32
            };
            if index < 0 {
                0
            } else {
                index as usize
            }
        } else {
            slot
        };
        if direct < self.uvs.len() {
            self.uvs[direct]
        } else {
            Uv { u: Scalar::zero(), v: Scalar::zero() }
        }
    }
}

/// The texture positions made of the numbers two by two.
pub open spec fn chunk_uvs(values: Seq<Scalar>) -> Seq<Uv> {
    Seq::new(
        (values.len() / 2) as nat,
        |i: int| Uv { u: values[2 * i], v: values[2 * i + 1] },
    )
}

/// Groups numbers into texture positions.
fn uvs_from(values: &Vec<Scalar>) -> (uvs: Vec<Uv>)
    ensures
        uvs@ == chunk_uvs(values@),
{
    let count: usize = values.len() / 2;
    let mut uvs: Vec<Uv> = Vec::new();
    let mut next: usize = 0;
    while next < count
        invariant
            count == values@.len() / 2,
            count * 2 <= usize::MAX,
            next <= count,
            uvs@ == chunk_uvs(values@).take(next as int),
        decreases count - next,
    {
        uvs.push(Uv { u: values[2 * next], v: values[2 * next + 1] });
        assert(uvs@ =~= chunk_uvs(values@).take(next + 1));
        next += 1;
    }
    assert(uvs@ =~= chunk_uvs(values@));
    uvs
}

/// The texture positions of a geometry node.
pub open spec fn uv_layer_spec(node: Node) -> Option<UvLayer> {
    match find_named(node.children@, "LayerElementUV"@) {
        None => None,
        Some(layer) => match child_f64_array_spec(layer, "UV"@) {
            None => None,
            Some(uvs) => Some(
                UvLayer {
                    mapping: value_or(
                        child_string_spec(layer, "MappingInformationType"@),
                        "ByPolygonVertex"@,
                    ),
                    reference: value_or(
                        child_string_spec(layer, "ReferenceInformationType"@),
                        "Direct"@,
                    ),
                    uvs: chunk_uvs(singles(uvs)),
                    indices: value_or(child_i32_array_spec(layer, "UVIndex"@), Seq::empty()),
                },
            ),
        },
    }
}

/// The texture positions of a geometry node.
pub fn fbx_uv_layer(node: &Node) -> (layer: Option<FbxUvLayer>)
    ensures
        layer is None ==> uv_layer_spec(*node) is None,
        layer is Some ==> uv_layer_spec(*node) == Some(layer.unwrap()@),
{
    let layer = match find_child(node, "LayerElementUV") {
        Some(layer) => layer,
        None => return None,
    };
    let mapping = match child_string(layer, "MappingInformationType") {
        Some(mapping) => mapping,
        None => "ByPolygonVertex".to_owned(),
    };
    let reference = match child_string(layer, "ReferenceInformationType") {
        Some(reference) => reference,
        None => "Direct".to_owned(),
    };
    let raw_uvs = match child_f64_array(layer, "UV") {
        Some(values) => values,
        None => return None,
    };
    let uvs = uvs_from(&round_all(&raw_uvs));
    let indices = match child_i32_array(layer, "UVIndex") {
        Some(values) => values,
        None => Vec::new(),
    };
    let found = FbxUvLayer { mapping, reference, uvs, indices };
    assert(uv_layer_spec(*node).unwrap() =~= found@);
    Some(found)
}

/// A vector along one of the axes.
pub open spec fn axis_vector(x: u32, y: u32, z: u32) -> Vec3 {
    Vec3 { x: Scalar { bits: x }, y: Scalar { bits: y }, z: Scalar { bits: z } }
}

/// The tangent frame along the texture, where the texture spans an area.
pub open spec fn tangent_frame_from_uvs_spec(
    model: ArithmeticModel,
    e1: Vec3,
    e2: Vec3,
    a: Uv,
    b: Uv,
    c: Uv,
) -> Option<(Vec3, Vec3)> {
    let du1 = model.difference(b.u, a.u);
    let dv1 = model.difference(b.v, a.v);
    let du2 = model.difference(c.u, a.u);
    let dv2 = model.difference(c.v, a.v);
    let det = model.difference(model.product(du1, dv2), model.product(dv1, du2));
    if det.abs_spec().lt_spec(Scalar { bits: MIN_UV_AREA_BITS }) {
        None
    } else {
        let inv_det = model.quotient(Scalar { bits: ONE_BITS }, det);
        let tangent = (model.normalize)(
            model.times(model.minus(model.times(e1, dv2), model.times(e2, dv1)), inv_det),
        );
        let bitangent = (model.normalize)(
            model.times(model.minus(model.times(e2, du1), model.times(e1, du2)), inv_det),
        );
        match (tangent, bitangent) {
            (Some(tangent), Some(bitangent)) => Some((tangent, bitangent)),
            _ => None,
        }
    }
}

/// A tangent frame for a normal alone: along the plane that the normal and the
/// up direction leave free, or the x axis for a steep normal.
pub open spec fn fallback_tangent_frame_spec(model: ArithmeticModel, normal: Vec3) -> (Vec3, Vec3) {
    let helper = if normal.y.abs_spec().lt_spec(Scalar { bits: STEEP_BITS }) {
        axis_vector(ZERO_BITS, ONE_BITS, ZERO_BITS)
    } else {
        axis_vector(ONE_BITS, ZERO_BITS, ZERO_BITS)
    };
    let tangent = value_or(
        (model.normalize)(model.cross(helper, normal)),
        axis_vector(ONE_BITS, ZERO_BITS, ZERO_BITS),
    );
    let bitangent = value_or(
        (model.normalize)(model.cross(normal, tangent)),
        axis_vector(ZERO_BITS, ZERO_BITS, ONE_BITS),
    );
    (tangent, bitangent)
}

/// Three corners of a triangle and, where there are any, their texture
/// positions.
pub struct PreviewTriangle {
    pub a: Vec3,
    pub b: Vec3,
    pub c: Vec3,
    pub uvs: Option<(Uv, Uv, Uv)>,
}

/// The vertices of a triangle: none where it spans no area.
pub open spec fn triangle_vertices(
    model: ArithmeticModel,
    triangle: PreviewTriangle,
) -> Seq<ModelVertex> {
    let e1 = model.minus(triangle.b, triangle.a);
    let e2 = model.minus(triangle.c, triangle.a);
    match (model.normalize)(model.cross(e1, e2)) {
        None => Seq::empty(),
        Some(normal) => {
            let along = match triangle.uvs {
                Some(uvs) => tangent_frame_from_uvs_spec(model, e1, e2, uvs.0, uvs.1, uvs.2),
                None => None,
            };
            let frame = value_or(along, fallback_tangent_frame_spec(model, normal));
            let tangent = frame.0;
            let bitangent = frame.1;
            seq![
                ModelVertex { position: triangle.a, normal, tangent, bitangent },
                ModelVertex { position: triangle.b, normal, tangent, bitangent },
                ModelVertex { position: triangle.c, normal, tangent, bitangent },
            ]
        },
    }
}

impl<F, N> Arithmetic<F, N> where
    F: Fn(Operation, Scalar, Scalar) -> Scalar,
    N: Fn(Vec3) -> Option<Vec3>,
 {
    /// The tangent frame along the texture, where the texture spans an area.
    pub fn tangent_frame_from_uvs(&self, e1: Vec3, e2: Vec3, a: Uv, b: Uv, c: Uv) -> (frame: Option<
        (Vec3, Vec3),
    >)
        requires
            self.wf(),
        ensures
            frame == tangent_frame_from_uvs_spec(self.model(), e1, e2, a, b, c),
    {
        let du1 = self.difference(b.u, a.u);
        let dv1 = self.difference(b.v, a.v);
        let du2 = self.difference(c.u, a.u);
        let dv2 = self.difference(c.v, a.v);
        let det = self.difference(self.product(du1, dv2), self.product(dv1, du2));
        if det.abs().less_than(Scalar { bits: MIN_UV_AREA_BITS }) {
            return None;
        }
        let inv_det = self.quotient(Scalar::one(), det);
        let tangent = match self.normalized(
            self.times(self.minus(self.times(e1, dv2), self.times(e2, dv1)), inv_det),
        ) {
            Some(tangent) => tangent,
            None => return None,
        };
        let bitangent = match self.normalized(
            self.times(self.minus(self.times(e2, du1), self.times(e1, du2)), inv_det),
        ) {
            Some(bitangent) => bitangent,
            None => return None,
        };
        Some((tangent, bitangent))
    }

    /// A tangent frame for a normal alone.
    pub fn fallback_tangent_frame(&self, normal: Vec3) -> (frame: (Vec3, Vec3))
        requires
            self.wf(),
        ensures
            frame == fallback_tangent_frame_spec(self.model(), normal),
    {
        let zero = Scalar::zero();
        let one = Scalar::one();
        let helper = if normal.y.abs().less_than(Scalar { bits: STEEP_BITS }) {
            Vec3 { x: zero, y: one, z: zero }
        } else {
            Vec3 { x: one, y: zero, z: zero }
        };
        let tangent = match self.normalized(self.cross(helper, normal)) {
            Some(tangent) => tangent,
            None => Vec3 { x: one, y: zero, z: zero },
        };
        let bitangent = match self.normalized(self.cross(normal, tangent)) {
            Some(bitangent) => bitangent,
            None => Vec3 { x: zero, y: zero, z: one },
        };
        (tangent, bitangent)
    }

    /// Appends the vertices of a triangle, unless it spans no area.
    pub fn push_preview_triangle(
        &self,
        a: Vec3,
        b: Vec3,
        c: Vec3,
        uvs: Option<(Uv, Uv, Uv)>,
        vertices: &mut Vec<ModelVertex>,
    )
        requires
            self.wf(),
        ensures
            final(vertices)@ == old(vertices)@ + triangle_vertices(
                self.model(),
                PreviewTriangle { a, b, c, uvs },
            ),
    {
        let ghost before = vertices@;
        let ghost triangle = PreviewTriangle { a, b, c, uvs };
        let e1 = self.minus(b, a);
        let e2 = self.minus(c, a);
        let normal = match self.normalized(self.cross(e1, e2)) {
            Some(normal) => normal,
            None => {
                assert(vertices@ =~= before + triangle_vertices(self.model(), triangle));
                return ;
            },
        };
        let along = match uvs {
            Some((first, second, third)) => self.tangent_frame_from_uvs(
                e1,
                e2,
                first,
                second,
                third,
            ),
            None => None,
        };
        let (tangent, bitangent) = match along {
            Some(frame) => frame,
            None => self.fallback_tangent_frame(normal),
        };
        vertices.push(ModelVertex { position: a, normal, tangent, bitangent });
        vertices.push(ModelVertex { position: b, normal, tangent, bitangent });
        vertices.push(ModelVertex { position: c, normal, tangent, bitangent });
        assert(vertices@ =~= before + triangle_vertices(self.model(), triangle));
    }
}

/// Why a raw polygon index is refused for a number of vertices, if it is.
pub open spec fn index_error(raw: i32, count: nat) -> Option<PreviewError> {
    if raw == i32::MIN {
        Some(PreviewError::InvalidIndex)
    } else if vertex_of(raw) >= count {
        Some(PreviewError::IndexOutOfRange)
    } else {
        None
    }
}

/// Why the first raw polygon index that is refused is.
pub open spec fn first_index_error(raw: Seq<i32>, count: nat) -> Option<PreviewError>
    decreases raw.len(),
{
    if raw.len() == 0 {
        None
    } else {
        match first_index_error(raw.drop_last(), count) {
            Some(error) => Some(error),
            None => index_error(raw.last(), count),
        }
    }
}

/// What the triangles of a geometry node are made of.
pub struct PreviewSource {
    pub positions: Seq<Vec3>,
    pub raw: Seq<i32>,
    pub layer: Option<UvLayer>,
}

impl PreviewSource {
    /// The texture position of corner `i` of all.
    pub open spec fn corner_uv(self, layer: UvLayer, i: int) -> Uv {
        layer.uv_at_spec(i as usize, vertex_of(self.raw[i]) as usize)
    }

    /// Triangle `t` of the fan over a polygon.
    pub open spec fn triangle(self, polygon: Polygon, t: int) -> PreviewTriangle {
        let a = polygon.start as int;
        let b = polygon.start + t + 1;
        let c = polygon.start + t + 2;
        PreviewTriangle {
            a: self.positions[vertex_of(self.raw[a])],
            b: self.positions[vertex_of(self.raw[b])],
            c: self.positions[vertex_of(self.raw[c])],
            uvs: match self.layer {
                Some(layer) => Some(
                    (
                        self.corner_uv(layer, a),
                        self.corner_uv(layer, b),
                        self.corner_uv(layer, c),
                    ),
                ),
                None => None,
            },
        }
    }

    /// The vertices of the first `n` triangles of the fan over a polygon.
    pub open spec fn fan_vertices(
        self,
        model: ArithmeticModel,
        polygon: Polygon,
        n: int,
    ) -> Seq<ModelVertex>
        decreases n,
    {
        if n <= 0 {
            Seq::empty()
        } else {
            self.fan_vertices(model, polygon, n - 1) + triangle_vertices(
                model,
                self.triangle(polygon, n - 1),
            )
        }
    }

    /// The vertices of the fans over some polygons.
    pub open spec fn vertices(self, model: ArithmeticModel, listed: Seq<Polygon>) -> Seq<
        ModelVertex,
    >
        decreases listed.len(),
    {
        if listed.len() == 0 {
            Seq::empty()
        } else {
            self.vertices(model, listed.drop_last()) + self.fan_vertices(
                model,
                listed.last(),
                listed.last().corners - 2,
            )
        }
    }
}

/// The vertices of a geometry node, or why it cannot be shown.  A node without
/// vertices or polygons has none.
pub open spec fn parse_preview_spec(node: Node, model: ArithmeticModel) -> Result<
    Seq<ModelVertex>,
    PreviewError,
> {
    match (
        child_f64_array_spec(node, "Vertices"@),
        child_i32_array_spec(node, "PolygonVertexIndex"@),
    ) {
        (Some(numbers), Some(raw)) => {
            let positions = chunk_points(singles(numbers), 3);
            if numbers.len() % 3 != 0 {
                Err(PreviewError::RaggedVertices)
            } else if !all_finite(positions) {
                Err(PreviewError::NonFinitePosition)
            } else if first_index_error(raw, positions.len()) is Some {
                Err(first_index_error(raw, positions.len()).unwrap())
            } else {
                Ok(
                    PreviewSource { positions, raw, layer: uv_layer_spec(node) }.vertices(
                        model,
                        polygons(raw),
                    ),
                )
            }
        },
        _ => Ok(Seq::empty()),
    }
}

/// The view of an optional layer.
pub open spec fn uv_layer_view(layer: Option<FbxUvLayer>) -> Option<UvLayer> {
    match layer {
        Some(layer) => Some(layer@),
        None => None,
    }
}

/// Whether an index is accepted for a number of vertices.
pub open spec fn accepted(raw: i32, count: nat) -> bool {
    raw != i32::MIN && vertex_of(raw) < count
}

impl<F, N> Arithmetic<F, N> where
    F: Fn(Operation, Scalar, Scalar) -> Scalar,
    N: Fn(Vec3) -> Option<Vec3>,
 {
    /// Appends the fan over one polygon.
    fn push_preview_fan(
        &self,
        positions: &Vec<Vec3>,
        raw: &Vec<i32>,
        layer: &Option<FbxUvLayer>,
        start: usize,
        corners: usize,
        vertices: &mut Vec<ModelVertex>,
    )
        requires
            self.wf(),
            start + corners <= raw@.len(),
            forall|i: int|
                start <= i < start + corners ==> accepted(#[trigger] raw@[i], positions@.len()),
        ensures
            final(vertices)@ == old(vertices)@ + (PreviewSource {
                positions: positions@,
                raw: raw@,
                layer: uv_layer_view(*layer),
            }).fan_vertices(
                self.model(),
                Polygon { start: start as nat, corners: corners as nat },
                corners - 2,
            ),
    {
        let ghost source = PreviewSource {
            positions: positions@,
            raw: raw@,
            layer: uv_layer_view(*layer),
        };
        let ghost polygon = Polygon { start: start as nat, corners: corners as nat };
        let ghost before = vertices@;
        let total: usize = raw.len();
        if corners < 3 {
            assert(vertices@ =~= before + source.fan_vertices(
                self.model(),
                polygon,
                corners - 2,
            ));
            return ;
        }
        let mut local: usize = 1;
        assert(before + source.fan_vertices(self.model(), polygon, 0) =~= before);
        while local < corners - 1
            invariant
                self.wf(),
                3 <= corners,
                start + corners <= total == raw@.len(),
                forall|i: int|
                    start <= i < start + corners ==> accepted(#[trigger] raw@[i], positions@.len()),
                source == (PreviewSource {
                    positions: positions@,
                    raw: raw@,
                    layer: uv_layer_view(*layer),
                }),
                polygon == (Polygon { start: start as nat, corners: corners as nat }),
                1 <= local <= corners - 1,
                vertices@ == before + source.fan_vertices(self.model(), polygon, local - 1),
            decreases corners - local,
        {
            let first: i32 = raw[start];
            let second: i32 = raw[start + local];
            let third: i32 = raw[start + local + 1];
            assert(accepted(raw@[start as int], positions@.len()));
            assert(accepted(raw@[start + local], positions@.len()));
            assert(accepted(raw@[start + local + 1], positions@.len()));
            let ghost so_far = vertices@;
            match (
                decode_polygon_index(first),
                decode_polygon_index(second),
                decode_polygon_index(third),
            ) {
                (Some((a, _)), Some((b, _)), Some((c, _))) => {
                    let uvs = match layer {
                        Some(layer) => Some(
                            (
                                layer.uv_at(start, a),
                                layer.uv_at(start + local, b),
                                layer.uv_at(start + local + 1, c),
                            ),
                        ),
                        None => None,
                    };
                    assert(source.triangle(polygon, local - 1) == (PreviewTriangle {
                        a: positions@[a as int],
                        b: positions@[b as int],
                        c: positions@[c as int],
                        uvs,
                    }));
                    self.push_preview_triangle(
                        positions[a],
                        positions[b],
                        positions[c],
                        uvs,
                        vertices,
                    );
                },
                _ => {
                    assert(false);
                },
            }
            assert(vertices@ =~= before + source.fan_vertices(
                self.model(),
                polygon,
                local as int,
            ));
            local += 1;
        }
    }

    /// The vertices of a geometry node, three for each triangle, or why it
    /// cannot be shown.
    pub fn parse_preview_fbx_geometry(&self, node: &Node) -> (vertices: Result<
        Vec<ModelVertex>,
        PreviewError,
    >)
        requires
            self.wf(),
        ensures
            match vertices {
                Ok(vertices) => parse_preview_spec(*node, self.model()) == Ok::<
                    Seq<ModelVertex>,
                    PreviewError,
                >(vertices@),
                Err(error) => parse_preview_spec(*node, self.model()) == Err::<
                    Seq<ModelVertex>,
                    PreviewError,
                >(error),
            },
    {
        let numbers = match child_f64_array(node, "Vertices") {
            Some(numbers) => numbers,
            None => return Ok(Vec::new()),
        };
        let raw = match child_i32_array(node, "PolygonVertexIndex") {
            Some(raw) => raw,
            None => return Ok(Vec::new()),
        };
        if numbers.len() % 3 != 0 {
            return Err(PreviewError::RaggedVertices);
        }
        let positions = points_from(&round_all(&numbers), 3);
        if !crate::obj::check_finite(&positions) {
            return Err(PreviewError::NonFinitePosition);
        }
        let layer = fbx_uv_layer(node);
        let ghost source = PreviewSource {
            positions: positions@,
            raw: raw@,
            layer: uv_layer_view(layer),
        };
        let ghost model = self.model();
        let count: usize = positions.len();
        let mut vertices: Vec<ModelVertex> = Vec::new();
        let mut start: usize = 0;
        let mut next: usize = 0;
        while next < raw.len()
            invariant
                self.wf(),
                model == self.model(),
                count == positions@.len(),
                source == (PreviewSource {
                    positions: positions@,
                    raw: raw@,
                    layer: uv_layer_view(layer),
                }),
                child_f64_array_spec(*node, "Vertices"@) == Some(numbers@),
                child_i32_array_spec(*node, "PolygonVertexIndex"@) == Some(raw@),
                numbers@.len() % 3 == 0,
                positions@ == chunk_points(singles(numbers@), 3),
                all_finite(positions@),
                start <= next <= raw@.len(),
                next - start == open_corners(raw@.take(next as int)),
                first_index_error(raw@.take(next as int), count as nat) is None,
                forall|i: int| 0 <= i < next ==> accepted(#[trigger] raw@[i], count as nat),
                vertices@ == source.vertices(model, polygons(raw@.take(next as int))),
            decreases raw@.len() - next,
        {
            let ghost seen = raw@.take(next + 1);
            assert(seen.drop_last() =~= raw@.take(next as int));
            let index: i32 = raw[next];
            let (vertex, end) = match decode_polygon_index(index) {
                Some(decoded) => decoded,
                None => {
                    proof {
                        lemma_first_error_stays(raw@, next + 1, count as nat);
                    }
                    return Err(PreviewError::InvalidIndex);
                },
            };
            if vertex >= count {
                proof {
                    lemma_first_error_stays(raw@, next + 1, count as nat);
                }
                return Err(PreviewError::IndexOutOfRange);
            }
            if end {
                let ghost listed = polygons(raw@.take(next as int));
                self.push_preview_fan(
                    &positions,
                    &raw,
                    &layer,
                    start,
                    next + 1 - start,
                    &mut vertices,
                );
                assert(polygons(seen).drop_last() =~= listed);
                start = next + 1;
            }
            next += 1;
        }
        assert(raw@.take(next as int) =~= raw@);
        Ok(vertices)
    }
}

/// The first index that is refused stays the first one in a longer list.
proof fn lemma_first_error_stays(raw: Seq<i32>, n: int, count: nat)
    requires
        0 <= n <= raw.len(),
        first_index_error(raw.take(n), count) is Some,
    ensures
        first_index_error(raw, count) == first_index_error(raw.take(n), count),
    decreases raw.len(),
{
    if n == raw.len() {
        assert(raw.take(n) =~= raw);
    } else {
        assert(raw.drop_last().take(n) =~= raw.take(n));
        lemma_first_error_stays(raw.drop_last(), n, count);
    }
}

/// A place in a grid of small cells.
#[derive(Clone, Copy, Debug, PartialEq, Eq, Structural)]
pub struct Cell {
    pub x: i32,
    pub y: i32,
    pub z: i32,
}

/// The cell of a position, by the cell of each coordinate.
pub open spec fn cell_of(round: spec_fn(Scalar) -> i32, position: Vec3) -> Cell {
    Cell { x: round(position.x), y: round(position.y), z: round(position.z) }
}

impl ArithmeticModel {
    /// The cells of coordinates: the nearest hundred-thousandths.
    pub open spec fn cells(self) -> spec_fn(Scalar) -> i32 {
        |coordinate: Scalar|
            self.product(coordinate, Scalar { bits: CELLS_PER_UNIT_BITS }).nearest_spec()
    }
}

/// The cell of a position.
pub fn smooth_position_key<
    F: Fn(Operation, Scalar, Scalar) -> Scalar,
    N: Fn(Vec3) -> Option<Vec3>,
>(position: Vec3, math: &Arithmetic<F, N>) -> (cell: Cell)
    requires
        math.wf(),
    ensures
        cell == cell_of(math.model().cells(), position),
{
    let cells = Scalar { bits: CELLS_PER_UNIT_BITS };
    Cell {
        x: math.product(position.x, cells).nearest(),
        y: math.product(position.y, cells).nearest(),
        z: math.product(position.z, cells).nearest(),
    }
}

/// A cell as one number.
pub open spec fn packed(cell: Cell) -> int {
    (cell.x + 0x8000_0000) * 0x1_0000_0000_0000_0000 + (cell.y + 0x8000_0000) * 0x1_0000_0000 + (
    cell.z + 0x8000_0000)
}

/// A cell as one number.
fn pack(cell: Cell) -> (key: u128)
    ensures
        key == packed(cell),
{
    let x: u128 = (cell.x as i64 + 0x8000_0000) as u128;
    let y: u128 = (cell.y as i64 + 0x8000_0000) as u128;
    let z: u128 = (cell.z as i64 + 0x8000_0000) as u128;
    x * 0x1_0000_0000_0000_0000 + y * 0x1_0000_0000 + z
}

proof fn lemma_packed_injective(a: Cell, b: Cell)
    requires
        packed(a) == packed(b),
    ensures
        a == b,
{
    let k: int = 0x1_0000_0000;
    let x = a.x - b.x;
    let y = a.y - b.y;
    let z = a.z - b.z;
    assert(x * 0x1_0000_0000_0000_0000 + y * 0x1_0000_0000 + z == 0);
    assert(-k < y < k && -k < z < k);
    if x >= 1 {
        assert(x * 0x1_0000_0000_0000_0000 >= 0x1_0000_0000_0000_0000);
        assert(false);
    }
    if x <= -1 {
        assert(x * 0x1_0000_0000_0000_0000 <= -0x1_0000_0000_0000_0000);
        assert(false);
    }
    assert(y * 0x1_0000_0000 + z == 0);
    assert(y == 0 && z == 0);
}

/// The frames of the vertices in a cell, added up.
#[derive(Clone, Copy, Debug, PartialEq)]
pub struct FrameSum {
    pub normal: Vec3,
    pub tangent: Vec3,
    pub bitangent: Vec3,
}

/// The sum of no frames.
pub open spec fn no_frames() -> FrameSum {
    let zero = axis_vector(ZERO_BITS, ZERO_BITS, ZERO_BITS);
    FrameSum { normal: zero, tangent: zero, bitangent: zero }
}

/// A sum with one more frame.
pub open spec fn with_frame(model: ArithmeticModel, sum: FrameSum, vertex: ModelVertex) -> FrameSum {
    FrameSum {
        normal: model.plus(sum.normal, vertex.normal),
        tangent: model.plus(sum.tangent, vertex.tangent),
        bitangent: model.plus(sum.bitangent, vertex.bitangent),
    }
}

/// The frames of the vertices in a cell, added up in order.
pub open spec fn cell_sum(
    model: ArithmeticModel,
    round: spec_fn(Scalar) -> i32,
    vertices: Seq<ModelVertex>,
    cell: Cell,
) -> FrameSum
    decreases vertices.len(),
{
    if vertices.len() == 0 {
        no_frames()
    } else {
        let before = cell_sum(model, round, vertices.drop_last(), cell);
        if cell_of(round, vertices.last().position) == cell {
            with_frame(model, before, vertices.last())
        } else {
            before
        }
    }
}

/// Whether a number counts as negative: its sign bit is set, or it is none.
pub open spec fn counts_as_negative(value: Scalar) -> bool {
    value.is_nan_spec() || value.is_negative_spec()
}

/// A vertex with the frame of its cell: the mean normal, the mean tangent made
/// perpendicular to it, and the bitangent on the side of the mean bitangent.
pub open spec fn smoothed_vertex(
    model: ArithmeticModel,
    vertex: ModelVertex,
    sum: FrameSum,
) -> ModelVertex {
    let normal = value_or((model.normalize)(sum.normal), vertex.normal);
    let mean = value_or((model.normalize)(sum.tangent), vertex.tangent);
    let flat = model.minus(mean, model.times(normal, model.dot(mean, normal)));
    let tangent = value_or(
        (model.normalize)(flat),
        fallback_tangent_frame_spec(model, normal).0,
    );
    let side = model.cross(normal, tangent);
    let sign = if counts_as_negative(model.dot(side, sum.bitangent)) {
        Scalar { bits: MINUS_ONE_BITS }
    } else {
        Scalar { bits: ONE_BITS }
    };
    ModelVertex {
        position: vertex.position,
        normal,
        tangent,
        bitangent: model.times(side, sign),
    }
}

/// The vertices with the frames of their cells.
pub open spec fn smoothed(
    model: ArithmeticModel,
    round: spec_fn(Scalar) -> i32,
    vertices: Seq<ModelVertex>,
) -> Seq<ModelVertex> {
    vertices.map_values(
        |vertex: ModelVertex|
            smoothed_vertex(
                model,
                vertex,
                cell_sum(model, round, vertices, cell_of(round, vertex.position)),
            ),
    )
}

/// Vertices in the same cell come out with the same normal wherever the normals
/// in the cell have a mean direction.
pub proof fn lemma_cells_share_normals(
    model: ArithmeticModel,
    round: spec_fn(Scalar) -> i32,
    vertices: Seq<ModelVertex>,
    i: int,
    j: int,
)
    requires
        0 <= i < vertices.len(),
        0 <= j < vertices.len(),
        cell_of(round, vertices[i].position) == cell_of(round, vertices[j].position),
        (model.normalize)(
            cell_sum(model, round, vertices, cell_of(round, vertices[i].position)).normal,
        ) is Some,
    ensures
        smoothed(model, round, vertices)[i].normal == smoothed(model, round, vertices)[j].normal,
{
}

/// The sums that are kept for the cells seen so far.
pub open spec fn keeps_sums(
    model: ArithmeticModel,
    round: spec_fn(Scalar) -> i32,
    vertices: Seq<ModelVertex>,
    places: Map<u128, usize>,
    sums: Seq<FrameSum>,
) -> bool {
    &&& forall|cell: Cell|
        #[trigger] places.contains_key(packed(cell) as u128) ==> places[packed(cell) as u128]
            < sums.len() && sums[places[packed(cell) as u128] as int] == cell_sum(
            model,
            round,
            vertices,
            cell,
        )
    &&& forall|cell: Cell|
        !(#[trigger] places.contains_key(packed(cell) as u128)) ==> cell_sum(
            model,
            round,
            vertices,
            cell,
        ) == no_frames()
    &&& forall|a: u128, b: u128|
        #[trigger] places.contains_key(a) && #[trigger] places.contains_key(b) && places[a]
            == places[b] ==> a == b
    &&& forall|k: u128| #[trigger] places.contains_key(k) ==> places[k] < sums.len()
}

impl<F, N> Arithmetic<F, N> where
    F: Fn(Operation, Scalar, Scalar) -> Scalar,
    N: Fn(Vec3) -> Option<Vec3>,
 {
    /// A sum with one more frame.
    fn add_frame(&self, sum: FrameSum, vertex: ModelVertex) -> (result: FrameSum)
        requires
            self.wf(),
        ensures
            result == with_frame(self.model(), sum, vertex),
    {
        FrameSum {
            normal: self.plus(sum.normal, vertex.normal),
            tangent: self.plus(sum.tangent, vertex.tangent),
            bitangent: self.plus(sum.bitangent, vertex.bitangent),
        }
    }

    /// A vertex with the frame of its cell.
    fn smooth_vertex(&self, vertex: ModelVertex, sum: FrameSum) -> (result: ModelVertex)
        requires
            self.wf(),
        ensures
            result == smoothed_vertex(self.model(), vertex, sum),
    {
        let normal = match self.normalized(sum.normal) {
            Some(normal) => normal,
            None => vertex.normal,
        };
        let mean = match self.normalized(sum.tangent) {
            Some(tangent) => tangent,
            None => vertex.tangent,
        };
        let flat = self.minus(mean, self.times(normal, self.dot(mean, normal)));
        let tangent = match self.normalized(flat) {
            Some(tangent) => tangent,
            None => self.fallback_tangent_frame(normal).0,
        };
        let side = self.cross(normal, tangent);
        let handedness = self.dot(side, sum.bitangent);
        let sign = if handedness.is_nan() || handedness.bits >= crate::scalar::SIGN_BIT {
            Scalar { bits: MINUS_ONE_BITS }
        } else {
            Scalar { bits: ONE_BITS }
        };
        ModelVertex {
            position: vertex.position,
            normal,
            tangent,
            bitangent: self.times(side, sign),
        }
    }

    /// Gives the vertices in a cell a common frame.
    pub fn smooth_preview_frames(&self, vertices: &Vec<ModelVertex>) -> (result: Vec<ModelVertex>)
        requires
            self.wf(),
        ensures
            result@ == smoothed(self.model(), self.model().cells(), vertices@),
    {
        broadcast use vstd::std_specs::hash::group_hash_axioms;

        let ghost model = self.model();
        let ghost rounding = self.model().cells();
        let mut places: HashMap<u128, usize> = HashMap::new();
        let mut sums: Vec<FrameSum> = Vec::new();
        let mut next: usize = 0;
        assert(vertices@.take(0) =~= Seq::<ModelVertex>::empty());
        while next < vertices.len()
            invariant
                self.wf(),
                model == self.model(),
                rounding == self.model().cells(),
                next <= vertices@.len(),
                keeps_sums(model, rounding, vertices@.take(next as int), places@, sums@),
                forall|i: int|
                    0 <= i < next ==> places@.contains_key(
                        packed(cell_of(rounding, (#[trigger] vertices@[i]).position)) as u128,
                    ),
            decreases vertices@.len() - next,
        {
            broadcast use vstd::std_specs::hash::group_hash_axioms;

            let vertex = vertices[next];
            let cell = smooth_position_key(vertex.position, self);
            let key: u128 = pack(cell);
            let ghost before = vertices@.take(next as int);
            let ghost after = vertices@.take(next + 1);
            let ghost old_places = places@;
            let ghost old_sums = sums@;
            assert(after.drop_last() =~= before);
            let found = match places.get(&key) {
                Some(place) => Some(*place),
                None => None,
            };
            match found {
                Some(place) => {
                    let sum = self.add_frame(sums[place], vertex);
                    sums.set(place, sum);
                },
                None => {
                    let zero = Scalar::zero();
                    let nothing = Vec3 { x: zero, y: zero, z: zero };
                    let sum = self.add_frame(
                        FrameSum { normal: nothing, tangent: nothing, bitangent: nothing },
                        vertex,
                    );
                    let place: usize = sums.len();
                    sums.push(sum);
                    places.insert(key, place);
                },
            }
            proof {
                lemma_sums_kept(
                    model,
                    rounding,
                    before,
                    after,
                    old_places,
                    old_sums,
                    places@,
                    sums@,
                );
            }
            next += 1;
        }
        assert(vertices@.take(next as int) =~= vertices@);

        let mut result: Vec<ModelVertex> = Vec::new();
        let ghost all = smoothed(model, rounding, vertices@);
        let mut done: usize = 0;
        while done < vertices.len()
            invariant
                self.wf(),
                model == self.model(),
                rounding == self.model().cells(),
                keeps_sums(model, rounding, vertices@, places@, sums@),
                forall|i: int|
                    0 <= i < vertices@.len() ==> places@.contains_key(
                        packed(cell_of(rounding, (#[trigger] vertices@[i]).position)) as u128,
                    ),
                all == smoothed(model, rounding, vertices@),
                done <= vertices@.len(),
                result@ == all.take(done as int),
            decreases vertices@.len() - done,
        {
            broadcast use vstd::std_specs::hash::group_hash_axioms;

            let vertex = vertices[done];
            let cell = smooth_position_key(vertex.position, self);
            let key: u128 = pack(cell);
            assert(places@.contains_key(
                packed(cell_of(rounding, vertices@[done as int].position)) as u128,
            ));
            match places.get(&key) {
                Some(place) => {
                    let smooth = self.smooth_vertex(vertex, sums[*place]);
                    assert(smooth == all[done as int]);
                    result.push(smooth);
                },
                None => {
                    assert(false);
                    result.push(vertex);
                },
            }
            assert(result@ =~= all.take(done + 1));
            done += 1;
        }
        assert(result@ =~= all);
        result
    }
}

/// Adding one vertex to the sum of its cell keeps the sums of the others.
proof fn lemma_sums_kept(
    model: ArithmeticModel,
    round: spec_fn(Scalar) -> i32,
    before: Seq<ModelVertex>,
    after: Seq<ModelVertex>,
    old_places: Map<u128, usize>,
    old_sums: Seq<FrameSum>,
    places: Map<u128, usize>,
    sums: Seq<FrameSum>,
)
    requires
        after.len() > 0,
        after.drop_last() == before,
        keeps_sums(model, round, before, old_places, old_sums),
        ({
            let vertex = after.last();
            let key = packed(cell_of(round, vertex.position)) as u128;
            if old_places.contains_key(key) {
                &&& places == old_places
                &&& sums == old_sums.update(
                    old_places[key] as int,
                    with_frame(model, old_sums[old_places[key] as int], vertex),
                )
            } else {
                &&& places == old_places.insert(key, old_sums.len() as usize)
                &&& old_sums.len() <= usize::MAX
                &&& sums == old_sums.push(with_frame(model, no_frames(), vertex))
            }
        }),
    ensures
        keeps_sums(model, round, after, places, sums),
{
    let vertex = after.last();
    let own = cell_of(round, vertex.position);
    let key = packed(own) as u128;
    assert forall|cell: Cell|
        #[trigger] places.contains_key(packed(cell) as u128) implies places[packed(cell) as u128]
        < sums.len() && sums[places[packed(cell) as u128] as int] == cell_sum(
        model,
        round,
        after,
        cell,
    ) by {
        let k = packed(cell) as u128;
        lemma_packed_in_range(cell);
        lemma_packed_in_range(own);
        if k == key {
            lemma_packed_injective(cell, own);
            assert(old_places.contains_key(packed(own) as u128) || cell_sum(
                model,
                round,
                before,
                own,
            ) == no_frames());
        } else {
            assert(old_places.contains_key(packed(cell) as u128));
            assert(cell != own);
        }
    }
    assert forall|cell: Cell|
        !(#[trigger] places.contains_key(packed(cell) as u128)) implies cell_sum(
        model,
        round,
        after,
        cell,
    ) == no_frames() by {
        assert(cell != own);
        assert(!old_places.contains_key(packed(cell) as u128));
    }
}

proof fn lemma_packed_in_range(cell: Cell)
    ensures
        0 <= packed(cell) <= u128::MAX,
{
}

/// The vertices moved and scaled so that they lie around the origin, as large
/// as the preview shows them.
pub open spec fn fitted(model: ArithmeticModel, vertices: Seq<ModelVertex>) -> Seq<ModelVertex> {
    let points = vertices.map_values(|vertex: ModelVertex| vertex.position);
    let low = least(points);
    let high = greatest(points);
    let center = model.times(model.plus(low, high), Scalar { bits: HALF_BITS });
    let extent = model.minus(high, low);
    let size = extent.x.max_spec(extent.y).max_spec(extent.z).max_spec(
        Scalar { bits: MIN_EXTENT_BITS },
    );
    let scale = model.quotient(Scalar { bits: FIT_SIZE_BITS }, size);
    vertices.map_values(
        |vertex: ModelVertex|
            ModelVertex {
                position: model.times(model.minus(vertex.position, center), scale),
                ..vertex
            },
    )
}

impl<F, N> Arithmetic<F, N> where
    F: Fn(Operation, Scalar, Scalar) -> Scalar,
    N: Fn(Vec3) -> Option<Vec3>,
 {
    /// Moves and scales vertices so that they lie around the origin, as large
    /// as the preview shows them.
    pub fn fit_preview_vertices(&self, vertices: &Vec<ModelVertex>) -> (result: Vec<ModelVertex>)
        requires
            self.wf(),
        ensures
            result@ == fitted(self.model(), vertices@),
    {
        let ghost points = vertices@.map_values(|vertex: ModelVertex| vertex.position);
        let ghost model = self.model();
        if vertices.len() == 0 {
            let result: Vec<ModelVertex> = Vec::new();
            assert(result@ =~= fitted(model, vertices@));
            return result;
        }
        let mut low = vertices[0].position;
        let mut high = low;
        let mut next: usize = 1;
        assert(points.take(1).drop_last() =~= Seq::<Vec3>::empty());
        while next < vertices.len()
            invariant
                points == vertices@.map_values(|vertex: ModelVertex| vertex.position),
                1 <= next <= vertices@.len(),
                low == least(points.take(next as int)),
                high == greatest(points.take(next as int)),
            decreases vertices@.len() - next,
        {
            let position = vertices[next].position;
            assert(points.take(next + 1).drop_last() =~= points.take(next as int));
            low = low.min(position);
            high = high.max(position);
            next += 1;
        }
        assert(points.take(next as int) =~= points);
        let center = self.times(self.plus(low, high), Scalar { bits: HALF_BITS });
        let extent = self.minus(high, low);
        let size = extent.x.max(extent.y).max(extent.z).max(Scalar { bits: MIN_EXTENT_BITS });
        let scale = self.quotient(Scalar { bits: FIT_SIZE_BITS }, size);
        let ghost all = fitted(model, vertices@);
        let mut result: Vec<ModelVertex> = Vec::new();
        let mut done: usize = 0;
        while done < vertices.len()
            invariant
                self.wf(),
                model == self.model(),
                points == vertices@.map_values(|vertex: ModelVertex| vertex.position),
                low == least(points),
                high == greatest(points),
                center == model.times(model.plus(low, high), Scalar { bits: HALF_BITS }),
                extent == model.minus(high, low),
                size == extent.x.max_spec(extent.y).max_spec(extent.z).max_spec(
                    Scalar { bits: MIN_EXTENT_BITS },
                ),
                scale == model.quotient(Scalar { bits: FIT_SIZE_BITS }, size),
                all == fitted(model, vertices@),
                done <= vertices@.len(),
                result@ == all.take(done as int),
            decreases vertices@.len() - done,
        {
            let vertex = vertices[done];
            let position = self.times(self.minus(vertex.position, center), scale);
            result.push(
                ModelVertex {
                    position,
                    normal: vertex.normal,
                    tangent: vertex.tangent,
                    bitangent: vertex.bitangent,
                },
            );
            assert(result@ =~= all.take(done + 1));
            done += 1;
        }
        assert(result@ =~= all);
        result
    }

    /// The vertices and indices of the geometry below `roots`, smoothed and
    /// fitted, or why it cannot be shown.
    pub fn load_preview_fbx(&self, roots: &Vec<Node>) -> (mesh: Result<
        (Vec<ModelVertex>, Vec<u32>),
        PreviewError,
    >)
        requires
            self.wf(),
            match preview_vertices(all_geometry_nodes(roots@), self.model()) {
                Ok(vertices) => vertices.len() <= u32::MAX,
                Err(_) => true,
            },
        ensures
            match preview_vertices(all_geometry_nodes(roots@), self.model()) {
                Err(error) => mesh == Err::<(Vec<ModelVertex>, Vec<u32>), PreviewError>(error),
                Ok(vertices) => if vertices.len() == 0 {
                    mesh == Err::<(Vec<ModelVertex>, Vec<u32>), PreviewError>(
                        PreviewError::NoTriangles,
                    )
                } else {
                    mesh matches Ok(mesh) && mesh.0@ == fitted(
                        self.model(),
                        smoothed(self.model(), self.model().cells(), vertices),
                    ) && mesh.1@ == Seq::new(vertices.len(), |i: int| i as u32)
                },
            },
    {
        let ghost all = all_geometry_nodes(roots@);
        let ghost model = self.model();
        let mut nodes: Vec<&Node> = Vec::new();
        let mut root: usize = 0;
        assert(pointees(nodes@) =~= Seq::<Node>::empty());
        while root < roots.len()
            invariant
                root <= roots@.len(),
                pointees(nodes@) == all_geometry_nodes(roots@.take(root as int)),
            decreases roots@.len() - root,
        {
            assert(roots@.take(root + 1).drop_last() =~= roots@.take(root as int));
            crate::fbx::collect_geometry_nodes(&roots[root], &mut nodes);
            root += 1;
        }
        assert(roots@.take(root as int) =~= roots@);

        let mut vertices: Vec<ModelVertex> = Vec::new();
        let mut next: usize = 0;
        while next < nodes.len()
            invariant
                self.wf(),
                model == self.model(),
                all == all_geometry_nodes(roots@),
                pointees(nodes@) == all,
                next <= nodes@.len(),
                preview_vertices(all.take(next as int), model) == Ok::<
                    Seq<ModelVertex>,
                    PreviewError,
                >(vertices@),
            decreases nodes@.len() - next,
        {
            let node = nodes[next];
            assert(*node == pointees(nodes@)[next as int]);
            assert(all.take(next + 1).drop_last() =~= all.take(next as int));
            match self.parse_preview_fbx_geometry(node) {
                Ok(own) => {
                    crate::geometry::extend_vec(&mut vertices, &own);
                },
                Err(error) => {
                    proof {
                        lemma_preview_error_stays(all, next + 1, model);
                    }
                    return Err(error);
                },
            }
            next += 1;
        }
        assert(all.take(next as int) =~= all);
        if vertices.len() == 0 {
            return Err(PreviewError::NoTriangles);
        }
        let count: usize = vertices.len();
        let smooth = self.smooth_preview_frames(&vertices);
        let fitting = self.fit_preview_vertices(&smooth);
        let mut indices: Vec<u32> = Vec::new();
        let mut index: usize = 0;
        while index < count
            invariant
                count <= u32::MAX,
                index <= count,
                indices@ == Seq::new(index as nat, |i: int| i as u32),
            decreases count - index,
        {
            indices.push(index as u32);
            assert(indices@ =~= Seq::new((index + 1) as nat, |i: int| i as u32));
            index += 1;
        }
        Ok((fitting, indices))
    }
}

/// The vertices of some geometry nodes, or why the first that cannot be shown
/// cannot.
pub open spec fn preview_vertices(nodes: Seq<Node>, model: ArithmeticModel) -> Result<
    Seq<ModelVertex>,
    PreviewError,
>
    decreases nodes.len(),
{
    if nodes.len() == 0 {
        Ok(Seq::empty())
    } else {
        match preview_vertices(nodes.drop_last(), model) {
            Err(error) => Err(error),
            Ok(before) => match parse_preview_spec(nodes.last(), model) {
                Err(error) => Err(error),
                Ok(own) => Ok(before + own),
            },
        }
    }
}

proof fn lemma_preview_error_stays(nodes: Seq<Node>, n: int, model: ArithmeticModel)
    requires
        0 <= n <= nodes.len(),
        preview_vertices(nodes.take(n), model) is Err,
    ensures
        preview_vertices(nodes, model) == preview_vertices(nodes.take(n), model),
    decreases nodes.len(),
{
    if n == nodes.len() {
        assert(nodes.take(n) =~= nodes);
    } else {
        assert(nodes.drop_last().take(n) =~= nodes.take(n));
        lemma_preview_error_stays(nodes.drop_last(), n, model);
    }
}

/// The indices of the two triangles of face `(i, j)` of a torus: its corners
/// are the vertices of rings `i` and `i + 1` at `j` and `j + 1`, both counted
/// around.
pub open spec fn torus_face(major: int, minor: int, i: int, j: int) -> Seq<u32> {
    let a = (i * minor + j) as u32;
    let b = ((i + 1) % major * minor + j) as u32;
    let c = ((i + 1) % major * minor + (j + 1) % minor) as u32;
    let d = (i * minor + (j + 1) % minor) as u32;
    seq![a, b, c, a, c, d]
}

/// The indices of the first `n` faces of a torus, ring by ring.
pub open spec fn torus_indices_spec(major: int, minor: int, n: int) -> Seq<u32>
    decreases n,
{
    if n <= 0 {
        Seq::empty()
    } else {
        torus_indices_spec(major, minor, n - 1) + torus_face(
            major,
            minor,
            (n - 1) / minor,
            (n - 1) % minor,
        )
    }
}

/// The indices of the triangles of a torus.
pub fn torus_indices(major: u32, minor: u32) -> (indices: Vec<u32>)
    requires
        major * minor * 6 <= u32::MAX,
    ensures
        indices@ == torus_indices_spec(major as int, minor as int, major * minor),
{
    let mut indices: Vec<u32> = Vec::new();
    let mut i: u32 = 0;
    assert(major * minor >= 0) by (nonlinear_arith);
    while i < major
        invariant
            major * minor * 6 <= u32::MAX,
            i <= major,
            indices@ == torus_indices_spec(major as int, minor as int, i * minor),
        decreases major - i,
    {
        let ni: u32 = if i + 1 == major {
            0
        } else {
            i + 1
        };
        proof {
            if i + 1 == major {
                vstd::arithmetic::div_mod::lemma_mod_self_0(major as int);
            } else {
                vstd::arithmetic::div_mod::lemma_small_mod((i + 1) as nat, major as nat);
            }
            assert(i * minor + minor <= major * minor && ni * minor + minor <= major * minor && 0
                <= i * minor && 0 <= ni * minor) by (nonlinear_arith)
                requires
                    i < major,
                    ni < major,
            ;
            assert((i + 1) * minor == i * minor + minor) by (nonlinear_arith);
        }
        let mut j: u32 = 0;
        while j < minor
            invariant
                major * minor * 6 <= u32::MAX,
                i < major,
                ni == (i + 1) % major as int,
                i * minor + minor <= major * minor,
                ni * minor + minor <= major * minor,
                0 <= i * minor,
                0 <= ni * minor,
                j <= minor,
                indices@ == torus_indices_spec(major as int, minor as int, i * minor + j),
            decreases minor - j,
        {
            let nj: u32 = if j + 1 == minor {
                0
            } else {
                j + 1
            };
            proof {
                if j + 1 == minor {
                    vstd::arithmetic::div_mod::lemma_mod_self_0(minor as int);
                } else {
                    vstd::arithmetic::div_mod::lemma_small_mod((j + 1) as nat, minor as nat);
                }
                vstd::arithmetic::div_mod::lemma_fundamental_div_mod_converse(
                    i * minor + j,
                    minor as int,
                    i as int,
                    j as int,
                );
            }
            let a: u32 = i * minor + j;
            let b: u32 = ni * minor + j;
            let c: u32 = ni * minor + nj;
            let d: u32 = i * minor + nj;
            let ghost before = indices@;
            indices.push(a);
            indices.push(b);
            indices.push(c);
            indices.push(a);
            indices.push(c);
            indices.push(d);
            assert(indices@ =~= before + torus_face(
                major as int,
                minor as int,
                i as int,
                j as int,
            ));
            j += 1;
        }
        i += 1;
    }
    indices
}

/// A torus: how many rings it has, how many vertices a ring has, and the radii of
/// the whole and of a ring.
#[derive(Clone, Copy, Debug, PartialEq)]
pub struct Torus {
    pub major: u32,
    pub minor: u32,
    pub major_radius: Scalar,
    pub minor_radius: Scalar,
}

impl LatlongModel {
    /// The angle at step `i` of `n` steps around.
    pub open spec fn angle(self, i: u32, n: u32) -> Scalar {
        self.operations.product(
            self.operations.quotient(
                Scalar::of_count_spec(i as nat),
                Scalar::of_count_spec(n as nat),
            ),
            Scalar { bits: TWO_PI_BITS },
        )
    }

    /// The vector scaled to unit length, where that is possible.
    pub open spec fn unit(self, v: Vec3) -> Vec3 {
        value_or((self.operations.normalize)(v), v)
    }

    /// Vertex `j` of ring `i` of a torus around the vertical axis.
    pub open spec fn torus_vertex(self, torus: Torus, i: u32, j: u32) -> ModelVertex {
        let math = self.operations;
        let u = self.angle(i, torus.major);
        let v = self.angle(j, torus.minor);
        let su = (self.sine)(u);
        let cu = (self.cosine)(u);
        let sv = (self.sine)(v);
        let cv = (self.cosine)(v);
        let ring = math.sum(torus.major_radius, math.product(torus.minor_radius, cv));
        let normal = self.unit(Vec3 { x: math.product(cv, su), y: sv, z: math.product(cv, cu) });
        let tangent = self.unit(Vec3 { x: cu, y: Scalar { bits: ZERO_BITS }, z: su.neg_spec() });
        ModelVertex {
            position: Vec3 {
                x: math.product(ring, su),
                y: math.product(torus.minor_radius, sv),
                z: math.product(ring, cu),
            },
            normal,
            tangent,
            bitangent: math.cross(normal, tangent),
        }
    }
}

impl<F, N, S, C> LatlongMath<F, N, S, C> where
    F: Fn(Operation, Scalar, Scalar) -> Scalar,
    N: Fn(Vec3) -> Option<Vec3>,
    S: Fn(Scalar) -> Scalar,
    C: Fn(Scalar) -> Scalar,
 {
    /// The sine and the cosine of the angle at step `i` of `n` steps around.
    fn turn(&self, i: u32, n: u32) -> (turn: (Scalar, Scalar))
        requires
            self.wf(),
        ensures
            turn.0 == (self.model().sine)(self.model().angle(i, n)),
            turn.1 == (self.model().cosine)(self.model().angle(i, n)),
    {
        let angle = self.operations.product(
            self.operations.quotient(Scalar::of_count(i as u64), Scalar::of_count(n as u64)),
            Scalar { bits: TWO_PI_BITS },
        );
        let sine = (self.sine)(angle);
        assert(sine == image1(self.sine, angle));
        let cosine = (self.cosine)(angle);
        assert(cosine == image1(self.cosine, angle));
        (sine, cosine)
    }

    /// The vector scaled to unit length, where that is possible.
    fn unit(&self, v: Vec3) -> (unit: Vec3)
        requires
            self.wf(),
        ensures
            unit == self.model().unit(v),
    {
        match self.operations.normalized(v) {
            Some(unit) => unit,
            None => v,
        }
    }

    /// Vertex `j` of ring `i` of a torus around the vertical axis.
    fn torus_vertex(&self, torus: Torus, i: u32, j: u32) -> (vertex: ModelVertex)
        requires
            self.wf(),
        ensures
            vertex == self.model().torus_vertex(torus, i, j),
    {
        let math = &self.operations;
        let (su, cu) = self.turn(i, torus.major);
        let (sv, cv) = self.turn(j, torus.minor);
        let ring = math.sum(torus.major_radius, math.product(torus.minor_radius, cv));
        let normal = self.unit(Vec3 { x: math.product(cv, su), y: sv, z: math.product(cv, cu) });
        let tangent = self.unit(Vec3 { x: cu, y: Scalar::zero(), z: su.neg() });
        ModelVertex {
            position: Vec3 {
                x: math.product(ring, su),
                y: math.product(torus.minor_radius, sv),
                z: math.product(ring, cu),
            },
            normal,
            tangent,
            bitangent: math.cross(normal, tangent),
        }
    }
}

/// The vertices of a torus, ring by ring.
pub open spec fn torus_vertices(model: LatlongModel, torus: Torus, n: nat) -> Seq<ModelVertex> {
    Seq::new(
        n,
        |k: int|
            model.torus_vertex(torus, (k / torus.minor as int) as u32, (k % torus.minor as int)
                as u32),
    )
}

/// The vertices and indices of a torus of `major` rings with `minor` vertices
/// each.
pub fn build_torus<
    F: Fn(Operation, Scalar, Scalar) -> Scalar,
    N: Fn(Vec3) -> Option<Vec3>,
    S: Fn(Scalar) -> Scalar,
    C: Fn(Scalar) -> Scalar,
>(
    major: u32,
    minor: u32,
    major_radius: Scalar,
    minor_radius: Scalar,
    math: &LatlongMath<F, N, S, C>,
) -> (mesh: (Vec<ModelVertex>, Vec<u32>))
    requires
        major * minor * 6 <= u32::MAX,
        math.wf(),
    ensures
        mesh.0@ == torus_vertices(
            math.model(),
            (Torus { major, minor, major_radius, minor_radius }),
            (major * minor) as nat,
        ),
        mesh.1@ == torus_indices_spec(major as int, minor as int, major * minor),
{
    let ghost model = math.model();
    let torus = Torus { major, minor, major_radius, minor_radius };
    let mut vertices: Vec<ModelVertex> = Vec::new();
    let mut i: u32 = 0;
    assert(vertices@ =~= torus_vertices(model, torus, 0));
    while i < major
        invariant
            math.wf(),
            model == math.model(),
            minor == torus.minor,
            i <= major,
            vertices@ == torus_vertices(model, torus, (i * minor) as nat),
        decreases major - i,
    {
        assert((i + 1) * minor == i * minor + minor && 0 <= i * minor) by (nonlinear_arith);
        let mut j: u32 = 0;
        while j < minor
            invariant
                math.wf(),
                model == math.model(),
                minor == torus.minor,
                0 <= i * minor,
                j <= minor,
                vertices@ == torus_vertices(model, torus, (i * minor + j) as nat),
            decreases minor - j,
        {
            let point = math.torus_vertex(torus, i, j);
            proof {
                vstd::arithmetic::div_mod::lemma_fundamental_div_mod_converse(
                    i * minor + j,
                    minor as int,
                    i as int,
                    j as int,
                );
            }
            vertices.push(point);
            assert(vertices@ =~= torus_vertices(model, torus, (i * minor + j + 1) as nat));
            j += 1;
        }
        i += 1;
    }
    (vertices, torus_indices(major, minor))
}

/// The triangles of a torus are between its vertices.
pub proof fn lemma_torus_is_closed(major: int, minor: int, i: int, j: int, k: int)
    requires
        0 <= i < major,
        0 <= j < minor,
        0 <= k < 6,
        major * minor <= u32::MAX,
    ensures
        torus_face(major, minor, i, j)[k] < major * minor,
{
    let ni = (i + 1) % major;
    let nj = (j + 1) % minor;
    vstd::arithmetic::div_mod::lemma_mod_bound(i + 1, major);
    vstd::arithmetic::div_mod::lemma_mod_bound(j + 1, minor);
    assert(i * minor + minor <= major * minor && ni * minor + minor <= major * minor && 0 <= i
        * minor && 0 <= ni * minor) by (nonlinear_arith)
        requires
            0 <= i < major,
            0 <= ni < major,
            0 < minor,
    ;
}

/// Where a corner has its texture position: in the slot of its vertex where positions are
/// given by vertex, else in its own; and with a reference through indices at the index in
/// that slot.  Where there is none it is the origin.
pub proof fn lemma_corners_have_their_texture_positions(
    layer: UvLayer,
    corner: usize,
    vertex: usize,
)
    ensures
        ({
            let by_vertex = layer.mapping == "ByVertice"@ || layer.mapping == "ByVertex"@;
            let indexed = layer.reference == "IndexToDirect"@ || layer.reference == "Index"@;
            let slot = if by_vertex {
                vertex
            } else {
                corner
            };
            let found = layer.uv_at_spec(corner, vertex);
            &&& !indexed && slot < layer.uvs.len() ==> found == layer.uvs[slot as int]
            &&& !indexed && slot >= layer.uvs.len() ==> found.u.bits == 0 && found.v.bits == 0
            &&& indexed && slot < layer.indices.len() ==> {
                let at = layer.indices[slot as int];
                &&& 0 <= at < layer.uvs.len() ==> found == layer.uvs[at as int]
                &&& at >= layer.uvs.len() ==> found.u.bits == 0 && found.v.bits == 0
                &&& at < 0 && layer.uvs.len() > 0 ==> found == layer.uvs[0]
            }
            &&& indexed && layer.indices.len() <= slot <= 0x7fff_ffff && slot < layer.uvs.len()
                ==> found == layer.uvs[slot as int]
        }),
{
}

/// What a layer of texture positions is read from: the first child with the layer's name,
/// two numbers to a position, and the mapping, the reference and the indices under their
/// names.
pub proof fn lemma_uv_layers_are_read_from_their_children(node: Node)
    ensures
        find_named(node.children@, "LayerElementUV"@) is None ==> uv_layer_spec(node) is None,
        find_named(node.children@, "LayerElementUV"@) matches Some(layer) ==> {
            let numbers = child_f64_array_spec(layer, "UV"@);
            &&& numbers is None ==> uv_layer_spec(node) is None
            &&& numbers matches Some(numbers) ==> {
                let read = uv_layer_spec(node).unwrap();
                let mapping = child_string_spec(layer, "MappingInformationType"@);
                let reference = child_string_spec(layer, "ReferenceInformationType"@);
                let indices = child_i32_array_spec(layer, "UVIndex"@);
                &&& uv_layer_spec(node) is Some
                &&& read.uvs.len() == numbers.len() / 2
                &&& forall|i: int|
                    0 <= i < read.uvs.len() ==> {
                        let uv = #[trigger] read.uvs[i];
                        &&& uv.u == numbers[2 * i].to_single_spec()
                        &&& uv.v == numbers[2 * i + 1].to_single_spec()
                    }
                &&& mapping is Some ==> read.mapping == mapping.unwrap()
                &&& mapping is None ==> read.mapping == "ByPolygonVertex"@
                &&& reference is Some ==> read.reference == reference.unwrap()
                &&& reference is None ==> read.reference == "Direct"@
                &&& indices is Some ==> read.indices == indices.unwrap()
                &&& indices is None ==> read.indices.len() == 0
            }
        },
{
}

/// The frame along the texture of a triangle, written out: its tangent is the way that the
/// surface takes while the first texture coordinate grows and the second stays, its
/// bitangent the other way around.  A texture that spans no area has no frame.
pub proof fn lemma_frames_follow_the_texture(
    model: ArithmeticModel,
    e1: Vec3,
    e2: Vec3,
    a: Uv,
    b: Uv,
    c: Uv,
)
    ensures
        ({
            let minus = |x: Scalar, y: Scalar| (model.compute)(Operation::Difference, x, y);
            let times = |x: Scalar, y: Scalar| (model.compute)(Operation::Product, x, y);
            let (u1, v1) = (minus(b.u, a.u), minus(b.v, a.v));
            let (u2, v2) = (minus(c.u, a.u), minus(c.v, a.v));
            let area = minus(times(u1, v2), times(v1, u2));
            let share = (model.compute)(Operation::Quotient, Scalar { bits: 0x3f80_0000 }, area);
            let mixed = |p: Scalar, s: Scalar, q: Scalar, t: Scalar|
                times(minus(times(p, s), times(q, t)), share);
            let along = (model.normalize)(
                Vec3 {
                    x: mixed(e1.x, v2, e2.x, v1),
                    y: mixed(e1.y, v2, e2.y, v1),
                    z: mixed(e1.z, v2, e2.z, v1),
                },
            );
            let aside = (model.normalize)(
                Vec3 {
                    x: mixed(e2.x, u1, e1.x, u2),
                    y: mixed(e2.y, u1, e1.y, u2),
                    z: mixed(e2.z, u1, e1.z, u2),
                },
            );
            let frame = tangent_frame_from_uvs_spec(model, e1, e2, a, b, c);
            &&& !area.is_nan_spec() && area.abs_spec().rank() < 0x322b_cc77 ==> frame is None
            &&& !area.is_nan_spec() && area.abs_spec().rank() >= 0x322b_cc77 ==> (frame is Some
                <==> along is Some && aside is Some)
            &&& frame is Some ==> frame.unwrap().0 == along.unwrap() && frame.unwrap().1
                == aside.unwrap()
        }),
{
}

/// The frame of a normal alone, written out: its tangent is across the up direction and the
/// normal, or across the x axis and a steep normal, and its bitangent across the normal and
/// the tangent, in these orders.
pub proof fn lemma_frames_are_across_the_normal(model: ArithmeticModel, normal: Vec3)
    requires
        !normal.y.is_nan_spec(),
    ensures
        ({
            let minus = |x: Scalar, y: Scalar| (model.compute)(Operation::Difference, x, y);
            let times = |x: Scalar, y: Scalar| (model.compute)(Operation::Product, x, y);
            let across = |p: Vec3, q: Vec3|
                Vec3 {
                    x: minus(times(p.y, q.z), times(p.z, q.y)),
                    y: minus(times(p.z, q.x), times(p.x, q.z)),
                    z: minus(times(p.x, q.y), times(p.y, q.x)),
                };
            let zero = Scalar { bits: 0 };
            let one = Scalar { bits: 0x3f80_0000 };
            let x_axis = Vec3 { x: one, y: zero, z: zero };
            let y_axis = Vec3 { x: zero, y: one, z: zero };
            let z_axis = Vec3 { x: zero, y: zero, z: one };
            let steep = normal.y.abs_spec().rank() >= 0x3f66_6666;
            let first = (model.normalize)(
                across(
                    if steep {
                        x_axis
                    } else {
                        y_axis
                    },
                    normal,
                ),
            );
            let frame = fallback_tangent_frame_spec(model, normal);
            let second = (model.normalize)(across(normal, frame.0));
            &&& first is Some ==> frame.0 == first.unwrap()
            &&& first is None ==> frame.0 == x_axis
            &&& second is Some ==> frame.1 == second.unwrap()
            &&& second is None ==> frame.1 == z_axis
        }),
{
}

/// The vertices of a triangle: its corners in order, with the unit vector along the product
/// of its edges as the normal of each, and with one frame; none where the product has no
/// direction.
pub proof fn lemma_triangles_have_three_vertices(
    model: ArithmeticModel,
    triangle: PreviewTriangle,
)
    ensures
        ({
            let vertices = triangle_vertices(model, triangle);
            let normal = (model.normalize)(
                edge_product(model, triangle.a, triangle.b, triangle.c),
            );
            &&& normal is None ==> vertices.len() == 0
            &&& normal matches Some(normal) ==> {
                let along = match triangle.uvs {
                    Some(uvs) => tangent_frame_from_uvs_spec(
                        model,
                        model.minus(triangle.b, triangle.a),
                        model.minus(triangle.c, triangle.a),
                        uvs.0,
                        uvs.1,
                        uvs.2,
                    ),
                    None => None,
                };
                let frame = match along {
                    Some(along) => along,
                    None => fallback_tangent_frame_spec(model, normal),
                };
                &&& vertices.len() == 3
                &&& vertices[0].position == triangle.a
                &&& vertices[1].position == triangle.b
                &&& vertices[2].position == triangle.c
                &&& forall|k: int|
                    0 <= k < 3 ==> {
                        let vertex = #[trigger] vertices[k];
                        &&& vertex.normal == normal
                        &&& vertex.tangent == frame.0
                        &&& vertex.bitangent == frame.1
                    }
            }
        }),
{
}

/// Which triangles are shown: for each polygon those of its fan, one after the other, each
/// between the points that the raw indices at three positions refer to, and with the texture
/// positions of the corners at the same three positions.
pub proof fn lemma_fans_are_shown_in_order(
    source: PreviewSource,
    model: ArithmeticModel,
    listed: Seq<Polygon>,
    polygon: Polygon,
    t: int,
    va: usize,
    vb: usize,
    vc: usize,
)
    requires
        0 <= t,
        polygon.start + t + 2 < source.raw.len() <= usize::MAX,
        refers_to(source.raw[polygon.start as int], va),
        refers_to(source.raw[polygon.start + t + 1], vb),
        refers_to(source.raw[polygon.start + t + 2], vc),
    ensures
        source.vertices(model, Seq::empty()).len() == 0,
        polygon.corners >= 2 ==> source.vertices(model, listed.push(polygon)) == source.vertices(
            model,
            listed,
        ) + source.fan_vertices(model, polygon, polygon.corners - 2),
        source.fan_vertices(model, polygon, 0).len() == 0,
        source.fan_vertices(model, polygon, t + 1) == source.fan_vertices(model, polygon, t)
            + triangle_vertices(model, source.triangle(polygon, t)),
        source.triangle(polygon, t).a == source.positions[va as int],
        source.triangle(polygon, t).b == source.positions[vb as int],
        source.triangle(polygon, t).c == source.positions[vc as int],
        source.layer is None ==> source.triangle(polygon, t).uvs is None,
        source.layer matches Some(layer) ==> source.triangle(polygon, t).uvs == Some(
            (
                layer.uv_at_spec(polygon.start as usize, va),
                layer.uv_at_spec((polygon.start + t + 1) as usize, vb),
                layer.uv_at_spec((polygon.start + t + 2) as usize, vc),
            ),
        ),
{
    assert(listed.push(polygon).drop_last() =~= listed);
}

/// Which geometry is refused, and for what: the first raw index that refers to no vertex
/// says what is wrong with it.
pub proof fn lemma_first_bad_index_is_reported(raw: Seq<i32>, count: nat) -> (at: int)
    ensures
        match first_index_error(raw, count) {
            None => forall|i: int|
                0 <= i < raw.len() ==> -(count as int) <= #[trigger] raw[i] < count && raw[i]
                    != -0x8000_0000,
            Some(error) => {
                &&& 0 <= at < raw.len()
                &&& forall|i: int|
                    0 <= i < at ==> -(count as int) <= #[trigger] raw[i] < count && raw[i]
                        != -0x8000_0000
                &&& raw[at] == -0x8000_0000 ==> error == PreviewError::InvalidIndex
                &&& raw[at] != -0x8000_0000 ==> error == PreviewError::IndexOutOfRange && !(-(
                count as int) <= raw[at] < count)
            },
        },
    decreases raw.len(),
{
    if raw.len() == 0 {
        0
    } else {
        let front = raw.drop_last();
        let at = lemma_first_bad_index_is_reported(front, count);
        assert forall|i: int| 0 <= i < front.len() implies #[trigger] raw[i] == front[i] by {}
        if first_index_error(front, count) is Some {
            at
        } else {
            raw.len() - 1
        }
    }
}

/// What a geometry node is refused for, first of all for numbers that do not make whole
/// points, then for points that are not finite, then for indices.
pub proof fn lemma_geometry_is_refused_for_a_reason(node: Node, model: ArithmeticModel)
    ensures
        ({
            let numbers = child_f64_array_spec(node, "Vertices"@);
            let raw = child_i32_array_spec(node, "PolygonVertexIndex"@);
            let parsed = parse_preview_spec(node, model);
            &&& numbers is None || raw is None ==> parsed == Ok::<Seq<ModelVertex>, PreviewError>(
                Seq::empty(),
            )
            &&& numbers is Some && raw is Some ==> {
                let points = chunk_points(singles(numbers.unwrap()), 3);
                let finite = forall|i: int|
                    0 <= i < points.len() ==> (#[trigger] points[i]).is_finite_spec();
                let wrong = first_index_error(raw.unwrap(), points.len());
                if numbers.unwrap().len() % 3 != 0 {
                    parsed == Err::<Seq<ModelVertex>, PreviewError>(PreviewError::RaggedVertices)
                } else if !finite {
                    parsed == Err::<Seq<ModelVertex>, PreviewError>(
                        PreviewError::NonFinitePosition,
                    )
                } else if wrong is Some {
                    parsed == Err::<Seq<ModelVertex>, PreviewError>(wrong.unwrap())
                } else {
                    parsed == Ok::<Seq<ModelVertex>, PreviewError>(
                        PreviewSource {
                            positions: points,
                            raw: raw.unwrap(),
                            layer: uv_layer_spec(node),
                        }.vertices(model, polygons(raw.unwrap())),
                    )
                }
            }
        }),
{
}

/// Nodes are shown one after the other, and the first that is refused refuses all.
pub proof fn lemma_nodes_are_shown_in_order(nodes: Seq<Node>, node: Node, model: ArithmeticModel)
    ensures
        preview_vertices(Seq::empty(), model) == Ok::<Seq<ModelVertex>, PreviewError>(
            Seq::empty(),
        ),
        match (preview_vertices(nodes, model), parse_preview_spec(node, model)) {
            (Ok(before), Ok(own)) => preview_vertices(nodes.push(node), model) == Ok::<
                Seq<ModelVertex>,
                PreviewError,
            >(before + own),
            (Err(error), _) => preview_vertices(nodes.push(node), model) == Err::<
                Seq<ModelVertex>,
                PreviewError,
            >(error),
            (Ok(_), Err(error)) => preview_vertices(nodes.push(node), model) == Err::<
                Seq<ModelVertex>,
                PreviewError,
            >(error),
        },
{
    assert(nodes.push(node).drop_last() =~= nodes);
}

/// Which vertices are smoothed together: those whose coordinates fall on the same
/// hundred-thousandths.  Their frames are added in order, channel by channel.
pub proof fn lemma_near_vertices_share_a_sum(
    model: ArithmeticModel,
    vertices: Seq<ModelVertex>,
    vertex: ModelVertex,
    cell: Cell,
)
    ensures
        ({
            let near = |c: Scalar|
                (model.compute)(
                    Operation::Product,
                    c,
                    Scalar { bits: 0x47c3_5000 },
                ).nearest_spec();
            let plus = |a: Vec3, b: Vec3|
                Vec3 {
                    x: (model.compute)(Operation::Sum, a.x, b.x),
                    y: (model.compute)(Operation::Sum, a.y, b.y),
                    z: (model.compute)(Operation::Sum, a.z, b.z),
                };
            let before = cell_sum(model, model.cells(), vertices, cell);
            let after = cell_sum(model, model.cells(), vertices.push(vertex), cell);
            let inside = near(vertex.position.x) == cell.x && near(vertex.position.y) == cell.y
                && near(vertex.position.z) == cell.z;
            &&& inside ==> {
                &&& after.normal == plus(before.normal, vertex.normal)
                &&& after.tangent == plus(before.tangent, vertex.tangent)
                &&& after.bitangent == plus(before.bitangent, vertex.bitangent)
            }
            &&& !inside ==> after == before
            &&& inside <==> cell_of(model.cells(), vertex.position) == cell
        }),
        ({
            let none = cell_sum(model, model.cells(), Seq::empty(), cell);
            &&& none.normal.x.bits == 0 && none.normal.y.bits == 0 && none.normal.z.bits == 0
            &&& none.tangent.x.bits == 0 && none.tangent.y.bits == 0 && none.tangent.z.bits == 0
            &&& none.bitangent.x.bits == 0 && none.bitangent.y.bits == 0 && none.bitangent.z.bits
                == 0
        }),
{
    assert(vertices.push(vertex).drop_last() =~= vertices);
}

/// What smoothing makes of a vertex.  It stays where it is; its normal is the direction of
/// the sum; its tangent that of the sum, less the part along the normal; its bitangent is
/// across the normal and the tangent, on the side of the sum.
pub proof fn lemma_smoothing_keeps_positions(
    model: ArithmeticModel,
    round: spec_fn(Scalar) -> i32,
    vertices: Seq<ModelVertex>,
    i: int,
)
    requires
        0 <= i < vertices.len(),
    ensures
        ({
            let minus = |x: Scalar, y: Scalar| (model.compute)(Operation::Difference, x, y);
            let plus = |x: Scalar, y: Scalar| (model.compute)(Operation::Sum, x, y);
            let times = |x: Scalar, y: Scalar| (model.compute)(Operation::Product, x, y);
            let along = |p: Vec3, q: Vec3|
                plus(plus(times(p.x, q.x), times(p.y, q.y)), times(p.z, q.z));
            let vertex = vertices[i];
            let found = smoothed(model, round, vertices)[i];
            let sum = cell_sum(model, round, vertices, cell_of(round, vertex.position));
            let n = found.normal;
            let t = found.tangent;
            let mean = match (model.normalize)(sum.tangent) {
                Some(mean) => mean,
                None => vertex.tangent,
            };
            let part = along(mean, n);
            let flat = (model.normalize)(
                Vec3 {
                    x: minus(mean.x, times(n.x, part)),
                    y: minus(mean.y, times(n.y, part)),
                    z: minus(mean.z, times(n.z, part)),
                },
            );
            let side = Vec3 {
                x: minus(times(n.y, t.z), times(n.z, t.y)),
                y: minus(times(n.z, t.x), times(n.x, t.z)),
                z: minus(times(n.x, t.y), times(n.y, t.x)),
            };
            let turn = along(side, sum.bitangent);
            let sign = if turn.is_nan_spec() || turn.bits >= 0x8000_0000 {
                Scalar { bits: 0xbf80_0000 }
            } else {
                Scalar { bits: 0x3f80_0000 }
            };
            &&& smoothed(model, round, vertices).len() == vertices.len()
            &&& found.position == vertex.position
            &&& (model.normalize)(sum.normal) is Some ==> Some(n) == (model.normalize)(sum.normal)
            &&& (model.normalize)(sum.normal) is None ==> n == vertex.normal
            &&& flat is Some ==> t == flat.unwrap()
            &&& flat is None ==> t == fallback_tangent_frame_spec(model, n).0
            &&& found.bitangent.x == times(side.x, sign)
            &&& found.bitangent.y == times(side.y, sign)
            &&& found.bitangent.z == times(side.z, sign)
        }),
{
}

/// How a model is fitted: each point less the middle of the bounds, times what takes the
/// longest side of the bounds to 1.8; all by one factor, and frames stay.
pub proof fn lemma_models_are_fitted_evenly(
    model: ArithmeticModel,
    vertices: Seq<ModelVertex>,
    i: int,
)
    requires
        0 <= i < vertices.len(),
    ensures
        ({
            let minus = |x: Scalar, y: Scalar| (model.compute)(Operation::Difference, x, y);
            let plus = |x: Scalar, y: Scalar| (model.compute)(Operation::Sum, x, y);
            let times = |x: Scalar, y: Scalar| (model.compute)(Operation::Product, x, y);
            let half = Scalar { bits: 0x3f00_0000 };
            let points = vertices.map_values(|vertex: ModelVertex| vertex.position);
            let (low, high) = (least(points), greatest(points));
            let (x, y, z) = (minus(high.x, low.x), minus(high.y, low.y), minus(high.z, low.z));
            let fitted = fitted(model, vertices);
            let numbers = !x.is_nan_spec() && !y.is_nan_spec() && !z.is_nan_spec();
            &&& fitted.len() == vertices.len()
            &&& fitted[i].normal == vertices[i].normal
            &&& fitted[i].tangent == vertices[i].tangent
            &&& fitted[i].bitangent == vertices[i].bitangent
            &&& numbers ==> exists|size: Scalar|
                {
                    let scale = (model.compute)(
                        Operation::Quotient,
                        Scalar { bits: 0x3fe6_6666 },
                        size,
                    );
                    let p = vertices[i].position;
                    &&& #[trigger] is_longest(size, x, y, z)
                    &&& fitted[i].position.x == times(
                        minus(p.x, times(plus(low.x, high.x), half)),
                        scale,
                    )
                    &&& fitted[i].position.y == times(
                        minus(p.y, times(plus(low.y, high.y), half)),
                        scale,
                    )
                    &&& fitted[i].position.z == times(
                        minus(p.z, times(plus(low.z, high.z), half)),
                        scale,
                    )
                }
        }),
{
    let points = vertices.map_values(|vertex: ModelVertex| vertex.position);
    let extent = model.minus(greatest(points), least(points));
    let size = extent.x.max_spec(extent.y).max_spec(extent.z).max_spec(
        Scalar { bits: 0x3586_37bd },
    );
    if !extent.x.is_nan_spec() && !extent.y.is_nan_spec() && !extent.z.is_nan_spec() {
        assert(is_longest(size, extent.x, extent.y, extent.z));
    }
}

/// Whether a size is the longest of three sides, but no less than a millionth.
pub open spec fn is_longest(size: Scalar, x: Scalar, y: Scalar, z: Scalar) -> bool {
    &&& size == x || size == y || size == z || size.bits == 0x3586_37bd
    &&& x.rank() <= size.rank() && y.rank() <= size.rank() && z.rank() <= size.rank()
    &&& 0x3586_37bd <= size.rank()
}

/// Where the vertices of a torus are: with the angles of the ring around the vertical axis
/// and of the vertex around the ring, each so many steps of a full turn.  Its tangent runs
/// along the ring's turn, and its bitangent is across the normal and the tangent.
pub proof fn lemma_torus_vertices_lie_on_rings(model: LatlongModel, torus: Torus, k: int, n: nat)
    requires
        0 <= k < n,
        torus.minor > 0,
        n <= torus.major * torus.minor,
    ensures
        ({
            let plus = |x: Scalar, y: Scalar| (model.operations.compute)(Operation::Sum, x, y);
            let minus = |x: Scalar, y: Scalar|
                (model.operations.compute)(Operation::Difference, x, y);
            let times = |x: Scalar, y: Scalar|
                (model.operations.compute)(Operation::Product, x, y);
            let turn = |step: int, steps: u32|
                times(
                    (model.operations.compute)(
                        Operation::Quotient,
                        Scalar::of_count_spec(step as nat),
                        Scalar::of_count_spec(steps as nat),
                    ),
                    Scalar { bits: 0x40c9_0fdb },
                );
            let around = turn(k / torus.minor as int, torus.major);
            let within = turn(k % torus.minor as int, torus.minor);
            let (su, cu) = ((model.sine)(around), (model.cosine)(around));
            let (sv, cv) = ((model.sine)(within), (model.cosine)(within));
            let far = plus(torus.major_radius, times(torus.minor_radius, cv));
            let vertex = torus_vertices(model, torus, n)[k];
            let outward = (model.operations.normalize)(
                Vec3 { x: times(cv, su), y: sv, z: times(cv, cu) },
            );
            let onward = (model.operations.normalize)(
                Vec3 { x: cu, y: Scalar { bits: 0 }, z: su.neg_spec() },
            );
            let m = vertex.normal;
            let t = vertex.tangent;
            &&& torus_vertices(model, torus, n).len() == n
            &&& vertex.position.x == times(far, su)
            &&& vertex.position.y == times(torus.minor_radius, sv)
            &&& vertex.position.z == times(far, cu)
            &&& outward is Some ==> m == outward.unwrap()
            &&& onward is Some ==> t == onward.unwrap()
            &&& vertex.bitangent.x == minus(times(m.y, t.z), times(m.z, t.y))
            &&& vertex.bitangent.y == minus(times(m.z, t.x), times(m.x, t.z))
            &&& vertex.bitangent.z == minus(times(m.x, t.y), times(m.y, t.x))
        }),
{
    let minor = torus.minor as int;
    vstd::arithmetic::div_mod::lemma_fundamental_div_mod(k, minor);
    vstd::arithmetic::div_mod::lemma_mod_bound(k, minor);
    assert(0 <= k / minor < torus.major) by (nonlinear_arith)
        requires
            k == minor * (k / minor) + k % minor,
            0 <= k % minor < minor,
            0 <= k < torus.major * minor,
            minor > 0,
    ;
}

/// How the faces of a torus are joined: between a ring and the next, around, and a vertex
/// and the next, around, two triangles that share the diagonal, both wound the same way.
pub proof fn lemma_torus_faces_join_neighbors(major: int, minor: int, i: int, j: int, n: int)
    requires
        0 <= i < major,
        0 <= j < minor,
        major * minor <= u32::MAX,
        n == i * minor + j,
    ensures
        ({
            let next_ring = if i + 1 == major {
                0
            } else {
                i + 1
            };
            let next_step = if j + 1 == minor {
                0
            } else {
                j + 1
            };
            let all = torus_indices_spec(major, minor, n + 1);
            let before = torus_indices_spec(major, minor, n);
            let face = all.subrange(before.len() as int, all.len() as int);
            &&& all.len() == before.len() + 6
            &&& all.take(before.len() as int) == before
            &&& torus_indices_spec(major, minor, 0).len() == 0
            &&& face[0] == i * minor + j
            &&& face[1] == next_ring * minor + j
            &&& face[2] == next_ring * minor + next_step
            &&& face[3] == i * minor + j
            &&& face[4] == next_ring * minor + next_step
            &&& face[5] == i * minor + next_step
        }),
{
    vstd::arithmetic::div_mod::lemma_fundamental_div_mod_converse(n, minor, i, j);
    let next_ring = (i + 1) % major;
    let next_step = (j + 1) % minor;
    if i + 1 < major {
        vstd::arithmetic::div_mod::lemma_small_mod((i + 1) as nat, major as nat);
    } else {
        vstd::arithmetic::div_mod::lemma_mod_self_0(major);
    }
    if j + 1 < minor {
        vstd::arithmetic::div_mod::lemma_small_mod((j + 1) as nat, minor as nat);
    } else {
        vstd::arithmetic::div_mod::lemma_mod_self_0(minor);
    }
    assert(0 <= i * minor && i * minor + minor <= major * minor && 0 <= next_ring * minor
        && next_ring * minor + minor <= major * minor) by (nonlinear_arith)
        requires
            0 <= i < major,
            0 <= next_ring < major,
            0 < minor,
    ;
    assert(0 <= n) by (nonlinear_arith)
        requires
            n == i * minor + j,
            0 <= i,
            0 <= j,
            0 < minor,
    ;
    let all = torus_indices_spec(major, minor, n + 1);
    let before = torus_indices_spec(major, minor, n);
    assert(all == before + torus_face(major, minor, i, j));
    assert(all.subrange(before.len() as int, all.len() as int) =~= torus_face(major, minor, i, j));
    assert(all.take(before.len() as int) =~= before);
}

/// What is said of each reason for which a model is not shown.
pub proof fn lemma_messages_name_the_reason(error: PreviewError)
    ensures
        error == PreviewError::RaggedVertices ==> error.message_spec()
            == "FBX vertex array length is not divisible by three"@,
        error == PreviewError::NonFinitePosition ==> error.message_spec()
            == "FBX contains a non-finite position"@,
        error == PreviewError::InvalidIndex ==> error.message_spec()
            == "FBX contains an invalid polygon index"@,
        error == PreviewError::IndexOutOfRange ==> error.message_spec()
            == "FBX polygon index is out of range"@,
        error == PreviewError::NoTriangles ==> error.message_spec()
            == "FBX contains no previewable triangle mesh"@,
{
}

} // verus!
