//! Triangles, bounds and meshes.

use crate::arithmetic::{Arithmetic, ArithmeticModel, Operation};
use crate::math::{
    attained, bounds_above, bounds_below, greatest, least, lemma_greatest_is_tight,
    lemma_least_is_tight, Vec3,
};
use crate::paths::{extension, extension_of};
use crate::scalar::{Scalar, ONE_BITS};
use crate::text::{ascii_lower_text, same_text, to_ascii_lowercase};
use std::path::PathBuf;
use vstd::prelude::*;

verus! {

/// A triangle with its facet normal and color.
#[derive(Clone, Copy, Debug, PartialEq)]
pub struct Triangle {
    pub v0: Vec3,
    pub v1: Vec3,
    pub v2: Vec3,
    pub normal: Vec3,
    pub color: Vec3,
}

/// An axis-aligned box.
#[derive(Clone, Copy, Debug, PartialEq)]
pub struct Bounds {
    pub min: Vec3,
    pub max: Vec3,
}

/// Where the colors of a mesh come from.
#[derive(Clone, Copy, Debug, PartialEq, Eq, Structural)]
pub enum ColorSource {
    Uncolored,
    ObjVertexColor,
    ObjMaterialDiffuse,
    FbxLayerElementColor,
}

impl ColorSource {
    /// The name of the source.
    pub open spec fn name(self) -> Seq<char> {
        match self {
            ColorSource::Uncolored => "none"@,
            ColorSource::ObjVertexColor => "obj_vertex_color"@,
            ColorSource::ObjMaterialDiffuse => "obj_material_diffuse"@,
            ColorSource::FbxLayerElementColor => "fbx_layer_element_color"@,
        }
    }

    /// The name of the source.
    pub fn as_str(self) -> (name: &'static str)
        ensures
            name@ == self.name(),
    {
        match self {
            ColorSource::Uncolored => "none",
            ColorSource::ObjVertexColor => "obj_vertex_color",
            ColorSource::ObjMaterialDiffuse => "obj_material_diffuse",
            ColorSource::FbxLayerElementColor => "fbx_layer_element_color",
        }
    }
}

/// White.
pub open spec fn white_spec() -> Vec3 {
    let one = Scalar { bits: ONE_BITS };
    Vec3 { x: one, y: one, z: one }
}

/// White.
pub fn white() -> (color: Vec3)
    ensures
        color == white_spec(),
{
    let one = Scalar { bits: ONE_BITS };
    Vec3 { x: one, y: one, z: one }
}

/// A triangle given by positions in a list of vertices.
#[derive(Clone, Copy, Debug, PartialEq)]
pub struct IndexedFace {
    pub a: usize,
    pub b: usize,
    pub c: usize,
    pub color: Vec3,
}

impl Bounds {
    /// The smallest box around a non-empty sequence of points.
    pub open spec fn around(points: Seq<Vec3>) -> Bounds {
        Bounds { min: least(points), max: greatest(points) }
    }

    /// The smallest box around `points`, or `None` when there is no point.
    pub fn from_points(points: &[Vec3]) -> (bounds: Option<Bounds>)
        ensures
            points@.len() == 0 ==> bounds is None,
            points@.len() > 0 ==> bounds == Some(Bounds::around(points@)),
    {
        if points.len() == 0 {
            return None;
        }
        let mut bounds = Bounds { min: points[0], max: points[0] };
        let mut next: usize = 1;
        assert(points@.take(1).drop_last() =~= Seq::<Vec3>::empty());
        while next < points.len()
            invariant
                1 <= next <= points@.len(),
                bounds == Bounds::around(points@.take(next as int)),
            decreases points@.len() - next,
        {
            let point = points[next];
            bounds.min = bounds.min.min(point);
            bounds.max = bounds.max.max(point);
            assert(points@.take(next + 1).drop_last() =~= points@.take(next as int));
            next += 1;
        }
        assert(points@.take(next as int) =~= points@);
        Some(bounds)
    }
}

/// Vertices, triangles between them, and where their colors come from.
#[derive(Debug)]
pub struct Geometry {
    pub positions: Vec<Vec3>,
    pub faces: Vec<IndexedFace>,
    pub source: ColorSource,
}

/// A [`Geometry`] with its contents as sequences.
#[verifier::ext_equal]
pub struct GeometrySpec {
    pub positions: Seq<Vec3>,
    pub faces: Seq<IndexedFace>,
    pub source: ColorSource,
}

impl View for Geometry {
    type V = GeometrySpec;

    open spec fn view(&self) -> GeometrySpec {
        GeometrySpec {
            positions: self.positions@,
            faces: self.faces@,
            source: self.source,
        }
    }
}

impl GeometrySpec {
    /// Whether every triangle is between vertices that exist.
    pub open spec fn is_closed(self) -> bool {
        forall|i: int| 0 <= i < self.faces.len() ==> face_within(#[trigger] self.faces[i], self.positions.len())
    }
}

/// Whether a triangle is between the first `count` vertices.
pub open spec fn face_within(face: IndexedFace, count: nat) -> bool {
    face.a < count && face.b < count && face.c < count
}

impl Geometry {
    /// Whether every triangle is between vertices that exist.
    pub fn is_closed(&self) -> (closed: bool)
        ensures
            closed == self@.is_closed(),
    {
        let count: usize = self.positions.len();
        let mut next: usize = 0;
        while next < self.faces.len()
            invariant
                count == self.positions@.len(),
                next <= self.faces@.len(),
                forall|i: int| 0 <= i < next ==> face_within(#[trigger] self.faces@[i], count as nat),
            decreases self.faces@.len() - next,
        {
            let face = self.faces[next];
            if face.a >= count || face.b >= count || face.c >= count {
                assert(!face_within(self@.faces[next as int], self@.positions.len()));
                return false;
            }
            next += 1;
        }
        true
    }
}

/// The triangle with each vertex number raised by `base`.
pub open spec fn face_from_spec(base: int, face: IndexedFace) -> IndexedFace {
    IndexedFace {
        a: (base + face.a) as usize,
        b: (base + face.b) as usize,
        c: (base + face.c) as usize,
        color: face.color,
    }
}

/// The triangle with each vertex number raised by `base`.
pub(crate) fn face_from(base: usize, face: IndexedFace) -> (raised: IndexedFace)
    requires
        base + face.a <= usize::MAX,
        base + face.b <= usize::MAX,
        base + face.c <= usize::MAX,
    ensures
        raised == face_from_spec(base as int, face),
{
    IndexedFace { a: base + face.a, b: base + face.b, c: base + face.c, color: face.color }
}

/// Appends a copy of `more` to `values`.
pub(crate) fn extend_vec<T: Copy>(values: &mut Vec<T>, more: &Vec<T>)
    ensures
        final(values)@ == old(values)@ + more@,
{
    let ghost before = values@;
    let mut next: usize = 0;
    assert(before + more@.take(0) =~= before);
    while next < more.len()
        invariant
            next <= more@.len(),
            values@ == before + more@.take(next as int),
        decreases more@.len() - next,
    {
        values.push(more[next]);
        assert(values@ =~= before + more@.take(next + 1));
        next += 1;
    }
    assert(values@ =~= before + more@);
}

/// Bits of `1.0e-6`, the tile size up to which a tile counts as flat.
pub const MIN_TILE_SIZE_BITS: u32 = 0x3586_37bd;

/// Why geometry cannot be used.
#[derive(Debug, PartialEq, Eq)]
pub enum GeometryError {
    UnsupportedExtension(PathBuf),
    EmptyMesh,
    NonFinitePosition,
    DegenerateTriangle,
    InvalidTileSize,
}

/// Triangles below the plane `y = 0`, and the tile that they repeat in.
#[derive(Debug, PartialEq)]
pub struct Mesh {
    pub triangles: Vec<Triangle>,
    pub bounds: Bounds,
    pub original_bounds: Bounds,
    pub y_offset_to_zero: Scalar,
    pub tile_min_x: Scalar,
    pub tile_min_z: Scalar,
    pub tile_width: Scalar,
    pub tile_depth: Scalar,
    pub color_source: ColorSource,
}

/// A [`Mesh`] with its triangles as a sequence.
#[verifier::ext_equal]
pub struct MeshSpec {
    pub triangles: Seq<Triangle>,
    pub bounds: Bounds,
    pub original_bounds: Bounds,
    pub y_offset_to_zero: Scalar,
    pub tile_min_x: Scalar,
    pub tile_min_z: Scalar,
    pub tile_width: Scalar,
    pub tile_depth: Scalar,
    pub color_source: ColorSource,
}

impl View for Mesh {
    type V = MeshSpec;

    open spec fn view(&self) -> MeshSpec {
        MeshSpec {
            triangles: self.triangles@,
            bounds: self.bounds,
            original_bounds: self.original_bounds,
            y_offset_to_zero: self.y_offset_to_zero,
            tile_min_x: self.tile_min_x,
            tile_min_z: self.tile_min_z,
            tile_width: self.tile_width,
            tile_depth: self.tile_depth,
            color_source: self.color_source,
        }
    }
}

/// A point moved by `offset` along y.
pub open spec fn raised(model: ArithmeticModel, offset: Scalar, point: Vec3) -> Vec3 {
    Vec3 { x: point.x, y: model.sum(point.y, offset), z: point.z }
}

/// The points moved along y by the negated height of the highest one.
pub open spec fn lowered(model: ArithmeticModel, points: Seq<Vec3>) -> Seq<Vec3> {
    points.map_values(|point: Vec3| raised(model, greatest(points).y.neg_spec(), point))
}

/// The triangles of `faces` that span an area, in order.
pub open spec fn triangles_of(
    model: ArithmeticModel,
    points: Seq<Vec3>,
    faces: Seq<IndexedFace>,
) -> Seq<Triangle>
    decreases faces.len(),
{
    if faces.len() == 0 {
        Seq::empty()
    } else {
        let before = triangles_of(model, points, faces.drop_last());
        let face = faces.last();
        let v0 = points[face.a as int];
        let v1 = points[face.b as int];
        let v2 = points[face.c as int];
        match model.facet_normal(v0, v1, v2) {
            Some(normal) => before.push(Triangle { v0, v1, v2, normal, color: face.color }),
            None => before,
        }
    }
}

/// Whether a tile of this size can repeat.
pub open spec fn usable_tile_size(size: Scalar) -> bool {
    size.is_finite_spec() && !size.abs_spec().le_spec(Scalar { bits: MIN_TILE_SIZE_BITS })
}

impl GeometrySpec {
    /// The mesh made of this geometry, or why there is none.
    pub open spec fn assembled(self, model: ArithmeticModel) -> Result<MeshSpec, GeometryError> {
        let points = lowered(model, self.positions);
        let triangles = triangles_of(model, points, self.faces);
        let bounds = Bounds::around(points);
        let width = model.difference(bounds.max.x, bounds.min.x);
        let depth = model.difference(bounds.max.z, bounds.min.z);
        if self.positions.len() == 0 || triangles.len() == 0 {
            Err(GeometryError::EmptyMesh)
        } else if !usable_tile_size(width) || !usable_tile_size(depth) {
            Err(GeometryError::InvalidTileSize)
        } else {
            Ok(
                MeshSpec {
                    triangles,
                    bounds,
                    original_bounds: Bounds::around(self.positions),
                    y_offset_to_zero: greatest(self.positions).y.neg_spec(),
                    tile_min_x: bounds.min.x,
                    tile_min_z: bounds.min.z,
                    tile_width: width.abs_spec(),
                    tile_depth: depth.abs_spec(),
                    color_source: self.source,
                },
            )
        }
    }
}

/// The view of a mesh that may not exist.
pub open spec fn mesh_view(mesh: Result<Mesh, GeometryError>) -> Result<MeshSpec, GeometryError> {
    match mesh {
        Ok(mesh) => Ok(mesh@),
        Err(error) => Err(error),
    }
}

impl<F, N> Arithmetic<F, N> where
    F: Fn(Operation, Scalar, Scalar) -> Scalar,
    N: Fn(Vec3) -> Option<Vec3>,
 {
    /// Moves points so that the highest one comes to lie at height zero.
    fn lower(&self, positions: &Vec<Vec3>, offset: Scalar) -> (points: Vec<Vec3>)
        requires
            self.wf(),
            offset == greatest(positions@).y.neg_spec(),
        ensures
            points@ == lowered(self.model(), positions@),
    {
        let mut points: Vec<Vec3> = Vec::new();
        let mut next: usize = 0;
        while next < positions.len()
            invariant
                self.wf(),
                offset == greatest(positions@).y.neg_spec(),
                next <= positions@.len(),
                points@ == lowered(self.model(), positions@).take(next as int),
            decreases positions@.len() - next,
        {
            let point = positions[next];
            let y = self.sum(point.y, offset);
            points.push(Vec3 { x: point.x, y, z: point.z });
            assert(points@ =~= lowered(self.model(), positions@).take(next + 1));
            next += 1;
        }
        assert(points@ =~= lowered(self.model(), positions@));
        points
    }

    /// The triangles that span an area.
    fn triangles(&self, points: &Vec<Vec3>, faces: &Vec<IndexedFace>) -> (triangles: Vec<Triangle>)
        requires
            self.wf(),
            forall|i: int| 0 <= i < faces@.len() ==> face_within(#[trigger] faces@[i], points@.len()),
        ensures
            triangles@ == triangles_of(self.model(), points@, faces@),
    {
        let mut triangles: Vec<Triangle> = Vec::new();
        let mut next: usize = 0;
        while next < faces.len()
            invariant
                self.wf(),
                forall|i: int|
                    0 <= i < faces@.len() ==> face_within(#[trigger] faces@[i], points@.len()),
                next <= faces@.len(),
                triangles@ == triangles_of(self.model(), points@, faces@.take(next as int)),
            decreases faces@.len() - next,
        {
            let face = faces[next];
            assert(face_within(faces@[next as int], points@.len()));
            let v0 = points[face.a];
            let v1 = points[face.b];
            let v2 = points[face.c];
            let found = self.facet_normal(v0, v1, v2);
            assert(faces@.take(next + 1).drop_last() =~= faces@.take(next as int));
            if let Some(normal) = found {
                triangles.push(Triangle { v0, v1, v2, normal, color: face.color });
            }
            next += 1;
        }
        assert(faces@.take(next as int) =~= faces@);
        triangles
    }
}

impl Mesh {
    /// Makes a mesh: moves the geometry so that its highest point lies at
    /// height zero, drops triangles without an area, and takes the bounds as the
    /// tile.
    pub fn from_positions_and_faces<F, N>(
        geometry: &Geometry,
        math: &Arithmetic<F, N>,
    ) -> (mesh: Result<Mesh, GeometryError>) where
        F: Fn(Operation, Scalar, Scalar) -> Scalar,
        N: Fn(Vec3) -> Option<Vec3>,

        requires
            math.wf(),
            geometry@.positions.len() > 0 ==> geometry@.is_closed(),
        ensures
            mesh_view(mesh) == geometry@.assembled(math.model()),
            mesh matches Ok(mesh) ==> has_unit_normals(math.model(), mesh.triangles@),
    {
        if geometry.faces.len() == 0 {
            return Err(GeometryError::EmptyMesh);
        }
        let original_bounds = match Bounds::from_points(geometry.positions.as_slice()) {
            Some(bounds) => bounds,
            None => return Err(GeometryError::EmptyMesh),
        };
        let y_offset_to_zero = original_bounds.max.y.neg();
        let points = math.lower(&geometry.positions, y_offset_to_zero);
        assert(points@.len() == geometry@.positions.len());
        assert forall|i: int| 0 <= i < geometry.faces@.len() implies face_within(
            #[trigger] geometry.faces@[i],
            points@.len(),
        ) by {
            assert(face_within(geometry@.faces[i], geometry@.positions.len()));
        }
        let triangles = math.triangles(&points, &geometry.faces);
        if triangles.len() == 0 {
            return Err(GeometryError::EmptyMesh);
        }
        let bounds = match Bounds::from_points(points.as_slice()) {
            Some(bounds) => bounds,
            None => return Err(GeometryError::EmptyMesh),
        };
        let tile_width = math.difference(bounds.max.x, bounds.min.x);
        let tile_depth = math.difference(bounds.max.z, bounds.min.z);
        let min_tile_size = Scalar { bits: MIN_TILE_SIZE_BITS };
        if !tile_width.is_finite() || !tile_depth.is_finite() || tile_width.abs().at_most(
            min_tile_size,
        ) || tile_depth.abs().at_most(min_tile_size) {
            return Err(GeometryError::InvalidTileSize);
        }
        let mesh = Mesh {
            triangles,
            bounds,
            original_bounds,
            y_offset_to_zero,
            tile_min_x: bounds.min.x,
            tile_min_z: bounds.min.z,
            tile_width: tile_width.abs(),
            tile_depth: tile_depth.abs(),
            color_source: geometry.source,
        };
        assert(geometry@.assembled(math.model()).unwrap() =~= mesh@);
        proof {
            lemma_mesh_has_unit_normals(math.model(), geometry@);
        }
        Ok(mesh)
    }
}

/// Adding `offset` keeps the order of finite numbers.
pub open spec fn keeps_order(model: ArithmeticModel, offset: Scalar) -> bool {
    forall|a: Scalar, b: Scalar|
        a.is_finite_spec() && b.is_finite_spec() && a.le_spec(b) ==> (#[trigger] model.sum(
            a,
            offset,
        )).le_spec(#[trigger] model.sum(b, offset))
}

/// The highest point comes to lie at height zero, wherever the addition rounds
/// in order and cancels a number against its negation.
pub proof fn lemma_highest_point_is_zero(model: ArithmeticModel, points: Seq<Vec3>)
    requires
        points.len() > 0,
        forall|i: int| 0 <= i < points.len() ==> (#[trigger] points[i]).y.is_finite_spec(),
        keeps_order(model, greatest(points).y.neg_spec()),
        model.sum(greatest(points).y, greatest(points).y.neg_spec()).rank() == 0,
    ensures
        Bounds::around(lowered(model, points)).max.y.rank() == 0,
{
    let top = greatest(points).y;
    let offset = top.neg_spec();
    let moved = lowered(model, points);
    lemma_greatest_is_tight(points);
    lemma_greatest_is_tight(moved);
    assert(crate::math::attained(points, 1, greatest(points).axis_spec(1)));
    let i = choose|i: int| 0 <= i < points.len() && (#[trigger] points[i]).axis_spec(1) == top;
    assert(moved[i].y == model.sum(top, offset));
    assert(crate::math::attained(moved, 1, greatest(moved).axis_spec(1)));
    let j = choose|j: int|
        0 <= j < moved.len() && (#[trigger] moved[j]).axis_spec(1) == greatest(moved).y;
    assert(bounds_above(greatest(moved), moved[i]));
    assert(moved[i].axis_spec(1) == model.sum(top, offset));
    assert(bounds_above(greatest(points), points[j]));
    assert(points[j].axis_spec(1).le_spec(top));
    assert(points[i].y.is_finite_spec());
    assert(model.sum(points[j].y, offset).le_spec(model.sum(top, offset)));
}

/// Whether every corner of a triangle lies in the box.
pub open spec fn encloses(bounds: Bounds, triangle: Triangle) -> bool {
    &&& bounds_below(bounds.min, triangle.v0) && bounds_above(bounds.max, triangle.v0)
    &&& bounds_below(bounds.min, triangle.v1) && bounds_above(bounds.max, triangle.v1)
    &&& bounds_below(bounds.min, triangle.v2) && bounds_above(bounds.max, triangle.v2)
}

/// Every triangle of a mesh lies in the bounds of the mesh, and spans an area.
pub proof fn lemma_mesh_lies_in_bounds(model: ArithmeticModel, geometry: GeometrySpec)
    requires
        geometry.is_closed(),
        geometry.assembled(model) is Ok,
    ensures
        forall|i: int|
            0 <= i < geometry.assembled(model).unwrap().triangles.len() ==> encloses(
                geometry.assembled(model).unwrap().bounds,
                #[trigger] geometry.assembled(model).unwrap().triangles[i],
            ),
        forall|i: int|
            0 <= i < geometry.assembled(model).unwrap().triangles.len() ==> {
                let triangle = #[trigger] geometry.assembled(model).unwrap().triangles[i];
                model.facet_normal(triangle.v0, triangle.v1, triangle.v2) == Some(triangle.normal)
            },
{
    let points = lowered(model, geometry.positions);
    lemma_least_is_tight(points);
    lemma_greatest_is_tight(points);
    lemma_triangles_between_points(model, points, geometry.faces);
}

proof fn lemma_triangles_between_points(
    model: ArithmeticModel,
    points: Seq<Vec3>,
    faces: Seq<IndexedFace>,
)
    requires
        forall|i: int| 0 <= i < faces.len() ==> face_within(#[trigger] faces[i], points.len()),
        forall|i: int| 0 <= i < points.len() ==> bounds_below(least(points), #[trigger] points[i]),
        forall|i: int|
            0 <= i < points.len() ==> bounds_above(greatest(points), #[trigger] points[i]),
    ensures
        forall|i: int|
            0 <= i < triangles_of(model, points, faces).len() ==> {
                let triangle = #[trigger] triangles_of(model, points, faces)[i];
                &&& encloses(Bounds::around(points), triangle)
                &&& model.facet_normal(triangle.v0, triangle.v1, triangle.v2) == Some(triangle.normal)
            },
    decreases faces.len(),
{
    if faces.len() > 0 {
        let front = faces.drop_last();
        assert forall|i: int| 0 <= i < front.len() implies face_within(
            #[trigger] front[i],
            points.len(),
        ) by {
            assert(front[i] == faces[i]);
        }
        lemma_triangles_between_points(model, points, front);
        assert(face_within(faces[faces.len() - 1], points.len()));
        let before = triangles_of(model, points, front);
        assert forall|i: int| 0 <= i < triangles_of(model, points, faces).len() implies {
            let triangle = #[trigger] triangles_of(model, points, faces)[i];
            &&& encloses(Bounds::around(points), triangle)
            &&& model.facet_normal(triangle.v0, triangle.v1, triangle.v2) == Some(triangle.normal)
        } by {
            if i < before.len() {
                assert(triangles_of(model, points, faces)[i] == before[i]);
            }
        }
    }
}

/// The kinds of files that meshes are read from.
#[derive(Clone, Copy, Debug, PartialEq, Eq, Structural)]
pub enum MeshFormat {
    Obj,
    Fbx,
}

/// The format that a file extension stands for, in any mix of ASCII cases.
pub open spec fn format_of_extension(extension: Option<Seq<char>>) -> Option<MeshFormat> {
    match extension {
        Some(extension) => if ascii_lower_text(extension) == "obj"@ {
            Some(MeshFormat::Obj)
        } else if ascii_lower_text(extension) == "fbx"@ {
            Some(MeshFormat::Fbx)
        } else {
            None
        },
        None => None,
    }
}

/// The format of the file at `path`, told by its extension.
pub fn format_by_extension(path: &PathBuf, extension: Option<&str>) -> (format: Result<
    MeshFormat,
    GeometryError,
>)
    ensures
        format == match format_of_extension(
            match extension {
                Some(extension) => Some(extension@),
                None => None,
            },
        ) {
            Some(found) => Ok::<MeshFormat, GeometryError>(found),
            None => Err(GeometryError::UnsupportedExtension(*path)),
        },
{
    if let Some(extension) = extension {
        let lower = to_ascii_lowercase(extension);
        if same_text(lower.as_str(), "obj") {
            return Ok(MeshFormat::Obj);
        }
        if same_text(lower.as_str(), "fbx") {
            return Ok(MeshFormat::Fbx);
        }
    }
    Err(GeometryError::UnsupportedExtension(path.clone()))
}

/// The format of the file at `path`, told by the extension of its name.  Refused
/// where that stands for no format.
pub fn mesh_format(path: &PathBuf) -> (format: Result<MeshFormat, GeometryError>)
    ensures
        format == match format_of_extension(extension_of(*path)) {
            Some(found) => Ok::<MeshFormat, GeometryError>(found),
            None => Err(GeometryError::UnsupportedExtension(*path)),
        },
{
    match extension(path) {
        Some(extension) => format_by_extension(path, Some(extension.as_str())),
        None => format_by_extension(path, None),
    }
}

/// The vector along the normal of the triangle between three points: the product of
/// the edges from the first point to the second and to the third, in this order, so it
/// points to where the points are seen to run counterclockwise.
pub open spec fn edge_product(model: ArithmeticModel, v0: Vec3, v1: Vec3, v2: Vec3) -> Vec3 {
    let minus = |x: Scalar, y: Scalar| (model.compute)(Operation::Difference, x, y);
    let times = |x: Scalar, y: Scalar| (model.compute)(Operation::Product, x, y);
    let (ex, ey, ez) = (minus(v1.x, v0.x), minus(v1.y, v0.y), minus(v1.z, v0.z));
    let (fx, fy, fz) = (minus(v2.x, v0.x), minus(v2.y, v0.y), minus(v2.z, v0.z));
    Vec3 {
        x: minus(times(ey, fz), times(ez, fy)),
        y: minus(times(ez, fx), times(ex, fz)),
        z: minus(times(ex, fy), times(ey, fx)),
    }
}

/// Whether a corner of a mesh is a point moved along y by an offset.
pub open spec fn is_moved(model: ArithmeticModel, corner: Vec3, point: Vec3, offset: Scalar) -> bool {
    &&& corner.x == point.x
    &&& corner.y == (model.compute)(Operation::Sum, point.y, offset)
    &&& corner.z == point.z
}

/// Whether a triangle of a mesh is the one of a face: its corners are the points of
/// the face in their order, moved by the offset, its color is that of the face, and its
/// normal is the unit vector along the product of its edges.
pub open spec fn is_of_face(
    model: ArithmeticModel,
    positions: Seq<Vec3>,
    offset: Scalar,
    face: IndexedFace,
    triangle: Triangle,
) -> bool {
    &&& is_moved(model, triangle.v0, positions[face.a as int], offset)
    &&& is_moved(model, triangle.v1, positions[face.b as int], offset)
    &&& is_moved(model, triangle.v2, positions[face.c as int], offset)
    &&& triangle.color == face.color
    &&& (model.normalize)(edge_product(model, triangle.v0, triangle.v1, triangle.v2)) == Some(
        triangle.normal,
    )
}

/// Whether the normal of each triangle is the unit vector along the product of its edges.
pub open spec fn has_unit_normals(model: ArithmeticModel, triangles: Seq<Triangle>) -> bool {
    forall|i: int|
        0 <= i < triangles.len() ==> {
            let triangle = #[trigger] triangles[i];
            (model.normalize)(edge_product(model, triangle.v0, triangle.v1, triangle.v2)) == Some(
                triangle.normal,
            )
        }
}

/// A mesh has unit normals.
pub proof fn lemma_mesh_has_unit_normals(model: ArithmeticModel, geometry: GeometrySpec)
    requires
        geometry.is_closed(),
        geometry.assembled(model) is Ok,
    ensures
        has_unit_normals(model, geometry.assembled(model).unwrap().triangles),
{
    let kept = lemma_meshes_are_made_of_their_faces(model, geometry);
    let mesh = geometry.assembled(model).unwrap();
    assert forall|i: int| 0 <= i < mesh.triangles.len() implies {
        let triangle = #[trigger] mesh.triangles[i];
        (model.normalize)(edge_product(model, triangle.v0, triangle.v1, triangle.v2)) == Some(
            triangle.normal,
        )
    } by {
        assert(is_of_face(
            model,
            geometry.positions,
            mesh.y_offset_to_zero,
            geometry.faces[kept[i]],
            mesh.triangles[i],
        ));
    }
}

/// Whether the triangles of a mesh are those of some of its faces, in order, and only
/// faces whose edges have a product without a direction are left out: `kept` lists the
/// faces that have a triangle.
pub open spec fn keeps_faces(
    model: ArithmeticModel,
    positions: Seq<Vec3>,
    offset: Scalar,
    faces: Seq<IndexedFace>,
    triangles: Seq<Triangle>,
    kept: Seq<int>,
) -> bool {
    &&& kept.len() == triangles.len()
    &&& forall|i: int| 0 <= i < kept.len() ==> 0 <= #[trigger] kept[i] < faces.len()
    &&& forall|i: int, j: int|
        0 <= i < j < kept.len() ==> #[trigger] kept[i] < #[trigger] kept[j]
    &&& forall|i: int|
        0 <= i < kept.len() ==> is_of_face(
            model,
            positions,
            offset,
            faces[kept[i]],
            #[trigger] triangles[i],
        )
    &&& forall|f: int, v0: Vec3, v1: Vec3, v2: Vec3|
        0 <= f < faces.len() && !kept.contains(f) && #[trigger] is_moved(
            model,
            v0,
            positions[faces[f].a as int],
            offset,
        ) && #[trigger] is_moved(model, v1, positions[faces[f].b as int], offset)
            && #[trigger] is_moved(model, v2, positions[faces[f].c as int], offset)
            ==> (model.normalize)(edge_product(model, v0, v1, v2)) is None
}

proof fn lemma_faces_are_kept(
    model: ArithmeticModel,
    positions: Seq<Vec3>,
    offset: Scalar,
    faces: Seq<IndexedFace>,
) -> (kept: Seq<int>)
    requires
        forall|i: int| 0 <= i < faces.len() ==> face_within(#[trigger] faces[i], positions.len()),
    ensures
        ({
            let points = positions.map_values(|point: Vec3| raised(model, offset, point));
            keeps_faces(
                model,
                positions,
                offset,
                faces,
                triangles_of(model, points, faces),
                kept,
            )
        }),
    decreases faces.len(),
{
    let points = positions.map_values(|point: Vec3| raised(model, offset, point));
    if faces.len() == 0 {
        Seq::empty()
    } else {
        let front = faces.drop_last();
        assert forall|i: int| 0 <= i < front.len() implies face_within(
            #[trigger] front[i],
            positions.len(),
        ) by {
            assert(front[i] == faces[i]);
        }
        let before = lemma_faces_are_kept(model, positions, offset, front);
        let face = faces.last();
        assert(face_within(faces[faces.len() - 1], positions.len()));
        let v0 = points[face.a as int];
        let v1 = points[face.b as int];
        let v2 = points[face.c as int];
        let all = triangles_of(model, points, faces);
        let some = triangles_of(model, points, front);
        let kept = if model.facet_normal(v0, v1, v2) is Some {
            before.push(faces.len() - 1)
        } else {
            before
        };
        assert forall|i: int| 0 <= i < kept.len() implies is_of_face(
            model,
            positions,
            offset,
            faces[kept[i]],
            #[trigger] all[i],
        ) by {
            if i < before.len() {
                assert(all[i] == some[i]);
                assert(0 <= before[i] < front.len());
                assert(front[before[i]] == faces[kept[i]]);
            }
        }
        assert forall|f: int, w0: Vec3, w1: Vec3, w2: Vec3|
            0 <= f < faces.len() && !kept.contains(f) && #[trigger] is_moved(
                model,
                w0,
                positions[faces[f].a as int],
                offset,
            ) && #[trigger] is_moved(model, w1, positions[faces[f].b as int], offset)
                && #[trigger] is_moved(
                model,
                w2,
                positions[faces[f].c as int],
                offset,
            ) implies (model.normalize)(edge_product(model, w0, w1, w2)) is None by {
            if f < front.len() {
                assert(front[f] == faces[f]);
                if before.contains(f) {
                    let i = choose|i: int| 0 <= i < before.len() && before[i] == f;
                    assert(kept[i] == f);
                }
            } else {
                if model.facet_normal(v0, v1, v2) is Some {
                    assert(kept[kept.len() - 1] == f);
                }
                assert(w0 == v0 && w1 == v1 && w2 == v2);
            }
        }
        kept
    }
}

/// What a mesh is made of: the faces of its geometry in order, their points moved along
/// y by the offset that takes the highest one to zero, less those faces that span no
/// area.  The normal of each triangle is the unit vector along the product of its edges;
/// so for a triangle at height zero the vector along the normal points up where the
/// corners are seen from above to run counterclockwise, and down where they run
/// clockwise.
pub proof fn lemma_meshes_are_made_of_their_faces(
    model: ArithmeticModel,
    geometry: GeometrySpec,
) -> (kept: Seq<int>)
    requires
        geometry.is_closed(),
        geometry.assembled(model) is Ok,
    ensures
        ({
            let mesh = geometry.assembled(model).unwrap();
            keeps_faces(
                model,
                geometry.positions,
                mesh.y_offset_to_zero,
                geometry.faces,
                mesh.triangles,
                kept,
            )
        }),
{
    lemma_faces_are_kept(
        model,
        geometry.positions,
        greatest(geometry.positions).y.neg_spec(),
        geometry.faces,
    )
}

/// The vector along the normal of a triangle: its height comes from the other two
/// coordinates alone, as the edges towards z and x times one another less the edges
/// towards x and z, and exchanging the last two corners exchanges the two products.
pub proof fn lemma_normals_point_up_when_counterclockwise(
    model: ArithmeticModel,
    v0: Vec3,
    v1: Vec3,
    v2: Vec3,
)
    ensures
        ({
            let minus = |x: Scalar, y: Scalar| (model.compute)(Operation::Difference, x, y);
            let times = |x: Scalar, y: Scalar| (model.compute)(Operation::Product, x, y);
            let one = times(minus(v1.z, v0.z), minus(v2.x, v0.x));
            let other = times(minus(v1.x, v0.x), minus(v2.z, v0.z));
            &&& model.facet_normal(v0, v1, v2) == (model.normalize)(
                edge_product(model, v0, v1, v2),
            )
            &&& edge_product(model, v0, v1, v2).y == minus(one, other)
            &&& model.commutes() && v0.is_finite_spec() && v1.is_finite_spec()
                && v2.is_finite_spec() && minus(v1.x, v0.x).is_finite_spec() && minus(
                v1.z,
                v0.z,
            ).is_finite_spec() && minus(v2.x, v0.x).is_finite_spec() && minus(
                v2.z,
                v0.z,
            ).is_finite_spec() ==> edge_product(model, v0, v2, v1).y == minus(other, one)
        }),
{
    let minus = |x: Scalar, y: Scalar| (model.compute)(Operation::Difference, x, y);
    let (ex, ez) = (minus(v1.x, v0.x), minus(v1.z, v0.z));
    let (fx, fz) = (minus(v2.x, v0.x), minus(v2.z, v0.z));
    if model.commutes() && ex.is_finite_spec() && ez.is_finite_spec() && fx.is_finite_spec()
        && fz.is_finite_spec() {
        assert(model.product(fz, ex) == model.product(ex, fz));
        assert(model.product(fx, ez) == model.product(ez, fx));
    }
}

/// How a mesh lies: the offset is the height of its highest point, negated; the bounds
/// before and after the move are the tightest around the points; the tile starts where
/// the bounds start and is as large as they are, in x and in z.
pub proof fn lemma_meshes_lie_below_zero(model: ArithmeticModel, geometry: GeometrySpec)
    requires
        geometry.assembled(model) is Ok,
    ensures
        ({
            let mesh = geometry.assembled(model).unwrap();
            let before = mesh.original_bounds;
            let after = mesh.bounds;
            let moved = geometry.positions.map_values(
                |point: Vec3|
                    Vec3 {
                        x: point.x,
                        y: (model.compute)(Operation::Sum, point.y, mesh.y_offset_to_zero),
                        z: point.z,
                    },
            );
            &&& is_tightest(before, geometry.positions)
            &&& is_tightest(after, moved)
            &&& mesh.y_offset_to_zero == before.max.y.neg_spec()
            &&& mesh.tile_min_x == after.min.x
            &&& mesh.tile_min_z == after.min.z
            &&& mesh.tile_width == (model.compute)(
                Operation::Difference,
                after.max.x,
                after.min.x,
            ).abs_spec()
            &&& mesh.tile_depth == (model.compute)(
                Operation::Difference,
                after.max.z,
                after.min.z,
            ).abs_spec()
            &&& mesh.color_source == geometry.source
            &&& mesh.tile_width.is_finite_spec() && 0x3586_37bd < mesh.tile_width.rank()
            &&& mesh.tile_depth.is_finite_spec() && 0x3586_37bd < mesh.tile_depth.rank()
            &&& mesh.triangles.len() > 0
        }),
{
    let mesh = geometry.assembled(model).unwrap();
    let points = lowered(model, geometry.positions);
    let moved = geometry.positions.map_values(
        |point: Vec3|
            Vec3 {
                x: point.x,
                y: (model.compute)(Operation::Sum, point.y, mesh.y_offset_to_zero),
                z: point.z,
            },
    );
    assert(moved =~= points);
    lemma_bounds_are_tightest(geometry.positions);
    lemma_bounds_are_tightest(points);
}

/// Whether a box is the tightest around some points: every coordinate that is a number
/// lies in it, and each of its sides passes through a point.
pub open spec fn is_tightest(bounds: Bounds, points: Seq<Vec3>) -> bool {
    &&& forall|i: int|
        0 <= i < points.len() ==> {
            let point = #[trigger] points[i];
            &&& !point.x.is_nan_spec() ==> bounds.min.x.rank() <= point.x.rank()
                <= bounds.max.x.rank()
            &&& !point.y.is_nan_spec() ==> bounds.min.y.rank() <= point.y.rank()
                <= bounds.max.y.rank()
            &&& !point.z.is_nan_spec() ==> bounds.min.z.rank() <= point.z.rank()
                <= bounds.max.z.rank()
        }
    &&& exists|i: int| 0 <= i < points.len() && (#[trigger] points[i]).x == bounds.min.x
    &&& exists|i: int| 0 <= i < points.len() && (#[trigger] points[i]).y == bounds.min.y
    &&& exists|i: int| 0 <= i < points.len() && (#[trigger] points[i]).z == bounds.min.z
    &&& exists|i: int| 0 <= i < points.len() && (#[trigger] points[i]).x == bounds.max.x
    &&& exists|i: int| 0 <= i < points.len() && (#[trigger] points[i]).y == bounds.max.y
    &&& exists|i: int| 0 <= i < points.len() && (#[trigger] points[i]).z == bounds.max.z
}

/// The bounds of points are the tightest box around them.
pub proof fn lemma_bounds_are_tightest(points: Seq<Vec3>)
    requires
        points.len() > 0,
    ensures
        is_tightest(Bounds::around(points), points),
{
    let low = least(points);
    let high = greatest(points);
    lemma_least_is_tight(points);
    lemma_greatest_is_tight(points);
    assert forall|i: int| 0 <= i < points.len() implies {
        let point = #[trigger] points[i];
        &&& !point.x.is_nan_spec() ==> low.x.rank() <= point.x.rank() <= high.x.rank()
        &&& !point.y.is_nan_spec() ==> low.y.rank() <= point.y.rank() <= high.y.rank()
        &&& !point.z.is_nan_spec() ==> low.z.rank() <= point.z.rank() <= high.z.rank()
    } by {
        let point = points[i];
        assert(bounds_below(low, point) && bounds_above(high, point));
        assert(point.axis_spec(0) == point.x && point.axis_spec(1) == point.y && point.axis_spec(2)
            == point.z);
    }
    assert(attained(points, 0, low.axis_spec(0)) && attained(points, 1, low.axis_spec(1))
        && attained(points, 2, low.axis_spec(2)));
    assert(attained(points, 0, high.axis_spec(0)) && attained(points, 1, high.axis_spec(1))
        && attained(points, 2, high.axis_spec(2)));
}

/// Geometry makes no mesh for one of two reasons: it is empty, without points or without
/// a face that spans an area, or its tile is flat in x or in z or of no finite size.
pub proof fn lemma_meshes_are_refused_for_a_reason(model: ArithmeticModel, geometry: GeometrySpec)
    requires
        geometry.is_closed(),
    ensures
        ({
            let highest = greatest(geometry.positions).y;
            let made = geometry.assembled(model);
            let points = geometry.positions.map_values(
                |point: Vec3|
                    Vec3 {
                        x: point.x,
                        y: (model.compute)(Operation::Sum, point.y, highest.neg_spec()),
                        z: point.z,
                    },
            );
            let flat = forall|f: int|
                0 <= f < geometry.faces.len() ==> {
                    let face = #[trigger] geometry.faces[f];
                    (model.normalize)(
                        edge_product(
                            model,
                            points[face.a as int],
                            points[face.b as int],
                            points[face.c as int],
                        ),
                    ) is None
                };
            let bounds = Bounds::around(points);
            let width = (model.compute)(Operation::Difference, bounds.max.x, bounds.min.x);
            let depth = (model.compute)(Operation::Difference, bounds.max.z, bounds.min.z);
            let usable = |size: Scalar|
                size.is_finite_spec() && 0x3586_37bd < size.abs_spec().rank();
            &&& geometry.positions.len() == 0 || flat ==> made == Err::<MeshSpec, GeometryError>(
                GeometryError::EmptyMesh,
            )
            &&& geometry.positions.len() > 0 && !flat ==> (made is Ok <==> usable(width)
                && usable(depth))
            &&& geometry.positions.len() > 0 && !flat && made is Err ==> made == Err::<
                MeshSpec,
                GeometryError,
            >(GeometryError::InvalidTileSize)
        }),
{
    if geometry.positions.len() > 0 {
        let offset = greatest(geometry.positions).y.neg_spec();
        let points = lowered(model, geometry.positions);
        let same = geometry.positions.map_values(
            |point: Vec3|
                Vec3 {
                    x: point.x,
                    y: (model.compute)(Operation::Sum, point.y, offset),
                    z: point.z,
                },
        );
        assert(points =~= same);
        let kept = lemma_faces_are_kept(model, geometry.positions, offset, geometry.faces);
        let triangles = triangles_of(model, points, geometry.faces);
        if triangles.len() > 0 {
            let f = kept[0];
            assert(is_of_face(
                model,
                geometry.positions,
                offset,
                geometry.faces[f],
                triangles[0],
            ));
            let face = geometry.faces[f];
            assert(face_within(face, geometry.positions.len()));
            assert(triangles[0].v0 == points[face.a as int]);
            assert(triangles[0].v1 == points[face.b as int]);
            assert(triangles[0].v2 == points[face.c as int]);
        } else {
            assert forall|f: int| 0 <= f < geometry.faces.len() implies {
                let face = #[trigger] geometry.faces[f];
                (model.normalize)(
                    edge_product(
                        model,
                        points[face.a as int],
                        points[face.b as int],
                        points[face.c as int],
                    ),
                ) is None
            } by {
                let face = geometry.faces[f];
                assert(face_within(face, geometry.positions.len()));
                assert(!kept.contains(f));
                assert(is_moved(
                    model,
                    points[face.a as int],
                    geometry.positions[face.a as int],
                    offset,
                ));
                assert(is_moved(
                    model,
                    points[face.b as int],
                    geometry.positions[face.b as int],
                    offset,
                ));
                assert(is_moved(
                    model,
                    points[face.c as int],
                    geometry.positions[face.c as int],
                    offset,
                ));
            }
        }
    }
}

/// The formats that are read, told by extensions in any mix of cases, and the names of where
/// colors come from.
pub proof fn lemma_formats_and_sources_have_names(extension: Seq<char>, source: ColorSource)
    ensures
        format_of_extension(None) is None,
        ascii_lower_text(extension) == "obj"@ ==> format_of_extension(Some(extension)) == Some(
            MeshFormat::Obj,
        ),
        ascii_lower_text(extension) == "fbx"@ ==> format_of_extension(Some(extension)) == Some(
            MeshFormat::Fbx,
        ),
        ascii_lower_text(extension) != "obj"@ && ascii_lower_text(extension) != "fbx"@
            ==> format_of_extension(Some(extension)) is None,
        source == ColorSource::Uncolored ==> source.name() == "none"@,
        source == ColorSource::ObjVertexColor ==> source.name() == "obj_vertex_color"@,
        source == ColorSource::ObjMaterialDiffuse ==> source.name() == "obj_material_diffuse"@,
        source == ColorSource::FbxLayerElementColor ==> source.name()
            == "fbx_layer_element_color"@,
{
    reveal_strlit("obj");
    reveal_strlit("fbx");
    assert("obj"@[0] == 'o' && "fbx"@[0] == 'f');
}

} // verus!
