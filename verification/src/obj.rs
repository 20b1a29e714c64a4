//! Meshes from the models of an OBJ file.

use crate::arithmetic::{Arithmetic, ArithmeticModel, Operation};
use crate::geometry::{
    white, white_spec, ColorSource, Geometry, GeometryError, GeometrySpec, IndexedFace, Mesh,
    MeshSpec,
};
use crate::math::{chunk_points, points_from, Vec3};
use crate::scalar::Scalar;
use vstd::prelude::*;

verus! {

/// One model of an OBJ file, triangulated: coordinates three by three, vertex
/// numbers three by three, vertex colors three by three (or none), and the
/// number of its material.
#[derive(Debug)]
pub struct ObjModel {
    pub positions: Vec<Scalar>,
    pub indices: Vec<u32>,
    pub vertex_color: Vec<Scalar>,
    pub material_id: Option<usize>,
}

/// The color of vertex `index`; white where the list ends before it.
pub open spec fn obj_color(colors: Seq<Scalar>, index: int) -> Vec3 {
    if index * 3 + 2 < colors.len() {
        Vec3 { x: colors[index * 3], y: colors[index * 3 + 1], z: colors[index * 3 + 2] }
    } else {
        white_spec()
    }
}

/// The color of vertex `index`; white where the list ends before it.
pub fn read_obj_color(colors: &Vec<Scalar>, index: usize) -> (color: Vec3)
    ensures
        color == obj_color(colors@, index as int),
{
    let count: usize = colors.len() / 3;
    if index < count {
        let offset: usize = index * 3;
        Vec3 { x: colors[offset], y: colors[offset + 1], z: colors[offset + 2] }
    } else {
        white()
    }
}

/// The diffuse color of the material of a model.
pub open spec fn material_color_spec(
    model: ObjModel,
    materials: Seq<Option<Vec3>>,
) -> Option<Vec3> {
    match model.material_id {
        Some(id) => if id < materials.len() {
            materials[id as int]
        } else {
            None
        },
        None => None,
    }
}

/// The color source after a model, given the one before it.
pub open spec fn source_after(
    source: ColorSource,
    model: ObjModel,
    materials: Seq<Option<Vec3>>,
) -> ColorSource {
    if model.vertex_color@.len() > 0 {
        ColorSource::ObjVertexColor
    } else if material_color_spec(model, materials) is Some && source == ColorSource::Uncolored {
        ColorSource::ObjMaterialDiffuse
    } else {
        source
    }
}

/// Triangle `k` of a model whose first vertex is number `base` of all.
pub open spec fn obj_face(
    model: ObjModel,
    materials: Seq<Option<Vec3>>,
    math: ArithmeticModel,
    base: int,
    k: int,
) -> IndexedFace {
    let a = model.indices@[k * 3];
    let b = model.indices@[k * 3 + 1];
    let c = model.indices@[k * 3 + 2];
    let colors = model.vertex_color@;
    IndexedFace {
        a: (base + a) as usize,
        b: (base + b) as usize,
        c: (base + c) as usize,
        color: if colors.len() > 0 {
            math.mean(obj_color(colors, a as int), obj_color(colors, b as int), obj_color(colors, c as int))
        } else {
            match material_color_spec(model, materials) {
                Some(color) => color,
                None => white_spec(),
            }
        },
    }
}

/// The models taken together: vertices one behind the other, triangles between
/// the vertices of their own model.
pub open spec fn obj_geometry(
    models: Seq<ObjModel>,
    materials: Seq<Option<Vec3>>,
    math: ArithmeticModel,
) -> GeometrySpec
    decreases models.len(),
{
    if models.len() == 0 {
        GeometrySpec {
            positions: Seq::empty(),
            faces: Seq::empty(),
            source: ColorSource::Uncolored,
        }
    } else {
        let before = obj_geometry(models.drop_last(), materials, math);
        let model = models.last();
        GeometrySpec {
            positions: before.positions + chunk_points(model.positions@, 3),
            faces: before.faces + Seq::new(
                (model.indices@.len() / 3) as nat,
                |k: int| obj_face(model, materials, math, before.positions.len() as int, k),
            ),
            source: source_after(before.source, model, materials),
        }
    }
}

/// How many vertices the models have.
pub open spec fn vertex_count(models: Seq<ObjModel>) -> int
    decreases models.len(),
{
    if models.len() == 0 {
        0
    } else {
        vertex_count(models.drop_last()) + models.last().positions@.len() / 3
    }
}

/// Whether the vertex numbers of model `m`, counted over all models, fit.
pub open spec fn indices_fit(models: Seq<ObjModel>, m: int) -> bool {
    forall|k: int|
        0 <= k < models[m].indices@.len() ==> vertex_count(models.take(m)) + #[trigger] models[m].indices@[k]
            <= usize::MAX
}

/// Whether all coordinates are finite.
pub open spec fn all_finite(points: Seq<Vec3>) -> bool {
    forall|i: int| 0 <= i < points.len() ==> (#[trigger] points[i]).is_finite_spec()
}

/// Whether the coordinates of all `points` are finite.
pub(crate) fn check_finite(points: &Vec<Vec3>) -> (finite: bool)
    ensures
        finite == all_finite(points@),
{
    let mut next: usize = 0;
    while next < points.len()
        invariant
            next <= points@.len(),
            forall|i: int| 0 <= i < next ==> (#[trigger] points@[i]).is_finite_spec(),
        decreases points@.len() - next,
    {
        if !points[next].is_finite() {
            return false;
        }
        next += 1;
    }
    true
}

/// Appends the triangles of one model.
fn push_obj_faces<F: Fn(Operation, Scalar, Scalar) -> Scalar, N: Fn(Vec3) -> Option<Vec3>>(
    model: &ObjModel,
    materials: &Vec<Option<Vec3>>,
    math: &Arithmetic<F, N>,
    base: usize,
    faces: &mut Vec<IndexedFace>,
)
    requires
        math.wf(),
        forall|k: int|
            0 <= k < model.indices@.len() ==> base + #[trigger] model.indices@[k] <= usize::MAX,
    ensures
        final(faces)@ == old(faces)@ + Seq::new(
            (model.indices@.len() / 3) as nat,
            |k: int| obj_face(*model, materials@, math.model(), base as int, k),
        ),
{
    let ghost before = faces@;
    let ghost all = Seq::new(
        (model.indices@.len() / 3) as nat,
        |k: int| obj_face(*model, materials@, math.model(), base as int, k),
    );
    let material_color = material_color(model, materials);
    let count: usize = model.indices.len() / 3;
    let mut next: usize = 0;
    assert(before + all.take(0) =~= before);
    while next < count
        invariant
            math.wf(),
            forall|k: int|
                0 <= k < model.indices@.len() ==> base + #[trigger] model.indices@[k] <= usize::MAX,
            count == model.indices@.len() / 3,
            count * 3 <= usize::MAX,
            all == Seq::new(
                (model.indices@.len() / 3) as nat,
                |k: int| obj_face(*model, materials@, math.model(), base as int, k),
            ),
            material_color == material_color_spec(*model, materials@),
            next <= count,
            faces@ == before + all.take(next as int),
        decreases count - next,
    {
        let a: u32 = model.indices[next * 3];
        let b: u32 = model.indices[next * 3 + 1];
        let c: u32 = model.indices[next * 3 + 2];
        let color = if model.vertex_color.len() > 0 {
            let first = read_obj_color(&model.vertex_color, a as usize);
            let second = read_obj_color(&model.vertex_color, b as usize);
            let third = read_obj_color(&model.vertex_color, c as usize);
            let mean = math.mean(first, second, third);
            mean
        } else {
            match material_color {
                Some(color) => color,
                None => white(),
            }
        };
        let face = IndexedFace {
            a: base + a as usize,
            b: base + b as usize,
            c: base + c as usize,
            color,
        };
        assert(face == all[next as int]);
        faces.push(face);
        assert(faces@ =~= before + all.take(next + 1));
        next += 1;
    }
    assert(faces@ =~= before + all);
}

/// The diffuse color of the material of a model.
fn material_color(model: &ObjModel, materials: &Vec<Option<Vec3>>) -> (color: Option<Vec3>)
    ensures
        color == material_color_spec(*model, materials@),
{
    match model.material_id {
        Some(id) => if id < materials.len() {
            materials[id]
        } else {
            None
        },
        None => None,
    }
}

/// Takes the models of an OBJ file together.  Vertex colors are averaged over
/// each triangle; a model without them has the diffuse color of its material,
/// or white.
pub fn gather_obj<F: Fn(Operation, Scalar, Scalar) -> Scalar, N: Fn(Vec3) -> Option<Vec3>>(
    models: &Vec<ObjModel>,
    materials: &Vec<Option<Vec3>>,
    math: &Arithmetic<F, N>,
) -> (geometry: Result<Geometry, GeometryError>)
    requires
        math.wf(),
        forall|m: int| 0 <= m < models@.len() ==> #[trigger] indices_fit(models@, m),
    ensures
        match geometry {
            Ok(geometry) => geometry@ == obj_geometry(models@, materials@, math.model())
                && all_finite(geometry@.positions),
            Err(error) => error == GeometryError::NonFinitePosition && !all_finite(
                obj_geometry(models@, materials@, math.model()).positions,
            ),
        },
{
    let mut positions: Vec<Vec3> = Vec::new();
    let mut faces: Vec<IndexedFace> = Vec::new();
    let mut source = ColorSource::Uncolored;
    let mut next: usize = 0;
    while next < models.len()
        invariant
            math.wf(),
            forall|m: int| 0 <= m < models@.len() ==> #[trigger] indices_fit(models@, m),
            next <= models@.len(),
            positions@.len() == vertex_count(models@.take(next as int)),
            all_finite(positions@),
            obj_geometry(models@.take(next as int), materials@, math.model()) == (
            GeometrySpec { positions: positions@, faces: faces@, source }),
        decreases models@.len() - next,
    {
        let model = &models[next];
        let base: usize = positions.len();
        let ghost taken = models@.take(next + 1);
        assert(taken.drop_last() =~= models@.take(next as int));
        let own = points_from(&model.positions, 3);
        let finite = check_finite(&own);
        if !finite {
            proof {
                let i = choose|i: int| 0 <= i < own@.len() && !(#[trigger] own@[i]).is_finite_spec();
                let gathered = obj_geometry(taken, materials@, math.model());
                assert(gathered.positions[base + i] == own@[i]);
                lemma_gathered_grows(models@, next + 1, materials@, math.model());
                let all = obj_geometry(models@, materials@, math.model()).positions;
                assert(all.take(gathered.positions.len() as int)[base + i] == all[base + i]);
            }
            return Err(GeometryError::NonFinitePosition);
        }
        let ghost before = positions@;
        crate::geometry::extend_vec(&mut positions, &own);
        assert(all_finite(positions@)) by {
            assert forall|i: int| 0 <= i < positions@.len() implies (
            #[trigger] positions@[i]).is_finite_spec() by {
                if i < before.len() {
                    assert(positions@[i] == before[i]);
                } else {
                    assert(positions@[i] == own@[i - before.len()]);
                }
            }
        }
        if material_color(model, materials).is_some() && source == ColorSource::Uncolored {
            source = ColorSource::ObjMaterialDiffuse;
        }
        if model.vertex_color.len() > 0 {
            source = ColorSource::ObjVertexColor;
        }
        assert(indices_fit(models@, next as int));
        push_obj_faces(model, materials, math, base, &mut faces);
        next += 1;
    }
    assert(models@.take(next as int) =~= models@);
    Ok(Geometry { positions, faces, source })
}

/// Taking more models together only appends vertices.
proof fn lemma_gathered_grows(
    models: Seq<ObjModel>,
    n: int,
    materials: Seq<Option<Vec3>>,
    math: ArithmeticModel,
)
    requires
        0 <= n <= models.len(),
    ensures
        obj_geometry(models.take(n), materials, math).positions.len() <= obj_geometry(
            models,
            materials,
            math,
        ).positions.len(),
        obj_geometry(models, materials, math).positions.take(
            obj_geometry(models.take(n), materials, math).positions.len() as int,
        ) == obj_geometry(models.take(n), materials, math).positions,
    decreases models.len(),
{
    let part = obj_geometry(models.take(n), materials, math).positions;
    if n == models.len() {
        assert(models.take(n) =~= models);
        assert(part.take(part.len() as int) =~= part);
    } else {
        let front = models.drop_last();
        lemma_gathered_grows(front, n, materials, math);
        assert(front.take(n) =~= models.take(n));
        let all = obj_geometry(models, materials, math).positions;
        let some = obj_geometry(front, materials, math).positions;
        assert(all.take(part.len() as int) =~= some.take(part.len() as int));
    }
}

/// The mesh made of the models of an OBJ file, or why there is none.
pub open spec fn obj_mesh(
    models: Seq<ObjModel>,
    materials: Seq<Option<Vec3>>,
    math: ArithmeticModel,
) -> Result<MeshSpec, GeometryError> {
    let geometry = obj_geometry(models, materials, math);
    if !all_finite(geometry.positions) {
        Err(GeometryError::NonFinitePosition)
    } else {
        geometry.assembled(math)
    }
}

impl Mesh {
    /// Makes a mesh of the models of an OBJ file and the diffuse colors of its
    /// materials.
    pub fn load_obj<F, N>(
        models: &Vec<ObjModel>,
        materials: &Vec<Option<Vec3>>,
        math: &Arithmetic<F, N>,
    ) -> (mesh: Result<Mesh, GeometryError>) where
        F: Fn(Operation, Scalar, Scalar) -> Scalar,
        N: Fn(Vec3) -> Option<Vec3>,

        requires
            math.wf(),
            forall|m: int| 0 <= m < models@.len() ==> #[trigger] indices_fit(models@, m),
            ({
                let geometry = obj_geometry(models@, materials@, math.model());
                all_finite(geometry.positions) && geometry.positions.len() > 0
                    ==> geometry.is_closed()
            }),
        ensures
            crate::geometry::mesh_view(mesh) == obj_mesh(models@, materials@, math.model()),
            mesh matches Ok(mesh) ==> crate::geometry::has_unit_normals(
                math.model(),
                mesh.triangles@,
            ),
    {
        match gather_obj(models, materials, math) {
            Ok(geometry) => Mesh::from_positions_and_faces(&geometry, math),
            Err(error) => Err(error),
        }
    }
}

/// Where each model's triangles are between its own vertices, the models taken
/// together have triangles between existing vertices only.
pub proof fn lemma_own_vertices_close(
    models: Seq<ObjModel>,
    materials: Seq<Option<Vec3>>,
    math: ArithmeticModel,
)
    requires
        forall|m: int, k: int|
            0 <= m < models.len() && 0 <= k < models[m].indices@.len() ==> #[trigger] models[m].indices@[k]
                < models[m].positions@.len() / 3,
        vertex_count(models) <= usize::MAX,
    ensures
        obj_geometry(models, materials, math).positions.len() == vertex_count(models),
        obj_geometry(models, materials, math).is_closed(),
    decreases models.len(),
{
    if models.len() > 0 {
        let front = models.drop_last();
        let model = models.last();
        assert forall|m: int, k: int|
            0 <= m < front.len() && 0 <= k < front[m].indices@.len() implies #[trigger] front[m].indices@[k]
            < front[m].positions@.len() / 3 by {
            assert(front[m] == models[m]);
        }
        lemma_own_vertices_close(front, materials, math);
        let before = obj_geometry(front, materials, math);
        let all = obj_geometry(models, materials, math);
        assert forall|i: int| 0 <= i < all.faces.len() implies crate::geometry::face_within(
            #[trigger] all.faces[i],
            all.positions.len(),
        ) by {
            if i < before.faces.len() {
                assert(all.faces[i] == before.faces[i]);
            } else {
                let k = i - before.faces.len();
                assert(all.faces[i] == obj_face(
                    model,
                    materials,
                    math,
                    before.positions.len() as int,
                    k,
                ));
                assert(models[models.len() - 1] == model);
                assert(model.indices@[k * 3] < model.positions@.len() / 3);
                assert(model.indices@[k * 3 + 1] < model.positions@.len() / 3);
                assert(model.indices@[k * 3 + 2] < model.positions@.len() / 3);
            }
        }
    }
}

/// Whether a vertex of a model has a color: three numbers of the list of colors, or white
/// where the list ends before them.
pub open spec fn has_vertex_color(model: ObjModel, vertex: int, color: Vec3) -> bool {
    let colors = model.vertex_color@;
    if 3 * vertex + 2 < colors.len() {
        &&& color.x == colors[3 * vertex]
        &&& color.y == colors[3 * vertex + 1]
        &&& color.z == colors[3 * vertex + 2]
    } else {
        color.x.bits == 0x3f80_0000 && color.y.bits == 0x3f80_0000 && color.z.bits == 0x3f80_0000
    }
}

/// Whether a triangle has its color: with vertex colors the mean of the colors of its own
/// three vertices, else the color of the material of its model, else white.
pub open spec fn has_face_color(
    model: ObjModel,
    materials: Seq<Option<Vec3>>,
    math: ArithmeticModel,
    k: int,
    color: Vec3,
) -> bool {
    let (a, b, c) = (model.indices@[3 * k], model.indices@[3 * k + 1], model.indices@[3 * k + 2]);
    if model.vertex_color@.len() > 0 {
        forall|p: Vec3, q: Vec3, r: Vec3| #[trigger]
            has_vertex_color(model, a as int, p) && #[trigger] has_vertex_color(model, b as int, q)
                && #[trigger] has_vertex_color(model, c as int, r) ==> color == math.mean(p, q, r)
    } else if model.material_id is Some && model.material_id.unwrap() < materials.len()
        && materials[model.material_id.unwrap() as int] is Some {
        color == materials[model.material_id.unwrap() as int].unwrap()
    } else {
        color.x.bits == 0x3f80_0000 && color.y.bits == 0x3f80_0000 && color.z.bits == 0x3f80_0000
    }
}

/// Models taken together keep what each of them holds: the points of a model stand, three
/// numbers each, behind those of the models before it, and its triangles between these
/// points, three numbers each, in order and with their colors.
pub proof fn lemma_models_keep_their_geometry(
    models: Seq<ObjModel>,
    materials: Seq<Option<Vec3>>,
    math: ArithmeticModel,
    m: int,
)
    requires
        0 <= m < models.len(),
    ensures
        ({
            let all = obj_geometry(models, materials, math);
            let before = obj_geometry(models.take(m), materials, math);
            let own = models[m];
            let base = before.positions.len();
            &&& base + own.positions@.len() / 3 <= all.positions.len()
            &&& before.faces.len() + own.indices@.len() / 3 <= all.faces.len()
            &&& m + 1 == models.len() ==> base + own.positions@.len() / 3 == all.positions.len()
                && before.faces.len() + own.indices@.len() / 3 == all.faces.len()
            &&& forall|i: int|
                base <= i < base + own.positions@.len() / 3 ==> {
                    let point = #[trigger] all.positions[i];
                    &&& point.x == own.positions@[3 * (i - base)]
                    &&& point.y == own.positions@[3 * (i - base) + 1]
                    &&& point.z == own.positions@[3 * (i - base) + 2]
                }
            &&& forall|f: int|
                before.faces.len() <= f < before.faces.len() + own.indices@.len() / 3 ==> {
                    let face = #[trigger] all.faces[f];
                    let k = f - before.faces.len();
                    &&& base + own.indices@[3 * k] <= usize::MAX ==> face.a == base
                        + own.indices@[3 * k]
                    &&& base + own.indices@[3 * k + 1] <= usize::MAX ==> face.b == base
                        + own.indices@[3 * k + 1]
                    &&& base + own.indices@[3 * k + 2] <= usize::MAX ==> face.c == base
                        + own.indices@[3 * k + 2]
                    &&& has_face_color(own, materials, math, k, face.color)
                }
        }),
    decreases models.len(),
{
    let front = models.drop_last();
    assert(models.take(models.len() - 1) =~= front);
    let all = obj_geometry(models, materials, math);
    let most = obj_geometry(front, materials, math);
    let before = obj_geometry(models.take(m), materials, math);
    let own = models[m];
    if m < front.len() {
        lemma_models_keep_their_geometry(front, materials, math, m);
        assert(front.take(m) =~= models.take(m));
        assert forall|i: int| 0 <= i < most.positions.len() implies #[trigger] all.positions[i]
            == most.positions[i] by {}
        assert forall|f: int| 0 <= f < most.faces.len() implies #[trigger] all.faces[f]
            == most.faces[f] by {}
    } else {
        assert forall|f: int|
            before.faces.len() <= f < before.faces.len() + own.indices@.len()
                / 3 implies has_face_color(
            own,
            materials,
            math,
            f - before.faces.len(),
            (#[trigger] all.faces[f]).color,
        ) by {
            let k = f - before.faces.len();
            assert(all.faces[f] == obj_face(
                own,
                materials,
                math,
                before.positions.len() as int,
                k,
            ));
            assert forall|v: int, p: Vec3| #[trigger] has_vertex_color(own, v, p) implies p
                == obj_color(own.vertex_color@, v) by {}
        }
    }
}

/// Where the colors of a mesh come from: from vertices where any model has colors for its
/// vertices, else from a material where any model has a material with a color.
pub proof fn lemma_vertex_colors_come_first(
    models: Seq<ObjModel>,
    materials: Seq<Option<Vec3>>,
    math: ArithmeticModel,
)
    ensures
        ({
            let source = obj_geometry(models, materials, math).source;
            let colored = exists|m: int|
                0 <= m < models.len() && (#[trigger] models[m]).vertex_color@.len() > 0;
            let painted = exists|m: int|
                0 <= m < models.len() && has_material_color(#[trigger] models[m], materials);
            &&& colored ==> source == ColorSource::ObjVertexColor
            &&& !colored && painted ==> source == ColorSource::ObjMaterialDiffuse
            &&& !colored && !painted ==> source == ColorSource::Uncolored
        }),
    decreases models.len(),
{
    if models.len() > 0 {
        let front = models.drop_last();
        lemma_vertex_colors_come_first(front, materials, math);
        let last = models.len() - 1;
        assert forall|m: int| 0 <= m < last implies #[trigger] front[m] == models[m] by {}
        if exists|m: int| 0 <= m < front.len() && (#[trigger] front[m]).vertex_color@.len() > 0 {
            let m = choose|m: int|
                0 <= m < front.len() && (#[trigger] front[m]).vertex_color@.len() > 0;
            assert(models[m].vertex_color@.len() > 0);
        }
        if exists|m: int| 0 <= m < front.len() && has_material_color(#[trigger] front[m], materials) {
            let m = choose|m: int|
                0 <= m < front.len() && has_material_color(#[trigger] front[m], materials);
            assert(has_material_color(models[m], materials));
        }
        assert(models[last] == models.last());
        assert forall|m: int| 0 <= m < models.len() && m != last implies #[trigger] models[m]
            == front[m] by {}
    }
}

/// Whether the material of a model exists and has a color.
pub open spec fn has_material_color(model: ObjModel, materials: Seq<Option<Vec3>>) -> bool {
    &&& model.material_id is Some
    &&& model.material_id.unwrap() < materials.len()
    &&& materials[model.material_id.unwrap() as int] is Some
}

/// Models with a coordinate that is not finite make no mesh; others make the mesh of what
/// they hold together.
pub proof fn lemma_only_finite_models_make_a_mesh(
    models: Seq<ObjModel>,
    materials: Seq<Option<Vec3>>,
    math: ArithmeticModel,
)
    ensures
        ({
            let geometry = obj_geometry(models, materials, math);
            let finite = forall|i: int|
                0 <= i < geometry.positions.len() ==> {
                    let point = #[trigger] geometry.positions[i];
                    &&& point.x.is_finite_spec()
                    &&& point.y.is_finite_spec()
                    &&& point.z.is_finite_spec()
                };
            &&& !finite ==> obj_mesh(models, materials, math) == Err::<MeshSpec, GeometryError>(
                GeometryError::NonFinitePosition,
            )
            &&& finite ==> obj_mesh(models, materials, math) == geometry.assembled(math)
        }),
{
    let geometry = obj_geometry(models, materials, math);
    assert(all_finite(geometry.positions) <==> forall|i: int|
        0 <= i < geometry.positions.len() ==> {
            let point = #[trigger] geometry.positions[i];
            &&& point.x.is_finite_spec()
            &&& point.y.is_finite_spec()
            &&& point.z.is_finite_spec()
        }) by {
        assert forall|i: int| 0 <= i < geometry.positions.len() implies (
        #[trigger] geometry.positions[i]).is_finite_spec() == (
        geometry.positions[i].x.is_finite_spec() && geometry.positions[i].y.is_finite_spec()
            && geometry.positions[i].z.is_finite_spec()) by {}
    }
}

} // verus!
