//! Reading mesh data out of an FBX node tree.

use crate::choice::{either, value_or};
use crate::double::{round_all, singles, Double};
use crate::arithmetic::{Arithmetic, ArithmeticModel, Operation};
use crate::geometry::{
    extend_vec, face_from, face_from_spec, mesh_view, white, white_spec, ColorSource, Geometry,
    GeometryError, GeometrySpec, IndexedFace, Mesh,
};
use crate::math::{chunk_points, points_from, Vec3};
use crate::scalar::Scalar;
use crate::text::{copy_all, same_text};
use vstd::prelude::*;

verus! {

/// A value attached to a node.  Arrays of numbers in single precision are held
/// in double precision, which has all of them.
#[derive(Debug)]
pub enum Property {
    I32Array(Vec<i32>),
    FloatArray(Vec<Double>),
    Text(String),
    Other,
}

/// A node of the tree.
#[derive(Debug)]
pub struct Node {
    pub name: String,
    pub properties: Vec<Property>,
    pub children: Vec<Node>,
}

/// The nodes named `Geometry` in the tree below and including `node`, parents
/// before their children and siblings in order.
pub open spec fn geometry_nodes_spec(node: Node) -> Seq<Node>
    decreases node, node.children@.len() + 1,
{
    let own = if node.name@ == "Geometry"@ {
        seq![node]
    } else {
        Seq::empty()
    };
    own + geometry_below(node, node.children@.len())
}

/// The nodes named `Geometry` in the trees of the first `n` children.
pub open spec fn geometry_below(node: Node, n: nat) -> Seq<Node>
    decreases node, n,
{
    if n == 0 || n > node.children@.len() {
        Seq::empty()
    } else {
        geometry_below(node, (n - 1) as nat) + geometry_nodes_spec(node.children@[n - 1])
    }
}

/// The values behind references.
pub open spec fn pointees(nodes: Seq<&Node>) -> Seq<Node> {
    nodes.map_values(|node: &Node| *node)
}

/// The first of `children` with the given name.
pub open spec fn find_named(children: Seq<Node>, name: Seq<char>) -> Option<Node>
    decreases children.len(),
{
    if children.len() == 0 {
        None
    } else if children[0].name@ == name {
        Some(children[0])
    } else {
        find_named(children.drop_first(), name)
    }
}

/// The first value of the first child with the given name.
pub open spec fn child_property(node: Node, name: Seq<char>) -> Option<Property> {
    match find_named(node.children@, name) {
        Some(child) => if child.properties@.len() > 0 {
            Some(child.properties@[0])
        } else {
            None
        },
        None => None,
    }
}

/// That value where it is an array of integers.
pub open spec fn child_i32_array_spec(node: Node, name: Seq<char>) -> Option<Seq<i32>> {
    match child_property(node, name) {
        Some(Property::I32Array(values)) => Some(values@),
        _ => None,
    }
}

/// That value where it is an array of numbers.
pub open spec fn child_f64_array_spec(node: Node, name: Seq<char>) -> Option<Seq<Double>> {
    match child_property(node, name) {
        Some(Property::FloatArray(values)) => Some(values@),
        _ => None,
    }
}

/// That value where it is text.
pub open spec fn child_string_spec(node: Node, name: Seq<char>) -> Option<Seq<char>> {
    match child_property(node, name) {
        Some(Property::Text(value)) => Some(value@),
        _ => None,
    }
}

/// The view of an optional vector.
pub open spec fn vec_view<T>(values: Option<Vec<T>>) -> Option<Seq<T>> {
    match values {
        Some(values) => Some(values@),
        None => None,
    }
}

/// The view of optional text.
pub open spec fn text_view(value: Option<String>) -> Option<Seq<char>> {
    match value {
        Some(value) => Some(value@),
        None => None,
    }
}

/// The nodes named `Geometry` in the tree of `node`.
pub fn geometry_nodes(node: &Node) -> (nodes: Vec<&Node>)
    ensures
        pointees(nodes@) == geometry_nodes_spec(*node),
{
    let mut nodes: Vec<&Node> = Vec::new();
    collect_geometry_nodes(node, &mut nodes);
    assert(pointees(nodes@) =~= geometry_nodes_spec(*node));
    nodes
}

pub(crate) fn collect_geometry_nodes<'a>(node: &'a Node, nodes: &mut Vec<&'a Node>)
    ensures
        pointees(final(nodes)@) == pointees(old(nodes)@) + geometry_nodes_spec(*node),
    decreases node,
{
    let ghost before = pointees(nodes@);
    if same_text(node.name.as_str(), "Geometry") {
        nodes.push(node);
        assert(pointees(nodes@) =~= before.push(*node));
    }
    let ghost own = pointees(nodes@);
    let mut next: usize = 0;
    assert(own =~= own + geometry_below(*node, 0));
    while next < node.children.len()
        invariant
            next <= node.children@.len(),
            pointees(nodes@) == own + geometry_below(*node, next as nat),
        decreases node.children@.len() - next,
    {
        let child = &node.children[next];
        proof {
            assert(decreases_to!(*node => node.children));
            assert(decreases_to!(node.children@ => node.children@[next as int]));
        }
        collect_geometry_nodes(child, nodes);
        assert(pointees(nodes@) =~= own + geometry_below(*node, (next + 1) as nat));
        next += 1;
    }
    assert(pointees(nodes@) =~= before + geometry_nodes_spec(*node));
}

/// The first child with the given name.
pub(crate) fn find_child<'a>(node: &'a Node, name: &str) -> (child: Option<&'a Node>)
    ensures
        child is None ==> find_named(node.children@, name@) is None,
        child is Some ==> find_named(node.children@, name@) == Some(*child.unwrap()),
{
    let mut next: usize = 0;
    assert(node.children@.skip(0) =~= node.children@);
    while next < node.children.len()
        invariant
            next <= node.children@.len(),
            find_named(node.children@, name@) == find_named(
                node.children@.skip(next as int),
                name@,
            ),
        decreases node.children@.len() - next,
    {
        let ghost rest = node.children@.skip(next as int);
        assert(rest[0] == node.children@[next as int]);
        if same_text(node.children[next].name.as_str(), name) {
            return Some(&node.children[next]);
        }
        assert(rest.drop_first() =~= node.children@.skip(next + 1));
        next += 1;
    }
    None
}

/// The first value of the first child with the given name.
fn find_property<'a>(node: &'a Node, name: &str) -> (property: Option<&'a Property>)
    ensures
        property is None ==> child_property(*node, name@) is None,
        property is Some ==> child_property(*node, name@) == Some(*property.unwrap()),
{
    match find_child(node, name) {
        Some(child) => if child.properties.len() > 0 {
            Some(&child.properties[0])
        } else {
            None
        },
        None => None,
    }
}

/// The numbers attached to the first child with the given name.
pub fn child_f64_array(node: &Node, name: &str) -> (values: Option<Vec<Double>>)
    ensures
        vec_view(values) == child_f64_array_spec(*node, name@),
{
    match find_property(node, name) {
        Some(Property::FloatArray(values)) => Some(copy_all(values)),
        _ => None,
    }
}

/// The integers attached to the first child with the given name.
pub fn child_i32_array(node: &Node, name: &str) -> (values: Option<Vec<i32>>)
    ensures
        vec_view(values) == child_i32_array_spec(*node, name@),
{
    match find_property(node, name) {
        Some(Property::I32Array(values)) => Some(copy_all(values)),
        _ => None,
    }
}

/// The text attached to the first child with the given name.
pub fn child_string(node: &Node, name: &str) -> (value: Option<String>)
    ensures
        text_view(value) == child_string_spec(*node, name@),
{
    match find_property(node, name) {
        Some(Property::Text(value)) => Some(value.clone()),
        _ => None,
    }
}

/// The vertex that a raw polygon index refers to: a negative index `-v - 1`
/// refers to `v` and ends its polygon.
pub open spec fn vertex_of(raw: i32) -> int {
    if raw < 0 {
        -raw - 1
    } else {
        raw as int
    }
}

/// The vertex that a raw polygon index refers to, and whether the index ends
/// its polygon.  `None` for the one index whose negation does not fit.
pub fn decode_polygon_index(raw: i32) -> (decoded: Option<(usize, bool)>)
    ensures
        raw == i32::MIN ==> decoded is None,
        raw != i32::MIN ==> decoded == Some((vertex_of(raw) as usize, raw < 0)),
{
    if raw == i32::MIN {
        None
    } else if raw < 0 {
        Some(((-raw - 1) as usize, true))
    } else {
        Some((raw as usize, false))
    }
}

/// The colors of a geometry node and how polygons refer to them.
#[derive(Debug)]
pub struct FbxColorLayer {
    pub mapping: String,
    pub reference: String,
    pub colors: Vec<Vec3>,
    pub indices: Vec<i32>,
}

/// A color layer with its contents as sequences.
#[verifier::ext_equal]
pub struct ColorLayer {
    pub mapping: Seq<char>,
    pub reference: Seq<char>,
    pub colors: Seq<Vec3>,
    pub indices: Seq<i32>,
}

impl View for FbxColorLayer {
    type V = ColorLayer;

    open spec fn view(&self) -> ColorLayer {
        ColorLayer {
            mapping: self.mapping@,
            reference: self.reference@,
            colors: self.colors@,
            indices: self.indices@,
        }
    }
}

/// The average of three colors where all of them exist.
pub open spec fn average_of(
    math: ArithmeticModel,
    a: Option<Vec3>,
    b: Option<Vec3>,
    c: Option<Vec3>,
) -> Option<Vec3> {
    match (a, b, c) {
        (Some(a), Some(b), Some(c)) => Some(math.mean(a, b, c)),
        _ => None,
    }
}

impl ColorLayer {
    /// Whether colors are reached through the list of indices.
    pub open spec fn is_indexed(self) -> bool {
        self.reference == "IndexToDirect"@ || self.reference == "Index"@
    }

    /// The color in slot `index`.
    pub open spec fn color_at(self, index: int) -> Option<Vec3> {
        let direct = if !self.is_indexed() {
            index
        } else if 0 <= index < self.indices.len() {
            self.indices[index] as int
        } else {
            -1
        };
        if 0 <= direct < self.colors.len() {
            Some(self.colors[direct])
        } else {
            None
        }
    }

    /// The color of the triangle between corners `a`, `b` and `c` of a polygon
    /// whose first corner is number `start` in the list of all corners.
    pub open spec fn polygon_color(
        self,
        math: ArithmeticModel,
        polygon: int,
        a: int,
        b: int,
        c: int,
        start: int,
    ) -> Option<Vec3> {
        if self.mapping == "ByPolygonVertex"@ {
            average_of(
                math,
                self.color_at(start + a),
                self.color_at(start + b),
                self.color_at(start + c),
            )
        } else if self.mapping == "ByPolygon"@ {
            self.color_at(polygon)
        } else if self.mapping == "AllSame"@ {
            self.color_at(0)
        } else {
            None
        }
    }
}

impl FbxColorLayer {
    /// The color in slot `index`.
    pub fn color_at(&self, index: usize) -> (color: Option<Vec3>)
        ensures
            color == self@.color_at(index as int),
    {
        let indexed = same_text(self.reference.as_str(), "IndexToDirect") || same_text(
            self.reference.as_str(),
            "Index",
        );
        let direct: usize = if indexed {
            if index >= self.indices.len() || self.indices[index] < 0 {
                return None;
            }
            self.indices[index] as usize
        } else {
            index
        };
        if direct < self.colors.len() {
            Some(self.colors[direct])
        } else {
            None
        }
    }

    /// The color of the triangle between corners `a`, `b` and `c` of a polygon
    /// whose first corner is number `start` in the list of all corners.
    pub fn polygon_color<F: Fn(Operation, Scalar, Scalar) -> Scalar, N: Fn(Vec3) -> Option<Vec3>>(
        &self,
        math: &Arithmetic<F, N>,
        polygon: usize,
        a: usize,
        b: usize,
        c: usize,
        start: usize,
    ) -> (color: Option<Vec3>)
        requires
            math.wf(),
            start + a <= usize::MAX,
            start + b <= usize::MAX,
            start + c <= usize::MAX,
        ensures
            color == self@.polygon_color(
                math.model(),
                polygon as int,
                a as int,
                b as int,
                c as int,
                start as int,
            ),
    {
        if same_text(self.mapping.as_str(), "ByPolygonVertex") {
            match (self.color_at(start + a), self.color_at(start + b), self.color_at(start + c)) {
                (Some(first), Some(second), Some(third)) => {
                    let color = math.mean(first, second, third);
                    Some(color)
                },
                _ => None,
            }
        } else if same_text(self.mapping.as_str(), "ByPolygon") {
            self.color_at(polygon)
        } else if same_text(self.mapping.as_str(), "AllSame") {
            self.color_at(0)
        } else {
            None
        }
    }
}

/// The color layer of a geometry node.
pub open spec fn color_layer_spec(node: Node) -> Option<ColorLayer> {
    match find_named(node.children@, "LayerElementColor"@) {
        None => None,
        Some(layer) => match either(
            child_f64_array_spec(layer, "Colors"@),
            child_f64_array_spec(layer, "Color"@),
        ) {
            None => None,
            Some(colors) => Some(
                ColorLayer {
                    mapping: value_or(
                        child_string_spec(layer, "MappingInformationType"@),
                        "ByPolygonVertex"@,
                    ),
                    reference: value_or(
                        child_string_spec(layer, "ReferenceInformationType"@),
                        "Direct"@,
                    ),
                    colors: chunk_points(singles(colors), 4),
                    indices: value_or(
                        either(
                            child_i32_array_spec(layer, "ColorIndex"@),
                            child_i32_array_spec(layer, "ColorsIndex"@),
                        ),
                        Seq::empty(),
                    ),
                },
            ),
        },
    }
}

/// The color layer of a geometry node.
pub fn fbx_color_layer(node: &Node) -> (layer: Option<FbxColorLayer>)
    ensures
        layer is None ==> color_layer_spec(*node) is None,
        layer is Some ==> color_layer_spec(*node) == Some(layer.unwrap()@),
{
    let layer = match find_child(node, "LayerElementColor") {
        Some(layer) => layer,
        None => return None,
    };
    let mapping = match child_string(layer, "MappingInformationType") {
        Some(mapping) => mapping,
        None => "ByPolygonVertex".to_owned(),
    };
    let reference = match child_string(layer, "ReferenceInformationType") {
        Some(reference) => reference,
        None => "Direct".to_owned(),
    };
    let raw_colors = match child_f64_array(layer, "Colors") {
        Some(values) => values,
        None => match child_f64_array(layer, "Color") {
            Some(values) => values,
            None => return None,
        },
    };
    let colors = points_from(&round_all(&raw_colors), 4);
    let indices = match child_i32_array(layer, "ColorIndex") {
        Some(values) => values,
        None => match child_i32_array(layer, "ColorsIndex") {
            Some(values) => values,
            None => Vec::new(),
        },
    };
    let found = FbxColorLayer { mapping, reference, colors, indices };
    assert(color_layer_spec(*node).unwrap() =~= found@);
    Some(found)
}

/// A run of the list of raw polygon indices that makes up one polygon.
pub struct Polygon {
    pub start: nat,
    pub corners: nat,
}

/// How many indices follow the last one that ends a polygon.
pub open spec fn open_corners(raw: Seq<i32>) -> nat
    decreases raw.len(),
{
    if raw.len() == 0 || raw.last() < 0 {
        0
    } else {
        open_corners(raw.drop_last()) + 1
    }
}

/// The polygons of a list of raw polygon indices, in order.  Indices behind the
/// last one that ends a polygon belong to none.
pub open spec fn polygons(raw: Seq<i32>) -> Seq<Polygon>
    decreases raw.len(),
{
    if raw.len() == 0 {
        Seq::empty()
    } else {
        let before = polygons(raw.drop_last());
        if raw.last() < 0 {
            let corners = open_corners(raw.drop_last()) + 1;
            before.push(Polygon { start: (raw.len() - corners) as nat, corners })
        } else {
            before
        }
    }
}

/// Whether `polygon` is a run of `raw` that ends at its only negative index.
pub open spec fn is_run(raw: Seq<i32>, polygon: Polygon) -> bool {
    &&& polygon.corners > 0
    &&& polygon.start + polygon.corners <= raw.len()
    &&& raw[polygon.start + polygon.corners - 1] < 0
    &&& forall|i: int|
        polygon.start <= i < polygon.start + polygon.corners - 1 ==> #[trigger] raw[i] >= 0
}

/// Where a polygon starts: where the one before it ends.
pub open spec fn follows(listed: Seq<Polygon>, p: int) -> bool {
    listed[p].start == if p == 0 {
        0
    } else {
        listed[p - 1].start + listed[p - 1].corners
    }
}

/// Where the last of some polygons ends.
pub open spec fn end_of(listed: Seq<Polygon>) -> nat {
    if listed.len() == 0 {
        0
    } else {
        listed.last().start + listed.last().corners
    }
}

/// The polygons follow one another without gaps from the first index on, each
/// is a run up to the next negative index, and only indices without a negative
/// one behind them are left over.
pub proof fn lemma_polygons_tile_the_indices(raw: Seq<i32>)
    ensures
        forall|p: int|
            0 <= p < polygons(raw).len() ==> is_run(raw, #[trigger] polygons(raw)[p]),
        forall|p: int| 0 <= p < polygons(raw).len() ==> #[trigger] follows(polygons(raw), p),
        end_of(polygons(raw)) + open_corners(raw) == raw.len(),
        forall|i: int| end_of(polygons(raw)) <= i < raw.len() ==> #[trigger] raw[i] >= 0,
    decreases raw.len(),
{
    if raw.len() > 0 {
        let front = raw.drop_last();
        lemma_polygons_tile_the_indices(front);
        let before = polygons(front);
        let listed = polygons(raw);
        assert forall|p: int| 0 <= p < listed.len() implies is_run(raw, #[trigger] listed[p]) by {
            let polygon = listed[p];
            if p < before.len() {
                assert(is_run(front, before[p]));
            }
            assert forall|i: int|
                polygon.start <= i < polygon.start + polygon.corners
                    - 1 implies #[trigger] raw[i] >= 0 by {
                assert(front[i] == raw[i]);
            }
        }
        assert forall|p: int| 0 <= p < listed.len() implies #[trigger] follows(listed, p) by {
            if p < before.len() {
                assert(follows(before, p));
            }
        }
        assert forall|i: int| end_of(listed) <= i < raw.len() implies #[trigger] raw[i] >= 0 by {
            if i < front.len() {
                assert(front[i] == raw[i]);
            }
        }
    }
}

/// How many triangles a fan over a polygon has.
pub open spec fn fan_size(corners: nat) -> nat {
    if corners < 3 {
        0
    } else {
        (corners - 2) as nat
    }
}

/// Triangle `t` of the fan over a polygon: its first corner, corner `t + 1` and
/// the one behind it.
pub open spec fn fan_face(
    raw: Seq<i32>,
    layer: Option<ColorLayer>,
    math: ArithmeticModel,
    polygon: Polygon,
    number: int,
    t: int,
) -> IndexedFace {
    let color = match layer {
        Some(layer) => layer.polygon_color(
            math,
            number,
            0,
            t + 1,
            t + 2,
            polygon.start as int,
        ),
        None => None,
    };
    IndexedFace {
        a: vertex_of(raw[polygon.start as int]) as usize,
        b: vertex_of(raw[polygon.start + t + 1]) as usize,
        c: vertex_of(raw[polygon.start + t + 2]) as usize,
        color: value_or(color, white_spec()),
    }
}

/// The triangles of the fan over a polygon.
pub open spec fn fan(
    raw: Seq<i32>,
    layer: Option<ColorLayer>,
    math: ArithmeticModel,
    polygon: Polygon,
    number: int,
) -> Seq<IndexedFace> {
    Seq::new(
        fan_size(polygon.corners),
        |t: int| fan_face(raw, layer, math, polygon, number, t),
    )
}

/// The triangles of the fans over `listed`, in order.
pub open spec fn fans(
    raw: Seq<i32>,
    layer: Option<ColorLayer>,
    math: ArithmeticModel,
    listed: Seq<Polygon>,
) -> Seq<IndexedFace>
    decreases listed.len(),
{
    if listed.len() == 0 {
        Seq::empty()
    } else {
        fans(raw, layer, math, listed.drop_last()) + fan(
            raw,
            layer,
            math,
            listed.last(),
            listed.len() - 1,
        )
    }
}

/// Whether every raw polygon index refers to a vertex.
pub open spec fn decodable(raw: Seq<i32>) -> bool {
    forall|i: int| 0 <= i < raw.len() ==> #[trigger] raw[i] != i32::MIN
}

/// The view of an optional color layer.
pub open spec fn layer_view(layer: Option<FbxColorLayer>) -> Option<ColorLayer> {
    match layer {
        Some(layer) => Some(layer@),
        None => None,
    }
}

/// Appends the fan over one polygon.
fn push_fan<F: Fn(Operation, Scalar, Scalar) -> Scalar, N: Fn(Vec3) -> Option<Vec3>>(
    raw: &Vec<i32>,
    layer: &Option<FbxColorLayer>,
    math: &Arithmetic<F, N>,
    start: usize,
    corners: usize,
    number: usize,
    faces: &mut Vec<IndexedFace>,
)
    requires
        math.wf(),
        decodable(raw@),
        start + corners <= raw@.len(),
    ensures
        final(faces)@ == old(faces)@ + fan(
            raw@,
            layer_view(*layer),
            math.model(),
            Polygon { start: start as nat, corners: corners as nat },
            number as int,
        ),
{
    let ghost polygon = Polygon { start: start as nat, corners: corners as nat };
    let ghost all = fan(raw@, layer_view(*layer), math.model(), polygon, number as int);
    let ghost before = faces@;
    if corners < 3 {
        assert(faces@ =~= before + all);
        return ;
    }
    let mut local: usize = 1;
    let total: usize = raw.len();
    assert(before + all.take(0) =~= before);
    while local < corners - 1
        invariant
            math.wf(),
            decodable(raw@),
            3 <= corners,
            start + corners <= total == raw@.len(),
            1 <= local <= corners - 1,
            polygon == (Polygon { start: start as nat, corners: corners as nat }),
            all == fan(raw@, layer_view(*layer), math.model(), polygon, number as int),
            faces@ == before + all.take(local - 1),
        decreases corners - local,
    {
        let found = match layer {
            Some(layer) => layer.polygon_color(math, number, 0, local, local + 1, start),
            None => None,
        };
        let color = match found {
            Some(color) => color,
            None => white(),
        };
        let first: i32 = raw[start];
        let second: i32 = raw[start + local];
        let third: i32 = raw[start + local + 1];
        match (
            decode_polygon_index(first),
            decode_polygon_index(second),
            decode_polygon_index(third),
        ) {
            (Some((a, _)), Some((b, _)), Some((c, _))) => {
                let face = IndexedFace { a, b, c, color };
                assert(face == all[local - 1]);
                faces.push(face);
            },
            _ => {
                assert(false);
            },
        }
        assert(faces@ =~= before + all.take(local as int));
        local += 1;
    }
    assert(faces@ =~= before + all);
}

/// What a geometry node holds, if it has vertices and polygons.
pub open spec fn parse_fbx_geometry_spec(
    node: Node,
    math: ArithmeticModel,
) -> Option<GeometrySpec> {
    match (
        child_f64_array_spec(node, "Vertices"@),
        child_i32_array_spec(node, "PolygonVertexIndex"@),
    ) {
        (Some(vertices), Some(raw)) => Some(
            GeometrySpec {
                positions: chunk_points(singles(vertices), 3),
                faces: fans(raw, color_layer_spec(node), math, polygons(raw)),
                source: if color_layer_spec(node) is Some {
                    ColorSource::FbxLayerElementColor
                } else {
                    ColorSource::Uncolored
                },
            },
        ),
        _ => None,
    }
}

/// Whether the polygons of a geometry node refer to vertices only.
pub open spec fn is_decodable(node: Node) -> bool {
    child_i32_array_spec(node, "PolygonVertexIndex"@) is Some ==> decodable(
        child_i32_array_spec(node, "PolygonVertexIndex"@).unwrap(),
    )
}

/// Reads the positions and triangles of a geometry node.  Polygons become fans
/// of triangles; corners without a color in the color layer make a triangle
/// white.  `None` when the node has no vertices or no polygons.
pub fn parse_fbx_geometry<
    F: Fn(Operation, Scalar, Scalar) -> Scalar,
    N: Fn(Vec3) -> Option<Vec3>,
>(node: &Node, math: &Arithmetic<F, N>) -> (parsed: Option<Geometry>)
    requires
        math.wf(),
        is_decodable(*node),
    ensures
        parsed is None ==> parse_fbx_geometry_spec(*node, math.model()) is None,
        parsed is Some ==> parse_fbx_geometry_spec(*node, math.model()) == Some(
            parsed.unwrap()@,
        ),
{
    let vertices = match child_f64_array(node, "Vertices") {
        Some(vertices) => vertices,
        None => return None,
    };
    let raw = match child_i32_array(node, "PolygonVertexIndex") {
        Some(raw) => raw,
        None => return None,
    };
    let positions = points_from(&round_all(&vertices), 3);
    let layer = fbx_color_layer(node);
    let source = match &layer {
        Some(_) => ColorSource::FbxLayerElementColor,
        None => ColorSource::Uncolored,
    };
    let ghost colors = layer_view(layer);

    let mut faces: Vec<IndexedFace> = Vec::new();
    let mut start: usize = 0;
    let mut number: usize = 0;
    let mut next: usize = 0;
    while next < raw.len()
        invariant
            math.wf(),
            decodable(raw@),
            colors == layer_view(layer),
            start <= next <= raw@.len(),
            number <= next,
            next - start == open_corners(raw@.take(next as int)),
            number == polygons(raw@.take(next as int)).len(),
            faces@ == fans(raw@, colors, math.model(), polygons(raw@.take(next as int))),
        decreases raw@.len() - next,
    {
        let ghost seen = raw@.take(next + 1);
        assert(seen.drop_last() =~= raw@.take(next as int));
        if raw[next] < 0 {
            let ghost listed = polygons(raw@.take(next as int));
            push_fan(&raw, &layer, math, start, next + 1 - start, number, &mut faces);
            assert(polygons(seen).drop_last() =~= listed);
            start = next + 1;
            number += 1;
        }
        next += 1;
    }
    assert(raw@.take(next as int) =~= raw@);
    Some(Geometry { positions, faces, source })
}

/// The nodes named `Geometry` in the trees of `roots`, in order.
pub open spec fn all_geometry_nodes(roots: Seq<Node>) -> Seq<Node>
    decreases roots.len(),
{
    if roots.len() == 0 {
        Seq::empty()
    } else {
        all_geometry_nodes(roots.drop_last()) + geometry_nodes_spec(roots.last())
    }
}

/// The geometry nodes taken together: vertices one behind the other, triangles
/// between the vertices of their own node, and the last color source that is
/// one.  Nodes without vertices or polygons add nothing.
pub open spec fn fbx_geometry(
    nodes: Seq<Node>,
    math: ArithmeticModel,
) -> GeometrySpec
    decreases nodes.len(),
{
    if nodes.len() == 0 {
        GeometrySpec {
            positions: Seq::empty(),
            faces: Seq::empty(),
            source: ColorSource::Uncolored,
        }
    } else {
        let before = fbx_geometry(nodes.drop_last(), math);
        match parse_fbx_geometry_spec(nodes.last(), math) {
            None => before,
            Some(own) => GeometrySpec {
                positions: before.positions + own.positions,
                faces: before.faces + own.faces.map_values(
                    |face: IndexedFace| face_from_spec(before.positions.len() as int, face),
                ),
                source: if own.source != ColorSource::Uncolored {
                    own.source
                } else {
                    before.source
                },
            },
        }
    }
}

/// Whether the vertex numbers of `faces` fit when `base` is added to them.
pub open spec fn faces_fit(base: nat, faces: Seq<IndexedFace>) -> bool {
    forall|i: int|
        0 <= i < faces.len() ==> {
            let face = #[trigger] faces[i];
            base + face.a <= usize::MAX && base + face.b <= usize::MAX && base + face.c
                <= usize::MAX
        }
}

/// Whether the polygons of geometry node `n` refer to vertices only, by numbers
/// that fit when they are counted over all nodes.
pub open spec fn can_gather(
    nodes: Seq<Node>,
    math: ArithmeticModel,
    n: int,
) -> bool {
    &&& is_decodable(nodes[n])
    &&& parse_fbx_geometry_spec(nodes[n], math) is Some ==> faces_fit(
        fbx_geometry(nodes.take(n), math).positions.len(),
        parse_fbx_geometry_spec(nodes[n], math).unwrap().faces,
    )
}

/// Appends triangles with their vertex numbers raised by `base`.
fn push_raised(faces: &mut Vec<IndexedFace>, base: usize, own: &Vec<IndexedFace>)
    requires
        faces_fit(base as nat, own@),
    ensures
        final(faces)@ == old(faces)@ + own@.map_values(
            |face: IndexedFace| face_from_spec(base as int, face),
        ),
{
    let ghost before = faces@;
    let ghost all = own@.map_values(|face: IndexedFace| face_from_spec(base as int, face));
    let mut next: usize = 0;
    assert(before + all.take(0) =~= before);
    while next < own.len()
        invariant
            faces_fit(base as nat, own@),
            all == own@.map_values(|face: IndexedFace| face_from_spec(base as int, face)),
            next <= own@.len(),
            faces@ == before + all.take(next as int),
        decreases own@.len() - next,
    {
        let face = own[next];
        assert(face == own@[next as int]);
        faces.push(face_from(base, face));
        assert(faces@ =~= before + all.take(next + 1));
        next += 1;
    }
    assert(faces@ =~= before + all);
}

/// Takes the geometry nodes below `roots` together.
pub fn gather_fbx<
    F: Fn(Operation, Scalar, Scalar) -> Scalar,
    N: Fn(Vec3) -> Option<Vec3>,
>(roots: &Vec<Node>, math: &Arithmetic<F, N>) -> (geometry: Geometry)
    requires
        math.wf(),
        forall|n: int|
            0 <= n < all_geometry_nodes(roots@).len() ==> #[trigger] can_gather(
                all_geometry_nodes(roots@),
                math.model(),
                n,
            ),
    ensures
        geometry@ == fbx_geometry(all_geometry_nodes(roots@), math.model()),
{
    let mut nodes: Vec<&Node> = Vec::new();
    let mut root: usize = 0;
    assert(pointees(nodes@) =~= Seq::<Node>::empty());
    while root < roots.len()
        invariant
            root <= roots@.len(),
            pointees(nodes@) == all_geometry_nodes(roots@.take(root as int)),
        decreases roots@.len() - root,
    {
        assert(roots@.take(root + 1).drop_last() =~= roots@.take(root as int));
        collect_geometry_nodes(&roots[root], &mut nodes);
        root += 1;
    }
    assert(roots@.take(root as int) =~= roots@);
    let ghost all = all_geometry_nodes(roots@);

    let mut positions: Vec<Vec3> = Vec::new();
    let mut faces: Vec<IndexedFace> = Vec::new();
    let mut source = ColorSource::Uncolored;
    let mut next: usize = 0;
    while next < nodes.len()
        invariant
            math.wf(),
            forall|n: int| 0 <= n < all.len() ==> #[trigger] can_gather(all, math.model(), n),
            pointees(nodes@) == all,
            next <= nodes@.len(),
            fbx_geometry(all.take(next as int), math.model()) == (GeometrySpec {
                positions: positions@,
                faces: faces@,
                source,
            }),
        decreases nodes@.len() - next,
    {
        let node = nodes[next];
        assert(*node == pointees(nodes@)[next as int]);
        assert(can_gather(all, math.model(), next as int));
        assert(all.take(next + 1).drop_last() =~= all.take(next as int));
        if let Some(own) = parse_fbx_geometry(node, math) {
            let base: usize = positions.len();
            extend_vec(&mut positions, &own.positions);
            if own.source != ColorSource::Uncolored {
                source = own.source;
            }
            push_raised(&mut faces, base, &own.faces);
        }
        next += 1;
    }
    assert(all.take(next as int) =~= all);
    Geometry { positions, faces, source }
}

impl Mesh {
    /// Makes a mesh of the geometry nodes of an FBX file.
    pub fn load_fbx<F, N>(roots: &Vec<Node>, math: &Arithmetic<F, N>) -> (mesh: Result<
        Mesh,
        GeometryError,
    >) where
        F: Fn(Operation, Scalar, Scalar) -> Scalar,
        N: Fn(Vec3) -> Option<Vec3>,

        requires
            math.wf(),
            forall|n: int|
                0 <= n < all_geometry_nodes(roots@).len() ==> #[trigger] can_gather(
                    all_geometry_nodes(roots@),
                    math.model(),
                    n,
                ),
            ({
                let geometry = fbx_geometry(all_geometry_nodes(roots@), math.model());
                geometry.positions.len() > 0 ==> geometry.is_closed()
            }),
        ensures
            mesh_view(mesh) == fbx_geometry(
                all_geometry_nodes(roots@),
                math.model(),
            ).assembled(math.model()),
            mesh matches Ok(mesh) ==> crate::geometry::has_unit_normals(
                math.model(),
                mesh.triangles@,
            ),
    {
        let geometry = gather_fbx(roots, math);
        Mesh::from_positions_and_faces(&geometry, math)
    }
}

/// How many of the first `n` raw polygon indices end a polygon.
pub open spec fn ends_before(raw: Seq<i32>, n: int) -> int
    decreases n,
{
    if n <= 0 {
        0
    } else if raw[n - 1] < 0 {
        ends_before(raw, n - 1) + 1
    } else {
        ends_before(raw, n - 1)
    }
}

/// Whether the raw indices from `start` up to, but not including, `end` are the polygon
/// with the given number: it starts where the one before it ends, its last index is
/// negative and no other, and as many polygons end before it.
pub open spec fn is_polygon(raw: Seq<i32>, number: int, start: int, end: int) -> bool {
    &&& 0 <= start < end <= raw.len()
    &&& start > 0 ==> raw[start - 1] < 0
    &&& raw[end - 1] < 0
    &&& forall|i: int| start <= i < end - 1 ==> #[trigger] raw[i] >= 0
    &&& ends_before(raw, start) == number
}

/// A triangle of the fan over a polygon: between the index at `start` and those at
/// `corner` and behind it.
pub struct FanPlace {
    pub polygon: int,
    pub start: int,
    pub end: int,
    pub corner: int,
}

/// Whether a polygon has such a triangle.
pub open spec fn is_fan_place(raw: Seq<i32>, place: FanPlace) -> bool {
    &&& is_polygon(raw, place.polygon, place.start, place.end)
    &&& place.start < place.corner
    &&& place.corner + 1 < place.end
}

/// Whether slot `slot` of a color layer holds a color.  Slots number the colors
/// themselves, or with a reference through indices the indices into the colors.
pub open spec fn holds_color(layer: ColorLayer, slot: int, color: Vec3) -> bool {
    if layer.reference == "IndexToDirect"@ || layer.reference == "Index"@ {
        &&& 0 <= slot < layer.indices.len()
        &&& 0 <= layer.indices[slot] < layer.colors.len()
        &&& color == layer.colors[layer.indices[slot] as int]
    } else {
        &&& 0 <= slot < layer.colors.len()
        &&& color == layer.colors[slot]
    }
}

/// Whether a color is white.
pub open spec fn is_white(color: Vec3) -> bool {
    color.x.bits == 0x3f80_0000 && color.y.bits == 0x3f80_0000 && color.z.bits == 0x3f80_0000
}

/// Whether a triangle has the color that a layer has for it.  With a color for each
/// polygon vertex that is the mean of the colors in the slots `i`, `j` and `k`, where the
/// raw indices of the corners stand as well; with a color for each polygon that in the
/// slot of the polygon's number; with one color for all that in the first slot.  Without
/// such a color the triangle is white.
pub open spec fn is_colored(
    layer: Option<ColorLayer>,
    math: ArithmeticModel,
    number: int,
    i: int,
    j: int,
    k: int,
    color: Vec3,
) -> bool {
    match layer {
        None => is_white(color),
        Some(layer) => {
            let unlit = |slot: int| forall|q: Vec3| !#[trigger] holds_color(layer, slot, q);
            if layer.mapping == "ByPolygonVertex"@ {
                &&& forall|p: Vec3, q: Vec3, r: Vec3|
                    #[trigger] holds_color(layer, i, p) && #[trigger] holds_color(layer, j, q)
                        && #[trigger] holds_color(layer, k, r) ==> color == math.mean(p, q, r)
                &&& unlit(i) || unlit(j) || unlit(k) ==> is_white(color)
            } else if layer.mapping == "ByPolygon"@ {
                &&& forall|q: Vec3| #[trigger] holds_color(layer, number, q) ==> color == q
                &&& unlit(number) ==> is_white(color)
            } else if layer.mapping == "AllSame"@ {
                &&& forall|q: Vec3| #[trigger] holds_color(layer, 0, q) ==> color == q
                &&& unlit(0) ==> is_white(color)
            } else {
                is_white(color)
            }
        },
    }
}

/// Whether a raw index refers to a vertex: it is the number of the vertex, or where it
/// ends its polygon the number's complement.
pub open spec fn refers_to(raw: i32, vertex: usize) -> bool {
    if raw >= 0 {
        raw == vertex
    } else {
        raw == -1 - vertex
    }
}

/// Whether a face is the triangle at a place: its corners are read from three positions
/// in the list of raw indices, and its color from the slots at the same positions.
pub open spec fn is_fan_triangle(
    raw: Seq<i32>,
    layer: Option<ColorLayer>,
    math: ArithmeticModel,
    place: FanPlace,
    face: IndexedFace,
) -> bool {
    &&& refers_to(raw[place.start], face.a)
    &&& refers_to(raw[place.corner], face.b)
    &&& refers_to(raw[place.corner + 1], face.c)
    &&& is_colored(
        layer,
        math,
        place.polygon,
        place.start,
        place.corner,
        place.corner + 1,
        face.color,
    )
}

proof fn lemma_inner_indices_end_nothing(raw: Seq<i32>, from: int, to: int)
    requires
        0 <= from <= to <= raw.len(),
        forall|i: int| from <= i < to ==> #[trigger] raw[i] >= 0,
    ensures
        ends_before(raw, to) == ends_before(raw, from),
    decreases to - from,
{
    if from < to {
        lemma_inner_indices_end_nothing(raw, from, to - 1);
    }
}

proof fn lemma_ends_add_up(raw: Seq<i32>, from: int, to: int)
    requires
        0 <= from <= to,
    ensures
        ends_before(raw, from) <= ends_before(raw, to),
    decreases to - from,
{
    if from < to {
        lemma_ends_add_up(raw, from, to - 1);
    }
}

proof fn lemma_ends_of_prefix(raw: Seq<i32>, n: int, m: int)
    requires
        0 <= m <= n <= raw.len(),
    ensures
        ends_before(raw.take(n), m) == ends_before(raw, m),
    decreases m,
{
    if m > 0 {
        lemma_ends_of_prefix(raw, n, m - 1);
    }
}

proof fn lemma_polygons_are_counted(raw: Seq<i32>)
    ensures
        polygons(raw).len() == ends_before(raw, raw.len() as int),
    decreases raw.len(),
{
    if raw.len() > 0 {
        lemma_polygons_are_counted(raw.drop_last());
        assert(raw.drop_last() =~= raw.take(raw.len() - 1));
        lemma_ends_of_prefix(raw, raw.len() - 1, raw.len() - 1);
    }
}

/// The polygons that are read are those in the list: number `p` of them is the run of
/// indices that comes behind `p` ends and goes on to the next.
pub proof fn lemma_polygons_are_numbered(raw: Seq<i32>, p: int)
    requires
        0 <= p < polygons(raw).len(),
    ensures
        is_polygon(
            raw,
            p,
            polygons(raw)[p].start as int,
            (polygons(raw)[p].start + polygons(raw)[p].corners) as int,
        ),
    decreases p,
{
    lemma_polygons_tile_the_indices(raw);
    let listed = polygons(raw);
    assert(follows(listed, p) && is_run(raw, listed[p]));
    if p > 0 {
        lemma_polygons_are_numbered(raw, p - 1);
        let before = listed[p - 1];
        lemma_inner_indices_end_nothing(
            raw,
            before.start as int,
            before.start + before.corners - 1,
        );
    }
}

/// No other run of the list is a polygon.
proof fn lemma_polygons_are_all_read(raw: Seq<i32>, number: int, start: int, end: int)
    requires
        is_polygon(raw, number, start, end),
    ensures
        0 <= number < polygons(raw).len(),
        polygons(raw)[number].start == start,
        polygons(raw)[number].start + polygons(raw)[number].corners == end,
{
    lemma_polygons_are_counted(raw);
    lemma_ends_add_up(raw, 0, start);
    lemma_inner_indices_end_nothing(raw, start, end - 1);
    lemma_ends_add_up(raw, end, raw.len() as int);
    lemma_polygons_are_numbered(raw, number);
    let found = polygons(raw)[number];
    let first = found.start as int;
    let last = found.start + found.corners;
    if first < start {
        lemma_ends_add_up(raw, first, start - 1);
    }
    if start < first {
        lemma_ends_add_up(raw, start, first - 1);
    }
    assert(first == start);
    if last < end {
        assert(raw[last - 1] >= 0);
    }
    if end < last {
        assert(raw[end - 1] >= 0);
    }
}

proof fn lemma_fan_face_is_at_its_place(
    raw: Seq<i32>,
    layer: Option<ColorLayer>,
    math: ArithmeticModel,
    number: int,
    t: int,
)
    requires
        decodable(raw),
        0 <= number < polygons(raw).len(),
        0 <= t < fan_size(polygons(raw)[number].corners),
    ensures
        ({
            let polygon = polygons(raw)[number];
            let place = FanPlace {
                polygon: number,
                start: polygon.start as int,
                end: (polygon.start + polygon.corners) as int,
                corner: polygon.start + t + 1,
            };
            &&& is_fan_place(raw, place)
            &&& is_fan_triangle(
                raw,
                layer,
                math,
                place,
                fan_face(raw, layer, math, polygon, number, t),
            )
        }),
{
    lemma_polygons_are_numbered(raw, number);
    let polygon = polygons(raw)[number];
    let start = polygon.start as int;
    assert(raw[start] != i32::MIN && raw[start + t + 1] != i32::MIN && raw[start + t + 2]
        != i32::MIN);
    match layer {
        None => {},
        Some(layer) => {
            lemma_slots_are_read(layer, start);
            lemma_slots_are_read(layer, start + t + 1);
            lemma_slots_are_read(layer, start + t + 2);
            lemma_slots_are_read(layer, number);
            lemma_slots_are_read(layer, 0);
        },
    }
}

/// What a color layer has in a slot.
pub proof fn lemma_slots_are_read(layer: ColorLayer, slot: int)
    ensures
        forall|q: Vec3| #[trigger] holds_color(layer, slot, q) <==> layer.color_at(slot) == Some(q),
        layer.color_at(slot) is None <==> forall|q: Vec3|
            !#[trigger] holds_color(layer, slot, q),
{
    if layer.color_at(slot) is Some {
        assert(holds_color(layer, slot, layer.color_at(slot).unwrap()));
    }
}

proof fn lemma_first_fans_are_placed(
    raw: Seq<i32>,
    layer: Option<ColorLayer>,
    math: ArithmeticModel,
    n: int,
) -> (places: Seq<FanPlace>)
    requires
        decodable(raw),
        0 <= n <= polygons(raw).len(),
    ensures
        ({
            let faces = fans(raw, layer, math, polygons(raw).take(n));
            &&& places.len() == faces.len()
            &&& forall|f: int|
                0 <= f < places.len() ==> is_fan_place(raw, #[trigger] places[f])
                    && places[f].polygon < n
            &&& forall|f: int|
                0 <= f < places.len() ==> is_fan_triangle(
                    raw,
                    layer,
                    math,
                    places[f],
                    #[trigger] faces[f],
                )
            &&& forall|f: int, g: int|
                0 <= f < g < places.len() ==> #[trigger] places[f].corner
                    < #[trigger] places[g].corner
            &&& forall|f: int|
                0 <= f < places.len() ==> (#[trigger] places[f]).corner < if n
                    == polygons(raw).len() {
                    raw.len() as int
                } else {
                    polygons(raw)[n].start as int
                }
            &&& forall|place: FanPlace| #[trigger]
                is_fan_place(raw, place) && place.polygon < n ==> places.contains(place)
        }),
    decreases n,
{
    let listed = polygons(raw);
    lemma_polygons_tile_the_indices(raw);
    if n == 0 {
        assert forall|place: FanPlace| !(#[trigger] is_fan_place(raw, place) && place.polygon
            < 0) by {
            if is_fan_place(raw, place) {
                lemma_ends_add_up(raw, 0, place.start);
            }
        }
        Seq::empty()
    } else {
        let before = lemma_first_fans_are_placed(raw, layer, math, n - 1);
        let polygon = listed[n - 1];
        assert(listed.take(n).drop_last() =~= listed.take(n - 1));
        assert(is_run(raw, polygon));
        if n < listed.len() {
            assert(follows(listed, n));
        }
        let own = Seq::new(
            fan_size(polygon.corners),
            |t: int|
                FanPlace {
                    polygon: n - 1,
                    start: polygon.start as int,
                    end: (polygon.start + polygon.corners) as int,
                    corner: polygon.start + t + 1,
                },
        );
        let places = before + own;
        let faces = fans(raw, layer, math, listed.take(n));
        let first = fans(raw, layer, math, listed.take(n - 1));
        assert(faces =~= first + fan(raw, layer, math, polygon, n - 1));
        assert forall|f: int| 0 <= f < places.len() implies is_fan_place(raw, #[trigger] places[f])
            && places[f].polygon < n by {
            if f < before.len() {
                assert(places[f] == before[f]);
            } else {
                lemma_fan_face_is_at_its_place(raw, layer, math, n - 1, f - before.len());
            }
        }
        assert forall|f: int| 0 <= f < places.len() implies is_fan_triangle(
            raw,
            layer,
            math,
            places[f],
            #[trigger] faces[f],
        ) by {
            if f < before.len() {
                assert(places[f] == before[f] && faces[f] == first[f]);
            } else {
                lemma_fan_face_is_at_its_place(raw, layer, math, n - 1, f - before.len());
            }
        }
        assert forall|f: int, g: int| 0 <= f < g < places.len() implies #[trigger] places[f].corner
            < #[trigger] places[g].corner by {
            if g < before.len() {
                assert(before[f].corner < before[g].corner);
            } else if f < before.len() {
                assert(before[f].corner < polygon.start);
            }
        }
        assert forall|f: int| 0 <= f < places.len() implies (#[trigger] places[f]).corner < if n
            == listed.len() {
            raw.len() as int
        } else {
            listed[n].start as int
        } by {
            if f < before.len() {
                assert(before[f].corner < polygon.start);
            }
        }
        assert forall|place: FanPlace| #[trigger]
            is_fan_place(raw, place) && place.polygon < n implies places.contains(place) by {
            if place.polygon < n - 1 {
                assert(before.contains(place));
                let f = choose|f: int| 0 <= f < before.len() && before[f] == place;
                assert(places[f] == place);
            } else {
                lemma_polygons_are_all_read(raw, place.polygon, place.start, place.end);
                let t = place.corner - place.start - 1;
                assert(own[t] == place);
                assert(places[before.len() + t] == place);
            }
        }
        places
    }
}

/// What the polygons of a geometry node become.  Each polygon becomes the triangles of
/// its fan, no triangle is left out, none is added and they stay in order.  A triangle
/// reads its corners from three positions in the list of raw indices and, with a color
/// for each polygon vertex, its color from the slots at the same three positions.
pub proof fn lemma_corners_and_colors_share_positions(
    raw: Seq<i32>,
    layer: Option<ColorLayer>,
    math: ArithmeticModel,
) -> (places: Seq<FanPlace>)
    requires
        decodable(raw),
    ensures
        ({
            let faces = fans(raw, layer, math, polygons(raw));
            &&& places.len() == faces.len()
            &&& forall|f: int|
                0 <= f < places.len() ==> is_fan_place(raw, #[trigger] places[f])
            &&& forall|f: int|
                0 <= f < places.len() ==> is_fan_triangle(
                    raw,
                    layer,
                    math,
                    places[f],
                    #[trigger] faces[f],
                )
            &&& forall|f: int, g: int|
                0 <= f < g < places.len() ==> #[trigger] places[f].corner
                    < #[trigger] places[g].corner
            &&& forall|place: FanPlace| #[trigger]
                is_fan_place(raw, place) ==> places.contains(place)
        }),
{
    let n = polygons(raw).len() as int;
    assert(polygons(raw).take(n) =~= polygons(raw));
    let places = lemma_first_fans_are_placed(raw, layer, math, n);
    assert forall|place: FanPlace| #[trigger] is_fan_place(raw, place) implies places.contains(
        place,
    ) by {
        lemma_polygons_are_all_read(raw, place.polygon, place.start, place.end);
    }
    places
}

/// With a color of its own for each polygon vertex, a triangle whose three corners hold
/// the color `q` has the mean of `q`, `q` and `q`, whatever colors other corners hold.
pub proof fn lemma_even_colors_stay(
    raw: Seq<i32>,
    layer: ColorLayer,
    math: ArithmeticModel,
    place: FanPlace,
    q: Vec3,
) -> (f: int)
    requires
        decodable(raw),
        is_fan_place(raw, place),
        layer.mapping == "ByPolygonVertex"@,
        layer.reference == "Direct"@,
        layer.colors.len() == raw.len(),
        layer.colors[place.start] == q,
        layer.colors[place.corner] == q,
        layer.colors[place.corner + 1] == q,
    ensures
        ({
            let faces = fans(raw, Some(layer), math, polygons(raw));
            let over = |x: Scalar| (math.compute)(
                Operation::Quotient,
                (math.compute)(Operation::Sum, (math.compute)(Operation::Sum, x, x), x),
                Scalar { bits: 0x4040_0000 },
            );
            &&& 0 <= f < faces.len()
            &&& refers_to(raw[place.start], faces[f].a)
            &&& refers_to(raw[place.corner], faces[f].b)
            &&& refers_to(raw[place.corner + 1], faces[f].c)
            &&& faces[f].color == (Vec3 { x: over(q.x), y: over(q.y), z: over(q.z) })
        }),
{
    let places = lemma_corners_and_colors_share_positions(raw, Some(layer), math);
    assert(places.contains(place));
    let f = choose|f: int| 0 <= f < places.len() && places[f] == place;
    let faces = fans(raw, Some(layer), math, polygons(raw));
    assert(is_fan_triangle(raw, Some(layer), math, place, faces[f]));
    reveal_strlit("Direct");
    reveal_strlit("IndexToDirect");
    reveal_strlit("Index");
    assert("Direct"@.len() == 6 && "IndexToDirect"@.len() == 13 && "Index"@.len() == 5);
    assert(holds_color(layer, place.start, q));
    assert(holds_color(layer, place.corner, q));
    assert(holds_color(layer, place.corner + 1, q));
    f
}

/// The child that is found by name is the first one with the name; none is found only
/// where no child has it.
pub proof fn lemma_first_child_is_found(children: Seq<Node>, name: Seq<char>) -> (at: int)
    ensures
        match find_named(children, name) {
            Some(child) => {
                &&& 0 <= at < children.len()
                &&& child == children[at]
                &&& children[at].name@ == name
                &&& forall|i: int| 0 <= i < at ==> (#[trigger] children[i]).name@ != name
            },
            None => forall|i: int|
                0 <= i < children.len() ==> (#[trigger] children[i]).name@ != name,
        },
    decreases children.len(),
{
    if children.len() == 0 || children[0].name@ == name {
        0
    } else {
        let rest = children.drop_first();
        let at = lemma_first_child_is_found(rest, name) + 1;
        assert forall|i: int|
            0 <= i < children.len() && (find_named(rest, name) is None || i < at) implies (
        #[trigger] children[i]).name@ != name by {
            if i > 0 {
                assert(rest[i - 1] == children[i]);
            }
        }
        at
    }
}

/// A value is read from the first child with a name, where that child has values and the
/// first of them is of the right kind.
pub proof fn lemma_first_values_are_read(node: Node, child: Node, name: Seq<char>, at: int)
    requires
        0 <= at < node.children@.len(),
        node.children@[at] == child,
        child.name@ == name,
        forall|i: int| 0 <= i < at ==> (#[trigger] node.children@[i]).name@ != name,
    ensures
        child.properties@.len() == 0 ==> child_i32_array_spec(node, name) is None
            && child_f64_array_spec(node, name) is None && child_string_spec(node, name) is None,
        child.properties@.len() > 0 ==> match child.properties@[0] {
            Property::I32Array(values) => child_i32_array_spec(node, name) == Some(values@)
                && child_f64_array_spec(node, name) is None && child_string_spec(node, name)
                is None,
            Property::FloatArray(values) => child_f64_array_spec(node, name) == Some(values@)
                && child_i32_array_spec(node, name) is None && child_string_spec(node, name)
                is None,
            Property::Text(value) => child_string_spec(node, name) == Some(value@)
                && child_i32_array_spec(node, name) is None && child_f64_array_spec(node, name)
                is None,
            Property::Other => child_i32_array_spec(node, name) is None && child_f64_array_spec(
                node,
                name,
            ) is None && child_string_spec(node, name) is None,
        },
{
    let found = lemma_first_child_is_found(node.children@, name);
    if found < at {
        assert(node.children@[found].name@ != name);
    }
    if at < found {
        assert(node.children@[at].name@ != name);
    }
}

/// What a geometry node holds: of its vertices three numbers to a point, of its raw
/// indices the fans over the polygons, and that its colors come from a layer where it has
/// one.  Without vertices or without raw indices it holds nothing.
pub proof fn lemma_geometry_is_read_from_its_children(node: Node, math: ArithmeticModel)
    ensures
        child_f64_array_spec(node, "Vertices"@) is None || child_i32_array_spec(
            node,
            "PolygonVertexIndex"@,
        ) is None <==> parse_fbx_geometry_spec(node, math) is None,
        parse_fbx_geometry_spec(node, math) matches Some(geometry) ==> {
            let vertices = child_f64_array_spec(node, "Vertices"@).unwrap();
            let raw = child_i32_array_spec(node, "PolygonVertexIndex"@).unwrap();
            &&& geometry.positions.len() == vertices.len() / 3
            &&& forall|i: int|
                0 <= i < geometry.positions.len() ==> {
                    let point = #[trigger] geometry.positions[i];
                    &&& point.x == vertices[3 * i].to_single_spec()
                    &&& point.y == vertices[3 * i + 1].to_single_spec()
                    &&& point.z == vertices[3 * i + 2].to_single_spec()
                }
            &&& geometry.faces == fans(raw, color_layer_spec(node), math, polygons(raw))
            &&& color_layer_spec(node) is Some ==> geometry.source
                == ColorSource::FbxLayerElementColor
            &&& color_layer_spec(node) is None ==> geometry.source == ColorSource::Uncolored
        },
{
}

/// What a color layer is read from: the first child with the layer's name, its colors
/// four numbers each, of which the first three are the color, and the mapping, the
/// reference and the indices under their names.
pub proof fn lemma_color_layers_are_read_from_their_children(node: Node)
    ensures
        find_named(node.children@, "LayerElementColor"@) is None ==> color_layer_spec(node)
            is None,
        find_named(node.children@, "LayerElementColor"@) matches Some(layer) ==> {
            let direct = child_f64_array_spec(layer, "Colors"@);
            let values = if direct is Some {
                direct
            } else {
                child_f64_array_spec(layer, "Color"@)
            };
            &&& values is None ==> color_layer_spec(node) is None
            &&& values matches Some(values) ==> {
                let read = color_layer_spec(node).unwrap();
                let mapping = child_string_spec(layer, "MappingInformationType"@);
                let reference = child_string_spec(layer, "ReferenceInformationType"@);
                let one = child_i32_array_spec(layer, "ColorIndex"@);
                let other = child_i32_array_spec(layer, "ColorsIndex"@);
                &&& color_layer_spec(node) is Some
                &&& read.colors.len() == values.len() / 4
                &&& forall|i: int|
                    0 <= i < read.colors.len() ==> {
                        let color = #[trigger] read.colors[i];
                        &&& color.x == values[4 * i].to_single_spec()
                        &&& color.y == values[4 * i + 1].to_single_spec()
                        &&& color.z == values[4 * i + 2].to_single_spec()
                    }
                &&& mapping is Some ==> read.mapping == mapping.unwrap()
                &&& mapping is None ==> read.mapping == "ByPolygonVertex"@
                &&& reference is Some ==> read.reference == reference.unwrap()
                &&& reference is None ==> read.reference == "Direct"@
                &&& one is Some ==> read.indices == one.unwrap()
                &&& one is None && other is Some ==> read.indices == other.unwrap()
                &&& one is None && other is None ==> read.indices.len() == 0
            }
        },
{
}

/// Geometry nodes taken together keep what each of them holds: the points of a node
/// stand behind those of the nodes before it, and its triangles, with their colors,
/// between these points.
pub proof fn lemma_nodes_keep_their_geometry(nodes: Seq<Node>, math: ArithmeticModel, n: int)
    requires
        0 <= n < nodes.len(),
    ensures
        ({
            let all = fbx_geometry(nodes, math);
            let before = fbx_geometry(nodes.take(n), math);
            parse_fbx_geometry_spec(nodes[n], math) matches Some(own) ==> {
                &&& before.positions.len() + own.positions.len() <= all.positions.len()
                &&& before.faces.len() + own.faces.len() <= all.faces.len()
                &&& forall|i: int|
                    0 <= i < own.positions.len() ==> all.positions[before.positions.len() + i]
                        == #[trigger] own.positions[i]
                &&& forall|f: int|
                    0 <= f < own.faces.len() && before.positions.len() + own.faces[f].a
                        <= usize::MAX && before.positions.len() + own.faces[f].b <= usize::MAX
                        && before.positions.len() + own.faces[f].c <= usize::MAX ==> {
                        let face = #[trigger] own.faces[f];
                        let kept = all.faces[before.faces.len() + f];
                        &&& kept.a == before.positions.len() + face.a
                        &&& kept.b == before.positions.len() + face.b
                        &&& kept.c == before.positions.len() + face.c
                        &&& kept.color == face.color
                    }
            }
        }),
        nodes.len() == n + 1 ==> {
            let all = fbx_geometry(nodes, math);
            let before = fbx_geometry(nodes.take(n), math);
            match parse_fbx_geometry_spec(nodes[n], math) {
                Some(own) => {
                    &&& all.positions.len() == before.positions.len() + own.positions.len()
                    &&& all.faces.len() == before.faces.len() + own.faces.len()
                    &&& all.source == if own.source == ColorSource::Uncolored {
                        before.source
                    } else {
                        own.source
                    }
                },
                None => all == before,
            }
        },
    decreases nodes.len(),
{
    let front = nodes.drop_last();
    assert(nodes.take(nodes.len() - 1) =~= front);
    if n < front.len() {
        lemma_nodes_keep_their_geometry(front, math, n);
        assert(front.take(n) =~= nodes.take(n));
        let all = fbx_geometry(nodes, math);
        let most = fbx_geometry(front, math);
        let before = fbx_geometry(nodes.take(n), math);
        if let Some(own) = parse_fbx_geometry_spec(nodes[n], math) {
            assert forall|i: int| 0 <= i < own.positions.len() implies all.positions[
                before.positions.len() + i
            ] == #[trigger] own.positions[i] by {
                assert(all.positions[before.positions.len() + i] == most.positions[
                    before.positions.len() + i
                ]);
            }
            assert forall|f: int|
                0 <= f < own.faces.len() && before.positions.len() + own.faces[f].a <= usize::MAX
                    && before.positions.len() + own.faces[f].b <= usize::MAX
                    && before.positions.len() + own.faces[f].c <= usize::MAX implies {
                let face = #[trigger] own.faces[f];
                let kept = all.faces[before.faces.len() + f];
                &&& kept.a == before.positions.len() + face.a
                &&& kept.b == before.positions.len() + face.b
                &&& kept.c == before.positions.len() + face.c
                &&& kept.color == face.color
            } by {
                assert(all.faces[before.faces.len() + f] == most.faces[before.faces.len() + f]);
            }
        }
    }
}

/// The nodes that geometry is read from: a node itself where it is named so, then what
/// its children have, one child after the other.
pub proof fn lemma_geometry_nodes_are_in_order(node: Node, more: Node)
    requires
        node.name@ == more.name@,
        more.children@.len() > 0,
        more.children@.drop_last() == node.children@,
    ensures
        node.name@ != "Geometry"@ ==> geometry_nodes_spec(more) == geometry_nodes_spec(node)
            + geometry_nodes_spec(more.children@.last()),
        node.name@ == "Geometry"@ ==> geometry_nodes_spec(more) == seq![more]
            + geometry_nodes_spec(node).drop_first() + geometry_nodes_spec(more.children@.last()),
        node.children@.len() == 0 && node.name@ == "Geometry"@ ==> geometry_nodes_spec(node)
            == seq![node],
        node.children@.len() == 0 && node.name@ != "Geometry"@ ==> geometry_nodes_spec(node).len()
            == 0,
{
    let n = node.children@.len();
    let last = geometry_nodes_spec(more.children@.last());
    let below = geometry_below(node, n);
    lemma_same_children_same_below(node, more, n);
    assert(geometry_below(more, n + 1) == geometry_below(more, n) + last);
    if node.name@ == "Geometry"@ {
        assert(geometry_nodes_spec(node) == seq![node] + below);
        assert(geometry_nodes_spec(node).drop_first() =~= below);
        assert(seq![more] + (below + last) =~= seq![more] + below + last);
    } else {
        assert(geometry_nodes_spec(node) =~= below);
        assert(geometry_nodes_spec(more) =~= below + last);
    }
}

proof fn lemma_same_children_same_below(node: Node, more: Node, n: nat)
    requires
        n <= node.children@.len() <= more.children@.len(),
        forall|i: int| 0 <= i < n ==> #[trigger] node.children@[i] == more.children@[i],
    ensures
        geometry_below(node, n) == geometry_below(more, n),
    decreases n,
{
    if n > 0 {
        lemma_same_children_same_below(node, more, (n - 1) as nat);
        assert(node.children@[n - 1] == more.children@[n - 1]);
        assert(geometry_below(node, n) == geometry_below(node, (n - 1) as nat)
            + geometry_nodes_spec(node.children@[n - 1]));
        assert(geometry_below(more, n) == geometry_below(more, (n - 1) as nat)
            + geometry_nodes_spec(more.children@[n - 1]));
    }
}

/// Every node that geometry is read from has the name, and a node with the name comes
/// before all that is below it.
pub proof fn lemma_geometry_nodes_are_named(node: Node)
    ensures
        forall|k: int|
            0 <= k < geometry_nodes_spec(node).len() ==> (#[trigger] geometry_nodes_spec(
                node,
            )[k]).name@ == "Geometry"@,
        node.name@ == "Geometry"@ ==> geometry_nodes_spec(node).len() > 0 && geometry_nodes_spec(
            node,
        )[0] == node,
    decreases node, node.children@.len() + 1,
{
    let below = geometry_below(node, node.children@.len());
    lemma_geometry_below_is_named(node, node.children@.len());
    let all = geometry_nodes_spec(node);
    if node.name@ == "Geometry"@ {
        assert(all == seq![node] + below);
        assert forall|k: int| 0 <= k < all.len() implies (#[trigger] all[k]).name@
            == "Geometry"@ by {
            if k > 0 {
                assert(all[k] == below[k - 1]);
            }
        }
    } else {
        assert(all =~= below);
    }
}

proof fn lemma_geometry_below_is_named(node: Node, n: nat)
    ensures
        forall|k: int|
            0 <= k < geometry_below(node, n).len() ==> (#[trigger] geometry_below(
                node,
                n,
            )[k]).name@ == "Geometry"@,
    decreases node, n,
{
    if 0 < n <= node.children@.len() {
        lemma_geometry_below_is_named(node, (n - 1) as nat);
        lemma_geometry_nodes_are_named(node.children@[n - 1]);
        let before = geometry_below(node, (n - 1) as nat);
        let own = geometry_nodes_spec(node.children@[n - 1]);
        let all = geometry_below(node, n);
        assert(all == before + own);
        assert forall|k: int| 0 <= k < all.len() implies (#[trigger] all[k]).name@
            == "Geometry"@ by {
            if k < before.len() {
                assert(all[k] == before[k]);
            } else {
                assert(all[k] == own[k - before.len()]);
            }
        }
    }
}

/// Roots are read one after the other.
pub proof fn lemma_roots_are_read_in_order(roots: Seq<Node>, root: Node)
    ensures
        all_geometry_nodes(Seq::empty()).len() == 0,
        all_geometry_nodes(roots.push(root)) == all_geometry_nodes(roots) + geometry_nodes_spec(
            root,
        ),
{
    assert(roots.push(root).drop_last() =~= roots);
}

} // verus!
