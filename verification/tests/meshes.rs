use std::path::PathBuf;
use xbrdf::arithmetic::{Arithmetic, Operation};
use xbrdf::double::Double;
use xbrdf::fbx::{
    child_f64_array, child_i32_array, child_string, decode_polygon_index, gather_fbx,
    geometry_nodes, parse_fbx_geometry, Node, Property,
};
use xbrdf::geometry::{
    format_by_extension, mesh_format, Bounds, ColorSource, Geometry, GeometryError, IndexedFace,
    Mesh, MeshFormat,
};
use xbrdf::math::Vec3;
use xbrdf::obj::{read_obj_color, ObjModel};
use xbrdf::scalar::Scalar;

fn number(value: f32) -> Scalar {
    Scalar::from_bits(value.to_bits())
}

fn value(number: Scalar) -> f32 {
    f32::from_bits(number.to_bits())
}

fn vector(x: f32, y: f32, z: f32) -> Vec3 {
    Vec3::new(number(x), number(y), number(z))
}

fn numbers(values: &[f32]) -> Vec<Scalar> {
    values.iter().map(|value| number(*value)).collect()
}

fn doubles(values: &[f32]) -> Vec<Double> {
    values.iter().map(|value| Double::from_bits(f64::from(*value).to_bits())).collect()
}

fn compute(operation: Operation, a: Scalar, b: Scalar) -> Scalar {
    let (a, b) = (value(a), value(b));
    number(match operation {
        Operation::Sum => a + b,
        Operation::Difference => a - b,
        Operation::Product => a * b,
        Operation::Quotient => a / b,
        Operation::Power => a.powf(b),
    })
}

fn normalize(v: Vec3) -> Option<Vec3> {
    let (x, y, z) = (value(v.x), value(v.y), value(v.z));
    let length = (x * x + y * y + z * z).sqrt();
    if length > 0.0 && length.is_finite() {
        Some(vector(x / length, y / length, z / length))
    } else {
        None
    }
}

fn math() -> Arithmetic<
    impl Copy + Fn(Operation, Scalar, Scalar) -> Scalar,
    impl Copy + Fn(Vec3) -> Option<Vec3>,
> {
    Arithmetic { compute, normalize }
}

fn load(obj: &str) -> Result<Mesh, GeometryError> {
    let mut positions = Vec::new();
    let mut vertex_color = Vec::new();
    let mut indices = Vec::new();
    for line in obj.lines() {
        let fields: Vec<&str> = line.split_whitespace().collect();
        match fields[0] {
            "v" => {
                positions.extend(fields[1..4].iter().map(|f| number(f.parse().unwrap())));
                vertex_color.extend(fields[4..].iter().map(|f| number(f.parse().unwrap())));
            }
            _ => indices.extend(fields[1..].iter().map(|f| f.parse::<u32>().unwrap() - 1)),
        }
    }
    let model = ObjModel { positions, indices, vertex_color, material_id: None };
    Mesh::load_obj(&vec![model], &Vec::new(), &math())
}

fn node(name: &str, properties: Vec<Property>, children: Vec<Node>) -> Node {
    Node { name: name.to_string(), properties, children }
}

fn text(name: &str, value: &str) -> Node {
    node(name, vec![Property::Text(value.to_string())], Vec::new())
}

fn floats(name: &str, values: &[f32]) -> Node {
    node(name, vec![Property::FloatArray(doubles(values))], Vec::new())
}

fn integers(name: &str, values: &[i32]) -> Node {
    node(name, vec![Property::I32Array(values.to_vec())], Vec::new())
}

fn quad_node(layer: Option<Node>) -> Node {
    let mut children = vec![
        floats("Vertices", &[0.0, 0.0, 0.0, 1.0, 0.0, 0.0, 1.0, 0.0, 1.0, 0.0, 0.0, 1.0, 9.0]),
        integers("PolygonVertexIndex", &[0, 1, 2, -4, 0, -2, 3]),
    ];
    children.extend(layer);
    node("Geometry", Vec::new(), children)
}

#[test]
fn polygon_indices_decode_without_overflow() {
    assert_eq!(decode_polygon_index(3), Some((3, false)));
    assert_eq!(decode_polygon_index(-4), Some((3, true)));
    assert_eq!(decode_polygon_index(i32::MIN), None);
}

#[test]
fn tile_period_uses_bounds() {
    let obj = "\
v -1 0 -2
v 1 0 -2
v 1 0 2
v -1 0 2
f 1 3 2
f 1 4 3
";
    let mesh = load(obj).unwrap();

    assert_eq!(mesh.triangles.len(), 2);
    assert_eq!(value(mesh.tile_width), 2.0);
    assert_eq!(value(mesh.tile_depth), 4.0);
    let min = mesh.bounds.min;
    assert_eq!((value(min.x), value(min.y), value(min.z)), (-1.0, 0.0, -2.0));
    assert_eq!(value(mesh.bounds.max.y), 0.0);
    assert_eq!(mesh.triangles[0].color, vector(1.0, 1.0, 1.0));
}

#[test]
fn highest_point_is_shifted_to_zero() {
    let obj = "\
v 0 2 0
v 1 4 0
v 0 3 1
f 1 2 3
";
    let mesh = load(obj).unwrap();

    assert_eq!(value(mesh.original_bounds.max.y), 4.0);
    assert_eq!(value(mesh.y_offset_to_zero), -4.0);
    assert_eq!(value(mesh.bounds.max.y), 0.0);
    assert_eq!(value(mesh.bounds.min.y), -2.0);
}

#[test]
fn obj_vertex_colors_are_averaged_per_triangle() {
    let obj = "\
v 0 0 0 1 0 0
v 1 0 0 0 1 0
v 0 0 1 0 0 1
f 1 2 3
";
    let mesh = load(obj).unwrap();

    assert_eq!(mesh.color_source, ColorSource::ObjVertexColor);
    assert_eq!(mesh.triangles[0].color, vector(1.0 / 3.0, 1.0 / 3.0, 1.0 / 3.0));
}

#[test]
fn models_are_joined_and_colored_by_their_materials() {
    let model = |offset: f32, material_id| ObjModel {
        positions: numbers(&[offset, 0.0, 0.0, offset + 1.0, 0.0, 0.0, offset, 0.0, 1.0]),
        indices: vec![0, 1, 2],
        vertex_color: Vec::new(),
        material_id,
    };
    let models = vec![model(0.0, None), model(5.0, Some(1)), model(7.0, Some(9))];
    let materials = vec![None, Some(vector(0.25, 0.5, 0.75))];
    let mesh = Mesh::load_obj(&models, &materials, &math()).unwrap();
    assert_eq!(mesh.triangles.len(), 3);
    assert_eq!(value(mesh.triangles[1].v0.x), 5.0);
    assert_eq!(mesh.triangles[0].color, vector(1.0, 1.0, 1.0));
    assert_eq!(mesh.triangles[1].color, vector(0.25, 0.5, 0.75));
    assert_eq!(mesh.triangles[2].color, vector(1.0, 1.0, 1.0));
    assert_eq!(mesh.color_source, ColorSource::ObjMaterialDiffuse);
    assert_eq!(mesh.color_source.as_str(), "obj_material_diffuse");
}

#[test]
fn unusable_geometry_is_refused() {
    assert_eq!(load("v 0 0 0\nv 1 0 0\nv 2 0 0\nf 1 2 3\n"), Err(GeometryError::EmptyMesh));
    assert_eq!(load("v 0 0 0\n"), Err(GeometryError::EmptyMesh));
    assert_eq!(
        load("v 0 0 0\nv 1 0 0\nv 0 inf 0\nf 1 2 3\n"),
        Err(GeometryError::NonFinitePosition)
    );
    assert_eq!(
        load("v 0 0 0\nv 1 0 0\nv 0 1 0\nf 1 2 3\n"),
        Err(GeometryError::InvalidTileSize)
    );
}

#[test]
fn degenerate_faces_are_dropped() {
    let geometry = Geometry {
        positions: vec![vector(0.0, 0.0, 0.0), vector(1.0, 0.0, 0.0), vector(0.0, 0.0, 1.0)],
        faces: vec![
            IndexedFace { a: 0, b: 0, c: 1, color: vector(1.0, 1.0, 1.0) },
            IndexedFace { a: 0, b: 1, c: 2, color: vector(0.5, 0.5, 0.5) },
        ],
        source: ColorSource::Uncolored,
    };
    assert!(geometry.is_closed());
    let mesh = Mesh::from_positions_and_faces(&geometry, &math()).unwrap();
    assert_eq!(mesh.triangles.len(), 1);
    assert_eq!(mesh.triangles[0].color, vector(0.5, 0.5, 0.5));
    let open = Geometry { faces: vec![IndexedFace { a: 3, ..geometry.faces[0] }], ..geometry };
    assert!(!open.is_closed());
}

#[test]
fn colors_past_the_list_are_white() {
    let colors = numbers(&[0.1, 0.2, 0.3, 0.4, 0.5]);
    assert_eq!(read_obj_color(&colors, 0), vector(0.1, 0.2, 0.3));
    assert_eq!(read_obj_color(&colors, 1), vector(1.0, 1.0, 1.0));
    assert_eq!(read_obj_color(&colors, usize::MAX), vector(1.0, 1.0, 1.0));
}

#[test]
fn bounds_enclose_points() {
    let points = [vector(1.0, -2.0, 0.0), vector(-1.0, 5.0, 3.0), vector(0.0, 0.0, -7.0)];
    let bounds = Bounds::from_points(&points).unwrap();
    assert_eq!(bounds.min, vector(-1.0, -2.0, -7.0));
    assert_eq!(bounds.max, vector(1.0, 5.0, 3.0));
    assert_eq!(Bounds::from_points(&[]), None);
}

#[test]
fn geometry_nodes_are_found_in_order() {
    let tree = node(
        "Objects",
        Vec::new(),
        vec![
            node("Geometry", Vec::new(), vec![node("Geometry", vec![Property::Other], Vec::new())]),
            node("Model", Vec::new(), vec![text("Geometry", "third")]),
        ],
    );
    let found = geometry_nodes(&tree);
    assert_eq!(found.len(), 3);
    assert_eq!(found[0].children.len(), 1);
    assert!(matches!(found[1].properties[0], Property::Other));
    assert_eq!(child_string(&tree.children[1], "Geometry"), Some("third".to_string()));
    assert_eq!(child_string(&tree.children[1], "Other"), None);
    assert_eq!(child_i32_array(&tree.children[1], "Geometry"), None);
}

#[test]
fn polygons_become_fans() {
    let parsed = parse_fbx_geometry(&quad_node(None), &math()).unwrap();
    assert_eq!(parsed.positions.len(), 4);
    let corners: Vec<_> = parsed.faces.iter().map(|face| (face.a, face.b, face.c)).collect();
    assert_eq!(corners, [(0, 1, 2), (0, 2, 3)]);
    assert_eq!(parsed.source, ColorSource::Uncolored);
    assert_eq!(parsed.faces[0].color, vector(1.0, 1.0, 1.0));
    assert!(parse_fbx_geometry(&node("Geometry", Vec::new(), Vec::new()), &math()).is_none());
}

#[test]
fn color_layers_are_read() {
    let colors = [1.0, 0.0, 0.0, 1.0, 0.0, 1.0, 0.0, 1.0, 0.0, 0.0, 1.0, 1.0, 0.5];
    let by_corner = node(
        "LayerElementColor",
        Vec::new(),
        vec![
            text("ReferenceInformationType", "IndexToDirect"),
            floats("Colors", &colors),
            integers("ColorIndex", &[0, 1, 2, -1]),
        ],
    );
    let parsed = parse_fbx_geometry(&quad_node(Some(by_corner)), &math()).unwrap();
    assert_eq!(parsed.source, ColorSource::FbxLayerElementColor);
    assert_eq!(parsed.faces[0].color, vector(1.0 / 3.0, 1.0 / 3.0, 1.0 / 3.0));
    assert_eq!(parsed.faces[1].color, vector(1.0, 1.0, 1.0));

    let by_polygon = |mapping: &str| {
        node(
            "LayerElementColor",
            Vec::new(),
            vec![text("MappingInformationType", mapping), floats("Color", &colors)],
        )
    };
    let parsed = parse_fbx_geometry(&quad_node(Some(by_polygon("ByPolygon"))), &math()).unwrap();
    assert_eq!(parsed.faces[1].color, vector(1.0, 0.0, 0.0));
    let parsed = parse_fbx_geometry(&quad_node(Some(by_polygon("ByEdge"))), &math()).unwrap();
    assert_eq!(parsed.faces[1].color, vector(1.0, 1.0, 1.0));
}

#[test]
fn geometry_nodes_are_joined() {
    let roots = vec![node("Objects", Vec::new(), vec![quad_node(None), quad_node(None)])];
    let gathered = gather_fbx(&roots, &math());
    assert_eq!(gathered.positions.len(), 8);
    assert_eq!(gathered.faces.len(), 4);
    assert_eq!((gathered.faces[3].a, gathered.faces[3].b, gathered.faces[3].c), (4, 6, 7));
    let mesh = Mesh::load_fbx(&roots, &math()).unwrap();
    assert_eq!(mesh.triangles.len(), 4);
    assert_eq!(value(mesh.tile_width), 1.0);
}

#[test]
fn formats_are_told_by_extension() {
    assert_eq!(mesh_format(&PathBuf::from("a/b.OBJ")), Ok(MeshFormat::Obj));
    assert_eq!(mesh_format(&PathBuf::from("b.fbx")), Ok(MeshFormat::Fbx));
    assert_eq!(
        mesh_format(&PathBuf::from("b.stl")),
        Err(GeometryError::UnsupportedExtension("b.stl".into()))
    );
    assert_eq!(
        format_by_extension(&PathBuf::from("b"), None),
        Err(GeometryError::UnsupportedExtension("b".into()))
    );
    assert_eq!(format_by_extension(&PathBuf::from("b"), Some("Fbx")), Ok(MeshFormat::Fbx));
}

#[test]
fn numbers_of_a_node_keep_their_precision() {
    let precise = 0.1f64;
    let child = node(
        "Vertices",
        vec![Property::FloatArray(vec![Double::from_bits(precise.to_bits())])],
        Vec::new(),
    );
    let parent = node("Geometry", Vec::new(), vec![child]);
    let values = child_f64_array(&parent, "Vertices").unwrap();
    assert_eq!(values[0].bits, precise.to_bits());
    assert_eq!(values[0].to_single(), number(0.1));
    assert!(child_f64_array(&parent, "UV").is_none());
}
