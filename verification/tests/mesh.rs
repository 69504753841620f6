use descartes::Area;
use descartes::ClosedLinePath;
use descartes::LinePath;
use descartes::PrimitiveArea;
use descartes::V2;
use lyon_tessellation::geometry_builder::simple_builder;
use lyon_tessellation::math::point;
use lyon_tessellation::path::iterator::PathIter;
use lyon_tessellation::FillOptions;
use lyon_tessellation::FillTessellator;
use lyon_tessellation::FillVertex;
use lyon_tessellation::VertexBuffers;
use michelangelo::fill::Fill;
use michelangelo::fill::PathEvent;
use michelangelo::path::Point;
use michelangelo::mesh::Instance;
use michelangelo::mesh::Mesh;
use michelangelo::mesh::Vertex;
use michelangelo::number::Number;
use michelangelo::sculpt::FlatSurface;

fn num(value: f32) -> Number {
    Number::from_bits(value.to_bits())
}

fn val(number: Number) -> f32 {
    f32::from_bits(number.to_bits())
}

fn vertex(x: f32, y: f32, z: f32) -> Vertex {
    Vertex { position: [num(x), num(y), num(z)] }
}

fn triangle(offset: f32) -> Mesh {
    Mesh::new(
        vec![vertex(offset, 0.0, 0.0), vertex(offset + 1.0, 0.0, 0.0), vertex(offset, 1.0, 0.0)],
        vec![0, 1, 2],
    )
}

fn engine_fill(events: &[PathEvent]) -> Fill {
    let mut buffers: VertexBuffers<FillVertex, u16> = VertexBuffers::new();
    let path = events.iter().map(|event| match event {
        PathEvent::MoveTo(p) => lyon_tessellation::path::PathEvent::MoveTo(point(
            f32::from_bits(p.x.bits),
            f32::from_bits(p.y.bits),
        )),
        PathEvent::LineTo(p) => lyon_tessellation::path::PathEvent::LineTo(point(
            f32::from_bits(p.x.bits),
            f32::from_bits(p.y.bits),
        )),
    });
    FillTessellator::new()
        .tessellate_path(PathIter::new(path), &FillOptions::default(), &mut simple_builder(&mut buffers))
        .unwrap();
    Fill::new(
        buffers
            .vertices
            .iter()
            .map(|v| Point::from_bits(v.position.x.to_bits(), v.position.y.to_bits()))
            .collect(),
        buffers.indices,
    )
}

fn square_path() -> LinePath {
    LinePath::new(vec![
        V2::new(0.0, 0.0).into(),
        V2::new(4.0, 0.0).into(),
        V2::new(4.0, 4.0).into(),
        V2::new(0.0, 4.0).into(),
        V2::new(0.0, 0.0).into(),
    ])
    .unwrap()
}

#[test]
fn empty_mesh_is_empty() {
    let mesh = Mesh::empty();
    assert!(mesh.vertices.is_empty());
    assert!(mesh.indices.is_empty());
}

#[test]
fn add_assign_moves_indices_along() {
    let mut mesh = triangle(0.0);
    mesh.add_assign(&triangle(5.0));
    assert_eq!(mesh.vertices.len(), 6);
    assert_eq!(mesh.indices, vec![0, 1, 2, 3, 4, 5]);
    assert_eq!(mesh.vertices[3], vertex(5.0, 0.0, 0.0));
    mesh.add_assign(&triangle(9.0));
    assert_eq!(mesh.indices, vec![0, 1, 2, 3, 4, 5, 6, 7, 8]);
}

#[test]
fn add_joins_two_meshes() {
    let joined = triangle(0.0).add(triangle(2.0));
    assert_eq!(joined.vertices.len(), 6);
    assert_eq!(joined.indices, vec![0, 1, 2, 3, 4, 5]);
}

#[test]
fn joining_the_empty_mesh_changes_nothing() {
    let mut mesh = triangle(1.0);
    mesh.add_assign(&Mesh::empty());
    assert_eq!(mesh.vertices, triangle(1.0).vertices);
    assert_eq!(mesh.indices, vec![0, 1, 2]);
    let other = Mesh::empty().add(triangle(1.0));
    assert_eq!(other.vertices, triangle(1.0).vertices);
    assert_eq!(other.indices, vec![0, 1, 2]);
}

#[test]
fn sum_joins_in_order() {
    let total = Mesh::sum(&vec![triangle(0.0), triangle(1.0), triangle(2.0)]);
    assert_eq!(total.vertices.len(), 9);
    assert_eq!(total.indices, vec![0, 1, 2, 3, 4, 5, 6, 7, 8]);
    assert_eq!(total.vertices[6], vertex(2.0, 0.0, 0.0));
    let none = Mesh::sum(&Vec::new());
    assert!(none.vertices.is_empty());
}

#[test]
fn clone_holds_the_same() {
    let mesh = triangle(0.0).add(triangle(3.0));
    let copy = mesh.clone();
    assert_eq!(copy.vertices, mesh.vertices);
    assert_eq!(copy.indices, mesh.indices);
}

#[test]
fn index_safety_is_checked() {
    assert!(triangle(0.0).is_index_safe());
    assert!(!Mesh::new(vec![vertex(0.0, 0.0, 0.0)], vec![0, 1, 0]).is_index_safe());
}

#[test]
fn instance_with_color() {
    let instance = Instance::with_color([num(0.5), num(0.25), num(1.0)]);
    assert_eq!(instance.instance_position.map(val), [0.0, 0.0, 0.0]);
    assert_eq!(instance.instance_direction.map(val), [1.0, 0.0]);
    assert_eq!(instance.instance_color.map(val), [0.5, 0.25, 1.0]);
}

#[test]
fn mesh_from_area() {
    let area = Area::new_simple(ClosedLinePath::new(square_path()).unwrap());
    let events = Mesh::area_events(&area);
    let at = |x: f32, y: f32| Point::from_bits(x.to_bits(), y.to_bits());
    assert_eq!(
        events,
        vec![
            PathEvent::MoveTo(at(0.0, 0.0)),
            PathEvent::LineTo(at(4.0, 0.0)),
            PathEvent::LineTo(at(4.0, 4.0)),
            PathEvent::LineTo(at(0.0, 4.0)),
            PathEvent::LineTo(at(0.0, 0.0)),
        ]
    );
    let mesh = Mesh::from_area_fill(&engine_fill(&events));
    assert_eq!(mesh.vertices.len(), 4);
    assert_eq!(mesh.indices.len(), 6);
    assert!(mesh.is_index_safe());
    for vertex in mesh.vertices.iter() {
        assert_eq!(val(vertex.position[2]), 0.0);
        assert!(val(vertex.position[0]) == 0.0 || val(vertex.position[0]) == 4.0);
        assert!(val(vertex.position[1]) == 0.0 || val(vertex.position[1]) == 4.0);
    }
}

#[test]
fn events_of_an_area_of_two_outlines() {
    let inner = LinePath::new(vec![
        V2::new(1.0, 1.0).into(),
        V2::new(2.0, 1.0).into(),
        V2::new(1.0, 2.0).into(),
        V2::new(1.0, 1.0).into(),
    ])
    .unwrap();
    let area = Area::new(vec![
        PrimitiveArea::new(ClosedLinePath::new(square_path()).unwrap()),
        PrimitiveArea::new(ClosedLinePath::new(inner).unwrap()),
    ]);
    let events = Mesh::area_events(&area);
    assert_eq!(events.len(), 9);
    let moves: Vec<usize> = (0..9).filter(|i| matches!(events[*i], PathEvent::MoveTo(_))).collect();
    assert_eq!(moves, vec![0, 5]);
}

#[test]
fn mesh_from_path_as_band() {
    let path = LinePath::new(vec![V2::new(0.0, 0.0).into(), V2::new(10.0, 0.0).into()]).unwrap();
    let mesh = Mesh::from_path_as_band(&path, num(2.0), num(1.5));
    let positions: Vec<[f32; 3]> = mesh.vertices.iter().map(|v| v.position.map(val)).collect();
    assert_eq!(
        positions,
        vec![[0.0, 1.0, 1.5], [10.0, 1.0, 1.5], [0.0, -1.0, 1.5], [10.0, -1.0, 1.5]]
    );
    assert_eq!(mesh.indices, vec![0, 2, 1, 1, 2, 3]);
}

#[test]
fn mesh_from_path_as_band_asymmetric() {
    let path = LinePath::new(vec![V2::new(0.0, 0.0).into(), V2::new(10.0, 0.0).into()]).unwrap();
    let mesh = Mesh::from_path_as_band_asymmetric(&path, num(1.0), num(3.0), num(0.0));
    let positions: Vec<[f32; 3]> = mesh.vertices.iter().map(|v| v.position.map(val)).collect();
    assert_eq!(
        positions,
        vec![[0.0, 1.0, 0.0], [10.0, 1.0, 0.0], [0.0, -3.0, 0.0], [10.0, -3.0, 0.0]]
    );
}

#[test]
fn flat_surface_from_primitive_area() {
    let area = PrimitiveArea::new(ClosedLinePath::new(square_path()).unwrap());
    let flat = FlatSurface::from_primitive_area(area, num(2.0));
    assert_eq!(flat.boundary.path.points, square_path().points);
    assert_eq!(flat.boundary.path.distances, square_path().distances);
    assert_eq!(val(flat.boundary.z), 2.0);
}

#[test]
fn band_of_a_path_that_is_checked_first() {
    let path = LinePath::new(vec![V2::new(0.0, 0.0).into(), V2::new(10.0, 0.0).into()]).unwrap();
    let mesh = Mesh::try_from_path_as_band_asymmetric(&path, num(1.0), num(3.0), num(0.0)).unwrap();
    let direct = Mesh::from_path_as_band_asymmetric(&path, num(1.0), num(3.0), num(0.0));
    assert_eq!(mesh.vertices, direct.vertices);
    assert_eq!(mesh.indices, vec![0, 2, 1, 1, 2, 3]);
    let even = Mesh::try_from_path_as_band(&path, num(2.0), num(1.5)).unwrap();
    assert_eq!(even.vertices.len(), 4);
    let empty = LinePath { points: Vec::new(), distances: Vec::new() };
    assert!(Mesh::try_from_path_as_band_asymmetric(&empty, num(1.0), num(3.0), num(0.0)).is_none());
    assert!(Mesh::try_from_path_as_band(&empty, num(2.0), num(0.0)).is_none());
    let long = LinePath::new((0..40000).map(|i| V2::new(0.25 * i as f32, 0.0).into()).collect())
        .unwrap();
    assert!(Mesh::try_from_path_as_band_asymmetric(&long, num(1.0), num(3.0), num(0.0)).is_none());
}
