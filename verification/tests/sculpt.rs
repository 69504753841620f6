use descartes::LinePath;
use descartes::V2;
use lyon_tessellation::geometry_builder::simple_builder;
use lyon_tessellation::math::point;
use lyon_tessellation::path::iterator::PathIter;
use lyon_tessellation::FillOptions;
use lyon_tessellation::FillTessellator;
use lyon_tessellation::FillVertex;
use lyon_tessellation::VertexBuffers;
use michelangelo::fill::Fill;
use michelangelo::fill::PathEvent;
use michelangelo::path::Point;
use michelangelo::mesh::Mesh;
use michelangelo::number::Number;
use michelangelo::sculpt::check_valid_path;
use michelangelo::sculpt::FlatSurface;
use michelangelo::sculpt::SculptLine;
use michelangelo::sculpt::Sculpture;
use michelangelo::sculpt::SkeletonSpine;
use michelangelo::sculpt::SpannedSurface;
use michelangelo::sculpt::Surface;
use std::rc::Rc;

fn number(value: f32) -> Number {
    Number::from_bits(value.to_bits())
}

fn value(number: Number) -> f32 {
    f32::from_bits(number.to_bits())
}

fn path(points: &[(f32, f32)]) -> LinePath {
    LinePath::new(points.iter().map(|(x, y)| V2::new(*x, *y).into()).collect()).unwrap()
}

fn line(points: &[(f32, f32)], z: f32) -> Rc<SculptLine> {
    Rc::new(SculptLine::new(path(points), number(z)))
}

fn points_of(line: &SculptLine) -> Vec<(f32, f32)> {
    line.path.points.iter().map(|p| (p.x, p.y)).collect()
}

fn positions(mesh: &Mesh) -> Vec<[f32; 3]> {
    mesh.vertices
        .iter()
        .map(|v| [value(v.position[0]), value(v.position[1]), value(v.position[2])])
        .collect()
}

fn engine_fill(events: &[PathEvent]) -> Fill {
    let mut buffers: VertexBuffers<FillVertex, u16> = VertexBuffers::new();
    let path = events.iter().map(|event| match event {
        PathEvent::MoveTo(p) => lyon_tessellation::path::PathEvent::MoveTo(point(
            f32::from_bits(p.x.bits),
            f32::from_bits(p.y.bits),
        )),
        PathEvent::LineTo(p) => lyon_tessellation::path::PathEvent::LineTo(point(
            f32::from_bits(p.x.bits),
            f32::from_bits(p.y.bits),
        )),
    });
    FillTessellator::new()
        .tessellate_path(PathIter::new(path), &FillOptions::default(), &mut simple_builder(&mut buffers))
        .unwrap();
    Fill::new(
        buffers
            .vertices
            .iter()
            .map(|v| Point::from_bits(v.position.x.to_bits(), v.position.y.to_bits()))
            .collect(),
        buffers.indices,
    )
}

fn engine_fills(sculpture: &Sculpture) -> Vec<Option<Fill>> {
    sculpture
        .outlines()
        .iter()
        .map(|outline| outline.as_ref().map(|events| engine_fill(events)))
        .collect()
}

fn unfilled(sculpture: &Sculpture) -> Mesh {
    sculpture.to_mesh(&Vec::new())
}

fn straight_spine() -> SkeletonSpine {
    SkeletonSpine::new(line(&[(0.0, 0.0), (10.0, 0.0)], 0.0), number(4.0)).unwrap()
}

#[test]
fn extrude_without_offset_keeps_the_line() {
    let lower = line(&[(0.0, 0.0), (3.0, 0.0), (3.0, 4.0)], 2.5);
    let (surface, upper) = SculptLine::extrude(&lower, number(0.0), number(0.0)).unwrap();
    assert_eq!(points_of(&upper), points_of(&lower));
    assert_eq!(upper.path.distances, lower.path.distances);
    assert_eq!(value(upper.z), 2.5);
    assert!(Rc::ptr_eq(&surface.left_line, &lower));
    assert!(Rc::ptr_eq(&surface.right_line, &upper));
}

#[test]
fn extrude_raises_and_shifts() {
    let lower = line(&[(0.0, 0.0), (10.0, 0.0)], 1.0);
    let (_, upper) = SculptLine::extrude(&lower, number(2.0), number(3.0)).unwrap();
    assert_eq!(points_of(&upper), vec![(0.0, -3.0), (10.0, -3.0)]);
    assert_eq!(value(upper.z), 3.0);
}

#[test]
fn subdivide_by_weights() {
    let whole = SculptLine::new(path(&[(0.0, 0.0), (12.0, 0.0)]), number(7.0));
    let parts = whole.subdivide(&[number(1.0), number(2.0), number(1.0)]);
    assert_eq!(parts.len(), 3);
    assert_eq!(points_of(&parts[0]), vec![(0.0, 0.0), (3.0, 0.0)]);
    assert_eq!(points_of(&parts[1]), vec![(3.0, 0.0), (9.0, 0.0)]);
    assert_eq!(points_of(&parts[2]), vec![(9.0, 0.0), (12.0, 0.0)]);
    assert_eq!(value(parts[1].z), 7.0);
}

#[test]
fn subdivide_drops_parts_without_length() {
    let whole = SculptLine::new(path(&[(0.0, 0.0), (12.0, 0.0)]), number(0.0));
    let parts = whole.subdivide(&[number(1.0), number(0.0), number(1.0)]);
    assert_eq!(parts.len(), 2);
    assert_eq!(points_of(&parts[0]), vec![(0.0, 0.0), (6.0, 0.0)]);
    assert_eq!(points_of(&parts[1]), vec![(6.0, 0.0), (12.0, 0.0)]);
}

#[test]
fn spine_of_a_straight_line() {
    let spine = straight_spine();
    assert_eq!(points_of(&spine.left), vec![(0.0, 2.0), (10.0, 2.0)]);
    assert_eq!(points_of(&spine.right), vec![(0.0, -2.0), (10.0, -2.0)]);
    assert_eq!(points_of(&spine.front), vec![(10.0, 2.0), (10.0, -2.0)]);
    assert_eq!(points_of(&spine.back), vec![(0.0, -2.0), (0.0, 2.0)]);
    assert_eq!(
        points_of(&spine.boundary),
        vec![(0.0, 2.0), (10.0, 2.0), (10.0, -2.0), (0.0, -2.0), (0.0, 2.0)]
    );
    assert_eq!(value(spine.width), 4.0);
    assert_eq!(value(spine.boundary.z), 0.0);
}

#[test]
fn spine_without_width_has_no_result() {
    assert!(SkeletonSpine::new(line(&[(0.0, 0.0), (10.0, 0.0)], 0.0), number(0.0)).is_none());
}

#[test]
fn spine_extrude_extends_and_widens() {
    let spine = straight_spine();
    let (wall, upper) = spine.extrude(number(1.0), number(2.0), number(0.5)).unwrap();
    assert_eq!(points_of(&upper.center), vec![(-0.5, 0.0), (10.5, 0.0)]);
    assert_eq!(value(upper.center.z), 1.0);
    assert_eq!(value(upper.width), 6.0);
    assert_eq!(points_of(&upper.left), vec![(-0.5, 3.0), (10.5, 3.0)]);
    assert!(Rc::ptr_eq(&wall.left_line, &spine.boundary));
    assert!(Rc::ptr_eq(&wall.right_line, &upper.boundary));
    let boundary = points_of(&upper.boundary);
    assert_eq!(boundary.first(), boundary.last());
    assert_eq!(boundary[0], (-0.5, 3.0));
}

#[test]
fn spine_extrude_in_place_shares_the_center() {
    let spine = straight_spine();
    let (_, upper) = spine.extrude(number(0.0), number(1.0), number(0.0)).unwrap();
    assert!(Rc::ptr_eq(&upper.center, &spine.center));
    assert_eq!(value(upper.width), 5.0);
}

#[test]
fn spanned_surface_mesh() {
    let left = line(&[(0.0, 0.0), (1.0, 0.0), (2.0, 0.0)], 0.0);
    let right = line(&[(0.0, 1.0), (2.0, 1.0)], 5.0);
    let sculpture = Sculpture::new(vec![Surface::Spanned(SpannedSurface::new(left, right))]);
    let mesh = unfilled(&sculpture);
    assert_eq!(
        positions(&mesh),
        vec![
            [0.0, 0.0, 0.0],
            [1.0, 0.0, 0.0],
            [2.0, 0.0, 0.0],
            [0.0, 1.0, 5.0],
            [2.0, 1.0, 5.0]
        ]
    );
    assert_eq!(mesh.indices, vec![0, 3, 1, 1, 3, 4, 1, 4, 2, 2, 4, 4]);
}

#[test]
fn gable_alone_has_six_vertices() {
    let (_, gable) = straight_spine().roof(number(3.0), number(1.0), number(1.0));
    let mesh = unfilled(&Sculpture::new(vec![Surface::Gable(gable)]));
    assert_eq!(
        positions(&mesh),
        vec![
            [0.0, 2.0, 0.0],
            [0.0, -2.0, 0.0],
            [1.0, 0.0, 3.0],
            [10.0, 2.0, 0.0],
            [10.0, -2.0, 0.0],
            [9.0, 0.0, 3.0]
        ]
    );
    assert_eq!(mesh.indices, vec![0, 1, 2, 3, 4, 5]);
}

#[test]
fn gable_of_a_bent_spine_has_six_vertices() {
    let center = line(&[(0.0, 0.0), (5.0, 0.0), (10.0, 1.0), (15.0, 1.0)], 0.0);
    let spine = SkeletonSpine::new(center, number(2.0)).unwrap();
    let (_, gable) = spine.roof(number(3.0), number(1.0), number(1.0));
    let mesh = unfilled(&Sculpture::new(vec![Surface::Gable(gable)]));
    assert_eq!(mesh.vertices.len(), 6);
    assert_eq!(mesh.indices, vec![0, 1, 2, 3, 4, 5]);
}

#[test]
fn roof_mesh_of_a_straight_spine() {
    let (roof, _) = straight_spine().roof(number(3.0), number(1.0), number(1.0));
    let mesh = unfilled(&Sculpture::new(vec![Surface::Roof(roof)]));
    assert_eq!(
        positions(&mesh),
        vec![
            [0.0, 2.0, 0.0],
            [10.0, 2.0, 0.0],
            [10.0, -2.0, 0.0],
            [0.0, -2.0, 0.0],
            [1.0, 0.0, 3.0],
            [9.0, 0.0, 3.0]
        ]
    );
    assert_eq!(mesh.indices, vec![0, 4, 1, 1, 4, 5, 2, 5, 3, 3, 5, 4]);
}

#[test]
fn roof_and_gables_end_to_end() {
    let spine = straight_spine();
    let (roof, front_gable) = spine.roof(number(3.0), number(1.0), number(1.0));
    let (_, back_gable) = spine.roof(number(3.0), number(1.0), number(1.0));
    let mut sculpture = Sculpture::new(vec![Surface::Roof(roof)]);
    sculpture.push(front_gable.into());
    sculpture.push(Surface::from(back_gable));
    let mesh = sculpture.try_to_mesh(&Vec::new()).unwrap();
    assert_eq!(mesh.vertices.len(), 18);
    assert_eq!(mesh.indices.len() % 3, 0);
    assert_eq!(mesh.indices.len(), 24);
    assert!(mesh.indices.iter().all(|i| (*i as usize) < 18));
    assert_eq!(&mesh.indices[12..24], &[6, 7, 8, 9, 10, 11, 12, 13, 14, 15, 16, 17]);
    let all = positions(&mesh);
    assert!(all.iter().all(|vertex| vertex[2] == 0.0 || vertex[2] == 3.0));
    let high: Vec<[f32; 3]> = all.iter().filter(|vertex| vertex[2] == 3.0).cloned().collect();
    assert_eq!(high.len(), 6);
    assert_eq!(high.iter().filter(|vertex| **vertex == [1.0, 0.0, 3.0]).count(), 3);
    assert_eq!(high.iter().filter(|vertex| **vertex == [9.0, 0.0, 3.0]).count(), 3);
    for ridge in [4, 5, 8, 11, 14, 17] {
        assert_eq!(all[ridge][2], 3.0);
    }
    for index in 0..4 {
        assert_eq!(all[index][2], 0.0);
    }
}

#[test]
fn flat_surface_is_filled_at_its_elevation() {
    let flat = straight_spine().to_flat_surface();
    let (wall, upper) = flat.extrude(number(2.0), number(0.0)).unwrap();
    let sculpture = Sculpture::new(vec![Surface::Spanned(wall), Surface::Flat(upper)]);
    let outlines = sculpture.outlines();
    assert!(outlines[0].is_none());
    let outline = outlines[1].as_ref().unwrap();
    assert_eq!(outline.len(), 5);
    assert_eq!(outline[0], PathEvent::MoveTo(Point::from_bits(0.0f32.to_bits(), 2.0f32.to_bits())));
    assert_eq!(outline[1], PathEvent::LineTo(Point::from_bits(10.0f32.to_bits(), 2.0f32.to_bits())));
    let mesh = sculpture.try_to_mesh(&engine_fills(&sculpture)).unwrap();
    assert_eq!(mesh.vertices.len(), 10 + 4);
    assert_eq!(mesh.indices.len(), 24 + 6);
    assert!(mesh.indices.iter().all(|i| (*i as usize) < mesh.vertices.len()));
    assert!(mesh.indices[24..].iter().all(|i| *i >= 10));
    let all = positions(&mesh);
    for vertex in &all[10..] {
        assert_eq!(vertex[2], 2.0);
        assert!(vertex[0] == 0.0 || vertex[0] == 10.0);
        assert!(vertex[1] == 2.0 || vertex[1] == -2.0);
    }
}

#[test]
fn flat_surface_without_a_usable_fill_cannot_be_meshed() {
    let boundary = line(&[(0.0, 0.0), (4.0, 0.0), (4.0, 4.0), (0.0, 0.0)], 0.0);
    let sculpture = Sculpture::new(vec![Surface::Flat(FlatSurface { boundary })]);
    assert!(!sculpture.check_meshable(&Vec::new()));
    assert!(sculpture.try_to_mesh(&vec![None]).is_none());
    let corner = Point::from_bits(0, 0);
    let beyond = Fill::new(vec![corner, corner, corner], vec![0, 1, 3]);
    assert!(!beyond.is_usable());
    assert!(sculpture.try_to_mesh(&vec![Some(beyond)]).is_none());
    let halved = Fill::new(vec![corner, corner, corner], vec![0, 1]);
    assert!(!halved.is_usable());
    assert!(sculpture.try_to_mesh(&vec![Some(halved)]).is_none());
    let whole = Fill::new(vec![corner, corner, corner], vec![0, 1, 2]);
    assert!(whole.is_usable());
    assert!(sculpture.try_to_mesh(&vec![Some(whole)]).is_some());
}

#[test]
fn a_given_fill_is_laid_at_the_elevation_of_the_boundary() {
    let boundary = line(&[(0.0, 0.0), (4.0, 0.0), (4.0, 4.0), (0.0, 0.0)], 7.0);
    let left = line(&[(0.0, 0.0), (1.0, 0.0)], 0.0);
    let right = line(&[(0.0, 1.0), (1.0, 1.0)], 0.0);
    let sculpture = Sculpture::new(vec![
        Surface::Spanned(SpannedSurface::new(left, right)),
        Surface::Flat(FlatSurface { boundary }),
    ]);
    let fill = Fill::new(
        vec![
            Point::from_bits(1.0f32.to_bits(), 2.0f32.to_bits()),
            Point::from_bits(3.0f32.to_bits(), 2.0f32.to_bits()),
            Point::from_bits(3.0f32.to_bits(), 5.0f32.to_bits()),
        ],
        vec![2, 0, 1],
    );
    let mesh = sculpture.to_mesh(&vec![None, Some(fill)]);
    assert_eq!(
        positions(&mesh)[4..],
        [[1.0, 2.0, 7.0], [3.0, 2.0, 7.0], [3.0, 5.0, 7.0]]
    );
    assert_eq!(mesh.indices[6..], [6, 4, 5]);
}

#[test]
fn flat_surface_from_band() {
    let flat = FlatSurface::from_band(
        path(&[(0.0, 0.0), (10.0, 0.0)]),
        number(1.0),
        number(2.0),
        number(4.0),
    )
    .unwrap();
    assert_eq!(
        points_of(&flat.boundary),
        vec![(0.0, 1.0), (10.0, 1.0), (10.0, -2.0), (0.0, -2.0), (0.0, 1.0)]
    );
    assert_eq!(value(flat.boundary.z), 4.0);
}

#[test]
fn empty_sculpture_has_an_empty_mesh() {
    let mesh = unfilled(&Sculpture::new(Vec::new()));
    assert!(mesh.vertices.is_empty());
    assert!(mesh.indices.is_empty());
}

#[test]
fn extrude_without_a_shifted_path_has_no_result() {
    let lower = line(&[(0.0, 0.0), (10.0, 0.0)], 1.0);
    assert!(SculptLine::extrude(&lower, number(2.0), number(f32::NAN)).is_none());
    let flat = FlatSurface { boundary: lower };
    assert!(flat.extrude(number(2.0), number(f32::NAN)).is_none());
}

#[test]
fn spine_of_a_bent_line_is_closed() {
    let center = line(&[(0.0, 0.0), (5.0, 0.0), (10.0, 1.0), (15.0, 1.0)], 2.0);
    let spine = SkeletonSpine::new(center, number(2.0)).unwrap();
    let boundary = points_of(&spine.boundary);
    let left = points_of(&spine.left);
    let right = points_of(&spine.right);
    let right_backwards: Vec<(f32, f32)> = right.iter().rev().cloned().collect();
    assert_eq!(left.len(), 4);
    assert_eq!(right.len(), 4);
    assert_eq!(boundary.len(), 9);
    assert_eq!(boundary.first(), boundary.last());
    assert_eq!(&boundary[0..4], &left[..]);
    assert_eq!(&boundary[4..8], &right_backwards[..]);
    assert_eq!(points_of(&spine.front), vec![left[3], right[3]]);
    assert_eq!(points_of(&spine.back), vec![right[0], left[0]]);
    assert_eq!(value(spine.left.z), 2.0);
}

#[test]
fn roof_of_a_bent_spine_keeps_the_inner_ridge_points() {
    let center = line(&[(0.0, 0.0), (5.0, 0.0), (10.0, 1.0), (15.0, 1.0)], 2.0);
    let spine = SkeletonSpine::new(center, number(2.0)).unwrap();
    let (roof, _) = spine.roof(number(3.0), number(1.0), number(2.0));
    let mesh = unfilled(&Sculpture::new(vec![Surface::Roof(roof)]));
    let left = points_of(&spine.left);
    let right = points_of(&spine.right);
    assert_eq!(mesh.vertices.len(), 4 + 4 + 4);
    assert_eq!(mesh.indices.len(), 2 * 6 * 3);
    assert!(mesh.indices.iter().all(|i| (*i as usize) < mesh.vertices.len()));
    let all = positions(&mesh);
    for k in 0..4 {
        assert_eq!(all[k], [left[k].0, left[k].1, 2.0]);
        assert_eq!(all[4 + k], [right[3 - k].0, right[3 - k].1, 2.0]);
    }
    assert_eq!(all[8], [2.0, 0.0, 5.0]);
    assert_eq!(all[9], [5.0, 0.0, 5.0]);
    assert_eq!(all[10], [10.0, 1.0, 5.0]);
    assert_eq!(all[11], [14.0, 1.0, 5.0]);
    assert_eq!(&mesh.indices[0..6], &[0, 8, 1, 1, 8, 9]);
    assert_eq!(&mesh.indices[18..24], &[4, 11, 5, 5, 11, 10]);
}

#[test]
fn flat_surface_without_area_has_no_triangle() {
    let boundary = line(&[(0.0, 0.0), (5.0, 0.0), (10.0, 0.0), (0.0, 0.0)], 1.0);
    let sculpture = Sculpture::new(vec![Surface::Flat(FlatSurface { boundary })]);
    let mesh = sculpture.try_to_mesh(&engine_fills(&sculpture)).unwrap();
    assert!(mesh.indices.is_empty());
}

#[test]
fn vertices_of_all_surfaces_are_kept() {
    let spine = straight_spine();
    let (roof, gable) = spine.roof(number(3.0), number(1.0), number(1.0));
    let (wall, upper) = spine.extrude(number(2.0), number(0.0), number(0.0)).unwrap();
    let flat = upper.to_flat_surface();
    let flat_alone = Sculpture::new(vec![Surface::Flat(flat.clone())]);
    let alone: Vec<usize> = vec![
        unfilled(&Sculpture::new(vec![Surface::Spanned(wall.clone())])).vertices.len(),
        flat_alone.to_mesh(&engine_fills(&flat_alone)).vertices.len(),
    ];
    assert_eq!(alone, vec![10, 4]);
    let mut sculpture = Sculpture::new(Vec::new());
    sculpture.push(Surface::Spanned(wall));
    sculpture.push(Surface::Flat(flat));
    sculpture.push(Surface::Roof(roof));
    sculpture.push(Surface::Gable(gable));
    let mesh = sculpture.try_to_mesh(&engine_fills(&sculpture)).unwrap();
    assert_eq!(mesh.vertices.len(), 10 + 4 + 6 + 6);
    assert_eq!(mesh.indices.len() % 3, 0);
    assert!(mesh.indices.iter().all(|i| (*i as usize) < mesh.vertices.len()));
}

#[test]
fn too_many_vertices_cannot_be_meshed() {
    let mut points = Vec::new();
    for i in 0..40000 {
        points.push((i as f32, 0.0));
    }
    let left = line(&points, 0.0);
    let right = line(&points, 1.0);
    let sculpture = Sculpture::new(vec![Surface::Spanned(SpannedSurface::new(left, right))]);
    assert!(!sculpture.check_meshable(&Vec::new()));
    assert!(sculpture.try_to_mesh(&Vec::new()).is_none());
}

#[test]
fn paths_made_by_hand_are_checked() {
    assert!(check_valid_path(&path(&[(0.0, 0.0), (1.0, 0.0)])));
    let empty = LinePath { points: Vec::new(), distances: Vec::new() };
    assert!(!check_valid_path(&empty));
    let mut uneven = path(&[(0.0, 0.0), (1.0, 0.0), (2.0, 0.0)]);
    uneven.distances.pop();
    assert!(!check_valid_path(&uneven));
}

#[test]
fn roof_over_a_broken_spine_cannot_be_meshed() {
    let mut pointless = straight_spine();
    pointless.center =
        Rc::new(SculptLine::new(LinePath { points: Vec::new(), distances: Vec::new() }, number(0.0)));
    let (roof, gable) = pointless.roof(number(3.0), number(1.0), number(1.0));
    assert!(Sculpture::new(vec![Surface::Roof(roof)]).try_to_mesh(&Vec::new()).is_none());
    assert!(Sculpture::new(vec![Surface::Gable(gable)]).try_to_mesh(&Vec::new()).is_none());
}
