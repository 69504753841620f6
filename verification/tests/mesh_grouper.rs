use michelangelo::mesh::Mesh;
use michelangelo::mesh::Vertex;
use michelangelo::mesh_grouper::MeshGrouper;
use michelangelo::mesh_grouper::MeshQueue;
use michelangelo::number::Number;

fn mesh_of(vertices: usize, mark: f32) -> Mesh {
    let vertex = Vertex { position: [Number::from_bits(mark.to_bits()); 3] };
    let indices = if vertices >= 3 { vec![0, 1, 2] } else { Vec::new() };
    Mesh::new(vec![vertex; vertices], indices)
}

fn keys(members: &[(u64, Mesh)]) -> Vec<u64> {
    members.iter().map(|member| member.0).collect()
}

#[test]
fn queue_takes_what_fits() {
    let mut queue = MeshQueue::new(10);
    let (dropped, dropped_vertices) = queue.push(vec![(1, mesh_of(4, 1.0)), (2, mesh_of(3, 2.0))], 7);
    assert!(dropped.is_empty());
    assert_eq!(dropped_vertices, 0);
    let mesh = queue.get_mesh_if_changed().unwrap();
    assert_eq!(mesh.vertices.len(), 7);
    assert_eq!(mesh.indices, vec![0, 1, 2, 4, 5, 6]);
    assert!(queue.get_mesh_if_changed().is_none());
}

#[test]
fn queue_drops_the_oldest_first() {
    let mut queue = MeshQueue::new(10);
    queue.push(vec![(1, mesh_of(4, 1.0))], 4);
    queue.push(vec![(2, mesh_of(3, 2.0))], 3);
    queue.push(vec![(3, mesh_of(3, 3.0))], 3);
    let (dropped, dropped_vertices) = queue.push(vec![(4, mesh_of(5, 4.0))], 5);
    assert_eq!(keys(&dropped), vec![1, 2]);
    assert_eq!(dropped_vertices, 7);
    let mesh = queue.get_mesh_if_changed().unwrap();
    assert_eq!(mesh.vertices.len(), 8);
}

#[test]
fn queue_drops_no_more_than_needed() {
    let mut queue = MeshQueue::new(10);
    queue.push(vec![(1, mesh_of(4, 1.0)), (2, mesh_of(6, 2.0))], 10);
    let (dropped, dropped_vertices) = queue.push(vec![(3, mesh_of(4, 3.0))], 4);
    assert_eq!(keys(&dropped), vec![1]);
    assert_eq!(dropped_vertices, 4);
}

#[test]
fn queue_remove_by_key() {
    let mut queue = MeshQueue::new(10);
    queue.push(vec![(1, mesh_of(4, 1.0)), (2, mesh_of(3, 2.0)), (3, mesh_of(3, 3.0))], 10);
    assert!(queue.get_mesh_if_changed().is_some());
    queue.remove(&2);
    let mesh = queue.get_mesh_if_changed().unwrap();
    assert_eq!(mesh.vertices.len(), 7);
    assert_eq!(mesh.indices, vec![0, 1, 2, 4, 5, 6]);
    let (dropped, _) = queue.push(vec![(4, mesh_of(3, 4.0))], 3);
    assert!(dropped.is_empty());
}

#[test]
fn grouper_fills_the_first_group() {
    let mut grouper = MeshGrouper::new(10);
    let changes = grouper.update(Vec::new(), vec![(1, mesh_of(4, 1.0)), (2, mesh_of(3, 2.0))]);
    assert_eq!(changes.len(), 1);
    assert_eq!(changes[0].group_id, 0);
    assert_eq!(changes[0].new_group_mesh.vertices.len(), 7);
    assert!(grouper.update(Vec::new(), Vec::new()).is_empty());
}

#[test]
fn grouper_moves_the_oldest_on() {
    let mut grouper = MeshGrouper::new(10);
    grouper.update(Vec::new(), vec![(1, mesh_of(4, 1.0)), (2, mesh_of(5, 2.0))]);
    let changes = grouper.update(Vec::new(), vec![(3, mesh_of(6, 3.0))]);
    assert_eq!(changes.len(), 2);
    assert_eq!(changes[0].group_id, 0);
    assert_eq!(changes[0].new_group_mesh.vertices.len(), 6);
    assert_eq!(changes[1].group_id, 1);
    assert_eq!(changes[1].new_group_mesh.vertices.len(), 9);
    let first = f32::from_bits(changes[1].new_group_mesh.vertices[0].position[0].to_bits());
    let last = f32::from_bits(changes[1].new_group_mesh.vertices[8].position[0].to_bits());
    assert_eq!((first, last), (1.0, 2.0));
}

#[test]
fn grouper_cascades_through_groups() {
    let mut grouper = MeshGrouper::new(10);
    grouper.update(Vec::new(), vec![(1, mesh_of(8, 1.0))]);
    grouper.update(Vec::new(), vec![(2, mesh_of(8, 2.0))]);
    let changes = grouper.update(Vec::new(), vec![(3, mesh_of(8, 3.0))]);
    assert_eq!(changes.len(), 3);
    let marks: Vec<f32> = changes
        .iter()
        .map(|change| f32::from_bits(change.new_group_mesh.vertices[0].position[0].to_bits()))
        .collect();
    assert_eq!(marks, vec![3.0, 2.0, 1.0]);
    assert_eq!(changes[2].group_id, 2);
}

#[test]
fn grouper_removes_from_the_right_group() {
    let mut grouper = MeshGrouper::new(10);
    grouper.update(Vec::new(), vec![(1, mesh_of(8, 1.0))]);
    grouper.update(Vec::new(), vec![(2, mesh_of(8, 2.0))]);
    let changes = grouper.update(vec![1], Vec::new());
    assert_eq!(changes.len(), 1);
    assert_eq!(changes[0].group_id, 1);
    assert!(changes[0].new_group_mesh.vertices.is_empty());
    let changes = grouper.update(vec![2], vec![(1, mesh_of(3, 5.0))]);
    assert_eq!(changes.len(), 1);
    assert_eq!(changes[0].group_id, 0);
    assert_eq!(changes[0].new_group_mesh.vertices.len(), 3);
}

#[test]
fn grouper_takes_a_key_twice() {
    let mut grouper = MeshGrouper::new(10);
    let changes = grouper.update(Vec::new(), vec![(1, mesh_of(4, 1.0)), (1, mesh_of(3, 2.0))]);
    assert_eq!(changes.len(), 1);
    assert_eq!(changes[0].new_group_mesh.vertices.len(), 7);
    let changes = grouper.update(vec![1], Vec::new());
    assert_eq!(changes.len(), 1);
    assert_eq!(changes[0].group_id, 0);
    assert_eq!(changes[0].new_group_mesh.vertices.len(), 3);
    let mark = f32::from_bits(changes[0].new_group_mesh.vertices[0].position[0].to_bits());
    assert_eq!(mark, 2.0);
    let changes = grouper.update(vec![1], Vec::new());
    assert_eq!(changes.len(), 1);
    assert!(changes[0].new_group_mesh.vertices.is_empty());
}

#[test]
fn grouper_tracks_a_key_to_where_a_member_was_last_pushed() {
    let mut grouper = MeshGrouper::new(10);
    grouper.update(Vec::new(), vec![(1, mesh_of(8, 1.0))]);
    let changes = grouper.update(Vec::new(), vec![(1, mesh_of(8, 2.0))]);
    assert_eq!(changes.len(), 2);
    let changes = grouper.update(vec![1], Vec::new());
    assert_eq!(changes.len(), 1);
    assert_eq!(changes[0].group_id, 1);
    assert!(changes[0].new_group_mesh.vertices.is_empty());
}
