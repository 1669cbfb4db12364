use planet_core::geometry::mesh::{icosahedron_triangles, Edge, Mesh, MeshError};
use planet_core::processor::finalize_normals::face_corners;

type P = (f32, f32, f32);

fn square() -> Mesh<P> {
    Mesh::new(
        vec![(0.0, 0.0, 0.0), (1.0, 0.0, 0.0), (1.0, 1.0, 0.0), (0.0, 1.0, 0.0)],
        vec![(0, 1, 2), (0, 2, 3)],
    )
    .unwrap()
}

#[test]
fn mesh_new_builds_three_edges_per_face() {
    let mesh = square();
    assert_eq!(
        mesh.edges(),
        &[
            Edge { start: 0, end: 1, face: 0 },
            Edge { start: 1, end: 2, face: 0 },
            Edge { start: 2, end: 0, face: 0 },
            Edge { start: 0, end: 2, face: 1 },
            Edge { start: 2, end: 3, face: 1 },
            Edge { start: 3, end: 0, face: 1 },
        ]
    );
    assert_eq!(mesh.faces().len(), 2);
    assert_eq!(mesh.faces()[0].edges, vec![0, 1, 2]);
    assert_eq!(mesh.faces()[1].edges, vec![3, 4, 5]);
    assert_eq!(mesh.faces()[1].order, 3);
    assert_eq!(mesh.faces()[1].normal, (0.0, 0.0, 0.0));
}

#[test]
fn mesh_new_lists_each_vertex_outgoing_edges_in_order() {
    let mesh = square();
    let lists: Vec<Vec<usize>> = mesh.vertices().iter().map(|v| v.edges.clone()).collect();
    assert_eq!(lists, vec![vec![0, 3], vec![1], vec![2, 4], vec![5]]);
    assert_eq!(mesh.vertices()[2].position, (1.0, 1.0, 0.0));
    assert_eq!(mesh.vertices()[2].normal, (0.0, 0.0, 0.0));
}

#[test]
fn mesh_new_reports_the_first_corner_out_of_bounds() {
    let result = Mesh::<P>::new(
        vec![(0.0, 0.0, 0.0), (1.0, 0.0, 0.0), (1.0, 1.0, 0.0)],
        vec![(0, 1, 2), (0, 7, 5), (9, 0, 0)],
    );
    assert_eq!(result, Err(MeshError::VertexIndexOutOfBounds { index: 7, vertex_count: 3 }));
}

#[test]
fn mesh_new_accepts_an_empty_mesh() {
    let mesh = Mesh::<P>::new(vec![], vec![]).unwrap();
    assert!(mesh.vertices().is_empty());
    assert!(mesh.edges().is_empty());
    assert!(mesh.faces().is_empty());
}

#[test]
fn icosahedron_has_twenty_faces_over_twelve_corners() {
    let t = 1.618f32;
    let corners: [P; 12] = [
        (-1.0, t, 0.0), (1.0, t, 0.0), (-1.0, -t, 0.0), (1.0, -t, 0.0),
        (0.0, -1.0, t), (0.0, 1.0, t), (0.0, -1.0, -t), (0.0, 1.0, -t),
        (t, 0.0, -1.0), (t, 0.0, 1.0), (-t, 0.0, -1.0), (-t, 0.0, 1.0),
    ];
    let mesh = Mesh::icosahedron(corners).unwrap();
    assert_eq!(mesh.vertices().len(), 12);
    assert_eq!(mesh.faces().len(), 20);
    assert_eq!(mesh.edges().len(), 60);
    assert_eq!(icosahedron_triangles().len(), 20);
    // Every corner starts five edges: five faces meet at each corner.
    for vertex in mesh.vertices() {
        assert_eq!(vertex.edges.len(), 5);
    }
}

#[test]
fn with_repositioned_moves_vertices_and_keeps_topology() {
    let mesh = square();
    let moved = mesh.with_repositioned(vec![(5.0, 0.0, 0.0), (6.0, 0.0, 0.0), (6.0, 1.0, 0.0), (5.0, 1.0, 0.0), (9.0, 9.0, 9.0)]);
    assert_eq!(moved.vertices().len(), 4);
    assert_eq!(moved.vertices()[0].position, (5.0, 0.0, 0.0));
    assert_eq!(moved.vertices()[0].edges, vec![0, 3]);
    assert_eq!(moved.edges(), mesh.edges());
    assert_eq!(moved.faces(), mesh.faces());
}

#[test]
fn with_normals_sets_normals_only() {
    let mesh = square();
    let up = (0.0, 0.0, 1.0);
    let shaded = mesh.with_normals(vec![up; 4], vec![up; 2]);
    assert_eq!(shaded.vertices()[3].normal, up);
    assert_eq!(shaded.vertices()[3].position, (0.0, 1.0, 0.0));
    assert_eq!(shaded.faces()[1].normal, up);
    assert_eq!(shaded.faces()[1].edges, vec![3, 4, 5]);
    assert_eq!(shaded.edges(), mesh.edges());
}

#[test]
fn duplicate_is_equal() {
    let mesh = square();
    assert_eq!(mesh.duplicate(), mesh);
    assert_eq!(mesh.clone(), mesh);
}

#[test]
fn from_parts_round_trips() {
    let mesh = square();
    let rebuilt = Mesh::from_parts(mesh.vertices().to_vec(), mesh.edges().to_vec(), mesh.faces().to_vec());
    assert_eq!(rebuilt, mesh);
}

#[test]
fn face_corners_reads_the_start_of_each_face_edge() {
    let mesh = square();
    assert_eq!(face_corners(&mesh, &mesh.faces()[1]), [0, 2, 3]);
    let short = planet_core::geometry::face::Face { edges: vec![4], order: 1, normal: (0.0, 0.0, 0.0) };
    assert_eq!(face_corners(&mesh, &short), [2, 0, 0]);
}
