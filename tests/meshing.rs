use voxel_world::chunk::Chunk;
use voxel_world::chunk_builder::{ChunkGenStrategy, NoiseSamples};
use voxel_world::mesh::{FaceDirection, Mesh, MeshBuilder, Vertex};
use voxel_world::vao_builder::VaoBuilder;

fn no_noise() -> NoiseSamples {
    NoiseSamples { heights: Vec::new(), positive: Vec::new() }
}

fn chunk_with(position: (i32, i32), voxels: Vec<(usize, usize, usize)>) -> Chunk {
    let mut chunk = Chunk::new(position);
    ChunkGenStrategy::SingleVoxels(voxels).apply(&mut chunk, &no_noise());
    chunk
}

fn has_face(mesh: &Mesh, corner: (i32, i32, i32), normal: (i32, i32, i32)) -> bool {
    mesh.vertices.chunks(4).any(|q| q[0].position == corner && q[0].normal == normal)
}

fn assert_quads_well_formed(mesh: &Mesh) {
    assert_eq!(mesh.vertices.len() % 4, 0);
    assert_eq!(mesh.indices.len(), mesh.vertices.len() / 4 * 6);
    for (k, six) in mesh.indices.chunks(6).enumerate() {
        let b = 4 * k as u32;
        assert_eq!(six, &[b, b + 1, b + 2, b + 2, b + 3, b]);
    }
    for quad in mesh.vertices.chunks(4) {
        assert!(quad.iter().all(|v| v.normal == quad[0].normal));
    }
}

#[test]
fn all_directions_in_fixed_order() {
    assert_eq!(
        FaceDirection::all(),
        [
            FaceDirection::Up,
            FaceDirection::Down,
            FaceDirection::Left,
            FaceDirection::Right,
            FaceDirection::Front,
            FaceDirection::Back
        ]
    );
    assert_eq!(FaceDirection::Up.normal(), (0, 1, 0));
    assert_eq!(FaceDirection::Down.normal(), (0, -1, 0));
    assert_eq!(FaceDirection::Left.normal(), (-1, 0, 0));
    assert_eq!(FaceDirection::Right.normal(), (1, 0, 0));
    assert_eq!(FaceDirection::Front.normal(), (0, 0, -1));
    assert_eq!(FaceDirection::Back.normal(), (0, 0, 1));
}

#[test]
fn face_corners_are_counter_clockwise() {
    assert_eq!(
        MeshBuilder::get_face_verticies((2, 3, 4), FaceDirection::Up),
        [(2, 4, 5), (3, 4, 5), (3, 4, 4), (2, 4, 4)]
    );
    assert_eq!(
        MeshBuilder::get_face_verticies((2, 3, 4), FaceDirection::Right),
        [(3, 4, 5), (3, 3, 5), (3, 3, 4), (3, 4, 4)]
    );
    assert_eq!(
        MeshBuilder::get_face_verticies((-1, 0, -1), FaceDirection::Front),
        [(-1, 1, -1), (0, 1, -1), (0, 0, -1), (-1, 0, -1)]
    );
    assert_eq!(
        MeshBuilder::get_face_verticies((2, 3, 4), FaceDirection::Left),
        [(2, 4, 5), (2, 4, 4), (2, 3, 4), (2, 3, 5)]
    );
}

fn cross(a: (i32, i32, i32), b: (i32, i32, i32)) -> (i32, i32, i32) {
    (a.1 * b.2 - a.2 * b.1, a.2 * b.0 - a.0 * b.2, a.0 * b.1 - a.1 * b.0)
}

fn minus(a: (i32, i32, i32), b: (i32, i32, i32)) -> (i32, i32, i32) {
    (a.0 - b.0, a.1 - b.1, a.2 - b.2)
}

#[test]
fn both_triangles_face_along_the_normal() {
    for d in FaceDirection::all() {
        let v = MeshBuilder::get_face_verticies((7, -3, 11), d);
        assert_eq!(cross(minus(v[1], v[0]), minus(v[2], v[0])), d.normal());
        assert_eq!(cross(minus(v[3], v[2]), minus(v[0], v[2])), d.normal());
    }
}

#[test]
fn add_quad_offsets_indices_by_vertex_count() {
    let mut builder = MeshBuilder::new();
    builder.add_quad((0, 0, 0), FaceDirection::Down);
    builder.add_quad((5, 6, 7), FaceDirection::Back);
    let mesh = builder.build_mesh(&[]);
    assert_eq!(mesh.indices, vec![0, 1, 2, 2, 3, 0, 4, 5, 6, 6, 7, 4]);
    assert_eq!(mesh.vertices.len(), 8);
    assert_eq!(mesh.vertices[0], Vertex { position: (0, 0, 1), normal: (0, -1, 0) });
    assert_eq!(mesh.vertices[7], Vertex { position: (6, 7, 8), normal: (0, 0, 1) });
}

#[test]
fn empty_chunk_gives_empty_mesh() {
    let chunks = vec![Chunk::new((0, 0))];
    let mesh = MeshBuilder::new().build_mesh(&chunks);
    assert!(mesh.vertices.is_empty());
    assert!(mesh.indices.is_empty());
}

#[test]
fn isolated_voxel_has_six_quads() {
    let chunks = vec![chunk_with((0, 0), vec![(1, 1, 1)])];
    let mesh = MeshBuilder::new().build_mesh(&chunks);
    assert_eq!(mesh.vertices.len(), 24);
    assert_eq!(mesh.indices.len(), 36);
    assert_quads_well_formed(&mesh);
    let normals: Vec<(i32, i32, i32)> = mesh.vertices.chunks(4).map(|q| q[0].normal).collect();
    assert_eq!(normals, vec![(0, 1, 0), (0, -1, 0), (-1, 0, 0), (1, 0, 0), (0, 0, -1), (0, 0, 1)]);
    assert_eq!(mesh.vertices[0].position, (1, 2, 2));
}

#[test]
fn touching_voxels_hide_their_shared_faces() {
    let chunks = vec![chunk_with((0, 0), vec![(1, 1, 1), (2, 1, 1)])];
    let mesh = MeshBuilder::new().build_mesh(&chunks);
    // Ten faces of four vertices and six indices each.
    assert_eq!(mesh.vertices.len() / 4, 10);
    assert_eq!(mesh.vertices.len(), 40);
    assert_eq!(mesh.indices.len(), 60);
    assert_quads_well_formed(&mesh);
    assert!(!has_face(&mesh, (2, 2, 2), (1, 0, 0)));
    assert!(!has_face(&mesh, (2, 2, 2), (-1, 0, 0)));
    assert!(has_face(&mesh, (1, 2, 2), (-1, 0, 0)));
    assert!(has_face(&mesh, (3, 2, 2), (1, 0, 0)));
}

#[test]
fn missing_neighbour_chunk_leaves_boundary_face_exposed() {
    let lone = vec![chunk_with((0, 0), vec![(15, 1, 1)])];
    let mesh = MeshBuilder::new().build_mesh(&lone);
    assert_eq!(mesh.vertices.len(), 24);
    assert!(has_face(&mesh, (16, 2, 2), (1, 0, 0)));

    let solid_neighbour = chunk_with((1, 0), vec![(0, 1, 1)]);
    let both = vec![chunk_with((0, 0), vec![(15, 1, 1)]), solid_neighbour];
    let mesh = MeshBuilder::new().build_mesh(&both);
    assert_eq!(mesh.vertices.len(), 40);
    assert!(!has_face(&mesh, (16, 2, 2), (1, 0, 0)));
    assert!(!has_face(&mesh, (16, 2, 2), (-1, 0, 0)));
}

#[test]
fn build_chunk_mesh_uses_only_the_given_neighbours() {
    let left = chunk_with((0, 0), vec![(15, 1, 1)]);
    let right = chunk_with((1, 0), vec![(0, 1, 1)]);
    let mut builder = MeshBuilder::new();
    builder.build_chunk_mesh(&left, &[&left]);
    let alone = builder.build_mesh(&[]);
    assert_eq!(alone.vertices.len(), 24);
    let mut builder = MeshBuilder::new();
    builder.build_chunk_mesh(&left, &[&left, &right]);
    let hidden = builder.build_mesh(&[]);
    assert_eq!(hidden.vertices.len(), 20);
}

#[test]
fn top_face_looks_at_the_bottom_of_the_same_column() {
    let chunks = vec![chunk_with((0, 0), vec![(3, 127, 3), (3, 0, 3)])];
    let mesh = MeshBuilder::new().build_mesh(&chunks);
    assert_eq!(mesh.vertices.len(), 40);
    assert!(!has_face(&mesh, (3, 128, 4), (0, 1, 0)));
}

#[test]
fn vao_layout_lays_layers_one_after_another() {
    let mut builder = VaoBuilder::new();
    builder.add_layer::<f32>(3).add_layer::<f32>(3).add_layer::<u8>(2);
    let (stride, layers) = builder.attribute_layout();
    assert_eq!(stride, 26);
    assert_eq!(layers, vec![(3, 0), (3, 12), (2, 24)]);
}
