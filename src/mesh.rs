use vstd::prelude::*;
use crate::block_collections::chunk_pos_in_range;
use crate::chunk::{lemma_voxel_position, Chunk};
use crate::utils::{
    chunk_of_world, get_chunk_index, local_of_world,
    world_to_chunk_coordinate, world_to_chunk_position, CHUNK_VOLUME,
};
use crate::voxel::{Voxel, VoxelKind};

verus! {

/// The most faces one mesh can hold: their vertices are then counted by `u32` indices.
pub const MAX_MESH_FACES: usize = 1_073_741_823;

/// The most faces that one chunk can give: six per voxel.
pub const MAX_CHUNK_FACES: usize = 196_608;

/// A vertex of a mesh. Positions and normals take integer values only: a face
/// corner of a unit voxel and an axis direction.
#[derive(Clone, Copy, Debug, PartialEq, Eq)]
pub struct Vertex {
    /// The position of the vertex.
    pub position: (i32, i32, i32),
    /// The normal of the vertex.
    pub normal: (i32, i32, i32),
}

/// A mesh: vertices and a flat list of triangle indices into them.
#[derive(Clone, Debug)]
pub struct Mesh {
    /// The vertices of the mesh.
    pub vertices: Vec<Vertex>,
    /// The indices of the mesh, three per triangle.
    pub indices: Vec<u32>,
}

/// The different directions that a face can be facing.
#[derive(Debug, Clone, Copy, PartialEq, Eq, Hash, Structural)]
pub enum FaceDirection {
    Up,
    Down,
    Left,
    Right,
    Front,
    Back,
}

/// A unit face: the voxel it belongs to and the direction it faces.
pub type Face = ((i32, i32, i32), FaceDirection);

/// The k-th direction in the fixed order Up, Down, Left, Right, Front, Back.
pub open spec fn direction_at(k: int) -> FaceDirection {
    if k == 0 {
        FaceDirection::Up
    } else if k == 1 {
        FaceDirection::Down
    } else if k == 2 {
        FaceDirection::Left
    } else if k == 3 {
        FaceDirection::Right
    } else if k == 4 {
        FaceDirection::Front
    } else {
        FaceDirection::Back
    }
}

/// The unit step that leaves a voxel through its face in direction `d`; it
/// is also that face's normal.
pub open spec fn direction_step(d: FaceDirection) -> (int, int, int) {
    match d {
        FaceDirection::Up => (0, 1, 0),
        FaceDirection::Down => (0, -1, 0),
        FaceDirection::Left => (-1, 0, 0),
        FaceDirection::Right => (1, 0, 0),
        FaceDirection::Front => (0, 0, -1),
        FaceDirection::Back => (0, 0, 1),
    }
}

/// The cell next to `p` across its face in direction `d`.
pub open spec fn neighbor_cell(p: (i32, i32, i32), d: FaceDirection) -> (int, int, int) {
    (p.0 + direction_step(d).0, p.1 + direction_step(d).1, p.2 + direction_step(d).2)
}

/// The four corners of the face of the unit voxel at `p` in direction `d`, in
/// counter-clockwise order seen from outside the voxel, so that both triangles
/// of the quad face along the direction's normal (`lemma_face_winding`).
pub open spec fn face_corners(p: (i32, i32, i32), d: FaceDirection) -> Seq<(int, int, int)> {
    let (x, y, z) = (p.0 as int, p.1 as int, p.2 as int);
    match d {
        FaceDirection::Up => seq![(x, y + 1, z + 1), (x + 1, y + 1, z + 1), (x + 1, y + 1, z), (x, y + 1, z)],
        FaceDirection::Down => seq![(x, y, z + 1), (x, y, z), (x + 1, y, z), (x + 1, y, z + 1)],
        FaceDirection::Left => seq![(x, y + 1, z + 1), (x, y + 1, z), (x, y, z), (x, y, z + 1)],
        FaceDirection::Right => seq![(x + 1, y + 1, z + 1), (x + 1, y, z + 1), (x + 1, y, z), (x + 1, y + 1, z)],
        FaceDirection::Front => seq![(x, y + 1, z), (x + 1, y + 1, z), (x + 1, y, z), (x, y, z)],
        FaceDirection::Back => seq![(x, y + 1, z + 1), (x, y, z + 1), (x + 1, y, z + 1), (x + 1, y + 1, z + 1)],
    }
}

/// Whether every coordinate of `p` can step one unit up within `i32`, as the
/// corners of its faces do.
pub open spec fn corners_fit(p: (i32, i32, i32)) -> bool {
    p.0 < i32::MAX && p.1 < i32::MAX && p.2 < i32::MAX
}

/// The vector from point `b` to point `a`.
pub open spec fn difference(a: (int, int, int), b: (int, int, int)) -> (int, int, int) {
    (a.0 - b.0, a.1 - b.1, a.2 - b.2)
}

/// The cross product of two vectors.
pub open spec fn cross(a: (int, int, int), b: (int, int, int)) -> (int, int, int) {
    (a.1 * b.2 - a.2 * b.1, a.2 * b.0 - a.0 * b.2, a.0 * b.1 - a.1 * b.0)
}

/// Both triangles of every face wind counter-clockwise seen from outside:
/// the cross product of each triangle's edges, taken in index order
/// `[0, 1, 2]` and `[2, 3, 0]`, is the face's normal.
pub proof fn lemma_face_winding(p: (i32, i32, i32), d: FaceDirection)
    ensures
        cross(
            difference(face_corners(p, d)[1], face_corners(p, d)[0]),
            difference(face_corners(p, d)[2], face_corners(p, d)[0]),
        ) == direction_step(d),
        cross(
            difference(face_corners(p, d)[3], face_corners(p, d)[2]),
            difference(face_corners(p, d)[0], face_corners(p, d)[2]),
        ) == direction_step(d),
{
    let c = face_corners(p, d);
    let u = difference(c[1], c[0]);
    let v = difference(c[2], c[0]);
    let w = difference(c[3], c[2]);
    let t = difference(c[0], c[2]);
    match d {
        FaceDirection::Up => {
            assert(u == (1int, 0int, 0int) && v == (1int, 0int, -1int) && w == (-1int, 0int, 0int) && t == (-1int, 0int, 1int));
            assert(cross((1int, 0int, 0int), (1int, 0int, -1int)) == (0int, 1int, 0int)) by (nonlinear_arith);
            assert(cross((-1int, 0int, 0int), (-1int, 0int, 1int)) == (0int, 1int, 0int)) by (nonlinear_arith);
        },
        FaceDirection::Down => {
            assert(u == (0int, 0int, -1int) && v == (1int, 0int, -1int) && w == (0int, 0int, 1int) && t == (-1int, 0int, 1int));
            assert(cross((0int, 0int, -1int), (1int, 0int, -1int)) == (0int, -1int, 0int)) by (nonlinear_arith);
            assert(cross((0int, 0int, 1int), (-1int, 0int, 1int)) == (0int, -1int, 0int)) by (nonlinear_arith);
        },
        FaceDirection::Left => {
            assert(u == (0int, 0int, -1int) && v == (0int, -1int, -1int) && w == (0int, 0int, 1int) && t == (0int, 1int, 1int));
            assert(cross((0int, 0int, -1int), (0int, -1int, -1int)) == (-1int, 0int, 0int)) by (nonlinear_arith);
            assert(cross((0int, 0int, 1int), (0int, 1int, 1int)) == (-1int, 0int, 0int)) by (nonlinear_arith);
        },
        FaceDirection::Right => {
            assert(u == (0int, -1int, 0int) && v == (0int, -1int, -1int) && w == (0int, 1int, 0int) && t == (0int, 1int, 1int));
            assert(cross((0int, -1int, 0int), (0int, -1int, -1int)) == (1int, 0int, 0int)) by (nonlinear_arith);
            assert(cross((0int, 1int, 0int), (0int, 1int, 1int)) == (1int, 0int, 0int)) by (nonlinear_arith);
        },
        FaceDirection::Front => {
            assert(u == (1int, 0int, 0int) && v == (1int, -1int, 0int) && w == (-1int, 0int, 0int) && t == (-1int, 1int, 0int));
            assert(cross((1int, 0int, 0int), (1int, -1int, 0int)) == (0int, 0int, -1int)) by (nonlinear_arith);
            assert(cross((-1int, 0int, 0int), (-1int, 1int, 0int)) == (0int, 0int, -1int)) by (nonlinear_arith);
        },
        FaceDirection::Back => {
            assert(u == (0int, -1int, 0int) && v == (1int, -1int, 0int) && w == (0int, 1int, 0int) && t == (-1int, 1int, 0int));
            assert(cross((0int, -1int, 0int), (1int, -1int, 0int)) == (0int, 0int, 1int)) by (nonlinear_arith);
            assert(cross((0int, 1int, 0int), (-1int, 1int, 0int)) == (0int, 0int, 1int)) by (nonlinear_arith);
        },
    }
}

/// Whether every coordinate of `p` can step one unit either way within `i32`.
pub open spec fn position_steppable(p: (i32, i32, i32)) -> bool {
    i32::MIN < p.0 < i32::MAX && i32::MIN < p.1 < i32::MAX && i32::MIN < p.2 < i32::MAX
}

/// The vertex for a corner of a face facing `d`.
pub open spec fn corner_vertex(c: (int, int, int), d: FaceDirection) -> Vertex {
    Vertex {
        position: (c.0 as i32, c.1 as i32, c.2 as i32),
        normal: (direction_step(d).0 as i32, direction_step(d).1 as i32, direction_step(d).2 as i32),
    }
}

/// The four vertices of the quad of face `f`.
pub open spec fn quad_vertices(f: Face) -> Seq<Vertex> {
    face_corners(f.0, f.1).map_values(|c: (int, int, int)| corner_vertex(c, f.1))
}

/// The six indices of the two triangles of a quad whose vertices start at `base`.
pub open spec fn quad_indices(base: int) -> Seq<u32> {
    seq![base as u32, (base + 1) as u32, (base + 2) as u32, (base + 2) as u32, (base + 3) as u32, base as u32]
}

/// The vertices of a mesh made of `faces`, four per face, in order.
pub open spec fn mesh_vertices(faces: Seq<Face>) -> Seq<Vertex>
    decreases faces.len(),
{
    if faces.len() == 0 {
        Seq::empty()
    } else {
        mesh_vertices(faces.drop_last()) + quad_vertices(faces.last())
    }
}

/// The indices of a mesh made of `faces`, six per face, each face's pointing
/// at its own four vertices.
pub open spec fn mesh_indices(faces: Seq<Face>) -> Seq<u32>
    decreases faces.len(),
{
    if faces.len() == 0 {
        Seq::empty()
    } else {
        mesh_indices(faces.drop_last()) + quad_indices(4 * (faces.len() - 1))
    }
}

/// Whether some chunk of `chunks` stands at chunk position `c`.
pub open spec fn has_chunk_at(chunks: Seq<Chunk>, c: (int, int)) -> bool {
    exists|i: int| 0 <= i < chunks.len() && (chunks[i].position.0 as int, chunks[i].position.1 as int) == c
}

/// The first chunk of `chunks` that stands at chunk position `c`.
pub open spec fn first_chunk_at(chunks: Seq<Chunk>, c: (int, int)) -> int {
    choose|i: int|
        0 <= i < chunks.len() && (chunks[i].position.0 as int, chunks[i].position.1 as int) == c && forall|j: int|
            0 <= j < i ==> (chunks[j].position.0 as int, chunks[j].position.1 as int) != c
}

/// Whether the face of the voxel at `p` in direction `d` is hidden: the chunk
/// of the neighbouring cell is among `adjacent` (its first one there), and the
/// voxel at the cell's local coordinate in that chunk is not air. A
/// neighbouring chunk that is not among `adjacent` leaves the face exposed.
pub open spec fn is_occluded(p: (i32, i32, i32), d: FaceDirection, adjacent: Seq<Chunk>) -> bool {
    let n = neighbor_cell(p, d);
    let c = chunk_of_world(n.0, n.2);
    let l = local_of_world(n.0, n.1, n.2);
    has_chunk_at(adjacent, c) && adjacent[first_chunk_at(adjacent, c)].kind_at(l.0, l.1, l.2) != VoxelKind::Air
}

/// The exposed faces of voxel `v` among the first `k` directions, in order;
/// none for air.
pub open spec fn voxel_faces(v: Voxel, adjacent: Seq<Chunk>, k: int) -> Seq<Face>
    decreases k,
{
    if k <= 0 {
        Seq::empty()
    } else {
        let prev = voxel_faces(v, adjacent, k - 1);
        let d = direction_at(k - 1);
        if v.kind != VoxelKind::Air && !is_occluded(v.position, d, adjacent) {
            prev.push((v.position, d))
        } else {
            prev
        }
    }
}

/// The exposed faces of the first `n` voxels of `voxels`, voxel by voxel.
pub open spec fn voxels_faces(voxels: Seq<Voxel>, adjacent: Seq<Chunk>, n: int) -> Seq<Face>
    decreases n,
{
    if n <= 0 {
        Seq::empty()
    } else {
        voxels_faces(voxels, adjacent, n - 1) + voxel_faces(voxels[n - 1], adjacent, 6)
    }
}

/// The exposed faces of a chunk, given the chunks that may neighbour it.
pub open spec fn chunk_faces(chunk: Chunk, adjacent: Seq<Chunk>) -> Seq<Face> {
    voxels_faces(chunk.blocks@, adjacent, chunk.blocks@.len() as int)
}

/// The chunks of `s`, behind their references.
pub open spec fn chunks_of(s: Seq<&Chunk>) -> Seq<Chunk> {
    s.map_values(|c: &Chunk| *c)
}

/// The k-th chunk offset around a chunk: x from -1 to 1 and, for each x, the
/// other axis from -1 to 1.
pub open spec fn offset_at(k: int) -> (int, int) {
    (k / 3 - 1, k % 3 - 1)
}

/// The chunks of `chunks` that stand at the first `k` offsets around `c`, the
/// first one found at each.
pub open spec fn snapshot_upto(chunks: Seq<Chunk>, c: (i32, i32), k: int) -> Seq<Chunk>
    decreases k,
{
    if k <= 0 {
        Seq::empty()
    } else {
        let prev = snapshot_upto(chunks, c, k - 1);
        let p = (c.0 + offset_at(k - 1).0, c.1 + offset_at(k - 1).1);
        if has_chunk_at(chunks, p) {
            prev.push(chunks[first_chunk_at(chunks, p)])
        } else {
            prev
        }
    }
}

/// The chunk at `c` and its up to eight neighbours, as found in `chunks`.
pub open spec fn snapshot(chunks: Seq<Chunk>, c: (i32, i32)) -> Seq<Chunk> {
    snapshot_upto(chunks, c, 9)
}

/// The exposed faces of the first `n` chunks of `chunks`, each meshed against
/// its snapshot in `chunks`.
pub open spec fn meshed_faces(chunks: Seq<Chunk>, n: int) -> Seq<Face>
    decreases n,
{
    if n <= 0 {
        Seq::empty()
    } else {
        meshed_faces(chunks, n - 1) + chunk_faces(chunks[n - 1], snapshot(chunks, chunks[n - 1].position))
    }
}

/// A mesh of `faces` has four vertices and six indices per face.
pub proof fn lemma_mesh_lengths(faces: Seq<Face>)
    ensures
        mesh_vertices(faces).len() == 4 * faces.len(),
        mesh_indices(faces).len() == 6 * faces.len(),
    decreases faces.len(),
{
    if faces.len() > 0 {
        lemma_mesh_lengths(faces.drop_last());
    }
}

/// A voxel has at most one exposed face per direction looked at, and air has none.
proof fn lemma_voxel_faces_len(v: Voxel, adjacent: Seq<Chunk>, k: int)
    ensures
        voxel_faces(v, adjacent, k).len() <= if k < 0 { 0 } else { k },
        v.kind == VoxelKind::Air ==> voxel_faces(v, adjacent, k).len() == 0,
    decreases k,
{
    if k > 0 {
        lemma_voxel_faces_len(v, adjacent, k - 1);
    }
}

/// The first `n` voxels have at most six exposed faces each.
proof fn lemma_voxels_faces_len(voxels: Seq<Voxel>, adjacent: Seq<Chunk>, n: int)
    requires
        0 <= n,
    ensures
        voxels_faces(voxels, adjacent, n).len() <= 6 * n,
    decreases n,
{
    if n > 0 {
        lemma_voxels_faces_len(voxels, adjacent, n - 1);
        lemma_voxel_faces_len(voxels[n - 1], adjacent, 6);
    }
}

/// The first `n` chunks give at most `MAX_CHUNK_FACES` faces each.
proof fn lemma_meshed_faces_len(chunks: Seq<Chunk>, n: int)
    requires
        0 <= n <= chunks.len(),
        forall|i: int| 0 <= i < chunks.len() ==> (#[trigger] chunks[i]).wf(),
    ensures
        meshed_faces(chunks, n).len() <= MAX_CHUNK_FACES * n,
    decreases n,
{
    if n > 0 {
        lemma_meshed_faces_len(chunks, n - 1);
        let c = chunks[n - 1];
        lemma_voxels_faces_len(c.blocks@, snapshot(chunks, c.position), c.blocks@.len() as int);
    }
}

/// The position of direction `d` in the fixed order of directions.
pub open spec fn direction_index(d: FaceDirection) -> int {
    match d {
        FaceDirection::Up => 0,
        FaceDirection::Down => 1,
        FaceDirection::Left => 2,
        FaceDirection::Right => 3,
        FaceDirection::Front => 4,
        FaceDirection::Back => 5,
    }
}

/// An exposed face of a solid voxel is among its faces once its direction has been looked at.
proof fn lemma_voxel_faces_contains(v: Voxel, adjacent: Seq<Chunk>, d: FaceDirection, k: int)
    requires
        v.kind != VoxelKind::Air,
        !is_occluded(v.position, d, adjacent),
        direction_index(d) < k,
    ensures
        voxel_faces(v, adjacent, k).contains((v.position, d)),
    decreases k,
{
    let prev = voxel_faces(v, adjacent, k - 1);
    if direction_index(d) == k - 1 {
        assert(direction_at(k - 1) == d);
        assert(voxel_faces(v, adjacent, k) == prev.push((v.position, d)));
        assert(voxel_faces(v, adjacent, k)[prev.len() as int] == (v.position, d));
    } else {
        lemma_voxel_faces_contains(v, adjacent, d, k - 1);
        let w = choose|w: int| 0 <= w < prev.len() && prev[w] == (v.position, d);
        assert(voxel_faces(v, adjacent, k)[w] == (v.position, d));
    }
}

/// The faces of each of the first `n` voxels are among the faces of those voxels.
proof fn lemma_voxels_faces_contains(voxels: Seq<Voxel>, adjacent: Seq<Chunk>, n: int, i: int, f: Face)
    requires
        0 <= i < n,
        voxel_faces(voxels[i], adjacent, 6).contains(f),
    ensures
        voxels_faces(voxels, adjacent, n).contains(f),
    decreases n,
{
    let prev = voxels_faces(voxels, adjacent, n - 1);
    let last = voxel_faces(voxels[n - 1], adjacent, 6);
    if i == n - 1 {
        let w = choose|w: int| 0 <= w < last.len() && last[w] == f;
        assert((prev + last)[prev.len() + w] == f);
    } else {
        lemma_voxels_faces_contains(voxels, adjacent, n - 1, i, f);
        let w = choose|w: int| 0 <= w < prev.len() && prev[w] == f;
        assert((prev + last)[w] == f);
    }
}

/// A solid voxel whose neighbouring cell across direction `d` lies in a chunk
/// missing from the chunks it is meshed against always has its face in that
/// direction in the chunk's faces.
pub proof fn lemma_missing_neighbor_face_exposed(chunk: Chunk, adjacent: Seq<Chunk>, i: int, d: FaceDirection)
    requires
        0 <= i < chunk.blocks@.len(),
        chunk.blocks@[i].kind != VoxelKind::Air,
        !has_chunk_at(
            adjacent,
            chunk_of_world(neighbor_cell(chunk.blocks@[i].position, d).0, neighbor_cell(chunk.blocks@[i].position, d).2),
        ),
    ensures
        chunk_faces(chunk, adjacent).contains((chunk.blocks@[i].position, d)),
{
    let v = chunk.blocks@[i];
    lemma_voxel_faces_contains(v, adjacent, d, 6);
    lemma_voxels_faces_contains(chunk.blocks@, adjacent, chunk.blocks@.len() as int, i, (v.position, d));
}

/// Each face of a mesh owns four consecutive vertices, its quad's, and six
/// consecutive indices, which point at those four vertices only.
pub proof fn lemma_mesh_quads(faces: Seq<Face>, k: int)
    requires
        0 <= k < faces.len(),
    ensures
        mesh_vertices(faces).subrange(4 * k, 4 * k + 4) == quad_vertices(faces[k]),
        mesh_indices(faces).subrange(6 * k, 6 * k + 6) == quad_indices(4 * k),
    decreases faces.len(),
{
    let prev = faces.drop_last();
    lemma_mesh_lengths(prev);
    if k < faces.len() - 1 {
        lemma_mesh_quads(prev, k);
        assert(mesh_vertices(faces).subrange(4 * k, 4 * k + 4) =~= mesh_vertices(prev).subrange(4 * k, 4 * k + 4));
        assert(mesh_indices(faces).subrange(6 * k, 6 * k + 6) =~= mesh_indices(prev).subrange(6 * k, 6 * k + 6));
    } else {
        assert(mesh_vertices(faces).subrange(4 * k, 4 * k + 4) =~= quad_vertices(faces[k]));
        assert(mesh_indices(faces).subrange(6 * k, 6 * k + 6) =~= quad_indices(4 * k));
    }
}

impl FaceDirection {
    /// Returns a list of all of the directions.
    pub fn all() -> (r: [FaceDirection; 6])
        ensures
            forall|k: int| 0 <= k < 6 ==> r@[k] == direction_at(k),
    {
        [
            FaceDirection::Up,
            FaceDirection::Down,
            FaceDirection::Left,
            FaceDirection::Right,
            FaceDirection::Front,
            FaceDirection::Back,
        ]
    }

    /// Returns the face normal of the direction.
    pub fn normal(&self) -> (r: (i32, i32, i32))
        ensures
            (r.0 as int, r.1 as int, r.2 as int) == direction_step(*self),
    {
        match self {
            FaceDirection::Up => (0, 1, 0),
            FaceDirection::Down => (0, -1, 0),
            FaceDirection::Left => (-1, 0, 0),
            FaceDirection::Right => (1, 0, 0),
            FaceDirection::Front => (0, 0, -1),
            FaceDirection::Back => (0, 0, 1),
        }
    }
}

/// The index of the first chunk of `chunks` at `pos`, if any.
fn find_chunk_at(chunks: &[Chunk], pos: (i32, i32)) -> (r: Option<usize>)
    ensures
        r is None <==> !has_chunk_at(chunks@, (pos.0 as int, pos.1 as int)),
        r matches Some(i) ==> i == first_chunk_at(chunks@, (pos.0 as int, pos.1 as int)) && i < chunks@.len(),
{
    let ghost c = (pos.0 as int, pos.1 as int);
    let mut i: usize = 0;
    while i < chunks.len()
        invariant
            i <= chunks@.len(),
            c == (pos.0 as int, pos.1 as int),
            forall|j: int| 0 <= j < i ==> ((#[trigger] chunks@[j]).position.0 as int, chunks@[j].position.1 as int) != c,
        decreases chunks@.len() - i,
    {
        if chunks[i].position.0 == pos.0 && chunks[i].position.1 == pos.1 {
            proof {
                let f = first_chunk_at(chunks@, c);
                if f != i {
                    if f < i {
                        assert((chunks@[f].position.0 as int, chunks@[f].position.1 as int) != c);
                    } else {
                        assert((chunks@[i as int].position.0 as int, chunks@[i as int].position.1 as int) != c);
                    }
                }
            }
            return Some(i);
        }
        i = i + 1;
    }
    None
}

/// The index of the first chunk of `chunks` at `pos`, if any.
fn find_adjacent_at(chunks: &[&Chunk], pos: (i32, i32)) -> (r: Option<usize>)
    ensures
        r is None <==> !has_chunk_at(chunks_of(chunks@), (pos.0 as int, pos.1 as int)),
        r matches Some(i) ==> i == first_chunk_at(chunks_of(chunks@), (pos.0 as int, pos.1 as int)) && i < chunks@.len(),
{
    let ghost c = (pos.0 as int, pos.1 as int);
    let ghost s = chunks_of(chunks@);
    let mut i: usize = 0;
    while i < chunks.len()
        invariant
            i <= chunks@.len(),
            s == chunks_of(chunks@),
            c == (pos.0 as int, pos.1 as int),
            forall|j: int| 0 <= j < i ==> ((#[trigger] s[j]).position.0 as int, s[j].position.1 as int) != c,
        decreases chunks@.len() - i,
    {
        if chunks[i].position.0 == pos.0 && chunks[i].position.1 == pos.1 {
            proof {
                let f = first_chunk_at(s, c);
                assert((s[i as int].position.0 as int, s[i as int].position.1 as int) == c);
                if f != i {
                    if f < i {
                        assert((s[f].position.0 as int, s[f].position.1 as int) != c);
                    } else {
                        assert((s[i as int].position.0 as int, s[i as int].position.1 as int) != c);
                    }
                }
            }
            return Some(i);
        }
        i = i + 1;
    }
    None
}

/// A struct that builds a mesh from a set of voxels.
pub struct MeshBuilder {
    /// The mesh that is being built.
    mesh: Mesh,
    /// The faces that the mesh holds so far, in order.
    faces: Ghost<Seq<Face>>,
}

impl MeshBuilder {
    /// The faces that the mesh holds so far, in the order they were added.
    pub closed spec fn faces(&self) -> Seq<Face> {
        self.faces@
    }

    /// The mesh holds exactly the quads of `faces()`.
    pub closed spec fn wf(&self) -> bool {
        &&& self.mesh.vertices@ == mesh_vertices(self.faces@)
        &&& self.mesh.indices@ == mesh_indices(self.faces@)
        &&& self.faces@.len() <= MAX_MESH_FACES
    }

    /// Creates a new mesh builder, with an empty mesh.
    pub fn new() -> (r: Self)
        ensures
            r.wf(),
            r.faces() == Seq::<Face>::empty(),
    {
        MeshBuilder { mesh: Mesh { vertices: Vec::new(), indices: Vec::new() }, faces: Ghost(Seq::empty()) }
    }

    /// Returns the corners of the face of the unit voxel at `position` facing
    /// `direction`, in counter-clockwise order.
    pub fn get_face_verticies(position: (i32, i32, i32), direction: FaceDirection) -> (r: [(i32, i32, i32); 4])
        requires
            corners_fit(position),
        ensures
            forall|k: int|
                0 <= k < 4 ==> (r@[k].0 as int, r@[k].1 as int, r@[k].2 as int) == #[trigger] face_corners(
                    position,
                    direction,
                )[k],
    {
        let (x, y, z) = position;
        match direction {
            FaceDirection::Up => [(x, y + 1, z + 1), (x + 1, y + 1, z + 1), (x + 1, y + 1, z), (x, y + 1, z)],
            FaceDirection::Down => [(x, y, z + 1), (x, y, z), (x + 1, y, z), (x + 1, y, z + 1)],
            FaceDirection::Left => [(x, y + 1, z + 1), (x, y + 1, z), (x, y, z), (x, y, z + 1)],
            FaceDirection::Right => [(x + 1, y + 1, z + 1), (x + 1, y, z + 1), (x + 1, y, z), (x + 1, y + 1, z)],
            FaceDirection::Front => [(x, y + 1, z), (x + 1, y + 1, z), (x + 1, y, z), (x, y, z)],
            FaceDirection::Back => [(x, y + 1, z + 1), (x, y, z + 1), (x + 1, y, z + 1), (x + 1, y + 1, z + 1)],
        }
    }

    /// Adds to the mesh the quad of the face of the voxel at `position` facing
    /// `direction`: its four corners, each with the direction's normal, and
    /// the indices `[0, 1, 2, 2, 3, 0]` offset by the vertex count so far.
    #[verifier::spinoff_prover]
    pub fn add_quad(&mut self, position: (i32, i32, i32), direction: FaceDirection)
        requires
            old(self).wf(),
            old(self).faces().len() < MAX_MESH_FACES,
            corners_fit(position),
        ensures
            final(self).wf(),
            final(self).faces() == old(self).faces().push((position, direction)),
    {
        let ghost f = (position, direction);
        let ghost faces = self.faces@.push(f);
        proof {
            lemma_mesh_lengths(self.faces@);
            assert(faces.drop_last() =~= self.faces@);
        }
        let index_offset = self.mesh.vertices.len() as u32;

        self.mesh.indices.push(index_offset);
        self.mesh.indices.push(index_offset + 1);
        self.mesh.indices.push(index_offset + 2);

        self.mesh.indices.push(index_offset + 2);
        self.mesh.indices.push(index_offset + 3);
        self.mesh.indices.push(index_offset);
        assert(index_offset == 4 * (faces.len() - 1));
        assert(self.mesh.indices@ =~= mesh_indices(faces));

        let verticies = Self::get_face_verticies(position, direction);
        let normal = direction.normal();

        let mut k: usize = 0;
        while k < 4
            invariant
                k <= 4,
                self.mesh.vertices@ == mesh_vertices(faces.drop_last()) + quad_vertices(f).take(k as int),
                forall|j: int|
                    0 <= j < 4 ==> (verticies@[j].0 as int, verticies@[j].1 as int, verticies@[j].2 as int) == #[trigger] face_corners(
                        position,
                        direction,
                    )[j],
                (normal.0 as int, normal.1 as int, normal.2 as int) == direction_step(direction),
                f == (position, direction),
                self.mesh.indices@ == mesh_indices(faces),
            decreases 4 - k,
        {
            let c = verticies[k];
            self.mesh.vertices.push(Vertex { position: c, normal });
            k = k + 1;
            assert(self.mesh.vertices@ =~= mesh_vertices(faces.drop_last()) + quad_vertices(f).take(k as int));
        }
        assert(quad_vertices(f).take(4) =~= quad_vertices(f));
        self.faces = Ghost(faces);
    }

    /// Checks if the face of the voxel at `position` facing `direction` is
    /// hidden by a solid voxel, looking the neighbouring cell up in
    /// `adjacent_chunks`. A neighbouring chunk missing there counts as empty.
    #[verifier::spinoff_prover]
    fn is_adjacent(&self, position: (i32, i32, i32), direction: FaceDirection, adjacent_chunks: &[&Chunk]) -> (r: bool)
        requires
            position_steppable(position),
            forall|i: int| 0 <= i < adjacent_chunks@.len() ==> (#[trigger] adjacent_chunks@[i]).wf(),
        ensures
            r == is_occluded(position, direction, chunks_of(adjacent_chunks@)),
    {
        let (x, y, z) = position;

        let (bx, by, bz) = match direction {
            FaceDirection::Up => (x, y + 1, z),
            FaceDirection::Down => (x, y - 1, z),
            FaceDirection::Left => (x - 1, y, z),
            FaceDirection::Right => (x + 1, y, z),
            FaceDirection::Front => (x, y, z - 1),
            FaceDirection::Back => (x, y, z + 1),
        };

        let chunk_pos = world_to_chunk_position(bx, bz);
        let chunk_coords = world_to_chunk_coordinate(bx, by, bz);

        match find_adjacent_at(adjacent_chunks, chunk_pos) {
            None => false,
            Some(j) => {
                let chunk = adjacent_chunks[j];
                proof {
                    assert(chunks_of(adjacent_chunks@)[j as int] == *chunk);
                    assert(chunk.wf());
                }
                let index = get_chunk_index(chunk_coords);
                chunk.blocks.get_by_index(index).kind != VoxelKind::Air
            },
        }
    }

    /// Adds the quad of the face of the voxel at `position` facing `direction`,
    /// unless a solid voxel hides it.
    #[verifier::spinoff_prover]
    fn add_quad_if_not_adjacent(&mut self, position: (i32, i32, i32), direction: FaceDirection, adjacent_chunks: &[&Chunk])
        requires
            old(self).wf(),
            old(self).faces().len() < MAX_MESH_FACES,
            position_steppable(position),
            forall|i: int| 0 <= i < adjacent_chunks@.len() ==> (#[trigger] adjacent_chunks@[i]).wf(),
        ensures
            final(self).wf(),
            final(self).faces() == if is_occluded(position, direction, chunks_of(adjacent_chunks@)) {
                old(self).faces()
            } else {
                old(self).faces().push((position, direction))
            },
    {
        if !self.is_adjacent(position, direction, adjacent_chunks) {
            self.add_quad(position, direction);
        }
    }

    /// Adds the exposed faces of every solid voxel of `chunk`, in storage
    /// order and, for each voxel, in the order of `FaceDirection::all`.
    /// `adjacent_chunks` holds the chunks that may neighbour it, itself included.
    #[verifier::spinoff_prover]
    pub fn build_chunk_mesh(&mut self, chunk: &Chunk, adjacent_chunks: &[&Chunk])
        requires
            old(self).wf(),
            chunk.wf(),
            forall|i: int| 0 <= i < adjacent_chunks@.len() ==> (#[trigger] adjacent_chunks@[i]).wf(),
            old(self).faces().len() + MAX_CHUNK_FACES <= MAX_MESH_FACES,
        ensures
            final(self).wf(),
            final(self).faces() == old(self).faces() + chunk_faces(*chunk, chunks_of(adjacent_chunks@)),
    {
        let ghost adj = chunks_of(adjacent_chunks@);
        let ghost voxels = chunk.blocks@;
        let mut i: usize = 0;
        while i < CHUNK_VOLUME
            invariant
                i <= CHUNK_VOLUME,
                chunk.wf(),
                voxels == chunk.blocks@,
                adj == chunks_of(adjacent_chunks@),
                forall|j: int| 0 <= j < adjacent_chunks@.len() ==> (#[trigger] adjacent_chunks@[j]).wf(),
                old(self).faces().len() + MAX_CHUNK_FACES <= MAX_MESH_FACES,
                self.wf(),
                self.faces() == old(self).faces() + voxels_faces(voxels, adj, i as int),
            decreases CHUNK_VOLUME - i,
        {
            let voxel = *chunk.blocks.get_by_index(i);
            let ghost before = self.faces();
            proof {
                lemma_voxels_faces_len(voxels, adj, i as int);
                lemma_voxel_position(chunk.position, voxels, i as int);
                lemma_voxel_faces_len(voxel, adj, 6);
            }
            if voxel.kind != VoxelKind::Air {
                let directions = FaceDirection::all();
                let mut k: usize = 0;
                while k < 6
                    invariant
                        k <= 6,
                        voxel.kind != VoxelKind::Air,
                        position_steppable(voxel.position),
                        forall|m: int| 0 <= m < 6 ==> directions@[m] == direction_at(m),
                        adj == chunks_of(adjacent_chunks@),
                        forall|j: int| 0 <= j < adjacent_chunks@.len() ==> (#[trigger] adjacent_chunks@[j]).wf(),
                        before.len() + 6 <= MAX_MESH_FACES,
                        self.wf(),
                        self.faces() == before + voxel_faces(voxel, adj, k as int),
                    decreases 6 - k,
                {
                    proof {
                        lemma_voxel_faces_len(voxel, adj, k as int);
                    }
                    self.add_quad_if_not_adjacent(voxel.position, directions[k], adjacent_chunks);
                    k = k + 1;
                    assert(self.faces() =~= before + voxel_faces(voxel, adj, k as int));
                }
            }
            i = i + 1;
            assert(self.faces() =~= old(self).faces() + voxels_faces(voxels, adj, i as int));
        }
    }

    /// Builds the mesh of `chunks`: each chunk's exposed faces, in the order
    /// of the chunks, each chunk meshed against itself and its up to eight
    /// neighbours found in `chunks`. The builder's faces so far come first.
    #[verifier::spinoff_prover]
    pub fn build_mesh(self, chunks: &[Chunk]) -> (r: Mesh)
        requires
            self.wf(),
            forall|i: int| 0 <= i < chunks@.len() ==> (#[trigger] chunks@[i]).wf(),
            self.faces().len() + chunks@.len() * MAX_CHUNK_FACES <= MAX_MESH_FACES,
        ensures
            r.vertices@ == mesh_vertices(self.faces() + meshed_faces(chunks@, chunks@.len() as int)),
            r.indices@ == mesh_indices(self.faces() + meshed_faces(chunks@, chunks@.len() as int)),
    {
        let ghost start = self.faces();
        let mut builder = self;
        let mut i: usize = 0;
        while i < chunks.len()
            invariant
                i <= chunks@.len(),
                forall|j: int| 0 <= j < chunks@.len() ==> (#[trigger] chunks@[j]).wf(),
                start.len() + chunks@.len() * MAX_CHUNK_FACES <= MAX_MESH_FACES,
                builder.wf(),
                builder.faces() == start + meshed_faces(chunks@, i as int),
            decreases chunks@.len() - i,
        {
            let chunk = &chunks[i];
            let adjacent_chunks = adjacent_chunks_of(chunks, chunk.position);
            proof {
                lemma_meshed_faces_len(chunks@, i as int);
                assert(chunks@[i as int].wf());
            }
            builder.build_chunk_mesh(chunk, adjacent_chunks.as_slice());
            i = i + 1;
            assert(builder.faces() =~= start + meshed_faces(chunks@, i as int));
        }
        builder.mesh
    }
}

/// The chunks of `chunks` at `position` and around it, in the order of
/// `offset_at`, the first one found at each offset.
#[verifier::spinoff_prover]
fn adjacent_chunks_of<'a>(chunks: &'a [Chunk], position: (i32, i32)) -> (r: Vec<&'a Chunk>)
    requires
        chunk_pos_in_range(position),
        forall|i: int| 0 <= i < chunks@.len() ==> (#[trigger] chunks@[i]).wf(),
    ensures
        chunks_of(r@) == snapshot(chunks@, position),
        forall|i: int| 0 <= i < r@.len() ==> (#[trigger] r@[i]).wf(),
{
    let mut r: Vec<&'a Chunk> = Vec::new();
    let mut k: i32 = 0;
    while k < 9
        invariant
            0 <= k <= 9,
            chunk_pos_in_range(position),
            forall|i: int| 0 <= i < chunks@.len() ==> (#[trigger] chunks@[i]).wf(),
            chunks_of(r@) == snapshot_upto(chunks@, position, k as int),
            forall|i: int| 0 <= i < r@.len() ==> (#[trigger] r@[i]).wf(),
        decreases 9 - k,
    {
        let x = k / 3 - 1;
        let y = k % 3 - 1;
        let p = (position.0 + x, position.1 + y);
        if let Some(j) = find_chunk_at(chunks, p) {
            r.push(&chunks[j]);
        }
        k = k + 1;
        assert(chunks_of(r@) =~= snapshot_upto(chunks@, position, k as int));
    }
    r
}

} // verus!
