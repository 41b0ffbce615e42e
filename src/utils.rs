use vstd::prelude::*;
use vstd::arithmetic::div_mod::{lemma_div_denominator, lemma_fundamental_div_mod, lemma_fundamental_div_mod_converse};

verus! {

/// The width (along x and z) of a chunk, in voxels.
pub const CHUNK_WIDTH: usize = 16;

/// The height (along y) of a chunk, in voxels.
pub const CHUNK_HEIGHT: usize = 128;

/// The number of voxels in one chunk.
pub const CHUNK_VOLUME: usize = 32768;

/// A voxel's position inside its chunk: (x, y, z) with x, z below the chunk
/// width and y below the chunk height.
pub type BlockIndex = (usize, usize, usize);

/// Whether `(x, y, z)` lies inside a chunk.
pub open spec fn local_in_range(x: int, y: int, z: int) -> bool {
    0 <= x < CHUNK_WIDTH && 0 <= y < CHUNK_HEIGHT && 0 <= z < CHUNK_WIDTH
}

/// The flat storage offset of the local coordinate `(x, y, z)`.
pub open spec fn index_of_local(x: int, y: int, z: int) -> int {
    x + CHUNK_WIDTH * (y + CHUNK_HEIGHT * z)
}

/// The local coordinate stored at flat offset `i`.
pub open spec fn local_of_index(i: int) -> (int, int, int) {
    (i % CHUNK_WIDTH as int, (i / CHUNK_WIDTH as int) % CHUNK_HEIGHT as int, i / (CHUNK_WIDTH * CHUNK_HEIGHT) as int)
}

/// The chunk that holds the world column `(x, z)`: floor division by the chunk width.
pub open spec fn chunk_of_world(x: int, z: int) -> (int, int) {
    (x / CHUNK_WIDTH as int, z / CHUNK_WIDTH as int)
}

/// The local coordinate of the world position `(x, y, z)` in its chunk: the
/// euclidean remainders by the chunk width and height.
pub open spec fn local_of_world(x: int, y: int, z: int) -> (int, int, int) {
    (x % CHUNK_WIDTH as int, y % CHUNK_HEIGHT as int, z % CHUNK_WIDTH as int)
}

/// The world position of the local coordinate `(x, y, z)` of chunk `c`.
pub open spec fn world_of_local(c: (int, int), x: int, y: int, z: int) -> (int, int, int) {
    (c.0 * CHUNK_WIDTH + x, y, c.1 * CHUNK_WIDTH + z)
}

/// Offset and local coordinate describe the same voxel, both ways.
pub proof fn lemma_index_local(i: int)
    requires
        0 <= i < CHUNK_VOLUME,
    ensures
        local_in_range(local_of_index(i).0, local_of_index(i).1, local_of_index(i).2),
        index_of_local(local_of_index(i).0, local_of_index(i).1, local_of_index(i).2) == i,
{
    let q = i / 16;
    lemma_fundamental_div_mod(i, 16);
    lemma_fundamental_div_mod(q, 128);
    lemma_div_denominator(i, 16, 128);
}

/// The offset of a local coordinate is within the chunk and maps back to it.
pub proof fn lemma_local_index(x: int, y: int, z: int)
    requires
        local_in_range(x, y, z),
    ensures
        0 <= index_of_local(x, y, z) < CHUNK_VOLUME,
        local_of_index(index_of_local(x, y, z)) == (x, y, z),
{
    let i = index_of_local(x, y, z);
    lemma_fundamental_div_mod_converse(i, 16, y + 128 * z, x);
    lemma_fundamental_div_mod_converse(y + 128 * z, 128, z, y);
    lemma_div_denominator(i, 16, 128);
}

/// Returns the index of a block given its position in the chunk.
/// For example, (0, 10, 0) -> 160.
pub fn get_chunk_index(chunk_coord: BlockIndex) -> (r: usize)
    requires
        local_in_range(chunk_coord.0 as int, chunk_coord.1 as int, chunk_coord.2 as int),
    ensures
        r == index_of_local(chunk_coord.0 as int, chunk_coord.1 as int, chunk_coord.2 as int),
        r < CHUNK_VOLUME,
{
    let (x, y, z) = chunk_coord;
    x + CHUNK_WIDTH * (y + CHUNK_HEIGHT * z)
}

/// Returns the coordinate of a chunk, given a block's position in the world.
/// For example, (17, 0) -> (1, 0) and (-1, 0) -> (-1, 0).
pub fn world_to_chunk_position(x: i32, z: i32) -> (r: (i32, i32))
    ensures
        (r.0 as int, r.1 as int) == chunk_of_world(x as int, z as int),
{
    (x.checked_div_euclid(CHUNK_WIDTH as i32).unwrap(), z.checked_div_euclid(CHUNK_WIDTH as i32).unwrap())
}

/// Returns the position of a block inside its chunk, given its position in the world.
/// For example, (17, 0, -1) -> (1, 0, 15).
pub fn world_to_chunk_coordinate(x: i32, y: i32, z: i32) -> (r: BlockIndex)
    ensures
        (r.0 as int, r.1 as int, r.2 as int) == local_of_world(x as int, y as int, z as int),
        local_in_range(r.0 as int, r.1 as int, r.2 as int),
{
    (
        x.checked_rem_euclid(CHUNK_WIDTH as i32).unwrap() as usize,
        y.checked_rem_euclid(CHUNK_HEIGHT as i32).unwrap() as usize,
        z.checked_rem_euclid(CHUNK_WIDTH as i32).unwrap() as usize,
    )
}

/// Converting a chunk and a local coordinate to a world position and back
/// yields the same chunk and local coordinate.
pub proof fn lemma_world_round_trip(c: (int, int), x: int, y: int, z: int)
    requires
        local_in_range(x, y, z),
    ensures
        chunk_of_world(world_of_local(c, x, y, z).0, world_of_local(c, x, y, z).2) == c,
        local_of_world(world_of_local(c, x, y, z).0, world_of_local(c, x, y, z).1, world_of_local(c, x, y, z).2) == (x, y, z),
{
}

/// World coordinates below zero belong to chunks below zero: world x = -1 lies
/// in chunk -1 at local x = 15.
pub proof fn lemma_negative_world_coordinate()
    ensures
        chunk_of_world(-1, 0).0 == -1,
        local_of_world(-1, 0, 0).0 == 15,
{
}

} // verus!
