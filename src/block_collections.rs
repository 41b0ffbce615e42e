use vstd::prelude::*;
use crate::utils::{
    get_chunk_index, index_of_local, lemma_index_local, local_in_range, local_of_index,
    BlockIndex, CHUNK_HEIGHT, CHUNK_VOLUME, CHUNK_WIDTH,
};
use crate::voxel::{Voxel, VoxelKind};

verus! {

/// The largest distance from the origin, in chunks, at which a chunk can stand:
/// every world coordinate of such a chunk and of its direct neighbours fits an `i32`.
pub const MAX_CHUNK_COORD: i32 = 134_217_000;

/// Whether a chunk at `c` keeps all of its world coordinates, and those one
/// step beyond its faces, inside `i32`.
pub open spec fn chunk_pos_in_range(c: (i32, i32)) -> bool {
    -MAX_CHUNK_COORD <= c.0 <= MAX_CHUNK_COORD && -MAX_CHUNK_COORD <= c.1 <= MAX_CHUNK_COORD
}

/// The voxel stored at flat offset `i` of a chunk at `c` filled with `kind`:
/// it carries the world position of its local coordinate.
pub open spec fn filled_voxel(c: (i32, i32), kind: VoxelKind, i: int) -> Voxel {
    let l = local_of_index(i);
    Voxel {
        position: (
            (c.0 * CHUNK_WIDTH + l.0) as i32,
            l.1 as i32,
            (c.1 * CHUNK_WIDTH + l.2) as i32,
        ),
        kind,
    }
}

/// All voxels of a chunk at `c`, each of kind `kind`, in storage order.
pub open spec fn filled_voxels(c: (i32, i32), kind: VoxelKind) -> Seq<Voxel> {
    Seq::new(CHUNK_VOLUME as nat, |i: int| filled_voxel(c, kind, i))
}

/// Represents all of the voxels in a chunk, stored densely by
/// `x + CHUNK_WIDTH * (y + CHUNK_HEIGHT * z)`.
#[derive(Debug)]
pub struct BlockCollection {
    /// The actual voxel data.
    voxels: Vec<Voxel>,
}

impl View for BlockCollection {
    type V = Seq<Voxel>;

    closed spec fn view(&self) -> Seq<Voxel> {
        self.voxels@
    }
}

impl BlockCollection {
    /// Creates a new, empty block collection.
    pub fn new() -> (r: Self)
        ensures
            r@ == Seq::<Voxel>::empty(),
    {
        let mut voxels = Vec::new();
        voxels.reserve(CHUNK_VOLUME);
        BlockCollection { voxels }
    }

    /// Creates a new block collection for the chunk at `chunk_offset`, and fills
    /// it with the given voxel kind.
    pub fn new_filled(chunk_offset: (i32, i32), voxel: VoxelKind) -> (r: Self)
        requires
            chunk_pos_in_range(chunk_offset),
        ensures
            r@ == filled_voxels(chunk_offset, voxel),
    {
        let mut voxels: Vec<Voxel> = Vec::new();
        voxels.reserve(CHUNK_VOLUME);
        let base_x: i32 = chunk_offset.0 * (CHUNK_WIDTH as i32);
        let base_z: i32 = chunk_offset.1 * (CHUNK_WIDTH as i32);
        let mut i: usize = 0;
        while i < CHUNK_VOLUME
            invariant
                i <= CHUNK_VOLUME,
                chunk_pos_in_range(chunk_offset),
                base_x == chunk_offset.0 * CHUNK_WIDTH,
                base_z == chunk_offset.1 * CHUNK_WIDTH,
                voxels@.len() == i,
                forall|j: int| 0 <= j < i ==> voxels@[j] == filled_voxel(chunk_offset, voxel, j),
            decreases CHUNK_VOLUME - i,
        {
            proof {
                lemma_index_local(i as int);
            }
            let x = i % CHUNK_WIDTH;
            let y = (i / CHUNK_WIDTH) % CHUNK_HEIGHT;
            let z = i / (CHUNK_WIDTH * CHUNK_HEIGHT);
            voxels.push(Voxel { position: (base_x + x as i32, y as i32, base_z + z as i32), kind: voxel });
            i = i + 1;
        }
        let r = BlockCollection { voxels };
        assert(r@ =~= filled_voxels(chunk_offset, voxel));
        r
    }

    /// The number of voxels held.
    pub fn len(&self) -> (r: usize)
        ensures
            r == self@.len(),
    {
        self.voxels.len()
    }

    /// Gets the voxel at the given position, if the collection holds it.
    pub fn get(&self, pos: BlockIndex) -> (r: Option<&Voxel>)
        requires
            local_in_range(pos.0 as int, pos.1 as int, pos.2 as int),
        ensures
            index_of_local(pos.0 as int, pos.1 as int, pos.2 as int) < self@.len() ==> r == Some(
                &self@[index_of_local(pos.0 as int, pos.1 as int, pos.2 as int)],
            ),
            index_of_local(pos.0 as int, pos.1 as int, pos.2 as int) >= self@.len() ==> r is None,
    {
        let i = get_chunk_index(pos);
        if i < self.voxels.len() {
            Some(&self.voxels[i])
        } else {
            None
        }
    }

    /// Gets the voxel at the given flat offset.
    pub fn get_by_index(&self, index: usize) -> (r: &Voxel)
        requires
            index < self@.len(),
        ensures
            *r == self@[index as int],
    {
        &self.voxels[index]
    }

    /// Sets the kind of the voxel at the given position, keeping its position.
    pub fn set_kind(&mut self, pos: BlockIndex, kind: VoxelKind)
        requires
            local_in_range(pos.0 as int, pos.1 as int, pos.2 as int),
            index_of_local(pos.0 as int, pos.1 as int, pos.2 as int) < old(self)@.len(),
        ensures
            final(self)@ == old(self)@.update(
                index_of_local(pos.0 as int, pos.1 as int, pos.2 as int),
                Voxel { kind, ..old(self)@[index_of_local(pos.0 as int, pos.1 as int, pos.2 as int)] },
            ),
    {
        let i = get_chunk_index(pos);
        self.set_kind_by_index(i, kind);
    }

    /// Sets the kind of the voxel at the given flat offset, keeping its position.
    pub fn set_kind_by_index(&mut self, index: usize, kind: VoxelKind)
        requires
            index < old(self)@.len(),
        ensures
            final(self)@ == old(self)@.update(index as int, Voxel { kind, ..old(self)@[index as int] }),
    {
        let position = self.voxels[index].position;
        self.voxels.set(index, Voxel { position, kind });
    }
}

} // verus!
