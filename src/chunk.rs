use vstd::prelude::*;
use crate::block_collections::{chunk_pos_in_range, filled_voxel, filled_voxels, BlockCollection, MAX_CHUNK_COORD};
use crate::mesh::Mesh;
use crate::utils::{index_of_local, lemma_index_local, local_of_index, CHUNK_VOLUME};
use crate::voxel::{Voxel, VoxelKind};

verus! {

/// Represents a section of the world.
#[derive(Debug)]
pub struct Chunk {
    /// The position of the chunk, in chunk-grid coordinates.
    pub position: (i32, i32),
    /// The voxels of the chunk.
    pub blocks: BlockCollection,
    /// The mesh of the chunk, once one was built for it.
    pub mesh: Option<Mesh>,
}

/// Whether each voxel of `voxels` carries the world position of its local
/// coordinate in a chunk at `c`.
#[verifier::opaque]
pub open spec fn positions_match(c: (i32, i32), voxels: Seq<Voxel>) -> bool {
    forall|i: int| 0 <= i < voxels.len() ==> #[trigger] voxels[i].position == filled_voxel(c, VoxelKind::Air, i).position
}

/// Whether `voxels` is a full chunk at `c`: one voxel per local coordinate, each
/// carrying its world position.
pub open spec fn voxels_wf(c: (i32, i32), voxels: Seq<Voxel>) -> bool {
    &&& chunk_pos_in_range(c)
    &&& voxels.len() == CHUNK_VOLUME
    &&& positions_match(c, voxels)
}

/// Changing only kinds keeps a chunk complete.
pub proof fn lemma_kinds_only(c: (i32, i32), a: Seq<Voxel>, b: Seq<Voxel>)
    requires
        voxels_wf(c, a),
        b.len() == a.len(),
        forall|i: int| 0 <= i < a.len() ==> #[trigger] b[i].position == a[i].position,
    ensures
        voxels_wf(c, b),
{
    reveal(positions_match);
}

/// Where a voxel of a complete chunk stands: at the world position of its
/// local coordinate, inside `i32` with a unit step to spare.
pub proof fn lemma_voxel_position(c: (i32, i32), voxels: Seq<Voxel>, i: int)
    requires
        voxels_wf(c, voxels),
        0 <= i < CHUNK_VOLUME,
    ensures
        voxels[i].position == filled_voxel(c, VoxelKind::Air, i).position,
        voxels[i].position.0 == c.0 * 16 + local_of_index(i).0,
        voxels[i].position.1 == local_of_index(i).1,
        voxels[i].position.2 == c.1 * 16 + local_of_index(i).2,
        -MAX_CHUNK_COORD * 16 <= voxels[i].position.0 < MAX_CHUNK_COORD * 16 + 16,
        0 <= voxels[i].position.1 < 128,
        -MAX_CHUNK_COORD * 16 <= voxels[i].position.2 < MAX_CHUNK_COORD * 16 + 16,
{
    reveal(positions_match);
    lemma_index_local(i);
}

impl Chunk {
    /// The chunk holds every voxel of its domain, each at its true world position.
    pub open spec fn wf(&self) -> bool {
        voxels_wf(self.position, self.blocks@)
    }

    /// The kind of the voxel at local coordinate `(x, y, z)`.
    pub open spec fn kind_at(&self, x: int, y: int, z: int) -> VoxelKind {
        self.blocks@[index_of_local(x, y, z)].kind
    }

    /// Creates a new chunk at `position`, all air.
    pub fn new(position: (i32, i32)) -> (r: Self)
        requires
            chunk_pos_in_range(position),
        ensures
            r.position == position,
            r.blocks@ == filled_voxels(position, VoxelKind::Air),
            r.mesh is None,
            r.wf(),
    {
        let r = Chunk { position, blocks: BlockCollection::new_filled(position, VoxelKind::Air), mesh: None };
        proof {
            reveal(positions_match);
        }
        r
    }
}

} // verus!
