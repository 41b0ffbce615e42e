use vstd::prelude::*;
use crate::block_collections::filled_voxels;
use crate::chunk::{lemma_kinds_only, voxels_wf, Chunk};
use crate::utils::{
    index_of_local, lemma_index_local, lemma_local_index, local_in_range, local_of_index,
    BlockIndex, CHUNK_HEIGHT, CHUNK_VOLUME, CHUNK_WIDTH,
};
use crate::voxel::{Voxel, VoxelKind};

verus! {

/// The number of voxel columns in a chunk.
pub const CHUNK_COLUMNS: usize = 256;

/// What a noise field gave for one chunk, as the noise-driven strategies read it.
#[derive(Clone, Debug)]
pub struct NoiseSamples {
    /// For the two-dimensional strategy: the terrain height of each column
    /// `(x, z)`, stored at `x + CHUNK_WIDTH * z`, from zero to the chunk height.
    pub heights: Vec<usize>,
    /// For the three-dimensional strategy: whether the field is strictly
    /// positive at each voxel, stored at the voxel's flat offset.
    pub positive: Vec<bool>,
}

/// Different strategies for generating chunks.
#[derive(Debug)]
pub enum ChunkGenStrategy {
    /// Generates a chunk with all air.
    Empty,
    /// Raises each column of grass from y = 1 up to (not including) a height
    /// taken from a two-dimensional noise field.
    Perlin2d,
    /// Makes each voxel grass where a three-dimensional noise field is
    /// strictly positive, and air elsewhere.
    Perlin3d,
    /// Places a flat plane of some block at and below a certain height.
    FlatPlane(VoxelKind, u32),
    /// A series of single voxels, by local coordinate (used for testing).
    SingleVoxels(Vec<BlockIndex>),
}

/// Whether the local coordinate `l` is one of `list`.
pub open spec fn listed(list: Seq<BlockIndex>, l: (int, int, int)) -> bool {
    exists|k: int| 0 <= k < list.len() && (list[k].0 as int, list[k].1 as int, list[k].2 as int) == l
}

/// The column height that the noise gave for local column `(x, z)`.
pub open spec fn column_height(noise: NoiseSamples, x: int, z: int) -> int {
    noise.heights@[x + CHUNK_WIDTH * z] as int
}

/// `voxels` with each voxel whose local coordinate is listed turned into grass.
pub open spec fn marked(voxels: Seq<Voxel>, list: Seq<BlockIndex>) -> Seq<Voxel> {
    Seq::new(
        voxels.len(),
        |j: int|
            Voxel {
                kind: if listed(list, local_of_index(j)) {
                    VoxelKind::Grass
                } else {
                    voxels[j].kind
                },
                ..voxels[j]
            },
    )
}

impl ChunkGenStrategy {
    /// Whether `noise` holds what this strategy reads, and every listed voxel
    /// lies inside a chunk.
    pub open spec fn accepts(&self, noise: NoiseSamples) -> bool {
        match self {
            ChunkGenStrategy::Perlin2d => {
                &&& noise.heights@.len() == CHUNK_COLUMNS
                &&& forall|i: int| 0 <= i < CHUNK_COLUMNS ==> #[trigger] noise.heights@[i] <= CHUNK_HEIGHT
            },
            ChunkGenStrategy::Perlin3d => noise.positive@.len() == CHUNK_VOLUME,
            ChunkGenStrategy::SingleVoxels(list) => forall|k: int|
                0 <= k < list@.len() ==> local_in_range(
                    (#[trigger] list@[k]).0 as int,
                    list@[k].1 as int,
                    list@[k].2 as int,
                ),
            _ => true,
        }
    }

    /// The kind that this strategy gives the voxel at flat offset `i`, whose
    /// kind was `prior`.
    pub open spec fn kind_after(&self, noise: NoiseSamples, i: int, prior: VoxelKind) -> VoxelKind {
        let (x, y, z) = local_of_index(i);
        match self {
            ChunkGenStrategy::Empty => VoxelKind::Air,
            ChunkGenStrategy::Perlin2d => if 1 <= y < column_height(noise, x, z) {
                VoxelKind::Grass
            } else {
                prior
            },
            ChunkGenStrategy::Perlin3d => if noise.positive@[i] {
                VoxelKind::Grass
            } else {
                VoxelKind::Air
            },
            ChunkGenStrategy::FlatPlane(kind, height) => if y <= *height as int {
                *kind
            } else {
                prior
            },
            ChunkGenStrategy::SingleVoxels(list) => if listed(list@, (x, y, z)) {
                VoxelKind::Grass
            } else {
                prior
            },
        }
    }

    /// The voxels after this strategy has been applied to `voxels`: each keeps
    /// its position and takes the kind that `kind_after` gives it.
    pub open spec fn applied(&self, noise: NoiseSamples, voxels: Seq<Voxel>) -> Seq<Voxel> {
        Seq::new(
            voxels.len(),
            |i: int| Voxel { kind: self.kind_after(noise, i, voxels[i].kind), ..voxels[i] },
        )
    }
}

/// A flat plane applied to a new chunk: every voxel at or below the plane's
/// height takes the plane's kind, every voxel above it stays air.
pub proof fn lemma_flat_plane_on_new_chunk(position: (i32, i32), kind: VoxelKind, height: u32, noise: NoiseSamples)
    ensures
        forall|x: int, y: int, z: int|
            local_in_range(x, y, z) ==> (#[trigger] ChunkGenStrategy::FlatPlane(kind, height).applied(
                noise,
                filled_voxels(position, VoxelKind::Air),
            )[index_of_local(x, y, z)]).kind == if y <= height {
                kind
            } else {
                VoxelKind::Air
            },
{
    assert forall|x: int, y: int, z: int| local_in_range(x, y, z) implies (#[trigger] ChunkGenStrategy::FlatPlane(
        kind,
        height,
    ).applied(noise, filled_voxels(position, VoxelKind::Air))[index_of_local(x, y, z)]).kind == if y <= height {
        kind
    } else {
        VoxelKind::Air
    } by {
        lemma_local_index(x, y, z);
    }
}

/// Two-dimensional generation on a new chunk depends on the column heights
/// alone: column `(x, z)` is grass from y = 1 up to, not including, its
/// height, and air elsewhere. The same heights thus give the same chunk.
pub proof fn lemma_perlin_2d_on_new_chunk(position: (i32, i32), noise: NoiseSamples)
    ensures
        forall|x: int, y: int, z: int|
            local_in_range(x, y, z) ==> (#[trigger] ChunkGenStrategy::Perlin2d.applied(
                noise,
                filled_voxels(position, VoxelKind::Air),
            )[index_of_local(x, y, z)]).kind == if 1 <= y < column_height(noise, x, z) {
                VoxelKind::Grass
            } else {
                VoxelKind::Air
            },
{
    assert forall|x: int, y: int, z: int| local_in_range(x, y, z) implies (#[trigger] ChunkGenStrategy::Perlin2d.applied(
        noise,
        filled_voxels(position, VoxelKind::Air),
    )[index_of_local(x, y, z)]).kind == if 1 <= y < column_height(noise, x, z) {
        VoxelKind::Grass
    } else {
        VoxelKind::Air
    } by {
        lemma_local_index(x, y, z);
    }
}

/// The slot of local column `(x, z)` in `NoiseSamples::heights`.
pub fn column_index(x: usize, z: usize) -> (r: usize)
    requires
        x < CHUNK_WIDTH,
        z < CHUNK_WIDTH,
    ensures
        r == x + CHUNK_WIDTH * z,
        r < CHUNK_COLUMNS,
{
    x + CHUNK_WIDTH * z
}

impl ChunkGenStrategy {
    /// Populates a chunk with this strategy, reading from `noise` what the
    /// noise-driven strategies need. Positions are kept; only kinds change.
    pub fn apply(&self, chunk: &mut Chunk, noise: &NoiseSamples)
        requires
            old(chunk).wf(),
            self.accepts(*noise),
        ensures
            final(chunk).position == old(chunk).position,
            final(chunk).mesh == old(chunk).mesh,
            final(chunk).blocks@ == self.applied(*noise, old(chunk).blocks@),
            final(chunk).wf(),
    {
        match self {
            ChunkGenStrategy::SingleVoxels(voxels) => {
                self.mark_single_voxels(chunk, voxels);
                assert(chunk.blocks@ =~= self.applied(*noise, old(chunk).blocks@));
            },
            _ => {
                self.classify_voxels(chunk, noise);
            },
        }
    }

    /// The kind that this strategy gives the voxel at flat offset `i`, for
    /// every strategy but the list of single voxels.
    fn kind_for(&self, noise: &NoiseSamples, i: usize, prior: VoxelKind) -> (r: VoxelKind)
        requires
            i < CHUNK_VOLUME,
            self.accepts(*noise),
            !(self is SingleVoxels),
        ensures
            r == self.kind_after(*noise, i as int, prior),
    {
        let x = i % CHUNK_WIDTH;
        let y = (i / CHUNK_WIDTH) % CHUNK_HEIGHT;
        let z = i / (CHUNK_WIDTH * CHUNK_HEIGHT);
        proof {
            lemma_index_local(i as int);
        }
        match self {
            ChunkGenStrategy::Empty => VoxelKind::Air,
            ChunkGenStrategy::Perlin2d => {
                let height = noise.heights[column_index(x, z)];
                if 1 <= y && y < height {
                    VoxelKind::Grass
                } else {
                    prior
                }
            },
            ChunkGenStrategy::Perlin3d => {
                if noise.positive[i] {
                    VoxelKind::Grass
                } else {
                    VoxelKind::Air
                }
            },
            ChunkGenStrategy::FlatPlane(kind, height) => {
                if (y as u32) <= *height {
                    *kind
                } else {
                    prior
                }
            },
            ChunkGenStrategy::SingleVoxels(_) => prior,
        }
    }

    /// Gives every voxel of the chunk the kind that `kind_for` computes.
    fn classify_voxels(&self, chunk: &mut Chunk, noise: &NoiseSamples)
        requires
            old(chunk).wf(),
            self.accepts(*noise),
            !(self is SingleVoxels),
        ensures
            final(chunk).position == old(chunk).position,
            final(chunk).mesh == old(chunk).mesh,
            final(chunk).blocks@ == self.applied(*noise, old(chunk).blocks@),
            final(chunk).wf(),
    {
        let ghost before = chunk.blocks@;
        let mut i: usize = 0;
        while i < CHUNK_VOLUME
            invariant
                i <= CHUNK_VOLUME,
                self.accepts(*noise),
                !(self is SingleVoxels),
                before == old(chunk).blocks@,
                voxels_wf(old(chunk).position, before),
                chunk.position == old(chunk).position,
                chunk.mesh == old(chunk).mesh,
                chunk.blocks@.len() == CHUNK_VOLUME,
                forall|j: int| 0 <= j < i ==> chunk.blocks@[j] == self.applied(*noise, before)[j],
                forall|j: int| i <= j < CHUNK_VOLUME ==> chunk.blocks@[j] == before[j],
            decreases CHUNK_VOLUME - i,
        {
            let old_kind = chunk.blocks.get_by_index(i).kind;
            let kind = self.kind_for(noise, i, old_kind);
            chunk.blocks.set_kind_by_index(i, kind);
            i = i + 1;
        }
        assert(chunk.blocks@ =~= self.applied(*noise, before));
        proof {
            lemma_kinds_only(old(chunk).position, before, chunk.blocks@);
        }
    }

    /// Turns each listed local coordinate into grass.
    fn mark_single_voxels(&self, chunk: &mut Chunk, voxels: &Vec<BlockIndex>)
        requires
            old(chunk).wf(),
            forall|m: int|
                0 <= m < voxels@.len() ==> local_in_range(
                    (#[trigger] voxels@[m]).0 as int,
                    voxels@[m].1 as int,
                    voxels@[m].2 as int,
                ),
        ensures
            final(chunk).position == old(chunk).position,
            final(chunk).mesh == old(chunk).mesh,
            final(chunk).blocks@ == marked(old(chunk).blocks@, voxels@),
            final(chunk).wf(),
    {
        let ghost before = chunk.blocks@;
        let mut k: usize = 0;
        while k < voxels.len()
            invariant
                k <= voxels@.len(),
                forall|m: int|
                    0 <= m < voxels@.len() ==> local_in_range(
                        (#[trigger] voxels@[m]).0 as int,
                        voxels@[m].1 as int,
                        voxels@[m].2 as int,
                    ),
                before == old(chunk).blocks@,
                voxels_wf(old(chunk).position, before),
                chunk.position == old(chunk).position,
                chunk.mesh == old(chunk).mesh,
                chunk.blocks@ == marked(before, voxels@.take(k as int)),
            decreases voxels@.len() - k,
        {
            let pos = voxels[k];
            let ghost at = index_of_local(pos.0 as int, pos.1 as int, pos.2 as int);
            proof {
                lemma_local_index(pos.0 as int, pos.1 as int, pos.2 as int);
            }
            chunk.blocks.set_kind(pos, VoxelKind::Grass);
            proof {
                let pre = voxels@.take(k as int);
                let post = voxels@.take(k + 1);
                assert forall|j: int| 0 <= j < CHUNK_VOLUME implies #[trigger] chunk.blocks@[j] == marked(before, post)[j] by {
                    let l = local_of_index(j);
                    lemma_index_local(j);
                    if j == at {
                        assert(post[k as int] == pos);
                    } else {
                        if listed(post, l) {
                            let w = choose|w: int| 0 <= w < post.len() && (post[w].0 as int, post[w].1 as int, post[w].2 as int) == l;
                            if w == k {
                                assert(false);
                            } else {
                                assert(pre[w] == post[w]);
                            }
                        }
                        if listed(pre, l) {
                            let w = choose|w: int| 0 <= w < pre.len() && (pre[w].0 as int, pre[w].1 as int, pre[w].2 as int) == l;
                            assert(pre[w] == post[w]);
                        }
                    }
                }
                assert(chunk.blocks@ =~= marked(before, post));
            }
            k = k + 1;
        }
        assert(voxels@.take(voxels@.len() as int) =~= voxels@);
        proof {
            lemma_kinds_only(old(chunk).position, before, chunk.blocks@);
        }
    }
}

} // verus!
