use vstd::prelude::*;

verus! {

/// The types of voxels.
#[derive(Clone, Copy, Debug, PartialEq, Eq, Structural)]
pub enum VoxelKind {
    /// Air (empty space).
    Air,
    /// Grass.
    Grass,
}

/// Represents a voxel in the world.
#[derive(Clone, Copy, Debug, PartialEq)]
pub struct Voxel {
    /// The position of the voxel, in world coordinates.
    pub position: (i32, i32, i32),
    /// The kind of voxel.
    pub kind: VoxelKind,
}

} // verus!
