use voxel_world::block_collections::BlockCollection;
use voxel_world::chunk::Chunk;
use voxel_world::utils::{get_chunk_index, CHUNK_VOLUME};
use voxel_world::voxel::{Voxel, VoxelKind};

#[test]
fn new_collection_is_empty() {
    let blocks = BlockCollection::new();
    assert_eq!(blocks.len(), 0);
    assert!(blocks.get((0, 0, 0)).is_none());
}

#[test]
fn new_filled_places_every_voxel_at_its_world_position() {
    let blocks = BlockCollection::new_filled((2, -1), VoxelKind::Grass);
    assert_eq!(blocks.len(), CHUNK_VOLUME);
    assert_eq!(
        *blocks.get((3, 4, 5)).unwrap(),
        Voxel { position: (35, 4, -11), kind: VoxelKind::Grass }
    );
    assert_eq!(blocks.get_by_index(0).position, (32, 0, -16));
    assert_eq!(blocks.get_by_index(CHUNK_VOLUME - 1).position, (47, 127, -1));
    let i = get_chunk_index((9, 100, 2));
    assert_eq!(blocks.get_by_index(i).position, (41, 100, -14));
}

#[test]
fn set_kind_changes_only_that_voxel() {
    let mut blocks = BlockCollection::new_filled((0, 0), VoxelKind::Air);
    blocks.set_kind((1, 2, 3), VoxelKind::Grass);
    assert_eq!(blocks.get((1, 2, 3)).unwrap().kind, VoxelKind::Grass);
    assert_eq!(blocks.get((1, 2, 3)).unwrap().position, (1, 2, 3));
    assert_eq!(blocks.get((2, 2, 3)).unwrap().kind, VoxelKind::Air);
    blocks.set_kind_by_index(0, VoxelKind::Grass);
    assert_eq!(blocks.get((0, 0, 0)).unwrap().kind, VoxelKind::Grass);
}

#[test]
fn new_chunk_is_all_air() {
    let chunk = Chunk::new((-1, 3));
    assert_eq!(chunk.position, (-1, 3));
    assert!(chunk.mesh.is_none());
    assert_eq!(chunk.blocks.len(), CHUNK_VOLUME);
    for i in 0..CHUNK_VOLUME {
        assert_eq!(chunk.blocks.get_by_index(i).kind, VoxelKind::Air);
    }
    assert_eq!(chunk.blocks.get((15, 0, 0)).unwrap().position, (-1, 0, 48));
}
