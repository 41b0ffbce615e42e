use noise::{NoiseFn, Perlin};
use voxel_world::chunk::Chunk;
use voxel_world::chunk_builder::{column_index, ChunkGenStrategy, NoiseSamples, CHUNK_COLUMNS};
use voxel_world::utils::{get_chunk_index, CHUNK_HEIGHT, CHUNK_VOLUME, CHUNK_WIDTH};
use voxel_world::voxel::VoxelKind;

fn no_noise() -> NoiseSamples {
    NoiseSamples { heights: Vec::new(), positive: Vec::new() }
}

fn kind(chunk: &Chunk, x: usize, y: usize, z: usize) -> VoxelKind {
    chunk.blocks.get((x, y, z)).unwrap().kind
}

#[test]
fn flat_plane_fills_up_to_its_height() {
    let mut chunk = Chunk::new((3, -2));
    ChunkGenStrategy::FlatPlane(VoxelKind::Grass, 5).apply(&mut chunk, &no_noise());
    for x in 0..CHUNK_WIDTH {
        for z in 0..CHUNK_WIDTH {
            for y in 0..CHUNK_HEIGHT {
                let expected = if y <= 5 { VoxelKind::Grass } else { VoxelKind::Air };
                assert_eq!(kind(&chunk, x, y, z), expected);
            }
        }
    }
    assert_eq!(chunk.blocks.get((4, 5, 6)).unwrap().position, (52, 5, -26));
}

#[test]
fn flat_plane_above_the_chunk_fills_it_all() {
    let mut chunk = Chunk::new((0, 0));
    ChunkGenStrategy::FlatPlane(VoxelKind::Grass, u32::MAX).apply(&mut chunk, &no_noise());
    for i in 0..CHUNK_VOLUME {
        assert_eq!(chunk.blocks.get_by_index(i).kind, VoxelKind::Grass);
    }
}

#[test]
fn empty_clears_every_voxel() {
    let mut chunk = Chunk::new((0, 0));
    ChunkGenStrategy::FlatPlane(VoxelKind::Grass, 10).apply(&mut chunk, &no_noise());
    ChunkGenStrategy::Empty.apply(&mut chunk, &no_noise());
    for i in 0..CHUNK_VOLUME {
        assert_eq!(chunk.blocks.get_by_index(i).kind, VoxelKind::Air);
    }
}

#[test]
fn single_voxels_marks_exactly_the_listed_voxels() {
    let mut chunk = Chunk::new((0, 0));
    let listed = vec![(1, 1, 1), (2, 1, 1), (15, 127, 15), (1, 1, 1)];
    ChunkGenStrategy::SingleVoxels(listed.clone()).apply(&mut chunk, &no_noise());
    let mut grass = 0;
    for i in 0..CHUNK_VOLUME {
        if chunk.blocks.get_by_index(i).kind == VoxelKind::Grass {
            grass += 1;
        }
    }
    assert_eq!(grass, 3);
    assert_eq!(kind(&chunk, 1, 1, 1), VoxelKind::Grass);
    assert_eq!(kind(&chunk, 2, 1, 1), VoxelKind::Grass);
    assert_eq!(kind(&chunk, 15, 127, 15), VoxelKind::Grass);
    assert_eq!(kind(&chunk, 1, 1, 2), VoxelKind::Air);
}

#[test]
fn column_index_is_x_then_z() {
    assert_eq!(column_index(0, 0), 0);
    assert_eq!(column_index(3, 2), 35);
    assert_eq!(column_index(15, 15), CHUNK_COLUMNS - 1);
}

#[test]
fn perlin_2d_raises_columns_from_one_below_their_height() {
    let mut heights = vec![0; CHUNK_COLUMNS];
    heights[0] = 4;
    heights[column_index(3, 2)] = 1;
    heights[column_index(15, 15)] = CHUNK_HEIGHT;
    let noise = NoiseSamples { heights, positive: Vec::new() };
    let mut chunk = Chunk::new((0, 0));
    ChunkGenStrategy::Perlin2d.apply(&mut chunk, &noise);
    assert_eq!(kind(&chunk, 0, 0, 0), VoxelKind::Air);
    assert_eq!(kind(&chunk, 0, 1, 0), VoxelKind::Grass);
    assert_eq!(kind(&chunk, 0, 3, 0), VoxelKind::Grass);
    assert_eq!(kind(&chunk, 0, 4, 0), VoxelKind::Air);
    for y in 0..CHUNK_HEIGHT {
        assert_eq!(kind(&chunk, 3, y, 2), VoxelKind::Air);
        let top = if y >= 1 { VoxelKind::Grass } else { VoxelKind::Air };
        assert_eq!(kind(&chunk, 15, y, 15), top);
    }
}

#[test]
fn perlin_3d_follows_the_sign_of_the_field() {
    let mut positive = vec![false; CHUNK_VOLUME];
    positive[get_chunk_index((2, 3, 4))] = true;
    positive[get_chunk_index((0, 0, 0))] = true;
    let noise = NoiseSamples { heights: Vec::new(), positive };
    let mut chunk = Chunk::new((1, 1));
    ChunkGenStrategy::FlatPlane(VoxelKind::Grass, 2).apply(&mut chunk, &no_noise());
    ChunkGenStrategy::Perlin3d.apply(&mut chunk, &noise);
    assert_eq!(kind(&chunk, 2, 3, 4), VoxelKind::Grass);
    assert_eq!(kind(&chunk, 0, 0, 0), VoxelKind::Grass);
    assert_eq!(kind(&chunk, 1, 1, 1), VoxelKind::Air);
}

fn sample_heights(perlin: &Perlin, position: (i32, i32)) -> Vec<usize> {
    let mut heights = vec![0; CHUNK_COLUMNS];
    for x in 0..CHUNK_WIDTH {
        for z in 0..CHUNK_WIDTH {
            let wx = (x as i32 + position.0 * CHUNK_WIDTH as i32) as f64 * 0.01;
            let wz = (z as i32 + position.1 * CHUNK_WIDTH as i32) as f64 * 0.01;
            let v = perlin.get([wx, wz]) as f32;
            let v = ((v + 1.0) / 2.0).clamp(0.0, 1.0);
            heights[column_index(x, z)] = (v * CHUNK_HEIGHT as f32) as usize;
        }
    }
    heights
}

#[test]
fn perlin_2d_is_deterministic_for_a_seed() {
    let position = (2, -5);
    let first_noise = NoiseSamples { heights: sample_heights(&Perlin::new(42), position), positive: Vec::new() };
    let second_noise = NoiseSamples { heights: sample_heights(&Perlin::new(42), position), positive: Vec::new() };
    assert_eq!(first_noise.heights, second_noise.heights);
    let mut first = Chunk::new(position);
    let mut second = Chunk::new(position);
    ChunkGenStrategy::Perlin2d.apply(&mut first, &first_noise);
    ChunkGenStrategy::Perlin2d.apply(&mut second, &second_noise);
    for i in 0..CHUNK_VOLUME {
        assert_eq!(first.blocks.get_by_index(i), second.blocks.get_by_index(i));
    }
}
