use voxel_world::chunk_builder::{ChunkGenStrategy, NoiseSamples};
use voxel_world::chunk_manager::{ChunkManager, ChunkState, CHUNKS_AROUND, CHUNKS_TO_BUILT_PER_TICK};
use voxel_world::voxel::VoxelKind;

fn no_noise(n: usize) -> Vec<NoiseSamples> {
    (0..n).map(|_| NoiseSamples { heights: Vec::new(), positive: Vec::new() }).collect()
}

fn tick(manager: &mut ChunkManager, x: i32, z: i32) {
    let due = manager.pending_builds().len();
    manager.update(x, z, &no_noise(due));
}

#[test]
fn new_manager_starts_empty_in_the_viewers_chunk() {
    let manager = ChunkManager::new(ChunkGenStrategy::Empty, -1, 33);
    assert_eq!(manager.current_chunk, (-1, 2));
    assert!(manager.chunks.is_empty());
    assert!(manager.chunk_queue.is_empty());
}

#[test]
fn update_in_the_same_chunk_queues_nothing() {
    let mut manager = ChunkManager::new(ChunkGenStrategy::Empty, 0, 0);
    tick(&mut manager, 5, 7);
    assert!(manager.chunk_queue.is_empty());
    assert!(manager.chunks.is_empty());
}

#[test]
fn moving_to_another_chunk_queues_the_square_around_it() {
    let mut manager = ChunkManager::new(ChunkGenStrategy::Empty, 0, 0);
    tick(&mut manager, 16, 0);
    assert_eq!(manager.current_chunk, (1, 0));
    assert_eq!(manager.chunk_queue.len(), CHUNKS_AROUND);
    assert_eq!(manager.chunk_queue[0], (-3, -4));
    assert_eq!(manager.chunk_queue[1], (-3, -3));
    assert_eq!(manager.chunk_queue[CHUNKS_AROUND - 1], (5, 4));
    assert!(manager.chunks.is_empty());
}

#[test]
fn update_builds_at_most_the_budget_last_queued_first() {
    let mut manager = ChunkManager::new(ChunkGenStrategy::FlatPlane(VoxelKind::Grass, 0), 0, 0);
    tick(&mut manager, 16, 0);
    assert_eq!(manager.pending_builds(), vec![(5, 4)]);
    tick(&mut manager, 16, 0);
    assert_eq!(manager.chunks.len(), CHUNKS_TO_BUILT_PER_TICK);
    assert_eq!(manager.chunk_queue.len(), CHUNKS_AROUND - CHUNKS_TO_BUILT_PER_TICK);
    assert_eq!(manager.chunks[0].0.position, (5, 4));
    assert_eq!(manager.chunks[0].1, ChunkState::Loaded);
    assert_eq!(manager.chunks[0].0.blocks.get((0, 0, 0)).unwrap().kind, VoxelKind::Grass);
    assert_eq!(manager.chunks[0].0.blocks.get((0, 1, 0)).unwrap().kind, VoxelKind::Air);
    assert_eq!(manager.pending_builds(), vec![(5, 3)]);
}

#[test]
fn second_update_from_the_same_position_enqueues_nothing_new() {
    let mut manager = ChunkManager::new(ChunkGenStrategy::Empty, 0, 0);
    tick(&mut manager, 40, -40);
    let queued = manager.chunk_queue.clone();
    tick(&mut manager, 40, -40);
    assert_eq!(manager.chunk_queue.len(), queued.len() - 1);
    assert_eq!(manager.chunk_queue[..], queued[..queued.len() - 1]);
}

#[test]
fn queue_drains_one_chunk_per_update() {
    let mut manager = ChunkManager::new(ChunkGenStrategy::Empty, 0, 0);
    tick(&mut manager, 16, 0);
    for n in 1..=CHUNKS_AROUND {
        tick(&mut manager, 16, 0);
        assert_eq!(manager.chunks.len(), n);
        assert_eq!(manager.chunk_queue.len(), CHUNKS_AROUND - n);
    }
    tick(&mut manager, 16, 0);
    assert_eq!(manager.chunks.len(), CHUNKS_AROUND);
    assert!(manager.chunk_queue.is_empty());
}

#[test]
fn moving_away_unloads_far_chunks_and_queues_only_missing_ones() {
    let mut manager = ChunkManager::new(ChunkGenStrategy::Empty, 0, 0);
    tick(&mut manager, 16, 0);
    for _ in 0..CHUNKS_AROUND {
        tick(&mut manager, 16, 0);
    }
    tick(&mut manager, 32, 0);
    assert_eq!(manager.current_chunk, (2, 0));
    assert_eq!(manager.chunk_queue.len(), 9);
    for &(x, z) in manager.chunk_queue.iter() {
        assert_eq!(x, 6);
        assert!((-4..=4).contains(&z));
    }
    for (chunk, state) in manager.chunks.iter() {
        let expected = if chunk.position.0 < -2 { ChunkState::Unloaded } else { ChunkState::Loaded };
        assert_eq!(*state, expected);
    }
    // Back in the first chunk: the update builds (6, 4) first, then unloads
    // it as too far. Chunks that were unloaded stay unloaded: they exist, so
    // they are not queued again.
    tick(&mut manager, 16, 0);
    assert_eq!(manager.current_chunk, (1, 0));
    assert_eq!(manager.chunks.len(), CHUNKS_AROUND + 1);
    assert_eq!(manager.chunks[CHUNKS_AROUND].0.position, (6, 4));
    assert_eq!(manager.chunk_queue.len(), 8);
    for (chunk, state) in manager.chunks.iter() {
        let far = chunk.position.0 < -2 || chunk.position.0 > 5;
        let expected = if far { ChunkState::Unloaded } else { ChunkState::Loaded };
        assert_eq!(*state, expected);
    }
}

#[test]
fn queued_positions_are_distinct_and_not_built() {
    let mut manager = ChunkManager::new(ChunkGenStrategy::Empty, 0, 0);
    let path = [(16, 0), (16, 0), (32, 16), (32, 16), (0, -16), (-40, 30), (-40, 30), (16, 0)];
    for &(x, z) in path.iter() {
        tick(&mut manager, x, z);
        for (i, p) in manager.chunk_queue.iter().enumerate() {
            assert!(!manager.chunk_queue[..i].contains(p));
            assert!(!manager.chunks.iter().any(|(c, _)| c.position == *p));
        }
    }
}
