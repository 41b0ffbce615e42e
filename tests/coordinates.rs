use voxel_world::utils::{get_chunk_index, world_to_chunk_coordinate, world_to_chunk_position, CHUNK_HEIGHT, CHUNK_WIDTH};

#[test]
fn chunk_index_is_x_then_y_then_z() {
    assert_eq!(get_chunk_index((0, 0, 0)), 0);
    assert_eq!(get_chunk_index((0, 10, 0)), 160);
    assert_eq!(get_chunk_index((3, 0, 0)), 3);
    assert_eq!(get_chunk_index((0, 0, 1)), 2048);
    assert_eq!(get_chunk_index((15, 127, 15)), CHUNK_WIDTH * CHUNK_WIDTH * CHUNK_HEIGHT - 1);
}

#[test]
fn world_to_chunk_position_positive() {
    assert_eq!(world_to_chunk_position(17, 0), (1, 0));
    assert_eq!(world_to_chunk_position(15, 16), (0, 1));
    assert_eq!(world_to_chunk_position(0, 0), (0, 0));
}

#[test]
fn negative_world_coordinate_uses_floor_division() {
    assert_eq!(world_to_chunk_position(-1, 0), (-1, 0));
    assert_eq!(world_to_chunk_coordinate(-1, 0, 0), (15, 0, 0));
    assert_eq!(world_to_chunk_position(-16, -17), (-1, -2));
    assert_eq!(world_to_chunk_coordinate(-16, 5, -17), (0, 5, 15));
}

#[test]
fn world_to_chunk_coordinate_wraps_height() {
    assert_eq!(world_to_chunk_coordinate(17, 0, -1), (1, 0, 15));
    assert_eq!(world_to_chunk_coordinate(0, 128, 0), (0, 0, 0));
    assert_eq!(world_to_chunk_coordinate(0, -1, 0), (0, 127, 0));
}

#[test]
fn chunk_and_local_round_trip() {
    for &(cx, cz) in &[(0, 0), (-3, 7), (5, -2), (-100, -100)] {
        for &(x, y, z) in &[(0usize, 0usize, 0usize), (15, 127, 15), (7, 64, 3), (0, 1, 15)] {
            let wx = cx * CHUNK_WIDTH as i32 + x as i32;
            let wz = cz * CHUNK_WIDTH as i32 + z as i32;
            assert_eq!(world_to_chunk_position(wx, wz), (cx, cz));
            assert_eq!(world_to_chunk_coordinate(wx, y as i32, wz), (x, y, z));
        }
    }
}
