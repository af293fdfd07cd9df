use willekeurig::chunk::{
    index_as_pos, local_to_world, pos_as_index, world_to_chunk, world_to_local, ChunkData,
};
use willekeurig::chunk_manager::ChunkManager;
use willekeurig::vector::{BlockPos, ChunkPos, LocalPos};

#[test]
fn index_round_trip_over_whole_chunk() {
    for z in 0..16usize {
        for y in 0..16usize {
            for x in 0..16usize {
                let index = pos_as_index(x, y, z);
                assert_eq!(index, x + 16 * y + 256 * z);
                assert_eq!(index_as_pos(index), LocalPos::new(x, y, z));
            }
        }
    }
}

#[test]
fn pos_round_trip_over_every_index() {
    for index in 0..4096usize {
        let pos = index_as_pos(index);
        assert!(pos.x < 16 && pos.y < 16 && pos.z < 16);
        assert_eq!(pos_as_index(pos.x, pos.y, pos.z), index);
    }
}

#[test]
fn index_packs_x_low_then_y_then_z() {
    assert_eq!(pos_as_index(0, 0, 0), 0);
    assert_eq!(pos_as_index(15, 0, 0), 15);
    assert_eq!(pos_as_index(0, 1, 0), 16);
    assert_eq!(pos_as_index(0, 0, 1), 256);
    assert_eq!(pos_as_index(15, 15, 15), 4095);
    assert_eq!(pos_as_index(3, 2, 1), 3 | 2 << 4 | 1 << 8);
}

#[test]
fn index_of_a_component_out_of_range_spills_into_its_neighbours() {
    assert_eq!(pos_as_index(16, 0, 0), pos_as_index(0, 1, 0));
    assert_eq!(pos_as_index(0, 16, 0), pos_as_index(0, 0, 1));
    assert_eq!(pos_as_index(0, 0, 16), 4096);
}

#[test]
fn world_to_chunk_sign_handling() {
    assert_eq!(world_to_chunk(31.9_f32.floor() as i64), 1);
    assert_eq!(world_to_chunk((-0.1_f32).floor() as i64), -1);
    assert_eq!(world_to_chunk(0.0_f32.floor() as i64), 0);
}

#[test]
fn world_to_chunk_rounds_down() {
    assert_eq!(world_to_chunk(-16), -1);
    assert_eq!(world_to_chunk(-17), -2);
    assert_eq!(world_to_chunk(-1), -1);
    assert_eq!(world_to_chunk(15), 0);
    assert_eq!(world_to_chunk(16), 1);
    assert_eq!(world_to_chunk(i64::MAX), i32::MAX);
    assert_eq!(world_to_chunk(i64::MIN), i32::MIN);
}

#[test]
fn world_to_chunk_coords_takes_each_axis() {
    let manager = ChunkManager::new();
    let pos = manager.world_to_chunk_coords(&BlockPos::new(31, -1, 0));
    assert_eq!(pos, ChunkPos::new(1, -1, 0));
}

#[test]
fn local_to_world_and_back() {
    for chunk in [-3i32, -1, 0, 1, 7, i32::MAX, i32::MIN] {
        for local in 0..16usize {
            let world = local_to_world(chunk, local);
            assert_eq!(world, chunk as i64 * 16 + local as i64);
            assert_eq!(world_to_local(chunk, world), local);
            assert_eq!(world_to_chunk(world), chunk);
        }
    }
}

#[test]
fn world_to_local_of_a_point_outside_the_chunk() {
    assert_eq!(world_to_local(0, -1), 0);
    assert_eq!(world_to_local(0, 16), 16);
    assert_eq!(world_to_local(2, 31), 0);
    assert_eq!(world_to_local(-1, -16), 0);
    assert_eq!(world_to_local(-1, -1), 15);
}

#[test]
fn chunk_data_converts_positions() {
    let data = ChunkData::new(ChunkPos::new(2, -1, 0));
    assert_eq!(data.local_to_world_pos(1, 2, 3), BlockPos::new(33, -14, 3));
    assert_eq!(data.world_to_local_pos(33, -14, 3), LocalPos::new(1, 2, 3));
}
