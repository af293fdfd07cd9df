use willekeurig::block::Block;
use willekeurig::chunk::Chunk;
use willekeurig::chunk_manager::{ChunkManager, ASYNC_NUM_CHUNKS_PER_FRAME};
use willekeurig::generator::COLUMN_COUNT;
use willekeurig::identifier::Identifier;
use willekeurig::registry::register_blocks;
use willekeurig::vector::{BlockPos, ChunkPos};
use willekeurig::world::World;

fn flat(height: i32) -> Vec<Vec<i32>> {
    vec![vec![height; COLUMN_COUNT], vec![height; COLUMN_COUNT]]
}

fn manager_with(count: i32) -> ChunkManager {
    let mut manager = ChunkManager::new();
    for x in 0..count {
        assert!(manager.add_chunk(Chunk::new(ChunkPos::new(x, 0, 0))));
    }
    manager
}

#[test]
fn per_tick_constant_is_two() {
    assert_eq!(ASYNC_NUM_CHUNKS_PER_FRAME, 2);
}

#[test]
fn a_tick_admits_and_builds_two_chunks() {
    let registry = register_blocks().unwrap();
    let mut manager = manager_with(5);
    assert_eq!(manager.chunks_to_load_count(), 5);
    // the oldest go first
    assert_eq!(manager.next_builds(), vec![ChunkPos::new(0, 0, 0), ChunkPos::new(1, 0, 0)]);
    manager.update(&registry, &flat(3));
    assert_eq!(manager.chunks_to_load_count(), 3);
    assert_eq!(manager.chunks_to_build_count(), 0);
    assert_eq!(manager.get_renderable_chunks().len(), 2);
    assert_eq!(manager.get_renderable_chunks()[0].get_pos(), ChunkPos::new(0, 0, 0));
    assert_eq!(manager.get_renderable_chunks()[1].get_pos(), ChunkPos::new(1, 0, 0));
    assert_eq!(manager.next_builds(), vec![ChunkPos::new(2, 0, 0), ChunkPos::new(3, 0, 0)]);
}

#[test]
fn five_chunks_are_built_after_three_ticks() {
    let registry = register_blocks().unwrap();
    let mut manager = manager_with(5);
    let maps = flat(3);

    assert_eq!(manager.next_builds(), vec![ChunkPos::new(0, 0, 0), ChunkPos::new(1, 0, 0)]);
    manager.update(&registry, &maps);
    assert_eq!(manager.chunks_to_load_count(), 3);
    assert_eq!(manager.chunks_to_build_count(), 0);
    assert_eq!(manager.get_renderable_chunks().len(), 2);

    manager.update(&registry, &maps);
    assert_eq!(manager.chunks_to_load_count(), 1);
    assert_eq!(manager.get_renderable_chunks().len(), 4);

    assert_eq!(manager.next_builds(), vec![ChunkPos::new(4, 0, 0)]);
    manager.update(&registry, &maps);
    assert_eq!(manager.chunks_to_load_count(), 0);
    assert_eq!(manager.chunks_to_build_count(), 0);
    assert_eq!(manager.chunks_to_unload_count(), 0);
    assert_eq!(manager.get_renderable_chunks().len(), 5);

    for (i, chunk) in manager.get_renderable_chunks().iter().enumerate() {
        assert_eq!(chunk.get_pos(), ChunkPos::new(i as i32, 0, 0));
        assert!(!chunk.is_first_build());
        assert!(!chunk.is_dirty());
        // terrain of height 3: four layers of blocks
        assert_eq!(chunk.get_data().get_solid_blocks(), 4 * 256);
        // a slab shows its top, its bottom and its four sides
        assert_eq!(chunk.get_vertices().len(), 4 * (2 * 256 + 4 * 64));
        assert_eq!(chunk.get_indices().len(), 6 * (2 * 256 + 4 * 64));
        assert_eq!(chunk.get_colliders().len(), 1);
    }

    assert!(manager.next_builds().is_empty());
    manager.update(&registry, &Vec::new());
    assert_eq!(manager.get_renderable_chunks().len(), 5);
}

#[test]
fn a_single_chunk_is_built_in_one_tick() {
    let registry = register_blocks().unwrap();
    let mut manager = manager_with(1);
    manager.update(&registry, &flat(0));
    assert_eq!(manager.get_renderable_chunks().len(), 1);
    assert_eq!(manager.chunks_to_load_count(), 0);
}

#[test]
fn adding_a_coordinate_twice_keeps_one_chunk() {
    let registry = register_blocks().unwrap();
    let mut manager = ChunkManager::new();
    let pos = ChunkPos::new(1, 2, 3);
    assert!(!manager.holds(pos));
    assert!(manager.add_chunk(Chunk::new(pos)));
    assert!(!manager.add_chunk(Chunk::new(pos)));
    assert_eq!(manager.chunks_to_load_count(), 1);
    assert!(manager.holds(pos));
    assert!(!manager.holds(ChunkPos::new(1, 2, 4)));

    // and once it is built
    manager.update(&registry, &flat(3));
    assert!(manager.holds(pos));
    assert!(!manager.add_chunk(Chunk::new(pos)));
    assert_eq!(manager.chunks_to_load_count(), 0);
    assert_eq!(manager.chunks_to_build_count(), 0);
    assert_eq!(manager.get_renderable_chunks().len(), 1);

    // another coordinate is taken
    assert!(manager.add_chunk(Chunk::new(ChunkPos::new(1, 2, 4))));
    assert_eq!(manager.chunks_to_load_count(), 1);
}

#[test]
fn chunks_are_found_only_once_they_are_built() {
    let registry = register_blocks().unwrap();
    let mut manager = manager_with(3);
    let pos = ChunkPos::new(0, 0, 0);
    assert!(manager.get_chunk(pos).is_none());
    assert!(manager.get_chunk_from_world(&BlockPos::new(3, 3, 3)).is_none());
    manager.update(&registry, &flat(3));
    assert_eq!(manager.get_chunk(pos).unwrap().get_pos(), pos);
    assert_eq!(manager.get_chunk_from_world(&BlockPos::new(3, 3, 3)).unwrap().get_pos(), pos);
    assert_eq!(manager.get_chunk_from_world(&BlockPos::new(15, 0, 15)).unwrap().get_pos(), pos);
    assert!(manager.get_chunk_from_world(&BlockPos::new(16, 0, 0)).is_some());
    assert!(manager.get_chunk_from_world(&BlockPos::new(-1, 0, 0)).is_none());
    // the third chunk waits to be admitted: it is held, and not found
    assert!(manager.holds(ChunkPos::new(2, 0, 0)));
    assert!(manager.get_chunk(ChunkPos::new(2, 0, 0)).is_none());
    assert!(manager.get_chunk_from_world(&BlockPos::new(32, 0, 0)).is_none());
}

#[test]
fn a_built_chunk_can_be_changed_in_place() {
    let registry = register_blocks().unwrap();
    let mut manager = manager_with(2);
    manager.update(&registry, &flat(-1));
    let stone = Block::new(Identifier::new("willekeurig", "stone"), 0, 32);
    {
        let chunk = manager.get_chunk_mut(ChunkPos::new(1, 0, 0)).unwrap();
        assert!(chunk.is_empty());
        assert!(chunk.add_block(4, 4, 4, Some(stone.clone())));
    }
    assert!(manager.get_chunk_mut(ChunkPos::new(7, 0, 0)).is_none());
    {
        let chunk = manager.get_chunk_from_world_mut(&BlockPos::new(20, 4, 4)).unwrap();
        assert_eq!(chunk.get_pos(), ChunkPos::new(1, 0, 0));
        assert!(chunk.is_dirty());
        assert!(chunk.get_block(&registry, 4, 4, 4).is_some());
        chunk.build_mesh(&registry);
    }
    let chunk = manager.get_chunk(ChunkPos::new(1, 0, 0)).unwrap();
    assert_eq!(chunk.get_vertices().len(), 24);
    assert!(manager.get_chunk(ChunkPos::new(0, 0, 0)).unwrap().is_empty());
}

#[test]
fn terrain_is_made_on_the_first_build_only() {
    let registry = register_blocks().unwrap();
    let mut manager = ChunkManager::new();
    let mut built_before = Chunk::new(ChunkPos::new(0, 0, 0));
    built_before.build_mesh(&registry);
    assert!(!built_before.is_first_build());
    assert!(manager.add_chunk(built_before));
    assert!(manager.add_chunk(Chunk::new(ChunkPos::new(1, 0, 0))));
    manager.update(&registry, &flat(3));
    assert!(manager.get_chunk(ChunkPos::new(0, 0, 0)).unwrap().is_empty());
    assert!(!manager.get_chunk(ChunkPos::new(1, 0, 0)).unwrap().is_empty());
}

#[test]
fn each_chunk_takes_its_own_height_map() {
    let registry = register_blocks().unwrap();
    let mut manager = manager_with(2);
    let maps = vec![vec![0; COLUMN_COUNT], vec![1; COLUMN_COUNT]];
    manager.update(&registry, &maps);
    let first = manager.get_chunk(ChunkPos::new(0, 0, 0)).unwrap();
    let second = manager.get_chunk(ChunkPos::new(1, 0, 0)).unwrap();
    assert_eq!(first.get_data().get_solid_blocks(), 256);
    assert_eq!(second.get_data().get_solid_blocks(), 512);
}

#[test]
fn world_asks_for_the_cube_round_the_observer() {
    let mut world = World::new(7, 1);
    assert_eq!(world.get_seed(), 7);
    assert_eq!(world.get_render_distance(), 1);
    // the observer is taken to start in the chunk at the origin: nothing is asked for
    world.create_or_destroy_chunks(&BlockPos::new(3, 3, 3));
    assert_eq!(world.get_chunk_manager().chunks_to_load_count(), 0);

    world.create_or_destroy_chunks(&BlockPos::new(3, 64, 3));
    let manager = world.get_chunk_manager();
    assert_eq!(manager.chunks_to_load_count(), 8);
    for x in -1..1 {
        for y in 3..5 {
            for z in -1..1 {
                assert!(manager.holds(ChunkPos::new(x, y, z)));
            }
        }
    }
    assert!(!manager.holds(ChunkPos::new(1, 4, 0)));
    assert!(!manager.holds(ChunkPos::new(0, 5, 0)));
    assert!(!manager.holds(ChunkPos::new(0, 2, 0)));
    // z changes last, then x, then y
    assert_eq!(
        world.next_builds(),
        vec![ChunkPos::new(-1, 3, -1), ChunkPos::new(-1, 4, -1)]
    );
}

#[test]
fn world_asks_again_only_after_a_change_of_chunk() {
    let registry = register_blocks().unwrap();
    let mut world = World::new(0, 1);
    world.create_or_destroy_chunks(&BlockPos::new(0, 16, 0));
    assert_eq!(world.get_chunk_manager().chunks_to_load_count(), 8);
    world.update(&registry, &flat(17));
    assert_eq!(world.get_chunk_manager().chunks_to_load_count(), 6);
    assert_eq!(world.get_renderable_chunks().len(), 2);

    // same chunk: nothing new
    world.create_or_destroy_chunks(&BlockPos::new(15, 31, 15));
    assert_eq!(world.get_chunk_manager().chunks_to_load_count(), 6);

    // next chunk along x: four new coordinates, four known ones
    world.create_or_destroy_chunks(&BlockPos::new(16, 31, 15));
    assert_eq!(world.get_chunk_manager().chunks_to_load_count(), 10);
    assert!(world.get_chunk_manager().holds(ChunkPos::new(1, 1, 0)));

    for _ in 0..5 {
        let count = world.next_builds().len();
        assert_eq!(count, 2);
        world.update(&registry, &flat(17));
    }
    assert_eq!(world.get_renderable_chunks().len(), 12);
    assert!(world.next_builds().is_empty());

    let chunk = world.get_chunk_from_world(&BlockPos::new(0, 17, 0)).unwrap();
    assert_eq!(chunk.get_pos(), ChunkPos::new(0, 1, 0));
    assert_eq!(chunk.get_data().get_solid_blocks(), 2 * 256);
    assert!(world.get_chunk(ChunkPos::new(0, 0, 0)).unwrap().get_data().get_solid_blocks() == 4096);
    assert!(world.get_chunk_from_world(&BlockPos::new(0, 40, 0)).is_none());
    assert!(world.get_chunk_from_world_mut(&BlockPos::new(0, 17, 0)).is_some());
}

#[test]
fn world_without_reach_asks_for_nothing() {
    let mut world = World::new(0, 0);
    world.create_or_destroy_chunks(&BlockPos::new(100, 100, 100));
    assert_eq!(world.get_chunk_manager().chunks_to_load_count(), 0);
}

#[test]
fn world_skips_coordinates_outside_the_grid() {
    let mut world = World::new(0, 1);
    world.create_or_destroy_chunks(&BlockPos::new(i64::MIN, 0, 0));
    // the observer stands in the first chunk of the grid along x: the
    // chunks before it do not exist
    let manager = world.get_chunk_manager();
    assert_eq!(manager.chunks_to_load_count(), 4);
    assert!(manager.holds(ChunkPos::new(i32::MIN, 0, 0)));
    assert!(manager.holds(ChunkPos::new(i32::MIN, -1, -1)));
}

#[test]
fn chunk_is_hidden_by_six_filled_neighbours() {
    let registry = register_blocks().unwrap();
    let mut world = World::new(0, 2);
    world.create_or_destroy_chunks(&BlockPos::new(16, 16, 16));
    while !world.next_builds().is_empty() {
        // terrain up to height 100 fills every chunk
        world.update(&registry, &flat(100));
    }
    assert_eq!(world.get_renderable_chunks().len(), 64);
    let inner = world.get_chunk(ChunkPos::new(0, 0, 0)).unwrap();
    assert!(!inner.is_visible(&world));
    let edge = world.get_chunk(ChunkPos::new(-1, 0, 0)).unwrap();
    assert!(edge.is_visible(&world));
    let loose = Chunk::new(ChunkPos::new(50, 50, 50));
    assert!(loose.is_visible(&world));

    // an empty neighbour lets the chunk be seen
    for x in 0..16 {
        for y in 0..16 {
            for z in 0..16 {
                let above = world.get_chunk_from_world_mut(&BlockPos::new(0, 16, 0)).unwrap();
                assert!(above.remove_block(x, y, z));
            }
        }
    }
    let inner = world.get_chunk(ChunkPos::new(0, 0, 0)).unwrap();
    assert!(inner.is_visible(&world));
}
