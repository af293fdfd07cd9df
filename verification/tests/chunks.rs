use willekeurig::block::{Block, Vertex};
use willekeurig::block_culling::{cull_neighbors, CullCode};
use willekeurig::chunk::{Chunk, ChunkData};
use willekeurig::collision::CollisionBox;
use willekeurig::identifier::Identifier;
use willekeurig::registry::{register_blocks, Registry};
use willekeurig::vector::{BlockPos, ChunkPos, LocalPos};

fn stone() -> Block {
    Block::new(Identifier::new("willekeurig", "stone"), 0, 32)
}

fn origin() -> ChunkPos {
    ChunkPos::new(0, 0, 0)
}

fn full_chunk() -> ChunkData {
    let mut data = ChunkData::new(origin());
    for z in 0..16 {
        for y in 0..16 {
            for x in 0..16 {
                assert!(data.add_block(x, y, z, Some(stone())));
            }
        }
    }
    data
}

#[test]
fn new_chunk_data_is_empty() {
    let data = ChunkData::new(ChunkPos::new(1, 2, 3));
    assert!(data.is_empty());
    assert_eq!(data.get_pos(), ChunkPos::new(1, 2, 3));
    assert_eq!(data.cell_count(), 4096);
    assert_eq!(data.get_solid_blocks(), 0);
    assert_eq!(data.get_air_blocks(), 0);
    assert_eq!(data.get_blocks().len(), 4096);
    assert!(data.get_blocks().iter().all(|cell| cell.is_none()));
}

#[test]
fn origin_block_is_addressable() {
    let registry = register_blocks().unwrap();
    let mut data = ChunkData::new(origin());
    assert!(data.add_block(0, 0, 0, Some(stone())));
    assert!(!data.is_empty());
    assert!(data.get_cell(0, 0, 0).unwrap().matches(&Identifier::new("willekeurig", "stone")));
    let block = data.get_block(&registry, 0, 0, 0).unwrap();
    assert!(block.get_identifier().matches(&Identifier::new("willekeurig", "stone")));
    assert!(data.get_blocks()[0].is_some());
    assert!(data.remove_block(0, 0, 0));
    assert!(data.is_empty());
    assert!(data.get_block(&registry, 0, 0, 0).is_none());
}

#[test]
fn add_block_fails_outside_the_storage() {
    let mut data = ChunkData::new(origin());
    assert!(!data.add_block(0, 0, 16, Some(stone())));
    assert!(!data.add_block(0, 0, 4096, Some(stone())));
    assert!(!data.remove_block(0, 0, 16));
    assert!(data.is_empty());
    assert!(data.get_cell(0, 0, 16).is_none());
}

#[test]
fn a_component_of_16_or_more_is_no_cell() {
    let registry = register_blocks().unwrap();
    let mut data = ChunkData::new(origin());
    assert!(data.add_block(0, 1, 0, Some(stone())));
    assert!(data.add_block(0, 0, 1, Some(stone())));
    for (x, y, z) in [(16, 0, 0), (0, 16, 0), (0, 0, 16), (16, 16, 16), (usize::MAX, 0, 0)] {
        assert!(!data.add_block(x, y, z, Some(stone())));
        assert!(!data.add_block(x, y, z, None));
        assert!(!data.remove_block(x, y, z));
        assert!(data.get_cell(x, y, z).is_none());
        assert!(data.get_block(&registry, x, y, z).is_none());
    }
    // the cells that share the packed index are as they were
    assert!(data.get_block(&registry, 0, 1, 0).is_some());
    assert!(data.get_block(&registry, 0, 0, 1).is_some());
    assert_eq!(data.get_solid_blocks(), 2);
    assert_eq!(data.get_air_blocks(), 0);

    let mut chunk = Chunk::new(origin());
    chunk.build_mesh(&registry);
    assert!(!chunk.add_block(16, 0, 0, Some(stone())));
    assert!(!chunk.remove_block(0, 16, 0));
    assert!(chunk.get_block(&registry, 16, 0, 0).is_none());
    assert!(!chunk.is_dirty());
    assert!(chunk.is_empty());
    // a point behind the chunk on x falls outside it
    assert!(!chunk.add_block_from_world_pos(16, 0, 0, Some(stone())));
    assert!(chunk.get_block_from_world_pos(&registry, 16, 0, 0).is_none());
}

#[test]
fn block_that_the_registry_does_not_know_is_not_found() {
    let registry = Registry::new();
    let mut data = ChunkData::new(origin());
    assert!(data.add_block(1, 2, 3, Some(stone())));
    assert!(data.get_cell(1, 2, 3).is_some());
    assert!(data.get_block(&registry, 1, 2, 3).is_none());
}

#[test]
fn counters_follow_the_blocks() {
    let mut data = ChunkData::new(origin());
    assert!(data.add_block(1, 1, 1, Some(stone())));
    assert!(data.add_block(2, 1, 1, Some(stone())));
    assert_eq!(data.get_solid_blocks(), 2);
    assert_eq!(data.get_air_blocks(), 0);
    // overwriting a block keeps the count
    assert!(data.add_block(2, 1, 1, Some(stone())));
    assert_eq!(data.get_solid_blocks(), 2);
    // taking a block out counts one air block
    assert!(data.remove_block(1, 1, 1));
    assert_eq!(data.get_solid_blocks(), 1);
    assert_eq!(data.get_air_blocks(), 1);
    // emptying an empty cell counts nothing
    assert!(data.remove_block(1, 1, 1));
    assert_eq!(data.get_air_blocks(), 1);
    // putting a block in takes one air block off
    assert!(data.add_block(5, 5, 5, Some(stone())));
    assert_eq!(data.get_air_blocks(), 0);
    assert_eq!(data.get_solid_blocks(), 2);
    assert!(!data.is_empty());
    assert!(data.remove_block(5, 5, 5));
    assert!(data.remove_block(2, 1, 1));
    assert!(data.is_empty());
    assert_eq!(data.get_air_blocks(), 2);
}

#[test]
fn world_positions_reach_the_cells() {
    let registry = register_blocks().unwrap();
    let mut chunk = Chunk::new(ChunkPos::new(-1, 0, 2));
    assert!(chunk.add_block_from_world_pos(-16, 0, 32, Some(stone())));
    assert!(chunk.get_block(&registry, 0, 0, 0).is_some());
    assert!(chunk.add_block_from_world_pos(-1, 15, 47, Some(stone())));
    assert!(chunk.get_block(&registry, 15, 15, 15).is_some());
    assert!(chunk.get_block_from_world_pos(&registry, -1, 15, 47).is_some());
    assert!(chunk.get_block_from_world_pos(&registry, -2, 15, 47).is_none());
    assert_eq!(chunk.local_to_world_pos(15, 15, 15), BlockPos::new(-1, 15, 47));
    // a point behind the chunk on z falls outside the storage
    assert!(!chunk.add_block_from_world_pos(-16, 0, 48, Some(stone())));
}

#[test]
fn cull_code_bits() {
    assert_eq!(CullCode::Default.bits(), 0);
    assert_eq!(CullCode::F.bits(), 1);
    assert_eq!(CullCode::B.bits(), 2);
    assert_eq!(CullCode::L.bits(), 4);
    assert_eq!(CullCode::R.bits(), 8);
    assert_eq!(CullCode::U.bits(), 16);
    assert_eq!(CullCode::D.bits(), 32);
    assert_eq!(CullCode::LR.bits(), 12);
    assert_eq!(CullCode::UDFBLR.bits(), 63);
    assert_eq!(CullCode::DFBL.bits(), 39);
    assert_eq!(CullCode::UFR.bits(), 25);
}

#[test]
fn isolated_block_shows_all_faces() {
    let registry = register_blocks().unwrap();
    let mut data = ChunkData::new(origin());
    assert!(data.add_block(5, 5, 5, Some(stone())));
    assert_eq!(cull_neighbors(&data, &registry, 5, 5, 5), CullCode::UDFBLR.bits());
    let (vertices, indices) = data.build_mesh(&registry);
    assert_eq!(vertices.len(), 24);
    assert_eq!(indices.len(), 36);
    let expected: Vec<u32> = (0..6u32)
        .flat_map(|face| [0, 1, 2, 2, 3, 0].into_iter().map(move |corner| 4 * face + corner))
        .collect();
    assert_eq!(indices, expected);
    // the front face comes first; the block stands at (5, 5, 5), so its
    // middle is at (10, 10, 10) in half blocks
    assert_eq!(
        vertices[0..4],
        [
            Vertex { position: (9, 9, 11), tex_coords: (0, 64) },
            Vertex { position: (11, 9, 11), tex_coords: (32, 64) },
            Vertex { position: (11, 11, 11), tex_coords: (32, 32) },
            Vertex { position: (9, 11, 11), tex_coords: (0, 32) },
        ]
    );
    // then back, top, bottom, left, right
    assert!(vertices[4..8].iter().all(|v| v.position.2 == 9));
    assert!(vertices[8..12].iter().all(|v| v.position.1 == 11));
    assert!(vertices[12..16].iter().all(|v| v.position.1 == 9));
    assert!(vertices[16..20].iter().all(|v| v.position.0 == 9));
    assert!(vertices[20..24].iter().all(|v| v.position.0 == 11));
}

#[test]
fn block_in_a_corner_shows_all_faces() {
    let registry = register_blocks().unwrap();
    let mut data = ChunkData::new(ChunkPos::new(1, -1, 0));
    assert!(data.add_block(0, 15, 0, Some(stone())));
    assert_eq!(cull_neighbors(&data, &registry, 0, 15, 0), 63);
    let (vertices, indices) = data.build_mesh(&registry);
    assert_eq!(vertices.len(), 24);
    assert_eq!(indices.len(), 36);
    // world coordinate (16, -1, 0), so the middle is at (32, -2, 0)
    assert_eq!(vertices[0].position, (31, -3, 1));
}

#[test]
fn neighbours_hide_the_faces_between_them() {
    let registry = register_blocks().unwrap();
    let mut data = ChunkData::new(origin());
    assert!(data.add_block(5, 5, 5, Some(stone())));
    assert!(data.add_block(6, 5, 5, Some(stone())));
    assert_eq!(cull_neighbors(&data, &registry, 5, 5, 5), CullCode::UDFBL.bits());
    assert_eq!(cull_neighbors(&data, &registry, 6, 5, 5), CullCode::UDFBR.bits());
    assert!(data.add_block(5, 6, 5, Some(stone())));
    assert!(data.add_block(5, 5, 4, Some(stone())));
    assert_eq!(cull_neighbors(&data, &registry, 5, 5, 5), CullCode::DFL.bits());
    let (vertices, indices) = data.build_mesh(&registry);
    // four blocks, three hidden pairs of faces
    assert_eq!(vertices.len(), 4 * (24 - 6));
    assert_eq!(indices.len(), 6 * (24 - 6));
    assert_eq!(*indices.last().unwrap(), 4 * 17);
}

#[test]
fn a_neighbour_that_the_registry_does_not_know_hides_nothing() {
    let registry = register_blocks().unwrap();
    let mut data = ChunkData::new(origin());
    assert!(data.add_block(5, 5, 5, Some(stone())));
    let unknown = Block::new(Identifier::new("willekeurig", "sand"), 0, 0);
    assert!(data.add_block(6, 5, 5, Some(unknown)));
    assert_eq!(cull_neighbors(&data, &registry, 5, 5, 5), 63);
    let (vertices, indices) = data.build_mesh(&registry);
    assert_eq!(vertices.len(), 24);
    assert_eq!(indices.len(), 36);
}

#[test]
fn empty_chunk_has_no_mesh() {
    let registry = register_blocks().unwrap();
    let data = ChunkData::new(origin());
    let (vertices, indices) = data.build_mesh(&registry);
    assert!(vertices.is_empty());
    assert!(indices.is_empty());
    assert!(data.gen_collision_mesh().is_empty());
}

#[test]
fn full_chunk_shows_its_outside_only() {
    let registry = register_blocks().unwrap();
    let data = full_chunk();
    let (vertices, indices) = data.build_mesh(&registry);
    assert_eq!(vertices.len(), 4 * 6 * 256);
    assert_eq!(indices.len(), 6 * 6 * 256);
    assert_eq!(cull_neighbors(&data, &registry, 7, 7, 7), 0);
    assert_eq!(cull_neighbors(&data, &registry, 0, 7, 7), CullCode::L.bits());
    assert_eq!(cull_neighbors(&data, &registry, 15, 15, 15), CullCode::UFR.bits());
}

#[test]
fn full_chunk_merges_into_one_box() {
    let boxes = full_chunk().gen_collision_mesh();
    assert_eq!(
        boxes,
        vec![CollisionBox { position: LocalPos::new(0, 0, 0), size: LocalPos::new(16, 16, 16) }]
    );
}

#[test]
fn single_block_is_one_unit_box() {
    let mut data = ChunkData::new(origin());
    assert!(data.add_block(5, 5, 5, Some(stone())));
    let boxes = data.gen_collision_mesh();
    assert_eq!(
        boxes,
        vec![CollisionBox { position: LocalPos::new(5, 5, 5), size: LocalPos::new(1, 1, 1) }]
    );
}

#[test]
fn boxes_grow_along_x_then_y_then_z() {
    let mut data = ChunkData::new(origin());
    // a slab of 3 x 2 x 1 and one block on top of its first cell
    for x in 2..5 {
        for y in 1..3 {
            assert!(data.add_block(x, y, 4, Some(stone())));
        }
    }
    assert!(data.add_block(2, 1, 5, Some(stone())));
    let boxes = data.gen_collision_mesh();
    assert_eq!(
        boxes,
        vec![
            CollisionBox { position: LocalPos::new(2, 1, 4), size: LocalPos::new(3, 2, 1) },
            CollisionBox { position: LocalPos::new(2, 1, 5), size: LocalPos::new(1, 1, 1) },
        ]
    );
}

#[test]
fn an_axis_that_failed_is_not_tried_again() {
    let mut data = ChunkData::new(origin());
    // an L: a row of three along x, and a second row of one above its first cell.
    // The box grows to 2 x 1, fails on y, grows to 3 x 1 and stops.
    for x in 0..3 {
        assert!(data.add_block(x, 0, 0, Some(stone())));
    }
    assert!(data.add_block(0, 1, 0, Some(stone())));
    let boxes = data.gen_collision_mesh();
    assert_eq!(
        boxes,
        vec![
            CollisionBox { position: LocalPos::new(0, 0, 0), size: LocalPos::new(3, 1, 1) },
            CollisionBox { position: LocalPos::new(0, 1, 0), size: LocalPos::new(1, 1, 1) },
        ]
    );
}

#[test]
fn boxes_cover_each_block_once() {
    let mut data = ChunkData::new(origin());
    let mut solid = vec![false; 4096];
    let mut state: u32 = 12345;
    for index in 0..4096usize {
        state = state.wrapping_mul(1664525).wrapping_add(1013904223);
        if (state >> 16) % 3 != 0 {
            solid[index] = true;
            assert!(data.add_block(index % 16, (index / 16) % 16, index / 256, Some(stone())));
        }
    }
    let boxes = data.gen_collision_mesh();
    let mut covered = vec![0u32; 4096];
    for b in &boxes {
        assert!(b.size.x >= 1 && b.size.y >= 1 && b.size.z >= 1);
        assert!(b.position.x + b.size.x <= 16);
        assert!(b.position.y + b.size.y <= 16);
        assert!(b.position.z + b.size.z <= 16);
        for z in b.position.z..b.position.z + b.size.z {
            for y in b.position.y..b.position.y + b.size.y {
                for x in b.position.x..b.position.x + b.size.x {
                    covered[x + 16 * y + 256 * z] += 1;
                }
            }
        }
    }
    for index in 0..4096 {
        assert_eq!(covered[index], if solid[index] { 1 } else { 0 });
    }
}

#[test]
fn new_chunk_waits_for_its_first_build() {
    let chunk = Chunk::new(ChunkPos::new(3, 4, 5));
    assert_eq!(chunk.get_pos(), ChunkPos::new(3, 4, 5));
    assert!(chunk.is_first_build());
    assert!(chunk.is_dirty());
    assert!(chunk.is_empty());
    assert!(chunk.get_vertices().is_empty());
    assert!(chunk.get_indices().is_empty());
    assert!(chunk.get_colliders().is_empty());
}

#[test]
fn build_mesh_replaces_mesh_and_boxes() {
    let registry = register_blocks().unwrap();
    let mut chunk = Chunk::new(origin());
    assert!(chunk.add_block(1, 1, 1, Some(stone())));
    assert!(chunk.add_block(3, 1, 1, Some(stone())));
    assert!(chunk.add_block(5, 1, 1, Some(stone())));
    chunk.build_mesh(&registry);
    assert!(!chunk.is_dirty());
    assert!(!chunk.is_first_build());
    assert_eq!(chunk.get_vertices().len(), 72);
    assert_eq!(chunk.get_indices().len(), 108);
    assert_eq!(chunk.get_colliders().len(), 3);

    assert!(chunk.remove_block(3, 1, 1));
    assert!(chunk.remove_block(5, 1, 1));
    assert!(chunk.is_dirty());
    chunk.build_mesh(&registry);
    assert!(!chunk.is_dirty());
    assert_eq!(chunk.get_vertices().len(), 24);
    assert_eq!(chunk.get_indices().len(), 36);
    assert_eq!(
        *chunk.get_colliders(),
        vec![CollisionBox { position: LocalPos::new(1, 1, 1), size: LocalPos::new(1, 1, 1) }]
    );

    assert!(chunk.remove_block(1, 1, 1));
    chunk.build_mesh(&registry);
    assert!(chunk.get_vertices().is_empty());
    assert!(chunk.get_indices().is_empty());
    assert!(chunk.get_colliders().is_empty());
}

#[test]
fn a_write_that_fails_leaves_the_chunk_clean() {
    let registry = register_blocks().unwrap();
    let mut chunk = Chunk::new(origin());
    chunk.build_mesh(&registry);
    assert!(!chunk.is_dirty());
    assert!(!chunk.add_block(0, 0, 16, Some(stone())));
    assert!(!chunk.remove_block(0, 0, 16));
    assert!(!chunk.is_dirty());
    assert!(chunk.add_block(0, 0, 15, None));
    assert!(chunk.is_dirty());
}

#[test]
fn disposed_chunk_has_no_cells() {
    let registry = register_blocks().unwrap();
    let mut chunk = Chunk::new(ChunkPos::new(1, 1, 1));
    assert!(chunk.add_block(1, 1, 1, Some(stone())));
    chunk.build_mesh(&registry);
    chunk.dispose();
    assert_eq!(chunk.get_pos(), ChunkPos::new(1, 1, 1));
    assert!(chunk.is_empty());
    assert_eq!(chunk.get_data().cell_count(), 0);
    assert!(chunk.get_block(&registry, 1, 1, 1).is_none());
    assert!(!chunk.add_block(1, 1, 1, Some(stone())));
    assert!(!chunk.add_block(0, 0, 0, Some(stone())));
    // what was built stays until the next build
    assert_eq!(chunk.get_vertices().len(), 24);
    chunk.build_mesh(&registry);
    assert!(chunk.get_vertices().is_empty());
    assert!(chunk.get_colliders().is_empty());
}

#[test]
fn index_bytes_are_the_indices_in_machine_order() {
    let registry = register_blocks().unwrap();
    let mut chunk = Chunk::new(origin());
    assert!(chunk.get_index_bytes().is_empty());
    assert!(chunk.add_block(5, 5, 5, Some(stone())));
    assert!(chunk.add_block(9, 9, 9, Some(stone())));
    chunk.build_mesh(&registry);
    let expected: Vec<u8> =
        chunk.get_indices().iter().flat_map(|index| index.to_ne_bytes()).collect();
    assert_eq!(expected.len(), 4 * 72);
    assert_eq!(chunk.get_index_bytes(), expected.as_slice());
    // index 1 of the first face: the bytes of 1
    assert_eq!(chunk.get_index_bytes()[4..8], 1u32.to_ne_bytes());
    // the last index names the first corner of the twelfth face
    assert_eq!(chunk.get_index_bytes()[4 * 71..], 44u32.to_ne_bytes());
}

#[test]
fn no_box_could_have_grown_further() {
    let mut data = ChunkData::new(origin());
    let mut solid = vec![false; 4096];
    let mut state: u32 = 987;
    for index in 0..4096usize {
        state = state.wrapping_mul(1664525).wrapping_add(1013904223);
        if (state >> 16) % 5 != 0 {
            solid[index] = true;
            assert!(data.add_block(index % 16, (index / 16) % 16, index / 256, Some(stone())));
        }
    }
    let boxes = data.gen_collision_mesh();
    let mut covered = vec![false; 4096];
    for b in &boxes {
        let (px, py, pz) = (b.position.x, b.position.y, b.position.z);
        let (ex, ey, ez) = (px + b.size.x, py + b.size.y, pz + b.size.z);
        // the layer next to the box on each axis: its first and its last corner
        let layers = [
            ((ex, py, pz), (ex + 1, ey, ez)),
            ((px, ey, pz), (ex, ey + 1, ez)),
            ((px, py, ez), (ex, ey, ez + 1)),
        ];
        for (lo, hi) in layers {
            let mut open = hi.0 <= 16 && hi.1 <= 16 && hi.2 <= 16;
            if open {
                for z in lo.2..hi.2 {
                    for y in lo.1..hi.1 {
                        for x in lo.0..hi.0 {
                            let index = x + 16 * y + 256 * z;
                            open = open && solid[index] && !covered[index];
                        }
                    }
                }
            }
            assert!(!open);
        }
        for z in pz..ez {
            for y in py..ey {
                for x in px..ex {
                    covered[x + 16 * y + 256 * z] = true;
                }
            }
        }
    }
}
