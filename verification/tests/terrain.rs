use willekeurig::chunk::Chunk;
use willekeurig::generator::{gen_smooth_terrain, COLUMN_COUNT};
use willekeurig::identifier::Identifier;
use willekeurig::registry::{register_blocks, Registry};
use willekeurig::vector::ChunkPos;

fn name_at(chunk: &Chunk, x: usize, y: usize, z: usize) -> Option<String> {
    chunk.get_data().get_cell(x, y, z).map(|id| id.get_name())
}

#[test]
fn columns_get_a_surface_and_what_lies_below() {
    let registry = register_blocks().unwrap();
    let mut chunk = Chunk::new(ChunkPos::new(0, 0, 0));
    let mut heights = vec![3; COLUMN_COUNT];
    heights[2 * 16 + 1] = 0; // column x = 1, z = 2
    heights[5 * 16 + 4] = -1; // column x = 4, z = 5
    heights[7 * 16 + 6] = 100; // column x = 6, z = 7
    gen_smooth_terrain(&mut chunk, &registry, &heights);

    assert_eq!(name_at(&chunk, 0, 3, 0).as_deref(), Some("grass_block"));
    assert_eq!(name_at(&chunk, 0, 2, 0).as_deref(), Some("stone"));
    assert_eq!(name_at(&chunk, 0, 0, 0).as_deref(), Some("stone"));
    assert_eq!(name_at(&chunk, 0, 4, 0), None);

    assert_eq!(name_at(&chunk, 1, 0, 2).as_deref(), Some("grass_block"));
    assert_eq!(name_at(&chunk, 1, 1, 2), None);

    for y in 0..16 {
        assert_eq!(name_at(&chunk, 4, y, 5), None);
        assert_eq!(name_at(&chunk, 6, y, 7).as_deref(), Some("stone"));
    }
    assert!(chunk.is_dirty());
    assert!(chunk.is_first_build());
    assert_eq!(chunk.get_data().get_solid_blocks(), 253 * 4 + 1 + 16);
    assert_eq!(chunk.get_data().get_air_blocks(), 0);
}

#[test]
fn height_is_counted_in_the_world() {
    let registry = register_blocks().unwrap();
    let heights = vec![20; COLUMN_COUNT];

    let mut below = Chunk::new(ChunkPos::new(0, 0, 0));
    gen_smooth_terrain(&mut below, &registry, &heights);
    assert_eq!(below.get_data().get_solid_blocks(), 4096);
    assert_eq!(name_at(&below, 3, 15, 3).as_deref(), Some("stone"));

    let mut at = Chunk::new(ChunkPos::new(5, 1, -2));
    gen_smooth_terrain(&mut at, &registry, &heights);
    assert_eq!(name_at(&at, 3, 4, 3).as_deref(), Some("grass_block"));
    assert_eq!(name_at(&at, 3, 3, 3).as_deref(), Some("stone"));
    assert_eq!(name_at(&at, 3, 5, 3), None);
    assert_eq!(at.get_data().get_solid_blocks(), 5 * 256);

    let mut above = Chunk::new(ChunkPos::new(0, 2, 0));
    gen_smooth_terrain(&mut above, &registry, &heights);
    assert!(above.is_empty());
    assert!(above.is_dirty());

    let mut deep = Chunk::new(ChunkPos::new(0, -1, 0));
    gen_smooth_terrain(&mut deep, &registry, &vec![-16; COLUMN_COUNT]);
    assert_eq!(deep.get_data().get_solid_blocks(), 256);
    assert_eq!(name_at(&deep, 0, 0, 0).as_deref(), Some("grass_block"));
}

#[test]
fn terrain_puts_only_blocks_that_the_registry_knows() {
    let heights = vec![3; COLUMN_COUNT];
    let mut chunk = Chunk::new(ChunkPos::new(0, 0, 0));
    gen_smooth_terrain(&mut chunk, &Registry::new(), &heights);
    assert!(chunk.is_empty());

    let mut only_grass = Registry::new();
    let grass = register_blocks()
        .unwrap()
        .get_block(&Identifier::new("willekeurig", "grass_block"))
        .unwrap();
    assert_eq!(only_grass.register_block(grass), Ok(()));
    gen_smooth_terrain(&mut chunk, &only_grass, &heights);
    assert_eq!(chunk.get_data().get_solid_blocks(), 256);
    assert_eq!(name_at(&chunk, 9, 3, 9).as_deref(), Some("grass_block"));
    assert_eq!(name_at(&chunk, 9, 2, 9), None);
}

#[test]
fn terrain_keeps_what_it_does_not_overwrite() {
    let registry = register_blocks().unwrap();
    let dirt = registry.get_block(&Identifier::new("willekeurig", "dirt")).unwrap();
    let mut chunk = Chunk::new(ChunkPos::new(0, 0, 0));
    assert!(chunk.add_block(0, 10, 0, Some(dirt.clone())));
    assert!(chunk.add_block(0, 1, 0, Some(dirt)));
    gen_smooth_terrain(&mut chunk, &registry, &vec![3; COLUMN_COUNT]);
    assert_eq!(name_at(&chunk, 0, 10, 0).as_deref(), Some("dirt"));
    assert_eq!(name_at(&chunk, 0, 1, 0).as_deref(), Some("stone"));
}
