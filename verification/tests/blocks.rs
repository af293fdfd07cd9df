use willekeurig::block::{Block, Face, TextureCoords, Vertex, TEX_ATLAS_SIZE, TEX_WIDTH_HEIGHT};
use willekeurig::camera_controller::Direction;
use willekeurig::generator::Color;
use willekeurig::identifier::{Identifier, IdentifierError};
use willekeurig::registry::{register_blocks, Registry};
use willekeurig::settings::Settings;

fn stone() -> Block {
    Block::new(Identifier::new("willekeurig", "stone"), 0, 32)
}

#[test]
fn texture_coords_span_one_face() {
    assert_eq!(TEX_ATLAS_SIZE, 512);
    assert_eq!(TEX_WIDTH_HEIGHT, 32);
    let tex = TextureCoords::new(64, 0);
    assert_eq!(tex.bottom_left_x, 64);
    assert_eq!(tex.bottom_left_y, 0);
    assert_eq!(tex.top_right_x, 96);
    assert_eq!(tex.top_right_y, 32);
    let far = TextureCoords::new(u32::MAX, u32::MAX);
    assert_eq!(far.top_right_x, u32::MAX as u64 + 32);
}

#[test]
fn front_face_vertices() {
    let verts = stone().get_vert_front();
    assert_eq!(
        verts,
        vec![
            Vertex { position: (-1, -1, 1), tex_coords: (0, 64) },
            Vertex { position: (1, -1, 1), tex_coords: (32, 64) },
            Vertex { position: (1, 1, 1), tex_coords: (32, 32) },
            Vertex { position: (-1, 1, 1), tex_coords: (0, 32) },
        ]
    );
}

#[test]
fn top_and_bottom_face_vertices() {
    assert_eq!(
        stone().get_vert_top(),
        vec![
            Vertex { position: (-1, 1, 1), tex_coords: (0, 32) },
            Vertex { position: (1, 1, 1), tex_coords: (32, 32) },
            Vertex { position: (1, 1, -1), tex_coords: (32, 64) },
            Vertex { position: (-1, 1, -1), tex_coords: (0, 64) },
        ]
    );
    assert_eq!(
        stone().get_vert_bottom(),
        vec![
            Vertex { position: (-1, -1, -1), tex_coords: (32, 32) },
            Vertex { position: (1, -1, -1), tex_coords: (0, 32) },
            Vertex { position: (1, -1, 1), tex_coords: (0, 64) },
            Vertex { position: (-1, -1, 1), tex_coords: (32, 64) },
        ]
    );
}

#[test]
fn back_left_and_right_face_vertices() {
    assert_eq!(
        stone().get_vert_back(),
        vec![
            Vertex { position: (-1, 1, -1), tex_coords: (32, 32) },
            Vertex { position: (1, 1, -1), tex_coords: (0, 32) },
            Vertex { position: (1, -1, -1), tex_coords: (0, 64) },
            Vertex { position: (-1, -1, -1), tex_coords: (32, 64) },
        ]
    );
    assert_eq!(
        stone().get_vert_left(),
        vec![
            Vertex { position: (-1, -1, -1), tex_coords: (32, 64) },
            Vertex { position: (-1, -1, 1), tex_coords: (0, 64) },
            Vertex { position: (-1, 1, 1), tex_coords: (0, 32) },
            Vertex { position: (-1, 1, -1), tex_coords: (32, 32) },
        ]
    );
    assert_eq!(
        stone().get_vert_right(),
        vec![
            Vertex { position: (1, -1, 1), tex_coords: (32, 64) },
            Vertex { position: (1, -1, -1), tex_coords: (0, 64) },
            Vertex { position: (1, 1, -1), tex_coords: (0, 32) },
            Vertex { position: (1, 1, 1), tex_coords: (32, 32) },
        ]
    );
}

#[test]
fn get_vert_by_face_is_the_named_getter() {
    let block = stone();
    assert_eq!(block.get_vert(Face::Front), block.get_vert_front());
    assert_eq!(block.get_vert(Face::Back), block.get_vert_back());
    assert_eq!(block.get_vert(Face::Top), block.get_vert_top());
    assert_eq!(block.get_vert(Face::Bottom), block.get_vert_bottom());
    assert_eq!(block.get_vert(Face::Left), block.get_vert_left());
    assert_eq!(block.get_vert(Face::Right), block.get_vert_right());
}

#[test]
fn each_face_shows_its_own_texture() {
    let mut block = stone();
    block.set_texture_front(1, 0);
    block.set_texture_back(2, 0);
    block.set_texture_top(3, 0);
    block.set_texture_bottom(4, 0);
    block.set_texture_left(5, 0);
    block.set_texture_right(6, 0);
    assert_eq!(block.get_vert_front()[3].tex_coords, (1, 0));
    assert_eq!(block.get_vert_back()[1].tex_coords, (2, 0));
    assert_eq!(block.get_vert_top()[0].tex_coords, (3, 0));
    assert_eq!(block.get_vert_bottom()[1].tex_coords, (4, 0));
    assert_eq!(block.get_vert_left()[2].tex_coords, (5, 0));
    assert_eq!(block.get_vert_right()[2].tex_coords, (6, 0));
}

#[test]
fn side_textures_leave_top_and_bottom() {
    let mut block = Block::new(Identifier::new("willekeurig", "grass_block"), 0, 0);
    block.set_texture_bottom(64, 0);
    block.set_side_textures(32, 0);
    assert_eq!(block.get_vert_top()[0].tex_coords, (0, 0));
    assert_eq!(block.get_vert_bottom()[1].tex_coords, (64, 0));
    assert_eq!(block.get_vert_front()[3].tex_coords, (32, 0));
    assert_eq!(block.get_vert_back()[1].tex_coords, (32, 0));
    assert_eq!(block.get_vert_left()[2].tex_coords, (32, 0));
    assert_eq!(block.get_vert_right()[2].tex_coords, (32, 0));
}

#[test]
fn registry_finds_the_oldest_match() {
    let mut registry = Registry::new();
    let mut first = stone();
    first.set_texture_top(7, 7);
    assert_eq!(registry.register_block(first), Ok(()));
    assert_eq!(registry.register_block(stone()), Ok(()));
    assert_eq!(
        registry.register_block(Block::new(Identifier::new("other", "stone"), 9, 9)),
        Ok(())
    );
    let found = registry.get_block(&Identifier::new("willekeurig", "stone")).unwrap();
    assert_eq!(found.get_vert_top()[0].tex_coords, (7, 7));
    let other = registry.get_block(&Identifier::new("other", "stone")).unwrap();
    assert_eq!(other.get_vert_top()[0].tex_coords, (9, 9));
    assert!(other.get_identifier().matches(&Identifier::new("other", "stone")));
    assert!(registry.get_block(&Identifier::new("willekeurig", "dirt")).is_none());
    assert!(registry.find(&Identifier::new("nobody", "stone")).is_none());
}

#[test]
fn registry_rejects_invalid_identifiers() {
    let mut registry = Registry::new();
    let bad_namespace = Block::new(Identifier::new("Will", "stone"), 0, 0);
    let bad_name = Block::new(Identifier::new("will", "st:one"), 0, 0);
    assert_eq!(registry.register_block(bad_namespace), Err(IdentifierError::InvalidNamespace));
    assert_eq!(registry.register_block(bad_name), Err(IdentifierError::InvalidName));
    assert!(registry.get_block(&Identifier::new("Will", "stone")).is_none());
    assert!(registry.get_block(&Identifier::new("will", "st:one")).is_none());
}

#[test]
fn game_registry_holds_grass_dirt_and_stone() {
    let registry = register_blocks().unwrap();
    let grass = registry.get_block(&Identifier::from_str("willekeurig:grass_block").unwrap());
    let grass = grass.unwrap();
    assert_eq!(grass.get_vert_top()[0].tex_coords, (0, 0));
    assert_eq!(grass.get_vert_bottom()[1].tex_coords, (64, 0));
    assert_eq!(grass.get_vert_left()[2].tex_coords, (32, 0));
    let dirt = registry.get_block(&Identifier::from_str("willekeurig:dirt").unwrap()).unwrap();
    assert_eq!(dirt.get_vert_top()[0].tex_coords, (64, 0));
    let stone = registry.get_block(&Identifier::from_str("willekeurig:stone").unwrap()).unwrap();
    assert_eq!(stone.get_vert_top()[0].tex_coords, (0, 32));
    assert!(registry.get_block(&Identifier::new("willekeurig", "sand")).is_none());
}

#[test]
fn direction_names() {
    assert_eq!(Direction::North.as_string(), "North");
    assert_eq!(Direction::South.as_string(), "South");
    assert_eq!(Direction::East.as_string(), "East");
    assert_eq!(Direction::West.as_string(), "West");
}

#[test]
fn settings_keep_the_draw_distance() {
    assert_eq!(Settings::new(5).get_draw_distance(), 5);
    assert_eq!(Settings::new(0).get_draw_distance(), 0);
}

#[test]
fn color_keeps_its_parts() {
    let color = Color::new(39, 50, 107);
    assert_eq!((color.r, color.g, color.b), (39, 50, 107));
}
