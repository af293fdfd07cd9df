use vstd::prelude::*;
use crate::block::Block;
use crate::chunk::{
    index_as_pos, lemma_cell_index_round_trip, spec_index_as_pos, Chunk, CELL_COUNT, CHUNK_SIZE,
};
use crate::identifier::Identifier;
use crate::registry::Registry;

verus! {

/// A colour, one byte each of red, green and blue.
#[derive(Clone, Copy, Debug, PartialEq, Eq, Structural)]
pub struct Color {
    pub r: u8,
    pub g: u8,
    pub b: u8,
}

impl Color {
    pub fn new(r: u8, g: u8, b: u8) -> (color: Self)
        ensures
            color == (Color { r, g, b }),
    {
        Color { r, g, b }
    }
}

/// Number of columns of a chunk, and so of heights in a height map.
pub const COLUMN_COUNT: usize = 256;

/// Namespace of the blocks that terrain is made of.
pub open spec fn terrain_namespace() -> Seq<char> {
    "willekeurig"@
}

/// Name of the block on top of a column.
pub open spec fn surface_name() -> Seq<char> {
    "grass_block"@
}

/// Name of the block below the top of a column.
pub open spec fn subsurface_name() -> Seq<char> {
    "stone"@
}

/// The block that terrain puts at height `y` of a chunk at grid height
/// `chunk_y`, in a column that is `height` high: the surface block at the
/// height of the column, the subsurface block below it, nothing above it,
/// and nothing where `registry` does not know the block.
pub open spec fn terrain_block(registry: &Registry, chunk_y: i32, y: int, height: i32) -> Option<
    Block,
> {
    let block_y = chunk_y * CHUNK_SIZE + y;
    if block_y == height {
        registry.resolve_name(terrain_namespace(), surface_name())
    } else if block_y < height {
        registry.resolve_name(terrain_namespace(), subsurface_name())
    } else {
        None
    }
}

/// The block that terrain puts into the cell with storage index `index`:
/// its column is `x + 16 z` in `height_map`.
pub open spec fn terrain_at(registry: &Registry, chunk_y: i32, height_map: Seq<i32>, index: int)
    -> Option<Block> {
    let at = spec_index_as_pos(index as usize);
    terrain_block(registry, chunk_y, at.y as int, height_map[at.z * CHUNK_SIZE + at.x])
}

/// How many of the first `cells` cells terrain has a block for.
pub open spec fn terrain_count(
    registry: &Registry,
    chunk_y: i32,
    height_map: Seq<i32>,
    cells: int,
) -> nat
    decreases cells,
{
    if cells <= 0 {
        0
    } else {
        terrain_count(registry, chunk_y, height_map, cells - 1) + if terrain_at(
            registry,
            chunk_y,
            height_map,
            cells - 1,
        ).is_some() {
            1nat
        } else {
            0nat
        }
    }
}

/// The cells `before` with terrain put in: a cell that terrain has a block
/// for holds its identifier, every other cell is as before.
pub open spec fn terrain_cells(
    before: Seq<Option<Identifier>>,
    registry: &Registry,
    chunk_y: i32,
    height_map: Seq<i32>,
) -> Seq<Option<Identifier>> {
    Seq::new(
        before.len(),
        |i: int|
            match terrain_at(registry, chunk_y, height_map, i) {
                Some(block) => Some(block.identifier()),
                None => before[i],
            },
    )
}

/// The air counter `air` after `written` blocks were put in: each takes
/// one off, as long as there is one.
pub open spec fn air_after_blocks(air: nat, written: nat) -> nat {
    if air >= written {
        (air - written) as nat
    } else {
        0
    }
}

/// Puts terrain into `chunk`: in each column the surface block at the
/// height that `height_map` gives, and the subsurface block below. The
/// chunk is dirty afterwards if a block was put in.
pub fn gen_smooth_terrain(chunk: &mut Chunk, registry: &Registry, height_map: &Vec<i32>)
    requires
        old(chunk).wf(),
        height_map@.len() >= COLUMN_COUNT,
    ensures
        final(chunk).wf(),
        final(chunk).pos() == old(chunk).pos(),
        final(chunk).data().cells() == terrain_cells(
            old(chunk).data().cells(),
            registry,
            old(chunk).pos().y,
            height_map@,
        ),
        final(chunk).data().air_count() == air_after_blocks(
            old(chunk).data().air_count(),
            terrain_count(
                registry,
                old(chunk).pos().y,
                height_map@,
                old(chunk).data().cells().len() as int,
            ),
        ),
        final(chunk).dirty() == (old(chunk).dirty() || terrain_count(
            registry,
            old(chunk).pos().y,
            height_map@,
            old(chunk).data().cells().len() as int,
        ) > 0),
        final(chunk).first_build() == old(chunk).first_build(),
        final(chunk).vertices() == old(chunk).vertices(),
        final(chunk).indices() == old(chunk).indices(),
        final(chunk).colliders() == old(chunk).colliders(),
{
    let chunk_y = chunk.get_pos().y;
    let surface_id = Identifier::new("willekeurig", "grass_block");
    let subsurface_id = Identifier::new("willekeurig", "stone");
    let surface = registry.find(&surface_id);
    let subsurface = registry.find(&subsurface_id);
    let cells = chunk.get_data().cell_count();
    let ghost before = old(chunk).data().cells();

    let mut index: usize = 0;
    while index < cells
        invariant
            index <= cells,
            cells == before.len(),
            cells == CELL_COUNT || cells == 0,
            chunk.wf(),
            height_map@.len() >= COLUMN_COUNT,
            chunk_y == old(chunk).pos().y,
            chunk.pos() == old(chunk).pos(),
            before == old(chunk).data().cells(),
            chunk.data().cells().len() == before.len(),
            match surface {
                Some(found) => registry.resolve_name(terrain_namespace(), surface_name()) == Some(
                    *found,
                ),
                None => registry.resolve_name(terrain_namespace(), surface_name()).is_none(),
            },
            match subsurface {
                Some(found) => registry.resolve_name(terrain_namespace(), subsurface_name())
                    == Some(*found),
                None => registry.resolve_name(terrain_namespace(), subsurface_name()).is_none(),
            },
            forall|i: int|
                0 <= i < before.len() ==> #[trigger] chunk.data().cells()[i] == if i < index {
                    terrain_cells(before, registry, chunk_y, height_map@)[i]
                } else {
                    before[i]
                },
            chunk.data().air_count() == air_after_blocks(
                old(chunk).data().air_count(),
                terrain_count(registry, chunk_y, height_map@, index as int),
            ),
            chunk.dirty() == (old(chunk).dirty() || terrain_count(
                registry,
                chunk_y,
                height_map@,
                index as int,
            ) > 0),
            chunk.first_build() == old(chunk).first_build(),
            chunk.vertices() == old(chunk).vertices(),
            chunk.indices() == old(chunk).indices(),
            chunk.colliders() == old(chunk).colliders(),
        decreases cells - index,
    {
        let at = index_as_pos(index);
        proof {
            lemma_cell_index_round_trip(index);
        }
        let height = height_map[at.z * CHUNK_SIZE + at.x];
        let block_y: i64 = chunk_y as i64 * CHUNK_SIZE as i64 + at.y as i64;

        let block = if block_y == height as i64 {
            surface
        } else if block_y < height as i64 {
            subsurface
        } else {
            None
        };
        if let Some(found) = block {
            chunk.add_block(at.x, at.y, at.z, Some(found.clone()));
        }
        index += 1;
    }
}

} // verus!
