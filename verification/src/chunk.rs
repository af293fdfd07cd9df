use vstd::prelude::*;
use crate::block::{Block, Vertex};
use crate::chunk_manager::index_of;
use crate::collision::CollisionBox;
use crate::mesh::{cast_indices, holds_indices, quad_indices};
use crate::identifier::Identifier;
use crate::registry::Registry;
use crate::vector::{BlockPos, ChunkPos, LocalPos};
use crate::world::World;

verus! {

/// Number of cells along each edge of a chunk.
pub const CHUNK_SIZE: usize = 16;

pub const CHUNK_BIT_SIZE: usize = 4;

pub const BLOCK_Y_SHIFT: usize = 4;

pub const BLOCK_Z_SHIFT: usize = 8;

/// Number of cells of a chunk.
pub const CELL_COUNT: usize = 4096;

/// The index of a cell in a chunk's storage: `x` in the lowest four bits,
/// `y` in the next four, `z` in the four above them. Components of 16 and
/// more spill into the bits of their neighbours.
pub open spec fn spec_pos_as_index(local_x: usize, local_y: usize, local_z: usize) -> usize {
    local_x | local_y << BLOCK_Y_SHIFT | local_z << BLOCK_Z_SHIFT
}

/// The cell that storage index `index` stands for.
pub open spec fn spec_index_as_pos(index: usize) -> LocalPos {
    LocalPos {
        x: (index % 16) as usize,
        y: ((index / 16) % 16) as usize,
        z: ((index / 256) % 16) as usize,
    }
}

/// `v`, or the nearest `i64` where it is none.
pub open spec fn clamp_i64(v: int) -> i64 {
    if v < i64::MIN {
        i64::MIN
    } else if v > i64::MAX {
        i64::MAX
    } else {
        v as i64
    }
}

/// `v`, or the nearest `i32` where it is none.
pub open spec fn clamp_i32(v: int) -> i32 {
    if v < i32::MIN {
        i32::MIN
    } else if v > i32::MAX {
        i32::MAX
    } else {
        v as i32
    }
}

/// `v`, or the nearest `usize` where it is none.
pub open spec fn clamp_usize(v: int) -> usize {
    if v < 0 {
        0
    } else if v > usize::MAX {
        usize::MAX
    } else {
        v as usize
    }
}

/// World coordinate of cell `local` of the chunk at grid coordinate `chunk`, on one axis.
pub open spec fn spec_local_to_world(chunk: i32, local: usize) -> i64 {
    clamp_i64(chunk * CHUNK_SIZE + local)
}

/// Cell of world coordinate `world` in the chunk at grid coordinate `chunk`,
/// on one axis. A coordinate before the chunk gives 0; one behind it gives a
/// number of 16 or more, which is no cell.
pub open spec fn spec_world_to_local(chunk: i32, world: i64) -> usize {
    clamp_usize(world - chunk * CHUNK_SIZE)
}

/// Grid coordinate of the chunk that holds world coordinate `world`, on one
/// axis: `world / 16`, rounded down.
pub open spec fn spec_world_to_chunk(world: i64) -> i32 {
    clamp_i32(world as int / CHUNK_SIZE as int)
}

pub fn pos_as_index(local_x: usize, local_y: usize, local_z: usize) -> (index: usize)
    ensures
        index == spec_pos_as_index(local_x, local_y, local_z),
        local_x < CHUNK_SIZE && local_y < CHUNK_SIZE && local_z < CHUNK_SIZE ==> index == local_x
            + 16 * local_y + 256 * local_z,
{
    proof {
        if local_x < CHUNK_SIZE && local_y < CHUNK_SIZE && local_z < CHUNK_SIZE {
            lemma_pos_as_index_in_chunk(local_x, local_y, local_z);
        }
    }
    local_x | local_y << BLOCK_Y_SHIFT | local_z << BLOCK_Z_SHIFT
}

pub fn index_as_pos(index: usize) -> (pos: LocalPos)
    ensures
        pos == spec_index_as_pos(index),
        pos.x < CHUNK_SIZE,
        pos.y < CHUNK_SIZE,
        pos.z < CHUNK_SIZE,
{
    let block_x: usize = index & 0xF;
    let block_y: usize = (index >> BLOCK_Y_SHIFT) & 0xF;
    let block_z: usize = (index >> BLOCK_Z_SHIFT) & 0xF;
    assert(index & 0xF == index % 16) by (bit_vector);
    assert((index >> 4) & 0xF == (index / 16) % 16) by (bit_vector);
    assert((index >> 8) & 0xF == (index / 256) % 16) by (bit_vector);
    LocalPos::new(block_x, block_y, block_z)
}

/// Inside a chunk the storage index is `x + 16 y + 256 z`.
pub proof fn lemma_pos_as_index_in_chunk(x: usize, y: usize, z: usize)
    requires
        x < CHUNK_SIZE,
        y < CHUNK_SIZE,
        z < CHUNK_SIZE,
    ensures
        spec_pos_as_index(x, y, z) == x + 16 * y + 256 * z,
        spec_pos_as_index(x, y, z) < CELL_COUNT,
{
    assert((x | y << 4 | z << 8) == x + 16 * y + 256 * z) by (bit_vector)
        requires
            x < 16,
            y < 16,
            z < 16,
    ;
}

/// Packing a cell of a chunk and unpacking the index gives the cell back.
pub proof fn lemma_index_round_trip(x: usize, y: usize, z: usize)
    requires
        x < CHUNK_SIZE,
        y < CHUNK_SIZE,
        z < CHUNK_SIZE,
    ensures
        spec_index_as_pos(spec_pos_as_index(x, y, z)) == (LocalPos { x, y, z }),
{
    lemma_pos_as_index_in_chunk(x, y, z);
}

/// Unpacking a storage index of a chunk and packing the cell gives the index back.
pub proof fn lemma_pos_round_trip(index: usize)
    requires
        index < CELL_COUNT,
    ensures
        spec_pos_as_index(
            spec_index_as_pos(index).x,
            spec_index_as_pos(index).y,
            spec_index_as_pos(index).z,
        ) == index,
{
    let pos = spec_index_as_pos(index);
    lemma_pos_as_index_in_chunk(pos.x, pos.y, pos.z);
}

/// A cell of a chunk, taken to the world and back, is the same cell, and
/// the chunk that holds its world coordinate is the chunk it came from.
pub proof fn lemma_world_round_trip(chunk: i32, local: usize)
    requires
        local < CHUNK_SIZE,
    ensures
        spec_world_to_local(chunk, spec_local_to_world(chunk, local)) == local,
        spec_world_to_chunk(spec_local_to_world(chunk, local)) == chunk,
{
}

/// The storage index of the cell of a storage index is that index.
pub proof fn lemma_cell_index_round_trip(index: usize)
    requires
        index < CELL_COUNT,
    ensures
        cell_index(
            spec_index_as_pos(index).x as int,
            spec_index_as_pos(index).y as int,
            spec_index_as_pos(index).z as int,
        ) == index,
{
}

/// Storage index of the cell `(x, y, z)` of a chunk.
pub open spec fn cell_index(x: int, y: int, z: int) -> int {
    x + 16 * y + 256 * z
}

/// The cell with storage index `index`.
#[verifier::opaque]
pub open spec fn cell_of(index: int) -> LocalPos {
    spec_index_as_pos(index as usize)
}

/// The cell of the storage index of a cell is that cell.
pub proof fn lemma_cell_of_index(x: int, y: int, z: int)
    requires
        0 <= x < CHUNK_SIZE,
        0 <= y < CHUNK_SIZE,
        0 <= z < CHUNK_SIZE,
    ensures
        0 <= cell_index(x, y, z) < CELL_COUNT,
        cell_of(cell_index(x, y, z)) == (LocalPos { x: x as usize, y: y as usize, z: z as usize }),
{
    reveal(cell_of);
}

/// The storage index of the cell of a storage index is that index.
pub proof fn lemma_index_of_cell(index: int)
    requires
        0 <= index < CELL_COUNT,
    ensures
        cell_of(index).x < CHUNK_SIZE,
        cell_of(index).y < CHUNK_SIZE,
        cell_of(index).z < CHUNK_SIZE,
        cell_index(cell_of(index).x as int, cell_of(index).y as int, cell_of(index).z as int)
            == index,
{
    reveal(cell_of);
}

/// The number of cells of `cells` that hold a block.
pub open spec fn count_solid(cells: Seq<Option<Identifier>>) -> nat
    decreases cells.len(),
{
    if cells.len() == 0 {
        0
    } else {
        count_solid(cells.drop_last()) + if cells.last().is_some() {
            1nat
        } else {
            0nat
        }
    }
}

pub proof fn lemma_count_solid_bounds(cells: Seq<Option<Identifier>>)
    ensures
        count_solid(cells) <= cells.len(),
        count_solid(cells) == 0 <==> forall|i: int| 0 <= i < cells.len() ==> cells[i].is_none(),
        count_solid(cells) == cells.len() <==> forall|i: int|
            0 <= i < cells.len() ==> cells[i].is_some(),
    decreases cells.len(),
{
    if cells.len() > 0 {
        let front = cells.drop_last();
        lemma_count_solid_bounds(front);
        assert forall|i: int| 0 <= i < front.len() implies front[i] == cells[i] by {}
        if count_solid(cells) == 0 {
            assert forall|i: int| 0 <= i < cells.len() implies cells[i].is_none() by {
                if i < front.len() {
                    assert(front[i].is_none());
                }
            }
        }
        if count_solid(cells) == cells.len() {
            assert forall|i: int| 0 <= i < cells.len() implies cells[i].is_some() by {
                if i < front.len() {
                    assert(front[i].is_some());
                }
            }
        }
        if forall|i: int| 0 <= i < cells.len() ==> cells[i].is_none() {
            assert forall|i: int| 0 <= i < front.len() implies front[i].is_none() by {
                assert(cells[i].is_none());
            }
        }
        if forall|i: int| 0 <= i < cells.len() ==> cells[i].is_some() {
            assert forall|i: int| 0 <= i < front.len() implies front[i].is_some() by {
                assert(cells[i].is_some());
            }
        }
    }
}

/// Writing one cell changes the count by what the cell gains or loses.
pub proof fn lemma_count_solid_update(
    cells: Seq<Option<Identifier>>,
    index: int,
    value: Option<Identifier>,
)
    requires
        0 <= index < cells.len(),
    ensures
        count_solid(cells.update(index, value)) + (if cells[index].is_some() {
            1nat
        } else {
            0nat
        }) == count_solid(cells) + (if value.is_some() {
            1nat
        } else {
            0nat
        }),
    decreases cells.len(),
{
    let written = cells.update(index, value);
    if index == cells.len() - 1 {
        assert(written.drop_last() == cells.drop_last());
    } else {
        assert(written.drop_last() == cells.drop_last().update(index, value));
        lemma_count_solid_update(cells.drop_last(), index, value);
    }
}

/// A fresh grid has no block.
pub proof fn lemma_count_solid_none(cells: Seq<Option<Identifier>>)
    requires
        forall|i: int| 0 <= i < cells.len() ==> cells[i].is_none(),
    ensures
        count_solid(cells) == 0,
{
    lemma_count_solid_bounds(cells);
}

/// The blocks of one chunk: a grid of 16 x 16 x 16 cells, each empty or
/// holding the identifier of a block.
#[derive(Debug)]
pub struct ChunkData {
    pos: ChunkPos,
    blocks: Vec<Option<Identifier>>,
    solid_blocks: usize,
    air_blocks: usize,
}

impl ChunkData {
    /// Grid coordinate of the chunk.
    pub closed spec fn pos(&self) -> ChunkPos {
        self.pos
    }

    /// The cells in storage order. A chunk has 4096 of them, none once it is disposed of.
    pub closed spec fn cells(&self) -> Seq<Option<Identifier>> {
        self.blocks@
    }

    /// How many cells hold a block.
    pub closed spec fn solid_count(&self) -> nat {
        self.solid_blocks as nat
    }

    /// The air counter: how many blocks were taken out and not made up for
    /// by a block put in since.
    pub closed spec fn air_count(&self) -> nat {
        self.air_blocks as nat
    }

    pub open spec fn wf(&self) -> bool {
        &&& self.cells().len() == CELL_COUNT || self.cells().len() == 0
        &&& self.solid_count() == count_solid(self.cells())
        &&& self.air_count() + self.solid_count() <= CELL_COUNT
    }

    /// Whether storage index `index` is a cell that holds a block.
    pub open spec fn solid_at(&self, index: int) -> bool {
        0 <= index < self.cells().len() && self.cells()[index].is_some()
    }

    /// Whether `(x, y, z)` is a cell of the chunk: every component lies
    /// below 16, and the chunk still has its cells.
    pub open spec fn has_cell(&self, x: usize, y: usize, z: usize) -> bool {
        &&& x < CHUNK_SIZE
        &&& y < CHUNK_SIZE
        &&& z < CHUNK_SIZE
        &&& cell_index(x as int, y as int, z as int) < self.cells().len()
    }

    /// The identifier in the cell `(x, y, z)`, if that is a cell of the
    /// chunk and it holds one.
    pub open spec fn cell(&self, x: usize, y: usize, z: usize) -> Option<Identifier> {
        if self.has_cell(x, y, z) {
            self.cells()[cell_index(x as int, y as int, z as int)]
        } else {
            None
        }
    }

    /// The block in the cell `(x, y, z)`, as `registry` resolves it.
    pub open spec fn block_at(&self, registry: &Registry, x: usize, y: usize, z: usize) -> Option<
        Block,
    > {
        match self.cell(x, y, z) {
            Some(id) => registry.resolve(id),
            None => None,
        }
    }

    /// The air counter after `block` is written over a cell that held `before`.
    pub open spec fn air_after(air: nat, before: Option<Identifier>, block: Option<Block>) -> nat {
        if block.is_some() {
            if air > 0 {
                (air - 1) as nat
            } else {
                0
            }
        } else if before.is_some() {
            air + 1
        } else {
            air
        }
    }

    /// An empty chunk at grid coordinate `pos`.
    pub fn new(pos: ChunkPos) -> (data: Self)
        ensures
            data.wf(),
            data.pos() == pos,
            data.cells() == Seq::new(CELL_COUNT as nat, |i: int| None::<Identifier>),
            data.solid_count() == 0,
            data.air_count() == 0,
    {
        let mut blocks: Vec<Option<Identifier>> = Vec::new();
        let mut i: usize = 0;
        while i < CELL_COUNT
            invariant
                i <= CELL_COUNT,
                blocks@.len() == i,
                forall|j: int| 0 <= j < i ==> blocks@[j].is_none(),
            decreases CELL_COUNT - i,
        {
            blocks.push(None);
            i += 1;
        }
        proof {
            lemma_count_solid_none(blocks@);
            assert(blocks@ =~= Seq::new(CELL_COUNT as nat, |i: int| None::<Identifier>));
        }
        Self { pos, blocks, solid_blocks: 0, air_blocks: 0 }
    }

    /// Whether no cell holds a block.
    pub fn is_empty(&self) -> (empty: bool)
        requires
            self.wf(),
        ensures
            empty == (self.solid_count() == 0),
            empty == forall|i: int| 0 <= i < self.cells().len() ==> self.cells()[i].is_none(),
    {
        proof {
            lemma_count_solid_bounds(self.cells());
        }
        self.solid_blocks == 0
    }

    pub fn get_pos(&self) -> (pos: ChunkPos)
        ensures
            pos == self.pos(),
    {
        self.pos
    }

    /// How many cells the chunk has: 4096, or none once it is disposed of.
    pub fn cell_count(&self) -> (count: usize)
        ensures
            count == self.cells().len(),
    {
        self.blocks.len()
    }

    /// How many cells hold a block.
    pub fn get_solid_blocks(&self) -> (count: usize)
        ensures
            count == self.solid_count(),
    {
        self.solid_blocks
    }

    /// The air counter.
    pub fn get_air_blocks(&self) -> (count: usize)
        ensures
            count == self.air_count(),
    {
        self.air_blocks
    }

    /// A copy of the cells, in storage order.
    pub fn get_blocks(&self) -> (copy: Vec<Option<Identifier>>)
        ensures
            copy@ == self.cells(),
    {
        let mut copy: Vec<Option<Identifier>> = Vec::new();
        let mut i: usize = 0;
        while i < self.blocks.len()
            invariant
                i <= self.blocks.len(),
                copy@ == self.blocks@.subrange(0, i as int),
            decreases self.blocks.len() - i,
        {
            let cell = match &self.blocks[i] {
                Some(id) => Some(id.clone()),
                None => None,
            };
            copy.push(cell);
            assert(copy@ =~= self.blocks@.subrange(0, i + 1));
            i += 1;
        }
        assert(copy@ =~= self.blocks@);
        copy
    }

    /// Writes `block` into the cell `(x, y, z)`: its identifier, or nothing
    /// for `None`. Fails, and changes nothing, where a component is 16 or
    /// more or the chunk has been disposed of.
    pub fn add_block(&mut self, x: usize, y: usize, z: usize, block: Option<Block>) -> (written:
        bool)
        requires
            old(self).wf(),
        ensures
            final(self).wf(),
            final(self).pos() == old(self).pos(),
            written == old(self).has_cell(x, y, z),
            written ==> final(self).cells() == old(self).cells().update(
                cell_index(x as int, y as int, z as int),
                match block {
                    Some(b) => Some(b.identifier()),
                    None => None,
                },
            ),
            written ==> final(self).air_count() == Self::air_after(
                old(self).air_count(),
                old(self).cells()[cell_index(x as int, y as int, z as int)],
                block,
            ),
            !written ==> *final(self) == *old(self),
    {
        if x >= CHUNK_SIZE || y >= CHUNK_SIZE || z >= CHUNK_SIZE {
            return false;
        }
        let index = pos_as_index(x, y, z);
        if index < self.blocks.len() {
            let was_solid = self.blocks[index].is_some();
            let value = match block {
                Some(data) => Some(data.get_identifier().clone()),
                None => None,
            };
            proof {
                lemma_count_solid_update(self.blocks@, index as int, value);
                lemma_count_solid_bounds(self.blocks@);
                lemma_count_solid_bounds(self.blocks@.update(index as int, value));
            }
            if value.is_some() {
                if self.air_blocks > 0 {
                    self.air_blocks -= 1;
                }
                if !was_solid {
                    self.solid_blocks += 1;
                }
            } else if was_solid {
                self.air_blocks += 1;
                self.solid_blocks -= 1;
            }
            self.blocks[index] = value;
            true
        } else {
            false
        }
    }

    /// Empties the cell `(x, y, z)`.
    pub fn remove_block(&mut self, x: usize, y: usize, z: usize) -> (written: bool)
        requires
            old(self).wf(),
        ensures
            final(self).wf(),
            final(self).pos() == old(self).pos(),
            written == old(self).has_cell(x, y, z),
            written ==> final(self).cells() == old(self).cells().update(
                cell_index(x as int, y as int, z as int),
                None,
            ),
            written ==> final(self).air_count() == Self::air_after(
                old(self).air_count(),
                old(self).cells()[cell_index(x as int, y as int, z as int)],
                None,
            ),
            !written ==> *final(self) == *old(self),
    {
        self.add_block(x, y, z, None)
    }

    /// The identifier in the cell `(x, y, z)`; none where a component is 16 or more.
    pub fn get_cell(&self, x: usize, y: usize, z: usize) -> (id: Option<&Identifier>)
        ensures
            match id {
                Some(found) => self.cell(x, y, z) == Some(*found),
                None => self.cell(x, y, z).is_none(),
            },
    {
        if x >= CHUNK_SIZE || y >= CHUNK_SIZE || z >= CHUNK_SIZE {
            return None;
        }
        let index = pos_as_index(x, y, z);
        if index < self.blocks.len() {
            self.blocks[index].as_ref()
        } else {
            None
        }
    }

    /// The identifier in the cell with storage index `index`.
    pub fn get_cell_at(&self, index: usize) -> (id: Option<&Identifier>)
        ensures
            id.is_some() == self.solid_at(index as int),
            id matches Some(found) ==> self.cells()[index as int] == Some(*found),
    {
        if index < self.blocks.len() {
            self.blocks[index].as_ref()
        } else {
            None
        }
    }

    /// The block in the cell `(x, y, z)`; none where a component is 16 or more.
    pub fn get_block(&self, registry: &Registry, x: usize, y: usize, z: usize) -> (block: Option<
        Block,
    >)
        ensures
            block == self.block_at(registry, x, y, z),
    {
        match self.get_cell(x, y, z) {
            Some(id) => registry.get_block(id),
            None => None,
        }
    }

    /// The block at a world coordinate, taken as a cell of this chunk.
    pub fn get_block_from_world_pos(
        &self,
        registry: &Registry,
        world_x: i64,
        world_y: i64,
        world_z: i64,
    ) -> (block: Option<Block>)
        ensures
            block == self.block_at(
                registry,
                spec_world_to_local(self.pos().x, world_x),
                spec_world_to_local(self.pos().y, world_y),
                spec_world_to_local(self.pos().z, world_z),
            ),
    {
        let local = self.world_to_local_pos(world_x, world_y, world_z);
        self.get_block(registry, local.x, local.y, local.z)
    }

    /// Takes every cell away.
    pub fn clear(&mut self)
        ensures
            final(self).wf(),
            final(self).pos() == old(self).pos(),
            final(self).cells() == Seq::<Option<Identifier>>::empty(),
            final(self).air_count() == 0,
    {
        self.blocks.clear();
        self.solid_blocks = 0;
        self.air_blocks = 0;
    }

    /// World coordinate of the cell `(x, y, z)` of this chunk.
    pub fn local_to_world_pos(&self, x: usize, y: usize, z: usize) -> (world: BlockPos)
        ensures
            world.x == spec_local_to_world(self.pos().x, x),
            world.y == spec_local_to_world(self.pos().y, y),
            world.z == spec_local_to_world(self.pos().z, z),
    {
        BlockPos::new(
            local_to_world(self.pos.x, x),
            local_to_world(self.pos.y, y),
            local_to_world(self.pos.z, z),
        )
    }

    /// The cell of this chunk that a world coordinate falls in. Nothing
    /// checks that the coordinate lies in the chunk.
    pub fn world_to_local_pos(&self, x: i64, y: i64, z: i64) -> (local: LocalPos)
        ensures
            local.x == spec_world_to_local(self.pos().x, x),
            local.y == spec_world_to_local(self.pos().y, y),
            local.z == spec_world_to_local(self.pos().z, z),
    {
        LocalPos::new(
            world_to_local(self.pos.x, x),
            world_to_local(self.pos.y, y),
            world_to_local(self.pos.z, z),
        )
    }
}

/// A chunk of the world: its blocks, and the mesh and the collision boxes
/// that were last built from them.
#[derive(Debug)]
pub struct Chunk {
    is_first_build: bool,
    is_dirty: bool,
    chunk_data: ChunkData,
    chunk_colliders: Vec<CollisionBox>,
    chunk_verticies: Vec<Vertex>,
    chunk_indicies: Vec<u32>,
}

impl Chunk {
    /// The blocks of the chunk.
    pub closed spec fn data(&self) -> ChunkData {
        self.chunk_data
    }

    /// Grid coordinate of the chunk.
    pub open spec fn pos(&self) -> ChunkPos {
        self.data().pos()
    }

    /// Whether the chunk has not been built yet, so that its terrain is still to come.
    pub closed spec fn first_build(&self) -> bool {
        self.is_first_build
    }

    /// Whether the blocks have changed since the mesh was last built.
    pub closed spec fn dirty(&self) -> bool {
        self.is_dirty
    }

    /// The corners of the mesh that was last built.
    pub closed spec fn vertices(&self) -> Seq<Vertex> {
        self.chunk_verticies@
    }

    /// The indices of the mesh that was last built.
    pub closed spec fn indices(&self) -> Seq<u32> {
        self.chunk_indicies@
    }

    /// The collision boxes that were last built, in cells of the chunk.
    pub closed spec fn colliders(&self) -> Seq<CollisionBox> {
        self.chunk_colliders@
    }

    pub open spec fn wf(&self) -> bool {
        self.data().wf()
    }

    /// Whether the chunk is as `Chunk::new(pos)` makes it.
    pub open spec fn is_fresh(&self, pos: ChunkPos) -> bool {
        &&& self.wf()
        &&& self.pos() == pos
        &&& self.first_build()
        &&& self.dirty()
        &&& self.data().cells() == Seq::new(CELL_COUNT as nat, |i: int| None::<Identifier>)
        &&& self.data().air_count() == 0
        &&& self.vertices() == Seq::<Vertex>::empty()
        &&& self.indices() == Seq::<u32>::empty()
        &&& self.colliders() == Seq::<CollisionBox>::empty()
    }

    /// Whether `self` is `before` with its mesh and collision boxes built
    /// anew from its blocks.
    pub open spec fn is_built_from(&self, before: &Chunk, registry: &Registry) -> bool {
        let cells = before.data().cells().len() as int;
        &&& self.data() == before.data()
        &&& !self.first_build()
        &&& !self.dirty()
        &&& self.vertices() == before.data().mesh_vertices(registry, cells)
        &&& self.indices() == quad_indices(before.data().shown_faces(registry, cells))
        &&& self.colliders() == before.data().collision_boxes()
    }

    /// An empty chunk at grid coordinate `pos`, not built yet.
    pub fn new(pos: ChunkPos) -> (chunk: Self)
        ensures
            chunk.is_fresh(pos),
    {
        Self {
            is_first_build: true,
            is_dirty: true,
            chunk_data: ChunkData::new(pos),
            chunk_colliders: Vec::new(),
            chunk_verticies: Vec::new(),
            chunk_indicies: Vec::new(),
        }
    }

    pub fn is_first_build(&self) -> (first: bool)
        ensures
            first == self.first_build(),
    {
        self.is_first_build
    }

    /// Whether no cell holds a block.
    pub fn is_empty(&self) -> (empty: bool)
        requires
            self.wf(),
        ensures
            empty == (self.data().solid_count() == 0),
            empty == forall|i: int|
                0 <= i < self.data().cells().len() ==> self.data().cells()[i].is_none(),
    {
        self.chunk_data.is_empty()
    }

    pub fn is_dirty(&self) -> (dirty: bool)
        ensures
            dirty == self.dirty(),
    {
        self.is_dirty
    }

    pub fn get_pos(&self) -> (pos: ChunkPos)
        ensures
            pos == self.pos(),
    {
        self.chunk_data.get_pos()
    }

    /// The blocks of the chunk.
    pub fn get_data(&self) -> (data: &ChunkData)
        ensures
            *data == self.data(),
    {
        &self.chunk_data
    }

    /// The corners of the mesh that was last built.
    pub fn get_vertices(&self) -> (vertices: &Vec<Vertex>)
        ensures
            vertices@ == self.vertices(),
    {
        &self.chunk_verticies
    }

    /// The indices of the mesh that was last built.
    pub fn get_indices(&self) -> (indices: &Vec<u32>)
        ensures
            indices@ == self.indices(),
    {
        &self.chunk_indicies
    }

    /// The indices of the mesh that was last built, as the bytes that a
    /// graphics card takes: four bytes an index, in the byte order of the machine.
    pub fn get_index_bytes(&self) -> (bytes: &[u8])
        ensures
            bytes@.len() == 4 * self.indices().len(),
            holds_indices(bytes@, self.indices(), true) || holds_indices(
                bytes@,
                self.indices(),
                false,
            ),
    {
        cast_indices(&self.chunk_indicies)
    }

    /// The collision boxes that were last built.
    pub fn get_colliders(&self) -> (colliders: &Vec<CollisionBox>)
        ensures
            colliders@ == self.colliders(),
    {
        &self.chunk_colliders
    }

    /// Whether a built chunk with a block in it stands at the offset
    /// `(dx, dy, dz)` from this chunk in `world`.
    pub open spec fn neighbor_filled(&self, world: &World, dx: int, dy: int, dz: int) -> bool {
        let (x, y, z) = (self.pos().x + dx, self.pos().y + dy, self.pos().z + dz);
        let chunks = world.manager()@.render_list;
        let at = index_of(chunks, ChunkPos { x: x as i32, y: y as i32, z: z as i32 });
        &&& i32::MIN <= x <= i32::MAX
        &&& i32::MIN <= y <= i32::MAX
        &&& i32::MIN <= z <= i32::MAX
        &&& at < chunks.len()
        &&& chunks[at].data().solid_count() > 0
    }

    /// Whether the chunk can be seen from outside: it cannot where each of
    /// its six neighbours is built and has a block in it.
    pub open spec fn visible_in(&self, world: &World) -> bool {
        !(self.neighbor_filled(world, 0, 1, 0) && self.neighbor_filled(world, 0, -1, 0)
            && self.neighbor_filled(world, -1, 0, 0) && self.neighbor_filled(world, 1, 0, 0)
            && self.neighbor_filled(world, 0, 0, 1) && self.neighbor_filled(world, 0, 0, -1))
    }

    /// Whether a built chunk with a block in it stands at the offset `(dx, dy, dz)`.
    fn has_filled_neighbor(&self, world: &World, dx: i32, dy: i32, dz: i32) -> (filled: bool)
        requires
            world.wf(),
            -1 <= dx <= 1,
            -1 <= dy <= 1,
            -1 <= dz <= 1,
        ensures
            filled == self.neighbor_filled(world, dx as int, dy as int, dz as int),
    {
        let pos = self.get_pos();
        let x = pos.x as i64 + dx as i64;
        let y = pos.y as i64 + dy as i64;
        let z = pos.z as i64 + dz as i64;
        if x < i32::MIN as i64 || x > i32::MAX as i64 || y < i32::MIN as i64 || y > i32::MAX as i64
            || z < i32::MIN as i64 || z > i32::MAX as i64 {
            return false;
        }
        let neighbor_pos = ChunkPos::new(x as i32, y as i32, z as i32);
        match world.get_chunk(neighbor_pos) {
            Some(chunk) => {
                proof {
                    let chunks = world.manager()@.render_list;
                    let at = index_of(chunks, neighbor_pos);
                    assert(0 <= at < chunks.len()) by {
                        crate::chunk_manager::lemma_occurrences_index(chunks, neighbor_pos);
                    }
                    assert(chunks[at].wf());
                }
                !chunk.is_empty()
            },
            None => false,
        }
    }

    /// Whether the chunk can be seen from outside.
    pub fn is_visible(&self, world: &World) -> (visible: bool)
        requires
            world.wf(),
        ensures
            visible == self.visible_in(world),
    {
        let mut count: usize = 0;
        if self.has_filled_neighbor(world, 0, 1, 0) {
            count += 1;
        }
        if self.has_filled_neighbor(world, 0, -1, 0) {
            count += 1;
        }
        if self.has_filled_neighbor(world, -1, 0, 0) {
            count += 1;
        }
        if self.has_filled_neighbor(world, 1, 0, 0) {
            count += 1;
        }
        if self.has_filled_neighbor(world, 0, 0, 1) {
            count += 1;
        }
        if self.has_filled_neighbor(world, 0, 0, -1) {
            count += 1;
        }
        count < 6
    }

    /// Builds the mesh and the collision boxes anew from the blocks, and
    /// marks the chunk as built and clean.
    pub fn build_mesh(&mut self, registry: &Registry)
        requires
            old(self).wf(),
        ensures
            final(self).wf(),
            final(self).is_built_from(old(self), registry),
    {
        let (verts, indies) = self.chunk_data.build_mesh(registry);
        self.chunk_verticies = verts;
        self.chunk_indicies = indies;
        let colliders = self.chunk_data.gen_collision_mesh();
        self.set_collision_mesh(colliders);
        self.is_dirty = false;
        self.is_first_build = false;
    }

    /// Makes `box_data` the collision boxes of the chunk: the boxes that are
    /// there are overwritten one by one, and the list is then cut or grown
    /// to the new count.
    fn set_collision_mesh(&mut self, box_data: Vec<CollisionBox>)
        ensures
            final(self).colliders() == box_data@,
            final(self).data() == old(self).data(),
            final(self).first_build() == old(self).first_build(),
            final(self).dirty() == old(self).dirty(),
            final(self).vertices() == old(self).vertices(),
            final(self).indices() == old(self).indices(),
    {
        let existing_collider_count = self.chunk_colliders.len();
        let mut collider_index: usize = 0;
        while collider_index < box_data.len()
            invariant
                collider_index <= box_data.len(),
                self.chunk_colliders@.len() == if collider_index < existing_collider_count {
                    existing_collider_count
                } else {
                    collider_index
                },
                self.chunk_colliders@.subrange(0, collider_index as int) == box_data@.subrange(
                    0,
                    collider_index as int,
                ),
                self.data() == old(self).data(),
                self.first_build() == old(self).first_build(),
                self.dirty() == old(self).dirty(),
                self.vertices() == old(self).vertices(),
                self.indices() == old(self).indices(),
            decreases box_data.len() - collider_index,
        {
            if collider_index < existing_collider_count {
                self.chunk_colliders[collider_index] = box_data[collider_index];
            } else {
                self.chunk_colliders.push(box_data[collider_index]);
            }
            assert(self.chunk_colliders@.subrange(0, collider_index + 1) =~= box_data@.subrange(
                0,
                collider_index + 1,
            )) by {
                assert forall|i: int| 0 <= i < collider_index implies self.chunk_colliders@[i]
                    == box_data@[i] by {
                    assert(box_data@.subrange(0, collider_index as int)[i] == box_data@[i]);
                }
            }
            collider_index += 1;
        }
        self.chunk_colliders.truncate(collider_index);
        assert(self.chunk_colliders@ =~= box_data@) by {
            assert(self.chunk_colliders@ =~= self.chunk_colliders@.subrange(
                0,
                collider_index as int,
            ));
            assert(box_data@ =~= box_data@.subrange(0, collider_index as int));
        }
    }

    /// Writes `block` into the cell that a world coordinate falls in.
    pub fn add_block_from_world_pos(
        &mut self,
        world_x: i64,
        world_y: i64,
        world_z: i64,
        block: Option<Block>,
    ) -> (written: bool)
        requires
            old(self).wf(),
        ensures
            final(self).wf(),
            final(self).written_from(
                old(self),
                spec_world_to_local(old(self).pos().x, world_x),
                spec_world_to_local(old(self).pos().y, world_y),
                spec_world_to_local(old(self).pos().z, world_z),
                block,
                written,
            ),
    {
        let local = self.chunk_data.world_to_local_pos(world_x, world_y, world_z);
        self.add_block(local.x, local.y, local.z, block)
    }

    /// Whether `self` is `before` after `block` was written into the cell
    /// `(x, y, z)`, with `written` telling whether that is a cell of the chunk.
    pub open spec fn written_from(
        &self,
        before: &Chunk,
        x: usize,
        y: usize,
        z: usize,
        block: Option<Block>,
        written: bool,
    ) -> bool {
        let index = cell_index(x as int, y as int, z as int);
        &&& self.pos() == before.pos()
        &&& self.first_build() == before.first_build()
        &&& self.vertices() == before.vertices()
        &&& self.indices() == before.indices()
        &&& self.colliders() == before.colliders()
        &&& written == before.data().has_cell(x, y, z)
        &&& written ==> {
            &&& self.dirty()
            &&& self.data().cells() == before.data().cells().update(
                index,
                match block {
                    Some(b) => Some(b.identifier()),
                    None => None,
                },
            )
            &&& self.data().air_count() == ChunkData::air_after(
                before.data().air_count(),
                before.data().cells()[index],
                block,
            )
        }
        &&& !written ==> self.data() == before.data() && self.dirty() == before.dirty()
    }

    /// Writes `block` into the cell `(x, y, z)`, and marks
    /// the chunk dirty if there is such a cell.
    pub fn add_block(&mut self, x: usize, y: usize, z: usize, block: Option<Block>) -> (written:
        bool)
        requires
            old(self).wf(),
        ensures
            final(self).wf(),
            final(self).written_from(old(self), x, y, z, block, written),
    {
        if self.chunk_data.add_block(x, y, z, block) {
            self.is_dirty = true;
            true
        } else {
            false
        }
    }

    /// Empties the cell `(x, y, z)`, and marks the chunk
    /// dirty if there is such a cell.
    pub fn remove_block(&mut self, x: usize, y: usize, z: usize) -> (written: bool)
        requires
            old(self).wf(),
        ensures
            final(self).wf(),
            final(self).written_from(old(self), x, y, z, None, written),
    {
        if self.chunk_data.remove_block(x, y, z) {
            self.is_dirty = true;
            true
        } else {
            false
        }
    }

    /// The block at a world coordinate, taken as a cell of this chunk.
    pub fn get_block_from_world_pos(
        &self,
        registry: &Registry,
        world_x: i64,
        world_y: i64,
        world_z: i64,
    ) -> (block: Option<Block>)
        ensures
            block == self.data().block_at(
                registry,
                spec_world_to_local(self.pos().x, world_x),
                spec_world_to_local(self.pos().y, world_y),
                spec_world_to_local(self.pos().z, world_z),
            ),
    {
        self.chunk_data.get_block_from_world_pos(registry, world_x, world_y, world_z)
    }

    /// The block in the cell `(x, y, z)`; none where a component is 16 or more.
    pub fn get_block(&self, registry: &Registry, x: usize, y: usize, z: usize) -> (block: Option<
        Block,
    >)
        ensures
            block == self.data().block_at(registry, x, y, z),
    {
        self.chunk_data.get_block(registry, x, y, z)
    }

    /// World coordinate of the cell `(x, y, z)` of this chunk.
    pub fn local_to_world_pos(&self, x: usize, y: usize, z: usize) -> (world: BlockPos)
        ensures
            world.x == spec_local_to_world(self.pos().x, x),
            world.y == spec_local_to_world(self.pos().y, y),
            world.z == spec_local_to_world(self.pos().z, z),
    {
        self.chunk_data.local_to_world_pos(x, y, z)
    }

    /// Gives up the blocks of the chunk: it has no cell afterwards.
    pub fn dispose(&mut self)
        ensures
            final(self).wf(),
            final(self).pos() == old(self).pos(),
            final(self).data().cells() == Seq::<Option<Identifier>>::empty(),
            final(self).data().air_count() == 0,
            final(self).first_build() == old(self).first_build(),
            final(self).dirty() == old(self).dirty(),
            final(self).vertices() == old(self).vertices(),
            final(self).indices() == old(self).indices(),
            final(self).colliders() == old(self).colliders(),
    {
        self.chunk_data.clear();
    }
}

/// World coordinate of cell `local` of the chunk at `chunk`, on one axis.
pub fn local_to_world(chunk: i32, local: usize) -> (world: i64)
    ensures
        world == spec_local_to_world(chunk, local),
{
    let sum: i128 = chunk as i128 * 16 + local as i128;
    if sum > i64::MAX as i128 {
        i64::MAX
    } else {
        sum as i64
    }
}

/// Cell of world coordinate `world` in the chunk at `chunk`, on one axis.
pub fn world_to_local(chunk: i32, world: i64) -> (local: usize)
    ensures
        local == spec_world_to_local(chunk, world),
{
    let offset: i128 = world as i128 - chunk as i128 * 16;
    if offset < 0 {
        0
    } else if offset > usize::MAX as i128 {
        usize::MAX
    } else {
        offset as usize
    }
}

/// Grid coordinate of the chunk that holds world coordinate `world`, on one axis.
pub fn world_to_chunk(world: i64) -> (chunk: i32)
    ensures
        chunk == spec_world_to_chunk(world),
{
    let floor: i64 = if world >= 0 {
        world / 16
    } else {
        -1 - ((-1 - world) / 16)
    };
    if floor < i32::MIN as i64 {
        i32::MIN
    } else if floor > i32::MAX as i64 {
        i32::MAX
    } else {
        floor as i32
    }
}

} // verus!
