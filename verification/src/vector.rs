use vstd::prelude::*;

verus! {

/// Coordinate of a chunk in the chunk grid, counted in chunks.
#[derive(Clone, Copy, Debug, PartialEq, Eq, Hash, Structural)]
pub struct ChunkPos {
    pub x: i32,
    pub y: i32,
    pub z: i32,
}

impl ChunkPos {
    pub fn new(x: i32, y: i32, z: i32) -> (pos: Self)
        ensures
            pos == (ChunkPos { x, y, z }),
    {
        ChunkPos { x, y, z }
    }
}

/// Coordinate of a cell inside a chunk. A cell of the chunk has every
/// component below `CHUNK_SIZE`; the type itself holds any value.
#[derive(Clone, Copy, Debug, PartialEq, Eq, Hash, Structural)]
pub struct LocalPos {
    pub x: usize,
    pub y: usize,
    pub z: usize,
}

impl LocalPos {
    pub fn new(x: usize, y: usize, z: usize) -> (pos: Self)
        ensures
            pos == (LocalPos { x, y, z }),
    {
        LocalPos { x, y, z }
    }
}

/// Coordinate of a block in the world, counted in blocks: the floor of a
/// point of the world on each axis.
#[derive(Clone, Copy, Debug, PartialEq, Eq, Hash, Structural)]
pub struct BlockPos {
    pub x: i64,
    pub y: i64,
    pub z: i64,
}

impl BlockPos {
    pub fn new(x: i64, y: i64, z: i64) -> (pos: Self)
        ensures
            pos == (BlockPos { x, y, z }),
    {
        BlockPos { x, y, z }
    }
}

} // verus!
