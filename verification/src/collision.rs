use vstd::prelude::*;
use crate::chunk::{
    cell_index, cell_of, index_as_pos, lemma_cell_of_index, lemma_index_of_cell, pos_as_index,
    spec_index_as_pos, ChunkData, CELL_COUNT, CHUNK_SIZE,
};
use crate::vector::LocalPos;

verus! {

/// An axis-aligned box of cells of a chunk: the cells from `position` up to,
/// and without, `position + size` on every axis.
#[derive(Clone, Copy, Debug, PartialEq, Eq, Hash, Structural)]
pub struct CollisionBox {
    pub position: LocalPos,
    pub size: LocalPos,
}

impl CollisionBox {
    /// The corner behind the last cell of the box on every axis.
    pub open spec fn end(self) -> LocalPos {
        LocalPos {
            x: (self.position.x + self.size.x) as usize,
            y: (self.position.y + self.size.y) as usize,
            z: (self.position.z + self.size.z) as usize,
        }
    }

    /// Whether the cell with storage index `index` lies in the box.
    pub open spec fn holds(self, index: int) -> bool {
        in_region(index, self.position, self.end())
    }
}

/// Whether the cell with storage index `index` lies at or after `lo` and
/// before `hi` on every axis.
pub open spec fn in_region(index: int, lo: LocalPos, hi: LocalPos) -> bool {
    let at = cell_of(index);
    &&& 0 <= index < CELL_COUNT
    &&& lo.x <= at.x < hi.x
    &&& lo.y <= at.y < hi.y
    &&& lo.z <= at.z < hi.z
}

/// `tested` with every cell of the region from `lo` to `hi` marked.
pub open spec fn mark_region(tested: Seq<bool>, lo: LocalPos, hi: LocalPos) -> Seq<bool> {
    Seq::new(tested.len(), |i: int| tested[i] || in_region(i, lo, hi))
}

/// How far a box of extent `size` on one axis is from spanning the chunk.
pub open spec fn room(size: usize) -> nat {
    if size <= CHUNK_SIZE {
        (CHUNK_SIZE - size) as nat
    } else {
        0
    }
}

/// How far a box is from the end of its growth: the room it has on the
/// three axes, and one for each axis along which it may still try to grow.
pub open spec fn growth_left(size: LocalPos, can_x: bool, can_y: bool, can_z: bool) -> nat {
    room(size.x) + room(size.y) + room(size.z) + (if can_x {
        1nat
    } else {
        0
    }) + (if can_y {
        1nat
    } else {
        0
    }) + (if can_z {
        1nat
    } else {
        0
    })
}

/// The layer of cells that the box from `start` with extent `size` gains by
/// growing one cell along x: its first corner, and the corner behind its last.
pub open spec fn layer_x(start: LocalPos, size: LocalPos) -> (LocalPos, LocalPos) {
    (
        LocalPos { x: (start.x + size.x) as usize, y: start.y, z: start.z },
        LocalPos {
            x: (start.x + size.x + 1) as usize,
            y: (start.y + size.y) as usize,
            z: (start.z + size.z) as usize,
        },
    )
}

/// The layer that the box gains by growing one cell along y.
pub open spec fn layer_y(start: LocalPos, size: LocalPos) -> (LocalPos, LocalPos) {
    (
        LocalPos { x: start.x, y: (start.y + size.y) as usize, z: start.z },
        LocalPos {
            x: (start.x + size.x) as usize,
            y: (start.y + size.y + 1) as usize,
            z: (start.z + size.z) as usize,
        },
    )
}

/// The layer that the box gains by growing one cell along z.
pub open spec fn layer_z(start: LocalPos, size: LocalPos) -> (LocalPos, LocalPos) {
    (
        LocalPos { x: start.x, y: start.y, z: (start.z + size.z) as usize },
        LocalPos {
            x: (start.x + size.x) as usize,
            y: (start.y + size.y) as usize,
            z: (start.z + size.z + 1) as usize,
        },
    )
}

/// Whether a box from `start` with extent `size` lies in a chunk and has a cell.
pub open spec fn box_in_chunk(start: LocalPos, size: LocalPos) -> bool {
    &&& 1 <= size.x && start.x + size.x <= CHUNK_SIZE
    &&& 1 <= size.y && start.y + size.y <= CHUNK_SIZE
    &&& 1 <= size.z && start.z + size.z <= CHUNK_SIZE
}

impl ChunkData {
    /// Whether the cell with storage index `index` holds a block that no box covers yet.
    pub open spec fn cell_free(&self, tested: Seq<bool>, index: int) -> bool {
        self.solid_at(index) && !tested[index]
    }

    /// Whether the region from `lo` to `hi` lies in the chunk and every cell
    /// of it holds a block that no box covers yet.
    pub open spec fn region_free(&self, tested: Seq<bool>, lo: LocalPos, hi: LocalPos) -> bool {
        &&& hi.x <= CHUNK_SIZE
        &&& hi.y <= CHUNK_SIZE
        &&& hi.z <= CHUNK_SIZE
        &&& forall|x: int, y: int, z: int|
            lo.x <= x < hi.x && lo.y <= y < hi.y && lo.z <= z < hi.z ==> #[trigger] self.cell_free(
                tested,
                cell_index(x, y, z),
            )
    }

    /// One attempt to grow the box along x: whether it grows, the marks and
    /// the extent after it. An axis that failed once is not tried again.
    pub open spec fn spread_x(
        &self,
        can_spread: bool,
        tested: Seq<bool>,
        start: LocalPos,
        size: LocalPos,
    ) -> (bool, Seq<bool>, LocalPos) {
        let (lo, hi) = layer_x(start, size);
        if can_spread && start.x + size.x < CHUNK_SIZE && self.region_free(tested, lo, hi) {
            (true, mark_region(tested, lo, hi), LocalPos { x: (size.x + 1) as usize, ..size })
        } else {
            (false, tested, size)
        }
    }

    /// One attempt to grow the box along y.
    pub open spec fn spread_y(
        &self,
        can_spread: bool,
        tested: Seq<bool>,
        start: LocalPos,
        size: LocalPos,
    ) -> (bool, Seq<bool>, LocalPos) {
        let (lo, hi) = layer_y(start, size);
        if can_spread && start.y + size.y < CHUNK_SIZE && self.region_free(tested, lo, hi) {
            (true, mark_region(tested, lo, hi), LocalPos { y: (size.y + 1) as usize, ..size })
        } else {
            (false, tested, size)
        }
    }

    /// One attempt to grow the box along z.
    pub open spec fn spread_z(
        &self,
        can_spread: bool,
        tested: Seq<bool>,
        start: LocalPos,
        size: LocalPos,
    ) -> (bool, Seq<bool>, LocalPos) {
        let (lo, hi) = layer_z(start, size);
        if can_spread && start.z + size.z < CHUNK_SIZE && self.region_free(tested, lo, hi) {
            (true, mark_region(tested, lo, hi), LocalPos { z: (size.z + 1) as usize, ..size })
        } else {
            (false, tested, size)
        }
    }

    /// Grows the box from `start` as far as it goes: round after round, one
    /// cell along x, then y, then z, each axis until its first failure. Gives
    /// the marks and the extent at the end.
    pub open spec fn spread(
        &self,
        tested: Seq<bool>,
        start: LocalPos,
        size: LocalPos,
        can_x: bool,
        can_y: bool,
        can_z: bool,
    ) -> (Seq<bool>, LocalPos)
        decreases growth_left(size, can_x, can_y, can_z),
    {
        if !(can_x || can_y || can_z) {
            (tested, size)
        } else {
            let (grew_x, tested_x, size_x) = self.spread_x(can_x, tested, start, size);
            let (grew_y, tested_y, size_y) = self.spread_y(can_y, tested_x, start, size_x);
            let (grew_z, tested_z, size_z) = self.spread_z(can_z, tested_y, start, size_y);
            self.spread(tested_z, start, size_z, grew_x, grew_y, grew_z)
        }
    }

    /// The boxes that the scan adds from storage index `index` on, after
    /// `boxes`, with `tested` marking the cells that are done with.
    pub open spec fn scan(&self, tested: Seq<bool>, index: int, boxes: Seq<CollisionBox>) -> Seq<
        CollisionBox,
    >
        decreases self.cells().len() - index,
    {
        if index < 0 || index >= self.cells().len() {
            boxes
        } else if tested[index] {
            self.scan(tested, index + 1, boxes)
        } else if self.solid_at(index) {
            let start = spec_index_as_pos(index as usize);
            let (grown, size) = self.spread(
                tested.update(index, true),
                start,
                LocalPos { x: 1, y: 1, z: 1 },
                true,
                true,
                true,
            );
            self.scan(grown, index + 1, boxes.push(CollisionBox { position: start, size }))
        } else {
            self.scan(tested.update(index, true), index + 1, boxes)
        }
    }

    /// The collision boxes of the chunk: the cells are gone through in
    /// storage order, and each block that no box covers yet starts a box,
    /// which grows as `spread` says.
    pub open spec fn collision_boxes(&self) -> Seq<CollisionBox> {
        self.scan(Seq::new(CELL_COUNT as nat, |i: int| false), 0, Seq::empty())
    }

    /// Whether every cell of the region from `lo` to `hi` holds a block that
    /// `tested` does not mark.
    fn region_is_free(&self, tested: &Vec<bool>, lo: LocalPos, hi: LocalPos) -> (free: bool)
        requires
            self.wf(),
            tested@.len() == CELL_COUNT,
            hi.x <= CHUNK_SIZE,
            hi.y <= CHUNK_SIZE,
            hi.z <= CHUNK_SIZE,
        ensures
            free == self.region_free(tested@, lo, hi),
    {
        let mut x = lo.x;
        while x < hi.x
            invariant
                self.wf(),
                tested@.len() == CELL_COUNT,
                hi.x <= CHUNK_SIZE,
                hi.y <= CHUNK_SIZE,
                hi.z <= CHUNK_SIZE,
                lo.x <= x,
                forall|cx: int, cy: int, cz: int|
                    lo.x <= cx < x && lo.y <= cy < hi.y && lo.z <= cz < hi.z
                        ==> #[trigger] self.cell_free(tested@, cell_index(cx, cy, cz)),
            decreases hi.x - x,
        {
            let mut y = lo.y;
            while y < hi.y
                invariant
                    self.wf(),
                    tested@.len() == CELL_COUNT,
                    hi.x <= CHUNK_SIZE,
                    hi.y <= CHUNK_SIZE,
                    hi.z <= CHUNK_SIZE,
                    lo.x <= x < hi.x,
                    lo.y <= y,
                    forall|cx: int, cy: int, cz: int|
                        lo.x <= cx < x && lo.y <= cy < hi.y && lo.z <= cz < hi.z
                            ==> #[trigger] self.cell_free(tested@, cell_index(cx, cy, cz)),
                    forall|cy: int, cz: int|
                        lo.y <= cy < y && lo.z <= cz < hi.z ==> #[trigger] self.cell_free(
                            tested@,
                            cell_index(x as int, cy, cz),
                        ),
                decreases hi.y - y,
            {
                let mut z = lo.z;
                while z < hi.z
                    invariant
                        self.wf(),
                        tested@.len() == CELL_COUNT,
                        hi.x <= CHUNK_SIZE,
                        hi.y <= CHUNK_SIZE,
                        hi.z <= CHUNK_SIZE,
                        lo.x <= x < hi.x,
                        lo.y <= y < hi.y,
                        lo.z <= z,
                        forall|cz: int|
                            lo.z <= cz < z ==> #[trigger] self.cell_free(
                                tested@,
                                cell_index(x as int, y as int, cz),
                            ),
                    decreases hi.z - z,
                {
                    let new_index = pos_as_index(x, y, z);
                    assert(new_index == cell_index(x as int, y as int, z as int));
                    let block_contributes_to_mesh = self.get_cell_at(new_index).is_some();
                    if tested[new_index] || !block_contributes_to_mesh {
                        assert(!self.cell_free(tested@, cell_index(x as int, y as int, z as int)));
                        return false;
                    }
                    z += 1;
                }
                y += 1;
            }
            x += 1;
        }
        true
    }

    /// Marks every cell of the region from `lo` to `hi`.
    fn mark_cells(tested: &mut Vec<bool>, lo: LocalPos, hi: LocalPos)
        requires
            old(tested)@.len() == CELL_COUNT,
            lo.x <= hi.x,
            lo.y <= hi.y,
            lo.z <= hi.z,
            hi.x <= CHUNK_SIZE,
            hi.y <= CHUNK_SIZE,
            hi.z <= CHUNK_SIZE,
        ensures
            final(tested)@ == mark_region(old(tested)@, lo, hi),
    {
        let mut x = lo.x;
        while x < hi.x
            invariant
                tested@.len() == CELL_COUNT,
                hi.x <= CHUNK_SIZE,
                hi.y <= CHUNK_SIZE,
                hi.z <= CHUNK_SIZE,
                lo.x <= x <= hi.x,
                lo.y <= hi.y,
                lo.z <= hi.z,
                tested@ == mark_region(old(tested)@, lo, LocalPos { x, ..hi }),
            decreases hi.x - x,
        {
            let ghost slab = tested@;
            let mut y = lo.y;
            while y < hi.y
                invariant
                    tested@.len() == CELL_COUNT,
                    slab.len() == CELL_COUNT,
                    hi.x <= CHUNK_SIZE,
                    hi.y <= CHUNK_SIZE,
                    hi.z <= CHUNK_SIZE,
                    lo.x <= x < hi.x,
                    lo.y <= y <= hi.y,
                    lo.z <= hi.z,
                    tested@ == mark_region(
                        slab,
                        LocalPos { x, ..lo },
                        LocalPos { x: (x + 1) as usize, y, z: hi.z },
                    ),
                decreases hi.y - y,
            {
                let ghost row = tested@;
                let mut z = lo.z;
                while z < hi.z
                    invariant
                        tested@.len() == CELL_COUNT,
                        row.len() == CELL_COUNT,
                        hi.x <= CHUNK_SIZE,
                        hi.y <= CHUNK_SIZE,
                        hi.z <= CHUNK_SIZE,
                        lo.x <= x < hi.x,
                        lo.y <= y < hi.y,
                        lo.z <= z <= hi.z,
                        tested@ == mark_region(
                            row,
                            LocalPos { x, y, z: lo.z },
                            LocalPos { x: (x + 1) as usize, y: (y + 1) as usize, z },
                        ),
                    decreases hi.z - z,
                {
                    let new_index = pos_as_index(x, y, z);
                    proof {
                        lemma_cell_of_index(x as int, y as int, z as int);
                    }
                    let ghost before = tested@;
                    tested[new_index] = true;
                    assert(tested@ =~= mark_region(
                        row,
                        LocalPos { x, y, z: lo.z },
                        LocalPos { x: (x + 1) as usize, y: (y + 1) as usize, z: (z + 1) as usize },
                    )) by {
                        assert forall|i: int| 0 <= i < CELL_COUNT implies tested@[i] == (row[i]
                            || in_region(
                            i,
                            LocalPos { x, y, z: lo.z },
                            LocalPos {
                                x: (x + 1) as usize,
                                y: (y + 1) as usize,
                                z: (z + 1) as usize,
                            },
                        )) by {
                            if i != new_index {
                                assert(tested@[i] == before[i]);
                                lemma_index_of_cell(i);
                            }
                        }
                    }
                    z += 1;
                }
                assert(tested@ =~= mark_region(
                    slab,
                    LocalPos { x, ..lo },
                    LocalPos { x: (x + 1) as usize, y: (y + 1) as usize, z: hi.z },
                )) by {
                    assert forall|i: int| 0 <= i < CELL_COUNT implies tested@[i] == (slab[i]
                        || in_region(
                        i,
                        LocalPos { x, ..lo },
                        LocalPos { x: (x + 1) as usize, y: (y + 1) as usize, z: hi.z },
                    )) by {
                        assert(row[i] == (slab[i] || in_region(
                            i,
                            LocalPos { x, ..lo },
                            LocalPos { x: (x + 1) as usize, y, z: hi.z },
                        )));
                        assert(tested@[i] == (row[i] || in_region(
                            i,
                            LocalPos { x, y, z: lo.z },
                            LocalPos { x: (x + 1) as usize, y: (y + 1) as usize, z: hi.z },
                        )));
                    }
                }
                y += 1;
            }
            let ghost next = LocalPos { x: (x + 1) as usize, ..hi };
            assert(tested@ =~= mark_region(old(tested)@, lo, next)) by {
                assert forall|i: int| 0 <= i < CELL_COUNT implies tested@[i] == (old(tested)@[i]
                    || in_region(i, lo, LocalPos { x: (x + 1) as usize, ..hi })) by {
                    assert(slab[i] == (old(tested)@[i] || in_region(i, lo, LocalPos { x, ..hi })));
                    assert(tested@[i] == (slab[i] || in_region(
                        i,
                        LocalPos { x, ..lo },
                        LocalPos { x: (x + 1) as usize, y: hi.y, z: hi.z },
                    )));
                }
            }
            x += 1;
        }
        assert(tested@ =~= mark_region(old(tested)@, lo, hi)) by {
            assert forall|i: int| 0 <= i < CELL_COUNT implies tested@[i] == (old(tested)@[i]
                || in_region(i, lo, hi)) by {
                assert(tested@[i] == (old(tested)@[i] || in_region(i, lo, LocalPos { x, ..hi })));
            }
        }
    }

    /// Tries to grow the box one cell along x; gives whether it grew.
    fn try_spread_x(
        &self,
        can_spread_x: bool,
        tested: &mut Vec<bool>,
        box_start: LocalPos,
        box_size: &mut LocalPos,
    ) -> (grew: bool)
        requires
            self.wf(),
            old(tested)@.len() == CELL_COUNT,
            box_in_chunk(box_start, *old(box_size)),
        ensures
            (grew, final(tested)@, *final(box_size)) == self.spread_x(
                can_spread_x,
                old(tested)@,
                box_start,
                *old(box_size),
            ),
            final(tested)@.len() == CELL_COUNT,
            box_in_chunk(box_start, *final(box_size)),
    {
        if !can_spread_x {
            return false;
        }
        let lo = LocalPos::new(box_start.x + box_size.x, box_start.y, box_start.z);
        let hi = LocalPos::new(
            box_start.x + box_size.x + 1,
            box_start.y + box_size.y,
            box_start.z + box_size.z,
        );
        if hi.x <= CHUNK_SIZE && self.region_is_free(tested, lo, hi) {
            Self::mark_cells(tested, lo, hi);
            box_size.x += 1;
            true
        } else {
            false
        }
    }

    /// Tries to grow the box one cell along y; gives whether it grew.
    fn try_spread_y(
        &self,
        can_spread_y: bool,
        tested: &mut Vec<bool>,
        box_start: LocalPos,
        box_size: &mut LocalPos,
    ) -> (grew: bool)
        requires
            self.wf(),
            old(tested)@.len() == CELL_COUNT,
            box_in_chunk(box_start, *old(box_size)),
        ensures
            (grew, final(tested)@, *final(box_size)) == self.spread_y(
                can_spread_y,
                old(tested)@,
                box_start,
                *old(box_size),
            ),
            final(tested)@.len() == CELL_COUNT,
            box_in_chunk(box_start, *final(box_size)),
    {
        if !can_spread_y {
            return false;
        }
        let lo = LocalPos::new(box_start.x, box_start.y + box_size.y, box_start.z);
        let hi = LocalPos::new(
            box_start.x + box_size.x,
            box_start.y + box_size.y + 1,
            box_start.z + box_size.z,
        );
        if hi.y <= CHUNK_SIZE && self.region_is_free(tested, lo, hi) {
            Self::mark_cells(tested, lo, hi);
            box_size.y += 1;
            true
        } else {
            false
        }
    }

    /// Tries to grow the box one cell along z; gives whether it grew.
    fn try_spread_z(
        &self,
        can_spread_z: bool,
        tested: &mut Vec<bool>,
        box_start: LocalPos,
        box_size: &mut LocalPos,
    ) -> (grew: bool)
        requires
            self.wf(),
            old(tested)@.len() == CELL_COUNT,
            box_in_chunk(box_start, *old(box_size)),
        ensures
            (grew, final(tested)@, *final(box_size)) == self.spread_z(
                can_spread_z,
                old(tested)@,
                box_start,
                *old(box_size),
            ),
            final(tested)@.len() == CELL_COUNT,
            box_in_chunk(box_start, *final(box_size)),
    {
        if !can_spread_z {
            return false;
        }
        let lo = LocalPos::new(box_start.x, box_start.y, box_start.z + box_size.z);
        let hi = LocalPos::new(
            box_start.x + box_size.x,
            box_start.y + box_size.y,
            box_start.z + box_size.z + 1,
        );
        if hi.z <= CHUNK_SIZE && self.region_is_free(tested, lo, hi) {
            Self::mark_cells(tested, lo, hi);
            box_size.z += 1;
            true
        } else {
            false
        }
    }

    /// One round of growth, along x, then y, then z, leaves the same end
    /// of the growth and brings it nearer.
    proof fn lemma_round(
        &self,
        tested: Seq<bool>,
        start: LocalPos,
        size: LocalPos,
        can_x: bool,
        can_y: bool,
        can_z: bool,
    )
        requires
            can_x || can_y || can_z,
            box_in_chunk(start, size),
        ensures
            ({
                let (grew_x, tested_x, size_x) = self.spread_x(can_x, tested, start, size);
                let (grew_y, tested_y, size_y) = self.spread_y(can_y, tested_x, start, size_x);
                let (grew_z, tested_z, size_z) = self.spread_z(can_z, tested_y, start, size_y);
                &&& self.spread(tested, start, size, can_x, can_y, can_z) == self.spread(
                    tested_z,
                    start,
                    size_z,
                    grew_x,
                    grew_y,
                    grew_z,
                )
                &&& growth_left(size_z, grew_x, grew_y, grew_z) < growth_left(
                    size,
                    can_x,
                    can_y,
                    can_z,
                )
            }),
    {
        let (grew_x, tested_x, size_x) = self.spread_x(can_x, tested, start, size);
        assert(growth_left(size_x, grew_x, can_y, can_z) <= growth_left(size, can_x, can_y, can_z));
        assert(can_x ==> growth_left(size_x, grew_x, can_y, can_z) < growth_left(
            size,
            can_x,
            can_y,
            can_z,
        ));
        let (grew_y, tested_y, size_y) = self.spread_y(can_y, tested_x, start, size_x);
        assert(growth_left(size_y, grew_x, grew_y, can_z) <= growth_left(
            size_x,
            grew_x,
            can_y,
            can_z,
        ));
        assert(can_y ==> growth_left(size_y, grew_x, grew_y, can_z) < growth_left(
            size_x,
            grew_x,
            can_y,
            can_z,
        ));
        let (grew_z, tested_z, size_z) = self.spread_z(can_z, tested_y, start, size_y);
        assert(growth_left(size_z, grew_x, grew_y, grew_z) <= growth_left(
            size_y,
            grew_x,
            grew_y,
            can_z,
        ));
        assert(can_z ==> growth_left(size_z, grew_x, grew_y, grew_z) < growth_left(
            size_y,
            grew_x,
            grew_y,
            can_z,
        ));
    }

    /// The collision boxes of the chunk.
    pub fn gen_collision_mesh(&self) -> (boxes: Vec<CollisionBox>)
        requires
            self.wf(),
        ensures
            boxes@ == self.collision_boxes(),
            self.is_partition(boxes@),
            self.is_grown(boxes@),
    {
        proof {
            self.lemma_collision_boxes_partition();
            self.lemma_collision_boxes_grown();
        }
        let mut tested: Vec<bool> = Vec::new();
        let mut n: usize = 0;
        while n < CELL_COUNT
            invariant
                n <= CELL_COUNT,
                tested@.len() == n,
                forall|i: int| 0 <= i < n ==> !tested@[i],
            decreases CELL_COUNT - n,
        {
            tested.push(false);
            n += 1;
        }
        assert(tested@ =~= Seq::new(CELL_COUNT as nat, |i: int| false));
        let mut boxes: Vec<CollisionBox> = Vec::new();
        let cells = self.cell_count();
        let mut index: usize = 0;
        while index < cells
            invariant
                self.wf(),
                cells == self.cells().len(),
                index <= cells,
                tested@.len() == CELL_COUNT,
                self.scan(tested@, index as int, boxes@) == self.collision_boxes(),
            decreases cells - index,
        {
            if !tested[index] {
                tested[index] = true;
                if self.get_cell_at(index).is_some() {
                    let box_start = index_as_pos(index);
                    let mut box_size = LocalPos::new(1, 1, 1);
                    let mut can_spread_x = true;
                    let mut can_spread_y = true;
                    let mut can_spread_z = true;
                    let ghost marked = tested@;
                    while can_spread_x || can_spread_y || can_spread_z
                        invariant
                            self.wf(),
                            tested@.len() == CELL_COUNT,
                            box_in_chunk(box_start, box_size),
                            self.spread(
                                tested@,
                                box_start,
                                box_size,
                                can_spread_x,
                                can_spread_y,
                                can_spread_z,
                            ) == self.spread(
                                marked,
                                box_start,
                                LocalPos { x: 1, y: 1, z: 1 },
                                true,
                                true,
                                true,
                            ),
                        decreases growth_left(box_size, can_spread_x, can_spread_y, can_spread_z),
                    {
                        proof {
                            self.lemma_round(
                                tested@,
                                box_start,
                                box_size,
                                can_spread_x,
                                can_spread_y,
                                can_spread_z,
                            );
                        }
                        can_spread_x = self.try_spread_x(
                            can_spread_x,
                            &mut tested,
                            box_start,
                            &mut box_size,
                        );
                        can_spread_y = self.try_spread_y(
                            can_spread_y,
                            &mut tested,
                            box_start,
                            &mut box_size,
                        );
                        can_spread_z = self.try_spread_z(
                            can_spread_z,
                            &mut tested,
                            box_start,
                            &mut box_size,
                        );
                    }
                    boxes.push(CollisionBox { position: box_start, size: box_size });
                }
            }
            index += 1;
        }
        boxes
    }
}

/// Whether one of `boxes` holds the cell with storage index `index`.
pub open spec fn covered(boxes: Seq<CollisionBox>, index: int) -> bool {
    exists|k: int| 0 <= k < boxes.len() && (#[trigger] boxes[k]).holds(index)
}

impl ChunkData {
    /// Whether the cell with storage index `index` holds a block that none of `boxes` covers.
    pub open spec fn open_cell(&self, boxes: Seq<CollisionBox>, index: int) -> bool {
        self.solid_at(index) && !covered(boxes, index)
    }

    /// Whether the region from `lo` to `hi` lies in the chunk and every cell
    /// of it holds a block that none of `boxes` covers.
    pub open spec fn region_open(
        &self,
        boxes: Seq<CollisionBox>,
        lo: LocalPos,
        hi: LocalPos,
    ) -> bool {
        &&& hi.x <= CHUNK_SIZE
        &&& hi.y <= CHUNK_SIZE
        &&& hi.z <= CHUNK_SIZE
        &&& forall|x: int, y: int, z: int|
            lo.x <= x < hi.x && lo.y <= y < hi.y && lo.z <= z < hi.z ==> #[trigger] self.open_cell(
                boxes,
                cell_index(x, y, z),
            )
    }

    /// Whether none of `boxes` could have grown further: on each axis, the
    /// layer next to the box leaves the chunk, or holds a cell without a
    /// block, or a cell of a box that stands before it in `boxes`.
    pub open spec fn is_grown(&self, boxes: Seq<CollisionBox>) -> bool {
        forall|k: int|
            0 <= k < boxes.len() ==> {
                let b = #[trigger] boxes[k];
                let earlier = boxes.take(k);
                let (lo_x, hi_x) = layer_x(b.position, b.size);
                let (lo_y, hi_y) = layer_y(b.position, b.size);
                let (lo_z, hi_z) = layer_z(b.position, b.size);
                &&& !self.region_open(earlier, lo_x, hi_x)
                &&& !self.region_open(earlier, lo_y, hi_y)
                &&& !self.region_open(earlier, lo_z, hi_z)
            }
    }

    /// Whether the box from `start` with extent `size` can grow along x,
    /// where `marks` are the cells that are done with.
    spec fn can_grow_x(&self, marks: Seq<bool>, start: LocalPos, size: LocalPos) -> bool {
        self.region_free(marks, layer_x(start, size).0, layer_x(start, size).1)
    }

    /// Whether the box can grow along y.
    spec fn can_grow_y(&self, marks: Seq<bool>, start: LocalPos, size: LocalPos) -> bool {
        self.region_free(marks, layer_y(start, size).0, layer_y(start, size).1)
    }

    /// Whether the box can grow along z.
    spec fn can_grow_z(&self, marks: Seq<bool>, start: LocalPos, size: LocalPos) -> bool {
        self.region_free(marks, layer_z(start, size).0, layer_z(start, size).1)
    }

    /// Whether each axis that has given up could not grow even by the marks
    /// from before the box was started.
    spec fn stuck(
        &self,
        before: Seq<bool>,
        start: LocalPos,
        size: LocalPos,
        can_x: bool,
        can_y: bool,
        can_z: bool,
    ) -> bool {
        &&& !can_x ==> !self.can_grow_x(before, start, size)
        &&& !can_y ==> !self.can_grow_y(before, start, size)
        &&& !can_z ==> !self.can_grow_z(before, start, size)
    }

    /// A layer that is free by the marks from before the box was started is
    /// free by the marks of the box as well: the box does not reach into it.
    proof fn lemma_layer_marks(
        &self,
        before: Seq<bool>,
        tested: Seq<bool>,
        start: LocalPos,
        size: LocalPos,
    )
        requires
            self.spread_inv(before, tested, start, size),
        ensures
            self.can_grow_x(before, start, size) ==> self.can_grow_x(tested, start, size),
            self.can_grow_y(before, start, size) ==> self.can_grow_y(tested, start, size),
            self.can_grow_z(before, start, size) ==> self.can_grow_z(tested, start, size),
    {
        let grown = CollisionBox { position: start, size };
        if self.can_grow_x(before, start, size) {
            let (lo, hi) = layer_x(start, size);
            assert forall|x: int, y: int, z: int|
                lo.x <= x < hi.x && lo.y <= y < hi.y && lo.z <= z < hi.z implies #[trigger] self
                .cell_free(tested, cell_index(x, y, z)) by {
                lemma_cell_of_index(x, y, z);
                assert(self.cell_free(before, cell_index(x, y, z)));
                assert(!grown.holds(cell_index(x, y, z)));
            }
        }
        if self.can_grow_y(before, start, size) {
            let (lo, hi) = layer_y(start, size);
            assert forall|x: int, y: int, z: int|
                lo.x <= x < hi.x && lo.y <= y < hi.y && lo.z <= z < hi.z implies #[trigger] self
                .cell_free(tested, cell_index(x, y, z)) by {
                lemma_cell_of_index(x, y, z);
                assert(self.cell_free(before, cell_index(x, y, z)));
                assert(!grown.holds(cell_index(x, y, z)));
            }
        }
        if self.can_grow_z(before, start, size) {
            let (lo, hi) = layer_z(start, size);
            assert forall|x: int, y: int, z: int|
                lo.x <= x < hi.x && lo.y <= y < hi.y && lo.z <= z < hi.z implies #[trigger] self
                .cell_free(tested, cell_index(x, y, z)) by {
                lemma_cell_of_index(x, y, z);
                assert(self.cell_free(before, cell_index(x, y, z)));
                assert(!grown.holds(cell_index(x, y, z)));
            }
        }
    }

    /// An axis that cannot grow stays so while the box grows along the
    /// other axes: its layer only gains cells.
    proof fn lemma_stuck_stays(
        &self,
        before: Seq<bool>,
        start: LocalPos,
        size: LocalPos,
        bigger: LocalPos,
    )
        requires
            box_in_chunk(start, size),
            box_in_chunk(start, bigger),
            size.x <= bigger.x,
            size.y <= bigger.y,
            size.z <= bigger.z,
        ensures
            bigger.x == size.x && !self.can_grow_x(before, start, size) ==> !self.can_grow_x(
                before,
                start,
                bigger,
            ),
            bigger.y == size.y && !self.can_grow_y(before, start, size) ==> !self.can_grow_y(
                before,
                start,
                bigger,
            ),
            bigger.z == size.z && !self.can_grow_z(before, start, size) ==> !self.can_grow_z(
                before,
                start,
                bigger,
            ),
    {
        if bigger.x == size.x && self.can_grow_x(before, start, bigger) {
            let (lo, hi) = layer_x(start, size);
            assert forall|x: int, y: int, z: int|
                lo.x <= x < hi.x && lo.y <= y < hi.y && lo.z <= z < hi.z implies #[trigger] self
                .cell_free(before, cell_index(x, y, z)) by {}
        }
        if bigger.y == size.y && self.can_grow_y(before, start, bigger) {
            let (lo, hi) = layer_y(start, size);
            assert forall|x: int, y: int, z: int|
                lo.x <= x < hi.x && lo.y <= y < hi.y && lo.z <= z < hi.z implies #[trigger] self
                .cell_free(before, cell_index(x, y, z)) by {}
        }
        if bigger.z == size.z && self.can_grow_z(before, start, bigger) {
            let (lo, hi) = layer_z(start, size);
            assert forall|x: int, y: int, z: int|
                lo.x <= x < hi.x && lo.y <= y < hi.y && lo.z <= z < hi.z implies #[trigger] self
                .cell_free(before, cell_index(x, y, z)) by {}
        }
    }

    /// A box that has grown to its end can grow along no axis, even by the
    /// marks from before it was started.
    proof fn lemma_spread_stuck(
        &self,
        before: Seq<bool>,
        tested: Seq<bool>,
        start: LocalPos,
        size: LocalPos,
        can_x: bool,
        can_y: bool,
        can_z: bool,
    )
        requires
            self.spread_inv(before, tested, start, size),
            self.stuck(before, start, size, can_x, can_y, can_z),
        ensures
            self.stuck(
                before,
                start,
                self.spread(tested, start, size, can_x, can_y, can_z).1,
                false,
                false,
                false,
            ),
        decreases growth_left(size, can_x, can_y, can_z),
    {
        if can_x || can_y || can_z {
            let (grew_x, tested_x, size_x) = self.spread_x(can_x, tested, start, size);
            self.lemma_spread_x(can_x, before, tested, start, size);
            self.lemma_layer_marks(before, tested, start, size);
            self.lemma_stuck_stays(before, start, size, size_x);
            assert(self.stuck(before, start, size_x, grew_x, can_y, can_z));

            let (grew_y, tested_y, size_y) = self.spread_y(can_y, tested_x, start, size_x);
            self.lemma_spread_y(can_y, before, tested_x, start, size_x);
            self.lemma_layer_marks(before, tested_x, start, size_x);
            self.lemma_stuck_stays(before, start, size_x, size_y);
            assert(self.stuck(before, start, size_y, grew_x, grew_y, can_z));

            let (grew_z, tested_z, size_z) = self.spread_z(can_z, tested_y, start, size_y);
            self.lemma_spread_z(can_z, before, tested_y, start, size_y);
            self.lemma_layer_marks(before, tested_y, start, size_y);
            self.lemma_stuck_stays(before, start, size_y, size_z);
            assert(self.stuck(before, start, size_z, grew_x, grew_y, grew_z));

            self.lemma_spread_stuck(before, tested_z, start, size_z, grew_x, grew_y, grew_z);
        }
    }

    /// A layer whose cells are all blocks that no box covers is free by the
    /// marks of the scan.
    proof fn lemma_open_is_free(
        &self,
        tested: Seq<bool>,
        index: int,
        boxes: Seq<CollisionBox>,
        lo: LocalPos,
        hi: LocalPos,
    )
        requires
            self.scan_inv(tested, index, boxes),
            self.region_open(boxes, lo, hi),
        ensures
            self.region_free(tested, lo, hi),
    {
        assert forall|x: int, y: int, z: int|
            lo.x <= x < hi.x && lo.y <= y < hi.y && lo.z <= z < hi.z implies #[trigger] self
            .cell_free(tested, cell_index(x, y, z)) by {
            lemma_cell_of_index(x, y, z);
            let c = cell_index(x, y, z);
            assert(self.open_cell(boxes, c));
            if tested[c] {
                assert(c < index || covered(boxes, c));
            }
        }
    }

    /// Whether `boxes` lie in the chunk, cover the cells that hold a block
    /// and no other cell, and cover none of them twice.
    pub open spec fn is_partition(&self, boxes: Seq<CollisionBox>) -> bool {
        &&& forall|k: int|
            0 <= k < boxes.len() ==> box_in_chunk((#[trigger] boxes[k]).position, boxes[k].size)
        &&& forall|i: int| self.solid_at(i) <==> #[trigger] covered(boxes, i)
        &&& forall|k: int, l: int, i: int|
            0 <= k < l < boxes.len() && #[trigger] boxes[k].holds(i) ==> !#[trigger] boxes[l].holds(
                i,
            )
    }

    /// What holds while a box grows from `start`: it lies in the chunk, its
    /// cells hold blocks that `before` did not mark, and `tested` marks
    /// what `before` marked and the cells of the box.
    spec fn spread_inv(
        &self,
        before: Seq<bool>,
        tested: Seq<bool>,
        start: LocalPos,
        size: LocalPos,
    ) -> bool {
        let grown = CollisionBox { position: start, size };
        &&& before.len() == CELL_COUNT
        &&& tested.len() == CELL_COUNT
        &&& self.cells().len() == CELL_COUNT
        &&& box_in_chunk(start, size)
        &&& forall|i: int|
            0 <= i < CELL_COUNT ==> (#[trigger] tested[i] <==> before[i] || grown.holds(i))
        &&& forall|i: int| #[trigger] grown.holds(i) ==> self.solid_at(i) && !before[i]
    }

    /// What holds while the cells are gone through, before the cell with
    /// storage index `index`.
    spec fn scan_inv(&self, tested: Seq<bool>, index: int, boxes: Seq<CollisionBox>) -> bool {
        &&& tested.len() == CELL_COUNT
        &&& 0 <= index <= self.cells().len()
        &&& self.cells().len() == CELL_COUNT || self.cells().len() == 0
        &&& forall|k: int|
            0 <= k < boxes.len() ==> box_in_chunk((#[trigger] boxes[k]).position, boxes[k].size)
        &&& forall|k: int, i: int|
            0 <= k < boxes.len() && #[trigger] boxes[k].holds(i) ==> self.solid_at(i) && tested[i]
        &&& forall|i: int|
            0 <= i < CELL_COUNT && #[trigger] tested[i] ==> i < index || covered(boxes, i)
        &&& forall|i: int| 0 <= i < index && self.solid_at(i) ==> #[trigger] covered(boxes, i)
        &&& forall|k: int, l: int, i: int|
            0 <= k < l < boxes.len() && #[trigger] boxes[k].holds(i) ==> !#[trigger] boxes[l].holds(
                i,
            )
    }

    /// A box that grows by a free layer keeps what holds while it grows.
    proof fn lemma_grow(
        &self,
        before: Seq<bool>,
        tested: Seq<bool>,
        start: LocalPos,
        size: LocalPos,
        lo: LocalPos,
        hi: LocalPos,
        grown_size: LocalPos,
    )
        requires
            self.spread_inv(before, tested, start, size),
            self.region_free(tested, lo, hi),
            box_in_chunk(start, grown_size),
            forall|i: int|
                0 <= i < CELL_COUNT ==> (#[trigger] (CollisionBox {
                    position: start,
                    size: grown_size,
                }).holds(i) <==> (CollisionBox { position: start, size }).holds(i) || in_region(
                    i,
                    lo,
                    hi,
                )),
        ensures
            self.spread_inv(before, mark_region(tested, lo, hi), start, grown_size),
    {
        let small = CollisionBox { position: start, size };
        let grown = CollisionBox { position: start, size: grown_size };
        let marked = mark_region(tested, lo, hi);
        assert forall|i: int| 0 <= i < CELL_COUNT implies (#[trigger] marked[i] <==> before[i]
            || grown.holds(i)) by {
            assert(tested[i] <==> before[i] || small.holds(i));
            assert(grown.holds(i) <==> small.holds(i) || in_region(i, lo, hi));
            assert(marked[i] == (tested[i] || in_region(i, lo, hi)));
        }
        assert forall|i: int| #[trigger] grown.holds(i) implies self.solid_at(i) && !before[i] by {
            assert(grown.holds(i) <==> small.holds(i) || in_region(i, lo, hi));
            if small.holds(i) {
            } else {
                lemma_index_of_cell(i);
                let at = cell_of(i);
                assert(self.cell_free(tested, cell_index(at.x as int, at.y as int, at.z as int)));
                assert(tested[i] <==> before[i] || small.holds(i));
            }
        }
    }

    /// One attempt to grow along x keeps what holds while the box grows.
    proof fn lemma_spread_x(
        &self,
        can_spread: bool,
        before: Seq<bool>,
        tested: Seq<bool>,
        start: LocalPos,
        size: LocalPos,
    )
        requires
            self.spread_inv(before, tested, start, size),
        ensures
            self.spread_inv(
                before,
                self.spread_x(can_spread, tested, start, size).1,
                start,
                self.spread_x(can_spread, tested, start, size).2,
            ),
    {
        let (lo, hi) = layer_x(start, size);
        if self.spread_x(can_spread, tested, start, size).0 {
            let grown_size = LocalPos { x: (size.x + 1) as usize, ..size };
            self.lemma_grow(before, tested, start, size, lo, hi, grown_size);
        }
    }

    /// One attempt to grow along y keeps what holds while the box grows.
    proof fn lemma_spread_y(
        &self,
        can_spread: bool,
        before: Seq<bool>,
        tested: Seq<bool>,
        start: LocalPos,
        size: LocalPos,
    )
        requires
            self.spread_inv(before, tested, start, size),
        ensures
            self.spread_inv(
                before,
                self.spread_y(can_spread, tested, start, size).1,
                start,
                self.spread_y(can_spread, tested, start, size).2,
            ),
    {
        let (lo, hi) = layer_y(start, size);
        if self.spread_y(can_spread, tested, start, size).0 {
            let grown_size = LocalPos { y: (size.y + 1) as usize, ..size };
            self.lemma_grow(before, tested, start, size, lo, hi, grown_size);
        }
    }

    /// One attempt to grow along z keeps what holds while the box grows.
    proof fn lemma_spread_z(
        &self,
        can_spread: bool,
        before: Seq<bool>,
        tested: Seq<bool>,
        start: LocalPos,
        size: LocalPos,
    )
        requires
            self.spread_inv(before, tested, start, size),
        ensures
            self.spread_inv(
                before,
                self.spread_z(can_spread, tested, start, size).1,
                start,
                self.spread_z(can_spread, tested, start, size).2,
            ),
    {
        let (lo, hi) = layer_z(start, size);
        if self.spread_z(can_spread, tested, start, size).0 {
            let grown_size = LocalPos { z: (size.z + 1) as usize, ..size };
            self.lemma_grow(before, tested, start, size, lo, hi, grown_size);
        }
    }

    /// Growing a box to its end keeps what holds while it grows.
    proof fn lemma_spread(
        &self,
        before: Seq<bool>,
        tested: Seq<bool>,
        start: LocalPos,
        size: LocalPos,
        can_x: bool,
        can_y: bool,
        can_z: bool,
    )
        requires
            self.spread_inv(before, tested, start, size),
        ensures
            self.spread_inv(
                before,
                self.spread(tested, start, size, can_x, can_y, can_z).0,
                start,
                self.spread(tested, start, size, can_x, can_y, can_z).1,
            ),
        decreases growth_left(size, can_x, can_y, can_z),
    {
        if can_x || can_y || can_z {
            let (grew_x, tested_x, size_x) = self.spread_x(can_x, tested, start, size);
            self.lemma_spread_x(can_x, before, tested, start, size);
            let (grew_y, tested_y, size_y) = self.spread_y(can_y, tested_x, start, size_x);
            self.lemma_spread_y(can_y, before, tested_x, start, size_x);
            let (grew_z, tested_z, size_z) = self.spread_z(can_z, tested_y, start, size_y);
            self.lemma_spread_z(can_z, before, tested_y, start, size_y);
            self.lemma_spread(before, tested_z, start, size_z, grew_x, grew_y, grew_z);
        }
    }

    /// Going through the rest of the cells ends in a partition, of boxes
    /// that could not have grown further.
    proof fn lemma_scan(&self, tested: Seq<bool>, index: int, boxes: Seq<CollisionBox>)
        requires
            self.scan_inv(tested, index, boxes),
            self.is_grown(boxes),
        ensures
            self.is_partition(self.scan(tested, index, boxes)),
            self.is_grown(self.scan(tested, index, boxes)),
        decreases self.cells().len() - index,
    {
        if index >= self.cells().len() {
            assert forall|i: int| self.solid_at(i) <==> #[trigger] covered(boxes, i) by {
                if covered(boxes, i) {
                    let k = choose|k: int| 0 <= k < boxes.len() && (#[trigger] boxes[k]).holds(i);
                    assert(self.solid_at(i));
                }
            }
        } else if tested[index] {
            self.lemma_scan(tested, index + 1, boxes);
        } else if self.solid_at(index) {
            let start = spec_index_as_pos(index as usize);
            let one = LocalPos { x: 1, y: 1, z: 1 };
            let marked = tested.update(index, true);
            let (grown, size) = self.spread(marked, start, one, true, true, true);
            let added = CollisionBox { position: start, size };
            let more = boxes.push(added);
            assert(self.spread_inv(tested, marked, start, one)) by {
                reveal(cell_of);
                lemma_index_of_cell(index);
                assert forall|i: int| 0 <= i < CELL_COUNT implies ((CollisionBox {
                    position: start,
                    size: one,
                }).holds(i) <==> i == index) by {
                    lemma_index_of_cell(i);
                }
            }
            self.lemma_spread(tested, marked, start, one, true, true, true);
            assert(added.holds(index)) by {
                reveal(cell_of);
            }
            assert forall|k: int, i: int| 0 <= k < more.len() && #[trigger] more[k].holds(
                i,
            ) implies self.solid_at(i) && grown[i] by {
                if k < boxes.len() {
                    assert(boxes[k].holds(i));
                }
            }
            assert forall|i: int| 0 <= i < CELL_COUNT && #[trigger] grown[i] implies i < index + 1
                || covered(more, i) by {
                if added.holds(i) {
                    assert(more[boxes.len() as int].holds(i));
                } else if i > index {
                    assert(tested[i]);
                    assert(covered(boxes, i));
                    let k = choose|k: int| 0 <= k < boxes.len() && (#[trigger] boxes[k]).holds(i);
                    assert(more[k].holds(i));
                }
            }
            assert forall|i: int| 0 <= i < index + 1 && self.solid_at(i) implies #[trigger] covered(
                more,
                i,
            ) by {
                if i == index {
                    assert(more[boxes.len() as int].holds(i));
                } else {
                    assert(covered(boxes, i));
                    let k = choose|k: int| 0 <= k < boxes.len() && (#[trigger] boxes[k]).holds(i);
                    assert(more[k].holds(i));
                }
            }
            assert forall|k: int, l: int, i: int| 0 <= k < l < more.len() && #[trigger] more[k]
                .holds(i) implies !#[trigger] more[l].holds(i) by {
                if l == boxes.len() {
                    assert(boxes[k].holds(i));
                    assert(tested[i]);
                } else {
                    assert(boxes[k].holds(i));
                    assert(more[l] == boxes[l]);
                }
            }
            assert(self.is_grown(more)) by {
                self.lemma_spread_stuck(tested, marked, start, one, true, true, true);
                let (lo_x, hi_x) = layer_x(start, size);
                let (lo_y, hi_y) = layer_y(start, size);
                let (lo_z, hi_z) = layer_z(start, size);
                if self.region_open(boxes, lo_x, hi_x) {
                    self.lemma_open_is_free(tested, index, boxes, lo_x, hi_x);
                }
                if self.region_open(boxes, lo_y, hi_y) {
                    self.lemma_open_is_free(tested, index, boxes, lo_y, hi_y);
                }
                if self.region_open(boxes, lo_z, hi_z) {
                    self.lemma_open_is_free(tested, index, boxes, lo_z, hi_z);
                }
                assert forall|k: int| 0 <= k < more.len() implies {
                    let b = #[trigger] more[k];
                    let earlier = more.take(k);
                    let (lo_x, hi_x) = layer_x(b.position, b.size);
                    let (lo_y, hi_y) = layer_y(b.position, b.size);
                    let (lo_z, hi_z) = layer_z(b.position, b.size);
                    &&& !self.region_open(earlier, lo_x, hi_x)
                    &&& !self.region_open(earlier, lo_y, hi_y)
                    &&& !self.region_open(earlier, lo_z, hi_z)
                } by {
                    if k < boxes.len() {
                        assert(more.take(k) =~= boxes.take(k));
                        assert(more[k] == boxes[k]);
                    } else {
                        assert(more.take(k) =~= boxes);
                    }
                }
            }
            self.lemma_scan(grown, index + 1, more);
        } else {
            let marked = tested.update(index, true);
            assert forall|i: int| 0 <= i < CELL_COUNT && #[trigger] marked[i] implies i < index + 1
                || covered(boxes, i) by {
                if i > index {
                    assert(tested[i]);
                }
            }
            self.lemma_scan(marked, index + 1, boxes);
        }
    }

    /// A chunk with one block has one collision box: that cell.
    pub proof fn lemma_single_block_box(&self, index: int)
        requires
            self.wf(),
            self.solid_at(index),
            forall|i: int| i != index ==> !self.solid_at(i),
        ensures
            self.collision_boxes() == seq![
                CollisionBox { position: cell_of(index), size: LocalPos { x: 1, y: 1, z: 1 } },
            ],
    {
        let boxes = self.collision_boxes();
        let unit = CollisionBox { position: cell_of(index), size: LocalPos { x: 1, y: 1, z: 1 } };
        self.lemma_collision_boxes_partition();
        assert(covered(boxes, index));
        assert forall|k: int| 0 <= k < boxes.len() implies #[trigger] boxes[k] == unit by {
            let b = boxes[k];
            let p = b.position;
            assert(box_in_chunk(b.position, b.size));
            lemma_cell_of_index(p.x as int, p.y as int, p.z as int);
            let first = cell_index(p.x as int, p.y as int, p.z as int);
            assert(b.holds(first));
            assert(covered(boxes, first));
            assert(first == index);
            if b.size.x > 1 {
                lemma_cell_of_index(p.x + 1, p.y as int, p.z as int);
                let next = cell_index(p.x + 1, p.y as int, p.z as int);
                assert(b.holds(next));
                assert(covered(boxes, next));
            }
            if b.size.y > 1 {
                lemma_cell_of_index(p.x as int, p.y + 1, p.z as int);
                let next = cell_index(p.x as int, p.y + 1, p.z as int);
                assert(b.holds(next));
                assert(covered(boxes, next));
            }
            if b.size.z > 1 {
                lemma_cell_of_index(p.x as int, p.y as int, p.z + 1);
                let next = cell_index(p.x as int, p.y as int, p.z + 1);
                assert(b.holds(next));
                assert(covered(boxes, next));
            }
        }
        let k = choose|k: int| 0 <= k < boxes.len() && (#[trigger] boxes[k]).holds(index);
        if boxes.len() > 1 {
            assert(boxes[0] == unit);
            assert(boxes[1] == unit);
            lemma_index_of_cell(index);
            assert(boxes[0].holds(index));
            assert(boxes[1].holds(index));
        }
        assert(boxes =~= seq![unit]);
    }

    /// None of the collision boxes of a chunk could have grown further
    /// along x, y or z.
    pub proof fn lemma_collision_boxes_grown(&self)
        requires
            self.wf(),
        ensures
            self.is_grown(self.collision_boxes()),
    {
        let fresh = Seq::new(CELL_COUNT as nat, |i: int| false);
        let none = Seq::<CollisionBox>::empty();
        self.lemma_scan(fresh, 0, none);
    }

    /// The collision boxes of a chunk lie in the chunk, cover exactly the
    /// cells that hold a block, and do not overlap.
    pub proof fn lemma_collision_boxes_partition(&self)
        requires
            self.wf(),
        ensures
            self.is_partition(self.collision_boxes()),
    {
        let fresh = Seq::new(CELL_COUNT as nat, |i: int| false);
        let none = Seq::<CollisionBox>::empty();
        self.lemma_scan(fresh, 0, none);
    }
}

/// The marks of the cells of the box from the first cell of a chunk with extent `size`.
spec fn corner_marks(size: LocalPos) -> Seq<bool> {
    Seq::new(CELL_COUNT as nat, |i: int| in_region(i, LocalPos { x: 0, y: 0, z: 0 }, size))
}

impl ChunkData {
    /// Whether every cell of the chunk holds a block.
    pub open spec fn is_full(&self) -> bool {
        &&& self.cells().len() == CELL_COUNT
        &&& forall|i: int| 0 <= i < CELL_COUNT ==> (#[trigger] self.cells()[i]).is_some()
    }

    /// In a full chunk, the box in the first corner grows by any layer next
    /// to it that lies in the chunk.
    proof fn lemma_full_layer(&self, size: LocalPos, lo: LocalPos, hi: LocalPos, grown: LocalPos)
        requires
            self.is_full(),
            hi.x <= CHUNK_SIZE && hi.y <= CHUNK_SIZE && hi.z <= CHUNK_SIZE,
            lo.x >= size.x || lo.y >= size.y || lo.z >= size.z,
            forall|i: int|
                0 <= i < CELL_COUNT ==> (#[trigger] in_region(
                    i,
                    LocalPos { x: 0, y: 0, z: 0 },
                    grown,
                ) <==> in_region(i, LocalPos { x: 0, y: 0, z: 0 }, size) || in_region(i, lo, hi)),
        ensures
            self.region_free(corner_marks(size), lo, hi),
            mark_region(corner_marks(size), lo, hi) == corner_marks(grown),
    {
        let marks = corner_marks(size);
        assert forall|x: int, y: int, z: int|
            lo.x <= x < hi.x && lo.y <= y < hi.y && lo.z <= z < hi.z implies #[trigger] self
            .cell_free(marks, cell_index(x, y, z)) by {
            lemma_cell_of_index(x, y, z);
            assert(self.cells()[cell_index(x, y, z)].is_some());
        }
        assert(mark_region(marks, lo, hi) =~= corner_marks(grown)) by {
            assert forall|i: int| 0 <= i < CELL_COUNT implies mark_region(marks, lo, hi)[i]
                == corner_marks(grown)[i] by {
                assert(in_region(i, LocalPos { x: 0, y: 0, z: 0 }, grown) <==> in_region(
                    i,
                    LocalPos { x: 0, y: 0, z: 0 },
                    size,
                ) || in_region(i, lo, hi));
            }
        }
    }

    /// In a full chunk, a cube in the first corner grows to the whole chunk.
    proof fn lemma_full_spread(&self, edge: usize)
        requires
            self.is_full(),
            1 <= edge <= CHUNK_SIZE,
        ensures
            self.spread(
                corner_marks(LocalPos { x: edge, y: edge, z: edge }),
                LocalPos { x: 0, y: 0, z: 0 },
                LocalPos { x: edge, y: edge, z: edge },
                true,
                true,
                true,
            ) == (
                corner_marks(LocalPos { x: 16, y: 16, z: 16 }),
                LocalPos { x: 16, y: 16, z: 16 },
            ),
        decreases CHUNK_SIZE - edge,
    {
        let start = LocalPos { x: 0, y: 0, z: 0 };
        let size = LocalPos { x: edge, y: edge, z: edge };
        let marks = corner_marks(size);
        if edge == CHUNK_SIZE {
            assert(self.spread_x(true, marks, start, size) == (false, marks, size));
            assert(self.spread_y(true, marks, start, size) == (false, marks, size));
            assert(self.spread_z(true, marks, start, size) == (false, marks, size));
            assert(self.spread(marks, start, size, false, false, false) == (marks, size));
        } else {
            let next = (edge + 1) as usize;
            let size_x = LocalPos { x: next, y: edge, z: edge };
            let size_y = LocalPos { x: next, y: next, z: edge };
            let size_z = LocalPos { x: next, y: next, z: next };
            let (lo_x, hi_x) = layer_x(start, size);
            self.lemma_full_layer(size, lo_x, hi_x, size_x);
            assert(self.spread_x(true, marks, start, size) == (true, corner_marks(size_x), size_x));
            let (lo_y, hi_y) = layer_y(start, size_x);
            self.lemma_full_layer(size_x, lo_y, hi_y, size_y);
            assert(self.spread_y(true, corner_marks(size_x), start, size_x) == (
                true,
                corner_marks(size_y),
                size_y,
            ));
            let (lo_z, hi_z) = layer_z(start, size_y);
            self.lemma_full_layer(size_y, lo_z, hi_z, size_z);
            assert(self.spread_z(true, corner_marks(size_y), start, size_y) == (
                true,
                corner_marks(size_z),
                size_z,
            ));
            self.lemma_full_spread(next);
        }
    }

    /// Where every cell that is left is marked, no box is added.
    proof fn lemma_scan_marked(&self, tested: Seq<bool>, index: int, boxes: Seq<CollisionBox>)
        requires
            0 <= index,
            forall|i: int| index <= i < self.cells().len() ==> tested[i],
        ensures
            self.scan(tested, index, boxes) == boxes,
        decreases self.cells().len() - index,
    {
        if index < self.cells().len() {
            self.lemma_scan_marked(tested, index + 1, boxes);
        }
    }

    /// A chunk full of blocks has one collision box: the whole chunk.
    pub proof fn lemma_full_chunk_box(&self)
        requires
            self.is_full(),
        ensures
            self.collision_boxes() == seq![
                CollisionBox {
                    position: LocalPos { x: 0, y: 0, z: 0 },
                    size: LocalPos { x: 16, y: 16, z: 16 },
                },
            ],
    {
        let start = LocalPos { x: 0, y: 0, z: 0 };
        let one = LocalPos { x: 1, y: 1, z: 1 };
        let all = LocalPos { x: 16, y: 16, z: 16 };
        let fresh = Seq::new(CELL_COUNT as nat, |i: int| false);
        let none = Seq::<CollisionBox>::empty();
        let whole = CollisionBox { position: start, size: all };
        assert(self.cells()[0].is_some());
        assert(spec_index_as_pos(0) == start);
        assert(fresh.update(0, true) =~= corner_marks(one)) by {
            assert forall|i: int| 0 <= i < CELL_COUNT implies fresh.update(0, true)[i]
                == corner_marks(one)[i] by {
                lemma_index_of_cell(i);
                lemma_cell_of_index(0, 0, 0);
            }
        }
        self.lemma_full_spread(1);
        assert forall|i: int| 1 <= i < self.cells().len() implies corner_marks(all)[i] by {
            lemma_index_of_cell(i);
        }
        self.lemma_scan_marked(corner_marks(all), 1, none.push(whole));
        assert(self.scan(fresh, 0, none) == self.scan(corner_marks(all), 1, none.push(whole)));
        assert(none.push(whole) =~= seq![whole]);
    }
}

} // verus!
