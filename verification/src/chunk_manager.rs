use vstd::prelude::*;
use crate::chunk::{world_to_chunk, spec_world_to_chunk, Chunk};
use crate::generator::{
    air_after_blocks, gen_smooth_terrain, terrain_cells, terrain_count, COLUMN_COUNT,
};
use crate::mesh::quad_indices;
use crate::registry::Registry;
use crate::vector::{BlockPos, ChunkPos};

verus! {

/// How many chunks a tick admits from the load stage, and how many it builds.
pub const ASYNC_NUM_CHUNKS_PER_FRAME: usize = 2;

/// How many chunks of `chunks` stand at grid coordinate `pos`.
pub open spec fn occurrences(chunks: Seq<Chunk>, pos: ChunkPos) -> nat
    decreases chunks.len(),
{
    if chunks.len() == 0 {
        0
    } else {
        occurrences(chunks.drop_last(), pos) + if chunks.last().pos() == pos {
            1nat
        } else {
            0nat
        }
    }
}

/// The place in `chunks` of the first chunk at grid coordinate `pos`, or the
/// length of `chunks` if there is none.
pub open spec fn index_of(chunks: Seq<Chunk>, pos: ChunkPos) -> int
    decreases chunks.len(),
{
    if chunks.len() == 0 || chunks[0].pos() == pos {
        0
    } else {
        1 + index_of(chunks.drop_first(), pos)
    }
}

/// The grid coordinates of `chunks`, in their order.
pub open spec fn positions(chunks: Seq<Chunk>) -> Seq<ChunkPos> {
    Seq::new(chunks.len(), |i: int| chunks[i].pos())
}

/// The smaller of `count` and the number of chunks that one tick moves.
pub open spec fn per_tick(count: nat) -> int {
    if count < ASYNC_NUM_CHUNKS_PER_FRAME {
        count as int
    } else {
        ASYNC_NUM_CHUNKS_PER_FRAME as int
    }
}

pub proof fn lemma_occurrences_push(chunks: Seq<Chunk>, chunk: Chunk, pos: ChunkPos)
    ensures
        occurrences(chunks.push(chunk), pos) == occurrences(chunks, pos) + if chunk.pos() == pos {
            1nat
        } else {
            0nat
        },
{
    assert(chunks.push(chunk).drop_last() == chunks);
}

pub proof fn lemma_occurrences_concat(front: Seq<Chunk>, back: Seq<Chunk>, pos: ChunkPos)
    ensures
        occurrences(front + back, pos) == occurrences(front, pos) + occurrences(back, pos),
    decreases back.len(),
{
    if back.len() == 0 {
        assert(front + back == front);
    } else {
        assert((front + back).drop_last() == front + back.drop_last());
        lemma_occurrences_concat(front, back.drop_last(), pos);
    }
}

pub proof fn lemma_occurrences_split(chunks: Seq<Chunk>, at: int, pos: ChunkPos)
    requires
        0 <= at <= chunks.len(),
    ensures
        occurrences(chunks, pos) == occurrences(chunks.take(at), pos) + occurrences(
            chunks.skip(at),
            pos,
        ),
{
    assert(chunks == chunks.take(at) + chunks.skip(at));
    lemma_occurrences_concat(chunks.take(at), chunks.skip(at), pos);
}

/// A coordinate occurs among chunks as often as there are places where it stands.
pub proof fn lemma_occurrences_index(chunks: Seq<Chunk>, pos: ChunkPos)
    ensures
        0 <= index_of(chunks, pos) <= chunks.len(),
        index_of(chunks, pos) < chunks.len() ==> chunks[index_of(chunks, pos)].pos() == pos,
        forall|i: int| 0 <= i < index_of(chunks, pos) ==> (#[trigger] chunks[i]).pos() != pos,
        occurrences(chunks, pos) == 0 <==> index_of(chunks, pos) == chunks.len(),
        occurrences(chunks, pos) <= 1 ==> forall|i: int|
            0 <= i < chunks.len() && (#[trigger] chunks[i]).pos() == pos ==> i == index_of(
                chunks,
                pos,
            ),
    decreases chunks.len(),
{
    if chunks.len() > 0 {
        let rest = chunks.drop_first();
        lemma_occurrences_index(rest, pos);
        assert(chunks == seq![chunks[0]] + rest);
        lemma_occurrences_concat(seq![chunks[0]], rest, pos);
        assert(seq![chunks[0]] == Seq::<Chunk>::empty().push(chunks[0]));
        lemma_occurrences_push(Seq::<Chunk>::empty(), chunks[0], pos);
        assert(occurrences(seq![chunks[0]], pos) == if chunks[0].pos() == pos {
            1nat
        } else {
            0nat
        });
        assert forall|i: int| 0 <= i < index_of(chunks, pos) implies (#[trigger] chunks[i]).pos()
            != pos by {
            if i > 0 {
                assert(chunks[i] == rest[i - 1]);
            }
        }
        if occurrences(chunks, pos) <= 1 {
            assert forall|i: int| 0 <= i < chunks.len() && (#[trigger] chunks[i]).pos()
                == pos implies i == index_of(chunks, pos) by {
                if i > 0 {
                    assert(chunks[i] == rest[i - 1]);
                }
            }
        }
    }
}

/// The chunks of a manager, stage by stage, each stage oldest first.
pub struct Buckets {
    /// Built chunks: the ones that are drawn and looked up.
    pub render_list: Seq<Chunk>,
    /// Chunks that wait for their terrain and their mesh.
    pub to_build: Seq<Chunk>,
    /// Chunks that wait to be admitted.
    pub to_load: Seq<Chunk>,
    /// Chunks that wait to be disposed of.
    pub to_unload: Seq<Chunk>,
}

impl Buckets {
    /// How many chunks, over all stages, stand at grid coordinate `pos`.
    pub open spec fn count(self, pos: ChunkPos) -> nat {
        occurrences(self.render_list, pos) + occurrences(self.to_build, pos) + occurrences(
            self.to_load,
            pos,
        ) + occurrences(self.to_unload, pos)
    }

    /// Whether a chunk at grid coordinate `pos` is built or waits to be
    /// admitted: such a chunk turns away another that is offered at `pos`.
    pub open spec fn holds(self, pos: ChunkPos) -> bool {
        occurrences(self.render_list, pos) > 0 || occurrences(self.to_load, pos) > 0
    }

    /// Every chunk is well formed, and no coordinate stands in two places.
    pub open spec fn wf(self) -> bool {
        &&& forall|i: int| 0 <= i < self.render_list.len() ==> (#[trigger] self.render_list[i]).wf()
        &&& forall|i: int| 0 <= i < self.to_build.len() ==> (#[trigger] self.to_build[i]).wf()
        &&& forall|i: int| 0 <= i < self.to_load.len() ==> (#[trigger] self.to_load[i]).wf()
        &&& forall|i: int| 0 <= i < self.to_unload.len() ==> (#[trigger] self.to_unload[i]).wf()
        &&& forall|pos: ChunkPos| #[trigger] self.count(pos) <= 1
    }

    /// The stages as they are between two ticks: well formed, with nothing
    /// left to build, since a tick builds what it admits, and nothing to
    /// dispose of.
    pub open spec fn settled(self) -> bool {
        &&& self.wf()
        &&& self.to_build.len() == 0
        &&& self.to_unload.len() == 0
    }

    /// The stages after `chunk` is offered, and whether it was taken: a
    /// chunk is turned away where a built chunk, or one that waits to be
    /// admitted, stands at its coordinate; any other goes to the end of the
    /// load stage.
    pub open spec fn add_chunk(self, chunk: Chunk) -> (Buckets, bool) {
        if self.holds(chunk.pos()) {
            (self, false)
        } else {
            (Buckets { to_load: self.to_load.push(chunk), ..self }, true)
        }
    }

    /// The stages after the oldest chunks of the load stage, two at most,
    /// have moved to the end of the build stage.
    pub open spec fn load_chunks(self) -> Buckets {
        let moved = per_tick(self.to_load.len());
        Buckets {
            to_load: self.to_load.skip(moved),
            to_build: self.to_build + self.to_load.take(moved),
            ..self
        }
    }

    /// Between ticks, a chunk that is offered is held afterwards, once,
    /// whether it was taken or turned away; no other coordinate gains or
    /// loses a chunk.
    pub proof fn lemma_add_chunk_holds(self, chunk: Chunk)
        requires
            self.settled(),
            chunk.wf(),
        ensures
            self.add_chunk(chunk).0.settled(),
            self.add_chunk(chunk).0.holds(chunk.pos()),
            self.add_chunk(chunk).0.count(chunk.pos()) == 1,
            forall|pos: ChunkPos|
                pos != chunk.pos() ==> self.add_chunk(chunk).0.count(pos) == self.count(pos),
    {
        let after = self.add_chunk(chunk).0;
        assert(self.to_build =~= Seq::<Chunk>::empty());
        assert(self.to_unload =~= Seq::<Chunk>::empty());
        assert(self.count(chunk.pos()) <= 1);
        assert forall|pos: ChunkPos| #[trigger] after.count(pos) <= 1 && (pos != chunk.pos()
            ==> after.count(pos) == self.count(pos)) by {
            lemma_occurrences_push(self.to_load, chunk, pos);
            assert(self.count(pos) <= 1);
        }
        lemma_occurrences_push(self.to_load, chunk, chunk.pos());
        if !self.holds(chunk.pos()) {
            assert forall|i: int| 0 <= i < after.to_load.len() implies (
            #[trigger] after.to_load[i]).wf() by {
                if i < self.to_load.len() {
                    assert(self.to_load[i].wf());
                }
            }
        }
    }

    /// Offering the same coordinate twice leaves one chunk at it: the
    /// second offer is turned away and changes nothing.
    pub proof fn lemma_add_chunk_twice(self, first: Chunk, second: Chunk)
        requires
            self.settled(),
            first.wf(),
            second.pos() == first.pos(),
        ensures
            self.add_chunk(first).0.add_chunk(second) == (self.add_chunk(first).0, false),
            self.add_chunk(first).0.count(first.pos()) == 1,
    {
        self.lemma_add_chunk_holds(first);
    }

    /// Admitting chunks moves them and neither makes nor loses one: the
    /// load stage shrinks by two chunks, or by all it has if these are
    /// fewer, and the build stage grows by as many.
    pub proof fn lemma_load_chunks_keeps(self, pos: ChunkPos)
        ensures
            self.load_chunks().count(pos) == self.count(pos),
            self.load_chunks().to_load.len() == self.to_load.len() - per_tick(self.to_load.len()),
            self.load_chunks().to_build.len() == self.to_build.len() + per_tick(
                self.to_load.len(),
            ),
            self.load_chunks().render_list == self.render_list,
    {
        let moved = per_tick(self.to_load.len());
        lemma_occurrences_split(self.to_load, moved, pos);
        lemma_occurrences_concat(self.to_build, self.to_load.take(moved), pos);
    }

    /// Admitting chunks keeps the stages well formed.
    pub proof fn lemma_load_chunks_wf(self)
        requires
            self.wf(),
        ensures
            self.load_chunks().wf(),
    {
        let after = self.load_chunks();
        let moved = per_tick(self.to_load.len());
        assert forall|pos: ChunkPos| #[trigger] after.count(pos) <= 1 by {
            self.lemma_load_chunks_keeps(pos);
            assert(self.count(pos) <= 1);
        }
        assert forall|i: int| 0 <= i < after.to_load.len() implies (
        #[trigger] after.to_load[i]).wf() by {
            assert(self.to_load[i + moved].wf());
        }
        assert forall|i: int| 0 <= i < after.to_build.len() implies (
        #[trigger] after.to_build[i]).wf() by {
            if i < self.to_build.len() {
                assert(self.to_build[i].wf());
            } else {
                assert(self.to_load[i - self.to_build.len()].wf());
            }
        }
    }

    /// A built chunk that is changed in place, and is still well formed and
    /// at its coordinate, leaves the stages as they are between ticks.
    pub proof fn lemma_replace_keeps_wf(self, at: int, chunk: Chunk)
        requires
            self.settled(),
            0 <= at < self.render_list.len(),
            chunk.wf(),
            chunk.pos() == self.render_list[at].pos(),
        ensures
            (Buckets { render_list: self.render_list.update(at, chunk), ..self }).settled(),
    {
        let after = Buckets { render_list: self.render_list.update(at, chunk), ..self };
        assert forall|pos: ChunkPos| #[trigger] after.count(pos) <= 1 by {
            lemma_same_positions(after.render_list, self.render_list, pos);
            assert(self.count(pos) <= 1);
        }
        assert forall|i: int| 0 <= i < after.render_list.len() implies (
        #[trigger] after.render_list[i]).wf() by {
            if i != at {
                assert(self.render_list[i].wf());
            }
        }
    }
}

/// Whether `after` is `before` built: with its terrain put in from
/// `height_map` if it was never built, and with mesh and collision boxes
/// made from its blocks.
pub open spec fn built(before: Chunk, after: Chunk, registry: &Registry, height_map: Seq<i32>)
    -> bool {
    let cells = after.data().cells().len() as int;
    &&& after.wf()
    &&& after.pos() == before.pos()
    &&& after.data().cells() == if before.first_build() {
        terrain_cells(before.data().cells(), registry, before.pos().y, height_map)
    } else {
        before.data().cells()
    }
    &&& after.data().air_count() == if before.first_build() {
        air_after_blocks(
            before.data().air_count(),
            terrain_count(
                registry,
                before.pos().y,
                height_map,
                before.data().cells().len() as int,
            ),
        )
    } else {
        before.data().air_count()
    }
    &&& !after.first_build()
    &&& !after.dirty()
    &&& after.vertices() == after.data().mesh_vertices(registry, cells)
    &&& after.indices() == quad_indices(after.data().shown_faces(registry, cells))
    &&& after.colliders() == after.data().collision_boxes()
}

/// Owner of every chunk of a world. A chunk goes through the stages in one
/// direction: offered, it waits to be loaded, then to be built, and is then
/// kept for drawing and for lookup.
pub struct ChunkManager {
    chunk_render_list: Vec<Chunk>,
    chunks_to_build: Vec<Chunk>,
    chunks_to_load: Vec<Chunk>,
    chunks_to_unload: Vec<Chunk>,
}

impl View for ChunkManager {
    type V = Buckets;

    closed spec fn view(&self) -> Buckets {
        Buckets {
            render_list: self.chunk_render_list@,
            to_build: self.chunks_to_build@,
            to_load: self.chunks_to_load@,
            to_unload: self.chunks_to_unload@,
        }
    }
}

/// Whether `chunks` holds a chunk at grid coordinate `pos`.
fn holds_pos(chunks: &Vec<Chunk>, pos: ChunkPos) -> (held: bool)
    ensures
        held == (occurrences(chunks@, pos) > 0),
{
    let mut i: usize = 0;
    while i < chunks.len()
        invariant
            i <= chunks.len(),
            forall|j: int| 0 <= j < i ==> (#[trigger] chunks@[j]).pos() != pos,
        decreases chunks.len() - i,
    {
        if chunks[i].get_pos() == pos {
            proof {
                lemma_occurrences_index(chunks@, pos);
            }
            return true;
        }
        i += 1;
    }
    proof {
        lemma_occurrences_index(chunks@, pos);
    }
    false
}

impl ChunkManager {
    /// What holds of a manager between two calls: every chunk is well
    /// formed, no coordinate stands in two places, and nothing is left in
    /// the build stage or in the unload stage.
    pub open spec fn wf(&self) -> bool {
        self@.settled()
    }

    /// A manager without chunks.
    pub fn new() -> (manager: Self)
        ensures
            manager.wf(),
            manager@.render_list == Seq::<Chunk>::empty(),
            manager@.to_build == Seq::<Chunk>::empty(),
            manager@.to_load == Seq::<Chunk>::empty(),
            manager@.to_unload == Seq::<Chunk>::empty(),
    {
        Self {
            chunk_render_list: Vec::new(),
            chunks_to_build: Vec::new(),
            chunks_to_load: Vec::new(),
            chunks_to_unload: Vec::new(),
        }
    }

    /// The built chunks, oldest first.
    pub fn get_renderable_chunks(&self) -> (chunks: &Vec<Chunk>)
        ensures
            chunks@ == self@.render_list,
    {
        &self.chunk_render_list
    }

    /// How many chunks wait to be admitted.
    pub fn chunks_to_load_count(&self) -> (count: usize)
        ensures
            count == self@.to_load.len(),
    {
        self.chunks_to_load.len()
    }

    /// How many chunks wait to be built.
    pub fn chunks_to_build_count(&self) -> (count: usize)
        ensures
            count == self@.to_build.len(),
    {
        self.chunks_to_build.len()
    }

    /// How many chunks wait to be disposed of.
    pub fn chunks_to_unload_count(&self) -> (count: usize)
        ensures
            count == self@.to_unload.len(),
    {
        self.chunks_to_unload.len()
    }

    /// Grid coordinate of the chunk that holds the world coordinate `world_pos`.
    pub fn world_to_chunk_coords(&self, world_pos: &BlockPos) -> (pos: ChunkPos)
        ensures
            pos.x == spec_world_to_chunk(world_pos.x),
            pos.y == spec_world_to_chunk(world_pos.y),
            pos.z == spec_world_to_chunk(world_pos.z),
    {
        ChunkPos::new(
            world_to_chunk(world_pos.x),
            world_to_chunk(world_pos.y),
            world_to_chunk(world_pos.z),
        )
    }

    /// Whether a chunk at grid coordinate `pos` is built or waits to be admitted.
    pub fn holds(&self, pos: ChunkPos) -> (held: bool)
        ensures
            held == self@.holds(pos),
    {
        holds_pos(&self.chunk_render_list, pos) || holds_pos(&self.chunks_to_load, pos)
    }

    /// Offers `new_chunk`: it is taken, into the load stage, unless a built
    /// chunk, or one that waits to be admitted, stands at its coordinate.
    pub fn add_chunk(&mut self, new_chunk: Chunk) -> (added: bool)
        requires
            old(self).wf(),
            new_chunk.wf(),
        ensures
            final(self).wf(),
            (final(self)@, added) == old(self)@.add_chunk(new_chunk),
    {
        if self.holds(new_chunk.get_pos()) {
            return false;
        }
        self.chunks_to_load.push(new_chunk);
        proof {
            old(self)@.lemma_add_chunk_holds(new_chunk);
        }
        true
    }

    /// The built chunk at grid coordinate `chunk_pos`. Chunks that are not
    /// built yet are not found.
    pub fn get_chunk(&self, chunk_pos: ChunkPos) -> (chunk: Option<&Chunk>)
        ensures
            match chunk {
                Some(found) => index_of(self@.render_list, chunk_pos) < self@.render_list.len()
                    && *found == self@.render_list[index_of(self@.render_list, chunk_pos)],
                None => index_of(self@.render_list, chunk_pos) == self@.render_list.len(),
            },
            chunk matches Some(found) ==> found.pos() == chunk_pos,
            chunk.is_none() <==> occurrences(self@.render_list, chunk_pos) == 0,
    {
        let ghost at = index_of(self@.render_list, chunk_pos);
        proof {
            lemma_occurrences_index(self@.render_list, chunk_pos);
        }
        let mut i: usize = 0;
        while i < self.chunk_render_list.len()
            invariant
                i <= self.chunk_render_list.len(),
                at == index_of(self@.render_list, chunk_pos),
                i <= at <= self@.render_list.len(),
                at < self@.render_list.len() ==> self@.render_list[at].pos() == chunk_pos,
                forall|j: int| 0 <= j < at ==> (#[trigger] self@.render_list[j]).pos() != chunk_pos,
                occurrences(self@.render_list, chunk_pos) == 0 <==> at == self@.render_list.len(),
            decreases self.chunk_render_list.len() - i,
        {
            if self.chunk_render_list[i].get_pos() == chunk_pos {
                assert(self@.render_list[i as int].pos() == chunk_pos);
                return Some(&self.chunk_render_list[i]);
            }
            i += 1;
        }
        None
    }

    /// The built chunk at grid coordinate `chunk_pos`, to be changed in
    /// place. The manager holds afterwards what the caller made of it.
    pub fn get_chunk_mut(&mut self, chunk_pos: ChunkPos) -> (chunk: Option<&mut Chunk>)
        ensures
            final(self)@.to_build == old(self)@.to_build,
            final(self)@.to_load == old(self)@.to_load,
            final(self)@.to_unload == old(self)@.to_unload,
            match chunk {
                Some(found) => {
                    let at = index_of(old(self)@.render_list, chunk_pos);
                    &&& at < old(self)@.render_list.len()
                    &&& *found == old(self)@.render_list[at]
                    &&& found.pos() == chunk_pos
                    &&& final(self)@.render_list == old(self)@.render_list.update(at, *final(found))
                },
                None => {
                    &&& index_of(old(self)@.render_list, chunk_pos) == old(self)@.render_list.len()
                    &&& final(self)@.render_list == old(self)@.render_list
                },
            },
    {
        let ghost at = index_of(self@.render_list, chunk_pos);
        proof {
            lemma_occurrences_index(self@.render_list, chunk_pos);
        }
        let mut i: usize = 0;
        while i < self.chunk_render_list.len()
            invariant
                *self == *old(self),
                i <= self.chunk_render_list.len(),
                at == index_of(self@.render_list, chunk_pos),
                i <= at <= self@.render_list.len(),
                at < self@.render_list.len() ==> self@.render_list[at].pos() == chunk_pos,
                forall|j: int| 0 <= j < at ==> (#[trigger] self@.render_list[j]).pos() != chunk_pos,
            decreases self.chunk_render_list.len() - i,
        {
            if self.chunk_render_list[i].get_pos() == chunk_pos {
                assert(self@.render_list[i as int].pos() == chunk_pos);
                return Some(&mut self.chunk_render_list[i]);
            }
            i += 1;
        }
        None
    }

    /// The built chunk that holds the world coordinate `world_pos`.
    pub fn get_chunk_from_world(&self, world_pos: &BlockPos) -> (chunk: Option<&Chunk>)
        ensures
            ({
                let chunk_pos = ChunkPos {
                    x: spec_world_to_chunk(world_pos.x),
                    y: spec_world_to_chunk(world_pos.y),
                    z: spec_world_to_chunk(world_pos.z),
                };
                &&& match chunk {
                    Some(found) => index_of(self@.render_list, chunk_pos) < self@.render_list.len()
                        && *found == self@.render_list[index_of(self@.render_list, chunk_pos)],
                    None => index_of(self@.render_list, chunk_pos) == self@.render_list.len(),
                }
                &&& chunk matches Some(found) ==> found.pos() == chunk_pos
                &&& chunk.is_none() <==> occurrences(self@.render_list, chunk_pos) == 0
            }),
    {
        let pos = self.world_to_chunk_coords(world_pos);
        self.get_chunk(pos)
    }

    /// The built chunk that holds the world coordinate `world_pos`, to be
    /// changed in place.
    pub fn get_chunk_from_world_mut(&mut self, world_pos: &BlockPos) -> (chunk: Option<&mut Chunk>)
        ensures
            final(self)@.to_build == old(self)@.to_build,
            final(self)@.to_load == old(self)@.to_load,
            final(self)@.to_unload == old(self)@.to_unload,
            ({
                let chunk_pos = ChunkPos {
                    x: spec_world_to_chunk(world_pos.x),
                    y: spec_world_to_chunk(world_pos.y),
                    z: spec_world_to_chunk(world_pos.z),
                };
                let chunks = old(self)@.render_list;
                match chunk {
                    Some(found) => {
                        let at = index_of(chunks, chunk_pos);
                        &&& at < chunks.len()
                        &&& *found == chunks[at]
                        &&& found.pos() == chunk_pos
                        &&& final(self)@.render_list == chunks.update(at, *final(found))
                    },
                    None => {
                        &&& index_of(chunks, chunk_pos) == chunks.len()
                        &&& final(self)@.render_list == chunks
                    },
                }
            }),
    {
        let pos = self.world_to_chunk_coords(world_pos);
        self.get_chunk_mut(pos)
    }

    /// Admits the oldest chunks of the load stage, two at most, to the build stage.
    fn load_chunks(&mut self)
        requires
            old(self)@.wf(),
        ensures
            final(self)@.wf(),
            final(self)@ == old(self)@.load_chunks(),
    {
        let chunks_to_load = if self.chunks_to_load.len() < ASYNC_NUM_CHUNKS_PER_FRAME {
            self.chunks_to_load.len()
        } else {
            ASYNC_NUM_CHUNKS_PER_FRAME
        };
        let mut moved: usize = 0;
        while moved < chunks_to_load
            invariant
                moved <= chunks_to_load,
                chunks_to_load == per_tick(old(self)@.to_load.len()),
                self@.to_load == old(self)@.to_load.skip(moved as int),
                self@.to_build == old(self)@.to_build + old(self)@.to_load.take(moved as int),
                self@.render_list == old(self)@.render_list,
                self@.to_unload == old(self)@.to_unload,
            decreases chunks_to_load - moved,
        {
            let chunk = self.chunks_to_load.remove(0);
            self.chunks_to_build.push(chunk);
            assert(self@.to_load =~= old(self)@.to_load.skip(moved + 1));
            assert(self@.to_build =~= old(self)@.to_build + old(self)@.to_load.take(moved + 1));
            moved += 1;
        }
        proof {
            old(self)@.lemma_load_chunks_wf();
        }
    }

    /// Builds the oldest chunks of the build stage, two at most, and moves
    /// them to the built chunks: a chunk that was never built gets its
    /// terrain first, the first chunk from `height_maps[0]`, the second from
    /// `height_maps[1]`; each then gets its mesh and its collision boxes.
    fn build_chunks(&mut self, registry: &Registry, height_maps: &Vec<Vec<i32>>)
        requires
            old(self)@.wf(),
            height_maps@.len() >= per_tick(old(self)@.to_build.len()),
            forall|i: int|
                0 <= i < per_tick(old(self)@.to_build.len()) ==> (#[trigger] height_maps@[i])@.len()
                    >= COLUMN_COUNT,
        ensures
            final(self)@.wf(),
            forall|pos: ChunkPos| #[trigger] final(self)@.count(pos) == old(self)@.count(pos),
            final(self)@.to_load == old(self)@.to_load,
            final(self)@.to_unload == old(self)@.to_unload,
            final(self)@.to_build == old(self)@.to_build.skip(per_tick(old(self)@.to_build.len())),
            final(self)@.render_list.len() == old(self)@.render_list.len() + per_tick(
                old(self)@.to_build.len(),
            ),
            final(self)@.render_list.take(old(self)@.render_list.len() as int) == old(
                self,
            )@.render_list,
            forall|i: int|
                0 <= i < per_tick(old(self)@.to_build.len()) ==> built(
                    #[trigger] old(self)@.to_build[i],
                    final(self)@.render_list[old(self)@.render_list.len() + i],
                    registry,
                    height_maps@[i]@,
                ),
    {
        let length = if self.chunks_to_build.len() < ASYNC_NUM_CHUNKS_PER_FRAME {
            self.chunks_to_build.len()
        } else {
            ASYNC_NUM_CHUNKS_PER_FRAME
        };
        let ghost before = self@;
        let mut done: usize = 0;
        while done < length
            invariant
                done <= length,
                before == old(self)@,
                before.wf(),
                length == per_tick(before.to_build.len()),
                height_maps@.len() >= length,
                forall|i: int|
                    0 <= i < length ==> (#[trigger] height_maps@[i])@.len() >= COLUMN_COUNT,
                self@.to_load == before.to_load,
                self@.to_unload == before.to_unload,
                self@.to_build == before.to_build.skip(done as int),
                self@.render_list.len() == before.render_list.len() + done,
                self@.render_list.take(before.render_list.len() as int) == before.render_list,
                forall|i: int|
                    0 <= i < done ==> built(
                        #[trigger] before.to_build[i],
                        self@.render_list[before.render_list.len() + i],
                        registry,
                        height_maps@[i]@,
                    ),
            decreases length - done,
        {
            let ghost render_before = self@.render_list;
            let mut chunk = self.chunks_to_build.remove(0);
            assert(chunk == before.to_build[done as int]);
            assert(chunk.wf());
            if chunk.is_first_build() {
                gen_smooth_terrain(&mut chunk, registry, &height_maps[done]);
            }
            chunk.build_mesh(registry);
            self.chunk_render_list.push(chunk);
            proof {
                assert(self@.to_build =~= before.to_build.skip(done + 1));
                assert(self@.render_list.take(before.render_list.len() as int)
                    =~= render_before.take(before.render_list.len() as int));
                assert forall|i: int| 0 <= i < done + 1 implies built(
                    #[trigger] before.to_build[i],
                    self@.render_list[before.render_list.len() + i],
                    registry,
                    height_maps@[i]@,
                ) by {
                    if i < done {
                        assert(self@.render_list[before.render_list.len() + i]
                            == render_before[before.render_list.len() + i]);
                    }
                }
            }
            done += 1;
        }
        proof {
            let after = self@;
            assert forall|i: int| 0 <= i < after.render_list.len() implies (
            #[trigger] after.render_list[i]).wf() by {
                if i < before.render_list.len() {
                    assert(after.render_list[i] == after.render_list.take(
                        before.render_list.len() as int,
                    )[i]);
                    assert(before.render_list[i].wf());
                } else {
                    let k = i - before.render_list.len();
                    assert(built(
                        before.to_build[k],
                        after.render_list[before.render_list.len() + k],
                        registry,
                        height_maps@[k]@,
                    ));
                }
            }
            assert forall|i: int| 0 <= i < after.to_build.len() implies (
            #[trigger] after.to_build[i]).wf() by {
                assert(before.to_build[i + done].wf());
            }
            let moved = after.render_list.skip(before.render_list.len() as int);
            assert(after.render_list =~= before.render_list + moved);
            assert forall|pos: ChunkPos| #[trigger] after.count(pos) == before.count(pos) by {
                lemma_occurrences_split(before.to_build, done as int, pos);
                lemma_occurrences_concat(before.render_list, moved, pos);
                lemma_same_positions(moved, before.to_build.take(done as int), pos);
            }
            assert forall|pos: ChunkPos| #[trigger] after.count(pos) <= 1 by {
                assert(before.count(pos) <= 1);
            }
        }
    }

    /// One tick: admits the oldest chunks of the load stage, two at most,
    /// to the build stage, builds them, and moves them to the built chunks.
    /// A chunk that was never built gets its terrain first, the first chunk
    /// from `height_maps[0]`, the second from `height_maps[1]`; each then
    /// gets its mesh and its collision boxes. No chunk is made or lost.
    pub fn update(&mut self, registry: &Registry, height_maps: &Vec<Vec<i32>>)
        requires
            old(self).wf(),
            height_maps@.len() >= per_tick(old(self)@.to_load.len()),
            forall|i: int|
                0 <= i < per_tick(old(self)@.to_load.len()) ==> (#[trigger] height_maps@[i])@.len()
                    >= COLUMN_COUNT,
        ensures
            final(self).wf(),
            forall|pos: ChunkPos| #[trigger] final(self)@.count(pos) == old(self)@.count(pos),
            ({
                let before = old(self)@;
                let after = final(self)@;
                let count = per_tick(before.to_load.len());
                &&& after.to_load == before.to_load.skip(count)
                &&& after.render_list.len() == before.render_list.len() + count
                &&& after.render_list.take(before.render_list.len() as int) == before.render_list
                &&& forall|i: int|
                    0 <= i < count ==> built(
                        #[trigger] before.to_load[i],
                        after.render_list[before.render_list.len() + i],
                        registry,
                        height_maps@[i]@,
                    )
            }),
    {
        let ghost before = self@;
        proof {
            assert(before.to_build =~= Seq::<Chunk>::empty());
            assert forall|pos: ChunkPos|
                #[trigger] before.load_chunks().count(pos) == before.count(pos) by {
                before.lemma_load_chunks_keeps(pos);
            }
        }
        self.load_chunks();
        let ghost loaded = self@;
        proof {
            let count = per_tick(before.to_load.len());
            assert(loaded.to_build =~= before.to_load.take(count));
            assert(per_tick(loaded.to_build.len()) == count);
            assert forall|i: int| 0 <= i < count implies loaded.to_build[i]
                == before.to_load[i] by {}
        }
        self.build_chunks(registry, height_maps);
        proof {
            assert(self@.to_build =~= Seq::<Chunk>::empty());
            assert forall|pos: ChunkPos| #[trigger] self@.count(pos) == before.count(pos) by {
                assert(self@.count(pos) == loaded.count(pos));
                assert(before.load_chunks().count(pos) == before.count(pos));
            }
        }
    }

    /// Grid coordinates of the chunks that the next call of `update` builds,
    /// in the order in which it takes its height maps: those of the oldest
    /// chunks of the load stage, two at most.
    pub fn next_builds(&self) -> (queue: Vec<ChunkPos>)
        ensures
            queue@ == positions(self@.to_load.take(per_tick(self@.to_load.len()))),
    {
        let length = if self.chunks_to_load.len() < ASYNC_NUM_CHUNKS_PER_FRAME {
            self.chunks_to_load.len()
        } else {
            ASYNC_NUM_CHUNKS_PER_FRAME
        };
        let mut queue: Vec<ChunkPos> = Vec::new();
        let mut i: usize = 0;
        while i < length
            invariant
                i <= length,
                length == per_tick(self@.to_load.len()),
                queue@ == positions(self@.to_load.take(i as int)),
            decreases length - i,
        {
            queue.push(self.chunks_to_load[i].get_pos());
            assert(queue@ =~= positions(self@.to_load.take(i + 1)));
            i += 1;
        }
        queue
    }
}

/// Chunks with the same coordinates, place by place, hold each coordinate equally often.
proof fn lemma_same_positions(left: Seq<Chunk>, right: Seq<Chunk>, pos: ChunkPos)
    requires
        left.len() == right.len(),
        forall|i: int| 0 <= i < left.len() ==> (#[trigger] left[i]).pos() == right[i].pos(),
    ensures
        occurrences(left, pos) == occurrences(right, pos),
    decreases left.len(),
{
    if left.len() > 0 {
        assert forall|i: int| 0 <= i < left.drop_last().len() implies (
        #[trigger] left.drop_last()[i]).pos() == right.drop_last()[i].pos() by {
            assert(left[i].pos() == right[i].pos());
        }
        lemma_same_positions(left.drop_last(), right.drop_last(), pos);
    }
}

} // verus!
