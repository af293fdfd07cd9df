use vstd::prelude::*;
use crate::chunk::{spec_world_to_chunk, Chunk};
use crate::chunk_manager::{
    index_of, lemma_occurrences_index, lemma_occurrences_push, lemma_occurrences_split,
    occurrences, per_tick, built, Buckets, ChunkManager,
};
use crate::generator::COLUMN_COUNT;
use crate::registry::Registry;
use crate::vector::{BlockPos, ChunkPos};

verus! {

pub const MAP_W: usize = 256;

pub const MAP_H: usize = 64;

/// The largest distance that makes a difference: no two grid coordinates
/// lie further apart on an axis.
pub const MAX_REACH: i64 = 0x1_0000_0000;

/// How far, in chunks, a render distance reaches on each axis.
pub open spec fn reach(render_distance: usize) -> int {
    if render_distance > MAX_REACH {
        MAX_REACH as int
    } else {
        render_distance as int
    }
}

/// Whether `pos` lies in the cube round `center`: on each axis from `reach`
/// chunks before it to `reach - 1` chunks behind it.
pub open spec fn in_reach(center: ChunkPos, reach: int, pos: ChunkPos) -> bool {
    &&& -reach <= pos.x - center.x < reach
    &&& -reach <= pos.y - center.y < reach
    &&& -reach <= pos.z - center.z < reach
}

/// Whether `a` comes before `b` where a cube is gone through: by `z`, then
/// `x`, then `y`.
pub open spec fn requested_before(a: ChunkPos, b: ChunkPos) -> bool {
    a.z < b.z || (a.z == b.z && (a.x < b.x || (a.x == b.x && a.y < b.y)))
}

/// Whether `pos` comes before the point at the offset `(dx, dy, dz)` from
/// `center` where a cube is gone through. The offset may lead out of the grid.
spec fn passed(center: ChunkPos, pos: ChunkPos, dx: int, dy: int, dz: int) -> bool {
    let (x, y, z) = (pos.x - center.x, pos.y - center.y, pos.z - center.z);
    z < dz || (z == dz && (x < dx || (x == dx && y < dy)))
}

/// The grid of chunks round an observer.
pub struct World {
    chunk_manager: ChunkManager,
    seed: u32,
    player_last_chunk: ChunkPos,
    render_distance: usize,
}

impl World {
    /// The manager that owns the chunks.
    pub closed spec fn manager(&self) -> ChunkManager {
        self.chunk_manager
    }

    /// The seed that the terrain of this world is made from.
    pub closed spec fn seed(&self) -> u32 {
        self.seed
    }

    /// The chunk that the observer was last seen in.
    pub closed spec fn last_chunk(&self) -> ChunkPos {
        self.player_last_chunk
    }

    /// How far from the observer chunks are asked for, in chunks.
    pub closed spec fn render_distance(&self) -> usize {
        self.render_distance
    }

    pub open spec fn wf(&self) -> bool {
        self.manager().wf()
    }

    /// Whether `self` is `before` after the chunks round `center` were
    /// asked for: every coordinate in reach that `before` did not hold has a
    /// fresh chunk at the end of the load stage, those chunks stand in the
    /// order in which the cube is gone through, and nothing else has changed.
    pub open spec fn requested_from(&self, before: Buckets, center: ChunkPos) -> bool {
        let after = self.manager()@;
        let added = after.to_load.skip(before.to_load.len() as int);
        &&& after.render_list == before.render_list
        &&& after.to_build == before.to_build
        &&& after.to_unload == before.to_unload
        &&& before.to_load.len() <= after.to_load.len()
        &&& after.to_load.take(before.to_load.len() as int) == before.to_load
        &&& forall|i: int| 0 <= i < added.len() ==> (#[trigger] added[i]).is_fresh(added[i].pos())
        &&& forall|i: int, j: int|
            0 <= i < j < added.len() ==> requested_before(
                (#[trigger] added[i]).pos(),
                (#[trigger] added[j]).pos(),
            )
        &&& forall|pos: ChunkPos|
            #[trigger] occurrences(added, pos) > 0 <==> in_reach(
                center,
                reach(self.render_distance()),
                pos,
            ) && !before.holds(pos)
    }

    /// A world without chunks, with the observer taken to be in the chunk at the origin.
    pub fn new(seed: u32, render_distance: usize) -> (world: Self)
        ensures
            world.wf(),
            world.seed() == seed,
            world.render_distance() == render_distance,
            world.last_chunk() == (ChunkPos { x: 0, y: 0, z: 0 }),
            world.manager()@.render_list == Seq::<Chunk>::empty(),
            world.manager()@.to_build == Seq::<Chunk>::empty(),
            world.manager()@.to_load == Seq::<Chunk>::empty(),
            world.manager()@.to_unload == Seq::<Chunk>::empty(),
    {
        Self {
            chunk_manager: ChunkManager::new(),
            seed,
            player_last_chunk: ChunkPos::new(0, 0, 0),
            render_distance,
        }
    }

    /// Takes note of the chunk that the observer at `player_pos` is in.
    /// If it is another chunk than the last time, every chunk in reach of it
    /// is asked for.
    pub fn create_or_destroy_chunks(&mut self, player_pos: &BlockPos)
        requires
            old(self).wf(),
        ensures
            final(self).wf(),
            final(self).seed() == old(self).seed(),
            final(self).render_distance() == old(self).render_distance(),
            final(self).last_chunk() == (ChunkPos {
                x: spec_world_to_chunk(player_pos.x),
                y: spec_world_to_chunk(player_pos.y),
                z: spec_world_to_chunk(player_pos.z),
            }),
            final(self).last_chunk() == old(self).last_chunk() ==> final(self).manager()@ == old(
                self,
            ).manager()@,
            final(self).last_chunk() != old(self).last_chunk() ==> final(self).requested_from(
                old(self).manager()@,
                final(self).last_chunk(),
            ),
    {
        let player_chunk = self.chunk_manager.world_to_chunk_coords(player_pos);
        if player_chunk != self.player_last_chunk {
            self.request_cube(player_chunk);
        }
        self.player_last_chunk = player_chunk;
    }

    /// Asks for every chunk in reach of `center`.
    fn request_cube(&mut self, center: ChunkPos)
        requires
            old(self).wf(),
        ensures
            final(self).wf(),
            final(self).seed() == old(self).seed(),
            final(self).render_distance() == old(self).render_distance(),
            final(self).last_chunk() == old(self).last_chunk(),
            final(self).requested_from(old(self).manager()@, center),
    {
        let dist_max: i64 = if self.render_distance as u64 > MAX_REACH as u64 {
            MAX_REACH
        } else {
            self.render_distance as i64
        };
        let dist_min: i64 = -dist_max;
        let ghost before = self.manager()@;
        let ghost first = before.to_load.len() as int;
        proof {
            assert(self.manager()@.to_load.skip(first) =~= Seq::<Chunk>::empty());
            assert(self.manager()@.to_load.take(first) =~= before.to_load);
        }
        let mut c_z: i64 = dist_min;
        while c_z < dist_max
            invariant
                dist_max == reach(self.render_distance()),
                dist_min == -dist_max,
                dist_min <= c_z <= dist_max,
                self.wf(),
                before == old(self).manager()@,
                before.wf(),
                first == before.to_load.len(),
                self.seed() == old(self).seed(),
                self.render_distance() == old(self).render_distance(),
                self.last_chunk() == old(self).last_chunk(),
                self.progress(before, center, dist_min as int, dist_min as int, c_z as int),
            decreases dist_max - c_z,
        {
            let mut c_x: i64 = dist_min;
            while c_x < dist_max
                invariant
                    dist_max == reach(self.render_distance()),
                    dist_min == -dist_max,
                    dist_min <= c_z < dist_max,
                    dist_min <= c_x <= dist_max,
                    self.wf(),
                    before == old(self).manager()@,
                    before.wf(),
                    first == before.to_load.len(),
                    self.seed() == old(self).seed(),
                    self.render_distance() == old(self).render_distance(),
                    self.last_chunk() == old(self).last_chunk(),
                    self.progress(before, center, c_x as int, dist_min as int, c_z as int),
                decreases dist_max - c_x,
            {
                let mut c_y: i64 = dist_min;
                while c_y < dist_max
                    invariant
                        dist_max == reach(self.render_distance()),
                        dist_min == -dist_max,
                        dist_min <= c_z < dist_max,
                        dist_min <= c_x < dist_max,
                        dist_min <= c_y <= dist_max,
                        self.wf(),
                        before == old(self).manager()@,
                        before.wf(),
                        first == before.to_load.len(),
                        self.seed() == old(self).seed(),
                        self.render_distance() == old(self).render_distance(),
                        self.last_chunk() == old(self).last_chunk(),
                        self.progress(before, center, c_x as int, c_y as int, c_z as int),
                    decreases dist_max - c_y,
                {
                    self.request(Ghost(before), center, c_x, c_y, c_z);
                    c_y += 1;
                }
                proof {
                    self.lemma_progress_row(before, center, c_x as int, c_z as int);
                }
                c_x += 1;
            }
            proof {
                self.lemma_progress_slab(before, center, c_z as int);
            }
            c_z += 1;
        }
        proof {
            self.lemma_progress_done(before, center);
        }
    }

    /// What holds while a cube round `center` is gone through, before the
    /// point at the offset `(dx, dy, dz)`: the chunks that came to the load
    /// stage are fresh, stand in the order of the cube, and are those of the
    /// coordinates in reach that were passed and that `before` did not hold.
    spec fn progress(&self, before: Buckets, center: ChunkPos, dx: int, dy: int, dz: int) -> bool {
        let after = self.manager()@;
        let added = after.to_load.skip(before.to_load.len() as int);
        &&& after.render_list == before.render_list
        &&& after.to_build == before.to_build
        &&& after.to_unload == before.to_unload
        &&& before.to_load.len() <= after.to_load.len()
        &&& after.to_load.take(before.to_load.len() as int) == before.to_load
        &&& forall|i: int| 0 <= i < added.len() ==> (#[trigger] added[i]).is_fresh(added[i].pos())
        &&& forall|i: int, j: int|
            0 <= i < j < added.len() ==> requested_before(
                (#[trigger] added[i]).pos(),
                (#[trigger] added[j]).pos(),
            )
        &&& forall|pos: ChunkPos|
            #[trigger] occurrences(added, pos) > 0 <==> in_reach(
                center,
                reach(self.render_distance()),
                pos,
            ) && !before.holds(pos) && passed(center, pos, dx, dy, dz)
    }

    /// The end of a column is the start of the next.
    proof fn lemma_progress_row(&self, before: Buckets, center: ChunkPos, dx: int, dz: int)
        requires
            self.progress(before, center, dx, reach(self.render_distance()), dz),
        ensures
            self.progress(before, center, dx + 1, -reach(self.render_distance()), dz),
    {
        let added = self.manager()@.to_load.skip(before.to_load.len() as int);
        let far = reach(self.render_distance());
        assert forall|pos: ChunkPos|
            #[trigger] occurrences(added, pos) > 0 <==> in_reach(center, far, pos) && !before.holds(
                pos,
            ) && passed(center, pos, dx + 1, -far, dz) by {
            assert(in_reach(center, far, pos) ==> (passed(center, pos, dx, far, dz) <==> passed(
                center,
                pos,
                dx + 1,
                -far,
                dz,
            )));
        }
    }

    /// The end of a slab is the start of the next.
    proof fn lemma_progress_slab(&self, before: Buckets, center: ChunkPos, dz: int)
        requires
            self.progress(
                before,
                center,
                reach(self.render_distance()),
                -reach(self.render_distance()),
                dz,
            ),
        ensures
            self.progress(
                before,
                center,
                -reach(self.render_distance()),
                -reach(self.render_distance()),
                dz + 1,
            ),
    {
        let added = self.manager()@.to_load.skip(before.to_load.len() as int);
        let far = reach(self.render_distance());
        assert forall|pos: ChunkPos|
            #[trigger] occurrences(added, pos) > 0 <==> in_reach(center, far, pos) && !before.holds(
                pos,
            ) && passed(center, pos, -far, -far, dz + 1) by {
            assert(in_reach(center, far, pos) ==> (passed(center, pos, far, -far, dz) <==> passed(
                center,
                pos,
                -far,
                -far,
                dz + 1,
            )));
        }
    }

    /// Behind the last slab every coordinate in reach has been passed.
    proof fn lemma_progress_done(&self, before: Buckets, center: ChunkPos)
        requires
            self.progress(
                before,
                center,
                -reach(self.render_distance()),
                -reach(self.render_distance()),
                reach(self.render_distance()),
            ),
        ensures
            self.requested_from(before, center),
    {
        let added = self.manager()@.to_load.skip(before.to_load.len() as int);
        let far = reach(self.render_distance());
        assert forall|pos: ChunkPos|
            #[trigger] occurrences(added, pos) > 0 <==> in_reach(center, far, pos) && !before.holds(
                pos,
            ) by {
            assert(in_reach(center, far, pos) ==> passed(center, pos, -far, -far, far));
        }
    }

    /// Asks for the chunk at the offset `(dx, dy, dz)` from `center`, if
    /// that is a coordinate of the grid.
    fn request(
        &mut self,
        Ghost(before): Ghost<Buckets>,
        center: ChunkPos,
        dx: i64,
        dy: i64,
        dz: i64,
    )
        requires
            old(self).wf(),
            -MAX_REACH <= dx < MAX_REACH,
            -MAX_REACH <= dy < MAX_REACH,
            -MAX_REACH <= dz < MAX_REACH,
            -reach(old(self).render_distance()) <= dx < reach(old(self).render_distance()),
            -reach(old(self).render_distance()) <= dy < reach(old(self).render_distance()),
            -reach(old(self).render_distance()) <= dz < reach(old(self).render_distance()),
            before.wf(),
            old(self).progress(before, center, dx as int, dy as int, dz as int),
        ensures
            final(self).wf(),
            final(self).seed() == old(self).seed(),
            final(self).render_distance() == old(self).render_distance(),
            final(self).last_chunk() == old(self).last_chunk(),
            final(self).progress(before, center, dx as int, dy + 1, dz as int),
    {
        let x = center.x as i64 + dx;
        let y = center.y as i64 + dy;
        let z = center.z as i64 + dz;
        let ghost first = before.to_load.len() as int;
        let ghost far = reach(self.render_distance());
        let ghost added_before = self.manager()@.to_load.skip(first);
        if i32::MIN as i64 <= x && x <= i32::MAX as i64 && i32::MIN as i64 <= y && y
            <= i32::MAX as i64 && i32::MIN as i64 <= z && z <= i32::MAX as i64 {
            let chunk_pos = ChunkPos::new(x as i32, y as i32, z as i32);
            let chunk = Chunk::new(chunk_pos);
            let ghost to_load_before = self.manager()@.to_load;
            proof {
                lemma_occurrences_split(to_load_before, first, chunk_pos);
                assert(!passed(center, chunk_pos, dx as int, dy as int, dz as int));
                assert(occurrences(added_before, chunk_pos) == 0);
                assert(to_load_before.take(first) == before.to_load);
            }
            let added = self.chunk_manager.add_chunk(chunk);
            proof {
                let after = self.manager()@;
                let added_after = after.to_load.skip(first);
                assert(added == !before.holds(chunk_pos));
                if added {
                    assert(after.to_load == to_load_before.push(chunk));
                    assert(added_after =~= added_before.push(chunk));
                    assert(after.to_load.take(first) =~= to_load_before.take(first));
                    assert forall|i: int, j: int|
                        0 <= i < j < added_after.len() implies requested_before(
                        (#[trigger] added_after[i]).pos(),
                        (#[trigger] added_after[j]).pos(),
                    ) by {
                        if j == added_before.len() {
                            let earlier = added_before[i].pos();
                            lemma_occurrences_index(added_before, earlier);
                            assert(occurrences(added_before, earlier) > 0);
                            assert(passed(center, earlier, dx as int, dy as int, dz as int));
                        } else {
                            assert(added_after[i] == added_before[i]);
                            assert(added_after[j] == added_before[j]);
                        }
                    }
                    assert forall|pos: ChunkPos|
                        #[trigger] occurrences(added_after, pos) > 0 <==> in_reach(
                            center,
                            far,
                            pos,
                        ) && !before.holds(pos) && passed(
                            center,
                            pos,
                            dx as int,
                            dy + 1,
                            dz as int,
                        ) by {
                        lemma_occurrences_push(added_before, chunk, pos);
                        assert(occurrences(added_before, pos) > 0 <==> in_reach(
                            center,
                            far,
                            pos,
                        ) && !before.holds(pos) && passed(
                            center,
                            pos,
                            dx as int,
                            dy as int,
                            dz as int,
                        ));
                    }
                } else {
                    assert forall|pos: ChunkPos|
                        #[trigger] occurrences(added_after, pos) > 0 <==> in_reach(
                            center,
                            far,
                            pos,
                        ) && !before.holds(pos) && passed(
                            center,
                            pos,
                            dx as int,
                            dy + 1,
                            dz as int,
                        ) by {
                        assert(occurrences(added_before, pos) > 0 <==> in_reach(
                            center,
                            far,
                            pos,
                        ) && !before.holds(pos) && passed(
                            center,
                            pos,
                            dx as int,
                            dy as int,
                            dz as int,
                        ));
                    }
                }
            }
        } else {
            proof {
                assert forall|pos: ChunkPos|
                    #[trigger] occurrences(added_before, pos) > 0 <==> in_reach(center, far, pos)
                        && !before.holds(pos) && passed(
                        center,
                        pos,
                        dx as int,
                        dy + 1,
                        dz as int,
                    ) by {
                    assert(occurrences(added_before, pos) > 0 <==> in_reach(center, far, pos)
                        && !before.holds(pos) && passed(
                        center,
                        pos,
                        dx as int,
                        dy as int,
                        dz as int,
                    ));
                }
            }
        }
    }

    /// One tick of the chunk manager: see `ChunkManager::update`.
    pub fn update(&mut self, registry: &Registry, height_maps: &Vec<Vec<i32>>)
        requires
            old(self).wf(),
            height_maps@.len() >= per_tick(old(self).manager()@.to_load.len()),
            forall|i: int|
                0 <= i < per_tick(old(self).manager()@.to_load.len()) ==> (
                #[trigger] height_maps@[i])@.len() >= COLUMN_COUNT,
        ensures
            final(self).wf(),
            final(self).seed() == old(self).seed(),
            final(self).render_distance() == old(self).render_distance(),
            final(self).last_chunk() == old(self).last_chunk(),
            forall|pos: ChunkPos|
                #[trigger] final(self).manager()@.count(pos) == old(self).manager()@.count(pos),
            ({
                let before = old(self).manager()@;
                let after = final(self).manager()@;
                let count = per_tick(before.to_load.len());
                &&& after.to_load == before.to_load.skip(count)
                &&& after.render_list.len() == before.render_list.len() + count
                &&& after.render_list.take(before.render_list.len() as int) == before.render_list
                &&& forall|i: int|
                    0 <= i < count ==> built(
                        #[trigger] before.to_load[i],
                        after.render_list[before.render_list.len() + i],
                        registry,
                        height_maps@[i]@,
                    )
            }),
    {
        self.chunk_manager.update(registry, height_maps);
    }

    /// Grid coordinates of the chunks that the next call of `update` builds,
    /// in the order in which it takes its height maps.
    pub fn next_builds(&self) -> (queue: Vec<ChunkPos>)
        ensures
            queue@ == crate::chunk_manager::positions(
                self.manager()@.to_load.take(per_tick(self.manager()@.to_load.len())),
            ),
    {
        self.chunk_manager.next_builds()
    }

    pub fn get_seed(&self) -> (seed: u32)
        ensures
            seed == self.seed(),
    {
        self.seed
    }

    pub fn get_render_distance(&self) -> (distance: usize)
        ensures
            distance == self.render_distance(),
    {
        self.render_distance
    }

    /// The manager that owns the chunks.
    pub fn get_chunk_manager(&self) -> (manager: &ChunkManager)
        ensures
            *manager == self.manager(),
    {
        &self.chunk_manager
    }

    /// The built chunks, oldest first.
    pub fn get_renderable_chunks(&self) -> (chunks: &Vec<Chunk>)
        ensures
            chunks@ == self.manager()@.render_list,
    {
        self.chunk_manager.get_renderable_chunks()
    }

    /// The built chunk at grid coordinate `chunk_pos`.
    pub fn get_chunk(&self, chunk_pos: ChunkPos) -> (chunk: Option<&Chunk>)
        ensures
            ({
                let chunks = self.manager()@.render_list;
                &&& match chunk {
                    Some(found) => index_of(chunks, chunk_pos) < chunks.len() && *found
                        == chunks[index_of(chunks, chunk_pos)],
                    None => index_of(chunks, chunk_pos) == chunks.len(),
                }
                &&& chunk matches Some(found) ==> found.pos() == chunk_pos
                &&& chunk.is_none() <==> occurrences(chunks, chunk_pos) == 0
            }),
    {
        self.chunk_manager.get_chunk(chunk_pos)
    }

    /// The built chunk that holds the world coordinate `world_pos`, to be
    /// changed in place.
    pub fn get_chunk_from_world_mut(&mut self, world_pos: &BlockPos) -> (chunk: Option<&mut Chunk>)
        ensures
            final(self).seed() == old(self).seed(),
            final(self).render_distance() == old(self).render_distance(),
            final(self).last_chunk() == old(self).last_chunk(),
            final(self).manager()@.to_build == old(self).manager()@.to_build,
            final(self).manager()@.to_load == old(self).manager()@.to_load,
            final(self).manager()@.to_unload == old(self).manager()@.to_unload,
            ({
                let chunk_pos = ChunkPos {
                    x: spec_world_to_chunk(world_pos.x),
                    y: spec_world_to_chunk(world_pos.y),
                    z: spec_world_to_chunk(world_pos.z),
                };
                let chunks = old(self).manager()@.render_list;
                match chunk {
                    Some(found) => {
                        let at = index_of(chunks, chunk_pos);
                        &&& at < chunks.len()
                        &&& *found == chunks[at]
                        &&& found.pos() == chunk_pos
                        &&& final(self).manager()@.render_list == chunks.update(at, *final(found))
                    },
                    None => {
                        &&& index_of(chunks, chunk_pos) == chunks.len()
                        &&& final(self).manager()@.render_list == chunks
                    },
                }
            }),
    {
        self.chunk_manager.get_chunk_from_world_mut(world_pos)
    }

    /// The built chunk that holds the world coordinate `world_pos`.
    pub fn get_chunk_from_world(&self, world_pos: &BlockPos) -> (chunk: Option<&Chunk>)
        ensures
            ({
                let chunk_pos = ChunkPos {
                    x: spec_world_to_chunk(world_pos.x),
                    y: spec_world_to_chunk(world_pos.y),
                    z: spec_world_to_chunk(world_pos.z),
                };
                let chunks = self.manager()@.render_list;
                &&& match chunk {
                    Some(found) => index_of(chunks, chunk_pos) < chunks.len() && *found
                        == chunks[index_of(chunks, chunk_pos)],
                    None => index_of(chunks, chunk_pos) == chunks.len(),
                }
                &&& chunk matches Some(found) ==> found.pos() == chunk_pos
                &&& chunk.is_none() <==> occurrences(chunks, chunk_pos) == 0
            }),
    {
        self.chunk_manager.get_chunk_from_world(world_pos)
    }
}

} // verus!
