use vstd::prelude::*;
use crate::block::{face_vertices, Block, Face, Vertex};
use crate::block_culling::{cull_neighbors, exposed, face_bit, has_face, CullCode};
use crate::chunk::{
    index_as_pos, lemma_pos_as_index_in_chunk, spec_index_as_pos, spec_local_to_world, ChunkData,
    CELL_COUNT,
};
use crate::registry::Registry;
use crate::vector::BlockPos;

verus! {

/// The faces of a block in the order in which their corners are emitted.
pub open spec fn emission_face(k: int) -> Face {
    if k == 0 {
        Face::Front
    } else if k == 1 {
        Face::Back
    } else if k == 2 {
        Face::Top
    } else if k == 3 {
        Face::Bottom
    } else if k == 4 {
        Face::Left
    } else {
        Face::Right
    }
}

/// The corner `v` of a block in the origin, moved to the block at world
/// coordinate `origin`. Positions are in half blocks.
pub open spec fn placed_vertex(v: Vertex, origin: BlockPos) -> Vertex {
    Vertex {
        position: (
            (2 * origin.x + v.position.0) as i64,
            (2 * origin.y + v.position.1) as i64,
            (2 * origin.z + v.position.2) as i64,
        ),
        tex_coords: v.tex_coords,
    }
}

/// The corners `verts` of a block in the origin, moved to the block at `origin`.
pub open spec fn placed_vertices(verts: Seq<Vertex>, origin: BlockPos) -> Seq<Vertex> {
    Seq::new(verts.len(), |i: int| placed_vertex(verts[i], origin))
}

/// Corner of the two triangles of a face that index `k` of its six names: 0, 1, 2, 2, 3, 0.
pub open spec fn quad_corner(k: int) -> int {
    if k == 0 || k == 5 {
        0
    } else if k == 1 {
        1
    } else if k == 2 || k == 3 {
        2
    } else {
        3
    }
}

/// The index list of `faces` faces whose corners stand four by four in the
/// vertex list: six indices a face, two triangles.
pub open spec fn quad_indices(faces: nat) -> Seq<u32> {
    Seq::new(6 * faces, |k: int| (4 * (k / 6) + quad_corner(k % 6)) as u32)
}

/// The four bytes of `x`, the lowest first.
pub open spec fn low_first(x: u32) -> Seq<u8> {
    seq![
        (x % 0x100) as u8,
        (x / 0x100 % 0x100) as u8,
        (x / 0x1_0000 % 0x100) as u8,
        (x / 0x100_0000) as u8,
    ]
}

/// The four bytes of `x`, the highest first.
pub open spec fn high_first(x: u32) -> Seq<u8> {
    seq![
        (x / 0x100_0000) as u8,
        (x / 0x1_0000 % 0x100) as u8,
        (x / 0x100 % 0x100) as u8,
        (x % 0x100) as u8,
    ]
}

/// Whether `bytes` holds `indices` one after the other, four bytes each:
/// the lowest byte first if `little`, the highest first if not.
pub open spec fn holds_indices(bytes: Seq<u8>, indices: Seq<u32>, little: bool) -> bool {
    &&& bytes.len() == 4 * indices.len()
    &&& forall|i: int|
        0 <= i < indices.len() ==> #[trigger] bytes.subrange(4 * i, 4 * i + 4) == if little {
            low_first(indices[i])
        } else {
            high_first(indices[i])
        }
}

/// `bytemuck::cast_slice`, from `u32` to `u8`: the memory of the indices,
/// seen as bytes. The slice has four bytes for each index, and these are
/// the bytes of the index in the byte order of the machine, which is one of
/// the two. A cast to bytes asks for no alignment and leaves no rest, so
/// the call does not panic.
#[verifier::external_body]
pub(crate) fn cast_indices(indices: &Vec<u32>) -> (bytes: &[u8])
    ensures
        holds_indices(bytes@, indices@, true) || holds_indices(bytes@, indices@, false),
{
    bytemuck::cast_slice(indices.as_slice())
}

impl ChunkData {
    /// World coordinate of the cell with storage index `index`.
    pub open spec fn cell_origin(&self, index: int) -> BlockPos {
        let at = spec_index_as_pos(index as usize);
        BlockPos {
            x: spec_local_to_world(self.pos().x, at.x),
            y: spec_local_to_world(self.pos().y, at.y),
            z: spec_local_to_world(self.pos().z, at.z),
        }
    }

    /// The block, as `registry` resolves it, in the cell with storage index `index`.
    pub open spec fn block_in(&self, registry: &Registry, index: int) -> Option<Block> {
        let at = spec_index_as_pos(index as usize);
        self.block_at(registry, at.x, at.y, at.z)
    }

    /// Whether `face` of the cell with storage index `index` holds a block and can be seen.
    pub open spec fn shows(&self, registry: &Registry, index: int, face: Face) -> bool {
        let at = spec_index_as_pos(index as usize);
        self.block_in(registry, index).is_some() && exposed(self, registry, at.x, at.y, at.z, face)
    }

    /// The corners that `face` of the cell with storage index `index` adds to
    /// the mesh: four if the face shows, none if not.
    pub open spec fn face_part(&self, registry: &Registry, index: int, face: Face) -> Seq<Vertex> {
        if self.shows(registry, index, face) {
            placed_vertices(
                face_vertices(face, self.block_in(registry, index).unwrap().texture(face)),
                self.cell_origin(index),
            )
        } else {
            Seq::empty()
        }
    }

    /// The corners that the first `faces` faces of the cell with storage index `index` add.
    pub open spec fn cell_vertices(&self, registry: &Registry, index: int, faces: int) -> Seq<
        Vertex,
    >
        decreases faces,
    {
        if faces <= 0 {
            Seq::empty()
        } else {
            self.cell_vertices(registry, index, faces - 1) + self.face_part(
                registry,
                index,
                emission_face(faces - 1),
            )
        }
    }

    /// The corners that the first `cells` cells add, in storage order.
    pub open spec fn mesh_vertices(&self, registry: &Registry, cells: int) -> Seq<Vertex>
        decreases cells,
    {
        if cells <= 0 {
            Seq::empty()
        } else {
            self.mesh_vertices(registry, cells - 1) + self.cell_vertices(registry, cells - 1, 6)
        }
    }

    /// How many of the first `faces` faces of the cell with storage index `index` show.
    pub open spec fn cell_faces(&self, registry: &Registry, index: int, faces: int) -> nat
        decreases faces,
    {
        if faces <= 0 {
            0
        } else {
            self.cell_faces(registry, index, faces - 1) + if self.shows(
                registry,
                index,
                emission_face(faces - 1),
            ) {
                1nat
            } else {
                0nat
            }
        }
    }

    /// How many faces of the first `cells` cells show.
    pub open spec fn shown_faces(&self, registry: &Registry, cells: int) -> nat
        decreases cells,
    {
        if cells <= 0 {
            0
        } else {
            self.shown_faces(registry, cells - 1) + self.cell_faces(registry, cells - 1, 6)
        }
    }

    /// A cell adds four corners for each of its faces that shows.
    pub proof fn lemma_cell_length(&self, registry: &Registry, index: int, faces: int)
        ensures
            self.cell_vertices(registry, index, faces).len() == 4 * self.cell_faces(
                registry,
                index,
                faces,
            ),
        decreases faces,
    {
        if faces > 0 {
            self.lemma_cell_length(registry, index, faces - 1);
        }
    }

    /// The mesh has four corners for each face that shows.
    pub proof fn lemma_mesh_length(&self, registry: &Registry, cells: int)
        ensures
            self.mesh_vertices(registry, cells).len() == 4 * self.shown_faces(registry, cells),
        decreases cells,
    {
        if cells > 0 {
            self.lemma_mesh_length(registry, cells - 1);
            self.lemma_cell_length(registry, cells - 1, 6);
        }
    }

    /// A chunk without blocks has no mesh.
    pub proof fn lemma_empty_mesh(&self, registry: &Registry, cells: int)
        requires
            forall|i: int| 0 <= i < self.cells().len() ==> self.cells()[i].is_none(),
        ensures
            self.mesh_vertices(registry, cells) == Seq::<Vertex>::empty(),
        decreases cells,
    {
        if cells > 0 {
            self.lemma_empty_mesh(registry, cells - 1);
            self.lemma_no_block_no_vertices(registry, cells - 1);
            assert(self.mesh_vertices(registry, cells) =~= Seq::<Vertex>::empty());
        }
    }

    /// A cell that holds a block, with every face to be seen, adds all six
    /// faces to the mesh: 24 corners.
    pub proof fn lemma_isolated_block(&self, registry: &Registry, index: int)
        requires
            self.block_in(registry, index).is_some(),
            forall|face: Face| self.shows(registry, index, face),
        ensures
            self.cell_vertices(registry, index, 6).len() == 24,
    {
        assert(self.cell_vertices(registry, index, 0).len() == 0);
        assert(self.shows(registry, index, emission_face(0)));
        assert(self.cell_vertices(registry, index, 1).len() == 4);
        assert(self.shows(registry, index, emission_face(1)));
        assert(self.cell_vertices(registry, index, 2).len() == 8);
        assert(self.shows(registry, index, emission_face(2)));
        assert(self.cell_vertices(registry, index, 3).len() == 12);
        assert(self.shows(registry, index, emission_face(3)));
        assert(self.cell_vertices(registry, index, 4).len() == 16);
        assert(self.shows(registry, index, emission_face(4)));
        assert(self.cell_vertices(registry, index, 5).len() == 20);
        assert(self.shows(registry, index, emission_face(5)));
    }

    /// The mesh of a chunk with one block, at the cell `(x, y, z)`, has the
    /// six faces of that block: 24 corners and 36 indices.
    pub proof fn lemma_single_block_mesh(&self, registry: &Registry, x: usize, y: usize, z: usize)
        requires
            self.cells().len() == CELL_COUNT,
            x < 16 && y < 16 && z < 16,
            self.block_at(registry, x, y, z).is_some(),
            forall|i: int|
                0 <= i < CELL_COUNT && i != x + 16 * y + 256 * z ==> self.cells()[i].is_none(),
        ensures
            self.mesh_vertices(registry, CELL_COUNT as int).len() == 24,
            quad_indices(self.shown_faces(registry, CELL_COUNT as int)).len() == 36,
    {
        let index = x + 16 * y + 256 * z;
        lemma_pos_as_index_in_chunk(x, y, z);
        assert(spec_index_as_pos(index as usize) == (crate::vector::LocalPos { x, y, z }));
        if x > 0 {
            self.lemma_no_neighbor(registry, index, (x - 1) as usize, y, z);
        }
        if x < 15 {
            self.lemma_no_neighbor(registry, index, (x + 1) as usize, y, z);
        }
        if y > 0 {
            self.lemma_no_neighbor(registry, index, x, (y - 1) as usize, z);
        }
        if y < 15 {
            self.lemma_no_neighbor(registry, index, x, (y + 1) as usize, z);
        }
        if z > 0 {
            self.lemma_no_neighbor(registry, index, x, y, (z - 1) as usize);
        }
        if z < 15 {
            self.lemma_no_neighbor(registry, index, x, y, (z + 1) as usize);
        }
        assert(exposed(self, registry, x, y, z, Face::Left));
        assert(exposed(self, registry, x, y, z, Face::Right));
        assert(exposed(self, registry, x, y, z, Face::Top));
        assert(exposed(self, registry, x, y, z, Face::Bottom));
        assert(exposed(self, registry, x, y, z, Face::Front));
        assert(exposed(self, registry, x, y, z, Face::Back));
        assert forall|face: Face| self.shows(registry, index, face) by {
            assert(exposed(self, registry, x, y, z, face));
        }
        self.lemma_isolated_block(registry, index);
        self.lemma_single_block_prefix(registry, index, CELL_COUNT as int);
        self.lemma_mesh_length(registry, CELL_COUNT as int);
    }

    /// Where one cell alone holds a block, any other cell of the chunk holds none.
    proof fn lemma_no_neighbor(&self, registry: &Registry, index: int, x: usize, y: usize, z: usize)
        requires
            self.cells().len() == CELL_COUNT,
            x < 16 && y < 16 && z < 16,
            index != x + 16 * y + 256 * z,
            forall|i: int| 0 <= i < CELL_COUNT && i != index ==> self.cells()[i].is_none(),
        ensures
            self.block_at(registry, x, y, z).is_none(),
    {
        lemma_pos_as_index_in_chunk(x, y, z);
    }

    /// Where one cell alone adds corners, the mesh of the first `cells` cells
    /// is what that cell adds if it is among them, and nothing if not.
    proof fn lemma_single_block_prefix(&self, registry: &Registry, index: int, cells: int)
        requires
            0 <= cells <= CELL_COUNT,
            0 <= index < CELL_COUNT,
            self.cells().len() == CELL_COUNT,
            forall|i: int| 0 <= i < CELL_COUNT && i != index ==> self.cells()[i].is_none(),
        ensures
            self.mesh_vertices(registry, cells) == if index < cells {
                self.cell_vertices(registry, index, 6)
            } else {
                Seq::<Vertex>::empty()
            },
        decreases cells,
    {
        if cells > 0 {
            self.lemma_single_block_prefix(registry, index, cells - 1);
            let last = cells - 1;
            if last != index {
                crate::chunk::lemma_cell_index_round_trip(last as usize);
                assert(self.block_in(registry, last).is_none());
                self.lemma_no_block_no_vertices(registry, last);
                assert(self.mesh_vertices(registry, cells) =~= self.mesh_vertices(
                    registry,
                    cells - 1,
                ));
            } else {
                assert(self.mesh_vertices(registry, cells) =~= self.cell_vertices(
                    registry,
                    index,
                    6,
                ));
            }
        }
    }

    /// The render mesh of the chunk: for every cell with a block, in storage
    /// order, the four corners of each face that shows, and for each such
    /// face six indices that make two triangles of its corners.
    pub fn build_mesh(&self, registry: &Registry) -> (mesh: (Vec<Vertex>, Vec<u32>))
        requires
            self.wf(),
        ensures
            mesh.0@ == self.mesh_vertices(registry, self.cells().len() as int),
            mesh.0@.len() == 4 * self.shown_faces(registry, self.cells().len() as int),
            mesh.1@ == quad_indices(self.shown_faces(registry, self.cells().len() as int)),
    {
        let mut vertices: Vec<Vertex> = Vec::new();
        let mut indicies: Vec<u32> = Vec::new();
        let cells = self.cell_count();
        proof {
            self.lemma_mesh_length(registry, cells as int);
        }
        if self.is_empty() {
            proof {
                self.lemma_empty_mesh(registry, cells as int);
                assert(indicies@ =~= quad_indices(0));
            }
            return (vertices, indicies);
        }
        let ghost mut faces: nat = 0;
        assert(indicies@ =~= quad_indices(0));
        let mut index: usize = 0;
        while index < cells
            invariant
                self.wf(),
                cells == self.cells().len(),
                cells == CELL_COUNT,
                index <= cells,
                vertices@ == self.mesh_vertices(registry, index as int),
                vertices@.len() == 4 * faces,
                faces <= 6 * index,
                indicies@ == quad_indices(faces),
            decreases cells - index,
        {
            let at = index_as_pos(index);
            proof {
                lemma_pos_as_index_in_chunk(at.x, at.y, at.z);
            }
            let ghost before = vertices@;
            let ghost faces_before = faces;
            assert(self.cell_vertices(registry, index as int, 0) == Seq::<Vertex>::empty());
            assert(vertices@ =~= before + self.cell_vertices(registry, index as int, 0));
            match self.get_cell(at.x, at.y, at.z) {
                Some(id) => match registry.find(id) {
                    Some(block) => {
                        let block_pos = self.local_to_world_pos(at.x, at.y, at.z);
                        let cull_code = cull_neighbors(self, registry, at.x, at.y, at.z);
                        let mut k: usize = 0;
                        while k < 6
                            invariant
                                k <= 6,
                                index < cells,
                                cells == CELL_COUNT,
                                at == spec_index_as_pos(index),
                                self.block_in(registry, index as int) == Some(*block),
                                block_pos == self.cell_origin(index as int),
                                forall|face: Face|
                                    has_face(cull_code, face) == exposed(
                                        self,
                                        registry,
                                        at.x,
                                        at.y,
                                        at.z,
                                        face,
                                    ),
                                vertices@ == before + self.cell_vertices(
                                    registry,
                                    index as int,
                                    k as int,
                                ),
                                vertices@.len() == 4 * faces,
                                faces_before <= faces <= faces_before + k,
                                faces_before <= 6 * index,
                                indicies@ == quad_indices(faces),
                            decreases 6 - k,
                        {
                            let face = face_in_order(k);
                            let ghost part = self.face_part(registry, index as int, face);
                            let ghost so_far = vertices@;
                            assert(has_face(cull_code, face) == self.shows(
                                registry,
                                index as int,
                                face,
                            ));
                            if cull_code & face_code(face) == face_code(face) {
                                let verts = block.get_vert(face);
                                Self::build_face(&mut vertices, &mut indicies, verts, &block_pos);
                                proof {
                                    faces = faces + 1;
                                }
                                assert(vertices@ == so_far + part);
                            } else {
                                assert(part =~= Seq::<Vertex>::empty());
                                assert(vertices@ == so_far);
                            }
                            assert(vertices@ =~= before + (self.cell_vertices(
                                registry,
                                index as int,
                                k as int,
                            ) + part));
                            k += 1;
                        }
                    },
                    None => {
                        proof {
                            self.lemma_no_block_no_vertices(registry, index as int);
                        }
                    },
                },
                None => {
                    proof {
                        self.lemma_no_block_no_vertices(registry, index as int);
                    }
                },
            }
            assert(vertices@ =~= before + self.cell_vertices(registry, index as int, 6));
            index += 1;
        }
        (vertices, indicies)
    }

    /// A cell without a block adds nothing to the mesh.
    proof fn lemma_no_block_no_vertices(&self, registry: &Registry, index: int)
        requires
            self.block_in(registry, index).is_none(),
        ensures
            self.cell_vertices(registry, index, 6) == Seq::<Vertex>::empty(),
    {
        assert(self.cell_vertices(registry, index, 0) == Seq::<Vertex>::empty());
        assert(self.cell_vertices(registry, index, 1) =~= Seq::<Vertex>::empty());
        assert(self.cell_vertices(registry, index, 2) =~= Seq::<Vertex>::empty());
        assert(self.cell_vertices(registry, index, 3) =~= Seq::<Vertex>::empty());
        assert(self.cell_vertices(registry, index, 4) =~= Seq::<Vertex>::empty());
        assert(self.cell_vertices(registry, index, 5) =~= Seq::<Vertex>::empty());
        assert(self.cell_vertices(registry, index, 6) =~= Seq::<Vertex>::empty());
    }

    /// Appends one face to a mesh: the corners `block_verts`, moved to the
    /// block at `block_position`, and the six indices of its two triangles.
    fn build_face(
        vertices: &mut Vec<Vertex>,
        indicies: &mut Vec<u32>,
        block_verts: Vec<Vertex>,
        block_position: &BlockPos,
    )
        requires
            block_verts@.len() == 4,
            old(vertices)@.len() == 4 * (old(indicies)@.len() / 6),
            old(indicies)@ == quad_indices((old(indicies)@.len() / 6) as nat),
            old(vertices)@.len() <= 0x1000_0000,
            -0x1000_0000_0000 <= block_position.x <= 0x1000_0000_0000,
            -0x1000_0000_0000 <= block_position.y <= 0x1000_0000_0000,
            -0x1000_0000_0000 <= block_position.z <= 0x1000_0000_0000,
            forall|i: int|
                0 <= i < 4 ==> {
                    &&& -1 <= (#[trigger] block_verts@[i]).position.0 <= 1
                    &&& -1 <= block_verts@[i].position.1 <= 1
                    &&& -1 <= block_verts@[i].position.2 <= 1
                },
        ensures
            final(vertices)@ == old(vertices)@ + placed_vertices(block_verts@, *block_position),
            final(indicies)@ == quad_indices((old(indicies)@.len() / 6 + 1) as nat),
    {
        let ghost faces = old(indicies)@.len() / 6;
        let index: u32 = vertices.len() as u32;
        let mut i: usize = 0;
        while i < 4
            invariant
                i <= 4,
                block_verts@.len() == 4,
                vertices@ == old(vertices)@ + placed_vertices(
                    block_verts@,
                    *block_position,
                ).subrange(0, i as int),
                -0x1000_0000_0000 <= block_position.x <= 0x1000_0000_0000,
                -0x1000_0000_0000 <= block_position.y <= 0x1000_0000_0000,
                -0x1000_0000_0000 <= block_position.z <= 0x1000_0000_0000,
                forall|i: int|
                    0 <= i < 4 ==> {
                        &&& -1 <= (#[trigger] block_verts@[i]).position.0 <= 1
                        &&& -1 <= block_verts@[i].position.1 <= 1
                        &&& -1 <= block_verts@[i].position.2 <= 1
                    },
            decreases 4 - i,
        {
            let vert = block_verts[i];
            let vert_pos = (
                2 * block_position.x + vert.position.0,
                2 * block_position.y + vert.position.1,
                2 * block_position.z + vert.position.2,
            );
            vertices.push(Vertex { position: vert_pos, tex_coords: vert.tex_coords });
            assert(vertices@ =~= old(vertices)@ + placed_vertices(
                block_verts@,
                *block_position,
            ).subrange(0, i + 1));
            i += 1;
        }
        assert(vertices@ =~= old(vertices)@ + placed_vertices(block_verts@, *block_position));
        indicies.push(index);
        indicies.push(index + 1);
        indicies.push(index + 2);
        indicies.push(index + 2);
        indicies.push(index + 3);
        indicies.push(index);
        proof {
            lemma_quad_indices_push(faces as nat);
            assert(indicies@ =~= old(indicies)@ + quad_of(faces as nat));
        }
    }
}

/// The six indices of face number `face`: two triangles of its four corners.
pub open spec fn quad_of(face: nat) -> Seq<u32> {
    seq![
        (4 * face) as u32,
        (4 * face + 1) as u32,
        (4 * face + 2) as u32,
        (4 * face + 2) as u32,
        (4 * face + 3) as u32,
        (4 * face) as u32,
    ]
}

/// The index list of one face more is the list with the six indices of that face behind it.
pub proof fn lemma_quad_indices_push(faces: nat)
    ensures
        quad_indices(faces + 1) == quad_indices(faces) + quad_of(faces),
{
    let more = quad_indices(faces + 1);
    let joined = quad_indices(faces) + quad_of(faces);
    assert(more.len() == joined.len());
    assert forall|k: int| 0 <= k < more.len() implies more[k] == joined[k] by {
        if k >= 6 * faces {
            let j = k - 6 * faces;
            assert(k / 6 == faces && k % 6 == j);
            assert(joined[k] == quad_of(faces)[j]);
        }
    }
    assert(more =~= joined);
}

/// Face number `k` in the order of emission.
fn face_in_order(k: usize) -> (face: Face)
    requires
        k < 6,
    ensures
        face == emission_face(k as int),
{
    if k == 0 {
        Face::Front
    } else if k == 1 {
        Face::Back
    } else if k == 2 {
        Face::Top
    } else if k == 3 {
        Face::Bottom
    } else if k == 4 {
        Face::Left
    } else {
        Face::Right
    }
}

/// The bit that stands for `face` in a mask of faces.
fn face_code(face: Face) -> (bit: u8)
    ensures
        bit == face_bit(face),
{
    match face {
        Face::Front => CullCode::F.bits(),
        Face::Back => CullCode::B.bits(),
        Face::Left => CullCode::L.bits(),
        Face::Right => CullCode::R.bits(),
        Face::Top => CullCode::U.bits(),
        Face::Bottom => CullCode::D.bits(),
    }
}

} // verus!
