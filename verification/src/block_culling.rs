use vstd::prelude::*;
use crate::block::Face;
use crate::chunk::{ChunkData, CHUNK_SIZE};
use crate::registry::Registry;

verus! {

/// A set of faces of a block, named by the letters of the faces in it:
/// `U` up, `D` down, `F` front, `B` back, `L` left, `R` right.
#[derive(Clone, Copy, Debug, PartialEq, Eq, Structural)]
pub enum CullCode {
    Default,
    F,
    B,
    L,
    R,
    LR,
    FB,
    FL,
    FR,
    BL,
    BR,
    FBL,
    FBR,
    FLR,
    BLR,
    FBLR,
    U,
    UF,
    UB,
    UL,
    UR,
    ULR,
    UFB,
    UFL,
    UFR,
    UBL,
    UBR,
    UFBL,
    UFBR,
    UFLR,
    UBLR,
    UFBLR,
    D,
    DF,
    DB,
    DL,
    DR,
    DLR,
    DFB,
    DFL,
    DFR,
    DBL,
    DBR,
    DFBL,
    DFBR,
    DFLR,
    DBLR,
    DFBLR,
    UD,
    UDF,
    UDB,
    UDL,
    UDR,
    UDLR,
    UDFB,
    UDFL,
    UDFR,
    UDBL,
    UDBR,
    UDFBL,
    UDFBR,
    UDFLR,
    UDBLR,
    UDFBLR,
}

impl CullCode {
    /// The set as a bit mask: front 1, back 2, left 4, right 8, up 16, down 32.
    pub open spec fn spec_bits(self) -> u8 {
        match self {
            CullCode::Default => 0,
            CullCode::F => 1,
            CullCode::B => 2,
            CullCode::L => 4,
            CullCode::R => 8,
            CullCode::LR => 12,
            CullCode::FB => 3,
            CullCode::FL => 5,
            CullCode::FR => 9,
            CullCode::BL => 6,
            CullCode::BR => 10,
            CullCode::FBL => 7,
            CullCode::FBR => 11,
            CullCode::FLR => 13,
            CullCode::BLR => 14,
            CullCode::FBLR => 15,
            CullCode::U => 16,
            CullCode::UF => 17,
            CullCode::UB => 18,
            CullCode::UL => 20,
            CullCode::UR => 24,
            CullCode::ULR => 28,
            CullCode::UFB => 19,
            CullCode::UFL => 21,
            CullCode::UFR => 25,
            CullCode::UBL => 22,
            CullCode::UBR => 26,
            CullCode::UFBL => 23,
            CullCode::UFBR => 27,
            CullCode::UFLR => 29,
            CullCode::UBLR => 30,
            CullCode::UFBLR => 31,
            CullCode::D => 32,
            CullCode::DF => 33,
            CullCode::DB => 34,
            CullCode::DL => 36,
            CullCode::DR => 40,
            CullCode::DLR => 44,
            CullCode::DFB => 35,
            CullCode::DFL => 37,
            CullCode::DFR => 41,
            CullCode::DBL => 38,
            CullCode::DBR => 42,
            CullCode::DFBL => 39,
            CullCode::DFBR => 43,
            CullCode::DFLR => 45,
            CullCode::DBLR => 46,
            CullCode::DFBLR => 47,
            CullCode::UD => 48,
            CullCode::UDF => 49,
            CullCode::UDB => 50,
            CullCode::UDL => 52,
            CullCode::UDR => 56,
            CullCode::UDLR => 60,
            CullCode::UDFB => 51,
            CullCode::UDFL => 53,
            CullCode::UDFR => 57,
            CullCode::UDBL => 54,
            CullCode::UDBR => 58,
            CullCode::UDFBL => 55,
            CullCode::UDFBR => 59,
            CullCode::UDFLR => 61,
            CullCode::UDBLR => 62,
            CullCode::UDFBLR => 63,
        }
    }

    #[verifier::when_used_as_spec(spec_bits)]
    pub fn bits(self) -> (mask: u8)
        ensures
            mask == self.spec_bits(),
    {
        match self {
            CullCode::Default => 0,
            CullCode::F => 1,
            CullCode::B => 2,
            CullCode::L => 4,
            CullCode::R => 8,
            CullCode::LR => 12,
            CullCode::FB => 3,
            CullCode::FL => 5,
            CullCode::FR => 9,
            CullCode::BL => 6,
            CullCode::BR => 10,
            CullCode::FBL => 7,
            CullCode::FBR => 11,
            CullCode::FLR => 13,
            CullCode::BLR => 14,
            CullCode::FBLR => 15,
            CullCode::U => 16,
            CullCode::UF => 17,
            CullCode::UB => 18,
            CullCode::UL => 20,
            CullCode::UR => 24,
            CullCode::ULR => 28,
            CullCode::UFB => 19,
            CullCode::UFL => 21,
            CullCode::UFR => 25,
            CullCode::UBL => 22,
            CullCode::UBR => 26,
            CullCode::UFBL => 23,
            CullCode::UFBR => 27,
            CullCode::UFLR => 29,
            CullCode::UBLR => 30,
            CullCode::UFBLR => 31,
            CullCode::D => 32,
            CullCode::DF => 33,
            CullCode::DB => 34,
            CullCode::DL => 36,
            CullCode::DR => 40,
            CullCode::DLR => 44,
            CullCode::DFB => 35,
            CullCode::DFL => 37,
            CullCode::DFR => 41,
            CullCode::DBL => 38,
            CullCode::DBR => 42,
            CullCode::DFBL => 39,
            CullCode::DFBR => 43,
            CullCode::DFLR => 45,
            CullCode::DBLR => 46,
            CullCode::DFBLR => 47,
            CullCode::UD => 48,
            CullCode::UDF => 49,
            CullCode::UDB => 50,
            CullCode::UDL => 52,
            CullCode::UDR => 56,
            CullCode::UDLR => 60,
            CullCode::UDFB => 51,
            CullCode::UDFL => 53,
            CullCode::UDFR => 57,
            CullCode::UDBL => 54,
            CullCode::UDBR => 58,
            CullCode::UDFBL => 55,
            CullCode::UDFBR => 59,
            CullCode::UDFLR => 61,
            CullCode::UDBLR => 62,
            CullCode::UDFBLR => 63,
        }
    }
}

/// The bit that stands for `face` in a mask of faces.
pub open spec fn face_bit(face: Face) -> u8 {
    match face {
        Face::Front => CullCode::F.spec_bits(),
        Face::Back => CullCode::B.spec_bits(),
        Face::Left => CullCode::L.spec_bits(),
        Face::Right => CullCode::R.spec_bits(),
        Face::Top => CullCode::U.spec_bits(),
        Face::Bottom => CullCode::D.spec_bits(),
    }
}

/// Whether `mask` holds `face`.
pub open spec fn has_face(mask: u8, face: Face) -> bool {
    mask & face_bit(face) == face_bit(face)
}

/// `bit` if `set`, and no bit if not.
pub open spec fn bit_if(set: bool, bit: u8) -> u8 {
    if set {
        bit
    } else {
        0
    }
}

/// The mask that holds exactly the faces given as `true`.
pub open spec fn face_mask(
    left: bool,
    back: bool,
    right: bool,
    front: bool,
    up: bool,
    down: bool,
) -> u8 {
    bit_if(left, 4) | bit_if(back, 2) | bit_if(right, 8) | bit_if(front, 1) | bit_if(up, 16)
        | bit_if(down, 32)
}

/// A mask holds the faces it was made of, and no bit besides.
pub proof fn lemma_face_mask(
    left: bool,
    back: bool,
    right: bool,
    front: bool,
    up: bool,
    down: bool,
)
    ensures
        has_face(face_mask(left, back, right, front, up, down), Face::Left) == left,
        has_face(face_mask(left, back, right, front, up, down), Face::Back) == back,
        has_face(face_mask(left, back, right, front, up, down), Face::Right) == right,
        has_face(face_mask(left, back, right, front, up, down), Face::Front) == front,
        has_face(face_mask(left, back, right, front, up, down), Face::Top) == up,
        has_face(face_mask(left, back, right, front, up, down), Face::Bottom) == down,
        face_mask(left, back, right, front, up, down) < 64,
{
    let l: u8 = bit_if(left, 4);
    let b: u8 = bit_if(back, 2);
    let r: u8 = bit_if(right, 8);
    let f: u8 = bit_if(front, 1);
    let u: u8 = bit_if(up, 16);
    let d: u8 = bit_if(down, 32);
    let mask = l | b | r | f | u | d;
    assert(((mask & 4 == 4) == (l == 4)) && ((mask & 2 == 2) == (b == 2)) && ((mask & 8 == 8) == (r
        == 8)) && ((mask & 1 == 1) == (f == 1)) && ((mask & 16 == 16) == (u == 16)) && ((mask & 32
        == 32) == (d == 32)) && mask < 64) by (bit_vector)
        requires
            mask == l | b | r | f | u | d,
            l == 4 || l == 0,
            b == 2 || b == 0,
            r == 8 || r == 0,
            f == 1 || f == 0,
            u == 16 || u == 0,
            d == 32 || d == 0,
    ;
}

/// Whether `face` of the cell `(x, y, z)` of `chunk` can be seen: the cell
/// next to it on that side lies outside the chunk or holds no block that
/// `registry` knows. Neighbouring chunks are not looked at.
pub open spec fn exposed(
    chunk: &ChunkData,
    registry: &Registry,
    x: usize,
    y: usize,
    z: usize,
    face: Face,
) -> bool {
    let last = CHUNK_SIZE - 1;
    match face {
        Face::Left => !(x > 0 && chunk.block_at(registry, (x - 1) as usize, y, z).is_some()),
        Face::Back => !(z > 0 && chunk.block_at(registry, x, y, (z - 1) as usize).is_some()),
        Face::Right => !(x < last && chunk.block_at(registry, (x + 1) as usize, y, z).is_some()),
        Face::Front => !(z < last && chunk.block_at(registry, x, y, (z + 1) as usize).is_some()),
        Face::Top => !(y < last && chunk.block_at(registry, x, (y + 1) as usize, z).is_some()),
        Face::Bottom => !(y > 0 && chunk.block_at(registry, x, (y - 1) as usize, z).is_some()),
    }
}

/// The mask of the faces of the cell `(x, y, z)` of `chunk` that can be seen.
pub open spec fn spec_cull_neighbors(
    chunk: &ChunkData,
    registry: &Registry,
    x: usize,
    y: usize,
    z: usize,
) -> u8 {
    face_mask(
        exposed(chunk, registry, x, y, z, Face::Left),
        exposed(chunk, registry, x, y, z, Face::Back),
        exposed(chunk, registry, x, y, z, Face::Right),
        exposed(chunk, registry, x, y, z, Face::Front),
        exposed(chunk, registry, x, y, z, Face::Top),
        exposed(chunk, registry, x, y, z, Face::Bottom),
    )
}

/// The mask of the faces of the cell `(x, y, z)` of `chunk` that can be seen.
pub fn cull_neighbors(
    chunk: &ChunkData,
    registry: &Registry,
    x: usize,
    y: usize,
    z: usize,
) -> (code: u8)
    ensures
        code == spec_cull_neighbors(chunk, registry, x, y, z),
        forall|face: Face| has_face(code, face) == exposed(chunk, registry, x, y, z, face),
        code < 64,
{
    let mut code: u8 = 0;
    assert(0u8 | 4u8 == 4u8 && 0u8 | 0u8 == 0u8) by (bit_vector);

    if x > 0 {
        code = if get_block_dirty(chunk, registry, x - 1, y, z) {
            code
        } else {
            code | CullCode::L.bits()
        }
    } else {
        code |= CullCode::L.bits();
    }

    if z > 0 {
        code = if get_block_dirty(chunk, registry, x, y, z - 1) {
            code
        } else {
            code | CullCode::B.bits()
        }
    } else {
        code |= CullCode::B.bits();
    }

    if x < CHUNK_SIZE - 1 {
        code = if get_block_dirty(chunk, registry, x + 1, y, z) {
            code
        } else {
            code | CullCode::R.bits()
        }
    } else {
        code |= CullCode::R.bits();
    }

    if z < CHUNK_SIZE - 1 {
        code = if get_block_dirty(chunk, registry, x, y, z + 1) {
            code
        } else {
            code | CullCode::F.bits()
        }
    } else {
        code |= CullCode::F.bits();
    }

    if y < CHUNK_SIZE - 1 {
        code = if get_block_dirty(chunk, registry, x, y + 1, z) {
            code
        } else {
            code | CullCode::U.bits()
        }
    } else {
        code |= CullCode::U.bits();
    }

    if y > 0 {
        code = if get_block_dirty(chunk, registry, x, y - 1, z) {
            code
        } else {
            code | CullCode::D.bits()
        }
    } else {
        code |= CullCode::D.bits();
    }

    proof {
        assert(forall|v: u8| #[trigger] (v | 0u8) == v) by (bit_vector);
        lemma_face_mask(
            exposed(chunk, registry, x, y, z, Face::Left),
            exposed(chunk, registry, x, y, z, Face::Back),
            exposed(chunk, registry, x, y, z, Face::Right),
            exposed(chunk, registry, x, y, z, Face::Front),
            exposed(chunk, registry, x, y, z, Face::Top),
            exposed(chunk, registry, x, y, z, Face::Bottom),
        );
    }
    code
}

/// Whether the cell `(x, y, z)` holds a block that `registry` knows.
fn get_block_dirty(
    chunk: &ChunkData,
    registry: &Registry,
    x: usize,
    y: usize,
    z: usize,
) -> (solid: bool)
    ensures
        solid == chunk.block_at(registry, x, y, z).is_some(),
{
    match chunk.get_cell(x, y, z) {
        Some(id) => registry.find(id).is_some(),
        None => false,
    }
}

} // verus!
