use vstd::prelude::*;
use crate::identifier::Identifier;

verus! {

/// Width and height of the texture atlas, in texels.
pub const TEX_ATLAS_SIZE: u64 = 512;

/// Width and height of the texture of one face, in texels.
pub const TEX_WIDTH_HEIGHT: u64 = 32;

/// One of the six faces of a block.
#[derive(Clone, Copy, Debug, PartialEq, Eq, Structural)]
pub enum Face {
    Front,
    Back,
    Top,
    Bottom,
    Left,
    Right,
}

/// A corner of a face. `position` is counted in half blocks, so that a block
/// at world coordinate `p` has its corners at `2 p - 1` and `2 p + 1`;
/// `tex_coords` is counted in texels of the atlas.
#[derive(Clone, Copy, Debug, PartialEq, Eq)]
pub struct Vertex {
    pub position: (i64, i64, i64),
    pub tex_coords: (u64, u64),
}

/// Rectangle of the atlas that a face shows, in texels.
#[derive(Clone, Copy, Debug, PartialEq, Eq, Structural)]
pub struct TextureCoords {
    pub bottom_left_x: u64,
    pub bottom_left_y: u64,
    pub top_right_x: u64,
    pub top_right_y: u64,
}

impl TextureCoords {
    /// The rectangle of one face's size whose first corner is `(x, y)`.
    pub open spec fn at(x: u32, y: u32) -> TextureCoords {
        TextureCoords {
            bottom_left_x: x as u64,
            bottom_left_y: y as u64,
            top_right_x: (x + TEX_WIDTH_HEIGHT) as u64,
            top_right_y: (y + TEX_WIDTH_HEIGHT) as u64,
        }
    }

    pub fn new(x: u32, y: u32) -> (coords: Self)
        ensures
            coords == Self::at(x, y),
    {
        Self {
            bottom_left_x: x as u64,
            bottom_left_y: y as u64,
            top_right_x: x as u64 + TEX_WIDTH_HEIGHT,
            top_right_y: y as u64 + TEX_WIDTH_HEIGHT,
        }
    }
}

/// Where corner `corner` of `face` lies from the middle of its block, in
/// half blocks. The corners go round the face counter-clockwise, seen from
/// outside.
pub open spec fn face_corner(face: Face, corner: int) -> (int, int, int) {
    match face {
        Face::Front => if corner == 0 {
            (-1, -1, 1)
        } else if corner == 1 {
            (1, -1, 1)
        } else if corner == 2 {
            (1, 1, 1)
        } else {
            (-1, 1, 1)
        },
        Face::Back => if corner == 0 {
            (-1, 1, -1)
        } else if corner == 1 {
            (1, 1, -1)
        } else if corner == 2 {
            (1, -1, -1)
        } else {
            (-1, -1, -1)
        },
        Face::Top => if corner == 0 {
            (-1, 1, 1)
        } else if corner == 1 {
            (1, 1, 1)
        } else if corner == 2 {
            (1, 1, -1)
        } else {
            (-1, 1, -1)
        },
        Face::Bottom => if corner == 0 {
            (-1, -1, -1)
        } else if corner == 1 {
            (1, -1, -1)
        } else if corner == 2 {
            (1, -1, 1)
        } else {
            (-1, -1, 1)
        },
        Face::Left => if corner == 0 {
            (-1, -1, -1)
        } else if corner == 1 {
            (-1, -1, 1)
        } else if corner == 2 {
            (-1, 1, 1)
        } else {
            (-1, 1, -1)
        },
        Face::Right => if corner == 0 {
            (1, -1, 1)
        } else if corner == 1 {
            (1, -1, -1)
        } else if corner == 2 {
            (1, 1, -1)
        } else {
            (1, 1, 1)
        },
    }
}

/// The texel that corner `corner` of `face` shows, in the rectangle `tex`.
pub open spec fn face_texel(face: Face, tex: TextureCoords, corner: int) -> (u64, u64) {
    let low = (tex.bottom_left_x, tex.bottom_left_y);
    let high = (tex.top_right_x, tex.top_right_y);
    match face {
        Face::Front => if corner == 0 {
            (low.0, high.1)
        } else if corner == 1 {
            (high.0, high.1)
        } else if corner == 2 {
            (high.0, low.1)
        } else {
            (low.0, low.1)
        },
        Face::Top => if corner == 0 {
            (low.0, low.1)
        } else if corner == 1 {
            (high.0, low.1)
        } else if corner == 2 {
            (high.0, high.1)
        } else {
            (low.0, high.1)
        },
        Face::Back | Face::Bottom => if corner == 0 {
            (high.0, low.1)
        } else if corner == 1 {
            (low.0, low.1)
        } else if corner == 2 {
            (low.0, high.1)
        } else {
            (high.0, high.1)
        },
        Face::Left | Face::Right => if corner == 0 {
            (high.0, high.1)
        } else if corner == 1 {
            (low.0, high.1)
        } else if corner == 2 {
            (low.0, low.1)
        } else {
            (high.0, low.1)
        },
    }
}

/// Corner `corner` of `face` of a block in the origin, with texture `tex`.
pub open spec fn face_vertex(face: Face, tex: TextureCoords, corner: int) -> Vertex {
    let at = face_corner(face, corner);
    Vertex {
        position: (at.0 as i64, at.1 as i64, at.2 as i64),
        tex_coords: face_texel(face, tex, corner),
    }
}

/// The four corners of `face` of a block in the origin, with texture `tex`.
pub open spec fn face_vertices(face: Face, tex: TextureCoords) -> Seq<Vertex> {
    Seq::new(4, |corner: int| face_vertex(face, tex, corner))
}

/// A kind of block: its identifier and the texture of each face.
#[derive(Debug)]
pub struct Block {
    identifier: Identifier,
    texture_front: TextureCoords,
    texture_back: TextureCoords,
    texture_top: TextureCoords,
    texture_btm: TextureCoords,
    texture_left: TextureCoords,
    texture_right: TextureCoords,
}

impl Clone for Block {
    fn clone(&self) -> (copy: Self)
        ensures
            copy == *self,
    {
        Self {
            identifier: self.identifier.clone(),
            texture_front: self.texture_front,
            texture_back: self.texture_back,
            texture_top: self.texture_top,
            texture_btm: self.texture_btm,
            texture_left: self.texture_left,
            texture_right: self.texture_right,
        }
    }
}

impl Block {
    pub closed spec fn identifier(&self) -> Identifier {
        self.identifier
    }

    /// The rectangle of the atlas that `face` shows.
    pub closed spec fn texture(&self, face: Face) -> TextureCoords {
        match face {
            Face::Front => self.texture_front,
            Face::Back => self.texture_back,
            Face::Top => self.texture_top,
            Face::Bottom => self.texture_btm,
            Face::Left => self.texture_left,
            Face::Right => self.texture_right,
        }
    }

    /// The block with the texture of `face` replaced by `tex`.
    pub closed spec fn with_texture(self, face: Face, tex: TextureCoords) -> Block {
        match face {
            Face::Front => Block { texture_front: tex, ..self },
            Face::Back => Block { texture_back: tex, ..self },
            Face::Top => Block { texture_top: tex, ..self },
            Face::Bottom => Block { texture_btm: tex, ..self },
            Face::Left => Block { texture_left: tex, ..self },
            Face::Right => Block { texture_right: tex, ..self },
        }
    }

    /// Replacing the texture of one face changes that face and nothing else.
    pub proof fn lemma_with_texture(self, face: Face, tex: TextureCoords, other: Face)
        ensures
            self.with_texture(face, tex).identifier() == self.identifier(),
            self.with_texture(face, tex).texture(other) == if other == face {
                tex
            } else {
                self.texture(other)
            },
    {
    }

    /// A block that shows the face-sized rectangle at `(tex_x, tex_y)` on every face.
    pub fn new(identifier: Identifier, tex_x: u32, tex_y: u32) -> (block: Self)
        ensures
            block.identifier() == identifier,
            forall|face: Face| block.texture(face) == TextureCoords::at(tex_x, tex_y),
    {
        Self {
            identifier,
            texture_front: TextureCoords::new(tex_x, tex_y),
            texture_back: TextureCoords::new(tex_x, tex_y),
            texture_top: TextureCoords::new(tex_x, tex_y),
            texture_btm: TextureCoords::new(tex_x, tex_y),
            texture_left: TextureCoords::new(tex_x, tex_y),
            texture_right: TextureCoords::new(tex_x, tex_y),
        }
    }

    pub fn get_identifier(&self) -> (identifier: &Identifier)
        ensures
            *identifier == self.identifier(),
    {
        &self.identifier
    }

    /// The four corners of `face`, for a block in the origin.
    pub fn get_vert(&self, face: Face) -> (verts: Vec<Vertex>)
        ensures
            verts@ == face_vertices(face, self.texture(face)),
    {
        let tex = match face {
            Face::Front => self.texture_front,
            Face::Back => self.texture_back,
            Face::Top => self.texture_top,
            Face::Bottom => self.texture_btm,
            Face::Left => self.texture_left,
            Face::Right => self.texture_right,
        };
        let low = (tex.bottom_left_x, tex.bottom_left_y);
        let high = (tex.top_right_x, tex.top_right_y);
        let verts = match face {
            Face::Front => vec![
                Vertex { position: (-1, -1, 1), tex_coords: (low.0, high.1) },
                Vertex { position: (1, -1, 1), tex_coords: (high.0, high.1) },
                Vertex { position: (1, 1, 1), tex_coords: (high.0, low.1) },
                Vertex { position: (-1, 1, 1), tex_coords: (low.0, low.1) },
            ],
            Face::Back => vec![
                Vertex { position: (-1, 1, -1), tex_coords: (high.0, low.1) },
                Vertex { position: (1, 1, -1), tex_coords: (low.0, low.1) },
                Vertex { position: (1, -1, -1), tex_coords: (low.0, high.1) },
                Vertex { position: (-1, -1, -1), tex_coords: (high.0, high.1) },
            ],
            Face::Top => vec![
                Vertex { position: (-1, 1, 1), tex_coords: (low.0, low.1) },
                Vertex { position: (1, 1, 1), tex_coords: (high.0, low.1) },
                Vertex { position: (1, 1, -1), tex_coords: (high.0, high.1) },
                Vertex { position: (-1, 1, -1), tex_coords: (low.0, high.1) },
            ],
            Face::Bottom => vec![
                Vertex { position: (-1, -1, -1), tex_coords: (high.0, low.1) },
                Vertex { position: (1, -1, -1), tex_coords: (low.0, low.1) },
                Vertex { position: (1, -1, 1), tex_coords: (low.0, high.1) },
                Vertex { position: (-1, -1, 1), tex_coords: (high.0, high.1) },
            ],
            Face::Left => vec![
                Vertex { position: (-1, -1, -1), tex_coords: (high.0, high.1) },
                Vertex { position: (-1, -1, 1), tex_coords: (low.0, high.1) },
                Vertex { position: (-1, 1, 1), tex_coords: (low.0, low.1) },
                Vertex { position: (-1, 1, -1), tex_coords: (high.0, low.1) },
            ],
            Face::Right => vec![
                Vertex { position: (1, -1, 1), tex_coords: (high.0, high.1) },
                Vertex { position: (1, -1, -1), tex_coords: (low.0, high.1) },
                Vertex { position: (1, 1, -1), tex_coords: (low.0, low.1) },
                Vertex { position: (1, 1, 1), tex_coords: (high.0, low.1) },
            ],
        };
        verts
    }

    pub fn get_vert_front(&self) -> (verts: Vec<Vertex>)
        ensures
            verts@ == face_vertices(Face::Front, self.texture(Face::Front)),
    {
        self.get_vert(Face::Front)
    }

    pub fn get_vert_back(&self) -> (verts: Vec<Vertex>)
        ensures
            verts@ == face_vertices(Face::Back, self.texture(Face::Back)),
    {
        self.get_vert(Face::Back)
    }

    pub fn get_vert_top(&self) -> (verts: Vec<Vertex>)
        ensures
            verts@ == face_vertices(Face::Top, self.texture(Face::Top)),
    {
        self.get_vert(Face::Top)
    }

    pub fn get_vert_bottom(&self) -> (verts: Vec<Vertex>)
        ensures
            verts@ == face_vertices(Face::Bottom, self.texture(Face::Bottom)),
    {
        self.get_vert(Face::Bottom)
    }

    pub fn get_vert_left(&self) -> (verts: Vec<Vertex>)
        ensures
            verts@ == face_vertices(Face::Left, self.texture(Face::Left)),
    {
        self.get_vert(Face::Left)
    }

    pub fn get_vert_right(&self) -> (verts: Vec<Vertex>)
        ensures
            verts@ == face_vertices(Face::Right, self.texture(Face::Right)),
    {
        self.get_vert(Face::Right)
    }

    pub fn set_texture_front(&mut self, tex_x: u32, tex_y: u32)
        ensures
            *final(self) == old(self).with_texture(Face::Front, TextureCoords::at(tex_x, tex_y)),
    {
        self.texture_front = TextureCoords::new(tex_x, tex_y);
    }

    pub fn set_texture_back(&mut self, tex_x: u32, tex_y: u32)
        ensures
            *final(self) == old(self).with_texture(Face::Back, TextureCoords::at(tex_x, tex_y)),
    {
        self.texture_back = TextureCoords::new(tex_x, tex_y);
    }

    pub fn set_texture_top(&mut self, tex_x: u32, tex_y: u32)
        ensures
            *final(self) == old(self).with_texture(Face::Top, TextureCoords::at(tex_x, tex_y)),
    {
        self.texture_top = TextureCoords::new(tex_x, tex_y);
    }

    pub fn set_texture_bottom(&mut self, tex_x: u32, tex_y: u32)
        ensures
            *final(self) == old(self).with_texture(Face::Bottom, TextureCoords::at(tex_x, tex_y)),
    {
        self.texture_btm = TextureCoords::new(tex_x, tex_y);
    }

    pub fn set_texture_left(&mut self, tex_x: u32, tex_y: u32)
        ensures
            *final(self) == old(self).with_texture(Face::Left, TextureCoords::at(tex_x, tex_y)),
    {
        self.texture_left = TextureCoords::new(tex_x, tex_y);
    }

    pub fn set_texture_right(&mut self, tex_x: u32, tex_y: u32)
        ensures
            *final(self) == old(self).with_texture(Face::Right, TextureCoords::at(tex_x, tex_y)),
    {
        self.texture_right = TextureCoords::new(tex_x, tex_y);
    }

    /// Sets the texture of the four faces that are neither top nor bottom.
    pub fn set_side_textures(&mut self, tex_x: u32, tex_y: u32)
        ensures
            *final(self) == old(self).with_texture(Face::Front, TextureCoords::at(tex_x, tex_y))
                .with_texture(Face::Back, TextureCoords::at(tex_x, tex_y)).with_texture(
                Face::Left,
                TextureCoords::at(tex_x, tex_y),
            ).with_texture(Face::Right, TextureCoords::at(tex_x, tex_y)),
    {
        self.set_texture_front(tex_x, tex_y);
        self.set_texture_back(tex_x, tex_y);
        self.set_texture_left(tex_x, tex_y);
        self.set_texture_right(tex_x, tex_y);
    }
}

} // verus!
