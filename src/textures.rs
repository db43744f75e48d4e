//! Texture addressing: which texture layer each face of a block samples.
use vstd::prelude::*;

verus! {

/// A face of a voxel cube.
#[derive(Debug, Clone, Copy, PartialEq, Eq, Hash, Structural)]
pub enum Face {
    /// Y+
    Top,
    /// Y-
    Bottom,
    /// X+
    Right,
    /// X-
    Left,
    /// Z+
    Front,
    /// Z-
    Back,
}

impl Face {
    /// Position of the face in a per-face table.
    pub open spec fn slot(self) -> nat {
        match self {
            Face::Top => 0,
            Face::Bottom => 1,
            Face::Right => 2,
            Face::Left => 3,
            Face::Front => 4,
            Face::Back => 5,
        }
    }

    pub fn index(self) -> (r: usize)
        ensures
            r == self.slot(),
    {
        match self {
            Face::Top => 0,
            Face::Bottom => 1,
            Face::Right => 2,
            Face::Left => 3,
            Face::Front => 4,
            Face::Back => 5,
        }
    }
}

/// The face that an outward normal points through: the x axis is checked
/// first, then z, then y. `None` for the zero vector.
pub fn face_from_normal(x: i32, y: i32, z: i32) -> (r: Option<Face>)
    ensures
        x > 0 ==> r == Some(Face::Right),
        x < 0 ==> r == Some(Face::Left),
        x == 0 && z > 0 ==> r == Some(Face::Front),
        x == 0 && z < 0 ==> r == Some(Face::Back),
        x == 0 && z == 0 && y > 0 ==> r == Some(Face::Top),
        x == 0 && z == 0 && y < 0 ==> r == Some(Face::Bottom),
        x == 0 && z == 0 && y == 0 ==> r is None,
{
    if x > 0 {
        Some(Face::Right)
    } else if x < 0 {
        Some(Face::Left)
    } else if z > 0 {
        Some(Face::Front)
    } else if z < 0 {
        Some(Face::Back)
    } else if y > 0 {
        Some(Face::Top)
    } else if y < 0 {
        Some(Face::Bottom)
    } else {
        None
    }
}

/// A texture layer shared by all faces, plus a per-face offset from it.
#[derive(Debug, Clone, Copy, PartialEq, Eq, Hash)]
pub struct TextureBlock {
    pub texture_index: u32,
    pub faces_offset: [u8; 6],
}

/// A texture index (upper 28 bits) and an offset (lower 4 bits) packed in one `u32`.
#[derive(Debug, Clone, Copy, PartialEq, Eq, Hash, Default, Structural)]
pub struct TextureIndex(u32);

/// Largest texture index that fits in the packed form, plus one.
pub const INDEX_LIMIT: u32 = 0x1000_0000;

impl TextureIndex {
    /// The packed word.
    pub closed spec fn spec_raw(self) -> u32 {
        self.0
    }

    pub open spec fn spec_idx(self) -> u32 {
        self.spec_raw() / 16
    }

    pub open spec fn spec_offset(self) -> u8 {
        (self.spec_raw() % 16) as u8
    }

    pub fn idx(&self) -> (r: u32)
        ensures
            r == self.spec_idx(),
    {
        let raw = self.0;
        assert(raw >> 4u32 == raw / 16) by (bit_vector);
        raw >> 4
    }

    pub fn offset(&self) -> (r: u8)
        ensures
            r == self.spec_offset(),
    {
        let raw = self.0;
        assert(raw & 0xFu32 == raw % 16) by (bit_vector);
        (raw & 0xF) as u8
    }

    /// Packs `idx` and `offset`; an index of 28 bits or more keeps its low 28 bits.
    pub fn new(idx: u32, offset: u8) -> (r: Self)
        requires
            offset <= 0xF,
        ensures
            r.spec_idx() == idx % INDEX_LIMIT,
            r.spec_offset() == offset,
    {
        let o = offset as u32;
        let raw = (idx << 4) | (o & 0xF);
        assert(((idx << 4u32) | (o & 0xFu32)) / 16 == idx % 0x1000_0000 && ((idx << 4u32) | (o
            & 0xFu32)) % 16 == o % 16) by (bit_vector);
        TextureIndex(raw)
    }

    /// Replaces the index, keeping the offset.
    pub fn set_idx(&mut self, idx: u32)
        ensures
            final(self).spec_idx() == idx % INDEX_LIMIT,
            final(self).spec_offset() == old(self).spec_offset(),
    {
        let raw = self.0;
        let next = (idx << 4) | (raw & 0xF);
        assert(((idx << 4u32) | (raw & 0xFu32)) / 16 == idx % 0x1000_0000 && ((idx << 4u32) | (
        raw & 0xFu32)) % 16 == raw % 16) by (bit_vector);
        self.0 = next;
    }

    /// Replaces the offset, keeping the index.
    pub fn set_offset(&mut self, offset: u8)
        requires
            offset <= 0xF,
        ensures
            final(self).spec_idx() == old(self).spec_idx(),
            final(self).spec_offset() == offset,
    {
        let raw = self.0;
        let o = offset as u32;
        let next = (raw & 0xFFFF_FFF0) | (o & 0xF);
        assert(((raw & 0xFFFF_FFF0u32) | (o & 0xFu32)) / 16 == raw / 16 && ((raw
            & 0xFFFF_FFF0u32) | (o & 0xFu32)) % 16 == o % 16) by (bit_vector);
        self.0 = next;
    }

    pub fn zero() -> (r: Self)
        ensures
            r.spec_raw() == 0,
            r.spec_idx() == 0,
            r.spec_offset() == 0,
    {
        TextureIndex(0)
    }

    pub fn from_raw(raw: u32) -> (r: Self)
        ensures
            r.spec_raw() == raw,
    {
        TextureIndex(raw)
    }

    pub fn raw(&self) -> (r: u32)
        ensures
            r == self.spec_raw(),
    {
        self.0
    }
}

impl TextureBlock {
    /// Every face samples `texture_index` itself.
    pub fn full(texture_index: u32) -> (r: Self)
        ensures
            r.texture_index == texture_index,
            forall|i: int| 0 <= i < 6 ==> r.faces_offset[i] == 0,
    {
        TextureBlock { texture_index, faces_offset: [0u8; 6] }
    }

    /// Sets the offset of one face.
    pub fn with_face(self, face: Face, offset: u8) -> (r: Self)
        ensures
            r.texture_index == self.texture_index,
            r.faces_offset@ == self.faces_offset@.update(face.slot() as int, offset),
    {
        let mut r = self;
        r.faces_offset[face.index()] = offset;
        r
    }

    pub fn with_top(self, offset: u8) -> (r: Self)
        ensures
            r.texture_index == self.texture_index,
            r.faces_offset@ == self.faces_offset@.update(0, offset),
    {
        self.with_face(Face::Top, offset)
    }

    pub fn with_bottom(self, offset: u8) -> (r: Self)
        ensures
            r.texture_index == self.texture_index,
            r.faces_offset@ == self.faces_offset@.update(1, offset),
    {
        self.with_face(Face::Bottom, offset)
    }

    pub fn with_right(self, offset: u8) -> (r: Self)
        ensures
            r.texture_index == self.texture_index,
            r.faces_offset@ == self.faces_offset@.update(2, offset),
    {
        self.with_face(Face::Right, offset)
    }

    pub fn with_left(self, offset: u8) -> (r: Self)
        ensures
            r.texture_index == self.texture_index,
            r.faces_offset@ == self.faces_offset@.update(3, offset),
    {
        self.with_face(Face::Left, offset)
    }

    pub fn with_front(self, offset: u8) -> (r: Self)
        ensures
            r.texture_index == self.texture_index,
            r.faces_offset@ == self.faces_offset@.update(4, offset),
    {
        self.with_face(Face::Front, offset)
    }

    pub fn with_back(self, offset: u8) -> (r: Self)
        ensures
            r.texture_index == self.texture_index,
            r.faces_offset@ == self.faces_offset@.update(5, offset),
    {
        self.with_face(Face::Back, offset)
    }

    /// Sets the offset of the four side faces; top and bottom keep theirs.
    pub fn with_side(self, offset: u8) -> (r: Self)
        ensures
            r.texture_index == self.texture_index,
            r.faces_offset@ == seq![
                self.faces_offset[0],
                self.faces_offset[1],
                offset,
                offset,
                offset,
                offset,
            ],
    {
        let r = self.with_front(offset).with_back(offset).with_right(offset).with_left(offset);
        assert(r.faces_offset@ =~= seq![
            self.faces_offset[0],
            self.faces_offset[1],
            offset,
            offset,
            offset,
            offset,
        ]);
        r
    }

    /// The packed texture index that `face` samples.
    pub fn to_texture_index(&self, face: Face) -> (r: TextureIndex)
        requires
            self.faces_offset[face.slot() as int] <= 0xF,
        ensures
            r.spec_idx() == self.texture_index % INDEX_LIMIT,
            r.spec_offset() == self.faces_offset[face.slot() as int],
    {
        TextureIndex::new(self.texture_index, self.faces_offset[face.index()])
    }
}

/// The default mapping from a block type number to its textures: one texture
/// per type, numbered as the type.
pub fn default_texture_index_mapper(ty: u16) -> (r: TextureBlock)
    ensures
        r.texture_index == ty as u32,
        forall|i: int| 0 <= i < 6 ==> r.faces_offset[i] == 0,
{
    TextureBlock::full(ty as u32)
}

} // verus!
