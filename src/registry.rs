//! Block metadata: which texture each face of a block type shows.
use vstd::prelude::*;

use crate::atom::Atom;
use crate::textures::Face;

verus! {

/// A registered block type.
#[derive(Debug)]
pub struct BlockRegistry {
    pub id: Atom,
    pub metadata: BlockMetadata,
}

#[derive(Debug)]
pub struct BlockMetadata {
    pub textures: BlockTextures,
}

/// Texture names per face. Bottom and the side faces fall back to `top`; front,
/// back, left and right fall back to `side`.
#[derive(Debug)]
pub struct BlockTextures {
    pub top: String,
    pub bottom: Option<String>,
    pub side: Option<String>,
    pub front: Option<String>,
    pub back: Option<String>,
    pub left: Option<String>,
    pub right: Option<String>,
}

/// `o`'s text, or `fallback` when it is absent.
pub open spec fn or_else(o: Option<String>, fallback: Seq<char>) -> Seq<char> {
    match o {
        Some(s) => s@,
        None => fallback,
    }
}

impl BlockTextures {
    pub open spec fn spec_side(&self) -> Seq<char> {
        or_else(self.side, self.top@)
    }

    /// The texture that `face` shows.
    pub open spec fn spec_face(&self, face: Face) -> Seq<char> {
        match face {
            Face::Top => self.top@,
            Face::Bottom => or_else(self.bottom, self.top@),
            Face::Front => or_else(self.front, self.spec_side()),
            Face::Back => or_else(self.back, self.spec_side()),
            Face::Left => or_else(self.left, self.spec_side()),
            Face::Right => or_else(self.right, self.spec_side()),
        }
    }

    pub fn top(&self) -> (r: &str)
        ensures
            r@ == self.spec_face(Face::Top),
    {
        self.top.as_str()
    }

    pub fn bottom(&self) -> (r: &str)
        ensures
            r@ == self.spec_face(Face::Bottom),
    {
        match &self.bottom {
            Some(s) => s.as_str(),
            None => self.top(),
        }
    }

    pub fn side(&self) -> (r: &str)
        ensures
            r@ == self.spec_side(),
    {
        match &self.side {
            Some(s) => s.as_str(),
            None => self.top(),
        }
    }

    pub fn front(&self) -> (r: &str)
        ensures
            r@ == self.spec_face(Face::Front),
    {
        match &self.front {
            Some(s) => s.as_str(),
            None => self.side(),
        }
    }

    pub fn back(&self) -> (r: &str)
        ensures
            r@ == self.spec_face(Face::Back),
    {
        match &self.back {
            Some(s) => s.as_str(),
            None => self.side(),
        }
    }

    pub fn left(&self) -> (r: &str)
        ensures
            r@ == self.spec_face(Face::Left),
    {
        match &self.left {
            Some(s) => s.as_str(),
            None => self.side(),
        }
    }

    pub fn right(&self) -> (r: &str)
        ensures
            r@ == self.spec_face(Face::Right),
    {
        match &self.right {
            Some(s) => s.as_str(),
            None => self.side(),
        }
    }

    pub fn face(&self, face: Face) -> (r: &str)
        ensures
            r@ == self.spec_face(face),
    {
        match face {
            Face::Top => self.top(),
            Face::Bottom => self.bottom(),
            Face::Front => self.front(),
            Face::Back => self.back(),
            Face::Left => self.left(),
            Face::Right => self.right(),
        }
    }
}

} // verus!
