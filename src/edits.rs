//! Edits that target blocks of chunks that are not loaded yet.
use std::collections::HashMap;
use vstd::prelude::*;

use crate::atom::{Atom2, BlockId};
use crate::coords::{pos_key, IVec3};

verus! {

broadcast use vstd::std_specs::hash::group_hash_axioms;

/// Pending edits, by world block position. Each entry is consumed once: by the
/// build of the chunk that covers it, or by a direct edit of a loaded chunk.
#[derive(Debug)]
pub struct ModifiedVoxels {
    map: HashMap<u128, BlockId>,
}

impl View for ModifiedVoxels {
    type V = Map<u128, Atom2>;

    closed spec fn view(&self) -> Map<u128, Atom2> {
        self.map@
    }
}

impl ModifiedVoxels {
    pub fn new() -> (r: Self)
        ensures
            r@ == Map::<u128, Atom2>::empty(),
    {
        ModifiedVoxels { map: HashMap::new() }
    }

    pub fn len(&self) -> (r: usize)
        ensures
            r == self@.len(),
    {
        self.map.len()
    }

    /// Records `id` for block `pos`, replacing an earlier edit there.
    pub fn insert(&mut self, pos: IVec3, id: BlockId)
        ensures
            final(self)@ == old(self)@.insert(pos_key(pos), id),
    {
        let k = pos.key();
        self.map.insert(k, id);
    }

    /// Removes and returns the edit of block `pos`.
    pub fn take(&mut self, pos: IVec3) -> (r: Option<BlockId>)
        ensures
            final(self)@ == old(self)@.remove(pos_key(pos)),
            old(self)@.contains_key(pos_key(pos)) ==> r == Some(old(self)@[pos_key(pos)]),
            !old(self)@.contains_key(pos_key(pos)) ==> r is None,
    {
        let k = pos.key();
        self.map.remove(&k)
    }

    pub fn get(&self, pos: IVec3) -> (r: Option<&BlockId>)
        ensures
            self@.contains_key(pos_key(pos)) ==> r == Some(&self@[pos_key(pos)]),
            !self@.contains_key(pos_key(pos)) ==> r is None,
    {
        let k = pos.key();
        self.map.get(&k)
    }
}

} // verus!
