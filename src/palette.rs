//! The per-chunk dictionary from block ids to compact 16-bit indices.
use vstd::prelude::*;

use crate::atom::{air_name, Atom2, BlockId};
use crate::voxel_block::VoxelBlock;
use indexmap::IndexSet;

verus! {

#[verifier::external_type_specification]
#[verifier::external_body]
#[verifier::reject_recursive_types(T)]
#[verifier::reject_recursive_types(S)]
pub struct ExIndexSet<T, S>(IndexSet<T, S>);

#[verifier::external_type_specification]
#[verifier::external_body]
pub struct ExAHashState(ahash::RandomState);

/// The items of a set of atom identities, in insertion order.
pub uninterp spec fn key_set_items(s: IndexSet<usize, ahash::RandomState>) -> Seq<usize>;

/// Relies on `IndexSet::with_hasher`: a new set is empty.
#[verifier::external_body]
fn key_set_new() -> (r: IndexSet<usize, ahash::RandomState>)
    ensures
        key_set_items(r) == Seq::<usize>::empty(),
{
    IndexSet::with_hasher(ahash::RandomState::new())
}

/// Relies on `IndexSet::clone`: the copy holds the same items in the same order.
#[verifier::external_body]
fn key_set_clone(s: &IndexSet<usize, ahash::RandomState>) -> (r: IndexSet<usize, ahash::RandomState>)
    ensures
        key_set_items(r) == key_set_items(*s),
{
    s.clone()
}

/// Relies on `IndexSet::get_index_of`: the position of `k` among the items, if present.
#[verifier::external_body]
fn key_set_index_of(s: &IndexSet<usize, ahash::RandomState>, k: usize) -> (r: Option<usize>)
    ensures
        r matches Some(i) ==> i < key_set_items(*s).len() && key_set_items(*s)[i as int] == k,
        r is None ==> !key_set_items(*s).contains(k),
{
    s.get_index_of(&k)
}

/// Relies on `IndexSet::insert_full`: a new item is appended; an item already
/// present leaves the set as it is. Returns the item's index and whether it was new.
#[verifier::external_body]
fn key_set_insert(s: &mut IndexSet<usize, ahash::RandomState>, k: usize) -> (r: (usize, bool))
    ensures
        key_set_items(*old(s)).contains(k) ==> key_set_items(*final(s)) == key_set_items(*old(s))
            && !r.1 && r.0 < key_set_items(*old(s)).len() && key_set_items(*old(s))[r.0 as int] == k,
        !key_set_items(*old(s)).contains(k) ==> key_set_items(*final(s)) == key_set_items(*old(s)).push(k)
            && r.1 && r.0 == key_set_items(*old(s)).len(),
{
    s.insert_full(k)
}

/// Largest number of block ids that one palette can index.
pub const PALETTE_CAPACITY: usize = 65536;

/// Insertion-ordered, duplicate-free list of block ids; a block's index is its
/// position. Index 0 is the empty-space block.
#[derive(Debug)]
pub struct Palette {
    index: IndexSet<usize, ahash::RandomState>,
    map: Vec<BlockId>,
}

impl Palette {
    /// The block ids, by index.
    pub closed spec fn atoms(&self) -> Seq<Atom2> {
        self.map@
    }

    /// Position of the block whose identity is `key`, if any.
    pub open spec fn has_key(&self, key: nat) -> bool {
        exists|i: int| 0 <= i < self.atoms().len() && #[trigger] self.atoms()[i].key() == key
    }

    /// The index agrees with the block ids.
    pub closed spec fn index_wf(&self) -> bool {
        &&& key_set_items(self.index).len() == self.map@.len()
        &&& forall|i: int| 0 <= i < self.map@.len() ==> key_set_items(self.index)[i] == #[trigger] self.map@[i].key()
    }

    pub open spec fn wf(&self) -> bool {
        &&& self.index_wf()
        &&& 1 <= self.atoms().len() <= PALETTE_CAPACITY
        &&& self.atoms()[0].key() == 0
        &&& self.atoms()[0]@ == air_name()
        &&& forall|i: int, j: int|
            0 <= i < j < self.atoms().len() ==> self.atoms()[i].key() != self.atoms()[j].key()
    }

    /// A palette holding `atoms` in that order.
    pub(crate) fn from_atoms(map: Vec<BlockId>) -> (r: Self)
        requires
            forall|i: int, j: int| 0 <= i < j < map@.len() ==> map@[i].key() != map@[j].key(),
        ensures
            r.atoms() == map@,
            r.index_wf(),
    {
        let mut index = key_set_new();
        let mut k: usize = 0;
        while k < map.len()
            invariant
                k <= map@.len(),
                forall|i: int, j: int| 0 <= i < j < map@.len() ==> map@[i].key() != map@[j].key(),
                key_set_items(index).len() == k,
                forall|i: int| 0 <= i < k ==> key_set_items(index)[i] == #[trigger] map@[i].key(),
            decreases map@.len() - k,
        {
            let key = map[k].id();
            proof {
                assert forall|i: int| 0 <= i < k implies key_set_items(index)[i] != key by {
                    assert(map@[i].key() != map@[k as int].key());
                }
            }
            key_set_insert(&mut index, key);
            k = k + 1;
        }
        Palette { index, map }
    }

    pub fn len(&self) -> (r: usize)
        ensures
            r == self.atoms().len(),
    {
        self.map.len()
    }

    /// A palette with the same block ids at the same indices.
    pub fn duplicate(&self) -> (r: Self)
        ensures
            r.atoms() == self.atoms(),
            self.index_wf() ==> r.index_wf(),
    {
        let mut map: Vec<BlockId> = Vec::new();
        let mut i: usize = 0;
        while i < self.map.len()
            invariant
                i <= self.map@.len(),
                map@ == self.map@.subrange(0, i as int),
            decreases self.map@.len() - i,
        {
            map.push(self.map[i].copy());
            i = i + 1;
            assert(map@ =~= self.map@.subrange(0, i as int));
        }
        assert(self.map@.subrange(0, i as int) =~= self.map@);
        Palette { index: key_set_clone(&self.index), map }
    }

    /// The block id at `idx`, or `None` past the end.
    pub fn block_id(&self, idx: u16) -> (r: Option<&BlockId>)
        ensures
            idx < self.atoms().len() ==> r == Some(&self.atoms()[idx as int]),
            idx >= self.atoms().len() ==> r is None,
    {
        if (idx as usize) < self.map.len() {
            Some(&self.map[idx as usize])
        } else {
            None
        }
    }

    /// Index of the block whose identity is that of `id`, if present.
    fn index_of(&self, id: &BlockId) -> (r: Option<usize>)
        requires
            self.index_wf(),
        ensures
            r matches Some(i) ==> i < self.atoms().len() && self.atoms()[i as int].key()
                == id.key(),
            r is None ==> !self.has_key(id.key()),
    {
        let r = key_set_index_of(&self.index, id.id());
        proof {
            if r is None {
                assert forall|i: int| 0 <= i < self.atoms().len() implies #[trigger] self.atoms()[i].key() != id.key() by {
                    assert(key_set_items(self.index)[i] == self.map@[i].key());
                }
            }
        }
        r
    }

    /// Index of `id`, appending it when new; `None` when it is new and the palette is full.
    fn mapped_idx(&mut self, id: &BlockId) -> (r: Option<u16>)
        requires
            old(self).wf(),
            id.key() != 0,
        ensures
            final(self).wf(),
            old(self).has_key(id.key()) ==> *final(self) == *old(self),
            !old(self).has_key(id.key()) && old(self).atoms().len() < PALETTE_CAPACITY
                ==> final(self).atoms() == old(self).atoms().push(*id),
            !old(self).has_key(id.key()) && old(self).atoms().len() == PALETTE_CAPACITY
                ==> *final(self) == *old(self) && r is None,
            r matches Some(i) ==> 1 <= i < final(self).atoms().len() && final(self).atoms()[i as int].key()
                == id.key(),
            (r is None) == (!old(self).has_key(id.key()) && old(self).atoms().len()
                == PALETTE_CAPACITY),
    {
        match self.index_of(id) {
            Some(i) => Some(i as u16),
            None => {
                if self.map.len() < PALETTE_CAPACITY {
                    let i = self.map.len();
                    proof {
                        assert forall|j: int| 0 <= j < i implies key_set_items(self.index)[j] != id.key() by {
                            assert(key_set_items(self.index)[j] == self.map@[j].key());
                        }
                    }
                    key_set_insert(&mut self.index, id.id());
                    self.map.push(id.copy());
                    proof {
                        assert forall|j: int| 0 <= j < self.map@.len() implies key_set_items(self.index)[j] == #[trigger] self.map@[j].key() by {
                            if j < i {
                                assert(self.map@[j] == old(self).map@[j]);
                            }
                        }
                    }
                    Some(i as u16)
                } else {
                    None
                }
            },
        }
    }

    /// The voxel that stands for `id`: air for the empty-space block, else the
    /// solid block at its index, which is appended when new. `None` when the
    /// palette is full and `id` is not in it.
    pub fn voxel_block(&mut self, id: &BlockId) -> (r: Option<VoxelBlock>)
        requires
            old(self).wf(),
        ensures
            final(self).wf(),
            id.key() == 0 ==> r == Some(VoxelBlock::Air) && *final(self) == *old(self),
            id.key() != 0 ==> (r is None) == (!old(self).has_key(id.key()) && old(
                self,
            ).atoms().len() == PALETTE_CAPACITY),
            id.key() != 0 ==> (r matches Some(VoxelBlock::Solid(i)) ==> 1 <= i < final(self).atoms().len() && final(self).atoms()[i as int].key() == id.key()),
            id.key() != 0 ==> !(r matches Some(VoxelBlock::Air)),
            old(self).has_key(id.key()) ==> *final(self) == *old(self),
            !old(self).has_key(id.key()) && r is Some ==> final(self).atoms() == old(self).atoms().push(*id),
            r is None ==> *final(self) == *old(self),
    {
        if id.is_air() {
            assert(old(self).has_key(id.key()) ) by { assert(self.atoms()[0].key() == 0); }
            Some(VoxelBlock::Air)
        } else {
            match self.mapped_idx(id) {
                Some(i) => Some(VoxelBlock::Solid(i)),
                None => None,
            }
        }
    }
}

impl Default for Palette {
    /// A palette holding only the empty-space block, at index 0.
    fn default() -> (r: Self)
        ensures
            r.wf(),
            r.atoms().len() == 1,
    {
        let mut map = Vec::new();
        map.push(Atom2::air());
        Palette::from_atoms(map)
    }
}

} // verus!
