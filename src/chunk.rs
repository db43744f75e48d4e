//! Chunk content: the padded voxel grid, its palette and aggregate statistics.
use vstd::prelude::*;

use crate::atom::BlockId;
use crate::coords::{linear_index, linearize, IVec3, UVec3, GRID_SIZE};
use crate::digest::{cells_digest, hash_cells};
use crate::palette::Palette;
use crate::voxel_block::VoxelBlock;

verus! {

/// Why a chunk could not be decoded, built or edited.
#[derive(Debug, Clone, Copy, PartialEq, Eq, Structural)]
pub enum ChunkError {
    /// A stored record shorter than its 8-byte hash header.
    HeaderTooShort,
    /// The compressed body could not be compressed or decompressed.
    Compression,
    /// The body ends before the fields it announces.
    Truncated,
    /// A block id that is not valid UTF-8.
    InvalidText,
    /// A block id that appears twice in a stored palette.
    DuplicateBlockId,
    /// A stored palette that does not start with the empty-space block.
    MissingAir,
    /// A stored cell that names no palette entry, or a grid of the wrong size.
    InvalidCell,
    /// Bytes after the last field.
    TrailingBytes,
    /// A chunk would need more than 65536 block ids.
    PaletteFull,
    /// A stored record that belongs to another position.
    PositionMismatch,
}

/// The stored form of each cell.
pub open spec fn raw_cells(v: Seq<VoxelBlock>) -> Seq<u16> {
    v.map_values(|b: VoxelBlock| b.spec_raw())
}

/// Number of solid cells.
pub open spec fn count_solid(v: Seq<VoxelBlock>) -> nat
    decreases v.len(),
{
    if v.len() == 0 {
        0
    } else {
        count_solid(v.drop_last()) + if v.last() is Solid {
            1nat
        } else {
            0nat
        }
    }
}

/// Every cell holds the same solid block.
pub open spec fn one_block(v: Seq<VoxelBlock>) -> bool {
    &&& v.len() > 0
    &&& v[0] is Solid
    &&& forall|i: int| 0 <= i < v.len() ==> #[trigger] v[i] == v[0]
}

proof fn lemma_count_solid_bounds(v: Seq<VoxelBlock>)
    ensures
        count_solid(v) <= v.len(),
        (forall|i: int| 0 <= i < v.len() ==> v[i] is Solid) ==> count_solid(v) == v.len(),
        (forall|i: int| 0 <= i < v.len() ==> v[i] is Air) ==> count_solid(v) == 0,
    decreases v.len(),
{
    if v.len() > 0 {
        lemma_count_solid_bounds(v.drop_last());
    }
}

/// One cube of voxels: the chunk at `pos` plus one cell of padding per face.
#[derive(Debug)]
pub struct ChunkData {
    pub pos: IVec3,
    pub voxels: Vec<VoxelBlock>,
    /// Number of solid cells.
    pub solid_count: u32,
    /// Every cell holds the same solid block.
    pub uniform: bool,
    /// Digest of every cell, in grid order.
    pub hash: u64,
    pub palette: Palette,
}

impl ChunkData {
    /// Every solid cell names a palette entry other than the empty-space block.
    pub open spec fn cells_valid(&self) -> bool {
        forall|i: int|
            0 <= i < self.voxels@.len() ==> (#[trigger] self.voxels@[i] matches VoxelBlock::Solid(k)
                ==> 1 <= k < self.palette.atoms().len())
    }

    /// The statistics agree with the cells.
    pub open spec fn stats_valid(&self) -> bool {
        &&& self.solid_count == count_solid(self.voxels@)
        &&& self.uniform == one_block(self.voxels@)
        &&& self.hash == cells_digest(raw_cells(self.voxels@))
    }

    pub open spec fn wf(&self) -> bool {
        &&& self.voxels@.len() == GRID_SIZE
        &&& self.palette.wf()
        &&& self.cells_valid()
        &&& self.stats_valid()
    }

    /// Identity of the block in cell `i`; 0 for air.
    pub open spec fn cell_key(&self, i: int) -> nat {
        match self.voxels@[i] {
            VoxelBlock::Air => 0,
            VoxelBlock::Solid(k) => self.palette.atoms()[k as int].key(),
        }
    }

    /// An all-air chunk at `pos`.
    pub fn new(pos: IVec3) -> (r: Self)
        ensures
            r.wf(),
            r.pos == pos,
            r.palette.atoms().len() == 1,
            forall|i: int| 0 <= i < GRID_SIZE ==> r.voxels@[i] == VoxelBlock::Air,
            r.solid_count == 0,
            !r.uniform,
    {
        let mut voxels: Vec<VoxelBlock> = Vec::new();
        let mut i: usize = 0;
        while i < GRID_SIZE
            invariant
                i <= GRID_SIZE,
                voxels@.len() == i,
                forall|k: int| 0 <= k < i ==> voxels@[k] == VoxelBlock::Air,
            decreases GRID_SIZE - i,
        {
            voxels.push(VoxelBlock::Air);
            i = i + 1;
        }
        let mut r = ChunkData {
            pos,
            voxels,
            solid_count: 0,
            uniform: false,
            hash: 0,
            palette: Palette::default(),
        };
        r.generate_hash();
        proof {
            lemma_count_solid_bounds(r.voxels@);
        }
        r
    }

    /// A second chunk with the same position, cells, palette and statistics.
    pub fn duplicate(&self) -> (r: Self)
        ensures
            r.same_content(*self),
            self.wf() ==> r.wf(),
    {
        let mut voxels: Vec<VoxelBlock> = Vec::new();
        let mut i: usize = 0;
        while i < self.voxels.len()
            invariant
                i <= self.voxels@.len(),
                voxels@ == self.voxels@.subrange(0, i as int),
            decreases self.voxels@.len() - i,
        {
            voxels.push(self.voxels[i]);
            i = i + 1;
            assert(voxels@ =~= self.voxels@.subrange(0, i as int));
        }
        assert(self.voxels@.subrange(0, i as int) =~= self.voxels@);
        ChunkData {
            pos: self.pos,
            voxels,
            solid_count: self.solid_count,
            uniform: self.uniform,
            hash: self.hash,
            palette: self.palette.duplicate(),
        }
    }

    /// Equal in every part that the chunk's meaning depends on.
    pub open spec fn same_content(&self, other: ChunkData) -> bool {
        &&& self.pos == other.pos
        &&& self.voxels@ == other.voxels@
        &&& self.solid_count == other.solid_count
        &&& self.uniform == other.uniform
        &&& self.hash == other.hash
        &&& self.palette.atoms() == other.palette.atoms()
    }

    /// An all-air chunk at the origin.
    pub fn empty() -> (r: Self)
        ensures
            r.wf(),
            r.pos == (IVec3 { x: 0, y: 0, z: 0 }),
            r.solid_count == 0,
    {
        ChunkData::new(IVec3 { x: 0, y: 0, z: 0 })
    }

    /// Recomputes the solid count, the uniform flag and the content hash from the cells.
    pub fn generate_hash(&mut self)
        requires
            old(self).voxels@.len() <= GRID_SIZE,
        ensures
            final(self).stats_valid(),
            final(self).pos == old(self).pos,
            final(self).voxels == old(self).voxels,
            final(self).palette == old(self).palette,
    {
        let n = self.voxels.len();
        let mut count: u32 = 0;
        let mut same = n > 0 && self.voxels[0].is_solid();
        let mut raw: Vec<u16> = Vec::new();
        let mut i: usize = 0;
        while i < n
            invariant
                n == self.voxels@.len(),
                n <= GRID_SIZE,
                i <= n,
                count == count_solid(self.voxels@.subrange(0, i as int)),
                raw@ == raw_cells(self.voxels@.subrange(0, i as int)),
                same == (n > 0 && self.voxels@[0] is Solid && forall|k: int|
                    0 <= k < i ==> #[trigger] self.voxels@[k] == self.voxels@[0]),
            decreases n - i,
        {
            let v = self.voxels[i];
            proof {
                let s = self.voxels@.subrange(0, i + 1);
                assert(s.drop_last() =~= self.voxels@.subrange(0, i as int));
                lemma_count_solid_bounds(self.voxels@.subrange(0, i as int));
                assert(raw_cells(s) =~= raw_cells(self.voxels@.subrange(0, i as int)).push(
                    v.spec_raw(),
                ));
            }
            if v.is_solid() {
                count = count + 1;
            }
            if v != self.voxels[0] {
                same = false;
            }
            raw.push(v.merge_value());
            i = i + 1;
        }
        assert(self.voxels@.subrange(0, n as int) =~= self.voxels@);
        self.solid_count = count;
        self.uniform = same;
        self.hash = hash_cells(raw.as_slice());
    }

    /// The block in cell `index`; `None` for air.
    pub fn get_block_id(&self, index: u32) -> (r: Option<&BlockId>)
        requires
            self.wf(),
            index < GRID_SIZE,
        ensures
            self.voxels@[index as int] is Air ==> r is None,
            self.voxels@[index as int] matches VoxelBlock::Solid(k) ==> r == Some(
                &self.palette.atoms()[k as int],
            ),
    {
        match self.voxels[index as usize] {
            VoxelBlock::Air => None,
            VoxelBlock::Solid(idx) => self.palette.block_id(idx),
        }
    }

    /// Puts block `block_id` in cell `pos`, then refreshes the statistics. Fails,
    /// changing nothing, when the palette is full and lacks the block.
    pub fn set_block(&mut self, pos: UVec3, block_id: &BlockId) -> (r: Result<(), ChunkError>)
        requires
            old(self).wf(),
            pos.x < 34,
            pos.y < 34,
            pos.z < 34,
        ensures
            final(self).wf(),
            final(self).pos == old(self).pos,
            r is Ok ==> final(self).cell_key(linear_index(pos.x as int, pos.y as int, pos.z as int)) == block_id.key(),
            r is Ok ==> forall|i: int|
                0 <= i < GRID_SIZE && i != linear_index(pos.x as int, pos.y as int, pos.z as int)
                    ==> final(self).cell_key(i) == old(self).cell_key(i),
            r is Ok ==> forall|i: int|
                0 <= i < GRID_SIZE && i != linear_index(pos.x as int, pos.y as int, pos.z as int)
                    ==> final(self).voxels@[i] == old(self).voxels@[i],
            r is Ok ==> old(self).palette.atoms().len() <= final(self).palette.atoms().len()
                && final(self).palette.atoms().subrange(0, old(self).palette.atoms().len() as int)
                == old(self).palette.atoms(),
            r is Err ==> r == Err::<(), ChunkError>(ChunkError::PaletteFull) && *final(self) == *old(self),
            r is Err <==> (block_id.key() != 0 && !old(self).palette.has_key(block_id.key())
                && old(self).palette.atoms().len() == crate::palette::PALETTE_CAPACITY),
    {
        let ghost prev = *self;
        let idx = linearize(pos);
        match self.palette.voxel_block(block_id) {
            Some(voxel) => {
                self.voxels.set(idx, voxel);
                self.generate_hash();
                assert forall|i: int| 0 <= i < GRID_SIZE && i != idx implies self.cell_key(i)
                    == prev.cell_key(i) by {
                    if let VoxelBlock::Solid(k) = prev.voxels@[i] {
                        assert(self.palette.atoms()[k as int] == prev.palette.atoms()[k as int]);
                    }
                }
                assert(self.cells_valid());
                assert(self.palette.atoms().subrange(0, prev.palette.atoms().len() as int)
                    =~= prev.palette.atoms());
                Ok(())
            },
            None => Err(ChunkError::PaletteFull),
        }
    }

    /// Every cell is solid.
    pub fn is_full(&self) -> (r: bool)
        ensures
            r == (self.solid_count == GRID_SIZE),
    {
        self.solid_count as usize == GRID_SIZE
    }

    /// No cell is solid.
    pub fn is_empty(&self) -> (r: bool)
        ensures
            r == (self.solid_count == 0),
    {
        self.solid_count == 0
    }
}

/// A chunk filled with one solid block is uniform and has every cell solid; an
/// all-air chunk has no solid cell.
pub proof fn uniform_detection(c: ChunkData, k: u16)
    requires
        c.wf(),
    ensures
        (forall|i: int| 0 <= i < GRID_SIZE ==> #[trigger] c.voxels@[i] == VoxelBlock::Solid(k))
            ==> c.uniform && c.solid_count == GRID_SIZE,
        (forall|i: int| 0 <= i < GRID_SIZE ==> #[trigger] c.voxels@[i] is Air) ==> c.solid_count
            == 0,
{
    lemma_count_solid_bounds(c.voxels@);
    if forall|i: int| 0 <= i < GRID_SIZE ==> #[trigger] c.voxels@[i] == VoxelBlock::Solid(k) {
        assert(c.voxels@[0] == VoxelBlock::Solid(k));
    }
}

} // verus!
