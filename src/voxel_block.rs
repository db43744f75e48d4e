//! The per-cell storage unit of a chunk.
use vstd::prelude::*;

verus! {

/// One voxel: empty space, or a solid block named by its chunk-local palette index.
#[derive(Clone, Copy, Debug, PartialEq, Eq, Hash, Default, Structural)]
pub enum VoxelBlock {
    #[default]
    Air,
    Solid(u16),
}

impl VoxelBlock {
    /// The raw cell value that the chunk record stores: 0 for air, else the index.
    pub open spec fn spec_raw(self) -> u16 {
        match self {
            VoxelBlock::Air => 0,
            VoxelBlock::Solid(i) => i,
        }
    }

    /// The voxel that a raw cell value stands for.
    pub open spec fn spec_from_raw(raw: u16) -> VoxelBlock {
        if raw == 0 {
            VoxelBlock::Air
        } else {
            VoxelBlock::Solid(raw)
        }
    }

    pub fn is_solid(&self) -> (r: bool)
        ensures
            r == (*self is Solid),
    {
        !self.is_air()
    }

    pub fn is_air(&self) -> (r: bool)
        ensures
            r == (*self is Air),
    {
        match self {
            VoxelBlock::Air => true,
            VoxelBlock::Solid(_) => false,
        }
    }

    /// The value that greedy meshing merges on, which is also the stored form.
    pub fn merge_value(&self) -> (r: u16)
        ensures
            r == self.spec_raw(),
    {
        match self {
            VoxelBlock::Air => 0,
            VoxelBlock::Solid(i) => *i,
        }
    }

    pub fn from_raw(raw: u16) -> (r: VoxelBlock)
        ensures
            r == Self::spec_from_raw(raw),
    {
        if raw == 0 {
            VoxelBlock::Air
        } else {
            VoxelBlock::Solid(raw)
        }
    }
}

} // verus!
