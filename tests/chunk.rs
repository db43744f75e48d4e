use minecrust::atom::{Atom2, Interner};
use minecrust::chunk::{ChunkData, ChunkError};
use minecrust::chunk_task::BuildChunkTaskInner;
use minecrust::coords::{get_chunk_voxel_position, index_to_ivec3_bounds, linearize, IVec3, UVec3, GRID_SIZE};
use minecrust::edits::ModifiedVoxels;
use minecrust::generator::{FlatGenerator, Generator, HeightmapGenerator};
use minecrust::palette::Palette;
use minecrust::voxel_block::VoxelBlock;

fn build<G: Generator>(
    pos: IVec3,
    stored: Option<ChunkData>,
    generator: &G,
    edits: &mut ModifiedVoxels,
    interner: &mut Interner,
) -> Result<ChunkData, ChunkError> {
    BuildChunkTaskInner { chunk_pos: pos, stored, generator }.build(edits, interner)
}

#[test]
fn palette_maps_ids() {
    let mut interner = Interner::new();
    let grass = interner.intern("core::grass");
    let stone = interner.intern("core::stone");
    let mut p = Palette::default();
    assert_eq!(p.len(), 1);
    assert_eq!(p.voxel_block(&Atom2::air()), Some(VoxelBlock::Air));
    assert_eq!(p.voxel_block(&grass), Some(VoxelBlock::Solid(1)));
    assert_eq!(p.voxel_block(&stone), Some(VoxelBlock::Solid(2)));
    assert_eq!(p.voxel_block(&grass), Some(VoxelBlock::Solid(1)));
    assert_eq!(p.len(), 3);
    assert!(p.block_id(2).unwrap() == &stone);
    assert!(p.block_id(3).is_none());
}

#[test]
fn voxel_block_raw_values() {
    assert!(VoxelBlock::Air.is_air());
    assert!(VoxelBlock::Solid(4).is_solid());
    assert_eq!(VoxelBlock::Solid(4).merge_value(), 4);
    assert_eq!(VoxelBlock::from_raw(0), VoxelBlock::Air);
    assert_eq!(VoxelBlock::from_raw(9), VoxelBlock::Solid(9));
}

#[test]
fn chunk_voxel_position_of_negative_blocks() {
    let (c, cell) = get_chunk_voxel_position(IVec3::new(-1, 0, 33));
    assert_eq!(c, IVec3::new(-1, 0, 1));
    assert_eq!(cell, UVec3 { x: 32, y: 1, z: 2 });
    let (c, cell) = get_chunk_voxel_position(IVec3::new(-32, -33, 31));
    assert_eq!(c, IVec3::new(-1, -2, 0));
    assert_eq!(cell, UVec3 { x: 1, y: 32, z: 32 });
}

#[test]
fn new_chunk_is_empty_air() {
    let c = ChunkData::new(IVec3::new(1, 2, 3));
    assert_eq!(c.voxels.len(), GRID_SIZE);
    assert!(c.is_empty());
    assert!(!c.is_full());
    assert!(!c.uniform);
    assert!(c.get_block_id(0).is_none());
}

#[test]
fn set_block_updates_cell_and_stats() {
    let mut interner = Interner::new();
    let stone = interner.intern("core::stone");
    let mut c = ChunkData::new(IVec3::new(0, 0, 0));
    let before = c.hash;
    let cell = UVec3 { x: 3, y: 4, z: 5 };
    assert_eq!(c.set_block(cell, &stone), Ok(()));
    let i = linearize(cell);
    assert_eq!(c.voxels[i], VoxelBlock::Solid(1));
    assert!(c.get_block_id(i as u32).unwrap() == &stone);
    assert_eq!(c.solid_count, 1);
    assert_ne!(c.hash, before);
    assert_eq!(c.set_block(cell, &Atom2::air()), Ok(()));
    assert_eq!(c.solid_count, 0);
    assert_eq!(c.hash, before);
}

#[test]
fn uniform_chunk_detected() {
    let mut interner = Interner::new();
    let mut edits = ModifiedVoxels::new();
    let stone = interner.intern("core::stone");
    for x in -1..33 {
        for y in 159..193 {
            for z in -1..33 {
                edits.insert(IVec3::new(x, y, z), stone.clone());
            }
        }
    }
    let c = build(IVec3::new(0, 5, 0), None, &FlatGenerator::new(), &mut edits, &mut interner).unwrap();
    assert_eq!(edits.len(), 0);
    assert!(c.uniform);
    assert!(c.is_full());
    assert_eq!(c.solid_count as usize, GRID_SIZE);
    assert_eq!(c.palette.len(), 2);
}

#[test]
fn all_air_chunk_has_no_solid_cell() {
    let mut interner = Interner::new();
    let mut edits = ModifiedVoxels::new();
    let c = build(IVec3::new(0, 5, 0), None, &FlatGenerator::new(), &mut edits, &mut interner).unwrap();
    assert_eq!(c.solid_count, 0);
    assert!(c.is_empty());
    assert!(!c.uniform);
}

#[test]
fn flat_generator_fills_ground_layer() {
    let mut interner = Interner::new();
    let mut edits = ModifiedVoxels::new();
    let c = build(IVec3::new(0, 0, 0), None, &FlatGenerator::new(), &mut edits, &mut interner).unwrap();
    // the padded grid holds one 34 x 34 layer at world y == 0 (cell y == 1)
    assert_eq!(c.solid_count, 34 * 34);
    let i = linearize(UVec3 { x: 5, y: 1, z: 7 });
    assert_eq!(c.get_block_id(i as u32).unwrap().as_str(), "core::grass");
    let above = linearize(UVec3 { x: 5, y: 2, z: 7 });
    assert!(c.get_block_id(above as u32).is_none());
}

#[test]
fn pending_edit_wins_over_generator() {
    let mut interner = Interner::new();
    let mut edits = ModifiedVoxels::new();
    let gold = interner.intern("core::gold");
    let p = IVec3::new(10, 0, 12);
    edits.insert(p, gold.clone());
    let other = IVec3::new(1000, 0, 0);
    edits.insert(other, gold.clone());
    let c = build(IVec3::new(0, 0, 0), None, &FlatGenerator::new(), &mut edits, &mut interner).unwrap();
    let (_, cell) = get_chunk_voxel_position(p);
    let i = linearize(cell);
    assert_eq!(c.get_block_id(i as u32).unwrap().as_str(), "core::gold");
    assert!(edits.get(p).is_none());
    assert!(edits.get(other).is_some());
    assert_eq!(edits.len(), 1);
}

#[test]
fn pending_edit_applies_to_stored_chunk() {
    let mut interner = Interner::new();
    let mut edits = ModifiedVoxels::new();
    let stored = ChunkData::new(IVec3::new(0, 0, 0));
    let p = IVec3::new(1, 1, 1);
    edits.insert(p, interner.intern("core::gold"));
    let c = build(IVec3::new(0, 0, 0), Some(stored), &FlatGenerator::new(), &mut edits, &mut interner).unwrap();
    assert_eq!(c.solid_count, 1);
    let i = linearize(UVec3 { x: 2, y: 2, z: 2 });
    assert_eq!(c.get_block_id(i as u32).unwrap().as_str(), "core::gold");
}

#[test]
fn stored_chunk_at_other_position_is_refused() {
    let mut interner = Interner::new();
    let mut edits = ModifiedVoxels::new();
    let stored = ChunkData::new(IVec3::new(0, 1, 0));
    let r = build(IVec3::new(0, 0, 0), Some(stored), &FlatGenerator::new(), &mut edits, &mut interner);
    assert_eq!(r.err(), Some(ChunkError::PositionMismatch));
}

#[test]
fn cube_index_to_point() {
    assert_eq!(index_to_ivec3_bounds(0, 3), IVec3::new(0, 0, 0));
    assert_eq!(index_to_ivec3_bounds(13, 3), IVec3::new(1, 1, 1));
    assert_eq!(index_to_ivec3_bounds(26, 3), IVec3::new(2, 2, 2));
    assert_eq!(index_to_ivec3_bounds(5, 4), IVec3::new(1, 1, 0));
}

#[test]
fn heightmap_generator_columns() {
    let g = HeightmapGenerator { origin_x: -1, origin_z: -1, size: 2, heights: vec![0, 1, 2, 3] };
    assert_eq!(g.generate(IVec3::new(-1, -1, -1)), "core::grass");
    assert_eq!(g.generate(IVec3::new(-1, 0, -1)), "core::air");
    assert_eq!(g.generate(IVec3::new(0, 2, 0)), "core::grass");
    assert_eq!(g.generate(IVec3::new(0, 3, 0)), "core::air");
    assert_eq!(g.generate(IVec3::new(1, -100, 0)), "core::air");
    assert_eq!(FlatGenerator::new().generate(IVec3::new(5, 0, 5)), "core::grass");
}

#[test]
fn boundary_edit_is_consumed_by_the_first_covering_build() {
    // block (32, 5, 5) lies inside chunk (1, 0, 0) and in the padding of chunk (0, 0, 0)
    let mut interner = Interner::new();
    let mut edits = ModifiedVoxels::new();
    let p = IVec3::new(32, 5, 5);
    edits.insert(p, interner.intern("core::gold"));
    let a = build(IVec3::new(0, 0, 0), None, &FlatGenerator::new(), &mut edits, &mut interner).unwrap();
    let pad = linearize(UVec3 { x: 33, y: 6, z: 6 });
    assert_eq!(a.get_block_id(pad as u32).unwrap().as_str(), "core::gold");
    assert_eq!(edits.len(), 0);
    let b = build(IVec3::new(1, 0, 0), None, &FlatGenerator::new(), &mut edits, &mut interner).unwrap();
    let (c, cell) = get_chunk_voxel_position(p);
    assert_eq!(c, IVec3::new(1, 0, 0));
    assert!(b.get_block_id(linearize(cell) as u32).is_none());
}
