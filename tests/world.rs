use minecrust::atom::Interner;
use minecrust::chunk::ChunkData;
use minecrust::chunk_task::BuildChunkTaskInner;
use minecrust::config::VoxelConfig;
use minecrust::coords::{IVec3, UVec3};
use minecrust::edits::ModifiedVoxels;
use minecrust::generator::FlatGenerator;
use minecrust::mesh::{flush_mesh_cache, plan_remesh, MeshCache, MeshRef, RemeshPlan};
use minecrust::storage::plan_save;
use minecrust::world::{MeshOutcome, VoxelWorld};

#[test]
fn duplicate_load_requests_start_one_build() {
    let mut world = VoxelWorld::new();
    let p = IVec3::new(1, 2, 3);
    let q = IVec3::new(0, 0, 0);
    assert!(world.can_load(p));
    let started = world.load_chunks(&vec![p, q, p]);
    assert_eq!(started, vec![p, q]);
    assert!(!world.can_load(p));
    assert!(world.load_chunks(&vec![p]).is_empty());
}

#[test]
fn loaded_and_saving_positions_cannot_load() {
    let mut world = VoxelWorld::new();
    let p = IVec3::new(4, 0, 0);
    world.load_chunks(&vec![p]);
    world.load_chunks_done(ChunkData::new(p));
    assert!(!world.can_load(p));
    assert!(world.is_dirty(p));
    assert_eq!(world.loaded_count(), 1);
    let evicted = world.unload_chunks(p).unwrap();
    assert_eq!(evicted.pos, p);
    assert!(!world.can_load(p));
    assert!(world.load_chunks(&vec![p]).is_empty());
    world.save_done(p);
    assert!(world.can_load(p));
    assert!(world.unload_chunks(p).is_none());
}

#[test]
fn edit_of_unloaded_chunk_waits_for_build() {
    let mut interner = Interner::new();
    let mut world = VoxelWorld::new();
    let mut edits = ModifiedVoxels::new();
    let gold = interner.intern("core::gold");
    let p = IVec3::new(-5, 0, 40);
    let request = world.flush_voxel_write_buffer(&mut edits, p, gold).unwrap();
    let c = IVec3::new(-1, 0, 1);
    assert_eq!(request, Some(c));
    assert_eq!(edits.len(), 1);
    let started = world.load_chunks(&vec![c]);
    assert_eq!(started, vec![c]);
    let built = BuildChunkTaskInner { chunk_pos: c, stored: None, generator: &FlatGenerator::new() }
        .build(&mut edits, &mut interner)
        .unwrap();
    assert_eq!(edits.len(), 0);
    let i = minecrust::coords::linearize(UVec3 { x: 28, y: 1, z: 9 });
    assert_eq!(built.get_block_id(i as u32).unwrap().as_str(), "core::gold");
    world.load_chunks_done(built);
    let stone = interner.intern("core::stone");
    let again = world.flush_voxel_write_buffer(&mut edits, IVec3::new(-5, 1, 40), stone).unwrap();
    assert_eq!(again, None);
    assert_eq!(edits.len(), 0);
    let c2 = world.get_cloned(c).unwrap();
    let j = minecrust::coords::linearize(UVec3 { x: 28, y: 2, z: 9 });
    assert_eq!(c2.get_block_id(j as u32).unwrap().as_str(), "core::stone");
}

#[test]
fn unchanged_chunk_is_not_written_again() {
    let mut interner = Interner::new();
    let stone = interner.intern("core::stone");
    let mut c = ChunkData::new(IVec3::new(0, 0, 0));
    let first = plan_save(None, &c).unwrap().unwrap();
    assert_eq!(plan_save(Some(&first), &c), Ok(None));
    c.set_block(UVec3 { x: 1, y: 1, z: 1 }, &stone).unwrap();
    let second = plan_save(Some(&first), &c).unwrap().unwrap();
    assert_eq!(second, c.encode().unwrap());
    assert!(plan_save(Some(&[1u8, 2][..]), &c).is_err());
}

#[test]
fn identical_chunks_share_a_mesh() {
    let mut interner = Interner::new();
    let stone = interner.intern("core::stone");
    let mut a = ChunkData::new(IVec3::new(0, 0, 0));
    a.set_block(UVec3 { x: 2, y: 2, z: 2 }, &stone).unwrap();
    let mut b = ChunkData::new(IVec3::new(9, 9, 9));
    b.set_block(UVec3 { x: 2, y: 2, z: 2 }, &stone).unwrap();
    let mut cache = MeshCache::new();
    assert_eq!(plan_remesh(&a, &cache), RemeshPlan::Build);
    let mut buffer = vec![(a.hash, MeshRef(77))];
    flush_mesh_cache(&mut buffer, &mut cache);
    assert!(buffer.is_empty());
    assert_eq!(plan_remesh(&b, &cache), RemeshPlan::Cached(MeshRef(77)));
    assert_eq!(plan_remesh(&ChunkData::new(IVec3::new(1, 1, 1)), &cache), RemeshPlan::Empty);
}

#[test]
fn remesh_cycle() {
    let mut interner = Interner::new();
    let stone = interner.intern("core::stone");
    let mut world = VoxelWorld::new();
    let p = IVec3::new(0, 0, 0);
    let mut c = ChunkData::new(p);
    c.set_block(UVec3 { x: 2, y: 2, z: 2 }, &stone).unwrap();
    let hash = c.hash;
    world.load_chunks(&vec![p]);
    world.load_chunks_done(c);
    let cache = MeshCache::new();
    assert_eq!(world.remesh_dirty_chunks(p, &cache), Some(RemeshPlan::Build));
    assert!(!world.is_dirty(p));
    assert_eq!(world.remesh_dirty_chunks(p, &cache), None);
    let mut buffer = Vec::new();
    assert_eq!(world.spawn_mesh(p, None, &cache, &mut buffer), MeshOutcome::Retry);
    assert!(world.is_dirty(p));
    world.remesh_dirty_chunks(p, &cache);
    assert_eq!(world.spawn_mesh(p, Some(MeshRef(5)), &cache, &mut buffer), MeshOutcome::Attached(MeshRef(5)));
    assert_eq!(buffer, vec![(hash, MeshRef(5))]);
}

#[test]
fn far_chunks_are_marked_for_unload() {
    let mut world = VoxelWorld::new();
    let near = IVec3::new(1, 0, 0);
    let far = IVec3::new(10, 0, 0);
    world.load_chunks(&vec![near, far]);
    world.load_chunks_done(ChunkData::new(near));
    world.load_chunks_done(ChunkData::new(far));
    let cache = MeshCache::new();
    world.remesh_dirty_chunks(near, &cache);
    world.remesh_dirty_chunks(far, &cache);
    let mut buffer = Vec::new();
    world.spawn_mesh(near, None, &cache, &mut buffer);
    world.spawn_mesh(far, None, &cache, &mut buffer);
    let config = VoxelConfig { spawning_distance: 4, ..VoxelConfig::default() };
    let marked = world.mark_unload_chunks(&vec![near, far], IVec3::new(0, 0, 0), &config);
    assert_eq!(marked, vec![far]);
}

#[test]
fn visible_positions_are_selected_once() {
    let world = VoxelWorld::new();
    let config = VoxelConfig { spawning_distance: 3, ..VoxelConfig::default() };
    let ray = vec![IVec3::new(0, 0, 1), IVec3::new(0, 0, 2), IVec3::new(0, 0, 3)];
    let picked = world.load_visit_chunks(&vec![ray.clone(), ray], IVec3::new(0, 0, 0), &config);
    assert!(picked.contains(&IVec3::new(0, 0, 1)));
    assert!(picked.contains(&IVec3::new(0, 0, 2)));
    assert!(!picked.contains(&IVec3::new(0, 0, 3)));
    assert!(picked.contains(&IVec3::new(-1, -1, -1)));
    for i in 0..picked.len() {
        for j in i + 1..picked.len() {
            assert_ne!(picked[i], picked[j]);
        }
    }
    assert_eq!(picked.len(), 28);
}

#[test]
fn default_config() {
    let c = VoxelConfig::default();
    assert_eq!(c.spawning_distance, 64);
    assert_eq!(c.max_spawn_per_frame, 8192);
}

#[test]
fn failed_build_frees_the_position() {
    let mut world = VoxelWorld::new();
    let p = IVec3::new(2, 2, 2);
    assert_eq!(world.load_chunks(&vec![p]), vec![p]);
    assert!(!world.can_load(p));
    world.load_failed(p);
    assert!(world.can_load(p));
    assert_eq!(world.loaded_count(), 0);
}
