//! Content-addressed cache of built meshes, and the remesh decisions around it.
use std::collections::HashMap;
use vstd::prelude::*;

use crate::chunk::ChunkData;

verus! {

broadcast use vstd::std_specs::hash::group_hash_axioms;

/// A handle to a built mesh, resolved by the renderer.
#[derive(Debug, Clone, Copy, PartialEq, Eq, Hash, Structural)]
pub struct MeshRef(pub u64);

/// Content hash to mesh. Presence is opportunistic: an entry may be dropped at
/// any time once the renderer no longer holds the mesh.
#[derive(Debug)]
pub struct MeshCache {
    map: HashMap<u64, MeshRef>,
}

/// What a dirty chunk needs.
#[derive(Debug, Clone, Copy, PartialEq, Eq, Structural)]
pub enum RemeshPlan {
    /// No solid cell: nothing to draw.
    Empty,
    /// A chunk of the same content was meshed before: reuse its mesh.
    Cached(MeshRef),
    /// Run surface extraction.
    Build,
}

/// The plan for a chunk given the cache contents.
pub open spec fn remesh_plan_of(c: ChunkData, cache: Map<u64, MeshRef>) -> RemeshPlan {
    if c.solid_count == 0 {
        RemeshPlan::Empty
    } else if cache.contains_key(c.hash) {
        RemeshPlan::Cached(cache[c.hash])
    } else {
        RemeshPlan::Build
    }
}

/// The cache after inserting each `(hash, mesh)` pair of `s` in order.
pub open spec fn insert_all(m: Map<u64, MeshRef>, s: Seq<(u64, MeshRef)>) -> Map<u64, MeshRef>
    decreases s.len(),
{
    if s.len() == 0 {
        m
    } else {
        insert_all(m, s.drop_last()).insert(s.last().0, s.last().1)
    }
}

impl View for MeshCache {
    type V = Map<u64, MeshRef>;

    closed spec fn view(&self) -> Map<u64, MeshRef> {
        self.map@
    }
}

impl MeshCache {
    pub fn new() -> (r: Self)
        ensures
            r@ == Map::<u64, MeshRef>::empty(),
    {
        MeshCache { map: HashMap::new() }
    }

    pub fn get(&self, voxel_hash: u64) -> (r: Option<MeshRef>)
        ensures
            self@.contains_key(voxel_hash) ==> r == Some(self@[voxel_hash]),
            !self@.contains_key(voxel_hash) ==> r is None,
    {
        match self.map.get(&voxel_hash) {
            Some(m) => Some(*m),
            None => None,
        }
    }

    pub fn insert(&mut self, voxel_hash: u64, mesh: MeshRef)
        ensures
            final(self)@ == old(self)@.insert(voxel_hash, mesh),
    {
        self.map.insert(voxel_hash, mesh);
    }

    /// Drops the entry of a mesh that nothing holds any more.
    pub fn remove(&mut self, voxel_hash: u64)
        ensures
            final(self)@ == old(self)@.remove(voxel_hash),
    {
        self.map.remove(&voxel_hash);
    }

    pub fn len(&self) -> (r: usize)
        ensures
            r == self@.len(),
    {
        self.map.len()
    }
}

impl Default for MeshCache {
    fn default() -> (r: Self)
        ensures
            r@ == Map::<u64, MeshRef>::empty(),
    {
        MeshCache::new()
    }
}

/// Moves the meshes built since the last flush into the cache, in order.
pub fn flush_mesh_cache(mesh_cache_buffer: &mut Vec<(u64, MeshRef)>, mesh_cache: &mut MeshCache)
    ensures
        final(mesh_cache)@ == insert_all(old(mesh_cache)@, old(mesh_cache_buffer)@),
        final(mesh_cache_buffer)@.len() == 0,
{
    let n = mesh_cache_buffer.len();
    let mut i: usize = 0;
    while i < n
        invariant
            n == mesh_cache_buffer@.len(),
            i <= n,
            mesh_cache_buffer@ == old(mesh_cache_buffer)@,
            mesh_cache@ == insert_all(old(mesh_cache)@, mesh_cache_buffer@.subrange(0, i as int)),
        decreases n - i,
    {
        let (h, m) = mesh_cache_buffer[i];
        assert(mesh_cache_buffer@.subrange(0, i + 1).drop_last() =~= mesh_cache_buffer@.subrange(
            0,
            i as int,
        ));
        mesh_cache.insert(h, m);
        i = i + 1;
    }
    assert(mesh_cache_buffer@.subrange(0, n as int) =~= mesh_cache_buffer@);
    mesh_cache_buffer.clear();
}

/// Decides how a dirty chunk gets its mesh: nothing for an empty chunk, the
/// cached mesh of identical content, or a build.
pub fn plan_remesh(chunk: &ChunkData, mesh_cache: &MeshCache) -> (r: RemeshPlan)
    ensures
        r == remesh_plan_of(*chunk, mesh_cache@),
{
    if chunk.is_empty() {
        RemeshPlan::Empty
    } else {
        match mesh_cache.get(chunk.hash) {
            Some(m) => RemeshPlan::Cached(m),
            None => RemeshPlan::Build,
        }
    }
}

/// Once the mesh of a non-empty chunk is cached, any chunk of identical cells
/// resolves to that same mesh instead of a second build.
pub proof fn mesh_cache_reuse(a: ChunkData, b: ChunkData, cache: Map<u64, MeshRef>, mesh: MeshRef)
    requires
        a.wf(),
        b.wf(),
        a.voxels@ == b.voxels@,
        a.solid_count > 0,
    ensures
        remesh_plan_of(b, cache.insert(a.hash, mesh)) == RemeshPlan::Cached(mesh),
{
}

} // verus!
