//! Which chunk positions are loaded, loading, being saved, or waiting for a mesh,
//! and the control-loop decisions that move positions between those states.
use std::collections::HashSet;
use vstd::prelude::*;

use crate::atom::BlockId;
use crate::chunk::{ChunkData, ChunkError};
use crate::coords::{
    cell_in_chunk, chunk_of, get_chunk_voxel_position, lemma_pos_key_injective, linear_index,
    pos_key, IVec3,
};
use crate::config::VoxelConfig;
use crate::coords::{chunk_in_range, sq_dist};
use crate::edits::ModifiedVoxels;
use crate::mesh::{plan_remesh, remesh_plan_of, MeshCache, MeshRef, RemeshPlan};

verus! {

broadcast use vstd::std_specs::hash::group_hash_axioms;

#[verifier::external_type_specification]
#[verifier::external_body]
#[verifier::reject_recursive_types(K)]
#[verifier::reject_recursive_types(H)]
pub struct ExConcurrentSet<K, H: std::hash::BuildHasher>(scc::HashSet<K, H>);

/// Loaded chunks by position key.
pub type ChunkMap = scc::HashMap<u128, ChunkData>;

/// A set of position keys.
pub type PositionSet = scc::HashSet<u128>;

/// What a chunk map holds.
pub uninterp spec fn chunk_map_contents(m: ChunkMap) -> Map<u128, ChunkData>;

/// What a position set holds.
pub uninterp spec fn position_set_contents(s: PositionSet) -> Set<u128>;

/// Relies on `scc::HashSet::default`: a new set is empty.
#[verifier::external_body]
fn set_new() -> (r: PositionSet)
    ensures
        position_set_contents(r).is_empty(),
{
    scc::HashSet::default()
}

/// Relies on `scc::HashSet::contains`.
#[verifier::external_body]
fn set_contains(s: &PositionSet, k: u128) -> (r: bool)
    ensures
        r == position_set_contents(*s).contains(k),
{
    s.contains(&k)
}

/// Relies on `scc::HashSet::insert`: the key is in the set afterwards, whether or
/// not it was before.
#[verifier::external_body]
fn set_insert(s: &mut PositionSet, k: u128)
    ensures
        position_set_contents(*final(s)) == position_set_contents(*old(s)).insert(k),
{
    let _ = s.insert(k);
}

/// Relies on `scc::HashSet::remove`: the key is out of the set afterwards.
#[verifier::external_body]
fn set_remove(s: &mut PositionSet, k: u128)
    ensures
        position_set_contents(*final(s)) == position_set_contents(*old(s)).remove(k),
{
    let _ = s.remove(&k);
}

/// Relies on `scc::HashMap::default`: a new map is empty.
#[verifier::external_body]
fn map_new() -> (r: ChunkMap)
    ensures
        chunk_map_contents(r).dom().is_empty(),
{
    scc::HashMap::default()
}

/// Relies on `scc::HashMap::contains`.
#[verifier::external_body]
fn map_contains(m: &ChunkMap, k: u128) -> (r: bool)
    ensures
        r == chunk_map_contents(*m).contains_key(k),
{
    m.contains(&k)
}

/// Relies on `scc::HashMap::upsert`: `k` maps to `v` afterwards, other keys keep theirs.
#[verifier::external_body]
fn map_upsert(m: &mut ChunkMap, k: u128, v: ChunkData)
    ensures
        chunk_map_contents(*final(m)) == chunk_map_contents(*old(m)).insert(k, v),
{
    m.upsert(k, v);
}

/// Relies on `scc::HashMap::remove`: takes the value under `k` out of the map.
#[verifier::external_body]
fn map_remove(m: &mut ChunkMap, k: u128) -> (r: Option<ChunkData>)
    ensures
        chunk_map_contents(*final(m)) == chunk_map_contents(*old(m)).remove(k),
        r matches Some(v) ==> chunk_map_contents(*old(m)).contains_key(k) && v == chunk_map_contents(*old(m))[k],
        r is None ==> !chunk_map_contents(*old(m)).contains_key(k),
{
    m.remove(&k).map(|(_, v)| v)
}

/// Relies on `scc::HashMap::len`: the number of entries.
#[verifier::external_body]
fn map_len(m: &ChunkMap) -> (r: usize)
    ensures
        r == chunk_map_contents(*m).len(),
{
    m.len()
}

/// Relies on `scc::HashMap::read`: whether the chunk under `k` is full, if present.
#[verifier::external_body]
fn map_is_full(m: &ChunkMap, k: u128) -> (r: Option<bool>)
    ensures
        r matches Some(b) ==> chunk_map_contents(*m).contains_key(k) && b == (chunk_map_contents(*m)[k].solid_count == crate::coords::GRID_SIZE),
        r is None ==> !chunk_map_contents(*m).contains_key(k),
{
    m.read(&k, |_, c| c.is_full())
}

/// Relies on `scc::HashMap::read`: emptiness and content hash of the chunk under `k`, if present.
#[verifier::external_body]
fn map_mesh_key(m: &ChunkMap, k: u128) -> (r: Option<(bool, u64)>)
    ensures
        r matches Some(e) ==> chunk_map_contents(*m).contains_key(k) && e == (chunk_map_contents(*m)[k].solid_count == 0, chunk_map_contents(*m)[k].hash),
        r is None ==> !chunk_map_contents(*m).contains_key(k),
{
    m.read(&k, |_, c| (c.is_empty(), c.hash))
}

/// Relies on `scc::HashMap::read`: the remesh plan of the chunk under `k`, if present.
#[verifier::external_body]
fn map_remesh_plan(m: &ChunkMap, k: u128, mesh_cache: &MeshCache) -> (r: Option<RemeshPlan>)
    ensures
        r matches Some(p) ==> chunk_map_contents(*m).contains_key(k) && p == remesh_plan_of(chunk_map_contents(*m)[k], mesh_cache@),
        r is None ==> !chunk_map_contents(*m).contains_key(k),
{
    m.read(&k, |_, c| plan_remesh(c, mesh_cache))
}

/// Relies on `scc::HashMap::read`: a copy of the chunk under `k`, if present.
#[verifier::external_body]
fn map_copy(m: &ChunkMap, k: u128) -> (r: Option<ChunkData>)
    ensures
        r matches Some(c) ==> chunk_map_contents(*m).contains_key(k) && c.same_content(chunk_map_contents(*m)[k]),
        r is None ==> !chunk_map_contents(*m).contains_key(k),
{
    m.read(&k, |_, c| c.duplicate())
}

/// Lifecycle bookkeeping of every chunk position the world knows about.
#[derive(Debug)]
pub struct VoxelWorld {
    loaded_chunks: ChunkMap,
    loading_chunks: PositionSet,
    saving_chunks: PositionSet,
    dirty_chunks: HashSet<u128>,
    meshing_chunks: HashSet<u128>,
}

impl VoxelWorld {
    /// Loaded chunks, by position key.
    pub closed spec fn loaded(&self) -> Map<u128, ChunkData> {
        chunk_map_contents(self.loaded_chunks)
    }

    /// Positions with a build in flight.
    pub closed spec fn loading(&self) -> Set<u128> {
        position_set_contents(self.loading_chunks)
    }

    /// Positions with a save in flight.
    pub closed spec fn saving(&self) -> Set<u128> {
        position_set_contents(self.saving_chunks)
    }

    /// Loaded positions whose mesh is out of date.
    pub closed spec fn dirty(&self) -> Set<u128> {
        self.dirty_chunks@
    }

    /// Loaded positions with a mesh task in flight.
    pub closed spec fn meshing(&self) -> Set<u128> {
        self.meshing_chunks@
    }

    /// A new build may start for `k` only when no state holds it.
    pub open spec fn loadable(&self, k: u128) -> bool {
        !self.loaded().contains_key(k) && !self.loading().contains(k) && !self.saving().contains(k)
    }

    /// The two worlds hold the same states.
    pub open spec fn same_state(&self, other: VoxelWorld) -> bool {
        &&& self.loaded() == other.loaded()
        &&& self.loading() == other.loading()
        &&& self.saving() == other.saving()
        &&& self.dirty() == other.dirty()
        &&& self.meshing() == other.meshing()
    }

    pub open spec fn wf(&self) -> bool {
        &&& forall|k: u128| #[trigger]
            self.loaded().contains_key(k) ==> self.loaded()[k].wf() && pos_key(
                self.loaded()[k].pos,
            ) == k
        &&& forall|k: u128| #[trigger] self.loading().contains(k) ==> !self.loaded().contains_key(k)
        &&& forall|k: u128| #[trigger] self.dirty().contains(k) ==> self.loaded().contains_key(k)
        &&& forall|k: u128| #[trigger] self.meshing().contains(k) ==> self.loaded().contains_key(k)
    }

    pub fn new() -> (r: Self)
        ensures
            r.wf(),
            r.loaded() == Map::<u128, ChunkData>::empty(),
            r.loading() == Set::<u128>::empty(),
            r.saving() == Set::<u128>::empty(),
            r.dirty() == Set::<u128>::empty(),
            r.meshing() == Set::<u128>::empty(),
    {
        VoxelWorld {
            loaded_chunks: map_new(),
            loading_chunks: set_new(),
            saving_chunks: set_new(),
            dirty_chunks: HashSet::new(),
            meshing_chunks: HashSet::new(),
        }
    }

    /// No build may start for `pos` while it is loaded, loading or being saved.
    pub fn can_load(&self, pos: IVec3) -> (r: bool)
        ensures
            r == self.loadable(pos_key(pos)),
    {
        let k = pos.key();
        !(map_contains(&self.loaded_chunks, k) || set_contains(&self.loading_chunks, k)
            || set_contains(&self.saving_chunks, k))
    }

    /// A copy of the loaded chunk at `pos`, for a task to work on.
    pub fn get_cloned(&self, pos: IVec3) -> (r: Option<ChunkData>)
        ensures
            r matches Some(c) ==> self.loaded().contains_key(pos_key(pos)) && c.same_content(self.loaded()[pos_key(pos)]),
            r is None ==> !self.loaded().contains_key(pos_key(pos)),
    {
        let k = pos.key();
        map_copy(&self.loaded_chunks, k)
    }

    pub fn loaded_count(&self) -> (r: usize)
        ensures
            r == self.loaded().len(),
    {
        map_len(&self.loaded_chunks)
    }

    pub fn is_dirty(&self, pos: IVec3) -> (r: bool)
        ensures
            r == self.dirty().contains(pos_key(pos)),
    {
        let k = pos.key();
        self.dirty_chunks.contains(&k)
    }
}

impl Default for VoxelWorld {
    fn default() -> (r: Self)
        ensures
            r.wf(),
            r.loaded().dom().is_empty(),
            r.loading().is_empty(),
            r.saving().is_empty(),
    {
        VoxelWorld::new()
    }
}

/// The world invariant survives a step that changes only key `k`: the chunk
/// under `k` (if any) is well-formed, no other loaded chunk changed, and the
/// other sets only shrank, apart from `k`, which is loaded wherever it was added.
proof fn lemma_wf_step(w0: VoxelWorld, w: VoxelWorld, k: u128)
    requires
        w0.wf(),
        forall|kk: u128|
            kk != k ==> (#[trigger] w.loaded().contains_key(kk) == w0.loaded().contains_key(kk)
                && (w0.loaded().contains_key(kk) ==> w.loaded()[kk] == w0.loaded()[kk])),
        w.loaded().contains_key(k) ==> w.loaded()[k].wf() && pos_key(w.loaded()[k].pos) == k,
        forall|kk: u128| #[trigger] w.loading().contains(kk) ==> w0.loading().contains(kk),
        w.loading().contains(k) ==> !w.loaded().contains_key(k),
        forall|kk: u128| #[trigger] w.dirty().contains(kk) ==> w0.dirty().contains(kk) || kk == k,
        w.dirty().contains(k) ==> w.loaded().contains_key(k),
        forall|kk: u128| #[trigger] w.meshing().contains(kk) ==> w0.meshing().contains(kk) || kk == k,
        w.meshing().contains(k) ==> w.loaded().contains_key(k),
    ensures
        w.wf(),
{
    assert forall|kk: u128| #[trigger] w.loaded().contains_key(kk) implies w.loaded()[kk].wf() && pos_key(w.loaded()[kk].pos) == kk by {
        if kk != k {
            assert(w0.loaded().contains_key(kk));
        }
    }
    assert forall|kk: u128| #[trigger] w.loading().contains(kk) implies !w.loaded().contains_key(kk) by {
        assert(w0.loading().contains(kk));
        if kk != k {
            assert(!w0.loaded().contains_key(kk));
        }
    }
    assert forall|kk: u128| #[trigger] w.dirty().contains(kk) implies w.loaded().contains_key(kk) by {
        if kk != k {
            assert(w0.dirty().contains(kk));
            assert(w0.loaded().contains_key(kk));
        }
    }
    assert forall|kk: u128| #[trigger] w.meshing().contains(kk) implies w.loaded().contains_key(kk) by {
        if kk != k {
            assert(w0.meshing().contains(kk));
            assert(w0.loaded().contains_key(kk));
        }
    }
}

/// Keys of a run of positions.
pub open spec fn keys_of(s: Seq<IVec3>) -> Set<u128> {
    Set::new(|k: u128| exists|i: int| 0 <= i < s.len() && k == pos_key(#[trigger] s[i]))
}

/// `w2` is `w` after starting builds for `started`, out of the requests `queue`.
pub open spec fn loads_started(w: VoxelWorld, queue: Seq<IVec3>, w2: VoxelWorld, started: Seq<IVec3>) -> bool {
    &&& w2.loaded() == w.loaded()
    &&& w2.saving() == w.saving()
    &&& w2.dirty() == w.dirty()
    &&& w2.meshing() == w.meshing()
    &&& w2.loading() == w.loading().union(keys_of(started))
    &&& forall|i: int, j: int| 0 <= i < j < started.len() ==> started[i] != started[j]
    &&& forall|i: int| 0 <= i < started.len() ==> w.loadable(pos_key(#[trigger] started[i])) && queue.contains(started[i])
    &&& forall|p: IVec3| #[trigger] queue.contains(p) && w.loadable(pos_key(p)) ==> started.contains(p)
}

impl VoxelWorld {
    /// Takes the queued load requests and marks as loading each position that no
    /// state holds; returns those positions, each once, for their builds to start.
    pub fn load_chunks(&mut self, load_queue: &Vec<IVec3>) -> (r: Vec<IVec3>)
        requires
            old(self).wf(),
        ensures
            final(self).wf(),
            loads_started(*old(self), load_queue@, *final(self), r@),
    {
        let ghost w0 = *self;
        let mut started: Vec<IVec3> = Vec::new();
        let mut i: usize = 0;
        while i < load_queue.len()
            invariant
                w0 == *old(self),
                w0.wf(),
                i <= load_queue@.len(),
                self.loaded() == w0.loaded(),
                self.saving() == w0.saving(),
                self.dirty() == w0.dirty(),
                self.meshing() == w0.meshing(),
                self.loading() == w0.loading().union(keys_of(started@)),
                forall|a: int, b: int| 0 <= a < b < started@.len() ==> started@[a] != started@[b],
                forall|a: int| 0 <= a < started@.len() ==> w0.loadable(pos_key(#[trigger] started@[a])) && load_queue@.subrange(0, i as int).contains(started@[a]),
                forall|a: int| 0 <= a < i && w0.loadable(pos_key(#[trigger] load_queue@[a])) ==> started@.contains(load_queue@[a]),
            decreases load_queue@.len() - i,
        {
            let p = load_queue[i];
            let ghost prev = started@;
            if self.can_load(p) {
                let k = p.key();
                set_insert(&mut self.loading_chunks, k);
                started.push(p);
                proof {
                    assert(started@[prev.len() as int] == p);
                    assert(started@.contains(p));
                    assert(keys_of(started@) =~= keys_of(prev).insert(pos_key(p))) by {
                        assert forall|kk: u128| #[trigger] keys_of(started@).contains(kk) implies keys_of(prev).insert(pos_key(p)).contains(kk) by {
                            let j = choose|j: int| 0 <= j < started@.len() && kk == pos_key(#[trigger] started@[j]);
                            if j < prev.len() {
                                assert(prev[j] == started@[j]);
                            }
                        }
                        assert forall|kk: u128| #[trigger] keys_of(prev).insert(pos_key(p)).contains(kk) implies keys_of(started@).contains(kk) by {
                            if kk == pos_key(p) {
                                assert(started@[prev.len() as int] == p);
                            } else {
                                let j = choose|j: int| 0 <= j < prev.len() && kk == pos_key(#[trigger] prev[j]);
                                assert(started@[j] == prev[j]);
                            }
                        }
                    }
                    assert forall|a: int, b: int| 0 <= a < b < started@.len() implies started@[a] != started@[b] by {
                        if b == prev.len() {
                            assert(keys_of(prev).contains(pos_key(prev[a])));
                        }
                    }
                }
            } else {
                proof {
                    if w0.loadable(pos_key(p)) {
                        assert(keys_of(prev).contains(pos_key(p)));
                        let j = choose|j: int| 0 <= j < prev.len() && pos_key(p) == pos_key(#[trigger] prev[j]);
                        lemma_pos_key_injective(p, prev[j]);
                        assert(started@.contains(p));
                    }
                }
            }
            proof {
                assert(load_queue@.subrange(0, i + 1) =~= load_queue@.subrange(0, i as int).push(p));
                assert forall|a: int| 0 <= a < started@.len() implies w0.loadable(pos_key(#[trigger] started@[a])) && load_queue@.subrange(0, i + 1).contains(started@[a]) by {
                    if a < prev.len() {
                        assert(started@[a] == prev[a]);
                        let j = choose|j: int| 0 <= j < i && load_queue@.subrange(0, i as int)[j] == prev[a];
                        assert(load_queue@.subrange(0, i + 1)[j] == prev[a]);
                    } else {
                        assert(load_queue@.subrange(0, i + 1)[i as int] == p);
                    }
                }
                assert forall|a: int| 0 <= a < i + 1 && w0.loadable(pos_key(#[trigger] load_queue@[a])) implies started@.contains(load_queue@[a]) by {
                    if a < i {
                        let j = choose|j: int| 0 <= j < prev.len() && prev[j] == load_queue@[a];
                        assert(started@[j] == prev[j]);
                    } else {
                        assert(load_queue@[a] == p);
                    }
                }
            }
            i = i + 1;
        }
        proof {
            assert(load_queue@.subrange(0, i as int) =~= load_queue@);
            assert forall|k: u128| #[trigger] self.loading().contains(k) implies !self.loaded().contains_key(k) by {
                if keys_of(started@).contains(k) {
                    let j = choose|j: int| 0 <= j < started@.len() && k == pos_key(#[trigger] started@[j]);
                }
            }
            assert forall|pp: IVec3| #[trigger] load_queue@.contains(pp) && w0.loadable(pos_key(pp)) implies started@.contains(pp) by {
                let a = choose|a: int| 0 <= a < load_queue@.len() && load_queue@[a] == pp;
            }
        }
        started
    }
}

/// Outcome of applying an edit to a chunk that is not loaded.
pub open spec fn edit_buffered(w: VoxelWorld, block_pos: IVec3, r: Option<IVec3>) -> bool {
    let c = chunk_of(block_pos);
    &&& w.loadable(pos_key(c)) ==> r == Some(c)
    &&& !w.loadable(pos_key(c)) ==> r is None
}

impl VoxelWorld {
    /// A finished build: the position moves from loading to loaded, and needs a mesh.
    pub fn load_chunks_done(&mut self, data: ChunkData)
        requires
            old(self).wf(),
            data.wf(),
        ensures
            final(self).wf(),
            final(self).loaded() == old(self).loaded().insert(pos_key(data.pos), data),
            final(self).loading() == old(self).loading().remove(pos_key(data.pos)),
            final(self).dirty() == old(self).dirty().insert(pos_key(data.pos)),
            final(self).saving() == old(self).saving(),
            final(self).meshing() == old(self).meshing(),
    {
        let k = data.pos.key();
        set_remove(&mut self.loading_chunks, k);
        self.dirty_chunks.insert(k);
        map_upsert(&mut self.loaded_chunks, k, data);
        proof {
            let w0 = *old(self);
            lemma_wf_step(w0, *self, k);
        }
    }

    /// Applies one entry of the edit buffer. A loaded chunk takes it at once and needs a new
    /// mesh. Otherwise the edit waits in `modified` for the chunk's build, and the
    /// chunk's position is returned when a load should be requested for it.
    pub fn flush_voxel_write_buffer(
        &mut self,
        modified: &mut ModifiedVoxels,
        block_pos: IVec3,
        block_id: BlockId,
    ) -> (r: Result<Option<IVec3>, ChunkError>)
        requires
            old(self).wf(),
        ensures
            final(self).wf(),
            final(self).loading() == old(self).loading(),
            final(self).saving() == old(self).saving(),
            final(self).meshing() == old(self).meshing(),
            final(self).loaded().dom() == old(self).loaded().dom(),
            ({
                let k = pos_key(chunk_of(block_pos));
                let cell = cell_in_chunk(block_pos);
                let idx = linear_index(cell.x as int, cell.y as int, cell.z as int);
                if old(self).loaded().contains_key(k) {
                    &&& final(modified)@ == old(modified)@
                    &&& (r is Err) == (block_id.key() != 0 && !old(self).loaded()[k].palette.has_key(block_id.key())
                        && old(self).loaded()[k].palette.atoms().len() == crate::palette::PALETTE_CAPACITY)
                    &&& r is Ok ==> forall|j: int| 0 <= j < crate::coords::GRID_SIZE && j != idx
                        ==> final(self).loaded()[k].voxels@[j] == old(self).loaded()[k].voxels@[j]
                    &&& r is Ok ==> {
                        &&& r == Ok::<Option<IVec3>, ChunkError>(None)
                        &&& final(self).loaded()[k].cell_key(idx) == block_id.key()
                        &&& forall|j: int| 0 <= j < crate::coords::GRID_SIZE && j != idx ==> final(self).loaded()[k].cell_key(j) == old(self).loaded()[k].cell_key(j)
                        &&& final(self).loaded() == old(self).loaded().insert(k, final(self).loaded()[k])
                        &&& final(self).dirty() == old(self).dirty().insert(k)
                    }
                    &&& r is Err ==> r == Err::<Option<IVec3>, ChunkError>(ChunkError::PaletteFull) && final(self).same_state(*old(self))
                } else {
                    &&& final(modified)@ == old(modified)@.insert(pos_key(block_pos), block_id)
                    &&& final(self).same_state(*old(self))
                    &&& r matches Ok(o) && edit_buffered(*old(self), block_pos, o)
                }
            }),
    {
        let (chunk_pos, cell) = get_chunk_voxel_position(block_pos);
        let k = chunk_pos.key();
        proof {
            assert(cell.x < 34 && cell.y < 34 && cell.z < 34);
        }
        match map_remove(&mut self.loaded_chunks, k) {
            Some(mut data) => {
                let ghost w0 = *old(self);
                assert(w0.loaded().contains_key(k));
                assert(data == w0.loaded()[k]);
                let res = data.set_block(cell, &block_id);
                map_upsert(&mut self.loaded_chunks, k, data);
                match res {
                    Ok(()) => {
                        self.dirty_chunks.insert(k);
                        proof {
                            assert(self.loaded() =~= w0.loaded().insert(k, self.loaded()[k]));
                            assert(w0.loading().contains(k) ==> !w0.loaded().contains_key(k));
                            lemma_wf_step(w0, *self, k);
                        }
                        Ok(None)
                    },
                    Err(e) => {
                        proof {
                            assert(self.loaded() =~= w0.loaded());
                            assert(self.same_state(w0));
                            assert(self.wf());
                        }
                        Err(e)
                    },
                }
            },
            None => {
                assert(self.loaded() =~= old(self).loaded());
                let request = self.can_load(chunk_pos);
                modified.insert(block_pos, block_id);
                assert(old(self).wf());
                assert(self.loading() == old(self).loading());
                assert(self.dirty() == old(self).dirty());
                assert(self.meshing() == old(self).meshing());
                assert(self.loaded() == old(self).loaded());
                assert(self.wf());
                if request {
                    Ok(Some(chunk_pos))
                } else {
                    Ok(None)
                }
            },
        }
    }
}

/// What became of a chunk's mesh task.
#[derive(Debug, Clone, Copy, PartialEq, Eq, Structural)]
pub enum MeshOutcome {
    /// The chunk is empty or no longer loaded: it shows no mesh.
    Cleared,
    /// The chunk shows this mesh.
    Attached(MeshRef),
    /// No mesh came back: the chunk is marked for another remesh.
    Retry,
}

/// `p` is outside the loading radius around `camera_chunk`.
pub open spec fn beyond_radius(p: IVec3, camera_chunk: IVec3, radius: u32) -> bool {
    sq_dist(p, camera_chunk) > radius * radius - 1
}

impl VoxelWorld {
    /// Loaded chunks outside the radius with no mesh work pending, among `candidates`.
    pub fn mark_unload_chunks(&self, candidates: &Vec<IVec3>, camera_chunk: IVec3, config: &VoxelConfig) -> (r: Vec<IVec3>)
        ensures
            forall|i: int| 0 <= i < r@.len() ==> {
                let p = #[trigger] r@[i];
                &&& candidates@.contains(p)
                &&& beyond_radius(p, camera_chunk, config.spawning_distance)
                &&& self.loaded().contains_key(pos_key(p))
                &&& !self.dirty().contains(pos_key(p))
                &&& !self.meshing().contains(pos_key(p))
            },
            forall|p: IVec3| #[trigger] candidates@.contains(p) && beyond_radius(p, camera_chunk, config.spawning_distance)
                && self.loaded().contains_key(pos_key(p)) && !self.dirty().contains(pos_key(p))
                && !self.meshing().contains(pos_key(p)) ==> r@.contains(p),
    {
        let d = config.spawning_distance as i128;
        assert(0 <= d * d <= 0x1_0000_0000_0000_0000) by (nonlinear_arith)
            requires 0 <= d < 0x1_0000_0000;
        let limit = d * d - 1;
        let mut out: Vec<IVec3> = Vec::new();
        let mut i: usize = 0;
        while i < candidates.len()
            invariant
                i <= candidates@.len(),
                limit == config.spawning_distance * config.spawning_distance - 1,
                forall|j: int| 0 <= j < out@.len() ==> {
                    let p = #[trigger] out@[j];
                    &&& candidates@.contains(p)
                    &&& beyond_radius(p, camera_chunk, config.spawning_distance)
                    &&& self.loaded().contains_key(pos_key(p))
                    &&& !self.dirty().contains(pos_key(p))
                    &&& !self.meshing().contains(pos_key(p))
                },
                forall|j: int| 0 <= j < i && {
                    let p = #[trigger] candidates@[j];
                    &&& beyond_radius(p, camera_chunk, config.spawning_distance)
                    &&& self.loaded().contains_key(pos_key(p))
                    &&& !self.dirty().contains(pos_key(p))
                    &&& !self.meshing().contains(pos_key(p))
                } ==> out@.contains(candidates@[j]),
            decreases candidates@.len() - i,
        {
            let p = candidates[i];
            let k = p.key();
            let ghost prev = out@;
            if p.distance_squared(&camera_chunk) > limit && map_contains(&self.loaded_chunks, k)
                && !self.dirty_chunks.contains(&k) && !self.meshing_chunks.contains(&k) {
                out.push(p);
                proof {
                    assert(out@[prev.len() as int] == p);
                }
            }
            proof {
                assert forall|j: int| 0 <= j < out@.len() implies candidates@.contains(#[trigger] out@[j]) by {
                    if j < prev.len() {
                        assert(out@[j] == prev[j]);
                    } else {
                        assert(candidates@[i as int] == p);
                    }
                }
                assert forall|j: int| 0 <= j < i + 1 && {
                    let p = #[trigger] candidates@[j];
                    &&& beyond_radius(p, camera_chunk, config.spawning_distance)
                    &&& self.loaded().contains_key(pos_key(p))
                    &&& !self.dirty().contains(pos_key(p))
                    &&& !self.meshing().contains(pos_key(p))
                } implies out@.contains(candidates@[j]) by {
                    if j < i {
                        let a = choose|a: int| 0 <= a < prev.len() && prev[a] == candidates@[j];
                        assert(out@[a] == prev[a]);
                    }
                }
            }
            i = i + 1;
        }
        proof {
            assert forall|p: IVec3| #[trigger] candidates@.contains(p) && beyond_radius(p, camera_chunk, config.spawning_distance)
                && self.loaded().contains_key(pos_key(p)) && !self.dirty().contains(pos_key(p))
                && !self.meshing().contains(pos_key(p)) implies out@.contains(p) by {
                let j = choose|j: int| 0 <= j < candidates@.len() && candidates@[j] == p;
            }
        }
        out
    }

    /// Evicts one chunk of the unload buffer: it leaves the loaded set and enters the saving set,
    /// and is handed back for its save task. `None` when `pos` is not loaded.
    pub fn unload_chunks(&mut self, pos: IVec3) -> (r: Option<ChunkData>)
        requires
            old(self).wf(),
        ensures
            final(self).wf(),
            old(self).loaded().contains_key(pos_key(pos)) ==> {
                &&& r == Some(old(self).loaded()[pos_key(pos)])
                &&& final(self).loaded() == old(self).loaded().remove(pos_key(pos))
                &&& final(self).saving() == old(self).saving().insert(pos_key(pos))
                &&& final(self).loading() == old(self).loading()
                &&& final(self).dirty() == old(self).dirty().remove(pos_key(pos))
                &&& final(self).meshing() == old(self).meshing().remove(pos_key(pos))
            },
            !old(self).loaded().contains_key(pos_key(pos)) ==> r is None && final(self).same_state(*old(self)),
    {
        let k = pos.key();
        let ghost w0 = *self;
        match map_remove(&mut self.loaded_chunks, k) {
            Some(data) => {
                set_insert(&mut self.saving_chunks, k);
                self.dirty_chunks.remove(&k);
                self.meshing_chunks.remove(&k);
                proof {
                    lemma_wf_step(w0, *self, k);
                }
                Some(data)
            },
            None => {
                assert(self.loaded() =~= w0.loaded());
                assert(self.loading() == w0.loading());
                assert(self.dirty() == w0.dirty());
                assert(self.meshing() == w0.meshing());
                None
            },
        }
    }

    /// A build failed: the position leaves the loading set without becoming loaded.
    pub fn load_failed(&mut self, pos: IVec3)
        requires
            old(self).wf(),
        ensures
            final(self).wf(),
            final(self).loading() == old(self).loading().remove(pos_key(pos)),
            final(self).loaded() == old(self).loaded(),
            final(self).saving() == old(self).saving(),
            final(self).dirty() == old(self).dirty(),
            final(self).meshing() == old(self).meshing(),
    {
        let k = pos.key();
        let ghost w0 = *self;
        set_remove(&mut self.loading_chunks, k);
        proof {
            assert(self.loaded() == w0.loaded());
            assert(w0.loaded().contains_key(k) ==> w0.loaded()[k].wf() && pos_key(w0.loaded()[k].pos) == k);
            assert(self.dirty() == w0.dirty() && self.meshing() == w0.meshing());
            assert(w0.dirty().contains(k) ==> w0.loaded().contains_key(k));
            assert(w0.meshing().contains(k) ==> w0.loaded().contains_key(k));
            lemma_wf_step(w0, *self, k);
        }
    }

    /// A save task finished: the position leaves the saving set.
    pub fn save_done(&mut self, pos: IVec3)
        requires
            old(self).wf(),
        ensures
            final(self).wf(),
            final(self).saving() == old(self).saving().remove(pos_key(pos)),
            final(self).loaded() == old(self).loaded(),
            final(self).loading() == old(self).loading(),
            final(self).dirty() == old(self).dirty(),
            final(self).meshing() == old(self).meshing(),
    {
        let k = pos.key();
        let ghost w0 = *self;
        set_remove(&mut self.saving_chunks, k);
        assert(self.loading() == w0.loading());
        assert(self.dirty() == w0.dirty());
        assert(self.meshing() == w0.meshing());
        assert(self.loaded() == w0.loaded());
    }

    /// Starts the mesh task of one dirty chunk: it leaves the dirty set for the
    /// meshing set, and the plan says whether to skip, reuse or build.
    pub fn remesh_dirty_chunks(&mut self, pos: IVec3, mesh_cache: &MeshCache) -> (r: Option<RemeshPlan>)
        requires
            old(self).wf(),
        ensures
            final(self).wf(),
            final(self).loaded() == old(self).loaded(),
            final(self).loading() == old(self).loading(),
            final(self).saving() == old(self).saving(),
            old(self).dirty().contains(pos_key(pos)) ==> {
                &&& r == Some(remesh_plan_of(old(self).loaded()[pos_key(pos)], mesh_cache@))
                &&& final(self).dirty() == old(self).dirty().remove(pos_key(pos))
                &&& final(self).meshing() == old(self).meshing().insert(pos_key(pos))
            },
            !old(self).dirty().contains(pos_key(pos)) ==> r is None && final(self).same_state(*old(self)),
    {
        let k = pos.key();
        let ghost w0 = *self;
        if !self.dirty_chunks.contains(&k) {
            return None;
        }
        assert(w0.dirty().contains(k));
        assert(w0.loaded().contains_key(k));
        let plan = match map_remesh_plan(&self.loaded_chunks, k, mesh_cache) {
            Some(plan) => plan,
            None => RemeshPlan::Empty,
        };
        self.dirty_chunks.remove(&k);
        self.meshing_chunks.insert(k);
        proof {
            assert(self.loaded() == w0.loaded());
            assert(self.loading() == w0.loading());
            lemma_wf_step(w0, *self, k);
        }
        Some(plan)
    }

    /// A mesh task of `pos` finished with `built` (the mesh it built, if any).
    /// A non-empty chunk takes the cached mesh of its content if there is one,
    /// else the built mesh, which is queued for the cache; with neither it is
    /// marked for another remesh.
    pub fn spawn_mesh(
        &mut self,
        pos: IVec3,
        built: Option<MeshRef>,
        mesh_cache: &MeshCache,
        mesh_cache_buffer: &mut Vec<(u64, MeshRef)>,
    ) -> (r: MeshOutcome)
        requires
            old(self).wf(),
        ensures
            final(self).wf(),
            final(self).loaded() == old(self).loaded(),
            final(self).loading() == old(self).loading(),
            final(self).saving() == old(self).saving(),
            final(self).meshing() == old(self).meshing().remove(pos_key(pos)),
            ({
                let k = pos_key(pos);
                let c = old(self).loaded()[k];
                if !old(self).loaded().contains_key(k) || c.solid_count == 0 {
                    &&& r == MeshOutcome::Cleared
                    &&& final(self).dirty() == old(self).dirty()
                    &&& final(mesh_cache_buffer)@ == old(mesh_cache_buffer)@
                } else if mesh_cache@.contains_key(c.hash) {
                    &&& r == MeshOutcome::Attached(mesh_cache@[c.hash])
                    &&& final(self).dirty() == old(self).dirty()
                    &&& final(mesh_cache_buffer)@ == old(mesh_cache_buffer)@
                } else if built is Some {
                    &&& r == MeshOutcome::Attached(built->0)
                    &&& final(self).dirty() == old(self).dirty()
                    &&& final(mesh_cache_buffer)@ == old(mesh_cache_buffer)@.push((c.hash, built->0))
                } else {
                    &&& r == MeshOutcome::Retry
                    &&& final(self).dirty() == old(self).dirty().insert(k)
                    &&& final(mesh_cache_buffer)@ == old(mesh_cache_buffer)@
                }
            }),
    {
        let k = pos.key();
        let ghost w0 = *self;
        self.meshing_chunks.remove(&k);
        proof {
            assert(self.loaded() == w0.loaded());
            assert(self.loading() == w0.loading());
            assert(self.dirty() == w0.dirty());
            lemma_wf_step(w0, *self, k);
            assert(self.wf());
        }
        let (empty, hash) = match map_mesh_key(&self.loaded_chunks, k) {
            Some(e) => e,
            None => return MeshOutcome::Cleared,
        };
        if empty {
            return MeshOutcome::Cleared;
        }
        match mesh_cache.get(hash) {
            Some(m) => MeshOutcome::Attached(m),
            None => match built {
                Some(m) => {
                    mesh_cache_buffer.push((hash, m));
                    MeshOutcome::Attached(m)
                },
                None => {
                    let ghost w1 = *self;
                    self.dirty_chunks.insert(k);
                    proof {
                        assert(self.loaded() == w1.loaded());
                        assert(self.loading() == w1.loading());
                        assert(self.meshing() == w1.meshing());
                        assert(w1.wf());
                        assert(self.loaded().contains_key(k));
                        lemma_wf_step(w1, *self, k);
                    }
                    MeshOutcome::Retry
                },
            },
        }
    }
}

/// The `j`-th of the 27 chunk positions around `c` (offsets -1 to 1 on each axis).
pub open spec fn neighbor(c: IVec3, j: int) -> IVec3 {
    IVec3 {
        x: (c.x + j % 3 - 1) as i32,
        y: (c.y + (j / 3) % 3 - 1) as i32,
        z: (c.z + j / 9 - 1) as i32,
    }
}

impl VoxelWorld {
    /// A loaded chunk with every cell solid sits at `p`; it hides what lies behind it.
    pub open spec fn full_at(&self, p: IVec3) -> bool {
        self.loaded().contains_key(pos_key(p)) && self.loaded()[pos_key(p)].solid_count
            == crate::coords::GRID_SIZE
    }

    /// No full loaded chunk among the first `t` positions of `ray`.
    pub open spec fn unblocked(&self, ray: Seq<IVec3>, t: int) -> bool {
        forall|u: int| 0 <= u < t ==> !self.full_at(#[trigger] ray[u])
    }

    /// Each ray is short enough that its positions and the 27 neighbours never
    /// exceed the backlog cap.
    pub open spec fn backlog_fits(rays: Seq<Vec<IVec3>>, cap: u32) -> bool {
        forall|a: int| 0 <= a < rays.len() ==> #[trigger] rays[a]@.len() + 26 <= cap
    }

    /// The position `t` of ray `a` is reached before any full loaded chunk and is not loaded.
    pub open spec fn reached_unloaded(&self, rays: Seq<Vec<IVec3>>, a: int, t: int) -> bool {
        &&& 0 <= a < rays.len()
        &&& 0 <= t < rays[a]@.len()
        &&& self.unblocked(rays[a]@, t)
        &&& !self.loaded().contains_key(pos_key(rays[a]@[t]))
    }

    /// `p` lies on one of `rays` before its first full loaded chunk, or is one of
    /// the 27 positions around `c`.
    pub open spec fn load_origin(&self, rays: Seq<Vec<IVec3>>, c: IVec3, p: IVec3) -> bool {
        ||| exists|a: int, t: int|
            0 <= a < rays.len() && 0 <= t < rays[a]@.len() && #[trigger] rays[a]@[t] == p
                && self.unblocked(rays[a]@, t)
        ||| exists|j: int| 0 <= j < 27 && #[trigger] neighbor(c, j) == p
    }
}

impl VoxelWorld {
    /// Picks the positions to load this pass. Each ray lists the chunk positions
    /// it crosses, nearest first; a ray queues the unloaded ones and stops at the
    /// first full loaded chunk, which hides what lies behind it. The 3x3x3 block
    /// around the viewpoint's chunk is queued after each ray. A queued position
    /// is skipped when this pass already visited it, when the backlog behind it
    /// exceeds the cap, or when it lies outside the loading radius; of the rest,
    /// those that no state holds are returned, each once.
    pub fn load_visit_chunks(&self, rays: &Vec<Vec<IVec3>>, camera_chunk: IVec3, config: &VoxelConfig) -> (r: Vec<IVec3>)
        requires
            chunk_in_range(camera_chunk),
        ensures
            forall|i: int| 0 <= i < r@.len() ==> self.loadable(pos_key(#[trigger] r@[i])) && !beyond_radius(r@[i], camera_chunk, config.spawning_distance),
            forall|i: int, j: int| 0 <= i < j < r@.len() ==> r@[i] != r@[j],
            forall|i: int| 0 <= i < r@.len() ==> self.load_origin(rays@, camera_chunk, #[trigger] r@[i]),
            rays@.len() > 0 && config.max_spawn_per_frame >= 26 ==> forall|j: int|
                0 <= j < 27 && self.loadable(pos_key(#[trigger] neighbor(camera_chunk, j)))
                    && !beyond_radius(neighbor(camera_chunk, j), camera_chunk, config.spawning_distance)
                    ==> r@.contains(neighbor(camera_chunk, j)),
            Self::backlog_fits(rays@, config.max_spawn_per_frame) ==> forall|a: int, t: int|
                #[trigger] self.reached_unloaded(rays@, a, t) && self.loadable(pos_key(rays@[a]@[t]))
                    && !beyond_radius(rays@[a]@[t], camera_chunk, config.spawning_distance)
                    ==> r@.contains(rays@[a]@[t]),
    {
        let d = config.spawning_distance as i128;
        assert(0 <= d * d <= 0x1_0000_0000_0000_0000) by (nonlinear_arith)
            requires 0 <= d < 0x1_0000_0000;
        let limit = d * d - 1;
        let cap = config.max_spawn_per_frame as usize;
        let mut visited: HashSet<u128> = HashSet::new();
        let mut out: Vec<IVec3> = Vec::new();
        let mut ri: usize = 0;
        while ri < rays.len()
            invariant
                ri <= rays@.len(),
                chunk_in_range(camera_chunk),
                cap == config.max_spawn_per_frame,
                limit == config.spawning_distance * config.spawning_distance - 1,
                forall|i: int| 0 <= i < out@.len() ==> self.loadable(pos_key(#[trigger] out@[i])) && !beyond_radius(out@[i], camera_chunk, config.spawning_distance),
                forall|i: int, j: int| 0 <= i < j < out@.len() ==> out@[i] != out@[j],
                forall|i: int| 0 <= i < out@.len() ==> visited@.contains(pos_key(#[trigger] out@[i])),
                forall|p: IVec3| visited@.contains(#[trigger] pos_key(p)) && self.loadable(pos_key(p)) && !beyond_radius(p, camera_chunk, config.spawning_distance) ==> out@.contains(p),
                ri > 0 && cap >= 26 ==> forall|j: int| 0 <= j < 27 ==> visited@.contains(pos_key(#[trigger] neighbor(camera_chunk, j))),
                forall|i: int| 0 <= i < out@.len() ==> self.load_origin(rays@, camera_chunk, #[trigger] out@[i]),
                Self::backlog_fits(rays@, config.max_spawn_per_frame) ==> forall|a: int, t: int|
                    #[trigger] self.reached_unloaded(rays@, a, t) && a < ri ==> visited@.contains(pos_key(rays@[a]@[t])),
            decreases rays@.len() - ri,
        {
            let ray = &rays[ri];
            let mut queue: Vec<IVec3> = Vec::new();
            let mut t: usize = 0;
            let mut blocked = false;
            while t < ray.len() && !blocked
                invariant
                    ri < rays@.len(),
                    *ray == rays@[ri as int],
                    t <= ray@.len(),
                    !blocked ==> self.unblocked(ray@, t as int),
                    blocked ==> !self.unblocked(ray@, t as int),
                    queue@.len() <= t,
                    forall|u: int| 0 <= u < t && self.unblocked(ray@, u) && !self.loaded().contains_key(pos_key(ray@[u]))
                        ==> #[trigger] queue@.contains(ray@[u]),
                    forall|m: int| 0 <= m < queue@.len() ==> self.load_origin(rays@, camera_chunk, #[trigger] queue@[m]),
                decreases ray@.len() - t,
            {
                let p = ray[t];
                let k = p.key();
                let ghost q0 = queue@;
                match map_is_full(&self.loaded_chunks, k) {
                    Some(full) => {
                        if full {
                            blocked = true;
                        }
                    },
                    None => {
                        queue.push(p);
                        proof {
                            assert(queue@[queue@.len() - 1] == p);
                            assert(rays@[ri as int]@[t as int] == p);
                            assert(self.load_origin(rays@, camera_chunk, p));
                            assert forall|m: int| 0 <= m < queue@.len() implies self.load_origin(rays@, camera_chunk, #[trigger] queue@[m]) by {
                                if m < q0.len() {
                                    assert(queue@[m] == q0[m]);
                                }
                            }
                        }
                    },
                }
                proof {
                    if !blocked {
                        assert forall|u: int| 0 <= u < t + 1 implies !self.full_at(#[trigger] ray@[u]) by {
                            if u == t {
                                assert(ray@[u] == p);
                            }
                        }
                    } else {
                        assert(self.full_at(ray@[t as int]) || !self.unblocked(ray@, t as int));
                        assert(!self.unblocked(ray@, t + 1));
                    }
                    assert forall|u: int| 0 <= u < t + 1 && self.unblocked(ray@, u) && !self.loaded().contains_key(pos_key(ray@[u]))
                        implies #[trigger] queue@.contains(ray@[u]) by {
                        if u == t {
                            assert(ray@[u] == p);
                            assert(queue@[queue@.len() - 1] == p);
                        } else {
                            assert(q0.contains(ray@[u]));
                            let w = choose|w: int| 0 <= w < q0.len() && q0[w] == ray@[u];
                            assert(queue@[w] == q0[w]);
                        }
                    }
                }
                t = t + 1;
            }
            proof {
                assert forall|u: int| 0 <= u < ray@.len() && self.unblocked(ray@, u) && !self.loaded().contains_key(pos_key(ray@[u]))
                    implies #[trigger] queue@.contains(ray@[u]) by {
                    if u >= t {
                        assert(blocked);
                        assert(!self.unblocked(ray@, t as int));
                        let w = choose|w: int| 0 <= w < t && self.full_at(#[trigger] ray@[w]);
                    }
                }
            }
            let ghost walked = queue@;
            let base = queue.len();
            let mut j: i32 = 0;
            while j < 27
                invariant
                    0 <= j <= 27,
                    chunk_in_range(camera_chunk),
                    queue@.len() == base + j,
                    forall|m: int| 0 <= m < j ==> #[trigger] queue@[base + m] == neighbor(camera_chunk, m),
                    forall|m: int| 0 <= m < queue@.len() ==> self.load_origin(rays@, camera_chunk, #[trigger] queue@[m]),
                    walked.len() == base,
                    queue@.subrange(0, base as int) == walked,
                decreases 27 - j,
            {
                let off = crate::coords::index_to_ivec3_bounds(j, 3);
                let ghost before = queue@;
                queue.push(IVec3 { x: camera_chunk.x + off.x - 1, y: camera_chunk.y + off.y - 1, z: camera_chunk.z + off.z - 1 });
                proof {
                    assert forall|m: int| 0 <= m < j + 1 implies #[trigger] queue@[base + m] == neighbor(camera_chunk, m) by {
                        if m < j {
                            assert(queue@[base + m] == before[base + m]);
                        }
                    }
                    assert(self.load_origin(rays@, camera_chunk, neighbor(camera_chunk, j as int)));
                    assert(queue@.subrange(0, base as int) =~= before.subrange(0, base as int));
                    assert forall|m: int| 0 <= m < queue@.len() implies self.load_origin(rays@, camera_chunk, #[trigger] queue@[m]) by {
                        if m < before.len() {
                            assert(queue@[m] == before[m]);
                        } else {
                            assert(queue@[m] == neighbor(camera_chunk, j as int));
                        }
                    }
                }
                j = j + 1;
            }
            let n = queue.len();
            let mut qi: usize = 0;
            while qi < n
                invariant
                    n == queue@.len(),
                    n == base + 27,
                    qi <= n,
                    cap == config.max_spawn_per_frame,
                    limit == config.spawning_distance * config.spawning_distance - 1,
                    forall|m: int| 0 <= m < 27 ==> #[trigger] queue@[base + m] == neighbor(camera_chunk, m),
                    forall|i: int| 0 <= i < out@.len() ==> self.loadable(pos_key(#[trigger] out@[i])) && !beyond_radius(out@[i], camera_chunk, config.spawning_distance),
                    forall|i: int, j: int| 0 <= i < j < out@.len() ==> out@[i] != out@[j],
                    forall|i: int| 0 <= i < out@.len() ==> visited@.contains(pos_key(#[trigger] out@[i])),
                    forall|p: IVec3| visited@.contains(#[trigger] pos_key(p)) && self.loadable(pos_key(p)) && !beyond_radius(p, camera_chunk, config.spawning_distance) ==> out@.contains(p),
                    ri > 0 && cap >= 26 ==> forall|j: int| 0 <= j < 27 ==> visited@.contains(pos_key(#[trigger] neighbor(camera_chunk, j))),
                    cap >= 26 ==> forall|m: int| 0 <= m < 27 && base + m < qi ==> visited@.contains(pos_key(#[trigger] neighbor(camera_chunk, m))),
                    forall|m: int| 0 <= m < queue@.len() ==> self.load_origin(rays@, camera_chunk, #[trigger] queue@[m]),
                    forall|i: int| 0 <= i < out@.len() ==> self.load_origin(rays@, camera_chunk, #[trigger] out@[i]),
                    ri < rays@.len(),
                    *ray == rays@[ri as int],
                    base <= ray@.len(),
                    queue@.subrange(0, base as int) == walked,
                    forall|u: int| 0 <= u < ray@.len() && self.unblocked(ray@, u) && !self.loaded().contains_key(pos_key(ray@[u]))
                        ==> #[trigger] walked.contains(ray@[u]),
                    Self::backlog_fits(rays@, config.max_spawn_per_frame) ==> forall|m: int| 0 <= m < qi ==> visited@.contains(pos_key(#[trigger] queue@[m])),
                    Self::backlog_fits(rays@, config.max_spawn_per_frame) ==> forall|a: int, t: int|
                        #[trigger] self.reached_unloaded(rays@, a, t) && a < ri ==> visited@.contains(pos_key(rays@[a]@[t])),
                decreases n - qi,
            {
                let p = queue[qi];
                let k = p.key();
                let backlog = n - qi - 1;
                let ghost vis0 = visited@;
                let ghost out0 = out@;
                if !visited.contains(&k) && backlog <= cap {
                    visited.insert(k);
                    if p.distance_squared(&camera_chunk) <= limit && self.can_load(p) {
                        out.push(p);
                        proof {
                            assert(out@[out0.len() as int] == p);
                            assert forall|i: int, j: int| 0 <= i < j < out@.len() implies out@[i] != out@[j] by {
                                if j == out0.len() {
                                    assert(vis0.contains(pos_key(out0[i])));
                                    assert(out0[i] == out@[i]);
                                }
                            }
                            assert forall|i: int| 0 <= i < out@.len() implies self.loadable(pos_key(#[trigger] out@[i])) && !beyond_radius(out@[i], camera_chunk, config.spawning_distance) by {
                                if i < out0.len() {
                                    assert(out0[i] == out@[i]);
                                }
                            }
                            assert forall|i: int| 0 <= i < out@.len() implies visited@.contains(pos_key(#[trigger] out@[i])) by {
                                if i < out0.len() {
                                    assert(out0[i] == out@[i]);
                                }
                            }
                            assert forall|i: int| 0 <= i < out@.len() implies self.load_origin(rays@, camera_chunk, #[trigger] out@[i]) by {
                                if i < out0.len() {
                                    assert(out0[i] == out@[i]);
                                }
                            }
                        }
                    }
                    proof {
                        assert forall|pp: IVec3| visited@.contains(#[trigger] pos_key(pp)) && self.loadable(pos_key(pp)) && !beyond_radius(pp, camera_chunk, config.spawning_distance) implies out@.contains(pp) by {
                            if pos_key(pp) == k {
                                lemma_pos_key_injective(pp, p);
                                assert(out@[out@.len() - 1] == p);
                            } else {
                                assert(vis0.contains(pos_key(pp)));
                                let a = choose|a: int| 0 <= a < out0.len() && out0[a] == pp;
                                assert(out@[a] == out0[a]);
                            }
                        }
                    }
                }
                proof {
                    if cap >= 26 {
                        assert forall|m: int| 0 <= m < 27 && base + m < qi + 1 implies visited@.contains(pos_key(#[trigger] neighbor(camera_chunk, m))) by {
                            if base + m == qi {
                                assert(queue@[base + m] == p);
                            }
                        }
                    }
                    if Self::backlog_fits(rays@, config.max_spawn_per_frame) {
                        assert(rays@[ri as int]@.len() + 26 <= config.max_spawn_per_frame);
                        assert(backlog <= cap);
                        assert(visited@.contains(k));
                        assert forall|m: int| 0 <= m < qi + 1 implies visited@.contains(pos_key(#[trigger] queue@[m])) by {
                            if m == qi {
                                assert(queue@[m] == p);
                            } else {
                                assert(vis0.contains(pos_key(queue@[m])));
                            }
                        }
                        assert forall|a: int, t: int|
                            #[trigger] self.reached_unloaded(rays@, a, t) && a < ri implies visited@.contains(pos_key(rays@[a]@[t])) by {
                            assert(vis0.contains(pos_key(rays@[a]@[t])));
                        }
                    }
                }
                qi = qi + 1;
            }
            proof {
                if Self::backlog_fits(rays@, config.max_spawn_per_frame) {
                    assert forall|a: int, t: int|
                        #[trigger] self.reached_unloaded(rays@, a, t) && a < ri + 1 implies visited@.contains(pos_key(rays@[a]@[t])) by {
                        if a == ri {
                            assert(ray@[t] == rays@[a]@[t]);
                            assert(walked.contains(ray@[t]));
                            let w = choose|w: int| 0 <= w < walked.len() && walked[w] == ray@[t];
                            assert(queue@.subrange(0, base as int)[w] == queue@[w]);
                        }
                    }
                }
            }
            ri = ri + 1;
        }
        proof {
            if Self::backlog_fits(rays@, config.max_spawn_per_frame) {
                assert forall|a: int, t: int|
                    #[trigger] self.reached_unloaded(rays@, a, t) && self.loadable(pos_key(rays@[a]@[t]))
                        && !beyond_radius(rays@[a]@[t], camera_chunk, config.spawning_distance)
                        implies out@.contains(rays@[a]@[t]) by {
                    assert(visited@.contains(pos_key(rays@[a]@[t])));
                }
            }
            if rays@.len() > 0 && config.max_spawn_per_frame >= 26 {
                assert forall|j: int|
                    0 <= j < 27 && self.loadable(pos_key(#[trigger] neighbor(camera_chunk, j)))
                        && !beyond_radius(neighbor(camera_chunk, j), camera_chunk, config.spawning_distance)
                        implies out@.contains(neighbor(camera_chunk, j)) by {
                    assert(visited@.contains(pos_key(neighbor(camera_chunk, j))));
                }
            }
        }
        out
    }
}

/// At most one build per position: a position that any state holds is never
/// started, and two requests for the same loadable position start it once.
pub proof fn at_most_one_in_flight(w: VoxelWorld, queue: Seq<IVec3>, w2: VoxelWorld, started: Seq<IVec3>, p: IVec3)
    requires
        loads_started(w, queue, w2, started),
    ensures
        !w.loadable(pos_key(p)) ==> !started.contains(p),
        queue.contains(p) && w.loadable(pos_key(p)) ==> started.contains(p) && forall|i: int, j: int|
            0 <= i < j < started.len() && started[i] == p ==> started[j] != p,
        started.contains(p) ==> !w2.loadable(pos_key(p)),
{
    if started.contains(p) {
        let i = choose|i: int| 0 <= i < started.len() && started[i] == p;
        assert(keys_of(started).contains(pos_key(started[i])));
    }
}

} // verus!
