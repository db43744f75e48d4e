//! Building a chunk: stored or generated content, with pending edits applied.
use vstd::prelude::*;

use crate::atom::{lemma_extends, Atom2, Interner};
use crate::chunk::{ChunkData, ChunkError};
use crate::coords::{
    cell_in_chunk, cell_of, cell_world_pos, chunk_in_range, chunk_of, linear_index, lemma_cell_world_pos_injective, lemma_pos_key_injective,
    pos_key, world_pos_of_cell, IVec3, GRID_SIZE,
};
use crate::edits::ModifiedVoxels;
use crate::generator::Generator;
use crate::palette::PALETTE_CAPACITY;
use crate::voxel_block::VoxelBlock;

verus! {

/// Map keys of the world positions of cells `0..n` of chunk `c`.
pub open spec fn cell_keys(c: IVec3, n: int) -> Set<u128> {
    Set::new(|k: u128| exists|j: int| 0 <= j < n && k == pos_key(#[trigger] cell_world_pos(c, j)))
}

/// Key of the world position of cell `i` of chunk `c`.
pub open spec fn cell_key_at(c: IVec3, i: int) -> u128 {
    pos_key(cell_world_pos(c, i))
}

/// Every pending edit at a cell of chunk `c` was consumed and landed in its cell.
pub open spec fn edits_applied(
    c: IVec3,
    before: Map<u128, Atom2>,
    after: Map<u128, Atom2>,
    chunk: ChunkData,
) -> bool {
    &&& after == before.remove_keys(cell_keys(c, GRID_SIZE as int))
    &&& forall|i: int|
        0 <= i < GRID_SIZE && before.contains_key(#[trigger] cell_key_at(c, i)) ==> chunk.cell_key(
            i,
        ) == before[cell_key_at(c, i)].key()
}

/// The inputs of one chunk build.
pub struct BuildChunkTaskInner<'a, G: Generator> {
    pub chunk_pos: IVec3,
    /// The decoded stored record of the chunk, if storage holds one.
    pub stored: Option<ChunkData>,
    pub generator: &'a G,
}

impl<'a, G: Generator> BuildChunkTaskInner<'a, G> {
    /// Builds the chunk: every cell takes the pending edit at its world position
    /// (consuming it), else the stored cell, else, for a chunk that storage does
    /// not hold, the generator's block. Statistics are computed afterwards.
    pub fn build(self, modified: &mut ModifiedVoxels, interner: &mut Interner) -> (r: Result<
        ChunkData,
        ChunkError,
    >)
        requires
            chunk_in_range(self.chunk_pos),
            old(interner).wf(),
            self.stored matches Some(d) ==> d.wf(),
        ensures
            final(interner).wf(),
            final(interner).extends(*old(interner)),
            (r == Err::<ChunkData, ChunkError>(ChunkError::PositionMismatch)) <==> (
            self.stored matches Some(d) && d.pos != self.chunk_pos),
            r is Err ==> r == Err::<ChunkData, ChunkError>(ChunkError::PositionMismatch) || r
                == Err::<ChunkData, ChunkError>(ChunkError::PaletteFull),
            self.stored is None ==> r is Ok,
            r == Err::<ChunkData, ChunkError>(ChunkError::PaletteFull) ==> (self.stored matches Some(d)
                && d.palette.atoms().len() + GRID_SIZE > PALETTE_CAPACITY),
            r matches Ok(c) ==> {
                &&& c.wf()
                &&& c.pos == self.chunk_pos
                &&& edits_applied(self.chunk_pos, old(modified)@, final(modified)@, c)
                &&& forall|i: int|
                    0 <= i < GRID_SIZE ==> {
                        let k = #[trigger] cell_key_at(self.chunk_pos, i);
                        &&& old(modified)@.contains_key(k) ==> c.cell_key(i) == old(modified)@[k].key()
                        &&& !old(modified)@.contains_key(k) ==> match self.stored {
                            Some(d) => c.cell_key(i) == d.cell_key(i),
                            None => c.cell_key(i) < final(interner).names().len()
                                && final(interner).names()[c.cell_key(i) as int]
                                == self.generator.spec_generate(cell_world_pos(self.chunk_pos, i)),
                        }
                    }
            },
    {
        let BuildChunkTaskInner { chunk_pos, stored, generator } = self;
        let ghost old_edits = modified@;
        let ghost init_interner = *interner;
        proof {
            lemma_extends(*interner, *interner, *interner);
        }
        let new_chunk = stored.is_none();
        let mut chunk = match stored {
            Some(d) => {
                if d.pos != chunk_pos {
                    return Err(ChunkError::PositionMismatch);
                }
                d
            },
            None => ChunkData::new(chunk_pos),
        };
        let ghost start = chunk;
        let mut i: usize = 0;
        while i < GRID_SIZE
            invariant
                chunk_in_range(chunk_pos),
                chunk_pos == self.chunk_pos,
                generator == self.generator,
                init_interner == *old(interner),
                old_edits == old(modified)@,
                i <= GRID_SIZE,
                new_chunk == self.stored is None,
                self.stored matches Some(d) ==> start == d,
                chunk.pos == chunk_pos,
                chunk.voxels@.len() == GRID_SIZE,
                chunk.palette.wf(),
                chunk.cells_valid(),
                start.wf(),
                start.pos == chunk_pos,
                new_chunk ==> start.palette.atoms().len() == 1,
                chunk.palette.atoms().len() <= start.palette.atoms().len() + i,
                start.palette.atoms().len() <= chunk.palette.atoms().len(),
                chunk.palette.atoms().subrange(0, start.palette.atoms().len() as int)
                    == start.palette.atoms(),
                forall|j: int| i <= j < GRID_SIZE ==> chunk.voxels@[j] == start.voxels@[j],
                interner.wf(),
                interner.extends(init_interner),
                modified@ == old_edits.remove_keys(cell_keys(chunk_pos, i as int)),
                forall|j: int|
                    0 <= j < i ==> {
                        let k = #[trigger] cell_key_at(chunk_pos, j);
                        &&& old_edits.contains_key(k) ==> chunk.cell_key(j) == old_edits[k].key()
                        &&& !old_edits.contains_key(k) && !new_chunk ==> chunk.cell_key(j)
                            == start.cell_key(j)
                        &&& !old_edits.contains_key(k) && new_chunk ==> chunk.cell_key(j)
                            < interner.names().len() && interner.names()[chunk.cell_key(j) as int]
                            == generator.spec_generate(cell_world_pos(chunk_pos, j))
                    },
            decreases GRID_SIZE - i,
        {
            let wp = world_pos_of_cell(chunk_pos, i);
            let ghost cur_interner = *interner;
            let ghost cur = chunk;
            proof {
                lemma_extends(cur_interner, cur_interner, cur_interner);
            }
            proof {
                assert(!cell_keys(chunk_pos, i as int).contains(pos_key(wp))) by {
                    if cell_keys(chunk_pos, i as int).contains(pos_key(wp)) {
                        let j = choose|j: int|
                            0 <= j < i && pos_key(wp) == pos_key(#[trigger] cell_world_pos(chunk_pos, j));
                        lemma_pos_key_injective(wp, cell_world_pos(chunk_pos, j));
                        lemma_cell_world_pos_injective(chunk_pos, i as int, j);
                    }
                }
            }
            let edit = modified.take(wp);
            let voxel = match edit {
                Some(id) => match chunk.palette.voxel_block(&id) {
                    Some(v) => v,
                    None => {
                        return Err(ChunkError::PaletteFull);
                    },
                },
                None => {
                    if new_chunk {
                        let name = generator.generate(wp);
                        let a = interner.intern(name.as_str());
                        proof {
                            lemma_extends(init_interner, cur_interner, *interner);
                        }
                        match chunk.palette.voxel_block(&a) {
                            Some(v) => v,
                            None => return Err(ChunkError::PaletteFull),
                        }
                    } else {
                        chunk.voxels[i]
                    }
                },
            };
            chunk.voxels.set(i, voxel);
            proof {
                assert(modified@ =~= old_edits.remove_keys(cell_keys(chunk_pos, i + 1))) by {
                    assert(cell_keys(chunk_pos, i + 1) =~= cell_keys(chunk_pos, i as int).insert(
                        pos_key(wp),
                    )) by {
                        assert forall|k: u128| #[trigger]
                            cell_keys(chunk_pos, i + 1).contains(k) implies cell_keys(
                            chunk_pos,
                            i as int,
                        ).insert(pos_key(wp)).contains(k) by {
                            let j = choose|j: int|
                                0 <= j < i + 1 && k == pos_key(#[trigger] cell_world_pos(chunk_pos, j));
                            if j < i {
                                assert(cell_keys(chunk_pos, i as int).contains(k));
                            }
                        }
                        assert forall|k: u128| #[trigger]
                            cell_keys(chunk_pos, i as int).insert(pos_key(wp)).contains(k)
                            implies cell_keys(chunk_pos, i + 1).contains(k) by {
                            if k != pos_key(wp) {
                                let j = choose|j: int|
                                    0 <= j < i && k == pos_key(#[trigger] cell_world_pos(chunk_pos, j));
                                assert(0 <= j < i + 1);
                            } else {
                                assert(k == pos_key(cell_world_pos(chunk_pos, i as int)));
                            }
                        }
                    }
                }
                assert(chunk.palette.atoms().subrange(0, cur.palette.atoms().len() as int)
                    == cur.palette.atoms());
                assert(chunk.palette.atoms().subrange(0, start.palette.atoms().len() as int)
                    =~= start.palette.atoms()) by {
                    assert(chunk.palette.atoms().subrange(0, start.palette.atoms().len() as int)
                        =~= cur.palette.atoms().subrange(0, start.palette.atoms().len() as int));
                }
                assert forall|j: int| 0 <= j < i + 1 implies {
                    let k = #[trigger] cell_key_at(chunk_pos, j);
                    &&& old_edits.contains_key(k) ==> chunk.cell_key(j) == old_edits[k].key()
                    &&& !old_edits.contains_key(k) && !new_chunk ==> chunk.cell_key(j)
                        == start.cell_key(j)
                    &&& !old_edits.contains_key(k) && new_chunk ==> chunk.cell_key(j)
                        < interner.names().len() && interner.names()[chunk.cell_key(j) as int]
                        == generator.spec_generate(cell_world_pos(chunk_pos, j))
                } by {
                    if let VoxelBlock::Solid(s) = chunk.voxels@[j] {
                        if j < i {
                            assert(chunk.palette.atoms()[s as int] == cur.palette.atoms()[s as int]);
                            if !old_edits.contains_key(cell_key_at(chunk_pos, j)) && new_chunk {
                                assert(interner.names()[cur.cell_key(j) as int]
                                    == cur_interner.names()[cur.cell_key(j) as int]);
                            }
                        }
                        if !new_chunk && j == i && !old_edits.contains_key(cell_key_at(chunk_pos, j)) {
                            assert(chunk.palette.atoms()[s as int] == start.palette.atoms()[s as int]);
                        }
                    } else if j < i {
                        assert(interner.names()[0] == cur_interner.names()[0]);
                    }
                }
            }
            i = i + 1;
        }
        let ghost before = chunk;
        chunk.generate_hash();
        assert forall|i: int| 0 <= i < GRID_SIZE implies chunk.cell_key(i) == before.cell_key(i) by {}
        Ok(chunk)
    }
}

/// The cell of block `p` in its chunk's padded grid lies at `p`.
pub proof fn lemma_block_cell(p: IVec3)
    ensures
        ({
            let cell = cell_in_chunk(p);
            let i = linear_index(cell.x as int, cell.y as int, cell.z as int);
            &&& 0 <= i < GRID_SIZE
            &&& cell_world_pos(chunk_of(p), i) == p
        }),
{
    let cell = cell_in_chunk(p);
    let (x, y, z) = (p.x as int % 32 + 1, p.y as int % 32 + 1, p.z as int % 32 + 1);
    assert(1 <= x <= 32 && 1 <= y <= 32 && 1 <= z <= 32);
    let i = linear_index(x, y, z);
    assert(cell_of(i) == (x, y, z) && 0 <= i < 39304) by (nonlinear_arith)
        requires i == x + 34 * y + 1156 * z, 1 <= x <= 32, 1 <= y <= 32, 1 <= z <= 32;
    assert((p.x as int / 32) * 32 + x - 1 == p.x) by (nonlinear_arith)
        requires x == p.x as int % 32 + 1;
    assert((p.y as int / 32) * 32 + y - 1 == p.y) by (nonlinear_arith)
        requires y == p.y as int % 32 + 1;
    assert((p.z as int / 32) * 32 + z - 1 == p.z) by (nonlinear_arith)
        requires z == p.z as int % 32 + 1;
    assert(cell.x == x && cell.y == y && cell.z == z);
}

/// An edit of block `p` that is pending when the chunk covering `p` is built
/// decides that cell, whatever storage or the generator hold there, and the
/// build consumes it.
pub proof fn edit_precedence(
    p: IVec3,
    id: Atom2,
    pending: Map<u128, Atom2>,
    after: Map<u128, Atom2>,
    chunk: ChunkData,
)
    requires
        edits_applied(chunk_of(p), pending.insert(pos_key(p), id), after, chunk),
    ensures
        ({
            let cell = cell_in_chunk(p);
            chunk.cell_key(linear_index(cell.x as int, cell.y as int, cell.z as int)) == id.key()
        }),
        !after.contains_key(pos_key(p)),
{
    lemma_block_cell(p);
    let cell = cell_in_chunk(p);
    let i = linear_index(cell.x as int, cell.y as int, cell.z as int);
    assert(cell_key_at(chunk_of(p), i) == pos_key(p));
    assert(cell_keys(chunk_of(p), GRID_SIZE as int).contains(pos_key(p)));
}

} // verus!
