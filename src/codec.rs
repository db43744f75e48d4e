//! The stored chunk record: an 8-byte little-endian content hash, then a zstd
//! frame holding the position, the palette and the cells.
use vstd::bytes::*;
use vstd::prelude::*;
use vstd::utf8::*;

use crate::atom::{air_name, atoms_equal_iff_same_text, lemma_extends, Atom2, Interner};
use crate::chunk::ChunkError;
use crate::digest::text_from_utf8;
use crate::chunk::{raw_cells, ChunkData};
use crate::coords::{IVec3, GRID_SIZE};
use crate::digest::{cells_digest, compress, decompress, zstd_content, zstd_frame};
use crate::palette::Palette;
use crate::voxel_block::VoxelBlock;

verus! {

/// zstd level of stored records (0: the library's default).
pub const COMPRESSION_LEVEL: i32 = 0;

pub open spec fn le_u64(v: u64) -> Seq<u8> {
    spec_u64_to_le_bytes(v)
}

pub open spec fn le_i32(v: i32) -> Seq<u8> {
    spec_u32_to_le_bytes(#[verifier::truncate] (v as u32))
}

pub open spec fn pos_bytes(p: IVec3) -> Seq<u8> {
    le_i32(p.x) + le_i32(p.y) + le_i32(p.z)
}

/// A length-prefixed UTF-8 text.
pub open spec fn text_bytes(s: Seq<char>) -> Seq<u8> {
    le_u64(encode_utf8(s).len() as u64) + encode_utf8(s)
}

pub open spec fn texts_bytes(ns: Seq<Seq<char>>) -> Seq<u8>
    decreases ns.len(),
{
    if ns.len() == 0 {
        seq![]
    } else {
        text_bytes(ns[0]) + texts_bytes(ns.drop_first())
    }
}

/// A palette: its length, then each block id.
pub open spec fn palette_bytes(ns: Seq<Seq<char>>) -> Seq<u8> {
    le_u64(ns.len() as u64) + texts_bytes(ns)
}

pub open spec fn cells_bytes(cs: Seq<u16>) -> Seq<u8>
    decreases cs.len(),
{
    if cs.len() == 0 {
        seq![]
    } else {
        spec_u16_to_le_bytes(cs[0]) + cells_bytes(cs.drop_first())
    }
}

/// The cell array: its length, then each cell value.
pub open spec fn grid_bytes(cs: Seq<u16>) -> Seq<u8> {
    le_u64(cs.len() as u64) + cells_bytes(cs)
}

/// The texts of a run of atoms.
pub open spec fn atom_names(s: Seq<Atom2>) -> Seq<Seq<char>> {
    s.map_values(|a: Atom2| a@)
}

/// The block ids of a palette, by index.
pub open spec fn palette_names(p: Palette) -> Seq<Seq<char>> {
    atom_names(p.atoms())
}

/// The uncompressed body of a chunk's record.
pub open spec fn chunk_body(c: ChunkData) -> Seq<u8> {
    pos_bytes(c.pos) + palette_bytes(palette_names(c.palette)) + grid_bytes(raw_cells(c.voxels@))
}

/// The stored record of a chunk.
pub open spec fn chunk_record(c: ChunkData) -> Seq<u8> {
    le_u64(c.hash) + zstd_frame(chunk_body(c), COMPRESSION_LEVEL)
}

proof fn lemma_texts_push(ns: Seq<Seq<char>>, x: Seq<char>)
    ensures
        texts_bytes(ns.push(x)) == texts_bytes(ns) + text_bytes(x),
    decreases ns.len(),
{
    if ns.len() == 0 {
        assert(ns.push(x).drop_first() =~= ns);
        assert(texts_bytes(ns) == Seq::<u8>::empty());
        assert(texts_bytes(ns.push(x)) == text_bytes(x) + texts_bytes(ns));
        assert(texts_bytes(ns.push(x)) =~= text_bytes(x));
    } else {
        assert(ns.push(x).drop_first() =~= ns.drop_first().push(x));
        lemma_texts_push(ns.drop_first(), x);
        assert(texts_bytes(ns.push(x)) =~= texts_bytes(ns) + text_bytes(x));
    }
}

proof fn lemma_cells_push(cs: Seq<u16>, x: u16)
    ensures
        cells_bytes(cs.push(x)) == cells_bytes(cs) + spec_u16_to_le_bytes(x),
    decreases cs.len(),
{
    if cs.len() == 0 {
        assert(cs.push(x).drop_first() =~= cs);
        assert(cells_bytes(cs) == Seq::<u8>::empty());
        assert(cells_bytes(cs.push(x)) == spec_u16_to_le_bytes(x) + cells_bytes(cs));
        assert(cells_bytes(cs.push(x)) =~= spec_u16_to_le_bytes(x));
    } else {
        assert(cs.push(x).drop_first() =~= cs.drop_first().push(x));
        lemma_cells_push(cs.drop_first(), x);
        assert(cells_bytes(cs.push(x)) =~= cells_bytes(cs) + spec_u16_to_le_bytes(x));
    }
}

/// Appends `b` to `out`.
fn put(out: &mut Vec<u8>, b: &[u8])
    ensures
        final(out)@ == old(out)@ + b@,
{
    let mut i: usize = 0;
    while i < b.len()
        invariant
            i <= b@.len(),
            out@ == old(out)@ + b@.subrange(0, i as int),
        decreases b@.len() - i,
    {
        out.push(b[i]);
        i = i + 1;
        assert(b@.subrange(0, i as int) =~= b@.subrange(0, i - 1).push(b@[i - 1]));
    }
    assert(b@.subrange(0, b@.len() as int) =~= b@);
}

fn put_u64(out: &mut Vec<u8>, v: u64)
    ensures
        final(out)@ == old(out)@ + le_u64(v),
{
    let b = u64_to_le_bytes(v);
    put(out, b.as_slice());
}

fn put_text(out: &mut Vec<u8>, s: &str)
    ensures
        final(out)@ == old(out)@ + text_bytes(s@),
{
    let bytes = s.as_bytes();
    put_u64(out, bytes.len() as u64);
    put(out, bytes);
    assert(old(out)@ + text_bytes(s@) =~= old(out)@ + le_u64(encode_utf8(s@).len() as u64)
        + encode_utf8(s@));
}

fn put_palette(out: &mut Vec<u8>, p: &Palette)
    requires
        p.wf(),
    ensures
        final(out)@ == old(out)@ + palette_bytes(palette_names(*p)),
{
    let n = p.len();
    put_u64(out, n as u64);
    let ghost names = palette_names(*p);
    let mut k: usize = 0;
    while k < n
        invariant
            n == p.atoms().len(),
            n <= 65536,
            names == palette_names(*p),
            k <= n,
            out@ == old(out)@ + le_u64(n as u64) + texts_bytes(names.subrange(0, k as int)),
        decreases n - k,
    {
        let a = p.block_id(k as u16);
        proof {
            lemma_texts_push(names.subrange(0, k as int), names[k as int]);
            assert(names.subrange(0, k as int).push(names[k as int]) =~= names.subrange(
                0,
                k + 1,
            ));
        }
        match a {
            Some(a) => put_text(out, a.as_str()),
            None => {},
        }
        k = k + 1;
    }
    assert(names.subrange(0, n as int) =~= names);
}

fn put_grid(out: &mut Vec<u8>, voxels: &Vec<VoxelBlock>)
    ensures
        final(out)@ == old(out)@ + grid_bytes(raw_cells(voxels@)),
{
    let n = voxels.len();
    put_u64(out, n as u64);
    let ghost cells = raw_cells(voxels@);
    let mut k: usize = 0;
    while k < n
        invariant
            n == voxels@.len(),
            cells == raw_cells(voxels@),
            k <= n,
            out@ == old(out)@ + le_u64(n as u64) + cells_bytes(cells.subrange(0, k as int)),
        decreases n - k,
    {
        let v = voxels[k].merge_value();
        proof {
            lemma_cells_push(cells.subrange(0, k as int), v);
            assert(cells.subrange(0, k as int).push(v) =~= cells.subrange(0, k + 1));
        }
        let b = u16_to_le_bytes(v);
        put(out, b.as_slice());
        k = k + 1;
    }
    assert(cells.subrange(0, n as int) =~= cells);
}

fn put_i32(out: &mut Vec<u8>, v: i32)
    ensures
        final(out)@ == old(out)@ + le_i32(v),
{
    let b = u32_to_le_bytes(#[verifier::truncate] (v as u32));
    put(out, b.as_slice());
}

/// The uncompressed body of `c`'s record.
fn encode_body(c: &ChunkData) -> (r: Vec<u8>)
    requires
        c.palette.wf(),
    ensures
        r@ == chunk_body(*c),
{
    let mut out: Vec<u8> = Vec::new();
    put_i32(&mut out, c.pos.x);
    put_i32(&mut out, c.pos.y);
    put_i32(&mut out, c.pos.z);
    put_palette(&mut out, &c.palette);
    put_grid(&mut out, &c.voxels);
    assert(out@ =~= chunk_body(*c));
    out
}

impl Palette {
    /// The stored form of the palette: its length, then each block id with its length.
    pub fn encode(&self) -> (r: Vec<u8>)
        requires
            self.wf(),
        ensures
            r@ == palette_bytes(palette_names(*self)),
    {
        let mut out: Vec<u8> = Vec::new();
        put_palette(&mut out, self);
        assert(out@ =~= palette_bytes(palette_names(*self)));
        out
    }
}

/// `b` holds the text `s` from offset `at` on.
pub open spec fn text_fits(b: Seq<u8>, at: int, s: Seq<char>) -> bool {
    &&& at + text_bytes(s).len() <= b.len()
    &&& b.subrange(at, at + text_bytes(s).len()) == text_bytes(s)
}

proof fn lemma_le_u64_len()
    ensures
        forall|v: u64| #[trigger] le_u64(v).len() == 8,
{
    lemma_auto_spec_u64_to_from_le_bytes();
}

/// Reads a little-endian `u64` at `at`.
fn take_u64(b: &[u8], at: usize) -> (r: Option<(u64, usize)>)
    requires
        at <= b@.len(),
    ensures
        (r is Some) == (at + 8 <= b@.len()),
        r matches Some((v, n)) ==> n == at + 8 && b@.subrange(at as int, n as int) == le_u64(v),
        forall|v: u64|
            at + 8 <= b@.len() && b@.subrange(at as int, at + 8) == #[trigger] le_u64(v) ==> r
                == Some((v, (at + 8) as usize)),
{
    proof {
        lemma_auto_spec_u64_to_from_le_bytes();
    }
    if b.len() - at < 8 {
        None
    } else {
        let v = u64_from_le_bytes(vstd::slice::slice_subrange(b, at, at + 8));
        Some((v, at + 8))
    }
}

/// Reads a little-endian `u16` at `at`.
fn take_u16(b: &[u8], at: usize) -> (r: Option<(u16, usize)>)
    requires
        at <= b@.len(),
    ensures
        (r is Some) == (at + 2 <= b@.len()),
        r matches Some((v, n)) ==> n == at + 2 && b@.subrange(at as int, n as int)
            == spec_u16_to_le_bytes(v),
        forall|v: u16|
            at + 2 <= b@.len() && b@.subrange(at as int, at + 2) == #[trigger] spec_u16_to_le_bytes(v)
                ==> r == Some((v, (at + 2) as usize)),
{
    proof {
        lemma_auto_spec_u16_to_from_le_bytes();
    }
    if b.len() - at < 2 {
        None
    } else {
        let v = u16_from_le_bytes(vstd::slice::slice_subrange(b, at, at + 2));
        Some((v, at + 2))
    }
}

/// Reads a little-endian `i32` at `at`.
fn take_i32(b: &[u8], at: usize) -> (r: Option<(i32, usize)>)
    requires
        at <= b@.len(),
    ensures
        (r is Some) == (at + 4 <= b@.len()),
        r matches Some((v, n)) ==> n == at + 4 && b@.subrange(at as int, n as int) == le_i32(v),
        forall|v: i32|
            at + 4 <= b@.len() && b@.subrange(at as int, at + 4) == #[trigger] le_i32(v) ==> r
                == Some((v, (at + 4) as usize)),
{
    proof {
        lemma_auto_spec_u32_to_from_le_bytes();
    }
    if b.len() - at < 4 {
        None
    } else {
        let u = u32_from_le_bytes(vstd::slice::slice_subrange(b, at, at + 4));
        let v = #[verifier::truncate] (u as i32);
        proof {
            assert((#[verifier::truncate] ((#[verifier::truncate] (u as i32)) as u32)) == u) by (bit_vector);
            assert forall|w: i32|
                at + 4 <= b@.len() && b@.subrange(at as int, at + 4) == #[trigger] le_i32(w)
                implies v == w by {
                assert(spec_u32_from_le_bytes(le_i32(w)) == #[verifier::truncate] (w as u32));
                assert((#[verifier::truncate] ((#[verifier::truncate] (w as u32)) as i32)) == w) by (bit_vector);
            }
        }
        Some((v, at + 4))
    }
}

/// Reads a length-prefixed UTF-8 text at `at` and interns it.
fn take_text(b: &[u8], at: usize, interner: &mut Interner) -> (r: Result<(Atom2, usize), ChunkError>)
    requires
        old(interner).wf(),
        at <= b@.len(),
    ensures
        !(r matches Err(ChunkError::HeaderTooShort)),
        final(interner).wf(),
        final(interner).extends(*old(interner)),
        r matches Ok((a, n)) ==> at <= n <= b@.len() && b@.subrange(at as int, n as int)
            == text_bytes(a@) && final(interner).interned(*old(interner), a@, a),
        forall|s: Seq<char>|
            #[trigger] text_fits(b@, at as int, s) ==> (r matches Ok((a, n)) && a@ == s && n == at
                + text_bytes(s).len()),
{
    proof {
        lemma_le_u64_len();
        lemma_extends(*interner, *interner, *interner);
        assert forall|s: Seq<char>| #[trigger] text_fits(b@, at as int, s) implies {
            &&& b@.subrange(at as int, at + 8) == le_u64(encode_utf8(s).len() as u64)
            &&& b@.subrange(at + 8, at + text_bytes(s).len()) == encode_utf8(s)
        } by {
            let t = text_bytes(s);
            assert(b@.subrange(at as int, at + 8) =~= t.subrange(0, 8));
            assert(b@.subrange(at + 8, at + t.len()) =~= t.subrange(8, t.len() as int));
        }
    }
    let (v, p) = match take_u64(b, at) {
        Some(x) => x,
        None => return Err(ChunkError::Truncated),
    };
    if v > (b.len() - p) as u64 {
        return Err(ChunkError::Truncated);
    }
    let e = p + v as usize;
    let body = vstd::slice::slice_subrange(b, p, e);
    let t = match text_from_utf8(body) {
        Some(t) => t,
        None => {
            proof {
                assert forall|s: Seq<char>| !#[trigger] text_fits(b@, at as int, s) by {
                    if text_fits(b@, at as int, s) {
                        encode_utf8_valid_utf8(s);
                    }
                }
            }
            return Err(ChunkError::InvalidText);
        },
    };
    let a = interner.intern(t.as_str());
    proof {
        decode_utf8_encode_utf8(body@);
        assert(b@.subrange(at as int, e as int) =~= le_u64(v) + body@);
        assert forall|s: Seq<char>| #[trigger] text_fits(b@, at as int, s) implies a@ == s && e
            == at + text_bytes(s).len() by {
            encode_utf8_decode_utf8(s);
        }
    }
    Ok((a, e))
}

proof fn lemma_texts_split(ns: Seq<Seq<char>>, k: int)
    requires
        0 <= k < ns.len(),
    ensures
        texts_bytes(ns) == texts_bytes(ns.subrange(0, k)) + text_bytes(ns[k]) + texts_bytes(
            ns.subrange(k + 1, ns.len() as int),
        ),
    decreases k,
{
    assert(ns.subrange(k, ns.len() as int).drop_first() =~= ns.subrange(k + 1, ns.len() as int));
    if k == 0 {
        assert(ns.subrange(0, 0) =~= Seq::<Seq<char>>::empty());
        assert(ns.drop_first() =~= ns.subrange(1, ns.len() as int));
        assert(texts_bytes(ns) =~= texts_bytes(ns.subrange(0, k)) + text_bytes(ns[k])
            + texts_bytes(ns.subrange(k + 1, ns.len() as int)));
    } else {
        lemma_texts_split(ns, k - 1);
        lemma_texts_push(ns.subrange(0, k - 1), ns[k - 1]);
        assert(ns.subrange(0, k - 1).push(ns[k - 1]) =~= ns.subrange(0, k));
        assert(ns.subrange(k, ns.len() as int)[0] == ns[k]);
        assert(texts_bytes(ns.subrange(k, ns.len() as int)) == text_bytes(ns[k]) + texts_bytes(
            ns.subrange(k + 1, ns.len() as int),
        ));
        assert(texts_bytes(ns) =~= texts_bytes(ns.subrange(0, k)) + text_bytes(ns[k])
            + texts_bytes(ns.subrange(k + 1, ns.len() as int)));
    }
}

pub open spec fn names_distinct(ns: Seq<Seq<char>>) -> bool {
    forall|i: int, j: int| 0 <= i < j < ns.len() ==> ns[i] != ns[j]
}

/// The block ids that a stored palette may hold: distinct, the empty-space block first.
pub open spec fn valid_palette_names(ns: Seq<Seq<char>>) -> bool {
    &&& 1 <= ns.len() <= 65536
    &&& ns[0] == air_name()
    &&& names_distinct(ns)
}

/// `b` holds the palette `ns` (of 1 to 65536 ids) from offset `at` on.
pub open spec fn palette_fits(b: Seq<u8>, at: int, ns: Seq<Seq<char>>) -> bool {
    &&& 1 <= ns.len() <= 65536
    &&& at + palette_bytes(ns).len() <= b.len()
    &&& b.subrange(at, at + palette_bytes(ns).len()) == palette_bytes(ns)
}

/// Every block id of `p` is an atom of `i`.
pub open spec fn palette_held(i: Interner, p: Palette) -> bool {
    forall|k: int| 0 <= k < p.atoms().len() ==> i.holds(#[trigger] p.atoms()[k])
}

fn position_of_key(map: &Vec<Atom2>, a: &Atom2) -> (r: Option<usize>)
    ensures
        r matches Some(i) ==> i < map@.len() && map@[i as int].key() == a.key(),
        r is None ==> forall|i: int| 0 <= i < map@.len() ==> map@[i].key() != a.key(),
{
    let mut i: usize = 0;
    while i < map.len()
        invariant
            i <= map@.len(),
            forall|k: int| 0 <= k < i ==> map@[k].key() != a.key(),
        decreases map@.len() - i,
    {
        if map[i] == *a {
            return Some(i);
        }
        i = i + 1;
    }
    None
}

/// Reads a palette at `at`, interning its block ids.
fn take_palette(b: &[u8], at: usize, interner: &mut Interner) -> (r: Result<(Palette, usize), ChunkError>)
    requires
        old(interner).wf(),
        at <= b@.len(),
    ensures
        !(r matches Err(ChunkError::HeaderTooShort)),
        final(interner).wf(),
        final(interner).extends(*old(interner)),
        r matches Ok((p, n)) ==> {
            &&& p.wf()
            &&& at <= n <= b@.len()
            &&& b@.subrange(at as int, n as int) == palette_bytes(palette_names(p))
            &&& palette_held(*final(interner), p)
        },
        forall|ns: Seq<Seq<char>>|
            #[trigger] palette_fits(b@, at as int, ns) ==> {
                &&& (r is Ok) == valid_palette_names(ns)
                &&& r matches Ok((p, n)) ==> palette_names(p) == ns && n == at + palette_bytes(ns).len()
            },
{
    let ghost init = *interner;
    proof {
        lemma_le_u64_len();
        lemma_extends(init, init, init);
        lemma_auto_spec_u64_to_from_le_bytes();
        assert forall|ns: Seq<Seq<char>>| #[trigger] palette_fits(b@, at as int, ns) implies b@.subrange(at as int, at + 8) == le_u64(ns.len() as u64) by {
            assert(b@.subrange(at as int, at + 8) =~= palette_bytes(ns).subrange(0, 8));
        }
    }
    let (n, mut off) = match take_u64(b, at) {
        Some(x) => x,
        None => return Err(ChunkError::Truncated),
    };
    if n == 0 {
        return Err(ChunkError::MissingAir);
    }
    if n > 65536 {
        return Err(ChunkError::PaletteFull);
    }
    let mut map: Vec<Atom2> = Vec::new();
    let mut k: usize = 0;
    while k < n as usize
        invariant
            interner.wf(),
            interner.extends(init),
            init == *old(interner),
            1 <= n <= 65536,
            k <= n,
            at + 8 <= off <= b@.len(),
            map@.len() == k,
            b@.subrange(at as int, off as int) == le_u64(n) + texts_bytes(atom_names(map@)),
            forall|i: int| 0 <= i < k ==> interner.holds(#[trigger] map@[i]),
            k > 0 ==> map@[0].key() == 0 && map@[0]@ == air_name(),
            forall|i: int, j: int| 0 <= i < j < k ==> map@[i].key() != map@[j].key(),
            forall|ns: Seq<Seq<char>>|
                #[trigger] palette_fits(b@, at as int, ns) ==> {
                    &&& ns.len() == n
                    &&& atom_names(map@) == ns.subrange(0, k as int)
                    &&& off == at + 8 + texts_bytes(ns.subrange(0, k as int)).len()
                },
        decreases n - k,
    {
        let ghost before = *interner;
        proof {
            assert forall|ns: Seq<Seq<char>>| #[trigger] palette_fits(b@, at as int, ns) implies text_fits(b@, off as int, ns[k as int]) by {
                lemma_texts_split(ns, k as int);
                let pb = palette_bytes(ns);
                let t = text_bytes(ns[k as int]);
                assert(pb =~= le_u64(n) + texts_bytes(ns.subrange(0, k as int)) + t + texts_bytes(ns.subrange(k + 1, ns.len() as int)));
                assert(b@.subrange(off as int, off + t.len()) =~= pb.subrange(off - at, off - at + t.len()));
                assert(pb.subrange(off - at, off - at + t.len()) =~= t);
            }
        }
        let (a, e) = match take_text(b, off, interner) {
            Ok(x) => x,
            Err(err) => {
                proof {
                    lemma_extends(init, before, *interner);
                    assert forall|ns: Seq<Seq<char>>| !#[trigger] palette_fits(b@, at as int, ns) by {
                        if palette_fits(b@, at as int, ns) {
                            assert(text_fits(b@, off as int, ns[k as int]));
                        }
                    }
                }
                return Err(err);
            },
        };
        proof {
            lemma_extends(init, before, *interner);
            assert forall|i: int| 0 <= i < k implies interner.holds(#[trigger] map@[i]) by {
                assert(before.holds(map@[i]));
                assert(interner.names()[map@[i].key() as int] == before.names()[map@[i].key() as int]);
            }
        }
        if k == 0 && !a.is_air() {
            proof {
                assert forall|ns: Seq<Seq<char>>| #[trigger] palette_fits(b@, at as int, ns) implies !valid_palette_names(ns) by {
                    assert(text_fits(b@, off as int, ns[0]));
                    if ns[0] == air_name() {
                        assert(interner.names()[0] == a@);
                    }
                }
            }
            return Err(ChunkError::MissingAir);
        }
        match position_of_key(&map, &a) {
            Some(i) => {
                proof {
                    assert forall|ns: Seq<Seq<char>>| #[trigger] palette_fits(b@, at as int, ns) implies !valid_palette_names(ns) by {
                        assert(text_fits(b@, off as int, ns[k as int]));
                        assert(atom_names(map@)[i as int] == ns[i as int]);
                        assert(interner.holds(map@[i as int]));
                    }
                }
                return Err(ChunkError::DuplicateBlockId);
            },
            None => {},
        }
        let ghost prev_map = map@;
        map.push(a);
        proof {
            lemma_texts_push(atom_names(prev_map), a@);
            assert(atom_names(map@) =~= atom_names(prev_map).push(a@));
            assert(b@.subrange(at as int, e as int) =~= b@.subrange(at as int, off as int) + b@.subrange(off as int, e as int));
            assert forall|ns: Seq<Seq<char>>| #[trigger] palette_fits(b@, at as int, ns) implies {
                &&& atom_names(map@) == ns.subrange(0, k + 1)
                &&& e == at + 8 + texts_bytes(ns.subrange(0, k + 1)).len()
            } by {
                assert(text_fits(b@, off as int, ns[k as int]));
                assert(ns.subrange(0, k as int).push(ns[k as int]) =~= ns.subrange(0, k + 1));
                lemma_texts_push(ns.subrange(0, k as int), ns[k as int]);
            }
            assert forall|i: int, j: int| 0 <= i < j < k + 1 implies map@[i].key() != map@[j].key() by {
                if j == k {
                    assert(prev_map[i].key() != a.key());
                }
            }
        }
        off = e;
        k = k + 1;
    }
    let p = Palette::from_atoms(map);
    proof {
        assert(palette_names(p) == atom_names(map@));
        assert forall|ns: Seq<Seq<char>>| #[trigger] palette_fits(b@, at as int, ns) implies valid_palette_names(ns) && palette_names(p) == ns && off == at + palette_bytes(ns).len() by {
            assert(ns.subrange(0, n as int) =~= ns);
            assert forall|i: int, j: int| 0 <= i < j < ns.len() implies ns[i] != ns[j] by {
                assert(atom_names(map@)[i] == ns[i]);
                assert(atom_names(map@)[j] == ns[j]);
                assert(interner.holds(map@[i]));
                assert(interner.holds(map@[j]));
            }
        }
        assert forall|kk: int| 0 <= kk < p.atoms().len() implies interner.holds(#[trigger] p.atoms()[kk]) by {
            assert(interner.holds(map@[kk]));
        }
    }
    Ok((p, off))
}

proof fn lemma_cells_split(cs: Seq<u16>, k: int)
    requires
        0 <= k < cs.len(),
    ensures
        cells_bytes(cs) == cells_bytes(cs.subrange(0, k)) + spec_u16_to_le_bytes(cs[k])
            + cells_bytes(cs.subrange(k + 1, cs.len() as int)),
    decreases k,
{
    assert(cs.subrange(k, cs.len() as int).drop_first() =~= cs.subrange(k + 1, cs.len() as int));
    if k == 0 {
        assert(cs.subrange(0, 0) =~= Seq::<u16>::empty());
        assert(cs.drop_first() =~= cs.subrange(1, cs.len() as int));
        assert(cells_bytes(cs) =~= cells_bytes(cs.subrange(0, k)) + spec_u16_to_le_bytes(cs[k])
            + cells_bytes(cs.subrange(k + 1, cs.len() as int)));
    } else {
        lemma_cells_split(cs, k - 1);
        lemma_cells_push(cs.subrange(0, k - 1), cs[k - 1]);
        assert(cs.subrange(0, k - 1).push(cs[k - 1]) =~= cs.subrange(0, k));
        assert(cs.subrange(k, cs.len() as int)[0] == cs[k]);
        assert(cells_bytes(cs.subrange(k, cs.len() as int)) == spec_u16_to_le_bytes(cs[k])
            + cells_bytes(cs.subrange(k + 1, cs.len() as int)));
        assert(cells_bytes(cs) =~= cells_bytes(cs.subrange(0, k)) + spec_u16_to_le_bytes(cs[k])
            + cells_bytes(cs.subrange(k + 1, cs.len() as int)));
    }
}

/// `b` holds the cell array `cs` of a full grid from offset `at` on.
pub open spec fn grid_fits(b: Seq<u8>, at: int, cs: Seq<u16>) -> bool {
    &&& cs.len() == GRID_SIZE
    &&& at + grid_bytes(cs).len() <= b.len()
    &&& b.subrange(at, at + grid_bytes(cs).len()) == grid_bytes(cs)
}

/// Reads the cell array at `at`; each cell must name one of `palette_len` entries.
fn take_grid(b: &[u8], at: usize, palette_len: usize) -> (r: Result<(Vec<VoxelBlock>, usize), ChunkError>)
    requires
        at <= b@.len(),
    ensures
        !(r matches Err(ChunkError::HeaderTooShort)),
        r matches Ok((v, n)) ==> {
            &&& v@.len() == GRID_SIZE
            &&& at <= n <= b@.len()
            &&& b@.subrange(at as int, n as int) == grid_bytes(raw_cells(v@))
            &&& forall|i: int| 0 <= i < v@.len() ==> (#[trigger] v@[i] matches VoxelBlock::Solid(k) ==> 1 <= k < palette_len)
        },
        forall|cs: Seq<u16>|
            #[trigger] grid_fits(b@, at as int, cs) ==> {
                &&& (r is Ok) == (forall|i: int| 0 <= i < cs.len() ==> #[trigger] cs[i] < palette_len)
                &&& r matches Ok((v, n)) ==> raw_cells(v@) == cs && n == at + grid_bytes(cs).len()
            },
{
    proof {
        lemma_le_u64_len();
        lemma_auto_spec_u64_to_from_le_bytes();
        lemma_auto_spec_u16_to_from_le_bytes();
        assert forall|cs: Seq<u16>| #[trigger] grid_fits(b@, at as int, cs) implies b@.subrange(at as int, at + 8) == le_u64(cs.len() as u64) by {
            assert(b@.subrange(at as int, at + 8) =~= grid_bytes(cs).subrange(0, 8));
        }
    }
    let (n, mut off) = match take_u64(b, at) {
        Some(x) => x,
        None => return Err(ChunkError::Truncated),
    };
    if n != GRID_SIZE as u64 {
        return Err(ChunkError::InvalidCell);
    }
    let mut v: Vec<VoxelBlock> = Vec::new();
    let mut k: usize = 0;
    proof {
        assert(raw_cells(v@) =~= Seq::<u16>::empty());
        assert forall|cs: Seq<u16>| #[trigger] grid_fits(b@, at as int, cs) implies raw_cells(v@) == cs.subrange(0, 0) && off == at + 8 + cells_bytes(cs.subrange(0, 0)).len() by {
            assert(cs.subrange(0, 0) =~= Seq::<u16>::empty());
        }
        assert(b@.subrange(at as int, off as int) =~= le_u64(n) + cells_bytes(raw_cells(v@)));
    }
    while k < GRID_SIZE
        invariant
            n == GRID_SIZE,
            k <= GRID_SIZE,
            at + 8 <= off <= b@.len(),
            v@.len() == k,
            b@.subrange(at as int, off as int) == le_u64(n) + cells_bytes(raw_cells(v@)),
            forall|i: int| 0 <= i < k ==> (#[trigger] v@[i] matches VoxelBlock::Solid(s) ==> 1 <= s < palette_len),
            forall|cs: Seq<u16>|
                #[trigger] grid_fits(b@, at as int, cs) ==> {
                    &&& raw_cells(v@) == cs.subrange(0, k as int)
                    &&& off == at + 8 + cells_bytes(cs.subrange(0, k as int)).len()
                    &&& forall|i: int| 0 <= i < k ==> #[trigger] cs[i] < palette_len
                },
        decreases GRID_SIZE - k,
    {
        proof {
            lemma_le_u64_len();
            lemma_auto_spec_u16_to_from_le_bytes();
            assert forall|cs: Seq<u16>| #[trigger] grid_fits(b@, at as int, cs) implies {
                &&& off + 2 <= b@.len()
                &&& b@.subrange(off as int, off + 2) == spec_u16_to_le_bytes(cs[k as int])
            } by {
                lemma_cells_split(cs, k as int);
                let gb = grid_bytes(cs);
                let t = spec_u16_to_le_bytes(cs[k as int]);
                assert(t.len() == 2);
                assert(le_u64(n).len() == 8);
                assert(gb =~= le_u64(n) + cells_bytes(cs.subrange(0, k as int)) + t + cells_bytes(cs.subrange(k + 1, cs.len() as int)));
                assert(off - at == 8 + cells_bytes(cs.subrange(0, k as int)).len());
                assert(gb.len() >= off - at + 2);
                assert(b@.subrange(off as int, off + 2) =~= gb.subrange(off - at, off - at + 2));
                assert(gb.subrange(off - at, off - at + 2) =~= t);
            }
        }
        let (x, e) = match take_u16(b, off) {
            Some(y) => y,
            None => return Err(ChunkError::Truncated),
        };
        if x as usize >= palette_len {
            return Err(ChunkError::InvalidCell);
        }
        let ghost prev = v@;
        v.push(VoxelBlock::from_raw(x));
        proof {
            lemma_cells_push(raw_cells(prev), x);
            assert(raw_cells(v@) =~= raw_cells(prev).push(x));
            assert(b@.subrange(at as int, e as int) =~= b@.subrange(at as int, off as int) + b@.subrange(off as int, e as int));
            assert forall|cs: Seq<u16>| #[trigger] grid_fits(b@, at as int, cs) implies {
                &&& raw_cells(v@) == cs.subrange(0, k + 1)
                &&& e == at + 8 + cells_bytes(cs.subrange(0, k + 1)).len()
            } by {
                assert(cs.subrange(0, k as int).push(cs[k as int]) =~= cs.subrange(0, k + 1));
                lemma_cells_push(cs.subrange(0, k as int), cs[k as int]);
            }
        }
        off = e;
        k = k + 1;
    }
    proof {
        assert forall|cs: Seq<u16>| #[trigger] grid_fits(b@, at as int, cs) implies raw_cells(v@) == cs && off == at + grid_bytes(cs).len() by {
            assert(cs.subrange(0, GRID_SIZE as int) =~= cs);
        }
    }
    Ok((v, off))
}

proof fn lemma_body_parts(c: ChunkData)
    requires
        c.wf(),
    ensures
        ({
            let body = chunk_body(c);
            let pb = palette_bytes(palette_names(c.palette));
            let gb = grid_bytes(raw_cells(c.voxels@));
            &&& body.len() == 12 + pb.len() + gb.len()
            &&& body.subrange(0, 12) == pos_bytes(c.pos)
            &&& palette_fits(body, 12, palette_names(c.palette))
            &&& grid_fits(body, 12 + pb.len() as int, raw_cells(c.voxels@))
        }),
{
    lemma_auto_spec_u32_to_from_le_bytes();
    let body = chunk_body(c);
    let pb = palette_bytes(palette_names(c.palette));
    let gb = grid_bytes(raw_cells(c.voxels@));
    assert(pos_bytes(c.pos).len() == 12);
    assert(body.subrange(0, 12) =~= pos_bytes(c.pos));
    assert(body.subrange(12, 12 + pb.len() as int) =~= pb);
    assert(body.subrange(12 + pb.len() as int, body.len() as int) =~= gb);
}

proof fn lemma_palette_valid(c: ChunkData)
    requires
        c.wf(),
        names_distinct(palette_names(c.palette)),
    ensures
        valid_palette_names(palette_names(c.palette)),
{
}

proof fn lemma_cells_fit_palette(c: ChunkData, n: int)
    requires
        c.wf(),
        n == c.palette.atoms().len(),
    ensures
        forall|i: int| 0 <= i < raw_cells(c.voxels@).len() ==> #[trigger] raw_cells(c.voxels@)[i] < n,
{
    assert forall|i: int| 0 <= i < raw_cells(c.voxels@).len() implies #[trigger] raw_cells(c.voxels@)[i] < n by {
        assert(c.voxels@[i] matches VoxelBlock::Solid(k) ==> 1 <= k < n);
    }
}

proof fn lemma_raw_cells_injective(a: Seq<VoxelBlock>, b: Seq<VoxelBlock>)
    requires
        raw_cells(a) == raw_cells(b),
        forall|i: int| 0 <= i < a.len() ==> (#[trigger] a[i] matches VoxelBlock::Solid(k) ==> k >= 1),
        forall|i: int| 0 <= i < b.len() ==> (#[trigger] b[i] matches VoxelBlock::Solid(k) ==> k >= 1),
    ensures
        a == b,
{
    assert(a.len() == raw_cells(a).len());
    assert(b.len() == raw_cells(b).len());
    assert forall|i: int| 0 <= i < a.len() implies a[i] == b[i] by {
        assert(raw_cells(a)[i] == a[i].spec_raw());
        assert(raw_cells(b)[i] == b[i].spec_raw());
    }
    assert(a =~= b);
}

/// What decoding a stored palette `b` may give.
pub open spec fn palette_decoded(b: Seq<u8>, r: Result<Palette, ChunkError>) -> bool {
    &&& r matches Ok(p) ==> p.wf() && b == palette_bytes(palette_names(p))
    &&& forall|ns: Seq<Seq<char>>|
        1 <= ns.len() <= 65536 && b == #[trigger] palette_bytes(ns) ==> {
            &&& (r is Ok) == valid_palette_names(ns)
            &&& r matches Ok(p) ==> palette_names(p) == ns
        }
}

/// What reading the hash header of a stored record `b` gives.
pub open spec fn header_read(b: Seq<u8>, r: Result<u64, ChunkError>) -> bool {
    &&& b.len() < 8 ==> r == Err::<u64, ChunkError>(ChunkError::HeaderTooShort)
    &&& b.len() >= 8 ==> (r matches Ok(h) && le_u64(h) == b.subrange(0, 8))
}

/// What decoding a stored record `b` may give.
pub open spec fn chunk_decoded(b: Seq<u8>, r: Result<ChunkData, ChunkError>) -> bool {
    &&& (b.len() < 8) == (r == Err::<ChunkData, ChunkError>(ChunkError::HeaderTooShort))
    &&& b.len() >= 8 && zstd_content(b.subrange(8, b.len() as int)) is None ==> r
        == Err::<ChunkData, ChunkError>(ChunkError::Compression)
    &&& r matches Ok(c) ==> {
        &&& c.wf()
        &&& zstd_content(b.subrange(8, b.len() as int)) == Some(chunk_body(c))
    }
    &&& forall|c0: ChunkData|
        c0.wf() && names_distinct(palette_names(c0.palette)) && b == #[trigger] chunk_record(c0)
            ==> (r matches Ok(c) && c.pos == c0.pos && c.voxels@ == c0.voxels@ && palette_names(
            c.palette,
        ) == palette_names(c0.palette))
}

impl Palette {
    /// Decodes a stored palette, interning its block ids. Fails on a truncated or
    /// overlong stream, on invalid UTF-8, when the first id is not the empty-space
    /// block, and on a duplicated id.
    pub fn decode(bytes: &[u8], interner: &mut Interner) -> (r: Result<Palette, ChunkError>)
        requires
            old(interner).wf(),
        ensures
            final(interner).wf(),
            final(interner).extends(*old(interner)),
            palette_decoded(bytes@, r),
            r matches Ok(p) ==> palette_held(*final(interner), p),
    {
        proof {
            assert forall|ns: Seq<Seq<char>>| 1 <= ns.len() <= 65536 && bytes@ == #[trigger] palette_bytes(ns) implies palette_fits(bytes@, 0, ns) by {
                assert(bytes@.subrange(0, bytes@.len() as int) =~= bytes@);
            }
        }
        let (p, n) = take_palette(bytes, 0, interner)?;
        if n != bytes.len() {
            return Err(ChunkError::TrailingBytes);
        }
        assert(bytes@.subrange(0, n as int) =~= bytes@);
        Ok(p)
    }
}

fn take_pos(b: &[u8]) -> (r: Option<(IVec3, usize)>)
    ensures
        (r is Some) == (12 <= b@.len()),
        r matches Some((p, n)) ==> n == 12 && b@.subrange(0, 12) == pos_bytes(p),
        forall|p: IVec3| 12 <= b@.len() && b@.subrange(0, 12) == #[trigger] pos_bytes(p) ==> r == Some((p, 12usize)),
{
    proof {
        lemma_auto_spec_u32_to_from_le_bytes();
        assert forall|p: IVec3| #![trigger pos_bytes(p)] 12 <= b@.len() && b@.subrange(0, 12) == pos_bytes(p) implies {
            &&& b@.subrange(0, 4) == le_i32(p.x)
            &&& b@.subrange(4, 8) == le_i32(p.y)
            &&& b@.subrange(8, 12) == le_i32(p.z)
        } by {
            assert(b@.subrange(0, 4) =~= pos_bytes(p).subrange(0, 4));
            assert(b@.subrange(4, 8) =~= pos_bytes(p).subrange(4, 8));
            assert(b@.subrange(8, 12) =~= pos_bytes(p).subrange(8, 12));
        }
    }
    let (x, a) = take_i32(b, 0)?;
    let (y, c) = take_i32(b, a)?;
    let (z, e) = take_i32(b, c)?;
    let p = IVec3 { x, y, z };
    assert(b@.subrange(0, 12) =~= b@.subrange(0, 4) + b@.subrange(4, 8) + b@.subrange(8, 12));
    Some((p, e))
}

impl ChunkData {
    /// The stored record: the 8-byte little-endian content hash, then the zstd
    /// frame of the position, the palette and the cells.
    pub fn encode(&self) -> (r: Result<Vec<u8>, ChunkError>)
        requires
            self.wf(),
        ensures
            r matches Ok(b) && b@ == chunk_record(*self),
    {
        let body = encode_body(self);
        let frame = match compress(body.as_slice(), COMPRESSION_LEVEL) {
            Some(f) => f,
            None => return Err(ChunkError::Compression),
        };
        let mut out: Vec<u8> = Vec::new();
        put_u64(&mut out, self.hash);
        put(&mut out, frame.as_slice());
        Ok(out)
    }

    /// The content hash in the header of a stored record, without decoding the body.
    pub fn read_header(bytes: &[u8]) -> (r: Result<u64, ChunkError>)
        ensures
            header_read(bytes@, r),
    {
        match take_u64(bytes, 0) {
            Some((h, _)) => Ok(h),
            None => Err(ChunkError::HeaderTooShort),
        }
    }

    /// Decodes a stored record, interning its block ids. The statistics are
    /// recomputed from the cells.
    pub fn decode(bytes: &[u8], interner: &mut Interner) -> (r: Result<ChunkData, ChunkError>)
        requires
            old(interner).wf(),
        ensures
            final(interner).wf(),
            final(interner).extends(*old(interner)),
            chunk_decoded(bytes@, r),
            r matches Ok(c) ==> palette_held(*final(interner), c.palette),
    {
        proof {
            lemma_extends(*interner, *interner, *interner);
        }
        if bytes.len() < 8 {
            proof {
                lemma_le_u64_len();
            }
            return Err(ChunkError::HeaderTooShort);
        }
        let frame = vstd::slice::slice_subrange(bytes, 8, bytes.len());
        let body = match decompress(frame) {
            Some(b) => b,
            None => {
                proof {
                    assert forall|c0: ChunkData| c0.wf() && names_distinct(palette_names(c0.palette)) && bytes@ == #[trigger] chunk_record(c0) implies false by {
                        lemma_le_u64_len();
                        assert(frame@ =~= chunk_record(c0).subrange(8, chunk_record(c0).len() as int));
                        assert(frame@ == zstd_frame(chunk_body(c0), COMPRESSION_LEVEL));
                    }
                }
                return Err(ChunkError::Compression);
            },
        };
        let ghost bb = body@;
        proof {
            assert forall|c0: ChunkData| c0.wf() && names_distinct(palette_names(c0.palette)) && bytes@ == #[trigger] chunk_record(c0) implies bb == chunk_body(c0) by {
                lemma_le_u64_len();
                assert(frame@ =~= chunk_record(c0).subrange(8, chunk_record(c0).len() as int));
                assert(frame@ == zstd_frame(chunk_body(c0), COMPRESSION_LEVEL));
            }
        }
        let b = body.as_slice();
        let (pos, after_pos) = match take_pos(b) {
            Some(x) => x,
            None => {
                proof {
                    assert forall|c0: ChunkData| c0.wf() && names_distinct(palette_names(c0.palette)) && bytes@ == #[trigger] chunk_record(c0) implies false by {
                        lemma_body_parts(c0);
                    }
                }
                return Err(ChunkError::Truncated);
            },
        };
        proof {
            assert forall|c0: ChunkData| c0.wf() && names_distinct(palette_names(c0.palette)) && bytes@ == #[trigger] chunk_record(c0) implies pos == c0.pos && palette_fits(bb, 12, palette_names(c0.palette)) by {
                lemma_body_parts(c0);
            }
        }
        let (palette, after_palette) = match take_palette(b, after_pos, interner) {
            Ok(x) => x,
            Err(e) => {
                proof {
                    assert forall|c0: ChunkData| c0.wf() && names_distinct(palette_names(c0.palette)) && bytes@ == #[trigger] chunk_record(c0) implies false by {
                        assert(palette_fits(bb, 12, palette_names(c0.palette)));
                        lemma_palette_valid(c0);
                    }
                }
                return Err(e);
            },
        };
        proof {
            assert forall|c0: ChunkData| c0.wf() && names_distinct(palette_names(c0.palette)) && bytes@ == #[trigger] chunk_record(c0) implies palette_names(palette) == palette_names(c0.palette) && grid_fits(bb, after_palette as int, raw_cells(c0.voxels@)) by {
                assert(palette_fits(bb, 12, palette_names(c0.palette)));
                lemma_palette_valid(c0);
                lemma_body_parts(c0);
            }
        }
        let (voxels, after_grid) = match take_grid(b, after_palette, palette.len()) {
            Ok(x) => x,
            Err(e) => {
                proof {
                    assert forall|c0: ChunkData| c0.wf() && names_distinct(palette_names(c0.palette)) && bytes@ == #[trigger] chunk_record(c0) implies false by {
                        assert(grid_fits(bb, after_palette as int, raw_cells(c0.voxels@)));
                        lemma_cells_fit_palette(c0, palette.atoms().len() as int);
                    }
                }
                return Err(e);
            },
        };
        if after_grid != b.len() {
            proof {
                assert forall|c0: ChunkData| c0.wf() && names_distinct(palette_names(c0.palette)) && bytes@ == #[trigger] chunk_record(c0) implies false by {
                    assert(grid_fits(bb, after_palette as int, raw_cells(c0.voxels@)));
                    lemma_cells_fit_palette(c0, palette.atoms().len() as int);
                    lemma_body_parts(c0);
                }
            }
            return Err(ChunkError::TrailingBytes);
        }
        let mut chunk = ChunkData { pos, voxels, solid_count: 0, uniform: false, hash: 0, palette };
        chunk.generate_hash();
        proof {
            assert(bb =~= bb.subrange(0, 12) + bb.subrange(12, after_palette as int) + bb.subrange(after_palette as int, after_grid as int));
            assert(bb == chunk_body(chunk));
            assert forall|c0: ChunkData| c0.wf() && names_distinct(palette_names(c0.palette)) && bytes@ == #[trigger] chunk_record(c0) implies chunk.voxels@ == c0.voxels@ by {
                assert(palette.atoms().len() == palette_names(palette).len());
                assert(grid_fits(bb, after_palette as int, raw_cells(c0.voxels@)));
                lemma_cells_fit_palette(c0, palette.atoms().len() as int);
                lemma_raw_cells_injective(chunk.voxels@, c0.voxels@);
            }
        }
        Ok(chunk)
    }
}

/// A palette of distinct block ids survives encoding and decoding: the decoded
/// palette holds the same ids at the same indices.
pub proof fn palette_round_trip(p: Palette, decoded: Result<Palette, ChunkError>)
    requires
        p.wf(),
        names_distinct(palette_names(p)),
        palette_decoded(palette_bytes(palette_names(p)), decoded),
    ensures
        decoded matches Ok(q) && palette_names(q) == palette_names(p),
{
    assert(palette_names(p).len() == p.atoms().len());
}

/// Decoding a palette stream in which some block id appears twice fails.
pub proof fn palette_duplicate_rejected(ns: Seq<Seq<char>>, decoded: Result<Palette, ChunkError>)
    requires
        1 <= ns.len() <= 65536,
        !names_distinct(ns),
        palette_decoded(palette_bytes(ns), decoded),
    ensures
        decoded is Err,
{
}

/// The atoms that one interner holds have distinct texts.
pub proof fn lemma_held_palette_distinct(i: Interner, p: Palette)
    requires
        i.wf(),
        p.wf(),
        palette_held(i, p),
    ensures
        names_distinct(palette_names(p)),
{
    assert forall|a: int, b: int| 0 <= a < b < palette_names(p).len() implies palette_names(p)[a] != palette_names(p)[b] by {
        assert(i.holds(p.atoms()[a]));
        assert(i.holds(p.atoms()[b]));
    }
}

/// A chunk survives its stored record: decoding gives the same position, palette
/// ids and cells, and the header read on its own gives the hash of the decoded cells.
pub proof fn codec_round_trip(
    c: ChunkData,
    decoded: Result<ChunkData, ChunkError>,
    header: Result<u64, ChunkError>,
)
    requires
        c.wf(),
        names_distinct(palette_names(c.palette)),
        chunk_decoded(chunk_record(c), decoded),
        header_read(chunk_record(c), header),
    ensures
        decoded matches Ok(d) && {
            &&& d.pos == c.pos
            &&& d.voxels@ == c.voxels@
            &&& palette_names(d.palette) == palette_names(c.palette)
            &&& header == Ok::<u64, ChunkError>(d.hash)
            &&& d.hash == cells_digest(raw_cells(d.voxels@))
        },
{
    lemma_auto_spec_u64_to_from_le_bytes();
    let rec = chunk_record(c);
    assert(rec.subrange(0, 8) =~= le_u64(c.hash));
}

/// Two palettes with the same ids, whose atoms an interner (or an earlier state of
/// it) holds, hold the same atoms at the same indices.
proof fn lemma_same_names_same_atoms(earlier: Interner, later: Interner, p: Palette, q: Palette)
    requires
        later.wf(),
        later.extends(earlier),
        palette_held(earlier, p),
        palette_held(later, q),
        palette_names(q) == palette_names(p),
    ensures
        q.atoms().len() == p.atoms().len(),
        forall|k: int|
            0 <= k < p.atoms().len() ==> #[trigger] q.atoms()[k].key() == p.atoms()[k].key()
                && q.atoms()[k]@ == p.atoms()[k]@,
{
    assert(q.atoms().len() == palette_names(q).len());
    assert forall|k: int| 0 <= k < p.atoms().len() implies #[trigger] q.atoms()[k].key()
        == p.atoms()[k].key() && q.atoms()[k]@ == p.atoms()[k]@ by {
        assert(palette_names(q)[k] == palette_names(p)[k]);
        assert(earlier.holds(p.atoms()[k]));
        assert(later.holds(q.atoms()[k]));
        atoms_equal_iff_same_text(earlier, later, p.atoms()[k], q.atoms()[k]);
    }
}

/// Decoding a palette's stored form with the interner that holds its atoms gives
/// back the same atoms, by identity, at the same indices.
pub proof fn palette_round_trip_identity(
    earlier: Interner,
    later: Interner,
    p: Palette,
    decoded: Result<Palette, ChunkError>,
)
    requires
        earlier.wf(),
        later.wf(),
        later.extends(earlier),
        p.wf(),
        palette_held(earlier, p),
        palette_decoded(palette_bytes(palette_names(p)), decoded),
        decoded matches Ok(q) ==> palette_held(later, q),
    ensures
        decoded matches Ok(q) && q.atoms().len() == p.atoms().len() && forall|k: int|
            0 <= k < p.atoms().len() ==> #[trigger] q.atoms()[k].key() == p.atoms()[k].key()
                && q.atoms()[k]@ == p.atoms()[k]@,
{
    lemma_held_palette_distinct(earlier, p);
    palette_round_trip(p, decoded);
    if let Ok(q) = decoded {
        lemma_same_names_same_atoms(earlier, later, p, q);
    }
}

/// Decoding a chunk's record with the interner that holds its palette gives back
/// the same position and cells, and the same palette atoms by identity.
pub proof fn codec_round_trip_identity(
    earlier: Interner,
    later: Interner,
    c: ChunkData,
    decoded: Result<ChunkData, ChunkError>,
)
    requires
        earlier.wf(),
        later.wf(),
        later.extends(earlier),
        c.wf(),
        palette_held(earlier, c.palette),
        chunk_decoded(chunk_record(c), decoded),
        decoded matches Ok(d) ==> palette_held(later, d.palette),
    ensures
        decoded matches Ok(d) && d.pos == c.pos && d.voxels@ == c.voxels@
            && d.palette.atoms().len() == c.palette.atoms().len() && forall|k: int|
            0 <= k < c.palette.atoms().len() ==> #[trigger] d.palette.atoms()[k].key()
                == c.palette.atoms()[k].key() && d.palette.atoms()[k]@ == c.palette.atoms()[k]@,
{
    lemma_held_palette_distinct(earlier, c.palette);
    if let Ok(d) = decoded {
        lemma_same_names_same_atoms(earlier, later, c.palette, d.palette);
    }
}

} // verus!
