//! Integer coordinates: world block positions, chunk positions, and cells of the
//! padded chunk grid.
use vstd::prelude::*;

verus! {

/// Edge length of a chunk, in blocks.
pub const CHUNK_SIZE: i32 = 32;

/// Edge length of the stored grid: the chunk plus one cell of padding per face.
pub const PADDED_CHUNK_SIZE: u32 = 34;

/// Number of cells in the padded grid.
pub const GRID_SIZE: usize = 39304;

/// An integer 3-vector: a block position in the world, or a chunk position.
#[derive(Clone, Copy, Debug, PartialEq, Eq, Hash, Structural)]
pub struct IVec3 {
    pub x: i32,
    pub y: i32,
    pub z: i32,
}

/// An unsigned 3-vector: a cell of the padded grid.
#[derive(Clone, Copy, Debug, PartialEq, Eq, Hash, Structural)]
pub struct UVec3 {
    pub x: u32,
    pub y: u32,
    pub z: u32,
}

pub open spec fn shifted(v: i32) -> int {
    v + 0x8000_0000
}

/// A single integer that names a position, used to key maps by position.
pub open spec fn pos_key(p: IVec3) -> u128 {
    (shifted(p.x) * 0x1_0000_0000_0000_0000 + shifted(p.y) * 0x1_0000_0000 + shifted(
        p.z,
    )) as u128
}

/// Distinct positions have distinct keys.
pub proof fn lemma_pos_key_injective(p: IVec3, q: IVec3)
    ensures
        pos_key(p) == pos_key(q) <==> p == q,
{
    let (a1, b1, c1) = (shifted(p.x), shifted(p.y), shifted(p.z));
    let (a2, b2, c2) = (shifted(q.x), shifted(q.y), shifted(q.z));
    assert(0 <= a1 * 0x1_0000_0000_0000_0000 + b1 * 0x1_0000_0000 + c1 < 0x1_0000_0000_0000_0000_0000_0000) by (nonlinear_arith)
        requires 0 <= a1 < 0x1_0000_0000, 0 <= b1 < 0x1_0000_0000, 0 <= c1 < 0x1_0000_0000;
    assert(0 <= a2 * 0x1_0000_0000_0000_0000 + b2 * 0x1_0000_0000 + c2 < 0x1_0000_0000_0000_0000_0000_0000) by (nonlinear_arith)
        requires 0 <= a2 < 0x1_0000_0000, 0 <= b2 < 0x1_0000_0000, 0 <= c2 < 0x1_0000_0000;
    if pos_key(p) == pos_key(q) {
        assert(a1 == a2 && b1 == b2 && c1 == c2) by (nonlinear_arith)
            requires
                0 <= a1 < 0x1_0000_0000, 0 <= b1 < 0x1_0000_0000, 0 <= c1 < 0x1_0000_0000,
                0 <= a2 < 0x1_0000_0000, 0 <= b2 < 0x1_0000_0000, 0 <= c2 < 0x1_0000_0000,
                a1 * 0x1_0000_0000_0000_0000 + b1 * 0x1_0000_0000 + c1 == a2
                    * 0x1_0000_0000_0000_0000 + b2 * 0x1_0000_0000 + c2;
    }
}

impl IVec3 {
    pub fn new(x: i32, y: i32, z: i32) -> (r: Self)
        ensures
            r == (IVec3 { x, y, z }),
    {
        IVec3 { x, y, z }
    }

    /// The map key of this position.
    pub fn key(&self) -> (r: u128)
        ensures
            r == pos_key(*self),
    {
        let a = (self.x as i64 + 0x8000_0000) as u128;
        let b = (self.y as i64 + 0x8000_0000) as u128;
        let c = (self.z as i64 + 0x8000_0000) as u128;
        assert(a * 0x1_0000_0000_0000_0000 + b * 0x1_0000_0000 + c < 0x1_0000_0000_0000_0000_0000_0000) by (nonlinear_arith)
            requires a < 0x1_0000_0000, b < 0x1_0000_0000, c < 0x1_0000_0000;
        a * 0x1_0000_0000_0000_0000 + b * 0x1_0000_0000 + c
    }

    /// Squared Euclidean distance, exact in 128 bits.
    pub fn distance_squared(&self, other: &IVec3) -> (r: i128)
        ensures
            r == sq_dist(*self, *other),
    {
        let dx = self.x as i128 - other.x as i128;
        let dy = self.y as i128 - other.y as i128;
        let dz = self.z as i128 - other.z as i128;
        assert(0 <= dx * dx <= 0x1_0000_0000_0000_0000int) by (nonlinear_arith)
            requires -0x1_0000_0000int < dx < 0x1_0000_0000int;
        assert(0 <= dy * dy <= 0x1_0000_0000_0000_0000int) by (nonlinear_arith)
            requires -0x1_0000_0000int < dy < 0x1_0000_0000int;
        assert(0 <= dz * dz <= 0x1_0000_0000_0000_0000int) by (nonlinear_arith)
            requires -0x1_0000_0000int < dz < 0x1_0000_0000int;
        dx * dx + dy * dy + dz * dz
    }
}

pub open spec fn sq_dist(a: IVec3, b: IVec3) -> int {
    (a.x - b.x) * (a.x - b.x) + (a.y - b.y) * (a.y - b.y) + (a.z - b.z) * (a.z - b.z)
}

/// Index of a padded-grid cell in the flat voxel array; x varies fastest.
pub open spec fn linear_index(x: int, y: int, z: int) -> int {
    x + 34 * y + 1156 * z
}

/// The cell at a flat index.
pub open spec fn cell_of(i: int) -> (int, int, int) {
    (i % 34, (i / 34) % 34, i / 1156)
}

pub fn linearize(p: UVec3) -> (r: usize)
    requires
        p.x < PADDED_CHUNK_SIZE,
        p.y < PADDED_CHUNK_SIZE,
        p.z < PADDED_CHUNK_SIZE,
    ensures
        r == linear_index(p.x as int, p.y as int, p.z as int),
        r < GRID_SIZE,
        cell_of(r as int) == (p.x as int, p.y as int, p.z as int),
{
    let r = p.x as usize + 34 * p.y as usize + 1156 * p.z as usize;
    assert(cell_of(r as int) == (p.x as int, p.y as int, p.z as int)) by (nonlinear_arith)
        requires r == p.x + 34 * p.y + 1156 * p.z, p.x < 34, p.y < 34, p.z < 34;
    r
}

pub fn delinearize(i: usize) -> (r: UVec3)
    requires
        i < GRID_SIZE,
    ensures
        (r.x as int, r.y as int, r.z as int) == cell_of(i as int),
        r.x < PADDED_CHUNK_SIZE,
        r.y < PADDED_CHUNK_SIZE,
        r.z < PADDED_CHUNK_SIZE,
{
    assert(i / 1156 < 34) by (nonlinear_arith) requires i < 39304;
    UVec3 { x: (i % 34) as u32, y: ((i / 34) % 34) as u32, z: (i / 1156) as u32 }
}

/// The chunk that holds block `p`, and the cell of `p` in that chunk's padded
/// grid (offset by the padding, so from 1 to 32 on each axis).
pub open spec fn chunk_of(p: IVec3) -> IVec3 {
    IVec3 { x: (p.x as int / 32) as i32, y: (p.y as int / 32) as i32, z: (p.z as int / 32) as i32 }
}

pub open spec fn cell_in_chunk(p: IVec3) -> UVec3 {
    UVec3 {
        x: (p.x as int % 32 + 1) as u32,
        y: (p.y as int % 32 + 1) as u32,
        z: (p.z as int % 32 + 1) as u32,
    }
}

fn floor_div_32(v: i32) -> (r: (i32, u32))
    ensures
        r.0 == v as int / 32,
        r.1 == v as int % 32 + 1,
{
    let u = v as i64 + 0x8000_0000;
    let q = u / 32;
    let m = u % 32;
    assert(q - 0x400_0000 == v as int / 32 && m == v as int % 32) by (nonlinear_arith)
        requires u == v + 0x8000_0000, q == u / 32, m == u % 32, u >= 0;
    ((q - 0x400_0000) as i32, (m + 1) as u32)
}

/// Returns the chunk position of block `position` and its cell in that chunk.
pub fn get_chunk_voxel_position(position: IVec3) -> (r: (IVec3, UVec3))
    ensures
        r.0 == chunk_of(position),
        r.1 == cell_in_chunk(position),
{
    let (cx, lx) = floor_div_32(position.x);
    let (cy, ly) = floor_div_32(position.y);
    let (cz, lz) = floor_div_32(position.z);
    (IVec3 { x: cx, y: cy, z: cz }, UVec3 { x: lx, y: ly, z: lz })
}

/// Chunks whose padded grid lies inside the `i32` world.
pub open spec fn chunk_in_range(c: IVec3) -> bool {
    &&& -0x400_0000 < c.x < 0x400_0000 - 1
    &&& -0x400_0000 < c.y < 0x400_0000 - 1
    &&& -0x400_0000 < c.z < 0x400_0000 - 1
}

/// World position of the padded-grid cell `i` of chunk `c`.
pub open spec fn cell_world_pos(c: IVec3, i: int) -> IVec3 {
    let (x, y, z) = cell_of(i);
    IVec3 {
        x: (c.x * 32 + x - 1) as i32,
        y: (c.y * 32 + y - 1) as i32,
        z: (c.z * 32 + z - 1) as i32,
    }
}

pub fn world_pos_of_cell(c: IVec3, i: usize) -> (r: IVec3)
    requires
        chunk_in_range(c),
        i < GRID_SIZE,
    ensures
        r == cell_world_pos(c, i as int),
{
    let p = delinearize(i);
    IVec3 {
        x: c.x * 32 + p.x as i32 - 1,
        y: c.y * 32 + p.y as i32 - 1,
        z: c.z * 32 + p.z as i32 - 1,
    }
}

/// Distinct cells of one chunk lie at distinct world positions.
pub proof fn lemma_cell_world_pos_injective(c: IVec3, i: int, j: int)
    requires
        chunk_in_range(c),
        0 <= i < GRID_SIZE,
        0 <= j < GRID_SIZE,
        i != j,
    ensures
        cell_world_pos(c, i) != cell_world_pos(c, j),
{
    assert(cell_of(i) != cell_of(j)) by (nonlinear_arith)
        requires 0 <= i < 39304, 0 <= j < 39304, i != j;
    let (xi, yi, zi) = cell_of(i);
    let (xj, yj, zj) = cell_of(j);
    assert(0 <= xi < 34 && 0 <= yi < 34 && 0 <= zi < 34) by (nonlinear_arith)
        requires 0 <= i < 39304, (xi, yi, zi) == cell_of(i);
    assert(0 <= xj < 34 && 0 <= yj < 34 && 0 <= zj < 34) by (nonlinear_arith)
        requires 0 <= j < 39304, (xj, yj, zj) == cell_of(j);
}

/// The `i`-th point of a cube of side `bounds`, x varying fastest.
pub fn index_to_ivec3_bounds(i: i32, bounds: i32) -> (r: IVec3)
    requires
        0 <= i,
        0 < bounds,
    ensures
        r.x == i as int % bounds as int,
        r.y == (i as int / bounds as int) % bounds as int,
        r.z == i as int / (bounds as int * bounds as int),
{
    let x = i % bounds;
    let y = (i / bounds) % bounds;
    let z = (i / bounds) / bounds;
    assert(z as int == i as int / (bounds as int * bounds as int)) by (nonlinear_arith)
        requires z as int == (i as int / bounds as int) / bounds as int, 0 <= i, 0 < bounds;
    IVec3 { x, y, z }
}

} // verus!
