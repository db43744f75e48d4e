//! Terrain sources: a pure function from a world position to a block name.
use vstd::prelude::*;

use crate::atom::air_name;
use crate::coords::IVec3;

verus! {

/// A terrain source. The block at a position depends on the position alone.
pub trait Generator {
    /// Name of the block that the source puts at `pos`.
    spec fn spec_generate(&self, pos: IVec3) -> Seq<char>;

    fn generate(&self, pos: IVec3) -> (r: String)
        ensures
            r@ == self.spec_generate(pos),
    ;
}

pub open spec fn grass_name() -> Seq<char> {
    "core::grass"@
}

/// Flat ground: one layer of grass at `y == 0`, air elsewhere.
pub struct FlatGenerator;

impl FlatGenerator {
    pub fn new() -> (r: Self) {
        FlatGenerator
    }
}

impl Generator for FlatGenerator {
    open spec fn spec_generate(&self, pos: IVec3) -> Seq<char> {
        if pos.y == 0 {
            grass_name()
        } else {
            air_name()
        }
    }

    fn generate(&self, pos: IVec3) -> (r: String) {
        if pos.y == 0 {
            "core::grass".to_owned()
        } else {
            "core::air".to_owned()
        }
    }
}

/// Ground up to a sampled height per column: grass below the column's height,
/// air from it up. Holds the heights of a square of `size` by `size` columns
/// whose first column is at (`origin_x`, `origin_z`); outside it, air.
pub struct HeightmapGenerator {
    pub origin_x: i32,
    pub origin_z: i32,
    pub size: usize,
    /// Height of column (`origin_x + dx`, `origin_z + dz`) at index `dx + size * dz`.
    pub heights: Vec<i32>,
}

impl HeightmapGenerator {
    /// Column index of `pos`, if the square holds it.
    pub open spec fn column(&self, pos: IVec3) -> Option<int> {
        let dx = pos.x - self.origin_x;
        let dz = pos.z - self.origin_z;
        if 0 <= dx < self.size && 0 <= dz < self.size && dx + self.size * dz < self.heights@.len() {
            Some(dx + self.size * dz)
        } else {
            None
        }
    }
}

impl Generator for HeightmapGenerator {
    open spec fn spec_generate(&self, pos: IVec3) -> Seq<char> {
        match self.column(pos) {
            Some(i) => if pos.y < self.heights@[i] {
                grass_name()
            } else {
                air_name()
            },
            None => air_name(),
        }
    }

    fn generate(&self, pos: IVec3) -> (r: String) {
        let dx = pos.x as i64 - self.origin_x as i64;
        let dz = pos.z as i64 - self.origin_z as i64;
        let n = self.heights.len();
        let size = self.size;
        if 0 <= dx && 0 <= dz && (dx as u64) < (size as u64) && (dz as u64) < (size as u64) {
            let (ux, uz) = (dx as usize, dz as usize);
            if ux < n {
                let room = (n - ux) / size;
                if uz <= room {
                    assert(ux + size * uz <= n) by (nonlinear_arith)
                        requires uz <= room, room as int == (n as int - ux as int) / (size as int), size > 0, ux < n;
                    let idx = ux + size * uz;
                    if idx < n && pos.y < self.heights[idx] {
                        return "core::grass".to_owned();
                    }
                } else {
                    assert(ux + size * uz >= n) by (nonlinear_arith)
                        requires uz > room, room as int == (n as int - ux as int) / (size as int), size > 0, ux < n;
                }
            } else {
                assert(ux + size * uz >= n) by (nonlinear_arith)
                    requires ux >= n, size > 0, uz >= 0;
            }
        }
        "core::air".to_owned()
    }
}

} // verus!
