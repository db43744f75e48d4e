//! Tunables of chunk streaming.
use vstd::prelude::*;

verus! {

/// How far and how eagerly chunks are streamed in around the viewpoint.
#[derive(Debug, Clone, Copy, PartialEq, Eq, Structural)]
pub struct VoxelConfig {
    /// Radius, in chunks, within which chunks are loaded and beyond which they are unloaded.
    pub spawning_distance: u32,
    /// Number of visibility rays sampled per pass.
    pub spawning_rays: u32,
    /// Margin, in pixels, by which ray origins may fall outside the viewport.
    pub spawning_ray_margin: u32,
    /// Backlog above which a queued position is skipped in a pass.
    pub max_spawn_per_frame: u32,
}

impl Default for VoxelConfig {
    fn default() -> (r: Self)
        ensures
            r.spawning_distance == 64,
            r.spawning_rays == 96,
            r.spawning_ray_margin == 24,
            r.max_spawn_per_frame == 8192,
    {
        VoxelConfig {
            spawning_distance: 64,
            spawning_rays: 96,
            spawning_ray_margin: 24,
            max_spawn_per_frame: 8192,
        }
    }
}

} // verus!
