//! Ara: verified voxel-engine core.
//!
//! Packed voxel and visibility-buffer formats, Morton addressing inside
//! bricks, the CPU side of the sparse brick map, brick streaming decisions,
//! the block registry and small pieces of engine state.
use vstd::prelude::*;

pub mod morton;
pub mod voxel;
pub mod visibility;
pub mod brick_map;
pub mod chunk_streamer;
pub mod registry;
pub mod input;
pub mod camera;
pub mod render_modes;
pub mod ui;
pub mod world;
pub mod clipmap;
pub mod raycast;
pub mod light;

verus! {

/// Voxel material ID.
pub type VoxelId = u16;

/// Air voxel (empty space).
pub const VOXEL_AIR: u16 = 0;

/// Side length of a single brick in voxels.
pub const BRICK_SIZE: u32 = 8;

/// log2(BRICK_SIZE), used for shift addressing.
pub const BRICK_SHIFT: u32 = 3;

/// Voxels per brick (8 * 8 * 8).
pub const BRICK_VOLUME: u32 = 512;

/// Side length of the top-level brick grid.
pub const TOP_GRID_SIZE: u32 = 128;

/// Entries in the top grid (128 * 128 * 128).
pub const TOP_GRID_VOLUME: u32 = 2097152;

/// Voxels per axis covered by the top grid (TOP_GRID_SIZE * BRICK_SIZE).
pub const WORLD_EXTENT: u32 = 1024;

/// Sentinel marking an empty top-grid slot.
pub const BRICK_EMPTY: u32 = 0xFFFFFFFF;

/// Maximum ray-marching steps of the brick-level DDA.
pub const MAX_STEPS: u32 = 512;

/// Bytes one brick costs: voxel pool (1024) + header (16) + occupancy (64).
pub const BYTES_PER_BRICK: u64 = 1104;

/// Bytes taken by the top grid: TOP_GRID_VOLUME entries of 4 bytes.
pub const TOP_GRID_OVERHEAD: u64 = 8388608;

/// Upper limit on bricks: the largest derived buffer (bricks * 4096 bytes)
/// must stay within a 1 GiB buffer.
pub const MAX_POOL_BRICKS: u32 = 262144;

/// Pool-based memory budget derived from a total byte allocation.
#[derive(Debug, Clone, Copy)]
pub struct PoolBudget {
    pub total_bytes: u64,
}

/// Bricks that a budget of `total_bytes` affords: the bytes left after the
/// top grid, divided by the per-brick cost, capped at `MAX_POOL_BRICKS` so
/// that the largest derived buffer stays within 1 GiB.
pub open spec fn spec_max_bricks(total_bytes: u64) -> u32 {
    let available: int = if total_bytes >= TOP_GRID_OVERHEAD {
        total_bytes - TOP_GRID_OVERHEAD
    } else {
        0
    };
    let from_budget = available / (BYTES_PER_BRICK as int);
    if from_budget < MAX_POOL_BRICKS {
        from_budget as u32
    } else {
        MAX_POOL_BRICKS
    }
}

/// A larger budget never affords fewer bricks, and a budget within the top
/// grid's overhead affords none.
pub proof fn lemma_max_bricks_monotone(a: u64, b: u64)
    requires
        a <= b,
    ensures
        spec_max_bricks(a) <= spec_max_bricks(b),
        a <= TOP_GRID_OVERHEAD ==> spec_max_bricks(a) == 0,
{
    if a >= TOP_GRID_OVERHEAD {
        vstd::arithmetic::div_mod::lemma_div_is_ordered(
            a - TOP_GRID_OVERHEAD,
            b - TOP_GRID_OVERHEAD,
            BYTES_PER_BRICK as int,
        );
    }
}

impl PoolBudget {
    /// A budget of `total_mb` mebibytes.
    pub fn new(total_mb: u32) -> (b: Self)
        ensures
            b.total_bytes == total_mb as int * 1048576,
    {
        PoolBudget { total_bytes: total_mb as u64 * 1024 * 1024 }
    }

    /// Maximum number of bricks this budget affords.
    pub fn max_bricks(&self) -> (r: u32)
        ensures
            r == spec_max_bricks(self.total_bytes),
            r <= MAX_POOL_BRICKS,
    {
        let available = self.total_bytes.saturating_sub(TOP_GRID_OVERHEAD);
        let from_budget: u64 = available / BYTES_PER_BRICK;
        if from_budget < MAX_POOL_BRICKS as u64 {
            from_budget as u32
        } else {
            MAX_POOL_BRICKS
        }
    }
}

/// GPU memory budget presets for the brick pool.
#[derive(Debug, Clone, Copy, PartialEq, Eq, Structural)]
pub enum MemoryBudget {
    Low,
    Medium,
    High,
}

/// Mebibytes behind each preset: 256, 512 and 2048.
pub open spec fn spec_budget_mb(b: MemoryBudget) -> u32 {
    match b {
        MemoryBudget::Low => 256,
        MemoryBudget::Medium => 512,
        MemoryBudget::High => 2048,
    }
}

impl MemoryBudget {
    /// The pool budget of this preset.
    pub fn pool_budget(self) -> (b: PoolBudget)
        ensures
            b.total_bytes == spec_budget_mb(self) as int * 1048576,
    {
        match self {
            MemoryBudget::Low => PoolBudget::new(256),
            MemoryBudget::Medium => PoolBudget::new(512),
            MemoryBudget::High => PoolBudget::new(2048),
        }
    }

    /// Maximum number of bricks for this preset.
    pub fn max_bricks(self) -> (r: u32)
        ensures
            r == spec_max_bricks((spec_budget_mb(self) as int * 1048576) as u64),
            r <= MAX_POOL_BRICKS,
    {
        self.pool_budget().max_bricks()
    }

    /// Voxel pool size in bytes: max bricks * 512 voxels * 2 bytes.
    pub fn voxel_pool_bytes(self) -> (r: u64)
        ensures
            r == spec_max_bricks((spec_budget_mb(self) as int * 1048576) as u64) as int * 1024,
    {
        self.max_bricks() as u64 * BRICK_VOLUME as u64 * 2
    }
}

} // verus!
