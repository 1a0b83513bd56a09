//! CPU side of the sparse brick map: a 128^3 toroidal top grid of brick
//! slots, a pool of 8^3 bricks handed out from a free list, and a CPU copy of
//! the voxel data of every resident brick.
//!
//! The GPU buffers mirror this state; every method that changes it returns
//! what the caller needs to upload.
use vstd::prelude::*;

use crate::morton::{lemma_decode_encode, spec_morton_encode};
use crate::voxel::{brick_local_index, world_to_brick, world_to_local, PackedVoxel};
use crate::{MemoryBudget, BRICK_EMPTY, BRICK_VOLUME, MAX_POOL_BRICKS, TOP_GRID_SIZE,
    TOP_GRID_VOLUME, WORLD_EXTENT, spec_max_bricks, spec_budget_mb};

verus! {

/// `v` wrapped into `0..128` (mathematical modulus, so negative values wrap too).
pub open spec fn spec_wrap_grid(v: int) -> int {
    v % 128
}

/// Index of a brick coordinate in the toroidal top grid: each axis wrapped
/// into `0..128`, laid out as `z * 128^2 + y * 128 + x`.
pub open spec fn spec_grid_index(bx: int, by: int, bz: int) -> int {
    spec_wrap_grid(bz) * 16384 + spec_wrap_grid(by) * 128 + spec_wrap_grid(bx)
}

fn wrap_grid(v: i32) -> (r: u32)
    ensures
        r == spec_wrap_grid(v as int),
        r < 128,
{
    let tgs = TOP_GRID_SIZE as i32;
    ((v % tgs + tgs) % tgs) as u32
}

/// Index of a brick coordinate in the toroidal top grid.
pub fn top_grid_index(bx: i32, by: i32, bz: i32) -> (r: usize)
    ensures
        r == spec_grid_index(bx as int, by as int, bz as int),
        r < TOP_GRID_VOLUME,
{
    let x = wrap_grid(bx);
    let y = wrap_grid(by);
    let z = wrap_grid(bz);
    (z * TOP_GRID_SIZE * TOP_GRID_SIZE + y * TOP_GRID_SIZE + x) as usize
}

/// The empty voxel.
pub open spec fn spec_air() -> PackedVoxel {
    PackedVoxel { packed: 0 }
}

/// Whether a world voxel position lies in the `0..1024` cube the map covers.
pub open spec fn in_world(p: [i32; 3]) -> bool {
    0 <= p[0] < WORLD_EXTENT && 0 <= p[1] < WORLD_EXTENT && 0 <= p[2] < WORLD_EXTENT
}

/// Top-grid slot of the brick holding world position `p`.
pub open spec fn grid_of_pos(p: [i32; 3]) -> int {
    spec_grid_index(p[0] as int / 8, p[1] as int / 8, p[2] as int / 8)
}

/// Morton index of world position `p` within its brick.
pub open spec fn local_of_pos(p: [i32; 3]) -> int {
    spec_morton_encode((p[0] as int % 8) as u32, (p[1] as int % 8) as u32, (p[2] as int % 8) as u32)
        as int
}

/// The grid layout `z * 128^2 + y * 128 + x` is one-to-one on `0..128`.
proof fn lemma_grid_layout_unique(x1: int, y1: int, z1: int, x2: int, y2: int, z2: int)
    requires
        0 <= x1 < 128,
        0 <= y1 < 128,
        0 <= z1 < 128,
        0 <= x2 < 128,
        0 <= y2 < 128,
        0 <= z2 < 128,
        z1 * 16384 + y1 * 128 + x1 == z2 * 16384 + y2 * 128 + x2,
    ensures
        x1 == x2 && y1 == y2 && z1 == z2,
{
    if z1 < z2 {
        assert(z1 * 16384 + y1 * 128 + x1 < z2 * 16384);
    } else if z2 < z1 {
        assert(z2 * 16384 + y2 * 128 + x2 < z1 * 16384);
    }
    assert(z1 == z2);
    if y1 < y2 {
        assert(y1 * 128 + x1 < y2 * 128);
    } else if y2 < y1 {
        assert(y2 * 128 + x2 < y1 * 128);
    }
}

/// Two in-world positions with the same top-grid slot and the same index
/// within the brick are the same position.
pub proof fn lemma_pos_addressing_injective(p: [i32; 3], q: [i32; 3])
    requires
        in_world(p),
        in_world(q),
        grid_of_pos(p) == grid_of_pos(q),
        local_of_pos(p) == local_of_pos(q),
    ensures
        p == q,
{
    let (a1, b1, c1) = (p[0] as int / 8, p[1] as int / 8, p[2] as int / 8);
    let (a2, b2, c2) = (q[0] as int / 8, q[1] as int / 8, q[2] as int / 8);
    assert(spec_wrap_grid(a1) == a1 && spec_wrap_grid(b1) == b1 && spec_wrap_grid(c1) == c1);
    assert(spec_wrap_grid(a2) == a2 && spec_wrap_grid(b2) == b2 && spec_wrap_grid(c2) == c2);
    lemma_grid_layout_unique(a1, b1, c1, a2, b2, c2);
    crate::morton::lemma_encode_injective(
        (p[0] as int % 8) as u32,
        (p[1] as int % 8) as u32,
        (p[2] as int % 8) as u32,
        (q[0] as int % 8) as u32,
        (q[1] as int % 8) as u32,
        (q[2] as int % 8) as u32,
    );
    assert(p =~= q);
}

/// The index of a position within its brick is below 512.
pub proof fn lemma_local_bound(p: [i32; 3])
    ensures
        0 <= local_of_pos(p) < 512,
{
    crate::morton::lemma_encode_bound(
        (p[0] as int % 8) as u32,
        (p[1] as int % 8) as u32,
        (p[2] as int % 8) as u32,
    );
}

/// Sparse brick map state.
pub struct BrickMap {
    free_list: Vec<u32>,
    lod0_origin: [i32; 3],
    max_bricks: u32,
    top_grid: Vec<u32>,
    brick_data: Vec<Vec<PackedVoxel>>,
    pending_reveals: Vec<(usize, u32)>,
}

impl BrickMap {
    /// Top-grid entries: a brick index, or `BRICK_EMPTY`.
    pub closed spec fn grid(&self) -> Seq<u32> {
        self.top_grid@
    }

    /// Free brick indices; the last one is handed out first.
    pub closed spec fn free(&self) -> Seq<u32> {
        self.free_list@
    }

    /// CPU copy of the voxels of each brick slot (empty for released slots).
    pub closed spec fn bricks(&self) -> Seq<Seq<PackedVoxel>> {
        self.brick_data@.map_values(|v: Vec<PackedVoxel>| v@)
    }

    /// Bricks generated but not yet revealed on the GPU: (grid slot, brick index).
    pub closed spec fn pending(&self) -> Seq<(usize, u32)> {
        self.pending_reveals@
    }

    /// Number of brick slots in the pool.
    pub closed spec fn capacity(&self) -> u32 {
        self.max_bricks
    }

    /// LOD0 camera center in brick coordinates.
    pub closed spec fn origin(&self) -> [i32; 3] {
        self.lod0_origin
    }

    /// Whether grid entry `g` holds a brick.
    pub open spec fn occupied(&self, g: int) -> bool {
        self.grid()[g] != BRICK_EMPTY
    }

    /// The voxel the map holds at world position `p`: air outside the world
    /// cube or in an empty brick slot.
    pub open spec fn voxel_at(&self, p: [i32; 3]) -> PackedVoxel {
        if !in_world(p) {
            spec_air()
        } else if !self.occupied(grid_of_pos(p)) {
            spec_air()
        } else {
            self.bricks()[self.grid()[grid_of_pos(p)] as int][local_of_pos(p)]
        }
    }

    /// Internal consistency: sizes match, free indices are distinct and in
    /// the pool, and every occupied slot holds its own resident brick that is
    /// not free.
    pub closed spec fn wf(&self) -> bool {
        &&& self.top_grid@.len() == TOP_GRID_VOLUME
        &&& self.brick_data@.len() == self.max_bricks
        &&& self.max_bricks <= MAX_POOL_BRICKS
        &&& self.free_list@.no_duplicates()
        &&& self.free_list@.len() <= self.max_bricks
        &&& forall|i: int| 0 <= i < self.free_list@.len() ==> #[trigger] self.free_list@[i] < self.max_bricks
        &&& forall|g: int|
            0 <= g < TOP_GRID_VOLUME && #[trigger] self.top_grid@[g] != BRICK_EMPTY ==> {
                &&& self.top_grid@[g] < self.max_bricks
                &&& self.brick_data@[self.top_grid@[g] as int]@.len() == BRICK_VOLUME
                &&& !self.free_list@.contains(self.top_grid@[g])
            }
        &&& forall|g1: int, g2: int|
            0 <= g1 < TOP_GRID_VOLUME && 0 <= g2 < TOP_GRID_VOLUME && g1 != g2
                && #[trigger] self.top_grid@[g1] != BRICK_EMPTY ==> self.top_grid@[g1]
                != #[trigger] self.top_grid@[g2]
        &&& forall|k: int| 0 <= k < self.pending_reveals@.len() ==> #[trigger] self.pending_reveals@[k].0 < TOP_GRID_VOLUME
    }

    /// No brick is handed out twice: two occupied slots hold different
    /// bricks, and the brick of an occupied slot is a pool brick that is not
    /// on the free list.
    pub proof fn lemma_bricks_exclusive(&self, g1: int, g2: int)
        requires
            self.wf(),
            0 <= g1 < TOP_GRID_VOLUME,
            0 <= g2 < TOP_GRID_VOLUME,
            g1 != g2,
            self.occupied(g1),
        ensures
            self.grid()[g1] != self.grid()[g2],
            self.grid()[g1] < self.capacity(),
            !self.free().contains(self.grid()[g1]),
    {
        assert(self.top_grid@[g1] != BRICK_EMPTY);
    }

    /// Sizes and bounds that well-formedness guarantees.
    pub proof fn lemma_wf_facts(&self)
        requires
            self.wf(),
        ensures
            self.grid().len() == TOP_GRID_VOLUME,
            self.bricks().len() == self.capacity(),
            forall|g: int| 0 <= g < TOP_GRID_VOLUME && #[trigger] self.occupied(g) ==> self.grid()[g] < self.capacity()
                && self.bricks()[self.grid()[g] as int].len() == BRICK_VOLUME,
    {
    }
}


/// Pigeonhole: distinct values below `n` number at most `n`.
proof fn lemma_distinct_below_len(s: Seq<u32>, n: u32)
    requires
        s.no_duplicates(),
        forall|i: int| 0 <= i < s.len() ==> #[trigger] s[i] < n,
    ensures
        s.len() <= n,
{
    let t = s.map_values(|x: u32| x as int);
    assert forall|i: int, j: int| 0 <= i < t.len() && 0 <= j < t.len() && i != j implies t[i]
        != t[j] by {
        assert(s[i] != s[j]);
    }
    assert(t.no_duplicates());
    t.unique_seq_to_set();
    vstd::set_lib::lemma_int_range(0, n as int);
    assert(t.to_set().subset_of(vstd::set_lib::set_int_range(0, n as int))) by {
        assert forall|x: int| t.to_set().contains(x) implies vstd::set_lib::set_int_range(
            0,
            n as int,
        ).contains(x) by {
            let i = choose|i: int| 0 <= i < t.len() && t[i] == x;
            assert(s[i] < n);
        }
    }
    vstd::set_lib::lemma_len_subset(t.to_set(), vstd::set_lib::set_int_range(0, n as int));
}

/// `s` without the entries for grid slot `g`, order kept.
pub open spec fn without_slot(s: Seq<(usize, u32)>, g: usize) -> Seq<(usize, u32)>
    decreases s.len(),
{
    if s.len() == 0 {
        s
    } else if s.last().0 == g {
        without_slot(s.drop_last(), g)
    } else {
        without_slot(s.drop_last(), g).push(s.last())
    }
}

/// Dropping the entries of slot `g` keeps the others, in order.
pub proof fn lemma_without_slot_filter(s: Seq<(usize, u32)>, g: usize)
    ensures
        without_slot(s, g) == s.filter(|e: (usize, u32)| e.0 != g),
    decreases s.len(),
{
    reveal(Seq::filter);
    if s.len() > 0 {
        lemma_without_slot_filter(s.drop_last(), g);
    }
}

/// Voxels of a freshly allocated brick: 512 air voxels.
pub open spec fn air_brick() -> Seq<PackedVoxel> {
    Seq::new(BRICK_VOLUME as nat, |i: int| spec_air())
}

fn new_air_brick() -> (v: Vec<PackedVoxel>)
    ensures
        v@ == air_brick(),
{
    let mut v: Vec<PackedVoxel> = Vec::new();
    let mut i: usize = 0;
    while i < BRICK_VOLUME as usize
        invariant
            i <= BRICK_VOLUME,
            v@ == Seq::new(i as nat, |k: int| spec_air()),
        decreases BRICK_VOLUME - i,
    {
        v.push(PackedVoxel::air());
        i = i + 1;
        assert(v@ =~= Seq::new(i as nat, |k: int| spec_air()));
    }
    v
}

impl BrickMap {
    /// A map with every top-grid slot empty and all `budget.max_bricks()`
    /// brick slots free, handed out lowest index first.
    pub fn new(budget: MemoryBudget) -> (m: Self)
        ensures
            m.wf(),
            m.capacity() == spec_max_bricks((spec_budget_mb(budget) as int * 1048576) as u64),
            m.free() == Seq::new(m.capacity() as nat, |i: int| (m.capacity() - 1 - i) as u32),
            forall|g: int| 0 <= g < TOP_GRID_VOLUME ==> !#[trigger] m.occupied(g),
            m.pending().len() == 0,
            m.origin() == [0i32, 0, 0],
            forall|p: [i32; 3]| #[trigger] m.voxel_at(p) == spec_air(),
    {
        let max_bricks = budget.max_bricks();
        let top_grid = vec![BRICK_EMPTY; TOP_GRID_VOLUME as usize];
        let mut free_list: Vec<u32> = Vec::new();
        let mut i: u32 = 0;
        while i < max_bricks
            invariant
                i <= max_bricks,
                free_list@ == Seq::new(i as nat, |k: int| (max_bricks - 1 - k) as u32),
            decreases max_bricks - i,
        {
            free_list.push(max_bricks - 1 - i);
            i = i + 1;
            assert(free_list@ =~= Seq::new(i as nat, |k: int| (max_bricks - 1 - k) as u32));
        }
        let mut brick_data: Vec<Vec<PackedVoxel>> = Vec::new();
        let mut j: u32 = 0;
        while j < max_bricks
            invariant
                j <= max_bricks,
                brick_data@.len() == j,
            decreases max_bricks - j,
        {
            brick_data.push(Vec::new());
            j = j + 1;
        }
        let m = BrickMap {
            free_list,
            lod0_origin: [0i32, 0, 0],
            max_bricks,
            top_grid,
            brick_data,
            pending_reveals: Vec::new(),
        };
        assert(forall|g: int| 0 <= g < TOP_GRID_VOLUME ==> m.top_grid@[g] == BRICK_EMPTY);
        assert(m.free_list@.no_duplicates());
        m
    }

    /// Look up the voxel at a world position from the CPU copy.
    pub fn get_voxel(&self, pos: [i32; 3]) -> (v: PackedVoxel)
        requires
            self.wf(),
        ensures
            v == self.voxel_at(pos),
    {
        let we = WORLD_EXTENT as i32;
        if pos[0] < 0 || pos[1] < 0 || pos[2] < 0 || pos[0] >= we || pos[1] >= we || pos[2] >= we {
            return PackedVoxel::air();
        }
        let bc = world_to_brick(pos[0], pos[1], pos[2]);
        let g = top_grid_index(bc[0], bc[1], bc[2]);
        let b = self.top_grid[g];
        if b == BRICK_EMPTY {
            return PackedVoxel::air();
        }
        let lc = world_to_local(pos[0], pos[1], pos[2]);
        let li = brick_local_index(lc[0], lc[1], lc[2]) as usize;
        self.brick_data[b as usize][li]
    }
}


impl BrickMap {
    /// Claim the next free brick for brick coordinate `coord`: its top-grid
    /// slot points at the brick, whose voxels become air. Returns the brick
    /// index, or `None` when the pool is exhausted (nothing changes then).
    pub fn allocate_brick(&mut self, coord: [i32; 3]) -> (r: Option<u32>)
        requires
            old(self).wf(),
        ensures
            final(self).wf(),
            final(self).capacity() == old(self).capacity(),
            final(self).pending() == old(self).pending(),
            final(self).origin() == old(self).origin(),
            r is None <==> old(self).free().len() == 0,
            r is None ==> {
                &&& final(self).grid() == old(self).grid()
                &&& final(self).free() == old(self).free()
                &&& final(self).bricks() == old(self).bricks()
            },
            r matches Some(b) ==> {
                let g = spec_grid_index(coord[0] as int, coord[1] as int, coord[2] as int);
                &&& b < final(self).capacity()
                &&& b == old(self).free().last()
                &&& final(self).free() == old(self).free().drop_last()
                &&& final(self).grid() == old(self).grid().update(g, b)
                &&& final(self).bricks() == old(self).bricks().update(b as int, air_brick())
                &&& forall|p: [i32; 3]|
                    #![trigger final(self).voxel_at(p)]
                    if grid_of_pos(p) == g {
                        final(self).voxel_at(p) == spec_air()
                    } else {
                        final(self).voxel_at(p) == old(self).voxel_at(p)
                    }
            },
    {
        let b = match self.free_list.pop() {
            Some(b) => b,
            None => return None,
        };
        let g = top_grid_index(coord[0], coord[1], coord[2]);
        let ghost old_free = old(self).free_list@;
        let ghost old_grid = old(self).top_grid@;
        assert(old_free.last() == b);
        assert(self.free_list@ =~= old_free.drop_last());
        proof {
            assert(old_free.contains(b));
            assert forall|x: u32| self.free_list@.contains(x) implies old_free.contains(x) && x != b by {
                let i = choose|i: int| 0 <= i < self.free_list@.len() && self.free_list@[i] == x;
                assert(old_free[i] == x);
                assert(old_free[old_free.len() - 1] == b);
            }
        }
        self.top_grid[g] = b;
        self.brick_data[b as usize] = new_air_brick();
        proof {
            assert(self.bricks() =~= old(self).bricks().update(b as int, air_brick()));
            assert(self.grid() =~= old(self).grid().update(g as int, b));
            assert forall|g1: int|
                0 <= g1 < TOP_GRID_VOLUME && #[trigger] self.top_grid@[g1] != BRICK_EMPTY implies {
                &&& self.top_grid@[g1] < self.max_bricks
                &&& self.brick_data@[self.top_grid@[g1] as int]@.len() == BRICK_VOLUME
                &&& !self.free_list@.contains(self.top_grid@[g1])
            } by {
                if g1 != g {
                    assert(old_grid[g1] != BRICK_EMPTY);
                    assert(!old_free.contains(old_grid[g1]));
                }
            }
            assert forall|g1: int, g2: int|
                0 <= g1 < TOP_GRID_VOLUME && 0 <= g2 < TOP_GRID_VOLUME && g1 != g2
                    && #[trigger] self.top_grid@[g1] != BRICK_EMPTY implies self.top_grid@[g1]
                != #[trigger] self.top_grid@[g2] by {
                if g1 != g && g2 != g {
                    assert(old_grid[g1] != old_grid[g2]);
                } else if g1 == g {
                    if old_grid[g2] != BRICK_EMPTY {
                        assert(!old_free.contains(old_grid[g2]));
                    }
                } else {
                    assert(!old_free.contains(old_grid[g1]));
                }
            }
            assert forall|p: [i32; 3]|
                #![trigger self.voxel_at(p)]
                if grid_of_pos(p) == g {
                    self.voxel_at(p) == spec_air()
                } else {
                    self.voxel_at(p) == old(self).voxel_at(p)
                } by {
                if in_world(p) && grid_of_pos(p) != g as int {
                    let gp = grid_of_pos(p);
                    assert(0 <= gp < TOP_GRID_VOLUME);
                    if old_grid[gp] != BRICK_EMPTY {
                        assert(!old_free.contains(old_grid[gp]));
                        assert(old_grid[gp] != b);
                    }
                }
                if in_world(p) && grid_of_pos(p) == g as int {
                    lemma_local_bound(p);
                }
            }
        }
        Some(b)
    }
}


impl BrickMap {
    /// Replace the CPU copy of brick `brick_idx` with `voxels`.
    pub fn write_brick(&mut self, brick_idx: u32, voxels: &[PackedVoxel; 512])
        requires
            old(self).wf(),
            brick_idx < old(self).capacity(),
        ensures
            final(self).wf(),
            final(self).bricks() == old(self).bricks().update(brick_idx as int, voxels@),
            final(self).grid() == old(self).grid(),
            final(self).free() == old(self).free(),
            final(self).pending() == old(self).pending(),
            final(self).capacity() == old(self).capacity(),
            final(self).origin() == old(self).origin(),
    {
        let mut copy: Vec<PackedVoxel> = Vec::new();
        let mut i: usize = 0;
        while i < 512
            invariant
                i <= 512,
                voxels@.len() == 512,
                copy@ == voxels@.subrange(0, i as int),
            decreases 512 - i,
        {
            copy.push(voxels[i]);
            i = i + 1;
            assert(copy@ =~= voxels@.subrange(0, i as int));
        }
        assert(copy@ =~= voxels@);
        self.brick_data[brick_idx as usize] = copy;
        assert(self.bricks() =~= old(self).bricks().update(brick_idx as int, voxels@));
    }

    /// Release the brick in the top-grid slot of `coord`: the slot becomes
    /// empty, the brick returns to the free list, its CPU copy is dropped and
    /// any pending reveal of that slot is discarded. Returns the released
    /// brick index, or `None` when the slot was already empty (nothing
    /// changes then).
    pub fn evict_brick(&mut self, coord: [i32; 3]) -> (r: Option<u32>)
        requires
            old(self).wf(),
        ensures
            final(self).wf(),
            final(self).capacity() == old(self).capacity(),
            final(self).origin() == old(self).origin(),
            ({
                let g = spec_grid_index(coord[0] as int, coord[1] as int, coord[2] as int);
                &&& r is None <==> !old(self).occupied(g)
                &&& r is None ==> {
                    &&& final(self).grid() == old(self).grid()
                    &&& final(self).free() == old(self).free()
                    &&& final(self).bricks() == old(self).bricks()
                    &&& final(self).pending() == old(self).pending()
                }
                &&& r matches Some(b) ==> {
                    &&& b == old(self).grid()[g]
                    &&& final(self).grid() == old(self).grid().update(g, BRICK_EMPTY)
                    &&& final(self).free() == old(self).free().push(b)
                    &&& final(self).bricks() == old(self).bricks().update(b as int, Seq::empty())
                    &&& final(self).pending() == without_slot(old(self).pending(), g as usize)
                    &&& forall|p: [i32; 3]|
                        #![trigger final(self).voxel_at(p)]
                        if grid_of_pos(p) == g {
                            final(self).voxel_at(p) == spec_air()
                        } else {
                            final(self).voxel_at(p) == old(self).voxel_at(p)
                        }
                }
            }),
    {
        let g = top_grid_index(coord[0], coord[1], coord[2]);
        let b = self.top_grid[g];
        if b == BRICK_EMPTY {
            return None;
        }
        let ghost old_free = old(self).free_list@;
        let ghost old_grid = old(self).top_grid@;
        let ghost old_pending = old(self).pending_reveals@;
        let mut kept: Vec<(usize, u32)> = Vec::new();
        let mut k: usize = 0;
        while k < self.pending_reveals.len()
            invariant
                self.pending_reveals@ == old_pending,
                k <= old_pending.len(),
                kept@ == without_slot(old_pending.subrange(0, k as int), g),
                forall|j: int| 0 <= j < old_pending.len() ==> #[trigger] old_pending[j].0 < TOP_GRID_VOLUME,
                forall|j: int| 0 <= j < kept@.len() ==> #[trigger] kept@[j].0 < TOP_GRID_VOLUME,
            decreases old_pending.len() - k,
        {
            let e = self.pending_reveals[k];
            assert(old_pending.subrange(0, k + 1).drop_last() =~= old_pending.subrange(0, k as int));
            if e.0 != g {
                kept.push(e);
            }
            k = k + 1;
        }
        assert(old_pending.subrange(0, old_pending.len() as int) =~= old_pending);
        self.pending_reveals = kept;
        self.top_grid[g] = BRICK_EMPTY;
        self.free_list.push(b);
        self.brick_data[b as usize] = Vec::new();
        proof {
            assert(self.bricks() =~= old(self).bricks().update(b as int, Seq::empty()));
            assert(self.grid() =~= old(self).grid().update(g as int, BRICK_EMPTY));
            assert(!old_free.contains(b));
            assert(self.free_list@.no_duplicates()) by {
                assert forall|i: int, j: int|
                    0 <= i < self.free_list@.len() && 0 <= j < self.free_list@.len() && i != j
                    implies self.free_list@[i] != self.free_list@[j] by {
                    if i == old_free.len() as int {
                        assert(old_free[j] == self.free_list@[j]);
                    } else if j == old_free.len() as int {
                        assert(old_free[i] == self.free_list@[i]);
                    }
                }
            }
            lemma_distinct_below_len(self.free_list@, self.max_bricks);
            assert forall|g1: int|
                0 <= g1 < TOP_GRID_VOLUME && #[trigger] self.top_grid@[g1] != BRICK_EMPTY implies {
                &&& self.top_grid@[g1] < self.max_bricks
                &&& self.brick_data@[self.top_grid@[g1] as int]@.len() == BRICK_VOLUME
                &&& !self.free_list@.contains(self.top_grid@[g1])
            } by {
                assert(g1 != g);
                assert(old_grid[g1] != BRICK_EMPTY);
                assert(old_grid[g1] != b);
                assert(!old_free.contains(old_grid[g1]));
                if self.free_list@.contains(self.top_grid@[g1]) {
                    let i = choose|i: int| 0 <= i < self.free_list@.len() && self.free_list@[i] == self.top_grid@[g1];
                    if i < old_free.len() {
                        assert(old_free[i] == old_grid[g1]);
                    }
                }
            }
            assert forall|p: [i32; 3]|
                #![trigger self.voxel_at(p)]
                if grid_of_pos(p) == g {
                    self.voxel_at(p) == spec_air()
                } else {
                    self.voxel_at(p) == old(self).voxel_at(p)
                } by {
                if in_world(p) && grid_of_pos(p) != g as int {
                    let gp = grid_of_pos(p);
                    assert(0 <= gp < TOP_GRID_VOLUME);
                    if old_grid[gp] != BRICK_EMPTY {
                        assert(old_grid[gp] != b);
                    }
                }
            }
        }
        Some(b)
    }

    /// Allocate a brick for `coord` whose voxels the GPU terrain pass will
    /// write. Does nothing and returns `None` when the slot already holds a
    /// brick or the pool is exhausted; otherwise allocates as
    /// [`BrickMap::allocate_brick`] does and records the slot as pending
    /// reveal.
    pub fn begin_brick_generation(&mut self, coord: [i32; 3]) -> (r: Option<u32>)
        requires
            old(self).wf(),
        ensures
            final(self).wf(),
            final(self).capacity() == old(self).capacity(),
            final(self).origin() == old(self).origin(),
            ({
                let g = spec_grid_index(coord[0] as int, coord[1] as int, coord[2] as int);
                &&& r is None <==> (old(self).occupied(g) || old(self).free().len() == 0)
                &&& r is None ==> {
                    &&& final(self).grid() == old(self).grid()
                    &&& final(self).free() == old(self).free()
                    &&& final(self).bricks() == old(self).bricks()
                    &&& final(self).pending() == old(self).pending()
                }
                &&& r matches Some(b) ==> {
                    &&& b < final(self).capacity()
                    &&& b == old(self).free().last()
                    &&& final(self).free() == old(self).free().drop_last()
                    &&& final(self).grid() == old(self).grid().update(g, b)
                    &&& final(self).bricks() == old(self).bricks().update(b as int, air_brick())
                    &&& final(self).pending() == old(self).pending().push((g as usize, b))
                    &&& forall|p: [i32; 3]| #[trigger] final(self).voxel_at(p) == old(self).voxel_at(p)
                }
            }),
    {
        let g = top_grid_index(coord[0], coord[1], coord[2]);
        if self.top_grid[g] != BRICK_EMPTY {
            return None;
        }
        let b = match self.allocate_brick(coord) {
            Some(b) => b,
            None => return None,
        };
        let ghost mid_grid = self.grid();
        let ghost mid_bricks = self.bricks();
        assert(forall|p: [i32; 3]| grid_of_pos(p) != g ==> #[trigger] self.voxel_at(p) == old(self).voxel_at(p));
        self.pending_reveals.push((g, b));
        proof {
            assert(self.grid() == mid_grid);
            assert(self.bricks() == mid_bricks);
            assert forall|p: [i32; 3]| #[trigger] self.voxel_at(p) == old(self).voxel_at(p) by {
                if in_world(p) && grid_of_pos(p) == g {
                    lemma_local_bound(p);
                    assert(self.grid()[g as int] == b);
                    assert(self.bricks()[b as int] == air_brick());
                }
            }
        }
        Some(b)
    }

    /// Hand over the pending reveals, oldest first, and clear them.
    pub fn reveal_pending(&mut self) -> (r: Vec<(usize, u32)>)
        requires
            old(self).wf(),
        ensures
            final(self).wf(),
            r@ == old(self).pending(),
            final(self).pending().len() == 0,
            final(self).grid() == old(self).grid(),
            final(self).free() == old(self).free(),
            final(self).bricks() == old(self).bricks(),
            final(self).capacity() == old(self).capacity(),
            final(self).origin() == old(self).origin(),
    {
        let mut r: Vec<(usize, u32)> = Vec::new();
        std::mem::swap(&mut r, &mut self.pending_reveals);
        r
    }

    /// LOD0 camera center in brick coordinates.
    pub fn lod0_origin(&self) -> (r: [i32; 3])
        ensures
            r == self.origin(),
    {
        self.lod0_origin
    }

    /// Set the LOD0 camera center in brick coordinates.
    pub fn set_lod0_origin(&mut self, origin: [i32; 3])
        requires
            old(self).wf(),
        ensures
            final(self).wf(),
            final(self).origin() == origin,
            final(self).grid() == old(self).grid(),
            final(self).free() == old(self).free(),
            final(self).bricks() == old(self).bricks(),
            final(self).pending() == old(self).pending(),
            final(self).capacity() == old(self).capacity(),
    {
        self.lod0_origin = origin;
    }

    /// Number of brick slots in the pool.
    pub fn max_bricks(&self) -> (r: u32)
        ensures
            r == self.capacity(),
    {
        self.max_bricks
    }

    /// Number of bricks currently handed out (pool size minus free bricks).
    pub fn allocated_bricks(&self) -> (r: u32)
        requires
            self.wf(),
        ensures
            r == self.capacity() - self.free().len(),
    {
        self.max_bricks - self.free_list.len() as u32
    }
}


/// Occupancy bits of the `n` voxels of `data` starting at `base`: bit `j`
/// is set when voxel `base + j` is not air.
pub open spec fn occupancy_bits(data: Seq<PackedVoxel>, base: int, n: nat) -> u32
    decreases n,
{
    if n == 0 {
        0
    } else {
        let rest = occupancy_bits(data, base, (n - 1) as nat);
        if data[base + n - 1].spec_id() != 0 {
            rest | (1u32 << ((n - 1) as u32))
        } else {
            rest
        }
    }
}

/// The 32-bit pool word holding voxels `2k` (low half) and `2k + 1` (high half).
pub open spec fn spec_pair_word(data: Seq<PackedVoxel>, k: int) -> u32 {
    (data[2 * k].packed as u32) | ((data[2 * k + 1].packed as u32) << 16u32)
}

/// Number of non-air voxels among the first `n` of `data`.
pub open spec fn solid_count(data: Seq<PackedVoxel>, n: nat) -> nat
    decreases n,
{
    if n == 0 {
        0
    } else {
        solid_count(data, (n - 1) as nat) + if data[n - 1].spec_id() != 0 {
            1nat
        } else {
            0nat
        }
    }
}

/// Setting bit `k` of a word leaves every other bit as it was.
proof fn lemma_set_bit(w: u32, k: u32, j: u32)
    by (bit_vector)
    requires
        k < 32,
        j < 32,
    ensures
        ((w | (1u32 << k)) >> j) & 1 == if j == k {
            1u32
        } else {
            (w >> j) & 1
        },
        (0u32 >> j) & 1 == 0,
        (w >> j) & 1 <= 1,
{
}

/// Bit `j` of an occupancy word is set exactly when voxel `base + j` is
/// not air.
pub proof fn lemma_occupancy_bits(data: Seq<PackedVoxel>, base: int, n: nat)
    requires
        n <= 32,
    ensures
        forall|j: u32| j < n ==> ((#[trigger] (occupancy_bits(data, base, n) >> j)) & 1 == 1 <==> data[base
            + j].spec_id() != 0),
        forall|j: u32| n <= j < 32 ==> (#[trigger] (occupancy_bits(data, base, n) >> j)) & 1 == 0,
    decreases n,
{
    if n == 0 {
        assert forall|j: u32| j < 32 implies (#[trigger] (occupancy_bits(data, base, 0) >> j)) & 1 == 0 by {
            lemma_set_bit(0, 0, j);
        }
    } else {
        let m = (n - 1) as nat;
        lemma_occupancy_bits(data, base, m);
        let rest = occupancy_bits(data, base, m);
        assert forall|j: u32| j < 32 implies ((#[trigger] (occupancy_bits(data, base, n) >> j)) & 1 == 1 <==> (
            j < n && data[base + j].spec_id() != 0)) by {
            lemma_set_bit(rest, m as u32, j);
            lemma_set_bit(occupancy_bits(data, base, n), 0, j);
            if j < m {
                assert((rest >> j) & 1 == 1 <==> data[base + j].spec_id() != 0);
            }
        }
        assert forall|j: u32| n <= j < 32 implies (#[trigger] (occupancy_bits(data, base, n) >> j)) & 1 == 0 by {
            lemma_set_bit(rest, m as u32, j);
            lemma_set_bit(occupancy_bits(data, base, n), 0, j);
            assert((rest >> j) & 1 == 0);
        }
    }
}

/// Occupancy word `word` (voxels `32 * word .. 32 * word + 32`) of a brick.
pub fn occupancy_word(data: &[PackedVoxel], word: usize) -> (r: u32)
    requires
        data@.len() == 512,
        word < 16,
    ensures
        r == occupancy_bits(data@, 32 * word as int, 32),
{
    let base = word * 32;
    let mut occ: u32 = 0;
    let mut n: usize = 0;
    while n < 32
        invariant
            n <= 32,
            base == 32 * word,
            word < 16,
            data@.len() == 512,
            occ == occupancy_bits(data@, base as int, n as nat),
        decreases 32 - n,
    {
        if !data[base + n].is_air() {
            occ = occ | (1u32 << (n as u32));
        }
        n = n + 1;
    }
    occ
}

/// Occupancy bitmap (16 words of 32 bits) and non-air count of a brick.
pub struct BrickOccupancy {
    pub words: Vec<u32>,
    pub solid_count: u32,
}

/// Occupancy bitmap and non-air count of a brick's voxels, as uploaded
/// alongside the brick.
pub fn brick_occupancy(voxels: &[PackedVoxel; 512]) -> (r: BrickOccupancy)
    ensures
        r.words@.len() == 16,
        forall|w: int| 0 <= w < 16 ==> #[trigger] r.words@[w] == occupancy_bits(voxels@, 32 * w, 32),
        r.solid_count == solid_count(voxels@, 512),
{
    let mut words: Vec<u32> = Vec::new();
    let mut w: usize = 0;
    while w < 16
        invariant
            w <= 16,
            voxels@.len() == 512,
            words@.len() == w,
            forall|k: int| 0 <= k < w ==> #[trigger] words@[k] == occupancy_bits(voxels@, 32 * k, 32),
        decreases 16 - w,
    {
        let o = occupancy_word(voxels.as_slice(), w);
        words.push(o);
        w = w + 1;
    }
    let mut count: u32 = 0;
    let mut i: usize = 0;
    while i < 512
        invariant
            i <= 512,
            voxels@.len() == 512,
            count == solid_count(voxels@, i as nat),
            count <= i,
        decreases 512 - i,
    {
        if !voxels[i].is_air() {
            count = count + 1;
        }
        i = i + 1;
    }
    BrickOccupancy { words, solid_count: count }
}

/// What a voxel write changed.
pub enum VoxelWrite {
    /// Nothing changed: the position is outside the world cube, or air was
    /// written where no brick is resident, or a brick was needed and the
    /// pool is exhausted.
    Unchanged,
    /// The voxel was stored in brick `brick_idx` at Morton index
    /// `local_index`. `new_brick` tells whether the brick was allocated for
    /// this write. `pair_word` is the 32-bit pool word holding the voxel and
    /// its neighbour, `occupancy_word` the occupancy word covering it.
    Stored {
        brick_idx: u32,
        new_brick: bool,
        local_index: u32,
        pair_word: u32,
        occupancy_word: u32,
    },
}

impl BrickMap {
    /// Store `voxel` at world position `pos`, allocating a brick when the
    /// slot is empty and the voxel is not air.
    pub fn write_voxel(&mut self, pos: [i32; 3], voxel: PackedVoxel) -> (r: VoxelWrite)
        requires
            old(self).wf(),
        ensures
            final(self).wf(),
            final(self).capacity() == old(self).capacity(),
            final(self).origin() == old(self).origin(),
            final(self).pending() == old(self).pending(),
            ({
                let g = grid_of_pos(pos);
                &&& r is Unchanged <==> (!in_world(pos) || (!old(self).occupied(g) && (voxel.spec_id()
                    == 0 || old(self).free().len() == 0)))
                &&& r is Unchanged ==> {
                    &&& final(self).grid() == old(self).grid()
                    &&& final(self).free() == old(self).free()
                    &&& final(self).bricks() == old(self).bricks()
                }
                &&& r matches VoxelWrite::Stored {
                    brick_idx,
                    new_brick,
                    local_index,
                    pair_word,
                    occupancy_word,
                } ==> {
                    &&& final(self).voxel_at(pos) == voxel
                    &&& forall|q: [i32; 3]|
                        q != pos ==> #[trigger] final(self).voxel_at(q) == old(self).voxel_at(q)
                    &&& new_brick == !old(self).occupied(g)
                    &&& new_brick ==> brick_idx == old(self).free().last() && final(self).free()
                        == old(self).free().drop_last()
                    &&& !new_brick ==> brick_idx == old(self).grid()[g] && final(self).free() == old(
                        self,
                    ).free()
                    &&& final(self).grid() == old(self).grid().update(g, brick_idx)
                    &&& local_index == local_of_pos(pos)
                    &&& pair_word == spec_pair_word(
                        final(self).bricks()[brick_idx as int],
                        local_index as int / 2,
                    )
                    &&& occupancy_word == occupancy_bits(
                        final(self).bricks()[brick_idx as int],
                        32 * (local_index as int / 32),
                        32,
                    )
                }
            }),
    {
        let we = WORLD_EXTENT as i32;
        if pos[0] < 0 || pos[1] < 0 || pos[2] < 0 || pos[0] >= we || pos[1] >= we || pos[2] >= we {
            return VoxelWrite::Unchanged;
        }
        let ghost old_grid = old(self).top_grid@;
        let ghost old_free = old(self).free_list@;
        let bc = world_to_brick(pos[0], pos[1], pos[2]);
        let g = top_grid_index(bc[0], bc[1], bc[2]);
        let mut b = self.top_grid[g];
        let mut new_brick = false;
        if b == BRICK_EMPTY {
            if voxel.is_air() {
                return VoxelWrite::Unchanged;
            }
            match self.allocate_brick(bc) {
                Some(idx) => {
                    b = idx;
                    new_brick = true;
                },
                None => return VoxelWrite::Unchanged,
            }
        }
        let ghost mid_grid = self.top_grid@;
        let ghost mid_bricks = self.bricks();
        let ghost mid_free = self.free_list@;
        assert(forall|q: [i32; 3]| q != pos ==> #[trigger] self.voxel_at(q) == old(self).voxel_at(q))
            by {
            assert forall|q: [i32; 3]| q != pos implies #[trigger] self.voxel_at(q) == old(
                self,
            ).voxel_at(q) by {
                if new_brick && in_world(q) && grid_of_pos(q) == g as int {
                    lemma_local_bound(q);
                }
            }
        }
        let lc = world_to_local(pos[0], pos[1], pos[2]);
        let li32 = brick_local_index(lc[0], lc[1], lc[2]);
        let li = li32 as usize;
        assert(mid_grid[g as int] == b);
        assert(self.brick_data@[b as int]@.len() == 512);
        self.brick_data[b as usize][li] = voxel;
        proof {
            assert(self.bricks() =~= mid_bricks.update(b as int, mid_bricks[b as int].update(li as int, voxel)));
            assert(self.brick_data@[b as int]@.len() == 512);
            assert forall|g1: int|
                0 <= g1 < TOP_GRID_VOLUME && #[trigger] self.top_grid@[g1] != BRICK_EMPTY implies {
                &&& self.top_grid@[g1] < self.max_bricks
                &&& self.brick_data@[self.top_grid@[g1] as int]@.len() == BRICK_VOLUME
                &&& !self.free_list@.contains(self.top_grid@[g1])
            } by {
                if self.top_grid@[g1] != b {
                    assert(self.brick_data@[self.top_grid@[g1] as int] == old(self).brick_data@[self.top_grid@[g1] as int] || new_brick);
                }
            }
            assert forall|q: [i32; 3]| q != pos implies #[trigger] self.voxel_at(q) == old(self).voxel_at(q) by {
                if in_world(q) && grid_of_pos(q) == g as int {
                    lemma_local_bound(q);
                    if local_of_pos(q) == li as int {
                        lemma_pos_addressing_injective(pos, q);
                    }
                }
                if in_world(q) && grid_of_pos(q) != g as int {
                    let gq = grid_of_pos(q);
                    assert(0 <= gq < TOP_GRID_VOLUME);
                    if mid_grid[gq] != BRICK_EMPTY {
                        assert(mid_grid[gq] != b);
                    }
                }
            }
            lemma_local_bound(pos);
        }
        let pair = li / 2;
        let data = &self.brick_data[b as usize];
        let pair_word = (data[pair * 2].packed as u32) | ((data[pair * 2 + 1].packed as u32) << 16u32);
        let occ = occupancy_word(data.as_slice(), li / 32);
        VoxelWrite::Stored {
            brick_idx: b,
            new_brick,
            local_index: li32,
            pair_word,
            occupancy_word: occ,
        }
    }
}

/// Where a right click places a block: the cell next to the hit cell across
/// the hit face, when it lies inside the world cube and is not the cell the
/// camera occupies; `None` otherwise.
pub fn placement_target(hit: [i32; 3], normal: [i32; 3], cam_cell: [i32; 3]) -> (r: Option<[i32; 3]>)
    requires
        forall|k: int| 0 <= k < 3 ==> i32::MIN <= #[trigger] hit[k] + normal[k] <= i32::MAX,
    ensures
        ({
            let n = [(hit[0] + normal[0]) as i32, (hit[1] + normal[1]) as i32, (hit[2] + normal[2]) as i32];
            &&& r is Some <==> (in_world(n) && n != cam_cell)
            &&& r matches Some(p) ==> p == n
        }),
{
    assert(i32::MIN <= hit[0] + normal[0] <= i32::MAX);
    assert(i32::MIN <= hit[1] + normal[1] <= i32::MAX);
    assert(i32::MIN <= hit[2] + normal[2] <= i32::MAX);
    let we = WORLD_EXTENT as i32;
    let n = [hit[0] + normal[0], hit[1] + normal[1], hit[2] + normal[2]];
    if n[0] >= 0 && n[0] < we && n[1] >= 0 && n[1] < we && n[2] >= 0 && n[2] < we {
        if n[0] != cam_cell[0] || n[1] != cam_cell[1] || n[2] != cam_cell[2] {
            return Some(n);
        }
        assert(n =~= cam_cell);
    }
    None
}

} // verus!
