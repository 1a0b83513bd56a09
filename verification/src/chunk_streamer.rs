//! Brick streaming decisions: which bricks around the camera may hold
//! terrain, the faces of the streamed region that enter and leave as the
//! camera moves, and the queue of bricks waiting for GPU terrain generation.
//!
//! Terrain heights come from a floating-point height function evaluated by
//! the caller; the functions here take the sampled heights as integers.
use vstd::prelude::*;

use std::collections::VecDeque;

use crate::brick_map::{BrickMap, spec_grid_index, top_grid_index};
use crate::BRICK_EMPTY;

verus! {

/// Streaming radius in bricks (half the 128-brick top grid per axis).
pub const STREAMING_RADIUS: i32 = 64;

/// `a / 2` rounded toward zero, as Rust's integer division does.
pub open spec fn trunc_half(a: int) -> int {
    if a >= 0 {
        a / 2
    } else {
        -((-a) / 2)
    }
}

/// Whether the sample columns of brick `coord` and its vertical extent can
/// be computed in `i32`.
pub open spec fn sample_fits(coord: [i32; 3]) -> bool {
    &&& i32::MIN <= coord[0] * 8 && coord[0] * 16 + 7 <= i32::MAX && coord[0] * 16 + 7 >= i32::MIN
    &&& i32::MIN <= coord[2] * 8 && coord[2] * 16 + 7 <= i32::MAX && coord[2] * 16 + 7 >= i32::MIN
    &&& i32::MIN <= coord[1] * 8 && coord[1] * 8 + 8 <= i32::MAX
}

/// The `(x, z)` columns at which terrain height is sampled for a brick: its
/// four corner columns then its center column.
pub open spec fn spec_sample_columns(coord: [i32; 3]) -> Seq<(int, int)> {
    let x0 = coord[0] * 8;
    let x1 = x0 + 7;
    let z0 = coord[2] * 8;
    let z1 = z0 + 7;
    seq![(x0, z0), (x1, z0), (x0, z1), (x1, z1), (trunc_half(x0 + x1), trunc_half(z0 + z1))]
}

/// Sample columns of brick `coord`: its four corner columns then its center
/// column.
pub fn terrain_sample_columns(coord: [i32; 3]) -> (r: [(i32, i32); 5])
    requires
        sample_fits(coord),
    ensures
        forall|k: int| 0 <= k < 5 ==> (#[trigger] r[k]).0 == spec_sample_columns(coord)[k].0 && r[k].1
            == spec_sample_columns(coord)[k].1,
{
    let x0 = coord[0] * 8;
    let x1 = x0 + 7;
    let z0 = coord[2] * 8;
    let z1 = z0 + 7;
    [(x0, z0), (x1, z0), (x0, z1), (x1, z1), ((x0 + x1) / 2, (z0 + z1) / 2)]
}

/// Whether a height can be padded by 8 in `i32`.
pub open spec fn height_fits(h: i32) -> bool {
    h <= i32::MAX - 8
}

pub open spec fn heights_fit(h: [i32; 5]) -> bool {
    forall|k: int| 0 <= k < 5 ==> height_fits(#[trigger] h[k])
}

pub open spec fn max5(h: [i32; 5]) -> int {
    let a = if h[0] >= h[1] { h[0] } else { h[1] };
    let b = if a >= h[2] { a } else { h[2] };
    let c = if b >= h[3] { b } else { h[3] };
    if c >= h[4] { c as int } else { h[4] as int }
}

/// A brick may hold terrain unless it lies entirely above the sampled
/// surface: its bottom `8y` must be at most 8 voxels above the highest
/// sampled height. Surface and underground bricks are always kept.
pub open spec fn spec_may_contain_terrain(coord: [i32; 3], heights: [i32; 5]) -> bool {
    coord[1] * 8 <= max5(heights) + 8
}

/// Whether brick `coord` may hold terrain, given the terrain heights at its
/// sample columns (in the order of [`terrain_sample_columns`]).
pub fn brick_may_contain_terrain(coord: [i32; 3], heights: [i32; 5]) -> (r: bool)
    requires
        sample_fits(coord),
        heights_fit(heights),
    ensures
        r == spec_may_contain_terrain(coord, heights),
        r <==> exists|k: int| 0 <= k < 5 && coord[1] * 8 <= #[trigger] heights[k] + 8,
{
    let brick_y_min = coord[1] * 8;
    let mut h_max = heights[0];
    let mut k: usize = 1;
    while k < 5
        invariant
            1 <= k <= 5,
            h_max == max_prefix(heights, k as int),
        decreases 5 - k,
    {
        if heights[k] > h_max {
            h_max = heights[k];
        }
        k = k + 1;
    }
    proof {
        lemma_prefix_max(heights);
        lemma_terrain_any_sample(coord, heights);
    }
    brick_y_min <= h_max + 8
}

/// A brick is kept exactly when its bottom lies at most 8 voxels above at
/// least one of its five sampled terrain heights: every sample counts.
pub proof fn lemma_terrain_any_sample(coord: [i32; 3], heights: [i32; 5])
    ensures
        spec_may_contain_terrain(coord, heights) <==> exists|k: int|
            0 <= k < 5 && coord[1] * 8 <= #[trigger] heights[k] + 8,
{
    let m = max5(heights);
    assert(m >= heights[0] && m >= heights[1] && m >= heights[2] && m >= heights[3] && m >= heights[4]);
    assert(m == heights[0] || m == heights[1] || m == heights[2] || m == heights[3] || m == heights[4]);
    if spec_may_contain_terrain(coord, heights) {
        if m == heights[0] {
            assert(coord[1] * 8 <= heights[0] + 8);
        } else if m == heights[1] {
            assert(coord[1] * 8 <= heights[1] + 8);
        } else if m == heights[2] {
            assert(coord[1] * 8 <= heights[2] + 8);
        } else if m == heights[3] {
            assert(coord[1] * 8 <= heights[3] + 8);
        } else {
            assert(coord[1] * 8 <= heights[4] + 8);
        }
    }
}

proof fn lemma_prefix_max(h: [i32; 5])
    requires
        heights_fit(h),
    ensures
        max_prefix(h, 5) == max5(h),
        height_fits(max_prefix(h, 5)),
{
    reveal_with_fuel(max_prefix, 5);
    assert(height_fits(h[0]) && height_fits(h[1]) && height_fits(h[2]) && height_fits(h[3])
        && height_fits(h[4]));
}

/// Largest of the first `n` heights (`n >= 1`).
pub open spec fn max_prefix(h: [i32; 5], n: int) -> i32
    decreases n,
{
    if n <= 1 {
        h[0]
    } else {
        let m = max_prefix(h, n - 1);
        if h[n - 1] > m { h[n - 1] } else { m }
    }
}


/// Brick coordinate on the plane `axis = face`, with `u` and `v` on the two
/// other axes in increasing axis order.
pub open spec fn spec_make_coord(axis: usize, face: i32, u: i32, v: i32) -> [i32; 3] {
    if axis == 0 {
        [face, u, v]
    } else if axis == 1 {
        [u, face, v]
    } else {
        [u, v, face]
    }
}

/// The two axes spanning the plane normal to `axis`.
pub open spec fn plane_axes(axis: usize) -> (int, int) {
    if axis == 0 {
        (1, 2)
    } else if axis == 1 {
        (0, 2)
    } else {
        (0, 1)
    }
}

/// Brick coordinate on the plane `axis = face`.
pub fn make_coord(axis: usize, face: i32, u: i32, v: i32) -> (r: [i32; 3])
    ensures
        r == spec_make_coord(axis, face, u, v),
{
    match axis {
        0 => [face, u, v],
        1 => [u, face, v],
        _ => [u, v, face],
    }
}

/// Whether `c - half`, `c + half` and `c + half - 1` fit in `i32`.
pub open spec fn span_fits(c: i32, half: i32) -> bool {
    &&& i32::MIN <= c - half <= i32::MAX
    &&& i32::MIN <= c + half <= i32::MAX
    &&& i32::MIN <= c + half - 1
}

/// Inclusive ranges `(center - half, center + half - 1)` of the two axes
/// spanning the plane normal to `axis`, centered on `origin`.
pub fn face_plane_ranges(axis: usize, origin: [i32; 3], half_grid: i32) -> (r: (
    (i32, i32),
    (i32, i32),
))
    requires
        span_fits(origin[plane_axes(axis).0], half_grid),
        span_fits(origin[plane_axes(axis).1], half_grid),
    ensures
        r.0.0 == origin[plane_axes(axis).0] - half_grid,
        r.0.1 == origin[plane_axes(axis).0] + half_grid - 1,
        r.1.0 == origin[plane_axes(axis).1] - half_grid,
        r.1.1 == origin[plane_axes(axis).1] + half_grid - 1,
{
    let (u_axis, v_axis): (usize, usize) = match axis {
        0 => (1, 2),
        1 => (0, 2),
        _ => (0, 1),
    };
    assert(u_axis == plane_axes(axis).0 && v_axis == plane_axes(axis).1);
    let u_center = origin[u_axis];
    let v_center = origin[v_axis];
    ((u_center - half_grid, u_center + half_grid - 1), (v_center - half_grid, v_center + half_grid - 1))
}

/// Bricks per side of the streamed region (twice the streaming radius).
pub open spec fn side() -> int {
    128
}

/// The `k`-th brick of the face `axis = face` of the region centered on
/// `origin`, scanning the first plane axis in the outer loop.
pub open spec fn face_candidate(axis: usize, face: i32, origin: [i32; 3], k: int) -> [i32; 3] {
    let (ua, va) = plane_axes(axis);
    spec_make_coord(
        axis,
        face,
        (origin[ua] - STREAMING_RADIUS + k / side()) as i32,
        (origin[va] - STREAMING_RADIUS + k % side()) as i32,
    )
}

/// All bricks of a face in scan order.
pub open spec fn face_candidates(axis: usize, face: i32, origin: [i32; 3]) -> Seq<[i32; 3]> {
    Seq::new((side() * side()) as nat, |k: int| face_candidate(axis, face, origin, k))
}

/// The `k`-th brick of the full region centered on `center`: z outermost,
/// x innermost.
pub open spec fn grid_candidate(center: [i32; 3], k: int) -> [i32; 3] {
    [
        (center[0] - STREAMING_RADIUS + k % side()) as i32,
        (center[1] - STREAMING_RADIUS + (k / side()) % side()) as i32,
        (center[2] - STREAMING_RADIUS + k / (side() * side())) as i32,
    ]
}

/// All bricks of the region in scan order.
pub open spec fn grid_candidates(center: [i32; 3]) -> Seq<[i32; 3]> {
    Seq::new((side() * side() * side()) as nat, |k: int| grid_candidate(center, k))
}

/// Every brick of the face can be sampled in `i32`, and its heights padded.
pub open spec fn face_inputs_ok(axis: usize, face: i32, origin: [i32; 3], heights: Seq<[i32; 5]>) -> bool {
    forall|m: int|
        0 <= m < side() * side() ==> sample_fits(#[trigger] face_candidate(axis, face, origin, m))
            && heights_fit(heights[m])
}

/// The first `n` candidates that may hold terrain, order kept.
pub open spec fn kept_prefix(cands: Seq<[i32; 3]>, heights: Seq<[i32; 5]>, n: int) -> Seq<[i32; 3]>
    decreases n,
{
    if n <= 0 {
        Seq::empty()
    } else if spec_may_contain_terrain(cands[n - 1], heights[n - 1]) {
        kept_prefix(cands, heights, n - 1).push(cands[n - 1])
    } else {
        kept_prefix(cands, heights, n - 1)
    }
}

/// The candidates that may hold terrain, order kept.
pub open spec fn kept(cands: Seq<[i32; 3]>, heights: Seq<[i32; 5]>) -> Seq<[i32; 3]> {
    kept_prefix(cands, heights, cands.len() as int)
}

/// One terrain generation job: a brick for the GPU terrain pass to fill.
#[derive(Clone, Copy, Debug, PartialEq, Eq, Structural)]
pub struct TerrainGenJob {
    pub brick_idx: u32,
    pub brick_x: i32,
    pub brick_y: i32,
    pub brick_z: i32,
    pub lod: u32,
    pub _pad0: u32,
    pub _pad1: u32,
    pub _pad2: u32,
}

/// The job generating brick `b` at brick coordinate `coord`.
pub open spec fn spec_job(b: u32, coord: [i32; 3]) -> TerrainGenJob {
    TerrainGenJob {
        brick_idx: b,
        brick_x: coord[0],
        brick_y: coord[1],
        brick_z: coord[2],
        lod: 0,
        _pad0: 0,
        _pad1: 0,
        _pad2: 0,
    }
}

/// Queue of bricks waiting for GPU terrain generation, with a per-frame
/// budget.
pub struct ChunkStreamer {
    pending_jobs: VecDeque<[i32; 3]>,
    max_jobs_per_frame: u32,
}

impl ChunkStreamer {
    /// Bricks waiting for generation, oldest first.
    pub closed spec fn queue(&self) -> Seq<[i32; 3]> {
        self.pending_jobs@
    }

    /// Jobs dispatched per frame at most.
    pub closed spec fn budget(&self) -> u32 {
        self.max_jobs_per_frame
    }

    /// An empty queue with the given per-frame job budget.
    pub fn new(max_jobs_per_frame: u32) -> (s: Self)
        ensures
            s.queue() == Seq::<[i32; 3]>::empty(),
            s.budget() == max_jobs_per_frame,
    {
        ChunkStreamer { pending_jobs: VecDeque::new(), max_jobs_per_frame }
    }

    /// Per-frame job budget.
    pub fn max_jobs_per_frame(&self) -> (r: u32)
        ensures
            r == self.budget(),
    {
        self.max_jobs_per_frame
    }

    /// Number of bricks waiting.
    pub fn pending_len(&self) -> (r: usize)
        ensures
            r == self.queue().len(),
    {
        self.pending_jobs.len()
    }

    /// Queue every brick of the face `axis = face_coord` of the region
    /// centered on `origin` that may hold terrain. `heights[k]` are the
    /// terrain heights at the sample columns of the `k`-th brick of the face.
    pub fn enqueue_face(&mut self, axis: usize, face_coord: i32, origin: [i32; 3], heights: &[[i32; 5]])
        requires
            heights@.len() == side() * side(),
            span_fits(origin[plane_axes(axis).0], STREAMING_RADIUS),
            span_fits(origin[plane_axes(axis).1], STREAMING_RADIUS),
            face_inputs_ok(axis, face_coord, origin, heights@),
        ensures
            final(self).queue() == old(self).queue() + kept(
                face_candidates(axis, face_coord, origin),
                heights@,
            ),
            final(self).budget() == old(self).budget(),
    {
        let ghost cands = face_candidates(axis, face_coord, origin);
        let (u_range, v_range) = face_plane_ranges(axis, origin, STREAMING_RADIUS);
        let n: i32 = 2 * STREAMING_RADIUS;
        let mut i: i32 = 0;
        while i < n
            invariant
                0 <= i <= n,
                n == side(),
                heights@.len() == side() * side(),
                u_range.0 == origin[plane_axes(axis).0] - STREAMING_RADIUS,
                v_range.0 == origin[plane_axes(axis).1] - STREAMING_RADIUS,
                span_fits(origin[plane_axes(axis).0], STREAMING_RADIUS),
                span_fits(origin[plane_axes(axis).1], STREAMING_RADIUS),
                cands == face_candidates(axis, face_coord, origin),
                face_inputs_ok(axis, face_coord, origin, heights@),
                self.pending_jobs@ == old(self).pending_jobs@ + kept_prefix(cands, heights@, i * side()),
                self.max_jobs_per_frame == old(self).max_jobs_per_frame,
            decreases n - i,
        {
            let u = u_range.0 + i;
            let mut j: i32 = 0;
            while j < n
                invariant
                    0 <= i < n,
                    0 <= j <= n,
                    n == side(),
                    u == origin[plane_axes(axis).0] - STREAMING_RADIUS + i,
                    heights@.len() == side() * side(),
                    v_range.0 == origin[plane_axes(axis).1] - STREAMING_RADIUS,
                    span_fits(origin[plane_axes(axis).1], STREAMING_RADIUS),
                    cands == face_candidates(axis, face_coord, origin),
                    face_inputs_ok(axis, face_coord, origin, heights@),
                    self.pending_jobs@ == old(self).pending_jobs@ + kept_prefix(cands, heights@, i * side() + j),
                    self.max_jobs_per_frame == old(self).max_jobs_per_frame,
                decreases n - j,
            {
                let v = v_range.0 + j;
                let k = (i as usize) * 128 + (j as usize);
                proof {
                    lemma_div_mod_side(i as int, j as int);
                    assert(k as int == i * side() + j);
                    assert(0 <= k < side() * side());
                    assert(face_inputs_ok(axis, face_coord, origin, heights@));
                    assert(sample_fits(face_candidate(axis, face_coord, origin, k as int)));
                    assert(heights_fit(heights@[k as int]));
                }
                let coord = make_coord(axis, face_coord, u, v);
                assert(coord == face_candidate(axis, face_coord, origin, k as int));
                let ok = brick_may_contain_terrain(coord, heights[k]);
                if ok {
                    self.pending_jobs.push_back(coord);
                }
                proof {
                    assert(self.pending_jobs@ =~= old(self).pending_jobs@ + kept_prefix(cands, heights@, k + 1));
                }
                j = j + 1;
            }
            proof {
                assert(i * side() + side() == (i + 1) * side()) by (nonlinear_arith);
            }
            i = i + 1;
        }
    }
}

/// Index arithmetic of the row-major scan: `(i * 128 + j) / 128 == i` and
/// `(i * 128 + j) % 128 == j`.
proof fn lemma_div_mod_side(i: int, j: int)
    requires
        0 <= j < side(),
        0 <= i < side(),
    ensures
        (i * side() + j) / side() == i,
        (i * side() + j) % side() == j,
        i * side() + j < side() * side(),
{
    assert(i * side() + j < side() * side()) by (nonlinear_arith)
        requires
            0 <= j < side(),
            0 <= i < side(),
            side() == 128,
    ;
    vstd::arithmetic::div_mod::lemma_fundamental_div_mod_converse(i * side() + j, side(), i, j);
}


/// Every brick of the region can be sampled in `i32`, and its heights padded.
pub open spec fn grid_inputs_ok(center: [i32; 3], heights: Seq<[i32; 5]>) -> bool {
    forall|m: int|
        0 <= m < side() * side() * side() ==> sample_fits(#[trigger] grid_candidate(center, m))
            && heights_fit(heights[m])
}

/// Index arithmetic of the 3-D scan `a * 128^2 + b * 128 + c`.
proof fn lemma_div_mod_side3(a: int, b: int, c: int)
    requires
        0 <= a < side(),
        0 <= b < side(),
        0 <= c < side(),
    ensures
        (a * (side() * side()) + b * side() + c) % side() == c,
        ((a * (side() * side()) + b * side() + c) / side()) % side() == b,
        (a * (side() * side()) + b * side() + c) / (side() * side()) == a,
        a * (side() * side()) + b * side() + c < side() * side() * side(),
{
    let k = a * (side() * side()) + b * side() + c;
    assert(k == (a * side() + b) * side() + c) by (nonlinear_arith)
        requires
            k == a * (side() * side()) + b * side() + c,
    ;
    vstd::arithmetic::div_mod::lemma_fundamental_div_mod_converse(k, side(), a * side() + b, c);
    vstd::arithmetic::div_mod::lemma_fundamental_div_mod_converse(a * side() + b, side(), a, b);
    assert(k == a * (side() * side()) + (b * side() + c));
    assert(0 <= b * side() + c < side() * side()) by (nonlinear_arith)
        requires
            0 <= b < side(),
            0 <= c < side(),
            side() == 128,
    ;
    vstd::arithmetic::div_mod::lemma_fundamental_div_mod_converse(
        k,
        side() * side(),
        a,
        b * side() + c,
    );
    assert(k < side() * side() * side()) by (nonlinear_arith)
        requires
            k == a * (side() * side()) + (b * side() + c),
            0 <= b * side() + c < side() * side(),
            0 <= a < side(),
            side() == 128,
    ;
}

/// Top-grid slot of the `k`-th brick of a face.
pub open spec fn face_slot(axis: usize, face: i32, origin: [i32; 3], k: int) -> int {
    let c = face_candidate(axis, face, origin, k);
    spec_grid_index(c[0] as int, c[1] as int, c[2] as int)
}

/// Whether slot `g` is the slot of one of the first `n` bricks of a face.
pub open spec fn among_face_slots(axis: usize, face: i32, origin: [i32; 3], n: int, g: int) -> bool {
    exists|k: int| 0 <= k < n && #[trigger] face_slot(axis, face, origin, k) == g
}

/// The three-way sign of `d`.
pub open spec fn sign(d: int) -> int {
    if d > 0 {
        1
    } else if d < 0 {
        -1
    } else {
        0
    }
}

/// The region center after one step along `axis` toward `desired` (no
/// change when already aligned), as [`axis_shift`] computes it.
pub open spec fn step_axis(current: [i32; 3], desired: [i32; 3], axis: int) -> Seq<i32> {
    current@.update(axis, (current[axis] + sign(desired[axis] - current[axis])) as i32)
}

/// One frame of streaming moves the center at most one brick toward the
/// camera's brick along every axis: stepping x, then y, then z, each from
/// the center the previous step left, moves every coordinate by the sign of
/// its distance to the target, and brings it one brick closer unless it was
/// already there.
pub proof fn lemma_frame_step(o: [i32; 3], d: [i32; 3], o1: [i32; 3], o2: [i32; 3], o3: [i32; 3])
    requires
        o1@ == step_axis(o, d, 0),
        o2@ == step_axis(o1, d, 1),
        o3@ == step_axis(o2, d, 2),
    ensures
        forall|a: int| 0 <= a < 3 ==> #[trigger] o3[a] == o[a] + sign(d[a] - o[a]),
        forall|a: int|
            0 <= a < 3 ==> abs_diff(d[a] as int, o3[a] as int) == if o[a] == d[a] {
                0
            } else {
                abs_diff(d[a] as int, o[a] as int) - 1
            },
{
    assert(o1[1] == o[1] && o1[2] == o[2]);
    assert(o2[0] == o1[0] && o2[2] == o1[2]);
    assert(o3[0] == o2[0] && o3[1] == o2[1]);
    assert forall|a: int| 0 <= a < 3 implies #[trigger] o3[a] == o[a] + sign(d[a] - o[a]) by {
        assert(o3@[a] == o3[a]);
    }
}

/// Distance between two integers.
pub open spec fn abs_diff(a: int, b: int) -> int {
    if a >= b {
        a - b
    } else {
        b - a
    }
}

/// One step of the streamed region along one axis.
#[derive(Clone, Copy, Debug)]
pub struct AxisShift {
    /// Coordinate of the face of bricks that leaves the region.
    pub evict_face: i32,
    /// Coordinate of the face of bricks that enters the region.
    pub load_face: i32,
    /// Region center after the step.
    pub new_origin: [i32; 3],
}

/// Whether one region step along `axis` from `current` toward `desired`
/// can be computed in `i32`.
pub open spec fn shift_fits(current: [i32; 3], desired: [i32; 3], axis: usize) -> bool {
    &&& axis < 3
    &&& i32::MIN <= desired[axis as int] - current[axis as int] <= i32::MAX
    &&& i32::MIN + STREAMING_RADIUS + 1 <= current[axis as int]
    &&& current[axis as int] <= i32::MAX - STREAMING_RADIUS - 1
}

/// The next step of the streamed region along `axis`: `None` when the region
/// is already centered on `desired` along that axis; otherwise the region
/// moves one brick toward it, the face on the trailing side leaves and the
/// face on the leading side enters.
pub fn axis_shift(current: [i32; 3], desired: [i32; 3], axis: usize) -> (r: Option<AxisShift>)
    requires
        shift_fits(current, desired, axis),
    ensures
        r is None <==> desired[axis as int] == current[axis as int],
        r matches Some(st) ==> {
            let d = sign(desired[axis as int] - current[axis as int]);
            &&& st.new_origin@ == current@.update(axis as int, (current[axis as int] + d) as i32)
            &&& d > 0 ==> st.evict_face == current[axis as int] - STREAMING_RADIUS
                && st.load_face == st.new_origin[axis as int] + STREAMING_RADIUS - 1
            &&& d < 0 ==> st.evict_face == current[axis as int] + STREAMING_RADIUS - 1
                && st.load_face == st.new_origin[axis as int] - STREAMING_RADIUS
        },
{
    let d = desired[axis] - current[axis];
    if d == 0 {
        return None;
    }
    let shift: i32 = if d > 0 {
        1
    } else {
        -1
    };
    let mut new_origin = current;
    new_origin[axis] = current[axis] + shift;
    let hg = STREAMING_RADIUS;
    let evict_face = if shift > 0 {
        current[axis] - hg
    } else {
        current[axis] + hg - 1
    };
    let load_face = if shift > 0 {
        new_origin[axis] + hg - 1
    } else {
        new_origin[axis] - hg
    };
    assert(new_origin@ =~= current@.update(axis as int, (current[axis as int] + sign(d as int)) as i32));
    Some(AxisShift { evict_face, load_face, new_origin })
}

impl ChunkStreamer {
    /// Queue every brick of the region centered on `center` that may hold
    /// terrain, scanning z outermost and x innermost. `heights[k]` are the
    /// terrain heights at the sample columns of the `k`-th brick.
    pub fn enqueue_full_grid(&mut self, center: [i32; 3], heights: &[[i32; 5]])
        requires
            heights@.len() == side() * side() * side(),
            span_fits(center[0], STREAMING_RADIUS),
            span_fits(center[1], STREAMING_RADIUS),
            span_fits(center[2], STREAMING_RADIUS),
            grid_inputs_ok(center, heights@),
        ensures
            final(self).queue() == old(self).queue() + kept(grid_candidates(center), heights@),
            final(self).budget() == old(self).budget(),
    {
        let ghost cands = grid_candidates(center);
        let hg = STREAMING_RADIUS;
        let mut dz: i32 = -hg;
        while dz < hg
            invariant
                -STREAMING_RADIUS <= dz <= STREAMING_RADIUS,
                hg == STREAMING_RADIUS,
                heights@.len() == side() * side() * side(),
                span_fits(center[0], STREAMING_RADIUS),
                span_fits(center[1], STREAMING_RADIUS),
                span_fits(center[2], STREAMING_RADIUS),
                grid_inputs_ok(center, heights@),
                cands == grid_candidates(center),
                self.pending_jobs@ == old(self).pending_jobs@ + kept_prefix(cands, heights@, (dz + hg) * (side() * side())),
                self.max_jobs_per_frame == old(self).max_jobs_per_frame,
            decreases hg - dz,
        {
            let mut dy: i32 = -hg;
            while dy < hg
                invariant
                    -STREAMING_RADIUS <= dz < STREAMING_RADIUS,
                    -STREAMING_RADIUS <= dy <= STREAMING_RADIUS,
                    hg == STREAMING_RADIUS,
                    heights@.len() == side() * side() * side(),
                    span_fits(center[0], STREAMING_RADIUS),
                    span_fits(center[1], STREAMING_RADIUS),
                    span_fits(center[2], STREAMING_RADIUS),
                    grid_inputs_ok(center, heights@),
                    cands == grid_candidates(center),
                    self.pending_jobs@ == old(self).pending_jobs@ + kept_prefix(cands, heights@, (dz + hg) * (side() * side()) + (dy + hg) * side()),
                    self.max_jobs_per_frame == old(self).max_jobs_per_frame,
                decreases hg - dy,
            {
                let mut dx: i32 = -hg;
                while dx < hg
                    invariant
                        -STREAMING_RADIUS <= dz < STREAMING_RADIUS,
                        -STREAMING_RADIUS <= dy < STREAMING_RADIUS,
                        -STREAMING_RADIUS <= dx <= STREAMING_RADIUS,
                        hg == STREAMING_RADIUS,
                        heights@.len() == side() * side() * side(),
                        span_fits(center[0], STREAMING_RADIUS),
                        span_fits(center[1], STREAMING_RADIUS),
                        span_fits(center[2], STREAMING_RADIUS),
                        grid_inputs_ok(center, heights@),
                        cands == grid_candidates(center),
                        self.pending_jobs@ == old(self).pending_jobs@ + kept_prefix(cands, heights@, (dz + hg) * (side() * side()) + (dy + hg) * side() + (dx + hg)),
                        self.max_jobs_per_frame == old(self).max_jobs_per_frame,
                    decreases hg - dx,
                {
                    let coord = [center[0] + dx, center[1] + dy, center[2] + dz];
                    let k = ((dz + hg) as usize) * 16384 + ((dy + hg) as usize) * 128 + ((dx + hg) as usize);
                    proof {
                        lemma_div_mod_side3((dz + hg) as int, (dy + hg) as int, (dx + hg) as int);
                        assert(k as int == (dz + hg) * (side() * side()) + (dy + hg) * side() + (dx + hg));
                        assert(coord == grid_candidate(center, k as int));
                        assert(sample_fits(grid_candidate(center, k as int)));
                        assert(heights_fit(heights@[k as int]));
                    }
                    if brick_may_contain_terrain(coord, heights[k]) {
                        self.pending_jobs.push_back(coord);
                    }
                    proof {
                        assert(self.pending_jobs@ =~= old(self).pending_jobs@ + kept_prefix(cands, heights@, k + 1));
                    }
                    dx = dx + 1;
                }
                proof {
                    assert((dy + hg) * side() + side() == (dy + 1 + hg) * side()) by (nonlinear_arith);
                }
                dy = dy + 1;
            }
            proof {
                assert((dz + hg) * (side() * side()) + (side() * side()) == (dz + 1 + hg) * (side() * side())) by (nonlinear_arith);
            }
            dz = dz + 1;
        }
        assert((dz + hg) * (side() * side()) == side() * side() * side()) by (nonlinear_arith)
            requires
                dz + hg == 128,
                side() == 128,
        ;
    }

    /// Take up to `limit` bricks from the front of the queue.
    pub fn take_batch(&mut self, limit: usize) -> (r: Vec<[i32; 3]>)
        ensures
            ({
                let n = if old(self).queue().len() < limit { old(self).queue().len() as int } else { limit as int };
                &&& r@ == old(self).queue().take(n)
                &&& final(self).queue() == old(self).queue().skip(n)
            }),
            final(self).budget() == old(self).budget(),
    {
        let n = if self.pending_jobs.len() < limit { self.pending_jobs.len() } else { limit };
        let mut batch: Vec<[i32; 3]> = Vec::new();
        let mut i: usize = 0;
        while i < n
            invariant
                i <= n,
                n <= old(self).pending_jobs@.len(),
                batch@ == old(self).pending_jobs@.take(i as int),
                self.pending_jobs@ == old(self).pending_jobs@.skip(i as int),
                self.max_jobs_per_frame == old(self).max_jobs_per_frame,
            decreases n - i,
        {
            let c = self.pending_jobs.pop_front();
            match c {
                Some(c) => {
                    batch.push(c);
                },
                None => {},
            }
            i = i + 1;
            assert(batch@ =~= old(self).pending_jobs@.take(i as int));
            assert(self.pending_jobs@ =~= old(self).pending_jobs@.skip(i as int));
        }
        batch
    }
}


/// Grid, free list and jobs after starting generation of each brick of
/// `batch` in order, from `grid` and `free`: a brick whose slot is occupied,
/// or that finds the pool exhausted, is skipped.
pub open spec fn gen_fold(grid: Seq<u32>, free: Seq<u32>, batch: Seq<[i32; 3]>) -> (
    Seq<u32>,
    Seq<u32>,
    Seq<TerrainGenJob>,
)
    decreases batch.len(),
{
    if batch.len() == 0 {
        (grid, free, Seq::empty())
    } else {
        let prev = gen_fold(grid, free, batch.drop_last());
        let c = batch.last();
        let g = spec_grid_index(c[0] as int, c[1] as int, c[2] as int);
        if prev.0[g] != BRICK_EMPTY || prev.1.len() == 0 {
            prev
        } else {
            let b = prev.1.last();
            (prev.0.update(g, b), prev.1.drop_last(), prev.2.push(spec_job(b, c)))
        }
    }
}

impl ChunkStreamer {
    /// Release every brick of the face `axis = face_coord` of the region
    /// centered on `origin`. Returns the released (top-grid slot, brick
    /// index) pairs in scan order.
    pub fn evict_face(&self, axis: usize, face_coord: i32, origin: [i32; 3], sbm: &mut BrickMap) -> (r: Vec<(usize, u32)>)
        requires
            old(sbm).wf(),
            span_fits(origin[plane_axes(axis).0], STREAMING_RADIUS),
            span_fits(origin[plane_axes(axis).1], STREAMING_RADIUS),
        ensures
            final(sbm).wf(),
            final(sbm).capacity() == old(sbm).capacity(),
            final(sbm).origin() == old(sbm).origin(),
            forall|g: int|
                0 <= g < crate::TOP_GRID_VOLUME ==> if #[trigger] among_face_slots(axis, face_coord, origin, side() * side(), g) {
                    !final(sbm).occupied(g)
                } else {
                    final(sbm).grid()[g] == old(sbm).grid()[g]
                },
            forall|p: [i32; 3]|
                #![trigger final(sbm).voxel_at(p)]
                if among_face_slots(axis, face_coord, origin, side() * side(), crate::brick_map::grid_of_pos(p)) {
                    final(sbm).voxel_at(p) == crate::brick_map::spec_air()
                } else {
                    final(sbm).voxel_at(p) == old(sbm).voxel_at(p)
                },
            forall|i: int|
                0 <= i < r@.len() ==> old(sbm).occupied(#[trigger] r@[i].0 as int) && r@[i].1 == old(
                    sbm,
                ).grid()[r@[i].0 as int],
            final(sbm).free() == old(sbm).free() + r@.map_values(|e: (usize, u32)| e.1),
            final(sbm).pending() == old(sbm).pending().filter(
                |e: (usize, u32)|
                    !(among_face_slots(axis, face_coord, origin, side() * side(), e.0 as int) && old(sbm).occupied(e.0 as int)),
            ),
    {
        let mut evicted: Vec<(usize, u32)> = Vec::new();
        proof {
            let p0 = |e: (usize, u32)| !(among_face_slots(axis, face_coord, origin, 0, e.0 as int) && old(sbm).occupied(e.0 as int));
            lemma_filter_all(old(sbm).pending(), p0);
        }
        let (u_range, v_range) = face_plane_ranges(axis, origin, STREAMING_RADIUS);
        let n: i32 = 2 * STREAMING_RADIUS;
        let mut i: i32 = 0;
        while i < n
            invariant
                0 <= i <= n,
                n == side(),
                u_range.0 == origin[plane_axes(axis).0] - STREAMING_RADIUS,
                v_range.0 == origin[plane_axes(axis).1] - STREAMING_RADIUS,
                span_fits(origin[plane_axes(axis).0], STREAMING_RADIUS),
                span_fits(origin[plane_axes(axis).1], STREAMING_RADIUS),
                evict_progress(axis, face_coord, origin, i * side(), *old(sbm), *sbm, evicted@),
            decreases n - i,
        {
            let u = u_range.0 + i;
            let mut j: i32 = 0;
            while j < n
                invariant
                    0 <= i < n,
                    0 <= j <= n,
                    n == side(),
                    u == origin[plane_axes(axis).0] - STREAMING_RADIUS + i,
                    v_range.0 == origin[plane_axes(axis).1] - STREAMING_RADIUS,
                    span_fits(origin[plane_axes(axis).1], STREAMING_RADIUS),
                    evict_progress(axis, face_coord, origin, i * side() + j, *old(sbm), *sbm, evicted@),
                decreases n - j,
            {
                let v = v_range.0 + j;
                let ghost k = i * side() + j;
                proof {
                    lemma_div_mod_side(i as int, j as int);
                }
                let coord = make_coord(axis, face_coord, u, v);
                assert(coord == face_candidate(axis, face_coord, origin, k));
                let ghost mid = *sbm;
                let ghost mid_ev = evicted@;
                let res = sbm.evict_brick(coord);
                match res {
                    Some(b) => {
                        let g = top_grid_index(coord[0], coord[1], coord[2]);
                        evicted.push((g, b));
                    },
                    None => {},
                }
                proof {
                    lemma_evict_step(axis, face_coord, origin, k, *old(sbm), mid, *sbm, mid_ev, evicted@, res);
                }
                j = j + 1;
            }
            proof {
                assert(i * side() + side() == (i + 1) * side()) by (nonlinear_arith);
            }
            i = i + 1;
        }
        evicted
    }
}

/// State of a face eviction after its first `n` bricks.
pub open spec fn evict_progress(
    axis: usize,
    face: i32,
    origin: [i32; 3],
    n: int,
    start: BrickMap,
    cur: BrickMap,
    ev: Seq<(usize, u32)>,
) -> bool {
    &&& cur.wf()
    &&& cur.capacity() == start.capacity()
    &&& cur.origin() == start.origin()
    &&& forall|g: int|
        0 <= g < crate::TOP_GRID_VOLUME ==> if #[trigger] among_face_slots(axis, face, origin, n, g) {
            !cur.occupied(g)
        } else {
            cur.grid()[g] == start.grid()[g]
        }
    &&& forall|p: [i32; 3]|
        #![trigger cur.voxel_at(p)]
        if among_face_slots(axis, face, origin, n, crate::brick_map::grid_of_pos(p)) {
            cur.voxel_at(p) == crate::brick_map::spec_air()
        } else {
            cur.voxel_at(p) == start.voxel_at(p)
        }
    &&& forall|i: int|
        0 <= i < ev.len() ==> start.occupied(#[trigger] ev[i].0 as int) && ev[i].1 == start.grid()[ev[i].0 as int]
    &&& cur.free() == start.free() + ev.map_values(|e: (usize, u32)| e.1)
    &&& cur.pending() == start.pending().filter(
        |e: (usize, u32)| !(among_face_slots(axis, face, origin, n, e.0 as int) && start.occupied(e.0 as int)),
    )
}

/// Filtering by a predicate that holds everywhere keeps everything.
proof fn lemma_filter_all(s: Seq<(usize, u32)>, p: spec_fn((usize, u32)) -> bool)
    requires
        forall|e: (usize, u32)| #[trigger] p(e),
    ensures
        s.filter(p) == s,
    decreases s.len(),
{
    reveal(Seq::filter);
    if s.len() > 0 {
        lemma_filter_all(s.drop_last(), p);
        assert(s.drop_last().push(s.last()) =~= s);
    }
}

/// Filtering twice keeps what both predicates keep.
proof fn lemma_filter_filter(s: Seq<(usize, u32)>, p: spec_fn((usize, u32)) -> bool, q: spec_fn((usize, u32)) -> bool)
    ensures
        s.filter(p).filter(q) == s.filter(|e: (usize, u32)| p(e) && q(e)),
    decreases s.len(),
{
    reveal(Seq::filter);
    if s.len() > 0 {
        lemma_filter_filter(s.drop_last(), p, q);
        if p(s.last()) {
            assert(s.filter(p).drop_last() =~= s.drop_last().filter(p));
            assert(s.filter(p).last() == s.last());
        } else {
            assert(s.filter(p) == s.drop_last().filter(p));
        }
    }
}

proof fn lemma_evict_step(
    axis: usize,
    face: i32,
    origin: [i32; 3],
    k: int,
    start: BrickMap,
    mid: BrickMap,
    cur: BrickMap,
    mid_ev: Seq<(usize, u32)>,
    ev: Seq<(usize, u32)>,
    res: Option<u32>,
)
    requires
        0 <= k,
        evict_progress(axis, face, origin, k, start, mid, mid_ev),
        ({
            let c = face_candidate(axis, face, origin, k);
            let g = spec_grid_index(c[0] as int, c[1] as int, c[2] as int);
            &&& cur.wf()
            &&& cur.capacity() == mid.capacity()
            &&& cur.origin() == mid.origin()
            &&& res is None <==> !mid.occupied(g)
            &&& res is None ==> cur.grid() == mid.grid() && cur.free() == mid.free() && cur.bricks()
                == mid.bricks() && ev == mid_ev && cur.pending() == mid.pending()
            &&& res matches Some(b) ==> {
                &&& b == mid.grid()[g]
                &&& cur.grid() == mid.grid().update(g, BRICK_EMPTY)
                &&& cur.free() == mid.free().push(b)
                &&& ev == mid_ev.push((g as usize, b))
                &&& cur.pending() == crate::brick_map::without_slot(mid.pending(), g as usize)
                &&& forall|p: [i32; 3]|
                    #![trigger cur.voxel_at(p)]
                    if crate::brick_map::grid_of_pos(p) == g {
                        cur.voxel_at(p) == crate::brick_map::spec_air()
                    } else {
                        cur.voxel_at(p) == mid.voxel_at(p)
                    }
            }
        }),
    ensures
        evict_progress(axis, face, origin, k + 1, start, cur, ev),
{
    let c = face_candidate(axis, face, origin, k);
    let g = spec_grid_index(c[0] as int, c[1] as int, c[2] as int);
    mid.lemma_wf_facts();
    cur.lemma_wf_facts();
    assert(face_slot(axis, face, origin, k) == g);
    assert forall|h: int| #[trigger] among_face_slots(axis, face, origin, k + 1, h) <==> (among_face_slots(
        axis,
        face,
        origin,
        k,
        h,
    ) || h == g) by {
        if h == g {
            assert(face_slot(axis, face, origin, k) == h);
        }
        if among_face_slots(axis, face, origin, k + 1, h) && h != g {
            let w = choose|w: int| 0 <= w < k + 1 && #[trigger] face_slot(axis, face, origin, w) == h;
            assert(w < k);
        }
    }
    assert(0 <= g < crate::TOP_GRID_VOLUME) by {
        assert(0 <= c[0] as int % 128 < 128);
        assert(0 <= c[1] as int % 128 < 128);
        assert(0 <= c[2] as int % 128 < 128);
    }
    if res is Some {
        assert(!among_face_slots(axis, face, origin, k, g));
        assert(mid.grid()[g] == start.grid()[g]);
        assert(ev.map_values(|e: (usize, u32)| e.1) =~= mid_ev.map_values(|e: (usize, u32)| e.1).push(
            res->0,
        ));
    }
    assert forall|p: [i32; 3]|
        #![trigger cur.voxel_at(p)]
        if among_face_slots(axis, face, origin, k + 1, crate::brick_map::grid_of_pos(p)) {
            cur.voxel_at(p) == crate::brick_map::spec_air()
        } else {
            cur.voxel_at(p) == start.voxel_at(p)
        } by {
        let gp = crate::brick_map::grid_of_pos(p);
        if res is None {
            assert(cur.voxel_at(p) == mid.voxel_at(p));
            if gp == g {
                assert(mid.voxel_at(p) == crate::brick_map::spec_air());
            }
        } else {
            if gp != g {
                assert(cur.voxel_at(p) == mid.voxel_at(p));
            }
        }
        assert(among_face_slots(axis, face, origin, k + 1, gp) <==> (among_face_slots(axis, face, origin, k, gp) || gp == g));
        if !among_face_slots(axis, face, origin, k, gp) {
            assert(mid.voxel_at(p) == start.voxel_at(p));
        } else {
            assert(mid.voxel_at(p) == crate::brick_map::spec_air());
        }
    }
    assert forall|h: int|
        0 <= h < crate::TOP_GRID_VOLUME implies if #[trigger] among_face_slots(axis, face, origin, k + 1, h) {
            !cur.occupied(h)
        } else {
            cur.grid()[h] == start.grid()[h]
        } by {
        assert(among_face_slots(axis, face, origin, k + 1, h) <==> (among_face_slots(axis, face, origin, k, h) || h == g));
        if among_face_slots(axis, face, origin, k, h) {
            assert(!mid.occupied(h));
        }
    }
    assert forall|i: int|
        0 <= i < ev.len() implies start.occupied(#[trigger] ev[i].0 as int) && ev[i].1 == start.grid()[ev[i].0 as int] by {
        if i < mid_ev.len() {
            assert(ev[i] == mid_ev[i]);
        }
    }
    let pk = |e: (usize, u32)| !(among_face_slots(axis, face, origin, k, e.0 as int) && start.occupied(e.0 as int));
    let pk1 = |e: (usize, u32)| !(among_face_slots(axis, face, origin, k + 1, e.0 as int) && start.occupied(e.0 as int));
    if res is Some {
        assert(!among_face_slots(axis, face, origin, k, g));
        assert(start.occupied(g));
        let ng = |e: (usize, u32)| e.0 != g as usize;
        crate::brick_map::lemma_without_slot_filter(mid.pending(), g as usize);
        lemma_filter_filter(start.pending(), pk, ng);
        assert forall|e: (usize, u32)| #[trigger] pk1(e) == (pk(e) && ng(e)) by {
            assert(among_face_slots(axis, face, origin, k + 1, e.0 as int) <==> (among_face_slots(axis, face, origin, k, e.0 as int) || e.0 as int == g));
        }
        assert(pk1 =~= (|e: (usize, u32)| pk(e) && ng(e)));
    } else {
        assert forall|e: (usize, u32)| #[trigger] pk1(e) == pk(e) by {
            assert(among_face_slots(axis, face, origin, k + 1, e.0 as int) <==> (among_face_slots(axis, face, origin, k, e.0 as int) || e.0 as int == g));
            if e.0 as int == g && !among_face_slots(axis, face, origin, k, g) {
                assert(mid.grid()[g] == start.grid()[g]);
            }
        }
        assert(pk1 =~= pk);
    }
}


/// The pending reveal a started job leaves: its top-grid slot and brick.
pub open spec fn job_reveal(j: TerrainGenJob) -> (usize, u32) {
    (spec_grid_index(j.brick_x as int, j.brick_y as int, j.brick_z as int) as usize, j.brick_idx)
}

impl ChunkStreamer {
    /// Start generation of each brick of `batch` in order and return the GPU
    /// jobs for the bricks that got a pool slot; bricks whose slot is
    /// already occupied, or that find the pool exhausted, are skipped.
    pub fn allocate_jobs(&self, batch: &[[i32; 3]], sbm: &mut BrickMap) -> (jobs: Vec<TerrainGenJob>)
        requires
            old(sbm).wf(),
        ensures
            final(sbm).wf(),
            final(sbm).capacity() == old(sbm).capacity(),
            final(sbm).origin() == old(sbm).origin(),
            ({
                let f = gen_fold(old(sbm).grid(), old(sbm).free(), batch@);
                &&& final(sbm).grid() == f.0
                &&& final(sbm).free() == f.1
                &&& jobs@ == f.2
            }),
            final(sbm).pending() == old(sbm).pending() + jobs@.map_values(|j: TerrainGenJob| job_reveal(j)),
            forall|p: [i32; 3]| #[trigger] final(sbm).voxel_at(p) == old(sbm).voxel_at(p),
    {
        let mut jobs: Vec<TerrainGenJob> = Vec::new();
        let mut i: usize = 0;
        while i < batch.len()
            invariant
                i <= batch@.len(),
                sbm.wf(),
                sbm.capacity() == old(sbm).capacity(),
                sbm.origin() == old(sbm).origin(),
                ({
                    let f = gen_fold(old(sbm).grid(), old(sbm).free(), batch@.take(i as int));
                    &&& sbm.grid() == f.0
                    &&& sbm.free() == f.1
                    &&& jobs@ == f.2
                }),
                sbm.pending() == old(sbm).pending() + jobs@.map_values(|j: TerrainGenJob| job_reveal(j)),
                forall|p: [i32; 3]| #[trigger] sbm.voxel_at(p) == old(sbm).voxel_at(p),
            decreases batch@.len() - i,
        {
            let coord = batch[i];
            assert(batch@.take(i + 1).drop_last() =~= batch@.take(i as int));
            assert(batch@.take(i + 1).last() == coord);
            let ghost mid = *sbm;
            proof {
                sbm.lemma_wf_facts();
            }
            match sbm.begin_brick_generation(coord) {
                Some(brick_idx) => {
                    jobs.push(
                        TerrainGenJob {
                            brick_idx,
                            brick_x: coord[0],
                            brick_y: coord[1],
                            brick_z: coord[2],
                            lod: 0,
                            _pad0: 0,
                            _pad1: 0,
                            _pad2: 0,
                        },
                    );
                },
                None => {},
            }
            assert(sbm.pending() =~= old(sbm).pending() + jobs@.map_values(|j: TerrainGenJob| job_reveal(j)));
            assert forall|p: [i32; 3]| #[trigger] sbm.voxel_at(p) == old(sbm).voxel_at(p) by {
                assert(sbm.voxel_at(p) == mid.voxel_at(p));
                assert(mid.voxel_at(p) == old(sbm).voxel_at(p));
            }
            i = i + 1;
        }
        assert(batch@.take(batch@.len() as int) =~= batch@);
        jobs
    }
}

impl ChunkStreamer {
    /// One step of the streamed region along `axis`, as [`axis_shift`]
    /// plans it: release the face `shift.evict_face` of the region centered
    /// on the current origin, queue the bricks of the face `shift.load_face`
    /// of the region centered on `shift.new_origin` that may hold terrain
    /// (`heights[k]`: sample heights of that face's `k`-th brick), and move
    /// the origin. Returns the released (top-grid slot, brick index) pairs.
    pub fn apply_shift(&mut self, axis: usize, shift: AxisShift, heights: &[[i32; 5]], sbm: &mut BrickMap) -> (r: Vec<
        (usize, u32),
    >)
        requires
            old(sbm).wf(),
            span_fits(old(sbm).origin()[plane_axes(axis).0], STREAMING_RADIUS),
            span_fits(old(sbm).origin()[plane_axes(axis).1], STREAMING_RADIUS),
            heights@.len() == side() * side(),
            span_fits(shift.new_origin[plane_axes(axis).0], STREAMING_RADIUS),
            span_fits(shift.new_origin[plane_axes(axis).1], STREAMING_RADIUS),
            face_inputs_ok(axis, shift.load_face, shift.new_origin, heights@),
        ensures
            final(sbm).wf(),
            final(sbm).capacity() == old(sbm).capacity(),
            final(sbm).origin() == shift.new_origin,
            forall|g: int|
                0 <= g < crate::TOP_GRID_VOLUME ==> if #[trigger] among_face_slots(
                    axis,
                    shift.evict_face,
                    old(sbm).origin(),
                    side() * side(),
                    g,
                ) {
                    !final(sbm).occupied(g)
                } else {
                    final(sbm).grid()[g] == old(sbm).grid()[g]
                },
            forall|p: [i32; 3]|
                #![trigger final(sbm).voxel_at(p)]
                if among_face_slots(axis, shift.evict_face, old(sbm).origin(), side() * side(), crate::brick_map::grid_of_pos(p)) {
                    final(sbm).voxel_at(p) == crate::brick_map::spec_air()
                } else {
                    final(sbm).voxel_at(p) == old(sbm).voxel_at(p)
                },
            forall|i: int|
                0 <= i < r@.len() ==> old(sbm).occupied(#[trigger] r@[i].0 as int) && r@[i].1 == old(
                    sbm,
                ).grid()[r@[i].0 as int],
            final(sbm).free() == old(sbm).free() + r@.map_values(|e: (usize, u32)| e.1),
            final(sbm).pending() == old(sbm).pending().filter(
                |e: (usize, u32)|
                    !(among_face_slots(axis, shift.evict_face, old(sbm).origin(), side() * side(), e.0 as int)
                        && old(sbm).occupied(e.0 as int)),
            ),
            final(self).queue() == old(self).queue() + kept(
                face_candidates(axis, shift.load_face, shift.new_origin),
                heights@,
            ),
            final(self).budget() == old(self).budget(),
    {
        let current = sbm.lod0_origin();
        let evicted = self.evict_face(axis, shift.evict_face, current, sbm);
        self.enqueue_face(axis, shift.load_face, shift.new_origin, heights);
        let ghost before = *sbm;
        sbm.set_lod0_origin(shift.new_origin);
        proof {
            assert forall|p: [i32; 3]| #[trigger] sbm.voxel_at(p) == before.voxel_at(p) by {}
        }
        evicted
    }

    /// Take up to [`Self::max_jobs_per_frame`] bricks from the front of the
    /// queue and start their generation; returns the GPU jobs of the bricks
    /// that got a pool slot.
    pub fn frame_batch(&mut self, sbm: &mut BrickMap) -> (jobs: Vec<TerrainGenJob>)
        requires
            old(sbm).wf(),
        ensures
            ({
                let n = if old(self).queue().len() < old(self).budget() {
                    old(self).queue().len() as int
                } else {
                    old(self).budget() as int
                };
                let f = gen_fold(old(sbm).grid(), old(sbm).free(), old(self).queue().take(n));
                &&& final(self).queue() == old(self).queue().skip(n)
                &&& final(sbm).grid() == f.0
                &&& final(sbm).free() == f.1
                &&& jobs@ == f.2
            }),
            final(self).budget() == old(self).budget(),
            final(sbm).wf(),
            final(sbm).capacity() == old(sbm).capacity(),
            final(sbm).origin() == old(sbm).origin(),
            final(sbm).pending() == old(sbm).pending() + jobs@.map_values(|j: TerrainGenJob| job_reveal(j)),
            forall|p: [i32; 3]| #[trigger] final(sbm).voxel_at(p) == old(sbm).voxel_at(p),
    {
        let limit = self.max_jobs_per_frame as usize;
        let batch = self.take_batch(limit);
        self.allocate_jobs(&batch, sbm)
    }
}

} // verus!
