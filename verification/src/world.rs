//! Chunk-grid addressing of the streamed voxel atlas: floor division, the
//! atlas origin that keeps the player centered, and the chunks that enter
//! view when the origin moves.
use vstd::prelude::*;

verus! {

/// Side length of a chunk in voxels.
pub const CHUNK_SIZE: i32 = 32;

/// Chunks per atlas axis.
pub const CHUNKS_PER_AXIS: i32 = 16;

/// `a / b` rounded toward negative infinity.
pub open spec fn spec_floor_div(a: int, b: int) -> int {
    if b > 0 {
        a / b
    } else {
        (-a) / (-b)
    }
}

proof fn lemma_xor_sign(r: i32, b: i32)
    by (bit_vector)
    ensures
        ((r ^ b) < 0) == ((r < 0) != (b < 0)),
{
}

/// Euclidean division by a negative divisor through its magnitude.
proof fn lemma_neg_divisor(x: int, b: int)
    requires
        b < 0,
    ensures
        x / b == -(x / (-b)),
        x % b == x % (-b),
{
    vstd::arithmetic::div_mod::lemma_fundamental_div_mod(x, b);
    assert(0 <= x % b < -b);
    assert(x == (-(x / b)) * (-b) + x % b) by (nonlinear_arith)
        requires
            x == b * (x / b) + (x % b),
    ;
    vstd::arithmetic::div_mod::lemma_fundamental_div_mod_converse(x, -b, -(x / b), x % b);
}

/// Magnitude of `v`.
pub open spec fn mag(v: int) -> int {
    if v >= 0 {
        v
    } else {
        -v
    }
}

/// `a / b` rounded toward negative infinity (Rust's `/` rounds toward zero).
pub fn floor_div(a: i32, b: i32) -> (q: i32)
    requires
        b != 0,
        !(a == i32::MIN && b == -1),
    ensures
        q == spec_floor_div(a as int, b as int),
{
    let d = a / b;
    let r = a % b;
    proof {
        let (ai, bi) = (a as int, b as int);
        assert(bi > 0 && ai >= 0 ==> d == ai / bi);
        assert(bi > 0 && ai < 0 ==> d == -((-ai) / bi));
        if bi < 0 {
            lemma_neg_divisor(ai, bi);
            lemma_neg_divisor(-ai, bi);
        }
        if mag(bi) >= 2 {
            vstd::arithmetic::div_mod::lemma_div_is_ordered_by_denominator(mag(ai), 2, mag(bi));
        }
        vstd::arithmetic::div_mod::lemma_div_pos_is_pos(mag(ai), mag(bi));
        assert(bi < 0 && ai >= 0 ==> d == -(ai / (-bi)));
        assert(bi < 0 && ai < 0 ==> d == (-ai) / (-bi));
        assert(bi > 0 && ai >= 0 ==> r == ai % bi);
        assert(bi > 0 && ai < 0 ==> r == -((-ai) % bi));
        assert(bi < 0 && ai >= 0 ==> r == ai % (-bi));
        assert(bi < 0 && ai < 0 ==> r == -((-ai) % (-bi)));
        lemma_xor_sign(r, b);
        lemma_trunc_to_floor(ai, bi, d as int, r as int);
        assert(r != 0 ==> mag(bi) >= 2);
    }
    if (r != 0) && ((r ^ b) < 0) {
        d - 1
    } else {
        d
    }
}

/// From Rust's truncating quotient and remainder to the floor quotient.
proof fn lemma_trunc_to_floor(a: int, b: int, d: int, r: int)
    requires
        b != 0,
        d == if (a >= 0) == (b > 0) { mag(a) / mag(b) } else { -(mag(a) / mag(b)) },
        r == if a >= 0 { mag(a) % mag(b) } else { -(mag(a) % mag(b)) },
    ensures
        spec_floor_div(a, b) == if r != 0 && ((r < 0) != (b < 0)) { d - 1 } else { d },
{
    let aa = mag(a);
    let bb = mag(b);
    let q = aa / bb;
    let m = aa % bb;
    vstd::arithmetic::div_mod::lemma_fundamental_div_mod(aa, bb);
    assert(0 <= m < bb);
    if m > 0 {
        assert(-aa == (-q - 1) * bb + (bb - m)) by (nonlinear_arith)
            requires
                aa == bb * q + m,
        ;
        vstd::arithmetic::div_mod::lemma_fundamental_div_mod_converse(-aa, bb, -q - 1, bb - m);
    } else {
        assert(-aa == (-q) * bb) by (nonlinear_arith)
            requires
                aa == bb * q + m,
                m == 0,
        ;
        vstd::arithmetic::div_mod::lemma_fundamental_div_mod_converse(-aa, bb, -q, 0);
    }
}

/// Atlas origin along one axis for a player at `p`: the start of the chunk
/// holding `p - 256`, so the 16-chunk atlas is centered on the player.
pub open spec fn spec_origin_axis(p: i32) -> int {
    spec_floor_div(p - CHUNKS_PER_AXIS / 2 * CHUNK_SIZE, CHUNK_SIZE as int) * CHUNK_SIZE
}

/// Atlas origin (in voxels) that centers the chunk atlas on a player at
/// voxel position `pos`.
pub fn compute_origin(pos: [i32; 3]) -> (r: [i32; 3])
    requires
        pos[0] >= i32::MIN + 256,
        pos[1] >= i32::MIN + 256,
        pos[2] >= i32::MIN + 256,
    ensures
        r[0] == spec_origin_axis(pos[0]),
        r[1] == spec_origin_axis(pos[1]),
        r[2] == spec_origin_axis(pos[2]),
{
    let cs = CHUNK_SIZE;
    let half = (CHUNKS_PER_AXIS / 2) * cs;
    [origin_axis(pos[0], half, cs), origin_axis(pos[1], half, cs), origin_axis(pos[2], half, cs)]
}

fn origin_axis(p: i32, half: i32, cs: i32) -> (r: i32)
    requires
        half == 256,
        cs == 32,
        p >= i32::MIN + 256,
    ensures
        r == spec_origin_axis(p),
{
    let q = floor_div(p - half, cs);
    proof {
        let x = p - 256;
        vstd::arithmetic::div_mod::lemma_fundamental_div_mod(x, 32);
        vstd::arithmetic::div_mod::lemma_mod_bound(x, 32);
        assert(q * 32 <= x);
        assert(q * 32 > x - 32);
    }
    q * cs
}

/// `c` wrapped into `0..16` (mathematical modulus).
pub open spec fn spec_wrap_chunk(c: int) -> int {
    c % (CHUNKS_PER_AXIS as int)
}

/// Chunk coordinate wrapped into the 16-chunk toroidal atlas.
pub fn wrap_chunk(c: i32) -> (r: i32)
    ensures
        r == spec_wrap_chunk(c as int),
        0 <= r < CHUNKS_PER_AXIS,
{
    let cpa = CHUNKS_PER_AXIS;
    ((c % cpa) + cpa) % cpa
}

/// Byte offset, in the occupancy buffer, of the entry of chunk `c` at its
/// wrapped atlas position (4 bytes per entry, x fastest).
pub fn occupancy_offset(c: [i32; 3]) -> (r: u64)
    ensures
        r == 4 * (spec_wrap_chunk(c[2] as int) * 256 + spec_wrap_chunk(c[1] as int) * 16
            + spec_wrap_chunk(c[0] as int)),
        r < 4 * 4096,
{
    let cpa = CHUNKS_PER_AXIS;
    let wcx = wrap_chunk(c[0]);
    let wcy = wrap_chunk(c[1]);
    let wcz = wrap_chunk(c[2]);
    ((wcz * cpa * cpa + wcy * cpa + wcx) as u64) * 4
}

/// Voxel origin, inside the flat atlas, of the wrapped position of chunk `c`.
pub fn pack_origin(c: [i32; 3]) -> (r: [u32; 3])
    ensures
        r[0] == spec_wrap_chunk(c[0] as int) * CHUNK_SIZE,
        r[1] == spec_wrap_chunk(c[1] as int) * CHUNK_SIZE,
        r[2] == spec_wrap_chunk(c[2] as int) * CHUNK_SIZE,
{
    let cs = CHUNK_SIZE as u32;
    [(wrap_chunk(c[0]) as u32) * cs, (wrap_chunk(c[1]) as u32) * cs, (wrap_chunk(c[2]) as u32) * cs]
}

/// Voxel offset of the first voxel of chunk `c`.
pub fn chunk_voxel_offset(c: [i32; 3]) -> (r: [i32; 3])
    requires
        i32::MIN <= c[0] * CHUNK_SIZE <= i32::MAX,
        i32::MIN <= c[1] * CHUNK_SIZE <= i32::MAX,
        i32::MIN <= c[2] * CHUNK_SIZE <= i32::MAX,
    ensures
        r[0] == c[0] * CHUNK_SIZE,
        r[1] == c[1] * CHUNK_SIZE,
        r[2] == c[2] * CHUNK_SIZE,
{
    let cs = CHUNK_SIZE;
    [c[0] * cs, c[1] * cs, c[2] * cs]
}

/// First chunk (in chunk coordinates) of the atlas whose origin is `origin`.
pub open spec fn spec_chunk_min(origin: [i32; 3]) -> [i32; 3] {
    [
        spec_floor_div(origin[0] as int, CHUNK_SIZE as int) as i32,
        spec_floor_div(origin[1] as int, CHUNK_SIZE as int) as i32,
        spec_floor_div(origin[2] as int, CHUNK_SIZE as int) as i32,
    ]
}

/// Whether chunk `c` lies in the 16-chunk cube starting at chunk `lo`.
pub open spec fn in_atlas(lo: [i32; 3], c: [i32; 3]) -> bool {
    &&& lo[0] <= c[0] < lo[0] + CHUNKS_PER_AXIS
    &&& lo[1] <= c[1] < lo[1] + CHUNKS_PER_AXIS
    &&& lo[2] <= c[2] < lo[2] + CHUNKS_PER_AXIS
}

/// The `k`-th chunk of the cube starting at `lo`: z outermost, x innermost.
pub open spec fn atlas_chunk(lo: [i32; 3], k: int) -> [i32; 3] {
    [(lo[0] + k % 16) as i32, (lo[1] + (k / 16) % 16) as i32, (lo[2] + k / 256) as i32]
}

/// All chunks of the cube starting at `lo`, in scan order.
pub open spec fn atlas_chunks(lo: [i32; 3]) -> Seq<[i32; 3]> {
    Seq::new(4096, |k: int| atlas_chunk(lo, k))
}

/// The chunks of the atlas at `new_origin` that the atlas at `old_origin`
/// does not hold, in scan order.
pub open spec fn spec_entering(old_origin: [i32; 3], new_origin: [i32; 3]) -> Seq<[i32; 3]> {
    let old_lo = spec_chunk_min(old_origin);
    atlas_chunks(spec_chunk_min(new_origin)).filter(|c: [i32; 3]| !in_atlas(old_lo, c))
}

/// Index arithmetic of the 3-D scan `a * 256 + b * 16 + c`.
proof fn lemma_scan16(a: int, b: int, c: int)
    requires
        0 <= a < 16,
        0 <= b < 16,
        0 <= c < 16,
    ensures
        (a * 256 + b * 16 + c) % 16 == c,
        ((a * 256 + b * 16 + c) / 16) % 16 == b,
        (a * 256 + b * 16 + c) / 256 == a,
        0 <= a * 256 + b * 16 + c < 4096,
{
    let k = a * 256 + b * 16 + c;
    vstd::arithmetic::div_mod::lemma_fundamental_div_mod_converse(k, 16, a * 16 + b, c);
    vstd::arithmetic::div_mod::lemma_fundamental_div_mod_converse(a * 16 + b, 16, a, b);
    vstd::arithmetic::div_mod::lemma_fundamental_div_mod_converse(k, 256, a, b * 16 + c);
}

fn chunk_min(origin: [i32; 3]) -> (r: [i32; 3])
    ensures
        r == spec_chunk_min(origin),
        r[0] <= i32::MAX / 32 && r[0] >= i32::MIN / 32,
        r[1] <= i32::MAX / 32 && r[1] >= i32::MIN / 32,
        r[2] <= i32::MAX / 32 && r[2] >= i32::MIN / 32,
{
    let cs = CHUNK_SIZE;
    let r = [floor_div(origin[0], cs), floor_div(origin[1], cs), floor_div(origin[2], cs)];
    proof {
        assert forall|k: int| 0 <= k < 3 implies i32::MIN / 32 <= #[trigger] spec_floor_div(origin[k] as int, 32) <= i32::MAX / 32 by {
            vstd::arithmetic::div_mod::lemma_div_is_ordered(origin[k] as int, i32::MAX as int, 32);
            vstd::arithmetic::div_mod::lemma_div_is_ordered(i32::MIN as int, origin[k] as int, 32);
        }
    }
    r
}

/// The chunks that enter view when the atlas origin moves from `old_origin`
/// to `new_origin`: every chunk of the new 16-chunk cube that the old cube
/// does not hold, scanning z outermost and x innermost.
pub fn chunks_entering(old_origin: [i32; 3], new_origin: [i32; 3]) -> (r: Vec<[i32; 3]>)
    ensures
        r@ == spec_entering(old_origin, new_origin),
{
    let ghost pred = |c: [i32; 3]| !in_atlas(spec_chunk_min(old_origin), c);
    let old_lo = chunk_min(old_origin);
    let new_lo = chunk_min(new_origin);
    let ghost cands = atlas_chunks(new_lo);
    let cpa = CHUNKS_PER_AXIS;
    let mut out: Vec<[i32; 3]> = Vec::new();
    let mut dz: i32 = 0;
    while dz < cpa
        invariant
            0 <= dz <= 16,
            cpa == 16,
            old_lo == spec_chunk_min(old_origin),
            new_lo == spec_chunk_min(new_origin),
            new_lo[0] <= i32::MAX / 32,
            new_lo[1] <= i32::MAX / 32,
            new_lo[2] <= i32::MAX / 32,
            cands == atlas_chunks(new_lo),
            pred == (|c: [i32; 3]| !in_atlas(spec_chunk_min(old_origin), c)),
            out@ == cands.take(dz * 256).filter(pred),
        decreases 16 - dz,
    {
        let mut dy: i32 = 0;
        while dy < cpa
            invariant
                0 <= dz < 16,
                0 <= dy <= 16,
                cpa == 16,
                old_lo == spec_chunk_min(old_origin),
                new_lo == spec_chunk_min(new_origin),
                new_lo[0] <= i32::MAX / 32,
                new_lo[1] <= i32::MAX / 32,
                new_lo[2] <= i32::MAX / 32,
                cands == atlas_chunks(new_lo),
                pred == (|c: [i32; 3]| !in_atlas(spec_chunk_min(old_origin), c)),
                out@ == cands.take(dz * 256 + dy * 16).filter(pred),
            decreases 16 - dy,
        {
            let mut dx: i32 = 0;
            while dx < cpa
                invariant
                    0 <= dz < 16,
                    0 <= dy < 16,
                    0 <= dx <= 16,
                    cpa == 16,
                    old_lo == spec_chunk_min(old_origin),
                    new_lo == spec_chunk_min(new_origin),
                    new_lo[0] <= i32::MAX / 32,
                    new_lo[1] <= i32::MAX / 32,
                    new_lo[2] <= i32::MAX / 32,
                    cands == atlas_chunks(new_lo),
                    pred == (|c: [i32; 3]| !in_atlas(spec_chunk_min(old_origin), c)),
                    out@ == cands.take(dz * 256 + dy * 16 + dx).filter(pred),
                decreases 16 - dx,
            {
                let c = [new_lo[0] + dx, new_lo[1] + dy, new_lo[2] + dz];
                let ghost k = dz * 256 + dy * 16 + dx;
                proof {
                    lemma_scan16(dz as int, dy as int, dx as int);
                    assert(c == atlas_chunk(new_lo, k));
                    assert(cands.take(k + 1).drop_last() =~= cands.take(k));
                    assert(cands.take(k + 1).last() == c);
                    reveal(Seq::filter);
                }
                let inside = c[0] >= old_lo[0] && c[0] < old_lo[0] + cpa && c[1] >= old_lo[1] && c[1]
                    < old_lo[1] + cpa && c[2] >= old_lo[2] && c[2] < old_lo[2] + cpa;
                if !inside {
                    out.push(c);
                }
                dx = dx + 1;
            }
            dy = dy + 1;
        }
        dz = dz + 1;
    }
    assert(cands.take(4096) =~= cands);
    out
}

/// Most chunks packed by one readback; the rest stay queued.
pub const MAX_PACK_CHUNKS: usize = 16;

/// `s` with every element after its first occurrence dropped, order kept.
pub open spec fn dedup(s: Seq<[i32; 3]>) -> Seq<[i32; 3]>
    decreases s.len(),
{
    if s.len() == 0 {
        s
    } else {
        let p = dedup(s.drop_last());
        if p.contains(s.last()) {
            p
        } else {
            p.push(s.last())
        }
    }
}

/// Voxel offsets of the chunks of the atlas at `origin`, z outermost.
pub open spec fn initial_offset(origin: [i32; 3], k: int) -> [i32; 3] {
    [
        (origin[0] + (k % 16) * CHUNK_SIZE) as i32,
        (origin[1] + ((k / 16) % 16) * CHUNK_SIZE) as i32,
        (origin[2] + (k / 256) * CHUNK_SIZE) as i32,
    ]
}

/// Position of chunk `(cx, cy, cz)` of the atlas in its scan, z outermost
/// and x innermost.
pub open spec fn atlas_scan_index(cx: int, cy: int, cz: int) -> int {
    cz * 256 + cy * 16 + cx
}

/// Whether voxel offset `off` is the corner of one of the 16 x 16 x 16
/// chunks of the atlas at `origin`.
pub open spec fn on_atlas_grid(origin: [i32; 3], off: [i32; 3]) -> bool {
    &&& origin[0] <= off[0] <= origin[0] + 480 && (off[0] - origin[0]) % 32 == 0
    &&& origin[1] <= off[1] <= origin[1] + 480 && (off[1] - origin[1]) % 32 == 0
    &&& origin[2] <= off[2] <= origin[2] + 480 && (off[2] - origin[2]) % 32 == 0
}

/// Every index below 4096 is the scan position of the chunk given by its
/// base-16 digits.
proof fn lemma_scan16_digits(k: int)
    requires
        0 <= k < 4096,
    ensures
        0 <= k % 16 < 16,
        0 <= (k / 16) % 16 < 16,
        0 <= k / 256 < 16,
        k == atlas_scan_index(k % 16, (k / 16) % 16, k / 256),
{
    vstd::arithmetic::div_mod::lemma_fundamental_div_mod(k, 16);
    vstd::arithmetic::div_mod::lemma_fundamental_div_mod(k / 16, 16);
    vstd::arithmetic::div_mod::lemma_div_denominator(k, 16, 16);
    vstd::arithmetic::div_mod::lemma_div_pos_is_pos(k, 16);
    vstd::arithmetic::div_mod::lemma_div_pos_is_pos(k, 256);
    vstd::arithmetic::div_mod::lemma_div_is_ordered(k, 4095, 256);
}

/// The chunks generated when the atlas is first placed are its 4096 chunk
/// corners, each exactly once: entry `(cx, cy, cz)` of the z-outermost scan
/// is `origin + 32 * (cx, cy, cz)`, every entry lies on the atlas's chunk
/// grid, and no two entries coincide.
pub proof fn lemma_initial_offsets_cover_atlas(origin: [i32; 3])
    requires
        origin[0] + 480 <= i32::MAX,
        origin[1] + 480 <= i32::MAX,
        origin[2] + 480 <= i32::MAX,
    ensures
        forall|cx: int, cy: int, cz: int|
            0 <= cx < 16 && 0 <= cy < 16 && 0 <= cz < 16 ==> {
                let off = #[trigger] initial_offset(origin, atlas_scan_index(cx, cy, cz));
                &&& off[0] == origin[0] + 32 * cx
                &&& off[1] == origin[1] + 32 * cy
                &&& off[2] == origin[2] + 32 * cz
            },
        forall|k: int| 0 <= k < 4096 ==> on_atlas_grid(origin, #[trigger] initial_offset(origin, k)),
        forall|i: int, j: int|
            0 <= i < j < 4096 ==> #[trigger] initial_offset(origin, i) != #[trigger] initial_offset(origin, j),
{
    assert forall|cx: int, cy: int, cz: int|
        0 <= cx < 16 && 0 <= cy < 16 && 0 <= cz < 16 implies {
            let off = #[trigger] initial_offset(origin, atlas_scan_index(cx, cy, cz));
            &&& off[0] == origin[0] + 32 * cx
            &&& off[1] == origin[1] + 32 * cy
            &&& off[2] == origin[2] + 32 * cz
        } by {
        lemma_scan16(cz, cy, cx);
    }
    assert forall|k: int| 0 <= k < 4096 implies on_atlas_grid(origin, #[trigger] initial_offset(origin, k)) by {
        lemma_scan16_digits(k);
        vstd::arithmetic::div_mod::lemma_mod_multiples_basic(k % 16, 32);
        vstd::arithmetic::div_mod::lemma_mod_multiples_basic((k / 16) % 16, 32);
        vstd::arithmetic::div_mod::lemma_mod_multiples_basic(k / 256, 32);
    }
    assert forall|i: int, j: int|
        0 <= i < j < 4096 implies #[trigger] initial_offset(origin, i) != #[trigger] initial_offset(origin, j) by {
        lemma_scan16_digits(i);
        lemma_scan16_digits(j);
        if initial_offset(origin, i) == initial_offset(origin, j) {
            assert(initial_offset(origin, i)[0] == initial_offset(origin, j)[0]);
            assert(initial_offset(origin, i)[1] == initial_offset(origin, j)[1]);
            assert(initial_offset(origin, i)[2] == initial_offset(origin, j)[2]);
        }
    }
}

/// The inclusive box of chunks `lo..=hi`, z outermost and x innermost.
pub open spec fn box_len(lo: i32, hi: i32) -> int {
    if hi >= lo {
        hi - lo + 1
    } else {
        0
    }
}

pub open spec fn box_chunk(lo: [i32; 3], hi: [i32; 3], k: int) -> [i32; 3] {
    let nx = box_len(lo[0], hi[0]);
    let ny = box_len(lo[1], hi[1]);
    [(lo[0] + k % nx) as i32, (lo[1] + (k / nx) % ny) as i32, (lo[2] + k / (nx * ny)) as i32]
}

pub open spec fn box_chunks(lo: [i32; 3], hi: [i32; 3]) -> Seq<[i32; 3]> {
    Seq::new(
        (box_len(lo[0], hi[0]) * box_len(lo[1], hi[1]) * box_len(lo[2], hi[2])) as nat,
        |k: int| box_chunk(lo, hi, k),
    )
}

/// Position of the chunk `lo + (x, y, z)` in the scan of the box `lo..=hi`,
/// z outermost and x innermost.
pub open spec fn box_scan_index(lo: [i32; 3], hi: [i32; 3], x: int, y: int, z: int) -> int {
    z * (box_len(lo[0], hi[0]) * box_len(lo[1], hi[1])) + y * box_len(lo[0], hi[0]) + x
}

/// Whether chunk `c` lies in the inclusive box `lo..=hi` on every axis.
pub open spec fn in_box(lo: [i32; 3], hi: [i32; 3], c: [i32; 3]) -> bool {
    &&& lo[0] <= c[0] <= hi[0]
    &&& lo[1] <= c[1] <= hi[1]
    &&& lo[2] <= c[2] <= hi[2]
}

/// An index below `nx * ny * nz` splits into its x, y and z digits of the
/// box scan.
proof fn lemma_box_digits(k: int, nx: int, ny: int, nz: int)
    requires
        nx >= 0,
        ny >= 0,
        nz >= 0,
        0 <= k < nx * ny * nz,
    ensures
        nx > 0 && ny > 0 && nz > 0,
        0 <= k % nx < nx,
        0 <= (k / nx) % ny < ny,
        0 <= k / (nx * ny) < nz,
        k == (k / (nx * ny)) * (nx * ny) + ((k / nx) % ny) * nx + k % nx,
{
    assert(nx > 0 && ny > 0 && nz > 0) by (nonlinear_arith)
        requires
            nx >= 0,
            ny >= 0,
            nz >= 0,
            0 <= k < nx * ny * nz,
    ;
    let x = k % nx;
    let q = k / nx;
    let y = q % ny;
    let z = q / ny;
    vstd::arithmetic::div_mod::lemma_fundamental_div_mod(k, nx);
    vstd::arithmetic::div_mod::lemma_mod_pos_bound(k, nx);
    vstd::arithmetic::div_mod::lemma_div_pos_is_pos(k, nx);
    vstd::arithmetic::div_mod::lemma_fundamental_div_mod(q, ny);
    vstd::arithmetic::div_mod::lemma_mod_pos_bound(q, ny);
    vstd::arithmetic::div_mod::lemma_div_pos_is_pos(q, ny);
    vstd::arithmetic::div_mod::lemma_div_denominator(k, nx, ny);
    assert(k == z * (nx * ny) + y * nx + x) by (nonlinear_arith)
        requires
            k == nx * q + x,
            q == ny * z + y,
    ;
    assert(z < nz) by (nonlinear_arith)
        requires
            k == z * (nx * ny) + y * nx + x,
            0 <= y,
            0 <= x,
            nx > 0,
            ny > 0,
            k < nx * ny * nz,
    ;
}

/// Scan position `box_scan_index(lo, hi, x, y, z)` of the box holds the
/// chunk `lo + (x, y, z)`.
proof fn lemma_box_chunks_order(lo: [i32; 3], hi: [i32; 3])
    ensures
        forall|x: int, y: int, z: int|
            #![trigger box_chunks(lo, hi)[box_scan_index(lo, hi, x, y, z)]]
            0 <= x < box_len(lo[0], hi[0]) && 0 <= y < box_len(lo[1], hi[1]) && 0 <= z < box_len(lo[2], hi[2])
                ==> box_chunks(lo, hi)[box_scan_index(lo, hi, x, y, z)][0] == lo[0] + x
                && box_chunks(lo, hi)[box_scan_index(lo, hi, x, y, z)][1] == lo[1] + y
                && box_chunks(lo, hi)[box_scan_index(lo, hi, x, y, z)][2] == lo[2] + z,
{
    let nx = box_len(lo[0], hi[0]);
    let ny = box_len(lo[1], hi[1]);
    let nz = box_len(lo[2], hi[2]);
    assert forall|x: int, y: int, z: int|
        #![trigger box_chunks(lo, hi)[box_scan_index(lo, hi, x, y, z)]]
        0 <= x < nx && 0 <= y < ny && 0 <= z < nz implies box_chunks(lo, hi)[box_scan_index(lo, hi, x, y, z)][0]
            == lo[0] + x && box_chunks(lo, hi)[box_scan_index(lo, hi, x, y, z)][1] == lo[1] + y && box_chunks(
            lo,
            hi,
        )[box_scan_index(lo, hi, x, y, z)][2] == lo[2] + z by {
        lemma_box_index(z, y, x, nx, ny, nz);
        let k = box_scan_index(lo, hi, x, y, z);
        assert(k == z * (nx * ny) + y * nx + x);
        vstd::arithmetic::mul::lemma_mul_nonnegative(nx, ny);
        vstd::arithmetic::mul::lemma_mul_nonnegative(nx * ny, nz);
        assert(box_chunks(lo, hi)[k] == box_chunk(lo, hi, k));
    }
}

/// The chunks a brush box marks are exactly the chunks inside the box, each
/// once, z outermost and x innermost: their number is the product of the
/// box's inclusive extents.
pub proof fn lemma_box_chunks_exact(lo: [i32; 3], hi: [i32; 3])
    ensures
        forall|x: int, y: int, z: int|
            #![trigger box_chunks(lo, hi)[box_scan_index(lo, hi, x, y, z)]]
            0 <= x < box_len(lo[0], hi[0]) && 0 <= y < box_len(lo[1], hi[1]) && 0 <= z < box_len(lo[2], hi[2])
                ==> box_chunks(lo, hi)[box_scan_index(lo, hi, x, y, z)][0] == lo[0] + x
                && box_chunks(lo, hi)[box_scan_index(lo, hi, x, y, z)][1] == lo[1] + y
                && box_chunks(lo, hi)[box_scan_index(lo, hi, x, y, z)][2] == lo[2] + z,
        forall|c: [i32; 3]| box_chunks(lo, hi).contains(c) <==> in_box(lo, hi, c),
        box_chunks(lo, hi).len() == box_len(lo[0], hi[0]) * box_len(lo[1], hi[1]) * box_len(lo[2], hi[2]),
        forall|i: int, j: int|
            0 <= i < j < box_chunks(lo, hi).len() ==> #[trigger] box_chunks(lo, hi)[i] != #[trigger] box_chunks(
                lo,
                hi,
            )[j],
{
    let nx = box_len(lo[0], hi[0]);
    let ny = box_len(lo[1], hi[1]);
    let nz = box_len(lo[2], hi[2]);
    let s = box_chunks(lo, hi);
    vstd::arithmetic::mul::lemma_mul_nonnegative(nx, ny);
    vstd::arithmetic::mul::lemma_mul_nonnegative(nx * ny, nz);
    lemma_box_chunks_order(lo, hi);
    assert forall|c: [i32; 3]| s.contains(c) <==> in_box(lo, hi, c) by {
        if s.contains(c) {
            let k = choose|k: int| 0 <= k < s.len() && s[k] == c;
            lemma_box_digits(k, nx, ny, nz);
        }
        if in_box(lo, hi, c) {
            let (z, y, x) = ((c[2] - lo[2]) as int, (c[1] - lo[1]) as int, (c[0] - lo[0]) as int);
            lemma_box_index(z, y, x, nx, ny, nz);
            let k = z * (nx * ny) + y * nx + x;
            assert(s[k] =~= c);
        }
    }
    assert forall|i: int, j: int| 0 <= i < j < s.len() implies #[trigger] s[i] != #[trigger] s[j] by {
        lemma_box_digits(i, nx, ny, nz);
        lemma_box_digits(j, nx, ny, nz);
        if s[i] == s[j] {
            assert(s[i][0] == s[j][0] && s[i][1] == s[j][1] && s[i][2] == s[j][2]);
        }
    }
}

/// Bookkeeping of the streamed voxel atlas: where it sits, which chunks
/// changed since the last readback, and the state of the readback pipeline.
pub struct WorldManager {
    world_origin: [i32; 3],
    readback_in_flight: bool,
    readback_queued: bool,
    dirty_readback_chunks: Vec<[i32; 3]>,
}

impl WorldManager {
    /// Atlas origin in voxels.
    pub closed spec fn origin(&self) -> [i32; 3] {
        self.world_origin
    }

    /// Chunks waiting for a readback, in the order they changed.
    pub closed spec fn dirty(&self) -> Seq<[i32; 3]> {
        self.dirty_readback_chunks@
    }

    /// Whether a readback is on its way back from the GPU.
    pub closed spec fn in_flight(&self) -> bool {
        self.readback_in_flight
    }

    /// Whether a readback was asked for and has not been started.
    pub closed spec fn queued(&self) -> bool {
        self.readback_queued
    }

    /// An atlas at the origin with nothing dirty and no readback pending.
    pub fn new() -> (w: Self)
        ensures
            w.origin() == [0i32, 0, 0],
            w.dirty().len() == 0,
            !w.in_flight(),
            !w.queued(),
    {
        WorldManager {
            world_origin: [0, 0, 0],
            readback_in_flight: false,
            readback_queued: false,
            dirty_readback_chunks: Vec::new(),
        }
    }

    /// Atlas origin in voxels.
    pub fn world_origin_ivec3(&self) -> (r: [i32; 3])
        ensures
            r == self.origin(),
    {
        self.world_origin
    }

    /// Center the atlas on a player at voxel position `pos` and return the
    /// voxel offsets of all its chunks to generate, z outermost.
    pub fn generate_initial_chunks(&mut self, pos: [i32; 3]) -> (r: Vec<[i32; 3]>)
        requires
            forall|k: int| 0 <= k < 3 ==> i32::MIN + 256 <= #[trigger] pos[k] <= i32::MAX - 224,
        ensures
            final(self).origin()[0] == spec_origin_axis(pos[0]),
            final(self).origin()[1] == spec_origin_axis(pos[1]),
            final(self).origin()[2] == spec_origin_axis(pos[2]),
            r@ == Seq::new(4096, |k: int| initial_offset(final(self).origin(), k)),
            forall|cx: int, cy: int, cz: int|
                0 <= cx < 16 && 0 <= cy < 16 && 0 <= cz < 16 ==> {
                    let off = #[trigger] r@[atlas_scan_index(cx, cy, cz)];
                    &&& off[0] == final(self).origin()[0] + 32 * cx
                    &&& off[1] == final(self).origin()[1] + 32 * cy
                    &&& off[2] == final(self).origin()[2] + 32 * cz
                },
            forall|k: int| 0 <= k < 4096 ==> on_atlas_grid(final(self).origin(), #[trigger] r@[k]),
            forall|i: int, j: int| 0 <= i < j < 4096 ==> #[trigger] r@[i] != #[trigger] r@[j],
            final(self).dirty() == old(self).dirty(),
            final(self).in_flight() == old(self).in_flight(),
            final(self).queued() == old(self).queued(),
    {
        assert(i32::MIN + 256 <= pos[0] <= i32::MAX - 224);
        assert(i32::MIN + 256 <= pos[1] <= i32::MAX - 224);
        assert(i32::MIN + 256 <= pos[2] <= i32::MAX - 224);
        let o = compute_origin(pos);
        proof {
            assert forall|k: int| 0 <= k < 3 implies o[k] + 480 <= i32::MAX && o[k] >= i32::MIN by {
                lemma_origin_centers_player(pos[k]);
            }
        }
        self.world_origin = o;
        let cs = CHUNK_SIZE;
        let cpa = CHUNKS_PER_AXIS;
        let mut out: Vec<[i32; 3]> = Vec::new();
        let mut cz: i32 = 0;
        while cz < cpa
            invariant
                0 <= cz <= 16,
                cs == 32,
                cpa == 16,
                forall|k: int| 0 <= k < 3 ==> #[trigger] o[k] + 480 <= i32::MAX,
                forall|k: int| 0 <= k < 3 ==> #[trigger] o[k] >= i32::MIN,
                out@ == Seq::new((cz * 256) as nat, |k: int| initial_offset(o, k)),
            decreases 16 - cz,
        {
            let mut cy: i32 = 0;
            while cy < cpa
                invariant
                    0 <= cz < 16,
                    0 <= cy <= 16,
                    cs == 32,
                    cpa == 16,
                    forall|k: int| 0 <= k < 3 ==> #[trigger] o[k] + 480 <= i32::MAX,
                    forall|k: int| 0 <= k < 3 ==> #[trigger] o[k] >= i32::MIN,
                    out@ == Seq::new((cz * 256 + cy * 16) as nat, |k: int| initial_offset(o, k)),
                decreases 16 - cy,
            {
                let mut cx: i32 = 0;
                while cx < cpa
                    invariant
                        0 <= cz < 16,
                        0 <= cy < 16,
                        0 <= cx <= 16,
                        cs == 32,
                        cpa == 16,
                        forall|k: int| 0 <= k < 3 ==> #[trigger] o[k] + 480 <= i32::MAX,
                        forall|k: int| 0 <= k < 3 ==> #[trigger] o[k] >= i32::MIN,
                        out@ == Seq::new((cz * 256 + cy * 16 + cx) as nat, |k: int| initial_offset(o, k)),
                    decreases 16 - cx,
                {
                    proof {
                        lemma_scan16(cz as int, cy as int, cx as int);
                        assert(o[0] + 480 <= i32::MAX && o[1] + 480 <= i32::MAX && o[2] + 480 <= i32::MAX);
                    }
                    let off = [o[0] + cx * cs, o[1] + cy * cs, o[2] + cz * cs];
                    let ghost k = cz * 256 + cy * 16 + cx;
                    assert(off == initial_offset(o, k));
                    out.push(off);
                    assert(out@ =~= Seq::new((k + 1) as nat, |k: int| initial_offset(o, k)));
                    cx = cx + 1;
                }
                cy = cy + 1;
            }
            cz = cz + 1;
        }
        proof {
            lemma_initial_offsets_cover_atlas(o);
            assert forall|cx: int, cy: int, cz: int|
                0 <= cx < 16 && 0 <= cy < 16 && 0 <= cz < 16 implies {
                    let off = #[trigger] out@[atlas_scan_index(cx, cy, cz)];
                    &&& off[0] == o[0] + 32 * cx
                    &&& off[1] == o[1] + 32 * cy
                    &&& off[2] == o[2] + 32 * cz
                } by {
                lemma_scan16(cz, cy, cx);
                assert(out@[atlas_scan_index(cx, cy, cz)] == initial_offset(o, atlas_scan_index(cx, cy, cz)));
            }
            assert forall|i: int, j: int| 0 <= i < j < 4096 implies #[trigger] out@[i] != #[trigger] out@[j] by {
                assert(out@[i] == initial_offset(o, i));
                assert(out@[j] == initial_offset(o, j));
            }
        }
        out
    }

    /// Recenter the atlas on a player at voxel position `pos`. When the
    /// origin stays, nothing changes and `None` is returned; otherwise the
    /// chunks that enter view are returned (to generate and to clear in the
    /// occupancy map), queued for readback, and the origin moves.
    pub fn update_view(&mut self, pos: [i32; 3]) -> (r: Option<Vec<[i32; 3]>>)
        requires
            forall|k: int| 0 <= k < 3 ==> i32::MIN + 256 <= #[trigger] pos[k],
        ensures
            ({
                let o = [
                    spec_origin_axis(pos[0]) as i32,
                    spec_origin_axis(pos[1]) as i32,
                    spec_origin_axis(pos[2]) as i32,
                ];
                &&& r is None <==> o == old(self).origin()
                &&& r is None ==> *final(self) == *old(self)
                &&& r matches Some(v) ==> {
                    &&& v@ == spec_entering(old(self).origin(), o)
                    &&& final(self).origin() == o
                    &&& final(self).dirty() == old(self).dirty() + v@
                    &&& final(self).in_flight() == old(self).in_flight()
                    &&& final(self).queued() == old(self).queued()
                }
            }),
    {
        assert(i32::MIN + 256 <= pos[0] && i32::MIN + 256 <= pos[1] && i32::MIN + 256 <= pos[2]);
        let new_origin = compute_origin(pos);
        proof {
            lemma_origin_centers_player(pos[0]);
            lemma_origin_centers_player(pos[1]);
            lemma_origin_centers_player(pos[2]);
            assert(new_origin =~= [
                spec_origin_axis(pos[0]) as i32,
                spec_origin_axis(pos[1]) as i32,
                spec_origin_axis(pos[2]) as i32,
            ]);
        }
        if new_origin[0] == self.world_origin[0] && new_origin[1] == self.world_origin[1]
            && new_origin[2] == self.world_origin[2] {
            assert(new_origin == self.world_origin);
            return None;
        }
        let entering = chunks_entering(self.world_origin, new_origin);
        let mut i: usize = 0;
        while i < entering.len()
            invariant
                i <= entering@.len(),
                self.world_origin == old(self).world_origin,
                self.readback_in_flight == old(self).readback_in_flight,
                self.readback_queued == old(self).readback_queued,
                self.dirty_readback_chunks@ == old(self).dirty_readback_chunks@ + entering@.take(i as int),
            decreases entering@.len() - i,
        {
            self.dirty_readback_chunks.push(entering[i]);
            assert(entering@.take(i + 1) =~= entering@.take(i as int).push(entering@[i as int]));
            i = i + 1;
        }
        assert(entering@.take(entering@.len() as int) =~= entering@);
        self.world_origin = new_origin;
        Some(entering)
    }

    /// Queue every chunk of the inclusive box `lo..=hi` for readback, z
    /// outermost and x innermost (the chunks a brush stroke touched).
    pub fn mark_brush_dirty(&mut self, lo: [i32; 3], hi: [i32; 3])
        requires
            box_len(lo[0], hi[0]) * box_len(lo[1], hi[1]) * box_len(lo[2], hi[2]) <= usize::MAX,
        ensures
            final(self).dirty() == old(self).dirty() + box_chunks(lo, hi),
            forall|c: [i32; 3]|
                #[trigger] final(self).dirty().contains(c) <==> old(self).dirty().contains(c) || in_box(lo, hi, c),
            final(self).dirty().len() == old(self).dirty().len() + box_len(lo[0], hi[0]) * box_len(lo[1], hi[1])
                * box_len(lo[2], hi[2]),
            forall|x: int, y: int, z: int|
                0 <= x < box_len(lo[0], hi[0]) && 0 <= y < box_len(lo[1], hi[1]) && 0 <= z < box_len(lo[2], hi[2])
                    ==> {
                    let c = #[trigger] final(self).dirty()[old(self).dirty().len() + box_scan_index(lo, hi, x, y, z)];
                    &&& c[0] == lo[0] + x
                    &&& c[1] == lo[1] + y
                    &&& c[2] == lo[2] + z
                },
            final(self).origin() == old(self).origin(),
            final(self).in_flight() == old(self).in_flight(),
            final(self).queued() == old(self).queued(),
    {
        let ghost nx = box_len(lo[0], hi[0]);
        let ghost ny = box_len(lo[1], hi[1]);
        let ghost nz = box_len(lo[2], hi[2]);
        let ghost cands = box_chunks(lo, hi);
        proof {
            vstd::arithmetic::mul::lemma_mul_nonnegative(nx, ny);
            vstd::arithmetic::mul::lemma_mul_nonnegative(nx * ny, nz);
        }
        let mut cz: i64 = lo[2] as i64;
        assert((cz - lo[2]) * (nx * ny) == 0) by (nonlinear_arith)
            requires
                cz == lo[2],
        ;
        while cz <= hi[2] as i64
            invariant
                lo[2] <= cz <= hi[2] + 1 || (hi[2] < lo[2] && cz == lo[2]),
                nx == box_len(lo[0], hi[0]),
                ny == box_len(lo[1], hi[1]),
                nz == box_len(lo[2], hi[2]),
                cands == box_chunks(lo, hi),
                nx * ny >= 0,
                self.world_origin == old(self).world_origin,
                self.readback_in_flight == old(self).readback_in_flight,
                self.readback_queued == old(self).readback_queued,
                self.dirty_readback_chunks@ == old(self).dirty_readback_chunks@ + cands.take((cz - lo[2]) * (nx * ny)),
            decreases hi[2] + 1 - cz,
        {
            proof {
                assert(0 <= cz - lo[2] < nz);
                lemma_take_bound(cz - lo[2], nz, nx * ny);
            }
            let mut cy: i64 = lo[1] as i64;
            assert((cy - lo[1]) * nx == 0) by (nonlinear_arith)
                requires
                    cy == lo[1],
            ;
            while cy <= hi[1] as i64
                invariant
                    lo[2] <= cz <= hi[2],
                    lo[1] <= cy <= hi[1] + 1 || (hi[1] < lo[1] && cy == lo[1]),
                    nx == box_len(lo[0], hi[0]),
                    ny == box_len(lo[1], hi[1]),
                    nz == box_len(lo[2], hi[2]),
                    cands == box_chunks(lo, hi),
                    nx * ny >= 0,
                    self.world_origin == old(self).world_origin,
                    self.readback_in_flight == old(self).readback_in_flight,
                    self.readback_queued == old(self).readback_queued,
                    self.dirty_readback_chunks@ == old(self).dirty_readback_chunks@ + cands.take((cz - lo[2]) * (nx * ny) + (cy - lo[1]) * nx),
                decreases hi[1] + 1 - cy,
            {
                let mut cx: i64 = lo[0] as i64;
                assert((cz - lo[2]) * (nx * ny) + (cy - lo[1]) * nx + (cx - lo[0]) == (cz - lo[2]) * (nx * ny) + (cy - lo[1]) * nx);
                while cx <= hi[0] as i64
                    invariant
                        lo[2] <= cz <= hi[2],
                        lo[1] <= cy <= hi[1],
                        lo[0] <= cx <= hi[0] + 1 || (hi[0] < lo[0] && cx == lo[0]),
                        nx == box_len(lo[0], hi[0]),
                        ny == box_len(lo[1], hi[1]),
                        nz == box_len(lo[2], hi[2]),
                        cands == box_chunks(lo, hi),
                        nx * ny >= 0,
                        self.world_origin == old(self).world_origin,
                        self.readback_in_flight == old(self).readback_in_flight,
                        self.readback_queued == old(self).readback_queued,
                        self.dirty_readback_chunks@ == old(self).dirty_readback_chunks@ + cands.take((cz - lo[2]) * (nx * ny) + (cy - lo[1]) * nx + (cx - lo[0])),
                    decreases hi[0] + 1 - cx,
                {
                    let ghost k = (cz - lo[2]) * (nx * ny) + (cy - lo[1]) * nx + (cx - lo[0]);
                    proof {
                        lemma_box_index(cz - lo[2], cy - lo[1], cx - lo[0], nx, ny, nz);
                        assert(cands[k] == [cx as i32, cy as i32, cz as i32]);
                    }
                    self.dirty_readback_chunks.push([cx as i32, cy as i32, cz as i32]);
                    assert(cands.take(k + 1) =~= cands.take(k).push(cands[k]));
                    cx = cx + 1;
                }
                proof {
                    if hi[0] < lo[0] {
                        assert(nx == 0);
                    }
                    assert((cy - lo[1]) * nx + nx == (cy + 1 - lo[1]) * nx) by (nonlinear_arith);
                }
                cy = cy + 1;
            }
            proof {
                if hi[1] < lo[1] {
                    assert(ny == 0);
                    assert(nx * ny == 0) by (nonlinear_arith) requires ny == 0;
                }
                assert((cz - lo[2]) * (nx * ny) + ny * nx == (cz + 1 - lo[2]) * (nx * ny)) by (nonlinear_arith);
            }
            cz = cz + 1;
        }
        proof {
            if hi[2] < lo[2] {
                assert(nz == 0);
            }
            assert((cz - lo[2]) * (nx * ny) == nx * ny * nz) by (nonlinear_arith)
                requires
                    cz - lo[2] == nz,
            ;
        }
        assert(cands.take(cands.len() as int) =~= cands);
        proof {
            lemma_box_chunks_exact(lo, hi);
            let before = old(self).dirty_readback_chunks@;
            let after = self.dirty_readback_chunks@;
            assert forall|x: int, y: int, z: int| 0 <= x < nx && 0 <= y < ny && 0 <= z < nz implies {
                let c = #[trigger] after[before.len() + box_scan_index(lo, hi, x, y, z)];
                &&& c[0] == lo[0] + x
                &&& c[1] == lo[1] + y
                &&& c[2] == lo[2] + z
            } by {
                lemma_box_index(z, y, x, nx, ny, nz);
                assert(cands[box_scan_index(lo, hi, x, y, z)] == after[before.len() + box_scan_index(lo, hi, x, y, z)]);
            }
            assert forall|c: [i32; 3]| #[trigger] after.contains(c) <==> before.contains(c) || in_box(lo, hi, c) by {
                if after.contains(c) {
                    let k = choose|k: int| 0 <= k < after.len() && after[k] == c;
                    if k >= before.len() {
                        assert(cands[k - before.len()] == c);
                    }
                }
                if before.contains(c) {
                    let k = choose|k: int| 0 <= k < before.len() && before[k] == c;
                    assert(after[k] == c);
                }
                if in_box(lo, hi, c) {
                    let k = choose|k: int| 0 <= k < cands.len() && cands[k] == c;
                    assert(after[before.len() + k] == c);
                }
            }
        }
    }
}

impl WorldManager {
    /// Ask for a readback of the dirty chunks. When one is in flight, the
    /// request is only remembered and nothing is returned. Otherwise the
    /// dirty list is emptied (for a full copy, which takes another path,
    /// nothing more happens) and its chunks, each once in the order of first
    /// change, are returned to be packed: at most [`MAX_PACK_CHUNKS`] of
    /// them, the others staying dirty with the request remembered.
    pub fn request_readback(&mut self, full_copy: bool) -> (r: Vec<[i32; 3]>)
        ensures
            final(self).origin() == old(self).origin(),
            final(self).in_flight() == old(self).in_flight(),
            old(self).in_flight() ==> {
                &&& r@.len() == 0
                &&& final(self).dirty() == old(self).dirty()
                &&& final(self).queued()
            },
            !old(self).in_flight() && full_copy ==> {
                &&& r@.len() == 0
                &&& final(self).dirty() == old(self).dirty()
                &&& !final(self).queued()
            },
            !old(self).in_flight() && !full_copy ==> {
                let d = dedup(old(self).dirty());
                if d.len() > MAX_PACK_CHUNKS {
                    &&& r@ == d.take(MAX_PACK_CHUNKS as int)
                    &&& final(self).dirty() == d.skip(MAX_PACK_CHUNKS as int)
                    &&& final(self).queued()
                } else {
                    &&& r@ == d
                    &&& final(self).dirty().len() == 0
                    &&& !final(self).queued()
                }
            },
    {
        self.readback_queued = true;
        if self.readback_in_flight {
            return Vec::new();
        }
        self.readback_queued = false;
        if full_copy {
            return Vec::new();
        }
        let mut chunks: Vec<[i32; 3]> = Vec::new();
        std::mem::swap(&mut chunks, &mut self.dirty_readback_chunks);
        let mut unique: Vec<[i32; 3]> = Vec::new();
        let mut i: usize = 0;
        while i < chunks.len()
            invariant
                i <= chunks@.len(),
                chunks@ == old(self).dirty(),
                unique@ == dedup(chunks@.take(i as int)),
            decreases chunks@.len() - i,
        {
            let c = chunks[i];
            assert(chunks@.take(i + 1).drop_last() =~= chunks@.take(i as int));
            assert(chunks@.take(i + 1).last() == c);
            if !contains_chunk(&unique, c) {
                unique.push(c);
            }
            i = i + 1;
        }
        assert(chunks@.take(chunks@.len() as int) =~= chunks@);
        if unique.len() > MAX_PACK_CHUNKS {
            let overflow = unique.split_off(MAX_PACK_CHUNKS);
            self.dirty_readback_chunks = overflow;
            self.readback_queued = true;
            assert(unique@ =~= dedup(old(self).dirty()).take(MAX_PACK_CHUNKS as int));
            assert(self.dirty_readback_chunks@ =~= dedup(old(self).dirty()).skip(MAX_PACK_CHUNKS as int));
        }
        unique
    }

    /// Record that the batch of the last request went to the readback worker.
    pub fn readback_started(&mut self)
        ensures
            final(self).in_flight(),
            final(self).queued() == old(self).queued(),
            final(self).dirty() == old(self).dirty(),
            final(self).origin() == old(self).origin(),
    {
        self.readback_in_flight = true;
    }

    /// Record that the readback in flight came back.
    pub fn readback_finished(&mut self)
        ensures
            !final(self).in_flight(),
            final(self).queued() == old(self).queued(),
            final(self).dirty() == old(self).dirty(),
            final(self).origin() == old(self).origin(),
    {
        self.readback_in_flight = false;
    }

    /// Whether a remembered readback request can be started now.
    pub fn readback_wanted(&self) -> (r: bool)
        ensures
            r == (!self.in_flight() && self.queued()),
    {
        !self.readback_in_flight && self.readback_queued
    }
}

/// Whether `v` holds chunk `c`.
fn contains_chunk(v: &Vec<[i32; 3]>, c: [i32; 3]) -> (r: bool)
    ensures
        r == v@.contains(c),
{
    let mut j: usize = 0;
    while j < v.len()
        invariant
            j <= v@.len(),
            forall|m: int| 0 <= m < j ==> v@[m] != c,
        decreases v@.len() - j,
    {
        let e = v[j];
        if e[0] == c[0] && e[1] == c[1] && e[2] == c[2] {
            assert(v@[j as int] =~= c);
            return true;
        }
        assert(e != c);
        j = j + 1;
    }
    false
}

/// Voxels in one chunk.
pub const CHUNK_VOL: usize = 32768;

/// Coordinates of entry `p` of the flat atlas, x fastest.
pub open spec fn grid_x(p: int) -> int {
    p % 512
}

pub open spec fn grid_y(p: int) -> int {
    (p / 512) % 512
}

pub open spec fn grid_z(p: int) -> int {
    p / 262144
}

/// First voxel, along one axis, of the wrapped atlas slot of chunk
/// coordinate `c`.
pub open spec fn slot_start(c: i32) -> int {
    spec_wrap_chunk(c as int) * CHUNK_SIZE
}

/// Whether atlas entry `p` lies in the wrapped slot of chunk `c`.
pub open spec fn covers(c: [i32; 3], p: int) -> bool {
    &&& slot_start(c[0]) <= grid_x(p) < slot_start(c[0]) + CHUNK_SIZE
    &&& slot_start(c[1]) <= grid_y(p) < slot_start(c[1]) + CHUNK_SIZE
    &&& slot_start(c[2]) <= grid_z(p) < slot_start(c[2]) + CHUNK_SIZE
}

/// Position of atlas entry `p` inside the packed copy of chunk `c`.
pub open spec fn local_index(c: [i32; 3], p: int) -> int {
    (grid_z(p) - slot_start(c[2])) * 1024 + (grid_y(p) - slot_start(c[1])) * 32 + (grid_x(p)
        - slot_start(c[0]))
}

/// `s` with the `i`-th packed chunk of `packed` written into the slot of
/// chunk `c`, up to its first `m` voxels in scan order.
#[verifier::opaque]
pub open spec fn scatter_partial(s: Seq<u32>, c: [i32; 3], i: int, packed: Seq<u32>, m: int) -> Seq<u32> {
    Seq::new(
        s.len(),
        |p: int|
            if covers(c, p) && local_index(c, p) < m {
                packed[i * CHUNK_VOL + local_index(c, p)]
            } else {
                s[p]
            },
    )
}

/// The atlas after the first `n` packed chunks are written in order, each
/// into the wrapped slot of its chunk; a later chunk overwrites an earlier
/// one in the same slot.
pub open spec fn scatter(s: Seq<u32>, chunks: Seq<[i32; 3]>, packed: Seq<u32>, n: int) -> Seq<u32>
    decreases n,
{
    if n <= 0 {
        s
    } else {
        scatter_partial(scatter(s, chunks, packed, n - 1), chunks[n - 1], n - 1, packed, CHUNK_VOL as int)
    }
}

/// Coordinates of `z * 512^2 + y * 512 + x` for coordinates in `0..512`.
proof fn lemma_grid_compose(x: int, y: int, z: int)
    requires
        0 <= x < 512,
        0 <= y < 512,
        0 <= z < 512,
    ensures
        ({
            let p = z * 262144 + y * 512 + x;
            &&& 0 <= p < 134217728
            &&& grid_x(p) == x
            &&& grid_y(p) == y
            &&& grid_z(p) == z
        }),
{
    let p = z * 262144 + y * 512 + x;
    vstd::arithmetic::div_mod::lemma_fundamental_div_mod_converse(p, 512, z * 512 + y, x);
    vstd::arithmetic::div_mod::lemma_fundamental_div_mod_converse(z * 512 + y, 512, z, y);
    vstd::arithmetic::div_mod::lemma_fundamental_div_mod_converse(p, 262144, z, y * 512 + x);
}

/// An atlas entry is determined by its coordinates.
proof fn lemma_grid_decompose(p: int)
    requires
        0 <= p < 134217728,
    ensures
        p == grid_z(p) * 262144 + grid_y(p) * 512 + grid_x(p),
        0 <= grid_x(p) < 512,
        0 <= grid_y(p) < 512,
        0 <= grid_z(p) < 512,
{
    vstd::arithmetic::div_mod::lemma_fundamental_div_mod(p, 512);
    vstd::arithmetic::div_mod::lemma_fundamental_div_mod(p / 512, 512);
    vstd::arithmetic::div_mod::lemma_div_denominator(p, 512, 512);
    vstd::arithmetic::div_mod::lemma_div_pos_is_pos(p, 512);
    vstd::arithmetic::div_mod::lemma_div_is_ordered(p, 134217727, 262144);
}

/// Before any voxel of a chunk is written, the atlas is unchanged; writing
/// keeps its length.
proof fn lemma_scatter_partial_basics(s: Seq<u32>, c: [i32; 3], i: int, packed: Seq<u32>, m: int)
    ensures
        scatter_partial(s, c, i, packed, 0) == s,
        scatter_partial(s, c, i, packed, m).len() == s.len(),
{
    reveal(scatter_partial);
    assert(scatter_partial(s, c, i, packed, 0) =~= s);
}

/// One more voxel of a chunk written at its atlas entry.
proof fn lemma_scatter_step(s: Seq<u32>, c: [i32; 3], i: int, packed: Seq<u32>, z: int, y: int, x: int)
    requires
        s.len() == 134217728,
        0 <= z < 32,
        0 <= y < 32,
        0 <= x < 32,
    ensures
        ({
            let m = z * 1024 + y * 32 + x;
            let dst = (slot_start(c[2]) + z) * 262144 + (slot_start(c[1]) + y) * 512 + slot_start(c[0]) + x;
            &&& 0 <= dst < 134217728
            &&& scatter_partial(s, c, i, packed, m).update(dst, packed[i * CHUNK_VOL + m])
                == scatter_partial(s, c, i, packed, m + 1)
        }),
{
    reveal(scatter_partial);
    let m = z * 1024 + y * 32 + x;
    let (sx, sy, sz) = (slot_start(c[0]), slot_start(c[1]), slot_start(c[2]));
    assert(0 <= sx <= 480 && 0 <= sy <= 480 && 0 <= sz <= 480);
    let dst = (sz + z) * 262144 + (sy + y) * 512 + sx + x;
    lemma_grid_compose(sx + x, sy + y, sz + z);
    let a = scatter_partial(s, c, i, packed, m).update(dst, packed[i * CHUNK_VOL + m]);
    let b = scatter_partial(s, c, i, packed, m + 1);
    assert forall|p: int| 0 <= p < s.len() implies #[trigger] a[p] == b[p] by {
        if p != dst && covers(c, p) && local_index(c, p) == m {
            lemma_grid_decompose(p);
            let (pz, py, px) = (grid_z(p) - sz, grid_y(p) - sy, grid_x(p) - sx);
            lemma_local_unique(pz, py, px, z, y, x);
            assert(p == dst);
        }
    }
    assert(a =~= b);
}

/// The scan index `z * 1024 + y * 32 + x` determines its coordinates.
proof fn lemma_local_unique(z1: int, y1: int, x1: int, z2: int, y2: int, x2: int)
    requires
        0 <= z1 < 32,
        0 <= y1 < 32,
        0 <= x1 < 32,
        0 <= z2 < 32,
        0 <= y2 < 32,
        0 <= x2 < 32,
        z1 * 1024 + y1 * 32 + x1 == z2 * 1024 + y2 * 32 + x2,
    ensures
        z1 == z2 && y1 == y2 && x1 == x2,
{
    let k = z1 * 1024 + y1 * 32 + x1;
    vstd::arithmetic::div_mod::lemma_fundamental_div_mod_converse(k, 32, z1 * 32 + y1, x1);
    vstd::arithmetic::div_mod::lemma_fundamental_div_mod_converse(k, 32, z2 * 32 + y2, x2);
    vstd::arithmetic::div_mod::lemma_fundamental_div_mod_converse(z1 * 32 + y1, 32, z1, y1);
    vstd::arithmetic::div_mod::lemma_fundamental_div_mod_converse(z2 * 32 + y2, 32, z2, y2);
}

/// Copy row `(z, y)` of the `i`-th packed chunk into the atlas slot of
/// `chunk`.
#[verifier::spinoff_prover]
fn scatter_row(
    voxels_cpu: &mut Vec<u32>,
    packed: &[u32],
    dst_idx: usize,
    src_idx: usize,
    Ghost(prev): Ghost<Seq<u32>>,
    Ghost(chunk): Ghost<[i32; 3]>,
    Ghost(i): Ghost<int>,
    Ghost(z): Ghost<int>,
    Ghost(y): Ghost<int>,
)
    requires
        prev.len() == 134217728,
        0 <= z < 32,
        0 <= y < 32,
        0 <= i,
        (i + 1) * CHUNK_VOL <= packed@.len(),
        dst_idx == (slot_start(chunk[2]) + z) * 262144 + (slot_start(chunk[1]) + y) * 512 + slot_start(chunk[0]),
        src_idx == i * CHUNK_VOL + z * 1024 + y * 32,
        old(voxels_cpu)@ == scatter_partial(prev, chunk, i, packed@, z * 1024 + y * 32),
    ensures
        final(voxels_cpu)@ == scatter_partial(prev, chunk, i, packed@, z * 1024 + y * 32 + 32),
{
    let cs: usize = 32;
    let mut x: usize = 0;
    while x < cs
        invariant
            cs == 32,
            x <= 32,
            prev.len() == 134217728,
            0 <= z < 32,
            0 <= y < 32,
            0 <= i,
            (i + 1) * CHUNK_VOL <= packed@.len(),
            dst_idx == (slot_start(chunk[2]) + z) * 262144 + (slot_start(chunk[1]) + y) * 512 + slot_start(chunk[0]),
            src_idx == i * CHUNK_VOL + z * 1024 + y * 32,
            voxels_cpu@ == scatter_partial(prev, chunk, i, packed@, z * 1024 + y * 32 + x),
        decreases 32 - x,
    {
        proof {
            lemma_scatter_step(prev, chunk, i, packed@, z, y, x as int);
            lemma_scatter_partial_basics(prev, chunk, i, packed@, z * 1024 + y * 32 + x);
        }
        let v = packed[src_idx + x];
        voxels_cpu[dst_idx + x] = v;
        x = x + 1;
    }
}

/// Write packed chunk copies back into the flat CPU copy of the atlas:
/// `packed` holds, one after another, the 32^3 voxels (x fastest) of each
/// chunk of `chunks`, and each lands in the wrapped atlas slot of its chunk,
/// in order.
pub fn scatter_packed_chunks(voxels_cpu: &mut Vec<u32>, chunks: &[[i32; 3]], packed: &[u32])
    requires
        old(voxels_cpu)@.len() == 134217728,
        chunks@.len() * CHUNK_VOL <= packed@.len(),
    ensures
        final(voxels_cpu)@ == scatter(old(voxels_cpu)@, chunks@, packed@, chunks@.len() as int),
{
    let grid_size: usize = 512;
    let cs: usize = 32;
    let chunk_vol: usize = CHUNK_VOL;
    let mut i: usize = 0;
    while i < chunks.len()
        invariant
            i <= chunks@.len(),
            grid_size == 512,
            cs == 32,
            chunk_vol == CHUNK_VOL,
            chunks@.len() * CHUNK_VOL <= packed@.len(),
            voxels_cpu@.len() == 134217728,
            voxels_cpu@ == scatter(old(voxels_cpu)@, chunks@, packed@, i as int),
        decreases chunks@.len() - i,
    {
        let chunk = chunks[i];
        let start_x = (wrap_chunk(chunk[0]) as usize) * cs;
        let start_y = (wrap_chunk(chunk[1]) as usize) * cs;
        let start_z = (wrap_chunk(chunk[2]) as usize) * cs;
        let packed_len = packed.len();
        proof {
            vstd::arithmetic::mul::lemma_mul_inequality(i as int + 1, chunks@.len() as int, CHUNK_VOL as int);
            assert(i * CHUNK_VOL + CHUNK_VOL == (i + 1) * CHUNK_VOL) by (nonlinear_arith);
            assert(packed_len == packed@.len());
        }
        let pack_offset = i * chunk_vol;
        let ghost prev = voxels_cpu@;
        proof {
            lemma_scatter_partial_basics(prev, chunk, i as int, packed@, 0);
        }
        let mut z: usize = 0;
        while z < cs
            invariant
                i < chunks@.len(),
                chunk == chunks@[i as int],
                grid_size == 512,
                cs == 32,
                chunk_vol == CHUNK_VOL,
                start_x == slot_start(chunk[0]),
                start_y == slot_start(chunk[1]),
                start_z == slot_start(chunk[2]),
                pack_offset == i * CHUNK_VOL,
                (i + 1) * CHUNK_VOL <= packed@.len(),
                prev.len() == 134217728,
                z <= 32,
                voxels_cpu@ == scatter_partial(prev, chunk, i as int, packed@, z * 1024),
            decreases 32 - z,
        {
            let mut y: usize = 0;
            while y < cs
                invariant
                    i < chunks@.len(),
                    grid_size == 512,
                    cs == 32,
                    start_x == slot_start(chunk[0]),
                    start_y == slot_start(chunk[1]),
                    start_z == slot_start(chunk[2]),
                    pack_offset == i * CHUNK_VOL,
                    (i + 1) * CHUNK_VOL <= packed@.len(),
                    prev.len() == 134217728,
                    z < 32,
                    y <= 32,
                    voxels_cpu@ == scatter_partial(prev, chunk, i as int, packed@, z * 1024 + y * 32),
                decreases 32 - y,
            {
                let dst_idx = (start_z + z) * grid_size * grid_size + (start_y + y) * grid_size + start_x;
                let src_idx = pack_offset + z * cs * cs + y * cs;
                scatter_row(voxels_cpu, packed, dst_idx, src_idx, Ghost(prev), Ghost(chunk), Ghost(i as int), Ghost(z as int), Ghost(y as int));
                y = y + 1;
            }
            z = z + 1;
        }
        proof {
            lemma_scatter_partial_basics(prev, chunk, i as int, packed@, 32768);
        }
        i = i + 1;
    }
}

/// Filtering keeps a sequence free of duplicates.
proof fn lemma_filter_distinct(s: Seq<[i32; 3]>, p: spec_fn([i32; 3]) -> bool)
    requires
        s.no_duplicates(),
    ensures
        s.filter(p).no_duplicates(),
    decreases s.len(),
{
    reveal(Seq::filter);
    if s.len() > 0 {
        let t = s.drop_last();
        assert(t.no_duplicates());
        lemma_filter_distinct(t, p);
        if p(s.last()) {
            if t.filter(p).contains(s.last()) {
                t.lemma_filter_contains_rev(p, s.last());
                let k = choose|k: int| 0 <= k < t.len() && t[k] == s.last();
                assert(s[k] == s[s.len() - 1]);
            }
            let f = t.filter(p).push(s.last());
            assert forall|i: int, j: int| 0 <= i < j < f.len() implies f[i] != f[j] by {
                if j == f.len() - 1 {
                    assert(t.filter(p).contains(t.filter(p)[i]));
                }
            }
        }
    }
}

/// The chunks that enter view are distinct: each is streamed in, and
/// queued for readback, once.
pub proof fn lemma_entering_distinct(old_origin: [i32; 3], new_origin: [i32; 3])
    ensures
        spec_entering(old_origin, new_origin).no_duplicates(),
{
    let lo = spec_chunk_min(new_origin);
    let cands = atlas_chunks(lo);
    assert forall|i: int, j: int| 0 <= i < cands.len() && 0 <= j < cands.len() && i != j implies cands[i] != cands[j] by {
        if cands[i] == cands[j] {
            assert(cands[i][0] == cands[j][0] && cands[i][1] == cands[j][1] && cands[i][2] == cands[j][2]);
            vstd::arithmetic::div_mod::lemma_fundamental_div_mod(i, 16);
            vstd::arithmetic::div_mod::lemma_fundamental_div_mod(j, 16);
            vstd::arithmetic::div_mod::lemma_fundamental_div_mod(i / 16, 16);
            vstd::arithmetic::div_mod::lemma_fundamental_div_mod(j / 16, 16);
            vstd::arithmetic::div_mod::lemma_div_denominator(i, 16, 16);
            vstd::arithmetic::div_mod::lemma_div_denominator(j, 16, 16);
            vstd::arithmetic::div_mod::lemma_div_pos_is_pos(i, 256);
            vstd::arithmetic::div_mod::lemma_div_pos_is_pos(j, 256);
            vstd::arithmetic::div_mod::lemma_div_is_ordered(i, 4095, 256);
            vstd::arithmetic::div_mod::lemma_div_is_ordered(j, 4095, 256);
        }
    }
    let old_lo = spec_chunk_min(old_origin);
    lemma_filter_distinct(cands, |c: [i32; 3]| !in_atlas(old_lo, c));
}

/// A readback batch and the chunks left dirty hold each dirty chunk exactly
/// once: deduplication drops no chunk and repeats none.
pub proof fn lemma_dedup_exact(s: Seq<[i32; 3]>)
    ensures
        forall|c: [i32; 3]| #[trigger] dedup(s).contains(c) <==> s.contains(c),
        forall|i: int, j: int| 0 <= i < j < dedup(s).len() ==> dedup(s)[i] != dedup(s)[j],
    decreases s.len(),
{
    broadcast use vstd::seq_lib::lemma_seq_contains_after_push;
    if s.len() > 0 {
        let t = s.drop_last();
        let l = s.last();
        lemma_dedup_exact(t);
        assert(s =~= t.push(l));
        if !dedup(t).contains(l) {
            assert forall|i: int, j: int| 0 <= i < j < dedup(s).len() implies dedup(s)[i] != dedup(s)[j] by {
                if j == dedup(t).len() {
                    assert(dedup(t)[i] != l);
                }
            }
        }
    }
}

/// Chunk `c` is in the cube starting at `lo` exactly when the scan of that
/// cube lists it.
proof fn lemma_atlas_chunks_contains(lo: [i32; 3], c: [i32; 3])
    requires
        lo[0] + 16 <= i32::MAX,
        lo[1] + 16 <= i32::MAX,
        lo[2] + 16 <= i32::MAX,
    ensures
        atlas_chunks(lo).contains(c) <==> in_atlas(lo, c),
{
    if in_atlas(lo, c) {
        let (a, b, d) = ((c[2] - lo[2]) as int, (c[1] - lo[1]) as int, (c[0] - lo[0]) as int);
        lemma_scan16(a, b, d);
        let k = a * 256 + b * 16 + d;
        assert(atlas_chunks(lo)[k] =~= c);
    }
    if atlas_chunks(lo).contains(c) {
        let k = choose|k: int| 0 <= k < 4096 && atlas_chunks(lo)[k] == c;
        vstd::arithmetic::div_mod::lemma_div_pos_is_pos(k, 16);
        vstd::arithmetic::div_mod::lemma_div_is_ordered(k, 4095, 256);
    }
}

/// When the atlas moves, the chunks it streams in are exactly the chunks of
/// the new atlas that the old atlas did not hold.
pub proof fn lemma_entering_exact(old_origin: [i32; 3], new_origin: [i32; 3], c: [i32; 3])
    ensures
        spec_entering(old_origin, new_origin).contains(c) <==> in_atlas(spec_chunk_min(new_origin), c)
            && !in_atlas(spec_chunk_min(old_origin), c),
{
    let new_lo = spec_chunk_min(new_origin);
    let old_lo = spec_chunk_min(old_origin);
    let pred = |d: [i32; 3]| !in_atlas(old_lo, d);
    broadcast use vstd::seq_lib::group_filter_ensures;
    assert forall|k: int| 0 <= k < 3 implies #[trigger] new_lo[k] + 16 <= i32::MAX by {
        vstd::arithmetic::div_mod::lemma_div_is_ordered(new_origin[k] as int, i32::MAX as int, 32);
    }
    lemma_atlas_chunks_contains(new_lo, c);
    let cands = atlas_chunks(new_lo);
    if cands.filter(pred).contains(c) {
        let k = choose|k: int| 0 <= k < cands.filter(pred).len() && cands.filter(pred)[k] == c;
        assert(pred(cands.filter(pred)[k]));
        cands.lemma_filter_contains_rev(pred, c);
    }
    if in_atlas(new_lo, c) && !in_atlas(old_lo, c) {
        let k = choose|k: int| 0 <= k < cands.len() && cands[k] == c;
        assert(cands.filter(pred).contains(cands[k]));
    }
}

/// The atlas is centered on the player: its origin is a chunk boundary, and
/// the player lies in the chunk that starts 256 voxels (8 chunks) past it.
pub proof fn lemma_origin_centers_player(p: i32)
    requires
        i32::MIN + 256 <= p,
    ensures
        p - 288 < spec_origin_axis(p) <= p - 256,
        spec_origin_axis(p) % 32 == 0,
{
    let x = p - 256;
    vstd::arithmetic::div_mod::lemma_fundamental_div_mod(x, 32);
    vstd::arithmetic::div_mod::lemma_mod_multiples_basic(spec_floor_div(x as int, 32), 32);
}

proof fn lemma_take_bound(a: int, n: int, m: int)
    requires
        0 <= a < n,
        m >= 0,
    ensures
        a * m + m <= n * m,
{
    assert(a * m + m <= n * m) by (nonlinear_arith)
        requires
            0 <= a < n,
            m >= 0,
    ;
}

/// Index arithmetic of the box scan `z * (nx * ny) + y * nx + x`.
proof fn lemma_box_index(z: int, y: int, x: int, nx: int, ny: int, nz: int)
    requires
        0 <= z < nz,
        0 <= y < ny,
        0 <= x < nx,
    ensures
        ({
            let k = z * (nx * ny) + y * nx + x;
            &&& 0 <= k < nx * ny * nz
            &&& k % nx == x
            &&& (k / nx) % ny == y
            &&& k / (nx * ny) == z
        }),
{
    let k = z * (nx * ny) + y * nx + x;
    assert(k == (z * ny + y) * nx + x) by (nonlinear_arith)
        requires
            k == z * (nx * ny) + y * nx + x,
    ;
    vstd::arithmetic::div_mod::lemma_fundamental_div_mod_converse(k, nx, z * ny + y, x);
    vstd::arithmetic::div_mod::lemma_fundamental_div_mod_converse(z * ny + y, ny, z, y);
    assert(0 <= y * nx + x < nx * ny) by (nonlinear_arith)
        requires
            0 <= y < ny,
            0 <= x < nx,
    ;
    vstd::arithmetic::div_mod::lemma_fundamental_div_mod_converse(k, nx * ny, z, y * nx + x);
    assert(0 <= k < nx * ny * nz) by (nonlinear_arith)
        requires
            k == z * (nx * ny) + (y * nx + x),
            0 <= y * nx + x < nx * ny,
            0 <= z < nz,
    ;
}

} // verus!
