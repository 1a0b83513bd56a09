//! Bookkeeping of the light propagation pass: when it must run, and which
//! words of the dirty-chunk bitmap an edit marks.
use vstd::prelude::*;

use crate::world::{floor_div, spec_floor_div};

verus! {

/// Why the light map needs recomputation.
#[derive(Debug, Clone, Copy, PartialEq, Eq, Structural)]
pub enum LightDirtyReason {
    /// Initial load or chunk streaming.
    ChunkLoaded,
    /// A block was placed or removed at this world position.
    BlockEdited { pos_x: i32, pos_y: i32, pos_z: i32 },
    /// Sun angle or sky color changed.
    TimeOfDay,
}

/// Propagation iterations run per pass unless set otherwise.
pub const DEFAULT_PROPAGATION_ITERATIONS: u32 = 20;

/// Light chunks per axis of the toroidal light grid (64 chunks of 8 voxels).
pub const LIGHT_CHUNKS_PER_AXIS: u32 = 64;

/// Words of the dirty-chunk bitmap (one bit per light chunk, 64^3 bits).
pub const DIRTY_WORDS: u32 = 8192;

/// What one propagation pass must do.
#[derive(Debug, Clone, Copy, PartialEq, Eq, Structural)]
pub struct LightPass {
    /// Propagation iterations to dispatch.
    pub iterations: u32,
    /// Whether the dirty-chunk bitmap is cleared after the pass (not after
    /// the first pass, which keeps the initial all-dirty marks).
    pub clear_dirty_chunks: bool,
}

/// Scheduling state of the light propagation pass.
pub struct LightPropagator {
    first_frame: bool,
    dirty: bool,
    propagation_iterations: u32,
}

impl LightPropagator {
    /// Whether the light map awaits a recomputation.
    pub closed spec fn is_dirty(&self) -> bool {
        self.dirty
    }

    /// Whether no pass has run yet.
    pub closed spec fn first_pending(&self) -> bool {
        self.first_frame
    }

    /// Propagation iterations of a pass started by [`Self::execute_if_dirty`].
    pub closed spec fn iterations(&self) -> u32 {
        self.propagation_iterations
    }

    /// A propagator that runs on the first frame, with the default
    /// iteration count.
    pub fn new() -> (l: Self)
        ensures
            l.first_pending(),
            l.is_dirty(),
            l.iterations() == DEFAULT_PROPAGATION_ITERATIONS,
    {
        LightPropagator { first_frame: true, dirty: true, propagation_iterations: DEFAULT_PROPAGATION_ITERATIONS }
    }

    /// Mark the light map as needing recomputation.
    pub fn mark_dirty(&mut self, reason: LightDirtyReason)
        ensures
            final(self).is_dirty(),
            final(self).first_pending() == old(self).first_pending(),
            final(self).iterations() == old(self).iterations(),
    {
        self.dirty = true;
    }

    /// Whether the light map awaits a recomputation.
    pub fn needs_update(&self) -> (r: bool)
        ensures
            r == self.is_dirty(),
    {
        self.dirty
    }

    /// Set the iteration count of later passes.
    pub fn set_iterations(&mut self, iterations: u32)
        ensures
            final(self).iterations() == iterations,
            final(self).is_dirty() == old(self).is_dirty(),
            final(self).first_pending() == old(self).first_pending(),
    {
        self.propagation_iterations = iterations;
    }

    /// Plan a pass of `iterations` propagation steps; the first pass keeps
    /// the dirty-chunk bitmap, later ones clear it.
    pub fn execute(&mut self, iterations: u32) -> (r: LightPass)
        ensures
            r.iterations == iterations,
            r.clear_dirty_chunks == !old(self).first_pending(),
            !final(self).first_pending(),
            final(self).is_dirty() == old(self).is_dirty(),
            final(self).iterations() == old(self).iterations(),
    {
        let clear = if self.first_frame {
            self.first_frame = false;
            false
        } else {
            true
        };
        LightPass { iterations, clear_dirty_chunks: clear }
    }

    /// Plan a pass only when the light map is dirty (`None` otherwise, with
    /// nothing changed); the map is then clean.
    pub fn execute_if_dirty(&mut self) -> (r: Option<LightPass>)
        ensures
            r is None <==> !old(self).is_dirty(),
            r is None ==> *final(self) == *old(self),
            r matches Some(p) ==> {
                &&& p.iterations == old(self).iterations()
                &&& p.clear_dirty_chunks == !old(self).first_pending()
                &&& !final(self).is_dirty()
                &&& !final(self).first_pending()
                &&& final(self).iterations() == old(self).iterations()
            },
    {
        if !self.dirty {
            return None;
        }
        let iters = self.propagation_iterations;
        let pass = self.execute(iters);
        self.dirty = false;
        Some(pass)
    }
}

/// `v` wrapped into `0..64`.
pub open spec fn wrap64(v: int) -> int {
    v % 64
}

/// Wrapped light-chunk coordinate reached from chunk `base` by offset `x`.
pub open spec fn offset_chunk(base: int, x: int) -> int {
    wrap64(base + x)
}

/// Whether some offset in `-r..=r` from chunk `base` wraps to coordinate `c`.
pub open spec fn axis_hit(c: int, base: int, r: int) -> bool {
    exists|x: int| -r <= x <= r && #[trigger] offset_chunk(base, x) == c
}

/// Light chunks within `ceil(radius / 8)` chunks of the chunk holding
/// `pos`, per axis and wrapped around the 64-chunk grid: whether the chunk
/// with bitmap index `idx` (x fastest) is one of them.
pub open spec fn chunk_hit(pos: [i32; 3], radius: i32, idx: int) -> bool {
    let r = ceil_div8(radius as int);
    &&& axis_hit(idx % 64, spec_floor_div(pos[0] as int, 8), r)
    &&& axis_hit((idx / 64) % 64, spec_floor_div(pos[1] as int, 8), r)
    &&& axis_hit(idx / 4096, spec_floor_div(pos[2] as int, 8), r)
}

/// `a / 8` rounded up.
pub open spec fn ceil_div8(a: int) -> int {
    -((-a) / 8)
}

/// The low `n` bits of the dirty mask of bitmap word `w`.
pub open spec fn mask_prefix(pos: [i32; 3], radius: i32, w: int, n: int) -> u32
    decreases n,
{
    if n <= 0 {
        0
    } else {
        let m = mask_prefix(pos, radius, w, n - 1);
        if chunk_hit(pos, radius, w * 32 + n - 1) {
            m | (1u32 << ((n - 1) as u32))
        } else {
            m
        }
    }
}

/// Dirty mask of bitmap word `w`: bit `b` marks light chunk `32 w + b`.
pub open spec fn word_mask(pos: [i32; 3], radius: i32, w: int) -> u32 {
    mask_prefix(pos, radius, w, 32)
}

/// Every bitmap word with its dirty mask, in word order.
pub open spec fn word_masks(pos: [i32; 3], radius: i32) -> Seq<(u32, u32)> {
    Seq::new(DIRTY_WORDS as nat, |w: int| (w as u32, word_mask(pos, radius, w)))
}

/// The words that an edit at `pos` with influence `radius` marks, with
/// their masks, in word order.
pub open spec fn spec_dirty_words(pos: [i32; 3], radius: i32) -> Seq<(u32, u32)> {
    word_masks(pos, radius).filter(|e: (u32, u32)| e.1 != 0)
}

/// Which wrapped coordinates along one axis lie within `r` chunks of
/// `base`: entry `c` tells whether coordinate `c` is reached.
fn axis_hits(base: i32, r: i64) -> (h: Vec<bool>)
    requires
        i32::MIN + 64 <= base <= i32::MAX - 64,
    ensures
        h@.len() == 64,
        forall|c: int| 0 <= c < 64 ==> #[trigger] h@[c] == axis_hit(c, base as int, r as int),
{
    let mut h: Vec<bool> = Vec::new();
    let mut k: usize = 0;
    while k < 64
        invariant
            k <= 64,
            h@.len() == k,
            forall|c: int| 0 <= c < k ==> !#[trigger] h@[c],
        decreases 64 - k,
    {
        h.push(false);
        k = k + 1;
    }
    // Beyond 32 every coordinate is reached: 65 consecutive offsets cover all 64.
    let span: i32 = if r > 32 {
        32
    } else if r < -1 {
        -1
    } else {
        r as i32
    };
    let mut x: i32 = -span;
    while x <= span
        invariant
            -32 <= span <= 32,
            -span <= x <= span + 1 || (span == -1 && x == 1),
            i32::MIN + 64 <= base <= i32::MAX - 64,
            h@.len() == 64,
            forall|c: int|
                0 <= c < 64 ==> (#[trigger] h@[c] <==> exists|y: int| -span <= y < x && #[trigger] offset_chunk(base as int, y) == c),
        decreases span + 1 - x,
    {
        let cw = ((base + x) % 64 + 64) % 64;
        assert(cw == offset_chunk(base as int, x as int));
        let ghost old_h = h@;
        h.set(cw as usize, true);
        assert forall|c: int| 0 <= c < 64 implies (#[trigger] h@[c] <==> exists|y: int| -span <= y < x + 1 && #[trigger] offset_chunk(base as int, y) == c) by {
            if c == cw {
                assert(offset_chunk(base as int, x as int) == c);
            } else {
                if exists|y: int| -span <= y < x + 1 && #[trigger] offset_chunk(base as int, y) == c {
                    let y = choose|y: int| -span <= y < x + 1 && #[trigger] offset_chunk(base as int, y) == c;
                    assert(y != x);
                    assert(old_h[c]);
                }
            }
        }
        x = x + 1;
    }
    proof {
        assert forall|c: int| 0 <= c < 64 implies #[trigger] h@[c] == axis_hit(c, base as int, r as int) by {
            if r > 32 {
                let y = wrap64(c - base + 32) - 32;
                vstd::arithmetic::div_mod::lemma_fundamental_div_mod(c - base + 32, 64);
                vstd::arithmetic::div_mod::lemma_fundamental_div_mod(base + y, 64);
                assert(base + y == c + 64 * (-((c - base + 32) / 64)));
                lemma_wrap_shift(c, -((c - base + 32) / 64));
                assert(offset_chunk(base as int, y) == c);
                assert(-span <= y < x);
            }
            if axis_hit(c, base as int, r as int) && r <= 32 {
                let y = choose|y: int| -r <= y <= r && #[trigger] offset_chunk(base as int, y) == c;
                assert(-span <= y < x);
            }
        }
    }
    h
}

/// `c + 64 k` wraps back to `c` for `c` in `0..64`.
proof fn lemma_wrap_shift(c: int, k: int)
    requires
        0 <= c < 64,
    ensures
        wrap64(c + 64 * k) == c,
{
    vstd::arithmetic::div_mod::lemma_fundamental_div_mod_converse(c + 64 * k, 64, k, c);
}

impl LightPropagator {
    /// Mark the light map dirty after an edit at world position `pos` and
    /// return the dirty-chunk bitmap words to write: every light chunk
    /// within `ceil(radius / 8)` chunks of the edited chunk along each axis,
    /// wrapped around the 64-chunk grid, is marked; each word carrying a
    /// mark is returned once, with its whole mask, in word order.
    pub fn mark_dirty_radius(&mut self, pos: [i32; 3], radius: i32) -> (r: Vec<(u32, u32)>)
        ensures
            r@ == spec_dirty_words(pos, radius),
            final(self).is_dirty(),
            final(self).first_pending() == old(self).first_pending(),
            final(self).iterations() == old(self).iterations(),
    {
        self.dirty = true;
        let bx = floor_div(pos[0], 8);
        let by = floor_div(pos[1], 8);
        let bz = floor_div(pos[2], 8);
        proof {
            assert forall|k: int| 0 <= k < 3 implies i32::MIN / 8 <= #[trigger] spec_floor_div(pos[k] as int, 8) <= i32::MAX / 8 by {
                vstd::arithmetic::div_mod::lemma_div_is_ordered(pos[k] as int, i32::MAX as int, 8);
                vstd::arithmetic::div_mod::lemma_div_is_ordered(i32::MIN as int, pos[k] as int, 8);
            }
        }
        // The ceiling of radius / 8, exactly, in integers.
        let r64 = radius as i64;
        let ch_rad: i64 = if r64 >= 0 {
            (r64 + 7) / 8
        } else {
            -((-r64) / 8)
        };
        proof {
            assert(ch_rad == ceil_div8(radius as int)) by {
                vstd::arithmetic::div_mod::lemma_fundamental_div_mod(-(r64 as int), 8);
                vstd::arithmetic::div_mod::lemma_fundamental_div_mod(r64 + 7, 8);
            }
        }
        let hx = axis_hits(bx, ch_rad);
        let hy = axis_hits(by, ch_rad);
        let hz = axis_hits(bz, ch_rad);
        let ghost words = word_masks(pos, radius);
        let ghost keep = |e: (u32, u32)| e.1 != 0;
        let mut out: Vec<(u32, u32)> = Vec::new();
        let mut w: u32 = 0;
        while w < DIRTY_WORDS
            invariant
                w <= DIRTY_WORDS,
                hx@.len() == 64 && hy@.len() == 64 && hz@.len() == 64,
                forall|c: int| 0 <= c < 64 ==> #[trigger] hx@[c] == axis_hit(c, bx as int, ceil_div8(radius as int)),
                forall|c: int| 0 <= c < 64 ==> #[trigger] hy@[c] == axis_hit(c, by as int, ceil_div8(radius as int)),
                forall|c: int| 0 <= c < 64 ==> #[trigger] hz@[c] == axis_hit(c, bz as int, ceil_div8(radius as int)),
                bx == spec_floor_div(pos[0] as int, 8),
                by == spec_floor_div(pos[1] as int, 8),
                bz == spec_floor_div(pos[2] as int, 8),
                words == word_masks(pos, radius),
                keep == (|e: (u32, u32)| e.1 != 0),
                out@ == words.take(w as int).filter(keep),
            decreases DIRTY_WORDS - w,
        {
            let mut m: u32 = 0;
            let mut b: u32 = 0;
            while b < 32
                invariant
                    w < DIRTY_WORDS,
                    b <= 32,
                    hx@.len() == 64 && hy@.len() == 64 && hz@.len() == 64,
                    forall|c: int| 0 <= c < 64 ==> #[trigger] hx@[c] == axis_hit(c, bx as int, ceil_div8(radius as int)),
                    forall|c: int| 0 <= c < 64 ==> #[trigger] hy@[c] == axis_hit(c, by as int, ceil_div8(radius as int)),
                    forall|c: int| 0 <= c < 64 ==> #[trigger] hz@[c] == axis_hit(c, bz as int, ceil_div8(radius as int)),
                    bx == spec_floor_div(pos[0] as int, 8),
                    by == spec_floor_div(pos[1] as int, 8),
                    bz == spec_floor_div(pos[2] as int, 8),
                    m == mask_prefix(pos, radius, w as int, b as int),
                decreases 32 - b,
            {
                let idx = w * 32 + b;
                let cx = idx % 64;
                let cy = (idx / 64) % 64;
                let cz = idx / 4096;
                assert(cz < 64) by {
                    vstd::arithmetic::div_mod::lemma_div_is_ordered(idx as int, 262143, 4096);
                }
                if hx[cx as usize] && hy[cy as usize] && hz[cz as usize] {
                    m = m | (1u32 << b);
                }
                b = b + 1;
            }
            assert(words[w as int] == (w, m));
            assert(words.take(w + 1).drop_last() =~= words.take(w as int));
            assert(words.take(w + 1).last() == (w, m));
            proof {
                reveal(Seq::filter);
            }
            if m != 0 {
                out.push((w, m));
            }
            w = w + 1;
        }
        assert(words.take(DIRTY_WORDS as int) =~= words);
        out
    }
}

/// Bit `b` of the mask of word `w` is set exactly when light chunk
/// `32 w + b` lies in the marked region.
pub proof fn lemma_word_mask_bits(pos: [i32; 3], radius: i32, w: int, b: u32)
    requires
        b < 32,
    ensures
        (word_mask(pos, radius, w) >> b) & 1 == 1 <==> chunk_hit(pos, radius, w * 32 + b),
{
    lemma_mask_prefix_bits(pos, radius, w, 32, b);
}

proof fn lemma_mask_prefix_bits(pos: [i32; 3], radius: i32, w: int, n: int, b: u32)
    requires
        0 <= n <= 32,
        b < 32,
    ensures
        (mask_prefix(pos, radius, w, n) >> b) & 1 == 1 <==> (b < n && chunk_hit(pos, radius, w * 32 + b)),
    decreases n,
{
    if n == 0 {
        assert((0u32 >> b) & 1 == 0) by (bit_vector);
    } else {
        lemma_mask_prefix_bits(pos, radius, w, n - 1, b);
        let m = mask_prefix(pos, radius, w, n - 1);
        let k = (n - 1) as u32;
        assert(((m | (1u32 << k)) >> b) & 1 == (if b == k { 1u32 } else { (m >> b) & 1 })) by (bit_vector)
            requires
                b < 32,
                k < 32,
        ;
    }
}

} // verus!
