//! Sub-pixel jitter sequencing for temporal anti-aliasing.
//!
//! The jitter offsets themselves are the first entries of the Halton(2, 3)
//! sequence; this type decides which entry comes next.
use vstd::prelude::*;

verus! {

/// Number of Halton(2, 3) samples available.
pub const HALTON_LEN: usize = 8;

/// Cycles through the first `len` samples of the Halton sequence.
pub struct HaltonJitter {
    len: usize,
    index: usize,
}

impl HaltonJitter {
    /// Number of samples in the cycle.
    pub closed spec fn count(&self) -> nat {
        self.len as nat
    }

    /// Sample returned by the next call of [`HaltonJitter::next`].
    pub closed spec fn position(&self) -> nat {
        self.index as nat
    }

    pub closed spec fn wf(&self) -> bool {
        4 <= self.len <= HALTON_LEN && self.index < self.len
    }

    /// A generator over the first `sample_count` samples, clamped to `4..=8`,
    /// starting at sample 0.
    pub fn new(sample_count: usize) -> (j: Self)
        ensures
            j.wf(),
            j.count() == if sample_count < 4 {
                4
            } else if sample_count > HALTON_LEN {
                HALTON_LEN as int
            } else {
                sample_count as int
            },
            j.position() == 0,
    {
        let count = if sample_count < 4 {
            4
        } else if sample_count > HALTON_LEN {
            HALTON_LEN
        } else {
            sample_count
        };
        HaltonJitter { len: count, index: 0 }
    }

    /// Index of the current sample; the cycle then moves on, wrapping to 0
    /// after the last sample.
    pub fn next(&mut self) -> (r: usize)
        requires
            old(self).wf(),
        ensures
            final(self).wf(),
            r == old(self).position(),
            final(self).count() == old(self).count(),
            final(self).position() == (old(self).position() + 1) % old(self).count(),
    {
        let r = self.index;
        self.index = (self.index + 1) % self.len;
        r
    }

    /// Restart the cycle at sample 0.
    pub fn reset(&mut self)
        requires
            old(self).wf(),
        ensures
            final(self).wf(),
            final(self).position() == 0,
            final(self).count() == old(self).count(),
    {
        self.index = 0;
    }

    /// Index of the current sample, without advancing.
    pub fn current(&self) -> (r: usize)
        requires
            self.wf(),
        ensures
            r == self.position(),
            r < self.count(),
    {
        self.index
    }

    /// Number of samples in the cycle.
    pub fn len(&self) -> (r: usize)
        requires
            self.wf(),
        ensures
            r == self.count(),
            4 <= r <= HALTON_LEN,
    {
        self.len
    }

    /// Whether the cycle holds no sample (never, once constructed).
    pub fn is_empty(&self) -> (r: bool)
        requires
            self.wf(),
        ensures
            r == (self.count() == 0),
            !r,
    {
        self.len == 0
    }
}

/// After `len` steps the cycle is back where it started.
pub proof fn lemma_jitter_period(start: nat, count: nat)
    requires
        count > 0,
        start < count,
    ensures
        (start + count) % count == start,
{
    vstd::arithmetic::div_mod::lemma_mod_add_multiples_vanish(start as int, count as int);
    vstd::arithmetic::div_mod::lemma_small_mod(start, count);
}

/// Within one cycle the samples returned are pairwise distinct: from
/// position `start`, the `k1`-th and `k2`-th calls return different samples.
pub proof fn lemma_jitter_distinct(start: int, count: int, k1: int, k2: int)
    requires
        0 <= start,
        count > 0,
        0 <= k1 < k2 < count,
    ensures
        (start + k1) % count != (start + k2) % count,
{
    if (start + k1) % count == (start + k2) % count {
        vstd::arithmetic::div_mod::lemma_mod_equivalence(start + k2, start + k1, count);
        vstd::arithmetic::div_mod::lemma_small_mod((k2 - k1) as nat, count as nat);
    }
}

/// Stepping `k` times from position `p`, one call of `next` at a time,
/// lands on `(p + k) % count`.
pub proof fn lemma_jitter_steps(p: int, count: int, k: int)
    requires
        0 <= p,
        0 <= k,
        count > 0,
    ensures
        ((p + k) % count + 1) % count == (p + k + 1) % count,
{
    vstd::arithmetic::div_mod::lemma_add_mod_noop(p + k, 1, count);
    if count > 1 {
        vstd::arithmetic::div_mod::lemma_small_mod(1, count as nat);
    } else {
        assert(1int % 1 == 0);
    }
}

impl HaltonJitter {
    /// A well-formed cycle holds 4 to 8 samples and its position is one of
    /// them.
    pub proof fn lemma_bounds(&self)
        requires
            self.wf(),
        ensures
            4 <= self.count() <= HALTON_LEN,
            self.position() < self.count(),
    {
    }
}

/// The jitter cycles with period `len()`: from any position of a
/// well-formed generator, `len()` calls of `next` come back to it, and the
/// samples they return are pairwise distinct.
pub proof fn lemma_jitter_cycle(j: HaltonJitter, k1: int, k2: int)
    requires
        j.wf(),
        0 <= k1 < k2 < j.count(),
    ensures
        (j.position() + j.count()) % j.count() == j.position(),
        (j.position() + k1) % (j.count() as int) != (j.position() + k2) % (j.count() as int),
{
    j.lemma_bounds();
    lemma_jitter_period(j.position(), j.count());
    lemma_jitter_distinct(j.position() as int, j.count() as int, k1, k2);
}

/// Resetting restarts the cycle of the same length at its first sample,
/// whatever came before: the reset generator agrees with a fresh one.
pub proof fn lemma_reset_restarts(fresh: HaltonJitter, used: HaltonJitter)
    requires
        fresh.wf(),
        used.wf(),
        fresh.position() == 0,
        used.position() == 0,
        used.count() == fresh.count(),
    ensures
        used.position() == fresh.position(),
        used.count() == fresh.count(),
{
}

} // verus!
