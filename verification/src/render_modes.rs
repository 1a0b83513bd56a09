//! Anti-aliasing modes and presets, and the decisions that switch between
//! them.
use vstd::prelude::*;

verus! {

/// Anti-aliasing mode of the final image.
#[derive(Debug, Clone, Copy, PartialEq, Eq, Structural)]
pub enum AaMode {
    /// No anti-aliasing.
    Off,
    Fxaa,
    Smaa,
    Taa,
    TaaThenSmaa,
}

/// The mode after `m` in the cycle off, FXAA, SMAA, TAA, TAA+SMAA, off.
pub open spec fn spec_next_aa_mode(m: AaMode) -> AaMode {
    match m {
        AaMode::Off => AaMode::Fxaa,
        AaMode::Fxaa => AaMode::Smaa,
        AaMode::Smaa => AaMode::Taa,
        AaMode::Taa => AaMode::TaaThenSmaa,
        AaMode::TaaThenSmaa => AaMode::Off,
    }
}

impl AaMode {
    /// The next mode in the cycle off, FXAA, SMAA, TAA, TAA+SMAA, off.
    pub fn next(self) -> (r: AaMode)
        ensures
            r == spec_next_aa_mode(self),
    {
        match self {
            AaMode::Off => AaMode::Fxaa,
            AaMode::Fxaa => AaMode::Smaa,
            AaMode::Smaa => AaMode::Taa,
            AaMode::Taa => AaMode::TaaThenSmaa,
            AaMode::TaaThenSmaa => AaMode::Off,
        }
    }

    /// Whether this mode uses temporal anti-aliasing, and so camera jitter.
    pub fn uses_taa(self) -> (r: bool)
        ensures
            r == (self == AaMode::Taa || self == AaMode::TaaThenSmaa),
    {
        match self {
            AaMode::Taa | AaMode::TaaThenSmaa => true,
            _ => false,
        }
    }
}

/// Cycling through the anti-aliasing modes five times returns to the start,
/// and every mode is visited.
pub proof fn lemma_aa_cycle(m: AaMode)
    ensures
        spec_next_aa_mode(spec_next_aa_mode(spec_next_aa_mode(spec_next_aa_mode(spec_next_aa_mode(m)))))
            == m,
{
}

/// SMAA quality presets.
#[derive(Debug, Clone, Copy, PartialEq, Eq, Structural)]
pub enum SmaaPreset {
    /// 60% quality, fastest.
    Low,
    /// 80% quality, balanced.
    Medium,
    /// 95% quality (default).
    High,
    /// 99% quality.
    Ultra,
    /// A configuration matching no preset.
    Custom,
}

/// Maximum edge search steps of an SMAA preset (the integer part of its
/// configuration).
pub open spec fn spec_smaa_search_steps(p: SmaaPreset) -> i32 {
    match p {
        SmaaPreset::Low => 4,
        SmaaPreset::Medium => 8,
        SmaaPreset::High => 16,
        SmaaPreset::Ultra => 32,
        SmaaPreset::Custom => 0,
    }
}

impl SmaaPreset {
    /// Maximum edge search steps of this preset. `Custom` has no predefined
    /// configuration.
    pub fn max_search_steps(self) -> (r: i32)
        requires
            self != SmaaPreset::Custom,
        ensures
            r == spec_smaa_search_steps(self),
    {
        match self {
            SmaaPreset::Low => 4,
            SmaaPreset::Medium => 8,
            SmaaPreset::High => 16,
            SmaaPreset::Ultra => 32,
            SmaaPreset::Custom => 0,
        }
    }
}

/// Which SMAA passes reach the screen.
#[derive(Debug, Clone, Copy, PartialEq, Eq, Structural)]
pub enum SmaaStages {
    /// Edge detection only; its output is shown (debug modes 1-3).
    EdgesOnly,
    /// Edge detection and blending weights; the weights are shown (debug
    /// modes 4-8).
    EdgesAndWeights,
    /// The full pipeline with neighborhood blending (normal output).
    Full,
}

/// The SMAA passes to run for `debug_mode`: edges only for modes 1-3,
/// edges and weights for modes 4-8, the full pipeline otherwise.
pub fn smaa_stages(debug_mode: u32) -> (r: SmaaStages)
    ensures
        r == if 1 <= debug_mode <= 3 {
            SmaaStages::EdgesOnly
        } else if 4 <= debug_mode <= 8 {
            SmaaStages::EdgesAndWeights
        } else {
            SmaaStages::Full
        },
{
    if debug_mode >= 1 && debug_mode <= 3 {
        SmaaStages::EdgesOnly
    } else if debug_mode >= 4 && debug_mode <= 8 {
        SmaaStages::EdgesAndWeights
    } else {
        SmaaStages::Full
    }
}

/// TAA quality presets.
#[derive(Debug, Clone, Copy, PartialEq, Eq, Structural)]
pub enum TaaPreset {
    /// Minimal ghosting, more responsive.
    Low,
    Medium,
    /// Better stability, slightly more blur.
    High,
}

/// Flag word the TAA shader reads: bit 0 variance clipping, bit 1 YCoCg
/// neighborhood clamping.
pub fn taa_packed_flags(use_variance_clamp: bool, use_ycocg: bool) -> (r: u32)
    ensures
        r == (if use_variance_clamp { 1u32 } else { 0 }) + (if use_ycocg { 2u32 } else { 0 }),
{
    let mut flags: u32 = 0;
    if use_variance_clamp {
        flags = flags | 1;
    }
    if use_ycocg {
        flags = flags | 2;
    }
    assert((0u32 | 1u32) == 1u32 && (0u32 | 2u32) == 2u32 && (1u32 | 2u32) == 3u32) by (bit_vector);
    flags
}

/// Number of TAA debug visualisation modes (0 is normal output).
pub const TAA_DEBUG_MODES: u32 = 13;

/// Mode 4 shows the raw history buffer.
pub const TAA_DEBUG_RAW_HISTORY: u32 = 4;

/// Outcome of cycling the TAA debug mode.
pub struct TaaDebugStep {
    /// The new debug mode.
    pub mode: u32,
    /// Whether the history buffers must be cleared and the frame count reset.
    pub clear_history: bool,
}

/// Advance the TAA debug mode from `old_mode`, wrapping after the last
/// mode. History is cleared when leaving a debug mode for normal output
/// (debug colors may have polluted it) and when entering the raw-history
/// view (so it starts clean).
pub fn next_taa_debug_mode(old_mode: u32) -> (r: TaaDebugStep)
    ensures
        r.mode == (old_mode as int + 1) % (TAA_DEBUG_MODES as int),
        r.clear_history == ((old_mode != 0 && r.mode == 0) || (old_mode != TAA_DEBUG_RAW_HISTORY && r.mode
            == TAA_DEBUG_RAW_HISTORY)),
{
    let mode = ((old_mode as u64 + 1) % (TAA_DEBUG_MODES as u64)) as u32;
    let mut clear_history = false;
    if old_mode != 0 && mode == 0 {
        clear_history = true;
    }
    if old_mode != TAA_DEBUG_RAW_HISTORY && mode == TAA_DEBUG_RAW_HISTORY {
        clear_history = true;
    }
    TaaDebugStep { mode, clear_history }
}

/// History target a resolve reads when it starts at frame count `f`: the
/// count is advanced first, and targets alternate by its parity.
pub open spec fn resolve_read(f: nat) -> nat {
    (f + 1) % 2
}

/// History target a resolve writes when it starts at frame count `f`.
pub open spec fn resolve_write(f: nat) -> nat {
    (f + 2) % 2
}

/// Targets and history validity of one TAA resolve.
#[derive(Debug, Clone, Copy, PartialEq, Eq, Structural)]
pub struct ResolveTargets {
    /// Target holding the previous frame's output, read as history.
    pub read: usize,
    /// Target this frame's output is written to.
    pub write: usize,
    /// Whether both targets hold resolved frames.
    pub has_valid_history: bool,
}

/// Ping-pong history state of the TAA pass: resolved frames since the
/// history was last invalidated, and the debug visualisation mode.
pub struct TaaHistory {
    frame_count: u64,
    debug_mode: u32,
}

impl TaaHistory {
    pub closed spec fn frames(&self) -> nat {
        self.frame_count as nat
    }

    pub closed spec fn mode(&self) -> u32 {
        self.debug_mode
    }

    /// No resolved frame yet; normal output.
    pub fn new() -> (h: Self)
        ensures
            h.frames() == 0,
            h.mode() == 0,
    {
        TaaHistory { frame_count: 0, debug_mode: 0 }
    }

    /// Target read as history by the next resolve (`targets[frame % 2]`).
    pub fn history_read_index(&self) -> (r: usize)
        ensures
            r == self.frames() % 2,
    {
        if self.frame_count % 2 == 0 {
            0
        } else {
            1
        }
    }

    /// Target written by the next resolve (`targets[(frame + 1) % 2]`);
    /// after a resolve, the target that holds its output.
    pub fn output_write_index(&self) -> (r: usize)
        ensures
            r == (self.frames() + 1) % 2,
    {
        if self.frame_count % 2 == 0 {
            1
        } else {
            0
        }
    }

    /// Frames resolved since the history was last invalidated.
    pub fn frame_count(&self) -> (r: u64)
        ensures
            r == self.frames(),
    {
        self.frame_count
    }

    /// Whether both targets hold resolved frames.
    pub fn has_valid_history(&self) -> (r: bool)
        ensures
            r == (self.frames() >= 2),
    {
        self.frame_count >= 2
    }

    /// Start a resolve: advance the frame count, then read the history
    /// target and write the other one.
    pub fn resolve(&mut self) -> (r: ResolveTargets)
        requires
            old(self).frames() < u64::MAX,
        ensures
            final(self).frames() == old(self).frames() + 1,
            final(self).mode() == old(self).mode(),
            r.read == resolve_read(old(self).frames()),
            r.write == resolve_write(old(self).frames()),
            r.has_valid_history == (final(self).frames() >= 2),
    {
        self.frame_count = self.frame_count + 1;
        let read = self.history_read_index();
        let write = self.output_write_index();
        ResolveTargets { read, write, has_valid_history: self.frame_count >= 2 }
    }

    /// Invalidate the history (after the targets are recreated or cleared).
    pub fn reset_history(&mut self)
        ensures
            final(self).frames() == 0,
            final(self).mode() == old(self).mode(),
    {
        self.frame_count = 0;
    }

    /// Current debug visualisation mode.
    pub fn debug_mode(&self) -> (r: u32)
        ensures
            r == self.mode(),
    {
        self.debug_mode
    }

    /// Set the debug visualisation mode.
    pub fn set_debug_mode(&mut self, mode: u32)
        ensures
            final(self).mode() == mode,
            final(self).frames() == old(self).frames(),
    {
        self.debug_mode = mode;
    }

    /// Advance to the next debug mode as [`next_taa_debug_mode`] says;
    /// when it asks for the history to be cleared, the frame count restarts.
    /// Returns whether the history targets must be cleared.
    pub fn cycle_debug_mode(&mut self) -> (r: bool)
        ensures
            final(self).mode() == (old(self).mode() as int + 1) % (TAA_DEBUG_MODES as int),
            r == ((old(self).mode() != 0 && final(self).mode() == 0) || (old(self).mode()
                != TAA_DEBUG_RAW_HISTORY && final(self).mode() == TAA_DEBUG_RAW_HISTORY)),
            final(self).frames() == if r { 0 } else { old(self).frames() },
    {
        let step = next_taa_debug_mode(self.debug_mode);
        self.debug_mode = step.mode;
        if step.clear_history {
            self.frame_count = 0;
        }
        step.clear_history
    }
}

/// Ping-pong: a resolve writes the target the next resolve reads as
/// history, and never reads the target it writes.
pub proof fn lemma_taa_ping_pong(f: nat)
    ensures
        resolve_write(f) == resolve_read(f + 1),
        resolve_read(f) != resolve_write(f),
{
}

} // verus!
