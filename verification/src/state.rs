//! Per-frame HUD state records and the sliding window of notes near the playhead.
use vstd::prelude::*;
use crate::judgment::JudgmentKind;

verus! {

#[derive(Debug, Clone, Copy)]
pub struct LastJudgment {
    pub kind: JudgmentKind,
    pub age_ms: i32,
    pub column: u8,
    pub hit_offset_ms: Option<i32>,
}

#[derive(Debug, Clone, Copy)]
pub struct HitErrorJudgment {
    pub kind: JudgmentKind,
    pub offset_ms: i32,
    pub age_ms: i32,
}

#[derive(Debug, Clone, Copy)]
pub struct HitErrorWindows {
    pub max: i32,
    pub hit300: i32,
    pub hit200: i32,
    pub hit100: i32,
    pub hit50: i32,
}

#[derive(Debug, Clone, Copy)]
pub struct ComboBreakAnimation {
    pub start_combo: u32,
    pub break_time: i32,
    pub age_ms: i32,
    pub column: u8,
}

#[derive(Debug, Clone, Copy)]
pub struct ComboIncAnimation {
    pub time: i32,
    pub age_ms: i32,
}

#[derive(Debug, Clone, Copy)]
pub struct ComboBurstAnimation {
    pub combo: u32,
    pub time: i32,
    pub age_ms: i32,
}

/// One rendered frame: tightly packed RGBA bytes.
#[derive(Debug)]
pub struct FrameOutput {
    pub data: Vec<u8>,
    pub timestamp: i32,
    pub width: u32,
    pub height: u32,
}

/// Animation timings, in milliseconds unless named otherwise.
pub const SCORE_ANIM_MS: i32 = 300;
pub const LAST_JUDGMENT_AGE_MS: i32 = 500;
pub const COMBO_BREAK_DURATION_MS: i32 = 800;
pub const COMBO_INC_ANIM_MS: i32 = 80;
pub const COMBO_BURST_ANIM_MS: i32 = 1400;
pub const FAIL_ANIM_MS: i32 = 900;
pub const FAIL_HOLD_MS: i32 = 400;
pub const LOOK_AHEAD_BUFFER_MS: i32 = 500;
pub const LOOK_BEHIND_MS: i32 = 400;
pub const WARMUP_FRAMES: usize = 30;

/// The half-open range `[start, end)` of notes that may be on screen.
#[derive(Debug, Clone, Default)]
pub struct NoteWindow {
    pub start: usize,
    pub end: usize,
}

/// Where the window's start stops: the first index from `start` on whose
/// effective end is not before `bound`, or the length.
pub open spec fn advance_start(start: nat, ends: Seq<i32>, bound: int) -> nat
    decreases ends.len() - start,
{
    if start < ends.len() && ends[start as int] < bound {
        advance_start(start + 1, ends, bound)
    } else {
        start
    }
}

/// Where the window's end stops: the first index from `end` on whose start time
/// is after `bound`, or the length.
pub open spec fn advance_end(end: nat, times: Seq<i32>, bound: int) -> nat
    decreases times.len() - end,
{
    if end < times.len() && times[end as int] <= bound {
        advance_end(end + 1, times, bound)
    } else {
        end
    }
}

impl NoteWindow {
    /// Moves the window forward to `time`: drops notes that ended more than
    /// `look_behind` ago and takes in notes starting within `look_ahead`.
    /// Both edges only move forward, so sorted notes are never rescanned.
    pub fn update(
        &mut self,
        time: i32,
        note_times: &[i32],
        effective_ends: &[i32],
        look_ahead: i32,
        look_behind: i32,
    )
        requires
            i32::MIN <= time - look_behind <= i32::MAX,
            i32::MIN <= time + look_ahead <= i32::MAX,
        ensures
            final(self).start == advance_start(
                old(self).start as nat,
                effective_ends@,
                time - look_behind,
            ),
            final(self).end == advance_end(old(self).end as nat, note_times@, time + look_ahead),
    {
        let behind = time - look_behind;
        let ahead = time + look_ahead;
        while self.start < effective_ends.len() && effective_ends[self.start] < behind
            invariant
                advance_start(self.start as nat, effective_ends@, behind as int) == advance_start(
                    old(self).start as nat,
                    effective_ends@,
                    time - look_behind,
                ),
                behind == time - look_behind,
                self.end == old(self).end,
            decreases effective_ends.len() - self.start,
        {
            self.start = self.start + 1;
        }
        while self.end < note_times.len() && note_times[self.end] <= ahead
            invariant
                advance_end(self.end as nat, note_times@, ahead as int) == advance_end(
                    old(self).end as nat,
                    note_times@,
                    time + look_ahead,
                ),
                ahead == time + look_ahead,
                self.start == advance_start(
                    old(self).start as nat,
                    effective_ends@,
                    time - look_behind,
                ),
            decreases note_times.len() - self.end,
        {
            self.end = self.end + 1;
        }
    }

    pub fn range(&self) -> (r: std::ops::Range<usize>)
        ensures
            r.start == self.start,
            r.end == self.end,
    {
        self.start..self.end
    }

    /// Number of notes in the window; an inverted window is empty.
    pub fn len(&self) -> (n: usize)
        ensures
            n == (if self.end >= self.start {
                self.end - self.start
            } else {
                0
            }),
    {
        self.end.saturating_sub(self.start)
    }
}

proof fn lemma_advance_start_bounds(start: nat, ends: Seq<i32>, bound: int)
    ensures
        advance_start(start, ends, bound) >= start,
        start <= ends.len() ==> advance_start(start, ends, bound) <= ends.len(),
        forall|i: int|
            start <= i < advance_start(start, ends, bound) ==> #[trigger] ends[i] < bound,
        advance_start(start, ends, bound) < ends.len() ==> ends[advance_start(
            start,
            ends,
            bound,
        ) as int] >= bound,
    decreases ends.len() - start,
{
    if start < ends.len() && ends[start as int] < bound {
        lemma_advance_start_bounds(start + 1, ends, bound);
    }
}

proof fn lemma_advance_end_bounds(end: nat, times: Seq<i32>, bound: int)
    ensures
        advance_end(end, times, bound) >= end,
        end <= times.len() ==> advance_end(end, times, bound) <= times.len(),
        forall|i: int| end <= i < advance_end(end, times, bound) ==> #[trigger] times[i] <= bound,
        advance_end(end, times, bound) < times.len() ==> times[advance_end(
            end,
            times,
            bound,
        ) as int] > bound,
    decreases times.len() - end,
{
    if end < times.len() && times[end as int] <= bound {
        lemma_advance_end_bounds(end + 1, times, bound);
    }
}

/// The window never moves backwards; every note it passes over ended before the
/// look-behind edge; every note it takes in starts by the look-ahead edge; and
/// it stops at the first note that does not qualify.
pub proof fn lemma_note_window_advances(
    start: nat,
    end: nat,
    time: i32,
    note_times: Seq<i32>,
    effective_ends: Seq<i32>,
    look_ahead: i32,
    look_behind: i32,
)
    ensures
        ({
            let s = advance_start(start, effective_ends, time - look_behind);
            let e = advance_end(end, note_times, time + look_ahead);
            &&& s >= start && e >= end
            &&& forall|i: int| start <= i < s ==> #[trigger] effective_ends[i] < time - look_behind
            &&& forall|i: int| end <= i < e ==> #[trigger] note_times[i] <= time + look_ahead
            &&& s < effective_ends.len() ==> effective_ends[s as int] >= time - look_behind
            &&& e < note_times.len() ==> note_times[e as int] > time + look_ahead
        }),
{
    lemma_advance_start_bounds(start, effective_ends, time - look_behind);
    lemma_advance_end_bounds(end, note_times, time + look_ahead);
}

/// What a failed play holds still while its fail animation runs: the moment
/// it failed, the playfield time the notes stopped at, the notes on screen
/// then and the keys held then. (The animation's progress, a fraction, stays
/// with the caller.)
#[derive(Debug, Clone, Default)]
pub struct FailFreeze {
    pub active: bool,
    pub fail_started_at: i32,
    pub visual_time_ms: i32,
    pub active_note_indices: Vec<usize>,
    pub frozen_key_mask: u32,
}

/// The inputs one frame is drawn from.
#[derive(Debug, Clone)]
pub struct FrameInputs {
    /// The time HUD, key and judgement state is read at.
    pub state_time_ms: i32,
    /// The time note and bar-line positions are computed at.
    pub position_time_ms: i32,
    pub key_mask: u32,
    pub active_indices: Vec<usize>,
}

/// Whether a fail animation is running.
pub open spec fn freeze_active(fail: Option<&FailFreeze>) -> bool {
    match fail {
        Some(f) => f.active,
        None => false,
    }
}

/// The state time, position time, key mask and visible notes of a frame at
/// `timestamp`.
pub open spec fn resolved_inputs(
    timestamp: i32,
    key_mask: u32,
    active_indices: Seq<usize>,
    fail: Option<&FailFreeze>,
) -> (i32, i32, u32, Seq<usize>) {
    if freeze_active(fail) {
        let f = fail.unwrap();
        (f.fail_started_at, f.visual_time_ms, f.frozen_key_mask, f.active_note_indices@)
    } else {
        (timestamp, timestamp, key_mask, active_indices)
    }
}

/// The inputs of a frame at `timestamp`: the live ones, or, while a fail
/// animation runs, the ones frozen at the moment of failing.
pub fn resolve_frame_inputs(
    timestamp: i32,
    key_mask: u32,
    active_indices: &[usize],
    fail: Option<&FailFreeze>,
) -> (r: FrameInputs)
    ensures
        (r.state_time_ms, r.position_time_ms, r.key_mask, r.active_indices@) == resolved_inputs(
            timestamp,
            key_mask,
            active_indices@,
            fail,
        ),
{
    match fail {
        Some(f) if f.active => FrameInputs {
            state_time_ms: f.fail_started_at,
            position_time_ms: f.visual_time_ms,
            key_mask: f.frozen_key_mask,
            active_indices: vstd::slice::slice_to_vec(f.active_note_indices.as_slice()),
        },
        _ => FrameInputs {
            state_time_ms: timestamp,
            position_time_ms: timestamp,
            key_mask,
            active_indices: vstd::slice::slice_to_vec(active_indices),
        },
    }
}

/// While a fail animation runs, every frame is drawn from the same inputs,
/// whatever its timestamp, held keys and live note window.
pub proof fn lemma_failed_frames_are_frozen(
    t1: i32,
    t2: i32,
    mask1: u32,
    mask2: u32,
    active1: Seq<usize>,
    active2: Seq<usize>,
    fail: &FailFreeze,
)
    requires
        fail.active,
    ensures
        resolved_inputs(t1, mask1, active1, Some(fail)) == resolved_inputs(
            t2,
            mask2,
            active2,
            Some(fail),
        ),
{
}

/// The seed that makes a failing note piece drift and tilt its own way:
/// mixed from the note's index (its low 32 bits) and the kind of piece.
pub open spec fn fail_seed(note_index: usize, piece_kind: u32) -> u32 {
    (note_index as u32).wrapping_mul(0x9e37_79b9).wrapping_add(piece_kind.wrapping_mul(0x85eb_ca6b))
}

pub fn fail_piece_seed(note_index: usize, piece_kind: u32) -> (seed: u32)
    ensures
        seed == fail_seed(note_index, piece_kind),
{
    let low = (note_index & 0xffff_ffff) as u32;
    assert(low == note_index as u32) by (bit_vector)
        requires
            low == (note_index & 0xffff_ffff) as u32,
    ;
    low.wrapping_mul(0x9e37_79b9).wrapping_add(piece_kind.wrapping_mul(0x85eb_ca6b))
}

/// A 32-bit integer hash (xorshift-multiply rounds) of a seed.
pub open spec fn scatter(seed: u32) -> u32 {
    let v0 = seed ^ (seed >> 16u32);
    let v1 = v0.wrapping_mul(0x7feb_352d);
    let v2 = v1 ^ (v1 >> 15u32);
    let v3 = v2.wrapping_mul(0x846c_a68b);
    v3 ^ (v3 >> 16u32)
}

pub fn scatter_bits(seed: u32) -> (h: u32)
    ensures
        h == scatter(seed),
{
    let mut value = seed;
    value = value ^ (value >> 16u32);
    value = value.wrapping_mul(0x7feb_352d);
    value = value ^ (value >> 15u32);
    value = value.wrapping_mul(0x846c_a68b);
    value ^ (value >> 16u32)
}

} // verus!
