//! Stage effects timed by the notes: the hit lighting of each column and the
//! warning arrows before the first note.
use vstd::prelude::*;
use crate::beatmap::HitObject;
use crate::long_notes::in_i32;

verus! {

/// What lights a column up at some time: the start of the latest one-shot
/// flash still running, and the long note being held (its start and end).
#[derive(Debug, Clone, Copy, PartialEq, Eq, Structural)]
pub struct ColumnLighting {
    pub one_shot_start: Option<i32>,
    pub hold_start: Option<i32>,
    pub hold_end: Option<i32>,
}

pub open spec fn later(prev: Option<i32>, t: i32) -> Option<i32> {
    match prev {
        Some(p) => Some(
            if p >= t {
                p
            } else {
                t
            },
        ),
        None => Some(t),
    }
}

pub open spec fn note_end_time(ho: HitObject) -> i32 {
    match ho.end_time {
        Some(e) => e,
        None => ho.time,
    }
}

/// The lighting after looking at one more note of the column: a tap flashes
/// for `flash_ms` from its time; a long note lights while held (its start and
/// end recorded, the latest start kept) and flashes for `flash_ms` from its end.
pub open spec fn light_step(l: ColumnLighting, ho: HitObject, timestamp: i32, flash_ms: i32) -> ColumnLighting {
    if !ho.long_note {
        if ho.time <= timestamp <= ho.time + flash_ms {
            ColumnLighting { one_shot_start: later(l.one_shot_start, ho.time), ..l }
        } else {
            l
        }
    } else {
        let end_time = note_end_time(ho);
        let held = if ho.time <= timestamp <= end_time {
            ColumnLighting { hold_start: later(l.hold_start, ho.time), hold_end: Some(end_time), ..l }
        } else {
            l
        };
        if end_time <= timestamp <= end_time + flash_ms {
            ColumnLighting { one_shot_start: later(held.one_shot_start, end_time), ..held }
        } else {
            held
        }
    }
}

/// The notes at `indices`, in order, that belong to `column`.
pub open spec fn column_lighting_of(
    notes: Seq<HitObject>,
    indices: Seq<usize>,
    column: u8,
    timestamp: i32,
    flash_ms: i32,
) -> ColumnLighting
    decreases indices.len(),
{
    if indices.len() == 0 {
        ColumnLighting { one_shot_start: None, hold_start: None, hold_end: None }
    } else {
        let l = column_lighting_of(notes, indices.drop_last(), column, timestamp, flash_ms);
        let ho = notes[indices.last() as int];
        if ho.column == column {
            light_step(l, ho, timestamp, flash_ms)
        } else {
            l
        }
    }
}

/// The index table points into the notes, and the flash windows fit `i32`.
pub open spec fn lighting_inputs_fit(notes: Seq<HitObject>, indices: Seq<usize>, flash_ms: i32) -> bool {
    forall|k: int|
        0 <= k < indices.len() ==> {
            &&& #[trigger] indices[k] < notes.len()
            &&& in_i32(notes[indices[k] as int].time + flash_ms)
            &&& in_i32(note_end_time(notes[indices[k] as int]) + flash_ms)
        }
}

fn later_of(prev: Option<i32>, t: i32) -> (r: Option<i32>)
    ensures
        r == later(prev, t),
{
    match prev {
        Some(p) => Some(
            if p >= t {
                p
            } else {
                t
            },
        ),
        None => Some(t),
    }
}

/// The lighting of `column` at `timestamp` from the notes on screen.
pub fn column_lighting(
    notes: &[HitObject],
    active_indices: &[usize],
    column: u8,
    timestamp: i32,
    flash_ms: i32,
) -> (l: ColumnLighting)
    requires
        lighting_inputs_fit(notes@, active_indices@, flash_ms),
    ensures
        l == column_lighting_of(notes@, active_indices@, column, timestamp, flash_ms),
{
    let mut l = ColumnLighting { one_shot_start: None, hold_start: None, hold_end: None };
    for k in 0..active_indices.len()
        invariant
            lighting_inputs_fit(notes@, active_indices@, flash_ms),
            l == column_lighting_of(notes@, active_indices@.take(k as int), column, timestamp, flash_ms),
    {
        assert(active_indices@.take(k + 1).drop_last() =~= active_indices@.take(k as int));
        assert(active_indices@.take(k + 1).last() == active_indices@[k as int]);
        let idx = active_indices[k];
        assert(idx < notes@.len());
        let ho = notes[idx];
        if ho.column == column {
            if !ho.is_long_note() {
                if timestamp >= ho.time && timestamp <= ho.time + flash_ms {
                    l = ColumnLighting { one_shot_start: later_of(l.one_shot_start, ho.time), ..l };
                }
            } else {
                let end_time = match ho.end_time {
                    Some(e) => e,
                    None => ho.time,
                };
                if timestamp >= ho.time && timestamp <= end_time {
                    l = ColumnLighting { hold_start: later_of(l.hold_start, ho.time), hold_end: Some(end_time), ..l };
                }
                if timestamp >= end_time && timestamp <= end_time + flash_ms {
                    l = ColumnLighting { one_shot_start: later_of(l.one_shot_start, end_time), ..l };
                }
            }
        }
    }
    assert(active_indices@.take(active_indices@.len() as int) =~= active_indices@);
    l
}

/// The warning-arrow wave running at `timestamp`, by its start: waves of one
/// second end one, two and three seconds before the first note, and a wave
/// only plays when the lead-in leaves room for it (two, three and four
/// seconds).
pub open spec fn wave_start(first_note_ms: i32, w: int) -> int {
    first_note_ms - 1000 - w * 1000 - 1000
}

pub open spec fn wave_plays(first_note_ms: i32, lead_in_ms: i32, timestamp: i32, w: int) -> bool {
    lead_in_ms >= (w + 2) * 1000 && wave_start(first_note_ms, w) <= timestamp < wave_start(first_note_ms, w) + 1000
}

pub open spec fn warning_wave(first_note_ms: i32, lead_in_ms: i32, timestamp: i32) -> Option<int> {
    if wave_plays(first_note_ms, lead_in_ms, timestamp, 0) {
        Some(wave_start(first_note_ms, 0))
    } else if wave_plays(first_note_ms, lead_in_ms, timestamp, 1) {
        Some(wave_start(first_note_ms, 1))
    } else if wave_plays(first_note_ms, lead_in_ms, timestamp, 2) {
        Some(wave_start(first_note_ms, 2))
    } else {
        None
    }
}

pub fn warning_arrow_wave(first_note_ms: i32, lead_in_ms: i32, timestamp: i32) -> (r: Option<i32>)
    requires
        i32::MIN + 4000 <= first_note_ms,
    ensures
        match r {
            Some(s) => warning_wave(first_note_ms, lead_in_ms, timestamp) == Some(s as int),
            None => warning_wave(first_note_ms, lead_in_ms, timestamp) is None,
        },
{
    let mut wave_idx: i32 = 0;
    while wave_idx < 3
        invariant
            0 <= wave_idx <= 3,
            i32::MIN + 4000 <= first_note_ms,
            forall|w: int| 0 <= w < wave_idx ==> !#[trigger] wave_plays(first_note_ms, lead_in_ms, timestamp, w),
        decreases 3 - wave_idx,
    {
        let wave_end = first_note_ms - 1000 - wave_idx * 1000;
        let wave_start = wave_end - 1000;
        if lead_in_ms >= (wave_idx + 2) * 1000 && timestamp >= wave_start && timestamp < wave_end {
            assert(wave_plays(first_note_ms, lead_in_ms, timestamp, wave_idx as int));
            return Some(wave_start);
        }
        assert(!wave_plays(first_note_ms, lead_in_ms, timestamp, wave_idx as int));
        wave_idx = wave_idx + 1;
    }
    assert(!wave_plays(first_note_ms, lead_in_ms, timestamp, 0));
    assert(!wave_plays(first_note_ms, lead_in_ms, timestamp, 1));
    assert(!wave_plays(first_note_ms, lead_in_ms, timestamp, 2));
    None
}

} // verus!
