//! The parts of a beatmap that the renderer's timing logic reads.
use vstd::prelude::*;

verus! {

/// Per-object sample-set override; 0 means "inherit".
#[derive(Debug, Clone, Copy, Default)]
pub struct HitSample {
    pub normal_set: u8,
    pub addition_set: u8,
}

/// A hit object as the timing logic reads it.
#[derive(Debug, Clone, Copy)]
pub struct HitObject {
    /// The column (key lane) the object is in, counted from zero.
    pub column: u8,
    pub time: i32,
    pub end_time: Option<i32>,
    /// Whether the object is a long note (hold note).
    pub long_note: bool,
    /// osu! hitsound bit flags: whistle 2, finish 4, clap 8.
    pub hit_sound: u8,
    pub hit_sample: HitSample,
}

impl HitObject {
    pub fn is_long_note(&self) -> (b: bool)
        ensures
            b == self.long_note,
    {
        self.long_note
    }
}

/// A timing point's start time (whole milliseconds) and sample set.
#[derive(Debug, Clone, Copy)]
pub struct TimingPoint {
    pub time: i32,
    pub sample_set: u8,
}

} // verus!
