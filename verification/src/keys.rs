//! Key-down art and stage lights after a key is let go: legacy skins keep them
//! up for a short while after the release.
use vstd::prelude::*;
use crate::layout::{ColumnLayout, StageLayout};

verus! {

/// A recorded key release: which key, when, and how long it had been held.
#[derive(Debug, Clone, Copy)]
pub struct HudKeyTailRelease {
    pub key_index: usize,
    pub released_at_ms: i32,
    pub duration_ms: i32,
}

/// How long key-down art stays after a release.
pub const LEGACY_KEY_RELEASE_HOLD_MS: i32 = 80;

/// How long a stage light takes to fade after a release.
pub const LEGACY_STAGE_LIGHT_RELEASE_MS: i32 = 250;

/// Index of the most recent release of `column` (the last one recorded).
pub open spec fn latest_release(releases: Seq<HudKeyTailRelease>, column: usize) -> Option<int>
    decreases releases.len(),
{
    if releases.len() == 0 {
        None
    } else if releases.last().key_index == column {
        Some(releases.len() - 1)
    } else {
        latest_release(releases.drop_last(), column)
    }
}

proof fn lemma_latest_release_in_range(releases: Seq<HudKeyTailRelease>, column: usize)
    ensures
        latest_release(releases, column) matches Some(i) ==> 0 <= i < releases.len()
            && releases[i].key_index == column,
    decreases releases.len(),
{
    if releases.len() > 0 && releases.last().key_index != column {
        lemma_latest_release_in_range(releases.drop_last(), column);
    }
}

/// Milliseconds since the most recent release of `column`, if it was ever released.
pub open spec fn release_age(releases: Seq<HudKeyTailRelease>, column: usize, timestamp_ms: i32) -> Option<int> {
    match latest_release(releases, column) {
        Some(i) => Some(timestamp_ms - releases[i].released_at_ms),
        None => None,
    }
}

/// The age of the most recent release fits `i32` (outside this it overflows).
pub open spec fn release_age_fits(releases: Seq<HudKeyTailRelease>, column: usize, timestamp_ms: i32) -> bool {
    release_age(releases, column, timestamp_ms) matches Some(a) ==> i32::MIN <= a <= i32::MAX
}

pub fn latest_release_age(releases: &[HudKeyTailRelease], column_index: usize, timestamp_ms: i32) -> (r: Option<i32>)
    requires
        release_age_fits(releases@, column_index, timestamp_ms),
    ensures
        match r {
            Some(a) => release_age(releases@, column_index, timestamp_ms) == Some(a as int),
            None => release_age(releases@, column_index, timestamp_ms) is None,
        },
{
    let mut j = releases.len();
    assert(releases@.take(j as int) =~= releases@);
    while j > 0
        invariant
            j <= releases@.len(),
            release_age_fits(releases@, column_index, timestamp_ms),
            latest_release(releases@, column_index) == latest_release(releases@.take(j as int), column_index),
        decreases j,
    {
        assert(releases@.take(j as int).last() == releases@[j - 1]);
        if releases[j - 1].key_index == column_index {
            assert(latest_release(releases@, column_index) == Some(j - 1));
            return Some(timestamp_ms - releases[j - 1].released_at_ms);
        }
        assert(releases@.take(j as int).drop_last() =~= releases@.take(j - 1));
        j = j - 1;
    }
    None
}

/// `a - b` saturated to `i32`.
pub open spec fn sat_sub_i32(a: i32, b: i32) -> i32 {
    let d = a - b;
    if d > i32::MAX {
        i32::MAX
    } else if d < i32::MIN {
        i32::MIN
    } else {
        d as i32
    }
}

fn saturating_sub_i32(a: i32, b: i32) -> (d: i32)
    ensures
        d == sat_sub_i32(a, b),
{
    let wide: i64 = a as i64 - b as i64;
    if wide > i32::MAX as i64 {
        i32::MAX
    } else if wide < i32::MIN as i64 {
        i32::MIN
    } else {
        wide as i32
    }
}

/// The releases of key `key_index` whose tails are still travelling at
/// `timestamp_ms`, oldest recorded first, each with its age: released at or
/// before the timestamp, and at most `lifetime_ms` ago.
pub open spec fn live_tails(
    releases: Seq<HudKeyTailRelease>,
    key_index: usize,
    timestamp_ms: i32,
    lifetime_ms: i32,
) -> Seq<(HudKeyTailRelease, i32)>
    decreases releases.len(),
{
    if releases.len() == 0 {
        seq![]
    } else {
        let rest = live_tails(releases.drop_last(), key_index, timestamp_ms, lifetime_ms);
        let r = releases.last();
        let age = sat_sub_i32(timestamp_ms, r.released_at_ms);
        if r.key_index == key_index && 0 <= age <= lifetime_ms {
            rest.push((r, age))
        } else {
            rest
        }
    }
}

pub fn live_tail_releases(
    releases: &[HudKeyTailRelease],
    key_index: usize,
    timestamp_ms: i32,
    lifetime_ms: i32,
) -> (out: Vec<(HudKeyTailRelease, i32)>)
    ensures
        out@ == live_tails(releases@, key_index, timestamp_ms, lifetime_ms),
{
    let mut out: Vec<(HudKeyTailRelease, i32)> = Vec::new();
    for i in 0..releases.len()
        invariant
            out@ == live_tails(releases@.take(i as int), key_index, timestamp_ms, lifetime_ms),
    {
        let r = releases[i];
        assert(releases@.take(i + 1).drop_last() =~= releases@.take(i as int));
        assert(releases@.take(i + 1).last() == r);
        let age = saturating_sub_i32(timestamp_ms, r.released_at_ms);
        if r.key_index == key_index && age >= 0 && age <= lifetime_ms {
            out.push((r, age));
        }
    }
    assert(releases@.take(releases@.len() as int) =~= releases@);
    out
}

/// Whether a column's key is down in `key_mask` (bit `c` for column `c`).
pub open spec fn key_held(key_mask: u32, column: usize) -> bool {
    key_mask & (1u32 << column) != 0
}

/// Key-down art shows while the key is held and for a short while after its
/// most recent release.
pub open spec fn key_down_visible(
    releases: Seq<HudKeyTailRelease>,
    column: usize,
    key_mask: u32,
    timestamp_ms: i32,
) -> bool {
    key_held(key_mask, column) || (release_age(releases, column, timestamp_ms) matches Some(a) && 0
        <= a < LEGACY_KEY_RELEASE_HOLD_MS)
}

pub fn legacy_key_down_visible(
    releases: &[HudKeyTailRelease],
    column_index: usize,
    key_mask: u32,
    timestamp_ms: i32,
) -> (v: bool)
    requires
        column_index < 32,
        !key_held(key_mask, column_index) ==> release_age_fits(releases@, column_index, timestamp_ms),
    ensures
        v == key_down_visible(releases@, column_index, key_mask, timestamp_ms),
{
    let bit = 1u32 << column_index;
    if key_mask & bit != 0 {
        return true;
    }
    match latest_release_age(releases, column_index, timestamp_ms) {
        Some(age) => 0 <= age && age < LEGACY_KEY_RELEASE_HOLD_MS,
        None => false,
    }
}

/// A stage light is lit while its key is held, and fades for a while after the
/// most recent release; `Fading(age)` gives the milliseconds since then.
#[derive(Debug, Clone, Copy, PartialEq, Eq, Structural)]
pub enum StageLightPhase {
    Held,
    Fading(i32),
}

pub open spec fn stage_light_phase(
    releases: Seq<HudKeyTailRelease>,
    column: usize,
    key_mask: u32,
    timestamp_ms: i32,
) -> Option<StageLightPhase> {
    if key_held(key_mask, column) {
        Some(StageLightPhase::Held)
    } else {
        match release_age(releases, column, timestamp_ms) {
            Some(a) => if 0 <= a < LEGACY_STAGE_LIGHT_RELEASE_MS {
                Some(StageLightPhase::Fading(a as i32))
            } else {
                None
            },
            None => None,
        }
    }
}

pub fn legacy_stage_light_phase(
    releases: &[HudKeyTailRelease],
    column_index: usize,
    key_mask: u32,
    timestamp_ms: i32,
) -> (p: Option<StageLightPhase>)
    requires
        column_index < 32,
        !key_held(key_mask, column_index) ==> release_age_fits(releases@, column_index, timestamp_ms),
    ensures
        p == stage_light_phase(releases@, column_index, key_mask, timestamp_ms),
{
    let bit = 1u32 << column_index;
    if key_mask & bit != 0 {
        return Some(StageLightPhase::Held);
    }
    match latest_release_age(releases, column_index, timestamp_ms) {
        Some(age) => {
            if 0 <= age && age < LEGACY_STAGE_LIGHT_RELEASE_MS {
                Some(StageLightPhase::Fading(age))
            } else {
                None
            }
        },
        None => None,
    }
}

/// Which key art a column's key base draws.
#[derive(Debug, Clone, Copy, PartialEq, Eq, Structural)]
pub enum KeyArt {
    Base,
    Down,
    Nothing,
}

/// The key base: the released art unless the key shows pressed and has
/// pressed art; a skin without released art shows its pressed art only while
/// the key shows pressed.
pub open spec fn key_base_art(base_loaded: bool, down_loaded: bool, down_visible: bool) -> KeyArt {
    if base_loaded && !(down_visible && down_loaded) {
        KeyArt::Base
    } else if !base_loaded && down_visible && down_loaded {
        KeyArt::Down
    } else {
        KeyArt::Nothing
    }
}

pub fn key_base_texture(base_loaded: bool, down_loaded: bool, down_visible: bool) -> (art: KeyArt)
    ensures
        art == key_base_art(base_loaded, down_loaded, down_visible),
{
    let draw_base = base_loaded && !(down_visible && down_loaded);
    if draw_base {
        KeyArt::Base
    } else if !base_loaded && down_visible && down_loaded {
        KeyArt::Down
    } else {
        KeyArt::Nothing
    }
}

/// The pressed overlay is drawn over keys that have both arts, while the key
/// shows pressed.
pub fn key_press_overlay_visible(base_loaded: bool, down_loaded: bool, down_visible: bool) -> (b: bool)
    ensures
        b == (down_visible && down_loaded && base_loaded),
{
    down_visible && down_loaded && base_loaded
}

/// A key with both arts shows exactly one of them: the released art as its
/// base, or the pressed art as the overlay.
pub proof fn lemma_one_key_art_at_a_time(down_loaded: bool, down_visible: bool)
    ensures
        (key_base_art(true, down_loaded, down_visible) == KeyArt::Base) != (down_visible && down_loaded
            && true),
        key_base_art(true, down_loaded, down_visible) != KeyArt::Down,
{
}

/// A key or note sprite's left edge and width inside its column: inset by the
/// skin's padding on both sides, at least one pixel wide.
pub open spec fn padded_column(col: ColumnLayout, padding: i32) -> (int, int) {
    let w = col.width - padding * 2;
    (col.x + padding, if w >= 1 {
        w
    } else {
        1
    })
}

pub fn padded_column_span(col: &ColumnLayout, padding: i32) -> (r: (i32, u32))
    requires
        col.width <= i32::MAX,
        i32::MIN <= padding * 2 <= i32::MAX,
        i32::MIN <= col.width - padding * 2 <= i32::MAX,
        i32::MIN <= col.x + padding <= i32::MAX,
    ensures
        (r.0 as int, r.1 as int) == padded_column(*col, padding),
{
    let w = col.width as i32 - padding * 2;
    let target_w: u32 = if w >= 1 {
        w as u32
    } else {
        1
    };
    (col.x + padding, target_w)
}

/// A key sprite sits on the stage's edge at the receptor end: its top on the
/// stage's top when upside down, its bottom on the stage's bottom otherwise.
pub fn key_sprite_top_for_stage_edge(stage: &StageLayout, upside_down: bool, key_h: u32) -> (top: i32)
    requires
        !upside_down ==> key_h <= i32::MAX,
        !upside_down ==> i32::MIN <= stage.bottom_y - key_h,
    ensures
        top == (if upside_down {
            stage.top_y as int
        } else {
            stage.bottom_y - key_h
        }),
{
    if upside_down {
        stage.top_y
    } else {
        let h: i64 = key_h as i64;
        (stage.bottom_y as i64 - h) as i32
    }
}

} // verus!
