//! How a long note is drawn in a frame: whether it is still shown, held at the
//! receptor, dimmed for a bad judgment, and where its head, tail and body go.
use vstd::prelude::*;
use crate::beatmap::HitObject;
use crate::judgment::{JudgmentKind, ReleaseKind};
use crate::model::{RenderJudgment, LnReleaseInfo};
use crate::skin_images::NoteBodyStyle;

verus! {

/// Brightness of a long note's head: not set (the note is finished or hidden),
/// full, dimmed for a 50, or dimmed for a miss.
#[derive(Debug, Clone, Copy, PartialEq, Eq, Default, Structural)]
pub enum HeadTint {
    #[default]
    Unset,
    Normal,
    FiftyDim,
    MissDim,
}

/// The drawing decisions for one long note in one frame. Vertical positions are
/// screen pixels; the body spans `[body_top_y, body_bottom_y]`.
#[derive(Debug, Clone, Copy, PartialEq, Eq, Structural)]
pub struct LnRenderInfo {
    pub show_ln: bool,
    pub finished_normally: bool,
    pub head_top_y: i32,
    pub tail_top_y: i32,
    pub body_top_y: i32,
    pub body_bottom_y: i32,
    pub allow_pass: bool,
    pub head_tint: HeadTint,
    pub is_broken: bool,
    pub held: bool,
}

/// Where the long note's pieces are this frame, before any hold clamping.
#[derive(Debug, Clone, Copy)]
pub struct LnGeometry {
    pub upside_down: bool,
    /// The receptor line.
    pub judgment_y: i32,
    pub head_h: i32,
    pub tail_h: i32,
    /// The head's leading edge.
    pub head_bottom_y: i32,
    /// The head's leading edge had it stopped at the release, for releases
    /// strictly inside the note.
    pub release_head_bottom_y: Option<i32>,
    pub tail_top_y: i32,
    /// The visible playfield band.
    pub top_y: i32,
    pub bottom_y: i32,
}

/// The times from which the press, the release and the (effective) end count
/// as reached: each is its time moved earlier by three quarters of a frame.
/// `press` and `release` are read only when the note has a press or release time.
#[derive(Debug, Clone, Copy)]
pub struct LnLeadTimes {
    pub press: i32,
    pub release: i32,
    pub end: i32,
}

/// How long a late release may keep a long note on screen past its end.
pub const LATE_HOLD_TIMEOUT_MS: i32 = 200;

/// `x / 2` rounded toward zero, as integer division in Rust does.
pub open spec fn trunc_half(x: int) -> int {
    if x >= 0 {
        x / 2
    } else {
        -((-x) / 2)
    }
}

pub(crate) fn half(x: i32) -> (r: i32)
    ensures
        r == trunc_half(x as int),
{
    if x >= 0 {
        x / 2
    } else {
        let pos: i64 = 0 - (x as i64);
        (0 - pos / 2) as i32
    }
}

/// Top edge of a piece whose leading edge is at `lead`.
pub open spec fn piece_top(upside_down: bool, lead: int, height: int) -> int {
    if upside_down {
        lead
    } else {
        lead - height
    }
}

pub open spec fn min_i(a: int, b: int) -> int {
    if a <= b {
        a
    } else {
        b
    }
}

pub open spec fn max_i(a: int, b: int) -> int {
    if a >= b {
        a
    } else {
        b
    }
}

/// The note's end time; a note without one ends where it starts.
pub open spec fn note_end(ho: HitObject) -> int {
    match ho.end_time {
        Some(e) => e as int,
        None => ho.time as int,
    }
}

/// The end as drawn: a late release stretches the note to the release, by at
/// most the late-hold timeout.
pub open spec fn effective_end(ho: HitObject, release: Option<LnReleaseInfo>) -> int {
    let end = note_end(ho);
    match release {
        Some(r) => match r.time {
            Some(rt) => if rt > end {
                min_i(rt as int, end + LATE_HOLD_TIMEOUT_MS)
            } else {
                end
            },
            None => end,
        },
        None => end,
    }
}

/// The decisions about a long note that do not depend on where it is drawn,
/// except whether its tail has left the playfield.
pub struct LnState {
    pub release_active: bool,
    pub miss_dim: bool,
    pub fifty_dim: bool,
    pub bad_release: bool,
    pub held: bool,
    pub finished: bool,
    pub is_broken: bool,
    pub show: bool,
}

/// The long note's state at `timestamp`:
/// - a press dims a missed or 50 head from its lead time on, except a late 50,
///   which is drawn as held until its release decides;
/// - from the release's lead time on, a missed release dims as a miss and a 50
///   release as a 50 unless the head already dims as a miss;
/// - the note is held while pressed (or the replay's release has not come yet),
///   between its start and effective end, when the head was not a miss or an
///   early 50 and the release was no double tap;
/// - it is finished after a good release, after a bad release once the tail has
///   left the playfield, or at its end when nothing dims it, it was no double
///   tap, it was not pressed after its end, and it is no longer held;
/// - an unfinished note is shown while held, unconsumed, released, dimmed,
///   broken or double-tapped.
pub open spec fn ln_state(
    ho: HitObject,
    timestamp: i32,
    judgment: Option<RenderJudgment>,
    release: Option<LnReleaseInfo>,
    key_pressed: bool,
    g: LnGeometry,
    leads: LnLeadTimes,
) -> LnState {
    let end = note_end(ho);
    let j_kind: Option<JudgmentKind> = match judgment {
        Some(j) => Some(j.kind),
        None => None,
    };
    let press: Option<i32> = match judgment {
        Some(j) => j.press_time,
        None => None,
    };
    let rel_kind = match release {
        Some(r) => r.kind,
        None => ReleaseKind::Unjudged,
    };
    let rel_time: Option<i32> = match release {
        Some(r) => r.time,
        None => None,
    };
    let double_tap = match release {
        Some(r) => r.double_tap,
        None => false,
    };
    let rel_is_miss = rel_kind == ReleaseKind::Miss;
    let rel_is_50 = rel_kind == ReleaseKind::Hit50;
    let rel_is_good = rel_kind != ReleaseKind::Unjudged && !rel_is_miss;
    let press_after_end = press matches Some(pt) && pt > end;
    let press_dim_started = press is Some && timestamp >= leads.press;
    let press_hold_started = press matches Some(pt) && timestamp >= pt;
    let press_is_late = press matches Some(pt) && pt > ho.time;
    let late_fifty = j_kind == Some(JudgmentKind::Hit50) && press_is_late;
    let head_good = j_kind != Some(JudgmentKind::Miss) && j_kind != Some(JudgmentKind::Hit50);
    let head_good_for_visuals = head_good || late_fifty;
    let head_miss_dim = !late_fifty && j_kind == Some(JudgmentKind::Miss) && press_dim_started;
    let head_fifty_dim = !late_fifty && j_kind == Some(JudgmentKind::Hit50) && press_dim_started;
    let release_active = rel_time is Some && timestamp >= leads.release;
    let miss_dim = if release_active && rel_is_miss {
        true
    } else {
        head_miss_dim
    };
    let fifty_dim = if release_active && rel_is_miss {
        false
    } else if release_active && rel_is_50 && !head_miss_dim {
        true
    } else {
        head_fifty_dim
    };
    let eff_end = effective_end(ho, release);
    let good_release_finished = !double_tap && !rel_is_50 && rel_is_good && (rel_time matches Some(
        rt,
    ) && timestamp >= rt);
    let tail_off_screen = if g.upside_down {
        g.tail_top_y + g.tail_h < g.top_y - 50
    } else {
        g.tail_top_y > g.bottom_y + 50
    };
    let bad_release = double_tap || rel_is_50 || rel_is_miss;
    let pass_through_finished = bad_release && tail_off_screen;
    let consumed = (press matches Some(pt) && pt <= timestamp) && timestamp >= ho.time;
    let hold_window_active = press_hold_started && timestamp >= ho.time && timestamp <= eff_end
        && (match rel_time {
        Some(rt) => timestamp < rt,
        None => true,
    });
    let hold_input_active = rel_time is Some || key_pressed;
    let held = head_good_for_visuals && !double_tap && hold_window_active && hold_input_active;
    let normal_end = timestamp >= leads.end && !rel_is_miss && !miss_dim && !fifty_dim && !double_tap
        && !press_after_end && (!held || timestamp >= eff_end);
    let finished = good_release_finished || pass_through_finished || normal_end;
    let is_broken = rel_is_miss || j_kind == Some(JudgmentKind::Miss);
    let has_bad_judgment = miss_dim || fifty_dim || (release_active && rel_is_miss) || (
    release_active && rel_is_50);
    let show = held || !consumed || release_active || has_bad_judgment || is_broken || miss_dim
        || fifty_dim || double_tap;
    LnState {
        release_active,
        miss_dim,
        fifty_dim,
        bad_release,
        held,
        finished,
        is_broken,
        show,
    }
}

/// The body between two piece centres; a note that lasts gets at least one pixel.
pub open spec fn body_span(a: int, b: int, lasts: bool) -> (int, int) {
    let top = min_i(a, b);
    let bottom = max_i(a, b);
    if lasts && bottom <= top {
        (top, top + 1)
    } else {
        (top, bottom)
    }
}

/// Positions as drawn: (head top, tail top, body top, body bottom).
/// A held note's head stops at the receptor and, once the tail reaches the
/// receptor, the tail stops there too and the body closes up; a note released
/// badly keeps its head where the release left it.
pub open spec fn ln_positions(ho: HitObject, s: LnState, g: LnGeometry) -> (int, int, int, int) {
    let lasts = note_end(ho) > ho.time;
    let head_top0 = piece_top(g.upside_down, g.head_bottom_y as int, g.head_h as int);
    let head_c0 = head_top0 + trunc_half(g.head_h as int);
    let tail_c = g.tail_top_y + trunc_half(g.tail_h as int);
    let body0 = body_span(head_c0, tail_c, lasts);
    if s.finished || !s.show {
        (head_top0, g.tail_top_y as int, body0.0, body0.1)
    } else if s.held {
        let clamped = if g.upside_down {
            max_i(g.judgment_y as int, g.head_bottom_y as int)
        } else {
            min_i(g.judgment_y as int, g.head_bottom_y as int)
        };
        let head_top = piece_top(g.upside_down, clamped, g.head_h as int);
        let head_c = head_top + trunc_half(g.head_h as int);
        let reached = if g.upside_down {
            g.tail_top_y <= g.judgment_y
        } else {
            g.tail_top_y + g.tail_h >= g.judgment_y
        };
        if reached {
            (head_top, piece_top(g.upside_down, g.judgment_y as int, g.tail_h as int), head_c, head_c)
        } else {
            (head_top, g.tail_top_y as int, min_i(tail_c, head_c), max_i(tail_c, head_c))
        }
    } else if s.release_active && s.bad_release && g.release_head_bottom_y is Some {
        let rb = g.release_head_bottom_y.unwrap();
        let head_top = piece_top(g.upside_down, rb as int, g.head_h as int);
        let anchor = head_top + trunc_half(g.head_h as int);
        let body = body_span(anchor, tail_c, lasts);
        (head_top, g.tail_top_y as int, body.0, body.1)
    } else {
        (head_top0, g.tail_top_y as int, body0.0, body0.1)
    }
}

pub open spec fn in_i32(x: int) -> bool {
    i32::MIN <= x <= i32::MAX
}

/// Every pixel and time computed along the way fits `i32` (outside this the
/// computation overflows).
pub open spec fn ln_arithmetic_fits(ho: HitObject, s: LnState, g: LnGeometry, release: Option<LnReleaseInfo>) -> bool {
    let lasts = note_end(ho) > ho.time;
    let head_top0 = piece_top(g.upside_down, g.head_bottom_y as int, g.head_h as int);
    let head_c0 = head_top0 + trunc_half(g.head_h as int);
    let tail_c = g.tail_top_y + trunc_half(g.tail_h as int);
    let end = note_end(ho);
    &&& in_i32(head_top0)
    &&& in_i32(head_c0)
    &&& in_i32(tail_c)
    &&& in_i32(body_span(head_c0, tail_c, lasts).1)
    &&& (release matches Some(r) && r.time matches Some(rt) && rt > end) ==> in_i32(
        end + LATE_HOLD_TIMEOUT_MS,
    )
    &&& g.upside_down ==> in_i32(g.tail_top_y + g.tail_h) && in_i32(g.top_y - 50)
    &&& !g.upside_down ==> in_i32(g.bottom_y + 50)
    &&& (!s.finished && s.show && s.held) ==> {
        let clamped = if g.upside_down {
            max_i(g.judgment_y as int, g.head_bottom_y as int)
        } else {
            min_i(g.judgment_y as int, g.head_bottom_y as int)
        };
        let head_top = piece_top(g.upside_down, clamped, g.head_h as int);
        &&& in_i32(head_top)
        &&& in_i32(head_top + trunc_half(g.head_h as int))
        &&& in_i32(g.tail_top_y + g.tail_h)
        &&& (if g.upside_down {
            g.tail_top_y <= g.judgment_y
        } else {
            g.tail_top_y + g.tail_h >= g.judgment_y
        }) ==> in_i32(piece_top(g.upside_down, g.judgment_y as int, g.tail_h as int))
    }
    &&& (!s.finished && s.show && !s.held && s.release_active && s.bad_release
        && g.release_head_bottom_y is Some) ==> {
        let head_top = piece_top(
            g.upside_down,
            g.release_head_bottom_y.unwrap() as int,
            g.head_h as int,
        );
        let anchor = head_top + trunc_half(g.head_h as int);
        &&& in_i32(head_top)
        &&& in_i32(anchor)
        &&& in_i32(body_span(anchor, tail_c, lasts).1)
    }
}

/// The drawing decisions for a long note, as `compute_ln_render_info` makes them.
pub open spec fn ln_render_info(
    ho: HitObject,
    timestamp: i32,
    judgment: Option<RenderJudgment>,
    release: Option<LnReleaseInfo>,
    key_pressed: bool,
    g: LnGeometry,
    leads: LnLeadTimes,
) -> LnRenderInfo {
    let s = ln_state(ho, timestamp, judgment, release, key_pressed, g, leads);
    let p = ln_positions(ho, s, g);
    let visible = !s.finished && s.show;
    LnRenderInfo {
        show_ln: !s.finished && s.show,
        finished_normally: s.finished,
        head_top_y: p.0 as i32,
        tail_top_y: p.1 as i32,
        body_top_y: p.2 as i32,
        body_bottom_y: p.3 as i32,
        allow_pass: visible && !s.held,
        head_tint: if !visible {
            HeadTint::Unset
        } else if s.miss_dim {
            HeadTint::MissDim
        } else if s.fifty_dim {
            HeadTint::FiftyDim
        } else {
            HeadTint::Normal
        },
        is_broken: !s.finished && s.is_broken,
        held: !s.finished && s.held,
    }
}

/// The effective end of a long note: its end, or a late release at most
/// `LATE_HOLD_TIMEOUT_MS` after it.
pub fn ln_effective_end_time(ho: &HitObject, release: Option<LnReleaseInfo>) -> (t: i32)
    requires
        (release matches Some(r) && r.time matches Some(rt) && rt > note_end(*ho)) ==> in_i32(
            note_end(*ho) + LATE_HOLD_TIMEOUT_MS,
        ),
    ensures
        t == effective_end(*ho, release),
{
    let end_time = match ho.end_time {
        Some(e) => e,
        None => ho.time,
    };
    let mut effective = end_time;
    if let Some(r) = release {
        if let Some(rt) = r.time {
            if rt > end_time {
                let cap = end_time + LATE_HOLD_TIMEOUT_MS;
                effective = if rt < cap {
                    rt
                } else {
                    cap
                };
            }
        }
    }
    effective
}

fn top_of(upside_down: bool, lead: i32, height: i32) -> (t: i32)
    requires
        in_i32(piece_top(upside_down, lead as int, height as int)),
    ensures
        t == piece_top(upside_down, lead as int, height as int),
{
    if upside_down {
        lead
    } else {
        lead - height
    }
}

fn span_of(a: i32, b: i32, lasts: bool) -> (r: (i32, i32))
    requires
        in_i32(body_span(a as int, b as int, lasts).1),
    ensures
        r.0 == body_span(a as int, b as int, lasts).0,
        r.1 == body_span(a as int, b as int, lasts).1,
{
    let top = if a <= b {
        a
    } else {
        b
    };
    let bottom = if a >= b {
        a
    } else {
        b
    };
    if lasts && bottom <= top {
        (top, top + 1)
    } else {
        (top, bottom)
    }
}

/// Decides how a long note is drawn at `timestamp` (see `ln_state` and
/// `ln_positions`).
pub fn compute_ln_render_info(
    ho: &HitObject,
    timestamp: i32,
    judgment: Option<RenderJudgment>,
    release: Option<LnReleaseInfo>,
    key_pressed: bool,
    g: &LnGeometry,
    leads: &LnLeadTimes,
) -> (info: LnRenderInfo)
    requires
        ln_arithmetic_fits(
            *ho,
            ln_state(*ho, timestamp, judgment, release, key_pressed, *g, *leads),
            *g,
            release,
        ),
    ensures
        info == ln_render_info(*ho, timestamp, judgment, release, key_pressed, *g, *leads),
{
    let ghost s = ln_state(*ho, timestamp, judgment, release, key_pressed, *g, *leads);
    let up = g.upside_down;
    let end_time = match ho.end_time {
        Some(e) => e,
        None => ho.time,
    };
    let lasts = end_time > ho.time;
    let head_top0 = top_of(up, g.head_bottom_y, g.head_h);
    let head_c0 = head_top0 + half(g.head_h);
    let tail_c = g.tail_top_y + half(g.tail_h);
    let body0 = span_of(head_c0, tail_c, lasts);
    let mut info = LnRenderInfo {
        show_ln: false,
        finished_normally: false,
        head_top_y: head_top0,
        tail_top_y: g.tail_top_y,
        body_top_y: body0.0,
        body_bottom_y: body0.1,
        allow_pass: false,
        head_tint: HeadTint::Unset,
        is_broken: false,
        held: false,
    };
    let j_kind: Option<JudgmentKind> = match judgment {
        Some(j) => Some(j.kind),
        None => None,
    };
    let press: Option<i32> = match judgment {
        Some(j) => j.press_time,
        None => None,
    };
    let rel_kind = match release {
        Some(r) => r.kind,
        None => ReleaseKind::Unjudged,
    };
    let rel_time: Option<i32> = match release {
        Some(r) => r.time,
        None => None,
    };
    let double_tap = match release {
        Some(r) => r.double_tap,
        None => false,
    };
    let rel_is_miss = rel_kind == ReleaseKind::Miss;
    let rel_is_50 = rel_kind == ReleaseKind::Hit50;
    let rel_is_good = rel_kind != ReleaseKind::Unjudged && !rel_is_miss;
    let (press_after_end, press_dim_started, press_hold_started, press_is_late) = match press {
        Some(pt) => (pt > end_time, timestamp >= leads.press, timestamp >= pt, pt > ho.time),
        None => (false, false, false, false),
    };
    let is_miss = j_kind == Some(JudgmentKind::Miss);
    let is_fifty = j_kind == Some(JudgmentKind::Hit50);
    let late_fifty = is_fifty && press_is_late;
    let head_good = !is_miss && !is_fifty;
    let head_good_for_visuals = head_good || late_fifty;
    let mut head_miss_dim = is_miss && press_dim_started;
    let mut head_fifty_dim = is_fifty && press_dim_started;
    if late_fifty {
        head_miss_dim = false;
        head_fifty_dim = false;
    }
    let release_active = match rel_time {
        Some(_) => timestamp >= leads.release,
        None => false,
    };
    let mut miss_dim = head_miss_dim;
    let mut fifty_dim = head_fifty_dim;
    if release_active {
        if rel_is_miss {
            miss_dim = true;
            fifty_dim = false;
        } else if rel_is_50 && !miss_dim {
            fifty_dim = true;
        }
    }
    let effective_end_time = ln_effective_end_time(ho, release);
    let good_release_finished = !double_tap && !rel_is_50 && rel_is_good && match rel_time {
        Some(rt) => timestamp >= rt,
        None => false,
    };
    let tail_off_screen = if up {
        g.tail_top_y + g.tail_h < g.top_y - 50
    } else {
        g.tail_top_y > g.bottom_y + 50
    };
    let bad_release = double_tap || rel_is_50 || rel_is_miss;
    let pass_through_finished = bad_release && tail_off_screen;
    let consumed = match press {
        Some(pt) => pt <= timestamp,
        None => false,
    } && timestamp >= ho.time;
    let hold_window_active = press_hold_started && timestamp >= ho.time && timestamp
        <= effective_end_time && match rel_time {
        Some(rt) => timestamp < rt,
        None => true,
    };
    let hold_input_active = rel_time.is_some() || key_pressed;
    let held = head_good_for_visuals && !double_tap && hold_window_active && hold_input_active;
    let normal_end = timestamp >= leads.end && !rel_is_miss && !miss_dim && !fifty_dim
        && !double_tap && !press_after_end && (!held || timestamp >= effective_end_time);
    let finished = good_release_finished || pass_through_finished || normal_end;
    assert(finished == s.finished && held == s.held && miss_dim == s.miss_dim && fifty_dim
        == s.fifty_dim && release_active == s.release_active && bad_release == s.bad_release);
    info.finished_normally = finished;
    if finished {
        return info;
    }
    let is_broken = rel_is_miss || is_miss;
    let has_bad_judgment = miss_dim || fifty_dim || (release_active && rel_is_miss) || (
    release_active && rel_is_50);
    let show_ln = held || !consumed || release_active || has_bad_judgment || is_broken || miss_dim
        || fifty_dim || double_tap;
    assert(show_ln == s.show && is_broken == s.is_broken);
    info.is_broken = is_broken;
    info.held = held;
    info.show_ln = show_ln;
    if !show_ln {
        return info;
    }
    info.head_tint = if miss_dim {
        HeadTint::MissDim
    } else if fifty_dim {
        HeadTint::FiftyDim
    } else {
        HeadTint::Normal
    };
    info.allow_pass = !held;
    if held {
        let clamped_head_bottom = if up {
            if g.judgment_y >= g.head_bottom_y {
                g.judgment_y
            } else {
                g.head_bottom_y
            }
        } else {
            if g.judgment_y <= g.head_bottom_y {
                g.judgment_y
            } else {
                g.head_bottom_y
            }
        };
        info.head_top_y = top_of(up, clamped_head_bottom, g.head_h);
        let head_c = info.head_top_y + half(g.head_h);
        let reached = if up {
            g.tail_top_y <= g.judgment_y
        } else {
            g.tail_top_y + g.tail_h >= g.judgment_y
        };
        if reached {
            info.tail_top_y = top_of(up, g.judgment_y, g.tail_h);
            info.body_top_y = head_c;
            info.body_bottom_y = head_c;
        } else {
            info.body_top_y = if tail_c <= head_c {
                tail_c
            } else {
                head_c
            };
            info.body_bottom_y = if tail_c >= head_c {
                tail_c
            } else {
                head_c
            };
        }
    } else if release_active && bad_release {
        if let Some(rb) = g.release_head_bottom_y {
            let release_head_top = top_of(up, rb, g.head_h);
            let anchor = release_head_top + half(g.head_h);
            let body = span_of(anchor, tail_c, lasts);
            info.head_top_y = release_head_top;
            info.body_top_y = body.0;
            info.body_bottom_y = body.1;
        }
    }
    info
}

/// The part of a long note's body that is drawn: cut to the playfield and, for a
/// held note, to the receptor edge (the bottom edge when scrolling down, the top
/// edge when scrolling up); none when nothing of it is left.
pub open spec fn clipped_body(info: LnRenderInfo, top_y: i32, bottom_y: i32, receptor_edge: i32, upside_down: bool) -> Option<(i32, i32)> {
    let top = if info.body_top_y >= top_y {
        info.body_top_y
    } else {
        top_y
    };
    let bottom = if info.body_bottom_y <= bottom_y {
        info.body_bottom_y
    } else {
        bottom_y
    };
    let (t, b) = if info.allow_pass {
        (top, bottom)
    } else if upside_down {
        (if top >= receptor_edge { top } else { receptor_edge }, bottom)
    } else {
        (top, if bottom <= receptor_edge { bottom } else { receptor_edge })
    };
    if info.body_bottom_y - info.body_top_y > 0 && b > t {
        Some((t, b))
    } else {
        None
    }
}

pub fn clip_long_note_body(info: &LnRenderInfo, top_y: i32, bottom_y: i32, receptor_edge: i32, upside_down: bool) -> (r: Option<(i32, i32)>)
    requires
        in_i32(info.body_bottom_y - info.body_top_y),
    ensures
        r == clipped_body(*info, top_y, bottom_y, receptor_edge, upside_down),
{
    let body_height = info.body_bottom_y - info.body_top_y;
    if body_height <= 0 {
        return None;
    }
    let top = if info.body_top_y >= top_y {
        info.body_top_y
    } else {
        top_y
    };
    let bottom = if info.body_bottom_y <= bottom_y {
        info.body_bottom_y
    } else {
        bottom_y
    };
    let (t, b) = if info.allow_pass {
        (top, bottom)
    } else if upside_down {
        (if top >= receptor_edge { top } else { receptor_edge }, bottom)
    } else {
        (top, if bottom <= receptor_edge { bottom } else { receptor_edge })
    };
    if b > t {
        Some((t, b))
    } else {
        None
    }
}


/// A late release stretches a long note by at most the late-hold timeout, and
/// never shortens it.
pub proof fn lemma_late_release_capped(ho: HitObject, release: Option<LnReleaseInfo>)
    ensures
        note_end(ho) <= effective_end(ho, release) <= note_end(ho) + LATE_HOLD_TIMEOUT_MS,
{
}

/// A held long note's head never passes the receptor: scrolling down its
/// bottom edge stays at or above the receptor line, scrolling up its top edge
/// stays at or below it.
pub proof fn lemma_held_head_stops_at_receptor(
    ho: HitObject,
    timestamp: i32,
    judgment: Option<RenderJudgment>,
    release: Option<LnReleaseInfo>,
    key_pressed: bool,
    g: LnGeometry,
    leads: LnLeadTimes,
)
    requires
        ln_arithmetic_fits(ho, ln_state(ho, timestamp, judgment, release, key_pressed, g, leads), g, release),
    ensures
        ({
            let info = ln_render_info(ho, timestamp, judgment, release, key_pressed, g, leads);
            info.held && info.show_ln ==> if g.upside_down {
                info.head_top_y >= g.judgment_y
            } else {
                info.head_top_y + g.head_h <= g.judgment_y
            }
        }),
{
}


/// Where a long note's tail is drawn (top, height), before the view is
/// consulted: while the note is held the tail is cut where it would cross the
/// head's centre line, keeping the part behind the head (above it scrolling
/// down, below it scrolling up, where the piece then starts at that line).
pub open spec fn held_tail_draw(
    tail_top: int,
    tail_h: int,
    head_top: int,
    head_h: int,
    held: bool,
    upside_down: bool,
) -> (int, int) {
    let end = tail_top + tail_h;
    let anchor = head_top + head_h / 2;
    if !held {
        (tail_top, tail_h)
    } else if upside_down {
        if tail_top < anchor {
            let v = end - anchor;
            if v <= 0 {
                (tail_top, 0)
            } else if v < tail_h {
                (anchor, v)
            } else {
                (tail_top, tail_h)
            }
        } else {
            (tail_top, tail_h)
        }
    } else if end > anchor {
        let v = anchor - tail_top;
        if v <= 0 {
            (tail_top, 0)
        } else if v < tail_h {
            (tail_top, v)
        } else {
            (tail_top, tail_h)
        }
    } else {
        (tail_top, tail_h)
    }
}

/// The tail piece drawn, as (top, height): none when the long note is not
/// shown, when the tail lies wholly outside the view `[view_top, view_bottom)`,
/// or when nothing of it is left after the cut at the head.
pub open spec fn tail_piece(
    show_ln: bool,
    tail_top: int,
    tail_h: int,
    head_top: int,
    head_h: int,
    held: bool,
    upside_down: bool,
    view_top: int,
    view_bottom: int,
) -> Option<(int, int)> {
    let end = tail_top + tail_h;
    if !(show_ln && tail_top < view_bottom && end > view_top) {
        None
    } else {
        let d = held_tail_draw(tail_top, tail_h, head_top, head_h, held, upside_down);
        if d.1 <= 0 {
            None
        } else {
            Some(d)
        }
    }
}

/// The arithmetic of the tail cut stays inside `i32`.
pub open spec fn tail_piece_fits(
    tail_top: i32,
    tail_h: u32,
    head_top: i32,
    head_h: u32,
    held: bool,
    upside_down: bool,
) -> bool {
    let end = tail_top + tail_h;
    let anchor = head_top + head_h / 2;
    &&& tail_h <= i32::MAX
    &&& in_i32(end)
    &&& held ==> {
        &&& head_h <= i32::MAX
        &&& in_i32(anchor)
        &&& (upside_down && tail_top < anchor) ==> in_i32(end - anchor)
        &&& (!upside_down && end > anchor) ==> in_i32(anchor - tail_top)
    }
}

/// The part of a long note's tail to draw this frame, as (top, height); the
/// caller maps the height onto the texture.
pub fn long_note_tail_piece(
    show_ln: bool,
    tail_top: i32,
    tail_h: u32,
    head_top: i32,
    head_h: u32,
    held: bool,
    upside_down: bool,
    view_top: i32,
    view_bottom: i32,
) -> (r: Option<(i32, i32)>)
    requires
        tail_piece_fits(tail_top, tail_h, head_top, head_h, held, upside_down),
    ensures
        match r {
            Some((y, h)) => tail_piece(show_ln, tail_top as int, tail_h as int, head_top as int, head_h as int,
                held, upside_down, view_top as int, view_bottom as int) == Some((y as int, h as int)),
            None => tail_piece(show_ln, tail_top as int, tail_h as int, head_top as int, head_h as int, held,
                upside_down, view_top as int, view_bottom as int) is None,
        },
{
    let th = tail_h as i32;
    let tail_end = tail_top + th;
    if !(show_ln && tail_top < view_bottom && tail_end > view_top) {
        return None;
    }
    let mut draw_h = th;
    let mut draw_y = tail_top;
    if held {
        let anchor = head_top + (head_h as i32) / 2;
        if upside_down {
            if tail_top < anchor {
                let visible = tail_end - anchor;
                if visible <= 0 {
                    draw_h = 0;
                } else if visible < th {
                    draw_h = visible;
                    draw_y = anchor;
                }
            }
        } else if tail_end > anchor {
            let visible = anchor - tail_top;
            if visible <= 0 {
                draw_h = 0;
            } else if visible < th {
                draw_h = visible;
            }
        }
    }
    if draw_h <= 0 {
        None
    } else {
        Some((draw_y, draw_h))
    }
}

/// A held tail never crosses the head's centre line: scrolling down the piece
/// ends at or above it, scrolling up it starts at or below it; and the piece
/// always lies within the tail.
pub proof fn lemma_held_tail_stays_behind_head(
    show_ln: bool,
    tail_top: int,
    tail_h: int,
    head_top: int,
    head_h: int,
    upside_down: bool,
    view_top: int,
    view_bottom: int,
)
    requires
        tail_h >= 0,
        head_h >= 0,
    ensures
        tail_piece(show_ln, tail_top, tail_h, head_top, head_h, true, upside_down, view_top, view_bottom)
            matches Some((y, h)) ==> {
            &&& tail_top <= y
            &&& y + h <= tail_top + tail_h
            &&& if upside_down {
                y >= head_top + head_h / 2
            } else {
                y + h <= head_top + head_h / 2
            }
        },
{
}

/// The visible part of a long-note body as distances along the body from its
/// start (its top scrolling down, its bottom scrolling up); none when either
/// span is empty or nothing is visible.
pub open spec fn body_visible_distances(
    visible_top: i32,
    visible_bottom: i32,
    full_top: i32,
    full_bottom: i32,
    upside_down: bool,
) -> Option<(int, int)> {
    if visible_bottom <= visible_top || full_bottom <= full_top {
        None
    } else {
        let (s, e) = if upside_down {
            (full_bottom - visible_bottom, full_bottom - visible_top)
        } else {
            (visible_top - full_top, visible_bottom - full_top)
        };
        if e > s {
            Some((s, e))
        } else {
            None
        }
    }
}

pub fn legacy_body_visible_distances(
    visible_top: i32,
    visible_bottom: i32,
    full_top: i32,
    full_bottom: i32,
    upside_down: bool,
) -> (r: Option<(i32, i32)>)
    requires
        !(visible_bottom <= visible_top || full_bottom <= full_top) ==> if upside_down {
            in_i32(full_bottom - visible_bottom) && in_i32(full_bottom - visible_top)
        } else {
            in_i32(visible_top - full_top) && in_i32(visible_bottom - full_top)
        },
    ensures
        match r {
            Some((s, e)) => body_visible_distances(visible_top, visible_bottom, full_top, full_bottom, upside_down)
                == Some((s as int, e as int)),
            None => body_visible_distances(visible_top, visible_bottom, full_top, full_bottom, upside_down) is None,
        },
{
    if visible_bottom <= visible_top || full_bottom <= full_top {
        return None;
    }
    let (s, e) = if upside_down {
        (full_bottom - visible_bottom, full_bottom - visible_top)
    } else {
        (visible_top - full_top, visible_bottom - full_top)
    };
    if e > s {
        Some((s, e))
    } else {
        None
    }
}

/// Distances along a body back on screen, as (top, bottom).
pub open spec fn body_distance_to_screen(full_top: i32, full_bottom: i32, upside_down: bool, start_d: i32, end_d: i32) -> (int, int) {
    if upside_down {
        (full_bottom - end_d, full_bottom - start_d)
    } else {
        (full_top + start_d, full_top + end_d)
    }
}

pub fn legacy_body_distance_to_screen(full_top: i32, full_bottom: i32, upside_down: bool, start_d: i32, end_d: i32) -> (r: (i32, i32))
    requires
        in_i32(body_distance_to_screen(full_top, full_bottom, upside_down, start_d, end_d).0),
        in_i32(body_distance_to_screen(full_top, full_bottom, upside_down, start_d, end_d).1),
    ensures
        (r.0 as int, r.1 as int) == body_distance_to_screen(full_top, full_bottom, upside_down, start_d, end_d),
{
    if upside_down {
        (full_bottom - end_d, full_bottom - start_d)
    } else {
        (full_top + start_d, full_top + end_d)
    }
}

/// Mapping the visible distances back to the screen gives the visible span.
pub proof fn lemma_body_distances_round_trip(
    visible_top: i32,
    visible_bottom: i32,
    full_top: i32,
    full_bottom: i32,
    upside_down: bool,
)
    ensures
        body_visible_distances(visible_top, visible_bottom, full_top, full_bottom, upside_down) matches Some((s, e))
            ==> (if upside_down {
            (full_bottom - e, full_bottom - s)
        } else {
            (full_top + s, full_top + e)
        }) == (visible_top as int, visible_bottom as int),
{
}

/// One tile of a repeating legacy body: where it is drawn on screen, and the
/// part of the texture it shows (in texture pixels from the tile's start).
#[derive(Debug, Clone, Copy, PartialEq, Eq, Structural)]
pub struct RepeatTile {
    pub draw_top: i32,
    pub draw_bottom: i32,
    pub texture_start: i32,
    pub texture_end: i32,
}

/// Tiles `k..=last` of height `t` along the body, cut to the visible span
/// `[vs, ve)` of distances; empty cuts are skipped.
pub open spec fn repeat_tiles_from(
    k: int,
    last: int,
    vs: int,
    ve: int,
    t: int,
    full_top: int,
    full_bottom: int,
    upside_down: bool,
) -> Seq<RepeatTile>
    decreases last + 1 - k,
{
    if k > last {
        seq![]
    } else {
        let ts = k * t;
        let ds = max_i(vs, ts);
        let de = min_i(ve, ts + t);
        let rest = repeat_tiles_from(k + 1, last, vs, ve, t, full_top, full_bottom, upside_down);
        if de <= ds {
            rest
        } else {
            let (top, bottom) = if upside_down {
                (full_bottom - de, full_bottom - ds)
            } else {
                (full_top + ds, full_top + de)
            };
            seq![
                RepeatTile {
                    draw_top: top as i32,
                    draw_bottom: bottom as i32,
                    texture_start: (ds - ts) as i32,
                    texture_end: (de - ts) as i32,
                },
            ] + rest
        }
    }
}

/// The tiles of a repeating body: tiles of `tile_h` pixels (at least one)
/// counted from the body's start, so that clipping does not shift their phase,
/// each cut to the visible part.
pub open spec fn repeating_body_tiles(
    visible_top: i32,
    visible_bottom: i32,
    full_top: i32,
    full_bottom: i32,
    tile_h: u32,
    upside_down: bool,
) -> Seq<RepeatTile> {
    let t: int = if tile_h >= 1 {
        tile_h as int
    } else {
        1
    };
    match body_visible_distances(visible_top, visible_bottom, full_top, full_bottom, upside_down) {
        Some((vs, ve)) => repeat_tiles_from(
            vs / t,
            (ve - 1) / t,
            vs,
            ve,
            t,
            full_top as int,
            full_bottom as int,
            upside_down,
        ),
        None => seq![],
    }
}

/// The tiling arithmetic stays inside `i32` (as it must for it not to overflow).
pub open spec fn repeat_fits(
    visible_top: i32,
    visible_bottom: i32,
    full_top: i32,
    full_bottom: i32,
    tile_h: u32,
    upside_down: bool,
) -> bool {
    let t: int = if tile_h >= 1 {
        tile_h as int
    } else {
        1
    };
    !(visible_bottom <= visible_top || full_bottom <= full_top) ==> {
        &&& t <= i32::MAX
        &&& if upside_down {
            in_i32(full_bottom - visible_bottom) && in_i32(full_bottom - visible_top)
        } else {
            in_i32(visible_top - full_top) && in_i32(visible_bottom - full_top)
        }
        &&& body_visible_distances(visible_top, visible_bottom, full_top, full_bottom, upside_down) matches Some(
            (vs, ve),
        ) ==> in_i32(vs - t) && in_i32(ve + t)
    }
}

fn floor_div(x: i32, t: i32) -> (q: i32)
    requires
        t >= 1,
    ensures
        q == x as int / t as int,
{
    let xi: i64 = x as i64;
    let ti: i64 = t as i64;
    let q: i64 = if xi >= 0 {
        xi / ti
    } else {
        0 - ((0 - xi + ti - 1) / ti)
    };
    proof {
        let x: int = xi as int;
        let d: int = ti as int;
        if xi < 0 {
            let a: int = 0 - x + d - 1;
            let r: int = a / d;
            assert(q == 0 - r);
            assert(d * r <= a < d * r + d) by (nonlinear_arith)
                requires
                    d >= 1,
                    r == a / d,
            ;
            assert(x / d == 0 - r) by (nonlinear_arith)
                requires
                    d >= 1,
                    a == 0 - x + d - 1,
                    d * r <= a < d * r + d,
            ;
        }
        assert(i32::MIN <= x / d <= i32::MAX) by (nonlinear_arith)
            requires
                d >= 1,
                i32::MIN <= x <= i32::MAX,
        ;
    }
    q as i32
}

proof fn lemma_repeat_step(
    k: int,
    last: int,
    vs: int,
    ve: int,
    t: int,
    full_top: int,
    full_bottom: int,
    upside_down: bool,
)
    requires
        k <= last,
    ensures
        ({
            let ts = k * t;
            let ds = max_i(vs, ts);
            let de = min_i(ve, ts + t);
            let rest = repeat_tiles_from(k + 1, last, vs, ve, t, full_top, full_bottom, upside_down);
            repeat_tiles_from(k, last, vs, ve, t, full_top, full_bottom, upside_down) == if de <= ds {
                rest
            } else {
                let (top, bottom) = if upside_down {
                    (full_bottom - de, full_bottom - ds)
                } else {
                    (full_top + ds, full_top + de)
                };
                seq![
                    RepeatTile {
                        draw_top: top as i32,
                        draw_bottom: bottom as i32,
                        texture_start: (ds - ts) as i32,
                        texture_end: (de - ts) as i32,
                    },
                ] + rest
            }
        }),
{
}

pub fn legacy_repeating_body_tiles(
    visible_top: i32,
    visible_bottom: i32,
    full_top: i32,
    full_bottom: i32,
    tile_h: u32,
    upside_down: bool,
) -> (tiles: Vec<RepeatTile>)
    requires
        repeat_fits(visible_top, visible_bottom, full_top, full_bottom, tile_h, upside_down),
    ensures
        tiles@ == repeating_body_tiles(visible_top, visible_bottom, full_top, full_bottom, tile_h, upside_down),
{
    let mut tiles: Vec<RepeatTile> = Vec::new();
    let (vs, ve) = match legacy_body_visible_distances(visible_top, visible_bottom, full_top, full_bottom, upside_down) {
        Some(d) => d,
        None => return tiles,
    };
    let t: i32 = if tile_h >= 1 {
        tile_h as i32
    } else {
        1
    };
    let first = floor_div(vs, t);
    let last = floor_div(ve - 1, t);
    let ghost g_first = first as int;
    proof {
        assert(first as int * t as int <= vs) by (nonlinear_arith)
            requires
                t >= 1,
                first as int == vs as int / t as int,
        ;
        assert(vs - t < first as int * t as int) by (nonlinear_arith)
            requires
                t >= 1,
                first as int == vs as int / t as int,
        ;
        assert(last as int * t as int <= ve - 1) by (nonlinear_arith)
            requires
                t >= 1,
                last as int == (ve - 1) as int / t as int,
        ;
        assert(first <= last) by (nonlinear_arith)
            requires
                t >= 1,
                vs <= ve - 1,
                first as int == vs as int / t as int,
                last as int == (ve - 1) as int / t as int,
        ;
        assert(last * t <= ve - 1);
        assert(last < i32::MAX) by (nonlinear_arith)
            requires
                t >= 1,
                last as int * t as int <= ve - 1,
                ve + t <= i32::MAX,
        ;
    }
    let mut k: i32 = first;
    while k <= last
        invariant
            t >= 1,
            first <= k || first > last,
            k as int * t as int >= vs - t,
            last as int * t as int <= ve - 1,
            in_i32(vs - t),
            in_i32(ve + t),
            vs < ve,
            if upside_down {
                in_i32(full_bottom - ve) && in_i32(full_bottom - vs)
            } else {
                in_i32(full_top + vs) && in_i32(full_top + ve)
            },
            k <= last + 1,
            last < i32::MAX,
            tiles@ + repeat_tiles_from(k as int, last as int, vs as int, ve as int, t as int, full_top as int, full_bottom as int, upside_down)
                == repeat_tiles_from(g_first, last as int, vs as int, ve as int, t as int, full_top as int, full_bottom as int, upside_down),
        decreases last as int + 1 - k as int,
    {
        proof {
            lemma_repeat_step(k as int, last as int, vs as int, ve as int, t as int, full_top as int, full_bottom as int, upside_down);
            assert(k as int * t as int <= last as int * t as int) by (nonlinear_arith)
                requires
                    k <= last,
                    t >= 1,
            ;
            assert((k as int + 1) * t as int == k as int * t as int + t as int) by (nonlinear_arith);
        }
        let ts: i32 = k * t;
        let te: i32 = ts + t;
        let ds = if vs >= ts {
            vs
        } else {
            ts
        };
        let de = if ve <= te {
            ve
        } else {
            te
        };
        if de > ds {
            let (top, bottom) = if upside_down {
                (full_bottom - de, full_bottom - ds)
            } else {
                (full_top + ds, full_top + de)
            };
            let ghost before = tiles@;
            tiles.push(RepeatTile { draw_top: top, draw_bottom: bottom, texture_start: ds - ts, texture_end: de - ts });
            assert(before + repeat_tiles_from(k as int, last as int, vs as int, ve as int, t as int, full_top as int, full_bottom as int, upside_down)
                =~= tiles@ + repeat_tiles_from(k + 1, last as int, vs as int, ve as int, t as int, full_top as int, full_bottom as int, upside_down));
        }
        k = k + 1;
    }
    assert(repeat_tiles_from(k as int, last as int, vs as int, ve as int, t as int, full_top as int, full_bottom as int, upside_down) =~= Seq::<RepeatTile>::empty());
    assert(tiles@ =~= tiles@ + Seq::<RepeatTile>::empty());
    tiles
}

/// How far along the body a repeat tile's drawn part starts.
pub open spec fn tile_start_distance(tile: RepeatTile, full_top: int, full_bottom: int, upside_down: bool) -> int {
    if upside_down {
        full_bottom - tile.draw_bottom
    } else {
        tile.draw_top - full_top
    }
}

proof fn lemma_repeat_tiles_from_phase(
    k: int,
    last: int,
    vs: int,
    ve: int,
    t: int,
    full_top: int,
    full_bottom: int,
    upside_down: bool,
)
    requires
        1 <= t <= i32::MAX,
        vs < ve,
        k * t > vs - t,
        if upside_down {
            in_i32(full_bottom - ve) && in_i32(full_bottom - vs)
        } else {
            in_i32(full_top + vs) && in_i32(full_top + ve)
        },
    ensures
        forall|i: int|
            0 <= i < repeat_tiles_from(k, last, vs, ve, t, full_top, full_bottom, upside_down).len() ==> {
                let tile = #[trigger] repeat_tiles_from(k, last, vs, ve, t, full_top, full_bottom, upside_down)[i];
                &&& tile.texture_start as int == tile_start_distance(tile, full_top, full_bottom, upside_down) % t
                &&& vs <= tile_start_distance(tile, full_top, full_bottom, upside_down) < ve
            },
    decreases last + 1 - k,
{
    if k <= last {
        let ts = k * t;
        let ds = max_i(vs, ts);
        let de = min_i(ve, ts + t);
        assert((k + 1) * t == k * t + t) by (nonlinear_arith);
        lemma_repeat_tiles_from_phase(k + 1, last, vs, ve, t, full_top, full_bottom, upside_down);
        let rest = repeat_tiles_from(k + 1, last, vs, ve, t, full_top, full_bottom, upside_down);
        let all = repeat_tiles_from(k, last, vs, ve, t, full_top, full_bottom, upside_down);
        if de > ds {
            assert(0 <= ds - ts < t);
            assert(ds % t == ds - ts) by (nonlinear_arith)
                requires
                    t >= 1,
                    ts == k * t,
                    0 <= ds - ts < t,
            ;
            assert forall|i: int| 0 <= i < all.len() implies {
                let tile = #[trigger] all[i];
                &&& tile.texture_start as int == tile_start_distance(tile, full_top, full_bottom, upside_down) % t
                &&& vs <= tile_start_distance(tile, full_top, full_bottom, upside_down) < ve
            } by {
                if i > 0 {
                    assert(all[i] == rest[i - 1]);
                }
            }
        }
    }
}

/// Clipping does not move a repeating body's texture: every tile shows the
/// texture from the point its distance along the whole body gives (that
/// distance modulo the tile height), whatever part of the body is visible.
pub proof fn lemma_repeat_phase_follows_the_body(
    visible_top: i32,
    visible_bottom: i32,
    full_top: i32,
    full_bottom: i32,
    tile_h: u32,
    upside_down: bool,
)
    requires
        repeat_fits(visible_top, visible_bottom, full_top, full_bottom, tile_h, upside_down),
    ensures
        forall|i: int|
            0 <= i < repeating_body_tiles(visible_top, visible_bottom, full_top, full_bottom, tile_h, upside_down).len()
                ==> {
                let tile = #[trigger] repeating_body_tiles(
                    visible_top,
                    visible_bottom,
                    full_top,
                    full_bottom,
                    tile_h,
                    upside_down,
                )[i];
                tile.texture_start as int == tile_start_distance(tile, full_top as int, full_bottom as int, upside_down)
                    % (if tile_h >= 1 {
                    tile_h as int
                } else {
                    1
                })
            },
{
    let t: int = if tile_h >= 1 {
        tile_h as int
    } else {
        1
    };
    if let Some((vs, ve)) = body_visible_distances(visible_top, visible_bottom, full_top, full_bottom, upside_down) {
        assert((vs / t) * t > vs - t) by (nonlinear_arith)
            requires
                t >= 1,
        ;
        lemma_repeat_tiles_from_phase(vs / t, (ve - 1) / t, vs, ve, t, full_top as int, full_bottom as int, upside_down);
    }
}

/// What a part of a cascading body shows: a stretch of the texture (in
/// texture pixels), or its edge row stretched over the part.
#[derive(Debug, Clone, Copy, PartialEq, Eq, Structural)]
pub enum SegmentFill {
    Texture { from: i32, to: i32 },
    EdgeRow,
}

/// A drawn part of a cascading legacy body.
#[derive(Debug, Clone, Copy, PartialEq, Eq, Structural)]
pub struct BodySegment {
    pub draw_top: i32,
    pub draw_bottom: i32,
    pub fill: SegmentFill,
}

/// The part `[bs, be)` of the body cut to the visible distances `[vs, ve)`,
/// back on screen; a texture part starts `tex_start` pixels into the texture.
pub open spec fn clip_segment(
    vs: int,
    ve: int,
    bs: int,
    be: int,
    tex_start: int,
    full_top: int,
    full_bottom: int,
    upside_down: bool,
    edge_row: bool,
) -> Seq<BodySegment> {
    let ds = max_i(vs, bs);
    let de = min_i(ve, be);
    if de <= ds {
        seq![]
    } else {
        let (top, bottom) = if upside_down {
            (full_bottom - de, full_bottom - ds)
        } else {
            (full_top + ds, full_top + de)
        };
        seq![
            BodySegment {
                draw_top: top as i32,
                draw_bottom: bottom as i32,
                fill: if edge_row {
                    SegmentFill::EdgeRow
                } else {
                    SegmentFill::Texture { from: (tex_start + ds - bs) as i32, to: (tex_start + de - bs) as i32 }
                },
            },
        ]
    }
}

/// A cascading body: a body texture whose end repeats its edge row. Bottom
/// repeating: the texture (at most `cap_h` pixels, from its top) starts the
/// body and its last row fills the rest. Top repeating: its first row fills
/// the body up to the last `cap_h` pixels, which show the end of the texture.
/// Other styles do not cascade.
pub open spec fn cascade_segments(
    visible_top: i32,
    visible_bottom: i32,
    full_top: i32,
    full_bottom: i32,
    cap_h: u32,
    style: NoteBodyStyle,
    upside_down: bool,
) -> Seq<BodySegment> {
    let cap: int = if cap_h >= 1 {
        cap_h as int
    } else {
        1
    };
    let full_len = full_bottom - full_top;
    let textured = min_i(full_len, cap);
    let ft = full_top as int;
    let fb = full_bottom as int;
    match body_visible_distances(visible_top, visible_bottom, full_top, full_bottom, upside_down) {
        Some((vs, ve)) => match style {
            NoteBodyStyle::RepeatBottom => clip_segment(vs, ve, 0, textured, 0, ft, fb, upside_down, false)
                + clip_segment(vs, ve, cap, full_len, 0, ft, fb, upside_down, true),
            NoteBodyStyle::RepeatTop => {
                let repeated = full_len - cap;
                clip_segment(vs, ve, 0, repeated, 0, ft, fb, upside_down, true) + clip_segment(
                    vs,
                    ve,
                    repeated,
                    full_len,
                    cap - textured,
                    ft,
                    fb,
                    upside_down,
                    false,
                )
            },
            _ => seq![],
        },
        None => seq![],
    }
}

/// The arithmetic of a cascading body stays inside `i32`.
pub open spec fn cascade_fits(
    visible_top: i32,
    visible_bottom: i32,
    full_top: i32,
    full_bottom: i32,
    cap_h: u32,
    style: NoteBodyStyle,
    upside_down: bool,
) -> bool {
    let cap: int = if cap_h >= 1 {
        cap_h as int
    } else {
        1
    };
    !(visible_bottom <= visible_top || full_bottom <= full_top) ==> {
        &&& cap_h <= i32::MAX
        &&& in_i32(full_bottom - full_top)
        &&& style is RepeatTop ==> cap - min_i(full_bottom - full_top, cap) + cap <= i32::MAX
        &&& if upside_down {
            in_i32(full_bottom - visible_bottom) && in_i32(full_bottom - visible_top)
        } else {
            in_i32(visible_top - full_top) && in_i32(visible_bottom - full_top)
        }
    }
}

fn push_clip_segment(
    out: &mut Vec<BodySegment>,
    vs: i32,
    ve: i32,
    bs: i32,
    be: i32,
    tex_start: i32,
    full_top: i32,
    full_bottom: i32,
    upside_down: bool,
    edge_row: bool,
)
    requires
        vs < ve,
        0 <= tex_start,
        tex_start + (be - bs) <= i32::MAX,
        if upside_down {
            in_i32(full_bottom - ve) && in_i32(full_bottom - vs)
        } else {
            in_i32(full_top + vs) && in_i32(full_top + ve)
        },
    ensures
        final(out)@ == old(out)@ + clip_segment(
            vs as int,
            ve as int,
            bs as int,
            be as int,
            tex_start as int,
            full_top as int,
            full_bottom as int,
            upside_down,
            edge_row,
        ),
{
    let ds = if vs >= bs {
        vs
    } else {
        bs
    };
    let de = if ve <= be {
        ve
    } else {
        be
    };
    if de <= ds {
        assert(old(out)@ + clip_segment(vs as int, ve as int, bs as int, be as int, tex_start as int, full_top as int, full_bottom as int, upside_down, edge_row) =~= old(out)@);
        return;
    }
    let (top, bottom) = if upside_down {
        (full_bottom - de, full_bottom - ds)
    } else {
        (full_top + ds, full_top + de)
    };
    let fill = if edge_row {
        SegmentFill::EdgeRow
    } else {
        SegmentFill::Texture { from: tex_start + (ds - bs), to: tex_start + (de - bs) }
    };
    out.push(BodySegment { draw_top: top, draw_bottom: bottom, fill });
    assert(final(out)@ =~= old(out)@ + clip_segment(vs as int, ve as int, bs as int, be as int, tex_start as int, full_top as int, full_bottom as int, upside_down, edge_row));
}

pub fn legacy_cascade_body_segments(
    visible_top: i32,
    visible_bottom: i32,
    full_top: i32,
    full_bottom: i32,
    cap_h: u32,
    style: NoteBodyStyle,
    upside_down: bool,
) -> (segments: Vec<BodySegment>)
    requires
        cascade_fits(visible_top, visible_bottom, full_top, full_bottom, cap_h, style, upside_down),
    ensures
        segments@ == cascade_segments(visible_top, visible_bottom, full_top, full_bottom, cap_h, style, upside_down),
{
    let mut out: Vec<BodySegment> = Vec::new();
    let (vs, ve) = match legacy_body_visible_distances(visible_top, visible_bottom, full_top, full_bottom, upside_down) {
        Some(d) => d,
        None => return out,
    };
    let full_len: i32 = full_bottom - full_top;
    let cap: i32 = if cap_h >= 1 {
        cap_h as i32
    } else {
        1
    };
    let textured: i32 = if full_len <= cap {
        full_len
    } else {
        cap
    };
    match style {
        NoteBodyStyle::RepeatBottom => {
            push_clip_segment(&mut out, vs, ve, 0, textured, 0, full_top, full_bottom, upside_down, false);
            push_clip_segment(&mut out, vs, ve, cap, full_len, 0, full_top, full_bottom, upside_down, true);
            assert(out@ =~= Seq::<BodySegment>::empty() + clip_segment(vs as int, ve as int, 0, textured as int, 0, full_top as int, full_bottom as int, upside_down, false)
                + clip_segment(vs as int, ve as int, cap as int, full_len as int, 0, full_top as int, full_bottom as int, upside_down, true));
        },
        NoteBodyStyle::RepeatTop => {
            let repeated: i32 = full_len - cap;
            push_clip_segment(&mut out, vs, ve, 0, repeated, 0, full_top, full_bottom, upside_down, true);
            push_clip_segment(&mut out, vs, ve, repeated, full_len, cap - textured, full_top, full_bottom, upside_down, false);
            assert(out@ =~= Seq::<BodySegment>::empty() + clip_segment(vs as int, ve as int, 0, repeated as int, 0, full_top as int, full_bottom as int, upside_down, true)
                + clip_segment(vs as int, ve as int, repeated as int, full_len as int, (cap - textured) as int, full_top as int, full_bottom as int, upside_down, false));
        },
        _ => {},
    }
    out
}

/// The drawn height of a body segment.
pub open spec fn segment_height(seg: BodySegment) -> int {
    seg.draw_bottom - seg.draw_top
}

/// A cascading body is drawn without gaps or overlaps: its one or two parts
/// lie inside the visible span, meet where one ends, and together are exactly
/// as tall as the visible span.
#[verifier::rlimit(40)]
pub proof fn lemma_cascade_covers_visible_span(
    visible_top: i32,
    visible_bottom: i32,
    full_top: i32,
    full_bottom: i32,
    cap_h: u32,
    style: NoteBodyStyle,
    upside_down: bool,
)
    requires
        cascade_fits(visible_top, visible_bottom, full_top, full_bottom, cap_h, style, upside_down),
        style is RepeatTop || style is RepeatBottom,
        body_visible_distances(visible_top, visible_bottom, full_top, full_bottom, upside_down) is Some,
        full_top <= visible_top,
        visible_bottom <= full_bottom,
    ensures
        ({
            let segs = cascade_segments(visible_top, visible_bottom, full_top, full_bottom, cap_h, style, upside_down);
            &&& 1 <= segs.len() <= 2
            &&& forall|i: int| 0 <= i < segs.len() ==> visible_top <= #[trigger] segs[i].draw_top
                < segs[i].draw_bottom <= visible_bottom
            &&& segs.len() == 1 ==> segs[0].draw_top == visible_top && segs[0].draw_bottom == visible_bottom
            &&& segs.len() == 2 ==> segment_height(segs[0]) + segment_height(segs[1]) == visible_bottom
                - visible_top
            &&& segs.len() == 2 ==> (segs[0].draw_bottom == segs[1].draw_top || segs[1].draw_bottom
                == segs[0].draw_top)
        }),
{
    let cap: int = if cap_h >= 1 {
        cap_h as int
    } else {
        1
    };
    let full_len = full_bottom - full_top;
    let textured = min_i(full_len, cap);
    let ft = full_top as int;
    let fb = full_bottom as int;
    let (vs, ve) = body_visible_distances(visible_top, visible_bottom, full_top, full_bottom, upside_down).unwrap();
    assert(0 <= vs < ve <= full_len);
    let segs = cascade_segments(visible_top, visible_bottom, full_top, full_bottom, cap_h, style, upside_down);
    if style is RepeatBottom {
        let a = clip_segment(vs, ve, 0, textured, 0, ft, fb, upside_down, false);
        let b = clip_segment(vs, ve, cap, full_len, 0, ft, fb, upside_down, true);
        assert(segs == a + b);
        if a.len() == 1 && b.len() == 1 {
            assert(segs[0] == a[0] && segs[1] == b[0]);
        } else if a.len() == 1 {
            assert(segs =~= a);
        } else {
            assert(segs =~= b);
        }
    } else {
        let repeated = full_len - cap;
        let a = clip_segment(vs, ve, 0, repeated, 0, ft, fb, upside_down, true);
        let b = clip_segment(vs, ve, repeated, full_len, cap - textured, ft, fb, upside_down, false);
        assert(segs == a + b);
        if a.len() == 1 && b.len() == 1 {
            assert(segs[0] == a[0] && segs[1] == b[0]);
        } else if a.len() == 1 {
            assert(segs =~= a);
        } else {
            assert(segs =~= b);
        }
    }
}

} // verus!
