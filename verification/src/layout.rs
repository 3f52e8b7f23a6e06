//! Stage and column geometry in canvas pixels.
use vstd::prelude::*;
use crate::long_notes::{half, trunc_half, in_i32};

verus! {

#[derive(Debug, Clone, Copy, Default)]
pub struct ColumnLayout {
    pub x: i32,
    pub width: u32,
}

/// The skin's stage box, plus the drawn playfield's vertical extent
/// (`view_top_y`..`view_bottom_y`), which can differ from the box on tall canvases.
#[derive(Debug, Clone, Copy, Default)]
pub struct StageLayout {
    pub x: i32,
    pub y: i32,
    pub width: u32,
    pub height: u32,
    pub hit_y: i32,
    pub top_y: i32,
    pub bottom_y: i32,
    pub view_top_y: i32,
    pub view_bottom_y: i32,
}

/// A HUD component's rectangle as the editor preview reports it.
#[derive(Debug, Clone, Copy)]
pub struct HudEditorPreviewRect {
    pub x: i32,
    pub y: i32,
    pub width: u32,
    pub height: u32,
}

/// Top edge of a note piece whose leading edge is at `lead_y`: the leading edge
/// is the bottom when scrolling down and the top when scrolling up.
pub fn scroll_piece_top_y(upside_down: bool, lead_y: i32, height: i32) -> (top: i32)
    requires
        !upside_down ==> i32::MIN <= lead_y - height,
        !upside_down ==> lead_y - height <= i32::MAX,
    ensures
        top == (if upside_down { lead_y as int } else { lead_y - height }),
{
    if upside_down {
        lead_y
    } else {
        lead_y - height
    }
}


/// Height of the drawn playfield, at least one pixel.
pub open spec fn playfield_height(stage: StageLayout) -> int {
    let h = stage.view_bottom_y - stage.view_top_y;
    if h >= 1 {
        h
    } else {
        1
    }
}

pub fn view_height(stage: &StageLayout) -> (h: u32)
    requires
        i32::MIN <= stage.view_bottom_y - stage.view_top_y <= i32::MAX,
    ensures
        h as int == playfield_height(*stage),
{
    let h = stage.view_bottom_y - stage.view_top_y;
    if h >= 1 {
        h as u32
    } else {
        1
    }
}

/// Distance a note covers from entering the playfield to the hit line: from
/// the top edge scrolling down, from the bottom edge scrolling up; at least one.
pub open spec fn scroll_travel(stage: StageLayout, upside_down: bool) -> int {
    let d = if upside_down {
        stage.bottom_y - stage.hit_y
    } else {
        stage.hit_y - stage.top_y
    };
    if d >= 1 {
        d
    } else {
        1
    }
}

pub fn scroll_travel_px(stage: &StageLayout, upside_down: bool) -> (d: i32)
    requires
        upside_down ==> i32::MIN <= stage.bottom_y - stage.hit_y <= i32::MAX,
        !upside_down ==> i32::MIN <= stage.hit_y - stage.top_y <= i32::MAX,
    ensures
        d as int == scroll_travel(*stage, upside_down),
{
    let d = if upside_down {
        stage.bottom_y - stage.hit_y
    } else {
        stage.hit_y - stage.top_y
    };
    if d >= 1 {
        d
    } else {
        1
    }
}

/// `v` clamped to `[lo, max(hi, lo)]`.
pub open spec fn clamp_to(v: int, lo: int, hi: int) -> int {
    let top = if hi >= lo {
        hi
    } else {
        lo
    };
    if v < lo {
        lo
    } else if v > top {
        top
    } else {
        v
    }
}

/// Where a debug label centred on a note goes: centred on the note, kept
/// inside the stage horizontally (its left edge wins when the label is wider
/// than the stage).
pub open spec fn debug_label_x(stage: StageLayout, note_x: i32, note_w: u32, label_w: u32) -> int {
    clamp_to(
        note_x + trunc_half(note_w - label_w),
        stage.x as int,
        stage.x + stage.width - label_w,
    )
}

/// Vertically the same, inside the drawn playfield.
pub open spec fn debug_label_y(stage: StageLayout, note_top_y: i32, note_h: u32, label_h: u32) -> int {
    clamp_to(
        note_top_y + trunc_half(note_h - label_h),
        stage.view_top_y as int,
        stage.view_bottom_y - label_h,
    )
}

fn clamp_i32(v: i32, lo: i32, hi: i32) -> (r: i32)
    ensures
        r == clamp_to(v as int, lo as int, hi as int),
{
    let top = if hi >= lo {
        hi
    } else {
        lo
    };
    if v < lo {
        lo
    } else if v > top {
        top
    } else {
        v
    }
}

pub fn note_debug_label_x(stage: &StageLayout, note_x: i32, note_w: u32, label_w: u32) -> (x: i32)
    requires
        note_w <= i32::MAX,
        label_w <= i32::MAX,
        i32::MIN <= note_x + trunc_half(note_w - label_w) <= i32::MAX,
        stage.width <= i32::MAX,
        stage.x + stage.width <= i32::MAX,
        i32::MIN <= stage.x + stage.width - label_w,
    ensures
        x == debug_label_x(*stage, note_x, note_w, label_w),
{
    let raw_x = note_x + half(note_w as i32 - label_w as i32);
    let max_x = stage.x + stage.width as i32 - label_w as i32;
    clamp_i32(raw_x, stage.x, max_x)
}

pub fn note_debug_head_y(stage: &StageLayout, note_top_y: i32, note_h: u32, label_h: u32) -> (y: i32)
    requires
        note_h <= i32::MAX,
        label_h <= i32::MAX,
        i32::MIN <= note_top_y + trunc_half(note_h - label_h) <= i32::MAX,
        i32::MIN <= stage.view_bottom_y - label_h,
    ensures
        y == debug_label_y(*stage, note_top_y, note_h, label_h),
{
    let raw_y = note_top_y + half(note_h as i32 - label_h as i32);
    let max_y = stage.view_bottom_y - label_h as i32;
    clamp_i32(raw_y, stage.view_top_y, max_y)
}

/// The editor preview boxes of the stage furniture: the left and right edge
/// pieces flush against the stage's sides, the bottom piece centred under the
/// stage (over it when upside down), and the hit-line hint centred on the hit
/// line; all as tall as the stage box except the last two.
pub open spec fn stage_left_box(stage: StageLayout, width: u32) -> (int, int, u32, u32) {
    (stage.x - width, stage.top_y as int, width, stage.height)
}

pub open spec fn stage_right_box(stage: StageLayout, width: u32) -> (int, int, u32, u32) {
    (stage.x + stage.width, stage.top_y as int, width, stage.height)
}

pub open spec fn stage_bottom_box(stage: StageLayout, upside_down: bool, width: u32, height: u32) -> (int, int, u32, u32) {
    (
        stage.x + stage.width / 2 - width / 2,
        if upside_down {
            stage.top_y as int
        } else {
            stage.bottom_y - height
        },
        width,
        height,
    )
}

pub open spec fn stage_hint_box(stage: StageLayout, height: u32) -> (int, int, u32, u32) {
    (
        stage.x as int,
        stage.hit_y - height / 2,
        if stage.width >= 1 {
            stage.width
        } else {
            1
        },
        height,
    )
}

pub open spec fn rect_view(r: HudEditorPreviewRect) -> (int, int, u32, u32) {
    (r.x as int, r.y as int, r.width, r.height)
}

pub fn stage_left_preview(stage: &StageLayout, width: u32) -> (r: HudEditorPreviewRect)
    requires
        width <= i32::MAX,
        i32::MIN <= stage.x - width,
    ensures
        rect_view(r) == stage_left_box(*stage, width),
{
    HudEditorPreviewRect { x: stage.x - width as i32, y: stage.top_y, width, height: stage.height }
}

pub fn stage_right_preview(stage: &StageLayout, width: u32) -> (r: HudEditorPreviewRect)
    requires
        stage.width <= i32::MAX,
        stage.x + stage.width <= i32::MAX,
    ensures
        rect_view(r) == stage_right_box(*stage, width),
{
    HudEditorPreviewRect {
        x: stage.x + stage.width as i32,
        y: stage.top_y,
        width,
        height: stage.height,
    }
}

pub fn stage_bottom_preview(stage: &StageLayout, upside_down: bool, width: u32, height: u32) -> (r: HudEditorPreviewRect)
    requires
        stage.width <= i32::MAX,
        width <= i32::MAX,
        height <= i32::MAX,
        stage.x + stage.width / 2 <= i32::MAX,
        i32::MIN <= stage.x + stage.width / 2 - width / 2,
        !upside_down ==> i32::MIN <= stage.bottom_y - height,
    ensures
        rect_view(r) == stage_bottom_box(*stage, upside_down, width, height),
{
    let center_x = stage.x + (stage.width / 2) as i32;
    let y = if upside_down {
        stage.top_y
    } else {
        stage.bottom_y - height as i32
    };
    HudEditorPreviewRect { x: center_x - (width / 2) as i32, y, width, height }
}

pub fn stage_hint_preview(stage: &StageLayout, height: u32) -> (r: HudEditorPreviewRect)
    requires
        height <= i32::MAX,
        i32::MIN <= stage.hit_y - height / 2,
    ensures
        rect_view(r) == stage_hint_box(*stage, height),
{
    let width = if stage.width >= 1 {
        stage.width
    } else {
        1
    };
    HudEditorPreviewRect { x: stage.x, y: stage.hit_y - (height / 2) as i32, width, height }
}

/// A bar line is planned from 400 ms after it passed to 8 s before it arrives.
pub open spec fn barline_window(barline_ms: i32, timestamp_ms: i32) -> bool {
    timestamp_ms - 400 <= barline_ms <= timestamp_ms + 8000
}

pub fn barline_in_window(barline_ms: i32, timestamp_ms: i32) -> (b: bool)
    requires
        i32::MIN + 400 <= timestamp_ms <= i32::MAX - 8000,
    ensures
        b == barline_window(barline_ms, timestamp_ms),
{
    !(barline_ms < timestamp_ms - 400 || barline_ms > timestamp_ms + 8000)
}

/// The separator lines between neighbouring columns: each starts where the
/// left column ends and may be as wide as the gap to the right column (at
/// least one pixel).
pub open spec fn separators(columns: Seq<ColumnLayout>) -> Seq<(int, int)> {
    Seq::new(
        if columns.len() >= 2 {
            (columns.len() - 1) as nat
        } else {
            0
        },
        |i: int|
            {
                let x = columns[i].x + columns[i].width;
                let gap = columns[i + 1].x - x;
                (x, if gap >= 1 {
                    gap
                } else {
                    1
                })
            },
    )
}

/// The separators fit `i32` arithmetic.
pub open spec fn separators_fit(columns: Seq<ColumnLayout>) -> bool {
    forall|i: int|
        0 <= i < columns.len() - 1 ==> {
            &&& #[trigger] columns[i].width <= i32::MAX
            &&& columns[i].x + columns[i].width <= i32::MAX
            &&& in_i32(columns[i + 1].x - (columns[i].x + columns[i].width))
        }
}

pub fn column_separators(columns: &[ColumnLayout]) -> (out: Vec<(i32, u32)>)
    requires
        separators_fit(columns@),
    ensures
        out@.len() == separators(columns@).len(),
        forall|i: int|
            0 <= i < out@.len() ==> (out@[i].0 as int, out@[i].1 as int) == #[trigger] separators(columns@)[i],
{
    let mut out: Vec<(i32, u32)> = Vec::new();
    if columns.len() < 2 {
        return out;
    }
    let n = columns.len() - 1;
    for idx in 0..n
        invariant
            n == columns@.len() - 1,
            separators_fit(columns@),
            out@.len() == idx,
            forall|i: int|
                0 <= i < idx ==> (out@[i].0 as int, out@[i].1 as int) == #[trigger] separators(columns@)[i],
    {
        let left = columns[idx];
        let right = columns[idx + 1];
        assert(left.width <= i32::MAX);
        let x = left.x + left.width as i32;
        let gap = right.x - x;
        let max_width: u32 = if gap >= 1 {
            gap as u32
        } else {
            1
        };
        out.push((x, max_width));
    }
    out
}

} // verus!
