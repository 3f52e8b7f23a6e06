use replay_renderer::beatmap::{HitObject, HitSample};
use replay_renderer::judgment::{JudgmentKind, ReleaseKind};
use replay_renderer::long_notes::{
    clip_long_note_body, compute_ln_render_info, ln_effective_end_time, HeadTint, LnGeometry,
    LnLeadTimes, LnRenderInfo, legacy_repeating_body_tiles, RepeatTile,
    legacy_cascade_body_segments, BodySegment, SegmentFill, long_note_tail_piece,
};
use replay_renderer::skin_images::NoteBodyStyle;
use replay_renderer::model::{LnReleaseInfo, RenderJudgment};

fn note() -> HitObject {
    HitObject {
        column: 0,
        time: 1000,
        end_time: Some(2000),
        long_note: true,
        hit_sound: 0,
        hit_sample: HitSample::default(),
    }
}

fn head(kind: JudgmentKind, press_time: Option<i32>) -> Option<RenderJudgment> {
    Some(RenderJudgment { idx: 0, column: 0, time: 1000, kind, press_time, rel_time: None, is_ln: true })
}

fn released(kind: ReleaseKind, time: i32, double_tap: bool) -> Option<LnReleaseInfo> {
    Some(LnReleaseInfo { kind, time: Some(time), rescued: false, double_tap })
}

fn geometry(head_bottom_y: i32, tail_top_y: i32, release_head_bottom_y: Option<i32>) -> LnGeometry {
    LnGeometry {
        upside_down: false,
        judgment_y: 600,
        head_h: 20,
        tail_h: 20,
        head_bottom_y,
        release_head_bottom_y,
        tail_top_y,
        top_y: 0,
        bottom_y: 720,
    }
}

const LEADS: LnLeadTimes = LnLeadTimes { press: 990, release: 1490, end: 1990 };

#[test]
fn a_held_note_stops_its_head_at_the_receptor() {
    let info = compute_ln_render_info(
        &note(),
        1500,
        head(JudgmentKind::Max, Some(1000)),
        None,
        true,
        &geometry(800, 300, None),
        &LEADS,
    );
    assert_eq!(
        info,
        LnRenderInfo {
            show_ln: true,
            finished_normally: false,
            head_top_y: 580,
            tail_top_y: 300,
            body_top_y: 310,
            body_bottom_y: 590,
            allow_pass: false,
            head_tint: HeadTint::Normal,
            is_broken: false,
            held: true,
        }
    );
}

#[test]
fn a_held_tail_closes_up_at_the_receptor() {
    let info = compute_ln_render_info(
        &note(),
        1995,
        head(JudgmentKind::Hit300, Some(1000)),
        None,
        true,
        &geometry(900, 590, None),
        &LEADS,
    );
    assert!(info.held && info.show_ln && !info.finished_normally);
    assert_eq!((info.head_top_y, info.tail_top_y), (580, 580));
    assert_eq!((info.body_top_y, info.body_bottom_y), (590, 590));
}

#[test]
fn a_held_note_finishes_at_its_end() {
    let info = compute_ln_render_info(
        &note(),
        2000,
        head(JudgmentKind::Max, Some(1000)),
        None,
        true,
        &geometry(900, 590, None),
        &LEADS,
    );
    assert!(info.finished_normally);
    assert!(!info.show_ln && !info.held && !info.allow_pass);
    assert_eq!(info.head_tint, HeadTint::Unset);
}

#[test]
fn an_unpressed_miss_is_shown_broken_and_passes_through() {
    let info = compute_ln_render_info(
        &note(),
        1200,
        head(JudgmentKind::Miss, None),
        None,
        false,
        &geometry(400, 100, None),
        &LEADS,
    );
    assert_eq!(
        info,
        LnRenderInfo {
            show_ln: true,
            finished_normally: false,
            head_top_y: 380,
            tail_top_y: 100,
            body_top_y: 110,
            body_bottom_y: 390,
            allow_pass: true,
            head_tint: HeadTint::Normal,
            is_broken: true,
            held: false,
        }
    );
}

#[test]
fn a_missed_release_dims_and_keeps_the_head_where_it_was_released() {
    let info = compute_ln_render_info(
        &note(),
        1600,
        head(JudgmentKind::Max, Some(1000)),
        released(ReleaseKind::Miss, 1500, false),
        false,
        &geometry(900, 350, Some(650)),
        &LEADS,
    );
    assert_eq!(
        info,
        LnRenderInfo {
            show_ln: true,
            finished_normally: false,
            head_top_y: 630,
            tail_top_y: 350,
            body_top_y: 360,
            body_bottom_y: 640,
            allow_pass: true,
            head_tint: HeadTint::MissDim,
            is_broken: true,
            held: false,
        }
    );
}

#[test]
fn a_fifty_release_dims_as_fifty() {
    let info = compute_ln_render_info(
        &note(),
        1600,
        head(JudgmentKind::Max, Some(1000)),
        released(ReleaseKind::Hit50, 1500, false),
        false,
        &geometry(900, 350, None),
        &LEADS,
    );
    assert_eq!(info.head_tint, HeadTint::FiftyDim);
    assert!(!info.is_broken && info.allow_pass);
    // Without a release position the head keeps its scrolled place.
    assert_eq!(info.head_top_y, 880);
}

#[test]
fn a_good_release_finishes_the_note() {
    let info = compute_ln_render_info(
        &note(),
        1950,
        head(JudgmentKind::Max, Some(1000)),
        released(ReleaseKind::Hit300, 1900, false),
        false,
        &geometry(900, 590, None),
        &LEADS,
    );
    assert!(info.finished_normally && !info.show_ln);
}

#[test]
fn a_bad_release_finishes_once_the_tail_leaves_the_playfield() {
    let mut g = geometry(900, 700, None);
    let on_screen = compute_ln_render_info(
        &note(),
        1600,
        head(JudgmentKind::Max, Some(1000)),
        released(ReleaseKind::Hit50, 1500, false),
        false,
        &g,
        &LEADS,
    );
    assert!(!on_screen.finished_normally);
    g.tail_top_y = 771;
    let gone = compute_ln_render_info(
        &note(),
        1600,
        head(JudgmentKind::Max, Some(1000)),
        released(ReleaseKind::Hit50, 1500, false),
        false,
        &g,
        &LEADS,
    );
    assert!(gone.finished_normally);
    // Scrolling up, the tail leaves past the top edge instead.
    let mut up = geometry(0, -71, None);
    up.upside_down = true;
    let gone_up = compute_ln_render_info(
        &note(),
        1600,
        head(JudgmentKind::Max, Some(1000)),
        released(ReleaseKind::Miss, 1500, true),
        false,
        &up,
        &LEADS,
    );
    assert!(gone_up.finished_normally);
}

#[test]
fn late_releases_stretch_the_end_by_at_most_the_timeout() {
    assert_eq!(ln_effective_end_time(&note(), None), 2000);
    assert_eq!(ln_effective_end_time(&note(), released(ReleaseKind::Hit100, 2100, false)), 2100);
    assert_eq!(ln_effective_end_time(&note(), released(ReleaseKind::Hit100, 2500, false)), 2200);
    assert_eq!(ln_effective_end_time(&note(), released(ReleaseKind::Hit100, 1500, false)), 2000);
}

#[test]
fn bodies_are_clipped_to_the_playfield_and_the_receptor() {
    let mut info = LnRenderInfo {
        show_ln: true,
        finished_normally: false,
        head_top_y: 0,
        tail_top_y: 0,
        body_top_y: -50,
        body_bottom_y: 800,
        allow_pass: true,
        head_tint: HeadTint::Normal,
        is_broken: false,
        held: false,
    };
    assert_eq!(clip_long_note_body(&info, 0, 720, 610, false), Some((0, 720)));
    info.allow_pass = false;
    assert_eq!(clip_long_note_body(&info, 0, 720, 610, false), Some((0, 610)));
    assert_eq!(clip_long_note_body(&info, 0, 720, 610, true), Some((610, 720)));
    info.body_bottom_y = -50;
    assert_eq!(clip_long_note_body(&info, 0, 720, 610, false), None);
}

#[test]
fn repeating_bodies_tile_from_the_body_start() {
    let t = |draw_top: i32, draw_bottom: i32, texture_start: i32, texture_end: i32| RepeatTile {
        draw_top,
        draw_bottom,
        texture_start,
        texture_end,
    };
    assert_eq!(
        legacy_repeating_body_tiles(10, 40, 0, 100, 16, false),
        vec![t(10, 16, 10, 16), t(16, 32, 0, 16), t(32, 40, 0, 8)]
    );
    assert_eq!(
        legacy_repeating_body_tiles(60, 90, 0, 100, 16, true),
        vec![t(84, 90, 10, 16), t(68, 84, 0, 16), t(60, 68, 0, 8)]
    );
    // A body that starts above the visible area keeps its phase.
    assert_eq!(
        legacy_repeating_body_tiles(0, 20, -8, 100, 16, false),
        vec![t(0, 8, 8, 16), t(8, 20, 0, 12)]
    );
    assert!(legacy_repeating_body_tiles(40, 40, 0, 100, 16, false).is_empty());
    assert!(legacy_repeating_body_tiles(0, 10, 50, 50, 16, false).is_empty());
    // A zero tile height is taken as one pixel.
    assert_eq!(legacy_repeating_body_tiles(0, 3, 0, 10, 0, false).len(), 3);
}

#[test]
fn cascading_bodies_repeat_their_edge_row() {
    let seg = |draw_top: i32, draw_bottom: i32, fill: SegmentFill| BodySegment { draw_top, draw_bottom, fill };
    let tex = |from: i32, to: i32| SegmentFill::Texture { from, to };
    assert_eq!(
        legacy_cascade_body_segments(0, 100, 0, 100, 30, NoteBodyStyle::RepeatBottom, false),
        vec![seg(0, 30, tex(0, 30)), seg(30, 100, SegmentFill::EdgeRow)]
    );
    assert_eq!(
        legacy_cascade_body_segments(0, 100, 0, 100, 30, NoteBodyStyle::RepeatTop, false),
        vec![seg(0, 70, SegmentFill::EdgeRow), seg(70, 100, tex(0, 30))]
    );
    assert_eq!(
        legacy_cascade_body_segments(0, 100, 0, 100, 30, NoteBodyStyle::RepeatBottom, true),
        vec![seg(70, 100, tex(0, 30)), seg(0, 70, SegmentFill::EdgeRow)]
    );
    // Only the visible part is drawn.
    assert_eq!(
        legacy_cascade_body_segments(50, 80, 0, 100, 30, NoteBodyStyle::RepeatBottom, false),
        vec![seg(50, 80, SegmentFill::EdgeRow)]
    );
    // A body shorter than the texture: the texture part is offset past its start.
    assert_eq!(
        legacy_cascade_body_segments(0, 20, 0, 20, 30, NoteBodyStyle::RepeatTop, false),
        vec![seg(0, 20, tex(20, 40))]
    );
    assert!(legacy_cascade_body_segments(0, 100, 0, 100, 30, NoteBodyStyle::Stretch, false).is_empty());
}

#[test]
fn a_held_tail_is_cut_at_the_head_centre_scrolling_down() {
    // Tail 100..140, head 120..140: its centre line is at 130.
    assert_eq!(long_note_tail_piece(true, 100, 40, 120, 20, true, false, 0, 480), Some((100, 30)));
    // Not held: the whole tail.
    assert_eq!(long_note_tail_piece(true, 100, 40, 120, 20, false, false, 0, 480), Some((100, 40)));
    // Wholly past the centre line: nothing is drawn.
    assert_eq!(long_note_tail_piece(true, 140, 40, 120, 20, true, false, 0, 480), None);
}

#[test]
fn a_held_tail_is_cut_at_the_head_centre_scrolling_up() {
    // Tail 100..140, head 100..120: its centre line is at 110; the part below stays.
    assert_eq!(long_note_tail_piece(true, 100, 40, 100, 20, true, true, 0, 480), Some((110, 30)));
    assert_eq!(long_note_tail_piece(true, 60, 40, 100, 20, true, true, 0, 480), None);
}

#[test]
fn tails_outside_the_view_or_of_hidden_notes_are_not_drawn() {
    assert_eq!(long_note_tail_piece(true, 500, 40, 0, 20, false, false, 0, 480), None);
    assert_eq!(long_note_tail_piece(true, -40, 40, 0, 20, false, false, 0, 480), None);
    assert_eq!(long_note_tail_piece(false, 100, 40, 0, 20, false, false, 0, 480), None);
}
