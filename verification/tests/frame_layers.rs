use replay_renderer::frame::{
    get_layer_order_keys_over, get_layer_order_keys_under, is_consumed, is_note_visible,
    render_layer_rank, should_dim_miss, FrameBuilder, InternalJudgment, RenderLayer,
};
use replay_renderer::judgment::JudgmentKind;

fn judged(kind: JudgmentKind, time: i32, press_time: Option<i32>) -> InternalJudgment {
    InternalJudgment { index: 0, time, kind, press_time }
}

#[test]
fn note_visibility_uses_the_margin_on_both_sides() {
    // Note spans [100, 120]; visible band [200 - 50, 800 + 50].
    assert!(!is_note_visible(100, 20, 200, 800, 50));
    assert!(is_note_visible(130, 20, 200, 800, 50));
    assert!(is_note_visible(850, 20, 200, 800, 50));
    assert!(!is_note_visible(851, 20, 200, 800, 50));
    assert!(is_note_visible(0, 0, 0, 0, 0));
}

#[test]
fn hit_notes_are_consumed_once_their_hit_time_passes() {
    let great = judged(JudgmentKind::Hit300, 1000, Some(990));
    assert!(!is_consumed(Some(&great), 989, 1000));
    assert!(is_consumed(Some(&great), 990, 1000));
    let no_press = judged(JudgmentKind::Max, 1000, None);
    assert!(!is_consumed(Some(&no_press), 999, 1000));
    assert!(is_consumed(Some(&no_press), 1000, 1000));
    assert!(!is_consumed(None, 5000, 1000));
}

#[test]
fn misses_and_fifties_stay_visible() {
    let miss = judged(JudgmentKind::Miss, 1200, None);
    let fifty = judged(JudgmentKind::Hit50, 1100, Some(1100));
    assert!(!is_consumed(Some(&miss), 9999, 1000));
    assert!(!is_consumed(Some(&fifty), 9999, 1000));
}

#[test]
fn misses_dim_after_the_later_of_window_edge_and_judgment() {
    let miss = judged(JudgmentKind::Miss, 1100, None);
    // edge = 1000 + 150 = 1150 >= 1100
    assert!(!should_dim_miss(Some(&miss), 1149, 1000, 150));
    assert!(should_dim_miss(Some(&miss), 1150, 1000, 150));
    let late_miss = judged(JudgmentKind::Miss, 1300, None);
    assert!(!should_dim_miss(Some(&late_miss), 1299, 1000, 150));
    assert!(should_dim_miss(Some(&late_miss), 1300, 1000, 150));
    let good = judged(JudgmentKind::Hit100, 1000, Some(1000));
    assert!(!should_dim_miss(Some(&good), 5000, 1000, 150));
    assert!(!should_dim_miss(None, 5000, 1000, 150));
}

#[test]
fn layer_orders_place_keys_under_or_over_the_notes() {
    assert_eq!(
        get_layer_order_keys_under(),
        vec![
            RenderLayer::StageBackground,
            RenderLayer::ColumnBackground,
            RenderLayer::Barlines,
            RenderLayer::KeysUnder,
            RenderLayer::Notes,
            RenderLayer::LongNotes,
            RenderLayer::StageBottom,
            RenderLayer::Lighting,
            RenderLayer::Hud
        ]
    );
    assert_eq!(
        get_layer_order_keys_over(),
        vec![
            RenderLayer::StageBackground,
            RenderLayer::ColumnBackground,
            RenderLayer::Barlines,
            RenderLayer::Notes,
            RenderLayer::LongNotes,
            RenderLayer::KeysOver,
            RenderLayer::StageBottom,
            RenderLayer::Lighting,
            RenderLayer::Hud
        ]
    );
    assert_eq!(render_layer_rank(RenderLayer::StageBackground), 0);
    assert_eq!(render_layer_rank(RenderLayer::Hud), 9);
}

#[test]
fn built_frames_are_in_painter_order_and_stable_within_a_layer() {
    let mut builder: FrameBuilder<&str> = FrameBuilder::new();
    builder.add(RenderLayer::Hud, "score");
    builder.add(RenderLayer::Notes, "note-a");
    builder.add(RenderLayer::StageBackground, "stage");
    builder.add(RenderLayer::Notes, "note-b");
    builder.add(RenderLayer::Lighting, "light");
    builder.add(RenderLayer::Notes, "note-c");
    builder.add(RenderLayer::Hud, "combo");
    let frame = builder.build(1280, 720, 4242);
    assert_eq!(
        frame.overlays,
        vec!["stage", "note-a", "note-b", "note-c", "light", "score", "combo"]
    );
    assert_eq!((frame.width, frame.height, frame.timestamp), (1280, 720, 4242));
}

#[test]
fn cleared_builder_builds_an_empty_frame() {
    let mut builder: FrameBuilder<u32> = FrameBuilder::new();
    builder.add(RenderLayer::Notes, 1);
    builder.clear();
    let frame = builder.build(1, 1, 0);
    assert!(frame.overlays.is_empty());
}
