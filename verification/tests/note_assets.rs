use replay_renderer::layout::{
    note_debug_head_y, note_debug_label_x, stage_bottom_preview, stage_hint_preview,
    stage_left_preview, stage_right_preview, HudEditorPreviewRect, StageLayout,
    barline_in_window, column_separators, ColumnLayout,
};
use replay_renderer::skin_images::{
    resolve_tail_draw_asset, resolve_tail_geometry_asset, resolve_visible_gameplay_asset,
    AssetCandidate,
};

fn cand(name: Option<&str>, visible: bool) -> AssetCandidate {
    AssetCandidate { name: name.map(|n| n.to_string()), visible }
}

#[test]
fn transparent_or_empty_candidates_fall_through() {
    let cands = [cand(Some(""), true), cand(Some("head"), false), cand(Some("note"), true)];
    assert_eq!(resolve_visible_gameplay_asset(&cands), Some("note".to_string()));
    assert_eq!(resolve_visible_gameplay_asset(&[cand(None, true)]), None);
    assert_eq!(resolve_visible_gameplay_asset(&[]), None);
}

#[test]
fn tail_geometry_uses_the_tail_image_even_when_transparent() {
    let tail = cand(Some("tail"), false);
    let head = cand(Some("head"), true);
    let note = cand(Some("note"), true);
    assert_eq!(resolve_tail_geometry_asset(&tail, &head, &note), Some("tail".to_string()));
    assert_eq!(
        resolve_tail_geometry_asset(&cand(None, false), &head, &note),
        Some("head".to_string())
    );
    assert_eq!(
        resolve_tail_geometry_asset(&cand(Some(""), true), &cand(Some("head"), false), &note),
        Some("note".to_string())
    );
}

#[test]
fn a_transparent_tail_image_draws_nothing() {
    let head = cand(Some("head"), true);
    let note = cand(Some("note"), true);
    assert_eq!(resolve_tail_draw_asset(&cand(Some("tail"), false), &head, &note), None);
    assert_eq!(
        resolve_tail_draw_asset(&cand(Some("tail"), true), &head, &note),
        Some("tail".to_string())
    );
    assert_eq!(resolve_tail_draw_asset(&cand(None, true), &head, &note), Some("head".to_string()));
    assert_eq!(
        resolve_tail_draw_asset(&cand(None, true), &cand(None, true), &cand(Some("note"), false)),
        None
    );
}

fn stage() -> StageLayout {
    StageLayout {
        x: 100,
        y: 0,
        width: 200,
        height: 480,
        hit_y: 400,
        top_y: 0,
        bottom_y: 480,
        view_top_y: 10,
        view_bottom_y: 470,
    }
}

#[test]
fn debug_labels_stay_inside_the_stage() {
    let s = stage();
    assert_eq!(note_debug_label_x(&s, 150, 50, 20), 165);
    assert_eq!(note_debug_label_x(&s, 90, 10, 30), 100);
    assert_eq!(note_debug_label_x(&s, 290, 50, 30), 270);
    // Wider than the stage: the left edge wins.
    assert_eq!(note_debug_label_x(&s, 150, 50, 300), 100);
    // An odd difference rounds toward zero.
    assert_eq!(note_debug_label_x(&s, 150, 20, 25), 148);
    assert_eq!(note_debug_head_y(&s, 100, 30, 10), 110);
    assert_eq!(note_debug_head_y(&s, 0, 10, 10), 10);
    assert_eq!(note_debug_head_y(&s, 465, 10, 10), 460);
}

fn rect(r: HudEditorPreviewRect) -> (i32, i32, u32, u32) {
    (r.x, r.y, r.width, r.height)
}

#[test]
fn stage_furniture_preview_boxes() {
    let s = stage();
    assert_eq!(rect(stage_left_preview(&s, 30)), (70, 0, 30, 480));
    assert_eq!(rect(stage_right_preview(&s, 30)), (300, 0, 30, 480));
    assert_eq!(rect(stage_bottom_preview(&s, false, 61, 40)), (170, 440, 61, 40));
    assert_eq!(rect(stage_bottom_preview(&s, true, 61, 40)), (170, 0, 61, 40));
    assert_eq!(rect(stage_hint_preview(&s, 9)), (100, 396, 200, 9));
    let narrow = StageLayout { width: 0, ..s };
    assert_eq!(rect(stage_hint_preview(&narrow, 9)).2, 1);
}

#[test]
fn bar_lines_are_planned_inside_their_window() {
    assert!(barline_in_window(600, 1000));
    assert!(!barline_in_window(599, 1000));
    assert!(barline_in_window(9000, 1000));
    assert!(!barline_in_window(9001, 1000));
}

#[test]
fn column_separators_fill_the_gaps() {
    let cols = [
        ColumnLayout { x: 0, width: 50 },
        ColumnLayout { x: 52, width: 50 },
        ColumnLayout { x: 102, width: 50 },
    ];
    assert_eq!(column_separators(&cols), vec![(50, 2), (102, 1)]);
    assert!(column_separators(&cols[..1]).is_empty());
}
