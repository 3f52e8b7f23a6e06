use replay_renderer::gpu::{next_available_buffer, BatchBuilder, BufferState};
use replay_renderer::health::{HealthEvent, HealthEventKind, HealthTimeline};
use replay_renderer::hud::{legacy_hud_base_name, LegacyHudTextKind};
use replay_renderer::hud_props::{
    binding_text, configured_keys, judgment_change_age_for_binding, judgment_counter_visible,
    key_counter_label, override_flag, override_text, parse_hex_rgba, BeatmapTexts, PropValue,
    counter_rolled_from, counter_value_text, step_counter_animation, CounterAnimation,
};
use replay_renderer::long_notes::{legacy_body_distance_to_screen, legacy_body_visible_distances};
use replay_renderer::state::LastJudgment;
use replay_renderer::hud_tree::{hud_draw_order, hud_layer_kind, hud_roots, HudLayerKind, HudNode, HudRoots};
use replay_renderer::judgment::JudgmentKind;
use replay_renderer::keys::{
    latest_release_age, legacy_key_down_visible, legacy_stage_light_phase, HudKeyTailRelease,
    StageLightPhase,
    live_tail_releases, key_base_texture, key_press_overlay_visible, padded_column_span,
    key_sprite_top_for_stage_edge, KeyArt,
};
use replay_renderer::layout::{ColumnLayout, StageLayout};
use replay_renderer::model::{
    get_note_render_state, replay_mod_texture_candidates, RenderJudgment, ReplayModDisplay,
    ReplayOrigin,
};
use replay_renderer::skin_images::{cascade_body_trim_range, NoteBodyStyle};

fn event(time: i32, life_after: f32) -> HealthEvent<f32> {
    HealthEvent { time, note_index: 0, kind: HealthEventKind::Tap, delta: 0.0, life_after }
}

#[test]
fn life_is_read_from_the_last_event_at_or_before_the_time() {
    let timeline = HealthTimeline {
        initial_life: 1.0f32,
        events: vec![event(100, 0.9), event(200, 0.8), event(200, 0.75), event(300, 0.6)],
        hp_multiplier_normal: 1.0,
        fail_time_ms: None,
    };
    assert_eq!(timeline.life_at_time(0), 1.0);
    assert_eq!(timeline.life_at_time(99), 1.0);
    assert_eq!(timeline.life_at_time(100), 0.9);
    assert_eq!(timeline.life_at_time(250), 0.75);
    assert_eq!(timeline.life_at_time(i32::MAX), 0.6);
    let empty: HealthTimeline<f32> = HealthTimeline {
        initial_life: 0.5,
        events: vec![],
        hp_multiplier_normal: 1.0,
        fail_time_ms: Some(10),
    };
    assert_eq!(empty.life_at_time(50), 0.5);
}

fn release(key_index: usize, released_at_ms: i32) -> HudKeyTailRelease {
    HudKeyTailRelease { key_index, released_at_ms, duration_ms: 100 }
}

#[test]
fn key_art_lingers_briefly_after_the_latest_release() {
    let releases = vec![release(0, 1000), release(1, 1010), release(0, 1100)];
    assert_eq!(latest_release_age(&releases, 0, 1150), Some(50));
    assert_eq!(latest_release_age(&releases, 1, 1150), Some(140));
    assert_eq!(latest_release_age(&releases, 2, 1150), None);
    assert!(legacy_key_down_visible(&releases, 0, 0, 1179));
    assert!(!legacy_key_down_visible(&releases, 0, 0, 1180));
    assert!(!legacy_key_down_visible(&releases, 0, 0, 1099));
    assert!(legacy_key_down_visible(&releases, 2, 0b100, 0));
    assert!(!legacy_key_down_visible(&releases, 2, 0b011, 0));
    assert_eq!(legacy_stage_light_phase(&releases, 1, 0b10, 5000), Some(StageLightPhase::Held));
    assert_eq!(legacy_stage_light_phase(&releases, 1, 0, 1100), Some(StageLightPhase::Fading(90)));
    assert_eq!(legacy_stage_light_phase(&releases, 1, 0, 1260), None);
    assert_eq!(legacy_stage_light_phase(&releases, 3, 0, 1260), None);
}

fn tap_judgment(kind: JudgmentKind, press_time: Option<i32>) -> Option<RenderJudgment> {
    Some(RenderJudgment { idx: 0, column: 0, time: 1000, kind, press_time, rel_time: None, is_ln: false })
}

#[test]
fn tap_note_states() {
    let hit = get_note_render_state(tap_judgment(JudgmentKind::Hit300, Some(990)), 995, 0);
    assert!(hit.consumed && !hit.miss_dim && !hit.fifty_dim);
    let early = get_note_render_state(tap_judgment(JudgmentKind::Hit300, Some(990)), 989, 0);
    assert!(!early.consumed);
    let miss = get_note_render_state(tap_judgment(JudgmentKind::Miss, Some(1100)), 1090, 1088);
    assert!(!miss.consumed && miss.miss_dim);
    let unpressed_miss = get_note_render_state(tap_judgment(JudgmentKind::Miss, None), 5000, 0);
    assert!(!unpressed_miss.miss_dim);
    let fifty = get_note_render_state(tap_judgment(JudgmentKind::Hit50, None), 1000, 0);
    assert!(fifty.fifty_dim && !fifty.consumed);
    let none = get_note_render_state(None, 1000, 0);
    assert!(!none.consumed && !none.miss_dim && !none.fifty_dim);
}

#[test]
fn mod_badges_try_stable_icons_or_lazer_paths() {
    let stable = ReplayModDisplay { origin: ReplayOrigin::StableLegacy, acronyms: vec![] };
    assert_eq!(
        replay_mod_texture_candidates(Some(&stable), "hd"),
        Some(vec![
            "selection-mod-hidden@2x.png".to_string(),
            "selection-mod-hidden.png".to_string(),
            "selection-mod-hidden@2x".to_string(),
            "selection-mod-hidden".to_string(),
        ])
    );
    assert_eq!(replay_mod_texture_candidates(Some(&stable), "ZZ"), None);
    let lazer = ReplayModDisplay { origin: ReplayOrigin::LazerExport, acronyms: vec![] };
    assert_eq!(
        replay_mod_texture_candidates(Some(&lazer), "CL"),
        Some(vec!["replay-mods/lazer/cl.png".to_string()])
    );
    assert_eq!(replay_mod_texture_candidates(None, "HD"), None);
}

#[test]
fn legacy_glyph_names() {
    assert_eq!(legacy_hud_base_name(LegacyHudTextKind::Accuracy, "Score", '%'), "score-percent.png");
    assert_eq!(legacy_hud_base_name(LegacyHudTextKind::Score, "Score", '%'), "score-%.png");
    assert_eq!(legacy_hud_base_name(LegacyHudTextKind::Score, "score", '.'), "score-dot.png");
    assert_eq!(legacy_hud_base_name(LegacyHudTextKind::Accuracy, "score", ','), "score-comma.png");
    assert_eq!(legacy_hud_base_name(LegacyHudTextKind::Score, "Combo", '7'), "combo-7.png");
}

#[test]
fn hex_colours() {
    assert_eq!(parse_hex_rgba("#ff8000"), Some([255, 128, 0, 255]));
    assert_eq!(parse_hex_rgba("  #11223344 "), Some([0x11, 0x22, 0x33, 0x44]));
    assert_eq!(parse_hex_rgba("#abc"), Some([0xaa, 0xbb, 0xcc, 255]));
    assert_eq!(parse_hex_rgba("#ABCDEF"), Some([0xab, 0xcd, 0xef, 255]));
    assert_eq!(parse_hex_rgba("#+abcde"), Some([0x0a, 0xbc, 0xde, 255]));
    assert_eq!(parse_hex_rgba("ff8000"), None);
    assert_eq!(parse_hex_rgba("#ff80"), None);
    assert_eq!(parse_hex_rgba("#gg0000"), None);
    assert_eq!(parse_hex_rgba("#+ab"), None);
    assert_eq!(parse_hex_rgba("#ééé"), None);
    assert_eq!(parse_hex_rgba(""), None);
}

#[test]
fn key_labels_and_counter_visibility() {
    assert_eq!(key_counter_label(Some("Z"), 0), "Z");
    assert_eq!(key_counter_label(Some("  "), 0), "K1");
    assert_eq!(key_counter_label(None, 9), "K10");
    assert!(judgment_counter_visible(None, None));
    assert!(judgment_counter_visible(Some(true), None));
    assert!(!judgment_counter_visible(Some(false), Some(true)));
    assert!(!judgment_counter_visible(None, Some(false)));
}

fn rgba_rows(rows: &[u8]) -> Vec<u8> {
    // One pixel per row; the row's value fills all four channels.
    rows.iter().flat_map(|v| [*v, *v, *v, *v]).collect()
}

#[test]
fn repeated_body_rows_are_trimmed() {
    let data = rgba_rows(&[1, 2, 3, 3, 3]);
    assert_eq!(cascade_body_trim_range(&data, 1, 5, NoteBodyStyle::RepeatBottom), (0, 3));
    let data = rgba_rows(&[7, 7, 7, 2, 9]);
    assert_eq!(cascade_body_trim_range(&data, 1, 5, NoteBodyStyle::RepeatTop), (2, 3));
    let data = rgba_rows(&[4, 4, 4]);
    assert_eq!(cascade_body_trim_range(&data, 1, 3, NoteBodyStyle::RepeatBottom), (0, 1));
    assert_eq!(cascade_body_trim_range(&data, 1, 3, NoteBodyStyle::RepeatTop), (2, 1));
    assert_eq!(cascade_body_trim_range(&data, 1, 3, NoteBodyStyle::Stretch), (0, 3));
    assert_eq!(cascade_body_trim_range(&rgba_rows(&[5]), 1, 1, NoteBodyStyle::RepeatTop), (0, 1));
}

#[test]
fn batches_record_start_and_count() {
    let mut builder: BatchBuilder<u8> = BatchBuilder::new();
    builder.add_batch(7, &[1, 2, 3]);
    builder.add_batch(8, &[]);
    builder.add_batch(9, &[4]);
    assert_eq!(builder.instances, vec![1, 2, 3, 4]);
    assert_eq!(builder.batches, vec![(7, 0, 3), (9, 3, 1)]);
    assert_eq!(builder.instance_count(), 4);
    builder.clear();
    assert_eq!(builder.instance_count(), 0);
    assert!(builder.batches.is_empty());
}

#[test]
fn readback_buffers_are_taken_round_robin() {
    let states = [BufferState::Reading, BufferState::Available, BufferState::Rendering];
    assert_eq!(next_available_buffer(&states, 0), (Some(1), 2));
    assert_eq!(next_available_buffer(&states, 2), (Some(1), 2));
    let wrap = [BufferState::Available, BufferState::Reading, BufferState::Reading];
    assert_eq!(next_available_buffer(&wrap, 1), (Some(0), 1));
    let busy = [BufferState::Reading, BufferState::Rendering];
    assert_eq!(next_available_buffer(&busy, 1), (None, 1));
}

fn node(id: usize, z_index: i32, visible: bool, is_group: bool, children: Vec<HudNode>) -> HudNode {
    HudNode { id, z_index, visible, is_group, children }
}

#[test]
fn hud_layers_flatten_in_draw_order_with_group_ranges() {
    let roots = vec![
        node(0, 2, true, true, vec![node(1, 5, true, false, vec![]), node(2, 1500, true, false, vec![])]),
        node(3, -1, true, false, vec![node(4, 3, true, false, vec![])]),
        node(5, 1, false, true, vec![node(6, 0, true, false, vec![])]),
        node(7, i32::MAX, true, false, vec![]),
    ];
    assert_eq!(
        hud_draw_order(&roots),
        vec![(0, 2000), (1, 2005), (2, 2999), (3, -1000), (4, 3000), (5, 1000), (7, i32::MAX)]
    );
}

#[test]
fn key_counters_list_at_most_ten_keys_or_the_first_four() {
    assert_eq!(configured_keys(vec![]), vec!["k1", "k2", "k3", "k4"]);
    assert_eq!(configured_keys(vec!["a".to_string()]), vec!["a"]);
    let many: Vec<String> = (1..=12).map(|i| format!("k{i}")).collect();
    assert_eq!(configured_keys(many.clone()), many[..10].to_vec());
}

#[test]
fn text_bindings_show_song_times_and_beatmap_fields() {
    let beatmap = BeatmapTexts {
        title: "Title".to_string(),
        title_romanized: "Romaji".to_string(),
        artist: "Artist".to_string(),
        bpm_text: "180".to_string(),
        ..BeatmapTexts::default()
    };
    assert_eq!(binding_text("song.elapsed", 65_000, 0, &beatmap).as_deref(), Some("01:05"));
    assert_eq!(binding_text("song.duration", 0, 125_999, &beatmap).as_deref(), Some("02:05"));
    assert_eq!(binding_text("beatmap.titleRomanized", 0, 0, &beatmap).as_deref(), Some("Romaji"));
    assert_eq!(binding_text("beatmap.bpm", 0, 0, &beatmap).as_deref(), Some("180"));
    assert_eq!(binding_text("beatmap.source", 0, 0, &beatmap).as_deref(), Some(""));
    assert_eq!(binding_text("score.current", 0, 0, &beatmap), None);
}

#[test]
fn judgment_counter_ages_follow_the_latest_judgment() {
    let last = Some(LastJudgment { kind: JudgmentKind::Hit100, age_ms: 120, column: 2, hit_offset_ms: None });
    assert_eq!(judgment_change_age_for_binding(last, "judgments.hit100"), Some(120));
    assert_eq!(judgment_change_age_for_binding(last, "judgments.hit300"), None);
    assert_eq!(judgment_change_age_for_binding(last, "combo"), None);
    let future = Some(LastJudgment { kind: JudgmentKind::Miss, age_ms: -5, column: 0, hit_offset_ms: None });
    assert_eq!(judgment_change_age_for_binding(future, "judgments.miss"), None);
    assert_eq!(judgment_change_age_for_binding(None, "judgments.miss"), None);
}

#[test]
fn long_note_body_distances_round_trip() {
    assert_eq!(legacy_body_visible_distances(100, 300, 50, 500, false), Some((50, 250)));
    assert_eq!(legacy_body_visible_distances(100, 300, 50, 500, true), Some((200, 400)));
    assert_eq!(legacy_body_distance_to_screen(50, 500, false, 50, 250), (100, 300));
    assert_eq!(legacy_body_distance_to_screen(50, 500, true, 200, 400), (100, 300));
    assert_eq!(legacy_body_visible_distances(300, 300, 50, 500, false), None);
    assert_eq!(legacy_body_visible_distances(100, 300, 500, 500, false), None);
}

#[test]
fn overrides_shadow_shared_props_whatever_their_type() {
    let text = |s: &str| PropValue::Text(s.to_string());
    assert_eq!(override_text(&text("red"), &text("blue"), "white"), "red");
    assert_eq!(override_text(&PropValue::Absent, &text("blue"), "white"), "blue");
    assert_eq!(override_text(&PropValue::Absent, &PropValue::Absent, "white"), "white");
    // A blank or non-text override falls back without consulting the shared value.
    assert_eq!(override_text(&text("  "), &text("blue"), "white"), "white");
    assert_eq!(override_text(&PropValue::Other, &text("blue"), "white"), "white");
    assert_eq!(override_text(&text(" red "), &PropValue::Absent, "white"), " red ");
    assert!(!override_flag(&PropValue::Flag(false), &PropValue::Flag(true), true));
    assert!(override_flag(&PropValue::Absent, &PropValue::Flag(true), false));
    assert!(override_flag(&text("yes"), &PropValue::Flag(false), true));
}

#[test]
fn released_key_tails_travel_for_their_lifetime() {
    let r = |key_index: usize, released_at_ms: i32| HudKeyTailRelease {
        key_index,
        released_at_ms,
        duration_ms: 100,
    };
    let releases = [r(0, 1000), r(1, 1500), r(0, 1800), r(0, 2500), r(0, i32::MIN)];
    let live = live_tail_releases(&releases, 0, 2000, 700);
    let ages: Vec<i32> = live.iter().map(|(_, age)| *age).collect();
    // Released 1000 ms ago: past its 700 ms lifetime. Released in the future: not yet.
    assert_eq!(ages, vec![200]);
    assert_eq!(live[0].0.released_at_ms, 1800);
    assert_eq!(live_tail_releases(&releases, 1, 2000, 700).len(), 1);
    assert_eq!(live_tail_releases(&releases, 0, 1000, 0).len(), 1);
    // The age saturates instead of overflowing.
    assert!(live_tail_releases(&releases, 0, i32::MAX, i32::MAX).iter().any(|(_, a)| *a == i32::MAX));
}

#[test]
fn judgment_counters_animate_only_on_new_values() {
    let first = step_counter_animation(None, 5, 1000, 180);
    assert_eq!(first, CounterAnimation { previous_value: 5, current_value: 5, changed_at_ms: 820 });
    let same = step_counter_animation(Some(first), 5, 1500, 180);
    assert_eq!(same, first);
    let changed = step_counter_animation(Some(first), 7, 1600, 180);
    assert_eq!(changed, CounterAnimation { previous_value: 5, current_value: 7, changed_at_ms: 1600 });
    assert_eq!(counter_rolled_from(&changed, 7, true), 5);
    assert_eq!(counter_rolled_from(&changed, 7, false), 6);
    assert_eq!(counter_rolled_from(&changed, 0, false), 0);
}

#[test]
fn counter_text_is_zero_padded_to_the_widest_value() {
    assert_eq!(counter_value_text(7, 6, 4), "0007");
    assert_eq!(counter_value_text(12345, 12344, 4), "12345");
    assert_eq!(counter_value_text(99, 100, 0), "099");
    assert_eq!(counter_value_text(0, 0, 0), "0");
}

#[test]
fn key_art_base_and_overlay_alternate() {
    assert_eq!(key_base_texture(true, true, false), KeyArt::Base);
    assert_eq!(key_base_texture(true, true, true), KeyArt::Nothing);
    assert!(key_press_overlay_visible(true, true, true));
    assert_eq!(key_base_texture(true, false, true), KeyArt::Base);
    assert!(!key_press_overlay_visible(true, false, true));
    assert_eq!(key_base_texture(false, true, true), KeyArt::Down);
    assert!(!key_press_overlay_visible(false, true, true));
    assert_eq!(key_base_texture(false, true, false), KeyArt::Nothing);
    assert_eq!(key_base_texture(false, false, true), KeyArt::Nothing);
}

#[test]
fn key_sprites_are_inset_and_sit_on_the_stage_edge() {
    let col = ColumnLayout { x: 100, width: 50 };
    assert_eq!(padded_column_span(&col, 5), (105, 40));
    assert_eq!(padded_column_span(&col, 30), (130, 1));
    assert_eq!(padded_column_span(&col, -2), (98, 54));
    let stage = StageLayout { top_y: 10, bottom_y: 470, ..StageLayout::default() };
    assert_eq!(key_sprite_top_for_stage_edge(&stage, false, 60), 410);
    assert_eq!(key_sprite_top_for_stage_edge(&stage, true, 60), 10);
}

#[test]
fn hud_layer_types_map_to_what_they_draw() {
    assert_eq!(hud_layer_kind("group"), HudLayerKind::Group);
    assert_eq!(hud_layer_kind("media.gif"), HudLayerKind::Media);
    assert_eq!(hud_layer_kind("icon.static"), HudLayerKind::Media);
    assert_eq!(hud_layer_kind("text.bound"), HudLayerKind::Text);
    assert_eq!(hud_layer_kind("repeater.keyColumns"), HudLayerKind::KeyPress);
    assert_eq!(hud_layer_kind("widget.keyPress"), HudLayerKind::KeyPress);
    assert_eq!(hud_layer_kind("component.judgmentCounter"), HudLayerKind::JudgmentCounter);
    assert_eq!(hud_layer_kind("widget.judgmentCounter"), HudLayerKind::JudgmentCounterWidget);
    assert_eq!(hud_layer_kind("component.hitErrorMeter"), HudLayerKind::HitErrorMeter);
    assert_eq!(hud_layer_kind("Shape.Rect"), HudLayerKind::Unknown);
    assert_eq!(hud_roots(Some(4), 2, 5), HudRoots::Nodes);
    assert_eq!(hud_roots(Some(4), 0, 5), HudRoots::Layers);
    assert_eq!(hud_roots(Some(4), 0, 0), HudRoots::Nothing);
    assert_eq!(hud_roots(Some(3), 2, 5), HudRoots::Nothing);
    assert_eq!(hud_roots(None, 2, 5), HudRoots::Nothing);
}
