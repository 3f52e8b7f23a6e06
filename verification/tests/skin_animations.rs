use replay_renderer::animation::{
    collect_animation_frames, detect_animation_frames, prefer_hidpi_texture,
    prefer_hidpi_texture_id, resolve_replay_mod_texture_id, resolved_replay_mod_display_acronyms,
    resolve_legacy_hud_glyph_texture, texture_loaded, FrameNaming,
    old_style_scorebar_marker, resolve_legacy_texture, LegacyTextureSelection, LifeDanger,
};
use replay_renderer::model::{ReplayModDisplay, ReplayOrigin};

fn loaded(names: &[&str]) -> Vec<String> {
    names.iter().map(|s| s.to_string()).collect()
}

#[test]
fn frames_are_collected_until_the_first_gap() {
    let l = loaded(&["lighting-0.png", "lighting-1.jpg", "lighting-2", "lighting-4.png"]);
    assert_eq!(
        collect_animation_frames(&l, "lighting", FrameNaming::Gameplay, 0),
        vec!["lighting-0.png", "lighting-1.jpg", "lighting-2"]
    );
    assert!(collect_animation_frames(&l, "lighting", FrameNaming::Gameplay, 3).is_empty());
}

#[test]
fn png_is_preferred_over_other_extensions() {
    let l = loaded(&["n-0", "n-0.jpeg", "n-0.png", "n-1.jpg", "n-1.jpeg"]);
    assert_eq!(
        collect_animation_frames(&l, "n", FrameNaming::Gameplay, 0),
        vec!["n-0.png", "n-1.jpg"]
    );
}

#[test]
fn legacy_frames_only_use_png_or_jpg() {
    let l = loaded(&["scorebar-colour-0.png", "scorebar-colour-1", "scorebar-colour-1.jpg"]);
    assert_eq!(
        collect_animation_frames(&l, "scorebar-colour", FrameNaming::Legacy, 0),
        vec!["scorebar-colour-0.png", "scorebar-colour-1.jpg"]
    );
    let l = loaded(&["x-0.png", "x-1"]);
    assert_eq!(collect_animation_frames(&l, "x", FrameNaming::Legacy, 0), vec!["x-0.png"]);
}

#[test]
fn animations_may_be_numbered_from_one() {
    let l = loaded(&["key-1.png", "key-2.png", "key-3.png"]);
    assert_eq!(
        detect_animation_frames(&l, "key", FrameNaming::Gameplay),
        Some(vec!["key-1.png".to_string(), "key-2.png".to_string(), "key-3.png".to_string()])
    );
}

#[test]
fn a_single_frame_is_no_animation() {
    let l = loaded(&["key-0.png", "key-1.png"]);
    assert_eq!(detect_animation_frames(&l, "key", FrameNaming::Gameplay).map(|f| f.len()), Some(2));
    let l = loaded(&["key-0.png"]);
    assert_eq!(detect_animation_frames(&l, "key", FrameNaming::Gameplay), None);
    let l = loaded(&["key-0.png", "key-2.png"]);
    assert_eq!(detect_animation_frames(&l, "key", FrameNaming::Gameplay), None);
}

#[test]
fn hidpi_variants_are_used_when_loaded() {
    let l = loaded(&["mania-note1@2x.png", "hit300@2x.png"]);
    assert_eq!(prefer_hidpi_texture_id(&l, "Mania-Note1.png"), "mania-note1@2x.png");
    assert_eq!(prefer_hidpi_texture_id(&l, "mania-note2.png"), "mania-note2.png");
    assert_eq!(prefer_hidpi_texture(&l, "hit300.png"), "hit300@2x.png");
    assert_eq!(prefer_hidpi_texture(&l, "hit100.png"), "hit100.png");
    assert_eq!(prefer_hidpi_texture(&l, "hit300@2x.png"), "hit300@2x.png");
    assert!(texture_loaded(&l, "hit300@2x.png"));
    assert!(!texture_loaded(&l, "hit300"));
}

#[test]
fn mod_icons_resolve_among_loaded_textures() {
    let l = loaded(&["selection-mod-hidden.png", "selection-mod-hardrock@2x", "replay-mods/lazer/dt.png"]);
    let stable = ReplayModDisplay {
        origin: ReplayOrigin::StableLegacy,
        acronyms: vec!["HD".to_string(), "NF".to_string(), "hr".to_string(), "XX".to_string()],
    };
    assert_eq!(
        resolve_replay_mod_texture_id(&l, Some(&stable), "HD"),
        Some("selection-mod-hidden.png".to_string())
    );
    assert_eq!(
        resolve_replay_mod_texture_id(&l, Some(&stable), "hr"),
        Some("selection-mod-hardrock@2x".to_string())
    );
    assert_eq!(resolve_replay_mod_texture_id(&l, Some(&stable), "NF"), None);
    assert_eq!(resolve_replay_mod_texture_id(&l, None, "HD"), None);
    assert_eq!(resolved_replay_mod_display_acronyms(&l, Some(&stable)), vec!["HD", "hr"]);
    let lazer = ReplayModDisplay {
        origin: ReplayOrigin::LazerExport,
        acronyms: vec!["DT".to_string(), "HD".to_string()],
    };
    assert_eq!(resolved_replay_mod_display_acronyms(&l, Some(&lazer)), vec!["DT"]);
    assert!(resolved_replay_mod_display_acronyms(&l, None).is_empty());
}

#[test]
fn hud_glyphs_prefer_a_measured_hidpi_texture() {
    let l = loaded(&["score-0@2x.png", "score-1@2x.png", "score-0.png"]);
    let measured = loaded(&["score-0@2x.png", "score-0.png", "score-1.png"]);
    assert_eq!(
        resolve_legacy_hud_glyph_texture(&l, &measured, "score-0.png"),
        Some("score-0@2x.png".to_string())
    );
    // Loaded but not measured: the base texture.
    assert_eq!(
        resolve_legacy_hud_glyph_texture(&l, &measured, "score-1.png"),
        Some("score-1.png".to_string())
    );
    assert_eq!(resolve_legacy_hud_glyph_texture(&l, &measured, "score-2.png"), None);
}

#[test]
fn the_score_bar_marker_falls_back_to_calmer_art() {
    let l = loaded(&["scorebar-kidanger.jpg", "scorebar-ki"]);
    assert_eq!(old_style_scorebar_marker(&l, LifeDanger::Critical), Some("scorebar-kidanger.jpg".to_string()));
    assert_eq!(old_style_scorebar_marker(&l, LifeDanger::Danger), Some("scorebar-kidanger.jpg".to_string()));
    assert_eq!(old_style_scorebar_marker(&l, LifeDanger::Safe), Some("scorebar-ki".to_string()));
    assert_eq!(old_style_scorebar_marker(&[], LifeDanger::Safe), None);
}

#[test]
fn animated_hud_pieces_are_measured_by_their_first_frame() {
    let l = loaded(&["combo-0.png", "combo-1.png", "combo-1@2x.png", "combo.png"]);
    let statics = vec!["combo.png".to_string()];
    let frames = vec!["combo-0.png".to_string(), "combo-1.png".to_string()];
    let sel = |t: &str, a: &str| LegacyTextureSelection {
        texture_id: t.to_string(),
        anchor_texture_id: a.to_string(),
    };
    assert_eq!(
        resolve_legacy_texture(&l, &statics, Some(&frames), true, 1),
        Some(sel("combo-1@2x.png", "combo-0.png"))
    );
    assert_eq!(
        resolve_legacy_texture(&l, &statics, Some(&frames), false, 1),
        Some(sel("combo.png", "combo.png"))
    );
    assert_eq!(resolve_legacy_texture(&l, &statics, Some(&frames), true, 2), None);
    assert_eq!(
        resolve_legacy_texture(&l, &vec![], Some(&frames), false, 0),
        Some(sel("combo-0.png", "combo-0.png"))
    );
    assert_eq!(resolve_legacy_texture(&l, &vec![], None, true, 0), None);
}
