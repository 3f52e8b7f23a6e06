use replay_renderer::judgment::JudgmentKind;
use replay_renderer::model::{
    lazer_replay_mod_texture_name, stable_replay_mod_texture_stem, RenderJudgment,
    ReplayModDisplay, ReplayOrigin, ScoreTables,
};
use replay_renderer::state::NoteWindow;

fn judgment(is_ln: bool, press_time: Option<i32>, rel_time: Option<i32>) -> RenderJudgment {
    RenderJudgment {
        idx: 3,
        column: 1,
        time: 1000,
        kind: JudgmentKind::Hit300,
        press_time,
        rel_time,
        is_ln,
    }
}

#[test]
fn judgment_time_prefers_release_then_press_then_note_time() {
    assert_eq!(judgment(true, Some(990), Some(1500)).judgment_time(), 1500);
    assert_eq!(judgment(true, Some(990), None).judgment_time(), 990);
    assert_eq!(judgment(true, None, None).judgment_time(), 1000);
    assert_eq!(judgment(false, Some(1010), Some(1500)).judgment_time(), 1010);
    assert_eq!(judgment(false, None, Some(1500)).judgment_time(), 1000);
}

#[test]
fn mod_display_is_empty_without_acronyms() {
    let empty = ReplayModDisplay { origin: ReplayOrigin::StableLegacy, acronyms: vec![] };
    assert!(empty.is_empty());
    let hd = ReplayModDisplay {
        origin: ReplayOrigin::LazerExport,
        acronyms: vec!["HD".to_string()],
    };
    assert!(!hd.is_empty());
}

#[test]
fn stable_mod_stems_are_case_and_space_insensitive() {
    assert_eq!(stable_replay_mod_texture_stem("HD"), Some("selection-mod-hidden"));
    assert_eq!(stable_replay_mod_texture_stem(" dt "), Some("selection-mod-doubletime"));
    assert_eq!(stable_replay_mod_texture_stem("v2"), Some("selection-mod-scorev2"));
    assert_eq!(stable_replay_mod_texture_stem("Co"), Some("selection-mod-keycoop"));
    assert_eq!(stable_replay_mod_texture_stem("XX"), None);
    assert_eq!(stable_replay_mod_texture_stem(""), None);
}

#[test]
fn lazer_mod_textures_are_lower_cased_paths() {
    assert_eq!(lazer_replay_mod_texture_name(" DA "), "replay-mods/lazer/da.png");
    assert_eq!(lazer_replay_mod_texture_name("HD"), "replay-mods/lazer/hd.png");
}

#[test]
fn note_window_advances_both_edges() {
    let note_times = [0, 100, 200, 300, 400, 500];
    let ends = [50, 150, 250, 350, 450, 550];
    let mut w = NoteWindow::default();
    w.update(0, &note_times, &ends, 150, 20);
    assert_eq!((w.start, w.end), (0, 2));
    assert_eq!(w.range(), 0..2);
    assert_eq!(w.len(), 2);
    w.update(300, &note_times, &ends, 150, 20);
    // ends < 280 are dropped: 50, 150, 250; starts <= 450 are taken in.
    assert_eq!((w.start, w.end), (3, 5));
    assert_eq!(w.len(), 2);
    w.update(10_000, &note_times, &ends, 150, 20);
    assert_eq!((w.start, w.end), (6, 6));
    assert_eq!(w.len(), 0);
}

#[test]
fn note_window_never_moves_back() {
    let note_times = [0, 100, 200];
    let ends = [0, 100, 200];
    let mut w = NoteWindow { start: 2, end: 3 };
    w.update(0, &note_times, &ends, 0, 0);
    assert_eq!((w.start, w.end), (2, 3));
    let inverted = NoteWindow { start: 5, end: 2 };
    assert_eq!(inverted.len(), 0);
}

#[test]
fn score_tables_by_judgment() {
    let standard = ScoreTables::standard();
    assert_eq!(standard.hit_value(JudgmentKind::Max), 320);
    assert_eq!(standard.hit_value(JudgmentKind::Hit50), 50);
    assert_eq!(standard.hit_bonus_value(JudgmentKind::Hit200), 16);
    assert_eq!(standard.hit_bonus_add(JudgmentKind::Max), 2);
    assert_eq!(standard.hit_punish(JudgmentKind::Miss), i32::MAX);
    assert_eq!(standard.acc_weight(JudgmentKind::Max), 300);
    let v2 = ScoreTables::for_accuracy_max_per_hit(305);
    assert_eq!(v2.acc_weight(JudgmentKind::Max), 305);
    assert_eq!(v2.acc_weight(JudgmentKind::Hit300), 300);
    assert_eq!(v2.acc_max_per_hit, 305);
    let v1 = ScoreTables::for_accuracy_max_per_hit(300);
    assert_eq!(v1.acc_max_per_hit, 300);
}
