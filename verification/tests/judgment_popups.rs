use replay_renderer::judgment::JudgmentKind;
use replay_renderer::popups::{
    default_popup_name, judgment_popup_base, judgment_popup_frame_count, judgment_popup_texture,
};

fn loaded(names: &[&str]) -> Vec<String> {
    names.iter().map(|s| s.to_string()).collect()
}

#[test]
fn popup_names_come_from_the_skin_or_the_defaults() {
    assert_eq!(default_popup_name(JudgmentKind::Max), "mania-hit300g.png");
    assert_eq!(default_popup_name(JudgmentKind::Miss), "mania-hit0.png");
    assert_eq!(judgment_popup_base(None, "mania-hit300g.png"), Some("mania-hit300g".to_string()));
    assert_eq!(judgment_popup_base(Some("Judge/Perfect.PNG"), "x"), Some("judge/perfect.png".to_string()));
    // `.png` is trimmed before `.jpg`, so only the outer ending goes here.
    assert_eq!(judgment_popup_base(Some("Judge/Perfect.png.jpg"), "x"), Some("judge/perfect.png".to_string()));
    assert_eq!(judgment_popup_base(Some("Judge/Perfect.jpg.png"), "x"), Some("judge/perfect".to_string()));
    assert_eq!(judgment_popup_base(Some(""), "mania-hit0.png"), None);
}

#[test]
fn popup_frames_are_counted_until_the_first_gap() {
    let l = loaded(&["hit-0.png", "hit-1.png@judgment", "hit-3.png"]);
    assert_eq!(judgment_popup_frame_count(&l, "hit"), 2);
    assert_eq!(judgment_popup_frame_count(&l, "miss"), 0);
    let many: Vec<String> = (0..150).map(|i| format!("x-{i}.png")).collect();
    assert_eq!(judgment_popup_frame_count(&many, "x"), 101);
}

#[test]
fn popups_prefer_their_prescaled_texture() {
    let l = loaded(&["hit-1.png@judgment", "hit-1.png", "hit-0.png"]);
    assert_eq!(judgment_popup_texture(&l, "hit-1.png"), Some("hit-1.png@judgment".to_string()));
    assert_eq!(judgment_popup_texture(&l, "hit-0.png"), Some("hit-0.png".to_string()));
    assert_eq!(judgment_popup_texture(&l, "hit-2.png"), None);
}
