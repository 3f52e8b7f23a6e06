use replay_renderer::digits::{combo_glyph_names, layout_digit_row};

#[test]
fn digit_rows_are_centred_with_overlaps() {
    assert_eq!(layout_digit_row(&[20, 22, 20], 2, 100), (71, vec![71, 89, 109]));
    assert_eq!(layout_digit_row(&[21], 5, 100), (90, vec![90]));
    // A row narrower than its overlaps: the half width rounds toward zero.
    assert_eq!(layout_digit_row(&[1, 1], 5, 100), (101, vec![101, 97]));
    assert_eq!(layout_digit_row(&[], 3, 100), (100, vec![]));
}

#[test]
fn combo_glyphs_are_lower_cased_and_prescaled() {
    assert_eq!(
        combo_glyph_names("Combo/Score", 7, 40),
        ("combo/score-7.png".to_string(), "combo/score-7.png@hud_combo_40".to_string())
    );
}
