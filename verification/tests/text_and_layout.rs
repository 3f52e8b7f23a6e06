use replay_renderer::layout::{scroll_piece_top_y, scroll_travel_px, view_height, StageLayout};
use replay_renderer::text::{
    chars_of, find_last, parse_unsigned_chars, replace_char_chars, split_chars,
    trim_white_space,
};

fn text(s: &[char]) -> String {
    s.iter().collect()
}

#[test]
fn scroll_pieces_hang_from_or_rest_on_their_leading_edge() {
    assert_eq!(scroll_piece_top_y(true, 100, 30), 100);
    assert_eq!(scroll_piece_top_y(false, 100, 30), 70);
    assert_eq!(scroll_piece_top_y(false, -5, 10), -15);
}

#[test]
fn splitting_keeps_empty_pieces() {
    let pieces = split_chars(&chars_of("a,,b,"), ',');
    let got: Vec<String> = pieces.iter().map(|p| text(p)).collect();
    assert_eq!(got, vec!["a", "", "b", ""]);
    assert_eq!(split_chars(&chars_of(""), ',').len(), 1);
}

#[test]
fn unsigned_parsing_follows_from_str() {
    assert_eq!(parse_unsigned_chars(&chars_of("42"), 100), Some(42));
    assert_eq!(parse_unsigned_chars(&chars_of("+7"), 100), Some(7));
    assert_eq!(parse_unsigned_chars(&chars_of("101"), 100), None);
    assert_eq!(parse_unsigned_chars(&chars_of("007"), 100), Some(7));
    assert_eq!(parse_unsigned_chars(&chars_of("4294967295"), u32::MAX as u64), Some(4294967295));
    assert_eq!(parse_unsigned_chars(&chars_of("4294967296"), u32::MAX as u64), None);
    assert_eq!(parse_unsigned_chars(&chars_of(""), 100), None);
    assert_eq!(parse_unsigned_chars(&chars_of("+"), 100), None);
    assert_eq!(parse_unsigned_chars(&chars_of("-1"), 100), None);
    assert_eq!(parse_unsigned_chars(&chars_of("1 "), 100), None);
}

#[test]
fn trimming_uses_unicode_white_space() {
    assert_eq!(text(&trim_white_space(&chars_of("\u{3000} a b\t\n"))), "a b");
    assert_eq!(text(&trim_white_space(&chars_of("   "))), "");
}

#[test]
fn character_helpers() {
    assert_eq!(find_last(&chars_of("a.b.c"), '.'), Some(3));
    assert_eq!(find_last(&chars_of("abc"), '.'), None);
    let replaced = replace_char_chars(&chars_of("a\\b\\c"), '\\', &chars_of("//"));
    assert_eq!(text(&replaced), "a//b//c");
}

#[test]
fn playfield_height_and_scroll_travel() {
    let stage = StageLayout {
        x: 0,
        y: 0,
        width: 400,
        height: 720,
        hit_y: 600,
        top_y: 0,
        bottom_y: 720,
        view_top_y: 40,
        view_bottom_y: 700,
    };
    assert_eq!(view_height(&stage), 660);
    assert_eq!(scroll_travel_px(&stage, false), 600);
    assert_eq!(scroll_travel_px(&stage, true), 120);
    let flat = StageLayout { view_top_y: 5, view_bottom_y: 5, hit_y: 720, ..stage };
    assert_eq!(view_height(&flat), 1);
    assert_eq!(scroll_travel_px(&flat, true), 1);
}
