use replay_renderer::hud::{
    default_opaque_bounds, drawable_life_bar_bounds, format_song_time, gif_frame_index_allowed,
    gif_pixel_total_after, hash_mix, hud_asset_file_size_within_limits, hud_asset_texture_id,
    hidpi_texture_name, hud_asset_dimensions_within_limits, key_index, layer_asset_id,
    legacy_animation_frame_texture, sanitize_texture_component, OpaqueBounds, TextureMeta,
    gif_frame_index,
};

#[test]
fn default_bounds_cover_the_whole_texture() {
    let b = default_opaque_bounds(TextureMeta { w: 64, h: 32 });
    assert_eq!(b, OpaqueBounds { min_x: 0, min_y: 0, max_x: 63, max_y: 31 });
    let empty = default_opaque_bounds(TextureMeta { w: 0, h: 0 });
    assert_eq!(empty, OpaqueBounds { min_x: 0, min_y: 0, max_x: 0, max_y: 0 });
}

#[test]
fn tiny_life_bars_are_placeholders() {
    let bounds = Some(OpaqueBounds { min_x: 1, min_y: 2, max_x: 3, max_y: 4 });
    assert_eq!(drawable_life_bar_bounds(TextureMeta { w: 2, h: 2 }, bounds), None);
    assert_eq!(drawable_life_bar_bounds(TextureMeta { w: 1, h: 1 }, bounds), None);
    assert_eq!(drawable_life_bar_bounds(TextureMeta { w: 3, h: 2 }, bounds), bounds);
    assert_eq!(drawable_life_bar_bounds(TextureMeta { w: 2, h: 100 }, None), None);
}

#[test]
fn animation_frames_try_png_then_jpg() {
    let [png, jpg] = legacy_animation_frame_texture("scorebar-colour", 12);
    assert_eq!(png, "scorebar-colour-12.png");
    assert_eq!(jpg, "scorebar-colour-12.jpg");
    let [png, _] = legacy_animation_frame_texture("x", 0);
    assert_eq!(png, "x-0.png");
}

#[test]
fn hidpi_names_split_at_the_last_dot() {
    assert_eq!(hidpi_texture_name("hit300.png").as_deref(), Some("hit300@2x.png"));
    assert_eq!(hidpi_texture_name("a.b.jpg").as_deref(), Some("a.b@2x.jpg"));
    assert_eq!(hidpi_texture_name("trailing.").as_deref(), Some("trailing@2x."));
    assert_eq!(hidpi_texture_name("hit300@2x.png"), None);
    assert_eq!(hidpi_texture_name("no-extension"), None);
}

#[test]
fn hash_mix_matches_the_splitmix_finaliser() {
    assert_eq!(hash_mix(0, 0), 0);
    assert_eq!(hash_mix(0, 1), 16294208416658607535);
    assert_eq!(hash_mix(1, 2), 13757245211066428519);
    assert_eq!(hash_mix(12345, 678), 1668084915913940428);
}

#[test]
fn key_names_count_from_one_to_thirty_two() {
    assert_eq!(key_index("k1"), Some(0));
    assert_eq!(key_index("K32"), Some(31));
    assert_eq!(key_index("  k7 "), Some(6));
    assert_eq!(key_index("k+5"), Some(4));
    assert_eq!(key_index("k33"), None);
    assert_eq!(key_index("k0"), None);
    assert_eq!(key_index("k"), None);
    assert_eq!(key_index("key1"), None);
    assert_eq!(key_index("1"), None);
    assert_eq!(key_index("k-1"), None);
    assert_eq!(key_index("k99999999999"), None);
}

#[test]
fn song_time_is_minutes_and_seconds() {
    assert_eq!(format_song_time(0), "00:00");
    assert_eq!(format_song_time(999), "00:00");
    assert_eq!(format_song_time(65_000), "01:05");
    assert_eq!(format_song_time(-5_000), "00:00");
    assert_eq!(format_song_time(6_000_000), "100:00");
    assert_eq!(format_song_time(i32::MAX), "35791:23");
}

#[test]
fn texture_components_are_sanitized() {
    assert_eq!(sanitize_texture_component("My Asset-1_x"), "my_asset-1_x");
    assert_eq!(sanitize_texture_component("ä/b"), "__b");
    assert_eq!(sanitize_texture_component(""), "asset");
}

#[test]
fn asset_dimension_limits() {
    assert!(hud_asset_dimensions_within_limits(1, 1));
    assert!(hud_asset_dimensions_within_limits(4096, 2025));
    assert!(!hud_asset_dimensions_within_limits(4096, 2026));
    assert!(!hud_asset_dimensions_within_limits(4097, 1));
    assert!(!hud_asset_dimensions_within_limits(0, 10));
    assert!(!hud_asset_dimensions_within_limits(10, 0));
}

#[test]
fn layer_asset_ids_prefer_the_camel_case_key_and_skip_blanks() {
    assert_eq!(layer_asset_id(Some("logo"), Some("other")), Some("logo"));
    assert_eq!(layer_asset_id(None, Some("other")), Some("other"));
    assert_eq!(layer_asset_id(Some("   "), Some("other")), None);
    assert_eq!(layer_asset_id(None, None), None);
}

#[test]
fn asset_file_and_animation_limits() {
    assert!(!hud_asset_file_size_within_limits(0));
    assert!(hud_asset_file_size_within_limits(1));
    assert!(hud_asset_file_size_within_limits(10 * 1024 * 1024));
    assert!(!hud_asset_file_size_within_limits(10 * 1024 * 1024 + 1));
    assert!(gif_frame_index_allowed(119));
    assert!(!gif_frame_index_allowed(120));
    assert_eq!(gif_pixel_total_after(0, 100, 100), Some(10_000));
    assert_eq!(gif_pixel_total_after(59_990_000, 100, 100), Some(60_000_000));
    assert_eq!(gif_pixel_total_after(59_990_001, 100, 100), None);
    assert_eq!(gif_pixel_total_after(0, 5000, 10), None);
    assert_eq!(gif_pixel_total_after(u64::MAX - 5, 10, 10), None);
    assert_eq!(hud_asset_texture_id("My Logo", 3), "hud_asset_my_logo_3");
    assert_eq!(hud_asset_texture_id("", 0), "hud_asset_asset_0");
}

#[test]
fn gifs_loop_over_their_frame_delays() {
    let delays = [100, 0, 50];
    let at = |t: i32| gif_frame_index(&delays, t);
    assert_eq!(at(0), Some(0));
    assert_eq!(at(99), Some(0));
    assert_eq!(at(100), Some(1));
    // A zero delay plays for 20 ms.
    assert_eq!(at(119), Some(1));
    assert_eq!(at(120), Some(2));
    assert_eq!(at(169), Some(2));
    assert_eq!(at(170), Some(0));
    assert_eq!(at(-1), Some(2));
    assert_eq!(at(-51), Some(1));
    assert_eq!(gif_frame_index(&[], 5), None);
}
