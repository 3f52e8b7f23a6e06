use replay_renderer::batching::{
    group_runs, ln_body_tiles, render_order, texture_sampling_for_sprite,
    texture_sampling_for_texture, BatchKey, BodyTile,
};
use replay_renderer::gpu::{SpriteBlendMode, TextureSampling};

fn key(texture: usize, blend: SpriteBlendMode) -> BatchKey {
    BatchKey { texture, sampling: TextureSampling::Nearest, blend }
}

#[test]
fn render_order_sorts_by_z_and_keeps_plan_order_within_a_layer() {
    assert_eq!(render_order(&[5, -1, 5, 0, -1]), vec![1, 4, 3, 0, 2]);
    assert_eq!(render_order(&[]), Vec::<usize>::new());
    assert_eq!(render_order(&[3, 3, 3]), vec![0, 1, 2]);
}

#[test]
fn group_runs_merges_neighbours_with_the_same_key() {
    let a = key(0, SpriteBlendMode::Alpha);
    let b = key(1, SpriteBlendMode::Alpha);
    let items = vec![(Some(a), 1), (Some(a), 2), (Some(b), 1), (Some(a), 1)];
    assert_eq!(group_runs(&items), vec![(a, 0, 3), (b, 3, 1), (a, 4, 1)]);
}

#[test]
fn group_runs_skips_unloaded_textures() {
    let a = key(0, SpriteBlendMode::Alpha);
    let items = vec![(Some(a), 1), (None, 4), (Some(a), 1)];
    assert_eq!(group_runs(&items), vec![(a, 0, 2)]);
}

#[test]
fn group_runs_splits_on_blend_mode_and_drops_empty_runs() {
    let a = key(0, SpriteBlendMode::Alpha);
    let add = key(0, SpriteBlendMode::Additive);
    // An empty long-note body with another key still closes the open run.
    let items = vec![(Some(a), 2), (Some(add), 0), (Some(a), 1)];
    assert_eq!(group_runs(&items), vec![(a, 0, 2), (a, 2, 1)]);
    let items = vec![(Some(a), 1), (Some(add), 1)];
    assert_eq!(group_runs(&items), vec![(a, 0, 1), (add, 1, 1)]);
    assert!(group_runs(&[]).is_empty());
}

#[test]
fn body_tiles_shift_by_phase_and_clip_to_the_body() {
    let tiles = ln_body_tiles(10, 35, 10, 3);
    assert_eq!(
        tiles,
        vec![
            BodyTile { draw_y: 10, draw_h: 7, skip: 3 },
            BodyTile { draw_y: 17, draw_h: 10, skip: 0 },
            BodyTile { draw_y: 27, draw_h: 8, skip: 0 },
        ]
    );
}

#[test]
fn body_tiles_with_a_phase_past_the_tile_height_wrap() {
    assert_eq!(ln_body_tiles(10, 35, 10, 13), ln_body_tiles(10, 35, 10, 3));
}

#[test]
fn body_tiles_with_a_negative_phase_start_below_the_top() {
    // A phase above i32::MAX reads as negative, and `%` keeps its sign.
    let tiles = ln_body_tiles(10, 35, 10, u32::MAX - 1);
    assert_eq!(
        tiles,
        vec![
            BodyTile { draw_y: 12, draw_h: 10, skip: 0 },
            BodyTile { draw_y: 22, draw_h: 10, skip: 0 },
            BodyTile { draw_y: 32, draw_h: 3, skip: 0 },
        ]
    );
}

#[test]
fn body_tiles_of_an_empty_body_or_zero_tile_height() {
    assert!(ln_body_tiles(20, 20, 10, 0).is_empty());
    assert!(ln_body_tiles(30, 20, 10, 0).is_empty());
    // A tile height of zero is taken as one pixel.
    assert_eq!(ln_body_tiles(0, 3, 0, 0).len(), 3);
}

#[test]
fn hud_textures_are_always_sampled_smoothly() {
    assert_eq!(texture_sampling_for_texture("scorebar-colour", false), TextureSampling::Linear);
    assert_eq!(texture_sampling_for_texture("hud_combo", false), TextureSampling::Linear);
    assert_eq!(texture_sampling_for_texture("mania-note1", false), TextureSampling::Nearest);
    assert_eq!(texture_sampling_for_texture("mania-note1", true), TextureSampling::Linear);
}

#[test]
fn sprites_drawn_at_their_exact_size_stay_sharp() {
    assert_eq!(texture_sampling_for_sprite("bg", true, true), TextureSampling::Nearest);
    assert_eq!(texture_sampling_for_sprite("bg", true, false), TextureSampling::Linear);
    assert_eq!(texture_sampling_for_sprite("bg", false, false), TextureSampling::Nearest);
    assert_eq!(texture_sampling_for_sprite("hud_x", false, true), TextureSampling::Linear);
}
