pub mod text;
pub mod sorting;
pub mod judgment;
pub mod effects;
pub mod frame;
pub mod model;
pub mod state;
pub mod hud;
pub mod layout;
pub mod config;
pub mod beatmap;
pub mod health;
pub mod long_notes;
pub mod keys;
pub mod stage_effects;
pub mod hud_props;
pub mod skin_images;
pub mod hud_tree;
pub mod batching;
pub mod z_order;
pub mod storyboard;
pub mod tracks;
pub mod animation;
pub mod popups;
pub mod digits;
pub mod lru;
pub mod debug_text;
pub mod gpu;
pub mod fonts;
pub mod error;
