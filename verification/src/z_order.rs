//! The z layers of planned draw commands: lower values draw first, and the
//! gaps leave room for gameplay and storyboard layers to interleave.
use vstd::prelude::*;

verus! {

pub const BACKGROUND: i32 = -1000;
pub const STORYBOARD_BACKGROUND: i32 = -900;
pub const STORYBOARD_FAIL: i32 = -890;
pub const STORYBOARD_PASS: i32 = -880;
pub const COMBO_BURST: i32 = -1;
pub const COLUMN_BG: i32 = 0;
pub const BARLINE: i32 = 5;
pub const COLUMN_LINE: i32 = 6;
pub const KEYS: i32 = 10;
pub const LN_BODY: i32 = 15;
pub const NORMAL_NOTE: i32 = 20;
pub const LN_TAIL: i32 = 22;
pub const LN_HEAD: i32 = 25;
pub const LIGHTING_N: i32 = 32;
pub const LIGHTING_L: i32 = 33;
pub const STAGE_LIGHT: i32 = 34;
pub const STAGE_HINT: i32 = 31;
pub const STAGE_EDGE: i32 = 35;
pub const STAGE_BOTTOM: i32 = 36;
pub const WARNING_ARROW: i32 = 37;
pub const PLAYFIELD_COVER: i32 = 150;
pub const STORYBOARD_FOREGROUND: i32 = -870;
pub const STORYBOARD_OVERLAY: i32 = 45;
pub const JUDGMENT_POPUP: i32 = 50;
pub const KEYS_OVER_NOTES: i32 = 30;
pub const KEY_PRESS_OVERLAY: i32 = 30;
pub const HUD: i32 = 200;

} // verus!
