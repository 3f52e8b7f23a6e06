//! Render configuration records.
use vstd::prelude::*;

verus! {

/// Text shown on the intro card.
#[derive(Debug, Clone, Default)]
pub struct IntroConfig {
    pub title: String,
    pub artist: String,
    pub mapper: String,
    pub diff_name: String,
    pub player: String,
    pub duration_ms: u32,
}

/// How the playfield is covered.
#[derive(Debug, Clone, Copy, PartialEq, Eq, Default, Structural)]
pub enum PlayfieldCoverMode {
    #[default]
    Disabled,
    FadeIn,
    Hidden,
    Cover,
    Flashlight,
}

#[derive(Debug, Clone, Copy, PartialEq, Eq, Default, Structural)]
pub enum PlayfieldCoverDirection {
    #[default]
    Downwards,
    Upwards,
}

} // verus!
