//! Configuration values the player core depends on: the lane color schema,
//! the scene layout, and the default for every persisted setting that the
//! core reads.  Loading and saving the settings file is the caller's
//! concern; the defaults here are what a missing file or field falls back
//! to.

use vstd::prelude::*;

verus! {

/// The scene orientation: lanes running across or down the window.
#[derive(Debug, Clone, Copy, PartialEq, Eq, Structural)]
pub enum PlayingSceneLayout {
    Horizontal,
    Vertical,
}

impl PlayingSceneLayout {
    /// The layout's display name.
    pub fn label(&self) -> (r: String)
        ensures
            *self is Horizontal ==> r@ == "Horizontal"@,
            *self is Vertical ==> r@ == "Vertical"@,
    {
        match self {
            PlayingSceneLayout::Horizontal => String::from_str("Horizontal"),
            PlayingSceneLayout::Vertical => String::from_str("Vertical"),
        }
    }
}

/// The named colors a scene draws its lanes and marks with.
#[derive(Debug, Clone, Copy, PartialEq, Eq)]
pub struct ColorSchema {
    pub cyan: (u8, u8, u8),
    pub dark: (u8, u8, u8),
    pub gray: (u8, u8, u8),
    pub red: (u8, u8, u8),
    pub green: (u8, u8, u8),
    pub yellow: (u8, u8, u8),
    pub blue: (u8, u8, u8),
    pub purple1: (u8, u8, u8),
    pub purple2: (u8, u8, u8),
    pub purple3: (u8, u8, u8),
    pub aqua: (u8, u8, u8),
    pub orange1: (u8, u8, u8),
    pub orange2: (u8, u8, u8),
    pub orange3: (u8, u8, u8),
    pub orange4: (u8, u8, u8),
    pub beige: (u8, u8, u8),
}

/// The built-in color schema.
pub open spec fn spec_default_color_schema() -> ColorSchema {
    ColorSchema {
        cyan: (93, 188, 255),
        dark: (48, 124, 255),
        gray: (146, 131, 116),
        red: (204, 36, 29),
        green: (152, 151, 26),
        yellow: (215, 153, 33),
        blue: (69, 133, 136),
        purple1: (211, 134, 155),
        purple2: (177, 98, 134),
        purple3: (143, 63, 113),
        aqua: (104, 157, 106),
        orange1: (254, 128, 25),
        orange2: (214, 93, 14),
        orange3: (175, 58, 3),
        orange4: (130, 44, 4),
        beige: (235, 219, 178),
    }
}

/// The built-in color schema.
pub fn default_color_schema() -> (r: ColorSchema)
    ensures
        r == spec_default_color_schema(),
{
    ColorSchema {
        cyan: (93, 188, 255),
        dark: (48, 124, 255),
        gray: (146, 131, 116),
        red: (204, 36, 29),
        green: (152, 151, 26),
        yellow: (215, 153, 33),
        blue: (69, 133, 136),
        purple1: (211, 134, 155),
        purple2: (177, 98, 134),
        purple3: (143, 63, 113),
        aqua: (104, 157, 106),
        orange1: (254, 128, 25),
        orange2: (214, 93, 14),
        orange3: (175, 58, 3),
        orange4: (130, 44, 4),
        beige: (235, 219, 178),
    }
}

/// By default playback runs without waiting for the player's input.
pub fn default_wait_for_notes() -> (r: bool)
    ensures
        r == false,
{
    false
}

/// By default the file's own drum notes are not sounded as guides.
pub fn default_guide_notes() -> (r: bool)
    ensures
        r == false,
{
    false
}

/// By default the player's own drum hits are muted.
pub fn default_mute_drums() -> (r: bool)
    ensures
        r == true,
{
    true
}

/// Default volume of the music channels.
pub fn default_music_volume() -> (r: u8)
    ensures
        r == 40,
{
    40
}

/// Default volume of the drum channel.
pub fn default_drums_volume() -> (r: u8)
    ensures
        r == 100,
{
    100
}

/// Default scene orientation.
pub fn default_layout() -> (r: PlayingSceneLayout)
    ensures
        r == PlayingSceneLayout::Horizontal,
{
    PlayingSceneLayout::Horizontal
}

/// Default output device name: the built-in synthesizer.
pub fn default_output() -> (r: Option<String>)
    ensures
        r matches Some(s) && s@ == "Buildin Synth"@,
{
    Some(String::from_str("Buildin Synth"))
}

} // verus!
