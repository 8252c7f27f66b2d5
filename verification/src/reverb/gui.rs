//! Editor window settings of the reverb plugin and its channel mode.

use vstd::prelude::*;

verus! {

broadcast use vstd::string::group_string_axioms;

/// Editor width in pixels.
pub const EDITOR_WIDTH: u32 = 540;

/// Editor height in pixels.
pub const EDITOR_HEIGHT: u32 = 340;

/// Whether the reverb runs on one channel or two.
#[derive(Debug, Clone, Copy, PartialEq, Eq, Structural)]
pub enum ChannelMode {
    Mono,
    Stereo,
}

/// The mode a stored channel count selects: two or more is stereo.
pub open spec fn channel_mode_of(v: u32) -> ChannelMode {
    if v >= 2 {
        ChannelMode::Stereo
    } else {
        ChannelMode::Mono
    }
}

/// The channel count a mode stores as.
pub open spec fn channel_count_of(mode: ChannelMode) -> u32 {
    match mode {
        ChannelMode::Mono => 1,
        ChannelMode::Stereo => 2,
    }
}

impl From<u32> for ChannelMode {
    fn from(v: u32) -> (r: Self) {
        if v >= 2 {
            ChannelMode::Stereo
        } else {
            ChannelMode::Mono
        }
    }
}

impl vstd::std_specs::convert::FromSpecImpl<u32> for ChannelMode {
    open spec fn obeys_from_spec() -> bool {
        true
    }

    open spec fn from_spec(v: u32) -> Self {
        channel_mode_of(v)
    }
}

impl ChannelMode {
    /// The channel count this mode stores as.
    pub fn channel_count(self) -> (r: u32)
        ensures
            r == channel_count_of(self),
    {
        match self {
            ChannelMode::Mono => 1,
            ChannelMode::Stereo => 2,
        }
    }

    /// The mode's caption.
    pub fn label(self) -> (r: &'static str)
        ensures
            r@ == (match self {
                ChannelMode::Mono => "Mono"@,
                ChannelMode::Stereo => "Stereo"@,
            }),
    {
        match self {
            ChannelMode::Mono => "Mono",
            ChannelMode::Stereo => "Stereo",
        }
    }
}

/// Storing a mode as its channel count and reading it back gives the mode.
pub proof fn law_channel_mode_roundtrip(mode: ChannelMode)
    ensures
        channel_mode_of(channel_count_of(mode)) == mode,
{
}

/// The reverb's editor window.
pub struct App;

impl App {
    pub fn title() -> (r: String)
        ensures
            r@ == "Maolan Reverb"@,
    {
        "Maolan Reverb".to_owned()
    }

    pub fn size() -> (r: (u32, u32))
        ensures
            r == (540u32, 340u32),
    {
        (EDITOR_WIDTH, EDITOR_HEIGHT)
    }

    pub fn always_redraw() -> (r: bool)
        ensures
            !r,
    {
        false
    }

    pub fn notify_closed_on_hide() -> (r: bool)
        ensures
            r,
    {
        true
    }

    pub fn opens_parented_window() -> (r: bool)
        ensures
            r,
    {
        true
    }
}

} // verus!
