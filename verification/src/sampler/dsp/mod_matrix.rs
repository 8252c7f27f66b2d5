//! Modulation sources and targets.

use vstd::prelude::*;

verus! {

/// A per-voice modulation source. `NoSource` is the unassigned source;
/// the MIDI controller sources at the end have no numeric code of their own.
#[derive(Debug, Clone, Copy, PartialEq, Eq, Structural)]
pub enum ModSource {
    NoSource,
    Velocity,
    KeyTrack,
    PitchBend,
    ModWheel,
    Pressure,
    Timbre,
    Lfo1,
    Lfo2,
    Lfo3,
    Lfo4,
    Lfo5,
    Lfo6,
    Eg1,
    Eg2,
    Eg3,
    Eg4,
    Eg5,
    Random,
    SampleAndHold,
    VariantFraction,
    PlaybackPosition,
    LoopFraction,
    IsGated,
    IsReleased,
    GroupAnyGated,
    GroupVoiceCount,
    ChannelPressure,
    ChannelVolume,
    Cc10Pan,
    Expression,
}

impl ModSource {
    /// The variant's numeric code.
    pub open spec fn code(self) -> u8 {
        match self {
            ModSource::NoSource => 0,
            ModSource::Velocity => 1,
            ModSource::KeyTrack => 2,
            ModSource::PitchBend => 3,
            ModSource::ModWheel => 4,
            ModSource::Pressure => 5,
            ModSource::Timbre => 6,
            ModSource::Lfo1 => 7,
            ModSource::Lfo2 => 8,
            ModSource::Lfo3 => 9,
            ModSource::Lfo4 => 10,
            ModSource::Lfo5 => 11,
            ModSource::Lfo6 => 12,
            ModSource::Eg1 => 13,
            ModSource::Eg2 => 14,
            ModSource::Eg3 => 15,
            ModSource::Eg4 => 16,
            ModSource::Eg5 => 17,
            ModSource::Random => 18,
            ModSource::SampleAndHold => 19,
            ModSource::VariantFraction => 20,
            ModSource::PlaybackPosition => 21,
            ModSource::LoopFraction => 22,
            ModSource::IsGated => 23,
            ModSource::IsReleased => 24,
            ModSource::GroupAnyGated => 25,
            ModSource::GroupVoiceCount => 26,
            ModSource::ChannelPressure => 27,
            ModSource::ChannelVolume => 28,
            ModSource::Cc10Pan => 29,
            ModSource::Expression => 30,
        }
    }

    /// The variant for a numeric code; unknown codes give `NoSource`.
    pub open spec fn from_code(value: u8) -> Self {
        match value {
            1 => ModSource::Velocity,
            2 => ModSource::KeyTrack,
            3 => ModSource::PitchBend,
            4 => ModSource::ModWheel,
            5 => ModSource::Pressure,
            6 => ModSource::Timbre,
            7 => ModSource::Lfo1,
            8 => ModSource::Lfo2,
            9 => ModSource::Lfo3,
            10 => ModSource::Lfo4,
            11 => ModSource::Lfo5,
            12 => ModSource::Lfo6,
            13 => ModSource::Eg1,
            14 => ModSource::Eg2,
            15 => ModSource::Eg3,
            16 => ModSource::Eg4,
            17 => ModSource::Eg5,
            18 => ModSource::Random,
            19 => ModSource::SampleAndHold,
            20 => ModSource::VariantFraction,
            21 => ModSource::PlaybackPosition,
            22 => ModSource::LoopFraction,
            23 => ModSource::IsGated,
            24 => ModSource::IsReleased,
            25 => ModSource::GroupAnyGated,
            26 => ModSource::GroupVoiceCount,
            _ => ModSource::NoSource,
        }
    }

    pub fn from_u8(value: u8) -> (r: Self)
        ensures
            r == Self::from_code(value),
    {
        match value {
            1 => ModSource::Velocity,
            2 => ModSource::KeyTrack,
            3 => ModSource::PitchBend,
            4 => ModSource::ModWheel,
            5 => ModSource::Pressure,
            6 => ModSource::Timbre,
            7 => ModSource::Lfo1,
            8 => ModSource::Lfo2,
            9 => ModSource::Lfo3,
            10 => ModSource::Lfo4,
            11 => ModSource::Lfo5,
            12 => ModSource::Lfo6,
            13 => ModSource::Eg1,
            14 => ModSource::Eg2,
            15 => ModSource::Eg3,
            16 => ModSource::Eg4,
            17 => ModSource::Eg5,
            18 => ModSource::Random,
            19 => ModSource::SampleAndHold,
            20 => ModSource::VariantFraction,
            21 => ModSource::PlaybackPosition,
            22 => ModSource::LoopFraction,
            23 => ModSource::IsGated,
            24 => ModSource::IsReleased,
            25 => ModSource::GroupAnyGated,
            26 => ModSource::GroupVoiceCount,
            _ => ModSource::NoSource,
        }
    }
}

/// A per-voice modulation destination. `NoTarget` is the unassigned target.
#[derive(Debug, Clone, Copy, PartialEq, Eq, Structural)]
pub enum ModTarget {
    NoTarget,
    Amplitude,
    Pitch,
    FilterCutoff,
    FilterResonance,
    Pan,
    SampleStart,
}

impl ModTarget {
    /// The variant's numeric code.
    pub open spec fn code(self) -> u8 {
        match self {
            ModTarget::NoTarget => 0,
            ModTarget::Amplitude => 1,
            ModTarget::Pitch => 2,
            ModTarget::FilterCutoff => 3,
            ModTarget::FilterResonance => 4,
            ModTarget::Pan => 5,
            ModTarget::SampleStart => 6,
        }
    }

    /// The variant for a numeric code; unknown codes give `NoTarget`.
    pub open spec fn from_code(value: u8) -> Self {
        match value {
            1 => ModTarget::Amplitude,
            2 => ModTarget::Pitch,
            3 => ModTarget::FilterCutoff,
            4 => ModTarget::FilterResonance,
            5 => ModTarget::Pan,
            6 => ModTarget::SampleStart,
            _ => ModTarget::NoTarget,
        }
    }

    pub fn from_u8(value: u8) -> (r: Self)
        ensures
            r == Self::from_code(value),
    {
        match value {
            1 => ModTarget::Amplitude,
            2 => ModTarget::Pitch,
            3 => ModTarget::FilterCutoff,
            4 => ModTarget::FilterResonance,
            5 => ModTarget::Pan,
            6 => ModTarget::SampleStart,
            _ => ModTarget::NoTarget,
        }
    }
}

/// Codes 0 to 26 read back as their source; the controller sources, which
/// have no code of their own, read back as `NoSource`.
pub proof fn law_mod_source_code_roundtrip(x: ModSource)
    ensures
        x.code() <= 26 ==> ModSource::from_code(x.code()) == x,
        x.code() > 26 ==> ModSource::from_code(x.code()) == ModSource::NoSource,
{
}

/// Reading back the code of any `ModTarget` gives that `ModTarget`.
pub proof fn law_mod_target_code_roundtrip(x: ModTarget)
    ensures
        ModTarget::from_code(x.code()) == x,
        x.code() <= 6,
{
}

} // verus!
