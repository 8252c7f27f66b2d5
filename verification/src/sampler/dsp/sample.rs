//! Sample interpolation.

use vstd::prelude::*;

verus! {

/// How sample values between frames are computed.
#[derive(Debug, Clone, Copy, PartialEq, Eq, Structural)]
pub enum InterpolationMode {
    Zoh,
    Linear,
    Sinc,
}

impl InterpolationMode {
    /// The variant's numeric code.
    pub open spec fn code(self) -> u8 {
        match self {
            InterpolationMode::Zoh => 0,
            InterpolationMode::Linear => 1,
            InterpolationMode::Sinc => 2,
        }
    }

    /// The variant for a numeric code; unknown codes give `Linear`.
    pub open spec fn from_code(value: u8) -> Self {
        match value {
            0 => InterpolationMode::Zoh,
            2 => InterpolationMode::Sinc,
            _ => InterpolationMode::Linear,
        }
    }

    pub fn from_u8(value: u8) -> (r: Self)
        ensures
            r == Self::from_code(value),
    {
        match value {
            0 => InterpolationMode::Zoh,
            2 => InterpolationMode::Sinc,
            _ => InterpolationMode::Linear,
        }
    }
}

/// Reading back the code of any `InterpolationMode` gives that `InterpolationMode`.
pub proof fn law_interpolation_mode_code_roundtrip(x: InterpolationMode)
    ensures
        InterpolationMode::from_code(x.code()) == x,
        x.code() <= 2,
{
}

} // verus!
