//! Filter kinds.

use vstd::prelude::*;

verus! {

/// The response of a filter slot.
#[derive(Debug, Clone, Copy, PartialEq, Eq, Structural)]
pub enum FilterType {
    Lowpass,
    Highpass,
    Bandpass,
    Notch,
    Allpass,
    Peak,
    LowShelf,
    HighShelf,
    Bell,
}

} // verus!
