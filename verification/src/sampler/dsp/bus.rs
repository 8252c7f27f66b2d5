//! Auxiliary send tap points.

use vstd::prelude::*;

verus! {

/// Where in a part's signal path an auxiliary send taps the signal.
#[derive(Debug, Clone, Copy, PartialEq, Eq, Structural, Default)]
pub enum AuxTapPoint {
    PreFx,
    PostFxPreVca,
    #[default]
    PostVca,
}

} // verus!
