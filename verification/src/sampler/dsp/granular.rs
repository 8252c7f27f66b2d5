//! Grain envelope shapes.

use vstd::prelude::*;

verus! {

/// The window that shapes each grain.
#[derive(Debug, Clone, Copy, PartialEq, Eq, Structural, Default)]
pub enum GrainWindow {
    #[default]
    Hann,
}

} // verus!
