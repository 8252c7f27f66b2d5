//! Progress reports of instrument loading.

use vstd::prelude::*;

verus! {

/// Structured status reported by the sampler while loading an instrument.
#[derive(Default)]
pub enum SamplerLoadStatus {
    /// No instrument is loaded.
    #[default]
    Empty,
    /// Reading the instrument definition.
    Parsing,
    /// Loading sample files into memory.
    LoadingSamples {
        /// Number of samples already loaded.
        loaded: usize,
        /// Number of samples to load.
        total: usize,
    },
    /// Converting loaded audio to the project rate.
    Resampling,
    /// The instrument is ready to play.
    Ready {
        /// Instrument name shown to the user.
        name: String,
        /// Number of distinct samples the patch uses.
        sample_count: usize,
        /// Number of zones in the patch.
        zone_count: usize,
    },
    /// Loading failed; the message is meant for the user.
    Error(String),
}

} // verus!
