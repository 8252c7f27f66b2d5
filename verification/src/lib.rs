//! Instrument-file parsing and sampler bookkeeping for the Maolan plugin
//! collection, with machine-checked contracts.

pub mod common;
pub mod random;
pub mod reverb;
pub mod sampler;
