pub mod dsp;
pub mod params;
pub mod state;
