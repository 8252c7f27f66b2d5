pub mod dsp;
pub mod loader;
pub mod params;
pub mod plugin;
pub mod state;
pub mod browser;
pub mod gui;
pub mod load_status;
pub mod zone_map;
