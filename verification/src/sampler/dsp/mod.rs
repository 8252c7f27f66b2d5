pub mod bus;
pub mod engine;
pub mod exs;
pub mod gig;
pub mod granular;
pub mod group;
pub mod mod_matrix;
pub mod processor;
pub mod sample;
pub mod sample_id;
pub mod sf2;
pub mod sf2_zones;
pub mod sfz;
pub mod sfz_preprocess;
pub mod sfz_export;
pub mod sfz_region;
pub mod zone;
