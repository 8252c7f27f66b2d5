pub mod byte_reader;
pub mod filter;
pub mod gesture;
pub mod text;
