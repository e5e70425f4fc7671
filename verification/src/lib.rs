pub mod engine;
pub mod laws;
pub mod filter;
pub mod pathname;
pub mod text;
pub mod zipio;
