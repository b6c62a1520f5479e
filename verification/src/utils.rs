//! Tools for checking the engine.
pub mod perft;
