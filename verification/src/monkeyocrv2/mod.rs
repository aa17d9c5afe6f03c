//! MonkeyOCRv2: page and region prompts over a causal text decoder.
pub mod config;
pub mod model;
pub mod processing;
pub mod vision;
