//! MinerU2.5: configuration, prompts and two-stage page parsing.
pub mod adapter;
pub mod config;
pub mod parser;
