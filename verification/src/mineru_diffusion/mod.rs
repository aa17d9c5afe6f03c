//! MinerU-Diffusion: projector configuration and the length of what is generated.
pub mod adapter;
pub mod config;
pub mod parser;
