//! HPD-Parsing: a page is decoded by one parent branch that forks child branches
//! for its blocks; all of them advance together.
pub mod config;
pub mod forks;
pub mod model;
pub mod processing;
pub mod run;
pub mod scheduler;
pub mod vision;
