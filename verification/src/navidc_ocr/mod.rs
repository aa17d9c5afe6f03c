//! NaviDC-OCR: tasks, configuration and decoder graphs.
pub mod config;
pub mod task;
pub mod text;
