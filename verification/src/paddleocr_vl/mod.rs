//! PaddleOCR-VL: tasks, patches and table answers.
pub mod adapter;
pub mod processing;
