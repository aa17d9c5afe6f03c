//! OvisOCR2: a page parser with linear and full attention layers.
pub mod config;
pub mod gated_delta;
pub mod model;
pub mod output;
pub mod processing;
pub mod text;
pub mod vision;
