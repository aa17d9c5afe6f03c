//! GLM-OCR: greedy decoding, optionally with drafts by the checkpoint's own
//! multi-token prediction head.
pub mod model;
pub mod mtp;
pub mod text;
