//! Prompting, scheduling, decoding and configuration rules of a family of
//! vision-language OCR models, with their contracts proved by Verus.
//!
//! Tensor arithmetic, file access and image input live with the caller; this
//! crate decides what is fed to the networks and what is made of their answers.
pub mod decoder_graph;
pub mod decoding;
pub mod double;
pub mod error;
pub mod float;
pub mod glmocr;
pub mod grid;
pub mod hpd_parsing;
pub mod hunyuanocr;
pub mod image;
pub mod mineru;
pub mod mineru_diffusion;
pub mod monkeyocrv2;
pub mod navidc_ocr;
pub mod numbers;
pub mod ovisocr2;
pub mod paddleocr_vl;
pub mod page;
pub mod patches;
pub mod positions;
pub mod recognition;
pub mod scores;
pub mod sdar;
pub mod speculative;
pub mod text;
pub mod tokenizer;
pub mod tokens;
