//! HunyuanOCR: batched greedy decoding with a repetition penalty, and DFlash
//! draft-and-verify decoding of single pages.
pub mod config;
pub mod decode;
pub mod dflash;
pub mod history;
pub mod model;
pub mod penalty;
