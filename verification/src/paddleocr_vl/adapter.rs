//! Region recognition.
use crate::recognition::{BackendCapabilities, RecognitionTask};
use vstd::prelude::*;

verus! {

/// What is asked of an image.
#[derive(Debug, Clone, Copy, PartialEq, Eq, Structural)]
pub enum PaddleOcrVlTask {
    Ocr,
    Table,
    Formula,
    Chart,
    Spotting,
    Seal,
}

/// The task that recognises a region.
pub fn task(requested: RecognitionTask) -> (t: PaddleOcrVlTask)
    ensures
        t == match requested {
            RecognitionTask::Ocr => PaddleOcrVlTask::Ocr,
            RecognitionTask::Table => PaddleOcrVlTask::Table,
            RecognitionTask::Formula => PaddleOcrVlTask::Formula,
            RecognitionTask::Chart => PaddleOcrVlTask::Chart,
        },
{
    match requested {
        RecognitionTask::Ocr => PaddleOcrVlTask::Ocr,
        RecognitionTask::Table => PaddleOcrVlTask::Table,
        RecognitionTask::Formula => PaddleOcrVlTask::Formula,
        RecognitionTask::Chart => PaddleOcrVlTask::Chart,
    }
}

/// Regions with the same key may be recognised together; those whose size cannot be
/// told share the key 0.
pub fn recognition_batch_key(key: Option<u64>) -> (k: u64)
    ensures
        k == match key {
            Some(key) => key,
            None => 0,
        },
{
    match key {
        Some(key) => key,
        None => 0,
    }
}

/// What callers have to know of the answers, where nothing else is `usual`.
pub fn capabilities(usual: BackendCapabilities) -> (c: BackendCapabilities)
    ensures
        c == (BackendCapabilities {
            preprocess_formula_margin: true,
            ..usual
        }),
{
    BackendCapabilities { preprocess_formula_margin: true, ..usual }
}

} // verus!
