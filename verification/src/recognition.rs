//! Recognition tasks that every model serves.
use crate::error::{Error, ErrorView};
use crate::text;
use vstd::prelude::*;

verus! {

/// What is asked of a cropped region.
#[derive(Debug, Clone, Copy, PartialEq, Eq, Structural)]
pub enum RecognitionTask {
    Ocr,
    Table,
    Formula,
    Chart,
}

/// What callers have to know of a model's answers.
#[derive(Debug, Clone, Copy, PartialEq, Eq, Structural, Default)]
pub struct BackendCapabilities {
    pub table_output_is_otsl: bool,
    pub truncate_repetitive_output: bool,
    pub preprocess_formula_margin: bool,
}

/// The answer that is handed out once repetitions have been cut: without white
/// space at its ends.
pub fn clean(output: &str) -> (r: String)
    ensures
        r@ == text::trimmed(output@),
{
    text::trim(output)
}

/// The answer to a request for one image: the first of `answers`, or an error that
/// says `none` where there is none.
pub fn first_answer(answers: Vec<Result<String, Error>>, none: &str) -> (r: Result<String, Error>)
    ensures
        if answers@.len() == 0 {
            r matches Err(e) && e@ == ErrorView::InvalidInput(none@)
        } else {
            r == answers@[0]
        },
{
    if answers.len() == 0 {
        return Err(Error::invalid_input(none));
    }
    let mut answers = answers;
    answers.remove(0)
}

} // verus!
