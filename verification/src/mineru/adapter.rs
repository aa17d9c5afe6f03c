//! Region recognition.
use crate::recognition::{BackendCapabilities, RecognitionTask};
use vstd::prelude::*;

verus! {

/// The instruction for a recognition task.
pub open spec fn task_prompt(task: RecognitionTask) -> Seq<char> {
    match task {
        RecognitionTask::Ocr => "\nText Recognition:"@,
        RecognitionTask::Table => "\nTable Recognition:"@,
        RecognitionTask::Formula => "\nFormula Recognition:"@,
        RecognitionTask::Chart => "\nDocument Parsing:"@,
    }
}

/// The instruction for a recognition task.
pub fn prompt(task: RecognitionTask) -> (s: &'static str)
    ensures
        s@ == task_prompt(task),
{
    match task {
        RecognitionTask::Ocr => "\nText Recognition:",
        RecognitionTask::Table => "\nTable Recognition:",
        RecognitionTask::Formula => "\nFormula Recognition:",
        RecognitionTask::Chart => "\nDocument Parsing:",
    }
}

/// What callers have to know of the answers, where nothing else is `usual`.
pub fn capabilities(usual: BackendCapabilities) -> (c: BackendCapabilities)
    ensures
        c == (BackendCapabilities {
            table_output_is_otsl: true,
            ..usual
        }),
{
    BackendCapabilities { table_output_is_otsl: true, ..usual }
}

/// Each recognition task has its instruction, on a line of its own.
pub proof fn law_tasks_have_their_instructions()
    ensures
        task_prompt(RecognitionTask::Ocr) == "\nText Recognition:"@,
        task_prompt(RecognitionTask::Table) == "\nTable Recognition:"@,
        task_prompt(RecognitionTask::Formula) == "\nFormula Recognition:"@,
        task_prompt(RecognitionTask::Chart) == "\nDocument Parsing:"@,
{
}

} // verus!
