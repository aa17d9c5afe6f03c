//! Requests: tasks, prompts, limits and image tokens.
use super::config::MonkeyOcrV2Config;
use crate::error::{self, Error, ErrorView, Message};
use crate::recognition::{BackendCapabilities, RecognitionTask};
use crate::text;
use crate::tokenizer;
use crate::tokens;
use tokenizers::Tokenizer;
use vstd::prelude::*;

verus! {

/// How many tokens a page may take.
pub const DEFAULT_MAX_NEW_TOKENS: usize = 10_000;

/// The least area of a page whose layout is wanted.
pub const LAYOUT_MIN_PIXELS: u32 = 1_003_520;

/// What is asked of an image.
#[derive(Debug, Clone, Copy, PartialEq, Eq, Structural)]
pub enum MonkeyOcrV2Task {
    /// The elements of a page in reading order, with boxes and labels.
    Layout,
    /// A page in one pass: labels, boxes and content.
    EndToEnd,
    /// The text of an image or region.
    Text,
    /// A formula as LaTeX.
    Formula,
    /// A table in OTSL.
    Table,
}

impl MonkeyOcrV2Task {
    /// The instruction for a task.
    pub open spec fn spec_prompt(self) -> Seq<char> {
        match self {
            MonkeyOcrV2Task::Layout => "Please output the categories and coordinates of the document elements in reading order."@,
            MonkeyOcrV2Task::EndToEnd => "List the document elements in reading order, including their categories, coordinates, and the content of each element."@,
            MonkeyOcrV2Task::Text => "Please output the text content from the image."@,
            MonkeyOcrV2Task::Formula => "Please write out the expression of the formula in the image using LaTeX format."@,
            MonkeyOcrV2Task::Table => "Please extract the table from the image and represent it in OTSL format."@,
        }
    }

    /// The instruction for a task.
    pub fn prompt(self) -> (s: &'static str)
        ensures
            s@ == self.spec_prompt(),
    {
        match self {
            MonkeyOcrV2Task::Layout => "Please output the categories and coordinates of the document elements in reading order.",
            MonkeyOcrV2Task::EndToEnd => "List the document elements in reading order, including their categories, coordinates, and the content of each element.",
            MonkeyOcrV2Task::Text => "Please output the text content from the image.",
            MonkeyOcrV2Task::Formula => "Please write out the expression of the formula in the image using LaTeX format.",
            MonkeyOcrV2Task::Table => "Please extract the table from the image and represent it in OTSL format.",
        }
    }

    /// The least area that a task asks for.
    pub fn min_pixels(self) -> (m: Option<u32>)
        ensures
            m == if self == MonkeyOcrV2Task::Layout {
                Some(1_003_520u32)
            } else {
                None
            },
    {
        if self == MonkeyOcrV2Task::Layout {
            Some(LAYOUT_MIN_PIXELS)
        } else {
            None
        }
    }
}

/// Options for parsing a page.
#[derive(Debug, Clone, Copy, PartialEq, Eq, Structural)]
pub struct MonkeyOcrV2ParseOptions {
    pub task: MonkeyOcrV2Task,
    pub max_new_tokens: usize,
}

impl Default for MonkeyOcrV2ParseOptions {
    fn default() -> (o: Self)
        ensures
            o == (MonkeyOcrV2ParseOptions {
                task: MonkeyOcrV2Task::EndToEnd,
                max_new_tokens: 10_000,
            }),
    {
        MonkeyOcrV2ParseOptions {
            task: MonkeyOcrV2Task::EndToEnd,
            max_new_tokens: DEFAULT_MAX_NEW_TOKENS,
        }
    }
}

/// The task that recognises a region.
pub fn map_task(task: RecognitionTask) -> (t: MonkeyOcrV2Task)
    ensures
        t == match task {
            RecognitionTask::Ocr => MonkeyOcrV2Task::Text,
            RecognitionTask::Chart => MonkeyOcrV2Task::Text,
            RecognitionTask::Table => MonkeyOcrV2Task::Table,
            RecognitionTask::Formula => MonkeyOcrV2Task::Formula,
        },
{
    match task {
        RecognitionTask::Ocr => MonkeyOcrV2Task::Text,
        RecognitionTask::Chart => MonkeyOcrV2Task::Text,
        RecognitionTask::Table => MonkeyOcrV2Task::Table,
        RecognitionTask::Formula => MonkeyOcrV2Task::Formula,
    }
}

/// What callers have to know of the answers, where nothing else is `usual`.
pub fn capabilities(usual: BackendCapabilities) -> (c: BackendCapabilities)
    ensures
        c == (BackendCapabilities {
            table_output_is_otsl: true,
            truncate_repetitive_output: true,
            ..usual
        }),
{
    BackendCapabilities { table_output_is_otsl: true, truncate_repetitive_output: true, ..usual }
}

/// The tokenizer's end tokens.
#[derive(Debug, Clone, Copy, PartialEq, Eq, Structural)]
pub struct EndTokens {
    pub im_end: u32,
    pub end_of_text: u32,
}

/// The end tokens of a tokenizer, or the first token that is wrong.
pub open spec fn end_tokens_of(vocabulary: Map<Seq<char>, u32>, image_token_id: u32) -> Result<
    EndTokens,
    ErrorView,
> {
    let name = "MonkeyOCRv2"@;
    let image = tokenizer::required(vocabulary, name, "<|image_pad|>"@, Some(image_token_id));
    let start = tokenizer::required(vocabulary, name, "<|vision_start|>"@, None);
    let end = tokenizer::required(vocabulary, name, "<|vision_end|>"@, None);
    let turn = tokenizer::required(vocabulary, name, "<|im_start|>"@, None);
    let im_end = tokenizer::required(vocabulary, name, "<|im_end|>"@, None);
    let end_of_text = tokenizer::required(vocabulary, name, "<|endoftext|>"@, None);
    if image is Err {
        Err(image->Err_0)
    } else if start is Err {
        Err(start->Err_0)
    } else if end is Err {
        Err(end->Err_0)
    } else if turn is Err {
        Err(turn->Err_0)
    } else if im_end is Err {
        Err(im_end->Err_0)
    } else if end_of_text is Err {
        Err(end_of_text->Err_0)
    } else {
        Ok(EndTokens { im_end: im_end->Ok_0, end_of_text: end_of_text->Ok_0 })
    }
}

/// Checks the special tokens of a tokenizer and gives those that end a page.
pub fn check_tokenizer(tokenizer: &Tokenizer, cfg: &MonkeyOcrV2Config) -> (r: Result<
    EndTokens,
    Error,
>)
    ensures
        error::tells(r, end_tokens_of(tokenizer::vocabulary(*tokenizer), cfg.image_token_id)),
{
    let name = "MonkeyOCRv2";
    if let Err(e) = tokenizer::require(
        tokenizer,
        name,
        "<|image_pad|>",
        Some(cfg.image_token_id),
    ) {
        return Err(e);
    }
    if let Err(e) = tokenizer::require(tokenizer, name, "<|vision_start|>", None) {
        return Err(e);
    }
    if let Err(e) = tokenizer::require(tokenizer, name, "<|vision_end|>", None) {
        return Err(e);
    }
    if let Err(e) = tokenizer::require(tokenizer, name, "<|im_start|>", None) {
        return Err(e);
    }
    let im_end: u32 = match tokenizer::require(tokenizer, name, "<|im_end|>", None) {
        Ok(id) => id,
        Err(e) => return Err(e),
    };
    let end_of_text: u32 = match tokenizer::require(tokenizer, name, "<|endoftext|>", None) {
        Ok(id) => id,
        Err(e) => return Err(e),
    };
    Ok(EndTokens { im_end, end_of_text })
}

/// The tokens of an optional setting.
pub open spec fn optional(id: Option<u32>) -> Seq<u32> {
    match id {
        Some(id) => seq![id],
        None => Seq::empty(),
    }
}

/// The tokens that end a page: the tokenizer's end tokens and those that the
/// configuration names, in increasing order, each once.
pub fn stop_token_ids(ends: EndTokens, eos: Option<u32>, pad: Option<u32>) -> (ids: Vec<u32>)
    ensures
        tokens::is_sorted_set(
            ids@,
            seq![ends.im_end, ends.end_of_text] + optional(eos) + optional(pad),
        ),
{
    let mut all: Vec<u32> = Vec::new();
    all.push(ends.im_end);
    all.push(ends.end_of_text);
    if let Some(id) = eos {
        all.push(id);
    }
    if let Some(id) = pad {
        all.push(id);
    }
    proof {
        assert(all@ =~= seq![ends.im_end, ends.end_of_text] + optional(eos) + optional(pad));
    }
    tokens::sorted_set(&all)
}

/// The prompt for an instruction on an image of `n` tokens.
pub open spec fn prompt_text(instruction: Seq<char>, n: nat) -> Seq<char> {
    "<|im_start|>system\nYou are a helpful assistant.<|im_end|>\n"@
        + "<|im_start|>user\n<|vision_start|>"@ + text::repeated("<|image_pad|>"@, n)
        + "<|vision_end|>"@ + instruction + "<|im_end|>\n<|im_start|>assistant\n"@
}

/// Builds a prompt.
pub fn build_prompt(instruction: &str, num_image_tokens: usize) -> (prompt: String)
    ensures
        prompt@ == prompt_text(instruction@, num_image_tokens as nat),
{
    let mut prompt = "<|im_start|>system\nYou are a helpful assistant.<|im_end|>\n".to_owned();
    prompt.append("<|im_start|>user\n<|vision_start|>");
    text::push_repeated(&mut prompt, "<|image_pad|>", num_image_tokens);
    prompt.append("<|vision_end|>");
    prompt.append(instruction);
    prompt.append("<|im_end|>\n<|im_start|>assistant\n");
    prompt
}

/// Checks that a request has one task for each image.
pub fn validate_counts(images: usize, tasks: usize) -> (r: Result<(), Error>)
    ensures
        error::verdict(
            if images != tasks {
                Some(
                    ErrorView::InvalidInput(
                        "MonkeyOCRv2 image count "@ + text::dec(images as nat)
                            + " != task/prompt count "@ + text::dec(tasks as nat),
                    ),
                )
            } else {
                None
            },
            r,
        ),
{
    if images != tasks {
        return Err(
            Message::new("MonkeyOCRv2 image count ").num(images as u64).text(
                " != task/prompt count ",
            ).num(tasks as u64).invalid_input(),
        );
    }
    Ok(())
}

/// The first thing wrong with the length of a page.
pub open spec fn length_problem(
    prompt_len: usize,
    max_new_tokens: usize,
    context_limit: usize,
) -> Option<ErrorView> {
    if prompt_len + max_new_tokens > usize::MAX {
        Some(ErrorView::InvalidInput("MonkeyOCRv2 requested sequence length overflows usize"@))
    } else if prompt_len + max_new_tokens > context_limit {
        Some(
            ErrorView::InvalidInput(
                "MonkeyOCRv2 prompt ("@ + text::dec(prompt_len as nat)
                    + ") plus max_new_tokens ("@ + text::dec(max_new_tokens as nat)
                    + ") exceeds context limit "@ + text::dec(context_limit as nat),
            ),
        )
    } else {
        None
    }
}

/// Checks that a prompt and the page that follows it fit into the context.
pub fn validate_generation_length(
    prompt_len: usize,
    max_new_tokens: usize,
    context_limit: usize,
) -> (r: Result<(), Error>)
    ensures
        error::verdict(length_problem(prompt_len, max_new_tokens, context_limit), r),
{
    let requested: usize = match prompt_len.checked_add(max_new_tokens) {
        Some(requested) => requested,
        None => return Err(
            Error::invalid_input("MonkeyOCRv2 requested sequence length overflows usize"),
        ),
    };
    if requested > context_limit {
        return Err(
            Message::new("MonkeyOCRv2 prompt (").num(prompt_len as u64).text(
                ") plus max_new_tokens (",
            ).num(max_new_tokens as u64).text(") exceeds context limit ").num(
                context_limit as u64,
            ).invalid_input(),
        );
    }
    Ok(())
}

/// The error for a prompt that the tokenizer rejects.
pub open spec fn encode_failure(message: Seq<char>) -> ErrorView {
    ErrorView::InvalidInput("MonkeyOCRv2 tokenizer encode failed: "@ + message)
}

/// What becomes of an attempt to encode a prompt: it may not be empty, and it and
/// the page have to fit into the context.
pub open spec fn after_encoding(
    outcome: Result<Seq<u32>, Seq<char>>,
    max_new_tokens: usize,
    context_limit: usize,
) -> Result<Seq<u32>, ErrorView> {
    match outcome {
        Ok(ids) => if ids.len() == 0 {
            Err(ErrorView::InvalidInput("MonkeyOCRv2 prompt tokenization produced no tokens"@))
        } else {
            match length_problem(ids.len() as usize, max_new_tokens, context_limit) {
                Some(p) => Err(p),
                None => Ok(ids),
            }
        },
        Err(m) => Err(encode_failure(m)),
    }
}

/// Reports the outcome of encoding a prompt.
pub fn finish_encode(
    encoded: Result<Vec<u32>, String>,
    max_new_tokens: usize,
    context_limit: usize,
) -> (r: Result<Vec<u32>, Error>)
    ensures
        tokenizer::gives(
            r,
            after_encoding(tokenizer::outcome(encoded), max_new_tokens, context_limit),
        ),
{
    match encoded {
        Ok(ids) => {
            if ids.len() == 0 {
                return Err(
                    Error::invalid_input("MonkeyOCRv2 prompt tokenization produced no tokens"),
                );
            }
            if let Err(e) = validate_generation_length(ids.len(), max_new_tokens, context_limit) {
                return Err(e);
            }
            Ok(ids)
        },
        Err(m) => Err(
            Message::new("MonkeyOCRv2 tokenizer encode failed: ").text(m.as_str()).invalid_input(),
        ),
    }
}

/// Encodes a prompt. Which of the possible outcomes comes is up to the tokenizer.
pub fn encode_prompt(
    tokenizer: &Tokenizer,
    instruction: &str,
    num_image_tokens: usize,
    max_new_tokens: usize,
    context_limit: usize,
) -> (r: Result<Vec<u32>, Error>)
    requires
        tokenizer::encodes(*tokenizer),
    ensures
        exists|outcome: Result<Seq<u32>, Seq<char>>| #[trigger]
            tokenizer::encodings(*tokenizer)[prompt_text(instruction@, num_image_tokens as nat)].contains(outcome) && tokenizer::gives(
                r,
                after_encoding(outcome, max_new_tokens, context_limit),
            ),
{
    let prompt = build_prompt(instruction, num_image_tokens);
    finish_encode(tokenizer::encode(tokenizer, prompt.as_str()), max_new_tokens, context_limit)
}

/// The first thing wrong with the image tokens of a prompt.
pub open spec fn span_problem(ids: Seq<u32>, token: u32, embeds: usize) -> Option<ErrorView> {
    let places = tokens::positions(ids, token);
    if places.len() != embeds || places.len() == 0 {
        Some(
            ErrorView::InvalidInput(
                "MonkeyOCRv2 image placeholder count "@ + text::dec(places.len())
                    + " != image embedding count "@ + text::dec(embeds as nat),
            ),
        )
    } else if !tokens::contiguous(places) {
        Some(ErrorView::InvalidInput("MonkeyOCRv2 image placeholders must be contiguous"@))
    } else {
        None
    }
}

/// Finds the places of the image embeddings in a prompt.
pub fn image_span(input_ids: &Vec<u32>, image_token_id: u32, embeds: usize) -> (r: Result<
    (usize, usize),
    Error,
>)
    ensures
        match r {
            Ok((start, end)) => {
                &&& span_problem(input_ids@, image_token_id, embeds) is None
                &&& start < end <= input_ids.len()
                &&& end - start == embeds
                &&& forall|i: int|
                    0 <= i < input_ids.len() ==> (#[trigger] input_ids[i] == image_token_id
                        <==> start <= i < end)
            },
            Err(e) => span_problem(input_ids@, image_token_id, embeds) == Some(e@),
        },
{
    let places = tokens::find_positions(input_ids, image_token_id);
    let ghost ps = tokens::positions(input_ids@, image_token_id);
    let n: usize = places.len();
    if n != embeds || n == 0 {
        return Err(
            Message::new("MonkeyOCRv2 image placeholder count ").num(n as u64).text(
                " != image embedding count ",
            ).num(embeds as u64).invalid_input(),
        );
    }
    if !tokens::are_contiguous(&places) {
        return Err(Error::invalid_input("MonkeyOCRv2 image placeholders must be contiguous"));
    }
    let start: usize = places[0];
    proof {
        assert(ps[0] == places[0]);
        tokens::lemma_contiguous_run(input_ids@, image_token_id);
    }
    Ok((start, start + n))
}

/// The error for ids that the tokenizer cannot decode.
pub open spec fn decode_failure(message: Seq<char>) -> ErrorView {
    ErrorView::InvalidInput("MonkeyOCRv2 tokenizer decode failed: "@ + message)
}

/// Reports the outcome of decoding a page; its text is trimmed.
pub fn finish_decode(decoded: Result<String, String>) -> (r: Result<String, Error>)
    ensures
        match (decoded, r) {
            (Ok(s), Ok(out)) => out@ == text::trimmed(s@),
            (Err(m), Err(e)) => e@ == decode_failure(m@),
            _ => false,
        },
{
    match decoded {
        Ok(s) => Ok(text::trim(s.as_str())),
        Err(m) => Err(
            Message::new("MonkeyOCRv2 tokenizer decode failed: ").text(m.as_str()).invalid_input(),
        ),
    }
}

/// The trimmed text of a page.
pub fn decode_tokens(tokenizer: &Tokenizer, ids: &Vec<u32>) -> (r: Result<String, Error>)
    requires
        tokenizer::decodes(*tokenizer),
    ensures
        match tokenizer::decodings(*tokenizer)[(ids@, true)] {
            Ok(s) => r matches Ok(out) && out@ == text::trimmed(s),
            Err(m) => r matches Err(e) && e@ == decode_failure(m),
        },
{
    finish_decode(tokenizer::decode(tokenizer, ids, true))
}

/// The end tokens of a tokenizer are the ids that it has for them; it has to know all
/// tokens of a prompt, and the image token under the id of the configuration.
pub proof fn law_tokenizer_knows_its_markers(v: Map<Seq<char>, u32>, image_token_id: u32)
    ensures
        match end_tokens_of(v, image_token_id) {
            Ok(ends) => {
                &&& v.contains_key("<|image_pad|>"@) && v["<|image_pad|>"@] == image_token_id
                &&& v.contains_key("<|vision_start|>"@)
                &&& v.contains_key("<|vision_end|>"@)
                &&& v.contains_key("<|im_start|>"@)
                &&& v.contains_key("<|im_end|>"@) && v["<|im_end|>"@] == ends.im_end
                &&& v.contains_key("<|endoftext|>"@) && v["<|endoftext|>"@] == ends.end_of_text
            },
            Err(_) => {
                ||| !v.contains_key("<|image_pad|>"@) || v["<|image_pad|>"@] != image_token_id
                ||| !v.contains_key("<|vision_start|>"@)
                ||| !v.contains_key("<|vision_end|>"@)
                ||| !v.contains_key("<|im_start|>"@)
                ||| !v.contains_key("<|im_end|>"@)
                ||| !v.contains_key("<|endoftext|>"@)
            },
        },
{
}

/// A page ends at the tokenizer's end tokens and at those that the configuration names,
/// as far as it names any.
pub proof fn law_page_ends_at_all_end_tokens(
    ids: Seq<u32>,
    ends: EndTokens,
    eos: Option<u32>,
    pad: Option<u32>,
    t: u32,
)
    requires
        tokens::is_sorted_set(
            ids,
            seq![ends.im_end, ends.end_of_text] + optional(eos) + optional(pad),
        ),
    ensures
        ids.contains(t) <==> t == ends.im_end || t == ends.end_of_text || eos == Some(t) || pad
            == Some(t),
{
    let all = seq![ends.im_end, ends.end_of_text] + optional(eos) + optional(pad);
    assert(all[0] == ends.im_end && all[1] == ends.end_of_text);
    if eos is Some {
        assert(all[2] == eos->0);
    }
    if pad is Some {
        assert(all[all.len() - 1] == pad->0);
    }
    if all.contains(t) {
        let i = all.index_of(t);
        assert(all[i] == t);
    }
}

/// A prompt holds its instruction behind a marker for each image token, and the same
/// text around them.
pub proof fn law_prompt_holds_markers_and_instruction(instruction: Seq<char>, n: nat)
    ensures
        prompt_text(instruction, n)
            == "<|im_start|>system\nYou are a helpful assistant.<|im_end|>\n"@ + (
        "<|im_start|>user\n<|vision_start|>"@ + text::repeated("<|image_pad|>"@, n) + (
        "<|vision_end|>"@ + instruction + "<|im_end|>\n<|im_start|>assistant\n"@)),
{
    assert(prompt_text(instruction, n)
        =~= "<|im_start|>system\nYou are a helpful assistant.<|im_end|>\n"@ + (
    "<|im_start|>user\n<|vision_start|>"@ + text::repeated("<|image_pad|>"@, n) + (
    "<|vision_end|>"@ + instruction + "<|im_end|>\n<|im_start|>assistant\n"@)));
}

/// A page fits when its prompt and all that may be written behind it stay within the
/// context.
pub proof fn law_page_fits_into_the_context(prompt_len: usize, wanted: usize, limit: usize)
    ensures
        length_problem(prompt_len, wanted, limit) is None <==> prompt_len + wanted <= limit,
{
}

/// An image goes into a prompt whose image tokens are as many as its embeddings, one at
/// least, and stand side by side; every other prompt is refused.
pub proof fn law_image_needs_its_run_of_tokens(ids: Seq<u32>, token: u32, embeds: usize, start: int)
    ensures
        0 <= start && start + embeds <= ids.len() && embeds > 0 && tokens::stands_exactly(
            ids,
            token,
            start,
            start + embeds,
        ) ==> span_problem(ids, token, embeds) is None,
        span_problem(ids, token, embeds) is None ==> embeds > 0 && exists|first: int|
            0 <= first && first + embeds <= ids.len() && #[trigger] tokens::stands_exactly(
                ids,
                token,
                first,
                first + embeds,
            ),
{
    let places = tokens::positions(ids, token);
    if 0 <= start && start + embeds <= ids.len() && embeds > 0 && tokens::stands_exactly(
        ids,
        token,
        start,
        start + embeds,
    ) {
        tokens::lemma_places_of_a_run(ids, token, start, start + embeds);
        assert(tokens::contiguous(places));
    }
    if span_problem(ids, token, embeds) is None {
        tokens::lemma_contiguous_run(ids, token);
        assert(tokens::stands_exactly(ids, token, places[0], places[0] + embeds));
    }
}

/// What is wrong with a page is told as a fault of the request, and a tokenizer without
/// its tokens as one of the configuration.
pub proof fn law_faults_are_told_apart(
    v: Map<Seq<char>, u32>,
    lens: (usize, usize, usize),
    ids: Seq<u32>,
    token: u32,
    embeds: usize,
)
    ensures
        end_tokens_of(v, token) matches Err(e) ==> e is Config,
        length_problem(lens.0, lens.1, lens.2) matches Some(e) ==> e is InvalidInput,
        span_problem(ids, token, embeds) matches Some(e) ==> e is InvalidInput,
{
}

/// A prompt is accepted as the tokenizer encodes it, if that is not empty and leaves
/// room for the page; an error of the tokenizer is handed on in words.
pub proof fn law_prompt_is_accepted_as_encoded(
    ids: Seq<u32>,
    message: Seq<char>,
    wanted: usize,
    limit: usize,
)
    requires
        ids.len() <= usize::MAX,
    ensures
        match after_encoding(Ok(ids), wanted, limit) {
            Ok(accepted) => accepted == ids && ids.len() > 0 && ids.len() + wanted <= limit,
            Err(e) => e is InvalidInput && (ids.len() == 0 || ids.len() + wanted > limit),
        },
        after_encoding(Err(message), wanted, limit) == Err::<Seq<u32>, ErrorView>(
            ErrorView::InvalidInput("MonkeyOCRv2 tokenizer encode failed: "@ + message),
        ),
{
}

impl MonkeyOcrV2Task {
    /// Each task has its instruction.
    pub proof fn law_task_has_its_instruction(self)
        ensures
            self is Layout ==> self.spec_prompt()
                == "Please output the categories and coordinates of the document elements in reading order."@,
            self is EndToEnd ==> self.spec_prompt()
                == "List the document elements in reading order, including their categories, coordinates, and the content of each element."@,
            self is Text ==> self.spec_prompt() == "Please output the text content from the image."@,
            self is Formula ==> self.spec_prompt()
                == "Please write out the expression of the formula in the image using LaTeX format."@,
            self is Table ==> self.spec_prompt()
                == "Please extract the table from the image and represent it in OTSL format."@,
    {
    }
}

} // verus!
