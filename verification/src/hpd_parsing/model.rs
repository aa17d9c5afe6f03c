//! Requests: prompts, limits and the text of a page.
use super::config::HpdParsingConfig;
use super::scheduler::{self, HpdRuntimeStats, SchedulerOutput};
use crate::error::{self, Error, ErrorView, Message};
use crate::text;
use crate::tokenizer;
use crate::tokens;
use tokenizers::Tokenizer;
use vstd::prelude::*;

verus! {

pub const DEFAULT_PROMPT: &'static str = "document parsing with fork.";

pub const DEFAULT_MAX_NEW_TOKENS: usize = 8_000;

pub const DEFAULT_SPECULATIVE_TOKENS: usize = 6;

/// How a page is decoded.
#[derive(Debug, Clone, Copy)]
pub struct HpdGenerationConfig {
    pub max_new_tokens: usize,
    pub use_mtp: bool,
    pub num_speculative_tokens: usize,
    /// How many branches advance in one batch. Newly forked children are admitted
    /// first.
    pub max_active_branches: usize,
}

impl Default for HpdGenerationConfig {
    fn default() -> (c: Self)
        ensures
            c == (HpdGenerationConfig {
                max_new_tokens: 8_000,
                use_mtp: true,
                num_speculative_tokens: 6,
                max_active_branches: 64,
            }),
    {
        HpdGenerationConfig {
            max_new_tokens: DEFAULT_MAX_NEW_TOKENS,
            use_mtp: true,
            num_speculative_tokens: DEFAULT_SPECULATIVE_TOKENS,
            max_active_branches: 64,
        }
    }
}

impl HpdGenerationConfig {
    /// The first thing wrong with the request.
    pub open spec fn problem(self) -> Option<ErrorView> {
        if self.use_mtp && self.num_speculative_tokens == 0 {
            Some(
                ErrorView::Config(
                    "HPD-Parsing num_speculative_tokens must be non-zero when P-MTP is enabled"@,
                ),
            )
        } else if self.max_active_branches == 0 {
            Some(ErrorView::Config("HPD-Parsing max_active_branches must be non-zero"@))
        } else {
            None
        }
    }

    /// Checks the request.
    pub fn validate(&self) -> (r: Result<(), Error>)
        ensures
            error::verdict(self.problem(), r),
    {
        if self.use_mtp && self.num_speculative_tokens == 0 {
            return Err(
                Error::config(
                    "HPD-Parsing num_speculative_tokens must be non-zero when P-MTP is enabled",
                ),
            );
        }
        if self.max_active_branches == 0 {
            return Err(Error::config("HPD-Parsing max_active_branches must be non-zero"));
        }
        Ok(())
    }
}

/// The prompt around an instruction and the places of the image tokens.
pub open spec fn prompt_text(instruction: Seq<char>, image_tokens: nat) -> Seq<char> {
    "<|im_start|>system\n"@
        + "你是书生·万象，英文名是InternVL，是由上海人工智能实验室、清华大学及多家合作单位联合开发的多模态大语言模型。"@
        + "<|im_end|>\n<|im_start|>user\n<img>"@ + text::repeated("<IMG_CONTEXT>"@, image_tokens)
        + "</img>\n"@ + instruction + "<|im_end|>\n<|im_start|>assistant\n"@
}

/// Builds the prompt.
pub fn build_prompt(instruction: &str, image_tokens: usize) -> (prompt: String)
    ensures
        prompt@ == prompt_text(instruction@, image_tokens as nat),
{
    let mut prompt = "<|im_start|>system\n".to_owned();
    prompt.append(
        "你是书生·万象，英文名是InternVL，是由上海人工智能实验室、清华大学及多家合作单位联合开发的多模态大语言模型。",
    );
    prompt.append("<|im_end|>\n<|im_start|>user\n<img>");
    text::push_repeated(&mut prompt, "<IMG_CONTEXT>", image_tokens);
    prompt.append("</img>\n");
    prompt.append(instruction);
    prompt.append("<|im_end|>\n<|im_start|>assistant\n");
    prompt
}

/// The first thing wrong with the length of a request.
pub open spec fn length_problem(
    prompt_len: usize,
    max_new_tokens: usize,
    context_limit: usize,
) -> Option<ErrorView> {
    if prompt_len + max_new_tokens > usize::MAX {
        Some(ErrorView::InvalidInput("HPD-Parsing requested sequence length overflows usize"@))
    } else if prompt_len + max_new_tokens > context_limit {
        Some(
            ErrorView::InvalidInput(
                "HPD-Parsing prompt ("@ + text::dec(prompt_len as nat)
                    + ") plus max_new_tokens ("@ + text::dec(max_new_tokens as nat)
                    + ") exceeds context limit "@ + text::dec(context_limit as nat),
            ),
        )
    } else {
        None
    }
}

/// Checks that a prompt and its answer fit into the context.
pub fn validate_generation_length(
    prompt_len: usize,
    max_new_tokens: usize,
    context_limit: usize,
) -> (r: Result<(), Error>)
    ensures
        error::verdict(length_problem(prompt_len, max_new_tokens, context_limit), r),
{
    let requested: usize = match prompt_len.checked_add(max_new_tokens) {
        Some(requested) => requested,
        None => {
            return Err(
                Error::invalid_input("HPD-Parsing requested sequence length overflows usize"),
            );
        },
    };
    if requested > context_limit {
        return Err(
            Message::new("HPD-Parsing prompt (").num(prompt_len as u64).text(
                ") plus max_new_tokens (",
            ).num(max_new_tokens as u64).text(") exceeds context limit ").num(
                context_limit as u64,
            ).invalid_input(),
        );
    }
    Ok(())
}

/// Checks that a request has one prompt for each image.
pub fn validate_counts(images: usize, prompts: usize) -> (r: Result<(), Error>)
    ensures
        error::verdict(
            if images != prompts {
                Some(
                    ErrorView::InvalidInput(
                        "HPD-Parsing image count "@ + text::dec(images as nat)
                            + " != prompt count "@ + text::dec(prompts as nat),
                    ),
                )
            } else {
                None
            },
            r,
        ),
{
    if images != prompts {
        return Err(
            Message::new("HPD-Parsing image count ").num(images as u64).text(
                " != prompt count ",
            ).num(prompts as u64).invalid_input(),
        );
    }
    Ok(())
}

/// The ids of the tokens that the protocol needs.
#[derive(Debug)]
pub struct ProtocolTokens {
    pub image_context_token_id: u32,
    pub stop_token_ids: Vec<u32>,
}

/// The first protocol token that a vocabulary lacks or numbers otherwise.
pub open spec fn protocol_problem(v: Map<Seq<char>, u32>, cfg: HpdParsingConfig) -> Option<
    ErrorView,
> {
    let m = "HPD-Parsing"@;
    if let Err(e) = tokenizer::required(v, m, "<IMG_CONTEXT>"@, Some(151671)) {
        Some(e)
    } else if let Err(e) = tokenizer::required(v, m, "<img>"@, Some(151669)) {
        Some(e)
    } else if let Err(e) = tokenizer::required(v, m, "</img>"@, Some(151670)) {
        Some(e)
    } else if let Err(e) = tokenizer::required(v, m, "<|im_start|>"@, Some(151644)) {
        Some(e)
    } else if let Err(e) = tokenizer::required(v, m, "<|im_end|>"@, Some(cfg.eos_token_id)) {
        Some(e)
    } else if let Err(e) = tokenizer::required(v, m, "<FORK>"@, Some(cfg.fork_token_id)) {
        Some(e)
    } else if let Err(e) = tokenizer::required(v, m, "<CHILD>"@, Some(cfg.child_token_id)) {
        Some(e)
    } else {
        None
    }
}

/// Looks up the protocol tokens and checks them against the configuration.
pub fn protocol_tokens(tokenizer: &Tokenizer, cfg: &HpdParsingConfig) -> (r: Result<
    ProtocolTokens,
    Error,
>)
    ensures
        match r {
            Ok(t) => {
                &&& protocol_problem(tokenizer::vocabulary(*tokenizer), *cfg) is None
                &&& t.image_context_token_id == 151671
                &&& t.stop_token_ids@ == seq![cfg.eos_token_id]
            },
            Err(e) => protocol_problem(tokenizer::vocabulary(*tokenizer), *cfg) == Some(e@),
        },
{
    let m = "HPD-Parsing";
    let image_context_token_id: u32 = match tokenizer::require(
        tokenizer,
        m,
        "<IMG_CONTEXT>",
        Some(151671),
    ) {
        Ok(id) => id,
        Err(e) => return Err(e),
    };
    if let Err(e) = tokenizer::require(tokenizer, m, "<img>", Some(151669)) {
        return Err(e);
    }
    if let Err(e) = tokenizer::require(tokenizer, m, "</img>", Some(151670)) {
        return Err(e);
    }
    if let Err(e) = tokenizer::require(tokenizer, m, "<|im_start|>", Some(151644)) {
        return Err(e);
    }
    let im_end: u32 = match tokenizer::require(tokenizer, m, "<|im_end|>", Some(cfg.eos_token_id)) {
        Ok(id) => id,
        Err(e) => return Err(e),
    };
    if let Err(e) = tokenizer::require(tokenizer, m, "<FORK>", Some(cfg.fork_token_id)) {
        return Err(e);
    }
    if let Err(e) = tokenizer::require(tokenizer, m, "<CHILD>", Some(cfg.child_token_id)) {
        return Err(e);
    }
    let mut ids: Vec<u32> = Vec::new();
    ids.push(im_end);
    ids.push(cfg.eos_token_id);
    let stop_token_ids = tokens::sorted_set(&ids);
    proof {
        let one = seq![cfg.eos_token_id];
        assert forall|t: u32| ids@.contains(t) <==> t == cfg.eos_token_id by {
            if t == cfg.eos_token_id {
                assert(ids@[1] == t);
            }
        }
        assert forall|t: u32| one.contains(t) <==> t == cfg.eos_token_id by {
            if t == cfg.eos_token_id {
                assert(one[0] == t);
            }
        }
        assert forall|t: u32| stop_token_ids@.contains(t) <==> one.contains(t) by {
            assert(ids@.contains(t) <==> one.contains(t));
        }
        tokens::law_sorted_set_is_unique(stop_token_ids@, one);
    }
    Ok(ProtocolTokens { image_context_token_id, stop_token_ids })
}

/// Encodes a prompt. Which of the possible outcomes comes is up to the tokenizer.
pub fn encode_prompt(tokenizer: &Tokenizer, prompt: &str) -> (r: Result<Vec<u32>, Error>)
    requires
        tokenizer::encodes(*tokenizer),
    ensures
        exists|outcome: Result<Seq<u32>, Seq<char>>| #[trigger]
            tokenizer::encodings(*tokenizer)[prompt@].contains(outcome) && tokenizer::gives(
                r,
                after_encoding(outcome),
            ),
{
    finish_encode(tokenizer::encode(tokenizer, prompt))
}

/// The error for a prompt that the tokenizer rejects.
pub open spec fn encode_failure(message: Seq<char>) -> ErrorView {
    ErrorView::InvalidInput("HPD-Parsing tokenizer encode failed: "@ + message)
}

/// What becomes of an attempt to encode a prompt.
pub open spec fn after_encoding(outcome: Result<Seq<u32>, Seq<char>>) -> Result<Seq<u32>, ErrorView> {
    match outcome {
        Ok(ids) => Ok(ids),
        Err(m) => Err(encode_failure(m)),
    }
}

/// Reports the outcome of encoding a prompt.
pub fn finish_encode(encoded: Result<Vec<u32>, String>) -> (r: Result<Vec<u32>, Error>)
    ensures
        tokenizer::gives(r, after_encoding(tokenizer::outcome(encoded))),
{
    match encoded {
        Ok(ids) => Ok(ids),
        Err(m) => Err(
            Message::new("HPD-Parsing tokenizer encode failed: ").text(m.as_str()).invalid_input(),
        ),
    }
}

/// What becomes of an attempt to encode the prompt of a page, which has to fit into
/// the context together with its answer.
pub open spec fn prompt_after_encoding(
    outcome: Result<Seq<u32>, Seq<char>>,
    max_new_tokens: usize,
    context_limit: usize,
) -> Result<Seq<u32>, ErrorView> {
    match after_encoding(outcome) {
        Ok(ids) => match length_problem(ids.len() as usize, max_new_tokens, context_limit) {
            Some(p) => Err(p),
            None => Ok(ids),
        },
        Err(p) => Err(p),
    }
}

/// Encodes the prompt of a page.
pub fn prompt_ids(
    tokenizer: &Tokenizer,
    instruction: &str,
    image_tokens: usize,
    max_new_tokens: usize,
    context_limit: usize,
) -> (r: Result<Vec<u32>, Error>)
    requires
        tokenizer::encodes(*tokenizer),
    ensures
        exists|outcome: Result<Seq<u32>, Seq<char>>| #[trigger]
            tokenizer::encodings(*tokenizer)[prompt_text(
                instruction@,
                image_tokens as nat,
            )].contains(outcome) && tokenizer::gives(
                r,
                prompt_after_encoding(outcome, max_new_tokens, context_limit),
            ),
{
    let prompt = build_prompt(instruction, image_tokens);
    match encode_prompt(tokenizer, prompt.as_str()) {
        Ok(ids) => match validate_generation_length(ids.len(), max_new_tokens, context_limit) {
            Ok(()) => Ok(ids),
            Err(e) => Err(e),
        },
        Err(e) => Err(e),
    }
}

/// Where the image embeddings go: the places of the image tokens, which have to
/// be neighbours and as many as there are embeddings.
pub open spec fn is_image_span(ids: Seq<u32>, token: u32, image_len: usize, span: (usize, usize)) -> bool {
    &&& 0 <= span.0 < span.1 <= ids.len()
    &&& span.1 - span.0 == image_len
    &&& forall|i: int| 0 <= i < ids.len() ==> (#[trigger] ids[i] == token <==> span.0 <= i < span.1)
}

/// Finds the place of the image embeddings in a prompt.
pub fn image_span(ids: &Vec<u32>, image_context_token_id: u32, image_len: usize) -> (r: Result<
    (usize, usize),
    Error,
>)
    ensures
        ({
            let places = tokens::positions(ids@, image_context_token_id);
            match r {
                Ok(span) => is_image_span(ids@, image_context_token_id, image_len, span),
                Err(e) => if places.len() != image_len || places.len() == 0 {
                    e@ == ErrorView::InvalidInput(
                        "HPD-Parsing image placeholder count "@ + text::dec(places.len())
                            + " != image embedding count "@ + text::dec(image_len as nat),
                    )
                } else {
                    !tokens::contiguous(places) && e@ == ErrorView::InvalidInput(
                        "HPD-Parsing image placeholders must be contiguous"@,
                    )
                },
            }
        }),
        r is Ok <==> ({
            let places = tokens::positions(ids@, image_context_token_id);
            places.len() == image_len && places.len() > 0 && tokens::contiguous(places)
        }),
{
    let places = tokens::find_positions(ids, image_context_token_id);
    let ghost ps = tokens::positions(ids@, image_context_token_id);
    if places.len() != image_len || places.len() == 0 {
        return Err(
            Message::new("HPD-Parsing image placeholder count ").num(places.len() as u64).text(
                " != image embedding count ",
            ).num(image_len as u64).invalid_input(),
        );
    }
    if !tokens::are_contiguous(&places) {
        return Err(Error::invalid_input("HPD-Parsing image placeholders must be contiguous"));
    }
    let start: usize = places[0];
    proof {
        let last = places.len() - 1;
        assert(ps[last] == places[last as int]);
        assert(ps[0] == places[0]);
        assert forall|i: int| 0 <= i < ids.len() implies (#[trigger] ids[i]
            == image_context_token_id <==> start <= i < start + image_len) by {
            tokens::lemma_positions_complete(ids@, image_context_token_id, i);
            if start <= i < start + image_len {
                assert(ps[i - start] == i);
            }
            if ps.contains(i) {
                let k = choose|k: int| 0 <= k < ps.len() && ps[k] == i;
            }
        }
    }
    Ok((start, start + image_len))
}

/// The error for ids that the tokenizer cannot decode.
pub open spec fn decode_failure(message: Seq<char>) -> ErrorView {
    ErrorView::InvalidInput("HPD-Parsing tokenizer decode failed: "@ + message)
}

/// Decodes a page. The stop tokens are left out; the protocol's markers stay.
pub fn decode_protocol_tokens(
    tokenizer: &Tokenizer,
    ids: &Vec<u32>,
    stop_token_ids: &Vec<u32>,
) -> (r: Result<String, String>)
    requires
        tokenizer::decodes(*tokenizer),
    ensures
        ({
            let outcome = tokenizer::decodings(
                *tokenizer,
            )[(tokens::without(ids@, stop_token_ids@), false)];
            match r {
                Ok(s) => outcome == Ok::<Seq<char>, Seq<char>>(s@),
                Err(m) => outcome == Err::<Seq<char>, Seq<char>>(m@),
            }
        }),
{
    let visible = tokens::drop_all(ids, stop_token_ids);
    tokenizer::decode(tokenizer, &visible, false)
}

/// Reports the outcome of decoding a page; its text is trimmed.
pub fn finish_decode(decoded: Result<String, String>) -> (r: Result<String, Error>)
    ensures
        match (decoded, r) {
            (Ok(s), Ok(out)) => out@ == text::trimmed(s@),
            (Err(m), Err(e)) => e@ == decode_failure(m@),
            _ => false,
        },
{
    match decoded {
        Ok(s) => Ok(text::trim(s.as_str())),
        Err(m) => Err(
            Message::new("HPD-Parsing tokenizer decode failed: ").text(m.as_str()).invalid_input(),
        ),
    }
}

/// The trimmed text of a page.
pub fn decode_tokens(tokenizer: &Tokenizer, ids: &Vec<u32>, stop_token_ids: &Vec<u32>) -> (r: Result<
    String,
    Error,
>)
    requires
        tokenizer::decodes(*tokenizer),
    ensures
        match tokenizer::decodings(*tokenizer)[(tokens::without(ids@, stop_token_ids@), false)] {
            Ok(s) => r matches Ok(out) && out@ == text::trimmed(s),
            Err(m) => r matches Err(e) && e@ == decode_failure(m),
        },
{
    finish_decode(decode_protocol_tokens(tokenizer, ids, stop_token_ids))
}

/// A parsed page.
#[derive(Debug, Clone)]
pub struct HpdOutput {
    pub text: String,
    pub token_ids: Vec<u32>,
    pub parent_token_count: usize,
    pub child_token_counts: Vec<usize>,
    pub runtime: HpdRuntimeStats,
}

impl HpdOutput {
    /// The answer to a request for no tokens.
    pub fn empty() -> (o: HpdOutput)
        ensures
            o.text@ == Seq::<char>::empty(),
            o.token_ids@ == Seq::<u32>::empty(),
            o.parent_token_count == 0,
            o.child_token_counts@ == Seq::<usize>::empty(),
            o.runtime == (HpdRuntimeStats {
                scheduler_rounds: 0,
                peak_active_branches: 0,
                forked_branches: 0,
                shared_prefix_tokens: 0,
                mtp_drafted_tokens: 0,
                mtp_accepted_tokens: 0,
            }),
    {
        HpdOutput {
            text: String::new(),
            token_ids: Vec::new(),
            parent_token_count: 0,
            child_token_counts: Vec::new(),
            runtime: HpdRuntimeStats::default(),
        }
    }
}

/// The lengths of the children's outputs.
pub fn child_counts(children: &Vec<Vec<u32>>) -> (counts: Vec<usize>)
    ensures
        counts.len() == children.len(),
        forall|i: int| 0 <= i < counts.len() ==> #[trigger] counts[i] == children[i].len(),
{
    let mut counts: Vec<usize> = Vec::new();
    let mut i: usize = 0;
    while i < children.len()
        invariant
            i <= children.len(),
            counts.len() == i,
            forall|j: int| 0 <= j < i ==> #[trigger] counts[j] == children[j].len(),
        decreases children.len() - i,
    {
        counts.push(children[i].len());
        i = i + 1;
    }
    counts
}

/// Turns the outputs of the branches into a page.
pub fn finish_page(
    tokenizer: &Tokenizer,
    scheduled: SchedulerOutput,
    fork_token_id: u32,
    child_token_id: u32,
    stop_token_ids: &Vec<u32>,
) -> (r: Result<HpdOutput, Error>)
    requires
        tokenizer::decodes(*tokenizer),
    ensures
        ({
            let ids = scheduler::assembled(
                scheduled.parent_tokens@,
                scheduler::rows(scheduled.children@),
                0,
                fork_token_id,
                child_token_id,
            );
            match tokenizer::decodings(*tokenizer)[(tokens::without(ids, stop_token_ids@), false)] {
                Ok(s) => r matches Ok(out) && {
                    &&& out.text@ == text::trimmed(s)
                    &&& out.token_ids@ == ids
                    &&& out.parent_token_count == scheduled.parent_tokens.len()
                    &&& out.child_token_counts.len() == scheduled.children.len()
                    &&& forall|i: int|
                        0 <= i < scheduled.children.len() ==> #[trigger] out.child_token_counts[i]
                            == scheduled.children[i].len()
                    &&& out.runtime == scheduled.runtime
                },
                Err(m) => r matches Err(e) && e@ == decode_failure(m),
            }
        }),
{
    let token_ids = scheduler::assemble(
        &scheduled.parent_tokens,
        &scheduled.children,
        fork_token_id,
        child_token_id,
    );
    let child_token_counts = child_counts(&scheduled.children);
    match decode_tokens(tokenizer, &token_ids, stop_token_ids) {
        Ok(text) => Ok(
            HpdOutput {
                text,
                token_ids,
                parent_token_count: scheduled.parent_tokens.len(),
                child_token_counts,
                runtime: scheduled.runtime,
            },
        ),
        Err(e) => Err(e),
    }
}

/// The last entry of each row of first choices.
pub fn last_of_rows(rows: &Vec<Vec<u32>>) -> (r: Result<Vec<u32>, Error>)
    ensures
        match r {
            Ok(last) => {
                &&& last.len() == rows.len()
                &&& forall|i: int|
                    0 <= i < rows.len() ==> (#[trigger] rows[i]).len() > 0 && last[i]
                        == rows[i]@.last()
            },
            Err(e) => {
                &&& exists|i: int| 0 <= i < rows.len() && (#[trigger] rows[i]).len() == 0
                &&& e@ == ErrorView::InvalidInput("HPD received an empty logits row"@)
            },
        },
{
    let mut last: Vec<u32> = Vec::new();
    let mut i: usize = 0;
    while i < rows.len()
        invariant
            i <= rows.len(),
            last.len() == i,
            forall|j: int|
                0 <= j < i ==> (#[trigger] rows[j]).len() > 0 && last[j] == rows[j]@.last(),
        decreases rows.len() - i,
    {
        let n: usize = rows[i].len();
        if n == 0 {
            return Err(Error::invalid_input("HPD received an empty logits row"));
        }
        last.push(rows[i][n - 1]);
        i = i + 1;
    }
    Ok(last)
}

/// Splits the choices of a batch, `seq_len` for each row, into their rows.
pub fn batch_rows(ids: &Vec<u32>, batch: usize, seq_len: usize) -> (r: Result<Vec<Vec<u32>>, Error>)
    requires
        seq_len > 0,
        batch * seq_len <= usize::MAX ==> ids.len() == batch * seq_len,
    ensures
        if batch * seq_len > usize::MAX {
            r matches Err(e) && e@ == ErrorView::InvalidInput(
                "HPD batched logits row count overflows usize"@,
            )
        } else {
            r matches Ok(rows) && rows.len() == batch && forall|i: int|
                0 <= i < batch ==> (#[trigger] rows[i])@ == ids@.subrange(
                    i * seq_len,
                    (i + 1) * seq_len,
                )
        },
{
    if batch.checked_mul(seq_len).is_none() {
        return Err(Error::invalid_input("HPD batched logits row count overflows usize"));
    }
    let mut rows: Vec<Vec<u32>> = Vec::new();
    let mut i: usize = 0;
    while i < batch
        invariant
            i <= batch,
            batch * seq_len <= usize::MAX,
            ids.len() == batch * seq_len,
            rows.len() == i,
            forall|k: int|
                0 <= k < i ==> (#[trigger] rows[k])@ == ids@.subrange(
                    k * seq_len,
                    (k + 1) * seq_len,
                ),
        decreases batch - i,
    {
        proof {
            assert(0 <= i * seq_len && (i + 1) * seq_len <= batch * seq_len && (i + 1) * seq_len
                == i * seq_len + seq_len) by (nonlinear_arith)
                requires
                    0 <= i < batch,
            ;
        }
        let start: usize = i * seq_len;
        let mut row: Vec<u32> = Vec::new();
        let mut k: usize = 0;
        while k < seq_len
            invariant
                k <= seq_len,
                start + seq_len <= ids.len(),
                row@ == ids@.subrange(start as int, start + k),
            decreases seq_len - k,
        {
            row.push(ids[start + k]);
            proof {
                assert(row@ =~= ids@.subrange(start as int, start + k + 1));
            }
            k = k + 1;
        }
        rows.push(row);
        i = i + 1;
    }
    Ok(rows)
}

/// A request is sound when branches may run and, with drafts, some token is drafted.
pub proof fn law_sound_request_lets_branches_run(cfg: HpdGenerationConfig)
    ensures
        cfg.problem() is None <==> cfg.max_active_branches > 0 && (cfg.use_mtp
            ==> cfg.num_speculative_tokens > 0),
{
}

/// A prompt holds its instruction behind a marker for each image token, and the same
/// text around them.
pub proof fn law_prompt_holds_markers_and_instruction(instruction: Seq<char>, n: nat)
    ensures
        exists|head: Seq<char>|
            prompt_text(instruction, n) == #[trigger] (head + "<img>"@) + text::repeated(
                "<IMG_CONTEXT>"@,
                n,
            ) + ("</img>\n"@ + instruction + "<|im_end|>\n<|im_start|>assistant\n"@),
{
    reveal_strlit("<|im_end|>\n<|im_start|>user\n<img>");
    reveal_strlit("<|im_end|>\n<|im_start|>user\n");
    reveal_strlit("<img>");
    let head = "<|im_start|>system\n"@
        + "你是书生·万象，英文名是InternVL，是由上海人工智能实验室、清华大学及多家合作单位联合开发的多模态大语言模型。"@
        + "<|im_end|>\n<|im_start|>user\n"@;
    assert("<|im_end|>\n<|im_start|>user\n"@ + "<img>"@
        =~= "<|im_end|>\n<|im_start|>user\n<img>"@);
    assert(prompt_text(instruction, n) =~= (head + "<img>"@) + text::repeated("<IMG_CONTEXT>"@, n)
        + ("</img>\n"@ + instruction + "<|im_end|>\n<|im_start|>assistant\n"@));
}

/// A page fits when its prompt and all that may be written behind it stay within the
/// context.
pub proof fn law_page_fits_into_the_context(prompt_len: usize, wanted: usize, limit: usize)
    ensures
        length_problem(prompt_len, wanted, limit) is None <==> prompt_len + wanted <= limit,
{
}

/// A vocabulary is sound when it has each marker of the protocol under its id: those of
/// the image and of turns under fixed ones, the others under those of the
/// configuration.
pub proof fn law_protocol_markers_have_their_ids(v: Map<Seq<char>, u32>, cfg: HpdParsingConfig)
    ensures
        protocol_problem(v, cfg) is None <==> {
            &&& v.contains_key("<IMG_CONTEXT>"@) && v["<IMG_CONTEXT>"@] == 151671
            &&& v.contains_key("<img>"@) && v["<img>"@] == 151669
            &&& v.contains_key("</img>"@) && v["</img>"@] == 151670
            &&& v.contains_key("<|im_start|>"@) && v["<|im_start|>"@] == 151644
            &&& v.contains_key("<|im_end|>"@) && v["<|im_end|>"@] == cfg.eos_token_id
            &&& v.contains_key("<FORK>"@) && v["<FORK>"@] == cfg.fork_token_id
            &&& v.contains_key("<CHILD>"@) && v["<CHILD>"@] == cfg.child_token_id
        },
{
}

/// What is wrong with a page is told as a fault of the request, and what is wrong with
/// the settings or the tokenizer as one of the configuration.
pub proof fn law_faults_are_told_apart(
    request: HpdGenerationConfig,
    lens: (usize, usize, usize),
    v: Map<Seq<char>, u32>,
    cfg: HpdParsingConfig,
)
    ensures
        request.problem() matches Some(e) ==> e is Config,
        length_problem(lens.0, lens.1, lens.2) matches Some(e) ==> e is InvalidInput,
        protocol_problem(v, cfg) matches Some(e) ==> e is Config,
{
}

/// A prompt is accepted as the tokenizer encodes it, if it leaves room for the page; an
/// error of the tokenizer is handed on in words.
pub proof fn law_prompt_is_accepted_as_encoded(
    ids: Seq<u32>,
    message: Seq<char>,
    wanted: usize,
    limit: usize,
)
    requires
        ids.len() <= usize::MAX,
    ensures
        match prompt_after_encoding(Ok(ids), wanted, limit) {
            Ok(accepted) => accepted == ids && ids.len() + wanted <= limit,
            Err(e) => e is InvalidInput && ids.len() + wanted > limit,
        },
        prompt_after_encoding(Err(message), wanted, limit) == Err::<Seq<u32>, ErrorView>(
            ErrorView::InvalidInput("HPD-Parsing tokenizer encode failed: "@ + message),
        ),
{
}

/// The embeddings of an image go to the only run of image tokens, which is as long as
/// there are embeddings, and there is one such run at most.
pub proof fn law_image_goes_to_its_run_of_tokens(
    ids: Seq<u32>,
    token: u32,
    image_len: usize,
    span: (usize, usize),
    other: (usize, usize),
)
    requires
        is_image_span(ids, token, image_len, span),
        is_image_span(ids, token, image_len, other),
    ensures
        span.0 + image_len == span.1,
        span.1 <= ids.len(),
        forall|i: int| span.0 <= i < span.1 ==> #[trigger] ids[i] == token,
        forall|i: int| 0 <= i < span.0 ==> #[trigger] ids[i] != token,
        forall|i: int| span.1 <= i < ids.len() ==> #[trigger] ids[i] != token,
        span == other,
{
    assert(ids[span.0 as int] == token);
    assert(ids[other.0 as int] == token);
    assert(ids[span.1 - 1] == token);
    assert(ids[other.1 - 1] == token);
}

} // verus!
