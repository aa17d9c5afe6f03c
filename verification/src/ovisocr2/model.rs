//! Requests: prompts, limits, image tokens and positions.
use super::config::OvisOcr2Config;
use super::output;
use crate::error::{self, Error, ErrorView, Message};
use crate::positions::{self, MropeIds};
use crate::text;
use crate::tokenizer;
use crate::tokens;
use tokenizers::Tokenizer;
use vstd::prelude::*;

verus! {

/// The instruction for parsing a page.
pub const DEFAULT_PROMPT: &'static str = "\nExtract all readable content from the image in natural human reading order and output the result as a single Markdown document. For charts or images, represent them using an HTML image tag: <img src=\"images/bbox_{left}_{top}_{right}_{bottom}.jpg\" />, where left, top, right, bottom are bounding box coordinates scaled to [0, 1000). Format formulas as LaTeX. Format tables as HTML: <table>...</table>. Transcribe all other text as standard Markdown. Preserve the original text without translation or paraphrasing.";

/// How many tokens a page may take.
pub const DEFAULT_MAX_NEW_TOKENS: usize = 16_384;

/// Options for parsing a page.
#[derive(Debug, Clone, Copy, PartialEq, Eq, Structural)]
pub struct OvisOcr2ParseOptions {
    pub max_new_tokens: usize,
    pub keep_image_tags: bool,
}

impl Default for OvisOcr2ParseOptions {
    fn default() -> (o: Self)
        ensures
            o == (OvisOcr2ParseOptions { max_new_tokens: 16_384, keep_image_tags: false }),
    {
        OvisOcr2ParseOptions { max_new_tokens: DEFAULT_MAX_NEW_TOKENS, keep_image_tags: false }
    }
}

/// What [`require_token_id`] reports for a vocabulary.
pub open spec fn required(
    vocabulary: Map<Seq<char>, u32>,
    token: Seq<char>,
    expected: Option<u32>,
) -> Result<u32, ErrorView> {
    if !vocabulary.contains_key(token) {
        Err(
            ErrorView::Config(
                "OvisOCR2 tokenizer is missing required token "@ + text::debug_quoted(token),
            ),
        )
    } else if expected matches Some(id) && vocabulary[token] != id {
        Err(
            ErrorView::Config(
                "OvisOCR2 token "@ + text::debug_quoted(token) + " id mismatch: tokenizer "@
                    + text::dec(vocabulary[token] as nat) + " != config "@ + text::dec(
                    expected->Some_0 as nat,
                ),
            ),
        )
    } else {
        Ok(vocabulary[token])
    }
}

/// The vocabulary of one lookup.
pub open spec fn lookup(token: Seq<char>, found: Option<u32>) -> Map<Seq<char>, u32> {
    match found {
        Some(id) => Map::<Seq<char>, u32>::empty().insert(token, id),
        None => Map::empty(),
    }
}

/// Checks the outcome of looking up a token.
pub fn check_token_id(found: Option<u32>, token: &str, expected: Option<u32>) -> (r: Result<
    u32,
    Error,
>)
    ensures
        error::tells(r, required(lookup(token@, found), token@, expected)),
{
    let id: u32 = match found {
        Some(id) => id,
        None => return Err(
            Message::new("OvisOCR2 tokenizer is missing required token ").quoted(token).config(),
        ),
    };
    if let Some(wanted) = expected {
        if id != wanted {
            return Err(
                Message::new("OvisOCR2 token ").quoted(token).text(
                    " id mismatch: tokenizer ",
                ).num(id as u64).text(" != config ").num(wanted as u64).config(),
            );
        }
    }
    Ok(id)
}

/// The id of a token that the model cannot do without, checked against the id that
/// its configuration names.
pub fn require_token_id(tokenizer: &Tokenizer, token: &str, expected: Option<u32>) -> (r: Result<
    u32,
    Error,
>)
    ensures
        error::tells(r, required(tokenizer::vocabulary(*tokenizer), token@, expected)),
{
    check_token_id(tokenizer::token_to_id(tokenizer, token), token, expected)
}

/// The id of the tokenizer's end token, or the first token that is wrong.
pub open spec fn tokenizer_end(
    vocabulary: Map<Seq<char>, u32>,
    cfg: OvisOcr2Config,
) -> Result<u32, ErrorView> {
    let image = required(vocabulary, "<|image_pad|>"@, Some(cfg.image_token_id));
    let start = required(vocabulary, "<|vision_start|>"@, Some(cfg.vision_start_token_id));
    let end = required(vocabulary, "<|vision_end|>"@, Some(cfg.vision_end_token_id));
    let turn = required(vocabulary, "<|im_start|>"@, None);
    if image is Err {
        image
    } else if start is Err {
        start
    } else if end is Err {
        end
    } else if turn is Err {
        turn
    } else {
        required(vocabulary, "<|im_end|>"@, None)
    }
}

/// Checks the special tokens of a tokenizer and gives the one that ends a turn.
pub fn check_tokenizer(tokenizer: &Tokenizer, cfg: &OvisOcr2Config) -> (r: Result<u32, Error>)
    ensures
        error::tells(r, tokenizer_end(tokenizer::vocabulary(*tokenizer), *cfg)),
{
    if let Err(e) = require_token_id(tokenizer, "<|image_pad|>", Some(cfg.image_token_id)) {
        return Err(e);
    }
    if let Err(e) = require_token_id(
        tokenizer,
        "<|vision_start|>",
        Some(cfg.vision_start_token_id),
    ) {
        return Err(e);
    }
    if let Err(e) = require_token_id(tokenizer, "<|vision_end|>", Some(cfg.vision_end_token_id)) {
        return Err(e);
    }
    if let Err(e) = require_token_id(tokenizer, "<|im_start|>", None) {
        return Err(e);
    }
    require_token_id(tokenizer, "<|im_end|>", None)
}

/// The tokens that end a page: the end tokens of the model and of the tokenizer, in
/// increasing order, each once.
pub fn build_stop_token_ids(config_eos: u32, tokenizer_eos: u32) -> (ids: Vec<u32>)
    ensures
        tokens::is_sorted_set(ids@, seq![config_eos, tokenizer_eos]),
{
    let mut both: Vec<u32> = Vec::new();
    both.push(config_eos);
    both.push(tokenizer_eos);
    proof {
        assert(both@ =~= seq![config_eos, tokenizer_eos]);
    }
    tokens::sorted_set(&both)
}

/// The first thing wrong with the length of a page.
pub open spec fn length_problem(
    prompt_len: usize,
    max_new_tokens: usize,
    context_limit: usize,
) -> Option<ErrorView> {
    if prompt_len + max_new_tokens > usize::MAX {
        Some(ErrorView::InvalidInput("OvisOCR2 requested sequence length overflows usize"@))
    } else if prompt_len + max_new_tokens > context_limit {
        Some(
            ErrorView::InvalidInput(
                "OvisOCR2 prompt ("@ + text::dec(prompt_len as nat) + ") plus max_new_tokens ("@
                    + text::dec(max_new_tokens as nat) + ") exceeds context limit "@ + text::dec(
                    context_limit as nat,
                ),
            ),
        )
    } else {
        None
    }
}

/// Checks that a prompt and the page that follows it fit into the context.
pub fn validate_generation_length(
    prompt_len: usize,
    max_new_tokens: usize,
    context_limit: usize,
) -> (r: Result<(), Error>)
    ensures
        error::verdict(length_problem(prompt_len, max_new_tokens, context_limit), r),
{
    let requested: usize = match prompt_len.checked_add(max_new_tokens) {
        Some(requested) => requested,
        None => return Err(
            Error::invalid_input("OvisOCR2 requested sequence length overflows usize"),
        ),
    };
    if requested > context_limit {
        return Err(
            Message::new("OvisOCR2 prompt (").num(prompt_len as u64).text(
                ") plus max_new_tokens (",
            ).num(max_new_tokens as u64).text(") exceeds context limit ").num(
                context_limit as u64,
            ).invalid_input(),
        );
    }
    Ok(())
}

/// What becomes of a request before its page is looked at.
#[derive(Debug, Clone, Copy, PartialEq, Eq, Structural)]
pub enum Admission {
    /// No token is wanted: the page is empty.
    Empty,
    /// The page has to be read.
    Generate,
}

/// Checks how many tokens are wanted.
pub fn check_request(max_new_tokens: usize, context_limit: usize) -> (r: Result<Admission, Error>)
    ensures
        error::tells(
            r,
            if max_new_tokens == 0 {
                Ok(Admission::Empty)
            } else if max_new_tokens > context_limit {
                Err(
                    ErrorView::InvalidInput(
                        "OvisOCR2 max_new_tokens "@ + text::dec(max_new_tokens as nat)
                            + " exceeds context limit "@ + text::dec(context_limit as nat),
                    ),
                )
            } else {
                Ok(Admission::Generate)
            },
        ),
{
    if max_new_tokens == 0 {
        return Ok(Admission::Empty);
    }
    if max_new_tokens > context_limit {
        return Err(
            Message::new("OvisOCR2 max_new_tokens ").num(max_new_tokens as u64).text(
                " exceeds context limit ",
            ).num(context_limit as u64).invalid_input(),
        );
    }
    Ok(Admission::Generate)
}

/// The prompt for a page of `n` image tokens.
pub open spec fn prompt_text(n: nat) -> Seq<char> {
    "<|im_start|>user\n<|vision_start|>"@ + text::repeated("<|image_pad|>"@, n)
        + "<|vision_end|>"@ + DEFAULT_PROMPT@
        + "<|im_end|>\n<|im_start|>assistant\n<think>\n\n</think>\n\n"@
}

/// Builds the prompt for a page.
pub fn build_prompt(num_image_tokens: usize) -> (prompt: String)
    ensures
        prompt@ == prompt_text(num_image_tokens as nat),
{
    let mut prompt = "<|im_start|>user\n<|vision_start|>".to_owned();
    text::push_repeated(&mut prompt, "<|image_pad|>", num_image_tokens);
    prompt.append("<|vision_end|>");
    prompt.append(DEFAULT_PROMPT);
    prompt.append("<|im_end|>\n<|im_start|>assistant\n<think>\n\n</think>\n\n");
    prompt
}

/// The error for a prompt that the tokenizer rejects.
pub open spec fn encode_failure(message: Seq<char>) -> ErrorView {
    ErrorView::InvalidInput("OvisOCR2: tokenizer encode failed: "@ + message)
}

/// What becomes of an attempt to encode a prompt: it may not be empty, and it and
/// the page have to fit into the context.
pub open spec fn after_encoding(
    outcome: Result<Seq<u32>, Seq<char>>,
    max_new_tokens: usize,
    context_limit: usize,
) -> Result<Seq<u32>, ErrorView> {
    match outcome {
        Ok(ids) => if ids.len() == 0 {
            Err(ErrorView::InvalidInput("OvisOCR2: prompt tokenization produced no tokens"@))
        } else {
            match length_problem(ids.len() as usize, max_new_tokens, context_limit) {
                Some(p) => Err(p),
                None => Ok(ids),
            }
        },
        Err(m) => Err(encode_failure(m)),
    }
}

/// Reports the outcome of encoding a prompt.
pub fn finish_encode(
    encoded: Result<Vec<u32>, String>,
    max_new_tokens: usize,
    context_limit: usize,
) -> (r: Result<Vec<u32>, Error>)
    ensures
        tokenizer::gives(
            r,
            after_encoding(tokenizer::outcome(encoded), max_new_tokens, context_limit),
        ),
{
    match encoded {
        Ok(ids) => {
            if ids.len() == 0 {
                return Err(
                    Error::invalid_input("OvisOCR2: prompt tokenization produced no tokens"),
                );
            }
            if let Err(e) = validate_generation_length(ids.len(), max_new_tokens, context_limit) {
                return Err(e);
            }
            Ok(ids)
        },
        Err(m) => Err(
            Message::new("OvisOCR2: tokenizer encode failed: ").text(m.as_str()).invalid_input(),
        ),
    }
}

/// Encodes the prompt for a page. Which of the possible outcomes comes is up
/// to the tokenizer.
pub fn encode_prompt(
    tokenizer: &Tokenizer,
    num_image_tokens: usize,
    max_new_tokens: usize,
    context_limit: usize,
) -> (r: Result<Vec<u32>, Error>)
    requires
        tokenizer::encodes(*tokenizer),
    ensures
        exists|outcome: Result<Seq<u32>, Seq<char>>| #[trigger]
            tokenizer::encodings(*tokenizer)[prompt_text(num_image_tokens as nat)].contains(outcome) && tokenizer::gives(
                r,
                after_encoding(outcome, max_new_tokens, context_limit),
            ),
{
    let prompt = build_prompt(num_image_tokens);
    let encoded = tokenizer::encode(tokenizer, prompt.as_str());
    finish_encode(encoded, max_new_tokens, context_limit)
}

/// The first thing wrong with the image tokens of a prompt.
pub open spec fn span_problem(ids: Seq<u32>, token: u32, embeds: usize) -> Option<ErrorView> {
    let places = tokens::positions(ids, token);
    if places.len() != embeds || places.len() == 0 {
        Some(
            ErrorView::InvalidInput(
                "OvisOCR2: image placeholder count ("@ + text::dec(places.len())
                    + ") != image embedding count ("@ + text::dec(embeds as nat) + ")"@,
            ),
        )
    } else if !tokens::contiguous(places) {
        Some(
            ErrorView::InvalidInput("OvisOCR2: image placeholder tokens must be contiguous"@),
        )
    } else {
        None
    }
}

/// Finds the places of the image embeddings in a prompt.
pub fn image_span(input_ids: &Vec<u32>, image_token_id: u32, embeds: usize) -> (r: Result<
    (usize, usize),
    Error,
>)
    ensures
        match r {
            Ok((start, end)) => {
                &&& span_problem(input_ids@, image_token_id, embeds) is None
                &&& start < end <= input_ids.len()
                &&& end - start == embeds
                &&& forall|i: int|
                    0 <= i < input_ids.len() ==> (#[trigger] input_ids[i] == image_token_id
                        <==> start <= i < end)
            },
            Err(e) => span_problem(input_ids@, image_token_id, embeds) == Some(e@),
        },
{
    let places = tokens::find_positions(input_ids, image_token_id);
    let ghost ps = tokens::positions(input_ids@, image_token_id);
    let n: usize = places.len();
    if n != embeds || n == 0 {
        return Err(
            Message::new("OvisOCR2: image placeholder count (").num(n as u64).text(
                ") != image embedding count (",
            ).num(embeds as u64).text(")").invalid_input(),
        );
    }
    if !tokens::are_contiguous(&places) {
        return Err(
            Error::invalid_input("OvisOCR2: image placeholder tokens must be contiguous"),
        );
    }
    let start: usize = places[0];
    proof {
        assert(ps[0] == places[0]);
        tokens::lemma_contiguous_run(input_ids@, image_token_id);
    }
    Ok((start, start + n))
}

/// The positions of a prompt and the distance between a token's place and its
/// position behind the prompt.
#[derive(Debug)]
pub struct PromptPositions {
    pub ids: MropeIds,
    pub rope_delta: i64,
}

/// The larger of two numbers.
pub open spec fn max2(x: int, y: int) -> int {
    if x >= y {
        x
    } else {
        y
    }
}

/// The positions of an image of `t` frames of `h` rows and `w` columns at `a..b`
/// and of the text around it.
pub open spec fn are_positions(
    p: PromptPositions,
    len: int,
    a: int,
    b: int,
    t: int,
    h: int,
    w: int,
) -> bool {
    let advance = max2(h, w);
    &&& p.ids.covers(len as nat)
    &&& forall|i: int|
        0 <= i < len ==> #[trigger] p.ids.at(i) == positions::position_at(i, a, b, h, w, advance)
    &&& p.rope_delta == positions::max_position(len, a, b, t, h, w, advance) + 1 - len
}

/// What [`build_position_ids`] reports for a prompt whose first run of image tokens
/// is `a..b`; a grid without an error has positions.
pub open spec fn position_problem(
    ids: Seq<u32>,
    token: u32,
    a: int,
    b: int,
    grid: (usize, usize, usize),
    merge: usize,
) -> Option<ErrorView> {
    let expected = grid.0 * (grid.1 as int / merge as int) * (grid.2 as int / merge as int);
    if !tokens::absent_from(ids, token, b) {
        Some(ErrorView::InvalidInput("OvisOCR2: non-contiguous image token span"@))
    } else if merge == 0 || grid.1 % merge != 0 || grid.2 % merge != 0 {
        Some(
            ErrorView::Config(
                "OvisOCR2: invalid image grid "@ + text::dec_triple(grid) + " for merge size "@
                    + text::dec(merge as nat),
            ),
        )
    } else if b - a != expected {
        Some(
            ErrorView::InvalidInput(
                "OvisOCR2: image token count "@ + text::dec((b - a) as nat)
                    + " != merged grid token count "@ + text::dec(expected as nat),
            ),
        )
    } else {
        None
    }
}

/// The positions of a prompt with one run of image tokens, which has to be as long
/// as the merged grid is large.
#[verifier::rlimit(30)]
pub fn build_position_ids(
    input_ids: &Vec<u32>,
    grid_thw: (usize, usize, usize),
    spatial_merge_size: usize,
    image_token_id: u32,
) -> (r: Result<PromptPositions, Error>)
    requires
        grid_thw.0 * grid_thw.1 <= usize::MAX,
        grid_thw.0 * grid_thw.1 * grid_thw.2 <= usize::MAX,
        input_ids.len() + grid_thw.0 < i64::MAX,
        input_ids.len() + grid_thw.1 < i64::MAX,
        input_ids.len() + grid_thw.2 < i64::MAX,
    ensures
        tokens::absent_from(input_ids@, image_token_id, 0) ==> (r matches Err(e) && e@
            == ErrorView::InvalidInput("OvisOCR2: image token missing from prompt"@)),
        forall|a: int, b: int| #[trigger]
            tokens::is_first_run(input_ids@, image_token_id, a, b) ==> match position_problem(
                input_ids@,
                image_token_id,
                a,
                b,
                grid_thw,
                spatial_merge_size,
            ) {
                Some(p) => r matches Err(e) && e@ == p,
                None => r matches Ok(p) && are_positions(
                    p,
                    input_ids.len() as int,
                    a,
                    b,
                    grid_thw.0 as int,
                    grid_thw.1 as int / spatial_merge_size as int,
                    grid_thw.2 as int / spatial_merge_size as int,
                ),
            },
{
    let len: usize = input_ids.len();
    let (a, b): (usize, usize) = match tokens::first_run(input_ids, image_token_id) {
        Some(run) => run,
        None => {
            proof {
                assert forall|a: int, b: int| !#[trigger] tokens::is_first_run(
                    input_ids@,
                    image_token_id,
                    a,
                    b,
                ) by {
                    if tokens::is_first_run(input_ids@, image_token_id, a, b) {
                        assert(input_ids@[a] != image_token_id);
                    }
                }
            }
            return Err(Error::invalid_input("OvisOCR2: image token missing from prompt"));
        },
    };
    proof {
        assert(input_ids@[a as int] == image_token_id);
        assert forall|c: int, d: int| #[trigger]
            tokens::is_first_run(input_ids@, image_token_id, c, d) implies c == a && d == b by {
            tokens::lemma_first_run_unique(input_ids@, image_token_id, a as int, b as int, c, d);
        }
    }
    if let Some(again) = tokens::position_from(input_ids, image_token_id, b) {
        proof {
            assert(input_ids@[again as int] == image_token_id);
        }
        return Err(Error::invalid_input("OvisOCR2: non-contiguous image token span"));
    }
    if spatial_merge_size == 0 || grid_thw.1 % spatial_merge_size != 0 || grid_thw.2
        % spatial_merge_size != 0 {
        return Err(
            Message::new("OvisOCR2: invalid image grid ").triple(grid_thw).text(
                " for merge size ",
            ).num(spatial_merge_size as u64).config(),
        );
    }
    let t: usize = grid_thw.0;
    let h: usize = grid_thw.1 / spatial_merge_size;
    let w: usize = grid_thw.2 / spatial_merge_size;
    proof {
        assert(h <= grid_thw.1 && w <= grid_thw.2) by (nonlinear_arith)
            requires
                h == grid_thw.1 as int / spatial_merge_size as int,
                w == grid_thw.2 as int / spatial_merge_size as int,
                spatial_merge_size > 0,
        ;
        assert(t * h <= grid_thw.0 * grid_thw.1) by (nonlinear_arith)
            requires
                t == grid_thw.0,
                h <= grid_thw.1,
                t >= 0,
        ;
        assert(t * h * w <= grid_thw.0 * grid_thw.1 * grid_thw.2) by (nonlinear_arith)
            requires
                0 <= t * h <= grid_thw.0 * grid_thw.1,
                0 <= w <= grid_thw.2,
        ;
    }
    let expected: usize = t * h * w;
    if b - a != expected {
        return Err(
            Message::new("OvisOCR2: image token count ").num((b - a) as u64).text(
                " != merged grid token count ",
            ).num(expected as u64).invalid_input(),
        );
    }
    let advance: usize = if h >= w {
        h
    } else {
        w
    };
    proof {
        assert(h > 0 && w > 0 && h * w <= t * h * w && t > 0) by (nonlinear_arith)
            requires
                t * h * w > 0,
                t >= 0,
                h >= 0,
                w >= 0,
        ;
    }
    let ids = positions::prompt_positions(len, a, b, h, w, advance);
    let mut side: usize = advance;
    if t > side {
        side = t;
    }
    let image: i64 = a as i64 + side as i64 - 1;
    let mut last: i64 = image;
    if b < len {
        let behind: i64 = a as i64 + advance as i64 + (len - b) as i64 - 1;
        if behind > image {
            last = behind;
        }
    }
    let rope_delta: i64 = last + 1 - len as i64;
    Ok(PromptPositions { ids, rope_delta })
}

/// Where the embeddings of an image go, and the positions of all tokens.
#[derive(Debug)]
pub struct ImagePlace {
    pub start: usize,
    pub end: usize,
    pub positions: PromptPositions,
}

/// The first thing wrong with an image and the prompt that it is put into.
pub open spec fn placing_problem(
    ids: Seq<u32>,
    token: u32,
    grid: (usize, usize, usize),
    merge: usize,
    embeds: usize,
) -> Option<ErrorView> {
    match span_problem(ids, token, embeds) {
        Some(p) => Some(p),
        None => {
            let start = tokens::positions(ids, token)[0];
            position_problem(ids, token, start, start + embeds, grid, merge)
        },
    }
}

/// Places the embeddings of an image in its prompt.
pub fn place_image(
    input_ids: &Vec<u32>,
    grid_thw: (usize, usize, usize),
    spatial_merge_size: usize,
    image_token_id: u32,
    embeds: usize,
) -> (r: Result<ImagePlace, Error>)
    requires
        grid_thw.0 * grid_thw.1 <= usize::MAX,
        grid_thw.0 * grid_thw.1 * grid_thw.2 <= usize::MAX,
        input_ids.len() + grid_thw.0 < i64::MAX,
        input_ids.len() + grid_thw.1 < i64::MAX,
        input_ids.len() + grid_thw.2 < i64::MAX,
    ensures
        match placing_problem(input_ids@, image_token_id, grid_thw, spatial_merge_size, embeds) {
            Some(p) => r matches Err(e) && e@ == p,
            None => r matches Ok(place) && {
                &&& place.end - place.start == embeds
                &&& forall|i: int|
                    0 <= i < input_ids.len() ==> (#[trigger] input_ids[i] == image_token_id
                        <==> place.start <= i < place.end)
                &&& are_positions(
                    place.positions,
                    input_ids.len() as int,
                    place.start as int,
                    place.end as int,
                    grid_thw.0 as int,
                    grid_thw.1 as int / spatial_merge_size as int,
                    grid_thw.2 as int / spatial_merge_size as int,
                )
            },
        },
{
    let (start, end): (usize, usize) = match image_span(input_ids, image_token_id, embeds) {
        Ok(span) => span,
        Err(e) => return Err(e),
    };
    proof {
        assert(input_ids@[start as int] == image_token_id);
        assert(tokens::is_first_run(input_ids@, image_token_id, start as int, end as int));
        tokens::lemma_contiguous_run(input_ids@, image_token_id);
        let first = tokens::positions(input_ids@, image_token_id)[0];
        assert(input_ids@[first] == image_token_id);
    }
    match build_position_ids(input_ids, grid_thw, spatial_merge_size, image_token_id) {
        Ok(positions) => Ok(ImagePlace { start, end, positions }),
        Err(e) => Err(e),
    }
}

/// The position of the token that is fed after `step` generated ones.
pub fn decode_position(prompt_len: usize, step: usize, rope_delta: i64) -> (p: i64)
    requires
        prompt_len + step <= i64::MAX,
        i64::MIN <= prompt_len + step + rope_delta <= i64::MAX,
    ensures
        p == prompt_len + step + rope_delta,
{
    prompt_len as i64 + step as i64 + rope_delta
}

/// The first generated token goes behind every token of the prompt, on each axis.
pub proof fn law_decoding_continues_behind_the_prompt(
    p: PromptPositions,
    len: int,
    a: int,
    b: int,
    t: int,
    h: int,
    w: int,
    i: int,
)
    requires
        are_positions(p, len, a, b, t, h, w),
        0 <= a < b <= len,
        0 < t,
        0 < h,
        0 < w,
        b - a == t * (h * w),
        0 <= i < len,
    ensures
        ({
            let first = len + p.rope_delta;
            let at = p.ids.at(i);
            &&& at.0 < first
            &&& at.1 < first
            &&& at.2 < first
        }),
{
    positions::law_max_position_bounds_all(i, len, a, b, t, h, w, max2(h, w));
}

/// Some token of the prompt stands right before the first generated one.
pub proof fn law_decoding_leaves_no_gap(
    p: PromptPositions,
    len: int,
    a: int,
    b: int,
    t: int,
    h: int,
    w: int,
)
    requires
        are_positions(p, len, a, b, t, h, w),
        0 <= a < b <= len,
        0 < t,
        0 < h,
        0 < w,
        b - a == t * (h * w),
    ensures
        exists|i: int|
            0 <= i < len && ({
                let at = #[trigger] p.ids.at(i);
                let last = len + p.rope_delta - 1;
                at.0 == last || at.1 == last || at.2 == last
            }),
{
    positions::law_max_position_is_reached(len, a, b, t, h, w, max2(h, w));
    let i = choose|i: int|
        0 <= i < len && ({
            let q = #[trigger] positions::position_at(i, a, b, h, w, max2(h, w));
            let m = positions::max_position(len, a, b, t, h, w, max2(h, w));
            q.0 == m || q.1 == m || q.2 == m
        });
    assert(p.ids.at(i) == positions::position_at(i, a, b, h, w, max2(h, w)));
}

/// The error for ids that the tokenizer cannot decode.
pub open spec fn decode_failure(message: Seq<char>) -> ErrorView {
    ErrorView::InvalidInput("OvisOCR2: tokenizer decode failed: "@ + message)
}

/// Reports the outcome of decoding a page; its text is trimmed.
pub fn finish_decode(decoded: Result<String, String>) -> (r: Result<String, Error>)
    ensures
        match (decoded, r) {
            (Ok(s), Ok(out)) => out@ == text::trimmed(s@),
            (Err(m), Err(e)) => e@ == decode_failure(m@),
            _ => false,
        },
{
    match decoded {
        Ok(s) => Ok(text::trim(s.as_str())),
        Err(m) => Err(
            Message::new("OvisOCR2: tokenizer decode failed: ").text(m.as_str()).invalid_input(),
        ),
    }
}

/// The trimmed text of a page; nothing else is done to it.
pub fn decode_tokens_raw(tokenizer: &Tokenizer, ids: &Vec<u32>) -> (r: Result<String, Error>)
    requires
        tokenizer::decodes(*tokenizer),
    ensures
        match tokenizer::decodings(*tokenizer)[(ids@, true)] {
            Ok(s) => r matches Ok(out) && out@ == text::trimmed(s),
            Err(m) => r matches Err(e) && e@ == decode_failure(m),
        },
{
    finish_decode(tokenizer::decode(tokenizer, ids, true))
}

/// The trimmed text of a page, without the repetitions at its end.
pub fn decode_tokens(tokenizer: &Tokenizer, ids: &Vec<u32>) -> (r: Result<String, Error>)
    requires
        tokenizer::decodes(*tokenizer),
    ensures
        match tokenizer::decodings(*tokenizer)[(ids@, true)] {
            Ok(s) => r matches Ok(out) && out@ == output::without_repeats(text::trimmed(s)),
            Err(m) => r matches Err(e) && e@ == decode_failure(m),
        },
{
    match decode_tokens_raw(tokenizer, ids) {
        Ok(s) => Ok(output::clean_truncated_repeats(s.as_str())),
        Err(e) => Err(e),
    }
}

/// The finished text of a page.
pub fn decode_page(tokenizer: &Tokenizer, ids: &Vec<u32>, keep_image_tags: bool) -> (r: Result<
    String,
    Error,
>)
    requires
        tokenizer::decodes(*tokenizer),
    ensures
        match tokenizer::decodings(*tokenizer)[(ids@, true)] {
            Ok(s) => r matches Ok(out) && out@ == output::finished(
                text::trimmed(s),
                keep_image_tags,
            ),
            Err(m) => r matches Err(e) && e@ == decode_failure(m),
        },
{
    match decode_tokens_raw(tokenizer, ids) {
        Ok(s) => Ok(output::postprocess_text(s.as_str(), keep_image_tags)),
        Err(e) => Err(e),
    }
}

/// Checks that a request has one task for each image.
pub fn validate_counts(images: usize, tasks: usize) -> (r: Result<(), Error>)
    ensures
        error::verdict(
            if images != tasks {
                Some(
                    ErrorView::InvalidInput(
                        "OvisOCR2 images count ("@ + text::dec(images as nat)
                            + ") != tasks count ("@ + text::dec(tasks as nat) + ")"@,
                    ),
                )
            } else {
                None
            },
            r,
        ),
{
    if images != tasks {
        return Err(
            Message::new("OvisOCR2 images count (").num(images as u64).text(
                ") != tasks count (",
            ).num(tasks as u64).text(")").invalid_input(),
        );
    }
    Ok(())
}

/// The image token in frame `t`, row `y` and column `x` of the image has these as its
/// coordinates, counted from where the image begins.
pub proof fn law_image_tokens_have_their_coordinates(
    p: PromptPositions,
    len: int,
    a: int,
    frames: int,
    rows: int,
    cols: int,
    t: int,
    y: int,
    x: int,
)
    requires
        0 <= a,
        a + frames * rows * cols <= len,
        are_positions(p, len, a, a + frames * rows * cols, frames, rows, cols),
        0 <= t < frames,
        0 <= y < rows,
        0 <= x < cols,
    ensures
        ({
            let i = a + (t * rows + y) * cols + x;
            &&& a <= i < a + frames * rows * cols
            &&& p.ids.temporal@[i] == a + t
            &&& p.ids.height@[i] == a + y
            &&& p.ids.width@[i] == a + x
        }),
{
    let i = a + (t * rows + y) * cols + x;
    positions::lemma_grid_place(t, y, x, frames, rows, cols);
    assert(p.ids.at(i) == positions::position_at(
        i,
        a,
        a + frames * rows * cols,
        rows,
        cols,
        max2(rows, cols),
    ));
}

/// Text has one position on all three axes. Before the image it is the token's place;
/// the first token behind the image goes past its rows and columns, by as much as the
/// longer side needs, and the others follow.
pub proof fn law_text_goes_on_behind_the_image(
    p: PromptPositions,
    len: int,
    a: int,
    b: int,
    frames: int,
    rows: int,
    cols: int,
    side: int,
    i: int,
)
    requires
        0 <= a <= b <= len,
        are_positions(p, len, a, b, frames, rows, cols),
        side >= rows,
        side >= cols,
        side == rows || side == cols,
        0 <= i < len,
        i < a || b <= i,
    ensures
        p.ids.temporal@.len() == len,
        p.ids.height@.len() == len,
        p.ids.width@.len() == len,
        p.ids.height@[i] == p.ids.temporal@[i],
        p.ids.width@[i] == p.ids.temporal@[i],
        i < a ==> p.ids.temporal@[i] == i,
        b <= i ==> p.ids.temporal@[i] == a + side + (i - b),
{
    assert(p.ids.at(i) == positions::position_at(i, a, b, rows, cols, max2(rows, cols)));
}

/// An image goes into a prompt whose image tokens are as many as its embeddings, as
/// many as the merged grid has places, and stand side by side, if merging divides both
/// sides of the grid. Every other prompt is refused.
pub proof fn law_image_needs_its_run_of_tokens(
    ids: Seq<u32>,
    token: u32,
    grid: (usize, usize, usize),
    merge: usize,
    embeds: usize,
    start: int,
)
    requires
        merge > 0,
    ensures
        0 <= start && start + embeds <= ids.len() && embeds > 0 && grid.1 % merge == 0 && grid.2
            % merge == 0 && embeds == grid.0 * (grid.1 / merge) * (grid.2 / merge)
            && tokens::stands_exactly(ids, token, start, start + embeds) ==> placing_problem(
            ids,
            token,
            grid,
            merge,
            embeds,
        ) is None,
        placing_problem(ids, token, grid, merge, embeds) is None ==> embeds > 0 && grid.1 % merge
            == 0 && grid.2 % merge == 0 && embeds == grid.0 * (grid.1 / merge) * (grid.2 / merge)
            && exists|first: int|
            0 <= first && first + embeds <= ids.len() && #[trigger] tokens::stands_exactly(
                ids,
                token,
                first,
                first + embeds,
            ),
        placing_problem(ids, token, grid, 0, embeds) is Some,
{
    let places = tokens::positions(ids, token);
    if 0 <= start && start + embeds <= ids.len() && embeds > 0 && tokens::stands_exactly(
        ids,
        token,
        start,
        start + embeds,
    ) {
        tokens::lemma_places_of_a_run(ids, token, start, start + embeds);
        assert(places[0] == start);
        assert(tokens::contiguous(places));
        assert(tokens::absent_from(ids, token, start + embeds));
    }
    if placing_problem(ids, token, grid, merge, embeds) is None {
        tokens::lemma_contiguous_run(ids, token);
        assert(tokens::stands_exactly(ids, token, places[0], places[0] + embeds));
    }
}

/// A page fits when its prompt and all that may be written behind it stay within the
/// context.
pub proof fn law_page_fits_into_the_context(prompt_len: usize, wanted: usize, limit: usize)
    ensures
        length_problem(prompt_len, wanted, limit) is None <==> prompt_len + wanted <= limit,
{
}

/// The prompt of a page has an image marker for each image token, between the markers
/// of the image, and the same text around them whatever the image.
pub proof fn law_prompt_has_a_marker_for_each_token(n: nat)
    ensures
        prompt_text(n) == "<|im_start|>user\n<|vision_start|>"@ + text::repeated(
            "<|image_pad|>"@,
            n,
        ) + ("<|vision_end|>"@ + DEFAULT_PROMPT@
            + "<|im_end|>\n<|im_start|>assistant\n<think>\n\n</think>\n\n"@),
        prompt_text(n + 1).len() == prompt_text(n).len() + "<|image_pad|>"@.len(),
{
    assert(prompt_text(n) =~= "<|im_start|>user\n<|vision_start|>"@ + text::repeated(
        "<|image_pad|>"@,
        n,
    ) + ("<|vision_end|>"@ + DEFAULT_PROMPT@
        + "<|im_end|>\n<|im_start|>assistant\n<think>\n\n</think>\n\n"@));
}

/// A required token is found when the vocabulary has it under the id that is expected,
/// or under any id where none is.
pub proof fn law_required_token_has_its_id(
    vocabulary: Map<Seq<char>, u32>,
    token: Seq<char>,
    expected: Option<u32>,
    id: u32,
)
    ensures
        required(vocabulary, token, expected) == Ok::<u32, ErrorView>(id) <==> {
            &&& vocabulary.contains_key(token)
            &&& vocabulary[token] == id
            &&& expected is None || expected == Some(id)
        },
{
}

/// The end token of a tokenizer is the id that it has for it; it has to know all tokens
/// of a prompt, and those of an image under the ids of the configuration.
pub proof fn law_tokenizer_knows_its_markers(v: Map<Seq<char>, u32>, cfg: OvisOcr2Config)
    ensures
        match tokenizer_end(v, cfg) {
            Ok(end) => {
                &&& v.contains_key("<|image_pad|>"@) && v["<|image_pad|>"@] == cfg.image_token_id
                &&& v.contains_key("<|vision_start|>"@) && v["<|vision_start|>"@]
                    == cfg.vision_start_token_id
                &&& v.contains_key("<|vision_end|>"@) && v["<|vision_end|>"@]
                    == cfg.vision_end_token_id
                &&& v.contains_key("<|im_start|>"@)
                &&& v.contains_key("<|im_end|>"@) && v["<|im_end|>"@] == end
            },
            Err(_) => {
                ||| !v.contains_key("<|image_pad|>"@) || v["<|image_pad|>"@] != cfg.image_token_id
                ||| !v.contains_key("<|vision_start|>"@) || v["<|vision_start|>"@]
                    != cfg.vision_start_token_id
                ||| !v.contains_key("<|vision_end|>"@) || v["<|vision_end|>"@]
                    != cfg.vision_end_token_id
                ||| !v.contains_key("<|im_start|>"@)
                ||| !v.contains_key("<|im_end|>"@)
            },
        },
{
}

/// What is wrong with a page is told as a fault of the request; a missing token and
/// blocks that do not fill a grid are faults of the configuration.
pub proof fn law_faults_are_told_apart(
    v: Map<Seq<char>, u32>,
    name: Seq<char>,
    expected: Option<u32>,
    lens: (usize, usize, usize),
    ids: Seq<u32>,
    token: u32,
    grid: (usize, usize, usize),
    merge: usize,
    embeds: usize,
)
    ensures
        required(v, name, expected) matches Err(e) ==> e is Config,
        length_problem(lens.0, lens.1, lens.2) matches Some(e) ==> e is InvalidInput,
        merge > 0 && grid.1 % merge == 0 && grid.2 % merge == 0 ==> (placing_problem(
            ids,
            token,
            grid,
            merge,
            embeds,
        ) matches Some(e) ==> e is InvalidInput),
        span_problem(ids, token, embeds) is None && (merge == 0 || grid.1 % merge != 0 || grid.2
            % merge != 0) ==> (placing_problem(ids, token, grid, merge, embeds) matches Some(e)
            && e is Config),
{
    if span_problem(ids, token, embeds) is None {
        tokens::lemma_contiguous_run(ids, token);
    }
}

/// A prompt is accepted as the tokenizer encodes it, if that is not empty and leaves
/// room for the page; an error of the tokenizer is handed on in words.
pub proof fn law_prompt_is_accepted_as_encoded(
    ids: Seq<u32>,
    message: Seq<char>,
    wanted: usize,
    limit: usize,
)
    requires
        ids.len() <= usize::MAX,
    ensures
        match after_encoding(Ok(ids), wanted, limit) {
            Ok(accepted) => accepted == ids && ids.len() > 0 && ids.len() + wanted <= limit,
            Err(e) => e is InvalidInput && (ids.len() == 0 || ids.len() + wanted > limit),
        },
        after_encoding(Err(message), wanted, limit) == Err::<Seq<u32>, ErrorView>(
            ErrorView::InvalidInput("OvisOCR2: tokenizer encode failed: "@ + message),
        ),
{
}

/// Looking a token up gives its id and nothing else; one that is not found is missing.
pub proof fn law_lookup_holds_what_was_found(token: Seq<char>, other: Seq<char>, id: u32)
    ensures
        lookup(token, Some(id)).contains_key(token),
        lookup(token, Some(id))[token] == id,
        lookup(token, Some(id)).contains_key(other) ==> other == token,
        !lookup(token, None).contains_key(other),
{
}

} // verus!
