//! Requests: prompts, image tokens and positions.
use crate::error::{self, Error, ErrorView, Message};
use crate::positions::{self, MropeIds};
use crate::recognition::RecognitionTask;
use crate::text;
use crate::tokenizer;
use crate::tokens;
use tokenizers::Tokenizer;
use vstd::prelude::*;

verus! {

/// The end-of-text setting of a checkpoint.
#[derive(Debug)]
pub enum EosTokenId {
    Single(u32),
    Multiple(Vec<u32>),
}

/// The tokens that end a page.
pub fn eos_token_ids(eos: &EosTokenId) -> (ids: Vec<u32>)
    ensures
        ids@ == match *eos {
            EosTokenId::Single(id) => seq![id],
            EosTokenId::Multiple(list) => list@,
        },
{
    let mut ids: Vec<u32> = Vec::new();
    match eos {
        EosTokenId::Single(id) => {
            ids.push(*id);
            proof {
                assert(ids@ =~= seq![*id]);
            }
        },
        EosTokenId::Multiple(list) => {
            tokens::push_all(&mut ids, list);
            proof {
                assert(ids@ =~= list@);
            }
        },
    }
    ids
}

/// The first thing wrong with the id of the image token.
pub open spec fn image_token_problem(vocabulary: Map<Seq<char>, u32>, image_token_id: u32) -> Option<
    ErrorView,
> {
    if vocabulary.contains_key("<|image|>"@) && vocabulary["<|image|>"@] != image_token_id {
        Some(
            ErrorView::Config(
                "GLM-OCR image_token_id mismatch: tokenizer "@ + text::dec(
                    vocabulary["<|image|>"@] as nat,
                ) + " != config "@ + text::dec(image_token_id as nat),
            ),
        )
    } else {
        None
    }
}

/// Checks the image token of the tokenizer, if it has one, against the
/// configuration.
pub fn validate_image_token(tokenizer: &Tokenizer, image_token_id: u32) -> (r: Result<(), Error>)
    ensures
        error::verdict(
            image_token_problem(tokenizer::vocabulary(*tokenizer), image_token_id),
            r,
        ),
{
    check_image_token(tokenizer::token_to_id(tokenizer, "<|image|>"), image_token_id)
}

/// Checks the outcome of looking up the image token.
pub fn check_image_token(found: Option<u32>, image_token_id: u32) -> (r: Result<(), Error>)
    ensures
        error::verdict(
            image_token_problem(
                if found is Some {
                    Map::<Seq<char>, u32>::empty().insert("<|image|>"@, found->0)
                } else {
                    Map::empty()
                },
                image_token_id,
            ),
            r,
        ),
{
    if let Some(id) = found {
        if id != image_token_id {
            return Err(
                Message::new("GLM-OCR image_token_id mismatch: tokenizer ").num(id as u64).text(
                    " != config ",
                ).num(image_token_id as u64).config(),
            );
        }
    }
    Ok(())
}

/// The prompt around an instruction.
pub open spec fn prompt_text(instruction: Seq<char>) -> Seq<char> {
    "[gMASK]<sop><|user|>\n<|begin_of_image|><|image|><|end_of_image|>"@ + instruction
        + "<|assistant|>\n"@
}

/// Builds the prompt.
pub fn build_prompt(instruction: &str) -> (prompt: String)
    ensures
        prompt@ == prompt_text(instruction@),
{
    let mut prompt = "[gMASK]<sop><|user|>\n<|begin_of_image|><|image|><|end_of_image|>".to_owned();
    prompt.append(instruction);
    prompt.append("<|assistant|>\n");
    prompt
}

/// The prompt with its first image marker written `n` times. Placeholders stand for
/// the copies while they are written, so one that is in the prompt already becomes
/// an image marker too.
pub open spec fn expanded_text(prompt: Seq<char>, n: nat) -> Option<Seq<char>> {
    match text::find(prompt, "<|image|>"@) {
        Some(i) => Some(
            text::replace_all(
                prompt.take(i as int) + text::repeated("<|placeholder|>"@, n) + prompt.skip(
                    (i + "<|image|>"@.len()) as int,
                ),
                "<|placeholder|>"@,
                "<|image|>"@,
            ),
        ),
        None => None,
    }
}

/// Writes the image marker of a prompt once for each image token.
pub fn expand_image_tokens(prompt: &str, num_image_tokens: usize) -> (r: Result<String, Error>)
    ensures
        if num_image_tokens == 0 {
            r matches Err(e) && e@ == ErrorView::InvalidInput(
                "GLM-OCR: num_image_tokens is zero"@,
            )
        } else {
            match expanded_text(prompt@, num_image_tokens as nat) {
                Some(s) => r matches Ok(out) && out@ == s,
                None => r matches Err(e) && e@ == ErrorView::InvalidInput(
                    "GLM-OCR: prompt missing <|image|> token"@,
                ),
            }
        },
{
    if num_image_tokens == 0 {
        return Err(Error::invalid_input("GLM-OCR: num_image_tokens is zero"));
    }
    let chars = text::char_vec(prompt);
    let marker = text::char_vec("<|image|>");
    let n: usize = chars.len();
    proof {
        assert(chars@.subrange(0, n as int) =~= prompt@);
    }
    match text::find_from(&chars, 0, n, &marker) {
        None => Err(Error::invalid_input("GLM-OCR: prompt missing <|image|> token")),
        Some(i) => {
            let mut out = text::string_of(&chars, 0, i);
            text::push_repeated(&mut out, "<|placeholder|>", num_image_tokens);
            text::push_range(&mut out, &chars, i + marker.len(), n);
            proof {
                assert(chars@.subrange(0, i as int) =~= prompt@.take(i as int));
                assert(chars@.subrange(i + marker@.len(), n as int) =~= prompt@.skip(
                    i + marker@.len(),
                ));
            }
            Ok(text::replace(out.as_str(), "<|placeholder|>", "<|image|>"))
        },
    }
}

/// The instruction for a recognition task.
pub open spec fn task_prompt(task: RecognitionTask) -> Seq<char> {
    match task {
        RecognitionTask::Ocr => "Text Recognition:"@,
        RecognitionTask::Chart => "Text Recognition:"@,
        RecognitionTask::Table => "Table Recognition:"@,
        RecognitionTask::Formula => "Formula Recognition:"@,
    }
}

/// The instruction for a recognition task.
pub fn prompt(task: RecognitionTask) -> (s: &'static str)
    ensures
        s@ == task_prompt(task),
{
    match task {
        RecognitionTask::Ocr => "Text Recognition:",
        RecognitionTask::Chart => "Text Recognition:",
        RecognitionTask::Table => "Table Recognition:",
        RecognitionTask::Formula => "Formula Recognition:",
    }
}

/// Checks that a request has one instruction for each image.
pub fn validate_counts(images: usize, instructions: usize) -> (r: Result<(), Error>)
    ensures
        error::verdict(
            if images > 0 && images != instructions {
                Some(
                    ErrorView::InvalidInput(
                        "GLM-OCR: images count ("@ + text::dec(images as nat)
                            + ") != instructions count ("@ + text::dec(instructions as nat) + ")"@,
                    ),
                )
            } else {
                None
            },
            r,
        ),
{
    if images > 0 && images != instructions {
        return Err(
            Message::new("GLM-OCR: images count (").num(images as u64).text(
                ") != instructions count (",
            ).num(instructions as u64).text(")").invalid_input(),
        );
    }
    Ok(())
}

/// The first thing wrong with the image tokens of a prompt.
pub open spec fn span_problem(ids: Seq<u32>, token: u32, embeds: usize) -> Option<ErrorView> {
    let places = tokens::positions(ids, token);
    if places.len() != embeds {
        Some(
            ErrorView::InvalidInput(
                "GLM-OCR: image token count ("@ + text::dec(places.len()) + ") != image embeds ("@
                    + text::dec(embeds as nat) + ")"@,
            ),
        )
    } else if places.len() == 0 {
        Some(ErrorView::InvalidInput("GLM-OCR: no image tokens found in prompt"@))
    } else if places.last() + 1 - places[0] != places.len() {
        Some(ErrorView::InvalidInput("GLM-OCR: image tokens are not contiguous in prompt"@))
    } else {
        None
    }
}

/// Finds the places of the image embeddings in a prompt.
pub fn image_span(input_ids: &Vec<u32>, image_token_id: u32, embeds: usize) -> (r: Result<
    (usize, usize),
    Error,
>)
    ensures
        match r {
            Ok((start, end)) => {
                &&& span_problem(input_ids@, image_token_id, embeds) is None
                &&& start < end <= input_ids.len()
                &&& end - start == embeds
                &&& forall|i: int|
                    0 <= i < input_ids.len() ==> (#[trigger] input_ids[i] == image_token_id <==> start
                        <= i < end)
            },
            Err(e) => span_problem(input_ids@, image_token_id, embeds) == Some(e@),
        },
{
    let places = tokens::find_positions(input_ids, image_token_id);
    let ghost ps = tokens::positions(input_ids@, image_token_id);
    let n: usize = places.len();
    if n != embeds {
        return Err(
            Message::new("GLM-OCR: image token count (").num(n as u64).text(
                ") != image embeds (",
            ).num(embeds as u64).text(")").invalid_input(),
        );
    }
    if n == 0 {
        return Err(Error::invalid_input("GLM-OCR: no image tokens found in prompt"));
    }
    let start: usize = places[0];
    let end: usize = places[n - 1];
    proof {
        assert(ps[0] == places[0]);
        assert(ps[n - 1] == places[n - 1]);
        assert(places[n - 1] < input_ids.len());
    }
    if end + 1 - start != n {
        return Err(Error::invalid_input("GLM-OCR: image tokens are not contiguous in prompt"));
    }
    proof {
        lemma_dense(places@, 0, n - 1);
        assert forall|i: int| 0 <= i < input_ids.len() implies (#[trigger] input_ids[i]
            == image_token_id <==> start <= i < end + 1) by {
            tokens::lemma_positions_complete(input_ids@, image_token_id, i);
            if start <= i < end + 1 {
                assert(places@[i - start] == i);
                assert(ps[i - start] == i);
            }
            if ps.contains(i) {
                let k = choose|k: int| 0 <= k < ps.len() && ps[k] == i;
                assert(ps[k] == places@[k]);
            }
        }
    }
    Ok((start, end + 1))
}

/// An increasing list that fills its range counts up by one.
proof fn lemma_dense(s: Seq<usize>, lo: int, hi: int)
    requires
        0 <= lo <= hi < s.len(),
        forall|i: int, j: int| 0 <= i < j < s.len() ==> s[i] < s[j],
        s[hi] - s[lo] == hi - lo,
    ensures
        forall|k: int| lo <= k <= hi ==> s[k] == s[lo] + (k - lo),
    decreases hi - lo,
{
    if lo < hi {
        assert(s[lo] < s[lo + 1]);
        lemma_gap(s, lo + 1, hi);
        lemma_dense(s, lo + 1, hi);
        assert forall|k: int| lo <= k <= hi implies s[k] == s[lo] + (k - lo) by {
            if k > lo {
                assert(s[k] == s[lo + 1] + (k - lo - 1));
            }
        }
    }
}

/// An increasing list grows at least by one at each step.
proof fn lemma_gap(s: Seq<usize>, lo: int, hi: int)
    requires
        0 <= lo <= hi < s.len(),
        forall|i: int, j: int| 0 <= i < j < s.len() ==> s[i] < s[j],
    ensures
        s[hi] - s[lo] >= hi - lo,
    decreases hi - lo,
{
    if lo < hi {
        lemma_gap(s, lo, hi - 1);
        assert(s[hi - 1] < s[hi]);
    }
}

/// The positions of a prompt and the greatest of them.
#[derive(Debug)]
pub struct PromptPositions {
    pub ids: MropeIds,
    pub max_pos: i64,
}

/// The grid of an image as the text model sees it.
pub open spec fn merged_grid(grid: (usize, usize, usize), merge: usize) -> (int, int, int) {
    (grid.0 as int, grid.1 as int / merge as int, grid.2 as int / merge as int)
}

/// The positions of `b - a` image tokens at `a` and of the text around them.
pub open spec fn are_positions(
    p: PromptPositions,
    len: int,
    a: int,
    b: int,
    g: (int, int, int),
) -> bool {
    let advance = positions::max3(g.0, g.1, g.2);
    &&& p.ids.covers(len as nat)
    &&& forall|i: int|
        0 <= i < len ==> #[trigger] p.ids.at(i) == positions::position_at(
            i,
            a,
            b,
            g.1,
            g.2,
            advance,
        )
    &&& p.max_pos == a + advance + (len - b) - 1
}

/// The greatest of three numbers.
fn max_usize3(x: usize, y: usize, z: usize) -> (m: usize)
    ensures
        m == positions::max3(x as int, y as int, z as int),
{
    if x >= y && x >= z {
        x
    } else if y >= z {
        y
    } else {
        z
    }
}

/// The problem of a run of `count` image tokens where the merged grid has `expected`
/// places.
pub open spec fn count_mismatch(count: nat, expected: nat) -> ErrorView {
    ErrorView::InvalidInput(
        "GLM-OCR: image token count ("@ + text::dec(count) + ") != expected ("@ + text::dec(
            expected,
        ) + ")"@,
    )
}

/// The positions of a prompt without tokens, for a merged grid.
fn empty_positions(t: usize, h: usize, w: usize) -> (r: Result<PromptPositions, Error>)
    requires
        t * h <= usize::MAX,
        t * h * w <= usize::MAX,
        t <= i64::MAX,
        h <= i64::MAX,
        w <= i64::MAX,
    ensures
        if t * h * w != 0 {
            r matches Err(e) && e@ == count_mismatch(0, (t * h * w) as nat)
        } else {
            r matches Ok(p) && are_positions(p, 0, 0, 0, (t as int, h as int, w as int))
        },
{
    let expected: usize = t * h * w;
    if expected != 0 {
        return Err(
            Message::new("GLM-OCR: image token count (").num(0).text(") != expected (").num(
                expected as u64,
            ).text(")").invalid_input(),
        );
    }
    let advance: usize = max_usize3(t, h, w);
    let ids = positions::prompt_positions(0, 0, 0, h, w, advance);
    Ok(PromptPositions { ids, max_pos: advance as i64 - 1 })
}

/// The positions of a prompt with at most one run of image tokens, which has to be
/// as long as the merged grid is large. A prompt without tokens is an empty run.
pub fn build_position_ids(
    input_ids: &Vec<u32>,
    grid_thw: (usize, usize, usize),
    merge_size: usize,
    image_token_id: u32,
) -> (r: Result<PromptPositions, Error>)
    requires
        merge_size > 0,
        grid_thw.0 * (grid_thw.1 / merge_size) <= usize::MAX,
        grid_thw.0 * (grid_thw.1 / merge_size) * (grid_thw.2 / merge_size) <= usize::MAX,
        input_ids.len() + grid_thw.0 <= i64::MAX,
        input_ids.len() + grid_thw.1 <= i64::MAX,
        input_ids.len() + grid_thw.2 <= i64::MAX,
    ensures
        input_ids.len() == 0 ==> ({
            let g = merged_grid(grid_thw, merge_size);
            let expected = g.0 * g.1 * g.2;
            if expected != 0 {
                r matches Err(e) && e@ == count_mismatch(0, expected as nat)
            } else {
                r matches Ok(p) && are_positions(p, 0, 0, 0, g)
            }
        }),
        input_ids.len() > 0 && tokens::absent_from(input_ids@, image_token_id, 0) ==> (r matches Ok(
            p,
        ) && are_positions(p, input_ids.len() as int, input_ids.len() as int, input_ids.len() as int, (0, 0, 0))),
        forall|a: int, b: int| #[trigger]
            tokens::is_first_run(input_ids@, image_token_id, a, b) ==> {
                let g = merged_grid(grid_thw, merge_size);
                let expected = g.0 * g.1 * g.2;
                if b - a != expected {
                    r matches Err(e) && e@ == count_mismatch((b - a) as nat, expected as nat)
                } else if !tokens::absent_from(input_ids@, image_token_id, b) {
                    r matches Err(e) && e@ == ErrorView::InvalidInput(
                        "GLM-OCR: multiple image groups in prompt are not supported"@,
                    )
                } else {
                    r matches Ok(p) && are_positions(p, input_ids.len() as int, a, b, g)
                }
            },
{
    let len: usize = input_ids.len();
    match tokens::first_run(input_ids, image_token_id) {
        None => {
            proof {
                assert forall|a: int, b: int| !#[trigger] tokens::is_first_run(
                    input_ids@,
                    image_token_id,
                    a,
                    b,
                ) by {
                    if tokens::is_first_run(input_ids@, image_token_id, a, b) {
                        assert(input_ids@[a] != image_token_id);
                    }
                }
            }
            if len == 0 {
                return empty_positions(
                    grid_thw.0,
                    grid_thw.1 / merge_size,
                    grid_thw.2 / merge_size,
                );
            }
            let ids = positions::prompt_positions(len, len, len, 0, 0, 0);
            Ok(PromptPositions { ids, max_pos: len as i64 - 1 })
        },
        Some((a, b)) => {
            let t: usize = grid_thw.0;
            let h: usize = grid_thw.1 / merge_size;
            let w: usize = grid_thw.2 / merge_size;
            let expected: usize = t * h * w;
            proof {
                assert(input_ids@[a as int] == image_token_id);
                assert forall|c: int, d: int| #[trigger]
                    tokens::is_first_run(input_ids@, image_token_id, c, d) implies c == a && d
                    == b by {
                    tokens::lemma_first_run_unique(
                        input_ids@,
                        image_token_id,
                        a as int,
                        b as int,
                        c,
                        d,
                    );
                }
            }
            if b - a != expected {
                return Err(
                    Message::new("GLM-OCR: image token count (").num((b - a) as u64).text(
                        ") != expected (",
                    ).num(expected as u64).text(")").invalid_input(),
                );
            }
            if let Some(again) = tokens::position_from(input_ids, image_token_id, b) {
                proof {
                    assert(input_ids@[again as int] == image_token_id);
                }
                return Err(
                    Error::invalid_input(
                        "GLM-OCR: multiple image groups in prompt are not supported",
                    ),
                );
            }
            let advance: usize = max_usize3(t, h, w);
            proof {
                assert(h > 0 && w > 0 && h * w <= t * h * w && t > 0) by (nonlinear_arith)
                    requires
                        t * h * w > 0,
                        t >= 0,
                        h >= 0,
                        w >= 0,
                ;
                assert(h <= grid_thw.1 && w <= grid_thw.2) by (nonlinear_arith)
                    requires
                        h == grid_thw.1 / merge_size,
                        w == grid_thw.2 / merge_size,
                        merge_size > 0,
                ;
            }
            let ids = positions::prompt_positions(len, a, b, h, w, advance);
            let max_pos: i64 = a as i64 + advance as i64 + (len - b) as i64 - 1;
            Ok(PromptPositions { ids, max_pos })
        },
    }
}

/// The distance between a token's place and its rotary position behind the prompt.
pub fn rope_delta(max_pos: i64, seq_len: usize) -> (d: i64)
    requires
        seq_len <= i64::MAX,
        -1 <= max_pos < i64::MAX,
    ensures
        d == max_pos + 1 - seq_len,
{
    max_pos + 1 - seq_len as i64
}

/// Decoding goes on right behind the greatest position of the prompt: no token of
/// the prompt lies behind it, and text behind the image ends at it.
pub proof fn law_decoding_continues_behind_the_prompt(
    p: PromptPositions,
    len: int,
    a: int,
    b: int,
    g: (int, int, int),
    i: int,
)
    requires
        are_positions(p, len, a, b, g),
        0 <= a <= b <= len,
        if a < b {
            g.0 > 0 && g.1 > 0 && g.2 > 0 && b - a == g.0 * g.1 * g.2
        } else {
            g == (0int, 0int, 0int)
        },
        0 <= i < len,
    ensures
        ({
            let at = p.ids.at(i);
            &&& at.0 <= p.max_pos
            &&& at.1 <= p.max_pos
            &&& at.2 <= p.max_pos
        }),
        b <= i ==> p.ids.at(i) == (
            p.max_pos - (len - 1 - i),
            p.max_pos - (len - 1 - i),
            p.max_pos - (len - 1 - i),
        ),
{
    if a < b {
        let advance = positions::max3(g.0, g.1, g.2);
        assert(g.0 * g.1 * g.2 == g.0 * (g.1 * g.2)) by (nonlinear_arith);
        positions::law_max_position_bounds_all(i, len, a, b, g.0, g.1, g.2, advance);
    }
}

/// Where the embeddings of an image go, and the positions of all tokens.
#[derive(Debug)]
pub struct ImagePlace {
    pub start: usize,
    pub end: usize,
    pub positions: PromptPositions,
    /// The distance between a token's place and its position behind the prompt.
    pub rope_delta: i64,
}

/// The first thing wrong with an image and the prompt that it is put into.
pub open spec fn placing_problem(
    ids: Seq<u32>,
    token: u32,
    grid: (usize, usize, usize),
    merge: usize,
    embeds: usize,
) -> Option<ErrorView> {
    let g = merged_grid(grid, merge);
    match span_problem(ids, token, embeds) {
        Some(p) => Some(p),
        None => if embeds != g.0 * g.1 * g.2 {
            Some(count_mismatch(embeds as nat, (g.0 * g.1 * g.2) as nat))
        } else {
            None
        },
    }
}

/// Places the embeddings of an image in its prompt.
pub fn place_image(
    input_ids: &Vec<u32>,
    grid_thw: (usize, usize, usize),
    merge_size: usize,
    image_token_id: u32,
    embeds: usize,
) -> (r: Result<ImagePlace, Error>)
    requires
        merge_size > 0,
        grid_thw.0 * (grid_thw.1 / merge_size) <= usize::MAX,
        grid_thw.0 * (grid_thw.1 / merge_size) * (grid_thw.2 / merge_size) <= usize::MAX,
        input_ids.len() + grid_thw.0 <= i64::MAX,
        input_ids.len() + grid_thw.1 <= i64::MAX,
        input_ids.len() + grid_thw.2 <= i64::MAX,
    ensures
        match placing_problem(input_ids@, image_token_id, grid_thw, merge_size, embeds) {
            Some(p) => r matches Err(e) && e@ == p,
            None => r matches Ok(place) && {
                &&& place.end - place.start == embeds
                &&& forall|i: int|
                    0 <= i < input_ids.len() ==> (#[trigger] input_ids[i] == image_token_id
                        <==> place.start <= i < place.end)
                &&& are_positions(
                    place.positions,
                    input_ids.len() as int,
                    place.start as int,
                    place.end as int,
                    merged_grid(grid_thw, merge_size),
                )
                &&& place.rope_delta == place.positions.max_pos + 1 - input_ids.len()
            },
        },
{
    let (start, end): (usize, usize) = match image_span(input_ids, image_token_id, embeds) {
        Ok(span) => span,
        Err(e) => return Err(e),
    };
    proof {
        assert(input_ids@[start as int] == image_token_id);
        assert(tokens::is_first_run(input_ids@, image_token_id, start as int, end as int));
    }
    match build_position_ids(input_ids, grid_thw, merge_size, image_token_id) {
        Ok(positions) => {
            proof {
                let g = merged_grid(grid_thw, merge_size);
                vstd::arithmetic::div_mod::lemma_div_is_ordered_by_denominator(
                    grid_thw.1 as int,
                    1,
                    merge_size as int,
                );
                vstd::arithmetic::div_mod::lemma_div_is_ordered_by_denominator(
                    grid_thw.2 as int,
                    1,
                    merge_size as int,
                );
                assert(g.1 <= grid_thw.1 && g.2 <= grid_thw.2);
            }
            let rope_delta: i64 = rope_delta(positions.max_pos, input_ids.len());
            Ok(ImagePlace { start, end, positions, rope_delta })
        },
        Err(e) => Err(e),
    }
}

/// The error for ids that the tokenizer cannot decode.
pub open spec fn decode_failure(message: Seq<char>) -> ErrorView {
    ErrorView::InvalidInput("GLM-OCR: tokenizer decode failed: "@ + message)
}

/// Reports the outcome of decoding a page; its text is trimmed.
pub fn finish_decode(decoded: Result<String, String>) -> (r: Result<String, Error>)
    ensures
        match (decoded, r) {
            (Ok(s), Ok(out)) => out@ == text::trimmed(s@),
            (Err(m), Err(e)) => e@ == decode_failure(m@),
            _ => false,
        },
{
    match decoded {
        Ok(s) => Ok(text::trim(s.as_str())),
        Err(m) => Err(
            Message::new("GLM-OCR: tokenizer decode failed: ").text(m.as_str()).invalid_input(),
        ),
    }
}

/// The trimmed text of a page.
pub fn decode_tokens(tokenizer: &Tokenizer, ids: &Vec<u32>) -> (r: Result<String, Error>)
    requires
        tokenizer::decodes(*tokenizer),
    ensures
        match tokenizer::decodings(*tokenizer)[(ids@, true)] {
            Ok(s) => r matches Ok(out) && out@ == text::trimmed(s),
            Err(m) => r matches Err(e) && e@ == decode_failure(m),
        },
{
    finish_decode(tokenizer::decode(tokenizer, ids, true))
}

/// The trimmed text of a page; nothing else is done to it.
pub fn decode_tokens_raw(tokenizer: &Tokenizer, ids: &Vec<u32>) -> (r: Result<String, Error>)
    requires
        tokenizer::decodes(*tokenizer),
    ensures
        match tokenizer::decodings(*tokenizer)[(ids@, true)] {
            Ok(s) => r matches Ok(out) && out@ == text::trimmed(s),
            Err(m) => r matches Err(e) && e@ == decode_failure(m),
        },
{
    finish_decode(tokenizer::decode(tokenizer, ids, true))
}

/// The error for a prompt that the tokenizer rejects.
pub open spec fn encode_failure(message: Seq<char>) -> ErrorView {
    ErrorView::InvalidInput("GLM-OCR: tokenizer encode failed: "@ + message)
}

/// What becomes of an attempt to encode a prompt, which may not be empty.
pub open spec fn after_encoding(outcome: Result<Seq<u32>, Seq<char>>) -> Result<Seq<u32>, ErrorView> {
    match outcome {
        Ok(ids) => if ids.len() == 0 {
            Err(ErrorView::InvalidInput("GLM-OCR: empty prompt after tokenization"@))
        } else {
            Ok(ids)
        },
        Err(m) => Err(encode_failure(m)),
    }
}

/// Reports the outcome of encoding a prompt.
pub fn finish_encode(encoded: Result<Vec<u32>, String>) -> (r: Result<Vec<u32>, Error>)
    ensures
        tokenizer::gives(r, after_encoding(tokenizer::outcome(encoded))),
{
    match encoded {
        Ok(ids) => {
            if ids.len() == 0 {
                Err(Error::invalid_input("GLM-OCR: empty prompt after tokenization"))
            } else {
                Ok(ids)
            }
        },
        Err(m) => Err(
            Message::new("GLM-OCR: tokenizer encode failed: ").text(m.as_str()).invalid_input(),
        ),
    }
}

/// Encodes a prompt. Which of the possible outcomes comes is up to the tokenizer.
pub fn encode_prompt(tokenizer: &Tokenizer, prompt: &str) -> (r: Result<Vec<u32>, Error>)
    requires
        tokenizer::encodes(*tokenizer),
    ensures
        exists|outcome: Result<Seq<u32>, Seq<char>>| #[trigger]
            tokenizer::encodings(*tokenizer)[prompt@].contains(outcome) && tokenizer::gives(
                r,
                after_encoding(outcome),
            ),
{
    finish_encode(tokenizer::encode(tokenizer, prompt))
}

/// Encodes the prompt for an image of `num_image_tokens` tokens.
pub fn prompt_ids(tokenizer: &Tokenizer, instruction: &str, num_image_tokens: usize) -> (r: Result<
    Vec<u32>,
    Error,
>)
    requires
        tokenizer::encodes(*tokenizer),
    ensures
        if num_image_tokens == 0 {
            r matches Err(e) && e@ == ErrorView::InvalidInput(
                "GLM-OCR: num_image_tokens is zero"@,
            )
        } else {
            match expanded_text(prompt_text(instruction@), num_image_tokens as nat) {
                Some(prompt) => exists|outcome: Result<Seq<u32>, Seq<char>>| #[trigger]
                    tokenizer::encodings(*tokenizer)[prompt].contains(outcome)
                        && tokenizer::gives(r, after_encoding(outcome)),
                None => r matches Err(e) && e@ == ErrorView::InvalidInput(
                    "GLM-OCR: prompt missing <|image|> token"@,
                ),
            }
        },
{
    let prompt = build_prompt(instruction);
    match expand_image_tokens(prompt.as_str(), num_image_tokens) {
        Ok(prompt) => encode_prompt(tokenizer, prompt.as_str()),
        Err(e) => Err(e),
    }
}

/// The image token in frame `t`, row `y` and column `x` of the merged grid has these
/// as its coordinates, counted from where the image begins.
pub proof fn law_image_tokens_have_their_coordinates(
    p: PromptPositions,
    len: int,
    a: int,
    grid: (usize, usize, usize),
    merge: usize,
    t: int,
    y: int,
    x: int,
)
    requires
        merge > 0,
        0 <= a,
        a + grid.0 * (grid.1 / merge) * (grid.2 / merge) <= len,
        are_positions(
            p,
            len,
            a,
            a + grid.0 * (grid.1 / merge) * (grid.2 / merge),
            merged_grid(grid, merge),
        ),
        0 <= t < grid.0,
        0 <= y < grid.1 / merge,
        0 <= x < grid.2 / merge,
    ensures
        ({
            let i = a + (t * (grid.1 / merge) + y) * (grid.2 / merge) + x;
            &&& a <= i < a + grid.0 * (grid.1 / merge) * (grid.2 / merge)
            &&& p.ids.temporal@[i] == a + t
            &&& p.ids.height@[i] == a + y
            &&& p.ids.width@[i] == a + x
        }),
{
    let h = (grid.1 / merge) as int;
    let w = (grid.2 / merge) as int;
    let i = a + (t * h + y) * w + x;
    positions::lemma_grid_place(t, y, x, grid.0 as int, h, w);
    assert(p.ids.at(i) == positions::position_at(
        i,
        a,
        a + grid.0 * h * w,
        h,
        w,
        positions::max3(grid.0 as int, h, w),
    ));
}

/// Text has one position on all three axes. Before the image it is the token's place;
/// the first token behind the image goes past all sides of its grid, by as much as
/// the longest side needs, and the others follow. The prompt ends at its greatest
/// position.
pub proof fn law_text_goes_on_behind_the_image(
    p: PromptPositions,
    len: int,
    a: int,
    b: int,
    grid: (usize, usize, usize),
    merge: usize,
    side: int,
    i: int,
)
    requires
        merge > 0,
        0 <= a <= b <= len,
        are_positions(p, len, a, b, merged_grid(grid, merge)),
        side >= grid.0,
        side >= grid.1 / merge,
        side >= grid.2 / merge,
        side == grid.0 || side == grid.1 / merge || side == grid.2 / merge,
        0 <= i < len,
        i < a || b <= i,
    ensures
        p.ids.temporal@.len() == len,
        p.ids.height@.len() == len,
        p.ids.width@.len() == len,
        p.ids.height@[i] == p.ids.temporal@[i],
        p.ids.width@[i] == p.ids.temporal@[i],
        i < a ==> p.ids.temporal@[i] == i,
        b <= i ==> p.ids.temporal@[i] == a + side + (i - b),
        p.max_pos == a + side + (len - b) - 1,
{
    let g = merged_grid(grid, merge);
    assert(p.ids.at(i) == positions::position_at(
        i,
        a,
        b,
        g.1,
        g.2,
        positions::max3(g.0, g.1, g.2),
    ));
}

/// An image goes into a prompt whose image tokens are as many as its embeddings, as
/// many as the merged grid has places, and stand side by side; every other prompt is
/// refused.
pub proof fn law_image_needs_its_run_of_tokens(
    ids: Seq<u32>,
    token: u32,
    grid: (usize, usize, usize),
    merge: usize,
    embeds: usize,
    start: int,
)
    requires
        merge > 0,
    ensures
        0 <= start && start + embeds <= ids.len() && embeds > 0 && embeds == grid.0 * (grid.1
            / merge) * (grid.2 / merge) && (forall|i: int|
            0 <= i < ids.len() ==> (#[trigger] ids[i] == token <==> start <= i < start + embeds))
            ==> placing_problem(ids, token, grid, merge, embeds) is None,
        placing_problem(ids, token, grid, merge, embeds) is None ==> embeds > 0 && embeds == grid.0
            * (grid.1 / merge) * (grid.2 / merge) && exists|first: int|
            0 <= first && first + embeds <= ids.len() && #[trigger] tokens::stands_exactly(
                ids,
                token,
                first,
                first + embeds,
            ),
{
    let places = tokens::positions(ids, token);
    if 0 <= start && start + embeds <= ids.len() && embeds > 0 && (forall|i: int|
        0 <= i < ids.len() ==> (#[trigger] ids[i] == token <==> start <= i < start + embeds)) {
        tokens::lemma_places_of_a_run(ids, token, start, start + embeds);
    }
    if placing_problem(ids, token, grid, merge, embeds) is None {
        tokens::lemma_full_range_is_a_run(ids, token);
        assert(tokens::stands_exactly(ids, token, places[0], places[0] + embeds));
    }
}

/// A prompt with an image marker has the first one written once for each image token;
/// what stands before and behind it stays. Without a marker there is nothing to
/// expand.
pub proof fn law_first_marker_is_written_for_each_token(
    before: Seq<char>,
    after: Seq<char>,
    prompt: Seq<char>,
    n: nat,
)
    requires
        n > 0,
        forall|j: int|
            0 <= j < before.len() ==> !#[trigger] text::occurs_at(
                before + "<|image|>"@ + after,
                "<|image|>"@,
                j,
            ),
        forall|j: int| !#[trigger] text::occurs_at(before, "<|placeholder|>"@, j),
        forall|j: int| !#[trigger] text::occurs_at(after, "<|placeholder|>"@, j),
        forall|j: int| !#[trigger] text::occurs_at(prompt, "<|image|>"@, j),
    ensures
        expanded_text(before + "<|image|>"@ + after, n) == Some(
            before + text::repeated("<|image|>"@, n) + after,
        ),
        expanded_text(prompt, n) is None,
{
    let image = "<|image|>"@;
    let whole = before + image + after;
    text::law_found_is_the_first_occurrence(whole, image);
    text::law_found_is_the_first_occurrence(prompt, image);
    assert(whole.subrange(before.len() as int, (before.len() + image.len()) as int) =~= image);
    assert(text::occurs_at(whole, image, before.len() as int));
    let i = text::find(whole, image)->Some_0;
    assert(i == before.len());
    assert(whole.take(i as int) =~= before);
    assert(whole.skip((i + image.len()) as int) =~= after);
    lemma_placeholders_become_markers(before, after, n);
}

/// Neither end of a placeholder occurs inside it, so placeholders stay apart from each
/// other and from the text around them.
proof fn lemma_placeholder_stands_alone(front: Seq<char>, rest: Seq<char>, j: int)
    requires
        0 <= j < front.len(),
        text::occurs_at(front + "<|placeholder|>"@ + rest, "<|placeholder|>"@, j),
    ensures
        text::occurs_at(front, "<|placeholder|>"@, j),
{
    reveal_strlit("<|placeholder|>");
    let p = "<|placeholder|>"@;
    let s = front + p + rest;
    assert(p.len() == 15);
    let found = s.subrange(j, j + 15);
    if j + 15 > front.len() {
        let k = front.len() - j;
        assert(found[k] == s[front.len() as int]);
        assert(s[front.len() as int] == p[0]);
        assert(0 < k < 15);
        assert(p[k] != '<');
        assert(false);
    }
    assert(front.subrange(j, j + 15) =~= found);
}

/// Every placeholder becomes an image marker.
proof fn lemma_placeholders_become_markers(before: Seq<char>, after: Seq<char>, n: nat)
    requires
        n > 0 || before.len() == 0,
        forall|j: int| !#[trigger] text::occurs_at(before, "<|placeholder|>"@, j),
        forall|j: int| !#[trigger] text::occurs_at(after, "<|placeholder|>"@, j),
    ensures
        text::replace_all(
            before + text::repeated("<|placeholder|>"@, n) + after,
            "<|placeholder|>"@,
            "<|image|>"@,
        ) == before + text::repeated("<|image|>"@, n) + after,
    decreases n,
{
    let p = "<|placeholder|>"@;
    let image = "<|image|>"@;
    reveal_strlit("<|placeholder|>");
    if n == 0 {
        assert(before + text::repeated(p, n) + after =~= after);
        assert(before + text::repeated(image, n) + after =~= after);
        text::law_nothing_to_replace(after, p, image);
    } else {
        let m = (n - 1) as nat;
        let none: Seq<char> = Seq::empty();
        let rest = text::repeated(p, m) + after;
        assert forall|j: int| 0 <= j < before.len() implies !#[trigger] text::occurs_at(
            before + p + rest,
            p,
            j,
        ) by {
            if text::occurs_at(before + p + rest, p, j) {
                lemma_placeholder_stands_alone(before, rest, j);
            }
        }
        text::law_replacing_goes_from_the_left(before, p, rest, image);
        assert forall|j: int| !#[trigger] text::occurs_at(none, p, j) by {}
        lemma_placeholders_become_markers(none, after, m);
        assert(none + text::repeated(p, m) + after =~= rest);
        lemma_repeated_front(p, m);
        lemma_repeated_front(image, m);
        assert(before + text::repeated(p, n) + after =~= before + p + rest);
        assert(before + image + (none + text::repeated(image, m) + after) =~= before
            + text::repeated(image, n) + after);
    }
}

/// Writing a text once more in front is writing it once more.
proof fn lemma_repeated_front(unit: Seq<char>, n: nat)
    ensures
        text::repeated(unit, n + 1) == unit + text::repeated(unit, n),
    decreases n,
{
    if n > 0 {
        lemma_repeated_front(unit, (n - 1) as nat);
        assert(text::repeated(unit, n + 1) =~= unit + text::repeated(unit, (n - 1) as nat) + unit);
    } else {
        assert(text::repeated(unit, 0) =~= Seq::<char>::empty());
        assert(text::repeated(unit, 1) =~= text::repeated(unit, 0) + unit);
        assert(text::repeated(unit, 1) =~= unit + text::repeated(unit, 0));
    }
}

/// The prompt for an instruction holds the instruction between its markers, and its
/// first image marker is the one before it.
pub proof fn law_prompt_holds_its_instruction(instruction: Seq<char>, n: nat)
    requires
        n > 0,
        forall|j: int|
            !#[trigger] text::occurs_at(
                "<|end_of_image|>"@ + instruction + "<|assistant|>\n"@,
                "<|placeholder|>"@,
                j,
            ),
    ensures
        prompt_text(instruction) == "[gMASK]<sop><|user|>\n<|begin_of_image|>"@ + "<|image|>"@ + (
        "<|end_of_image|>"@ + instruction + "<|assistant|>\n"@),
        expanded_text(prompt_text(instruction), n) == Some(
            "[gMASK]<sop><|user|>\n<|begin_of_image|>"@ + text::repeated("<|image|>"@, n) + (
            "<|end_of_image|>"@ + instruction + "<|assistant|>\n"@),
        ),
{
    reveal_strlit("[gMASK]<sop><|user|>\n<|begin_of_image|><|image|><|end_of_image|>");
    reveal_strlit("[gMASK]<sop><|user|>\n<|begin_of_image|>");
    reveal_strlit("<|image|>");
    reveal_strlit("<|end_of_image|>");
    reveal_strlit("<|placeholder|>");
    let before = "[gMASK]<sop><|user|>\n<|begin_of_image|>"@;
    let image = "<|image|>"@;
    let after = "<|end_of_image|>"@ + instruction + "<|assistant|>\n"@;
    let whole = before + image + after;
    assert(prompt_text(instruction) =~= whole);
    assert forall|j: int| 0 <= j < before.len() implies !#[trigger] text::occurs_at(
        whole,
        image,
        j,
    ) by {
        if text::occurs_at(whole, image, j) {
            let found = whole.subrange(j, j + image.len());
            assert(found[0] == whole[j] && found[1] == whole[j + 1] && found[2] == whole[j + 2]);
            assert(image[0] == '<' && image[1] == '|' && image[2] == 'i');
        }
    }
    assert forall|j: int| !#[trigger] text::occurs_at(before, "<|placeholder|>"@, j) by {
        if text::occurs_at(before, "<|placeholder|>"@, j) {
            let found = before.subrange(j, j + 15);
            assert(found[2] == before[j + 2]);
            assert(found[0] == before[j] && found[1] == before[j + 1]);
        }
    }
    let plain: Seq<char> = Seq::empty();
    assert forall|j: int| !#[trigger] text::occurs_at(plain, image, j) by {}
    law_first_marker_is_written_for_each_token(before, after, plain, n);
}

/// A tokenizer may lack the image token; if it has one, it has to be the one of the
/// configuration.
pub proof fn law_image_token_is_that_of_the_configuration(v: Map<Seq<char>, u32>, id: u32)
    ensures
        image_token_problem(v, id) is None <==> !v.contains_key("<|image|>"@) || v["<|image|>"@]
            == id,
{
}

/// Each recognition task has its instruction; a chart is read as text.
pub proof fn law_tasks_have_their_instructions()
    ensures
        task_prompt(RecognitionTask::Ocr) == "Text Recognition:"@,
        task_prompt(RecognitionTask::Chart) == task_prompt(RecognitionTask::Ocr),
        task_prompt(RecognitionTask::Table) == "Table Recognition:"@,
        task_prompt(RecognitionTask::Formula) == "Formula Recognition:"@,
{
}

/// What is wrong with a prompt is told as a fault of the request, and what is wrong with
/// a tokenizer as one of the configuration.
pub proof fn law_faults_are_told_apart(
    v: Map<Seq<char>, u32>,
    ids: Seq<u32>,
    token: u32,
    grid: (usize, usize, usize),
    merge: usize,
    embeds: usize,
)
    ensures
        placing_problem(ids, token, grid, merge, embeds) matches Some(e) ==> e is InvalidInput,
        image_token_problem(v, token) matches Some(e) ==> e is Config,
{
}

/// A prompt is accepted as the tokenizer encodes it, if that is not empty; an error of
/// the tokenizer is handed on in words.
pub proof fn law_prompt_is_accepted_as_encoded(ids: Seq<u32>, message: Seq<char>)
    ensures
        match after_encoding(Ok(ids)) {
            Ok(accepted) => accepted == ids && ids.len() > 0,
            Err(e) => e is InvalidInput && ids.len() == 0,
        },
        after_encoding(Err(message)) == Err::<Seq<u32>, ErrorView>(
            ErrorView::InvalidInput("GLM-OCR: tokenizer encode failed: "@ + message),
        ),
{
}

} // verus!
