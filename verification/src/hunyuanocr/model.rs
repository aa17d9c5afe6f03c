//! Requests: prompts, image tokens and positions.
use super::config::{HunyuanOcrConfig, HunyuanOcrVersion};
use crate::error::{self, Error, ErrorView, Message};
use crate::recognition::RecognitionTask;
use crate::text;
use crate::tokenizer;
use crate::tokens;
use tokenizers::Tokenizer;
use vstd::prelude::*;

verus! {

/// The prompt around an instruction. The older checkpoints expect the marker of an
/// empty system message.
pub open spec fn prompt_text(instruction: Seq<char>, version: HunyuanOcrVersion) -> Seq<char> {
    "<｜hy_begin▁of▁sentence｜>"@ + (match version {
        HunyuanOcrVersion::V1 => "<｜hy_place▁holder▁no▁3｜>"@,
        HunyuanOcrVersion::V1_5 => ""@,
    })
        + "<｜hy_place▁holder▁no▁100｜><｜hy_place▁holder▁no▁102｜><｜hy_place▁holder▁no▁101｜>"@
        + instruction + "<｜hy_User｜>"@
}

/// Builds the prompt.
pub fn build_prompt(instruction: &str, version: HunyuanOcrVersion) -> (prompt: String)
    ensures
        prompt@ == prompt_text(instruction@, version),
{
    let system_prefix = match version {
        HunyuanOcrVersion::V1 => "<｜hy_place▁holder▁no▁3｜>",
        HunyuanOcrVersion::V1_5 => "",
    };
    let mut prompt = "<｜hy_begin▁of▁sentence｜>".to_owned();
    prompt.append(system_prefix);
    prompt.append(
        "<｜hy_place▁holder▁no▁100｜><｜hy_place▁holder▁no▁102｜><｜hy_place▁holder▁no▁101｜>",
    );
    prompt.append(instruction);
    prompt.append("<｜hy_User｜>");
    prompt
}

/// The instruction for a recognition task.
pub open spec fn task_prompt(task: RecognitionTask) -> Seq<char> {
    match task {
        RecognitionTask::Ocr => "Detect and recognize text in the image, and output the text coordinates in a formatted manner."@,
        RecognitionTask::Table => "Parse the table in the image into HTML."@,
        RecognitionTask::Formula => "Identify the formula in the image and represent it using LaTeX format."@,
        RecognitionTask::Chart => "Parse the chart in the image; use Mermaid format for flowcharts and Markdown for other charts."@,
    }
}

/// The instruction for a recognition task.
pub fn prompt(task: RecognitionTask) -> (s: &'static str)
    ensures
        s@ == task_prompt(task),
{
    match task {
        RecognitionTask::Ocr => "Detect and recognize text in the image, and output the text coordinates in a formatted manner.",
        RecognitionTask::Table => "Parse the table in the image into HTML.",
        RecognitionTask::Formula => "Identify the formula in the image and represent it using LaTeX format.",
        RecognitionTask::Chart => "Parse the chart in the image; use Mermaid format for flowcharts and Markdown for other charts.",
    }
}

/// Checks that a request has one instruction for each image.
pub fn validate_counts(images: usize, instructions: usize) -> (r: Result<(), Error>)
    ensures
        error::verdict(
            if images > 0 && images != instructions {
                Some(
                    ErrorView::InvalidInput(
                        "HunyuanOCR: images count ("@ + text::dec(images as nat)
                            + ") != instructions count ("@ + text::dec(instructions as nat) + ")"@,
                    ),
                )
            } else {
                None
            },
            r,
        ),
{
    if images > 0 && images != instructions {
        return Err(
            Message::new("HunyuanOCR: images count (").num(images as u64).text(
                ") != instructions count (",
            ).num(instructions as u64).text(")").invalid_input(),
        );
    }
    Ok(())
}

/// `n`, but no more than a length can be.
pub open spec fn capped(n: int) -> int {
    if n <= usize::MAX {
        n
    } else {
        usize::MAX as int
    }
}

/// The number of tokens of an image whose merged grid has `rows` rows and `cols`
/// columns: a line break closes each row, and two markers enclose the image.
pub open spec fn image_token_count(rows: usize, cols: usize) -> int {
    capped(capped(rows * capped(cols + 1)) + 2)
}

/// Counts the tokens of an image.
pub fn count_image_tokens(rows: usize, cols: usize) -> (n: usize)
    ensures
        n == image_token_count(rows, cols),
{
    let width: usize = cols.saturating_add(1);
    let area: usize = match rows.checked_mul(width) {
        Some(area) => area,
        None => usize::MAX,
    };
    area.saturating_add(2)
}

/// The number of image tokens of an image that is resized to the given height and
/// width, or nothing where it cannot be had. Pages with equal counts are batched
/// without padding.
pub fn recognition_batch_key(resized: Option<(u32, u32)>, patch_size: usize, merge_size: usize)
    -> (key: Option<u64>)
    requires
        patch_size * merge_size <= u32::MAX,
    ensures
        ({
            let factor = patch_size * merge_size;
            match resized {
                Some((height, width)) if factor > 0 => {
                    let rows = height as int / factor;
                    let cols = width as int / factor;
                    if cols < usize::MAX && rows * (cols + 1) + 2 <= usize::MAX {
                        key == Some((rows * (cols + 1) + 2) as u64)
                    } else {
                        key is None
                    }
                },
                _ => key is None,
            }
        }),
{
    let factor: u32 = (patch_size * merge_size) as u32;
    match resized {
        Some((height, width)) => {
            if factor == 0 {
                return None;
            }
            let rows: usize = (height / factor) as usize;
            let cols: usize = (width / factor) as usize;
            proof {
                assert(0 <= rows * (cols + 1)) by (nonlinear_arith);
            }
            let width: usize = match cols.checked_add(1) {
                Some(width) => width,
                None => return None,
            };
            let area: usize = match rows.checked_mul(width) {
                Some(area) => area,
                None => return None,
            };
            match area.checked_add(2) {
                Some(n) => Some(n as u64),
                None => None,
            }
        },
        None => None,
    }
}

/// An image placeholder stands at `i`: start marker, image token, end marker.
pub open spec fn placeholder_at(ids: Seq<u32>, cfg: HunyuanOcrConfig, i: int) -> bool {
    &&& 0 <= i
    &&& i + 2 < ids.len()
    &&& ids[i] == cfg.image_start_token_id
    &&& ids[i + 1] == cfg.image_token_id
    &&& ids[i + 2] == cfg.image_end_token_id
}

/// The place of the first image placeholder.
pub open spec fn is_first_placeholder(ids: Seq<u32>, cfg: HunyuanOcrConfig, i: int) -> bool {
    placeholder_at(ids, cfg, i) && forall|j: int| 0 <= j < i ==> !#[trigger] placeholder_at(ids, cfg, j)
}

/// The prompt with the image token behind place `i` written `n` times.
pub open spec fn expanded(ids: Seq<u32>, i: int, token: u32, n: nat) -> Seq<u32> {
    ids.take(i + 1) + Seq::new(n, |k: int| token) + ids.skip(i + 2)
}

/// Replaces the image token of the first placeholder by as many as the image needs.
pub fn expand_image_tokens_in_place(
    input_ids: &mut Vec<u32>,
    cfg: &HunyuanOcrConfig,
    rows: usize,
    cols: usize,
) -> (r: Result<(), Error>)
    ensures
        match r {
            Ok(_) => exists|i: int| {
                &&& #[trigger] is_first_placeholder(old(input_ids)@, *cfg, i)
                &&& final(input_ids)@ == expanded(
                    old(input_ids)@,
                    i,
                    cfg.image_token_id,
                    image_token_count(rows, cols) as nat,
                )
            },
            Err(e) => {
                &&& forall|i: int| !#[trigger] placeholder_at(old(input_ids)@, *cfg, i)
                &&& final(input_ids)@ == old(input_ids)@
                &&& e@ == ErrorView::InvalidInput(
                    "HunyuanOCR: prompt is missing image placeholder tokens"@,
                )
            },
        },
{
    let ghost ids0 = input_ids@;
    let n: usize = count_image_tokens(rows, cols);
    let mut i: usize = 0;
    while i < input_ids.len() && input_ids.len() - i > 2
        invariant
            i <= input_ids.len(),
            input_ids@ == ids0,
            n == image_token_count(rows, cols),
            ids0 == old(input_ids)@,
            forall|j: int| 0 <= j < i ==> !#[trigger] placeholder_at(ids0, *cfg, j),
        decreases input_ids.len() - i,
    {
        if input_ids[i] == cfg.image_start_token_id && input_ids[i + 1] == cfg.image_token_id
            && input_ids[i + 2] == cfg.image_end_token_id {
            proof {
                assert(placeholder_at(ids0, *cfg, i as int));
                assert(is_first_placeholder(ids0, *cfg, i as int));
            }
            let mut tail = input_ids.split_off(i + 2);
            input_ids.truncate(i + 1);
            let ghost head = input_ids@;
            let mut k: usize = 0;
            while k < n
                invariant
                    k <= n,
                    input_ids@ =~= head + Seq::new(k as nat, |m: int| cfg.image_token_id),
                decreases n - k,
            {
                input_ids.push(cfg.image_token_id);
                k = k + 1;
            }
            input_ids.append(&mut tail);
            proof {
                assert(input_ids@ =~= expanded(ids0, i as int, cfg.image_token_id, n as nat));
            }
            return Ok(());
        }
        i = i + 1;
    }
    proof {
        assert forall|j: int| !#[trigger] placeholder_at(ids0, *cfg, j) by {}
    }
    Err(Error::invalid_input("HunyuanOCR: prompt is missing image placeholder tokens"))
}

/// The places of the markers around the image: the first start marker and the first
/// end marker behind it.
pub open spec fn span_of(ids: Seq<u32>, cfg: HunyuanOcrConfig) -> Result<(int, int), ErrorView> {
    match tokens::index_from(ids, cfg.image_start_token_id, 0) {
        None => Err(
            ErrorView::InvalidInput("HunyuanOCR: image_start_token_id not found in input_ids"@),
        ),
        Some(start) => match tokens::index_from(ids, cfg.image_end_token_id, start + 1) {
            None => Err(
                ErrorView::InvalidInput(
                    "HunyuanOCR: image_end_token_id not found after image_start_token_id"@,
                ),
            ),
            Some(end) => Ok((start, end)),
        },
    }
}

/// Finds the markers around the image.
pub fn find_image_span(input_ids: &Vec<u32>, cfg: &HunyuanOcrConfig) -> (r: Result<
    (usize, usize),
    Error,
>)
    ensures
        match (r, span_of(input_ids@, *cfg)) {
            (Ok((start, end)), Ok(span)) => {
                &&& span == (start as int, end as int)
                &&& start < end < input_ids.len()
            },
            (Err(e), Err(p)) => e@ == p,
            _ => false,
        },
{
    let start: usize = match tokens::position_from(input_ids, cfg.image_start_token_id, 0) {
        Some(start) => start,
        None => return Err(
            Error::invalid_input("HunyuanOCR: image_start_token_id not found in input_ids"),
        ),
    };
    proof {
        assert(start < input_ids.len());
    }
    match tokens::position_from(input_ids, cfg.image_end_token_id, start + 1) {
        Some(end) => Ok((start, end)),
        None => Err(
            Error::invalid_input(
                "HunyuanOCR: image_end_token_id not found after image_start_token_id",
            ),
        ),
    }
}

/// The first thing wrong with a run of image tokens between two markers.
pub open spec fn run_problem(start: int, end: int, embeds: usize) -> Option<ErrorView> {
    if end - start - 1 != embeds {
        Some(
            ErrorView::InvalidInput(
                "HunyuanOCR: image-token run length mismatch: tokens="@ + text::dec(
                    (end - start - 1) as nat,
                ) + " embeds="@ + text::dec(embeds as nat),
            ),
        )
    } else {
        None
    }
}

/// Checks that the image tokens are as many as the image embeddings.
pub fn validate_image_run(start: usize, end: usize, embeds: usize) -> (r: Result<(), Error>)
    requires
        start < end,
    ensures
        error::verdict(run_problem(start as int, end as int, embeds), r),
{
    let inner: usize = end - start - 1;
    if inner != embeds {
        return Err(
            Message::new("HunyuanOCR: image-token run length mismatch: tokens=").num(
                inner as u64,
            ).text(" embeds=").num(embeds as u64).invalid_input(),
        );
    }
    Ok(())
}

/// The first thing wrong with a merged grid.
pub open spec fn grid_problem(vision: (usize, usize), grid: (usize, usize, usize)) -> Option<
    ErrorView,
> {
    if vision.0 != grid.1 || vision.1 != grid.2 {
        Some(
            ErrorView::InvalidInput(
                "HunyuanOCR: merged grid mismatch: vision=("@ + text::dec(vision.0 as nat) + ", "@
                    + text::dec(vision.1 as nat) + ") preprocessor="@ + text::dec_triple(grid),
            ),
        )
    } else {
        None
    }
}

/// Checks that the vision model and the preprocessor agree on the merged grid.
pub fn validate_merged_grid(vision: (usize, usize), grid: (usize, usize, usize)) -> (r: Result<
    (),
    Error,
>)
    ensures
        error::verdict(grid_problem(vision, grid), r),
{
    if vision.0 != grid.1 || vision.1 != grid.2 {
        return Err(
            Message::new("HunyuanOCR: merged grid mismatch: vision=(").num(vision.0 as u64).text(
                ", ",
            ).num(vision.1 as u64).text(") preprocessor=").triple(grid).invalid_input(),
        );
    }
    Ok(())
}

/// Positions along the four axes, one entry for each token.
#[derive(Debug)]
pub struct PositionIds {
    pub sequence: Vec<i64>,
    pub width: Vec<i64>,
    pub height: Vec<i64>,
    pub time: Vec<i64>,
}

/// The entries of token `i` where the grid of the image begins at `start` and has
/// lines of `line` tokens, `area` tokens in all: the tokens of the grid have its
/// coordinates, all others their place on every axis.
pub open spec fn axes_at(i: int, start: int, line: int, area: int) -> (int, int, int, int) {
    if start <= i < start + area {
        (i, (i - start) % line, (i - start) / line, 0)
    } else {
        (i, i, i, i)
    }
}

impl PositionIds {
    /// The entries of token `i`.
    pub open spec fn at(self, i: int) -> (int, int, int, int) {
        (
            self.sequence@[i] as int,
            self.width@[i] as int,
            self.height@[i] as int,
            self.time@[i] as int,
        )
    }

    /// There are entries for `n` tokens.
    pub open spec fn covers(self, n: nat) -> bool {
        &&& self.sequence@.len() == n
        &&& self.width@.len() == n
        &&& self.height@.len() == n
        &&& self.time@.len() == n
    }
}

/// The first thing wrong with a prompt: the grid of the image, which begins behind
/// its first image token, has to end in it.
pub open spec fn position_problem(
    ids: Seq<u32>,
    cfg: HunyuanOcrConfig,
    rows: usize,
    cols: usize,
) -> Option<ErrorView> {
    let area = (cols + 1) * rows;
    match tokens::index_from(ids, cfg.image_token_id, 0) {
        Some(first) if first + 1 + area > ids.len() => Some(
            ErrorView::InvalidInput(
                "HunyuanOCR: image span ("@ + text::dec(area as nat) + " positions starting at "@
                    + text::dec((first + 1) as nat) + ") exceeds input length "@ + text::dec(
                    ids.len(),
                ),
            ),
        ),
        _ => None,
    }
}

/// The positions of a prompt. The line breaks are the last column of the grid.
pub open spec fn are_positions(
    p: PositionIds,
    ids: Seq<u32>,
    cfg: HunyuanOcrConfig,
    rows: usize,
    cols: usize,
) -> bool {
    &&& p.covers(ids.len())
    &&& forall|i: int|
        0 <= i < ids.len() ==> #[trigger] p.at(i) == match tokens::index_from(
            ids,
            cfg.image_token_id,
            0,
        ) {
            Some(first) => axes_at(i, first + 1, cols + 1, (cols + 1) * rows),
            None => (i, i, i, i),
        }
}

/// The positions of a prompt whose image has the given merged grid.
pub fn build_position_ids(input_ids: &Vec<u32>, cfg: &HunyuanOcrConfig, rows: usize, cols: usize)
    -> (r: Result<PositionIds, Error>)
    requires
        input_ids.len() <= i64::MAX,
        cols < usize::MAX,
        (cols + 1) * rows + input_ids.len() <= usize::MAX,
    ensures
        match position_problem(input_ids@, *cfg, rows, cols) {
            Some(p) => r matches Err(e) && e@ == p,
            None => r matches Ok(p) && are_positions(p, input_ids@, *cfg, rows, cols),
        },
{
    let seq_len: usize = input_ids.len();
    let line: usize = cols + 1;
    proof {
        assert(0 <= (cols + 1) * rows) by (nonlinear_arith);
    }
    let area: usize = line * rows;
    let found = tokens::position_from(input_ids, cfg.image_token_id, 0);
    let mut start: usize = 0;
    let mut inside: usize = 0;
    if let Some(first) = found {
        start = first + 1;
        inside = area;
        if area > seq_len - start {
            return Err(
                Message::new("HunyuanOCR: image span (").num(area as u64).text(
                    " positions starting at ",
                ).num(start as u64).text(") exceeds input length ").num(
                    seq_len as u64,
                ).invalid_input(),
            );
        }
    }
    let mut sequence: Vec<i64> = Vec::new();
    let mut width: Vec<i64> = Vec::new();
    let mut height: Vec<i64> = Vec::new();
    let mut time: Vec<i64> = Vec::new();
    let mut i: usize = 0;
    while i < seq_len
        invariant
            i <= seq_len <= i64::MAX,
            line == cols + 1,
            line > 0,
            start + inside <= seq_len,
            sequence.len() == i,
            width.len() == i,
            height.len() == i,
            time.len() == i,
            forall|k: int|
                0 <= k < i ==> (
                    #[trigger] sequence[k] as int,
                    width[k] as int,
                    height[k] as int,
                    time[k] as int,
                ) == axes_at(k, start as int, line as int, inside as int),
        decreases seq_len - i,
    {
        sequence.push(i as i64);
        if start <= i && i < start + inside {
            let offset: usize = i - start;
            proof {
                assert(offset / line <= offset && offset % line <= offset) by (nonlinear_arith)
                    requires
                        line > 0,
                ;
            }
            width.push((offset % line) as i64);
            height.push((offset / line) as i64);
            time.push(0);
        } else {
            width.push(i as i64);
            height.push(i as i64);
            time.push(i as i64);
        }
        i = i + 1;
    }
    let p = PositionIds { sequence, width, height, time };
    proof {
        assert forall|k: int| 0 <= k < seq_len implies #[trigger] p.at(k) == axes_at(
            k,
            start as int,
            line as int,
            inside as int,
        ) by {
            assert(p.sequence[k] as int == p.at(k).0);
        }
    }
    Ok(p)
}

/// The token at `first` is the first image token of a prompt.
pub open spec fn is_first_image_token(ids: Seq<u32>, cfg: HunyuanOcrConfig, first: int) -> bool {
    &&& 0 <= first < ids.len()
    &&& ids[first] == cfg.image_token_id
    &&& forall|j: int| 0 <= j < first ==> #[trigger] ids[j] != cfg.image_token_id
}

/// The first place of a token is where it first stands.
proof fn lemma_first_place(ids: Seq<u32>, token: u32, from: int, first: int)
    requires
        0 <= from <= first < ids.len(),
        ids[first] == token,
        forall|j: int| from <= j < first ==> #[trigger] ids[j] != token,
    ensures
        tokens::index_from(ids, token, from) == Some(first),
    decreases first - from,
{
    if from < first {
        lemma_first_place(ids, token, from + 1, first);
    }
}

/// A token that stands nowhere has no first place.
proof fn lemma_no_place(ids: Seq<u32>, token: u32, from: int)
    requires
        0 <= from,
        forall|j: int| from <= j < ids.len() ==> #[trigger] ids[j] != token,
    ensures
        tokens::index_from(ids, token, from) is None,
    decreases ids.len() - from,
{
    if from < ids.len() {
        lemma_no_place(ids, token, from + 1);
    }
}

/// The tokens of an image are laid out row by row: the token of row `r` and column `c`
/// has width `c`, height `r` and time 0. The break behind a row counts as its last column.
pub proof fn law_grid_tokens_have_their_coordinates(
    p: PositionIds,
    ids: Seq<u32>,
    cfg: HunyuanOcrConfig,
    rows: usize,
    cols: usize,
    first: int,
    r: int,
    c: int,
)
    requires
        are_positions(p, ids, cfg, rows, cols),
        is_first_image_token(ids, cfg, first),
        first + 1 + (cols + 1) * rows <= ids.len(),
        0 <= r < rows,
        0 <= c <= cols,
    ensures
        ({
            let i = first + 1 + r * (cols + 1) + c;
            &&& first < i < first + 1 + (cols + 1) * rows
            &&& p.sequence@[i] == i
            &&& p.width@[i] == c
            &&& p.height@[i] == r
            &&& p.time@[i] == 0
        }),
{
    let line = cols + 1;
    let k = r * line + c;
    let i = first + 1 + k;
    lemma_first_place(ids, cfg.image_token_id, 0, first);
    assert(0 <= k < line * rows) by (nonlinear_arith)
        requires
            k == r * line + c,
            0 <= r,
            r + 1 <= rows,
            0 <= c < line,
    ;
    assert(r * line == line * r) by (nonlinear_arith);
    vstd::arithmetic::div_mod::lemma_fundamental_div_mod_converse(k, line, r, c);
    assert(p.at(i) == axes_at(i, first + 1, line, line * rows));
}

/// A token outside of the image has its own place on every axis.
pub proof fn law_other_tokens_have_their_place(
    p: PositionIds,
    ids: Seq<u32>,
    cfg: HunyuanOcrConfig,
    rows: usize,
    cols: usize,
    i: int,
)
    requires
        are_positions(p, ids, cfg, rows, cols),
        0 <= i < ids.len(),
        forall|first: int|
            #[trigger] is_first_image_token(ids, cfg, first) ==> !(first < i < first + 1 + (cols
                + 1) * rows),
    ensures
        p.sequence@.len() == ids.len(),
        p.width@.len() == ids.len(),
        p.height@.len() == ids.len(),
        p.time@.len() == ids.len(),
        p.sequence@[i] == i,
        p.width@[i] == i,
        p.height@[i] == i,
        p.time@[i] == i,
{
    lemma_image_token_place(ids, cfg);
    assert(p.at(i).0 == i);
}

/// The place that is looked up is that of the first image token.
proof fn lemma_image_token_place(ids: Seq<u32>, cfg: HunyuanOcrConfig)
    ensures
        match tokens::index_from(ids, cfg.image_token_id, 0) {
            Some(first) => is_first_image_token(ids, cfg, first),
            None => forall|j: int| 0 <= j < ids.len() ==> #[trigger] ids[j] != cfg.image_token_id,
        },
{
    if exists|j: int| 0 <= j < ids.len() && #[trigger] ids[j] == cfg.image_token_id {
        let j = choose|j: int| 0 <= j < ids.len() && #[trigger] ids[j] == cfg.image_token_id;
        let first = lemma_least_place(ids, cfg.image_token_id, j);
        lemma_first_place(ids, cfg.image_token_id, 0, first);
    } else {
        lemma_no_place(ids, cfg.image_token_id, 0);
    }
}

/// A token that stands somewhere stands somewhere first.
proof fn lemma_least_place(ids: Seq<u32>, token: u32, j: int) -> (first: int)
    requires
        0 <= j < ids.len(),
        ids[j] == token,
    ensures
        0 <= first <= j,
        ids[first] == token,
        forall|k: int| 0 <= k < first ==> #[trigger] ids[k] != token,
    decreases j,
{
    if exists|k: int| 0 <= k < j && #[trigger] ids[k] == token {
        let k = choose|k: int| 0 <= k < j && #[trigger] ids[k] == token;
        lemma_least_place(ids, token, k)
    } else {
        j
    }
}

/// A prompt is refused if and only if its image does not fit behind its first image
/// token; without an image token it is never refused.
pub proof fn law_prompt_has_to_hold_the_grid(
    ids: Seq<u32>,
    cfg: HunyuanOcrConfig,
    rows: usize,
    cols: usize,
)
    ensures
        position_problem(ids, cfg, rows, cols) is Some <==> exists|first: int| #[trigger]
            is_first_image_token(ids, cfg, first) && first + 1 + (cols + 1) * rows > ids.len(),
{
    lemma_image_token_place(ids, cfg);
    if let Some(first) = tokens::index_from(ids, cfg.image_token_id, 0) {
        assert forall|other: int| #[trigger] is_first_image_token(ids, cfg, other) implies other
            == first by {
            if other < first {
                assert(ids[other] != cfg.image_token_id);
            } else if first < other {
                assert(ids[first] != cfg.image_token_id);
            }
        }
    }
}

/// The markers around an expanded image enclose its tokens: reading the span back
/// gives as many tokens as were written.
pub proof fn law_span_of_expanded_prompt(
    ids: Seq<u32>,
    cfg: HunyuanOcrConfig,
    i: int,
    n: nat,
)
    requires
        is_first_placeholder(ids, cfg, i),
        tokens::first_at(ids, cfg.image_start_token_id, 0, i),
        cfg.image_token_id != cfg.image_start_token_id,
        cfg.image_token_id != cfg.image_end_token_id,
    ensures
        ({
            let out = expanded(ids, i, cfg.image_token_id, n);
            &&& tokens::first_at(out, cfg.image_start_token_id, 0, i)
            &&& tokens::first_at(out, cfg.image_end_token_id, i + 1, i + 1 + n)
            &&& out.len() == ids.len() - 1 + n
        }),
{
    let out = expanded(ids, i, cfg.image_token_id, n);
    assert(out[i] == ids[i]);
    assert forall|j: int| 0 <= j < i implies out[j] != cfg.image_start_token_id by {
        assert(out[j] == ids[j]);
    }
    assert forall|j: int| i + 1 <= j < i + 1 + n implies out[j] != cfg.image_end_token_id by {
        assert(out[j] == cfg.image_token_id);
    }
    assert(out[i + 1 + n] == ids[i + 2]);
}

/// An expanded prompt whose first image token is that of the placeholder has room
/// for the grid of its image.
pub proof fn law_expanded_prompt_holds_the_grid(
    ids: Seq<u32>,
    cfg: HunyuanOcrConfig,
    i: int,
    rows: usize,
    cols: usize,
)
    requires
        is_first_placeholder(ids, cfg, i),
        tokens::first_at(ids, cfg.image_token_id, 0, i + 1),
        (cols + 1) * rows + 2 <= usize::MAX,
        cols < usize::MAX,
    ensures
        ({
            let out = expanded(
                ids,
                i,
                cfg.image_token_id,
                image_token_count(rows, cols) as nat,
            );
            &&& tokens::first_at(out, cfg.image_token_id, 0, i + 1)
            &&& i + 2 + (cols + 1) * rows < out.len()
        }),
{
    assert(rows * (cols + 1) == (cols + 1) * rows) by (nonlinear_arith);
    assert(0 <= (cols + 1) * rows) by (nonlinear_arith);
    let n = image_token_count(rows, cols) as nat;
    let out = expanded(ids, i, cfg.image_token_id, n);
    assert(out[i + 1] == cfg.image_token_id);
    assert forall|j: int| 0 <= j < i + 1 implies out[j] != cfg.image_token_id by {
        assert(out[j] == ids[j]);
    }
}

/// Where the embeddings of an image go, and the positions of all tokens.
#[derive(Debug)]
pub struct ImagePlace {
    /// The place of the start marker.
    pub start: usize,
    /// The place of the end marker.
    pub end: usize,
    pub positions: PositionIds,
}

/// The first thing wrong with an image and the prompt that it is put into.
pub open spec fn placing_problem(
    ids: Seq<u32>,
    cfg: HunyuanOcrConfig,
    vision: (usize, usize),
    grid: (usize, usize, usize),
    embeds: usize,
) -> Option<ErrorView> {
    match grid_problem(vision, grid) {
        Some(p) => Some(p),
        None => match span_of(ids, cfg) {
            Err(p) => Some(p),
            Ok((start, end)) => match run_problem(start, end, embeds) {
                Some(p) => Some(p),
                None => position_problem(ids, cfg, grid.1, grid.2),
            },
        },
    }
}

/// Places the embeddings of an image in its prompt. `vision` is the merged grid that
/// the vision model tells, `grid` that of the preprocessor.
pub fn place_image(
    input_ids: &Vec<u32>,
    cfg: &HunyuanOcrConfig,
    vision: (usize, usize),
    grid: (usize, usize, usize),
    embeds: usize,
) -> (r: Result<ImagePlace, Error>)
    requires
        input_ids.len() <= i64::MAX,
        grid.2 < usize::MAX,
        (grid.2 + 1) * grid.1 + input_ids.len() <= usize::MAX,
    ensures
        match placing_problem(input_ids@, *cfg, vision, grid, embeds) {
            Some(p) => r matches Err(e) && e@ == p,
            None => r matches Ok(place) && {
                &&& span_of(input_ids@, *cfg) == Ok::<(int, int), ErrorView>(
                    (place.start as int, place.end as int),
                )
                &&& place.start + 1 + embeds == place.end
                &&& place.end < input_ids.len()
                &&& are_positions(place.positions, input_ids@, *cfg, grid.1, grid.2)
            },
        },
{
    if let Err(e) = validate_merged_grid(vision, grid) {
        return Err(e);
    }
    let (start, end): (usize, usize) = match find_image_span(input_ids, cfg) {
        Ok(span) => span,
        Err(e) => return Err(e),
    };
    if let Err(e) = validate_image_run(start, end, embeds) {
        return Err(e);
    }
    match build_position_ids(input_ids, cfg, grid.1, grid.2) {
        Ok(positions) => Ok(ImagePlace { start, end, positions }),
        Err(e) => Err(e),
    }
}

/// The error for ids that the tokenizer cannot decode.
pub open spec fn decode_failure(message: Seq<char>) -> ErrorView {
    ErrorView::InvalidInput("HunyuanOCR: tokenizer decode failed: "@ + message)
}

/// Reports the outcome of decoding.
pub fn finish_decode(decoded: Result<String, String>) -> (r: Result<String, Error>)
    ensures
        match (decoded, r) {
            (Ok(s), Ok(out)) => out@ == s@,
            (Err(m), Err(e)) => e@ == decode_failure(m@),
            _ => false,
        },
{
    match decoded {
        Ok(s) => Ok(s),
        Err(m) => Err(
            Message::new("HunyuanOCR: tokenizer decode failed: ").text(m.as_str()).invalid_input(),
        ),
    }
}

/// The text of a page as the model wrote it.
pub fn decode_tokens_raw(tokenizer: &Tokenizer, ids: &Vec<u32>) -> (r: Result<String, Error>)
    requires
        tokenizer::decodes(*tokenizer),
    ensures
        match tokenizer::decodings(*tokenizer)[(ids@, true)] {
            Ok(s) => r matches Ok(out) && out@ == s,
            Err(m) => r matches Err(e) && e@ == decode_failure(m),
        },
{
    finish_decode(tokenizer::decode(tokenizer, ids, true))
}

/// The trimmed text of a page.
pub fn decode_tokens(tokenizer: &Tokenizer, ids: &Vec<u32>) -> (r: Result<String, Error>)
    requires
        tokenizer::decodes(*tokenizer),
    ensures
        match tokenizer::decodings(*tokenizer)[(ids@, true)] {
            Ok(s) => r matches Ok(out) && out@ == text::trimmed(s),
            Err(m) => r matches Err(e) && e@ == decode_failure(m),
        },
{
    match decode_tokens_raw(tokenizer, ids) {
        Ok(s) => Ok(text::trim(s.as_str())),
        Err(e) => Err(e),
    }
}

/// The error for a prompt that the tokenizer rejects.
pub open spec fn encode_failure(message: Seq<char>) -> ErrorView {
    ErrorView::InvalidInput("HunyuanOCR: tokenizer encode failed: "@ + message)
}

/// What becomes of an attempt to encode a prompt.
pub open spec fn after_encoding(outcome: Result<Seq<u32>, Seq<char>>) -> Result<Seq<u32>, ErrorView> {
    match outcome {
        Ok(ids) => Ok(ids),
        Err(m) => Err(encode_failure(m)),
    }
}

/// Reports the outcome of encoding a prompt.
pub fn finish_encode(encoded: Result<Vec<u32>, String>) -> (r: Result<Vec<u32>, Error>)
    ensures
        tokenizer::gives(r, after_encoding(tokenizer::outcome(encoded))),
{
    match encoded {
        Ok(ids) => Ok(ids),
        Err(m) => Err(
            Message::new("HunyuanOCR: tokenizer encode failed: ").text(m.as_str()).invalid_input(),
        ),
    }
}

/// Encodes a prompt. Which of the possible outcomes comes is up to the tokenizer.
pub fn encode_prompt(tokenizer: &Tokenizer, prompt: &str) -> (r: Result<Vec<u32>, Error>)
    requires
        tokenizer::encodes(*tokenizer),
    ensures
        exists|outcome: Result<Seq<u32>, Seq<char>>| #[trigger]
            tokenizer::encodings(*tokenizer)[prompt@].contains(outcome) && tokenizer::gives(
                r,
                after_encoding(outcome),
            ),
{
    finish_encode(tokenizer::encode(tokenizer, prompt))
}

/// What becomes of the ids of a prompt: the image token of its placeholder is
/// written once for each token of the image.
pub open spec fn is_prompt(
    outcome: Result<Seq<u32>, Seq<char>>,
    cfg: HunyuanOcrConfig,
    rows: usize,
    cols: usize,
    r: Result<Vec<u32>, Error>,
) -> bool {
    match (outcome, r) {
        (Ok(ids), Ok(out)) => exists|i: int| #[trigger]
            is_first_placeholder(ids, cfg, i) && out@ == expanded(
                ids,
                i,
                cfg.image_token_id,
                image_token_count(rows, cols) as nat,
            ),
        (Ok(ids), Err(e)) => {
            &&& forall|i: int| !#[trigger] placeholder_at(ids, cfg, i)
            &&& e@ == ErrorView::InvalidInput(
                "HunyuanOCR: prompt is missing image placeholder tokens"@,
            )
        },
        (Err(m), Err(e)) => e@ == encode_failure(m),
        (Err(m), Ok(_)) => false,
    }
}

/// Encodes the prompt for an image whose merged grid has `rows` rows and `cols`
/// columns.
pub fn prompt_ids(
    tokenizer: &Tokenizer,
    instruction: &str,
    version: HunyuanOcrVersion,
    cfg: &HunyuanOcrConfig,
    rows: usize,
    cols: usize,
) -> (r: Result<Vec<u32>, Error>)
    requires
        tokenizer::encodes(*tokenizer),
    ensures
        exists|outcome: Result<Seq<u32>, Seq<char>>| #[trigger]
            tokenizer::encodings(*tokenizer)[prompt_text(instruction@, version)].contains(outcome)
                && is_prompt(outcome, *cfg, rows, cols, r),
{
    let prompt = build_prompt(instruction, version);
    match encode_prompt(tokenizer, prompt.as_str()) {
        Ok(mut ids) => match expand_image_tokens_in_place(&mut ids, cfg, rows, cols) {
            Ok(()) => Ok(ids),
            Err(e) => Err(e),
        },
        Err(e) => Err(e),
    }
}

/// An image of `rows` rows and `cols` columns takes a token for each place, one for
/// the break behind each row and two for its ends, unless that is more than can be
/// counted.
pub proof fn law_image_takes_its_places_breaks_and_ends(rows: usize, cols: usize)
    ensures
        rows * cols + rows + 2 <= usize::MAX ==> image_token_count(rows, cols) == rows * cols + rows
            + 2,
        rows * cols + rows + 2 > usize::MAX ==> image_token_count(rows, cols) == usize::MAX,
{
    assert(rows * (cols + 1) == rows * cols + rows) by (nonlinear_arith);
    assert(rows * cols >= 0) by (nonlinear_arith);
    if cols == usize::MAX {
        if rows > 0 {
            assert(rows * cols >= cols) by (nonlinear_arith)
                requires
                    rows > 0,
            ;
        } else {
            assert(rows * cols == 0) by (nonlinear_arith)
                requires
                    rows == 0,
            ;
            assert(rows * capped(cols + 1) == 0) by (nonlinear_arith)
                requires
                    rows == 0,
            ;
        }
    }
}

/// Expanding a prompt writes the image token of the placeholder `n` times; every other
/// token stays, in its order.
pub proof fn law_expanding_touches_the_image_alone(ids: Seq<u32>, cfg: HunyuanOcrConfig, i: int, n: nat)
    requires
        0 <= i,
        i + 2 < ids.len(),
    ensures
        ({
            let out = expanded(ids, i, cfg.image_token_id, n);
            &&& out.len() == ids.len() - 1 + n
            &&& forall|j: int| 0 <= j <= i ==> #[trigger] out[j] == ids[j]
            &&& forall|j: int| i < j <= i + n ==> #[trigger] out[j] == cfg.image_token_id
            &&& forall|j: int| i + n < j < out.len() ==> #[trigger] out[j] == ids[j - n + 1]
        }),
{
}

/// The placeholder of a prompt is the first start marker that an image token and an
/// end marker follow.
pub proof fn law_placeholder_is_the_first_marked_image_token(
    ids: Seq<u32>,
    cfg: HunyuanOcrConfig,
    i: int,
    j: int,
)
    requires
        is_first_placeholder(ids, cfg, i),
        0 <= j,
        j + 2 < ids.len(),
        ids[j] == cfg.image_start_token_id,
        ids[j + 1] == cfg.image_token_id,
        ids[j + 2] == cfg.image_end_token_id,
    ensures
        0 <= i <= j,
        ids[i] == cfg.image_start_token_id,
        ids[i + 1] == cfg.image_token_id,
        ids[i + 2] == cfg.image_end_token_id,
{
    assert(placeholder_at(ids, cfg, j));
}

/// The span of an image reaches from the first start marker to the first end marker
/// behind it; a prompt without the one or the other has no span.
pub proof fn law_span_reaches_from_marker_to_marker(ids: Seq<u32>, cfg: HunyuanOcrConfig)
    ensures
        match span_of(ids, cfg) {
            Ok((start, end)) => {
                &&& 0 <= start < end < ids.len()
                &&& ids[start] == cfg.image_start_token_id
                &&& ids[end] == cfg.image_end_token_id
                &&& forall|j: int| 0 <= j < start ==> #[trigger] ids[j] != cfg.image_start_token_id
                &&& forall|j: int| start < j < end ==> #[trigger] ids[j] != cfg.image_end_token_id
            },
            Err(_) => forall|s: int, e: int|
                0 <= s < e < ids.len() ==> #[trigger] ids[s] != cfg.image_start_token_id
                    || #[trigger] ids[e] != cfg.image_end_token_id || exists|j: int|
                    0 <= j < s && #[trigger] ids[j] == cfg.image_start_token_id,
        },
{
    tokens::law_lookup_stops_at_the_first_place(ids, cfg.image_start_token_id, 0);
    if let Some(start) = tokens::index_from(ids, cfg.image_start_token_id, 0) {
        tokens::law_lookup_stops_at_the_first_place(ids, cfg.image_end_token_id, start + 1);
    }
}

/// Where an image is put into a prompt, its embeddings fill the room between the
/// markers, both sides tell the same grid, and the grid ends within the prompt.
pub proof fn law_placed_image_fills_its_span(
    ids: Seq<u32>,
    cfg: HunyuanOcrConfig,
    vision: (usize, usize),
    grid: (usize, usize, usize),
    embeds: usize,
)
    ensures
        placing_problem(ids, cfg, vision, grid, embeds) is None <==> {
            &&& vision == (grid.1, grid.2)
            &&& span_of(ids, cfg) matches Ok((start, end)) && end == start + 1 + embeds
            &&& forall|first: int| #[trigger]
                is_first_image_token(ids, cfg, first) ==> first + 1 + (grid.2 + 1) * grid.1
                    <= ids.len()
        },
{
    lemma_image_token_place(ids, cfg);
    if let Some(first) = tokens::index_from(ids, cfg.image_token_id, 0) {
        assert(is_first_image_token(ids, cfg, first));
        assert forall|other: int| #[trigger] is_first_image_token(ids, cfg, other) implies other
            == first by {
            if other < first {
                assert(ids[other] != cfg.image_token_id);
            } else if first < other {
                assert(ids[first] != cfg.image_token_id);
            }
        }
    }
}

/// The prompts of both generations hold the instruction behind the markers of the
/// image; the older one has a marker more, right behind the beginning.
pub proof fn law_prompt_holds_its_instruction(instruction: Seq<char>)
    ensures
        prompt_text(instruction, HunyuanOcrVersion::V1_5) == "<｜hy_begin▁of▁sentence｜>"@ + (
        "<｜hy_place▁holder▁no▁100｜><｜hy_place▁holder▁no▁102｜><｜hy_place▁holder▁no▁101｜>"@
            + instruction + "<｜hy_User｜>"@),
        prompt_text(instruction, HunyuanOcrVersion::V1) == "<｜hy_begin▁of▁sentence｜>"@ + (
        "<｜hy_place▁holder▁no▁3｜>"@
            + "<｜hy_place▁holder▁no▁100｜><｜hy_place▁holder▁no▁102｜><｜hy_place▁holder▁no▁101｜>"@
            + instruction + "<｜hy_User｜>"@),
{
    reveal_strlit("");
    let markers =
        "<｜hy_place▁holder▁no▁100｜><｜hy_place▁holder▁no▁102｜><｜hy_place▁holder▁no▁101｜>"@;
    assert(prompt_text(instruction, HunyuanOcrVersion::V1_5) =~= "<｜hy_begin▁of▁sentence｜>"@ + (
    markers + instruction + "<｜hy_User｜>"@));
    assert(prompt_text(instruction, HunyuanOcrVersion::V1) =~= "<｜hy_begin▁of▁sentence｜>"@ + (
    "<｜hy_place▁holder▁no▁3｜>"@ + markers + instruction + "<｜hy_User｜>"@));
}

/// Whatever is wrong with a prompt and its image is told as a fault of the request.
pub proof fn law_faults_are_of_the_request(
    ids: Seq<u32>,
    cfg: HunyuanOcrConfig,
    vision: (usize, usize),
    grid: (usize, usize, usize),
    embeds: usize,
)
    ensures
        placing_problem(ids, cfg, vision, grid, embeds) matches Some(e) ==> e is InvalidInput,
        position_problem(ids, cfg, grid.1, grid.2) matches Some(e) ==> e is InvalidInput,
        span_of(ids, cfg) matches Err(e) ==> e is InvalidInput,
{
}

/// Each recognition task has its instruction.
pub proof fn law_tasks_have_their_instructions()
    ensures
        task_prompt(RecognitionTask::Ocr)
            == "Detect and recognize text in the image, and output the text coordinates in a formatted manner."@,
        task_prompt(RecognitionTask::Table) == "Parse the table in the image into HTML."@,
        task_prompt(RecognitionTask::Formula)
            == "Identify the formula in the image and represent it using LaTeX format."@,
        task_prompt(RecognitionTask::Chart)
            == "Parse the chart in the image; use Mermaid format for flowcharts and Markdown for other charts."@,
{
}

/// A prompt that is refused has no placeholder.
proof fn lemma_refused_prompt(
    ids: Seq<u32>,
    cfg: HunyuanOcrConfig,
    rows: usize,
    cols: usize,
    r: Result<Vec<u32>, Error>,
)
    requires
        is_prompt(Ok(ids), cfg, rows, cols, r),
        r is Err,
    ensures
        forall|k: int| !#[trigger] placeholder_at(ids, cfg, k),
{
    let outcome = Ok::<Seq<u32>, Seq<char>>(ids);
    match (outcome, r) {
        (Ok(seen), Err(e)) => {
            assert(seen == ids);
        },
        _ => {},
    }
}

/// What comes of an encoded prompt: its first placeholder filled with a token for each
/// place, break and end of the image, and the rest as it was. Without a placeholder the
/// prompt is refused, and an error of the tokenizer is handed on in words.
pub proof fn law_prompt_is_the_encoded_one_filled(
    ids: Seq<u32>,
    message: Seq<char>,
    cfg: HunyuanOcrConfig,
    rows: usize,
    cols: usize,
    r: Result<Vec<u32>, Error>,
    i: int,
)
    requires
        rows * cols + rows + 2 <= usize::MAX,
    ensures
        is_prompt(Ok(ids), cfg, rows, cols, r) && is_first_placeholder(ids, cfg, i) ==> (
        r matches Ok(out) && {
            let n = rows * cols + rows + 2;
            &&& out@.len() == ids.len() - 1 + n
            &&& forall|j: int| 0 <= j <= i ==> #[trigger] out@[j] == ids[j]
            &&& forall|j: int| i < j <= i + n ==> #[trigger] out@[j] == cfg.image_token_id
            &&& forall|j: int| i + n < j < out@.len() ==> #[trigger] out@[j] == ids[j - n + 1]
        }),
        is_prompt(Ok(ids), cfg, rows, cols, r) && r is Err ==> forall|j: int|
            0 <= j && j + 2 < ids.len() ==> #[trigger] ids[j] != cfg.image_start_token_id || ids[j
                + 1] != cfg.image_token_id || ids[j + 2] != cfg.image_end_token_id,
        is_prompt(Err(message), cfg, rows, cols, r) ==> (r matches Err(e) && e@
            == ErrorView::InvalidInput("HunyuanOCR: tokenizer encode failed: "@ + message)),
{
    law_image_takes_its_places_breaks_and_ends(rows, cols);
    if is_prompt(Ok(ids), cfg, rows, cols, r) && r is Err {
        lemma_refused_prompt(ids, cfg, rows, cols, r);
        assert forall|j: int| 0 <= j && j + 2 < ids.len() implies #[trigger] ids[j]
            != cfg.image_start_token_id || ids[j + 1] != cfg.image_token_id || ids[j + 2]
            != cfg.image_end_token_id by {
            assert(!placeholder_at(ids, cfg, j));
        }
    }
    if is_prompt(Ok(ids), cfg, rows, cols, r) && is_first_placeholder(ids, cfg, i) {
        assert(placeholder_at(ids, cfg, i));
        if let Ok(out) = r {
            let k = choose|k: int| #[trigger]
                is_first_placeholder(ids, cfg, k) && out@ == expanded(
                    ids,
                    k,
                    cfg.image_token_id,
                    image_token_count(rows, cols) as nat,
                );
            if k < i {
                assert(!placeholder_at(ids, cfg, k));
            }
            if i < k {
                assert(!placeholder_at(ids, cfg, i));
            }
            law_expanding_touches_the_image_alone(
                ids,
                cfg,
                i,
                image_token_count(rows, cols) as nat,
            );
        }
    }
}

/// A run of image tokens has to be as long as there are embeddings; the complaint about
/// any other tells both lengths.
pub proof fn law_complaint_tells_both_lengths(start: int, tokens: nat, embeds: usize)
    ensures
        tokens == embeds ==> run_problem(start, start + 1 + tokens, embeds) is None,
        tokens != embeds ==> run_problem(start, start + 1 + tokens, embeds) == Some(
            ErrorView::InvalidInput(
                "HunyuanOCR: image-token run length mismatch: tokens="@ + text::dec(tokens)
                    + " embeds="@ + text::dec(embeds as nat),
            ),
        ),
{
}

} // verus!
