//! Autoregressive decoding of a batch of pages.
use super::history::{self, RepetitionHistory};
use crate::speculative::{self, Decoded};
use crate::tokens;
use vstd::prelude::*;

verus! {

/// One page of a batch.
#[derive(Debug)]
pub struct Row {
    pub generated: Vec<u32>,
    pub history: RepetitionHistory,
    pub finished: bool,
    /// The position of the next token.
    pub position: usize,
}

/// A [`Row`] as a mathematical value.
pub struct RowView {
    pub decoded: Decoded,
    pub history: Seq<u32>,
    pub vocab: nat,
    pub position: nat,
}

impl View for Row {
    type V = RowView;

    open spec fn view(&self) -> RowView {
        RowView {
            decoded: Decoded { tokens: self.generated@, stopped: self.finished },
            history: self.history@,
            vocab: self.history.vocab(),
            position: self.position as nat,
        }
    }
}

/// The row after `token` was chosen for it.
pub open spec fn step_row(row: RowView, token: u32, stops: Seq<u32>) -> RowView {
    if row.decoded.stopped {
        row
    } else if stops.contains(token) {
        RowView { decoded: speculative::take_token(row.decoded, token, stops), ..row }
    } else {
        RowView {
            decoded: speculative::take_token(row.decoded, token, stops),
            history: history::remember(row.history, token, row.vocab),
            position: row.position + 1,
            ..row
        }
    }
}

/// A row that decodes behind `prompt`: its position follows what was generated,
/// and its history is that of the prompt and what was generated.
pub open spec fn row_follows(row: RowView, prompt: Seq<u32>) -> bool {
    &&& row.position == prompt.len() + row.decoded.tokens.len()
    &&& row.history == history::first_occurrences(prompt + row.decoded.tokens, row.vocab)
}

/// The row before anything was chosen.
pub open spec fn start_row(prompt: Seq<u32>, vocab: nat) -> RowView {
    RowView {
        decoded: Decoded { tokens: Seq::empty(), stopped: false },
        history: history::first_occurrences(prompt, vocab),
        vocab,
        position: prompt.len(),
    }
}

/// The length of the longest of the first `n` prompts.
pub open spec fn longest(prompts: Seq<Vec<u32>>, n: nat) -> nat
    decreases n,
{
    if n == 0 {
        0
    } else {
        let before = longest(prompts, (n - 1) as nat);
        if prompts[n - 1]@.len() > before {
            prompts[n - 1]@.len()
        } else {
            before
        }
    }
}

/// No prompt is longer than the longest.
pub proof fn lemma_longest(prompts: Seq<Vec<u32>>, n: nat, i: int)
    requires
        0 <= i < n <= prompts.len(),
    ensures
        prompts[i]@.len() <= longest(prompts, n),
    decreases n,
{
    if i < n - 1 {
        lemma_longest(prompts, (n - 1) as nat, i);
    }
}

/// A batch of pages that are decoded together.
#[derive(Debug)]
pub struct BatchDecoder {
    pub rows: Vec<Row>,
    /// How far each prompt was padded on its left.
    pub pad_lens: Vec<usize>,
    /// Positions in the K/V cache, padding and all.
    pub kv_len: usize,
    pub steps: usize,
    pub max_new_tokens: usize,
}

impl BatchDecoder {
    /// Every row's history is sound.
    pub open spec fn wf(self) -> bool {
        &&& self.pad_lens@.len() == self.rows@.len()
        &&& self.steps <= self.max_new_tokens
        &&& forall|i: int| 0 <= i < self.rows@.len() ==> (#[trigger] self.rows@[i]).history.wf()
    }

    /// All rows met a stop token.
    pub open spec fn all_finished(self) -> bool {
        forall|i: int| 0 <= i < self.rows@.len() ==> (#[trigger] self.rows@[i]).finished
    }

    /// A batch whose prompts have been processed.
    pub fn new(prompts: &Vec<Vec<u32>>, vocab_size: usize, max_new_tokens: usize) -> (b: BatchDecoder)
        ensures
            b.wf(),
            b.rows.len() == prompts.len(),
            b.steps == 0,
            b.max_new_tokens == max_new_tokens,
            b.kv_len == longest(prompts@, prompts@.len()),
            forall|i: int|
                0 <= i < prompts.len() ==> (#[trigger] b.rows[i])@ == start_row(
                    prompts[i]@,
                    vocab_size as nat,
                ),
            forall|i: int|
                0 <= i < prompts.len() ==> (#[trigger] b.pad_lens[i]) + prompts[i].len() == b.kv_len,
    {
        let mut kv_len: usize = 0;
        let mut i: usize = 0;
        while i < prompts.len()
            invariant
                i <= prompts.len(),
                kv_len == longest(prompts@, i as nat),
            decreases prompts.len() - i,
        {
            if prompts[i].len() > kv_len {
                kv_len = prompts[i].len();
            }
            i = i + 1;
        }
        let mut rows: Vec<Row> = Vec::new();
        let mut pad_lens: Vec<usize> = Vec::new();
        let mut j: usize = 0;
        while j < prompts.len()
            invariant
                j <= prompts.len(),
                rows.len() == j,
                pad_lens.len() == j,
                kv_len == longest(prompts@, prompts@.len()),
                forall|i: int|
                    0 <= i < j ==> (#[trigger] rows[i])@ == start_row(
                        prompts[i]@,
                        vocab_size as nat,
                    ) && rows[i].history.wf(),
                forall|i: int|
                    0 <= i < j ==> (#[trigger] pad_lens[i]) + prompts[i].len() == kv_len,
            decreases prompts.len() - j,
        {
            proof {
                lemma_longest(prompts@, prompts@.len(), j as int);
            }
            pad_lens.push(kv_len - prompts[j].len());
            rows.push(
                Row {
                    generated: Vec::new(),
                    history: RepetitionHistory::from_tokens(vocab_size, &prompts[j]),
                    finished: false,
                    position: prompts[j].len(),
                },
            );
            proof {
                assert(rows[j as int].generated@ =~= Seq::<u32>::empty());
            }
            j = j + 1;
        }
        BatchDecoder { rows, pad_lens, kv_len, steps: 0, max_new_tokens }
    }

    /// Whether another choice is wanted for every row that has not finished.
    pub fn wants_step(&self) -> (r: bool)
        ensures
            r == (self.steps < self.max_new_tokens && !self.all_finished()),
    {
        if self.steps >= self.max_new_tokens {
            return false;
        }
        let mut i: usize = 0;
        while i < self.rows.len()
            invariant
                i <= self.rows.len(),
                self.steps < self.max_new_tokens,
                forall|j: int| 0 <= j < i ==> (#[trigger] self.rows@[j]).finished,
            decreases self.rows.len() - i,
        {
            if !self.rows[i].finished {
                return true;
            }
            i = i + 1;
        }
        false
    }

    /// Whether the choice for a row is made among penalized scores.
    pub fn penalizes(&self, row: usize, penalty_above_one: bool) -> (r: bool)
        requires
            row < self.rows.len(),
        ensures
            r == (penalty_above_one && self.rows@[row as int]@.history.len() > 0),
    {
        penalty_above_one && !self.rows[row].history.is_empty()
    }

    /// The positions at which the next tokens are fed, once for each of `axes` axes:
    /// all rows for the first axis, then all rows for the next.
    pub fn feed_positions(&self, axes: usize) -> (buffer: Vec<i64>)
        requires
            axes * self.rows.len() <= usize::MAX,
            forall|i: int|
                0 <= i < self.rows.len() ==> (#[trigger] self.rows[i]).position <= i64::MAX,
        ensures
            buffer.len() == axes * self.rows.len(),
            forall|a: int, i: int|
                #![trigger buffer[a * self.rows.len() + i]]
                0 <= a < axes && 0 <= i < self.rows.len() ==> buffer[a * self.rows.len() + i]
                    == self.rows[i].position,
    {
        let n: usize = self.rows.len();
        let mut buffer: Vec<i64> = Vec::new();
        let mut a: usize = 0;
        proof {
            assert(0 * n == 0) by (nonlinear_arith);
        }
        while a < axes
            invariant
                n == self.rows.len(),
                a <= axes,
                axes * n <= usize::MAX,
                forall|i: int|
                    0 <= i < self.rows.len() ==> (#[trigger] self.rows[i]).position <= i64::MAX,
                buffer.len() == a * n,
                forall|b: int, i: int|
                    #![trigger buffer[b * n + i]]
                    0 <= b < a && 0 <= i < n ==> buffer[b * n + i] == self.rows[i].position,
            decreases axes - a,
        {
            let mut i: usize = 0;
            let ghost before = buffer@;
            while i < n
                invariant
                    n == self.rows.len(),
                    i <= n,
                    forall|j: int|
                        0 <= j < self.rows.len() ==> (#[trigger] self.rows[j]).position <= i64::MAX,
                    before.len() == a * n,
                    buffer.len() == a * n + i,
                    forall|k: int| 0 <= k < before.len() ==> buffer[k] == before[k],
                    forall|j: int|
                        #![trigger self.rows[j]]
                        0 <= j < i ==> buffer[a * n + j] == self.rows[j].position,
                decreases n - i,
            {
                buffer.push(self.rows[i].position as i64);
                i = i + 1;
            }
            proof {
                assert((a + 1) * n == a * n + n) by (nonlinear_arith);
                assert forall|b: int, i: int|
                    #![trigger buffer[b * n + i]]
                    0 <= b < a + 1 && 0 <= i < n implies buffer[b * n + i]
                    == self.rows[i].position by {
                    let position = self.rows[i].position;
                    if b < a {
                        assert(0 <= b * n + i < a * n) by (nonlinear_arith)
                            requires
                                0 <= b <= a - 1,
                                0 <= i < n,
                        ;
                        assert(before[b * n + i] == position);
                    }
                }
            }
            a = a + 1;
        }
        buffer
    }

    /// Whether padding has to be kept out of sight: some prompt was padded.
    pub fn has_padding(&self) -> (r: bool)
        ensures
            r == exists|i: int| 0 <= i < self.pad_lens.len() && #[trigger] self.pad_lens[i] > 0,
    {
        let mut i: usize = 0;
        while i < self.pad_lens.len()
            invariant
                i <= self.pad_lens.len(),
                forall|j: int| 0 <= j < i ==> #[trigger] self.pad_lens[j] == 0,
            decreases self.pad_lens.len() - i,
        {
            if self.pad_lens[i] > 0 {
                return true;
            }
            i = i + 1;
        }
        false
    }

    /// Takes one choice for each row; those for finished rows are ignored. Hands
    /// back the tokens to feed to the model, a zero for each row that had
    /// finished, or nothing when all rows are finished.
    pub fn step(&mut self, choices: &Vec<u32>, stop_token_ids: &Vec<u32>) -> (feed: Option<Vec<u32>>)
        requires
            old(self).wf(),
            old(self).steps < old(self).max_new_tokens,
            choices.len() == old(self).rows.len(),
            old(self).kv_len < usize::MAX,
            forall|i: int|
                0 <= i < old(self).rows.len() ==> (#[trigger] old(self).rows[i]).position
                    < usize::MAX,
        ensures
            final(self).wf(),
            final(self).rows.len() == old(self).rows.len(),
            final(self).pad_lens@ == old(self).pad_lens@,
            final(self).max_new_tokens == old(self).max_new_tokens,
            final(self).steps == old(self).steps + 1,
            forall|i: int|
                0 <= i < choices.len() ==> (#[trigger] final(self).rows[i])@ == step_row(
                    old(self).rows[i]@,
                    choices[i],
                    stop_token_ids@,
                ),
            feed is None <==> final(self).all_finished(),
            final(self).kv_len == old(self).kv_len + if feed is None {
                0int
            } else {
                1
            },
            feed matches Some(fed) ==> {
                &&& fed.len() == choices.len()
                &&& forall|i: int|
                    0 <= i < choices.len() ==> #[trigger] fed[i] == if old(self).rows[i].finished {
                        0
                    } else {
                        choices[i]
                    }
            },
    {
        let ghost rows0 = self.rows@;
        let mut fed: Vec<u32> = Vec::new();
        let mut running: bool = false;
        let mut i: usize = 0;
        while i < choices.len()
            invariant
                i <= choices.len() == self.rows.len() == rows0.len(),
                fed.len() == i,
                self.pad_lens@ == old(self).pad_lens@,
                self.kv_len == old(self).kv_len,
                self.steps == old(self).steps,
                self.max_new_tokens == old(self).max_new_tokens,
                forall|j: int| i <= j < rows0.len() ==> #[trigger] self.rows@[j] == rows0[j],
                forall|j: int| 0 <= j < rows0.len() ==> (#[trigger] rows0[j]).history.wf(),
                forall|j: int| 0 <= j < rows0.len() ==> (#[trigger] rows0[j]).position < usize::MAX,
                forall|j: int|
                    0 <= j < i ==> (#[trigger] self.rows@[j])@ == step_row(
                        rows0[j]@,
                        choices[j],
                        stop_token_ids@,
                    ) && self.rows@[j].history.wf(),
                forall|j: int|
                    0 <= j < i ==> #[trigger] fed[j] == if rows0[j].finished {
                        0
                    } else {
                        choices[j]
                    },
                running <==> exists|j: int| 0 <= j < i && !(#[trigger] self.rows@[j]).finished,
            decreases choices.len() - i,
        {
            let ghost before = self.rows@;
            proof {
                assert(self.rows@[i as int] == rows0[i as int]);
            }
            let token: u32 = choices[i];
            if self.rows[i].finished {
                fed.push(0);
            } else {
                fed.push(token);
                step_in_place(&mut self.rows[i], token, stop_token_ids);
                if !self.rows[i].finished {
                    running = true;
                }
            }
            proof {
                assert forall|j: int| 0 <= j < i implies #[trigger] self.rows@[j] == before[j] by {}
                if running {
                    if exists|j: int| 0 <= j < i && !(#[trigger] before[j]).finished {
                        let j = choose|j: int| 0 <= j < i && !(#[trigger] before[j]).finished;
                        assert(!self.rows@[j].finished);
                    } else {
                        assert(!self.rows@[i as int].finished);
                    }
                }
            }
            i = i + 1;
        }
        self.steps = self.steps + 1;
        if running {
            proof {
                let j = choose|j: int|
                    0 <= j < choices.len() && !(#[trigger] self.rows@[j]).finished;
                assert(!self.rows@[j].finished);
                assert(!self.all_finished());
            }
            self.kv_len = self.kv_len + 1;
            Some(fed)
        } else {
            proof {
                assert forall|j: int| 0 <= j < self.rows@.len() implies (#[trigger] self.rows@[
                    j
                ]).finished by {}
                assert(self.all_finished());
            }
            None
        }
    }
}

/// Takes the choice for one row.
fn step_in_place(row: &mut Row, token: u32, stop_token_ids: &Vec<u32>)
    requires
        old(row).history.wf(),
        !old(row).finished,
        old(row).position < usize::MAX,
    ensures
        final(row).history.wf(),
        final(row)@ == step_row(old(row)@, token, stop_token_ids@),
{
    if tokens::contains(stop_token_ids, token) {
        row.finished = true;
    } else {
        row.generated.push(token);
        row.history.insert(token);
        row.position = row.position + 1;
    }
}

/// The row after `n` choices, each made behind the prompt and what was generated.
pub open spec fn row_steps(
    next: spec_fn(Seq<u32>) -> u32,
    prompt: Seq<u32>,
    vocab: nat,
    stops: Seq<u32>,
    n: nat,
) -> RowView
    decreases n,
{
    if n == 0 {
        start_row(prompt, vocab)
    } else {
        let before = row_steps(next, prompt, vocab, stops, (n - 1) as nat);
        step_row(before, next(prompt + before.decoded.tokens), stops)
    }
}

/// Every row of a batch is decoded as if it were alone, and its position and
/// history stay those of its own prompt and text.
pub proof fn law_batching_never_changes_a_row(
    next: spec_fn(Seq<u32>) -> u32,
    prompt: Seq<u32>,
    vocab: nat,
    stops: Seq<u32>,
    n: nat,
)
    ensures
        ({
            let row = row_steps(next, prompt, vocab, stops, n);
            &&& row.decoded == speculative::autoregressive(next, prompt, stops, n)
            &&& row.vocab == vocab
            &&& row_follows(row, prompt)
        }),
    decreases n,
{
    if n == 0 {
        assert(prompt + Seq::<u32>::empty() =~= prompt);
    } else {
        law_batching_never_changes_a_row(next, prompt, vocab, stops, (n - 1) as nat);
        let before = row_steps(next, prompt, vocab, stops, (n - 1) as nat);
        let t = next(prompt + before.decoded.tokens);
        let longer = prompt + before.decoded.tokens.push(t);
        assert(longer.drop_last() =~= prompt + before.decoded.tokens);
        assert(longer.last() == t);
    }
}

/// A list behind `pad` zeros.
pub fn left_padded(positions: &Vec<i64>, pad: usize) -> (r: Vec<i64>)
    ensures
        r@ == Seq::new(pad as nat, |i: int| 0i64) + positions@,
{
    let mut r: Vec<i64> = Vec::new();
    let mut i: usize = 0;
    while i < pad
        invariant
            i <= pad,
            r@ == Seq::new(i as nat, |i: int| 0i64),
        decreases pad - i,
    {
        r.push(0);
        i = i + 1;
        proof {
            assert(r@ =~= Seq::new(i as nat, |i: int| 0i64));
        }
    }
    let ghost zeros = r@;
    let mut j: usize = 0;
    proof {
        assert(zeros + positions@.take(0) =~= zeros);
    }
    while j < positions.len()
        invariant
            j <= positions.len(),
            r@ == zeros + positions@.take(j as int),
        decreases positions.len() - j,
    {
        r.push(positions[j]);
        proof {
            assert(zeros + positions@.take(j + 1) =~= (zeros + positions@.take(j as int)).push(
                positions@[j as int],
            ));
        }
        j = j + 1;
    }
    proof {
        assert(positions@.take(positions@.len() as int) =~= positions@);
    }
    r
}

/// What is prepared before the prompts of a batch are processed.
#[derive(Debug, Clone, Copy, PartialEq, Eq, Structural)]
pub enum Preparation {
    /// One page with a draft model: its graphs and those for verification.
    Drafting,
    /// One page without one: a graph for single tokens.
    SingleTokens,
    /// Several pages: graphs for one page are dropped.
    DropGraphs,
}

/// Decides what is prepared. Only a page on its own is decoded with drafts.
pub fn preparation(batch_size: usize, has_draft_model: bool) -> (p: Preparation)
    ensures
        p == if batch_size != 1 {
            Preparation::DropGraphs
        } else if has_draft_model {
            Preparation::Drafting
        } else {
            Preparation::SingleTokens
        },
{
    if batch_size == 1 {
        if has_draft_model {
            Preparation::Drafting
        } else {
            Preparation::SingleTokens
        }
    } else {
        Preparation::DropGraphs
    }
}

/// Whether prompts are processed under a mask. The attention of CUDA is causal by
/// itself, and a page on its own has no padding.
pub fn needs_prompt_mask(batch_size: usize, is_cuda: bool) -> (r: bool)
    ensures
        r == !(batch_size == 1 && is_cuda),
{
    !(batch_size == 1 && is_cuda)
}

/// A row takes a choice that ends no page at the end of its text and moves on by one
/// place; a stop token ends the row where it is, and a finished row stays as it is.
pub proof fn law_row_takes_its_choice(row: RowView, token: u32, stops: Seq<u32>)
    ensures
        ({
            let after = step_row(row, token, stops);
            &&& row.decoded.stopped ==> after == row
            &&& !row.decoded.stopped && stops.contains(token) ==> {
                &&& after.decoded.stopped
                &&& after.decoded.tokens == row.decoded.tokens
                &&& after.position == row.position
                &&& after.history == row.history
            }
            &&& !row.decoded.stopped && !stops.contains(token) ==> {
                &&& !after.decoded.stopped
                &&& after.decoded.tokens == row.decoded.tokens.push(token)
                &&& after.position == row.position + 1
                &&& after.history.contains(token) <==> row.history.contains(token) || token
                    < row.vocab
            }
            &&& after.vocab == row.vocab
        }),
{
    assert(row.history.push(token)[row.history.len() as int] == token);
}

/// The longest prompt is one of the prompts, and none is longer.
pub proof fn law_longest_prompt_is_one_of_them(prompts: Seq<Vec<u32>>, n: nat)
    requires
        0 < n <= prompts.len(),
    ensures
        forall|i: int| 0 <= i < n ==> #[trigger] prompts[i]@.len() <= longest(prompts, n),
        exists|i: int| 0 <= i < n && #[trigger] prompts[i]@.len() == longest(prompts, n),
    decreases n,
{
    assert forall|i: int| 0 <= i < n implies #[trigger] prompts[i]@.len() <= longest(prompts, n) by {
        lemma_longest(prompts, n, i);
    }
    if n == 1 {
        assert(longest(prompts, 0) == 0);
        assert(prompts[0]@.len() == longest(prompts, n));
    } else {
        let before = (n - 1) as nat;
        law_longest_prompt_is_one_of_them(prompts, before);
        let i = choose|i: int|
            0 <= i < before && #[trigger] prompts[i]@.len() == longest(prompts, before);
        if prompts[n - 1]@.len() > longest(prompts, before) {
            assert(prompts[n - 1]@.len() == longest(prompts, n));
        } else {
            assert(prompts[i]@.len() == longest(prompts, n));
        }
    }
}

impl BatchDecoder {
    /// A batch is finished when each of its rows is.
    pub proof fn law_batch_is_finished_with_its_last_row(self)
        ensures
            self.all_finished() <==> forall|i: int|
                0 <= i < self.rows@.len() ==> (#[trigger] self.rows@[i]).finished,
            self.rows@.len() == 0 ==> self.all_finished(),
    {
    }
}

} // verus!
