//! DFlash: a small draft model proposes a block of tokens, the target model
//! verifies it in one pass.
use super::history::{self, RepetitionHistory};
use crate::error::{self, Error, ErrorView, Message};
use crate::float::Float;
use crate::numbers;
use crate::speculative::{self, Decoded, Round};
use crate::text;
use crate::tokens;
use vstd::prelude::*;

verus! {

/// Where the draft taps the target model.
#[derive(Debug, Clone)]
pub struct DFlashTargetConfig {
    pub mask_token_id: u32,
    pub target_layer_ids: Vec<usize>,
}

/// Configuration of a draft.
#[derive(Debug, Clone)]
pub struct DFlashConfig {
    pub block_size: usize,
    pub hidden_size: usize,
    pub intermediate_size: usize,
    pub num_attention_heads: usize,
    pub num_hidden_layers: usize,
    pub num_key_value_heads: usize,
    pub head_dim: usize,
    pub vocab_size: usize,
    pub rms_norm_eps: Float,
    pub rope_theta: Float,
    pub dflash_config: DFlashTargetConfig,
}

impl DFlashConfig {
    /// The first thing wrong with the configuration.
    pub open spec fn problem(self) -> Option<ErrorView> {
        if self.block_size < 2 || self.num_hidden_layers == 0
            || self.dflash_config.target_layer_ids@.len() == 0 {
            Some(
                ErrorView::Config(
                    "HunyuanOCR DFlash: block size must be at least 2, and layer count and target layers must be non-zero"@,
                ),
            )
        } else if !numbers::multiple(self.num_attention_heads, self.num_key_value_heads) {
            Some(
                ErrorView::Config(
                    "HunyuanOCR DFlash: "@ + text::dec(self.num_attention_heads as nat)
                        + " attention heads is not divisible by "@ + text::dec(
                        self.num_key_value_heads as nat,
                    ) + " KV heads"@,
                ),
            )
        } else {
            None
        }
    }

    /// Checks the configuration.
    pub fn validate(&self) -> (r: Result<(), Error>)
        ensures
            error::verdict(self.problem(), r),
    {
        if self.block_size < 2 || self.num_hidden_layers == 0
            || self.dflash_config.target_layer_ids.len() == 0 {
            return Err(
                Error::config(
                    "HunyuanOCR DFlash: block size must be at least 2, and layer count and target layers must be non-zero",
                ),
            );
        }
        if !numbers::is_multiple(self.num_attention_heads, self.num_key_value_heads) {
            return Err(
                Message::new("HunyuanOCR DFlash: ").num(self.num_attention_heads as u64).text(
                    " attention heads is not divisible by ",
                ).num(self.num_key_value_heads as u64).text(" KV heads").config(),
            );
        }
        Ok(())
    }

    /// The number of tokens that one round drafts.
    pub fn num_speculative_tokens(&self) -> (n: usize)
        ensures
            n == if self.block_size == 0 {
                0
            } else {
                self.block_size - 1
            },
    {
        self.block_size.saturating_sub(1)
    }

    /// The layers of the target behind which its states are tapped, counted from
    /// one.
    pub fn target_layers(&self) -> (layers: Vec<usize>)
        requires
            forall|i: int|
                0 <= i < self.dflash_config.target_layer_ids.len() ==> (
                #[trigger] self.dflash_config.target_layer_ids[i]) < usize::MAX,
        ensures
            layers.len() == self.dflash_config.target_layer_ids.len(),
            forall|i: int|
                0 <= i < layers.len() ==> #[trigger] layers[i]
                    == self.dflash_config.target_layer_ids[i] + 1,
    {
        let ids = &self.dflash_config.target_layer_ids;
        let mut layers: Vec<usize> = Vec::new();
        let mut i: usize = 0;
        while i < ids.len()
            invariant
                i <= ids.len(),
                ids == &self.dflash_config.target_layer_ids,
                layers.len() == i,
                forall|j: int| 0 <= j < ids.len() ==> (#[trigger] ids[j]) < usize::MAX,
                forall|j: int| 0 <= j < i ==> #[trigger] layers[j] == ids[j] + 1,
            decreases ids.len() - i,
        {
            layers.push(ids[i] + 1);
            i = i + 1;
        }
        layers
    }

    /// The first reason why the draft does not fit a target.
    pub open spec fn target_problem(
        self,
        hidden_size: usize,
        vocab_size: usize,
        num_hidden_layers: usize,
    ) -> Option<ErrorView> {
        if self.hidden_size != hidden_size || self.vocab_size != vocab_size {
            Some(
                ErrorView::Config(
                    "HunyuanOCR: DFlash target mismatch (hidden/vocab draft="@ + text::dec(
                        self.hidden_size as nat,
                    ) + "/"@ + text::dec(self.vocab_size as nat) + ", target="@ + text::dec(
                        hidden_size as nat,
                    ) + "/"@ + text::dec(vocab_size as nat) + ")"@,
                ),
            )
        } else if exists|i: int|
            0 <= i < self.dflash_config.target_layer_ids@.len()
                && #[trigger] self.dflash_config.target_layer_ids@[i] >= num_hidden_layers {
            Some(
                ErrorView::Config(
                    "HunyuanOCR: invalid DFlash target layers "@ + text::dec_list(
                        self.dflash_config.target_layer_ids@,
                    ) + " for "@ + text::dec(num_hidden_layers as nat) + "-layer target"@,
                ),
            )
        } else {
            None
        }
    }

    /// Checks that the draft fits a target.
    pub fn validate_target(&self, hidden_size: usize, vocab_size: usize, num_hidden_layers: usize)
        -> (r: Result<(), Error>)
        ensures
            error::verdict(
                self.target_problem(hidden_size, vocab_size, num_hidden_layers),
                r,
            ),
    {
        if self.hidden_size != hidden_size || self.vocab_size != vocab_size {
            return Err(
                Message::new("HunyuanOCR: DFlash target mismatch (hidden/vocab draft=").num(
                    self.hidden_size as u64,
                ).text("/").num(self.vocab_size as u64).text(", target=").num(
                    hidden_size as u64,
                ).text("/").num(vocab_size as u64).text(")").config(),
            );
        }
        let ids = &self.dflash_config.target_layer_ids;
        let mut i: usize = 0;
        while i < ids.len()
            invariant
                i <= ids.len(),
                ids == &self.dflash_config.target_layer_ids,
                self.hidden_size == hidden_size,
                self.vocab_size == vocab_size,
                forall|j: int|
                    0 <= j < i ==> (#[trigger] self.dflash_config.target_layer_ids@[j])
                        < num_hidden_layers,
            decreases ids.len() - i,
        {
            if ids[i] >= num_hidden_layers {
                proof {
                    assert(self.dflash_config.target_layer_ids@[i as int] >= num_hidden_layers);
                }
                return Err(
                    Message::new("HunyuanOCR: invalid DFlash target layers ").nums(ids).text(
                        " for ",
                    ).num(num_hidden_layers as u64).text("-layer target").config(),
                );
            }
            i = i + 1;
        }
        Ok(())
    }

    /// Checks the shape of the target's output weights.
    pub fn validate_lm_head(&self, target_vocab_size: usize, target_hidden_size: usize) -> (r:
        Result<(), Error>)
        ensures
            error::verdict(
                if target_vocab_size != self.vocab_size || target_hidden_size != self.hidden_size {
                    Some(
                        ErrorView::Config(
                            "HunyuanOCR DFlash: target LM head shape "@ + text::dec(
                                target_vocab_size as nat,
                            ) + "x"@ + text::dec(target_hidden_size as nat)
                                + " does not match draft vocab/hidden "@ + text::dec(
                                self.vocab_size as nat,
                            ) + "x"@ + text::dec(self.hidden_size as nat),
                        ),
                    )
                } else {
                    None
                },
                r,
            ),
    {
        if target_vocab_size != self.vocab_size || target_hidden_size != self.hidden_size {
            return Err(
                Message::new("HunyuanOCR DFlash: target LM head shape ").num(
                    target_vocab_size as u64,
                ).text("x").num(target_hidden_size as u64).text(
                    " does not match draft vocab/hidden ",
                ).num(self.vocab_size as u64).text("x").num(self.hidden_size as u64).config(),
            );
        }
        Ok(())
    }
}

/// The decoding of one page.
#[derive(Debug)]
pub struct DFlashDecoder {
    pub generated: Vec<u32>,
    pub history: RepetitionHistory,
    /// Positions in the K/V caches of the target and of the draft.
    pub context_len: usize,
    pub num_spec: usize,
    pub max_new_tokens: usize,
    pub stopped: bool,
}

/// How a page begins.
#[derive(Debug)]
pub enum DFlashStart {
    /// There is nothing to decode.
    Done,
    Decode(DFlashDecoder),
}

impl DFlashDecoder {
    /// What has been decoded.
    pub open spec fn decoded(self) -> Decoded {
        Decoded { tokens: self.generated@, stopped: self.stopped }
    }

    /// The state between rounds: all but the newest token are in the caches.
    pub open spec fn wf(self, prompt: Seq<u32>, vocab: nat) -> bool {
        &&& self.history.wf()
        &&& self.history.vocab() == vocab
        &&& self.history@ == history::first_occurrences(prompt + self.generated@, vocab)
        &&& 0 < self.generated@.len() <= self.max_new_tokens
        &&& self.num_spec > 0
        &&& !self.stopped && self.generated@.len() < self.max_new_tokens ==> self.context_len + 1
            == prompt.len() + self.generated@.len()
    }

    /// Whether another round is wanted.
    pub fn wants_round(&self) -> (r: bool)
        ensures
            r == speculative::unfinished(self.decoded(), self.max_new_tokens as nat),
    {
        !self.stopped && self.generated.len() < self.max_new_tokens
    }

    /// The queries of the draft: the newest token, then a mask for each draft.
    pub fn query_ids(&self, mask_token_id: u32) -> (ids: Vec<u32>)
        requires
            self.generated.len() > 0,
            self.num_spec < usize::MAX,
        ensures
            ids@ == seq![self.generated@.last()] + Seq::new(
                self.num_spec as nat,
                |i: int| mask_token_id,
            ),
    {
        let mut ids: Vec<u32> = Vec::new();
        ids.push(self.generated[self.generated.len() - 1]);
        let mut i: usize = 0;
        while i < self.num_spec
            invariant
                i <= self.num_spec,
                ids@ =~= seq![self.generated@.last()] + Seq::new(
                    i as nat,
                    |i: int| mask_token_id,
                ),
            decreases self.num_spec - i,
        {
            ids.push(mask_token_id);
            i = i + 1;
        }
        ids
    }

    /// Takes the drafts of a round and the target's first choices: `targets[i]` is
    /// its choice behind the newest token and `i` drafts. Hands back how many of the
    /// verified positions stay in the caches.
    pub fn verify(&mut self, proposals: &Vec<u32>, targets: &Vec<u32>, stop_token_ids: &Vec<u32>)
        -> (processed: usize)
        requires
            old(self).history.wf(),
            !old(self).stopped,
            old(self).generated.len() <= old(self).max_new_tokens,
            proposals.len() == old(self).num_spec,
            targets.len() == proposals.len() + 1,
            old(self).context_len + targets.len() <= usize::MAX,
        ensures
            processed == speculative::matched(proposals@, targets@) + 1,
            processed <= targets.len(),
            final(self).context_len == old(self).context_len + processed,
            final(self).decoded() == speculative::take_tokens(
                old(self).decoded(),
                speculative::round_yield(proposals@, targets@),
                stop_token_ids@,
                old(self).max_new_tokens as nat,
            ),
            final(self).num_spec == old(self).num_spec,
            final(self).max_new_tokens == old(self).max_new_tokens,
            final(self).history.wf(),
            final(self).history.vocab() == old(self).history.vocab(),
            final(self).history@ == history::remember_all(
                old(self).history@,
                final(self).generated@.skip(old(self).generated@.len() as int),
                old(self).history.vocab(),
            ),
            forall|prompt: Seq<u32>, vocab: nat| #[trigger]
                old(self).wf(prompt, vocab) && old(self).generated.len()
                    < old(self).max_new_tokens ==> final(self).wf(prompt, vocab),
    {
        let accepted: usize = speculative::accepted_prefix(proposals, targets);
        let processed: usize = accepted + 1;
        self.context_len = self.context_len + processed;
        let ghost d0 = self.decoded();
        let ghost vocab = self.history.vocab();
        let ghost gained = speculative::round_yield(proposals@, targets@);
        let ghost max = self.max_new_tokens as nat;
        let mut i: usize = 0;
        proof {
            assert(gained.skip(0) =~= gained);
            assert(self.generated@.skip(self.generated@.len() as int) =~= Seq::<u32>::empty());
        }
        while i < processed && !self.stopped && self.generated.len() < self.max_new_tokens
            invariant
                i <= processed <= targets.len(),
                gained == targets@.take(processed as int),
                self.history.wf(),
                self.history.vocab() == vocab,
                vocab == old(self).history.vocab(),
                max == self.max_new_tokens,
                self.max_new_tokens == old(self).max_new_tokens,
                self.num_spec == old(self).num_spec,
                self.context_len == old(self).context_len + processed,
                self.generated.len() <= self.max_new_tokens,
                old(self).generated.len() <= self.generated.len(),
                self.history@ == history::remember_all(
                    old(self).history@,
                    self.generated@.skip(old(self).generated@.len() as int),
                    vocab,
                ),
                speculative::take_tokens(d0, gained, stop_token_ids@, max)
                    == speculative::take_tokens(
                    self.decoded(),
                    gained.skip(i as int),
                    stop_token_ids@,
                    max,
                ),
                forall|seen: Seq<u32>|
                    old(self).history@ == #[trigger] history::first_occurrences(
                        seen + old(self).generated@,
                        vocab,
                    ) ==> self.history@ == history::first_occurrences(
                        seen + self.generated@,
                        vocab,
                    ),
            decreases processed - i,
        {
            let token: u32 = targets[i];
            let ghost g0 = self.generated@;
            proof {
                assert(gained.skip(i as int)[0] == token);
                assert(gained.skip(i as int).skip(1) =~= gained.skip(i + 1));
            }
            if tokens::contains(stop_token_ids, token) {
                self.stopped = true;
            } else {
                self.generated.push(token);
                self.history.insert(token);
                proof {
                    let n = old(self).generated@.len() as int;
                    assert(self.generated@.skip(n).drop_last() =~= g0.skip(n));
                    assert(self.generated@.skip(n).last() == token);
                    assert forall|seen: Seq<u32>|
                        old(self).history@ == #[trigger] history::first_occurrences(
                            seen + old(self).generated@,
                            vocab,
                        ) implies self.history@ == history::first_occurrences(
                        seen + self.generated@,
                        vocab,
                    ) by {
                        let longer = seen + self.generated@;
                        assert(longer.drop_last() =~= seen + g0);
                        assert(longer.last() == token);
                    }
                }
            }
            i = i + 1;
        }
        proof {
            speculative::lemma_take_tokens_whole(d0, gained, stop_token_ids@, max);
            assert forall|prompt: Seq<u32>, v: nat| #[trigger]
                old(self).wf(prompt, v) && old(self).generated.len()
                    < old(self).max_new_tokens implies self.wf(prompt, v) by {
                assert(old(self).history@ == history::first_occurrences(
                    prompt + old(self).generated@,
                    vocab,
                ));
            }
        }
        processed
    }

    /// Begins a page whose prompt has been processed; `first` is the target's first
    /// choice behind it.
    pub fn start(
        prompt: &Vec<u32>,
        first: u32,
        vocab_size: usize,
        block_size: usize,
        max_new_tokens: usize,
        stop_token_ids: &Vec<u32>,
    ) -> (r: Result<DFlashStart, Error>)
        ensures
            match r {
                Ok(DFlashStart::Done) => {
                    let d = speculative::begins(first, stop_token_ids@, max_new_tokens as nat);
                    &&& max_new_tokens == 0 || stop_token_ids@.contains(first)
                    &&& !speculative::unfinished(d, max_new_tokens as nat)
                    &&& d.tokens == Seq::<u32>::empty()
                },
                Ok(DFlashStart::Decode(d)) => {
                    &&& max_new_tokens > 0
                    &&& !stop_token_ids@.contains(first)
                    &&& block_size >= 2
                    &&& d.num_spec == block_size - 1
                    &&& d.max_new_tokens == max_new_tokens
                    &&& d.generated@ == seq![first]
                    &&& d.decoded() == speculative::begins(
                        first,
                        stop_token_ids@,
                        max_new_tokens as nat,
                    )
                    &&& d.context_len == prompt.len()
                    &&& d.wf(prompt@, vocab_size as nat)
                },
                Err(e) => {
                    &&& max_new_tokens > 0
                    &&& !stop_token_ids@.contains(first)
                    &&& block_size < 2
                    &&& e@ == ErrorView::Config(
                        "HunyuanOCR DFlash: block_size must include at least one mask position"@,
                    )
                },
            },
    {
        if max_new_tokens == 0 {
            return Ok(DFlashStart::Done);
        }
        if tokens::contains(stop_token_ids, first) {
            return Ok(DFlashStart::Done);
        }
        let num_spec: usize = block_size.saturating_sub(1);
        if num_spec == 0 {
            return Err(
                Error::config(
                    "HunyuanOCR DFlash: block_size must include at least one mask position",
                ),
            );
        }
        let mut history = RepetitionHistory::from_tokens(vocab_size, prompt);
        history.insert(first);
        let mut generated: Vec<u32> = Vec::new();
        generated.push(first);
        proof {
            let all = prompt@ + generated@;
            assert(generated@ =~= seq![first]);
            assert(all.drop_last() =~= prompt@);
            assert(all.last() == first);
        }
        Ok(
            DFlashStart::Decode(
                DFlashDecoder {
                    generated,
                    history,
                    context_len: prompt.len(),
                    num_spec,
                    max_new_tokens,
                    stopped: false,
                },
            ),
        )
    }
}

/// What the target ranks first behind a context once the ids that occurred in it are
/// penalized; `pick` names its choice behind a context for each set of penalized ids.
pub open spec fn penalized_choice(pick: spec_fn(Seq<u32>, Set<u32>) -> u32, vocab: nat) -> spec_fn(
    Seq<u32>,
) -> u32 {
    |ctx: Seq<u32>| pick(ctx, history::penalized(ctx, vocab))
}

/// `targets[i]` is what the target ranks first behind `seen` and the first `i`
/// proposals, once the ids of the history and those that row `i` adds are penalized.
pub open spec fn are_row_choices(
    pick: spec_fn(Seq<u32>, Set<u32>) -> u32,
    seen: Seq<u32>,
    proposals: Seq<u32>,
    targets: Seq<u32>,
    vocab: nat,
) -> bool {
    let history = history::first_occurrences(seen, vocab);
    &&& targets.len() == proposals.len() + 1
    &&& forall|i: int|
        0 <= i < targets.len() ==> targets[i] == pick(
            seen + #[trigger] proposals.take(i),
            history::row_penalized(
                history,
                history::fresh_proposals(history, proposals.take(i)),
                vocab,
            ),
        )
}

/// `rounds` are rounds of a page behind `prompt`: each takes place while the page wants
/// another token, with any proposals.
pub open spec fn are_dflash_rounds(
    pick: spec_fn(Seq<u32>, Set<u32>) -> u32,
    prompt: Seq<u32>,
    rounds: Seq<Round>,
    stops: Seq<u32>,
    max: nat,
    vocab: nat,
) -> bool
    decreases rounds.len(),
{
    rounds.len() == 0 || {
        let first = penalized_choice(pick, vocab)(prompt);
        let d = speculative::page(first, rounds.drop_last(), stops, max);
        let round = rounds.last();
        &&& are_dflash_rounds(pick, prompt, rounds.drop_last(), stops, max, vocab)
        &&& speculative::unfinished(d, max)
        &&& are_row_choices(pick, prompt + d.tokens, round.drafts, round.targets, vocab)
    }
}

/// The choices of the verification rows are those of decoding one by one.
pub proof fn law_row_choices_verify(
    pick: spec_fn(Seq<u32>, Set<u32>) -> u32,
    seen: Seq<u32>,
    proposals: Seq<u32>,
    targets: Seq<u32>,
    vocab: nat,
)
    requires
        are_row_choices(pick, seen, proposals, targets, vocab),
    ensures
        speculative::verifies(penalized_choice(pick, vocab), seen, proposals, targets),
{
    assert forall|i: int| 0 <= i < targets.len() implies targets[i] == penalized_choice(
        pick,
        vocab,
    )(seen + #[trigger] proposals.take(i)) by {
        history::law_rows_penalize_the_same(seen, proposals.take(i), vocab);
    }
}

/// Rounds whose rows are penalized are rounds of the page that is penalized one by one.
proof fn lemma_dflash_rounds(
    pick: spec_fn(Seq<u32>, Set<u32>) -> u32,
    prompt: Seq<u32>,
    rounds: Seq<Round>,
    stops: Seq<u32>,
    max: nat,
    vocab: nat,
)
    requires
        are_dflash_rounds(pick, prompt, rounds, stops, max, vocab),
    ensures
        speculative::are_rounds(penalized_choice(pick, vocab), prompt, rounds, stops, max),
    decreases rounds.len(),
{
    if rounds.len() > 0 {
        let first = penalized_choice(pick, vocab)(prompt);
        let d = speculative::page(first, rounds.drop_last(), stops, max);
        let round = rounds.last();
        lemma_dflash_rounds(pick, prompt, rounds.drop_last(), stops, max, vocab);
        law_row_choices_verify(pick, prompt + d.tokens, round.drafts, round.targets, vocab);
    }
}

/// A page that is decoded with drafts, from its start to its end, has the text of plain
/// greedy decoding of the same prompt, repetition penalty and all, whatever was
/// drafted. It ends before the first stop token and at the limit, and a page without
/// room for a token is empty.
pub proof fn law_dflash_page_is_autoregressive(
    pick: spec_fn(Seq<u32>, Set<u32>) -> u32,
    prompt: Seq<u32>,
    rounds: Seq<Round>,
    stops: Seq<u32>,
    max: nat,
    vocab: nat,
)
    requires
        are_dflash_rounds(pick, prompt, rounds, stops, max, vocab),
    ensures
        ({
            let next = penalized_choice(pick, vocab);
            let d = speculative::page(next(prompt), rounds, stops, max);
            &&& speculative::unfinished(d, max) ==> d == speculative::autoregressive(
                next,
                prompt,
                stops,
                d.tokens.len(),
            )
            &&& !speculative::unfinished(d, max) ==> d == speculative::autoregressive(
                next,
                prompt,
                stops,
                max,
            )
            &&& rounds.len() <= d.tokens.len() <= max
            &&& forall|i: int| 0 <= i < d.tokens.len() ==> !stops.contains(#[trigger] d.tokens[i])
            &&& max == 0 ==> d.tokens.len() == 0
        }),
{
    lemma_dflash_rounds(pick, prompt, rounds, stops, max, vocab);
    speculative::law_page_is_autoregressive(
        penalized_choice(pick, vocab),
        prompt,
        rounds,
        stops,
        max,
    );
}

/// The capacity that a context cache starts with, in positions.
pub const CONTEXT_KV_INITIAL_CAPACITY: usize = 16_384;

/// Positions of one page of a context cache.
pub const CONTEXT_KV_PAGE_SIZE: usize = 32;

/// The positions whose rotation is prepared.
pub const ROPE_CACHE_LEN: usize = 16_384;

/// The paged K/V cache of one draft layer, apart from its tensors.
#[derive(Debug, Clone, Copy)]
pub struct ContextKv {
    /// Heads and head size of the storage, where there is one.
    pub storage: Option<(usize, usize)>,
    /// Positions of the accepted context.
    pub len: usize,
    pub capacity: usize,
}

/// What has to be done to the storage before positions are written.
#[derive(Debug, Clone, Copy, PartialEq, Eq, Structural)]
pub enum StorageChange {
    Keep,
    /// New storage, with what was there given up.
    Allocate,
    /// More positions behind the present ones.
    Grow(usize),
}

/// `n` rounded up to whole pages.
pub open spec fn page_aligned(n: int) -> int {
    (n + 31) / 32 * 32
}

impl Default for ContextKv {
    fn default() -> (c: Self)
        ensures
            c == (ContextKv { storage: None, len: 0, capacity: 16_384 }),
            c.wf(),
    {
        ContextKv { storage: None, len: 0, capacity: CONTEXT_KV_INITIAL_CAPACITY }
    }
}

impl ContextKv {
    /// The context fits; storage consists of whole pages.
    pub open spec fn wf(self) -> bool {
        &&& self.len <= self.capacity
        &&& self.storage is None ==> self.len == 0
        &&& self.storage is Some ==> self.capacity % 32 == 0
    }

    /// Whether the storage serves positions of the given shape; `same_kind` tells
    /// whether element type and device are unchanged.
    pub open spec fn reusable(self, heads: usize, head_dim: usize, same_kind: bool) -> bool {
        same_kind && self.storage == Some((heads, head_dim))
    }

    /// What is done to the storage to make room for `required` positions.
    pub open spec fn change_for(
        self,
        heads: usize,
        head_dim: usize,
        same_kind: bool,
        required: usize,
    ) -> StorageChange {
        if !self.reusable(heads, head_dim, same_kind) {
            StorageChange::Allocate
        } else if required > self.capacity {
            StorageChange::Grow(
                (self.with_room(heads, head_dim, same_kind, required).capacity
                    - self.capacity) as usize,
            )
        } else {
            StorageChange::Keep
        }
    }

    /// The cache after room for `required` positions was made.
    pub open spec fn with_room(
        self,
        heads: usize,
        head_dim: usize,
        same_kind: bool,
        required: usize,
    ) -> ContextKv {
        if !self.reusable(heads, head_dim, same_kind) {
            ContextKv {
                storage: Some((heads, head_dim)),
                len: 0,
                capacity: page_aligned(
                    if self.capacity >= required {
                        self.capacity as int
                    } else {
                        required as int
                    },
                ) as usize,
            }
        } else if required > self.capacity {
            ContextKv {
                capacity: page_aligned(
                    if 2 * self.capacity >= required {
                        2 * self.capacity
                    } else {
                        required as int
                    },
                ) as usize,
                ..self
            }
        } else {
            self
        }
    }

    /// Forgets the context and keeps the storage.
    pub fn reset(&mut self)
        ensures
            *final(self) == (ContextKv { len: 0, ..*old(self) }),
            old(self).wf() ==> final(self).wf(),
    {
        self.len = 0;
    }

    /// Forgets the storage as well; the next one has the initial capacity.
    pub fn reset_graph_storage(&mut self)
        ensures
            *final(self) == (ContextKv { storage: None, len: 0, capacity: 16_384 }),
            final(self).wf(),
    {
        self.storage = None;
        self.capacity = CONTEXT_KV_INITIAL_CAPACITY;
        self.len = 0;
    }

    /// Makes room for `required` positions of the given shape. Storage of another
    /// shape or kind is given up together with the context in it.
    pub fn ensure_capacity(
        &mut self,
        heads: usize,
        head_dim: usize,
        same_kind: bool,
        required: usize,
    ) -> (change: StorageChange)
        requires
            old(self).wf(),
            2 * old(self).capacity + 31 <= usize::MAX,
            required + 31 <= usize::MAX,
        ensures
            *final(self) == old(self).with_room(heads, head_dim, same_kind, required),
            final(self).wf(),
            final(self).capacity >= required,
            final(self).capacity >= old(self).capacity,
            final(self).storage == Some((heads, head_dim)),
            change == old(self).change_for(heads, head_dim, same_kind, required),
    {
        let reusable: bool = match self.storage {
            Some((h, d)) => same_kind && h == heads && d == head_dim,
            None => false,
        };
        if !reusable {
            let wanted: usize = if self.capacity >= required {
                self.capacity
            } else {
                required
            };
            self.storage = Some((heads, head_dim));
            self.len = 0;
            self.capacity = (wanted + 31) / CONTEXT_KV_PAGE_SIZE * CONTEXT_KV_PAGE_SIZE;
            StorageChange::Allocate
        } else if required > self.capacity {
            let wanted: usize = if 2 * self.capacity >= required {
                2 * self.capacity
            } else {
                required
            };
            let before: usize = self.capacity;
            self.capacity = (wanted + 31) / CONTEXT_KV_PAGE_SIZE * CONTEXT_KV_PAGE_SIZE;
            StorageChange::Grow(self.capacity - before)
        } else {
            StorageChange::Keep
        }
    }

    /// Appends `added` positions to the context. Hands back what has to be done to
    /// the storage first, and the place of the first new position.
    pub fn append(&mut self, heads: usize, head_dim: usize, same_kind: bool, added: usize) -> (r: (
        StorageChange,
        usize,
    ))
        requires
            old(self).wf(),
            2 * old(self).capacity + 31 <= usize::MAX,
            old(self).len + added + 31 <= usize::MAX,
        ensures
            final(self).wf(),
            ({
                let room = old(self).with_room(
                    heads,
                    head_dim,
                    same_kind,
                    (old(self).len + added) as usize,
                );
                &&& r.0 == old(self).change_for(
                    heads,
                    head_dim,
                    same_kind,
                    (old(self).len + added) as usize,
                )
                &&& r.1 == room.len
                &&& *final(self) == (ContextKv { len: (room.len + added) as usize, ..room })
            }),
            r.1 == if old(self).reusable(heads, head_dim, same_kind) {
                old(self).len
            } else {
                0
            },
    {
        let required: usize = self.len + added;
        let change = self.ensure_capacity(heads, head_dim, same_kind, required);
        let at: usize = self.len;
        self.len = at + added;
        (change, at)
    }

    /// Places `query_len` transient positions right behind the context. Its length stays
    /// as it is, so that the next append overwrites them. Storage that does not serve
    /// the shape holds no context that the positions could stand behind.
    pub fn with_queries(
        &mut self,
        heads: usize,
        head_dim: usize,
        same_kind: bool,
        query_len: usize,
    ) -> (r: Result<(StorageChange, usize), Error>)
        requires
            old(self).wf(),
            2 * old(self).capacity + 31 <= usize::MAX,
            old(self).len + query_len + 31 <= usize::MAX,
        ensures
            final(self).wf(),
            r is Ok <==> old(self).len > 0 && old(self).reusable(heads, head_dim, same_kind),
            match r {
                Ok((change, at)) => {
                    &&& change == old(self).change_for(
                        heads,
                        head_dim,
                        same_kind,
                        (old(self).len + query_len) as usize,
                    )
                    &&& *final(self) == old(self).with_room(
                        heads,
                        head_dim,
                        same_kind,
                        (old(self).len + query_len) as usize,
                    )
                    &&& final(self).len == old(self).len
                    &&& at == old(self).len
                    &&& at + query_len <= final(self).capacity
                },
                Err(e) => {
                    &&& *final(self) == *old(self)
                    &&& e@ is InvalidInput
                    &&& old(self).len == 0 ==> e@ == ErrorView::InvalidInput(
                        "HunyuanOCR DFlash: context cache is empty"@,
                    )
                },
            },
    {
        if self.len == 0 {
            return Err(Error::invalid_input("HunyuanOCR DFlash: context cache is empty"));
        }
        let reusable: bool = match self.storage {
            Some((h, d)) => same_kind && h == heads && d == head_dim,
            None => false,
        };
        if !reusable {
            return Err(
                Error::invalid_input("HunyuanOCR DFlash: context cache has another shape"),
            );
        }
        let required: usize = self.len + query_len;
        let change = self.ensure_capacity(heads, head_dim, same_kind, required);
        Ok((change, self.len))
    }
}

/// Within the capacity, appending in two parts is appending at once.
pub proof fn law_appends_add_up(c: ContextKv, heads: usize, head_dim: usize, a: usize, b: usize)
    requires
        c.wf(),
        c.storage == Some((heads, head_dim)),
        c.len + a + b <= c.capacity,
    ensures
        ({
            let one = c.with_room(heads, head_dim, true, (c.len + a) as usize);
            let first = ContextKv { len: (one.len + a) as usize, ..one };
            let two = first.with_room(heads, head_dim, true, (first.len + b) as usize);
            let both = c.with_room(heads, head_dim, true, (c.len + a + b) as usize);
            (ContextKv { len: (two.len + b) as usize, ..two }) == (ContextKv {
                len: (both.len + a + b) as usize,
                ..both
            })
        }),
{
}

/// What a captured draft graph does with a request.
#[derive(Debug, Clone, Copy, PartialEq, Eq, Structural)]
pub enum GraphReplay {
    /// The graph cannot be used again.
    Invalidate,
    /// This request runs without the graph.
    Skip,
    Replay,
}

/// Decides whether a captured graph serves a request that needs `total_kv_len`
/// positions; `same_shapes` tells whether the inputs have the captured shapes.
pub fn replay_graph(total_kv_len: usize, captured: bool, same_shapes: bool) -> (r: GraphReplay)
    ensures
        r == if total_kv_len > 16_384 {
            GraphReplay::Invalidate
        } else if captured && same_shapes {
            GraphReplay::Replay
        } else {
            GraphReplay::Skip
        },
{
    if total_kv_len > CONTEXT_KV_INITIAL_CAPACITY {
        GraphReplay::Invalidate
    } else if captured && same_shapes {
        GraphReplay::Replay
    } else {
        GraphReplay::Skip
    }
}

/// How more positions come to a context.
#[derive(Debug, Clone, Copy, PartialEq, Eq, Structural)]
pub enum ContextAppend {
    Nothing,
    /// The positions stand from `start` on; a captured graph cannot be used again
    /// where `drop_graph` is set.
    Append { start: usize, drop_graph: bool },
}

/// Plans how `added` positions come to a context of `context_len`.
pub fn plan_append(context_len: usize, added: usize) -> (p: ContextAppend)
    ensures
        p == if added == 0 {
            ContextAppend::Nothing
        } else {
            ContextAppend::Append { start: context_len, drop_graph: context_len + added > 16_384 }
        },
{
    if added == 0 {
        ContextAppend::Nothing
    } else {
        ContextAppend::Append {
            start: context_len,
            drop_graph: context_len.saturating_add(added) > CONTEXT_KV_INITIAL_CAPACITY,
        }
    }
}

/// Whether the context of a page is too long for a captured graph.
pub fn reset_drops_graph(len: usize) -> (r: bool)
    ensures
        r == (len > 16_384),
{
    len > CONTEXT_KV_INITIAL_CAPACITY
}

/// Where the rotation of some positions comes from.
#[derive(Debug)]
pub enum RopeSource {
    /// Entries `start` to `start + len` of the prepared table.
    Table { start: usize, len: usize },
    /// It is computed for these positions.
    Positions(Vec<i64>),
}

/// Decides where the rotation of `len` positions from `start` on comes from: the
/// prepared table has the first positions.
pub fn rope_source(start: usize, len: usize) -> (r: RopeSource)
    requires
        start + len <= i64::MAX,
        start + len <= usize::MAX,
    ensures
        if start + len <= 16_384 {
            r == (RopeSource::Table { start, len })
        } else {
            r matches RopeSource::Positions(p) && p.len() == len && forall|i: int|
                0 <= i < len ==> #[trigger] p[i] == start + i
        },
{
    if start + len <= ROPE_CACHE_LEN {
        return RopeSource::Table { start, len };
    }
    let mut positions: Vec<i64> = Vec::new();
    let mut i: usize = 0;
    while i < len
        invariant
            i <= len,
            start + len <= i64::MAX,
            start + len <= usize::MAX,
            positions.len() == i,
            forall|k: int| 0 <= k < i ==> #[trigger] positions[k] == start + k,
        decreases len - i,
    {
        positions.push((start + i) as i64);
        i = i + 1;
    }
    RopeSource::Positions(positions)
}

/// What is done before a page is decoded.
#[derive(Debug, Clone, Copy, PartialEq, Eq, Structural)]
pub enum GraphPreparation {
    /// Graphs are switched off; a captured one is dropped.
    Invalidate,
    Nothing,
    /// Caches of another capacity are replaced, then a graph is captured.
    Capture,
}

/// Decides whether a draft graph is captured: on a CUDA device with bfloat16
/// weights, when there is none and all contexts are empty.
pub fn prepare_graph(
    disabled: bool,
    on_cuda: bool,
    bf16: bool,
    captured: bool,
    contexts_empty: bool,
) -> (r: GraphPreparation)
    ensures
        r == if disabled {
            GraphPreparation::Invalidate
        } else if on_cuda && bf16 && !captured && contexts_empty {
            GraphPreparation::Capture
        } else {
            GraphPreparation::Nothing
        },
{
    if disabled {
        GraphPreparation::Invalidate
    } else if on_cuda && bf16 && !captured && contexts_empty {
        GraphPreparation::Capture
    } else {
        GraphPreparation::Nothing
    }
}

/// The shapes of a captured draft graph.
#[derive(Debug, Clone, Copy)]
pub struct GraphShapes {
    pub cache_template: (usize, usize, usize, usize),
    pub query_input: (usize, usize, usize),
    pub rope_input: (usize, usize, usize, usize),
    pub query_lengths: (u32, u32),
}

impl DFlashConfig {
    /// The shapes of the buffers that a draft graph is captured with.
    pub fn graph_shapes(&self) -> (s: GraphShapes)
        requires
            self.block_size <= u32::MAX,
        ensures
            s.cache_template == (1usize, self.num_key_value_heads, self.block_size, self.head_dim),
            s.query_input == (1usize, self.block_size, self.hidden_size),
            s.rope_input == (1usize, 1usize, self.block_size, self.head_dim),
            s.query_lengths == (0u32, self.block_size as u32),
    {
        GraphShapes {
            cache_template: (1, self.num_key_value_heads, self.block_size, self.head_dim),
            query_input: (1, self.block_size, self.hidden_size),
            rope_input: (1, 1, self.block_size, self.head_dim),
            query_lengths: (0, self.block_size as u32),
        }
    }

    /// Where the keys and the values of a layer stand in the fused context
    /// projection.
    pub fn context_kv_offsets(&self, layer: usize) -> (r: (usize, usize))
        requires
            (layer * 2 + 1) * (self.num_key_value_heads * self.head_dim) <= usize::MAX,
            layer * 2 + 1 <= usize::MAX,
            self.num_key_value_heads * self.head_dim <= usize::MAX,
        ensures
            r.0 == layer * 2 * (self.num_key_value_heads * self.head_dim),
            r.1 == r.0 + self.num_key_value_heads * self.head_dim,
    {
        let width: usize = self.num_key_value_heads * self.head_dim;
        proof {
            assert((layer * 2 + 1) * width == layer * 2 * width + width) by (nonlinear_arith);
            assert(0 <= layer * 2 * width) by (nonlinear_arith);
        }
        let offset: usize = layer * 2 * width;
        (offset, offset + width)
    }
}

/// Room is rounded up to whole pages of 32 positions, and to no more than it takes.
pub proof fn law_pages_hold_what_is_wanted(n: int)
    requires
        n >= 0,
    ensures
        page_aligned(n) % 32 == 0,
        n <= page_aligned(n) < n + 32,
{
}

/// Making room keeps a context whose storage serves, doubles the room or more if it is
/// too small, and gives up storage of another shape or kind together with its context.
pub proof fn law_room_is_made_for_what_is_wanted(
    c: ContextKv,
    heads: usize,
    head_dim: usize,
    same_kind: bool,
    required: usize,
)
    requires
        c.wf(),
        2 * c.capacity + 31 <= usize::MAX,
        required + 31 <= usize::MAX,
    ensures
        ({
            let r = c.with_room(heads, head_dim, same_kind, required);
            let serves = same_kind && c.storage == Some((heads, head_dim));
            &&& r.storage == Some((heads, head_dim))
            &&& r.capacity >= required
            &&& r.capacity >= c.capacity
            &&& serves ==> r.len == c.len
            &&& !serves ==> r.len == 0
            &&& serves && required <= c.capacity ==> r == c && c.change_for(
                heads,
                head_dim,
                same_kind,
                required,
            ) == StorageChange::Keep
            &&& serves && required > c.capacity ==> {
                &&& r.capacity % 32 == 0
                &&& r.capacity >= 2 * c.capacity
                &&& r.capacity < 2 * c.capacity + 32 || r.capacity < required + 32
                &&& c.change_for(heads, head_dim, same_kind, required) == StorageChange::Grow(
                    (r.capacity - c.capacity) as usize,
                )
            }
            &&& !serves ==> {
                &&& r.capacity % 32 == 0
                &&& r.capacity < c.capacity + 32 || r.capacity < required + 32
                &&& c.change_for(heads, head_dim, same_kind, required) == StorageChange::Allocate
            }
        }),
{
}

/// A draft is sound when it drafts something, has layers, taps layers of its target,
/// and its query heads are some number of times its key heads.
pub proof fn law_sound_draft_drafts_something(cfg: DFlashConfig)
    ensures
        cfg.problem() is None <==> {
            &&& cfg.block_size >= 2
            &&& cfg.num_hidden_layers > 0
            &&& cfg.dflash_config.target_layer_ids@.len() > 0
            &&& exists|k: int| cfg.num_attention_heads == #[trigger] (k * cfg.num_key_value_heads)
        },
{
    numbers::law_multiple_is_a_product(cfg.num_attention_heads, cfg.num_key_value_heads);
}

/// A draft fits a target of the same widths that has all the layers which it taps.
pub proof fn law_draft_fits_its_target(cfg: DFlashConfig, hidden: usize, vocab: usize, layers: usize)
    ensures
        cfg.target_problem(hidden, vocab, layers) is None <==> {
            &&& cfg.hidden_size == hidden
            &&& cfg.vocab_size == vocab
            &&& forall|i: int|
                0 <= i < cfg.dflash_config.target_layer_ids@.len()
                    ==> #[trigger] cfg.dflash_config.target_layer_ids@[i] < layers
        },
{
}

/// Whatever is wrong with a draft is told as a fault of the configuration.
pub proof fn law_faults_are_of_the_configuration(
    cfg: DFlashConfig,
    hidden: usize,
    vocab: usize,
    layers: usize,
)
    ensures
        cfg.problem() matches Some(e) ==> e is Config,
        cfg.target_problem(hidden, vocab, layers) matches Some(e) ==> e is Config,
{
}

} // verus!
