//! Greedy decoding of one page, a token at a time.
use crate::speculative::{self, Decoded, Round};
use crate::tokens;
use vstd::prelude::*;

verus! {

/// The decoding of one page.
#[derive(Debug)]
pub struct GreedyDecoder {
    pub generated: Vec<u32>,
    pub max_new_tokens: usize,
    /// The position at which the next generated token is fed back.
    pub next_position: i64,
    pub stopped: bool,
}

impl GreedyDecoder {
    /// What has been decoded.
    pub open spec fn decoded(self) -> Decoded {
        Decoded { tokens: self.generated@, stopped: self.stopped }
    }

    /// Begins a page whose prompt has been processed.
    pub fn new(max_new_tokens: usize, next_position: i64) -> (d: GreedyDecoder)
        ensures
            d.decoded() == (Decoded { tokens: Seq::empty(), stopped: false }),
            d.max_new_tokens == max_new_tokens,
            d.next_position == next_position,
    {
        GreedyDecoder { generated: Vec::new(), max_new_tokens, next_position, stopped: false }
    }

    /// Whether another choice of the model is wanted.
    pub fn wants_token(&self) -> (r: bool)
        ensures
            r == speculative::unfinished(self.decoded(), self.max_new_tokens as nat),
    {
        !self.stopped && self.generated.len() < self.max_new_tokens
    }

    /// Takes the model's choice. Hands back the position at which it is fed to the
    /// model for the next choice, or nothing when the page is done.
    pub fn take(&mut self, token: u32, stop_token_ids: &Vec<u32>) -> (feed_at: Option<i64>)
        requires
            !old(self).stopped,
            old(self).generated.len() < old(self).max_new_tokens,
            old(self).next_position < i64::MAX,
        ensures
            final(self).decoded() == speculative::take_token(
                old(self).decoded(),
                token,
                stop_token_ids@,
            ),
            final(self).max_new_tokens == old(self).max_new_tokens,
            feed_at == if !final(self).stopped && final(self).generated.len()
                < final(self).max_new_tokens {
                Some(old(self).next_position)
            } else {
                None
            },
            final(self).next_position == old(self).next_position + if feed_at is Some {
                1int
            } else {
                0
            },
    {
        if tokens::contains(stop_token_ids, token) {
            self.stopped = true;
            return None;
        }
        self.generated.push(token);
        if self.generated.len() == self.max_new_tokens {
            return None;
        }
        let at: i64 = self.next_position;
        self.next_position = at + 1;
        Some(at)
    }
}

/// A page after the model's choices were taken one by one.
pub open spec fn taken(choices: Seq<u32>, stops: Seq<u32>) -> Decoded
    decreases choices.len(),
{
    if choices.len() == 0 {
        Decoded { tokens: Seq::empty(), stopped: false }
    } else {
        speculative::take_token(taken(choices.drop_last(), stops), choices.last(), stops)
    }
}

/// `choices` are the model's: each is wanted, and is what the model ranks first behind
/// the prompt and the text so far.
pub open spec fn are_choices(
    next: spec_fn(Seq<u32>) -> u32,
    prompt: Seq<u32>,
    choices: Seq<u32>,
    stops: Seq<u32>,
    max: nat,
) -> bool
    decreases choices.len(),
{
    choices.len() == 0 || {
        let d = taken(choices.drop_last(), stops);
        &&& are_choices(next, prompt, choices.drop_last(), stops, max)
        &&& speculative::unfinished(d, max)
        &&& choices.last() == next(prompt + d.tokens)
    }
}

/// A page whose every choice is the model's first one behind the prompt and the
/// text so far is the autoregressive page: while it is unfinished, that of its length,
/// and once it is finished, that for the whole limit.
pub proof fn law_taking_choices_is_autoregressive(
    next: spec_fn(Seq<u32>) -> u32,
    prompt: Seq<u32>,
    choices: Seq<u32>,
    stops: Seq<u32>,
    max: nat,
)
    requires
        are_choices(next, prompt, choices, stops, max),
    ensures
        ({
            let d = taken(choices, stops);
            &&& speculative::unfinished(d, max) ==> d == speculative::autoregressive(
                next,
                prompt,
                stops,
                d.tokens.len(),
            )
            &&& !speculative::unfinished(d, max) ==> d == speculative::autoregressive(
                next,
                prompt,
                stops,
                max,
            )
            &&& d.tokens.len() <= choices.len() <= max
            &&& !d.stopped ==> d.tokens.len() == choices.len()
        }),
    decreases choices.len(),
{
    if choices.len() > 0 {
        let before = taken(choices.drop_last(), stops);
        law_taking_choices_is_autoregressive(next, prompt, choices.drop_last(), stops, max);
        let d = taken(choices, stops);
        assert(d == speculative::autoregressive(next, prompt, stops, before.tokens.len() + 1));
        if d.stopped {
            speculative::lemma_stopped_stays(next, prompt, stops, before.tokens.len() + 1, max);
        }
    }
}

/// A finished page that was decoded with drafts is the finished page whose choices were
/// taken one by one.
pub proof fn law_drafted_page_is_the_page_of_choices(
    next: spec_fn(Seq<u32>) -> u32,
    prompt: Seq<u32>,
    rounds: Seq<Round>,
    choices: Seq<u32>,
    stops: Seq<u32>,
    max: nat,
)
    requires
        speculative::are_rounds(next, prompt, rounds, stops, max),
        are_choices(next, prompt, choices, stops, max),
        !speculative::unfinished(speculative::page(next(prompt), rounds, stops, max), max),
        !speculative::unfinished(taken(choices, stops), max),
    ensures
        speculative::page(next(prompt), rounds, stops, max) == taken(choices, stops),
{
    speculative::law_page_is_autoregressive(next, prompt, rounds, stops, max);
    law_taking_choices_is_autoregressive(next, prompt, choices, stops, max);
}

} // verus!
