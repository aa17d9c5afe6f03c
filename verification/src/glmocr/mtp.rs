//! Draft-and-verify decoding with the multi-token prediction head.
use crate::error::{Error, ErrorView, Message};
use crate::speculative::{self, Decoded, Round};
use crate::text;
use crate::tokens;
use vstd::prelude::*;

verus! {

/// Drafts of one round.
pub const GLM_MTP_DRAFT_TOKENS: usize = 4;

/// Positions that one round verifies.
pub const GLM_MTP_QUERY_LEN: usize = 5;

/// The decoding of one page. `current_token` is certain but not emitted yet.
#[derive(Debug)]
pub struct MtpDecoder {
    pub generated: Vec<u32>,
    pub current_token: u32,
    /// Positions in the K/V cache of the target.
    pub target_cache_len: usize,
    /// The rotary position of `current_token`.
    pub target_position: i64,
    pub max_new_tokens: usize,
}

/// What follows a verification.
#[derive(Debug)]
pub enum MtpStep {
    /// The page is complete.
    Done,
    /// The caches keep `keep` of the verified positions; the draft head is fed
    /// `sync_ids` next.
    Continue { keep: usize, sync_ids: Vec<u32> },
}

impl MtpDecoder {
    /// The text with the certain token.
    pub open spec fn certain(self) -> Decoded {
        Decoded { tokens: self.generated@.push(self.current_token), stopped: false }
    }

    /// Begins a page whose prompt has been processed; `first` is the target's choice
    /// behind it. Nothing is decoded where no token is wanted or the page is empty.
    pub fn start(
        prompt_len: usize,
        rope_delta: i64,
        first: u32,
        max_new_tokens: usize,
        eos_token_ids: &Vec<u32>,
    ) -> (r: Option<MtpDecoder>)
        requires
            prompt_len <= i64::MAX,
            i64::MIN <= prompt_len + rope_delta <= i64::MAX,
        ensures
            match r {
                None => {
                    let d = speculative::begins(first, eos_token_ids@, max_new_tokens as nat);
                    &&& max_new_tokens == 0 || eos_token_ids@.contains(first)
                    &&& !speculative::unfinished(d, max_new_tokens as nat)
                    &&& d.tokens == Seq::<u32>::empty()
                },
                Some(d) => {
                    &&& max_new_tokens > 0
                    &&& !eos_token_ids@.contains(first)
                    &&& d.certain() == speculative::begins(
                        first,
                        eos_token_ids@,
                        max_new_tokens as nat,
                    )
                    &&& d.generated@ == Seq::<u32>::empty()
                    &&& d.current_token == first
                    &&& d.target_cache_len == prompt_len
                    &&& d.target_position == prompt_len + rope_delta
                    &&& d.max_new_tokens == max_new_tokens
                },
            },
    {
        if max_new_tokens == 0 || tokens::contains(eos_token_ids, first) {
            return None;
        }
        Some(
            MtpDecoder {
                generated: Vec::new(),
                current_token: first,
                target_cache_len: prompt_len,
                target_position: prompt_len as i64 + rope_delta,
                max_new_tokens,
            },
        )
    }

    /// Emits the certain token. Hands back whether a round is wanted.
    pub fn emit_current(&mut self) -> (go_on: bool)
        requires
            old(self).generated.len() < old(self).max_new_tokens,
        ensures
            final(self).generated@ == old(self).certain().tokens,
            final(self).current_token == old(self).current_token,
            final(self).target_cache_len == old(self).target_cache_len,
            final(self).target_position == old(self).target_position,
            final(self).max_new_tokens == old(self).max_new_tokens,
            go_on == speculative::unfinished(
                old(self).certain(),
                old(self).max_new_tokens as nat,
            ),
    {
        self.generated.push(self.current_token);
        self.generated.len() < self.max_new_tokens
    }

    /// The ids that the target verifies: the certain token and the drafts.
    pub fn query_ids(&self, drafts: &Vec<u32>) -> (ids: Vec<u32>)
        ensures
            ids@ == seq![self.current_token] + drafts@,
    {
        let mut ids: Vec<u32> = Vec::new();
        ids.push(self.current_token);
        tokens::push_all(&mut ids, drafts);
        proof {
            assert(ids@ =~= seq![self.current_token] + drafts@);
        }
        ids
    }

    /// Takes the target's choices: `targets[i]` is its choice behind the text and
    /// `i` drafts.
    pub fn verify(&mut self, drafts: &Vec<u32>, targets: &Vec<u32>, eos_token_ids: &Vec<u32>)
        -> (r: Result<MtpStep, Error>)
        requires
            drafts.len() == 4,
            old(self).generated.len() < old(self).max_new_tokens,
            old(self).target_cache_len + 5 <= usize::MAX,
            old(self).target_position + 5 <= i64::MAX,
        ensures
            targets.len() != 5 ==> (r matches Err(e) && e@ == ErrorView::InvalidInput(
                "GLM-OCR: verification returned "@ + text::dec(targets@.len())
                    + " tokens, expected 5"@,
            )) && *final(self) == *old(self),
            targets.len() == 5 ==> r is Ok,
            final(self).max_new_tokens == old(self).max_new_tokens,
            targets.len() == 5 ==> ({
                let full = speculative::take_tokens(
                    Decoded { tokens: old(self).generated@, stopped: false },
                    speculative::round_yield(drafts@, targets@),
                    eos_token_ids@,
                    old(self).max_new_tokens as nat,
                );
                let m = speculative::matched(drafts@, targets@);
                match r {
                    Ok(MtpStep::Done) => {
                        &&& final(self).generated@ == full.tokens
                        &&& full.stopped || full.tokens.len() == old(self).max_new_tokens
                        &&& final(self).current_token == old(self).current_token
                        &&& final(self).target_cache_len == old(self).target_cache_len
                        &&& final(self).target_position == old(self).target_position
                    },
                    Ok(MtpStep::Continue { keep, sync_ids }) => {
                        &&& !full.stopped
                        &&& final(self).certain() == full
                        &&& full.tokens.len() <= old(self).max_new_tokens
                        &&& keep == m + 1
                        &&& sync_ids@ == speculative::round_yield(drafts@, targets@)
                        &&& final(self).target_cache_len == old(self).target_cache_len + keep
                        &&& final(self).target_position == old(self).target_position + keep
                        &&& !eos_token_ids@.contains(final(self).current_token)
                    },
                    Err(_) => false,
                }
            }),
    {
        if targets.len() != GLM_MTP_QUERY_LEN {
            return Err(
                Message::new("GLM-OCR: verification returned ").num(targets.len() as u64).text(
                    " tokens, expected 5",
                ).invalid_input(),
            );
        }
        let accepted: usize = speculative::accepted_prefix(drafts, targets);
        let ghost d0 = Decoded { tokens: self.generated@, stopped: false };
        let ghost gained = speculative::round_yield(drafts@, targets@);
        let ghost max = self.max_new_tokens as nat;
        let mut i: usize = 0;
        proof {
            assert(gained.skip(0) =~= gained);
        }
        while i < accepted
            invariant
                i <= accepted <= 4,
                drafts.len() == 4,
                targets.len() == 5,
                accepted == speculative::matched(drafts@, targets@),
                forall|j: int| 0 <= j < accepted ==> drafts[j] == targets[j],
                gained == targets@.take(accepted + 1),
                gained == speculative::round_yield(drafts@, targets@),
                d0 == (Decoded { tokens: old(self).generated@, stopped: false }),
                max == self.max_new_tokens,
                self.max_new_tokens == old(self).max_new_tokens,
                self.current_token == old(self).current_token,
                self.target_cache_len == old(self).target_cache_len,
                self.target_position == old(self).target_position,
                self.generated.len() < self.max_new_tokens,
                speculative::take_tokens(d0, gained, eos_token_ids@, max)
                    == speculative::take_tokens(
                    Decoded { tokens: self.generated@, stopped: false },
                    gained.skip(i as int),
                    eos_token_ids@,
                    max,
                ),
            decreases accepted - i,
        {
            let token: u32 = drafts[i];
            let ghost rest = gained.skip(i as int);
            let ghost here = Decoded { tokens: self.generated@, stopped: false };
            let ghost there = speculative::take_token(here, token, eos_token_ids@);
            proof {
                assert(rest[0] == token);
                assert(rest.skip(1) =~= gained.skip(i + 1));
                assert(speculative::take_tokens(here, rest, eos_token_ids@, max)
                    == speculative::take_tokens(there, rest.skip(1), eos_token_ids@, max));
                assert(there.stopped || there.tokens.len() >= max ==> speculative::take_tokens(
                    there,
                    rest.skip(1),
                    eos_token_ids@,
                    max,
                ) == there);
            }
            if tokens::contains(eos_token_ids, token) {
                return Ok(MtpStep::Done);
            }
            self.generated.push(token);
            if self.generated.len() == self.max_new_tokens {
                return Ok(MtpStep::Done);
            }
            i = i + 1;
        }
        let next_token: u32 = targets[accepted];
        let keep: usize = accepted + 1;
        proof {
            let here = Decoded { tokens: self.generated@, stopped: false };
            let rest = gained.skip(accepted as int);
            let there = speculative::take_token(here, next_token, eos_token_ids@);
            assert(rest.len() == 1);
            assert(rest[0] == next_token);
            assert(speculative::take_tokens(here, rest, eos_token_ids@, max)
                == speculative::take_tokens(there, rest.skip(1), eos_token_ids@, max));
            assert(speculative::take_tokens(there, rest.skip(1), eos_token_ids@, max) == there);
        }
        if tokens::contains(eos_token_ids, next_token) {
            return Ok(MtpStep::Done);
        }
        self.target_cache_len = self.target_cache_len + keep;
        self.target_position = self.target_position + keep as i64;
        self.current_token = next_token;
        let mut sync_ids: Vec<u32> = Vec::new();
        let mut j: usize = 0;
        while j < keep
            invariant
                j <= keep <= targets.len(),
                sync_ids@ =~= targets@.take(j as int),
            decreases keep - j,
        {
            sync_ids.push(targets[j]);
            j = j + 1;
        }
        Ok(MtpStep::Continue { keep, sync_ids })
    }
}

/// The prompt that the draft head is synchronized with: the prompt without its
/// first token, then the certain token.
pub fn shifted_prompt(prompt: &Vec<u32>, current_token: u32) -> (ids: Vec<u32>)
    requires
        prompt.len() > 0,
    ensures
        ids@ == prompt@.skip(1).push(current_token),
{
    let mut ids: Vec<u32> = Vec::new();
    let mut i: usize = 1;
    while i < prompt.len()
        invariant
            1 <= i <= prompt.len(),
            ids@ =~= prompt@.subrange(1, i as int),
        decreases prompt.len() - i,
    {
        ids.push(prompt[i]);
        i = i + 1;
    }
    proof {
        assert(ids@ =~= prompt@.skip(1));
    }
    ids.push(current_token);
    ids
}

/// The rotary position at which the draft head predicts the draft that follows
/// `drafted` earlier ones.
pub fn draft_position(target_position: i64, drafted: usize) -> (p: i64)
    requires
        0 < drafted <= 4,
        target_position + 4 <= i64::MAX,
    ensures
        p == target_position + drafted - 1,
{
    target_position + (drafted as i64 - 1)
}

/// Whether a page is decoded with drafts.
pub fn uses_mtp(head_loaded: bool, bf16: bool, max_new_tokens: usize, disabled: bool) -> (r: bool)
    ensures
        r == (head_loaded && bf16 && max_new_tokens >= 8 && !disabled),
{
    head_loaded && bf16 && max_new_tokens >= 8 && !disabled
}

/// A page that is decoded in rounds, from its start to its end, has the text of decoding
/// one by one, whatever the head drafted. It is no longer than the limit and holds no
/// end token, and a page without room for a token is empty.
pub proof fn law_mtp_page_is_autoregressive(
    next: spec_fn(Seq<u32>) -> u32,
    prompt: Seq<u32>,
    rounds: Seq<Round>,
    eos_token_ids: Seq<u32>,
    max: nat,
)
    requires
        speculative::are_rounds(next, prompt, rounds, eos_token_ids, max),
    ensures
        ({
            let d = speculative::page(next(prompt), rounds, eos_token_ids, max);
            &&& speculative::unfinished(d, max) ==> d == speculative::autoregressive(
                next,
                prompt,
                eos_token_ids,
                d.tokens.len(),
            )
            &&& !speculative::unfinished(d, max) ==> d == speculative::autoregressive(
                next,
                prompt,
                eos_token_ids,
                max,
            )
            &&& rounds.len() <= d.tokens.len() <= max
            &&& forall|i: int|
                0 <= i < d.tokens.len() ==> !eos_token_ids.contains(#[trigger] d.tokens[i])
            &&& max == 0 ==> d.tokens.len() == 0
        }),
{
    speculative::law_page_is_autoregressive(next, prompt, rounds, eos_token_ids, max);
}

} // verus!
