//! Draft-and-verify decoding: what a verified draft says about plain greedy
//! decoding.
use vstd::prelude::*;

verus! {

/// `ctx` followed by the `n` tokens that greedy decoding appends to it, where
/// `next` names the token that the model ranks first behind a context.
pub open spec fn greedy(next: spec_fn(Seq<u32>) -> u32, ctx: Seq<u32>, n: nat) -> Seq<u32>
    decreases n,
{
    if n == 0 {
        ctx
    } else {
        let before = greedy(next, ctx, (n - 1) as nat);
        before.push(next(before))
    }
}

/// `targets[i]` is what the model ranks first behind `ctx` and the first `i`
/// drafts. One forward pass over the drafts yields these.
pub open spec fn verifies(
    next: spec_fn(Seq<u32>) -> u32,
    ctx: Seq<u32>,
    drafts: Seq<u32>,
    targets: Seq<u32>,
) -> bool {
    &&& targets.len() == drafts.len() + 1
    &&& forall|i: int| 0 <= i < targets.len() ==> targets[i] == next(ctx + #[trigger] drafts.take(i))
}

/// How far `drafts` and `targets` agree from place `i` on.
pub open spec fn matched_from(drafts: Seq<u32>, targets: Seq<u32>, i: nat) -> nat
    decreases drafts.len() - i,
{
    if i < drafts.len() && i < targets.len() && drafts[i as int] == targets[i as int] {
        matched_from(drafts, targets, i + 1)
    } else {
        i
    }
}

/// The number of leading drafts that the model would have chosen itself.
pub open spec fn matched(drafts: Seq<u32>, targets: Seq<u32>) -> nat {
    matched_from(drafts, targets, 0)
}

/// What [`matched_from`] counts.
pub proof fn lemma_matched_from(drafts: Seq<u32>, targets: Seq<u32>, i: nat)
    requires
        i <= drafts.len(),
        i <= targets.len(),
    ensures
        ({
            let m = matched_from(drafts, targets, i);
            &&& i <= m <= drafts.len()
            &&& m <= targets.len()
            &&& forall|j: int| i <= j < m ==> drafts[j] == targets[j]
            &&& m < drafts.len() && m < targets.len() ==> drafts[m as int] != targets[m as int]
        }),
    decreases drafts.len() - i,
{
    if i < drafts.len() && i < targets.len() && drafts[i as int] == targets[i as int] {
        lemma_matched_from(drafts, targets, i + 1);
    }
}

/// Counts the leading drafts that the model confirmed.
pub fn accepted_prefix(drafts: &Vec<u32>, targets: &Vec<u32>) -> (m: usize)
    ensures
        m == matched(drafts@, targets@),
        m <= drafts.len(),
        m <= targets.len(),
        forall|j: int| 0 <= j < m ==> drafts[j] == targets[j],
        m < drafts.len() && m < targets.len() ==> drafts[m as int] != targets[m as int],
{
    proof {
        lemma_matched_from(drafts@, targets@, 0);
    }
    let mut i: usize = 0;
    while i < drafts.len() && i < targets.len() && drafts[i] == targets[i]
        invariant
            i <= drafts.len(),
            i <= targets.len(),
            matched(drafts@, targets@) == matched_from(drafts@, targets@, i as nat),
        decreases drafts.len() - i,
    {
        i = i + 1;
    }
    i
}

/// The confirmed drafts together with the first target that was not drafted are
/// exactly what greedy decoding appends: verification never changes the output.
pub proof fn law_verified_prefix_is_greedy(
    next: spec_fn(Seq<u32>) -> u32,
    ctx: Seq<u32>,
    drafts: Seq<u32>,
    targets: Seq<u32>,
    n: nat,
)
    requires
        verifies(next, ctx, drafts, targets),
        n <= matched(drafts, targets) + 1,
    ensures
        greedy(next, ctx, n) == ctx + targets.take(n as int),
    decreases n,
{
    lemma_matched_from(drafts, targets, 0);
    if n == 0 {
        assert(ctx + targets.take(0) == ctx);
    } else {
        law_verified_prefix_is_greedy(next, ctx, drafts, targets, (n - 1) as nat);
        let before = greedy(next, ctx, (n - 1) as nat);
        assert(targets.take(n - 1) == drafts.take(n - 1));
        assert(targets[n - 1] == next(ctx + drafts.take(n - 1)));
        assert(before.push(targets[n - 1]) == ctx + targets.take(n as int));
    }
}

/// Running greedy decoding on is the same as starting it again where it stopped.
pub proof fn law_greedy_resumes(
    next: spec_fn(Seq<u32>) -> u32,
    ctx: Seq<u32>,
    m: nat,
    n: nat,
)
    ensures
        greedy(next, greedy(next, ctx, m), n) == greedy(next, ctx, m + n),
    decreases n,
{
    if n > 0 {
        law_greedy_resumes(next, ctx, m, (n - 1) as nat);
    }
}

/// Greedy decoding only appends, one token for each step.
pub proof fn law_greedy_extends(next: spec_fn(Seq<u32>) -> u32, ctx: Seq<u32>, n: nat)
    ensures
        greedy(next, ctx, n).len() == ctx.len() + n,
        greedy(next, ctx, n).take(ctx.len() as int) == ctx,
    decreases n,
{
    if n > 0 {
        law_greedy_extends(next, ctx, (n - 1) as nat);
        let before = greedy(next, ctx, (n - 1) as nat);
        assert(before.push(next(before)).take(ctx.len() as int) == before.take(ctx.len() as int));
    } else {
        assert(ctx.take(ctx.len() as int) == ctx);
    }
}

/// Decoding that ends at a stop token: what has been generated, and whether a stop
/// token came up.
pub struct Decoded {
    pub tokens: Seq<u32>,
    pub stopped: bool,
}

/// The state after `token` was chosen. A stop token ends the text and is not part
/// of it.
pub open spec fn take_token(d: Decoded, token: u32, stops: Seq<u32>) -> Decoded {
    if d.stopped {
        d
    } else if stops.contains(token) {
        Decoded { stopped: true, ..d }
    } else {
        Decoded { tokens: d.tokens.push(token), stopped: false }
    }
}

/// The state after `n` steps of autoregressive decoding behind `prompt`.
pub open spec fn autoregressive(
    next: spec_fn(Seq<u32>) -> u32,
    prompt: Seq<u32>,
    stops: Seq<u32>,
    n: nat,
) -> Decoded
    decreases n,
{
    if n == 0 {
        Decoded { tokens: Seq::empty(), stopped: false }
    } else {
        let before = autoregressive(next, prompt, stops, (n - 1) as nat);
        take_token(before, next(prompt + before.tokens), stops)
    }
}

/// The state after a list of tokens was chosen, with room for `max` tokens.
pub open spec fn take_tokens(d: Decoded, tokens: Seq<u32>, stops: Seq<u32>, max: nat) -> Decoded
    decreases tokens.len(),
{
    if tokens.len() == 0 || d.stopped || d.tokens.len() >= max {
        d
    } else {
        take_tokens(take_token(d, tokens[0], stops), tokens.skip(1), stops, max)
    }
}

/// The text never holds a stop token, never outgrows the number of steps, and is
/// what greedy decoding appends to the prompt.
pub proof fn law_decoding_is_greedy_up_to_a_stop(
    next: spec_fn(Seq<u32>) -> u32,
    prompt: Seq<u32>,
    stops: Seq<u32>,
    n: nat,
)
    ensures
        ({
            let d = autoregressive(next, prompt, stops, n);
            &&& d.tokens.len() <= n
            &&& !d.stopped ==> d.tokens.len() == n
            &&& forall|i: int| 0 <= i < d.tokens.len() ==> !stops.contains(#[trigger] d.tokens[i])
            &&& prompt + d.tokens == greedy(next, prompt, d.tokens.len())
            &&& d.stopped ==> stops.contains(next(prompt + d.tokens))
        }),
    decreases n,
{
    if n == 0 {
        assert(prompt + Seq::<u32>::empty() =~= prompt);
    } else {
        law_decoding_is_greedy_up_to_a_stop(next, prompt, stops, (n - 1) as nat);
        let before = autoregressive(next, prompt, stops, (n - 1) as nat);
        let t = next(prompt + before.tokens);
        if !before.stopped && !stops.contains(t) {
            assert(prompt + before.tokens.push(t) =~= (prompt + before.tokens).push(t));
        }
    }
}

/// Once a stop token came up, more steps change nothing.
pub proof fn lemma_stopped_stays(
    next: spec_fn(Seq<u32>) -> u32,
    prompt: Seq<u32>,
    stops: Seq<u32>,
    m: nat,
    n: nat,
)
    requires
        m <= n,
        autoregressive(next, prompt, stops, m).stopped,
    ensures
        autoregressive(next, prompt, stops, n) == autoregressive(next, prompt, stops, m),
    decreases n,
{
    if m < n {
        lemma_stopped_stays(next, prompt, stops, m, (n - 1) as nat);
    }
}

/// Taking the verified tokens of a round one by one is autoregressive decoding:
/// `tokens[i]` is what the model ranks first behind the prompt, the text so far and
/// the first `i` of them.
pub proof fn law_taking_verified_tokens_is_autoregressive(
    next: spec_fn(Seq<u32>) -> u32,
    prompt: Seq<u32>,
    stops: Seq<u32>,
    d: Decoded,
    tokens: Seq<u32>,
    max: nat,
)
    requires
        d.tokens.len() <= max,
        !d.stopped,
        d == autoregressive(next, prompt, stops, d.tokens.len()),
        forall|i: int|
            0 <= i < tokens.len() ==> tokens[i] == next(prompt + d.tokens + #[trigger] tokens.take(i)),
    ensures
        ({
            let e = take_tokens(d, tokens, stops, max);
            &&& e.tokens.len() <= max
            &&& e.stopped ==> e == autoregressive(next, prompt, stops, max)
            &&& !e.stopped ==> e == autoregressive(next, prompt, stops, e.tokens.len())
            &&& !e.stopped ==> e.tokens.len() == max || e.tokens.len() == d.tokens.len()
                + tokens.len()
            &&& e.tokens.len() >= d.tokens.len()
        }),
    decreases tokens.len(),
{
    let len = d.tokens.len();
    if tokens.len() == 0 || len >= max {
    } else {
        let t = tokens[0];
        assert(tokens.take(0) =~= Seq::<u32>::empty());
        assert(prompt + d.tokens + tokens.take(0) =~= prompt + d.tokens);
        assert(t == next(prompt + d.tokens));
        let d1 = take_token(d, t, stops);
        assert(d1 == autoregressive(next, prompt, stops, len + 1));
        let rest = tokens.skip(1);
        if d1.stopped {
            lemma_stopped_stays(next, prompt, stops, len + 1, max);
            assert(take_tokens(d1, rest, stops, max) == d1);
        } else {
            assert forall|i: int| 0 <= i < rest.len() implies rest[i] == next(
                prompt + d1.tokens + #[trigger] rest.take(i),
            ) by {
                assert(tokens.take(i + 1) =~= seq![t] + rest.take(i));
                assert(prompt + d1.tokens + rest.take(i) =~= prompt + d.tokens + tokens.take(
                    i + 1,
                ));
                assert(tokens[i + 1] == next(prompt + d.tokens + tokens.take(i + 1)));
            }
            law_taking_verified_tokens_is_autoregressive(next, prompt, stops, d1, rest, max);
        }
    }
}

/// A list that is taken without meeting a stop token or the limit is taken whole.
pub proof fn lemma_take_tokens_whole(d: Decoded, tokens: Seq<u32>, stops: Seq<u32>, max: nat)
    requires
        !d.stopped,
    ensures
        ({
            let e = take_tokens(d, tokens, stops, max);
            &&& d.tokens.len() <= e.tokens.len()
            &&& e.tokens.len() <= max || e.tokens.len() == d.tokens.len()
            &&& !e.stopped && e.tokens.len() < max ==> e.tokens.len() == d.tokens.len()
                + tokens.len()
        }),
    decreases tokens.len(),
{
    if tokens.len() > 0 && d.tokens.len() < max {
        let d1 = take_token(d, tokens[0], stops);
        if d1.stopped {
            assert(take_tokens(d1, tokens.skip(1), stops, max) == d1);
        } else {
            lemma_take_tokens_whole(d1, tokens.skip(1), stops, max);
        }
    }
}

/// The tokens that a verification round yields: the accepted drafts and the first
/// target behind them.
pub open spec fn round_yield(drafts: Seq<u32>, targets: Seq<u32>) -> Seq<u32> {
    targets.take(matched(drafts, targets) as int + 1)
}

/// A draft-and-verify round followed by taking its yield is autoregressive
/// decoding: whether drafts are accepted changes how fast, not what, is decoded.
pub proof fn law_rounds_are_autoregressive(
    next: spec_fn(Seq<u32>) -> u32,
    prompt: Seq<u32>,
    stops: Seq<u32>,
    d: Decoded,
    drafts: Seq<u32>,
    targets: Seq<u32>,
    max: nat,
)
    requires
        d.tokens.len() <= max,
        !d.stopped,
        d == autoregressive(next, prompt, stops, d.tokens.len()),
        verifies(next, prompt + d.tokens, drafts, targets),
    ensures
        ({
            let e = take_tokens(d, round_yield(drafts, targets), stops, max);
            &&& e.tokens.len() <= max
            &&& e.stopped ==> e == autoregressive(next, prompt, stops, max)
            &&& !e.stopped ==> e == autoregressive(next, prompt, stops, e.tokens.len())
            &&& !e.stopped ==> e.tokens.len() == max || e.tokens.len() > d.tokens.len()
        }),
{
    lemma_matched_from(drafts, targets, 0);
    let m = matched(drafts, targets);
    let tokens = round_yield(drafts, targets);
    assert forall|i: int| 0 <= i < tokens.len() implies tokens[i] == next(
        prompt + d.tokens + #[trigger] tokens.take(i),
    ) by {
        assert(tokens.take(i) =~= drafts.take(i));
        assert(targets[i] == next(prompt + d.tokens + drafts.take(i)));
    }
    law_taking_verified_tokens_is_autoregressive(next, prompt, stops, d, tokens, max);
}

/// One round of a page: what was drafted, and what the model ranks first behind each
/// prefix of the drafts.
pub struct Round {
    pub drafts: Seq<u32>,
    pub targets: Seq<u32>,
}

/// A page that wants another token.
pub open spec fn unfinished(d: Decoded, max: nat) -> bool {
    !d.stopped && d.tokens.len() < max
}

/// A page whose first token is chosen, with room for `max` tokens.
pub open spec fn begins(first: u32, stops: Seq<u32>, max: nat) -> Decoded {
    let nothing = Decoded { tokens: Seq::empty(), stopped: false };
    if max == 0 {
        nothing
    } else {
        take_token(nothing, first, stops)
    }
}

/// A page after some rounds.
pub open spec fn after_rounds(d: Decoded, rounds: Seq<Round>, stops: Seq<u32>, max: nat) -> Decoded
    decreases rounds.len(),
{
    if rounds.len() == 0 {
        d
    } else {
        let round = rounds.last();
        take_tokens(
            after_rounds(d, rounds.drop_last(), stops, max),
            round_yield(round.drafts, round.targets),
            stops,
            max,
        )
    }
}

/// A page from its start on: the first token, then `rounds`.
pub open spec fn page(first: u32, rounds: Seq<Round>, stops: Seq<u32>, max: nat) -> Decoded {
    after_rounds(begins(first, stops, max), rounds, stops, max)
}

/// `rounds` are rounds of a page behind `prompt`: each takes place while the page wants
/// another token, and the model verifies its drafts, whatever they are.
pub open spec fn are_rounds(
    next: spec_fn(Seq<u32>) -> u32,
    prompt: Seq<u32>,
    rounds: Seq<Round>,
    stops: Seq<u32>,
    max: nat,
) -> bool
    decreases rounds.len(),
{
    rounds.len() == 0 || {
        let d = page(next(prompt), rounds.drop_last(), stops, max);
        let round = rounds.last();
        &&& are_rounds(next, prompt, rounds.drop_last(), stops, max)
        &&& unfinished(d, max)
        &&& verifies(next, prompt + d.tokens, round.drafts, round.targets)
    }
}

/// A page that is decoded in rounds is the page of plain autoregressive decoding,
/// whatever was drafted: while it is unfinished, its text is the autoregressive one of
/// its length, and once it is finished, it is the autoregressive one for the whole
/// limit. Every round brings the page on, so that there are no more rounds than tokens.
pub proof fn law_page_is_autoregressive(
    next: spec_fn(Seq<u32>) -> u32,
    prompt: Seq<u32>,
    rounds: Seq<Round>,
    stops: Seq<u32>,
    max: nat,
)
    requires
        are_rounds(next, prompt, rounds, stops, max),
    ensures
        ({
            let d = page(next(prompt), rounds, stops, max);
            &&& unfinished(d, max) ==> d == autoregressive(next, prompt, stops, d.tokens.len())
            &&& !unfinished(d, max) ==> d == autoregressive(next, prompt, stops, max)
            &&& rounds.len() <= d.tokens.len() <= max
            &&& unfinished(d, max) ==> rounds.len() < d.tokens.len()
            &&& forall|i: int| 0 <= i < d.tokens.len() ==> !stops.contains(#[trigger] d.tokens[i])
        }),
    decreases rounds.len(),
{
    let d = page(next(prompt), rounds, stops, max);
    if rounds.len() == 0 {
        let none = autoregressive(next, prompt, stops, 0);
        assert(prompt + none.tokens =~= prompt);
        if max > 0 {
            assert(d == autoregressive(next, prompt, stops, 1));
            if d.stopped {
                lemma_stopped_stays(next, prompt, stops, 1, max);
            }
        }
    } else {
        let before = rounds.drop_last();
        let d0 = page(next(prompt), before, stops, max);
        let round = rounds.last();
        law_page_is_autoregressive(next, prompt, before, stops, max);
        law_rounds_are_autoregressive(
            next,
            prompt,
            stops,
            d0,
            round.drafts,
            round.targets,
            max,
        );
        lemma_take_tokens_whole(d0, round_yield(round.drafts, round.targets), stops, max);
    }
    if unfinished(d, max) {
        law_decoding_is_greedy_up_to_a_stop(next, prompt, stops, d.tokens.len());
    } else {
        law_decoding_is_greedy_up_to_a_stop(next, prompt, stops, max);
    }
}

/// Two finished pages behind one prompt are the same, whatever was drafted for each.
pub proof fn law_drafts_do_not_change_a_page(
    next: spec_fn(Seq<u32>) -> u32,
    prompt: Seq<u32>,
    rounds: Seq<Round>,
    other_rounds: Seq<Round>,
    stops: Seq<u32>,
    max: nat,
)
    requires
        are_rounds(next, prompt, rounds, stops, max),
        are_rounds(next, prompt, other_rounds, stops, max),
        !unfinished(page(next(prompt), rounds, stops, max), max),
        !unfinished(page(next(prompt), other_rounds, stops, max), max),
    ensures
        page(next(prompt), rounds, stops, max) == page(next(prompt), other_rounds, stops, max),
{
    law_page_is_autoregressive(next, prompt, rounds, stops, max);
    law_page_is_autoregressive(next, prompt, other_rounds, stops, max);
}

/// A round yields the drafts that the model confirmed, all of them, and its own choice
/// behind these.
pub proof fn law_round_yields_the_confirmed_and_one_more(drafts: Seq<u32>, targets: Seq<u32>, m: nat)
    requires
        targets.len() == drafts.len() + 1,
        m <= drafts.len(),
        forall|i: int| 0 <= i < m ==> #[trigger] drafts[i] == targets[i],
        m < drafts.len() ==> drafts[m as int] != targets[m as int],
    ensures
        matched(drafts, targets) == m,
        round_yield(drafts, targets) == drafts.take(m as int).push(targets[m as int]),
{
    lemma_matched_from(drafts, targets, 0);
    let found = matched(drafts, targets);
    if found < m {
        assert(drafts[found as int] == targets[found as int]);
    }
    if m < found {
        assert(drafts[m as int] == targets[m as int]);
    }
    assert(round_yield(drafts, targets) =~= drafts.take(m as int).push(targets[m as int]));
}

/// Tokens are taken one by one as long as the text may go on: a stop token ends it
/// without being taken, and so does the limit.
pub proof fn law_tokens_are_taken_up_to_a_stop(d: Decoded, token: u32, rest: Seq<u32>, stops: Seq<u32>, max: nat)
    ensures
        take_tokens(d, Seq::empty(), stops, max) == d,
        d.stopped || d.tokens.len() >= max ==> take_tokens(d, seq![token] + rest, stops, max) == d,
        !d.stopped && d.tokens.len() < max && stops.contains(token) ==> take_tokens(
            d,
            seq![token] + rest,
            stops,
            max,
        ) == (Decoded { tokens: d.tokens, stopped: true }),
        !d.stopped && d.tokens.len() < max && !stops.contains(token) ==> take_tokens(
            d,
            seq![token] + rest,
            stops,
            max,
        ) == take_tokens(
            Decoded { tokens: d.tokens.push(token), stopped: false },
            rest,
            stops,
            max,
        ),
{
    let all = seq![token] + rest;
    assert(all.skip(1) =~= rest);
    assert(all[0] == token);
    let ended = Decoded { tokens: d.tokens, stopped: true };
    assert(take_tokens(ended, rest, stops, max) == ended);
}

} // verus!
