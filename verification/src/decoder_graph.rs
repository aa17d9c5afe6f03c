//! When captured decoder graphs are made, kept and dropped.
use vstd::arithmetic::power2;
use vstd::prelude::*;

verus! {

/// The least power of two, `p` or more, that is at least `n`, where `p` is a power
/// of two.
pub open spec fn bucket_from(n: nat, p: nat) -> nat
    decreases 2 * n - p,
{
    if 0 < p < n {
        bucket_from(n, 2 * p)
    } else {
        p
    }
}

/// The bucket for `n` positions: the least power of two that holds them.
pub open spec fn bucket(n: nat) -> nat {
    bucket_from(n, 1)
}

/// A bucket does not lie below where its search began.
pub proof fn lemma_bucket_from(n: nat, p: nat)
    requires
        p > 0,
    ensures
        p <= bucket_from(n, p),
        n <= bucket_from(n, p),
        p < n ==> bucket_from(n, p) < 2 * n,
    decreases 2 * n - p,
{
    if p < n {
        lemma_bucket_from(n, 2 * p);
    }
}

/// A bucket holds its positions, wastes less than half of itself, and is a power
/// of two.
pub proof fn law_bucket_is_a_tight_power_of_two(n: nat)
    ensures
        bucket(n) >= n,
        n >= 2 ==> bucket(n) < 2 * n,
        exists|k: nat| bucket(n) == power2::pow2(k),
{
    lemma_bucket_from(n, 1);
    power2::lemma2_to64();
    assert(power2::pow2(0) == 1);
    lemma_bucket_power(n, 0);
}

/// Doubling a power of two gives a power of two.
proof fn lemma_bucket_power(n: nat, k: nat)
    ensures
        exists|j: nat| bucket_from(n, power2::pow2(k)) == power2::pow2(j),
    decreases 2 * n - power2::pow2(k),
{
    power2::lemma_pow2_pos(k);
    power2::lemma_pow2_unfold(k + 1);
    if power2::pow2(k) < n {
        lemma_bucket_power(n, k + 1);
    }
}

/// `n`, but no more than a length can be.
pub open spec fn sum_capped(a: usize, b: usize) -> int {
    if a + b <= usize::MAX {
        a + b
    } else {
        usize::MAX as int
    }
}

/// The smaller of two integers.
pub open spec fn least(a: int, b: int) -> int {
    if a <= b {
        a
    } else {
        b
    }
}

/// The positions that a graph is captured with: a bucket for the prompt and the
/// text, at most `limit`; none where nothing is generated or the prompt fills the
/// limit.
pub open spec fn capacity(prompt_len: usize, max_new_tokens: usize, limit: usize) -> Option<usize> {
    if max_new_tokens == 0 || prompt_len >= limit {
        None
    } else {
        Some(least(bucket(sum_capped(prompt_len, max_new_tokens) as nat) as int, limit as int) as usize)
    }
}

/// Computes [`capacity`].
pub fn decoder_cache_capacity(prompt_len: usize, max_new_tokens: usize, limit: usize) -> (r: Option<
    usize,
>)
    requires
        limit <= usize::MAX / 2,
    ensures
        r == capacity(prompt_len, max_new_tokens, limit),
{
    if max_new_tokens == 0 || prompt_len >= limit {
        return None;
    }
    let n: usize = prompt_len.saturating_add(max_new_tokens);
    let mut p: usize = 1;
    while p < n && p < limit
        invariant
            0 < p,
            limit <= usize::MAX / 2,
            bucket(n as nat) == bucket_from(n as nat, p as nat),
        decreases 2 * n - p,
    {
        p = p * 2;
    }
    proof {
        lemma_bucket_from(n as nat, p as nat);
    }
    if p < limit {
        Some(p)
    } else {
        Some(limit)
    }
}

/// The captured graphs of a decoder: how many positions each was captured with.
#[derive(Debug, Clone, Copy)]
pub struct GraphSlots {
    /// The graph for one new token.
    pub decode: Option<usize>,
    /// The graph for a block of drafts, with the length of the block.
    pub verification: Option<(usize, usize)>,
}

/// What serves a request.
#[derive(Debug, Clone, Copy, PartialEq, Eq, Structural)]
pub enum Replay {
    /// The captured graph.
    Graph,
    /// A pass without graph.
    Eager,
}

impl GraphSlots {
    /// No graph at all.
    pub open spec fn spec_empty() -> GraphSlots {
        GraphSlots { decode: None, verification: None }
    }

    /// No graph at all.
    pub fn empty() -> (s: GraphSlots)
        ensures
            s == GraphSlots::spec_empty(),
    {
        GraphSlots { decode: None, verification: None }
    }

    /// The positions of the verification graph, where it serves blocks of the given
    /// length and is large enough.
    pub open spec fn retained(self, query_len: usize, required: int) -> Option<usize> {
        match self.verification {
            Some((have, block)) => if block == query_len && have >= required {
                Some(have)
            } else {
                None
            },
            None => None,
        }
    }

    /// Drops all graphs.
    pub fn invalidate(&mut self)
        ensures
            *final(self) == GraphSlots::spec_empty(),
    {
        self.decode = None;
        self.verification = None;
    }

    /// Prepares one-token decoding of a request. Hands back the number of positions
    /// to capture a graph with, if one has to be captured.
    pub fn prepare_ar(
        &mut self,
        disabled: bool,
        supported: bool,
        prompt_len: usize,
        max_new_tokens: usize,
        limit: usize,
    ) -> (capture: Option<usize>)
        requires
            limit <= usize::MAX / 2,
        ensures
            ({
                let required = least(sum_capped(prompt_len, max_new_tokens), limit as int);
                if disabled {
                    capture is None && *final(self) == GraphSlots::spec_empty()
                } else if !supported {
                    capture is None && *final(self) == *old(self)
                } else {
                    match capacity(prompt_len, max_new_tokens, limit) {
                        None => capture is None && *final(self) == GraphSlots::spec_empty(),
                        Some(cache_len) => if old(self).decode matches Some(have) && have
                            >= required {
                            capture is None && *final(self) == *old(self)
                        } else {
                            capture == Some(cache_len) && *final(self) == (GraphSlots {
                                decode: Some(cache_len),
                                verification: None,
                            })
                        },
                    }
                }
            }),
    {
        if disabled {
            self.invalidate();
            return None;
        }
        if !supported {
            return None;
        }
        match decoder_cache_capacity(prompt_len, max_new_tokens, limit) {
            None => {
                self.invalidate();
                None
            },
            Some(cache_len) => {
                let wanted: usize = prompt_len.saturating_add(max_new_tokens);
                let required: usize = if wanted <= limit {
                    wanted
                } else {
                    limit
                };
                if let Some(have) = self.decode {
                    if have >= required {
                        return None;
                    }
                }
                self.invalidate();
                self.decode = Some(cache_len);
                Some(cache_len)
            },
        }
    }

    /// Prepares the verification of blocks of `query_len` tokens. Hands back the
    /// positions of the graph that serves the request, if there is one, and whether
    /// it has to be captured.
    pub fn prepare_verification(
        &mut self,
        disabled: bool,
        supported: bool,
        prompt_len: usize,
        max_new_tokens: usize,
        query_len: usize,
        limit: usize,
    ) -> (r: (Option<usize>, bool))
        requires
            limit <= usize::MAX / 2,
        ensures
            ({
                let extra = sum_capped(max_new_tokens, query_len) as usize;
                let required = least(
                    sum_capped(sum_capped(prompt_len, max_new_tokens) as usize, query_len),
                    limit as int,
                );
                if query_len == 0 || disabled || !supported {
                    r == (None::<usize>, false) && *final(self) == GraphSlots::spec_empty()
                } else {
                    match capacity(prompt_len, extra, limit) {
                        None => r == (None::<usize>, false) && *final(self)
                            == GraphSlots::spec_empty(),
                        Some(cache_len) => match old(self).retained(query_len, required) {
                            Some(have) => r == (Some(have), false) && *final(self) == *old(self),
                            None => r == (Some(cache_len), true) && *final(self) == (GraphSlots {
                                decode: None,
                                verification: Some((cache_len, query_len)),
                            }),
                        },
                    }
                }
            }),
    {
        if query_len == 0 || disabled || !supported {
            self.invalidate();
            return (None, false);
        }
        let extra: usize = max_new_tokens.saturating_add(query_len);
        match decoder_cache_capacity(prompt_len, extra, limit) {
            None => {
                self.invalidate();
                (None, false)
            },
            Some(cache_len) => {
                let wanted: usize = prompt_len.saturating_add(max_new_tokens).saturating_add(
                    query_len,
                );
                let required: usize = if wanted <= limit {
                    wanted
                } else {
                    limit
                };
                if let Some((have, block)) = self.verification {
                    if block == query_len && have >= required {
                        return (Some(have), false);
                    }
                }
                self.invalidate();
                self.verification = Some((cache_len, query_len));
                (Some(cache_len), true)
            },
        }
    }

    /// Chooses what serves a one-token pass that needs `kv_len` positions. A graph
    /// that is too small takes all graphs with it.
    pub fn replay_decode(&mut self, kv_len: usize, same_shapes: bool) -> (r: Replay)
        ensures
            match old(self).decode {
                None => r == Replay::Eager && *final(self) == *old(self),
                Some(have) => if kv_len > have {
                    r == Replay::Eager && *final(self) == GraphSlots::spec_empty()
                } else {
                    *final(self) == *old(self) && r == if same_shapes {
                        Replay::Graph
                    } else {
                        Replay::Eager
                    }
                },
            },
    {
        match self.decode {
            None => Replay::Eager,
            Some(have) => {
                if kv_len > have {
                    self.invalidate();
                    Replay::Eager
                } else if same_shapes {
                    Replay::Graph
                } else {
                    Replay::Eager
                }
            },
        }
    }

    /// Chooses what serves a verification pass that needs `kv_len` positions.
    pub fn replay_verification(&mut self, kv_len: usize, same_shapes: bool) -> (r: Replay)
        ensures
            match old(self).verification {
                None => r == Replay::Eager && *final(self) == *old(self),
                Some((have, _)) => if kv_len > have {
                    r == Replay::Eager && *final(self) == GraphSlots::spec_empty()
                } else {
                    *final(self) == *old(self) && r == if same_shapes {
                        Replay::Graph
                    } else {
                        Replay::Eager
                    }
                },
            },
    {
        match self.verification {
            None => Replay::Eager,
            Some((have, _)) => {
                if kv_len > have {
                    self.invalidate();
                    Replay::Eager
                } else if same_shapes {
                    Replay::Graph
                } else {
                    Replay::Eager
                }
            },
        }
    }
}

/// A graph that was captured for a request serves every pass of it that fits the
/// limit: the request never outgrows it.
pub proof fn law_prepared_graph_serves_the_request(
    prompt_len: usize,
    max_new_tokens: usize,
    limit: usize,
    kv_len: int,
)
    requires
        capacity(prompt_len, max_new_tokens, limit) is Some,
        prompt_len + max_new_tokens <= usize::MAX,
        kv_len <= prompt_len + max_new_tokens,
        kv_len <= limit,
    ensures
        kv_len <= capacity(prompt_len, max_new_tokens, limit)->0,
        capacity(prompt_len, max_new_tokens, limit)->0 <= limit,
{
    law_bucket_is_a_tight_power_of_two(sum_capped(prompt_len, max_new_tokens) as nat);
}

/// A graph is captured for a request that generates something behind a prompt within the
/// limit. It has room for all of it, up to the limit, and unless it is at the limit it
/// is the least power of two that has.
pub proof fn law_capacity_holds_the_request(prompt_len: usize, max_new_tokens: usize, limit: usize, k: nat)
    requires
        prompt_len + max_new_tokens <= usize::MAX,
    ensures
        match capacity(prompt_len, max_new_tokens, limit) {
            None => max_new_tokens == 0 || prompt_len >= limit,
            Some(n) => {
                &&& max_new_tokens > 0
                &&& prompt_len < limit
                &&& n <= limit
                &&& n >= prompt_len + max_new_tokens || n == limit
                &&& power2::pow2(k) >= prompt_len + max_new_tokens ==> n <= power2::pow2(k)
                &&& n < limit ==> exists|j: nat| n == #[trigger] power2::pow2(j)
            },
        },
{
    let total = (prompt_len + max_new_tokens) as nat;
    law_bucket_is_a_tight_power_of_two(total);
    if power2::pow2(k) >= total {
        lemma_bucket_is_least(total, 0, k);
        power2::lemma_pow2(0);
        vstd::arithmetic::power::lemma_pow0(2);
        assert(power2::pow2(0) == 1);
    }
    let j = choose|j: nat| bucket(total) == power2::pow2(j);
    assert(bucket(total) == power2::pow2(j));
}

/// No power of two that holds `n` positions is less than the one that is found.
proof fn lemma_bucket_is_least(n: nat, i: nat, k: nat)
    requires
        power2::pow2(k) >= n,
        i <= k,
    ensures
        bucket_from(n, power2::pow2(i)) <= power2::pow2(k),
    decreases k - i,
{
    power2::lemma_pow2_pos(i);
    if power2::pow2(i) < n {
        if i < k {
            power2::lemma_pow2_unfold(i + 1);
            lemma_bucket_is_least(n, i + 1, k);
        }
    } else if i < k {
        power2::lemma_pow2_strictly_increases(i, k);
    }
}

/// Lengths add up, but not beyond what a length can be.
pub proof fn law_lengths_add_up_to_the_greatest(a: usize, b: usize)
    ensures
        a + b <= usize::MAX ==> sum_capped(a, b) == a + b,
        a + b > usize::MAX ==> sum_capped(a, b) == usize::MAX,
{
}

/// A verification graph is kept for blocks of the length that it was captured for, if
/// it is large enough.
pub proof fn law_kept_graph_serves_the_block(slots: GraphSlots, query_len: usize, required: int, have: usize)
    ensures
        slots.retained(query_len, required) == Some(have) <==> slots.verification == Some(
            (have, query_len),
        ) && have >= required,
{
}

/// The smaller of two numbers is one of them, and no greater than the other.
pub proof fn law_least_is_one_of_two(a: int, b: int)
    ensures
        least(a, b) <= a,
        least(a, b) <= b,
        least(a, b) == a || least(a, b) == b,
{
}

} // verus!
