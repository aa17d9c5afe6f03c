//! Which tokens a repetition penalty applies to.
use crate::tokens;
use vstd::prelude::*;

verus! {

/// The tokens below `vocab` in the order of their first occurrence.
pub open spec fn first_occurrences(tokens: Seq<u32>, vocab: nat) -> Seq<u32>
    decreases tokens.len(),
{
    if tokens.len() == 0 {
        Seq::empty()
    } else {
        remember(first_occurrences(tokens.drop_last(), vocab), tokens.last(), vocab)
    }
}

/// The history `ids` after `token` was seen.
pub open spec fn remember(ids: Seq<u32>, token: u32, vocab: nat) -> Seq<u32> {
    if token < vocab && !ids.contains(token) {
        ids.push(token)
    } else {
        ids
    }
}

/// The history `ids` after `tokens` were seen, one by one.
pub open spec fn remember_all(ids: Seq<u32>, tokens: Seq<u32>, vocab: nat) -> Seq<u32>
    decreases tokens.len(),
{
    if tokens.len() == 0 {
        ids
    } else {
        remember(remember_all(ids, tokens.drop_last(), vocab), tokens.last(), vocab)
    }
}

/// The distinct tokens seen so far. A penalty depends on presence alone, so
/// repetitions are not kept.
#[derive(Debug)]
pub struct RepetitionHistory {
    present: Vec<bool>,
    unique: Vec<u32>,
}

impl View for RepetitionHistory {
    type V = Seq<u32>;

    closed spec fn view(&self) -> Seq<u32> {
        self.unique@
    }
}

impl RepetitionHistory {
    /// The number of tokens that can be remembered.
    pub closed spec fn vocab(self) -> nat {
        self.present@.len()
    }

    /// The flags and the list agree, and the list has no repetitions.
    pub closed spec fn wf(self) -> bool {
        &&& forall|i: int, j: int|
            0 <= i < j < self.unique@.len() ==> self.unique@[i] != self.unique@[j]
        &&& forall|i: int|
            0 <= i < self.unique@.len() ==> (#[trigger] self.unique@[i]) < self.present@.len()
        &&& forall|t: u32|
            t < self.present@.len() ==> (self.present@[t as int] <==> #[trigger] self.unique@.contains(
                t,
            ))
    }

    /// An empty history.
    pub fn new(vocab_size: usize) -> (h: RepetitionHistory)
        ensures
            h.wf(),
            h.vocab() == vocab_size,
            h@ == Seq::<u32>::empty(),
    {
        let mut present: Vec<bool> = Vec::new();
        let mut i: usize = 0;
        while i < vocab_size
            invariant
                i <= vocab_size,
                present.len() == i,
                forall|j: int| 0 <= j < i ==> !present[j],
            decreases vocab_size - i,
        {
            present.push(false);
            i = i + 1;
        }
        RepetitionHistory { present, unique: Vec::new() }
    }

    /// The history of a list of tokens.
    pub fn from_tokens(vocab_size: usize, tokens: &Vec<u32>) -> (h: RepetitionHistory)
        ensures
            h.wf(),
            h.vocab() == vocab_size,
            h@ == first_occurrences(tokens@, vocab_size as nat),
    {
        let mut h = RepetitionHistory::new(vocab_size);
        let mut i: usize = 0;
        proof {
            assert(tokens@.take(0) =~= Seq::<u32>::empty());
        }
        while i < tokens.len()
            invariant
                i <= tokens.len(),
                h.wf(),
                h.vocab() == vocab_size,
                h@ == first_occurrences(tokens@.take(i as int), vocab_size as nat),
            decreases tokens.len() - i,
        {
            proof {
                assert(tokens@.take(i + 1).drop_last() =~= tokens@.take(i as int));
            }
            h.insert(tokens[i]);
            i = i + 1;
        }
        proof {
            assert(tokens@.take(i as int) =~= tokens@);
        }
        h
    }

    /// Remembers a token. Tokens outside the vocabulary are ignored.
    pub fn insert(&mut self, token: u32)
        requires
            old(self).wf(),
        ensures
            final(self).wf(),
            final(self).vocab() == old(self).vocab(),
            final(self)@ == remember(old(self)@, token, old(self).vocab()),
    {
        let index: usize = token as usize;
        let ghost before = self.unique@;
        if index < self.present.len() && !self.present[index] {
            proof {
                assert(!before.contains(token));
            }
            self.present.set(index, true);
            self.unique.push(token);
            proof {
                let after = self.unique@;
                assert forall|t: u32| t < self.present@.len() implies (self.present@[t as int]
                    <==> #[trigger] after.contains(t)) by {
                    tokens::lemma_push_members(before, token, t);
                    assert(before.contains(t) <==> old(self).present@[t as int]);
                }
                assert forall|i: int, j: int| 0 <= i < j < after.len() implies after[i]
                    != after[j] by {
                    if j == after.len() - 1 {
                        assert(before.contains(before[i]));
                    }
                }
            }
        }
    }

    /// Whether a token was seen.
    pub fn contains(&self, token: u32) -> (r: bool)
        requires
            self.wf(),
        ensures
            r == self@.contains(token),
    {
        let index: usize = token as usize;
        if index < self.present.len() {
            proof {
                assert(self.present@[token as int] <==> self.unique@.contains(token));
            }
            self.present[index]
        } else {
            proof {
                if self.unique@.contains(token) {
                    let i = choose|i: int| 0 <= i < self.unique@.len() && self.unique@[i] == token;
                    assert(self.unique@[i] < self.present@.len());
                }
            }
            false
        }
    }

    /// The distinct tokens in the order of their first occurrence.
    pub fn ids(&self) -> (ids: &Vec<u32>)
        ensures
            ids@ == self@,
    {
        &self.unique
    }

    /// Whether nothing was seen.
    pub fn is_empty(&self) -> (r: bool)
        ensures
            r == (self@.len() == 0),
    {
        self.unique.len() == 0
    }
}

/// A history holds every token of the vocabulary that occurred, once, and nothing
/// else.
pub proof fn law_history_is_the_set_of_occurrences(tokens: Seq<u32>, vocab: nat)
    ensures
        forall|t: u32| #[trigger]
            first_occurrences(tokens, vocab).contains(t) <==> (tokens.contains(t) && t < vocab),
        forall|i: int, j: int|
            0 <= i < j < first_occurrences(tokens, vocab).len() ==> first_occurrences(
                tokens,
                vocab,
            )[i] != first_occurrences(tokens, vocab)[j],
    decreases tokens.len(),
{
    let ids = first_occurrences(tokens, vocab);
    if tokens.len() > 0 {
        let rest = tokens.drop_last();
        let before = first_occurrences(rest, vocab);
        let last = tokens.last();
        law_history_is_the_set_of_occurrences(rest, vocab);
        assert(tokens =~= rest.push(last));
        assert forall|t: u32| #[trigger] ids.contains(t) <==> (tokens.contains(t) && t < vocab) by {
            tokens::lemma_push_members(rest, last, t);
            tokens::lemma_push_members(before, last, t);
            assert(before.contains(t) <==> (rest.contains(t) && t < vocab));
        }
        assert forall|i: int, j: int| 0 <= i < j < ids.len() implies ids[i] != ids[j] by {
            if j == before.len() {
                assert(before.contains(before[i]));
            }
        }
    } else {
        assert(ids =~= Seq::<u32>::empty());
    }
}

/// The proposals that a verification row has to penalize besides the history: the
/// new ones among those before it, each once.
pub open spec fn fresh_proposals(history: Seq<u32>, proposals: Seq<u32>) -> Seq<u32>
    decreases proposals.len(),
{
    if proposals.len() == 0 {
        Seq::empty()
    } else {
        let before = fresh_proposals(history, proposals.drop_last());
        let p = proposals.last();
        if history.contains(p) || before.contains(p) {
            before
        } else {
            before.push(p)
        }
    }
}

/// One list of additional tokens for each verification row; row `i` sees the first
/// `i` proposals.
pub fn row_suffixes(history: &RepetitionHistory, proposals: &Vec<u32>) -> (rows: Vec<Vec<u32>>)
    requires
        history.wf(),
        proposals.len() < usize::MAX,
    ensures
        rows.len() == proposals.len() + 1,
        forall|i: int|
            0 <= i < rows.len() ==> (#[trigger] rows[i])@ == fresh_proposals(
                history@,
                proposals@.take(i),
            ),
{
    let mut rows: Vec<Vec<u32>> = Vec::new();
    let mut prefix: Vec<u32> = Vec::new();
    let mut i: usize = 0;
    proof {
        assert(proposals@.take(0) =~= Seq::<u32>::empty());
    }
    rows.push(copy_of(&prefix));
    while i < proposals.len()
        invariant
            history.wf(),
            i <= proposals.len() < usize::MAX,
            rows.len() == i + 1,
            prefix@ == fresh_proposals(history@, proposals@.take(i as int)),
            forall|j: int|
                0 <= j < rows.len() ==> (#[trigger] rows[j])@ == fresh_proposals(
                    history@,
                    proposals@.take(j),
                ),
        decreases proposals.len() - i,
    {
        proof {
            assert(proposals@.take(i + 1).drop_last() =~= proposals@.take(i as int));
        }
        let proposal: u32 = proposals[i];
        if !history.contains(proposal) && !tokens::contains(&prefix, proposal) {
            prefix.push(proposal);
        }
        rows.push(copy_of(&prefix));
        i = i + 1;
    }
    rows
}

/// A copy of a list.
pub fn copy_of(tokens: &Vec<u32>) -> (r: Vec<u32>)
    ensures
        r@ == tokens@,
{
    let mut r: Vec<u32> = Vec::new();
    tokens::push_all(&mut r, tokens);
    proof {
        assert(r@ =~= tokens@);
    }
    r
}

/// The history and a row's additional tokens are together what decoding one by
/// one would have seen before that row, so the penalty of a verification row is
/// that of autoregressive decoding.
pub proof fn law_row_penalty_is_autoregressive(
    seen: Seq<u32>,
    proposals: Seq<u32>,
    vocab: nat,
    t: u32,
)
    requires
        t < vocab,
    ensures
        ({
            let history = first_occurrences(seen, vocab);
            (history.contains(t) || fresh_proposals(history, proposals).contains(t))
                <==> first_occurrences(seen + proposals, vocab).contains(t)
        }),
    decreases proposals.len(),
{
    let history = first_occurrences(seen, vocab);
    law_history_is_the_set_of_occurrences(seen + proposals, vocab);
    law_history_is_the_set_of_occurrences(seen, vocab);
    if proposals.len() > 0 {
        let rest = proposals.drop_last();
        let p = proposals.last();
        law_row_penalty_is_autoregressive(seen, rest, vocab, t);
        law_history_is_the_set_of_occurrences(seen + rest, vocab);
        assert(seen + proposals =~= (seen + rest).push(p));
        tokens::lemma_push_members(seen + rest, p, t);
        tokens::lemma_push_members(fresh_proposals(history, rest), p, t);
        assert(first_occurrences(seen + rest, vocab).contains(t) <==> (seen + rest).contains(t));
        assert(first_occurrences(seen + proposals, vocab).contains(t) <==> (seen
            + proposals).contains(t));
    } else {
        assert(seen + proposals =~= seen);
    }
}

/// The ids that decoding one by one penalizes behind `seen`: those of the vocabulary
/// that occurred.
pub open spec fn penalized(seen: Seq<u32>, vocab: nat) -> Set<u32> {
    Set::new(|t: u32| first_occurrences(seen, vocab).contains(t))
}

/// The ids that a verification row penalizes: those of the history and those that the
/// row adds, as far as they are in the vocabulary.
pub open spec fn row_penalized(history: Seq<u32>, added: Seq<u32>, vocab: nat) -> Set<u32> {
    Set::new(|t: u32| t < vocab && (history.contains(t) || added.contains(t)))
}

/// A verification row penalizes what decoding one by one would.
pub proof fn law_rows_penalize_the_same(seen: Seq<u32>, proposals: Seq<u32>, vocab: nat)
    ensures
        ({
            let history = first_occurrences(seen, vocab);
            row_penalized(history, fresh_proposals(history, proposals), vocab) == penalized(
                seen + proposals,
                vocab,
            )
        }),
{
    let history = first_occurrences(seen, vocab);
    let row = row_penalized(history, fresh_proposals(history, proposals), vocab);
    law_history_is_the_set_of_occurrences(seen + proposals, vocab);
    assert forall|t: u32| row.contains(t) <==> penalized(seen + proposals, vocab).contains(t) by {
        if t < vocab {
            law_row_penalty_is_autoregressive(seen, proposals, vocab, t);
        } else {
            assert(!first_occurrences(seen + proposals, vocab).contains(t));
        }
    }
    assert(row =~= penalized(seen + proposals, vocab));
}

/// A history keeps what it holds in its order when more tokens are seen, and seeing
/// tokens one by one or together makes no difference.
pub proof fn law_history_grows_at_its_end(before: Seq<u32>, more: Seq<u32>, token: u32, vocab: nat)
    ensures
        first_occurrences(before, vocab).is_prefix_of(first_occurrences(before + more, vocab)),
        first_occurrences(before.push(token), vocab) == remember(
            first_occurrences(before, vocab),
            token,
            vocab,
        ),
        first_occurrences(before + more, vocab) == remember_all(
            first_occurrences(before, vocab),
            more,
            vocab,
        ),
        remember(first_occurrences(before, vocab), token, vocab) == if token < vocab
            && !before.contains(token) {
            first_occurrences(before, vocab).push(token)
        } else {
            first_occurrences(before, vocab)
        },
    decreases more.len(),
{
    law_history_is_the_set_of_occurrences(before, vocab);
    assert(before.push(token).drop_last() =~= before);
    if more.len() == 0 {
        assert(before + more =~= before);
    } else {
        law_history_grows_at_its_end(before, more.drop_last(), token, vocab);
        assert((before + more).drop_last() =~= before + more.drop_last());
        assert((before + more).last() == more.last());
    }
}

/// The proposals that a row adds are those before it that the history lacks, each
/// once, in the order in which they were proposed.
pub proof fn law_row_adds_the_new_proposals(history: Seq<u32>, proposals: Seq<u32>, more: Seq<u32>)
    ensures
        forall|t: u32| #[trigger]
            fresh_proposals(history, proposals).contains(t) <==> proposals.contains(t)
                && !history.contains(t),
        forall|i: int, j: int|
            0 <= i < j < fresh_proposals(history, proposals).len() ==> fresh_proposals(
                history,
                proposals,
            )[i] != fresh_proposals(history, proposals)[j],
        fresh_proposals(history, proposals).is_prefix_of(
            fresh_proposals(history, proposals + more),
        ),
    decreases proposals.len() + more.len(),
{
    let all = fresh_proposals(history, proposals);
    let none: Seq<u32> = Seq::empty();
    if proposals.len() > 0 {
        let front = proposals.drop_last();
        let p = proposals.last();
        law_row_adds_the_new_proposals(history, front, none);
        let before = fresh_proposals(history, front);
        assert forall|t: u32| #[trigger] all.contains(t) <==> proposals.contains(t)
            && !history.contains(t) by {
            assert(proposals.contains(t) <==> front.contains(t) || t == p) by {
                if proposals.contains(t) {
                    let i = proposals.index_of(t);
                    if i < front.len() {
                        assert(front[i] == t);
                    }
                }
                if front.contains(t) {
                    let i = front.index_of(t);
                    assert(proposals[i] == t);
                }
                assert(proposals[proposals.len() - 1] == p);
            }
            assert(before.push(p).contains(t) <==> before.contains(t) || t == p) by {
                if before.push(p).contains(t) {
                    let i = before.push(p).index_of(t);
                    if i < before.len() {
                        assert(before[i] == t);
                    }
                }
                if before.contains(t) {
                    let i = before.index_of(t);
                    assert(before.push(p)[i] == t);
                }
                assert(before.push(p)[before.len() as int] == p);
            }
            assert(before.contains(t) <==> front.contains(t) && !history.contains(t));
        }
    }
    if more.len() > 0 {
        law_row_adds_the_new_proposals(history, proposals, more.drop_last());
        assert((proposals + more).drop_last() =~= proposals + more.drop_last());
    } else {
        assert(proposals + more =~= proposals);
    }
}

} // verus!
