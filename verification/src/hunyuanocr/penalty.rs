//! The tokens whose scores are lowered because they occurred before.
use crate::error::{self, Error, ErrorView, Message};
use crate::text;
use crate::tokens;
use vstd::prelude::*;

verus! {

/// Checks that there is one list of tokens, of the named kind, for each row of
/// scores.
pub fn validate_rows(lists: usize, kind: &str, rows: usize) -> (r: Result<(), Error>)
    ensures
        error::verdict(
            if lists != rows {
                Some(
                    ErrorView::Config(
                        "HunyuanOCR: repetition penalty got "@ + text::dec(lists as nat) + " "@
                            + kind@ + " rows for "@ + text::dec(rows as nat) + " logits rows"@,
                    ),
                )
            } else {
                None
            },
            r,
        ),
{
    if lists != rows {
        return Err(
            Message::new("HunyuanOCR: repetition penalty got ").num(lists as u64).text(" ").text(
                kind,
            ).text(" rows for ").num(rows as u64).text(" logits rows").config(),
        );
    }
    Ok(())
}

/// The tokens of a list that a vocabulary of `vocab` tokens holds, in their order.
pub open spec fn in_vocab(ids: Seq<u32>, vocab: nat) -> Seq<u32>
    decreases ids.len(),
{
    if ids.len() == 0 {
        Seq::empty()
    } else if ids.last() < vocab {
        in_vocab(ids.drop_last(), vocab).push(ids.last())
    } else {
        in_vocab(ids.drop_last(), vocab)
    }
}

/// Drops the tokens that a vocabulary does not hold.
pub fn keep_in_vocab(ids: &Vec<u32>, vocab_size: usize) -> (kept: Vec<u32>)
    ensures
        kept@ == in_vocab(ids@, vocab_size as nat),
        kept.len() <= ids.len(),
{
    let mut kept: Vec<u32> = Vec::new();
    let mut i: usize = 0;
    proof {
        assert(ids@.take(0) =~= Seq::empty());
    }
    while i < ids.len()
        invariant
            i <= ids.len(),
            kept.len() <= i,
            kept@ == in_vocab(ids@.take(i as int), vocab_size as nat),
        decreases ids.len() - i,
    {
        proof {
            assert(ids@.take(i + 1).drop_last() =~= ids@.take(i as int));
        }
        if (ids[i] as usize) < vocab_size {
            kept.push(ids[i]);
        }
        i = i + 1;
    }
    proof {
        assert(ids@.take(ids@.len() as int) =~= ids@);
    }
    kept
}

/// The tokens whose scores are lowered for a row: those of the vocabulary that
/// occurred, in increasing order, each once.
pub fn unique_in_vocab(seen: &Vec<u32>, vocab_size: usize) -> (ids: Vec<u32>)
    ensures
        tokens::is_sorted_set(ids@, in_vocab(seen@, vocab_size as nat)),
{
    let kept = keep_in_vocab(seen, vocab_size);
    tokens::sorted_set(&kept)
}

/// A token is lowered exactly when it occurred and has a score.
pub proof fn law_penalty_falls_on_what_occurred(seen: Seq<u32>, vocab: nat, t: u32)
    ensures
        in_vocab(seen, vocab).contains(t) <==> seen.contains(t) && t < vocab,
    decreases seen.len(),
{
    if seen.len() > 0 {
        let front = seen.drop_last();
        law_penalty_falls_on_what_occurred(front, vocab, t);
        assert(front.push(seen.last()) =~= seen);
        tokens::lemma_push_members(front, seen.last(), t);
        tokens::lemma_push_members(in_vocab(front, vocab), seen.last(), t);
    }
}

/// The length of the longest of the first `n` rows.
pub open spec fn widest(rows: Seq<Vec<u32>>, n: nat) -> nat
    decreases n,
{
    if n == 0 {
        0
    } else {
        let before = widest(rows, (n - 1) as nat);
        if rows[n - 1]@.len() > before {
            rows[n - 1]@.len()
        } else {
            before
        }
    }
}

/// No row is longer than the longest.
proof fn lemma_widest(rows: Seq<Vec<u32>>, n: nat, i: int)
    requires
        0 <= i < n <= rows.len(),
    ensures
        rows[i]@.len() <= widest(rows, n),
    decreases n,
{
    if i < n - 1 {
        lemma_widest(rows, (n - 1) as nat, i);
    }
}

/// Entry `j` of a row of ids that is filled up behind `ids`.
pub open spec fn filled(ids: Seq<u32>, j: int) -> u32 {
    if j < ids.len() {
        ids[j]
    } else {
        u32::MAX
    }
}

/// Rows of ids as one block: all of the width of the longest row, the tokens of the
/// vocabulary first and then filled up with ids that no vocabulary holds.
pub fn padded_rows(rows: &Vec<Vec<u32>>, vocab_size: usize) -> (r: (Vec<u32>, usize))
    requires
        rows.len() * widest(rows@, rows@.len()) <= usize::MAX,
    ensures
        r.1 == widest(rows@, rows@.len()),
        r.0.len() == rows.len() * r.1,
        forall|i: int, j: int|
            #![trigger r.0[i * r.1 + j]]
            0 <= i < rows.len() && 0 <= j < r.1 ==> r.0[i * r.1 + j] == filled(
                in_vocab(rows[i]@, vocab_size as nat),
                j,
            ),
{
    let n: usize = rows.len();
    let mut stride: usize = 0;
    let mut k: usize = 0;
    while k < n
        invariant
            k <= n == rows.len(),
            stride == widest(rows@, k as nat),
        decreases n - k,
    {
        if rows[k].len() > stride {
            stride = rows[k].len();
        }
        k = k + 1;
    }
    let mut block: Vec<u32> = Vec::new();
    let mut i: usize = 0;
    proof {
        assert(0 * stride == 0) by (nonlinear_arith);
    }
    while i < n
        invariant
            i <= n == rows.len(),
            stride == widest(rows@, rows@.len()),
            n * stride <= usize::MAX,
            block.len() == i * stride,
            forall|a: int, j: int|
                #![trigger block[a * stride + j]]
                0 <= a < i && 0 <= j < stride ==> block[a * stride + j] == filled(
                    in_vocab(rows[a]@, vocab_size as nat),
                    j,
                ),
        decreases n - i,
    {
        let ids = keep_in_vocab(&rows[i], vocab_size);
        let ghost before = block@;
        proof {
            lemma_widest(rows@, rows@.len(), i as int);
            assert((i + 1) * stride == i * stride + stride) by (nonlinear_arith);
        }
        let mut j: usize = 0;
        while j < stride
            invariant
                j <= stride,
                before.len() == i * stride,
                block.len() == i * stride + j,
                ids@ == in_vocab(rows[i as int]@, vocab_size as nat),
                forall|k: int| 0 <= k < before.len() ==> block[k] == before[k],
                forall|b: int|
                    0 <= b < j ==> block[i * stride + b] == #[trigger] filled(ids@, b),
            decreases stride - j,
        {
            if j < ids.len() {
                block.push(ids[j]);
            } else {
                block.push(u32::MAX);
            }
            j = j + 1;
        }
        proof {
            assert forall|a: int, j: int|
                #![trigger block[a * stride + j]]
                0 <= a < i + 1 && 0 <= j < stride implies block[a * stride + j] == filled(
                in_vocab(rows[a]@, vocab_size as nat),
                j,
            ) by {
                let wanted = filled(in_vocab(rows[a]@, vocab_size as nat), j);
                if a < i {
                    assert(0 <= a * stride + j < i * stride) by (nonlinear_arith)
                        requires
                            0 <= a <= i - 1,
                            0 <= j < stride,
                    ;
                    assert(before[a * stride + j] == wanted);
                }
            }
        }
        i = i + 1;
    }
    (block, stride)
}

/// A list keeps the tokens that a vocabulary holds, each in its place among them, as
/// often as it stands there.
pub proof fn law_each_token_stays_if_it_is_known(front: Seq<u32>, back: Seq<u32>, token: u32, vocab: nat)
    ensures
        in_vocab(front + back, vocab) == in_vocab(front, vocab) + in_vocab(back, vocab),
        token < vocab ==> in_vocab(seq![token], vocab) == seq![token],
        token >= vocab ==> in_vocab(seq![token], vocab) == Seq::<u32>::empty(),
    decreases back.len(),
{
    let none: Seq<u32> = Seq::empty();
    assert(seq![token].drop_last() =~= none);
    assert(in_vocab(none, vocab) =~= none);
    assert(none.push(token) =~= seq![token]);
    if back.len() == 0 {
        assert(front + back =~= front);
    } else {
        law_each_token_stays_if_it_is_known(front, back.drop_last(), token, vocab);
        assert((front + back).drop_last() =~= front + back.drop_last());
        assert((front + back).last() == back.last());
    }
}

/// A block of rows is as wide as its longest row. A row of it begins with its tokens;
/// what fills it up is the greatest id there is.
pub proof fn law_block_is_as_wide_as_its_longest_row(
    rows: Seq<Vec<u32>>,
    n: nat,
    ids: Seq<u32>,
    j: int,
)
    requires
        0 < n <= rows.len(),
        0 <= j,
    ensures
        forall|i: int| 0 <= i < n ==> #[trigger] rows[i]@.len() <= widest(rows, n),
        exists|i: int| 0 <= i < n && #[trigger] rows[i]@.len() == widest(rows, n),
        j < ids.len() ==> filled(ids, j) == ids[j],
        j >= ids.len() ==> filled(ids, j) == 0xffff_ffff,
    decreases n,
{
    assert forall|i: int| 0 <= i < n implies #[trigger] rows[i]@.len() <= widest(rows, n) by {
        lemma_widest(rows, n, i);
    }
    if n == 1 {
        assert(widest(rows, 0) == 0);
        assert(rows[0]@.len() == widest(rows, n));
    } else {
        let before = (n - 1) as nat;
        law_block_is_as_wide_as_its_longest_row(rows, before, ids, j);
        let i = choose|i: int| 0 <= i < before && #[trigger] rows[i]@.len() == widest(rows, before);
        if rows[n - 1]@.len() > widest(rows, before) {
            assert(rows[n - 1]@.len() == widest(rows, n));
        } else {
            assert(rows[i]@.len() == widest(rows, n));
        }
    }
}

} // verus!
