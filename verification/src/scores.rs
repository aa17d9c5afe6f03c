//! Choosing the best of single-precision scores, held as their bits.
use vstd::prelude::*;

verus! {

/// The bits of the single-precision infinity.
pub const INFINITY_BITS: u32 = 0x7f80_0000;

/// The weight of the sign bit.
pub const SIGN_BIT: u32 = 0x8000_0000;

/// A number that orders scores as they are ordered; zeros of both signs are equal,
/// and what is no number has none.
pub open spec fn rank(bits: u32) -> Option<int> {
    let size = if bits >= SIGN_BIT {
        bits - SIGN_BIT
    } else {
        bits as int
    };
    if size > INFINITY_BITS {
        None
    } else if bits >= SIGN_BIT {
        Some(-size)
    } else {
        Some(size)
    }
}

/// The rank of a score, with that of the negative infinity for what is no number.
pub open spec fn standing(bits: u32) -> int {
    match rank(bits) {
        Some(r) => r,
        None => -(INFINITY_BITS as int),
    }
}

/// `i` is the choice among scores: the first of the greatest. Where none is greater
/// than the negative infinity it is the very first.
pub open spec fn is_choice(scores: Seq<u32>, i: int) -> bool {
    if exists|k: int|
        0 <= k < scores.len() && standing(#[trigger] scores[k]) > -(INFINITY_BITS as int) {
        &&& 0 <= i < scores.len()
        &&& standing(scores[i]) > -(INFINITY_BITS as int)
        &&& forall|k: int|
            0 <= k < scores.len() ==> standing(#[trigger] scores[k]) <= standing(scores[i])
        &&& forall|k: int| 0 <= k < i ==> standing(#[trigger] scores[k]) < standing(scores[i])
    } else {
        i == 0
    }
}

/// The standing of a score.
fn standing_of(bits: u32) -> (r: i64)
    ensures
        r == standing(bits),
{
    let size: u32 = if bits >= SIGN_BIT {
        bits - SIGN_BIT
    } else {
        bits
    };
    if size > INFINITY_BITS || (size == INFINITY_BITS && bits >= SIGN_BIT) {
        0 - INFINITY_BITS as i64
    } else if bits >= SIGN_BIT {
        0 - size as i64
    } else {
        size as i64
    }
}

/// Chooses the first of the greatest scores.
pub fn argmax_first(scores: &Vec<u32>) -> (choice: usize)
    ensures
        is_choice(scores@, choice as int),
{
    let mut choice: usize = 0;
    let mut best: i64 = 0 - INFINITY_BITS as i64;
    let mut i: usize = 0;
    while i < scores.len()
        invariant
            i <= scores.len(),
            best >= -(INFINITY_BITS as int),
            forall|k: int| 0 <= k < i ==> standing(#[trigger] scores@[k]) <= best,
            best > -(INFINITY_BITS as int) ==> {
                &&& choice < i
                &&& standing(scores@[choice as int]) == best
                &&& forall|k: int| 0 <= k < choice ==> standing(#[trigger] scores@[k]) < best
            },
            best == -(INFINITY_BITS as int) ==> choice == 0,
        decreases scores.len() - i,
    {
        let r: i64 = standing_of(scores[i]);
        if r > best {
            best = r;
            choice = i;
        }
        i = i + 1;
    }
    proof {
        if best > -(INFINITY_BITS as int) {
            assert(standing(scores@[choice as int]) > -(INFINITY_BITS as int));
        } else {
            assert forall|k: int| 0 <= k < scores@.len() implies !(standing(#[trigger] scores@[k])
                > -(INFINITY_BITS as int)) by {}
        }
    }
    choice
}

/// There is one choice only.
pub proof fn law_choice_is_unique(scores: Seq<u32>, i: int, j: int)
    requires
        is_choice(scores, i),
        is_choice(scores, j),
    ensures
        i == j,
{
    if exists|k: int|
        0 <= k < scores.len() && standing(#[trigger] scores[k]) > -(INFINITY_BITS as int) {
        if i < j {
            assert(standing(scores[i]) < standing(scores[j]));
        } else if j < i {
            assert(standing(scores[j]) < standing(scores[i]));
        }
    }
}

/// Scores stand as single-precision numbers are ordered: numbers without a sign by
/// their bits, numbers with a sign the other way round and below them, both zeros
/// alike. What is no number stands no higher than any number.
pub proof fn law_scores_stand_as_their_numbers(a: u32, b: u32)
    ensures
        a < b <= 0x7f80_0000 ==> standing(a) < standing(b),
        0x8000_0000 <= a < b <= 0xff80_0000 ==> standing(a) > standing(b),
        a <= 0x7f80_0000 && 0x8000_0000 < b <= 0xff80_0000 ==> standing(a) > standing(b),
        standing(0) == standing(0x8000_0000),
        0x7f80_0000 < a < 0x8000_0000 || 0xff80_0000 < a ==> standing(a) <= standing(b)
            && standing(a) == standing(0xff80_0000),
{
}

/// The choice is as good as any score and better than every earlier one, if one score
/// is a number above the negative infinity.
pub proof fn law_choice_is_the_first_of_the_best(scores: Seq<u32>, i: int, k: int, best: int)
    requires
        is_choice(scores, i),
        0 <= k < scores.len(),
        0 <= best < scores.len(),
        standing(scores[best]) > standing(0xff80_0000),
    ensures
        0 <= i < scores.len(),
        standing(scores[k]) <= standing(scores[i]),
        k < i ==> standing(scores[k]) < standing(scores[i]),
{
    assert(standing(scores[best]) > -(INFINITY_BITS as int));
}

} // verus!
