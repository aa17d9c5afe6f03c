//! Whole-number helpers.
use vstd::arithmetic::div_mod;
use vstd::prelude::*;

verus! {

/// Whether `n` is a multiple of `d`; only zero is a multiple of zero.
pub open spec fn multiple(n: usize, d: usize) -> bool {
    if d == 0 {
        n == 0
    } else {
        n % d == 0
    }
}

/// Decides [`multiple`].
pub fn is_multiple(n: usize, d: usize) -> (r: bool)
    ensures
        r == multiple(n, d),
{
    if d == 0 {
        n == 0
    } else {
        n % d == 0
    }
}

/// The sum of the first `n` entries of a list.
pub open spec fn sum_upto(list: Seq<usize>, n: nat) -> nat
    decreases n,
{
    if n == 0 {
        0
    } else {
        sum_upto(list, (n - 1) as nat) + list[n - 1] as nat
    }
}

/// Sums do not shrink.
pub proof fn lemma_sum_grows(list: Seq<usize>, m: nat, n: nat)
    requires
        m <= n,
    ensures
        sum_upto(list, m) <= sum_upto(list, n),
    decreases n,
{
    if m < n {
        lemma_sum_grows(list, m, (n - 1) as nat);
    }
}

/// The sum of a list, unless it is too large for a length.
pub fn checked_sum(list: &Vec<usize>) -> (r: Option<usize>)
    ensures
        match r {
            Some(s) => s == sum_upto(list@, list@.len()),
            None => sum_upto(list@, list@.len()) > usize::MAX,
        },
{
    let mut sum: usize = 0;
    let mut i: usize = 0;
    while i < list.len()
        invariant
            i <= list.len(),
            sum == sum_upto(list@, i as nat),
        decreases list.len() - i,
    {
        proof {
            lemma_sum_grows(list@, (i + 1) as nat, list@.len());
        }
        match sum.checked_add(list[i]) {
            Some(s) => {
                sum = s;
            },
            None => return None,
        }
        i = i + 1;
    }
    Some(sum)
}

/// The sum of a list.
pub fn sum(list: &Vec<usize>) -> (s: usize)
    requires
        sum_upto(list@, list@.len()) <= usize::MAX,
    ensures
        s == sum_upto(list@, list@.len()),
{
    let mut s: usize = 0;
    let mut i: usize = 0;
    while i < list.len()
        invariant
            i <= list.len(),
            s == sum_upto(list@, i as nat),
            sum_upto(list@, list@.len()) <= usize::MAX,
        decreases list.len() - i,
    {
        proof {
            lemma_sum_grows(list@, (i + 1) as nat, list@.len());
        }
        s = s + list[i];
        i = i + 1;
    }
    s
}

/// A quotient and a remainder are told by the number that they make up.
pub proof fn lemma_parts(q: int, r: int, d: int)
    requires
        0 <= r < d,
    ensures
        (q * d + r) / d == q,
        (q * d + r) % d == r,
{
    div_mod::lemma_fundamental_div_mod_converse(q * d + r, d, q, r);
}

/// A number below `n * d` has a quotient below `n`.
pub proof fn lemma_quotient(k: int, n: int, d: int)
    requires
        0 <= k < n * d,
        d > 0,
    ensures
        0 <= k / d < n,
        0 <= k % d < d,
        k == (k / d) * d + k % d,
{
    div_mod::lemma_fundamental_div_mod(k, d);
    assert(d * (k / d) == (k / d) * d) by (nonlinear_arith);
    div_mod::lemma_div_pos_is_pos(k, d);
    assert(k / d < n) by (nonlinear_arith)
        requires
            k < n * d,
            k == (k / d) * d + k % d,
            0 <= k % d,
            d > 0,
    ;
}

/// A multiple is a product.
pub proof fn law_multiple_is_a_product(n: usize, d: usize)
    ensures
        multiple(n, d) <==> exists|k: int| n == #[trigger] (k * d),
{
    if multiple(n, d) {
        if d == 0 {
            assert(n == 0 * d);
        } else {
            vstd::arithmetic::div_mod::lemma_fundamental_div_mod(n as int, d as int);
            assert(n == (n as int / d as int) * d) by (nonlinear_arith)
                requires
                    n as int == d as int * (n as int / d as int) + n as int % d as int,
                    n as int % d as int == 0,
            ;
        }
    }
    if exists|k: int| n == #[trigger] (k * d) {
        let k = choose|k: int| n == #[trigger] (k * d);
        if d == 0 {
            assert(k * d == 0) by (nonlinear_arith)
                requires
                    d == 0,
            ;
        } else {
            vstd::arithmetic::div_mod::lemma_mod_multiples_basic(k, d as int);
        }
    }
}

/// The sum of a list grows by each entry that is put behind it.
pub proof fn law_sum_takes_in_each_entry(list: Seq<usize>, entry: usize)
    ensures
        sum_upto(Seq::empty(), 0) == 0,
        sum_upto(list.push(entry), list.len() + 1) == sum_upto(list, list.len()) + entry,
{
    lemma_sum_of_beginning(list, list.push(entry), list.len());
}

/// The sum of a beginning depends on that beginning alone.
proof fn lemma_sum_of_beginning(a: Seq<usize>, b: Seq<usize>, n: nat)
    requires
        n <= a.len(),
        n <= b.len(),
        forall|i: int| 0 <= i < n ==> a[i] == b[i],
    ensures
        sum_upto(a, n) == sum_upto(b, n),
    decreases n,
{
    if n > 0 {
        lemma_sum_of_beginning(a, b, (n - 1) as nat);
    }
}

} // verus!
