//! Lists of token ids.
use vstd::prelude::*;

verus! {

/// Whether `token` is one of `tokens`.
pub fn contains(tokens: &Vec<u32>, token: u32) -> (r: bool)
    ensures
        r == tokens@.contains(token),
{
    let mut i: usize = 0;
    while i < tokens.len()
        invariant
            i <= tokens.len(),
            forall|j: int| 0 <= j < i ==> tokens[j] != token,
        decreases tokens.len() - i,
    {
        if tokens[i] == token {
            return true;
        }
        i = i + 1;
    }
    false
}

/// Appends `tokens` to `out`.
pub fn push_all(out: &mut Vec<u32>, tokens: &Vec<u32>)
    ensures
        final(out)@ == old(out)@ + tokens@,
{
    let ghost start = out@;
    let mut i: usize = 0;
    while i < tokens.len()
        invariant
            i <= tokens.len(),
            out@ =~= start + tokens@.take(i as int),
        decreases tokens.len() - i,
    {
        out.push(tokens[i]);
        i = i + 1;
    }
    proof {
        assert(tokens@.take(i as int) =~= tokens@);
    }
}

/// A list in increasing order without repetitions.
pub open spec fn strictly_sorted(ids: Seq<u32>) -> bool {
    forall|i: int, j: int| 0 <= i < j < ids.len() ==> ids[i] < ids[j]
}

/// `sorted` holds the members of `ids`, each once, in increasing order.
pub open spec fn is_sorted_set(sorted: Seq<u32>, ids: Seq<u32>) -> bool {
    &&& strictly_sorted(sorted)
    &&& forall|t: u32| sorted.contains(t) <==> ids.contains(t)
}

/// Two increasing lists with the same members are the same list.
pub proof fn law_sorted_set_is_unique(a: Seq<u32>, b: Seq<u32>)
    requires
        strictly_sorted(a),
        strictly_sorted(b),
        forall|t: u32| a.contains(t) <==> b.contains(t),
    ensures
        a == b,
    decreases a.len(),
{
    if a.len() > 0 && b.len() > 0 {
        let x = a.last();
        let y = b.last();
        assert(a.contains(x) && b.contains(y));
        assert(b.contains(x) && a.contains(y));
        let i = choose|i: int| 0 <= i < b.len() && b[i] == x;
        let j = choose|j: int| 0 <= j < a.len() && a[j] == y;
        assert(x <= y && y <= x);
        lemma_drop_last_members(a);
        lemma_drop_last_members(b);
        assert forall|t: u32| a.drop_last().contains(t) <==> b.drop_last().contains(t) by {
            assert(a.contains(t) <==> b.contains(t));
        }
        law_sorted_set_is_unique(a.drop_last(), b.drop_last());
        assert(a =~= a.drop_last().push(x));
        assert(b =~= b.drop_last().push(y));
    } else if a.len() > 0 {
        assert(a.contains(a[0]));
        assert(b.contains(a[0]));
    } else if b.len() > 0 {
        assert(b.contains(b[0]));
        assert(a.contains(b[0]));
    } else {
        assert(a =~= b);
    }
}

/// Dropping the last member of an increasing list removes that member only.
proof fn lemma_drop_last_members(a: Seq<u32>)
    requires
        strictly_sorted(a),
        a.len() > 0,
    ensures
        strictly_sorted(a.drop_last()),
        forall|t: u32| a.drop_last().contains(t) <==> (a.contains(t) && t != a.last()),
{
    let rest = a.drop_last();
    assert forall|t: u32| rest.contains(t) <==> (a.contains(t) && t != a.last()) by {
        if rest.contains(t) {
            let i = choose|i: int| 0 <= i < rest.len() && rest[i] == t;
            assert(a[i] == t);
        }
        if a.contains(t) && t != a.last() {
            let i = choose|i: int| 0 <= i < a.len() && a[i] == t;
            assert(rest[i] == t);
        }
    }
}

/// Puts `id` into an increasing list unless it is there.
pub fn insert_sorted(sorted: &mut Vec<u32>, id: u32)
    requires
        strictly_sorted(old(sorted)@),
    ensures
        is_sorted_set(final(sorted)@, old(sorted)@.push(id)),
{
    let ghost before = sorted@;
    let mut i: usize = 0;
    while i < sorted.len() && sorted[i] < id
        invariant
            i <= sorted.len(),
            sorted@ == before,
            forall|j: int| 0 <= j < i ==> sorted[j] < id,
        decreases sorted.len() - i,
    {
        i = i + 1;
    }
    proof {
        assert(before.push(id).contains(id)) by {
            assert(before.push(id)[before.len() as int] == id);
        }
        assert forall|t: u32| before.push(id).contains(t) <==> (before.contains(t) || t == id) by {
            if before.contains(t) {
                let k = choose|k: int| 0 <= k < before.len() && before[k] == t;
                assert(before.push(id)[k] == t);
            }
        }
    }
    if i < sorted.len() && sorted[i] == id {
        return ;
    }
    sorted.insert(i, id);
    proof {
        let after = sorted@;
        assert(after =~= before.take(i as int).push(id) + before.skip(i as int));
        assert forall|t: u32| after.contains(t) <==> (before.contains(t) || t == id) by {
            if before.contains(t) {
                let k = choose|k: int| 0 <= k < before.len() && before[k] == t;
                if k < i {
                    assert(after[k] == t);
                } else {
                    assert(after[k + 1] == t);
                }
            }
            if t == id {
                assert(after[i as int] == t);
            }
            if after.contains(t) {
                let k = choose|k: int| 0 <= k < after.len() && after[k] == t;
                if k < i {
                    assert(before[k] == t);
                } else if k > i {
                    assert(before[k - 1] == t);
                }
            }
        }
    }
}

/// The members of `ids` in increasing order, each once.
pub fn sorted_set(ids: &Vec<u32>) -> (sorted: Vec<u32>)
    ensures
        is_sorted_set(sorted@, ids@),
{
    let mut sorted: Vec<u32> = Vec::new();
    let mut i: usize = 0;
    proof {
        assert(ids@.take(0) =~= Seq::<u32>::empty());
        assert(is_sorted_set(sorted@, ids@.take(0)));
    }
    while i < ids.len()
        invariant
            i <= ids.len(),
            is_sorted_set(sorted@, ids@.take(i as int)),
        decreases ids.len() - i,
    {
        let ghost before = sorted@;
        let ghost part = ids@.take(i as int);
        let ghost id = ids[i as int];
        insert_sorted(&mut sorted, ids[i]);
        i = i + 1;
        proof {
            let more = ids@.take(i as int);
            assert(more =~= part.push(id));
            assert forall|t: u32| sorted@.contains(t) <==> more.contains(t) by {
                lemma_push_members(before, id, t);
                lemma_push_members(part, id, t);
            }
        }
    }
    proof {
        assert(ids@.take(i as int) =~= ids@);
    }
    sorted
}

/// The members of a list after one more was appended.
pub proof fn lemma_push_members(ids: Seq<u32>, id: u32, t: u32)
    ensures
        ids.push(id).contains(t) <==> (ids.contains(t) || t == id),
{
    if ids.contains(t) {
        let k = choose|k: int| 0 <= k < ids.len() && ids[k] == t;
        assert(ids.push(id)[k] == t);
    }
    if t == id {
        assert(ids.push(id)[ids.len() as int] == t);
    }
    if ids.push(id).contains(t) && t != id {
        let k = choose|k: int| 0 <= k < ids.push(id).len() && ids.push(id)[k] == t;
        assert(ids[k] == t);
    }
}

/// `tokens` without the members of `hidden`.
pub open spec fn without(tokens: Seq<u32>, hidden: Seq<u32>) -> Seq<u32>
    decreases tokens.len(),
{
    if tokens.len() == 0 {
        Seq::empty()
    } else if hidden.contains(tokens.last()) {
        without(tokens.drop_last(), hidden)
    } else {
        without(tokens.drop_last(), hidden).push(tokens.last())
    }
}

/// Leaves out the members of `hidden`.
pub fn drop_all(tokens: &Vec<u32>, hidden: &Vec<u32>) -> (r: Vec<u32>)
    ensures
        r@ == without(tokens@, hidden@),
{
    let mut r: Vec<u32> = Vec::new();
    let mut i: usize = 0;
    proof {
        assert(tokens@.take(0) =~= Seq::<u32>::empty());
    }
    while i < tokens.len()
        invariant
            i <= tokens.len(),
            r@ == without(tokens@.take(i as int), hidden@),
        decreases tokens.len() - i,
    {
        proof {
            assert(tokens@.take(i + 1).drop_last() =~= tokens@.take(i as int));
        }
        if !contains(hidden, tokens[i]) {
            r.push(tokens[i]);
        }
        i = i + 1;
    }
    proof {
        assert(tokens@.take(i as int) =~= tokens@);
    }
    r
}

/// The places of `token` in `ids`.
pub open spec fn positions(ids: Seq<u32>, token: u32) -> Seq<int>
    decreases ids.len(),
{
    if ids.len() == 0 {
        Seq::empty()
    } else if ids.last() == token {
        positions(ids.drop_last(), token).push(ids.len() - 1)
    } else {
        positions(ids.drop_last(), token)
    }
}

/// `places` are neighbours.
pub open spec fn contiguous(places: Seq<int>) -> bool {
    forall|i: int| 0 <= i < places.len() ==> #[trigger] places[i] == places[0] + i
}

/// The places of `token`, as numbers.
pub open spec fn int_places(places: Seq<usize>) -> Seq<int> {
    places.map_values(|p: usize| p as int)
}

/// Finds the places of `token` in `ids`.
pub fn find_positions(ids: &Vec<u32>, token: u32) -> (places: Vec<usize>)
    ensures
        int_places(places@) == positions(ids@, token),
        places.len() <= ids.len(),
        forall|i: int| 0 <= i < places.len() ==> #[trigger] places[i] < ids.len() && ids[places[i] as int] == token,
        forall|i: int, j: int| 0 <= i < j < places.len() ==> places[i] < places[j],
{
    let mut places: Vec<usize> = Vec::new();
    let mut i: usize = 0;
    proof {
        assert(ids@.take(0) =~= Seq::<u32>::empty());
        assert(int_places(places@) =~= positions(ids@.take(0), token));
    }
    while i < ids.len()
        invariant
            i <= ids.len(),
            places.len() <= i,
            int_places(places@) == positions(ids@.take(i as int), token),
            forall|k: int| 0 <= k < places.len() ==> #[trigger] places[k] < i && ids[places[k] as int] == token,
            forall|k: int, j: int| 0 <= k < j < places.len() ==> places[k] < places[j],
        decreases ids.len() - i,
    {
        let ghost before = int_places(places@);
        proof {
            assert(ids@.take(i + 1).drop_last() =~= ids@.take(i as int));
        }
        if ids[i] == token {
            places.push(i);
            proof {
                assert(int_places(places@) =~= before.push(i as int));
            }
        }
        i = i + 1;
    }
    proof {
        assert(ids@.take(i as int) =~= ids@);
    }
    places
}

/// Whether the places are neighbours.
pub fn are_contiguous(places: &Vec<usize>) -> (r: bool)
    ensures
        r == contiguous(int_places(places@)),
{
    let ghost ps = int_places(places@);
    let mut i: usize = 0;
    while i < places.len()
        invariant
            i <= places.len(),
            ps == int_places(places@),
            forall|k: int| 0 <= k < i ==> #[trigger] ps[k] == ps[0] + k,
        decreases places.len() - i,
    {
        proof {
            assert(ps[i as int] == places[i as int]);
            assert(ps[0] == places[0]);
        }
        if places[i] < places[0] || places[i] - places[0] != i {
            proof {
                assert(ps[i as int] != ps[0] + i);
            }
            return false;
        }
        i = i + 1;
    }
    true
}

/// Every token outside the places that were found is another one.
pub proof fn lemma_positions_complete(ids: Seq<u32>, token: u32, i: int)
    requires
        0 <= i < ids.len(),
    ensures
        ids[i] == token <==> positions(ids, token).contains(i),
    decreases ids.len(),
{
    let rest = ids.drop_last();
    let before = positions(rest, token);
    if i < rest.len() {
        lemma_positions_complete(rest, token, i);
        if before.contains(i) {
            let k = choose|k: int| 0 <= k < before.len() && before[k] == i;
            assert(positions(ids, token)[k] == i);
        }
        if positions(ids, token).contains(i) {
            let all = positions(ids, token);
            let k = choose|k: int| 0 <= k < all.len() && all[k] == i;
            assert(k < before.len());
            assert(before[k] == i);
        }
    } else {
        lemma_positions_bounded(rest, token);
        if ids[i] == token {
            assert(positions(ids, token)[before.len() as int] == i);
        } else if before.contains(i) {
            let k = choose|k: int| 0 <= k < before.len() && before[k] == i;
            assert(before[k] < rest.len());
        }
    }
}

/// Places lie inside the list.
pub proof fn lemma_positions_bounded(ids: Seq<u32>, token: u32)
    ensures
        forall|k: int|
            0 <= k < positions(ids, token).len() ==> 0 <= #[trigger] positions(ids, token)[k]
                < ids.len(),
    decreases ids.len(),
{
    if ids.len() > 0 {
        let before = positions(ids.drop_last(), token);
        lemma_positions_bounded(ids.drop_last(), token);
        assert forall|k: int| 0 <= k < positions(ids, token).len() implies 0
            <= #[trigger] positions(ids, token)[k] < ids.len() by {
            if k < before.len() {
                assert(positions(ids, token)[k] == before[k]);
            }
        }
    }
}

/// Places without a gap are a run that holds every occurrence.
pub proof fn lemma_contiguous_run(ids: Seq<u32>, token: u32)
    requires
        positions(ids, token).len() > 0,
        contiguous(positions(ids, token)),
    ensures
        ({
            let start = positions(ids, token)[0];
            let end = start + positions(ids, token).len();
            &&& 0 <= start < end <= ids.len()
            &&& forall|i: int|
                0 <= i < ids.len() ==> (#[trigger] ids[i] == token <==> start <= i < end)
        }),
{
    let ps = positions(ids, token);
    let n = ps.len() as int;
    let start = ps[0];
    lemma_positions_bounded(ids, token);
    assert(0 <= ps[0] < ids.len());
    assert(ps[n - 1] == ps[0] + (n - 1));
    assert(0 <= ps[n - 1] < ids.len());
    assert forall|i: int| 0 <= i < ids.len() implies (#[trigger] ids[i] == token <==> start <= i
        < start + n) by {
        lemma_positions_complete(ids, token, i);
        if start <= i < start + n {
            assert(ps[i - start] == ps[0] + (i - start));
        }
        if ps.contains(i) {
            let k = choose|k: int| 0 <= k < ps.len() && ps[k] == i;
            assert(ps[k] == ps[0] + k);
        }
    }
}

/// `i` is the first place of `token` at or behind `from`.
pub open spec fn first_at(ids: Seq<u32>, token: u32, from: int, i: int) -> bool {
    &&& from <= i < ids.len()
    &&& ids[i] == token
    &&& forall|j: int| from <= j < i ==> ids[j] != token
}

/// `token` does not occur at or behind `from`.
pub open spec fn absent_from(ids: Seq<u32>, token: u32, from: int) -> bool {
    forall|j: int| from <= j < ids.len() ==> ids[j] != token
}

/// The first place of `token` at or behind `from`.
pub open spec fn index_from(ids: Seq<u32>, token: u32, from: int) -> Option<int>
    decreases ids.len() - from,
{
    if from >= ids.len() {
        None
    } else if ids[from] == token {
        Some(from)
    } else {
        index_from(ids, token, from + 1)
    }
}

/// [`index_from`] finds the first place.
pub proof fn lemma_index_from(ids: Seq<u32>, token: u32, from: int)
    ensures
        match index_from(ids, token, from) {
            Some(i) => first_at(ids, token, from, i),
            None => absent_from(ids, token, from),
        },
    decreases ids.len() - from,
{
    if from < ids.len() && ids[from] != token {
        lemma_index_from(ids, token, from + 1);
    }
}

/// There is only one first place.
pub proof fn lemma_first_place(ids: Seq<u32>, token: u32, from: int, i: int)
    requires
        first_at(ids, token, from, i),
    ensures
        index_from(ids, token, from) == Some(i),
{
    lemma_index_from(ids, token, from);
    match index_from(ids, token, from) {
        Some(k) => {
            if k < i {
                assert(ids[k] != token);
            }
            if i < k {
                assert(ids[i] != token);
            }
        },
        None => {
            assert(ids[i] != token);
        },
    }
}

/// Finds the first place of a token.
pub fn position_from(ids: &Vec<u32>, token: u32, from: usize) -> (r: Option<usize>)
    requires
        from <= ids.len(),
    ensures
        match r {
            Some(i) => first_at(ids@, token, from as int, i as int) && index_from(
                ids@,
                token,
                from as int,
            ) == Some(i as int),
            None => absent_from(ids@, token, from as int) && index_from(
                ids@,
                token,
                from as int,
            ) is None,
        },
{
    proof {
        lemma_index_from(ids@, token, from as int);
    }
    let mut i: usize = from;
    while i < ids.len()
        invariant
            from <= i <= ids.len(),
            forall|j: int| from <= j < i ==> ids[j] != token,
        decreases ids.len() - i,
    {
        if ids[i] == token {
            proof {
                lemma_first_place(ids@, token, from as int, i as int);
            }
            return Some(i);
        }
        i = i + 1;
    }
    None
}

/// `a..b` is the first run of `token`.
pub open spec fn is_first_run(ids: Seq<u32>, token: u32, a: int, b: int) -> bool {
    &&& first_at(ids, token, 0, a)
    &&& a < b <= ids.len()
    &&& forall|j: int| a <= j < b ==> ids[j] == token
    &&& b < ids.len() ==> ids[b] != token
}

/// Finds the first run of a token.
pub fn first_run(ids: &Vec<u32>, token: u32) -> (r: Option<(usize, usize)>)
    ensures
        match r {
            Some((a, b)) => is_first_run(ids@, token, a as int, b as int),
            None => absent_from(ids@, token, 0),
        },
{
    match position_from(ids, token, 0) {
        None => None,
        Some(a) => {
            let mut b: usize = a;
            while b < ids.len() && ids[b] == token
                invariant
                    a <= b <= ids.len(),
                    first_at(ids@, token, 0, a as int),
                    forall|j: int| a <= j < b ==> ids[j] == token,
                decreases ids.len() - b,
            {
                b = b + 1;
            }
            Some((a, b))
        },
    }
}

/// There is only one first run.
pub proof fn lemma_first_run_unique(ids: Seq<u32>, token: u32, a: int, b: int, c: int, d: int)
    requires
        is_first_run(ids, token, a, b),
        is_first_run(ids, token, c, d),
    ensures
        a == c,
        b == d,
{
    if a < c {
        assert(ids[a] != token);
    }
    if c < a {
        assert(ids[c] != token);
    }
    if b < d {
        assert(ids[b] == token);
    }
    if d < b {
        assert(ids[d] == token);
    }
}

/// Leaving tokens out goes through a list token by token: a token stays, in its
/// place among the others, unless it is one of those that are left out.
pub proof fn law_each_token_stays_or_goes(front: Seq<u32>, back: Seq<u32>, token: u32, hidden: Seq<u32>)
    ensures
        without(front + back, hidden) == without(front, hidden) + without(back, hidden),
        hidden.contains(token) ==> without(seq![token], hidden) == Seq::<u32>::empty(),
        !hidden.contains(token) ==> without(seq![token], hidden) == seq![token],
    decreases back.len(),
{
    let none: Seq<u32> = Seq::empty();
    assert(seq![token].drop_last() =~= none);
    assert(without(none, hidden) =~= none);
    assert(none.push(token) =~= seq![token]);
    if back.len() == 0 {
        assert(front + back =~= front);
        assert(without(back, hidden) =~= none);
    } else {
        law_each_token_stays_or_goes(front, back.drop_last(), token, hidden);
        assert((front + back).drop_last() =~= front + back.drop_last());
        assert((front + back).last() == back.last());
    }
}

/// The places of a token are all those where it stands, from left to right.
pub proof fn law_places_are_those_of_the_token(ids: Seq<u32>, token: u32)
    ensures
        forall|i: int|
            #[trigger] positions(ids, token).contains(i) <==> 0 <= i < ids.len() && ids[i] == token,
        forall|j: int, k: int|
            0 <= j < k < positions(ids, token).len() ==> positions(ids, token)[j] < positions(
                ids,
                token,
            )[k],
    decreases ids.len(),
{
    let places = positions(ids, token);
    if ids.len() > 0 {
        let front = ids.drop_last();
        law_places_are_those_of_the_token(front, token);
        let early = positions(front, token);
        assert forall|i: int| #[trigger] places.contains(i) <==> 0 <= i < ids.len() && ids[i]
            == token by {
            if places.contains(i) {
                let k = places.index_of(i);
                if k < early.len() {
                    assert(early[k] == i);
                    assert(early.contains(i));
                }
            }
            if 0 <= i < ids.len() && ids[i] == token {
                if i < front.len() {
                    assert(early.contains(i));
                    let k = early.index_of(i);
                    assert(places[k] == i);
                } else {
                    assert(places[early.len() as int] == i);
                }
            }
        }
        assert forall|k: int| 0 <= k < early.len() implies #[trigger] early[k] < front.len() by {
            assert(early.contains(early[k]));
        }
    }
}

/// Places are neighbours when each is one further than the one before it.
pub proof fn law_neighbours_follow_each_other(places: Seq<int>)
    ensures
        contiguous(places) <==> forall|i: int|
            0 < i < places.len() ==> #[trigger] places[i] == places[i - 1] + 1,
{
    if forall|i: int| 0 < i < places.len() ==> #[trigger] places[i] == places[i - 1] + 1 {
        assert forall|i: int| 0 <= i < places.len() implies #[trigger] places[i] == places[0]
            + i by {
            lemma_counts_up(places, i);
        }
    }
    if contiguous(places) {
        assert forall|i: int| 0 < i < places.len() implies #[trigger] places[i] == places[i - 1]
            + 1 by {
            assert(places[i - 1] == places[0] + (i - 1));
        }
    }
}

/// A list that goes up by one at each step is `i` further at place `i`.
proof fn lemma_counts_up(places: Seq<int>, i: int)
    requires
        forall|i: int| 0 < i < places.len() ==> #[trigger] places[i] == places[i - 1] + 1,
        0 <= i < places.len(),
    ensures
        places[i] == places[0] + i,
    decreases i,
{
    if i > 0 {
        lemma_counts_up(places, i - 1);
    }
}

/// What is looked up is the first place of the token that is not before `from`.
pub proof fn law_lookup_stops_at_the_first_place(ids: Seq<u32>, token: u32, from: int)
    ensures
        match index_from(ids, token, from) {
            Some(i) => from <= i < ids.len() && ids[i] == token && forall|j: int|
                from <= j < i ==> #[trigger] ids[j] != token,
            None => forall|j: int| from <= j < ids.len() ==> #[trigger] ids[j] != token,
        },
    decreases ids.len() - from,
{
    if from < ids.len() && ids[from] != token {
        law_lookup_stops_at_the_first_place(ids, token, from + 1);
    }
}

/// The first run of a token begins where the token first stands and ends at the first
/// other token behind that.
pub proof fn law_first_run_is_as_long_as_it_can_be(ids: Seq<u32>, token: u32, a: int, b: int)
    ensures
        is_first_run(ids, token, a, b) <==> {
            &&& 0 <= a < b <= ids.len()
            &&& forall|j: int| 0 <= j < a ==> #[trigger] ids[j] != token
            &&& forall|j: int| a <= j < b ==> #[trigger] ids[j] == token
            &&& b == ids.len() || ids[b] != token
        },
        absent_from(ids, token, b) <==> forall|j: int|
            b <= j < ids.len() ==> #[trigger] ids[j] != token,
{
}

/// `token` stands at the places `a..b` and nowhere else.
pub open spec fn stands_exactly(ids: Seq<u32>, token: u32, a: int, b: int) -> bool {
    forall|i: int| 0 <= i < ids.len() ==> (#[trigger] ids[i] == token <==> a <= i < b)
}

/// The places of a token that stands in one run count up through the run.
pub proof fn lemma_places_of_a_run(ids: Seq<u32>, token: u32, a: int, b: int)
    requires
        0 <= a <= b <= ids.len(),
        stands_exactly(ids, token, a, b),
    ensures
        positions(ids, token).len() == b - a,
        forall|k: int| 0 <= k < b - a ==> #[trigger] positions(ids, token)[k] == a + k,
    decreases ids.len(),
{
    if ids.len() > 0 {
        let front = ids.drop_last();
        if b == ids.len() && a < b {
            assert(ids[b - 1] == token);
            assert(stands_exactly(front, token, a, b - 1));
            lemma_places_of_a_run(front, token, a, b - 1);
        } else if a == b {
            assert forall|i: int| 0 <= i < front.len() implies (#[trigger] front[i] == token <==> 0
                <= i < 0) by {
                assert(ids[i] != token);
            }
            assert(ids[ids.len() - 1] != token);
            lemma_places_of_a_run(front, token, 0, 0);
        } else {
            assert(ids[ids.len() - 1] != token);
            assert(stands_exactly(front, token, a, b));
            lemma_places_of_a_run(front, token, a, b);
        }
    }
}

/// Places that leave no room between the first and the last are a run.
pub proof fn lemma_full_range_is_a_run(ids: Seq<u32>, token: u32)
    requires
        positions(ids, token).len() > 0,
        positions(ids, token).last() + 1 - positions(ids, token)[0] == positions(ids, token).len(),
    ensures
        ({
            let places = positions(ids, token);
            &&& 0 <= places[0]
            &&& places[0] + places.len() <= ids.len()
            &&& stands_exactly(ids, token, places[0], places[0] + places.len())
        }),
{
    let places = positions(ids, token);
    law_places_are_those_of_the_token(ids, token);
    assert forall|i: int| 0 <= i < places.len() implies #[trigger] places[i] == places[0] + i by {
        lemma_spread(places, 0, i);
        lemma_spread(places, i, places.len() - 1);
    }
    assert(places.contains(places[0]));
    assert(places.contains(places.last()));
    assert forall|i: int| 0 <= i < ids.len() implies (#[trigger] ids[i] == token <==> places[0] <= i
        < places[0] + places.len()) by {
        assert(places.contains(i) <==> ids[i] == token);
        if places[0] <= i < places[0] + places.len() {
            assert(places[i - places[0]] == i);
        }
    }
}

/// An increasing list goes up by at least one at each step.
proof fn lemma_spread(places: Seq<int>, i: int, j: int)
    requires
        forall|j: int, k: int| 0 <= j < k < places.len() ==> places[j] < places[k],
        0 <= i <= j < places.len(),
    ensures
        places[j] - places[i] >= j - i,
    decreases j - i,
{
    if i < j {
        lemma_spread(places, i, j - 1);
        assert(places[j - 1] < places[j]);
    }
}

/// A sorted set holds the tokens of a list, each once, the smaller before the greater.
pub proof fn law_sorted_set_is_in_order(sorted: Seq<u32>, ids: Seq<u32>, i: int, j: int, t: u32)
    requires
        is_sorted_set(sorted, ids),
        0 <= i < j < sorted.len(),
    ensures
        sorted[i] < sorted[j],
        sorted.contains(t) <==> ids.contains(t),
        ids.contains(sorted[i]),
{
    assert(sorted.contains(sorted[i]));
}

} // verus!
