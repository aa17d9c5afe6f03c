//! The forks of a page: each is answered by one child, which shares the cache up to
//! its fork and whose tokens stand on the page in its place.
use crate::hpd_parsing::scheduler::{self, BranchKind, BranchView, ChildStart, Rules, SchedulerView};
use crate::speculative;
use crate::tokens;
use vstd::prelude::*;

verus! {

/// A parent may fork, has one child for each fork in its output, and caches the
/// prompt and its output while it runs.
pub open spec fn parent_answered(
    b: BranchView,
    prompt_len: nat,
    children: nat,
    fork: u32,
) -> bool {
    b.kind == BranchKind::Parent ==> {
        &&& b.allow_fork
        &&& tokens::positions(b.tokens, fork).len() == children
        &&& !b.finished ==> b.seq_len == prompt_len + b.tokens.len()
    }
}

/// Each fork of the page has its child.
pub open spec fn forks_answered(v: SchedulerView, prompt_len: nat, fork: u32) -> bool {
    let n = v.children.len();
    &&& forall|i: int|
        0 <= i < v.active.len() ==> parent_answered(#[trigger] v.active[i], prompt_len, n, fork)
    &&& forall|i: int|
        0 <= i < v.waiting.len() ==> parent_answered(#[trigger] v.waiting[i], prompt_len, n, fork)
    &&& v.parent_tokens matches Some(t) ==> tokens::positions(t, fork).len() == n
}

/// The places of a token in a list that grows at its end.
proof fn lemma_positions_push(ids: Seq<u32>, token: u32, t: u32)
    ensures
        tokens::positions(ids.push(t), token) == if t == token {
            tokens::positions(ids, token).push(ids.len() as int)
        } else {
            tokens::positions(ids, token)
        },
{
    assert(ids.push(t).drop_last() =~= ids);
}

/// The places of a token in a list that grows at its beginning.
proof fn lemma_positions_ahead(ids: Seq<u32>, token: u32)
    requires
        ids.len() > 0,
    ensures
        tokens::positions(ids, token).len() == tokens::positions(ids.skip(1), token).len() + if ids[0]
            == token {
            1nat
        } else {
            0nat
        },
    decreases ids.len(),
{
    let rest = ids.drop_last();
    if rest.len() > 0 {
        lemma_positions_ahead(rest, token);
        assert(ids.skip(1).drop_last() =~= rest.skip(1));
        assert(ids.skip(1).last() == ids.last());
    } else {
        assert(ids.skip(1) =~= Seq::<u32>::empty());
        assert(rest =~= Seq::<u32>::empty());
        assert(tokens::positions(rest, token).len() == 0);
    }
}

/// A branch that may fork reports each fork that it emits, in order, and with it the
/// positions that the cache held right before that fork. Other branches report none.
pub proof fn law_each_fork_is_reported(
    b: BranchView,
    emitted: Seq<u32>,
    prefix_len: nat,
    index: nat,
    fork: u32,
    stops: Seq<u32>,
)
    requires
        !b.finished,
        b.tokens.len() < b.max_new,
        prefix_len + emitted.len() <= usize::MAX,
        index <= usize::MAX,
    ensures
        ({
            let after = scheduler::emit_all(b, emitted, stops);
            let events = scheduler::fork_events(b, emitted, prefix_len, index, fork, stops);
            let had = tokens::positions(b.tokens, fork);
            let places = tokens::positions(after.tokens, fork);
            if b.allow_fork {
                &&& places.len() == had.len() + events.len()
                &&& forall|j: int|
                    0 <= j < events.len() ==> {
                        &&& (#[trigger] events[j]).branch_index == index
                        &&& events[j].prefix_len - prefix_len == places[had.len() + j]
                            - b.tokens.len()
                    }
            } else {
                events.len() == 0
            }
        }),
    decreases emitted.len(),
{
    if emitted.len() > 0 {
        let rest = emitted.drop_last();
        law_each_fork_is_reported(b, rest, prefix_len, index, fork, stops);
        scheduler::lemma_emit_all_frame(b, rest, stops);
        let e = scheduler::emit_all(b, rest, stops);
        lemma_positions_push(e.tokens, fork, emitted.last());
    }
}

/// The forks of branches that may not fork.
proof fn lemma_no_events(
    branches: Seq<BranchView>,
    drafts: Seq<Seq<u32>>,
    targets: Seq<Seq<u32>>,
    rules: Rules,
    n: nat,
)
    requires
        round_fits(branches, drafts, targets, rules),
        n <= branches.len(),
        branches.len() <= usize::MAX,
        forall|i: int| 0 <= i < n ==> !(#[trigger] branches[i]).allow_fork,
    ensures
        scheduler::events_upto(
            branches,
            drafts,
            targets,
            rules.fork_token_id,
            rules.stop_token_ids@,
            n,
        ).len() == 0,
    decreases n,
{
    if n > 0 {
        lemma_no_events(branches, drafts, targets, rules, (n - 1) as nat);
        lemma_advance_reports(
            branches[n - 1],
            drafts[n - 1],
            targets[n - 1],
            (n - 1) as nat,
            rules,
        );
    }
}

/// The forks of branches of which one may fork.
proof fn lemma_events_of_one(
    branches: Seq<BranchView>,
    drafts: Seq<Seq<u32>>,
    targets: Seq<Seq<u32>>,
    rules: Rules,
    n: nat,
    p: int,
)
    requires
        round_fits(branches, drafts, targets, rules),
        0 <= p < n <= branches.len(),
        branches.len() <= usize::MAX,
        forall|i: int| 0 <= i < n && i != p ==> !(#[trigger] branches[i]).allow_fork,
    ensures
        scheduler::events_upto(
            branches,
            drafts,
            targets,
            rules.fork_token_id,
            rules.stop_token_ids@,
            n,
        ) == scheduler::advance_events(
            branches[p],
            drafts[p],
            targets[p],
            p as nat,
            rules.fork_token_id,
            rules.stop_token_ids@,
        ),
    decreases n,
{
    let last = scheduler::advance_events(
        branches[n - 1],
        drafts[n - 1],
        targets[n - 1],
        (n - 1) as nat,
        rules.fork_token_id,
        rules.stop_token_ids@,
    );
    let before = scheduler::events_upto(
        branches,
        drafts,
        targets,
        rules.fork_token_id,
        rules.stop_token_ids@,
        (n - 1) as nat,
    );
    if p < n - 1 {
        lemma_events_of_one(branches, drafts, targets, rules, (n - 1) as nat, p);
        lemma_advance_reports(
            branches[n - 1],
            drafts[n - 1],
            targets[n - 1],
            (n - 1) as nat,
            rules,
        );
        assert(before + last =~= before);
    } else {
        lemma_no_events(branches, drafts, targets, rules, (n - 1) as nat);
        assert(before + last =~= last);
    }
}

/// What a model answered about the active branches: no branch was given more drafts
/// than it has room for.
pub open spec fn round_fits(
    branches: Seq<BranchView>,
    drafts: Seq<Seq<u32>>,
    targets: Seq<Seq<u32>>,
    rules: Rules,
) -> bool {
    &&& drafts.len() == branches.len()
    &&& targets.len() == branches.len()
    &&& forall|i: int|
        0 <= i < branches.len() ==> row_fits(#[trigger] branches[i], drafts[i], targets[i], rules)
}

/// The answers about one branch.
pub open spec fn row_fits(
    b: BranchView,
    drafts: Seq<u32>,
    targets: Seq<u32>,
    rules: Rules,
) -> bool {
    &&& scheduler::runnable(b, rules)
    &&& targets.len() == drafts.len() + 1
    &&& drafts.len() <= scheduler::draft_room(b, rules.max_position_embeddings as nat)
}

/// What a branch reports that advances.
proof fn lemma_advance_reports(
    b: BranchView,
    drafts: Seq<u32>,
    targets: Seq<u32>,
    index: nat,
    rules: Rules,
)
    requires
        row_fits(b, drafts, targets, rules),
        index <= usize::MAX,
    ensures
        ({
            let fork = rules.fork_token_id;
            let stops = rules.stop_token_ids@;
            let after = scheduler::advance_view(b, drafts, targets, stops);
            let events = scheduler::advance_events(b, drafts, targets, index, fork, stops);
            let had = tokens::positions(b.tokens, fork);
            let places = tokens::positions(after.tokens, fork);
            &&& after.kind == b.kind
            &&& after.allow_fork == b.allow_fork
            &&& !after.finished ==> after.seq_len - after.tokens.len() == b.seq_len
                - b.tokens.len()
            &&& if b.allow_fork {
                &&& places.len() == had.len() + events.len()
                &&& forall|j: int|
                    0 <= j < events.len() ==> {
                        &&& (#[trigger] events[j]).branch_index == index
                        &&& events[j].prefix_len - b.seq_len == places[had.len() + j]
                            - b.tokens.len()
                    }
            } else {
                events.len() == 0
            }
        }),
{
    let fork = rules.fork_token_id;
    let stops = rules.stop_token_ids@;
    let emitted = scheduler::round_tokens(b, drafts, targets);
    speculative::lemma_matched_from(drafts, targets, 0);
    let m = speculative::matched(drafts, targets);
    let moved = BranchView { seq_len: b.seq_len + 1 + m, pending: targets[m as int], ..b };
    scheduler::law_advancing_stays_in_context(b, drafts, targets, rules);
    scheduler::lemma_emit_all_frame(moved, emitted, stops);
    scheduler::lemma_emit_ignores_cursor(b, moved, emitted, b.seq_len, index, fork, stops);
    law_each_fork_is_reported(b, emitted, b.seq_len, index, fork, stops);
}

/// No two branches fill the same output.
proof fn lemma_one_owner(branches: Seq<BranchView>, i: int, j: int)
    requires
        0 <= i < j < branches.len(),
        branches[i].kind == branches[j].kind,
    ensures
        scheduler::count(branches, branches[i].kind) > 1,
{
    scheduler::lemma_count_cut(branches, j, branches[i].kind);
    scheduler::lemma_count_member(branches.take(j), i);
    scheduler::lemma_count_member(branches.skip(j), 0);
    assert(branches.skip(j)[0] == branches[j]);
    assert(branches.take(j)[i] == branches[i]);
}

/// A branch that still runs is one of those that ran.
pub proof fn lemma_unfinished_member(branches: Seq<BranchView>, k: int) -> (i: int)
    requires
        0 <= k < scheduler::unfinished(branches).len(),
    ensures
        0 <= i < branches.len(),
        scheduler::unfinished(branches)[k] == branches[i],
    decreases branches.len(),
{
    let rest = branches.drop_last();
    if !branches.last().finished && k == scheduler::unfinished(branches).len() - 1 {
        branches.len() - 1
    } else {
        lemma_unfinished_member(rest, k)
    }
}

/// The output of a parent is its final one, or that of a branch that finished.
pub proof fn lemma_settled_parent(parent: Option<Seq<u32>>, branches: Seq<BranchView>)
    ensures
        scheduler::settle_parent(parent, branches) == parent || exists|i: int|
            0 <= i < branches.len() && (#[trigger] branches[i]).kind == BranchKind::Parent
                && scheduler::settle_parent(parent, branches) == Some(branches[i].tokens),
    decreases branches.len(),
{
    if branches.len() > 0 {
        let rest = branches.drop_last();
        let last = branches.len() - 1;
        assert(branches[last] == branches.last());
        lemma_settled_parent(parent, rest);
        if !(branches.last().finished && branches.last().kind == BranchKind::Parent)
            && scheduler::settle_parent(parent, rest) != parent {
            let i = choose|i: int|
                0 <= i < rest.len() && (#[trigger] rest[i]).kind == BranchKind::Parent
                    && scheduler::settle_parent(parent, rest) == Some(rest[i].tokens);
            assert(branches[i] == rest[i]);
        }
    }
}

/// A page begins with all of its forks answered: it has none.
pub proof fn law_forks_are_answered_at_first(v: SchedulerView, parent: BranchView, fork: u32)
    requires
        v.active == seq![parent],
        v.waiting.len() == 0,
        v.parent_tokens is None,
        v.children.len() == 0,
        parent.allow_fork,
        parent.tokens.len() == 0,
    ensures
        forks_answered(v, parent.seq_len, fork),
{
    assert(tokens::positions(parent.tokens, fork).len() == 0);
}

/// Filling the pool leaves the forks answered.
pub proof fn law_forks_stay_answered_as_a_round_begins(
    v: SchedulerView,
    max_active: int,
    prompt_len: nat,
    fork: u32,
)
    requires
        forks_answered(v, prompt_len, fork),
    ensures
        forks_answered(v.begun(max_active), prompt_len, fork),
{
    let n = scheduler::fill(max_active - v.active.len(), v.waiting.len() as int);
    let begun = v.begun(max_active);
    assert forall|i: int| 0 <= i < begun.active.len() implies parent_answered(
        #[trigger] begun.active[i],
        prompt_len,
        v.children.len(),
        fork,
    ) by {
        if i < v.active.len() {
            assert(begun.active[i] == v.active[i]);
        } else {
            assert(begun.active[i] == v.waiting[i - v.active.len()]);
        }
    }
    assert forall|i: int| 0 <= i < begun.waiting.len() implies parent_answered(
        #[trigger] begun.waiting[i],
        prompt_len,
        v.children.len(),
        fork,
    ) by {
        assert(begun.waiting[i] == v.waiting[i + n]);
    }
}

/// The forks of a round are those of the parent, in order, and each child that they
/// ask for shares the prompt and what stands before its fork.
pub proof fn law_children_share_what_precedes_their_fork(
    v: SchedulerView,
    rules: Rules,
    drafts: Seq<Seq<u32>>,
    targets: Seq<Seq<u32>>,
    prompt_len: nat,
)
    requires
        v.ready(rules),
        forks_answered(v, prompt_len, rules.fork_token_id),
        round_fits(v.active, drafts, targets, rules),
    ensures
        ({
            let fork = rules.fork_token_id;
            let stops = rules.stop_token_ids@;
            let events = scheduler::events_upto(
                v.active,
                drafts,
                targets,
                fork,
                stops,
                v.active.len(),
            );
            &&& v.live(BranchKind::Parent) == 0 ==> events.len() == 0
            &&& scheduler::count(v.active, BranchKind::Parent) == 0 ==> events.len() == 0
            &&& forall|p: int|
                0 <= p < v.active.len() && (#[trigger] v.active[p]).kind == BranchKind::Parent ==> {
                    let after = scheduler::advance_view(v.active[p], drafts[p], targets[p], stops);
                    let places = tokens::positions(after.tokens, fork);
                    &&& places.len() == v.children.len() + events.len()
                    &&& forall|j: int|
                        0 <= j < events.len() ==> {
                            &&& (#[trigger] events[j]).branch_index == p
                            &&& events[j].prefix_len == prompt_len + places[v.children.len() + j]
                        }
                }
        }),
{
    let fork = rules.fork_token_id;
    let stops = rules.stop_token_ids@;
    let n = v.active.len();
    let events = scheduler::events_upto(v.active, drafts, targets, fork, stops, n);
    assert(v.live(BranchKind::Parent) <= 1);
    if scheduler::count(v.active, BranchKind::Parent) == 0 {
        assert forall|i: int| 0 <= i < n implies !(#[trigger] v.active[i]).allow_fork by {
            assert(scheduler::runnable(v.active[i], rules));
            scheduler::lemma_count_member(v.active, i);
        }
        lemma_no_events(v.active, drafts, targets, rules, n);
    }
    assert forall|p: int|
        0 <= p < n && (#[trigger] v.active[p]).kind == BranchKind::Parent implies {
        let after = scheduler::advance_view(v.active[p], drafts[p], targets[p], stops);
        let places = tokens::positions(after.tokens, fork);
        &&& places.len() == v.children.len() + events.len()
        &&& forall|j: int|
            0 <= j < events.len() ==> {
                &&& (#[trigger] events[j]).branch_index == p
                &&& events[j].prefix_len == prompt_len + places[v.children.len() + j]
            }
    } by {
        assert forall|i: int| 0 <= i < n && i != p implies !(#[trigger] v.active[i]).allow_fork by {
            assert(scheduler::runnable(v.active[i], rules));
            if v.active[i].allow_fork {
                if i < p {
                    lemma_one_owner(v.active, i, p);
                } else {
                    lemma_one_owner(v.active, p, i);
                }
            }
        }
        lemma_events_of_one(v.active, drafts, targets, rules, n, p);
        assert(parent_answered(v.active[p], prompt_len, v.children.len(), fork));
        assert(row_fits(v.active[p], drafts[p], targets[p], rules));
        lemma_advance_reports(v.active[p], drafts[p], targets[p], p as nat, rules);
    }
}

/// A round answers the forks that it brings: where one child is started for each
/// fork that was reported, all forks have their children at the end of the round.
pub proof fn law_a_round_answers_its_forks(
    v: SchedulerView,
    advanced: SchedulerView,
    rules: Rules,
    drafts: Seq<Seq<u32>>,
    targets: Seq<Seq<u32>>,
    starts: Seq<ChildStart>,
    prompt_len: nat,
)
    requires
        v.ready(rules),
        forks_answered(v, prompt_len, rules.fork_token_id),
        round_fits(v.active, drafts, targets, rules),
        advanced.advanced(rules),
        advanced.active == scheduler::advance_all(
            v.active,
            drafts,
            targets,
            rules.stop_token_ids@,
        ),
        advanced.waiting == v.waiting,
        advanced.parent_tokens == v.parent_tokens,
        advanced.children == v.children,
        starts.len() == scheduler::events_upto(
            v.active,
            drafts,
            targets,
            rules.fork_token_id,
            rules.stop_token_ids@,
            v.active.len(),
        ).len(),
        forall|j: int|
            0 <= j < starts.len() ==> scheduler::child_fits(#[trigger] starts[j], rules),
        v.children.len() + starts.len() <= usize::MAX,
    ensures
        forks_answered(
            advanced.round_finished(starts, rules.max_active_branches as int),
            prompt_len,
            rules.fork_token_id,
        ),
{
    let fork = rules.fork_token_id;
    let stops = rules.stop_token_ids@;
    let max = rules.max_active_branches as int;
    let ended = advanced.round_finished(starts, max);
    let n = v.children.len() + starts.len();
    law_children_share_what_precedes_their_fork(v, rules, drafts, targets, prompt_len);
    scheduler::lemma_round_ready(advanced, rules, starts);
    assert(ended.children.len() == n);
    assert(v.live(BranchKind::Parent) <= 1);
    let s = scheduler::spawned(starts, v.children.len());
    let u = scheduler::unfinished(advanced.active);
    let w = v.waiting;
    assert forall|i: int| 0 <= i < advanced.active.len() implies parent_answered(
        #[trigger] advanced.active[i],
        prompt_len,
        n,
        fork,
    ) by {
        assert(parent_answered(v.active[i], prompt_len, v.children.len(), fork));
        assert(row_fits(v.active[i], drafts[i], targets[i], rules));
        lemma_advance_reports(v.active[i], drafts[i], targets[i], i as nat, rules);
    }
    assert forall|k: int| 0 <= k < u.len() implies parent_answered(
        #[trigger] u[k],
        prompt_len,
        n,
        fork,
    ) by {
        let i = lemma_unfinished_member(advanced.active, k);
        assert(parent_answered(advanced.active[i], prompt_len, n, fork));
    }
    assert forall|k: int| 0 <= k < w.len() implies parent_answered(
        #[trigger] w[k],
        prompt_len,
        n,
        fork,
    ) by {
        assert(parent_answered(v.waiting[k], prompt_len, v.children.len(), fork));
        scheduler::lemma_count_member(v.waiting, k);
    }
    let ns = scheduler::fill(max, s.len() as int);
    let nu = scheduler::fill(max - s.len(), u.len() as int);
    let nw = scheduler::fill(max - s.len() - u.len(), w.len() as int);
    assert forall|i: int| 0 <= i < ended.active.len() implies parent_answered(
        #[trigger] ended.active[i],
        prompt_len,
        n,
        fork,
    ) by {
        if i < ns {
            assert(ended.active[i] == s[i]);
        } else if i < ns + nu {
            assert(ended.active[i] == u[i - ns]);
        } else {
            assert(ended.active[i] == w[i - ns - nu]);
        }
    }
    assert forall|i: int| 0 <= i < ended.waiting.len() implies parent_answered(
        #[trigger] ended.waiting[i],
        prompt_len,
        n,
        fork,
    ) by {
        let lw = w.len() - nw;
        let lu = u.len() - nu;
        if i < lw {
            assert(ended.waiting[i] == w[i + nw]);
        } else if i < lw + lu {
            assert(ended.waiting[i] == u[i - lw + nu]);
        } else {
            assert(ended.waiting[i] == s[i - lw - lu + ns]);
        }
    }
    lemma_settled_parent(v.parent_tokens, advanced.active);
    if ended.parent_tokens == v.parent_tokens {
        assert(v.parent_tokens is Some ==> v.live(BranchKind::Parent) == 0);
    }
}

/// A fork of the page is replaced by the child marker and the tokens of its child:
/// the child that comes after as many others as there are forks before this one.
pub proof fn law_child_stands_at_its_fork(
    before: Seq<u32>,
    after: Seq<u32>,
    children: Seq<Seq<u32>>,
    from: nat,
    fork: u32,
    child: u32,
)
    requires
        from + tokens::positions(before, fork).len() < children.len(),
    ensures
        ({
            let i = from + tokens::positions(before, fork).len();
            scheduler::assembled(before + seq![fork] + after, children, from, fork, child)
                == scheduler::assembled(before, children, from, fork, child) + seq![child]
                + children[i as int] + scheduler::assembled(after, children, i + 1, fork, child)
        }),
    decreases before.len(),
{
    let whole = before + seq![fork] + after;
    let i = from + tokens::positions(before, fork).len();
    let tail = scheduler::assembled(after, children, i + 1, fork, child);
    if before.len() == 0 {
        assert(whole.skip(1) =~= after);
        assert(tokens::positions(before, fork).len() == 0);
        assert(scheduler::assembled(before, children, from, fork, child) + seq![child]
            + children[i as int] + tail =~= seq![child] + children[i as int] + tail);
    } else {
        let rest = before.skip(1);
        assert(whole.skip(1) =~= rest + seq![fork] + after);
        assert(whole[0] == before[0]);
        lemma_positions_ahead(before, fork);
        if before[0] == fork {
            law_child_stands_at_its_fork(rest, after, children, from + 1, fork, child);
            let done = scheduler::assembled(rest, children, from + 1, fork, child);
            assert(seq![child] + children[from as int] + (done + seq![child] + children[i as int]
                + tail) =~= seq![child] + children[from as int] + done + seq![child]
                + children[i as int] + tail);
        } else {
            law_child_stands_at_its_fork(rest, after, children, from, fork, child);
            let done = scheduler::assembled(rest, children, from, fork, child);
            assert(seq![before[0]] + (done + seq![child] + children[i as int] + tail)
                =~= seq![before[0]] + done + seq![child] + children[i as int] + tail);
        }
    }
}

} // verus!
