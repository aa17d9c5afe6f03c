//! What holds of a page from its first round to its last.
use crate::hpd_parsing::forks;
use crate::hpd_parsing::scheduler::{
    self, BranchKind, BranchView, ChildStart, HpdRuntimeStats, Rules, SchedulerView,
};
use crate::tokens;
use vstd::prelude::*;

verus! {

/// What one round of a page is given: drafts and the model's answers for each active
/// branch, the children that were started for the forks, and how many tokens were
/// drafted and accepted until then.
pub struct PageRound {
    pub drafts: Seq<Seq<u32>>,
    pub targets: Seq<Seq<u32>>,
    pub starts: Seq<ChildStart>,
    pub drafted: usize,
    pub accepted: usize,
}

/// No branch is left.
pub open spec fn is_over(v: SchedulerView) -> bool {
    v.active.len() == 0 && v.waiting.len() == 0
}

/// The page once the active branches of a round advanced.
pub open spec fn advanced(v: SchedulerView, rules: Rules, round: PageRound) -> SchedulerView {
    let b = v.begun(rules.max_active_branches as int);
    SchedulerView {
        active: scheduler::advance_all(
            b.active,
            round.drafts,
            round.targets,
            rules.stop_token_ids@,
        ),
        stats: HpdRuntimeStats {
            mtp_drafted_tokens: round.drafted,
            mtp_accepted_tokens: round.accepted,
            ..b.stats
        },
        ..b
    }
}

/// The page after a round: the pool is filled, its branches advance, and the round is
/// finished.
pub open spec fn after_round(v: SchedulerView, rules: Rules, round: PageRound) -> SchedulerView {
    advanced(v, rules, round).round_finished(round.starts, rules.max_active_branches as int)
}

/// The page after some rounds.
pub open spec fn after_rounds(
    v: SchedulerView,
    rules: Rules,
    rounds: Seq<PageRound>,
) -> SchedulerView
    decreases rounds.len(),
{
    if rounds.len() == 0 {
        v
    } else {
        after_round(after_rounds(v, rules, rounds.drop_last()), rules, rounds.last())
    }
}

/// A child may generate, within the context and `max_new` tokens.
pub open spec fn child_allowed(c: ChildStart, rules: Rules, max_new: nat) -> bool {
    scheduler::child_fits(c, rules) && c.max_new_tokens <= max_new
}

/// A round that a page can have: branches are left, the model answers for each active
/// one, and one child is started for each fork.
pub open spec fn is_round(v: SchedulerView, rules: Rules, round: PageRound, max_new: nat) -> bool {
    let b = v.begun(rules.max_active_branches as int);
    &&& !is_over(v)
    &&& forks::round_fits(b.active, round.drafts, round.targets, rules)
    &&& round.starts.len() == scheduler::events_upto(
        b.active,
        round.drafts,
        round.targets,
        rules.fork_token_id,
        rules.stop_token_ids@,
        b.active.len(),
    ).len()
    &&& forall|j: int|
        0 <= j < round.starts.len() ==> child_allowed(#[trigger] round.starts[j], rules, max_new)
    &&& v.children.len() + round.starts.len() <= usize::MAX
    &&& round.accepted <= round.drafted
}

/// `rounds` are rounds that a page has, one after the other.
pub open spec fn are_rounds(
    v: SchedulerView,
    rules: Rules,
    rounds: Seq<PageRound>,
    max_new: nat,
) -> bool
    decreases rounds.len(),
{
    rounds.len() == 0 || {
        &&& are_rounds(v, rules, rounds.drop_last(), max_new)
        &&& is_round(after_rounds(v, rules, rounds.drop_last()), rules, rounds.last(), max_new)
    }
}

/// A page that has not had a round: a parent that can run and has generated nothing.
pub open spec fn is_fresh(v: SchedulerView, parent: BranchView, rules: Rules, max_new: nat) -> bool {
    &&& v.active == seq![parent]
    &&& v.waiting.len() == 0
    &&& v.parent_tokens is None
    &&& v.children.len() == 0
    &&& v.stats.peak_active_branches == 0
    &&& v.ready(rules)
    &&& parent.kind == BranchKind::Parent
    &&& parent.allow_fork
    &&& parent.tokens.len() == 0
    &&& parent.max_new <= max_new
}

/// An output of a page: not empty, and within the limit.
pub open spec fn is_output(tokens: Seq<u32>, max_new: nat) -> bool {
    1 <= tokens.len() <= max_new
}

/// The outputs that were delivered are outputs of the page, and no branch may generate
/// more than its limit.
pub open spec fn outputs_fit(v: SchedulerView, max_new: nat) -> bool {
    &&& forall|i: int| 0 <= i < v.active.len() ==> (#[trigger] v.active[i]).max_new <= max_new
    &&& forall|i: int| 0 <= i < v.waiting.len() ==> (#[trigger] v.waiting[i]).max_new <= max_new
    &&& v.parent_tokens matches Some(t) ==> is_output(t, max_new)
    &&& forall|i: int|
        0 <= i < v.children.len() && v.live(BranchKind::Child(i as usize)) == 0 ==> is_output(
            #[trigger] v.children[i],
            max_new,
        )
}

/// Filling the pool leaves a state in which the round can go on.
proof fn lemma_begun_ready(v: SchedulerView, rules: Rules)
    requires
        v.ready(rules),
    ensures
        v.begun(rules.max_active_branches as int).ready(rules),
        forall|kind: BranchKind| #[trigger]
            v.begun(rules.max_active_branches as int).live(kind) == v.live(kind),
        !is_over(v) ==> v.begun(rules.max_active_branches as int).active.len() > 0,
{
    let max = rules.max_active_branches as int;
    let b = v.begun(max);
    let n = scheduler::fill(max - v.active.len(), v.waiting.len() as int);
    assert forall|kind: BranchKind| #[trigger] b.live(kind) == v.live(kind) by {
        scheduler::lemma_count_add(v.active, v.waiting.take(n), kind);
        scheduler::lemma_count_cut(v.waiting, n, kind);
    }
    assert forall|i: int| 0 <= i < b.active.len() implies scheduler::runnable(
        #[trigger] b.active[i],
        rules,
    ) by {
        if i < v.active.len() {
            assert(b.active[i] == v.active[i]);
        } else {
            assert(b.active[i] == v.waiting[i - v.active.len()]);
        }
    }
    assert forall|i: int| 0 <= i < b.waiting.len() implies scheduler::runnable(
        #[trigger] b.waiting[i],
        rules,
    ) by {
        assert(b.waiting[i] == v.waiting[i + n]);
    }
}

/// What a branch becomes that advances.
proof fn lemma_branch_advanced(
    b: BranchView,
    drafts: Seq<u32>,
    targets: Seq<u32>,
    rules: Rules,
)
    requires
        forks::row_fits(b, drafts, targets, rules),
    ensures
        ({
            let a = scheduler::advance_view(b, drafts, targets, rules.stop_token_ids@);
            &&& a.finished || scheduler::runnable(a, rules)
            &&& a.kind == b.kind
            &&& a.max_new == b.max_new
            &&& 1 <= a.tokens.len() <= a.max_new
        }),
{
    scheduler::law_advancing_stays_in_context(b, drafts, targets, rules);
    let m = crate::speculative::matched(drafts, targets);
    let moved = BranchView { seq_len: b.seq_len + 1 + m, pending: targets[m as int], ..b };
    scheduler::lemma_emit_all_frame(
        moved,
        scheduler::round_tokens(b, drafts, targets),
        rules.stop_token_ids@,
    );
}

/// Advancing the branches leaves a state in which the round can be finished.
proof fn lemma_advanced(v: SchedulerView, rules: Rules, round: PageRound, max_new: nat)
    requires
        v.ready(rules),
        outputs_fit(v, max_new),
        is_round(v, rules, round, max_new),
    ensures
        ({
            let a = advanced(v, rules, round);
            &&& a.advanced(rules)
            &&& forall|kind: BranchKind| #[trigger] a.live(kind) == v.live(kind)
            &&& forall|i: int|
                0 <= i < a.active.len() ==> {
                    &&& (#[trigger] a.active[i]).max_new <= max_new
                    &&& is_output(a.active[i].tokens, max_new)
                }
            &&& forall|i: int| 0 <= i < a.waiting.len() ==> (#[trigger] a.waiting[i]).max_new <= max_new
        }),
{
    let max = rules.max_active_branches as int;
    let b = v.begun(max);
    let a = advanced(v, rules, round);
    let n = scheduler::fill(max - v.active.len(), v.waiting.len() as int);
    lemma_begun_ready(v, rules);
    assert forall|i: int| 0 <= i < a.active.len() implies {
        &&& (#[trigger] a.active[i]).finished || scheduler::runnable(a.active[i], rules)
        &&& a.active[i].kind == b.active[i].kind
        &&& a.active[i].max_new <= max_new
        &&& is_output(a.active[i].tokens, max_new)
    } by {
        assert(forks::row_fits(b.active[i], round.drafts[i], round.targets[i], rules));
        lemma_branch_advanced(b.active[i], round.drafts[i], round.targets[i], rules);
        if i < v.active.len() {
            assert(b.active[i] == v.active[i]);
        } else {
            assert(b.active[i] == v.waiting[i - v.active.len()]);
        }
    }
    assert forall|kind: BranchKind| #[trigger] a.live(kind) == v.live(kind) by {
        scheduler::lemma_count_same_kinds(a.active, b.active, kind);
        assert(b.live(kind) == v.live(kind));
    }
    assert forall|i: int| 0 <= i < a.waiting.len() implies (#[trigger] a.waiting[i]).max_new
        <= max_new by {
        assert(a.waiting[i] == v.waiting[i + n]);
    }
}

/// What settling leaves in the slot of a child: the tokens of a branch that finished
/// and fills it, or what was there.
proof fn lemma_settled_child(children: Seq<Seq<u32>>, branches: Seq<BranchView>, c: usize)
    requires
        c < children.len(),
        forall|i: int|
            0 <= i < branches.len() ==> ((#[trigger] branches[i]).kind matches BranchKind::Child(k)
                ==> k < children.len()),
    ensures
        ({
            let kind = BranchKind::Child(c);
            let settled = scheduler::settle_children(children, branches);
            &&& settled.len() == children.len()
            &&& scheduler::count(scheduler::unfinished(branches), kind) <= scheduler::count(
                branches,
                kind,
            )
            &&& if scheduler::count(branches, kind) == scheduler::count(
                scheduler::unfinished(branches),
                kind,
            ) {
                settled[c as int] == children[c as int]
            } else {
                exists|i: int|
                    0 <= i < branches.len() && settled[c as int] == (#[trigger] branches[i]).tokens
            }
        }),
    decreases branches.len(),
{
    let kind = BranchKind::Child(c);
    if branches.len() > 0 {
        let before = branches.drop_last();
        let last = branches.last();
        assert forall|i: int| 0 <= i < before.len() implies ((
        #[trigger] before[i]).kind matches BranchKind::Child(k) ==> k < children.len()) by {
            assert(before[i] == branches[i]);
        }
        lemma_settled_child(children, before, c);
        assert(branches =~= before.push(last));
        scheduler::lemma_count_push(before, last, kind);
        scheduler::lemma_count_push(scheduler::unfinished(before), last, kind);
        let settled = scheduler::settle_children(children, branches);
        if last.kind == kind && last.finished {
            assert(settled[c as int] == branches[branches.len() - 1].tokens);
        } else {
            assert(settled[c as int] == scheduler::settle_children(children, before)[c as int]);
            if scheduler::count(before, kind) != scheduler::count(
                scheduler::unfinished(before),
                kind,
            ) {
                let i = choose|i: int|
                    0 <= i < before.len() && settled[c as int] == (#[trigger] before[i]).tokens;
                assert(settled[c as int] == branches[i].tokens);
            }
        }
    } else {
        assert(scheduler::unfinished(branches) =~= branches);
    }
}

/// A child that is started has a place in the pool or in the queue.
proof fn lemma_spawned_lives(starts: Seq<ChildStart>, offset: nat, j: int)
    requires
        0 <= j < starts.len(),
    ensures
        scheduler::count(
            scheduler::spawned(starts, offset),
            BranchKind::Child((offset + j) as usize),
        ) > 0,
{
    scheduler::lemma_count_member(scheduler::spawned(starts, offset), j);
}

/// A round keeps what holds of the page and of its outputs.
proof fn lemma_round(
    v: SchedulerView,
    rules: Rules,
    round: PageRound,
    max_new: nat,
    prompt_len: nat,
)
    requires
        v.ready(rules),
        outputs_fit(v, max_new),
        forks::forks_answered(v, prompt_len, rules.fork_token_id),
        v.stats.peak_active_branches <= rules.max_active_branches,
        is_round(v, rules, round, max_new),
    ensures
        ({
            let w = after_round(v, rules, round);
            &&& w.ready(rules)
            &&& outputs_fit(w, max_new)
            &&& forks::forks_answered(w, prompt_len, rules.fork_token_id)
            &&& 1 <= w.stats.peak_active_branches <= rules.max_active_branches
        }),
{
    let max = rules.max_active_branches as int;
    let b = v.begun(max);
    let a = advanced(v, rules, round);
    let w = after_round(v, rules, round);
    lemma_begun_ready(v, rules);
    lemma_advanced(v, rules, round, max_new);
    forks::law_forks_stay_answered_as_a_round_begins(v, max, prompt_len, rules.fork_token_id);
    assert forall|j: int| 0 <= j < round.starts.len() implies scheduler::child_fits(
        #[trigger] round.starts[j],
        rules,
    ) by {
        assert(child_allowed(round.starts[j], rules, max_new));
    }
    forks::law_a_round_answers_its_forks(
        b,
        a,
        rules,
        round.drafts,
        round.targets,
        round.starts,
        prompt_len,
    );
    scheduler::lemma_round_ready(a, rules, round.starts);
    lemma_outputs(a, w, rules, round, max_new, v);
}

/// Finishing a round delivers outputs that fit.
proof fn lemma_outputs(
    a: SchedulerView,
    w: SchedulerView,
    rules: Rules,
    round: PageRound,
    max_new: nat,
    v: SchedulerView,
)
    requires
        a == advanced(v, rules, round),
        w == after_round(v, rules, round),
        v.ready(rules),
        outputs_fit(v, max_new),
        is_round(v, rules, round, max_new),
        w.ready(rules),
    ensures
        outputs_fit(w, max_new),
{
    let max = rules.max_active_branches as int;
    let offset = v.children.len();
    let s = scheduler::spawned(round.starts, offset);
    let u = scheduler::unfinished(a.active);
    let q = a.waiting;
    let slots = v.children + Seq::new(round.starts.len(), |j: int| Seq::<u32>::empty());
    lemma_begun_ready(v, rules);
    lemma_advanced(v, rules, round, max_new);
    assert forall|j: int| 0 <= j < s.len() implies (#[trigger] s[j]).max_new <= max_new by {
        assert(child_allowed(round.starts[j], rules, max_new));
    }
    assert forall|k: int| 0 <= k < u.len() implies (#[trigger] u[k]).max_new <= max_new by {
        let i = forks::lemma_unfinished_member(a.active, k);
        assert(a.active[i].max_new <= max_new);
    }
    let ns = scheduler::fill(max, s.len() as int);
    let nu = scheduler::fill(max - s.len(), u.len() as int);
    let nq = scheduler::fill(max - s.len() - u.len(), q.len() as int);
    assert forall|i: int| 0 <= i < w.active.len() implies (#[trigger] w.active[i]).max_new
        <= max_new by {
        if i < ns {
            assert(w.active[i] == s[i]);
        } else if i < ns + nu {
            assert(w.active[i] == u[i - ns]);
        } else {
            assert(w.active[i] == q[i - ns - nu]);
        }
    }
    assert forall|i: int| 0 <= i < w.waiting.len() implies (#[trigger] w.waiting[i]).max_new
        <= max_new by {
        let lq = q.len() - nq;
        let lu = u.len() - nu;
        if i < lq {
            assert(w.waiting[i] == q[i + nq]);
        } else if i < lq + lu {
            assert(w.waiting[i] == u[i - lq + nu]);
        } else {
            assert(w.waiting[i] == s[i - lq - lu + ns]);
        }
    }
    forks::lemma_settled_parent(v.parent_tokens, a.active);
    assert forall|i: int| 0 <= i < a.active.len() implies ((
    #[trigger] a.active[i]).kind matches BranchKind::Child(k) ==> k < slots.len()) by {
        if let BranchKind::Child(k) = a.active[i].kind {
            scheduler::lemma_count_member(a.active, i);
            assert(a.live(BranchKind::Child(k)) > 0);
        }
    }
    assert forall|c: int|
        0 <= c < w.children.len() && w.live(BranchKind::Child(c as usize)) == 0 implies is_output(
        #[trigger] w.children[c],
        max_new,
    ) by {
        let kind = BranchKind::Child(c as usize);
        lemma_settled_child(slots, a.active, c as usize);
        scheduler::law_branches_are_conserved(s, u, q, max, kind);
        assert(scheduler::count(s, kind) == 0);
        assert(scheduler::count(u, kind) == 0);
        assert(scheduler::count(q, kind) == 0);
        if c >= offset {
            lemma_spawned_lives(round.starts, offset, c - offset);
        } else if scheduler::count(a.active, kind) == 0 {
            assert(a.live(kind) == 0);
            assert(v.live(kind) == 0);
            assert(is_output(v.children[c], max_new));
            assert(slots[c] == v.children[c]);
        } else {
            let i = choose|i: int|
                0 <= i < a.active.len() && w.children[c] == (#[trigger] a.active[i]).tokens;
            assert(is_output(a.active[i].tokens, max_new));
        }
    }
}

/// What holds of a page after every number of rounds.
proof fn lemma_rounds(
    v: SchedulerView,
    parent: BranchView,
    rules: Rules,
    rounds: Seq<PageRound>,
    max_new: nat,
)
    requires
        is_fresh(v, parent, rules, max_new),
        are_rounds(v, rules, rounds, max_new),
    ensures
        ({
            let w = after_rounds(v, rules, rounds);
            &&& w.ready(rules)
            &&& outputs_fit(w, max_new)
            &&& forks::forks_answered(w, parent.seq_len, rules.fork_token_id)
            &&& w.stats.peak_active_branches <= rules.max_active_branches
            &&& rounds.len() > 0 ==> w.stats.peak_active_branches >= 1
        }),
    decreases rounds.len(),
{
    if rounds.len() == 0 {
        forks::law_forks_are_answered_at_first(v, parent, rules.fork_token_id);
    } else {
        lemma_rounds(v, parent, rules, rounds.drop_last(), max_new);
        lemma_round(
            after_rounds(v, rules, rounds.drop_last()),
            rules,
            rounds.last(),
            max_new,
            parent.seq_len,
        );
    }
}

/// The totals of a page. At no time do more branches run than the rules allow. When no
/// branch is left, at least one has run; the parent and every child have an output that
/// is not empty and within the limit; and there are as many children as forks that were
/// counted and as fork tokens in the parent's output.
pub proof fn law_totals_of_a_page(
    v: SchedulerView,
    parent: BranchView,
    rules: Rules,
    rounds: Seq<PageRound>,
    max_new: nat,
)
    requires
        is_fresh(v, parent, rules, max_new),
        are_rounds(v, rules, rounds, max_new),
    ensures
        ({
            let w = after_rounds(v, rules, rounds);
            &&& w.active.len() <= rules.max_active_branches
            &&& w.stats.peak_active_branches <= rules.max_active_branches
            &&& is_over(w) ==> {
                &&& w.stats.peak_active_branches >= 1
                &&& w.stats.forked_branches == w.children.len()
                &&& w.parent_tokens matches Some(t) && is_output(t, max_new) && tokens::positions(
                    t,
                    rules.fork_token_id,
                ).len() == w.children.len()
                &&& forall|i: int|
                    0 <= i < w.children.len() ==> is_output(#[trigger] w.children[i], max_new)
            }
        }),
{
    let w = after_rounds(v, rules, rounds);
    lemma_rounds(v, parent, rules, rounds, max_new);
    if is_over(w) {
        scheduler::law_done_means_parent_delivered(w, rules);
        assert forall|i: int| 0 <= i < w.children.len() implies is_output(
            #[trigger] w.children[i],
            max_new,
        ) by {
            let kind = BranchKind::Child(i as usize);
            assert(scheduler::kinds(w.active).to_multiset().count(kind) == 0) by {
                assert(scheduler::kinds(w.active) =~= Seq::<BranchKind>::empty());
                broadcast use vstd::seq_lib::group_to_multiset_ensures;

            }
            assert(scheduler::kinds(w.waiting).to_multiset().count(kind) == 0) by {
                assert(scheduler::kinds(w.waiting) =~= Seq::<BranchKind>::empty());
                broadcast use vstd::seq_lib::group_to_multiset_ensures;

            }
        }
    }
}

} // verus!
