//! The branch scheduler. The caller runs the networks; the scheduler decides
//! which branches run, what their tokens mean and when a page is done.
//!
//! One round is: [`Scheduler::begin_round`], a forward pass over the active
//! branches, [`Scheduler::advance_greedy`] or [`Scheduler::advance_mtp`] with its
//! answers, a forward pass for each fork, and [`Scheduler::finish_round`].
use crate::error::{Error, ErrorView, Message};
use crate::speculative;
use crate::text;
use crate::tokens;
use std::collections::VecDeque;
use vstd::prelude::*;

verus! {

/// Which output a branch fills.
#[derive(Debug, Clone, Copy, PartialEq, Eq, Structural)]
pub enum BranchKind {
    Parent,
    Child(usize),
}

/// One decoding branch, apart from its tensors.
#[derive(Debug)]
pub struct Branch {
    pub kind: BranchKind,
    /// Positions held by the branch's K/V cache.
    pub seq_len: usize,
    /// The token that the last forward pass ranked first; not emitted yet.
    pub pending_token: u32,
    pub tokens: Vec<u32>,
    pub max_new_tokens: usize,
    pub allow_fork: bool,
    pub finished: bool,
}

/// A [`Branch`] as a mathematical value.
pub struct BranchView {
    pub kind: BranchKind,
    pub seq_len: nat,
    pub pending: u32,
    pub tokens: Seq<u32>,
    pub max_new: nat,
    pub allow_fork: bool,
    pub finished: bool,
}

impl View for Branch {
    type V = BranchView;

    open spec fn view(&self) -> BranchView {
        BranchView {
            kind: self.kind,
            seq_len: self.seq_len as nat,
            pending: self.pending_token,
            tokens: self.tokens@,
            max_new: self.max_new_tokens as nat,
            allow_fork: self.allow_fork,
            finished: self.finished,
        }
    }
}

/// The views of a sequence of branches.
pub open spec fn views(branches: Seq<Branch>) -> Seq<BranchView> {
    branches.map_values(|b: Branch| b@)
}

/// A request to fork: the child shares the first `prefix_len` cached positions of
/// the active branch `branch_index`.
#[derive(Debug, Clone, Copy, PartialEq, Eq, Structural)]
pub struct ForkEvent {
    pub branch_index: usize,
    pub prefix_len: usize,
}

/// A forked child whose first forward pass has run.
#[derive(Debug, Clone, Copy, PartialEq, Eq, Structural)]
pub struct ChildStart {
    pub prefix_len: usize,
    pub pending_token: u32,
    pub max_new_tokens: usize,
}

/// Counters of one run.
#[derive(Debug, Clone, Copy, PartialEq, Eq, Structural)]
pub struct HpdRuntimeStats {
    pub scheduler_rounds: usize,
    pub peak_active_branches: usize,
    pub forked_branches: usize,
    /// Sum of the prefix lengths that children share with their parent.
    pub shared_prefix_tokens: usize,
    pub mtp_drafted_tokens: usize,
    pub mtp_accepted_tokens: usize,
}

impl Default for HpdRuntimeStats {
    fn default() -> (s: Self)
        ensures
            s == (HpdRuntimeStats {
                scheduler_rounds: 0,
                peak_active_branches: 0,
                forked_branches: 0,
                shared_prefix_tokens: 0,
                mtp_drafted_tokens: 0,
                mtp_accepted_tokens: 0,
            }),
    {
        HpdRuntimeStats {
            scheduler_rounds: 0,
            peak_active_branches: 0,
            forked_branches: 0,
            shared_prefix_tokens: 0,
            mtp_drafted_tokens: 0,
            mtp_accepted_tokens: 0,
        }
    }
}

/// The branch after it emits `token`. A finished branch emits nothing.
pub open spec fn emit_view(b: BranchView, token: u32, stops: Seq<u32>) -> BranchView {
    if b.finished {
        b
    } else {
        BranchView {
            tokens: b.tokens.push(token),
            finished: stops.contains(token) || b.tokens.len() + 1 >= b.max_new,
            ..b
        }
    }
}

/// Whether emitting `token` forks a child.
pub open spec fn forks(b: BranchView, token: u32, fork: u32) -> bool {
    !b.finished && b.allow_fork && token == fork
}

/// The branch after it emits `tokens` in order.
pub open spec fn emit_all(b: BranchView, tokens: Seq<u32>, stops: Seq<u32>) -> BranchView
    decreases tokens.len(),
{
    if tokens.len() == 0 {
        b
    } else {
        emit_view(emit_all(b, tokens.drop_last(), stops), tokens.last(), stops)
    }
}

/// The forks that emitting `tokens` asks for; the first token was decoded behind
/// `prefix_len` cached positions.
pub open spec fn fork_events(
    b: BranchView,
    tokens: Seq<u32>,
    prefix_len: nat,
    index: nat,
    fork: u32,
    stops: Seq<u32>,
) -> Seq<ForkEvent>
    decreases tokens.len(),
{
    if tokens.len() == 0 {
        Seq::empty()
    } else {
        let before = fork_events(b, tokens.drop_last(), prefix_len, index, fork, stops);
        if forks(emit_all(b, tokens.drop_last(), stops), tokens.last(), fork) {
            before.push(
                ForkEvent {
                    branch_index: index as usize,
                    prefix_len: (prefix_len + tokens.len() - 1) as usize,
                },
            )
        } else {
            before
        }
    }
}

/// The tokens that a verification round emits: the pending one and the confirmed
/// drafts.
pub open spec fn round_tokens(b: BranchView, drafts: Seq<u32>, targets: Seq<u32>) -> Seq<u32> {
    seq![b.pending] + targets.take(speculative::matched(drafts, targets) as int)
}

/// The branch after a round with `drafts` that the model answered by `targets`.
pub open spec fn advance_view(
    b: BranchView,
    drafts: Seq<u32>,
    targets: Seq<u32>,
    stops: Seq<u32>,
) -> BranchView {
    let m = speculative::matched(drafts, targets);
    emit_all(
        BranchView { seq_len: b.seq_len + 1 + m, pending: targets[m as int], ..b },
        round_tokens(b, drafts, targets),
        stops,
    )
}

/// The forks that [`advance_view`] asks for.
pub open spec fn advance_events(
    b: BranchView,
    drafts: Seq<u32>,
    targets: Seq<u32>,
    index: nat,
    fork: u32,
    stops: Seq<u32>,
) -> Seq<ForkEvent> {
    fork_events(b, round_tokens(b, drafts, targets), b.seq_len, index, fork, stops)
}

/// The branches after a round in which all of `rows` advanced.
pub open spec fn advance_all(
    branches: Seq<BranchView>,
    drafts: Seq<Seq<u32>>,
    targets: Seq<Seq<u32>>,
    stops: Seq<u32>,
) -> Seq<BranchView> {
    Seq::new(
        branches.len(),
        |i: int| advance_view(branches[i], drafts[i], targets[i], stops),
    )
}

/// The forks of the first `n` branches, in order.
pub open spec fn events_upto(
    branches: Seq<BranchView>,
    drafts: Seq<Seq<u32>>,
    targets: Seq<Seq<u32>>,
    fork: u32,
    stops: Seq<u32>,
    n: nat,
) -> Seq<ForkEvent>
    decreases n,
{
    if n == 0 {
        Seq::empty()
    } else {
        events_upto(branches, drafts, targets, fork, stops, (n - 1) as nat) + advance_events(
            branches[n - 1],
            drafts[n - 1],
            targets[n - 1],
            (n - 1) as nat,
            fork,
            stops,
        )
    }
}

/// The accepted drafts of the first `n` branches.
pub open spec fn accepted_upto(drafts: Seq<Seq<u32>>, targets: Seq<Seq<u32>>, n: nat) -> nat
    decreases n,
{
    if n == 0 {
        0
    } else {
        accepted_upto(drafts, targets, (n - 1) as nat) + speculative::matched(drafts[n - 1], targets[n - 1])
    }
}

/// The token rows behind a vector of vectors.
pub open spec fn rows(v: Seq<Vec<u32>>) -> Seq<Seq<u32>> {
    v.map_values(|r: Vec<u32>| r@)
}

/// A single-token answer for each branch, as verification rows without drafts.
pub open spec fn single_rows(next: Seq<u32>) -> Seq<Seq<u32>> {
    next.map_values(|t: u32| seq![t])
}

/// As many empty draft rows as there are branches.
pub open spec fn no_drafts(n: nat) -> Seq<Seq<u32>> {
    Seq::new(n, |i: int| Seq::empty())
}

impl Branch {
    /// A branch whose prompt has been processed.
    pub fn start(
        kind: BranchKind,
        seq_len: usize,
        pending_token: u32,
        max_new_tokens: usize,
        allow_fork: bool,
    ) -> (b: Branch)
        ensures
            b@ == (BranchView {
                kind,
                seq_len: seq_len as nat,
                pending: pending_token,
                tokens: Seq::empty(),
                max_new: max_new_tokens as nat,
                allow_fork,
                finished: false,
            }),
    {
        Branch {
            kind,
            seq_len,
            pending_token,
            tokens: Vec::new(),
            max_new_tokens,
            allow_fork,
            finished: false,
        }
    }

    /// Emits one token that was decoded behind `prefix_len` cached positions.
    pub fn emit(
        &mut self,
        token: u32,
        prefix_len: usize,
        branch_index: usize,
        fork_token_id: u32,
        stop_token_ids: &Vec<u32>,
        events: &mut Vec<ForkEvent>,
    )
        ensures
            final(self)@ == emit_view(old(self)@, token, stop_token_ids@),
            final(events)@ == if forks(old(self)@, token, fork_token_id) {
                old(events)@.push(ForkEvent { branch_index, prefix_len })
            } else {
                old(events)@
            },
    {
        if self.finished {
            return;
        }
        self.tokens.push(token);
        if self.allow_fork && token == fork_token_id {
            events.push(ForkEvent { branch_index, prefix_len });
        }
        let stop = tokens::contains(stop_token_ids, token);
        self.finished = stop || self.tokens.len() >= self.max_new_tokens;
    }

    /// Moves the branch past the accepted drafts and emits what they confirm.
    pub fn advance(
        &mut self,
        drafts: &Vec<u32>,
        targets: &Vec<u32>,
        branch_index: usize,
        fork_token_id: u32,
        stop_token_ids: &Vec<u32>,
        events: &mut Vec<ForkEvent>,
    ) -> (accepted: usize)
        requires
            targets.len() == drafts.len() + 1,
            old(self).seq_len + targets.len() <= usize::MAX,
        ensures
            accepted == speculative::matched(drafts@, targets@),
            accepted <= drafts.len(),
            final(self)@ == advance_view(old(self)@, drafts@, targets@, stop_token_ids@),
            final(events)@ == old(events)@ + advance_events(
                old(self)@,
                drafts@,
                targets@,
                branch_index as nat,
                fork_token_id,
                stop_token_ids@,
            ),
    {
        let ghost b0 = self@;
        let ghost emitted = round_tokens(b0, drafts@, targets@);
        let accepted: usize = speculative::accepted_prefix(drafts, targets);
        let start: usize = self.seq_len;
        let pending: u32 = self.pending_token;
        self.seq_len = start + 1 + accepted;
        self.pending_token = targets[accepted];
        let ghost b1 = self@;
        proof {
            assert(emitted.take(0) =~= Seq::<u32>::empty());
            lemma_emit_ignores_cursor(b0, b1, emitted, start as nat, branch_index as nat, fork_token_id, stop_token_ids@);
        }
        self.emit(pending, start, branch_index, fork_token_id, stop_token_ids, events);
        proof {
            assert(emitted.take(1) =~= seq![pending]);
            assert(emitted.take(1).drop_last() =~= emitted.take(0));
            assert(emit_all(b1, emitted.take(0), stop_token_ids@) == b1);
            assert(fork_events(
                b1,
                emitted.take(0),
                start as nat,
                branch_index as nat,
                fork_token_id,
                stop_token_ids@,
            ) =~= Seq::<ForkEvent>::empty());
        }
        let mut offset: usize = 0;
        while offset < accepted && !self.finished
            invariant
                offset <= accepted <= drafts.len(),
                targets.len() == drafts.len() + 1,
                accepted == speculative::matched(drafts@, targets@),
                start + targets.len() <= usize::MAX,
                b1.seq_len == start + 1 + accepted,
                emitted == seq![pending] + targets@.take(accepted as int),
                self@ == emit_all(b1, emitted.take(offset + 1), stop_token_ids@),
                events@ == old(events)@ + fork_events(
                    b1,
                    emitted.take(offset + 1),
                    start as nat,
                    branch_index as nat,
                    fork_token_id,
                    stop_token_ids@,
                ),
            decreases accepted - offset,
        {
            proof {
                assert(emitted.take(offset + 2).drop_last() =~= emitted.take(offset + 1));
                assert(emitted.take(offset + 2).last() == targets@[offset as int]);
            }
            self.emit(
                targets[offset],
                start + 1 + offset,
                branch_index,
                fork_token_id,
                stop_token_ids,
                events,
            );
            offset = offset + 1;
        }
        proof {
            lemma_finished_emits_nothing(b1, emitted, (offset + 1) as nat, start as nat, branch_index as nat, fork_token_id, stop_token_ids@);
            assert(emitted.take(emitted.len() as int) =~= emitted);
        }
        accepted
    }
}

/// Emission depends on the cache length and the pending token of a branch only
/// through what it hands back.
pub proof fn lemma_emit_ignores_cursor(
    b0: BranchView,
    b1: BranchView,
    tokens: Seq<u32>,
    prefix_len: nat,
    index: nat,
    fork: u32,
    stops: Seq<u32>,
)
    requires
        b1 == (BranchView { seq_len: b1.seq_len, pending: b1.pending, ..b0 }),
    ensures
        emit_all(b1, tokens, stops) == (BranchView {
            seq_len: b1.seq_len,
            pending: b1.pending,
            ..emit_all(b0, tokens, stops)
        }),
        fork_events(b1, tokens, prefix_len, index, fork, stops) == fork_events(
            b0,
            tokens,
            prefix_len,
            index,
            fork,
            stops,
        ),
        emit_all(b0, tokens, stops).seq_len == b0.seq_len,
        emit_all(b0, tokens, stops).pending == b0.pending,
    decreases tokens.len(),
{
    if tokens.len() > 0 {
        lemma_emit_ignores_cursor(b0, b1, tokens.drop_last(), prefix_len, index, fork, stops);
    }
}

/// Once a branch is finished, further tokens change nothing.
pub proof fn lemma_finished_emits_nothing(
    b: BranchView,
    tokens: Seq<u32>,
    n: nat,
    prefix_len: nat,
    index: nat,
    fork: u32,
    stops: Seq<u32>,
)
    requires
        n <= tokens.len(),
        n == tokens.len() || emit_all(b, tokens.take(n as int), stops).finished,
    ensures
        emit_all(b, tokens, stops) == emit_all(b, tokens.take(n as int), stops),
        fork_events(b, tokens, prefix_len, index, fork, stops) == fork_events(
            b,
            tokens.take(n as int),
            prefix_len,
            index,
            fork,
            stops,
        ),
    decreases tokens.len() - n,
{
    if n == tokens.len() {
        assert(tokens.take(n as int) =~= tokens);
    } else {
        let next = tokens.take(n as int + 1);
        assert(next.drop_last() =~= tokens.take(n as int));
        lemma_finished_emits_nothing(b, tokens, n + 1, prefix_len, index, fork, stops);
    }
}

/// `k` drafts for each branch, with the model's answers to them.
pub open spec fn rows_fit(
    drafts: Seq<Vec<u32>>,
    targets: Seq<Vec<u32>>,
    k: nat,
    active: Seq<BranchView>,
    max_positions: nat,
) -> bool {
    &&& drafts.len() == active.len()
    &&& targets.len() == active.len()
    &&& forall|i: int| 0 <= i < active.len() ==> row_fits(drafts, targets, k, #[trigger] active[i], max_positions, i)
}

/// The rows of one branch.
pub open spec fn row_fits(
    drafts: Seq<Vec<u32>>,
    targets: Seq<Vec<u32>>,
    k: nat,
    branch: BranchView,
    max_positions: nat,
    i: int,
) -> bool {
    &&& drafts[i]@.len() == k
    &&& targets[i]@.len() == k + 1
    &&& k <= draft_room(branch, max_positions)
}

/// What a run has to respect.
#[derive(Debug)]
pub struct Rules {
    pub fork_token_id: u32,
    pub stop_token_ids: Vec<u32>,
    pub max_position_embeddings: usize,
    pub max_active_branches: usize,
}

/// All branches of a page and the outputs collected so far.
#[derive(Debug)]
pub struct Scheduler {
    pub active: Vec<Branch>,
    pub waiting: VecDeque<Branch>,
    pub parent_tokens: Option<Vec<u32>>,
    pub children: Vec<Vec<u32>>,
    pub stats: HpdRuntimeStats,
}

/// A [`Scheduler`] as a mathematical value.
pub struct SchedulerView {
    pub active: Seq<BranchView>,
    pub waiting: Seq<BranchView>,
    pub parent_tokens: Option<Seq<u32>>,
    pub children: Seq<Seq<u32>>,
    pub stats: HpdRuntimeStats,
}

impl View for Scheduler {
    type V = SchedulerView;

    open spec fn view(&self) -> SchedulerView {
        SchedulerView {
            active: views(self.active@),
            waiting: views(self.waiting@),
            parent_tokens: match self.parent_tokens {
                Some(tokens) => Some(tokens@),
                None => None,
            },
            children: rows(self.children@),
            stats: self.stats,
        }
    }
}

/// What the branches of a sequence fill.
pub open spec fn kinds(branches: Seq<BranchView>) -> Seq<BranchKind> {
    branches.map_values(|b: BranchView| b.kind)
}

/// How many branches of a sequence fill `kind`.
pub open spec fn count(branches: Seq<BranchView>, kind: BranchKind) -> nat {
    kinds(branches).to_multiset().count(kind)
}

/// The branches of a sequence that still run.
pub open spec fn unfinished(branches: Seq<BranchView>) -> Seq<BranchView>
    decreases branches.len(),
{
    if branches.len() == 0 {
        Seq::empty()
    } else if branches.last().finished {
        unfinished(branches.drop_last())
    } else {
        unfinished(branches.drop_last()).push(branches.last())
    }
}

/// The parent's output after the finished branches of a sequence were collected.
pub open spec fn settle_parent(
    parent: Option<Seq<u32>>,
    branches: Seq<BranchView>,
) -> Option<Seq<u32>>
    decreases branches.len(),
{
    if branches.len() == 0 {
        parent
    } else if branches.last().finished && branches.last().kind == BranchKind::Parent {
        Some(branches.last().tokens)
    } else {
        settle_parent(parent, branches.drop_last())
    }
}

/// The children's outputs after the finished branches of a sequence were
/// collected.
pub open spec fn settle_children(
    children: Seq<Seq<u32>>,
    branches: Seq<BranchView>,
) -> Seq<Seq<u32>>
    decreases branches.len(),
{
    if branches.len() == 0 {
        children
    } else {
        let before = settle_children(children, branches.drop_last());
        match branches.last().kind {
            BranchKind::Child(i) => if branches.last().finished {
                before.update(i as int, branches.last().tokens)
            } else {
                before
            },
            BranchKind::Parent => before,
        }
    }
}

/// The branches that newly forked children become; their slots follow the
/// `offset` slots in use.
pub open spec fn spawned(starts: Seq<ChildStart>, offset: nat) -> Seq<BranchView> {
    Seq::new(
        starts.len(),
        |j: int|
            BranchView {
                kind: BranchKind::Child((offset + j) as usize),
                seq_len: (starts[j].prefix_len + 1) as nat,
                pending: starts[j].pending_token,
                tokens: Seq::empty(),
                max_new: starts[j].max_new_tokens as nat,
                allow_fork: false,
                finished: false,
            },
    )
}

/// The sum of the shared prefix lengths.
pub open spec fn prefix_sum(starts: Seq<ChildStart>) -> nat
    decreases starts.len(),
{
    if starts.len() == 0 {
        0
    } else {
        prefix_sum(starts.drop_last()) + starts.last().prefix_len as nat
    }
}

/// The smaller of two integers.
pub open spec fn min_int(a: int, b: int) -> int {
    if a <= b {
        a
    } else {
        b
    }
}

/// How many of `len` candidates fill a pool of `room` free places.
pub open spec fn fill(room: int, len: int) -> int {
    if room <= 0 {
        0
    } else {
        min_int(room, len)
    }
}

/// The pool of the next round: children first, then branches that ran, then
/// branches that waited.
pub open spec fn next_active(
    s: Seq<BranchView>,
    u: Seq<BranchView>,
    w: Seq<BranchView>,
    max: int,
) -> Seq<BranchView> {
    let ns = fill(max, s.len() as int);
    let nu = fill(max - s.len(), u.len() as int);
    let nw = fill(max - s.len() - u.len(), w.len() as int);
    s.take(ns) + u.take(nu) + w.take(nw)
}

/// The queue of the next round: branches that keep waiting, then branches that
/// ran and are preempted, then children that found no place.
pub open spec fn next_waiting(
    s: Seq<BranchView>,
    u: Seq<BranchView>,
    w: Seq<BranchView>,
    max: int,
) -> Seq<BranchView> {
    let ns = fill(max, s.len() as int);
    let nu = fill(max - s.len(), u.len() as int);
    let nw = fill(max - s.len() - u.len(), w.len() as int);
    w.skip(nw) + u.skip(nu) + s.skip(ns)
}

/// How many tokens can be drafted for a branch.
pub open spec fn draft_room(b: BranchView, max_positions: nat) -> int {
    let output_room = b.max_new - b.tokens.len() - 1;
    let context_room = max_positions - b.seq_len - 1;
    fill(min_int(output_room, context_room), min_int(output_room, context_room))
}

/// A branch that can run: it has room for its remaining tokens in the context.
pub open spec fn runnable(b: BranchView, rules: Rules) -> bool {
    &&& !b.finished
    &&& b.tokens.len() < b.max_new
    &&& b.seq_len + (b.max_new - b.tokens.len()) <= rules.max_position_embeddings
    &&& b.allow_fork ==> b.kind == BranchKind::Parent
}

impl SchedulerView {
    /// How many branches, active or waiting, fill `kind`.
    pub open spec fn live(self, kind: BranchKind) -> nat {
        count(self.active, kind) + count(self.waiting, kind)
    }

    /// Every output has one owner: a live branch, or its final tokens.
    pub open spec fn outputs_owned(self) -> bool {
        &&& forall|kind: BranchKind| #[trigger] self.live(kind) <= 1
        &&& forall|i: usize| #[trigger] self.live(BranchKind::Child(i)) > 0 ==> i < self.children.len()
        &&& self.live(BranchKind::Parent) == if self.parent_tokens is None {
            1nat
        } else {
            0nat
        }
        &&& self.stats.forked_branches == self.children.len()
        &&& self.stats.mtp_accepted_tokens <= self.stats.mtp_drafted_tokens
    }

    /// The state between rounds.
    pub open spec fn ready(self, rules: Rules) -> bool {
        &&& self.outputs_owned()
        &&& rules.max_active_branches > 0
        &&& self.active.len() <= rules.max_active_branches
        &&& forall|i: int| 0 <= i < self.active.len() ==> runnable(#[trigger] self.active[i], rules)
        &&& forall|i: int|
            0 <= i < self.waiting.len() ==> runnable(#[trigger] self.waiting[i], rules)
    }

    /// The state after the active branches advanced.
    pub open spec fn advanced(self, rules: Rules) -> bool {
        &&& self.outputs_owned()
        &&& rules.max_active_branches > 0
        &&& self.active.len() <= rules.max_active_branches
        &&& forall|i: int|
            0 <= i < self.active.len() ==> (#[trigger] self.active[i]).finished || runnable(
                self.active[i],
                rules,
            )
        &&& forall|i: int|
            0 <= i < self.waiting.len() ==> runnable(#[trigger] self.waiting[i], rules)
    }

    /// The state at the start of a round: the pool is filled from the queue.
    pub open spec fn begun(self, max_active: int) -> SchedulerView {
        let n = fill(max_active - self.active.len(), self.waiting.len() as int);
        SchedulerView {
            active: self.active + self.waiting.take(n),
            waiting: self.waiting.skip(n),
            stats: HpdRuntimeStats {
                scheduler_rounds: (self.stats.scheduler_rounds + 1) as usize,
                peak_active_branches: if self.stats.peak_active_branches >= self.active.len() + n {
                    self.stats.peak_active_branches
                } else {
                    (self.active.len() + n) as usize
                },
                ..self.stats
            },
            ..self
        }
    }

    /// The state at the end of a round in which `starts` were forked.
    pub open spec fn round_finished(self, starts: Seq<ChildStart>, max_active: int) -> SchedulerView {
        let s = spawned(starts, self.children.len());
        let u = unfinished(self.active);
        let slots = self.children + Seq::new(starts.len(), |j: int| Seq::<u32>::empty());
        SchedulerView {
            active: next_active(s, u, self.waiting, max_active),
            waiting: next_waiting(s, u, self.waiting, max_active),
            parent_tokens: settle_parent(self.parent_tokens, self.active),
            children: settle_children(slots, self.active),
            stats: HpdRuntimeStats {
                forked_branches: (self.stats.forked_branches + starts.len()) as usize,
                shared_prefix_tokens: (self.stats.shared_prefix_tokens + prefix_sum(starts)) as usize,
                ..self.stats
            },
        }
    }
}

/// A child fits into the context behind its prefix.
pub open spec fn child_fits(c: ChildStart, rules: Rules) -> bool {
    &&& c.max_new_tokens > 0
    &&& c.prefix_len + 1 + c.max_new_tokens <= rules.max_position_embeddings
}

/// The multiset of kinds of a concatenation.
pub proof fn lemma_count_add(a: Seq<BranchView>, b: Seq<BranchView>, kind: BranchKind)
    ensures
        count(a + b, kind) == count(a, kind) + count(b, kind),
{
    assert(kinds(a + b) =~= kinds(a) + kinds(b));
    vstd::seq_lib::lemma_multiset_commutative(kinds(a), kinds(b));
}

/// Cutting a sequence in two loses nothing.
pub proof fn lemma_count_cut(a: Seq<BranchView>, n: int, kind: BranchKind)
    requires
        0 <= n <= a.len(),
    ensures
        count(a, kind) == count(a.take(n), kind) + count(a.skip(n), kind),
{
    assert(a =~= a.take(n) + a.skip(n));
    lemma_count_add(a.take(n), a.skip(n), kind);
}

/// One more branch adds one to the count of its kind.
pub proof fn lemma_count_push(a: Seq<BranchView>, b: BranchView, kind: BranchKind)
    ensures
        count(a.push(b), kind) == count(a, kind) + if b.kind == kind {
            1nat
        } else {
            0nat
        },
{
    broadcast use vstd::seq_lib::group_to_multiset_ensures;

    assert(kinds(a.push(b)) =~= kinds(a).push(b.kind));
}

/// A branch of a sequence counts for its kind.
pub proof fn lemma_count_member(a: Seq<BranchView>, i: int)
    requires
        0 <= i < a.len(),
    ensures
        count(a, a[i].kind) > 0,
{
    broadcast use vstd::seq_lib::group_to_multiset_ensures;

    assert(kinds(a)[i] == a[i].kind);
    assert(kinds(a).contains(a[i].kind));
}

/// Counts depend on kinds alone.
pub proof fn lemma_count_same_kinds(a: Seq<BranchView>, b: Seq<BranchView>, kind: BranchKind)
    requires
        a.len() == b.len(),
        forall|i: int| 0 <= i < a.len() ==> (#[trigger] a[i]).kind == b[i].kind,
    ensures
        count(a, kind) == count(b, kind),
{
    assert(kinds(a) =~= kinds(b));
}

/// No branch is lost or doubled between two rounds: the pool and the queue hold
/// the children, the unfinished branches and the branches that waited.
pub proof fn law_branches_are_conserved(
    s: Seq<BranchView>,
    u: Seq<BranchView>,
    w: Seq<BranchView>,
    max: int,
    kind: BranchKind,
)
    requires
        max > 0,
    ensures
        count(next_active(s, u, w, max), kind) + count(next_waiting(s, u, w, max), kind) == count(
            s,
            kind,
        ) + count(u, kind) + count(w, kind),
        next_active(s, u, w, max).len() + next_waiting(s, u, w, max).len() == s.len() + u.len()
            + w.len(),
        next_active(s, u, w, max).len() <= max,
        next_waiting(s, u, w, max).len() > 0 ==> next_active(s, u, w, max).len() == max,
{
    let ns = fill(max, s.len() as int);
    let nu = fill(max - s.len(), u.len() as int);
    let nw = fill(max - s.len() - u.len(), w.len() as int);
    lemma_count_cut(s, ns, kind);
    lemma_count_cut(u, nu, kind);
    lemma_count_cut(w, nw, kind);
    lemma_count_add(s.take(ns) + u.take(nu), w.take(nw), kind);
    lemma_count_add(s.take(ns), u.take(nu), kind);
    lemma_count_add(w.skip(nw) + u.skip(nu), s.skip(ns), kind);
    lemma_count_add(w.skip(nw), u.skip(nu), kind);
}

/// Settling counts every finished branch once and keeps every other one.
pub proof fn lemma_settled(
    parent: Option<Seq<u32>>,
    children: Seq<Seq<u32>>,
    branches: Seq<BranchView>,
    rules: Rules,
)
    requires
        forall|i: int|
            0 <= i < branches.len() ==> (#[trigger] branches[i]).finished || runnable(
                branches[i],
                rules,
            ),
        forall|i: usize| #[trigger] count(branches, BranchKind::Child(i)) > 0 ==> i < children.len(),
        parent is None || count(branches, BranchKind::Parent) == 0,
        forall|kind: BranchKind| #[trigger] count(branches, kind) <= 1,
    ensures
        forall|kind: BranchKind| #[trigger]
            count(unfinished(branches), kind) <= count(branches, kind),
        forall|i: int|
            0 <= i < unfinished(branches).len() ==> runnable(
                #[trigger] unfinished(branches)[i],
                rules,
            ),
        settle_parent(parent, branches) is Some <==> (parent is Some || count(
            branches,
            BranchKind::Parent,
        ) > count(unfinished(branches), BranchKind::Parent)),
        settle_children(children, branches).len() == children.len(),
        unfinished(branches).len() <= branches.len(),
    decreases branches.len(),
{
    if branches.len() > 0 {
        let rest = branches.drop_last();
        let last = branches.last();
        assert(branches =~= rest.push(last));
        assert forall|kind: BranchKind| #[trigger] count(rest, kind) <= count(branches, kind) by {
            lemma_count_push(rest, last, kind);
        }
        assert forall|i: int| 0 <= i < rest.len() implies (#[trigger] rest[i]).finished || runnable(
            rest[i],
            rules,
        ) by {
            assert(rest[i] == branches[i]);
        }
        lemma_settled(parent, children, rest, rules);
        assert(last == branches[branches.len() - 1]);
        lemma_count_member(branches, branches.len() - 1);
        lemma_count_push(rest, last, BranchKind::Parent);
        assert forall|kind: BranchKind| #[trigger]
            count(unfinished(branches), kind) <= count(branches, kind) by {
            lemma_count_push(rest, last, kind);
            lemma_count_push(unfinished(rest), last, kind);
            assert(count(unfinished(rest), kind) <= count(rest, kind));
        }
        lemma_count_push(unfinished(rest), last, BranchKind::Parent);
        assert(count(unfinished(rest), BranchKind::Parent) <= count(rest, BranchKind::Parent));
    } else {
        assert(unfinished(branches) =~= branches);
    }
}

/// Children that were just forked fill fresh slots, one each.
pub proof fn lemma_spawned_counts(starts: Seq<ChildStart>, offset: nat, kind: BranchKind)
    requires
        offset + starts.len() <= usize::MAX,
    ensures
        count(spawned(starts, offset), kind) <= 1,
        count(spawned(starts, offset), kind) > 0 ==> (kind matches BranchKind::Child(i) && offset
            <= i < offset + starts.len()),
    decreases starts.len(),
{
    broadcast use vstd::seq_lib::group_to_multiset_ensures;

    let all = spawned(starts, offset);
    if starts.len() > 0 {
        let rest = spawned(starts.drop_last(), offset);
        lemma_spawned_counts(starts.drop_last(), offset, kind);
        assert(all =~= rest.push(all.last()));
        lemma_count_push(rest, all.last(), kind);
    } else {
        assert(kinds(all) =~= Seq::<BranchKind>::empty());
    }
}

/// An advanced branch keeps its place, its limits and its kind, and gains at
/// least one token unless it had finished.
pub proof fn lemma_emit_all_frame(b: BranchView, tokens: Seq<u32>, stops: Seq<u32>)
    requires
        !b.finished,
        b.tokens.len() < b.max_new,
    ensures
        ({
            let e = emit_all(b, tokens, stops);
            &&& e.kind == b.kind
            &&& e.seq_len == b.seq_len
            &&& e.pending == b.pending
            &&& e.max_new == b.max_new
            &&& e.allow_fork == b.allow_fork
            &&& e.tokens.len() <= e.max_new
            &&& e.tokens.len() <= b.tokens.len() + tokens.len()
            &&& tokens.len() > 0 ==> e.tokens.len() > b.tokens.len()
            &&& !e.finished ==> {
                &&& e.tokens == b.tokens + tokens
                &&& e.tokens.len() < e.max_new
            }
            &&& e.tokens.len() >= b.tokens.len()
            &&& e.tokens.take(b.tokens.len() as int) == b.tokens
        }),
    decreases tokens.len(),
{
    if tokens.len() > 0 {
        lemma_emit_all_frame(b, tokens.drop_last(), stops);
        let e = emit_all(b, tokens.drop_last(), stops);
        if !e.finished {
            assert(e.tokens.push(tokens.last()) =~= b.tokens + tokens);
            assert(e.tokens.push(tokens.last()).take(b.tokens.len() as int) =~= b.tokens);
        }
    } else {
        assert(b.tokens + tokens =~= b.tokens);
        assert(b.tokens.take(b.tokens.len() as int) =~= b.tokens);
    }
}

/// A runnable branch that advances by no more drafts than it has room for is
/// finished or runnable again.
pub proof fn law_advancing_stays_in_context(
    b: BranchView,
    drafts: Seq<u32>,
    targets: Seq<u32>,
    rules: Rules,
)
    requires
        runnable(b, rules),
        targets.len() == drafts.len() + 1,
        drafts.len() <= draft_room(b, rules.max_position_embeddings as nat),
    ensures
        ({
            let a = advance_view(b, drafts, targets, rules.stop_token_ids@);
            &&& a.finished || runnable(a, rules)
            &&& a.seq_len <= rules.max_position_embeddings
            &&& a.tokens.len() > b.tokens.len()
            &&& a.tokens.len() <= a.max_new
            &&& a.kind == b.kind
        }),
{
    speculative::lemma_matched_from(drafts, targets, 0);
    let m = speculative::matched(drafts, targets);
    let b1 = BranchView { seq_len: b.seq_len + 1 + m, pending: targets[m as int], ..b };
    lemma_emit_all_frame(b1, round_tokens(b, drafts, targets), rules.stop_token_ids@);
}

/// The most tokens that a child may generate behind `prefix_len` shared
/// positions; the child's own start token takes one position.
pub fn child_token_limit(
    prefix_len: usize,
    max_new_tokens: usize,
    max_position_embeddings: usize,
) -> (r: Result<usize, Error>)
    requires
        prefix_len < usize::MAX,
    ensures
        match r {
            Ok(limit) => {
                &&& prefix_len + 1 < max_position_embeddings
                &&& limit == min_int(
                    max_new_tokens as int,
                    max_position_embeddings - (prefix_len + 1),
                )
            },
            Err(e) => {
                &&& prefix_len + 1 >= max_position_embeddings
                &&& e@ == ErrorView::InvalidInput(
                    "HPD-Parsing child at KV position "@ + text::dec(prefix_len as nat)
                        + " has no context capacity"@,
                )
            },
        },
{
    let remaining: usize = max_position_embeddings.saturating_sub(prefix_len + 1);
    if remaining == 0 {
        return Err(
            Message::new("HPD-Parsing child at KV position ").num(prefix_len as u64).text(
                " has no context capacity",
            ).invalid_input(),
        );
    }
    if max_new_tokens <= remaining {
        Ok(max_new_tokens)
    } else {
        Ok(remaining)
    }
}

/// Moves branches from the front of `queue` to the end of `pool` while there is
/// room.
pub fn admit_waiting(pool: &mut Vec<Branch>, queue: &mut VecDeque<Branch>, max: usize)
    ensures
        ({
            let n = fill(max - old(pool)@.len(), old(queue)@.len() as int);
            &&& final(pool)@ == old(pool)@ + old(queue)@.take(n)
            &&& final(queue)@ == old(queue)@.skip(n)
        }),
{
    let ghost p0 = pool@;
    let ghost q0 = queue@;
    let ghost mut n: int = 0;
    proof {
        assert(p0 + q0.take(0) =~= p0);
        assert(q0.skip(0) =~= q0);
    }
    while pool.len() < max && queue.len() > 0
        invariant
            0 <= n <= q0.len(),
            n == 0 || p0.len() + n <= max,
            pool@ == p0 + q0.take(n),
            queue@ == q0.skip(n),
        decreases queue.len(),
    {
        match queue.pop_front() {
            Some(branch) => {
                pool.push(branch);
                proof {
                    n = n + 1;
                    assert(pool@ =~= p0 + q0.take(n));
                    assert(queue@ =~= q0.skip(n));
                }
            },
            None => {},
        }
    }
    proof {
        assert(n == fill(max - p0.len(), q0.len() as int));
    }
}

/// Appends `items` to `queue` in order.
pub fn enqueue_all(queue: &mut VecDeque<Branch>, items: Vec<Branch>)
    ensures
        final(queue)@ == old(queue)@ + items@,
{
    let ghost all = items@;
    let mut items = items;
    let mut tail: VecDeque<Branch> = VecDeque::new();
    proof {
        assert(items@ + tail@ =~= all);
    }
    while items.len() > 0
        invariant
            items@ + tail@ == all,
        decreases items.len(),
    {
        let ghost before = items@ + tail@;
        match items.pop() {
            Some(branch) => {
                tail.push_front(branch);
                proof {
                    assert(items@ + tail@ =~= before);
                }
            },
            None => {},
        }
    }
    proof {
        assert(tail@ =~= all);
    }
    queue.append(&mut tail);
}

/// Longer lists of children share longer prefixes.
pub proof fn lemma_prefix_sum_grows(starts: Seq<ChildStart>, n: nat)
    requires
        n <= starts.len(),
    ensures
        prefix_sum(starts.take(n as int)) <= prefix_sum(starts),
    decreases starts.len() - n,
{
    if n == starts.len() {
        assert(starts.take(n as int) =~= starts);
    } else {
        lemma_prefix_sum_grows(starts, n + 1);
        assert(starts.take(n as int + 1).drop_last() =~= starts.take(n as int));
    }
}

/// A round that ends leaves a state in which the next one can begin.
pub proof fn lemma_round_ready(v0: SchedulerView, rules: Rules, starts: Seq<ChildStart>)
    requires
        v0.advanced(rules),
        forall|j: int| 0 <= j < starts.len() ==> child_fits(#[trigger] starts[j], rules),
        v0.children.len() + starts.len() <= usize::MAX,
    ensures
        v0.round_finished(starts, rules.max_active_branches as int).ready(rules),
{
    let max = rules.max_active_branches as int;
    let v1 = v0.round_finished(starts, max);
    let s = spawned(starts, v0.children.len());
    let u = unfinished(v0.active);
    let w = v0.waiting;
    let slots = v0.children + Seq::new(starts.len(), |j: int| Seq::<u32>::empty());
    assert forall|kind: BranchKind| #[trigger] count(v0.active, kind) <= 1 by {
        assert(v0.live(kind) <= 1);
    }
    assert forall|i: usize| #[trigger]
        count(v0.active, BranchKind::Child(i)) > 0 implies i < slots.len() by {
        assert(v0.live(BranchKind::Child(i)) > 0);
    }
    assert(v0.parent_tokens is None || v0.live(BranchKind::Parent) == 0);
    lemma_settled(v0.parent_tokens, slots, v0.active, rules);
    assert forall|kind: BranchKind| #[trigger]
        v1.live(kind) == count(s, kind) + count(u, kind) + count(w, kind) by {
        law_branches_are_conserved(s, u, w, max, kind);
    }
    assert forall|kind: BranchKind| #[trigger] v1.live(kind) <= 1 by {
        lemma_spawned_counts(starts, v0.children.len(), kind);
        assert(v0.live(kind) <= 1);
        assert(count(u, kind) <= count(v0.active, kind));
        if count(s, kind) > 0 {
            if let BranchKind::Child(i) = kind {
                assert(v0.live(BranchKind::Child(i)) == 0);
            }
        }
    }
    assert forall|i: usize| #[trigger] v1.live(BranchKind::Child(i)) > 0 implies i
        < v1.children.len() by {
        lemma_spawned_counts(starts, v0.children.len(), BranchKind::Child(i));
        assert(count(u, BranchKind::Child(i)) <= count(v0.active, BranchKind::Child(i)));
        if v0.live(BranchKind::Child(i)) > 0 {
            assert(i < v0.children.len());
        }
    }
    assert(v1.live(BranchKind::Parent) == if v1.parent_tokens is None {
        1nat
    } else {
        0nat
    }) by {
        lemma_spawned_counts(starts, v0.children.len(), BranchKind::Parent);
        assert(count(u, BranchKind::Parent) <= count(v0.active, BranchKind::Parent));
        assert(v0.live(BranchKind::Parent) <= 1);
    }
    law_branches_are_conserved(s, u, w, max, BranchKind::Parent);
    let ns = fill(max, s.len() as int);
    let nu = fill(max - s.len(), u.len() as int);
    let nw = fill(max - s.len() - u.len(), w.len() as int);
    assert forall|i: int| 0 <= i < s.len() implies runnable(#[trigger] s[i], rules) by {
        assert(child_fits(starts[i], rules));
    }
    assert forall|i: int| 0 <= i < v1.active.len() implies runnable(
        #[trigger] v1.active[i],
        rules,
    ) by {
        if i < ns {
            assert(v1.active[i] == s[i]);
        } else if i < ns + nu {
            assert(v1.active[i] == u[i - ns]);
        } else {
            assert(v1.active[i] == w[i - ns - nu]);
        }
    }
    assert forall|i: int| 0 <= i < v1.waiting.len() implies runnable(
        #[trigger] v1.waiting[i],
        rules,
    ) by {
        let lw = w.len() - nw;
        let lu = u.len() - nu;
        if i < lw {
            assert(v1.waiting[i] == w[i + nw]);
        } else if i < lw + lu {
            assert(v1.waiting[i] == u[i - lw + nu]);
        } else {
            assert(v1.waiting[i] == s[i - lw - lu + ns]);
        }
    }
}

impl Scheduler {
    /// A page with its parent branch only.
    pub fn new(parent: Branch) -> (s: Scheduler)
        ensures
            s@.active == seq![parent@],
            s@.waiting == Seq::<BranchView>::empty(),
            s@.parent_tokens is None,
            s@.children == Seq::<Seq<u32>>::empty(),
            s@.stats == (HpdRuntimeStats {
                scheduler_rounds: 0,
                peak_active_branches: 0,
                forked_branches: 0,
                shared_prefix_tokens: 0,
                mtp_drafted_tokens: 0,
                mtp_accepted_tokens: 0,
            }),
            forall|rules: Rules|
                rules.max_active_branches > 0 && runnable(parent@, rules) && parent.kind
                    == BranchKind::Parent ==> #[trigger] s@.ready(rules),
    {
        let ghost p = parent@;
        let mut active: Vec<Branch> = Vec::new();
        active.push(parent);
        let s = Scheduler {
            active,
            waiting: VecDeque::new(),
            parent_tokens: None,
            children: Vec::new(),
            stats: HpdRuntimeStats::default(),
        };
        proof {
            let none = Seq::<BranchView>::empty();
            assert(s@.active =~= seq![p]);
            assert(s@.waiting =~= none);
            assert(s@.children =~= Seq::<Seq<u32>>::empty());
            assert forall|kind: BranchKind| #[trigger]
                s@.live(kind) == if p.kind == kind {
                    1nat
                } else {
                    0nat
                } by {
                broadcast use vstd::seq_lib::group_to_multiset_ensures;

                assert(kinds(none) =~= Seq::<BranchKind>::empty());
                assert(s@.active =~= none.push(p));
                lemma_count_push(none, p, kind);
            }
        }
        s
    }

    /// Whether no branch is left.
    pub fn is_done(&self) -> (r: bool)
        ensures
            r == (self@.active.len() == 0 && self@.waiting.len() == 0),
    {
        self.active.len() == 0 && self.waiting.len() == 0
    }

    /// Fills the pool from the queue and counts the round.
    pub fn begin_round(&mut self, max_active_branches: usize)
        requires
            old(self).stats.scheduler_rounds < usize::MAX,
        ensures
            final(self)@ == old(self)@.begun(max_active_branches as int),
            forall|rules: Rules| #[trigger]
                old(self)@.ready(rules) && rules.max_active_branches == max_active_branches
                    ==> final(self)@.ready(rules),
    {
        let ghost v0 = self@;
        let ghost n = fill(max_active_branches - v0.active.len(), v0.waiting.len() as int);
        admit_waiting(&mut self.active, &mut self.waiting, max_active_branches);
        proof {
            assert(self@.active =~= v0.active + v0.waiting.take(n));
            assert(self@.waiting =~= v0.waiting.skip(n));
        }
        self.stats.scheduler_rounds = self.stats.scheduler_rounds + 1;
        if self.stats.peak_active_branches < self.active.len() {
            self.stats.peak_active_branches = self.active.len();
        }
        proof {
            let v1 = self@;
            assert forall|kind: BranchKind| #[trigger] v1.live(kind) == v0.live(kind) by {
                lemma_count_add(v0.active, v0.waiting.take(n), kind);
                lemma_count_cut(v0.waiting, n, kind);
            }
        }
    }

    /// How many tokens are drafted for every active branch: as many as the
    /// configuration allows and the tightest branch has room for.
    pub fn draft_len(&self, num_speculative_tokens: usize, max_position_embeddings: usize) -> (k:
        usize)
        ensures
            k <= num_speculative_tokens,
            forall|i: int|
                0 <= i < self@.active.len() ==> k <= #[trigger] draft_room(
                    self@.active[i],
                    max_position_embeddings as nat,
                ),
            k == num_speculative_tokens || exists|i: int|
                0 <= i < self@.active.len() && k == #[trigger] draft_room(
                    self@.active[i],
                    max_position_embeddings as nat,
                ),
    {
        let mut k: usize = num_speculative_tokens;
        let mut i: usize = 0;
        while i < self.active.len()
            invariant
                i <= self.active.len(),
                k <= num_speculative_tokens,
                forall|j: int|
                    0 <= j < i ==> k <= #[trigger] draft_room(
                        self@.active[j],
                        max_position_embeddings as nat,
                    ),
                k == num_speculative_tokens || exists|j: int|
                    0 <= j < i && k == #[trigger] draft_room(
                        self@.active[j],
                        max_position_embeddings as nat,
                    ),
            decreases self.active.len() - i,
        {
            let branch = &self.active[i];
            let output_room: usize = branch.max_new_tokens.saturating_sub(
                branch.tokens.len(),
            ).saturating_sub(1);
            let context_room: usize = max_position_embeddings.saturating_sub(
                branch.seq_len,
            ).saturating_sub(1);
            proof {
                assert(self@.active[i as int] == branch@);
                assert(draft_room(self@.active[i as int], max_position_embeddings as nat)
                    == min_int(output_room as int, context_room as int));
            }
            if output_room < k {
                k = output_room;
            }
            if context_room < k {
                k = context_room;
            }
            i = i + 1;
        }
        k
    }

    /// Advances every active branch by one token; `next[i]` is the model's first
    /// choice behind branch `i` and its pending token.
    pub fn advance_greedy(&mut self, rules: &Rules, next: &Vec<u32>) -> (events: Vec<ForkEvent>)
        requires
            old(self)@.ready(*rules),
            next.len() == old(self).active.len(),
        ensures
            final(self)@ == (SchedulerView {
                active: advance_all(
                    old(self)@.active,
                    no_drafts(next@.len()),
                    single_rows(next@),
                    rules.stop_token_ids@,
                ),
                ..old(self)@
            }),
            final(self)@.advanced(*rules),
            events@ == events_upto(
                old(self)@.active,
                no_drafts(next@.len()),
                single_rows(next@),
                rules.fork_token_id,
                rules.stop_token_ids@,
                next@.len(),
            ),
    {
        let mut drafts: Vec<Vec<u32>> = Vec::new();
        let mut targets: Vec<Vec<u32>> = Vec::new();
        let mut i: usize = 0;
        while i < next.len()
            invariant
                i <= next.len(),
                drafts.len() == i,
                targets.len() == i,
                forall|j: int| 0 <= j < i ==> (#[trigger] drafts[j])@ =~= Seq::<u32>::empty(),
                forall|j: int| 0 <= j < i ==> (#[trigger] targets[j])@ =~= seq![next[j]],
            decreases next.len() - i,
        {
            drafts.push(Vec::new());
            let mut row: Vec<u32> = Vec::new();
            row.push(next[i]);
            targets.push(row);
            i = i + 1;
        }
        proof {
            assert(rows(drafts@) =~= no_drafts(next@.len()));
            assert(rows(targets@) =~= single_rows(next@));
            assert forall|j: int| 0 <= j < self@.active.len() implies row_fits(
                drafts@,
                targets@,
                0,
                #[trigger] self@.active[j],
                rules.max_position_embeddings as nat,
                j,
            ) by {
                assert(drafts[j]@ =~= Seq::<u32>::empty());
                assert(targets[j]@ =~= seq![next[j]]);
            }
            assert(next.len() * 0 == 0);
        }
        let (events, _accepted) = self.advance_rows(rules, &drafts, &targets, 0);
        events
    }

    /// Advances every active branch by its pending token and those of its `k`
    /// drafts that the model confirmed; `targets[i][j]` is its first choice behind
    /// branch `i`, the pending token and `j` drafts.
    pub fn advance_mtp(
        &mut self,
        rules: &Rules,
        drafts: &Vec<Vec<u32>>,
        targets: &Vec<Vec<u32>>,
        k: usize,
    ) -> (events: Vec<ForkEvent>)
        requires
            old(self)@.ready(*rules),
            rows_fit(
                drafts@,
                targets@,
                k as nat,
                old(self)@.active,
                rules.max_position_embeddings as nat,
            ),
            old(self).stats.mtp_drafted_tokens + drafts.len() * k <= usize::MAX,
        ensures
            final(self)@ == (SchedulerView {
                active: advance_all(
                    old(self)@.active,
                    rows(drafts@),
                    rows(targets@),
                    rules.stop_token_ids@,
                ),
                stats: HpdRuntimeStats {
                    mtp_drafted_tokens: (old(self).stats.mtp_drafted_tokens + drafts.len()
                        * k) as usize,
                    mtp_accepted_tokens: (old(self).stats.mtp_accepted_tokens + accepted_upto(
                        rows(drafts@),
                        rows(targets@),
                        drafts@.len(),
                    )) as usize,
                    ..old(self).stats
                },
                ..old(self)@
            }),
            final(self)@.advanced(*rules),
            events@ == events_upto(
                old(self)@.active,
                rows(drafts@),
                rows(targets@),
                rules.fork_token_id,
                rules.stop_token_ids@,
                drafts@.len(),
            ),
    {
        let (events, accepted) = self.advance_rows(rules, drafts, targets, k);
        let ghost v1 = self@;
        self.stats.mtp_drafted_tokens = self.stats.mtp_drafted_tokens + drafts.len() * k;
        self.stats.mtp_accepted_tokens = self.stats.mtp_accepted_tokens + accepted;
        proof {
            assert forall|kind: BranchKind| #[trigger] self@.live(kind) == v1.live(kind) by {}
        }
        events
    }

    /// Advances every active branch and counts the accepted drafts.
    fn advance_rows(
        &mut self,
        rules: &Rules,
        drafts: &Vec<Vec<u32>>,
        targets: &Vec<Vec<u32>>,
        k: usize,
    ) -> (r: (Vec<ForkEvent>, usize))
        requires
            old(self)@.ready(*rules),
            rows_fit(
                drafts@,
                targets@,
                k as nat,
                old(self)@.active,
                rules.max_position_embeddings as nat,
            ),
            drafts.len() * k <= usize::MAX,
        ensures
            final(self)@ == (SchedulerView {
                active: advance_all(
                    old(self)@.active,
                    rows(drafts@),
                    rows(targets@),
                    rules.stop_token_ids@,
                ),
                ..old(self)@
            }),
            final(self)@.advanced(*rules),
            r.0@ == events_upto(
                old(self)@.active,
                rows(drafts@),
                rows(targets@),
                rules.fork_token_id,
                rules.stop_token_ids@,
                drafts@.len(),
            ),
            r.1 == accepted_upto(rows(drafts@), rows(targets@), drafts@.len()),
            r.1 <= drafts.len() * k,
    {
        let ghost v0 = self@;
        let ghost ds = rows(drafts@);
        let ghost ts = rows(targets@);
        let ghost stops = rules.stop_token_ids@;
        let ghost max_positions = rules.max_position_embeddings as nat;
        let ghost after = advance_all(v0.active, ds, ts, stops);
        let mut events: Vec<ForkEvent> = Vec::new();
        let mut accepted: usize = 0;
        let mut i: usize = 0;
        proof {
            assert(0 * k == 0) by (nonlinear_arith);
        }
        while i < drafts.len()
            invariant
                i <= drafts.len() == targets.len() == self.active.len() == v0.active.len(),
                v0.ready(*rules),
                stops == rules.stop_token_ids@,
                max_positions == rules.max_position_embeddings as nat,
                ds == rows(drafts@),
                ts == rows(targets@),
                after == advance_all(v0.active, ds, ts, stops),
                forall|j: int| 0 <= j < i ==> (#[trigger] self.active[j])@ == after[j],
                forall|j: int|
                    i <= j < v0.active.len() ==> (#[trigger] self.active[j])@ == v0.active[j],
                self@.waiting == v0.waiting,
                self@.parent_tokens == v0.parent_tokens,
                self@.children == v0.children,
                self.stats == v0.stats,
                events@ == events_upto(v0.active, ds, ts, rules.fork_token_id, stops, i as nat),
                accepted == accepted_upto(ds, ts, i as nat),
                drafts.len() * k <= usize::MAX,
                accepted <= i * k,
                rows_fit(drafts@, targets@, k as nat, v0.active, max_positions),
            decreases drafts.len() - i,
        {
            proof {
                assert(self.active[i as int]@ == v0.active[i as int]);
                assert(runnable(v0.active[i as int], *rules));
                assert(row_fits(
                    drafts@,
                    targets@,
                    k as nat,
                    v0.active[i as int],
                    max_positions,
                    i as int,
                ));
                assert(ds[i as int] == drafts[i as int]@);
                assert(ts[i as int] == targets[i as int]@);
                assert((i + 1) * k <= drafts.len() * k) by (nonlinear_arith)
                    requires
                        i + 1 <= drafts.len(),
                ;
                assert((i + 1) * k == i * k + k) by (nonlinear_arith);
            }
            let n: usize = self.active[i].advance(
                &drafts[i],
                &targets[i],
                i,
                rules.fork_token_id,
                &rules.stop_token_ids,
                &mut events,
            );
            accepted = accepted + n;
            i = i + 1;
        }
        proof {
            assert(self@.active =~= after);
            assert forall|j: int| 0 <= j < after.len() implies {
                &&& (#[trigger] after[j]).finished || runnable(after[j], *rules)
                &&& after[j].kind == v0.active[j].kind
            } by {
                assert(row_fits(drafts@, targets@, k as nat, v0.active[j], max_positions, j));
                law_advancing_stays_in_context(v0.active[j], ds[j], ts[j], *rules);
            }
            assert forall|kind: BranchKind| #[trigger] self@.live(kind) == v0.live(kind) by {
                lemma_count_same_kinds(after, v0.active, kind);
            }
        }
        (events, accepted)
    }

    /// Opens an output slot and a branch for each forked child.
    fn open_slots(&mut self, rules: &Rules, starts: &Vec<ChildStart>) -> (fresh: Vec<Branch>)
        requires
            forall|j: int| 0 <= j < starts.len() ==> child_fits(#[trigger] starts[j], *rules),
            old(self).children.len() + starts.len() <= usize::MAX,
            old(self).stats.shared_prefix_tokens + prefix_sum(starts@) <= usize::MAX,
            old(self).stats.forked_branches == old(self).children.len(),
        ensures
            views(fresh@) == spawned(starts@, old(self)@.children.len()),
            final(self)@ == (SchedulerView {
                children: old(self)@.children + Seq::new(
                    starts@.len(),
                    |j: int| Seq::<u32>::empty(),
                ),
                stats: HpdRuntimeStats {
                    forked_branches: (old(self).stats.forked_branches + starts@.len()) as usize,
                    shared_prefix_tokens: (old(self).stats.shared_prefix_tokens + prefix_sum(
                        starts@,
                    )) as usize,
                    ..old(self).stats
                },
                ..old(self)@
            }),
    {
        let ghost v0 = self@;
        let ghost offset = v0.children.len();
        let mut fresh: Vec<Branch> = Vec::new();
        let mut j: usize = 0;
        proof {
            assert(starts@.take(0) =~= Seq::<ChildStart>::empty());
            assert(v0.children + Seq::new(0, |j: int| Seq::<u32>::empty()) =~= v0.children);
            assert(starts@.take(starts@.len() as int) =~= starts@);
        }
        while j < starts.len()
            invariant
                j <= starts.len(),
                offset == v0.children.len(),
                offset + starts.len() <= usize::MAX,
                forall|j: int| 0 <= j < starts.len() ==> child_fits(#[trigger] starts[j], *rules),
                views(fresh@) =~= spawned(starts@.take(j as int), offset),
                self@.active == v0.active,
                self@.waiting == v0.waiting,
                self@.parent_tokens == v0.parent_tokens,
                self@.children =~= v0.children + Seq::new(j as nat, |j: int| Seq::<u32>::empty()),
                v0.stats.shared_prefix_tokens + prefix_sum(starts@) <= usize::MAX,
                v0.stats.forked_branches == offset,
                self.stats == (HpdRuntimeStats {
                    forked_branches: (v0.stats.forked_branches + j) as usize,
                    shared_prefix_tokens: (v0.stats.shared_prefix_tokens + prefix_sum(
                        starts@.take(j as int),
                    )) as usize,
                    ..v0.stats
                }),
            decreases starts.len() - j,
        {
            let start = starts[j];
            let ghost fresh0 = views(fresh@);
            proof {
                assert(fresh0 == spawned(starts@.take(j as int), offset));
                assert(fresh0.len() == j);
                assert(child_fits(starts[j as int], *rules));
                assert(starts@.take(j + 1).drop_last() =~= starts@.take(j as int));
                lemma_prefix_sum_grows(starts@, (j + 1) as nat);
                assert(self@.children.len() == offset + j);
            }
            let index: usize = self.children.len();
            let ghost children0 = self@.children;
            self.children.push(Vec::new());
            proof {
                assert(self@.children =~= children0.push(Seq::<u32>::empty()));
            }
            self.stats.forked_branches = self.stats.forked_branches + 1;
            self.stats.shared_prefix_tokens = self.stats.shared_prefix_tokens + start.prefix_len;
            fresh.push(
                Branch::start(
                    BranchKind::Child(index),
                    start.prefix_len + 1,
                    start.pending_token,
                    start.max_new_tokens,
                    false,
                ),
            );
            j = j + 1;
            proof {
                let now = spawned(starts@.take(j as int), offset);
                assert(views(fresh@) =~= fresh0.push(views(fresh@).last()));
                assert(now.len() == j);
                assert forall|m: int| 0 <= m < j - 1 implies #[trigger] now[m] == fresh0[m] by {}
                assert(views(fresh@) =~= now);
            }
        }
        fresh
    }

    /// Moves the outputs of finished branches to their slots and hands back the
    /// branches that still run.
    fn collect_finished(&mut self) -> (running: VecDeque<Branch>)
        requires
            forall|i: int|
                0 <= i < old(self)@.active.len() ==> ((#[trigger] old(self)@.active[i]).kind matches
                    BranchKind::Child(c) ==> c < old(self)@.children.len()),
        ensures
            views(running@) == unfinished(old(self)@.active),
            final(self)@ == (SchedulerView {
                active: Seq::empty(),
                parent_tokens: settle_parent(old(self)@.parent_tokens, old(self)@.active),
                children: settle_children(old(self)@.children, old(self)@.active),
                ..old(self)@
            }),
    {
        let ghost v0 = self@;
        let mut current: Vec<Branch> = Vec::new();
        std::mem::swap(&mut current, &mut self.active);
        let mut running: VecDeque<Branch> = VecDeque::new();
        let ghost mut n: int = 0;
        proof {
            assert(v0.active.take(0) =~= Seq::<BranchView>::empty());
            assert(v0.active.skip(0) =~= v0.active);
            assert(views(running@) =~= unfinished(v0.active.take(0)));
            assert(self@.active =~= Seq::<BranchView>::empty());
        }
        while current.len() > 0
            invariant
                0 <= n <= v0.active.len(),
                views(current@) == v0.active.skip(n),
                views(running@) == unfinished(v0.active.take(n)),
                self@.active == Seq::<BranchView>::empty(),
                self@.waiting == v0.waiting,
                self.stats == v0.stats,
                self@.parent_tokens == settle_parent(v0.parent_tokens, v0.active.take(n)),
                self@.children == settle_children(v0.children, v0.active.take(n)),
                self@.children.len() == v0.children.len(),
                forall|i: int|
                    0 <= i < v0.active.len() ==> ((#[trigger] v0.active[i]).kind matches
                        BranchKind::Child(c) ==> c < v0.children.len()),
            decreases current.len(),
        {
            let ghost before = views(current@);
            let ghost running0 = views(running@);
            let ghost children0 = self@.children;
            let branch = current.remove(0);
            let ghost b = branch@;
            proof {
                assert(before.len() == v0.active.len() - n);
                assert(before[0] == b);
                assert(v0.active[n] == b);
                assert(views(current@) =~= before.skip(1));
                assert(v0.active.take(n + 1).drop_last() =~= v0.active.take(n));
                assert(v0.active.take(n + 1).last() == b);
            }
            if branch.finished {
                match branch.kind {
                    BranchKind::Parent => {
                        self.parent_tokens = Some(branch.tokens);
                    },
                    BranchKind::Child(index) => {
                        self.children.set(index, branch.tokens);
                        proof {
                            assert(self@.children =~= children0.update(index as int, b.tokens));
                        }
                    },
                }
            } else {
                running.push_back(branch);
                proof {
                    assert(views(running@) =~= running0.push(b));
                }
            }
            proof {
                n = n + 1;
                assert(views(current@) =~= v0.active.skip(n));
            }
        }
        proof {
            assert(n == v0.active.len());
            assert(v0.active.take(n) =~= v0.active);
        }
        running
    }

    /// Collects finished branches, adds the forked children and chooses the pool
    /// of the next round. Children come first; branches that lose their place
    /// wait.
    pub fn finish_round(&mut self, rules: &Rules, starts: &Vec<ChildStart>)
        requires
            old(self)@.advanced(*rules),
            forall|j: int| 0 <= j < starts.len() ==> child_fits(#[trigger] starts[j], *rules),
            old(self).children.len() + starts.len() <= usize::MAX,
            old(self).stats.shared_prefix_tokens + prefix_sum(starts@) <= usize::MAX,
        ensures
            final(self)@ == old(self)@.round_finished(
                starts@,
                rules.max_active_branches as int,
            ),
            final(self)@.ready(*rules),
    {
        let ghost v0 = self@;
        let max: usize = rules.max_active_branches;
        let ghost u = unfinished(v0.active);
        let ghost sp = spawned(starts@, v0.children.len());
        let fresh = self.open_slots(rules, starts);
        let ghost v1 = self@;
        proof {
            assert forall|kind: BranchKind| #[trigger]
                count(v0.active, kind) <= v0.live(kind) by {}
            assert forall|i: usize| #[trigger]
                count(v0.active, BranchKind::Child(i)) > 0 implies i < v1.children.len() by {
                assert(v0.live(BranchKind::Child(i)) > 0);
            }
            assert forall|kind: BranchKind| #[trigger] count(v0.active, kind) <= 1 by {
                assert(v0.live(kind) <= 1);
            }
            assert(v0.parent_tokens is None || v0.live(BranchKind::Parent) == 0);
            lemma_settled(v0.parent_tokens, v1.children, v0.active, *rules);
        }
        proof {
            assert forall|i: int| 0 <= i < v1.active.len() implies ((
            #[trigger] v1.active[i]).kind matches BranchKind::Child(c) ==> c
                < v1.children.len()) by {
                lemma_count_member(v0.active, i);
                if let BranchKind::Child(c) = v1.active[i].kind {
                    assert(count(v0.active, BranchKind::Child(c)) > 0);
                }
            }
        }
        let mut running = self.collect_finished();
        let ghost w0 = self.waiting@;
        let ghost f0 = fresh@;
        let ghost r0 = running@;
        let mut pool = fresh;
        admit_waiting(&mut pool, &mut running, max);
        admit_waiting(&mut pool, &mut self.waiting, max);
        self.waiting.append(&mut running);
        let ghost ns = fill(max as int, sp.len() as int);
        let ghost nu = fill(max - sp.len(), u.len() as int);
        let ghost nw = fill(max - sp.len() - u.len(), v0.waiting.len() as int);
        proof {
            assert(views(r0) == u);
            assert(views(f0) == sp);
            assert(r0.len() == u.len());
            assert(f0.len() == sp.len());
            assert(w0.len() == v0.waiting.len());
            assert(pool@ =~= f0 + r0.take(nu) + w0.take(nw));
            assert(self.waiting@ =~= w0.skip(nw) + r0.skip(nu));
        }
        if pool.len() > max {
            let preempted = pool.split_off(max);
            enqueue_all(&mut self.waiting, preempted);
        }
        self.active = pool;
        proof {
            assert(self@.active =~= next_active(sp, u, v0.waiting, max as int));
            assert(self@.waiting =~= next_waiting(sp, u, v0.waiting, max as int));
            lemma_round_ready(v0, *rules, starts@);
        }
    }

    /// The outputs of a finished page.
    pub fn into_output(self) -> (r: Result<SchedulerOutput, Error>)
        ensures
            match r {
                Ok(out) => {
                    &&& self@.parent_tokens == Some(out.parent_tokens@)
                    &&& rows(out.children@) == self@.children
                    &&& out.runtime == self.stats
                },
                Err(e) => {
                    &&& self@.parent_tokens is None
                    &&& e@ == ErrorView::InvalidInput(
                        "HPD scheduler terminated without a parent result"@,
                    )
                },
            },
    {
        match self.parent_tokens {
            Some(parent_tokens) => Ok(
                SchedulerOutput { parent_tokens, children: self.children, runtime: self.stats },
            ),
            None => Err(Error::invalid_input("HPD scheduler terminated without a parent result")),
        }
    }
}

/// The outputs of a page, branch by branch.
#[derive(Debug)]
pub struct SchedulerOutput {
    pub parent_tokens: Vec<u32>,
    pub children: Vec<Vec<u32>>,
    pub runtime: HpdRuntimeStats,
}

/// The parent's tokens with each fork replaced by the child marker and the
/// tokens of the next child, starting with child `from`.
pub open spec fn assembled(
    parent: Seq<u32>,
    children: Seq<Seq<u32>>,
    from: nat,
    fork: u32,
    child: u32,
) -> Seq<u32>
    decreases parent.len(),
{
    if parent.len() == 0 {
        Seq::empty()
    } else if parent[0] != fork {
        seq![parent[0]] + assembled(parent.skip(1), children, from, fork, child)
    } else if from < children.len() {
        seq![child] + children[from as int] + assembled(
            parent.skip(1),
            children,
            from + 1,
            fork,
            child,
        )
    } else {
        seq![child] + assembled(parent.skip(1), children, from, fork, child)
    }
}

/// Puts the children's tokens in place of the parent's forks.
pub fn assemble(
    parent: &Vec<u32>,
    children: &Vec<Vec<u32>>,
    fork_token_id: u32,
    child_token_id: u32,
) -> (ids: Vec<u32>)
    ensures
        ids@ == assembled(parent@, rows(children@), 0, fork_token_id, child_token_id),
{
    let ghost p = parent@;
    let ghost c = rows(children@);
    let mut ids: Vec<u32> = Vec::new();
    let mut from: usize = 0;
    let mut i: usize = 0;
    proof {
        assert(p.skip(0) =~= p);
    }
    while i < parent.len()
        invariant
            i <= parent.len(),
            from <= children.len(),
            p == parent@,
            c == rows(children@),
            ids@ + assembled(p.skip(i as int), c, from as nat, fork_token_id, child_token_id)
                =~= assembled(p, c, 0, fork_token_id, child_token_id),
        decreases parent.len() - i,
    {
        let token: u32 = parent[i];
        let ghost rest = p.skip(i as int);
        let ghost done = ids@;
        proof {
            assert(rest[0] == token);
            assert(rest.skip(1) =~= p.skip(i + 1));
        }
        if token == fork_token_id {
            ids.push(child_token_id);
            if from < children.len() {
                let ghost pushed = ids@;
                tokens::push_all(&mut ids, &children[from]);
                from = from + 1;
            }
        } else {
            ids.push(token);
        }
        i = i + 1;
    }
    proof {
        assert(p.skip(i as int) =~= Seq::<u32>::empty());
        assert(ids@ =~= assembled(p, c, 0, fork_token_id, child_token_id));
    }
    ids
}

/// A page without forks is its parent's output.
pub proof fn law_without_forks_the_parent_is_the_page(
    parent: Seq<u32>,
    children: Seq<Seq<u32>>,
    from: nat,
    fork: u32,
    child: u32,
)
    requires
        !parent.contains(fork),
    ensures
        assembled(parent, children, from, fork, child) == parent,
    decreases parent.len(),
{
    if parent.len() > 0 {
        assert(parent.contains(parent[0]));
        assert forall|t: u32| parent.skip(1).contains(t) implies parent.contains(t) by {
            let i = choose|i: int| 0 <= i < parent.skip(1).len() && parent.skip(1)[i] == t;
            assert(parent[i + 1] == t);
        }
        law_without_forks_the_parent_is_the_page(parent.skip(1), children, from, fork, child);
        assert(seq![parent[0]] + parent.skip(1) =~= parent);
    } else {
        assert(parent =~= Seq::<u32>::empty());
    }
}

/// When no branch is left, the parent has delivered: a run that follows the
/// rounds never ends without a page.
pub proof fn law_done_means_parent_delivered(v: SchedulerView, rules: Rules)
    requires
        v.ready(rules),
        v.active.len() == 0,
        v.waiting.len() == 0,
    ensures
        v.parent_tokens is Some,
{
    broadcast use vstd::seq_lib::group_to_multiset_ensures;

    assert(kinds(v.active) =~= Seq::<BranchKind>::empty());
    assert(kinds(v.waiting) =~= Seq::<BranchKind>::empty());
    assert(v.live(BranchKind::Parent) == 0);
}

/// The branch after `n` rounds of plain greedy decoding, where the cache holds
/// `base` and the emitted tokens.
pub open spec fn greedy_rounds(
    b: BranchView,
    next: spec_fn(Seq<u32>) -> u32,
    base: Seq<u32>,
    stops: Seq<u32>,
    n: nat,
) -> BranchView
    decreases n,
{
    if n == 0 {
        b
    } else {
        let p = greedy_rounds(b, next, base, stops, (n - 1) as nat);
        if p.finished {
            p
        } else {
            advance_view(p, Seq::empty(), seq![next(base + p.tokens.push(p.pending))], stops)
        }
    }
}

/// The forks that [`greedy_rounds`] asks for.
pub open spec fn greedy_events(
    b: BranchView,
    next: spec_fn(Seq<u32>) -> u32,
    base: Seq<u32>,
    index: nat,
    fork: u32,
    stops: Seq<u32>,
    n: nat,
) -> Seq<ForkEvent>
    decreases n,
{
    if n == 0 {
        Seq::empty()
    } else {
        let p = greedy_rounds(b, next, base, stops, (n - 1) as nat);
        greedy_events(b, next, base, index, fork, stops, (n - 1) as nat) + if p.finished {
            Seq::empty()
        } else {
            advance_events(
                p,
                Seq::empty(),
                seq![next(base + p.tokens.push(p.pending))],
                index,
                fork,
                stops,
            )
        }
    }
}

/// One greedy round emits the pending token.
proof fn lemma_single_round(p: BranchView, t: u32, index: nat, fork: u32, stops: Seq<u32>)
    ensures
        advance_view(p, Seq::empty(), seq![t], stops) == emit_view(
            BranchView { seq_len: p.seq_len + 1, pending: t, ..p },
            p.pending,
            stops,
        ),
        advance_events(p, Seq::empty(), seq![t], index, fork, stops) == if forks(p, p.pending, fork) {
            seq![ForkEvent { branch_index: index as usize, prefix_len: p.seq_len as usize }]
        } else {
            Seq::empty()
        },
{
    let empty = Seq::<u32>::empty();
    let one = seq![p.pending];
    let p1 = BranchView { seq_len: p.seq_len + 1, pending: t, ..p };
    assert(speculative::matched(empty, seq![t]) == 0);
    assert(round_tokens(p, empty, seq![t]) =~= one);
    assert(one.drop_last() =~= empty);
    assert(emit_all(p1, empty, stops) == p1);
    assert(emit_all(p, empty, stops) == p);
    let none = fork_events(p, empty, p.seq_len, index, fork, stops);
    assert(none =~= Seq::<ForkEvent>::empty());
    let event = ForkEvent { branch_index: index as usize, prefix_len: p.seq_len as usize };
    assert(none.push(event) =~= seq![event]);
}

/// What `n` greedy rounds do to a branch, told by the tokens of one verification
/// round.
pub proof fn lemma_greedy_rounds(
    b: BranchView,
    next: spec_fn(Seq<u32>) -> u32,
    base: Seq<u32>,
    drafts: Seq<u32>,
    targets: Seq<u32>,
    index: nat,
    fork: u32,
    stops: Seq<u32>,
    n: nat,
)
    requires
        !b.finished,
        b.tokens.len() < b.max_new,
        speculative::verifies(next, base + b.tokens.push(b.pending), drafts, targets),
        n <= speculative::matched(drafts, targets) + 1,
    ensures
        ({
            let rt = round_tokens(b, drafts, targets);
            let g = greedy_rounds(b, next, base, stops, n);
            let e = emit_all(b, rt.take(n as int), stops);
            &&& g.tokens == e.tokens
            &&& g.finished == e.finished
            &&& g.kind == b.kind
            &&& g.max_new == b.max_new
            &&& g.allow_fork == b.allow_fork
            &&& !g.finished ==> g.seq_len == b.seq_len + n
            &&& !g.finished && n > 0 ==> g.pending == targets[n - 1]
            &&& n == 0 ==> g == b
            &&& greedy_events(b, next, base, index, fork, stops, n) == fork_events(
                b,
                rt.take(n as int),
                b.seq_len,
                index,
                fork,
                stops,
            )
        }),
    decreases n,
{
    speculative::lemma_matched_from(drafts, targets, 0);
    let rt = round_tokens(b, drafts, targets);
    if n == 0 {
        assert(rt.take(0) =~= Seq::<u32>::empty());
    } else {
        let k = (n - 1) as nat;
        lemma_greedy_rounds(b, next, base, drafts, targets, index, fork, stops, k);
        let p = greedy_rounds(b, next, base, stops, k);
        let before = emit_all(b, rt.take(k as int), stops);
        assert(rt.take(n as int).drop_last() =~= rt.take(k as int));
        assert(rt.take(n as int).last() == rt[k as int]);
        lemma_emit_all_frame(b, rt.take(k as int), stops);
        let none = Seq::<ForkEvent>::empty();
        let so_far = greedy_events(b, next, base, index, fork, stops, k);
        if !p.finished {
            assert(p.pending == rt[k as int]);
            let t = next(base + p.tokens.push(p.pending));
            assert(p.tokens.push(p.pending) =~= b.tokens + rt.take(n as int));
            assert(targets.take(k as int) =~= drafts.take(k as int));
            assert(base + p.tokens.push(p.pending) =~= (base + b.tokens.push(b.pending))
                + drafts.take(k as int));
            assert(t == targets[k as int]);
            lemma_single_round(p, t, index, fork, stops);
            let event = ForkEvent { branch_index: index as usize, prefix_len: p.seq_len as usize };
            assert(so_far + seq![event] =~= so_far.push(event));
            assert(so_far + none =~= so_far);
        } else {
            assert(so_far + none =~= so_far);
        }
    }
}

/// A verification round does what that many greedy rounds do: the same tokens,
/// the same forks, and, while the branch runs, the same branch.
pub proof fn law_drafting_never_changes_the_output(
    b: BranchView,
    next: spec_fn(Seq<u32>) -> u32,
    base: Seq<u32>,
    drafts: Seq<u32>,
    targets: Seq<u32>,
    index: nat,
    fork: u32,
    stops: Seq<u32>,
)
    requires
        !b.finished,
        b.tokens.len() < b.max_new,
        speculative::verifies(next, base + b.tokens.push(b.pending), drafts, targets),
    ensures
        ({
            let n = speculative::matched(drafts, targets) + 1;
            let a = advance_view(b, drafts, targets, stops);
            let g = greedy_rounds(b, next, base, stops, n);
            &&& a.tokens == g.tokens
            &&& a.finished == g.finished
            &&& !a.finished ==> a == g
            &&& advance_events(b, drafts, targets, index, fork, stops) == greedy_events(
                b,
                next,
                base,
                index,
                fork,
                stops,
                n,
            )
        }),
{
    speculative::lemma_matched_from(drafts, targets, 0);
    let m = speculative::matched(drafts, targets);
    let rt = round_tokens(b, drafts, targets);
    lemma_greedy_rounds(b, next, base, drafts, targets, index, fork, stops, m + 1);
    assert(rt.take(m as int + 1) =~= rt);
    let b1 = BranchView { seq_len: b.seq_len + 1 + m, pending: targets[m as int], ..b };
    lemma_emit_ignores_cursor(b, b1, rt, b.seq_len, index, fork, stops);
    lemma_emit_all_frame(b1, rt, stops);
}

/// A running branch that emits a token has it at the end of its output. It ends with a
/// stop token or when its output is as long as it may be, and nothing else of it
/// changes. A finished branch stays as it is.
pub proof fn law_branch_ends_at_a_stop_or_its_limit(b: BranchView, token: u32, stops: Seq<u32>)
    ensures
        ({
            let e = emit_view(b, token, stops);
            &&& b.finished ==> e == b
            &&& !b.finished ==> {
                &&& e.tokens == b.tokens.push(token)
                &&& e.finished <==> stops.contains(token) || e.tokens.len() >= b.max_new
            }
            &&& e.kind == b.kind
            &&& e.seq_len == b.seq_len
            &&& e.pending == b.pending
            &&& e.max_new == b.max_new
            &&& e.allow_fork == b.allow_fork
        }),
{
}

/// A round of `m` confirmed drafts moves a branch past its pending token and these
/// drafts, to the model's choice behind them. What is emitted is a beginning of the
/// pending token and the drafts; it breaks off only behind a stop token or at the
/// branch's limit.
pub proof fn law_round_emits_what_was_confirmed(
    b: BranchView,
    drafts: Seq<u32>,
    targets: Seq<u32>,
    stops: Seq<u32>,
    m: nat,
)
    requires
        !b.finished,
        b.tokens.len() < b.max_new,
        targets.len() == drafts.len() + 1,
        m <= drafts.len(),
        forall|i: int| 0 <= i < m ==> #[trigger] drafts[i] == targets[i],
        m < drafts.len() ==> drafts[m as int] != targets[m as int],
    ensures
        ({
            let a = advance_view(b, drafts, targets, stops);
            let all = b.tokens + seq![b.pending] + drafts.take(m as int);
            &&& a.seq_len == b.seq_len + 1 + m
            &&& a.pending == targets[m as int]
            &&& a.kind == b.kind
            &&& a.max_new == b.max_new
            &&& a.allow_fork == b.allow_fork
            &&& b.tokens.len() < a.tokens.len() <= all.len()
            &&& a.tokens == all.take(a.tokens.len() as int)
            &&& a.finished <==> stops.contains(a.tokens.last()) || a.tokens.len() >= a.max_new
            &&& !a.finished ==> a.tokens == all
            &&& forall|i: int|
                b.tokens.len() <= i < a.tokens.len() - 1 ==> !stops.contains(#[trigger] a.tokens[i])
        }),
{
    speculative::lemma_matched_from(drafts, targets, 0);
    let found = speculative::matched(drafts, targets);
    if found < m {
        assert(drafts[found as int] == targets[found as int]);
    }
    if m < found {
        assert(drafts[m as int] == targets[m as int]);
    }
    assert(found == m);
    assert(targets.take(m as int) =~= drafts.take(m as int));
    let emitted = seq![b.pending] + drafts.take(m as int);
    let moved = BranchView { seq_len: b.seq_len + 1 + m, pending: targets[m as int], ..b };
    lemma_emit_all_frame(moved, emitted, stops);
    lemma_emitted_beginning(moved, emitted, stops);
    assert(b.tokens + emitted =~= b.tokens + seq![b.pending] + drafts.take(m as int));
}

/// What a branch emits of a list of tokens: a beginning of it that ends at the first
/// stop token or at the branch's limit.
proof fn lemma_emitted_beginning(b: BranchView, emitted: Seq<u32>, stops: Seq<u32>)
    requires
        !b.finished,
        b.tokens.len() < b.max_new,
        emitted.len() > 0,
    ensures
        ({
            let e = emit_all(b, emitted, stops);
            let all = b.tokens + emitted;
            &&& b.tokens.len() < e.tokens.len() <= all.len()
            &&& e.tokens == all.take(e.tokens.len() as int)
            &&& e.max_new == b.max_new
            &&& e.finished <==> stops.contains(e.tokens.last()) || e.tokens.len() >= e.max_new
            &&& !e.finished ==> e.tokens == all
            &&& forall|i: int|
                b.tokens.len() <= i < e.tokens.len() - 1 ==> !stops.contains(#[trigger] e.tokens[i])
        }),
    decreases emitted.len(),
{
    let front = emitted.drop_last();
    let before = emit_all(b, front, stops);
    let e = emit_all(b, emitted, stops);
    let all = b.tokens + emitted;
    if front.len() == 0 {
        assert(before == b);
        assert(all =~= b.tokens.push(emitted.last()));
        assert(e.tokens =~= all);
        assert(all.take(all.len() as int) =~= all);
    } else {
        lemma_emitted_beginning(b, front, stops);
        let short = b.tokens + front;
        assert(all =~= short.push(emitted.last()));
        if before.finished {
            assert(all.take(e.tokens.len() as int) =~= short.take(e.tokens.len() as int));
        } else {
            assert(before.tokens == short);
            assert(e.tokens =~= all);
            assert(all.take(all.len() as int) =~= all);
            assert forall|i: int| b.tokens.len() <= i < e.tokens.len() - 1 implies !stops.contains(
                #[trigger] e.tokens[i],
            ) by {
                assert(e.tokens[i] == before.tokens[i]);
                if i == before.tokens.len() - 1 {
                    assert(before.tokens.last() == before.tokens[i]);
                }
            }
        }
    }
}

/// The pool of a round takes children first, branches that ran next and branches that
/// waited last, each in their order, as far as there is room.
pub proof fn law_pool_prefers_children(
    s: Seq<BranchView>,
    u: Seq<BranchView>,
    w: Seq<BranchView>,
    max: int,
)
    requires
        max >= 0,
    ensures
        max <= s.len() ==> next_active(s, u, w, max) == s.take(max),
        s.len() <= max <= s.len() + u.len() ==> next_active(s, u, w, max) == s + u.take(
            max - s.len(),
        ),
        s.len() + u.len() <= max <= s.len() + u.len() + w.len() ==> next_active(s, u, w, max) == s
            + u + w.take(max - s.len() - u.len()),
        s.len() + u.len() + w.len() <= max ==> next_active(s, u, w, max) == s + u + w,
{
    if max <= s.len() {
        assert(next_active(s, u, w, max) =~= s.take(max));
    }
    if s.len() <= max <= s.len() + u.len() {
        assert(next_active(s, u, w, max) =~= s + u.take(max - s.len()));
    }
    if s.len() + u.len() <= max <= s.len() + u.len() + w.len() {
        assert(next_active(s, u, w, max) =~= s + u + w.take(max - s.len() - u.len()));
    }
    if s.len() + u.len() + w.len() <= max {
        assert(next_active(s, u, w, max) =~= s + u + w);
    }
}

/// Those that find no room wait: first those that waited already, then those that ran,
/// then children, each in their order.
pub proof fn law_queue_keeps_its_order(
    s: Seq<BranchView>,
    u: Seq<BranchView>,
    w: Seq<BranchView>,
    max: int,
)
    requires
        max >= 0,
    ensures
        max <= s.len() ==> next_waiting(s, u, w, max) == w + u + s.skip(max),
        s.len() <= max <= s.len() + u.len() ==> next_waiting(s, u, w, max) == w + u.skip(
            max - s.len(),
        ),
        s.len() + u.len() <= max <= s.len() + u.len() + w.len() ==> next_waiting(s, u, w, max)
            == w.skip(max - s.len() - u.len()),
        s.len() + u.len() + w.len() <= max ==> next_waiting(s, u, w, max).len() == 0,
{
    if max <= s.len() {
        assert(next_waiting(s, u, w, max) =~= w + u + s.skip(max));
    }
    if s.len() <= max <= s.len() + u.len() {
        assert(next_waiting(s, u, w, max) =~= w + u.skip(max - s.len()));
    }
    if s.len() + u.len() <= max <= s.len() + u.len() + w.len() {
        assert(next_waiting(s, u, w, max) =~= w.skip(max - s.len() - u.len()));
    }
    if s.len() + u.len() + w.len() <= max {
        assert(next_waiting(s, u, w, max) =~= Seq::<BranchView>::empty());
    }
}

/// A round begins by taking branches from the front of the queue, as many as there is
/// room for. It is counted, and the peak is the most branches that ran at once.
pub proof fn law_round_begins_with_the_queue(v: SchedulerView, max: int)
    requires
        v.active.len() <= max <= usize::MAX,
        v.stats.scheduler_rounds < usize::MAX,
    ensures
        ({
            let b = v.begun(max);
            &&& b.active + b.waiting == v.active + v.waiting
            &&& b.active.len() >= v.active.len()
            &&& b.active.len() <= max
            &&& b.active.len() == max || b.waiting.len() == 0
            &&& b.stats.scheduler_rounds == v.stats.scheduler_rounds + 1
            &&& b.stats.peak_active_branches >= v.stats.peak_active_branches
            &&& b.stats.peak_active_branches >= b.active.len()
            &&& b.stats.peak_active_branches == v.stats.peak_active_branches
                || b.stats.peak_active_branches == b.active.len()
            &&& b.stats.forked_branches == v.stats.forked_branches
            &&& b.stats.shared_prefix_tokens == v.stats.shared_prefix_tokens
            &&& b.stats.mtp_drafted_tokens == v.stats.mtp_drafted_tokens
            &&& b.stats.mtp_accepted_tokens == v.stats.mtp_accepted_tokens
            &&& b.parent_tokens == v.parent_tokens
            &&& b.children == v.children
        }),
{
    assert(v.begun(max).active + v.begun(max).waiting =~= v.active + v.waiting);
}

/// The branches that still run are those that are not finished, in their order.
pub proof fn law_running_branches_stay(front: Seq<BranchView>, back: Seq<BranchView>, b: BranchView)
    ensures
        unfinished(front + back) == unfinished(front) + unfinished(back),
        b.finished ==> unfinished(seq![b]).len() == 0,
        !b.finished ==> unfinished(seq![b]) == seq![b],
    decreases back.len(),
{
    let none: Seq<BranchView> = Seq::empty();
    assert(seq![b].drop_last() =~= none);
    assert(unfinished(none) =~= none);
    assert(none.push(b) =~= seq![b]);
    if back.len() == 0 {
        assert(front + back =~= front);
        assert(unfinished(front) + unfinished(back) =~= unfinished(front));
    } else {
        law_running_branches_stay(front, back.drop_last(), b);
        assert((front + back).drop_last() =~= front + back.drop_last());
        assert((front + back).last() == back.last());
        assert(unfinished(front + back) =~= unfinished(front) + unfinished(back));
    }
}

/// The output of a finished branch goes to its own slot, and a slot whose branch has
/// not finished keeps what it holds.
pub proof fn law_finished_branch_fills_its_slot(
    parent: Option<Seq<u32>>,
    children: Seq<Seq<u32>>,
    branches: Seq<BranchView>,
    i: int,
    slot: usize,
)
    requires
        0 <= i < branches.len(),
        slot < children.len(),
        forall|j: int|
            0 <= j < branches.len() ==> ((#[trigger] branches[j]).kind matches BranchKind::Child(c)
                ==> c < children.len()),
        forall|j: int|
            0 <= j < branches.len() && j != i ==> (#[trigger] branches[j]).kind != branches[i].kind,
    ensures
        settle_children(children, branches).len() == children.len(),
        branches[i].finished && branches[i].kind == BranchKind::Child(slot) ==> settle_children(
            children,
            branches,
        )[slot as int] == branches[i].tokens,
        (forall|j: int|
            0 <= j < branches.len() ==> (#[trigger] branches[j]).kind != BranchKind::Child(slot)
                || !branches[j].finished) ==> settle_children(children, branches)[slot as int]
            == children[slot as int],
        branches[i].finished && branches[i].kind == BranchKind::Parent ==> settle_parent(
            parent,
            branches,
        ) == Some(branches[i].tokens),
        (forall|j: int|
            0 <= j < branches.len() ==> (#[trigger] branches[j]).kind != BranchKind::Parent
                || !branches[j].finished) ==> settle_parent(parent, branches) == parent,
{
    lemma_slot_untouched(parent, children, branches, slot);
    lemma_slot_filled(parent, children, branches, i, slot);
}

/// Settling leaves the slots of branches that have not finished.
proof fn lemma_slot_untouched(
    parent: Option<Seq<u32>>,
    children: Seq<Seq<u32>>,
    branches: Seq<BranchView>,
    slot: usize,
)
    requires
        slot < children.len(),
        forall|j: int|
            0 <= j < branches.len() ==> ((#[trigger] branches[j]).kind matches BranchKind::Child(c)
                ==> c < children.len()),
    ensures
        settle_children(children, branches).len() == children.len(),
        (forall|j: int|
            0 <= j < branches.len() ==> (#[trigger] branches[j]).kind != BranchKind::Child(slot)
                || !branches[j].finished) ==> settle_children(children, branches)[slot as int]
            == children[slot as int],
        (forall|j: int|
            0 <= j < branches.len() ==> (#[trigger] branches[j]).kind != BranchKind::Parent
                || !branches[j].finished) ==> settle_parent(parent, branches) == parent,
    decreases branches.len(),
{
    if branches.len() > 0 {
        let front = branches.drop_last();
        assert forall|j: int| 0 <= j < front.len() implies (#[trigger] front[j]) == branches[j] by {}
        lemma_slot_untouched(parent, children, front, slot);
        assert(branches[branches.len() - 1] == branches.last());
    }
}

/// Settling fills the slot of a branch that finished.
proof fn lemma_slot_filled(
    parent: Option<Seq<u32>>,
    children: Seq<Seq<u32>>,
    branches: Seq<BranchView>,
    i: int,
    slot: usize,
)
    requires
        0 <= i < branches.len(),
        slot < children.len(),
        forall|j: int|
            0 <= j < branches.len() ==> ((#[trigger] branches[j]).kind matches BranchKind::Child(c)
                ==> c < children.len()),
        forall|j: int|
            0 <= j < branches.len() && j != i ==> (#[trigger] branches[j]).kind != branches[i].kind,
    ensures
        branches[i].finished && branches[i].kind == BranchKind::Child(slot) ==> settle_children(
            children,
            branches,
        )[slot as int] == branches[i].tokens,
        branches[i].finished && branches[i].kind == BranchKind::Parent ==> settle_parent(
            parent,
            branches,
        ) == Some(branches[i].tokens),
    decreases branches.len(),
{
    let front = branches.drop_last();
    assert forall|j: int| 0 <= j < front.len() implies (#[trigger] front[j]) == branches[j] by {}
    lemma_slot_untouched(parent, children, front, slot);
    assert(branches[branches.len() - 1] == branches.last());
    if i < front.len() {
        lemma_slot_filled(parent, children, front, i, slot);
        assert(branches.last().kind != branches[i].kind);
    }
}

/// Each child that is forked gets the next free slot. It starts behind its prefix and
/// its own start token, with nothing generated, and may not fork itself.
pub proof fn law_children_take_fresh_slots(starts: Seq<ChildStart>, offset: nat, j: int)
    requires
        0 <= j < starts.len(),
        offset + starts.len() <= usize::MAX,
    ensures
        spawned(starts, offset).len() == starts.len(),
        ({
            let child = spawned(starts, offset)[j];
            &&& child.kind == BranchKind::Child((offset + j) as usize)
            &&& child.seq_len == starts[j].prefix_len + 1
            &&& child.pending == starts[j].pending_token
            &&& child.tokens.len() == 0
            &&& child.max_new == starts[j].max_new_tokens
            &&& !child.allow_fork
            &&& !child.finished
        }),
{
}

/// The end of a round counts each child once, and with it the positions that it
/// shares.
pub proof fn law_round_counts_its_children(v: SchedulerView, starts: Seq<ChildStart>, max: int)
    requires
        v.stats.forked_branches + starts.len() <= usize::MAX,
        v.stats.shared_prefix_tokens + prefix_sum(starts) <= usize::MAX,
    ensures
        ({
            let r = v.round_finished(starts, max);
            &&& r.stats.forked_branches == v.stats.forked_branches + starts.len()
            &&& r.stats.shared_prefix_tokens == v.stats.shared_prefix_tokens + prefix_sum(starts)
            &&& r.stats.scheduler_rounds == v.stats.scheduler_rounds
            &&& r.stats.peak_active_branches == v.stats.peak_active_branches
            &&& r.stats.mtp_drafted_tokens == v.stats.mtp_drafted_tokens
            &&& r.stats.mtp_accepted_tokens == v.stats.mtp_accepted_tokens
        }),
{
}

/// Shared positions add up child by child, and accepted drafts branch by branch.
pub proof fn law_shares_add_up(
    starts: Seq<ChildStart>,
    start: ChildStart,
    drafts: Seq<Seq<u32>>,
    targets: Seq<Seq<u32>>,
    n: nat,
)
    ensures
        prefix_sum(Seq::empty()) == 0,
        prefix_sum(starts.push(start)) == prefix_sum(starts) + start.prefix_len,
        accepted_upto(drafts, targets, 0) == 0,
        accepted_upto(drafts, targets, n + 1) == accepted_upto(drafts, targets, n)
            + speculative::matched(drafts[n as int], targets[n as int]),
{
    assert(starts.push(start).drop_last() =~= starts);
}

/// As many tokens can be drafted for a branch as leave room, in its output and in the
/// context, for the pending token before them.
pub proof fn law_drafts_leave_room(b: BranchView, max_positions: nat, k: int)
    requires
        k >= 0,
    ensures
        draft_room(b, max_positions) >= 0,
        k > 0 ==> (k <= draft_room(b, max_positions) <==> b.tokens.len() + 1 + k <= b.max_new
            && b.seq_len + 1 + k <= max_positions),
{
}

/// A fork of the parent becomes the child marker and the output of the next child; what
/// stands before it stays, and what follows is treated in the same way.
pub proof fn law_child_takes_the_place_of_its_fork(
    before: Seq<u32>,
    after: Seq<u32>,
    children: Seq<Seq<u32>>,
    from: nat,
    fork: u32,
    child: u32,
)
    requires
        forall|i: int| 0 <= i < before.len() ==> #[trigger] before[i] != fork,
    ensures
        from < children.len() ==> assembled(before + seq![fork] + after, children, from, fork, child)
            == before + seq![child] + children[from as int] + assembled(
            after,
            children,
            from + 1,
            fork,
            child,
        ),
        from >= children.len() ==> assembled(before + seq![fork] + after, children, from, fork, child)
            == before + seq![child] + assembled(after, children, from, fork, child),
    decreases before.len(),
{
    let whole = before + seq![fork] + after;
    if before.len() == 0 {
        assert(whole.skip(1) =~= after);
        assert(whole[0] == fork);
        if from < children.len() {
            assert(assembled(whole, children, from, fork, child) =~= before + seq![child]
                + children[from as int] + assembled(after, children, from + 1, fork, child));
        } else {
            assert(assembled(whole, children, from, fork, child) =~= before + seq![child]
                + assembled(after, children, from, fork, child));
        }
    } else {
        let rest = before.skip(1);
        assert forall|i: int| 0 <= i < rest.len() implies #[trigger] rest[i] != fork by {
            assert(rest[i] == before[i + 1]);
        }
        law_child_takes_the_place_of_its_fork(rest, after, children, from, fork, child);
        assert(whole.skip(1) =~= rest + seq![fork] + after);
        assert(whole[0] == before[0]);
        assert(before =~= seq![before[0]] + rest);
        if from < children.len() {
            assert(assembled(whole, children, from, fork, child) =~= before + seq![child]
                + children[from as int] + assembled(after, children, from + 1, fork, child));
        } else {
            assert(assembled(whole, children, from, fork, child) =~= before + seq![child]
                + assembled(after, children, from, fork, child));
        }
    }
}

/// Without drafts each branch has one answer, its own, and emits its pending token.
pub proof fn law_single_answers_go_to_their_branches(
    branches: Seq<BranchView>,
    next: Seq<u32>,
    stops: Seq<u32>,
    i: int,
)
    requires
        next.len() == branches.len(),
        0 <= i < branches.len(),
        !branches[i].finished,
    ensures
        ({
            let after = advance_all(branches, no_drafts(next.len()), single_rows(next), stops);
            &&& after.len() == branches.len()
            &&& after[i].tokens == branches[i].tokens.push(branches[i].pending)
            &&& after[i].pending == next[i]
            &&& after[i].seq_len == branches[i].seq_len + 1
            &&& after[i].finished <==> stops.contains(branches[i].pending)
                || branches[i].tokens.len() + 1 >= branches[i].max_new
        }),
{
    assert(no_drafts(next.len())[i] =~= Seq::<u32>::empty());
    assert(single_rows(next)[i] =~= seq![next[i]]);
    lemma_single_round(branches[i], next[i], i as nat, 0, stops);
}

/// Every branch of a round advances by its own drafts and answers.
pub proof fn law_branches_advance_by_their_own_rows(
    branches: Seq<BranchView>,
    drafts: Seq<Seq<u32>>,
    targets: Seq<Seq<u32>>,
    stops: Seq<u32>,
    i: int,
)
    requires
        0 <= i < branches.len(),
    ensures
        advance_all(branches, drafts, targets, stops).len() == branches.len(),
        advance_all(branches, drafts, targets, stops)[i] == advance_view(
            branches[i],
            drafts[i],
            targets[i],
            stops,
        ),
{
}

/// The smaller of two numbers is one of them, and no greater than the other.
pub proof fn law_smaller_is_one_of_two(a: int, b: int)
    ensures
        min_int(a, b) <= a,
        min_int(a, b) <= b,
        min_int(a, b) == a || min_int(a, b) == b,
{
}

} // verus!
