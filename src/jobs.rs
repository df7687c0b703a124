//! Scheduling of compilation units under a bounded job budget.
//!
//! The queue decides what happens next; whoever drives it performs the
//! action (releasing or taking a job token, starting an assembler process,
//! waiting for one to end) and reports each unit's end with `complete`.
//! The process holds one token of the budget for itself while idle, gives it
//! up before the first unit starts and takes it back after the last one ends.

use vstd::prelude::*;
use crate::text::push_str;

verus! {

/// Where a run of the queue stands.
#[derive(PartialEq, Eq, Structural, Clone, Copy, Debug)]
pub enum Phase {
    /// Nothing has started; the process holds its own token.
    Ready,
    /// Units are being started and awaited; the own token is given up.
    Dispatching,
    /// Every unit has ended and the own token is held again.
    Finished,
}

/// What the driver of a [`JobQueue`] has to do next.
#[derive(Debug)]
pub enum JobAction {
    /// Give up the token the process holds for itself.
    ReleaseOwnToken,
    /// Obtain a job token, then start the unit with this index; the token
    /// is given back as soon as that unit's process has ended.
    Spawn(usize),
    /// Wait until a running unit ends and report it with `complete`.
    AwaitCompletion,
    /// Take back the token the process holds for itself.
    ReclaimOwnToken,
    /// The run is over: the object of every unit in input order, or the
    /// first error in input order.
    Done(Result<Vec<String>, String>),
}

/// The outcome of one unit: its object path, or an error message.
pub type UnitOutcome = Result<String, String>;

/// The abstract view of a unit outcome, `None` while it has not ended.
pub type OutcomeView = Option<Result<Seq<char>, Seq<char>>>;

/// The state of a [`JobQueue`].
pub struct JobsView {
    pub budget: nat,
    pub next: nat,
    pub running: nat,
    pub phase: Phase,
    pub stop_on_error: bool,
    pub outcomes: Seq<OutcomeView>,
}

/// The abstract view of a unit's outcome slot.
pub open spec fn outcome_view(o: Option<UnitOutcome>) -> OutcomeView {
    match o {
        None => None,
        Some(Ok(p)) => Some(Ok(p@)),
        Some(Err(e)) => Some(Err(e@)),
    }
}

/// How many units in `o` have not ended.
pub open spec fn pending(o: Seq<OutcomeView>) -> nat
    decreases o.len(),
{
    if o.len() == 0 {
        0
    } else {
        pending(o.drop_last()) + if o.last() is None { 1nat } else { 0nat }
    }
}

/// Whether some unit in `o` has failed.
pub open spec fn has_failure(o: Seq<OutcomeView>) -> bool {
    exists|i: int| 0 <= i < o.len() && (#[trigger] o[i]) matches Some(Err(_))
}

/// The message for a unit that was never run.
pub open spec fn not_run_message() -> Seq<char> {
    "compilation unit did not run"@
}

/// The objects of all units in input order, or the first error in input order.
pub open spec fn collect(o: Seq<OutcomeView>) -> Result<Seq<Seq<char>>, Seq<char>>
    decreases o.len(),
{
    if o.len() == 0 {
        Ok(Seq::empty())
    } else {
        match collect(o.drop_last()) {
            Err(e) => Err(e),
            Ok(v) => match o.last() {
                Some(Ok(p)) => Ok(v.push(p)),
                Some(Err(e)) => Err(e),
                None => Err(not_run_message()),
            },
        }
    }
}

/// The abstract view of a run's result.
pub open spec fn result_view(res: Result<Vec<String>, String>) -> Result<Seq<Seq<char>>, Seq<char>> {
    match res {
        Ok(objs) => Ok(objs.deep_view()),
        Err(e) => Err(e@),
    }
}

/// Whether the process holds its own token in phase `p`.
pub open spec fn holds_own_token(p: Phase) -> bool {
    p != Phase::Dispatching
}

/// The tokens of the budget that the process holds: one per unit in
/// flight, plus its own while idle.
pub open spec fn tokens_held(v: JobsView) -> nat {
    v.running + if holds_own_token(v.phase) { 1nat } else { 0nat }
}

/// Whether no further unit may start because one has failed.
pub open spec fn halted(v: JobsView) -> bool {
    v.stop_on_error && has_failure(v.outcomes)
}

/// Whether the next unit may start now.
pub open spec fn may_spawn(v: JobsView) -> bool {
    v.next < v.outcomes.len() && !halted(v) && v.running < v.budget
}

/// The invariant of a queue.
pub open spec fn jobs_wf(v: JobsView) -> bool {
    &&& v.budget >= 1
    &&& v.next <= v.outcomes.len()
    &&& forall|i: int| v.next <= i < v.outcomes.len() ==> (#[trigger] v.outcomes[i]) is None
    &&& v.running == pending(v.outcomes.take(v.next as int))
    &&& v.phase == Phase::Ready ==> v.next == 0
    &&& v.phase == Phase::Finished ==> v.running == 0 && (v.next == v.outcomes.len() || halted(v))
    &&& tokens_held(v) <= v.budget
}

/// The state after `step` from `v`.
pub open spec fn stepped(v: JobsView) -> JobsView {
    match v.phase {
        Phase::Ready => JobsView { phase: Phase::Dispatching, ..v },
        Phase::Dispatching => if may_spawn(v) {
            JobsView { next: v.next + 1, running: v.running + 1, ..v }
        } else if v.running > 0 {
            v
        } else {
            JobsView { phase: Phase::Finished, ..v }
        },
        Phase::Finished => v,
    }
}

/// Whether unit `i` is in flight in `v`.
pub open spec fn in_flight(v: JobsView, i: int) -> bool {
    v.phase == Phase::Dispatching && 0 <= i < v.next && v.outcomes[i] is None
}

/// The state after unit `i` ended with `o`, if it was in flight.
pub open spec fn completed(v: JobsView, i: int, o: OutcomeView) -> JobsView {
    if in_flight(v, i) {
        JobsView { outcomes: v.outcomes.update(i, o), running: (v.running - 1) as nat, ..v }
    } else {
        v
    }
}

proof fn lemma_pending_push(o: Seq<OutcomeView>, x: OutcomeView)
    ensures
        pending(o.push(x)) == pending(o) + if x is None { 1nat } else { 0nat },
{
    assert(o.push(x).drop_last() == o);
}

proof fn lemma_pending_update(o: Seq<OutcomeView>, i: int, x: OutcomeView)
    requires
        0 <= i < o.len(),
        o[i] is None,
        x is Some,
    ensures
        pending(o.update(i, x)) + 1 == pending(o),
    decreases o.len(),
{
    let u = o.update(i, x);
    if i == o.len() - 1 {
        assert(u.drop_last() == o.drop_last());
    } else {
        assert(u.drop_last() == o.drop_last().update(i, x));
        lemma_pending_update(o.drop_last(), i, x);
    }
}

proof fn lemma_pending_positive(o: Seq<OutcomeView>, i: int)
    requires
        0 <= i < o.len(),
        o[i] is None,
    ensures
        pending(o) >= 1,
    decreases o.len(),
{
    if i < o.len() - 1 {
        lemma_pending_positive(o.drop_last(), i);
    }
}

/// A queue of compilation units, started in input order under a budget of
/// job tokens.
pub struct JobQueue {
    budget: usize,
    next: usize,
    running: usize,
    phase: Phase,
    stop_on_error: bool,
    failed: bool,
    outcomes: Vec<Option<UnitOutcome>>,
}

impl View for JobQueue {
    type V = JobsView;

    closed spec fn view(&self) -> JobsView {
        JobsView {
            budget: self.budget as nat,
            next: self.next as nat,
            running: self.running as nat,
            phase: self.phase,
            stop_on_error: self.stop_on_error,
            outcomes: self.outcomes@.map_values(|o: Option<UnitOutcome>| outcome_view(o)),
        }
    }
}

impl JobQueue {
    /// The invariant, together with what the private fields keep.
    pub closed spec fn wf(&self) -> bool {
        &&& jobs_wf(self@)
        &&& self.failed == has_failure(self@.outcomes)
    }

    /// A queue of `units` units under a budget of `budget` tokens, the
    /// process holding one of them. With `stop_on_error`, no unit starts
    /// after one has failed; otherwise every unit runs.
    pub fn new(units: usize, budget: usize, stop_on_error: bool) -> (q: Self)
        requires
            budget >= 1,
        ensures
            q.wf(),
            jobs_wf(q@),
            q@.budget == budget,
            q@.next == 0,
            q@.running == 0,
            q@.phase == Phase::Ready,
            q@.stop_on_error == stop_on_error,
            q@.outcomes == Seq::new(units as nat, |i: int| None::<Result<Seq<char>, Seq<char>>>),
    {
        let mut outcomes: Vec<Option<UnitOutcome>> = Vec::new();
        for k in 0..units
            invariant
                outcomes@.len() == k,
                forall|j: int| 0 <= j < k ==> (#[trigger] outcomes@[j]) is None,
        {
            outcomes.push(None);
        }
        let q = JobQueue { budget, next: 0, running: 0, phase: Phase::Ready, stop_on_error, failed: false, outcomes };
        assert(q@.outcomes =~= Seq::new(units as nat, |i: int| None::<Result<Seq<char>, Seq<char>>>));
        assert(q@.outcomes.take(0) =~= Seq::<OutcomeView>::empty());
        q
    }

    /// The number of units.
    pub fn units(&self) -> (n: usize)
        ensures
            n == self@.outcomes.len(),
    {
        self.outcomes.len()
    }

    /// Whether unit `i` has been started and has not ended.
    pub fn is_in_flight(&self, i: usize) -> (r: bool)
        requires
            self.wf(),
        ensures
            jobs_wf(self@),
            r == in_flight(self@, i as int),
    {
        self.phase == Phase::Dispatching && i < self.next && self.outcomes[i].is_none()
    }

    /// Decides the next action and moves to the state after it.
    pub fn step(&mut self) -> (r: JobAction)
        requires
            old(self).wf(),
        ensures
            final(self).wf(),
            jobs_wf(final(self)@),
            final(self)@ == stepped(old(self)@),
            old(self)@.phase == Phase::Ready ==> r is ReleaseOwnToken,
            old(self)@.phase == Phase::Dispatching ==> {
                if may_spawn(old(self)@) {
                    r == JobAction::Spawn(old(self)@.next as usize)
                } else if old(self)@.running > 0 {
                    r is AwaitCompletion
                } else {
                    r is ReclaimOwnToken
                }
            },
            old(self)@.phase == Phase::Finished ==> (r matches JobAction::Done(res)
                && result_view(res) == collect(old(self)@.outcomes)),
    {
        let ghost v = self@;
        match self.phase {
            Phase::Ready => {
                self.phase = Phase::Dispatching;
                JobAction::ReleaseOwnToken
            },
            Phase::Dispatching => {
                if self.next < self.outcomes.len() && !(self.stop_on_error && self.failed)
                    && self.running < self.budget {
                    let i = self.next;
                    proof {
                        lemma_pending_push(v.outcomes.take(i as int), v.outcomes[i as int]);
                        assert(v.outcomes.take(i + 1) == v.outcomes.take(i as int).push(v.outcomes[i as int]));
                    }
                    self.next = i + 1;
                    self.running = self.running + 1;
                    assert(self@ == stepped(v));
                    JobAction::Spawn(i)
                } else if self.running > 0 {
                    JobAction::AwaitCompletion
                } else {
                    self.phase = Phase::Finished;
                    assert(self@ == stepped(v));
                    JobAction::ReclaimOwnToken
                }
            },
            Phase::Finished => JobAction::Done(self.collect_outcomes()),
        }
    }

    fn collect_outcomes(&self) -> (res: Result<Vec<String>, String>)
        ensures
            result_view(res) == collect(self@.outcomes),
    {
        let ghost o = self@.outcomes;
        let mut objs: Vec<String> = Vec::new();
        assert(o.take(0) =~= Seq::<OutcomeView>::empty());
        assert(objs.deep_view() =~= Seq::<Seq<char>>::empty());
        for i in 0..self.outcomes.len()
            invariant
                o == self@.outcomes,
                o.len() == self.outcomes@.len(),
                collect(o.take(i as int)) == Ok::<Seq<Seq<char>>, Seq<char>>(objs.deep_view()),
        {
            assert(o.take(i + 1).drop_last() == o.take(i as int));
            assert(o[i as int] == outcome_view(self.outcomes@[i as int]));
            match &self.outcomes[i] {
                Some(Ok(p)) => {
                    let ghost before = objs.deep_view();
                    objs.push(p.clone());
                    assert(objs.deep_view() =~= before.push(p@));
                },
                Some(Err(e)) => {
                    proof {
                        lemma_collect_err_extends(o, i as int + 1);
                    }
                    return Err(e.clone());
                },
                None => {
                    proof {
                        lemma_collect_err_extends(o, i as int + 1);
                    }
                    let mut m = String::new();
                    push_str(&mut m, "compilation unit did not run");
                    return Err(m);
                },
            }
        }
        assert(o.take(o.len() as int) == o);
        Ok(objs)
    }

    /// Reports that unit `i` ended with `outcome`. Returns whether the unit
    /// was in flight; a report for any other unit changes nothing.
    pub fn complete(&mut self, i: usize, outcome: UnitOutcome) -> (accepted: bool)
        requires
            old(self).wf(),
        ensures
            final(self).wf(),
            jobs_wf(final(self)@),
            accepted == in_flight(old(self)@, i as int),
            final(self)@ == completed(old(self)@, i as int, outcome_view(Some(outcome))),
    {
        if !self.is_in_flight(i) {
            return false;
        }
        let ghost v = self@;
        let ghost x = outcome_view(Some(outcome));
        let is_err = outcome.is_err();
        proof {
            lemma_pending_positive(v.outcomes.take(v.next as int), i as int);
            lemma_pending_update(v.outcomes.take(v.next as int), i as int, x);
            assert(v.outcomes.update(i as int, x).take(v.next as int)
                == v.outcomes.take(v.next as int).update(i as int, x));
        }
        self.outcomes.set(i, Some(outcome));
        self.running = self.running - 1;
        if is_err {
            self.failed = true;
        }
        assert(self@.outcomes =~= v.outcomes.update(i as int, x));
        proof {
            if is_err {
                assert(self@.outcomes[i as int] matches Some(Err(_)));
            } else if has_failure(self@.outcomes) {
                let k = choose|k: int| 0 <= k < self@.outcomes.len() && (#[trigger] self@.outcomes[k]) matches Some(Err(_));
                assert(k != i);
                assert(v.outcomes[k] matches Some(Err(_)));
            } else {
                if has_failure(v.outcomes) {
                    let k = choose|k: int| 0 <= k < v.outcomes.len() && (#[trigger] v.outcomes[k]) matches Some(Err(_));
                    assert(k != i);
                    assert(self@.outcomes[k] matches Some(Err(_)));
                }
            }
        }
        assert(self@ == completed(v, i as int, x));
        true
    }
}

proof fn lemma_collect_err_extends(o: Seq<OutcomeView>, n: int)
    requires
        0 <= n <= o.len(),
        collect(o.take(n)) is Err,
    ensures
        collect(o) == collect(o.take(n)),
    decreases o.len() - n,
{
    if n < o.len() {
        assert(o.take(n + 1).drop_last() == o.take(n));
        lemma_collect_err_extends(o, n + 1);
    } else {
        assert(o.take(n) == o);
    }
}

/// The units in flight never outnumber the budget, whatever the budget: the
/// tokens the process holds, one per unit in flight plus its own while idle,
/// stay within it in every state a queue can reach.
pub proof fn lemma_in_flight_within_budget(v: JobsView)
    requires
        jobs_wf(v),
    ensures
        v.running <= v.budget,
        tokens_held(v) <= v.budget,
{
}

/// Every step keeps the invariant, and so the bound on units in flight.
pub proof fn lemma_step_keeps_invariant(v: JobsView)
    requires
        jobs_wf(v),
    ensures
        jobs_wf(stepped(v)),
{
    if v.phase == Phase::Dispatching && may_spawn(v) {
        lemma_pending_push(v.outcomes.take(v.next as int), v.outcomes[v.next as int]);
        assert(v.outcomes.take(v.next + 1int) == v.outcomes.take(v.next as int).push(
            v.outcomes[v.next as int],
        ));
    }
}

/// The end of a unit keeps the invariant.
pub proof fn lemma_complete_keeps_invariant(v: JobsView, i: int, o: OutcomeView)
    requires
        jobs_wf(v),
        o is Some,
    ensures
        jobs_wf(completed(v, i, o)),
{
    if in_flight(v, i) {
        let w = completed(v, i, o);
        lemma_pending_update(v.outcomes.take(v.next as int), i, o);
        assert(v.outcomes.update(i, o).take(v.next as int) == v.outcomes.take(v.next as int).update(
            i,
            o,
        ));
        assert(w.running == pending(w.outcomes.take(w.next as int)));
    }
}

/// A queue never deadlocks, even with a budget of one token: once the own
/// token is given up, a step with no unit in flight either starts the next
/// unit or ends the run, and a step that waits always has a unit in flight
/// to wait for.
pub proof fn lemma_no_deadlock(v: JobsView)
    requires
        jobs_wf(v),
        v.phase == Phase::Dispatching,
    ensures
        v.running == 0 && v.next < v.outcomes.len() && !halted(v) ==> stepped(v).next == v.next + 1,
        v.running == 0 ==> stepped(v) != v,
        stepped(v) == v ==> v.running > 0,
{
}

/// The object of an outcome that succeeded.
pub open spec fn object_of(x: OutcomeView) -> Seq<char> {
    match x {
        Some(Ok(p)) => p,
        _ => Seq::empty(),
    }
}

/// When every unit succeeded, the objects come back in input order.
pub proof fn lemma_objects_in_input_order(o: Seq<OutcomeView>)
    requires
        forall|i: int| 0 <= i < o.len() ==> (#[trigger] o[i]) matches Some(Ok(_)),
    ensures
        collect(o) == Ok::<Seq<Seq<char>>, Seq<char>>(Seq::new(o.len(), |i: int| object_of(o[i]))),
    decreases o.len(),
{
    if o.len() > 0 {
        let p = o.drop_last();
        lemma_objects_in_input_order(p);
        assert(o.last() matches Some(Ok(_)));
        assert(Seq::new(p.len(), |i: int| object_of(p[i])).push(object_of(o.last()))
            =~= Seq::new(o.len(), |i: int| object_of(o[i])));
    } else {
        assert(Seq::new(o.len(), |i: int| object_of(o[i])) =~= Seq::<Seq<char>>::empty());
    }
}

/// When some unit failed, the error reported is that of the first failed
/// unit in input order, however the units before it ended.
pub proof fn lemma_first_error_in_input_order(o: Seq<OutcomeView>, k: int, e: Seq<char>)
    requires
        0 <= k < o.len(),
        o[k] == Some(Err::<Seq<char>, Seq<char>>(e)),
        forall|j: int| 0 <= j < k ==> (#[trigger] o[j]) matches Some(Ok(_)),
    ensures
        collect(o) == Err::<Seq<Seq<char>>, Seq<char>>(e),
{
    let q = o.take(k);
    assert forall|j: int| 0 <= j < q.len() implies (#[trigger] q[j]) matches Some(Ok(_)) by {
        assert(q[j] == o[j]);
    }
    lemma_objects_in_input_order(q);
    assert(o.take(k + 1).drop_last() == q);
    lemma_collect_err_extends(o, k + 1);
}

/// The order in which units end does not matter: reporting two ends in
/// either order gives the same state, and so the same result.
pub proof fn lemma_completion_order_irrelevant(
    v: JobsView,
    i: int,
    j: int,
    a: OutcomeView,
    b: OutcomeView,
)
    requires
        jobs_wf(v),
        i != j,
    ensures
        completed(completed(v, i, a), j, b) == completed(completed(v, j, b), i, a),
{
    if in_flight(v, i) && in_flight(v, j) {
        assert(v.outcomes.update(i, a).update(j, b) =~= v.outcomes.update(j, b).update(i, a));
    }
}

} // verus!
