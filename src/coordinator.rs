//! Admission control for a bounded fan-out over a fixed list of targets.
//!
//! The coordinator decides which target starts next and records each target's
//! outcome as it arrives. The caller runs the requests: it starts every target
//! that `start_next` hands out and reports each completion through `complete`, in
//! whatever order the completions happen.

use vstd::prelude::*;

verus! {

/// Where one target stands.
#[derive(PartialEq, Eq, Structural, Clone, Copy, Debug)]
pub enum Phase {
    /// Not started yet.
    Pending,
    /// Its request is in flight.
    InFlight,
    /// Its request completed with a body.
    Succeeded,
    /// Its request failed.
    Failed,
}

pub open spec fn is_in_flight(p: Phase) -> bool {
    p == Phase::InFlight
}

pub open spec fn is_done(p: Phase) -> bool {
    p == Phase::Succeeded || p == Phase::Failed
}

/// How many entries of `s` satisfy `f`.
pub open spec fn count_where(s: Seq<Phase>, f: spec_fn(Phase) -> bool) -> nat
    decreases s.len(),
{
    if s.len() == 0 {
        0
    } else {
        count_where(s.drop_last(), f) + if f(s.last()) {
            1nat
        } else {
            0nat
        }
    }
}

/// Number of targets whose request is in flight.
pub open spec fn in_flight_count(s: Seq<Phase>) -> nat {
    count_where(s, |p: Phase| is_in_flight(p))
}

/// Number of targets still waiting to start.
pub open spec fn pending_count(s: Seq<Phase>) -> nat {
    count_where(s, |p: Phase| p == Phase::Pending)
}

/// Steps left before every target has its outcome: a waiting target needs a
/// start and a completion, one in flight needs its completion.
pub open spec fn remaining_work(s: Seq<Phase>) -> nat {
    2 * pending_count(s) + in_flight_count(s)
}

/// The phase a target takes when its request completes.
pub open spec fn done_phase(ok: bool) -> Phase {
    if ok {
        Phase::Succeeded
    } else {
        Phase::Failed
    }
}

/// The phases after target `i` completes.
pub open spec fn completed_with(s: Seq<Phase>, i: int, ok: bool) -> Seq<Phase> {
    s.update(i, done_phase(ok))
}

/// The phases after recording the outcomes of the targets in `schedule`, in
/// that order, where target `i`'s request came back as `results[i]`.
pub open spec fn run_completions(s: Seq<Phase>, schedule: Seq<int>, results: Seq<bool>) -> Seq<
    Phase,
>
    decreases schedule.len(),
{
    if schedule.len() == 0 {
        s
    } else {
        let i = schedule.last();
        completed_with(run_completions(s, schedule.drop_last(), results), i, results[i])
    }
}

/// Whether every target has its outcome.
pub open spec fn all_done(s: Seq<Phase>) -> bool {
    forall|i: int| 0 <= i < s.len() ==> is_done(#[trigger] s[i])
}

/// `i` is the first target still waiting to start.
pub open spec fn first_pending(s: Seq<Phase>, i: int) -> bool {
    &&& 0 <= i < s.len()
    &&& s[i] == Phase::Pending
    &&& forall|j: int| 0 <= j < i ==> s[j] != Phase::Pending
}

pub open spec fn has_pending(s: Seq<Phase>) -> bool {
    exists|i: int| 0 <= i < s.len() && s[i] == Phase::Pending
}

/// Bounded admission over targets `0 .. n`: at most `limit` requests are in
/// flight at once, targets start in list order, and each target gets exactly
/// one outcome.
pub struct Coordinator {
    limit: usize,
    phases: Vec<Phase>,
    next: usize,
    in_flight: usize,
    order: Vec<usize>,
}

proof fn lemma_count_update(s: Seq<Phase>, i: int, v: Phase, f: spec_fn(Phase) -> bool)
    requires
        0 <= i < s.len(),
    ensures
        count_where(s.update(i, v), f) + (if f(s[i]) {
            1int
        } else {
            0int
        }) == count_where(s, f) + (if f(v) {
            1int
        } else {
            0int
        }),
    decreases s.len(),
{
    let t = s.update(i, v);
    if i == s.len() - 1 {
        assert(t.drop_last() =~= s.drop_last());
    } else {
        assert(t.drop_last() =~= s.drop_last().update(i, v));
        lemma_count_update(s.drop_last(), i, v, f);
    }
}

proof fn lemma_count_zero(s: Seq<Phase>, f: spec_fn(Phase) -> bool)
    ensures
        count_where(s, f) == 0 <==> forall|i: int| 0 <= i < s.len() ==> !f(#[trigger] s[i]),
    decreases s.len(),
{
    if s.len() > 0 {
        lemma_count_zero(s.drop_last(), f);
        assert forall|i: int| 0 <= i < s.len() - 1 implies s.drop_last()[i] == s[i] by {}
        if count_where(s, f) == 0 {
            assert forall|i: int| 0 <= i < s.len() implies !f(#[trigger] s[i]) by {
                if i < s.len() - 1 {
                    assert(s.drop_last()[i] == s[i]);
                }
            }
        }
    }
}

proof fn lemma_count_bounded(s: Seq<Phase>, f: spec_fn(Phase) -> bool)
    ensures
        count_where(s, f) <= s.len(),
    decreases s.len(),
{
    if s.len() > 0 {
        lemma_count_bounded(s.drop_last(), f);
    }
}

/// Two predicates that no entry satisfies together count at most the length.
proof fn lemma_count_pair_bounded(
    s: Seq<Phase>,
    f: spec_fn(Phase) -> bool,
    g: spec_fn(Phase) -> bool,
)
    requires
        forall|p: Phase| !(#[trigger] f(p) && g(p)),
    ensures
        count_where(s, f) + count_where(s, g) <= s.len(),
    decreases s.len(),
{
    if s.len() > 0 {
        lemma_count_pair_bounded(s.drop_last(), f, g);
    }
}

proof fn lemma_count_all(s: Seq<Phase>, f: spec_fn(Phase) -> bool)
    requires
        forall|i: int| 0 <= i < s.len() ==> f(#[trigger] s[i]),
    ensures
        count_where(s, f) == s.len(),
    decreases s.len(),
{
    if s.len() > 0 {
        assert forall|i: int| 0 <= i < s.len() - 1 implies f(#[trigger] s.drop_last()[i]) by {
            assert(s.drop_last()[i] == s[i]);
        }
        lemma_count_all(s.drop_last(), f);
    }
}

impl Coordinator {
    /// The phase of each target, by position in the target list.
    pub closed spec fn phases(&self) -> Seq<Phase> {
        self.phases@
    }

    /// The most requests allowed in flight at once.
    pub closed spec fn limit(&self) -> nat {
        self.limit as nat
    }

    /// The targets that have completed, in completion order.
    pub closed spec fn order(&self) -> Seq<usize> {
        self.order@
    }

    pub closed spec fn wf(&self) -> bool {
        &&& self.limit >= 1
        &&& self.next <= self.phases@.len()
        &&& forall|i: int|
            0 <= i < self.phases@.len() ==> (#[trigger] self.phases@[i] == Phase::Pending <==> i
                >= self.next)
        &&& self.in_flight == in_flight_count(self.phases@)
        &&& self.in_flight <= self.limit
        &&& self.order@.no_duplicates()
        &&& forall|k: int| 0 <= k < self.order@.len() ==> #[trigger] self.order@[k] < self.phases@.len()
        &&& forall|k: int|
            0 <= k < self.order@.len() ==> is_done(self.phases@[#[trigger] self.order@[k] as int])
        &&& forall|i: int|
            0 <= i < self.phases@.len() && is_done(#[trigger] self.phases@[i]) ==> self.order@.contains(
                i as usize,
            )
        &&& self.order@.len() == count_where(self.phases@, |p: Phase| is_done(p))
    }
}

impl Coordinator {
    /// A coordinator for targets `0 .. targets`, none started, allowing
    /// `limit` requests in flight at once.
    pub fn new(targets: usize, limit: usize) -> (r: Coordinator)
        requires
            limit >= 1,
        ensures
            r.wf(),
            r.limit() == limit,
            r.phases() == Seq::new(targets as nat, |i: int| Phase::Pending),
            r.order() == Seq::<usize>::empty(),
            remaining_work(r.phases()) == 2 * targets,
    {
        let mut phases: Vec<Phase> = Vec::new();
        let mut k: usize = 0;
        while k < targets
            invariant
                k <= targets,
                phases@ == Seq::new(k as nat, |i: int| Phase::Pending),
            decreases targets - k,
        {
            phases.push(Phase::Pending);
            k = k + 1;
            assert(phases@ =~= Seq::new(k as nat, |i: int| Phase::Pending));
        }
        proof {
            lemma_count_zero(phases@, |p: Phase| is_in_flight(p));
            lemma_count_zero(phases@, |p: Phase| is_done(p));
            lemma_count_all(phases@, |p: Phase| p == Phase::Pending);
        }
        Coordinator { limit, phases, next: 0, in_flight: 0, order: Vec::new() }
    }

    /// Starts the first target still waiting, if fewer than `limit` requests
    /// are in flight. Returns the target to start, or `None` when the limit
    /// is reached or no target waits.
    pub fn start_next(&mut self) -> (r: Option<usize>)
        requires
            old(self).wf(),
        ensures
            final(self).wf(),
            final(self).limit() == old(self).limit(),
            final(self).order() == old(self).order(),
            r is Some <==> in_flight_count(old(self).phases()) < old(self).limit() && has_pending(
                old(self).phases(),
            ),
            r matches Some(i) ==> first_pending(old(self).phases(), i as int) && final(self).phases()
                == old(self).phases().update(i as int, Phase::InFlight),
            r is None ==> final(self).phases() == old(self).phases(),
            r is Some ==> remaining_work(final(self).phases()) + 1 == remaining_work(
                old(self).phases(),
            ),
    {
        if self.in_flight < self.limit && self.next < self.phases.len() {
            let i = self.next;
            let ghost before = self.phases@;
            self.phases.set(i, Phase::InFlight);
            self.next = i + 1;
            self.in_flight = self.in_flight + 1;
            proof {
                lemma_count_update(before, i as int, Phase::InFlight, |p: Phase| is_in_flight(p));
                lemma_count_update(before, i as int, Phase::InFlight, |p: Phase| is_done(p));
                lemma_count_update(
                    before,
                    i as int,
                    Phase::InFlight,
                    |p: Phase| p == Phase::Pending,
                );
                assert(before[i as int] == Phase::Pending);
                assert forall|k: int|
                    0 <= k < self.order@.len() implies is_done(
                    self.phases@[#[trigger] self.order@[k] as int],
                ) by {
                    assert(is_done(before[self.order@[k] as int]));
                }
                assert forall|j: int|
                    0 <= j < self.phases@.len() && is_done(
                        #[trigger] self.phases@[j],
                    ) implies self.order@.contains(j as usize) by {
                    assert(j != i);
                    assert(is_done(before[j]));
                }
            }
            Some(i)
        } else {
            proof {
                if self.next >= self.phases.len() {
                    assert forall|j: int|
                        0 <= j < self.phases@.len() implies self.phases@[j] != Phase::Pending by {
                        assert(self.phases@[j] == Phase::Pending <==> j >= self.next);
                    }
                } else {
                    assert(self.phases@[self.next as int] == Phase::Pending);
                }
            }
            None
        }
    }

    /// Records the outcome of `target`'s request: `ok` when it produced a
    /// body. Accepted only for a target in flight; otherwise nothing changes.
    pub fn complete(&mut self, target: usize, ok: bool) -> (accepted: bool)
        requires
            old(self).wf(),
        ensures
            final(self).wf(),
            final(self).limit() == old(self).limit(),
            accepted == (target < old(self).phases().len() && old(self).phases()[target as int]
                == Phase::InFlight),
            accepted ==> final(self).phases() == completed_with(
                old(self).phases(),
                target as int,
                ok,
            ) && final(self).order() == old(self).order().push(target),
            accepted ==> remaining_work(final(self).phases()) + 1 == remaining_work(
                old(self).phases(),
            ),
            !accepted ==> final(self).phases() == old(self).phases() && final(self).order()
                == old(self).order(),
    {
        if target >= self.phases.len() || self.phases[target] != Phase::InFlight {
            return false;
        }
        let ghost before = self.phases@;
        let ghost before_order = self.order@;
        let p = if ok {
            Phase::Succeeded
        } else {
            Phase::Failed
        };
        self.phases.set(target, p);
        proof {
            lemma_count_update(before, target as int, p, |p: Phase| is_in_flight(p));
            lemma_count_update(before, target as int, p, |p: Phase| is_done(p));
            lemma_count_update(before, target as int, p, |p: Phase| p == Phase::Pending);
            assert(!before_order.contains(target)) by {
                if before_order.contains(target) {
                    let k = choose|k: int| 0 <= k < before_order.len() && before_order[k] == target;
                    assert(is_done(before[before_order[k] as int]));
                }
            }
        }
        self.in_flight = self.in_flight - 1;
        self.order.push(target);
        proof {
            assert(self.phases@ == completed_with(before, target as int, ok));
            assert forall|k: int|
                0 <= k < self.order@.len() implies is_done(
                self.phases@[#[trigger] self.order@[k] as int],
            ) by {
                if k < before_order.len() {
                    assert(self.order@[k] == before_order[k]);
                    assert(is_done(before[before_order[k] as int]));
                }
            }
            assert forall|j: int|
                0 <= j < self.phases@.len() && is_done(
                    #[trigger] self.phases@[j],
                ) implies self.order@.contains(j as usize) by {
                if j == target {
                    assert(self.order@[before_order.len() as int] == target);
                } else {
                    assert(is_done(before[j]));
                    let k = choose|k: int| 0 <= k < before_order.len() && before_order[k] == j as usize;
                    assert(self.order@[k] == j as usize);
                }
            }
            assert forall|j: int|
                0 <= j < self.phases@.len() implies (#[trigger] self.phases@[j] == Phase::Pending
                <==> j >= self.next) by {
                assert(before[j] == Phase::Pending <==> j >= self.next);
            }
        }
        true
    }

    /// Number of targets.
    pub fn target_count(&self) -> (r: usize)
        ensures
            r == self.phases().len(),
    {
        self.phases.len()
    }

    /// The most requests allowed in flight at once.
    pub fn max_in_flight(&self) -> (r: usize)
        ensures
            r == self.limit(),
    {
        self.limit
    }

    /// Number of requests in flight now.
    pub fn in_flight(&self) -> (r: usize)
        requires
            self.wf(),
        ensures
            r == in_flight_count(self.phases()),
    {
        self.in_flight
    }

    /// Where target `i` stands.
    pub fn phase(&self, i: usize) -> (r: Phase)
        requires
            i < self.phases().len(),
        ensures
            r == self.phases()[i as int],
    {
        self.phases[i]
    }

    /// The targets that have completed, in completion order.
    pub fn completion_order(&self) -> (r: Vec<usize>)
        ensures
            r@ == self.order(),
    {
        let r = self.order.clone();
        assert(r@ =~= self.order@);
        r
    }

    /// Whether every target has its outcome.
    pub fn is_finished(&self) -> (r: bool)
        requires
            self.wf(),
        ensures
            r == all_done(self.phases()),
    {
        proof {
            lemma_count_zero(self.phases@, |p: Phase| is_in_flight(p));
            if !(self.next == self.phases.len() && self.in_flight == 0) && all_done(self.phases@) {
                if self.next < self.phases.len() {
                    assert(is_done(self.phases@[self.next as int]));
                } else {
                    let i = choose|i: int|
                        0 <= i < self.phases@.len() && is_in_flight(self.phases@[i]);
                    assert(is_done(self.phases@[i]));
                }
            }
            if self.next == self.phases.len() && self.in_flight == 0 {
                assert forall|i: int| 0 <= i < self.phases@.len() implies is_done(
                    #[trigger] self.phases@[i],
                ) by {
                    assert(self.phases@[i] == Phase::Pending <==> i >= self.next);
                    assert(!is_in_flight(self.phases@[i]));
                }
            }
        }
        self.next == self.phases.len() && self.in_flight == 0
    }
}

/// A finished run has produced exactly one outcome per target: the completion
/// order lists every target once and nothing else, whatever order the
/// completions came in.
pub proof fn lemma_one_outcome_per_target(c: &Coordinator)
    requires
        c.wf(),
        all_done(c.phases()),
    ensures
        c.order().len() == c.phases().len(),
        c.order().no_duplicates(),
        forall|i: usize| i < c.phases().len() ==> #[trigger] c.order().contains(i),
        forall|k: int| 0 <= k < c.order().len() ==> (#[trigger] c.order()[k]) < c.phases().len(),
{
    lemma_count_all(c.phases@, |p: Phase| is_done(p));
    assert forall|i: usize| i < c.phases().len() implies #[trigger] c.order().contains(i) by {
        assert(is_done(c.phases@[i as int]));
    }
}

/// The work measure counts down a run: it is zero exactly when every target
/// has its outcome, never exceeds twice the number of targets, and each
/// accepted `start_next` or `complete` lowers it by one. With
/// `lemma_run_progresses`, a caller that keeps starting what it may and
/// reporting every completion finishes after exactly twice as many steps as
/// there are targets, with one outcome per target.
pub proof fn lemma_work_ends_run(c: &Coordinator)
    requires
        c.wf(),
    ensures
        remaining_work(c.phases()) == 0 <==> all_done(c.phases()),
        remaining_work(c.phases()) <= 2 * c.phases().len(),
        remaining_work(c.phases()) == 0 ==> c.order().len() == c.phases().len(),
        remaining_work(c.phases()) == 0 ==> forall|i: usize|
            i < c.phases().len() ==> #[trigger] c.order().contains(i),
{
    let s = c.phases@;
    lemma_count_zero(s, |p: Phase| is_in_flight(p));
    lemma_count_zero(s, |p: Phase| p == Phase::Pending);
    lemma_count_bounded(s, |p: Phase| p == Phase::Pending);
    lemma_count_pair_bounded(s, |p: Phase| p == Phase::Pending, |p: Phase| is_in_flight(p));
    if remaining_work(s) == 0 {
        assert forall|i: int| 0 <= i < s.len() implies is_done(#[trigger] s[i]) by {
            assert(s[i] != Phase::Pending);
            assert(!is_in_flight(s[i]));
        }
        lemma_one_outcome_per_target(c);
    }
    if all_done(s) {
        assert forall|i: int| 0 <= i < s.len() implies !is_in_flight(#[trigger] s[i]) by {
            assert(is_done(s[i]));
        }
        assert forall|i: int| 0 <= i < s.len() implies !(#[trigger] s[i] == Phase::Pending) by {
            assert(is_done(s[i]));
        }
    }
}

/// At no point are more requests in flight than the limit allows.
pub proof fn lemma_in_flight_within_limit(c: &Coordinator)
    requires
        c.wf(),
    ensures
        in_flight_count(c.phases()) <= c.limit(),
{
}

/// A run that is not finished can always go on: some request is in flight,
/// whose completion the caller awaits, or a waiting target can start now.
/// So a caller that starts what it may and reports every completion reaches
/// a finished run.
pub proof fn lemma_run_progresses(c: &Coordinator)
    requires
        c.wf(),
        !all_done(c.phases()),
    ensures
        in_flight_count(c.phases()) > 0 || (in_flight_count(c.phases()) < c.limit() && has_pending(
            c.phases(),
        )),
{
    let s = c.phases@;
    let i = choose|i: int| 0 <= i < s.len() && !is_done(s[i]);
    lemma_count_zero(s, |p: Phase| is_in_flight(p));
    if s[i] != Phase::InFlight {
        assert(s[i] == Phase::Pending);
    }
}

/// Outcomes of two different targets may be recorded in either order with
/// the same result.
pub proof fn lemma_completion_order_irrelevant(
    s: Seq<Phase>,
    i: int,
    j: int,
    ok_i: bool,
    ok_j: bool,
)
    requires
        0 <= i < s.len(),
        0 <= j < s.len(),
        i != j,
    ensures
        completed_with(completed_with(s, i, ok_i), j, ok_j) == completed_with(
            completed_with(s, j, ok_j),
            i,
            ok_i,
        ),
{
    assert(completed_with(completed_with(s, i, ok_i), j, ok_j) =~= completed_with(
        completed_with(s, j, ok_j),
        i,
        ok_i,
    ));
}

/// Recording a whole schedule of completions leaves each scheduled target
/// with its own outcome and every other target as it was.
pub proof fn lemma_run_completions(s: Seq<Phase>, schedule: Seq<int>, results: Seq<bool>)
    requires
        results.len() == s.len(),
        forall|k: int| 0 <= k < schedule.len() ==> 0 <= #[trigger] schedule[k] < s.len(),
    ensures
        run_completions(s, schedule, results) == Seq::new(
            s.len(),
            |i: int|
                if schedule.contains(i) {
                    done_phase(results[i])
                } else {
                    s[i]
                },
        ),
    decreases schedule.len(),
{
    let target = Seq::new(
        s.len(),
        |i: int|
            if schedule.contains(i) {
                done_phase(results[i])
            } else {
                s[i]
            },
    );
    if schedule.len() == 0 {
        assert(run_completions(s, schedule, results) =~= target);
    } else {
        let rest = schedule.drop_last();
        assert forall|k: int| 0 <= k < rest.len() implies 0 <= #[trigger] rest[k] < s.len() by {
            assert(rest[k] == schedule[k]);
        }
        lemma_run_completions(s, rest, results);
        assert forall|i: int| 0 <= i < s.len() implies #[trigger] run_completions(
            s,
            schedule,
            results,
        )[i] == target[i] by {
            if i != schedule.last() {
                if schedule.contains(i) {
                    let k = choose|k: int| 0 <= k < schedule.len() && schedule[k] == i;
                    assert(rest[k] == i);
                }
                if rest.contains(i) {
                    let k = choose|k: int| 0 <= k < rest.len() && rest[k] == i;
                    assert(schedule[k] == i);
                }
            } else {
                assert(schedule[schedule.len() - 1] == i);
            }
        }
        assert(run_completions(s, schedule, results) =~= target);
    }
}

/// The outcomes of a run do not depend on the order in which requests
/// complete: two schedules that complete the same targets, with the same
/// per-target results, leave every target in the same phase.
pub proof fn lemma_completion_order_irrelevant_for_runs(
    s: Seq<Phase>,
    a: Seq<int>,
    b: Seq<int>,
    results: Seq<bool>,
)
    requires
        results.len() == s.len(),
        forall|k: int| 0 <= k < a.len() ==> 0 <= #[trigger] a[k] < s.len(),
        forall|k: int| 0 <= k < b.len() ==> 0 <= #[trigger] b[k] < s.len(),
        forall|i: int| a.contains(i) <==> b.contains(i),
    ensures
        run_completions(s, a, results) == run_completions(s, b, results),
{
    lemma_run_completions(s, a, results);
    lemma_run_completions(s, b, results);
    assert(run_completions(s, a, results) =~= run_completions(s, b, results));
}

/// A failed request affects no other target: every other target keeps its
/// phase, and the failure frees its slot exactly as a success would, so what
/// starts next and when is the same either way.
pub proof fn lemma_failure_isolated(s: Seq<Phase>, i: int, j: int)
    requires
        0 <= i < s.len(),
        0 <= j < s.len(),
        i != j,
        s[i] == Phase::InFlight,
    ensures
        completed_with(s, i, false)[j] == s[j],
        completed_with(s, i, false)[j] == completed_with(s, i, true)[j],
        in_flight_count(completed_with(s, i, false)) == in_flight_count(completed_with(s, i, true)),
        in_flight_count(completed_with(s, i, false)) + 1 == in_flight_count(s),
{
    lemma_count_update(s, i, Phase::Failed, |p: Phase| is_in_flight(p));
    lemma_count_update(s, i, Phase::Succeeded, |p: Phase| is_in_flight(p));
}

} // verus!
