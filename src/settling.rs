use vstd::prelude::*;

use crate::controller::{
    correction_needed, is_plan_for, matches_cores, poll_step, spec_core_for_slot, valid_view,
    ControllerView,
};

verus! {

/// Times that never go backwards.
pub open spec fn nondecreasing(times: Seq<int>) -> bool {
    forall|i: int, j: int| 0 <= i <= j < times.len() ==> times[i] <= times[j]
}

/// Feeds one poll per entry of `times`, each ranking the same set `top` first.
/// Returns the final state, the number of commits and the number of
/// settling-soon notices.
pub open spec fn run_same(s: ControllerView, times: Seq<int>, top: Set<u32>) -> (ControllerView, nat, nat)
    decreases times.len(),
{
    if times.len() == 0 {
        (s, 0, 0)
    } else {
        let (s1, o) = poll_step(s, times[0], top);
        let (sf, c, n) = run_same(s1, times.drop_first(), top);
        (sf, c + if o.commit { 1nat } else { 0nat }, n + if o.settling_soon { 1nat } else { 0nat })
    }
}

/// Once a set is stable, further polls that rank it first change nothing.
pub proof fn lemma_stable_run(s: ControllerView, times: Seq<int>, top: Set<u32>)
    requires
        valid_view(s),
        s.stable,
        s.current == Some(top),
    ensures
        run_same(s, times, top) == (s, 0nat, 0nat),
    decreases times.len(),
{
    if times.len() > 0 {
        lemma_stable_run(s, times.drop_first(), top);
    }
}

/// A set that is current but not yet stable is committed exactly once, at the
/// first poll that comes a full settling period after its last change, and the
/// settling-soon notice comes at most once, and not at all if it already came.
pub proof fn lemma_pending_run(s: ControllerView, times: Seq<int>, top: Set<u32>)
    requires
        valid_view(s),
        !s.stable,
        s.current == Some(top),
        nondecreasing(times),
        forall|i: int| 0 <= i < times.len() ==> times[i] >= s.last_changed,
    ensures
        ({
            let (sf, c, n) = run_same(s, times, top);
            &&& valid_view(sf)
            &&& sf.current == Some(top)
            &&& sf.last_changed == s.last_changed
            &&& n <= (if s.notified { 0nat } else { 1nat })
            &&& if times.len() > 0 && times.last() - s.last_changed >= s.settling_period {
                c == 1 && sf.stable && sf.assigned == Some(top)
            } else {
                c == 0 && !sf.stable && sf.assigned == s.assigned
            }
        }),
    decreases times.len(),
{
    if times.len() > 0 {
        let (s1, o) = poll_step(s, times[0], top);
        let rest = times.drop_first();
        if o.commit {
            lemma_stable_run(s1, rest, top);
            assert(times.last() >= times[0]);
        } else {
            assert(nondecreasing(rest));
            lemma_pending_run(s1, rest, top);
            if rest.len() > 0 {
                assert(rest.last() == times.last());
            }
        }
    }
}

/// A set that stays on top for polls spanning at least the settling period is
/// committed exactly once (not at all if it was already the pinned set), ends
/// stable and pinned, and the settling-soon notice comes at most once.
pub proof fn lemma_settled_set_commits_once(s: ControllerView, times: Seq<int>, top: Set<u32>)
    requires
        valid_view(s),
        times.len() >= 1,
        nondecreasing(times),
        times[0] >= s.last_changed,
        times.last() - times[0] >= s.settling_period,
    ensures
        ({
            let (sf, c, n) = run_same(s, times, top);
            &&& c == (if s.assigned == Some(top) { 0nat } else { 1nat })
            &&& sf.stable
            &&& sf.assigned == Some(top)
            &&& n <= 1
        }),
{
    let s1 = poll_step(s, times[0], top).0;
    let rest = times.drop_first();
    if s.current == Some(top) {
        if s.stable {
            lemma_stable_run(s, times, top);
        } else {
            lemma_pending_run(s, times, top);
        }
    } else if s1.stable {
        lemma_stable_run(s1, rest, top);
    } else {
        assert(nondecreasing(rest));
        lemma_pending_run(s1, rest, top);
        assert(rest.len() > 0);
        assert(rest.last() == times.last());
    }
}

/// A change of the top set restarts the settling timer from the poll that saw
/// it: polls of the new set within one settling period of that poll commit
/// nothing, so the set it replaced is not pinned either.
pub proof fn lemma_change_restarts_settling(s: ControllerView, times: Seq<int>, top: Set<u32>)
    requires
        valid_view(s),
        s.current != Some(top),
        s.assigned != Some(top),
        times.len() >= 1,
        nondecreasing(times),
        times.last() - times[0] < s.settling_period,
    ensures
        ({
            let (sf, c, n) = run_same(s, times, top);
            &&& c == 0
            &&& !sf.stable
            &&& sf.assigned == s.assigned
            &&& sf.current == Some(top)
            &&& sf.last_changed == times[0]
        }),
{
    let s1 = poll_step(s, times[0], top).0;
    let rest = times.drop_first();
    assert(nondecreasing(rest));
    lemma_pending_run(s1, rest, top);
    if rest.len() > 0 {
        assert(rest.last() == times.last());
    }
}

/// When the pinned set comes back on top after another set displaced it, it is
/// stable at once: no new settling period and no new commit.
pub proof fn lemma_pinned_set_returns_stable(s: ControllerView, now: int, top: Set<u32>)
    requires
        valid_view(s),
        s.assigned == Some(top),
        s.current != Some(top),
    ensures
        ({
            let (s1, o) = poll_step(s, now, top);
            &&& s1.stable
            &&& o.reasserted
            &&& !o.commit
            &&& s1.assigned == s.assigned
        }),
{
}

/// The settling-soon notice of a set that is current and not yet stable
/// comes exactly when more than eight tenths of the settling period have
/// passed since its last change, unless it already came.
pub proof fn lemma_settling_soon_gate(s: ControllerView, now: int, top: Set<u32>)
    requires
        valid_view(s),
        s.current == Some(top),
        !s.stable,
        now >= s.last_changed,
    ensures
        poll_step(s, now, top).1.settling_soon == (!s.notified && 10 * (now - s.last_changed) > 8
            * s.settling_period),
{
}

/// However long a set stays on top, the settling-soon notice comes at most once.
pub proof fn lemma_settling_soon_at_most_once(s: ControllerView, times: Seq<int>, top: Set<u32>)
    requires
        valid_view(s),
        nondecreasing(times),
        forall|i: int| 0 <= i < times.len() ==> times[i] >= s.last_changed,
    ensures
        run_same(s, times, top).2 <= 1,
{
    if times.len() > 0 {
        let s1 = poll_step(s, times[0], top).0;
        let rest = times.drop_first();
        if s.current == Some(top) {
            if s.stable {
                lemma_stable_run(s, times, top);
            } else {
                lemma_pending_run(s, times, top);
            }
        } else if s1.stable {
            lemma_stable_run(s1, rest, top);
        } else {
            assert(nondecreasing(rest));
            lemma_pending_run(s1, rest, top);
        }
    }
}

/// A poll commits only a set that was already current before it, that is not
/// the pinned set, and that has stayed unchanged for a full settling period
/// since the poll that last changed it; the commit pins exactly that set.
/// Polls that change the set never commit.
pub proof fn lemma_commit_only_after_settling(s: ControllerView, now: int, top: Set<u32>)
    requires
        valid_view(s),
    ensures
        ({
            let (s1, o) = poll_step(s, now, top);
            o.commit ==> {
                &&& s.current == Some(top)
                &&& s.assigned != Some(top)
                &&& now - s.last_changed >= s.settling_period
                &&& s1.assigned == Some(top)
                &&& s1.stable
            }
        }),
        poll_step(s, now, top).1.changed ==> !poll_step(s, now, top).1.commit,
        !poll_step(s, now, top).1.commit ==> poll_step(s, now, top).0.assigned == s.assigned,
{
}

/// Every poll keeps the controller in a valid state.
pub proof fn lemma_poll_preserves_validity(s: ControllerView, now: int, top: Set<u32>)
    requires
        valid_view(s),
    ensures
        valid_view(poll_step(s, now, top).0),
{
}

/// The threads' ideal processors after each pair of `plan` was issued.
pub open spec fn apply_plan(ideals: Map<u32, u32>, plan: [(u32, u32); 3]) -> Map<u32, u32> {
    ideals.insert(plan[0].0, plan[0].1).insert(plan[1].0, plan[1].1).insert(plan[2].0, plan[2].1)
}

/// The ideal processors of the threads of `plan`, in its order.
pub open spec fn read_back(ideals: Map<u32, u32>, plan: [(u32, u32); 3]) -> Seq<u32> {
    seq![ideals[plan[0].0], ideals[plan[1].0], ideals[plan[2].0]]
}

/// Drift correction: once stable, an ideal processor changed from outside on
/// any pinned thread calls for the assignment again; issuing it restores every
/// pinned thread, after which nothing more is called for, and issuing it a
/// second time changes nothing.
pub proof fn lemma_drift_correction(
    s: ControllerView,
    plan: [(u32, u32); 3],
    ideals: Map<u32, u32>,
    slot: int,
    other: u32,
)
    requires
        valid_view(s),
        s.stable,
        is_plan_for(plan, s.assigned.unwrap()),
        0 <= slot < 3,
        other != plan[slot].1,
    ensures
        correction_needed(s, read_back(ideals.insert(plan[slot].0, other), plan)),
        !correction_needed(s, read_back(apply_plan(ideals, plan), plan)),
        apply_plan(apply_plan(ideals, plan), plan) == apply_plan(ideals, plan),
{
    let m = ideals.insert(plan[slot].0, other);
    assert(read_back(m, plan)[slot] == other);
    assert(plan[slot].1 as int == spec_core_for_slot(slot));
    assert(!matches_cores(read_back(m, plan)));
    assert(apply_plan(apply_plan(ideals, plan), plan) =~= apply_plan(ideals, plan));
}

} // verus!
