use vstd::prelude::*;

verus! {

/// The set of thread ids held by a top-three array.
pub open spec fn set_of(a: [u32; 3]) -> Set<u32> {
    set![a[0], a[1], a[2]]
}

/// The three ids are pairwise distinct.
pub open spec fn distinct3(a: [u32; 3]) -> bool {
    a[0] != a[1] && a[0] != a[2] && a[1] != a[2]
}

/// Strictly increasing: the canonical form of a set of three ids.
pub open spec fn ascending3(a: [u32; 3]) -> bool {
    a[0] < a[1] && a[1] < a[2]
}

/// Two canonical arrays are equal exactly when they hold the same set.
pub proof fn lemma_canonical_unique(a: [u32; 3], b: [u32; 3])
    requires
        ascending3(a),
        ascending3(b),
    ensures
        (a == b) <==> (set_of(a) == set_of(b)),
{
    if set_of(a) == set_of(b) {
        assert(set_of(a).contains(a[0]) && set_of(a).contains(a[1]) && set_of(a).contains(a[2]));
        assert(set_of(b).contains(b[0]) && set_of(b).contains(b[1]) && set_of(b).contains(b[2]));
        assert(a =~= b);
    }
}

/// Orders three distinct ids ascending, giving the canonical form of their set.
pub fn canonical_three(a: [u32; 3]) -> (r: [u32; 3])
    requires
        distinct3(a),
    ensures
        ascending3(r),
        set_of(r) == set_of(a),
{
    let x = a[0];
    let y = a[1];
    let z = a[2];
    let (lo, hi) = if x < y { (x, y) } else { (y, x) };
    let r = if z < lo {
        [z, lo, hi]
    } else if z < hi {
        [lo, z, hi]
    } else {
        [lo, hi, z]
    };
    assert(set_of(r) =~= set_of(a));
    r
}

/// The logical processor given to the thread in slot `slot` of the canonical order.
pub open spec fn spec_core_for_slot(slot: int) -> int {
    2 * slot + 1
}

/// The logical processor given to the thread in slot `slot`: processors 1, 3
/// and 5, one per physical core where each core has two logical processors.
pub fn core_for_slot(slot: usize) -> (c: u32)
    requires
        slot < 3,
    ensures
        c as int == spec_core_for_slot(slot as int),
{
    (2 * slot + 1) as u32
}

/// The three ideal processors read back equal the assigned cores.
pub open spec fn matches_cores(observed: Seq<u32>) -> bool {
    forall|i: int| 0 <= i < 3 ==> observed[i] as int == spec_core_for_slot(i)
}

/// A stable controller reissues its assignment when the ideal processors read
/// back from the pinned threads differ from the assigned cores.
pub open spec fn correction_needed(v: ControllerView, observed: Seq<u32>) -> bool {
    v.stable && !matches_cores(observed)
}

/// `plan` gives each id of the canonical form of `ids` its slot's core.
pub open spec fn is_plan_for(plan: [(u32, u32); 3], ids: Set<u32>) -> bool {
    &&& ascending3([plan[0].0, plan[1].0, plan[2].0])
    &&& set_of([plan[0].0, plan[1].0, plan[2].0]) == ids
    &&& forall|i: int| 0 <= i < 3 ==> plan[i].1 as int == spec_core_for_slot(i)
}

/// What one poll decided, for the caller to act on.
#[derive(Clone, Copy, Debug, PartialEq, Eq, Structural)]
pub struct PollOutcome {
    /// The top-three set differs from the one seen at the previous poll.
    pub changed: bool,
    /// The new set is the one that is already pinned: it is stable again at once.
    pub reasserted: bool,
    /// The set has stayed unchanged for more than eight tenths of the settling period.
    pub settling_soon: bool,
    /// The set has settled: the caller now pins it (see `Controller::assignment`).
    pub commit: bool,
}

/// The controller's memory across polls, with sets in place of canonical arrays.
pub struct ControllerView {
    /// How long a set must stay on top before it is pinned.
    pub settling_period: nat,
    /// The top-three set of the last poll, if any poll was made.
    pub current: Option<Set<u32>>,
    /// The set that was last pinned, if any.
    pub assigned: Option<Set<u32>>,
    /// Time of the poll at which `current` last changed.
    pub last_changed: int,
    /// `current` is the pinned set.
    pub stable: bool,
    /// The settling-soon notice came for the present episode.
    pub notified: bool,
}

/// Time passed since `since`, counted as zero where the clock reads earlier.
pub open spec fn elapsed(now: int, since: int) -> int {
    if now >= since {
        now - since
    } else {
        0
    }
}

/// More than eight tenths of the settling period have passed.
pub open spec fn soon_reached(elapsed: int, settling_period: nat) -> bool {
    10 * elapsed > 8 * settling_period
}

/// A state the controller can be in.
pub open spec fn valid_view(v: ControllerView) -> bool {
    &&& v.settling_period > 0
    &&& v.stable <==> (v.current.is_some() && v.assigned == v.current)
}

/// One poll at time `now` that ranks the set `top` first.
pub open spec fn poll_step(s: ControllerView, now: int, top: Set<u32>) -> (ControllerView, PollOutcome) {
    if s.current != Some(top) {
        let stable = s.assigned == Some(top);
        (
            ControllerView { current: Some(top), last_changed: now, stable, notified: false, ..s },
            PollOutcome { changed: true, reasserted: stable, settling_soon: false, commit: false },
        )
    } else if s.stable {
        (s, PollOutcome { changed: false, reasserted: false, settling_soon: false, commit: false })
    } else {
        let e = elapsed(now, s.last_changed);
        let soon = !s.notified && soon_reached(e, s.settling_period);
        let commit = e >= s.settling_period;
        (
            ControllerView {
                assigned: if commit { s.current } else { s.assigned },
                stable: commit,
                notified: if commit { false } else { s.notified || soon },
                ..s
            },
            PollOutcome { changed: false, reasserted: false, settling_soon: soon, commit },
        )
    }
}

/// The view of an optional canonical array.
pub open spec fn opt_set(a: Option<[u32; 3]>) -> Option<Set<u32>> {
    match a {
        Some(x) => Some(set_of(x)),
        None => None,
    }
}

/// Decides, poll by poll, when the top three threads have settled and must be pinned.
pub struct Controller {
    settling_period: u64,
    current: Option<[u32; 3]>,
    assigned: Option<[u32; 3]>,
    last_changed: u64,
    stable: bool,
    notified: bool,
}

impl View for Controller {
    type V = ControllerView;

    closed spec fn view(&self) -> ControllerView {
        ControllerView {
            settling_period: self.settling_period as nat,
            current: opt_set(self.current),
            assigned: opt_set(self.assigned),
            last_changed: self.last_changed as int,
            stable: self.stable,
            notified: self.notified,
        }
    }
}

/// An optional array is absent or canonical.
pub open spec fn opt_canonical(a: Option<[u32; 3]>) -> bool {
    match a {
        Some(x) => ascending3(x),
        None => true,
    }
}

proof fn lemma_opt_set_eq(a: Option<[u32; 3]>, b: Option<[u32; 3]>)
    requires
        opt_canonical(a),
        opt_canonical(b),
    ensures
        (a == b) <==> (opt_set(a) == opt_set(b)),
{
    if let (Some(x), Some(y)) = (a, b) {
        lemma_canonical_unique(x, y);
    }
}

fn same_three(a: [u32; 3], b: [u32; 3]) -> (r: bool)
    ensures
        r == (a == b),
{
    let r = a[0] == b[0] && a[1] == b[1] && a[2] == b[2];
    if r {
        assert(a =~= b);
    }
    r
}

fn same_opt(a: Option<[u32; 3]>, b: [u32; 3]) -> (r: bool)
    ensures
        r == (a == Some(b)),
{
    match a {
        Some(x) => same_three(x, b),
        None => false,
    }
}

impl Controller {
    /// The controller's internal invariant.
    pub closed spec fn wf(&self) -> bool {
        &&& opt_canonical(self.current)
        &&& opt_canonical(self.assigned)
        &&& valid_view(self@)
    }

    /// A well-formed controller is in a valid state, so the laws about
    /// `poll_step` apply to it.
    pub proof fn lemma_wf_valid(&self)
        requires
            self.wf(),
        ensures
            valid_view(self@),
    {
    }

    /// A controller that has seen no poll yet; `now` is the time of attachment.
    pub fn new(settling_period: u64, now: u64) -> (c: Controller)
        requires
            settling_period > 0,
        ensures
            c.wf(),
            valid_view(c@),
            c@ == (ControllerView {
                settling_period: settling_period as nat,
                current: None,
                assigned: None,
                last_changed: now as int,
                stable: false,
                notified: false,
            }),
    {
        Controller {
            settling_period,
            current: None,
            assigned: None,
            last_changed: now,
            stable: false,
            notified: false,
        }
    }

    /// Takes the top three thread ids of the poll made at time `now` and
    /// decides whether the set changed, is about to settle, or has settled.
    pub fn observe(&mut self, now: u64, top: [u32; 3]) -> (o: PollOutcome)
        requires
            old(self).wf(),
            distinct3(top),
        ensures
            final(self).wf(),
            valid_view(final(self)@),
            (final(self)@, o) == poll_step(old(self)@, now as int, set_of(top)),
    {
        let c = canonical_three(top);
        proof {
            lemma_opt_set_eq(self.current, Some(c));
            lemma_opt_set_eq(self.assigned, Some(c));
        }
        if !same_opt(self.current, c) {
            let stable = same_opt(self.assigned, c);
            self.current = Some(c);
            self.last_changed = now;
            self.stable = stable;
            self.notified = false;
            PollOutcome { changed: true, reasserted: stable, settling_soon: false, commit: false }
        } else if self.stable {
            PollOutcome { changed: false, reasserted: false, settling_soon: false, commit: false }
        } else {
            let e: u64 = if now >= self.last_changed { now - self.last_changed } else { 0 };
            let soon = !self.notified && (e as u128) * 10 > (self.settling_period as u128) * 8;
            let commit = e >= self.settling_period;
            if commit {
                self.assigned = self.current;
                self.stable = true;
                self.notified = false;
            } else {
                self.notified = self.notified || soon;
            }
            PollOutcome { changed: false, reasserted: false, settling_soon: soon, commit }
        }
    }

    /// The pinned ids in canonical order, if a set has been pinned.
    pub fn pinned(&self) -> (r: Option<[u32; 3]>)
        requires
            self.wf(),
        ensures
            opt_canonical(r),
            opt_set(r) == self@.assigned,
    {
        self.assigned
    }

    /// The ideal-processor assignment owed to the pinned set: slot `i` of the
    /// canonical order goes to core `core_for_slot(i)`. `None` while nothing is
    /// stable, since then nothing is to be pinned or corrected.
    pub fn assignment(&self) -> (r: Option<[(u32, u32); 3]>)
        requires
            self.wf(),
        ensures
            r.is_some() == self@.stable,
            r matches Some(plan) ==> is_plan_for(plan, self@.assigned.unwrap()),
    {
        if self.stable {
            match self.assigned {
                Some(ids) => Some([
                    (ids[0], core_for_slot(0)),
                    (ids[1], core_for_slot(1)),
                    (ids[2], core_for_slot(2)),
                ]),
                None => None,
            }
        } else {
            None
        }
    }

    /// Whether the ideal processors read back from the pinned threads, in
    /// canonical order, have drifted from the assignment so that it must be
    /// issued again.
    pub fn needs_correction(&self, observed: [u32; 3]) -> (r: bool)
        requires
            self.wf(),
        ensures
            r == correction_needed(self@, observed@),
    {
        self.stable && !(observed[0] == core_for_slot(0) && observed[1] == core_for_slot(1)
            && observed[2] == core_for_slot(2))
    }
}

} // verus!
