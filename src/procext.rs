use vstd::prelude::*;

use crate::controller::distinct3;
use crate::errors::{Error, HcbResult};

verus! {

/// One reading of a live thread: its id and its cumulative cycle count, or
/// `None` where the thread could not be opened or read on this poll.
#[derive(Clone, Copy, Debug, PartialEq, Eq, Structural)]
pub struct ThreadSample {
    pub id: u32,
    pub cycles: Option<u64>,
}

/// A tracked thread: its cumulative cycle count at the last poll and the
/// cycles it used since the poll before.
#[derive(Clone, Copy, Debug, PartialEq, Eq, Structural)]
pub struct MonitoredThread {
    pub id: u32,
    pub cycles: u64,
    pub delta: u64,
}

/// Cycles used between two readings; a reading below the previous one (a
/// counter reset) counts as no activity.
pub open spec fn cycles_since(new_cycles: u64, old_cycles: u64) -> u64 {
    if new_cycles >= old_cycles {
        (new_cycles - old_cycles) as u64
    } else {
        0
    }
}

impl MonitoredThread {
    /// A thread seen for the first time: no activity is known for it yet.
    pub fn new(id: u32, cycles: u64) -> (t: MonitoredThread)
        ensures
            t == (MonitoredThread { id, cycles, delta: 0 }),
    {
        MonitoredThread { id, cycles, delta: 0 }
    }

    /// Takes a new reading and returns the cycles used since the previous one.
    pub fn update(&mut self, new_cycles: u64) -> (d: u64)
        ensures
            d == cycles_since(new_cycles, old(self).cycles),
            *final(self) == (MonitoredThread { id: old(self).id, cycles: new_cycles, delta: d }),
    {
        self.delta = if new_cycles >= self.cycles { new_cycles - self.cycles } else { 0 };
        self.cycles = new_cycles;
        self.delta
    }

    pub fn id(&self) -> (r: u32)
        ensures
            r == self.id,
    {
        self.id
    }

    pub fn cycles(&self) -> (r: u64)
        ensures
            r == self.cycles,
    {
        self.cycles
    }

    pub fn delta(&self) -> (r: u64)
        ensures
            r == self.delta,
    {
        self.delta
    }
}

/// No id occurs twice among the records.
pub open spec fn unique_ids(recs: Seq<MonitoredThread>) -> bool {
    forall|i: int, j: int| 0 <= i < j < recs.len() ==> recs[i].id != recs[j].id
}

/// No id occurs twice among the samples.
pub open spec fn distinct_samples(samples: Seq<ThreadSample>) -> bool {
    forall|i: int, j: int| 0 <= i < j < samples.len() ==> samples[i].id != samples[j].id
}

/// The record tracked for `id`, if any.
pub open spec fn lookup(recs: Seq<MonitoredThread>, id: u32) -> Option<MonitoredThread> {
    if exists|i: int| 0 <= i < recs.len() && recs[i].id == id {
        Some(recs[choose|i: int| 0 <= i < recs.len() && recs[i].id == id])
    } else {
        None
    }
}

/// The record for a thread read at `cycles`, given the records of the previous poll.
pub open spec fn refreshed(prev: Seq<MonitoredThread>, id: u32, cycles: u64) -> MonitoredThread {
    match lookup(prev, id) {
        Some(r) => MonitoredThread { id, cycles, delta: cycles_since(cycles, r.cycles) },
        None => MonitoredThread { id, cycles, delta: 0 },
    }
}

/// The records after a poll: one per sample that could be read, in the
/// order of enumeration; threads not enumerated or not readable are dropped.
pub open spec fn refresh_all(prev: Seq<MonitoredThread>, samples: Seq<ThreadSample>) -> Seq<MonitoredThread>
    decreases samples.len(),
{
    if samples.len() == 0 {
        Seq::empty()
    } else {
        let rest = refresh_all(prev, samples.drop_last());
        match samples.last().cycles {
            Some(c) => rest.push(refreshed(prev, samples.last().id, c)),
            None => rest,
        }
    }
}

/// Record `a` ranks before record `b`: more activity, or equal activity and
/// earlier in the order of enumeration.
pub open spec fn ranks_before(recs: Seq<MonitoredThread>, a: int, b: int) -> bool {
    recs[a].delta > recs[b].delta || (recs[a].delta == recs[b].delta && a < b)
}

/// `order` lists every record index once, most active first, ties kept in
/// the order of enumeration.
pub open spec fn is_activity_order(recs: Seq<MonitoredThread>, order: Seq<usize>) -> bool {
    &&& order.len() == recs.len()
    &&& forall|i: int| 0 <= i < order.len() ==> order[i] < recs.len()
    &&& forall|k: usize| k < recs.len() ==> #[trigger] order.contains(k)
    &&& forall|i: int, j: int|
        0 <= i < j < order.len() ==> ranks_before(recs, order[i] as int, order[j] as int)
}

/// The ids of the records in the given order.
pub open spec fn ids_in_order(recs: Seq<MonitoredThread>, order: Seq<usize>) -> Seq<u32> {
    order.map_values(|k: usize| recs[k as int].id)
}

/// Indices of `threads`, most active first; ties keep the order of enumeration.
pub fn rank_by_activity(threads: &Vec<MonitoredThread>) -> (order: Vec<usize>)
    ensures
        is_activity_order(threads@, order@),
{
    let ghost recs = threads@;
    let mut order: Vec<usize> = Vec::new();
    let mut k: usize = 0;
    while k < threads.len()
        invariant
            k <= recs.len(),
            recs == threads@,
            order.len() == k,
            forall|i: int| 0 <= i < order.len() ==> order[i] < k,
            forall|m: usize| m < k ==> #[trigger] order@.contains(m),
            forall|i: int, j: int|
                0 <= i < j < order.len() ==> ranks_before(recs, order[i] as int, order[j] as int),
        decreases recs.len() - k,
    {
        let d = threads[k].delta;
        let mut p: usize = 0;
        while p < order.len() && threads[order[p]].delta >= d
            invariant
                p <= order.len(),
                order.len() == k,
                k < recs.len(),
                recs == threads@,
                forall|i: int| 0 <= i < order.len() ==> order[i] < k,
                forall|i: int| 0 <= i < p ==> recs[order[i] as int].delta >= d,
            decreases order.len() - p,
        {
            p += 1;
        }
        let ghost before = order@;
        proof {
            assert forall|i: int| p <= i < before.len() implies recs[before[i] as int].delta < d by {
                if i > p {
                    assert(ranks_before(recs, before[p as int] as int, before[i] as int));
                }
            }
        }
        order.insert(p, k);
        proof {
            let after = order@;
            assert(after == before.insert(p as int, k));
            assert forall|i: int, j: int|
                0 <= i < j < after.len() implies ranks_before(recs, after[i] as int, after[j] as int) by {
                if j < p {
                } else if j == p {
                } else if i < p {
                    assert(after[j] == before[j - 1]);
                } else if i == p {
                    assert(after[j] == before[j - 1]);
                } else {
                    assert(after[i] == before[i - 1]);
                    assert(after[j] == before[j - 1]);
                }
            }
            assert forall|m: usize| m < k + 1 implies #[trigger] after.contains(m) by {
                if m == k {
                    assert(after[p as int] == k);
                } else {
                    assert(before.contains(m));
                    let i = choose|i: int| 0 <= i < before.len() && before[i] == m;
                    if i < p {
                        assert(after[i] == m);
                    } else {
                        assert(after[i + 1] == m);
                    }
                }
            }
        }
        k += 1;
    }
    order
}

/// Position of the record tracked for `id`, if any.
fn find_thread(threads: &Vec<MonitoredThread>, id: u32) -> (r: Option<usize>)
    requires
        unique_ids(threads@),
    ensures
        match r {
            Some(p) => p < threads.len() && lookup(threads@, id) == Some(threads@[p as int]),
            None => lookup(threads@, id) is None,
        },
{
    let mut p: usize = 0;
    while p < threads.len()
        invariant
            p <= threads.len(),
            unique_ids(threads@),
            forall|i: int| 0 <= i < p ==> threads@[i].id != id,
        decreases threads.len() - p,
    {
        if threads[p].id == id {
            proof {
                assert(threads@[p as int].id == id);
                let q = choose|i: int| 0 <= i < threads@.len() && threads@[i].id == id;
                if q < p as int {
                    assert(threads@[q].id != threads@[p as int].id);
                } else if q > p as int {
                    assert(threads@[p as int].id != threads@[q].id);
                }
            }
            return Some(p);
        }
        p += 1;
    }
    None
}

/// Every record made from `samples` carries the id of one of them.
proof fn lemma_refresh_ids(prev: Seq<MonitoredThread>, samples: Seq<ThreadSample>)
    ensures
        forall|a: int| 0 <= a < refresh_all(prev, samples).len() ==>
            exists|j: int| 0 <= j < samples.len() && samples[j].id == #[trigger] refresh_all(prev, samples)[a].id,
    decreases samples.len(),
{
    if samples.len() > 0 {
        let init = samples.drop_last();
        lemma_refresh_ids(prev, init);
        let rest = refresh_all(prev, init);
        assert forall|a: int| 0 <= a < refresh_all(prev, samples).len() implies
            exists|j: int| 0 <= j < samples.len() && samples[j].id == #[trigger] refresh_all(prev, samples)[a].id by {
            if a < rest.len() {
                assert(refresh_all(prev, samples)[a] == rest[a]);
                let j = choose|j: int| 0 <= j < init.len() && init[j].id == rest[a].id;
                assert(samples[j] == init[j]);
            } else {
                assert(samples[samples.len() - 1].id == refresh_all(prev, samples)[a].id);
            }
        }
    }
}

/// The tracked threads of a process and their ranking by recent activity.
pub struct ProcessView {
    /// One record per live, readable thread, in the order of enumeration.
    pub threads: Seq<MonitoredThread>,
    /// Indices of `threads`, most active first.
    pub order: Seq<usize>,
    /// The ids of `threads` in the order of `order`.
    pub ranking: Seq<u32>,
}

/// The snapshot is consistent: ids unique, ranking complete and sorted.
pub open spec fn valid_snapshot(v: ProcessView) -> bool {
    &&& v.threads.len() <= usize::MAX
    &&& unique_ids(v.threads)
    &&& is_activity_order(v.threads, v.order)
    &&& v.ranking == ids_in_order(v.threads, v.order)
}

/// Activity tracker of one process.
pub struct MonitoredProcess {
    threads: Vec<MonitoredThread>,
    order: Vec<usize>,
    ranking: Vec<u32>,
}

impl View for MonitoredProcess {
    type V = ProcessView;

    closed spec fn view(&self) -> ProcessView {
        ProcessView { threads: self.threads@, order: self.order@, ranking: self.ranking@ }
    }
}

impl MonitoredProcess {
    pub open spec fn wf(&self) -> bool {
        valid_snapshot(self@)
    }

    /// Attaches to a process: fails with `NoProcess` if it is not running or
    /// if not one of its threads could be read on the first poll, else tracks
    /// the threads of that poll.
    pub fn new(running: bool, samples: &Vec<ThreadSample>) -> (r: HcbResult<MonitoredProcess>)
        requires
            distinct_samples(samples@),
        ensures
            match r {
                Ok(p) => running && refresh_all(Seq::empty(), samples@).len() > 0 && p.wf()
                    && p@.threads == refresh_all(Seq::empty(), samples@),
                Err(e) => (!running || refresh_all(Seq::empty(), samples@).len() == 0) && e
                    == Error::NoProcess,
            },
    {
        let mut mproc = MonitoredProcess { threads: Vec::new(), order: Vec::new(), ranking: Vec::new() };
        proof {
            assert(mproc@.order =~= Seq::<usize>::empty());
            assert(ids_in_order(mproc@.threads, mproc@.order) =~= mproc@.ranking);
        }
        match mproc.update(running, samples) {
            Ok(()) => {
                if mproc.threads.len() == 0 {
                    Err(Error::NoProcess)
                } else {
                    Ok(mproc)
                }
            },
            Err(e) => Err(e),
        }
    }

    /// Refreshes the snapshot from a new poll. `running` says whether the process
    /// is still alive; `samples` are its live threads in the order of enumeration.
    /// A process that has exited clears the snapshot and gives `NoProcess`; one
    /// that is alive with no readable thread is not taken for exited.
    pub fn update(&mut self, running: bool, samples: &Vec<ThreadSample>) -> (r: HcbResult<()>)
        requires
            old(self).wf(),
            distinct_samples(samples@),
        ensures
            final(self).wf(),
            running ==> r is Ok && final(self)@.threads == refresh_all(old(self)@.threads, samples@),
            !running ==> r == Err::<(), Error>(Error::NoProcess) && final(self)@.threads.len() == 0,
    {
        if !running {
            self.threads = Vec::new();
            self.order = Vec::new();
            self.ranking = Vec::new();
            proof {
                assert(self@.order =~= Seq::<usize>::empty());
                assert(ids_in_order(self@.threads, self@.order) =~= self@.ranking);
            }
            return Err(Error::NoProcess);
        }
        let ghost prev = self.threads@;
        let mut fresh: Vec<MonitoredThread> = Vec::new();
        let mut i: usize = 0;
        while i < samples.len()
            invariant
                i <= samples.len(),
                prev == self.threads@,
                unique_ids(prev),
                distinct_samples(samples@),
                fresh@ == refresh_all(prev, samples@.take(i as int)),
                unique_ids(fresh@),
            decreases samples.len() - i,
        {
            let sample = samples[i];
            proof {
                assert(samples@.take(i as int + 1).drop_last() =~= samples@.take(i as int));
                lemma_refresh_ids(prev, samples@.take(i as int));
            }
            match sample.cycles {
                Some(c) => {
                    let rec = match find_thread(&self.threads, sample.id) {
                        Some(p) => {
                            let mut t = self.threads[p];
                            t.update(c);
                            t
                        }
                        None => MonitoredThread::new(sample.id, c),
                    };
                    proof {
                        let f = fresh@;
                        assert forall|a: int| 0 <= a < f.len() implies f[a].id != sample.id by {
                            let j = choose|j: int| 0 <= j < i && samples@.take(i as int)[j].id == #[trigger] f[a].id;
                            assert(samples@[j].id == f[a].id);
                        }
                    }
                    fresh.push(rec);
                }
                None => {}
            }
            i += 1;
        }
        proof {
            assert(samples@.take(samples.len() as int) =~= samples@);
        }
        let order = rank_by_activity(&fresh);
        let mut ranking: Vec<u32> = Vec::new();
        let mut k: usize = 0;
        while k < order.len()
            invariant
                k <= order.len(),
                is_activity_order(fresh@, order@),
                ranking@ == ids_in_order(fresh@, order@.take(k as int)),
            decreases order.len() - k,
        {
            ranking.push(fresh[order[k]].id);
            proof {
                assert(ids_in_order(fresh@, order@.take(k as int + 1)) =~= ranking@);
            }
            k += 1;
        }
        proof {
            assert(order@.take(order.len() as int) =~= order@);
        }
        self.threads = fresh;
        self.order = order;
        self.ranking = ranking;
        Ok(())
    }

    /// The tracked threads, in the order of enumeration.
    pub fn threads(&self) -> (r: &[MonitoredThread])
        ensures
            r@ == self@.threads,
    {
        self.threads.as_slice()
    }

    /// The tracked thread ids, most active first.
    pub fn thread_ids_by_activity(&self) -> (r: &[u32])
        ensures
            r@ == self@.ranking,
    {
        self.ranking.as_slice()
    }

    /// The record of thread `id`, if it is tracked.
    pub fn thread(&self, id: u32) -> (r: Option<MonitoredThread>)
        requires
            self.wf(),
        ensures
            r == lookup(self@.threads, id),
    {
        match find_thread(&self.threads, id) {
            Some(p) => Some(self.threads[p]),
            None => None,
        }
    }

    /// The `n` most active thread ids, or `None` while fewer are tracked.
    pub fn top_n(&self, n: usize) -> (r: Option<Vec<u32>>)
        requires
            self.wf(),
        ensures
            match r {
                Some(v) => n <= self@.ranking.len() && v@ == self@.ranking.take(n as int),
                None => n > self@.ranking.len(),
            },
    {
        if n > self.ranking.len() {
            return None;
        }
        let mut v: Vec<u32> = Vec::new();
        let mut k: usize = 0;
        while k < n
            invariant
                k <= n,
                n <= self.ranking.len(),
                v@ == self@.ranking.take(k as int),
            decreases n - k,
        {
            v.push(self.ranking[k]);
            proof {
                assert(v@ =~= self@.ranking.take(k as int + 1));
            }
            k += 1;
        }
        Some(v)
    }

    /// The three most active thread ids, or `None` while fewer than three are tracked.
    pub fn top_three(&self) -> (r: Option<[u32; 3]>)
        requires
            self.wf(),
        ensures
            match r {
                Some(a) => 3 <= self@.ranking.len() && a@ == self@.ranking.take(3) && distinct3(a),
                None => self@.ranking.len() < 3,
            },
    {
        if self.ranking.len() < 3 {
            return None;
        }
        let a = [self.ranking[0], self.ranking[1], self.ranking[2]];
        proof {
            let v = self@;
            assert(a@ =~= v.ranking.take(3));
            assert forall|i: int, j: int| 0 <= i < j < 3 implies v.ranking[i] != v.ranking[j] by {
                assert(ranks_before(v.threads, v.order[i] as int, v.order[j] as int));
                let x = v.order[i] as int;
                let y = v.order[j] as int;
                if x < y {
                    assert(v.threads[x].id != v.threads[y].id);
                } else {
                    assert(v.threads[y].id != v.threads[x].id);
                }
            }
        }
        Some(a)
    }
}

proof fn lemma_orders_agree_upto(recs: Seq<MonitoredThread>, o1: Seq<usize>, o2: Seq<usize>, n: int)
    requires
        is_activity_order(recs, o1),
        is_activity_order(recs, o2),
        0 <= n <= o1.len(),
    ensures
        forall|j: int| 0 <= j < n ==> o1[j] == o2[j],
    decreases n,
{
    if n > 0 {
        lemma_orders_agree_upto(recs, o1, o2, n - 1);
        let i = n - 1;
        let x = o1[i];
        let y = o2[i];
        if x != y {
            assert(o2.contains(x));
            let j = choose|j: int| 0 <= j < o2.len() && o2[j] == x;
            assert(o1.contains(y));
            let k = choose|k: int| 0 <= k < o1.len() && o1[k] == y;
            if j < i {
                assert(ranks_before(recs, o1[j] as int, o1[i] as int));
            } else if k < i {
                assert(o2[k] == y);
                assert(ranks_before(recs, o2[k] as int, o2[i] as int));
            } else {
                assert(ranks_before(recs, o2[i] as int, o2[j] as int));
                assert(ranks_before(recs, o1[i] as int, o1[k] as int));
            }
        }
    }
}

/// The ranking is a deterministic stable sort: for given records there is
/// exactly one order that puts more activity first and keeps equal activity
/// in the order of enumeration, so any two rankings of them agree.
pub proof fn lemma_ranking_deterministic(recs: Seq<MonitoredThread>, o1: Seq<usize>, o2: Seq<usize>)
    requires
        is_activity_order(recs, o1),
        is_activity_order(recs, o2),
    ensures
        o1 == o2,
        ids_in_order(recs, o1) == ids_in_order(recs, o2),
{
    lemma_orders_agree_upto(recs, o1, o2, o1.len() as int);
    assert(o1 =~= o2);
}

/// In a consistent snapshot the ranking holds exactly the ids of the tracked
/// threads, each once.
pub proof fn lemma_ranking_holds_tracked_ids(v: ProcessView)
    requires
        valid_snapshot(v),
    ensures
        v.ranking.len() == v.threads.len(),
        v.ranking.no_duplicates(),
        forall|id: u32| #[trigger] v.ranking.contains(id) <==> lookup(v.threads, id) is Some,
{
    assert forall|i: int, j: int| 0 <= i < v.ranking.len() && 0 <= j < v.ranking.len() && i != j
        implies v.ranking[i] != v.ranking[j] by {
        let (a, b) = if i < j { (i, j) } else { (j, i) };
        assert(ranks_before(v.threads, v.order[a] as int, v.order[b] as int));
        let x = v.order[a] as int;
        let y = v.order[b] as int;
        if x < y {
            assert(v.threads[x].id != v.threads[y].id);
        } else {
            assert(v.threads[y].id != v.threads[x].id);
        }
    }
    assert forall|id: u32| #[trigger] v.ranking.contains(id) <==> lookup(v.threads, id) is Some by {
        if v.ranking.contains(id) {
            let i = choose|i: int| 0 <= i < v.ranking.len() && v.ranking[i] == id;
            assert(v.threads[v.order[i] as int].id == id);
        }
        if lookup(v.threads, id) is Some {
            assert(exists|k: int| 0 <= k < v.threads.len() && v.threads[k].id == id);
            let k = choose|k: int| 0 <= k < v.threads.len() && v.threads[k].id == id;
            let ku = k as usize;
            assert(ku < v.threads.len());
            assert(v.order.contains(ku));
            let i = choose|i: int| 0 <= i < v.order.len() && v.order[i] == ku;
            assert(v.order[i] as int == k);
            assert(v.ranking[i] == v.threads[v.order[i] as int].id);
        }
    }
}

} // verus!
