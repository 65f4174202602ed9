//! Filling the free slots of the queue.

use vstd::prelude::*;
use crate::queue::job::{Job, JobStatus};
use crate::queue::{
    at_rest, closing, job_at, job_waits, law_jobs_wait_in_order, waiting, waiting_count, waits,
    Queue, QueueState,
};

verus! {

/// How many more jobs may run.
pub open spec fn slots(active: Set<u64>, want: int) -> int {
    if active.len() < want {
        want - active.len()
    } else {
        0
    }
}

/// The jobs that start next: those that wait longest, as many as may run.
pub open spec fn next_up(q: Queue, want: int) -> Seq<u64> {
    let w = waiting(q.jobs);
    let n = slots(q.active, want);
    if n < w.len() {
        w.take(n)
    } else {
        w
    }
}

/// Jobs, with those of the given ids running.
pub open spec fn set_running(jobs: Seq<Job>, ids: Seq<u64>) -> Seq<Job> {
    jobs.map_values(
        |j: Job|
            if ids.contains(j.id) {
                Job { status: JobStatus::Running, ..j }
            } else {
                j
            },
    )
}

/// A queue with its free slots filled.
pub open spec fn filled(q: Queue, want: int) -> Queue {
    Queue {
        jobs: set_running(q.jobs, next_up(q, want)),
        active: q.active.union(next_up(q, want).to_set()),
        ..q
    }
}

/// A queue that was started, with its free slots filled; once nothing is left
/// it stops and says what came of it.
pub open spec fn pumped(q: Queue, want: int) -> Queue {
    if !q.running {
        q
    } else {
        let f = filled(q, want);
        if at_rest(f) {
            Queue { running: false, summary: Some(closing(f.jobs)), ..f }
        } else {
            f
        }
    }
}

/// The jobs that start when a queue is pumped.
pub open spec fn started(q: Queue, want: int) -> Seq<u64> {
    if q.running {
        next_up(q, want)
    } else {
        Seq::empty()
    }
}

/// Whether pumping a queue brings it to its end.
pub open spec fn comes_to_rest(q: Queue, want: int) -> bool {
    q.running && at_rest(filled(q, want))
}

/// A job is found by its id.
pub proof fn lemma_found(q: Queue, i: int)
    requires
        q.wf(),
        0 <= i < q.jobs.len(),
    ensures
        job_at(q.jobs, q.jobs[i].id) == i,
{
    lemma_first(q.jobs, i, i);
}

proof fn lemma_first(v: Seq<Job>, i: int, n: int)
    requires
        0 <= i < v.len(),
        n == i,
        forall|a: int, b: int| 0 <= a < b < v.len() ==> (#[trigger] v[a]).id != (#[trigger] v[b]).id,
    ensures
        job_at(v, v[i].id) == i,
    decreases n,
{
    if i > 0 {
        assert(v[0].id != v[i].id);
        let w = v.skip(1);
        assert forall|a: int, b: int| 0 <= a < b < w.len() implies (#[trigger] w[a]).id != (
        #[trigger] w[b]).id by {
            assert(w[a] == v[a + 1] && w[b] == v[b + 1]);
        }
        assert(w[i - 1] == v[i]);
        lemma_first(w, i - 1, n - 1);
    }
}

/// What waits is a job of the queue that waits.
pub proof fn lemma_waiting(v: Seq<Job>, k: int) -> (i: int)
    requires
        0 <= k < waiting(v).len(),
    ensures
        0 <= i < v.len(),
        v[i].id == waiting(v)[k],
        waits(v[i]),
    decreases v.len(),
{
    let front = waiting(v.drop_last());
    if k < front.len() {
        let i = lemma_waiting(v.drop_last(), k);
        assert(v.drop_last()[i] == v[i]);
        i
    } else {
        v.len() - 1
    }
}

/// A queue has something waiting exactly when some job waits.
pub proof fn lemma_nothing_waits(v: Seq<Job>)
    ensures
        waiting(v).len() == 0 <==> forall|i: int| 0 <= i < v.len() ==> !waits(#[trigger] v[i]),
    decreases v.len(),
{
    if v.len() > 0 {
        let front = v.drop_last();
        lemma_nothing_waits(front);
        if waiting(v).len() == 0 {
            assert forall|i: int| 0 <= i < v.len() implies !waits(#[trigger] v[i]) by {
                if i < front.len() {
                    assert(front[i] == v[i]);
                }
            }
        }
        if forall|i: int| 0 <= i < v.len() ==> !waits(#[trigger] v[i]) {
            assert(!waits(v[v.len() - 1]));
            assert forall|i: int| 0 <= i < front.len() implies !waits(#[trigger] front[i]) by {
                assert(front[i] == v[i]);
            }
        }
    }
}

/// The first job that waits, set running, no longer waits, and the others do.
proof fn lemma_first_started(q: Queue, i: int, job: Job)
    requires
        q.wf(),
        waiting(q.jobs).len() > 0,
        0 <= i < q.jobs.len(),
        q.jobs[i].id == waiting(q.jobs)[0],
        !waits(job),
    ensures
        waiting(q.jobs.update(i, job)) == waiting(q.jobs).skip(1),
    decreases q.jobs.len(),
{
    let v = q.jobs;
    let front = v.drop_last();
    let w = v.update(i, job);
    if waiting(front).len() > 0 {
        assert(waiting(v)[0] == waiting(front)[0]);
        let k = lemma_waiting(front, 0);
        assert(front[k] == v[k]);
        assert(i == k) by {
            if i < k {
                assert(v[i].id != v[k].id);
            } else if k < i {
                assert(v[k].id != v[i].id);
            }
        }
        assert(w.drop_last() =~= front.update(i, job));
        assert(w.last() == v.last());
        assert forall|j: int| 0 <= j < front.len() implies #[trigger] front[j] == v[j] by {}
        lemma_first_started(Queue { jobs: front, ..q }, i, job);
        assert(waiting(w) =~= waiting(v).skip(1));
    } else {
        assert(i == v.len() - 1) by {
            if i < v.len() - 1 {
                assert(v[i].id != v[v.len() - 1].id);
            }
        }
        assert(w.drop_last() =~= front);
        assert(waiting(w) =~= waiting(v).skip(1));
    }
}

/// What starting a number of the waiting jobs makes of a queue.
proof fn lemma_some_started(q: Queue, m: int)
    requires
        q.wf(),
        0 <= m <= waiting(q.jobs).len(),
    ensures
        ({
            let ids = waiting(q.jobs).take(m);
            let after = Queue {
                jobs: set_running(q.jobs, ids),
                active: q.active.union(ids.to_set()),
                ..q
            };
            &&& after.wf()
            &&& waiting(after.jobs) == waiting(q.jobs).skip(m)
            &&& after.active.len() == q.active.len() + m
        }),
    decreases m,
{
    let all = waiting(q.jobs);
    let ids = all.take(m);
    let after = Queue {
        jobs: set_running(q.jobs, ids),
        active: q.active.union(ids.to_set()),
        ..q
    };
    if m == 0 {
        assert(ids =~= Seq::<u64>::empty());
        assert(after.jobs =~= q.jobs);
        assert(after.active =~= q.active);
        assert(all.skip(0) =~= all);
    } else {
        lemma_some_started(q, m - 1);
        let some = all.take(m - 1);
        let before = Queue {
            jobs: set_running(q.jobs, some),
            active: q.active.union(some.to_set()),
            ..q
        };
        let id = all[m - 1];
        assert(waiting(before.jobs)[0] == id);
        let i = lemma_waiting(before.jobs, 0);
        let job = Job { status: JobStatus::Running, ..before.jobs[i] };
        lemma_first_started(before, i, job);
        assert(ids =~= some.push(id));
        assert forall|x: u64| ids.contains(x) <==> some.contains(x) || x == id by {
            if some.contains(x) {
                let k = some.index_of(x);
                assert(ids[k] == x);
            }
            if x == id {
                assert(ids[m - 1] == x);
            }
            if ids.contains(x) {
                let k = ids.index_of(x);
                if k < m - 1 {
                    assert(some[k] == x);
                }
            }
        }
        assert(after.jobs =~= before.jobs.update(i, job)) by {
            assert forall|k: int| 0 <= k < q.jobs.len() implies #[trigger] after.jobs[k]
                == before.jobs.update(i, job)[k] by {
                if k != i {
                    assert(before.jobs[k].id != before.jobs[i].id) by {
                        if k < i {
                            assert(before.jobs[k].id != before.jobs[i].id);
                        } else {
                            assert(before.jobs[i].id != before.jobs[k].id);
                        }
                    }
                    assert(q.jobs[k].id == before.jobs[k].id);
                    assert(ids.contains(q.jobs[k].id) == some.contains(q.jobs[k].id));
                } else {
                    assert(q.jobs[i].id == before.jobs[i].id);
                    assert(ids.contains(q.jobs[i].id));
                }
            }
        }
        assert(!before.active.contains(id));
        assert(after.active =~= before.active.insert(id));
        assert(all.skip(m - 1).skip(1) =~= all.skip(m));
        assert forall|k: int| 0 <= k < after.jobs.len() && waits(
            #[trigger] after.jobs[k],
        ) implies !after.active.contains(after.jobs[k].id) by {
            assert(k != i);
            assert(after.jobs[k] == before.jobs[k]);
            if k < i {
                assert(before.jobs[k].id != before.jobs[i].id);
            } else {
                assert(before.jobs[i].id != before.jobs[k].id);
            }
        }
        assert(before.jobs[i].id < q.next_id);
    }
}

/// Pumping starts no more jobs than may run, starts only jobs that waited, and
/// leaves none waiting while a slot is free. Ids stay in order.
pub proof fn law_slots_are_filled(q: Queue, want: int)
    requires
        q.wf(),
    ensures
        filled(q, want).wf(),
        filled(q, want).active.len() == q.active.len() + next_up(q, want).len(),
        next_up(q, want).len() > 0 ==> filled(q, want).active.len() <= want,
        filled(q, want).active.len() >= want || waiting(filled(q, want).jobs).len() == 0,
        waiting(q.jobs) == next_up(q, want) + waiting(filled(q, want).jobs),
{
    let w = waiting(q.jobs);
    let n = next_up(q, want).len() as int;
    assert(next_up(q, want) =~= w.take(n));
    lemma_some_started(q, n);
    assert(w.take(n) + w.skip(n) =~= w);
}

/// A queue with a slot to fill in comes to rest exactly when nothing is left:
/// as long as a job waits, pumping starts one.
pub proof fn law_pumping_goes_on(q: Queue, want: int)
    requires
        q.wf(),
        want > 0,
        q.running,
        !pumped(q, want).running,
    ensures
        waiting(q.jobs).len() == 0,
        q.active == Set::<u64>::empty(),
{
    law_slots_are_filled(q, want);
    let f = filled(q, want);
    assert(f.active.len() == 0);
    assert(q.active =~= Set::<u64>::empty()) by {
        if exists|x: u64| q.active.contains(x) {
            let x = choose|x: u64| q.active.contains(x);
            assert(f.active.contains(x));
        }
    }
    lemma_nothing_waits(f.jobs);
}

/// Jobs, with those that waited cancelled.
pub open spec fn waiting_cancelled(jobs: Seq<Job>) -> Seq<Job> {
    jobs.map_values(
        |j: Job|
            if waits(j) {
                Job { status: JobStatus::Cancelled, ..j }
            } else {
                j
            },
    )
}

impl QueueState {
    /// Sets jobs running until no more may run or none waits; gives their ids,
    /// in order.
    pub fn fill_slots(&mut self, want: usize) -> (r: Vec<u64>)
        requires
            old(self).wf(),
        ensures
            final(self).wf(),
            final(self)@ == filled(old(self)@, want as int),
            r@ == next_up(old(self)@, want as int),
            *final(self) == (QueueState {
                jobs: final(self).jobs,
                active: final(self).active,
                ..*old(self)
            }),
    {
        broadcast use vstd::std_specs::hash::group_hash_axioms;

        let ghost q = self@;
        let mut ids: Vec<u64> = Vec::new();
        let pending = self.pending_ids();
        let mut m: usize = 0;
        proof {
            lemma_some_started(q, 0);
            assert(waiting(q.jobs).take(0) =~= Seq::<u64>::empty());
        }
        while m < pending.len() && self.active.len() < want
            invariant
                q.wf(),
                pending@ == waiting(q.jobs),
                m <= pending@.len(),
                ids@ == pending@.take(m as int),
                self@ == (Queue {
                    jobs: set_running(q.jobs, ids@),
                    active: q.active.union(ids@.to_set()),
                    ..q
                }),
                self.active@.len() == q.active.len() + m,
                self.wf(),
                m == 0 || self.active@.len() <= want,
                *self == (QueueState { jobs: self.jobs, active: self.active, ..*old(self) }),
            decreases pending@.len() - m,
        {
            let id: u64 = pending[m];
            proof {
                lemma_some_started(q, m as int);
                lemma_some_started(q, m + 1);
                assert(pending@.take(m + 1) =~= ids@.push(id));
                let i = lemma_waiting(q.jobs, m as int);
                assert(self.jobs@[i].id == id);
                lemma_found(self@, i);
            }
            let ghost before = self.jobs@;
            if let Some(job) = self.find_mut(id) {
                job.status = JobStatus::Running;
            }
            self.active.insert(id);
            ids.push(id);
            m = m + 1;
            proof {
                let i = lemma_waiting(q.jobs, m - 1);
                assert forall|x: u64| ids@.contains(x) <==> pending@.take(m - 1).contains(x) || x
                    == id by {
                    let some = pending@.take(m - 1);
                    if some.contains(x) {
                        let k = some.index_of(x);
                        assert(ids@[k] == x);
                    }
                    if x == id {
                        assert(ids@[m - 1] == x);
                    }
                    if ids@.contains(x) {
                        let k = ids@.index_of(x);
                        if k < m - 1 {
                            assert(some[k] == x);
                        }
                    }
                }
                assert(self.jobs@ =~= set_running(q.jobs, ids@)) by {
                    assert forall|k: int| 0 <= k < q.jobs.len() implies #[trigger] self.jobs@[k]
                        == set_running(q.jobs, ids@)[k] by {
                        if k < i {
                            assert(q.jobs[k].id != q.jobs[i].id);
                        } else if k > i {
                            assert(q.jobs[i].id != q.jobs[k].id);
                        }
                    }
                }
                assert(self.active@ =~= q.active.union(ids@.to_set()));
            }
        }
        proof {
            let n = m as int;
            assert(next_up(q, want as int) =~= pending@.take(n));
        }
        ids
    }

    /// Keeps a started queue going: fills its slots, and stops it once nothing
    /// is left. Gives the ids of the jobs that start, and what came of it all at
    /// the end.
    pub fn pump(&mut self, want: usize) -> (r: (Vec<u64>, Option<String>))
        requires
            old(self).wf(),
        ensures
            final(self).wf(),
            final(self)@ == pumped(old(self)@, want as int),
            r.0@ == started(old(self)@, want as int),
            match r.1 {
                Some(s) => comes_to_rest(old(self)@, want as int) && s@ == closing(
                    final(self).jobs@,
                ),
                None => !comes_to_rest(old(self)@, want as int),
            },
    {
        if !self.running {
            return (Vec::new(), None);
        }
        let ids = self.fill_slots(want);
        if self.settled() {
            self.running = false;
            let summary = self.finish_summary();
            (ids, Some(summary))
        } else {
            (ids, None)
        }
    }

    /// Cancels the jobs that wait.
    pub fn cancel_pending(&mut self)
        requires
            old(self).wf(),
        ensures
            final(self).wf(),
            final(self)@ == (Queue { jobs: waiting_cancelled(old(self).jobs@), ..old(self)@ }),
            *final(self) == (QueueState { jobs: final(self).jobs, ..*old(self) }),
    {
        let ghost v = self.jobs@;
        let n: usize = self.jobs.len();
        let mut i: usize = 0;
        while i < n
            invariant
                i <= n,
                n == v.len(),
                self.jobs@.len() == n,
                forall|k: int| 0 <= k < i ==> #[trigger] self.jobs@[k] == waiting_cancelled(v)[k],
                forall|k: int| i <= k < n ==> #[trigger] self.jobs@[k] == v[k],
                *self == (QueueState { jobs: self.jobs, ..*old(self) }),
            decreases n - i,
        {
            if job_waits(&self.jobs[i]) {
                let job = &mut self.jobs[i];
                job.status = JobStatus::Cancelled;
            }
            i = i + 1;
        }
        assert(self.jobs@ =~= waiting_cancelled(v));
    }
}

/// Jobs start in the order in which they were added, and no more of them than
/// there are free slots: one that was added earlier and still waits never
/// stays behind one that starts. Nothing else about any job changes.
pub proof fn law_first_come_first_served(q: Queue, want: int, i: int, j: int)
    requires
        q.wf(),
        0 <= i < j < q.jobs.len(),
        q.jobs[i].status is Pending,
        q.jobs[j].status is Pending,
        filled(q, want).jobs[j].status is Running,
    ensures
        filled(q, want).jobs[i].status is Running,
        filled(q, want).active.contains(q.jobs[i].id),
        filled(q, want).active.contains(q.jobs[j].id),
{
    let w = waiting(q.jobs);
    let ids = next_up(q, want);
    law_jobs_wait_in_order(q.jobs, i);
    law_jobs_wait_in_order(q.jobs, j);
    let a = waiting_count(q.jobs.take(i)) as int;
    let b = waiting_count(q.jobs.take(j)) as int;
    lemma_earlier_ranks(q.jobs, i, j);
    assert(ids.contains(q.jobs[j].id));
    let k = ids.index_of(q.jobs[j].id);
    assert(w[k] == q.jobs[j].id);
    lemma_waiting_distinct(q, k, b);
    assert(ids[a] == q.jobs[i].id);
    assert(ids.contains(q.jobs[i].id));
    assert(ids.to_set().contains(q.jobs[i].id));
    assert(ids.to_set().contains(q.jobs[j].id));
}

proof fn lemma_earlier_ranks(v: Seq<Job>, i: int, j: int)
    requires
        0 <= i < j <= v.len(),
        v[i].status is Pending,
    ensures
        waiting_count(v.take(i)) < waiting_count(v.take(j)),
    decreases j,
{
    let t = v.take(j);
    assert(t.drop_last() =~= v.take(j - 1));
    assert(t.last() == v[j - 1]);
    if i < j - 1 {
        lemma_earlier_ranks(v, i, j - 1);
    }
}

/// No id waits twice.
proof fn lemma_waiting_distinct(q: Queue, k: int, l: int)
    requires
        q.wf(),
        0 <= k < waiting(q.jobs).len(),
        0 <= l < waiting(q.jobs).len(),
        waiting(q.jobs)[k] == waiting(q.jobs)[l],
    ensures
        k == l,
    decreases q.jobs.len(),
{
    let v = q.jobs;
    let front = v.drop_last();
    let w = waiting(front);
    assert forall|i: int| 0 <= i < front.len() implies #[trigger] front[i] == v[i] by {}
    if k < w.len() && l < w.len() {
        lemma_waiting_distinct(Queue { jobs: front, ..q }, k, l);
    } else if k < w.len() {
        let i = lemma_waiting(front, k);
        assert(v[i].id != v[v.len() - 1].id);
    } else if l < w.len() {
        let i = lemma_waiting(front, l);
        assert(v[i].id != v[v.len() - 1].id);
    }
}

/// Starting changes nothing about a job but that it runs, and only jobs that
/// waited start.
pub proof fn law_starting_changes_nothing_else(q: Queue, want: int, i: int)
    requires
        q.wf(),
        0 <= i < q.jobs.len(),
    ensures
        filled(q, want).jobs.len() == q.jobs.len(),
        q.jobs[i].status is Pending ==> filled(q, want).jobs[i] == q.jobs[i] || filled(
            q,
            want,
        ).jobs[i] == (Job { status: JobStatus::Running, ..q.jobs[i] }),
        !(q.jobs[i].status is Pending) ==> filled(q, want).jobs[i] == q.jobs[i],
{
    let ids = next_up(q, want);
    if !(q.jobs[i].status is Pending) && ids.contains(q.jobs[i].id) {
        let k = ids.index_of(q.jobs[i].id);
        assert(waiting(q.jobs)[k] == q.jobs[i].id);
        let m = lemma_waiting(q.jobs, k);
        if m < i {
            assert(q.jobs[m].id != q.jobs[i].id);
        } else if i < m {
            assert(q.jobs[i].id != q.jobs[m].id);
        }
    }
}

/// Cancelling what waits leaves nothing waiting, and touches no job that runs
/// or is over.
pub proof fn law_cancelling_leaves_nothing_waiting(v: Seq<Job>)
    ensures
        waiting_cancelled(v).len() == v.len(),
        waiting(waiting_cancelled(v)).len() == 0,
        forall|i: int|
            0 <= i < v.len() ==> #[trigger] waiting_cancelled(v)[i] == (if v[i].status is Pending {
                Job { status: JobStatus::Cancelled, ..v[i] }
            } else {
                v[i]
            }),
{
    lemma_nothing_waits(waiting_cancelled(v));
}

} // verus!
