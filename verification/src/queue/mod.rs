//! The batch queue.
//!
//! Several files go through the same operation as one job each. Jobs run one
//! after the other unless the configuration allows more at a time. A job that
//! fails stops no other.

pub mod job;
pub mod pump;

use std::collections::HashSet;
use vstd::prelude::*;
use crate::ffmpeg::progress::ProgressUpdate;
use crate::ffmpeg::runner::JobResult;
use crate::number::{dec, show_usize};
use crate::queue::job::{settles, Job, JobStatus};
use crate::text::{copy_text, join2, join3, opt_text, texts};

verus! {

/// The queue.
#[derive(Debug)]
pub struct QueueState {
    /// All jobs, in the order they were added.
    pub jobs: Vec<Job>,
    /// Whether the queue was started and has not settled yet.
    pub running: bool,
    /// Cursor on the queue screen.
    pub selected: usize,
    /// Ids of the jobs that run now.
    pub active: HashSet<u64>,
    /// The next id.
    pub next_id: u64,
    /// Outputs that existed when the batch was armed; the queue waits for a
    /// confirmation while there are any.
    pub overwrite_conflicts: Vec<String>,
    /// What came of the last run.
    pub summary: Option<String>,
}

/// Whether a job waits for its turn.
pub open spec fn waits(j: Job) -> bool {
    j.status is Pending
}

/// Whether a job has come to its end.
pub open spec fn over(j: Job) -> bool {
    !(j.status is Pending || j.status is Running)
}

/// Position of the first job with an id, or the number of jobs.
pub open spec fn job_at(v: Seq<Job>, id: u64) -> int
    decreases v.len(),
{
    if v.len() == 0 || v[0].id == id {
        0
    } else {
        1 + job_at(v.skip(1), id)
    }
}

/// Ids of the jobs that wait, in order.
pub open spec fn waiting(v: Seq<Job>) -> Seq<u64>
    decreases v.len(),
{
    if v.len() == 0 {
        Seq::empty()
    } else {
        let before = waiting(v.drop_last());
        if waits(v.last()) {
            before.push(v.last().id)
        } else {
            before
        }
    }
}

/// The jobs that are not over, in order.
pub open spec fn unfinished(v: Seq<Job>) -> Seq<Job>
    decreases v.len(),
{
    if v.len() == 0 {
        Seq::empty()
    } else {
        let before = unfinished(v.drop_last());
        if over(v.last()) {
            before
        } else {
            before.push(v.last())
        }
    }
}

/// How many jobs meet a condition.
pub open spec fn count_of(v: Seq<Job>, p: spec_fn(Job) -> bool) -> nat
    decreases v.len(),
{
    if v.len() == 0 {
        0
    } else {
        count_of(v.drop_last(), p) + (if p(v.last()) {
            1nat
        } else {
            0
        })
    }
}

/// Counts a queue's jobs: those over, done, failed and cancelled.
pub open spec fn tally(v: Seq<Job>) -> (nat, nat, nat, nat) {
    (
        count_of(v, |j: Job| over(j)),
        count_of(v, |j: Job| j.status is Done),
        count_of(v, |j: Job| j.status is Failed),
        count_of(v, |j: Job| j.status is Cancelled),
    )
}

/// The headline of the queue: how many jobs are over, and how many failed.
pub open spec fn headline(v: Seq<Job>) -> Seq<char> {
    let (settled, _done, failed, _cancelled) = tally(v);
    let line = dec(settled) + "/"@ + dec(v.len()) + " settled"@;
    if failed > 0 {
        line + " · "@ + dec(failed) + " failed"@
    } else {
        line
    }
}

/// What came of a run.
pub open spec fn closing(v: Seq<Job>) -> Seq<char> {
    let (_settled, done, failed, cancelled) = tally(v);
    "Queue done: "@ + dec(done) + " ok, "@ + dec(failed) + " failed, "@ + dec(cancelled)
        + " cancelled"@
}

proof fn lemma_job_at(v: Seq<Job>, id: u64, i: int)
    requires
        0 <= i <= v.len(),
        forall|j: int| 0 <= j < i ==> (#[trigger] v[j]).id != id,
        i < v.len() ==> v[i].id == id,
    ensures
        job_at(v, id) == i,
    decreases v.len(),
{
    if i > 0 {
        assert(v[0].id != id);
        assert forall|j: int| 0 <= j < i - 1 implies (#[trigger] v.skip(1)[j]).id != id by {
            assert(v.skip(1)[j] == v[j + 1]);
        }
        lemma_job_at(v.skip(1), id, i - 1);
    }
}

proof fn lemma_count_bound(v: Seq<Job>, p: spec_fn(Job) -> bool)
    ensures
        count_of(v, p) <= v.len(),
    decreases v.len(),
{
    if v.len() > 0 {
        lemma_count_bound(v.drop_last(), p);
    }
}

/// Finds the first job with an id.
pub fn find_job(jobs: &Vec<Job>, id: u64) -> (r: usize)
    ensures
        r == job_at(jobs@, id),
        r <= jobs@.len(),
{
    let mut i: usize = 0;
    while i < jobs.len()
        invariant
            i <= jobs@.len(),
            forall|j: int| 0 <= j < i ==> (#[trigger] jobs@[j]).id != id,
        decreases jobs@.len() - i,
    {
        if jobs[i].id == id {
            proof {
                lemma_job_at(jobs@, id, i as int);
            }
            return i;
        }
        i = i + 1;
    }
    proof {
        lemma_job_at(jobs@, id, i as int);
    }
    i
}

/// Whether a job waits for its turn.
pub fn job_waits(job: &Job) -> (r: bool)
    ensures
        r == waits(*job),
{
    matches!(&job.status, JobStatus::Pending)
}

/// A queue, as mathematical values.
#[verifier::ext_equal]
pub struct Queue {
    pub jobs: Seq<Job>,
    pub running: bool,
    pub selected: int,
    pub active: Set<u64>,
    pub next_id: u64,
    pub conflicts: Seq<Seq<char>>,
    pub summary: Option<Seq<char>>,
}

impl Queue {
    /// The ids of a queue: those of its jobs differ from each other, all of
    /// them were given out before the next one, and no job that waits is among
    /// those that run.
    pub open spec fn wf(self) -> bool {
        &&& forall|i: int| 0 <= i < self.jobs.len() ==> (#[trigger] self.jobs[i]).id < self.next_id
        &&& forall|i: int, j: int|
            0 <= i < j < self.jobs.len() ==> (#[trigger] self.jobs[i]).id != (
            #[trigger] self.jobs[j]).id
        &&& forall|i: int| 0 <= i < self.jobs.len() ==> (#[trigger] self.jobs[i]).wf()
        &&& forall|i: int|
            0 <= i < self.jobs.len() && waits(#[trigger] self.jobs[i]) ==> !self.active.contains(
                self.jobs[i].id,
            )
        &&& forall|id: u64| #[trigger] self.active.contains(id) ==> id < self.next_id
        &&& self.active.finite()
    }
}

/// Whether nothing runs and nothing waits.
pub open spec fn at_rest(q: Queue) -> bool {
    q.active == Set::<u64>::empty() && forall|i: int|
        0 <= i < q.jobs.len() ==> !waits(#[trigger] q.jobs[i])
}

impl View for QueueState {
    type V = Queue;

    open spec fn view(&self) -> Queue {
        Queue {
            jobs: self.jobs@,
            running: self.running,
            selected: self.selected as int,
            active: self.active@,
            next_id: self.next_id,
            conflicts: texts(self.overwrite_conflicts@),
            summary: opt_text(self.summary),
        }
    }
}

impl QueueState {
    /// Whether the queue's ids are in order.
    pub open spec fn wf(&self) -> bool {
        self@.wf()
    }

    /// An empty queue.
    pub fn new() -> (r: Self)
        ensures
            r.jobs@.len() == 0,
            !r.running,
            r.selected == 0,
            r.active@ == Set::<u64>::empty(),
            r.next_id == 1,
            r.overwrite_conflicts@.len() == 0,
            r.summary is None,
            r.wf(),
    {
        QueueState {
            jobs: Vec::new(),
            running: false,
            selected: 0,
            active: HashSet::new(),
            next_id: 1,
            overwrite_conflicts: Vec::new(),
            summary: None,
        }
    }

    /// Gives out an id that no job has.
    pub fn take_id(&mut self) -> (r: u64)
        requires
            old(self).wf(),
            old(self).next_id < u64::MAX,
        ensures
            r == old(self).next_id,
            *final(self) == (QueueState { next_id: (old(self).next_id + 1) as u64, ..*old(self) }),
            final(self).wf(),
            job_at(old(self).jobs@, r) == old(self).jobs@.len(),
    {
        let id: u64 = self.next_id;
        proof {
            lemma_job_at(self.jobs@, id, self.jobs@.len() as int);
        }
        self.next_id = self.next_id + 1;
        id
    }

    /// Adds jobs, and forgets what came of the last run.
    pub fn enqueue(&mut self, jobs: Vec<Job>)
        ensures
            final(self).jobs@ == old(self).jobs@ + jobs@,
            final(self).summary is None,
            *final(self) == (QueueState {
                jobs: final(self).jobs,
                summary: None,
                ..*old(self)
            }),
    {
        let mut jobs = jobs;
        self.jobs.append(&mut jobs);
        self.summary = None;
    }

    /// Finds a job by its id, to change it.
    pub fn find_mut(&mut self, id: u64) -> (r: Option<&mut Job>)
        ensures
            ({
                let v = old(self).jobs@;
                let i = job_at(v, id);
                match r {
                    Some(job) => 0 <= i < v.len() && *job == v[i] && final(self).jobs@ == v.update(
                        i,
                        *final(job),
                    ) && *final(self) == (QueueState { jobs: final(self).jobs, ..*old(self) }),
                    None => i == v.len() && *final(self) == *old(self),
                }
            }),
    {
        let i = find_job(&self.jobs, id);
        if i < self.jobs.len() {
            Some(&mut self.jobs[i])
        } else {
            None
        }
    }

    /// Ids of the jobs that wait, in order.
    pub fn pending_ids(&self) -> (r: Vec<u64>)
        ensures
            r@ == waiting(self.jobs@),
    {
        let mut out: Vec<u64> = Vec::new();
        let mut i: usize = 0;
        assert(self.jobs@.take(0) =~= Seq::<Job>::empty());
        while i < self.jobs.len()
            invariant
                i <= self.jobs@.len(),
                out@ == waiting(self.jobs@.take(i as int)),
            decreases self.jobs@.len() - i,
        {
            assert(self.jobs@.take(i + 1).drop_last() =~= self.jobs@.take(i as int));
            if job_waits(&self.jobs[i]) {
                out.push(self.jobs[i].id);
            }
            i = i + 1;
        }
        assert(self.jobs@.take(i as int) =~= self.jobs@);
        out
    }

    /// Tests whether nothing runs and nothing waits.
    pub fn settled(&self) -> (r: bool)
        ensures
            r == at_rest(self@),
    {
        if !self.active.is_empty() {
            return false;
        }
        let mut i: usize = 0;
        while i < self.jobs.len()
            invariant
                i <= self.jobs@.len(),
                forall|j: int| 0 <= j < i ==> !waits(#[trigger] self.jobs@[j]),
            decreases self.jobs@.len() - i,
        {
            if job_waits(&self.jobs[i]) {
                assert(waits(self@.jobs[i as int]));
                return false;
            }
            i = i + 1;
        }
        true
    }

    /// Counts the jobs that are over, done, failed and cancelled.
    fn count_jobs(&self) -> (r: (usize, usize, usize, usize))
        ensures
            (r.0 as nat, r.1 as nat, r.2 as nat, r.3 as nat) == tally(self.jobs@),
    {
        let ghost v = self.jobs@;
        let mut settled: usize = 0;
        let mut done: usize = 0;
        let mut failed: usize = 0;
        let mut cancelled: usize = 0;
        let mut i: usize = 0;
        assert(v.take(0) =~= Seq::<Job>::empty());
        while i < self.jobs.len()
            invariant
                v == self.jobs@,
                i <= self.jobs@.len(),
                settled <= i,
                done <= i,
                failed <= i,
                cancelled <= i,
                (settled as nat, done as nat, failed as nat, cancelled as nat) == tally(
                    v.take(i as int),
                ),
            decreases self.jobs@.len() - i,
        {
            assert(v.take(i + 1).drop_last() =~= v.take(i as int));
            match &self.jobs[i].status {
                JobStatus::Done => {
                    settled = settled + 1;
                    done = done + 1;
                },
                JobStatus::Failed(_) => {
                    settled = settled + 1;
                    failed = failed + 1;
                },
                JobStatus::Cancelled => {
                    settled = settled + 1;
                    cancelled = cancelled + 1;
                },
                JobStatus::Pending => {},
                JobStatus::Running => {},
            }
            i = i + 1;
        }
        assert(v.take(i as int) =~= v);
        (settled, done, failed, cancelled)
    }

    /// The headline of the queue.
    pub fn aggregate_line(&self) -> (r: String)
        ensures
            r@ == headline(self.jobs@),
    {
        let (settled, _done, failed, _cancelled) = self.count_jobs();
        let a = join3(show_usize(settled).as_str(), "/", show_usize(self.jobs.len()).as_str());
        let mut line = join2(a.as_str(), " settled");
        if failed > 0 {
            line.append(" · ");
            line.append(show_usize(failed).as_str());
            line.append(" failed");
        }
        line
    }

    /// Says what came of a run, and keeps it.
    pub fn finish_summary(&mut self) -> (r: String)
        ensures
            r@ == closing(old(self).jobs@),
            final(self).summary matches Some(s) && s@ == r@,
            *final(self) == (QueueState { summary: final(self).summary, ..*old(self) }),
    {
        let (_settled, done, failed, cancelled) = self.count_jobs();
        let mut line = join2("Queue done: ", show_usize(done).as_str());
        line.append(" ok, ");
        line.append(show_usize(failed).as_str());
        line.append(" failed, ");
        line.append(show_usize(cancelled).as_str());
        line.append(" cancelled");
        self.summary = Some(copy_text(line.as_str()));
        line
    }

    /// Drops the jobs that are over.
    pub fn clear_finished(&mut self)
        ensures
            final(self).jobs@ == unfinished(old(self).jobs@),
            *final(self) == (QueueState { jobs: final(self).jobs, selected: 0, ..*old(self) }),
            old(self).wf() ==> final(self).wf(),
    {
        let ghost all = self.jobs@;
        let mut rest: Vec<Job> = Vec::new();
        let mut todo: Vec<Job> = Vec::new();
        std::mem::swap(&mut todo, &mut self.jobs);
        // The jobs come off the end, and go back in order.
        let mut kept: Vec<Job> = Vec::new();
        while todo.len() > 0
            invariant
                todo@.len() <= all.len(),
                todo@ =~= all.take(todo@.len() as int),
                unfinished(all) =~= unfinished(todo@) + kept@.reverse(),
            decreases todo@.len(),
        {
            let ghost before = todo@;
            let ghost held = kept@;
            let job = todo.pop();
            if let Some(job) = job {
                assert(before.drop_last() =~= todo@);
                let open = match &job.status {
                    JobStatus::Pending => true,
                    JobStatus::Running => true,
                    _ => false,
                };
                if open {
                    kept.push(job);
                    assert(kept@.reverse() =~= seq![job] + held.reverse());
                }
            }
        }
        while kept.len() > 0
            invariant
                unfinished(all) =~= rest@ + kept@.reverse(),
            decreases kept@.len(),
        {
            let ghost held = kept@;
            if let Some(job) = kept.pop() {
                assert(held.reverse() =~= seq![job] + kept@.reverse());
                rest.push(job);
            }
        }
        self.jobs = rest;
        self.selected = 0;
        proof {
            if old(self).wf() {
                lemma_clearing_keeps_order(old(self)@);
            }
        }
    }

    /// Removes a job that waits; a running one has to be cancelled first.
    pub fn remove_pending(&mut self, id: u64) -> (r: bool)
        ensures
            ({
                let v = old(self).jobs@;
                let i = job_at(v, id);
                &&& r == (i < v.len() && waits(v[i]))
                &&& final(self).jobs@ == (if r {
                    v.remove(i)
                } else {
                    v
                })
                &&& *final(self) == (QueueState { jobs: final(self).jobs, ..*old(self) })
            }),
            old(self).wf() ==> final(self).wf(),
    {
        let i = find_job(&self.jobs, id);
        if i < self.jobs.len() && job_waits(&self.jobs[i]) {
            let ghost v = self.jobs@;
            let _ = self.jobs.remove(i);
            proof {
                let w = self.jobs@;
                assert forall|k: int| 0 <= k < w.len() implies #[trigger] w[k] == v[if k < i {
                    k
                } else {
                    k + 1
                }] by {}
            }
            true
        } else {
            false
        }
    }

    /// Takes in an update for a job.
    pub fn apply_progress(&mut self, job_id: u64, update: &ProgressUpdate)
        ensures
            ({
                let v = old(self).jobs@;
                let i = job_at(v, job_id);
                &&& final(self).jobs@ == (if i < v.len() {
                    v.update(i, v[i].progressed(*update))
                } else {
                    v
                })
                &&& *final(self) == (QueueState { jobs: final(self).jobs, ..*old(self) })
            }),
            old(self).wf() ==> final(self).wf(),
    {
        let i = find_job(&self.jobs, job_id);
        if i < self.jobs.len() {
            let job = &mut self.jobs[i];
            job.apply_progress(update);
        }
    }
}

proof fn lemma_clearing_keeps_order(q: Queue)
    requires
        q.wf(),
    ensures
        (Queue { jobs: unfinished(q.jobs), ..q }).wf(),
        forall|i: int|
            0 <= i < unfinished(q.jobs).len() ==> q.jobs.contains(
                #[trigger] unfinished(q.jobs)[i],
            ),
    decreases q.jobs.len(),
{
    let v = q.jobs;
    if v.len() > 0 {
        let front = v.drop_last();
        assert forall|i: int| 0 <= i < front.len() implies #[trigger] front[i] == v[i] by {}
        lemma_clearing_keeps_order(Queue { jobs: front, ..q });
        let w = unfinished(v);
        let kept = unfinished(front);
        assert forall|i: int| 0 <= i < w.len() implies v.contains(#[trigger] w[i]) by {
            if i < kept.len() {
                assert(front.contains(kept[i]));
                let k = front.index_of(kept[i]);
                assert(v[k] == w[i]);
            } else {
                assert(v[v.len() - 1] == w[i]);
            }
        }
        assert forall|i: int, j: int| 0 <= i < j < w.len() implies (#[trigger] w[i]).id != (
        #[trigger] w[j]).id by {
            if j == kept.len() {
                assert(front.contains(kept[i]));
                let k = front.index_of(kept[i]);
                assert(v[k].id != v[v.len() - 1].id);
            } else {
                assert(kept[i].id != kept[j].id);
            }
        }
        assert forall|i: int| 0 <= i < w.len() implies (#[trigger] w[i]).id < q.next_id
            && w[i].wf() && (waits(w[i]) ==> !q.active.contains(w[i].id)) by {
            let k = v.index_of(w[i]);
            assert(v[k] == w[i]);
        }
    }
}

// ---------------------------------------------------------------------------
// Laws
// ---------------------------------------------------------------------------

/// Whether jobs are such as are made for a queue: waiting, with ids that were
/// given out since the queue held the others, all different.
pub open spec fn fresh(v: Seq<Job>, from: u64, to: u64) -> bool {
    &&& forall|i: int|
        0 <= i < v.len() ==> from <= (#[trigger] v[i]).id < to && waits(v[i]) && v[i].wf()
    &&& forall|i: int, j: int| 0 <= i < j < v.len() ==> (#[trigger] v[i]).id != (#[trigger] v[j]).id
}

/// Adding jobs with ids that were taken for them keeps all ids different, and
/// every one of them waits behind those that waited before.
pub proof fn law_jobs_are_told_apart(before: QueueState, after: QueueState, jobs: Seq<Job>)
    requires
        before.wf(),
        before.next_id <= after.next_id,
        fresh(jobs, before.next_id, after.next_id),
        after.jobs@ == before.jobs@ + jobs,
        after.active@ == before.active@,
    ensures
        after.wf(),
        waiting(after.jobs@) == waiting(before.jobs@) + waiting(jobs),
        waiting(jobs).len() == jobs.len(),
{
    lemma_waiting_joins(before.jobs@, jobs);
    lemma_all_wait(jobs);
}

proof fn lemma_waiting_joins(a: Seq<Job>, b: Seq<Job>)
    ensures
        waiting(a + b) == waiting(a) + waiting(b),
    decreases b.len(),
{
    if b.len() == 0 {
        assert(a + b =~= a);
        assert(waiting(a) + waiting(b) =~= waiting(a));
    } else {
        lemma_waiting_joins(a, b.drop_last());
        assert((a + b).drop_last() =~= a + b.drop_last());
        assert((a + b).last() == b.last());
        assert(waiting(a + b) =~= waiting(a) + waiting(b));
    }
}

proof fn lemma_all_wait(v: Seq<Job>)
    requires
        forall|i: int| 0 <= i < v.len() ==> waits(#[trigger] v[i]),
    ensures
        waiting(v).len() == v.len(),
    decreases v.len(),
{
    if v.len() > 0 {
        assert(waits(v[v.len() - 1]));
        lemma_all_wait(v.drop_last());
    }
}

/// A job that ends, however it ends, leaves the others waiting: a failure
/// never halts the queue.
pub proof fn law_failure_halts_nothing(v: Seq<Job>, i: int, job: Job, result: JobResult)
    requires
        0 <= i < v.len(),
        v[i].status is Running,
        settles(job.status, result),
    ensures
        waiting(v.update(i, job)) == waiting(v),
    decreases v.len(),
{
    let w = v.update(i, job);
    if i == v.len() - 1 {
        assert(w.drop_last() =~= v.drop_last());
    } else {
        assert(w.drop_last() =~= v.drop_last().update(i, job));
        assert(w.last() == v.last());
        law_failure_halts_nothing(v.drop_last(), i, job, result);
    }
}

/// Clearing keeps every job that waits or runs, in order, and no other.
pub proof fn law_clearing_keeps_the_rest(v: Seq<Job>)
    ensures
        waiting(unfinished(v)) == waiting(v),
        forall|j: Job| #[trigger] unfinished(v).contains(j) <==> v.contains(j) && !over(j),
    decreases v.len(),
{
    if v.len() > 0 {
        let front = v.drop_last();
        law_clearing_keeps_the_rest(front);
        let kept = unfinished(front);
        if !over(v.last()) {
            assert(kept.push(v.last()).drop_last() =~= kept);
        }
        assert forall|j: Job| #[trigger] unfinished(v).contains(j) <==> v.contains(j) && !over(
            j,
        ) by {
            if v.contains(j) && !over(j) {
                let i = v.index_of(j);
                if i < v.len() - 1 {
                    assert(front[i] == j);
                    assert(front.contains(j));
                    assert(kept.contains(j));
                    let k = kept.index_of(j);
                    assert(unfinished(v)[k] == j);
                } else {
                    assert(unfinished(v)[kept.len() as int] == j);
                }
            }
            if unfinished(v).contains(j) {
                let k = unfinished(v).index_of(j);
                if k < kept.len() {
                    assert(kept[k] == j);
                    assert(kept.contains(j));
                    let i = front.index_of(j);
                    assert(v[i] == j);
                } else {
                    assert(v[v.len() - 1] == j);
                }
            }
        }
    }
}

/// How many jobs of a queue wait.
pub open spec fn waiting_count(v: Seq<Job>) -> nat
    decreases v.len(),
{
    if v.len() == 0 {
        0
    } else {
        waiting_count(v.drop_last()) + (if v.last().status is Pending {
            1nat
        } else {
            0
        })
    }
}

/// The jobs that wait are those that are pending, one place each, and they wait
/// in the order in which they were added.
pub proof fn law_jobs_wait_in_order(v: Seq<Job>, i: int)
    requires
        0 <= i < v.len(),
        v[i].status is Pending,
    ensures
        waiting(v).len() == waiting_count(v),
        waiting_count(v.take(i)) < waiting_count(v),
        waiting(v)[waiting_count(v.take(i)) as int] == v[i].id,
    decreases v.len(),
{
    let front = v.drop_last();
    lemma_waiting_count(front);
    if i == v.len() - 1 {
        assert(v.take(i) =~= front);
    } else {
        assert(front.take(i) =~= v.take(i));
        law_jobs_wait_in_order(front, i);
    }
}

proof fn lemma_waiting_count(v: Seq<Job>)
    ensures
        waiting(v).len() == waiting_count(v),
    decreases v.len(),
{
    if v.len() > 0 {
        lemma_waiting_count(v.drop_last());
    }
}

/// How many jobs have a status, as the queue's lines count them.
pub open spec fn with_status(v: Seq<Job>, p: spec_fn(JobStatus) -> bool) -> nat {
    v.filter(|j: Job| p(j.status)).len()
}

proof fn lemma_counts_are_filters(v: Seq<Job>, p: spec_fn(Job) -> bool, f: spec_fn(Job) -> bool)
    requires
        forall|j: Job| #[trigger] p(j) == f(j),
    ensures
        count_of(v, p) == v.filter(f).len(),
    decreases v.len(),
{
    reveal(Seq::filter);
    if v.len() > 0 {
        lemma_counts_are_filters(v.drop_last(), p, f);
        assert(p(v.last()) == f(v.last()));
    }
}

/// The headline tells how many of the jobs are over, and how many failed; the
/// closing line tells how many are done, failed and cancelled. Every job is
/// done, failed, cancelled, running or waiting, and counted once.
pub proof fn law_the_lines_count_the_jobs(v: Seq<Job>)
    ensures
        ({
            let done = with_status(v, |s: JobStatus| s is Done);
            let failed = with_status(v, |s: JobStatus| s is Failed);
            let cancelled = with_status(v, |s: JobStatus| s is Cancelled);
            let running = with_status(v, |s: JobStatus| s is Running);
            &&& closing(v) == "Queue done: "@ + dec(done) + " ok, "@ + dec(failed) + " failed, "@
                + dec(cancelled) + " cancelled"@
            &&& headline(v) == dec(done + failed + cancelled) + "/"@ + dec(v.len()) + " settled"@ + (
            if failed > 0 {
                " · "@ + dec(failed) + " failed"@
            } else {
                Seq::<char>::empty()
            })
            &&& done + failed + cancelled + running + waiting(v).len() == v.len()
        }),
{
    let line = dec(tally(v).0) + "/"@ + dec(v.len()) + " settled"@;
    lemma_counts_are_filters(
        v,
        |j: Job| j.status is Done,
        |j: Job| (|s: JobStatus| s is Done)(j.status),
    );
    lemma_counts_are_filters(
        v,
        |j: Job| j.status is Failed,
        |j: Job| (|s: JobStatus| s is Failed)(j.status),
    );
    lemma_counts_are_filters(
        v,
        |j: Job| j.status is Cancelled,
        |j: Job| (|s: JobStatus| s is Cancelled)(j.status),
    );
    lemma_counts_are_filters(
        v,
        |j: Job| j.status is Running,
        |j: Job| (|s: JobStatus| s is Running)(j.status),
    );
    lemma_counts_add_up(v);
    let failed = tally(v).2;
    assert(line + Seq::<char>::empty() =~= line);
    assert(line + " · "@ + dec(failed) + " failed"@ =~= line + (" · "@ + dec(failed) + " failed"@));
}

proof fn lemma_counts_add_up(v: Seq<Job>)
    ensures
        tally(v).0 == tally(v).1 + tally(v).2 + tally(v).3,
        tally(v).0 + count_of(v, |j: Job| j.status is Running) + waiting(v).len() == v.len(),
    decreases v.len(),
{
    if v.len() > 0 {
        lemma_counts_add_up(v.drop_last());
    }
}

/// An update reaches the job it is for and no other, wherever that job stands.
pub proof fn law_jobs_are_found_by_id(v: Seq<Job>, i: int)
    requires
        0 <= i < v.len(),
        forall|j: int| 0 <= j < i ==> (#[trigger] v[j]).id != v[i].id,
    ensures
        job_at(v, v[i].id) == i,
{
    lemma_job_at(v, v[i].id, i);
}

} // verus!
