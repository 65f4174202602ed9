//! Starting, finishing and cancelling jobs.

use vstd::prelude::*;
use crate::app::forms::first_ready;
use crate::app::{deeds, no_effects, one_effect, App, Deed, Effect, Screen};
use crate::ffmpeg::builder::{displayed, Command, CommandSpec};
use crate::ffmpeg::runner::JobResult;
use crate::ops::{find_by_id, menu, position};
use crate::path::{get_parent, parent};
use crate::queue::job::{settles, Job, JobStatus};
use crate::queue::pump::{comes_to_rest, lemma_found, pumped, started, waiting_cancelled};
use crate::queue::{at_rest, closing, job_at, Queue, QueueState};
use crate::text::{copy_text, join2, opt_text};
use crate::time::Duration;
use crate::ui::screens::running::{RunPhase, RunState};

verus! {

// ---------------------------------------------------------------------------
// Work that goes on
// ---------------------------------------------------------------------------

/// Whether the running screen shows a job that can be asked to stop.
pub open spec fn cancellable(a: App) -> bool {
    a.screen is Running && (a.run matches Some(r) && r.phase == RunPhase::Active)
}

/// Whether the running screen shows a job that was asked to stop.
pub open spec fn cancelling(a: App) -> bool {
    a.screen is Running && (a.run matches Some(r) && r.phase == RunPhase::Cancelling)
}

/// Whether the running screen shows a job that is not over.
pub open spec fn active_run(a: App) -> bool {
    a.screen is Running && (a.run matches Some(r) && (r.phase == RunPhase::Active || r.phase
        == RunPhase::Cancelling || r.phase == RunPhase::ConfirmOverwrite))
}

/// Whether work goes on that no other may be started beside.
pub open spec fn busy(a: App) -> bool {
    active_run(a) || (a.queue.running && !at_rest(a.queue@))
}

/// What is said to one who starts more work.
pub const BUSY: &'static str = "Finish or cancel the current work before starting more.";

/// Whether only the status line changed, to the given text.
pub open spec fn told(before: App, after: App, text: Seq<char>) -> bool {
    &&& after == (App { status_message: after.status_message, ..before })
    &&& opt_text(after.status_message) == Some(text)
}

impl App {
    /// Tests whether the job can be asked to stop.
    pub fn job_cancellable(&self) -> (r: bool)
        ensures
            r == cancellable(*self),
    {
        match (&self.screen, &self.run) {
            (Screen::Running, Some(run)) => matches!(run.phase, RunPhase::Active),
            _ => false,
        }
    }

    /// Tests whether the job was asked to stop.
    pub fn job_cancelling(&self) -> (r: bool)
        ensures
            r == cancelling(*self),
    {
        match (&self.screen, &self.run) {
            (Screen::Running, Some(run)) => matches!(run.phase, RunPhase::Cancelling),
            _ => false,
        }
    }

    /// Tests whether the job is not over.
    pub fn job_active(&self) -> (r: bool)
        ensures
            r == active_run(*self),
    {
        match (&self.screen, &self.run) {
            (Screen::Running, Some(run)) => match run.phase {
                RunPhase::Active | RunPhase::Cancelling | RunPhase::ConfirmOverwrite => true,
                _ => false,
            },
            _ => false,
        }
    }

    /// Tests whether work goes on, and says so on the status line.
    pub fn single_or_queue_busy(&mut self) -> (r: bool)
        ensures
            r == busy(*old(self)),
            r ==> told(*old(self), *final(self), BUSY@),
            !r ==> *final(self) == *old(self),
    {
        let working = self.job_active() || (self.queue.running && !self.queue.settled());
        if working {
            self.status_message = Some(copy_text(BUSY));
        }
        working
    }
}

// ---------------------------------------------------------------------------
// One job
// ---------------------------------------------------------------------------

/// The name of an operation, or its id when there is none.
pub open spec fn name_of(id: Seq<char>) -> Seq<char> {
    if position(menu(), id) < menu().len() {
        menu()[position(menu(), id)].name
    } else {
        id
    }
}

/// The file that a command writes: its last argument.
pub open spec fn written_by(c: Command) -> Seq<char> {
    if c.args.len() > 0 {
        c.args.last()
    } else {
        "ffkit_output"@
    }
}

/// Gives the name of an operation.
pub fn show_name(id: &str) -> (r: String)
    ensures
        r@ == name_of(id@),
{
    match find_by_id(id) {
        Some(m) => copy_text(m.name),
        None => copy_text(id),
    }
}

/// Gives the file that a command writes.
pub fn find_output(spec: &CommandSpec) -> (r: String)
    ensures
        r@ == written_by(spec@),
{
    match spec.output_path() {
        Some(p) => p,
        None => copy_text("ffkit_output"),
    }
}

/// The size of the first input as its probe has it.
pub open spec fn probed_size(a: App) -> Option<u64> {
    match first_ready(a) {
        Some(p) => p.size_bytes,
        None => None,
    }
}

/// What is said when there is no command to run.
pub const NO_COMMAND: &'static str = "No command to run — fix the build error first.";

/// What asking for one job does: the outside is looked at first, which is the
/// file that the command writes.
pub open spec fn single_wanted(before: App, after: App, d: Seq<Deed>) -> bool {
    if busy(before) {
        told(before, after, BUSY@) && d == Seq::<Deed>::empty()
    } else {
        match before.form {
            Some(f) => if f.preview is Some {
                &&& after == before
                &&& d == seq![
                    Deed::LookSingle(
                        written_by(f.preview->0@),
                        if probed_size(before) is Some || before.form_inputs@.len() == 0 {
                            None
                        } else {
                            Some(before.form_inputs@[0]@)
                        },
                    ),
                ]
            } else {
                told(before, after, NO_COMMAND@) && d == Seq::<Deed>::empty()
            },
            None => after == before && d == Seq::<Deed>::empty(),
        }
    }
}

/// Whether a job was started from the running screen: under the next id, now.
pub open spec fn current_spawned(before: App, after: App, now: Duration, d: Seq<Deed>) -> bool {
    match before.run {
        Some(r) => {
            let id = before.queue.next_id;
            &&& after == (App {
                run: Some(RunState { phase: RunPhase::Active, started: now, job_id: id, ..r }),
                queue: QueueState { next_id: (id + 1) as u64, ..before.queue },
                ..before
            })
            &&& d == seq![
                Deed::Start { id, command: r.spec@, output: r.output@, dir: None },
            ]
        },
        None => after == before && d == Seq::<Deed>::empty(),
    }
}

/// Whether a job is the new one of a form.
pub open spec fn is_job_of(r: RunState, op_id: Seq<char>, command: Command, output: Seq<char>) -> bool {
    &&& r.wf()
    &&& r.smoother@ == Seq::<u64>::empty()
    &&& r.smoother.limit() == 8
    &&& r.op_name@ == name_of(op_id)
    &&& r.spec@ == command
    &&& r.display_command@ == displayed(command)
    &&& r.output@ == output
    &&& r.frame is None
    &&& r.fps is None
    &&& r.bitrate_kbps is None
    &&& r.total_size is None
    &&& r.out_time is None
    &&& r.dup_frames == 0
    &&& r.drop_frames == 0
    &&& r.last_speed is None
    &&& r.stderr@.len() == 0
    &&& !r.log_expanded
    &&& r.log_scroll == 0
    &&& r.pid is None
    &&& r.result is None
    &&& r.diagnosis is None
    &&& r.finished_at is None
}

/// What beginning one job does: an output that exists is asked about first,
/// unless the settings say otherwise.
pub open spec fn single_begun(
    before: App,
    after: App,
    output_exists: bool,
    file_size: Option<u64>,
    now: Duration,
    d: Seq<Deed>,
) -> bool {
    if busy(before) {
        told(before, after, BUSY@) && d == Seq::<Deed>::empty()
    } else if before.form is None || before.form->0.preview is None {
        after == before && d == Seq::<Deed>::empty()
    } else {
        let f = before.form->0;
        let command = f.preview->0@;
        let output = written_by(command);
        let id = before.queue.next_id;
        let run = after.run->0;
        &&& after.run is Some
        &&& is_job_of(run, f.op_id@, command, output)
        &&& run.started == now
        &&& if output_exists && before.settings.general.confirm_overwrite {
            &&& run.phase == RunPhase::ConfirmOverwrite
            &&& run.job_id == u64::MAX
            &&& run.total_duration is None
            &&& run.input_size is None
            &&& after == (App {
                run: after.run,
                screen: Screen::Running,
                status_message: None,
                ..before
            })
            &&& d == Seq::<Deed>::empty()
        } else {
            &&& run.phase == RunPhase::Active
            &&& run.job_id == id
            &&& run.total_duration == (match first_ready(before) {
                Some(p) => p.duration,
                None => None,
            })
            &&& run.input_size == (match probed_size(before) {
                Some(n) => Some(n),
                None => file_size,
            })
            &&& after == (App {
                run: after.run,
                queue: QueueState { next_id: (id + 1) as u64, ..before.queue },
                screen: Screen::Running,
                status_message: None,
                ..before
            })
            &&& d == seq![Deed::Start { id, command, output, dir: None }]
        }
    }
}

impl App {
    /// Asks for one job: what the outside is like comes to `begin_single`.
    pub fn start_single_flow(&mut self) -> (r: Vec<Effect>)
        ensures
            single_wanted(*old(self), *final(self), deeds(r@)),
    {
        if self.single_or_queue_busy() {
            return no_effects();
        }
        let output = match &self.form {
            Some(form) => match &form.preview {
                Some(spec) => find_output(spec),
                None => {
                    self.status_message = Some(copy_text(NO_COMMAND));
                    return no_effects();
                },
            },
            None => {
                return no_effects();
            },
        };
        let known = match self.first_input_probe() {
            Some(p) => p.size_bytes.is_some(),
            None => false,
        };
        let input = if known || self.form_inputs.len() == 0 {
            None
        } else {
            Some(copy_text(self.form_inputs[0].as_str()))
        };
        one_effect(Effect::LookSingle { output, input })
    }

    /// Begins one job, now that it is known whether its output exists and how
    /// large the input's file is.
    pub fn begin_single(
        &mut self,
        output_exists: bool,
        file_size: Option<u64>,
        now: Duration,
    ) -> (r: Vec<Effect>)
        requires
            old(self).wf(),
            old(self).queue.next_id < u64::MAX,
        ensures
            final(self).wf(),
            single_begun(*old(self), *final(self), output_exists, file_size, now, deeds(r@)),
    {
        if self.single_or_queue_busy() {
            return no_effects();
        }
        let (op_name, spec, output) = match &self.form {
            Some(form) => match &form.preview {
                Some(spec) => (
                    show_name(form.op_id.as_str()),
                    spec.copy(),
                    find_output(spec),
                ),
                None => {
                    return no_effects();
                },
            },
            None => {
                return no_effects();
            },
        };
        let (total_duration, probe_size) = match self.first_input_probe() {
            Some(p) => (p.duration, p.size_bytes),
            None => (None, None),
        };
        let input_size = match probe_size {
            Some(n) => Some(n),
            None => file_size,
        };
        self.screen = Screen::Running;
        self.status_message = None;
        if output_exists && self.settings.general.confirm_overwrite {
            self.run = Some(RunState::confirming(op_name, spec, output, now));
            no_effects()
        } else {
            self.run = Some(
                RunState::starting(op_name, spec, output, total_duration, input_size, now),
            );
            self.spawn_current_job(now)
        }
    }

    /// Starts the job of the running screen.
    pub fn spawn_current_job(&mut self, now: Duration) -> (r: Vec<Effect>)
        requires
            old(self).queue.wf(),
            old(self).queue.next_id < u64::MAX,
        ensures
            current_spawned(*old(self), *final(self), now, deeds(r@)),
            old(self).wf() ==> final(self).wf(),
    {
        if let Some(run) = &mut self.run {
            let id: u64 = self.queue.take_id();
            run.phase = RunPhase::Active;
            run.started = now;
            run.job_id = id;
            let e = Effect::Start {
                id,
                spec: run.spec.copy(),
                output: copy_text(run.output.as_str()),
                dir: None,
            };
            one_effect(e)
        } else {
            no_effects()
        }
    }
}

// ---------------------------------------------------------------------------
// The queue
// ---------------------------------------------------------------------------

/// The directory that an output goes to, when it names one.
pub open spec fn out_dir(output: Seq<char>) -> Option<Seq<char>> {
    match parent(output) {
        Some(p) => if p.len() > 0 {
            Some(p)
        } else {
            None
        },
        None => None,
    }
}

/// Starting a job of the queue.
pub open spec fn start_deed(j: Job) -> Deed {
    Deed::Start { id: j.id, command: j.spec@, output: j.output@, dir: out_dir(j.output@) }
}

/// Starting the jobs of the given ids, in order.
pub open spec fn start_deeds(jobs: Seq<Job>, ids: Seq<u64>) -> Seq<Deed> {
    ids.map_values(|id: u64| start_deed(jobs[job_at(jobs, id)]))
}

/// How many jobs of the queue may run at once.
pub open spec fn lanes(a: App) -> int {
    a.settings.concurrency()
}

/// Whether the queue went on from the given state: its slots were filled, and
/// the status line says what came of it once nothing is left.
pub open spec fn went_on(
    before: App,
    q: Queue,
    status: Option<Seq<char>>,
    after: App,
    d: Seq<Deed>,
) -> bool {
    &&& after == (App {
        queue: after.queue,
        status_message: after.status_message,
        ..before
    })
    &&& after.queue@ == pumped(q, lanes(before))
    &&& d == start_deeds(q.jobs, started(q, lanes(before)))
    &&& opt_text(after.status_message) == (if comes_to_rest(q, lanes(before)) {
        Some(closing(after.queue.jobs@))
    } else {
        status
    })
}

/// A queue that was just started.
pub open spec fn set_going(q: Queue) -> Queue {
    Queue { running: true, summary: None, conflicts: Seq::empty(), ..q }
}

/// What starting the queue does: nothing when it is empty or runs.
pub open spec fn queue_started(before: App, after: App, d: Seq<Deed>) -> bool {
    if before.queue.jobs@.len() == 0 || before.queue.running {
        after == before && d == Seq::<Deed>::empty()
    } else {
        went_on(before, set_going(before.queue@), None, after, d)
    }
}

/// A queue in which a job no longer runs.
pub open spec fn job_gone(q: Queue, id: u64) -> Queue {
    Queue { active: q.active.remove(id), ..q }
}

/// A queue in which a job no longer runs, and was changed.
pub open spec fn job_left(q: Queue, id: u64, job: Job) -> Queue {
    Queue { jobs: q.jobs.update(job_at(q.jobs, id), job), ..job_gone(q, id) }
}

/// What the end of a job of the queue does: the job settles, and the queue goes
/// on.
pub open spec fn queue_job_finished(
    before: App,
    id: u64,
    result: JobResult,
    after: App,
    d: Seq<Deed>,
) -> bool {
    let q = before.queue@;
    let i = job_at(q.jobs, id);
    let status = opt_text(before.status_message);
    if i < q.jobs.len() {
        exists|job: Job|
            {
                &&& job == (Job { status: job.status, result: Some(result), ..q.jobs[i] })
                &&& settles(job.status, result)
                &&& went_on(before, #[trigger] job_left(q, id, job), status, after, d)
            }
    } else {
        went_on(before, job_gone(q, id), status, after, d)
    }
}

/// What a failure to make a job's directory does: the job failed, and the queue
/// goes on.
pub open spec fn queue_job_failed(
    before: App,
    id: u64,
    error: Seq<char>,
    after: App,
    d: Seq<Deed>,
) -> bool {
    let q = before.queue@;
    let i = job_at(q.jobs, id);
    let status = opt_text(before.status_message);
    if i < q.jobs.len() {
        exists|job: Job|
            {
                &&& job == (Job { status: job.status, ..q.jobs[i] })
                &&& job.status matches JobStatus::Failed(s) && s@ == "cannot create output dir: "@
                    + error
                &&& went_on(before, #[trigger] job_left(q, id, job), status, after, d)
            }
    } else {
        went_on(before, job_gone(q, id), status, after, d)
    }
}

/// What cancelling the queue does: no job that waits will run, and those that
/// run are asked to stop.
pub open spec fn queue_cancelled(before: App, after: App, d: Seq<Deed>) -> bool {
    &&& after == (App {
        queue: after.queue,
        status_message: after.status_message,
        ..before
    })
    &&& after.queue@ == (Queue {
        jobs: waiting_cancelled(before.queue.jobs@),
        ..before.queue@
    })
    &&& opt_text(after.status_message) == Some("Cancelling the queue…"@)
    &&& d == seq![Deed::CancelAll]
}

/// Copies an output's directory.
fn find_dir(output: &str) -> (r: Option<String>)
    ensures
        opt_text(r) == out_dir(output@),
{
    match get_parent(output) {
        Some(p) => {
            if p.as_str().is_empty() {
                None
            } else {
                Some(p)
            }
        },
        None => None,
    }
}

/// Lists what starts jobs.
fn start_effects(jobs: &Vec<Job>, ids: &Vec<u64>) -> (r: Vec<Effect>)
    requires
        forall|k: int| 0 <= k < ids@.len() ==> job_at(jobs@, #[trigger] ids@[k]) < jobs@.len(),
    ensures
        deeds(r@) == start_deeds(jobs@, ids@),
{
    let mut out = no_effects();
    let mut k: usize = 0;
    while k < ids.len()
        invariant
            k <= ids@.len(),
            forall|k: int| 0 <= k < ids@.len() ==> job_at(jobs@, #[trigger] ids@[k]) < jobs@.len(),
            deeds(out@) =~= start_deeds(jobs@, ids@).take(k as int),
        decreases ids@.len() - k,
    {
        let ghost before = deeds(out@);
        let i: usize = crate::queue::find_job(jobs, ids[k]);
        assert(job_at(jobs@, ids@[k as int]) < jobs@.len());
        let job = &jobs[i];
        let e = Effect::Start {
            id: job.id,
            spec: job.spec.copy(),
            output: copy_text(job.output.as_str()),
            dir: find_dir(job.output.as_str()),
        };
        let ghost deed = e@;
        assert(deed == start_deed(*job));
        out.push(e);
        assert(deeds(out@) =~= before.push(deed));
        k = k + 1;
    }
    assert(deeds(out@) =~= start_deeds(jobs@, ids@));
    out
}

impl App {
    /// Keeps the queue going: starts jobs while slots are free, and says what
    /// came of it once nothing is left.
    pub fn pump_queue(&mut self) -> (r: Vec<Effect>)
        requires
            old(self).queue.wf(),
        ensures
            went_on(
                *old(self),
                old(self).queue@,
                opt_text(old(self).status_message),
                *final(self),
                deeds(r@),
            ),
            final(self).queue.wf(),
    {
        let ghost q = self.queue@;
        let want: usize = self.settings.effective_concurrency();
        let (ids, summary) = self.queue.pump(want);
        proof {
            let w = self.queue.jobs@;
            assert forall|k: int| 0 <= k < ids@.len() implies {
                &&& job_at(w, #[trigger] ids@[k]) < w.len()
                &&& start_deed(w[job_at(w, ids@[k])]) == start_deed(
                    q.jobs[job_at(q.jobs, ids@[k])],
                )
            } by {
                assert(ids@[k] == crate::queue::waiting(q.jobs)[k]);
                let i = crate::queue::pump::lemma_waiting(q.jobs, k);
                lemma_found(q, i);
                assert(w[i].id == q.jobs[i].id);
                lemma_found(self.queue@, i);
            }
        }
        let out = start_effects(&self.queue.jobs, &ids);
        assert(deeds(out@) =~= start_deeds(q.jobs, ids@));
        if let Some(text) = summary {
            self.status_message = Some(text);
        }
        out
    }

    /// Starts the queue, with what was asked about confirmed.
    pub fn start_queue_execution(&mut self) -> (r: Vec<Effect>)
        requires
            old(self).queue.wf(),
        ensures
            queue_started(*old(self), *final(self), deeds(r@)),
            final(self).queue.wf(),
    {
        if self.queue.jobs.len() == 0 || self.queue.running {
            return no_effects();
        }
        self.queue.running = true;
        self.queue.summary = None;
        self.queue.overwrite_conflicts = Vec::new();
        self.status_message = None;
        assert(self.queue@ =~= set_going(old(self).queue@));
        self.pump_queue()
    }

    /// Takes in how a job of the queue ended.
    pub fn finish_queue_job(&mut self, job_id: u64, result: JobResult) -> (r: Vec<Effect>)
        requires
            old(self).queue.wf(),
        ensures
            queue_job_finished(*old(self), job_id, result, *final(self), deeds(r@)),
            final(self).queue.wf(),
    {
        broadcast use vstd::std_specs::hash::group_hash_axioms;

        let ghost q = self.queue@;
        let ghost i = job_at(q.jobs, job_id);
        self.queue.active.remove(&job_id);
        if let Some(found) = self.queue.find_mut(job_id) {
            found.settle(result);
        }
        proof {
            if i < q.jobs.len() {
                assert(self.queue@ =~= job_left(q, job_id, self.queue.jobs@[i]));
            } else {
                assert(self.queue@ =~= job_gone(q, job_id));
            }
        }
        self.pump_queue()
    }

    /// Takes in that the directory of a job of the queue could not be made.
    pub fn on_start_failed(&mut self, job_id: u64, error: String) -> (r: Vec<Effect>)
        requires
            old(self).queue.wf(),
        ensures
            queue_job_failed(*old(self), job_id, error@, *final(self), deeds(r@)),
            final(self).queue.wf(),
    {
        broadcast use vstd::std_specs::hash::group_hash_axioms;

        let ghost q = self.queue@;
        let ghost i = job_at(q.jobs, job_id);
        let text = join2("cannot create output dir: ", error.as_str());
        self.queue.active.remove(&job_id);
        if let Some(found) = self.queue.find_mut(job_id) {
            found.status = JobStatus::Failed(text);
        }
        proof {
            if i < q.jobs.len() {
                assert(self.queue@ =~= job_left(q, job_id, self.queue.jobs@[i]));
            } else {
                assert(self.queue@ =~= job_gone(q, job_id));
            }
        }
        self.pump_queue()
    }

    /// Cancels the queue.
    pub fn cancel_queue_jobs(&mut self) -> (r: Vec<Effect>)
        requires
            old(self).queue.wf(),
        ensures
            queue_cancelled(*old(self), *final(self), deeds(r@)),
            final(self).queue.wf(),
    {
        self.queue.cancel_pending();
        self.status_message = Some(copy_text("Cancelling the queue…"));
        one_effect(Effect::CancelAll)
    }
}

} // verus!
