//! What holds of the application whatever is pressed and reported.

use vstd::prelude::*;
use crate::app::batch::{
    all_planned, batch_begun, batch_of, batch_output, batch_wanted, existing, ext_of, item_planned,
    job_from, jobs_from, queue_over_form, stem, suffix_of, unjoined, with_jobs, Batch, Survey,
};
use crate::app::browse::help_over;
use crate::app::jobs::{
    active_run, busy, current_spawned, job_left, lanes, queue_cancelled, queue_job_finished,
    set_going, single_begun, single_wanted, start_deed, told, went_on, written_by, BUSY,
};
use crate::app::keys::{app_keyed, is_interrupt, neighbour, run_wanted};
use crate::app::{App, Deed, Facts, Planned};
use crate::ffmpeg::builder::{displayed, Command};
use crate::ffmpeg::runner::JobResult;
use crate::key::{KeyCode, KeyEvent};
use crate::ops::menu;
use crate::path::{extension, lemma_tidy, tail, tidy};
use crate::queue::job::{
    braceless, is_variable, law_templates_fill_in_every_variable, settles, stands_for, together,
    Job, JobStatus,
};
use crate::queue::pump::{
    filled, law_cancelling_leaves_nothing_waiting, law_slots_are_filled,
    law_starting_changes_nothing_else, lemma_found, lemma_waiting, next_up, started,
};
use crate::queue::{waiting, waits, Queue};
use crate::text::{begins, lemma_rfind_bounds, opt_text, rfind};
use crate::time::Duration;
use crate::ui::screens::running::RunPhase;

verus! {

/// The help gives back the screen it was opened over: whatever is pressed, other
/// than Ctrl+C and `q`, closes it and leaves everything as it was.
pub proof fn law_help_gives_the_screen_back(
    before: App,
    helped: App,
    key: KeyEvent,
    facts: Facts,
    after: App,
    d: Seq<Deed>,
)
    requires
        before.preset_popup is None,
        before.save_prompt is None,
        helped == (App { screen: help_over(before.screen), ..before }),
        !is_interrupt(key),
        key.code != KeyCode::Char('q'),
        app_keyed(helped, key, facts, after, d),
    ensures
        after == before,
        d == Seq::<Deed>::empty(),
{
}

/// `q` never ends the program while the running screen shows a job that is not
/// over, or the queue runs.
pub proof fn law_quitting_waits_for_work(
    before: App,
    key: KeyEvent,
    facts: Facts,
    after: App,
    d: Seq<Deed>,
)
    requires
        before.preset_popup is None,
        before.save_prompt is None,
        key.code == KeyCode::Char('q'),
        before.screen is Running || before.screen is Queue,
        active_run(before) || before.queue.running,
        app_keyed(before, key, facts, after, d),
    ensures
        after.should_quit == before.should_quit,
        d == Seq::<Deed>::empty(),
{
}

/// The first Ctrl+C never ends the program while the running screen shows a job
/// that runs: it only asks that job to stop.
pub proof fn law_interrupting_stops_the_job_first(
    before: App,
    key: KeyEvent,
    facts: Facts,
    after: App,
    d: Seq<Deed>,
)
    requires
        crate::app::jobs::cancellable(before),
        is_interrupt(key),
        app_keyed(before, key, facts, after, d),
    ensures
        after.should_quit == before.should_quit,
        d == seq![Deed::Cancel(before.run->0.job_id)],
        crate::app::jobs::cancelling(after),
{
}

/// Nothing is started while work goes on: a form that is run then changes
/// nothing but the status line.
pub proof fn law_work_is_never_started_beside_other(
    before: App,
    after: App,
    date: Seq<char>,
    temp: Seq<char>,
    d: Seq<Deed>,
)
    requires
        busy(before),
        before.form is Some,
        run_wanted(before, after, date, temp, d),
    ensures
        d == Seq::<Deed>::empty(),
        told(before, after, BUSY@),
{
}

/// A job that is started has an id that no job of the queue has, and that none
/// will be given again.
pub proof fn law_started_jobs_have_new_ids(
    before: App,
    after: App,
    output_exists: bool,
    file_size: Option<u64>,
    now: Duration,
    d: Seq<Deed>,
)
    requires
        before.wf(),
        before.queue.next_id < u64::MAX,
        single_begun(before, after, output_exists, file_size, now, d),
    ensures
        d.len() <= 1,
        d.len() == 1 ==> {
            &&& d[0] is Start
            &&& d[0]->id < after.queue.next_id
            &&& forall|i: int|
                0 <= i < before.queue.jobs@.len() ==> (#[trigger] before.queue.jobs@[i]).id
                    != d[0]->id
        },
{
}

/// An output that exists is never written over unasked: the files looked at are
/// those that the commands write, and while the settings want a confirmation,
/// neither one job nor a batch starts before it when one of them is there.
pub proof fn law_nothing_is_overwritten_unasked(
    before: App,
    looking: App,
    look: Seq<Deed>,
    planning: App,
    date: Seq<char>,
    temp: Seq<char>,
    survey: Seq<Deed>,
    after: App,
    file_size: Option<u64>,
    now: Duration,
    d: Seq<Deed>,
    items: Seq<Planned>,
    seen: Seq<Survey>,
    batched: App,
    e: Seq<Deed>,
)
    requires
        single_wanted(before, looking, look),
        batch_wanted(before, planning, date, temp, survey),
        before.settings.general.confirm_overwrite,
        single_begun(before, after, true, file_size, now, d),
        existing(items, seen, items.len() as int).len() > 0,
        batch_begun(before, batched, items, seen, e),
    ensures
        look.len() > 0 ==> (look[0] matches Deed::LookSingle(path, _) && path == written_by(
            before.form->0.preview->0@,
        )),
        after.run != before.run ==> (after.run matches Some(run) && run.output@ == written_by(
            run.spec@,
        ) && (look.len() > 0 ==> look[0]->LookSingle_0 == run.output@)),
        survey.len() > 0 ==> (survey[0] matches Deed::SurveyBatch(planned) && forall|i: int|
            0 <= i < planned.len() ==> (#[trigger] planned[i]).output == written_by(
                planned[i].command,
            )),
        d == Seq::<Deed>::empty(),
        e == Seq::<Deed>::empty(),
{
}

/// When one file of a batch cannot be built, nothing of the batch happens: the
/// queue and all else stay as they were but for the status line.
pub proof fn law_a_batch_is_all_or_nothing(
    before: App,
    after: App,
    date: Seq<char>,
    temp: Seq<char>,
    d: Seq<Deed>,
)
    requires
        batch_wanted(before, after, date, temp, d),
    ensures
        after == (App { status_message: after.status_message, ..before }),
        d.len() > 0 ==> d.len() == 1 && d[0] is SurveyBatch && d[0]->SurveyBatch_0.len()
            == before.form_inputs@.len(),
{
}

/// The queue never runs more jobs at once than the settings allow, which is
/// eight at most, and at least one.
pub proof fn law_lanes_are_kept(
    before: App,
    q: Queue,
    status: Option<Seq<char>>,
    after: App,
    d: Seq<Deed>,
)
    requires
        q.wf(),
        went_on(before, q, status, after, d),
    ensures
        1 <= lanes(before) <= 8,
        d.len() > 0 ==> after.queue@.active.len() <= lanes(before),
        d.len() == started(q, lanes(before)).len(),
{
    law_slots_are_filled(q, lanes(before));
}

/// Moving the highlight of the menu one way and then the other gives it back.
pub proof fn law_the_menu_is_round(selected: int)
    requires
        0 <= selected < menu().len(),
    ensures
        0 <= neighbour(selected, true) < menu().len(),
        0 <= neighbour(selected, false) < menu().len(),
        neighbour(neighbour(selected, true), false) == selected,
        neighbour(neighbour(selected, false), true) == selected,
{
    assert(menu().len() == 11);
}

/// What runs is what the form showed: one job runs exactly the command of the
/// preview, and the running screen shows that command.
pub proof fn law_what_was_shown_is_what_runs(
    before: App,
    after: App,
    output_exists: bool,
    file_size: Option<u64>,
    now: Duration,
    d: Seq<Deed>,
    confirmed: App,
    later: Duration,
    e: Seq<Deed>,
)
    requires
        !busy(before),
        before.form matches Some(f) && f.preview is Some,
        single_begun(before, after, output_exists, file_size, now, d),
        current_spawned(after, confirmed, later, e),
    ensures
        ({
            let command = before.form->0.preview->0@;
            &&& after.screen is Running
            &&& after.run matches Some(r) && r.spec@ == command && r.display_command@ == displayed(
                command,
            )
            &&& !output_exists ==> d.len() == 1
            &&& d.len() == 1 ==> (d[0] matches Deed::Start { command: run, output, .. } && run
                == command && (command.args.len() > 0 ==> output == command.args.last()))
            &&& e.len() == 1 && (e[0] matches Deed::Start { command: run, .. } && run == command)
            &&& confirmed.run matches Some(r) && r.phase == RunPhase::Active && r.started == later
                && r.spec@ == command
        }),
{
}

/// A batch makes one job for each file, in the order in which they were chosen:
/// the jobs join the queue behind those already there, each with its own input,
/// command and output.
pub proof fn law_a_batch_is_one_job_per_file(
    asked: App,
    planning: App,
    date: Seq<char>,
    temp: Seq<char>,
    survey: Seq<Deed>,
    before: App,
    seen: Seq<Survey>,
    after: App,
    d: Seq<Deed>,
)
    requires
        batch_wanted(asked, planning, date, temp, survey),
        survey.len() > 0,
        before.form is Some,
        !busy(before),
        batch_begun(before, after, survey[0]->SurveyBatch_0, seen, d),
    ensures
        ({
            let items = survey[0]->SurveyBatch_0;
            let old_jobs = before.queue.jobs@;
            let jobs = after.queue.jobs@;
            &&& items.len() == asked.form_inputs@.len()
            &&& jobs.len() == old_jobs.len() + items.len()
            &&& forall|k: int| 0 <= k < items.len() ==> {
                let job = #[trigger] jobs[old_jobs.len() + k];
                &&& items[k].input == asked.form_inputs@[k]@
                &&& job.input@ == asked.form_inputs@[k]@
                &&& job.spec@ == items[k].command
                &&& job.output@ == items[k].output
                &&& job.status is Pending || job.status is Running
            }
            &&& forall|k: int|
                0 <= k < old_jobs.len() ==> (#[trigger] jobs[k]).id == old_jobs[k].id
                    && jobs[k].spec@ == old_jobs[k].spec@
        }),
{
    let items = survey[0]->SurveyBatch_0;
    let old_jobs = before.queue.jobs@;
    let b = batch_of(asked, date, temp);
    let n = asked.form_inputs@.len() as int;
    let planned = choose|planned: Seq<Planned>| #[trigger]
        all_planned(asked, b, planned, n) && survey == seq![Deed::SurveyBatch(planned)];
    assert(survey[0] == Deed::SurveyBatch(planned));
    assert(items == planned);
    let made = choose|jobs: Seq<Job>|
        {
            let q = with_jobs(before.queue@, jobs);
            let shown = App { screen: queue_over_form(), ..before };
            let conflicts = existing(items, seen, items.len() as int);
            &&& #[trigger] jobs_from(
                jobs,
                before.queue.next_id,
                before.form->0.op_id@,
                items,
                seen,
            )
            &&& if conflicts.len() > 0 && before.settings.general.confirm_overwrite {
                &&& after.queue@ == (Queue { conflicts, ..q })
            } else if q.jobs.len() == 0 || q.running {
                &&& after.queue@ == q
            } else {
                went_on(shown, set_going(q), None, after, d)
            }
        };
    let q = with_jobs(before.queue@, made);
    assert forall|k: int| 0 <= k < items.len() implies {
        let job = #[trigger] after.queue.jobs@[old_jobs.len() + k];
        &&& items[k].input == asked.form_inputs@[k]@
        &&& job.input@ == asked.form_inputs@[k]@
        &&& job.spec@ == items[k].command
        &&& job.output@ == items[k].output
        &&& job.status is Pending || job.status is Running
    } by {
        assert(item_planned(asked, b, k as nat, asked.form_inputs@[k]@, items[k]));
        assert(job_from(
            made[k],
            (before.queue.next_id + k) as u64,
            before.form->0.op_id@,
            items[k],
            seen[k],
        ));
        assert(q.jobs[old_jobs.len() + k] == made[k]);
    }
    assert forall|k: int| 0 <= k < old_jobs.len() implies (#[trigger] after.queue.jobs@[k]).id
        == old_jobs[k].id && after.queue.jobs@[k].spec@ == old_jobs[k].spec@ by {
        assert(q.jobs[k] == old_jobs[k]);
    }
}

/// The outputs of a batch are the template filled in, with the files numbered
/// from one in the order in which they were chosen.
pub proof fn law_batch_outputs_are_numbered_from_one(
    b: Batch,
    parts: Seq<Seq<char>>,
    index: nat,
    input: Seq<char>,
    first: Command,
)
    requires
        b.template == together(parts),
        forall|i: int| 0 <= i < parts.len() ==> is_variable(#[trigger] parts[i]) || braceless(parts[i]),
        first.args.len() > 0,
        braceless(input),
        braceless(first.args.last()),
        braceless(b.date),
    ensures
        ({
            let own = first.args.last();
            let full = together(
                parts.map_values(
                    |p: Seq<char>|
                        stands_for(
                            p,
                            input,
                            index + 1,
                            suffix_of(own, input),
                            ext_of(own, input),
                            b.date,
                        ),
                ),
            );
            batch_output(b, index, input, first) == (if begins(full, "./"@) {
                full.skip(2)
            } else {
                full
            })
        }),
{
    let own = first.args.last();
    lemma_braceless_split(own, input);
    law_templates_fill_in_every_variable(
        parts,
        input,
        index + 1,
        suffix_of(own, input),
        ext_of(own, input),
        b.date,
    );
}

proof fn lemma_braceless_split(own: Seq<char>, input: Seq<char>)
    requires
        braceless(own),
        braceless(input),
    ensures
        braceless(suffix_of(own, input)),
        braceless(ext_of(own, input)),
{
    reveal_strlit("mp4");
    lemma_braceless_path(own);
    lemma_braceless_path(input);
    if begins(stem(own), stem(input)) {
        let rest = stem(own).skip(stem(input).len() as int);
        assert(braceless(rest)) by {
            if rest.contains('{') {
                let i = choose|i: int| 0 <= i < rest.len() && rest[i] == '{';
                assert(stem(own)[stem(input).len() + i] == '{');
            }
        }
        lemma_braceless_unjoined(rest);
    }
}

proof fn lemma_braceless_unjoined(s: Seq<char>)
    requires
        braceless(s),
    ensures
        braceless(unjoined(s)),
    decreases s.len(),
{
    if s.len() > 0 && (s[0] == '_' || s[0] == '-') {
        let t = s.skip(1);
        if t.contains('{') {
            let i = choose|i: int| 0 <= i < t.len() && t[i] == '{';
            assert(s[i + 1] == '{');
        }
        lemma_braceless_unjoined(t);
    }
}

/// The parts of a path without braces have none.
proof fn lemma_braceless_path(p: Seq<char>)
    requires
        braceless(p),
    ensures
        braceless(stem(p)),
        extension(p) matches Some(e) ==> braceless(e),
{
    let t = tidy(p);
    lemma_tidy(p);
    lemma_rfind_bounds(t, '/');
    let name = tail(t);
    assert forall|i: int| 0 <= i < name.len() implies #[trigger] name[i] != '{' by {
        assert(name[i] == t[rfind(t, '/') + 1 + i]);
        assert(t[rfind(t, '/') + 1 + i] == p[rfind(t, '/') + 1 + i]);
    }
    lemma_rfind_bounds(name, '.');
    let s = stem(p);
    if s.contains('{') {
        let i = choose|i: int| 0 <= i < s.len() && s[i] == '{';
        assert(name[i] == '{');
    }
    if let Some(e) = extension(p) {
        if e.contains('{') {
            let i = choose|i: int| 0 <= i < e.len() && e[i] == '{';
            assert(name[rfind(name, '.') + 1 + i] == '{');
        }
    }
}

/// A job of the queue that starts runs its own command into its own output, and
/// shows as running; jobs start in the order in which they wait.
pub proof fn law_started_jobs_run_their_own_commands(
    before: App,
    q: Queue,
    status: Option<Seq<char>>,
    after: App,
    d: Seq<Deed>,
    k: int,
)
    requires
        q.wf(),
        went_on(before, q, status, after, d),
        0 <= k < d.len(),
    ensures
        exists|i: int|
            0 <= i < q.jobs.len() && q.jobs[i].status is Pending && (
            #[trigger] after.queue.jobs@[i]).status is Running && q.jobs[i].id == waiting(q.jobs)[k]
                && (d[k] matches Deed::Start { id, command, output, .. } && id == q.jobs[i].id
                && command == q.jobs[i].spec@ && output == q.jobs[i].output@),
{
    let want = lanes(before);
    law_slots_are_filled(q, want);
    let ids = started(q, want);
    assert(ids[k] == waiting(q.jobs)[k]);
    let i = lemma_waiting(q.jobs, k);
    lemma_found(q, i);
    assert(d[k] == start_deed(q.jobs[i]));
    assert(ids.contains(ids[k]));
    assert(after.queue.jobs@[i].status is Running);
}

/// A job of the queue that ended keeps its result and shows how it ended; it no
/// longer counts as running, whatever became of it, and no other job but those
/// that now start is changed.
pub proof fn law_ended_jobs_keep_their_results(
    before: App,
    result: JobResult,
    after: App,
    d: Seq<Deed>,
    i: int,
)
    requires
        before.queue.wf(),
        0 <= i < before.queue.jobs@.len(),
        before.queue.jobs@[i].status is Running,
        queue_job_finished(before, before.queue.jobs@[i].id, result, after, d),
    ensures
        ({
            let jobs = before.queue.jobs@;
            let then = after.queue.jobs@;
            &&& then.len() == jobs.len()
            &&& then[i].result == Some(result)
            &&& then[i].status is Done <==> result.success
            &&& then[i].status is Cancelled <==> !result.success && result.cancelled
            &&& then[i].status is Failed <==> !result.success && !result.cancelled
            &&& !after.queue.active@.contains(jobs[i].id)
            &&& forall|j: int|
                0 <= j < jobs.len() && j != i ==> #[trigger] then[j] == jobs[j] || (
                jobs[j].status is Pending && then[j] == (Job {
                    status: JobStatus::Running,
                    ..jobs[j]
                }))
        }),
{
    let q = before.queue@;
    let id = q.jobs[i].id;
    lemma_found(q, i);
    let job = choose|job: Job|
        {
            &&& job == (Job { status: job.status, result: Some(result), ..q.jobs[i] })
            &&& settles(job.status, result)
            &&& went_on(
                before,
                #[trigger] job_left(q, id, job),
                opt_text(before.status_message),
                after,
                d,
            )
        };
    let mid = job_left(q, id, job);
    assert(mid.wf()) by {
        assert forall|a: int| 0 <= a < mid.jobs.len() implies (#[trigger] mid.jobs[a]).id
            == q.jobs[a].id by {}
        assert forall|a: int, b: int| 0 <= a < b < mid.jobs.len() implies (#[trigger] mid.jobs[a]).id
            != (#[trigger] mid.jobs[b]).id by {
            assert(q.jobs[a].id != q.jobs[b].id);
        }
        assert forall|a: int| 0 <= a < mid.jobs.len() && waits(#[trigger] mid.jobs[a])
            implies !mid.active.contains(mid.jobs[a].id) by {
            if a != i {
                assert(waits(q.jobs[a]));
            }
        }
    }
    let want = lanes(before);
    let f = filled(mid, want);
    assert(after.queue.jobs@ == after.queue@.jobs);
    assert(after.queue.jobs@ == (if mid.running {
        f.jobs
    } else {
        mid.jobs
    }));
    assert(after.queue.active@ == after.queue@.active);
    law_starting_changes_nothing_else(mid, want, i);
    assert forall|j: int| 0 <= j < q.jobs.len() && j != i implies #[trigger] after.queue.jobs@[j]
        == q.jobs[j] || (q.jobs[j].status is Pending && after.queue.jobs@[j] == (Job {
        status: JobStatus::Running,
        ..q.jobs[j]
    })) by {
        law_starting_changes_nothing_else(mid, want, j);
        assert(mid.jobs[j] == q.jobs[j]);
    }
    let ids = next_up(mid, want);
    if mid.running && ids.contains(id) {
        let k = ids.index_of(id);
        assert(waiting(mid.jobs)[k] == id);
        let m = lemma_waiting(mid.jobs, k);
        if m < i {
            assert(q.jobs[m].id != q.jobs[i].id);
        } else if i < m {
            assert(q.jobs[i].id != q.jobs[m].id);
        }
    }
}

/// Cancelling the queue stops everything: the jobs that run are asked to stop,
/// and none that waited will ever start.
pub proof fn law_cancelling_stops_everything(before: App, after: App, d: Seq<Deed>)
    requires
        queue_cancelled(before, after, d),
    ensures
        d == seq![Deed::CancelAll],
        waiting(after.queue.jobs@).len() == 0,
        after.queue.jobs@.len() == before.queue.jobs@.len(),
        after.queue.active@ == before.queue.active@,
        forall|i: int|
            0 <= i < before.queue.jobs@.len() ==> (if before.queue.jobs@[i].status is Pending {
                (#[trigger] after.queue.jobs@[i]).status is Cancelled
            } else {
                after.queue.jobs@[i] == before.queue.jobs@[i]
            }),
{
    law_cancelling_leaves_nothing_waiting(before.queue.jobs@);
}

} // verus!
