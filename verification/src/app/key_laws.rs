//! What the keys and the reports do, screen by screen.

use vstd::prelude::*;
use crate::app::batch::{batch_of, existing, item_planned, job_from, Batch, Survey};
use crate::app::browse::{inputs_chosen, path_found};
use crate::app::forms::{all_ready, default_params, moved_row, moved_rows, opening_rows};
use crate::app::jobs::{busy, name_of, single_begun, start_deed, written_by};
use crate::app::keys::{app_keyed, choosable, is_interrupt, queue_screen_keyed, run_wanted, tenths};
use crate::app::messages::{
    capabilities_known, custom_path_known, reported, run_finished, run_progressed, ticked,
};
use crate::app::{App, Deed, Facts, Planned, ProbeState};
use crate::background::BackgroundMsg;
use crate::config::presets::{applied_rows, law_presets_set_what_they_name};
use crate::ffmpeg::capabilities::CapabilityReport;
use crate::ffmpeg::errors::finding;
use crate::ffmpeg::probe::ProbeResult;
use crate::ffmpeg::progress::ProgressUpdate;
use crate::ffmpeg::runner::JobResult;
use crate::key::{KeyCode, KeyEvent};
use crate::number::{dec, law_nearest_is_nearest, nearest};
use crate::ops::fields::{Control, Row};
use crate::ops::{law_ids_resolve, menu, registry, Operation};
use crate::path::{file_name, law_paths_split_and_join, tidy};
use crate::queue::job::Job;
use crate::queue::{job_at, over, unfinished};
use crate::text::{joined, texts};
use crate::time::Duration;
use crate::ui::screens::file_browser::PathKind;
use crate::ui::screens::running::{opt_finding, RunState};

verus! {

/// Whether nothing lies over the screen: no list of presets, no prompt.
pub open spec fn uncovered(a: App) -> bool {
    a.preset_popup is None && a.save_prompt is None
}

/// In the menu, down goes to the next operation and up to the one before, with
/// the ends joined; enter goes on to the files of the highlighted one.
pub proof fn law_the_menu_moves_one_row(
    before: App,
    key: KeyEvent,
    facts: Facts,
    after: App,
    d: Seq<Deed>,
)
    requires
        before.screen is OperationPicker,
        before.selected_operation < menu().len(),
        uncovered(before),
        !is_interrupt(key),
        app_keyed(before, key, facts, after, d),
    ensures
        key.code == KeyCode::Down ==> after.selected_operation == (if before.selected_operation + 1
            == menu().len() {
            0
        } else {
            before.selected_operation + 1
        }),
        key.code == KeyCode::Up ==> after.selected_operation == (if before.selected_operation == 0 {
            menu().len() - 1
        } else {
            before.selected_operation - 1
        }),
        key.code == KeyCode::Enter ==> after.screen is FileBrowser && after.selected_operation
            == before.selected_operation && after.browser@.cwd == facts.start_dir@
            && after.pending_preset == before.pending_preset,
        key.code == KeyCode::Esc ==> after.should_quit,
        key.code == KeyCode::Up || key.code == KeyCode::Down || key.code == KeyCode::Enter
            ==> after.should_quit == before.should_quit,
{
    assert(menu().len() == 11);
}

/// From the menu, the browser and the form, `Q` shows the queue, and escape
/// brings the screen back with everything as it was.
pub proof fn law_the_queue_gives_the_screen_back(
    before: App,
    open: KeyEvent,
    facts: Facts,
    shown: App,
    d: Seq<Deed>,
    close: KeyEvent,
    after: App,
    e: Seq<Deed>,
)
    requires
        before.screen is OperationPicker || before.screen is ParameterForm,
        before.screen is ParameterForm ==> (before.form matches Some(f) && !f.editing),
        uncovered(before),
        open.code == KeyCode::Char('Q'),
        app_keyed(before, open, facts, shown, d),
        close.code == KeyCode::Esc,
        app_keyed(shown, close, facts, after, e),
    ensures
        shown.screen is Queue,
        d.len() == 0,
        after == before,
        e.len() == 0,
{
}

/// Several files run as one batch with a command for each, but for an operation
/// that takes them together; that one, and a single file, runs the one command
/// that the form shows.
pub proof fn law_several_files_run_as_a_batch(
    before: App,
    after: App,
    date: Seq<char>,
    temp: Seq<char>,
    d: Seq<Deed>,
)
    requires
        !busy(before),
        before.form is Some,
        run_wanted(before, after, date, temp, d),
    ensures
        ({
            let f = before.form->0;
            let n = before.form_inputs@.len();
            &&& (n <= 1 || f.op_id@ == "concat"@) && f.preview is Some ==> d.len() == 1 && (
            d[0] matches Deed::LookSingle(output, _) && output == written_by(f.preview->0@))
            &&& n > 1 && f.op_id@ != "concat"@ && d.len() > 0 ==> d.len() == 1 && (
            d[0] matches Deed::SurveyBatch(items) && items.len() == n && forall|k: int|
                0 <= k < n ==> (#[trigger] items[k]).input == before.form_inputs@[k]@)
            &&& d.len() > 0 ==> after == before
        }),
{
    let f = before.form->0;
    let n = before.form_inputs@.len();
    if n > 1 && f.op_id@ != "concat"@ && d.len() > 0 {
        let items = d[0]->SurveyBatch_0;
        let b = batch_of(before, date, temp);
        assert forall|k: int| 0 <= k < n implies (#[trigger] items[k]).input
            == before.form_inputs@[k]@ by {
            assert(item_planned(before, b, k as nat, before.form_inputs@[k]@, items[k]));
        }
    }
}

/// In the queue, `x` removes the selected job if it waits, and no other job
/// ever; `c` removes the jobs that are over, and no other.
pub proof fn law_only_idle_jobs_are_removed(
    before: App,
    key: KeyEvent,
    after: App,
    d: Seq<Deed>,
    i: int,
)
    requires
        before.screen is Queue,
        queue_screen_keyed(before, key, after, d),
        0 <= i < before.queue.jobs@.len(),
    ensures
        key.code == KeyCode::Char('x') ==> {
            let v = before.queue.jobs@;
            let w = after.queue.jobs@;
            let at = before.queue.selected as int;
            &&& d.len() == 0
            &&& at < v.len() && v[at].status is Pending ==> w.len() == v.len() - 1 && (i < at ==> w[i]
                == v[i]) && (i > at ==> w[i - 1] == v[i])
            &&& !(at < v.len() && v[at].status is Pending) ==> w == v
        },
        key.code == KeyCode::Char('c') ==> d.len() == 0 && (after.queue.jobs@.contains(
            before.queue.jobs@[i],
        ) <==> before.queue.jobs@[i].status is Pending || before.queue.jobs@[i].status is Running),
{
    if key.code == KeyCode::Char('c') {
        lemma_unfinished(before.queue.jobs@, before.queue.jobs@[i]);
        assert(before.queue.jobs@.contains(before.queue.jobs@[i]));
    }
}

proof fn lemma_unfinished(v: Seq<Job>, j: Job)
    ensures
        unfinished(v).contains(j) <==> v.contains(j) && !over(j),
    decreases v.len(),
{
    if v.len() > 0 {
        let w = v.drop_last();
        let x = v.last();
        lemma_unfinished(w, j);
        assert(v =~= w.push(x));
        lemma_pushed(w, x, j);
        lemma_pushed(unfinished(w), x, j);
    }
}

proof fn lemma_pushed<A>(w: Seq<A>, x: A, e: A)
    ensures
        w.push(x).contains(e) <==> w.contains(e) || x == e,
{
    if w.contains(e) {
        let i = choose|i: int| 0 <= i < w.len() && w[i] == e;
        assert(w.push(x)[i] == e);
    }
    assert(w.push(x)[w.len() as int] == x);
    if w.push(x).contains(e) {
        let i = choose|i: int| 0 <= i < w.push(x).len() && w.push(x)[i] == e;
        if i < w.len() {
            assert(w[i] == e);
        }
    }
}

/// The files that were chosen are the form's inputs, in their order, and the
/// form is that of the operation that was picked.
pub proof fn law_the_form_is_for_the_chosen_files(
    before: App,
    inputs: Seq<Seq<char>>,
    now: Duration,
    temp: Seq<char>,
    after: App,
    d: Seq<Deed>,
)
    requires
        before.selected_operation < menu().len(),
        inputs_chosen(before, inputs, now, temp, after, d),
    ensures
        texts(after.form_inputs@) == inputs,
        after.screen is ParameterForm,
        after.form matches Some(f) && f.op_id@ == registry()[before.selected_operation as int].about().id,
        after.selected_operation == before.selected_operation,
        after.pending_preset is None,
{
}

/// A report of progress reaches the job it is about and no other.
pub proof fn law_reports_reach_their_own_job(
    before: App,
    id: u64,
    update: ProgressUpdate,
    now: Duration,
    output_exists: bool,
    after: App,
    d: Seq<Deed>,
    i: int,
)
    requires
        reported(
            before,
            BackgroundMsg::JobProgress { job_id: id, update },
            now,
            output_exists,
            after,
            d,
        ),
        0 <= i < before.queue.jobs@.len(),
    ensures
        d.len() == 0,
        after.screen == before.screen,
        after.queue.jobs@.len() == before.queue.jobs@.len(),
        before.run matches Some(r) && r.job_id == id ==> after.queue == before.queue,
        !(before.run matches Some(r) && r.job_id == id) ==> after.run == before.run,
        before.queue.jobs@[i].id != id ==> after.queue.jobs@[i] == before.queue.jobs@[i],
{
    lemma_job_at(before.queue.jobs@, id);
}

proof fn lemma_job_at(v: Seq<Job>, id: u64)
    ensures
        0 <= job_at(v, id) <= v.len(),
        job_at(v, id) < v.len() ==> v[job_at(v, id)].id == id,
    decreases v.len(),
{
    if v.len() > 0 && v[0].id != id {
        lemma_job_at(v.skip(1), id);
        if job_at(v, id) < v.len() {
            assert(v[job_at(v, id)] == v.skip(1)[job_at(v.skip(1), id)]);
        }
    }
}

/// A figure that an update brings is shown, and one that it lacks stays as it
/// was; only the speed is always the update's own.
pub proof fn law_figures_stay_until_replaced(before: RunState, u: ProgressUpdate, after: RunState)
    requires
        run_progressed(before, u, after),
    ensures
        u.frame is Some ==> after.frame == u.frame,
        u.frame is None ==> after.frame == before.frame,
        u.fps is Some ==> after.fps == u.fps,
        u.fps is None ==> after.fps == before.fps,
        u.bitrate_kbps is Some ==> after.bitrate_kbps == u.bitrate_kbps,
        u.bitrate_kbps is None ==> after.bitrate_kbps == before.bitrate_kbps,
        u.total_size_bytes is Some ==> after.total_size == u.total_size_bytes,
        u.total_size_bytes is None ==> after.total_size == before.total_size,
        u.out_time is Some ==> after.out_time == u.out_time,
        u.out_time is None ==> after.out_time == before.out_time,
        u.drop_frames matches Some(n) ==> after.drop_frames == n,
        u.drop_frames is None ==> after.drop_frames == before.drop_frames,
        u.dup_frames matches Some(n) ==> after.dup_frames == n,
        u.dup_frames is None ==> after.dup_frames == before.dup_frames,
        after.last_speed == u.speed,
        after.phase == before.phase && after.spec == before.spec && after.output == before.output,
{
}

/// Nobody is asked to delete the output of a job that succeeded; of one that did
/// not they are asked if it left a file. A failure is explained from its own
/// output, and only a failure is.
pub proof fn law_only_fragments_are_offered_for_deletion(
    before: RunState,
    result: JobResult,
    output_exists: bool,
    now: Duration,
    after: RunState,
)
    requires
        run_finished(before, result, output_exists, now, after),
    ensures
        after.phase is ConfirmDelete <==> output_exists && !result.success,
        after.phase is ConfirmDelete || after.phase is Done,
        after.result == Some(result),
        after.finished_at == Some(now),
        result.success || result.cancelled ==> after.diagnosis == before.diagnosis,
        !result.success && !result.cancelled ==> opt_finding(after.diagnosis) == finding(
            joined(texts(result.stderr@), "\n"@),
        ),
{
}

/// Without a usable FFmpeg the program says so and goes nowhere else; with one,
/// the menu follows the start.
pub proof fn law_the_menu_needs_ffmpeg(
    before: App,
    report: CapabilityReport,
    after: App,
    d: Seq<Deed>,
)
    requires
        capabilities_known(before, report, after, d),
    ensures
        after.caps == Some(report),
        !(report.found && report.usable) ==> after.screen is MissingFfmpeg,
        report.found && report.usable && before.screen is Startup ==> after.screen is OperationPicker,
        report.found && report.usable && !(before.screen is Startup) ==> after.screen
            == before.screen,
        d.len() == 0,
{
}

/// A path that the user typed is kept and saved when the program there answers,
/// and is dropped when it does not.
pub proof fn law_only_working_paths_are_kept(
    before: App,
    report: CapabilityReport,
    after: App,
    d: Seq<Deed>,
)
    requires
        custom_path_known(before, report, after, d),
    ensures
        report.usable && before.missing.pending_path is Some ==> after.settings.general.ffmpeg_path
            == before.missing.pending_path && d == seq![Deed::SavePath] && after.screen is OperationPicker
            && after.caps == Some(report),
        !report.usable ==> after.settings == before.settings && d.len() == 0 && after.screen
            == before.screen && after.missing.error is Some,
        after.missing.pending_path is None && !after.missing.checking,
{
}

/// What a batch would overwrite are the outputs that exist, and no others.
pub proof fn law_conflicts_are_the_existing_outputs(
    items: Seq<Planned>,
    seen: Seq<Survey>,
    n: int,
    p: Seq<char>,
)
    requires
        0 <= n <= items.len(),
        n <= seen.len(),
    ensures
        existing(items, seen, n).contains(p) <==> exists|k: int|
            0 <= k < n && (#[trigger] items[k]).output == p && seen[k].exists,
    decreases n,
{
    if n > 0 {
        law_conflicts_are_the_existing_outputs(items, seen, n - 1, p);
        let before = existing(items, seen, n - 1);
        if seen[n - 1].exists {
            lemma_pushed(before, items[n - 1].output, p);
        }
        if exists|k: int| 0 <= k < n - 1 && (#[trigger] items[k]).output == p && seen[k].exists {
            let k = choose|k: int|
                0 <= k < n - 1 && (#[trigger] items[k]).output == p && seen[k].exists;
            assert(0 <= k < n);
        }
        assert(items[n - 1].output == items[n - 1].output);
    }
}

/// Choosing a preset takes the one that is highlighted, for its own operation,
/// and goes on to the files.
pub proof fn law_the_highlighted_preset_is_taken(
    before: App,
    key: KeyEvent,
    facts: Facts,
    after: App,
    d: Seq<Deed>,
)
    requires
        before.preset_popup matches Some(p) && p.selected < choosable(before).len(),
        key.code == KeyCode::Enter,
        app_keyed(before, key, facts, after, d),
    ensures
        ({
            let r = choosable(before)[before.preset_popup->0.selected as int];
            &&& after.preset_popup is None
            &&& forall|m: int|
                0 <= m < menu().len() && (#[trigger] menu()[m]).id == r.operation ==> {
                    &&& after.selected_operation == m
                    &&& after.screen is FileBrowser
                    &&& after.pending_preset matches Some(p) && p@ == r
                }
        }),
{
    let r = choosable(before)[before.preset_popup->0.selected as int];
    assert forall|m: int| 0 <= m < menu().len() && (#[trigger] menu()[m]).id == r.operation implies {
        &&& after.selected_operation == m
        &&& after.screen is FileBrowser
        &&& after.pending_preset matches Some(p) && p@ == r
    } by {
        law_ids_resolve(m);
        assert(menu().len() == 11);
    }
}

/// A form opens with the values that the settings give as defaults, a preset's
/// own values in their place.
pub proof fn law_forms_open_with_the_configured_values(a: App, i: int)
    requires
        a.selected_operation < menu().len(),
        a.settings.general.default_output_dir@.len() == 0,
        0 <= i < registry()[a.selected_operation as int].form(
            crate::app::forms::first_ready(a),
            a.caps,
        ).len(),
    ensures
        ({
            let v = registry()[a.selected_operation as int].form(
                crate::app::forms::first_ready(a),
                a.caps,
            );
            let row = opening_rows(a)[i];
            let n = a.settings.defaults.crf as int;
            &&& opening_rows(a).len() == v.len()
            &&& row.id == v[i].id
            &&& v[i].id == "crf"@ && a.pending_preset is None ==> (
            v[i].control matches Control::Slider { min, max, .. } ==> (min <= n <= max ==> (
            row.control matches Control::Slider { value, .. } && value == n)))
            &&& a.pending_preset matches Some(p) ==> (forall|k: int|
                0 <= k < p@.params.len() && (#[trigger] p@.params[k]).0 == v[i].id && (forall|j: int|
                    k < j < p@.params.len() ==> (#[trigger] p@.params[j]).0 != v[i].id)
                    && p@.params[k].1 is Int ==> (v[i].control matches Control::Slider {
                    min,
                    max,
                    ..
                } ==> (min <= p@.params[k].1->Int_0 <= max ==> (row.control matches Control::Slider {
                    value,
                    ..
                } && value == p@.params[k].1->Int_0))))
        }),
{
    let v = registry()[a.selected_operation as int].form(
        crate::app::forms::first_ready(a),
        a.caps,
    );
    let d = default_params(a.settings.defaults);
    let w = applied_rows(v, d);
    reveal_strlit("video_codec");
    reveal_strlit("crf");
    reveal_strlit("preset");
    reveal_strlit("audio_codec");
    reveal_strlit("audio_bitrate");
    if v[i].id == "crf"@ {
        assert(d[1].0 == v[i].id);
        assert forall|j: int| 1 < j < d.len() implies (#[trigger] d[j]).0 != v[i].id by {
            assert("crf"@.len() == 3);
            assert(d[2].0.len() == 6 && d[3].0.len() == 11 && d[4].0.len() == 13);
        }
        law_presets_set_what_they_name(v, d, i, 1);
    }
    assert(w[i].id == v[i].id);
    assert(v[i].control is Slider ==> w[i].control is Slider && w[i].control->Slider_min
        == v[i].control->Slider_min && w[i].control->Slider_max == v[i].control->Slider_max);
    if let Some(p) = a.pending_preset {
        let q = p@.params;
        assert forall|k: int|
            0 <= k < q.len() && (#[trigger] q[k]).0 == v[i].id && (forall|j: int|
                k < j < q.len() ==> (#[trigger] q[j]).0 != v[i].id) && q[k].1 is Int implies (
        v[i].control matches Control::Slider { min, max, .. } ==> (min <= q[k].1->Int_0 <= max ==> (
        opening_rows(a)[i].control matches Control::Slider { value, .. } && value
            == q[k].1->Int_0))) by {
            law_presets_set_what_they_name(w, q, i, k);
        }
    }
}

/// With an output directory configured, the output keeps its name and moves
/// there, and no other field changes.
pub proof fn law_outputs_go_to_the_configured_directory(
    r: Row,
    dir: Seq<char>,
    from: Seq<char>,
    name: Seq<char>,
)
    requires
        dir.len() > 0,
        tidy(dir) == dir,
        dir.last() != '/',
        from.len() > 0,
        tidy(from) == from,
        from.last() != '/',
        name.len() > 0,
        !name.contains('/'),
        name != seq!['.'],
        name != seq!['.', '.'],
    ensures
        r.id == "output"@ ==> (r.control matches Control::Text { buffer } ==> (buffer.text == from
            + seq!['/'] + name ==> (moved_row(r, dir).control matches Control::Text { buffer: b }
            && b.text == dir + seq!['/'] + name && file_name(b.text) == Some(name)))),
        r.id != "output"@ ==> moved_row(r, dir) == r,
        moved_rows(seq![r], Seq::empty()) == seq![r],
        moved_rows(seq![r], dir)[0] == moved_row(r, dir),
{
    law_paths_split_and_join(dir, name, Seq::empty());
    law_paths_split_and_join(from, name, Seq::empty());
}

/// A time is written in seconds to the nearest tenth: the digits, with the
/// point left out, are the tenths.
pub proof fn law_tenths_are_nearest(nanos: nat)
    ensures
        exists|t: nat|
            #![trigger dec(t / 10)]
            {
                &&& tenths(nanos) == dec(t / 10) + "."@ + dec(t % 10)
                &&& 2 * (t * 100_000_000) <= 2 * nanos + 100_000_000
                &&& 2 * nanos <= 2 * (t * 100_000_000) + 100_000_000
            },
{
    let t = nearest(nanos, 100_000_000);
    law_nearest_is_nearest(nanos, 100_000_000);
    assert(tenths(nanos) == dec(t / 10) + "."@ + dec(t % 10));
}

/// A job knows the length of its own input, as it was probed, and starts from
/// nothing.
pub proof fn law_jobs_know_the_length_of_their_input(
    before: App,
    after: App,
    file_size: Option<u64>,
    now: Duration,
    d: Seq<Deed>,
    p: ProbeResult,
)
    requires
        !busy(before),
        before.form matches Some(f) && f.preview is Some,
        before.form_inputs@.len() > 0,
        before.probes@.contains_key(before.form_inputs@[0]@),
        before.probes@[before.form_inputs@[0]@] == ProbeState::Ready(p),
        single_begun(before, after, false, file_size, now, d),
    ensures
        after.run matches Some(r) && {
            &&& r.total_duration == p.duration
            &&& p.size_bytes is Some ==> r.input_size == p.size_bytes
            &&& p.size_bytes is None ==> r.input_size == file_size
            &&& r.started == now
            &&& r.out_time is None && r.result is None
        },
{
}

/// Every job of a batch knows the length of its own input, and its command
/// writes what the job says it does.
pub proof fn law_batch_jobs_know_their_own_input(
    a: App,
    b: Batch,
    index: nat,
    input: Seq<char>,
    item: Planned,
    job: Job,
    id: u64,
    op_id: Seq<char>,
    seen: Survey,
    p: ProbeResult,
)
    requires
        item_planned(a, b, index, input, item),
        job_from(job, id, op_id, item, seen),
        a.probes@.contains_key(input),
        a.probes@[input] == ProbeState::Ready(p),
    ensures
        job.input@ == input,
        job.total_duration == p.duration,
        job.spec@.args.len() > 0 ==> job.output@ == job.spec@.args.last(),
        p.size_bytes is Some ==> job.input_size == p.size_bytes,
        p.size_bytes is None ==> job.input_size == seen.size,
        job.status is Pending,
{
}

/// The probes of a form's inputs are those of its files, in order, as soon as
/// all are there.
pub proof fn law_probes_come_in_the_order_of_the_files(
    m: Map<Seq<char>, ProbeState>,
    paths: Seq<Seq<char>>,
    found: Seq<ProbeResult>,
)
    requires
        found.len() == paths.len(),
        forall|i: int|
            0 <= i < paths.len() ==> m.contains_key(#[trigger] paths[i]) && m[paths[i]]
                == ProbeState::Ready(found[i]),
    ensures
        all_ready(m, paths) == found,
    decreases paths.len(),
{
    if paths.len() > 0 {
        let v = paths.drop_last();
        let w = found.drop_last();
        assert forall|i: int| 0 <= i < v.len() implies m.contains_key(#[trigger] v[i]) && m[v[i]]
            == ProbeState::Ready(w[i]) by {
            assert(v[i] == paths[i]);
        }
        law_probes_come_in_the_order_of_the_files(m, v, w);
        assert(paths.last() == paths[paths.len() - 1]);
        assert(w.push(found.last()) =~= found);
    } else {
        assert(found =~= Seq::empty());
    }
}

/// A job of the queue is started in the directory that its output goes to.
pub proof fn law_jobs_start_where_they_write(j: Job, dir: Seq<char>, name: Seq<char>)
    requires
        dir.len() > 0,
        tidy(dir) == dir,
        dir.last() != '/',
        name.len() > 0,
        !name.contains('/'),
        name != seq!['.'],
        name != seq!['.', '.'],
        j.output@ == dir + seq!['/'] + name,
    ensures
        start_deed(j) == (Deed::Start {
            id: j.id,
            command: j.spec@,
            output: j.output@,
            dir: Some(dir),
        }),
{
    law_paths_split_and_join(dir, name, Seq::empty());
}

/// A path that was typed leads where it says: into a directory, or on with that
/// one file; where there is nothing the browser stays and says so.
pub proof fn law_typed_paths_lead_there(
    before: App,
    target: Seq<char>,
    kind: PathKind,
    now: Duration,
    temp: Seq<char>,
    after: App,
    d: Seq<Deed>,
)
    requires
        path_found(before, target, kind, now, temp, after, d),
    ensures
        kind is Directory ==> after.browser@.cwd == target && d == seq![Deed::List(target)],
        kind is File ==> texts(after.form_inputs@) == seq![target] && after.screen is ParameterForm,
        kind is Missing ==> after.browser@ == before.browser@ && after.status_message is Some
            && after.screen == before.screen,
{
}

/// A job that succeeded stays on the screen for at least as long as its pause;
/// nothing else takes it off by itself.
pub proof fn law_success_is_shown_for_a_while(
    before: App,
    now: Duration,
    size: Option<u64>,
    after: App,
)
    requires
        ticked(before, now, size, after),
    ensures
        after.screen != before.screen ==> before.screen is Running && after.screen is OperationPicker
            && (before.run matches Some(r) && r.phase is Done && (r.result matches Some(done)
            && done.success) && (r.finished_at matches Some(at) && now.nanos - at.nanos
            >= 1_800_000_000)),
        before.screen is Running && (before.run matches Some(r) && r.phase is Done && (
        r.result matches Some(done) && done.success) && (r.finished_at matches Some(at) && now.nanos
            - at.nanos >= 1_800_000_000)) ==> after.screen is OperationPicker,
        after.run == before.run && after.queue == before.queue && after.form == before.form,
{
}

/// A job bears the name that the menu gives its operation.
pub proof fn law_jobs_bear_the_name_of_their_operation(m: int)
    requires
        0 <= m < menu().len(),
    ensures
        name_of(menu()[m].id) == menu()[m].name,
{
    law_ids_resolve(m);
}

} // verus!
