//! What reports of background work and the clock do.

use vstd::prelude::*;
use crate::app::browse::idle;
use crate::app::jobs::queue_job_finished;
use crate::app::keys::{returned, went_well};
use crate::app::{deeds, no_effects, one_effect, App, Deed, Effect, ProbeState, SaveFor, Screen};
use crate::backlog::pushed;
use crate::background::BackgroundMsg;
use crate::config::settings::{GeneralSettings, Settings};
use crate::ffmpeg::capabilities::CapabilityReport;
use crate::ffmpeg::errors::finding;
use crate::ffmpeg::probe::{ProbeError, ProbeResult};
use crate::ffmpeg::progress::{windowed, ProgressUpdate};
use crate::ffmpeg::runner::JobResult;
use crate::number::{dec, show};
use crate::queue::{job_at, QueueState};
use crate::text::{copy_text, join2, join3, join_all, joined, opt_text, texts};
use crate::time::Duration;
use crate::ui::screens::missing_ffmpeg::MissingState;
use crate::ui::screens::running::{newer, opt_finding, RunPhase, RunState};
use crate::ui::widgets::log_pane::LOG_DISPLAY_CAP;

verus! {

/// What is said of a binary that gave no answer.
pub const NO_ANSWER: &'static str = "The ffmpeg binary that was found did not respond to `-version`. Enter a custom path below.";

/// What is said of a path that is no FFmpeg.
pub const NOT_FFMPEG: &'static str = "That file did not respond like ffmpeg. Check the path and try again.";

/// A failure to probe, in plain language.
pub open spec fn probe_failure(e: ProbeError) -> Seq<char> {
    match e {
        ProbeError::BinaryNotFound => "ffprobe is missing"@,
        ProbeError::Timeout(secs, _) => "timed out after "@ + dec(secs as nat) + "s"@,
        ProbeError::Failed { message, .. } => if message@.len() == 0 {
            "this file appears corrupt or isn't media FFmpeg recognizes"@
        } else {
            message@
        },
        ProbeError::Parse { message, .. } => "unparseable probe output: "@ + message@,
    }
}

/// Says why a file could not be probed.
pub fn probe_error_message(error: &ProbeError) -> (r: String)
    ensures
        r@ == probe_failure(*error),
{
    match error {
        ProbeError::BinaryNotFound => copy_text("ffprobe is missing"),
        ProbeError::Timeout(secs, _) => join3("timed out after ", show(*secs as u128).as_str(), "s"),
        ProbeError::Failed { message, .. } => {
            if message.as_str().is_empty() {
                copy_text("this file appears corrupt or isn't media FFmpeg recognizes")
            } else {
                copy_text(message.as_str())
            }
        },
        ProbeError::Parse { message, .. } => join2("unparseable probe output: ", message.as_str()),
    }
}

/// What the first report on FFmpeg does: without a usable one its screen is
/// shown, else the menu.
pub open spec fn capabilities_known(
    before: App,
    report: CapabilityReport,
    after: App,
    d: Seq<Deed>,
) -> bool {
    &&& d == Seq::<Deed>::empty()
    &&& if !report.found || !report.usable {
        &&& after == (App {
            missing: MissingState { error: after.missing.error, ..before.missing },
            caps: Some(report),
            screen: Screen::MissingFfmpeg,
            ..before
        })
        &&& if report.found {
            opt_text(after.missing.error) == Some(NO_ANSWER@)
        } else {
            after.missing.error == before.missing.error
        }
    } else {
        &&& after == (App {
            status_message: after.status_message,
            caps: Some(report),
            screen: if before.screen is Startup {
                Screen::OperationPicker
            } else {
                before.screen
            },
            ..before
        })
        &&& if report.warnings@.len() > 0 {
            opt_text(after.status_message) == Some(joined(texts(report.warnings@), " "@))
        } else {
            after.status_message == before.status_message
        }
    }
}

/// What the report on a typed path does: a usable one is kept, saved, and used.
pub open spec fn custom_path_known(
    before: App,
    report: CapabilityReport,
    after: App,
    d: Seq<Deed>,
) -> bool {
    if report.usable {
        &&& after == (App {
            missing: MissingState { checking: false, pending_path: None, ..before.missing },
            settings: match before.missing.pending_path {
                Some(p) => Settings {
                    general: GeneralSettings { ffmpeg_path: Some(p), ..before.settings.general },
                    ..before.settings
                },
                None => before.settings,
            },
            caps: Some(report),
            screen: Screen::OperationPicker,
            ..before
        })
        &&& d == (match before.missing.pending_path {
            Some(_) => seq![Deed::SavePath],
            None => Seq::empty(),
        })
    } else {
        &&& after == (App {
            missing: MissingState {
                checking: false,
                pending_path: None,
                error: after.missing.error,
                ..before.missing
            },
            ..before
        })
        &&& opt_text(after.missing.error) == Some(NOT_FFMPEG@)
        &&& d == Seq::<Deed>::empty()
    }
}

/// Whether a probe's state is what came of it.
pub open spec fn probe_came(state: ProbeState, result: Result<ProbeResult, ProbeError>) -> bool {
    match result {
        Ok(p) => state == ProbeState::Ready(p),
        Err(e) => state matches ProbeState::Failed(s) && s@ == probe_failure(e),
    }
}

/// What a probe's end does.
pub open spec fn probe_known(
    before: App,
    path: Seq<char>,
    result: Result<ProbeResult, ProbeError>,
    after: App,
    d: Seq<Deed>,
) -> bool {
    &&& after == (App { probes: after.probes, ..before })
    &&& after.probes@.contains_key(path)
    &&& probe_came(after.probes@[path], result)
    &&& after.probes@ == before.probes@.insert(path, after.probes@[path])
    &&& d == Seq::<Deed>::empty()
}

/// Whether a report is of the job on the running screen.
pub open spec fn is_current(a: App, id: u64) -> bool {
    a.run matches Some(r) && r.job_id == id
}

/// Whether a job's state takes an update in.
pub open spec fn run_progressed(before: RunState, update: ProgressUpdate, after: RunState) -> bool {
    &&& after == (RunState {
        frame: newer(update.frame, before.frame),
        fps: newer(update.fps, before.fps),
        bitrate_kbps: newer(update.bitrate_kbps, before.bitrate_kbps),
        total_size: newer(update.total_size_bytes, before.total_size),
        out_time: newer(update.out_time, before.out_time),
        dup_frames: match update.dup_frames {
            Some(n) => n,
            None => before.dup_frames,
        },
        drop_frames: match update.drop_frames {
            Some(n) => n,
            None => before.drop_frames,
        },
        last_speed: update.speed,
        smoother: after.smoother,
        ..before
    })
    &&& after.smoother.limit() == before.smoother.limit()
    &&& after.smoother@ == (match update.speed {
        Some(v) => if v > 0 {
            windowed(before.smoother@, before.smoother.limit(), v)
        } else {
            before.smoother@
        },
        None => before.smoother@,
    })
}

/// Whether a job's state takes its end in.
pub open spec fn run_finished(
    before: RunState,
    result: JobResult,
    output_exists: bool,
    now: Duration,
    after: RunState,
) -> bool {
    &&& after == (RunState {
        result: Some(result),
        diagnosis: after.diagnosis,
        finished_at: Some(now),
        phase: if output_exists && !result.success {
            RunPhase::ConfirmDelete
        } else {
            RunPhase::Done
        },
        ..before
    })
    &&& if !result.success && !result.cancelled {
        opt_finding(after.diagnosis) == finding(joined(texts(result.stderr@), "\n"@))
    } else {
        after.diagnosis == before.diagnosis
    }
}

/// Whether only the job of the running screen changed.
pub open spec fn only_run(before: App, after: App) -> bool {
    after == (App { run: after.run, ..before }) && after.run is Some
}

/// What a report does. One that belongs to the job on the running screen goes
/// there, and any other to the queue.
pub open spec fn reported(
    before: App,
    msg: BackgroundMsg,
    now: Duration,
    output_exists: bool,
    after: App,
    d: Seq<Deed>,
) -> bool {
    match msg {
        BackgroundMsg::CapabilitiesReady(report) => capabilities_known(before, report, after, d),
        BackgroundMsg::CustomPathChecked(report) => custom_path_known(before, report, after, d),
        BackgroundMsg::ProbeReady { path, result } => probe_known(before, path@, result, after, d),
        BackgroundMsg::JobStarted { job_id, pid } => if is_current(before, job_id) {
            &&& after == (App { run: Some(RunState { pid, ..before.run->0 }), ..before })
            &&& d == Seq::<Deed>::empty()
        } else {
            idle(before, after, d)
        },
        BackgroundMsg::JobProgress { job_id, update } => {
            &&& d == Seq::<Deed>::empty()
            &&& if is_current(before, job_id) {
                only_run(before, after) && run_progressed(before.run->0, update, after.run->0)
            } else {
                let v = before.queue.jobs@;
                let i = job_at(v, job_id);
                &&& after == (App {
                    queue: QueueState { jobs: after.queue.jobs, ..before.queue },
                    ..before
                })
                &&& after.queue.jobs@ == (if i < v.len() {
                    v.update(i, v[i].progressed(update))
                } else {
                    v
                })
            }
        },
        BackgroundMsg::JobStderrLine { job_id, line } => if is_current(before, job_id) {
            &&& only_run(before, after)
            &&& after.run->0 == (RunState {
                stderr: after.run->0.stderr,
                log_scroll: 0,
                ..before.run->0
            })
            &&& texts(after.run->0.stderr@) == pushed(
                texts(before.run->0.stderr@),
                line@,
                LOG_DISPLAY_CAP as nat,
            )
            &&& d == Seq::<Deed>::empty()
        } else {
            idle(before, after, d)
        },
        BackgroundMsg::JobFinished { job_id, result } => if is_current(before, job_id) {
            &&& only_run(before, after)
            &&& run_finished(before.run->0, result, output_exists, now, after.run->0)
            &&& d == Seq::<Deed>::empty()
        } else {
            queue_job_finished(before, job_id, result, after, d)
        },
    }
}

impl App {
    /// Tests whether a report is of the job on the running screen.
    fn is_current_job(&self, job_id: u64) -> (r: bool)
        ensures
            r == is_current(*self, job_id),
    {
        match &self.run {
            Some(run) => run.job_id == job_id,
            None => false,
        }
    }

    /// Takes in the first report on FFmpeg.
    fn on_capabilities(&mut self, report: CapabilityReport)
        requires
            old(self).wf(),
        ensures
            final(self).wf(),
            capabilities_known(*old(self), report, *final(self), Seq::empty()),
    {
        if !report.found || !report.usable {
            if report.found {
                self.missing.error = Some(copy_text(NO_ANSWER));
            }
            self.caps = Some(report);
            self.screen = Screen::MissingFfmpeg;
            return;
        }
        if report.warnings.len() > 0 {
            self.status_message = Some(join_all(&report.warnings, " "));
        }
        self.caps = Some(report);
        if let Screen::Startup = &self.screen {
            self.screen = Screen::OperationPicker;
        }
    }

    /// Takes in the report on a path that the user typed.
    fn on_path_checked(&mut self, report: CapabilityReport) -> (r: Vec<Effect>)
        requires
            old(self).wf(),
        ensures
            final(self).wf(),
            custom_path_known(*old(self), report, *final(self), deeds(r@)),
    {
        self.missing.checking = false;
        if report.usable {
            let mut r = no_effects();
            if let Some(path) = self.missing.pending_path.take() {
                self.settings.general.ffmpeg_path = Some(path);
                r = one_effect(Effect::Save(SaveFor::CustomPath));
            }
            self.caps = Some(report);
            self.screen = Screen::OperationPicker;
            r
        } else {
            self.missing.pending_path = None;
            self.missing.error = Some(copy_text(NOT_FFMPEG));
            no_effects()
        }
    }

    /// Takes in a report of background work. Whether the output of the job on
    /// the running screen exists counts when that job ended.
    pub fn handle_msg(&mut self, msg: BackgroundMsg, now: Duration, output_exists: bool) -> (r: Vec<
        Effect,
    >)
        requires
            old(self).wf(),
        ensures
            final(self).wf(),
            reported(*old(self), msg, now, output_exists, *final(self), deeds(r@)),
    {
        match msg {
            BackgroundMsg::CapabilitiesReady(report) => {
                self.on_capabilities(report);
                no_effects()
            },
            BackgroundMsg::CustomPathChecked(report) => self.on_path_checked(report),
            BackgroundMsg::ProbeReady { path, result } => {
                let state = match result {
                    Ok(p) => ProbeState::Ready(p),
                    Err(e) => ProbeState::Failed(probe_error_message(&e)),
                };
                self.probes.insert(path, state);
                no_effects()
            },
            BackgroundMsg::JobStarted { job_id, pid } => {
                if self.is_current_job(job_id) {
                    if let Some(run) = &mut self.run {
                        run.pid = pid;
                    }
                }
                no_effects()
            },
            BackgroundMsg::JobProgress { job_id, update } => {
                if self.is_current_job(job_id) {
                    if let Some(run) = &mut self.run {
                        run.apply_progress(&update);
                    }
                } else {
                    self.queue.apply_progress(job_id, &update);
                }
                no_effects()
            },
            BackgroundMsg::JobStderrLine { job_id, line } => {
                if self.is_current_job(job_id) {
                    if let Some(run) = &mut self.run {
                        run.push_stderr(line);
                    }
                }
                no_effects()
            },
            BackgroundMsg::JobFinished { job_id, result } => {
                if self.is_current_job(job_id) {
                    if let Some(run) = &mut self.run {
                        run.apply_finished(result, output_exists, now);
                    }
                    no_effects()
                } else {
                    self.finish_queue_job(job_id, result)
                }
            },
        }
    }
}

// ---------------------------------------------------------------------------
// The clock
// ---------------------------------------------------------------------------

/// How long the screen of a job that went well stays, in nanoseconds.
pub const SUCCESS_PAUSE: u128 = 1_800_000_000;

/// Whether the screen of a job that went well has stayed long enough.
pub open spec fn shown_enough(a: App, now: Duration) -> bool {
    &&& a.screen is Running
    &&& went_well(a)
    &&& a.run->0.finished_at matches Some(at) && now.nanos >= at.nanos + SUCCESS_PAUSE
}

/// What a tick of the clock does: the spinner turns, and the screen of a job
/// that went well is left after a while.
pub open spec fn ticked(before: App, now: Duration, size: Option<u64>, after: App) -> bool {
    let turned = App {
        spinner: if before.spinner < usize::MAX {
            (before.spinner + 1) as usize
        } else {
            0
        },
        ..before
    };
    if shown_enough(before, now) {
        returned(turned, size, after, Seq::empty())
    } else {
        after == turned
    }
}

impl App {
    /// Takes in a tick of the clock. The size of the job's output counts when its
    /// screen is left.
    pub fn on_tick(&mut self, now: Duration, output_size: Option<u64>)
        requires
            old(self).wf(),
        ensures
            final(self).wf(),
            ticked(*old(self), now, output_size, *final(self)),
    {
        self.spinner = if self.spinner < usize::MAX {
            self.spinner + 1
        } else {
            0
        };
        let ready = match (&self.screen, &self.run) {
            (Screen::Running, Some(run)) => {
                matches!(run.phase, RunPhase::Done) && run.succeeded() && match run.finished_at {
                    Some(at) => now.nanos >= at.nanos && now.nanos - at.nanos >= SUCCESS_PAUSE,
                    None => false,
                }
            },
            _ => false,
        };
        if ready {
            let text = self.success_summary(output_size);
            self.status_message = text;
            self.screen = Screen::OperationPicker;
        }
    }
}

} // verus!
