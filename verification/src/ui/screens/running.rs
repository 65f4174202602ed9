//! The screen of a running job: progress, what became of it, and the questions
//! before and after it.

use std::collections::VecDeque;
use vstd::prelude::*;
use crate::backlog::pushed;
use crate::ffmpeg::builder::{displayed, CommandSpec};
use crate::ffmpeg::errors::{diagnose, finding, Diagnosis, Finding};
use crate::ffmpeg::probe::{
    format_duration, format_size, hundredths, show_hundredths, size_text,
};
use crate::ffmpeg::progress::{
    eta_seconds, law_ratio_is_time_over_total, law_remaining_time_is_rest_over_speed,
    progress_ratio, ratio_of, remaining, sum, windowed, ProgressUpdate, Ratio, SpeedSmoother,
};
use crate::ffmpeg::runner::JobResult;
use crate::key::{KeyCode, KeyEvent};
use crate::number::{dec, nearest, nearest_of, show};
use crate::text::{
    begins, has, join2, join3, join_all, joined, lemma_has_inside, lemma_has_itself,
    lemma_joined_holds, texts,
};
use crate::time::{clock, Duration};
use crate::ui::line::{add_line, add_piece, add_whole, line_of, lines_of, no_lines, Piece, Tone};
use crate::ui::widgets::log_pane::{push_log, LOG_DISPLAY_CAP};

verus! {

/// Where the screen stands.
#[derive(Debug, Clone, Copy, PartialEq, Eq, Structural)]
pub enum RunPhase {
    /// The output exists, and the user is asked whether to overwrite it.
    ConfirmOverwrite,
    /// The job runs.
    Active,
    /// FFmpeg was asked to stop.
    Cancelling,
    /// The job left a partial file, and the user is asked whether to delete it.
    ConfirmDelete,
    /// The job is over.
    Done,
}

/// A running job. Times are those of a clock that runs from any point on.
#[derive(Debug)]
pub struct RunState {
    /// Operation name.
    pub op_name: String,
    /// Id among the jobs; the largest number until the job is started.
    pub job_id: u64,
    /// The command.
    pub spec: CommandSpec,
    /// The command as shown.
    pub display_command: String,
    /// Where the output goes.
    pub output: String,
    /// Size of the input, when known.
    pub input_size: Option<u64>,
    /// Length of the input, when known.
    pub total_duration: Option<Duration>,
    /// When the job, or the question before it, began.
    pub started: Duration,
    /// Where the screen stands.
    pub phase: RunPhase,
    /// Frames written.
    pub frame: Option<u64>,
    /// Frames per second, in millionths.
    pub fps: Option<u64>,
    /// Bit rate in millionths of a kbit/s.
    pub bitrate_kbps: Option<u64>,
    /// Size of the output so far.
    pub total_size: Option<u64>,
    /// Media time reached.
    pub out_time: Option<Duration>,
    /// Duplicated frames.
    pub dup_frames: u64,
    /// Dropped frames.
    pub drop_frames: u64,
    /// The last speeds.
    pub smoother: SpeedSmoother,
    /// The last speed, in millionths of real time.
    pub last_speed: Option<u64>,
    /// The last lines of error output.
    pub stderr: VecDeque<String>,
    /// Whether the log is shown in full.
    pub log_expanded: bool,
    /// How far up the log is scrolled.
    pub log_scroll: usize,
    /// FFmpeg's process id.
    pub pid: Option<u32>,
    /// How the job ended.
    pub result: Option<JobResult>,
    /// A failure in plain language.
    pub diagnosis: Option<Diagnosis>,
    /// When the job ended.
    pub finished_at: Option<Duration>,
}

/// An optional diagnosis by what it says.
pub open spec fn opt_finding(o: Option<Diagnosis>) -> Option<Finding> {
    match o {
        Some(d) => Some(d@),
        None => None,
    }
}

/// The newer of two values: the one an update brings, or the one before.
pub open spec fn newer<A>(update: Option<A>, before: Option<A>) -> Option<A> {
    if update is Some {
        update
    } else {
        before
    }
}

impl RunState {
    /// The window of speeds is in order.
    pub open spec fn wf(&self) -> bool {
        self.smoother.wf()
    }

    /// Whether a job is one that nothing is known of yet.
    pub open spec fn is_new(&self) -> bool {
        &&& self.wf()
        &&& self.smoother@ == Seq::<u64>::empty()
        &&& self.smoother.limit() == 8
        &&& self.job_id == u64::MAX
        &&& self.frame is None
        &&& self.fps is None
        &&& self.bitrate_kbps is None
        &&& self.total_size is None
        &&& self.out_time is None
        &&& self.dup_frames == 0
        &&& self.drop_frames == 0
        &&& self.last_speed is None
        &&& self.stderr@.len() == 0
        &&& !self.log_expanded
        &&& self.log_scroll == 0
        &&& self.pid is None
        &&& self.result is None
        &&& self.diagnosis is None
        &&& self.finished_at is None
    }

    /// A job whose output exists, so that the user is asked first.
    pub fn confirming(op_name: String, spec: CommandSpec, output: String, now: Duration) -> (r: Self)
        ensures
            r.is_new(),
            r.op_name == op_name,
            r.spec == spec,
            r.display_command@ == displayed(spec@),
            r.output == output,
            r.total_duration is None,
            r.input_size is None,
            r.started == now,
            r.phase == RunPhase::ConfirmOverwrite,
    {
        RunState::new(op_name, spec, output, None, None, now, RunPhase::ConfirmOverwrite)
    }

    /// A job that is about to start.
    pub fn starting(
        op_name: String,
        spec: CommandSpec,
        output: String,
        total_duration: Option<Duration>,
        input_size: Option<u64>,
        now: Duration,
    ) -> (r: Self)
        ensures
            r.is_new(),
            r.op_name == op_name,
            r.spec == spec,
            r.display_command@ == displayed(spec@),
            r.output == output,
            r.total_duration == total_duration,
            r.input_size == input_size,
            r.started == now,
            r.phase == RunPhase::Active,
    {
        RunState::new(op_name, spec, output, total_duration, input_size, now, RunPhase::Active)
    }

    fn new(
        op_name: String,
        spec: CommandSpec,
        output: String,
        total_duration: Option<Duration>,
        input_size: Option<u64>,
        now: Duration,
        phase: RunPhase,
    ) -> (r: Self)
        ensures
            r.is_new(),
            r.op_name == op_name,
            r.spec == spec,
            r.display_command@ == displayed(spec@),
            r.output == output,
            r.total_duration == total_duration,
            r.input_size == input_size,
            r.started == now,
            r.phase == phase,
    {
        RunState {
            op_name,
            job_id: u64::MAX,
            display_command: spec.to_display(),
            spec,
            output,
            input_size,
            total_duration,
            started: now,
            phase,
            frame: None,
            fps: None,
            bitrate_kbps: None,
            total_size: None,
            out_time: None,
            dup_frames: 0,
            drop_frames: 0,
            smoother: SpeedSmoother::default(),
            last_speed: None,
            stderr: VecDeque::new(),
            log_expanded: false,
            log_scroll: 0,
            pid: None,
            result: None,
            diagnosis: None,
            finished_at: None,
        }
    }

    /// Takes in an update: what it leaves open stays, except for the speed.
    pub fn apply_progress(&mut self, update: &ProgressUpdate)
        requires
            old(self).wf(),
        ensures
            final(self).wf(),
            *final(self) == (RunState {
                frame: newer(update.frame, old(self).frame),
                fps: newer(update.fps, old(self).fps),
                bitrate_kbps: newer(update.bitrate_kbps, old(self).bitrate_kbps),
                total_size: newer(update.total_size_bytes, old(self).total_size),
                out_time: newer(update.out_time, old(self).out_time),
                dup_frames: match update.dup_frames {
                    Some(n) => n,
                    None => old(self).dup_frames,
                },
                drop_frames: match update.drop_frames {
                    Some(n) => n,
                    None => old(self).drop_frames,
                },
                last_speed: update.speed,
                smoother: final(self).smoother,
                ..*old(self)
            }),
            final(self).smoother.limit() == old(self).smoother.limit(),
            final(self).smoother@ == (match update.speed {
                Some(v) => if v > 0 {
                    windowed(old(self).smoother@, old(self).smoother.limit(), v)
                } else {
                    old(self).smoother@
                },
                None => old(self).smoother@,
            }),
    {
        if update.frame.is_some() {
            self.frame = update.frame;
        }
        if update.fps.is_some() {
            self.fps = update.fps;
        }
        if update.bitrate_kbps.is_some() {
            self.bitrate_kbps = update.bitrate_kbps;
        }
        if update.total_size_bytes.is_some() {
            self.total_size = update.total_size_bytes;
        }
        if update.out_time.is_some() {
            self.out_time = update.out_time;
        }
        if let Some(n) = update.dup_frames {
            self.dup_frames = n;
        }
        if let Some(n) = update.drop_frames {
            self.drop_frames = n;
        }
        self.last_speed = update.speed;
        self.smoother.push(update.speed);
    }

    /// Takes in a line of error output, and returns to the end of the log.
    pub fn push_stderr(&mut self, line: String)
        ensures
            texts(final(self).stderr@) == pushed(
                texts(old(self).stderr@),
                line@,
                LOG_DISPLAY_CAP as nat,
            ),
            *final(self) == (RunState {
                stderr: final(self).stderr,
                log_scroll: 0,
                ..*old(self)
            }),
    {
        push_log(&mut self.stderr, line);
        self.log_scroll = 0;
    }

    /// Whether the job succeeded.
    pub open spec fn has_succeeded(&self) -> bool {
        self.result matches Some(r) && r.success
    }

    /// Takes in the result, given whether the output exists and the time: a
    /// failure that nobody asked for is explained, and a partial file is asked
    /// about.
    pub fn apply_finished(&mut self, result: JobResult, output_exists: bool, now: Duration)
        ensures
            *final(self) == (RunState {
                result: Some(result),
                diagnosis: final(self).diagnosis,
                finished_at: Some(now),
                phase: if output_exists && !result.success {
                    RunPhase::ConfirmDelete
                } else {
                    RunPhase::Done
                },
                ..*old(self)
            }),
            if !result.success && !result.cancelled {
                opt_finding(final(self).diagnosis) == finding(joined(texts(result.stderr@), "\n"@))
            } else {
                final(self).diagnosis == old(self).diagnosis
            },
    {
        if !result.success && !result.cancelled {
            let text = join_all(&result.stderr, "\n");
            self.diagnosis = diagnose(text.as_str());
        }
        let failed = !result.success;
        self.result = Some(result);
        self.finished_at = Some(now);
        self.phase = if output_exists && failed {
            RunPhase::ConfirmDelete
        } else {
            RunPhase::Done
        };
    }

    /// Tests whether the job succeeded.
    pub fn succeeded(&self) -> (r: bool)
        ensures
            r == self.has_succeeded(),
    {
        match &self.result {
            Some(result) => result.success,
            None => false,
        }
    }

    /// How far the job has come, when that can be known.
    pub open spec fn progress(&self) -> Option<Ratio> {
        match (self.out_time, self.total_duration) {
            (Some(out), Some(total)) => ratio_of(out, total),
            _ => None,
        }
    }

    /// Works out how far the job has come.
    pub fn ratio(&self) -> (r: Option<Ratio>)
        ensures
            r == self.progress(),
            r matches Some(q) ==> q.wf(),
    {
        match (self.out_time, self.total_duration) {
            (Some(out), Some(total)) => progress_ratio(out, total),
            _ => None,
        }
    }

    /// The time that the rest takes at the mean of the last speeds, when that
    /// can be known.
    pub open spec fn time_left(&self) -> Option<nat> {
        match (self.out_time, self.total_duration) {
            (Some(out), Some(total)) => if self.smoother@.len() == 0 {
                None
            } else {
                remaining(
                    out.nanos as nat,
                    total.nanos as nat,
                    sum(self.smoother@) / self.smoother@.len(),
                )
            },
            _ => None,
        }
    }

    /// Works out the time that the rest takes.
    pub fn eta(&self) -> (r: Option<Duration>)
        ensures
            match r {
                Some(d) => self.time_left() == Some(d.nanos as nat),
                None => self.time_left() is None,
            },
    {
        match (self.out_time, self.total_duration, self.smoother.smoothed()) {
            (Some(out), Some(total), Some(speed)) => eta_seconds(out, total, speed),
            _ => None,
        }
    }

    /// The report: the command, and all error output.
    pub open spec fn report(&self) -> Seq<char> {
        "$ "@ + self.display_command@ + "\n\n"@ + (match self.result {
            Some(r) => joined(texts(r.stderr@), "\n"@) + "\n"@,
            None => ended_lines(texts(self.stderr@)),
        })
    }

    /// Writes the report.
    pub fn error_report(&self) -> (r: String)
        ensures
            r@ == self.report(),
    {
        let mut out = join3("$ ", self.display_command.as_str(), "\n\n");
        match &self.result {
            Some(result) => {
                let text = join2(join_all(&result.stderr, "\n").as_str(), "\n");
                out.append(text.as_str());
            },
            None => {
                let ghost head = out@;
                let ghost all = texts(self.stderr@);
                let mut i: usize = 0;
                assert(all.take(0) =~= Seq::<Seq<char>>::empty());
                while i < self.stderr.len()
                    invariant
                        i <= self.stderr@.len(),
                        all == texts(self.stderr@),
                        out@ =~= head + ended_lines(all.take(i as int)),
                    decreases self.stderr@.len() - i,
                {
                    proof {
                        assert(all.take(i + 1).drop_last() =~= all.take(i as int));
                        assert(all.take(i + 1).last() == self.stderr@[i as int]@);
                    }
                    out.append(self.stderr[i].as_str());
                    out.append("\n");
                    i = i + 1;
                }
                assert(all.take(i as int) =~= all);
            },
        }
        out
    }
}

/// Lines, each with its end.
pub open spec fn ended_lines(v: Seq<Seq<char>>) -> Seq<char>
    decreases v.len(),
{
    if v.len() == 0 {
        Seq::empty()
    } else {
        ended_lines(v.drop_last()) + v.last() + "\n"@
    }
}

/// What a key press means.
#[derive(Debug, Clone, Copy, PartialEq, Eq, Structural)]
pub enum RunAction {
    /// Nothing.
    Nothing,
    /// Leave the screen.
    Back,
    /// Start the job.
    Spawn,
    /// Delete the partial file.
    DeletePartial,
    /// Copy the report.
    CopyReport,
}

/// What a key press means in a phase.
pub open spec fn run_means(phase: RunPhase, code: KeyCode) -> RunAction {
    match phase {
        RunPhase::ConfirmOverwrite => match code {
            KeyCode::Char('y') => RunAction::Spawn,
            KeyCode::Char('Y') => RunAction::Spawn,
            KeyCode::Enter => RunAction::Spawn,
            KeyCode::Char('n') => RunAction::Back,
            KeyCode::Char('N') => RunAction::Back,
            KeyCode::Esc => RunAction::Back,
            _ => RunAction::Nothing,
        },
        RunPhase::ConfirmDelete => match code {
            KeyCode::Char('y') => RunAction::DeletePartial,
            KeyCode::Char('Y') => RunAction::DeletePartial,
            _ => RunAction::Nothing,
        },
        RunPhase::Active => if code == KeyCode::Char('c') {
            RunAction::CopyReport
        } else {
            RunAction::Nothing
        },
        RunPhase::Cancelling => if code == KeyCode::Char('c') {
            RunAction::CopyReport
        } else {
            RunAction::Nothing
        },
        RunPhase::Done => match code {
            KeyCode::Enter => RunAction::Back,
            KeyCode::Esc => RunAction::Back,
            KeyCode::Char('c') => RunAction::CopyReport,
            _ => RunAction::Nothing,
        },
    }
}

/// What a key press makes of a job: declining to delete the partial file ends
/// the questions; while the job runs the log opens, closes and scrolls, and
/// once it is over the log still opens and closes.
pub open spec fn run_keyed(s: RunState, code: KeyCode) -> RunState {
    match s.phase {
        RunPhase::ConfirmDelete => match code {
            KeyCode::Char('n') => RunState { phase: RunPhase::Done, ..s },
            KeyCode::Char('N') => RunState { phase: RunPhase::Done, ..s },
            KeyCode::Esc => RunState { phase: RunPhase::Done, ..s },
            _ => s,
        },
        RunPhase::Active => log_keyed(s, code),
        RunPhase::Cancelling => log_keyed(s, code),
        RunPhase::Done => match code {
            KeyCode::Char('l') => log_keyed(s, code),
            _ => s,
        },
        _ => s,
    }
}

/// What a key press makes of the log.
pub open spec fn log_keyed(s: RunState, code: KeyCode) -> RunState {
    match code {
        KeyCode::Char('l') => RunState { log_expanded: !s.log_expanded, log_scroll: 0, ..s },
        KeyCode::Up => RunState {
            log_scroll: if s.log_scroll < usize::MAX {
                (s.log_scroll + 1) as usize
            } else {
                usize::MAX
            },
            ..s
        },
        KeyCode::Down => RunState {
            log_scroll: if s.log_scroll > 0 {
                (s.log_scroll - 1) as usize
            } else {
                0
            },
            ..s
        },
        _ => s,
    }
}

/// Takes in a key press.
pub fn on_key(state: &mut RunState, key: KeyEvent) -> (r: RunAction)
    ensures
        r == run_means(old(state).phase, key.code),
        *final(state) == run_keyed(*old(state), key.code),
{
    match state.phase {
        RunPhase::ConfirmOverwrite => match key.code {
            KeyCode::Char('y') | KeyCode::Char('Y') | KeyCode::Enter => RunAction::Spawn,
            KeyCode::Char('n') | KeyCode::Char('N') | KeyCode::Esc => RunAction::Back,
            _ => RunAction::Nothing,
        },
        RunPhase::ConfirmDelete => match key.code {
            KeyCode::Char('y') | KeyCode::Char('Y') => RunAction::DeletePartial,
            KeyCode::Char('n') | KeyCode::Char('N') | KeyCode::Esc => {
                state.phase = RunPhase::Done;
                RunAction::Nothing
            },
            _ => RunAction::Nothing,
        },
        RunPhase::Active | RunPhase::Cancelling => match key.code {
            KeyCode::Char('l') => {
                state.log_expanded = !state.log_expanded;
                state.log_scroll = 0;
                RunAction::Nothing
            },
            KeyCode::Up => {
                if state.log_scroll < usize::MAX {
                    state.log_scroll = state.log_scroll + 1;
                }
                RunAction::Nothing
            },
            KeyCode::Down => {
                if state.log_scroll > 0 {
                    state.log_scroll = state.log_scroll - 1;
                }
                RunAction::Nothing
            },
            KeyCode::Char('c') => RunAction::CopyReport,
            _ => RunAction::Nothing,
        },
        RunPhase::Done => match key.code {
            KeyCode::Enter | KeyCode::Esc => RunAction::Back,
            KeyCode::Char('c') => RunAction::CopyReport,
            KeyCode::Char('l') => {
                state.log_expanded = !state.log_expanded;
                state.log_scroll = 0;
                RunAction::Nothing
            },
            _ => RunAction::Nothing,
        },
    }
}

/// No answer but yes starts a job whose output exists, and none but yes
/// deletes a partial file.
pub proof fn law_only_yes_destroys(phase: RunPhase, code: KeyCode)
    ensures
        run_means(phase, code) is Spawn ==> phase is ConfirmOverwrite && (code == KeyCode::Char(
            'y',
        ) || code == KeyCode::Char('Y') || code == KeyCode::Enter),
        run_means(phase, code) is DeletePartial ==> phase is ConfirmDelete && (code
            == KeyCode::Char('y') || code == KeyCode::Char('Y')),
{
}

// ---------------------------------------------------------------------------
// What the screen shows
// ---------------------------------------------------------------------------

/// The footer of a phase.
pub open spec fn run_footer(phase: RunPhase) -> Seq<char> {
    match phase {
        RunPhase::ConfirmOverwrite => "Output exists — y overwrite · n back"@,
        RunPhase::ConfirmDelete => "Delete the partial file? y delete · n keep"@,
        RunPhase::Active => "Ctrl+C cancel · l log · c copy command · ↑↓ scroll log"@,
        RunPhase::Cancelling => "Terminating (SIGTERM)… second Ctrl+C force-kills · l log"@,
        RunPhase::Done => "Enter/Esc back · c copy error report · l log"@,
    }
}

/// The state of a job in a word.
pub open spec fn run_word(s: RunState) -> Seq<char> {
    match s.phase {
        RunPhase::ConfirmOverwrite => "confirm overwrite"@,
        RunPhase::Active => "running"@,
        RunPhase::Cancelling => "cancelling…"@,
        RunPhase::ConfirmDelete => "partial file"@,
        RunPhase::Done => if s.has_succeeded() {
            "done ✓"@
        } else if s.result matches Some(r) && r.cancelled {
            "cancelled"@
        } else {
            "failed"@
        },
    }
}

/// The heading of the screen.
pub open spec fn run_heading(s: RunState) -> Seq<(Tone, Seq<char>)> {
    seq![
        (Tone::Title, s.op_name@ + " — "@ + run_word(s)),
        (Tone::Muted, "  "@ + s.output@),
    ]
}

/// A separator and a figure.
pub open spec fn figure(tone: Tone, text: Seq<char>) -> Seq<(Tone, Seq<char>)> {
    seq![(Tone::Plain, " · "@), (tone, text)]
}

/// The figures of a job: the time it took so far, the time left, the speed,
/// the size, the frames and the bit rate, as far as they are known.
pub open spec fn figures(s: RunState, elapsed: nat) -> Seq<(Tone, Seq<char>)> {
    seq![(Tone::Muted, "elapsed "@ + clock(elapsed / 1_000_000_000))] + (match s.time_left() {
        Some(left) => figure(Tone::Title, "ETA "@ + clock(left / 1_000_000_000)),
        None => Seq::empty(),
    }) + (match s.last_speed {
        Some(v) => figure(Tone::Muted, hundredths(v as nat) + "x"@),
        None => Seq::empty(),
    }) + (match s.total_size {
        Some(n) => figure(Tone::Muted, size_text(n as nat)),
        None => Seq::empty(),
    }) + (match s.frame {
        Some(n) => figure(
            Tone::Muted,
            "frame "@ + dec(n as nat) + (if s.drop_frames > 0 {
                " (drop "@ + dec(s.drop_frames as nat) + ")"@
            } else {
                Seq::empty()
            }),
        ),
        None => Seq::empty(),
    }) + (match s.bitrate_kbps {
        Some(n) => figure(Tone::Muted, dec(nearest(n as nat, 1_000_000)) + " kbits/s"@),
        None => Seq::empty(),
    })
}

/// What is said of a success: the time, and the sizes when both are known.
pub open spec fn success_text(s: RunState, elapsed: nat, size: Option<u64>) -> Seq<
    (Tone, Seq<char>),
> {
    seq![
        (Tone::Command, "Finished"@),
        (
            Tone::Muted,
            " in "@ + clock(elapsed / 1_000_000_000) + (match (s.input_size, size) {
                (Some(before), Some(after)) => " ("@ + size_text(before as nat) + " → "@ + size_text(
                    after as nat,
                ) + ")"@,
                _ => Seq::empty(),
            }),
        ),
    ]
}

/// What is said of a failure.
pub open spec fn failure_text(d: Option<Finding>) -> Seq<Seq<(Tone, Seq<char>)>> {
    (match d {
        Some(f) => seq![seq![(Tone::Warning, f.title)], seq![(Tone::Muted, f.detail)]] + (
        match f.suggestion {
            Some(s) => seq![seq![(Tone::Title, "Try: "@), (Tone::Muted, s)]],
            None => Seq::empty(),
        }),
        None => seq![
            seq![
                (
                    Tone::Warning,
                    "Failed with unrecognized output — the raw log below is the full story."@,
                ),
            ],
        ],
    }).push(
        seq![
            (
                Tone::Footer,
                "c copies the full error report (command + stderr) for search or filing."@,
            ),
        ],
    )
}

/// The status panel of a job that runs, stops or is over.
pub open spec fn status_panel(s: RunState, elapsed: nat, size: Option<u64>) -> Seq<
    Seq<(Tone, Seq<char>)>,
> {
    let head = seq![figures(s, elapsed)];
    match s.phase {
        RunPhase::Done => if s.has_succeeded() {
            head.push(seq![(Tone::Plain, ""@)]).push(success_text(s, elapsed, size))
        } else {
            head.push(seq![(Tone::Plain, ""@)]) + failure_text(opt_finding(s.diagnosis))
        },
        RunPhase::Cancelling => head.push(seq![(Tone::Plain, ""@)]).push(
            seq![(Tone::Warning, "Sent SIGTERM — ffmpeg is flushing a playable file…"@)],
        ),
        _ => head,
    }
}

/// The question whether to overwrite.
pub open spec fn overwrite_text(output: Seq<char>) -> Seq<Seq<(Tone, Seq<char>)>> {
    seq![
        seq![(Tone::Warning, output + " already exists."@)],
        seq![(Tone::Plain, ""@)],
        seq![
            (
                Tone::Muted,
                "ffkit asks here so ffmpeg never blocks on its own prompt. Overwriting passes -y."@,
            ),
        ],
    ]
}

/// The question whether to delete.
pub open spec fn delete_text(output: Seq<char>) -> Seq<Seq<(Tone, Seq<char>)>> {
    seq![
        seq![(Tone::Warning, "Partial output remains at "@ + output + "."@)],
        seq![(Tone::Plain, ""@)],
        seq![(Tone::Muted, "Cancelled/failed jobs often leave unplayable fragments."@)],
    ]
}

/// Gives the footer of a phase.
pub fn footer(phase: RunPhase) -> (r: &'static str)
    ensures
        r@ == run_footer(phase),
{
    match phase {
        RunPhase::ConfirmOverwrite => "Output exists — y overwrite · n back",
        RunPhase::ConfirmDelete => "Delete the partial file? y delete · n keep",
        RunPhase::Active => "Ctrl+C cancel · l log · c copy command · ↑↓ scroll log",
        RunPhase::Cancelling => "Terminating (SIGTERM)… second Ctrl+C force-kills · l log",
        RunPhase::Done => "Enter/Esc back · c copy error report · l log",
    }
}

/// Writes the heading.
pub fn heading(state: &RunState) -> (r: Vec<Piece>)
    ensures
        line_of(r@) == run_heading(*state),
{
    let word = match state.phase {
        RunPhase::ConfirmOverwrite => "confirm overwrite",
        RunPhase::Active => "running",
        RunPhase::Cancelling => "cancelling…",
        RunPhase::ConfirmDelete => "partial file",
        RunPhase::Done => {
            let cancelled = match &state.result {
                Some(r) => r.cancelled,
                None => false,
            };
            if state.succeeded() {
                "done ✓"
            } else if cancelled {
                "cancelled"
            } else {
                "failed"
            }
        },
    };
    let mut l: Vec<Piece> = Vec::new();
    assert(line_of(l@) =~= Seq::<(Tone, Seq<char>)>::empty());
    add_piece(&mut l, Tone::Title, join3(state.op_name.as_str(), " — ", word).as_str());
    add_piece(&mut l, Tone::Muted, join2("  ", state.output.as_str()).as_str());
    assert(line_of(l@) =~= run_heading(*state));
    l
}

/// Adds a separator and a figure.
fn add_figure(l: &mut Vec<Piece>, tone: Tone, text: &str)
    ensures
        line_of(final(l)@) == line_of(old(l)@) + figure(tone, text@),
{
    let ghost before = line_of(l@);
    add_piece(l, Tone::Plain, " · ");
    add_piece(l, tone, text);
    assert(line_of(l@) =~= before + figure(tone, text@));
}

/// Writes the figures.
pub fn stats_line(state: &RunState, elapsed: Duration) -> (r: Vec<Piece>)
    ensures
        line_of(r@) == figures(*state, elapsed.nanos as nat),
{
    let mut l: Vec<Piece> = Vec::new();
    assert(line_of(l@) =~= Seq::<(Tone, Seq<char>)>::empty());
    add_piece(
        &mut l,
        Tone::Muted,
        join2("elapsed ", format_duration(elapsed).as_str()).as_str(),
    );
    let ghost a = seq![(Tone::Muted, "elapsed "@ + clock(elapsed.nanos as nat / 1_000_000_000))];
    assert(line_of(l@) =~= a);
    if let Some(left) = state.eta() {
        add_figure(&mut l, Tone::Title, join2("ETA ", format_duration(left).as_str()).as_str());
    }
    let ghost b = a + (match state.time_left() {
        Some(left) => figure(Tone::Title, "ETA "@ + clock(left / 1_000_000_000)),
        None => Seq::empty(),
    });
    assert(line_of(l@) =~= b);
    if let Some(v) = state.last_speed {
        add_figure(&mut l, Tone::Muted, join2(show_hundredths(v as u128).as_str(), "x").as_str());
    }
    let ghost c = b + (match state.last_speed {
        Some(v) => figure(Tone::Muted, hundredths(v as nat) + "x"@),
        None => Seq::empty(),
    });
    assert(line_of(l@) =~= c);
    if let Some(n) = state.total_size {
        add_figure(&mut l, Tone::Muted, format_size(n).as_str());
    }
    let ghost d = c + (match state.total_size {
        Some(n) => figure(Tone::Muted, size_text(n as nat)),
        None => Seq::empty(),
    });
    assert(line_of(l@) =~= d);
    if let Some(n) = state.frame {
        let mut text = join2("frame ", show(n as u128).as_str());
        if state.drop_frames > 0 {
            text.append(" (drop ");
            text.append(show(state.drop_frames as u128).as_str());
            text.append(")");
        }
        assert(text@ =~= "frame "@ + dec(n as nat) + (if state.drop_frames > 0 {
            " (drop "@ + dec(state.drop_frames as nat) + ")"@
        } else {
            Seq::empty()
        }));
        add_figure(&mut l, Tone::Muted, text.as_str());
    }
    let ghost e = d + (match state.frame {
        Some(n) => figure(
            Tone::Muted,
            "frame "@ + dec(n as nat) + (if state.drop_frames > 0 {
                " (drop "@ + dec(state.drop_frames as nat) + ")"@
            } else {
                Seq::empty()
            }),
        ),
        None => Seq::empty(),
    });
    assert(line_of(l@) =~= e);
    if let Some(n) = state.bitrate_kbps {
        let text = join2(show(nearest_of(n as u128, 1_000_000)).as_str(), " kbits/s");
        add_figure(&mut l, Tone::Muted, text.as_str());
    }
    assert(line_of(l@) =~= figures(*state, elapsed.nanos as nat));
    l
}

/// Says what came of a success.
pub fn success_line(state: &RunState, elapsed: Duration, size: Option<u64>) -> (r: Vec<Piece>)
    ensures
        line_of(r@) == success_text(*state, elapsed.nanos as nat, size),
{
    let mut text = join2(" in ", format_duration(elapsed).as_str());
    if let (Some(before), Some(after)) = (state.input_size, size) {
        text.append(" (");
        text.append(format_size(before).as_str());
        text.append(" → ");
        text.append(format_size(after).as_str());
        text.append(")");
    }
    let mut l: Vec<Piece> = Vec::new();
    assert(line_of(l@) =~= Seq::<(Tone, Seq<char>)>::empty());
    add_piece(&mut l, Tone::Command, "Finished");
    assert(text@ =~= success_text(*state, elapsed.nanos as nat, size)[1].1);
    add_piece(&mut l, Tone::Muted, text.as_str());
    assert(line_of(l@) =~= success_text(*state, elapsed.nanos as nat, size));
    l
}

/// Adds what is said of a failure.
fn add_diagnosis(out: &mut Vec<Vec<Piece>>, state: &RunState)
    ensures
        lines_of(final(out)@) == lines_of(old(out)@) + failure_text(opt_finding(state.diagnosis)),
{
    let ghost before = lines_of(out@);
    match &state.diagnosis {
        Some(d) => {
            add_line(out, Tone::Warning, d.title.as_str());
            add_line(out, Tone::Muted, d.detail.as_str());
            if let Some(s) = &d.suggestion {
                let mut l: Vec<Piece> = Vec::new();
                assert(line_of(l@) =~= Seq::<(Tone, Seq<char>)>::empty());
                add_piece(&mut l, Tone::Title, "Try: ");
                add_piece(&mut l, Tone::Muted, s.as_str());
                assert(line_of(l@) =~= seq![(Tone::Title, "Try: "@), (Tone::Muted, s@)]);
                add_whole(out, l);
            }
        },
        None => add_line(
            out,
            Tone::Warning,
            "Failed with unrecognized output — the raw log below is the full story.",
        ),
    }
    add_line(
        out,
        Tone::Footer,
        "c copies the full error report (command + stderr) for search or filing.",
    );
    assert(lines_of(out@) =~= before + failure_text(opt_finding(state.diagnosis)));
}

/// Writes the status panel, given the time since the job began and the size of
/// the output.
pub fn panel_lines(state: &RunState, elapsed: Duration, size: Option<u64>) -> (r: Vec<Vec<Piece>>)
    ensures
        lines_of(r@) == status_panel(*state, elapsed.nanos as nat, size),
{
    let mut out = no_lines();
    add_whole(&mut out, stats_line(state, elapsed));
    assert(lines_of(out@) =~= seq![figures(*state, elapsed.nanos as nat)]);
    match state.phase {
        RunPhase::Done => {
            add_line(&mut out, Tone::Plain, "");
            if state.succeeded() {
                add_whole(&mut out, success_line(state, elapsed, size));
            } else {
                add_diagnosis(&mut out, state);
            }
        },
        RunPhase::Cancelling => {
            add_line(&mut out, Tone::Plain, "");
            add_line(
                &mut out,
                Tone::Warning,
                "Sent SIGTERM — ffmpeg is flushing a playable file…",
            );
        },
        _ => {},
    }
    out
}

/// Writes the question whether to overwrite.
pub fn overwrite_lines(output: &str) -> (r: Vec<Vec<Piece>>)
    ensures
        lines_of(r@) == overwrite_text(output@),
{
    let mut out = no_lines();
    add_line(&mut out, Tone::Warning, join2(output, " already exists.").as_str());
    add_line(&mut out, Tone::Plain, "");
    add_line(
        &mut out,
        Tone::Muted,
        "ffkit asks here so ffmpeg never blocks on its own prompt. Overwriting passes -y.",
    );
    assert(lines_of(out@) =~= overwrite_text(output@));
    out
}

/// Writes the question whether to delete.
pub fn delete_lines(output: &str) -> (r: Vec<Vec<Piece>>)
    ensures
        lines_of(r@) == delete_text(output@),
{
    let mut out = no_lines();
    add_line(
        &mut out,
        Tone::Warning,
        join3("Partial output remains at ", output, ".").as_str(),
    );
    add_line(&mut out, Tone::Plain, "");
    add_line(
        &mut out,
        Tone::Muted,
        "Cancelled/failed jobs often leave unplayable fragments.",
    );
    assert(lines_of(out@) =~= delete_text(output@));
    out
}

/// The screen of a job shows how much of its input is done: the time that is
/// written over the length, and the rest over the mean of the latest speeds.
pub proof fn law_the_bar_shows_time_over_length(r: RunState)
    ensures
        r.progress() is Some <==> r.out_time is Some && r.total_duration is Some
            && r.total_duration->0.nanos > 0,
        r.progress() matches Some(q) ==> {
            let out = r.out_time->0.nanos;
            let total = r.total_duration->0.nanos;
            q.den > 0 && (out <= total ==> q.num * total == q.den * out) && (out >= total ==> q.num
                == q.den)
        },
        r.time_left() matches Some(t) ==> r.out_time is Some && r.total_duration is Some
            && r.smoother@.len() > 0 && (t == u128::MAX || {
            let left = (r.total_duration->0.nanos - r.out_time->0.nanos) * 1_000_000;
            let speed = sum(r.smoother@) / r.smoother@.len();
            2 * (t * speed) <= 2 * left + speed && 2 * left <= 2 * (t * speed) + speed
        }),
{
    if r.out_time is Some && r.total_duration is Some {
        let out = r.out_time->0;
        let total = r.total_duration->0;
        law_ratio_is_time_over_total(out, total);
        if r.smoother@.len() > 0 {
            law_remaining_time_is_rest_over_speed(
                out.nanos as nat,
                total.nanos as nat,
                sum(r.smoother@) / r.smoother@.len(),
            );
        }
    }
}

/// A report holds the command that ran, first, and every line that it wrote to
/// its log.
pub proof fn law_reports_hold_command_and_log(r: RunState, i: int)
    ensures
        begins(r.report(), "$ "@ + r.display_command@),
        r.result matches Some(d) ==> (0 <= i < d.stderr@.len() ==> has(r.report(), d.stderr@[i]@)),
        r.result is None ==> (0 <= i < r.stderr@.len() ==> has(r.report(), r.stderr@[i]@)),
{
    let head = "$ "@ + r.display_command@ + "\n\n"@;
    let rest = match r.result {
        Some(d) => joined(texts(d.stderr@), "\n"@) + "\n"@,
        None => ended_lines(texts(r.stderr@)),
    };
    assert(r.report() =~= head + rest);
    let start = "$ "@ + r.display_command@;
    assert(r.report().take(start.len() as int) =~= start);
    match r.result {
        Some(d) => {
            let v = texts(d.stderr@);
            if 0 <= i < v.len() {
                lemma_joined_holds(v, "\n"@, i);
                lemma_has_inside(head, joined(v, "\n"@), "\n"@, v[i]);
                assert(head + joined(v, "\n"@) + "\n"@ =~= r.report());
            }
        },
        None => {
            let v = texts(r.stderr@);
            if 0 <= i < v.len() {
                lemma_ended_holds(v, i);
                lemma_has_inside(head, ended_lines(v), Seq::empty(), v[i]);
                assert(head + ended_lines(v) + Seq::<char>::empty() =~= r.report());
            }
        },
    }
}

proof fn lemma_ended_holds(v: Seq<Seq<char>>, i: int)
    requires
        0 <= i < v.len(),
    ensures
        has(ended_lines(v), v[i]),
    decreases v.len(),
{
    let before = ended_lines(v.drop_last());
    if i == v.len() - 1 {
        lemma_has_itself(v[i]);
        lemma_has_inside(before, v[i], "\n"@, v[i]);
    } else {
        lemma_ended_holds(v.drop_last(), i);
        lemma_has_inside(Seq::empty(), before, v.last() + "\n"@, v[i]);
        assert(Seq::<char>::empty() + before + (v.last() + "\n"@) =~= ended_lines(v));
    }
}

/// The closing line tells how long the job took, and the size of its input
/// before that of its output.
pub proof fn law_success_tells_time_and_sizes(
    s: RunState,
    elapsed: nat,
    input: u64,
    output: u64,
)
    requires
        s.input_size == Some(input),
    ensures
        ({
            let line = success_text(s, elapsed, Some(output));
            &&& line[1].1 == " in "@ + clock(elapsed / 1_000_000_000) + (" ("@ + size_text(
                input as nat,
            ) + " → "@ + size_text(output as nat) + ")"@)
            &&& success_text(s, elapsed, None)[1].1 == " in "@ + clock(elapsed / 1_000_000_000)
        }),
{
    let empty = Seq::<char>::empty();
    assert(" in "@ + clock(elapsed / 1_000_000_000) + empty =~= " in "@ + clock(
        elapsed / 1_000_000_000,
    ));
}

/// The figures are those of the job: the time it has taken, the time that is
/// left, and what FFmpeg reported last.
pub proof fn law_figures_are_those_of_the_job(s: RunState, elapsed: nat)
    ensures
        figures(s, elapsed)[0].1 == "elapsed "@ + clock(elapsed / 1_000_000_000),
        s.time_left() matches Some(t) ==> figures(s, elapsed)[2].1 == "ETA "@ + clock(
            t / 1_000_000_000,
        ),
        s.time_left() is None && s.last_speed is Some ==> figures(s, elapsed)[2].1 == hundredths(
            s.last_speed->0 as nat,
        ) + "x"@,
        s.time_left() is None && s.last_speed is None && s.total_size is Some ==> figures(
            s,
            elapsed,
        )[2].1 == size_text(s.total_size->0 as nat),
        s.time_left() is None && s.last_speed is None && s.total_size is None && s.frame is None
            && s.bitrate_kbps is None ==> figures(s, elapsed).len() == 1,
{
}

/// A job is called done only when it succeeded, and cancelled or failed as its
/// result says.
pub proof fn law_the_word_fits_the_result(s: RunState)
    requires
        s.phase is Done,
        s.result is Some,
    ensures
        run_word(s) == "done ✓"@ <==> s.result->0.success,
        !s.result->0.success ==> (run_word(s) == "cancelled"@ <==> s.result->0.cancelled),
        !s.result->0.success ==> (run_word(s) == "failed"@ <==> !s.result->0.cancelled),
{
    reveal_strlit("done ✓");
    reveal_strlit("cancelled");
    reveal_strlit("failed");
    assert("done ✓"@[0] == 'd' && "cancelled"@[0] == 'c' && "failed"@[0] == 'f');
}

} // verus!
