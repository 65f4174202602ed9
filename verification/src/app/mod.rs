//! The application: which screen is shown, and what every event does to it.
//!
//! Nothing here reads a file, starts a process or looks at the clock. What has
//! to be done outside comes back as [`Effect`]s, in order, and what came of it
//! is handed in again.

pub mod batch;
pub mod browse;
pub mod forms;
pub mod jobs;
pub mod key_laws;
pub mod keys;
pub mod laws;
pub mod messages;

use vstd::hash_map::StringHashMap;
use vstd::prelude::*;
use crate::config::presets::Preset;
use crate::config::settings::Settings;
use crate::ffmpeg::builder::{Command, CommandSpec};
use crate::ffmpeg::capabilities::CapabilityReport;
use crate::ffmpeg::probe::ProbeResult;
use crate::key::fresh_buffer;
use crate::ops::{menu, operations, About, OperationMeta};
use crate::queue::QueueState;
use crate::text::{copy_opt, copy_text, opt_text, texts};
use crate::time::Duration;
use crate::ui::screens::file_browser::{Browser, BrowserState};
use crate::ui::screens::missing_ffmpeg::MissingState;
use crate::ui::screens::parameter_form::ParamForm;
use crate::ui::screens::popups::{NamePrompt, PresetPopup};
use crate::ui::screens::running::RunState;

verus! {

/// The screens.
#[derive(Debug, PartialEq, Eq)]
pub enum Screen {
    /// FFmpeg is being looked for.
    Startup,
    /// There is no usable FFmpeg.
    MissingFfmpeg,
    /// The menu of operations.
    OperationPicker,
    /// Choosing the input files.
    FileBrowser,
    /// The form of an operation.
    ParameterForm,
    /// A job that runs.
    Running,
    /// The queue, over the screen it was opened from.
    Queue { return_to: Box<Screen> },
    /// The help, over the screen it was opened from.
    Help { return_to: Box<Screen> },
}

impl Default for Screen {
    fn default() -> (r: Self)
        ensures
            r == Screen::Startup,
    {
        Screen::Startup
    }
}

impl Screen {
    /// Copies a screen.
    pub fn copy(&self) -> (r: Self)
        ensures
            r == *self,
        decreases self,
    {
        match self {
            Screen::Startup => Screen::Startup,
            Screen::MissingFfmpeg => Screen::MissingFfmpeg,
            Screen::OperationPicker => Screen::OperationPicker,
            Screen::FileBrowser => Screen::FileBrowser,
            Screen::ParameterForm => Screen::ParameterForm,
            Screen::Running => Screen::Running,
            Screen::Queue { return_to } => Screen::Queue { return_to: Box::new(return_to.copy()) },
            Screen::Help { return_to } => Screen::Help { return_to: Box::new(return_to.copy()) },
        }
    }
}

/// How far probing a file has come.
#[derive(Debug, Clone)]
pub enum ProbeState {
    /// On its way.
    Pending,
    /// Done.
    Ready(ProbeResult),
    /// Failed, with a message.
    Failed(String),
}

/// What the settings are saved for.
#[derive(Debug)]
pub enum SaveFor {
    /// The path of FFmpeg that the user typed.
    CustomPath,
    /// A preset of this name.
    Preset(String),
}

/// What is copied to the clipboard.
#[derive(Debug, Clone, Copy, PartialEq, Eq, Structural)]
pub enum CopyFor {
    /// The command that a form builds.
    Command,
    /// The report of a job.
    Report,
}

/// One job of a batch, before it is known what is on disk.
#[derive(Debug)]
pub struct BatchItem {
    pub input: String,
    pub output: String,
    pub spec: CommandSpec,
    pub total_duration: Option<Duration>,
    pub input_size: Option<u64>,
}

/// A job of a batch, as mathematical values.
pub struct Planned {
    pub input: Seq<char>,
    pub output: Seq<char>,
    pub command: Command,
    pub total_duration: Option<Duration>,
    pub input_size: Option<u64>,
}

impl View for BatchItem {
    type V = Planned;

    open spec fn view(&self) -> Planned {
        Planned {
            input: self.input@,
            output: self.output@,
            command: self.spec@,
            total_duration: self.total_duration,
            input_size: self.input_size,
        }
    }
}

/// The jobs of a batch.
pub open spec fn plan(v: Seq<BatchItem>) -> Seq<Planned> {
    v.map_values(|b: BatchItem| b@)
}

/// Something to be done outside.
#[derive(Debug)]
pub enum Effect {
    /// Read a directory for a browser that was opened, and hand its entries to
    /// `on_opened` together with the other directories to try.
    Open { dir: String, others: Vec<String> },
    /// Read a directory, and hand its entries to `on_listed`.
    List(String),
    /// Look at what a path is, and hand it to `on_found`.
    Look(String),
    /// Probe a file, and hand in the result as a message.
    Probe { ffprobe: Option<String>, path: String },
    /// Try out a path of FFmpeg, and hand in the report as a message.
    CheckPath { ffmpeg: String, ffprobe: Option<String> },
    /// Save the settings, and hand what came of it to `on_saved`.
    Save(SaveFor),
    /// Copy a text to the clipboard, and hand what came of it to `on_copied`.
    Copy { text: String, what: CopyFor },
    /// Delete a file, and hand what came of it to `on_deleted`.
    Delete(String),
    /// Look whether an output exists and, where an input is given, how large it
    /// is, and hand both to `begin_single`.
    LookSingle { output: String, input: Option<String> },
    /// Look which outputs of a batch exist and how large its inputs are, and
    /// hand both to `begin_batch` together with the batch.
    SurveyBatch(Vec<BatchItem>),
    /// Start a job, in a directory of the given name made first; hand a failure
    /// to make it to `on_start_failed`.
    Start { id: u64, spec: CommandSpec, output: String, dir: Option<String> },
    /// Ask a job to stop.
    Cancel(u64),
    /// Ask all jobs of the queue to stop.
    CancelAll,
    /// Kill a process.
    Kill(u32),
}

/// Something to be done outside, as mathematical values.
pub enum Deed {
    Open(Seq<char>, Seq<Seq<char>>),
    List(Seq<char>),
    Look(Seq<char>),
    Probe(Option<Seq<char>>, Seq<char>),
    CheckPath(Seq<char>, Option<Seq<char>>),
    SavePath,
    SavePreset(Seq<char>),
    Copy(Seq<char>, CopyFor),
    Delete(Seq<char>),
    LookSingle(Seq<char>, Option<Seq<char>>),
    SurveyBatch(Seq<Planned>),
    Start { id: u64, command: Command, output: Seq<char>, dir: Option<Seq<char>> },
    Cancel(u64),
    CancelAll,
    Kill(u32),
}

impl View for Effect {
    type V = Deed;

    open spec fn view(&self) -> Deed {
        match self {
            Effect::Open { dir, others } => Deed::Open(dir@, texts(others@)),
            Effect::List(dir) => Deed::List(dir@),
            Effect::Look(path) => Deed::Look(path@),
            Effect::Probe { ffprobe, path } => Deed::Probe(opt_text(*ffprobe), path@),
            Effect::CheckPath { ffmpeg, ffprobe } => Deed::CheckPath(ffmpeg@, opt_text(*ffprobe)),
            Effect::Save(SaveFor::CustomPath) => Deed::SavePath,
            Effect::Save(SaveFor::Preset(name)) => Deed::SavePreset(name@),
            Effect::Copy { text, what } => Deed::Copy(text@, *what),
            Effect::Delete(path) => Deed::Delete(path@),
            Effect::LookSingle { output, input } => Deed::LookSingle(output@, opt_text(*input)),
            Effect::SurveyBatch(items) => Deed::SurveyBatch(plan(items@)),
            Effect::Start { id, spec, output, dir } => Deed::Start {
                id: *id,
                command: spec@,
                output: output@,
                dir: opt_text(*dir),
            },
            Effect::Cancel(id) => Deed::Cancel(*id),
            Effect::CancelAll => Deed::CancelAll,
            Effect::Kill(pid) => Deed::Kill(*pid),
        }
    }
}

/// What is to be done outside, in order.
pub open spec fn deeds(v: Seq<Effect>) -> Seq<Deed> {
    v.map_values(|e: Effect| e@)
}

/// Nothing to be done.
pub fn no_effects() -> (r: Vec<Effect>)
    ensures
        deeds(r@) == Seq::<Deed>::empty(),
{
    let r: Vec<Effect> = Vec::new();
    assert(deeds(r@) =~= Seq::<Deed>::empty());
    r
}

/// One thing to be done.
pub fn one_effect(e: Effect) -> (r: Vec<Effect>)
    ensures
        deeds(r@) == seq![e@],
{
    let mut r: Vec<Effect> = Vec::new();
    r.push(e);
    assert(deeds(r@) =~= seq![e@]);
    r
}

/// What the outside is like when a key is pressed.
pub struct Facts<'a> {
    /// The time, from some fixed moment on.
    pub now: Duration,
    /// The directory that the browser starts in.
    pub start_dir: &'a str,
    /// The home directory.
    pub home: Option<&'a str>,
    /// The directory for temporary files.
    pub temp_dir: &'a str,
    /// The date, as written in file names.
    pub date: &'a str,
    /// The size of the output of the job on the running screen, if it exists.
    pub output_size: Option<u64>,
}

/// The state of the application.
pub struct App {
    /// The screen that is shown.
    pub screen: Screen,
    /// The highlighted operation of the menu.
    pub selected_operation: usize,
    /// The status line.
    pub status_message: Option<String>,
    /// Whether the program is to end.
    pub should_quit: bool,
    /// The settings.
    pub settings: Settings,
    /// What FFmpeg can do, once that is known.
    pub caps: Option<CapabilityReport>,
    /// How often the clock ticked.
    pub spinner: usize,
    /// The file browser.
    pub browser: BrowserState,
    /// The probes, by path.
    pub probes: StringHashMap<ProbeState>,
    /// The inputs that were chosen.
    pub form_inputs: Vec<String>,
    /// The form, once inputs were chosen.
    pub form: Option<ParamForm>,
    /// The job of the running screen.
    pub run: Option<RunState>,
    /// The queue.
    pub queue: QueueState,
    /// The preset that the next form starts with.
    pub pending_preset: Option<Preset>,
    /// The list of presets, while it is open.
    pub preset_popup: Option<PresetPopup>,
    /// The prompt for a preset's name, while it is open.
    pub save_prompt: Option<NamePrompt>,
    /// The screen for a missing FFmpeg.
    pub missing: MissingState,
}

/// A browser that is to show a directory.
pub open spec fn opened(dir: Seq<char>) -> Browser {
    Browser {
        cwd: dir,
        all: Seq::empty(),
        entries: Seq::empty(),
        cursor: 0,
        marked: Set::empty(),
        show_all: false,
        filter: Seq::empty(),
        path_mode: false,
        path: fresh_buffer(Seq::empty()),
        last_error: None,
    }
}

impl App {
    /// Whether the parts are in order: an operation is highlighted, the forms'
    /// rows can be stepped through, and the ids of the jobs differ.
    pub open spec fn wf(&self) -> bool {
        &&& self.selected_operation < menu().len()
        &&& self.browser.wf()
        &&& self.form matches Some(f) ==> f.wf()
        &&& self.run matches Some(r) ==> r.wf()
        &&& self.queue.wf()
    }

    /// The application as it starts: FFmpeg is being looked for.
    pub fn new(settings: Settings, start_dir: String) -> (r: Self)
        ensures
            r.wf(),
            r.screen == Screen::Startup,
            r.selected_operation == 0,
            r.status_message is None,
            !r.should_quit,
            r.settings == settings,
            r.caps is None,
            r.spinner == 0,
            r.browser@ == opened(start_dir@),
            r.probes@ == Map::<Seq<char>, ProbeState>::empty(),
            r.form_inputs@.len() == 0,
            r.form is None,
            r.run is None,
            r.queue.jobs@.len() == 0,
            !r.queue.running,
            r.queue.next_id == 1,
            r.pending_preset is None,
            r.preset_popup is None,
            r.save_prompt is None,
            !r.missing.checking,
            r.missing.error is None,
            r.missing.pending_path is None,
    {
        App {
            screen: Screen::Startup,
            selected_operation: 0,
            status_message: None,
            should_quit: false,
            settings,
            caps: None,
            spinner: 0,
            browser: BrowserState::open(start_dir),
            probes: StringHashMap::new(),
            form_inputs: Vec::new(),
            form: None,
            run: None,
            queue: QueueState::new(),
            pending_preset: None,
            preset_popup: None,
            save_prompt: None,
            missing: MissingState::default(),
        }
    }

    /// The highlighted operation.
    pub open spec fn chosen(&self) -> About {
        menu()[self.selected_operation as int]
    }

    /// The highlighted operation of the menu.
    pub fn selected_operation_meta(&self) -> (r: OperationMeta)
        requires
            self.wf(),
        ensures
            r@ == self.chosen(),
    {
        let all = operations();
        let ghost about = all@.map_values(|m: OperationMeta| m@);
        assert(about.len() == all@.len());
        let m = all[self.selected_operation];
        assert(about[self.selected_operation as int] == m@);
        m
    }

    /// The `ffprobe` that was found.
    pub open spec fn ffprobe(&self) -> Option<Seq<char>> {
        match self.caps {
            Some(c) => opt_text(c.ffprobe_path),
            None => None,
        }
    }

    /// Gives the `ffprobe` that was found.
    fn ffprobe_path(&self) -> (r: Option<String>)
        ensures
            opt_text(r) == self.ffprobe(),
    {
        match &self.caps {
            Some(c) => copy_opt(&c.ffprobe_path),
            None => None,
        }
    }
}

// ---------------------------------------------------------------------------
// Probes
// ---------------------------------------------------------------------------

/// The probes once one for a path was asked for.
pub open spec fn with_probe(m: Map<Seq<char>, ProbeState>, path: Seq<char>) -> Map<
    Seq<char>,
    ProbeState,
> {
    if m.contains_key(path) {
        m
    } else {
        m.insert(path, ProbeState::Pending)
    }
}

/// What is to be done for a probe of a path: nothing when one was asked for.
pub open spec fn probe_deeds(
    m: Map<Seq<char>, ProbeState>,
    ffprobe: Option<Seq<char>>,
    path: Seq<char>,
) -> Seq<Deed> {
    if m.contains_key(path) {
        Seq::empty()
    } else {
        seq![Deed::Probe(ffprobe, path)]
    }
}

/// The probes once some for paths were asked for.
pub open spec fn with_probes(m: Map<Seq<char>, ProbeState>, paths: Seq<Seq<char>>) -> Map<
    Seq<char>,
    ProbeState,
>
    decreases paths.len(),
{
    if paths.len() == 0 {
        m
    } else {
        with_probe(with_probes(m, paths.drop_last()), paths.last())
    }
}

/// What is to be done for probes of paths.
pub open spec fn probes_deeds(
    m: Map<Seq<char>, ProbeState>,
    ffprobe: Option<Seq<char>>,
    paths: Seq<Seq<char>>,
) -> Seq<Deed>
    decreases paths.len(),
{
    if paths.len() == 0 {
        Seq::empty()
    } else {
        probes_deeds(m, ffprobe, paths.drop_last()) + probe_deeds(
            with_probes(m, paths.drop_last()),
            ffprobe,
            paths.last(),
        )
    }
}

/// The path of the highlighted file, when it is to be probed.
pub open spec fn highlighted_media(b: Browser) -> Option<Seq<char>> {
    match b.highlighted() {
        Some(e) => if e.is_media {
            Some(e.path)
        } else {
            None
        },
        None => None,
    }
}

/// Whether the highlighted file was probed, and nothing else done.
pub open spec fn highlight_probed(before: App, after: App, d: Seq<Deed>) -> bool {
    match highlighted_media(before.browser@) {
        Some(path) => {
            &&& after == (App { probes: after.probes, ..before })
            &&& after.probes@ == with_probe(before.probes@, path)
            &&& d == probe_deeds(before.probes@, before.ffprobe(), path)
        },
        None => after == before && d == Seq::<Deed>::empty(),
    }
}

impl App {
    /// Asks for a probe of a path, unless one was asked for.
    pub fn ensure_probe(&mut self, path: &str) -> (r: Vec<Effect>)
        ensures
            *final(self) == (App { probes: final(self).probes, ..*old(self) }),
            final(self).probes@ == with_probe(old(self).probes@, path@),
            old(self).probes@.contains_key(path@) ==> *final(self) == *old(self),
            deeds(r@) == probe_deeds(old(self).probes@, old(self).ffprobe(), path@),
    {
        if self.probes.contains_key(path) {
            return no_effects();
        }
        self.probes.insert(copy_text(path), ProbeState::Pending);
        one_effect(Effect::Probe { ffprobe: self.ffprobe_path(), path: copy_text(path) })
    }

    /// Asks for probes of paths.
    pub fn ensure_probes(&mut self, paths: &Vec<String>) -> (r: Vec<Effect>)
        ensures
            *final(self) == (App { probes: final(self).probes, ..*old(self) }),
            final(self).probes@ == with_probes(old(self).probes@, texts(paths@)),
            deeds(r@) == probes_deeds(old(self).probes@, old(self).ffprobe(), texts(paths@)),
    {
        let ghost m = self.probes@;
        let ghost ffprobe = self.ffprobe();
        let ghost all = texts(paths@);
        let mut out = no_effects();
        let mut i: usize = 0;
        assert(all.take(0) =~= Seq::<Seq<char>>::empty());
        while i < paths.len()
            invariant
                i <= paths@.len(),
                all == texts(paths@),
                ffprobe == self.ffprobe(),
                *self == (App { probes: self.probes, ..*old(self) }),
                self.probes@ == with_probes(m, all.take(i as int)),
                deeds(out@) == probes_deeds(m, ffprobe, all.take(i as int)),
            decreases paths@.len() - i,
        {
            proof {
                assert(all.take(i + 1).drop_last() =~= all.take(i as int));
                assert(all.take(i + 1).last() == paths@[i as int]@);
            }
            let ghost before = deeds(out@);
            let mut more = self.ensure_probe(paths[i].as_str());
            let ghost next = deeds(more@);
            out.append(&mut more);
            assert(deeds(out@) =~= before + next);
            i = i + 1;
        }
        assert(all.take(i as int) =~= all);
        out
    }

    /// Asks for a probe of the highlighted file, when it is media.
    pub fn probe_highlighted(&mut self) -> (r: Vec<Effect>)
        ensures
            highlight_probed(*old(self), *final(self), deeds(r@)),
    {
        let path = match self.browser.highlighted() {
            Some(e) => {
                if e.is_media {
                    Some(copy_text(e.path.as_str()))
                } else {
                    None
                }
            },
            None => None,
        };
        match path {
            Some(p) => self.ensure_probe(p.as_str()),
            None => no_effects(),
        }
    }
}

/// Every file that is asked about is probed once, unless it was before; what is
/// known already stays.
pub proof fn law_each_file_is_probed_once(
    m: Map<Seq<char>, ProbeState>,
    ffprobe: Option<Seq<char>>,
    paths: Seq<Seq<char>>,
    p: Seq<char>,
)
    ensures
        with_probes(m, paths).contains_key(p) <==> m.contains_key(p) || paths.contains(p),
        m.contains_key(p) ==> with_probes(m, paths)[p] == m[p],
        !m.contains_key(p) && paths.contains(p) ==> with_probes(m, paths)[p] == ProbeState::Pending,
        probes_deeds(m, ffprobe, paths).contains(Deed::Probe(ffprobe, p)) <==> paths.contains(p)
            && !m.contains_key(p),
        forall|i: int, j: int|
            0 <= i < j < probes_deeds(m, ffprobe, paths).len() ==> probes_deeds(
                m,
                ffprobe,
                paths,
            )[i] != probes_deeds(m, ffprobe, paths)[j],
    decreases paths.len(),
{
    let d = probes_deeds(m, ffprobe, paths);
    if paths.len() > 0 {
        let front = paths.drop_last();
        let q = paths.last();
        let before = probes_deeds(m, ffprobe, front);
        let more = probe_deeds(with_probes(m, front), ffprobe, q);
        law_each_file_is_probed_once(m, ffprobe, front, p);
        law_each_file_is_probed_once(m, ffprobe, front, q);
        assert(paths =~= front.push(q));
        assert(paths.contains(p) <==> front.contains(p) || p == q) by {
            if front.contains(p) {
                let i = choose|i: int| 0 <= i < front.len() && front[i] == p;
                assert(paths[i] == p);
            }
            assert(paths[paths.len() - 1] == q);
            if paths.contains(p) && p != q {
                let i = choose|i: int| 0 <= i < paths.len() && paths[i] == p;
                assert(front[i] == p);
            }
        }
        if with_probes(m, front).contains_key(q) {
            assert(d =~= before);
        } else {
            let x = Deed::Probe(ffprobe, q);
            assert(d =~= before.push(x));
            assert(!before.contains(x));
            assert forall|i: int, j: int| 0 <= i < j < d.len() implies d[i] != d[j] by {
                assert(d[i] == before[i]);
                if j == d.len() - 1 {
                    assert(before.contains(before[i]));
                }
            }
            let y = Deed::Probe(ffprobe, p);
            assert(d.contains(y) <==> before.contains(y) || y == x) by {
                if before.contains(y) {
                    let i = choose|i: int| 0 <= i < before.len() && before[i] == y;
                    assert(d[i] == y);
                }
                assert(d[d.len() - 1] == x);
                if d.contains(y) && y != x {
                    let i = choose|i: int| 0 <= i < d.len() && d[i] == y;
                    assert(before[i] == y);
                }
            }
        }
    }
}

} // verus!
