//! Running one job.
//!
//! A job first writes the list file that it needs, then runs its earlier
//! passes one after the other, then starts FFmpeg and listens to its two
//! pipes, and in the end waits for it to exit. The caller does the work that
//! the stage asks for and reports what came of it.

use std::collections::VecDeque;
use vstd::prelude::*;
use crate::backlog::{into_lines, law_backlog_is_the_tail, push_line, pushed, pushed_all, tail_of};
use crate::ffmpeg::builder::{
    all_safe, lemma_read_quoted, lemma_read_safe, shell_read, shell_safe, shell_words, Command,
    CommandSpec, ConcatListFile, ListFile,
};
use crate::ffmpeg::errors::tail_lines;
use crate::ffmpeg::progress::{fed, reports, ProgressParser, ProgressUpdate};
use crate::path::{is_absolute, join_path, joined_path, path_is_absolute};
use crate::text::{
    copy_text, has, join2, join3, lines, occurs_at, replace_all, replaced, split_lines, texts,
};
use crate::time::Duration;

verus! {

/// How long FFmpeg may take to stop when asked to, in seconds.
pub const TERM_GRACE_SECS: u64 = 3;

/// How many lines of error output are kept.
pub const MAX_STDERR_LINES: usize = 2000;

/// What a job runs.
#[derive(Debug)]
pub struct JobRequest {
    /// The command.
    pub spec: CommandSpec,
    /// Where the output goes.
    pub output: String,
}

/// How a job ended.
#[derive(Debug, Clone)]
pub struct JobResult {
    /// FFmpeg reported success and nobody cancelled.
    pub success: bool,
    /// The user cancelled, whatever FFmpeg reported.
    pub cancelled: bool,
    /// The exit code, when there was one.
    pub exit_code: Option<i32>,
    /// The kept error output, oldest line first.
    pub stderr: Vec<String>,
    /// How long the job took.
    pub wall_time: Duration,
}

impl JobResult {
    /// The last `n` lines of error output.
    pub fn stderr_tail(&self, n: usize) -> (r: Vec<String>)
        ensures
            texts(r@) == tail_of(texts(self.stderr@), n as nat),
    {
        tail_lines(self.stderr.as_slice(), n)
    }
}

/// Keeps one line of error output, and forgets the oldest past the limit.
pub fn push_capped(buffer: &mut VecDeque<String>, line: String)
    ensures
        texts(final(buffer)@) == pushed(texts(old(buffer)@), line@, MAX_STDERR_LINES as nat),
{
    push_line(buffer, line, MAX_STDERR_LINES);
}

/// What `String::from_utf8_lossy` makes of bytes.
pub uninterp spec fn lossy_text(bytes: Seq<u8>) -> Seq<char>;

/// Calls `String::from_utf8_lossy`, which replaces what is not valid UTF-8 by
/// replacement characters. What it makes of invalid bytes is only named; valid
/// UTF-8 is decoded as it stands.
#[verifier::external_body]
fn decode_lossy(bytes: &[u8]) -> (r: String)
    ensures
        r@ == lossy_text(bytes@),
        vstd::utf8::valid_utf8(bytes@) ==> r@ == vstd::utf8::decode_utf8(bytes@),
{
    String::from_utf8_lossy(bytes).into_owned()
}

/// The last lines of a text, as many as are kept.
pub open spec fn kept_lines(text: Seq<char>) -> Seq<Seq<char>> {
    tail_of(lines(text), MAX_STDERR_LINES as nat)
}

/// Splits a text into lines and keeps the last of them.
pub fn last_lines(text: &str) -> (r: Vec<String>)
    ensures
        texts(r@) == kept_lines(text@),
{
    let all = split_lines(text);
    tail_lines(all.as_slice(), MAX_STDERR_LINES)
}

/// Decodes error output and keeps its last lines.
pub fn capped_lines(bytes: &[u8]) -> (r: Vec<String>)
    ensures
        texts(r@) == kept_lines(lossy_text(bytes@)),
        vstd::utf8::valid_utf8(bytes@) ==> texts(r@) == kept_lines(
            vstd::utf8::decode_utf8(bytes@),
        ),
{
    let text = decode_lossy(bytes);
    last_lines(text.as_str())
}

// ---------------------------------------------------------------------------
// List files
// ---------------------------------------------------------------------------

/// The absolute form of a path: FFmpeg resolves relative entries against the
/// list file's directory, not against the working directory.
pub open spec fn absolute(path: Seq<char>, cwd: Seq<char>) -> Seq<char> {
    if is_absolute(path) {
        path
    } else {
        joined_path(cwd, path)
    }
}

/// One line of a list file.
pub open spec fn entry(path: Seq<char>) -> Seq<char> {
    "file '"@ + replaced(path, "'"@, "'\\''"@) + "'\n"@
}

/// The lines of a list file for the first inputs.
pub open spec fn entries(inputs: Seq<Seq<char>>, cwd: Seq<char>) -> Seq<char>
    decreases inputs.len(),
{
    if inputs.len() == 0 {
        Seq::empty()
    } else {
        entries(inputs.drop_last(), cwd) + entry(absolute(inputs.last(), cwd))
    }
}

/// The text of a list file.
pub open spec fn list_text(list: ListFile, cwd: Seq<char>) -> Seq<char> {
    "ffconcat version 1.0\n"@ + entries(list.inputs, cwd)
}

/// Writes out the text of a list file.
pub fn concat_list_text(list: &ConcatListFile, cwd: &str) -> (r: String)
    ensures
        r@ == list_text(list@, cwd@),
{
    proof {
        reveal_strlit("'");
    }
    let ghost inputs = texts(list.inputs@);
    let mut content = copy_text("ffconcat version 1.0\n");
    let mut i: usize = 0;
    assert(content@ =~= "ffconcat version 1.0\n"@ + entries(inputs.take(0), cwd@));
    while i < list.inputs.len()
        invariant
            i <= list.inputs@.len(),
            inputs == texts(list.inputs@),
            content@ == "ffconcat version 1.0\n"@ + entries(inputs.take(i as int), cwd@),
            "'"@.len() == 1,
        decreases list.inputs@.len() - i,
    {
        let input = list.inputs[i].as_str();
        let path = if path_is_absolute(input) {
            copy_text(input)
        } else {
            join_path(cwd, input)
        };
        let escaped = replace_all(path.as_str(), "'", "'\\''");
        let line = join3("file '", escaped.as_str(), "'\n");
        proof {
            assert(inputs.take(i + 1).drop_last() =~= inputs.take(i as int));
            assert(inputs.take(i + 1).last() == input@);
        }
        content.append(line.as_str());
        assert(content@ =~= "ffconcat version 1.0\n"@ + entries(inputs.take(i + 1), cwd@));
        i = i + 1;
    }
    assert(inputs.take(i as int) =~= inputs);
    content
}

/// A line of a list file names exactly its path, whatever characters the path
/// holds: read by the quoting rules that FFmpeg shares with the shell, it is
/// the word `file` and the path.
pub proof fn law_entry_names_its_path(path: Seq<char>)
    ensures
        shell_words(entry(path)) == Some(seq!["file"@, path]),
{
    reveal_strlit("file '");
    reveal_strlit("file");
    reveal_strlit("'");
    reveal_strlit("'\\''");
    reveal_strlit("'\n");
    let rest = seq!['\n'];
    let inner = replaced(path, seq!['\''], seq!['\'', '\\', '\'', '\'']) + (seq!['\''] + rest);
    let word = "file"@;
    assert("'"@ =~= seq!['\'']);
    assert("'\\''"@ =~= seq!['\'', '\\', '\'', '\'']);
    let after = seq![' ', '\''] + inner;
    assert(entry(path) =~= word + after);
    // The word `file`.
    let first = seq!['f'];
    let more = seq!['i', 'l', 'e'];
    assert((word + after)[0] == 'f');
    assert((word + after).skip(1) =~= more + after);
    lemma_read_safe(more, after, first);
    assert(first + more =~= word);
    assert(Seq::<char>::empty().push('f') =~= first);
    assert(shell_read(word + after, None, false) == shell_read(after, Some(word), false));
    // The blank, and the quoted path.
    let body = after.skip(1);
    assert(body[0] == '\'');
    assert(body.skip(1) =~= inner);
    lemma_read_quoted(path, rest, Seq::empty());
    assert(Seq::<char>::empty() + path =~= path);
    assert(rest.skip(1) =~= Seq::<char>::empty());
    assert(shell_read(body, None, false) == shell_read(rest, Some(path), false));
    assert(shell_read(rest, Some(path), false) == Some(seq![path])) by {
        reveal_with_fuel(shell_read, 2);
        assert(seq![path] + Seq::<Seq<char>>::empty() =~= seq![path]);
    }
    assert(seq![word] + seq![path] =~= seq![word, path]);
}

// ---------------------------------------------------------------------------
// The stages of a job
// ---------------------------------------------------------------------------

/// What a job needs done next.
#[derive(Debug, Clone, Copy, PartialEq, Eq, Structural)]
pub enum Stage {
    /// Write the list file.
    Listing,
    /// Run an earlier pass to its end.
    Pass(usize),
    /// Start FFmpeg.
    Starting,
    /// Take the next line of either pipe, or the request to cancel.
    Listening,
    /// Ask FFmpeg to stop, and stop it by force when it does not.
    Stopping,
    /// Read the rest of the error output.
    Draining,
    /// Wait for FFmpeg to exit, then remove the list file.
    Waiting,
    /// Nothing: the result stands.
    Done,
}

/// What came of a stage.
#[derive(Debug, Clone)]
pub enum RunEvent {
    /// The list file was written.
    ListWritten,
    /// It could not be written.
    ListFailed { error: String },
    /// An earlier pass ended.
    PassEnded { success: bool, code: Option<i32>, stderr: Vec<u8> },
    /// An earlier pass could not be started.
    PassFailed { error: String },
    /// FFmpeg was started.
    Started { pid: Option<u32> },
    /// It could not be started.
    StartFailed { missing: bool, error: String },
    /// A line of progress output.
    Output { line: String },
    /// The end of the progress output.
    OutputClosed,
    /// The progress output could not be read.
    OutputFailed,
    /// A line of error output.
    Log { line: String },
    /// The end of the error output, or it could not be read.
    LogClosed,
    /// The user cancelled.
    Cancel,
    /// FFmpeg was asked to stop.
    Stopped,
    /// FFmpeg exited.
    Ended { success: bool, code: Option<i32> },
    /// How FFmpeg exited could not be learned.
    Lost,
}

/// What a job tells its owner on the way.
#[derive(Debug, Clone)]
pub enum RunNote {
    /// FFmpeg runs.
    Started { pid: Option<u32> },
    /// Progress was made.
    Progress { update: ProgressUpdate },
    /// A line of error output came.
    Log { line: String },
}

/// A job on its way.
#[derive(Debug)]
pub struct JobRun {
    stage: Stage,
    passes: usize,
    list: Option<String>,
    program: String,
    parser: ProgressParser,
    kept: VecDeque<String>,
    cancelled: bool,
    success: bool,
    code: Option<i32>,
}

/// A job on its way, as mathematical values.
#[verifier::ext_equal]
pub struct Run {
    /// What is to be done next.
    pub stage: Stage,
    /// How many passes come before the command itself.
    pub passes: nat,
    /// The list file, if the command needs one.
    pub list: Option<Seq<char>>,
    /// The program to start.
    pub program: Seq<char>,
    /// The open block of progress output.
    pub block: Seq<(Seq<char>, Seq<char>)>,
    /// The kept error output.
    pub kept: Seq<Seq<char>>,
    pub cancelled: bool,
    pub success: bool,
    pub code: Option<i32>,
}

/// The stage behind the list file.
pub open spec fn after_list(passes: nat) -> Stage {
    if passes > 0 {
        Stage::Pass(0)
    } else {
        Stage::Starting
    }
}

/// A job that nothing was done of yet.
pub open spec fn begun(c: Command) -> Run {
    Run {
        stage: if c.concat_list is Some {
            Stage::Listing
        } else {
            after_list(c.pre.len())
        },
        passes: c.pre.len(),
        list: match c.concat_list {
            Some(l) => Some(l.path),
            None => None,
        },
        program: c.program,
        block: Seq::empty(),
        kept: Seq::empty(),
        cancelled: false,
        success: false,
        code: None,
    }
}

/// A job that failed before FFmpeg ran.
pub open spec fn failed(m: Run, code: Option<i32>, said: Seq<Seq<char>>) -> Run {
    Run { stage: Stage::Done, kept: said, code, ..m }
}

/// A job with one more line of error output.
pub open spec fn logged(m: Run, line: Seq<char>) -> Run {
    Run { kept: pushed(m.kept, line, MAX_STDERR_LINES as nat), ..m }
}

/// A job with one more line of progress output; the block that ends the
/// progress output ends the listening.
pub open spec fn heard(m: Run, line: Seq<char>) -> Run {
    let (block, closed) = fed(m.block, line);
    Run {
        block,
        stage: if closed is Some && closed->0.finished {
            Stage::Waiting
        } else {
            Stage::Listening
        },
        ..m
    }
}

/// What an event makes of a job. An event that does not belong to the stage
/// changes nothing.
pub open spec fn stepped(m: Run, e: RunEvent) -> Run {
    match m.stage {
        Stage::Listing => match e {
            RunEvent::ListWritten => Run { stage: after_list(m.passes), ..m },
            RunEvent::ListFailed { error } => failed(
                m,
                None,
                seq![
                    "failed to write concat list "@ + (match m.list {
                        Some(p) => p,
                        None => Seq::empty(),
                    }) + ": "@ + error@,
                ],
            ),
            _ => m,
        },
        Stage::Pass(i) => match e {
            RunEvent::PassEnded { success, code, stderr } => if success {
                Run {
                    stage: if i + 1 < m.passes {
                        Stage::Pass((i + 1) as usize)
                    } else {
                        Stage::Starting
                    },
                    ..m
                }
            } else {
                failed(m, code, kept_lines(lossy_text(stderr@)))
            },
            RunEvent::PassFailed { error } => failed(m, None, seq!["failed to start: "@ + error@]),
            _ => m,
        },
        Stage::Starting => match e {
            RunEvent::Started { pid } => Run { stage: Stage::Listening, ..m },
            RunEvent::StartFailed { missing, error } => failed(
                m,
                None,
                seq![
                    if missing {
                        "ffmpeg binary not found: "@ + m.program
                    } else {
                        "failed to start ffmpeg: "@ + error@
                    },
                ],
            ),
            _ => m,
        },
        Stage::Listening => match e {
            RunEvent::Output { line } => heard(m, line@),
            RunEvent::OutputClosed => Run { stage: Stage::Draining, ..m },
            RunEvent::OutputFailed => Run { stage: Stage::Waiting, ..m },
            RunEvent::Log { line } => logged(m, line@),
            RunEvent::Cancel => Run { stage: Stage::Stopping, cancelled: true, ..m },
            _ => m,
        },
        Stage::Stopping => match e {
            RunEvent::Stopped => Run { stage: Stage::Draining, ..m },
            _ => m,
        },
        Stage::Draining => match e {
            RunEvent::Log { line } => logged(m, line@),
            RunEvent::LogClosed => Run { stage: Stage::Waiting, ..m },
            _ => m,
        },
        Stage::Waiting => match e {
            RunEvent::Ended { success, code } => Run {
                stage: Stage::Done,
                success: success && !m.cancelled,
                code,
                ..m
            },
            RunEvent::Lost => Run { stage: Stage::Done, ..m },
            _ => m,
        },
        Stage::Done => m,
    }
}

/// Whether a note is what the owner is told of an event: that FFmpeg runs, a
/// block of progress, a line of error output, and nothing else.
pub open spec fn told(m: Run, e: RunEvent, note: Option<RunNote>) -> bool {
    match (m.stage, e) {
        (Stage::Starting, RunEvent::Started { pid }) => note == Some(RunNote::Started { pid }),
        (Stage::Listening, RunEvent::Output { line }) => match fed(m.block, line@).1 {
            Some(c) => note matches Some(RunNote::Progress { update }) && reports(
                update,
                c.block,
                c.finished,
            ),
            None => note is None,
        },
        (Stage::Listening, RunEvent::Log { line }) => note matches Some(RunNote::Log { line: l })
            && l@ == line@,
        (Stage::Draining, RunEvent::Log { line }) => note matches Some(RunNote::Log { line: l })
            && l@ == line@,
        _ => note is None,
    }
}

impl JobRun {
    /// The job as mathematical values.
    pub closed spec fn view(&self) -> Run {
        Run {
            stage: self.stage,
            passes: self.passes as nat,
            list: match self.list {
                Some(p) => Some(p@),
                None => None,
            },
            program: self.program@,
            block: self.parser@,
            kept: texts(self.kept@),
            cancelled: self.cancelled,
            success: self.success,
            code: self.code,
        }
    }

    /// A job that nothing was done of yet.
    pub fn new(spec: &CommandSpec) -> (r: Self)
        ensures
            r@ == begun(spec@),
    {
        let passes: usize = spec.pre_commands.len();
        let list = match &spec.concat_list {
            Some(l) => Some(copy_text(l.path.as_str())),
            None => None,
        };
        let stage = if list.is_some() {
            Stage::Listing
        } else if passes > 0 {
            Stage::Pass(0)
        } else {
            Stage::Starting
        };
        let r = JobRun {
            stage,
            passes,
            list,
            program: copy_text(spec.program.as_str()),
            parser: ProgressParser::new(),
            kept: VecDeque::new(),
            cancelled: false,
            success: false,
            code: None,
        };
        assert(texts(r.kept@) =~= Seq::<Seq<char>>::empty());
        r
    }

    /// What is to be done next.
    pub fn stage(&self) -> (r: Stage)
        ensures
            r == self@.stage,
    {
        self.stage
    }

    /// Ends the job with one line of explanation.
    fn give_up(&mut self, code: Option<i32>, said: Vec<String>)
        ensures
            final(self)@ == failed(old(self)@, code, texts(said@)),
    {
        self.stage = Stage::Done;
        self.code = code;
        self.kept = VecDeque::new();
        let ghost all = texts(said@);
        let mut said = said;
        let mut i: usize = 0;
        let mut kept: VecDeque<String> = VecDeque::new();
        while i < said.len()
            invariant
                i <= said@.len(),
                texts(said@) == all,
                texts(kept@) =~= all.take(i as int),
            decreases said@.len() - i,
        {
            let ghost before = texts(kept@);
            let line = copy_text(said[i].as_str());
            assert(line@ == all[i as int]);
            kept.push_back(line);
            assert(texts(kept@) =~= before.push(all[i as int]));
            i = i + 1;
        }
        assert(texts(kept@) =~= all);
        self.kept = kept;
    }

    /// Ends the job with one line of explanation.
    fn give_up_saying(&mut self, message: String)
        ensures
            final(self)@ == failed(old(self)@, None, seq![message@]),
    {
        let ghost text = message@;
        let mut said: Vec<String> = Vec::new();
        said.push(message);
        assert(texts(said@) =~= seq![text]);
        self.give_up(None, said);
    }

    /// Takes in a line of error output.
    fn log(&mut self, line: String) -> (r: Option<RunNote>)
        ensures
            final(self)@ == logged(old(self)@, line@),
            r matches Some(RunNote::Log { line: l }) && l@ == line@,
    {
        let note = RunNote::Log { line: copy_text(line.as_str()) };
        push_capped(&mut self.kept, line);
        Some(note)
    }

    /// Takes in a line of progress output.
    fn hear(&mut self, line: &str) -> (r: Option<RunNote>)
        requires
            old(self)@.stage is Listening,
        ensures
            final(self)@ == heard(old(self)@, line@),
            match fed(old(self)@.block, line@).1 {
                Some(c) => r matches Some(RunNote::Progress { update }) && reports(
                    update,
                    c.block,
                    c.finished,
                ),
                None => r is None,
            },
    {
        match self.parser.feed_line(line) {
            Some(update) => {
                if update.finished {
                    self.stage = Stage::Waiting;
                }
                Some(RunNote::Progress { update })
            },
            None => None,
        }
    }

    /// Takes in what came of the stage, and says what the owner is to be told.
    pub fn advance(&mut self, event: RunEvent) -> (r: Option<RunNote>)
        ensures
            final(self)@ == stepped(old(self)@, event),
            told(old(self)@, event, r),
    {
        match self.stage {
            Stage::Listing => {
                match event {
                    RunEvent::ListWritten => {
                        self.stage = if self.passes > 0 {
                            Stage::Pass(0)
                        } else {
                            Stage::Starting
                        };
                    },
                    RunEvent::ListFailed { error } => {
                        let path = match &self.list {
                            Some(p) => copy_text(p.as_str()),
                            None => String::new(),
                        };
                        let head = join2("failed to write concat list ", path.as_str());
                        let message = join3(head.as_str(), ": ", error.as_str());
                        self.give_up_saying(message);
                    },
                    _ => {},
                }
                None
            },
            Stage::Pass(i) => {
                match event {
                    RunEvent::PassEnded { success, code, stderr } => {
                        if success {
                            self.stage = if i < self.passes && self.passes - i > 1 {
                                Stage::Pass(i + 1)
                            } else {
                                Stage::Starting
                            };
                        } else {
                            let said = capped_lines(stderr.as_slice());
                            self.give_up(code, said);
                        }
                    },
                    RunEvent::PassFailed { error } => {
                        let message = join2("failed to start: ", error.as_str());
                        self.give_up_saying(message);
                    },
                    _ => {},
                }
                None
            },
            Stage::Starting => match event {
                RunEvent::Started { pid } => {
                    self.stage = Stage::Listening;
                    Some(RunNote::Started { pid })
                },
                RunEvent::StartFailed { missing, error } => {
                    let message = if missing {
                        join2("ffmpeg binary not found: ", self.program.as_str())
                    } else {
                        join2("failed to start ffmpeg: ", error.as_str())
                    };
                    self.give_up_saying(message);
                    None
                },
                _ => None,
            },
            Stage::Listening => match event {
                RunEvent::Output { line } => self.hear(line.as_str()),
                RunEvent::OutputClosed => {
                    self.stage = Stage::Draining;
                    None
                },
                RunEvent::OutputFailed => {
                    self.stage = Stage::Waiting;
                    None
                },
                RunEvent::Log { line } => self.log(line),
                RunEvent::Cancel => {
                    self.cancelled = true;
                    self.stage = Stage::Stopping;
                    None
                },
                _ => None,
            },
            Stage::Stopping => {
                if let RunEvent::Stopped = event {
                    self.stage = Stage::Draining;
                }
                None
            },
            Stage::Draining => match event {
                RunEvent::Log { line } => self.log(line),
                RunEvent::LogClosed => {
                    self.stage = Stage::Waiting;
                    None
                },
                _ => None,
            },
            Stage::Waiting => {
                match event {
                    RunEvent::Ended { success, code } => {
                        self.stage = Stage::Done;
                        self.success = success && !self.cancelled;
                        self.code = code;
                    },
                    RunEvent::Lost => {
                        self.stage = Stage::Done;
                    },
                    _ => {},
                }
                None
            },
            Stage::Done => None,
        }
    }

    /// The result, with the time that the job took.
    pub fn into_result(self, wall_time: Duration) -> (r: JobResult)
        ensures
            r.success == self@.success,
            r.cancelled == self@.cancelled,
            r.exit_code == self@.code,
            texts(r.stderr@) == self@.kept,
            r.wall_time == wall_time,
    {
        JobResult {
            success: self.success,
            cancelled: self.cancelled,
            exit_code: self.code,
            stderr: into_lines(self.kept),
            wall_time,
        }
    }
}

// ---------------------------------------------------------------------------
// Laws
// ---------------------------------------------------------------------------

/// A job after a series of events.
pub open spec fn ran(c: Command, es: Seq<RunEvent>) -> Run
    decreases es.len(),
{
    if es.len() == 0 {
        begun(c)
    } else {
        stepped(ran(c, es.drop_last()), es.last())
    }
}

/// A cancelled job never counts as a success, and no job counts as one before
/// it is done.
pub proof fn law_cancelled_is_no_success(c: Command, es: Seq<RunEvent>)
    ensures
        ran(c, es).cancelled ==> !ran(c, es).success,
        ran(c, es).success ==> ran(c, es).stage is Done,
    decreases es.len(),
{
    if es.len() > 0 {
        law_cancelled_is_no_success(c, es.drop_last());
    }
}

/// A result stands: nothing changes a job that is done.
pub proof fn law_done_stands(c: Command, es: Seq<RunEvent>, more: Seq<RunEvent>)
    requires
        ran(c, es).stage is Done,
    ensures
        ran(c, es + more) == ran(c, es),
    decreases more.len(),
{
    if more.len() == 0 {
        assert(es + more =~= es);
    } else {
        law_done_stands(c, es, more.drop_last());
        assert((es + more).drop_last() =~= es + more.drop_last());
        assert((es + more).last() == more.last());
    }
}

/// How far a job has come: the list file, then each pass, then FFmpeg itself.
pub open spec fn rank(m: Run) -> int {
    match m.stage {
        Stage::Listing => 0,
        Stage::Pass(i) => 1 + i,
        Stage::Starting => 1 + m.passes as int,
        Stage::Listening => 2 + m.passes as int,
        Stage::Stopping => 3 + m.passes as int,
        Stage::Draining => 4 + m.passes as int,
        Stage::Waiting => 5 + m.passes as int,
        Stage::Done => 6 + m.passes as int,
    }
}

/// A job never goes back, and until FFmpeg listens to it, it leaves out
/// neither the list file nor a pass: it goes on by one stage or is done.
pub proof fn law_stages_in_order(c: Command, es: Seq<RunEvent>, e: RunEvent)
    requires
        c.pre.len() <= usize::MAX,
    ensures
        rank(stepped(ran(c, es), e)) >= rank(ran(c, es)),
        rank(ran(c, es)) <= 1 + ran(c, es).passes ==> rank(stepped(ran(c, es), e)) <= rank(
            ran(c, es),
        ) + 1 || stepped(ran(c, es), e).stage is Done || (ran(c, es).stage is Listing && ran(
            c,
            es,
        ).passes == 0),
{
    lemma_passes(c, es);
}

proof fn lemma_passes(c: Command, es: Seq<RunEvent>)
    requires
        c.pre.len() <= usize::MAX,
    ensures
        ran(c, es).passes == c.pre.len(),
        ran(c, es).stage matches Stage::Pass(i) ==> i < c.pre.len(),
    decreases es.len(),
{
    if es.len() > 0 {
        lemma_passes(c, es.drop_last());
    }
}

/// The lines of error output that reached a job.
pub open spec fn log_of(c: Command, es: Seq<RunEvent>) -> Seq<Seq<char>>
    decreases es.len(),
{
    if es.len() == 0 {
        Seq::empty()
    } else {
        let before = log_of(c, es.drop_last());
        let stage = ran(c, es.drop_last()).stage;
        match es.last() {
            RunEvent::Log { line } => if stage is Listening || stage is Draining {
                before.push(line@)
            } else {
                before
            },
            _ => before,
        }
    }
}

/// Whether FFmpeg was started for a job.
pub open spec fn started(m: Run) -> bool {
    ||| m.stage is Listening
    ||| m.stage is Stopping
    ||| m.stage is Draining
    ||| m.stage is Waiting
    ||| m.success
    ||| m.cancelled
}

/// Once FFmpeg runs, what a job keeps of its error output is the last lines
/// that came, up to the limit, and so is what its result reports.
pub proof fn law_log_is_the_tail(c: Command, es: Seq<RunEvent>)
    ensures
        started(ran(c, es)) ==> ran(c, es).kept == tail_of(
            log_of(c, es),
            MAX_STDERR_LINES as nat,
        ),
{
    lemma_log(c, es);
    law_backlog_is_the_tail(log_of(c, es), MAX_STDERR_LINES as nat);
}

proof fn lemma_log(c: Command, es: Seq<RunEvent>)
    ensures
        ran(c, es).cancelled ==> !(ran(c, es).stage is Listing) && !(ran(c, es).stage is Pass)
            && !(ran(c, es).stage is Starting),
        started(ran(c, es)) ==> ran(c, es).kept == pushed_all(
            Seq::empty(),
            log_of(c, es),
            MAX_STDERR_LINES as nat,
        ),
        !(ran(c, es).stage is Done) && !started(ran(c, es)) ==> ran(c, es).kept == Seq::<
            Seq<char>,
        >::empty() && log_of(c, es) == Seq::<Seq<char>>::empty(),
    decreases es.len(),
{
    law_cancelled_is_no_success(c, es);
    if es.len() > 0 {
        lemma_log(c, es.drop_last());
        law_cancelled_is_no_success(c, es.drop_last());
        let before = log_of(c, es.drop_last());
        match es.last() {
            RunEvent::Log { line } => {
                assert(before.push(line@).drop_last() =~= before);
            },
            _ => {},
        }
    }
}

/// A job heeds a request to cancel while FFmpeg runs: it is stopped, and ends as
/// cancelled however FFmpeg exits.
pub proof fn law_cancelling_is_heeded(m: Run, e: RunEvent)
    requires
        m.stage is Listening,
    ensures
        stepped(m, RunEvent::Cancel).cancelled,
        stepped(m, RunEvent::Cancel).stage is Stopping,
        m.cancelled ==> stepped(m, e).cancelled,
        !(e is Cancel) ==> stepped(m, e).cancelled == m.cancelled,
{
}

/// A job ends as FFmpeg exits: it succeeded when FFmpeg did and nobody
/// cancelled, and its code is FFmpeg's.
pub proof fn law_jobs_end_as_ffmpeg_exits(m: Run, success: bool, code: Option<i32>)
    requires
        m.stage is Waiting,
    ensures
        ({
            let after = stepped(m, RunEvent::Ended { success, code });
            &&& after.stage is Done
            &&& after.success <==> success && !m.cancelled
            &&& after.code == code
            &&& after.kept == m.kept
        }),
{
}

/// A job fails at once when something before FFmpeg itself fails: the list file,
/// a pass, or starting. It tells what was said, and FFmpeg is never started.
pub proof fn law_early_failures_end_the_job(
    m: Run,
    error: String,
    code: Option<i32>,
    stderr: Vec<u8>,
    missing: bool,
)
    ensures
        m.stage is Listing ==> stepped(m, RunEvent::ListFailed { error }).stage is Done,
        m.stage is Pass ==> ({
            let after = stepped(m, RunEvent::PassEnded { success: false, code, stderr });
            after.stage is Done && after.code == code && after.success == m.success
        }),
        m.stage is Pass ==> stepped(m, RunEvent::PassFailed { error }).stage is Done,
        m.stage is Starting ==> ({
            let after = stepped(m, RunEvent::StartFailed { missing, error });
            after.stage is Done && after.kept.len() == 1 && has(
                after.kept[0],
                if missing {
                    m.program
                } else {
                    error@
                },
            )
        }),
{
    if m.stage is Starting {
        let after = stepped(m, RunEvent::StartFailed { missing, error });
        if missing {
            lemma_has_end("ffmpeg binary not found: "@, m.program);
        } else {
            lemma_has_end("failed to start ffmpeg: "@, error@);
        }
    }
}

proof fn lemma_has_end(a: Seq<char>, b: Seq<char>)
    ensures
        has(a + b, b),
{
    let s = a + b;
    assert(s.subrange(a.len() as int, (a.len() + b.len()) as int) =~= b);
    assert(occurs_at(s, b, a.len() as int));
}

/// The words of a list file's lines: `file` and the path, for each input.
pub open spec fn named_files(inputs: Seq<Seq<char>>, cwd: Seq<char>) -> Seq<Seq<char>> {
    Seq::new(
        2 * inputs.len(),
        |j: int|
            if j % 2 == 0 {
                "file"@
            } else if inputs[j / 2].len() > 0 && inputs[j / 2][0] == '/' {
                inputs[j / 2]
            } else {
                cwd + seq!['/'] + inputs[j / 2]
            },
    )
}

/// A list file names every input, in order and nothing else, by its absolute
/// path: that is what FFmpeg reads, whatever characters the paths hold.
pub proof fn law_list_files_name_every_input(list: ListFile, cwd: Seq<char>)
    requires
        cwd.len() > 0,
        cwd.last() != '/',
    ensures
        shell_words(list_text(list, cwd)) == Some(
            seq!["ffconcat"@, "version"@, "1.0"@] + named_files(list.inputs, cwd),
        ),
{
    reveal_strlit("ffconcat version 1.0\n");
    reveal_strlit("ffconcat");
    reveal_strlit("version");
    reveal_strlit("1.0");
    let body = entries(list.inputs, cwd);
    lemma_entries(list.inputs, cwd, Seq::empty());
    assert(body + Seq::<char>::empty() =~= body);
    assert(shell_read(Seq::<char>::empty(), None, false) == Some(Seq::<Seq<char>>::empty()));
    let files = named_files(list.inputs, cwd);
    assert(files + Seq::<Seq<char>>::empty() =~= files);
    let c = "1.0"@ + (seq!['\n'] + body);
    let b = "version"@ + (seq![' '] + c);
    let a = "ffconcat"@ + (seq![' '] + b);
    assert(list_text(list, cwd) =~= a);
    lemma_word("1.0"@, seq!['\n'] + body);
    lemma_word("version"@, seq![' '] + c);
    lemma_word("ffconcat"@, seq![' '] + b);
    assert((seq!['\n'] + body).skip(1) =~= body);
    assert((seq![' '] + c).skip(1) =~= c);
    assert((seq![' '] + b).skip(1) =~= b);
    assert(seq!["ffconcat"@] + (seq!["version"@] + (seq!["1.0"@] + files)) =~= seq![
        "ffconcat"@,
        "version"@,
        "1.0"@,
    ] + files);
}

/// A safe word reads as itself.
proof fn lemma_word(w: Seq<char>, rest: Seq<char>)
    requires
        w.len() > 0,
        all_safe(w),
    ensures
        shell_read(w + rest, None, false) == shell_read(rest, Some(w), false),
{
    assert(shell_safe(w[0]));
    let t = w.skip(1);
    assert(all_safe(t)) by {
        assert forall|i: int| 0 <= i < t.len() implies shell_safe(#[trigger] t[i]) by {
            assert(t[i] == w[i + 1]);
        }
    }
    assert((w + rest)[0] == w[0]);
    assert((w + rest).skip(1) =~= t + rest);
    lemma_read_safe(t, rest, Seq::<char>::empty().push(w[0]));
    assert(Seq::<char>::empty().push(w[0]) + t =~= w);
}

/// A line reads as its two words, before what follows it.
proof fn lemma_entry_before(path: Seq<char>, rest: Seq<char>)
    ensures
        shell_read(entry(path) + rest, None, false) == (match shell_read(rest, None, false) {
            Some(more) => Some(seq!["file"@, path] + more),
            None => None,
        }),
{
    reveal_strlit("file '");
    reveal_strlit("file");
    reveal_strlit("'");
    reveal_strlit("'\\''");
    reveal_strlit("'\n");
    assert("'"@ =~= seq!['\'']);
    assert("'\\''"@ =~= seq!['\'', '\\', '\'', '\'']);
    let end = seq!['\n'] + rest;
    let inner = replaced(path, seq!['\''], seq!['\'', '\\', '\'', '\'']) + (seq!['\''] + end);
    let quoted_path = seq!['\''] + inner;
    let after = seq![' '] + quoted_path;
    assert(entry(path) + rest =~= "file"@ + after);
    lemma_word("file"@, after);
    assert(after.skip(1) =~= quoted_path);
    assert(quoted_path.skip(1) =~= inner);
    lemma_read_quoted(path, end, Seq::empty());
    assert(Seq::<char>::empty() + path =~= path);
    assert(end.skip(1) =~= rest);
    assert(shell_read(quoted_path, None, false) == shell_read(end, Some(path), false));
    match shell_read(rest, None, false) {
        Some(more) => {
            assert(seq!["file"@] + (seq![path] + more) =~= seq!["file"@, path] + more);
        },
        None => {},
    }
}

proof fn lemma_entries(inputs: Seq<Seq<char>>, cwd: Seq<char>, rest: Seq<char>)
    requires
        cwd.len() > 0,
        cwd.last() != '/',
    ensures
        shell_read(entries(inputs, cwd) + rest, None, false) == (match shell_read(rest, None, false) {
            Some(more) => Some(named_files(inputs, cwd) + more),
            None => None,
        }),
    decreases inputs.len(),
{
    if inputs.len() == 0 {
        assert(entries(inputs, cwd) + rest =~= rest);
        match shell_read(rest, None, false) {
            Some(more) => {
                assert(named_files(inputs, cwd) + more =~= more);
            },
            None => {},
        }
    } else {
        let front = inputs.drop_last();
        let path = absolute(inputs.last(), cwd);
        let line = entry(path);
        assert(entries(inputs, cwd) + rest =~= entries(front, cwd) + (line + rest));
        lemma_entries(front, cwd, line + rest);
        lemma_entry_before(path, rest);
        let files = named_files(inputs, cwd);
        assert(files =~= named_files(front, cwd) + seq!["file"@, path]);
        match shell_read(rest, None, false) {
            Some(more) => {
                assert(named_files(front, cwd) + (seq!["file"@, path] + more) =~= files + more);
            },
            None => {},
        }
    }
}

} // verus!
