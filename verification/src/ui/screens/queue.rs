//! The queue screen.

use vstd::prelude::*;
use crate::ffmpeg::probe::{hundredths, show_hundredths};
use crate::key::{KeyCode, KeyEvent};
use crate::number::{dec, show_usize};
use crate::queue::job::{status_line, Job, JobStatus};
use crate::queue::QueueState;
use crate::text::{copy_text, join2, join3, join_all, joined, opt_text, texts};
use crate::ui::line::{add_line, add_piece, add_whole, line_of, lines_of, no_lines, Piece, Tone};
use crate::ui::screens::popups::{step_down, stepped_down};

verus! {

/// What a key press means.
#[derive(Debug, Clone, Copy, PartialEq, Eq, Structural)]
pub enum QueueAction {
    /// Nothing.
    Nothing,
    /// Leave the queue.
    Back,
    /// Start the batch, overwriting what exists.
    StartArmed,
    /// Remove the selected job, if it waits.
    RemoveSelected,
    /// Drop the jobs that are over.
    ClearFinished,
}

/// What a key press means on the queue screen.
pub open spec fn queue_means(code: KeyCode) -> QueueAction {
    match code {
        KeyCode::Esc => QueueAction::Back,
        KeyCode::Char('x') => QueueAction::RemoveSelected,
        KeyCode::Char('c') => QueueAction::ClearFinished,
        KeyCode::Char('y') => QueueAction::StartArmed,
        KeyCode::Char('Y') => QueueAction::StartArmed,
        _ => QueueAction::Nothing,
    }
}

/// The selected job after a key press.
pub open spec fn queue_moved(selected: int, code: KeyCode, n: int) -> int {
    match code {
        KeyCode::Up => if selected > 0 {
            selected - 1
        } else {
            0
        },
        KeyCode::Char('k') => if selected > 0 {
            selected - 1
        } else {
            0
        },
        KeyCode::Down => stepped_down(selected, n),
        KeyCode::Char('j') => stepped_down(selected, n),
        _ => selected,
    }
}

/// Takes in a key press.
pub fn on_key(queue: &mut QueueState, key: KeyEvent) -> (r: QueueAction)
    ensures
        r == queue_means(key.code),
        final(queue).selected == queue_moved(
            old(queue).selected as int,
            key.code,
            old(queue).jobs@.len() as int,
        ),
        *final(queue) == (QueueState { selected: final(queue).selected, ..*old(queue) }),
{
    match key.code {
        KeyCode::Esc => QueueAction::Back,
        KeyCode::Up | KeyCode::Char('k') => {
            if queue.selected > 0 {
                queue.selected = queue.selected - 1;
            }
            QueueAction::Nothing
        },
        KeyCode::Down | KeyCode::Char('j') => {
            queue.selected = step_down(queue.selected, queue.jobs.len());
            QueueAction::Nothing
        },
        KeyCode::Char('x') => QueueAction::RemoveSelected,
        KeyCode::Char('c') => QueueAction::ClearFinished,
        KeyCode::Char('y') | KeyCode::Char('Y') => QueueAction::StartArmed,
        _ => QueueAction::Nothing,
    }
}

/// The sign and the colour of a job.
pub open spec fn job_mark(status: JobStatus) -> (Seq<char>, Tone) {
    match status {
        JobStatus::Pending => ("○ "@, Tone::Muted),
        JobStatus::Running => ("● "@, Tone::Title),
        JobStatus::Done => ("✓ "@, Tone::Command),
        JobStatus::Failed(_) => ("✗ "@, Tone::Warning),
        JobStatus::Cancelled => ("■ "@, Tone::Muted),
    }
}

/// The line of a job.
pub open spec fn job_line(j: Job, selected: bool) -> Seq<(Tone, Seq<char>)> {
    let (mark, tone) = job_mark(j.status);
    let line = seq![
        (
            Tone::Plain,
            if selected {
                "▸ "@
            } else {
                "  "@
            },
        ),
        (tone, mark),
        (tone, j.op_name@ + ": "@),
        (Tone::Plain, j.input@ + " → "@ + j.output@),
        (Tone::Plain, "  "@),
        (tone, status_line(j.status, j.ratio)),
    ];
    if j.status is Running && j.speed is Some {
        line.push((Tone::Muted, " · "@ + hundredths(j.speed->0 as nat) + "x"@))
    } else {
        line
    }
}

/// The lines of the first jobs.
pub open spec fn job_lines(v: Seq<Job>, selected: int, n: int) -> Seq<Seq<(Tone, Seq<char>)>>
    decreases n,
{
    if n <= 0 {
        Seq::empty()
    } else {
        job_lines(v, selected, n - 1).push(job_line(v[n - 1], n - 1 == selected))
    }
}

/// What is said when there are no jobs.
pub const NO_JOBS: &'static str = "Empty. Select several files with Space in the browser, tune once, and run — one job per file lands here.";

/// What is said of outputs that exist, and how to go on.
pub open spec fn conflict_lines(v: Seq<Seq<char>>) -> Seq<Seq<(Tone, Seq<char>)>> {
    if v.len() == 0 {
        Seq::empty()
    } else {
        let few = if v.len() > 3 {
            v.take(3)
        } else {
            v
        };
        seq![
            seq![(Tone::Plain, ""@)],
            seq![
                (
                    Tone::Warning,
                    dec(v.len()) + " output(s) already exist: "@ + joined(few, ", "@),
                ),
            ],
            seq![(Tone::Footer, "y runs the batch and overwrites · Esc goes back"@)],
        ]
    }
}

/// What came of the run, or else what the application says.
pub open spec fn closing_lines(summary: Option<Seq<char>>, status: Option<Seq<char>>) -> Seq<
    Seq<(Tone, Seq<char>)>,
> {
    match summary {
        Some(s) => seq![seq![(Tone::Plain, ""@)], seq![(Tone::Title, s)]],
        None => match status {
            Some(s) => seq![seq![(Tone::Plain, ""@)], seq![(Tone::Footer, s)]],
            None => Seq::empty(),
        },
    }
}

/// The queue screen.
pub open spec fn queue_text(q: QueueState, status: Option<Seq<char>>) -> Seq<
    Seq<(Tone, Seq<char>)>,
> {
    let head = if q.jobs@.len() == 0 {
        seq![seq![(Tone::Muted, NO_JOBS@)]]
    } else {
        job_lines(q.jobs@, q.selected as int, q.jobs@.len() as int)
    };
    head + conflict_lines(texts(q.overwrite_conflicts@)) + closing_lines(
        opt_text(q.summary),
        status,
    )
}

/// Writes the line of a job.
fn write_job(job: &Job, selected: bool) -> (r: Vec<Piece>)
    requires
        job.wf(),
    ensures
        line_of(r@) == job_line(*job, selected),
{
    let (mark, tone) = match &job.status {
        JobStatus::Pending => ("○ ", Tone::Muted),
        JobStatus::Running => ("● ", Tone::Title),
        JobStatus::Done => ("✓ ", Tone::Command),
        JobStatus::Failed(_) => ("✗ ", Tone::Warning),
        JobStatus::Cancelled => ("■ ", Tone::Muted),
    };
    let mut l: Vec<Piece> = Vec::new();
    assert(line_of(l@) =~= Seq::<(Tone, Seq<char>)>::empty());
    let cursor = if selected {
        "▸ "
    } else {
        "  "
    };
    add_piece(&mut l, Tone::Plain, cursor);
    add_piece(&mut l, tone, mark);
    add_piece(&mut l, tone, join2(job.op_name.as_str(), ": ").as_str());
    add_piece(
        &mut l,
        Tone::Plain,
        join3(job.input.as_str(), " → ", job.output.as_str()).as_str(),
    );
    add_piece(&mut l, Tone::Plain, "  ");
    add_piece(&mut l, tone, job.status_text().as_str());
    if matches!(&job.status, JobStatus::Running) {
        if let Some(speed) = job.speed {
            let text = join3(" · ", show_hundredths(speed as u128).as_str(), "x");
            add_piece(&mut l, Tone::Muted, text.as_str());
        }
    }
    assert(line_of(l@) =~= job_line(*job, selected));
    l
}

/// Names the outputs that exist.
fn name_conflicts(v: &Vec<String>) -> (r: String)
    requires
        v@.len() > 0,
    ensures
        r@ == dec(v@.len()) + " output(s) already exist: "@ + joined(
            if v@.len() > 3 {
                texts(v@).take(3)
            } else {
                texts(v@)
            },
            ", "@,
        ),
{
    let ghost all = texts(v@);
    let mut few: Vec<String> = Vec::new();
    let mut i: usize = 0;
    while i < v.len() && i < 3
        invariant
            i <= v@.len(),
            i <= 3,
            all == texts(v@),
            texts(few@) =~= all.take(i as int),
        decreases v@.len() - i,
    {
        let ghost before = texts(few@);
        let s = copy_text(v[i].as_str());
        let ghost t = s@;
        few.push(s);
        assert(texts(few@) =~= before.push(t));
        i = i + 1;
    }
    assert(texts(few@) =~= if v@.len() > 3 {
        all.take(3)
    } else {
        all
    });
    let names = join_all(&few, ", ");
    join3(show_usize(v.len()).as_str(), " output(s) already exist: ", names.as_str())
}

/// Writes the queue screen.
pub fn body_lines(queue: &QueueState, status: Option<&String>) -> (r: Vec<Vec<Piece>>)
    requires
        queue.wf(),
    ensures
        lines_of(r@) == queue_text(
            *queue,
            match status {
                Some(s) => Some(s@),
                None => None,
            },
        ),
{
    let mut out = no_lines();
    let ghost v = queue.jobs@;
    if queue.jobs.len() == 0 {
        add_line(&mut out, Tone::Muted, NO_JOBS);
        assert(lines_of(out@) =~= seq![seq![(Tone::Muted, NO_JOBS@)]]);
    }
    let ghost start = lines_of(out@);
    let mut i: usize = 0;
    while i < queue.jobs.len()
        invariant
            queue.wf(),
            v == queue.jobs@,
            i <= v.len(),
            v.len() == 0 ==> lines_of(out@) == start,
            v.len() > 0 ==> lines_of(out@) == job_lines(v, queue.selected as int, i as int),
        decreases v.len() - i,
    {
        add_whole(&mut out, write_job(&queue.jobs[i], i == queue.selected));
        i = i + 1;
    }
    let ghost head = lines_of(out@);
    if queue.overwrite_conflicts.len() > 0 {
        add_line(&mut out, Tone::Plain, "");
        add_line(&mut out, Tone::Warning, name_conflicts(&queue.overwrite_conflicts).as_str());
        add_line(&mut out, Tone::Footer, "y runs the batch and overwrites · Esc goes back");
    }
    let ghost conflicts = conflict_lines(texts(queue.overwrite_conflicts@));
    assert(lines_of(out@) =~= head + conflicts);
    match &queue.summary {
        Some(s) => {
            add_line(&mut out, Tone::Plain, "");
            add_line(&mut out, Tone::Title, s.as_str());
        },
        None => {
            if let Some(s) = status {
                add_line(&mut out, Tone::Plain, "");
                add_line(&mut out, Tone::Footer, s.as_str());
            }
        },
    }
    assert(lines_of(out@) =~= head + conflicts + closing_lines(
        opt_text(queue.summary),
        match status {
            Some(s) => Some(s@),
            None => None,
        },
    ));
    out
}

/// Every job has its line, in order: what it reads and writes, and how it
/// stands. Only the selected one is pointed at.
pub proof fn law_every_job_has_its_line(v: Seq<Job>, selected: int, i: int)
    requires
        0 <= i < v.len(),
    ensures
        ({
            let lines = job_lines(v, selected, v.len() as int);
            &&& lines.len() == v.len()
            &&& lines[i][0].1 == (if i == selected {
                "▸ "@
            } else {
                "  "@
            })
            &&& lines[i][2].1 == v[i].op_name@ + ": "@
            &&& lines[i][3].1 == v[i].input@ + " → "@ + v[i].output@
            &&& lines[i][5].1 == status_line(v[i].status, v[i].ratio)
        }),
{
    lemma_lines(v, selected, v.len() as int, i);
}

proof fn lemma_lines(v: Seq<Job>, selected: int, n: int, i: int)
    requires
        0 <= i < n,
    ensures
        job_lines(v, selected, n).len() == n,
        job_lines(v, selected, n)[i] == job_line(v[i], i == selected),
    decreases n,
{
    if n > 1 {
        lemma_lines(
            v,
            selected,
            n - 1,
            if i < n - 1 {
                i
            } else {
                0
            },
        );
    } else {
        assert(job_lines(v, selected, 0).len() == 0);
    }
}

} // verus!
