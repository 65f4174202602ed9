//! One queued job.

use vstd::prelude::*;
use crate::date::{date_of, date_text, day_number, exists_date, show_date, Date};
use crate::ffmpeg::builder::{displayed, output_name, CommandSpec};
use crate::ffmpeg::progress::{percent, progress_ratio, ratio_of, ProgressUpdate, Ratio};
use crate::ffmpeg::runner::JobResult;
use crate::number::{
    dec, dec_int, law_nearest_is_nearest, law_numbers_read_back, nearest, read_nat, show, show_int,
    show_usize,
};
use crate::path::{
    file_stem, get_file_stem, get_parent, lemma_parts, lemma_tidy, parent, tidy,
};
use crate::text::{
    begins, begins_with, chars_of, copy_text, is_digit, join2, join3, lemma_rfind_bounds,
    replace_all, replaced, rfind, slice_text, texts, trim, trimmed,
};
use crate::time::Duration;

verus! {

/// Where a job stands.
#[derive(Debug, Clone, PartialEq, Eq)]
pub enum JobStatus {
    /// Waiting for its turn.
    Pending,
    /// Running.
    Running,
    /// Succeeded.
    Done,
    /// Failed, with a short reason.
    Failed(String),
    /// Cancelled by the user.
    Cancelled,
}

/// What a job is made of.
#[derive(Debug)]
pub struct NewJob {
    /// Id shared with the runner.
    pub id: u64,
    /// Operation id.
    pub op_id: String,
    /// Operation name.
    pub op_name: String,
    /// Input file.
    pub input: String,
    /// Output file.
    pub output: String,
    /// The command.
    pub spec: CommandSpec,
    /// Length of the input, when known.
    pub total_duration: Option<Duration>,
    /// Size of the input, when known.
    pub input_size: Option<u64>,
}

/// A queued job.
#[derive(Debug)]
pub struct Job {
    /// Id shared with the runner.
    pub id: u64,
    /// Operation id.
    pub op_id: String,
    /// Operation name.
    pub op_name: String,
    /// Input file.
    pub input: String,
    /// Output file.
    pub output: String,
    /// The command as shown.
    pub display_command: String,
    /// The command.
    pub spec: CommandSpec,
    /// Length of the input, when known.
    pub total_duration: Option<Duration>,
    /// Size of the input, when known.
    pub input_size: Option<u64>,
    /// Where the job stands.
    pub status: JobStatus,
    /// How far the job has come, when known.
    pub ratio: Option<Ratio>,
    /// Media time reached.
    pub out_time: Option<Duration>,
    /// Speed in millionths of real time.
    pub speed: Option<u64>,
    /// How the job ended.
    pub result: Option<JobResult>,
}

/// A percentage in three places.
pub open spec fn percent_text(n: nat) -> Seq<char> {
    let t = dec(n);
    if n < 10 {
        "  "@ + t + "%"@
    } else if n < 100 {
        " "@ + t + "%"@
    } else {
        t + "%"@
    }
}

/// Writes a percentage in three places.
pub fn show_percent(n: u32) -> (r: String)
    ensures
        r@ == percent_text(n as nat),
{
    let t = show(n as u128);
    if n < 10 {
        join3("  ", t.as_str(), "%")
    } else if n < 100 {
        join3(" ", t.as_str(), "%")
    } else {
        join2(t.as_str(), "%")
    }
}

/// One line on where a job stands.
pub open spec fn status_line(status: JobStatus, ratio: Option<Ratio>) -> Seq<char> {
    match status {
        JobStatus::Pending => "pending"@,
        JobStatus::Running => match ratio {
            Some(q) => "running "@ + percent_text(percent(q)),
            None => "running…"@,
        },
        JobStatus::Done => "done ✓"@,
        JobStatus::Failed(reason) => "failed: "@ + reason@,
        JobStatus::Cancelled => "cancelled"@,
    }
}

/// Why a job failed: its last line of error output, or else the exit code.
pub open spec fn reason(stderr: Seq<Seq<char>>, code: Option<i32>) -> Seq<char> {
    if stderr.len() > 0 && trimmed(stderr.last()).len() > 0 {
        stderr.last()
    } else {
        match code {
            Some(c) => "exit code "@ + dec_int(c as int),
            None => "unknown failure"@,
        }
    }
}

/// The first hundred characters of a text, marked when there are more.
pub open spec fn shortened(s: Seq<char>) -> Seq<char> {
    if s.len() > 100 {
        s.take(100).push('…')
    } else {
        s
    }
}

/// Whether a status is that of a job with the given result.
pub open spec fn settles(status: JobStatus, result: JobResult) -> bool {
    if result.success {
        status is Done
    } else if result.cancelled {
        status is Cancelled
    } else {
        status matches JobStatus::Failed(s) && s@ == shortened(
            reason(texts(result.stderr@), result.exit_code),
        )
    }
}

/// Shortens a text to a hundred characters.
fn shorten(s: &str) -> (r: String)
    ensures
        r@ == shortened(s@),
{
    let x = chars_of(s);
    if x.len() > 100 {
        let mut out = slice_text(&x, 0, 100);
        assert(out@ =~= s@.take(100));
        out.push('…');
        out
    } else {
        copy_text(s)
    }
}

/// Says why a job failed.
fn failure_reason(result: &JobResult) -> (r: String)
    ensures
        r@ == reason(texts(result.stderr@), result.exit_code),
{
    let n: usize = result.stderr.len();
    if n > 0 {
        let last = result.stderr[n - 1].as_str();
        assert(texts(result.stderr@).last() == last@);
        if !trim(last).as_str().is_empty() {
            return copy_text(last);
        }
    }
    match result.exit_code {
        Some(c) => join2("exit code ", show_int(c as i64).as_str()),
        None => copy_text("unknown failure"),
    }
}

impl Job {
    /// The ratio that a job shows is a fraction.
    pub open spec fn wf(&self) -> bool {
        self.ratio matches Some(q) ==> q.wf()
    }

    /// A job that waits for its turn.
    pub fn pending(new: NewJob) -> (r: Self)
        ensures
            r.id == new.id,
            r.op_id == new.op_id,
            r.op_name == new.op_name,
            r.input == new.input,
            r.output == new.output,
            r.display_command@ == displayed(new.spec@),
            r.spec == new.spec,
            r.total_duration == new.total_duration,
            r.input_size == new.input_size,
            r.status == JobStatus::Pending,
            r.ratio is None,
            r.out_time is None,
            r.speed is None,
            r.result is None,
    {
        Job {
            display_command: new.spec.to_display(),
            status: JobStatus::Pending,
            ratio: None,
            out_time: None,
            speed: None,
            result: None,
            id: new.id,
            op_id: new.op_id,
            op_name: new.op_name,
            input: new.input,
            output: new.output,
            spec: new.spec,
            total_duration: new.total_duration,
            input_size: new.input_size,
        }
    }

    /// One line on where the job stands.
    pub fn status_text(&self) -> (r: String)
        requires
            self.wf(),
        ensures
            r@ == status_line(self.status, self.ratio),
    {
        match &self.status {
            JobStatus::Pending => copy_text("pending"),
            JobStatus::Running => match self.ratio {
                Some(q) => join2("running ", show_percent(q.percent()).as_str()),
                None => copy_text("running…"),
            },
            JobStatus::Done => copy_text("done ✓"),
            JobStatus::Failed(reason) => join2("failed: ", reason.as_str()),
            JobStatus::Cancelled => copy_text("cancelled"),
        }
    }

    /// The job after an update: what the update leaves open stays, and the
    /// ratio follows from the time reached and the total.
    pub open spec fn progressed(self, update: ProgressUpdate) -> Job {
        let out_time = if update.out_time is Some {
            update.out_time
        } else {
            self.out_time
        };
        Job {
            out_time,
            speed: if update.speed is Some {
                update.speed
            } else {
                self.speed
            },
            ratio: match (out_time, self.total_duration) {
                (Some(out), Some(total)) => ratio_of(out, total),
                _ => None,
            },
            ..self
        }
    }

    /// Takes in an update.
    pub fn apply_progress(&mut self, update: &ProgressUpdate)
        ensures
            *final(self) == old(self).progressed(*update),
            final(self).wf(),
    {
        if update.out_time.is_some() {
            self.out_time = update.out_time;
        }
        if update.speed.is_some() {
            self.speed = update.speed;
        }
        self.ratio = match (self.out_time, self.total_duration) {
            (Some(out), Some(total)) => progress_ratio(out, total),
            _ => None,
        };
    }

    /// Takes in the result: a failure keeps a short reason, and the whole
    /// error output stays with the result.
    pub fn settle(&mut self, result: JobResult)
        ensures
            settles(final(self).status, result),
            *final(self) == (Job {
                status: final(self).status,
                result: Some(result),
                ..*old(self)
            }),
    {
        self.status = if result.success {
            JobStatus::Done
        } else if result.cancelled {
            JobStatus::Cancelled
        } else {
            JobStatus::Failed(shorten(failure_reason(&result).as_str()))
        };
        self.result = Some(result);
    }
}

// ---------------------------------------------------------------------------
// Output names
// ---------------------------------------------------------------------------

/// The directory of an input, as a template shows it.
pub open spec fn parent_text(input: Seq<char>) -> Seq<char> {
    match parent(input) {
        Some(p) => if p.len() == 0 {
            "."@
        } else {
            p
        },
        None => "."@,
    }
}

/// The name of an input without its extension, as a template shows it.
pub open spec fn stem_text(input: Seq<char>) -> Seq<char> {
    match file_stem(input) {
        Some(s) => s,
        None => "output"@,
    }
}

/// A path without a leading `./`.
pub open spec fn undotted(p: Seq<char>) -> Seq<char> {
    if begins(p, "./"@) {
        p.skip(2)
    } else {
        p
    }
}

/// A template with its variables filled in, one after the other.
pub open spec fn expanded(
    template: Seq<char>,
    input: Seq<char>,
    index: nat,
    suffix: Seq<char>,
    ext: Seq<char>,
    date: Seq<char>,
) -> Seq<char> {
    let a = replaced(template, "{stem}"@, stem_text(input));
    let b = replaced(a, "{ext}"@, ext);
    let c = replaced(b, "{parent}"@, parent_text(input));
    let d = replaced(c, "{index}"@, dec(index));
    let e = replaced(d, "{date}"@, date);
    undotted(replaced(e, "{suffix}"@, suffix))
}

/// Fills in a naming template. `{stem}` and `{parent}` are the input's name
/// and directory, `{index}` its place in the batch, `{suffix}` and `{ext}` are
/// given, and so is the `{date}`.
pub fn expand_template(
    template: &str,
    input: &str,
    index: usize,
    suffix: &str,
    ext: &str,
    date: &str,
) -> (r: String)
    ensures
        r@ == expanded(template@, input@, index as nat, suffix@, ext@, date@),
{
    proof {
        reveal_strlit("{stem}");
        reveal_strlit("{ext}");
        reveal_strlit("{parent}");
        reveal_strlit("{index}");
        reveal_strlit("{date}");
        reveal_strlit("{suffix}");
        reveal_strlit("./");
    }
    let stem = match get_file_stem(input) {
        Some(s) => s,
        None => copy_text("output"),
    };
    let dir = match get_parent(input) {
        Some(p) => if p.as_str().is_empty() {
            copy_text(".")
        } else {
            p
        },
        None => copy_text("."),
    };
    let a = replace_all(template, "{stem}", stem.as_str());
    let b = replace_all(a.as_str(), "{ext}", ext);
    let c = replace_all(b.as_str(), "{parent}", dir.as_str());
    let d = replace_all(c.as_str(), "{index}", show_usize(index).as_str());
    let e = replace_all(d.as_str(), "{date}", date);
    let f = replace_all(e.as_str(), "{suffix}", suffix);
    if begins_with(f.as_str(), "./") {
        let x = chars_of(f.as_str());
        let out = slice_text(&x, 2, x.len());
        assert(out@ =~= f@.skip(2));
        out
    } else {
        f
    }
}

/// Whether a text holds no opening brace.
pub open spec fn braceless(s: Seq<char>) -> bool {
    !s.contains('{')
}

/// Whether a text is a variable: braces around a text without any.
spec fn variable(s: Seq<char>) -> bool {
    &&& s.len() >= 2
    &&& s[0] == '{'
    &&& s[s.len() - 1] == '}'
    &&& forall|i: int| 0 < i < s.len() - 1 ==> #[trigger] s[i] != '{' && s[i] != '}'
}

proof fn lemma_variable_has_brace(s: Seq<char>)
    requires
        variable(s),
    ensures
        s.contains('{'),
{
    assert(s[0] == '{');
}

/// Parts of a template, put together.
pub open spec fn together(v: Seq<Seq<char>>) -> Seq<char>
    decreases v.len(),
{
    if v.len() == 0 {
        Seq::empty()
    } else {
        v[0] + together(v.skip(1))
    }
}

/// Parts of a template with one variable filled in.
spec fn filled_in(v: Seq<Seq<char>>, name: Seq<char>, with: Seq<char>) -> Seq<Seq<char>> {
    v.map_values(
        |p: Seq<char>|
            if p == name {
                with
            } else {
                p
            },
    )
}

/// What a replacement does not find stays before what it makes of the rest.
proof fn lemma_passes_over(p: Seq<char>, rest: Seq<char>, name: Seq<char>, with: Seq<char>)
    requires
        name.len() > 0,
        forall|i: int| 0 <= i < p.len() ==> !begins(#[trigger] (p + rest).skip(i), name),
    ensures
        replaced(p + rest, name, with) == p + replaced(rest, name, with),
    decreases p.len(),
{
    if p.len() == 0 {
        assert(p + rest =~= rest);
        assert(p + replaced(rest, name, with) =~= replaced(rest, name, with));
    } else {
        let all = p + rest;
        assert(all.skip(0) =~= all);
        assert(!begins(all.skip(0), name));
        let q = p.skip(1);
        assert(all.skip(1) =~= q + rest);
        assert forall|i: int| 0 <= i < q.len() implies !begins(#[trigger] (q + rest).skip(i), name) by {
            assert((q + rest).skip(i) =~= all.skip(i + 1));
            assert(!begins(all.skip(i + 1), name));
        }
        lemma_passes_over(q, rest, name, with);
        assert(seq![all[0]] + (q + replaced(rest, name, with)) =~= p + replaced(rest, name, with));
    }
}

/// A variable is found where it stands, and nowhere else.
proof fn lemma_filled_in(v: Seq<Seq<char>>, name: Seq<char>, with: Seq<char>)
    requires
        variable(name),
        forall|i: int| 0 <= i < v.len() ==> variable(#[trigger] v[i]) || braceless(v[i]),
    ensures
        replaced(together(v), name, with) == together(filled_in(v, name, with)),
    decreases v.len(),
{
    if v.len() > 0 {
        let p = v[0];
        let more = v.skip(1);
        let rest = together(more);
        let all = p + rest;
        assert forall|i: int| 0 <= i < more.len() implies variable(#[trigger] more[i]) || braceless(
            more[i],
        ) by {
            assert(more[i] == v[i + 1]);
        }
        lemma_filled_in(more, name, with);
        assert(filled_in(v, name, with).skip(1) =~= filled_in(more, name, with));
        if p == name {
            assert(all.take(name.len() as int) =~= name);
            assert(all.skip(name.len() as int) =~= rest);
        } else {
            assert forall|i: int| 0 <= i < p.len() implies !begins(
                #[trigger] all.skip(i),
                name,
            ) by {
                let t = all.skip(i);
                assert(t[0] == p[i]);
                if begins(t, name) {
                    assert(t.take(name.len() as int)[0] == name[0]);
                    assert(p.contains('{'));
                    assert(i == 0);
                    assert(t =~= all);
                    let a = name.len() as int;
                    let b = p.len() as int;
                    if a <= b {
                        assert(t.take(a)[a - 1] == name[a - 1]);
                        assert(p[a - 1] == '}');
                        assert(a == b);
                        assert(p =~= t.take(a));
                    } else {
                        assert(t.take(a)[b - 1] == name[b - 1]);
                        assert(name[b - 1] == '}');
                    }
                }
            }
            lemma_passes_over(p, rest, name, with);
        }
    }
}

/// The default template names outputs as commands do when nobody chose a name:
/// `{stem}_{suffix}.{ext}` beside the input. In the root directory the
/// separator is written twice.
pub proof fn law_default_template_is_default_name(
    input: Seq<char>,
    index: nat,
    suffix: Seq<char>,
    ext: Seq<char>,
    date: Seq<char>,
)
    requires
        file_stem(input) is Some,
        !begins(input, "./"@),
        braceless(input),
        braceless(suffix),
        braceless(ext),
    ensures
        expanded("{parent}/{stem}_{suffix}.{ext}"@, input, index, suffix, ext, date) == (if parent(
            input,
        ) == Some(seq!['/']) {
            seq!['/'] + output_name(input, suffix, ext)
        } else {
            output_name(input, suffix, ext)
        }),
{
    reveal_strlit("{parent}/{stem}_{suffix}.{ext}");
    reveal_strlit("{stem}");
    reveal_strlit("{ext}");
    reveal_strlit("{parent}");
    reveal_strlit("{index}");
    reveal_strlit("{date}");
    reveal_strlit("{suffix}");
    reveal_strlit("./");
    reveal_strlit(".");
    let stem = stem_text(input);
    let dir = parent_text(input);
    lemma_parts(input);
    assert(braceless(stem)) by {
        if stem.contains('{') {
            let i = choose|i: int| 0 <= i < stem.len() && stem[i] == '{';
            assert(input.contains(stem[i]));
        }
    }
    assert(braceless(dir)) by {
        if dir.contains('{') {
            let i = choose|i: int| 0 <= i < dir.len() && dir[i] == '{';
            assert(input[i] == '{');
        }
    }
    let t = "{parent}/{stem}_{suffix}.{ext}"@;
    let v0 = seq![
        "{parent}"@,
        seq!['/'],
        "{stem}"@,
        seq!['_'],
        "{suffix}"@,
        seq!['.'],
        "{ext}"@,
    ];
    lemma_seven(v0);
    assert(t =~= together(v0));
    let v1 = filled_in(v0, "{stem}"@, stem);
    lemma_filled_in(v0, "{stem}"@, stem);
    assert("{parent}"@[1] != "{suffix}"@[1]);
    assert(v1 =~= seq![
        "{parent}"@,
        seq!['/'],
        stem,
        seq!['_'],
        "{suffix}"@,
        seq!['.'],
        "{ext}"@,
    ]);
    let v2 = filled_in(v1, "{ext}"@, ext);
    lemma_filled_in(v1, "{ext}"@, ext);
    lemma_variable_has_brace("{ext}"@);
    assert(v2 =~= seq!["{parent}"@, seq!['/'], stem, seq!['_'], "{suffix}"@, seq!['.'], ext]);
    let v3 = filled_in(v2, "{parent}"@, dir);
    lemma_filled_in(v2, "{parent}"@, dir);
    lemma_variable_has_brace("{parent}"@);
    assert(v3 =~= seq![dir, seq!['/'], stem, seq!['_'], "{suffix}"@, seq!['.'], ext]);
    let v4 = filled_in(v3, "{index}"@, dec(index));
    lemma_filled_in(v3, "{index}"@, dec(index));
    lemma_variable_has_brace("{index}"@);
    assert(v4 =~= v3);
    let v5 = filled_in(v4, "{date}"@, date);
    lemma_filled_in(v4, "{date}"@, date);
    lemma_variable_has_brace("{date}"@);
    assert(v5 =~= v3);
    let v6 = filled_in(v5, "{suffix}"@, suffix);
    lemma_filled_in(v5, "{suffix}"@, suffix);
    lemma_variable_has_brace("{suffix}"@);
    assert(v6 =~= seq![dir, seq!['/'], stem, seq!['_'], suffix, seq!['.'], ext]);
    lemma_seven(v6);
    let name = stem + seq!['_'] + suffix + seq!['.'] + ext;
    let full = together(v6);
    assert(full =~= dir + seq!['/'] + name);
    assert(expanded(t, input, index, suffix, ext, date) == undotted(full));
    let d = parent(input)->0;
    if d.len() == 0 {
        assert(full.take(2) =~= "./"@);
        assert(full.skip(2) =~= name);
    } else {
        if begins(full, "./"@) {
            assert(full.take(2)[0] == '.' && full.take(2)[1] == '/');
            assert(d[0] == '.');
            if d.len() > 1 {
                assert(d[1] == '/');
            }
            assert(input.take(2) =~= "./"@);
        }
        if d.last() == '/' {
            assert(d =~= seq!['/']);
            assert(full =~= seq!['/'] + (d + name));
        }
    }
}

/// Seven parts, written out.
proof fn lemma_seven(v: Seq<Seq<char>>)
    requires
        v.len() == 7,
    ensures
        together(v) == v[0] + v[1] + v[2] + v[3] + v[4] + v[5] + v[6],
{
    reveal_with_fuel(together, 8);
    assert(together(v) =~= v[0] + v[1] + v[2] + v[3] + v[4] + v[5] + v[6]);
}

/// The date of a day, counted from the first of January 1970, as `YYYY-MM-DD`.
pub fn civil_from_days(days: i64) -> (r: String)
    ensures
        exists|d: Date| #[trigger] exists_date(d) && day_number(d) == days && r@ == date_text(d),
{
    let d = date_of(days);
    assert(exists_date(d));
    show_date(d)
}

/// The date, as `YYYY-MM-DD`, of a time in seconds since the first of January
/// 1970.
pub fn today(secs: u64) -> (r: String)
    ensures
        exists|d: Date|
            #[trigger] exists_date(d) && day_number(d) == secs as int / 86400 && r@ == date_text(d),
{
    civil_from_days((secs / 86400) as i64)
}

// ---------------------------------------------------------------------------
// Laws
// ---------------------------------------------------------------------------

/// A job shows how much of its input is done: the time reached over the length
/// of the input, never more than all of it, and nothing while either is
/// unknown. An update that brings no time leaves the one reached before.
pub proof fn law_progress_is_time_over_length(job: Job, update: ProgressUpdate)
    ensures
        ({
            let after = job.progressed(update);
            let reached = if update.out_time is Some {
                update.out_time
            } else {
                job.out_time
            };
            &&& after.out_time == reached
            &&& after.speed == (if update.speed is Some {
                update.speed
            } else {
                job.speed
            })
            &&& after.id == job.id && after.status == job.status && after.total_duration
                == job.total_duration && after.result == job.result
            &&& match (reached, job.total_duration) {
                (Some(o), Some(t)) => if t.nanos == 0 {
                    after.ratio is None
                } else {
                    after.ratio matches Some(q) && q.den > 0 && q.num <= q.den && if o.nanos
                        <= t.nanos {
                        q.num * t.nanos == q.den * o.nanos
                    } else {
                        q.num == q.den
                    }
                },
                _ => after.ratio is None,
            }
        }),
{
    if let (Some(o), Some(t)) = (job.progressed(update).out_time, job.total_duration) {
        assert(o.nanos * t.nanos == t.nanos * o.nanos) by (nonlinear_arith);
    }
}

/// The further a job has come, the more of it is done, and it is done whole
/// only at its end.
pub proof fn law_progress_grows(job: Job, a: ProgressUpdate, b: ProgressUpdate)
    requires
        a.out_time is Some,
        b.out_time is Some,
        job.total_duration is Some,
        a.out_time->0.nanos <= b.out_time->0.nanos,
        job.total_duration->0.nanos > 0,
    ensures
        ({
            let p = job.progressed(a).ratio->0;
            let q = job.progressed(b).ratio->0;
            &&& p.num * q.den <= q.num * p.den
            &&& percent(p) <= percent(q) <= 100
            &&& p.num == p.den <==> a.out_time->0.nanos >= job.total_duration->0.nanos
        }),
{
    let p = job.progressed(a).ratio->0;
    let q = job.progressed(b).ratio->0;
    let t = job.total_duration->0.nanos as int;
    assert(p.den == t && q.den == t && p.num <= q.num);
    assert(p.num * t <= q.num * t) by (nonlinear_arith)
        requires
            p.num <= q.num,
            t > 0,
    ;
    law_nearest_is_nearest(100 * (p.num as nat), t as nat);
    law_nearest_is_nearest(100 * (q.num as nat), t as nat);
    lemma_percent_grows(p.num as nat, q.num as nat, t as nat);
}

proof fn lemma_percent_grows(a: nat, b: nat, t: nat)
    requires
        a <= b <= t,
        t > 0,
    ensures
        nearest(100 * a, t) <= nearest(100 * b, t) <= 100,
{
    let x = nearest(100 * a, t);
    let y = nearest(100 * b, t);
    law_nearest_is_nearest(100 * a, t);
    law_nearest_is_nearest(100 * b, t);
    if x > y {
        assert(x * t >= y * t + t) by (nonlinear_arith)
            requires
                x >= y + 1,
                t > 0,
        ;
        // Only two equally near ones could change places, and both are even.
        assert(2 * (x * t) == 2 * (100 * a) + t);
        assert(2 * (100 * b) == 2 * (y * t) + t);
        assert(x == y + 1) by (nonlinear_arith)
            requires
                x * t == y * t + t,
                t > 0,
        ;
    }
    if y > 100 {
        assert(y * t >= 101 * t) by (nonlinear_arith)
            requires
                y >= 101,
                t > 0,
        ;
    }
}

/// A percentage is off by half of one at most.
pub proof fn law_percent_is_near(q: Ratio)
    requires
        q.wf(),
    ensures
        2 * (percent(q) * q.den) <= 200 * q.num + q.den,
        200 * q.num <= 2 * (percent(q) * q.den) + q.den,
{
    law_nearest_is_nearest(100 * (q.num as nat), q.den as nat);
}

/// A running job shows its percentage as a number in three places.
pub proof fn law_running_jobs_show_their_percentage(q: Ratio)
    requires
        q.wf(),
    ensures
        status_line(JobStatus::Running, Some(q)).len() == "running "@.len() + 4,
        begins(status_line(JobStatus::Running, Some(q)), "running "@),
        read_nat(
            trimmed(
                status_line(JobStatus::Running, Some(q)).subrange(
                    "running "@.len() as int,
                    "running "@.len() as int + 3,
                ),
            ),
            100,
        ) == Some(percent(q)),
{
    let n = percent(q);
    lemma_percent_grows(q.num as nat, q.den as nat, q.den as nat);
    law_numbers_read_back(n);
    lemma_short_number(n);
    reveal_strlit("  ");
    reveal_strlit(" ");
    reveal_strlit("%");
    let head = "running "@;
    let line = status_line(JobStatus::Running, Some(q));
    let text = percent_text(n);
    assert(text.len() == 4);
    assert(line.take(head.len() as int) =~= head);
    let three = line.subrange(head.len() as int, head.len() as int + 3);
    assert(three =~= text.take(3));
    let d = dec(n);
    assert(is_digit(d[0]) && is_digit(d[d.len() - 1]));
    if n < 10 {
        assert(three =~= "  "@ + d);
        lemma_blanks("  "@, d);
    } else if n < 100 {
        assert(three =~= " "@ + d);
        lemma_blanks(" "@, d);
    } else {
        assert(three =~= Seq::<char>::empty() + d);
        lemma_blanks(Seq::empty(), d);
    }
}

proof fn lemma_short_number(n: nat)
    requires
        n <= 100,
    ensures
        dec(n).len() == (if n < 10 {
            1int
        } else if n < 100 {
            2
        } else {
            3
        }),
{
    reveal_with_fuel(dec, 4);
}

proof fn lemma_blanks(b: Seq<char>, d: Seq<char>)
    requires
        b.len() <= 2,
        forall|i: int| 0 <= i < b.len() ==> #[trigger] b[i] == ' ',
        d.len() > 0,
        is_digit(d[0]),
        is_digit(d[d.len() - 1]),
    ensures
        trimmed(b + d) == d,
    decreases b.len(),
{
    if b.len() == 0 {
        assert(b + d =~= d);
    } else {
        assert(b[0] == ' ');
        assert((b + d).skip(1) =~= b.skip(1) + d);
        lemma_blanks(b.skip(1), d);
    }
}

/// A job ends as its result says: done when it succeeded, else cancelled when
/// it was stopped, else failed, and then the reason is the beginning of its
/// last line of error output, or the exit code where that line is blank.
pub proof fn law_jobs_end_as_their_results_say(status: JobStatus, result: JobResult)
    requires
        settles(status, result),
    ensures
        status is Done <==> result.success,
        status is Cancelled <==> !result.success && result.cancelled,
        status is Failed <==> !result.success && !result.cancelled,
        status matches JobStatus::Failed(why) ==> {
            let lines = texts(result.stderr@);
            if lines.len() > 0 && trimmed(lines.last()).len() > 0 {
                if lines.last().len() <= 100 {
                    why@ == lines.last()
                } else {
                    why@.len() == 101 && why@.take(100) == lines.last().take(100) && why@[100] == '…'
                }
            } else {
                match result.exit_code {
                    Some(code) => why@ == "exit code "@ + dec_int(code as int),
                    None => why@ == "unknown failure"@,
                }
            }
        },
{
    if let JobStatus::Failed(why) = status {
        let lines = texts(result.stderr@);
        let full = reason(lines, result.exit_code);
        if full.len() > 100 {
            assert(why@.take(100) =~= full.take(100));
        }
        if !(lines.len() > 0 && trimmed(lines.last()).len() > 0) {
            reveal_strlit("unknown failure");
            reveal_strlit("exit code ");
            if let Some(code) = result.exit_code {
                lemma_short_code(code as int);
            }
        }
    }
}

proof fn lemma_short_code(i: int)
    requires
        i32::MIN <= i <= i32::MAX,
    ensures
        dec_int(i).len() <= 11,
{
    reveal_with_fuel(dec, 11);
}

/// What a part of a template stands for: a variable for its value, and any
/// other text for itself.
pub open spec fn stands_for(
    part: Seq<char>,
    input: Seq<char>,
    index: nat,
    suffix: Seq<char>,
    ext: Seq<char>,
    date: Seq<char>,
) -> Seq<char> {
    if part == "{stem}"@ {
        match file_stem(input) {
            Some(s) => s,
            None => "output"@,
        }
    } else if part == "{parent}"@ {
        match parent(input) {
            Some(p) => if p.len() > 0 {
                p
            } else {
                "."@
            },
            None => "."@,
        }
    } else if part == "{index}"@ {
        dec(index)
    } else if part == "{suffix}"@ {
        suffix
    } else if part == "{ext}"@ {
        ext
    } else if part == "{date}"@ {
        date
    } else {
        part
    }
}

/// Whether a text is one of the variables of a template.
pub open spec fn is_variable(s: Seq<char>) -> bool {
    s == "{stem}"@ || s == "{parent}"@ || s == "{index}"@ || s == "{suffix}"@ || s == "{ext}"@ || s
        == "{date}"@
}

/// Every variable of a template is filled in with its value, wherever and
/// however often it stands, and all other text stays. A `./` in front is left
/// out.
pub proof fn law_templates_fill_in_every_variable(
    parts: Seq<Seq<char>>,
    input: Seq<char>,
    index: nat,
    suffix: Seq<char>,
    ext: Seq<char>,
    date: Seq<char>,
)
    requires
        forall|i: int| 0 <= i < parts.len() ==> is_variable(#[trigger] parts[i]) || braceless(parts[i]),
        braceless(input),
        braceless(suffix),
        braceless(ext),
        braceless(date),
    ensures
        ({
            let full = together(
                parts.map_values(
                    |p: Seq<char>| stands_for(p, input, index, suffix, ext, date),
                ),
            );
            expanded(together(parts), input, index, suffix, ext, date) == (if begins(full, "./"@) {
                full.skip(2)
            } else {
                full
            })
        }),
{
    reveal_strlit("{stem}");
    reveal_strlit("{ext}");
    reveal_strlit("{parent}");
    reveal_strlit("{index}");
    reveal_strlit("{date}");
    reveal_strlit("{suffix}");
    reveal_strlit("output");
    reveal_strlit(".");
    let stem = stem_text(input);
    let dir = parent_text(input);
    lemma_braceless_parts(input);
    law_numbers_read_back(index);
    assert(braceless(dec(index))) by {
        if dec(index).contains('{') {
            let i = choose|i: int| 0 <= i < dec(index).len() && dec(index)[i] == '{';
            assert(is_digit(dec(index)[i]));
        }
    }
    assert("{stem}"@[1] == 's' && "{date}"@[1] == 'd' && "{stem}"@.len() == 6);
    assert("{parent}"@[1] == 'p' && "{suffix}"@[1] == 's' && "{index}"@.len() == 7);
    assert(variable("{stem}"@) && variable("{ext}"@) && variable("{parent}"@));
    assert(variable("{index}"@) && variable("{date}"@) && variable("{suffix}"@));
    let v1 = filled_in(parts, "{stem}"@, stem);
    let v2 = filled_in(v1, "{ext}"@, ext);
    let v3 = filled_in(v2, "{parent}"@, dir);
    let v4 = filled_in(v3, "{index}"@, dec(index));
    let v5 = filled_in(v4, "{date}"@, date);
    let v6 = filled_in(v5, "{suffix}"@, suffix);
    lemma_step(parts, "{stem}"@, stem);
    lemma_step(v1, "{ext}"@, ext);
    lemma_step(v2, "{parent}"@, dir);
    lemma_step(v3, "{index}"@, dec(index));
    lemma_step(v4, "{date}"@, date);
    lemma_step(v5, "{suffix}"@, suffix);
    lemma_variable_has_brace("{stem}"@);
    lemma_variable_has_brace("{ext}"@);
    lemma_variable_has_brace("{parent}"@);
    lemma_variable_has_brace("{index}"@);
    lemma_variable_has_brace("{date}"@);
    lemma_variable_has_brace("{suffix}"@);
    let want = parts.map_values(|p: Seq<char>| stands_for(p, input, index, suffix, ext, date));
    assert(v6 =~= want) by {
        assert forall|i: int| 0 <= i < parts.len() implies v6[i] == #[trigger] want[i] by {
            let p = parts[i];
            assert(is_variable(p) || braceless(p));
        }
    }
}

proof fn lemma_braceless_parts(input: Seq<char>)
    requires
        braceless(input),
    ensures
        braceless(stem_text(input)),
        braceless(parent_text(input)),
{
    reveal_strlit("output");
    reveal_strlit(".");
    let stem = stem_text(input);
    let dir = parent_text(input);
    if file_stem(input) is Some {
        lemma_parts(input);
    }
    if stem.contains('{') {
        let i = choose|i: int| 0 <= i < stem.len() && stem[i] == '{';
        if file_stem(input) is Some {
            assert(input.contains(stem[i]));
        }
    }
    lemma_parent_is_front(input);
    if dir.contains('{') {
        let i = choose|i: int| 0 <= i < dir.len() && dir[i] == '{';
        if parent(input) is Some && parent(input)->0.len() > 0 {
            assert(input[i] == '{');
        }
    }
}

/// A directory is a beginning of the path.
proof fn lemma_parent_is_front(p: Seq<char>)
    ensures
        parent(p) matches Some(d) ==> d.len() <= p.len() && d == p.take(d.len() as int),
{
    if parent(p) is Some {
        let t = tidy(p);
        lemma_tidy(p);
        lemma_rfind_bounds(t, '/');
        let cut = t.take(rfind(t, '/') + 1);
        lemma_tidy(cut);
        let d = tidy(cut);
        assert(d =~= p.take(d.len() as int));
    }
}

/// Filling in one variable leaves parts that are variables or hold no brace.
proof fn lemma_step(v: Seq<Seq<char>>, name: Seq<char>, with: Seq<char>)
    requires
        variable(name),
        braceless(with),
        forall|i: int| 0 <= i < v.len() ==> is_variable(#[trigger] v[i]) || braceless(v[i]),
    ensures
        replaced(together(v), name, with) == together(filled_in(v, name, with)),
        forall|i: int|
            0 <= i < v.len() ==> is_variable(#[trigger] filled_in(v, name, with)[i]) || braceless(
                filled_in(v, name, with)[i],
            ),
{
    reveal_strlit("{stem}");
    reveal_strlit("{ext}");
    reveal_strlit("{parent}");
    reveal_strlit("{index}");
    reveal_strlit("{date}");
    reveal_strlit("{suffix}");
    assert forall|i: int| 0 <= i < v.len() implies variable(#[trigger] v[i]) || braceless(v[i]) by {
        assert(is_variable(v[i]) || braceless(v[i]));
    }
    lemma_filled_in(v, name, with);
    let w = filled_in(v, name, with);
    assert forall|i: int| 0 <= i < v.len() implies is_variable(#[trigger] w[i]) || braceless(
        w[i],
    ) by {
        assert(is_variable(v[i]) || braceless(v[i]));
    }
}

} // verus!
