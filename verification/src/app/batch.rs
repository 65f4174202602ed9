//! One job for each of several inputs.

use vstd::prelude::*;
use crate::app::forms::{found_probes, ready};
use crate::app::jobs::{
    busy, find_output, name_of, set_going, show_name, told, went_on, written_by, BUSY,
};
use crate::app::{
    deeds, no_effects, one_effect, plan, App, BatchItem, Deed, Effect, Planned, Screen,
};
use crate::ffmpeg::builder::{displayed, output_name, Command};
use crate::ffmpeg::probe::ProbeResult;
use crate::ops::fields::{collect_values, entries, row_values, rows, BuildContext, Field, Row};
use crate::ops::parts::caps_of;
use crate::ops::{menu, operation_for, position, registry, AnyOperation, Operation};
use crate::path::{
    extension, file_name, file_stem, get_extension, get_file_stem, lemma_parts, parent, tail, tidy,
};
use crate::queue::job::{expand_template, expanded, Job, JobStatus, NewJob};
use crate::queue::{fresh, law_jobs_are_told_apart, waits, Queue};
use crate::text::{
    begins, begins_with, chars_of, copy_text, join2, join3, lemma_rfind, opt_text, slice_text,
    texts,
};

verus! {

// ---------------------------------------------------------------------------
// Names
// ---------------------------------------------------------------------------

/// The stem of a path, or nothing.
pub open spec fn stem(p: Seq<char>) -> Seq<char> {
    match file_stem(p) {
        Some(s) => s,
        None => Seq::empty(),
    }
}

/// A text without the joints it begins with.
pub open spec fn unjoined(s: Seq<char>) -> Seq<char>
    decreases s.len(),
{
    if s.len() > 0 && (s[0] == '_' || s[0] == '-') {
        unjoined(s.skip(1))
    } else {
        s
    }
}

/// What an output's name adds to the input's.
pub open spec fn suffix_of(output: Seq<char>, input: Seq<char>) -> Seq<char> {
    if begins(stem(output), stem(input)) {
        unjoined(stem(output).skip(stem(input).len() as int))
    } else {
        Seq::empty()
    }
}

/// The extension of an output, or else that of the input.
pub open spec fn ext_of(output: Seq<char>, input: Seq<char>) -> Seq<char> {
    match extension(output) {
        Some(e) => if e.len() > 0 {
            e
        } else {
            input_ext(input)
        },
        None => input_ext(input),
    }
}

/// The extension of an input, or `mp4`.
pub open spec fn input_ext(input: Seq<char>) -> Seq<char> {
    match extension(input) {
        Some(e) => e,
        None => "mp4"@,
    }
}

/// Gives the stem of a path.
fn find_stem(p: &str) -> (r: String)
    ensures
        r@ == stem(p@),
{
    match get_file_stem(p) {
        Some(s) => s,
        None => String::new(),
    }
}

/// Takes the joints off the beginning of a text.
fn strip_joints(x: &Vec<char>, from: usize) -> (r: String)
    requires
        from <= x@.len(),
    ensures
        r@ == unjoined(x@.skip(from as int)),
{
    let mut i: usize = from;
    while i < x.len() && (x[i] == '_' || x[i] == '-')
        invariant
            from <= i <= x@.len(),
            unjoined(x@.skip(from as int)) == unjoined(x@.skip(i as int)),
        decreases x@.len() - i,
    {
        assert(x@.skip(i as int).skip(1) =~= x@.skip(i + 1));
        i = i + 1;
    }
    let r = slice_text(x, i, x.len());
    assert(r@ =~= x@.skip(i as int));
    r
}

/// Splits a default output into what its name adds to the input's, and its
/// extension.
pub fn split_suffix(default_out: &str, input: &str) -> (r: (String, String))
    ensures
        r.0@ == suffix_of(default_out@, input@),
        r.1@ == ext_of(default_out@, input@),
{
    let d = find_stem(default_out);
    let i = find_stem(input);
    let suffix = if begins_with(d.as_str(), i.as_str()) {
        let from: usize = chars_of(i.as_str()).len();
        strip_joints(&chars_of(d.as_str()), from)
    } else {
        String::new()
    };
    let own = match get_extension(default_out) {
        Some(e) => {
            if e.as_str().is_empty() {
                None
            } else {
                Some(e)
            }
        },
        None => None,
    };
    let ext = match own {
        Some(e) => e,
        None => match get_extension(input) {
            Some(e) => e,
            None => copy_text("mp4"),
        },
    };
    (suffix, ext)
}

/// What stands behind the last separator of a path is its name, where it ends in
/// neither a dot nor a separator.
proof fn lemma_name_behind(out: Seq<char>, name: Seq<char>)
    requires
        name.len() > 0,
        name.len() <= out.len(),
        out.skip(out.len() - name.len()) == name,
        !name.contains('/'),
        name.last() != '.',
        out.len() > name.len() ==> out[out.len() - name.len() - 1] == '/',
    ensures
        file_name(out) == Some(name),
{
    let from = out.len() - name.len();
    assert forall|j: int| from - 1 < j < out.len() implies out[j] != '/' by {
        assert(out[j] == name[j - from]);
    }
    assert(out.last() == name[name.len() - 1]);
    assert(name.last() != '/');
    assert(tidy(out) == out);
    lemma_rfind(out, '/', from - 1);
    assert(tail(out) == name);
    assert(seq!['.'].last() == '.' && seq!['.', '.'].last() == '.');
}

/// A default output's name.
proof fn lemma_default_name(input: Seq<char>, suffix: Seq<char>, ext: Seq<char>)
    requires
        file_stem(input) is Some,
        !suffix.contains('/'),
        ext.len() > 0,
        !ext.contains('.') && !ext.contains('/'),
    ensures
        file_name(output_name(input, suffix, ext)) == Some(
            file_stem(input)->0 + seq!['_'] + suffix + seq!['.'] + ext,
        ),
{
    lemma_parts(input);
    let s = file_stem(input)->0;
    let d = parent(input)->0;
    let head = s + seq!['_'] + suffix;
    let name = head + seq!['.'] + ext;
    let out = output_name(input, suffix, ext);
    assert forall|i: int| 0 <= i < name.len() implies #[trigger] name[i] != '/' by {
        if i < s.len() {
            assert(name[i] == s[i]);
        } else if s.len() < i < head.len() {
            assert(name[i] == suffix[i - s.len() - 1]);
        } else if i > head.len() {
            assert(name[i] == ext[i - head.len() - 1]);
        }
    }
    assert(name.last() == ext[ext.len() - 1]);
    if d.len() == 0 {
        assert(out =~= name);
    } else if d.last() == '/' {
        assert(out =~= d + name);
    } else {
        assert(out =~= d + seq!['/'] + name);
    }
    assert(out.skip(out.len() - name.len()) =~= name);
    lemma_name_behind(out, name);
}

/// Splitting undoes the default naming: what an output's name adds to the
/// input's is the suffix that it was made with, and so is its extension.
pub proof fn law_splitting_undoes_naming(input: Seq<char>, suffix: Seq<char>, ext: Seq<char>)
    requires
        file_stem(input) is Some,
        suffix.len() > 0,
        !suffix.contains('/'),
        suffix[0] != '_' && suffix[0] != '-',
        ext.len() > 0,
        !ext.contains('.') && !ext.contains('/'),
    ensures
        suffix_of(output_name(input, suffix, ext), input) == suffix,
        ext_of(output_name(input, suffix, ext), input) == ext,
{
    lemma_default_name(input, suffix, ext);
    let s = file_stem(input)->0;
    let head = s + seq!['_'] + suffix;
    let name = head + seq!['.'] + ext;
    let k = head.len() as int;
    assert forall|j: int| k < j < name.len() implies name[j] != '.' by {
        assert(name[j] == ext[j - k - 1]);
    }
    lemma_rfind(name, '.', k);
    assert(name.take(k) =~= head);
    assert(name.skip(k + 1) =~= ext);
    assert(head.take(s.len() as int) =~= s);
    let joint = seq!['_'] + suffix;
    assert(head.skip(s.len() as int) =~= joint);
    assert(joint.skip(1) =~= suffix);
    assert(unjoined(joint) == unjoined(joint.skip(1)));
}

// ---------------------------------------------------------------------------
// Planning
// ---------------------------------------------------------------------------

/// What jobs of a batch have in common.
pub struct Batch {
    pub op: AnyOperation,
    pub rows: Seq<Row>,
    pub template: Seq<char>,
    pub date: Seq<char>,
    pub temp: Seq<char>,
}

/// Whether a context is the one that a form's values have for one input alone.
pub open spec fn one_context(
    ctx: BuildContext,
    a: App,
    b: Batch,
    input: Seq<char>,
    output: Option<Seq<char>>,
) -> bool {
    &&& texts(ctx.inputs@) == seq![input]
    &&& ctx.output_text() == output
    &&& ctx.probed() == ready(a.probes@, input)
    &&& found_probes(ctx.input_probes@) == (match ready(a.probes@, input) {
        Some(p) => seq![p],
        None => Seq::empty(),
    })
    &&& ctx.clips@.len() == 0
    &&& caps_of(ctx.caps) == a.caps
    &&& entries(ctx.fields@) == row_values(b.rows)
    &&& ctx.temp_dir@ == b.temp
}

/// The output that is asked for an input: the template, with what the command
/// would call its output by itself.
pub open spec fn batch_output(b: Batch, index: nat, input: Seq<char>, first: Command) -> Seq<char> {
    let own = written_by(first);
    expanded(b.template, input, index + 1, suffix_of(own, input), ext_of(own, input), b.date)
}

/// Whether a job is the one of an input: its command is built twice, once for
/// the name of the output and once with it. Its output is the file that the
/// command writes.
pub open spec fn item_planned(a: App, b: Batch, index: nat, input: Seq<char>, item: Planned) -> bool {
    &&& item.input == input
    &&& item.output == written_by(item.command)
    &&& item.total_duration == (match ready(a.probes@, input) {
        Some(p) => p.duration,
        None => None,
    })
    &&& item.input_size == (match ready(a.probes@, input) {
        Some(p) => p.size_bytes,
        None => None,
    })
    &&& exists|c1: BuildContext, c2: BuildContext|
        {
            &&& one_context(c1, a, b, input, None)
            &&& #[trigger] b.op.command(c1) matches Ok(first) && one_context(
                c2,
                a,
                b,
                input,
                Some(batch_output(b, index, input, first)),
            )
            &&& #[trigger] b.op.command(c2) == Ok::<Command, Seq<char>>(item.command)
        }
}

/// Whether no job can be built for an input.
pub open spec fn item_refused(
    a: App,
    b: Batch,
    index: nat,
    input: Seq<char>,
    message: Seq<char>,
) -> bool {
    exists|c1: BuildContext, c2: BuildContext|
        {
            &&& one_context(c1, a, b, input, None)
            &&& match #[trigger] b.op.command(c1) {
                Ok(first) => {
                    &&& one_context(c2, a, b, input, Some(batch_output(b, index, input, first)))
                    &&& #[trigger] b.op.command(c2) == Err::<Command, Seq<char>>(message)
                },
                Err(e) => e == message && c2 == c1,
            }
        }
}

/// What jobs of a form's batch have in common.
pub open spec fn batch_of(a: App, date: Seq<char>, temp: Seq<char>) -> Batch {
    let f = a.form->0;
    Batch {
        op: registry()[position(menu(), f.op_id@)],
        rows: rows(f.fields@),
        template: a.settings.general.batch_template@,
        date,
        temp,
    }
}

/// Whether the first inputs all have a job.
pub open spec fn all_planned(a: App, b: Batch, items: Seq<Planned>, n: int) -> bool {
    items.len() == n && forall|k: int|
        0 <= k < n ==> item_planned(a, b, k as nat, a.form_inputs@[k]@, #[trigger] items[k])
}

/// What asking for a batch does: every job is planned, and the outside is looked
/// at first. When a job cannot be built nothing is planned, and the status line
/// says why.
pub open spec fn batch_wanted(
    before: App,
    after: App,
    date: Seq<char>,
    temp: Seq<char>,
    d: Seq<Deed>,
) -> bool {
    let n = before.form_inputs@.len() as int;
    if busy(before) {
        told(before, after, BUSY@) && d == Seq::<Deed>::empty()
    } else if before.form is None {
        after == before && d == Seq::<Deed>::empty()
    } else if position(menu(), before.form->0.op_id@) >= menu().len() {
        &&& told(before, after, "Unknown operation: "@ + before.form->0.op_id@)
        &&& d == Seq::<Deed>::empty()
    } else {
        let b = batch_of(before, date, temp);
        if d.len() > 0 {
            &&& after == before
            &&& exists|items: Seq<Planned>| #[trigger]
                all_planned(before, b, items, n) && d == seq![Deed::SurveyBatch(items)]
        } else {
            exists|k: int, message: Seq<char>, items: Seq<Planned>|
                #![trigger item_refused(before, b, k as nat, before.form_inputs@[k]@, message), all_planned(before, b, items, k)]
                {
                    &&& 0 <= k < n
                    &&& all_planned(before, b, items, k)
                    &&& item_refused(before, b, k as nat, before.form_inputs@[k]@, message)
                    &&& told(
                        before,
                        after,
                        before.form_inputs@[k]@ + ": "@ + message + " — nothing was enqueued"@,
                    )
                }
        }
    }
}

impl App {
    /// Builds the command for one input of a batch.
    fn build_one(
        &self,
        op: &AnyOperation,
        fields: &Vec<Field>,
        input: &str,
        output: Option<&String>,
        temp_dir: &str,
        Ghost(b): Ghost<Batch>,
    ) -> (r: Result<crate::ffmpeg::builder::CommandSpec, String>)
        requires
            b.op == *op,
            b.rows == rows(fields@),
            b.temp == temp_dir@,
        ensures
            exists|ctx: BuildContext|
                one_context(
                    ctx,
                    *self,
                    b,
                    input@,
                    match output {
                        Some(p) => Some(p@),
                        None => None,
                    },
                ) && match #[trigger] b.op.command(ctx) {
                    Ok(c) => r matches Ok(spec) && spec@ == c,
                    Err(e) => r matches Err(m) && m@ == e,
                },
    {
        let mut one: Vec<String> = Vec::new();
        one.push(copy_text(input));
        assert(texts(one@) =~= seq![input@]);
        let probe = self.ready_probe(input);
        let mut probes: Vec<&ProbeResult> = Vec::new();
        if let Some(p) = probe {
            probes.push(p);
        }
        assert(found_probes(probes@) =~= (match ready(self.probes@, input@) {
            Some(p) => seq![p],
            None => Seq::empty(),
        }));
        let ctx = BuildContext {
            inputs: one.as_slice(),
            output,
            probe,
            input_probes: probes,
            clips: Vec::new(),
            caps: self.caps.as_ref(),
            fields: collect_values(fields.as_slice()),
            temp_dir,
        };
        assert(one_context(
            ctx,
            *self,
            b,
            input@,
            match output {
                Some(p) => Some(p@),
                None => None,
            },
        ));
        match op.build(&ctx) {
            Ok(spec) => {
                assert(b.op.command(ctx) == Ok::<Command, Seq<char>>(spec@));
                Ok(spec)
            },
            Err(e) => {
                assert(b.op.command(ctx) == Err::<Command, Seq<char>>(e.message@));
                Err(e.message)
            },
        }
    }

    /// Plans the job of one input.
    fn plan_one(
        &self,
        op: &AnyOperation,
        fields: &Vec<Field>,
        index: usize,
        input: &str,
        date: &str,
        temp_dir: &str,
        Ghost(b): Ghost<Batch>,
    ) -> (r: Result<BatchItem, String>)
        requires
            b == (Batch {
                op: *op,
                rows: rows(fields@),
                template: self.settings.general.batch_template@,
                date: date@,
                temp: temp_dir@,
            }),
            index < usize::MAX,
        ensures
            match r {
                Ok(item) => item_planned(*self, b, index as nat, input@, item@),
                Err(m) => item_refused(*self, b, index as nat, input@, m@),
            },
    {
        let first = match self.build_one(op, fields, input, None, temp_dir, Ghost(b)) {
            Ok(spec) => spec,
            Err(m) => {
                proof {
                    let c1 = choose|ctx: BuildContext|
                        one_context(ctx, *self, b, input@, None) && match #[trigger] b.op.command(
                            ctx,
                        ) {
                            Ok(c) => false,
                            Err(e) => m@ == e,
                        };
                    let c2 = c1;
                    assert(b.op.command(c1) == b.op.command(c2));
                }
                return Err(m);
            },
        };
        let ghost c1 = choose|ctx: BuildContext|
            one_context(ctx, *self, b, input@, None) && match #[trigger] b.op.command(ctx) {
                Ok(c) => first@ == c,
                Err(e) => false,
            };
        let own = find_output(&first);
        let (suffix, ext) = split_suffix(own.as_str(), input);
        let output = expand_template(
            self.settings.general.batch_template.as_str(),
            input,
            index + 1,
            suffix.as_str(),
            ext.as_str(),
            date,
        );
        assert(output@ == batch_output(b, index as nat, input@, first@));
        match self.build_one(op, fields, input, Some(&output), temp_dir, Ghost(b)) {
            Ok(spec) => {
                let ghost c2 = choose|ctx: BuildContext|
                    one_context(ctx, *self, b, input@, Some(output@)) && match #[trigger] b.op.command(
                        ctx,
                    ) {
                        Ok(c) => spec@ == c,
                        Err(e) => false,
                    };
                let (total_duration, input_size) = match self.ready_probe(input) {
                    Some(p) => (p.duration, p.size_bytes),
                    None => (None, None),
                };
                let item = BatchItem {
                    input: copy_text(input),
                    output: find_output(&spec),
                    spec,
                    total_duration,
                    input_size,
                };
                assert(b.op.command(c1) matches Ok(c) && c == first@);
                assert(b.op.command(c2) == Ok::<Command, Seq<char>>(item@.command));
                Ok(item)
            },
            Err(m) => {
                proof {
                    let c2 = choose|ctx: BuildContext|
                        one_context(ctx, *self, b, input@, Some(output@)) && match #[trigger] b.op.command(
                            ctx,
                        ) {
                            Ok(c) => false,
                            Err(e) => m@ == e,
                        };
                    assert(b.op.command(c1) matches Ok(c) && c == first@);
                    assert(b.op.command(c2) == Err::<Command, Seq<char>>(m@));
                }
                Err(m)
            },
        }
    }

    /// Asks for a batch: what the outside is like comes to `begin_batch`.
    #[verifier::loop_isolation(false)]
    pub fn start_batch_flow(&mut self, date: &str, temp_dir: &str) -> (r: Vec<Effect>)
        ensures
            batch_wanted(*old(self), *final(self), date@, temp_dir@, deeds(r@)),
    {
        if self.single_or_queue_busy() {
            return no_effects();
        }
        let ghost before = *self;
        let form = match &self.form {
            Some(form) => form,
            None => {
                return no_effects();
            },
        };
        let op = match operation_for(form.op_id.as_str()) {
            Some(op) => op,
            None => {
                let text = join2("Unknown operation: ", form.op_id.as_str());
                self.status_message = Some(text);
                return no_effects();
            },
        };
        let ghost b = batch_of(before, date@, temp_dir@);
        let mut items: Vec<BatchItem> = Vec::new();
        let n: usize = self.form_inputs.len();
        let mut failure: Option<String> = None;
        let mut i: usize = 0;
        assert(all_planned(before, b, plan(items@), 0));
        while i < n && failure.is_none()
            invariant
                i <= n,
                failure is None ==> all_planned(before, b, plan(items@), i as int),
                failure matches Some(text) ==> i < n && all_planned(
                    before,
                    b,
                    plan(items@),
                    i as int,
                ) && exists|message: Seq<char>| #[trigger]
                    item_refused(before, b, i as nat, before.form_inputs@[i as int]@, message)
                        && text@ == before.form_inputs@[i as int]@ + ": "@ + message
                        + " — nothing was enqueued"@,
            decreases n - i, (if failure is None {
                1int
            } else {
                0
            }),
        {
            let input = self.form_inputs[i].as_str();
            match self.plan_one(&op, &form.fields, i, input, date, temp_dir, Ghost(b)) {
                Ok(item) => {
                    let ghost done = plan(items@);
                    let ghost p = item@;
                    items.push(item);
                    assert(plan(items@) =~= done.push(p));
                    i = i + 1;
                    assert(all_planned(before, b, plan(items@), i as int));
                },
                Err(m) => {
                    let mut text = join3(input, ": ", m.as_str());
                    text.append(" — nothing was enqueued");
                    assert(item_refused(before, b, i as nat, before.form_inputs@[i as int]@, m@));
                    failure = Some(text);
                },
            }
        }
        if let Some(text) = failure {
            let ghost message = choose|message: Seq<char>| #[trigger]
                item_refused(before, b, i as nat, before.form_inputs@[i as int]@, message)
                    && text@ == before.form_inputs@[i as int]@ + ": "@ + message
                    + " — nothing was enqueued"@;
            self.status_message = Some(text);
            let r = no_effects();
            proof {
                let k = i as int;
                assert(item_refused(before, b, k as nat, before.form_inputs@[k]@, message));
                assert(all_planned(before, b, plan(items@), k));
                assert(told(
                    before,
                    *self,
                    before.form_inputs@[k]@ + ": "@ + message + " — nothing was enqueued"@,
                ));
            }
            return r;
        }
        let ghost planned = plan(items@);
        assert(all_planned(before, b, planned, n as int));
        let r = one_effect(Effect::SurveyBatch(items));
        assert(deeds(r@)[0] == Deed::SurveyBatch(planned));
        r
    }
}

// ---------------------------------------------------------------------------
// Beginning
// ---------------------------------------------------------------------------

/// What the outside knows of a job of a batch.
#[derive(Debug, Clone, Copy, PartialEq, Eq, Structural)]
pub struct Survey {
    /// Whether its output exists.
    pub exists: bool,
    /// The size of its input's file.
    pub size: Option<u64>,
}

/// Whether a job of the queue is the one that was planned.
pub open spec fn job_from(j: Job, id: u64, op_id: Seq<char>, item: Planned, seen: Survey) -> bool {
    &&& j.id == id
    &&& j.op_id@ == op_id
    &&& j.op_name@ == name_of(op_id)
    &&& j.input@ == item.input
    &&& j.output@ == item.output
    &&& j.display_command@ == displayed(item.command)
    &&& j.spec@ == item.command
    &&& j.total_duration == item.total_duration
    &&& j.input_size == (match item.input_size {
        Some(n) => Some(n),
        None => seen.size,
    })
    &&& j.status == JobStatus::Pending
    &&& j.ratio is None
    &&& j.out_time is None
    &&& j.speed is None
    &&& j.result is None
}

/// Whether jobs of the queue are those that were planned, with the next ids.
pub open spec fn jobs_from(
    jobs: Seq<Job>,
    next_id: u64,
    op_id: Seq<char>,
    items: Seq<Planned>,
    seen: Seq<Survey>,
) -> bool {
    &&& jobs.len() == items.len()
    &&& forall|k: int|
        0 <= k < items.len() ==> job_from(
            #[trigger] jobs[k],
            (next_id + k) as u64,
            op_id,
            items[k],
            seen[k],
        )
}

/// The outputs that exist.
pub open spec fn existing(items: Seq<Planned>, seen: Seq<Survey>, n: int) -> Seq<Seq<char>>
    decreases n,
{
    if n <= 0 {
        Seq::empty()
    } else {
        let before = existing(items, seen, n - 1);
        if seen[n - 1].exists {
            before.push(items[n - 1].output)
        } else {
            before
        }
    }
}

/// The queue, over the form.
pub open spec fn queue_over_form() -> Screen {
    Screen::Queue { return_to: Box::new(Screen::ParameterForm) }
}

/// A queue with the jobs of a batch behind its own.
pub open spec fn with_jobs(q: Queue, jobs: Seq<Job>) -> Queue {
    Queue {
        jobs: q.jobs + jobs,
        next_id: (q.next_id + jobs.len()) as u64,
        summary: None,
        ..q
    }
}

/// What is said when outputs of a batch exist.
pub const ARMED: &'static str = "Some outputs already exist — y runs the batch and overwrites.";

/// What beginning a batch does: its jobs join the queue, which is shown and
/// started; when outputs exist it waits for a confirmation, unless the settings
/// say otherwise.
pub open spec fn batch_begun(
    before: App,
    after: App,
    items: Seq<Planned>,
    seen: Seq<Survey>,
    d: Seq<Deed>,
) -> bool {
    let shown = App { screen: queue_over_form(), ..before };
    let conflicts = existing(items, seen, items.len() as int);
    if busy(before) {
        told(before, after, BUSY@) && d == Seq::<Deed>::empty()
    } else if before.form is None {
        after == before && d == Seq::<Deed>::empty()
    } else {
        exists|jobs: Seq<Job>|
            {
                let q = with_jobs(before.queue@, jobs);
                &&& #[trigger] jobs_from(
                    jobs,
                    before.queue.next_id,
                    before.form->0.op_id@,
                    items,
                    seen,
                )
                &&& if conflicts.len() > 0 && before.settings.general.confirm_overwrite {
                    &&& after == (App {
                        queue: after.queue,
                        status_message: after.status_message,
                        ..shown
                    })
                    &&& after.queue@ == (Queue { conflicts, ..q })
                    &&& opt_text(after.status_message) == Some(ARMED@)
                    &&& d == Seq::<Deed>::empty()
                } else if q.jobs.len() == 0 || q.running {
                    &&& after == (App { queue: after.queue, ..shown })
                    &&& after.queue@ == q
                    &&& d == Seq::<Deed>::empty()
                } else {
                    went_on(shown, set_going(q), None, after, d)
                }
            }
    }
}

impl App {
    /// Begins a batch, now that it is known which outputs exist and how large
    /// the inputs' files are.
    #[verifier::rlimit(40)]
    pub fn begin_batch(&mut self, items: &Vec<BatchItem>, seen: &Vec<Survey>) -> (r: Vec<Effect>)
        requires
            old(self).wf(),
            seen@.len() == items@.len(),
            old(self).queue.next_id + items@.len() <= u64::MAX,
        ensures
            final(self).wf(),
            batch_begun(*old(self), *final(self), plan(items@), seen@, deeds(r@)),
    {
        if self.single_or_queue_busy() {
            return no_effects();
        }
        let ghost before = *self;
        let ghost planned = plan(items@);
        let (op_id, op_name) = match &self.form {
            Some(form) => (copy_text(form.op_id.as_str()), show_name(form.op_id.as_str())),
            None => {
                return no_effects();
            },
        };
        let ghost id = op_id@;
        let start: u64 = self.queue.next_id;
        let mut jobs: Vec<Job> = Vec::new();
        let mut conflicts: Vec<String> = Vec::new();
        let n: usize = items.len();
        let mut i: usize = 0;
        assert(texts(conflicts@) =~= Seq::<Seq<char>>::empty());
        while i < n
            invariant
                i <= n,
                n == items@.len(),
                seen@.len() == n,
                planned == plan(items@),
                start + n <= u64::MAX,
                op_id@ == id,
                op_name@ == name_of(id),
                jobs@.len() == i,
                forall|k: int|
                    0 <= k < i ==> job_from(
                        #[trigger] jobs@[k],
                        (start + k) as u64,
                        id,
                        planned[k],
                        seen@[k],
                    ),
                texts(conflicts@) == existing(planned, seen@, i as int),
            decreases n - i,
        {
            let item = &items[i];
            assert(planned[i as int] == item@);
            let known = seen[i];
            let input_size = match item.input_size {
                Some(size) => Some(size),
                None => known.size,
            };
            if known.exists {
                let ghost c0 = texts(conflicts@);
                conflicts.push(copy_text(item.output.as_str()));
                assert(texts(conflicts@) =~= c0.push(item.output@));
            }
            jobs.push(
                Job::pending(
                    NewJob {
                        id: start + i as u64,
                        op_id: copy_text(op_id.as_str()),
                        op_name: copy_text(op_name.as_str()),
                        input: copy_text(item.input.as_str()),
                        output: copy_text(item.output.as_str()),
                        spec: item.spec.copy(),
                        total_duration: item.total_duration,
                        input_size,
                    },
                ),
            );
            i = i + 1;
        }
        let ghost made = jobs@;
        proof {
            assert(jobs_from(made, start, id, planned, seen@));
            assert(fresh(made, start, (start + n) as u64)) by {
                assert forall|k: int| 0 <= k < made.len() implies start <= (
                #[trigger] made[k]).id < (start + n) as u64 && waits(made[k]) && made[k].wf() by {
                    assert(job_from(made[k], (start + k) as u64, id, planned[k], seen@[k]));
                }
                assert forall|k: int, m: int| 0 <= k < m < made.len() implies (
                #[trigger] made[k]).id != (#[trigger] made[m]).id by {
                    assert(job_from(made[k], (start + k) as u64, id, planned[k], seen@[k]));
                    assert(job_from(made[m], (start + m) as u64, id, planned[m], seen@[m]));
                }
            }
        }
        self.queue.enqueue(jobs);
        self.queue.next_id = start + n as u64;
        self.screen = Screen::Queue { return_to: Box::new(Screen::ParameterForm) };
        proof {
            law_jobs_are_told_apart(before.queue, self.queue, made);
            assert(self.queue@ =~= with_jobs(before.queue@, made));
        }
        let ghost q = self.queue@;
        let ghost shown = App { screen: queue_over_form(), ..before };
        if conflicts.len() > 0 && self.settings.general.confirm_overwrite {
            self.queue.overwrite_conflicts = conflicts;
            self.status_message = Some(copy_text(ARMED));
            let r = no_effects();
            assert(self.queue@ =~= (Queue { conflicts: existing(planned, seen@, n as int), ..q }));
            r
        } else {
            let ghost mid = *self;
            let r = self.start_queue_execution();
            proof {
                if !(q.jobs.len() == 0 || q.running) {
                    assert(went_on(mid, set_going(q), None, *self, deeds(r@)));
                    assert(went_on(shown, set_going(q), None, *self, deeds(r@)));
                }
                assert(jobs_from(made, start, id, planned, seen@));
            }
            r
        }
    }
}

} // verus!
