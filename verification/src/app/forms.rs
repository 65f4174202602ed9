//! Opening a form, and keeping its command up to date.

use vstd::prelude::*;
use crate::app::{deeds, no_effects, one_effect, App, CopyFor, Deed, Effect, ProbeState};
use crate::config::presets::{
    applied_row, applied_rows, apply_preset, law_presets_keep_order, param_for, Param, ParamValue,
    Preset,
};
use crate::config::settings::EncoderDefaults;
use crate::ffmpeg::builder::{displayed, Command};
use crate::ffmpeg::probe::ProbeResult;
use crate::key::{buffer, fresh_buffer, input_value, new_input};
use crate::ops::fields::{
    all_steady, entries, row_values, rows, steady, BuildContext, Control, Field, FieldKind, Row,
};
use crate::ops::parts::{caps_of, probe_of};
use crate::ops::{law_ids_resolve, menu, operation_for, position, registry, AnyOperation, Operation};
use crate::path::{file_name, get_file_name, join_path, joined_path};
use crate::text::{copy_text, join3, opt_text, same, texts};
use crate::time::Duration;
use crate::ui::screens::parameter_form::{output_of, rebuilt, FormFacts, ParamForm};

verus! {

// ---------------------------------------------------------------------------
// What a command is built from
// ---------------------------------------------------------------------------

/// What a probe found, when it is done.
pub open spec fn ready(m: Map<Seq<char>, ProbeState>, path: Seq<char>) -> Option<ProbeResult> {
    if m.contains_key(path) {
        match m[path] {
            ProbeState::Ready(p) => Some(p),
            _ => None,
        }
    } else {
        None
    }
}

/// What the probes of paths found, in order, without those that are not done or
/// failed.
pub open spec fn all_ready(m: Map<Seq<char>, ProbeState>, paths: Seq<Seq<char>>) -> Seq<ProbeResult>
    decreases paths.len(),
{
    if paths.len() == 0 {
        Seq::empty()
    } else {
        let before = all_ready(m, paths.drop_last());
        match ready(m, paths.last()) {
            Some(p) => before.push(p),
            None => before,
        }
    }
}

/// What the probe of the first input found.
pub open spec fn first_ready(a: App) -> Option<ProbeResult> {
    if a.form_inputs@.len() > 0 {
        ready(a.probes@, a.form_inputs@[0]@)
    } else {
        None
    }
}

/// Probes, by value.
pub open spec fn found_probes(v: Seq<&ProbeResult>) -> Seq<ProbeResult> {
    v.map_values(|p: &ProbeResult| *p)
}

/// Whether a context is the one that a form with the given rows has in the
/// application.
pub open spec fn app_context(ctx: BuildContext, a: App, temp: Seq<char>, v: Seq<Row>) -> bool {
    &&& ctx.inputs@ == a.form_inputs@
    &&& ctx.output_text() == output_of(v)
    &&& ctx.probed() == first_ready(a)
    &&& found_probes(ctx.input_probes@) == all_ready(a.probes@, texts(a.form_inputs@))
    &&& ctx.clips@.len() == 0
    &&& caps_of(ctx.caps) == a.caps
    &&& entries(ctx.fields@) == row_values(v)
    &&& ctx.temp_dir@ == temp
}

impl App {
    /// What the probe of a path found.
    pub fn ready_probe(&self, path: &str) -> (r: Option<&ProbeResult>)
        ensures
            probe_of(r) == ready(self.probes@, path@),
    {
        match self.probes.get(path) {
            Some(ProbeState::Ready(p)) => Some(p),
            _ => None,
        }
    }

    /// What the probe of the first input found.
    pub fn first_input_probe(&self) -> (r: Option<&ProbeResult>)
        ensures
            probe_of(r) == first_ready(*self),
    {
        if self.form_inputs.len() > 0 {
            self.ready_probe(self.form_inputs[0].as_str())
        } else {
            None
        }
    }

    /// What the probes of the inputs found.
    pub fn all_input_probes(&self) -> (r: Vec<&ProbeResult>)
        ensures
            found_probes(r@) == all_ready(self.probes@, texts(self.form_inputs@)),
    {
        let ghost all = texts(self.form_inputs@);
        let mut out: Vec<&ProbeResult> = Vec::new();
        let mut i: usize = 0;
        assert(all.take(0) =~= Seq::<Seq<char>>::empty());
        assert(found_probes(out@) =~= Seq::<ProbeResult>::empty());
        while i < self.form_inputs.len()
            invariant
                i <= self.form_inputs@.len(),
                all == texts(self.form_inputs@),
                found_probes(out@) == all_ready(self.probes@, all.take(i as int)),
            decreases self.form_inputs@.len() - i,
        {
            let ghost before = found_probes(out@);
            proof {
                assert(all.take(i + 1).drop_last() =~= all.take(i as int));
                assert(all.take(i + 1).last() == self.form_inputs@[i as int]@);
            }
            if let Some(p) = self.ready_probe(self.form_inputs[i].as_str()) {
                out.push(p);
                assert(found_probes(out@) =~= before.push(*p));
            }
            i = i + 1;
        }
        assert(all.take(i as int) =~= all);
        out
    }
}

// ---------------------------------------------------------------------------
// Building the command again
// ---------------------------------------------------------------------------

/// Whether the command of the form was built again from the current values, and
/// nothing else changed.
pub open spec fn form_rebuilt(before: App, after: App, now: Duration, temp: Seq<char>) -> bool {
    match before.form {
        Some(f) => if position(menu(), f.op_id@) < menu().len() {
            let op = registry()[position(menu(), f.op_id@)];
            &&& after == (App { form: after.form, ..before })
            &&& after.form is Some
            &&& exists|ctx: BuildContext|
                app_context(ctx, before, temp, rows(f.fields@)) && rebuilt(
                    f,
                    after.form->0,
                    #[trigger] op.command(ctx),
                    now,
                )
        } else {
            after == before
        },
        None => after == before,
    }
}

impl App {
    /// Builds the command of the form again.
    pub fn rebuild_form(&mut self, now: Duration, temp_dir: &str)
        ensures
            form_rebuilt(*old(self), *final(self), now, temp_dir@),
            old(self).wf() ==> final(self).wf(),
    {
        let ghost before = *self;
        let mut form = match self.form.take() {
            Some(f) => f,
            None => {
                return;
            },
        };
        let ghost f0 = form;
        match operation_for(form.op_id.as_str()) {
            Some(op) => {
                let facts = FormFacts {
                    inputs: self.form_inputs.as_slice(),
                    probe: self.first_input_probe(),
                    input_probes: self.all_input_probes(),
                    caps: self.caps.as_ref(),
                    temp_dir,
                    now,
                };
                form.rebuild(&op, facts);
                proof {
                    let ctx = choose|ctx: BuildContext|
                        crate::ui::screens::parameter_form::form_context(
                            ctx,
                            facts,
                            rows(f0.fields@),
                        ) && rebuilt(f0, form, #[trigger] op.command(ctx), facts.now);
                    assert(app_context(ctx, before, temp_dir@, rows(f0.fields@)));
                    assert(rebuilt(f0, form, op.command(ctx), now));
                }
            },
            None => {},
        }
        self.form = Some(form);
    }
}

// ---------------------------------------------------------------------------
// Opening a form
// ---------------------------------------------------------------------------

/// The configured encoder settings, as a preset has them.
pub open spec fn default_params(d: EncoderDefaults) -> Seq<(Seq<char>, Param)> {
    seq![
        ("video_codec"@, Param::Text(d.video_codec@)),
        ("crf"@, Param::Int(d.crf as int)),
        ("preset"@, Param::Text(d.preset@)),
        ("audio_codec"@, Param::Text(d.audio_codec@)),
        ("audio_bitrate"@, Param::Text(d.audio_bitrate@)),
    ]
}

/// Gives the configured encoder settings as a preset.
pub fn defaults_as_preset(d: &EncoderDefaults) -> (r: Preset)
    ensures
        r@.name.len() == 0,
        r@.operation.len() == 0,
        r@.description.len() == 0,
        r@.params == default_params(*d),
{
    let mut params: Vec<(String, ParamValue)> = Vec::new();
    params.push(
        (copy_text("video_codec"), ParamValue::Text(copy_text(d.video_codec.as_str()))),
    );
    params.push((copy_text("crf"), ParamValue::Int(d.crf)));
    params.push((copy_text("preset"), ParamValue::Text(copy_text(d.preset.as_str()))));
    params.push(
        (copy_text("audio_codec"), ParamValue::Text(copy_text(d.audio_codec.as_str()))),
    );
    params.push(
        (copy_text("audio_bitrate"), ParamValue::Text(copy_text(d.audio_bitrate.as_str()))),
    );
    let r = Preset {
        name: String::new(),
        operation: String::new(),
        description: String::new(),
        params,
    };
    assert(r@.params =~= default_params(*d));
    r
}

/// A row with its output moved to a directory, under the same file name.
pub open spec fn moved_row(r: Row, dir: Seq<char>) -> Row {
    match r.control {
        Control::Text { buffer } => if r.id == "output"@ && file_name(buffer.text) is Some {
            let path = joined_path(dir, file_name(buffer.text)->0);
            Row { control: Control::Text { buffer: fresh_buffer(path) }, ..r }
        } else {
            r
        },
        _ => r,
    }
}

/// Rows with the output moved to a directory; an empty one leaves it beside the
/// input.
pub open spec fn moved_rows(v: Seq<Row>, dir: Seq<char>) -> Seq<Row> {
    if dir.len() == 0 {
        v
    } else {
        v.map_values(|r: Row| moved_row(r, dir))
    }
}

/// Moves the output of a form to a directory.
pub fn rewrite_output_dir(fields: &mut Vec<Field>, output_dir: &str)
    ensures
        rows(final(fields)@) == moved_rows(rows(old(fields)@), output_dir@),
{
    let ghost v = rows(fields@);
    if output_dir.is_empty() {
        return;
    }
    let n: usize = fields.len();
    let mut i: usize = 0;
    while i < n
        invariant
            i <= n,
            n == v.len(),
            fields@.len() == n,
            forall|k: int| 0 <= k < i ==> #[trigger] fields@[k]@ == moved_row(v[k], output_dir@),
            forall|k: int| i <= k < n ==> #[trigger] fields@[k]@ == v[k],
        decreases n - i,
    {
        assert(fields@[i as int]@ == v[i as int]);
        if same(fields[i].id, "output") {
            let field = &mut fields[i];
            if let FieldKind::Text { value } = &mut field.kind {
                if let Some(name) = get_file_name(input_value(value)) {
                    *value = new_input(join_path(output_dir, name.as_str()));
                }
            }
        }
        i = i + 1;
    }
    assert(rows(fields@) =~= moved_rows(v, output_dir@));
}

/// The rows that a form opens with: the operation's own, with the configured
/// encoder settings, the preset that waits, and the configured directory
/// applied in turn.
pub open spec fn opening_rows(a: App) -> Seq<Row> {
    let op = registry()[a.selected_operation as int];
    let v = applied_rows(op.form(first_ready(a), a.caps), default_params(a.settings.defaults));
    let w = match a.pending_preset {
        Some(p) => applied_rows(v, p@.params),
        None => v,
    };
    moved_rows(w, a.settings.general.default_output_dir@)
}

/// Whether a form is a new one of an operation, with the command that its rows
/// give.
pub open spec fn is_new_form(
    f: ParamForm,
    op: AnyOperation,
    v: Seq<Row>,
    outcome: Result<Command, Seq<char>>,
) -> bool {
    &&& f.op_id@ == op.about().id
    &&& rows(f.fields@) == v
    &&& f.focus == 0
    &&& f.changed is None
    &&& !f.focus_cmd
    &&& f.cmd_scroll == 0
    &&& !f.editing
    &&& !f.edit_select_all
    &&& match outcome {
        Ok(c) => f.build_error is None && (f.preview matches Some(spec) && spec@ == c),
        Err(message) => f.preview is None && opt_text(f.build_error) == Some(message),
    }
}

/// Whether the form of the highlighted operation was opened: new, with its rows
/// set, and its command built again.
pub open spec fn form_opened(before: App, after: App, now: Duration, temp: Seq<char>) -> bool {
    let op = registry()[before.selected_operation as int];
    let v0 = op.form(first_ready(before), before.caps);
    let v = opening_rows(before);
    &&& after == (App {
        form: after.form,
        pending_preset: None,
        status_message: after.status_message,
        ..before
    })
    &&& match before.pending_preset {
        Some(p) => opt_text(after.status_message) == Some("Preset '"@ + p@.name + "' applied."@),
        None => after.status_message == before.status_message,
    }
    &&& after.form is Some
    &&& rows(after.form->0.fields@) == v
    &&& exists|f0: ParamForm, c0: BuildContext, c1: BuildContext|
        #![trigger is_new_form(f0, op, v0, op.command(c0)), op.command(c1)]
        {
            &&& app_context(c0, before, temp, v0)
            &&& is_new_form(f0, op, v0, op.command(c0))
            &&& app_context(c1, before, temp, v)
            &&& rebuilt(
                ParamForm { fields: after.form->0.fields, ..f0 },
                after.form->0,
                op.command(c1),
                now,
            )
        }
}

proof fn lemma_applied_steady(v: Seq<Row>, preset: Seq<(Seq<char>, Param)>)
    requires
        all_steady(v),
    ensures
        all_steady(applied_rows(v, preset)),
{
    let w = applied_rows(v, preset);
    assert forall|i: int| 0 <= i < w.len() implies steady((#[trigger] w[i]).control) by {
        assert(w[i] == applied_row(v[i], preset));
        assert(steady(v[i].control));
        if let Some(p) = param_for(preset, v[i].id) {
            law_presets_keep_order(v[i].control, p);
        }
    }
}

proof fn lemma_moved_steady(v: Seq<Row>, dir: Seq<char>)
    requires
        all_steady(v),
    ensures
        all_steady(moved_rows(v, dir)),
{
    let w = moved_rows(v, dir);
    assert forall|i: int| 0 <= i < w.len() implies steady((#[trigger] w[i]).control) by {
        assert(steady(v[i].control));
    }
}

proof fn lemma_steady_fields(fields: Seq<Field>)
    requires
        all_steady(rows(fields)),
    ensures
        forall|i: int|
            0 <= i < fields.len() ==> (#[trigger] fields[i]@.control matches Control::Slider {
                min,
                max,
                ..
            } ==> min <= max),
{
    assert forall|i: int| 0 <= i < fields.len() implies (
    #[trigger] fields[i]@.control matches Control::Slider { min, max, .. } ==> min <= max) by {
        assert(steady(rows(fields)[i].control));
    }
}

impl App {
    /// Opens the form of the highlighted operation.
    pub fn open_form(&mut self, now: Duration, temp_dir: &str)
        requires
            old(self).wf(),
        ensures
            final(self).wf(),
            form_opened(*old(self), *final(self), now, temp_dir@),
    {
        let ghost before = *self;
        let ghost sel = self.selected_operation as int;
        let meta = self.selected_operation_meta();
        proof {
            law_ids_resolve(sel);
        }
        let op = match operation_for(meta.id) {
            Some(op) => op,
            None => {
                return;
            },
        };
        let ghost v0 = op.form(first_ready(before), before.caps);
        let facts = FormFacts {
            inputs: self.form_inputs.as_slice(),
            probe: self.first_input_probe(),
            input_probes: self.all_input_probes(),
            caps: self.caps.as_ref(),
            temp_dir,
            now,
        };
        let mut form = ParamForm::new(&op, facts);
        let ghost f0 = form;
        let ghost c0 = choose|ctx: BuildContext|
            crate::ui::screens::parameter_form::form_context(ctx, facts, rows(f0.fields@))
                && match #[trigger] op.command(ctx) {
                Ok(c) => f0.build_error is None && (f0.preview matches Some(spec) && spec@ == c),
                Err(message) => f0.preview is None && opt_text(f0.build_error) == Some(message),
            };
        proof {
            assert(rows(f0.fields@) == v0);
            assert(app_context(c0, before, temp_dir@, v0));
            assert(is_new_form(f0, op, v0, op.command(c0)));
            lemma_steady_fields(form.fields@);
        }
        let defaults = defaults_as_preset(&self.settings.defaults);
        apply_preset(&mut form.fields, &defaults);
        proof {
            lemma_applied_steady(v0, defaults@.params);
            lemma_steady_fields(form.fields@);
        }
        if let Some(preset) = self.pending_preset.take() {
            let ghost v1 = rows(form.fields@);
            apply_preset(&mut form.fields, &preset);
            proof {
                lemma_applied_steady(v1, preset@.params);
            }
            self.status_message = Some(join3("Preset '", preset.name.as_str(), "' applied."));
        }
        let ghost v2 = rows(form.fields@);
        rewrite_output_dir(
            &mut form.fields,
            self.settings.general.default_output_dir.as_str(),
        );
        proof {
            lemma_moved_steady(v2, before.settings.general.default_output_dir@);
            assert(rows(form.fields@) == opening_rows(before));
        }
        let ghost f1 = form;
        self.form = Some(form);
        let ghost mid = *self;
        self.rebuild_form(now, temp_dir);
        proof {
            assert(op.about() == menu()[sel]);
            assert(f1.op_id@ == menu()[sel].id);
            let after = self.form->0;
            let c1 = choose|ctx: BuildContext|
                app_context(ctx, mid, temp_dir@, rows(f1.fields@)) && rebuilt(
                    f1,
                    after,
                    #[trigger] op.command(ctx),
                    now,
                );
            assert(app_context(c1, before, temp_dir@, opening_rows(before)));
            assert(f1 == (ParamForm { fields: after.fields, ..f0 }));
            assert(is_new_form(f0, op, v0, op.command(c0)) && rebuilt(
                ParamForm { fields: after.fields, ..f0 },
                after,
                op.command(c1),
                now,
            ));
        }
    }
}

// ---------------------------------------------------------------------------
// Copying
// ---------------------------------------------------------------------------

/// Whether the command of the form is copied, and nothing else done; without a
/// command the status line says so.
pub open spec fn command_copied(before: App, after: App, d: Seq<Deed>) -> bool {
    match before.form {
        Some(f) => match f.preview {
            Some(spec) => {
                &&& after == before
                &&& d == seq![Deed::Copy(displayed(spec@), CopyFor::Command)]
            },
            None => nothing_copied(before, after, d),
        },
        None => nothing_copied(before, after, d),
    }
}

/// Whether the status line says that there is nothing to copy.
pub open spec fn nothing_copied(before: App, after: App, d: Seq<Deed>) -> bool {
    &&& after == (App { status_message: after.status_message, ..before })
    &&& opt_text(after.status_message) == Some("Nothing to copy yet."@)
    &&& d == Seq::<Deed>::empty()
}

impl App {
    /// Copies the command of the form.
    pub fn copy_command(&mut self) -> (r: Vec<Effect>)
        ensures
            command_copied(*old(self), *final(self), deeds(r@)),
    {
        if let Some(form) = &self.form {
            if let Some(spec) = &form.preview {
                return one_effect(Effect::Copy { text: spec.to_display(), what: CopyFor::Command });
            }
        }
        self.status_message = Some(copy_text("Nothing to copy yet."));
        no_effects()
    }

    /// Takes in what came of copying.
    pub fn on_copied(&mut self, what: CopyFor, result: Result<(), String>)
        ensures
            *final(self) == (App { status_message: final(self).status_message, ..*old(self) }),
            opt_text(final(self).status_message) == Some(
                match result {
                    Ok(()) => match what {
                        CopyFor::Command => "Command copied to clipboard."@,
                        CopyFor::Report => "Error report copied."@,
                    },
                    Err(message) => message@,
                },
            ),
    {
        self.status_message = Some(
            match result {
                Ok(()) => match what {
                    CopyFor::Command => copy_text("Command copied to clipboard."),
                    CopyFor::Report => copy_text("Error report copied."),
                },
                Err(message) => message,
            },
        );
    }
}

} // verus!
