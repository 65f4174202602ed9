//! The parameter form and the live preview of its command.

use vstd::prelude::*;
use crate::ffmpeg::builder::{Command, CommandSpec};
use crate::ffmpeg::capabilities::CapabilityReport;
use crate::ffmpeg::probe::ProbeResult;
use crate::key::{buffer, edit, fresh_buffer, new_input, pressed, KeyCode, KeyEvent, ALL_MODIFIERS};
use crate::ops::fields::{
    adjusted, all_steady, collect_values, entries, law_adjusting_keeps_order, row_values, rows,
    steady, value_of, BuildContext, Control, Field, FieldContext, FieldKind, FieldValue, Row, Value,
};
use crate::ops::parts::{caps_of, probe_of};
use crate::ops::{law_forms_are_sound, AnyOperation, Operation};
use crate::text::{chars_of, copy_text, join3, opt_text, same, texts};
use crate::time::Duration;
use crate::ui::screens::popups::{step_down, stepped_down};

verus! {

/// How long a changed part of the command is highlighted, in nanoseconds.
pub const HIGHLIGHT: u128 = 400_000_000;

/// What a key press means.
#[derive(Debug, Clone, Copy, PartialEq, Eq, Structural)]
pub enum FormAction {
    /// Nothing.
    Nothing,
    /// Leave the form.
    Back,
    /// A value changed, and the command is to be built again.
    Changed,
    /// Run the command.
    Run,
}

/// The form of one operation.
#[derive(Debug)]
pub struct ParamForm {
    /// Operation id.
    pub op_id: String,
    /// The fields, in order.
    pub fields: Vec<Field>,
    /// The focused field.
    pub focus: usize,
    /// The command, when one could be built.
    pub preview: Option<CommandSpec>,
    /// Why none could be built.
    pub build_error: Option<String>,
    /// The part of the command that changed last, and when.
    pub changed: Option<(String, Duration)>,
    /// Whether the command has the focus in place of the fields.
    pub focus_cmd: bool,
    /// How far the command is scrolled.
    pub cmd_scroll: usize,
    /// Whether a text field is being edited.
    pub editing: bool,
    /// Whether the next character replaces the whole text.
    pub edit_select_all: bool,
}

/// What a command is built from besides the form.
pub struct FormFacts<'a> {
    pub inputs: &'a [String],
    pub probe: Option<&'a ProbeResult>,
    pub input_probes: Vec<&'a ProbeResult>,
    pub caps: Option<&'a CapabilityReport>,
    pub temp_dir: &'a str,
    pub now: Duration,
}

/// The text of the first output row: none when there is no such row, and an
/// empty text when its value is no text.
pub open spec fn output_of(v: Seq<Row>) -> Option<Seq<char>>
    decreases v.len(),
{
    if v.len() == 0 {
        None
    } else if v[0].id == "output"@ {
        Some(
            match value_of(v[0].control) {
                Value::Text(s) => s,
                _ => Seq::empty(),
            },
        )
    } else {
        output_of(v.skip(1))
    }
}

/// Finds the output that a form names.
#[verifier::loop_isolation(false)]
pub fn form_output(fields: &Vec<Field>) -> (r: Option<String>)
    ensures
        opt_text(r) == output_of(rows(fields@)),
{
    let ghost v = rows(fields@);
    let mut i: usize = 0;
    assert(v.skip(0) =~= v);
    while i < fields.len()
        invariant
            i <= fields@.len(),
            output_of(v) == output_of(v.skip(i as int)),
        decreases fields@.len() - i,
    {
        assert(v.skip(i as int)[0] == fields@[i as int]@);
        assert(v.skip(i as int).skip(1) =~= v.skip(i + 1));
        if same(fields[i].id, "output") {
            return Some(
                match fields[i].value() {
                    FieldValue::Text(s) => s,
                    _ => String::new(),
                },
            );
        }
        i = i + 1;
    }
    None
}

/// Whether a context is that of a form with the given rows.
pub open spec fn form_context(ctx: BuildContext, facts: FormFacts, v: Seq<Row>) -> bool {
    &&& ctx.inputs@ == facts.inputs@
    &&& ctx.output_text() == output_of(v)
    &&& ctx.probe == facts.probe
    &&& ctx.input_probes@ == facts.input_probes@
    &&& ctx.clips@.len() == 0
    &&& ctx.caps == facts.caps
    &&& entries(ctx.fields@) == row_values(v)
    &&& ctx.temp_dir@ == facts.temp_dir@
}

// ---------------------------------------------------------------------------
// What changed
// ---------------------------------------------------------------------------

/// The first place where two sequences differ, or the length of the shorter.
pub open spec fn first_difference(a: Seq<Seq<char>>, b: Seq<Seq<char>>) -> int
    decreases a.len(),
{
    if a.len() == 0 || b.len() == 0 || a[0] != b[0] {
        0
    } else {
        1 + first_difference(a.skip(1), b.skip(1))
    }
}

/// Whether a text begins with a dash.
pub open spec fn dashed(s: Seq<char>) -> bool {
    s.len() > 0 && s[0] == '-'
}

/// The part of a command that changed: the first new argument, with the flag
/// before it when it is that flag's value. Nothing when the commands are the
/// same, or the new one is the beginning of the old.
pub open spec fn difference(before: Seq<Seq<char>>, after: Seq<Seq<char>>) -> Option<Seq<char>> {
    let i = first_difference(before, after);
    if i >= after.len() {
        None
    } else if !dashed(after[i]) && i > 0 && dashed(after[i - 1]) {
        Some(after[i - 1] + " "@ + after[i])
    } else {
        Some(after[i])
    }
}

proof fn lemma_first_difference(a: Seq<Seq<char>>, b: Seq<Seq<char>>, i: int)
    requires
        0 <= i <= a.len(),
        i <= b.len(),
        forall|j: int| 0 <= j < i ==> #[trigger] a[j] == b[j],
        i == a.len() || i == b.len() || a[i] != b[i],
    ensures
        first_difference(a, b) == i,
    decreases a.len(),
{
    if i > 0 {
        assert(a[0] == b[0]);
        assert forall|j: int| 0 <= j < i - 1 implies #[trigger] a.skip(1)[j] == b.skip(1)[j] by {
            assert(a.skip(1)[j] == a[j + 1]);
        }
        lemma_first_difference(a.skip(1), b.skip(1), i - 1);
    }
}

/// Tests whether a text begins with a dash.
fn is_dashed(s: &str) -> (r: bool)
    ensures
        r == dashed(s@),
{
    let x = chars_of(s);
    x.len() > 0 && x[0] == '-'
}

/// Finds the part of a command that changed.
#[verifier::loop_isolation(false)]
pub fn diff_token(old_args: &[String], new_args: &[String]) -> (r: Option<String>)
    ensures
        opt_text(r) == difference(texts(old_args@), texts(new_args@)),
{
    let ghost a = texts(old_args@);
    let ghost b = texts(new_args@);
    let mut i: usize = 0;
    while i < old_args.len() && i < new_args.len() && same(
        old_args[i].as_str(),
        new_args[i].as_str(),
    )
        invariant
            i <= old_args@.len(),
            i <= new_args@.len(),
            a == texts(old_args@),
            b == texts(new_args@),
            forall|j: int| 0 <= j < i ==> #[trigger] a[j] == b[j],
        decreases old_args@.len() - i,
    {
        assert(a[i as int] == b[i as int]);
        i = i + 1;
    }
    proof {
        if i < old_args@.len() && i < new_args@.len() {
            assert(a[i as int] == old_args@[i as int]@);
            assert(b[i as int] == new_args@[i as int]@);
        }
        lemma_first_difference(a, b, i as int);
    }
    if i >= new_args.len() {
        return None;
    }
    let token = new_args[i].as_str();
    assert(b[i as int] == token@);
    if !is_dashed(token) && i > 0 {
        let flag = new_args[i - 1].as_str();
        assert(b[i - 1] == flag@);
        if is_dashed(flag) {
            return Some(join3(flag, " ", token));
        }
    }
    Some(copy_text(token))
}

/// A command that stays the same highlights nothing.
pub proof fn law_no_change_no_highlight(args: Seq<Seq<char>>)
    ensures
        difference(args, args) is None,
{
    lemma_first_difference(args, args, args.len() as int);
}

// ---------------------------------------------------------------------------
// Building the command
// ---------------------------------------------------------------------------

/// What building a command makes of a form: a command takes the place of the
/// one before, with the part that changed; a failure leaves no command.
pub open spec fn rebuilt(
    before: ParamForm,
    after: ParamForm,
    outcome: Result<Command, Seq<char>>,
    now: Duration,
) -> bool {
    match outcome {
        Ok(c) => {
            &&& after.preview matches Some(spec) && spec@ == c
            &&& after == (ParamForm {
                preview: after.preview,
                build_error: None,
                cmd_scroll: 0,
                changed: after.changed,
                ..before
            })
            &&& match before.preview {
                Some(spec) => match difference(spec@.args, c.args) {
                    Some(token) => after.changed matches Some((t, at)) && t@ == token && at == now,
                    None => after.changed == before.changed,
                },
                None => after.changed == before.changed,
            }
        },
        Err(message) => {
            &&& opt_text(after.build_error) == Some(message)
            &&& after == (ParamForm { preview: None, build_error: after.build_error, ..before })
        },
    }
}

impl ParamForm {
    /// Every row can be stepped through its whole range.
    pub open spec fn wf(&self) -> bool {
        all_steady(rows(self.fields@))
    }

    /// A form with the operation's defaults and the command they give.
    pub fn new(op: &AnyOperation, facts: FormFacts) -> (r: Self)
        ensures
            r.wf(),
            r.op_id@ == op.about().id,
            rows(r.fields@) == op.form(probe_of(facts.probe), caps_of(facts.caps)),
            r.focus == 0,
            r.changed is None,
            !r.focus_cmd,
            r.cmd_scroll == 0,
            !r.editing,
            !r.edit_select_all,
            exists|ctx: BuildContext|
                form_context(ctx, facts, rows(r.fields@)) && match #[trigger] op.command(ctx) {
                    Ok(c) => r.build_error is None && (r.preview matches Some(spec) && spec@ == c),
                    Err(message) => r.preview is None && opt_text(r.build_error) == Some(message),
                },
    {
        let fields = op.fields(&FieldContext { probe: facts.probe, caps: facts.caps });
        proof {
            law_forms_are_sound(*op, probe_of(facts.probe), caps_of(facts.caps));
        }
        let mut form = ParamForm {
            op_id: copy_text(op.meta().id),
            fields,
            focus: 0,
            preview: None,
            build_error: None,
            changed: None,
            focus_cmd: false,
            cmd_scroll: 0,
            editing: false,
            edit_select_all: false,
        };
        form.rebuild(op, facts);
        form
    }

    /// Builds the command again from the current values.
    pub fn rebuild(&mut self, op: &AnyOperation, facts: FormFacts)
        ensures
            exists|ctx: BuildContext|
                form_context(ctx, facts, rows(old(self).fields@)) && rebuilt(
                    *old(self),
                    *final(self),
                    #[trigger] op.command(ctx),
                    facts.now,
                ),
            final(self).fields == old(self).fields,
    {
        let output = form_output(&self.fields);
        let now = facts.now;
        let ctx = BuildContext {
            inputs: facts.inputs,
            output: output.as_ref(),
            probe: facts.probe,
            input_probes: facts.input_probes,
            clips: Vec::new(),
            caps: facts.caps,
            fields: collect_values(self.fields.as_slice()),
            temp_dir: facts.temp_dir,
        };
        assert(form_context(ctx, facts, rows(self.fields@)));
        match op.build(&ctx) {
            Ok(spec) => {
                if let Some(previous) = &self.preview {
                    if let Some(token) = diff_token(
                        previous.args.as_slice(),
                        spec.args.as_slice(),
                    ) {
                        self.changed = Some((token, now));
                    }
                }
                self.preview = Some(spec);
                self.build_error = None;
                self.cmd_scroll = 0;
            },
            Err(e) => {
                self.preview = None;
                self.build_error = Some(e.message);
            },
        }
        assert(rebuilt(*old(self), *self, op.command(ctx), facts.now));
    }

    /// The focused field.
    pub fn focused(&self) -> (r: Option<&Field>)
        ensures
            match r {
                Some(f) => self.focus < self.fields@.len() && *f == self.fields@[self.focus as int],
                None => self.focus >= self.fields@.len(),
            },
    {
        if self.focus < self.fields.len() {
            Some(&self.fields[self.focus])
        } else {
            None
        }
    }
}

// ---------------------------------------------------------------------------
// Keys
// ---------------------------------------------------------------------------

/// Whether a key press edits a row of text as it should: Enter and Esc end the
/// editing; on a text that is selected as a whole a character replaces it and
/// Backspace or Delete clears it; everything else edits the text.
pub open spec fn text_typed(before: Row, select_all: bool, key: KeyEvent, after: Row) -> bool {
    match key.code {
        KeyCode::Enter => after == before,
        KeyCode::Esc => after == before,
        _ => match before.control {
            Control::Text { buffer } => after == (Row {
                control: Control::Text {
                    buffer: if replaces(select_all, key) {
                        fresh_buffer(replacement(key.code))
                    } else {
                        pressed(buffer, key)
                    },
                },
                ..before
            }),
            _ => after == before,
        },
    }
}

/// Whether a key press replaces the whole text.
pub open spec fn replaces(select_all: bool, key: KeyEvent) -> bool {
    select_all && match key.code {
        KeyCode::Char(_) => key.modifiers == 0,
        KeyCode::Backspace => true,
        KeyCode::Delete => true,
        _ => false,
    }
}

/// What the whole text is replaced by.
pub open spec fn replacement(code: KeyCode) -> Seq<char> {
    match code {
        KeyCode::Char(c) => seq![c],
        _ => Seq::empty(),
    }
}

/// Takes in a key press while a row is edited; says whether the command is to
/// be built again.
pub fn handle_text_edit(
    field: &mut Field,
    editing: &mut bool,
    select_all: &mut bool,
    key: KeyEvent,
) -> (r: bool)
    requires
        key.modifiers <= ALL_MODIFIERS,
    ensures
        text_typed(old(field)@, *old(select_all), key, final(field)@),
        final(field).id == old(field).id,
        *final(editing) == (*old(editing) && key.code != KeyCode::Enter && key.code
            != KeyCode::Esc),
        !*final(select_all),
        r == (old(field)@.control is Text && key.code != KeyCode::Enter && key.code
            != KeyCode::Esc),
{
    let selected = *select_all;
    *select_all = false;
    match key.code {
        KeyCode::Enter | KeyCode::Esc => {
            *editing = false;
            false
        },
        _ => {
            if let FieldKind::Text { value } = &mut field.kind {
                match key.code {
                    KeyCode::Char(c) if selected && key.modifiers == 0 => {
                        let mut text = String::new();
                        text.push(c);
                        assert(text@ =~= seq![c]);
                        *value = new_input(text);
                    },
                    KeyCode::Backspace if selected => {
                        *value = new_input(String::new());
                    },
                    KeyCode::Delete if selected => {
                        *value = new_input(String::new());
                    },
                    _ => edit(value, key),
                }
                true
            } else {
                false
            }
        },
    }
}

/// What a key press makes of a form while no text is edited.
pub open spec fn form_keyed(before: ParamForm, key: KeyEvent, after: ParamForm) -> bool {
    match key.code {
        KeyCode::Up => after == form_moved(before, false),
        KeyCode::Char('k') => after == form_moved(before, false),
        KeyCode::Down => after == form_moved(before, true),
        KeyCode::Char('j') => after == form_moved(before, true),
        KeyCode::Left => form_adjusted(before, -1, after),
        KeyCode::Char('h') => form_adjusted(before, -1, after),
        KeyCode::Right => form_adjusted(before, 1, after),
        KeyCode::Char('l') => form_adjusted(before, 1, after),
        KeyCode::Tab => after == (ParamForm { focus_cmd: !before.focus_cmd, ..before }),
        KeyCode::BackTab => after == (ParamForm { focus_cmd: !before.focus_cmd, ..before }),
        KeyCode::Enter => if on_text(before) {
            after == (ParamForm {
                editing: true,
                edit_select_all: before.fields@[before.focus as int].id@ == "output"@,
                ..before
            })
        } else {
            after == before
        },
        _ => after == before,
    }
}

/// Whether the focused row is one of text.
pub open spec fn on_text(f: ParamForm) -> bool {
    f.focus < f.fields@.len() && f.fields@[f.focus as int]@.control is Text
}

/// A form with its focus, or its command, one line up or down.
pub open spec fn form_moved(f: ParamForm, down: bool) -> ParamForm {
    if f.focus_cmd {
        ParamForm {
            cmd_scroll: if down {
                if f.cmd_scroll < usize::MAX {
                    (f.cmd_scroll + 1) as usize
                } else {
                    usize::MAX
                }
            } else if f.cmd_scroll > 0 {
                (f.cmd_scroll - 1) as usize
            } else {
                0
            },
            ..f
        }
    } else {
        ParamForm {
            focus: if down {
                stepped_down(f.focus as int, f.fields@.len() as int) as usize
            } else if f.focus > 0 {
                (f.focus - 1) as usize
            } else {
                0
            },
            ..f
        }
    }
}

/// Whether a form's focused row was adjusted, and nothing else.
pub open spec fn form_adjusted(before: ParamForm, dir: int, after: ParamForm) -> bool {
    let v = rows(before.fields@);
    &&& after == (ParamForm { fields: after.fields, ..before })
    &&& rows(after.fields@) == (if before.focus < v.len() {
        let r = v[before.focus as int];
        v.update(before.focus as int, Row { control: adjusted(r.control, dir), ..r })
    } else {
        v
    })
}

/// What a key press means while no text is edited.
pub open spec fn form_means(f: ParamForm, code: KeyCode) -> FormAction {
    match code {
        KeyCode::Left => adjusts(f),
        KeyCode::Char('h') => adjusts(f),
        KeyCode::Right => adjusts(f),
        KeyCode::Char('l') => adjusts(f),
        KeyCode::Enter => if on_text(f) {
            FormAction::Nothing
        } else {
            FormAction::Run
        },
        KeyCode::Esc => FormAction::Back,
        _ => FormAction::Nothing,
    }
}

/// What adjusting means: a change, when there is a focused row.
pub open spec fn adjusts(f: ParamForm) -> FormAction {
    if f.focus < f.fields@.len() {
        FormAction::Changed
    } else {
        FormAction::Nothing
    }
}

/// What a key press makes of a form while a text is edited.
pub open spec fn form_edited(before: ParamForm, key: KeyEvent, after: ParamForm) -> bool {
    let v = rows(before.fields@);
    let w = rows(after.fields@);
    if before.focus < v.len() {
        &&& after == (ParamForm {
            fields: after.fields,
            editing: key.code != KeyCode::Enter && key.code != KeyCode::Esc,
            edit_select_all: false,
            ..before
        })
        &&& w.len() == v.len()
        &&& text_typed(
            v[before.focus as int],
            before.edit_select_all,
            key,
            w[before.focus as int],
        )
        &&& w == v.update(before.focus as int, w[before.focus as int])
    } else {
        after == (ParamForm { editing: false, edit_select_all: false, ..before })
    }
}

/// What a key press means while a text is edited.
pub open spec fn edit_means(f: ParamForm, code: KeyCode) -> FormAction {
    if on_text(f) && code != KeyCode::Enter && code != KeyCode::Esc {
        FormAction::Changed
    } else {
        FormAction::Nothing
    }
}

impl ParamForm {
    /// Adjusts the focused row.
    fn adjust(&mut self, forward: bool) -> (r: FormAction)
        requires
            old(self).wf(),
        ensures
            final(self).wf(),
            form_adjusted(
                *old(self),
                if forward {
                    1
                } else {
                    -1
                },
                *final(self),
            ),
            r == adjusts(*old(self)),
    {
        let ghost v = rows(self.fields@);
        let at: usize = self.focus;
        if at >= self.fields.len() {
            return FormAction::Nothing;
        }
        let ghost dir = if forward {
            1int
        } else {
            -1
        };
        proof {
            assert(v[at as int] == self.fields@[at as int]@);
            assert(steady(v[at as int].control));
            law_adjusting_keeps_order(v[at as int].control, dir);
        }
        let field = &mut self.fields[at];
        if forward {
            field.adjust_forward();
        } else {
            field.adjust_backward();
        }
        proof {
            let w = rows(self.fields@);
            let r = v[at as int];
            assert(w =~= v.update(at as int, Row { control: adjusted(r.control, dir), ..r }));
        }
        FormAction::Changed
    }

    /// Takes in a key press while a text is edited.
    fn on_key_editing(&mut self, key: KeyEvent) -> (r: FormAction)
        requires
            old(self).wf(),
            old(self).editing,
            key.modifiers <= ALL_MODIFIERS,
        ensures
            final(self).wf(),
            form_edited(*old(self), key, *final(self)),
            r == edit_means(*old(self), key.code),
    {
        let ghost v = rows(self.fields@);
        let at: usize = self.focus;
        if at >= self.fields.len() {
            self.editing = false;
            self.edit_select_all = false;
            return FormAction::Nothing;
        }
        assert(v[at as int] == self.fields@[at as int]@);
        let mut editing = self.editing;
        let mut select_all = self.edit_select_all;
        let field = &mut self.fields[at];
        let changed = handle_text_edit(field, &mut editing, &mut select_all, key);
        self.editing = editing;
        self.edit_select_all = select_all;
        proof {
            let w = rows(self.fields@);
            assert(w[at as int] == self.fields@[at as int]@);
            assert(w =~= v.update(at as int, w[at as int]));
            assert(steady(v[at as int].control));
            assert forall|i: int| 0 <= i < w.len() implies steady((#[trigger] w[i]).control) by {
                if i != at {
                    assert(w[i] == v[i]);
                }
            }
        }
        if changed {
            FormAction::Changed
        } else {
            FormAction::Nothing
        }
    }

    /// Takes in a key press.
    pub fn on_key(&mut self, key: KeyEvent) -> (r: FormAction)
        requires
            old(self).wf(),
            key.modifiers <= ALL_MODIFIERS,
        ensures
            final(self).wf(),
            !old(self).editing ==> form_keyed(*old(self), key, *final(self)) && r == form_means(
                *old(self),
                key.code,
            ),
            old(self).editing ==> form_edited(*old(self), key, *final(self)) && r == edit_means(
                *old(self),
                key.code,
            ),
    {
        if self.editing {
            return self.on_key_editing(key);
        }
        match key.code {
            KeyCode::Up | KeyCode::Char('k') => {
                if self.focus_cmd {
                    if self.cmd_scroll > 0 {
                        self.cmd_scroll = self.cmd_scroll - 1;
                    }
                } else if self.focus > 0 {
                    self.focus = self.focus - 1;
                }
                FormAction::Nothing
            },
            KeyCode::Down | KeyCode::Char('j') => {
                if self.focus_cmd {
                    if self.cmd_scroll < usize::MAX {
                        self.cmd_scroll = self.cmd_scroll + 1;
                    }
                } else {
                    self.focus = step_down(self.focus, self.fields.len());
                }
                FormAction::Nothing
            },
            KeyCode::Left | KeyCode::Char('h') => self.adjust(false),
            KeyCode::Right | KeyCode::Char('l') => self.adjust(true),
            KeyCode::Tab | KeyCode::BackTab => {
                self.focus_cmd = !self.focus_cmd;
                FormAction::Nothing
            },
            KeyCode::Enter => {
                if self.focus < self.fields.len() {
                    if let FieldKind::Text { .. } = &self.fields[self.focus].kind {
                        let whole = same(self.fields[self.focus].id, "output");
                        self.editing = true;
                        self.edit_select_all = whole;
                        return FormAction::Nothing;
                    }
                }
                FormAction::Run
            },
            KeyCode::Esc => FormAction::Back,
            _ => FormAction::Nothing,
        }
    }
}

/// What is highlighted is the first argument that changed, along with its flag
/// where it is a flag's value.
pub proof fn law_the_first_change_is_highlighted(
    common: Seq<Seq<char>>,
    old_arg: Seq<char>,
    before: Seq<Seq<char>>,
    new_arg: Seq<char>,
    after: Seq<Seq<char>>,
)
    requires
        old_arg != new_arg,
    ensures
        difference(common + seq![old_arg] + before, common + seq![new_arg] + after) == Some(
            if !dashed(new_arg) && common.len() > 0 && dashed(common.last()) {
                common.last() + " "@ + new_arg
            } else {
                new_arg
            },
        ),
{
    let a = common + seq![old_arg] + before;
    let b = common + seq![new_arg] + after;
    lemma_differs_at(common, old_arg, before, new_arg, after);
    assert(b[common.len() as int] == new_arg);
    if common.len() > 0 {
        assert(b[common.len() - 1] == common.last());
    }
}

proof fn lemma_differs_at(
    common: Seq<Seq<char>>,
    x: Seq<char>,
    a: Seq<Seq<char>>,
    y: Seq<char>,
    b: Seq<Seq<char>>,
)
    requires
        x != y,
    ensures
        first_difference(common + seq![x] + a, common + seq![y] + b) == common.len(),
    decreases common.len(),
{
    let s = common + seq![x] + a;
    let t = common + seq![y] + b;
    if common.len() > 0 {
        let rest = common.skip(1);
        lemma_differs_at(rest, x, a, y, b);
        assert(s.skip(1) =~= rest + seq![x] + a);
        assert(t.skip(1) =~= rest + seq![y] + b);
        assert(s[0] == common[0] && t[0] == common[0]);
    } else {
        assert(s[0] == x && t[0] == y);
    }
}

/// A key press changes no field but the one in focus, and none at all unless it
/// adjusts it or types into it.
pub proof fn law_only_the_focused_field_changes(
    before: ParamForm,
    key: KeyEvent,
    after: ParamForm,
    i: int,
)
    requires
        if before.editing {
            form_edited(before, key, after)
        } else {
            form_keyed(before, key, after)
        },
        0 <= i < before.fields@.len(),
    ensures
        after.fields@.len() == before.fields@.len(),
        i != before.focus ==> after.fields@[i]@ == before.fields@[i]@,
        after.fields@[i]@.id == before.fields@[i]@.id,
        !before.editing && (key.code == KeyCode::Up || key.code == KeyCode::Down || key.code
            == KeyCode::Tab || key.code == KeyCode::Enter || key.code == KeyCode::Esc)
            ==> after.fields@[i]@ == before.fields@[i]@,
        after.op_id == before.op_id,
{
    let v = rows(before.fields@);
    let w = rows(after.fields@);
    assert(w.len() == v.len());
    assert(w[i] == after.fields@[i]@);
    assert(v[i] == before.fields@[i]@);
}

/// Down goes to the next field and stays on the last; up goes to the one before
/// and stays on the first.
pub proof fn law_the_focus_moves_one_field(before: ParamForm, key: KeyEvent, after: ParamForm)
    requires
        !before.editing,
        !before.focus_cmd,
        before.focus < before.fields@.len() <= usize::MAX,
        form_keyed(before, key, after),
    ensures
        key.code == KeyCode::Down ==> after.focus == (if before.focus + 1 < before.fields@.len() {
            before.focus + 1
        } else {
            before.focus as int
        }),
        key.code == KeyCode::Up ==> after.focus == (if before.focus > 0 {
            before.focus - 1
        } else {
            0
        }),
        key.code != KeyCode::Down && key.code != KeyCode::Up && key.code != KeyCode::Char('j')
            && key.code != KeyCode::Char('k') ==> after.focus == before.focus,
{
}

/// The output is what its field says, wherever that field stands.
pub proof fn law_the_output_is_its_fields_text(v: Seq<Row>, i: int)
    requires
        0 <= i < v.len(),
        v[i].id == "output"@,
        forall|j: int| 0 <= j < i ==> (#[trigger] v[j]).id != "output"@,
    ensures
        v[i].control matches Control::Text { buffer } ==> output_of(v) == Some(buffer.text),
        output_of(v) is Some,
    decreases i,
{
    if i > 0 {
        assert(v[0].id != "output"@);
        let w = v.skip(1);
        assert forall|j: int| 0 <= j < i - 1 implies (#[trigger] w[j]).id != "output"@ by {
            assert(w[j] == v[j + 1]);
        }
        law_the_output_is_its_fields_text(w, i - 1);
    }
}

} // verus!
