//! The parameter form's model: what a field is, how it is adjusted, and what
//! value a command builder sees.

use vstd::prelude::*;
use crate::ffmpeg::builder::or_else;
use crate::ffmpeg::capabilities::CapabilityReport;
use crate::ffmpeg::probe::ProbeResult;
use crate::key::{buffer, fresh_buffer, input_value, new_input, Buffer};
use crate::text::{copy_text, opt_text, same};
use crate::time::Duration;

verus! {

/// One choice of a dropdown.
#[derive(Debug, Clone, PartialEq, Eq)]
pub struct SelectOption {
    /// Shown in the form.
    pub label: String,
    /// Passed to the builder.
    pub value: String,
    /// False when the FFmpeg build at hand lacks it.
    pub enabled: bool,
    /// Why it is disabled.
    pub disabled_reason: Option<String>,
}

/// What a choice says.
#[verifier::ext_equal]
pub struct Choice {
    pub label: Seq<char>,
    pub value: Seq<char>,
    pub enabled: bool,
    pub reason: Option<Seq<char>>,
}

impl Choice {
    /// An available choice.
    pub open spec fn of(label: Seq<char>, value: Seq<char>) -> Choice {
        Choice { label, value, enabled: true, reason: None }
    }
}

impl SelectOption {
    pub open spec fn view(&self) -> Choice {
        Choice {
            label: self.label@,
            value: self.value@,
            enabled: self.enabled,
            reason: opt_text(self.disabled_reason),
        }
    }

    /// An available choice with the same label and value.
    pub fn available(value: &str) -> (r: Self)
        ensures
            r@ == Choice::of(value@, value@),
    {
        SelectOption {
            label: copy_text(value),
            value: copy_text(value),
            enabled: true,
            disabled_reason: None,
        }
    }

    /// An available choice with a label of its own.
    pub fn labeled(label: &str, value: &str) -> (r: Self)
        ensures
            r@ == Choice::of(label@, value@),
    {
        SelectOption {
            label: copy_text(label),
            value: copy_text(value),
            enabled: true,
            disabled_reason: None,
        }
    }

    /// A choice that the build at hand cannot use. It is still shown, greyed
    /// out and with its reason.
    pub fn unavailable(label: &str, value: &str, reason: &str) -> (r: Self)
        ensures
            r@ == (Choice {
                label: label@,
                value: value@,
                enabled: false,
                reason: Some(reason@),
            }),
    {
        SelectOption {
            label: copy_text(label),
            value: copy_text(value),
            enabled: false,
            disabled_reason: Some(copy_text(reason)),
        }
    }
}

/// The views of choices.
pub open spec fn choices(v: Seq<SelectOption>) -> Seq<Choice> {
    v.map_values(|o: SelectOption| o@)
}

/// The control shown for a field.
#[derive(Debug)]
pub enum FieldKind {
    /// Dropdown; stepping skips disabled choices.
    Select {
        /// All choices; at least one should be enabled.
        options: Vec<SelectOption>,
        /// Index of the current choice.
        selected: usize,
    },
    /// Number in a range, with labelled landmarks.
    Slider {
        min: i64,
        max: i64,
        /// Current value, within the range.
        value: i64,
        /// Distance of one step.
        step: i64,
        /// Values and the labels drawn under them.
        landmarks: Vec<(i64, String)>,
        /// Caption under the bar.
        caption: Option<String>,
    },
    /// Switch between two choices.
    Toggle {
        options: [String; 2],
        /// Which one is active (0 or 1).
        selected: usize,
    },
    /// One line of text.
    Text { value: tui_input::Input },
}

/// What a control says.
#[verifier::ext_equal]
pub enum Control {
    Select { options: Seq<Choice>, selected: int },
    Slider {
        min: int,
        max: int,
        value: int,
        step: int,
        landmarks: Seq<(int, Seq<char>)>,
        caption: Option<Seq<char>>,
    },
    Toggle { first: Seq<char>, second: Seq<char>, selected: int },
    Text { buffer: Buffer },
}

/// The views of landmarks.
pub open spec fn marks(v: Seq<(i64, String)>) -> Seq<(int, Seq<char>)> {
    v.map_values(|m: (i64, String)| (m.0 as int, m.1@))
}

impl FieldKind {
    pub open spec fn view(&self) -> Control {
        match self {
            FieldKind::Select { options, selected } => Control::Select {
                options: choices(options@),
                selected: *selected as int,
            },
            FieldKind::Slider { min, max, value, step, landmarks, caption } => Control::Slider {
                min: *min as int,
                max: *max as int,
                value: *value as int,
                step: *step as int,
                landmarks: marks(landmarks@),
                caption: opt_text(*caption),
            },
            FieldKind::Toggle { options, selected } => Control::Toggle {
                first: options@[0]@,
                second: options@[1]@,
                selected: *selected as int,
            },
            FieldKind::Text { value } => Control::Text { buffer: buffer(*value) },
        }
    }
}

/// One row of the parameter form.
#[derive(Debug)]
pub struct Field {
    /// Stable id that builders read.
    pub id: &'static str,
    /// Row label.
    pub label: String,
    /// The control.
    pub kind: FieldKind,
    /// Plain-English text for the explanation pane.
    pub explanation: String,
}

/// What a field says.
#[verifier::ext_equal]
pub struct Row {
    pub id: Seq<char>,
    pub label: Seq<char>,
    pub control: Control,
    pub help: Seq<char>,
}

impl Field {
    pub open spec fn view(&self) -> Row {
        Row {
            id: self.id@,
            label: self.label@,
            control: self.kind@,
            help: self.explanation@,
        }
    }
}

/// The views of fields.
pub open spec fn rows(v: Seq<Field>) -> Seq<Row> {
    v.map_values(|f: Field| f@)
}

/// A dropdown row.
pub open spec fn select_row(
    id: Seq<char>,
    label: Seq<char>,
    options: Seq<Choice>,
    selected: int,
    help: Seq<char>,
) -> Row {
    Row { id, label, control: Control::Select { options, selected }, help }
}

/// A switch row.
pub open spec fn toggle_row(
    id: Seq<char>,
    label: Seq<char>,
    first: Seq<char>,
    second: Seq<char>,
    selected: int,
    help: Seq<char>,
) -> Row {
    Row { id, label, control: Control::Toggle { first, second, selected }, help }
}

/// A row of text, with the cursor at its end.
pub open spec fn text_row(
    id: Seq<char>,
    label: Seq<char>,
    text: Seq<char>,
    help: Seq<char>,
) -> Row {
    Row { id, label, control: Control::Text { buffer: fresh_buffer(text) }, help }
}

/// A slider row with steps of one and three landmarks.
pub open spec fn slider_row(
    id: Seq<char>,
    label: Seq<char>,
    range: (int, int, int),
    landmarks: Seq<(int, Seq<char>)>,
    caption: Seq<char>,
    help: Seq<char>,
) -> Row {
    Row {
        id,
        label,
        control: Control::Slider {
            min: range.0,
            value: range.1,
            max: range.2,
            step: 1,
            landmarks,
            caption: Some(caption),
        },
        help,
    }
}

impl Field {
    /// Makes a dropdown row.
    pub fn select(
        id: &'static str,
        label: &str,
        options: Vec<SelectOption>,
        selected: usize,
        help: &str,
    ) -> (r: Field)
        ensures
            r@ == select_row(id@, label@, choices(options@), selected as int, help@),
    {
        Field {
            id,
            label: copy_text(label),
            kind: FieldKind::Select { options, selected },
            explanation: copy_text(help),
        }
    }

    /// Makes a switch row.
    pub fn toggle(
        id: &'static str,
        label: &str,
        first: &str,
        second: &str,
        selected: usize,
        help: &str,
    ) -> (r: Field)
        ensures
            r@ == toggle_row(id@, label@, first@, second@, selected as int, help@),
    {
        Field {
            id,
            label: copy_text(label),
            kind: FieldKind::Toggle { options: [copy_text(first), copy_text(second)], selected },
            explanation: copy_text(help),
        }
    }

    /// Makes a row of text.
    pub fn text(id: &'static str, label: &str, text: &str, help: &str) -> (r: Field)
        ensures
            r@ == text_row(id@, label@, text@, help@),
    {
        Field {
            id,
            label: copy_text(label),
            kind: FieldKind::Text { value: new_input(copy_text(text)) },
            explanation: copy_text(help),
        }
    }

    /// Makes a slider row.
    pub fn slider(
        id: &'static str,
        label: &str,
        range: (i64, i64, i64),
        landmarks: Vec<(i64, String)>,
        caption: &str,
        help: &str,
    ) -> (r: Field)
        ensures
            r@ == slider_row(
                id@,
                label@,
                (range.0 as int, range.1 as int, range.2 as int),
                marks(landmarks@),
                caption@,
                help@,
            ),
    {
        Field {
            id,
            label: copy_text(label),
            kind: FieldKind::Slider {
                min: range.0,
                value: range.1,
                max: range.2,
                step: 1,
                landmarks,
                caption: Some(copy_text(caption)),
            },
            explanation: copy_text(help),
        }
    }
}

// ---------------------------------------------------------------------------
// Values
// ---------------------------------------------------------------------------

/// A field's current value, as builders see it.
#[derive(Debug, Clone, PartialEq, Eq)]
pub enum FieldValue {
    /// Chosen option or text contents.
    Text(String),
    /// Slider position.
    Int(i64),
    /// Switch index (0 or 1).
    Toggle(usize),
}

/// What a value says.
#[verifier::ext_equal]
pub enum Value {
    Text(Seq<char>),
    Int(int),
    Toggle(int),
}

impl FieldValue {
    pub open spec fn view(&self) -> Value {
        match self {
            FieldValue::Text(s) => Value::Text(s@),
            FieldValue::Int(n) => Value::Int(*n as int),
            FieldValue::Toggle(i) => Value::Toggle(*i as int),
        }
    }
}

/// The value of a control.
pub open spec fn value_of(c: Control) -> Value {
    match c {
        Control::Select { options, selected } => Value::Text(
            if 0 <= selected < options.len() {
                options[selected].value
            } else {
                Seq::empty()
            },
        ),
        Control::Slider { value, .. } => Value::Int(value),
        Control::Toggle { selected, .. } => Value::Toggle(selected),
        Control::Text { buffer } => Value::Text(buffer.text),
    }
}

/// Where stepping from `at` in direction `dir` first meets an enabled choice,
/// within `tries` steps round the list.
pub open spec fn next_enabled(v: Seq<Choice>, at: int, dir: int, tries: nat) -> Option<int>
    decreases tries,
{
    if tries == 0 {
        None
    } else {
        let next = (at + dir) % (v.len() as int);
        if v[next].enabled {
            Some(next)
        } else {
            next_enabled(v, next, dir, (tries - 1) as nat)
        }
    }
}

/// The choice after one step: the next enabled one round the list, or the same
/// when all are disabled.
pub open spec fn stepped(v: Seq<Choice>, at: int, dir: int) -> int {
    if v.len() == 0 {
        0
    } else {
        match next_enabled(v, at, dir, v.len()) {
            Some(i) => i,
            None => at,
        }
    }
}

/// Steps through choices, skipping disabled ones and wrapping round.
#[verifier::loop_isolation(false)]
pub fn step_option(options: &[SelectOption], current: usize, direction: i32) -> (r: usize)
    ensures
        r == stepped(choices(options@), current as int, direction as int),
        options@.len() > 0 && current < options@.len() ==> r < options@.len(),
{
    if options.len() == 0 {
        return 0;
    }
    let ghost v = choices(options@);
    let n: i128 = options.len() as i128;
    let mut next: i128 = current as i128;
    let mut tries: usize = options.len();
    while tries > 0
        invariant
            n == options@.len() == v.len(),
            v == choices(options@),
            0 < n <= usize::MAX,
            0 <= next <= usize::MAX,
            tries <= options@.len(),
            next_enabled(v, current as int, direction as int, v.len()) == next_enabled(
                v,
                next as int,
                direction as int,
                tries as nat,
            ),
        decreases tries,
    {
        let moved: i128 = next + direction as i128;
        let rem: i128 = if moved < 0 {
            let back: i128 = (-moved) % n;
            if back == 0 {
                0
            } else {
                n - back
            }
        } else {
            moved % n
        };
        proof {
            if moved < 0 {
                let back = (-moved) % n as int;
                lemma_negative_mod(moved as int, n as int);
            }
            assert(rem == (next + direction) % (v.len() as int));
            assert(0 <= rem < n);
        }
        let at: usize = rem as usize;
        assert(at == rem);
        assert(v[at as int] == options@[at as int]@);
        if options[at].enabled {
            return at;
        }
        next = rem;
        tries = tries - 1;
    }
    current
}

proof fn lemma_negative_mod(m: int, n: int)
    requires
        n > 0,
        m < 0,
    ensures
        m % n == (if (-m) % n == 0 {
            0
        } else {
            n - (-m) % n
        }),
{
    let q = (-m) / n;
    let b = (-m) % n;
    vstd::arithmetic::div_mod::lemma_fundamental_div_mod(-m, n);
    if b == 0 {
        assert(m == n * (-q) + 0) by (nonlinear_arith)
            requires
                -m == n * q + b,
                b == 0,
        ;
        vstd::arithmetic::div_mod::lemma_fundamental_div_mod_converse(m, n, -q, 0);
    } else {
        assert(m == n * (-q - 1) + (n - b)) by (nonlinear_arith)
            requires
                -m == n * q + b,
        ;
        vstd::arithmetic::div_mod::lemma_fundamental_div_mod_converse(m, n, -q - 1, n - b);
    }
}

/// What one step forward (`dir` 1) or backward (`dir` -1) makes of a control.
pub open spec fn adjusted(c: Control, dir: int) -> Control {
    match c {
        Control::Select { options, selected } => Control::Select {
            options,
            selected: stepped(options, selected, dir),
        },
        Control::Slider { min, max, value, step, landmarks, caption } => Control::Slider {
            min,
            max,
            value: if dir < 0 {
                if value - step < min {
                    min
                } else {
                    value - step
                }
            } else {
                if value + step > max {
                    max
                } else {
                    value + step
                }
            },
            step,
            landmarks,
            caption,
        },
        Control::Toggle { first, second, selected } => Control::Toggle {
            first,
            second,
            selected: 1 - selected,
        },
        Control::Text { .. } => c,
    }
}

/// Whether a control is in order: a choice that exists, a value within its
/// range from which a step stays within 64 bits, a switch at 0 or 1.
pub open spec fn in_order(c: Control) -> bool {
    match c {
        Control::Select { options, selected } => 0 <= selected && (options.len() > 0 ==> selected
            < options.len()),
        Control::Slider { min, max, value, step, .. } => min <= value <= max && 0 <= step && value
            + step <= i64::MAX && value - step >= i64::MIN,
        Control::Toggle { selected, .. } => selected == 0 || selected == 1,
        Control::Text { .. } => true,
    }
}

/// Whether a control is in order and stays so wherever its value moves within
/// its range.
pub open spec fn steady(c: Control) -> bool {
    &&& in_order(c)
    &&& c matches Control::Slider { min, max, step, .. } ==> min - step >= i64::MIN && max + step
        <= i64::MAX
}

/// Whether every row of a form is steady.
pub open spec fn all_steady(v: Seq<Row>) -> bool {
    forall|i: int| 0 <= i < v.len() ==> steady((#[trigger] v[i]).control)
}

impl Field {
    /// Current value for the builder.
    pub fn value(&self) -> (r: FieldValue)
        ensures
            r@ == value_of(self@.control),
    {
        match &self.kind {
            FieldKind::Select { options, selected } => {
                if *selected < options.len() {
                    assert(choices(options@)[*selected as int] == options@[*selected as int]@);
                    FieldValue::Text(copy_text(options[*selected].value.as_str()))
                } else {
                    FieldValue::Text(String::new())
                }
            },
            FieldKind::Slider { value, .. } => FieldValue::Int(*value),
            FieldKind::Toggle { selected, .. } => FieldValue::Toggle(*selected),
            FieldKind::Text { value } => FieldValue::Text(copy_text(input_value(value))),
        }
    }

    /// Steps the control backward, skipping disabled choices.
    pub fn adjust_backward(&mut self)
        requires
            in_order(old(self)@.control),
        ensures
            final(self)@ == (Row { control: adjusted(old(self)@.control, -1), ..old(self)@ }),
    {
        match &mut self.kind {
            FieldKind::Select { options, selected } => {
                *selected = step_option(options.as_slice(), *selected, -1);
            },
            FieldKind::Slider { min, value, step, .. } => {
                let next: i64 = *value - *step;
                *value = if next < *min {
                    *min
                } else {
                    next
                };
            },
            FieldKind::Toggle { selected, .. } => {
                *selected = 1 - *selected;
            },
            FieldKind::Text { .. } => {},
        }
    }

    /// Steps the control forward, skipping disabled choices.
    pub fn adjust_forward(&mut self)
        requires
            in_order(old(self)@.control),
        ensures
            final(self)@ == (Row { control: adjusted(old(self)@.control, 1), ..old(self)@ }),
    {
        match &mut self.kind {
            FieldKind::Select { options, selected } => {
                *selected = step_option(options.as_slice(), *selected, 1);
            },
            FieldKind::Slider { max, value, step, .. } => {
                let next: i64 = *value + *step;
                *value = if next > *max {
                    *max
                } else {
                    next
                };
            },
            FieldKind::Toggle { selected, .. } => {
                *selected = 1 - *selected;
            },
            FieldKind::Text { .. } => {},
        }
    }
}


// ---------------------------------------------------------------------------
// Choices and capabilities
// ---------------------------------------------------------------------------

/// Position of the first enabled choice, or the number of choices.
pub open spec fn first_enabled(v: Seq<Choice>) -> int
    decreases v.len(),
{
    if v.len() == 0 || v[0].enabled {
        0
    } else {
        1 + first_enabled(v.skip(1))
    }
}

proof fn lemma_first_enabled_bounds(v: Seq<Choice>)
    ensures
        0 <= first_enabled(v) <= v.len(),
    decreases v.len(),
{
    if v.len() > 0 && !v[0].enabled {
        lemma_first_enabled_bounds(v.skip(1));
    }
}

/// The choice selected at first exists.
pub broadcast proof fn lemma_default_choice(v: Seq<Choice>)
    ensures
        0 <= #[trigger] default_choice(v),
        v.len() > 0 ==> default_choice(v) < v.len(),
{
    lemma_first_enabled_bounds(v);
}

/// The choice selected at first: the first enabled one, or the first of all
/// when every one is disabled.
pub open spec fn default_choice(v: Seq<Choice>) -> int {
    if first_enabled(v) < v.len() {
        first_enabled(v)
    } else {
        0
    }
}

proof fn lemma_first_enabled(v: Seq<Choice>, i: int)
    requires
        0 <= i <= v.len(),
        forall|j: int| 0 <= j < i ==> !(#[trigger] v[j]).enabled,
        i < v.len() ==> v[i].enabled,
    ensures
        first_enabled(v) == i,
    decreases v.len(),
{
    if i > 0 {
        assert(!v[0].enabled);
        assert forall|j: int| 0 <= j < i - 1 implies !(#[trigger] v.skip(1)[j]).enabled by {
            assert(v.skip(1)[j] == v[j + 1]);
        }
        lemma_first_enabled(v.skip(1), i - 1);
    }
}

/// Index of the first enabled choice, or 0.
pub fn default_selected(options: &[SelectOption]) -> (r: usize)
    ensures
        r == default_choice(choices(options@)),
        options@.len() > 0 ==> r < options@.len(),
{
    let ghost v = choices(options@);
    let mut i: usize = 0;
    while i < options.len()
        invariant
            i <= options@.len(),
            v == choices(options@),
            forall|j: int| 0 <= j < i ==> !(#[trigger] v[j]).enabled,
        decreases options@.len() - i,
    {
        assert(v[i as int] == options@[i as int]@);
        if options[i].enabled {
            proof {
                lemma_first_enabled(v, i as int);
            }
            return i;
        }
        i = i + 1;
    }
    proof {
        lemma_first_enabled(v, i as int);
    }
    0
}

/// Position of the first choice with the given value, or the number of choices.
pub open spec fn first_valued(v: Seq<Choice>, value: Seq<char>) -> int
    decreases v.len(),
{
    if v.len() == 0 || v[0].value == value {
        0
    } else {
        1 + first_valued(v.skip(1), value)
    }
}

/// Choices with the one of the given value greyed out, when it is known that
/// the build lacks it.
pub open spec fn gated(v: Seq<Choice>, value: Seq<char>, available: bool, known: bool) -> Seq<
    Choice,
> {
    let i = first_valued(v, value);
    if available || !known || i >= v.len() {
        v
    } else {
        v.update(
            i,
            Choice {
                enabled: false,
                reason: Some("not available in your FFmpeg build"@),
                ..v[i]
            },
        )
    }
}

proof fn lemma_first_valued(v: Seq<Choice>, value: Seq<char>, i: int)
    requires
        0 <= i <= v.len(),
        forall|j: int| 0 <= j < i ==> (#[trigger] v[j]).value != value,
        i < v.len() ==> v[i].value == value,
    ensures
        first_valued(v, value) == i,
    decreases v.len(),
{
    if i > 0 {
        assert(v[0].value != value);
        assert forall|j: int| 0 <= j < i - 1 implies (#[trigger] v.skip(1)[j]).value != value by {
            assert(v.skip(1)[j] == v[j + 1]);
        }
        lemma_first_valued(v.skip(1), value, i - 1);
    }
}

/// Greys out the choice of the given value when the build is known to lack it.
#[verifier::loop_isolation(false)]
pub fn gate_by_capability(
    options: &mut Vec<SelectOption>,
    value: &str,
    available: bool,
    caps_known: bool,
)
    ensures
        choices(final(options)@) == gated(choices(old(options)@), value@, available, caps_known),
        final(options)@.len() == old(options)@.len(),
{
    if available || !caps_known {
        return;
    }
    let ghost v = choices(options@);
    let mut i: usize = 0;
    while i < options.len()
        invariant
            i <= options@.len(),
            v == choices(options@),
            forall|j: int| 0 <= j < i ==> (#[trigger] v[j]).value != value@,
        decreases options@.len() - i,
    {
        assert(v[i as int] == options@[i as int]@);
        if same(options[i].value.as_str(), value) {
            proof {
                lemma_first_valued(v, value@, i as int);
            }
            let off = SelectOption {
                label: copy_text(options[i].label.as_str()),
                value: copy_text(options[i].value.as_str()),
                enabled: false,
                disabled_reason: Some(copy_text("not available in your FFmpeg build")),
            };
            options.set(i, off);
            assert(choices(options@) =~= gated(v, value@, available, caps_known));
            return;
        }
        i = i + 1;
    }
    proof {
        lemma_first_valued(v, value@, i as int);
    }
}

// ---------------------------------------------------------------------------
// Contexts
// ---------------------------------------------------------------------------

/// What a form is made from: the probe of the first input and the build's
/// capabilities, as far as they are known.
pub struct FieldContext<'a> {
    pub probe: Option<&'a ProbeResult>,
    pub caps: Option<&'a CapabilityReport>,
}

/// A clip on the timeline: what lies from `start` up to `end` is kept.
#[derive(Debug, Clone, Copy, PartialEq, Eq, Structural)]
pub struct ClipRange {
    pub start: Duration,
    pub end: Duration,
}

impl ClipRange {
    /// The length of a clip; none when it ends before it starts.
    pub open spec fn length(self) -> nat {
        if self.end.nanos > self.start.nanos {
            (self.end.nanos - self.start.nanos) as nat
        } else {
            0
        }
    }

    /// Length, never negative.
    pub fn len(&self) -> (r: Duration)
        ensures
            r.nanos == self.length(),
    {
        if self.end.nanos > self.start.nanos {
            Duration { nanos: self.end.nanos - self.start.nanos }
        } else {
            Duration { nanos: 0 }
        }
    }
}

/// What a command is built from.
pub struct BuildContext<'a> {
    /// Selected input files.
    pub inputs: &'a [String],
    /// Output path that the user typed.
    pub output: Option<&'a String>,
    /// Probe of the first input.
    pub probe: Option<&'a ProbeResult>,
    /// Probes of all inputs in order; fewer than inputs while some are missing.
    pub input_probes: Vec<&'a ProbeResult>,
    /// Clips of the timeline; only trimming reads them.
    pub clips: Vec<ClipRange>,
    /// Session capabilities.
    pub caps: Option<&'a CapabilityReport>,
    /// Current field values by field id; of two values for one id the later counts.
    pub fields: Vec<(&'static str, FieldValue)>,
    /// Directory for list files.
    pub temp_dir: &'a str,
}

/// The views of field values.
pub open spec fn entries(v: Seq<(&'static str, FieldValue)>) -> Seq<(Seq<char>, Value)> {
    v.map_values(|e: (&'static str, FieldValue)| (e.0@, e.1@))
}

/// The last value for an id.
pub open spec fn lookup(v: Seq<(Seq<char>, Value)>, id: Seq<char>) -> Option<Value>
    decreases v.len(),
{
    if v.len() == 0 {
        None
    } else if v.last().0 == id {
        Some(v.last().1)
    } else {
        lookup(v.drop_last(), id)
    }
}

impl<'a> BuildContext<'a> {
    /// The value for an id.
    pub open spec fn at(self, id: Seq<char>) -> Option<Value> {
        lookup(entries(self.fields@), id)
    }

    /// The text for an id, or a default when it is missing or of another kind.
    pub open spec fn text_at(self, id: Seq<char>, default: Seq<char>) -> Seq<char> {
        match self.at(id) {
            Some(Value::Text(s)) => s,
            _ => default,
        }
    }

    /// The number for an id, or a default.
    pub open spec fn int_at(self, id: Seq<char>, default: int) -> int {
        match self.at(id) {
            Some(Value::Int(n)) => n,
            _ => default,
        }
    }

    /// The switch for an id, or a default.
    pub open spec fn toggle_at(self, id: Seq<char>, default: int) -> int {
        match self.at(id) {
            Some(Value::Toggle(i)) => i,
            _ => default,
        }
    }

    /// The FFmpeg binary: the resolved one, or `ffmpeg`.
    pub open spec fn program_text(self) -> Seq<char> {
        match self.caps {
            Some(caps) => or_else(opt_text(caps.ffmpeg_path), "ffmpeg"@),
            None => "ffmpeg"@,
        }
    }

    /// The output path that the user typed.
    pub open spec fn output_text(self) -> Option<Seq<char>> {
        match self.output {
            Some(p) => Some(p@),
            None => None,
        }
    }

    /// The probe of the first input.
    pub open spec fn probed(self) -> Option<ProbeResult> {
        match self.probe {
            Some(p) => Some(*p),
            None => None,
        }
    }

    /// Raw value for `id`.
    #[verifier::loop_isolation(false)]
    pub fn get(&self, id: &str) -> (r: Option<&FieldValue>)
        ensures
            match r {
                Some(v) => self.at(id@) == Some(v@),
                None => self.at(id@) is None,
            },
    {
        let ghost all = entries(self.fields@);
        let mut i: usize = self.fields.len();
        assert(all.take(i as int) =~= all);
        while i > 0
            invariant
                i <= self.fields@.len(),
                all == entries(self.fields@),
                lookup(all, id@) == lookup(all.take(i as int), id@),
            decreases i,
        {
            proof {
                assert(all.take(i as int).last() == all[i - 1]);
                assert(all.take(i as int).drop_last() =~= all.take(i - 1));
            }
            if same(self.fields[i - 1].0, id) {
                return Some(&self.fields[i - 1].1);
            }
            i = i - 1;
        }
        None
    }

    /// Text for `id`, or `default`.
    pub fn get_str(&self, id: &str, default: &str) -> (r: String)
        ensures
            r@ == self.text_at(id@, default@),
    {
        match self.get(id) {
            Some(FieldValue::Text(text)) => copy_text(text.as_str()),
            _ => copy_text(default),
        }
    }

    /// Number for `id`, or `default`.
    pub fn get_int(&self, id: &str, default: i64) -> (r: i64)
        ensures
            r == self.int_at(id@, default as int),
    {
        match self.get(id) {
            Some(FieldValue::Int(value)) => *value,
            _ => default,
        }
    }

    /// Switch for `id`, or `default`.
    pub fn get_toggle(&self, id: &str, default: usize) -> (r: usize)
        ensures
            r == self.toggle_at(id@, default as int),
    {
        match self.get(id) {
            Some(FieldValue::Toggle(selected)) => *selected,
            _ => default,
        }
    }

    /// First input.
    pub fn first_input(&self) -> (r: Option<&String>)
        ensures
            r is Some <==> self.inputs@.len() > 0,
            r matches Some(p) ==> *p == self.inputs@[0],
    {
        if self.inputs.len() > 0 {
            Some(&self.inputs[0])
        } else {
            None
        }
    }

    /// The FFmpeg binary to run.
    pub fn program(&self) -> (r: String)
        ensures
            r@ == self.program_text(),
    {
        match self.caps {
            Some(caps) => match &caps.ffmpeg_path {
                Some(p) => copy_text(p.as_str()),
                None => copy_text("ffmpeg"),
            },
            None => copy_text("ffmpeg"),
        }
    }
}

/// The values of a form's rows, by id.
pub open spec fn row_values(v: Seq<Row>) -> Seq<(Seq<char>, Value)> {
    v.map_values(|r: Row| (r.id, value_of(r.control)))
}

/// Collects the current values of a form.
pub fn collect_values(fields: &[Field]) -> (r: Vec<(&'static str, FieldValue)>)
    ensures
        entries(r@) == row_values(rows(fields@)),
{
    let mut out: Vec<(&'static str, FieldValue)> = Vec::new();
    let mut i: usize = 0;
    while i < fields.len()
        invariant
            i <= fields@.len(),
            out@.len() == i,
            forall|j: int|
                0 <= j < i ==> (#[trigger] out@[j]).0@ == fields@[j].id@ && out@[j].1@ == value_of(
                    fields@[j]@.control,
                ),
        decreases fields@.len() - i,
    {
        out.push((fields[i].id, fields[i].value()));
        i = i + 1;
    }
    assert(entries(out@) =~= row_values(rows(fields@)));
    out
}

// ---------------------------------------------------------------------------
// Laws
// ---------------------------------------------------------------------------

/// Which choice stands `k` steps away.
pub open spec fn round(at: int, dir: int, k: int, n: int) -> int {
    (at + dir * k) % n
}

proof fn lemma_round_step(at: int, dir: int, k: int, n: int)
    requires
        n > 0,
    ensures
        round((at + dir) % n, dir, k - 1, n) == round(at, dir, k, n),
{
    assert(dir * (k - 1) == dir * k - dir) by (nonlinear_arith);
    vstd::arithmetic::div_mod::lemma_add_mod_noop(at + dir, dir * (k - 1), n);
    vstd::arithmetic::div_mod::lemma_add_mod_noop((at + dir) % n, dir * (k - 1), n);
    vstd::arithmetic::div_mod::lemma_mod_twice(at + dir, n);
}

/// `next_enabled` is the nearest enabled choice.
proof fn lemma_next_is(v: Seq<Choice>, at: int, dir: int, tries: nat, k: int)
    requires
        v.len() > 0,
        1 <= k <= tries,
        v[round(at, dir, k, v.len() as int)].enabled,
        forall|m: int| 1 <= m < k ==> !v[#[trigger] round(at, dir, m, v.len() as int)].enabled,
    ensures
        next_enabled(v, at, dir, tries) == Some(round(at, dir, k, v.len() as int)),
    decreases tries,
{
    let n = v.len() as int;
    let next = (at + dir) % n;
    assert(dir * 1 == dir) by (nonlinear_arith);
    assert(round(at, dir, 1, n) == next);
    if k > 1 {
        assert(!v[round(at, dir, 1, n)].enabled);
        lemma_round_step(at, dir, k, n);
        assert forall|m: int| 1 <= m < k - 1 implies !v[#[trigger] round(next, dir, m, n)].enabled by {
            lemma_round_step(at, dir, m + 1, n);
            assert(!v[round(at, dir, m + 1, n)].enabled);
        }
        lemma_next_is(v, next, dir, (tries - 1) as nat, k - 1);
    }
}

/// The number of steps to the nearest enabled choice.
proof fn lemma_nearest(v: Seq<Choice>, at: int, dir: int, limit: int) -> (k: int)
    requires
        v.len() > 0,
        1 <= limit,
        v[round(at, dir, limit, v.len() as int)].enabled,
    ensures
        1 <= k <= limit,
        v[round(at, dir, k, v.len() as int)].enabled,
        forall|m: int| 1 <= m < k ==> !v[#[trigger] round(at, dir, m, v.len() as int)].enabled,
    decreases limit,
{
    if exists|m: int| 1 <= m < limit && v[#[trigger] round(at, dir, m, v.len() as int)].enabled {
        let m = choose|m: int|
            1 <= m < limit && v[#[trigger] round(at, dir, m, v.len() as int)].enabled;
        lemma_nearest(v, at, dir, m)
    } else {
        limit
    }
}

/// Stepping forward and then backward, or the other way round, returns to an
/// enabled choice, whatever disabled ones lie between.
pub proof fn law_steps_undo(v: Seq<Choice>, at: int, dir: int)
    requires
        0 <= at < v.len(),
        v[at].enabled,
        dir == 1 || dir == -1,
    ensures
        stepped(v, stepped(v, at, dir), -dir) == at,
{
    let n = v.len() as int;
    assert(round(at, dir, n, n) == at) by {
        if dir == 1 {
            assert(dir * n == n) by (nonlinear_arith)
                requires
                    dir == 1,
            ;
            vstd::arithmetic::div_mod::lemma_mod_add_multiples_vanish(at, n);
        } else {
            assert(dir * n == -n) by (nonlinear_arith)
                requires
                    dir == -1,
            ;
            vstd::arithmetic::div_mod::lemma_mod_sub_multiples_vanish(at, n);
        }
        vstd::arithmetic::div_mod::lemma_small_mod(at as nat, n as nat);
    }
    let k = lemma_nearest(v, at, dir, n);
    lemma_next_is(v, at, dir, n as nat, k);
    let j = stepped(v, at, dir);
    assert(j == round(at, dir, k, n));
    assert forall|m: int| 1 <= m <= k implies #[trigger] round(j, -dir, m, n) == round(
        at,
        dir,
        k - m,
        n,
    ) by {
        assert((-dir) * m == -(dir * m)) by (nonlinear_arith);
        assert(dir * (k - m) == dir * k - dir * m) by (nonlinear_arith);
        vstd::arithmetic::div_mod::lemma_add_mod_noop(at + dir * k, -(dir * m), n);
        vstd::arithmetic::div_mod::lemma_add_mod_noop((at + dir * k) % n, -(dir * m), n);
        vstd::arithmetic::div_mod::lemma_mod_twice(at + dir * k, n);
    }
    assert(round(at, dir, 0, n) == at) by {
        assert(dir * 0 == 0) by (nonlinear_arith);
        vstd::arithmetic::div_mod::lemma_small_mod(at as nat, n as nat);
    }
    assert(round(j, -dir, k, n) == at);
    lemma_next_is(v, j, -dir, n as nat, k);
}

/// Adjusting keeps every control steady, and lands on an enabled choice
/// whenever there is one.
pub proof fn law_adjusting_keeps_order(c: Control, dir: int)
    requires
        steady(c),
        dir == 1 || dir == -1,
    ensures
        steady(adjusted(c, dir)),
        c matches Control::Select { options, selected } ==> (exists|i: int|
            0 <= i < options.len() && (#[trigger] options[i]).enabled) ==> options[stepped(
            options,
            selected,
            dir,
        )].enabled,
{
    match c {
        Control::Select { options, selected } => {
            if options.len() > 0 {
                lemma_next_in_range(options, selected, dir, options.len());
                if exists|i: int| 0 <= i < options.len() && options[i].enabled {
                    let i = choose|i: int| 0 <= i < options.len() && options[i].enabled;
                    let n = options.len() as int;
                    let steps = lemma_reach(selected, dir, i, n);
                    let k = lemma_nearest(options, selected, dir, steps);
                    lemma_next_is(options, selected, dir, n as nat, k);
                }
            }
        },
        _ => {},
    }
}

proof fn lemma_next_in_range(v: Seq<Choice>, at: int, dir: int, tries: nat)
    requires
        v.len() > 0,
    ensures
        next_enabled(v, at, dir, tries) matches Some(i) ==> 0 <= i < v.len(),
    decreases tries,
{
    if tries > 0 {
        let next = (at + dir) % (v.len() as int);
        if !v[next].enabled {
            lemma_next_in_range(v, next, dir, (tries - 1) as nat);
        }
    }
}

/// Every choice is reached within one round.
proof fn lemma_reach(at: int, dir: int, i: int, n: int) -> (k: int)
    requires
        0 <= at < n,
        0 <= i < n,
        dir == 1 || dir == -1,
    ensures
        1 <= k <= n,
        round(at, dir, k, n) == i,
{
    let gap = if dir == 1 {
        i - at
    } else {
        at - i
    };
    let k = if gap > 0 {
        gap
    } else {
        gap + n
    };
    assert(dir * k == (if dir == 1 {
        k
    } else {
        -k
    })) by (nonlinear_arith)
        requires
            dir == 1 || dir == -1,
    ;
    if gap > 0 {
        vstd::arithmetic::div_mod::lemma_small_mod(i as nat, n as nat);
    } else if dir == 1 {
        vstd::arithmetic::div_mod::lemma_mod_add_multiples_vanish(i, n);
        vstd::arithmetic::div_mod::lemma_small_mod(i as nat, n as nat);
    } else {
        vstd::arithmetic::div_mod::lemma_mod_sub_multiples_vanish(i, n);
        vstd::arithmetic::div_mod::lemma_small_mod(i as nat, n as nat);
    }
    k
}

/// A builder sees the latest value for an id, if it is of the kind it asks for,
/// and its own default where there is none.
pub proof fn law_the_latest_value_counts(ctx: BuildContext, i: int, text: Seq<char>, n: int)
    requires
        0 <= i < ctx.fields@.len(),
        forall|j: int| i < j < ctx.fields@.len() ==> (#[trigger] ctx.fields@[j]).0@ != ctx.fields@[i].0@,
    ensures
        match ctx.fields@[i].1 {
            FieldValue::Text(s) => ctx.text_at(ctx.fields@[i].0@, text) == s@ && ctx.int_at(
                ctx.fields@[i].0@,
                n,
            ) == n && ctx.toggle_at(ctx.fields@[i].0@, n) == n,
            FieldValue::Int(k) => ctx.int_at(ctx.fields@[i].0@, n) == k && ctx.text_at(
                ctx.fields@[i].0@,
                text,
            ) == text && ctx.toggle_at(ctx.fields@[i].0@, n) == n,
            FieldValue::Toggle(k) => ctx.toggle_at(ctx.fields@[i].0@, n) == k && ctx.text_at(
                ctx.fields@[i].0@,
                text,
            ) == text && ctx.int_at(ctx.fields@[i].0@, n) == n,
        },
{
    let v = entries(ctx.fields@);
    assert forall|j: int| i < j < v.len() implies (#[trigger] v[j]).0 != v[i].0 by {
        assert(ctx.fields@[j].0@ != ctx.fields@[i].0@);
    }
    lemma_latest(v, i);
}

proof fn lemma_latest(v: Seq<(Seq<char>, Value)>, i: int)
    requires
        0 <= i < v.len(),
        forall|j: int| i < j < v.len() ==> (#[trigger] v[j]).0 != v[i].0,
    ensures
        lookup(v, v[i].0) == Some(v[i].1),
    decreases v.len(),
{
    if i < v.len() - 1 {
        assert(v[v.len() - 1].0 != v[i].0);
        let w = v.drop_last();
        assert forall|j: int| i < j < w.len() implies (#[trigger] w[j]).0 != w[i].0 by {
            assert(w[j] == v[j]);
        }
        lemma_latest(w, i);
    }
}

proof fn lemma_missing(v: Seq<(Seq<char>, Value)>, id: Seq<char>)
    requires
        forall|j: int| 0 <= j < v.len() ==> (#[trigger] v[j]).0 != id,
    ensures
        lookup(v, id) is None,
    decreases v.len(),
{
    if v.len() > 0 {
        assert(v[v.len() - 1].0 != id);
        let w = v.drop_last();
        assert forall|j: int| 0 <= j < w.len() implies (#[trigger] w[j]).0 != id by {
            assert(w[j] == v[j]);
        }
        lemma_missing(w, id);
    }
}

/// An id that has no value reads as the default.
pub proof fn law_missing_values_read_as_defaults(
    ctx: BuildContext,
    id: Seq<char>,
    text: Seq<char>,
    n: int,
)
    requires
        forall|j: int| 0 <= j < ctx.fields@.len() ==> (#[trigger] ctx.fields@[j]).0@ != id,
    ensures
        ctx.text_at(id, text) == text,
        ctx.int_at(id, n) == n,
        ctx.toggle_at(id, n) == n,
{
    let v = entries(ctx.fields@);
    assert forall|j: int| 0 <= j < v.len() implies (#[trigger] v[j]).0 != id by {
        assert(ctx.fields@[j].0@ != id);
    }
    lemma_missing(v, id);
}

/// What a form shows is what a builder sees: the value of the choice that is
/// selected, the place of a slider, the side of a switch, the text of a line.
pub proof fn law_builders_see_what_forms_show(v: Seq<Row>, ctx: BuildContext, i: int)
    requires
        entries(ctx.fields@) == row_values(v),
        0 <= i < v.len(),
        forall|j: int| 0 <= j < v.len() && j != i ==> (#[trigger] v[j]).id != v[i].id,
    ensures
        v[i].control matches Control::Select { options, selected } ==> (0 <= selected < options.len()
            ==> forall|d: Seq<char>| #[trigger] ctx.text_at(v[i].id, d) == options[selected].value),
        v[i].control matches Control::Slider { value, .. } ==> forall|d: int| #[trigger]
            ctx.int_at(v[i].id, d) == value,
        v[i].control matches Control::Toggle { selected, .. } ==> forall|d: int| #[trigger]
            ctx.toggle_at(v[i].id, d) == selected,
        v[i].control matches Control::Text { buffer } ==> forall|d: Seq<char>| #[trigger]
            ctx.text_at(v[i].id, d) == buffer.text,
{
    let w = row_values(v);
    assert(w[i].0 == v[i].id);
    assert forall|j: int| i < j < w.len() implies (#[trigger] w[j]).0 != w[i].0 by {
        assert(v[j].id != v[i].id);
    }
    lemma_latest(w, i);
}

/// A choice is greyed out only when the build is known to lack it, and then
/// with a reason; it keeps its label and value, and every other choice is left
/// alone.
pub proof fn law_only_what_is_missing_is_greyed_out(
    v: Seq<Choice>,
    value: Seq<char>,
    available: bool,
    known: bool,
    i: int,
)
    requires
        0 <= i < v.len(),
        v[i].value == value,
        forall|j: int| 0 <= j < i ==> (#[trigger] v[j]).value != value,
    ensures
        gated(v, value, available, known).len() == v.len(),
        gated(v, value, available, known)[i].label == v[i].label,
        gated(v, value, available, known)[i].value == v[i].value,
        known && !available ==> !gated(v, value, available, known)[i].enabled && gated(
            v,
            value,
            available,
            known,
        )[i].reason is Some,
        !known || available ==> gated(v, value, available, known)[i] == v[i],
        forall|j: int|
            0 <= j < v.len() && j != i ==> #[trigger] gated(v, value, available, known)[j] == v[j],
{
    lemma_first_valued(v, value, i);
}

/// Stepping goes to the next enabled choice in its direction, round the list:
/// every choice between is disabled.
pub proof fn law_steps_skip_only_disabled_choices(v: Seq<Choice>, at: int, dir: int)
    requires
        0 <= at < v.len(),
        v[at].enabled,
        dir == 1 || dir == -1,
    ensures
        exists|k: int|
            1 <= k <= v.len() && stepped(v, at, dir) == #[trigger] round(at, dir, k, v.len() as int)
                && v[round(at, dir, k, v.len() as int)].enabled && forall|m: int|
                1 <= m < k ==> !v[#[trigger] round(at, dir, m, v.len() as int)].enabled,
{
    let n = v.len() as int;
    let steps = lemma_reach(at, dir, at, n);
    let k = lemma_nearest(v, at, dir, steps);
    lemma_next_is(v, at, dir, n as nat, k);
}

/// A slider moves one step in its direction and stops at its end; a switch
/// changes sides; a line of text stays. Nothing else about a control changes.
pub proof fn law_adjusting_moves_one_step(c: Control, dir: int)
    requires
        in_order(c),
        dir == 1 || dir == -1,
    ensures
        c matches Control::Slider { min, max, value, step, landmarks, caption } ==> (adjusted(
            c,
            dir,
        ) matches Control::Slider {
            min: min2,
            max: max2,
            value: value2,
            step: step2,
            landmarks: landmarks2,
            caption: caption2,
        } && {
            &&& min2 == min && max2 == max && step2 == step && landmarks2 == landmarks && caption2
                == caption
            &&& min <= value2 <= max
            &&& min <= value + dir * step <= max ==> value2 == value + dir * step
            &&& value + dir * step > max ==> value2 == max
            &&& value + dir * step < min ==> value2 == min
        }),
        c matches Control::Toggle { first, second, selected } ==> adjusted(c, dir)
            == (Control::Toggle { first, second, selected: 1 - selected }),
        c is Text ==> adjusted(c, dir) == c,
        c matches Control::Select { options, .. } ==> (adjusted(c, dir) matches Control::Select {
            options: options2,
            ..
        } && options2 == options),
{
    if let Control::Slider { step, .. } = c {
        assert(dir * step == (if dir == 1 {
            step
        } else {
            -step
        })) by (nonlinear_arith)
            requires
                dir == 1 || dir == -1,
        ;
    }
}

/// A form first selects the first choice that can be used.
pub proof fn law_the_first_usable_choice_is_the_default(v: Seq<Choice>, i: int)
    requires
        0 <= i < v.len(),
        v[i].enabled,
        forall|j: int| 0 <= j < i ==> !(#[trigger] v[j]).enabled,
    ensures
        default_choice(v) == i,
{
    lemma_first_enabled(v, i);
}

} // verus!
