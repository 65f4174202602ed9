//! Named parameter presets.
//!
//! A preset names an operation and gives values for its fields, by field id.
//! Ids that a form does not have and values that do not fit are ignored, so a
//! preset can never break a form.

use vstd::prelude::*;
use crate::key::{buffer, fresh_buffer, input_value, new_input};
use crate::number::{dec_int, read_i64, read_int, show_int};
use crate::ops::fields::{
    choices, row_values, rows, steady, value_of, Choice, Control, Field, FieldKind, Row,
    SelectOption,
};
use crate::ops::compress::compress_form;
use crate::ops::convert::convert_form;
use crate::ops::extract_audio::extract_audio_form;
use crate::ops::resize::resize_form;
use crate::ops::{law_ids_resolve, menu, position, registry, Operation};
use crate::text::{copy_text, lowered, same, to_lower, trim, trimmed};

verus! {

/// A preset's value for one field, as it stands in the configuration.
#[derive(Debug, Clone, PartialEq, Eq)]
pub enum ParamValue {
    Text(String),
    Int(i64),
    Bool(bool),
    /// A number with a fraction: the nearest whole number, and the number as written.
    Float { rounded: i64, written: String },
    /// Anything else, as written.
    Other(String),
}

/// What a preset's value says.
#[verifier::ext_equal]
pub enum Param {
    Text(Seq<char>),
    Int(int),
    Bool(bool),
    Float(int),
    Other,
}

impl ParamValue {
    pub open spec fn view(&self) -> Param {
        match self {
            ParamValue::Text(s) => Param::Text(s@),
            ParamValue::Int(n) => Param::Int(*n as int),
            ParamValue::Bool(b) => Param::Bool(*b),
            ParamValue::Float { rounded, .. } => Param::Float(*rounded as int),
            ParamValue::Other(_) => Param::Other,
        }
    }
}

/// An operation with values for its fields.
#[derive(Debug, Clone, PartialEq, Eq)]
pub struct Preset {
    /// Display name.
    pub name: String,
    /// Operation id.
    pub operation: String,
    /// One line for the picker.
    pub description: String,
    /// Values by field id; of two values for one id the later counts.
    pub params: Vec<(String, ParamValue)>,
}

/// What a preset says.
#[verifier::ext_equal]
pub struct Recipe {
    pub name: Seq<char>,
    pub operation: Seq<char>,
    pub description: Seq<char>,
    pub params: Seq<(Seq<char>, Param)>,
}

/// The views of a preset's values.
pub open spec fn params(v: Seq<(String, ParamValue)>) -> Seq<(Seq<char>, Param)> {
    v.map_values(|e: (String, ParamValue)| (e.0@, e.1@))
}

impl Preset {
    pub open spec fn view(&self) -> Recipe {
        Recipe {
            name: self.name@,
            operation: self.operation@,
            description: self.description@,
            params: params(self.params@),
        }
    }
}

/// The value that a preset has for a field.
pub open spec fn param_for(v: Seq<(Seq<char>, Param)>, id: Seq<char>) -> Option<Param>
    decreases v.len(),
{
    if v.len() == 0 {
        None
    } else if v.last().0 == id {
        Some(v.last().1)
    } else {
        param_for(v.drop_last(), id)
    }
}

impl Preset {
    /// Looks up the value for a field.
    pub fn get(&self, id: &str) -> (r: Option<&ParamValue>)
        ensures
            match r {
                Some(v) => param_for(self@.params, id@) == Some(v@),
                None => param_for(self@.params, id@) is None,
            },
    {
        let ghost all = self@.params;
        let mut i: usize = self.params.len();
        assert(all.take(i as int) =~= all);
        while i > 0
            invariant
                i <= self.params@.len(),
                all == params(self.params@),
                param_for(all, id@) == param_for(all.take(i as int), id@),
            decreases i,
        {
            i = i - 1;
            proof {
                assert(all.take(i + 1).drop_last() =~= all.take(i as int));
                assert(all.take(i + 1).last() == (
                    self.params@[i as int].0@,
                    self.params@[i as int].1@,
                ));
            }
            if same(self.params[i].0.as_str(), id) {
                return Some(&self.params[i].1);
            }
        }
        None
    }
}

// ---------------------------------------------------------------------------
// Reading a value as what a control needs
// ---------------------------------------------------------------------------

/// A value as text: text as it is, whole numbers and truth values written out.
pub open spec fn in_text(p: Param) -> Option<Seq<char>> {
    match p {
        Param::Text(s) => Some(s),
        Param::Int(n) => Some(dec_int(n)),
        Param::Bool(b) => Some(
            if b {
                "true"@
            } else {
                "false"@
            },
        ),
        _ => None,
    }
}

/// A value as a number: whole numbers, text that denotes one, and fractions
/// rounded. A truth value is no number.
pub open spec fn in_number(p: Param) -> Option<int> {
    match p {
        Param::Int(n) => Some(n),
        Param::Text(s) => read_int(trimmed(s)),
        Param::Float(n) => Some(n),
        _ => None,
    }
}

/// A value as a switch position: the numbers 0 and 1, `true` (or a text that
/// says so) for the first position, `false` for the second.
pub open spec fn in_switch(p: Param) -> Option<int> {
    match p {
        Param::Int(n) => if n == 0 || n == 1 {
            Some(n)
        } else {
            None
        },
        Param::Bool(b) => Some(
            if b {
                0int
            } else {
                1
            },
        ),
        Param::Text(s) => {
            let t = lowered(trimmed(s));
            if t == "0"@ || t == "false"@ || t == "off"@ {
                Some(1)
            } else if t == "1"@ || t == "true"@ || t == "on"@ {
                Some(0)
            } else {
                None
            }
        },
        _ => None,
    }
}

/// Reads a value as text.
pub fn as_string(value: &ParamValue) -> (r: Option<String>)
    ensures
        match r {
            Some(s) => in_text(value@) == Some(s@),
            None => in_text(value@) is None,
        },
{
    match value {
        ParamValue::Text(s) => Some(copy_text(s.as_str())),
        ParamValue::Int(n) => Some(show_int(*n)),
        ParamValue::Bool(b) => Some(
            copy_text(
                if *b {
                    "true"
                } else {
                    "false"
                },
            ),
        ),
        _ => None,
    }
}

/// Reads a value as a number.
pub fn as_int(value: &ParamValue) -> (r: Option<i64>)
    ensures
        match r {
            Some(n) => in_number(value@) == Some(n as int),
            None => in_number(value@) is None,
        },
{
    match value {
        ParamValue::Int(n) => Some(*n),
        ParamValue::Text(s) => read_i64(trim(s.as_str()).as_str()),
        ParamValue::Float { rounded, .. } => Some(*rounded),
        _ => None,
    }
}

/// Reads a value as a switch position.
pub fn as_toggle(value: &ParamValue) -> (r: Option<usize>)
    ensures
        match r {
            Some(i) => in_switch(value@) == Some(i as int),
            None => in_switch(value@) is None,
        },
{
    match value {
        ParamValue::Int(n) => if *n == 0 {
            Some(0)
        } else if *n == 1 {
            Some(1)
        } else {
            None
        },
        ParamValue::Bool(b) => Some(
            if *b {
                0
            } else {
                1
            },
        ),
        ParamValue::Text(s) => {
            let t = to_lower(trim(s.as_str()).as_str());
            let w = t.as_str();
            if same(w, "0") || same(w, "false") || same(w, "off") {
                Some(1)
            } else if same(w, "1") || same(w, "true") || same(w, "on") {
                Some(0)
            } else {
                None
            }
        },
        _ => None,
    }
}

// ---------------------------------------------------------------------------
// Applying and saving
// ---------------------------------------------------------------------------

/// Position of the first enabled choice with a value, or the number of choices.
pub open spec fn choice_at(v: Seq<Choice>, value: Seq<char>) -> int
    decreases v.len(),
{
    if v.len() == 0 || (v[0].enabled && v[0].value == value) {
        0
    } else {
        1 + choice_at(v.skip(1), value)
    }
}

proof fn lemma_choice_at(v: Seq<Choice>, value: Seq<char>, i: int)
    requires
        0 <= i <= v.len(),
        forall|j: int| 0 <= j < i ==> !((#[trigger] v[j]).enabled && v[j].value == value),
        i < v.len() ==> v[i].enabled && v[i].value == value,
    ensures
        choice_at(v, value) == i,
    decreases v.len(),
{
    if i > 0 {
        assert(!(v[0].enabled && v[0].value == value));
        let w = v.skip(1);
        assert forall|j: int| 0 <= j < i - 1 implies !((#[trigger] w[j]).enabled && w[j].value
            == value) by {
            assert(w[j] == v[j + 1]);
        }
        lemma_choice_at(w, value, i - 1);
    }
}

proof fn lemma_choice_found(v: Seq<Choice>, value: Seq<char>, i: int)
    requires
        0 <= i < v.len(),
        v[i].enabled,
        v[i].value == value,
    ensures
        0 <= choice_at(v, value) <= i,
        v[choice_at(v, value)].enabled,
        v[choice_at(v, value)].value == value,
    decreases v.len(),
{
    if !(v[0].enabled && v[0].value == value) {
        lemma_choice_found(v.skip(1), value, i - 1);
        assert(v.skip(1)[choice_at(v.skip(1), value)] == v[choice_at(v, value)]);
    }
}

proof fn lemma_choice_bounds(v: Seq<Choice>, value: Seq<char>)
    ensures
        0 <= choice_at(v, value) <= v.len(),
        choice_at(v, value) < v.len() ==> v[choice_at(v, value)].enabled && v[choice_at(
            v,
            value,
        )].value == value,
    decreases v.len(),
{
    if v.len() > 0 && !(v[0].enabled && v[0].value == value) {
        lemma_choice_bounds(v.skip(1), value);
        if choice_at(v, value) < v.len() {
            assert(v[choice_at(v, value)] == v.skip(1)[choice_at(v.skip(1), value)]);
        }
    }
}

/// Finds the first enabled choice with a value.
fn find_choice(options: &Vec<SelectOption>, value: &str) -> (r: usize)
    ensures
        r == choice_at(choices(options@), value@),
        r <= options@.len(),
{
    let ghost v = choices(options@);
    let mut i: usize = 0;
    while i < options.len()
        invariant
            i <= options@.len(),
            v == choices(options@),
            forall|j: int| 0 <= j < i ==> !((#[trigger] v[j]).enabled && v[j].value == value@),
        decreases options@.len() - i,
    {
        assert(v[i as int] == options@[i as int]@);
        if options[i].enabled && same(options[i].value.as_str(), value) {
            proof {
                lemma_choice_at(v, value@, i as int);
            }
            return i;
        }
        i = i + 1;
    }
    proof {
        lemma_choice_at(v, value@, i as int);
    }
    i
}

/// A number held within a range.
pub open spec fn clamped(n: int, min: int, max: int) -> int {
    if n < min {
        min
    } else if n > max {
        max
    } else {
        n
    }
}

/// A control that a preset has a value for. A value that does not fit leaves
/// the control as it is.
pub open spec fn applied(c: Control, p: Param) -> Control {
    match c {
        Control::Select { options, selected } => match in_text(p) {
            Some(value) => if choice_at(options, value) < options.len() {
                Control::Select { options, selected: choice_at(options, value) }
            } else {
                c
            },
            None => c,
        },
        Control::Slider { min, max, value, step, landmarks, caption } => match in_number(p) {
            Some(n) => Control::Slider {
                min,
                max,
                value: clamped(n, min, max),
                step,
                landmarks,
                caption,
            },
            None => c,
        },
        Control::Toggle { first, second, selected } => match in_switch(p) {
            Some(i) => Control::Toggle { first, second, selected: i },
            None => c,
        },
        Control::Text { .. } => match in_text(p) {
            Some(s) => Control::Text { buffer: fresh_buffer(s) },
            None => c,
        },
    }
}

/// A row of a form that a preset was applied to.
pub open spec fn applied_row(r: Row, preset: Seq<(Seq<char>, Param)>) -> Row {
    match param_for(preset, r.id) {
        Some(p) => Row { control: applied(r.control, p), ..r },
        None => r,
    }
}

/// A form that a preset was applied to.
pub open spec fn applied_rows(v: Seq<Row>, preset: Seq<(Seq<char>, Param)>) -> Seq<Row> {
    v.map_values(|r: Row| applied_row(r, preset))
}

/// Applies a value to a control.
fn apply_value(kind: &mut FieldKind, value: &ParamValue)
    requires
        old(kind)@ matches Control::Slider { min, max, .. } ==> min <= max,
    ensures
        final(kind)@ == applied(old(kind)@, value@),
{
    match kind {
        FieldKind::Select { options, selected } => {
            if let Some(target) = as_string(value) {
                let i = find_choice(options, target.as_str());
                if i < options.len() {
                    *selected = i;
                }
            }
        },
        FieldKind::Slider { min, max, value: current, .. } => {
            if let Some(n) = as_int(value) {
                *current = if n < *min {
                    *min
                } else if n > *max {
                    *max
                } else {
                    n
                };
            }
        },
        FieldKind::Toggle { selected, .. } => {
            if let Some(i) = as_toggle(value) {
                *selected = i;
            }
        },
        FieldKind::Text { value: input } => {
            if let Some(text) = as_string(value) {
                *input = new_input(text);
            }
        },
    }
}

/// Applies a preset to a form.
pub fn apply_preset(fields: &mut Vec<Field>, preset: &Preset)
    requires
        forall|i: int|
            0 <= i < old(fields)@.len() ==> (#[trigger] old(fields)@[i]@.control matches
                Control::Slider { min, max, .. } ==> min <= max),
    ensures
        rows(final(fields)@) == applied_rows(rows(old(fields)@), preset@.params),
{
    let ghost before = fields@;
    let mut i: usize = 0;
    while i < fields.len()
        invariant
            i <= fields@.len(),
            fields@.len() == before.len(),
            forall|j: int|
                0 <= j < before.len() ==> (#[trigger] before[j]@.control matches Control::Slider {
                    min,
                    max,
                    ..
                } ==> min <= max),
            forall|j: int|
                0 <= j < i ==> (#[trigger] fields@[j])@ == applied_row(
                    before[j]@,
                    preset@.params,
                ),
            forall|j: int| i <= j < before.len() ==> (#[trigger] fields@[j]) == before[j],
        decreases before.len() - i,
    {
        let id = fields[i].id;
        assert(fields@[i as int] == before[i as int]);
        assert(before[i as int]@.control == before[i as int].kind@);
        if let Some(value) = preset.get(id) {
            let field = &mut fields[i];
            apply_value(&mut field.kind, value);
        }
        assert(fields@[i as int]@ == applied_row(before[i as int]@, preset@.params));
        i = i + 1;
    }
    assert(rows(fields@) =~= applied_rows(rows(before), preset@.params));
}

/// The value that a control is saved as, if it has one: the chosen option, the
/// slider's number, the switch position, the text.
pub open spec fn saved_value(c: Control) -> Option<Param> {
    match c {
        Control::Select { options, selected } => if 0 <= selected < options.len() {
            Some(Param::Text(options[selected].value))
        } else {
            None
        },
        Control::Slider { value, .. } => Some(Param::Int(value)),
        Control::Toggle { selected, .. } => Some(Param::Int(selected)),
        Control::Text { buffer } => Some(Param::Text(buffer.text)),
    }
}

/// The values that a form is saved as.
pub open spec fn saved(v: Seq<Row>) -> Seq<(Seq<char>, Param)>
    decreases v.len(),
{
    if v.len() == 0 {
        Seq::empty()
    } else {
        let before = saved(v.drop_last());
        match saved_value(v.last().control) {
            Some(p) => before.push((v.last().id, p)),
            None => before,
        }
    }
}

/// Saves a form as a preset.
pub fn preset_from_fields(name: String, operation: String, fields: &[Field]) -> (r: Preset)
    requires
        forall|i: int|
            0 <= i < fields@.len() ==> (#[trigger] fields@[i]@.control matches Control::Toggle {
                selected,
                ..
            } ==> selected == 0 || selected == 1),
    ensures
        r@ == (Recipe {
            name: name@,
            operation: operation@,
            description: "Saved from the form"@,
            params: saved(rows(fields@)),
        }),
{
    let ghost v = rows(fields@);
    let mut out: Vec<(String, ParamValue)> = Vec::new();
    let mut i: usize = 0;
    assert(params(out@) =~= saved(v.take(0)));
    while i < fields.len()
        invariant
            i <= fields@.len(),
            v == rows(fields@),
            params(out@) == saved(v.take(i as int)),
            forall|i: int|
                0 <= i < fields@.len() ==> (#[trigger] fields@[i]@.control matches
                    Control::Toggle { selected, .. } ==> selected == 0 || selected == 1),
        decreases fields@.len() - i,
    {
        let field = &fields[i];
        proof {
            assert(v.take(i + 1).drop_last() =~= v.take(i as int));
            assert(v.take(i + 1).last() == fields@[i as int]@);
            assert(fields@[i as int]@.control == field.kind@);
        }
        let value = match &field.kind {
            FieldKind::Select { options, selected } => {
                if *selected < options.len() {
                    assert(choices(options@)[*selected as int] == options@[*selected as int]@);
                    Some(ParamValue::Text(copy_text(options[*selected].value.as_str())))
                } else {
                    None
                }
            },
            FieldKind::Slider { value, .. } => Some(ParamValue::Int(*value)),
            FieldKind::Toggle { selected, .. } => Some(ParamValue::Int(*selected as i64)),
            FieldKind::Text { value } => Some(ParamValue::Text(copy_text(input_value(value)))),
        };
        let ghost before = params(out@);
        if let Some(value) = value {
            let ghost p = value@;
            out.push((copy_text(field.id), value));
            assert(params(out@) =~= before.push((field.id@, p)));
        }
        i = i + 1;
    }
    assert(v.take(i as int) =~= v);
    Preset { name, operation, description: copy_text("Saved from the form"), params: out }
}

// ---------------------------------------------------------------------------
// Built-in presets
// ---------------------------------------------------------------------------

/// What the built-in presets say.
pub open spec fn builtins() -> Seq<Recipe> {
    seq![
        Recipe {
            name: "Web MP4"@,
            operation: "convert"@,
            description: "H.264 + faststart — plays everywhere"@,
            params: seq![
                ("format"@, Param::Text("mp4"@)),
                ("video_codec"@, Param::Text("libx264"@)),
                ("audio_codec"@, Param::Text("aac"@)),
                ("crf"@, Param::Int(23)),
                ("faststart"@, Param::Bool(true)),
            ],
        },
        Recipe {
            name: "Archival Quality"@,
            operation: "compress"@,
            description: "CRF 18, slow — big files, no regrets"@,
            params: seq![
                ("video_codec"@, Param::Text("libx264"@)),
                ("crf"@, Param::Int(18)),
                ("preset"@, Param::Text("slow"@)),
                ("audio_bitrate"@, Param::Text("192k"@)),
            ],
        },
        Recipe {
            name: "Small for Messaging"@,
            operation: "compress"@,
            description: "CRF 28, 720p, 96k audio — tiny files"@,
            params: seq![
                ("video_codec"@, Param::Text("libx264"@)),
                ("crf"@, Param::Int(28)),
                ("preset"@, Param::Text("veryfast"@)),
                ("resolution"@, Param::Text("1280:-2"@)),
                ("audio_bitrate"@, Param::Text("96k"@)),
            ],
        },
        Recipe {
            name: "Audio Only"@,
            operation: "extract-audio"@,
            description: "MP3 at 192k"@,
            params: seq![
                ("format"@, Param::Text("mp3"@)),
                ("bitrate"@, Param::Text("192k"@)),
            ],
        },
        Recipe {
            name: "Square Social Clip"@,
            operation: "resize"@,
            description: "Center square crop at 720p"@,
            params: seq![
                ("preset"@, Param::Text("1280:-2"@)),
                ("crop"@, Param::Text("square"@)),
                ("video_codec"@, Param::Text("libx264"@)),
                ("crf"@, Param::Int(23)),
            ],
        },
    ]
}

/// A value of text.
fn text(id: &str, value: &str) -> (r: (String, ParamValue))
    ensures
        r.0@ == id@,
        r.1@ == Param::Text(value@),
{
    (copy_text(id), ParamValue::Text(copy_text(value)))
}

/// A whole number.
fn int_value(id: &str, value: i64) -> (r: (String, ParamValue))
    ensures
        r.0@ == id@,
        r.1@ == Param::Int(value as int),
{
    (copy_text(id), ParamValue::Int(value))
}

/// A truth value.
fn boolean(id: &str, value: bool) -> (r: (String, ParamValue))
    ensures
        r.0@ == id@,
        r.1@ == Param::Bool(value),
{
    (copy_text(id), ParamValue::Bool(value))
}

/// A preset of the given parts.
fn preset(
    name: &str,
    operation: &str,
    description: &str,
    values: Vec<(String, ParamValue)>,
) -> (r: Preset)
    ensures
        r@ == (Recipe {
            name: name@,
            operation: operation@,
            description: description@,
            params: params(values@),
        }),
{
    Preset {
        name: copy_text(name),
        operation: copy_text(operation),
        description: copy_text(description),
        params: values,
    }
}

/// Lists the built-in presets.
pub fn builtin_presets() -> (r: Vec<Preset>)
    ensures
        r@.map_values(|p: Preset| p@) == builtins(),
{
    let web = vec![
        text("format", "mp4"),
        text("video_codec", "libx264"),
        text("audio_codec", "aac"),
        int_value("crf", 23),
        boolean("faststart", true),
    ];
    let archival = vec![
        text("video_codec", "libx264"),
        int_value("crf", 18),
        text("preset", "slow"),
        text("audio_bitrate", "192k"),
    ];
    let small = vec![
        text("video_codec", "libx264"),
        int_value("crf", 28),
        text("preset", "veryfast"),
        text("resolution", "1280:-2"),
        text("audio_bitrate", "96k"),
    ];
    let audio = vec![text("format", "mp3"), text("bitrate", "192k")];
    let square = vec![
        text("preset", "1280:-2"),
        text("crop", "square"),
        text("video_codec", "libx264"),
        int_value("crf", 23),
    ];
    proof {
        assert(params(web@) =~= builtins()[0].params);
        assert(params(archival@) =~= builtins()[1].params);
        assert(params(small@) =~= builtins()[2].params);
        assert(params(audio@) =~= builtins()[3].params);
        assert(params(square@) =~= builtins()[4].params);
    }
    let out = vec![
        preset("Web MP4", "convert", "H.264 + faststart — plays everywhere", web),
        preset("Archival Quality", "compress", "CRF 18, slow — big files, no regrets", archival),
        preset("Small for Messaging", "compress", "CRF 28, 720p, 96k audio — tiny files", small),
        preset("Audio Only", "extract-audio", "MP3 at 192k", audio),
        preset("Square Social Clip", "resize", "Center square crop at 720p", square),
    ];
    assert(out@.map_values(|p: Preset| p@) =~= builtins());
    out
}

// ---------------------------------------------------------------------------
// Laws
// ---------------------------------------------------------------------------

/// Whether a row can take over the value of another: the same field, with the
/// same choices or the same range.
pub open spec fn same_shape(a: Row, b: Row) -> bool {
    &&& a.id == b.id
    &&& match (a.control, b.control) {
        (Control::Select { options, .. }, Control::Select { options: o, .. }) => options == o,
        (Control::Slider { min, max, .. }, Control::Slider { min: lo, max: hi, .. }) => min == lo
            && max == hi,
        (Control::Toggle { .. }, Control::Toggle { .. }) => true,
        (Control::Text { .. }, Control::Text { .. }) => true,
        _ => false,
    }
}

/// Whether a row's value is one that its own control can be set to: an enabled
/// choice, a number within the range, a switch position.
pub open spec fn settable(r: Row) -> bool {
    &&& steady(r.control)
    &&& r.control matches Control::Select { options, selected } ==> 0 <= selected < options.len()
        && options[selected].enabled
}

/// Saving a form and applying the preset to a form of the same shape gives
/// back the saved values, whatever the other form was set to.
pub proof fn law_saved_forms_come_back(v: Seq<Row>, w: Seq<Row>)
    requires
        v.len() == w.len(),
        forall|i: int| 0 <= i < v.len() ==> same_shape(#[trigger] v[i], w[i]) && settable(v[i]),
        forall|i: int, j: int| 0 <= i < j < v.len() ==> (#[trigger] v[i]).id != (#[trigger] v[j]).id,
    ensures
        row_values(applied_rows(w, saved(v))) == row_values(v),
{
    assert forall|i: int| 0 <= i < v.len() implies value_of(
        (#[trigger] applied_rows(w, saved(v))[i]).control,
    ) == value_of(v[i].control) && applied_rows(w, saved(v))[i].id == v[i].id by {
        assert(same_shape(v[i], w[i]));
        lemma_saved_value(v, i);
        match v[i].control {
            Control::Select { options, selected } => {
                lemma_choice_found(options, options[selected].value, selected);
            },
            _ => {},
        }
    }
    assert(row_values(applied_rows(w, saved(v))) =~= row_values(v));
}

proof fn lemma_saved_value(v: Seq<Row>, i: int)
    requires
        0 <= i < v.len(),
        saved_value(v[i].control) is Some,
        forall|a: int, b: int| 0 <= a < b < v.len() ==> (#[trigger] v[a]).id != (#[trigger] v[b]).id,
    ensures
        param_for(saved(v), v[i].id) == saved_value(v[i].control),
    decreases v.len(),
{
    let before = saved(v.drop_last());
    match saved_value(v.last().control) {
        Some(p) => {
            let all = before.push((v.last().id, p));
            assert(all.drop_last() =~= before);
            if i < v.len() - 1 {
                lemma_saved_value(v.drop_last(), i);
            }
        },
        None => {
            lemma_saved_value(v.drop_last(), i);
        },
    }
}

/// Applying a preset keeps every control steady, so no preset can break a form.
pub proof fn law_presets_keep_order(c: Control, p: Param)
    requires
        steady(c),
    ensures
        steady(applied(c, p)),
{
    match c {
        Control::Select { options, .. } => {
            if let Some(value) = in_text(p) {
                lemma_choice_bounds(options, value);
            }
        },
        _ => {},
    }
}

/// Every built-in preset is for an operation that exists.
pub proof fn law_builtins_resolve(i: int)
    requires
        0 <= i < builtins().len(),
    ensures
        position(menu(), builtins()[i].operation) < menu().len(),
{
    law_ids_resolve(0);
    law_ids_resolve(1);
    law_ids_resolve(3);
    law_ids_resolve(4);
}

/// A preset sets the fields that it has a value for, each to that value, and
/// leaves all others alone: a choice becomes the enabled one of that value, a
/// slider goes to the number or the nearer end of its range, a line of text
/// takes the text.
pub proof fn law_presets_set_what_they_name(
    v: Seq<Row>,
    preset: Seq<(Seq<char>, Param)>,
    i: int,
    k: int,
)
    requires
        0 <= i < v.len(),
        0 <= k < preset.len(),
        preset[k].0 == v[i].id,
        forall|j: int| k < j < preset.len() ==> (#[trigger] preset[j]).0 != v[i].id,
    ensures
        ({
            let after = applied_rows(v, preset)[i];
            &&& after.id == v[i].id && after.label == v[i].label && after.help == v[i].help
            &&& v[i].control matches Control::Select { options, selected } ==> (
            after.control matches Control::Select { options: o, selected: s } && o == options && (
            preset[k].1 matches Param::Text(t) ==> if exists|c: int|
                0 <= c < options.len() && (#[trigger] options[c]).enabled && options[c].value == t {
                0 <= s < options.len() && options[s].value == t && options[s].enabled
            } else {
                s == selected
            }))
            &&& v[i].control matches Control::Slider { min, max, .. } ==> (
            after.control matches Control::Slider { min: a, max: b, value, .. } && a == min && b
                == max && (preset[k].1 matches Param::Int(n) ==> (min <= n <= max ==> value == n)
                && (n < min ==> value == min) && (n > max && min <= max ==> value == max)))
            &&& v[i].control matches Control::Toggle { .. } ==> (
            after.control matches Control::Toggle { selected, .. } && (
            preset[k].1 matches Param::Bool(b) ==> selected == (if b {
                0int
            } else {
                1
            })) && (preset[k].1 == Param::Int(0) ==> selected == 0) && (preset[k].1 == Param::Int(1)
                ==> selected == 1))
            &&& v[i].control matches Control::Text { .. } ==> (after.control matches Control::Text {
                buffer,
            } && (preset[k].1 matches Param::Text(t) ==> buffer.text == t))
        }),
{
    lemma_param_for(preset, v[i].id, k);
    if let Control::Select { options, selected } = v[i].control {
        if let Param::Text(t) = preset[k].1 {
            lemma_choice_bounds(options, t);
            if exists|c: int|
                0 <= c < options.len() && (#[trigger] options[c]).enabled && options[c].value == t {
                let c = choose|c: int|
                    0 <= c < options.len() && (#[trigger] options[c]).enabled && options[c].value
                        == t;
                lemma_choice_found(options, t, c);
            }
        }
    }
}

/// A field that a preset has no value for stays as it is.
pub proof fn law_presets_leave_the_rest_alone(v: Seq<Row>, preset: Seq<(Seq<char>, Param)>, i: int)
    requires
        0 <= i < v.len(),
        forall|j: int| 0 <= j < preset.len() ==> (#[trigger] preset[j]).0 != v[i].id,
    ensures
        applied_rows(v, preset).len() == v.len(),
        applied_rows(v, preset)[i] == v[i],
{
    lemma_no_param(preset, v[i].id);
}

proof fn lemma_no_param(v: Seq<(Seq<char>, Param)>, id: Seq<char>)
    requires
        forall|j: int| 0 <= j < v.len() ==> (#[trigger] v[j]).0 != id,
    ensures
        param_for(v, id) is None,
    decreases v.len(),
{
    if v.len() > 0 {
        assert(v[v.len() - 1].0 != id);
        let w = v.drop_last();
        assert forall|j: int| 0 <= j < w.len() implies (#[trigger] w[j]).0 != id by {
            assert(w[j] == v[j]);
        }
        lemma_no_param(w, id);
    }
}

proof fn lemma_param_for(v: Seq<(Seq<char>, Param)>, id: Seq<char>, k: int)
    requires
        0 <= k < v.len(),
        v[k].0 == id,
        forall|j: int| k < j < v.len() ==> (#[trigger] v[j]).0 != id,
    ensures
        param_for(v, id) == Some(v[k].1),
    decreases v.len(),
{
    if k < v.len() - 1 {
        assert(v[v.len() - 1].0 != id);
        let w = v.drop_last();
        assert forall|j: int| k < j < w.len() implies (#[trigger] w[j]).0 != id by {
            assert(w[j] == v[j]);
        }
        lemma_param_for(w, id, k);
    }
}

/// A saved form holds the values that its rows show, under their ids.
pub proof fn law_saving_keeps_every_value(v: Seq<Row>, i: int)
    requires
        0 <= i < v.len(),
        forall|a: int, b: int| 0 <= a < b < v.len() ==> (#[trigger] v[a]).id != (#[trigger] v[b]).id,
    ensures
        match v[i].control {
            Control::Select { options, selected } => 0 <= selected < options.len() ==> param_for(
                saved(v),
                v[i].id,
            ) == Some(Param::Text(options[selected].value)),
            Control::Slider { value, .. } => param_for(saved(v), v[i].id) == Some(Param::Int(value)),
            Control::Toggle { selected, .. } => param_for(saved(v), v[i].id) == Some(
                Param::Int(selected),
            ),
            Control::Text { buffer } => param_for(saved(v), v[i].id) == Some(
                Param::Text(buffer.text),
            ),
        },
{
    if saved_value(v[i].control) is Some {
        lemma_saved_value(v, i);
    }
}

/// Whether a control can take a value: a choice that it offers, a number in its
/// range, a side of its switch.
pub open spec fn fits(c: Control, p: Param) -> bool {
    match (c, p) {
        (Control::Select { options, .. }, Param::Text(t)) => exists|i: int|
            0 <= i < options.len() && (#[trigger] options[i]).value == t && options[i].enabled,
        (Control::Slider { min, max, .. }, Param::Int(n)) => min <= n <= max,
        (Control::Toggle { .. }, Param::Bool(_)) => true,
        _ => false,
    }
}

/// Every value of a built-in preset has its field in the operation's form, and
/// the field can take it.
pub proof fn law_builtins_fit_their_forms(i: int, k: int)
    requires
        0 <= i < builtins().len(),
        0 <= k < builtins()[i].params.len(),
    ensures
        ({
            let p = builtins()[i].params[k];
            let v = registry()[position(menu(), builtins()[i].operation)].form(None, None);
            exists|r: int| 0 <= r < v.len() && (#[trigger] v[r]).id == p.0 && fits(v[r].control, p.1)
        }),
{
    let p = builtins()[i].params;
    let v = registry()[position(menu(), builtins()[i].operation)].form(None, None);
    assert(p[k] == p[k]);
    if i == 0 {
        law_ids_resolve(0);
        assert(v == convert_form(None, None));
        if k == 0 {
            assert(v[0].id == p[0].0);
            assert(v[0].control->Select_options[0].value == p[0].1->Text_0);
            assert(fits(v[0].control, p[0].1));
        } else if k == 1 {
            assert(v[1].id == p[1].0);
            assert(v[1].control->Select_options[0].value == p[1].1->Text_0);
            assert(fits(v[1].control, p[1].1));
        } else if k == 2 {
            assert(v[2].id == p[2].0);
            assert(v[2].control->Select_options[0].value == p[2].1->Text_0);
            assert(fits(v[2].control, p[2].1));
        } else if k == 3 {
            assert(v[3].id == p[3].0);
            assert(fits(v[3].control, p[3].1));
        } else if k == 4 {
            assert(v[4].id == p[4].0);
            assert(fits(v[4].control, p[4].1));
        }
    } else if i == 1 {
        law_ids_resolve(1);
        assert(v == compress_form(None, None));
        if k == 0 {
            assert(v[0].id == p[0].0);
            assert(v[0].control->Select_options[0].value == p[0].1->Text_0);
            assert(fits(v[0].control, p[0].1));
        } else if k == 1 {
            assert(v[2].id == p[1].0);
            assert(fits(v[2].control, p[1].1));
        } else if k == 2 {
            assert(v[3].id == p[2].0);
            assert(v[3].control->Select_options[5].value == p[2].1->Text_0);
            assert(fits(v[3].control, p[2].1));
        } else if k == 3 {
            assert(v[5].id == p[3].0);
            assert(v[5].control->Select_options[3].value == p[3].1->Text_0);
            assert(fits(v[5].control, p[3].1));
        }
    } else if i == 2 {
        law_ids_resolve(1);
        assert(v == compress_form(None, None));
        if k == 0 {
            assert(v[0].id == p[0].0);
            assert(v[0].control->Select_options[0].value == p[0].1->Text_0);
            assert(fits(v[0].control, p[0].1));
        } else if k == 1 {
            assert(v[2].id == p[1].0);
            assert(fits(v[2].control, p[1].1));
        } else if k == 2 {
            assert(v[3].id == p[2].0);
            assert(v[3].control->Select_options[1].value == p[2].1->Text_0);
            assert(fits(v[3].control, p[2].1));
        } else if k == 3 {
            assert(v[6].id == p[3].0);
            assert(v[6].control->Select_options[2].value == p[3].1->Text_0);
            assert(fits(v[6].control, p[3].1));
        } else if k == 4 {
            assert(v[5].id == p[4].0);
            assert(v[5].control->Select_options[0].value == p[4].1->Text_0);
            assert(fits(v[5].control, p[4].1));
        }
    } else if i == 3 {
        law_ids_resolve(3);
        assert(v == extract_audio_form(None, None));
        if k == 0 {
            assert(v[0].id == p[0].0);
            assert(v[0].control->Select_options[0].value == p[0].1->Text_0);
            assert(fits(v[0].control, p[0].1));
        } else if k == 1 {
            assert(v[2].id == p[1].0);
            assert(v[2].control->Select_options[2].value == p[1].1->Text_0);
            assert(fits(v[2].control, p[1].1));
        }
    } else if i == 4 {
        law_ids_resolve(4);
        assert(v == resize_form(None, None));
        if k == 0 {
            assert(v[0].id == p[0].0);
            assert(v[0].control->Select_options[1].value == p[0].1->Text_0);
            assert(fits(v[0].control, p[0].1));
        } else if k == 1 {
            assert(v[4].id == p[1].0);
            assert(v[4].control->Select_options[1].value == p[1].1->Text_0);
            assert(fits(v[4].control, p[1].1));
        } else if k == 2 {
            assert(v[5].id == p[2].0);
            assert(v[5].control->Select_options[0].value == p[2].1->Text_0);
            assert(fits(v[5].control, p[2].1));
        } else if k == 3 {
            assert(v[6].id == p[3].0);
            assert(fits(v[6].control, p[3].1));
        }
    }
}

} // verus!
