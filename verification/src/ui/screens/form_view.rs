//! What a form shows: its rows, the media panel, and the preview of the
//! command.

use vstd::prelude::*;
use crate::app::ProbeState;
use crate::ffmpeg::builder::{displayed, width, width_of, CommandSpec};
use crate::ffmpeg::probe::{summary, StreamInfo};
use crate::ffmpeg::progress::nearest_up;
use crate::key::{columns_before, input_value, visual_cursor_of};
use crate::number::{dec, dec_int, millionths_text, show, show_int, show_millionths, show_usize};
use crate::ops::fields::{choices, marks, rows, Choice, Control, Field, FieldKind, Row};
use crate::text::{
    begins, chars_of, copy_text, find_text, join2, join3, join_all, joined, lines, position_of,
    slice_text, split_lines, texts,
};
use crate::time::Duration;
use crate::ui::layout::Rect;
use crate::ui::line::{
    add_line, add_piece, add_whole, line_of, lines_of, no_lines, spoken, Piece, Tone,
};
use crate::ui::screens::parameter_form::{ParamForm, HIGHLIGHT};

verus! {

// ---------------------------------------------------------------------------
// Rows
// ---------------------------------------------------------------------------

/// The colour of a control.
pub open spec fn control_tone(focused: bool) -> Tone {
    if focused {
        Tone::Selected
    } else {
        Tone::Plain
    }
}

/// The longest end of a text that takes at most a number of bytes.
pub open spec fn byte_tail(s: Seq<char>, most: nat) -> Seq<char>
    decreases s.len(),
{
    if s.len() == 0 || width(s) <= most {
        s
    } else {
        byte_tail(s.skip(1), most)
    }
}

/// A text as its control shows it: a long one by its end while it is focused.
pub open spec fn shown_text(s: Seq<char>, focused: bool) -> Seq<char> {
    if focused && width(s) > 40 {
        "…"@ + byte_tail(s, 39)
    } else {
        s
    }
}

/// The place of a slider's knob, from 0 to 18.
pub open spec fn knob(min: int, max: int, value: int) -> int {
    let above = if value > min {
        value - min
    } else {
        0
    };
    let range = if max - min > 1 {
        max - min
    } else {
        1
    };
    nearest_up((18 * above) as nat, range as nat) as int
}

/// A slider's bar.
pub open spec fn slider_bar(at: int) -> Seq<char> {
    Seq::new(
        19,
        |i: int|
            if i == at {
                '●'
            } else {
                '─'
            },
    )
}

/// The chosen option of a dropdown, as shown.
pub open spec fn choice_line(options: Seq<Choice>, selected: int, focused: bool) -> Seq<
    (Tone, Seq<char>),
> {
    let inside = 0 <= selected < options.len();
    let label = if inside {
        options[selected].label
    } else {
        Seq::empty()
    };
    let line = seq![(control_tone(focused), "◂ "@ + label + " ▸"@)];
    if inside && options[selected].reason is Some {
        line.push((Tone::Warning, " ("@ + options[selected].reason->0 + ")"@))
    } else {
        line
    }
}

/// A control, as shown.
pub open spec fn control_line(c: Control, focused: bool, select_all: bool) -> Seq<
    (Tone, Seq<char>),
> {
    let tone = control_tone(focused);
    match c {
        Control::Select { options, selected } => choice_line(options, selected, focused),
        Control::Toggle { first, second, selected } => {
            let (on, off) = if selected == 0 {
                (first, second)
            } else {
                (second, first)
            };
            seq![(tone, "● "@ + on), (Tone::Plain, "  "@), (Tone::Muted, "○ "@ + off)]
        },
        Control::Slider { min, max, value, .. } => seq![
            (Tone::Muted, dec_int(min)),
            (Tone::Plain, " "@),
            (tone, slider_bar(knob(min, max, value))),
            (Tone::Plain, " "@),
            (Tone::Muted, dec_int(max)),
            (Tone::Plain, "  "@),
            (tone, "["@ + dec_int(value) + "]"@),
        ],
        Control::Text { buffer } => seq![
            (
                if select_all {
                    Tone::SelectAll
                } else {
                    tone
                },
                "["@ + shown_text(buffer.text, focused) + "]"@,
            ),
        ],
    }
}

/// A landmark in words.
pub open spec fn mark_text(m: (int, Seq<char>)) -> Seq<char> {
    dec_int(m.0) + " "@ + m.1
}

/// What stands below a focused slider: its caption and its landmarks.
pub open spec fn below_slider(c: Control) -> Seq<Seq<(Tone, Seq<char>)>> {
    match c {
        Control::Slider { caption, landmarks, .. } => (match caption {
            Some(s) => seq![seq![(Tone::Plain, "      "@), (Tone::Footer, s)]],
            None => Seq::empty(),
        }) + (if landmarks.len() > 0 {
            seq![
                seq![
                    (Tone::Plain, "      "@),
                    (
                        Tone::Footer,
                        joined(
                            landmarks.map_values(|m: (int, Seq<char>)| mark_text(m)),
                            " · "@,
                        ),
                    ),
                ],
            ]
        } else {
            Seq::empty()
        }),
        _ => Seq::empty(),
    }
}

/// The lines of a row.
pub open spec fn row_lines(r: Row, focused: bool, select_all: bool) -> Seq<
    Seq<(Tone, Seq<char>)>,
> {
    let marker = if focused {
        "▸ "@
    } else {
        "  "@
    };
    let head = seq![(control_tone(focused), marker + r.label), (Tone::Plain, "  "@)];
    seq![head + control_line(r.control, focused, select_all)] + (if focused {
        below_slider(r.control)
    } else {
        Seq::empty()
    })
}

/// Gives the colour of a control.
fn tone_of(focused: bool) -> (r: Tone)
    ensures
        r == control_tone(focused),
{
    if focused {
        Tone::Selected
    } else {
        Tone::Plain
    }
}

/// Cuts a text down to its end.
fn cut_to_tail(s: &str, most: usize) -> (r: String)
    ensures
        r@ == byte_tail(s@, most as nat),
{
    let x = chars_of(s);
    let mut i: usize = 0;
    let mut out = copy_text(s);
    assert(s@.skip(0) =~= s@);
    while i < x.len() && width_of(out.as_str()) > most
        invariant
            x@ == s@,
            i <= x@.len(),
            out@ == s@.skip(i as int),
            byte_tail(s@, most as nat) == byte_tail(s@.skip(i as int), most as nat),
        decreases x@.len() - i,
    {
        assert(s@.skip(i as int).skip(1) =~= s@.skip(i + 1));
        out = slice_text(&x, i + 1, x.len());
        assert(out@ =~= s@.skip(i + 1));
        i = i + 1;
    }
    out
}

/// Writes a text as its control shows it.
fn show_text(s: &str, focused: bool) -> (r: String)
    ensures
        r@ == shown_text(s@, focused),
{
    if focused && width_of(s) > 40 {
        join2("…", cut_to_tail(s, 39).as_str())
    } else {
        copy_text(s)
    }
}

/// Works out the place of a slider's knob; the largest number stands for one
/// that is off the bar.
fn knob_of(min: i64, max: i64, value: i64) -> (r: u128)
    ensures
        r == knob(min as int, max as int, value as int),
{
    let above: i128 = if value > min {
        value as i128 - min as i128
    } else {
        0
    };
    let range: i128 = if max as i128 - min as i128 > 1 {
        max as i128 - min as i128
    } else {
        1
    };
    let a: u128 = 18 * above as u128;
    let d: u128 = range as u128;
    let q: u128 = a / d;
    assert(q <= a) by (nonlinear_arith)
        requires
            q == a as int / d as int,
            d >= 1,
    ;
    if 2 * (a % d) < d {
        q
    } else {
        q + 1
    }
}

/// Draws a slider's bar.
fn draw_slider(at: u128) -> (r: String)
    ensures
        r@ == slider_bar(at as int),
{
    let mut out = String::new();
    let mut i: u128 = 0;
    while i < 19
        invariant
            i <= 19,
            out@ =~= slider_bar(at as int).take(i as int),
        decreases 19 - i,
    {
        out.push(
            if i == at {
                '●'
            } else {
                '─'
            },
        );
        i = i + 1;
    }
    assert(out@ =~= slider_bar(at as int));
    out
}

/// Adds a control to a line.
fn add_control(l: &mut Vec<Piece>, kind: &FieldKind, focused: bool, select_all: bool)
    ensures
        line_of(final(l)@) == line_of(old(l)@) + control_line(kind@, focused, select_all),
{
    let ghost before = line_of(l@);
    let tone = tone_of(focused);
    match kind {
        FieldKind::Select { options, selected } => {
            if *selected < options.len() {
                let o = &options[*selected];
                assert(choices(options@)[*selected as int] == o@);
                add_piece(l, tone, join3("◂ ", o.label.as_str(), " ▸").as_str());
                if let Some(reason) = &o.disabled_reason {
                    add_piece(l, Tone::Warning, join3(" (", reason.as_str(), ")").as_str());
                }
            } else {
                let none = String::new();
                add_piece(l, tone, join3("◂ ", none.as_str(), " ▸").as_str());
            }
        },
        FieldKind::Toggle { options, selected } => {
            if *selected == 0 {
                add_piece(l, tone, join2("● ", options[0].as_str()).as_str());
                add_piece(l, Tone::Plain, "  ");
                add_piece(l, Tone::Muted, join2("○ ", options[1].as_str()).as_str());
            } else {
                add_piece(l, tone, join2("● ", options[1].as_str()).as_str());
                add_piece(l, Tone::Plain, "  ");
                add_piece(l, Tone::Muted, join2("○ ", options[0].as_str()).as_str());
            }
        },
        FieldKind::Slider { min, max, value, .. } => {
            add_piece(l, Tone::Muted, show_int(*min).as_str());
            add_piece(l, Tone::Plain, " ");
            add_piece(l, tone, draw_slider(knob_of(*min, *max, *value)).as_str());
            add_piece(l, Tone::Plain, " ");
            add_piece(l, Tone::Muted, show_int(*max).as_str());
            add_piece(l, Tone::Plain, "  ");
            add_piece(l, tone, join3("[", show_int(*value).as_str(), "]").as_str());
        },
        FieldKind::Text { value } => {
            let shown = show_text(input_value(value), focused);
            let which = if select_all {
                Tone::SelectAll
            } else {
                tone
            };
            add_piece(l, which, join3("[", shown.as_str(), "]").as_str());
        },
    }
    assert(line_of(l@) =~= before + control_line(kind@, focused, select_all));
}

/// Names the landmarks of a slider.
fn name_marks(landmarks: &Vec<(i64, String)>) -> (r: String)
    ensures
        r@ == joined(
            marks(landmarks@).map_values(|m: (int, Seq<char>)| mark_text(m)),
            " · "@,
        ),
{
    let ghost all = marks(landmarks@).map_values(|m: (int, Seq<char>)| mark_text(m));
    let mut parts: Vec<String> = Vec::new();
    let mut i: usize = 0;
    while i < landmarks.len()
        invariant
            i <= landmarks@.len(),
            all == marks(landmarks@).map_values(|m: (int, Seq<char>)| mark_text(m)),
            texts(parts@) =~= all.take(i as int),
        decreases landmarks@.len() - i,
    {
        let ghost before = texts(parts@);
        let m = join3(show_int(landmarks[i].0).as_str(), " ", landmarks[i].1.as_str());
        let ghost t = m@;
        assert(marks(landmarks@)[i as int] == (
            landmarks@[i as int].0 as int,
            landmarks@[i as int].1@,
        ));
        assert(t =~= all[i as int]);
        parts.push(m);
        assert(texts(parts@) =~= before.push(t));
        i = i + 1;
    }
    assert(texts(parts@) =~= all);
    join_all(&parts, " · ")
}

/// Adds what stands below a focused slider.
fn add_below(out: &mut Vec<Vec<Piece>>, kind: &FieldKind)
    ensures
        lines_of(final(out)@) == lines_of(old(out)@) + below_slider(kind@),
{
    let ghost before = lines_of(out@);
    if let FieldKind::Slider { caption, landmarks, .. } = kind {
        if let Some(s) = caption {
            let mut l: Vec<Piece> = Vec::new();
            assert(line_of(l@) =~= Seq::<(Tone, Seq<char>)>::empty());
            add_piece(&mut l, Tone::Plain, "      ");
            add_piece(&mut l, Tone::Footer, s.as_str());
            assert(line_of(l@) =~= seq![(Tone::Plain, "      "@), (Tone::Footer, s@)]);
            add_whole(out, l);
        }
        if landmarks.len() > 0 {
            let mut l: Vec<Piece> = Vec::new();
            assert(line_of(l@) =~= Seq::<(Tone, Seq<char>)>::empty());
            add_piece(&mut l, Tone::Plain, "      ");
            let text = name_marks(landmarks);
            add_piece(&mut l, Tone::Footer, text.as_str());
            assert(line_of(l@) =~= seq![(Tone::Plain, "      "@), (Tone::Footer, text@)]);
            add_whole(out, l);
        }
    }
    assert(lines_of(out@) =~= before + below_slider(kind@));
}

/// Writes the lines of a row.
pub fn field_lines(field: &Field, focused: bool, select_all: bool) -> (r: Vec<Vec<Piece>>)
    ensures
        lines_of(r@) == row_lines(field@, focused, select_all),
{
    let marker = if focused {
        "▸ "
    } else {
        "  "
    };
    let mut l: Vec<Piece> = Vec::new();
    assert(line_of(l@) =~= Seq::<(Tone, Seq<char>)>::empty());
    add_piece(&mut l, tone_of(focused), join2(marker, field.label.as_str()).as_str());
    add_piece(&mut l, Tone::Plain, "  ");
    add_control(&mut l, &field.kind, focused, select_all);
    let mut out = no_lines();
    assert(line_of(l@) =~= row_lines(field@, focused, select_all)[0]);
    add_whole(&mut out, l);
    if focused {
        add_below(&mut out, &field.kind);
    }
    assert(lines_of(out@) =~= row_lines(field@, focused, select_all));
    out
}

/// Whether a row of a form has the focus.
pub open spec fn has_focus(f: ParamForm, i: int) -> bool {
    i == f.focus && !f.focus_cmd
}

/// The lines of the first rows of a form.
pub open spec fn form_lines(f: ParamForm, n: int) -> Seq<Seq<(Tone, Seq<char>)>>
    decreases n,
{
    if n <= 0 {
        Seq::empty()
    } else {
        let on = has_focus(f, n - 1);
        form_lines(f, n - 1) + row_lines(
            rows(f.fields@)[n - 1],
            on,
            on && f.editing && f.edit_select_all,
        )
    }
}

/// Appends lines.
pub fn add_all(out: &mut Vec<Vec<Piece>>, more: Vec<Vec<Piece>>)
    ensures
        lines_of(final(out)@) == lines_of(old(out)@) + lines_of(more@),
{
    let ghost before = lines_of(out@);
    let ghost end = lines_of(more@);
    let mut more = more;
    out.append(&mut more);
    assert(lines_of(out@) =~= before + end);
}

/// Writes the rows of a form.
pub fn panel_lines(form: &ParamForm) -> (r: Vec<Vec<Piece>>)
    ensures
        lines_of(r@) == (if form.fields@.len() == 0 {
            seq![seq![(Tone::Warning, "No parameters yet — this operation lands in M5."@)]]
        } else {
            form_lines(*form, form.fields@.len() as int)
        }),
{
    let mut out = no_lines();
    if form.fields.len() == 0 {
        add_line(&mut out, Tone::Warning, "No parameters yet — this operation lands in M5.");
        assert(lines_of(out@) =~= seq![
            seq![(Tone::Warning, "No parameters yet — this operation lands in M5."@)],
        ]);
        return out;
    }
    let mut i: usize = 0;
    while i < form.fields.len()
        invariant
            i <= form.fields@.len(),
            lines_of(out@) == form_lines(*form, i as int),
        decreases form.fields@.len() - i,
    {
        let on = i == form.focus && !form.focus_cmd;
        assert(rows(form.fields@)[i as int] == form.fields@[i as int]@);
        let l = field_lines(&form.fields[i], on, on && form.editing && form.edit_select_all);
        add_all(&mut out, l);
        i = i + 1;
    }
    out
}

/// The footer of a form.
pub open spec fn form_footer(editing: bool, focus_cmd: bool) -> Seq<char> {
    if editing {
        "typing… Enter done · Esc cancel editing"@
    } else if focus_cmd {
        "↑↓ scroll command · Tab back to fields · c copy · Esc back"@
    } else {
        "↑↓ field · ←→ adjust · Enter edit/run · Tab command · c copy · s preset · ? help · esc back"@
    }
}

/// Gives the footer of a form.
pub fn footer(form: &ParamForm) -> (r: &'static str)
    ensures
        r@ == form_footer(form.editing, form.focus_cmd),
{
    if form.editing {
        "typing… Enter done · Esc cancel editing"
    } else if form.focus_cmd {
        "↑↓ scroll command · Tab back to fields · c copy · Esc back"
    } else {
        "↑↓ field · ←→ adjust · Enter edit/run · Tab command · c copy · s preset · ? help · esc back"
    }
}

/// Where the cursor of the edited text stands, if it is within the area: behind
/// the marker, the label, a gap and a bracket.
pub open spec fn cursor_cell(f: ParamForm, area: Rect) -> Option<(int, int)> {
    if f.focus >= f.fields@.len() {
        None
    } else {
        let r = f.fields@[f.focus as int]@;
        match r.control {
            Control::Text { buffer } => {
                let text = buffer.text;
                let seen = columns_before(text, buffer.cursor) % 65536;
                let most = if width(text) < 40 {
                    width(text)
                } else {
                    40
                };
                let column = if seen < most {
                    seen
                } else {
                    most
                };
                let x = area.x + 6 + width(r.label) % 65536 + column;
                let y = area.y + 1 + f.focus as nat % 65536;
                if x >= area.x + area.width || y >= area.y + area.height {
                    None
                } else {
                    Some((x as int, y as int))
                }
            },
            _ => None,
        }
    }
}

/// Works out where the cursor of the edited text stands.
pub fn edit_cursor(form: &ParamForm, area: Rect) -> (r: Option<(u16, u16)>)
    requires
        area.wf(),
    ensures
        match r {
            Some((x, y)) => cursor_cell(*form, area) == Some((x as int, y as int)),
            None => cursor_cell(*form, area) is None,
        },
{
    match form.focused() {
        Some(field) => {
            if let FieldKind::Text { value } = &field.kind {
                let seen: u64 = visual_cursor_of(value) as u64 % 65536;
                let long: u64 = width_of(input_value(value)) as u64;
                let most: u64 = if long < 40 {
                    long
                } else {
                    40
                };
                let column: u64 = if seen < most {
                    seen
                } else {
                    most
                };
                let label: u64 = width_of(field.label.as_str()) as u64 % 65536;
                let x: u64 = area.x as u64 + 6 + label + column;
                let y: u64 = area.y as u64 + 1 + form.focus as u64 % 65536;
                if x >= area.x as u64 + area.width as u64 || y >= area.y as u64
                    + area.height as u64 {
                    None
                } else {
                    Some((x as u16, y as u16))
                }
            } else {
                None
            }
        },
        None => None,
    }
}

// ---------------------------------------------------------------------------
// The media panel
// ---------------------------------------------------------------------------

/// What is said of the streams that are turned.
pub open spec fn turned_lines(v: Seq<StreamInfo>) -> Seq<Seq<(Tone, Seq<char>)>>
    decreases v.len(),
{
    if v.len() == 0 {
        Seq::empty()
    } else {
        let before = turned_lines(v.drop_last());
        match v.last().rotation {
            Some(r) => if r != 0 {
                before.push(
                    seq![
                        (
                            Tone::Warning,
                            "    Stream "@ + dec(v.last().index as nat) + " rotated "@
                                + millionths_text(r as int) + "° — affects orientation"@,
                        ),
                    ],
                )
            } else {
                before
            },
            None => before,
        }
    }
}

/// What the media panel says of a probe.
pub open spec fn media_lines(probe: Option<ProbeState>) -> Seq<Seq<(Tone, Seq<char>)>> {
    match probe {
        None => seq![seq![(Tone::Footer, "    …"@)]],
        Some(ProbeState::Pending) => seq![seq![(Tone::Footer, "    Probing…"@)]],
        Some(ProbeState::Ready(result)) => seq![seq![(Tone::Command, "    "@ + summary(result))]]
            + turned_lines(result.streams@),
        Some(ProbeState::Failed(message)) => seq![
            seq![(Tone::Warning, "    Could not read: "@ + message@)],
        ],
    }
}

/// What is said when there are no inputs.
pub const NO_INPUTS: &'static str = "No inputs confirmed (this should not happen — please report it).";

/// The media panel: the first input, what is known of it, and how many more
/// there are.
pub open spec fn media_panel(inputs: Seq<Seq<char>>, probe: Option<ProbeState>) -> Seq<
    Seq<(Tone, Seq<char>)>,
> {
    let head = seq![seq![(Tone::Title, "Input"@)]];
    if inputs.len() == 0 {
        head.push(seq![(Tone::Warning, NO_INPUTS@)])
    } else {
        let first = head.push(seq![(Tone::Plain, "  "@ + inputs[0])]) + media_lines(probe);
        if inputs.len() > 1 {
            first.push(seq![(Tone::Plain, ""@)]).push(
                seq![
                    (
                        Tone::Footer,
                        "+ "@ + dec((inputs.len() - 1) as nat)
                            + " more file(s) — same settings apply to all"@,
                    ),
                ],
            )
        } else {
            first
        }
    }
}

/// Adds what is said of the streams that are turned.
fn add_turned(out: &mut Vec<Vec<Piece>>, streams: &Vec<StreamInfo>)
    ensures
        lines_of(final(out)@) == lines_of(old(out)@) + turned_lines(streams@),
{
    let ghost before = lines_of(out@);
    let mut i: usize = 0;
    assert(streams@.take(0) =~= Seq::<StreamInfo>::empty());
    while i < streams.len()
        invariant
            i <= streams@.len(),
            lines_of(out@) =~= before + turned_lines(streams@.take(i as int)),
        decreases streams@.len() - i,
    {
        assert(streams@.take(i + 1).drop_last() =~= streams@.take(i as int));
        assert(streams@.take(i + 1).last() == streams@[i as int]);
        if let Some(r) = streams[i].rotation {
            if r != 0 {
                let mut text = join3(
                    "    Stream ",
                    show(streams[i].index as u128).as_str(),
                    " rotated ",
                );
                text.append(show_millionths(r).as_str());
                text.append("° — affects orientation");
                add_line(out, Tone::Warning, text.as_str());
            }
        }
        i = i + 1;
    }
    assert(streams@.take(i as int) =~= streams@);
}

/// Writes the media panel.
pub fn info_lines(inputs: &Vec<String>, probe: Option<&ProbeState>) -> (r: Vec<Vec<Piece>>)
    ensures
        lines_of(r@) == media_panel(
            texts(inputs@),
            match probe {
                Some(p) => Some(*p),
                None => None,
            },
        ),
{
    let ghost p0 = match probe {
        Some(p) => Some(*p),
        None => None,
    };
    let mut out = no_lines();
    add_line(&mut out, Tone::Title, "Input");
    if inputs.len() == 0 {
        add_line(&mut out, Tone::Warning, NO_INPUTS);
        assert(lines_of(out@) =~= media_panel(texts(inputs@), p0));
        return out;
    }
    assert(texts(inputs@)[0] == inputs@[0]@);
    add_line(&mut out, Tone::Plain, join2("  ", inputs[0].as_str()).as_str());
    let ghost head = lines_of(out@);
    match probe {
        None => add_line(&mut out, Tone::Footer, "    …"),
        Some(ProbeState::Pending) => add_line(&mut out, Tone::Footer, "    Probing…"),
        Some(ProbeState::Ready(result)) => {
            add_line(
                &mut out,
                Tone::Command,
                join2("    ", result.summary_line().as_str()).as_str(),
            );
            add_turned(&mut out, &result.streams);
        },
        Some(ProbeState::Failed(message)) => add_line(
            &mut out,
            Tone::Warning,
            join2("    Could not read: ", message.as_str()).as_str(),
        ),
    }
    assert(lines_of(out@) =~= head + media_lines(p0));
    if inputs.len() > 1 {
        add_line(&mut out, Tone::Plain, "");
        let text = join3(
            "+ ",
            show_usize(inputs.len() - 1).as_str(),
            " more file(s) — same settings apply to all",
        );
        add_line(&mut out, Tone::Footer, text.as_str());
    }
    assert(lines_of(out@) =~= media_panel(texts(inputs@), p0));
    out
}

// ---------------------------------------------------------------------------
// The preview
// ---------------------------------------------------------------------------

/// A line of the command with a part of it highlighted.
pub open spec fn cut_line(line: Seq<char>, token: Seq<char>) -> Seq<(Tone, Seq<char>)> {
    let i = find_text(line, token)->0;
    let before = line.take(i);
    let after = line.skip(i + token.len());
    (if before.len() > 0 {
        seq![(Tone::Command, before)]
    } else {
        Seq::empty()
    }) + seq![(Tone::Selected, token)] + (if after.len() > 0 {
        seq![(Tone::Command, after)]
    } else {
        Seq::empty()
    })
}

/// The lines of the command, with the first occurrence of the part that
/// changed highlighted.
pub open spec fn command_lines(ls: Seq<Seq<char>>, token: Option<Seq<char>>) -> Seq<
    Seq<(Tone, Seq<char>)>,
>
    decreases ls.len(),
{
    if ls.len() == 0 {
        Seq::empty()
    } else if token is Some && find_text(ls[0], token->0) is Some {
        seq![cut_line(ls[0], token->0)] + command_lines(ls.skip(1), None)
    } else {
        seq![seq![(Tone::Command, ls[0])]] + command_lines(ls.skip(1), token)
    }
}

/// The preview of a command in a number of lines, scrolled, with the
/// explanation of the focused control below.
pub open spec fn preview_text(
    command: Option<Seq<char>>,
    error: Option<Seq<char>>,
    token: Option<Seq<char>>,
    scroll: int,
    rows: int,
    explanation: Option<(Seq<char>, Seq<char>)>,
) -> Seq<Seq<(Tone, Seq<char>)>> {
    (match command {
        None => seq![
            seq![
                (
                    Tone::Warning,
                    match error {
                        Some(e) => e,
                        None => "No command built yet."@,
                    },
                ),
            ],
        ],
        Some(text) => {
            let all = command_lines(lines(text), token);
            let total = all.len() as int;
            let seen = if rows > 0 {
                rows
            } else {
                1
            };
            if total > seen {
                let last = total - seen;
                let start = if scroll < last {
                    scroll
                } else {
                    last
                };
                all.subrange(start, start + seen).push(
                    seq![
                        (
                            Tone::Footer,
                            "… "@ + dec(last as nat)
                                + " more lines (Tab focuses, ↑↓ scrolls)"@,
                        ),
                    ],
                )
            } else {
                all
            }
        },
    }) + (match explanation {
        Some((label, text)) => seq![
            seq![(Tone::Plain, ""@)],
            seq![(Tone::Title, label + "  "@), (Tone::Explanation, text)],
        ],
        None => Seq::empty(),
    })
}

/// Writes a line of the command with a part of it highlighted.
fn write_cut(x: &Vec<char>, at: usize, token: &str) -> (r: Vec<Piece>)
    requires
        find_text(x@, token@) == Some(at as int),
        at + token@.len() <= x@.len(),
    ensures
        line_of(r@) == cut_line(x@, token@),
{
    let t = chars_of(token);
    let len: usize = x.len();
    let end: usize = at + t.len();
    let mut l: Vec<Piece> = Vec::new();
    assert(line_of(l@) =~= Seq::<(Tone, Seq<char>)>::empty());
    if at > 0 {
        let before = slice_text(x, 0, at);
        assert(before@ =~= x@.take(at as int));
        add_piece(&mut l, Tone::Command, before.as_str());
    }
    add_piece(&mut l, Tone::Selected, token);
    if end < len {
        let after = slice_text(x, end, len);
        assert(after@ =~= x@.skip(end as int));
        add_piece(&mut l, Tone::Command, after.as_str());
    }
    assert(line_of(l@) =~= cut_line(x@, token@));
    l
}

/// Writes the lines of a command, with the part that changed highlighted.
pub fn styled_display(display: &str, highlight: Option<&str>) -> (r: Vec<Vec<Piece>>)
    ensures
        lines_of(r@) == command_lines(
            lines(display@),
            match highlight {
                Some(t) => Some(t@),
                None => None,
            },
        ),
{
    let all = split_lines(display);
    let ghost ls = lines(display@);
    let ghost token = match highlight {
        Some(t) => Some(t@),
        None => None,
    };
    let mut out = no_lines();
    let mut pending = highlight;
    let mut i: usize = 0;
    assert(ls.skip(0) =~= ls);
    while i < all.len()
        invariant
            i <= all@.len(),
            ls == texts(all@),
            command_lines(ls, token) =~= lines_of(out@) + command_lines(
                ls.skip(i as int),
                match pending {
                    Some(t) => Some(t@),
                    None => None,
                },
            ),
        decreases all@.len() - i,
    {
        let ghost rest = ls.skip(i as int);
        let ghost before = lines_of(out@);
        proof {
            assert(rest[0] == all@[i as int]@);
            assert(rest.skip(1) =~= ls.skip(i + 1));
        }
        let x = chars_of(all[i].as_str());
        let place = match pending {
            Some(token) => position_of(&x, &chars_of(token)),
            None => None,
        };
        match (pending, place) {
            (Some(token), Some(at)) => {
                add_whole(&mut out, write_cut(&x, at, token));
                pending = None;
            },
            _ => add_line(&mut out, Tone::Command, all[i].as_str()),
        }
        i = i + 1;
    }
    assert(command_lines(ls.skip(i as int), None) =~= Seq::<Seq<(Tone, Seq<char>)>>::empty());
    assert(lines_of(out@) =~= command_lines(ls, token));
    out
}

/// Keeps some of the lines.
fn keep_lines(v: Vec<Vec<Piece>>, from: usize, to: usize) -> (r: Vec<Vec<Piece>>)
    requires
        from <= to <= v@.len(),
    ensures
        lines_of(r@) == lines_of(v@).subrange(from as int, to as int),
{
    let ghost all = v@;
    let mut v = v;
    v.truncate(to);
    let r = v.split_off(from);
    assert(lines_of(r@) =~= lines_of(all).subrange(from as int, to as int));
    r
}

/// Writes the preview of a command.
pub fn preview_lines(
    preview: Option<&CommandSpec>,
    error: Option<&str>,
    highlight: Option<&str>,
    scroll: usize,
    rows: usize,
    explanation: Option<(&str, &str)>,
) -> (r: Vec<Vec<Piece>>)
    ensures
        lines_of(r@) == preview_text(
            match preview {
                Some(spec) => Some(displayed(spec@)),
                None => None,
            },
            match error {
                Some(e) => Some(e@),
                None => None,
            },
            match highlight {
                Some(t) => Some(t@),
                None => None,
            },
            scroll as int,
            rows as int,
            match explanation {
                Some((label, text)) => Some((label@, text@)),
                None => None,
            },
        ),
{
    let mut out = no_lines();
    match preview {
        None => {
            let message = match error {
                Some(e) => e,
                None => "No command built yet.",
            };
            add_line(&mut out, Tone::Warning, message);
            assert(lines_of(out@) =~= seq![seq![(Tone::Warning, message@)]]);
        },
        Some(spec) => {
            let display = spec.to_display();
            let all = styled_display(display.as_str(), highlight);
            let total: usize = all.len();
            let ghost whole = lines_of(all@);
            let seen: usize = if rows > 0 {
                rows
            } else {
                1
            };
            if total > seen {
                let last: usize = total - seen;
                let start: usize = if scroll < last {
                    scroll
                } else {
                    last
                };
                out = keep_lines(all, start, start + seen);
                let text = join3(
                    "… ",
                    show_usize(last).as_str(),
                    " more lines (Tab focuses, ↑↓ scrolls)",
                );
                add_line(&mut out, Tone::Footer, text.as_str());
            } else {
                out = all;
            }
        },
    }
    let ghost head = lines_of(out@);
    if let Some((label, text)) = explanation {
        add_line(&mut out, Tone::Plain, "");
        let mut l: Vec<Piece> = Vec::new();
        assert(line_of(l@) =~= Seq::<(Tone, Seq<char>)>::empty());
        add_piece(&mut l, Tone::Title, join2(label, "  ").as_str());
        add_piece(&mut l, Tone::Explanation, text);
        assert(line_of(l@) =~= seq![(Tone::Title, label@ + "  "@), (Tone::Explanation, text@)]);
        add_whole(&mut out, l);
    }
    assert(lines_of(out@) =~= head + (match explanation {
        Some((label, text)) => seq![
            seq![(Tone::Plain, ""@)],
            seq![(Tone::Title, label@ + "  "@), (Tone::Explanation, text@)],
        ],
        None => Seq::empty(),
    }));
    out
}

/// Whether a change is recent enough to be highlighted.
pub open spec fn recent(at: Duration, now: Duration) -> bool {
    now.nanos < at.nanos + HIGHLIGHT
}

/// The part of the command that is highlighted.
pub open spec fn fresh_token(changed: Option<(String, Duration)>, now: Duration) -> Option<
    Seq<char>,
> {
    match changed {
        Some((token, at)) => if recent(at, now) {
            Some(token@)
        } else {
            None
        },
        None => None,
    }
}

/// Finds the part of the command that is highlighted.
pub fn highlight(changed: &Option<(String, Duration)>, now: Duration) -> (r: Option<&str>)
    ensures
        match r {
            Some(t) => fresh_token(*changed, now) == Some(t@),
            None => fresh_token(*changed, now) is None,
        },
{
    match changed {
        Some((token, at)) => {
            if now.nanos < at.nanos || now.nanos - at.nanos < HIGHLIGHT {
                Some(token.as_str())
            } else {
                None
            }
        },
        None => None,
    }
}

// ---------------------------------------------------------------------------
// Laws
// ---------------------------------------------------------------------------

/// The command is shown as it is, line by line: highlighting a part of it
/// changes its colour and no character.
pub proof fn law_the_preview_shows_the_command(
    ls: Seq<Seq<char>>,
    token: Option<Seq<char>>,
    i: int,
)
    requires
        0 <= i < ls.len(),
    ensures
        command_lines(ls, token).len() == ls.len(),
        spoken(command_lines(ls, token)[i]) == ls[i],
    decreases ls.len(),
{
    let cut = token is Some && find_text(ls[0], token->0) is Some;
    let rest = ls.skip(1);
    let next = if cut {
        None
    } else {
        token
    };
    let first = if cut {
        cut_line(ls[0], token->0)
    } else {
        seq![(Tone::Command, ls[0])]
    };
    if cut {
        lemma_cut_reads(ls[0], token->0);
    } else {
        lemma_spoken_one(Tone::Command, ls[0]);
    }
    assert(spoken(first) == ls[0]);
    assert(command_lines(ls, token) == seq![first] + command_lines(rest, next));
    if rest.len() > 0 {
        law_the_preview_shows_the_command(
            rest,
            next,
            if i > 0 {
                i - 1
            } else {
                0
            },
        );
    } else {
        assert(command_lines(rest, next).len() == 0);
    }
}

proof fn lemma_spoken_one(tone: Tone, text: Seq<char>)
    ensures
        spoken(seq![(tone, text)]) == text,
{
    let v = seq![(tone, text)];
    reveal_with_fuel(spoken, 2);
    assert(v.drop_last().len() == 0);
    assert(spoken(v) =~= text);
}

proof fn lemma_spoken_join(a: Seq<(Tone, Seq<char>)>, b: Seq<(Tone, Seq<char>)>)
    ensures
        spoken(a + b) == spoken(a) + spoken(b),
    decreases b.len(),
{
    if b.len() == 0 {
        assert(a + b =~= a);
        assert(spoken(a) + Seq::<char>::empty() =~= spoken(a));
    } else {
        lemma_spoken_join(a, b.drop_last());
        assert((a + b).drop_last() =~= a + b.drop_last());
        assert(spoken(a + b) =~= spoken(a) + spoken(b));
    }
}

proof fn lemma_found_at(s: Seq<char>, p: Seq<char>)
    requires
        find_text(s, p) is Some,
    ensures
        0 <= find_text(s, p)->0,
        find_text(s, p)->0 + p.len() <= s.len(),
        s.subrange(find_text(s, p)->0, find_text(s, p)->0 + p.len()) == p,
    decreases s.len(),
{
    if begins(s, p) {
        assert(s.subrange(0, p.len() as int) =~= s.take(p.len() as int));
    } else {
        let t = s.skip(1);
        lemma_found_at(t, p);
        let k = find_text(t, p)->0;
        assert(s.subrange(k + 1, k + 1 + p.len()) =~= t.subrange(k, k + p.len()));
    }
}

proof fn lemma_cut_reads(line: Seq<char>, token: Seq<char>)
    requires
        find_text(line, token) is Some,
    ensures
        spoken(cut_line(line, token)) == line,
{
    lemma_found_at(line, token);
    let i = find_text(line, token)->0;
    let before = line.take(i);
    let after = line.skip(i + token.len());
    let none = Seq::<(Tone, Seq<char>)>::empty();
    let a = if before.len() > 0 {
        seq![(Tone::Command, before)]
    } else {
        none
    };
    let b = seq![(Tone::Selected, token)];
    let c = if after.len() > 0 {
        seq![(Tone::Command, after)]
    } else {
        none
    };
    lemma_spoken_one(Tone::Command, before);
    lemma_spoken_one(Tone::Selected, token);
    lemma_spoken_one(Tone::Command, after);
    lemma_spoken_join(a, b);
    lemma_spoken_join(a + b, c);
    assert(spoken(none).len() == 0);
    assert(spoken(a) =~= before);
    assert(spoken(c) =~= after);
    assert(line =~= before + token + after);
}

/// The knob of a slider lies on its bar in proportion to its value: at the left
/// end for the least, at the right end for the greatest.
pub proof fn law_the_knob_is_in_proportion(min: int, max: int, value: int)
    requires
        min <= value <= max,
        min < max,
    ensures
        0 <= knob(min, max, value) <= 18,
        2 * (knob(min, max, value) * (max - min)) <= 36 * (value - min) + (max - min),
        36 * (value - min) <= 2 * (knob(min, max, value) * (max - min)) + (max - min),
        value == min ==> knob(min, max, value) == 0,
        value == max ==> knob(min, max, value) == 18,
        slider_bar(knob(min, max, value))[knob(min, max, value)] == '●',
{
    let d = (max - min) as nat;
    let n = (18 * (value - min)) as nat;
    vstd::arithmetic::div_mod::lemma_fundamental_div_mod(n as int, d as int);
    let k = n / d;
    let m = n % d;
    let f = nearest_up(n, d);
    assert(0 <= f <= 18 && 2 * (f * d) <= 2 * n + d && 2 * n <= 2 * (f * d) + d) by (nonlinear_arith)
        requires
            n == d * k + m,
            0 <= m < d,
            n <= 18 * d,
            f == (if 2 * m < d {
                k
            } else {
                (k + 1) as nat
            }),
    ;
    if value == min {
        assert(f == 0) by (nonlinear_arith)
            requires
                2 * (f * d) <= 2 * n + d,
                n == 0,
                d > 0,
                f >= 0,
        ;
    }
    if value == max {
        assert(f == 18) by (nonlinear_arith)
            requires
                2 * n <= 2 * (f * d) + d,
                n == 18 * d,
                d > 0,
                f <= 18,
        ;
    }
}

/// Every field has its line, with its label and its own control, and only the
/// focused one is pointed at.
pub proof fn law_every_field_has_its_line(f: ParamForm, n: int, i: int)
    requires
        0 <= i < n <= f.fields@.len(),
    ensures
        exists|k: int|
            0 <= k < form_lines(f, n).len() && (#[trigger] form_lines(f, n)[k])[0].1 == (if i
                == f.focus && !f.focus_cmd {
                "▸ "@
            } else {
                "  "@
            }) + f.fields@[i]@.label && form_lines(f, n)[k].skip(2) == control_line(
                f.fields@[i]@.control,
                i == f.focus && !f.focus_cmd,
                i == f.focus && !f.focus_cmd && f.editing && f.edit_select_all,
            ),
    decreases n,
{
    let before = form_lines(f, n - 1);
    let on = has_focus(f, n - 1);
    let own = row_lines(rows(f.fields@)[n - 1], on, on && f.editing && f.edit_select_all);
    let all = form_lines(f, n);
    assert(all == before + own);
    if i == n - 1 {
        let k = before.len() as int;
        assert(all[k] == own[0]);
        let c = control_line(f.fields@[i]@.control, on, on && f.editing && f.edit_select_all);
        assert(rows(f.fields@)[i] == f.fields@[i]@);
        assert(own[0].skip(2) =~= c);
        assert(all[k][0].1 == (if on {
            "▸ "@
        } else {
            "  "@
        }) + f.fields@[i]@.label);
    } else {
        law_every_field_has_its_line(f, n - 1, i);
        let k = choose|k: int|
            0 <= k < before.len() && (#[trigger] before[k])[0].1 == (if i == f.focus
                && !f.focus_cmd {
                "▸ "@
            } else {
                "  "@
            }) + f.fields@[i]@.label && before[k].skip(2) == control_line(
                f.fields@[i]@.control,
                i == f.focus && !f.focus_cmd,
                i == f.focus && !f.focus_cmd && f.editing && f.edit_select_all,
            );
        assert(all[k] == before[k]);
    }
}

/// A change is highlighted for four tenths of a second, and no longer.
pub proof fn law_highlights_fade(token: String, at: Duration, now: Duration)
    ensures
        now.nanos - at.nanos < 400_000_000 ==> fresh_token(Some((token, at)), now) == Some(token@),
        now.nanos - at.nanos >= 400_000_000 ==> fresh_token(Some((token, at)), now) is None,
        fresh_token(None, now) is None,
{
}

/// A command that has more lines than there is room for is shown from where it
/// was scrolled to, and never past its end.
pub proof fn law_long_commands_scroll(
    text: Seq<char>,
    token: Option<Seq<char>>,
    scroll: int,
    rows: int,
    i: int,
)
    requires
        rows > 0,
        0 <= scroll,
        0 <= i < rows,
        0 <= i < lines(text).len(),
    ensures
        ({
            let n = lines(text).len() as int;
            let shown = preview_text(Some(text), None, token, scroll, rows, None);
            &&& n <= rows ==> shown.len() == n && spoken(shown[i]) == lines(text)[i]
            &&& n > rows && scroll <= n - rows ==> spoken(shown[i]) == lines(text)[scroll + i]
            &&& n > rows && scroll > n - rows ==> spoken(shown[i]) == lines(text)[n - rows + i]
            &&& n > rows ==> shown.len() == rows + 1
        }),
{
    let ls = lines(text);
    let n = ls.len() as int;
    let all = command_lines(ls, token);
    let none = Seq::<Seq<(Tone, Seq<char>)>>::empty();
    law_the_preview_shows_the_command(ls, token, i);
    let shown = preview_text(Some(text), None, token, scroll, rows, None);
    if n <= rows {
        assert(shown =~= all + none);
        assert(shown[i] == all[i]);
    } else {
        let start = if scroll < n - rows {
            scroll
        } else {
            n - rows
        };
        law_the_preview_shows_the_command(ls, token, start + i);
        assert(shown[i] == all.subrange(start, start + rows)[i]);
        assert(shown[i] == all[start + i]);
    }
}

} // verus!
