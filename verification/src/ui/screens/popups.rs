//! The overlays: the list of presets, and the prompt for a preset's name.

use vstd::prelude::*;
use crate::config::presets::{builtin_presets, builtins, ParamValue, Preset, Recipe};
use crate::config::settings::Settings;
use crate::key::{
    buffer, edit, fresh_buffer, input_text, input_value, new_input, pressed, KeyCode, KeyEvent,
    ALL_MODIFIERS,
};
use crate::text::{copy_text, join3, trim, trimmed};
use crate::ui::line::{add_line, add_piece, add_whole, line_of, lines_of, no_lines, Piece, Tone};

verus! {

/// The list of presets.
#[derive(Debug, Clone, Copy, PartialEq, Eq, Structural)]
pub struct PresetPopup {
    /// The highlighted one.
    pub selected: usize,
}

impl Default for PresetPopup {
    fn default() -> (r: Self)
        ensures
            r.selected == 0,
    {
        PresetPopup { selected: 0 }
    }
}

/// The views of presets.
pub open spec fn recipes(v: Seq<Preset>) -> Seq<Recipe> {
    v.map_values(|p: Preset| p@)
}

impl ParamValue {
    /// Copies a value.
    pub fn copy(&self) -> (r: Self)
        ensures
            r@ == self@,
    {
        match self {
            ParamValue::Text(s) => ParamValue::Text(copy_text(s.as_str())),
            ParamValue::Int(n) => ParamValue::Int(*n),
            ParamValue::Bool(b) => ParamValue::Bool(*b),
            ParamValue::Float { rounded, written } => ParamValue::Float {
                rounded: *rounded,
                written: copy_text(written.as_str()),
            },
            ParamValue::Other(s) => ParamValue::Other(copy_text(s.as_str())),
        }
    }
}

impl Preset {
    /// Copies a preset.
    pub fn copy(&self) -> (r: Self)
        ensures
            r@ == self@,
    {
        let ghost all = crate::config::presets::params(self.params@);
        let mut out: Vec<(String, ParamValue)> = Vec::new();
        let mut i: usize = 0;
        while i < self.params.len()
            invariant
                i <= self.params@.len(),
                all == crate::config::presets::params(self.params@),
                crate::config::presets::params(out@) =~= all.take(i as int),
            decreases self.params@.len() - i,
        {
            let ghost before = crate::config::presets::params(out@);
            let id = copy_text(self.params[i].0.as_str());
            let value = self.params[i].1.copy();
            let ghost e = (id@, value@);
            out.push((id, value));
            assert(crate::config::presets::params(out@) =~= before.push(e));
            i = i + 1;
        }
        assert(crate::config::presets::params(out@) =~= all);
        Preset {
            name: copy_text(self.name.as_str()),
            operation: copy_text(self.operation.as_str()),
            description: copy_text(self.description.as_str()),
            params: out,
        }
    }
}

/// Lists all presets: the built-in ones, then the user's.
pub fn all_presets(settings: &Settings) -> (r: Vec<Preset>)
    ensures
        recipes(r@) == builtins() + recipes(settings.presets@),
{
    let ghost own = recipes(settings.presets@);
    let mut out = builtin_presets();
    let mut i: usize = 0;
    assert(recipes(out@) =~= builtins());
    while i < settings.presets.len()
        invariant
            i <= settings.presets@.len(),
            own == recipes(settings.presets@),
            recipes(out@) =~= builtins() + own.take(i as int),
        decreases settings.presets@.len() - i,
    {
        let ghost before = recipes(out@);
        let p = settings.presets[i].copy();
        let ghost v = p@;
        out.push(p);
        assert(recipes(out@) =~= before.push(v));
        i = i + 1;
    }
    assert(own.take(i as int) =~= own);
    out
}

/// What a key press in the list means.
#[derive(Debug)]
pub enum PresetPopupAction {
    /// Nothing.
    Nothing,
    /// Close the list.
    Close,
    /// Go to the preset's operation, and apply the preset there.
    Apply(Preset),
}

/// The highlighted preset after a key press.
pub open spec fn popup_moved(selected: int, code: KeyCode, n: int) -> int {
    match code {
        KeyCode::Up => if selected > 0 {
            selected - 1
        } else {
            0
        },
        KeyCode::Char('k') => if selected > 0 {
            selected - 1
        } else {
            0
        },
        KeyCode::Down => stepped_down(selected, n),
        KeyCode::Char('j') => stepped_down(selected, n),
        _ => selected,
    }
}

/// One row further down, not past the last of `n`.
pub open spec fn stepped_down(selected: int, n: int) -> int {
    let last = if n > 0 {
        n - 1
    } else {
        0
    };
    if selected < last {
        selected + 1
    } else {
        last
    }
}

/// Moves one row further down.
pub fn step_down(selected: usize, n: usize) -> (r: usize)
    ensures
        r == stepped_down(selected as int, n as int),
{
    let last: usize = if n > 0 {
        n - 1
    } else {
        0
    };
    if selected < last {
        selected + 1
    } else {
        last
    }
}

/// Takes in a key press in the list of presets.
pub fn on_key_preset_popup(popup: &mut PresetPopup, key: KeyEvent, presets: &[Preset]) -> (r:
    PresetPopupAction)
    ensures
        final(popup).selected == popup_moved(
            old(popup).selected as int,
            key.code,
            presets@.len() as int,
        ),
        match key.code {
            KeyCode::Esc => r is Close,
            KeyCode::Enter => if old(popup).selected < presets@.len() {
                r matches PresetPopupAction::Apply(p) && p@ == presets@[old(popup).selected as int]@
            } else {
                r is Close
            },
            _ => r is Nothing,
        },
{
    match key.code {
        KeyCode::Esc => PresetPopupAction::Close,
        KeyCode::Up | KeyCode::Char('k') => {
            if popup.selected > 0 {
                popup.selected = popup.selected - 1;
            }
            PresetPopupAction::Nothing
        },
        KeyCode::Down | KeyCode::Char('j') => {
            popup.selected = step_down(popup.selected, presets.len());
            PresetPopupAction::Nothing
        },
        KeyCode::Enter => {
            if popup.selected < presets.len() {
                PresetPopupAction::Apply(presets[popup.selected].copy())
            } else {
                PresetPopupAction::Close
            }
        },
        _ => PresetPopupAction::Nothing,
    }
}

/// The height of the list for a number of presets.
pub fn popup_height(presets: usize) -> (r: u16)
    ensures
        r == (if 2 * presets + 4 < 26 {
            2 * presets + 4
        } else {
            26
        }),
{
    if presets < 11 {
        (presets * 2 + 4) as u16
    } else {
        26
    }
}

/// The two lines of a preset.
pub open spec fn preset_lines(p: Recipe, selected: bool) -> Seq<Seq<(Tone, Seq<char>)>> {
    seq![
        seq![
            (
                Tone::Plain,
                if selected {
                    "▸ "@
                } else {
                    "  "@
                },
            ),
            (
                if selected {
                    Tone::Selected
                } else {
                    Tone::Muted
                },
                p.name + " ("@ + p.operation + ")"@,
            ),
        ],
        seq![(Tone::Plain, "    "@), (Tone::Footer, p.description)],
    ]
}

/// The lines of the first presets.
pub open spec fn popup_lines(v: Seq<Recipe>, selected: int, n: int) -> Seq<Seq<(Tone, Seq<char>)>>
    decreases n,
{
    if n <= 0 {
        Seq::empty()
    } else {
        popup_lines(v, selected, n - 1) + preset_lines(v[n - 1], n - 1 == selected)
    }
}

/// Writes the list of presets.
pub fn list_lines(popup: &PresetPopup, presets: &[Preset]) -> (r: Vec<Vec<Piece>>)
    ensures
        lines_of(r@) == (if presets@.len() == 0 {
            seq![seq![(Tone::Muted, "No presets."@)]]
        } else {
            popup_lines(recipes(presets@), popup.selected as int, presets@.len() as int)
        }),
{
    let mut out = no_lines();
    if presets.len() == 0 {
        add_line(&mut out, Tone::Muted, "No presets.");
        assert(lines_of(out@) =~= seq![seq![(Tone::Muted, "No presets."@)]]);
        return out;
    }
    let ghost v = recipes(presets@);
    let mut i: usize = 0;
    while i < presets.len()
        invariant
            i <= presets@.len(),
            v == recipes(presets@),
            lines_of(out@) == popup_lines(v, popup.selected as int, i as int),
        decreases presets@.len() - i,
    {
        let p = &presets[i];
        let ghost before = lines_of(out@);
        let chosen = i == popup.selected;
        let mark = if chosen {
            "▸ "
        } else {
            "  "
        };
        let tone = if chosen {
            Tone::Selected
        } else {
            Tone::Muted
        };
        let mut head: Vec<Piece> = Vec::new();
        assert(line_of(head@) =~= Seq::<(Tone, Seq<char>)>::empty());
        add_piece(&mut head, Tone::Plain, mark);
        let mut title = join3(p.name.as_str(), " (", p.operation.as_str());
        title.append(")");
        add_piece(&mut head, tone, title.as_str());
        let mut below: Vec<Piece> = Vec::new();
        assert(line_of(below@) =~= Seq::<(Tone, Seq<char>)>::empty());
        add_piece(&mut below, Tone::Plain, "    ");
        add_piece(&mut below, Tone::Footer, p.description.as_str());
        proof {
            assert(v[i as int] == p@);
            assert(line_of(head@) =~= preset_lines(p@, chosen)[0]);
            assert(line_of(below@) =~= preset_lines(p@, chosen)[1]);
        }
        add_whole(&mut out, head);
        add_whole(&mut out, below);
        assert(lines_of(out@) =~= before + preset_lines(p@, chosen));
        i = i + 1;
    }
    out
}

/// The prompt for a preset's name.
#[derive(Debug)]
pub struct NamePrompt {
    /// Its title.
    pub title: String,
    /// The name being typed.
    pub input: tui_input::Input,
}

impl NamePrompt {
    /// A prompt with nothing typed.
    pub fn new(title: &str) -> (r: Self)
        ensures
            r.title@ == title@,
            buffer(r.input) == fresh_buffer(Seq::empty()),
    {
        NamePrompt { title: copy_text(title), input: new_input(String::new()) }
    }
}

/// What a key press in the prompt means.
#[derive(Debug, Clone, PartialEq, Eq)]
pub enum PromptAction {
    /// Nothing.
    Nothing,
    /// Close the prompt.
    Close,
    /// The typed name, without blanks around it; it may be empty.
    Submit(String),
}

/// What a key press makes of a prompt.
pub open spec fn prompt_keyed(before: NamePrompt, key: KeyEvent, after: NamePrompt) -> bool {
    match key.code {
        KeyCode::Esc => after == before,
        KeyCode::Enter => after == before,
        _ => {
            &&& after == (NamePrompt { input: after.input, ..before })
            &&& buffer(after.input) == pressed(buffer(before.input), key)
        },
    }
}

/// Takes in a key press in the prompt.
pub fn on_key_prompt(prompt: &mut NamePrompt, key: KeyEvent) -> (r: PromptAction)
    requires
        key.modifiers <= ALL_MODIFIERS,
    ensures
        prompt_keyed(*old(prompt), key, *final(prompt)),
        match key.code {
            KeyCode::Esc => r is Close,
            KeyCode::Enter => r matches PromptAction::Submit(s) && s@ == trimmed(
                input_text(old(prompt).input),
            ),
            _ => r is Nothing,
        },
{
    match key.code {
        KeyCode::Esc => PromptAction::Close,
        KeyCode::Enter => PromptAction::Submit(trim(input_value(&prompt.input))),
        _ => {
            edit(&mut prompt.input, key);
            PromptAction::Nothing
        },
    }
}

/// Every preset on offer has its two lines, in order: its name with its
/// operation, and what it is for. Only the selected one is pointed at.
pub proof fn law_every_preset_has_its_lines(v: Seq<Recipe>, selected: int, n: int, i: int)
    requires
        0 <= i < n,
    ensures
        popup_lines(v, selected, n).len() == 2 * n,
        popup_lines(v, selected, n)[2 * i][0].1 == (if i == selected {
            "▸ "@
        } else {
            "  "@
        }),
        popup_lines(v, selected, n)[2 * i][1].1 == v[i].name + " ("@ + v[i].operation + ")"@,
        popup_lines(v, selected, n)[2 * i + 1][1].1 == v[i].description,
    decreases n,
{
    let before = popup_lines(v, selected, n - 1);
    if n > 1 {
        law_every_preset_has_its_lines(
            v,
            selected,
            n - 1,
            if i < n - 1 {
                i
            } else {
                0
            },
        );
    } else {
        assert(before.len() == 0);
    }
    let own = preset_lines(v[n - 1], n - 1 == selected);
    let all = popup_lines(v, selected, n);
    assert(all == before + own);
    if i < n - 1 {
        assert(all[2 * i] == before[2 * i] && all[2 * i + 1] == before[2 * i + 1]);
    } else {
        assert(all[2 * i] == own[0] && all[2 * i + 1] == own[1]);
    }
}

} // verus!
