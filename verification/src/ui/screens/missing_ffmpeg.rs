//! The screen for when no FFmpeg was found: how to install it, and a field for
//! the path of one that is elsewhere.

use vstd::prelude::*;
use crate::key::{
    buffer, edit, input_text, input_value, new_input, pressed, KeyCode, KeyEvent, ALL_MODIFIERS,
};
use crate::text::{copy_text, opt_text, trim, trimmed};
use crate::ui::line::{add_line, lines_of, no_lines, Piece, Tone};

verus! {

/// The state of the screen.
#[derive(Debug)]
pub struct MissingState {
    /// The path being typed.
    pub input: tui_input::Input,
    /// Whether a path is being tried out; typing waits until then.
    pub checking: bool,
    /// Why the last path did not do.
    pub error: Option<String>,
    /// The path being tried out.
    pub pending_path: Option<String>,
}

impl Default for MissingState {
    fn default() -> (r: Self)
        ensures
            input_text(r.input) == Seq::<char>::empty(),
            !r.checking,
            r.error is None,
            r.pending_path is None,
    {
        MissingState {
            input: new_input(String::new()),
            checking: false,
            error: None,
            pending_path: None,
        }
    }
}

/// Whether a key press has a path tried out.
pub open spec fn submits(s: MissingState, key: KeyEvent) -> bool {
    !s.checking && key.code == KeyCode::Enter && trimmed(input_text(s.input)).len() > 0
}

/// What a key press makes of the screen.
pub open spec fn missing_keyed(before: MissingState, key: KeyEvent, after: MissingState) -> bool {
    let raw = trimmed(input_text(before.input));
    if before.checking {
        after == before
    } else if key.code == KeyCode::Enter {
        if raw.len() == 0 {
            &&& opt_text(after.error) == Some(TYPE_FIRST@)
            &&& after == (MissingState { error: after.error, ..before })
        } else {
            &&& opt_text(after.pending_path) == Some(raw)
            &&& after == (MissingState {
                pending_path: after.pending_path,
                checking: true,
                error: None,
                ..before
            })
        }
    } else {
        &&& after == (MissingState { input: after.input, error: None, ..before })
        &&& buffer(after.input) == pressed(buffer(before.input), key)
    }
}

/// What is said when no path was typed.
pub const TYPE_FIRST: &'static str = "Type a path to your ffmpeg binary first.";

/// Takes in a key press; says whether the typed path is to be tried out.
pub fn on_key(state: &mut MissingState, key: KeyEvent) -> (r: bool)
    requires
        key.modifiers <= ALL_MODIFIERS,
    ensures
        r == submits(*old(state), key),
        missing_keyed(*old(state), key, *final(state)),
{
    if state.checking {
        return false;
    }
    match key.code {
        KeyCode::Enter => {
            let raw = trim(input_value(&state.input));
            if raw.as_str().is_empty() {
                state.error = Some(copy_text(TYPE_FIRST));
                return false;
            }
            state.pending_path = Some(raw);
            state.checking = true;
            state.error = None;
            true
        },
        _ => {
            edit(&mut state.input, key);
            state.error = None;
            false
        },
    }
}

/// The body of the screen.
pub open spec fn missing_body(checking: bool, error: Option<Seq<char>>) -> Seq<
    Seq<(Tone, Seq<char>)>,
> {
    seq![
        seq![(Tone::Muted, "Install it for your platform:"@)],
        seq![(Tone::Plain, ""@)],
        seq![(Tone::Plain, "  Debian/Ubuntu   sudo apt install ffmpeg"@)],
        seq![(Tone::Plain, "  Fedora          sudo dnf install ffmpeg"@)],
        seq![(Tone::Plain, "  macOS           brew install ffmpeg"@)],
        seq![(Tone::Plain, "  Windows         winget install ffmpeg"@)],
        seq![(Tone::Plain, ""@)],
        seq![(Tone::Muted, "Or download a static build from https://ffmpeg.org/download.html"@)],
        seq![(Tone::Plain, ""@)],
        seq![(Tone::Muted, "Already have it somewhere unusual? Type the full path below."@)],
        seq![(Tone::Plain, ""@)],
        seq![
            if checking {
                (Tone::Footer, "Checking that binary…"@)
            } else {
                match error {
                    Some(e) => (Tone::Warning, e),
                    None => (Tone::Plain, ""@),
                }
            },
        ],
    ]
}

/// Writes the body of the screen.
pub fn body_lines(state: &MissingState) -> (r: Vec<Vec<Piece>>)
    ensures
        lines_of(r@) == missing_body(state.checking, opt_text(state.error)),
{
    let mut out = no_lines();
    add_line(&mut out, Tone::Muted, "Install it for your platform:");
    add_line(&mut out, Tone::Plain, "");
    add_line(&mut out, Tone::Plain, "  Debian/Ubuntu   sudo apt install ffmpeg");
    add_line(&mut out, Tone::Plain, "  Fedora          sudo dnf install ffmpeg");
    add_line(&mut out, Tone::Plain, "  macOS           brew install ffmpeg");
    add_line(&mut out, Tone::Plain, "  Windows         winget install ffmpeg");
    add_line(&mut out, Tone::Plain, "");
    add_line(
        &mut out,
        Tone::Muted,
        "Or download a static build from https://ffmpeg.org/download.html",
    );
    add_line(&mut out, Tone::Plain, "");
    add_line(
        &mut out,
        Tone::Muted,
        "Already have it somewhere unusual? Type the full path below.",
    );
    add_line(&mut out, Tone::Plain, "");
    if state.checking {
        add_line(&mut out, Tone::Footer, "Checking that binary…");
    } else {
        match &state.error {
            Some(e) => add_line(&mut out, Tone::Warning, e.as_str()),
            None => add_line(&mut out, Tone::Plain, ""),
        }
    }
    assert(lines_of(out@) =~= missing_body(state.checking, opt_text(state.error)));
    out
}

} // verus!
