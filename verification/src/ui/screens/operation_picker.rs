//! The menu of operations.

use vstd::prelude::*;
use crate::ops::{About, InputKind, OperationMeta};
use crate::text::join2;
use crate::ui::line::{add_line, lines_of, no_lines, Piece, Tone};

verus! {

/// The kind of input that an operation takes, in words.
pub open spec fn accepted(accepts: InputKind) -> Seq<char> {
    match accepts {
        InputKind::Video => "video files"@,
        InputKind::Audio => "audio files"@,
        InputKind::AudioOrVideo => "audio or video files"@,
        InputKind::Image => "image files"@,
        InputKind::Multiple => "multiple files"@,
    }
}

/// Says what kind of input an operation takes.
pub fn accepts_label(accepts: InputKind) -> (r: &'static str)
    ensures
        r@ == accepted(accepts),
{
    match accepts {
        InputKind::Video => "video files",
        InputKind::Audio => "audio files",
        InputKind::AudioOrVideo => "audio or video files",
        InputKind::Image => "image files",
        InputKind::Multiple => "multiple files",
    }
}

/// What the menu says of the selected operation.
pub open spec fn about_text(a: About) -> Seq<Seq<(Tone, Seq<char>)>> {
    seq![
        seq![(Tone::Title, a.name)],
        seq![(Tone::Plain, ""@)],
        seq![(Tone::Muted, a.description)],
        seq![(Tone::Plain, ""@)],
        seq![(Tone::Muted, "Accepts: "@ + accepted(a.accepts))],
        seq![(Tone::Plain, ""@)],
        seq![(Tone::Footer, "Enter: choose · q: quit"@)],
    ]
}

/// Describes the selected operation.
pub fn about_lines(meta: &OperationMeta) -> (r: Vec<Vec<Piece>>)
    ensures
        lines_of(r@) == about_text(meta@),
{
    let mut out = no_lines();
    add_line(&mut out, Tone::Title, meta.name);
    add_line(&mut out, Tone::Plain, "");
    add_line(&mut out, Tone::Muted, meta.description);
    add_line(&mut out, Tone::Plain, "");
    add_line(&mut out, Tone::Muted, join2("Accepts: ", accepts_label(meta.accepts)).as_str());
    add_line(&mut out, Tone::Plain, "");
    add_line(&mut out, Tone::Footer, "Enter: choose · q: quit");
    assert(lines_of(out@) =~= about_text(meta@));
    out
}

} // verus!
