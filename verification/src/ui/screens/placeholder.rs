//! What stands in for a screen that has nothing to show.

use vstd::prelude::*;
use crate::app::Screen;
use crate::text::{copy_text, join3};

verus! {

/// What the card for the browser says after the operation's name.
pub const BROWSER_BODY: &'static str = "”.\n\nDirectory navigation with vim keys and arrows, media-file filtering, multi-select with Space, and a lazily-loaded probe summary.\n\nEsc goes back.";

/// What the card for the form says.
pub const FORM_BODY: &'static str = "Here you will tweak dropdowns, sliders, and toggles while the real ffmpeg command assembles itself live below.\n\nEsc goes back.";

/// What the card for a job says.
pub const RUNNING_BODY: &'static str = "Here you will watch progress bars, ETA, and speed while ffmpeg runs.\n\nEsc goes back.";

/// What the card for the queue says.
pub const QUEUE_BODY: &'static str = "Here you will see pending / running / finished batch jobs.\n\nEsc goes back.";

/// The title and the text of the card.
pub open spec fn card_text(screen: Screen, operation: Seq<char>) -> (Seq<char>, Seq<char>) {
    match screen {
        Screen::FileBrowser => (
            "File Browser — M2"@,
            "Here you will pick input file(s) for “"@ + operation + BROWSER_BODY@,
        ),
        Screen::ParameterForm => ("Parameter Form — M3"@, FORM_BODY@),
        Screen::Running => ("Running — M4"@, RUNNING_BODY@),
        Screen::Queue { .. } => ("Queue — M6"@, QUEUE_BODY@),
        _ => ("ffkit"@, "Unexpected screen."@),
    }
}

/// Gives the title and the text of the card.
pub fn card(screen: &Screen, operation: &str) -> (r: (&'static str, String))
    ensures
        (r.0@, r.1@) == card_text(*screen, operation@),
{
    match screen {
        Screen::FileBrowser => (
            "File Browser — M2",
            join3("Here you will pick input file(s) for “", operation, BROWSER_BODY),
        ),
        Screen::ParameterForm => ("Parameter Form — M3", copy_text(FORM_BODY)),
        Screen::Running => ("Running — M4", copy_text(RUNNING_BODY)),
        Screen::Queue { .. } => ("Queue — M6", copy_text(QUEUE_BODY)),
        _ => ("ffkit", copy_text("Unexpected screen.")),
    }
}

} // verus!
