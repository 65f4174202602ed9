//! The screen while FFmpeg is being looked for.

use vstd::prelude::*;
use crate::text::join2;
use crate::ui::widgets::progress_bar::{spinner, spinner_frame};

verus! {

/// What the screen says.
pub fn startup_text(tick: usize) -> (r: String)
    ensures
        r@ == spinner(tick as nat) + " Detecting FFmpeg…"@,
{
    join2(spinner_frame(tick), " Detecting FFmpeg…")
}

} // verus!
