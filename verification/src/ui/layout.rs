//! Where things go on the screen.

use vstd::prelude::*;
use crate::number::{dec, show};
use crate::text::join3;

verus! {

/// The narrowest terminal that the screens fit in.
pub const MIN_WIDTH: u16 = 80;

/// The lowest one.
pub const MIN_HEIGHT: u16 = 24;

/// A rectangle of terminal cells.
#[derive(Debug, Clone, Copy, PartialEq, Eq, Structural)]
pub struct Rect {
    pub x: u16,
    pub y: u16,
    pub width: u16,
    pub height: u16,
}

impl Rect {
    /// Whether the rectangle ends within the coordinates of a terminal.
    pub open spec fn wf(self) -> bool {
        self.x + self.width <= u16::MAX && self.y + self.height <= u16::MAX
    }
}

/// The middle of three rows that `ratatui`'s `Layout::vertical` splits an area
/// into: one of `before` cells, one of `length`, and the rest. Lengths that fit
/// are kept.
#[verifier::external_body]
fn middle_row(area: Rect, before: u16, length: u16) -> (r: Rect)
    requires
        area.wf(),
        before + length <= area.height,
    ensures
        r == (Rect { y: (area.y + before) as u16, height: length, ..area }),
{
    let rows = [
        ratatui::layout::Constraint::Length(before),
        ratatui::layout::Constraint::Length(length),
        ratatui::layout::Constraint::Min(0),
    ];
    let whole = ratatui::layout::Rect::new(area.x, area.y, area.width, area.height);
    let part = ratatui::layout::Layout::vertical(rows).split(whole)[1];
    Rect { x: part.x, y: part.y, width: part.width, height: part.height }
}

/// The middle of three columns that `ratatui`'s `Layout::horizontal` splits an
/// area into: one of `before` cells, one of `length`, and the rest. Lengths
/// that fit are kept.
#[verifier::external_body]
fn middle_column(area: Rect, before: u16, length: u16) -> (r: Rect)
    requires
        area.wf(),
        before + length <= area.width,
    ensures
        r == (Rect { x: (area.x + before) as u16, width: length, ..area }),
{
    let columns = [
        ratatui::layout::Constraint::Length(before),
        ratatui::layout::Constraint::Length(length),
        ratatui::layout::Constraint::Min(0),
    ];
    let whole = ratatui::layout::Rect::new(area.x, area.y, area.width, area.height);
    let part = ratatui::layout::Layout::horizontal(columns).split(whole)[1];
    Rect { x: part.x, y: part.y, width: part.width, height: part.height }
}

/// Where a length begins that is centred in a longer one, and how much of it
/// fits.
pub open spec fn centered(length: int, whole: int) -> (int, int) {
    if length < whole {
        ((whole - length) / 2, length)
    } else {
        (0, whole)
    }
}

/// A rectangle in the middle of an area, cut down to it.
pub fn centered_rect(width: u16, height: u16, area: Rect) -> (r: Rect)
    requires
        area.wf(),
    ensures
        ({
            let (left, wide) = centered(width as int, area.width as int);
            let (top, high) = centered(height as int, area.height as int);
            &&& r.x == area.x + left
            &&& r.width == wide
            &&& r.y == area.y + top
            &&& r.height == high
        }),
        r.x + r.width <= area.x + area.width,
        r.y + r.height <= area.y + area.height,
{
    let top: u16 = if height < area.height {
        (area.height - height) / 2
    } else {
        0
    };
    let high: u16 = if height < area.height {
        height
    } else {
        area.height
    };
    let left: u16 = if width < area.width {
        (area.width - width) / 2
    } else {
        0
    };
    let wide: u16 = if width < area.width {
        width
    } else {
        area.width
    };
    let row = middle_row(area, top, high);
    middle_column(row, left, wide)
}

/// Whether a terminal is too small for the screens.
pub fn too_small(area: Rect) -> (r: bool)
    ensures
        r == (area.width < MIN_WIDTH || area.height < MIN_HEIGHT),
{
    area.width < MIN_WIDTH || area.height < MIN_HEIGHT
}

/// What a terminal that is too small shows.
pub open spec fn small_text(area: Rect) -> Seq<char> {
    "Terminal too small: need at least "@ + dec(MIN_WIDTH as nat) + "x"@ + dec(MIN_HEIGHT as nat)
        + ", got "@ + dec(area.width as nat) + "x"@ + dec(area.height as nat)
        + ".\nPlease resize your terminal."@
}

/// Says that the terminal is too small.
pub fn too_small_message(area: Rect) -> (r: String)
    ensures
        r@ == small_text(area),
{
    let mut out = join3(
        "Terminal too small: need at least ",
        show(MIN_WIDTH as u128).as_str(),
        "x",
    );
    out.append(show(MIN_HEIGHT as u128).as_str());
    out.append(", got ");
    out.append(show(area.width as u128).as_str());
    out.append("x");
    out.append(show(area.height as u128).as_str());
    out.append(".\nPlease resize your terminal.");
    out
}

/// What is centred lies within the whole, with as much room before it as behind
/// it, or one less.
pub proof fn law_the_middle_is_the_middle(length: int, whole: int)
    requires
        0 <= length,
        0 <= whole,
    ensures
        ({
            let (before, taken) = centered(length, whole);
            let behind = whole - before - taken;
            &&& 0 <= before
            &&& taken <= length && taken <= whole
            &&& taken == length || taken == whole
            &&& behind == before || behind == before + 1
        }),
{
}

} // verus!
