//! What the trim timeline shows: the filmstrip, the ruler, the track, and the
//! clips or fields.

use vstd::prelude::*;
use crate::ffmpeg::probe::format_duration;
use crate::ffmpeg::progress::nearest_up;
use crate::key::{columns_before, visual_cursor_of};
use crate::ffmpeg::builder::{width, width_of};
use crate::number::{dec, show, show_usize};
use crate::ops::fields::{rows, ClipRange, Control, FieldKind};
use crate::text::{chars_of, copy_text, join2, join3, text_of, texts};
use crate::time::{clock, Duration, LONGEST};
use crate::ui::images::{
    blank, blank_cells, block_line, cell_rows, strip_cells, thumb_rows, BlockCell, ImageBackend,
    THUMB_COLS, THUMB_ROWS,
};
use crate::ui::layout::Rect;
use crate::ui::line::{add_line, add_piece, line_of, lines_of, no_lines, spoken, Piece, Tone};
use crate::ui::screens::form_view::{add_all, field_lines, row_lines};
use crate::ui::screens::trim::{kept, TrimState, TrimZone};
use crate::ui::theme::Color;

verus! {

/// A duration in words.
pub open spec fn clocked(d: Duration) -> Seq<char> {
    clock((d.nanos / 1_000_000_000) as nat)
}

// ---------------------------------------------------------------------------
// The filmstrip
// ---------------------------------------------------------------------------

/// How many thumbnails fit a width: at least one, and no more than there are.
pub open spec fn fitting(width: int, available: int) -> int {
    let room = if width / (THUMB_COLS + 1) > 1 {
        width / (THUMB_COLS + 1)
    } else {
        1
    };
    let most = if available > 1 {
        available
    } else {
        1
    };
    if room < most {
        room
    } else {
        most
    }
}

/// Works out how many thumbnails fit a width.
pub fn strip_count(inner_width: usize, available: usize) -> (r: usize)
    ensures
        r == fitting(inner_width as int, available as int),
{
    let slots: usize = inner_width / (THUMB_COLS + 1);
    let room: usize = if slots > 1 {
        slots
    } else {
        1
    };
    let most: usize = if available > 1 {
        available
    } else {
        1
    };
    if room < most {
        room
    } else {
        most
    }
}

/// Evenly spaced places among a number of thumbnails.
pub open spec fn spread(total: int, count: int) -> Seq<int> {
    if total == 0 || count == 0 {
        Seq::empty()
    } else {
        Seq::new(count as nat, |i: int| i * total / count)
    }
}

/// Finds evenly spaced places among a number of thumbnails.
pub fn sample_every(total: usize, count: usize) -> (r: Vec<usize>)
    ensures
        r@.map_values(|i: usize| i as int) == spread(total as int, count as int),
        forall|k: int| 0 <= k < r@.len() ==> (#[trigger] r@[k]) < total,
{
    let mut out: Vec<usize> = Vec::new();
    if total == 0 || count == 0 {
        assert(out@.map_values(|i: usize| i as int) =~= spread(total as int, count as int));
        return out;
    }
    let mut i: usize = 0;
    while i < count
        invariant
            i <= count,
            total > 0,
            count > 0,
            out@.map_values(|i: usize| i as int) =~= spread(total as int, count as int).take(
                i as int,
            ),
            forall|k: int| 0 <= k < out@.len() ==> (#[trigger] out@[k]) < total,
        decreases count - i,
    {
        let ghost before = out@.map_values(|i: usize| i as int);
        assert(i * total <= usize::MAX * usize::MAX) by (nonlinear_arith)
            requires
                i <= usize::MAX,
                total <= usize::MAX,
        ;
        let ghost place: int = i * total / (count as int);
        assert(0 <= place < total) by (nonlinear_arith)
            requires
                place == i * total / (count as int),
                0 <= i < count,
                total > 0,
        ;
        assert(usize::MAX * usize::MAX <= u128::MAX) by (nonlinear_arith)
            requires
                usize::MAX <= 0xffff_ffff_ffff_ffff,
        ;
        let at: u128 = i as u128 * total as u128 / count as u128;
        out.push(at as usize);
        assert(out@.map_values(|i: usize| i as int) =~= before.push(at as int));
        i = i + 1;
    }
    assert(out@.map_values(|i: usize| i as int) =~= spread(total as int, count as int));
    out
}

/// The column of a tick.
pub open spec fn tick_column(i: int, width: int, ticks: int) -> int {
    let spaces = if ticks > 2 {
        ticks - 1
    } else {
        1
    };
    let at = i * (width - 1) / spaces;
    if at < width - 1 {
        at
    } else {
        width - 1
    }
}

/// Whether one of the first ticks stands in a column.
pub open spec fn has_tick(column: int, width: int, ticks: int, first: int) -> bool {
    exists|i: int| 0 <= i < first && #[trigger] tick_column(i, width, ticks) == column
}

/// A row of dots with evenly spaced ticks.
pub open spec fn tick_text(width: int, ticks: int) -> Seq<char> {
    let n = if ticks > 1 {
        ticks
    } else {
        1
    };
    Seq::new(
        width as nat,
        |c: int|
            if has_tick(c, width, n, n) {
                '│'
            } else {
                '·'
            },
    )
}

/// Draws a row of dots with evenly spaced ticks.
pub fn tick_row(width: usize, ticks: usize) -> (r: String)
    requires
        width > 0,
    ensures
        r@ == tick_text(width as int, ticks as int),
{
    let n: usize = if ticks > 1 {
        ticks
    } else {
        1
    };
    let spaces: usize = if n > 2 {
        n - 1
    } else {
        1
    };
    let mut row: Vec<char> = Vec::new();
    let mut c: usize = 0;
    while c < width
        invariant
            c <= width,
            row@ =~= Seq::new(c as nat, |j: int| '·'),
        decreases width - c,
    {
        row.push('·');
        c = c + 1;
    }
    let mut i: usize = 0;
    while i < n
        invariant
            i <= n,
            n >= 1,
            width > 0,
            spaces == (if n > 2 {
                n - 1
            } else {
                1
            }),
            row@.len() == width,
            forall|c: int|
                0 <= c < width ==> #[trigger] row@[c] == (if has_tick(
                    c,
                    width as int,
                    n as int,
                    i as int,
                ) {
                    '│'
                } else {
                    '·'
                }),
        decreases n - i,
    {
        assert(i * (width - 1) <= usize::MAX * usize::MAX) by (nonlinear_arith)
            requires
                i <= usize::MAX,
                0 < width <= usize::MAX,
        ;
        assert(usize::MAX * usize::MAX <= u128::MAX) by (nonlinear_arith)
            requires
                usize::MAX <= 0xffff_ffff_ffff_ffff,
        ;
        assert(i * (width - 1) >= 0) by (nonlinear_arith)
            requires
                0 <= i,
                0 < width,
        ;
        let at: u128 = i as u128 * (width - 1) as u128 / spaces as u128;
        let col: usize = if at < (width - 1) as u128 {
            at as usize
        } else {
            width - 1
        };
        let ghost before = row@;
        row.set(col, '│');
        proof {
            assert(col == tick_column(i as int, width as int, n as int));
            assert forall|c: int| 0 <= c < width implies #[trigger] row@[c] == (if has_tick(
                c,
                width as int,
                n as int,
                i + 1,
            ) {
                '│'
            } else {
                '·'
            }) by {
                if has_tick(c, width as int, n as int, i as int) {
                    let j = choose|j: int|
                        0 <= j < i && #[trigger] tick_column(j, width as int, n as int) == c;
                    assert(0 <= j < i + 1 && tick_column(j, width as int, n as int) == c);
                }
                if c == col {
                    assert(0 <= i < i + 1 && tick_column(i as int, width as int, n as int) == c);
                }
                assert(before[c] == (if has_tick(c, width as int, n as int, i as int) {
                    '│'
                } else {
                    '·'
                }));
            }
        }
        i = i + 1;
    }
    assert(row@ =~= tick_text(width as int, ticks as int));
    text_of(&row)
}

/// The rows of the filmstrip pane.
#[derive(Debug)]
pub enum StripRows {
    /// Thumbnails as coloured cells.
    Cells(Vec<Vec<BlockCell>>),
    /// Lines of text; blank ones where inline images come.
    Lines(Vec<Vec<Piece>>),
}

/// The thumbnails that are shown.
pub open spec fn thumbs_shown(blocks: Seq<Seq<Seq<Color>>>, total: int, count: int) -> Seq<
    Seq<Seq<Color>>,
> {
    spread(total, count).map_values(
        |i: int|
            if i < blocks.len() {
                blocks[i]
            } else {
                blank_cells()
            },
    )
}

/// Rows of cells.
pub open spec fn cell_lines(v: Seq<Vec<BlockCell>>) -> Seq<Seq<BlockCell>> {
    v.map_values(|r: Vec<BlockCell>| r@)
}

/// What the filmstrip pane says while there are no thumbnails.
pub open spec fn strip_text(s: TrimState, width: int) -> Seq<Seq<(Tone, Seq<char>)>> {
    if s.strip_pending {
        seq![seq![(Tone::Footer, "Extracting thumbnails…"@)]]
    } else {
        let row = seq![seq![(Tone::Muted, tick_text(width, 8))]];
        match s.strip_error {
            Some(reason) => row.push(
                seq![(Tone::Footer, "("@ + reason@ + " — showing ticks)"@)],
            ),
            None => row,
        }
    }
}

/// Copies a thumbnail.
fn copy_thumb(t: &Vec<Vec<Color>>) -> (r: Vec<Vec<Color>>)
    ensures
        cell_rows(r@) == cell_rows(t@),
{
    let mut out: Vec<Vec<Color>> = Vec::new();
    let mut i: usize = 0;
    while i < t.len()
        invariant
            i <= t@.len(),
            cell_rows(out@) =~= cell_rows(t@).take(i as int),
        decreases t@.len() - i,
    {
        let ghost before = cell_rows(out@);
        let mut row: Vec<Color> = Vec::new();
        let mut j: usize = 0;
        while j < t[i].len()
            invariant
                i < t@.len(),
                j <= t@[i as int]@.len(),
                row@ =~= t@[i as int]@.take(j as int),
            decreases t@[i as int]@.len() - j,
        {
            row.push(t[i][j]);
            j = j + 1;
        }
        assert(row@ =~= t@[i as int]@);
        out.push(row);
        assert(cell_rows(out@) =~= before.push(t@[i as int]@));
        i = i + 1;
    }
    assert(cell_rows(out@) =~= cell_rows(t@));
    out
}

/// Collects the thumbnails that are shown.
fn pick_thumbs(blocks: &Vec<Vec<Vec<Color>>>, total: usize, count: usize) -> (r: Vec<
    Vec<Vec<Color>>,
>)
    ensures
        thumb_rows(r@) == thumbs_shown(thumb_rows(blocks@), total as int, count as int),
{
    let places = sample_every(total, count);
    let ghost at = places@.map_values(|i: usize| i as int);
    let ghost all = thumbs_shown(thumb_rows(blocks@), total as int, count as int);
    let mut out: Vec<Vec<Vec<Color>>> = Vec::new();
    let mut i: usize = 0;
    while i < places.len()
        invariant
            i <= places@.len(),
            at == places@.map_values(|i: usize| i as int),
            at == spread(total as int, count as int),
            all == thumbs_shown(thumb_rows(blocks@), total as int, count as int),
            thumb_rows(out@) =~= all.take(i as int),
        decreases places@.len() - i,
    {
        let ghost before = thumb_rows(out@);
        let p: usize = places[i];
        assert(at[i as int] == p);
        let t = if p < blocks.len() {
            copy_thumb(&blocks[p])
        } else {
            blank()
        };
        let ghost shown = cell_rows(t@);
        out.push(t);
        assert(shown =~= all[i as int]);
        assert(thumb_rows(out@) =~= before.push(shown));
        i = i + 1;
    }
    assert(thumb_rows(out@) =~= all);
    out
}

/// Works out the rows of the filmstrip pane for its inner width.
pub fn strip_rows(state: &TrimState, backend: ImageBackend, width: usize) -> (r: StripRows)
    requires
        width > 0,
    ensures
        match r {
            StripRows::Cells(v) => {
                &&& backend == ImageBackend::Blocks
                &&& state.filmstrip@.len() > 0
                &&& cell_lines(v@) == Seq::new(
                    THUMB_ROWS as nat,
                    |row: int|
                        strip_cells(
                            thumbs_shown(
                                thumb_rows(state.strip_blocks@),
                                state.filmstrip@.len() as int,
                                fitting(width as int, state.filmstrip@.len() as int),
                            ),
                            row,
                        ),
                )
            },
            StripRows::Lines(v) => {
                &&& !(backend == ImageBackend::Blocks && state.filmstrip@.len() > 0)
                &&& lines_of(v@) == (if state.filmstrip@.len() > 0 {
                    Seq::new(THUMB_ROWS as nat, |row: int| seq![(Tone::Plain, ""@)])
                } else {
                    strip_text(*state, width as int)
                })
            },
        },
{
    let total: usize = state.filmstrip.len();
    if total > 0 {
        if backend == ImageBackend::Blocks {
            let count: usize = strip_count(width, total);
            let thumbs = pick_thumbs(&state.strip_blocks, total, count);
            let ghost all = thumb_rows(thumbs@);
            let mut out: Vec<Vec<BlockCell>> = Vec::new();
            let mut row: usize = 0;
            while row < THUMB_ROWS
                invariant
                    row <= THUMB_ROWS,
                    all == thumb_rows(thumbs@),
                    cell_lines(out@) =~= Seq::new(row as nat, |row: int| strip_cells(all, row)),
                decreases THUMB_ROWS - row,
            {
                let ghost before = cell_lines(out@);
                let l = block_line(thumbs.as_slice(), row);
                let ghost t = l@;
                out.push(l);
                assert(cell_lines(out@) =~= before.push(t));
                row = row + 1;
            }
            return StripRows::Cells(out);
        }
        let mut out = no_lines();
        let mut row: usize = 0;
        while row < THUMB_ROWS
            invariant
                row <= THUMB_ROWS,
                lines_of(out@) =~= Seq::new(row as nat, |row: int| seq![(Tone::Plain, ""@)]),
            decreases THUMB_ROWS - row,
        {
            add_line(&mut out, Tone::Plain, "");
            row = row + 1;
        }
        return StripRows::Lines(out);
    }
    let mut out = no_lines();
    if state.strip_pending {
        add_line(&mut out, Tone::Footer, "Extracting thumbnails…");
    } else {
        add_line(&mut out, Tone::Muted, tick_row(width, 8).as_str());
        if let Some(reason) = &state.strip_error {
            add_line(
                &mut out,
                Tone::Footer,
                join3("(", reason.as_str(), " — showing ticks)").as_str(),
            );
        }
    }
    assert(lines_of(out@) =~= strip_text(*state, width as int));
    StripRows::Lines(out)
}

// ---------------------------------------------------------------------------
// Inline images
// ---------------------------------------------------------------------------

/// What moves the cursor to a row and a column, both counted from one.
pub open spec fn cursor_to(row: nat, column: nat) -> Seq<char> {
    "\x1b["@ + dec(row) + ";"@ + dec(column) + "H"@
}

/// Writes what moves the cursor.
fn move_cursor(row: u128, column: u128) -> (r: String)
    ensures
        r@ == cursor_to(row as nat, column as nat),
{
    let mut out = join3("\x1b[", show(row).as_str(), ";");
    out.append(show(column).as_str());
    out.append("H");
    out
}

/// One further, where there is one.
pub open spec fn one_on(x: u16) -> u16 {
    if x < u16::MAX {
        (x + 1) as u16
    } else {
        x
    }
}

/// A length without a border.
pub open spec fn unframed(x: u16) -> u16 {
    if x > 2 {
        (x - 2) as u16
    } else {
        0
    }
}

/// The inside of a pane with a border.
pub open spec fn inside(area: Rect) -> Rect {
    Rect {
        x: one_on(area.x),
        y: one_on(area.y),
        width: unframed(area.width),
        height: unframed(area.height),
    }
}

/// Gives the inside of a pane with a border.
pub fn strip_inner(area: Rect) -> (r: Rect)
    ensures
        r == inside(area),
{
    Rect {
        x: if area.x < u16::MAX {
            area.x + 1
        } else {
            area.x
        },
        y: if area.y < u16::MAX {
            area.y + 1
        } else {
            area.y
        },
        width: if area.width > 2 {
            area.width - 2
        } else {
            0
        },
        height: if area.height > 2 {
            area.height - 2
        } else {
            0
        },
    }
}

/// The images that are shown, each behind a move of the cursor to its place.
pub open spec fn images_placed(v: Seq<Seq<char>>, count: int, inner: Rect) -> Seq<Seq<char>> {
    spread(v.len() as int, count).map(
        |slot: int, i: int|
            cursor_to(
                (inner.y + 1) as nat,
                (inner.x + slot * (THUMB_COLS + 1) + 1) as nat,
            ) + v[i],
    )
}

/// Places the images that are shown next to each other.
pub fn positioned_payloads(payloads: &Vec<String>, count: usize, inner: Rect) -> (r: Vec<String>)
    ensures
        texts(r@) == images_placed(texts(payloads@), count as int, inner),
{
    let places = sample_every(payloads.len(), count);
    let ghost at = places@.map_values(|i: usize| i as int);
    let ghost all = images_placed(texts(payloads@), count as int, inner);
    let mut out: Vec<String> = Vec::new();
    let mut slot: usize = 0;
    while slot < places.len()
        invariant
            slot <= places@.len(),
            at == places@.map_values(|i: usize| i as int),
            at == spread(payloads@.len() as int, count as int),
            forall|k: int| 0 <= k < places@.len() ==> (#[trigger] places@[k]) < payloads@.len(),
            all == images_placed(texts(payloads@), count as int, inner),
            texts(out@) =~= all.take(slot as int),
        decreases places@.len() - slot,
    {
        let ghost before = texts(out@);
        let i: usize = places[slot];
        assert(at[slot as int] == i);
        let column: u128 = inner.x as u128 + slot as u128 * (THUMB_COLS as u128 + 1) + 1;
        let line = join2(move_cursor(inner.y as u128 + 1, column).as_str(), payloads[i].as_str());
        let ghost t = line@;
        out.push(line);
        assert(t =~= all[slot as int]);
        assert(texts(out@) =~= before.push(t));
        slot = slot + 1;
    }
    assert(texts(out@) =~= all);
    out
}

/// What blanks the first rows of an area.
pub open spec fn blanked(area: Rect, n: int) -> Seq<char>
    decreases n,
{
    if n <= 0 {
        Seq::empty()
    } else {
        blanked(area, n - 1) + cursor_to((area.y + n) as nat, (area.x + 1) as nat) + Seq::new(
            area.width as nat,
            |i: int| ' ',
        )
    }
}

/// Writes what blanks an area, so that no image stays behind.
pub fn clear_payload(area: Rect) -> (r: String)
    ensures
        r@ == blanked(area, area.height as int),
{
    let mut spaces = String::new();
    let mut i: u16 = 0;
    while i < area.width
        invariant
            i <= area.width,
            spaces@ =~= Seq::new(i as nat, |j: int| ' '),
        decreases area.width - i,
    {
        spaces.push(' ');
        i = i + 1;
    }
    let mut out = String::new();
    let mut row: u16 = 0;
    while row < area.height
        invariant
            row <= area.height,
            spaces@ == Seq::new(area.width as nat, |i: int| ' '),
            out@ == blanked(area, row as int),
        decreases area.height - row,
    {
        let ghost before = out@;
        out.append(
            move_cursor(area.y as u128 + row as u128 + 1, area.x as u128 + 1).as_str(),
        );
        out.append(spaces.as_str());
        assert(out@ =~= blanked(area, row + 1));
        row = row + 1;
    }
    out
}

/// Whether inline images are to be printed.
pub open spec fn images_due(s: TrimState, backend: ImageBackend) -> bool {
    backend != ImageBackend::Blocks && s.strip_dirty && s.strip_payloads@.len() > 0
}

impl TrimState {
    /// Gives the inline images to print over the filmstrip pane, and notes that
    /// they are there; none when they are there already.
    pub fn take_images(&mut self, backend: ImageBackend, pane: Rect) -> (r: Vec<String>)
        ensures
            images_due(*old(self), backend) ==> *final(self) == (TrimState {
                strip_area: Some(inside(pane)),
                strip_dirty: false,
                ..*old(self)
            }) && texts(r@) == images_placed(
                texts(old(self).strip_payloads@),
                fitting(inside(pane).width as int, old(self).strip_payloads@.len() as int),
                inside(pane),
            ),
            !images_due(*old(self), backend) ==> r@.len() == 0 && *final(self) == *old(self),
    {
        if backend == ImageBackend::Blocks || !self.strip_dirty || self.strip_payloads.len() == 0 {
            return Vec::new();
        }
        let inner = strip_inner(pane);
        let count: usize = strip_count(inner.width as usize, self.strip_payloads.len());
        let images = positioned_payloads(&self.strip_payloads, count, inner);
        self.strip_area = Some(inner);
        self.strip_dirty = false;
        images
    }
}

// ---------------------------------------------------------------------------
// The ruler and the track
// ---------------------------------------------------------------------------

/// A row with a label written over it from a column on, as far as it fits.
pub open spec fn written(row: Seq<char>, label: Seq<char>, from: int) -> Seq<char> {
    Seq::new(
        row.len(),
        |c: int|
            if from <= c < from + label.len() {
                label[c - from]
            } else {
                row[c]
            },
    )
}

/// The column where a label starts that is centred on a place, and kept within
/// the width.
pub open spec fn label_start(place: int, label: int, width: int) -> int {
    let wanted = if place > label / 2 {
        place - label / 2
    } else {
        0
    };
    let most = if width > label {
        width - label
    } else {
        0
    };
    if wanted < most {
        wanted
    } else {
        most
    }
}

/// A row with a label on a place.
pub open spec fn labelled(row: Seq<char>, label: Seq<char>, place: int) -> Seq<char> {
    written(row, label, label_start(place, label.len() as int, row.len() as int))
}

/// The ruler: the beginning, the middle and the end of the duration.
pub open spec fn ruler(width: int, duration: Option<Duration>) -> Seq<char> {
    match duration {
        Some(d) => if d.nanos > 0 {
            let row = Seq::new(width as nat, |i: int| ' ');
            let first = labelled(row, clock(0), 0);
            let second = labelled(
                first,
                clocked(Duration { nanos: d.nanos / 2 }),
                width / 2,
            );
            labelled(second, clocked(d), width)
        } else {
            "—:—"@
        },
        None => "—:—"@,
    }
}

/// Writes a label over a row.
fn write_label(row: &mut Vec<char>, label: &str, place: usize)
    ensures
        final(row)@ == labelled(old(row)@, label@, place as int),
{
    let x = chars_of(label);
    let n: usize = x.len();
    let width: usize = row.len();
    let wanted: usize = if place > n / 2 {
        place - n / 2
    } else {
        0
    };
    let most: usize = if width > n {
        width - n
    } else {
        0
    };
    let from: usize = if wanted < most {
        wanted
    } else {
        most
    };
    let ghost before = row@;
    let mut i: usize = 0;
    while i < n && i < width - from
        invariant
            n == x@.len(),
            x@ == label@,
            from <= width,
            i <= n,
            i <= width - from,
            row@.len() == width,
            before.len() == width,
            row@ =~= written(before, label@.take(i as int), from as int),
        decreases n - i,
    {
        row.set(from + i, x[i]);
        i = i + 1;
    }
    assert(row@ =~= written(before, label@, from as int));
}

/// Draws the ruler.
pub fn ruler_line(width: usize, duration: Option<Duration>) -> (r: String)
    ensures
        r@ == ruler(width as int, duration),
{
    match duration {
        Some(d) => {
            if d.nanos == 0 {
                return copy_text("—:—");
            }
            let mut row: Vec<char> = Vec::new();
            let mut i: usize = 0;
            while i < width
                invariant
                    i <= width,
                    row@ =~= Seq::new(i as nat, |j: int| ' '),
                decreases width - i,
            {
                row.push(' ');
                i = i + 1;
            }
            write_label(&mut row, format_duration(Duration { nanos: 0 }).as_str(), 0);
            write_label(
                &mut row,
                format_duration(Duration { nanos: d.nanos / 2 }).as_str(),
                width / 2,
            );
            write_label(&mut row, format_duration(d).as_str(), width);
            text_of(&row)
        },
        None => copy_text("—:—"),
    }
}

/// A track: its clips, the focused handle if one is, its duration and its width
/// in columns.
pub struct Track {
    pub clips: Seq<ClipRange>,
    pub handle: int,
    pub live: bool,
    pub duration: int,
    pub width: int,
}

/// Whether a column lies in a clip.
pub open spec fn column_in(t: Track, column: int, c: ClipRange) -> bool {
    c.start.nanos * t.width <= column * t.duration < c.end.nanos * t.width
}

/// Whether a column lies in one of the first clips.
pub open spec fn column_kept(t: Track, column: int, n: int) -> bool {
    exists|i: int| 0 <= i < n && #[trigger] column_in(t, column, t.clips[i])
}

/// The column of a time.
pub open spec fn column_of(t: Track, at: Duration) -> int {
    nearest_up((at.nanos * t.width) as nat, t.duration as nat) as int
}

/// Whether the focused handle of a clip is in a column.
pub open spec fn handle_in(t: Track, column: int, i: int) -> bool {
    ||| t.handle == 2 * i && column_of(t, t.clips[i].start) == column
    ||| t.handle == 2 * i + 1 && column_of(t, t.clips[i].end) == column
}

/// Whether a column is the one of the focused handle.
pub open spec fn column_focused(t: Track, column: int) -> bool {
    let i = t.handle / 2;
    t.live && 0 <= i < t.clips.len() && handle_in(t, column, i)
}

/// How a column is shown: whether it is kept, and whether it is focused.
pub open spec fn column_state(t: Track, column: int) -> (bool, bool) {
    (column_kept(t, column, t.clips.len() as int), column_focused(t, column))
}

/// The sign for a column.
pub open spec fn column_char(state: (bool, bool)) -> char {
    if state.1 {
        '█'
    } else if state.0 {
        '▓'
    } else {
        '░'
    }
}

/// The colour of a column.
pub open spec fn column_tone(state: (bool, bool)) -> Tone {
    if state.1 {
        Tone::Selected
    } else if state.0 {
        Tone::Command
    } else {
        Tone::Muted
    }
}

/// The first columns of a track, those that are shown alike next to each other
/// as one piece.
pub open spec fn track_pieces(t: Track, n: int) -> Seq<(Tone, Seq<char>)>
    decreases n,
{
    if n <= 0 {
        Seq::empty()
    } else {
        let before = track_pieces(t, n - 1);
        let state = column_state(t, n - 1);
        if n > 1 && column_state(t, n - 2) == state {
            before.drop_last().push(
                (before.last().0, before.last().1.push(column_char(state))),
            )
        } else {
            before.push((column_tone(state), seq![column_char(state)]))
        }
    }
}

proof fn lemma_pieces(t: Track, n: int)
    requires
        n > 0,
    ensures
        track_pieces(t, n).len() > 0,
        track_pieces(t, n).last().0 == column_tone(column_state(t, n - 1)),
    decreases n,
{
    if n > 1 {
        lemma_pieces(t, n - 1);
    }
}

/// Whether the times of clips are such as a duration can have.
pub open spec fn clips_fit(clips: Seq<ClipRange>) -> bool {
    forall|i: int|
        0 <= i < clips.len() ==> (#[trigger] clips[i]).start.nanos <= LONGEST && clips[i].end.nanos
            <= LONGEST
}

/// Gives the column of a time.
fn find_column(at: Duration, width: u16, duration: Duration) -> (r: u128)
    requires
        at.nanos <= LONGEST,
        0 < duration.nanos,
    ensures
        r == nearest_up((at.nanos * width) as nat, duration.nanos as nat),
{
    assert(at.nanos * width <= LONGEST * 65535) by (nonlinear_arith)
        requires
            at.nanos <= LONGEST,
            width <= 65535,
    ;
    let a: u128 = at.nanos * width as u128;
    let d: u128 = duration.nanos;
    let q: u128 = a / d;
    let rest: u128 = a % d;
    assert(q <= a && rest < d) by (nonlinear_arith)
        requires
            q == a as int / d as int,
            rest == a as int % d as int,
            d >= 1,
    ;
    if rest < d - rest {
        q
    } else {
        q + 1
    }
}

/// Tests whether a column lies in a clip.
fn test_column(clips: &[ClipRange], width: u16, duration: Duration, column: u16) -> (r: bool)
    requires
        clips_fit(clips@),
        duration.nanos <= LONGEST,
    ensures
        r == column_kept(
            Track {
                clips: clips@,
                handle: 0,
                live: false,
                duration: duration.nanos as int,
                width: width as int,
            },
            column as int,
            clips@.len() as int,
        ),
{
    let ghost t = Track {
        clips: clips@,
        handle: 0,
        live: false,
        duration: duration.nanos as int,
        width: width as int,
    };
    assert(column * duration.nanos <= 65535 * LONGEST) by (nonlinear_arith)
        requires
            column <= 65535,
            duration.nanos <= LONGEST,
    ;
    let at: u128 = column as u128 * duration.nanos;
    let mut found = false;
    let mut i: usize = 0;
    while i < clips.len()
        invariant
            i <= clips@.len(),
            clips_fit(clips@),
            at == column * duration.nanos,
            t.clips == clips@,
            t.duration == duration.nanos,
            t.width == width,
            found == column_kept(t, column as int, i as int),
        decreases clips@.len() - i,
    {
        let c = clips[i];
        assert(c.start.nanos * width <= LONGEST * 65535 && c.end.nanos * width <= LONGEST * 65535)
            by (nonlinear_arith)
            requires
                c.start.nanos <= LONGEST,
                c.end.nanos <= LONGEST,
                width <= 65535,
        ;
        let w: u128 = width as u128;
        let inside = c.start.nanos * w <= at && at < c.end.nanos * w;
        proof {
            assert(inside == column_in(t, column as int, t.clips[i as int]));
            if column_kept(t, column as int, i as int) {
                let j = choose|j: int|
                    0 <= j < i && #[trigger] column_in(t, column as int, t.clips[j]);
                assert(0 <= j < i + 1 && column_in(t, column as int, t.clips[j]));
            }
            if column_kept(t, column as int, i + 1) && !inside {
                let j = choose|j: int|
                    0 <= j < i + 1 && #[trigger] column_in(t, column as int, t.clips[j]);
                assert(0 <= j < i && column_in(t, column as int, t.clips[j]));
            }
            if inside {
                assert(0 <= i < i + 1 && column_in(t, column as int, t.clips[i as int]));
            }
        }
        found = found || inside;
        i = i + 1;
    }
    found
}

/// Draws the track.
pub fn track_spans(
    width: u16,
    duration: Option<Duration>,
    clips: &[ClipRange],
    handle: usize,
    handles_live: bool,
) -> (r: Vec<Piece>)
    requires
        clips_fit(clips@),
        duration matches Some(d) ==> d.nanos <= LONGEST,
    ensures
        line_of(r@) == (match duration {
            Some(d) => if d.nanos > 0 {
                track_pieces(
                    Track {
                        clips: clips@,
                        handle: handle as int,
                        live: handles_live,
                        duration: d.nanos as int,
                        width: width as int,
                    },
                    width as int,
                )
            } else {
                seq![(Tone::Footer, "duration unknown"@)]
            },
            None => seq![(Tone::Footer, "duration unknown"@)],
        }),
{
    let mut out: Vec<Piece> = Vec::new();
    assert(line_of(out@) =~= Seq::<(Tone, Seq<char>)>::empty());
    let d = match duration {
        Some(d) => d,
        None => Duration { nanos: 0 },
    };
    if d.nanos == 0 {
        add_piece(&mut out, Tone::Footer, "duration unknown");
        assert(line_of(out@) =~= seq![(Tone::Footer, "duration unknown"@)]);
        return out;
    }
    let ghost t = Track {
        clips: clips@,
        handle: handle as int,
        live: handles_live,
        duration: d.nanos as int,
        width: width as int,
    };
    let at: usize = handle / 2;
    let marked: Option<u128> = if handles_live && at < clips.len() {
        let c = clips[at];
        Some(
            if handle % 2 == 0 {
                find_column(c.start, width, d)
            } else {
                find_column(c.end, width, d)
            },
        )
    } else {
        None
    };
    let mut current = String::new();
    let mut tone = Tone::Muted;
    let mut kept = false;
    let mut focus = false;
    let mut column: u16 = 0;
    while column < width
        invariant
            column <= width,
            clips_fit(clips@),
            d.nanos <= LONGEST,
            t.clips == clips@,
            t.handle == handle,
            t.live == handles_live,
            t.duration == d.nanos,
            t.width == width,
            forall|c: int|
                #![trigger column_focused(t, c)]
                column_focused(t, c) == (marked matches Some(m) && m == c),
            column == 0 ==> current@.len() == 0 && line_of(out@).len() == 0,
            column > 0 ==> current@.len() > 0 && (kept, focus) == column_state(t, column - 1)
                && tone == column_tone((kept, focus)) && line_of(out@).push((tone, current@))
                == track_pieces(t, column as int),
        decreases width - column,
    {
        let kept_now = test_column(clips, width, d, column);
        let focus_now = match marked {
            Some(m) => m == column as u128,
            None => false,
        };
        proof {
            let plain = Track {
                clips: clips@,
                handle: 0,
                live: false,
                duration: d.nanos as int,
                width: width as int,
            };
            assert(kept_now == column_kept(plain, column as int, clips@.len() as int));
            lemma_same_kept(plain, t, column as int, clips@.len() as int);
            assert(focus_now == column_focused(t, column as int));
            assert((kept_now, focus_now) == column_state(t, column as int));
        }
        let sign = if focus_now {
            '█'
        } else if kept_now {
            '▓'
        } else {
            '░'
        };
        let ghost before = track_pieces(t, column as int);
        if column > 0 && (kept_now != kept || focus_now != focus) {
            add_piece(&mut out, tone, current.as_str());
            assert(line_of(out@) =~= before);
            current = String::new();
        }
        let ghost so_far = current@;
        current.push(sign);
        kept = kept_now;
        focus = focus_now;
        tone = if focus {
            Tone::Selected
        } else if kept {
            Tone::Command
        } else {
            Tone::Muted
        };
        proof {
            let state = column_state(t, column as int);
            assert(sign == column_char(state) && tone == column_tone(state));
            if column > 0 {
                lemma_pieces(t, column as int);
            }
            if so_far.len() == 0 {
                assert(current@ =~= seq![sign]);
            }
            if column > 0 && so_far.len() > 0 {
                assert(before.drop_last() =~= line_of(out@));
            }
            assert(line_of(out@).push((tone, current@)) =~= track_pieces(t, column + 1));
        }
        column = column + 1;
    }
    if width > 0 {
        add_piece(&mut out, tone, current.as_str());
    }
    assert(line_of(out@) =~= track_pieces(t, width as int));
    out
}

proof fn lemma_same_kept(a: Track, b: Track, column: int, n: int)
    requires
        a.clips == b.clips,
        a.duration == b.duration,
        a.width == b.width,
    ensures
        column_kept(a, column, n) == column_kept(b, column, n),
{
    if column_kept(a, column, n) {
        let i = choose|i: int| 0 <= i < n && #[trigger] column_in(a, column, a.clips[i]);
        assert(column_in(b, column, b.clips[i]));
    }
    if column_kept(b, column, n) {
        let i = choose|i: int| 0 <= i < n && #[trigger] column_in(b, column, b.clips[i]);
        assert(column_in(a, column, a.clips[i]));
    }
}

// ---------------------------------------------------------------------------
// The other panes
// ---------------------------------------------------------------------------

/// The header: the input, its duration, and what is kept of it.
pub open spec fn header_text(s: TrimState) -> Seq<(Tone, Seq<char>)> {
    let length = match s.duration {
        Some(d) => clocked(d),
        None => "probing…"@,
    };
    seq![
        (Tone::Title, "Trim"@),
        (
            Tone::Muted,
            " — "@ + s.input@ + " · "@ + length + " · "@ + dec(s.clips@.len() as nat)
                + " clip(s), "@ + clock(kept(s.clips@) / 1_000_000_000) + " kept"@,
        ),
    ]
}

/// Writes the header.
pub fn header_line(state: &TrimState) -> (r: Vec<Piece>)
    requires
        kept(state.clips@) <= u128::MAX,
    ensures
        line_of(r@) == header_text(*state),
{
    let length = match state.duration {
        Some(d) => format_duration(d),
        None => copy_text("probing…"),
    };
    let mut text = join3(" — ", state.input.as_str(), " · ");
    text.append(length.as_str());
    text.append(" · ");
    text.append(show_usize(state.clips.len()).as_str());
    text.append(" clip(s), ");
    text.append(format_duration(state.total_kept()).as_str());
    text.append(" kept");
    let mut l: Vec<Piece> = Vec::new();
    assert(line_of(l@) =~= Seq::<(Tone, Seq<char>)>::empty());
    add_piece(&mut l, Tone::Title, "Trim");
    add_piece(&mut l, Tone::Muted, text.as_str());
    assert(line_of(l@) =~= header_text(*state));
    l
}

/// What is said of a clip.
pub open spec fn clip_line(i: int, c: ClipRange, focused: bool) -> Seq<(Tone, Seq<char>)> {
    let marker = if focused {
        "▸ "@
    } else {
        "  "@
    };
    seq![
        (
            if focused {
                Tone::Selected
            } else {
                Tone::Muted
            },
            marker + dec((i + 1) as nat) + ". "@ + clocked(c.start) + "–"@ + clocked(c.end)
                + " ("@ + clock(c.length() / 1_000_000_000) + " kept)"@,
        ),
    ]
}

/// How many clips are listed.
pub open spec fn listed(n: int) -> int {
    if n < 3 {
        n
    } else {
        3
    }
}

/// The list of clips: the first three, and how many more there are.
pub open spec fn clip_list(clips: Seq<ClipRange>, handle: int) -> Seq<Seq<(Tone, Seq<char>)>> {
    (if clips.len() == 0 {
        seq![seq![(Tone::Warning, "No clips — press n to create one."@)]]
    } else {
        Seq::empty()
    }) + Seq::new(
        listed(clips.len() as int) as nat,
        |i: int| clip_line(i, clips[i], handle / 2 == i),
    ) + (if clips.len() > 3 {
        seq![seq![(Tone::Footer, "+ "@ + dec((clips.len() - 3) as nat) + " more"@)]]
    } else {
        Seq::empty()
    })
}

/// The first of the three fields that are shown around the focused one.
pub open spec fn window(focus: int, n: int) -> int {
    let wanted = if focus > 0 {
        focus - 1
    } else {
        0
    };
    let most = if n > 3 {
        n - 3
    } else {
        0
    };
    if wanted < most {
        wanted
    } else {
        most
    }
}

/// The fields from one on to another.
pub open spec fn fields_from(s: TrimState, from: int, to: int) -> Seq<Seq<(Tone, Seq<char>)>>
    decreases to - from,
{
    if from >= to {
        Seq::empty()
    } else {
        let focused = to - 1 == s.field_focus;
        fields_from(s, from, to - 1) + row_lines(
            rows(s.fields@)[to - 1],
            focused,
            focused && s.editing && s.edit_select_all,
        )
    }
}

/// The end of the window of fields.
pub open spec fn window_end(focus: int, n: int) -> int {
    let from = window(focus, n);
    if from + 3 < n {
        from + 3
    } else {
        n
    }
}

/// The clips, or the fields around the focused one.
pub open spec fn middle(s: TrimState) -> Seq<Seq<(Tone, Seq<char>)>> {
    let n = s.fields@.len() as int;
    match s.zone {
        TrimZone::Timeline => clip_list(s.clips@, s.handle as int),
        TrimZone::Fields => fields_from(
            s,
            window(s.field_focus as int, n),
            window_end(s.field_focus as int, n),
        ),
    }
}

/// Works out the window of fields.
fn find_window(focus: usize, n: usize) -> (r: usize)
    ensures
        r == window(focus as int, n as int),
{
    let wanted: usize = if focus > 0 {
        focus - 1
    } else {
        0
    };
    let most: usize = if n > 3 {
        n - 3
    } else {
        0
    };
    if wanted < most {
        wanted
    } else {
        most
    }
}

/// Writes what is said of a clip.
fn add_clip(out: &mut Vec<Vec<Piece>>, i: usize, c: ClipRange, focused: bool)
    requires
        i < 3,
    ensures
        lines_of(final(out)@) == lines_of(old(out)@).push(clip_line(i as int, c, focused)),
{
    let marker = if focused {
        "▸ "
    } else {
        "  "
    };
    let mut text = join3(marker, show_usize(i + 1).as_str(), ". ");
    text.append(format_duration(c.start).as_str());
    text.append("–");
    text.append(format_duration(c.end).as_str());
    text.append(" (");
    text.append(format_duration(c.len()).as_str());
    text.append(" kept)");
    let tone = if focused {
        Tone::Selected
    } else {
        Tone::Muted
    };
    add_line(out, tone, text.as_str());
}

/// Writes the list of clips.
fn clip_lines(clips: &Vec<ClipRange>, handle: usize) -> (r: Vec<Vec<Piece>>)
    ensures
        lines_of(r@) == clip_list(clips@, handle as int),
{
    let n: usize = clips.len();
    let mut out = no_lines();
    if n == 0 {
        add_line(&mut out, Tone::Warning, "No clips — press n to create one.");
    }
    let ghost head = lines_of(out@);
    let mut i: usize = 0;
    while i < n && i < 3
        invariant
            n == clips@.len(),
            i <= n,
            i <= 3,
            lines_of(out@) =~= head + Seq::new(
                i as nat,
                |i: int| clip_line(i, clips@[i], handle as int / 2 == i),
            ),
        decreases n - i,
    {
        add_clip(&mut out, i, clips[i], handle / 2 == i);
        i = i + 1;
    }
    if n > 3 {
        add_line(
            &mut out,
            Tone::Footer,
            join3("+ ", show_usize(n - 3).as_str(), " more").as_str(),
        );
    }
    assert(lines_of(out@) =~= clip_list(clips@, handle as int));
    out
}

/// Writes the clips, or the fields around the focused one.
pub fn middle_lines(state: &TrimState) -> (r: Vec<Vec<Piece>>)
    ensures
        lines_of(r@) == middle(*state),
{
    match state.zone {
        TrimZone::Timeline => clip_lines(&state.clips, state.handle),
        TrimZone::Fields => {
            let n: usize = state.fields.len();
            let from: usize = find_window(state.field_focus, n);
            let to: usize = if from < n && n - from > 3 {
                from + 3
            } else {
                n
            };
            let mut out = no_lines();
            let mut i: usize = from;
            while i < to
                invariant
                    from <= i,
                    from <= to ==> i <= to,
                    to <= n,
                    n == state.fields@.len(),
                    lines_of(out@) == fields_from(*state, from as int, i as int),
                decreases to - i,
            {
                let focused = i == state.field_focus;
                assert(rows(state.fields@)[i as int] == state.fields@[i as int]@);
                let l = field_lines(
                    &state.fields[i],
                    focused,
                    focused && state.editing && state.edit_select_all,
                );
                add_all(&mut out, l);
                i = i + 1;
            }
            out
        },
    }
}

/// What is explained while the track has the keyboard.
pub const TRACK_HELP: &'static str = "One track, full duration. Tab cycles handles, arrows move the focused one (Shift for fine steps), n adds a clip where space is free, d removes. Output follows timeline position.";

/// The explanation of what has the keyboard.
pub open spec fn explained(s: TrimState) -> Option<(Seq<char>, Seq<char>)> {
    match s.zone {
        TrimZone::Timeline => Some(("Timeline"@, TRACK_HELP@)),
        TrimZone::Fields => if s.field_focus < s.fields@.len() {
            let f = s.fields@[s.field_focus as int]@;
            Some((f.label, f.help))
        } else {
            None
        },
    }
}

/// Explains what has the keyboard.
pub fn focused_explanation(state: &TrimState) -> (r: Option<(&str, &str)>)
    ensures
        match r {
            Some((label, text)) => explained(*state) == Some((label@, text@)),
            None => explained(*state) is None,
        },
{
    match state.zone {
        TrimZone::Timeline => Some(("Timeline", TRACK_HELP)),
        TrimZone::Fields => {
            if state.field_focus < state.fields.len() {
                let f = &state.fields[state.field_focus];
                Some((f.label.as_str(), f.explanation.as_str()))
            } else {
                None
            }
        },
    }
}

/// Where the cursor of the edited text stands, if it is within the pane.
pub open spec fn cursor_cell(s: TrimState, area: Rect) -> Option<(int, int)> {
    let n = s.fields@.len() as int;
    let focus = s.field_focus as int;
    if focus >= n {
        None
    } else {
        let r = s.fields@[focus]@;
        match r.control {
            Control::Text { buffer } => {
                let seen = columns_before(buffer.text, buffer.cursor) % 65536;
                let column = if seen < 40 {
                    seen
                } else {
                    40
                };
                let x = area.x + 6 + width(r.label) % 65536 + column;
                let y = area.y + 1 + (focus - window(focus, n));
                if x >= area.x + area.width || y >= area.y + area.height {
                    None
                } else {
                    Some((x as int, y as int))
                }
            },
            _ => None,
        }
    }
}

/// Works out where the cursor of the edited text stands.
pub fn edit_cursor(state: &TrimState, area: Rect) -> (r: Option<(u16, u16)>)
    requires
        area.wf(),
    ensures
        match r {
            Some((x, y)) => cursor_cell(*state, area) == Some((x as int, y as int)),
            None => cursor_cell(*state, area) is None,
        },
{
    let n: usize = state.fields.len();
    let focus: usize = state.field_focus;
    if focus >= n {
        return None;
    }
    let field = &state.fields[focus];
    if let FieldKind::Text { value } = &field.kind {
        let seen: u64 = visual_cursor_of(value) as u64 % 65536;
        let column: u64 = if seen < 40 {
            seen
        } else {
            40
        };
        let label: u64 = width_of(field.label.as_str()) as u64 % 65536;
        let x: u64 = area.x as u64 + 6 + label + column;
        let y: u64 = area.y as u64 + 1 + (focus - find_window(focus, n)) as u64;
        if x >= area.x as u64 + area.width as u64 || y >= area.y as u64 + area.height as u64 {
            None
        } else {
            Some((x as u16, y as u16))
        }
    } else {
        None
    }
}

/// The footer.
pub open spec fn trim_footer(zone: TrimZone, editing: bool) -> Seq<char> {
    if editing {
        "typing… Enter done · Esc cancel"@
    } else {
        match zone {
            TrimZone::Timeline => "Tab handle · ←→/hl move · ⇧←→/HL fine · n clip · d delete · f fields · Enter run · esc back"@,
            TrimZone::Fields => "↑↓ field · ←→ adjust · Enter edit/run · Tab timeline · esc back"@,
        }
    }
}

/// Gives the footer.
pub fn footer(state: &TrimState) -> (r: &'static str)
    ensures
        r@ == trim_footer(state.zone, state.editing),
{
    if state.editing {
        "typing… Enter done · Esc cancel"
    } else {
        match state.zone {
            TrimZone::Timeline => "Tab handle · ←→/hl move · ⇧←→/HL fine · n clip · d delete · f fields · Enter run · esc back",
            TrimZone::Fields => "↑↓ field · ←→ adjust · Enter edit/run · Tab timeline · esc back",
        }
    }
}

// ---------------------------------------------------------------------------
// Laws
// ---------------------------------------------------------------------------

/// The track has one character for each column. A column is shaded exactly when
/// the moment it stands for lies in a clip, unless the focused handle lies there;
/// that is drawn in the column nearest to it.
pub proof fn law_the_track_shows_what_is_kept(t: Track, column: int)
    requires
        0 <= column < t.width,
        t.duration > 0,
        0 <= t.handle,
    ensures
        ({
            let track = spoken(track_pieces(t, t.width));
            let inside = exists|i: int|
                0 <= i < t.clips.len() && (#[trigger] t.clips[i]).start.nanos * t.width <= column
                    * t.duration < t.clips[i].end.nanos * t.width;
            let handle = if t.handle % 2 == 0 {
                t.clips[t.handle / 2].start.nanos as int
            } else {
                t.clips[t.handle / 2].end.nanos as int
            };
            &&& track.len() == t.width
            &&& track[column] == '▓' ==> inside
            &&& track[column] == '░' ==> !inside
            &&& track[column] == '▓' || track[column] == '░' || track[column] == '█'
            &&& track[column] == '█' ==> t.live && t.handle / 2 < t.clips.len() && 2 * (column
                * t.duration) <= 2 * (handle * t.width) + t.duration && 2 * (handle * t.width) < 2
                * (column * t.duration) + t.duration
            &&& t.live && t.handle / 2 < t.clips.len() && 2 * (column * t.duration) <= 2 * (handle
                * t.width) + t.duration && 2 * (handle * t.width) < 2 * (column * t.duration)
                + t.duration ==> track[column] == '█'
        }),
{
    lemma_track_reads(t, t.width, column);
    let i = t.handle / 2;
    let inside = exists|i: int|
        0 <= i < t.clips.len() && (#[trigger] t.clips[i]).start.nanos * t.width <= column
            * t.duration < t.clips[i].end.nanos * t.width;
    if column_kept(t, column, t.clips.len() as int) {
        let k = choose|k: int| 0 <= k < t.clips.len() && #[trigger] column_in(t, column, t.clips[k]);
        assert(t.clips[k].start.nanos * t.width <= column * t.duration);
    }
    if inside {
        let k = choose|k: int|
            0 <= k < t.clips.len() && (#[trigger] t.clips[k]).start.nanos * t.width <= column
                * t.duration < t.clips[k].end.nanos * t.width;
        assert(column_in(t, column, t.clips[k]));
    }
    if i < t.clips.len() {
        lemma_nearest_column(t, t.clips[i].start, column);
        lemma_nearest_column(t, t.clips[i].end, column);
    }
}

proof fn lemma_nearest_column(t: Track, at: Duration, column: int)
    requires
        0 <= column < t.width,
        t.duration > 0,
    ensures
        column_of(t, at) == column <==> 2 * (column * t.duration) <= 2 * (at.nanos * t.width)
            + t.duration && 2 * (at.nanos * t.width) < 2 * (column * t.duration) + t.duration,
{
    let n = at.nanos * t.width;
    assert(n >= 0) by (nonlinear_arith)
        requires
            n == at.nanos * t.width,
            t.width > 0,
    ;
    let d = t.duration;
    vstd::arithmetic::div_mod::lemma_fundamental_div_mod(n, d);
    let k = n / d;
    let m = n % d;
    assert(column_of(t, at) == (if 2 * m < d {
        k
    } else {
        k + 1
    }));
    assert((if 2 * m < d {
        k
    } else {
        k + 1
    }) == column <==> 2 * (column * d) <= 2 * n + d && 2 * n < 2 * (column * d) + d) by (nonlinear_arith)
        requires
            n == d * k + m,
            0 <= m < d,
    ;
}

proof fn lemma_track_reads(t: Track, n: int, column: int)
    requires
        0 <= column < n,
    ensures
        spoken(track_pieces(t, n)).len() == n,
        spoken(track_pieces(t, n))[column] == column_char(column_state(t, column)),
    decreases n,
{
    let before = track_pieces(t, n - 1);
    let state = column_state(t, n - 1);
    let all = track_pieces(t, n);
    let c = column_char(state);
    assert(spoken(all) =~= spoken(before).push(c)) by {
        if n > 1 && column_state(t, n - 2) == state {
            lemma_pieces(t, n - 1);
            assert(all.drop_last() =~= before.drop_last());
        } else {
            assert(all.drop_last() =~= before);
        }
    }
    if n > 1 {
        lemma_track_reads(
            t,
            n - 1,
            if column < n - 1 {
                column
            } else {
                0
            },
        );
    } else {
        assert(before.len() == 0);
    }
}

/// The thumbnails that are shown are spread over all there are: each stands for
/// its share, in order, and none is shown twice where there are enough.
pub proof fn law_thumbnails_are_spread_evenly(total: int, count: int, i: int)
    requires
        0 <= i < count,
        0 < total,
    ensures
        spread(total, count).len() == count,
        0 <= spread(total, count)[i] < total,
        spread(total, count)[i] * count <= i * total < (spread(total, count)[i] + 1) * count,
        i == 0 ==> spread(total, count)[i] == 0,
{
    let n = i * total;
    let k = n / count;
    vstd::arithmetic::div_mod::lemma_fundamental_div_mod(n, count);
    assert(0 <= n < count * total) by (nonlinear_arith)
        requires
            n == i * total,
            0 <= i < count,
            0 < total,
    ;
    assert(k * count <= n < (k + 1) * count && 0 <= k < total) by (nonlinear_arith)
        requires
            n == count * k + n % count,
            0 <= n % count < count,
            0 <= n < count * total,
    ;
}

/// The fields that are shown always hold the focused one.
pub proof fn law_the_focused_field_is_shown(focus: int, n: int)
    requires
        0 <= focus < n,
    ensures
        0 <= window(focus, n) <= focus < window_end(focus, n) <= n,
        window_end(focus, n) - window(focus, n) == (if n < 3 {
            n
        } else {
            3
        }),
{
}

/// Each of the first clips has its line: its number from one on, from when to
/// when it goes, and how long it is. The rest is counted.
pub proof fn law_clips_are_listed_by_number(clips: Seq<ClipRange>, handle: int, i: int)
    requires
        0 <= i < clips.len(),
        i < 3,
    ensures
        ({
            let lines = clip_list(clips, handle);
            &&& lines.len() == (if clips.len() > 3 {
                4
            } else {
                clips.len() as int
            })
            &&& lines[i][0].1 == (if handle / 2 == i {
                "▸ "@
            } else {
                "  "@
            }) + dec((i + 1) as nat) + ". "@ + clock(
                (clips[i].start.nanos / 1_000_000_000) as nat,
            ) + "–"@ + clock((clips[i].end.nanos / 1_000_000_000) as nat) + " ("@ + clock(
                clips[i].length() / 1_000_000_000,
            ) + " kept)"@
            &&& clips.len() > 3 ==> lines[3][0].1 == "+ "@ + dec((clips.len() - 3) as nat)
                + " more"@
        }),
{
}

/// A label that fits is written whole, and nothing else of the row changes.
pub proof fn law_labels_are_written_whole(row: Seq<char>, label: Seq<char>, place: int)
    requires
        label.len() <= row.len(),
        0 <= place <= row.len(),
    ensures
        ({
            let from = label_start(place, label.len() as int, row.len() as int);
            let after = labelled(row, label, place);
            &&& 0 <= from && from + label.len() <= row.len()
            &&& after.len() == row.len()
            &&& after.subrange(from, from + label.len()) == label
            &&& forall|c: int|
                0 <= c < row.len() && !(from <= c < from + label.len()) ==> #[trigger] after[c]
                    == row[c]
            &&& place == 0 ==> from == 0
            &&& place == row.len() && label.len() >= 2 ==> from + label.len() == row.len()
        }),
{
    let from = label_start(place, label.len() as int, row.len() as int);
    assert(labelled(row, label, place).subrange(from, from + label.len()) =~= label);
}

} // verus!
