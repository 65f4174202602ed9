//! The progress bar. When the length of the input is unknown it shows a
//! spinner, and never a made-up percentage.

use vstd::prelude::*;
use crate::ffmpeg::progress::{nearest_up, percent, Ratio};
use crate::queue::job::{percent_text, show_percent};
use crate::text::join2;
use crate::ui::line::{add_piece, line_of, Piece, Tone};

verus! {

/// A frame of the spinner.
pub open spec fn spinner(tick: nat) -> Seq<char> {
    let i = tick % 10;
    if i == 0 {
        "⠋"@
    } else if i == 1 {
        "⠙"@
    } else if i == 2 {
        "⠹"@
    } else if i == 3 {
        "⠸"@
    } else if i == 4 {
        "⠼"@
    } else if i == 5 {
        "⠴"@
    } else if i == 6 {
        "⠦"@
    } else if i == 7 {
        "⠧"@
    } else if i == 8 {
        "⠇"@
    } else {
        "⠏"@
    }
}

/// Gives a frame of the spinner.
pub fn spinner_frame(tick: usize) -> (r: &'static str)
    ensures
        r@ == spinner(tick as nat),
{
    let i: usize = tick % 10;
    if i == 0 {
        "⠋"
    } else if i == 1 {
        "⠙"
    } else if i == 2 {
        "⠹"
    } else if i == 3 {
        "⠸"
    } else if i == 4 {
        "⠼"
    } else if i == 5 {
        "⠴"
    } else if i == 6 {
        "⠦"
    } else if i == 7 {
        "⠧"
    } else if i == 8 {
        "⠇"
    } else {
        "⠏"
    }
}

/// A fraction, cut off at one.
pub open spec fn at_most_one(q: Ratio) -> Ratio {
    if q.num > q.den {
        Ratio { num: q.den, den: q.den }
    } else {
        q
    }
}

/// The number of cells of a bar in a given width.
pub open spec fn bar_cells(width: int) -> int {
    if width - 11 > 8 {
        width - 11
    } else {
        8
    }
}

/// A bar of cells, the first of them filled.
pub open spec fn bar_text(filled: int, cells: int) -> Seq<char> {
    Seq::new(
        cells as nat,
        |i: int|
            if i < filled {
                '█'
            } else {
                '░'
            },
    )
}

/// A bar and its percentage.
pub open spec fn bar_line(ratio: Ratio, width: int) -> Seq<(Tone, Seq<char>)> {
    let q = at_most_one(ratio);
    let cells = bar_cells(width);
    let filled = nearest_up(cells as nat * q.num as nat, q.den as nat) as int;
    seq![(Tone::Command, bar_text(filled, cells)), (Tone::Title, " "@ + percent_text(percent(q)))]
}

/// Writes a bar and its percentage.
pub fn determinate_line(ratio: Ratio, width: u16) -> (r: Vec<Piece>)
    requires
        ratio.den > 0,
    ensures
        line_of(r@) == bar_line(ratio, width as int),
{
    let q = if ratio.num > ratio.den {
        Ratio { num: ratio.den, den: ratio.den }
    } else {
        ratio
    };
    let cells: u32 = if width > 19 {
        (width - 11) as u32
    } else {
        8
    };
    let filled = q.part_of(cells);
    let mut bar = String::new();
    let mut i: u32 = 0;
    while i < cells
        invariant
            i <= cells,
            bar@ =~= bar_text(filled as int, cells as int).take(i as int),
        decreases cells - i,
    {
        bar.push(
            if i < filled {
                '█'
            } else {
                '░'
            },
        );
        i = i + 1;
    }
    assert(bar@ =~= bar_text(filled as int, cells as int));
    let mut l: Vec<Piece> = Vec::new();
    assert(line_of(l@) =~= Seq::<(Tone, Seq<char>)>::empty());
    add_piece(&mut l, Tone::Command, bar.as_str());
    add_piece(&mut l, Tone::Title, join2(" ", show_percent(q.percent()).as_str()).as_str());
    assert(line_of(l@) =~= bar_line(ratio, width as int));
    l
}

/// A spinner in place of a bar.
pub open spec fn spinner_line(tick: nat) -> Seq<(Tone, Seq<char>)> {
    seq![
        (Tone::Title, spinner(tick) + " "@),
        (Tone::Muted, "working — total duration unknown"@),
    ]
}

/// Writes a spinner in place of a bar.
pub fn indeterminate_line(tick: usize) -> (r: Vec<Piece>)
    ensures
        line_of(r@) == spinner_line(tick as nat),
{
    let mut l: Vec<Piece> = Vec::new();
    assert(line_of(l@) =~= Seq::<(Tone, Seq<char>)>::empty());
    add_piece(&mut l, Tone::Title, join2(spinner_frame(tick), " ").as_str());
    add_piece(&mut l, Tone::Muted, "working — total duration unknown");
    assert(line_of(l@) =~= spinner_line(tick as nat));
    l
}

/// A cell of the bar is filled exactly when its middle lies within the part
/// that is done; a finished job fills them all.
pub proof fn law_bars_fill_in_proportion(q: Ratio, width: int, i: int)
    requires
        q.den > 0,
        0 <= i < bar_cells(width),
    ensures
        ({
            let bar = bar_line(q, width)[0].1;
            &&& bar.len() == bar_cells(width)
            &&& q.num <= q.den ==> (bar[i] == '█' <==> (2 * i + 1) * q.den <= 2 * (bar_cells(width)
                * q.num))
            &&& q.num >= q.den ==> bar[i] == '█'
            &&& bar[i] == '█' || bar[i] == '░'
        }),
{
    let r = at_most_one(q);
    let cells = bar_cells(width);
    let n = cells as nat * r.num as nat;
    let d = r.den as nat;
    let f = nearest_up(n, d);
    vstd::arithmetic::div_mod::lemma_fundamental_div_mod(n as int, d as int);
    let k = n / d;
    let m = n % d;
    assert(n == d * k + m && 0 <= m < d);
    assert(i < f <==> (2 * i + 1) * d <= 2 * n) by (nonlinear_arith)
        requires
            n == d * k + m,
            0 <= m < d,
            f == (if 2 * m < d {
                k
            } else {
                (k + 1) as nat
            }),
    ;
    if q.num >= q.den {
        assert(n == cells * d);
        assert((2 * i + 1) * d <= 2 * (cells * d)) by (nonlinear_arith)
            requires
                i < cells,
                d > 0,
        ;
    }
}

} // verus!
