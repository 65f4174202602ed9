//! The log pane: FFmpeg's error output, its last lines or a window further up.

use std::collections::VecDeque;
use vstd::prelude::*;
use crate::backlog::{push_line, pushed};
use crate::number::{dec, show_usize};
use crate::text::{join3, texts};
use crate::ui::line::{add_line, lines_of, no_lines, Piece, Tone};

verus! {

/// How many lines the pane keeps.
pub const LOG_DISPLAY_CAP: usize = 300;

/// Adds a line, and drops the oldest past the limit.
pub fn push_log(log: &mut VecDeque<String>, line: String)
    ensures
        texts(final(log)@) == pushed(texts(old(log)@), line@, LOG_DISPLAY_CAP as nat),
{
    push_line(log, line, LOG_DISPLAY_CAP);
}

/// The title of the pane.
pub open spec fn log_heading(n: nat, expanded: bool) -> Seq<char> {
    "Log — "@ + dec(n) + (if expanded {
        " lines (l collapses, ↑↓ scrolls)"@
    } else {
        " lines (l expands)"@
    })
}

/// Writes the title of the pane.
pub fn log_title(n: usize, expanded: bool) -> (r: String)
    ensures
        r@ == log_heading(n as nat, expanded),
{
    let end = if expanded {
        " lines (l collapses, ↑↓ scrolls)"
    } else {
        " lines (l expands)"
    };
    join3("Log — ", show_usize(n).as_str(), end)
}

/// The lines shown, as a range: collapsed, the last three at most; expanded, a
/// window that ends `scroll` lines above the last.
pub open spec fn log_range(n: int, expanded: bool, scroll: int, rows: int) -> (int, int) {
    if expanded {
        let size = if rows > 0 {
            rows
        } else {
            1
        };
        let end = if n > scroll {
            n - scroll
        } else {
            0
        };
        let start = if end > size {
            end - size
        } else {
            0
        };
        (
            start,
            if n - start < size {
                n
            } else {
                start + size
            },
        )
    } else {
        let size = if rows < 1 {
            1
        } else if rows > 3 {
            3
        } else {
            rows
        };
        (
            if n > size {
                n - size
            } else {
                0
            },
            n,
        )
    }
}

/// The lines of the pane.
pub open spec fn log_text(log: Seq<Seq<char>>, expanded: bool, scroll: int, rows: int) -> Seq<
    Seq<(Tone, Seq<char>)>,
> {
    if log.len() == 0 {
        seq![seq![(Tone::Muted, "No output yet."@)]]
    } else {
        let (from, to) = log_range(log.len() as int, expanded, scroll, rows);
        let tone = if expanded {
            Tone::Plain
        } else {
            Tone::Muted
        };
        Seq::new((to - from) as nat, |i: int| seq![(tone, log[from + i])])
    }
}

/// Writes the lines of the pane.
pub fn log_lines(log: &VecDeque<String>, expanded: bool, scroll: usize, rows: usize) -> (r: Vec<
    Vec<Piece>,
>)
    ensures
        lines_of(r@) == log_text(texts(log@), expanded, scroll as int, rows as int),
{
    let ghost all = texts(log@);
    let n: usize = log.len();
    let mut out = no_lines();
    if n == 0 {
        add_line(&mut out, Tone::Muted, "No output yet.");
        assert(lines_of(out@) =~= seq![seq![(Tone::Muted, "No output yet."@)]]);
        return out;
    }
    let (from, to, tone) = if expanded {
        let size: usize = if rows > 0 {
            rows
        } else {
            1
        };
        let end: usize = if n > scroll {
            n - scroll
        } else {
            0
        };
        let start: usize = if end > size {
            end - size
        } else {
            0
        };
        let stop: usize = if n - start < size {
            n
        } else {
            start + size
        };
        (start, stop, Tone::Plain)
    } else {
        let size: usize = if rows < 1 {
            1
        } else if rows > 3 {
            3
        } else {
            rows
        };
        let start: usize = if n > size {
            n - size
        } else {
            0
        };
        (start, n, Tone::Muted)
    };
    let ghost want = Seq::new((to - from) as nat, |i: int| seq![(tone, all[from + i])]);
    let mut i: usize = from;
    while i < to
        invariant
            from <= i <= to <= n,
            n == log@.len(),
            all == texts(log@),
            want == Seq::new((to - from) as nat, |i: int| seq![(tone, all[from + i])]),
            lines_of(out@) =~= want.take(i - from),
        decreases to - i,
    {
        assert(all[i as int] == log@[i as int]@);
        add_line(&mut out, tone, log[i].as_str());
        i = i + 1;
    }
    assert(lines_of(out@) =~= want);
    out
}

/// The log shows its end: closed the last lines, at most three; open as many of
/// the last as there are rows, and each step up shows one line earlier.
pub proof fn law_the_log_shows_its_end(log: Seq<Seq<char>>, rows: int, scroll: int, i: int)
    requires
        log.len() > 0,
        rows >= 1,
        0 <= scroll,
    ensures
        ({
            let n = log.len() as int;
            let closed = log_text(log, false, scroll, rows);
            let open = log_text(log, true, 0, rows);
            &&& closed.len() <= 3 && closed.len() <= rows && closed.len() <= n
            &&& closed.len() == 3 || closed.len() == rows || closed.len() == n
            &&& 0 <= i < closed.len() ==> closed[i].len() == 1 && closed[i][0].1 == log[n
                - closed.len() + i]
            &&& open.len() <= rows && open.len() <= n
            &&& open.len() == rows || open.len() == n
            &&& 0 <= i < open.len() ==> open[i].len() == 1 && open[i][0].1 == log[n - open.len() + i]
            &&& rows + scroll < n && 0 <= i < rows ==> log_text(log, true, scroll, rows)[i][0].1
                == log[n - rows - scroll + i] && log_text(log, true, scroll + 1, rows)[i][0].1
                == log[n - rows - scroll + i - 1]
        }),
{
}

} // verus!
