//! The help overlay.

use vstd::prelude::*;
use crate::text::{chars_of, copy_text};
use crate::ui::line::{add_line, add_piece, add_whole, line_of, lines_of, no_lines, Piece, Tone};

verus! {

/// The keys and what they do.
pub open spec fn key_table() -> Seq<(Seq<char>, Seq<char>)> {
    seq![
        ("↑ ↓ / k j"@, "Move between fields or list items"@),
        ("← → / h l"@, "Adjust the focused value (h goes up in the file browser)"@),
        ("Enter"@, "Confirm / run (opens directories in the file browser)"@),
        ("Esc"@, "Back one screen (clears the browser filter first)"@),
        ("Tab / Shift+Tab"@, "Cycle panes"@),
        ("c"@, "Copy command to clipboard"@),
        ("q"@, "Quit (confirm if jobs are running)"@),
        ("Ctrl+C"@, "Cancel running job; second press quits"@),
        ("?"@, "This help overlay"@),
        ("/"@, "Jump to a path (file browser)"@),
        ("~"@, "Home directory (file browser)"@),
        ("a"@, "Toggle all files / media only (file browser)"@),
        ("g G"@, "First / last entry (file browser)"@),
        ("Space"@, "Toggle selection (file browser, queue)"@),
        ("type to filter"@, "Type-ahead search within the directory"@),
        ("l"@, "Toggle stderr log (running screen)"@),
        ("y / n"@, "Answer prompts (overwrite, delete partial file)"@),
        ("Q"@, "Job queue (from picker, browser, form)"@),
        ("p"@, "Preset picker (operation picker)"@),
        ("s"@, "Save form as preset (parameter form)"@),
        ("x"@, "Remove pending job (queue screen)"@),
    ]
}

/// Lists the keys and what they do.
pub fn bindings() -> (r: Vec<(&'static str, &'static str)>)
    ensures
        r@.map_values(|b: (&'static str, &'static str)| (b.0@, b.1@)) == key_table(),
{
    let out = vec![
        ("↑ ↓ / k j", "Move between fields or list items"),
        ("← → / h l", "Adjust the focused value (h goes up in the file browser)"),
        ("Enter", "Confirm / run (opens directories in the file browser)"),
        ("Esc", "Back one screen (clears the browser filter first)"),
        ("Tab / Shift+Tab", "Cycle panes"),
        ("c", "Copy command to clipboard"),
        ("q", "Quit (confirm if jobs are running)"),
        ("Ctrl+C", "Cancel running job; second press quits"),
        ("?", "This help overlay"),
        ("/", "Jump to a path (file browser)"),
        ("~", "Home directory (file browser)"),
        ("a", "Toggle all files / media only (file browser)"),
        ("g G", "First / last entry (file browser)"),
        ("Space", "Toggle selection (file browser, queue)"),
        ("type to filter", "Type-ahead search within the directory"),
        ("l", "Toggle stderr log (running screen)"),
        ("y / n", "Answer prompts (overwrite, delete partial file)"),
        ("Q", "Job queue (from picker, browser, form)"),
        ("p", "Preset picker (operation picker)"),
        ("s", "Save form as preset (parameter form)"),
        ("x", "Remove pending job (queue screen)"),
    ];
    assert(out@.map_values(|b: (&'static str, &'static str)| (b.0@, b.1@)) =~= key_table());
    out
}

/// A text filled up with blanks.
pub open spec fn filled(s: Seq<char>, width: nat) -> Seq<char> {
    if s.len() < width {
        s + Seq::new((width - s.len()) as nat, |i: int| ' ')
    } else {
        s
    }
}

/// Fills a text up with blanks.
pub fn fill(s: &str, width: usize) -> (r: String)
    ensures
        r@ == filled(s@, width as nat),
{
    let x = chars_of(s);
    let mut out = copy_text(s);
    let mut n: usize = x.len();
    while n < width
        invariant
            x@ == s@,
            x@.len() <= n,
            n <= width || n == x@.len(),
            out@ =~= s@ + Seq::new((n - x@.len()) as nat, |i: int| ' '),
        decreases width - n,
    {
        out.push(' ');
        n = n + 1;
    }
    assert(out@ =~= filled(s@, width as nat));
    out
}

/// One line of the overlay.
pub open spec fn key_line(b: (Seq<char>, Seq<char>)) -> Seq<(Tone, Seq<char>)> {
    seq![(Tone::Title, filled(b.0, 14)), (Tone::Muted, b.1)]
}

/// The overlay.
pub open spec fn help_text() -> Seq<Seq<(Tone, Seq<char>)>> {
    key_table().map_values(|b: (Seq<char>, Seq<char>)| key_line(b)).push(
        seq![(Tone::Plain, ""@)],
    ).push(seq![(Tone::Footer, "Press any key to close"@)])
}

/// Writes the overlay.
pub fn help_lines() -> (r: Vec<Vec<Piece>>)
    ensures
        lines_of(r@) == help_text(),
{
    let all = bindings();
    let ghost table = key_table().map_values(|b: (Seq<char>, Seq<char>)| key_line(b));
    let mut out = no_lines();
    let mut i: usize = 0;
    while i < all.len()
        invariant
            i <= all@.len(),
            key_table() == all@.map_values(|b: (&'static str, &'static str)| (b.0@, b.1@)),
            table == key_table().map_values(|b: (Seq<char>, Seq<char>)| key_line(b)),
            lines_of(out@) =~= table.take(i as int),
        decreases all@.len() - i,
    {
        let mut l: Vec<Piece> = Vec::new();
        assert(line_of(l@) =~= Seq::<(Tone, Seq<char>)>::empty());
        add_piece(&mut l, Tone::Title, fill(all[i].0, 14).as_str());
        add_piece(&mut l, Tone::Muted, all[i].1);
        assert(line_of(l@) =~= key_line((all@[i as int].0@, all@[i as int].1@)));
        assert(key_table()[i as int] == (all@[i as int].0@, all@[i as int].1@));
        add_whole(&mut out, l);
        i = i + 1;
    }
    assert(lines_of(out@) =~= table);
    add_line(&mut out, Tone::Plain, "");
    add_line(&mut out, Tone::Footer, "Press any key to close");
    out
}

/// The width and height of the overlay.
pub fn popup_size() -> (r: (u16, u16))
    ensures
        r.0 == 56,
        r.1 == key_table().len() + 5,
{
    (56, 26)
}

} // verus!
