//! Lines of text in the colours of the theme.

use vstd::prelude::*;
use crate::text::copy_text;

verus! {

/// The role that a piece of text plays, which decides its colour.
#[derive(Debug, Clone, Copy, PartialEq, Eq, Structural)]
pub enum Tone {
    Plain,
    Title,
    /// The focused row.
    Selected,
    /// Focused text that typing replaces.
    SelectAll,
    Muted,
    Command,
    Warning,
    Explanation,
    Footer,
}

/// A piece of text in one colour.
#[derive(Debug, Clone, PartialEq, Eq)]
pub struct Piece {
    pub tone: Tone,
    pub text: String,
}

impl Piece {
    pub open spec fn view(&self) -> (Tone, Seq<char>) {
        (self.tone, self.text@)
    }
}

/// The views of the pieces of a line.
pub open spec fn line_of(v: Seq<Piece>) -> Seq<(Tone, Seq<char>)> {
    v.map_values(|p: Piece| p@)
}

/// The views of lines.
pub open spec fn lines_of(v: Seq<Vec<Piece>>) -> Seq<Seq<(Tone, Seq<char>)>> {
    v.map_values(|l: Vec<Piece>| line_of(l@))
}

/// Makes a piece.
pub fn piece(tone: Tone, text: &str) -> (r: Piece)
    ensures
        r@ == (tone, text@),
{
    Piece { tone, text: copy_text(text) }
}

/// Makes a line of one piece.
pub fn line(tone: Tone, text: &str) -> (r: Vec<Piece>)
    ensures
        line_of(r@) == seq![(tone, text@)],
{
    let mut out: Vec<Piece> = Vec::new();
    out.push(piece(tone, text));
    assert(line_of(out@) =~= seq![(tone, text@)]);
    out
}

/// Adds a piece to a line.
pub fn add_piece(line: &mut Vec<Piece>, tone: Tone, text: &str)
    ensures
        line_of(final(line)@) == line_of(old(line)@).push((tone, text@)),
{
    let ghost before = line_of(line@);
    line.push(piece(tone, text));
    assert(line_of(line@) =~= before.push((tone, text@)));
}

/// Adds a line of one piece.
pub fn add_line(lines: &mut Vec<Vec<Piece>>, tone: Tone, text: &str)
    ensures
        lines_of(final(lines)@) == lines_of(old(lines)@).push(seq![(tone, text@)]),
{
    let ghost before = lines_of(lines@);
    let l = line(tone, text);
    let ghost v = line_of(l@);
    lines.push(l);
    assert(lines_of(lines@) =~= before.push(v));
}

/// Adds a line.
pub fn add_whole(lines: &mut Vec<Vec<Piece>>, l: Vec<Piece>)
    ensures
        lines_of(final(lines)@) == lines_of(old(lines)@).push(line_of(l@)),
{
    let ghost before = lines_of(lines@);
    let ghost v = line_of(l@);
    lines.push(l);
    assert(lines_of(lines@) =~= before.push(v));
}

/// No lines.
pub fn no_lines() -> (r: Vec<Vec<Piece>>)
    ensures
        lines_of(r@) == Seq::<Seq<(Tone, Seq<char>)>>::empty(),
{
    let r: Vec<Vec<Piece>> = Vec::new();
    assert(lines_of(r@) =~= Seq::<Seq<(Tone, Seq<char>)>>::empty());
    r
}

/// A line as it reads, whatever its colours.
pub open spec fn spoken(v: Seq<(Tone, Seq<char>)>) -> Seq<char>
    decreases v.len(),
{
    if v.len() == 0 {
        Seq::empty()
    } else {
        spoken(v.drop_last()) + v.last().1
    }
}

} // verus!
