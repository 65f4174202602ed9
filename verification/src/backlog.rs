//! Bounded backlogs of lines: the newest lines stay, the oldest go.

use std::collections::VecDeque;
use vstd::prelude::*;
use crate::text::texts;

verus! {

/// The last `n` of a sequence, or all of it.
pub open spec fn tail_of<A>(v: Seq<A>, n: nat) -> Seq<A> {
    if v.len() <= n {
        v
    } else {
        v.skip(v.len() - n)
    }
}

/// A backlog of at most `cap` lines with one more.
pub open spec fn pushed(v: Seq<Seq<char>>, line: Seq<char>, cap: nat) -> Seq<Seq<char>> {
    if v.len() >= cap && v.len() > 0 {
        v.skip(1).push(line)
    } else {
        v.push(line)
    }
}

/// A backlog of at most `cap` lines with more lines, one after the other.
pub open spec fn pushed_all(v: Seq<Seq<char>>, ls: Seq<Seq<char>>, cap: nat) -> Seq<Seq<char>>
    decreases ls.len(),
{
    if ls.len() == 0 {
        v
    } else {
        pushed(pushed_all(v, ls.drop_last(), cap), ls.last(), cap)
    }
}

/// Adds a line, and drops the oldest when the backlog is full.
pub fn push_line(buffer: &mut VecDeque<String>, line: String, cap: usize)
    ensures
        texts(final(buffer)@) == pushed(texts(old(buffer)@), line@, cap as nat),
{
    let ghost before = texts(buffer@);
    let ghost text = line@;
    if buffer.len() >= cap && buffer.len() > 0 {
        let _ = buffer.pop_front();
        assert(texts(buffer@) =~= before.skip(1));
    }
    let ghost mid = texts(buffer@);
    buffer.push_back(line);
    assert(texts(buffer@) =~= mid.push(text));
}

/// The lines of a backlog, oldest first.
pub fn into_lines(buffer: VecDeque<String>) -> (r: Vec<String>)
    ensures
        texts(r@) == texts(buffer@),
{
    let mut buffer = buffer;
    let ghost all = buffer@;
    let mut out: Vec<String> = Vec::new();
    while buffer.len() > 0
        invariant
            out@ + buffer@ =~= all,
        decreases buffer@.len(),
    {
        match buffer.pop_front() {
            Some(line) => out.push(line),
            None => {},
        }
    }
    assert(out@ =~= all);
    out
}

/// However many lines were added, a backlog holds the last `cap` of them.
pub proof fn law_backlog_is_the_tail(ls: Seq<Seq<char>>, cap: nat)
    requires
        cap > 0,
    ensures
        pushed_all(Seq::empty(), ls, cap) == tail_of(ls, cap),
    decreases ls.len(),
{
    if ls.len() > 0 {
        law_backlog_is_the_tail(ls.drop_last(), cap);
        assert(pushed_all(Seq::empty(), ls, cap) =~= tail_of(ls, cap));
    }
}

} // verus!
