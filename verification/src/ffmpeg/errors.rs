//! FFmpeg's error output, in plain language.
//!
//! The common failures are recognised by their wording. Nothing is invented
//! where no pattern matches, and the raw text always stays available.

use vstd::prelude::*;
use crate::backlog::tail_of;
use crate::ffmpeg::builder::or_else;
use crate::text::{
    chars_of, contains_text, copy_text, find, find_from, find_text, has, join3, lemma_find,
    lemma_has_inside, lemma_has_itself, lemma_rfind, lines, occurs_at, opt_text, position_of, rfind,
    rfind_to, slice_text, split_lines, texts, trim_left, trim_start,
};

verus! {

/// A failure in plain language, and what to try.
#[derive(Debug, Clone, PartialEq, Eq)]
pub struct Diagnosis {
    /// Short title.
    pub title: String,
    /// One or two sentences to act on.
    pub detail: String,
    /// A concrete next step, when there is one.
    pub suggestion: Option<String>,
}

/// What a diagnosis says.
#[verifier::ext_equal]
pub struct Finding {
    pub title: Seq<char>,
    pub detail: Seq<char>,
    pub suggestion: Option<Seq<char>>,
}

impl Diagnosis {
    pub open spec fn view(&self) -> Finding {
        Finding {
            title: self.title@,
            detail: self.detail@,
            suggestion: opt_text(self.suggestion),
        }
    }

    /// A diagnosis with a suggestion.
    pub fn new(title: &str, detail: &str, suggestion: &str) -> (r: Self)
        ensures
            r@ == (Finding { title: title@, detail: detail@, suggestion: Some(suggestion@) }),
    {
        Diagnosis {
            title: copy_text(title),
            detail: copy_text(detail),
            suggestion: Some(copy_text(suggestion)),
        }
    }
}

/// The quoted name behind `prefix` in a line.
pub open spec fn name_in(line: Seq<char>, prefix: Seq<char>) -> Option<Seq<char>> {
    match find_text(line, prefix) {
        None => None,
        Some(i) => {
            let rest = trim_start(line.skip(i + prefix.len()));
            if rest.len() == 0 || (rest[0] != '\'' && rest[0] != '"') {
                None
            } else {
                let inner = rest.skip(1);
                Some(inner.take(find(inner, rest[0])))
            }
        },
    }
}

/// The first quoted name behind `prefix` in any line.
pub open spec fn first_name(ls: Seq<Seq<char>>, prefix: Seq<char>) -> Option<Seq<char>>
    decreases ls.len(),
{
    if ls.len() == 0 {
        None
    } else if name_in(ls[0], prefix) is Some {
        name_in(ls[0], prefix)
    } else {
        first_name(ls.skip(1), prefix)
    }
}

/// Finds the quoted name behind `prefix` in a line.
fn read_name(line: &str, prefix: &str) -> (r: Option<String>)
    ensures
        opt_text(r) == name_in(line@, prefix@),
{
    let x = chars_of(line);
    let p = chars_of(prefix);
    match position_of(&x, &p) {
        None => None,
        Some(i) => {
            let len: usize = x.len();
            let after = slice_text(&x, i + p.len(), len);
            assert(after@ =~= line@.skip(i + prefix@.len()));
            let rest = chars_of(trim_left(after.as_str()).as_str());
            if rest.len() == 0 {
                return None;
            }
            let quote = rest[0];
            if quote != '\'' && quote != '"' {
                return None;
            }
            let end = find_from(&rest, 1, quote);
            let name = slice_text(&rest, 1, end);
            proof {
                let inner = rest@.skip(1);
                assert(name@ =~= inner.take(find(inner, quote)));
            }
            Some(name)
        },
    }
}

/// Finds the first quoted name behind `prefix`, as in `Unknown encoder 'libx265'`.
pub fn match_pattern(stderr: &str, prefix: &str) -> (r: Option<String>)
    ensures
        opt_text(r) == first_name(lines(stderr@), prefix@),
{
    let all = split_lines(stderr);
    let ghost ls = lines(stderr@);
    let mut i: usize = 0;
    assert(ls.skip(0) =~= ls);
    while i < all.len()
        invariant
            i <= all@.len(),
            ls == texts(all@),
            ls == lines(stderr@),
            first_name(ls, prefix@) == first_name(ls.skip(i as int), prefix@),
        decreases all@.len() - i,
    {
        assert(ls.skip(i as int)[0] == all@[i as int]@);
        assert(ls.skip(i as int).skip(1) =~= ls.skip(i + 1));
        match read_name(all[i].as_str(), prefix) {
            Some(name) => return Some(name),
            None => {},
        }
        i = i + 1;
    }
    None
}

/// What stands between the last two `c` of a line.
pub open spec fn between_last(line: Seq<char>, c: char) -> Option<Seq<char>> {
    let end = rfind(line, c);
    if end < 0 {
        None
    } else {
        let start = rfind(line.take(end), c);
        if start < 0 {
            None
        } else {
            Some(line.subrange(start + 1, end))
        }
    }
}

/// The last quoted span of a line: in single quotes, or else in double ones.
pub open spec fn span_in(line: Seq<char>) -> Option<Seq<char>> {
    match between_last(line, '\'') {
        Some(s) => Some(s),
        None => between_last(line, '"'),
    }
}

/// The quoted span of the last line that has one.
pub open spec fn last_span(ls: Seq<Seq<char>>) -> Option<Seq<char>>
    decreases ls.len(),
{
    if ls.len() == 0 {
        None
    } else if span_in(ls.last()) is Some {
        span_in(ls.last())
    } else {
        last_span(ls.drop_last())
    }
}

/// Finds what stands between the last two `c` of a line.
fn read_between(x: &Vec<char>, c: char) -> (r: Option<String>)
    ensures
        opt_text(r) == between_last(x@, c),
{
    assert(x@.take(x@.len() as int) =~= x@);
    match rfind_to(x, x.len(), c) {
        None => None,
        Some(end) => match rfind_to(x, end, c) {
            None => None,
            Some(start) => Some(slice_text(x, start + 1, end)),
        },
    }
}

/// Finds the last quoted span of a text, usually the path that a message is about.
pub fn last_quoted(stderr: &str) -> (r: Option<String>)
    ensures
        opt_text(r) == last_span(lines(stderr@)),
{
    let all = split_lines(stderr);
    let ghost ls = lines(stderr@);
    let mut i: usize = all.len();
    assert(ls.take(i as int) =~= ls);
    while i > 0
        invariant
            i <= all@.len(),
            ls == texts(all@),
            ls == lines(stderr@),
            last_span(ls) == last_span(ls.take(i as int)),
        decreases i,
    {
        proof {
            assert(ls.take(i as int).last() == all@[i - 1]@);
            assert(ls.take(i as int).drop_last() =~= ls.take(i - 1));
        }
        let x = chars_of(all[i - 1].as_str());
        match read_between(&x, '\'') {
            Some(s) => return Some(s),
            None => {},
        }
        match read_between(&x, '"') {
            Some(s) => return Some(s),
            None => {},
        }
        i = i - 1;
    }
    None
}

pub const ENCODER_REST: &'static str = ". It may need a different build (e.g. with --enable-libx264) or a different codec choice.";

pub const ENCODER_TRY: &'static str = "Pick another video codec in the form — unavailable ones are greyed out with reasons.";

pub const MOVED: &'static str = ". It may have been moved, renamed, or deleted after you picked it.";

pub const PERMISSION_TRY: &'static str = "Choose an output directory you own, or fix permissions and retry.";

pub const CORRUPT: &'static str = "This file appears corrupt or isn't a media file FFmpeg recognizes.";

pub const CORRUPT_TRY: &'static str = "Try playing it elsewhere; if nothing plays it, the file itself is the problem.";

pub const NO_STREAMS: &'static str = "The filters removed all streams — check your settings.";

pub const NO_STREAMS_TRY: &'static str = "Stream-copy trims and track selections are the usual suspects; re-check the form.";

pub const ODD: &'static str = "This codec needs even dimensions, but the video (after scaling) has an odd width or height.";

pub const ODD_TRY: &'static str = "Scale with an even-preserving expression like scale=1280:-2 instead of an exact odd size.";

pub const GENERIC: &'static str = "FFmpeg reported a generic failure. The last stderr lines are shown below — the raw log has the full story.";

/// The finding for an error output: that of the first pattern that it shows.
pub open spec fn finding(stderr: Seq<char>) -> Option<Finding> {
    let encoder = first_name(lines(stderr), "Unknown encoder"@);
    let path = last_span(lines(stderr));
    if encoder is Some {
        Some(
            Finding {
                title: "Encoder not available"@,
                detail: "Your FFmpeg build doesn't include the encoder "@ + encoder->0
                    + ENCODER_REST@,
                suggestion: Some(ENCODER_TRY@),
            },
        )
    } else if has(stderr, "No such file or directory"@) {
        Some(
            Finding {
                title: "File not found"@,
                detail: "Input file not found: "@ + or_else(path, "the input"@) + MOVED@,
                suggestion: Some("Go back and pick the file again."@),
            },
        )
    } else if has(stderr, "Permission denied"@) {
        Some(
            Finding {
                title: "Permission denied"@,
                detail: "Can't write to "@ + or_else(path, "the output"@)
                    + " — check folder permissions."@,
                suggestion: Some(PERMISSION_TRY@),
            },
        )
    } else if has(stderr, "Invalid data found when processing input"@) {
        Some(
            Finding {
                title: "Unreadable input"@,
                detail: CORRUPT@,
                suggestion: Some(CORRUPT_TRY@),
            },
        )
    } else if has(stderr, "Output file #0 does not contain any stream"@) {
        Some(
            Finding {
                title: "No streams left to write"@,
                detail: NO_STREAMS@,
                suggestion: Some(NO_STREAMS_TRY@),
            },
        )
    } else if has(stderr, "not divisible by 2"@) {
        Some(
            Finding {
                title: "Odd video dimensions"@,
                detail: ODD@,
                suggestion: Some(ODD_TRY@),
            },
        )
    } else if has(stderr, "Conversion failed!"@) {
        Some(Finding { title: "Conversion failed"@, detail: GENERIC@, suggestion: None })
    } else {
        None
    }
}

/// Translates an error output; nothing where no known pattern matches.
pub fn diagnose(stderr: &str) -> (r: Option<Diagnosis>)
    ensures
        match r {
            Some(d) => finding(stderr@) == Some(d@),
            None => finding(stderr@) is None,
        },
{
    if let Some(name) = match_pattern(stderr, "Unknown encoder") {
        let detail = join3(
            "Your FFmpeg build doesn't include the encoder ",
            name.as_str(),
            ENCODER_REST,
        );
        return Some(Diagnosis::new("Encoder not available", detail.as_str(), ENCODER_TRY));
    }
    if contains_text(stderr, "No such file or directory") {
        let path = match last_quoted(stderr) {
            Some(p) => p,
            None => copy_text("the input"),
        };
        let detail = join3("Input file not found: ", path.as_str(), MOVED);
        return Some(
            Diagnosis::new("File not found", detail.as_str(), "Go back and pick the file again."),
        );
    }
    if contains_text(stderr, "Permission denied") {
        let path = match last_quoted(stderr) {
            Some(p) => p,
            None => copy_text("the output"),
        };
        let detail = join3("Can't write to ", path.as_str(), " — check folder permissions.");
        return Some(Diagnosis::new("Permission denied", detail.as_str(), PERMISSION_TRY));
    }
    if contains_text(stderr, "Invalid data found when processing input") {
        return Some(Diagnosis::new("Unreadable input", CORRUPT, CORRUPT_TRY));
    }
    if contains_text(stderr, "Output file #0 does not contain any stream") {
        return Some(Diagnosis::new("No streams left to write", NO_STREAMS, NO_STREAMS_TRY));
    }
    if contains_text(stderr, "not divisible by 2") {
        return Some(Diagnosis::new("Odd video dimensions", ODD, ODD_TRY));
    }
    if contains_text(stderr, "Conversion failed!") {
        return Some(
            Diagnosis {
                title: copy_text("Conversion failed"),
                detail: copy_text(GENERIC),
                suggestion: None,
            },
        );
    }
    None
}

/// The last `n` lines.
pub fn tail_lines(lines: &[String], n: usize) -> (r: Vec<String>)
    ensures
        texts(r@) == tail_of(texts(lines@), n as nat),
{
    let skip: usize = if lines.len() > n {
        lines.len() - n
    } else {
        0
    };
    let mut out: Vec<String> = Vec::new();
    let mut i: usize = skip;
    while i < lines.len()
        invariant
            skip <= i <= lines@.len(),
            out@.len() == i - skip,
            forall|j: int| 0 <= j < i - skip ==> (#[trigger] out@[j])@ == lines@[skip + j]@,
        decreases lines@.len() - i,
    {
        out.push(copy_text(lines[i].as_str()));
        i = i + 1;
    }
    assert(texts(out@) =~= tail_of(texts(lines@), n as nat));
    out
}

// ---------------------------------------------------------------------------
// Laws
// ---------------------------------------------------------------------------

/// Every known failure is explained, and an output that shows none of them is
/// not.
pub proof fn law_known_failures_are_explained(stderr: Seq<char>)
    ensures
        has(stderr, "No such file or directory"@) || has(stderr, "Permission denied"@) || has(
            stderr,
            "Invalid data found when processing input"@,
        ) || has(stderr, "Output file #0 does not contain any stream"@) || has(
            stderr,
            "not divisible by 2"@,
        ) || has(stderr, "Conversion failed!"@) ==> finding(stderr) is Some,
        finding(stderr) matches Some(f) ==> (f.title == "File not found"@ ==> has(
            stderr,
            "No such file or directory"@,
        )),
        finding(stderr) matches Some(f) ==> (f.title == "Permission denied"@ ==> has(
            stderr,
            "Permission denied"@,
        )),
        finding(stderr) matches Some(f) ==> (f.title == "Unreadable input"@ ==> has(
            stderr,
            "Invalid data found when processing input"@,
        )),
        finding(stderr) matches Some(f) ==> (f.title == "No streams left to write"@ ==> has(
            stderr,
            "Output file #0 does not contain any stream"@,
        )),
        finding(stderr) matches Some(f) ==> (f.title == "Odd video dimensions"@ ==> has(
            stderr,
            "not divisible by 2"@,
        )),
        finding(stderr) matches Some(f) ==> (f.title == "Encoder not available"@ ==> first_name(
            lines(stderr),
            "Unknown encoder"@,
        ) is Some),
{
    reveal_strlit("Encoder not available");
    reveal_strlit("File not found");
    reveal_strlit("Permission denied");
    reveal_strlit("Unreadable input");
    reveal_strlit("No streams left to write");
    reveal_strlit("Odd video dimensions");
    reveal_strlit("Conversion failed");
    assert("Encoder not available"@.len() == 21);
    assert("File not found"@.len() == 14);
    assert("Permission denied"@.len() == 17 && "Permission denied"@[0] == 'P');
    assert("Conversion failed"@.len() == 17 && "Conversion failed"@[0] == 'C');
    assert("Unreadable input"@.len() == 16);
    assert("No streams left to write"@.len() == 24);
    assert("Odd video dimensions"@.len() == 20);
}

/// A missing encoder is named in what is said of it, and so is the file that a
/// missing-file message is about.
pub proof fn law_explanations_name_what_is_missing(head: Seq<char>, name: Seq<char>, tail: Seq<char>)
    requires
        !name.contains('\''),
        !(head + "Unknown encoder '"@ + name + "'"@ + tail).contains('\n'),
        find_text(head + "Unknown encoder '"@ + name + "'"@ + tail, "Unknown encoder"@) == Some(
            head.len() as int,
        ),
    ensures
        finding(head + "Unknown encoder '"@ + name + "'"@ + tail) matches Some(f) && f.title
            == "Encoder not available"@ && has(f.detail, name),
{
    reveal_strlit("Unknown encoder '");
    reveal_strlit("Unknown encoder");
    reveal_strlit("'");
    let line = head + "Unknown encoder '"@ + name + "'"@ + tail;
    let p = "Unknown encoder"@;
    assert(line.len() > 0);
    assert forall|j: int| 0 <= j < line.len() implies line[j] != '\n' by {
        assert(line.contains(line[j]));
    }
    lemma_find(line, '\n', line.len() as int);
    assert(lines(line) == seq![line]);
    let rest = line.skip((head.len() + p.len()) as int);
    assert(rest =~= seq![' ', '\''] + name + seq!['\''] + tail);
    let cut = rest.skip(1);
    assert(cut[0] == '\'');
    assert(rest[0] == ' ');
    assert(trim_start(rest) == trim_start(cut));
    assert(trim_start(cut) == cut);
    let inner = cut.skip(1);
    assert(inner =~= name + seq!['\''] + tail);
    assert forall|j: int| 0 <= j < name.len() implies inner[j] != '\'' by {
        assert(inner[j] == name[j]);
        assert(name.contains(name[j]));
    }
    assert(inner[name.len() as int] == '\'');
    lemma_find(inner, '\'', name.len() as int);
    assert(inner.take(name.len() as int) =~= name);
    assert(name_in(line, p) == Some(name));
    assert(seq![line][0] == line);
    assert(first_name(seq![line], p) == Some(name));
    let f = finding(line)->0;
    let start = "Your FFmpeg build doesn't include the encoder "@;
    assert(f.detail =~= start + name + ENCODER_REST@);
    assert(f.detail.subrange(start.len() as int, (start.len() + name.len()) as int) =~= name);
    assert(occurs_at(f.detail, name, start.len() as int));
}

/// A message about a missing file names that file: the one in quotes.
pub proof fn law_explanations_name_the_file(head: Seq<char>, path: Seq<char>, tail: Seq<char>)
    requires
        !path.contains('\''),
        !tail.contains('\''),
        !(head + seq!['\''] + path + seq!['\''] + tail).contains('\n'),
        has(head + seq!['\''] + path + seq!['\''] + tail, "No such file or directory"@),
        name_in(head + seq!['\''] + path + seq!['\''] + tail, "Unknown encoder"@) is None,
    ensures
        finding(head + seq!['\''] + path + seq!['\''] + tail) matches Some(f) && f.title
            == "File not found"@ && has(f.detail, path),
{
    let line = head + seq!['\''] + path + seq!['\''] + tail;
    let a = head.len() as int;
    let b = a + 1 + path.len();
    assert forall|j: int| 0 <= j < line.len() implies line[j] != '\n' by {
        assert(line.contains(line[j]));
    }
    lemma_find(line, '\n', line.len() as int);
    assert(lines(line) == seq![line]);
    assert(seq![line][0] == line);
    assert(seq![line].skip(1).len() == 0);
    assert(first_name(seq![line].skip(1), "Unknown encoder"@) is None);
    assert(first_name(seq![line], "Unknown encoder"@) is None);
    assert(line[a] == '\'' && line[b] == '\'');
    assert forall|j: int| b < j < line.len() implies line[j] != '\'' by {
        assert(line[j] == tail[j - b - 1]);
        assert(tail.contains(tail[j - b - 1]));
    }
    lemma_rfind(line, '\'', b);
    let front = line.take(b);
    assert forall|j: int| a < j < front.len() implies front[j] != '\'' by {
        assert(front[j] == path[j - a - 1]);
        assert(path.contains(path[j - a - 1]));
    }
    lemma_rfind(front, '\'', a);
    assert(line.subrange(a + 1, b) =~= path);
    assert(seq![line].last() == line);
    assert(last_span(seq![line]) == Some(path));
    let f = finding(line)->0;
    let start = "Input file not found: "@;
    lemma_has_itself(path);
    lemma_has_inside(start, path, MOVED@, path);
    assert(f.detail == start + path + MOVED@);
}

} // verus!
