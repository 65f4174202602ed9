//! What the FFmpeg build at hand can do.
//!
//! FFmpeg is asked once for its version, encoders, decoders, filters and
//! hardware methods. The processes run outside; their answers are read here.
//! A missing binary or an answer of an unknown shape becomes part of the
//! report, never a failure.

use vstd::prelude::*;
use crate::config::settings::Settings;
use crate::names::NameSet;
use crate::number::{
    all_digits, dec, digit_run, law_numbers_read_back, read_nat, read_number, show,
};
use crate::path::{get_parent, is_same_place, join_path, joined_path, parent, same_place, tidy};
use crate::text::{
    begins, begins_with, chars_of, contains_char, copy_text, find, first_word, is_alnum, is_digit,
    is_space, join3, lemma_find, lemma_find_bounds, lemma_one_piece, lemma_pieces_front,
    lemma_rfind, lemma_word_before_space, lemma_word_is_whole, line_body, lines, opt_text, pieces,
    same, slice_text, split_char, split_lines, texts, trim, trim_start, trimmed, word_from,
    word_prefix,
};

verus! {

/// A parsed version number.
#[derive(Debug, Clone, Copy, PartialEq, Eq, Structural)]
pub struct FfmpegVersion {
    pub major: u32,
    pub minor: u32,
    pub patch: u32,
}

/// Everything known about the FFmpeg build for this session.
#[derive(Debug, Clone)]
pub struct CapabilityReport {
    /// False when there is no `ffmpeg` binary.
    pub found: bool,
    /// True when the binary answered `-version` as FFmpeg does.
    pub usable: bool,
    /// Resolved `ffmpeg` binary.
    pub ffmpeg_path: Option<String>,
    /// Resolved `ffprobe` binary.
    pub ffprobe_path: Option<String>,
    /// First line of `ffmpeg -version`.
    pub version_raw: String,
    /// Parsed version; development builds have none.
    pub version: Option<FfmpegVersion>,
    /// Available encoder names.
    pub encoders: NameSet,
    /// Available decoder names.
    pub decoders: NameSet,
    /// Available filter names.
    pub filters: NameSet,
    /// Hardware acceleration methods.
    pub hwaccels: Vec<String>,
    /// Problems that do not stop the program.
    pub warnings: Vec<String>,
}


impl CapabilityReport {
    /// The report for no binary at all.
    pub fn missing() -> (r: Self)
        ensures
            !r.found,
            !r.usable,
            r.ffmpeg_path is None,
            r.ffprobe_path is None,
            r.version_raw@.len() == 0,
            r.version is None,
            r.encoders@ == Set::<Seq<char>>::empty(),
            r.decoders@ == Set::<Seq<char>>::empty(),
            r.filters@ == Set::<Seq<char>>::empty(),
            r.hwaccels@.len() == 0,
            r.warnings@.len() == 0,
            r.wf(),
    {
        CapabilityReport {
            found: false,
            usable: false,
            ffmpeg_path: None,
            ffprobe_path: None,
            version_raw: String::new(),
            version: None,
            encoders: NameSet::new(),
            decoders: NameSet::new(),
            filters: NameSet::new(),
            hwaccels: Vec::new(),
            warnings: Vec::new(),
        }
    }

    /// No name is listed twice.
    pub open spec fn wf(self) -> bool {
        self.encoders.wf() && self.decoders.wf() && self.filters.wf()
    }

    /// Whether an encoder can be used.
    pub fn has_encoder(&self, name: &str) -> (r: bool)
        ensures
            r == self.encoders@.contains(name@),
    {
        self.encoders.contains(name)
    }

    /// Whether a filter can be used.
    pub fn has_filter(&self, name: &str) -> (r: bool)
        ensures
            r == self.filters@.contains(name@),
    {
        self.filters.contains(name)
    }

    /// Whether a hardware method can be used.
    pub fn has_hwaccel(&self, name: &str) -> (r: bool)
        ensures
            r == texts(self.hwaccels@).contains(name@),
    {
        let mut i: usize = 0;
        while i < self.hwaccels.len()
            invariant
                i <= self.hwaccels@.len(),
                forall|j: int| 0 <= j < i ==> (#[trigger] self.hwaccels@[j])@ != name@,
            decreases self.hwaccels@.len() - i,
        {
            if same(self.hwaccels[i].as_str(), name) {
                assert(texts(self.hwaccels@)[i as int] == name@);
                return true;
            }
            i = i + 1;
        }
        proof {
            let t = texts(self.hwaccels@);
            if t.contains(name@) {
                let k = choose|k: int| 0 <= k < t.len() && t[k] == name@;
                assert(self.hwaccels@[k]@ == name@);
            }
        }
        false
    }
}

// ---------------------------------------------------------------------------
// Versions
// ---------------------------------------------------------------------------

/// The number that a version component begins with; zero when it begins with
/// none or with one past 32 bits.
pub open spec fn leading_number(s: Seq<char>) -> nat {
    match read_nat(s.take(digit_run(s)), u32::MAX as nat) {
        Some(n) => n,
        None => 0,
    }
}

/// Reads the digits that a version component begins with.
pub fn leading_digits(s: &str) -> (r: u32)
    ensures
        r == leading_number(s@),
{
    let x = chars_of(s);
    let n = crate::number::digits_end(&x, 0);
    assert(x@.skip(0) =~= x@);
    let d = slice_text(&x, 0, n);
    assert(d@ =~= s@.take(n as int));
    match read_number(d.as_str(), u32::MAX as u64) {
        Some(v) => v as u32,
        None => 0,
    }
}

/// The version in the first line of `ffmpeg -version`, by its dotted token.
/// Development builds and other shapes have none.
pub open spec fn version_of(line: Seq<char>) -> Option<(nat, nat, nat)> {
    let prefix = "ffmpeg version "@;
    if !begins(line, prefix) {
        None
    } else {
        match first_word(line.skip(prefix.len() as int)) {
            Some(token) => {
                let parts = pieces(token, '.');
                match read_nat(parts[0], u32::MAX as nat) {
                    Some(major) => Some(
                        (
                            major,
                            if parts.len() > 1 {
                                leading_number(parts[1])
                            } else {
                                0
                            },
                            if parts.len() > 2 {
                                leading_number(parts[2])
                            } else {
                                0
                            },
                        ),
                    ),
                    None => None,
                }
            },
            None => None,
        }
    }
}

/// A version's three numbers.
pub open spec fn version_numbers(v: Option<FfmpegVersion>) -> Option<(nat, nat, nat)> {
    match v {
        Some(v) => Some((v.major as nat, v.minor as nat, v.patch as nat)),
        None => None,
    }
}

/// Reads the first line of `ffmpeg -version`.
pub fn parse_version_line(line: &str) -> (r: Option<FfmpegVersion>)
    ensures
        version_numbers(r) == version_of(line@),
{
    if !begins_with(line, "ffmpeg version ") {
        return None;
    }
    let x = chars_of(line);
    let prefix = chars_of("ffmpeg version ");
    match word_from(&x, prefix.len()) {
        Some(token) => {
            let parts = split_char(token.as_str(), '.');
            proof {
                lemma_pieces(token@, '.');
                assert(texts(parts@).len() >= 1);
            }
            assert(texts(parts@)[0] == parts@[0]@);
            match read_number(parts[0].as_str(), u32::MAX as u64) {
                Some(major) => {
                    let mut minor: u32 = 0;
                    let mut patch: u32 = 0;
                    if parts.len() > 1 {
                        assert(texts(parts@)[1] == parts@[1]@);
                        minor = leading_digits(parts[1].as_str());
                    }
                    if parts.len() > 2 {
                        assert(texts(parts@)[2] == parts@[2]@);
                        patch = leading_digits(parts[2].as_str());
                    }
                    Some(FfmpegVersion { major: major as u32, minor, patch })
                },
                None => None,
            }
        },
        None => None,
    }
}

proof fn lemma_pieces(s: Seq<char>, c: char)
    ensures
        pieces(s, c).len() >= 1,
{
}

// ---------------------------------------------------------------------------
// Lists
// ---------------------------------------------------------------------------

/// A flag column's characters: letters, digits and dots for codecs, and `T`,
/// `S` and dots for filters.
pub open spec fn flag_char(c: char, codec: bool) -> bool {
    if codec {
        is_alnum(c) || c == '.'
    } else {
        c == 'T' || c == 'S' || c == '.'
    }
}

/// The name in one line of a list: a space, `n` flag characters, a space, and
/// the name. Legends (which hold `=`) and separators have none.
pub open spec fn list_entry(line: Seq<char>, n: int, codec: bool) -> Option<Seq<char>> {
    if line.contains('=') || line.len() < n + 2 || line[0] != ' ' || line[n + 1] != ' ' || !(
    forall|i: int| 1 <= i <= n ==> flag_char(#[trigger] line[i], codec)) {
        None
    } else {
        first_word(line.skip(n + 2))
    }
}

/// The names in a whole list.
pub open spec fn listed(output: Seq<char>, n: int, codec: bool) -> Set<Seq<char>> {
    Set::new(
        |w: Seq<char>|
            exists|i: int|
                0 <= i < lines(output).len() && #[trigger] list_entry(lines(output)[i], n, codec)
                    == Some(w),
    )
}

/// Finds the name in one line of a list.
#[verifier::loop_isolation(false)]
fn read_entry(line: &str, n: usize, codec: bool) -> (r: Option<String>)
    requires
        n <= 6,
    ensures
        opt_text(r) == list_entry(line@, n as int, codec),
{
    if contains_char(line, '=') {
        return None;
    }
    let x = chars_of(line);
    if x.len() < n + 2 || x[0] != ' ' || x[n + 1] != ' ' {
        return None;
    }
    let mut i: usize = 1;
    while i <= n
        invariant
            1 <= i <= n + 1,
            forall|j: int| 1 <= j < i ==> flag_char(#[trigger] line@[j], codec),
        decreases n + 1 - i,
    {
        let c = x[i];
        let ok = if codec {
            ('a' <= c && c <= 'z') || ('A' <= c && c <= 'Z') || ('0' <= c && c <= '9') || c == '.'
        } else {
            c == 'T' || c == 'S' || c == '.'
        };
        assert(ok == flag_char(line@[i as int], codec));
        if !ok {
            return None;
        }
        i = i + 1;
    }
    word_from(&x, n + 2)
}

/// Reads a whole list.
fn read_list(output: &str, n: usize, codec: bool) -> (r: NameSet)
    requires
        n <= 6,
    ensures
        r.wf(),
        r@ == listed(output@, n as int, codec),
{
    let all = split_lines(output);
    let ghost ls = lines(output@);
    let mut names = NameSet::new();
    let mut i: usize = 0;
    while i < all.len()
        invariant
            i <= all@.len(),
            n <= 6,
            ls == texts(all@),
            names.wf(),
            names@ == Set::new(
                |w: Seq<char>|
                    exists|j: int|
                        0 <= j < i && #[trigger] list_entry(ls[j], n as int, codec) == Some(w),
            ),
        decreases all@.len() - i,
    {
        let ghost before = names@;
        let entry = read_entry(all[i].as_str(), n, codec);
        let ghost found = list_entry(ls[i as int], n as int, codec);
        assert(ls[i as int] == all@[i as int]@);
        match entry {
            Some(name) => names.insert(name.as_str()),
            None => {},
        }
        proof {
            let after = Set::new(
                |w: Seq<char>|
                    exists|j: int|
                        0 <= j < i + 1 && #[trigger] list_entry(ls[j], n as int, codec) == Some(w),
            );
            assert forall|w: Seq<char>| names@.contains(w) == after.contains(w) by {
                if after.contains(w) {
                    let j = choose|j: int|
                        0 <= j < i + 1 && #[trigger] list_entry(ls[j], n as int, codec) == Some(w);
                    if j < i {
                        assert(before.contains(w));
                    }
                }
                if before.contains(w) {
                    let j = choose|j: int|
                        0 <= j < i && #[trigger] list_entry(ls[j], n as int, codec) == Some(w);
                    assert(list_entry(ls[j], n as int, codec) == Some(w));
                }
                if found == Some(w) {
                    assert(list_entry(ls[i as int], n as int, codec) == Some(w));
                }
            }
            assert(names@ =~= after);
        }
        i = i + 1;
    }
    assert(names@ =~= listed(output@, n as int, codec));
    names
}

/// Reads the output of `-encoders` or `-decoders`: a space, six flag
/// characters, a space, and the name.
pub fn parse_codec_list(output: &str) -> (r: NameSet)
    ensures
        r.wf(),
        r@ == listed(output@, 6, true),
{
    read_list(output, 6, true)
}

/// Reads the output of `-filters`: a space, two flag characters, a space, and
/// the name.
pub fn parse_filter_list(output: &str) -> (r: NameSet)
    ensures
        r.wf(),
        r@ == listed(output@, 2, false),
{
    read_list(output, 2, false)
}

/// The names in some lines of a list.
spec fn named(ls: Seq<Seq<char>>, n: int, codec: bool) -> Set<Seq<char>> {
    Set::new(
        |w: Seq<char>|
            exists|i: int| 0 <= i < ls.len() && #[trigger] list_entry(ls[i], n, codec) == Some(w),
    )
}

proof fn lemma_named_together(x: Seq<Seq<char>>, y: Seq<Seq<char>>, n: int, codec: bool)
    ensures
        named(x + y, n, codec) == named(x, n, codec).union(named(y, n, codec)),
{
    let all = x + y;
    assert forall|w: Seq<char>|
        named(all, n, codec).contains(w) == named(x, n, codec).union(named(y, n, codec)).contains(
            w,
        ) by {
        if named(all, n, codec).contains(w) {
            let i = choose|i: int|
                0 <= i < all.len() && #[trigger] list_entry(all[i], n, codec) == Some(w);
            if i < x.len() {
                assert(list_entry(x[i], n, codec) == Some(w));
            } else {
                assert(list_entry(y[i - x.len()], n, codec) == Some(w));
            }
        }
        if named(x, n, codec).contains(w) {
            let i = choose|i: int|
                0 <= i < x.len() && #[trigger] list_entry(x[i], n, codec) == Some(w);
            assert(list_entry(all[i], n, codec) == Some(w));
        }
        if named(y, n, codec).contains(w) {
            let i = choose|i: int|
                0 <= i < y.len() && #[trigger] list_entry(y[i], n, codec) == Some(w);
            assert(all[i + x.len()] == y[i]);
            assert(list_entry(all[i + x.len()], n, codec) == Some(w));
        }
    }
    assert(named(all, n, codec) =~= named(x, n, codec).union(named(y, n, codec)));
}

/// A carriage return at the end of a line leaves its name alone.
proof fn lemma_entry_before_return(line: Seq<char>, n: int, codec: bool)
    requires
        0 <= n,
    ensures
        list_entry(line_body(line, true), n, codec) == list_entry(line, n, codec),
{
    if line.len() > 0 && line.last() == '\r' {
        let t = line.drop_last();
        assert(line =~= t.push('\r'));
        assert(t.contains('=') == line.contains('=')) by {
            if line.contains('=') {
                let i = choose|i: int| 0 <= i < line.len() && line[i] == '=';
                assert(t[i] == '=');
            }
            if t.contains('=') {
                let i = choose|i: int| 0 <= i < t.len() && t[i] == '=';
                assert(line[i] == '=');
            }
        }
        if t.len() >= n + 2 {
            assert(line.skip(n + 2) =~= t.skip(n + 2).push('\r'));
            lemma_word_before_space(t.skip(n + 2), '\r');
            assert((forall|i: int| 1 <= i <= n ==> flag_char(#[trigger] line[i], codec)) == (
            forall|i: int| 1 <= i <= n ==> flag_char(#[trigger] t[i], codec))) by {
                assert forall|i: int| 1 <= i <= n implies #[trigger] line[i] == t[i] by {}
                assert forall|i: int| 1 <= i <= n implies line[i] == #[trigger] t[i] by {}
            }
        }
    }
}

/// Two lists, one below the other, name what each of them names: neither the
/// order of lines nor their repetition matters. Names hold something, and no
/// white space.
pub proof fn law_lists_add_up(a: Seq<char>, b: Seq<char>, n: int, codec: bool)
    requires
        0 <= n,
    ensures
        listed(a + seq!['\n'] + b, n, codec) == listed(a, n, codec).union(listed(b, n, codec)),
        forall|w: Seq<char>, i: int|
            listed(a, n, codec).contains(w) && 0 <= i < w.len() ==> !is_space(#[trigger] w[i]),
        forall|w: Seq<char>| listed(a, n, codec).contains(w) ==> w.len() > 0,
    decreases a.len(),
{
    let all = a + seq!['\n'] + b;
    let k = find(a, '\n');
    lemma_find_bounds(a, '\n');
    assert forall|j: int| 0 <= j < k implies all[j] != '\n' by {
        assert(all[j] == a[j]);
    }
    lemma_find(all, '\n', k);
    let first = line_body(all.take(k), true);
    assert(all.take(k) =~= a.take(k));
    lemma_entry_before_return(a.take(k), n, codec);
    assert(listed(all, n, codec) =~= named(lines(all), n, codec));
    assert(listed(a, n, codec) =~= named(lines(a), n, codec));
    assert(listed(b, n, codec) =~= named(lines(b), n, codec));
    lemma_named_together(seq![first], lines(all.skip(k + 1)), n, codec);
    if k < a.len() {
        let rest = a.skip(k + 1);
        assert(all.skip(k + 1) =~= rest + seq!['\n'] + b);
        law_lists_add_up(rest, b, n, codec);
        assert(listed(all.skip(k + 1), n, codec) =~= named(lines(all.skip(k + 1)), n, codec));
        assert(listed(rest, n, codec) =~= named(lines(rest), n, codec));
        lemma_named_together(seq![first], lines(rest), n, codec);
        assert(listed(all, n, codec) =~= listed(a, n, codec).union(listed(b, n, codec)));
    } else {
        assert(all.skip(k + 1) =~= b);
        assert(a.take(k) =~= a);
        assert(named(seq![first], n, codec) =~= named(lines(a), n, codec)) by {
            if a.len() == 0 {
                assert(list_entry(first, n, codec) is None);
                assert forall|w: Seq<char>| !named(seq![first], n, codec).contains(w) by {
                    if named(seq![first], n, codec).contains(w) {
                        let i = choose|i: int|
                            0 <= i < 1 && #[trigger] list_entry(seq![first][i], n, codec) == Some(w);
                        assert(seq![first][i] == first);
                    }
                }
            } else {
                assert(lines(a) == seq![a]);
                assert forall|w: Seq<char>|
                    named(seq![first], n, codec).contains(w) == named(seq![a], n, codec).contains(
                        w,
                    ) by {
                    assert(seq![first][0] == first && seq![a][0] == a);
                    assert(list_entry(seq![first][0], n, codec) == list_entry(
                        seq![a][0],
                        n,
                        codec,
                    ));
                }
            }
        }
    }
    assert forall|w: Seq<char>| listed(a, n, codec).contains(w) implies w.len() > 0 && forall|
        i: int,
    |
        0 <= i < w.len() ==> !is_space(#[trigger] w[i]) by {
        let i = choose|i: int|
            0 <= i < lines(a).len() && #[trigger] list_entry(lines(a)[i], n, codec) == Some(w);
        lemma_word_is_whole(lines(a)[i].skip(n + 2));
    }
}

/// The trimmed lines that are not empty.
pub open spec fn filled(ls: Seq<Seq<char>>) -> Seq<Seq<char>>
    decreases ls.len(),
{
    if ls.len() == 0 {
        Seq::empty()
    } else {
        let rest = filled(ls.drop_last());
        let t = trimmed(ls.last());
        if t.len() > 0 {
            rest.push(t)
        } else {
            rest
        }
    }
}

/// The filled lines behind the heading of the list of hardware methods.
pub open spec fn methods(ls: Seq<Seq<char>>) -> Seq<Seq<char>>
    decreases ls.len(),
{
    if ls.len() == 0 {
        Seq::empty()
    } else if trimmed(ls[0]) == "Hardware acceleration methods:"@ {
        filled(ls.skip(1))
    } else {
        methods(ls.skip(1))
    }
}

/// Reads the output of `-hwaccels`: one name per line behind its heading.
pub fn parse_hwaccel_list(output: &str) -> (r: Vec<String>)
    ensures
        texts(r@) == methods(lines(output@)),
{
    let all = split_lines(output);
    let ghost ls = lines(output@);
    let mut i: usize = 0;
    assert(ls.skip(0) =~= ls);
    while i < all.len()
        invariant
            i <= all@.len(),
            ls == texts(all@),
            methods(ls) == methods(ls.skip(i as int)),
            ls == lines(output@),
        decreases all@.len() - i,
    {
        assert(ls.skip(i as int)[0] == all@[i as int]@);
        assert(ls.skip(i as int).skip(1) =~= ls.skip(i + 1));
        if same(trim(all[i].as_str()).as_str(), "Hardware acceleration methods:") {
            let mut out: Vec<String> = Vec::new();
            let mut k: usize = i + 1;
            let ghost rest = ls.skip(i + 1);
            assert(rest.take(0) =~= Seq::<Seq<char>>::empty());
            assert(texts(out@) =~= Seq::<Seq<char>>::empty());
            while k < all.len()
                invariant
                    i < k <= all@.len(),
                    ls == texts(all@),
                    rest == ls.skip(i + 1),
                    texts(out@) == filled(rest.take(k - i - 1)),
                decreases all@.len() - k,
            {
                let ghost before = texts(out@);
                let t = trim(all[k].as_str());
                proof {
                    let upto = rest.take(k - i);
                    assert(upto.drop_last() =~= rest.take(k - i - 1));
                    assert(upto.last() == all@[k as int]@);
                }
                if !t.as_str().is_empty() {
                    out.push(t);
                    assert(texts(out@) =~= before.push(t@));
                }
                k = k + 1;
            }
            assert(rest.take(k - i - 1) =~= rest);
            return out;
        }
        i = i + 1;
    }
    let out: Vec<String> = Vec::new();
    assert(texts(out@) =~= Seq::<Seq<char>>::empty());
    out
}

// ---------------------------------------------------------------------------
// Binaries
// ---------------------------------------------------------------------------

/// `ffprobe` in the directory of `ffmpeg`.
pub open spec fn sibling(ffmpeg: Seq<char>) -> Option<Seq<char>> {
    match parent(ffmpeg) {
        Some(dir) => Some(joined_path(dir, "ffprobe"@)),
        None => None,
    }
}

/// The path of `ffprobe` beside `ffmpeg`; whether it exists is for the caller
/// to see.
pub fn sibling_ffprobe(ffmpeg: &str) -> (r: Option<String>)
    ensures
        opt_text(r) == sibling(ffmpeg@),
{
    match get_parent(ffmpeg) {
        Some(dir) => Some(join_path(dir.as_str(), "ffprobe")),
        None => None,
    }
}

/// The `ffmpeg` binary: the configured one when it is not empty and exists,
/// else the one on the search path.
pub open spec fn chosen_ffmpeg(
    configured: Option<Seq<char>>,
    exists_configured: bool,
    on_path: Option<Seq<char>>,
) -> Option<Seq<char>> {
    match configured {
        Some(p) => if p.len() > 0 && exists_configured {
            Some(p)
        } else {
            on_path
        },
        None => on_path,
    }
}

/// Chooses the `ffmpeg` binary. The caller has looked up whether the configured
/// path exists and what the search path offers.
pub fn resolve_ffmpeg(
    settings: &Settings,
    configured_exists: bool,
    on_path: Option<String>,
) -> (r: Option<String>)
    ensures
        opt_text(r) == chosen_ffmpeg(
            opt_text(settings.general.ffmpeg_path),
            configured_exists,
            opt_text(on_path),
        ),
{
    match &settings.general.ffmpeg_path {
        Some(p) => if !p.as_str().is_empty() && configured_exists {
            Some(copy_text(p.as_str()))
        } else {
            on_path
        },
        None => on_path,
    }
}

/// The `ffprobe` binary: the configured one when it exists, else the one beside
/// `ffmpeg` when that exists, else the one on the search path.
pub open spec fn chosen_ffprobe(
    configured: Option<Seq<char>>,
    exists_configured: bool,
    ffmpeg: Option<Seq<char>>,
    exists_sibling: bool,
    on_path: Option<Seq<char>>,
) -> Option<Seq<char>> {
    if configured is Some && exists_configured {
        configured
    } else if ffmpeg is Some && sibling(ffmpeg->0) is Some && exists_sibling {
        sibling(ffmpeg->0)
    } else {
        on_path
    }
}

/// Chooses the `ffprobe` binary.
pub fn resolve_ffprobe(
    settings: &Settings,
    ffmpeg: Option<&str>,
    configured_exists: bool,
    sibling_exists: bool,
    on_path: Option<String>,
) -> (r: Option<String>)
    ensures
        opt_text(r) == chosen_ffprobe(
            opt_text(settings.general.ffprobe_path),
            configured_exists,
            match ffmpeg {
                Some(p) => Some(p@),
                None => None,
            },
            sibling_exists,
            opt_text(on_path),
        ),
{
    if let Some(p) = &settings.general.ffprobe_path {
        if configured_exists {
            return Some(copy_text(p.as_str()));
        }
    }
    if let Some(ffmpeg) = ffmpeg {
        if let Some(beside) = sibling_ffprobe(ffmpeg) {
            if sibling_exists {
                return Some(beside);
            }
        }
    }
    on_path
}

/// The warning for a configured path other than the one in use.
pub open spec fn stale_warning(configured: Option<Seq<char>>, resolved: Seq<char>) -> Option<
    Seq<char>,
> {
    match configured {
        Some(p) => if p.len() > 0 && !same_place(p, resolved) {
            Some(
                "Configured ffmpeg path "@ + p + " does not exist; using "@ + resolved
                    + " instead."@,
            )
        } else {
            None
        },
        None => None,
    }
}

/// Warns when the configured path was not the one resolved.
pub fn stale_config_warning(settings: &Settings, resolved: &str) -> (r: Option<String>)
    ensures
        opt_text(r) == stale_warning(opt_text(settings.general.ffmpeg_path), resolved@),
{
    match &settings.general.ffmpeg_path {
        Some(p) => if !p.as_str().is_empty() && !is_same_place(p.as_str(), resolved) {
            let head = join3("Configured ffmpeg path ", p.as_str(), " does not exist; using ");
            Some(join3(head.as_str(), resolved, " instead."))
        } else {
            None
        },
        None => None,
    }
}

// ---------------------------------------------------------------------------
// The report
// ---------------------------------------------------------------------------

/// Builds older than this major version get a warning.
pub const ANCIENT_MAJOR: u32 = 6;

/// What FFmpeg printed for each question; nothing where it failed.
pub struct Answers {
    pub version: Option<String>,
    pub encoders: Option<String>,
    pub decoders: Option<String>,
    pub filters: Option<String>,
    pub hwaccels: Option<String>,
}

/// The first line of an answer, or nothing at all.
pub open spec fn first_line(o: Option<String>) -> Seq<char> {
    match o {
        Some(s) => if lines(s@).len() > 0 {
            lines(s@)[0]
        } else {
            Seq::empty()
        },
        None => Seq::empty(),
    }
}

/// One warning, or none.
pub open spec fn warn_if(cond: bool, text: Seq<char>) -> Seq<Seq<char>> {
    if cond {
        seq![text]
    } else {
        Seq::empty()
    }
}

/// The warning about a version: too old, or of an unknown shape.
pub open spec fn version_warning(line: Seq<char>) -> Seq<Seq<char>> {
    match version_of(line) {
        Some(v) => warn_if(
            v.0 < ANCIENT_MAJOR,
            "FFmpeg "@ + dec(v.0) + "."@ + dec(v.1) + "."@ + dec(v.2)
                + " looks ancient (older than 6.x); flag behavior may differ from what ffkit expects."@,
        ),
        None => warn_if(
            line.len() > 0,
            "Could not parse the FFmpeg version; it may be a dev build. Capability checks still apply."@,
        ),
    }
}

/// All warnings of a report, in order.
pub open spec fn all_warnings(
    configured: Option<Seq<char>>,
    ffmpeg: Seq<char>,
    ffprobe: Option<Seq<char>>,
    a: Answers,
) -> Seq<Seq<char>> {
    (match stale_warning(configured, ffmpeg) {
        Some(w) => seq![w],
        None => Seq::empty(),
    }) + version_warning(first_line(a.version)) + warn_if(
        ffprobe is None,
        "ffprobe was not found; media info and progress percentages will be unavailable."@,
    ) + warn_if(a.encoders is None, "Could not list encoders; assuming none."@) + warn_if(
        a.decoders is None,
        "Could not list decoders; assuming none."@,
    ) + warn_if(a.filters is None, "Could not list filters; assuming none."@) + warn_if(
        a.hwaccels is None,
        "Could not list hardware accelerators; hardware options will be hidden."@,
    )
}

/// The names that an answer lists; none where FFmpeg failed.
pub open spec fn answered(o: Option<String>, n: int, codec: bool) -> Set<Seq<char>> {
    match o {
        Some(s) => listed(s@, n, codec),
        None => Set::empty(),
    }
}

/// Adds a warning when it is called for.
fn warn(warnings: &mut Vec<String>, cond: bool, text: &str)
    ensures
        texts(final(warnings)@) == texts(old(warnings)@) + warn_if(cond, text@),
{
    let ghost before = texts(warnings@);
    if cond {
        warnings.push(copy_text(text));
    }
    assert(texts(warnings@) =~= before + warn_if(cond, text@));
}

/// Reads an answer that lists codecs or filters.
fn read_answer(o: &Option<String>, n: usize, codec: bool) -> (r: NameSet)
    requires
        n <= 6,
    ensures
        r.wf(),
        r@ == answered(*o, n as int, codec),
{
    match o {
        Some(text) => read_list(text.as_str(), n, codec),
        None => NameSet::new(),
    }
}

/// The first line of an answer.
fn read_first_line(o: &Option<String>) -> (r: String)
    ensures
        r@ == first_line(*o),
{
    match o {
        Some(s) => {
            let all = split_lines(s.as_str());
            if all.len() > 0 {
                assert(texts(all@)[0] == all@[0]@);
                copy_text(all[0].as_str())
            } else {
                assert(texts(all@).len() == 0);
                String::new()
            }
        },
        None => String::new(),
    }
}

/// Adds the warning about a version.
fn warn_version(warnings: &mut Vec<String>, line: &str, version: Option<FfmpegVersion>)
    requires
        version_numbers(version) == version_of(line@),
    ensures
        texts(final(warnings)@) == texts(old(warnings)@) + version_warning(line@),
{
    let ghost before = texts(warnings@);
    match version {
        Some(v) => if v.major < ANCIENT_MAJOR {
            let head = join3("FFmpeg ", show(v.major as u128).as_str(), ".");
            let mid = join3(head.as_str(), show(v.minor as u128).as_str(), ".");
            let text = join3(
                mid.as_str(),
                show(v.patch as u128).as_str(),
                " looks ancient (older than 6.x); flag behavior may differ from what ffkit expects.",
            );
            warn(warnings, true, text.as_str());
        },
        None => warn(
            warnings,
            !line.is_empty(),
            "Could not parse the FFmpeg version; it may be a dev build. Capability checks still apply.",
        ),
    }
    assert(texts(warnings@) =~= before + version_warning(line@));
}

/// Makes the report from the resolved binaries and FFmpeg's answers.
pub fn detect(
    settings: &Settings,
    ffmpeg_path: String,
    ffprobe_path: Option<String>,
    answers: &Answers,
) -> (r: CapabilityReport)
    ensures
        r.found,
        r.usable == answers.version is Some,
        opt_text(r.ffmpeg_path) == Some(ffmpeg_path@),
        opt_text(r.ffprobe_path) == opt_text(ffprobe_path),
        r.version_raw@ == first_line(answers.version),
        version_numbers(r.version) == version_of(first_line(answers.version)),
        r.encoders@ == answered(answers.encoders, 6, true),
        r.decoders@ == answered(answers.decoders, 6, true),
        r.filters@ == answered(answers.filters, 2, false),
        texts(r.hwaccels@) == (match answers.hwaccels {
            Some(s) => methods(lines(s@)),
            None => Seq::empty(),
        }),
        texts(r.warnings@) == all_warnings(
            opt_text(settings.general.ffmpeg_path),
            ffmpeg_path@,
            opt_text(ffprobe_path),
            *answers,
        ),
        r.wf(),
{
    let mut warnings: Vec<String> = Vec::new();
    match stale_config_warning(settings, ffmpeg_path.as_str()) {
        Some(warning) => warnings.push(warning),
        None => {},
    }
    proof {
        let stale = stale_warning(opt_text(settings.general.ffmpeg_path), ffmpeg_path@);
        assert(texts(warnings@) =~= (match stale {
            Some(w) => seq![w],
            None => Seq::empty(),
        }));
    }
    let version_raw = read_first_line(&answers.version);
    let version = parse_version_line(version_raw.as_str());
    warn_version(&mut warnings, version_raw.as_str(), version);
    warn(
        &mut warnings,
        ffprobe_path.is_none(),
        "ffprobe was not found; media info and progress percentages will be unavailable.",
    );
    warn(&mut warnings, answers.encoders.is_none(), "Could not list encoders; assuming none.");
    warn(&mut warnings, answers.decoders.is_none(), "Could not list decoders; assuming none.");
    warn(&mut warnings, answers.filters.is_none(), "Could not list filters; assuming none.");
    warn(
        &mut warnings,
        answers.hwaccels.is_none(),
        "Could not list hardware accelerators; hardware options will be hidden.",
    );
    let hwaccels = match &answers.hwaccels {
        Some(text) => parse_hwaccel_list(text.as_str()),
        None => Vec::new(),
    };
    assert(answers.hwaccels is None ==> texts(hwaccels@) =~= Seq::<Seq<char>>::empty());
    CapabilityReport {
        found: true,
        usable: answers.version.is_some(),
        ffmpeg_path: Some(ffmpeg_path),
        ffprobe_path,
        version_raw,
        version,
        encoders: read_answer(&answers.encoders, 6, true),
        decoders: read_answer(&answers.decoders, 6, true),
        filters: read_answer(&answers.filters, 2, false),
        hwaccels,
        warnings,
    }
}

/// What the configuration names is used whenever it exists, and a warning says
/// so whenever something else was used in its place.
pub proof fn law_configured_binary_wins(
    configured: Seq<char>,
    exists_configured: bool,
    on_path: Option<Seq<char>>,
)
    requires
        configured.len() > 0,
    ensures
        exists_configured ==> chosen_ffmpeg(Some(configured), exists_configured, on_path) == Some(
            configured,
        ) && stale_warning(Some(configured), configured) is None,
        chosen_ffmpeg(Some(configured), exists_configured, on_path) matches Some(p) ==> (
        stale_warning(Some(configured), p) is Some <==> !same_place(configured, p)),
{
}

/// A line of a codec list names its codec: a blank, six flags, a blank, and the
/// name up to the next blank. So does a line of a filter list, with two flags.
pub proof fn law_list_lines_name_their_entry(
    flags: Seq<char>,
    name: Seq<char>,
    rest: Seq<char>,
    codec: bool,
)
    requires
        flags.len() == (if codec {
            6int
        } else {
            2
        }),
        forall|i: int| 0 <= i < flags.len() ==> flag_char(#[trigger] flags[i], codec),
        name.len() > 0,
        forall|i: int| 0 <= i < name.len() ==> !is_space(#[trigger] name[i]),
        !(seq![' '] + flags + seq![' '] + name + seq![' '] + rest).contains('='),
    ensures
        list_entry(
            seq![' '] + flags + seq![' '] + name + seq![' '] + rest,
            flags.len() as int,
            codec,
        ) == Some(name),
{
    let line = seq![' '] + flags + seq![' '] + name + seq![' '] + rest;
    let n = flags.len() as int;
    assert(line[0] == ' ' && line[n + 1] == ' ');
    assert forall|i: int| 1 <= i <= n implies flag_char(#[trigger] line[i], codec) by {
        assert(line[i] == flags[i - 1]);
    }
    let after = name + seq![' '] + rest;
    assert(line.skip(n + 2) =~= after);
    lemma_word_then_blank(name, rest);
}

proof fn lemma_word_then_blank(name: Seq<char>, rest: Seq<char>)
    requires
        name.len() > 0,
        forall|i: int| 0 <= i < name.len() ==> !is_space(#[trigger] name[i]),
    ensures
        first_word(name + seq![' '] + rest) == Some(name),
{
    let s = name + seq![' '] + rest;
    assert(s[0] == name[0]);
    assert(!is_space(name[0]));
    assert(trim_start(s) == s);
    lemma_prefix_of(name, rest);
}

proof fn lemma_prefix_of(name: Seq<char>, rest: Seq<char>)
    requires
        forall|i: int| 0 <= i < name.len() ==> !is_space(#[trigger] name[i]),
    ensures
        word_prefix(name + seq![' '] + rest) == name,
    decreases name.len(),
{
    let s = name + seq![' '] + rest;
    if name.len() == 0 {
        assert(s[0] == ' ');
        assert(word_prefix(s) =~= name);
    } else {
        let t = name.skip(1);
        assert(!is_space(name[0]));
        assert forall|i: int| 0 <= i < t.len() implies !is_space(#[trigger] t[i]) by {
            assert(t[i] == name[i + 1]);
        }
        assert(s[0] == name[0]);
        assert(s.skip(1) =~= t + seq![' '] + rest);
        lemma_prefix_of(t, rest);
        assert(seq![name[0]] + t =~= name);
    }
}

/// A version reads as its three numbers.
pub proof fn law_versions_read_as_written(major: nat, minor: nat, patch: nat, rest: Seq<char>)
    requires
        major <= u32::MAX,
        minor <= u32::MAX,
        patch <= u32::MAX,
    ensures
        version_of(
            "ffmpeg version "@ + (dec(major) + seq!['.'] + (dec(minor) + seq!['.'] + dec(patch))
                + seq![' '] + rest),
        ) == Some((major, minor, patch)),
{
    let prefix = "ffmpeg version "@;
    let token = dec(major) + seq!['.'] + (dec(minor) + seq!['.'] + dec(patch));
    let line = prefix + (token + seq![' '] + rest);
    law_numbers_read_back(major);
    law_numbers_read_back(minor);
    law_numbers_read_back(patch);
    assert(line.take(prefix.len() as int) =~= prefix);
    assert(line.skip(prefix.len() as int) =~= token + seq![' '] + rest);
    assert forall|i: int| 0 <= i < token.len() implies !is_space(#[trigger] token[i]) by {
        let a = dec(major).len() as int;
        let b = dec(minor).len() as int;
        if i < a {
            assert(token[i] == dec(major)[i]);
            assert(is_digit(dec(major)[i]));
        } else if a < i < a + 1 + b {
            assert(token[i] == dec(minor)[i - a - 1]);
            assert(is_digit(dec(minor)[i - a - 1]));
        } else if i > a + 1 + b {
            assert(token[i] == dec(patch)[i - a - b - 2]);
            assert(is_digit(dec(patch)[i - a - b - 2]));
        }
    }
    lemma_word_then_blank(token, rest);
    lemma_number_whole(major);
    lemma_number_whole(minor);
    lemma_number_whole(patch);
    lemma_pieces_front(dec(major), dec(minor) + seq!['.'] + dec(patch), '.');
    lemma_pieces_front(dec(minor), dec(patch), '.');
    lemma_one_piece(dec(patch), '.');
    assert(pieces(token, '.') =~= seq![dec(major), dec(minor), dec(patch)]);
}

proof fn lemma_number_whole(n: nat)
    requires
        n <= u32::MAX,
    ensures
        !dec(n).contains('.'),
        leading_number(dec(n)) == n,
{
    law_numbers_read_back(n);
    let d = dec(n);
    if d.contains('.') {
        let i = choose|i: int| 0 <= i < d.len() && d[i] == '.';
        assert(is_digit(d[i]));
    }
    lemma_all_run(d);
    assert(d.take(d.len() as int) =~= d);
}

proof fn lemma_all_run(d: Seq<char>)
    requires
        all_digits(d),
    ensures
        digit_run(d) == d.len(),
    decreases d.len(),
{
    if d.len() > 0 {
        assert(is_digit(d[0]));
        let t = d.skip(1);
        assert(all_digits(t)) by {
            assert forall|i: int| 0 <= i < t.len() implies is_digit(#[trigger] t[i]) by {
                assert(t[i] == d[i + 1]);
            }
        }
        lemma_all_run(t);
    }
}

/// `ffprobe` is the configured one where that exists, else the one beside
/// `ffmpeg` where that exists, else what the search path offers.
pub proof fn law_ffprobe_is_found_beside_ffmpeg(
    configured: Option<Seq<char>>,
    exists_configured: bool,
    dir: Seq<char>,
    exists_sibling: bool,
    on_path: Option<Seq<char>>,
)
    requires
        dir.len() > 0,
        dir[0] == '/',
        dir.last() != '/',
        dir.last() != '.',
    ensures
        configured is Some && exists_configured ==> chosen_ffprobe(
            configured,
            exists_configured,
            Some(dir + "/ffmpeg"@),
            exists_sibling,
            on_path,
        ) == configured,
        !(configured is Some && exists_configured) && exists_sibling ==> chosen_ffprobe(
            configured,
            exists_configured,
            Some(dir + "/ffmpeg"@),
            exists_sibling,
            on_path,
        ) == Some(dir + "/ffprobe"@),
        !(configured is Some && exists_configured) && !exists_sibling ==> chosen_ffprobe(
            configured,
            exists_configured,
            Some(dir + "/ffmpeg"@),
            exists_sibling,
            on_path,
        ) == on_path,
{
    reveal_strlit("/ffmpeg");
    reveal_strlit("ffprobe");
    reveal_strlit("/ffprobe");
    let p = dir + "/ffmpeg"@;
    let k = dir.len() as int;
    assert(p.last() == 'g');
    assert(tidy(p) == p);
    assert(p[k] == '/');
    assert forall|j: int| k < j < p.len() implies p[j] != '/' by {
        assert(p[j] == "/ffmpeg"@[j - k]);
    }
    lemma_rfind(p, '/', k);
    let cut = p.take(k + 1);
    assert(cut.last() == '/');
    assert(cut.drop_last() =~= dir);
    assert(tidy(dir) == dir);
    assert(tidy(cut) == dir);
    assert(parent(p) == Some(dir));
    assert(dir + seq!['/'] + "ffprobe"@ =~= dir + "/ffprobe"@);
}

/// A build is called ancient exactly when its major version is below six.
pub proof fn law_old_builds_are_warned_about(major: nat, minor: nat, patch: nat, rest: Seq<char>)
    requires
        major <= u32::MAX,
        minor <= u32::MAX,
        patch <= u32::MAX,
    ensures
        ({
            let line = "ffmpeg version "@ + (dec(major) + seq!['.'] + (dec(minor) + seq!['.'] + dec(
                patch,
            )) + seq![' '] + rest);
            version_warning(line).len() == (if major < 6 {
                1int
            } else {
                0
            })
        }),
{
    law_versions_read_as_written(major, minor, patch, rest);
}

/// Every question that FFmpeg left unanswered is warned about, and nothing is
/// where all is well.
pub proof fn law_missing_answers_are_warned_about(
    configured: Option<Seq<char>>,
    ffmpeg: Seq<char>,
    ffprobe: Option<Seq<char>>,
    a: Answers,
)
    ensures
        ({
            let w = all_warnings(configured, ffmpeg, ffprobe, a);
            let missing = count(ffprobe is None) + count(a.encoders is None) + count(
                a.decoders is None,
            ) + count(a.filters is None) + count(a.hwaccels is None);
            &&& w.len() >= missing
            &&& configured is None && version_warning(first_line(a.version)).len() == 0 ==> w.len()
                == missing
            &&& a.hwaccels is None ==> w.last()
                == "Could not list hardware accelerators; hardware options will be hidden."@
        }),
{
    let stale = match stale_warning(configured, ffmpeg) {
        Some(w) => seq![w],
        None => Seq::empty(),
    };
    let version = version_warning(first_line(a.version));
    let probe = warn_if(
        ffprobe is None,
        "ffprobe was not found; media info and progress percentages will be unavailable."@,
    );
    let encoders = warn_if(a.encoders is None, "Could not list encoders; assuming none."@);
    let decoders = warn_if(a.decoders is None, "Could not list decoders; assuming none."@);
    let filters = warn_if(a.filters is None, "Could not list filters; assuming none."@);
    let hwaccels = warn_if(
        a.hwaccels is None,
        "Could not list hardware accelerators; hardware options will be hidden."@,
    );
    let front = stale + version + probe + encoders + decoders + filters;
    assert(all_warnings(configured, ffmpeg, ffprobe, a) == front + hwaccels);
    assert(probe.len() == count(ffprobe is None));
    assert(encoders.len() == count(a.encoders is None));
    assert(decoders.len() == count(a.decoders is None));
    assert(filters.len() == count(a.filters is None));
    assert(hwaccels.len() == count(a.hwaccels is None));
    assert(front.len() == stale.len() + version.len() + probe.len() + encoders.len()
        + decoders.len() + filters.len());
    if a.hwaccels is None {
        assert((front + hwaccels).last() == hwaccels[0]);
    }
}

/// One for a thing that is so, and none for one that is not.
pub open spec fn count(holds: bool) -> nat {
    if holds {
        1
    } else {
        0
    }
}

/// The hardware methods are the lines behind their heading, each without the
/// blanks around it.
pub proof fn law_methods_follow_their_heading(before: Seq<Seq<char>>, names: Seq<Seq<char>>)
    requires
        forall|i: int|
            0 <= i < before.len() ==> trimmed(#[trigger] before[i])
                != "Hardware acceleration methods:"@,
        forall|i: int|
            0 <= i < names.len() ==> (#[trigger] names[i]).len() > 0 && trimmed(names[i])
                == names[i],
    ensures
        methods(before + seq!["Hardware acceleration methods:"@] + names) == names,
        methods(before).len() == 0,
    decreases before.len(),
{
    let all = before + seq!["Hardware acceleration methods:"@] + names;
    if before.len() > 0 {
        let rest = before.skip(1);
        assert forall|i: int| 0 <= i < rest.len() implies trimmed(#[trigger] rest[i])
            != "Hardware acceleration methods:"@ by {
            assert(rest[i] == before[i + 1]);
        }
        law_methods_follow_their_heading(rest, names);
        assert(all[0] == before[0]);
        assert(all.skip(1) =~= rest + seq!["Hardware acceleration methods:"@] + names);
    } else {
        assert(all[0] == "Hardware acceleration methods:"@);
        assert(trimmed(all[0]) == all[0]) by {
            reveal_strlit("Hardware acceleration methods:");
        }
        assert(all.skip(1) =~= names);
        lemma_filled(names);
    }
}

proof fn lemma_filled(names: Seq<Seq<char>>)
    requires
        forall|i: int|
            0 <= i < names.len() ==> (#[trigger] names[i]).len() > 0 && trimmed(names[i])
                == names[i],
    ensures
        filled(names) == names,
    decreases names.len(),
{
    if names.len() > 0 {
        let w = names.drop_last();
        assert forall|i: int| 0 <= i < w.len() implies (#[trigger] w[i]).len() > 0 && trimmed(w[i])
            == w[i] by {
            assert(w[i] == names[i]);
        }
        lemma_filled(w);
        assert(names.last() == names[names.len() - 1]);
        assert(w.push(names.last()) =~= names);
    }
}

} // verus!
