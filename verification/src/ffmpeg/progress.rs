//! FFmpeg's `-progress` output.
//!
//! FFmpeg prints blocks of `key=value` lines, each closed by a `progress=`
//! line. Unknown values (`N/A`) and audio-only encodes, which have no frame
//! keys at all, leave fields empty. Rates are kept in millionths.

use std::collections::VecDeque;
use vstd::prelude::*;
use crate::number::{
    all_digits, below_zero, dec, decimal, in_units, is_na, law_decimals_read_as_written,
    law_fine_units_are_exact, law_nearest_is_nearest, law_numbers_read_back, leading_value, least,
    nearest, not_available, pow10, read_decimal, read_nat, read_rounded, read_u32, read_u64,
    rounded, Decimal,
};
use crate::text::{
    begins, begins_with, chars_of, copy_text, ends, ends_with, is_digit, is_space, join2,
    lemma_find, lemma_one_piece, lemma_pieces_front, lines, lower, lowered, pieces, same,
    slice_text, split_char, split_first, split_lines, split_once, texts, trim, trimmed,
};
use crate::time::Duration;

verus! {

/// One block of progress.
#[derive(Debug, Clone, PartialEq, Eq)]
pub struct ProgressUpdate {
    /// Frames written (video only).
    pub frame: Option<u64>,
    /// Encoding speed in millionths of a frame per second.
    pub fps: Option<u64>,
    /// Output bit rate in millionths of a kbit/s.
    pub bitrate_kbps: Option<u64>,
    /// Output size so far, in bytes.
    pub total_size_bytes: Option<u64>,
    /// Media time reached.
    pub out_time: Option<Duration>,
    /// Duplicated frames.
    pub dup_frames: Option<u64>,
    /// Dropped frames.
    pub drop_frames: Option<u64>,
    /// Speed in millionths of real time.
    pub speed: Option<u64>,
    /// Quality of each stream in millionths, by file and stream number.
    pub stream_q: Vec<((u32, u32), u64)>,
    /// Whether the block closed the encode.
    pub finished: bool,
}

/// The lines of a block that is not closed yet.
#[derive(Debug)]
pub struct ProgressParser {
    block: Vec<(String, String)>,
}

/// The lines of a block, as keys and values.
pub open spec fn pairs(v: Seq<(String, String)>) -> Seq<(Seq<char>, Seq<char>)> {
    v.map_values(|e: (String, String)| (e.0@, e.1@))
}

/// Position of a key, or the number of keys.
pub open spec fn key_at(b: Seq<(Seq<char>, Seq<char>)>, key: Seq<char>) -> int
    decreases b.len(),
{
    if b.len() == 0 || b[0].0 == key {
        0
    } else {
        1 + key_at(b.skip(1), key)
    }
}

/// The value of a key.
pub open spec fn value_at(b: Seq<(Seq<char>, Seq<char>)>, key: Seq<char>) -> Option<Seq<char>> {
    if key_at(b, key) < b.len() {
        Some(b[key_at(b, key)].1)
    } else {
        None
    }
}

/// A block with a key set.
pub open spec fn with_key(
    b: Seq<(Seq<char>, Seq<char>)>,
    key: Seq<char>,
    value: Seq<char>,
) -> Seq<(Seq<char>, Seq<char>)> {
    if key_at(b, key) < b.len() {
        b.update(key_at(b, key), (key, value))
    } else {
        b.push((key, value))
    }
}

proof fn lemma_key_at(b: Seq<(Seq<char>, Seq<char>)>, key: Seq<char>, i: int)
    requires
        0 <= i <= b.len(),
        forall|j: int| 0 <= j < i ==> (#[trigger] b[j]).0 != key,
        i < b.len() ==> b[i].0 == key,
    ensures
        key_at(b, key) == i,
    decreases b.len(),
{
    if i > 0 {
        assert(b[0].0 != key);
        assert forall|j: int| 0 <= j < i - 1 implies (#[trigger] b.skip(1)[j]).0 != key by {
            assert(b.skip(1)[j] == b[j + 1]);
        }
        lemma_key_at(b.skip(1), key, i - 1);
    }
}

/// Finds a key.
fn find_key(block: &Vec<(String, String)>, key: &str) -> (r: usize)
    ensures
        r == key_at(pairs(block@), key@),
        r <= block@.len(),
{
    let ghost b = pairs(block@);
    let mut i: usize = 0;
    while i < block.len()
        invariant
            i <= block@.len(),
            b == pairs(block@),
            forall|j: int| 0 <= j < i ==> (#[trigger] b[j]).0 != key@,
        decreases block@.len() - i,
    {
        assert(b[i as int].0 == block@[i as int].0@);
        if same(block[i].0.as_str(), key) {
            proof {
                lemma_key_at(b, key@, i as int);
            }
            return i;
        }
        i = i + 1;
    }
    proof {
        lemma_key_at(b, key@, i as int);
    }
    i
}

/// Gets the value of a key.
fn get_value<'a>(block: &'a Vec<(String, String)>, key: &str) -> (r: Option<&'a str>)
    ensures
        match r {
            Some(v) => value_at(pairs(block@), key@) == Some(v@),
            None => value_at(pairs(block@), key@) is None,
        },
{
    let i = find_key(block, key);
    if i < block.len() {
        assert(pairs(block@)[i as int].1 == block@[i as int].1@);
        Some(block[i].1.as_str())
    } else {
        None
    }
}

// ---------------------------------------------------------------------------
// Values
// ---------------------------------------------------------------------------

/// A count; nothing for `N/A` and anything else that is not a number.
pub open spec fn count(s: Seq<char>) -> Option<nat> {
    let t = trimmed(s);
    if is_na(t) {
        None
    } else {
        read_nat(t, u64::MAX as nat)
    }
}

/// A rate in millionths, to the nearest and cut off at the largest 64-bit number;
/// nothing for `N/A`, a negative number (FFmpeg's sign for an unknown one), and
/// anything that is not a decimal number.
pub open spec fn rate(s: Seq<char>) -> Option<nat> {
    let t = trimmed(s);
    if is_na(t) {
        None
    } else {
        match decimal(t) {
            Some(d) => if below_zero(d) {
                None
            } else {
                Some(least(rounded(d, 6), u64::MAX as nat))
            },
            None => None,
        }
    }
}

/// A text without a unit at its end.
pub open spec fn without_unit(s: Seq<char>, unit: Seq<char>) -> Seq<char> {
    let t = trimmed(s);
    if ends(t, unit) {
        t.take(t.len() - unit.len())
    } else {
        t
    }
}

/// The result of a function on an optional text.
pub open spec fn with_text(
    o: Option<Seq<char>>,
    f: spec_fn(Seq<char>) -> Option<nat>,
) -> Option<nat> {
    match o {
        Some(s) => f(s),
        None => None,
    }
}

/// An optional number.
pub open spec fn opt_nat(o: Option<u64>) -> Option<nat> {
    match o {
        Some(n) => Some(n as nat),
        None => None,
    }
}

/// Reads a count.
pub fn parse_u64(s: &str) -> (r: Option<u64>)
    ensures
        opt_nat(r) == count(s@),
{
    let t = trim(s);
    if not_available(t.as_str()) {
        return None;
    }
    read_u64(t.as_str())
}

/// Reads a rate.
pub fn parse_rate(s: &str) -> (r: Option<u64>)
    ensures
        opt_nat(r) == rate(s@),
{
    let t = trim(s);
    if not_available(t.as_str()) {
        return None;
    }
    match read_rounded(t.as_str(), 6, u64::MAX as u128) {
        Some((below, v)) => if below {
            None
        } else {
            Some(v as u64)
        },
        None => None,
    }
}

/// Takes a unit off the end of a text.
fn strip_unit(s: &str, unit: &str) -> (r: String)
    ensures
        r@ == without_unit(s@, unit@),
{
    let t = trim(s);
    if ends_with(t.as_str(), unit) {
        let x = chars_of(t.as_str());
        let u = chars_of(unit);
        let end: usize = x.len() - u.len();
        let out = slice_text(&x, 0, end);
        assert(out@ =~= t@.take(t@.len() - unit@.len()));
        out
    } else {
        t
    }
}

/// Reads `1234.5kbits/s`, or a bare number.
pub fn parse_bitrate(s: &str) -> (r: Option<u64>)
    ensures
        opt_nat(r) == rate(without_unit(s@, "kbits/s"@)),
{
    parse_rate(strip_unit(s, "kbits/s").as_str())
}

/// Reads `1.52x`, or a bare number.
pub fn parse_speed(s: &str) -> (r: Option<u64>)
    ensures
        opt_nat(r) == rate(without_unit(s@, "x"@)),
{
    parse_rate(strip_unit(s, "x").as_str())
}

/// The file and stream numbers in a key `stream_<file>_<stream>_q`.
pub open spec fn stream_of(key: Seq<char>) -> Option<(nat, nat)> {
    let prefix = "stream_"@;
    let suffix = "_q"@;
    if !begins(key, prefix) {
        None
    } else {
        let rest = key.skip(prefix.len() as int);
        if !ends(rest, suffix) {
            None
        } else {
            match split_first(rest.take(rest.len() - suffix.len()), '_') {
                Some((a, b)) => match (read_nat(a, u32::MAX as nat), read_nat(b, u32::MAX as nat)) {
                    (Some(file), Some(stream)) => Some((file, stream)),
                    _ => None,
                },
                None => None,
            }
        }
    }
}

/// Reads a key `stream_<file>_<stream>_q`.
pub fn parse_stream_q_key(key: &str) -> (r: Option<(u32, u32)>)
    ensures
        match r {
            Some((file, stream)) => stream_of(key@) == Some((file as nat, stream as nat)),
            None => stream_of(key@) is None,
        },
{
    if !begins_with(key, "stream_") {
        return None;
    }
    let x = chars_of(key);
    let p = chars_of("stream_");
    let rest = slice_text(&x, p.len(), x.len());
    assert(rest@ =~= key@.skip("stream_"@.len() as int));
    if !ends_with(rest.as_str(), "_q") {
        return None;
    }
    let y = chars_of(rest.as_str());
    let q = chars_of("_q");
    let end: usize = y.len() - q.len();
    let inner = slice_text(&y, 0, end);
    assert(inner@ =~= rest@.take(rest@.len() - "_q"@.len()));
    match split_once(inner.as_str(), '_') {
        Some((a, b)) => match (read_u32(a.as_str()), read_u32(b.as_str())) {
            (Some(file), Some(stream)) => Some((file, stream)),
            _ => None,
        },
        None => None,
    }
}

/// The time that `HH:MM:SS.ffffff` denotes, to the nearest nanosecond; a
/// leading `-` is dropped. Nothing for `N/A` and any other shape.
pub open spec fn media_time(s: Seq<char>) -> Option<nat> {
    let t = trimmed(s);
    if is_na(t) {
        None
    } else {
        let u = if t.len() > 0 && t[0] == '-' {
            t.skip(1)
        } else {
            t
        };
        let (hms, frac) = match split_first(u, '.') {
            Some((a, b)) => (a, b),
            None => (u, "0"@),
        };
        let parts = pieces(hms, ':');
        if parts.len() != 3 {
            None
        } else {
            match (
                read_nat(parts[0], u64::MAX as nat),
                read_nat(parts[1], u64::MAX as nat),
                read_nat(parts[2], u64::MAX as nat),
                decimal("0."@ + frac),
            ) {
                (Some(h), Some(m), Some(sec), Some(d)) => if in_units(d, 0) > 0 {
                    None
                } else {
                    Some(
                        (h * 3600 + m * 60 + sec) * 1_000_000_000 + least(
                            rounded(d, 9),
                            1_000_000_000,
                        ),
                    )
                },
                _ => None,
            }
        }
    }
}

/// Reads `HH:MM:SS.ffffff`.
pub fn parse_out_time(s: &str) -> (r: Option<Duration>)
    ensures
        match r {
            Some(d) => media_time(s@) == Some(d.nanos as nat),
            None => media_time(s@) is None,
        },
{
    let t = trim(s);
    if not_available(t.as_str()) {
        return None;
    }
    let x = chars_of(t.as_str());
    let from: usize = if x.len() > 0 && x[0] == '-' {
        1
    } else {
        0
    };
    let u = slice_text(&x, from, x.len());
    assert(u@ =~= (if t@.len() > 0 && t@[0] == '-' {
        t@.skip(1)
    } else {
        t@
    }));
    let (hms, frac) = match split_once(u.as_str(), '.') {
        Some((a, b)) => (a, b),
        None => (u, copy_text("0")),
    };
    let parts = split_char(hms.as_str(), ':');
    assert(texts(parts@).len() == parts@.len());
    if parts.len() != 3 {
        return None;
    }
    assert(texts(parts@)[0] == parts@[0]@);
    assert(texts(parts@)[1] == parts@[1]@);
    assert(texts(parts@)[2] == parts@[2]@);
    let h = match read_u64(parts[0].as_str()) {
        Some(n) => n,
        None => return None,
    };
    let m = match read_u64(parts[1].as_str()) {
        Some(n) => n,
        None => return None,
    };
    let sec = match read_u64(parts[2].as_str()) {
        Some(n) => n,
        None => return None,
    };
    let fraction = join2("0.", frac.as_str());
    let whole = match read_decimal(fraction.as_str(), 0, 1) {
        Some((_below, v)) => v,
        None => return None,
    };
    if whole > 0 {
        return None;
    }
    match read_rounded(fraction.as_str(), 9, 1_000_000_000) {
        Some((_below, ns)) => {
            let secs: u128 = h as u128 * 3600 + m as u128 * 60 + sec as u128;
            Some(Duration { nanos: secs * 1_000_000_000 + ns })
        },
        None => None,
    }
}

// ---------------------------------------------------------------------------
// Blocks
// ---------------------------------------------------------------------------

/// The place of a stream among qualities, or their number when it has none.
pub open spec fn stream_place(v: Seq<((nat, nat), nat)>, key: (nat, nat)) -> int
    decreases v.len(),
{
    if v.len() == 0 || v[0].0 == key {
        0
    } else {
        1 + stream_place(v.skip(1), key)
    }
}

/// Qualities with that of one stream set.
pub open spec fn with_quality(
    v: Seq<((nat, nat), nat)>,
    key: (nat, nat),
    q: nat,
) -> Seq<((nat, nat), nat)> {
    let i = stream_place(v, key);
    if i < v.len() {
        v.update(i, (key, q))
    } else {
        v.push((key, q))
    }
}

proof fn lemma_stream_place(v: Seq<((nat, nat), nat)>, key: (nat, nat), i: int)
    requires
        0 <= i <= v.len(),
        forall|j: int| 0 <= j < i ==> (#[trigger] v[j]).0 != key,
        i < v.len() ==> v[i].0 == key,
    ensures
        stream_place(v, key) == i,
    decreases v.len(),
{
    if i > 0 {
        assert(v[0].0 != key);
        let w = v.skip(1);
        assert forall|j: int| 0 <= j < i - 1 implies (#[trigger] w[j]).0 != key by {
            assert(w[j] == v[j + 1]);
        }
        lemma_stream_place(w, key, i - 1);
    }
}

proof fn lemma_stream_place_bounds(v: Seq<((nat, nat), nat)>, key: (nat, nat))
    ensures
        0 <= stream_place(v, key) <= v.len(),
        stream_place(v, key) < v.len() ==> v[stream_place(v, key)].0 == key,
        forall|j: int| 0 <= j < stream_place(v, key) ==> (#[trigger] v[j]).0 != key,
    decreases v.len(),
{
    if v.len() > 0 && v[0].0 != key {
        let w = v.skip(1);
        lemma_stream_place_bounds(w, key);
        assert forall|j: int| 0 <= j < stream_place(v, key) implies (#[trigger] v[j]).0 != key by {
            if j > 0 {
                assert(w[j - 1] == v[j]);
            }
        }
    }
}

/// A stream has one quality.
pub proof fn law_one_quality_per_stream(b: Seq<(Seq<char>, Seq<char>)>)
    ensures
        forall|i: int, j: int|
            0 <= i < j < qualities(b).len() ==> (#[trigger] qualities(b)[i]).0 != (
            #[trigger] qualities(b)[j]).0,
    decreases b.len(),
{
    if b.len() > 0 {
        law_one_quality_per_stream(b.drop_last());
        if let Some(key) = stream_of(b.last().0) {
            lemma_stream_place_bounds(qualities(b.drop_last()), key);
        }
    }
}

/// The stream qualities of a block, in the order of its lines; of two for one
/// stream the later counts.
pub open spec fn qualities(b: Seq<(Seq<char>, Seq<char>)>) -> Seq<((nat, nat), nat)>
    decreases b.len(),
{
    if b.len() == 0 {
        Seq::empty()
    } else {
        let before = qualities(b.drop_last());
        match (stream_of(b.last().0), rate(b.last().1)) {
            (Some(key), Some(q)) => with_quality(before, key, q),
            _ => before,
        }
    }
}

/// The views of stream qualities.
pub open spec fn quality_view(v: Seq<((u32, u32), u64)>) -> Seq<((nat, nat), nat)> {
    v.map_values(|e: ((u32, u32), u64)| ((e.0.0 as nat, e.0.1 as nat), e.1 as nat))
}

/// Whether an update says what a block says.
pub open spec fn reports(u: ProgressUpdate, b: Seq<(Seq<char>, Seq<char>)>, finished: bool) -> bool {
    &&& opt_nat(u.frame) == with_text(value_at(b, "frame"@), |s| count(s))
    &&& opt_nat(u.fps) == with_text(value_at(b, "fps"@), |s| rate(s))
    &&& opt_nat(u.bitrate_kbps) == with_text(
        value_at(b, "bitrate"@),
        |s| rate(without_unit(s, "kbits/s"@)),
    )
    &&& opt_nat(u.total_size_bytes) == with_text(value_at(b, "total_size"@), |s| count(s))
    &&& match u.out_time {
        Some(d) => Some(d.nanos as nat),
        None => None,
    } == (match with_text(value_at(b, "out_time_us"@), |s| count(s)) {
        Some(us) => Some(us * 1000),
        None => with_text(value_at(b, "out_time"@), |s| media_time(s)),
    })
    &&& opt_nat(u.dup_frames) == with_text(value_at(b, "dup_frames"@), |s| count(s))
    &&& opt_nat(u.drop_frames) == with_text(value_at(b, "drop_frames"@), |s| count(s))
    &&& opt_nat(u.speed) == with_text(value_at(b, "speed"@), |s| rate(without_unit(s, "x"@)))
    &&& quality_view(u.stream_q@) == qualities(b)
    &&& u.finished == finished
}

/// Reads an optional count.
fn get_count(block: &Vec<(String, String)>, key: &str) -> (r: Option<u64>)
    ensures
        opt_nat(r) == with_text(value_at(pairs(block@), key@), |s| count(s)),
{
    match get_value(block, key) {
        Some(s) => parse_u64(s),
        None => None,
    }
}

/// Collects the stream qualities of a block.
fn collect_qualities(block: &Vec<(String, String)>) -> (r: Vec<((u32, u32), u64)>)
    ensures
        quality_view(r@) == qualities(pairs(block@)),
{
    let ghost b = pairs(block@);
    let mut out: Vec<((u32, u32), u64)> = Vec::new();
    let mut i: usize = 0;
    assert(quality_view(out@) =~= qualities(b.take(0)));
    while i < block.len()
        invariant
            i <= block@.len(),
            b == pairs(block@),
            quality_view(out@) == qualities(b.take(i as int)),
        decreases block@.len() - i,
    {
        let ghost before = quality_view(out@);
        proof {
            assert(b.take(i + 1).drop_last() =~= b.take(i as int));
            assert(b.take(i + 1).last() == (block@[i as int].0@, block@[i as int].1@));
        }
        if let Some((file, stream)) = parse_stream_q_key(block[i].0.as_str()) {
            if let Some(q) = parse_rate(block[i].1.as_str()) {
                let ghost key = (file as nat, stream as nat);
                let mut j: usize = 0;
                while j < out.len() && !(out[j].0.0 == file && out[j].0.1 == stream)
                    invariant
                        j <= out@.len(),
                        before == quality_view(out@),
                        key == (file as nat, stream as nat),
                        forall|k: int| 0 <= k < j ==> (#[trigger] before[k]).0 != key,
                    decreases out@.len() - j,
                {
                    assert(before[j as int].0 != key);
                    j = j + 1;
                }
                proof {
                    lemma_stream_place(before, key, j as int);
                }
                if j < out.len() {
                    out.set(j, ((file, stream), q));
                } else {
                    out.push(((file, stream), q));
                }
                assert(quality_view(out@) =~= with_quality(before, key, q as nat));
            }
        }
        i = i + 1;
    }
    assert(b.take(i as int) =~= b);
    out
}

/// Makes an update of a block.
pub fn build_update(block: &Vec<(String, String)>, finished: bool) -> (r: ProgressUpdate)
    ensures
        reports(r, pairs(block@), finished),
{
    let out_time = match get_count(block, "out_time_us") {
        Some(us) => Some(Duration::from_micros(us)),
        None => match get_value(block, "out_time") {
            Some(s) => parse_out_time(s),
            None => None,
        },
    };
    ProgressUpdate {
        frame: get_count(block, "frame"),
        fps: match get_value(block, "fps") {
            Some(s) => parse_rate(s),
            None => None,
        },
        bitrate_kbps: match get_value(block, "bitrate") {
            Some(s) => parse_bitrate(s),
            None => None,
        },
        total_size_bytes: get_count(block, "total_size"),
        out_time,
        dup_frames: get_count(block, "dup_frames"),
        drop_frames: get_count(block, "drop_frames"),
        speed: match get_value(block, "speed") {
            Some(s) => parse_speed(s),
            None => None,
        },
        stream_q: collect_qualities(block),
        finished,
    }
}

/// A closed block: its lines, and whether it closed the encode.
#[verifier::ext_equal]
pub struct Closed {
    pub block: Seq<(Seq<char>, Seq<char>)>,
    pub finished: bool,
}

/// What one line makes of an open block: a `progress` line closes it, another
/// `key=value` line joins it, and anything else is ignored.
pub open spec fn fed(b: Seq<(Seq<char>, Seq<char>)>, line: Seq<char>) -> (
    Seq<(Seq<char>, Seq<char>)>,
    Option<Closed>,
) {
    match split_first(trimmed(line), '=') {
        None => (b, None),
        Some((key, value)) => if key == "progress"@ {
            (Seq::empty(), Some(Closed { block: b, finished: trimmed(value) == "end"@ }))
        } else {
            (with_key(b, key, value), None)
        },
    }
}

/// What a sequence of lines makes of an open block: the block that is open
/// behind them, and the blocks that they closed.
pub open spec fn fed_all(b: Seq<(Seq<char>, Seq<char>)>, ls: Seq<Seq<char>>) -> (
    Seq<(Seq<char>, Seq<char>)>,
    Seq<Closed>,
)
    decreases ls.len(),
{
    if ls.len() == 0 {
        (b, Seq::empty())
    } else {
        let (open, closed) = fed_all(b, ls.drop_last());
        match fed(open, ls.last()) {
            (next, Some(c)) => (next, closed.push(c)),
            (next, None) => (next, closed),
        }
    }
}

impl ProgressParser {
    /// The open block.
    pub closed spec fn view(&self) -> Seq<(Seq<char>, Seq<char>)> {
        pairs(self.block@)
    }

    /// A parser with an empty block.
    pub fn new() -> (r: Self)
        ensures
            r@ == Seq::<(Seq<char>, Seq<char>)>::empty(),
    {
        let r = ProgressParser { block: Vec::new() };
        assert(r@ =~= Seq::<(Seq<char>, Seq<char>)>::empty());
        r
    }

    /// Feeds one line; gives an update when the line closes the block.
    pub fn feed_line(&mut self, line: &str) -> (r: Option<ProgressUpdate>)
        ensures
            final(self)@ == fed(old(self)@, line@).0,
            r is Some <==> fed(old(self)@, line@).1 is Some,
            r matches Some(u) ==> reports(
                u,
                fed(old(self)@, line@).1->0.block,
                fed(old(self)@, line@).1->0.finished,
            ),
    {
        let ghost before = self@;
        let t = trim(line);
        let (key, value) = match split_once(t.as_str(), '=') {
            Some(kv) => kv,
            None => return None,
        };
        if same(key.as_str(), "progress") {
            let finished = same(trim(value.as_str()).as_str(), "end");
            let update = build_update(&self.block, finished);
            self.block.clear();
            assert(self@ =~= Seq::<(Seq<char>, Seq<char>)>::empty());
            Some(update)
        } else {
            let i = find_key(&self.block, key.as_str());
            let ghost k = key@;
            let ghost v = value@;
            if i < self.block.len() {
                self.block.set(i, (key, value));
            } else {
                self.block.push((key, value));
            }
            assert(self@ =~= with_key(before, k, v));
            None
        }
    }

    /// Feeds a chunk of whole lines.
    pub fn feed_str(&mut self, chunk: &str) -> (r: Vec<ProgressUpdate>)
        ensures
            ({
                let (open, closed) = fed_all(old(self)@, lines(chunk@));
                &&& final(self)@ == open
                &&& r@.len() == closed.len()
                &&& forall|i: int|
                    0 <= i < r@.len() ==> reports(
                        #[trigger] r@[i],
                        closed[i].block,
                        closed[i].finished,
                    )
            }),
    {
        let ghost before = self@;
        let all = split_lines(chunk);
        let ghost ls = lines(chunk@);
        let mut out: Vec<ProgressUpdate> = Vec::new();
        let mut i: usize = 0;
        assert(ls.take(0) =~= Seq::<Seq<char>>::empty());
        while i < all.len()
            invariant
                i <= all@.len(),
                ls == texts(all@),
                self@ == fed_all(before, ls.take(i as int)).0,
                out@.len() == fed_all(before, ls.take(i as int)).1.len(),
                forall|j: int|
                    0 <= j < out@.len() ==> reports(
                        #[trigger] out@[j],
                        fed_all(before, ls.take(i as int)).1[j].block,
                        fed_all(before, ls.take(i as int)).1[j].finished,
                    ),
            decreases all@.len() - i,
        {
            proof {
                assert(ls.take(i + 1).drop_last() =~= ls.take(i as int));
                assert(ls.take(i + 1).last() == all@[i as int]@);
            }
            match self.feed_line(all[i].as_str()) {
                Some(u) => out.push(u),
                None => {},
            }
            i = i + 1;
        }
        assert(ls.take(i as int) =~= ls);
        out
    }
}

/// Lines that arrive in parts give the same blocks as lines that arrive at
/// once: an open block waits for the lines that come later.
pub proof fn law_parts_join(
    b: Seq<(Seq<char>, Seq<char>)>,
    first: Seq<Seq<char>>,
    second: Seq<Seq<char>>,
)
    ensures
        ({
            let (open, closed) = fed_all(b, first);
            let (end, more) = fed_all(open, second);
            fed_all(b, first + second) == (end, closed + more)
        }),
    decreases second.len(),
{
    let (open, closed) = fed_all(b, first);
    if second.len() == 0 {
        assert(first + second =~= first);
        assert(closed + Seq::<Closed>::empty() =~= closed);
    } else {
        law_parts_join(b, first, second.drop_last());
        assert((first + second).drop_last() =~= first + second.drop_last());
        assert((first + second).last() == second.last());
        let (mid, some) = fed_all(open, second.drop_last());
        match fed(mid, second.last()) {
            (next, Some(c)) => {
                assert((closed + some).push(c) =~= closed + some.push(c));
            },
            (next, None) => {},
        }
    }
}

// ---------------------------------------------------------------------------
// Ratios, remaining time, smoothing
// ---------------------------------------------------------------------------

/// A fraction between zero and one.
#[derive(Debug, Clone, Copy, PartialEq, Eq, Structural)]
pub struct Ratio {
    pub num: u128,
    pub den: u128,
}

impl Ratio {
    /// Whether this is a fraction between zero and one.
    pub open spec fn wf(self) -> bool {
        self.den > 0 && self.num <= self.den
    }
}

/// The whole number nearest to a fraction; of two equally near, the greater.
pub open spec fn nearest_up(num: nat, den: nat) -> nat {
    let q = num / den;
    if 2 * (num % den) < den {
        q
    } else {
        q + 1
    }
}

/// A fraction in percent, to the nearest whole number.
pub open spec fn percent(q: Ratio) -> nat {
    nearest(100 * (q.num as nat), q.den as nat)
}

impl Ratio {
    /// The whole part of `k` times the fraction, and what remains of it.
    fn times(self, k: u32) -> (r: (u32, u128))
        requires
            self.wf(),
        ensures
            r.0 == (k as nat * self.num as nat) / (self.den as nat),
            r.1 == (k as nat * self.num as nat) % (self.den as nat),
            r.0 <= k,
            r.1 < self.den,
    {
        let gap: u128 = self.den - self.num;
        let mut whole: u32 = 0;
        let mut rest: u128 = 0;
        let mut i: u32 = 0;
        assert(0 * self.num == 0 * self.den) by (nonlinear_arith);
        while i < k
            invariant
                self.wf(),
                gap == self.den - self.num,
                whole <= i <= k,
                rest < self.den,
                i * self.num == whole * self.den + rest,
            decreases k - i,
        {
            assert((i + 1) * self.num == i * self.num + self.num) by (nonlinear_arith);
            assert((whole + 1) * self.den == whole * self.den + self.den) by (nonlinear_arith);
            if rest >= gap {
                rest = rest - gap;
                whole = whole + 1;
            } else {
                rest = rest + self.num;
            }
            i = i + 1;
        }
        proof {
            let a = k as int * self.num as int;
            let d = self.den as int;
            assert(whole as int * d == d * whole as int) by (nonlinear_arith);
            vstd::arithmetic::div_mod::lemma_fundamental_div_mod_converse(
                a,
                d,
                whole as int,
                rest as int,
            );
        }
        (whole, rest)
    }

    /// The fraction in percent, to the nearest whole number.
    pub fn percent(self) -> (r: u32)
        requires
            self.wf(),
        ensures
            r == percent(self),
            r <= 100,
    {
        let (whole, rest) = self.times(100);
        let other: u128 = self.den - rest;
        proof {
            assert(whole == 100 ==> rest == 0) by {
                if whole == 100 {
                    let a = 100 * self.num;
                    let d = self.den as int;
                    vstd::arithmetic::div_mod::lemma_fundamental_div_mod(a, d);
                    assert(d * 100 == 100 * d);
                    assert(100 * self.num <= 100 * self.den);
                }
            }
        }
        if rest < other || (rest == other && whole % 2 == 0) {
            whole
        } else {
            whole + 1
        }
    }

    /// How many of `k` parts the fraction covers, to the nearest whole number.
    pub fn part_of(self, k: u32) -> (r: u32)
        requires
            self.wf(),
        ensures
            r == nearest_up(k as nat * self.num as nat, self.den as nat),
            r <= k,
    {
        let (whole, rest) = self.times(k);
        proof {
            assert(whole == k ==> rest == 0) by {
                if whole == k {
                    let a = k as int * self.num as int;
                    let d = self.den as int;
                    vstd::arithmetic::div_mod::lemma_fundamental_div_mod(a, d);
                    assert(k as int * self.num as int <= k as int * d) by (nonlinear_arith)
                        requires
                            self.num <= d,
                            k >= 0,
                    ;
                    assert(d * k as int == k as int * d) by (nonlinear_arith);
                }
            }
        }
        if rest < self.den - rest {
            whole
        } else {
            whole + 1
        }
    }
}

/// How far an output has come: its time over the total, at most one. Nothing
/// when the total is zero.
pub open spec fn ratio_of(out_time: Duration, total: Duration) -> Option<Ratio> {
    if total.nanos == 0 {
        None
    } else {
        Some(
            Ratio {
                num: if out_time.nanos <= total.nanos {
                    out_time.nanos
                } else {
                    total.nanos
                },
                den: total.nanos,
            },
        )
    }
}

/// Works out how far an output has come.
pub fn progress_ratio(out_time: Duration, total: Duration) -> (r: Option<Ratio>)
    ensures
        r == ratio_of(out_time, total),
        r matches Some(q) ==> q.wf(),
{
    if total.is_zero() {
        return None;
    }
    let num: u128 = if out_time.nanos <= total.nanos {
        out_time.nanos
    } else {
        total.nanos
    };
    Some(Ratio { num, den: total.nanos })
}

/// The wall-clock time that the rest takes at a speed in millionths: the rest
/// over the speed, to the nearest nanosecond. Nothing when the speed is zero or
/// nothing is left.
pub open spec fn remaining(out_time: nat, total: nat, speed: nat) -> Option<nat> {
    if speed == 0 || out_time >= total {
        None
    } else {
        Some(
            least(
                nearest((total - out_time) as nat * 1_000_000, speed),
                u128::MAX as nat,
            ),
        )
    }
}

/// Works out the remaining wall-clock time.
pub fn eta_seconds(out_time: Duration, total: Duration, speed: u64) -> (r: Option<Duration>)
    ensures
        match r {
            Some(d) => remaining(out_time.nanos as nat, total.nanos as nat, speed as nat) == Some(
                d.nanos as nat,
            ),
            None => remaining(out_time.nanos as nat, total.nanos as nat, speed as nat) is None,
        },
{
    if speed == 0 || out_time.nanos >= total.nanos {
        return None;
    }
    let rest: u128 = total.nanos - out_time.nanos;
    let v: u128 = speed as u128;
    let q: u128 = rest / v;
    let m: u128 = rest % v;
    let part: u128 = m * 1_000_000 / v;
    let over: u128 = m * 1_000_000 % v;
    proof {
        lemma_split_division(rest as int, v as int, 1_000_000);
        assert(part < 1_000_000) by (nonlinear_arith)
            requires
                v > 0,
                0 <= m < v,
                part == (m * 1_000_000) / (v as int),
        ;
    }
    if q > u128::MAX / 1_000_000 {
        return Some(Duration { nanos: u128::MAX });
    }
    let whole: u128 = q * 1_000_000;
    if whole >= u128::MAX - part {
        return Some(Duration { nanos: u128::MAX });
    }
    let floor: u128 = whole + part;
    if 2 * over > v || (2 * over == v && floor % 2 == 1) {
        Some(Duration { nanos: floor + 1 })
    } else {
        Some(Duration { nanos: floor })
    }
}

proof fn lemma_split_division(a: int, v: int, k: int)
    requires
        a >= 0,
        v > 0,
        k >= 0,
    ensures
        (a * k) / v == (a / v) * k + ((a % v) * k) / v,
        (a * k) % v == ((a % v) * k) % v,
{
    let q = a / v;
    let m = a % v;
    vstd::arithmetic::div_mod::lemma_fundamental_div_mod(a, v);
    assert(a * k == v * (q * k) + m * k) by (nonlinear_arith)
        requires
            a == v * q + m,
    ;
    vstd::arithmetic::div_mod::lemma_hoist_over_denominator(m * k, q * k, v as nat);
    assert(v * (q * k) == (q * k) * v) by (nonlinear_arith);
    vstd::arithmetic::div_mod::lemma_mod_multiples_vanish(q * k, m * k, v);
}

/// The last few speeds. Speeds jitter badly at the start of an encode, so the
/// remaining time is worked out from their mean.
#[derive(Debug)]
pub struct SpeedSmoother {
    samples: VecDeque<u64>,
    capacity: usize,
}

/// The sum of speeds.
pub open spec fn sum(v: Seq<u64>) -> nat
    decreases v.len(),
{
    if v.len() == 0 {
        0
    } else {
        sum(v.drop_last()) + v.last() as nat
    }
}

/// A window of at most `capacity` speeds with one more.
pub open spec fn windowed(v: Seq<u64>, capacity: int, speed: u64) -> Seq<u64> {
    if v.len() == capacity {
        v.skip(1).push(speed)
    } else {
        v.push(speed)
    }
}

proof fn lemma_sum_bound(v: Seq<u64>)
    ensures
        sum(v) <= v.len() * (u64::MAX as nat),
    decreases v.len(),
{
    if v.len() > 0 {
        lemma_sum_bound(v.drop_last());
        assert(v.len() * (u64::MAX as nat) == (v.len() - 1) * (u64::MAX as nat) + u64::MAX)
            by (nonlinear_arith)
            requires
                v.len() >= 1,
        ;
    }
}

impl SpeedSmoother {
    /// The speeds in the window, oldest first.
    pub closed spec fn view(&self) -> Seq<u64> {
        self.samples@
    }

    /// How many speeds the window holds.
    pub closed spec fn limit(&self) -> int {
        self.capacity as int
    }

    /// The window is not larger than it may be.
    pub open spec fn wf(&self) -> bool {
        1 <= self.limit() <= usize::MAX && self@.len() <= self.limit()
    }

    /// A window of `capacity` speeds, at least one.
    pub fn new(capacity: usize) -> (r: Self)
        ensures
            r.wf(),
            r@ == Seq::<u64>::empty(),
            r.limit() == (if capacity == 0 {
                1
            } else {
                capacity as int
            }),
    {
        let capacity: usize = if capacity == 0 {
            1
        } else {
            capacity
        };
        SpeedSmoother { samples: VecDeque::new(), capacity }
    }

    /// Records a speed; a missing one and zero are ignored.
    pub fn push(&mut self, speed: Option<u64>)
        requires
            old(self).wf(),
        ensures
            final(self).wf(),
            final(self).limit() == old(self).limit(),
            final(self)@ == (match speed {
                Some(v) => if v > 0 {
                    windowed(old(self)@, old(self).limit(), v)
                } else {
                    old(self)@
                },
                None => old(self)@,
            }),
    {
        if let Some(v) = speed {
            if v > 0 {
                let ghost before = self.samples@;
                if self.samples.len() == self.capacity {
                    let _ = self.samples.pop_front();
                    assert(self.samples@ =~= before.skip(1));
                }
                self.samples.push_back(v);
            }
        }
    }

    /// The mean of the window, rounded down; nothing while it is empty.
    pub fn smoothed(&self) -> (r: Option<u64>)
        ensures
            r is None <==> self@.len() == 0,
            r matches Some(v) ==> v == sum(self@) / self@.len(),
    {
        let n: usize = self.samples.len();
        if n == 0 {
            return None;
        }
        let mut total: u128 = 0;
        let mut i: usize = 0;
        assert(self.samples@.take(0) =~= Seq::<u64>::empty());
        while i < n
            invariant
                i <= n,
                n == self.samples@.len(),
                total == sum(self.samples@.take(i as int)),
                total <= i * (u64::MAX as u128),
            decreases n - i,
        {
            proof {
                assert(self.samples@.take(i + 1).drop_last() =~= self.samples@.take(i as int));
                assert((i + 1) * (u64::MAX as int) == i * (u64::MAX as int) + u64::MAX)
                    by (nonlinear_arith);
                assert(i * (u64::MAX as int) <= usize::MAX * (u64::MAX as int)) by (nonlinear_arith)
                    requires
                        i <= usize::MAX,
                ;
            }
            total = total + self.samples[i] as u128;
            i = i + 1;
        }
        assert(self.samples@.take(i as int) =~= self.samples@);
        let mean: u128 = total / n as u128;
        assert(mean <= u64::MAX) by (nonlinear_arith)
            requires
                mean == (total as int) / (n as int),
                total <= n * (u64::MAX as u128),
                n > 0,
        ;
        Some(mean as u64)
    }
}

impl Default for SpeedSmoother {
    fn default() -> (r: Self)
        ensures
            r.wf(),
            r@ == Seq::<u64>::empty(),
            r.limit() == 8,
    {
        SpeedSmoother::new(8)
    }
}

// ---------------------------------------------------------------------------
// Laws
// ---------------------------------------------------------------------------

/// How far an output has come is its time over the total: the two fractions are
/// equal, and past the end it is one.
pub proof fn law_ratio_is_time_over_total(out: Duration, total: Duration)
    ensures
        ratio_of(out, total) is None <==> total.nanos == 0,
        ratio_of(out, total) matches Some(q) ==> q.wf() && (out.nanos <= total.nanos ==> q.num
            * total.nanos == q.den * out.nanos) && (out.nanos >= total.nanos ==> q.num == q.den),
{
    if total.nanos > 0 {
        assert(out.nanos * total.nanos == total.nanos * out.nanos) by (nonlinear_arith);
    }
}

/// The remaining time is what is left over the speed, to the nearest nanosecond.
/// There is none at the end, and none that can be told while nothing moves.
pub proof fn law_remaining_time_is_rest_over_speed(out: nat, total: nat, speed: nat)
    ensures
        remaining(out, total, speed) is None <==> speed == 0 || out >= total,
        remaining(out, total, speed) matches Some(t) ==> t == u128::MAX || {
            let left = (total - out) * 1_000_000;
            2 * (t * speed) <= 2 * left + speed && 2 * left <= 2 * (t * speed) + speed
        },
{
    if speed > 0 && out < total {
        law_nearest_is_nearest((total - out) as nat * 1_000_000, speed);
    }
}

/// The window of speeds holds the latest ones: with one more it holds that one
/// last, behind all earlier ones that there is room for.
pub proof fn law_the_window_holds_the_latest_speeds(v: Seq<u64>, capacity: int, speed: u64)
    requires
        1 <= capacity,
        v.len() <= capacity,
    ensures
        ({
            let w = windowed(v, capacity, speed);
            let all = v.push(speed);
            &&& w.len() == (if all.len() <= capacity {
                all.len() as int
            } else {
                capacity
            })
            &&& forall|i: int| 0 <= i < w.len() ==> #[trigger] w[i] == all[all.len() - w.len() + i]
        }),
{
}

/// The mean speed lies between the slowest and the fastest.
pub proof fn law_the_mean_lies_between(v: Seq<u64>, low: u64, high: u64)
    requires
        v.len() > 0,
        forall|i: int| 0 <= i < v.len() ==> low <= #[trigger] v[i] <= high,
    ensures
        low <= sum(v) / v.len() <= high,
{
    lemma_sum_between(v, low, high);
    let n = v.len() as int;
    let s = sum(v) as int;
    assert(low <= s / n <= high) by (nonlinear_arith)
        requires
            n > 0,
            low * n <= s <= high * n,
    ;
}

proof fn lemma_sum_between(v: Seq<u64>, low: u64, high: u64)
    requires
        forall|i: int| 0 <= i < v.len() ==> low <= #[trigger] v[i] <= high,
    ensures
        low * v.len() <= sum(v) <= high * v.len(),
    decreases v.len(),
{
    if v.len() > 0 {
        let w = v.drop_last();
        assert forall|i: int| 0 <= i < w.len() implies low <= #[trigger] w[i] <= high by {
            assert(w[i] == v[i]);
        }
        lemma_sum_between(w, low, high);
        assert(low <= v[v.len() - 1] <= high);
        assert(low * v.len() == low * w.len() + low) by (nonlinear_arith)
            requires
                v.len() == w.len() + 1,
        ;
        assert(high * v.len() == high * w.len() + high) by (nonlinear_arith)
            requires
                v.len() == w.len() + 1,
        ;
    }
}

/// A key has the value of its latest line, and other keys keep theirs.
pub proof fn law_the_latest_line_counts(
    b: Seq<(Seq<char>, Seq<char>)>,
    key: Seq<char>,
    value: Seq<char>,
    other: Seq<char>,
)
    ensures
        value_at(with_key(b, key, value), key) == Some(value),
        other != key ==> value_at(with_key(b, key, value), other) == value_at(b, other),
{
    lemma_key_bounds(b, key);
    lemma_key_bounds(b, other);
    let i = key_at(b, key);
    let w = with_key(b, key, value);
    assert forall|j: int| 0 <= j < i implies (#[trigger] w[j]).0 != key by {
        assert(w[j] == b[j]);
    }
    lemma_key_at(w, key, i);
    if other != key {
        let k = key_at(b, other);
        if k < b.len() {
            assert forall|j: int| 0 <= j < k implies (#[trigger] w[j]).0 != other by {
                if j != i {
                    assert(w[j] == b[j]);
                }
            }
            assert(w[k] == b[k]);
            lemma_key_at(w, other, k);
        } else {
            assert forall|j: int| 0 <= j < w.len() implies (#[trigger] w[j]).0 != other by {
                if j < b.len() && j != i {
                    assert(w[j] == b[j]);
                }
            }
            lemma_key_at(w, other, w.len() as int);
        }
    }
}

proof fn lemma_key_bounds(b: Seq<(Seq<char>, Seq<char>)>, key: Seq<char>)
    ensures
        0 <= key_at(b, key) <= b.len(),
        key_at(b, key) < b.len() ==> b[key_at(b, key)].0 == key,
        forall|j: int| 0 <= j < key_at(b, key) ==> (#[trigger] b[j]).0 != key,
    decreases b.len(),
{
    if b.len() > 0 && b[0].0 != key {
        let w = b.skip(1);
        lemma_key_bounds(w, key);
        assert forall|j: int| 0 <= j < key_at(b, key) implies (#[trigger] b[j]).0 != key by {
            if j > 0 {
                assert(w[j - 1] == b[j]);
            }
        }
    }
}

/// An update says what the lines of its block say: each figure is read from the
/// line of its own key, and the time reached from the microseconds where these
/// are known.
pub proof fn law_updates_say_what_their_block_says(
    u: ProgressUpdate,
    b: Seq<(Seq<char>, Seq<char>)>,
    finished: bool,
)
    requires
        reports(u, b, finished),
    ensures
        u.finished == finished,
        value_at(b, "frame"@) is None ==> u.frame is None,
        value_at(b, "frame"@) matches Some(t) ==> (count(t) matches Some(n) ==> (u.frame matches Some(
            v,
        ) && v == n)),
        value_at(b, "fps"@) matches Some(t) ==> (rate(t) matches Some(n) ==> (u.fps matches Some(v)
            && v == n)),
        value_at(b, "total_size"@) matches Some(t) ==> (count(t) matches Some(n) ==> (
        u.total_size_bytes matches Some(v) && v == n)),
        value_at(b, "dup_frames"@) matches Some(t) ==> (count(t) matches Some(n) ==> (
        u.dup_frames matches Some(v) && v == n)),
        value_at(b, "drop_frames"@) matches Some(t) ==> (count(t) matches Some(n) ==> (
        u.drop_frames matches Some(v) && v == n)),
        value_at(b, "speed"@) is None ==> u.speed is None,
        value_at(b, "speed"@) matches Some(t) ==> (rate(without_unit(t, "x"@)) matches Some(n) ==> (
        u.speed matches Some(v) && v == n)),
        value_at(b, "bitrate"@) matches Some(t) ==> (rate(without_unit(t, "kbits/s"@)) matches Some(
            n,
        ) ==> (u.bitrate_kbps matches Some(v) && v == n)),
        value_at(b, "out_time_us"@) matches Some(t) ==> (count(t) matches Some(n) ==> (
        u.out_time matches Some(d) && d.nanos == n * 1000)),
        value_at(b, "out_time_us"@) is None && value_at(b, "out_time"@) is None ==> u.out_time is None,
        value_at(b, "out_time_us"@) is None ==> (value_at(b, "out_time"@) matches Some(t) ==> (
        media_time(t) matches Some(n) ==> (u.out_time matches Some(d) && d.nanos == n))),
{
}

/// A block closes at its `progress` line and at no other, an encode ends at the
/// one that says `end`, and a closed block leaves nothing behind.
pub proof fn law_blocks_close_at_their_last_line(
    b: Seq<(Seq<char>, Seq<char>)>,
    key: Seq<char>,
    value: Seq<char>,
)
    requires
        !key.contains('='),
        trimmed(key + seq!['='] + value) == key + seq!['='] + value,
    ensures
        ({
            let (open, closed) = fed(b, key + seq!['='] + value);
            if key == "progress"@ {
                &&& open.len() == 0
                &&& closed matches Some(c) && c.block == b && (c.finished <==> trimmed(value)
                    == "end"@)
            } else {
                &&& closed is None
                &&& value_at(open, key) == Some(value)
            }
        }),
{
    let line = key + seq!['='] + value;
    let n = key.len() as int;
    assert forall|j: int| 0 <= j < n implies line[j] != '=' by {
        assert(key.contains(key[j]));
        assert(line[j] == key[j]);
    }
    assert(line[n] == '=');
    lemma_find(line, '=', n);
    assert(line.take(n) =~= key);
    assert(line.skip(n + 1) =~= value);
    law_the_latest_line_counts(b, key, value, key);
}

/// A count reads as the number it is written as, and a rate as well, with or
/// without its unit.
pub proof fn law_figures_read_as_written(n: nat, whole: Seq<char>, frac: Seq<char>)
    requires
        n <= u64::MAX,
        whole.len() > 0,
        all_digits(whole),
        frac.len() > 0,
        all_digits(frac),
        frac.len() <= 6,
        leading_value(whole + frac, (whole + frac).len() as int) * pow10((6 - frac.len()) as nat)
            <= u64::MAX,
    ensures
        count(dec(n)) == Some(n),
        rate(whole + seq!['.'] + frac) == Some(
            leading_value(whole + frac, (whole + frac).len() as int) * pow10(
                (6 - frac.len()) as nat,
            ),
        ),
        without_unit(whole + seq!['.'] + frac + "x"@, "x"@) == whole + seq!['.'] + frac,
        without_unit(whole + seq!['.'] + frac + "kbits/s"@, "kbits/s"@) == whole + seq!['.'] + frac,
{
    law_numbers_read_back(n);
    assert(is_digit(dec(n)[0]) && is_digit(dec(n)[dec(n).len() - 1]));
    lemma_figure_stays(dec(n));
    let s = whole + seq!['.'] + frac;
    let none = Seq::<char>::empty();
    assert(none + whole + seq!['.'] + frac =~= s);
    law_decimals_read_as_written(false, whole, frac);
    law_fine_units_are_exact(
        Decimal { neg: false, digits: whole + frac, point: whole.len() as int },
        6,
    );
    assert(is_digit(whole[0]) && is_digit(frac[frac.len() - 1]));
    assert(s[0] == whole[0] && s.last() == frac[frac.len() - 1]);
    lemma_figure_stays(s);
    lemma_unit(s, "x"@);
    lemma_unit(s, "kbits/s"@);
}

proof fn lemma_figure_stays(s: Seq<char>)
    requires
        s.len() > 0,
        is_digit(s[0]),
        is_digit(s.last()),
    ensures
        trimmed(s) == s,
        !is_na(s),
{
    reveal_strlit("n/a");
    if is_na(s) {
        assert(lowered(s)[0] == 'n');
        assert(lower(s[0]) == 'n');
    }
}

proof fn lemma_unit(s: Seq<char>, unit: Seq<char>)
    requires
        s.len() > 0,
        is_digit(s[0]),
        unit == "x"@ || unit == "kbits/s"@,
    ensures
        without_unit(s + unit, unit) == s,
{
    reveal_strlit("x");
    reveal_strlit("kbits/s");
    let t = s + unit;
    assert(t[0] == s[0]);
    assert(t.last() == unit[unit.len() - 1]);
    assert(unit[unit.len() - 1] == 'x' || unit[unit.len() - 1] == 's');
    assert(!is_space(t[0]) && !is_space(t.last()));
    assert(trimmed(t) == t);
    assert(t.skip(t.len() - unit.len()) =~= unit);
    assert(t.take(t.len() - unit.len()) =~= s);
}

/// A media time reads as it is written: hours, minutes and seconds, with a
/// fraction of a second behind them.
pub proof fn law_media_times_read_as_written(
    h: Seq<char>,
    m: Seq<char>,
    s: Seq<char>,
    frac: Seq<char>,
)
    requires
        h.len() > 0,
        m.len() > 0,
        s.len() > 0,
        0 < frac.len() <= 9,
        all_digits(h),
        all_digits(m),
        all_digits(s),
        all_digits(frac),
        leading_value(h, h.len() as int) <= u64::MAX,
        leading_value(m, m.len() as int) <= u64::MAX,
        leading_value(s, s.len() as int) <= u64::MAX,
    ensures
        media_time(h + seq![':'] + (m + seq![':'] + s) + seq!['.'] + frac) == Some(
            (leading_value(h, h.len() as int) * 3600 + leading_value(m, m.len() as int) * 60
                + leading_value(s, s.len() as int)) * 1_000_000_000 + leading_value(
                frac,
                frac.len() as int,
            ) * pow10((9 - frac.len()) as nat),
        ),
{
    let hms = h + seq![':'] + (m + seq![':'] + s);
    let t = hms + seq!['.'] + frac;
    assert(is_digit(h[0]) && is_digit(frac[frac.len() - 1]));
    assert(t[0] == h[0] && t.last() == frac[frac.len() - 1]);
    lemma_figure_stays(t);
    let n = hms.len() as int;
    assert forall|j: int| 0 <= j < n implies t[j] != '.' by {
        assert(t[j] == hms[j]);
        if j < h.len() {
            assert(hms[j] == h[j]);
            assert(is_digit(h[j]));
        } else if h.len() < j < h.len() + 1 + m.len() {
            assert(hms[j] == m[j - h.len() - 1]);
            assert(is_digit(m[j - h.len() - 1]));
        } else if j > h.len() + 1 + m.len() {
            assert(hms[j] == s[j - h.len() - m.len() - 2]);
            assert(is_digit(s[j - h.len() - m.len() - 2]));
        }
    }
    assert(t[n] == '.');
    lemma_find(t, '.', n);
    assert(t.take(n) =~= hms);
    assert(t.skip(n + 1) =~= frac);
    lemma_digits_no_colon(h);
    lemma_digits_no_colon(m);
    lemma_digits_no_colon(s);
    lemma_pieces_front(h, m + seq![':'] + s, ':');
    lemma_pieces_front(m, s, ':');
    lemma_one_piece(s, ':');
    assert(pieces(hms, ':') =~= seq![h, m, s]);
    assert(is_digit(m[0]) && is_digit(s[0]));
    reveal_strlit("0.");
    let zero = seq!['0'];
    let none = Seq::<char>::empty();
    assert("0."@ + frac =~= none + zero + seq!['.'] + frac);
    law_decimals_read_as_written(false, zero, frac);
    let d = Decimal { neg: false, digits: zero + frac, point: 1 };
    law_fine_units_are_exact(d, 9);
    lemma_leading_zero(frac, frac.len() as int);
    assert(in_units(d, 0) == 0) by {
        reveal_with_fuel(leading_value, 2);
        assert(d.digits[0] == '0');
    }
    lemma_fraction_below(frac);
}

proof fn lemma_digits_no_colon(s: Seq<char>)
    requires
        all_digits(s),
    ensures
        !s.contains(':'),
{
    if s.contains(':') {
        let i = choose|i: int| 0 <= i < s.len() && s[i] == ':';
        assert(is_digit(s[i]));
    }
}

/// A zero in front changes no value.
proof fn lemma_leading_zero(d: Seq<char>, n: int)
    requires
        0 <= n <= d.len(),
    ensures
        leading_value(seq!['0'] + d, n + 1) == leading_value(d, n),
    decreases n,
{
    let e = seq!['0'] + d;
    if n == 0 {
        reveal_with_fuel(leading_value, 2);
        assert(e[0] == '0');
    } else {
        lemma_leading_zero(d, n - 1);
        assert(e[n] == d[n - 1]);
    }
}

/// A fraction of a second is less than a second.
proof fn lemma_fraction_below(frac: Seq<char>)
    requires
        frac.len() <= 9,
        all_digits(frac),
    ensures
        leading_value(frac, frac.len() as int) * pow10((9 - frac.len()) as nat) < 1_000_000_000,
{
    lemma_below_power(frac, frac.len() as int);
    let v = leading_value(frac, frac.len() as int) as int;
    let p = pow10(frac.len()) as int;
    let q = pow10((9 - frac.len()) as nat) as int;
    lemma_powers();
    assert(p * q == 1_000_000_000 && q > 0) by {
        if frac.len() == 0 {
            assert(p == 1 && q == 1_000_000_000);
        } else if frac.len() == 1 {
            assert(p == 10 && q == 100_000_000);
        } else if frac.len() == 2 {
            assert(p == 100 && q == 10_000_000);
        } else if frac.len() == 3 {
            assert(p == 1_000 && q == 1_000_000);
        } else if frac.len() == 4 {
            assert(p == 10_000 && q == 100_000);
        } else if frac.len() == 5 {
            assert(p == 100_000 && q == 10_000);
        } else if frac.len() == 6 {
            assert(p == 1_000_000 && q == 1_000);
        } else if frac.len() == 7 {
            assert(p == 10_000_000 && q == 100);
        } else if frac.len() == 8 {
            assert(p == 100_000_000 && q == 10);
        } else if frac.len() == 9 {
            assert(p == 1_000_000_000 && q == 1);
        }
    }
    assert(v * q < p * q) by (nonlinear_arith)
        requires
            v < p,
            q > 0,
    ;
}

proof fn lemma_powers()
    ensures
        pow10(0) == 1,
        pow10(1) == 10,
        pow10(2) == 100,
        pow10(3) == 1_000,
        pow10(4) == 10_000,
        pow10(5) == 100_000,
        pow10(6) == 1_000_000,
        pow10(7) == 10_000_000,
        pow10(8) == 100_000_000,
        pow10(9) == 1_000_000_000,
{
    reveal_with_fuel(pow10, 10);
}

proof fn lemma_below_power(d: Seq<char>, n: int)
    requires
        0 <= n <= d.len(),
        all_digits(d),
    ensures
        leading_value(d, n) < pow10(n as nat),
    decreases n,
{
    if n > 0 {
        lemma_below_power(d, n - 1);
        assert(is_digit(d[n - 1]));
    }
}

} // verus!
