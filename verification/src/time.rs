//! Lengths of time, in whole nanoseconds.

use vstd::prelude::*;
use crate::number::{
    all_digits, below_zero, dec, dec2, dec3, decimal, digit_value, is_na,
    law_decimals_read_as_written, law_fine_units_are_exact, law_nearest_is_nearest,
    law_numbers_read_back, law_padding_keeps_the_value, leading_value, lemma_leading_same, nearest,
    nearest_of, not_available, pow10, read_rounded, rounded, show, show2, show3, Decimal,
};
use crate::text::{
    find, is_digit, join3, lemma_find, lemma_one_piece, lemma_pieces_front, lower, lowered, pieces,
    trim, trimmed,
};

verus! {

/// Nanoseconds in a second.
pub const NANOS: u128 = 1_000_000_000;

/// The longest length that is read from text: one nanosecond short of
/// 2^64 seconds.
pub const LONGEST: u128 = 18_446_744_073_709_551_615_999_999_999;

/// A length of time.
#[derive(Debug, Clone, Copy, PartialEq, Eq, Structural)]
pub struct Duration {
    pub nanos: u128,
}

impl Duration {
    /// No time at all.
    pub fn zero() -> (r: Self)
        ensures
            r.nanos == 0,
    {
        Duration { nanos: 0 }
    }

    /// Whole seconds.
    pub fn from_secs(secs: u64) -> (r: Self)
        ensures
            r.nanos == secs * NANOS,
    {
        Duration { nanos: secs as u128 * NANOS }
    }

    /// Whole milliseconds.
    pub fn from_millis(millis: u64) -> (r: Self)
        ensures
            r.nanos == millis * 1_000_000,
    {
        Duration { nanos: millis as u128 * 1_000_000 }
    }

    /// Whole microseconds.
    pub fn from_micros(micros: u64) -> (r: Self)
        ensures
            r.nanos == micros * 1_000,
    {
        Duration { nanos: micros as u128 * 1_000 }
    }

    /// The whole seconds in this length.
    pub fn as_secs(&self) -> (r: u128)
        ensures
            r == self.nanos / NANOS,
    {
        self.nanos / NANOS
    }

    /// Whether this is no time at all.
    pub fn is_zero(&self) -> (r: bool)
        ensures
            r == (self.nanos == 0),
    {
        self.nanos == 0
    }
}

/// The text `m:ss`, or `h:mm:ss` from one hour on, of a number of seconds.
pub open spec fn clock(secs: nat) -> Seq<char> {
    let h = secs / 3600;
    let m = secs % 3600 / 60;
    let s = secs % 60;
    if h > 0 {
        dec(h) + seq![':'] + dec2(m) + seq![':'] + dec2(s)
    } else {
        dec(m) + seq![':'] + dec2(s)
    }
}

/// Renders a number of seconds as `m:ss` or `h:mm:ss`.
pub fn show_clock(total: u128) -> (r: String)
    ensures
        r@ == clock(total as nat),
{
    proof {
        reveal_strlit(":");
        assert(":"@ =~= seq![':']);
    }
    let h: u128 = total / 3600;
    let m: u128 = total % 3600 / 60;
    let s: u128 = total % 60;
    if h > 0 {
        let hm = join3(show(h).as_str(), ":", show2(m).as_str());
        join3(hm.as_str(), ":", show2(s).as_str())
    } else {
        join3(show(m).as_str(), ":", show2(s).as_str())
    }
}

/// Seconds as FFmpeg takes them: bare when whole, else with milliseconds, the
/// nearest ones (the even ones of two equally near).
pub open spec fn timestamp(nanos: nat) -> Seq<char> {
    if nanos % 1_000_000_000 == 0 {
        dec(nanos / 1_000_000_000)
    } else {
        let ms = nearest(nanos, 1_000_000);
        dec(ms / 1000) + seq!['.'] + dec3(ms % 1000)
    }
}

/// Renders an instant for FFmpeg.
pub fn format_timestamp(at: Duration) -> (r: String)
    ensures
        r@ == timestamp(at.nanos as nat),
{
    if at.nanos % NANOS == 0 {
        show(at.nanos / NANOS)
    } else {
        proof {
            reveal_strlit(".");
            assert("."@ =~= seq!['.']);
        }
        let ms: u128 = nearest_of(at.nanos, 1_000_000);
        join3(show(ms / 1000).as_str(), ".", show3(ms % 1000).as_str())
    }
}

/// The length that a text of seconds denotes: a decimal fraction, to the nearest
/// nanosecond. Nothing for an empty text, `N/A`, a text that is not a
/// decimal number, a negative number, or a length above the longest.
pub open spec fn seconds(s: Seq<char>) -> Option<nat> {
    let t = trimmed(s);
    if t.len() == 0 || is_na(t) {
        None
    } else {
        match decimal(t) {
            Some(d) => if below_zero(d) || rounded(d, 9) > LONGEST {
                None
            } else {
                Some(rounded(d, 9))
            },
            None => None,
        }
    }
}

/// Reads a length in seconds.
pub fn read_seconds(s: &str) -> (r: Option<Duration>)
    ensures
        match r {
            Some(d) => seconds(s@) == Some(d.nanos as nat),
            None => seconds(s@) is None,
        },
{
    let t = trim(s);
    if t.as_str().is_empty() || not_available(t.as_str()) {
        return None;
    }
    match read_rounded(t.as_str(), 9, LONGEST + 1) {
        Some((below, nanos)) => if below || nanos > LONGEST {
            None
        } else {
            Some(Duration { nanos })
        },
        None => None,
    }
}

/// The text of a length holds its whole seconds, and its milliseconds where
/// it has a fraction: it denotes the length to half a millisecond, and exactly
/// where the length is a whole number of milliseconds.
pub proof fn law_timestamps_denote_their_length(nanos: nat)
    ensures
        ({
            let t = timestamp(nanos);
            let whole = find(t, '.');
            let ms = leading_value(t.take(whole), whole) * 1000 + (if whole < t.len() {
                leading_value(t.skip(whole + 1), 3)
            } else {
                0
            });
            &&& 0 < whole <= t.len()
            &&& all_digits(t.take(whole))
            &&& whole < t.len() ==> t.len() == whole + 4 && all_digits(t.skip(whole + 1))
            &&& nanos % 1_000_000_000 == 0 <==> whole == t.len()
            &&& 2 * (ms * 1_000_000) <= 2 * nanos + 1_000_000
            &&& 2 * nanos <= 2 * (ms * 1_000_000) + 1_000_000
        }),
{
    let t = timestamp(nanos);
    if nanos % 1_000_000_000 == 0 {
        let s = nanos / 1_000_000_000;
        law_numbers_read_back(s);
        lemma_no_dot(t);
        lemma_find(t, '.', t.len() as int);
        assert(t.take(t.len() as int) =~= t);
    } else {
        let ms = nearest(nanos, 1_000_000);
        let head = dec(ms / 1000);
        let tail = dec3(ms % 1000);
        law_nearest_is_nearest(nanos, 1_000_000);
        law_numbers_read_back(ms / 1000);
        law_padding_keeps_the_value(ms % 1000);
        lemma_no_dot(head);
        let n = head.len() as int;
        assert(t =~= head + seq!['.'] + tail);
        assert forall|j: int| 0 <= j < n implies #[trigger] t[j] != '.' by {
            assert(t[j] == head[j]);
        }
        assert(t[n] == '.');
        lemma_find(t, '.', n);
        assert(t.take(n) =~= head);
        assert(t.skip(n + 1) =~= tail);
    }
}

proof fn lemma_no_dot(s: Seq<char>)
    requires
        all_digits(s),
    ensures
        forall|j: int| 0 <= j < s.len() ==> #[trigger] s[j] != '.',
{
    assert forall|j: int| 0 <= j < s.len() implies #[trigger] s[j] != '.' by {
        assert(is_digit(s[j]));
    }
}

/// Instants that are whole milliseconds are told apart by their timestamps.
pub proof fn law_timestamps_tell_instants_apart(a: nat, b: nat)
    requires
        a % 1_000_000 == 0,
        b % 1_000_000 == 0,
        timestamp(a) == timestamp(b),
    ensures
        a == b,
{
    law_timestamps_denote_their_length(a);
    law_timestamps_denote_their_length(b);
    let x = a / 1_000_000;
    let y = b / 1_000_000;
    assert(a == x * 1_000_000 && b == y * 1_000_000);
}

/// A clock shows whole seconds: the numbers between its colons, each but the
/// first in two digits and below sixty, add up to them.
pub proof fn law_clocks_add_up(secs: nat)
    ensures
        ({
            let parts = pieces(clock(secs), ':');
            let h = if parts.len() == 3 {
                leading_value(parts[0], parts[0].len() as int)
            } else {
                0
            };
            let m = leading_value(parts[parts.len() - 2], parts[parts.len() - 2].len() as int);
            let s = leading_value(parts[parts.len() - 1], parts[parts.len() - 1].len() as int);
            &&& parts.len() == 2 || parts.len() == 3
            &&& parts.len() == 3 <==> secs >= 3600
            &&& parts[parts.len() - 1].len() == 2
            &&& parts.len() == 3 ==> parts[1].len() == 2
            &&& m < 60 && s < 60
            &&& h * 3600 + m * 60 + s == secs
        }),
{
    let h = secs / 3600;
    let m = secs % 3600 / 60;
    let s = secs % 60;
    law_numbers_read_back(h);
    law_numbers_read_back(m);
    law_padding_keeps_the_value(m);
    law_padding_keeps_the_value(s);
    lemma_no_colon(dec(h));
    lemma_no_colon(dec(m));
    lemma_no_colon(dec2(m));
    lemma_no_colon(dec2(s));
    if h > 0 {
        let rest = dec2(m) + seq![':'] + dec2(s);
        assert(clock(secs) =~= dec(h) + seq![':'] + rest);
        lemma_pieces_front(dec(h), rest, ':');
        lemma_pieces_front(dec2(m), dec2(s), ':');
        lemma_one_piece(dec2(s), ':');
    } else {
        lemma_pieces_front(dec(m), dec2(s), ':');
        lemma_one_piece(dec2(s), ':');
    }
}

proof fn lemma_no_colon(s: Seq<char>)
    requires
        all_digits(s),
    ensures
        !s.contains(':'),
{
    if s.contains(':') {
        let i = choose|i: int| 0 <= i < s.len() && s[i] == ':';
        assert(is_digit(s[i]));
    }
}

/// Seconds read as they are written, to the nanosecond.
pub proof fn law_seconds_read_as_written(whole: Seq<char>, frac: Seq<char>)
    requires
        whole.len() > 0,
        all_digits(whole),
        all_digits(frac),
        frac.len() <= 9,
    ensures
        ({
            let n = leading_value(whole + frac, (whole + frac).len() as int) * pow10(
                (9 - frac.len()) as nat,
            );
            n <= LONGEST ==> seconds(whole + seq!['.'] + frac) == Some(n)
        }),
        ({
            let n = leading_value(whole, whole.len() as int) * pow10(9);
            n <= LONGEST ==> seconds(whole) == Some(n)
        }),
{
    let s = whole + seq!['.'] + frac;
    let none = Seq::<char>::empty();
    law_decimals_read_as_written(false, whole, frac);
    assert(none + whole + seq!['.'] + frac =~= s);
    assert(none + whole =~= whole);
    assert(is_digit(whole[0]) && is_digit(whole[whole.len() - 1]));
    assert(s[0] == whole[0]);
    assert(is_digit(s.last()) || s.last() == '.') by {
        if frac.len() > 0 {
            assert(s.last() == frac[frac.len() - 1]);
            assert(is_digit(frac[frac.len() - 1]));
        }
    }
    lemma_stays(s);
    lemma_stays(whole);
    law_fine_units_are_exact(
        Decimal { neg: false, digits: whole + frac, point: whole.len() as int },
        9,
    );
    law_fine_units_are_exact(Decimal { neg: false, digits: whole, point: whole.len() as int }, 9);
}

/// A text that begins and ends in something else than a blank stays when it is
/// trimmed.
proof fn lemma_stays(s: Seq<char>)
    requires
        s.len() > 0,
        is_digit(s[0]),
        is_digit(s.last()) || s.last() == '.',
    ensures
        trimmed(s) == s,
        !is_na(s),
{
    reveal_strlit("n/a");
    if is_na(s) {
        assert(lowered(s)[0] == 'n');
        assert(lower(s[0]) == 'n');
    }
}

/// A timestamp reads back as the instant it was made from, to half a
/// millisecond.
pub proof fn law_timestamps_read_back(nanos: nat)
    requires
        nanos + 1_000_000 <= LONGEST,
    ensures
        seconds(timestamp(nanos)) matches Some(n) && n <= nanos + 500_000 && nanos <= n + 500_000,
        nanos % 1_000_000 == 0 ==> seconds(timestamp(nanos)) == Some(nanos),
{
    assert(pow10(9) == 1_000_000_000 && pow10(6) == 1_000_000) by {
        reveal_with_fuel(pow10, 10);
    }
    if nanos % 1_000_000_000 == 0 {
        let s = nanos / 1_000_000_000;
        law_numbers_read_back(s);
        law_seconds_read_as_written(dec(s), Seq::empty());
        assert(s * 1_000_000_000 == nanos);
        assert(seconds(dec(s)) == Some(nanos));
    } else {
        let ms = nearest(nanos, 1_000_000);
        let head = dec(ms / 1000);
        let tail = dec3(ms % 1000);
        law_nearest_is_nearest(nanos, 1_000_000);
        law_numbers_read_back(ms / 1000);
        law_padding_keeps_the_value(ms % 1000);
        law_seconds_read_as_written(head, tail);
        lemma_digits_join(head, tail);
        assert(leading_value(head + tail, (head + tail).len() as int) == ms);
        assert(ms * 1_000_000 <= nanos + 500_000 && nanos <= ms * 1_000_000 + 500_000);
        assert(seconds(head + seq!['.'] + tail) == Some(ms * 1_000_000));
    }
}

/// Digits behind others count for thousandths of them.
proof fn lemma_digits_join(a: Seq<char>, b: Seq<char>)
    requires
        b.len() == 3,
    ensures
        leading_value(a + b, (a + b).len() as int) == leading_value(a, a.len() as int) * 1000
            + leading_value(b, 3),
{
    let s = a + b;
    let n = a.len() as int;
    lemma_leading_same(s, a, n);
    reveal_with_fuel(leading_value, 4);
    assert(s[n] == b[0] && s[n + 1] == b[1] && s[n + 2] == b[2]);
    assert(leading_value(s, n + 1) == leading_value(s, n) * 10 + digit_value(b[0]));
    assert(leading_value(s, n + 2) == leading_value(s, n + 1) * 10 + digit_value(b[1]));
    assert(leading_value(s, n + 3) == leading_value(s, n + 2) * 10 + digit_value(b[2]));
}

} // verus!
