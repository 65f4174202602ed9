//! Calendar dates in the Gregorian calendar, extended backwards.

use vstd::prelude::*;
use crate::number::{law_numbers_read_back, leading_value};
use crate::text::{is_digit, lemma_one_piece, lemma_pieces_front, pieces};

verus! {

/// A calendar date.
#[derive(Debug, Clone, Copy, PartialEq, Eq, Structural)]
pub struct Date {
    pub year: i64,
    /// 1 to 12.
    pub month: u8,
    /// 1 to 31.
    pub day: u8,
}

/// Whether a year has a 29th of February.
pub open spec fn leap(year: int) -> bool {
    year % 4 == 0 && (year % 100 != 0 || year % 400 == 0)
}

/// The number of days in a month.
pub open spec fn month_days(year: int, month: int) -> int {
    if month == 2 {
        if leap(year) {
            29
        } else {
            28
        }
    } else if month == 4 || month == 6 || month == 9 || month == 11 {
        30
    } else {
        31
    }
}

/// Whether a date exists.
pub open spec fn exists_date(d: Date) -> bool {
    1 <= d.month <= 12 && 1 <= d.day <= month_days(d.year as int, d.month as int)
}

/// The number of leap years from year 1 to a year.
pub open spec fn leaps(year: int) -> int {
    year / 4 - year / 100 + year / 400
}

/// The days from the first of January 1970 to that of a year.
pub open spec fn year_start(year: int) -> int {
    365 * (year - 1970) + leaps(year - 1) - leaps(1969)
}

/// The days in a year before a month.
pub open spec fn days_before(year: int, month: int) -> int
    decreases month,
{
    if month <= 1 {
        0
    } else {
        days_before(year, month - 1) + month_days(year, month - 1)
    }
}

/// The days from the first of January 1970 to a date.
pub open spec fn day_number(d: Date) -> int {
    year_start(d.year as int) + days_before(d.year as int, d.month as int) + d.day - 1
}

/// The date after a date.
pub open spec fn day_after(d: Date) -> Date {
    if d.day < month_days(d.year as int, d.month as int) {
        Date { day: (d.day + 1) as u8, ..d }
    } else if d.month < 12 {
        Date { month: (d.month + 1) as u8, day: 1, ..d }
    } else {
        Date { year: (d.year + 1) as i64, month: 1, day: 1 }
    }
}

proof fn lemma_leap_counts(year: int)
    ensures
        leaps(year) == leaps(year - 1) + (if leap(year) {
            1int
        } else {
            0
        }),
{
}

/// The days before each month, in both kinds of year.
proof fn lemma_days_before(year: int)
    ensures
        ({
            let x = if leap(year) {
                1int
            } else {
                0
            };
            &&& days_before(year, 1) == 0
            &&& days_before(year, 2) == 31
            &&& days_before(year, 3) == 59 + x
            &&& days_before(year, 4) == 90 + x
            &&& days_before(year, 5) == 120 + x
            &&& days_before(year, 6) == 151 + x
            &&& days_before(year, 7) == 181 + x
            &&& days_before(year, 8) == 212 + x
            &&& days_before(year, 9) == 243 + x
            &&& days_before(year, 10) == 273 + x
            &&& days_before(year, 11) == 304 + x
            &&& days_before(year, 12) == 334 + x
        }),
{
    reveal_with_fuel(days_before, 13);
}

/// Consecutive dates have consecutive numbers, and the count begins with the
/// first of January 1970: this fixes the number of every date.
pub proof fn law_dates_count_days(d: Date)
    requires
        exists_date(d),
        d.year < i64::MAX,
    ensures
        exists_date(day_after(d)),
        day_number(day_after(d)) == day_number(d) + 1,
        day_number(Date { year: 1970, month: 1, day: 1 }) == 0,
{
    lemma_days_before(d.year as int);
    lemma_days_before(d.year + 1);
    lemma_leap_counts(d.year as int);
    lemma_days_before(1970);
}

proof fn lemma_year_starts(a: int, b: int)
    requires
        a < b,
    ensures
        year_start(b) >= year_start(a) + 365 + (if leap(a) {
            1int
        } else {
            0
        }),
    decreases b - a,
{
    if a + 1 < b {
        lemma_year_starts(a, b - 1);
        lemma_leap_counts(b - 1);
    } else {
        lemma_leap_counts(a);
    }
}

/// No two dates have the same number.
pub proof fn law_dates_are_distinct(a: Date, b: Date)
    requires
        exists_date(a),
        exists_date(b),
        day_number(a) == day_number(b),
    ensures
        a == b,
{
    lemma_days_before(a.year as int);
    lemma_days_before(b.year as int);
    if a.year < b.year {
        lemma_year_starts(a.year as int, b.year as int);
    } else if b.year < a.year {
        lemma_year_starts(b.year as int, a.year as int);
    }
}

/// The days from the epoch to the first of March of year 0.
pub const MARCH_ZERO: i128 = 719468;

/// The year that runs from March and holds a day, and the days of it that went
/// before. A leap day comes last in such a year.
fn march_year(days: i64) -> (r: (i128, i128))
    ensures
        365 * r.0 + leaps(r.0 as int) + r.1 == days + MARCH_ZERO,
        0 <= r.1 <= 365,
        r.1 == 365 ==> leap(r.0 + 1),
        i64::MIN < r.0 < i64::MAX - 1,
{
    let shifted: i128 = days as i128 + MARCH_ZERO;
    let era: i128 = if shifted >= 0 {
        shifted / 146097
    } else {
        -((146096 - shifted) / 146097)
    };
    let in_era: i128 = shifted - era * 146097;
    assert(0 <= in_era < 146097);
    let century: i128 = if in_era / 36524 < 3 {
        in_era / 36524
    } else {
        3
    };
    let in_century: i128 = in_era - century * 36524;
    let cycle: i128 = in_century / 1461;
    let in_cycle: i128 = in_century - cycle * 1461;
    let part: i128 = if in_cycle / 365 < 3 {
        in_cycle / 365
    } else {
        3
    };
    let in_year: i128 = in_cycle - part * 365;
    let year: i128 = era * 400 + century * 100 + cycle * 4 + part;
    proof {
        lemma_march(era as int, century as int, cycle as int, part as int);
    }
    (year, in_year)
}

/// The month and the day of the month, from the days since the first of March.
fn march_day(in_year: i128) -> (r: (u8, u8))
    requires
        0 <= in_year <= 365,
    ensures
        1 <= r.0 <= 12,
        r.0 >= 3 ==> forall|year: int|
            #![trigger days_before(year, r.0 as int)]
            days_before(year, r.0 as int) + r.1 - 1 == in_year + 59 + (if leap(year) {
                1int
            } else {
                0
            }) && 1 <= r.1 <= month_days(year, r.0 as int),
        r.0 < 3 ==> forall|year: int|
            #![trigger days_before(year, r.0 as int)]
            days_before(year, r.0 as int) + r.1 - 1 == in_year - 306 && (in_year < 365 || leap(
                year,
            ) ==> 1 <= r.1 <= month_days(year, r.0 as int)),
{
    let march: i128 = (5 * in_year + 2) / 153;
    let day: i128 = in_year - (153 * march + 2) / 5 + 1;
    let month: i128 = if march >= 10 {
        march - 9
    } else {
        march + 3
    };
    assert(march == 0 || march == 1 || march == 2 || march == 3 || march == 4 || march == 5 || march
        == 6 || march == 7 || march == 8 || march == 9 || march == 10 || march == 11);
    proof {
        assert forall|year: int| #![trigger days_before(year, month as int)] true implies ({
            let x = if leap(year) {
                1int
            } else {
                0
            };
            &&& month >= 3 ==> days_before(year, month as int) + day - 1 == in_year + 59 + x && 1
                <= day <= month_days(year, month as int)
            &&& month < 3 ==> days_before(year, month as int) + day - 1 == in_year - 306 && (in_year
                < 365 || leap(year) ==> 1 <= day <= month_days(year, month as int))
        }) by {
            lemma_days_before(year);
        }
    }
    (month as u8, day as u8)
}

/// The date of a day, counted from the first of January 1970.
pub fn date_of(days: i64) -> (r: Date)
    ensures
        exists_date(r),
        day_number(r) == days,
{
    let (year, in_year) = march_year(days);
    let (month, day) = march_day(in_year);
    let shown: i128 = if month < 3 {
        year + 1
    } else {
        year
    };
    proof {
        lemma_leap_counts(year as int);
        let before = days_before(shown as int, month as int);
    }
    Date { year: shown as i64, month, day }
}

/// The leap years up to a year within its 400-year era, and when its
/// successor is one.
proof fn lemma_march(era: int, century: int, cycle: int, part: int)
    requires
        0 <= century <= 3,
        0 <= cycle <= 24,
        0 <= part <= 3,
    ensures
        ({
            let year = era * 400 + century * 100 + cycle * 4 + part;
            &&& leaps(year) == 97 * era + 24 * century + cycle
            &&& part == 3 && (cycle < 24 || century == 3) ==> leap(year + 1)
        }),
{
    let year = era * 400 + century * 100 + cycle * 4 + part;
    assert(year / 4 == era * 100 + century * 25 + cycle);
    assert(year / 100 == era * 4 + century);
    assert(year / 400 == era);
}

// ---------------------------------------------------------------------------
// Text
// ---------------------------------------------------------------------------

/// A number with leading zeros up to a width.
pub open spec fn padded(n: nat, digits: nat) -> Seq<char> {
    let t = crate::number::dec(n);
    if t.len() >= digits {
        t
    } else {
        Seq::new((digits - t.len()) as nat, |i: int| '0') + t
    }
}

/// A year in four characters or more, the sign among them.
pub open spec fn year_text(year: int) -> Seq<char> {
    if year < 0 {
        seq!['-'] + padded((-year) as nat, 3)
    } else {
        padded(year as nat, 4)
    }
}

/// A date as `YYYY-MM-DD`.
pub open spec fn date_text(d: Date) -> Seq<char> {
    year_text(d.year as int) + "-"@ + padded(d.month as nat, 2) + "-"@ + padded(d.day as nat, 2)
}

/// Writes a number with leading zeros.
fn show_padded(n: u128, digits: usize) -> (r: String)
    ensures
        r@ == padded(n as nat, digits as nat),
{
    let t = crate::number::show(n);
    let x = crate::text::chars_of(t.as_str());
    let mut out = String::new();
    if x.len() < digits {
        let fill: usize = digits - x.len();
        let mut i: usize = 0;
        while i < fill
            invariant
                i <= fill,
                out@ =~= Seq::new(i as nat, |j: int| '0'),
            decreases fill - i,
        {
            out.push('0');
            i = i + 1;
        }
    }
    out.append(t.as_str());
    assert(out@ =~= padded(n as nat, digits as nat));
    out
}

/// Writes a date as `YYYY-MM-DD`.
pub fn show_date(d: Date) -> (r: String)
    ensures
        r@ == date_text(d),
{
    let mut out = String::new();
    if d.year < 0 {
        out.push('-');
        let y = show_padded((-(d.year as i128)) as u128, 3);
        out.append(y.as_str());
        assert(out@ =~= year_text(d.year as int));
    } else {
        let y = show_padded(d.year as u128, 4);
        out.append(y.as_str());
        assert(out@ =~= year_text(d.year as int));
    }
    out.append("-");
    let m = show_padded(d.month as u128, 2);
    out.append(m.as_str());
    out.append("-");
    let t = show_padded(d.day as u128, 2);
    out.append(t.as_str());
    out
}

/// A date is written year first, then month, then day, between dashes, the
/// latter two in two digits.
pub proof fn law_dates_are_written_in_order(d: Date)
    requires
        0 <= d.year <= 9999,
        1 <= d.month <= 12,
        1 <= d.day <= 31,
    ensures
        ({
            let parts = pieces(date_text(d), '-');
            &&& parts.len() == 3
            &&& parts[0].len() >= 4 && parts[1].len() >= 2 && parts[2].len() >= 2
            &&& leading_value(parts[0], parts[0].len() as int) == d.year
            &&& leading_value(parts[1], parts[1].len() as int) == d.month
            &&& leading_value(parts[2], parts[2].len() as int) == d.day
        }),
{
    let y = padded(d.year as nat, 4);
    let m = padded(d.month as nat, 2);
    let t = padded(d.day as nat, 2);
    lemma_padded(d.year as nat, 4);
    lemma_padded(d.month as nat, 2);
    lemma_padded(d.day as nat, 2);
    reveal_strlit("-");
    assert(date_text(d) =~= y + seq!['-'] + (m + seq!['-'] + t));
    lemma_pieces_front(y, m + seq!['-'] + t, '-');
    lemma_pieces_front(m, t, '-');
    lemma_one_piece(t, '-');
    assert(pieces(date_text(d), '-') =~= seq![y, m, t]);
}

proof fn lemma_padded(n: nat, digits: nat)
    ensures
        padded(n, digits).len() >= digits,
        !padded(n, digits).contains('-'),
        leading_value(padded(n, digits), padded(n, digits).len() as int) == n,
{
    law_numbers_read_back(n);
    let t = crate::number::dec(n);
    let p = padded(n, digits);
    let c = if t.len() >= digits {
        0
    } else {
        digits - t.len()
    };
    assert forall|i: int| 0 <= i < t.len() implies t[i] != '-' by {
        assert(is_digit(t[i]));
    }
    assert forall|i: int| 0 <= i < p.len() implies p[i] != '-' by {
        if i >= c {
            assert(p[i] == t[i - c]);
        }
    }
    lemma_zeros_count_nothing(p, t, c, t.len() as int);
}

proof fn lemma_zeros_count_nothing(p: Seq<char>, t: Seq<char>, c: int, k: int)
    requires
        0 <= c,
        0 <= k <= t.len(),
        p.len() == c + t.len(),
        forall|i: int| 0 <= i < c ==> #[trigger] p[i] == '0',
        forall|i: int| 0 <= i < t.len() ==> p[c + i] == #[trigger] t[i],
    ensures
        leading_value(p, c + k) == leading_value(t, k),
    decreases c + k,
{
    if k > 0 {
        lemma_zeros_count_nothing(p, t, c, k - 1);
        assert(p[c + (k - 1)] == t[k - 1]);
    } else if c > 0 {
        lemma_zeros(p, c);
    }
}

proof fn lemma_zeros(p: Seq<char>, c: int)
    requires
        0 <= c <= p.len(),
        forall|i: int| 0 <= i < c ==> #[trigger] p[i] == '0',
    ensures
        leading_value(p, c) == 0,
    decreases c,
{
    if c > 0 {
        lemma_zeros(p, c - 1);
        assert(p[c - 1] == '0');
    }
}

} // verus!
