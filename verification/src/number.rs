//! Numbers as text: decimal rendering, integer reading, and fixed-point
//! reading of decimal fractions.
//!
//! Quantities that FFmpeg prints with a fraction (rates, speeds, seconds) are
//! kept as whole numbers of a small unit, so every computation on them is
//! exact.

use vstd::prelude::*;
use crate::text::{chars_of, is_digit, lowered, same, slice_text, to_lower};

verus! {

// ---------------------------------------------------------------------------
// Rendering
// ---------------------------------------------------------------------------

/// The digit with value `n`, for `n` below ten.
pub open spec fn digit(n: nat) -> char {
    if n == 0 {
        '0'
    } else if n == 1 {
        '1'
    } else if n == 2 {
        '2'
    } else if n == 3 {
        '3'
    } else if n == 4 {
        '4'
    } else if n == 5 {
        '5'
    } else if n == 6 {
        '6'
    } else if n == 7 {
        '7'
    } else if n == 8 {
        '8'
    } else {
        '9'
    }
}

/// The value of a digit; zero for any other character.
pub open spec fn digit_value(c: char) -> nat {
    if is_digit(c) {
        (c as u32 - '0' as u32) as nat
    } else {
        0
    }
}

/// The decimal text of a natural number, without leading zeros.
pub open spec fn dec(n: nat) -> Seq<char>
    decreases n,
{
    if n < 10 {
        seq![digit(n)]
    } else {
        dec(n / 10).push(digit(n % 10))
    }
}

/// The decimal text of an integer.
pub open spec fn dec_int(i: int) -> Seq<char> {
    if i < 0 {
        seq!['-'] + dec((-i) as nat)
    } else {
        dec(i as nat)
    }
}

/// The decimal text of a number, padded with zeros to at least two digits.
pub open spec fn dec2(n: nat) -> Seq<char> {
    if n < 10 {
        seq!['0'] + dec(n)
    } else {
        dec(n)
    }
}

/// The decimal text of a number below a thousand, padded with zeros to three digits.
pub open spec fn dec3(n: nat) -> Seq<char> {
    seq![digit(n / 100 % 10), digit(n / 10 % 10), digit(n % 10)]
}

/// The digit with value `n`.
fn digit_of(n: u128) -> (c: char)
    requires
        n < 10,
    ensures
        c == digit(n as nat),
{
    if n == 0 {
        '0'
    } else if n == 1 {
        '1'
    } else if n == 2 {
        '2'
    } else if n == 3 {
        '3'
    } else if n == 4 {
        '4'
    } else if n == 5 {
        '5'
    } else if n == 6 {
        '6'
    } else if n == 7 {
        '7'
    } else if n == 8 {
        '8'
    } else {
        '9'
    }
}

/// Renders a number in decimal.
pub fn show(n: u128) -> (r: String)
    ensures
        r@ == dec(n as nat),
    decreases n,
{
    if n < 10 {
        let mut out = String::new();
        out.push(digit_of(n));
        assert(out@ =~= dec(n as nat));
        out
    } else {
        let mut out = show(n / 10);
        out.push(digit_of(n % 10));
        out
    }
}

/// Renders a count in decimal.
pub fn show_usize(n: usize) -> (r: String)
    ensures
        r@ == dec(n as nat),
{
    show(n as u128)
}

/// Renders an integer in decimal, with its sign when negative.
pub fn show_int(n: i64) -> (r: String)
    ensures
        r@ == dec_int(n as int),
{
    if n < 0 {
        let m: i128 = -(n as i128);
        let mut out = String::new();
        out.push('-');
        let digits = show(m as u128);
        proof {
            assert(out@ =~= seq!['-']);
        }
        crate::text::join2(out.as_str(), digits.as_str())
    } else {
        show(n as u128)
    }
}

/// Renders a number with at least two digits.
pub fn show2(n: u128) -> (r: String)
    ensures
        r@ == dec2(n as nat),
{
    if n < 10 {
        let mut out = String::new();
        out.push('0');
        out.push(digit_of(n));
        assert(out@ =~= dec2(n as nat));
        out
    } else {
        show(n)
    }
}

/// Renders a number below a thousand with three digits.
pub fn show3(n: u128) -> (r: String)
    ensures
        r@ == dec3(n as nat),
{
    let mut out = String::new();
    out.push(digit_of(n / 100 % 10));
    out.push(digit_of(n / 10 % 10));
    out.push(digit_of(n % 10));
    assert(out@ =~= dec3(n as nat));
    out
}

// ---------------------------------------------------------------------------
// Reading integers
// ---------------------------------------------------------------------------

/// Whether every character is a decimal digit.
pub open spec fn all_digits(s: Seq<char>) -> bool {
    forall|i: int| 0 <= i < s.len() ==> is_digit(#[trigger] s[i])
}

/// The value of the first `n` digits of `d`, reading zeros past its end.
pub open spec fn leading_value(d: Seq<char>, n: int) -> nat
    decreases n,
{
    if n <= 0 {
        0
    } else {
        leading_value(d, n - 1) * 10 + (if n - 1 < d.len() {
            digit_value(d[n - 1])
        } else {
            0
        })
    }
}

/// The number that a text of digits, with an optional `+`, denotes, when it is
/// at most `max`.
pub open spec fn read_nat(s: Seq<char>, max: nat) -> Option<nat> {
    let t = if s.len() > 0 && s[0] == '+' {
        s.skip(1)
    } else {
        s
    };
    if t.len() > 0 && all_digits(t) && leading_value(t, t.len() as int) <= max {
        Some(leading_value(t, t.len() as int))
    } else {
        None
    }
}

/// The value of a digit character.
fn value_of(c: char) -> (r: u128)
    requires
        is_digit(c),
    ensures
        r == digit_value(c),
        r < 10,
{
    (c as u32 - '0' as u32) as u128
}

/// Tests for a decimal digit.
pub fn char_is_digit(c: char) -> (r: bool)
    ensures
        r == is_digit(c),
{
    '0' <= c && c <= '9'
}

proof fn lemma_leading_value_grows(d: Seq<char>, a: int, b: int)
    requires
        a <= b,
    ensures
        leading_value(d, a) <= leading_value(d, b),
    decreases b - a,
{
    if a < b {
        lemma_leading_value_grows(d, a, b - 1);
    }
}

/// Reads a number no greater than `max`.
#[verifier::loop_isolation(false)]
pub fn read_number(s: &str, max: u64) -> (r: Option<u64>)
    ensures
        match r {
            Some(n) => read_nat(s@, max as nat) == Some(n as nat),
            None => read_nat(s@, max as nat) is None,
        },
{
    let x = chars_of(s);
    let start: usize = if x.len() > 0 && x[0] == '+' {
        1
    } else {
        0
    };
    let ghost t = x@.skip(start as int);
    assert(start == 0 ==> t =~= s@);
    if start >= x.len() {
        return None;
    }
    let mut v: u128 = 0;
    let mut i: usize = start;
    while i < x.len()
        invariant
            start <= i <= x@.len(),
            t == x@.skip(start as int),
            forall|j: int| 0 <= j < i - start ==> is_digit(#[trigger] t[j]),
            v == leading_value(t, i - start),
            v <= max,
        decreases x@.len() - i,
    {
        let c = x[i];
        assert(c == t[i - start]);
        if !char_is_digit(c) {
            return None;
        }
        v = v * 10 + value_of(c);
        assert(v == leading_value(t, i + 1 - start));
        if v > max as u128 {
            proof {
                lemma_leading_value_grows(t, i + 1 - start, t.len() as int);
            }
            return None;
        }
        i = i + 1;
    }
    Some(v as u64)
}

/// Reads a 64-bit number.
pub fn read_u64(s: &str) -> (r: Option<u64>)
    ensures
        match r {
            Some(n) => read_nat(s@, u64::MAX as nat) == Some(n as nat),
            None => read_nat(s@, u64::MAX as nat) is None,
        },
{
    read_number(s, u64::MAX)
}

/// Reads a 32-bit number.
pub fn read_u32(s: &str) -> (r: Option<u32>)
    ensures
        match r {
            Some(n) => read_nat(s@, u32::MAX as nat) == Some(n as nat),
            None => read_nat(s@, u32::MAX as nat) is None,
        },
{
    match read_number(s, u32::MAX as u64) {
        Some(n) => Some(n as u32),
        None => None,
    }
}

/// The 64-bit number that a text of digits, with an optional sign, denotes.
pub open spec fn read_int(s: Seq<char>) -> Option<int> {
    if s.len() > 0 && s[0] == '-' {
        let t = s.skip(1);
        if t.len() > 0 && all_digits(t) && leading_value(t, t.len() as int) <= -i64::MIN {
            Some(-(leading_value(t, t.len() as int) as int))
        } else {
            None
        }
    } else {
        match read_nat(s, i64::MAX as nat) {
            Some(n) => Some(n as int),
            None => None,
        }
    }
}

/// Reads a signed 64-bit number.
pub fn read_i64(s: &str) -> (r: Option<i64>)
    ensures
        match r {
            Some(n) => read_int(s@) == Some(n as int),
            None => read_int(s@) is None,
        },
{
    let x = chars_of(s);
    if x.len() > 0 && x[0] == '-' {
        let rest = slice_text(&x, 1, x.len());
        assert(rest@ =~= s@.skip(1));
        if x.len() > 1 && x[1] == '+' {
            assert(rest@[0] == '+');
            return None;
        }
        match read_number(rest.as_str(), 9_223_372_036_854_775_808) {
            Some(n) => if n == 9_223_372_036_854_775_808 {
                Some(i64::MIN)
            } else {
                Some(-(n as i64))
            },
            None => None,
        }
    } else {
        match read_number(s, i64::MAX as u64) {
            Some(n) => Some(n as i64),
            None => None,
        }
    }
}

/// Whether a text is `n/a` in any mixture of cases.
pub open spec fn is_na(s: Seq<char>) -> bool {
    lowered(s) == "n/a"@
}

/// Tests for `n/a` in any mixture of cases.
pub fn not_available(s: &str) -> (r: bool)
    ensures
        r == is_na(s@),
{
    let l = to_lower(s);
    same(l.as_str(), "n/a")
}

// ---------------------------------------------------------------------------
// Reading decimal fractions
// ---------------------------------------------------------------------------

/// A decimal number as written: `digits` with the decimal point after the
/// first `point` of them (which may lie outside the digits).
pub struct Decimal {
    pub neg: bool,
    pub digits: Seq<char>,
    pub point: int,
}

/// How many digits a text begins with.
pub open spec fn digit_run(s: Seq<char>) -> int
    decreases s.len(),
{
    if s.len() > 0 && is_digit(s[0]) {
        1 + digit_run(s.skip(1))
    } else {
        0
    }
}

/// A text's sign, and the rest of it.
pub open spec fn signed(s: Seq<char>) -> (bool, Seq<char>) {
    if s.len() > 0 && s[0] == '-' {
        (true, s.skip(1))
    } else if s.len() > 0 && s[0] == '+' {
        (false, s.skip(1))
    } else {
        (false, s)
    }
}

/// The exponent that the text behind a number's digits denotes: none written
/// is zero, otherwise `e` or `E`, an optional sign, and digits.
pub open spec fn exponent(s: Seq<char>) -> Option<int> {
    if s.len() == 0 {
        Some(0)
    } else if s[0] != 'e' && s[0] != 'E' {
        None
    } else {
        let (neg, u) = signed(s.skip(1));
        if u.len() > 0 && all_digits(u) {
            let v = leading_value(u, u.len() as int) as int;
            Some(if neg {
                -v
            } else {
                v
            })
        } else {
            None
        }
    }
}

/// Reads an optional sign, digits with at most one point among or around them,
/// and an optional exponent.
#[verifier::opaque]
pub open spec fn decimal(s: Seq<char>) -> Option<Decimal> {
    let (neg, t) = signed(s);
    let a = digit_run(t);
    let whole = t.take(a);
    let rest = t.skip(a);
    let dotted = rest.len() > 0 && rest[0] == '.';
    let b = if dotted {
        digit_run(rest.skip(1))
    } else {
        0
    };
    let frac = if dotted {
        rest.skip(1).take(b)
    } else {
        Seq::empty()
    };
    let tail = if dotted {
        rest.skip(1).skip(b)
    } else {
        rest
    };
    if whole.len() + frac.len() == 0 {
        None
    } else {
        match exponent(tail) {
            Some(e) => Some(Decimal { neg, digits: whole + frac, point: a + e }),
            None => None,
        }
    }
}

/// A decimal's magnitude in units of `10^-places`, rounded down.
pub open spec fn in_units(d: Decimal, places: int) -> nat {
    leading_value(d.digits, d.point + places)
}

/// Whether a decimal lies below zero (and is not merely `-0`).
pub open spec fn below_zero(d: Decimal) -> bool {
    d.neg && leading_value(d.digits, d.digits.len() as int) > 0
}

/// The smaller of two numbers.
pub open spec fn least(a: nat, b: nat) -> nat {
    if a <= b {
        a
    } else {
        b
    }
}

proof fn lemma_digit_run(s: Seq<char>, i: int)
    requires
        0 <= i <= s.len(),
        forall|j: int| 0 <= j < i ==> is_digit(#[trigger] s[j]),
        i < s.len() ==> !is_digit(s[i]),
    ensures
        digit_run(s) == i,
    decreases s.len(),
{
    if i > 0 {
        assert(is_digit(s[0]));
        assert forall|j: int| 0 <= j < i - 1 implies is_digit(#[trigger] s.skip(1)[j]) by {
            assert(s.skip(1)[j] == s[j + 1]);
        }
        lemma_digit_run(s.skip(1), i - 1);
    }
}

/// End of the run of digits that begins at `from`.
pub fn digits_end(x: &Vec<char>, from: usize) -> (r: usize)
    requires
        from <= x@.len(),
    ensures
        from <= r <= x@.len(),
        r - from == digit_run(x@.skip(from as int)),
        forall|j: int| from <= j < r ==> is_digit(#[trigger] x@[j]),
{
    let mut i: usize = from;
    while i < x.len()
        invariant_except_break
            forall|j: int| from <= j < i ==> is_digit(#[trigger] x@[j]),
        invariant
            from <= i <= x@.len(),
        ensures
            forall|j: int| from <= j < i ==> is_digit(#[trigger] x@[j]),
            i < x@.len() ==> !is_digit(x@[i as int]),
        decreases x@.len() - i,
    {
        if !char_is_digit(x[i]) {
            break;
        }
        i = i + 1;
    }
    proof {
        let t = x@.skip(from as int);
        assert forall|j: int| 0 <= j < i - from implies is_digit(#[trigger] t[j]) by {
            assert(t[j] == x@[from + j]);
        }
        lemma_digit_run(t, i - from);
    }
    i
}

/// An exponent large enough to decide every result that has a cap.
pub open spec fn far() -> int {
    1_000_000_000_000_000_000_000_000_000_000
}

/// Reads the exponent that begins at `from`, cut off at a magnitude of `far`.
#[verifier::loop_isolation(false)]
fn read_exponent(x: &Vec<char>, from: usize) -> (r: Option<i128>)
    requires
        from <= x@.len(),
    ensures
        r is Some <==> exponent(x@.skip(from as int)) is Some,
        r matches Some(e) ==> {
            let t = exponent(x@.skip(from as int))->0;
            e == (if t > far() {
                far()
            } else if t < -far() {
                -far()
            } else {
                t
            })
        },
{
    let ghost s = x@.skip(from as int);
    if from == x.len() {
        return Some(0);
    }
    assert(s[0] == x@[from as int]);
    if x[from] != 'e' && x[from] != 'E' {
        return None;
    }
    let mut at: usize = from + 1;
    let mut neg = false;
    assert(s.skip(1) =~= x@.skip(from + 1));
    if at < x.len() && x[at] == '-' {
        neg = true;
        at = at + 1;
    } else if at < x.len() && x[at] == '+' {
        at = at + 1;
    }
    let ghost u = signed(s.skip(1)).1;
    proof {
        if from + 1 < x@.len() {
            assert(s.skip(1)[0] == x@[from + 1]);
            assert(x@.skip(from + 1).skip(1) =~= x@.skip(from + 2));
        }
        assert(u =~= x@.skip(at as int));
    }
    if at == x.len() {
        return None;
    }
    let mut v: i128 = 0;
    let mut i: usize = at;
    while i < x.len()
        invariant
            at <= i <= x@.len(),
            u == x@.skip(at as int),
            forall|j: int| 0 <= j < i - at ==> is_digit(#[trigger] u[j]),
            v == least(leading_value(u, i - at), far() as nat),
        decreases x@.len() - i,
    {
        let c = x[i];
        assert(c == u[i - at]);
        if !char_is_digit(c) {
            return None;
        }
        let w: i128 = v * 10 + value_of(c) as i128;
        v = if w > 1_000_000_000_000_000_000_000_000_000_000 {
            1_000_000_000_000_000_000_000_000_000_000
        } else {
            w
        };
        assert(leading_value(u, i + 1 - at) == leading_value(u, i - at) * 10 + digit_value(c));
        i = i + 1;
    }
    if neg {
        Some(-v)
    } else {
        Some(v)
    }
}

proof fn lemma_zero_digits(d: Seq<char>, a: int, b: int)
    requires
        d.len() <= a <= b,
        leading_value(d, a) == 0,
    ensures
        leading_value(d, b) == 0,
    decreases b - a,
{
    if a < b {
        lemma_zero_digits(d, a, b - 1);
    }
}

/// The value of the first `n` digits, cut off at `cap`.
fn capped_value(x: &Vec<char>, n: i128, cap: u128) -> (r: u128)
    requires
        all_digits(x@),
        0 < cap <= 1_000_000_000_000_000_000_000_000_000_000,
    ensures
        r == least(leading_value(x@, n as int), cap as nat),
{
    let len: i128 = x.len() as i128;
    let mut v: u128 = 0;
    let mut i: i128 = 0;
    while i < n
        invariant
            len == x@.len() <= usize::MAX,
            all_digits(x@),
            0 < cap <= 1_000_000_000_000_000_000_000_000_000_000,
            0 <= i,
            n >= 0 ==> i <= n,
            n < 0 ==> i == 0,
            v == least(leading_value(x@, i as int), cap as nat),
        decreases n - i,
    {
        if v == cap {
            proof {
                lemma_leading_value_grows(x@, i as int, n as int);
            }
            return cap;
        }
        if i >= len {
            if v == 0 {
                proof {
                    lemma_zero_digits(x@, i as int, n as int);
                }
                return 0;
            }
            v = v * 10;
        } else {
            let at: usize = i as usize;
            assert(at == i);
            v = v * 10 + value_of(x[at]);
        }
        assert(v == leading_value(x@, i + 1));
        if v > cap {
            v = cap;
        }
        i = i + 1;
    }
    v
}

/// The same value when both lengths lie far past the digits.
proof fn lemma_far(d: Seq<char>, a: int, b: int, cap: nat)
    requires
        d.len() + 100 <= a,
        d.len() + 100 <= b,
        cap <= far(),
    ensures
        least(leading_value(d, a), cap) == least(leading_value(d, b), cap),
{
    let n = d.len() as int;
    if leading_value(d, n) == 0 {
        lemma_zero_digits(d, n, a);
        lemma_zero_digits(d, n, b);
    } else {
        lemma_shift(d);
        lemma_leading_value_grows(d, n + 32, a);
        lemma_leading_value_grows(d, n + 32, b);
    }
}

/// Eight zeros after the digits.
proof fn lemma_eight_zeros(d: Seq<char>, n: int)
    requires
        n >= d.len(),
    ensures
        leading_value(d, n + 8) == leading_value(d, n) * 1_0000_0000,
{
    assert(leading_value(d, n + 1) == leading_value(d, n) * 10);
    assert(leading_value(d, n + 2) == leading_value(d, n + 1) * 10);
    assert(leading_value(d, n + 3) == leading_value(d, n + 2) * 10);
    assert(leading_value(d, n + 4) == leading_value(d, n + 3) * 10);
    assert(leading_value(d, n + 5) == leading_value(d, n + 4) * 10);
    assert(leading_value(d, n + 6) == leading_value(d, n + 5) * 10);
    assert(leading_value(d, n + 7) == leading_value(d, n + 6) * 10);
    assert(leading_value(d, n + 8) == leading_value(d, n + 7) * 10);
}

/// Thirty-two zeros after a number that is not zero exceed every cap.
proof fn lemma_shift(d: Seq<char>)
    requires
        leading_value(d, d.len() as int) >= 1,
    ensures
        leading_value(d, d.len() as int + 32) >= far(),
{
    let n = d.len() as int;
    lemma_eight_zeros(d, n);
    lemma_eight_zeros(d, n + 8);
    lemma_eight_zeros(d, n + 16);
    lemma_eight_zeros(d, n + 24);
}

/// Appends characters `from` up to `to` of `x` to `out`.
fn copy_range(out: &mut Vec<char>, x: &Vec<char>, from: usize, to: usize)
    requires
        from <= to <= x@.len(),
    ensures
        final(out)@ == old(out)@ + x@.subrange(from as int, to as int),
{
    let ghost start = out@;
    let mut i: usize = from;
    assert(out@ =~= start + x@.subrange(from as int, from as int));
    while i < to
        invariant
            from <= i <= to <= x@.len(),
            out@ == start + x@.subrange(from as int, i as int),
        decreases to - i,
    {
        out.push(x[i]);
        i = i + 1;
        assert(out@ =~= start + x@.subrange(from as int, i as int));
    }
}

/// What `decimal` says, by positions in the text: sign up to `at`, whole
/// digits up to `a`, fraction digits from `f` up to `b`, exponent from `b`.
proof fn lemma_decimal(s: Seq<char>, at: int, a: int, f: int, b: int)
    requires
        0 <= at <= a <= f <= b <= s.len(),
        signed(s).1 == s.skip(at),
        a - at == digit_run(s.skip(at)),
        a < s.len() && s[a] == '.' ==> f == a + 1 && b - f == digit_run(s.skip(f)),
        !(a < s.len() && s[a] == '.') ==> f == a && b == a,
    ensures
        ({
            let digits = s.subrange(at, a) + s.subrange(f, b);
            decimal(s) == (if digits.len() == 0 {
                None
            } else {
                match exponent(s.skip(b)) {
                    Some(e) => Some(Decimal { neg: signed(s).0, digits, point: a - at + e }),
                    None => None,
                }
            })
        }),
{
    reveal(decimal);
    let t = s.skip(at);
    let rest = t.skip(a - at);
    assert(t.take(a - at) =~= s.subrange(at, a));
    assert(rest =~= s.skip(a));
    if a < s.len() {
        assert(rest[0] == s[a]);
    }
    if a < s.len() && s[a] == '.' {
        assert(rest.skip(1) =~= s.skip(f));
        assert(rest.skip(1).take(b - f) =~= s.subrange(f, b));
        assert(rest.skip(1).skip(b - f) =~= s.skip(b));
    } else {
        assert(s.subrange(f, b) =~= Seq::<char>::empty());
    }
}

/// What stands where in a decimal number's text: its sign, its digits, how many
/// of them precede the point, and where its exponent begins.
fn decimal_shape(x: &Vec<char>) -> (r: (bool, Vec<char>, usize, usize))
    ensures
        all_digits(r.1@),
        r.3 <= x@.len(),
        decimal(x@) == (if r.1@.len() == 0 {
            None
        } else {
            match exponent(x@.skip(r.3 as int)) {
                Some(e) => Some(Decimal { neg: r.0, digits: r.1@, point: r.2 + e }),
                None => None,
            }
        }),
{
    let mut at: usize = 0;
    let mut neg = false;
    if x.len() > 0 && x[0] == '-' {
        neg = true;
        at = 1;
    } else if x.len() > 0 && x[0] == '+' {
        at = 1;
    }
    assert(signed(x@).1 =~= x@.skip(at as int));
    let a = digits_end(x, at);
    let mut d: Vec<char> = Vec::new();
    copy_range(&mut d, x, at, a);
    let mut f: usize = a;
    let mut b: usize = a;
    if a < x.len() && x[a] == '.' {
        f = a + 1;
        b = digits_end(x, f);
    }
    copy_range(&mut d, x, f, b);
    proof {
        lemma_decimal(x@, at as int, a as int, f as int, b as int);
        assert(d@ =~= x@.subrange(at as int, a as int) + x@.subrange(f as int, b as int));
        assert forall|i: int| 0 <= i < d@.len() implies is_digit(#[trigger] d@[i]) by {
            if i < a - at {
                assert(d@[i] == x@[at + i]);
            } else {
                assert(d@[i] == x@[f + i - (a - at)]);
            }
        }
    }
    (neg, d, a - at, b)
}

/// Reads the magnitude of a decimal fraction in units of `10^-places`, cut off
/// at `cap`, and whether the number lies below zero.
pub fn read_decimal(s: &str, places: u32, cap: u128) -> (r: Option<(bool, u128)>)
    requires
        places <= 100,
        0 < cap <= 1_000_000_000_000_000_000_000_000_000_000,
    ensures
        match decimal(s@) {
            Some(d) => r == Some(
                (below_zero(d), least(in_units(d, places as int), cap as nat) as u128),
            ),
            None => r is None,
        },
{
    let x = chars_of(s);
    let (neg, d, whole, tail) = decimal_shape(&x);
    if d.len() == 0 {
        return None;
    }
    match read_exponent(&x, tail) {
        Some(e) => {
            let n: i128 = whole as i128 + e + places as i128;
            proof {
                let power = exponent(x@.skip(tail as int))->0;
                let m = whole + power + places;
                if power > far() {
                    lemma_far(d@, m, n as int, cap as nat);
                } else if power < -far() {
                    assert(leading_value(d@, m) == 0);
                    assert(leading_value(d@, n as int) == 0);
                }
            }
            let below = neg && capped_value(&d, d.len() as i128, cap) > 0;
            Some((below, capped_value(&d, n, cap)))
        },
        None => None,
    }
}

/// Whether all digits from a place on are zeros.
pub open spec fn zeros_from(d: Seq<char>, k: int) -> bool {
    forall|i: int| 0 <= i < d.len() && k <= i ==> #[trigger] d[i] == '0'
}

/// A decimal's magnitude in units of `10^-places`: the nearest whole number, the
/// even one of two equally near.
pub open spec fn rounded(d: Decimal, places: int) -> nat {
    let k = d.point + places;
    let below = leading_value(d.digits, k);
    let next = leading_value(d.digits, k + 1) % 10;
    if next > 5 || (next == 5 && (below % 2 == 1 || !zeros_from(d.digits, k + 1))) {
        below + 1
    } else {
        below
    }
}

/// Whether a decimal is zero.
pub open spec fn is_nil(d: Decimal) -> bool {
    leading_value(d.digits, d.digits.len() as int) == 0
}

/// Tests whether all digits from a place on are zeros.
fn only_zeros(x: &Vec<char>, from: usize) -> (r: bool)
    requires
        from <= x@.len(),
    ensures
        r == zeros_from(x@, from as int),
{
    let mut i: usize = from;
    while i < x.len()
        invariant
            from <= i <= x@.len(),
            forall|j: int| from <= j < i ==> #[trigger] x@[j] == '0',
        decreases x@.len() - i,
    {
        if x[i] != '0' {
            assert(x@[i as int] != '0');
            return false;
        }
        i = i + 1;
    }
    true
}

/// Whether the digits behind the first `n` round them up, `odd` telling whether
/// those make an odd number.
fn rounds_up(x: &Vec<char>, n: i128, odd: bool) -> (r: bool)
    requires
        all_digits(x@),
        -1 <= n ==> odd == (leading_value(x@, n as int) % 2 == 1),
    ensures
        r == ({
            let next = leading_value(x@, n + 1) % 10;
            next > 5 || (next == 5 && (leading_value(x@, n as int) % 2 == 1 || !zeros_from(
                x@,
                n + 1,
            )))
        }),
{
    if n < 0 || n >= x.len() as i128 {
        return false;
    }
    let at: usize = n as usize;
    let next = value_of(x[at]);
    assert(leading_value(x@, n + 1) == leading_value(x@, n as int) * 10 + next);
    next > 5 || (next == 5 && (odd || !only_zeros(x, at + 1)))
}

/// Reads the magnitude of a decimal fraction in units of `10^-places`, to the
/// nearest and cut off at `cap`, and whether the number lies below zero.
pub fn read_rounded(s: &str, places: u32, cap: u128) -> (r: Option<(bool, u128)>)
    requires
        places <= 100,
        0 < cap <= 1_000_000_000_000_000_000_000_000_000_000,
    ensures
        match decimal(s@) {
            Some(d) => r == Some(
                (below_zero(d), least(rounded(d, places as int), cap as nat) as u128),
            ),
            None => r is None,
        },
{
    let x = chars_of(s);
    let (neg, d, whole, tail) = decimal_shape(&x);
    if d.len() == 0 {
        return None;
    }
    match read_exponent(&x, tail) {
        Some(e) => {
            let n: i128 = whole as i128 + e + places as i128;
            let ghost power = exponent(x@.skip(tail as int))->0;
            let ghost m = whole + power + places;
            proof {
                if power > far() {
                    lemma_far(d@, m, n as int, cap as nat);
                } else if power < -far() {
                    assert(leading_value(d@, m) == 0);
                    assert(leading_value(d@, n as int) == 0);
                }
            }
            let below = neg && capped_value(&d, d.len() as i128, cap) > 0;
            let v = capped_value(&d, n, cap);
            if v == cap {
                return Some((below, cap));
            }
            let up = rounds_up(&d, n, v % 2 == 1);
            if up {
                Some((below, v + 1))
            } else {
                Some((below, v))
            }
        },
        None => None,
    }
}

/// Tests whether a decimal number is zero; of any other text it tells nothing.
pub fn reads_nil(s: &str) -> (r: bool)
    ensures
        decimal(s@) matches Some(d) ==> r == is_nil(d),
{
    let x = chars_of(s);
    let (_neg, d, _whole, tail) = decimal_shape(&x);
    capped_value(&d, d.len() as i128, 1) == 0
}

/// The whole number nearest to `n / d`, the even one of two equally near.
pub open spec fn nearest(n: nat, d: nat) -> nat {
    let q = n / d;
    let twice = 2 * (n % d);
    if twice > d || (twice == d && q % 2 == 1) {
        q + 1
    } else {
        q
    }
}

/// Computes the nearest whole number.
pub fn nearest_of(n: u128, d: u128) -> (r: u128)
    requires
        0 < d <= 0x4000_0000_0000_0000_0000_0000_0000_0000,
    ensures
        r == nearest(n as nat, d as nat),
        r <= n + 1,
{
    let q: u128 = n / d;
    let rem: u128 = n % d;
    assert(q <= n) by (nonlinear_arith)
        requires
            d > 0,
            q == (n as int) / (d as int),
    ;
    assert(d > 1 ==> 2 * q <= n) by (nonlinear_arith)
        requires
            d > 0,
            q == (n as int) / (d as int),
    ;
    let twice: u128 = 2 * rem;
    if twice > d || (twice == d && q % 2 == 1) {
        q + 1
    } else {
        q
    }
}

// ---------------------------------------------------------------------------
// Rendering fractions
// ---------------------------------------------------------------------------

/// The digits of a fraction of a million, without zeros at their end.
pub open spec fn fraction_digits(n: nat, places: nat) -> Seq<char>
    decreases places,
{
    if n == 0 || places == 0 {
        Seq::empty()
    } else {
        let unit = pow10((places - 1) as nat);
        seq![digit((n / unit) % 10)] + fraction_digits(n % unit, (places - 1) as nat)
    }
}

/// Ten to a power.
pub open spec fn pow10(n: nat) -> nat
    decreases n,
{
    if n == 0 {
        1
    } else {
        10 * pow10((n - 1) as nat)
    }
}

/// A number of millionths as a decimal number, without needless zeros.
pub open spec fn millionths_text(n: int) -> Seq<char> {
    let a = if n < 0 {
        (-n) as nat
    } else {
        n as nat
    };
    let whole = dec(a / 1_000_000);
    let body = if a % 1_000_000 == 0 {
        whole
    } else {
        whole + seq!['.'] + fraction_digits(a % 1_000_000, 6)
    };
    if n < 0 {
        seq!['-'] + body
    } else {
        body
    }
}

/// Writes the digits of a fraction; `unit` is the weight of the first one.
fn show_fraction(n: u128, places: u32, unit: u128) -> (r: String)
    requires
        places > 0 ==> unit == pow10((places - 1) as nat),
    ensures
        r@ == fraction_digits(n as nat, places as nat),
    decreases places,
{
    if n == 0 || places == 0 {
        let r = String::new();
        assert(r@ =~= fraction_digits(n as nat, places as nat));
        return r;
    }
    proof {
        lemma_pow10_positive((places - 1) as nat);
        if places > 1 {
            assert(pow10((places - 1) as nat) == 10 * pow10((places - 2) as nat));
        }
    }
    let mut out = String::new();
    out.push(digit_of(n / unit % 10));
    assert(out@ =~= seq![digit((n / unit % 10) as nat)]);
    let rest = show_fraction(n % unit, places - 1, unit / 10);
    out.append(rest.as_str());
    out
}

/// Writes a number of millionths as a decimal number.
pub fn show_millionths(n: i64) -> (r: String)
    ensures
        r@ == millionths_text(n as int),
{
    let a: u128 = if n < 0 {
        (-(n as i128)) as u128
    } else {
        n as u128
    };
    let mut body = show(a / 1_000_000);
    let rest: u128 = a % 1_000_000;
    if rest != 0 {
        proof {
            reveal_with_fuel(pow10, 6);
        }
        let ghost whole = body@;
        body.push('.');
        assert(body@ =~= whole + seq!['.']);
        body.append(show_fraction(rest, 6, 100_000).as_str());
    }
    if n < 0 {
        let mut out = String::new();
        out.push('-');
        assert(out@ =~= seq!['-']);
        out.append(body.as_str());
        out
    } else {
        body
    }
}

proof fn lemma_pow10_positive(n: nat)
    ensures
        pow10(n) >= 1,
    decreases n,
{
    if n > 0 {
        lemma_pow10_positive((n - 1) as nat);
    }
}

// ---------------------------------------------------------------------------
// Laws
// ---------------------------------------------------------------------------

/// The value of leading digits depends on nothing behind them.
pub proof fn lemma_leading_same(d: Seq<char>, e: Seq<char>, n: int)
    requires
        0 <= n <= d.len(),
        n <= e.len(),
        forall|i: int| 0 <= i < n ==> d[i] == e[i],
    ensures
        leading_value(d, n) == leading_value(e, n),
    decreases n,
{
    if n > 0 {
        lemma_leading_same(d, e, n - 1);
    }
}

/// The decimal text of a number has only digits, no leading zero, and the
/// number as its value: it reads back as the number, and different numbers have
/// different texts.
pub proof fn law_numbers_read_back(n: nat)
    ensures
        dec(n).len() > 0,
        all_digits(dec(n)),
        leading_value(dec(n), dec(n).len() as int) == n,
        n > 0 ==> dec(n)[0] != '0',
        forall|max: nat| n <= max ==> #[trigger] read_nat(dec(n), max) == Some(n),
        forall|m: nat| #[trigger] dec(m) == dec(n) ==> m == n,
{
    lemma_dec(n);
    assert forall|max: nat| n <= max implies #[trigger] read_nat(dec(n), max) == Some(n) by {
        assert(is_digit(dec(n)[0]));
    }
    assert forall|m: nat| #[trigger] dec(m) == dec(n) implies m == n by {
        lemma_dec(m);
    }
}

proof fn lemma_dec(n: nat)
    ensures
        dec(n).len() > 0,
        all_digits(dec(n)),
        leading_value(dec(n), dec(n).len() as int) == n,
        n > 0 ==> dec(n)[0] != '0',
    decreases n,
{
    let d = dec(n);
    if n < 10 {
        assert(is_digit(digit(n)) && digit_value(digit(n)) == n);
        reveal_with_fuel(leading_value, 2);
    } else {
        let head = dec(n / 10);
        lemma_dec(n / 10);
        let last = digit(n % 10);
        assert(is_digit(last) && digit_value(last) == n % 10);
        assert(d == head.push(last));
        lemma_leading_same(head, d, head.len() as int);
        assert forall|i: int| 0 <= i < d.len() implies is_digit(#[trigger] d[i]) by {
            if i < head.len() {
                assert(d[i] == head[i]);
            }
        }
        assert(d[0] == head[0]);
        assert(leading_value(d, d.len() as int) == leading_value(d, d.len() - 1) * 10 + digit_value(
            d[d.len() - 1],
        ));
    }
}

/// The text of an integer reads back as the integer, and different integers
/// have different texts.
pub proof fn law_integers_read_back(i: int)
    ensures
        i64::MIN <= i <= i64::MAX ==> read_int(dec_int(i)) == Some(i),
        forall|j: int| #[trigger] dec_int(j) == dec_int(i) ==> j == i,
{
    let n = if i < 0 {
        (-i) as nat
    } else {
        i as nat
    };
    law_numbers_read_back(n);
    assert(is_digit(dec(n)[0]));
    if i < 0 {
        assert(dec_int(i).skip(1) =~= dec(n));
    }
    assert forall|j: int| #[trigger] dec_int(j) == dec_int(i) implies j == i by {
        let m = if j < 0 {
            (-j) as nat
        } else {
            j as nat
        };
        law_numbers_read_back(m);
        assert(is_digit(dec(m)[0]));
        assert(dec_int(j)[0] == dec_int(i)[0]);
        if i < 0 {
            assert(dec_int(j).skip(1) =~= dec(m));
        }
    }
}

/// Padded texts have the number as their value, in exactly two or three digits.
pub proof fn law_padding_keeps_the_value(n: nat)
    ensures
        n < 100 ==> dec2(n).len() == 2 && all_digits(dec2(n)) && leading_value(dec2(n), 2) == n,
        n < 1000 ==> dec3(n).len() == 3 && all_digits(dec3(n)) && leading_value(dec3(n), 3) == n,
{
    if n < 100 {
        let a = n / 10;
        let b = n % 10;
        lemma_digit(a);
        lemma_digit(b);
        assert(dec(a) == seq![digit(a)]);
        assert(dec2(n) =~= seq![digit(a), digit(b)]);
        lemma_two_digits(dec2(n));
    }
    if n < 1000 {
        lemma_digit(n / 100 % 10);
        lemma_digit(n / 10 % 10);
        lemma_digit(n % 10);
        lemma_three_digits(dec3(n));
    }
}

proof fn lemma_digit(k: nat)
    requires
        k < 10,
    ensures
        is_digit(digit(k)),
        digit_value(digit(k)) == k,
{
}

proof fn lemma_two_digits(s: Seq<char>)
    requires
        s.len() == 2,
    ensures
        leading_value(s, 2) == digit_value(s[0]) * 10 + digit_value(s[1]),
{
    reveal_with_fuel(leading_value, 3);
}

proof fn lemma_three_digits(s: Seq<char>)
    requires
        s.len() == 3,
    ensures
        leading_value(s, 3) == digit_value(s[0]) * 100 + digit_value(s[1]) * 10 + digit_value(s[2]),
{
    reveal_with_fuel(leading_value, 4);
}

/// A quotient is rounded to a whole number that no other is nearer to, the even
/// one of two equally near.
pub proof fn law_nearest_is_nearest(n: nat, d: nat)
    requires
        d > 0,
    ensures
        2 * (nearest(n, d) * d) <= 2 * n + d,
        2 * n <= 2 * (nearest(n, d) * d) + d,
        2 * (nearest(n, d) * d) == 2 * n + d || 2 * n == 2 * (nearest(n, d) * d) + d ==> nearest(n, d)
            % 2 == 0,
{
    let q = n / d;
    vstd::arithmetic::div_mod::lemma_fundamental_div_mod(n as int, d as int);
    assert(q * d == d * q) by (nonlinear_arith);
    assert((q + 1) * d == q * d + d) by (nonlinear_arith);
}

/// Digits with a point among them denote what they say: the digits on both
/// sides, with the point behind those of the first.
pub proof fn law_decimals_read_as_written(neg: bool, whole: Seq<char>, frac: Seq<char>)
    requires
        whole.len() > 0,
        all_digits(whole),
        all_digits(frac),
    ensures
        ({
            let sign = if neg {
                seq!['-']
            } else {
                Seq::<char>::empty()
            };
            &&& decimal(sign + whole + seq!['.'] + frac) == Some(
                Decimal { neg, digits: whole + frac, point: whole.len() as int },
            )
            &&& decimal(sign + whole) == Some(
                Decimal { neg, digits: whole, point: whole.len() as int },
            )
        }),
{
    reveal(decimal);
    let sign = if neg {
        seq!['-']
    } else {
        Seq::<char>::empty()
    };
    let n = whole.len() as int;
    assert(is_digit(whole[0]));
    let s = sign + whole + seq!['.'] + frac;
    let t = whole + seq!['.'] + frac;
    if neg {
        assert(s.skip(1) =~= t);
        assert((sign + whole).skip(1) =~= whole);
        assert(s[0] == '-' && (sign + whole)[0] == '-');
    } else {
        assert(s =~= t);
        assert(sign + whole =~= whole);
        assert(t[0] == whole[0]);
    }
    assert(signed(s) == (neg, t));
    assert(signed(sign + whole) == (neg, whole));
    assert forall|j: int| 0 <= j < n implies is_digit(#[trigger] t[j]) by {
        assert(t[j] == whole[j]);
    }
    assert(t[n] == '.');
    lemma_digit_run(t, n);
    lemma_digit_run(whole, n);
    assert(t.take(n) =~= whole);
    let rest = t.skip(n);
    assert(rest[0] == '.');
    assert(rest.skip(1) =~= frac);
    lemma_digit_run(frac, frac.len() as int);
    assert(frac.take(frac.len() as int) =~= frac);
    assert(frac.skip(frac.len() as int).len() == 0);
    assert(whole.take(n) =~= whole);
    assert(whole.skip(n).len() == 0);
    assert(whole + Seq::<char>::empty() =~= whole);
}

/// Places behind the last digit multiply by ten each.
proof fn lemma_places_behind(d: Seq<char>, k: nat)
    ensures
        leading_value(d, (d.len() + k) as int) == leading_value(d, d.len() as int) * pow10(k),
    decreases k,
{
    if k == 0 {
        assert(leading_value(d, d.len() as int) * 1 == leading_value(d, d.len() as int));
    } else {
        let j = (k - 1) as nat;
        lemma_places_behind(d, j);
        let v = leading_value(d, d.len() as int);
        assert(v * pow10(j) * 10 == v * (10 * pow10(j))) by (nonlinear_arith);
    }
}

/// In units that are as fine as its last digit, or finer, a decimal is counted
/// exactly.
pub proof fn law_fine_units_are_exact(d: Decimal, places: nat)
    requires
        d.point <= d.digits.len() <= d.point + places,
    ensures
        in_units(d, places as int) == leading_value(d.digits, d.digits.len() as int) * pow10(
            (d.point + places - d.digits.len()) as nat,
        ),
        rounded(d, places as int) == in_units(d, places as int),
{
    let k = (d.point + places - d.digits.len()) as nat;
    lemma_places_behind(d.digits, k);
    let n = d.digits.len() + k;
    let below = leading_value(d.digits, n as int);
    assert(leading_value(d.digits, n as int + 1) == below * 10);
    assert((below * 10) % 10 == 0);
}

} // verus!
