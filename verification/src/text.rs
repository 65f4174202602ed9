//! Text as sequences of characters: the small string toolkit that the rest of
//! the crate is specified with.
//!
//! Every function takes `&str` or `String` and is specified over the view
//! `Seq<char>`.

use vstd::prelude::*;
use vstd::string::StringExecFns;

verus! {

/// `String::push` appends one character at the end.
pub assume_specification[ String::push ](s: &mut String, c: char)
    ensures
        final(s)@ == old(s)@.push(c),
;

// ---------------------------------------------------------------------------
// Characters
// ---------------------------------------------------------------------------

/// The characters with the Unicode `White_Space` property.
pub open spec fn is_space(c: char) -> bool {
    let n = c as u32;
    ||| 0x9 <= n <= 0xD
    ||| n == 0x20
    ||| n == 0x85
    ||| n == 0xA0
    ||| n == 0x1680
    ||| 0x2000 <= n <= 0x200A
    ||| n == 0x2028
    ||| n == 0x2029
    ||| n == 0x202F
    ||| n == 0x205F
    ||| n == 0x3000
}

/// Tests for Unicode white space.
pub fn char_is_space(c: char) -> (r: bool)
    ensures
        r == is_space(c),
{
    let n: u32 = c as u32;
    (0x9 <= n && n <= 0xD) || n == 0x20 || n == 0x85 || n == 0xA0 || n == 0x1680 || (0x2000 <= n
        && n <= 0x200A) || n == 0x2028 || n == 0x2029 || n == 0x202F || n == 0x205F || n == 0x3000
}

/// The decimal digits `0` to `9`.
pub open spec fn is_digit(c: char) -> bool {
    '0' <= c <= '9'
}

/// The ASCII letters and digits.
pub open spec fn is_alnum(c: char) -> bool {
    is_digit(c) || 'a' <= c <= 'z' || 'A' <= c <= 'Z'
}

/// The lower-case form of an ASCII letter; every other character is itself.
pub open spec fn lower(c: char) -> char {
    match c {
        'A' => 'a',
        'B' => 'b',
        'C' => 'c',
        'D' => 'd',
        'E' => 'e',
        'F' => 'f',
        'G' => 'g',
        'H' => 'h',
        'I' => 'i',
        'J' => 'j',
        'K' => 'k',
        'L' => 'l',
        'M' => 'm',
        'N' => 'n',
        'O' => 'o',
        'P' => 'p',
        'Q' => 'q',
        'R' => 'r',
        'S' => 's',
        'T' => 't',
        'U' => 'u',
        'V' => 'v',
        'W' => 'w',
        'X' => 'x',
        'Y' => 'y',
        'Z' => 'z',
        _ => c,
    }
}

/// The lower-case form of an ASCII letter.
pub fn char_lower(c: char) -> (r: char)
    ensures
        r == lower(c),
{
    match c {
        'A' => 'a',
        'B' => 'b',
        'C' => 'c',
        'D' => 'd',
        'E' => 'e',
        'F' => 'f',
        'G' => 'g',
        'H' => 'h',
        'I' => 'i',
        'J' => 'j',
        'K' => 'k',
        'L' => 'l',
        'M' => 'm',
        'N' => 'n',
        'O' => 'o',
        'P' => 'p',
        'Q' => 'q',
        'R' => 'r',
        'S' => 's',
        'T' => 't',
        'U' => 'u',
        'V' => 'v',
        'W' => 'w',
        'X' => 'x',
        'Y' => 'y',
        'Z' => 'z',
        _ => c,
    }
}

/// Text with its ASCII letters in lower case.
pub open spec fn lowered(s: Seq<char>) -> Seq<char> {
    s.map_values(|c: char| lower(c))
}

// ---------------------------------------------------------------------------
// Between strings and characters
// ---------------------------------------------------------------------------

/// The views of a sequence of strings.
pub open spec fn texts(v: Seq<String>) -> Seq<Seq<char>> {
    v.map_values(|s: String| s@)
}

/// The view of an optional string.
pub open spec fn opt_text(o: Option<String>) -> Option<Seq<char>> {
    match o {
        Some(s) => Some(s@),
        None => None,
    }
}

/// The characters of a string.
pub fn chars_of(s: &str) -> (r: Vec<char>)
    ensures
        r@ == s@,
{
    let mut out: Vec<char> = Vec::new();
    for c in it: s.chars()
        invariant
            out@ == s@.take(it.index() as int),
            it.seq() == s@,
    {
        out.push(c);
        proof {
            assert(s@.take(it.index() as int).push(c) =~= s@.take(it.index() as int + 1));
        }
    }
    assert(s@.take(s@.len() as int) =~= s@);
    out
}

/// The string made of characters `from` up to `to`.
pub fn slice_text(chars: &Vec<char>, from: usize, to: usize) -> (r: String)
    requires
        from <= to <= chars@.len(),
    ensures
        r@ == chars@.subrange(from as int, to as int),
{
    let mut out = String::new();
    let mut i: usize = from;
    assert(chars@.subrange(from as int, from as int) =~= Seq::<char>::empty());
    while i < to
        invariant
            from <= i <= to <= chars@.len(),
            out@ == chars@.subrange(from as int, i as int),
        decreases to - i,
    {
        out.push(chars[i]);
        assert(chars@.subrange(from as int, i as int).push(chars@[i as int]) =~= chars@.subrange(
            from as int,
            i as int + 1,
        ));
        i = i + 1;
    }
    out
}

/// The string made of all the characters.
pub fn text_of(chars: &Vec<char>) -> (r: String)
    ensures
        r@ == chars@,
{
    let out = slice_text(chars, 0, chars.len());
    assert(chars@.subrange(0, chars@.len() as int) =~= chars@);
    out
}

/// A string with the same characters.
pub fn copy_text(s: &str) -> (r: String)
    ensures
        r@ == s@,
{
    s.to_owned()
}

/// An optional string with the same characters.
pub fn copy_opt(o: &Option<String>) -> (r: Option<String>)
    ensures
        opt_text(r) == opt_text(*o),
        r is Some <==> o is Some,
{
    match o {
        Some(s) => Some(copy_text(s.as_str())),
        None => None,
    }
}

/// Strings with the same characters, in the same order.
pub fn copy_texts(v: &[String]) -> (r: Vec<String>)
    ensures
        texts(r@) == texts(v@),
{
    let mut out: Vec<String> = Vec::new();
    let mut i: usize = 0;
    while i < v.len()
        invariant
            i <= v@.len(),
            out@.len() == i,
            forall|j: int| 0 <= j < i ==> (#[trigger] out@[j])@ == v@[j]@,
        decreases v@.len() - i,
    {
        out.push(copy_text(v[i].as_str()));
        i = i + 1;
    }
    assert(texts(out@) =~= texts(v@));
    out
}

/// Whether two strings hold the same characters.
pub fn same(a: &str, b: &str) -> (r: bool)
    ensures
        r == (a@ == b@),
{
    let x = chars_of(a);
    let y = chars_of(b);
    same_chars(&x, &y)
}

/// Whether two character vectors are equal.
pub fn same_chars(x: &Vec<char>, y: &Vec<char>) -> (r: bool)
    ensures
        r == (x@ == y@),
{
    if x.len() != y.len() {
        return false;
    }
    let mut i: usize = 0;
    while i < x.len()
        invariant
            i <= x@.len(),
            x@.len() == y@.len(),
            forall|j: int| 0 <= j < i ==> x@[j] == y@[j],
        decreases x@.len() - i,
    {
        if x[i] != y[i] {
            return false;
        }
        i = i + 1;
    }
    assert(x@ =~= y@);
    true
}

/// Whether two optional strings are equal.
pub fn same_opt(a: &Option<String>, b: &Option<String>) -> (r: bool)
    ensures
        r == (opt_text(*a) == opt_text(*b)),
{
    match (a, b) {
        (Some(x), Some(y)) => same(x.as_str(), y.as_str()),
        (None, None) => true,
        _ => false,
    }
}

/// Two strings joined.
pub fn join2(a: &str, b: &str) -> (r: String)
    ensures
        r@ == a@ + b@,
{
    let mut out = copy_text(a);
    out.append(b);
    out
}

/// Three strings joined.
pub fn join3(a: &str, b: &str, c: &str) -> (r: String)
    ensures
        r@ == a@ + b@ + c@,
{
    let mut out = copy_text(a);
    out.append(b);
    out.append(c);
    out
}

/// ASCII letters turned to lower case.
pub fn to_lower(s: &str) -> (r: String)
    ensures
        r@ == lowered(s@),
{
    let x = chars_of(s);
    let mut out = String::new();
    let mut i: usize = 0;
    while i < x.len()
        invariant
            i <= x@.len(),
            x@ == s@,
            out@ == lowered(s@.take(i as int)),
        decreases x@.len() - i,
    {
        out.push(char_lower(x[i]));
        i = i + 1;
        assert(lowered(s@.take(i as int - 1)).push(lower(s@[i as int - 1])) =~= lowered(
            s@.take(i as int),
        ));
    }
    assert(s@.take(s@.len() as int) =~= s@);
    out
}

// ---------------------------------------------------------------------------
// Searching
// ---------------------------------------------------------------------------

/// Position of the first `c` in `s`, or the length of `s` when there is none.
pub open spec fn find(s: Seq<char>, c: char) -> int
    decreases s.len(),
{
    if s.len() == 0 || s[0] == c {
        0
    } else {
        1 + find(s.skip(1), c)
    }
}

/// Position of the last `c` in `s`, or -1 when there is none.
pub open spec fn rfind(s: Seq<char>, c: char) -> int
    decreases s.len(),
{
    if s.len() == 0 {
        -1
    } else if s.last() == c {
        s.len() - 1
    } else {
        rfind(s.drop_last(), c)
    }
}

/// `find` gives the first position, and only that one.
pub proof fn lemma_find(s: Seq<char>, c: char, i: int)
    requires
        0 <= i <= s.len(),
        forall|j: int| 0 <= j < i ==> s[j] != c,
        i < s.len() ==> s[i] == c,
    ensures
        find(s, c) == i,
    decreases s.len(),
{
    if s.len() > 0 && i > 0 {
        assert(s[0] != c);
        lemma_find(s.skip(1), c, i - 1);
    }
}

/// Nothing before the position that `find` gives is `c`.
pub proof fn lemma_find_bounds(s: Seq<char>, c: char)
    ensures
        0 <= find(s, c) <= s.len(),
        find(s, c) < s.len() ==> s[find(s, c)] == c,
        forall|j: int| 0 <= j < find(s, c) ==> s[j] != c,
    decreases s.len(),
{
    if s.len() > 0 && s[0] != c {
        lemma_find_bounds(s.skip(1), c);
        assert forall|j: int| 0 <= j < find(s, c) implies s[j] != c by {
            if j > 0 {
                assert(s[j] == s.skip(1)[j - 1]);
            }
        }
        if find(s, c) < s.len() {
            assert(s[find(s, c)] == s.skip(1)[find(s, c) - 1]);
        }
    }
}

/// `rfind` gives the last position, and only that one.
pub proof fn lemma_rfind(s: Seq<char>, c: char, i: int)
    requires
        -1 <= i < s.len(),
        forall|j: int| i < j < s.len() ==> s[j] != c,
        i >= 0 ==> s[i] == c,
    ensures
        rfind(s, c) == i,
    decreases s.len(),
{
    if s.len() > 0 && i < s.len() - 1 {
        assert(s.last() == s[s.len() - 1]);
        assert forall|j: int| i < j < s.drop_last().len() implies s.drop_last()[j] != c by {
            assert(s.drop_last()[j] == s[j]);
        }
        lemma_rfind(s.drop_last(), c, i);
    }
}

/// Nothing after the position that `rfind` gives is `c`.
pub proof fn lemma_rfind_bounds(s: Seq<char>, c: char)
    ensures
        -1 <= rfind(s, c) < s.len(),
        rfind(s, c) >= 0 ==> s[rfind(s, c)] == c,
        forall|j: int| rfind(s, c) < j < s.len() ==> s[j] != c,
    decreases s.len(),
{
    if s.len() > 0 && s.last() != c {
        lemma_rfind_bounds(s.drop_last(), c);
        assert forall|j: int| rfind(s, c) < j < s.len() implies s[j] != c by {
            if j < s.len() - 1 {
                assert(s[j] == s.drop_last()[j]);
            }
        }
    }
}

/// Position of the first `c` among the characters from `from` on, or the length.
pub fn find_from(x: &Vec<char>, from: usize, c: char) -> (r: usize)
    requires
        from <= x@.len(),
    ensures
        from <= r <= x@.len(),
        r == from + find(x@.skip(from as int), c),
{
    let mut i: usize = from;
    while i < x.len()
        invariant_except_break
            forall|j: int| from <= j < i ==> x@[j] != c,
        invariant
            from <= i <= x@.len(),
        ensures
            forall|j: int| from <= j < i ==> x@[j] != c,
            i < x@.len() ==> x@[i as int] == c,
        decreases x@.len() - i,
    {
        if x[i] == c {
            break;
        }
        i = i + 1;
    }
    proof {
        lemma_find(x@.skip(from as int), c, i - from);
    }
    i
}

/// Position of the last `c` among the first `to` characters, if there is one.
pub fn rfind_to(x: &Vec<char>, to: usize, c: char) -> (r: Option<usize>)
    requires
        to <= x@.len(),
    ensures
        r is None <==> rfind(x@.take(to as int), c) < 0,
        r matches Some(i) ==> i == rfind(x@.take(to as int), c) && i < to,
{
    let mut i: usize = to;
    while i > 0
        invariant
            i <= to <= x@.len(),
            forall|j: int| i <= j < to ==> x@[j] != c,
        decreases i,
    {
        if x[i - 1] == c {
            proof {
                lemma_rfind(x@.take(to as int), c, i - 1);
            }
            return Some(i - 1);
        }
        i = i - 1;
    }
    proof {
        lemma_rfind(x@.take(to as int), c, -1);
    }
    None
}

/// Whether `s` begins with `p`.
pub open spec fn begins(s: Seq<char>, p: Seq<char>) -> bool {
    p.len() <= s.len() && s.take(p.len() as int) == p
}

/// Whether `s` ends with `p`.
pub open spec fn ends(s: Seq<char>, p: Seq<char>) -> bool {
    p.len() <= s.len() && s.skip(s.len() - p.len()) == p
}

/// Whether `p` occurs in `s` at position `i`.
pub open spec fn occurs_at(s: Seq<char>, p: Seq<char>, i: int) -> bool {
    0 <= i && i + p.len() <= s.len() && s.subrange(i, i + p.len()) == p
}

/// Whether `p` occurs in `s`.
pub open spec fn has(s: Seq<char>, p: Seq<char>) -> bool {
    exists|i: int| occurs_at(s, p, i)
}

/// Whether `p` stands at position `i` of `x`.
pub fn stands_at(x: &Vec<char>, p: &Vec<char>, i: usize) -> (r: bool)
    requires
        i <= x@.len(),
    ensures
        r == occurs_at(x@, p@, i as int),
{
    if x.len() - i < p.len() {
        return false;
    }
    let mut k: usize = 0;
    while k < p.len()
        invariant
            k <= p@.len(),
            i + p@.len() <= x@.len() <= usize::MAX,
            forall|j: int| 0 <= j < k ==> x@[i + j] == p@[j],
        decreases p@.len() - k,
    {
        if x[i + k] != p[k] {
            assert(x@.subrange(i as int, i + p@.len())[k as int] != p@[k as int]);
            return false;
        }
        k = k + 1;
    }
    assert(x@.subrange(i as int, i + p@.len()) =~= p@);
    true
}

/// Whether `s` begins with `p`.
pub fn begins_with(s: &str, p: &str) -> (r: bool)
    ensures
        r == begins(s@, p@),
{
    let x = chars_of(s);
    let y = chars_of(p);
    let r = stands_at(&x, &y, 0);
    assert(s@.subrange(0, p@.len() as int) =~= s@.take(p@.len() as int) || p@.len() > s@.len());
    r
}

/// Whether `s` ends with `p`.
pub fn ends_with(s: &str, p: &str) -> (r: bool)
    ensures
        r == ends(s@, p@),
{
    let x = chars_of(s);
    let y = chars_of(p);
    if y.len() > x.len() {
        return false;
    }
    let at: usize = x.len() - y.len();
    let r = stands_at(&x, &y, at);
    assert(s@.subrange(at as int, at + p@.len()) =~= s@.skip(s@.len() - p@.len()));
    r
}

/// Whether `p` occurs in `s`.
pub fn contains_text(s: &str, p: &str) -> (r: bool)
    ensures
        r == has(s@, p@),
{
    let x = chars_of(s);
    let y = chars_of(p);
    let mut i: usize = 0;
    while i < x.len()
        invariant
            i <= x@.len(),
            x@ == s@,
            y@ == p@,
            forall|j: int| 0 <= j < i ==> !occurs_at(s@, p@, j),
        decreases x@.len() - i,
    {
        if stands_at(&x, &y, i) {
            return true;
        }
        i = i + 1;
    }
    if stands_at(&x, &y, i) {
        return true;
    }
    assert forall|j: int| !occurs_at(s@, p@, j) by {}
    false
}

/// Whether `c` occurs in `s`.
pub fn contains_char(s: &str, c: char) -> (r: bool)
    ensures
        r == s@.contains(c),
{
    let x = chars_of(s);
    let mut i: usize = 0;
    while i < x.len()
        invariant
            i <= x@.len(),
            x@ == s@,
            forall|j: int| 0 <= j < i ==> s@[j] != c,
        decreases x@.len() - i,
    {
        if x[i] == c {
            assert(s@[i as int] == c);
            return true;
        }
        i = i + 1;
    }
    false
}

/// Position of the first occurrence of `p` in `s`, if there is one.
pub open spec fn find_text(s: Seq<char>, p: Seq<char>) -> Option<int>
    decreases s.len(),
{
    if begins(s, p) {
        Some(0)
    } else if s.len() == 0 {
        None
    } else {
        match find_text(s.skip(1), p) {
            Some(i) => Some(i + 1),
            None => None,
        }
    }
}

/// Finds the first occurrence of `p` in `x`.
pub fn position_of(x: &Vec<char>, p: &Vec<char>) -> (r: Option<usize>)
    ensures
        match r {
            Some(i) => find_text(x@, p@) == Some(i as int) && i + p@.len() <= x@.len(),
            None => find_text(x@, p@) is None,
        },
{
    let ghost s = x@;
    let mut i: usize = 0;
    assert(s.skip(0) =~= s);
    loop
        invariant
            i <= x@.len(),
            s == x@,
            find_text(s, p@) == (match find_text(s.skip(i as int), p@) {
                Some(k) => Some(k + i),
                None => None,
            }),
        decreases x@.len() - i,
    {
        let ghost rest = s.skip(i as int);
        if stands_at(x, p, i) {
            assert(rest.take(p@.len() as int) =~= s.subrange(i as int, i + p@.len()));
            return Some(i);
        }
        proof {
            if begins(rest, p@) {
                assert(rest.take(p@.len() as int) =~= s.subrange(i as int, i + p@.len()));
            }
        }
        if i == x.len() {
            return None;
        }
        assert(rest.skip(1) =~= s.skip(i + 1));
        i = i + 1;
    }
}

// ---------------------------------------------------------------------------
// Trimming
// ---------------------------------------------------------------------------

/// Text without its leading white space.
pub open spec fn trim_start(s: Seq<char>) -> Seq<char>
    decreases s.len(),
{
    if s.len() > 0 && is_space(s[0]) {
        trim_start(s.skip(1))
    } else {
        s
    }
}

/// Text without its trailing white space.
pub open spec fn trim_end(s: Seq<char>) -> Seq<char>
    decreases s.len(),
{
    if s.len() > 0 && is_space(s.last()) {
        trim_end(s.drop_last())
    } else {
        s
    }
}

/// Text without its leading and trailing white space.
pub open spec fn trimmed(s: Seq<char>) -> Seq<char> {
    trim_end(trim_start(s))
}

proof fn lemma_trim_start(s: Seq<char>, i: int)
    requires
        0 <= i <= s.len(),
        forall|j: int| 0 <= j < i ==> is_space(s[j]),
        i < s.len() ==> !is_space(s[i]),
    ensures
        trim_start(s) == s.skip(i),
    decreases s.len(),
{
    if i > 0 {
        assert(is_space(s[0]));
        lemma_trim_start(s.skip(1), i - 1);
        assert(s.skip(1).skip(i - 1) =~= s.skip(i));
    } else {
        assert(s.skip(0) =~= s);
    }
}

proof fn lemma_trim_end(s: Seq<char>, i: int)
    requires
        0 <= i <= s.len(),
        forall|j: int| i <= j < s.len() ==> is_space(s[j]),
        i > 0 ==> !is_space(s[i - 1]),
    ensures
        trim_end(s) == s.take(i),
    decreases s.len(),
{
    if i < s.len() {
        assert(is_space(s[s.len() - 1]));
        assert(s.last() == s[s.len() - 1]);
        lemma_trim_end(s.drop_last(), i);
        assert(s.drop_last().take(i) =~= s.take(i));
    } else {
        assert(s.take(i) =~= s);
    }
}

/// First position at or after `from` that is not white space, or the length.
pub fn skip_space(x: &Vec<char>, from: usize) -> (r: usize)
    requires
        from <= x@.len(),
    ensures
        from <= r <= x@.len(),
        forall|j: int| from <= j < r ==> is_space(x@[j]),
        r < x@.len() ==> !is_space(x@[r as int]),
{
    let mut i: usize = from;
    while i < x.len()
        invariant_except_break
            forall|j: int| from <= j < i ==> is_space(x@[j]),
        invariant
            from <= i <= x@.len(),
        ensures
            forall|j: int| from <= j < i ==> is_space(x@[j]),
            i < x@.len() ==> !is_space(x@[i as int]),
        decreases x@.len() - i,
    {
        if !char_is_space(x[i]) {
            break;
        }
        i = i + 1;
    }
    i
}

/// Removes leading white space.
pub fn trim_left(s: &str) -> (r: String)
    ensures
        r@ == trim_start(s@),
{
    let x = chars_of(s);
    let a = skip_space(&x, 0);
    proof {
        lemma_trim_start(s@, a as int);
        assert(s@.skip(a as int) =~= s@.subrange(a as int, s@.len() as int));
    }
    slice_text(&x, a, x.len())
}

/// Removes leading and trailing white space.
pub fn trim(s: &str) -> (r: String)
    ensures
        r@ == trimmed(s@),
{
    let x = chars_of(s);
    let a = skip_space(&x, 0);
    let mut b: usize = x.len();
    while b > a
        invariant_except_break
            forall|j: int| b <= j < x@.len() ==> is_space(x@[j]),
        invariant
            a <= b <= x@.len(),
        ensures
            forall|j: int| b <= j < x@.len() ==> is_space(x@[j]),
            b > a ==> !is_space(x@[b - 1]),
        decreases b,
    {
        if !char_is_space(x[b - 1]) {
            break;
        }
        b = b - 1;
    }
    proof {
        lemma_trim_start(s@, a as int);
        let t = s@.skip(a as int);
        assert forall|j: int| b - a <= j < t.len() implies is_space(t[j]) by {
            assert(t[j] == s@[a + j]);
        }
        if b > a {
            assert(t[b - a - 1] == s@[b - 1]);
        }
        lemma_trim_end(t, b - a);
        assert(t.take(b - a) =~= s@.subrange(a as int, b as int));
    }
    slice_text(&x, a, b)
}

// ---------------------------------------------------------------------------
// Splitting
// ---------------------------------------------------------------------------

/// One line's text: the end of a terminated line loses its carriage return.
pub open spec fn line_body(s: Seq<char>, terminated: bool) -> Seq<char> {
    if terminated && s.len() > 0 && s.last() == '\r' {
        s.drop_last()
    } else {
        s
    }
}

/// The lines of a text: each ends at `\n` or `\r\n`, and the last one may
/// lack its end.
pub open spec fn lines(s: Seq<char>) -> Seq<Seq<char>>
    decreases s.len(),
{
    if s.len() == 0 {
        Seq::empty()
    } else {
        let i = find(s, '\n');
        if i >= s.len() {
            seq![s]
        } else if i < 0 {
            Seq::empty()
        } else {
            seq![line_body(s.take(i), true)] + lines(s.skip(i + 1))
        }
    }
}

/// Splits a text into its lines.
pub fn split_lines(s: &str) -> (r: Vec<String>)
    ensures
        texts(r@) == lines(s@),
{
    let x = chars_of(s);
    let mut out: Vec<String> = Vec::new();
    let mut pos: usize = 0;
    proof {
        assert(s@.skip(0) =~= s@);
        assert(texts(out@) + lines(s@.skip(0)) =~= lines(s@));
    }
    while pos < x.len()
        invariant
            pos <= x@.len(),
            x@ == s@,
            texts(out@) + lines(s@.skip(pos as int)) == lines(s@),
        decreases x@.len() - pos,
    {
        let ghost rest = s@.skip(pos as int);
        let ghost before = texts(out@);
        let end = find_from(&x, pos, '\n');
        proof {
            lemma_find_bounds(rest, '\n');
        }
        if end < x.len() {
            let mut stop: usize = end;
            if end > pos && x[end - 1] == '\r' {
                stop = end - 1;
            }
            let line = slice_text(&x, pos, stop);
            proof {
                let i = end - pos;
                assert(rest.take(i) =~= s@.subrange(pos as int, end as int));
                assert(line@ =~= line_body(rest.take(i), true));
                assert(rest.skip(i + 1) =~= s@.skip(end + 1));
            }
            out.push(line);
            proof {
                assert(texts(out@) =~= before.push(line@));
                assert(before.push(line@) + lines(s@.skip(end + 1)) =~= before + (seq![line@]
                    + lines(s@.skip(end + 1))));
            }
            pos = end + 1;
        } else {
            let line = slice_text(&x, pos, end);
            proof {
                assert(line@ =~= rest);
                assert(s@.skip(end as int) =~= Seq::<char>::empty());
                assert(lines(rest) =~= seq![line@]);
            }
            out.push(line);
            proof {
                assert(texts(out@) =~= before.push(line@));
                assert(texts(out@) + lines(s@.skip(end as int)) =~= before + seq![line@]);
            }
            pos = end;
        }
    }
    proof {
        assert(s@.skip(pos as int) =~= Seq::<char>::empty());
        assert(texts(out@) + lines(s@.skip(pos as int)) =~= texts(out@));
    }
    out
}

/// The first run of characters that are not white space, if there is one.
pub open spec fn first_word(s: Seq<char>) -> Option<Seq<char>> {
    let t = trim_start(s);
    if t.len() == 0 {
        None
    } else {
        Some(word_prefix(t))
    }
}

/// The characters before the first white space.
pub open spec fn word_prefix(s: Seq<char>) -> Seq<char>
    decreases s.len(),
{
    if s.len() == 0 || is_space(s[0]) {
        Seq::empty()
    } else {
        seq![s[0]] + word_prefix(s.skip(1))
    }
}

/// A word holds something, and no white space.
pub proof fn lemma_word_is_whole(s: Seq<char>)
    ensures
        first_word(s) matches Some(w) ==> w.len() > 0 && forall|i: int|
            0 <= i < w.len() ==> !is_space(#[trigger] w[i]),
    decreases s.len(),
{
    if s.len() > 0 && is_space(s[0]) {
        lemma_word_is_whole(s.skip(1));
    } else if s.len() > 0 {
        lemma_no_space(s);
    }
}

proof fn lemma_no_space(s: Seq<char>)
    ensures
        forall|i: int| 0 <= i < word_prefix(s).len() ==> !is_space(#[trigger] word_prefix(s)[i]),
    decreases s.len(),
{
    if s.len() > 0 && !is_space(s[0]) {
        lemma_no_space(s.skip(1));
        let w = word_prefix(s);
        assert forall|i: int| 0 <= i < w.len() implies !is_space(#[trigger] w[i]) by {
            if i > 0 {
                assert(w[i] == word_prefix(s.skip(1))[i - 1]);
            }
        }
    }
}

/// White space behind a text leaves its first word alone.
pub proof fn lemma_word_before_space(s: Seq<char>, c: char)
    requires
        is_space(c),
    ensures
        first_word(s.push(c)) == first_word(s),
    decreases s.len(),
{
    let t = s.push(c);
    if s.len() == 0 {
        assert(t.skip(1) =~= Seq::empty());
        assert(trim_start(t.skip(1)).len() == 0);
    } else if is_space(s[0]) {
        assert(t.skip(1) =~= s.skip(1).push(c));
        lemma_word_before_space(s.skip(1), c);
    } else {
        lemma_prefix_before_space(s, c);
    }
}

proof fn lemma_prefix_before_space(s: Seq<char>, c: char)
    requires
        is_space(c),
    ensures
        word_prefix(s.push(c)) == word_prefix(s),
    decreases s.len(),
{
    let t = s.push(c);
    if s.len() > 0 && !is_space(s[0]) {
        assert(t.skip(1) =~= s.skip(1).push(c));
        lemma_prefix_before_space(s.skip(1), c);
    }
}

proof fn lemma_word_prefix(s: Seq<char>, i: int)
    requires
        0 <= i <= s.len(),
        forall|j: int| 0 <= j < i ==> !is_space(s[j]),
        i < s.len() ==> is_space(s[i]),
    ensures
        word_prefix(s) == s.take(i),
    decreases s.len(),
{
    if i > 0 {
        assert(!is_space(s[0]));
        lemma_word_prefix(s.skip(1), i - 1);
        assert(seq![s[0]] + s.skip(1).take(i - 1) =~= s.take(i));
    } else {
        assert(s.take(0) =~= Seq::empty());
    }
}

/// The first word of the characters from `from` on.
pub fn word_from(x: &Vec<char>, from: usize) -> (r: Option<String>)
    requires
        from <= x@.len(),
    ensures
        opt_text(r) == first_word(x@.skip(from as int)),
{
    let ghost s = x@.skip(from as int);
    let a = skip_space(x, from);
    proof {
        assert forall|j: int| 0 <= j < a - from implies is_space(s[j]) by {
            assert(s[j] == x@[from + j]);
        }
        lemma_trim_start(s, a - from);
        assert(s.skip(a - from) =~= x@.skip(a as int));
    }
    if a == x.len() {
        return None;
    }
    let mut b: usize = a;
    while b < x.len()
        invariant_except_break
            forall|j: int| a <= j < b ==> !is_space(x@[j]),
        invariant
            a <= b <= x@.len(),
        ensures
            forall|j: int| a <= j < b ==> !is_space(x@[j]),
            b < x@.len() ==> is_space(x@[b as int]),
        decreases x@.len() - b,
    {
        if char_is_space(x[b]) {
            break;
        }
        b = b + 1;
    }
    proof {
        let t = x@.skip(a as int);
        lemma_word_prefix(t, b - a);
        assert(t.take(b - a) =~= x@.subrange(a as int, b as int));
    }
    Some(slice_text(x, a, b))
}

/// The two sides of the first `c`, if `c` occurs.
pub open spec fn split_first(s: Seq<char>, c: char) -> Option<(Seq<char>, Seq<char>)> {
    let i = find(s, c);
    if i < s.len() {
        Some((s.take(i), s.skip(i + 1)))
    } else {
        None
    }
}

/// Splits at the first `c`.
pub fn split_once(s: &str, c: char) -> (r: Option<(String, String)>)
    ensures
        match r {
            Some((a, b)) => split_first(s@, c) == Some((a@, b@)),
            None => split_first(s@, c) is None,
        },
{
    let x = chars_of(s);
    let i = find_from(&x, 0, c);
    assert(s@.skip(0) =~= s@);
    if i < x.len() {
        let a = slice_text(&x, 0, i);
        let b = slice_text(&x, i + 1, x.len());
        assert(a@ =~= s@.take(i as int));
        assert(b@ =~= s@.skip(i + 1));
        Some((a, b))
    } else {
        None
    }
}

/// The pieces of a text between the occurrences of `c`; always at least one.
pub open spec fn pieces(s: Seq<char>, c: char) -> Seq<Seq<char>>
    decreases s.len(),
{
    let i = find(s, c);
    if 0 <= i < s.len() {
        seq![s.take(i)] + pieces(s.skip(i + 1), c)
    } else {
        seq![s]
    }
}

/// Splits a text at every `c`.
pub fn split_char(s: &str, c: char) -> (r: Vec<String>)
    ensures
        texts(r@) == pieces(s@, c),
{
    let x = chars_of(s);
    let mut out: Vec<String> = Vec::new();
    let mut pos: usize = 0;
    proof {
        assert(s@.skip(0) =~= s@);
        assert(texts(out@) + pieces(s@.skip(0), c) =~= pieces(s@, c));
    }
    loop
        invariant
            pos <= x@.len(),
            x@ == s@,
            texts(out@) + pieces(s@.skip(pos as int), c) == pieces(s@, c),
        decreases x@.len() - pos,
    {
        let ghost rest = s@.skip(pos as int);
        let ghost before = texts(out@);
        let end = find_from(&x, pos, c);
        proof {
            lemma_find_bounds(rest, c);
        }
        let piece = slice_text(&x, pos, end);
        assert(piece@ =~= rest.take(end - pos));
        out.push(piece);
        assert(texts(out@) =~= before.push(piece@));
        if end < x.len() {
            proof {
                assert(rest.skip(end - pos + 1) =~= s@.skip(end + 1));
                assert(before.push(piece@) + pieces(s@.skip(end + 1), c) =~= before + (
                seq![piece@] + pieces(s@.skip(end + 1), c)));
            }
            pos = end + 1;
        } else {
            proof {
                assert(piece@ =~= rest);
                assert(before.push(piece@) =~= before + seq![piece@]);
            }
            return out;
        }
    }
}

// ---------------------------------------------------------------------------
// Replacing and joining
// ---------------------------------------------------------------------------

/// Text with every occurrence of `pat`, read from the left, replaced.
pub open spec fn replaced(s: Seq<char>, pat: Seq<char>, with: Seq<char>) -> Seq<char>
    decreases s.len(),
{
    if s.len() == 0 || pat.len() == 0 {
        s
    } else if begins(s, pat) {
        with + replaced(s.skip(pat.len() as int), pat, with)
    } else {
        seq![s[0]] + replaced(s.skip(1), pat, with)
    }
}

/// Replaces every occurrence of the non-empty `pat`.
pub fn replace_all(s: &str, pat: &str, with: &str) -> (r: String)
    requires
        pat@.len() > 0,
    ensures
        r@ == replaced(s@, pat@, with@),
{
    let x = chars_of(s);
    let y = chars_of(pat);
    let mut out = String::new();
    let mut i: usize = 0;
    proof {
        assert(s@.skip(0) =~= s@);
        assert(out@ + replaced(s@.skip(0), pat@, with@) =~= replaced(s@, pat@, with@));
    }
    while i < x.len()
        invariant
            i <= x@.len(),
            x@ == s@,
            y@ == pat@,
            pat@.len() > 0,
            out@ + replaced(s@.skip(i as int), pat@, with@) == replaced(s@, pat@, with@),
        decreases x@.len() - i,
    {
        let ghost rest = s@.skip(i as int);
        let ghost before = out@;
        if stands_at(&x, &y, i) {
            proof {
                assert(rest.take(pat@.len() as int) =~= s@.subrange(i as int, i + pat@.len()));
                assert(rest.skip(pat@.len() as int) =~= s@.skip(i + pat@.len()));
                let tail = replaced(s@.skip(i + pat@.len()), pat@, with@);
                assert(before + with@ + tail =~= before + (with@ + tail));
            }
            out.append(with);
            i = i + y.len();
        } else {
            proof {
                if begins(rest, pat@) {
                    assert(rest.take(pat@.len() as int) =~= s@.subrange(i as int, i + pat@.len()));
                }
                assert(rest[0] == s@[i as int]);
                assert(rest.skip(1) =~= s@.skip(i + 1));
                let tail = replaced(s@.skip(i + 1), pat@, with@);
                assert(before.push(s@[i as int]) + tail =~= before + (seq![s@[i as int]] + tail));
            }
            out.push(x[i]);
            i = i + 1;
        }
    }
    assert(s@.skip(i as int) =~= Seq::<char>::empty());
    assert(out@ + replaced(s@.skip(i as int), pat@, with@) =~= out@);
    out
}

/// Texts joined with a separator between each two.
pub open spec fn joined(parts: Seq<Seq<char>>, sep: Seq<char>) -> Seq<char>
    decreases parts.len(),
{
    if parts.len() == 0 {
        Seq::empty()
    } else if parts.len() == 1 {
        parts[0]
    } else {
        joined(parts.drop_last(), sep) + sep + parts.last()
    }
}

/// Joins strings with a separator.
pub fn join_all(parts: &Vec<String>, sep: &str) -> (r: String)
    ensures
        r@ == joined(texts(parts@), sep@),
{
    let mut out = String::new();
    let mut i: usize = 0;
    let ghost all = texts(parts@);
    while i < parts.len()
        invariant
            i <= parts@.len(),
            all == texts(parts@),
            out@ == joined(all.take(i as int), sep@),
        decreases parts@.len() - i,
    {
        if i > 0 {
            out.append(sep);
        }
        out.append(parts[i].as_str());
        proof {
            let t = all.take(i + 1);
            assert(t.drop_last() =~= all.take(i as int));
            assert(t.last() == parts@[i as int]@);
            if i == 0 {
                assert(out@ =~= parts@[0]@);
            }
        }
        i = i + 1;
    }
    assert(all.take(all.len() as int) =~= all);
    out
}

// ---------------------------------------------------------------------------
// Laws
// ---------------------------------------------------------------------------

/// What stands before a separator is the first piece.
pub proof fn lemma_pieces_front(head: Seq<char>, rest: Seq<char>, c: char)
    requires
        !head.contains(c),
    ensures
        pieces(head + seq![c] + rest, c) == seq![head] + pieces(rest, c),
{
    let s = head + seq![c] + rest;
    let n = head.len() as int;
    assert forall|j: int| 0 <= j < n implies s[j] != c by {
        assert(head.contains(head[j]));
        assert(s[j] == head[j]);
    }
    assert(s[n] == c);
    lemma_find(s, c, n);
    assert(s.take(n) =~= head);
    assert(s.skip(n + 1) =~= rest);
}

/// A text without a separator is one piece.
pub proof fn lemma_one_piece(s: Seq<char>, c: char)
    requires
        !s.contains(c),
    ensures
        pieces(s, c) == seq![s],
{
    assert forall|j: int| 0 <= j < s.len() implies s[j] != c by {
        assert(s.contains(s[j]));
    }
    lemma_find(s, c, s.len() as int);
}

/// Joined by the separator, the pieces of a text are the text again, and no
/// piece holds a separator.
pub proof fn law_pieces_join_again(s: Seq<char>, c: char)
    ensures
        joined(pieces(s, c), seq![c]) == s,
        pieces(s, c).len() > 0,
        forall|i: int| 0 <= i < pieces(s, c).len() ==> !(#[trigger] pieces(s, c)[i]).contains(c),
    decreases s.len(),
{
    let i = find(s, c);
    lemma_find_bounds(s, c);
    if i < s.len() {
        let head = s.take(i);
        let rest = s.skip(i + 1);
        law_pieces_join_again(rest, c);
        lemma_join_front(head, pieces(rest, c), seq![c]);
        assert(head + seq![c] + rest =~= s);
        assert(!head.contains(c)) by {
            if head.contains(c) {
                let k = choose|k: int| 0 <= k < head.len() && head[k] == c;
                assert(s[k] == c);
            }
        }
        assert forall|k: int| 0 <= k < pieces(s, c).len() implies !(
        #[trigger] pieces(s, c)[k]).contains(c) by {
            if k > 0 {
                assert(pieces(s, c)[k] == pieces(rest, c)[k - 1]);
            }
        }
    } else {
        reveal_with_fuel(joined, 2);
        assert(joined(seq![s], seq![c]) =~= s) by {
            assert(seq![s].drop_last() =~= Seq::<Seq<char>>::empty());
        }
        if s.contains(c) {
            let k = choose|k: int| 0 <= k < s.len() && s[k] == c;
            assert(s[k] != c);
        }
    }
}

/// A part in front of others comes before them and a separator.
proof fn lemma_join_front(head: Seq<char>, parts: Seq<Seq<char>>, sep: Seq<char>)
    requires
        parts.len() > 0,
    ensures
        joined(seq![head] + parts, sep) == head + sep + joined(parts, sep),
    decreases parts.len(),
{
    let all = seq![head] + parts;
    assert(all.last() == parts.last());
    assert(all.drop_last() =~= seq![head] + parts.drop_last());
    if parts.len() == 1 {
        reveal_with_fuel(joined, 3);
        assert(parts.drop_last() =~= Seq::<Seq<char>>::empty());
        assert(all.drop_last() =~= seq![head]);
        assert(seq![head].drop_last() =~= Seq::<Seq<char>>::empty());
        assert(joined(all, sep) =~= head + sep + joined(parts, sep));
    } else {
        lemma_join_front(head, parts.drop_last(), sep);
        assert(joined(all, sep) =~= head + sep + joined(parts, sep));
    }
}

/// Trimming takes the blanks off both ends, and nothing else.
pub proof fn law_trimming_takes_off_blanks_only(s: Seq<char>)
    ensures
        exists|i: int, j: int|
            0 <= i <= j <= s.len() && trimmed(s) == #[trigger] s.subrange(i, j) && (forall|k: int|
                0 <= k < i || j <= k < s.len() ==> is_space(#[trigger] s[k])),
        trimmed(s).len() > 0 ==> !is_space(trimmed(s)[0]) && !is_space(trimmed(s).last()),
{
    let t = trim_start(s);
    let i = lemma_trim_start_at(s);
    let j = lemma_trim_end_at(t);
    assert(trimmed(s) =~= s.subrange(i, i + j));
    assert forall|k: int| 0 <= k < i || i + j <= k < s.len() implies is_space(#[trigger] s[k]) by {
        if k >= i {
            assert(t[k - i] == s[k]);
        }
    }
}

proof fn lemma_trim_start_at(s: Seq<char>) -> (i: int)
    ensures
        0 <= i <= s.len(),
        trim_start(s) == s.skip(i),
        forall|k: int| 0 <= k < i ==> is_space(#[trigger] s[k]),
        i < s.len() ==> !is_space(s[i]),
    decreases s.len(),
{
    if s.len() > 0 && is_space(s[0]) {
        let i = lemma_trim_start_at(s.skip(1));
        assert(s.skip(1).skip(i) =~= s.skip(i + 1));
        assert forall|k: int| 0 <= k < i + 1 implies is_space(#[trigger] s[k]) by {
            if k > 0 {
                assert(s.skip(1)[k - 1] == s[k]);
            }
        }
        if i < s.skip(1).len() {
            assert(s.skip(1)[i] == s[i + 1]);
        }
        i + 1
    } else {
        assert(s.skip(0) =~= s);
        0
    }
}

proof fn lemma_trim_end_at(s: Seq<char>) -> (j: int)
    ensures
        0 <= j <= s.len(),
        trim_end(s) == s.take(j),
        forall|k: int| j <= k < s.len() ==> is_space(#[trigger] s[k]),
        j > 0 ==> !is_space(s[j - 1]),
    decreases s.len(),
{
    if s.len() > 0 && is_space(s.last()) {
        let w = s.drop_last();
        let j = lemma_trim_end_at(w);
        assert(w.take(j) =~= s.take(j));
        assert forall|k: int| j <= k < s.len() implies is_space(#[trigger] s[k]) by {
            if k < w.len() {
                assert(w[k] == s[k]);
            }
        }
        j
    } else {
        assert(s.take(s.len() as int) =~= s);
        s.len() as int
    }
}

/// What a part of a text holds, the text holds.
pub proof fn lemma_has_inside(a: Seq<char>, b: Seq<char>, c: Seq<char>, p: Seq<char>)
    requires
        has(b, p),
    ensures
        has(a + b + c, p),
{
    let k = choose|k: int| occurs_at(b, p, k);
    let s = a + b + c;
    let at = a.len() + k;
    assert(s.subrange(at, at + p.len()) =~= b.subrange(k, k + p.len()));
    assert(occurs_at(s, p, at));
}

/// A text holds itself.
pub proof fn lemma_has_itself(s: Seq<char>)
    ensures
        has(s, s),
{
    assert(s.subrange(0, s.len() as int) =~= s);
    assert(occurs_at(s, s, 0));
}

/// A joined text holds each of its parts.
pub proof fn lemma_joined_holds(v: Seq<Seq<char>>, sep: Seq<char>, i: int)
    requires
        0 <= i < v.len(),
    ensures
        has(joined(v, sep), v[i]),
    decreases v.len(),
{
    let none = Seq::<char>::empty();
    lemma_has_itself(v[i]);
    if v.len() > 1 {
        let before = joined(v.drop_last(), sep);
        if i == v.len() - 1 {
            lemma_has_inside(before + sep, v[i], none, v[i]);
            assert(before + sep + v[i] + none =~= joined(v, sep));
        } else {
            lemma_joined_holds(v.drop_last(), sep, i);
            lemma_has_inside(none, before, sep + v.last(), v[i]);
            assert(none + before + (sep + v.last()) =~= joined(v, sep));
        }
    }
}

} // verus!
