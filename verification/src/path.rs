//! File paths as text, by the rules of Unix: components are separated by `/`,
//! repeated separators and `.` components count for nothing, and a leading `/`
//! is the root.

use vstd::prelude::*;
use vstd::string::StringExecFns;
use crate::text::{
    chars_of, copy_text, join2, lemma_rfind, lemma_rfind_bounds, opt_text, pieces, rfind, rfind_to,
    same, slice_text, split_char, texts,
};

verus! {

/// A path without what follows its last component: trailing separators and
/// `.` components.
pub open spec fn tidy(p: Seq<char>) -> Seq<char>
    decreases p.len(),
{
    if p.len() > 1 && p.last() == '/' {
        tidy(p.drop_last())
    } else if p.len() > 1 && p.last() == '.' && p[p.len() - 2] == '/' {
        tidy(p.drop_last())
    } else {
        p
    }
}

/// The part of a tidied path behind its last separator.
pub open spec fn tail(p: Seq<char>) -> Seq<char> {
    p.skip(rfind(p, '/') + 1)
}

/// The last component, when it is a name (not the root, `.` or `..`).
pub open spec fn file_name(p: Seq<char>) -> Option<Seq<char>> {
    let t = tail(tidy(p));
    if t.len() == 0 || t == seq!['.'] || t == seq!['.', '.'] {
        None
    } else {
        Some(t)
    }
}

/// A name up to its last dot; the whole name when it has no dot or only a
/// leading one.
pub open spec fn stem_of(name: Seq<char>) -> Seq<char> {
    let i = rfind(name, '.');
    if i <= 0 {
        name
    } else {
        name.take(i)
    }
}

/// What follows a name's last dot, unless that dot leads the name.
pub open spec fn extension_of(name: Seq<char>) -> Option<Seq<char>> {
    let i = rfind(name, '.');
    if i <= 0 {
        None
    } else {
        Some(name.skip(i + 1))
    }
}

/// The file name without its extension.
pub open spec fn file_stem(p: Seq<char>) -> Option<Seq<char>> {
    match file_name(p) {
        Some(n) => Some(stem_of(n)),
        None => None,
    }
}

/// The extension of the file name.
pub open spec fn extension(p: Seq<char>) -> Option<Seq<char>> {
    match file_name(p) {
        Some(n) => extension_of(n),
        None => None,
    }
}

/// The path without its last component; nothing for an empty path or the root.
pub open spec fn parent(p: Seq<char>) -> Option<Seq<char>> {
    let t = tidy(p);
    if t.len() == 0 || t == seq!['/'] {
        None
    } else {
        Some(tidy(t.take(rfind(t, '/') + 1)))
    }
}

/// Whether a path begins at the root.
pub open spec fn is_absolute(p: Seq<char>) -> bool {
    p.len() > 0 && p[0] == '/'
}

/// `name` seen from the directory `base`.
pub open spec fn joined_path(base: Seq<char>, name: Seq<char>) -> Seq<char> {
    if is_absolute(name) || base.len() == 0 {
        name
    } else if base.last() == '/' {
        base + name
    } else {
        base + seq!['/'] + name
    }
}

/// `name` beside the file `p`.
pub open spec fn beside(p: Seq<char>, name: Seq<char>) -> Seq<char> {
    match parent(p) {
        Some(dir) => if dir.len() > 0 {
            joined_path(dir, name)
        } else {
            name
        },
        None => name,
    }
}

/// The components among the pieces between separators: neither empty ones nor
/// `.` count, but for a `.` that leads.
pub open spec fn components(v: Seq<Seq<char>>) -> Seq<Seq<char>>
    decreases v.len(),
{
    if v.len() == 0 {
        Seq::empty()
    } else {
        let before = components(v.drop_last());
        if v.last().len() > 0 && (v.last() != seq!['.'] || v.len() == 1) {
            before.push(v.last())
        } else {
            before
        }
    }
}

/// Whether two texts are the same path: component by component.
pub open spec fn same_place(p: Seq<char>, q: Seq<char>) -> bool {
    is_absolute(p) == is_absolute(q) && components(pieces(p, '/')) == components(pieces(q, '/'))
}

/// Lists the components of a path.
fn list_components(p: &str) -> (r: Vec<String>)
    ensures
        texts(r@) == components(pieces(p@, '/')),
{
    let all = split_char(p, '/');
    let ghost v = texts(all@);
    let mut out: Vec<String> = Vec::new();
    let mut i: usize = 0;
    proof {
        reveal_strlit(".");
        assert("."@ =~= seq!['.']);
        assert(texts(out@) =~= components(v.take(0)));
    }
    while i < all.len()
        invariant
            i <= all@.len(),
            v == texts(all@),
            "."@ == seq!['.'],
            texts(out@) == components(v.take(i as int)),
        decreases all@.len() - i,
    {
        let ghost before = texts(out@);
        proof {
            assert(v.take(i + 1).drop_last() =~= v.take(i as int));
            assert(v.take(i + 1).last() == all@[i as int]@);
        }
        if !all[i].as_str().is_empty() && (!same(all[i].as_str(), ".") || i == 0) {
            out.push(copy_text(all[i].as_str()));
            assert(texts(out@) =~= before.push(all@[i as int]@));
        }
        i = i + 1;
    }
    assert(v.take(i as int) =~= v);
    out
}

/// Tests whether two texts are the same path.
pub fn is_same_place(p: &str, q: &str) -> (r: bool)
    ensures
        r == same_place(p@, q@),
{
    if path_is_absolute(p) != path_is_absolute(q) {
        return false;
    }
    let a = list_components(p);
    let b = list_components(q);
    let ghost v = texts(a@);
    let ghost w = texts(b@);
    if a.len() != b.len() {
        assert(v.len() != w.len());
        return false;
    }
    let mut i: usize = 0;
    while i < a.len()
        invariant
            i <= a@.len(),
            a@.len() == b@.len(),
            v == texts(a@),
            w == texts(b@),
            v == components(pieces(p@, '/')),
            w == components(pieces(q@, '/')),
            forall|j: int| 0 <= j < i ==> #[trigger] v[j] == w[j],
        decreases a@.len() - i,
    {
        assert(v[i as int] == a@[i as int]@ && w[i as int] == b@[i as int]@);
        if !same(a[i].as_str(), b[i].as_str()) {
            return false;
        }
        i = i + 1;
    }
    assert(v =~= w);
    true
}

/// A tidied path is a beginning of the path. It ends in a separator only as the
/// root, and what was cut off begins with one.
pub proof fn lemma_tidy(p: Seq<char>)
    ensures
        tidy(p).len() <= p.len(),
        tidy(p) == p.take(tidy(p).len() as int),
        p.len() > 0 ==> tidy(p).len() > 0,
        tidy(p).len() > 1 ==> tidy(p).last() != '/',
        tidy(p).len() < p.len() ==> p[tidy(p).len() as int] == '/' || tidy(p) == seq!['/'],
    decreases p.len(),
{
    let q = p.drop_last();
    if p.len() > 1 && (p.last() == '/' || (p.last() == '.' && p[p.len() - 2] == '/')) {
        lemma_tidy(q);
        let n = tidy(p).len() as int;
        assert(q.take(n) =~= p.take(n));
        if n == q.len() {
            assert(tidy(p) =~= q);
            if p.last() == '.' {
                assert(q.last() == '/');
                assert(q =~= seq!['/']);
            }
        } else {
            assert(q[n] == p[n]);
        }
    } else {
        assert(p.take(p.len() as int) =~= p);
    }
}

/// The parts of a path that ends in a name: its directory is a beginning of it,
/// and its name and stem are parts of it without a separator.
pub proof fn lemma_parts(p: Seq<char>)
    requires
        file_name(p) is Some,
    ensures
        parent(p) matches Some(d) && d.len() < p.len() && d == p.take(d.len() as int) && (d.len() > 0
            ==> (if d.last() == '/' {
            d == seq!['/']
        } else {
            p[d.len() as int] == '/'
        })),
        file_stem(p) matches Some(s) && s.len() > 0 && !s.contains('/') && forall|i: int|
            0 <= i < s.len() ==> p.contains(#[trigger] s[i]),
{
    let t = tidy(p);
    lemma_tidy(p);
    lemma_rfind_bounds(t, '/');
    let k = rfind(t, '/');
    let name = t.skip(k + 1);
    let cut = t.take(k + 1);
    lemma_tidy(cut);
    let d = tidy(cut);
    assert(d =~= p.take(d.len() as int));
    if d.len() > 0 {
        if d.len() == cut.len() {
            assert(cut.last() == '/');
            assert(d =~= cut);
        } else {
            assert(cut[d.len() as int] == p[d.len() as int]);
        }
        if d.last() == '/' {
            assert(d =~= seq!['/']);
        }
    }
    lemma_rfind_bounds(name, '.');
    let s = stem_of(name);
    assert forall|i: int| 0 <= i < s.len() implies p.contains(#[trigger] s[i]) && s[i] != '/' by {
        assert(s[i] == name[i]);
        assert(name[i] == t[k + 1 + i]);
        assert(t[k + 1 + i] == p[k + 1 + i]);
    }
    assert(!s.contains('/'));
}

/// Length of the tidied prefix of the first `n` characters.
fn tidy_len(x: &Vec<char>, n: usize) -> (r: usize)
    requires
        n <= x@.len(),
    ensures
        r <= n,
        tidy(x@.take(n as int)) == x@.take(r as int),
    decreases n,
{
    let ghost p = x@.take(n as int);
    if n > 1 && (x[n - 1] == '/' || (x[n - 1] == '.' && x[n - 2] == '/')) {
        proof {
            assert(p.last() == x@[n - 1]);
            assert(p[n - 2] == x@[n - 2]);
            assert(p.drop_last() =~= x@.take(n - 1));
        }
        tidy_len(x, n - 1)
    } else {
        proof {
            if n > 1 {
                assert(p.last() == x@[n - 1]);
                assert(p[n - 2] == x@[n - 2]);
            }
        }
        n
    }
}

/// Where the last component of the first `n` characters begins.
fn tail_start(x: &Vec<char>, n: usize) -> (r: usize)
    requires
        n <= x@.len(),
    ensures
        r <= n,
        r == rfind(x@.take(n as int), '/') + 1,
{
    proof {
        lemma_rfind_bounds(x@.take(n as int), '/');
    }
    match rfind_to(x, n, '/') {
        Some(i) => i + 1,
        None => 0,
    }
}

/// The name of the file that a path leads to.
pub fn get_file_name(p: &str) -> (r: Option<String>)
    ensures
        opt_text(r) == file_name(p@),
{
    let x = chars_of(p);
    assert(p@.take(p@.len() as int) =~= p@);
    let n = tidy_len(&x, x.len());
    let a = tail_start(&x, n);
    let ghost t = tail(tidy(p@));
    assert(t =~= x@.subrange(a as int, n as int));
    if a == n {
        return None;
    }
    if n - a == 1 && x[a] == '.' {
        assert(t =~= seq!['.']);
        return None;
    }
    if n - a == 2 && x[a] == '.' && x[a + 1] == '.' {
        assert(t =~= seq!['.', '.']);
        return None;
    }
    proof {
        if t == seq!['.'] {
            assert(t[0] == '.');
        }
        if t == seq!['.', '.'] {
            assert(t[0] == '.' && t[1] == '.');
        }
    }
    Some(slice_text(&x, a, n))
}

/// The file name without its extension.
pub fn get_file_stem(p: &str) -> (r: Option<String>)
    ensures
        opt_text(r) == file_stem(p@),
{
    match get_file_name(p) {
        Some(name) => {
            let x = chars_of(name.as_str());
            assert(x@.take(x@.len() as int) =~= x@);
            match rfind_to(&x, x.len(), '.') {
                Some(i) => if i > 0 {
                    let s = slice_text(&x, 0, i);
                    assert(s@ =~= name@.take(i as int));
                    Some(s)
                } else {
                    Some(name)
                },
                None => Some(name),
            }
        },
        None => None,
    }
}

/// The extension of the file name.
pub fn get_extension(p: &str) -> (r: Option<String>)
    ensures
        opt_text(r) == extension(p@),
{
    match get_file_name(p) {
        Some(name) => {
            let x = chars_of(name.as_str());
            assert(x@.take(x@.len() as int) =~= x@);
            match rfind_to(&x, x.len(), '.') {
                Some(i) => if i > 0 {
                    let s = slice_text(&x, i + 1, x.len());
                    assert(s@ =~= name@.skip(i + 1));
                    Some(s)
                } else {
                    None
                },
                None => None,
            }
        },
        None => None,
    }
}

/// The directory that holds the last component.
pub fn get_parent(p: &str) -> (r: Option<String>)
    ensures
        opt_text(r) == parent(p@),
{
    let x = chars_of(p);
    assert(p@.take(p@.len() as int) =~= p@);
    let n = tidy_len(&x, x.len());
    let ghost t = tidy(p@);
    if n == 0 {
        return None;
    }
    if n == 1 && x[0] == '/' {
        assert(t =~= seq!['/']);
        return None;
    }
    proof {
        if t == seq!['/'] {
            assert(t[0] == '/');
        }
    }
    let a = tail_start(&x, n);
    assert(t.take(a as int) =~= x@.take(a as int));
    let m = tidy_len(&x, a);
    assert(x@.take(m as int) =~= x@.subrange(0, m as int));
    Some(slice_text(&x, 0, m))
}

/// Whether a path begins at the root.
pub fn path_is_absolute(p: &str) -> (r: bool)
    ensures
        r == is_absolute(p@),
{
    let x = chars_of(p);
    x.len() > 0 && x[0] == '/'
}

/// `name` seen from the directory `base`.
pub fn join_path(base: &str, name: &str) -> (r: String)
    ensures
        r@ == joined_path(base@, name@),
{
    let b = chars_of(base);
    if path_is_absolute(name) || b.len() == 0 {
        return copy_text(name);
    }
    if b[b.len() - 1] == '/' {
        join2(base, name)
    } else {
        let mut out = copy_text(base);
        out.push('/');
        assert(out@ =~= base@ + seq!['/']);
        out.append(name);
        out
    }
}

/// `name` beside the file `p`.
pub fn path_beside(p: &str, name: &str) -> (r: String)
    ensures
        r@ == beside(p@, name@),
{
    match get_parent(p) {
        Some(dir) => if dir.as_str().is_empty() {
            copy_text(name)
        } else {
            join_path(dir.as_str(), name)
        },
        None => copy_text(name),
    }
}

/// Text without what follows the last component.
pub fn tidy_path(p: &str) -> (r: String)
    ensures
        r@ == tidy(p@),
{
    let x = chars_of(p);
    assert(p@.take(p@.len() as int) =~= p@);
    let n = tidy_len(&x, x.len());
    assert(x@.take(n as int) =~= x@.subrange(0, n as int));
    slice_text(&x, 0, n)
}

// ---------------------------------------------------------------------------
// Laws
// ---------------------------------------------------------------------------

/// A path splits into its directory and its name, and they join to it again;
/// what stands beside it stands in the same directory.
pub proof fn law_paths_split_and_join(dir: Seq<char>, name: Seq<char>, other: Seq<char>)
    requires
        dir.len() > 0,
        tidy(dir) == dir,
        dir.last() != '/',
        name.len() > 0,
        !name.contains('/'),
        name != seq!['.'],
        name != seq!['.', '.'],
        !is_absolute(other),
    ensures
        file_name(dir + seq!['/'] + name) == Some(name),
        parent(dir + seq!['/'] + name) == Some(dir),
        joined_path(dir, name) == dir + seq!['/'] + name,
        beside(dir + seq!['/'] + name, other) == dir + seq!['/'] + other,
        file_name(name) == Some(name),
        beside(name, other) == other,
{
    let p = dir + seq!['/'] + name;
    let k = dir.len() as int;
    assert forall|j: int| 0 <= j < name.len() implies name[j] != '/' by {
        assert(name.contains(name[j]));
    }
    assert(p.last() == name[name.len() - 1]);
    if name.len() == 1 {
        if name[0] == '.' {
            assert(name =~= seq!['.']);
        }
    } else {
        assert(p[p.len() - 2] == name[name.len() - 2]);
    }
    assert(tidy(p) == p);
    assert(tidy(name) == name);
    assert(p[k] == '/');
    assert forall|j: int| k < j < p.len() implies p[j] != '/' by {
        assert(p[j] == name[j - k - 1]);
    }
    lemma_rfind(p, '/', k);
    lemma_rfind(name, '/', -1);
    assert(p.skip(k + 1) =~= name);
    assert(name.skip(0) =~= name);
    let cut = p.take(k + 1);
    assert(cut.last() == '/');
    assert(cut.drop_last() =~= dir);
    assert(tidy(cut) == dir);
    assert(p != seq!['/']);
    assert(name != seq!['/']) by {
        assert(name[0] != '/');
    }
    assert(name.take(0) =~= Seq::empty());
    assert(tidy(Seq::<char>::empty()) =~= Seq::empty());
}

/// A name splits at its last dot into its stem and its extension; a dot that
/// leads the name splits nothing.
pub proof fn law_names_split_at_the_last_dot(stem: Seq<char>, ext: Seq<char>)
    requires
        !ext.contains('.'),
    ensures
        stem.len() > 0 ==> stem_of(stem + seq!['.'] + ext) == stem && extension_of(
            stem + seq!['.'] + ext,
        ) == Some(ext),
        stem_of(seq!['.'] + ext) == seq!['.'] + ext,
        extension_of(seq!['.'] + ext) is None,
        stem_of(ext) == ext,
        extension_of(ext) is None,
{
    let s = stem + seq!['.'] + ext;
    let hidden = seq!['.'] + ext;
    let k = stem.len() as int;
    assert forall|j: int| 0 <= j < ext.len() implies ext[j] != '.' by {
        assert(ext.contains(ext[j]));
    }
    assert forall|j: int| k < j < s.len() implies s[j] != '.' by {
        assert(s[j] == ext[j - k - 1]);
    }
    assert forall|j: int| 0 < j < hidden.len() implies hidden[j] != '.' by {
        assert(hidden[j] == ext[j - 1]);
    }
    lemma_rfind(s, '.', k);
    lemma_rfind(hidden, '.', 0);
    lemma_rfind(ext, '.', -1);
    assert(s.take(k) =~= stem);
    assert(s.skip(k + 1) =~= ext);
}

} // verus!
