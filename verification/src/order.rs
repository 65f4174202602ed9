//! The order of texts, and sorting by it.

use vstd::prelude::*;

verus! {

/// Whether a text comes before another: character by character, and a prefix
/// before what it begins.
pub open spec fn precedes(a: Seq<char>, b: Seq<char>) -> bool
    decreases a.len(),
{
    if b.len() == 0 {
        false
    } else if a.len() == 0 {
        true
    } else {
        a[0] < b[0] || (a[0] == b[0] && precedes(a.skip(1), b.skip(1)))
    }
}

/// No text comes before itself, and of two that differ one comes first.
pub proof fn lemma_precedes_total(a: Seq<char>, b: Seq<char>)
    ensures
        !(precedes(a, b) && precedes(b, a)),
        a != b ==> precedes(a, b) || precedes(b, a),
    decreases a.len(),
{
    if a.len() == 0 {
        if b.len() == 0 {
            assert(a =~= b);
        }
    } else if b.len() > 0 {
        lemma_precedes_total(a.skip(1), b.skip(1));
        if a != b && a[0] == b[0] && a.skip(1) == b.skip(1) {
            assert(seq![a[0]] + a.skip(1) =~= a);
            assert(seq![b[0]] + b.skip(1) =~= b);
        }
    }
}

/// The order carries over a third text.
pub proof fn lemma_precedes_chain(a: Seq<char>, b: Seq<char>, c: Seq<char>)
    ensures
        precedes(a, b) && precedes(b, c) ==> precedes(a, c),
    decreases a.len(),
{
    if a.len() > 0 && b.len() > 0 && c.len() > 0 {
        lemma_precedes_chain(a.skip(1), b.skip(1), c.skip(1));
    }
}

/// Tests whether a text comes before another.
pub fn comes_before(a: &Vec<char>, b: &Vec<char>) -> (r: bool)
    ensures
        r == precedes(a@, b@),
{
    let mut i: usize = 0;
    assert(a@.skip(0) =~= a@);
    assert(b@.skip(0) =~= b@);
    while i < a.len() && i < b.len()
        invariant
            i <= a@.len(),
            i <= b@.len(),
            precedes(a@, b@) == precedes(a@.skip(i as int), b@.skip(i as int)),
        decreases a@.len() - i,
    {
        assert(a@.skip(i as int).skip(1) =~= a@.skip(i + 1));
        assert(b@.skip(i as int).skip(1) =~= b@.skip(i + 1));
        if a[i] < b[i] {
            return true;
        }
        if a[i] > b[i] {
            return false;
        }
        i = i + 1;
    }
    i < b.len()
}

/// The views of keys.
pub open spec fn keys_of(v: Seq<Vec<char>>) -> Seq<Seq<char>> {
    v.map_values(|k: Vec<char>| k@)
}

/// Whether item `i` sorts before item `j`: by their keys, and those with the
/// same key as they came.
pub open spec fn sorts_before(keys: Seq<Seq<char>>, i: int, j: int) -> bool {
    precedes(keys[i], keys[j]) || (keys[i] == keys[j] && i < j)
}

/// Whether a sequence of positions is the sorted order of all items.
pub open spec fn is_order(keys: Seq<Seq<char>>, p: Seq<int>) -> bool {
    &&& p.len() == keys.len()
    &&& forall|i: int| 0 <= i < p.len() ==> 0 <= #[trigger] p[i] < keys.len()
    &&& forall|i: int, j: int|
        0 <= i < j < p.len() ==> sorts_before(keys, #[trigger] p[i], #[trigger] p[j])
}

/// Positions as integers.
pub open spec fn places(v: Seq<usize>) -> Seq<int> {
    v.map_values(|i: usize| i as int)
}

/// Items in a given order.
pub open spec fn in_order_of<A>(v: Seq<A>, p: Seq<int>) -> Seq<A> {
    p.map_values(|i: int| v[i])
}

/// Works out the sorted order of items from their keys.
pub fn order_of(keys: &Vec<Vec<char>>) -> (r: Vec<usize>)
    ensures
        is_order(keys_of(keys@), places(r@)),
{
    let ghost all = keys_of(keys@);
    let mut p: Vec<usize> = Vec::new();
    let mut n: usize = 0;
    assert(all.take(0) =~= Seq::<Seq<char>>::empty());
    while n < keys.len()
        invariant
            n <= keys@.len(),
            all == keys_of(keys@),
            is_order(all.take(n as int), places(p@)),
        decreases keys@.len() - n,
    {
        let ghost known = all.take(n as int);
        let ghost q = places(p@);
        // The first place whose key comes after the new one.
        let mut low: usize = 0;
        let mut high: usize = p.len();
        while low < high
            invariant
                n < keys@.len(),
                all == keys_of(keys@),
                known == all.take(n as int),
                q == places(p@),
                is_order(known, q),
                low <= high <= p@.len(),
                forall|i: int| 0 <= i < low ==> !precedes(all[n as int], all[#[trigger] q[i]]),
                forall|i: int| high <= i < p@.len() ==> precedes(all[n as int], all[#[trigger] q[i]]),
            decreases high - low,
        {
            let mid: usize = low + (high - low) / 2;
            let at: usize = p[mid];
            assert(at == q[mid as int]);
            assert(0 <= q[mid as int] < known.len());
            assert(all[at as int] == keys@[at as int]@);
            assert(all[n as int] == keys@[n as int]@);
            if comes_before(&keys[n], &keys[at]) {
                proof {
                    assert forall|i: int| mid <= i < p@.len() implies precedes(
                        all[n as int],
                        all[#[trigger] q[i]],
                    ) by {
                        if i > mid {
                            assert(sorts_before(known, q[mid as int], q[i]));
                            lemma_precedes_chain(
                                all[n as int],
                                all[q[mid as int]],
                                all[q[i]],
                            );
                        }
                    }
                }
                high = mid;
            } else {
                proof {
                    assert forall|i: int| 0 <= i < mid + 1 implies !precedes(
                        all[n as int],
                        all[#[trigger] q[i]],
                    ) by {
                        if i < mid {
                            assert(sorts_before(known, q[i], q[mid as int]));
                            if precedes(all[n as int], all[q[i]]) {
                                lemma_precedes_chain(
                                    all[n as int],
                                    all[q[i]],
                                    all[q[mid as int]],
                                );
                            }
                        }
                    }
                }
                low = mid + 1;
            }
        }
        p.insert(low, n);
        proof {
            let next = all.take(n + 1);
            let t = places(p@);
            assert(t =~= q.insert(low as int, n as int));
            assert forall|i: int| 0 <= i < t.len() implies 0 <= #[trigger] t[i] < next.len() by {
                if i < low {
                    assert(t[i] == q[i]);
                } else if i > low {
                    assert(t[i] == q[i - 1]);
                }
            }
            assert forall|i: int, j: int| 0 <= i < j < t.len() implies sorts_before(
                next,
                #[trigger] t[i],
                #[trigger] t[j],
            ) by {
                let a = if i < low {
                    q[i]
                } else {
                    q[i - 1]
                };
                let b = if j < low {
                    q[j]
                } else {
                    q[j - 1]
                };
                if i == low {
                    assert(t[j] == b);
                    assert(0 <= q[j - 1] < known.len());
                    assert(precedes(all[n as int], all[b]));
                } else if j == low {
                    assert(t[i] == a);
                    assert(0 <= q[i] < known.len());
                    assert(!precedes(all[n as int], all[a]));
                    lemma_precedes_total(all[n as int], all[a]);
                } else {
                    assert(t[i] == a && t[j] == b);
                    assert(sorts_before(known, a, b));
                    if i < low {
                        assert(0 <= q[i] < known.len());
                    } else {
                        assert(0 <= q[i - 1] < known.len());
                    }
                    if j < low {
                        assert(0 <= q[j] < known.len());
                    } else {
                        assert(0 <= q[j - 1] < known.len());
                    }
                }
            }
        }
        n = n + 1;
    }
    assert(all.take(n as int) =~= all);
    p
}

proof fn lemma_order_distinct(keys: Seq<Seq<char>>, p: Seq<int>, i: int, j: int)
    requires
        is_order(keys, p),
        0 <= i < p.len(),
        0 <= j < p.len(),
        p[i] == p[j],
    ensures
        i == j,
{
    if i < j {
        assert(sorts_before(keys, p[i], p[j]));
        lemma_precedes_total(keys[p[i]], keys[p[i]]);
    } else if j < i {
        assert(sorts_before(keys, p[j], p[i]));
        lemma_precedes_total(keys[p[i]], keys[p[i]]);
    }
}

/// Sorting loses nothing and doubles nothing: every item stands in exactly one
/// place of the order.
pub proof fn law_order_is_complete(keys: Seq<Seq<char>>, p: Seq<int>, item: int) -> (place: int)
    requires
        is_order(keys, p),
        0 <= item < keys.len(),
    ensures
        0 <= place < p.len(),
        p[place] == item,
        forall|other: int| 0 <= other < p.len() && #[trigger] p[other] == item ==> other == place,
{
    let n = keys.len() as int;
    assert(p.no_duplicates()) by {
        assert forall|i: int, j: int| 0 <= i < p.len() && 0 <= j < p.len() && i != j implies p[i]
            != p[j] by {
            if p[i] == p[j] {
                lemma_order_distinct(keys, p, i, j);
            }
        }
    }
    p.unique_seq_to_set();
    let full = vstd::set_lib::set_int_range(0, n);
    vstd::set_lib::lemma_int_range(0, n);
    assert(p.to_set().subset_of(full));
    vstd::set_lib::lemma_subset_equality(p.to_set(), full);
    assert(p.to_set().contains(item));
    let place = choose|k: int| 0 <= k < p.len() && p[k] == item;
    assert forall|other: int| 0 <= other < p.len() && #[trigger] p[other] == item implies other
        == place by {
        lemma_order_distinct(keys, p, other, place);
    }
    place
}

/// There is only one sorted order.
pub proof fn law_order_is_unique(keys: Seq<Seq<char>>, p: Seq<int>, q: Seq<int>)
    requires
        is_order(keys, p),
        is_order(keys, q),
    ensures
        p == q,
{
    lemma_order_agrees(keys, p, q, p.len() as int);
    assert(p =~= q);
}

proof fn lemma_order_agrees(keys: Seq<Seq<char>>, p: Seq<int>, q: Seq<int>, n: int)
    requires
        is_order(keys, p),
        is_order(keys, q),
        0 <= n <= p.len(),
    ensures
        forall|i: int| 0 <= i < n ==> #[trigger] p[i] == q[i],
    decreases n,
{
    if n > 0 {
        let k = n - 1;
        lemma_order_agrees(keys, p, q, k);
        if p[k] != q[k] {
            // The item that one order has here comes later in the other.
            let a = law_order_is_complete(keys, q, p[k]);
            let b = law_order_is_complete(keys, p, q[k]);
            if a < k {
                assert(p[a] == q[a]);
                lemma_order_distinct(keys, p, a, k);
            }
            if b < k {
                assert(p[b] == q[b]);
                lemma_order_distinct(keys, q, b, k);
            }
            assert(sorts_before(keys, p[k], p[b]));
            assert(sorts_before(keys, q[k], q[a]));
            lemma_precedes_total(keys[p[k]], keys[q[k]]);
        }
    }
}

/// Texts are ordered by the first characters in which they differ, and a text
/// comes before what it begins.
pub proof fn law_the_first_difference_decides(
    common: Seq<char>,
    x: char,
    a: Seq<char>,
    y: char,
    b: Seq<char>,
)
    requires
        (x as u32) < (y as u32),
    ensures
        precedes(common + seq![x] + a, common + seq![y] + b),
        !precedes(common + seq![y] + b, common + seq![x] + a),
        precedes(common, common + seq![x] + a),
        !precedes(common + seq![x] + a, common),
        !precedes(common, common),
    decreases common.len(),
{
    let s = common + seq![x] + a;
    let t = common + seq![y] + b;
    if common.len() > 0 {
        let rest = common.skip(1);
        law_the_first_difference_decides(rest, x, a, y, b);
        assert(s.skip(1) =~= rest + seq![x] + a);
        assert(t.skip(1) =~= rest + seq![y] + b);
        assert(s[0] == common[0] && t[0] == common[0]);
    } else {
        assert(s[0] == x && t[0] == y);
    }
}

} // verus!
