//! Sets of names.

use vstd::prelude::*;
use crate::order::{
    in_order_of, is_order, keys_of, law_order_is_complete, lemma_precedes_total, order_of, places,
    precedes, sorts_before,
};
use crate::text::{chars_of, copy_text, same, texts};

verus! {

/// A set of names. No name occurs twice.
#[derive(Debug, Clone, PartialEq, Eq)]
pub struct NameSet {
    names: Vec<String>,
}

impl NameSet {
    /// No name occurs twice.
    pub closed spec fn wf(self) -> bool {
        texts(self.names@).no_duplicates()
    }

    /// The names.
    pub closed spec fn view(&self) -> Set<Seq<char>> {
        texts(self.names@).to_set()
    }

    /// The empty set.
    pub fn new() -> (r: Self)
        ensures
            r.wf(),
            r@ == Set::<Seq<char>>::empty(),
    {
        let r = NameSet { names: Vec::new() };
        assert(r@ =~= Set::<Seq<char>>::empty());
        r
    }

    /// Whether a name is in the set.
    pub fn contains(&self, name: &str) -> (r: bool)
        ensures
            r == self@.contains(name@),
    {
        let mut i: usize = 0;
        while i < self.names.len()
            invariant
                i <= self.names@.len(),
                forall|j: int| 0 <= j < i ==> (#[trigger] self.names@[j])@ != name@,
            decreases self.names@.len() - i,
        {
            if same(self.names[i].as_str(), name) {
                assert(texts(self.names@)[i as int] == name@);
                return true;
            }
            i = i + 1;
        }
        assert(!texts(self.names@).contains(name@)) by {
            if texts(self.names@).contains(name@) {
                let k = choose|k: int|
                    0 <= k < texts(self.names@).len() && texts(self.names@)[k] == name@;
                assert(self.names@[k]@ == name@);
            }
        }
        false
    }

    /// Adds a name.
    pub fn insert(&mut self, name: &str)
        requires
            old(self).wf(),
        ensures
            final(self).wf(),
            final(self)@ == old(self)@.insert(name@),
    {
        let ghost before = texts(self.names@);
        if !self.contains(name) {
            self.names.push(copy_text(name));
            proof {
                let after = texts(self.names@);
                assert(after =~= before.push(name@));
                assert forall|x: Seq<char>| after.to_set().contains(x) == before.to_set().insert(
                    name@,
                ).contains(x) by {
                    if before.contains(x) {
                        let k = choose|k: int| 0 <= k < before.len() && before[k] == x;
                        assert(after[k] == x);
                    }
                    if x == name@ {
                        assert(after[before.len() as int] == x);
                    }
                    if after.contains(x) {
                        let k = choose|k: int| 0 <= k < after.len() && after[k] == x;
                        if k < before.len() {
                            assert(before[k] == x);
                        }
                    }
                }
                assert(after.to_set() =~= before.to_set().insert(name@));
                assert forall|i: int, j: int|
                    0 <= i < after.len() && 0 <= j < after.len() && i != j implies after[i]
                    != after[j] by {
                    if i < before.len() && j == before.len() {
                        assert(before[i] == after[i]);
                        assert(before.contains(after[i]));
                    } else if j < before.len() && i == before.len() {
                        assert(before[j] == after[j]);
                        assert(before.contains(after[j]));
                    }
                }
            }
        } else {
            assert(self@.insert(name@) =~= self@);
        }
    }

    /// How many names there are.
    pub fn len(&self) -> (r: usize)
        requires
            self.wf(),
        ensures
            r == self@.len(),
    {
        proof {
            texts(self.names@).unique_seq_to_set();
        }
        self.names.len()
    }

    /// Copies the set.
    pub fn copy(&self) -> (r: Self)
        requires
            self.wf(),
        ensures
            r.wf(),
            r@ == self@,
    {
        NameSet { names: crate::text::copy_texts(self.names.as_slice()) }
    }

    /// Removes a name.
    pub fn remove(&mut self, name: &str)
        requires
            old(self).wf(),
        ensures
            final(self).wf(),
            final(self)@ == old(self)@.remove(name@),
    {
        let ghost before = texts(self.names@);
        let mut i: usize = 0;
        while i < self.names.len()
            invariant
                i <= self.names@.len(),
                before == texts(self.names@),
                before.no_duplicates(),
                forall|j: int| 0 <= j < i ==> (#[trigger] before[j]) != name@,
                *old(self) == *self,
            decreases self.names@.len() - i,
        {
            assert(before[i as int] == self.names@[i as int]@);
            if same(self.names[i].as_str(), name) {
                let _ = self.names.remove(i);
                proof {
                    let after = texts(self.names@);
                    assert(after =~= before.remove(i as int));
                    assert forall|x: Seq<char>| after.to_set().contains(x) == before.to_set().remove(
                        name@,
                    ).contains(x) by {
                        if after.contains(x) {
                            let k = choose|k: int| 0 <= k < after.len() && after[k] == x;
                            let m = if k < i {
                                k
                            } else {
                                k + 1
                            };
                            assert(before[m] == x);
                            assert(before[m] != before[i as int]);
                        }
                        if before.contains(x) && x != name@ {
                            let m = choose|m: int| 0 <= m < before.len() && before[m] == x;
                            let k = if m < i {
                                m
                            } else {
                                m - 1
                            };
                            assert(after[k] == x);
                        }
                    }
                    assert(after.to_set() =~= before.to_set().remove(name@));
                    assert forall|a: int, b: int|
                        0 <= a < after.len() && 0 <= b < after.len() && a != b implies after[a]
                        != after[b] by {
                        let m = if a < i {
                            a
                        } else {
                            a + 1
                        };
                        let n = if b < i {
                            b
                        } else {
                            b + 1
                        };
                        assert(before[m] != before[n]);
                    }
                }
                return;
            }
            i = i + 1;
        }
        assert(!before.contains(name@)) by {
            if before.contains(name@) {
                let k = choose|k: int| 0 <= k < before.len() && before[k] == name@;
                assert(before[k] == name@);
            }
        }
        assert(before.to_set().remove(name@) =~= before.to_set());
    }

    /// Removes every name.
    pub fn clear(&mut self)
        ensures
            final(self).wf(),
            final(self)@ == Set::<Seq<char>>::empty(),
    {
        self.names.clear();
        assert(texts(self.names@) =~= Seq::<Seq<char>>::empty());
        assert(self@ =~= Set::<Seq<char>>::empty());
    }

    /// The names in order.
    pub fn sorted(&self) -> (r: Vec<String>)
        requires
            self.wf(),
        ensures
            lists(texts(r@), self@),
    {
        let ghost all = texts(self.names@);
        let mut keys: Vec<Vec<char>> = Vec::new();
        let mut i: usize = 0;
        while i < self.names.len()
            invariant
                i <= self.names@.len(),
                all == texts(self.names@),
                keys_of(keys@) =~= all.take(i as int),
            decreases self.names@.len() - i,
        {
            let ghost before = keys_of(keys@);
            let key = chars_of(self.names[i].as_str());
            let ghost k = key@;
            keys.push(key);
            assert(keys_of(keys@) =~= before.push(k));
            i = i + 1;
        }
        assert(keys_of(keys@) =~= all);
        let order = order_of(&keys);
        let ghost p = places(order@);
        let mut out: Vec<String> = Vec::new();
        let mut j: usize = 0;
        while j < order.len()
            invariant
                j <= order@.len(),
                p == places(order@),
                all == texts(self.names@),
                is_order(all, p),
                texts(out@) =~= in_order_of(all, p).take(j as int),
            decreases order@.len() - j,
        {
            let at: usize = order[j];
            assert(at == p[j as int]);
            assert(0 <= p[j as int] < all.len());
            let ghost before = texts(out@);
            let name = copy_text(self.names[at].as_str());
            let ghost t = name@;
            out.push(name);
            assert(texts(out@) =~= before.push(t));
            j = j + 1;
        }
        proof {
            let r = texts(out@);
            assert(r =~= in_order_of(all, p));
            assert forall|a: int, b: int| 0 <= a < b < r.len() implies precedes(
                #[trigger] r[a],
                #[trigger] r[b],
            ) by {
                assert(sorts_before(all, p[a], p[b]));
                if all[p[a]] == all[p[b]] {
                    lemma_precedes_total(all[p[a]], all[p[a]]);
                    assert(p[a] < p[b]);
                    assert(all[p[a]] != all[p[b]]);
                }
            }
            assert forall|x: Seq<char>| r.to_set().contains(x) == self@.contains(x) by {
                if r.contains(x) {
                    let k = choose|k: int| 0 <= k < r.len() && r[k] == x;
                    assert(0 <= p[k] < all.len());
                    assert(all[p[k]] == x);
                }
                if all.contains(x) {
                    let item = choose|k: int| 0 <= k < all.len() && all[k] == x;
                    let place = law_order_is_complete(all, p, item);
                    assert(r[place] == x);
                }
            }
            assert(r.to_set() =~= self@);
        }
        out
    }
}

/// Whether a sequence lists a set of names in order, each once.
pub open spec fn lists(v: Seq<Seq<char>>, names: Set<Seq<char>>) -> bool {
    &&& forall|i: int, j: int| 0 <= i < j < v.len() ==> precedes(#[trigger] v[i], #[trigger] v[j])
    &&& v.to_set() == names
}

/// A set of names is listed in one way only.
pub proof fn law_listing_is_unique(v: Seq<Seq<char>>, w: Seq<Seq<char>>, names: Set<Seq<char>>)
    requires
        lists(v, names),
        lists(w, names),
    ensures
        v == w,
    decreases v.len(),
{
    if v.len() == 0 {
        if w.len() > 0 {
            assert(w.to_set().contains(w[0]));
            assert(v.contains(w[0]));
        }
        assert(v =~= w);
    } else {
        assert(v.to_set().contains(v.last()));
        assert(w.contains(v.last()));
        let i = choose|i: int| 0 <= i < w.len() && w[i] == v.last();
        assert(w.to_set().contains(w.last()));
        assert(v.contains(w.last()));
        let j = choose|j: int| 0 <= j < v.len() && v[j] == w.last();
        // The last name of either is the greatest.
        lemma_precedes_total(v.last(), w.last());
        if v.last() != w.last() {
            assert(precedes(w[i], w[w.len() - 1]));
            assert(precedes(v[j], v[v.len() - 1]));
        }
        let a = v.drop_last();
        let b = w.drop_last();
        let rest = names.remove(v.last());
        lemma_listing_shrinks(v, names);
        lemma_listing_shrinks(w, names);
        law_listing_is_unique(a, b, rest);
        assert(v =~= a.push(v.last()));
        assert(w =~= b.push(w.last()));
    }
}

proof fn lemma_listing_shrinks(v: Seq<Seq<char>>, names: Set<Seq<char>>)
    requires
        v.len() > 0,
        lists(v, names),
    ensures
        lists(v.drop_last(), names.remove(v.last())),
{
    let a = v.drop_last();
    assert forall|x: Seq<char>| a.to_set().contains(x) == names.remove(v.last()).contains(x) by {
        if a.contains(x) {
            let k = choose|k: int| 0 <= k < a.len() && a[k] == x;
            assert(v[k] == x);
            assert(v.contains(x));
            assert(v.to_set().contains(x));
            assert(precedes(v[k], v[v.len() - 1]));
            lemma_precedes_total(x, x);
        }
        if names.remove(v.last()).contains(x) {
            assert(v.to_set().contains(x));
            let k = choose|k: int| 0 <= k < v.len() && v[k] == x;
            assert(a[k] == x);
        }
    }
    assert(a.to_set() =~= names.remove(v.last()));
}

} // verus!
