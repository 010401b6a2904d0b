//! A string-keyed map that keeps its entries in key order with no key twice:
//! the props of a component and the attributes of an HTML tag.
use vstd::prelude::*;

use crate::text::{compare_text, lemma_text_lt_asymmetric, lemma_text_lt_transitive, text_lt, Order};

verus! {

/// Entries in strictly increasing key order.
#[derive(Debug, Clone, PartialEq)]
pub struct StrMap<V> {
    entries: Vec<(String, V)>,
}

/// The value stored under `k` in an association list, if any.
pub open spec fn assoc_get<V>(s: Seq<(Seq<char>, V)>, k: Seq<char>) -> Option<V>
    decreases s.len(),
{
    if s.len() == 0 {
        None
    } else if s[0].0 == k {
        Some(s[0].1)
    } else {
        assoc_get(s.drop_first(), k)
    }
}

/// Keys strictly increase along the list.
pub open spec fn keys_sorted<V>(s: Seq<(Seq<char>, V)>) -> bool {
    forall|i: int, j: int| 0 <= i < j < s.len() ==> text_lt(#[trigger] s[i].0, #[trigger] s[j].0)
}

/// `s` with `(k, v)` put in key order, replacing any entry under `k`.
pub open spec fn assoc_insert<V>(s: Seq<(Seq<char>, V)>, k: Seq<char>, v: V) -> Seq<(Seq<char>, V)>
    decreases s.len(),
{
    if s.len() == 0 {
        seq![(k, v)]
    } else if s[0].0 == k {
        seq![(k, v)] + s.drop_first()
    } else if text_lt(k, s[0].0) {
        seq![(k, v)] + s
    } else {
        seq![s[0]] + assoc_insert(s.drop_first(), k, v)
    }
}

/// A read after an insertion gives back what was written under that key,
/// and what was there before under every other key.
pub proof fn law_get_after_insert<V>(s: Seq<(Seq<char>, V)>, k: Seq<char>, v: V, other: Seq<char>)
    ensures
        assoc_get(assoc_insert(s, k, v), k) == Some(v),
        other != k ==> assoc_get(assoc_insert(s, k, v), other) == assoc_get(s, other),
    decreases s.len(),
{
    if s.len() == 0 {
    } else if s[0].0 == k {
        assert((seq![(k, v)] + s.drop_first()).drop_first() =~= s.drop_first());
    } else if text_lt(k, s[0].0) {
        assert((seq![(k, v)] + s).drop_first() =~= s);
    } else {
        let rest = assoc_insert(s.drop_first(), k, v);
        law_get_after_insert(s.drop_first(), k, v, other);
        assert((seq![s[0]] + rest).drop_first() =~= rest);
    }
}

/// The entries with `f` applied to each value.
pub open spec fn map_entries<V, W>(s: Seq<(Seq<char>, V)>, f: spec_fn(V) -> W) -> Seq<(Seq<char>, W)> {
    s.map_values(|e: (Seq<char>, V)| (e.0, f(e.1)))
}

/// Mapping the values commutes with an insertion.
pub proof fn lemma_map_entries_insert<V, W>(s: Seq<(Seq<char>, V)>, k: Seq<char>, v: V, f: spec_fn(V) -> W)
    ensures
        map_entries(assoc_insert(s, k, v), f) == assoc_insert(map_entries(s, f), k, f(v)),
    decreases s.len(),
{
    let m = map_entries(s, f);
    if s.len() == 0 {
        assert(map_entries(assoc_insert(s, k, v), f) =~= seq![(k, f(v))]);
    } else {
        assert(m[0] == (s[0].0, f(s[0].1)));
        assert(m.drop_first() =~= map_entries(s.drop_first(), f));
        if s[0].0 == k {
            assert(map_entries(assoc_insert(s, k, v), f) =~= seq![(k, f(v))] + m.drop_first());
        } else if text_lt(k, s[0].0) {
            assert(map_entries(assoc_insert(s, k, v), f) =~= seq![(k, f(v))] + m);
        } else {
            lemma_map_entries_insert(s.drop_first(), k, v, f);
            assert(map_entries(assoc_insert(s, k, v), f) =~= seq![m[0]] + map_entries(assoc_insert(s.drop_first(), k, v), f));
        }
    }
}

/// Mapping the values commutes with a lookup.
pub proof fn lemma_map_entries_get<V, W>(s: Seq<(Seq<char>, V)>, k: Seq<char>, f: spec_fn(V) -> W)
    ensures
        assoc_get(map_entries(s, f), k) == match assoc_get(s, k) {
            Some(v) => Some(f(v)),
            None => None,
        },
    decreases s.len(),
{
    if s.len() > 0 {
        assert(map_entries(s, f).drop_first() =~= map_entries(s.drop_first(), f));
        lemma_map_entries_get(s.drop_first(), k, f);
    }
}

impl<V> View for StrMap<V> {
    type V = Seq<(Seq<char>, V)>;

    closed spec fn view(&self) -> Seq<(Seq<char>, V)> {
        self.entries@.map_values(|e: (String, V)| (e.0@, e.1))
    }
}

proof fn lemma_insert_sorted<V>(s: Seq<(Seq<char>, V)>, k: Seq<char>, v: V)
    requires
        keys_sorted(s),
    ensures
        keys_sorted(assoc_insert(s, k, v)),
        assoc_insert(s, k, v).len() >= 1,
        forall|i: int| 0 <= i < assoc_insert(s, k, v).len() ==>
            (#[trigger] assoc_insert(s, k, v)[i]).0 == k || exists|j: int| 0 <= j < s.len() && s[j].0 == assoc_insert(s, k, v)[i].0,
    decreases s.len(),
{
    let r = assoc_insert(s, k, v);
    if s.len() == 0 {
    } else if s[0].0 == k {
        assert forall|i: int, j: int| 0 <= i < j < r.len() implies text_lt(#[trigger] r[i].0, #[trigger] r[j].0) by {
            if i == 0 {
                assert(r[j] == s[j]);
            } else {
                assert(r[i] == s[i] && r[j] == s[j]);
            }
        }
        assert forall|i: int| 0 <= i < r.len() implies (#[trigger] r[i]).0 == k || exists|j: int| 0 <= j < s.len() && s[j].0 == r[i].0 by {
            if i > 0 {
                assert(r[i] == s[i]);
            }
        }
    } else if text_lt(k, s[0].0) {
        assert forall|i: int, j: int| 0 <= i < j < r.len() implies text_lt(#[trigger] r[i].0, #[trigger] r[j].0) by {
            if i == 0 {
                assert(r[j] == s[j - 1]);
                if j > 1 {
                    lemma_text_lt_transitive(k, s[0].0, s[j - 1].0);
                }
            } else {
                assert(r[i] == s[i - 1] && r[j] == s[j - 1]);
            }
        }
        assert forall|i: int| 0 <= i < r.len() implies (#[trigger] r[i]).0 == k || exists|j: int| 0 <= j < s.len() && s[j].0 == r[i].0 by {
            if i > 0 {
                assert(r[i] == s[i - 1]);
            }
        }
    } else {
        let t = s.drop_first();
        assert(keys_sorted(t)) by {
            assert forall|i: int, j: int| 0 <= i < j < t.len() implies text_lt(#[trigger] t[i].0, #[trigger] t[j].0) by {
                assert(t[i] == s[i + 1] && t[j] == s[j + 1]);
            }
        }
        lemma_insert_sorted(t, k, v);
        let rt = assoc_insert(t, k, v);
        crate::text::lemma_text_lt_total(k, s[0].0);
        assert(text_lt(s[0].0, k));
        assert forall|i: int, j: int| 0 <= i < j < r.len() implies text_lt(#[trigger] r[i].0, #[trigger] r[j].0) by {
            if i == 0 {
                assert(r[j] == rt[j - 1]);
                let x = rt[j - 1].0;
                if x == k {
                } else {
                    let m = choose|m: int| 0 <= m < t.len() && t[m].0 == x;
                    assert(t[m] == s[m + 1]);
                }
            } else {
                assert(r[i] == rt[i - 1] && r[j] == rt[j - 1]);
            }
        }
        assert forall|i: int| 0 <= i < r.len() implies (#[trigger] r[i]).0 == k || exists|j: int| 0 <= j < s.len() && s[j].0 == r[i].0 by {
            if i == 0 {
                assert(s[0].0 == r[0].0);
            } else {
                assert(r[i] == rt[i - 1]);
                if rt[i - 1].0 != k {
                    let m = choose|m: int| 0 <= m < t.len() && t[m].0 == rt[i - 1].0;
                    assert(t[m] == s[m + 1]);
                }
            }
        }
    }
}

impl<V> StrMap<V> {
    /// Keys strictly increase: sorted, and no key twice.
    pub open spec fn wf(&self) -> bool {
        keys_sorted(self@)
    }

    /// The empty map.
    pub fn new() -> (r: Self)
        ensures
            r@ == Seq::<(Seq<char>, V)>::empty(),
            r.wf(),
    {
        let r = StrMap { entries: Vec::new() };
        assert(r@ =~= Seq::<(Seq<char>, V)>::empty());
        r
    }

    /// Number of entries.
    pub fn len(&self) -> (r: usize)
        ensures
            r == self@.len(),
    {
        self.entries.len()
    }

    /// The key and value of entry `i`, in key order.
    pub fn entry(&self, i: usize) -> (r: (&String, &V))
        requires
            i < self@.len(),
        ensures
            r.0@ == self@[i as int].0,
            *r.1 == self@[i as int].1,
    {
        let e = &self.entries[i];
        (&e.0, &e.1)
    }

    /// The value under `key`, if any.
    pub fn get(&self, key: &str) -> (r: Option<&V>)
        ensures
            match r {
                Some(v) => assoc_get(self@, key@) == Some(*v),
                None => assoc_get(self@, key@) is None,
            },
    {
        let mut i: usize = 0;
        assert(self@.skip(0) =~= self@);
        while i < self.entries.len()
            invariant
                i <= self@.len(),
                assoc_get(self@, key@) == assoc_get(self@.skip(i as int), key@),
            decreases self@.len() - i,
        {
            let e = &self.entries[i];
            proof {
                assert(self@.skip(i as int)[0] == self@[i as int]);
                assert(self@.skip(i as int).drop_first() =~= self@.skip(i + 1));
            }
            if crate::text::text_eq(&e.0, key) {
                return Some(&e.1);
            }
            i += 1;
        }
        None
    }

    /// Whether `key` has an entry.
    pub fn contains_key(&self, key: &str) -> (r: bool)
        ensures
            r == (assoc_get(self@, key@) is Some),
    {
        match self.get(key) {
            Some(_) => true,
            None => false,
        }
    }

    /// Puts `value` under `key`, replacing an earlier value there.
    pub fn insert(&mut self, key: String, value: V)
        requires
            old(self).wf(),
        ensures
            final(self).wf(),
            final(self)@ == assoc_insert(old(self)@, key@, value),
    {
        let ghost s0 = self@;
        let mut i: usize = 0;
        let mut done = false;
        while !done && i < self.entries.len()
            invariant
                i <= self@.len(),
                self@ == s0,
                keys_sorted(s0),
                forall|j: int| 0 <= j < i ==> text_lt(#[trigger] s0[j].0, key@),
                done ==> i < s0.len() && !text_lt(s0[i as int].0, key@),
            decreases self@.len() - i + (if done { 0int } else { 1int }),
        {
            let o = compare_text(&self.entries[i].0, &key);
            if o != Order::Less {
                done = true;
            } else {
                i += 1;
            }
        }
        proof {
            lemma_insert_sorted(s0, key@, value);
            lemma_assoc_insert_split(s0, key@, value, i as int);
        }
        if i < self.entries.len() && crate::text::text_eq(&self.entries[i].0, &key) {
            let ghost before = self.entries@;
            self.entries.remove(i);
            self.entries.insert(i, (key, value));
            proof {
                assert(self@ =~= s0.take(i as int) + seq![(key@, value)] + s0.skip(i + 1));
            }
        } else {
            self.entries.insert(i, (key, value));
            proof {
                assert(self@ =~= s0.take(i as int) + seq![(key@, value)] + s0.skip(i as int));
            }
        }
    }
}

/// Where an insertion lands: after the keys below it, replacing an equal key.
proof fn lemma_assoc_insert_split<V>(s: Seq<(Seq<char>, V)>, k: Seq<char>, v: V, i: int)
    requires
        keys_sorted(s),
        0 <= i <= s.len(),
        forall|j: int| 0 <= j < i ==> text_lt(#[trigger] s[j].0, k),
        i < s.len() ==> !text_lt(s[i].0, k),
    ensures
        i < s.len() && s[i].0 == k ==> assoc_insert(s, k, v) == s.take(i) + seq![(k, v)] + s.skip(i + 1),
        !(i < s.len() && s[i].0 == k) ==> assoc_insert(s, k, v) == s.take(i) + seq![(k, v)] + s.skip(i),
    decreases i,
{
    if i == 0 {
        if s.len() > 0 && s[0].0 != k {
            crate::text::lemma_text_lt_total(k, s[0].0);
        }
        assert(s.skip(0) =~= s);
        if s.len() > 0 {
            assert(s.skip(1) =~= s.drop_first());
        }
        assert(s.take(0) =~= Seq::<(Seq<char>, V)>::empty());
        assert(assoc_insert(s, k, v) =~= s.take(i) + seq![(k, v)] + s.skip(i) || (s.len() > 0 && s[0].0 == k));
    } else {
        let t = s.drop_first();
        assert(keys_sorted(t)) by {
            assert forall|a: int, b: int| 0 <= a < b < t.len() implies text_lt(#[trigger] t[a].0, #[trigger] t[b].0) by {
                assert(t[a] == s[a + 1] && t[b] == s[b + 1]);
            }
        }
        assert forall|j: int| 0 <= j < i - 1 implies text_lt(#[trigger] t[j].0, k) by {
            assert(t[j] == s[j + 1]);
        }
        lemma_assoc_insert_split(t, k, v, i - 1);
        crate::text::lemma_text_lt_irreflexive(k);
        assert(s[0].0 != k);
        lemma_text_lt_asymmetric(s[0].0, k);
        assert(s.take(i) =~= seq![s[0]] + t.take(i - 1));
        assert(s.skip(i) =~= t.skip(i - 1));
        if i < s.len() {
            assert(s.skip(i + 1) =~= t.skip(i));
        }
    }
}

impl<V> Default for StrMap<V> {
    fn default() -> (r: Self)
        ensures
            r@ == Seq::<(Seq<char>, V)>::empty(),
    {
        StrMap::new()
    }
}

} // verus!
