//! Sets of texts kept as strictly increasing lists: what the original builds
//! with ordered sets of strings (tag pages, purge scopes, slug listings).
use vstd::prelude::*;

use crate::text::{
    compare_text, lemma_text_lt_asymmetric, lemma_text_lt_irreflexive, lemma_text_lt_total,
    lemma_text_lt_transitive, text_lt, Order,
};

verus! {

/// The character sequences of a list of strings.
pub open spec fn views(v: Seq<String>) -> Seq<Seq<char>> {
    v.map_values(|s: String| s@)
}

/// Every element comes before the next: sorted with no repeats.
pub open spec fn strictly_sorted(s: Seq<Seq<char>>) -> bool {
    forall|i: int, j: int| 0 <= i < j < s.len() ==> text_lt(#[trigger] s[i], #[trigger] s[j])
}

/// The strictly sorted list of the elements of a finite set.
pub open spec fn sorted_list(set: Set<Seq<char>>) -> Seq<Seq<char>> {
    choose|s: Seq<Seq<char>>| strictly_sorted(s) && s.to_set() == set
}

proof fn lemma_sorted_first_is_least(s: Seq<Seq<char>>, x: Seq<char>)
    requires
        strictly_sorted(s),
        s.contains(x),
        s.len() > 0,
    ensures
        s[0] == x || text_lt(s[0], x),
{
    let i = choose|i: int| 0 <= i < s.len() && s[i] == x;
    if i > 0 {
        assert(text_lt(s[0], s[i]));
    }
}

/// Two strictly sorted lists with the same elements are the same list.
pub proof fn lemma_sorted_unique(a: Seq<Seq<char>>, b: Seq<Seq<char>>)
    requires
        strictly_sorted(a),
        strictly_sorted(b),
        a.to_set() == b.to_set(),
    ensures
        a == b,
    decreases a.len(),
{
    if a.len() == 0 {
        if b.len() > 0 {
            assert(b.to_set().contains(b[0]));
        }
        assert(a =~= b);
    } else {
        assert(a.to_set().contains(a[0]));
        assert(b.contains(a[0]));
        assert(b.len() > 0);
        assert(b.to_set().contains(b[0]));
        assert(a.contains(b[0]));
        lemma_sorted_first_is_least(a, b[0]);
        lemma_sorted_first_is_least(b, a[0]);
        if a[0] != b[0] {
            lemma_text_lt_asymmetric(a[0], b[0]);
        }
        let at = a.drop_first();
        let bt = b.drop_first();
        assert(strictly_sorted(at)) by {
            assert forall|i: int, j: int| 0 <= i < j < at.len() implies text_lt(#[trigger] at[i], #[trigger] at[j]) by {
                assert(at[i] == a[i + 1] && at[j] == a[j + 1]);
            }
        }
        assert(strictly_sorted(bt)) by {
            assert forall|i: int, j: int| 0 <= i < j < bt.len() implies text_lt(#[trigger] bt[i], #[trigger] bt[j]) by {
                assert(bt[i] == b[i + 1] && bt[j] == b[j + 1]);
            }
        }
        assert(at.to_set() =~= bt.to_set()) by {
            assert forall|x: Seq<char>| at.to_set().contains(x) implies bt.to_set().contains(x) by {
                let i = choose|i: int| 0 <= i < at.len() && at[i] == x;
                assert(a[i + 1] == x);
                assert(text_lt(a[0], x));
                lemma_text_lt_irreflexive(x);
                assert(a.to_set().contains(x));
                assert(b.contains(x));
                let j = choose|j: int| 0 <= j < b.len() && b[j] == x;
                assert(j != 0);
                assert(bt[j - 1] == x);
            }
            assert forall|x: Seq<char>| bt.to_set().contains(x) implies at.to_set().contains(x) by {
                let i = choose|i: int| 0 <= i < bt.len() && bt[i] == x;
                assert(b[i + 1] == x);
                assert(text_lt(b[0], x));
                lemma_text_lt_irreflexive(x);
                assert(b.to_set().contains(x));
                assert(a.contains(x));
                let j = choose|j: int| 0 <= j < a.len() && a[j] == x;
                assert(j != 0);
                assert(at[j - 1] == x);
            }
        }
        lemma_sorted_unique(at, bt);
        assert(a =~= seq![a[0]] + at);
        assert(b =~= seq![b[0]] + bt);
    }
}

/// A strictly sorted list is the sorted list of its elements.
pub proof fn lemma_sorted_list_of(s: Seq<Seq<char>>)
    requires
        strictly_sorted(s),
    ensures
        sorted_list(s.to_set()) == s,
{
    let t = sorted_list(s.to_set());
    assert(strictly_sorted(s) && s.to_set() == s.to_set());
    lemma_sorted_unique(t, s);
}

/// Adds `x` to a strictly sorted list, keeping it strictly sorted.
pub fn insert_sorted(v: &mut Vec<String>, x: String)
    requires
        strictly_sorted(views(old(v)@)),
    ensures
        strictly_sorted(views(final(v)@)),
        views(final(v)@).to_set() == views(old(v)@).to_set().insert(x@),
{
    let ghost s0 = views(v@);
    let mut i: usize = 0;
    let mut found = false;
    let mut stop = false;
    while !stop && i < v.len()
        invariant
            i <= v@.len(),
            views(v@) == s0,
            strictly_sorted(s0),
            forall|j: int| 0 <= j < i ==> text_lt(#[trigger] s0[j], x@),
            stop ==> i < s0.len() && !text_lt(s0[i as int], x@),
            found ==> stop && s0[i as int] == x@,
            stop && !found ==> text_lt(x@, s0[i as int]),
        decreases v@.len() - i + (if stop { 0int } else { 1int }),
    {
        let o = compare_text(&v[i], &x);
        assert(views(v@)[i as int] == v@[i as int]@);
        if o == Order::Equal {
            stop = true;
            found = true;
        } else if o == Order::Greater {
            stop = true;
        } else {
            i += 1;
        }
    }
    if found {
        proof {
            assert(s0.to_set().insert(x@) =~= s0.to_set()) by {
                assert(s0[i as int] == x@);
            }
        }
        return;
    }
    v.insert(i, x);
    proof {
        let s1 = views(v@);
        assert(s1 =~= s0.take(i as int) + seq![x@] + s0.skip(i as int));
        assert forall|a: int, b: int| 0 <= a < b < s1.len() implies text_lt(#[trigger] s1[a], #[trigger] s1[b]) by {
            if b < i {
                assert(s1[a] == s0[a] && s1[b] == s0[b]);
            } else if b == i {
                assert(s1[a] == s0[a]);
            } else if a < i {
                assert(s1[a] == s0[a] && s1[b] == s0[b - 1]);
                if b - 1 > i {
                    assert(text_lt(s0[i as int], s0[b - 1]));
                    lemma_text_lt_transitive(x@, s0[i as int], s0[b - 1]);
                }
                lemma_text_lt_transitive(s0[a], x@, s0[b - 1]);
            } else if a == i {
                assert(s1[b] == s0[b - 1]);
                if b - 1 > i {
                    lemma_text_lt_transitive(x@, s0[i as int], s0[b - 1]);
                }
            } else {
                assert(s1[a] == s0[a - 1] && s1[b] == s0[b - 1]);
            }
        }
        assert(s1.to_set() =~= s0.to_set().insert(x@)) by {
            assert forall|y: Seq<char>| s1.to_set().contains(y) implies s0.to_set().insert(x@).contains(y) by {
                let k = choose|k: int| 0 <= k < s1.len() && s1[k] == y;
                if k < i {
                    assert(s0[k] == y);
                } else if k > i {
                    assert(s0[k - 1] == y);
                }
            }
            assert forall|y: Seq<char>| s0.to_set().insert(x@).contains(y) implies s1.to_set().contains(y) by {
                if y == x@ {
                    assert(s1[i as int] == y);
                } else {
                    let k = choose|k: int| 0 <= k < s0.len() && s0[k] == y;
                    if k < i {
                        assert(s1[k] == y);
                    } else {
                        assert(s1[k + 1] == y);
                    }
                }
            }
        }
    }
}

/// The empty list is strictly sorted.
pub proof fn lemma_empty_sorted()
    ensures
        strictly_sorted(Seq::<Seq<char>>::empty()),
        Seq::<Seq<char>>::empty().to_set() == Set::<Seq<char>>::empty(),
{
    assert(Seq::<Seq<char>>::empty().to_set() =~= Set::<Seq<char>>::empty());
}

/// Appending an element adds it to the set of elements.
pub proof fn lemma_push_to_set<A>(s: Seq<A>, x: A)
    ensures
        s.push(x).to_set() == s.to_set().insert(x),
{
    assert forall|y: A| s.push(x).to_set().contains(y) implies s.to_set().insert(x).contains(y) by {
        let k = choose|k: int| 0 <= k < s.push(x).len() && s.push(x)[k] == y;
        if k < s.len() {
            assert(s[k] == y);
        }
    }
    assert forall|y: A| s.to_set().insert(x).contains(y) implies s.push(x).to_set().contains(y) by {
        if y == x {
            assert(s.push(x)[s.len() as int] == y);
        } else {
            let k = choose|k: int| 0 <= k < s.len() && s[k] == y;
            assert(s.push(x)[k] == y);
        }
    }
    assert(s.push(x).to_set() =~= s.to_set().insert(x));
}

} // verus!
