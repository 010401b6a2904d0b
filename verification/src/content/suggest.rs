//! "Did you mean" suggestions: the closest candidate within edit distance
//! two, compared case-insensitively.
use vstd::prelude::*;

use crate::text::chars_of;

verus! {

/// What `str::to_lowercase` gives for a string (Unicode lowercase mapping).
pub uninterp spec fn to_lower(s: Seq<char>) -> Seq<char>;

/// Calls `str::to_lowercase`; its result is named [`to_lower`] of the
/// input, since the Unicode case mapping is a function of the text alone.
#[verifier::external_body]
fn lowercase(s: &str) -> (r: String)
    ensures
        r@ == to_lower(s@),
{
    s.to_lowercase()
}

pub open spec fn min3(x: nat, y: nat, z: nat) -> nat {
    let m = if x <= y { x } else { y };
    if m <= z { m } else { z }
}

/// Levenshtein distance: the fewest single-character insertions,
/// deletions and substitutions that turn `a` into `b`.
pub open spec fn levenshtein(a: Seq<char>, b: Seq<char>) -> nat
    decreases a.len() + b.len(),
{
    if a.len() == 0 {
        b.len()
    } else if b.len() == 0 {
        a.len()
    } else if a.last() == b.last() {
        levenshtein(a.drop_last(), b.drop_last())
    } else {
        1 + min3(
            levenshtein(a.drop_last(), b.drop_last()),
            levenshtein(a.drop_last(), b),
            levenshtein(a, b.drop_last()),
        )
    }
}

proof fn lemma_levenshtein_bound(a: Seq<char>, b: Seq<char>)
    ensures
        levenshtein(a, b) <= if a.len() <= b.len() { b.len() } else { a.len() },
    decreases a.len() + b.len(),
{
    if a.len() > 0 && b.len() > 0 {
        lemma_levenshtein_bound(a.drop_last(), b.drop_last());
    }
}

/// A text is at distance zero from itself.
pub proof fn law_levenshtein_identity(a: Seq<char>)
    ensures
        levenshtein(a, a) == 0,
    decreases a.len(),
{
    if a.len() > 0 {
        law_levenshtein_identity(a.drop_last());
    }
}

/// Turning a text into the empty one, or the empty one into a text, takes
/// one edit per character.
pub proof fn law_levenshtein_from_empty(a: Seq<char>)
    ensures
        levenshtein(a, Seq::empty()) == a.len(),
        levenshtein(Seq::empty(), a) == a.len(),
{
}

/// The distance does not depend on which text is the source.
pub proof fn law_levenshtein_symmetric(a: Seq<char>, b: Seq<char>)
    ensures
        levenshtein(a, b) == levenshtein(b, a),
    decreases a.len() + b.len(),
{
    if a.len() > 0 && b.len() > 0 {
        law_levenshtein_symmetric(a.drop_last(), b.drop_last());
        law_levenshtein_symmetric(a.drop_last(), b);
        law_levenshtein_symmetric(a, b.drop_last());
    }
}

/// The edit distance between `a` and `b`.
pub fn edit_distance(a: &[char], b: &[char]) -> (r: usize)
    ensures
        r == levenshtein(a@, b@),
{
    let n = b.len();
    let mut row: Vec<usize> = Vec::new();
    let mut j: usize = 0;
    while j < n
        invariant
            n == b@.len(),
            j <= n,
            row@.len() == j,
            forall|k: int| 0 <= k < j ==> row@[k] == levenshtein(Seq::<char>::empty(), b@.take(k)),
        decreases n - j,
    {
        row.push(j);
        j += 1;
    }
    row.push(n);
    let alen = a.len();
    let mut i: usize = 0;
    while i < alen
        invariant
            alen == a@.len(),
            n == b@.len(),
            i <= a@.len(),
            row@.len() == n + 1,
            forall|k: int| 0 <= k <= n ==> row@[k] == levenshtein(#[trigger] a@.take(i as int), b@.take(k)),
        decreases a@.len() - i,
    {
        let ghost ai = a@.take(i as int);
        let ghost an = a@.take(i + 1);
        assert(an.drop_last() =~= ai);
        assert(an.last() == a@[i as int]);
        proof {
            lemma_levenshtein_bound(ai, b@);
        }
        let ca = a[i];
        let mut diagonal = row[0];
        row.set(0, i + 1);
        let mut k: usize = 0;
        while k < n
            invariant
                n == b@.len(),
                alen == a@.len(),
                i < a@.len(),
                ai == a@.take(i as int),
                an == a@.take(i + 1),
                an.drop_last() == ai,
                an.last() == ca,
                k <= n,
                row@.len() == n + 1,
                diagonal == levenshtein(ai, b@.take(k as int)),
                forall|m: int| 0 <= m <= k ==> row@[m] == levenshtein(an, b@.take(m)),
                forall|m: int| k < m <= n ==> row@[m] == levenshtein(ai, b@.take(m)),
            decreases n - k,
        {
            assert(i < alen);
            let ghost bk = b@.take(k + 1);
            assert(bk.drop_last() =~= b@.take(k as int));
            assert(bk.last() == b@[k as int]);
            proof {
                lemma_levenshtein_bound(ai, b@.take(k as int));
                lemma_levenshtein_bound(ai, bk);
                lemma_levenshtein_bound(an, b@.take(k as int));
            }
            assert(ai.len() == i);
            assert(b@.take(k as int).len() == k);
            assert(i < usize::MAX);
            assert(levenshtein(ai, b@.take(k as int)) < usize::MAX);
            let up = row[k + 1];
            let left = row[k];
            let value = if ca == b[k] {
                diagonal
            } else {
                let m1 = if diagonal <= up { diagonal } else { up };
                let m2 = if m1 <= left { m1 } else { left };
                1 + m2
            };
            row.set(k + 1, value);
            diagonal = up;
            k += 1;
        }
        i += 1;
        assert(a@.take(i as int) == an);
    }
    assert(a@.take(a@.len() as int) =~= a@);
    assert(b@.take(n as int) =~= b@);
    row[n]
}

/// The position of the closest candidate within edit distance two of
/// `t`, compared lowercase; on a tie the earliest.
pub open spec fn pick_closest(t: Seq<char>, cs: Seq<Seq<char>>) -> Option<int>
    decreases cs.len(),
{
    if cs.len() == 0 {
        None
    } else {
        let d = levenshtein(to_lower(t), to_lower(cs.last()));
        match pick_closest(t, cs.drop_last()) {
            None => if d <= 2 {
                Some(cs.len() - 1)
            } else {
                None
            },
            Some(k) => if d < levenshtein(to_lower(t), to_lower(cs[k])) {
                Some(cs.len() - 1)
            } else {
                Some(k)
            },
        }
    }
}

/// The suggested candidate, if any.
pub open spec fn suggestion(t: Seq<char>, cs: Seq<Seq<char>>) -> Option<Seq<char>> {
    match pick_closest(t, cs) {
        Some(k) => Some(cs[k]),
        None => None,
    }
}

pub open spec fn strs_view(v: Seq<&str>) -> Seq<Seq<char>> {
    v.map_values(|s: &str| s@)
}

/// The closest of `candidates` to `target`, compared lowercase, when one
/// lies within edit distance two; on a tie the earliest wins.
pub fn suggest<'a>(target: &str, candidates: &[&'a str]) -> (r: Option<&'a str>)
    ensures
        match r {
            Some(c) => suggestion(target@, strs_view(candidates@)) == Some(c@),
            None => suggestion(target@, strs_view(candidates@)) is None,
        },
{
    let ghost cs = strs_view(candidates@);
    let t = lowercase(target);
    let tc = chars_of(&t);
    let mut best: Option<(usize, usize)> = None;
    let mut j: usize = 0;
    while j < candidates.len()
        invariant
            j <= candidates@.len(),
            cs == strs_view(candidates@),
            tc@ == to_lower(target@),
            match best {
                Some((k, d)) => k < j && pick_closest(target@, cs.take(j as int)) == Some(k as int)
                    && d == levenshtein(tc@, to_lower(cs[k as int])),
                None => pick_closest(target@, cs.take(j as int)) is None,
            },
        decreases candidates@.len() - j,
    {
        let ghost cj = cs.take(j + 1);
        assert(cj.drop_last() =~= cs.take(j as int));
        assert(cj.last() == candidates@[j as int]@);
        let c = lowercase(candidates[j]);
        let cc = chars_of(&c);
        let d = edit_distance(&tc, &cc);
        match best {
            None => {
                if d <= 2 {
                    best = Some((j, d));
                }
            },
            Some((k, bd)) => {
                assert(cj[k as int] == cs[k as int]);
                if d < bd {
                    best = Some((j, d));
                }
            },
        }
        j += 1;
    }
    assert(cs.take(candidates@.len() as int) =~= cs);
    match best {
        Some((k, _d)) => Some(candidates[k]),
        None => None,
    }
}

} // verus!
