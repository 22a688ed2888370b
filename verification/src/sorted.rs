//! Ordered sets of strings, held as strictly ascending vectors.

use crate::text::{
    compare, lemma_text_lt_asymmetric, lemma_text_lt_irreflexive, lemma_text_lt_transitive,
    text_lt, Rank,
};
use vstd::prelude::*;

verus! {

/// Every element comes before every later one: ascending, nothing twice.
pub open spec fn strictly_sorted(s: Seq<Seq<char>>) -> bool {
    forall|i: int, j: int| 0 <= i < j < s.len() ==> text_lt(#[trigger] s[i], #[trigger] s[j])
}

/// A strictly ascending sequence holds no element twice.
pub proof fn lemma_sorted_distinct(s: Seq<Seq<char>>)
    requires
        strictly_sorted(s),
    ensures
        s.no_duplicates(),
{
    assert forall|i: int, j: int| 0 <= i < s.len() && 0 <= j < s.len() && i != j implies s[i]
        != s[j] by {
        lemma_text_lt_irreflexive(s[i]);
        if i < j {
            assert(text_lt(s[i], s[j]));
        } else {
            assert(text_lt(s[j], s[i]));
        }
    }
}

/// A set of strings has at most one strictly ascending enumeration.
pub proof fn lemma_sorted_unique(a: Seq<Seq<char>>, b: Seq<Seq<char>>)
    requires
        strictly_sorted(a),
        strictly_sorted(b),
        a.to_set() == b.to_set(),
    ensures
        a == b,
    decreases a.len(),
{
    if a.len() == 0 {
        if b.len() > 0 {
            assert(b.to_set().contains(b[0]));
            assert(a.contains(b[0]));
        }
        assert(a =~= b);
    } else {
        assert(a.to_set().contains(a[0]));
        assert(b.contains(a[0]));
        let j = choose|j: int| 0 <= j < b.len() && b[j] == a[0];
        assert(b.to_set().contains(b[0]));
        assert(a.contains(b[0]));
        let i = choose|i: int| 0 <= i < a.len() && a[i] == b[0];
        if i > 0 && j > 0 {
            assert(text_lt(a[0], a[i]));
            assert(text_lt(b[0], b[j]));
            lemma_text_lt_asymmetric(a[0], b[0]);
        }
        assert(a[0] == b[0]);
        let ra = a.drop_first();
        let rb = b.drop_first();
        lemma_sorted_distinct(a);
        lemma_sorted_distinct(b);
        assert(strictly_sorted(ra)) by {
            assert forall|p: int, q: int| 0 <= p < q < ra.len() implies text_lt(
                #[trigger] ra[p],
                #[trigger] ra[q],
            ) by {
                assert(text_lt(a[p + 1], a[q + 1]));
            }
        }
        assert(strictly_sorted(rb)) by {
            assert forall|p: int, q: int| 0 <= p < q < rb.len() implies text_lt(
                #[trigger] rb[p],
                #[trigger] rb[q],
            ) by {
                assert(text_lt(b[p + 1], b[q + 1]));
            }
        }
        assert(ra.to_set() =~= rb.to_set()) by {
            assert forall|e: Seq<char>| ra.to_set().contains(e) implies rb.to_set().contains(
                e,
            ) by {
                let p = choose|p: int| 0 <= p < ra.len() && ra[p] == e;
                assert(a[p + 1] == e);
                assert(a.to_set().contains(e));
                assert(b.contains(e));
                let q = choose|q: int| 0 <= q < b.len() && b[q] == e;
                assert(q != 0);
                assert(rb[q - 1] == e);
            }
            assert forall|e: Seq<char>| rb.to_set().contains(e) implies ra.to_set().contains(
                e,
            ) by {
                let p = choose|p: int| 0 <= p < rb.len() && rb[p] == e;
                assert(b[p + 1] == e);
                assert(b.to_set().contains(e));
                assert(a.contains(e));
                let q = choose|q: int| 0 <= q < a.len() && a[q] == e;
                assert(q != 0);
                assert(ra[q - 1] == e);
            }
        }
        lemma_sorted_unique(ra, rb);
        assert(a =~= seq![a[0]] + ra);
        assert(b =~= seq![b[0]] + rb);
    }
}

/// Putting `x` where everything before it is smaller and what follows is
/// larger keeps a strictly ascending sequence ascending, and adds `x` to its
/// elements, which did not hold it.
pub proof fn lemma_insert_sorted(s: Seq<Seq<char>>, i: int, x: Seq<char>)
    requires
        strictly_sorted(s),
        0 <= i <= s.len(),
        forall|k: int| 0 <= k < i ==> text_lt(#[trigger] s[k], x),
        i < s.len() ==> text_lt(x, s[i]),
    ensures
        strictly_sorted(s.insert(i, x)),
        s.insert(i, x).to_set() == s.to_set().insert(x),
        !s.contains(x),
{
    lemma_text_lt_irreflexive(x);
    assert forall|k: int| 0 <= k < s.len() implies s[k] != x by {
        if k < i {
            assert(text_lt(s[k], x));
        } else if k > i {
            assert(text_lt(s[i], s[k]));
            lemma_text_lt_transitive(x, s[i], s[k]);
        }
    }
    let after = s.insert(i, x);
    assert forall|p: int, q: int| 0 <= p < q < after.len() implies text_lt(
        #[trigger] after[p],
        #[trigger] after[q],
    ) by {
        if q < i {
            assert(text_lt(s[p], s[q]));
        } else if q == i {
            assert(text_lt(s[p], x));
        } else if p < i {
            assert(text_lt(s[p], s[q - 1]));
        } else if p == i {
            if q - 1 > i {
                assert(text_lt(s[i], s[q - 1]));
                lemma_text_lt_transitive(x, s[i], s[q - 1]);
            }
        } else {
            assert(text_lt(s[p - 1], s[q - 1]));
        }
    }
    assert(after.to_set() =~= s.to_set().insert(x)) by {
        assert forall|e: Seq<char>| after.to_set().contains(e) implies s.to_set().insert(
            x,
        ).contains(e) by {
            let p = choose|p: int| 0 <= p < after.len() && after[p] == e;
            if p < i {
                assert(s[p] == e);
            } else if p > i {
                assert(s[p - 1] == e);
            }
        }
        assert forall|e: Seq<char>| s.to_set().insert(x).contains(e) implies after.to_set().contains(
            e,
        ) by {
            if e == x {
                assert(after[i] == e);
            } else {
                let p = choose|p: int| 0 <= p < s.len() && s[p] == e;
                if p < i {
                    assert(after[p] == e);
                } else {
                    assert(after[p + 1] == e);
                }
            }
        }
    }
}

/// Taking an element out of a strictly ascending sequence leaves it
/// ascending, with that element gone from its elements.
pub proof fn lemma_remove_sorted(s: Seq<Seq<char>>, i: int)
    requires
        strictly_sorted(s),
        0 <= i < s.len(),
    ensures
        strictly_sorted(s.remove(i)),
        s.remove(i).to_set() == s.to_set().remove(s[i]),
{
    lemma_sorted_distinct(s);
    let after = s.remove(i);
    assert forall|p: int, q: int| 0 <= p < q < after.len() implies text_lt(
        #[trigger] after[p],
        #[trigger] after[q],
    ) by {
        let sp = if p < i { p } else { p + 1 };
        let sq = if q < i { q } else { q + 1 };
        assert(text_lt(s[sp], s[sq]));
    }
    assert(after.to_set() =~= s.to_set().remove(s[i])) by {
        assert forall|e: Seq<char>| after.to_set().contains(e) implies s.to_set().remove(
            s[i],
        ).contains(e) by {
            let p = choose|p: int| 0 <= p < after.len() && after[p] == e;
            let sp = if p < i { p } else { p + 1 };
            assert(s[sp] == e);
        }
        assert forall|e: Seq<char>| s.to_set().remove(s[i]).contains(e) implies after.to_set().contains(
            e,
        ) by {
            let p = choose|p: int| 0 <= p < s.len() && s[p] == e;
            if p < i {
                assert(after[p] == e);
            } else {
                assert(after[p - 1] == e);
            }
        }
    }
}

/// Puts `x` at its place in a strictly ascending vector, unless it is there
/// already. Says whether the vector grew.
pub(crate) fn insert_sorted(v: &mut Vec<String>, x: String) -> (added: bool)
    requires
        strictly_sorted(old(v).deep_view()),
    ensures
        strictly_sorted(final(v).deep_view()),
        final(v).deep_view().to_set() == old(v).deep_view().to_set().insert(x@),
        added == !old(v).deep_view().contains(x@),
        !added ==> final(v).deep_view() == old(v).deep_view(),
{
    let ghost before = v.deep_view();
    let mut i: usize = 0;
    while i < v.len()
        invariant
            i <= v.len(),
            v.deep_view() == before,
            strictly_sorted(before),
            forall|k: int| 0 <= k < i ==> text_lt(#[trigger] before[k], x@),
        ensures
            i < v.len() ==> text_lt(x@, before[i as int]),
        decreases v.len() - i,
    {
        match compare(v[i].as_str(), x.as_str()) {
            Rank::Before => {
                assert(before[i as int] == v[i as int]@);
                i += 1;
            },
            Rank::Same => {
                assert(before[i as int] == x@);
                assert(before.to_set().insert(x@) =~= before.to_set());
                return false;
            },
            Rank::After => {
                assert(before[i as int] == v[i as int]@);
                break;
            },
        }
    }
    proof {
        lemma_insert_sorted(before, i as int, x@);
    }
    v.insert(i, x);
    assert(v.deep_view() =~= before.insert(i as int, x@));
    true
}

} // verus!
