//! What a user's input becomes before it reaches the store: the library as
//! typed, and the tags that are offered for choosing.

use crate::registry::{TagDescriptor, TagView};
use crate::text::{
    compare, lemma_text_lt_asymmetric, lemma_text_lt_total, lemma_text_lt_transitive, text_lt,
    Rank,
};
use vstd::prelude::*;
use vstd::seq_lib::{to_multiset_build, to_multiset_insert};

verus! {

/// What `str::trim` returns for a string, as a function of the string.
pub uninterp spec fn trim_text(s: Seq<char>) -> Seq<char>;

/// The library that a typed text names: none where the text is empty.
pub open spec fn library_named(text: Seq<char>) -> Option<Seq<char>> {
    if text.len() == 0 {
        None
    } else {
        Some(text)
    }
}

/// Calls `str::trim`, which returns the string without its leading and
/// trailing whitespace. The contract gives that result a name and claims
/// nothing else of it.
#[verifier::external_body]
fn trimmed(text: &str) -> (r: String)
    ensures
        r@ == trim_text(text@),
{
    text.trim().to_string()
}

/// The library that a text names: none where it is empty. An image without
/// a library is told apart from one with a library by this alone.
pub fn library_from_text(text: String) -> (library: Option<String>)
    ensures
        library.deep_view() == library_named(text@),
{
    if text.as_str().is_empty() {
        None
    } else {
        Some(text)
    }
}

/// The library that a typed answer names: the answer is trimmed, and names
/// no library where nothing is left.
pub fn library_from_answer(answer: &str) -> (library: Option<String>)
    ensures
        library.deep_view() == library_named(trim_text(answer@)),
{
    library_from_text(trimmed(answer))
}

/// No element comes before a later one: descending, with repetitions.
pub open spec fn descending(s: Seq<Seq<char>>) -> bool {
    forall|i: int, j: int| 0 <= i < j < s.len() ==> !text_lt(#[trigger] s[i], #[trigger] s[j])
}

/// The names of a listing's descriptors, in the listing's order.
pub open spec fn tag_names(listing: Seq<TagView>) -> Seq<Seq<char>> {
    Seq::new(listing.len(), |i: int| listing[i].name)
}

/// Putting `x` behind what does not come before it and in front of what
/// comes before it keeps a descending sequence descending.
pub proof fn lemma_insert_descending(s: Seq<Seq<char>>, k: int, x: Seq<char>)
    requires
        descending(s),
        0 <= k <= s.len(),
        forall|i: int| 0 <= i < k ==> !text_lt(#[trigger] s[i], x),
        k < s.len() ==> text_lt(s[k], x),
    ensures
        descending(s.insert(k, x)),
{
    let after = s.insert(k, x);
    assert forall|i: int, j: int| 0 <= i < j < after.len() implies !text_lt(
        #[trigger] after[i],
        #[trigger] after[j],
    ) by {
        if j < k {
            assert(!text_lt(s[i], s[j]));
        } else if j == k {
            assert(!text_lt(s[i], x));
        } else if i < k {
            assert(!text_lt(s[i], s[j - 1]));
        } else if i == k {
            if j - 1 == k {
                lemma_text_lt_asymmetric(s[k], x);
            } else if text_lt(x, s[j - 1]) {
                lemma_text_lt_transitive(s[k], x, s[j - 1]);
                assert(!text_lt(s[k], s[j - 1]));
            }
        } else {
            assert(!text_lt(s[i - 1], s[j - 1]));
        }
    }
}

/// A collection of strings has at most one descending arrangement.
pub proof fn lemma_descending_unique(a: Seq<Seq<char>>, b: Seq<Seq<char>>)
    requires
        descending(a),
        descending(b),
        a.to_multiset() == b.to_multiset(),
    ensures
        a == b,
    decreases a.len(),
{
    a.to_multiset_ensures();
    b.to_multiset_ensures();
    if a.len() == 0 {
        assert(a =~= b);
    } else {
        assert(a.contains(a[0]));
        assert(a.to_multiset().count(a[0]) > 0);
        assert(b.to_multiset().count(a[0]) > 0);
        assert(b.contains(a[0]));
        let j = choose|j: int| 0 <= j < b.len() && b[j] == a[0];
        assert(b.contains(b[0]));
        assert(b.to_multiset().count(b[0]) > 0);
        assert(a.to_multiset().count(b[0]) > 0);
        assert(a.contains(b[0]));
        let i = choose|i: int| 0 <= i < a.len() && a[i] == b[0];
        if i > 0 {
            assert(!text_lt(a[0], a[i]));
        }
        if j > 0 {
            assert(!text_lt(b[0], b[j]));
        }
        lemma_text_lt_total(a[0], b[0]);
        assert(a[0] == b[0]);
        let ra = a.drop_first();
        let rb = b.drop_first();
        assert(ra =~= a.remove(0));
        assert(rb =~= b.remove(0));
        assert(descending(ra)) by {
            assert forall|p: int, q: int| 0 <= p < q < ra.len() implies !text_lt(
                #[trigger] ra[p],
                #[trigger] ra[q],
            ) by {
                assert(!text_lt(a[p + 1], a[q + 1]));
            }
        }
        assert(descending(rb)) by {
            assert forall|p: int, q: int| 0 <= p < q < rb.len() implies !text_lt(
                #[trigger] rb[p],
                #[trigger] rb[q],
            ) by {
                assert(!text_lt(b[p + 1], b[q + 1]));
            }
        }
        lemma_descending_unique(ra, rb);
        assert(a =~= seq![a[0]] + ra);
        assert(b =~= seq![b[0]] + rb);
    }
}

/// The tag names that a listing offers for choosing: every name of the
/// listing, as often as the listing holds it, in descending order.
pub fn offered_tags(listing: &Vec<TagDescriptor>) -> (names: Vec<String>)
    ensures
        descending(names.deep_view()),
        names.deep_view().to_multiset() == tag_names(listing.deep_view()).to_multiset(),
{
    let ghost all = tag_names(listing.deep_view());
    let mut names: Vec<String> = Vec::new();
    let mut i: usize = 0;
    assert(names.deep_view() =~= Seq::<Seq<char>>::empty());
    assert(all.take(0) =~= Seq::<Seq<char>>::empty());
    while i < listing.len()
        invariant
            i <= listing.len(),
            all == tag_names(listing.deep_view()),
            descending(names.deep_view()),
            names.deep_view().to_multiset() == all.take(i as int).to_multiset(),
        decreases listing.len() - i,
    {
        let name = listing[i].name.clone();
        let ghost before = names.deep_view();
        assert(name@ == all[i as int]);
        let mut k: usize = 0;
        while k < names.len()
            invariant
                k <= names.len(),
                before == names.deep_view(),
                forall|j: int| 0 <= j < k ==> !text_lt(#[trigger] before[j], name@),
            ensures
                k <= names.len(),
                k < names.len() ==> text_lt(before[k as int], name@),
            decreases names.len() - k,
        {
            assert(before[k as int] == names[k as int]@);
            match compare(names[k].as_str(), name.as_str()) {
                Rank::Before => {
                    break ;
                },
                _ => {
                    k += 1;
                },
            }
        }
        proof {
            lemma_insert_descending(before, k as int, name@);
            to_multiset_insert(before, k as int, name@);
            to_multiset_build(all.take(i as int), name@);
            assert(all.take(i + 1) =~= all.take(i as int).push(name@));
        }
        names.insert(k, name);
        assert(names.deep_view() =~= before.insert(k as int, all[i as int]));
        i += 1;
    }
    assert(all.take(i as int) =~= all);
    names
}

} // verus!
