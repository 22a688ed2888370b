//! Digest-based tag aliasing: which tags a push of one requested tag
//! publishes.

use crate::registry::{TagDescriptor, TagView};
use crate::text::{contains_text, text_eq};
use vstd::prelude::*;
use vstd::string::StringExecFns;

verus! {

/// Whether the listing describes a tag of this name.
pub open spec fn described(listing: Seq<TagView>, tag: Seq<char>) -> bool {
    exists|i: int| 0 <= i < listing.len() && (#[trigger] listing[i]).name == tag
}

/// Whether `i` is the place of the first descriptor named `tag`.
pub open spec fn first_named_at(listing: Seq<TagView>, tag: Seq<char>, i: int) -> bool {
    &&& 0 <= i < listing.len()
    &&& listing[i].name == tag
    &&& forall|j: int| 0 <= j < i ==> (#[trigger] listing[j]).name != tag
}

/// The digest that decides the aliases of `tag`: that of the first
/// descriptor of this name. There is none where the listing does not
/// describe the tag, or describes it without a digest.
pub open spec fn alias_digest(listing: Seq<TagView>, tag: Seq<char>) -> Option<Seq<char>> {
    if exists|i: int| first_named_at(listing, tag, i) {
        listing[choose|i: int| first_named_at(listing, tag, i)].digest
    } else {
        None
    }
}

/// Membership in the digest equivalence class of `digest`.
pub open spec fn in_class(digest: Seq<char>) -> spec_fn(TagView) -> bool {
    |t: TagView| t.digest == Some(digest)
}

/// The name of a descriptor.
pub open spec fn name_of() -> spec_fn(TagView) -> Seq<char> {
    |t: TagView| t.name
}

/// The names of the descriptors that carry `digest`, in the listing's order.
pub open spec fn class_names(listing: Seq<TagView>, digest: Seq<char>) -> Seq<Seq<char>> {
    listing.filter(in_class(digest)).map_values(name_of())
}

/// A sequence without its repetitions: of each element the first occurrence
/// stays.
pub open spec fn unique(s: Seq<Seq<char>>) -> Seq<Seq<char>>
    decreases s.len(),
{
    if s.len() == 0 {
        s
    } else {
        let before = unique(s.drop_last());
        if before.contains(s.last()) {
            before
        } else {
            before.push(s.last())
        }
    }
}

/// The tags that a push of `tag` publishes: the tag itself, then every tag
/// of its digest equivalence class in the listing's order, each once.
pub open spec fn push_targets_text(listing: Seq<TagView>, tag: Seq<char>) -> Seq<Seq<char>> {
    match alias_digest(listing, tag) {
        Some(d) => unique(seq![tag] + class_names(listing, d)),
        None => seq![tag],
    }
}

/// Whether `name` is an alias of `tag`: the listing has a descriptor of
/// that name with the digest that decides the aliases of `tag`.
pub open spec fn is_alias(listing: Seq<TagView>, tag: Seq<char>, name: Seq<char>) -> bool {
    alias_digest(listing, tag) matches Some(d) && exists|i: int|
        0 <= i < listing.len() && (#[trigger] listing[i]).name == name && listing[i].digest
            == Some(d)
}

/// Removing repetitions keeps the elements and the first of them, and
/// leaves nothing twice.
pub proof fn lemma_unique(s: Seq<Seq<char>>)
    ensures
        unique(s).no_duplicates(),
        unique(s).to_set() == s.to_set(),
        s.len() > 0 ==> unique(s).len() > 0 && unique(s)[0] == s[0],
    decreases s.len(),
{
    if s.len() == 0 {
    } else {
        let head = s.drop_last();
        let before = unique(head);
        lemma_unique(head);
        assert(s =~= head.push(s.last()));
        assert forall|e: Seq<char>| unique(s).to_set().contains(e) <==> s.to_set().contains(e) by {
            vstd::seq_lib::lemma_seq_contains_after_push(head, s.last(), e);
            vstd::seq_lib::lemma_seq_contains_after_push(before, s.last(), e);
            assert(before.to_set().contains(e) <==> head.to_set().contains(e));
        }
        assert(unique(s).to_set() =~= s.to_set());
        if head.len() == 0 {
            assert(!before.to_set().contains(s.last()));
        }
    }
}

/// The names of a class are the names of the descriptors with its digest.
pub proof fn lemma_class_names(listing: Seq<TagView>, digest: Seq<char>, name: Seq<char>)
    ensures
        class_names(listing, digest).contains(name) <==> exists|i: int|
            0 <= i < listing.len() && (#[trigger] listing[i]).name == name && listing[i].digest
                == Some(digest),
{
    let members = listing.filter(in_class(digest));
    let found = class_names(listing, digest);
    if found.contains(name) {
        let k = choose|k: int| 0 <= k < found.len() && found[k] == name;
        assert(members[k].name == name);
        listing.lemma_filter_pred(in_class(digest), k);
        assert(members.contains(members[k]));
        listing.lemma_filter_contains_rev(in_class(digest), members[k]);
        let i = choose|i: int| 0 <= i < listing.len() && listing[i] == members[k];
        assert(listing[i].name == name && listing[i].digest == Some(digest));
    }
    if exists|i: int|
        0 <= i < listing.len() && (#[trigger] listing[i]).name == name && listing[i].digest
            == Some(digest) {
        let i = choose|i: int|
            0 <= i < listing.len() && (#[trigger] listing[i]).name == name && listing[i].digest
                == Some(digest);
        listing.lemma_filter_contains(in_class(digest), i);
        let k = choose|k: int| 0 <= k < members.len() && members[k] == listing[i];
        assert(found[k] == name);
    }
}

/// Aliasing is complete and exact: the targets of a push are the requested
/// tag, first, and its aliases, and nothing else; none occurs twice.
pub proof fn lemma_targets(listing: Seq<TagView>, tag: Seq<char>)
    ensures
        push_targets_text(listing, tag).len() > 0,
        push_targets_text(listing, tag)[0] == tag,
        push_targets_text(listing, tag).no_duplicates(),
        forall|name: Seq<char>| #[trigger]
            push_targets_text(listing, tag).contains(name) <==> name == tag || is_alias(
                listing,
                tag,
                name,
            ),
{
    let targets = push_targets_text(listing, tag);
    match alias_digest(listing, tag) {
        Some(d) => {
            let all = seq![tag] + class_names(listing, d);
            lemma_unique(all);
            assert(all[0] == tag);
            assert forall|name: Seq<char>| #[trigger]
                targets.contains(name) <==> name == tag || is_alias(listing, tag, name) by {
                lemma_class_names(listing, d, name);
                assert(targets.to_set().contains(name) <==> all.to_set().contains(name));
                if all.contains(name) {
                    let k = choose|k: int| 0 <= k < all.len() && all[k] == name;
                    if k > 0 {
                        assert(class_names(listing, d)[k - 1] == name);
                    }
                }
                if class_names(listing, d).contains(name) {
                    let k = choose|k: int|
                        0 <= k < class_names(listing, d).len() && class_names(listing, d)[k]
                            == name;
                    assert(all[k + 1] == name);
                }
            }
        },
        None => {
            assert(targets[0] == tag);
            assert forall|name: Seq<char>| #[trigger]
                targets.contains(name) <==> name == tag || is_alias(listing, tag, name) by {
                if targets.contains(name) {
                    let k = choose|k: int| 0 <= k < targets.len() && targets[k] == name;
                }
            }
        },
    }
}

/// A tag that the listing does not describe is pushed alone.
pub proof fn lemma_unknown_tag_alone(listing: Seq<TagView>, tag: Seq<char>)
    requires
        !described(listing, tag),
    ensures
        push_targets_text(listing, tag) == seq![tag],
{
    if exists|i: int| first_named_at(listing, tag, i) {
        let i = choose|i: int| first_named_at(listing, tag, i);
        assert(listing[i].name == tag);
    }
}

/// A tag described without a digest is pushed alone, whatever else the
/// listing holds: a missing digest matches nothing, not even another
/// missing digest.
pub proof fn lemma_null_digest_alone(listing: Seq<TagView>, tag: Seq<char>, i: int)
    requires
        first_named_at(listing, tag, i),
        listing[i].digest is None,
    ensures
        push_targets_text(listing, tag) == seq![tag],
{
    let j = choose|j: int| first_named_at(listing, tag, j);
    if j < i {
        assert(listing[j].name != tag);
    }
    if i < j {
        assert(listing[i].name != tag);
    }
}

/// Where tags `a` and `b` share a digest and tag `c` has another, a push of
/// `a` publishes `a` and `b`, in this order, and not `c`.
pub proof fn lemma_shared_digest_class(ta: TagView, tb: TagView, tc: TagView)
    requires
        ta.name != tb.name,
        ta.name != tc.name,
        tb.name != tc.name,
        ta.digest is Some,
        tb.digest == ta.digest,
        tc.digest != ta.digest,
    ensures
        push_targets_text(seq![ta, tb, tc], ta.name) == seq![ta.name, tb.name],
{
    let listing = seq![ta, tb, tc];
    let d = ta.digest->0;
    assert(first_named_at(listing, ta.name, 0));
    let j = choose|j: int| first_named_at(listing, ta.name, j);
    if j > 0 {
        assert(listing[0].name != ta.name);
    }
    assert(alias_digest(listing, ta.name) == Some(d));
    let p = in_class(d);
    let e = Seq::<TagView>::empty();
    assert(e.filter(p) =~= e) by {
        reveal(Seq::filter);
    }
    e.lemma_filter_push(ta, p);
    e.push(ta).lemma_filter_push(tb, p);
    e.push(ta).push(tb).lemma_filter_push(tc, p);
    assert(listing =~= e.push(ta).push(tb).push(tc));
    assert(listing.filter(p) =~= seq![ta, tb]);
    assert(class_names(listing, d) =~= seq![ta.name, tb.name]);
    let all = seq![ta.name] + class_names(listing, d);
    assert(all =~= seq![ta.name, ta.name, tb.name]);
    let s1 = seq![ta.name];
    let s2 = seq![ta.name, ta.name];
    assert(all.drop_last() =~= s2);
    assert(s2.drop_last() =~= s1);
    assert(s1.drop_last() =~= Seq::<Seq<char>>::empty());
    assert(unique(Seq::<Seq<char>>::empty()) =~= Seq::<Seq<char>>::empty());
    assert(unique(s1) =~= s1);
    assert(s1.contains(ta.name)) by {
        assert(s1[0] == ta.name);
    }
    assert(unique(s2) =~= s1);
    assert(!s1.contains(tb.name)) by {
        if s1.contains(tb.name) {
            let k = choose|k: int| 0 <= k < s1.len() && s1[k] == tb.name;
        }
    }
    assert(unique(all) =~= seq![ta.name, tb.name]);
}

/// The place of the first descriptor named `tag`, if the listing has one.
pub fn find_tag(listing: &Vec<TagDescriptor>, tag: &str) -> (found: Option<usize>)
    ensures
        found is Some <==> described(listing.deep_view(), tag@),
        found matches Some(i) ==> first_named_at(listing.deep_view(), tag@, i as int),
{
    let mut i: usize = 0;
    while i < listing.len()
        invariant
            i <= listing.len(),
            forall|j: int| 0 <= j < i ==> (#[trigger] listing.deep_view()[j]).name != tag@,
        decreases listing.len() - i,
    {
        if text_eq(listing[i].name.as_str(), tag) {
            assert(listing.deep_view()[i as int].name == tag@);
            return Some(i);
        }
        i += 1;
    }
    None
}

/// Computes the tags that a push of `tag` publishes.
pub fn push_targets(listing: &Vec<TagDescriptor>, tag: &str) -> (targets: Vec<String>)
    ensures
        targets.deep_view() == push_targets_text(listing.deep_view(), tag@),
{
    let ghost l = listing.deep_view();
    let mut targets: Vec<String> = Vec::new();
    targets.push(String::from_str(tag));
    assert(targets.deep_view() =~= seq![tag@]);
    let digest: &String = match find_tag(listing, tag) {
        Some(at) => {
            proof {
                let j = choose|j: int| first_named_at(l, tag@, j);
                if j < at {
                    assert(l[j].name != tag@);
                }
                if at < j {
                    assert(l[at as int].name != tag@);
                }
            }
            match &listing[at].digest {
                Some(d) => d,
                None => {
                    return targets;
                },
            }
        },
        None => {
            proof {
                if exists|i: int| first_named_at(l, tag@, i) {
                    let i = choose|i: int| first_named_at(l, tag@, i);
                    assert(l[i].name == tag@);
                }
            }
            return targets;
        },
    };
    assert(alias_digest(l, tag@) == Some(digest@));
    let ghost p = in_class(digest@);
    let mut i: usize = 0;
    proof {
        assert(l.take(0) =~= Seq::<TagView>::empty());
        assert(l.take(0).filter(p) =~= Seq::<TagView>::empty()) by {
            reveal(Seq::filter);
        }
        assert(seq![tag@] + class_names(l.take(0), digest@) =~= seq![tag@]);
        assert(seq![tag@].drop_last() =~= Seq::<Seq<char>>::empty());
        assert(unique(Seq::<Seq<char>>::empty()) =~= Seq::<Seq<char>>::empty());
        assert(unique(seq![tag@]) =~= seq![tag@]);
    }
    while i < listing.len()
        invariant
            i <= listing.len(),
            l == listing.deep_view(),
            p == in_class(digest@),
            targets.deep_view() == unique(seq![tag@] + class_names(l.take(i as int), digest@)),
        decreases listing.len() - i,
    {
        let item = &listing[i];
        let ghost before = seq![tag@] + class_names(l.take(i as int), digest@);
        let shares = match &item.digest {
            Some(d) => text_eq(d.as_str(), digest.as_str()),
            None => false,
        };
        proof {
            assert(l.take(i + 1) =~= l.take(i as int).push(l[i as int]));
            l.take(i as int).lemma_filter_push(l[i as int], p);
            assert(shares == p(l[i as int]));
        }
        if shares {
            proof {
                assert(class_names(l.take(i + 1), digest@) =~= class_names(
                    l.take(i as int),
                    digest@,
                ).push(l[i as int].name));
                let after = seq![tag@] + class_names(l.take(i + 1), digest@);
                assert(after =~= before.push(l[i as int].name));
                assert(after.drop_last() =~= before);
            }
            if !contains_text(&targets, item.name.as_str()) {
                targets.push(item.name.clone());
                assert(targets.deep_view() =~= unique(before).push(l[i as int].name));
            }
        }
        i += 1;
    }
    assert(l.take(i as int) =~= l);
    targets
}

} // verus!
