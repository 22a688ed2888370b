//! The profile store: the catalog of tracked images, one profile per image
//! identity, in the order of their canonical names.

use crate::error::ErrorKind;
use crate::naming::{image_name, image_name_text};
use crate::profile::{empty_profile, merged, replaced, ProfileView, PullProfile};
use crate::sorted::{
    lemma_insert_sorted, lemma_remove_sorted, lemma_sorted_distinct, lemma_sorted_unique,
    strictly_sorted,
};
use crate::text::{compare, text_lt, Rank};
use vstd::prelude::*;

verus! {

/// The canonical names of a catalog's profiles, in the catalog's order.
pub open spec fn names(s: Seq<ProfileView>) -> Seq<Seq<char>> {
    Seq::new(s.len(), |i: int| s[i].name())
}

/// A catalog is well formed when its profiles are, and their canonical names
/// ascend strictly: one profile per identity, in the order of the names.
pub open spec fn catalog_wf(s: Seq<ProfileView>) -> bool {
    &&& forall|i: int| 0 <= i < s.len() ==> (#[trigger] s[i]).wf()
    &&& strictly_sorted(names(s))
}

/// The catalog as a mapping from canonical name to profile.
pub open spec fn catalog_map(s: Seq<ProfileView>) -> Map<Seq<char>, ProfileView> {
    Map::new(|k: Seq<char>| names(s).contains(k), |k: Seq<char>| s[names(s).index_of(k)])
}

/// `after` is `before` with `tags` merged into the profile of the identity
/// `(library, repo)`, which is created where `before` has none. Every other
/// profile is as it was.
pub open spec fn tags_merged(
    before: Seq<ProfileView>,
    library: Option<Seq<char>>,
    repo: Seq<char>,
    tags: Set<Seq<char>>,
    after: Seq<ProfileView>,
) -> bool {
    let key = image_name_text(library, repo);
    let base = if catalog_map(before).contains_key(key) {
        catalog_map(before)[key]
    } else {
        empty_profile(library, repo)
    };
    &&& catalog_wf(after)
    &&& catalog_map(after).dom() == catalog_map(before).dom().insert(key)
    &&& catalog_map(after).remove(key) == catalog_map(before).remove(key)
    &&& merged(base, tags, catalog_map(after)[key])
}

/// `after` is `before` with the tags of the profile named `key` overwritten
/// by `tags`, and that profile gone where `tags` is empty. Every other
/// profile is as it was.
pub open spec fn tags_replaced(
    before: Seq<ProfileView>,
    key: Seq<char>,
    tags: Set<Seq<char>>,
    after: Seq<ProfileView>,
) -> bool {
    &&& catalog_wf(after)
    &&& catalog_map(after).remove(key) == catalog_map(before).remove(key)
    &&& if tags == Set::<Seq<char>>::empty() {
        !catalog_map(after).contains_key(key)
    } else {
        &&& catalog_map(after).contains_key(key)
        &&& replaced(catalog_map(before)[key], tags, catalog_map(after)[key])
    }
}

/// In a well-formed catalog each profile is found under its own name.
pub proof fn lemma_catalog_entry(s: Seq<ProfileView>, i: int)
    requires
        catalog_wf(s),
        0 <= i < s.len(),
    ensures
        catalog_map(s).contains_key(s[i].name()),
        catalog_map(s)[s[i].name()] == s[i],
{
    lemma_sorted_distinct(names(s));
    assert(names(s)[i] == s[i].name());
    let j = names(s).index_of(s[i].name());
    assert(names(s)[j] == names(s)[i]);
}

/// Every name in a well-formed catalog's mapping is the name of one of its
/// profiles.
pub proof fn lemma_catalog_index(s: Seq<ProfileView>, key: Seq<char>) -> (i: int)
    requires
        catalog_wf(s),
        catalog_map(s).contains_key(key),
    ensures
        0 <= i < s.len(),
        s[i].name() == key,
        catalog_map(s)[key] == s[i],
{
    let i = names(s).index_of(key);
    assert(names(s)[i] == key);
    lemma_catalog_entry(s, i);
    i
}

/// A new profile put at the place of its name.
pub proof fn lemma_catalog_insert(s: Seq<ProfileView>, i: int, p: ProfileView)
    requires
        catalog_wf(s),
        p.wf(),
        0 <= i <= s.len(),
        forall|k: int| 0 <= k < i ==> text_lt(#[trigger] names(s)[k], p.name()),
        i < s.len() ==> text_lt(p.name(), names(s)[i]),
    ensures
        catalog_wf(s.insert(i, p)),
        !catalog_map(s).contains_key(p.name()),
        catalog_map(s.insert(i, p)) == catalog_map(s).insert(p.name(), p),
{
    let t = s.insert(i, p);
    lemma_insert_sorted(names(s), i, p.name());
    assert(names(t) =~= names(s).insert(i, p.name()));
    assert(catalog_wf(t)) by {
        assert forall|k: int| 0 <= k < t.len() implies (#[trigger] t[k]).wf() by {
            if k < i {
                assert(t[k] == s[k]);
            } else if k > i {
                assert(t[k] == s[k - 1]);
            }
        }
    }
    let m = catalog_map(s).insert(p.name(), p);
    assert forall|k: Seq<char>| catalog_map(t).contains_key(k) <==> m.contains_key(k) by {
        assert(names(t).to_set().contains(k) <==> names(s).to_set().insert(p.name()).contains(k));
    }
    assert forall|k: Seq<char>| catalog_map(t).contains_key(k) implies catalog_map(t)[k] == m[k] by {
        let j = lemma_catalog_index(t, k);
        if j < i {
            lemma_catalog_entry(s, j);
        } else if j > i {
            lemma_catalog_entry(s, j - 1);
        }
    }
    assert(catalog_map(t) =~= m);
}

/// A profile exchanged for another of the same name.
pub proof fn lemma_catalog_update(s: Seq<ProfileView>, i: int, p: ProfileView)
    requires
        catalog_wf(s),
        p.wf(),
        0 <= i < s.len(),
        p.name() == s[i].name(),
    ensures
        catalog_wf(s.update(i, p)),
        catalog_map(s.update(i, p)) == catalog_map(s).insert(p.name(), p),
{
    let t = s.update(i, p);
    assert(names(t) =~= names(s));
    assert(catalog_wf(t)) by {
        assert forall|k: int| 0 <= k < t.len() implies (#[trigger] t[k]).wf() by {
            if k != i {
                assert(t[k] == s[k]);
            }
        }
    }
    let m = catalog_map(s).insert(p.name(), p);
    lemma_catalog_entry(s, i);
    assert forall|k: Seq<char>| catalog_map(t).contains_key(k) implies catalog_map(t)[k] == m[k] by {
        let j = lemma_catalog_index(t, k);
        if j != i {
            lemma_catalog_entry(s, j);
            lemma_sorted_distinct(names(s));
            assert(names(s)[j] != names(s)[i]);
        }
    }
    assert(catalog_map(t) =~= m);
}

/// A profile taken out.
pub proof fn lemma_catalog_remove(s: Seq<ProfileView>, i: int)
    requires
        catalog_wf(s),
        0 <= i < s.len(),
    ensures
        catalog_wf(s.remove(i)),
        catalog_map(s.remove(i)) == catalog_map(s).remove(s[i].name()),
{
    let t = s.remove(i);
    lemma_remove_sorted(names(s), i);
    assert(names(t) =~= names(s).remove(i));
    assert(catalog_wf(t)) by {
        assert forall|k: int| 0 <= k < t.len() implies (#[trigger] t[k]).wf() by {
            if k < i {
                assert(t[k] == s[k]);
            } else {
                assert(t[k] == s[k + 1]);
            }
        }
    }
    let m = catalog_map(s).remove(s[i].name());
    assert(names(s)[i] == s[i].name());
    assert forall|k: Seq<char>| catalog_map(t).contains_key(k) <==> m.contains_key(k) by {
        assert(names(t).to_set().contains(k) <==> names(s).to_set().remove(s[i].name()).contains(
            k,
        ));
    }
    assert forall|k: Seq<char>| catalog_map(t).contains_key(k) implies catalog_map(t)[k] == m[k] by {
        let j = lemma_catalog_index(t, k);
        if j < i {
            lemma_catalog_entry(s, j);
        } else {
            lemma_catalog_entry(s, j + 1);
        }
    }
    assert(catalog_map(t) =~= m);
}

/// A well-formed catalog is determined by its mapping: the same profiles
/// under the same names stand in the same order.
pub proof fn lemma_catalog_unique(a: Seq<ProfileView>, b: Seq<ProfileView>)
    requires
        catalog_wf(a),
        catalog_wf(b),
        catalog_map(a) == catalog_map(b),
    ensures
        a == b,
{
    assert(names(a).to_set() =~= names(b).to_set()) by {
        assert forall|k: Seq<char>| names(a).to_set().contains(k) <==> names(b).to_set().contains(
            k,
        ) by {
            assert(catalog_map(a).contains_key(k) <==> names(a).contains(k));
            assert(catalog_map(b).contains_key(k) <==> names(b).contains(k));
        }
    }
    lemma_sorted_unique(names(a), names(b));
    assert(a.len() == names(a).len());
    assert(b.len() == names(b).len());
    assert forall|i: int| 0 <= i < a.len() implies a[i] == b[i] by {
        lemma_catalog_entry(a, i);
        lemma_catalog_entry(b, i);
        assert(names(a)[i] == names(b)[i]);
    }
    assert(a =~= b);
}

/// What a merge gives is determined: two catalogs that both are `before`
/// with `tags` merged into the same identity are the same catalog.
pub proof fn lemma_merge_determined(
    before: Seq<ProfileView>,
    library: Option<Seq<char>>,
    repo: Seq<char>,
    tags: Set<Seq<char>>,
    one: Seq<ProfileView>,
    other: Seq<ProfileView>,
)
    requires
        tags_merged(before, library, repo, tags, one),
        tags_merged(before, library, repo, tags, other),
    ensures
        one == other,
{
    let key = image_name_text(library, repo);
    let p = catalog_map(one)[key];
    let q = catalog_map(other)[key];
    lemma_sorted_unique(p.tags, q.tags);
    assert(p == q);
    assert(catalog_map(one) =~= catalog_map(one).remove(key).insert(key, p));
    assert(catalog_map(other) =~= catalog_map(other).remove(key).insert(key, q));
    lemma_catalog_unique(one, other);
}

/// Merging is idempotent: merging the same tags into the same identity a
/// second time changes nothing. The catalog then holds one profile for the
/// identity, and where the identity was new, that profile wants exactly the
/// tags given.
pub proof fn lemma_merge_idempotent(
    before: Seq<ProfileView>,
    library: Option<Seq<char>>,
    repo: Seq<char>,
    tags: Set<Seq<char>>,
    once: Seq<ProfileView>,
    twice: Seq<ProfileView>,
)
    requires
        tags_merged(before, library, repo, tags, once),
        tags_merged(once, library, repo, tags, twice),
    ensures
        twice == once,
        names(once).no_duplicates(),
        catalog_map(once).contains_key(image_name_text(library, repo)),
        !catalog_map(before).contains_key(image_name_text(library, repo)) ==> catalog_map(
            once,
        )[image_name_text(library, repo)].tag_set() == tags,
{
    let key = image_name_text(library, repo);
    assert(catalog_map(once).dom().contains(key));
    let p = catalog_map(once)[key];
    let q = catalog_map(twice)[key];
    assert(q.tag_set() =~= p.tag_set());
    lemma_sorted_unique(p.tags, q.tags);
    assert(p == q);
    assert(catalog_map(twice).dom() =~= catalog_map(once).dom());
    assert(catalog_map(once) =~= catalog_map(once).remove(key).insert(key, p));
    assert(catalog_map(twice) =~= catalog_map(twice).remove(key).insert(key, q));
    lemma_catalog_unique(once, twice);
    lemma_sorted_distinct(names(once));
    if !catalog_map(before).contains_key(key) {
        assert(Seq::<Seq<char>>::empty().to_set().union(tags) =~= tags);
    }
}

/// What an edit gives is determined: two catalogs that both are `before`
/// with the tags of the same profile overwritten by `tags` are the same
/// catalog.
pub proof fn lemma_replace_determined(
    before: Seq<ProfileView>,
    key: Seq<char>,
    tags: Set<Seq<char>>,
    one: Seq<ProfileView>,
    other: Seq<ProfileView>,
)
    requires
        tags_replaced(before, key, tags, one),
        tags_replaced(before, key, tags, other),
    ensures
        one == other,
{
    if tags == Set::<Seq<char>>::empty() {
        assert(catalog_map(one) =~= catalog_map(one).remove(key));
        assert(catalog_map(other) =~= catalog_map(other).remove(key));
    } else {
        let p = catalog_map(one)[key];
        let q = catalog_map(other)[key];
        lemma_sorted_unique(p.tags, q.tags);
        assert(p == q);
        assert(catalog_map(one) =~= catalog_map(one).remove(key).insert(key, p));
        assert(catalog_map(other) =~= catalog_map(other).remove(key).insert(key, q));
    }
    lemma_catalog_unique(one, other);
}

/// An edit that keeps no tag removes the profile: the catalog no longer
/// holds its name, and every other profile is as it was.
pub proof fn lemma_edit_to_nothing_removes(
    before: Seq<ProfileView>,
    key: Seq<char>,
    after: Seq<ProfileView>,
)
    requires
        catalog_wf(before),
        tags_replaced(before, key, Set::empty(), after),
    ensures
        !names(after).contains(key),
        catalog_map(after) == catalog_map(before).remove(key),
        catalog_map(before).contains_key(key) ==> after.len() == before.len() - 1,
{
    assert(catalog_map(after) =~= catalog_map(after).remove(key));
    if catalog_map(before).contains_key(key) {
        let i = lemma_catalog_index(before, key);
        lemma_catalog_remove(before, i);
        lemma_catalog_unique(after, before.remove(i));
    }
}

/// The views of a list of profiles.
pub open spec fn views(v: Seq<PullProfile>) -> Seq<ProfileView> {
    Seq::new(v.len(), |i: int| v[i]@)
}

/// The catalog of tracked images.
#[derive(Debug, PartialEq, Eq)]
pub struct ProfileStore {
    profiles: Vec<PullProfile>,
}

impl View for ProfileStore {
    type V = Seq<ProfileView>;

    closed spec fn view(&self) -> Seq<ProfileView> {
        views(self.profiles@)
    }
}

impl ProfileStore {
    #[verifier::type_invariant]
    spec fn ordered(&self) -> bool {
        catalog_wf(self@)
    }

    /// A store that tracks nothing.
    pub fn new() -> (s: Self)
        ensures
            s@ == Seq::<ProfileView>::empty(),
    {
        let s = ProfileStore { profiles: Vec::new() };
        assert(s@ =~= Seq::<ProfileView>::empty());
        assert(names(s@) =~= Seq::<Seq<char>>::empty());
        s
    }

    /// The profiles in the order of their canonical names.
    pub fn list(&self) -> (l: &Vec<PullProfile>)
        ensures
            l.len() == self@.len(),
            forall|i: int| 0 <= i < l.len() ==> (#[trigger] l[i])@ == self@[i],
            catalog_wf(self@),
    {
        proof {
            use_type_invariant(self);
        }
        &self.profiles
    }

    /// How many images are tracked.
    pub fn len(&self) -> (n: usize)
        ensures
            n == self@.len(),
    {
        self.profiles.len()
    }

    /// The place of `key` among the names: the first profile whose name does
    /// not come before it, and whether that profile bears the name.
    fn locate(&self, key: &str) -> (r: (usize, bool))
        ensures
            r.0 <= self@.len(),
            forall|k: int| 0 <= k < r.0 ==> text_lt(#[trigger] names(self@)[k], key@),
            r.1 ==> r.0 < self@.len() && self@[r.0 as int].name() == key@,
            !r.1 && r.0 < self@.len() ==> text_lt(key@, names(self@)[r.0 as int]),
            r.1 == catalog_map(self@).contains_key(key@),
    {
        proof {
            use_type_invariant(self);
        }
        let mut i: usize = 0;
        let mut found = false;
        while i < self.profiles.len()
            invariant_except_break
                !found,
            invariant
                i <= self.profiles.len(),
                forall|k: int| 0 <= k < i ==> text_lt(#[trigger] names(self@)[k], key@),
            ensures
                i <= self.profiles.len(),
                forall|k: int| 0 <= k < i ==> text_lt(#[trigger] names(self@)[k], key@),
                found ==> i < self@.len() && self@[i as int].name() == key@,
                !found && i < self@.len() ==> text_lt(key@, names(self@)[i as int]),
            decreases self.profiles.len() - i,
        {
            let name = self.profiles[i].image();
            assert(names(self@)[i as int] == name@);
            match compare(name.as_str(), key) {
                Rank::Before => {
                    i += 1;
                },
                Rank::Same => {
                    found = true;
                    break;
                },
                Rank::After => {
                    break;
                },
            }
        }
        proof {
            if found {
                lemma_catalog_entry(self@, i as int);
            } else {
                lemma_insert_sorted(names(self@), i as int, key@);
            }
        }
        (i, found)
    }

    /// The profile of the image named `image`, if it is tracked.
    pub fn get(&self, image: &str) -> (p: Option<&PullProfile>)
        ensures
            catalog_wf(self@),
            p is Some <==> catalog_map(self@).contains_key(image@),
            p matches Some(q) ==> q@ == catalog_map(self@)[image@],
    {
        proof {
            use_type_invariant(self);
        }
        let (i, found) = self.locate(image);
        if found {
            proof {
                lemma_catalog_entry(self@, i as int);
            }
            Some(&self.profiles[i])
        } else {
            None
        }
    }

    /// The canonical names of the tracked images, in ascending order.
    pub fn image_names(&self) -> (r: Vec<String>)
        ensures
            r.deep_view() == names(self@),
            catalog_wf(self@),
    {
        proof {
            use_type_invariant(self);
        }
        let mut r: Vec<String> = Vec::new();
        let mut i: usize = 0;
        while i < self.profiles.len()
            invariant
                i <= self.profiles.len(),
                r.len() == i,
                forall|k: int| 0 <= k < i ==> r[k]@ == #[trigger] names(self@)[k],
            decreases self.profiles.len() - i,
        {
            let name = self.profiles[i].image();
            assert(names(self@)[i as int] == name@);
            r.push(name);
            i += 1;
        }
        assert(r.deep_view() =~= names(self@));
        r
    }

    /// The profile of the identity `(library, repo)`, which is created
    /// without tags where the store has none. A profile that exists is left
    /// as it is, under the library and repository it was created with.
    pub fn get_or_create(&mut self, library: Option<String>, repo: String) -> (p: &PullProfile)
        ensures
            tags_merged(
                old(self)@,
                library.deep_view(),
                repo@,
                Set::empty(),
                final(self)@,
            ),
            p@ == catalog_map(final(self)@)[image_name_text(library.deep_view(), repo@)],
    {
        let empty: Vec<String> = Vec::new();
        assert(empty.deep_view().to_set() =~= Set::<Seq<char>>::empty());
        let i = self.merge_at(library, repo, &empty);
        &self.profiles[i]
    }

    /// Adds `tags` to what is wanted of the identity `(library, repo)`, whose
    /// profile is created where the store has none. Merging the same tags
    /// again changes nothing.
    pub fn merge_tags(&mut self, library: Option<String>, repo: String, tags: &Vec<String>)
        ensures
            tags_merged(
                old(self)@,
                library.deep_view(),
                repo@,
                tags.deep_view().to_set(),
                final(self)@,
            ),
    {
        let _ = self.merge_at(library, repo, tags);
    }

    /// Merges `tags` into the profile of `(library, repo)` and says where
    /// that profile stands.
    fn merge_at(&mut self, library: Option<String>, repo: String, tags: &Vec<String>) -> (i: usize)
        ensures
            tags_merged(
                old(self)@,
                library.deep_view(),
                repo@,
                tags.deep_view().to_set(),
                final(self)@,
            ),
            i < final(self)@.len(),
            final(self)@[i as int] == catalog_map(final(self)@)[image_name_text(
                library.deep_view(),
                repo@,
            )],
    {
        proof {
            use_type_invariant(&*self);
        }
        let ghost before = self@;
        let ghost key = image_name_text(library.deep_view(), repo@);
        let name = image_name(
            match &library {
                Some(l) => Some(l.as_str()),
                None => None,
            },
            repo.as_str(),
        );
        assert(name@ == key);
        let (i, found) = self.locate(name.as_str());
        let mut all: Vec<PullProfile> = Vec::new();
        std::mem::swap(&mut all, &mut self.profiles);
        assert(views(all@) == before);
        if found {
            let mut p = all.remove(i);
            assert(p@ == before[i as int]);
            p.merge_tags(tags);
            proof {
                lemma_catalog_entry(before, i as int);
                lemma_catalog_update(before, i as int, p@);
                assert(catalog_map(before).insert(key, p@).remove(key) =~= catalog_map(
                    before,
                ).remove(key));
                assert(catalog_map(before).insert(key, p@).dom() =~= catalog_map(
                    before,
                ).dom().insert(key));
            }
            all.insert(i, p);
            assert(views(all@) =~= before.update(i as int, p@));
        } else {
            let mut p = PullProfile::new(library, repo);
            p.merge_tags(tags);
            proof {
                lemma_catalog_insert(before, i as int, p@);
                assert(catalog_map(before).insert(key, p@).remove(key) =~= catalog_map(
                    before,
                ).remove(key));
            }
            all.insert(i, p);
            assert(views(all@) =~= before.insert(i as int, p@));
        }
        proof {
            lemma_catalog_entry(views(all@), i as int);
        }
        self.profiles = all;
        i
    }

    /// Overwrites the tags wanted of the image named `image`. A profile left
    /// without tags is removed from the store. Fails, and changes nothing,
    /// where the store has no such profile.
    pub fn replace_tags(&mut self, image: &str, tags: &Vec<String>) -> (r: Result<(), ErrorKind>)
        ensures
            r is Ok <==> catalog_map(old(self)@).contains_key(image@),
            r is Ok ==> tags_replaced(
                old(self)@,
                image@,
                tags.deep_view().to_set(),
                final(self)@,
            ),
            r is Err ==> r == Err::<(), ErrorKind>(ErrorKind::ProfileNotFound) && final(self)@
                == old(self)@,
    {
        proof {
            use_type_invariant(&*self);
        }
        let ghost before = self@;
        let (i, found) = self.locate(image);
        if !found {
            return Err(ErrorKind::ProfileNotFound);
        }
        let mut all: Vec<PullProfile> = Vec::new();
        std::mem::swap(&mut all, &mut self.profiles);
        assert(views(all@) == before);
        let mut p = all.remove(i);
        assert(views(all@) =~= before.remove(i as int));
        p.replace_tags(tags);
        proof {
            lemma_catalog_entry(before, i as int);
            lemma_catalog_remove(before, i as int);
        }
        if p.is_deletable() {
            assert(tags.deep_view().to_set() =~= Set::<Seq<char>>::empty());
            assert(catalog_map(before).remove(image@).remove(image@) =~= catalog_map(
                before,
            ).remove(image@));
        } else {
            proof {
                assert(p@.tag_set().contains(p@.tags[0]));
                lemma_catalog_update(before, i as int, p@);
                assert(catalog_map(before).insert(image@, p@).remove(image@) =~= catalog_map(
                    before,
                ).remove(image@));
            }
            all.insert(i, p);
            assert(views(all@) =~= before.update(i as int, p@));
        }
        self.profiles = all;
        Ok(())
    }
}

} // verus!
