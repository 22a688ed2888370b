//! Pull profiles: one tracked image and the tags wanted of it.

use crate::naming::{image_name, image_name_text, opt_text};
use crate::sorted::{insert_sorted, strictly_sorted};
use vstd::prelude::*;

verus! {

/// What a pull profile stands for: an image identity and its wanted tags, in
/// ascending order.
pub struct ProfileView {
    pub library: Option<Seq<char>>,
    pub repo: Seq<char>,
    pub tags: Seq<Seq<char>>,
}

impl ProfileView {
    /// The canonical name of the profile's image.
    pub open spec fn name(self) -> Seq<char> {
        image_name_text(self.library, self.repo)
    }

    /// The wanted tags as a set.
    pub open spec fn tag_set(self) -> Set<Seq<char>> {
        self.tags.to_set()
    }

    /// The tags are in strictly ascending order, so none occurs twice.
    pub open spec fn wf(self) -> bool {
        strictly_sorted(self.tags)
    }

    /// A profile without tags has no reason to be kept.
    pub open spec fn deletable(self) -> bool {
        self.tags.len() == 0
    }
}

/// The profile of an identity that nothing is wanted of yet.
pub open spec fn empty_profile(library: Option<Seq<char>>, repo: Seq<char>) -> ProfileView {
    ProfileView { library, repo, tags: Seq::empty() }
}

/// `after` is `before` with `tags` added to what is wanted: the same image,
/// and the union of the two tag sets in ascending order.
pub open spec fn merged(before: ProfileView, tags: Set<Seq<char>>, after: ProfileView) -> bool {
    &&& after.library == before.library
    &&& after.repo == before.repo
    &&& after.wf()
    &&& after.tag_set() == before.tag_set().union(tags)
}

/// `after` is `before` with its tags overwritten: the same image, and exactly
/// `tags` in ascending order.
pub open spec fn replaced(before: ProfileView, tags: Set<Seq<char>>, after: ProfileView) -> bool {
    &&& after.library == before.library
    &&& after.repo == before.repo
    &&& after.wf()
    &&& after.tag_set() == tags
}

/// A tracked image and its wanted tags.
#[derive(Debug, PartialEq, Eq)]
pub struct PullProfile {
    library: Option<String>,
    repo: String,
    tags: Vec<String>,
}

impl View for PullProfile {
    type V = ProfileView;

    closed spec fn view(&self) -> ProfileView {
        ProfileView {
            library: self.library.deep_view(),
            repo: self.repo@,
            tags: self.tags.deep_view(),
        }
    }
}

/// Copies a list of strings.
pub fn copy_texts(v: &Vec<String>) -> (r: Vec<String>)
    ensures
        r.deep_view() == v.deep_view(),
{
    let mut r: Vec<String> = Vec::new();
    let mut i: usize = 0;
    while i < v.len()
        invariant
            i <= v.len(),
            r.len() == i,
            forall|k: int| 0 <= k < i ==> r[k]@ == v[k]@,
        decreases v.len() - i,
    {
        r.push(v[i].clone());
        i += 1;
    }
    assert(r.deep_view() =~= v.deep_view());
    r
}

impl PullProfile {
    #[verifier::type_invariant]
    spec fn ascending(&self) -> bool {
        strictly_sorted(self.tags.deep_view())
    }

    /// A profile for the given identity, with nothing wanted yet.
    pub fn new(library: Option<String>, repo: String) -> (p: Self)
        ensures
            p@ == empty_profile(library.deep_view(), repo@),
    {
        let p = PullProfile { library, repo, tags: Vec::new() };
        assert(p.tags.deep_view() =~= Seq::empty());
        p
    }

    /// The library, where the image has one.
    pub fn library(&self) -> (l: Option<&str>)
        ensures
            opt_text(l) == self@.library,
    {
        match &self.library {
            Some(s) => Some(s.as_str()),
            None => None,
        }
    }

    /// The repository.
    pub fn repo(&self) -> (r: &str)
        ensures
            r@ == self@.repo,
    {
        self.repo.as_str()
    }

    /// The wanted tags, in ascending order.
    pub fn tags(&self) -> (t: &Vec<String>)
        ensures
            t.deep_view() == self@.tags,
            self@.wf(),
    {
        proof {
            use_type_invariant(self);
        }
        &self.tags
    }

    /// The canonical name of the profile's image.
    pub fn image(&self) -> (name: String)
        ensures
            name@ == self@.name(),
    {
        image_name(self.library(), self.repo.as_str())
    }

    /// Whether nothing is wanted of the image any more.
    pub fn is_deletable(&self) -> (b: bool)
        ensures
            b == self@.deletable(),
    {
        self.tags.len() == 0
    }

    /// Adds `tags` to the wanted tags. Tags that are wanted already, or given
    /// twice, are wanted once.
    pub fn merge_tags(&mut self, tags: &Vec<String>)
        ensures
            merged(old(self)@, tags.deep_view().to_set(), final(self)@),
    {
        proof {
            use_type_invariant(&*self);
        }
        let mut own: Vec<String> = Vec::new();
        std::mem::swap(&mut own, &mut self.tags);
        let ghost before = own.deep_view();
        let ghost given = tags.deep_view();
        let mut i: usize = 0;
        while i < tags.len()
            invariant
                i <= tags.len(),
                given == tags.deep_view(),
                strictly_sorted(own.deep_view()),
                own.deep_view().to_set() == before.to_set().union(given.take(i as int).to_set()),
            decreases tags.len() - i,
        {
            insert_sorted(&mut own, tags[i].clone());
            proof {
                assert(given.take(i + 1) =~= given.take(i as int).push(given[i as int]));
                assert(given.take(i + 1).to_set() =~= given.take(i as int).to_set().insert(
                    given[i as int],
                )) by {
                    assert forall|e: Seq<char>|
                        given.take(i + 1).to_set().contains(e) <==> given.take(
                            i as int,
                        ).to_set().insert(given[i as int]).contains(e) by {
                        vstd::seq_lib::lemma_seq_contains_after_push(
                            given.take(i as int),
                            given[i as int],
                            e,
                        );
                    }
                }
                assert(own.deep_view().to_set() =~= before.to_set().union(
                    given.take(i + 1).to_set(),
                ));
            }
            i += 1;
        }
        assert(given.take(i as int) =~= given);
        self.tags = own;
    }

    /// Overwrites the wanted tags with `tags`.
    pub fn replace_tags(&mut self, tags: &Vec<String>)
        ensures
            replaced(old(self)@, tags.deep_view().to_set(), final(self)@),
    {
        self.tags = Vec::new();
        assert(self.tags.deep_view() =~= Seq::empty());
        self.merge_tags(tags);
        assert(Seq::<Seq<char>>::empty().to_set().union(tags.deep_view().to_set())
            =~= tags.deep_view().to_set());
    }

    /// A copy of the profile.
    pub fn duplicate(&self) -> (p: Self)
        ensures
            p@ == self@,
    {
        proof {
            use_type_invariant(self);
        }
        let library = match &self.library {
            Some(s) => Some(s.clone()),
            None => None,
        };
        PullProfile { library, repo: self.repo.clone(), tags: copy_texts(&self.tags) }
    }
}

} // verus!
