//! The tag response cache: what the registry said of each image, kept for
//! one run so that no image is asked for twice.

use crate::error::ErrorKind;
use crate::registry::{outcome_view, ListingView, TagDescriptor};
use crate::text::text_eq;
use vstd::prelude::*;

verus! {

/// The outcome of one fetch, under the name of the image it was for.
#[derive(Debug, PartialEq, Eq)]
pub struct CacheEntry {
    pub image: String,
    pub outcome: Result<Vec<TagDescriptor>, ErrorKind>,
}

/// What a [`CacheEntry`] stands for.
pub struct CacheEntryView {
    pub image: Seq<char>,
    pub outcome: ListingView,
}

impl DeepView for CacheEntry {
    type V = CacheEntryView;

    open spec fn deep_view(&self) -> CacheEntryView {
        CacheEntryView { image: self.image@, outcome: outcome_view(self.outcome) }
    }
}

/// The mapping that a list of entries amounts to when an image's first
/// entry counts.
pub open spec fn first_wins(entries: Seq<CacheEntryView>) -> Map<Seq<char>, ListingView>
    decreases entries.len(),
{
    if entries.len() == 0 {
        Map::empty()
    } else {
        let before = first_wins(entries.drop_last());
        if before.contains_key(entries.last().image) {
            before
        } else {
            before.insert(entries.last().image, entries.last().outcome)
        }
    }
}

/// Where no entry before `i` is for the image of entry `i`, that entry is
/// what the mapping holds for the image.
pub proof fn lemma_first_wins_found(entries: Seq<CacheEntryView>, i: int)
    requires
        0 <= i < entries.len(),
        forall|k: int| 0 <= k < i ==> (#[trigger] entries[k]).image != entries[i].image,
    ensures
        first_wins(entries).contains_key(entries[i].image),
        first_wins(entries)[entries[i].image] == entries[i].outcome,
    decreases entries.len(),
{
    let head = entries.drop_last();
    if i == entries.len() - 1 {
        lemma_first_wins_absent(head, entries[i].image);
    } else {
        assert(head[i] == entries[i]);
        assert forall|k: int| 0 <= k < i implies (#[trigger] head[k]).image != head[i].image by {
            assert(head[k] == entries[k]);
        }
        lemma_first_wins_found(head, i);
    }
}

/// The mapping holds nothing for an image that no entry is for.
pub proof fn lemma_first_wins_absent(entries: Seq<CacheEntryView>, image: Seq<char>)
    requires
        forall|k: int| 0 <= k < entries.len() ==> (#[trigger] entries[k]).image != image,
    ensures
        !first_wins(entries).contains_key(image),
    decreases entries.len(),
{
    if entries.len() > 0 {
        let head = entries.drop_last();
        assert forall|k: int| 0 <= k < head.len() implies (#[trigger] head[k]).image != image by {
            assert(head[k] == entries[k]);
        }
        lemma_first_wins_absent(head, image);
        assert(entries.last() == entries[entries.len() - 1]);
    }
}

/// What the registry said of each image that was asked for in this run. An
/// entry, once written, stays as it is.
#[derive(Debug, PartialEq, Eq)]
pub struct TagCache {
    entries: Vec<CacheEntry>,
}

impl View for TagCache {
    type V = Map<Seq<char>, ListingView>;

    closed spec fn view(&self) -> Map<Seq<char>, ListingView> {
        first_wins(self.entries.deep_view())
    }
}

impl TagCache {
    /// A cache that holds nothing.
    pub fn new() -> (c: Self)
        ensures
            c@ == Map::<Seq<char>, ListingView>::empty(),
    {
        let c = TagCache { entries: Vec::new() };
        assert(c.entries.deep_view() =~= Seq::<CacheEntryView>::empty());
        c
    }

    /// What is kept for the image named `image`, if it was asked for.
    pub fn get(&self, image: &str) -> (r: Option<&Result<Vec<TagDescriptor>, ErrorKind>>)
        ensures
            r is Some <==> self@.contains_key(image@),
            r matches Some(o) ==> outcome_view(*o) == self@[image@],
    {
        let ghost entries = self.entries.deep_view();
        let mut i: usize = 0;
        while i < self.entries.len()
            invariant
                i <= self.entries.len(),
                entries == self.entries.deep_view(),
                forall|k: int| 0 <= k < i ==> (#[trigger] entries[k]).image != image@,
            decreases self.entries.len() - i,
        {
            if text_eq(self.entries[i].image.as_str(), image) {
                proof {
                    assert(entries[i as int].image == image@);
                    lemma_first_wins_found(entries, i as int);
                }
                return Some(&self.entries[i].outcome);
            }
            i += 1;
        }
        proof {
            lemma_first_wins_absent(entries, image@);
        }
        None
    }

    /// Keeps `outcome` for the image named `image`, unless something is
    /// kept for it already.
    pub fn insert(&mut self, image: String, outcome: Result<Vec<TagDescriptor>, ErrorKind>)
        ensures
            final(self)@ == if old(self)@.contains_key(image@) {
                old(self)@
            } else {
                old(self)@.insert(image@, outcome_view(outcome))
            },
    {
        if self.get(image.as_str()).is_none() {
            let ghost before = self.entries.deep_view();
            let entry = CacheEntry { image, outcome };
            let ghost e = entry.deep_view();
            self.entries.push(entry);
            assert(self.entries.deep_view() =~= before.push(e));
            assert(before.push(e).drop_last() =~= before);
        }
    }
}

} // verus!
