//! What a registry tells of an image's tags, and how the pages of its answer
//! become one listing.

use crate::error::ErrorKind;
use crate::naming::{opt_text, tags_url, tags_url_text};
use vstd::prelude::*;

verus! {

/// A platform an image was built for.
#[derive(Clone, Debug, PartialEq, Eq)]
pub struct Platform {
    pub os: String,
    pub architecture: String,
}

/// What a [`Platform`] stands for.
pub struct PlatformView {
    pub os: Seq<char>,
    pub architecture: Seq<char>,
}

impl DeepView for Platform {
    type V = PlatformView;

    open spec fn deep_view(&self) -> PlatformView {
        PlatformView { os: self.os@, architecture: self.architecture@ }
    }
}

/// One tag as the registry describes it. A registry may leave the digest
/// out.
#[derive(Clone, Debug, PartialEq, Eq)]
pub struct TagDescriptor {
    pub name: String,
    pub digest: Option<String>,
    pub platforms: Vec<Platform>,
}

/// What a [`TagDescriptor`] stands for.
pub struct TagView {
    pub name: Seq<char>,
    pub digest: Option<Seq<char>>,
    pub platforms: Seq<PlatformView>,
}

impl DeepView for TagDescriptor {
    type V = TagView;

    open spec fn deep_view(&self) -> TagView {
        TagView {
            name: self.name@,
            digest: self.digest.deep_view(),
            platforms: self.platforms.deep_view(),
        }
    }
}

/// One page of a tag listing, and where the next one is, if there is one.
#[derive(Clone, Debug, PartialEq, Eq)]
pub struct TagPage {
    pub results: Vec<TagDescriptor>,
    pub next: Option<String>,
}

/// What a [`TagPage`] stands for.
pub struct TagPageView {
    pub results: Seq<TagView>,
    pub next: Option<Seq<char>>,
}

impl DeepView for TagPage {
    type V = TagPageView;

    open spec fn deep_view(&self) -> TagPageView {
        TagPageView { results: self.results.deep_view(), next: self.next.deep_view() }
    }
}

/// What came back when a page was asked for.
#[derive(Clone, Debug, PartialEq, Eq)]
pub enum PageReply {
    /// Nothing: the registry could not be reached.
    NoAnswer,
    /// An answer with this HTTP status, and the page it held, if its body
    /// had the shape of one.
    Answer { status: u16, page: Option<TagPage> },
}

/// What a [`PageReply`] stands for.
pub enum PageReplyView {
    NoAnswer,
    Answer { status: u16, page: Option<TagPageView> },
}

impl DeepView for PageReply {
    type V = PageReplyView;

    open spec fn deep_view(&self) -> PageReplyView {
        match self {
            PageReply::NoAnswer => PageReplyView::NoAnswer,
            PageReply::Answer { status, page } => PageReplyView::Answer {
                status: *status,
                page: page.deep_view(),
            },
        }
    }
}

/// The outcome of fetching a listing, as a value of the model.
pub type ListingView = Result<Seq<TagView>, ErrorKind>;

/// What the outcome of a fetch stands for.
pub open spec fn outcome_view(r: Result<Vec<TagDescriptor>, ErrorKind>) -> ListingView {
    match r {
        Ok(l) => Ok(l.deep_view()),
        Err(e) => Err(e),
    }
}

/// The status with which the registry says that it has no such repository.
pub open spec fn status_not_found() -> u16 {
    404
}

/// Whether a status reports success.
pub open spec fn status_ok(status: u16) -> bool {
    200 <= status < 300
}

/// The page in a reply, or why there is none: no answer means the registry
/// is unreachable; the not-found status means that it has no such
/// repository; any other answer without success or without a page is
/// invalid.
pub open spec fn page_of(reply: PageReplyView) -> Result<TagPageView, ErrorKind> {
    match reply {
        PageReplyView::NoAnswer => Err(ErrorKind::RegistryUnreachable),
        PageReplyView::Answer { status, page } => {
            if status == status_not_found() {
                Err(ErrorKind::RegistryNotFound)
            } else if status_ok(status) && page is Some {
                Ok(page->0)
            } else {
                Err(ErrorKind::RegistryResponseInvalid)
            }
        },
    }
}

/// What to do next while fetching a listing.
#[derive(Debug, PartialEq, Eq)]
pub enum FetchStep {
    /// Ask for the page at this address.
    Get(String),
    /// The fetch is over, with this listing or this failure.
    Done(Result<Vec<TagDescriptor>, ErrorKind>),
}

/// What a [`FetchStep`] stands for.
pub enum FetchStepView {
    Get(Seq<char>),
    Done(ListingView),
}

impl DeepView for FetchStep {
    type V = FetchStepView;

    open spec fn deep_view(&self) -> FetchStepView {
        match self {
            FetchStep::Get(url) => FetchStepView::Get(url@),
            FetchStep::Done(r) => FetchStepView::Done(outcome_view(*r)),
        }
    }
}

/// One step of a fetch: what has been gathered after `reply`, and what to do
/// next. A page is added to what was gathered before it; the fetch goes on
/// while pages name a next one, and ends with everything gathered at the
/// first page that names none, or with the failure of the first reply that
/// holds no page. When it ends nothing is kept.
pub open spec fn absorbed(gathered: Seq<TagView>, reply: PageReplyView) -> (
    Seq<TagView>,
    FetchStepView,
) {
    match page_of(reply) {
        Err(e) => (Seq::empty(), FetchStepView::Done(Err(e))),
        Ok(page) => {
            let all = gathered + page.results;
            match page.next {
                Some(url) => (all, FetchStepView::Get(url)),
                None => (Seq::empty(), FetchStepView::Done(Ok(all))),
            }
        },
    }
}

/// How a fetch that has gathered `gathered` ends when `replies` come in, in
/// this order: `None` while it has not ended.
pub open spec fn fetch_result(gathered: Seq<TagView>, replies: Seq<PageReplyView>) -> Option<
    ListingView,
>
    decreases replies.len(),
{
    if replies.len() == 0 {
        None
    } else {
        match absorbed(gathered, replies[0]) {
            (_, FetchStepView::Done(r)) => Some(r),
            (more, FetchStepView::Get(_)) => fetch_result(more, replies.drop_first()),
        }
    }
}

/// The descriptors of some pages, one page after the other.
pub open spec fn joined(pages: Seq<TagPageView>) -> Seq<TagView>
    decreases pages.len(),
{
    if pages.len() == 0 {
        Seq::empty()
    } else {
        pages[0].results + joined(pages.drop_first())
    }
}

/// A listing that comes in several pages is all of them, in their order:
/// where every reply holds a page and only the last page names no next one,
/// the fetch ends with the pages joined.
pub proof fn lemma_fetch_joins_pages(
    gathered: Seq<TagView>,
    replies: Seq<PageReplyView>,
    pages: Seq<TagPageView>,
)
    requires
        replies.len() == pages.len(),
        pages.len() > 0,
        forall|i: int| 0 <= i < replies.len() ==> page_of(#[trigger] replies[i]) == Ok::<
            TagPageView,
            ErrorKind,
        >(pages[i]),
        forall|i: int| 0 <= i < pages.len() - 1 ==> (#[trigger] pages[i]).next is Some,
        pages[pages.len() - 1].next is None,
    ensures
        fetch_result(gathered, replies) == Some(Ok::<Seq<TagView>, ErrorKind>(gathered + joined(pages))),
    decreases replies.len(),
{
    if pages.len() == 1 {
        assert(joined(pages.drop_first()) =~= Seq::<TagView>::empty());
        assert(gathered + joined(pages) =~= gathered + pages[0].results);
    } else {
        let rest_r = replies.drop_first();
        let rest_p = pages.drop_first();
        assert(pages[0].next is Some);
        assert forall|i: int| 0 <= i < rest_r.len() implies page_of(#[trigger] rest_r[i]) == Ok::<
            TagPageView,
            ErrorKind,
        >(rest_p[i]) by {
            assert(rest_r[i] == replies[i + 1]);
        }
        assert forall|i: int| 0 <= i < rest_p.len() - 1 implies (#[trigger] rest_p[i]).next is Some by {
            assert(rest_p[i] == pages[i + 1]);
        }
        lemma_fetch_joins_pages(gathered + pages[0].results, rest_r, rest_p);
        assert((gathered + pages[0].results) + joined(rest_p) =~= gathered + joined(pages));
    }
}

/// A fetch ends with the failure of the first reply that holds no page,
/// whatever was gathered before it.
pub proof fn lemma_fetch_fails_at_first_failure(
    gathered: Seq<TagView>,
    replies: Seq<PageReplyView>,
    k: int,
)
    requires
        0 <= k < replies.len(),
        page_of(replies[k]) is Err,
        forall|i: int| 0 <= i < k ==> (page_of(#[trigger] replies[i]) matches Ok(p) && p.next is Some),
    ensures
        fetch_result(gathered, replies) == Some(Err::<Seq<TagView>, ErrorKind>(page_of(replies[k])->Err_0)),
    decreases replies.len(),
{
    if k > 0 {
        let rest = replies.drop_first();
        assert(page_of(replies[0]) is Ok);
        let p = page_of(replies[0])->Ok_0;
        assert forall|i: int| 0 <= i < k - 1 implies (page_of(#[trigger] rest[i]) matches Ok(q)
            && q.next is Some) by {
            assert(rest[i] == replies[i + 1]);
        }
        assert(rest[k - 1] == replies[k]);
        lemma_fetch_fails_at_first_failure(gathered + p.results, rest, k - 1);
    }
}

/// The fetch of one image's tag listing, page by page.
#[derive(Clone, Debug, PartialEq, Eq)]
pub struct TagFetch {
    gathered: Vec<TagDescriptor>,
}

impl View for TagFetch {
    type V = Seq<TagView>;

    closed spec fn view(&self) -> Seq<TagView> {
        self.gathered.deep_view()
    }
}

impl TagFetch {
    /// Starts a fetch: nothing is gathered yet, and the first page is at the
    /// address returned.
    pub fn begin(library: Option<&str>, repo: &str) -> (r: (TagFetch, String))
        ensures
            r.0@ == Seq::<TagView>::empty(),
            r.1@ == tags_url_text(opt_text(library), repo@),
    {
        let fetch = TagFetch { gathered: Vec::new() };
        assert(fetch.gathered.deep_view() =~= Seq::<TagView>::empty());
        (fetch, tags_url(library, repo))
    }

    /// Takes in the reply to the page last asked for, and says what to do
    /// next.
    pub fn absorb(&mut self, reply: PageReply) -> (step: FetchStep)
        ensures
            (final(self)@, step.deep_view()) == absorbed(old(self)@, reply.deep_view()),
    {
        let ghost before = self@;
        let mut all: Vec<TagDescriptor> = Vec::new();
        assert(all.deep_view() =~= Seq::<TagView>::empty());
        std::mem::swap(&mut all, &mut self.gathered);
        match reply {
            PageReply::NoAnswer => FetchStep::Done(Err(ErrorKind::RegistryUnreachable)),
            PageReply::Answer { status, page } => {
                if status == 404 {
                    FetchStep::Done(Err(ErrorKind::RegistryNotFound))
                } else if 200 <= status && status < 300 {
                    match page {
                        Some(p) => {
                            let TagPage { results, next } = p;
                            let mut results = results;
                            let ghost added = results.deep_view();
                            all.append(&mut results);
                            assert(all.deep_view() =~= before + added);
                            match next {
                                Some(url) => {
                                    self.gathered = all;
                                    FetchStep::Get(url)
                                },
                                None => FetchStep::Done(Ok(all)),
                            }
                        },
                        None => FetchStep::Done(Err(ErrorKind::RegistryResponseInvalid)),
                    }
                } else {
                    FetchStep::Done(Err(ErrorKind::RegistryResponseInvalid))
                }
            },
        }
    }
}

} // verus!
