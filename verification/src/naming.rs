//! Canonical names: the string form of an image identity, the references
//! handed to the container runtime, and the address of a tag listing.

use vstd::prelude::*;
use vstd::string::StringExecFns;

verus! {

/// Canonical form of an image identity: the repository alone when no library
/// is given, else the library, a slash and the repository. An empty library
/// is a library like any other.
pub open spec fn image_name_text(library: Option<Seq<char>>, repo: Seq<char>) -> Seq<char> {
    match library {
        Some(l) => l + seq!['/'] + repo,
        None => repo,
    }
}

/// An image reference: the image's name, a colon and the tag.
pub open spec fn image_ref_text(image: Seq<char>, tag: Seq<char>) -> Seq<char> {
    image + seq![':'] + tag
}

/// The reference under which an image is published on a destination
/// registry: the registry, a slash and the image reference.
pub open spec fn target_ref_text(registry: Seq<char>, image: Seq<char>, tag: Seq<char>) -> Seq<
    char,
> {
    registry + seq!['/'] + image_ref_text(image, tag)
}

/// The library segment that the registry expects for an image without one.
pub open spec fn default_library_text() -> Seq<char> {
    "library"@
}

/// What precedes the library in the address of a tag listing.
pub open spec fn listing_url_head() -> Seq<char> {
    "https://hub.docker.com/v2/repositories/"@
}

/// What follows the repository in the address of a tag listing: the largest
/// page the registry serves, most recently updated tags first.
pub open spec fn listing_url_tail() -> Seq<char> {
    "/tags?page_size=100&ordering=last_updated"@
}

/// Address of the first page of an image's tag listing.
pub open spec fn tags_url_text(library: Option<Seq<char>>, repo: Seq<char>) -> Seq<char> {
    let segment = match library {
        Some(l) => l,
        None => default_library_text(),
    };
    listing_url_head() + segment + seq!['/'] + repo + listing_url_tail()
}

/// The view of an optional string.
pub open spec fn opt_text(s: Option<&str>) -> Option<Seq<char>> {
    match s {
        Some(t) => Some(t@),
        None => None,
    }
}

/// The single source of truth for how an image identity is written.
pub fn image_name(library: Option<&str>, repo: &str) -> (name: String)
    ensures
        name@ == image_name_text(opt_text(library), repo@),
{
    match library {
        Some(l) => {
            let mut name = String::from_str(l);
            proof {
                reveal_strlit("/");
            }
            name.append("/");
            name.append(repo);
            assert(name@ =~= l@ + seq!['/'] + repo@);
            name
        },
        None => String::from_str(repo),
    }
}

/// Builds `<image>:<tag>`.
pub fn image_ref(image: &str, tag: &str) -> (r: String)
    ensures
        r@ == image_ref_text(image@, tag@),
{
    let mut r = String::from_str(image);
    proof {
        reveal_strlit(":");
    }
    r.append(":");
    r.append(tag);
    assert(r@ =~= image@ + seq![':'] + tag@);
    r
}

/// Builds `<registry>/<image>:<tag>`.
pub fn target_ref(registry: &str, image: &str, tag: &str) -> (r: String)
    ensures
        r@ == target_ref_text(registry@, image@, tag@),
{
    let mut r = String::from_str(registry);
    proof {
        reveal_strlit("/");
        reveal_strlit(":");
    }
    r.append("/");
    r.append(image);
    r.append(":");
    r.append(tag);
    assert(r@ =~= registry@ + seq!['/'] + (image@ + seq![':'] + tag@));
    r
}

/// Builds the address of the first page of an image's tag listing.
pub fn tags_url(library: Option<&str>, repo: &str) -> (url: String)
    ensures
        url@ == tags_url_text(opt_text(library), repo@),
{
    let mut url = String::from_str("https://hub.docker.com/v2/repositories/");
    match library {
        Some(l) => url.append(l),
        None => url.append("library"),
    }
    proof {
        reveal_strlit("/");
    }
    url.append("/");
    url.append(repo);
    url.append("/tags?page_size=100&ordering=last_updated");
    assert(url@ =~= tags_url_text(opt_text(library), repo@));
    url
}

} // verus!
