use image_sync::cache::TagCache;
use image_sync::error::ErrorKind;
use image_sync::registry::{FetchStep, PageReply, TagDescriptor, TagFetch, TagPage};

fn tag(name: &str, digest: Option<&str>) -> TagDescriptor {
    TagDescriptor { name: name.to_string(), digest: digest.map(|d| d.to_string()), platforms: Vec::new() }
}

fn page(names: &[&str], next: Option<&str>) -> PageReply {
    PageReply::Answer {
        status: 200,
        page: Some(TagPage {
            results: names.iter().map(|n| tag(n, Some("D"))).collect(),
            next: next.map(|n| n.to_string()),
        }),
    }
}

#[test]
fn fetch_begins_at_the_listing_url() {
    let (_, url) = TagFetch::begin(None, "nginx");
    assert_eq!(
        url,
        "https://hub.docker.com/v2/repositories/library/nginx/tags?page_size=100&ordering=last_updated"
    );
    let (_, url) = TagFetch::begin(Some("bitnami"), "redis");
    assert_eq!(
        url,
        "https://hub.docker.com/v2/repositories/bitnami/redis/tags?page_size=100&ordering=last_updated"
    );
}

#[test]
fn single_page_is_the_listing() {
    let (mut fetch, _) = TagFetch::begin(None, "nginx");
    let step = fetch.absorb(page(&["latest", "1.25"], None));
    assert_eq!(step, FetchStep::Done(Ok(vec![tag("latest", Some("D")), tag("1.25", Some("D"))])));
}

#[test]
fn pages_are_concatenated_in_order() {
    let (mut fetch, _) = TagFetch::begin(None, "nginx");
    assert_eq!(
        fetch.absorb(page(&["a", "b"], Some("https://next/2"))),
        FetchStep::Get("https://next/2".to_string())
    );
    assert_eq!(
        fetch.absorb(page(&["c"], Some("https://next/3"))),
        FetchStep::Get("https://next/3".to_string())
    );
    assert_eq!(
        fetch.absorb(page(&["d", "e"], None)),
        FetchStep::Done(Ok(vec![
            tag("a", Some("D")),
            tag("b", Some("D")),
            tag("c", Some("D")),
            tag("d", Some("D")),
            tag("e", Some("D")),
        ]))
    );
}

#[test]
fn empty_page_gives_empty_listing() {
    let (mut fetch, _) = TagFetch::begin(None, "nginx");
    assert_eq!(fetch.absorb(page(&[], None)), FetchStep::Done(Ok(Vec::new())));
}

#[test]
fn no_answer_is_unreachable() {
    let (mut fetch, _) = TagFetch::begin(None, "nginx");
    assert_eq!(
        fetch.absorb(PageReply::NoAnswer),
        FetchStep::Done(Err(ErrorKind::RegistryUnreachable))
    );
}

#[test]
fn status_404_is_not_found() {
    let (mut fetch, _) = TagFetch::begin(None, "nginx");
    assert_eq!(
        fetch.absorb(PageReply::Answer { status: 404, page: None }),
        FetchStep::Done(Err(ErrorKind::RegistryNotFound))
    );
    let (mut fetch, _) = TagFetch::begin(None, "nginx");
    let with_page = PageReply::Answer {
        status: 404,
        page: Some(TagPage { results: vec![tag("a", None)], next: None }),
    };
    assert_eq!(fetch.absorb(with_page), FetchStep::Done(Err(ErrorKind::RegistryNotFound)));
}

#[test]
fn malformed_body_is_invalid() {
    let (mut fetch, _) = TagFetch::begin(None, "nginx");
    assert_eq!(
        fetch.absorb(PageReply::Answer { status: 200, page: None }),
        FetchStep::Done(Err(ErrorKind::RegistryResponseInvalid))
    );
}

#[test]
fn other_statuses_are_invalid() {
    for status in [100u16, 199, 300, 301, 403, 500, 503] {
        let (mut fetch, _) = TagFetch::begin(None, "nginx");
        let reply = PageReply::Answer {
            status,
            page: Some(TagPage { results: vec![tag("a", None)], next: None }),
        };
        assert_eq!(
            fetch.absorb(reply),
            FetchStep::Done(Err(ErrorKind::RegistryResponseInvalid)),
            "status {}",
            status
        );
    }
}

#[test]
fn success_statuses_carry_the_page() {
    for status in [200u16, 204, 299] {
        let (mut fetch, _) = TagFetch::begin(None, "nginx");
        let reply = PageReply::Answer {
            status,
            page: Some(TagPage { results: vec![tag("a", None)], next: None }),
        };
        assert_eq!(fetch.absorb(reply), FetchStep::Done(Ok(vec![tag("a", None)])));
    }
}

#[test]
fn failure_on_a_later_page_fails_the_fetch() {
    let (mut fetch, _) = TagFetch::begin(None, "nginx");
    assert_eq!(
        fetch.absorb(page(&["a"], Some("https://next/2"))),
        FetchStep::Get("https://next/2".to_string())
    );
    assert_eq!(
        fetch.absorb(PageReply::NoAnswer),
        FetchStep::Done(Err(ErrorKind::RegistryUnreachable))
    );
}

#[test]
fn fetch_starts_afresh_after_it_ended() {
    let (mut fetch, _) = TagFetch::begin(None, "nginx");
    assert_eq!(
        fetch.absorb(page(&["a"], Some("https://next/2"))),
        FetchStep::Get("https://next/2".to_string())
    );
    assert_eq!(
        fetch.absorb(PageReply::Answer { status: 500, page: None }),
        FetchStep::Done(Err(ErrorKind::RegistryResponseInvalid))
    );
    assert_eq!(fetch.absorb(page(&["z"], None)), FetchStep::Done(Ok(vec![tag("z", Some("D"))])));
}

#[test]
fn cache_starts_empty() {
    let cache = TagCache::new();
    assert!(cache.get("nginx").is_none());
}

#[test]
fn cache_returns_what_was_kept() {
    let mut cache = TagCache::new();
    cache.insert("nginx".to_string(), Ok(vec![tag("latest", Some("D"))]));
    cache.insert("redis".to_string(), Err(ErrorKind::RegistryNotFound));
    assert_eq!(cache.get("nginx"), Some(&Ok(vec![tag("latest", Some("D"))])));
    assert_eq!(cache.get("redis"), Some(&Err(ErrorKind::RegistryNotFound)));
    assert!(cache.get("alpine").is_none());
}

#[test]
fn cache_entries_are_written_once() {
    let mut cache = TagCache::new();
    cache.insert("nginx".to_string(), Ok(vec![tag("latest", Some("D"))]));
    cache.insert("nginx".to_string(), Ok(vec![tag("other", None)]));
    cache.insert("nginx".to_string(), Err(ErrorKind::RegistryUnreachable));
    assert_eq!(cache.get("nginx"), Some(&Ok(vec![tag("latest", Some("D"))])));
}
