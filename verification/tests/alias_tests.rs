use image_sync::alias::{find_tag, push_targets};
use image_sync::registry::{Platform, TagDescriptor};

fn tag(name: &str, digest: Option<&str>) -> TagDescriptor {
    TagDescriptor {
        name: name.to_string(),
        digest: digest.map(|d| d.to_string()),
        platforms: vec![Platform { os: "linux".to_string(), architecture: "amd64".to_string() }],
    }
}

fn texts(items: &[&str]) -> Vec<String> {
    items.iter().map(|s| s.to_string()).collect()
}

#[test]
fn shared_digest_yields_exactly_the_class() {
    let listing = vec![tag("a", Some("D")), tag("b", Some("D")), tag("c", Some("E"))];
    assert_eq!(push_targets(&listing, "a"), texts(&["a", "b"]));
    assert_eq!(push_targets(&listing, "b"), texts(&["b", "a"]));
    assert_eq!(push_targets(&listing, "c"), texts(&["c"]));
}

#[test]
fn null_digest_is_never_aliased() {
    let listing = vec![tag("a", None), tag("b", None), tag("c", Some("E"))];
    assert_eq!(push_targets(&listing, "a"), texts(&["a"]));
    assert_eq!(push_targets(&listing, "b"), texts(&["b"]));
}

#[test]
fn null_digest_is_no_member_of_a_class() {
    let listing = vec![tag("a", Some("D")), tag("b", None), tag("c", Some("D"))];
    assert_eq!(push_targets(&listing, "a"), texts(&["a", "c"]));
}

#[test]
fn unknown_tag_falls_back_to_itself() {
    let listing = vec![tag("a", Some("D")), tag("b", Some("D"))];
    assert_eq!(push_targets(&listing, "zzz"), texts(&["zzz"]));
    assert_eq!(push_targets(&Vec::new(), "latest"), texts(&["latest"]));
}

#[test]
fn requested_tag_is_not_pushed_twice() {
    let listing = vec![tag("b", Some("D")), tag("a", Some("D")), tag("a", Some("D"))];
    assert_eq!(push_targets(&listing, "a"), texts(&["a", "b"]));
}

#[test]
fn repeated_alias_is_pushed_once() {
    let listing = vec![tag("a", Some("D")), tag("b", Some("D")), tag("b", Some("D"))];
    assert_eq!(push_targets(&listing, "a"), texts(&["a", "b"]));
}

#[test]
fn first_descriptor_of_a_name_decides() {
    let listing = vec![tag("a", Some("D")), tag("a", Some("E")), tag("b", Some("E")), tag("c", Some("D"))];
    assert_eq!(push_targets(&listing, "a"), texts(&["a", "c"]));
    let listing = vec![tag("a", None), tag("a", Some("E")), tag("b", Some("E"))];
    assert_eq!(push_targets(&listing, "a"), texts(&["a"]));
}

#[test]
fn aliases_come_in_listing_order() {
    let listing = vec![
        tag("latest", Some("D")),
        tag("1", Some("D")),
        tag("1.25", Some("D")),
        tag("1.24", Some("X")),
        tag("1.25.3", Some("D")),
    ];
    assert_eq!(push_targets(&listing, "1.25"), texts(&["1.25", "latest", "1", "1.25.3"]));
}

#[test]
fn find_tag_gives_the_first_place() {
    let listing = vec![tag("a", None), tag("b", None), tag("a", Some("D"))];
    assert_eq!(find_tag(&listing, "a"), Some(0));
    assert_eq!(find_tag(&listing, "b"), Some(1));
    assert_eq!(find_tag(&listing, "c"), None);
}
