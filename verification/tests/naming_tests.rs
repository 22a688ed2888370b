use image_sync::error::ErrorKind;
use image_sync::naming::{image_name, image_ref, tags_url, target_ref};
use image_sync::text::{compare, contains_text, opt_text_eq, text_eq, Rank};

#[test]
fn image_name_without_library_is_the_repo() {
    assert_eq!(image_name(None, "nginx"), "nginx");
}

#[test]
fn image_name_with_library_joins_with_slash() {
    assert_eq!(image_name(Some("bitnami"), "redis"), "bitnami/redis");
}

#[test]
fn image_name_keeps_empty_library_apart_from_none() {
    assert_eq!(image_name(Some(""), "redis"), "/redis");
    assert_ne!(image_name(Some(""), "redis"), image_name(None, "redis"));
}

#[test]
fn image_name_of_default_library_is_spelled_out() {
    assert_eq!(image_name(Some("library"), "nginx"), "library/nginx");
}

#[test]
fn image_ref_joins_with_colon() {
    assert_eq!(image_ref("nginx", "1.25"), "nginx:1.25");
    assert_eq!(image_ref("bitnami/redis", "latest"), "bitnami/redis:latest");
}

#[test]
fn target_ref_prefixes_the_registry() {
    assert_eq!(
        target_ref("dest.example.com", "nginx", "1.25"),
        "dest.example.com/nginx:1.25"
    );
    assert_eq!(
        target_ref("localhost:5000", "bitnami/redis", "7"),
        "localhost:5000/bitnami/redis:7"
    );
}

#[test]
fn tags_url_uses_default_library_when_absent() {
    assert_eq!(
        tags_url(None, "nginx"),
        "https://hub.docker.com/v2/repositories/library/nginx/tags?page_size=100&ordering=last_updated"
    );
}

#[test]
fn tags_url_uses_given_library() {
    assert_eq!(
        tags_url(Some("bitnami"), "redis"),
        "https://hub.docker.com/v2/repositories/bitnami/redis/tags?page_size=100&ordering=last_updated"
    );
}

#[test]
fn compare_orders_like_str() {
    let samples = [
        "", "a", "ab", "b", "1.25", "1.3", "latest", "Latest", "é", "z", "日本", "a\u{10000}", "a\u{ffff}",
    ];
    for a in samples.iter() {
        for b in samples.iter() {
            let expected = if a < b {
                Rank::Before
            } else if a == b {
                Rank::Same
            } else {
                Rank::After
            };
            assert_eq!(compare(a, b), expected, "{:?} against {:?}", a, b);
        }
    }
}

#[test]
fn compare_prefix_comes_first() {
    assert_eq!(compare("1.2", "1.25"), Rank::Before);
    assert_eq!(compare("1.25", "1.2"), Rank::After);
    assert_eq!(compare("1.25", "1.25"), Rank::Same);
}

#[test]
fn text_eq_is_exact() {
    assert!(text_eq("latest", "latest"));
    assert!(!text_eq("latest", "Latest"));
    assert!(!text_eq("", " "));
}

#[test]
fn opt_text_eq_tells_none_from_empty() {
    assert!(opt_text_eq(&None, &None));
    assert!(!opt_text_eq(&None, &Some(String::new())));
    assert!(opt_text_eq(&Some("a".to_string()), &Some("a".to_string())));
    assert!(!opt_text_eq(&Some("a".to_string()), &Some("b".to_string())));
}

#[test]
fn contains_text_finds_members_only() {
    let v = vec!["a".to_string(), "b".to_string()];
    assert!(contains_text(&v, "a"));
    assert!(contains_text(&v, "b"));
    assert!(!contains_text(&v, "c"));
    assert!(!contains_text(&Vec::new(), "a"));
}

#[test]
fn error_kinds_have_their_names() {
    assert_eq!(ErrorKind::RegistryUnreachable.name(), "RegistryUnreachable");
    assert_eq!(ErrorKind::RegistryResponseInvalid.name(), "RegistryResponseInvalid");
    assert_eq!(ErrorKind::RegistryNotFound.name(), "RegistryNotFound");
    assert_eq!(ErrorKind::RuntimeInvocationFailed.name(), "RuntimeInvocationFailed");
    assert_eq!(ErrorKind::ProfileNotFound.name(), "ProfileNotFound");
}
