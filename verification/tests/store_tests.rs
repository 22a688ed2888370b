use image_sync::error::ErrorKind;
use image_sync::profile::{copy_texts, PullProfile};
use image_sync::store::ProfileStore;

fn texts(items: &[&str]) -> Vec<String> {
    items.iter().map(|s| s.to_string()).collect()
}

fn names_of(store: &ProfileStore) -> Vec<String> {
    store.list().iter().map(|p| p.image()).collect()
}

#[test]
fn copy_texts_copies() {
    let v = texts(&["b", "a", "b"]);
    assert_eq!(copy_texts(&v), v);
}

#[test]
fn new_profile_wants_nothing() {
    let p = PullProfile::new(None, "nginx".to_string());
    assert_eq!(p.library(), None);
    assert_eq!(p.repo(), "nginx");
    assert!(p.tags().is_empty());
    assert!(p.is_deletable());
    assert_eq!(p.image(), "nginx");
}

#[test]
fn profile_image_uses_library() {
    let p = PullProfile::new(Some("bitnami".to_string()), "redis".to_string());
    assert_eq!(p.library(), Some("bitnami"));
    assert_eq!(p.image(), "bitnami/redis");
}

#[test]
fn profile_merge_is_a_sorted_union() {
    let mut p = PullProfile::new(None, "nginx".to_string());
    p.merge_tags(&texts(&["latest", "1.25", "latest"]));
    assert_eq!(p.tags(), &texts(&["1.25", "latest"]));
    p.merge_tags(&texts(&["alpine", "1.25"]));
    assert_eq!(p.tags(), &texts(&["1.25", "alpine", "latest"]));
    assert!(!p.is_deletable());
}

#[test]
fn profile_replace_overwrites() {
    let mut p = PullProfile::new(None, "nginx".to_string());
    p.merge_tags(&texts(&["latest", "1.25"]));
    p.replace_tags(&texts(&["stable", "1.25", "stable"]));
    assert_eq!(p.tags(), &texts(&["1.25", "stable"]));
    p.replace_tags(&Vec::new());
    assert!(p.is_deletable());
}

#[test]
fn profile_duplicate_is_equal() {
    let mut p = PullProfile::new(Some("a".to_string()), "b".to_string());
    p.merge_tags(&texts(&["x", "y"]));
    assert_eq!(p.duplicate(), p);
}

#[test]
fn new_store_tracks_nothing() {
    let store = ProfileStore::new();
    assert_eq!(store.len(), 0);
    assert!(store.list().is_empty());
    assert!(store.image_names().is_empty());
    assert!(store.get("nginx").is_none());
}

#[test]
fn add_twice_yields_one_profile_with_that_tag_set() {
    let mut store = ProfileStore::new();
    let tags = texts(&["latest", "1.25"]);
    store.merge_tags(None, "nginx".to_string(), &tags);
    let once = names_of(&store);
    let once_tags = store.get("nginx").unwrap().tags().clone();
    store.merge_tags(None, "nginx".to_string(), &tags);
    assert_eq!(store.len(), 1);
    assert_eq!(names_of(&store), once);
    assert_eq!(store.get("nginx").unwrap().tags(), &once_tags);
    assert_eq!(once_tags, texts(&["1.25", "latest"]));
}

#[test]
fn merge_unions_with_existing_tags() {
    let mut store = ProfileStore::new();
    store.merge_tags(None, "nginx".to_string(), &texts(&["latest"]));
    store.merge_tags(None, "nginx".to_string(), &texts(&["1.25", "latest"]));
    assert_eq!(store.get("nginx").unwrap().tags(), &texts(&["1.25", "latest"]));
}

#[test]
fn store_lists_in_key_order() {
    let mut store = ProfileStore::new();
    store.merge_tags(None, "redis".to_string(), &texts(&["7"]));
    store.merge_tags(Some("bitnami".to_string()), "redis".to_string(), &texts(&["7"]));
    store.merge_tags(None, "nginx".to_string(), &texts(&["latest"]));
    store.merge_tags(None, "alpine".to_string(), &texts(&["3"]));
    assert_eq!(
        store.image_names(),
        texts(&["alpine", "bitnami/redis", "nginx", "redis"])
    );
    assert_eq!(names_of(&store), store.image_names());
    assert_eq!(store.len(), 4);
}

#[test]
fn absent_library_differs_from_empty_library() {
    let mut store = ProfileStore::new();
    store.merge_tags(None, "nginx".to_string(), &texts(&["a"]));
    store.merge_tags(Some(String::new()), "nginx".to_string(), &texts(&["b"]));
    assert_eq!(store.len(), 2);
    assert_eq!(store.image_names(), texts(&["/nginx", "nginx"]));
    assert_eq!(store.get("nginx").unwrap().library(), None);
    assert_eq!(store.get("/nginx").unwrap().library(), Some(""));
}

#[test]
fn identities_with_one_canonical_form_share_a_profile() {
    let mut store = ProfileStore::new();
    store.merge_tags(Some("a".to_string()), "b/c".to_string(), &texts(&["x"]));
    store.merge_tags(Some("a/b".to_string()), "c".to_string(), &texts(&["y"]));
    assert_eq!(store.len(), 1);
    let p = store.get("a/b/c").unwrap();
    assert_eq!(p.library(), Some("a"));
    assert_eq!(p.repo(), "b/c");
    assert_eq!(p.tags(), &texts(&["x", "y"]));
}

#[test]
fn get_or_create_inserts_an_empty_profile_once() {
    let mut store = ProfileStore::new();
    {
        let p = store.get_or_create(None, "nginx".to_string());
        assert!(p.tags().is_empty());
        assert_eq!(p.image(), "nginx");
    }
    assert_eq!(store.len(), 1);
    store.merge_tags(None, "nginx".to_string(), &texts(&["latest"]));
    {
        let p = store.get_or_create(None, "nginx".to_string());
        assert_eq!(p.tags(), &texts(&["latest"]));
    }
    assert_eq!(store.len(), 1);
}

#[test]
fn editing_down_to_zero_tags_removes_the_profile() {
    let mut store = ProfileStore::new();
    store.merge_tags(None, "nginx".to_string(), &texts(&["latest", "1.25"]));
    store.merge_tags(None, "redis".to_string(), &texts(&["7"]));
    assert_eq!(store.replace_tags("nginx", &Vec::new()), Ok(()));
    assert!(store.get("nginx").is_none());
    assert_eq!(store.image_names(), texts(&["redis"]));
    assert_eq!(store.get("redis").unwrap().tags(), &texts(&["7"]));
}

#[test]
fn editing_keeps_the_chosen_tags() {
    let mut store = ProfileStore::new();
    store.merge_tags(None, "nginx".to_string(), &texts(&["latest", "1.25", "alpine"]));
    assert_eq!(store.replace_tags("nginx", &texts(&["latest", "1.25"])), Ok(()));
    assert_eq!(store.get("nginx").unwrap().tags(), &texts(&["1.25", "latest"]));
    assert_eq!(store.len(), 1);
}

#[test]
fn editing_an_unknown_profile_fails_and_changes_nothing() {
    let mut store = ProfileStore::new();
    store.merge_tags(None, "nginx".to_string(), &texts(&["latest"]));
    assert_eq!(
        store.replace_tags("redis", &texts(&["7"])),
        Err(ErrorKind::ProfileNotFound)
    );
    assert_eq!(store.image_names(), texts(&["nginx"]));
    assert_eq!(store.get("nginx").unwrap().tags(), &texts(&["latest"]));
}

#[test]
fn merging_nothing_creates_a_deletable_profile() {
    let mut store = ProfileStore::new();
    store.merge_tags(None, "nginx".to_string(), &Vec::new());
    assert_eq!(store.len(), 1);
    assert!(store.get("nginx").unwrap().is_deletable());
}
