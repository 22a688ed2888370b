use image_sync::intake::{library_from_answer, library_from_text, offered_tags};
use image_sync::registry::TagDescriptor;

fn named(name: &str) -> TagDescriptor {
    TagDescriptor { name: name.to_string(), digest: None, platforms: Vec::new() }
}

#[test]
fn empty_text_names_no_library() {
    assert_eq!(library_from_text(String::new()), None);
}

#[test]
fn text_names_the_library_as_given() {
    assert_eq!(library_from_text("bitnami".to_string()), Some("bitnami".to_string()));
    assert_eq!(library_from_text(" ".to_string()), Some(" ".to_string()));
}

#[test]
fn answer_is_trimmed() {
    assert_eq!(library_from_answer("  bitnami \n"), Some("bitnami".to_string()));
    assert_eq!(library_from_answer("bitnami"), Some("bitnami".to_string()));
    assert_eq!(library_from_answer("a b"), Some("a b".to_string()));
}

#[test]
fn blank_answer_names_no_library() {
    assert_eq!(library_from_answer(""), None);
    assert_eq!(library_from_answer("   "), None);
    assert_eq!(library_from_answer("\t\n"), None);
}

#[test]
fn offered_tags_descend() {
    let listing = vec![named("1.25"), named("latest"), named("alpine"), named("1.3")];
    assert_eq!(offered_tags(&listing), vec!["latest", "alpine", "1.3", "1.25"]);
}

#[test]
fn offered_tags_keep_repetitions() {
    let listing = vec![named("a"), named("b"), named("a")];
    assert_eq!(offered_tags(&listing), vec!["b", "a", "a"]);
}

#[test]
fn offered_tags_of_nothing_are_none() {
    assert!(offered_tags(&Vec::new()).is_empty());
}

#[test]
fn offered_tags_agree_with_a_descending_sort() {
    let names = ["stable", "1", "1.1", "1.10", "1.2", "", "é", "Z", "z", "mainline", "1"];
    let listing: Vec<TagDescriptor> = names.iter().map(|n| named(n)).collect();
    let mut expected: Vec<String> = names.iter().map(|n| n.to_string()).collect();
    expected.sort_by(|a, b| b.cmp(a));
    assert_eq!(offered_tags(&listing), expected);
}
