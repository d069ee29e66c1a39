use smartedit::fspath::{file_name, join, lexical_path, parent, starts_with_path, strip_prefix, PathMap};

#[test]
fn parent_drops_the_last_component() {
    assert_eq!(parent("a/b/c"), Some("a/b".to_owned()));
    assert_eq!(parent("a"), Some(String::new()));
    assert_eq!(parent("/a"), Some("/".to_owned()));
    assert_eq!(parent("/"), None);
    assert_eq!(parent(""), None);
}

#[test]
fn file_name_is_the_last_normal_component() {
    assert_eq!(file_name("a/b.txt"), Some("b.txt".to_owned()));
    assert_eq!(file_name("b.txt"), Some("b.txt".to_owned()));
    assert_eq!(file_name("a/b/"), Some("b".to_owned()));
    assert_eq!(file_name("a/.."), None);
    assert_eq!(file_name("/"), None);
}

#[test]
fn join_appends_relative_and_replaces_with_absolute() {
    assert_eq!(join("a", "b"), "a/b");
    assert_eq!(join("a/", "b"), "a/b");
    assert_eq!(join("a", "/b"), "/b");
    assert_eq!(join("", "b"), "b");
}

#[test]
fn strip_prefix_works_by_components() {
    assert_eq!(strip_prefix("a/b/c", "a"), Some("b/c".to_owned()));
    assert_eq!(strip_prefix("a/b", "a/b"), Some(String::new()));
    assert_eq!(strip_prefix("ab/c", "a"), None);
    assert!(starts_with_path("a/b/c", "a/b"));
    assert!(!starts_with_path("a/bc", "a/b"));
}

#[test]
fn lexical_path_resolves_dots() {
    assert_eq!(lexical_path("a/./b/../c"), "a/c");
    assert_eq!(lexical_path("/../a"), "/a");
    assert_eq!(lexical_path("../a"), "../a");
    assert_eq!(lexical_path("a/b/../../.."), "..");
}

#[test]
fn path_map_keeps_one_value_per_key() {
    let mut m: PathMap<u32> = PathMap::new();
    m.set("b".to_owned(), 1);
    m.set("a".to_owned(), 2);
    m.set("b".to_owned(), 3);
    assert_eq!(m.get("b"), Some(&3));
    assert_eq!(m.get("a"), Some(&2));
    assert_eq!(m.get("c"), None);
    m.remove("a");
    assert_eq!(m.get("a"), None);
    assert_eq!(m.get("b"), Some(&3));
}
