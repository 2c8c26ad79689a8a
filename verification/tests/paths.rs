use subcontext::paths::{
    file_name, is_absolute, join_path, normalize_path, parent, relative, same_path,
};

#[test]
fn joining_puts_one_slash_between() {
    assert_eq!(join_path("/a", "b"), "/a/b");
    assert_eq!(join_path("/a/", "b"), "/a/b");
    assert_eq!(join_path("/a", "/b"), "/b");
    assert_eq!(join_path("", "b"), "b");
}

#[test]
fn absolute_paths_begin_with_a_slash() {
    assert!(is_absolute("/a"));
    assert!(!is_absolute("a"));
    assert!(!is_absolute(""));
}

#[test]
fn parents_and_names() {
    assert_eq!(parent("/a/b/"), Some("/a".to_string()));
    assert_eq!(parent("/a"), Some("/".to_string()));
    assert_eq!(parent("/"), None);
    assert_eq!(parent("a"), Some("".to_string()));
    assert_eq!(parent(""), None);
    assert_eq!(file_name("/a/b.txt"), Some("b.txt".to_string()));
    assert_eq!(file_name("/a/.."), None);
    assert_eq!(file_name("/"), None);
}

#[test]
fn relative_paths_need_the_same_start() {
    assert_eq!(relative("/repo/a/b", "/repo"), Some("a/b".to_string()));
    assert_eq!(relative("/repo//a/./b/", "/repo/"), Some("a/./b".to_string()));
    assert_eq!(relative("/repository", "/repo"), None);
    assert_eq!(relative("/repo", "/repo"), Some("".to_string()));
}

#[test]
fn equal_paths_have_the_same_parts() {
    assert!(same_path("/a//b/", "/a/./b"));
    assert!(!same_path("/a/b", "a/b"));
    assert!(!same_path("/a", "/a/b"));
}

#[test]
fn normalizing_resolves_dots() {
    assert_eq!(normalize_path("/a/./b/../c"), "/a/c");
    assert_eq!(normalize_path("/../a"), "/a");
    assert_eq!(normalize_path("./a/b/.."), "a");
    assert_eq!(normalize_path("a/../.."), "");
}
