use subcontext::excludes::{clean_excludes, exclude_markers, excludes_with};

fn files(items: &[&str]) -> Vec<String> {
    items.iter().map(|s| s.to_string()).collect()
}

#[test]
fn markers_are_tagged_for_worktrees() {
    assert_eq!(
        exclude_markers(&None),
        ("# subcontext-overlay-start".to_string(), "# subcontext-overlay-end".to_string())
    );
    assert_eq!(
        exclude_markers(&Some("wt".to_string())),
        ("# subcontext-overlay-start:wt".to_string(), "# subcontext-overlay-end:wt".to_string())
    );
}

#[test]
fn sync_adds_one_section() {
    let out = excludes_with("*.o\n", &None, &files(&["a", "b/c"]));
    assert_eq!(out, "*.o\n# subcontext-overlay-start\na\nb/c\n# subcontext-overlay-end\n");
    assert_eq!(excludes_with("*.o", &None, &files(&[])), "*.o\n");
    assert_eq!(excludes_with("", &None, &files(&[])), "");
}

#[test]
fn last_sync_wins() {
    let once = excludes_with("*.o\n", &None, &files(&["a"]));
    let twice = excludes_with(&once, &None, &files(&["b"]));
    assert_eq!(twice, excludes_with("*.o\n", &None, &files(&["b"])));
}

#[test]
fn syncing_again_changes_nothing() {
    let once = excludes_with("*.o\r\na\rb\n", &None, &files(&["x\ry"]));
    assert_eq!(
        once,
        "*.o\na\rb\n# subcontext-overlay-start\nx\ry\n# subcontext-overlay-end\n"
    );
    assert_eq!(excludes_with(&once, &None, &files(&["x\ry"])), once);
}

#[test]
fn sync_keeps_the_sections_of_other_worktrees() {
    let main = excludes_with("*.o\n", &None, &files(&["a"]));
    let both = excludes_with(&main, &Some("wt".to_string()), &files(&["b"]));
    let expected = "*.o\n# subcontext-overlay-start\na\n# subcontext-overlay-end\n\
                    # subcontext-overlay-start:wt\nb\n# subcontext-overlay-end:wt\n";
    assert_eq!(both, expected);
    // Dropping the files of the main checkout leaves the other section.
    let left = excludes_with(&both, &None, &files(&[]));
    assert_eq!(left, "*.o\n# subcontext-overlay-start:wt\nb\n# subcontext-overlay-end:wt\n");
}

#[test]
fn cleaning_undoes_sync() {
    let text = "*.o\ntarget\n";
    let main = excludes_with(text, &None, &files(&["a"]));
    let both = excludes_with(&main, &Some("wt".to_string()), &files(&["b"]));
    assert_eq!(clean_excludes(&both), text);
}

#[test]
fn cleaning_ends_with_a_newline() {
    assert_eq!(clean_excludes(""), "\n");
    assert_eq!(clean_excludes("# subcontext-overlay-start\nx"), "\n");
    assert_eq!(clean_excludes("a"), "a\n");
}
