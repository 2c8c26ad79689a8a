use subcontext::number::{parse_i64, parse_usize};
use subcontext::order::{comes_before, sort_pairs};
use subcontext::text::{
    contains, ends_with, join, lines, natural_text, number_text, replace, split, starts_with,
    strip_prefix, strip_suffix, trim,
};

fn row(items: &[&str]) -> Vec<String> {
    items.iter().map(|s| s.to_string()).collect()
}

#[test]
fn lines_are_cut_at_newlines() {
    assert_eq!(lines("a\nb\n"), row(&["a", "b"]));
    assert_eq!(lines("a\r\n\nb"), row(&["a", "", "b"]));
    assert_eq!(lines(""), row(&[]));
    assert_eq!(lines("\n"), row(&[""]));
    assert_eq!(lines("a\rb\r"), "a\rb\r".lines().map(|s| s.to_string()).collect::<Vec<_>>());
}

#[test]
fn trimming_takes_white_space_at_both_ends() {
    assert_eq!(trim("  a b\t\n"), "a b");
    assert_eq!(trim("\u{a0}x\u{3000}"), "x");
    assert_eq!(trim(" \n "), "");
}

#[test]
fn prefixes_and_suffixes() {
    assert!(starts_with("gitdir: x", "gitdir: "));
    assert!(!starts_with("git", "gitdir"));
    assert!(ends_with("a.git", ".git"));
    assert!(!ends_with("git", ".git"));
    assert_eq!(strip_prefix("refs/heads/x", "refs/heads/"), Some("x".to_string()));
    assert_eq!(strip_prefix("x", "refs/"), None);
    assert_eq!(strip_suffix("a.git", ".git"), Some("a".to_string()));
    assert_eq!(strip_suffix("a", ".git"), None);
    assert!(contains("a subcontext b", "subcontext"));
    assert!(contains("a", ""));
    assert!(!contains("sub context", "subcontext"));
}

#[test]
fn joining_and_splitting() {
    assert_eq!(join(&row(&["a", "b", "c"]), ": "), "a: b: c");
    assert_eq!(join(&row(&[]), ": "), "");
    assert_eq!(split("a/b//", '/'), row(&["a", "b", "", ""]));
    assert_eq!(split("", '/'), row(&[""]));
}

#[test]
fn replacing_goes_from_left_to_right() {
    assert_eq!(replace("it's", "'", "''"), "it''s");
    assert_eq!(replace("aaa", "aa", "b"), "ba");
    assert_eq!(replace("abc", "x", "y"), "abc");
}

#[test]
fn numbers_are_told_in_decimal() {
    assert_eq!(natural_text(0), "0");
    assert_eq!(natural_text(u64::MAX), "18446744073709551615");
    assert_eq!(number_text(120), "120");
}

#[test]
fn integers_are_read_as_std_reads_them() {
    let inputs = [
        "0", "-0", "+7", "-42", "9223372036854775807", "9223372036854775808",
        "-9223372036854775808", "-9223372036854775809", "", "+", "-", "1a", " 1", "--1", "+-1",
        "00012", "18446744073709551615", "18446744073709551616",
    ];
    for s in inputs {
        let expected = s.parse::<i64>().map_err(|e| e.to_string());
        assert_eq!(parse_i64(s), expected, "{s}");
        let expected = s.parse::<usize>().map_err(|e| e.to_string());
        assert_eq!(parse_usize(s), expected, "{s}");
    }
}

#[test]
fn order_is_that_of_characters() {
    assert!(comes_before("a", "b"));
    assert!(comes_before("a", "ab"));
    assert!(!comes_before("b", "a"));
    assert!(!comes_before("a", "a"));
    assert!(comes_before("Z", "a"));
}

#[test]
fn sorting_pairs_goes_by_name_and_is_stable() {
    let pairs: Vec<(String, String)> =
        [("b", "1"), ("a", "2"), ("a", "1")].iter().map(|(a, b)| (a.to_string(), b.to_string())).collect();
    let mut expected = pairs.clone();
    expected.sort_by(|a, b| a.0.cmp(&b.0));
    assert_eq!(sort_pairs(pairs), expected);
}
