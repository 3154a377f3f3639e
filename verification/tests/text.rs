use herdr_branch_cleanup::text::{
    char_is_ws, chars_of, concat2, concat3, concat4, contains_str, decimal_string, ends_with,
    first_word_str, lines_of, owned, same_text, slice_chars, starts_with, strip_prefix_str,
    text_less, trim_str,
};

#[test]
fn trim_matches_std_on_unicode_whitespace() {
    for sample in [
        "",
        "   ",
        "  main\n",
        "\t\r\nfeature/x \u{a0}",
        "\u{2003}wide\u{3000}",
        "inner  space",
        "x",
    ] {
        assert_eq!(trim_str(sample), sample.trim());
    }
    assert!(char_is_ws('\u{85}'));
    assert!(char_is_ws('\u{2028}'));
    assert!(!char_is_ws('\u{200b}'));
    assert!(!char_is_ws('a'));
}

#[test]
fn lines_match_std() {
    for sample in ["", "\n", "a", "a\nb", "a\r\nb\r\n", "a\n\nb\n", "\r\n", "a\rb\n", "x\r"] {
        let expected: Vec<String> = sample.lines().map(str::to_owned).collect();
        assert_eq!(lines_of(sample), expected, "{sample:?}");
    }
}

#[test]
fn first_word_matches_split_whitespace() {
    assert_eq!(first_word_str("  abc def"), Some("abc".to_owned()));
    assert_eq!(first_word_str("ref: refs/heads/main\tHEAD"), Some("ref:".to_owned()));
    assert_eq!(first_word_str("   "), None);
    assert_eq!(first_word_str(""), None);
    assert_eq!(first_word_str("one"), Some("one".to_owned()));
}

#[test]
fn prefixes_suffixes_and_containment() {
    assert!(starts_with("refs/heads/main", "refs/heads/"));
    assert!(!starts_with("refs", "refs/heads/"));
    assert!(starts_with("abc", ""));
    assert!(ends_with("repo/.git", "/.git"));
    assert!(!ends_with("git", ".git"));
    assert_eq!(strip_prefix_str("refs/heads/main", "refs/heads/"), Some("main".to_owned()));
    assert_eq!(strip_prefix_str("main", "refs/heads/"), None);
    assert!(contains_str("git@github.com:o/r", "github.com"));
    assert!(!contains_str("gitlab.com", "github.com"));
    assert!(contains_str("anything", ""));
}

#[test]
fn decimal_digits() {
    assert_eq!(decimal_string(0), "0");
    assert_eq!(decimal_string(7), "7");
    assert_eq!(decimal_string(4321), "4321");
    assert_eq!(decimal_string(u64::MAX), u64::MAX.to_string());
}

#[test]
fn concatenation_and_copies() {
    assert_eq!(concat2("a", "b"), "ab");
    assert_eq!(concat3("a", "", "c"), "ac");
    assert_eq!(concat4("w", "x", "y", "z"), "wxyz");
    assert_eq!(owned("é"), "é");
    assert_eq!(slice_chars("héllo", 1, 3), "él");
    assert_eq!(chars_of("hé"), vec!['h', 'é']);
}

#[test]
fn text_order_is_the_order_of_str() {
    let words = ["", "a", "ab", "b", "B", "é", "z", "/repo", "/repo/a", "/repo2"];
    for a in words {
        for b in words {
            assert_eq!(text_less(a, b), a < b, "{a:?} < {b:?}");
            assert_eq!(same_text(a, b), a == b);
        }
    }
}
