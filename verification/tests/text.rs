use hyfetcher::text::contains;
use hyfetcher::text::insert_before_first;
use hyfetcher::text::replace_all;
use hyfetcher::text::segment_after_last_slash;
use hyfetcher::text::starts_with;

#[test]
fn starts_with_checks_the_prefix() {
    assert!(starts_with("https://host/x", "https://"));
    assert!(!starts_with("http://host/x", "https://"));
    assert!(starts_with("abc", ""));
    assert!(!starts_with("ab", "abc"));
}

#[test]
fn contains_finds_substrings_anywhere() {
    assert!(contains("https://www.bilibili.com/v", "bilibili.com"));
    assert!(!contains("https://example.net", "bilibili.com"));
    assert!(contains("abc", "abc"));
    assert!(contains("abc", ""));
}

#[test]
fn replace_all_rewrites_every_occurrence() {
    assert_eq!(replace_all("aXbXc", "X", "--"), "a--b--c");
    assert_eq!(replace_all("no match", "X", "Y"), "no match");
    assert_eq!(replace_all("XXX", "XX", "Y"), "YX");
    assert_eq!(replace_all("", "X", "Y"), "");
}

#[test]
fn segment_after_last_slash_takes_the_trailing_run() {
    assert_eq!(
        segment_after_last_slash("https://host/a/b.jpg"),
        Some("b.jpg".to_string())
    );
    assert_eq!(segment_after_last_slash("plain"), Some("plain".to_string()));
    // A string ending in a separator has nothing after its last slash.
    assert_eq!(segment_after_last_slash("https://host/a/b/"), None);
    assert_eq!(segment_after_last_slash("https://host/"), None);
    assert_eq!(segment_after_last_slash("////"), None);
    assert_eq!(segment_after_last_slash(""), None);
}

#[test]
fn insert_before_first_targets_only_the_first_occurrence() {
    assert_eq!(insert_before_first("aXbXc", "X", "--"), "a--XbXc");
    assert_eq!(insert_before_first("no match", "X", "--"), "no match");
    assert_eq!(insert_before_first("X", "X", "--"), "--X");
    assert_eq!(insert_before_first("", "X", "--"), "");
}
