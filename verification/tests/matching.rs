use book_catalog::{contains_substring, str_eq};

#[test]
fn test_contains_substring_basic() {
    assert!(contains_substring("hello world", "hello"));
    assert!(contains_substring("hello world", "world"));
    assert!(contains_substring("hello world", "o w"));
    assert!(contains_substring("hello world", "hello world"));
    assert!(!contains_substring("hello world", "worlds"));
    assert!(!contains_substring("hello world", "Hello"));
}

#[test]
fn test_contains_substring_empty_cases() {
    assert!(contains_substring("", ""));
    assert!(contains_substring("abc", ""));
    assert!(!contains_substring("", "a"));
}

#[test]
fn test_contains_substring_needle_longer_than_hay() {
    assert!(!contains_substring("ab", "abc"));
}

#[test]
fn test_contains_substring_repeated_prefix() {
    // The match starts only after a partial match fails.
    assert!(contains_substring("aaab", "aab"));
    assert!(!contains_substring("aaab", "abb"));
}

#[test]
fn test_str_eq() {
    assert!(str_eq("", ""));
    assert!(str_eq("abc", "abc"));
    assert!(!str_eq("abc", "abd"));
    assert!(!str_eq("abc", "ab"));
    assert!(!str_eq("abc", "ABC"));
}
