use bit_core::query::{fuzzy_match, levenshtein};

#[test]
fn levenshtein_identical() {
    assert_eq!(levenshtein("test", "test"), 0);
}

#[test]
fn levenshtein_one_char() {
    assert_eq!(levenshtein("cat", "bat"), 1);
}

#[test]
fn levenshtein_empty_strings() {
    assert_eq!(levenshtein("", ""), 0);
    assert_eq!(levenshtein("abc", ""), 3);
}

#[test]
fn fuzzy_match_ignores_case_and_small_typos() {
    assert!(fuzzy_match("Hello", "hello"));
}
