use bit_core::eval::{levenshtein, parse_filter_predicates};

#[test]
fn parse_filter_predicates_basic() {
    let preds = parse_filter_predicates("status=open and points>3");
    assert_eq!(preds.len(), 2);
    assert_eq!(preds[0].field, "status");
    assert_eq!(preds[0].op, "=");
    assert_eq!(preds[0].value, "open");
    assert_eq!(preds[1].field, "points");
    assert_eq!(preds[1].op, ">");
    assert_eq!(preds[1].value, "3");
}

#[test]
fn levenshtein_same() {
    assert_eq!(levenshtein("hello", "hello"), 0);
}

#[test]
fn levenshtein_one_edit() {
    assert_eq!(levenshtein("cat", "bat"), 1);
}

#[test]
fn levenshtein_empty() {
    assert_eq!(levenshtein("", "abc"), 3);
    assert_eq!(levenshtein("abc", ""), 3);
}

#[test]
fn levenshtein_is_symmetric_on_example() {
    assert_eq!(levenshtein("kitten", "sitting"), 3);
    assert_eq!(levenshtein("sitting", "kitten"), 3);
}
