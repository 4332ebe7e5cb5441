use bit_core::query_check::query_check_outcome;

fn fields(pairs: &[(&str, &str)]) -> Vec<(String, String)> {
    pairs.iter().map(|(k, v)| (k.to_string(), v.to_string())).collect()
}

fn ev(r: &(String, String, Vec<(String, String)>), key: &str) -> Option<String> {
    r.2.iter().find(|(k, _)| k == key).map(|(_, v)| v.clone())
}

#[test]
fn query_check_requires_an_entity() {
    let r = query_check_outcome(&fields(&[("min", "1")]), 3, true, &vec![]);
    assert_eq!(r.0, "error");
    assert_eq!(r.1, "query check requires entity");
    assert!(r.2.is_empty());
}

#[test]
fn query_check_on_an_entity_without_table_is_an_error() {
    let r = query_check_outcome(&fields(&[("entity", "Client")]), 0, false, &vec![]);
    assert_eq!(r.0, "error");
    assert_eq!(r.1, "Entity @Client has no data in store — check may reference wrong entity");
    assert_eq!(ev(&r, "count"), Some("0".to_string()));
}

#[test]
fn query_check_field_equals_ignores_quotes() {
    let f = fields(&[("entity", "Client"), ("field", "tier"), ("equals", "\"gold\"")]);
    let r = query_check_outcome(&f, 2, true, &vec!["silver".to_string(), "gold".to_string()]);
    assert_eq!(r.0, "passed");
    assert_eq!(r.1, "query @Client matched tier = \"gold\"");
    assert_eq!(ev(&r, "observed"), Some("silver|gold".to_string()));
    let r2 = query_check_outcome(&f, 1, true, &vec!["silver".to_string()]);
    assert_eq!(r2.0, "failed");
    assert_eq!(r2.1, "query @Client did not match tier = \"gold\"");
}

#[test]
fn query_check_field_contains() {
    let f = fields(&[("entity", "Client"), ("field", "name"), ("contains", "cme")]);
    let r = query_check_outcome(&f, 1, true, &vec!["acme".to_string()]);
    assert_eq!(r.0, "passed");
    assert_eq!(r.1, "query @Client matched name contains cme");
}

#[test]
fn query_check_counts() {
    let r = query_check_outcome(&fields(&[("entity", "Task"), ("expect_count", "3")]), 3, true, &vec![]);
    assert_eq!((r.0.as_str(), r.1.as_str()), ("passed", "query @Task returned 3 record(s)"));
    assert_eq!(ev(&r, "expect_count"), Some("3".to_string()));
    let r = query_check_outcome(&fields(&[("entity", "Task"), ("min", "5")]), 3, true, &vec![]);
    assert_eq!(r.0, "failed");
    assert_eq!(ev(&r, "min"), Some("5".to_string()));
    let r = query_check_outcome(&fields(&[("entity", "Task"), ("max_count", "5")]), 3, true, &vec![]);
    assert_eq!(r.0, "passed");
    let r = query_check_outcome(&fields(&[("entity", "Task"), ("equals", "2")]), 3, true, &vec![]);
    assert_eq!(r.0, "failed");
    let r = query_check_outcome(&fields(&[("entity", "Task")]), 0, true, &vec![]);
    assert_eq!(r.0, "failed");
    let r = query_check_outcome(&fields(&[("entity", "Old"), ("entity", "Task")]), 1, true, &vec![]);
    assert_eq!(r.1, "query @Task returned 1 record(s)");
}
