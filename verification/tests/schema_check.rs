use bit_core::schema_check::execute_schema_check;
use bit_core::types::{FieldDef, FieldDefault};

fn settings(pairs: &[(&str, &str)]) -> Vec<(String, String)> {
    pairs.iter().map(|(k, v)| (k.to_string(), v.to_string())).collect()
}

fn user_schema() -> Vec<(String, Vec<FieldDef>)> {
    vec![(
        "User".to_string(),
        vec![
            FieldDef { name: "name".to_string(), plural: false, default: FieldDefault::Str("".to_string()) },
            FieldDef { name: "tags".to_string(), plural: true, default: FieldDefault::List },
            FieldDef { name: "manager".to_string(), plural: false, default: FieldDefault::Nil },
        ],
    )]
}

fn ev(pairs: &[(&str, &str)]) -> Vec<(String, String)> {
    settings(pairs)
}

#[test]
fn schema_check_requires_entity() {
    let r = execute_schema_check(&settings(&[]), &user_schema());
    assert_eq!(r, ("error".to_string(), "schema check requires entity".to_string(), vec![]));
}

#[test]
fn schema_check_unknown_entity() {
    let r = execute_schema_check(&settings(&[("entity", "@Order")]), &user_schema());
    assert_eq!(r.0, "failed");
    assert_eq!(r.1, "@Order is not defined");
    assert_eq!(r.2, ev(&[("entity", "Order")]));
}

#[test]
fn schema_check_entity_defined() {
    let r = execute_schema_check(&settings(&[("entity", "@User")]), &user_schema());
    assert_eq!(r.0, "passed");
    assert_eq!(r.1, "@User is defined");
}

#[test]
fn schema_check_missing_field() {
    let r = execute_schema_check(&settings(&[("entity", "User"), ("field", "email")]), &user_schema());
    assert_eq!(r.0, "failed");
    assert_eq!(r.1, "@User is missing field 'email'");
    assert_eq!(r.2, ev(&[("entity", "User"), ("field", "email")]));
}

#[test]
fn schema_check_wrong_type() {
    let r = execute_schema_check(
        &settings(&[("entity", "@User"), ("field", "name"), ("type", "integer")]),
        &user_schema(),
    );
    assert_eq!(r.0, "failed");
    assert_eq!(r.1, "@User field 'name' has type 'string' not 'integer'");
    assert_eq!(
        r.2,
        ev(&[("entity", "User"), ("field", "name"), ("plural", "false"), ("type", "string")])
    );
}

#[test]
fn schema_check_wrong_plural() {
    let r = execute_schema_check(
        &settings(&[("entity", "@User"), ("field", "tags"), ("plural", " false ")]),
        &user_schema(),
    );
    assert_eq!(r.0, "failed");
    assert_eq!(r.1, "@User field 'tags' plural=true not false");
}

#[test]
fn schema_check_required_mismatch() {
    let r = execute_schema_check(
        &settings(&[("entity", "@User"), ("field", "manager"), ("required", "true")]),
        &user_schema(),
    );
    assert_eq!(r.0, "failed");
    assert_eq!(r.1, "@User field 'manager' required=false not true");
    assert_eq!(
        r.2,
        ev(&[
            ("entity", "User"),
            ("field", "manager"),
            ("plural", "false"),
            ("type", "nil"),
            ("required", "true"),
            ("actual_required", "false"),
        ])
    );
}

#[test]
fn schema_check_expected_schema() {
    let r = execute_schema_check(
        &settings(&[("entity", "@User"), ("field", "tags"), ("type", "list"), ("plural", "true"), ("required", "true")]),
        &user_schema(),
    );
    assert_eq!(r.0, "passed");
    assert_eq!(r.1, "@User has expected schema for 'tags'");
}

#[test]
fn schema_check_later_setting_replaces_earlier() {
    let r = execute_schema_check(
        &settings(&[("entity", "@Order"), ("entity", "@User"), ("field", "name")]),
        &user_schema(),
    );
    assert_eq!(r.0, "passed");
    assert_eq!(r.1, "@User has expected schema for 'name'");
}
