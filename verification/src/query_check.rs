//! The outcome of a query check: given the check's settings and what its
//! query returned (how many records, whether the entity has a table, and
//! the values of the checked field), the status, the message and the
//! evidence.
use crate::parse::pairs_view;
use crate::schema_check::{last_value, last_value_exec};
use crate::text;
use vstd::prelude::*;

verus! {

/// A value without the double quotes at its ends.
pub open spec fn unquoted(v: Seq<char>) -> Seq<char> {
    text::trim_matches_char(v, '"')
}

/// One of the observed values equals the expected one, quotes aside.
pub open spec fn any_equal(observed: Seq<Seq<char>>, expected: Seq<char>) -> bool {
    exists|i: int| 0 <= i < observed.len() && unquoted(#[trigger] observed[i]) == unquoted(expected)
}

/// One of the observed values holds the expected text.
pub open spec fn any_contains(observed: Seq<Seq<char>>, expected: Seq<char>) -> bool {
    exists|i: int| 0 <= i < observed.len() && text::contains(#[trigger] observed[i], expected)
}

pub open spec fn pass_fail(b: bool) -> Seq<char> {
    if b {
        "passed"@
    } else {
        "failed"@
    }
}

/// `query @entity returned N record(s)`.
pub open spec fn returned_message(entity: Seq<char>, count: nat) -> Seq<char> {
    "query @"@ + entity + " returned "@ + text::decimal(count) + " record(s)"@
}

/// A count setting read as a number: the first key when present (read or
/// not), else the second.
pub open spec fn count_setting(fields: Seq<(Seq<char>, Seq<char>)>, key: Seq<char>, alt: Seq<char>) -> Option<usize> {
    let v = match last_value(fields, key) {
        Some(x) => Some(x),
        None => last_value(fields, alt),
    };
    match v {
        Some(x) => text::parse_usize(x),
        None => None,
    }
}

/// The outcome after the field comparisons: by the expected count, the
/// least and the greatest count, the count written as `equals`, else
/// whether any record came back.
pub open spec fn count_outcome(
    fields: Seq<(Seq<char>, Seq<char>)>,
    entity: Seq<char>,
    count: nat,
    ev: Seq<(Seq<char>, Seq<char>)>,
) -> (Seq<char>, Seq<char>, Seq<(Seq<char>, Seq<char>)>) {
    let msg = returned_message(entity, count);
    match count_setting(fields, "expect_count"@, "expect_count"@) {
        Some(n) => (pass_fail(count == n), msg, ev.push(("expect_count"@, text::decimal(n as nat)))),
        None => match count_setting(fields, "min_count"@, "min"@) {
            Some(n) => (pass_fail(count >= n), msg, ev.push(("min"@, text::decimal(n as nat)))),
            None => match count_setting(fields, "max_count"@, "max"@) {
                Some(n) => (pass_fail(count <= n), msg, ev.push(("max"@, text::decimal(n as nat)))),
                None => match last_value(fields, "equals"@) {
                    Some(x) => (pass_fail(text::decimal(count) == x), msg, ev),
                    None => (pass_fail(count > 0), msg, ev),
                },
            },
        },
    }
}

/// The outcome of a query check with settings `fields`, whose query
/// returned `count` records (`has_table`: the store has a table for the
/// entity) with `observed` as the values of the checked field.
pub open spec fn query_check_spec(
    fields: Seq<(Seq<char>, Seq<char>)>,
    count: nat,
    has_table: bool,
    observed: Seq<Seq<char>>,
) -> (Seq<char>, Seq<char>, Seq<(Seq<char>, Seq<char>)>) {
    let entity = match last_value(fields, "entity"@) {
        Some(e) => e,
        None => Seq::empty(),
    };
    if entity.len() == 0 {
        ("error"@, "query check requires entity"@, Seq::empty())
    } else {
        let ev0 = seq![("entity"@, entity), ("count"@, text::decimal(count))];
        if count == 0 && !has_table {
            (
                "error"@,
                "Entity @"@ + entity + " has no data in store — check may reference wrong entity"@,
                ev0,
            )
        } else {
            match last_value(fields, "field"@) {
                Some(f) => {
                    let ev1 = ev0.push(("field"@, f)) + if observed.len() > 0 {
                        seq![("observed"@, text::join(observed, "|"@))]
                    } else {
                        Seq::empty()
                    };
                    match last_value(fields, "equals"@) {
                        Some(x) => if any_equal(observed, x) {
                            ("passed"@, "query @"@ + entity + " matched "@ + f + " = "@ + x, ev1)
                        } else {
                            ("failed"@, "query @"@ + entity + " did not match "@ + f + " = "@ + x, ev1)
                        },
                        None => match last_value(fields, "contains"@) {
                            Some(x) => if any_contains(observed, x) {
                                ("passed"@, "query @"@ + entity + " matched "@ + f + " contains "@ + x, ev1)
                            } else {
                                ("failed"@, "query @"@ + entity + " did not match "@ + f + " contains "@ + x, ev1)
                            },
                            None => count_outcome(fields, entity, count, ev1),
                        },
                    }
                },
                None => count_outcome(fields, entity, count, ev0),
            }
        }
    }
}

fn char_vecs(v: &Vec<String>) -> (r: Vec<Vec<char>>)
    ensures
        text::views(r@) == text::str_views(v@),
{
    let mut out: Vec<Vec<char>> = Vec::new();
    let mut i: usize = 0;
    while i < v.len()
        invariant
            i <= v.len(),
            text::views(out@) == text::str_views(v@).take(i as int),
        decreases v.len() - i,
    {
        let c = text::string_chars(&v[i]);
        proof {
            text::lemma_views_push(out@, c);
        }
        out.push(c);
        assert(text::str_views(v@).take(i + 1) =~= text::str_views(v@).take(i as int).push(v@[i as int]@));
        i = i + 1;
    }
    assert(text::str_views(v@).take(v.len() as int) =~= text::str_views(v@));
    out
}

fn pass_fail_exec(b: bool) -> (r: Vec<char>)
    ensures
        r@ == pass_fail(b),
{
    if b {
        text::str_chars("passed")
    } else {
        text::str_chars("failed")
    }
}

fn count_setting_exec(fields: &Vec<(String, String)>, key: &str, alt: &str) -> (r: Option<usize>)
    ensures
        r == count_setting(pairs_view(fields@), key@, alt@),
{
    let v = match last_value_exec(fields, key) {
        Some(x) => Some(x),
        None => last_value_exec(fields, alt),
    };
    match v {
        Some(x) => text::parse_usize_chars(&x),
        None => None,
    }
}

fn pair(k: &str, v: Vec<char>) -> (r: (String, String))
    ensures
        r.0@ == k@,
        r.1@ == v@,
{
    (text::to_string(&text::str_chars(k)), text::to_string(&v))
}

fn returned_message_exec(entity: &Vec<char>, count: usize) -> (r: Vec<char>)
    ensures
        r@ == returned_message(entity@, count as nat),
{
    let mut m = text::str_chars("query @");
    text::append(&mut m, entity);
    text::append_str(&mut m, " returned ");
    text::append_decimal(&mut m, count);
    text::append_str(&mut m, " record(s)");
    m
}

fn count_outcome_exec(fields: &Vec<(String, String)>, entity: &Vec<char>, count: usize, ev: Vec<(String, String)>) -> (r: (
    String,
    String,
    Vec<(String, String)>,
))
    ensures
        (r.0@, r.1@, pairs_view(r.2@)) == count_outcome(pairs_view(fields@), entity@, count as nat, pairs_view(ev@)),
{
    let msg = text::to_string(&returned_message_exec(entity, count));
    let mut ev = ev;
    let ghost e0 = pairs_view(ev@);
    match count_setting_exec(fields, "expect_count", "expect_count") {
        Some(n) => {
            ev.push(pair("expect_count", text::decimal_chars(n)));
            assert(pairs_view(ev@) =~= e0.push(("expect_count"@, text::decimal(n as nat))));
            return (text::to_string(&pass_fail_exec(count == n)), msg, ev);
        },
        None => {},
    }
    match count_setting_exec(fields, "min_count", "min") {
        Some(n) => {
            ev.push(pair("min", text::decimal_chars(n)));
            assert(pairs_view(ev@) =~= e0.push(("min"@, text::decimal(n as nat))));
            return (text::to_string(&pass_fail_exec(count >= n)), msg, ev);
        },
        None => {},
    }
    match count_setting_exec(fields, "max_count", "max") {
        Some(n) => {
            ev.push(pair("max", text::decimal_chars(n)));
            assert(pairs_view(ev@) =~= e0.push(("max"@, text::decimal(n as nat))));
            return (text::to_string(&pass_fail_exec(count <= n)), msg, ev);
        },
        None => {},
    }
    match last_value_exec(fields, "equals") {
        Some(x) => {
            let c = text::decimal_chars(count);
            (text::to_string(&pass_fail_exec(text::eq(&c, &x))), msg, ev)
        },
        None => (text::to_string(&pass_fail_exec(count > 0)), msg, ev),
    }
}

fn any_equal_exec(observed: &Vec<String>, expected: &Vec<char>) -> (b: bool)
    ensures
        b == any_equal(text::str_views(observed@), expected@),
{
    let ghost ov = text::str_views(observed@);
    let want = text::trim_matches_char_exec(expected, '"');
    let mut i: usize = 0;
    while i < observed.len()
        invariant
            i <= observed.len(),
            ov == text::str_views(observed@),
            want@ == unquoted(expected@),
            forall|j: int| 0 <= j < i ==> unquoted(#[trigger] ov[j]) != unquoted(expected@),
        decreases observed.len() - i,
    {
        let o = text::string_chars(&observed[i]);
        assert(o@ == ov[i as int]);
        let u = text::trim_matches_char_exec(&o, '"');
        if text::eq(&u, &want) {
            return true;
        }
        i = i + 1;
    }
    false
}

fn any_contains_exec(observed: &Vec<String>, expected: &Vec<char>) -> (b: bool)
    ensures
        b == any_contains(text::str_views(observed@), expected@),
{
    let ghost ov = text::str_views(observed@);
    let mut i: usize = 0;
    while i < observed.len()
        invariant
            i <= observed.len(),
            ov == text::str_views(observed@),
            forall|j: int| 0 <= j < i ==> !text::contains(#[trigger] ov[j], expected@),
        decreases observed.len() - i,
    {
        let o = text::string_chars(&observed[i]);
        assert(o@ == ov[i as int]);
        if text::contains_chars(&o, expected) {
            return true;
        }
        i = i + 1;
    }
    false
}

/// The status (`passed`, `failed` or `error`), the message and the
/// evidence of a query check with settings `fields` (a later setting
/// replaces an earlier one), whose query returned `count` records
/// (`has_table`: the store has a table for the entity) with `observed` as
/// the values of the checked field.
pub fn query_check_outcome(fields: &Vec<(String, String)>, count: usize, has_table: bool, observed: &Vec<String>) -> (r: (
    String,
    String,
    Vec<(String, String)>,
))
    ensures
        (r.0@, r.1@, pairs_view(r.2@)) == query_check_spec(
            pairs_view(fields@),
            count as nat,
            has_table,
            text::str_views(observed@),
        ),
{
    let entity = match last_value_exec(fields, "entity") {
        Some(e) => e,
        None => Vec::new(),
    };
    if entity.len() == 0 {
        let ev: Vec<(String, String)> = Vec::new();
        assert(pairs_view(ev@) =~= Seq::empty());
        return (
            text::to_string(&text::str_chars("error")),
            text::to_string(&text::str_chars("query check requires entity")),
            ev,
        );
    }
    let mut ev: Vec<(String, String)> = Vec::new();
    ev.push(pair("entity", entity.clone()));
    ev.push(pair("count", text::decimal_chars(count)));
    let ghost ev0 = seq![("entity"@, entity@), ("count"@, text::decimal(count as nat))];
    assert(pairs_view(ev@) =~= ev0);
    if count == 0 && !has_table {
        let mut m = text::str_chars("Entity @");
        text::append(&mut m, &entity);
        text::append_str(&mut m, " has no data in store — check may reference wrong entity");
        return (text::to_string(&text::str_chars("error")), text::to_string(&m), ev);
    }
    match last_value_exec(fields, "field") {
        Some(f) => {
            ev.push(pair("field", f.clone()));
            let ghost ev1a = ev0.push(("field"@, f@));
            assert(pairs_view(ev@) =~= ev1a);
            if observed.len() > 0 {
                let parts = char_vecs(observed);
                let joined = text::join_chars(&parts, &text::str_chars("|"));
                ev.push(pair("observed", joined));
                assert(pairs_view(ev@) =~= ev1a + seq![("observed"@, text::join(text::str_views(observed@), "|"@))]);
            } else {
                assert(pairs_view(ev@) =~= ev1a + Seq::empty());
            }
            match last_value_exec(fields, "equals") {
                Some(x) => {
                    let hit = any_equal_exec(observed, &x);
                    let mut m = text::str_chars("query @");
                    text::append(&mut m, &entity);
                    if hit {
                        text::append_str(&mut m, " matched ");
                    } else {
                        text::append_str(&mut m, " did not match ");
                    }
                    text::append(&mut m, &f);
                    text::append_str(&mut m, " = ");
                    text::append(&mut m, &x);
                    return (text::to_string(&pass_fail_exec(hit)), text::to_string(&m), ev);
                },
                None => {},
            }
            match last_value_exec(fields, "contains") {
                Some(x) => {
                    let hit = any_contains_exec(observed, &x);
                    let mut m = text::str_chars("query @");
                    text::append(&mut m, &entity);
                    if hit {
                        text::append_str(&mut m, " matched ");
                    } else {
                        text::append_str(&mut m, " did not match ");
                    }
                    text::append(&mut m, &f);
                    text::append_str(&mut m, " contains ");
                    text::append(&mut m, &x);
                    return (text::to_string(&pass_fail_exec(hit)), text::to_string(&m), ev);
                },
                None => {},
            }
            count_outcome_exec(fields, &entity, count, ev)
        },
        None => count_outcome_exec(fields, &entity, count, ev),
    }
}

} // verus!
