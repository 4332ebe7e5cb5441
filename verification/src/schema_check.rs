//! A schema check: whether an entity, and one of its fields, is declared
//! as a check's settings expect.
use crate::parse::pairs_view;
use crate::text;
use crate::text::trim;
use crate::types::{FieldDef, FieldDefault};
use vstd::prelude::*;

verus! {

/// The value of the last pair with the given key: a later setting
/// replaces an earlier one.
pub open spec fn last_value(body: Seq<(Seq<char>, Seq<char>)>, key: Seq<char>) -> Option<Seq<char>>
    decreases body.len(),
{
    if body.len() == 0 {
        None
    } else if body.last().0 == key {
        Some(body.last().1)
    } else {
        last_value(body.drop_last(), key)
    }
}

pub(crate) fn last_value_exec(body: &Vec<(String, String)>, key: &str) -> (r: Option<Vec<char>>)
    ensures
        crate::line::opt_view(r) == last_value(pairs_view(body@), key@),
{
    let ghost pv = pairs_view(body@);
    let mut i: usize = body.len();
    assert(pv.take(i as int) =~= pv);
    while i > 0
        invariant
            i <= body.len(),
            pv == pairs_view(body@),
            last_value(pv, key@) == last_value(pv.take(i as int), key@),
        decreases i,
    {
        assert(pv.take(i as int).last() == (body@[i - 1].0@, body@[i - 1].1@));
        assert(pv.take(i as int).drop_last() =~= pv.take(i - 1));
        let k = text::string_chars(&body[i - 1].0);
        if text::eq_str(&k, key) {
            return Some(text::string_chars(&body[i - 1].1));
        }
        i = i - 1;
    }
    None
}

/// The type name of a field's default value.
pub open spec fn default_type(d: FieldDefault) -> Seq<char> {
    match d {
        FieldDefault::Str(_) => "string"@,
        FieldDefault::Int(_) => "integer"@,
        FieldDefault::Float(_) => "float"@,
        FieldDefault::Bool(_) => "boolean"@,
        FieldDefault::Atom(_) => "atom"@,
        FieldDefault::Enum(_) => "enum"@,
        FieldDefault::Ref(_) => "ref"@,
        FieldDefault::List => "list"@,
        FieldDefault::Timestamp(_) => "timestamp"@,
        FieldDefault::Nil => "nil"@,
    }
}

pub open spec fn bool_text(b: bool) -> Seq<char> {
    if b {
        "true"@
    } else {
        "false"@
    }
}

/// A setting read as a boolean: `true` or `false` once trimmed.
pub open spec fn bool_setting(v: Option<Seq<char>>) -> Option<bool> {
    match v {
        Some(s) => if trim(s) == "true"@ {
            Some(true)
        } else if trim(s) == "false"@ {
            Some(false)
        } else {
            None
        },
        None => None,
    }
}

/// The schema of the first entity of the given name.
pub open spec fn find_entity(es: Seq<(Seq<char>, Seq<FieldDef>)>, name: Seq<char>) -> Option<Seq<FieldDef>>
    decreases es.len(),
{
    if es.len() == 0 {
        None
    } else if es[0].0 == name {
        Some(es[0].1)
    } else {
        find_entity(es.drop_first(), name)
    }
}

/// The first field of the given name.
pub open spec fn find_field(fs: Seq<FieldDef>, name: Seq<char>) -> Option<FieldDef>
    decreases fs.len(),
{
    if fs.len() == 0 {
        None
    } else if fs[0].name@ == name {
        Some(fs[0])
    } else {
        find_field(fs.drop_first(), name)
    }
}

pub open spec fn entity_views(es: Seq<(String, Vec<FieldDef>)>) -> Seq<(Seq<char>, Seq<FieldDef>)> {
    es.map_values(|e: (String, Vec<FieldDef>)| (e.0@, e.1@))
}

/// A check's outcome: its status, its message and its evidence.
pub type Outcome = (Seq<char>, Seq<char>, Seq<(Seq<char>, Seq<char>)>);

/// The outcome for a field that is declared: its type, then its plural
/// flag, then whether it is required are held against the settings that
/// name them.
pub open spec fn field_outcome(
    settings: Seq<(Seq<char>, Seq<char>)>,
    entity: Seq<char>,
    fname: Seq<char>,
    fd: FieldDef,
) -> Outcome {
    let ty = default_type(fd.default);
    let ev = seq![("entity"@, entity), ("field"@, fname), ("plural"@, bool_text(fd.plural)), ("type"@, ty)];
    let head = "@"@ + entity + " field '"@ + fname + "'"@;
    match last_value(settings, "type"@) {
        Some(t) if ty != t => ("failed"@, head + " has type '"@ + ty + "' not '"@ + t + "'"@, ev),
        _ => match bool_setting(last_value(settings, "plural"@)) {
            Some(p) if fd.plural != p => (
                "failed"@,
                head + " plural="@ + bool_text(fd.plural) + " not "@ + bool_text(p),
                ev,
            ),
            _ => match bool_setting(last_value(settings, "required"@)) {
                Some(req) => {
                    let actual = !(fd.default is Nil);
                    let ev2 = ev + seq![("required"@, bool_text(req)), ("actual_required"@, bool_text(actual))];
                    if actual != req {
                        (
                            "failed"@,
                            head + " required="@ + bool_text(actual) + " not "@ + bool_text(req),
                            ev2,
                        )
                    } else {
                        ("passed"@, "@"@ + entity + " has expected schema for '"@ + fname + "'"@, ev2)
                    }
                },
                None => ("passed"@, "@"@ + entity + " has expected schema for '"@ + fname + "'"@, ev),
            },
        },
    }
}

/// The outcome of a schema check with the given settings (`entity`,
/// `field`, `type`, `plural`, `required`) against the declared entities.
pub open spec fn schema_check_spec(
    settings: Seq<(Seq<char>, Seq<char>)>,
    es: Seq<(Seq<char>, Seq<FieldDef>)>,
) -> Outcome {
    let entity = text::trim_start_matches(
        match last_value(settings, "entity"@) {
            Some(v) => v,
            None => Seq::empty(),
        },
        "@"@,
    );
    if entity.len() == 0 {
        ("error"@, "schema check requires entity"@, Seq::empty())
    } else {
        match find_entity(es, entity) {
            None => ("failed"@, "@"@ + entity + " is not defined"@, seq![("entity"@, entity)]),
            Some(fs) => match last_value(settings, "field"@) {
                None => ("passed"@, "@"@ + entity + " is defined"@, seq![("entity"@, entity)]),
                Some(fname) => match find_field(fs, fname) {
                    None => (
                        "failed"@,
                        "@"@ + entity + " is missing field '"@ + fname + "'"@,
                        seq![("entity"@, entity), ("field"@, fname)],
                    ),
                    Some(fd) => field_outcome(settings, entity, fname, fd),
                },
            },
        }
    }
}

fn default_type_exec(d: &FieldDefault) -> (r: &'static str)
    ensures
        r@ == default_type(*d),
{
    let r = match d {
        FieldDefault::Str(_) => "string",
        FieldDefault::Int(_) => "integer",
        FieldDefault::Float(_) => "float",
        FieldDefault::Bool(_) => "boolean",
        FieldDefault::Atom(_) => "atom",
        FieldDefault::Enum(_) => "enum",
        FieldDefault::Ref(_) => "ref",
        FieldDefault::List => "list",
        FieldDefault::Timestamp(_) => "timestamp",
        FieldDefault::Nil => "nil",
    };
    proof {
        reveal_strlit("string");
        reveal_strlit("integer");
        reveal_strlit("float");
        reveal_strlit("boolean");
        reveal_strlit("atom");
        reveal_strlit("enum");
        reveal_strlit("ref");
        reveal_strlit("list");
        reveal_strlit("timestamp");
        reveal_strlit("nil");
    }
    r
}

fn bool_text_exec(b: bool) -> (r: Vec<char>)
    ensures
        r@ == bool_text(b),
{
    if b {
        text::str_chars("true")
    } else {
        text::str_chars("false")
    }
}

fn bool_setting_exec(v: Option<Vec<char>>) -> (r: Option<bool>)
    ensures
        r == bool_setting(crate::line::opt_view(v)),
{
    match v {
        Some(s) => {
            let t = text::trim_chars(&s);
            if text::eq_str(&t, "true") {
                Some(true)
            } else if text::eq_str(&t, "false") {
                Some(false)
            } else {
                None
            }
        },
        None => None,
    }
}

fn find_entity_exec(es: &Vec<(String, Vec<FieldDef>)>, name: &Vec<char>) -> (r: Option<usize>)
    ensures
        match r {
            Some(i) => i < es.len() && find_entity(entity_views(es@), name@) == Some(es@[i as int].1@),
            None => find_entity(entity_views(es@), name@) is None,
        },
{
    let ghost ev = entity_views(es@);
    let mut i: usize = 0;
    assert(ev.skip(0) =~= ev);
    while i < es.len()
        invariant
            i <= es.len(),
            ev == entity_views(es@),
            find_entity(ev, name@) == find_entity(ev.skip(i as int), name@),
        decreases es.len() - i,
    {
        assert(ev.skip(i as int)[0] == (es@[i as int].0@, es@[i as int].1@));
        assert(ev.skip(i as int).drop_first() =~= ev.skip(i + 1));
        if text::eq(&text::string_chars(&es[i].0), name) {
            return Some(i);
        }
        i = i + 1;
    }
    None
}

fn find_field_exec(fs: &Vec<FieldDef>, name: &Vec<char>) -> (r: Option<usize>)
    ensures
        match r {
            Some(i) => i < fs.len() && find_field(fs@, name@) == Some(fs@[i as int]),
            None => find_field(fs@, name@) is None,
        },
{
    let mut i: usize = 0;
    assert(fs@.skip(0) =~= fs@);
    while i < fs.len()
        invariant
            i <= fs.len(),
            find_field(fs@, name@) == find_field(fs@.skip(i as int), name@),
        decreases fs.len() - i,
    {
        assert(fs@.skip(i as int)[0] == fs@[i as int]);
        assert(fs@.skip(i as int).drop_first() =~= fs@.skip(i + 1));
        if text::eq(&text::string_chars(&fs[i].name), name) {
            return Some(i);
        }
        i = i + 1;
    }
    None
}

fn pair(k: &str, v: &Vec<char>) -> (r: (String, String))
    ensures
        r.0@ == k@,
        r.1@ == v@,
{
    (text::to_string(&text::str_chars(k)), text::to_string(v))
}

/// The message `@entity<rest>`.
fn at_entity(entity: &Vec<char>, rest: &str) -> (r: Vec<char>)
    ensures
        r@ == "@"@ + entity@ + rest@,
{
    let mut m = text::str_chars("@");
    text::append(&mut m, entity);
    text::append_str(&mut m, rest);
    m
}

/// `@entity field 'name'`.
fn field_head(entity: &Vec<char>, fname: &Vec<char>) -> (r: Vec<char>)
    ensures
        r@ == "@"@ + entity@ + " field '"@ + fname@ + "'"@,
{
    let mut m = at_entity(entity, " field '");
    text::append(&mut m, fname);
    text::append_str(&mut m, "'");
    m
}

fn outcome(status: &str, message: &Vec<char>, ev: Vec<(String, String)>) -> (r: (String, String, Vec<(String, String)>))
    ensures
        r.0@ == status@,
        r.1@ == message@,
        r.2@ == ev@,
{
    (text::to_string(&text::str_chars(status)), text::to_string(message), ev)
}

fn field_check(
    settings: &Vec<(String, String)>,
    entity: &Vec<char>,
    fname: &Vec<char>,
    fd: &FieldDef,
) -> (r: (String, String, Vec<(String, String)>))
    ensures
        (r.0@, r.1@, pairs_view(r.2@)) == field_outcome(pairs_view(settings@), entity@, fname@, *fd),
{
    let ghost sv = pairs_view(settings@);
    let ty = text::str_chars(default_type_exec(&fd.default));
    let mut ev: Vec<(String, String)> = Vec::new();
    ev.push(pair("entity", entity));
    ev.push(pair("field", fname));
    ev.push(pair("plural", &bool_text_exec(fd.plural)));
    ev.push(pair("type", &ty));
    let ghost evv = seq![("entity"@, entity@), ("field"@, fname@), ("plural"@, bool_text(fd.plural)), ("type"@, ty@)];
    assert(pairs_view(ev@) =~= evv);
    let head = field_head(entity, fname);
    match last_value_exec(settings, "type") {
        Some(t) => {
            if !text::eq(&ty, &t) {
                let mut m = head;
                text::append_str(&mut m, " has type '");
                text::append(&mut m, &ty);
                text::append_str(&mut m, "' not '");
                text::append(&mut m, &t);
                text::append_str(&mut m, "'");
                return outcome("failed", &m, ev);
            }
        },
        None => {},
    }
    match bool_setting_exec(last_value_exec(settings, "plural")) {
        Some(p) => {
            if fd.plural != p {
                let mut m = head;
                text::append_str(&mut m, " plural=");
                text::append(&mut m, &bool_text_exec(fd.plural));
                text::append_str(&mut m, " not ");
                text::append(&mut m, &bool_text_exec(p));
                return outcome("failed", &m, ev);
            }
        },
        None => {},
    }
    let passed = {
        let mut m = at_entity(entity, " has expected schema for '");
        text::append(&mut m, fname);
        text::append_str(&mut m, "'");
        m
    };
    match bool_setting_exec(last_value_exec(settings, "required")) {
        Some(req) => {
            let actual = match fd.default {
                FieldDefault::Nil => false,
                _ => true,
            };
            let mut ev2 = ev;
            ev2.push(pair("required", &bool_text_exec(req)));
            ev2.push(pair("actual_required", &bool_text_exec(actual)));
            assert(pairs_view(ev2@) =~= evv + seq![("required"@, bool_text(req)), ("actual_required"@, bool_text(actual))]);
            if actual != req {
                let mut m = head;
                text::append_str(&mut m, " required=");
                text::append(&mut m, &bool_text_exec(actual));
                text::append_str(&mut m, " not ");
                text::append(&mut m, &bool_text_exec(req));
                outcome("failed", &m, ev2)
            } else {
                outcome("passed", &passed, ev2)
            }
        },
        None => outcome("passed", &passed, ev),
    }
}

/// Runs a schema check: `settings` are the check's `key: value` pairs,
/// `entities` the declared entities with their fields. The result is the
/// status (`passed`, `failed` or `error`), the message and the evidence.
pub fn execute_schema_check(
    settings: &Vec<(String, String)>,
    entities: &Vec<(String, Vec<FieldDef>)>,
) -> (r: (String, String, Vec<(String, String)>))
    ensures
        (r.0@, r.1@, pairs_view(r.2@)) == schema_check_spec(pairs_view(settings@), entity_views(entities@)),
{
    let raw = match last_value_exec(settings, "entity") {
        Some(v) => v,
        None => Vec::new(),
    };
    let entity = text::trim_start_matches_str(&raw, "@");
    if entity.len() == 0 {
        let r = outcome("error", &text::str_chars("schema check requires entity"), Vec::new());
        assert(pairs_view(r.2@) =~= Seq::<(Seq<char>, Seq<char>)>::empty());
        return r;
    }
    let mut ev: Vec<(String, String)> = Vec::new();
    ev.push(pair("entity", &entity));
    assert(pairs_view(ev@) =~= seq![("entity"@, entity@)]);
    match find_entity_exec(entities, &entity) {
        None => outcome("failed", &at_entity(&entity, " is not defined"), ev),
        Some(ei) => {
            let fs = &entities[ei].1;
            match last_value_exec(settings, "field") {
                None => outcome("passed", &at_entity(&entity, " is defined"), ev),
                Some(fname) => match find_field_exec(fs, &fname) {
                    None => {
                        let mut m = at_entity(&entity, " is missing field '");
                        text::append(&mut m, &fname);
                        text::append_str(&mut m, "'");
                        ev.push(pair("field", &fname));
                        assert(pairs_view(ev@) =~= seq![("entity"@, entity@), ("field"@, fname@)]);
                        outcome("failed", &m, ev)
                    },
                    Some(fi) => field_check(settings, &entity, &fname, &fs[fi]),
                },
            }
        },
    }
}

} // verus!
