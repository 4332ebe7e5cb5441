//! The intermediate representation of a .bit document: every block
//! becomes a construct with typed fields, and references, gates, states and
//! spawns are checked across the document.
use crate::text;
use crate::types::{FieldDef, FieldDefault, Node, Ref, Spawn, VarValue, Document};
use vstd::prelude::*;

verus! {

/// The kind of construct — determines execution behavior.
#[derive(Debug, Clone, Copy, PartialEq, Eq, Hash, Structural)]
pub enum ConstructKind {
    Define,
    Mutate,
    Delete,
    Query,
    Flow,
    Gate,
    Bound,
    Conditional,
    Validate,
    Check,
    SpawnParallel,
    SpawnSequential,
    Task,
    Group,
    Serve,
    Build,
    Run,
    Webhook,
    Sync,
    Routine,
    Form,
    Mod,
    Use,
    Project,
    Commands,
    Remember,
    Recall,
    Escalate,
    Policy,
    Status,
    Issue,
    Comment,
    Directive,
    Embed,
    Git,
    Snap,
    Diff,
    History,
    Lattice,
    PressureEffect,
    UnitCell,
    Symmetry,
    CodeBlock,
    Prose,
    Divider,
    Variable,
}

impl ConstructKind {
    /// The keyword that introduces this construct in .bit source.
    pub open spec fn keyword_spec(self) -> Seq<char> {
        match self {
            ConstructKind::Define => "define:"@,
            ConstructKind::Mutate => "mutate:"@,
            ConstructKind::Delete => "delete:"@,
            ConstructKind::Query => "query:"@,
            ConstructKind::Flow => "flow:"@,
            ConstructKind::Gate => "gate:"@,
            ConstructKind::Bound => "bound:"@,
            ConstructKind::Conditional => "if"@,
            ConstructKind::Validate => "validate"@,
            ConstructKind::Check => "check:"@,
            ConstructKind::SpawnParallel => "+"@,
            ConstructKind::SpawnSequential => "++"@,
            ConstructKind::Task => "task"@,
            ConstructKind::Group => "#"@,
            ConstructKind::Serve => "serve:"@,
            ConstructKind::Build => "build:"@,
            ConstructKind::Run => "run:"@,
            ConstructKind::Webhook => "webhook:"@,
            ConstructKind::Sync => "sync:"@,
            ConstructKind::Routine => "routine:"@,
            ConstructKind::Form => "form:"@,
            ConstructKind::Mod => "mod:"@,
            ConstructKind::Use => "use"@,
            ConstructKind::Project => "project:"@,
            ConstructKind::Commands => "commands:"@,
            ConstructKind::Remember => "remember:"@,
            ConstructKind::Recall => "recall:"@,
            ConstructKind::Escalate => "escalate:"@,
            ConstructKind::Policy => "policy:"@,
            ConstructKind::Status => "status:"@,
            ConstructKind::Issue => "issue:"@,
            ConstructKind::Comment => "comment:"@,
            ConstructKind::Directive => "@directive"@,
            ConstructKind::Embed => "^"@,
            ConstructKind::Git => "git:"@,
            ConstructKind::Snap => "snap:"@,
            ConstructKind::Diff => "diff:"@,
            ConstructKind::History => "history:"@,
            ConstructKind::Lattice => "lattice_*:"@,
            ConstructKind::PressureEffect => "pressure_effect:"@,
            ConstructKind::UnitCell => "unit_cell:"@,
            ConstructKind::Symmetry => "symmetry:"@,
            ConstructKind::CodeBlock => "```"@,
            ConstructKind::Prose => "prose"@,
            ConstructKind::Divider => "---"@,
            ConstructKind::Variable => "var"@,
        }
    }

    /// The keyword that introduces this construct (its display form).
    pub fn keyword(&self) -> (r: &'static str)
        ensures
            r@ == self.keyword_spec(),
    {
        match self {
            ConstructKind::Define => "define:",
            ConstructKind::Mutate => "mutate:",
            ConstructKind::Delete => "delete:",
            ConstructKind::Query => "query:",
            ConstructKind::Flow => "flow:",
            ConstructKind::Gate => "gate:",
            ConstructKind::Bound => "bound:",
            ConstructKind::Conditional => "if",
            ConstructKind::Validate => "validate",
            ConstructKind::Check => "check:",
            ConstructKind::SpawnParallel => "+",
            ConstructKind::SpawnSequential => "++",
            ConstructKind::Task => "task",
            ConstructKind::Group => "#",
            ConstructKind::Serve => "serve:",
            ConstructKind::Build => "build:",
            ConstructKind::Run => "run:",
            ConstructKind::Webhook => "webhook:",
            ConstructKind::Sync => "sync:",
            ConstructKind::Routine => "routine:",
            ConstructKind::Form => "form:",
            ConstructKind::Mod => "mod:",
            ConstructKind::Use => "use",
            ConstructKind::Project => "project:",
            ConstructKind::Commands => "commands:",
            ConstructKind::Remember => "remember:",
            ConstructKind::Recall => "recall:",
            ConstructKind::Escalate => "escalate:",
            ConstructKind::Policy => "policy:",
            ConstructKind::Status => "status:",
            ConstructKind::Issue => "issue:",
            ConstructKind::Comment => "comment:",
            ConstructKind::Directive => "@directive",
            ConstructKind::Embed => "^",
            ConstructKind::Git => "git:",
            ConstructKind::Snap => "snap:",
            ConstructKind::Diff => "diff:",
            ConstructKind::History => "history:",
            ConstructKind::Lattice => "lattice_*:",
            ConstructKind::PressureEffect => "pressure_effect:",
            ConstructKind::UnitCell => "unit_cell:",
            ConstructKind::Symmetry => "symmetry:",
            ConstructKind::CodeBlock => "```",
            ConstructKind::Prose => "prose",
            ConstructKind::Divider => "---",
            ConstructKind::Variable => "var",
        }
    }

    pub fn to_string(&self) -> (r: String)
        ensures
            r@ == self.keyword_spec(),
    {
        self.keyword().to_owned()
    }
}

/// An `@` reference found in the document.
#[derive(Debug, Clone)]
pub struct Reference {
    /// The entity being referenced.
    pub entity: String,
    /// Optional instance ID.
    pub id: Option<String>,
    /// Optional workspace scope.
    pub workspace: Option<String>,
    /// Optional mod scope.
    pub mod_scope: Option<String>,
    /// Where this reference appears (construct index).
    pub in_construct: usize,
}

/// A use/import statement.
#[derive(Debug, Clone)]
pub struct Import {
    pub entity: Option<String>,
    pub source: String,
    pub alias: Option<String>,
}

/// An error found during IR construction or validation.
#[derive(Debug, Clone)]
pub struct IRError {
    pub kind: IRErrorKind,
    pub message: String,
    pub line: usize,
}

#[derive(Debug, Clone, Copy, PartialEq, Eq, Structural)]
pub enum IRErrorKind {
    /// @Entity reference to undefined schema.
    UnresolvedRef,
    /// Duplicate define:@Entity.
    DuplicateSchema,
    /// Gate referenced in flow doesn't exist.
    UnresolvedGate,
    /// Field type doesn't match schema.
    TypeMismatch,
    /// Required field missing.
    MissingField,
}


// ── Values and constructs ──────────────────────────────────────

/// How much is known of a construct.
#[derive(Debug, Clone, Copy, PartialEq, Eq, Structural)]
pub enum EpistemicState {
    Known,
    Unknown,
    Invalid,
}

/// A typed value in the IR. A floating-point value is held as the text
/// that spelled it.
#[derive(Debug, PartialEq)]
pub enum Value {
    String(String),
    Integer(i64),
    Float(String),
    Boolean(bool),
    Enum(Vec<String>),
    EntityRef(String),
    Array(Vec<Value>),
    Timestamp(String),
    Nil,
    Raw(String),
}

/// A single construct of the document graph.
#[derive(Debug, PartialEq)]
pub struct Construct {
    pub kind: ConstructKind,
    pub name: Option<String>,
    /// The fields, ordered by key, each key once.
    pub fields: Vec<(String, Value)>,
    pub children: Vec<Construct>,
    /// Source line number (1-indexed; 0 where it is not known).
    pub line: usize,
    pub epistemic: EpistemicState,
}

pub enum ValueView {
    String(Seq<char>),
    Integer(i64),
    Float(Seq<char>),
    Boolean(bool),
    Enum(Seq<Seq<char>>),
    EntityRef(Seq<char>),
    Array(Seq<ValueView>),
    Timestamp(Seq<char>),
    Nil,
    Raw(Seq<char>),
}

pub struct ConstructView {
    pub kind: ConstructKind,
    pub name: Option<Seq<char>>,
    pub fields: Seq<(Seq<char>, ValueView)>,
    pub children: Seq<ConstructView>,
    pub line: usize,
    pub epistemic: EpistemicState,
}

pub open spec fn value_view(v: Value) -> ValueView
    decreases v,
{
    match v {
        Value::String(s) => ValueView::String(s@),
        Value::Integer(n) => ValueView::Integer(n),
        Value::Float(s) => ValueView::Float(s@),
        Value::Boolean(b) => ValueView::Boolean(b),
        Value::Enum(vs) => ValueView::Enum(text::str_views(vs@)),
        Value::EntityRef(s) => ValueView::EntityRef(s@),
        Value::Array(items) => ValueView::Array(values_view(items@)),
        Value::Timestamp(s) => ValueView::Timestamp(s@),
        Value::Nil => ValueView::Nil,
        Value::Raw(s) => ValueView::Raw(s@),
    }
}

pub open spec fn values_view(s: Seq<Value>) -> Seq<ValueView>
    decreases s,
{
    if s.len() == 0 {
        Seq::empty()
    } else {
        values_view(s.drop_last()).push(value_view(s.last()))
    }
}

pub open spec fn fields_view(s: Seq<(String, Value)>) -> Seq<(Seq<char>, ValueView)> {
    s.map_values(|e: (String, Value)| (e.0@, value_view(e.1)))
}

pub open spec fn sopt(o: Option<String>) -> Option<Seq<char>> {
    match o {
        Some(s) => Some(s@),
        None => None,
    }
}

pub open spec fn construct_view(c: Construct) -> ConstructView
    decreases c,
{
    ConstructView {
        kind: c.kind,
        name: sopt(c.name),
        fields: fields_view(c.fields@),
        children: constructs_view(c.children@),
        line: c.line,
        epistemic: c.epistemic,
    }
}

pub open spec fn constructs_view(s: Seq<Construct>) -> Seq<ConstructView>
    decreases s,
{
    if s.len() == 0 {
        Seq::empty()
    } else {
        constructs_view(s.drop_last()).push(construct_view(s.last()))
    }
}

pub proof fn lemma_constructs_view(s: Seq<Construct>)
    ensures
        constructs_view(s).len() == s.len(),
        forall|i: int| 0 <= i < s.len() ==> #[trigger] constructs_view(s)[i] == construct_view(s[i]),
    decreases s.len(),
{
    if s.len() > 0 {
        lemma_constructs_view(s.drop_last());
    }
}

// ── Ordered fields ─────────────────────────────────────────────

/// The order of `String` keys: lexicographic by character.
pub open spec fn key_lt(a: Seq<char>, b: Seq<char>) -> bool
    decreases a.len(),
{
    if a.len() == 0 {
        b.len() > 0
    } else if b.len() == 0 {
        false
    } else if a[0] != b[0] {
        (a[0] as int) < (b[0] as int)
    } else {
        key_lt(a.drop_first(), b.drop_first())
    }
}

pub proof fn lemma_key_lt_order(a: Seq<char>, b: Seq<char>)
    ensures
        !(key_lt(a, b) && key_lt(b, a)),
        key_lt(a, b) ==> a != b,
        a != b ==> key_lt(a, b) || key_lt(b, a),
    decreases a.len(),
{
    if a.len() > 0 && b.len() > 0 && a[0] == b[0] {
        lemma_key_lt_order(a.drop_first(), b.drop_first());
        if a.drop_first() == b.drop_first() {
            assert(a =~= seq![a[0]] + a.drop_first());
            assert(b =~= seq![b[0]] + b.drop_first());
        }
    }
    if a.len() == 0 && b.len() == 0 {
        assert(a =~= b);
    }
}

/// The order of keys is transitive.
pub proof fn lemma_key_lt_trans(a: Seq<char>, b: Seq<char>, c: Seq<char>)
    requires
        key_lt(a, b),
        key_lt(b, c),
    ensures
        key_lt(a, c),
    decreases a.len(),
{
    if a.len() > 0 && b.len() > 0 && c.len() > 0 && a[0] == b[0] && b[0] == c[0] {
        lemma_key_lt_trans(a.drop_first(), b.drop_first(), c.drop_first());
    }
}

/// Keys in increasing order, hence each key once.
pub open spec fn keys_sorted<V>(fs: Seq<(Seq<char>, V)>) -> bool {
    forall|i: int, j: int| 0 <= i < j < fs.len() ==> key_lt(#[trigger] fs[i].0, #[trigger] fs[j].0)
}

/// Fields behave as an ordered map: setting a key keeps the keys in order,
/// the key then reads as the value set, and every other key reads as
/// before.
pub proof fn lemma_fields_insert_law<V>(fs: Seq<(Seq<char>, V)>, k: Seq<char>, v: V, k2: Seq<char>)
    requires
        keys_sorted(fs),
    ensures
        keys_sorted(fields_insert(fs, k, v)),
        field_get(fields_insert(fs, k, v), k) == Some(v),
        k2 != k ==> field_get(fields_insert(fs, k, v), k2) == field_get(fs, k2),
        forall|i: int|
            0 <= i < fields_insert(fs, k, v).len() ==> (#[trigger] fields_insert(fs, k, v)[i]).0 == k
                || has_key(fs, fields_insert(fs, k, v)[i].0),
    decreases fs.len(),
{
    let r = fields_insert(fs, k, v);
    if fs.len() == 0 {
        assert(r.drop_first() =~= Seq::<(Seq<char>, V)>::empty());
    } else if fs[0].0 == k {
        assert(r == fs.update(0, (k, v)));
        assert(r.drop_first() =~= fs.drop_first());
        if k2 != k {
            assert(field_get(r, k2) == field_get(r.drop_first(), k2));
            assert(field_get(fs, k2) == field_get(fs.drop_first(), k2));
        }
        assert forall|i: int| 0 <= i < r.len() implies (#[trigger] r[i]).0 == k || has_key(fs, r[i].0) by {
            if i > 0 {
                assert(r[i] == fs[i]);
            }
        }
        assert forall|i: int, j: int| 0 <= i < j < r.len() implies key_lt(#[trigger] r[i].0, #[trigger] r[j].0) by {
            assert(r[i].0 == fs[i].0);
            assert(r[j].0 == fs[j].0);
        }
    } else if key_lt(k, fs[0].0) {
        assert(r == seq![(k, v)] + fs);
        assert(r.drop_first() =~= fs);
        if k2 != k {
            assert(field_get(r, k2) == field_get(r.drop_first(), k2));
        }
        assert forall|i: int| 0 <= i < r.len() implies (#[trigger] r[i]).0 == k || has_key(fs, r[i].0) by {
            if i > 0 {
                assert(r[i] == fs[i - 1]);
            }
        }
        assert forall|i: int, j: int| 0 <= i < j < r.len() implies key_lt(#[trigger] r[i].0, #[trigger] r[j].0) by {
            if i == 0 {
                assert(r[j] == fs[j - 1]);
                if j - 1 > 0 {
                    lemma_key_lt_trans(k, fs[0].0, fs[j - 1].0);
                }
            } else {
                assert(r[i] == fs[i - 1]);
                assert(r[j] == fs[j - 1]);
            }
        }
        lemma_key_lt_order(k, k2);
    } else {
        let t = fs.drop_first();
        assert(keys_sorted(t)) by {
            assert forall|i: int, j: int| 0 <= i < j < t.len() implies key_lt(#[trigger] t[i].0, #[trigger] t[j].0) by {
                assert(t[i] == fs[i + 1]);
                assert(t[j] == fs[j + 1]);
            }
        }
        lemma_fields_insert_law(t, k, v, k2);
        let rt = fields_insert(t, k, v);
        assert(r == seq![fs[0]] + rt);
        assert(r.drop_first() =~= rt);
        lemma_key_lt_order(fs[0].0, k);
        assert forall|i: int| 0 <= i < r.len() implies (#[trigger] r[i]).0 == k || has_key(fs, r[i].0) by {
            if i == 0 {
                assert(fs[0].0 == r[0].0);
            } else {
                assert(r[i] == rt[i - 1]);
                if rt[i - 1].0 != k {
                    let j = choose|j: int| 0 <= j < t.len() && (#[trigger] t[j]).0 == rt[i - 1].0;
                    assert(fs[j + 1] == t[j]);
                }
            }
        }
        assert forall|i: int, j: int| 0 <= i < j < r.len() implies key_lt(#[trigger] r[i].0, #[trigger] r[j].0) by {
            if i == 0 {
                assert(r[j] == rt[j - 1]);
                if rt[j - 1].0 != k {
                    let m = choose|m: int| 0 <= m < t.len() && (#[trigger] t[m]).0 == rt[j - 1].0;
                    assert(fs[m + 1] == t[m]);
                }
            } else {
                assert(r[i] == rt[i - 1]);
                assert(r[j] == rt[j - 1]);
            }
        }
        if fs[0].0 == k2 {
            assert(field_get(r, k2) == Some(fs[0].1));
        } else if k2 != k {
            assert(field_get(r, k2) == field_get(rt, k2));
            assert(field_get(fs, k2) == field_get(t, k2));
        }
    }
}

/// A key inserted into fields ordered by key: a present key takes the new
/// value in place, a new key goes before the first greater one.
pub open spec fn fields_insert<V>(fs: Seq<(Seq<char>, V)>, k: Seq<char>, v: V) -> Seq<(Seq<char>, V)>
    decreases fs.len(),
{
    if fs.len() == 0 {
        seq![(k, v)]
    } else if fs[0].0 == k {
        fs.update(0, (k, v))
    } else if key_lt(k, fs[0].0) {
        seq![(k, v)] + fs
    } else {
        seq![fs[0]] + fields_insert(fs.drop_first(), k, v)
    }
}

pub proof fn lemma_fields_insert_at<V>(fs: Seq<(Seq<char>, V)>, k: Seq<char>, v: V, i: int)
    requires
        0 <= i <= fs.len(),
        forall|j: int| 0 <= j < i ==> key_lt(#[trigger] fs[j].0, k),
        i < fs.len() ==> !key_lt(fs[i].0, k),
    ensures
        i < fs.len() && fs[i].0 == k ==> fields_insert(fs, k, v) == fs.update(i, (k, v)),
        !(i < fs.len() && fs[i].0 == k) ==> fields_insert(fs, k, v) == fs.take(i) + seq![(k, v)]
            + fs.skip(i),
    decreases i,
{
    if i == 0 {
        if fs.len() > 0 && fs[0].0 != k {
            lemma_key_lt_order(fs[0].0, k);
        }
        assert(fs.skip(0) =~= fs);
        assert(fs.take(0) + seq![(k, v)] + fs.skip(0) =~= seq![(k, v)] + fs);
    } else {
        lemma_key_lt_order(fs[0].0, k);
        let t = fs.drop_first();
        assert forall|j: int| 0 <= j < i - 1 implies key_lt(#[trigger] t[j].0, k) by {
            assert(t[j] == fs[j + 1]);
        }
        lemma_fields_insert_at(t, k, v, i - 1);
        if i < fs.len() && fs[i].0 == k {
            assert(seq![fs[0]] + t.update(i - 1, (k, v)) =~= fs.update(i, (k, v)));
        } else {
            assert(seq![fs[0]] + (t.take(i - 1) + seq![(k, v)] + t.skip(i - 1)) =~= fs.take(i)
                + seq![(k, v)] + fs.skip(i));
        }
    }
}

/// Whether a character key is less than another, as `String`'s order has it.
pub fn key_lt_exec(a: &Vec<char>, b: &Vec<char>) -> (r: bool)
    ensures
        r == key_lt(a@, b@),
{
    let mut i: usize = 0;
    assert(a@.skip(0) =~= a@);
    assert(b@.skip(0) =~= b@);
    while i < a.len() && i < b.len() && a[i] == b[i]
        invariant
            i <= a.len(),
            i <= b.len(),
            key_lt(a@, b@) == key_lt(a@.skip(i as int), b@.skip(i as int)),
        decreases a.len() - i,
    {
        proof {
            let sa = a@.skip(i as int);
            let sb = b@.skip(i as int);
            assert(sa.drop_first() =~= a@.skip(i + 1));
            assert(sb.drop_first() =~= b@.skip(i + 1));
        }
        i = i + 1;
    }
    if i == a.len() {
        i < b.len()
    } else if i == b.len() {
        false
    } else {
        a[i] < b[i]
    }
}

/// Sets `k` to `v` in fields ordered by key.
pub fn insert_field(fields: &mut Vec<(String, Value)>, k: String, v: Value)
    ensures
        fields_view(final(fields)@) == fields_insert(fields_view(old(fields)@), k@, value_view(v)),
{
    let ghost fs = fields_view(fields@);
    let kc = text::string_chars(&k);
    let mut i: usize = 0;
    let mut found = false;
    while i < fields.len()
        invariant_except_break
            i <= fields.len(),
            fs == fields_view(fields@),
            kc@ == k@,
            !found,
            forall|j: int| 0 <= j < i ==> key_lt(#[trigger] fs[j].0, k@),
        ensures
            i <= fields.len(),
            fs == fields_view(fields@),
            forall|j: int| 0 <= j < i ==> key_lt(#[trigger] fs[j].0, k@),
            i < fields.len() ==> !key_lt(fs[i as int].0, k@),
            found == (i < fields.len() && fs[i as int].0 == k@),
        decreases fields.len() - i,
    {
        let ki = text::string_chars(&fields[i].0);
        assert(fs[i as int].0 == fields@[i as int].0@);
        if !key_lt_exec(&ki, &kc) {
            found = text::eq(&ki, &kc);
            break;
        }
        i = i + 1;
    }
    proof {
        lemma_fields_insert_at(fs, k@, value_view(v), i as int);
    }
    let ghost kv = k@;
    let ghost vv = value_view(v);
    if found {
        fields.set(i, (k, v));
        assert(fields_view(fields@) =~= fs.update(i as int, (kv, vv)));
    } else {
        fields.insert(i, (k, v));
        assert(fields_view(fields@) =~= fs.take(i as int) + seq![(kv, vv)] + fs.skip(i as int));
    }
}


// ── Lowering: document nodes to constructs ─────────────────────

/// A construct as lowering makes it: no line, known.
pub open spec fn cv(
    kind: ConstructKind,
    name: Option<Seq<char>>,
    fields: Seq<(Seq<char>, ValueView)>,
    children: Seq<ConstructView>,
) -> ConstructView {
    ConstructView { kind, name, fields, children, line: 0, epistemic: EpistemicState::Known }
}

pub open spec fn no_fields() -> Seq<(Seq<char>, ValueView)> {
    Seq::empty()
}

pub open spec fn str_field(fs: Seq<(Seq<char>, ValueView)>, k: Seq<char>, v: Seq<char>) -> Seq<
    (Seq<char>, ValueView),
> {
    fields_insert(fs, k, ValueView::String(v))
}

pub open spec fn opt_field(fs: Seq<(Seq<char>, ValueView)>, k: Seq<char>, o: Option<String>) -> Seq<
    (Seq<char>, ValueView),
> {
    match o {
        Some(v) => str_field(fs, k, v@),
        None => fs,
    }
}

/// The value a schema field's default lowers to.
pub open spec fn default_value(d: FieldDefault) -> ValueView {
    match d {
        FieldDefault::Str(s) => ValueView::String(s@),
        FieldDefault::Int(n) => ValueView::Integer(n),
        FieldDefault::Float(t) => ValueView::Float(t@),
        FieldDefault::Bool(b) => ValueView::Boolean(b),
        FieldDefault::Atom(a) => ValueView::String(seq![':'] + a@),
        FieldDefault::Enum(vs) => ValueView::Enum(text::str_views(vs@)),
        FieldDefault::Ref(r) => ValueView::EntityRef(r@),
        FieldDefault::List => ValueView::Array(Seq::empty()),
        FieldDefault::Timestamp(t) => ValueView::Timestamp(t@),
        FieldDefault::Nil => ValueView::Nil,
    }
}

/// The fields of a schema: each field's name set to its default, in order.
pub open spec fn field_defs_fields(fs: Seq<FieldDef>) -> Seq<(Seq<char>, ValueView)>
    decreases fs.len(),
{
    if fs.len() == 0 {
        no_fields()
    } else {
        fields_insert(
            field_defs_fields(fs.drop_last()),
            fs.last().name@,
            default_value(fs.last().default),
        )
    }
}

/// The `key: value` prose lines among some nodes, as raw fields.
pub open spec fn prose_fields(ns: Seq<Node>) -> Seq<(Seq<char>, ValueView)>
    decreases ns.len(),
{
    if ns.len() == 0 {
        no_fields()
    } else {
        let prev = prose_fields(ns.drop_last());
        match ns.last() {
            Node::Prose(p) => match text::split_once(p.text@, ":"@) {
                Some((k, v)) => fields_insert(prev, text::trim(k), ValueView::Raw(text::trim(v))),
                None => prev,
            },
            _ => prev,
        }
    }
}

/// Raw fields from `key: value` pairs, in order.
pub open spec fn raw_pairs_fields(ps: Seq<(String, String)>) -> Seq<(Seq<char>, ValueView)>
    decreases ps.len(),
{
    if ps.len() == 0 {
        no_fields()
    } else {
        fields_insert(raw_pairs_fields(ps.drop_last()), ps.last().0@, ValueView::Raw(ps.last().1@))
    }
}

/// String fields from `key: value` pairs, in order, over `fs`.
pub open spec fn str_pairs_fields(fs: Seq<(Seq<char>, ValueView)>, ps: Seq<(String, String)>) -> Seq<
    (Seq<char>, ValueView),
>
    decreases ps.len(),
{
    if ps.len() == 0 {
        fs
    } else {
        str_field(str_pairs_fields(fs, ps.drop_last()), ps.last().0@, ps.last().1@)
    }
}

/// `from1,from2 --> to1,to2`.
pub open spec fn edge_text(e: crate::types::FlowEdge) -> Seq<char> {
    text::join(text::str_views(e.from@), ","@) + " --> "@ + text::join(text::str_views(e.to@), ","@)
}

/// The fields of a flow: `edge_N`, `edge_N_label`, `edge_N_gate`.
pub open spec fn flow_fields(es: Seq<crate::types::FlowEdge>) -> Seq<(Seq<char>, ValueView)>
    decreases es.len(),
{
    if es.len() == 0 {
        no_fields()
    } else {
        let i = (es.len() - 1) as nat;
        let e = es.last();
        let base = "edge_"@ + text::decimal(i);
        let f1 = str_field(flow_fields(es.drop_last()), base, edge_text(e));
        let f2 = match e.label {
            Some(l) => str_field(f1, base + "_label"@, l@),
            None => f1,
        };
        match e.gate {
            Some(g) => str_field(f2, base + "_gate"@, g@),
            None => f2,
        }
    }
}

/// The fields of a `states:` block: `transition_N`.
pub open spec fn states_fields(es: Seq<crate::types::FlowEdge>) -> Seq<(Seq<char>, ValueView)>
    decreases es.len(),
{
    if es.len() == 0 {
        no_fields()
    } else {
        str_field(
            states_fields(es.drop_last()),
            "transition_"@ + text::decimal((es.len() - 1) as nat),
            edge_text(es.last()),
        )
    }
}

pub open spec fn mutate_fields(m: crate::types::Mutate) -> Seq<(Seq<char>, ValueView)> {
    opt_field(raw_pairs_fields(m.fields@), "_id"@, m.id)
}

pub open spec fn query_fields(q: crate::types::Query) -> Seq<(Seq<char>, ValueView)> {
    let f1 = str_field(no_fields(), "entity"@, q.entity@);
    let f2 = opt_field(f1, "filter"@, q.filter);
    let f3 = opt_field(f2, "sort"@, q.sort);
    let f4 = match q.limit {
        Some(l) => fields_insert(f3, "limit"@, ValueView::Integer(l as i64)),
        None => f3,
    };
    opt_field(f4, "from_snapshot"@, q.from_snapshot)
}

pub open spec fn task_fields(t: crate::types::Task) -> Seq<(Seq<char>, ValueView)> {
    let f1 = str_field(no_fields(), "text"@, t.text@);
    let f2 = str_field(f1, "status"@, t.marker.kind.name_spec());
    opt_field(f2, "label"@, t.label)
}

pub open spec fn opt_debug(o: Option<String>) -> Seq<char> {
    match o {
        Some(s) => "Some("@ + text::debug_quoted(s@) + ")"@,
        None => "None"@,
    }
}

/// A reference as `{:?}` writes it.
pub open spec fn ref_debug(r: Ref) -> Seq<char> {
    "Ref { path: ["@ + text::join(text::str_views(r.path@).map_values(|p: Seq<char>| text::debug_quoted(p)), ", "@)
        + "], plural: "@ + (if r.plural { "true"@ } else { "false"@ }) + ", mod_scope: "@
        + opt_debug(r.mod_scope) + ", workspace_scope: "@ + opt_debug(r.workspace_scope) + " }"@
}

/// The text a variable's value is kept as.
pub open spec fn var_text(v: VarValue) -> Seq<char> {
    match v {
        VarValue::Literal(s) => s@,
        VarValue::Compute(c) => seq!['|'] + c.expr@ + seq!['|'],
        VarValue::Ref(r) => seq!['@'] + ref_debug(r),
    }
}

/// A variable set in a table of variables: a present name takes the new
/// value in place, a new one is added at the end.
pub open spec fn assoc_set<V>(vs: Seq<(Seq<char>, V)>, k: Seq<char>, v: V) -> Seq<(Seq<char>, V)>
    decreases vs.len(),
{
    if vs.len() == 0 {
        seq![(k, v)]
    } else if vs[0].0 == k {
        vs.update(0, (k, v))
    } else {
        seq![vs[0]] + assoc_set(vs.drop_first(), k, v)
    }
}

pub open spec fn pairs_view(vs: Seq<(String, String)>) -> Seq<(Seq<char>, Seq<char>)> {
    vs.map_values(|e: (String, String)| (e.0@, e.1@))
}

/// The construct a node lowers to, if any, and the variables after it.
pub open spec fn lower_spec(n: Node, vars: Seq<(Seq<char>, Seq<char>)>) -> (
    Option<ConstructView>,
    Seq<(Seq<char>, Seq<char>)>,
)
    decreases n,
{
    match n {
        Node::Define(d) => (
            Some(cv(ConstructKind::Define, Some(d.entity@), field_defs_fields(d.fields@), seq![])),
            vars,
        ),
        Node::Mutate(m) => (Some(cv(ConstructKind::Mutate, Some(m.entity@), mutate_fields(m), seq![])), vars),
        Node::Delete(d) => (
            Some(cv(ConstructKind::Delete, Some(d.entity@), str_field(no_fields(), "_id"@, d.id@), seq![])),
            vars,
        ),
        Node::Query(q) => (Some(cv(ConstructKind::Query, Some(q.entity@), query_fields(q), seq![])), vars),
        Node::Flow(f) => (Some(cv(ConstructKind::Flow, sopt(f.name), flow_fields(f.edges@), seq![])), vars),
        Node::GateDef(g) => (
            Some(cv(ConstructKind::Gate, Some(g.name@), prose_fields(g.children@), seq![])),
            vars,
        ),
        Node::Form(f) => (
            Some(cv(ConstructKind::Form, Some(f.name@), field_defs_fields(f.fields@), seq![])),
            vars,
        ),
        Node::Routine(r) => (Some(cv(ConstructKind::Routine, Some(r.trigger@), no_fields(), seq![])), vars),
        Node::Validate(v) => {
            let (ch, v2) = lower_seq_spec(v.children@, vars);
            (Some(cv(ConstructKind::Validate, Some(v.name@), no_fields(), ch)), v2)
        },
        Node::Conditional(c) => {
            let (ch, v2) = lower_seq_spec(c.children@, vars);
            (
                Some(cv(ConstructKind::Conditional, None, str_field(no_fields(), "condition"@, c.condition.expr@), ch)),
                v2,
            )
        },
        Node::Spawn(sp) => (
            Some(cv(
                if sp == Spawn::Parallel {
                    ConstructKind::SpawnParallel
                } else {
                    ConstructKind::SpawnSequential
                },
                None,
                no_fields(),
                seq![],
            )),
            vars,
        ),
        Node::Task(t) => {
            let (ch, v2) = lower_seq_spec(t.children@, vars);
            (Some(cv(ConstructKind::Task, sopt(t.label), task_fields(t), ch)), v2)
        },
        Node::Group(g) => {
            let (ch, v2) = lower_seq_spec(g.children@, vars);
            (Some(cv(ConstructKind::Group, Some(g.name@), no_fields(), ch)), v2)
        },
        Node::ModDef(m) => (
            Some(cv(
                ConstructKind::Mod,
                Some(m.name@),
                str_pairs_fields(opt_field(no_fields(), "description"@, m.description), m.body@),
                seq![],
            )),
            vars,
        ),
        Node::Remember(r) => (
            Some(cv(ConstructKind::Remember, None, str_field(no_fields(), "content"@, r.content@), seq![])),
            vars,
        ),
        Node::Recall(r) => (
            Some(cv(ConstructKind::Recall, None, str_field(no_fields(), "query"@, r.query@), seq![])),
            vars,
        ),
        Node::Escalate(e) => (Some(cv(ConstructKind::Escalate, Some(e.target@), no_fields(), seq![])), vars),
        Node::StatusDef(st) => (
            Some(cv(
                ConstructKind::Status,
                Some(text::join(text::str_views(st.options@), "/"@)),
                no_fields(),
                seq![],
            )),
            vars,
        ),
        Node::Variable(v) => {
            let val = var_text(v.value);
            (
                Some(cv(ConstructKind::Variable, Some(v.name@), str_field(no_fields(), "value"@, val), seq![])),
                assoc_set(vars, v.name@, val),
            )
        },
        Node::Snap(sn) => (Some(cv(ConstructKind::Snap, Some(sn.name@), no_fields(), seq![])), vars),
        Node::Diff(d) => (
            Some(cv(
                ConstructKind::Diff,
                None,
                opt_field(str_field(no_fields(), "target"@, d.target@), "from_snapshot"@, d.from_snapshot),
                seq![],
            )),
            vars,
        ),
        Node::History(h) => (Some(cv(ConstructKind::History, Some(h.target@), no_fields(), seq![])), vars),
        Node::EmbedMarker(e) => (Some(cv(ConstructKind::Embed, Some(e.tag@), no_fields(), seq![])), vars),
        Node::CodeBlock(b) => (
            Some(cv(ConstructKind::CodeBlock, sopt(b.lang), str_field(no_fields(), "code"@, b.content@), seq![])),
            vars,
        ),
        Node::States(st) => (Some(cv(ConstructKind::Flow, None, states_fields(st.transitions@), seq![])), vars),
        Node::Prose(p) => (
            Some(cv(ConstructKind::Prose, None, str_field(no_fields(), "text"@, p.text@), seq![])),
            vars,
        ),
        Node::Comment(c) => (
            Some(cv(ConstructKind::Prose, None, str_field(no_fields(), "text"@, c.text@), seq![])),
            vars,
        ),
        Node::Bold(b) => (
            Some(cv(ConstructKind::Prose, None, str_field(no_fields(), "text"@, b.text@), seq![])),
            vars,
        ),
        Node::Divider => (Some(cv(ConstructKind::Divider, None, no_fields(), seq![])), vars),
        Node::Webhook(w) => (
            Some(cv(
                ConstructKind::Webhook,
                Some(w.trigger@),
                opt_field(
                    str_field(str_field(no_fields(), "trigger"@, w.trigger@), "url"@, w.url@),
                    "payload"@,
                    w.payload,
                ),
                seq![],
            )),
            vars,
        ),
        Node::PolicyDef(p) => (Some(cv(ConstructKind::Policy, None, policy_fields(p.rules@), seq![])), vars),
        Node::FilesDef(_) => (None, vars),
        Node::SyncDef(sd) => (
            Some(cv(
                ConstructKind::Sync,
                Some(sd.name@),
                str_field(
                    str_field(str_field(no_fields(), "schedule"@, sd.schedule@), "source"@, sd.source@),
                    "target"@,
                    sd.target@,
                ),
                seq![],
            )),
            vars,
        ),
        Node::Git(g) => (Some(cv(ConstructKind::Git, Some(git_debug(g)), no_fields(), seq![])), vars),
        Node::Check(c) => (
            Some(cv(ConstructKind::Check, Some(c.name@), str_pairs_fields(no_fields(), c.body@), seq![])),
            vars,
        ),
        Node::ModInvoke(_) => (None, vars),
        Node::EntityDef(_) => (None, vars),
        Node::MetricDef(_) => (None, vars),
        Node::ProjectScope(_) => (None, vars),
        Node::LatticeValidates(l) => (
            Some(cv(ConstructKind::Lattice, Some("validates"@), prose_fields(l.children@), seq![])),
            vars,
        ),
        Node::LatticeConstraint(l) => (
            Some(cv(ConstructKind::Lattice, Some("constraint"@), prose_fields(l.children@), seq![])),
            vars,
        ),
        Node::LatticeSchema(l) => (
            Some(cv(ConstructKind::Lattice, Some("schema"@), prose_fields(l.children@), seq![])),
            vars,
        ),
        Node::LatticeFrontier(l) => (
            Some(cv(ConstructKind::Lattice, Some("frontier"@), prose_fields(l.children@), seq![])),
            vars,
        ),
        Node::PressureEffect(pe) => (
            Some(cv(
                ConstructKind::PressureEffect,
                None,
                opt_field(str_field(no_fields(), "dynamic"@, pe.dynamic@), "target"@, pe.target),
                seq![],
            )),
            vars,
        ),
        Node::UnitCell(u) => {
            let (ch, v2) = lower_seq_spec(u.children@, vars);
            (Some(cv(ConstructKind::UnitCell, None, no_fields(), ch)), v2)
        },
        Node::Symmetry(u) => {
            let (ch, v2) = lower_seq_spec(u.children@, vars);
            (Some(cv(ConstructKind::Symmetry, None, no_fields(), ch)), v2)
        },
        Node::Serve(sv) => (
            Some(cv(
                ConstructKind::Serve,
                Some(sv.target@),
                opt_field(str_field(str_field(no_fields(), "target"@, sv.target@), "command"@, sv.command@), "port"@, sv.port),
                seq![],
            )),
            vars,
        ),
        Node::UseBlock(u) => (
            Some(cv(ConstructKind::Use, sopt(u.entity), opt_field(str_field(no_fields(), "source"@, u.mod_name@), "alias"@, u.alias), seq![])),
            vars,
        ),
    }
}

/// A `key: value` pair as `{:?}` writes it.
pub open spec fn pair_debug(p: (String, String)) -> Seq<char> {
    "("@ + text::debug_quoted(p.0@) + ", "@ + text::debug_quoted(p.1@) + ")"@
}

/// A git operation as `{:?}` writes it.
pub open spec fn git_debug(g: crate::types::GitOp) -> Seq<char> {
    "GitOp { verb: "@ + text::debug_quoted(g.verb@) + ", args: "@ + text::debug_quoted(g.args@)
        + ", body: ["@ + text::join(g.body@.map_values(|p: (String, String)| pair_debug(p)), ", "@)
        + "] }"@
}

/// The names of some gates.
pub open spec fn gate_names(gs: Seq<crate::types::Gate>) -> Seq<Seq<char>> {
    gs.map_values(|g: crate::types::Gate| g.name@)
}

/// A policy's fields: each rule's path with the names of its gates,
/// comma-separated (a later rule for the same path replaces an earlier one).
pub open spec fn policy_fields(rules: Seq<crate::types::PolicyRule>) -> Seq<(Seq<char>, ValueView)>
    decreases rules.len(),
{
    if rules.len() == 0 {
        no_fields()
    } else {
        str_field(
            policy_fields(rules.drop_last()),
            rules.last().path@,
            text::join(gate_names(rules.last().gates@), ", "@),
        )
    }
}

/// The constructs that some nodes lower to, in order, and the variables
/// after them.
pub open spec fn lower_seq_spec(ns: Seq<Node>, vars: Seq<(Seq<char>, Seq<char>)>) -> (
    Seq<ConstructView>,
    Seq<(Seq<char>, Seq<char>)>,
)
    decreases ns,
{
    if ns.len() == 0 {
        (Seq::empty(), vars)
    } else {
        let (prev, v1) = lower_seq_spec(ns.drop_last(), vars);
        let (c, v2) = lower_spec(ns.last(), v1);
        (
            match c {
                Some(x) => prev.push(x),
                None => prev,
            },
            v2,
        )
    }
}


fn mk(
    kind: ConstructKind,
    name: Option<String>,
    fields: Vec<(String, Value)>,
    children: Vec<Construct>,
) -> (r: Construct)
    ensures
        construct_view(r) == cv(kind, sopt(name), fields_view(fields@), constructs_view(children@)),
{
    Construct { kind, name, fields, children, line: 0, epistemic: EpistemicState::Known }
}

fn put_str(fields: &mut Vec<(String, Value)>, k: &str, v: String)
    ensures
        fields_view(final(fields)@) == str_field(fields_view(old(fields)@), k@, v@),
{
    insert_field(fields, k.to_owned(), Value::String(v));
}

fn put_opt(fields: &mut Vec<(String, Value)>, k: &str, o: &Option<String>)
    ensures
        fields_view(final(fields)@) == opt_field(fields_view(old(fields)@), k@, *o),
{
    match o {
        Some(v) => put_str(fields, k, v.clone()),
        None => {},
    }
}

fn empty_fields() -> (r: Vec<(String, Value)>)
    ensures
        fields_view(r@) == no_fields(),
{
    let f: Vec<(String, Value)> = Vec::new();
    assert(fields_view(f@) =~= no_fields());
    f
}

fn one_str(k: &str, v: String) -> (r: Vec<(String, Value)>)
    ensures
        fields_view(r@) == str_field(no_fields(), k@, v@),
{
    let mut f: Vec<(String, Value)> = Vec::new();
    assert(fields_view(f@) =~= no_fields());
    put_str(&mut f, k, v);
    f
}

pub fn chars_of(s: &str) -> (r: Vec<char>)
    ensures
        r@ == s@,
{
    text::str_chars(s)
}

fn default_value_exec(d: &FieldDefault) -> (r: Value)
    ensures
        value_view(r) == default_value(*d),
{
    match d {
        FieldDefault::Str(s) => Value::String(s.clone()),
        FieldDefault::Int(n) => Value::Integer(*n),
        FieldDefault::Float(t) => Value::Float(t.clone()),
        FieldDefault::Bool(b) => Value::Boolean(*b),
        FieldDefault::Atom(a) => {
            let mut c: Vec<char> = Vec::new();
            c.push(':');
            text::append_string(&mut c, a);
            Value::String(text::to_string(&c))
        },
        FieldDefault::Enum(vs) => Value::Enum(crate::index::clone_strings(vs)),
        FieldDefault::Ref(r) => Value::EntityRef(r.clone()),
        FieldDefault::List => {
            let v: Vec<Value> = Vec::new();
            assert(values_view(v@) =~= Seq::<ValueView>::empty());
            Value::Array(v)
        },
        FieldDefault::Timestamp(t) => Value::Timestamp(t.clone()),
        FieldDefault::Nil => Value::Nil,
    }
}

/// The fields of a schema: each field's name set to its default.
pub fn lower_field_defs(fs: &Vec<FieldDef>) -> (r: Vec<(String, Value)>)
    ensures
        fields_view(r@) == field_defs_fields(fs@),
{
    let mut out: Vec<(String, Value)> = Vec::new();
    let mut i: usize = 0;
    assert(fields_view(out@) =~= field_defs_fields(fs@.take(0)));
    while i < fs.len()
        invariant
            i <= fs.len(),
            fields_view(out@) == field_defs_fields(fs@.take(i as int)),
        decreases fs.len() - i,
    {
        let v = default_value_exec(&fs[i].default);
        insert_field(&mut out, fs[i].name.clone(), v);
        assert(fs@.take(i + 1).drop_last() =~= fs@.take(i as int));
        i = i + 1;
    }
    assert(fs@.take(fs.len() as int) =~= fs@);
    out
}

/// The `key: value` prose lines among some nodes, as raw fields.
pub fn extract_prose_fields(ns: &Vec<Node>) -> (r: Vec<(String, Value)>)
    ensures
        fields_view(r@) == prose_fields(ns@),
{
    let mut out: Vec<(String, Value)> = Vec::new();
    let mut i: usize = 0;
    assert(fields_view(out@) =~= prose_fields(ns@.take(0)));
    while i < ns.len()
        invariant
            i <= ns.len(),
            fields_view(out@) == prose_fields(ns@.take(i as int)),
        decreases ns.len() - i,
    {
        assert(ns@.take(i + 1).drop_last() =~= ns@.take(i as int));
        match &ns[i] {
            Node::Prose(p) => {
                let t = text::string_chars(&p.text);
                match text::split_once_str(&t, ":") {
                    Some((k, v)) => {
                        let kt = text::to_string(&text::trim_chars(&k));
                        let vt = text::to_string(&text::trim_chars(&v));
                        insert_field(&mut out, kt, Value::Raw(vt));
                    },
                    None => {},
                }
            },
            _ => {},
        }
        i = i + 1;
    }
    assert(ns@.take(ns.len() as int) =~= ns@);
    out
}

fn raw_pairs(ps: &Vec<(String, String)>) -> (r: Vec<(String, Value)>)
    ensures
        fields_view(r@) == raw_pairs_fields(ps@),
{
    let mut out: Vec<(String, Value)> = Vec::new();
    let mut i: usize = 0;
    assert(fields_view(out@) =~= raw_pairs_fields(ps@.take(0)));
    while i < ps.len()
        invariant
            i <= ps.len(),
            fields_view(out@) == raw_pairs_fields(ps@.take(i as int)),
        decreases ps.len() - i,
    {
        insert_field(&mut out, ps[i].0.clone(), Value::Raw(ps[i].1.clone()));
        assert(ps@.take(i + 1).drop_last() =~= ps@.take(i as int));
        i = i + 1;
    }
    assert(ps@.take(ps.len() as int) =~= ps@);
    out
}

fn str_pairs(out: &mut Vec<(String, Value)>, ps: &Vec<(String, String)>)
    ensures
        fields_view(final(out)@) == str_pairs_fields(fields_view(old(out)@), ps@),
{
    let ghost start = fields_view(out@);
    let mut i: usize = 0;
    assert(ps@.take(0) =~= Seq::<(String, String)>::empty());
    while i < ps.len()
        invariant
            i <= ps.len(),
            fields_view(out@) == str_pairs_fields(start, ps@.take(i as int)),
        decreases ps.len() - i,
    {
        insert_field(out, ps[i].0.clone(), Value::String(ps[i].1.clone()));
        assert(ps@.take(i + 1).drop_last() =~= ps@.take(i as int));
        i = i + 1;
    }
    assert(ps@.take(ps.len() as int) =~= ps@);
}

pub fn join_strings(v: &Vec<String>, sep: &str) -> (r: Vec<char>)
    ensures
        r@ == text::join(text::str_views(v@), sep@),
{
    let parts = text::from_strings(v);
    text::join_str(&parts, sep)
}

fn edge_text_exec(e: &crate::types::FlowEdge) -> (r: String)
    ensures
        r@ == edge_text(*e),
{
    let mut c = join_strings(&e.from, ",");
    text::append_str(&mut c, " --> ");
    let t = join_strings(&e.to, ",");
    text::append(&mut c, &t);
    text::to_string(&c)
}

fn numbered_key(prefix: &str, i: usize, suffix: &str) -> (r: String)
    ensures
        r@ == prefix@ + text::decimal(i as nat) + suffix@,
{
    let mut c = chars_of(prefix);
    text::append_decimal(&mut c, i);
    text::append_str(&mut c, suffix);
    text::to_string(&c)
}

fn flow_fields_exec(es: &Vec<crate::types::FlowEdge>) -> (r: Vec<(String, Value)>)
    ensures
        fields_view(r@) == flow_fields(es@),
{
    let mut out: Vec<(String, Value)> = Vec::new();
    let mut i: usize = 0;
    assert(fields_view(out@) =~= flow_fields(es@.take(0)));
    while i < es.len()
        invariant
            i <= es.len(),
            fields_view(out@) == flow_fields(es@.take(i as int)),
        decreases es.len() - i,
    {
        let e = &es[i];
        proof {
            reveal_strlit("");
        }
        let base = numbered_key("edge_", i, "");
        assert(base@ == "edge_"@ + text::decimal(i as nat)) by {
            assert("edge_"@ + text::decimal(i as nat) + ""@ =~= "edge_"@ + text::decimal(i as nat));
        }
        insert_field(&mut out, base, Value::String(edge_text_exec(e)));
        match &e.label {
            Some(l) => {
                let k = numbered_key("edge_", i, "_label");
                insert_field(&mut out, k, Value::String(l.clone()));
            },
            None => {},
        }
        match &e.gate {
            Some(g) => {
                let k = numbered_key("edge_", i, "_gate");
                insert_field(&mut out, k, Value::String(g.clone()));
            },
            None => {},
        }
        assert(es@.take(i + 1).drop_last() =~= es@.take(i as int));
        i = i + 1;
    }
    assert(es@.take(es.len() as int) =~= es@);
    out
}

fn states_fields_exec(es: &Vec<crate::types::FlowEdge>) -> (r: Vec<(String, Value)>)
    ensures
        fields_view(r@) == states_fields(es@),
{
    let mut out: Vec<(String, Value)> = Vec::new();
    let mut i: usize = 0;
    assert(fields_view(out@) =~= states_fields(es@.take(0)));
    while i < es.len()
        invariant
            i <= es.len(),
            fields_view(out@) == states_fields(es@.take(i as int)),
        decreases es.len() - i,
    {
        proof {
            reveal_strlit("");
        }
        let k = numbered_key("transition_", i, "");
        assert(k@ == "transition_"@ + text::decimal(i as nat)) by {
            assert("transition_"@ + text::decimal(i as nat) + ""@ =~= "transition_"@ + text::decimal(i as nat));
        }
        insert_field(&mut out, k, Value::String(edge_text_exec(&es[i])));
        assert(es@.take(i + 1).drop_last() =~= es@.take(i as int));
        i = i + 1;
    }
    assert(es@.take(es.len() as int) =~= es@);
    out
}

fn opt_debug_exec(o: &Option<String>) -> (r: Vec<char>)
    ensures
        r@ == opt_debug(*o),
{
    match o {
        Some(s) => {
            let mut c = chars_of("Some(");
            let q = text::debug_quoted_exec(&text::string_chars(s));
            text::append(&mut c, &q);
            text::append_str(&mut c, ")");
            c
        },
        None => chars_of("None"),
    }
}

fn ref_debug_exec(r: &Ref) -> (out: Vec<char>)
    ensures
        out@ == ref_debug(*r),
{
    let ghost qv = text::str_views(r.path@).map_values(|p: Seq<char>| text::debug_quoted(p));
    let mut qs: Vec<Vec<char>> = Vec::new();
    let mut i: usize = 0;
    while i < r.path.len()
        invariant
            i <= r.path.len(),
            qv == text::str_views(r.path@).map_values(|p: Seq<char>| text::debug_quoted(p)),
            text::views(qs@) == qv.take(i as int),
        decreases r.path.len() - i,
    {
        let q = text::debug_quoted_exec(&text::string_chars(&r.path[i]));
        let ghost q0 = qs@;
        qs.push(q);
        proof {
            text::lemma_views_push(q0, q);
            assert(qv.take(i + 1) =~= qv.take(i as int).push(qv[i as int]));
        }
        i = i + 1;
    }
    assert(qv.take(r.path.len() as int) =~= qv);
    let mut out = chars_of("Ref { path: [");
    let j = text::join_str(&qs, ", ");
    text::append(&mut out, &j);
    text::append_str(&mut out, "], plural: ");
    if r.plural {
        text::append_str(&mut out, "true");
    } else {
        text::append_str(&mut out, "false");
    }
    text::append_str(&mut out, ", mod_scope: ");
    let m = opt_debug_exec(&r.mod_scope);
    text::append(&mut out, &m);
    text::append_str(&mut out, ", workspace_scope: ");
    let w = opt_debug_exec(&r.workspace_scope);
    text::append(&mut out, &w);
    text::append_str(&mut out, " }");
    out
}

fn var_text_exec(v: &VarValue) -> (r: String)
    ensures
        r@ == var_text(*v),
{
    match v {
        VarValue::Literal(s) => s.clone(),
        VarValue::Compute(c) => {
            let mut out: Vec<char> = Vec::new();
            out.push('|');
            text::append_string(&mut out, &c.expr);
            out.push('|');
            text::to_string(&out)
        },
        VarValue::Ref(r) => {
            let mut out: Vec<char> = Vec::new();
            out.push('@');
            let d = ref_debug_exec(r);
            text::append(&mut out, &d);
            text::to_string(&out)
        },
    }
}

pub proof fn lemma_assoc_set_at<V>(vs: Seq<(Seq<char>, V)>, k: Seq<char>, v: V, i: int)
    requires
        0 <= i <= vs.len(),
        forall|j: int| 0 <= j < i ==> (#[trigger] vs[j]).0 != k,
        i < vs.len() ==> vs[i].0 == k,
    ensures
        i < vs.len() ==> assoc_set(vs, k, v) == vs.update(i, (k, v)),
        i == vs.len() ==> assoc_set(vs, k, v) == vs.push((k, v)),
    decreases i,
{
    if i > 0 {
        let t = vs.drop_first();
        assert forall|j: int| 0 <= j < i - 1 implies (#[trigger] t[j]).0 != k by {
            assert(t[j] == vs[j + 1]);
        }
        lemma_assoc_set_at(t, k, v, i - 1);
        if i < vs.len() {
            assert(seq![vs[0]] + t.update(i - 1, (k, v)) =~= vs.update(i, (k, v)));
        } else {
            assert(seq![vs[0]] + t.push((k, v)) =~= vs.push((k, v)));
        }
    } else if vs.len() == 0 {
        assert(seq![(k, v)] =~= vs.push((k, v)));
    }
}

/// Sets a variable in a table of variables.
pub fn set_var(vars: &mut Vec<(String, String)>, k: String, v: String)
    ensures
        pairs_view(final(vars)@) == assoc_set(pairs_view(old(vars)@), k@, v@),
{
    let ghost vs = pairs_view(vars@);
    let kc = text::string_chars(&k);
    let mut i: usize = 0;
    while i < vars.len()
        invariant_except_break
            i <= vars.len(),
            vs == pairs_view(vars@),
            kc@ == k@,
            forall|j: int| 0 <= j < i ==> (#[trigger] vs[j]).0 != k@,
        ensures
            i <= vars.len(),
            vs == pairs_view(vars@),
            forall|j: int| 0 <= j < i ==> (#[trigger] vs[j]).0 != k@,
            i < vars.len() ==> vs[i as int].0 == k@,
        decreases vars.len() - i,
    {
        if text::eq(&text::string_chars(&vars[i].0), &kc) {
            break;
        }
        i = i + 1;
    }
    proof {
        lemma_assoc_set_at(vs, k@, v@, i as int);
    }
    let ghost kv = k@;
    let ghost vv = v@;
    if i < vars.len() {
        vars.set(i, (k, v));
        assert(pairs_view(vars@) =~= vs.update(i as int, (kv, vv)));
    } else {
        vars.push((k, v));
        assert(pairs_view(vars@) =~= vs.push((kv, vv)));
    }
}

pub open spec fn opt_cview(o: Option<Construct>) -> Option<ConstructView> {
    match o {
        Some(c) => Some(construct_view(c)),
        None => None,
    }
}


pub open spec fn is_leaf(n: Node) -> bool {
    !(n is Validate || n is Conditional || n is Task || n is Group || n is Variable || n is UnitCell || n is Symmetry)
}

/// Lowers a node that neither has children nor sets a variable.
fn lower_leaf(n: &Node) -> (r: Option<Construct>)
    requires
        is_leaf(*n),
    ensures
        forall|vars: Seq<(Seq<char>, Seq<char>)>| #[trigger] lower_spec(*n, vars) == (opt_cview(r), vars),
{
    match n {
        Node::Define(d) => Some(
            mk(ConstructKind::Define, Some(d.entity.clone()), lower_field_defs(&d.fields), Vec::new()),
        ),
        Node::Mutate(m) => {
            let mut f = raw_pairs(&m.fields);
            put_opt(&mut f, "_id", &m.id);
            Some(mk(ConstructKind::Mutate, Some(m.entity.clone()), f, Vec::new()))
        },
        Node::Delete(d) => Some(
            mk(ConstructKind::Delete, Some(d.entity.clone()), one_str("_id", d.id.clone()), Vec::new()),
        ),
        Node::Query(q) => {
            let mut f = one_str("entity", q.entity.clone());
            put_opt(&mut f, "filter", &q.filter);
            put_opt(&mut f, "sort", &q.sort);
            match q.limit {
                Some(l) => {
                    let n: i64 = #[verifier::truncate] (l as i64);
                    insert_field(&mut f, "limit".to_owned(), Value::Integer(n));
                },
                None => {},
            }
            put_opt(&mut f, "from_snapshot", &q.from_snapshot);
            Some(mk(ConstructKind::Query, Some(q.entity.clone()), f, Vec::new()))
        },
        Node::Flow(fl) => Some(
            mk(ConstructKind::Flow, fl.name.clone(), flow_fields_exec(&fl.edges), Vec::new()),
        ),
        Node::GateDef(g) => Some(
            mk(ConstructKind::Gate, Some(g.name.clone()), extract_prose_fields(&g.children), Vec::new()),
        ),
        Node::LatticeValidates(l) => Some(
            mk(ConstructKind::Lattice, Some(text::to_string(&text::str_chars("validates"))), extract_prose_fields(&l.children), Vec::new()),
        ),
        Node::LatticeConstraint(l) => Some(
            mk(ConstructKind::Lattice, Some(text::to_string(&text::str_chars("constraint"))), extract_prose_fields(&l.children), Vec::new()),
        ),
        Node::LatticeSchema(l) => Some(
            mk(ConstructKind::Lattice, Some(text::to_string(&text::str_chars("schema"))), extract_prose_fields(&l.children), Vec::new()),
        ),
        Node::LatticeFrontier(l) => Some(
            mk(ConstructKind::Lattice, Some(text::to_string(&text::str_chars("frontier"))), extract_prose_fields(&l.children), Vec::new()),
        ),
        Node::PressureEffect(pe) => {
            let mut f = one_str("dynamic", pe.dynamic.clone());
            put_opt(&mut f, "target", &pe.target);
            Some(mk(ConstructKind::PressureEffect, None, f, Vec::new()))
        },
        Node::Form(fo) => Some(
            mk(ConstructKind::Form, Some(fo.name.clone()), lower_field_defs(&fo.fields), Vec::new()),
        ),
        Node::Routine(r) => Some(
            mk(ConstructKind::Routine, Some(r.trigger.clone()), empty_fields(), Vec::new()),
        ),
        Node::Spawn(sp) => {
            let kind = match sp {
                Spawn::Parallel => ConstructKind::SpawnParallel,
                Spawn::Sequential => ConstructKind::SpawnSequential,
            };
            Some(mk(kind, None, empty_fields(), Vec::new()))
        },
        Node::ModDef(m) => {
            let mut f: Vec<(String, Value)> = Vec::new();
            assert(fields_view(f@) =~= no_fields());
            put_opt(&mut f, "description", &m.description);
            str_pairs(&mut f, &m.body);
            Some(mk(ConstructKind::Mod, Some(m.name.clone()), f, Vec::new()))
        },
        Node::Remember(r) => Some(
            mk(ConstructKind::Remember, None, one_str("content", r.content.clone()), Vec::new()),
        ),
        Node::Recall(r) => Some(
            mk(ConstructKind::Recall, None, one_str("query", r.query.clone()), Vec::new()),
        ),
        Node::Escalate(e) => Some(
            mk(ConstructKind::Escalate, Some(e.target.clone()), empty_fields(), Vec::new()),
        ),
        Node::StatusDef(st) => {
            let name = text::to_string(&join_strings(&st.options, "/"));
            Some(mk(ConstructKind::Status, Some(name), empty_fields(), Vec::new()))
        },
        Node::Snap(sn) => Some(mk(ConstructKind::Snap, Some(sn.name.clone()), empty_fields(), Vec::new())),
        Node::Diff(d) => {
            let mut f = one_str("target", d.target.clone());
            put_opt(&mut f, "from_snapshot", &d.from_snapshot);
            Some(mk(ConstructKind::Diff, None, f, Vec::new()))
        },
        Node::History(h) => Some(
            mk(ConstructKind::History, Some(h.target.clone()), empty_fields(), Vec::new()),
        ),
        Node::EmbedMarker(e) => Some(
            mk(ConstructKind::Embed, Some(e.tag.clone()), empty_fields(), Vec::new()),
        ),
        Node::CodeBlock(b) => Some(
            mk(ConstructKind::CodeBlock, b.lang.clone(), one_str("code", b.content.clone()), Vec::new()),
        ),
        Node::States(st) => Some(
            mk(ConstructKind::Flow, None, states_fields_exec(&st.transitions), Vec::new()),
        ),
        Node::Prose(p) => Some(
            mk(ConstructKind::Prose, None, one_str("text", p.text.clone()), Vec::new()),
        ),
        Node::Comment(c) => Some(
            mk(ConstructKind::Prose, None, one_str("text", c.text.clone()), Vec::new()),
        ),
        Node::Bold(b) => Some(
            mk(ConstructKind::Prose, None, one_str("text", b.text.clone()), Vec::new()),
        ),
        Node::Divider => Some(mk(ConstructKind::Divider, None, empty_fields(), Vec::new())),
        Node::Webhook(w) => {
            let mut f = one_str("trigger", w.trigger.clone());
            put_str(&mut f, "url", w.url.clone());
            put_opt(&mut f, "payload", &w.payload);
            Some(mk(ConstructKind::Webhook, Some(w.trigger.clone()), f, Vec::new()))
        },
        Node::PolicyDef(p) => Some(mk(ConstructKind::Policy, None, policy_fields_exec(&p.rules), Vec::new())),
        Node::Git(g) => Some(
            mk(ConstructKind::Git, Some(text::to_string(&git_debug_exec(g))), empty_fields(), Vec::new()),
        ),
        Node::SyncDef(sd) => {
            let mut f = one_str("schedule", sd.schedule.clone());
            put_str(&mut f, "source", sd.source.clone());
            put_str(&mut f, "target", sd.target.clone());
            Some(mk(ConstructKind::Sync, Some(sd.name.clone()), f, Vec::new()))
        },
        Node::Serve(sv) => {
            let mut f = one_str("target", sv.target.clone());
            put_str(&mut f, "command", sv.command.clone());
            put_opt(&mut f, "port", &sv.port);
            Some(mk(ConstructKind::Serve, Some(sv.target.clone()), f, Vec::new()))
        },
        Node::UseBlock(u) => {
            let mut f = one_str("source", u.mod_name.clone());
            put_opt(&mut f, "alias", &u.alias);
            Some(mk(ConstructKind::Use, u.entity.clone(), f, Vec::new()))
        },
        Node::Check(c) => {
            let mut f: Vec<(String, Value)> = Vec::new();
            assert(fields_view(f@) =~= no_fields());
            str_pairs(&mut f, &c.body);
            Some(mk(ConstructKind::Check, Some(c.name.clone()), f, Vec::new()))
        },
        _ => None,
    }
}

fn git_debug_exec(g: &crate::types::GitOp) -> (r: Vec<char>)
    ensures
        r@ == git_debug(*g),
{
    let mut parts: Vec<Vec<char>> = Vec::new();
    let mut i: usize = 0;
    while i < g.body.len()
        invariant
            i <= g.body.len(),
            text::views(parts@) == g.body@.take(i as int).map_values(|p: (String, String)| pair_debug(p)),
        decreases g.body.len() - i,
    {
        let mut t: Vec<char> = Vec::new();
        text::append_str(&mut t, "(");
        text::append(&mut t, &text::debug_quoted_exec(&text::string_chars(&g.body[i].0)));
        text::append_str(&mut t, ", ");
        text::append(&mut t, &text::debug_quoted_exec(&text::string_chars(&g.body[i].1)));
        text::append_str(&mut t, ")");
        proof {
            text::lemma_views_push(parts@, t);
            assert(g.body@.take(i + 1) =~= g.body@.take(i as int).push(g.body@[i as int]));
        }
        parts.push(t);
        i = i + 1;
        assert(text::views(parts@) =~= g.body@.take(i as int).map_values(|p: (String, String)| pair_debug(p)));
    }
    assert(g.body@.take(g.body.len() as int) =~= g.body@);
    let mut out: Vec<char> = Vec::new();
    text::append_str(&mut out, "GitOp { verb: ");
    text::append(&mut out, &text::debug_quoted_exec(&text::string_chars(&g.verb)));
    text::append_str(&mut out, ", args: ");
    text::append(&mut out, &text::debug_quoted_exec(&text::string_chars(&g.args)));
    text::append_str(&mut out, ", body: [");
    text::append(&mut out, &text::join_str(&parts, ", "));
    text::append_str(&mut out, "] }");
    out
}

fn gate_names_exec(gs: &Vec<crate::types::Gate>) -> (r: Vec<String>)
    ensures
        text::str_views(r@) == gate_names(gs@),
{
    let mut out: Vec<String> = Vec::new();
    let mut i: usize = 0;
    while i < gs.len()
        invariant
            i <= gs.len(),
            text::str_views(out@) == gate_names(gs@).take(i as int),
        decreases gs.len() - i,
    {
        let ghost o = out@;
        let nm = gs[i].name.clone();
        out.push(nm);
        proof {
            assert(text::str_views(o.push(nm)) =~= text::str_views(o).push(nm@));
            assert(gate_names(gs@).take(i + 1) =~= gate_names(gs@).take(i as int).push(gs@[i as int].name@));
        }
        i = i + 1;
    }
    assert(gate_names(gs@).take(gs.len() as int) =~= gate_names(gs@));
    out
}

fn policy_fields_exec(rules: &Vec<crate::types::PolicyRule>) -> (r: Vec<(String, Value)>)
    ensures
        fields_view(r@) == policy_fields(rules@),
{
    let mut f = empty_fields();
    let mut i: usize = 0;
    assert(rules@.take(0) =~= Seq::<crate::types::PolicyRule>::empty());
    while i < rules.len()
        invariant
            i <= rules.len(),
            fields_view(f@) == policy_fields(rules@.take(i as int)),
        decreases rules.len() - i,
    {
        let names = gate_names_exec(&rules[i].gates);
        let joined = text::to_string(&join_strings(&names, ", "));
        proof {
            assert(rules@.take(i + 1).drop_last() =~= rules@.take(i as int));
            assert(rules@.take(i + 1).last() == rules@[i as int]);
        }
        put_str(&mut f, rules[i].path.as_str(), joined);
        i = i + 1;
    }
    assert(rules@.take(rules.len() as int) =~= rules@);
    f
}

/// Lowers one node, recording the variables it sets.
pub fn lower_node(n: &Node, vars: &mut Vec<(String, String)>) -> (r: Option<Construct>)
    ensures
        (opt_cview(r), pairs_view(final(vars)@)) == lower_spec(*n, pairs_view(old(vars)@)),
    decreases *n,
{
    match n {
        Node::Validate(v) => {
            let ch = lower_nodes_of(&v.children, vars);
            Some(mk(ConstructKind::Validate, Some(v.name.clone()), empty_fields(), ch))
        },
        Node::Conditional(c) => {
            let ch = lower_nodes_of(&c.children, vars);
            Some(mk(ConstructKind::Conditional, None, one_str("condition", c.condition.expr.clone()), ch))
        },
        Node::Task(t) => {
            let ch = lower_nodes_of(&t.children, vars);
            let mut f = one_str("text", t.text.clone());
            put_str(&mut f, "status", t.marker.kind.name().to_owned());
            put_opt(&mut f, "label", &t.label);
            Some(mk(ConstructKind::Task, t.label.clone(), f, ch))
        },
        Node::Group(g) => {
            let ch = lower_nodes_of(&g.children, vars);
            Some(mk(ConstructKind::Group, Some(g.name.clone()), empty_fields(), ch))
        },
        Node::UnitCell(u) => {
            let ch = lower_nodes_of(&u.children, vars);
            Some(mk(ConstructKind::UnitCell, None, empty_fields(), ch))
        },
        Node::Symmetry(u) => {
            let ch = lower_nodes_of(&u.children, vars);
            Some(mk(ConstructKind::Symmetry, None, empty_fields(), ch))
        },
        Node::Variable(v) => {
            let val = var_text_exec(&v.value);
            set_var(vars, v.name.clone(), val.clone());
            Some(mk(ConstructKind::Variable, Some(v.name.clone()), one_str("value", val), Vec::new()))
        },
        _ => {
            let r = lower_leaf(n);
            assert(lower_spec(*n, pairs_view(vars@)) == (opt_cview(r), pairs_view(vars@)));
            r
        },
    }
}

/// Lowers some nodes in order, keeping the constructs they lower to.
pub fn lower_nodes_of(ns: &Vec<Node>, vars: &mut Vec<(String, String)>) -> (r: Vec<Construct>)
    ensures
        (constructs_view(r@), pairs_view(final(vars)@)) == lower_seq_spec(ns@, pairs_view(old(vars)@)),
    decreases ns@,
{
    let ghost v0 = pairs_view(vars@);
    let mut out: Vec<Construct> = Vec::new();
    let mut i: usize = 0;
    assert(ns@.take(0) =~= Seq::<Node>::empty());
    while i < ns.len()
        invariant
            i <= ns.len(),
            (constructs_view(out@), pairs_view(vars@)) == lower_seq_spec(ns@.take(i as int), v0),
        decreases ns.len() - i,
    {
        assert(ns@.take(i + 1).drop_last() =~= ns@.take(i as int));
        assert(ns@.take(i + 1).last() == ns@[i as int]);
        let ghost o0 = out@;
        match lower_node(&ns[i], vars) {
            Some(c) => {
                out.push(c);
                assert(out@.drop_last() =~= o0);
            },
            None => {},
        }
        i = i + 1;
    }
    assert(ns@.take(ns.len() as int) =~= ns@);
    out
}


// ── The document graph ─────────────────────────────────────────

/// The fully resolved document graph.
pub struct BitIR {
    /// All constructs in document order.
    pub constructs: Vec<Construct>,
    /// Schema index: entity name and the index of its construct, each name
    /// once.
    pub schema_index: Vec<(String, usize)>,
    /// All `@` references found.
    pub references: Vec<Reference>,
    /// Variables defined in the document, each name once.
    pub variables: Vec<(String, String)>,
    /// Imports (use statements).
    pub imports: Vec<Import>,
    /// Errors found while building and checking the graph.
    pub errors: Vec<IRError>,
}

pub struct ErrorView {
    pub kind: IRErrorKind,
    pub message: Seq<char>,
    pub line: usize,
}

pub struct ImportView {
    pub entity: Option<Seq<char>>,
    pub source: Seq<char>,
    pub alias: Option<Seq<char>>,
}

pub struct IRView {
    pub constructs: Seq<ConstructView>,
    pub schema: Seq<(Seq<char>, usize)>,
    pub references: Seq<ReferenceView>,
    pub variables: Seq<(Seq<char>, Seq<char>)>,
    pub imports: Seq<ImportView>,
    pub errors: Seq<ErrorView>,
}

pub struct ReferenceView {
    pub entity: Seq<char>,
    pub id: Option<Seq<char>>,
    pub workspace: Option<Seq<char>>,
    pub mod_scope: Option<Seq<char>>,
    pub in_construct: usize,
}

pub open spec fn references_view(s: Seq<Reference>) -> Seq<ReferenceView> {
    s.map_values(
        |r: Reference|
            ReferenceView {
                entity: r.entity@,
                id: sopt(r.id),
                workspace: sopt(r.workspace),
                mod_scope: sopt(r.mod_scope),
                in_construct: r.in_construct,
            },
    )
}

pub open spec fn error_view(e: IRError) -> ErrorView {
    ErrorView { kind: e.kind, message: e.message@, line: e.line }
}

pub open spec fn errors_view(s: Seq<IRError>) -> Seq<ErrorView> {
    s.map_values(|e: IRError| error_view(e))
}

pub open spec fn imports_view(s: Seq<Import>) -> Seq<ImportView> {
    s.map_values(|i: Import| ImportView { entity: sopt(i.entity), source: i.source@, alias: sopt(i.alias) })
}

pub open spec fn schema_view(s: Seq<(String, usize)>) -> Seq<(Seq<char>, usize)> {
    s.map_values(|e: (String, usize)| (e.0@, e.1))
}

impl BitIR {
    pub open spec fn view(&self) -> IRView {
        IRView {
            constructs: constructs_view(self.constructs@),
            schema: schema_view(self.schema_index@),
            references: references_view(self.references@),
            variables: pairs_view(self.variables@),
            imports: imports_view(self.imports@),
            errors: errors_view(self.errors@),
        }
    }
}

/// What lowering has built so far.
pub struct LowerState {
    pub constructs: Seq<ConstructView>,
    pub schema: Seq<(Seq<char>, usize)>,
    pub errors: Seq<ErrorView>,
    pub vars: Seq<(Seq<char>, Seq<char>)>,
}

pub open spec fn has_key<V>(s: Seq<(Seq<char>, V)>, k: Seq<char>) -> bool {
    exists|j: int| 0 <= j < s.len() && (#[trigger] s[j]).0 == k
}

/// A node that ends the run of constructs a spawn marker collects.
pub open spec fn ends_spawn(n: Node) -> bool {
    match n {
        Node::Spawn(_) => true,
        Node::Prose(p) => text::trim(p.text@).len() == 0,
        Node::Define(_) => true,
        Node::Flow(_) => true,
        Node::GateDef(_) => true,
        Node::ModDef(_) => true,
        Node::Validate(_) => true,
        Node::Form(_) => true,
        Node::Webhook(_) => true,
        Node::PolicyDef(_) => true,
        Node::SyncDef(_) => true,
        Node::Serve(_) => true,
        _ => false,
    }
}

/// The constructs a spawn marker collects from position `i` on, how many
/// nodes it takes, and the variables after them.
pub open spec fn spawn_run(ns: Seq<Node>, i: int, vars: Seq<(Seq<char>, Seq<char>)>) -> (
    Seq<ConstructView>,
    nat,
    Seq<(Seq<char>, Seq<char>)>,
)
    decreases ns.len() - i,
{
    if i < 0 || i >= ns.len() || ends_spawn(ns[i]) {
        (Seq::empty(), 0, vars)
    } else {
        let (c, v1) = lower_spec(ns[i], vars);
        let (rest, k, v2) = spawn_run(ns, i + 1, v1);
        (
            match c {
                Some(x) => seq![x] + rest,
                None => rest,
            },
            k + 1,
            v2,
        )
    }
}

pub proof fn lemma_spawn_run_len(ns: Seq<Node>, i: int, vars: Seq<(Seq<char>, Seq<char>)>)
    requires
        0 <= i <= ns.len(),
    ensures
        i + spawn_run(ns, i, vars).1 <= ns.len(),
    decreases ns.len() - i,
{
    if i < ns.len() && !ends_spawn(ns[i]) {
        lemma_spawn_run_len(ns, i + 1, lower_spec(ns[i], vars).1);
    }
}

/// Adds a construct to the graph; a schema is indexed by its entity name,
/// and a second schema of the same name is an error.
pub open spec fn add_construct(st: LowerState, x: ConstructView) -> LowerState {
    let st2 = if x.kind == ConstructKind::Define && x.name is Some {
        let nm = x.name->0;
        if has_key(st.schema, nm) {
            LowerState {
                errors: st.errors.push(
                    ErrorView {
                        kind: IRErrorKind::DuplicateSchema,
                        message: "duplicate define:@"@ + nm,
                        line: x.line,
                    },
                ),
                ..st
            }
        } else {
            LowerState { schema: st.schema.push((nm, st.constructs.len() as usize)), ..st }
        }
    } else {
        st
    };
    LowerState { constructs: st2.constructs.push(x), ..st2 }
}

/// The graph after the nodes from position `i` on.
pub open spec fn lower_from(ns: Seq<Node>, i: int, st: LowerState) -> LowerState
    decreases ns.len() - i,
{
    if i < 0 || i >= ns.len() {
        st
    } else {
        match ns[i] {
            Node::Spawn(sp) => {
                let (ch, k, v2) = spawn_run(ns, i + 1, st.vars);
                proof {
                    lemma_spawn_run_len(ns, i + 1, st.vars);
                }
                let kind = if sp == Spawn::Parallel {
                    ConstructKind::SpawnParallel
                } else {
                    ConstructKind::SpawnSequential
                };
                lower_from(
                    ns,
                    i + 1 + k,
                    LowerState {
                        constructs: st.constructs.push(cv(kind, None, no_fields(), ch)),
                        vars: v2,
                        ..st
                    },
                )
            },
            _ => {
                let (c, v2) = lower_spec(ns[i], st.vars);
                let st1 = LowerState { vars: v2, ..st };
                lower_from(
                    ns,
                    i + 1,
                    match c {
                        Some(x) => add_construct(st1, x),
                        None => st1,
                    },
                )
            },
        }
    }
}


pub open spec fn state_of(ir: BitIR) -> LowerState {
    LowerState {
        constructs: constructs_view(ir.constructs@),
        schema: schema_view(ir.schema_index@),
        errors: errors_view(ir.errors@),
        vars: pairs_view(ir.variables@),
    }
}

fn ends_spawn_exec(n: &Node) -> (r: bool)
    ensures
        r == ends_spawn(*n),
{
    match n {
        Node::Spawn(_) => true,
        Node::Prose(p) => text::is_blank(&text::string_chars(&p.text)),
        Node::Define(_) => true,
        Node::Flow(_) => true,
        Node::GateDef(_) => true,
        Node::ModDef(_) => true,
        Node::Validate(_) => true,
        Node::Form(_) => true,
        Node::Webhook(_) => true,
        Node::PolicyDef(_) => true,
        Node::SyncDef(_) => true,
        Node::Serve(_) => true,
        _ => false,
    }
}

fn schema_has(schema: &Vec<(String, usize)>, nm: &String) -> (r: bool)
    ensures
        r == has_key(schema_view(schema@), nm@),
{
    let nc = text::string_chars(nm);
    let mut i: usize = 0;
    while i < schema.len()
        invariant
            i <= schema.len(),
            nc@ == nm@,
            forall|j: int| 0 <= j < i ==> (#[trigger] schema_view(schema@)[j]).0 != nm@,
        decreases schema.len() - i,
    {
        if text::eq(&text::string_chars(&schema[i].0), &nc) {
            assert(schema_view(schema@)[i as int].0 == nm@);
            return true;
        }
        i = i + 1;
    }
    false
}

fn concat_msg(head: &str, body: &String, tail: &str) -> (r: String)
    ensures
        r@ == head@ + body@ + tail@,
{
    let mut c = chars_of(head);
    text::append_string(&mut c, body);
    text::append_str(&mut c, tail);
    text::to_string(&c)
}

impl BitIR {
    /// Adds a construct to the graph, indexing a schema by its entity name.
    fn add_construct(&mut self, x: Construct)
        ensures
            state_of(*final(self)) == add_construct(state_of(*old(self)), construct_view(x)),
            final(self).references@ == old(self).references@,
            final(self).imports@ == old(self).imports@,
    {
        proof {
            reveal_strlit("");
        }
        let ghost st = state_of(*self);
        let ghost xv = construct_view(x);
        if x.kind == ConstructKind::Define {
            match &x.name {
                Some(nm) => {
                    if schema_has(&self.schema_index, nm) {
                        let msg = concat_msg("duplicate define:@", nm, "");
                        assert(msg@ == "duplicate define:@"@ + nm@) by {
                            assert("duplicate define:@"@ + nm@ + ""@ =~= "duplicate define:@"@ + nm@);
                        }
                        let e = IRError { kind: IRErrorKind::DuplicateSchema, message: msg, line: x.line };
                        self.errors.push(e);
                        assert(errors_view(self.errors@) =~= st.errors.push(error_view(e)));
                    } else {
                        let idx = self.constructs.len();
                        proof {
                            lemma_constructs_view(self.constructs@);
                        }
                        self.schema_index.push((nm.clone(), idx));
                        assert(schema_view(self.schema_index@) =~= st.schema.push((nm@, idx)));
                    }
                },
                None => {},
            }
        }
        let ghost mid = self.constructs@;
        self.constructs.push(x);
        assert(self.constructs@.drop_last() =~= mid);
    }

    /// Lowers the run of constructs that a spawn marker collects, from
    /// `start` on, and adds the spawn construct; returns where the run ends.
    #[verifier::spinoff_prover]
    #[verifier::rlimit(50)]
    fn lower_spawn(&mut self, ns: &Vec<Node>, start: usize, parallel: bool) -> (j: usize)
        requires
            start <= ns.len(),
        ensures
            j == start + spawn_run(ns@, start as int, pairs_view(old(self).variables@)).1,
            state_of(*final(self)) == (LowerState {
                constructs: state_of(*old(self)).constructs.push(
                    cv(
                        if parallel {
                            ConstructKind::SpawnParallel
                        } else {
                            ConstructKind::SpawnSequential
                        },
                        None,
                        no_fields(),
                        spawn_run(ns@, start as int, pairs_view(old(self).variables@)).0,
                    ),
                ),
                vars: spawn_run(ns@, start as int, pairs_view(old(self).variables@)).2,
                ..state_of(*old(self))
            }),
            final(self).references@ == old(self).references@,
            final(self).imports@ == old(self).imports@,
    {
        let ghost st = state_of(*self);
        let ghost v0 = pairs_view(self.variables@);
        let mut children: Vec<Construct> = Vec::new();
        let mut i = start;
        proof {
            let r = spawn_run(ns@, i as int, v0);
            assert(constructs_view(children@) + r.0 =~= r.0);
        }
        while i < ns.len() && !ends_spawn_exec(&ns[i])
            invariant
                start <= i <= ns.len(),
                st.constructs == constructs_view(self.constructs@),
                st.schema == schema_view(self.schema_index@),
                st.errors == errors_view(self.errors@),
                v0 == st.vars,
                self.references@ == old(self).references@,
                self.imports@ == old(self).imports@,
                spawn_run(ns@, start as int, v0) == (
                    constructs_view(children@) + spawn_run(ns@, i as int, pairs_view(self.variables@)).0,
                    ((i - start) + spawn_run(ns@, i as int, pairs_view(self.variables@)).1) as nat,
                    spawn_run(ns@, i as int, pairs_view(self.variables@)).2,
                ),
            decreases ns.len() - i,
        {
            let ghost c0 = children@;
            match lower_node(&ns[i], &mut self.variables) {
                Some(c) => {
                    children.push(c);
                    proof {
                        assert(children@.drop_last() =~= c0);
                        let r = spawn_run(ns@, i + 1, pairs_view(self.variables@));
                        assert(constructs_view(children@) + r.0 =~= constructs_view(c0) + (seq![
                            construct_view(c),
                        ] + r.0));
                    }
                },
                None => {},
            }
            i = i + 1;
        }
        let kind = if parallel {
            ConstructKind::SpawnParallel
        } else {
            ConstructKind::SpawnSequential
        };
        let ghost cs0 = self.constructs@;
        let sc = mk(kind, None, empty_fields(), children);
        self.constructs.push(sc);
        proof {
            assert(self.constructs@.drop_last() =~= cs0);
            let r = spawn_run(ns@, i as int, pairs_view(self.variables@));
            assert(r.0 =~= Seq::<ConstructView>::empty());
            assert(constructs_view(children@) + r.0 =~= constructs_view(children@));
        }
        i
    }

    /// Lowers a document's nodes in order; a spawn marker collects the
    /// constructs after it into one spawn construct.
    fn lower_nodes(&mut self, ns: &Vec<Node>)
        ensures
            state_of(*final(self)) == lower_from(ns@, 0, state_of(*old(self))),
            final(self).references@ == old(self).references@,
            final(self).imports@ == old(self).imports@,
    {
        let ghost target = lower_from(ns@, 0, state_of(*self));
        let ghost refs = self.references@;
        let ghost imps = self.imports@;
        let mut i: usize = 0;
        while i < ns.len()
            invariant
                i <= ns.len(),
                lower_from(ns@, i as int, state_of(*self)) == target,
                self.references@ == refs,
                self.imports@ == imps,
            decreases ns.len() - i,
        {
            match &ns[i] {
                Node::Spawn(sp) => {
                    let parallel = match sp {
                        Spawn::Parallel => true,
                        Spawn::Sequential => false,
                    };
                    proof {
                        lemma_spawn_run_len(ns@, i + 1, pairs_view(self.variables@));
                    }
                    i = self.lower_spawn(ns, i + 1, parallel);
                },
                _ => {
                    let c = lower_node(&ns[i], &mut self.variables);
                    match c {
                        Some(x) => self.add_construct(x),
                        None => {},
                    }
                    i = i + 1;
                },
            }
        }
    }
}


// ── Resolution and checks ──────────────────────────────────────

pub open spec fn imported(imps: Seq<ImportView>, e: Seq<char>) -> bool {
    exists|j: int| 0 <= j < imps.len() && (#[trigger] imps[j]).entity == Some(e)
}

/// Mutations and deletions of entities that no schema defines and no
/// import brings.
pub open spec fn unresolved_errors(
    cs: Seq<ConstructView>,
    schema: Seq<(Seq<char>, usize)>,
    imps: Seq<ImportView>,
) -> Seq<ErrorView>
    decreases cs.len(),
{
    if cs.len() == 0 {
        Seq::empty()
    } else {
        let prev = unresolved_errors(cs.drop_last(), schema, imps);
        let c = cs.last();
        match c.name {
            Some(e) => if (c.kind == ConstructKind::Mutate || c.kind == ConstructKind::Delete) && !has_key(
                schema,
                e,
            ) && !imported(imps, e) {
                prev.push(
                    ErrorView {
                        kind: IRErrorKind::UnresolvedRef,
                        message: "references undefined entity @"@ + e,
                        line: c.line,
                    },
                )
            } else {
                prev
            },
            None => prev,
        }
    }
}

pub open spec fn is_gate_name(cs: Seq<ConstructView>, g: Seq<char>) -> bool {
    exists|j: int| 0 <= j < cs.len() && (#[trigger] cs[j]).kind == ConstructKind::Gate && cs[j].name
        == Some(g)
}

/// The `_gate` fields of a flow that name no gate construct.
pub open spec fn flow_gate_errors(fs: Seq<(Seq<char>, ValueView)>, all: Seq<ConstructView>, line: usize) -> Seq<
    ErrorView,
>
    decreases fs.len(),
{
    if fs.len() == 0 {
        Seq::empty()
    } else {
        let prev = flow_gate_errors(fs.drop_last(), all, line);
        let (k, v) = fs.last();
        match v {
            ValueView::String(g) => if text::ends_with(k, "_gate"@) && !is_gate_name(all, g) {
                prev.push(
                    ErrorView {
                        kind: IRErrorKind::UnresolvedGate,
                        message: "flow references undefined gate '"@ + g + "'"@,
                        line,
                    },
                )
            } else {
                prev
            },
            _ => prev,
        }
    }
}

pub open spec fn gate_errors(cs: Seq<ConstructView>, all: Seq<ConstructView>) -> Seq<ErrorView>
    decreases cs.len(),
{
    if cs.len() == 0 {
        Seq::empty()
    } else {
        let c = cs.last();
        gate_errors(cs.drop_last(), all) + if c.kind == ConstructKind::Flow {
            flow_gate_errors(c.fields, all, c.line)
        } else {
            Seq::empty()
        }
    }
}

pub open spec fn import_errors(imps: Seq<ImportView>) -> Seq<ErrorView>
    decreases imps.len(),
{
    if imps.len() == 0 {
        Seq::empty()
    } else {
        let prev = import_errors(imps.drop_last());
        if imps.last().source.len() == 0 {
            prev.push(
                ErrorView {
                    kind: IRErrorKind::UnresolvedRef,
                    message: "use statement with empty source"@,
                    line: 0,
                },
            )
        } else {
            prev
        }
    }
}

/// A field that names flow states: `edge_N` (no label or gate) or
/// `transition_N`.
pub open spec fn is_state_key(k: Seq<char>) -> bool {
    (text::starts_with(k, "edge_"@) && !text::contains(k, "_label"@) && !text::contains(k, "_gate"@))
        || text::starts_with(k, "transition_"@)
}

/// The non-empty trimmed parts.
pub open spec fn nonempty_trimmed(parts: Seq<Seq<char>>) -> Seq<Seq<char>>
    decreases parts.len(),
{
    if parts.len() == 0 {
        Seq::empty()
    } else {
        let prev = nonempty_trimmed(parts.drop_last());
        let t = text::trim(parts.last());
        if t.len() > 0 {
            prev.push(t)
        } else {
            prev
        }
    }
}

/// The states a flow's fields name.
pub open spec fn flow_states(fs: Seq<(Seq<char>, ValueView)>) -> Seq<Seq<char>>
    decreases fs.len(),
{
    if fs.len() == 0 {
        Seq::empty()
    } else {
        let (k, v) = fs.last();
        flow_states(fs.drop_last()) + match v {
            ValueView::String(e) => if is_state_key(k) {
                nonempty_trimmed(text::split(e, "-->"@))
            } else {
                Seq::empty()
            },
            _ => Seq::empty(),
        }
    }
}

/// The states of each flow by flow name (`default` for an unnamed one); a
/// later flow of the same name replaces an earlier one.
pub open spec fn state_table(cs: Seq<ConstructView>) -> Seq<(Seq<char>, Seq<Seq<char>>)>
    decreases cs.len(),
{
    if cs.len() == 0 {
        Seq::empty()
    } else {
        let prev = state_table(cs.drop_last());
        let c = cs.last();
        let st = flow_states(c.fields);
        if c.kind == ConstructKind::Flow && st.len() > 0 {
            assoc_set(
                prev,
                match c.name {
                    Some(n) => n,
                    None => "default"@,
                },
                st,
            )
        } else {
            prev
        }
    }
}

pub open spec fn state_known(tbl: Seq<(Seq<char>, Seq<Seq<char>>)>, t: Seq<char>) -> bool {
    exists|j: int| 0 <= j < tbl.len() && (#[trigger] tbl[j]).1.contains(t)
}

/// The value of the first field named `k`.
pub open spec fn field_get<V>(fs: Seq<(Seq<char>, V)>, k: Seq<char>) -> Option<V>
    decreases fs.len(),
{
    if fs.len() == 0 {
        None
    } else if fs[0].0 == k {
        Some(fs[0].1)
    } else {
        field_get(fs.drop_first(), k)
    }
}

/// The first field named `k` set to `v` in place.
pub open spec fn field_update<V>(fs: Seq<(Seq<char>, V)>, k: Seq<char>, v: V) -> Seq<(Seq<char>, V)>
    decreases fs.len(),
{
    if fs.len() == 0 {
        fs
    } else if fs[0].0 == k {
        fs.update(0, (k, v))
    } else {
        seq![fs[0]] + field_update(fs.drop_first(), k, v)
    }
}

/// At the first index `i` with key `k`, `field_get` reads and
/// `field_update` writes.
pub proof fn lemma_field_first<V>(fs: Seq<(Seq<char>, V)>, k: Seq<char>, i: int, v: V)
    requires
        0 <= i < fs.len(),
        fs[i].0 == k,
        forall|j: int| 0 <= j < i ==> (#[trigger] fs[j]).0 != k,
    ensures
        field_get(fs, k) == Some(fs[i].1),
        field_update(fs, k, v) == fs.update(i, (k, v)),
    decreases i,
{
    if i > 0 {
        let t = fs.drop_first();
        assert forall|j: int| 0 <= j < i - 1 implies (#[trigger] t[j]).0 != k by {
            assert(t[j] == fs[j + 1]);
        }
        lemma_field_first(t, k, i - 1, v);
        assert(seq![fs[0]] + t.update(i - 1, (k, v)) =~= fs.update(i, (k, v)));
    }
}

/// Without key `k`, `field_get` finds nothing.
pub proof fn lemma_field_none<V>(fs: Seq<(Seq<char>, V)>, k: Seq<char>)
    requires
        forall|j: int| 0 <= j < fs.len() ==> (#[trigger] fs[j]).0 != k,
    ensures
        field_get(fs, k) is None,
    decreases fs.len(),
{
    if fs.len() > 0 {
        let t = fs.drop_first();
        assert forall|j: int| 0 <= j < t.len() implies (#[trigger] t[j]).0 != k by {
            assert(t[j] == fs[j + 1]);
        }
        lemma_field_none(t, k);
    }
}

pub open spec fn status_target(v: Seq<char>) -> Seq<char> {
    text::trim_matches_char(text::trim(v), '"')
}

/// Mutations that set a `:state` status that no flow names.
pub open spec fn typestate_errors(cs: Seq<ConstructView>, tbl: Seq<(Seq<char>, Seq<Seq<char>>)>) -> Seq<
    ErrorView,
>
    decreases cs.len(),
{
    if cs.len() == 0 {
        Seq::empty()
    } else {
        let prev = typestate_errors(cs.drop_last(), tbl);
        let c = cs.last();
        match field_get(c.fields, "status"@) {
            Some(ValueView::Raw(v)) => {
                let t = status_target(v);
                if c.kind == ConstructKind::Mutate && text::starts_with(t, ":"@) && !state_known(tbl, t) {
                    prev.push(
                        ErrorView {
                            kind: IRErrorKind::TypeMismatch,
                            message: "mutation sets status to '"@ + t
                                + "' but no flow defines this state"@,
                            line: c.line,
                        },
                    )
                } else {
                    prev
                }
            },
            _ => prev,
        }
    }
}

pub open spec fn name_or_unknown(n: Option<Seq<char>>) -> Seq<char> {
    match n {
        Some(s) => s,
        None => "unknown"@,
    }
}

pub open spec fn child_mutation_errors(ch: Seq<ConstructView>, line: usize) -> Seq<ErrorView>
    decreases ch.len(),
{
    if ch.len() == 0 {
        Seq::empty()
    } else {
        let prev = child_mutation_errors(ch.drop_last(), line);
        let c = ch.last();
        if c.kind == ConstructKind::Mutate || c.kind == ConstructKind::Delete {
            prev.push(
                ErrorView {
                    kind: IRErrorKind::UnresolvedRef,
                    message: "parallel spawn (+) contains mutation of @"@ + name_or_unknown(c.name)
                        + " — use sequential (++) for writes"@,
                    line,
                },
            )
        } else {
            prev
        }
    }
}

/// The error for a write (a mutation or a deletion of the entity `name`)
/// inside a parallel spawn on line `line`.
pub open spec fn spawn_write_error(name: Option<Seq<char>>, line: usize) -> ErrorView {
    ErrorView {
        kind: IRErrorKind::UnresolvedRef,
        message: "parallel spawn (+) contains mutation of @"@ + match name {
            Some(s) => s,
            None => "unknown"@,
        } + " — use sequential (++) for writes"@,
        line,
    }
}

proof fn lemma_child_write_error(ch: Seq<ConstructView>, line: usize, j: int)
    requires
        0 <= j < ch.len(),
        ch[j].kind == ConstructKind::Mutate || ch[j].kind == ConstructKind::Delete,
    ensures
        child_mutation_errors(ch, line).contains(spawn_write_error(ch[j].name, line)),
    decreases ch.len(),
{
    let e = spawn_write_error(ch[j].name, line);
    if j == ch.len() - 1 {
        let prev = child_mutation_errors(ch.drop_last(), line);
        assert(child_mutation_errors(ch, line) == prev.push(e));
        assert(prev.push(e)[prev.len() as int] == e);
    } else {
        assert(ch.drop_last()[j] == ch[j]);
        lemma_child_write_error(ch.drop_last(), line, j);
        let prev = child_mutation_errors(ch.drop_last(), line);
        let k = choose|k: int| 0 <= k < prev.len() && prev[k] == e;
        let c = ch.last();
        if c.kind == ConstructKind::Mutate || c.kind == ConstructKind::Delete {
            let all = child_mutation_errors(ch, line);
            assert(all[k] == e);
        } else {
            assert(child_mutation_errors(ch, line) == prev);
        }
    }
}

proof fn lemma_borrow_write_error(cs: Seq<ConstructView>, i: int, j: int)
    requires
        0 <= i < cs.len(),
        cs[i].kind == ConstructKind::SpawnParallel,
        0 <= j < cs[i].children.len(),
        cs[i].children[j].kind == ConstructKind::Mutate || cs[i].children[j].kind == ConstructKind::Delete,
    ensures
        borrow_errors(cs).contains(spawn_write_error(cs[i].children[j].name, cs[i].line)),
    decreases cs.len(),
{
    let e = spawn_write_error(cs[i].children[j].name, cs[i].line);
    let prev = borrow_errors(cs.drop_last());
    if i == cs.len() - 1 {
        lemma_child_write_error(cs[i].children, cs[i].line, j);
        let cm = child_mutation_errors(cs[i].children, cs[i].line);
        let k = choose|k: int| 0 <= k < cm.len() && cm[k] == e;
        assert(borrow_errors(cs) == prev + cm);
        assert((prev + cm)[prev.len() + k] == e);
    } else {
        assert(cs.drop_last()[i] == cs[i]);
        lemma_borrow_write_error(cs.drop_last(), i, j);
        let k = choose|k: int| 0 <= k < prev.len() && prev[k] == e;
        let all = borrow_errors(cs);
        assert(all[k] == e);
    }
}

/// Every mutation or deletion directly inside a parallel spawn of the graph
/// is reported: the graph's errors hold, for each such write, the error that
/// names its entity, on the spawn's line.
pub proof fn lemma_parallel_writes_reported(doc: Document, i: int, j: int)
    requires
        0 <= i < document_ir(doc).constructs.len(),
        document_ir(doc).constructs[i].kind == ConstructKind::SpawnParallel,
        0 <= j < document_ir(doc).constructs[i].children.len(),
        document_ir(doc).constructs[i].children[j].kind == ConstructKind::Mutate
            || document_ir(doc).constructs[i].children[j].kind == ConstructKind::Delete,
    ensures
        document_ir(doc).errors.contains(
            spawn_write_error(document_ir(doc).constructs[i].children[j].name, document_ir(doc).constructs[i].line),
        ),
{
    let g = document_ir(doc);
    let cs = g.constructs;
    let e = spawn_write_error(cs[i].children[j].name, cs[i].line);
    lemma_borrow_write_error(cs, i, j);
    let b = borrow_errors(cs);
    let k = choose|k: int| 0 <= k < b.len() && b[k] == e;
    let st = lower_from(
        doc.nodes@,
        0,
        LowerState { constructs: seq![], schema: seq![], errors: seq![], vars: seq![] },
    );
    let imps = imports_of(st.constructs);
    let front = unresolved_errors(cs, st.schema, imps) + gate_errors(cs, cs) + import_errors(imps) + (if state_table(
        cs,
    ).len() > 0 {
        typestate_errors(cs, state_table(cs))
    } else {
        Seq::empty()
    });
    assert(resolve_errors(cs, st.schema, imps) == front + b);
    assert(g.errors == st.errors + (front + b));
    assert(g.errors[st.errors.len() + front.len() + k] == e);
}

/// Parallel spawns that hold mutations.
pub open spec fn borrow_errors(cs: Seq<ConstructView>) -> Seq<ErrorView>
    decreases cs.len(),
{
    if cs.len() == 0 {
        Seq::empty()
    } else {
        let c = cs.last();
        borrow_errors(cs.drop_last()) + if c.kind == ConstructKind::SpawnParallel {
            child_mutation_errors(c.children, c.line)
        } else {
            Seq::empty()
        }
    }
}

/// Every error that resolution finds, in the order it finds them.
pub open spec fn resolve_errors(
    cs: Seq<ConstructView>,
    schema: Seq<(Seq<char>, usize)>,
    imps: Seq<ImportView>,
) -> Seq<ErrorView> {
    unresolved_errors(cs, schema, imps) + gate_errors(cs, cs) + import_errors(imps) + (if state_table(
        cs,
    ).len() > 0 {
        typestate_errors(cs, state_table(cs))
    } else {
        Seq::empty()
    }) + borrow_errors(cs)
}

/// The string value of the first field named `key`, if it is a string.
pub open spec fn string_field(fs: Seq<(Seq<char>, ValueView)>, key: Seq<char>) -> Option<Seq<char>>
    decreases fs.len(),
{
    if fs.len() == 0 {
        None
    } else if fs[0].0 == key {
        match fs[0].1 {
            ValueView::String(v) => Some(v),
            _ => None,
        }
    } else {
        string_field(fs.drop_first(), key)
    }
}

/// The import that a `use` construct records.
pub open spec fn import_of(c: ConstructView) -> ImportView {
    ImportView {
        entity: c.name,
        source: match string_field(c.fields, "source"@) {
            Some(v) => v,
            None => Seq::empty(),
        },
        alias: string_field(c.fields, "alias"@),
    }
}

/// The imports of some constructs: one for each `use` construct among them
/// and their descendants, in document order.
pub open spec fn imports_of(cs: Seq<ConstructView>) -> Seq<ImportView>
    decreases cs,
{
    if cs.len() == 0 {
        Seq::empty()
    } else {
        imports_of(cs.drop_last()) + (if cs.last().kind == ConstructKind::Use {
            seq![import_of(cs.last())]
        } else {
            imports_of(cs.last().children)
        })
    }
}

fn string_field_exec(fs: &Vec<(String, Value)>, key: &str) -> (r: Option<String>)
    ensures
        sopt(r) == string_field(fields_view(fs@), key@),
{
    let ghost fv = fields_view(fs@);
    let mut i: usize = 0;
    assert(fv.skip(0) =~= fv);
    while i < fs.len()
        invariant
            i <= fs.len(),
            fv == fields_view(fs@),
            string_field(fv, key@) == string_field(fv.skip(i as int), key@),
        decreases fs.len() - i,
    {
        assert(fv.skip(i as int)[0] == (fs@[i as int].0@, value_view(fs@[i as int].1)));
        assert(fv.skip(i as int).drop_first() =~= fv.skip(i + 1));
        if text::eq_str(&text::string_chars(&fs[i].0), key) {
            return match &fs[i].1 {
                Value::String(v) => Some(v.clone()),
                _ => None,
            };
        }
        i = i + 1;
    }
    None
}

#[verifier::loop_isolation(false)]
fn collect_imports(cs: &Vec<Construct>, out: &mut Vec<Import>)
    ensures
        imports_view(final(out)@) == imports_view(old(out)@) + imports_of(constructs_view(cs@)),
    decreases cs@,
{
    let ghost o0 = imports_view(out@);
    let mut i: usize = 0;
    assert(constructs_view(cs@.take(0)) =~= Seq::<ConstructView>::empty());
    assert(imports_view(out@) =~= o0 + imports_of(constructs_view(cs@.take(0))));
    while i < cs.len()
        invariant
            i <= cs.len(),
            imports_view(out@) == o0 + imports_of(constructs_view(cs@.take(i as int))),
        decreases cs.len() - i,
    {
        let c = &cs[i];
        let ghost pre = constructs_view(cs@.take(i as int));
        proof {
            assert(cs@.take(i + 1).drop_last() =~= cs@.take(i as int));
            assert(cs@.take(i + 1).last() == cs@[i as int]);
            assert(constructs_view(cs@.take(i + 1)) == pre.push(construct_view(*c)));
            assert(pre.push(construct_view(*c)).drop_last() =~= pre);
        }
        let ghost before = imports_view(out@);
        if c.kind == ConstructKind::Use {
            let src = match string_field_exec(&c.fields, "source") {
                Some(v) => v,
                None => String::new(),
            };
            proof {
                reveal_strlit("");
            }
            out.push(Import { entity: c.name.clone(), source: src, alias: string_field_exec(&c.fields, "alias") });
            assert(imports_view(out@) =~= before + seq![import_of(construct_view(*c))]);
        } else {
            assert(decreases_to!(cs@ => c.children@)) by {
                assert(decreases_to!(cs@ => cs@[i as int]));
            }
            collect_imports(&c.children, out);
        }
        i = i + 1;
        assert(imports_view(out@) =~= o0 + imports_of(constructs_view(cs@.take(i as int))));
    }
    assert(cs@.take(cs.len() as int) =~= cs@);
}

/// The graph of a document.
pub open spec fn document_ir(doc: Document) -> IRView {
    let st = lower_from(
        doc.nodes@,
        0,
        LowerState { constructs: seq![], schema: seq![], errors: seq![], vars: seq![] },
    );
    IRView {
        constructs: st.constructs,
        schema: st.schema,
        references: seq![],
        variables: st.vars,
        imports: imports_of(st.constructs),
        errors: st.errors + resolve_errors(st.constructs, st.schema, imports_of(st.constructs)),
    }
}


fn err(kind: IRErrorKind, message: Vec<char>, line: usize) -> (r: IRError)
    ensures
        error_view(r) == (ErrorView { kind, message: message@, line }),
{
    IRError { kind, message: text::to_string(&message), line }
}

fn append_errors(dst: &mut Vec<IRError>, src: Vec<IRError>)
    ensures
        errors_view(final(dst)@) == errors_view(old(dst)@) + errors_view(src@),
{
    let ghost d0 = errors_view(dst@);
    let ghost mut i: int = 0;
    let mut src = src;
    let ghost sv = errors_view(src@);
    // Move the errors over from the back, then restore their order.
    let mut rev: Vec<IRError> = Vec::new();
    while src.len() > 0
        invariant
            sv.len() == src@.len() + rev@.len(),
            forall|j: int| 0 <= j < src@.len() ==> error_view(#[trigger] src@[j]) == sv[j],
            forall|j: int| 0 <= j < rev@.len() ==> error_view(#[trigger] rev@[j]) == sv[sv.len() - 1 - j],
            errors_view(dst@) == d0,
        decreases src.len(),
    {
        let e = src.pop().unwrap();
        rev.push(e);
    }
    while rev.len() > 0
        invariant
            i <= sv.len(),
            rev@.len() == sv.len() - i,
            forall|j: int| 0 <= j < rev@.len() ==> error_view(#[trigger] rev@[j]) == sv[sv.len() - 1 - j],
            0 <= i,
            errors_view(dst@) == d0 + sv.take(i),
        decreases rev.len(),
    {
        let e = rev.pop().unwrap();
        let ghost dd = dst@;
        dst.push(e);
        assert(errors_view(dst@) =~= errors_view(dd).push(error_view(e)));
        assert(sv.take(i + 1) =~= sv.take(i).push(sv[i]));
        proof {
            i = i + 1;
        }
    }
    assert(sv.take(i) =~= sv);
}

fn is_imported(imps: &Vec<Import>, e: &String) -> (r: bool)
    ensures
        r == imported(imports_view(imps@), e@),
{
    let ec = text::string_chars(e);
    let mut i: usize = 0;
    while i < imps.len()
        invariant
            i <= imps.len(),
            ec@ == e@,
            forall|j: int| 0 <= j < i ==> (#[trigger] imports_view(imps@)[j]).entity != Some(e@),
        decreases imps.len() - i,
    {
        match &imps[i].entity {
            Some(x) => {
                if text::eq(&text::string_chars(x), &ec) {
                    assert(imports_view(imps@)[i as int].entity == Some(e@));
                    return true;
                }
            },
            None => {},
        }
        i = i + 1;
    }
    false
}

pub proof fn lemma_take_step<A>(s: Seq<A>, i: int)
    requires
        0 <= i < s.len(),
    ensures
        s.take(i + 1).drop_last() == s.take(i),
        s.take(i + 1).last() == s[i],
{
    assert(s.take(i + 1).drop_last() =~= s.take(i));
}

fn unresolved_exec(cs: &Vec<Construct>, schema: &Vec<(String, usize)>, imps: &Vec<Import>) -> (r: Vec<IRError>)
    ensures
        errors_view(r@) == unresolved_errors(constructs_view(cs@), schema_view(schema@), imports_view(imps@)),
{
    let ghost cvs = constructs_view(cs@);
    proof {
        lemma_constructs_view(cs@);
    }
    let mut out: Vec<IRError> = Vec::new();
    let mut i: usize = 0;
    assert(errors_view(out@) =~= unresolved_errors(cvs.take(0), schema_view(schema@), imports_view(imps@)));
    while i < cs.len()
        invariant
            i <= cs.len(),
            cvs == constructs_view(cs@),
            cvs.len() == cs@.len(),
            forall|j: int| 0 <= j < cs@.len() ==> #[trigger] cvs[j] == construct_view(cs@[j]),
            errors_view(out@) == unresolved_errors(cvs.take(i as int), schema_view(schema@), imports_view(imps@)),
        decreases cs.len() - i,
    {
        proof {
            lemma_take_step(cvs, i as int);
        }
        let c = &cs[i];
        assert(cvs[i as int] == construct_view(*c));
        match &c.name {
            Some(e) => {
                if (c.kind == ConstructKind::Mutate || c.kind == ConstructKind::Delete) && !schema_has(schema, e)
                    && !is_imported(imps, e) {
                    let mut m = chars_of("references undefined entity @");
                    text::append_string(&mut m, e);
                    let x = err(IRErrorKind::UnresolvedRef, m, c.line);
                    let ghost o0 = out@;
                    out.push(x);
                    assert(errors_view(out@) =~= errors_view(o0).push(error_view(x)));
                }
            },
            None => {},
        }
        i = i + 1;
    }
    assert(cvs.take(cs.len() as int) =~= cvs);
    out
}

fn is_gate_exec(cs: &Vec<Construct>, g: &String) -> (r: bool)
    ensures
        r == is_gate_name(constructs_view(cs@), g@),
{
    proof {
        lemma_constructs_view(cs@);
    }
    let gc = text::string_chars(g);
    let mut i: usize = 0;
    while i < cs.len()
        invariant
            i <= cs.len(),
            gc@ == g@,
            constructs_view(cs@).len() == cs@.len(),
            forall|j: int| 0 <= j < cs@.len() ==> #[trigger] constructs_view(cs@)[j] == construct_view(cs@[j]),
            forall|j: int| 0 <= j < i ==> !((#[trigger] constructs_view(cs@)[j]).kind == ConstructKind::Gate
                && constructs_view(cs@)[j].name == Some(g@)),
        decreases cs.len() - i,
    {
        assert(constructs_view(cs@)[i as int] == construct_view(cs@[i as int]));
        if cs[i].kind == ConstructKind::Gate {
            match &cs[i].name {
                Some(n) => {
                    if text::eq(&text::string_chars(n), &gc) {
                        return true;
                    }
                },
                None => {},
            }
        }
        i = i + 1;
    }
    false
}

fn flow_gate_errors_exec(fs: &Vec<(String, Value)>, all: &Vec<Construct>, line: usize) -> (r: Vec<IRError>)
    ensures
        errors_view(r@) == flow_gate_errors(fields_view(fs@), constructs_view(all@), line),
{
    let ghost fv = fields_view(fs@);
    let mut out: Vec<IRError> = Vec::new();
    let mut i: usize = 0;
    assert(errors_view(out@) =~= flow_gate_errors(fv.take(0), constructs_view(all@), line));
    while i < fs.len()
        invariant
            i <= fs.len(),
            fv == fields_view(fs@),
            errors_view(out@) == flow_gate_errors(fv.take(i as int), constructs_view(all@), line),
        decreases fs.len() - i,
    {
        proof {
            lemma_take_step(fv, i as int);
        }
        assert(fv[i as int] == (fs@[i as int].0@, value_view(fs@[i as int].1)));
        match &fs[i].1 {
            Value::String(g) => {
                let k = text::string_chars(&fs[i].0);
                if text::ends_with_str(&k, "_gate") && !is_gate_exec(all, g) {
                    let m = concat_msg("flow references undefined gate '", g, "'");
                    let x = IRError { kind: IRErrorKind::UnresolvedGate, message: m, line };
                    let ghost o0 = out@;
                    out.push(x);
                    assert(errors_view(out@) =~= errors_view(o0).push(error_view(x)));
                }
            },
            _ => {},
        }
        i = i + 1;
    }
    assert(fv.take(fs.len() as int) =~= fv);
    out
}

fn gate_errors_exec(cs: &Vec<Construct>) -> (r: Vec<IRError>)
    ensures
        errors_view(r@) == gate_errors(constructs_view(cs@), constructs_view(cs@)),
{
    let ghost cvs = constructs_view(cs@);
    proof {
        lemma_constructs_view(cs@);
    }
    let mut out: Vec<IRError> = Vec::new();
    let mut i: usize = 0;
    assert(errors_view(out@) =~= gate_errors(cvs.take(0), cvs));
    while i < cs.len()
        invariant
            i <= cs.len(),
            cvs == constructs_view(cs@),
            cvs.len() == cs@.len(),
            forall|j: int| 0 <= j < cs@.len() ==> #[trigger] cvs[j] == construct_view(cs@[j]),
            errors_view(out@) == gate_errors(cvs.take(i as int), cvs),
        decreases cs.len() - i,
    {
        proof {
            lemma_take_step(cvs, i as int);
        }
        assert(cvs[i as int] == construct_view(cs@[i as int]));
        if cs[i].kind == ConstructKind::Flow {
            let e = flow_gate_errors_exec(&cs[i].fields, cs, cs[i].line);
            append_errors(&mut out, e);
        } else {
            assert(errors_view(out@) + Seq::<ErrorView>::empty() =~= errors_view(out@));
        }
        i = i + 1;
    }
    assert(cvs.take(cs.len() as int) =~= cvs);
    out
}

fn import_errors_exec(imps: &Vec<Import>) -> (r: Vec<IRError>)
    ensures
        errors_view(r@) == import_errors(imports_view(imps@)),
{
    let ghost iv = imports_view(imps@);
    let mut out: Vec<IRError> = Vec::new();
    let mut i: usize = 0;
    assert(errors_view(out@) =~= import_errors(iv.take(0)));
    while i < imps.len()
        invariant
            i <= imps.len(),
            iv == imports_view(imps@),
            errors_view(out@) == import_errors(iv.take(i as int)),
        decreases imps.len() - i,
    {
        proof {
            lemma_take_step(iv, i as int);
        }
        if text::string_chars(&imps[i].source).len() == 0 {
            let x = err(IRErrorKind::UnresolvedRef, chars_of("use statement with empty source"), 0);
            let ghost o0 = out@;
            out.push(x);
            assert(errors_view(out@) =~= errors_view(o0).push(error_view(x)));
        }
        i = i + 1;
    }
    assert(iv.take(imps.len() as int) =~= iv);
    out
}


fn nonempty_trimmed_exec(parts: &Vec<Vec<char>>, out: &mut Vec<String>)
    ensures
        text::str_views(final(out)@) == text::str_views(old(out)@) + nonempty_trimmed(text::views(parts@)),
{
    let ghost pv = text::views(parts@);
    let ghost o0 = text::str_views(out@);
    let mut i: usize = 0;
    assert(o0 + nonempty_trimmed(pv.take(0)) =~= o0);
    while i < parts.len()
        invariant
            i <= parts.len(),
            pv == text::views(parts@),
            text::str_views(out@) == o0 + nonempty_trimmed(pv.take(i as int)),
        decreases parts.len() - i,
    {
        proof {
            lemma_take_step(pv, i as int);
        }
        let t = text::trim_chars(&parts[i]);
        if t.len() > 0 {
            let ghost ob = out@;
            out.push(text::to_string(&t));
            assert(text::str_views(out@) =~= text::str_views(ob).push(t@));
            assert(o0 + nonempty_trimmed(pv.take(i as int)).push(t@) =~= (o0 + nonempty_trimmed(
                pv.take(i as int),
            )).push(t@));
        }
        i = i + 1;
    }
    assert(pv.take(parts.len() as int) =~= pv);
}

fn flow_states_exec(fs: &Vec<(String, Value)>) -> (r: Vec<String>)
    ensures
        text::str_views(r@) == flow_states(fields_view(fs@)),
{
    let ghost fv = fields_view(fs@);
    let mut out: Vec<String> = Vec::new();
    let mut i: usize = 0;
    assert(text::str_views(out@) =~= flow_states(fv.take(0)));
    while i < fs.len()
        invariant
            i <= fs.len(),
            fv == fields_view(fs@),
            text::str_views(out@) == flow_states(fv.take(i as int)),
        decreases fs.len() - i,
    {
        proof {
            lemma_take_step(fv, i as int);
            reveal_strlit("edge_");
        }
        assert(fv[i as int] == (fs@[i as int].0@, value_view(fs@[i as int].1)));
        match &fs[i].1 {
            Value::String(e) => {
                let k = text::string_chars(&fs[i].0);
                if (text::starts_with_str(&k, "edge_") && !text::contains_str(&k, "_label")
                    && !text::contains_str(&k, "_gate")) || text::starts_with_str(&k, "transition_") {
                    proof {
                        reveal_strlit("-->");
                    }
                    let parts = text::split_str(&text::string_chars(e), "-->");
                    nonempty_trimmed_exec(&parts, &mut out);
                } else {
                    assert(text::str_views(out@) + Seq::<Seq<char>>::empty() =~= text::str_views(out@));
                }
            },
            _ => {
                assert(text::str_views(out@) + Seq::<Seq<char>>::empty() =~= text::str_views(out@));
            },
        }
        i = i + 1;
    }
    assert(fv.take(fs.len() as int) =~= fv);
    out
}

pub open spec fn table_view(t: Seq<(String, Vec<String>)>) -> Seq<(Seq<char>, Seq<Seq<char>>)> {
    t.map_values(|e: (String, Vec<String>)| (e.0@, text::str_views(e.1@)))
}

fn set_states(tbl: &mut Vec<(String, Vec<String>)>, k: String, v: Vec<String>)
    ensures
        table_view(final(tbl)@) == assoc_set(table_view(old(tbl)@), k@, text::str_views(v@)),
{
    let ghost vs = table_view(tbl@);
    let kc = text::string_chars(&k);
    let mut i: usize = 0;
    while i < tbl.len()
        invariant_except_break
            i <= tbl.len(),
            vs == table_view(tbl@),
            kc@ == k@,
            forall|j: int| 0 <= j < i ==> (#[trigger] vs[j]).0 != k@,
        ensures
            i <= tbl.len(),
            vs == table_view(tbl@),
            forall|j: int| 0 <= j < i ==> (#[trigger] vs[j]).0 != k@,
            i < tbl.len() ==> vs[i as int].0 == k@,
        decreases tbl.len() - i,
    {
        if text::eq(&text::string_chars(&tbl[i].0), &kc) {
            break;
        }
        i = i + 1;
    }
    proof {
        lemma_assoc_set_at(vs, k@, text::str_views(v@), i as int);
    }
    let ghost kv = k@;
    let ghost vv = text::str_views(v@);
    if i < tbl.len() {
        tbl.set(i, (k, v));
        assert(table_view(tbl@) =~= vs.update(i as int, (kv, vv)));
    } else {
        tbl.push((k, v));
        assert(table_view(tbl@) =~= vs.push((kv, vv)));
    }
}

fn state_table_exec(cs: &Vec<Construct>) -> (r: Vec<(String, Vec<String>)>)
    ensures
        table_view(r@) == state_table(constructs_view(cs@)),
{
    let ghost cvs = constructs_view(cs@);
    proof {
        lemma_constructs_view(cs@);
    }
    let mut out: Vec<(String, Vec<String>)> = Vec::new();
    let mut i: usize = 0;
    assert(table_view(out@) =~= state_table(cvs.take(0)));
    while i < cs.len()
        invariant
            i <= cs.len(),
            cvs == constructs_view(cs@),
            cvs.len() == cs@.len(),
            forall|j: int| 0 <= j < cs@.len() ==> #[trigger] cvs[j] == construct_view(cs@[j]),
            table_view(out@) == state_table(cvs.take(i as int)),
        decreases cs.len() - i,
    {
        proof {
            lemma_take_step(cvs, i as int);
        }
        assert(cvs[i as int] == construct_view(cs@[i as int]));
        if cs[i].kind == ConstructKind::Flow {
            let st = flow_states_exec(&cs[i].fields);
            if st.len() > 0 {
                let name = match &cs[i].name {
                    Some(n) => n.clone(),
                    None => "default".to_owned(),
                };
                set_states(&mut out, name, st);
            }
        }
        i = i + 1;
    }
    assert(cvs.take(cs.len() as int) =~= cvs);
    out
}

fn state_known_exec(tbl: &Vec<(String, Vec<String>)>, t: &Vec<char>) -> (r: bool)
    ensures
        r == state_known(table_view(tbl@), t@),
{
    let ghost tv = table_view(tbl@);
    let mut i: usize = 0;
    while i < tbl.len()
        invariant
            i <= tbl.len(),
            tv == table_view(tbl@),
            forall|j: int| 0 <= j < i ==> !(#[trigger] tv[j]).1.contains(t@),
        decreases tbl.len() - i,
    {
        let states = &tbl[i].1;
        assert(tv[i as int].1 == text::str_views(states@));
        let mut k: usize = 0;
        while k < states.len()
            invariant
                k <= states.len(),
                i < tbl.len(),
                tv == table_view(tbl@),
                tv[i as int].1 == text::str_views(states@),
                forall|j: int| 0 <= j < k ==> (#[trigger] text::str_views(states@)[j]) != t@,
            decreases states.len() - k,
        {
            if text::eq(&text::string_chars(&states[k]), t) {
                assert(text::str_views(states@)[k as int] == t@);
                assert(tv[i as int].1.contains(t@));
                assert(0 <= i < tv.len());
                return true;
            }
            k = k + 1;
        }
        i = i + 1;
    }
    false
}

/// The index of the first field named `k`.
pub fn find_field(fs: &Vec<(String, Value)>, k: &str) -> (r: Option<usize>)
    ensures
        r matches Some(i) ==> i < fs.len() && field_get(fields_view(fs@), k@) == Some(
            fields_view(fs@)[i as int].1,
        ),
        r is None ==> field_get(fields_view(fs@), k@) is None,
{
    let ghost fv = fields_view(fs@);
    let kc = chars_of(k);
    let mut i: usize = 0;
    assert(fv.skip(0) =~= fv);
    while i < fs.len()
        invariant
            i <= fs.len(),
            fv == fields_view(fs@),
            kc@ == k@,
            field_get(fv, k@) == field_get(fv.skip(i as int), k@),
        decreases fs.len() - i,
    {
        assert(fv[i as int] == (fs@[i as int].0@, value_view(fs@[i as int].1)));
        assert(fv.skip(i as int)[0] == fv[i as int]);
        if text::eq(&text::string_chars(&fs[i].0), &kc) {
            return Some(i);
        }
        assert(fv.skip(i as int).drop_first() =~= fv.skip(i + 1));
        i = i + 1;
    }
    None
}

fn typestate_exec(cs: &Vec<Construct>, tbl: &Vec<(String, Vec<String>)>) -> (r: Vec<IRError>)
    ensures
        errors_view(r@) == typestate_errors(constructs_view(cs@), table_view(tbl@)),
{
    let ghost cvs = constructs_view(cs@);
    proof {
        lemma_constructs_view(cs@);
        reveal_strlit("status");
    }
    let mut out: Vec<IRError> = Vec::new();
    let mut i: usize = 0;
    assert(errors_view(out@) =~= typestate_errors(cvs.take(0), table_view(tbl@)));
    while i < cs.len()
        invariant
            i <= cs.len(),
            cvs == constructs_view(cs@),
            cvs.len() == cs@.len(),
            forall|j: int| 0 <= j < cs@.len() ==> #[trigger] cvs[j] == construct_view(cs@[j]),
            errors_view(out@) == typestate_errors(cvs.take(i as int), table_view(tbl@)),
        decreases cs.len() - i,
    {
        proof {
            lemma_take_step(cvs, i as int);
        }
        let c = &cs[i];
        assert(cvs[i as int] == construct_view(*c));
        match find_field(&c.fields, "status") {
            Some(fi) => {
                assert(fields_view(c.fields@)[fi as int] == (c.fields@[fi as int].0@, value_view(
                    c.fields@[fi as int].1,
                )));
                match &c.fields[fi].1 {
                    Value::Raw(v) => {
                        let t = text::trim_matches_char_exec(
                            &text::trim_chars(&text::string_chars(v)),
                            '"',
                        );
                        if c.kind == ConstructKind::Mutate && text::starts_with_str(&t, ":")
                            && !state_known_exec(tbl, &t) {
                            let mut m = chars_of("mutation sets status to '");
                            text::append(&mut m, &t);
                            text::append_str(&mut m, "' but no flow defines this state");
                            let x = err(IRErrorKind::TypeMismatch, m, c.line);
                            let ghost o0 = out@;
                            out.push(x);
                            assert(errors_view(out@) =~= errors_view(o0).push(error_view(x)));
                        }
                    },
                    _ => {},
                }
            },
            None => {},
        }
        i = i + 1;
    }
    assert(cvs.take(cs.len() as int) =~= cvs);
    out
}

fn child_mutation_exec(ch: &Vec<Construct>, line: usize) -> (r: Vec<IRError>)
    ensures
        errors_view(r@) == child_mutation_errors(constructs_view(ch@), line),
{
    let ghost cvs = constructs_view(ch@);
    proof {
        lemma_constructs_view(ch@);
    }
    let mut out: Vec<IRError> = Vec::new();
    let mut i: usize = 0;
    assert(errors_view(out@) =~= child_mutation_errors(cvs.take(0), line));
    while i < ch.len()
        invariant
            i <= ch.len(),
            cvs == constructs_view(ch@),
            cvs.len() == ch@.len(),
            forall|j: int| 0 <= j < ch@.len() ==> #[trigger] cvs[j] == construct_view(ch@[j]),
            errors_view(out@) == child_mutation_errors(cvs.take(i as int), line),
        decreases ch.len() - i,
    {
        proof {
            lemma_take_step(cvs, i as int);
        }
        let c = &ch[i];
        assert(cvs[i as int] == construct_view(*c));
        if c.kind == ConstructKind::Mutate || c.kind == ConstructKind::Delete {
            let mut m = chars_of("parallel spawn (+) contains mutation of @");
            match &c.name {
                Some(n) => text::append_string(&mut m, n),
                None => text::append_str(&mut m, "unknown"),
            }
            text::append_str(&mut m, " — use sequential (++) for writes");
            let x = err(IRErrorKind::UnresolvedRef, m, line);
            let ghost o0 = out@;
            out.push(x);
            assert(errors_view(out@) =~= errors_view(o0).push(error_view(x)));
        }
        i = i + 1;
    }
    assert(cvs.take(ch.len() as int) =~= cvs);
    out
}

fn borrow_exec(cs: &Vec<Construct>) -> (r: Vec<IRError>)
    ensures
        errors_view(r@) == borrow_errors(constructs_view(cs@)),
{
    let ghost cvs = constructs_view(cs@);
    proof {
        lemma_constructs_view(cs@);
    }
    let mut out: Vec<IRError> = Vec::new();
    let mut i: usize = 0;
    assert(errors_view(out@) =~= borrow_errors(cvs.take(0)));
    while i < cs.len()
        invariant
            i <= cs.len(),
            cvs == constructs_view(cs@),
            cvs.len() == cs@.len(),
            forall|j: int| 0 <= j < cs@.len() ==> #[trigger] cvs[j] == construct_view(cs@[j]),
            errors_view(out@) == borrow_errors(cvs.take(i as int)),
        decreases cs.len() - i,
    {
        proof {
            lemma_take_step(cvs, i as int);
        }
        assert(cvs[i as int] == construct_view(cs@[i as int]));
        if cs[i].kind == ConstructKind::SpawnParallel {
            let e = child_mutation_exec(&cs[i].children, cs[i].line);
            append_errors(&mut out, e);
        } else {
            assert(errors_view(out@) + Seq::<ErrorView>::empty() =~= errors_view(out@));
        }
        i = i + 1;
    }
    assert(cvs.take(cs.len() as int) =~= cvs);
    out
}


impl BitIR {
    /// Checks references, gates, imports, states and spawns, adding the
    /// errors found.
    fn resolve(&mut self)
        ensures
            final(self).constructs@ == old(self).constructs@,
            final(self).schema_index@ == old(self).schema_index@,
            final(self).variables@ == old(self).variables@,
            final(self).imports@ == old(self).imports@,
            final(self).references@ == old(self).references@,
            errors_view(final(self).errors@) == errors_view(old(self).errors@) + resolve_errors(
                constructs_view(old(self).constructs@),
                schema_view(old(self).schema_index@),
                imports_view(old(self).imports@),
            ),
    {
        let e1 = unresolved_exec(&self.constructs, &self.schema_index, &self.imports);
        append_errors(&mut self.errors, e1);
        let e2 = gate_errors_exec(&self.constructs);
        append_errors(&mut self.errors, e2);
        let e3 = import_errors_exec(&self.imports);
        append_errors(&mut self.errors, e3);
        let tbl = state_table_exec(&self.constructs);
        let ghost before4 = errors_view(self.errors@);
        if tbl.len() > 0 {
            let e4 = typestate_exec(&self.constructs, &tbl);
            append_errors(&mut self.errors, e4);
        } else {
            assert(before4 + Seq::<ErrorView>::empty() =~= before4);
        }
        let e5 = borrow_exec(&self.constructs);
        append_errors(&mut self.errors, e5);
        proof {
            let cs = constructs_view(self.constructs@);
            let a = unresolved_errors(cs, schema_view(self.schema_index@), imports_view(self.imports@));
            let b = gate_errors(cs, cs);
            let c = import_errors(imports_view(self.imports@));
            let d = if state_table(cs).len() > 0 {
                typestate_errors(cs, state_table(cs))
            } else {
                Seq::<ErrorView>::empty()
            };
            let e = borrow_errors(cs);
            let o = errors_view(old(self).errors@);
            assert(o + a + b + c + d + e =~= o + (a + b + c + d + e));
        }
    }

    /// Builds the graph of a document: its nodes lowered in order, then
    /// resolved and checked.
    pub fn from_document(doc: &Document) -> (r: BitIR)
        ensures
            r@ == document_ir(*doc),
    {
        let mut ir = BitIR {
            constructs: Vec::new(),
            schema_index: Vec::new(),
            references: Vec::new(),
            variables: Vec::new(),
            imports: Vec::new(),
            errors: Vec::new(),
        };
        assert(state_of(ir) == LowerState { constructs: seq![], schema: seq![], errors: seq![], vars: seq![] })
            by {
            assert(schema_view(ir.schema_index@) =~= seq![]);
            assert(errors_view(ir.errors@) =~= seq![]);
            assert(pairs_view(ir.variables@) =~= seq![]);
        }
        assert(references_view(ir.references@) =~= seq![]);
        ir.lower_nodes(&doc.nodes);
        let mut imports: Vec<Import> = Vec::new();
        collect_imports(&ir.constructs, &mut imports);
        assert(imports_view(imports@) =~= imports_of(constructs_view(ir.constructs@)));
        ir.imports = imports;
        ir.resolve();
        ir
    }
}


// ── Queries ────────────────────────────────────────────────────

impl ConstructKind {
    /// The variant's name, as `{:?}` writes it.
    pub open spec fn name_spec(self) -> Seq<char> {
        match self {
            ConstructKind::Define => "Define"@,
            ConstructKind::Mutate => "Mutate"@,
            ConstructKind::Delete => "Delete"@,
            ConstructKind::Query => "Query"@,
            ConstructKind::Flow => "Flow"@,
            ConstructKind::Gate => "Gate"@,
            ConstructKind::Bound => "Bound"@,
            ConstructKind::Conditional => "Conditional"@,
            ConstructKind::Validate => "Validate"@,
            ConstructKind::Check => "Check"@,
            ConstructKind::SpawnParallel => "SpawnParallel"@,
            ConstructKind::SpawnSequential => "SpawnSequential"@,
            ConstructKind::Task => "Task"@,
            ConstructKind::Group => "Group"@,
            ConstructKind::Serve => "Serve"@,
            ConstructKind::Build => "Build"@,
            ConstructKind::Run => "Run"@,
            ConstructKind::Webhook => "Webhook"@,
            ConstructKind::Sync => "Sync"@,
            ConstructKind::Routine => "Routine"@,
            ConstructKind::Form => "Form"@,
            ConstructKind::Mod => "Mod"@,
            ConstructKind::Use => "Use"@,
            ConstructKind::Project => "Project"@,
            ConstructKind::Commands => "Commands"@,
            ConstructKind::Remember => "Remember"@,
            ConstructKind::Recall => "Recall"@,
            ConstructKind::Escalate => "Escalate"@,
            ConstructKind::Policy => "Policy"@,
            ConstructKind::Status => "Status"@,
            ConstructKind::Issue => "Issue"@,
            ConstructKind::Comment => "Comment"@,
            ConstructKind::Directive => "Directive"@,
            ConstructKind::Embed => "Embed"@,
            ConstructKind::Git => "Git"@,
            ConstructKind::Snap => "Snap"@,
            ConstructKind::Diff => "Diff"@,
            ConstructKind::History => "History"@,
            ConstructKind::Lattice => "Lattice"@,
            ConstructKind::PressureEffect => "PressureEffect"@,
            ConstructKind::UnitCell => "UnitCell"@,
            ConstructKind::Symmetry => "Symmetry"@,
            ConstructKind::CodeBlock => "CodeBlock"@,
            ConstructKind::Prose => "Prose"@,
            ConstructKind::Divider => "Divider"@,
            ConstructKind::Variable => "Variable"@,
        }
    }

    pub fn name(&self) -> (r: &'static str)
        ensures
            r@ == self.name_spec(),
    {
        match self {
            ConstructKind::Define => "Define",
            ConstructKind::Mutate => "Mutate",
            ConstructKind::Delete => "Delete",
            ConstructKind::Query => "Query",
            ConstructKind::Flow => "Flow",
            ConstructKind::Gate => "Gate",
            ConstructKind::Bound => "Bound",
            ConstructKind::Conditional => "Conditional",
            ConstructKind::Validate => "Validate",
            ConstructKind::Check => "Check",
            ConstructKind::SpawnParallel => "SpawnParallel",
            ConstructKind::SpawnSequential => "SpawnSequential",
            ConstructKind::Task => "Task",
            ConstructKind::Group => "Group",
            ConstructKind::Serve => "Serve",
            ConstructKind::Build => "Build",
            ConstructKind::Run => "Run",
            ConstructKind::Webhook => "Webhook",
            ConstructKind::Sync => "Sync",
            ConstructKind::Routine => "Routine",
            ConstructKind::Form => "Form",
            ConstructKind::Mod => "Mod",
            ConstructKind::Use => "Use",
            ConstructKind::Project => "Project",
            ConstructKind::Commands => "Commands",
            ConstructKind::Remember => "Remember",
            ConstructKind::Recall => "Recall",
            ConstructKind::Escalate => "Escalate",
            ConstructKind::Policy => "Policy",
            ConstructKind::Status => "Status",
            ConstructKind::Issue => "Issue",
            ConstructKind::Comment => "Comment",
            ConstructKind::Directive => "Directive",
            ConstructKind::Embed => "Embed",
            ConstructKind::Git => "Git",
            ConstructKind::Snap => "Snap",
            ConstructKind::Diff => "Diff",
            ConstructKind::History => "History",
            ConstructKind::Lattice => "Lattice",
            ConstructKind::PressureEffect => "PressureEffect",
            ConstructKind::UnitCell => "UnitCell",
            ConstructKind::Symmetry => "Symmetry",
            ConstructKind::CodeBlock => "CodeBlock",
            ConstructKind::Prose => "Prose",
            ConstructKind::Divider => "Divider",
            ConstructKind::Variable => "Variable",
        }
    }
}

/// The constructs of one kind, in order.
pub open spec fn of_kind(cs: Seq<ConstructView>, k: ConstructKind) -> Seq<ConstructView>
    decreases cs.len(),
{
    if cs.len() == 0 {
        Seq::empty()
    } else {
        let prev = of_kind(cs.drop_last(), k);
        if cs.last().kind == k {
            prev.push(cs.last())
        } else {
            prev
        }
    }
}

/// The construct index of the first schema entry named `name`.
pub open spec fn schema_lookup(schema: Seq<(Seq<char>, usize)>, name: Seq<char>) -> Option<usize> {
    field_get(schema, name)
}

/// Construct counts by kind name, then the number of errors, schemas,
/// imports and variables, ordered by key.
pub open spec fn count_kinds(cs: Seq<ConstructView>) -> Seq<(Seq<char>, usize)>
    decreases cs.len(),
{
    if cs.len() == 0 {
        Seq::empty()
    } else {
        let prev = count_kinds(cs.drop_last());
        let k = cs.last().kind.name_spec();
        fields_insert(
            prev,
            k,
            match field_get(prev, k) {
                Some(c) => (c + 1) as usize,
                None => 1,
            },
        )
    }
}

pub open spec fn stats_spec(ir: IRView) -> Seq<(Seq<char>, usize)> {
    let m1 = fields_insert(count_kinds(ir.constructs), "errors"@, ir.errors.len() as usize);
    let m2 = fields_insert(m1, "schemas"@, ir.schema.len() as usize);
    let m3 = fields_insert(m2, "imports"@, ir.imports.len() as usize);
    fields_insert(m3, "variables"@, ir.variables.len() as usize)
}

pub open spec fn all_le(m: Seq<(Seq<char>, usize)>, n: int) -> bool {
    forall|j: int| 0 <= j < m.len() ==> (#[trigger] m[j]).1 <= n
}

pub proof fn lemma_insert_le(m: Seq<(Seq<char>, usize)>, k: Seq<char>, v: usize, n: int)
    requires
        all_le(m, n),
        v <= n,
    ensures
        all_le(fields_insert(m, k, v), n),
    decreases m.len(),
{
    if m.len() > 0 && m[0].0 != k && !key_lt(k, m[0].0) {
        let t = m.drop_first();
        assert(all_le(t, n)) by {
            assert forall|j: int| 0 <= j < t.len() implies (#[trigger] t[j]).1 <= n by {
                assert(t[j] == m[j + 1]);
            }
        }
        lemma_insert_le(t, k, v, n);
        let r = fields_insert(m, k, v);
        assert forall|j: int| 0 <= j < r.len() implies (#[trigger] r[j]).1 <= n by {
            if j > 0 {
                assert(r[j] == fields_insert(t, k, v)[j - 1]);
            }
        }
    } else if m.len() > 0 && m[0].0 != k {
        let r = fields_insert(m, k, v);
        assert forall|j: int| 0 <= j < r.len() implies (#[trigger] r[j]).1 <= n by {
            if j > 0 {
                assert(r[j] == m[j - 1]);
            }
        }
    }
}

pub proof fn lemma_get_le(m: Seq<(Seq<char>, usize)>, k: Seq<char>, n: int)
    requires
        all_le(m, n),
    ensures
        field_get(m, k) matches Some(c) ==> c <= n,
    decreases m.len(),
{
    if m.len() > 0 && m[0].0 != k {
        let t = m.drop_first();
        assert(all_le(t, n)) by {
            assert forall|j: int| 0 <= j < t.len() implies (#[trigger] t[j]).1 <= n by {
                assert(t[j] == m[j + 1]);
            }
        }
        lemma_get_le(t, k, n);
    }
}

proof fn lemma_count_kinds_le(cs: Seq<ConstructView>)
    ensures
        all_le(count_kinds(cs), cs.len() as int),
    decreases cs.len(),
{
    if cs.len() > 0 {
        let prev = count_kinds(cs.drop_last());
        let k = cs.last().kind.name_spec();
        lemma_count_kinds_le(cs.drop_last());
        lemma_get_le(prev, k, cs.len() - 1);
        assert(all_le(prev, cs.len() as int));
        let v: usize = match field_get(prev, k) {
            Some(c) => (c + 1) as usize,
            None => 1,
        };
        lemma_insert_le(prev, k, v, cs.len() as int);
    }
}

pub fn find_count(m: &Vec<(String, usize)>, k: &Vec<char>) -> (r: Option<usize>)
    ensures
        r == field_get(schema_view(m@), k@),
{
    let ghost mv = schema_view(m@);
    let mut i: usize = 0;
    assert(mv.skip(0) =~= mv);
    while i < m.len()
        invariant
            i <= m.len(),
            mv == schema_view(m@),
            field_get(mv, k@) == field_get(mv.skip(i as int), k@),
        decreases m.len() - i,
    {
        assert(mv.skip(i as int)[0] == mv[i as int]);
        if text::eq(&text::string_chars(&m[i].0), k) {
            return Some(m[i].1);
        }
        assert(mv.skip(i as int).drop_first() =~= mv.skip(i + 1));
        i = i + 1;
    }
    None
}

/// Sets `k` to `v` in counts ordered by key.
pub fn insert_count(m: &mut Vec<(String, usize)>, k: String, v: usize)
    ensures
        schema_view(final(m)@) == fields_insert(schema_view(old(m)@), k@, v),
{
    let ghost fs = schema_view(m@);
    let kc = text::string_chars(&k);
    let mut i: usize = 0;
    let mut found = false;
    while i < m.len()
        invariant_except_break
            i <= m.len(),
            fs == schema_view(m@),
            kc@ == k@,
            !found,
            forall|j: int| 0 <= j < i ==> key_lt(#[trigger] fs[j].0, k@),
        ensures
            i <= m.len(),
            fs == schema_view(m@),
            forall|j: int| 0 <= j < i ==> key_lt(#[trigger] fs[j].0, k@),
            i < m.len() ==> !key_lt(fs[i as int].0, k@),
            found == (i < m.len() && fs[i as int].0 == k@),
        decreases m.len() - i,
    {
        let ki = text::string_chars(&m[i].0);
        if !key_lt_exec(&ki, &kc) {
            found = text::eq(&ki, &kc);
            break;
        }
        i = i + 1;
    }
    proof {
        lemma_fields_insert_at(fs, k@, v, i as int);
    }
    let ghost kv = k@;
    if found {
        m.set(i, (k, v));
        assert(schema_view(m@) =~= fs.update(i as int, (kv, v)));
    } else {
        m.insert(i, (k, v));
        assert(schema_view(m@) =~= fs.take(i as int) + seq![(kv, v)] + fs.skip(i as int));
    }
}

impl BitIR {
    /// The constructs of one kind, in order.
    pub fn by_kind(&self, kind: ConstructKind) -> (r: Vec<&Construct>)
        ensures
            r@.map_values(|c: &Construct| construct_view(*c)) == of_kind(constructs_view(self.constructs@), kind),
    {
        let ghost cvs = constructs_view(self.constructs@);
        proof {
            lemma_constructs_view(self.constructs@);
        }
        let mut out: Vec<&Construct> = Vec::new();
        let mut i: usize = 0;
        assert(out@.map_values(|c: &Construct| construct_view(*c)) =~= of_kind(cvs.take(0), kind));
        while i < self.constructs.len()
            invariant
                i <= self.constructs.len(),
                cvs == constructs_view(self.constructs@),
                cvs.len() == self.constructs@.len(),
                forall|j: int| 0 <= j < self.constructs@.len() ==> #[trigger] cvs[j] == construct_view(
                    self.constructs@[j],
                ),
                out@.map_values(|c: &Construct| construct_view(*c)) == of_kind(cvs.take(i as int), kind),
            decreases self.constructs.len() - i,
        {
            proof {
                lemma_take_step(cvs, i as int);
            }
            let c = &self.constructs[i];
            assert(cvs[i as int] == construct_view(*c));
            if c.kind == kind {
                let ghost o0 = out@;
                out.push(c);
                assert(out@.map_values(|c: &Construct| construct_view(*c)) =~= o0.map_values(
                    |c: &Construct| construct_view(*c),
                ).push(construct_view(*c)));
            }
            i = i + 1;
        }
        assert(cvs.take(self.constructs.len() as int) =~= cvs);
        out
    }

    /// The schema construct of an entity.
    pub fn schema(&self, name: &str) -> (r: Option<&Construct>)
        ensures
            match schema_lookup(schema_view(self.schema_index@), name@) {
                Some(idx) => if idx < self.constructs@.len() {
                    r matches Some(c) && construct_view(*c) == constructs_view(self.constructs@)[idx as int]
                } else {
                    r is None
                },
                None => r is None,
            },
    {
        proof {
            lemma_constructs_view(self.constructs@);
        }
        match find_count(&self.schema_index, &chars_of(name)) {
            Some(idx) => {
                if idx < self.constructs.len() {
                    Some(&self.constructs[idx])
                } else {
                    None
                }
            },
            None => None,
        }
    }

    /// Construct counts by kind, then the number of errors, schemas,
    /// imports and variables, ordered by key.
    pub fn stats(&self) -> (r: Vec<(String, usize)>)
        ensures
            schema_view(r@) == stats_spec(self@),
    {
        let ghost cvs = constructs_view(self.constructs@);
        proof {
            lemma_constructs_view(self.constructs@);
        }
        let mut m: Vec<(String, usize)> = Vec::new();
        let mut i: usize = 0;
        assert(schema_view(m@) =~= count_kinds(cvs.take(0)));
        while i < self.constructs.len()
            invariant
                i <= self.constructs.len(),
                cvs == constructs_view(self.constructs@),
                cvs.len() == self.constructs@.len(),
                forall|j: int| 0 <= j < self.constructs@.len() ==> #[trigger] cvs[j] == construct_view(
                    self.constructs@[j],
                ),
                schema_view(m@) == count_kinds(cvs.take(i as int)),
            decreases self.constructs.len() - i,
        {
            proof {
                lemma_take_step(cvs, i as int);
                lemma_count_kinds_le(cvs.take(i as int));
                lemma_get_le(count_kinds(cvs.take(i as int)), self.constructs@[i as int].kind.name_spec(), i as int);
            }
            assert(cvs[i as int] == construct_view(self.constructs@[i as int]));
            let k = self.constructs[i].kind.name();
            let kc = chars_of(k);
            let v: usize = match find_count(&m, &kc) {
                Some(c) => c + 1,
                None => 1,
            };
            insert_count(&mut m, k.to_owned(), v);
            i = i + 1;
        }
        assert(cvs.take(self.constructs.len() as int) =~= cvs);
        insert_count(&mut m, "errors".to_owned(), self.errors.len());
        insert_count(&mut m, "schemas".to_owned(), self.schema_index.len());
        insert_count(&mut m, "imports".to_owned(), self.imports.len());
        insert_count(&mut m, "variables".to_owned(), self.variables.len());
        m
    }
}


// ── Display forms ──────────────────────────────────────────────

/// How a value reads in .bit terms.
pub open spec fn value_text(v: ValueView) -> Seq<char> {
    match v {
        ValueView::String(s) => seq!['"'] + s + seq!['"'],
        ValueView::Integer(n) => seq!['#'] + text::signed_decimal(n as int),
        ValueView::Float(t) => "##"@ + t,
        ValueView::Boolean(b) => if b {
            "?"@
        } else {
            "false"@
        },
        ValueView::Enum(vs) => text::join(vs, "/"@),
        ValueView::EntityRef(r) => seq!['@'] + r,
        ValueView::Array(items) => seq!['['] + text::decimal(items.len()) + " items]"@,
        ValueView::Timestamp(t) => "@timestamp("@ + t + seq![')'],
        ValueView::Nil => "nil"@,
        ValueView::Raw(s) => s,
    }
}

/// A construct's summary: keyword, name, and how many fields and children
/// it has.
pub open spec fn construct_text(c: ConstructView) -> Seq<char> {
    c.kind.keyword_spec() + match c.name {
        Some(n) => n,
        None => Seq::empty(),
    } + (if c.fields.len() > 0 {
        " ("@ + text::decimal(c.fields.len()) + " fields)"@
    } else {
        Seq::empty()
    }) + (if c.children.len() > 0 {
        " ["@ + text::decimal(c.children.len()) + " children]"@
    } else {
        Seq::empty()
    })
}

proof fn lemma_values_view_len(s: Seq<Value>)
    ensures
        values_view(s).len() == s.len(),
    decreases s.len(),
{
    if s.len() > 0 {
        lemma_values_view_len(s.drop_last());
    }
}

impl Value {
    /// How the value reads in .bit terms.
    pub fn to_text(&self) -> (r: String)
        ensures
            r@ == value_text(value_view(*self)),
    {
        let mut c: Vec<char> = Vec::new();
        match self {
            Value::String(s) => {
                c.push('"');
                text::append_string(&mut c, s);
                c.push('"');
            },
            Value::Integer(n) => {
                c.push('#');
                text::append_signed(&mut c, *n);
            },
            Value::Float(t) => {
                text::append_str(&mut c, "##");
                text::append_string(&mut c, t);
            },
            Value::Boolean(b) => {
                if *b {
                    text::append_str(&mut c, "?");
                } else {
                    text::append_str(&mut c, "false");
                }
            },
            Value::Enum(vs) => {
                c = join_strings(vs, "/");
            },
            Value::EntityRef(r) => {
                c.push('@');
                text::append_string(&mut c, r);
            },
            Value::Array(items) => {
                proof {
                    lemma_values_view_len(items@);
                }
                c.push('[');
                text::append_decimal(&mut c, items.len());
                text::append_str(&mut c, " items]");
            },
            Value::Timestamp(t) => {
                text::append_str(&mut c, "@timestamp(");
                text::append_string(&mut c, t);
                c.push(')');
            },
            Value::Nil => {
                text::append_str(&mut c, "nil");
            },
            Value::Raw(s) => {
                text::append_string(&mut c, s);
            },
        }
        text::to_string(&c)
    }
}

impl Construct {
    /// The construct's summary: keyword, name, and how many fields and
    /// children it has.
    pub fn to_text(&self) -> (r: String)
        ensures
            r@ == construct_text(construct_view(*self)),
    {
        proof {
            lemma_constructs_view(self.children@);
        }
        let mut c = chars_of(self.kind.keyword());
        match &self.name {
            Some(n) => text::append_string(&mut c, n),
            None => {},
        }
        if self.fields.len() > 0 {
            text::append_str(&mut c, " (");
            text::append_decimal(&mut c, self.fields.len());
            text::append_str(&mut c, " fields)");
        }
        if self.children.len() > 0 {
            text::append_str(&mut c, " [");
            text::append_decimal(&mut c, self.children.len());
            text::append_str(&mut c, " children]");
        }
        proof {
            let cvw = construct_view(*self);
            assert(cvw.fields.len() == self.fields@.len());
        }
        text::to_string(&c)
    }
}


// ── Laws ───────────────────────────────────────────────────────

/// The schema index agrees with the constructs: each entry names a define
/// construct of that entity, no entity is indexed twice, and every named
/// define is indexed.
pub open spec fn schema_sound(cs: Seq<ConstructView>, schema: Seq<(Seq<char>, usize)>) -> bool {
    &&& forall|j: int|
        0 <= j < schema.len() ==> {
            let idx = (#[trigger] schema[j]).1 as int;
            &&& idx < cs.len()
            &&& cs[idx].kind == ConstructKind::Define
            &&& cs[idx].name == Some(schema[j].0)
        }
    &&& forall|j: int, k: int|
        0 <= j < k < schema.len() ==> (#[trigger] schema[j]).0 != (#[trigger] schema[k]).0
    &&& forall|c: int|
        0 <= c < cs.len() && (#[trigger] cs[c]).kind == ConstructKind::Define && cs[c].name is Some
            ==> has_key(schema, cs[c].name->0)
}

proof fn lemma_add_construct_sound(st: LowerState, x: ConstructView)
    requires
        schema_sound(st.constructs, st.schema),
        st.constructs.len() < usize::MAX,
    ensures
        schema_sound(add_construct(st, x).constructs, add_construct(st, x).schema),
{
    let r = add_construct(st, x);
    let cs = st.constructs;
    assert(r.constructs == cs.push(x));
    assert forall|c: int| 0 <= c < cs.len() implies #[trigger] r.constructs[c] == cs[c] by {}
    if x.kind == ConstructKind::Define && x.name is Some && !has_key(st.schema, x.name->0) {
        let nm = x.name->0;
        assert(r.schema == st.schema.push((nm, cs.len() as usize)));
        assert forall|j: int| 0 <= j < st.schema.len() implies #[trigger] r.schema[j] == st.schema[j] by {}
        assert forall|j: int, k: int| 0 <= j < k < r.schema.len() implies (#[trigger] r.schema[j]).0
            != (#[trigger] r.schema[k]).0 by {
            if k == st.schema.len() {
                assert(r.schema[j] == st.schema[j]);
            }
        }
        assert forall|c: int|
            0 <= c < r.constructs.len() && (#[trigger] r.constructs[c]).kind == ConstructKind::Define
                && r.constructs[c].name is Some implies has_key(r.schema, r.constructs[c].name->0) by {
            if c < cs.len() {
                let n = cs[c].name->0;
                assert(has_key(st.schema, n));
                let j = choose|j: int| 0 <= j < st.schema.len() && (#[trigger] st.schema[j]).0 == n;
                assert(r.schema[j] == st.schema[j]);
            } else {
                assert(r.schema[st.schema.len() as int].0 == nm);
            }
        }
    } else {
        assert(r.schema == st.schema);
    }
}

proof fn lemma_lower_from_sound(ns: Seq<Node>, i: int, st: LowerState)
    requires
        schema_sound(st.constructs, st.schema),
        0 <= i,
        st.constructs.len() <= i,
        ns.len() <= usize::MAX,
    ensures
        schema_sound(lower_from(ns, i, st).constructs, lower_from(ns, i, st).schema),
    decreases ns.len() - i,
{
    if 0 <= i < ns.len() {
        match ns[i] {
            Node::Spawn(sp) => {
                let (ch, k, v2) = spawn_run(ns, i + 1, st.vars);
                lemma_spawn_run_len(ns, i + 1, st.vars);
                let kind = if sp == Spawn::Parallel {
                    ConstructKind::SpawnParallel
                } else {
                    ConstructKind::SpawnSequential
                };
                let st2 = LowerState {
                    constructs: st.constructs.push(cv(kind, None, no_fields(), ch)),
                    vars: v2,
                    ..st
                };
                assert forall|c: int| 0 <= c < st.constructs.len() implies #[trigger] st2.constructs[c]
                    == st.constructs[c] by {}
                lemma_lower_from_sound(ns, i + 1 + k, st2);
            },
            _ => {
                let (c, v2) = lower_spec(ns[i], st.vars);
                let st1 = LowerState { vars: v2, ..st };
                match c {
                    Some(x) => {
                        lemma_add_construct_sound(st1, x);
                        lemma_lower_from_sound(ns, i + 1, add_construct(st1, x));
                    },
                    None => {
                        lemma_lower_from_sound(ns, i + 1, st1);
                    },
                }
            },
        }
    }
}

/// The schema index of a document's graph agrees with its constructs: each
/// entry names a define construct of that entity, no entity is indexed
/// twice, and every named define is indexed.
pub proof fn lemma_schema_index(doc: Document)
    ensures
        schema_sound(document_ir(doc).constructs, document_ir(doc).schema),
{
    assert(doc.nodes@.len() == doc.nodes.len());
    lemma_lower_from_sound(
        doc.nodes@,
        0,
        LowerState { constructs: seq![], schema: seq![], errors: seq![], vars: seq![] },
    );
}

} // verus!
