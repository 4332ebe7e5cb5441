//! Strongly-typed .bit domain primitives.
//!
//! Newtype wrappers keep entity names, gate refs, flow states and the like
//! apart. Each type's `to_string` gives its .bit surface form, specified by
//! its `shown` spec function.
use crate::text;
use vstd::prelude::*;

verus! {

/// `c` followed by the characters of `s`, as a `String`.
fn prefixed(c: char, s: &String) -> (r: String)
    ensures
        r@ == seq![c] + s@,
{
    let mut v: Vec<char> = Vec::new();
    v.push(c);
    let sv = text::string_chars(s);
    text::append(&mut v, &sv);
    assert(v@ =~= seq![c] + s@);
    text::to_string(&v)
}

// ── Entity ────────────────────────────────────────────────────

/// An entity name: @User, @Order, @Deployment
#[derive(Debug, Clone, PartialEq, Eq, Hash)]
pub struct EntityName(pub String);

impl EntityName {
    pub fn new(s: &str) -> (r: Self)
        ensures
            r.0@ == s@,
    {
        Self(s.to_owned())
    }

    pub fn as_str(&self) -> (r: &str)
        ensures
            r@ == self.0@,
    {
        self.0.as_str()
    }

    /// `@name`
    pub open spec fn shown(self) -> Seq<char> {
        seq!['@'] + self.0@
    }

    pub fn to_string(&self) -> (r: String)
        ensures
            r@ == self.shown(),
    {
        prefixed('@', &self.0)
    }
}

// ── Entity ID ─────────────────────────────────────────────────

/// An entity instance ID: alice, ord-123, deploy-456
#[derive(Debug, Clone, PartialEq, Eq, Hash)]
pub struct EntityId(pub String);

impl EntityId {
    pub fn new(s: &str) -> (r: Self)
        ensures
            r.0@ == s@,
    {
        Self(s.to_owned())
    }

    pub fn as_str(&self) -> (r: &str)
        ensures
            r@ == self.0@,
    {
        self.0.as_str()
    }

    /// `:id`
    pub open spec fn shown(self) -> Seq<char> {
        seq![':'] + self.0@
    }

    pub fn to_string(&self) -> (r: String)
        ensures
            r@ == self.shown(),
    {
        prefixed(':', &self.0)
    }
}

// ── Entity Key (Name + ID) ───────────────────────────────────

/// Full entity key: @User:alice, @Order:ord-123
#[derive(Debug, Clone, PartialEq, Eq, Hash)]
pub struct EntityKey {
    pub entity: EntityName,
    pub id: Option<EntityId>,
}

impl EntityKey {
    /// The key of a whole schema (no instance id).
    pub fn schema(name: EntityName) -> (r: Self)
        ensures
            r.entity == name,
            r.id is None,
    {
        Self { entity: name, id: None }
    }

    /// The key of one instance.
    pub fn instance(name: EntityName, id: EntityId) -> (r: Self)
        ensures
            r.entity == name,
            r.id == Some(id),
    {
        Self { entity: name, id: Some(id) }
    }

    /// `@Entity` or `@Entity:id`
    pub open spec fn shown(self) -> Seq<char> {
        match self.id {
            Some(id) => seq!['@'] + self.entity.0@ + seq![':'] + id.0@,
            None => seq!['@'] + self.entity.0@,
        }
    }

    pub fn to_string(&self) -> (r: String)
        ensures
            r@ == self.shown(),
    {
        let mut v: Vec<char> = Vec::new();
        v.push('@');
        text::append(&mut v, &text::string_chars(&self.entity.0));
        match &self.id {
            Some(id) => {
                v.push(':');
                text::append(&mut v, &text::string_chars(&id.0));
            },
            None => {},
        }
        assert(v@ =~= self.shown());
        text::to_string(&v)
    }
}

// ── Flow State ────────────────────────────────────────────────

/// A state in a flow/state machine: :draft, :confirmed, :shipped
#[derive(Debug, Clone, PartialEq, Eq, Hash)]
pub struct FlowState(pub String);

impl FlowState {
    pub fn new(s: &str) -> (r: Self)
        ensures
            r.0@ == s@,
    {
        Self(s.to_owned())
    }

    pub fn as_str(&self) -> (r: &str)
        ensures
            r@ == self.0@,
    {
        self.0.as_str()
    }

    /// `:state`
    pub open spec fn shown(self) -> Seq<char> {
        seq![':'] + self.0@
    }

    pub fn to_string(&self) -> (r: String)
        ensures
            r@ == self.shown(),
    {
        prefixed(':', &self.0)
    }
}

// ── Flow Name ─────────────────────────────────────────────────

/// A flow identifier: order-lifecycle, deploy-pipeline
#[derive(Debug, Clone, PartialEq, Eq, Hash)]
pub struct FlowName(pub String);

impl FlowName {
    pub fn new(s: &str) -> (r: Self)
        ensures
            r.0@ == s@,
    {
        Self(s.to_owned())
    }

    /// `flow:name`
    pub open spec fn shown(self) -> Seq<char> {
        "flow:"@ + self.0@
    }

    pub fn to_string(&self) -> (r: String)
        ensures
            r@ == self.shown(),
    {
        let mut v = text::str_chars("flow:");
        text::append(&mut v, &text::string_chars(&self.0));
        text::to_string(&v)
    }
}

// ── Gate Ref ──────────────────────────────────────────────────

/// A gate reference: code-review, payment-check, approval
#[derive(Debug, Clone, PartialEq, Eq, Hash)]
pub struct GateRef(pub String);

impl GateRef {
    pub fn new(s: &str) -> (r: Self)
        ensures
            r.0@ == s@,
    {
        Self(s.to_owned())
    }

    pub fn as_str(&self) -> (r: &str)
        ensures
            r@ == self.0@,
    {
        self.0.as_str()
    }

    /// `{gate}`
    pub open spec fn shown(self) -> Seq<char> {
        seq!['{'] + self.0@ + seq!['}']
    }

    pub fn to_string(&self) -> (r: String)
        ensures
            r@ == self.shown(),
    {
        let mut v: Vec<char> = Vec::new();
        v.push('{');
        text::append(&mut v, &text::string_chars(&self.0));
        v.push('}');
        assert(v@ =~= self.shown());
        text::to_string(&v)
    }
}

// ── Field Name ────────────────────────────────────────────────

/// A field name within an entity: name, status, budget
#[derive(Debug, Clone, PartialEq, Eq, Hash, PartialOrd, Ord)]
pub struct FieldName(pub String);

impl FieldName {
    pub fn new(s: &str) -> (r: Self)
        ensures
            r.0@ == s@,
    {
        Self(s.to_owned())
    }

    pub fn as_str(&self) -> (r: &str)
        ensures
            r@ == self.0@,
    {
        self.0.as_str()
    }

    /// The bare field name.
    pub open spec fn shown(self) -> Seq<char> {
        self.0@
    }

    pub fn to_string(&self) -> (r: String)
        ensures
            r@ == self.shown(),
    {
        self.0.clone()
    }
}

// ── Workspace Name ────────────────────────────────────────────

/// A workspace reference: @workspace:sales-crm
#[derive(Debug, Clone, PartialEq, Eq, Hash)]
pub struct WorkspaceName(pub String);

impl WorkspaceName {
    /// `@workspace:name`
    pub open spec fn shown(self) -> Seq<char> {
        "@workspace:"@ + self.0@
    }

    pub fn to_string(&self) -> (r: String)
        ensures
            r@ == self.shown(),
    {
        let mut v = text::str_chars("@workspace:");
        text::append(&mut v, &text::string_chars(&self.0));
        text::to_string(&v)
    }
}

// ── Mod Name ──────────────────────────────────────────────────

/// A mod reference: $LinearMod, $GoogleWorkspace
#[derive(Debug, Clone, PartialEq, Eq, Hash)]
pub struct ModName(pub String);

impl ModName {
    /// `$name`
    pub open spec fn shown(self) -> Seq<char> {
        seq!['$'] + self.0@
    }

    pub fn to_string(&self) -> (r: String)
        ensures
            r@ == self.shown(),
    {
        prefixed('$', &self.0)
    }
}

// ── Bound Name ────────────────────────────────────────────────

/// A bound/constraint name: rate-limit, budget-cap
#[derive(Debug, Clone, PartialEq, Eq, Hash)]
pub struct BoundName(pub String);

impl BoundName {
    /// `bound:name`
    pub open spec fn shown(self) -> Seq<char> {
        "bound:"@ + self.0@
    }

    pub fn to_string(&self) -> (r: String)
        ensures
            r@ == self.shown(),
    {
        let mut v = text::str_chars("bound:");
        text::append(&mut v, &text::string_chars(&self.0));
        text::to_string(&v)
    }
}

// ── Transition ────────────────────────────────────────────────

/// A flow transition: from_state --> to_state with optional gate
#[derive(Debug, Clone, PartialEq)]
pub struct Transition {
    pub from: FlowState,
    pub to: FlowState,
    pub label: Option<String>,
    pub gate: Option<GateRef>,
}

impl Transition {
    /// `:from --> :to`, then ` (label)` and ` gate:name` where present.
    pub open spec fn shown(self) -> Seq<char> {
        let base = self.from.shown() + " --> "@ + self.to.shown();
        let with_label = match self.label {
            Some(l) => base + " ("@ + l@ + seq![')'],
            None => base,
        };
        match self.gate {
            Some(g) => with_label + " gate:"@ + g.0@,
            None => with_label,
        }
    }

    pub fn to_string(&self) -> (r: String)
        ensures
            r@ == self.shown(),
    {
        let mut v = text::string_chars(&self.from.to_string());
        text::append_str(&mut v, " --> ");
        text::append(&mut v, &text::string_chars(&self.to.to_string()));
        match &self.label {
            Some(l) => {
                text::append_str(&mut v, " (");
                text::append(&mut v, &text::string_chars(l));
                v.push(')');
            },
            None => {},
        }
        match &self.gate {
            Some(g) => {
                text::append_str(&mut v, " gate:");
                text::append(&mut v, &text::string_chars(&g.0));
            },
            None => {},
        }
        assert(v@ =~= self.shown());
        text::to_string(&v)
    }
}

// ── Cron Schedule ─────────────────────────────────────────────

/// A cron schedule expression: "0 9 * * 1-5", "*/15 * * * *"
#[derive(Debug, Clone, PartialEq)]
pub struct CronSchedule(pub String);

impl CronSchedule {
    /// The expression itself.
    pub open spec fn shown(self) -> Seq<char> {
        self.0@
    }

    pub fn to_string(&self) -> (r: String)
        ensures
            r@ == self.shown(),
    {
        self.0.clone()
    }
}

} // verus!
