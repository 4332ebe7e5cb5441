//! The step after reading a document's lines: the sub-groups of a group
//! named `Sync` become sync declarations, read from their `key: value`
//! prose lines; a declaration whose class is not `canon`, `ops` or `data`
//! is an error. Depth-two groups named for a lattice section
//! (`Validates`, `Constraint`, `Schema`, `Frontier`, `Pressure Effect`,
//! `Unit Cell`, `Symmetry`) become that section, read from their children.
use crate::blocks::setting;
use crate::ir::assoc_set;
use crate::text;
use crate::text::trim;
use crate::types::{
    Group, LatticeArtifactRef, LatticeConstraintDef, LatticeFrontierDef, LatticeSchemaDef,
    LatticeSchemaField, LatticeValidatesDef, MatchArm, Node, PressureEffectDef, SymmetryDef,
    SyncDef, UnitCellDef, ProjectScope,
};
use vstd::prelude::*;

verus! {

/// A sync declaration that is refused: its name and its class.
pub open spec fn err_of(e: (String, String)) -> (Seq<char>, Seq<char>) {
    (e.0@, e.1@)
}

/// The settings that the prose lines `key: value` among some nodes give;
/// a later line for a key replaces an earlier one.
pub open spec fn sync_fields(ns: Seq<Node>) -> Seq<(Seq<char>, Seq<char>)>
    decreases ns.len(),
{
    if ns.len() == 0 {
        Seq::empty()
    } else {
        let acc = sync_fields(ns.drop_last());
        match ns.last() {
            Node::Prose(p) => match text::split_once(p.text@, ":"@) {
                Some((k, v)) => assoc_set(acc, trim(k), trim(v)),
                None => acc,
            },
            _ => acc,
        }
    }
}

/// Whether a sync class is accepted: empty, `canon`, `ops` or `data`.
pub open spec fn class_ok(c: Seq<char>) -> bool {
    c.len() == 0 || c == "canon"@ || c == "ops"@ || c == "data"@
}

/// The declaration that sub-group `g` of a `Sync` group becomes.
pub open spec fn sync_def_of(sd: SyncDef, g: Group) -> bool {
    let f = sync_fields(g.children@);
    &&& sd.name@ == g.name@
    &&& sd.class@ == setting(f, "class"@)
    &&& sd.source@ == setting(f, "source"@)
    &&& sd.identity@ == setting(f, "identity"@)
    &&& sd.mode@ == setting(f, "mode"@)
    &&& sd.target@ == setting(f, "target"@)
    &&& sd.schedule@ == setting(f, "schedule"@)
    &&& sd.scope@ == setting(f, "scope"@)
}

/// The first sub-group among `cs` whose class is refused: its name and
/// class.
pub open spec fn sync_child_err(cs: Seq<Node>) -> Option<(Seq<char>, Seq<char>)>
    decreases cs.len(),
{
    if cs.len() == 0 {
        None
    } else {
        match cs[0] {
            Node::Group(c) if !is_lattice(c) => {
                let cl = setting(sync_fields(c.children@), "class"@);
                if !class_ok(cl) {
                    Some((c.name@, cl))
                } else {
                    sync_child_err(cs.drop_first())
                }
            },
            _ => sync_child_err(cs.drop_first()),
        }
    }
}

/// Which lattice section a group opens: 0 for none; otherwise
/// `Validates` 1, `Constraint` 2, `Schema` 3, `Frontier` 4,
/// `Pressure Effect` 5, `Unit Cell` 6, `Symmetry` 7 (at depth two).
pub open spec fn lattice_kind(g: Group) -> int {
    if g.depth != 2 {
        0
    } else if g.name@ == "Validates"@ {
        1
    } else if g.name@ == "Constraint"@ {
        2
    } else if g.name@ == "Schema"@ {
        3
    } else if g.name@ == "Frontier"@ {
        4
    } else if g.name@ == "Pressure Effect"@ {
        5
    } else if g.name@ == "Unit Cell"@ {
        6
    } else if g.name@ == "Symmetry"@ {
        7
    } else {
        0
    }
}

pub open spec fn is_lattice(g: Group) -> bool {
    lattice_kind(g) != 0
}

/// The artifact that a `- artifact: x` or `artifact: x` line names.
pub open spec fn art_name(t: Seq<char>) -> Option<Seq<char>> {
    match text::strip_prefix(t, "- artifact:"@) {
        Some(a) => Some(trim(a)),
        None => match text::strip_prefix(t, "artifact:"@) {
            Some(a) => Some(trim(a)),
            None => None,
        },
    }
}

/// A `Validates` section's children: artifact lines add artifacts, a
/// `schema:` line sets the last artifact's schema; the other children stay.
pub open spec fn validates_fold(cs: Seq<Node>) -> (Seq<(Seq<char>, Option<Seq<char>>)>, Seq<Node>)
    decreases cs.len(),
{
    if cs.len() == 0 {
        (Seq::empty(), Seq::empty())
    } else {
        let (arts, rem) = validates_fold(cs.drop_last());
        let x = cs.last();
        match x {
            Node::Prose(p) => {
                let t = trim(p.text@);
                match art_name(t) {
                    Some(a) => (arts.push((a, None)), rem),
                    None => match text::strip_prefix(t, "schema:"@) {
                        Some(v) => if arts.len() > 0 {
                            (arts.update(arts.len() - 1, (arts.last().0, Some(trim(v)))), rem)
                        } else {
                            (arts, rem.push(x))
                        },
                        None => (arts, rem.push(x)),
                    },
                }
            },
            _ => (arts, rem.push(x)),
        }
    }
}

/// A `Constraint` section keeps the children other than its `rule:` and
/// `applies_to:` lines.
pub open spec fn constraint_rest(cs: Seq<Node>) -> Seq<Node>
    decreases cs.len(),
{
    if cs.len() == 0 {
        Seq::empty()
    } else {
        let rem = constraint_rest(cs.drop_last());
        match cs.last() {
            Node::Prose(p) => if text::starts_with(trim(p.text@), "rule:"@) || text::starts_with(
                trim(p.text@),
                "applies_to:"@,
            ) {
                rem
            } else {
                rem.push(cs.last())
            },
            _ => rem.push(cs.last()),
        }
    }
}

pub struct SchemaFold {
    pub fields: Seq<(Seq<char>, Seq<char>, bool)>,
    pub rem: Seq<Node>,
    pub name: Option<Seq<char>>,
    pub ty: Option<Seq<char>>,
    pub req: bool,
}

pub open spec fn or_empty(o: Option<Seq<char>>) -> Seq<char> {
    match o {
        Some(v) => v,
        None => Seq::empty(),
    }
}

/// A `Schema` section's children: a `name:` line starts a field (closing
/// the one before), `type:` and `required:` lines set the pending field's.
pub open spec fn schema_fold(cs: Seq<Node>) -> SchemaFold
    decreases cs.len(),
{
    if cs.len() == 0 {
        SchemaFold { fields: Seq::empty(), rem: Seq::empty(), name: None, ty: None, req: false }
    } else {
        let st = schema_fold(cs.drop_last());
        let x = cs.last();
        match x {
            Node::Prose(p) => {
                let t = trim(p.text@);
                match text::strip_prefix(t, "name:"@) {
                    Some(v) => match st.name {
                        Some(n) => SchemaFold {
                            fields: st.fields.push((n, or_empty(st.ty), st.req)),
                            rem: st.rem,
                            name: Some(trim(v)),
                            ty: None,
                            req: false,
                        },
                        None => SchemaFold { name: Some(trim(v)), ..st },
                    },
                    None => match text::strip_prefix(t, "type:"@) {
                        Some(v) => SchemaFold { ty: Some(trim(v)), ..st },
                        None => match text::strip_prefix(t, "required:"@) {
                            Some(v) => SchemaFold { req: trim(v) == "true"@, ..st },
                            None => SchemaFold { rem: st.rem.push(x), ..st },
                        },
                    },
                }
            },
            _ => SchemaFold { rem: st.rem.push(x), ..st },
        }
    }
}

/// The fields of a `Schema` section, the pending one closed at the end.
pub open spec fn schema_fields(st: SchemaFold) -> Seq<(Seq<char>, Seq<char>, bool)> {
    match st.name {
        Some(n) => st.fields.push((n, or_empty(st.ty), st.req)),
        None => st.fields,
    }
}

/// A `Frontier` section's children: its expected schema (the last one
/// given), missing fields and strategies, and the other children.
pub open spec fn frontier_fold(cs: Seq<Node>) -> (Option<Seq<char>>, Seq<Seq<char>>, Seq<Seq<char>>, Seq<Node>)
    decreases cs.len(),
{
    if cs.len() == 0 {
        (None, Seq::empty(), Seq::empty(), Seq::empty())
    } else {
        let (e, m, st, rem) = frontier_fold(cs.drop_last());
        let x = cs.last();
        match x {
            Node::Prose(p) => {
                let t = trim(p.text@);
                match text::strip_prefix(t, "expected_schema:"@) {
                    Some(v) => (Some(trim(v)), m, st, rem),
                    None => match text::strip_prefix(t, "missing_field:"@) {
                        Some(v) => (e, m.push(trim(v)), st, rem),
                        None => match text::strip_prefix(t, "strategy:"@) {
                            Some(v) => (e, m, st.push(trim(v)), rem),
                            None => (e, m, st, rem.push(x)),
                        },
                    },
                }
            },
            _ => (e, m, st, rem.push(x)),
        }
    }
}

pub open spec fn arts_view(v: Seq<LatticeArtifactRef>) -> Seq<(Seq<char>, Option<Seq<char>>)> {
    v.map_values(|a: LatticeArtifactRef| (a.artifact@, crate::line::opt_str_view(a.schema)))
}

pub open spec fn schema_fields_view(v: Seq<LatticeSchemaField>) -> Seq<(Seq<char>, Seq<char>, bool)> {
    v.map_values(|f: LatticeSchemaField| (f.name@, f.field_type@, f.required))
}

/// Whether `m` is the lattice section of kind `k` read from children `cs`.
pub open spec fn lattice_matches(k: int, cs: Seq<Node>, m: Node) -> bool {
    let f = sync_fields(cs);
    if k == 1 {
        m matches Node::LatticeValidates(l) && (arts_view(l.artifacts@), l.children@) == validates_fold(cs)
            && forall|i: int| 0 <= i < l.artifacts@.len() ==> (#[trigger] l.artifacts@[i]).checks@.len() == 0
    } else if k == 2 {
        m matches Node::LatticeConstraint(l) && l.constraint_type is None && l.rule@ == setting(f, "rule"@)
            && text::str_views(l.applies_to@) == crate::line::names_list(setting(f, "applies_to"@))
            && l.children@ == constraint_rest(cs)
    } else if k == 3 {
        m matches Node::LatticeSchema(l) && schema_fields_view(l.fields@) == schema_fields(schema_fold(cs))
            && l.children@ == schema_fold(cs).rem
    } else if k == 4 {
        m matches Node::LatticeFrontier(l) && (
            crate::line::opt_str_view(l.expected_schema),
            text::str_views(l.missing_fields@),
            text::str_views(l.exploration_strategy@),
            l.children@,
        ) == frontier_fold(cs)
    } else if k == 5 {
        m matches Node::PressureEffect(pe) && pe.dynamic@ == setting(f, "dynamic"@)
            && crate::line::opt_str_view(pe.target) == crate::blocks::first_value(f, "target"@)
    } else if k == 6 {
        m matches Node::UnitCell(u) && u.children@ == cs
    } else {
        m matches Node::Symmetry(u) && u.children@ == cs
    }
}

/// A group named `Sync` opens no lattice section.
proof fn lemma_sync_not_lattice(g: Group)
    ensures
        g.name@ == "Sync"@ ==> !is_lattice(g),
{
    reveal_strlit("Sync");
    reveal_strlit("Validates");
    reveal_strlit("Constraint");
    reveal_strlit("Schema");
    reveal_strlit("Frontier");
    reveal_strlit("Pressure Effect");
    reveal_strlit("Unit Cell");
    reveal_strlit("Symmetry");
    if g.name@ == "Sync"@ && g.depth == 2 {
        assert(g.name@ != "Validates"@ && g.name@ != "Constraint"@ && g.name@ != "Schema"@ && g.name@
            != "Frontier"@ && g.name@ != "Pressure Effect"@ && g.name@ != "Unit Cell"@ && g.name@
            != "Symmetry"@) by {
            assert(g.name@.len() == 4);
            assert(g.name@[0] == 'S' && g.name@[1] == 'y');
        }
    }
}

/// Whether group `g2` has the header of group `g`.
pub open spec fn same_header(g: Group, g2: Group) -> bool {
    g2.depth == g.depth && g2.name == g.name && g2.atoms == g.atoms && g2.gates == g.gates
}

/// A task with the same header and settings.
pub open spec fn same_task(t: crate::types::Task, t2: crate::types::Task) -> bool {
    &&& t2.marker == t.marker
    &&& t2.label == t.label
    &&& t2.text == t.text
    &&& t2.inline == t.inline
    &&& t2.gates == t.gates
    &&& t2.closes == t.closes
    &&& t2.depends == t.depends
    &&& t2.validate == t.validate
    &&& t2.status == t.status
}

/// The first refused declaration that the step meets in some nodes, in
/// order: for a group, first in its children, then (for a `Sync` group)
/// among its sub-groups.
pub open spec fn err_seq(ns: Seq<Node>) -> Option<(Seq<char>, Seq<char>)>
    decreases ns,
{
    if ns.len() == 0 {
        None
    } else {
        match err_seq(ns.drop_last()) {
            Some(e) => Some(e),
            None => err_node(ns.last()),
        }
    }
}

pub open spec fn err_opt(o: Option<Vec<Node>>) -> Option<(Seq<char>, Seq<char>)>
    decreases o,
{
    match o {
        Some(v) => err_seq(v@),
        None => None,
    }
}

pub open spec fn err_arms(arms: Seq<MatchArm>) -> Option<(Seq<char>, Seq<char>)>
    decreases arms,
{
    if arms.len() == 0 {
        None
    } else {
        match err_arms(arms.drop_last()) {
            Some(e) => Some(e),
            None => err_seq(arms.last().children@),
        }
    }
}

pub open spec fn err_task(t: crate::types::Task) -> Option<(Seq<char>, Seq<char>)>
    decreases t,
{
    match err_seq(t.children@) {
        Some(e) => Some(e),
        None => match err_opt(t.on_pass) {
            Some(e) => Some(e),
            None => match err_opt(t.on_fail) {
                Some(e) => Some(e),
                None => match t.match_arms {
                    Some(a) => err_arms(a@),
                    None => None,
                },
            },
        },
    }
}

pub open spec fn err_node(n: Node) -> Option<(Seq<char>, Seq<char>)>
    decreases n,
{
    match n {
        Node::Group(g) => match err_seq(g.children@) {
            Some(e) => Some(e),
            None => if g.name@ == "Sync"@ {
                sync_child_err(g.children@)
            } else {
                None
            },
        },
        Node::Task(t) => err_task(t),
        Node::Validate(v) => err_seq(v.children@),
        Node::Conditional(c) => err_seq(c.children@),
        Node::GateDef(g) => err_seq(g.children@),
        Node::LatticeValidates(l) => err_seq(l.children@),
        Node::LatticeConstraint(l) => err_seq(l.children@),
        Node::LatticeSchema(l) => err_seq(l.children@),
        Node::LatticeFrontier(l) => err_seq(l.children@),
        Node::UnitCell(u) => err_seq(u.children@),
        Node::Symmetry(u) => err_seq(u.children@),
        Node::ProjectScope(ps) => err_seq(ps.children@),
        _ => None,
    }
}

/// Whether `ms` is what the step makes of `ns`, when it refuses nothing.
pub open spec fn ok_seq(ns: Seq<Node>, ms: Seq<Node>) -> bool
    decreases ns,
{
    if ns.len() == 0 {
        ms.len() == 0
    } else {
        ms.len() == ns.len() && ok_seq(ns.drop_last(), ms.drop_last()) && ok_node(ns.last(), ms.last())
    }
}

/// The children of a `Sync` group after the step: each sub-group becomes
/// its declaration, the other nodes go through the step.
pub open spec fn ok_sync_seq(ns: Seq<Node>, ms: Seq<Node>) -> bool
    decreases ns,
{
    if ns.len() == 0 {
        ms.len() == 0
    } else {
        ms.len() == ns.len() && ok_sync_seq(ns.drop_last(), ms.drop_last()) && match ns.last() {
            Node::Group(c) if !is_lattice(c) => ms.last() matches Node::SyncDef(sd) && sync_def_of(sd, c),
            _ => ok_node(ns.last(), ms.last()),
        }
    }
}

pub open spec fn ok_opt(o: Option<Vec<Node>>, o2: Option<Vec<Node>>) -> bool
    decreases o,
{
    match (o, o2) {
        (None, None) => true,
        (Some(v), Some(v2)) => ok_seq(v@, v2@),
        _ => false,
    }
}

pub open spec fn ok_arms(arms: Seq<MatchArm>, arms2: Seq<MatchArm>) -> bool
    decreases arms,
{
    if arms.len() == 0 {
        arms2.len() == 0
    } else {
        arms2.len() == arms.len() && ok_arms(arms.drop_last(), arms2.drop_last()) && arms2.last().pattern
            == arms.last().pattern && ok_seq(arms.last().children@, arms2.last().children@)
    }
}

pub open spec fn ok_task(t: crate::types::Task, t2: crate::types::Task) -> bool
    decreases t,
{
    &&& same_task(t, t2)
    &&& ok_seq(t.children@, t2.children@)
    &&& ok_opt(t.on_pass, t2.on_pass)
    &&& ok_opt(t.on_fail, t2.on_fail)
    &&& match (t.match_arms, t2.match_arms) {
        (None, None) => true,
        (Some(a), Some(a2)) => ok_arms(a@, a2@),
        _ => false,
    }
}

/// Whether `m` is what the step makes of `n`, when it refuses nothing.
pub open spec fn ok_node(n: Node, m: Node) -> bool
    decreases n,
{
    match n {
        Node::Group(g) => if is_lattice(g) {
            exists|cs: Seq<Node>| ok_seq(g.children@, cs) && #[trigger] lattice_matches(lattice_kind(g), cs, m)
        } else {
            match m {
                Node::Group(g2) => same_header(g, g2) && if g.name@ == "Sync"@ {
                    ok_sync_seq(g.children@, g2.children@)
                } else {
                    ok_seq(g.children@, g2.children@)
                },
                _ => false,
            }
        },
        Node::Task(t) => match m {
            Node::Task(t2) => ok_task(t, t2),
            _ => false,
        },
        Node::Validate(v) => match m {
            Node::Validate(v2) => v2.name == v.name && v2.meta == v.meta && ok_seq(v.children@, v2.children@),
            _ => false,
        },
        Node::Conditional(c) => match m {
            Node::Conditional(c2) => c2.condition == c.condition && ok_seq(c.children@, c2.children@),
            _ => false,
        },
        Node::GateDef(g) => match m {
            Node::GateDef(g2) => g2.name == g.name && ok_seq(g.children@, g2.children@),
            _ => false,
        },
        Node::LatticeValidates(l) => match m {
            Node::LatticeValidates(l2) => l2.artifacts == l.artifacts && ok_seq(l.children@, l2.children@),
            _ => false,
        },
        Node::LatticeConstraint(l) => match m {
            Node::LatticeConstraint(l2) => l2.constraint_type == l.constraint_type && l2.rule == l.rule
                && l2.applies_to == l.applies_to && ok_seq(l.children@, l2.children@),
            _ => false,
        },
        Node::LatticeSchema(l) => match m {
            Node::LatticeSchema(l2) => l2.fields == l.fields && ok_seq(l.children@, l2.children@),
            _ => false,
        },
        Node::LatticeFrontier(l) => match m {
            Node::LatticeFrontier(l2) => l2.expected_schema == l.expected_schema && l2.missing_fields
                == l.missing_fields && l2.exploration_strategy == l.exploration_strategy && ok_seq(
                l.children@,
                l2.children@,
            ),
            _ => false,
        },
        Node::UnitCell(u) => match m {
            Node::UnitCell(u2) => ok_seq(u.children@, u2.children@),
            _ => false,
        },
        Node::Symmetry(u) => match m {
            Node::Symmetry(u2) => ok_seq(u.children@, u2.children@),
            _ => false,
        },
        Node::ProjectScope(ps) => match m {
            Node::ProjectScope(ps2) => ps2.name == ps.name && ok_seq(ps.children@, ps2.children@),
            _ => false,
        },
        _ => m == n,
    }
}

/// The step keeps prose as it is and groups as groups of the same name.
proof fn lemma_ok_keeps(n: Node, m: Node)
    requires
        ok_node(n, m),
    ensures
        n is Prose ==> m == n,
        !(n is Prose) ==> !(m is Prose),
        (m is Group) ==> (n is Group),
        n matches Node::Group(g) ==> (!is_lattice(g) ==> (m matches Node::Group(g2) && g2.name == g.name
            && g2.depth == g.depth)),
        n matches Node::Group(g) ==> (is_lattice(g) ==> !(m is Group)),
{
    match n {
        Node::Group(g) => {
            if is_lattice(g) {
                assert(exists|cs: Seq<Node>| ok_seq(g.children@, cs) && #[trigger] lattice_matches(lattice_kind(g), cs, m)) by {
                    reveal_with_fuel(ok_node, 2);
                }
                let cs = choose|cs: Seq<Node>| ok_seq(g.children@, cs) && #[trigger] lattice_matches(lattice_kind(g), cs, m);
                assert(lattice_matches(lattice_kind(g), cs, m));
            }
        },
        _ => {},
    }
}

/// The settings of some nodes are those of what the step makes of them.
proof fn lemma_ok_fields(ns: Seq<Node>, ms: Seq<Node>)
    requires
        ok_seq(ns, ms),
    ensures
        sync_fields(ms) == sync_fields(ns),
        sync_child_err(ms) == sync_child_err(ns),
    decreases ns,
{
    if ns.len() > 0 {
        assert(ok_node(ns.last(), ms.last()));
        lemma_ok_fields(ns.drop_last(), ms.drop_last());
        lemma_ok_keeps(ns.last(), ms.last());
        lemma_child_err_split(ns);
        lemma_child_err_split(ms);
        let sn = seq![ns.last()];
        let sm = seq![ms.last()];
        assert(sn.drop_first() =~= Seq::<Node>::empty());
        assert(sm.drop_first() =~= Seq::<Node>::empty());
        assert(sn[0] == ns.last());
        assert(sm[0] == ms.last());
        match ns.last() {
            Node::Group(c) if !is_lattice(c) => {
                match ms.last() {
                    Node::Group(c2) => {
                        if c.name@ == "Sync"@ {
                            lemma_sync_ok_fields(c.children@, c2.children@);
                        } else {
                            lemma_ok_fields(c.children@, c2.children@);
                        }
                    },
                    _ => {},
                }
            },
            _ => {},
        }
    }
}

proof fn lemma_sync_ok_fields(ns: Seq<Node>, ms: Seq<Node>)
    requires
        ok_sync_seq(ns, ms),
    ensures
        sync_fields(ms) == sync_fields(ns),
    decreases ns.len(),
{
    if ns.len() > 0 {
        lemma_sync_ok_fields(ns.drop_last(), ms.drop_last());
        match ns.last() {
            Node::Group(c) if !is_lattice(c) => {},
            _ => lemma_ok_keeps(ns.last(), ms.last()),
        }
    }
}

/// The first refused sub-group of `ns` is found in its prefix, else in its
/// last node.
proof fn lemma_child_err_split(ns: Seq<Node>)
    requires
        ns.len() > 0,
    ensures
        sync_child_err(ns) == match sync_child_err(ns.drop_last()) {
            Some(e) => Some(e),
            None => sync_child_err(seq![ns.last()]),
        },
    decreases ns.len(),
{
    if ns.len() > 1 {
        let t = ns.drop_first();
        lemma_child_err_split(t);
        assert(t.drop_last() =~= ns.drop_last().drop_first());
        assert(t.last() == ns.last());
        assert(seq![ns.last()].drop_first() =~= Seq::<Node>::empty());
    } else {
        assert(ns.drop_last() =~= Seq::<Node>::empty());
        assert(ns =~= seq![ns.last()]);
    }
}

// ── The step ───────────────────────────────────────────────────

fn sync_fields_exec(ns: &Vec<Node>) -> (r: Vec<(String, String)>)
    ensures
        crate::ir::pairs_view(r@) == sync_fields(ns@),
{
    let mut f: Vec<(String, String)> = Vec::new();
    let mut i: usize = 0;
    assert(ns@.take(0) =~= Seq::<Node>::empty());
    assert(crate::ir::pairs_view(f@) =~= Seq::<(Seq<char>, Seq<char>)>::empty());
    while i < ns.len()
        invariant
            i <= ns.len(),
            crate::ir::pairs_view(f@) == sync_fields(ns@.take(i as int)),
        decreases ns.len() - i,
    {
        proof {
            assert(ns@.take(i + 1).drop_last() =~= ns@.take(i as int));
            assert(ns@.take(i + 1).last() == ns@[i as int]);
        }
        match &ns[i] {
            Node::Prose(p) => {
                let t = text::string_chars(&p.text);
                match text::split_once_str(&t, ":") {
                    Some((k, v)) => {
                        crate::ir::set_var(
                            &mut f,
                            text::to_string(&text::trim_chars(&k)),
                            text::to_string(&text::trim_chars(&v)),
                        );
                    },
                    None => {},
                }
            },
            _ => {},
        }
        i = i + 1;
    }
    assert(ns@.take(ns.len() as int) =~= ns@);
    f
}

fn get_setting(f: &Vec<(String, String)>, key: &str) -> (r: String)
    ensures
        r@ == setting(crate::ir::pairs_view(f@), key@),
{
    assert(crate::parse::pairs_view(f@) =~= crate::ir::pairs_view(f@));
    crate::blocks::setting_exec(f, key)
}

fn sync_def_exec(g: &Group) -> (r: SyncDef)
    ensures
        sync_def_of(r, *g),
{
    let f = sync_fields_exec(&g.children);
    SyncDef {
        name: g.name.clone(),
        class: get_setting(&f, "class"),
        source: get_setting(&f, "source"),
        identity: get_setting(&f, "identity"),
        mode: get_setting(&f, "mode"),
        target: get_setting(&f, "target"),
        schedule: get_setting(&f, "schedule"),
        scope: get_setting(&f, "scope"),
    }
}

fn class_ok_exec(c: &String) -> (r: bool)
    ensures
        r == class_ok(c@),
{
    let cv = text::string_chars(c);
    cv.len() == 0 || text::eq_str(&cv, "canon") || text::eq_str(&cv, "ops") || text::eq_str(&cv, "data")
}

fn lattice_kind_exec(g: &Group) -> (r: u8)
    ensures
        r as int == lattice_kind(*g),
{
    if g.depth != 2 {
        return 0;
    }
    let n = text::string_chars(&g.name);
    if text::eq_str(&n, "Validates") {
        1
    } else if text::eq_str(&n, "Constraint") {
        2
    } else if text::eq_str(&n, "Schema") {
        3
    } else if text::eq_str(&n, "Frontier") {
        4
    } else if text::eq_str(&n, "Pressure Effect") {
        5
    } else if text::eq_str(&n, "Unit Cell") {
        6
    } else if text::eq_str(&n, "Symmetry") {
        7
    } else {
        0
    }
}

pub(crate) fn prose_trim(x: &Node) -> (r: Option<Vec<char>>)
    ensures
        match *x {
            Node::Prose(p) => r matches Some(t) && t@ == trim(p.text@),
            _ => r is None,
        },
{
    match x {
        Node::Prose(p) => Some(text::trim_chars(&text::string_chars(&p.text))),
        _ => None,
    }
}

fn art_name_exec(t: &Vec<char>) -> (r: Option<Vec<char>>)
    ensures
        crate::line::opt_view(r) == art_name(t@),
{
    match text::strip_prefix_str(t, "- artifact:") {
        Some(a) => Some(text::trim_chars(&a)),
        None => match text::strip_prefix_str(t, "artifact:") {
            Some(a) => Some(text::trim_chars(&a)),
            None => None,
        },
    }
}

fn validates_exec(cs: Vec<Node>) -> (r: (Vec<LatticeArtifactRef>, Vec<Node>))
    ensures
        (arts_view(r.0@), r.1@) == validates_fold(cs@),
        forall|i: int| 0 <= i < r.0@.len() ==> (#[trigger] r.0@[i]).checks@.len() == 0,
{
    let ghost orig = cs@;
    let mut todo = cs;
    let mut arts: Vec<LatticeArtifactRef> = Vec::new();
    let mut rem: Vec<Node> = Vec::new();
    assert(orig.take(0) =~= Seq::<Node>::empty());
    assert(arts_view(arts@) =~= Seq::<(Seq<char>, Option<Seq<char>>)>::empty());
    while todo.len() > 0
        invariant
            todo@.len() <= orig.len(),
            todo@ == orig.skip(orig.len() - todo@.len()),
            (arts_view(arts@), rem@) == validates_fold(orig.take(orig.len() - todo@.len())),
            forall|i: int| 0 <= i < arts@.len() ==> (#[trigger] arts@[i]).checks@.len() == 0,
        decreases todo@.len(),
    {
        let ghost k = orig.len() - todo@.len();
        let x = todo.remove(0);
        proof {
            assert(x == orig[k]);
            assert(todo@ =~= orig.skip(k + 1));
            assert(orig.take(k + 1).drop_last() =~= orig.take(k));
            assert(orig.take(k + 1).last() == x);
        }
        let ghost a0 = arts@;
        let ghost r0 = rem@;
        match prose_trim(&x) {
            Some(t) => match art_name_exec(&t) {
                Some(a) => {
                    arts.push(LatticeArtifactRef { artifact: text::to_string(&a), schema: None, checks: Vec::new() });
                    assert(arts_view(arts@) =~= arts_view(a0).push((a@, None)));
                },
                None => match text::strip_prefix_str(&t, "schema:") {
                    Some(v) => {
                        if arts.len() > 0 {
                            let mut last = arts.pop().unwrap();
                            last.schema = Some(text::to_string(&text::trim_chars(&v)));
                            let ghost lv = last;
                            arts.push(last);
                            assert(arts_view(arts@) =~= arts_view(a0).update(
                                arts_view(a0).len() - 1,
                                (arts_view(a0).last().0, Some(trim(v@))),
                            ));
                        } else {
                            rem.push(x);
                        }
                    },
                    None => {
                        rem.push(x);
                    },
                },
            },
            None => {
                rem.push(x);
            },
        }
    }
    assert(orig.take(orig.len() as int) =~= orig);
    (arts, rem)
}

fn constraint_rest_exec(cs: Vec<Node>) -> (r: Vec<Node>)
    ensures
        r@ == constraint_rest(cs@),
{
    let ghost orig = cs@;
    let mut todo = cs;
    let mut rem: Vec<Node> = Vec::new();
    assert(orig.take(0) =~= Seq::<Node>::empty());
    while todo.len() > 0
        invariant
            todo@.len() <= orig.len(),
            todo@ == orig.skip(orig.len() - todo@.len()),
            rem@ == constraint_rest(orig.take(orig.len() - todo@.len())),
        decreases todo@.len(),
    {
        let ghost k = orig.len() - todo@.len();
        let x = todo.remove(0);
        proof {
            assert(x == orig[k]);
            assert(todo@ =~= orig.skip(k + 1));
            assert(orig.take(k + 1).drop_last() =~= orig.take(k));
            assert(orig.take(k + 1).last() == x);
        }
        let drop = match prose_trim(&x) {
            Some(t) => text::starts_with_str(&t, "rule:") || text::starts_with_str(&t, "applies_to:"),
            None => false,
        };
        if !drop {
            rem.push(x);
        }
    }
    assert(orig.take(orig.len() as int) =~= orig);
    rem
}

fn or_empty_exec(o: &Option<Vec<char>>) -> (r: Vec<char>)
    ensures
        r@ == or_empty(crate::line::opt_view(*o)),
{
    match o {
        Some(v) => v.clone(),
        None => Vec::new(),
    }
}

fn schema_exec(cs: Vec<Node>) -> (r: (Vec<LatticeSchemaField>, Vec<Node>))
    ensures
        schema_fields_view(r.0@) == schema_fields(schema_fold(cs@)),
        r.1@ == schema_fold(cs@).rem,
{
    let ghost orig = cs@;
    let mut todo = cs;
    let mut fields: Vec<LatticeSchemaField> = Vec::new();
    let mut rem: Vec<Node> = Vec::new();
    let mut name: Option<Vec<char>> = None;
    let mut ty: Option<Vec<char>> = None;
    let mut req = false;
    assert(orig.take(0) =~= Seq::<Node>::empty());
    assert(schema_fields_view(fields@) =~= Seq::<(Seq<char>, Seq<char>, bool)>::empty());
    while todo.len() > 0
        invariant
            todo@.len() <= orig.len(),
            todo@ == orig.skip(orig.len() - todo@.len()),
            schema_fold(orig.take(orig.len() - todo@.len())) == (SchemaFold {
                fields: schema_fields_view(fields@),
                rem: rem@,
                name: crate::line::opt_view(name),
                ty: crate::line::opt_view(ty),
                req,
            }),
        decreases todo@.len(),
    {
        let ghost k = orig.len() - todo@.len();
        let x = todo.remove(0);
        proof {
            assert(x == orig[k]);
            assert(todo@ =~= orig.skip(k + 1));
            assert(orig.take(k + 1).drop_last() =~= orig.take(k));
            assert(orig.take(k + 1).last() == x);
        }
        let ghost f0 = fields@;
        match prose_trim(&x) {
            Some(t) => match text::strip_prefix_str(&t, "name:") {
                Some(v) => {
                    match &name {
                        Some(n) => {
                            fields.push(LatticeSchemaField {
                                name: text::to_string(n),
                                field_type: text::to_string(&or_empty_exec(&ty)),
                                required: req,
                            });
                            assert(schema_fields_view(fields@) =~= schema_fields_view(f0).push(
                                (n@, or_empty(crate::line::opt_view(ty)), req),
                            ));
                            ty = None;
                            req = false;
                        },
                        None => {},
                    }
                    name = Some(text::trim_chars(&v));
                },
                None => match text::strip_prefix_str(&t, "type:") {
                    Some(v) => {
                        ty = Some(text::trim_chars(&v));
                    },
                    None => match text::strip_prefix_str(&t, "required:") {
                        Some(v) => {
                            req = text::eq_str(&text::trim_chars(&v), "true");
                        },
                        None => {
                            rem.push(x);
                        },
                    },
                },
            },
            None => {
                rem.push(x);
            },
        }
    }
    assert(orig.take(orig.len() as int) =~= orig);
    let ghost f1 = fields@;
    match &name {
        Some(n) => {
            fields.push(LatticeSchemaField {
                name: text::to_string(n),
                field_type: text::to_string(&or_empty_exec(&ty)),
                required: req,
            });
            assert(schema_fields_view(fields@) =~= schema_fields_view(f1).push(
                (n@, or_empty(crate::line::opt_view(ty)), req),
            ));
        },
        None => {},
    }
    (fields, rem)
}

fn frontier_exec(cs: Vec<Node>) -> (r: (Option<String>, Vec<String>, Vec<String>, Vec<Node>))
    ensures
        (crate::line::opt_str_view(r.0), text::str_views(r.1@), text::str_views(r.2@), r.3@) == frontier_fold(cs@),
{
    let ghost orig = cs@;
    let mut todo = cs;
    let mut e: Option<String> = None;
    let mut m: Vec<String> = Vec::new();
    let mut st: Vec<String> = Vec::new();
    let mut rem: Vec<Node> = Vec::new();
    assert(orig.take(0) =~= Seq::<Node>::empty());
    assert(text::str_views(m@) =~= Seq::<Seq<char>>::empty());
    assert(text::str_views(st@) =~= Seq::<Seq<char>>::empty());
    while todo.len() > 0
        invariant
            todo@.len() <= orig.len(),
            todo@ == orig.skip(orig.len() - todo@.len()),
            (crate::line::opt_str_view(e), text::str_views(m@), text::str_views(st@), rem@) == frontier_fold(
                orig.take(orig.len() - todo@.len()),
            ),
        decreases todo@.len(),
    {
        let ghost k = orig.len() - todo@.len();
        let x = todo.remove(0);
        proof {
            assert(x == orig[k]);
            assert(todo@ =~= orig.skip(k + 1));
            assert(orig.take(k + 1).drop_last() =~= orig.take(k));
            assert(orig.take(k + 1).last() == x);
        }
        let ghost m0 = m@;
        let ghost s0 = st@;
        match prose_trim(&x) {
            Some(t) => match text::strip_prefix_str(&t, "expected_schema:") {
                Some(v) => {
                    e = Some(text::to_string(&text::trim_chars(&v)));
                },
                None => match text::strip_prefix_str(&t, "missing_field:") {
                    Some(v) => {
                        let w = text::to_string(&text::trim_chars(&v));
                        m.push(w);
                        assert(text::str_views(m@) =~= text::str_views(m0).push(trim(v@)));
                    },
                    None => match text::strip_prefix_str(&t, "strategy:") {
                        Some(v) => {
                            let w = text::to_string(&text::trim_chars(&v));
                            st.push(w);
                            assert(text::str_views(st@) =~= text::str_views(s0).push(trim(v@)));
                        },
                        None => {
                            rem.push(x);
                        },
                    },
                },
            },
            None => {
                rem.push(x);
            },
        }
    }
    assert(orig.take(orig.len() as int) =~= orig);
    (e, m, st, rem)
}

/// The lattice section of kind `k` read from children `cs`.
pub(crate) fn lattice_node(k: u8, cs: Vec<Node>) -> (r: Node)
    requires
        1 <= k <= 7,
    ensures
        lattice_matches(k as int, cs@, r),
{
    let f = sync_fields_exec(&cs);
    assert(crate::parse::pairs_view(f@) =~= crate::ir::pairs_view(f@));
    if k == 1 {
        let (artifacts, children) = validates_exec(cs);
        Node::LatticeValidates(LatticeValidatesDef { artifacts, children })
    } else if k == 2 {
        let rule = get_setting(&f, "rule");
        let applies = text::to_strings(&crate::line::names_list_exec(&text::string_chars(&get_setting(&f, "applies_to"))));
        let children = constraint_rest_exec(cs);
        Node::LatticeConstraint(LatticeConstraintDef { constraint_type: None, rule, applies_to: applies, children })
    } else if k == 3 {
        let (fields, children) = schema_exec(cs);
        Node::LatticeSchema(LatticeSchemaDef { fields, children })
    } else if k == 4 {
        let (expected_schema, missing_fields, exploration_strategy, children) = frontier_exec(cs);
        Node::LatticeFrontier(LatticeFrontierDef { expected_schema, missing_fields, exploration_strategy, children })
    } else if k == 5 {
        let dynamic = get_setting(&f, "dynamic");
        let target = match crate::blocks::first_value_exec(&f, "target") {
            Some(v) => Some(text::to_string(&v)),
            None => None,
        };
        Node::PressureEffect(PressureEffectDef { dynamic, target })
    } else if k == 6 {
        Node::UnitCell(UnitCellDef { children: cs })
    } else {
        Node::Symmetry(SymmetryDef { children: cs })
    }
}

fn sync_child_err_exec(cs: &Vec<Node>) -> (r: Option<(String, String)>)
    ensures
        match r {
            Some(e) => sync_child_err(cs@) == Some(err_of(e)),
            None => sync_child_err(cs@) is None,
        },
{
    let mut i: usize = 0;
    assert(cs@.skip(0) =~= cs@);
    while i < cs.len()
        invariant
            i <= cs.len(),
            sync_child_err(cs@) == sync_child_err(cs@.skip(i as int)),
        decreases cs.len() - i,
    {
        proof {
            assert(cs@.skip(i as int).drop_first() =~= cs@.skip(i + 1));
            assert(cs@.skip(i as int)[0] == cs@[i as int]);
        }
        match &cs[i] {
            Node::Group(c) if lattice_kind_exec(c) == 0 => {
                let f = sync_fields_exec(&c.children);
                let cl = get_setting(&f, "class");
                if !class_ok_exec(&cl) {
                    return Some((c.name.clone(), cl));
                }
            },
            _ => {},
        }
        i = i + 1;
    }
    None
}

/// Whether `out` is what turning the sub-groups among `cs` into
/// declarations makes of them.
pub open spec fn converted(cs: Seq<Node>, out: Seq<Node>) -> bool {
    &&& out.len() == cs.len()
    &&& forall|i: int|
        0 <= i < cs.len() ==> match #[trigger] cs[i] {
            Node::Group(c) => out[i] matches Node::SyncDef(sd) && sync_def_of(sd, c),
            _ => out[i] == cs[i],
        }
}

fn sync_convert(cs: Vec<Node>) -> (r: Vec<Node>)
    ensures
        converted(cs@, r@),
{
    let ghost orig = cs@;
    let mut todo = cs;
    let mut out: Vec<Node> = Vec::new();
    while todo.len() > 0
        invariant
            out@.len() + todo@.len() == orig.len(),
            todo@ == orig.skip(out@.len() as int),
            forall|i: int|
                0 <= i < out@.len() ==> match #[trigger] orig[i] {
                    Node::Group(c) => out@[i] matches Node::SyncDef(sd) && sync_def_of(sd, c),
                    _ => out@[i] == orig[i],
                },
        decreases todo@.len(),
    {
        let ghost k = out@.len() as int;
        let x = todo.remove(0);
        assert(x == orig[k]);
        assert(todo@ =~= orig.skip(k + 1));
        match x {
            Node::Group(c) => {
                let sd = sync_def_exec(&c);
                out.push(Node::SyncDef(sd));
            },
            other => {
                out.push(other);
            },
        }
    }
    out
}

/// A declaration read from a group is the one read from what the step
/// made of that group.
proof fn lemma_ok_group_fields(c: Group, m: Node)
    requires
        ok_node(Node::Group(c), m),
        !is_lattice(c),
    ensures
        m matches Node::Group(c2) && c2.name == c.name && sync_fields(c2.children@) == sync_fields(
            c.children@,
        ),
{
    match m {
        Node::Group(c2) => {
            if c.name@ == "Sync"@ {
                lemma_sync_ok_fields(c.children@, c2.children@);
            } else {
                lemma_ok_fields(c.children@, c2.children@);
            }
        },
        _ => {},
    }
}

proof fn lemma_sync_seq(ns: Seq<Node>, cs: Seq<Node>, out: Seq<Node>)
    requires
        ok_seq(ns, cs),
        converted(cs, out),
    ensures
        ok_sync_seq(ns, out),
    decreases ns.len(),
{
    if ns.len() > 0 {
        let k = ns.len() - 1;
        assert(converted(cs.drop_last(), out.drop_last())) by {
            assert forall|i: int| 0 <= i < cs.drop_last().len() implies match #[trigger] cs.drop_last()[i] {
                Node::Group(c) => out.drop_last()[i] matches Node::SyncDef(sd) && sync_def_of(sd, c),
                _ => out.drop_last()[i] == cs.drop_last()[i],
            } by {
                assert(cs.drop_last()[i] == cs[i]);
            }
        }
        lemma_sync_seq(ns.drop_last(), cs.drop_last(), out.drop_last());
        assert(cs[k] == cs.last());
        match ns.last() {
            Node::Group(c) if !is_lattice(c) => {
                lemma_ok_group_fields(c, cs.last());
            },
            _ => {
                lemma_ok_keeps(ns.last(), cs.last());
            },
        }
    }
}

/// Once some nodes meet a refused declaration, so do all that begin with
/// them.
proof fn lemma_seq_err_extends(ns: Seq<Node>, j: int)
    requires
        0 <= j <= ns.len(),
        err_seq(ns.take(j)) is Some,
    ensures
        err_seq(ns) == err_seq(ns.take(j)),
    decreases ns.len() - j,
{
    if j < ns.len() {
        let t = ns.take(j + 1);
        assert(t.drop_last() =~= ns.take(j));
        lemma_seq_err_extends(ns, j + 1);
    } else {
        assert(ns.take(j) =~= ns);
    }
}

proof fn lemma_arms_err_extends(arms: Seq<MatchArm>, j: int)
    requires
        0 <= j <= arms.len(),
        err_arms(arms.take(j)) is Some,
    ensures
        err_arms(arms) == err_arms(arms.take(j)),
    decreases arms.len() - j,
{
    if j < arms.len() {
        let t = arms.take(j + 1);
        assert(t.drop_last() =~= arms.take(j));
        lemma_arms_err_extends(arms, j + 1);
    } else {
        assert(arms.take(j) =~= arms);
    }
}

/// Applies the step to some nodes, in order; the first refused
/// declaration stops it.
#[verifier::loop_isolation(false)]
pub fn canon_nodes(ns: Vec<Node>) -> (r: Result<Vec<Node>, (String, String)>)
    ensures
        match r {
            Ok(m) => err_seq(ns@) is None && ok_seq(ns@, m@),
            Err(e) => err_seq(ns@) == Some(err_of(e)),
        },
    decreases ns@,
{
    let ghost orig = ns@;
    let mut todo = ns;
    let mut out: Vec<Node> = Vec::new();
    assert(orig.take(0) =~= Seq::<Node>::empty());
    while todo.len() > 0
        invariant
            out@.len() + todo@.len() == orig.len(),
            todo@ == orig.skip(out@.len() as int),
            err_seq(orig.take(out@.len() as int)) is None,
            ok_seq(orig.take(out@.len() as int), out@),
        decreases todo@.len(),
    {
        let ghost k = out@.len() as int;
        let x = todo.remove(0);
        assert(x == orig[k]);
        assert(todo@ =~= orig.skip(k + 1));
        let ghost cur = orig.take(k + 1);
        proof {
            assert(cur.drop_last() =~= orig.take(k));
            assert(cur.last() == x);
        }
        match canon_node(x) {
            Err(e) => {
                proof {
                    assert(err_seq(cur) == Some(err_of(e)));
                    lemma_seq_err_extends(orig, k + 1);
                }
                return Err(e);
            },
            Ok(m) => {
                let ghost o0 = out@;
                out.push(m);
                proof {
                    assert(out@.drop_last() =~= o0);
                    assert(ok_seq(cur, out@));
                }
            },
        }
    }
    assert(orig.take(orig.len() as int) =~= orig);
    Ok(out)
}

fn canon_opt(o: Option<Vec<Node>>) -> (r: Result<Option<Vec<Node>>, (String, String)>)
    ensures
        match r {
            Ok(o2) => err_opt(o) is None && ok_opt(o, o2),
            Err(e) => err_opt(o) == Some(err_of(e)),
        },
    decreases o,
{
    match o {
        None => Ok(None),
        Some(v) => match canon_nodes(v) {
            Err(e) => Err(e),
            Ok(ms) => Ok(Some(ms)),
        },
    }
}

#[verifier::loop_isolation(false)]
fn canon_arms(arms: Vec<MatchArm>) -> (r: Result<Vec<MatchArm>, (String, String)>)
    ensures
        match r {
            Ok(v) => err_arms(arms@) is None && ok_arms(arms@, v@),
            Err(e) => err_arms(arms@) == Some(err_of(e)),
        },
    decreases arms@,
{
    let ghost orig = arms@;
    let mut todo = arms;
    let mut out: Vec<MatchArm> = Vec::new();
    assert(orig.take(0) =~= Seq::<MatchArm>::empty());
    while todo.len() > 0
        invariant
            out@.len() + todo@.len() == orig.len(),
            todo@ == orig.skip(out@.len() as int),
            err_arms(orig.take(out@.len() as int)) is None,
            ok_arms(orig.take(out@.len() as int), out@),
        decreases todo@.len(),
    {
        let ghost k = out@.len() as int;
        let a = todo.remove(0);
        assert(a == orig[k]);
        assert(todo@ =~= orig.skip(k + 1));
        let ghost cur = orig.take(k + 1);
        proof {
            assert(cur.drop_last() =~= orig.take(k));
            assert(cur.last() == a);
        }
        let MatchArm { pattern, children } = a;
        match canon_nodes(children) {
            Err(e) => {
                proof {
                    assert(err_arms(cur) == Some(err_of(e)));
                    lemma_arms_err_extends(orig, k + 1);
                }
                return Err(e);
            },
            Ok(ms) => {
                let ghost o0 = out@;
                out.push(MatchArm { pattern, children: ms });
                proof {
                    assert(out@.drop_last() =~= o0);
                    assert(ok_arms(cur, out@));
                }
            },
        }
    }
    assert(orig.take(orig.len() as int) =~= orig);
    Ok(out)
}

fn is_sync_name(name: &String) -> (r: bool)
    ensures
        r == (name@ == "Sync"@),
{
    text::eq_str(&text::string_chars(name), "Sync")
}

/// Applies the step to one node.
pub fn canon_node(n: Node) -> (r: Result<Node, (String, String)>)
    ensures
        match r {
            Ok(m) => err_node(n) is None && ok_node(n, m),
            Err(e) => err_node(n) == Some(err_of(e)),
        },
    decreases n,
{
    match n {
        Node::Group(g) => {
            let ghost g0 = g;
            proof {
                lemma_sync_not_lattice(g0);
            }
            let Group { depth, name, atoms, gates, children } = g;
            let ghost cv = children@;
            match canon_nodes(children) {
                Err(e) => Err(e),
                Ok(cs) => {
                    if is_sync_name(&name) {
                        proof {
                            lemma_ok_fields(cv, cs@);
                        }
                        match sync_child_err_exec(&cs) {
                            Some(e) => Err(e),
                            None => {
                                let ghost csv = cs@;
                                let out = sync_convert(cs);
                                proof {
                                    lemma_sync_seq(cv, csv, out@);
                                }
                                let g2 = Group { depth, name, atoms, gates, children: out };
                                assert(same_header(g0, g2));
                                Ok(Node::Group(g2))
                            },
                        }
                    } else {
                        let k = lattice_kind_exec(&Group { depth, name: name.clone(), atoms: Vec::new(), gates: Vec::new(), children: Vec::new() });
                        if k != 0 {
                            let ghost csv = cs@;
                            let m = lattice_node(k, cs);
                            assert(lattice_matches(lattice_kind(g0), csv, m));
                            Ok(m)
                        } else {
                            let g2 = Group { depth, name, atoms, gates, children: cs };
                            assert(same_header(g0, g2));
                            Ok(Node::Group(g2))
                        }
                    }
                },
            }
        },
        Node::Task(t) => {
            let ghost t0 = t;
            let crate::types::Task {
                marker,
                label,
                text: txt,
                inline,
                gates,
                children,
                on_pass,
                on_fail,
                match_arms,
                closes,
                depends,
                validate,
                status,
            } = t;
            let cs = match canon_nodes(children) {
                Err(e) => {
                    return Err(e);
                },
                Ok(cs) => cs,
            };
            let p = match canon_opt(on_pass) {
                Err(e) => {
                    return Err(e);
                },
                Ok(p) => p,
            };
            let f = match canon_opt(on_fail) {
                Err(e) => {
                    return Err(e);
                },
                Ok(f) => f,
            };
            let arms2 = match match_arms {
                None => None,
                Some(arms) => match canon_arms(arms) {
                    Err(e) => {
                        return Err(e);
                    },
                    Ok(v) => Some(v),
                },
            };
            let t2 = crate::types::Task {
                marker,
                label,
                text: txt,
                inline,
                gates,
                children: cs,
                on_pass: p,
                on_fail: f,
                match_arms: arms2,
                closes,
                depends,
                validate,
                status,
            };
            assert(ok_task(t0, t2));
            Ok(Node::Task(t2))
        },
        Node::Validate(v) => {
            let crate::types::ValidateDef { name, meta, children } = v;
            match canon_nodes(children) {
                Err(e) => Err(e),
                Ok(cs) => Ok(Node::Validate(crate::types::ValidateDef { name, meta, children: cs })),
            }
        },
        Node::Conditional(c) => {
            let crate::types::Conditional { condition, children } = c;
            match canon_nodes(children) {
                Err(e) => Err(e),
                Ok(cs) => Ok(Node::Conditional(crate::types::Conditional { condition, children: cs })),
            }
        },
        Node::GateDef(g) => {
            let crate::types::GateDef { name, children } = g;
            match canon_nodes(children) {
                Err(e) => Err(e),
                Ok(cs) => Ok(Node::GateDef(crate::types::GateDef { name, children: cs })),
            }
        },
        Node::LatticeValidates(l) => {
            let LatticeValidatesDef { artifacts, children } = l;
            match canon_nodes(children) {
                Err(e) => Err(e),
                Ok(cs) => Ok(Node::LatticeValidates(LatticeValidatesDef { artifacts, children: cs })),
            }
        },
        Node::LatticeConstraint(l) => {
            let LatticeConstraintDef { constraint_type, rule, applies_to, children } = l;
            match canon_nodes(children) {
                Err(e) => Err(e),
                Ok(cs) => Ok(Node::LatticeConstraint(LatticeConstraintDef { constraint_type, rule, applies_to, children: cs })),
            }
        },
        Node::LatticeSchema(l) => {
            let LatticeSchemaDef { fields, children } = l;
            match canon_nodes(children) {
                Err(e) => Err(e),
                Ok(cs) => Ok(Node::LatticeSchema(LatticeSchemaDef { fields, children: cs })),
            }
        },
        Node::LatticeFrontier(l) => {
            let LatticeFrontierDef { expected_schema, missing_fields, exploration_strategy, children } = l;
            match canon_nodes(children) {
                Err(e) => Err(e),
                Ok(cs) => Ok(
                    Node::LatticeFrontier(LatticeFrontierDef { expected_schema, missing_fields, exploration_strategy, children: cs }),
                ),
            }
        },
        Node::UnitCell(u) => {
            let UnitCellDef { children } = u;
            match canon_nodes(children) {
                Err(e) => Err(e),
                Ok(cs) => Ok(Node::UnitCell(UnitCellDef { children: cs })),
            }
        },
        Node::Symmetry(u) => {
            let SymmetryDef { children } = u;
            match canon_nodes(children) {
                Err(e) => Err(e),
                Ok(cs) => Ok(Node::Symmetry(SymmetryDef { children: cs })),
            }
        },
        Node::ProjectScope(ps) => {
            let ProjectScope { name, children } = ps;
            match canon_nodes(children) {
                Err(e) => Err(e),
                Ok(cs) => Ok(Node::ProjectScope(ProjectScope { name, children: cs })),
            }
        },
        other => Ok(other),
    }
}

} // verus!
