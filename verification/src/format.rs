//! The canonical source form of a document: two spaces per level, no
//! trailing whitespace, one blank line between top-level blocks, and a
//! final newline.
use crate::line;
use crate::text;
use crate::text::{append, append_str, append_string, trim, trim_end};
use crate::types::{
    AttachmentMeta, Atom, Document, FieldDef, FieldDefault, FlowEdge, Gate, Node, Priority, Ref,
    Spawn, TaskKind, TaskMarker, TaskPrefix, VarValue,
};
use vstd::prelude::*;

verus! {

/// One level of indentation in canonical form.
pub open spec fn level() -> Seq<char> {
    "  "@
}

pub open spec fn opt_seq(o: Option<String>) -> Seq<char> {
    match o {
        Some(s) => s@,
        None => Seq::empty(),
    }
}

/// The output lines after writing `t` at indentation `ind`: the text
/// without trailing whitespace, or an empty line.
pub open spec fn push_line(acc: Seq<Seq<char>>, ind: Seq<char>, t: Seq<char>) -> Seq<Seq<char>> {
    let tt = trim_end(t);
    if tt.len() == 0 {
        acc.push(Seq::empty())
    } else {
        acc.push(ind + tt)
    }
}

/// A blank line, unless the last line already is one.
pub open spec fn blank_if_needed(acc: Seq<Seq<char>>) -> Seq<Seq<char>> {
    if acc.len() == 0 || acc.last().len() != 0 {
        acc.push(Seq::empty())
    } else {
        acc
    }
}

/// Nodes separated from a preceding block by a blank line at the top level.
pub open spec fn is_block(n: Node) -> bool {
    match n {
        Node::Group(_) | Node::Define(_) | Node::Mutate(_) | Node::Query(_) | Node::Flow(_)
        | Node::States(_) | Node::Validate(_) | Node::Form(_) | Node::ModDef(_)
        | Node::Conditional(_) | Node::GateDef(_) | Node::CodeBlock(_) | Node::FilesDef(_)
        | Node::PolicyDef(_) | Node::SyncDef(_) | Node::Git(_) | Node::Check(_) | Node::EntityDef(_) | Node::UseBlock(_) | Node::MetricDef(_)
        | Node::LatticeValidates(_) | Node::LatticeConstraint(_) | Node::LatticeSchema(_)
        | Node::LatticeFrontier(_) | Node::UnitCell(_) | Node::Symmetry(_) | Node::ProjectScope(_) => true,
        _ => false,
    }
}

/// `{name}` or `{name body}`.
pub open spec fn gate_str(g: Gate) -> Seq<char> {
    match g.body {
        Some(b) => "{"@ + g.name@ + " "@ + b@ + "}"@,
        None => "{"@ + g.name@ + "}"@,
    }
}

/// `:name` or `:name:value`.
pub open spec fn atom_str(a: Atom) -> Seq<char> {
    match a.value {
        Some(v) => ":"@ + a.name@ + ":"@ + v@,
        None => ":"@ + a.name@,
    }
}

/// ` :atom` for each atom.
pub open spec fn atoms_str(atoms: Seq<Atom>) -> Seq<char>
    decreases atoms.len(),
{
    if atoms.len() == 0 {
        Seq::empty()
    } else {
        atoms_str(atoms.drop_last()) + " "@ + atom_str(atoms.last())
    }
}

/// ` {gate}` for each gate.
pub open spec fn gates_str(gates: Seq<Gate>) -> Seq<char>
    decreases gates.len(),
{
    if gates.len() == 0 {
        Seq::empty()
    } else {
        gates_str(gates.drop_last()) + " "@ + gate_str(gates.last())
    }
}

/// The entity after a `define:`, `mutate:`, `delete:` or `query:` keyword:
/// `@workspace:W.@E`, `$M.@E` or `@E`.
pub open spec fn entity_ref(entity: Seq<char>, ms: Option<String>, ws: Option<String>) -> Seq<char> {
    match ws {
        Some(w) => "@workspace:"@ + w@ + ".@"@ + entity,
        None => match ms {
            Some(m) => "$"@ + m@ + ".@"@ + entity,
            None => "@"@ + entity,
        },
    }
}

/// A reference: workspace and mod scope, `@`, the path joined by `.`, and
/// `s` when plural.
pub open spec fn ref_str(r: Ref) -> Seq<char> {
    (match r.workspace_scope {
        Some(w) => "@workspace:"@ + w@ + "/"@,
        None => Seq::empty(),
    }) + (match r.mod_scope {
        Some(m) => "$"@ + m@ + "."@,
        None => Seq::empty(),
    }) + "@"@ + text::join(text::str_views(r.path@), "."@) + (if r.plural {
        "s"@
    } else {
        Seq::empty()
    })
}

pub open spec fn prefix_str(p: TaskPrefix) -> Seq<char> {
    match p {
        TaskPrefix::Unset => Seq::empty(),
        TaskPrefix::Parallel => "+"@,
        TaskPrefix::ParallelSubtask => "++"@,
        TaskPrefix::Subtask(n) => text::repeat("-"@, n as nat),
    }
}

/// What stands between the brackets of a task marker.
pub open spec fn marker_inside(m: TaskMarker, label: Option<String>) -> Seq<char> {
    match m.seq {
        Some(n) => text::decimal(n as nat) + match m.kind {
            TaskKind::Required => "!"@,
            TaskKind::Optional => "o"@,
            _ => Seq::empty(),
        },
        None => match label {
            Some(l) => match m.kind {
                TaskKind::Required => l@ + "!"@,
                TaskKind::Optional => l@ + "o"@,
                TaskKind::Open => if m.priority == Priority::Decision {
                    l@ + "?"@
                } else {
                    l@
                },
                _ => l@,
            },
            None => match m.kind {
                TaskKind::Required => "!"@,
                TaskKind::Optional => "o"@,
                TaskKind::Completed => "x"@,
                TaskKind::Open => " "@,
            },
        },
    }
}

pub open spec fn marker_str(m: TaskMarker, label: Option<String>) -> Seq<char> {
    prefix_str(m.prefix) + "["@ + marker_inside(m, label) + "]"@
}

pub open spec fn colon_items(v: Seq<String>) -> Seq<Seq<char>> {
    v.map_values(|o: String| ":"@ + o@)
}

pub open spec fn default_str(d: FieldDefault) -> Seq<char> {
    match d {
        FieldDefault::Str(s) => "\""@ + s@ + "\""@,
        FieldDefault::Int(n) => text::signed_decimal(n as int),
        FieldDefault::Float(f) => f@,
        FieldDefault::Bool(b) => if b {
            "true"@
        } else {
            "false"@
        },
        FieldDefault::Atom(a) => ":"@ + a@,
        FieldDefault::Enum(v) => "["@ + text::join(colon_items(v@), " | "@) + "]"@,
        FieldDefault::Ref(r) => "@"@ + r@,
        FieldDefault::List => "[]"@,
        FieldDefault::Timestamp(t) => "timestamp("@ + t@ + ")"@,
        FieldDefault::Nil => "nil"@,
    }
}

/// `name: default`, with `s` after a plural name.
pub open spec fn field_str(f: FieldDef) -> Seq<char> {
    f.name@ + (if f.plural {
        "s"@
    } else {
        Seq::empty()
    }) + ": "@ + default_str(f.default)
}

/// One end of an edge: the single name, or the names in brackets.
pub open spec fn edge_end(names: Seq<String>) -> Seq<char> {
    if names.len() == 1 {
        names[0]@
    } else {
        "["@ + text::join(text::str_views(names), ", "@) + "]"@
    }
}

/// `from --> to` (`+-->` when parallel, as flow lines write them), then
/// label, gate, wait, timeout.
pub open spec fn edge_str(e: FlowEdge) -> Seq<char> {
    edge_end(e.from@) + (if e.parallel {
        " +--> "@
    } else {
        " --> "@
    }) + edge_end(e.to@) + (match e.label {
        Some(l) => " \""@ + l@ + "\""@,
        None => Seq::empty(),
    }) + (match e.gate {
        Some(g) => " gate:"@ + g@,
        None => Seq::empty(),
    }) + (match e.wait {
        Some(w) => " wait:"@ + w@,
        None => Seq::empty(),
    }) + (match e.timeout {
        Some(t) => " timeout:"@ + t@,
        None => Seq::empty(),
    })
}

/// The right-hand side of a variable.
pub open spec fn rhs_str(v: VarValue) -> Seq<char> {
    match v {
        VarValue::Literal(s) => s@,
        VarValue::Compute(c) => if c.live {
            "||"@ + c.expr@ + "||"@
        } else {
            "|"@ + c.expr@ + "|"@
        },
        VarValue::Ref(r) => ref_str(r),
    }
}

/// The final text: the lines without trailing blank ones, joined by
/// newlines, and a newline.
pub open spec fn strip_blank_tail(ls: Seq<Seq<char>>) -> Seq<Seq<char>>
    decreases ls.len(),
{
    if ls.len() > 0 && ls.last().len() == 0 {
        strip_blank_tail(ls.drop_last())
    } else {
        ls
    }
}

pub open spec fn finish_spec(ls: Seq<Seq<char>>) -> Seq<char> {
    text::join(strip_blank_tail(ls), "\n"@) + "\n"@
}


// ── The lines of nodes ─────────────────────────────────────────

/// Writes each text as a line at indentation `ind`.
pub open spec fn push_lines(acc: Seq<Seq<char>>, ind: Seq<char>, ts: Seq<Seq<char>>) -> Seq<Seq<char>>
    decreases ts.len(),
{
    if ts.len() == 0 {
        acc
    } else {
        push_line(push_lines(acc, ind, ts.drop_last()), ind, ts.last())
    }
}

pub open spec fn opt_item(label: Seq<char>, o: Option<String>) -> Seq<Seq<char>> {
    match o {
        Some(x) => seq![label + x@],
        None => Seq::empty(),
    }
}

pub open spec fn list_item(label: Seq<char>, v: Seq<String>) -> Seq<Seq<char>> {
    if v.len() > 0 {
        seq![label + text::join(text::str_views(v), ", "@)]
    } else {
        Seq::empty()
    }
}

/// The setting lines of a `validate` block.
pub open spec fn meta_texts(m: AttachmentMeta) -> Seq<Seq<char>> {
    opt_item("id: "@, m.id) + list_item("targets: "@, m.targets@) + list_item(
        "requires: "@,
        m.requires@,
    ) + list_item("blocks: "@, m.blocks@) + list_item("depends_on: "@, m.depends_on@)
}

pub open spec fn kv_texts(ps: Seq<(String, String)>) -> Seq<Seq<char>> {
    ps.map_values(|p: (String, String)| p.0@ + ": "@ + p.1@)
}

pub open spec fn batch_lines(acc: Seq<Seq<char>>, ind: Seq<char>, recs: Seq<crate::types::BatchRecord>) -> Seq<Seq<char>>
    decreases recs.len(),
{
    if recs.len() == 0 {
        acc
    } else {
        push_lines(
            push_line(batch_lines(acc, ind, recs.drop_last()), ind, "- id: "@ + recs.last().id@),
            ind + level(),
            kv_texts(recs.last().fields@),
        )
    }
}

pub open spec fn query_texts(q: crate::types::Query) -> Seq<Seq<char>> {
    opt_item("filter: "@, q.filter) + opt_item("sort: "@, q.sort) + (match q.limit {
        Some(l) => seq!["limit: "@ + text::decimal(l as nat)],
        None => Seq::empty(),
    }) + (match q.includes {
        Some(v) => seq!["include: "@ + text::join(text::str_views(v@), ", "@)],
        None => Seq::empty(),
    }) + opt_item("from_snapshot: "@, q.from_snapshot)
}

pub open spec fn form_texts(f: crate::types::FormDef) -> Seq<Seq<char>> {
    (match f.schema_version {
        Some(v) => seq!["schema_version: "@ + text::decimal(v as nat)],
        None => Seq::empty(),
    }) + opt_item("ui_layout: "@, f.ui_layout) + f.ui_pages@.map_values(
        |p: String| "ui_page: "@ + p@,
    ) + opt_item("storage_canonical: "@, f.storage.canonical) + opt_item(
        "storage_entity: "@,
        f.storage.entity,
    ) + opt_item("storage_duckdb: "@, f.storage.duckdb) + f.projections@.map_values(
        |p: crate::types::FormProjectionDef| "projection_"@ + p.target@ + ": "@ + p.mapping@,
    ) + f.fields@.map_values(|x: FieldDef| field_str(x))
}

pub open spec fn mod_texts(m: crate::types::ModDef) -> Seq<Seq<char>> {
    opt_item("kind: "@, m.kind) + opt_item("description: "@, m.description) + (match m.trigger {
        Some(t) => seq!["trigger: "@ + text::join(text::str_views(t@), ", "@)],
        None => Seq::empty(),
    }) + kv_texts(m.body@)
}

pub open spec fn invoke_str(m: crate::types::ModInvoke) -> Seq<char> {
    "$"@ + m.name@ + (match m.method {
        Some(x) => "."@ + x@,
        None => Seq::empty(),
    }) + (match m.args {
        Some(a) => "("@ + a@ + ")"@,
        None => Seq::empty(),
    })
}

/// The header line of a node without child nodes, and the lines of its
/// body one level deeper.
pub open spec fn leaf_head(n: Node) -> Seq<char> {
    match n {
        Node::Prose(p) => p.text@,
        Node::Comment(c) => "// "@ + c.text@,
        Node::Spawn(sp) => if sp == Spawn::Parallel {
            "+"@
        } else {
            "++"@
        },
        Node::Divider => "---"@,
        Node::Define(d) => "define:"@ + entity_ref(d.entity@, d.mod_scope, d.workspace_scope)
            + atoms_str(d.atoms@) + match d.from_scope {
            Some(f) => " from @"@ + f@,
            None => Seq::empty(),
        },
        Node::Mutate(m) => "mutate:"@ + entity_ref(m.entity@, m.mod_scope, m.workspace_scope)
            + match m.id {
            Some(i) => ":"@ + i@,
            None => Seq::empty(),
        } + match m.gate {
            Some(g) => " "@ + gate_str(g),
            None => Seq::empty(),
        },
        Node::Delete(d) => "delete:"@ + entity_ref(d.entity@, d.mod_scope, d.workspace_scope) + ":"@
            + d.id@,
        Node::Query(q) => "query:"@ + entity_ref(q.entity@, q.mod_scope, q.workspace_scope) + (if q.plural {
            "s"@
        } else {
            Seq::empty()
        }),
        Node::Variable(v) => v.name@ + " = "@ + rhs_str(v.value),
        Node::Flow(_) => "flow:"@,
        Node::States(_) => "states:"@,
        Node::Form(f) => "form: "@ + f.name@,
        Node::ModDef(m) => "mod:$"@ + m.name@ + (if m.versioned {
            "@versioned"@
        } else {
            Seq::empty()
        }),
        Node::ModInvoke(m) => invoke_str(m),
        Node::Snap(x) => "snap: \""@ + x.name@ + "\""@,
        Node::Diff(d) => "diff:"@ + d.target@ + match d.from_snapshot {
            Some(x) => " from snap:"@ + x@,
            None => Seq::empty(),
        },
        Node::History(h) => "history:"@ + h.target@ + match h.limit {
            Some(l) => " limit:"@ + text::decimal(l as nat),
            None => Seq::empty(),
        },
        Node::StatusDef(x) => "status: "@ + text::join(text::str_views(x.options@), " / "@),
        Node::Routine(r) => if r.expr@.len() == 0 {
            "routine: "@ + r.trigger@
        } else {
            "routine: "@ + r.trigger@ + " | "@ + r.expr@
        },
        Node::Bold(b) => "**"@ + b.text@ + "**"@,
        Node::Remember(r) => "remember: \""@ + r.content@ + "\""@,
        Node::Recall(r) => "recall: \""@ + r.query@ + "\""@,
        Node::EmbedMarker(e) => "^"@ + e.tag@,
        Node::Escalate(e) => "escalate: "@ + e.target@,
        Node::CodeBlock(cb) => "```"@ + opt_seq(cb.lang),
        Node::Webhook(w) => "webhook: "@ + w.trigger@ + " "@ + w.url@,
        Node::FilesDef(_) => "files:"@,
        Node::PolicyDef(_) => "policy:"@,
        Node::SyncDef(sd) => "sync: "@ + sd.name@,
        Node::Git(g) => "git:"@ + g.verb@ + " "@ + g.args@,
        Node::Check(c) => "check: "@ + c.name@,
        Node::EntityDef(e) => "## Entity: "@ + e.name@,
        Node::Serve(sv) => "serve:"@ + sv.target@ + " | "@ + sv.command@,
        Node::MetricDef(m) => "## Metric: "@ + m.name@,
        Node::UseBlock(u) => match u.entity {
            Some(e) => "use @"@ + e@ + " from "@ + u.mod_name@ + opt_seq_with(" as @"@, u.alias),
            None => "use "@ + u.mod_name@,
        },
        _ => Seq::empty(),
    }
}

pub open spec fn leaf_body(n: Node) -> Seq<Seq<char>> {
    match n {
        Node::Define(d) => d.fields@.map_values(|x: FieldDef| field_str(x)),
        Node::Mutate(m) => if m.batch is Some {
            Seq::empty()
        } else {
            kv_texts(m.fields@)
        },
        Node::Query(q) => query_texts(q),
        Node::Flow(f) => f.edges@.map_values(|e: FlowEdge| edge_str(e)),
        Node::States(st) => st.transitions@.map_values(|e: FlowEdge| edge_str(e)),
        Node::Form(f) => form_texts(f),
        Node::ModDef(m) => mod_texts(m),
        Node::Webhook(w) => match w.payload {
            Some(p) => seq!["payload: "@ + p@],
            None => Seq::empty(),
        },
        Node::FilesDef(f) => f.paths@.map_values(|p: String| "@"@ + p@),
        Node::PolicyDef(p) => p.rules@.map_values(
            |r: crate::types::PolicyRule| "@"@ + r.path@ + gates_str(r.gates@),
        ),
        Node::SyncDef(sd) => sync_texts(sd),
        Node::Git(g) => kv_texts(g.body@),
        Node::Check(c) => meta_texts(c.meta) + kv_texts(c.body@),
        Node::EntityDef(e) => entity_texts(e),
        Node::UseBlock(u) => kv_texts(u.config@),
        Node::Serve(sv) => opt_item("port: "@, sv.port) + opt_item("open: "@, sv.open),
        Node::MetricDef(m) => metric_texts(m),
        _ => Seq::empty(),
    }
}

/// `prefix` and the value, when there is one.
pub open spec fn opt_seq_with(prefix: Seq<char>, o: Option<String>) -> Seq<char> {
    match o {
        Some(v) => prefix + v@,
        None => Seq::empty(),
    }
}

/// The setting lines of a metric.
pub open spec fn metric_texts(m: crate::types::MetricDef) -> Seq<Seq<char>> {
    opt_item("source: "@, m.source) + opt_item("grain: "@, m.grain) + (if m.dimensions@.len() > 0 {
        seq!["dimensions: "@ + text::join(text::str_views(m.dimensions@), ", "@)]
    } else {
        Seq::empty()
    }) + seq!["formula: "@ + m.formula@] + (if m.cross_source {
        seq!["cross_source: true"@]
    } else {
        Seq::empty()
    })
}

/// The setting lines of an entity, then its fields one level deeper.
pub open spec fn entity_texts(e: crate::types::EntityDef) -> Seq<Seq<char>> {
    seq!["source: "@ + e.source@, "namespace: "@ + e.namespace@, "identity: "@ + e.identity@, "fields:"@]
        + e.fields@.map_values(|f: crate::types::EntityField| level() + f.name@ + ": "@ + f.field_type@)
}

/// The setting lines of a sync declaration.
pub open spec fn sync_texts(sd: crate::types::SyncDef) -> Seq<Seq<char>> {
    seq![
        "class: "@ + sd.class@,
        "source: "@ + sd.source@,
        "identity: "@ + sd.identity@,
        "mode: "@ + sd.mode@,
        "target: "@ + sd.target@,
        "schedule: "@ + sd.schedule@,
        "scope: "@ + sd.scope@,
    ]
}

/// The lines of a node without child nodes.
pub open spec fn leaf_lines(acc: Seq<Seq<char>>, n: Node, ind: Seq<char>) -> Seq<Seq<char>> {
    let a = push_lines(push_line(acc, ind, leaf_head(n)), ind + level(), leaf_body(n));
    match n {
        Node::CodeBlock(cb) => push_line(push_lines(push_line(acc, ind, leaf_head(n)), ind, text::lines(cb.content@)), ind, "```"@),
        Node::Mutate(m) => match m.batch {
            Some(b) => batch_lines(a, ind + level(), b@),
            None => a,
        },
        _ => a,
    }
}

/// The header line of a task.
pub open spec fn task_head(t: crate::types::Task) -> Seq<char> {
    marker_str(t.marker, t.label) + " "@ + trim(t.text@) + gates_str(t.gates@) + match t.closes {
        Some(c) => " git:closes #"@ + text::decimal(c as nat),
        None => Seq::empty(),
    }
}

pub open spec fn task_fields(t: crate::types::Task) -> Seq<Seq<char>> {
    opt_item("depends: "@, t.depends) + opt_item("validate: "@, t.validate) + opt_item(
        "status: "@,
        t.status,
    )
}

/// The lines of a sequence of nodes; at the top level, consecutive blocks
/// are separated by a blank line.
pub open spec fn nodes_lines(acc: Seq<Seq<char>>, ns: Seq<Node>, ind: Seq<char>, top: bool) -> Seq<Seq<char>>
    decreases ns,
{
    if ns.len() == 0 {
        acc
    } else {
        let a = nodes_lines(acc, ns.drop_last(), ind, top);
        let a2 = if top && ns.len() >= 2 && is_block(ns.last()) && is_block(ns[ns.len() - 2]) {
            blank_if_needed(a)
        } else {
            a
        };
        node_lines(a2, ns.last(), ind)
    }
}

pub open spec fn section_lines(acc: Seq<Seq<char>>, o: Option<Vec<Node>>, ind: Seq<char>, label: Seq<char>) -> Seq<Seq<char>>
    decreases o,
{
    match o {
        Some(p) => nodes_lines(push_line(acc, ind + level(), label), p@, ind + level() + level(), false),
        None => acc,
    }
}

pub open spec fn arms_lines(acc: Seq<Seq<char>>, arms: Seq<crate::types::MatchArm>, ind: Seq<char>) -> Seq<Seq<char>>
    decreases arms,
{
    if arms.len() == 0 {
        acc
    } else {
        nodes_lines(
            push_line(arms_lines(acc, arms.drop_last(), ind), ind + level(), "match "@ + arms.last().pattern@ + ":"@),
            arms.last().children@,
            ind + level() + level(),
            false,
        )
    }
}

pub open spec fn arms_opt(acc: Seq<Seq<char>>, o: Option<Vec<crate::types::MatchArm>>, ind: Seq<char>) -> Seq<Seq<char>>
    decreases o,
{
    match o {
        Some(a) => arms_lines(acc, a@, ind),
        None => acc,
    }
}

pub open spec fn task_lines(acc: Seq<Seq<char>>, t: crate::types::Task, ind: Seq<char>) -> Seq<Seq<char>>
    decreases t,
{
    let a1 = push_lines(push_line(acc, ind, task_head(t)), ind + level(), task_fields(t));
    let a2 = nodes_lines(a1, t.children@, ind + level(), false);
    let a3 = section_lines(a2, t.on_pass, ind, "on_pass:"@);
    let a4 = section_lines(a3, t.on_fail, ind, "on_fail:"@);
    arms_opt(a4, t.match_arms, ind)
}

/// A field check of a validated artifact, on one line.
pub open spec fn check_str(c: crate::types::LatticeFieldCheck) -> Seq<char> {
    "check: "@ + c.field@ + " required: "@ + (if c.required {
        "true"@
    } else {
        "false"@
    }) + match c.min_items {
        Some(n) => " min_items: "@ + text::decimal(n as nat),
        None => Seq::empty(),
    }
}

/// The lines of a lattice section's artifacts: each `artifact:` one level
/// deeper, its schema and checks two levels deeper.
pub open spec fn arts_lines(acc: Seq<Seq<char>>, arts: Seq<crate::types::LatticeArtifactRef>, ind: Seq<char>) -> Seq<Seq<char>>
    decreases arts.len(),
{
    if arts.len() == 0 {
        acc
    } else {
        let a = arts.last();
        push_lines(
            push_lines(
                push_line(arts_lines(acc, arts.drop_last(), ind), ind + level(), "artifact: "@ + a.artifact@),
                ind + level() + level(),
                opt_item("schema: "@, a.schema),
            ),
            ind + level() + level(),
            a.checks@.map_values(|c: crate::types::LatticeFieldCheck| check_str(c)),
        )
    }
}

/// The lines of a lattice schema's fields.
pub open spec fn schema_lines(acc: Seq<Seq<char>>, fs: Seq<crate::types::LatticeSchemaField>, ind: Seq<char>) -> Seq<Seq<char>>
    decreases fs.len(),
{
    if fs.len() == 0 {
        acc
    } else {
        let f = fs.last();
        push_lines(
            push_line(schema_lines(acc, fs.drop_last(), ind), ind + level(), "name: "@ + f.name@),
            ind + level() + level(),
            seq!["type: "@ + f.field_type@] + (if f.required {
                seq!["required: true"@]
            } else {
                Seq::empty()
            }),
        )
    }
}

pub open spec fn prefixed(label: Seq<char>, vs: Seq<String>) -> Seq<Seq<char>> {
    vs.map_values(|v: String| label + v@)
}

/// The header and setting lines of a lattice section, before its children.
pub open spec fn lattice_lines(acc: Seq<Seq<char>>, n: Node, ind: Seq<char>) -> Seq<Seq<char>> {
    match n {
        Node::LatticeValidates(l) => arts_lines(push_line(acc, ind, "lattice_validates:"@), l.artifacts@, ind),
        Node::LatticeConstraint(l) => push_lines(
            push_line(acc, ind, "lattice_constraint: "@ + match l.constraint_type {
                Some(t) => t@,
                None => Seq::empty(),
            }),
            ind + level(),
            seq!["rule: "@ + l.rule@] + (if l.applies_to@.len() > 0 {
                seq!["applies_to: "@ + text::join(text::str_views(l.applies_to@), ", "@)]
            } else {
                Seq::empty()
            }),
        ),
        Node::LatticeSchema(l) => schema_lines(push_line(acc, ind, "lattice_schema:"@), l.fields@, ind),
        Node::LatticeFrontier(l) => push_lines(
            push_line(acc, ind, "lattice_frontier:"@),
            ind + level(),
            opt_item("expected_schema: "@, l.expected_schema) + prefixed("missing_field: "@, l.missing_fields@)
                + prefixed("strategy: "@, l.exploration_strategy@),
        ),
        Node::PressureEffect(p) => push_lines(
            push_line(acc, ind, "pressure_effect:"@),
            ind + level(),
            seq!["dynamic: "@ + p.dynamic@] + opt_item("target: "@, p.target),
        ),
        Node::UnitCell(_) => push_line(acc, ind, "unit_cell:"@),
        Node::Symmetry(_) => push_line(acc, ind, "symmetry:"@),
        _ => acc,
    }
}

/// The lines of a node at indentation `ind`.
pub open spec fn node_lines(acc: Seq<Seq<char>>, n: Node, ind: Seq<char>) -> Seq<Seq<char>>
    decreases n,
{
    match n {
        Node::Group(g) => nodes_lines(
            push_line(acc, ind, text::repeat("#"@, g.depth as nat) + " "@ + g.name@ + atoms_str(g.atoms@) + gates_str(g.gates@)),
            g.children@,
            ind + level(),
            false,
        ),
        Node::Task(t) => task_lines(acc, t, ind),
        Node::Validate(v) => nodes_lines(
            push_lines(push_line(acc, ind, "validate "@ + v.name@ + ":"@), ind + level(), meta_texts(v.meta)),
            v.children@,
            ind + level(),
            false,
        ),
        Node::Conditional(c) => nodes_lines(
            push_line(acc, ind, "if "@ + (if c.condition.live {
                "||"@ + c.condition.expr@ + "||"@
            } else {
                "|"@ + c.condition.expr@ + "|"@
            }) + ":"@),
            c.children@,
            ind + level(),
            false,
        ),
        Node::GateDef(g) => nodes_lines(push_line(acc, ind, "gate: "@ + g.name@), g.children@, ind + level(), false),
        Node::LatticeValidates(l) => nodes_lines(lattice_lines(acc, n, ind), l.children@, ind + level(), false),
        Node::LatticeConstraint(l) => nodes_lines(lattice_lines(acc, n, ind), l.children@, ind + level(), false),
        Node::LatticeSchema(l) => nodes_lines(lattice_lines(acc, n, ind), l.children@, ind + level(), false),
        Node::LatticeFrontier(l) => nodes_lines(lattice_lines(acc, n, ind), l.children@, ind + level(), false),
        Node::UnitCell(u) => nodes_lines(lattice_lines(acc, n, ind), u.children@, ind + level(), false),
        Node::Symmetry(u) => nodes_lines(lattice_lines(acc, n, ind), u.children@, ind + level(), false),
        Node::PressureEffect(_) => lattice_lines(acc, n, ind),
        Node::ProjectScope(ps) => nodes_lines(push_line(acc, ind, "%"@ + ps.name@), ps.children@, ind + level(), false),
        _ => leaf_lines(acc, n, ind),
    }
}

/// The canonical text of a document.
pub open spec fn format_spec(doc: Document) -> Seq<char> {
    finish_spec(nodes_lines(Seq::empty(), doc.nodes@, Seq::empty(), true))
}


// ── Building line texts ────────────────────────────────────────

fn push_opt_seq(out: &mut Vec<char>, o: &Option<String>)
    ensures
        final(out)@ == old(out)@ + opt_seq(*o),
{
    match o {
        Some(x) => append_string(out, x),
        None => {
            assert(old(out)@ + Seq::<char>::empty() =~= old(out)@);
        },
    }
}

fn gate_str_exec(g: &Gate) -> (r: Vec<char>)
    ensures
        r@ == gate_str(*g),
{
    let mut out = text::str_chars("{");
    append_string(&mut out, &g.name);
    match &g.body {
        Some(b) => {
            append_str(&mut out, " ");
            append_string(&mut out, b);
        },
        None => {},
    }
    append_str(&mut out, "}");
    assert(out@ =~= gate_str(*g));
    out
}

fn atom_str_exec(a: &Atom) -> (r: Vec<char>)
    ensures
        r@ == atom_str(*a),
{
    let mut out = text::str_chars(":");
    append_string(&mut out, &a.name);
    match &a.value {
        Some(v) => {
            append_str(&mut out, ":");
            append_string(&mut out, v);
        },
        None => {},
    }
    assert(out@ =~= atom_str(*a));
    out
}

fn push_atoms(out: &mut Vec<char>, atoms: &Vec<Atom>)
    ensures
        final(out)@ == old(out)@ + atoms_str(atoms@),
{
    let mut i: usize = 0;
    assert(atoms@.take(0) =~= Seq::<Atom>::empty());
    assert(old(out)@ + Seq::<char>::empty() =~= old(out)@);
    while i < atoms.len()
        invariant
            i <= atoms.len(),
            out@ == old(out)@ + atoms_str(atoms@.take(i as int)),
        decreases atoms.len() - i,
    {
        assert(atoms@.take(i + 1).drop_last() =~= atoms@.take(i as int));
        append_str(out, " ");
        append(out, &atom_str_exec(&atoms[i]));
        i = i + 1;
        assert(out@ =~= old(out)@ + atoms_str(atoms@.take(i as int)));
    }
    assert(atoms@.take(atoms.len() as int) =~= atoms@);
}

fn push_gates(out: &mut Vec<char>, gates: &Vec<Gate>)
    ensures
        final(out)@ == old(out)@ + gates_str(gates@),
{
    let mut i: usize = 0;
    assert(gates@.take(0) =~= Seq::<Gate>::empty());
    assert(old(out)@ + Seq::<char>::empty() =~= old(out)@);
    while i < gates.len()
        invariant
            i <= gates.len(),
            out@ == old(out)@ + gates_str(gates@.take(i as int)),
        decreases gates.len() - i,
    {
        assert(gates@.take(i + 1).drop_last() =~= gates@.take(i as int));
        append_str(out, " ");
        append(out, &gate_str_exec(&gates[i]));
        i = i + 1;
        assert(out@ =~= old(out)@ + gates_str(gates@.take(i as int)));
    }
    assert(gates@.take(gates.len() as int) =~= gates@);
}

fn push_entity_ref(out: &mut Vec<char>, entity: &String, ms: &Option<String>, ws: &Option<String>)
    ensures
        final(out)@ == old(out)@ + entity_ref(entity@, *ms, *ws),
{
    match ws {
        Some(w) => {
            append_str(out, "@workspace:");
            append_string(out, w);
            append_str(out, ".@");
        },
        None => match ms {
            Some(m) => {
                append_str(out, "$");
                append_string(out, m);
                append_str(out, ".@");
            },
            None => append_str(out, "@"),
        },
    }
    append_string(out, entity);
    assert(out@ =~= old(out)@ + entity_ref(entity@, *ms, *ws));
}

fn join_strs(v: &Vec<String>, sep: &str) -> (r: Vec<char>)
    ensures
        r@ == text::join(text::str_views(v@), sep@),
{
    text::join_str(&text::from_strings(v), sep)
}

fn ref_str_exec(r: &Ref) -> (out: Vec<char>)
    ensures
        out@ == ref_str(*r),
{
    let mut out: Vec<char> = Vec::new();
    match &r.workspace_scope {
        Some(w) => {
            append_str(&mut out, "@workspace:");
            append_string(&mut out, w);
            append_str(&mut out, "/");
        },
        None => {},
    }
    let ghost o1 = out@;
    match &r.mod_scope {
        Some(m) => {
            append_str(&mut out, "$");
            append_string(&mut out, m);
            append_str(&mut out, ".");
        },
        None => {},
    }
    append_str(&mut out, "@");
    append(&mut out, &join_strs(&r.path, "."));
    if r.plural {
        append_str(&mut out, "s");
    }
    assert(out@ =~= ref_str(*r));
    out
}

fn marker_inside_exec(m: &TaskMarker, label: &Option<String>) -> (out: Vec<char>)
    ensures
        out@ == marker_inside(*m, *label),
{
    match m.seq {
        Some(n) => {
            let mut out = text::decimal_u64_chars(n as u64);
            match m.kind {
                TaskKind::Required => append_str(&mut out, "!"),
                TaskKind::Optional => append_str(&mut out, "o"),
                _ => {},
            }
            assert(out@ =~= marker_inside(*m, *label));
            out
        },
        None => match label {
            Some(l) => {
                let mut out = text::string_chars(l);
                match m.kind {
                    TaskKind::Required => append_str(&mut out, "!"),
                    TaskKind::Optional => append_str(&mut out, "o"),
                    TaskKind::Open => {
                        match m.priority {
                            Priority::Decision => append_str(&mut out, "?"),
                            _ => {},
                        }
                    },
                    _ => {},
                }
                assert(out@ =~= marker_inside(*m, *label));
                out
            },
            None => match m.kind {
                TaskKind::Required => text::str_chars("!"),
                TaskKind::Optional => text::str_chars("o"),
                TaskKind::Completed => text::str_chars("x"),
                TaskKind::Open => text::str_chars(" "),
            },
        },
    }
}

fn marker_str_exec(m: &TaskMarker, label: &Option<String>) -> (out: Vec<char>)
    ensures
        out@ == marker_str(*m, *label),
{
    let mut out: Vec<char> = match m.prefix {
        TaskPrefix::Unset => Vec::new(),
        TaskPrefix::Parallel => text::str_chars("+"),
        TaskPrefix::ParallelSubtask => text::str_chars("++"),
        TaskPrefix::Subtask(n) => text::repeat_str("-", n as usize),
    };
    assert(out@ =~= prefix_str(m.prefix));
    append_str(&mut out, "[");
    append(&mut out, &marker_inside_exec(m, label));
    append_str(&mut out, "]");
    assert(out@ =~= marker_str(*m, *label));
    out
}

fn default_str_exec(d: &FieldDefault) -> (out: Vec<char>)
    ensures
        out@ == default_str(*d),
{
    let mut out: Vec<char> = Vec::new();
    match d {
        FieldDefault::Str(x) => {
            append_str(&mut out, "\"");
            append_string(&mut out, x);
            append_str(&mut out, "\"");
        },
        FieldDefault::Int(n) => text::append_signed(&mut out, *n),
        FieldDefault::Float(x) => append_string(&mut out, x),
        FieldDefault::Bool(b) => if *b {
            append_str(&mut out, "true")
        } else {
            append_str(&mut out, "false")
        },
        FieldDefault::Atom(a) => {
            append_str(&mut out, ":");
            append_string(&mut out, a);
        },
        FieldDefault::Enum(v) => {
            let mut parts: Vec<Vec<char>> = Vec::new();
            let mut i: usize = 0;
            while i < v.len()
                invariant
                    i <= v.len(),
                    text::views(parts@) == colon_items(v@).take(i as int),
                decreases v.len() - i,
            {
                let mut p = text::str_chars(":");
                append_string(&mut p, &v[i]);
                proof {
                    text::lemma_views_push(parts@, p);
                }
                parts.push(p);
                i = i + 1;
                assert(text::views(parts@) =~= colon_items(v@).take(i as int));
            }
            assert(colon_items(v@).take(v.len() as int) =~= colon_items(v@));
            append_str(&mut out, "[");
            append(&mut out, &text::join_str(&parts, " | "));
            append_str(&mut out, "]");
        },
        FieldDefault::Ref(r) => {
            append_str(&mut out, "@");
            append_string(&mut out, r);
        },
        FieldDefault::List => append_str(&mut out, "[]"),
        FieldDefault::Timestamp(t) => {
            append_str(&mut out, "timestamp(");
            append_string(&mut out, t);
            append_str(&mut out, ")");
        },
        FieldDefault::Nil => append_str(&mut out, "nil"),
    }
    assert(out@ =~= default_str(*d));
    out
}

fn field_str_exec(f: &FieldDef) -> (out: Vec<char>)
    ensures
        out@ == field_str(*f),
{
    let mut out = text::string_chars(&f.name);
    if f.plural {
        append_str(&mut out, "s");
    }
    append_str(&mut out, ": ");
    append(&mut out, &default_str_exec(&f.default));
    assert(out@ =~= field_str(*f));
    out
}

fn edge_end_exec(names: &Vec<String>) -> (out: Vec<char>)
    ensures
        out@ == edge_end(names@),
{
    if names.len() == 1 {
        text::string_chars(&names[0])
    } else {
        let mut out = text::str_chars("[");
        append(&mut out, &join_strs(names, ", "));
        append_str(&mut out, "]");
        out
    }
}

fn push_opt_labeled(out: &mut Vec<char>, label: &str, o: &Option<String>)
    ensures
        final(out)@ == old(out)@ + match *o {
            Some(x) => label@ + x@,
            None => Seq::empty(),
        },
{
    match o {
        Some(x) => {
            append_str(out, label);
            append_string(out, x);
            assert(out@ =~= old(out)@ + (label@ + x@));
        },
        None => {
            assert(old(out)@ + Seq::<char>::empty() =~= old(out)@);
        },
    }
}

fn edge_str_exec(e: &FlowEdge) -> (out: Vec<char>)
    ensures
        out@ == edge_str(*e),
{
    let mut out = edge_end_exec(&e.from);
    if e.parallel {
        append_str(&mut out, " +--> ");
    } else {
        append_str(&mut out, " --> ");
    }
    append(&mut out, &edge_end_exec(&e.to));
    let ghost o1 = out@;
    match &e.label {
        Some(l) => {
            append_str(&mut out, " \"");
            append_string(&mut out, l);
            append_str(&mut out, "\"");
        },
        None => {},
    }
    assert(out@ =~= o1 + match e.label {
        Some(l) => " \""@ + l@ + "\""@,
        None => Seq::<char>::empty(),
    });
    push_opt_labeled(&mut out, " gate:", &e.gate);
    push_opt_labeled(&mut out, " wait:", &e.wait);
    push_opt_labeled(&mut out, " timeout:", &e.timeout);
    assert(out@ =~= edge_str(*e));
    out
}

fn rhs_str_exec(v: &VarValue) -> (out: Vec<char>)
    ensures
        out@ == rhs_str(*v),
{
    match v {
        VarValue::Literal(s) => text::string_chars(s),
        VarValue::Compute(c) => {
            let bar = if c.live {
                "||"
            } else {
                "|"
            };
            let mut out = text::str_chars(bar);
            append_string(&mut out, &c.expr);
            append_str(&mut out, bar);
            out
        },
        VarValue::Ref(r) => ref_str_exec(r),
    }
}

fn invoke_str_exec(m: &crate::types::ModInvoke) -> (out: Vec<char>)
    ensures
        out@ == invoke_str(*m),
{
    let mut out = text::str_chars("$");
    append_string(&mut out, &m.name);
    push_opt_labeled(&mut out, ".", &m.method);
    let ghost o1 = out@;
    match &m.args {
        Some(a) => {
            append_str(&mut out, "(");
            append_string(&mut out, a);
            append_str(&mut out, ")");
        },
        None => {},
    }
    assert(out@ =~= invoke_str(*m));
    out
}


// ── Body texts ─────────────────────────────────────────────────

fn opt_item_exec(label: &str, o: &Option<String>) -> (r: Vec<Vec<char>>)
    ensures
        text::views(r@) == opt_item(label@, *o),
{
    let mut r: Vec<Vec<char>> = Vec::new();
    match o {
        Some(x) => {
            let mut t = text::str_chars(label);
            append_string(&mut t, x);
            r.push(t);
            assert(text::views(r@) =~= seq![label@ + x@]);
        },
        None => {
            assert(text::views(r@) =~= Seq::<Seq<char>>::empty());
        },
    }
    r
}

fn list_item_exec(label: &str, v: &Vec<String>) -> (r: Vec<Vec<char>>)
    ensures
        text::views(r@) == list_item(label@, v@),
{
    let mut r: Vec<Vec<char>> = Vec::new();
    if v.len() > 0 {
        let mut t = text::str_chars(label);
        append(&mut t, &join_strs(v, ", "));
        r.push(t);
        assert(text::views(r@) =~= list_item(label@, v@));
    } else {
        assert(text::views(r@) =~= Seq::<Seq<char>>::empty());
    }
    r
}

fn concat_texts(a: Vec<Vec<char>>, b: Vec<Vec<char>>) -> (r: Vec<Vec<char>>)
    ensures
        text::views(r@) == text::views(a@) + text::views(b@),
{
    let mut r = a;
    let mut b2 = b;
    let ghost r0 = r@;
    let ghost bv = b2@;
    r.append(&mut b2);
    assert(r@ =~= r0 + bv);
    assert(text::views(r@) =~= text::views(r0) + text::views(bv));
    r
}

fn meta_texts_exec(m: &AttachmentMeta) -> (r: Vec<Vec<char>>)
    ensures
        text::views(r@) == meta_texts(*m),
{
    let a = opt_item_exec("id: ", &m.id);
    let a = concat_texts(a, list_item_exec("targets: ", &m.targets));
    let a = concat_texts(a, list_item_exec("requires: ", &m.requires));
    let a = concat_texts(a, list_item_exec("blocks: ", &m.blocks));
    concat_texts(a, list_item_exec("depends_on: ", &m.depends_on))
}

fn kv_texts_exec(ps: &Vec<(String, String)>) -> (r: Vec<Vec<char>>)
    ensures
        text::views(r@) == kv_texts(ps@),
{
    let mut r: Vec<Vec<char>> = Vec::new();
    let mut i: usize = 0;
    while i < ps.len()
        invariant
            i <= ps.len(),
            text::views(r@) == kv_texts(ps@).take(i as int),
        decreases ps.len() - i,
    {
        let mut t = text::string_chars(&ps[i].0);
        append_str(&mut t, ": ");
        append_string(&mut t, &ps[i].1);
        proof {
            text::lemma_views_push(r@, t);
        }
        r.push(t);
        i = i + 1;
        assert(text::views(r@) =~= kv_texts(ps@).take(i as int));
    }
    assert(kv_texts(ps@).take(ps.len() as int) =~= kv_texts(ps@));
    r
}

fn field_texts_exec(fs: &Vec<FieldDef>) -> (r: Vec<Vec<char>>)
    ensures
        text::views(r@) == fs@.map_values(|x: FieldDef| field_str(x)),
{
    let mut r: Vec<Vec<char>> = Vec::new();
    let mut i: usize = 0;
    while i < fs.len()
        invariant
            i <= fs.len(),
            text::views(r@) == fs@.map_values(|x: FieldDef| field_str(x)).take(i as int),
        decreases fs.len() - i,
    {
        let t = field_str_exec(&fs[i]);
        proof {
            text::lemma_views_push(r@, t);
        }
        r.push(t);
        i = i + 1;
        assert(text::views(r@) =~= fs@.map_values(|x: FieldDef| field_str(x)).take(i as int));
    }
    assert(fs@.map_values(|x: FieldDef| field_str(x)).take(fs.len() as int) =~= fs@.map_values(
        |x: FieldDef| field_str(x),
    ));
    r
}

fn edge_texts_exec(es: &Vec<FlowEdge>) -> (r: Vec<Vec<char>>)
    ensures
        text::views(r@) == es@.map_values(|e: FlowEdge| edge_str(e)),
{
    let mut r: Vec<Vec<char>> = Vec::new();
    let mut i: usize = 0;
    while i < es.len()
        invariant
            i <= es.len(),
            text::views(r@) == es@.map_values(|e: FlowEdge| edge_str(e)).take(i as int),
        decreases es.len() - i,
    {
        let t = edge_str_exec(&es[i]);
        proof {
            text::lemma_views_push(r@, t);
        }
        r.push(t);
        i = i + 1;
        assert(text::views(r@) =~= es@.map_values(|e: FlowEdge| edge_str(e)).take(i as int));
    }
    assert(es@.map_values(|e: FlowEdge| edge_str(e)).take(es.len() as int) =~= es@.map_values(
        |e: FlowEdge| edge_str(e),
    ));
    r
}

fn prefixed_texts_exec(label: &str, vs: &Vec<String>) -> (r: Vec<Vec<char>>)
    ensures
        text::views(r@) == vs@.map_values(|p: String| label@ + p@),
{
    let mut r: Vec<Vec<char>> = Vec::new();
    let mut i: usize = 0;
    while i < vs.len()
        invariant
            i <= vs.len(),
            text::views(r@) == vs@.map_values(|p: String| label@ + p@).take(i as int),
        decreases vs.len() - i,
    {
        let mut t = text::str_chars(label);
        append_string(&mut t, &vs[i]);
        proof {
            text::lemma_views_push(r@, t);
        }
        r.push(t);
        i = i + 1;
        assert(text::views(r@) =~= vs@.map_values(|p: String| label@ + p@).take(i as int));
    }
    assert(vs@.map_values(|p: String| label@ + p@).take(vs.len() as int) =~= vs@.map_values(
        |p: String| label@ + p@,
    ));
    r
}

fn projection_texts_exec(ps: &Vec<crate::types::FormProjectionDef>) -> (r: Vec<Vec<char>>)
    ensures
        text::views(r@) == ps@.map_values(
            |p: crate::types::FormProjectionDef| "projection_"@ + p.target@ + ": "@ + p.mapping@,
        ),
{
    let mut r: Vec<Vec<char>> = Vec::new();
    let mut i: usize = 0;
    while i < ps.len()
        invariant
            i <= ps.len(),
            text::views(r@) == ps@.map_values(
                |p: crate::types::FormProjectionDef| "projection_"@ + p.target@ + ": "@ + p.mapping@,
            ).take(i as int),
        decreases ps.len() - i,
    {
        let mut t = text::str_chars("projection_");
        append_string(&mut t, &ps[i].target);
        append_str(&mut t, ": ");
        append_string(&mut t, &ps[i].mapping);
        proof {
            text::lemma_views_push(r@, t);
        }
        r.push(t);
        i = i + 1;
        assert(text::views(r@) =~= ps@.map_values(
            |p: crate::types::FormProjectionDef| "projection_"@ + p.target@ + ": "@ + p.mapping@,
        ).take(i as int));
    }
    assert(ps@.map_values(
        |p: crate::types::FormProjectionDef| "projection_"@ + p.target@ + ": "@ + p.mapping@,
    ).take(ps.len() as int) =~= ps@.map_values(
        |p: crate::types::FormProjectionDef| "projection_"@ + p.target@ + ": "@ + p.mapping@,
    ));
    r
}

fn single_text(t: Vec<char>) -> (r: Vec<Vec<char>>)
    ensures
        text::views(r@) == seq![t@],
{
    let mut r: Vec<Vec<char>> = Vec::new();
    r.push(t);
    assert(text::views(r@) =~= seq![t@]);
    r
}

fn no_texts() -> (r: Vec<Vec<char>>)
    ensures
        text::views(r@) == Seq::<Seq<char>>::empty(),
{
    let r: Vec<Vec<char>> = Vec::new();
    assert(text::views(r@) =~= Seq::<Seq<char>>::empty());
    r
}

fn query_texts_exec(q: &crate::types::Query) -> (r: Vec<Vec<char>>)
    ensures
        text::views(r@) == query_texts(*q),
{
    let a = opt_item_exec("filter: ", &q.filter);
    let a = concat_texts(a, opt_item_exec("sort: ", &q.sort));
    let l = match q.limit {
        Some(l) => {
            let mut t = text::str_chars("limit: ");
            text::append_decimal(&mut t, l);
            single_text(t)
        },
        None => no_texts(),
    };
    let a = concat_texts(a, l);
    let inc = match &q.includes {
        Some(v) => {
            let mut t = text::str_chars("include: ");
            append(&mut t, &join_strs(v, ", "));
            single_text(t)
        },
        None => no_texts(),
    };
    let a = concat_texts(a, inc);
    concat_texts(a, opt_item_exec("from_snapshot: ", &q.from_snapshot))
}

fn form_texts_exec(f: &crate::types::FormDef) -> (r: Vec<Vec<char>>)
    ensures
        text::views(r@) == form_texts(*f),
{
    let a = match f.schema_version {
        Some(v) => {
            let mut t = text::str_chars("schema_version: ");
            append(&mut t, &text::decimal_u64_chars(v as u64));
            single_text(t)
        },
        None => no_texts(),
    };
    let a = concat_texts(a, opt_item_exec("ui_layout: ", &f.ui_layout));
    let a = concat_texts(a, prefixed_texts_exec("ui_page: ", &f.ui_pages));
    let a = concat_texts(a, opt_item_exec("storage_canonical: ", &f.storage.canonical));
    let a = concat_texts(a, opt_item_exec("storage_entity: ", &f.storage.entity));
    let a = concat_texts(a, opt_item_exec("storage_duckdb: ", &f.storage.duckdb));
    let a = concat_texts(a, projection_texts_exec(&f.projections));
    concat_texts(a, field_texts_exec(&f.fields))
}

fn mod_texts_exec(m: &crate::types::ModDef) -> (r: Vec<Vec<char>>)
    ensures
        text::views(r@) == mod_texts(*m),
{
    let a = opt_item_exec("kind: ", &m.kind);
    let a = concat_texts(a, opt_item_exec("description: ", &m.description));
    let t = match &m.trigger {
        Some(v) => {
            let mut t = text::str_chars("trigger: ");
            append(&mut t, &join_strs(v, ", "));
            single_text(t)
        },
        None => no_texts(),
    };
    let a = concat_texts(a, t);
    concat_texts(a, kv_texts_exec(&m.body))
}


fn leaf_head_exec(n: &Node) -> (out: Vec<char>)
    ensures
        out@ == leaf_head(*n),
{
    let mut out: Vec<char> = Vec::new();
    match n {
        Node::Prose(p) => append_string(&mut out, &p.text),
        Node::Comment(c) => {
            append_str(&mut out, "// ");
            append_string(&mut out, &c.text);
        },
        Node::Spawn(sp) => match sp {
            Spawn::Parallel => append_str(&mut out, "+"),
            Spawn::Sequential => append_str(&mut out, "++"),
        },
        Node::Divider => append_str(&mut out, "---"),
        Node::Define(d) => {
            append_str(&mut out, "define:");
            push_entity_ref(&mut out, &d.entity, &d.mod_scope, &d.workspace_scope);
            push_atoms(&mut out, &d.atoms);
            push_opt_labeled(&mut out, " from @", &d.from_scope);
        },
        Node::Mutate(m) => {
            append_str(&mut out, "mutate:");
            push_entity_ref(&mut out, &m.entity, &m.mod_scope, &m.workspace_scope);
            push_opt_labeled(&mut out, ":", &m.id);
            let ghost o1 = out@;
            match &m.gate {
                Some(g) => {
                    append_str(&mut out, " ");
                    append(&mut out, &gate_str_exec(g));
                },
                None => {},
            }
        },
        Node::Delete(d) => {
            append_str(&mut out, "delete:");
            push_entity_ref(&mut out, &d.entity, &d.mod_scope, &d.workspace_scope);
            append_str(&mut out, ":");
            append_string(&mut out, &d.id);
        },
        Node::Query(q) => {
            append_str(&mut out, "query:");
            push_entity_ref(&mut out, &q.entity, &q.mod_scope, &q.workspace_scope);
            if q.plural {
                append_str(&mut out, "s");
            }
        },
        Node::Variable(v) => {
            append_string(&mut out, &v.name);
            append_str(&mut out, " = ");
            append(&mut out, &rhs_str_exec(&v.value));
        },
        Node::Flow(_) => append_str(&mut out, "flow:"),
        Node::States(_) => append_str(&mut out, "states:"),
        Node::Form(f) => {
            append_str(&mut out, "form: ");
            append_string(&mut out, &f.name);
        },
        Node::ModDef(m) => {
            append_str(&mut out, "mod:$");
            append_string(&mut out, &m.name);
            if m.versioned {
                append_str(&mut out, "@versioned");
            }
        },
        Node::ModInvoke(m) => append(&mut out, &invoke_str_exec(m)),
        _ => return leaf_head_rest(n),
    }
    assert(out@ =~= leaf_head(*n));
    out
}

fn leaf_head_rest(n: &Node) -> (out: Vec<char>)
    requires
        !(n is Prose || n is Comment || n is Spawn || n is Divider || n is Define || n is Mutate
            || n is Delete || n is Query || n is Variable || n is Flow || n is States || n is Form
            || n is ModDef || n is ModInvoke),
    ensures
        out@ == leaf_head(*n),
{
    let mut out: Vec<char> = Vec::new();
    match n {
        Node::Snap(x) => {
            append_str(&mut out, "snap: \"");
            append_string(&mut out, &x.name);
            append_str(&mut out, "\"");
        },
        Node::Diff(d) => {
            append_str(&mut out, "diff:");
            append_string(&mut out, &d.target);
            push_opt_labeled(&mut out, " from snap:", &d.from_snapshot);
        },
        Node::History(h) => {
            append_str(&mut out, "history:");
            append_string(&mut out, &h.target);
            match h.limit {
                Some(l) => {
                    append_str(&mut out, " limit:");
                    text::append_decimal(&mut out, l);
                },
                None => {},
            }
        },
        Node::StatusDef(x) => {
            append_str(&mut out, "status: ");
            append(&mut out, &join_strs(&x.options, " / "));
        },
        Node::Routine(r) => {
            append_str(&mut out, "routine: ");
            append_string(&mut out, &r.trigger);
            if text::string_chars(&r.expr).len() != 0 {
                append_str(&mut out, " | ");
                append_string(&mut out, &r.expr);
            }
        },
        Node::Bold(b) => {
            append_str(&mut out, "**");
            append_string(&mut out, &b.text);
            append_str(&mut out, "**");
        },
        Node::Remember(r) => {
            append_str(&mut out, "remember: \"");
            append_string(&mut out, &r.content);
            append_str(&mut out, "\"");
        },
        Node::Recall(r) => {
            append_str(&mut out, "recall: \"");
            append_string(&mut out, &r.query);
            append_str(&mut out, "\"");
        },
        Node::EmbedMarker(e) => {
            append_str(&mut out, "^");
            append_string(&mut out, &e.tag);
        },
        Node::Escalate(e) => {
            append_str(&mut out, "escalate: ");
            append_string(&mut out, &e.target);
        },
        Node::CodeBlock(cb) => {
            append_str(&mut out, "```");
            push_opt_seq(&mut out, &cb.lang);
        },
        Node::Webhook(w) => {
            append_str(&mut out, "webhook: ");
            append_string(&mut out, &w.trigger);
            append_str(&mut out, " ");
            append_string(&mut out, &w.url);
        },
        Node::FilesDef(_) => append_str(&mut out, "files:"),
        Node::PolicyDef(_) => append_str(&mut out, "policy:"),
        Node::SyncDef(sd) => {
            append_str(&mut out, "sync: ");
            append_string(&mut out, &sd.name);
        },
        Node::Git(g) => {
            append_str(&mut out, "git:");
            append_string(&mut out, &g.verb);
            append_str(&mut out, " ");
            append_string(&mut out, &g.args);
        },
        Node::Check(c) => {
            append_str(&mut out, "check: ");
            append_string(&mut out, &c.name);
        },
        Node::EntityDef(e) => {
            append_str(&mut out, "## Entity: ");
            append_string(&mut out, &e.name);
        },
        Node::MetricDef(m) => {
            append_str(&mut out, "## Metric: ");
            append_string(&mut out, &m.name);
        },
        Node::Serve(sv) => {
            append_str(&mut out, "serve:");
            append_string(&mut out, &sv.target);
            append_str(&mut out, " | ");
            append_string(&mut out, &sv.command);
        },
        Node::UseBlock(u) => match &u.entity {
            Some(e) => {
                append_str(&mut out, "use @");
                append_string(&mut out, e);
                append_str(&mut out, " from ");
                append_string(&mut out, &u.mod_name);
                match &u.alias {
                    Some(a) => {
                        append_str(&mut out, " as @");
                        append_string(&mut out, a);
                    },
                    None => {},
                }
            },
            None => {
                append_str(&mut out, "use ");
                append_string(&mut out, &u.mod_name);
            },
        },
        _ => {},
    }
    assert(out@ =~= leaf_head(*n));
    out
}

fn leaf_body_exec(n: &Node) -> (r: Vec<Vec<char>>)
    ensures
        text::views(r@) == leaf_body(*n),
{
    match n {
        Node::Define(d) => field_texts_exec(&d.fields),
        Node::Mutate(m) => if m.batch.is_some() {
            no_texts()
        } else {
            kv_texts_exec(&m.fields)
        },
        Node::Query(q) => query_texts_exec(q),
        Node::Flow(f) => edge_texts_exec(&f.edges),
        Node::States(st) => edge_texts_exec(&st.transitions),
        Node::Form(f) => form_texts_exec(f),
        Node::ModDef(m) => mod_texts_exec(m),
        Node::Webhook(w) => match &w.payload {
            Some(p) => {
                let mut t: Vec<char> = Vec::new();
                append_str(&mut t, "payload: ");
                append_string(&mut t, p);
                let mut r: Vec<Vec<char>> = Vec::new();
                r.push(t);
                assert(text::views(r@) =~= seq![t@]);
                r
            },
            None => no_texts(),
        },
        Node::FilesDef(f) => path_texts_exec(&f.paths),
        Node::PolicyDef(p) => rule_texts_exec(&p.rules),
        Node::SyncDef(sd) => sync_texts_exec(sd),
        Node::Git(g) => kv_texts_exec(&g.body),
        Node::Check(c) => {
            let mut r = meta_texts_exec(&c.meta);
            let mut b = kv_texts_exec(&c.body);
            let ghost r0 = r@;
            let ghost b0 = b@;
            r.append(&mut b);
            assert(text::views(r@) =~= text::views(r0) + text::views(b0));
            r
        },
        Node::EntityDef(e) => entity_texts_exec(e),
        Node::UseBlock(u) => kv_texts_exec(&u.config),
        Node::MetricDef(m) => metric_texts_exec(m),
        Node::Serve(sv) => {
            let mut r = opt_item_exec("port: ", &sv.port);
            let mut b = opt_item_exec("open: ", &sv.open);
            let ghost r0 = r@;
            let ghost b0 = b@;
            r.append(&mut b);
            assert(text::views(r@) =~= text::views(r0) + text::views(b0));
            r
        },
        _ => no_texts(),
    }
}

fn labeled(label: &str, v: &String) -> (r: Vec<char>)
    ensures
        r@ == label@ + v@,
{
    let mut t: Vec<char> = Vec::new();
    append_str(&mut t, label);
    append_string(&mut t, v);
    t
}

fn metric_texts_exec(m: &crate::types::MetricDef) -> (r: Vec<Vec<char>>)
    ensures
        text::views(r@) == metric_texts(*m),
{
    let mut r = opt_item_exec("source: ", &m.source);
    let mut g = opt_item_exec("grain: ", &m.grain);
    let ghost r0 = r@;
    let ghost g0 = g@;
    r.append(&mut g);
    assert(text::views(r@) =~= text::views(r0) + text::views(g0));
    if m.dimensions.len() > 0 {
        let mut t: Vec<char> = Vec::new();
        append_str(&mut t, "dimensions: ");
        let j = join_strs(&m.dimensions, ", ");
        text::append(&mut t, &j);
        let ghost r1 = r@;
        r.push(t);
        assert(text::views(r@) =~= text::views(r1).push(t@));
    }
    let ghost r2 = r@;
    r.push(labeled("formula: ", &m.formula));
    assert(text::views(r@) =~= text::views(r2).push("formula: "@ + m.formula@));
    if m.cross_source {
        let ghost r3 = r@;
        r.push(text::str_chars("cross_source: true"));
        assert(text::views(r@) =~= text::views(r3).push("cross_source: true"@));
    }
    assert(text::views(r@) =~= metric_texts(*m));
    r
}

fn prefixed_exec(label: &str, vs: &Vec<String>) -> (r: Vec<Vec<char>>)
    ensures
        text::views(r@) == prefixed(label@, vs@),
{
    let ghost want = prefixed(label@, vs@);
    let mut r: Vec<Vec<char>> = Vec::new();
    let mut i: usize = 0;
    assert(text::views(r@) =~= want.take(0));
    while i < vs.len()
        invariant
            i <= vs.len(),
            want == prefixed(label@, vs@),
            text::views(r@) == want.take(i as int),
        decreases vs.len() - i,
    {
        let t = labeled(label, &vs[i]);
        assert(t@ =~= want[i as int]);
        let ghost r0 = r@;
        let ghost tv = t@;
        r.push(t);
        assert(text::views(r@) =~= text::views(r0).push(tv));
        assert(want.take(i + 1) =~= want.take(i as int).push(want[i as int]));
        i = i + 1;
    }
    assert(want.take(vs.len() as int) =~= want);
    r
}

fn entity_texts_exec(e: &crate::types::EntityDef) -> (r: Vec<Vec<char>>)
    ensures
        text::views(r@) == entity_texts(*e),
{
    let mut r: Vec<Vec<char>> = Vec::new();
    r.push(labeled("source: ", &e.source));
    r.push(labeled("namespace: ", &e.namespace));
    r.push(labeled("identity: ", &e.identity));
    r.push(text::str_chars("fields:"));
    let ghost head = seq!["source: "@ + e.source@, "namespace: "@ + e.namespace@, "identity: "@ + e.identity@, "fields:"@];
    let ghost want = e.fields@.map_values(|f: crate::types::EntityField| level() + f.name@ + ": "@ + f.field_type@);
    assert(text::views(r@) =~= head);
    let mut i: usize = 0;
    while i < e.fields.len()
        invariant
            i <= e.fields.len(),
            want == e.fields@.map_values(|f: crate::types::EntityField| level() + f.name@ + ": "@ + f.field_type@),
            text::views(r@) == head + want.take(i as int),
        decreases e.fields.len() - i,
    {
        let mut t: Vec<char> = Vec::new();
        append_str(&mut t, "  ");
        append_string(&mut t, &e.fields[i].name);
        append_str(&mut t, ": ");
        append_string(&mut t, &e.fields[i].field_type);
        assert(t@ =~= want[i as int]);
        let ghost r0 = r@;
        let ghost tv = t@;
        r.push(t);
        assert(text::views(r@) =~= text::views(r0).push(tv));
        assert(want.take(i + 1) =~= want.take(i as int).push(want[i as int]));
        i = i + 1;
        assert(text::views(r@) =~= head + want.take(i as int));
    }
    assert(want.take(e.fields.len() as int) =~= want);
    r
}

fn sync_texts_exec(sd: &crate::types::SyncDef) -> (r: Vec<Vec<char>>)
    ensures
        text::views(r@) == sync_texts(*sd),
{
    let mut r: Vec<Vec<char>> = Vec::new();
    r.push(labeled("class: ", &sd.class));
    r.push(labeled("source: ", &sd.source));
    r.push(labeled("identity: ", &sd.identity));
    r.push(labeled("mode: ", &sd.mode));
    r.push(labeled("target: ", &sd.target));
    r.push(labeled("schedule: ", &sd.schedule));
    r.push(labeled("scope: ", &sd.scope));
    assert(text::views(r@) =~= sync_texts(*sd));
    r
}

fn path_texts_exec(ps: &Vec<String>) -> (r: Vec<Vec<char>>)
    ensures
        text::views(r@) == ps@.map_values(|p: String| "@"@ + p@),
{
    let ghost want = ps@.map_values(|p: String| "@"@ + p@);
    let mut out: Vec<Vec<char>> = Vec::new();
    let mut i: usize = 0;
    while i < ps.len()
        invariant
            i <= ps.len(),
            want == ps@.map_values(|p: String| "@"@ + p@),
            text::views(out@) == want.take(i as int),
        decreases ps.len() - i,
    {
        let mut t: Vec<char> = Vec::new();
        append_str(&mut t, "@");
        append_string(&mut t, &ps[i]);
        proof {
            text::lemma_views_push(out@, t);
            assert(want.take(i + 1) =~= want.take(i as int).push(t@));
        }
        out.push(t);
        i = i + 1;
    }
    assert(want.take(ps.len() as int) =~= want);
    out
}

fn rule_texts_exec(rs: &Vec<crate::types::PolicyRule>) -> (r: Vec<Vec<char>>)
    ensures
        text::views(r@) == rs@.map_values(
            |r: crate::types::PolicyRule| "@"@ + r.path@ + gates_str(r.gates@),
        ),
{
    let ghost want = rs@.map_values(|r: crate::types::PolicyRule| "@"@ + r.path@ + gates_str(r.gates@));
    let mut out: Vec<Vec<char>> = Vec::new();
    let mut i: usize = 0;
    while i < rs.len()
        invariant
            i <= rs.len(),
            want == rs@.map_values(|r: crate::types::PolicyRule| "@"@ + r.path@ + gates_str(r.gates@)),
            text::views(out@) == want.take(i as int),
        decreases rs.len() - i,
    {
        let mut t: Vec<char> = Vec::new();
        append_str(&mut t, "@");
        append_string(&mut t, &rs[i].path);
        push_gates(&mut t, &rs[i].gates);
        proof {
            text::lemma_views_push(out@, t);
            assert(want.take(i + 1) =~= want.take(i as int).push(t@));
        }
        out.push(t);
        i = i + 1;
    }
    assert(want.take(rs.len() as int) =~= want);
    out
}


// ── The formatter ──────────────────────────────────────────────

/// The output lines written so far.
pub struct Formatter {
    pub lines: Vec<Vec<char>>,
}

impl Formatter {
    pub open spec fn lv(&self) -> Seq<Seq<char>> {
        text::views(self.lines@)
    }

    /// Writes `t` at indentation `ind`, without trailing whitespace.
    fn line(&mut self, ind: &Vec<char>, t: &Vec<char>)
        ensures
            final(self).lv() == push_line(old(self).lv(), ind@, t@),
    {
        let tt = text::trim_end_chars(t);
        proof {
            text::lemma_views_push(self.lines@, tt);
        }
        if tt.len() == 0 {
            let e: Vec<char> = Vec::new();
            proof {
                text::lemma_views_push(self.lines@, e);
            }
            self.lines.push(e);
        } else {
            let l = text::concat(ind, &tt);
            proof {
                text::lemma_views_push(self.lines@, l);
            }
            self.lines.push(l);
        }
    }

    fn line_str(&mut self, ind: &Vec<char>, t: &str)
        ensures
            final(self).lv() == push_line(old(self).lv(), ind@, t@),
    {
        self.line(ind, &text::str_chars(t));
    }

    /// Writes each text as a line at indentation `ind`.
    fn lines_each(&mut self, ind: &Vec<char>, ts: &Vec<Vec<char>>)
        ensures
            final(self).lv() == push_lines(old(self).lv(), ind@, text::views(ts@)),
    {
        let mut i: usize = 0;
        assert(text::views(ts@).take(0) =~= Seq::<Seq<char>>::empty());
        while i < ts.len()
            invariant
                i <= ts.len(),
                self.lv() == push_lines(old(self).lv(), ind@, text::views(ts@).take(i as int)),
            decreases ts.len() - i,
        {
            assert(text::views(ts@).take(i + 1).drop_last() =~= text::views(ts@).take(i as int));
            self.line(ind, &ts[i]);
            i = i + 1;
        }
        assert(text::views(ts@).take(ts.len() as int) =~= text::views(ts@));
    }

    /// A blank line, unless the last line already is one.
    fn blank_if_needed(&mut self)
        ensures
            final(self).lv() == blank_if_needed(old(self).lv()),
    {
        let n = self.lines.len();
        if n == 0 || self.lines[n - 1].len() != 0 {
            let e: Vec<char> = Vec::new();
            proof {
                text::lemma_views_push(self.lines@, e);
            }
            self.lines.push(e);
        }
    }

    fn batch(&mut self, ind: &Vec<char>, recs: &Vec<crate::types::BatchRecord>)
        ensures
            final(self).lv() == batch_lines(old(self).lv(), ind@, recs@),
    {
        let mut i: usize = 0;
        assert(recs@.take(0) =~= Seq::<crate::types::BatchRecord>::empty());
        let deeper = text::concat(ind, &text::str_chars("  "));
        while i < recs.len()
            invariant
                i <= recs.len(),
                deeper@ == ind@ + level(),
                self.lv() == batch_lines(old(self).lv(), ind@, recs@.take(i as int)),
            decreases recs.len() - i,
        {
            assert(recs@.take(i + 1).drop_last() =~= recs@.take(i as int));
            assert(recs@.take(i + 1).last() == recs@[i as int]);
            let mut h = text::str_chars("- id: ");
            append_string(&mut h, &recs[i].id);
            self.line(ind, &h);
            let kv = kv_texts_exec(&recs[i].fields);
            self.lines_each(&deeper, &kv);
            i = i + 1;
        }
        assert(recs@.take(recs.len() as int) =~= recs@);
    }

    /// Writes a node without child nodes.
    fn emit_leaf(&mut self, n: &Node, ind: &Vec<char>)
        ensures
            final(self).lv() == leaf_lines(old(self).lv(), *n, ind@),
    {
        let head = leaf_head_exec(n);
        match n {
            Node::CodeBlock(cb) => {
                self.line(ind, &head);
                let body = text::lines_of(&text::string_chars(&cb.content));
                self.lines_each(ind, &body);
                self.line_str(ind, "```");
            },
            _ => {
                let deeper = text::concat(ind, &text::str_chars("  "));
                self.line(ind, &head);
                let body = leaf_body_exec(n);
                self.lines_each(&deeper, &body);
                match n {
                    Node::Mutate(m) => match &m.batch {
                        Some(b) => self.batch(&deeper, b),
                        None => {},
                    },
                    _ => {},
                }
            },
        }
    }
}


fn is_block_exec(n: &Node) -> (b: bool)
    ensures
        b == is_block(*n),
{
    match n {
        Node::Group(_) | Node::Define(_) | Node::Mutate(_) | Node::Query(_) | Node::Flow(_)
        | Node::States(_) | Node::Validate(_) | Node::Form(_) | Node::ModDef(_)
        | Node::Conditional(_) | Node::GateDef(_) | Node::CodeBlock(_) | Node::FilesDef(_)
        | Node::PolicyDef(_) | Node::SyncDef(_) | Node::Git(_) | Node::Check(_) | Node::EntityDef(_) | Node::UseBlock(_) | Node::MetricDef(_)
        | Node::LatticeValidates(_) | Node::LatticeConstraint(_) | Node::LatticeSchema(_)
        | Node::LatticeFrontier(_) | Node::UnitCell(_) | Node::Symmetry(_) | Node::ProjectScope(_) => true,
        _ => false,
    }
}

fn task_head_exec(t: &crate::types::Task) -> (out: Vec<char>)
    ensures
        out@ == task_head(*t),
{
    let mut out = marker_str_exec(&t.marker, &t.label);
    append_str(&mut out, " ");
    append(&mut out, &text::trim_chars(&text::string_chars(&t.text)));
    push_gates(&mut out, &t.gates);
    let ghost o1 = out@;
    match t.closes {
        Some(c) => {
            append_str(&mut out, " git:closes #");
            append(&mut out, &text::decimal_u64_chars(c as u64));
        },
        None => {},
    }
    assert(out@ =~= task_head(*t));
    out
}

impl Formatter {
    fn emit_arts(&mut self, arts: &Vec<crate::types::LatticeArtifactRef>, ind: &Vec<char>)
        ensures
            final(self).lv() == arts_lines(old(self).lv(), arts@, ind@),
    {
        let d1 = text::concat(ind, &text::str_chars("  "));
        let d2 = text::concat(&d1, &text::str_chars("  "));
        let mut i: usize = 0;
        assert(arts@.take(0) =~= Seq::<crate::types::LatticeArtifactRef>::empty());
        while i < arts.len()
            invariant
                i <= arts.len(),
                d1@ == ind@ + level(),
                d2@ == ind@ + level() + level(),
                self.lv() == arts_lines(old(self).lv(), arts@.take(i as int), ind@),
            decreases arts.len() - i,
        {
            assert(arts@.take(i + 1).drop_last() =~= arts@.take(i as int));
            assert(arts@.take(i + 1).last() == arts@[i as int]);
            let a = &arts[i];
            let mut h = text::str_chars("artifact: ");
            append_string(&mut h, &a.artifact);
            self.line(&d1, &h);
            self.lines_each(&d2, &opt_item_exec("schema: ", &a.schema));
            let mut cs: Vec<Vec<char>> = Vec::new();
            let mut j: usize = 0;
            let ghost want = a.checks@.map_values(|c: crate::types::LatticeFieldCheck| check_str(c));
            assert(text::views(cs@) =~= want.take(0));
            while j < a.checks.len()
                invariant
                    j <= a.checks.len(),
                    want == a.checks@.map_values(|c: crate::types::LatticeFieldCheck| check_str(c)),
                    text::views(cs@) == want.take(j as int),
                decreases a.checks.len() - j,
            {
                let c = &a.checks[j];
                let mut t = text::str_chars("check: ");
                append_string(&mut t, &c.field);
                append_str(&mut t, " required: ");
                if c.required {
                    append_str(&mut t, "true");
                } else {
                    append_str(&mut t, "false");
                }
                match c.min_items {
                    Some(n) => {
                        append_str(&mut t, " min_items: ");
                        text::append_decimal(&mut t, n);
                    },
                    None => {},
                }
                assert(t@ =~= want[j as int]);
                let ghost c0 = cs@;
                let ghost tv = t@;
                cs.push(t);
                assert(text::views(cs@) =~= text::views(c0).push(tv));
                assert(want.take(j + 1) =~= want.take(j as int).push(want[j as int]));
                j = j + 1;
            }
            assert(want.take(a.checks.len() as int) =~= want);
            self.lines_each(&d2, &cs);
            i = i + 1;
        }
        assert(arts@.take(arts.len() as int) =~= arts@);
    }

    fn emit_schema_fields(&mut self, fs: &Vec<crate::types::LatticeSchemaField>, ind: &Vec<char>)
        ensures
            final(self).lv() == schema_lines(old(self).lv(), fs@, ind@),
    {
        let d1 = text::concat(ind, &text::str_chars("  "));
        let d2 = text::concat(&d1, &text::str_chars("  "));
        let mut i: usize = 0;
        assert(fs@.take(0) =~= Seq::<crate::types::LatticeSchemaField>::empty());
        while i < fs.len()
            invariant
                i <= fs.len(),
                d1@ == ind@ + level(),
                d2@ == ind@ + level() + level(),
                self.lv() == schema_lines(old(self).lv(), fs@.take(i as int), ind@),
            decreases fs.len() - i,
        {
            assert(fs@.take(i + 1).drop_last() =~= fs@.take(i as int));
            assert(fs@.take(i + 1).last() == fs@[i as int]);
            let f = &fs[i];
            let mut h = text::str_chars("name: ");
            append_string(&mut h, &f.name);
            self.line(&d1, &h);
            let mut ts: Vec<Vec<char>> = Vec::new();
            let mut t = text::str_chars("type: ");
            append_string(&mut t, &f.field_type);
            let ghost tv = t@;
            ts.push(t);
            if f.required {
                ts.push(text::str_chars("required: true"));
            }
            assert(text::views(ts@) =~= seq!["type: "@ + f.field_type@] + (if f.required {
                seq!["required: true"@]
            } else {
                Seq::empty()
            }));
            self.lines_each(&d2, &ts);
            i = i + 1;
        }
        assert(fs@.take(fs.len() as int) =~= fs@);
    }

    /// Writes the header and setting lines of a lattice section.
    #[verifier::spinoff_prover]
    fn emit_lattice_head(&mut self, n: &Node, ind: &Vec<char>)
        ensures
            final(self).lv() == lattice_lines(old(self).lv(), *n, ind@),
    {
        let d1 = text::concat(ind, &text::str_chars("  "));
        match n {
            Node::LatticeValidates(l) => {
                self.line_str(ind, "lattice_validates:");
                self.emit_arts(&l.artifacts, ind);
            },
            Node::LatticeConstraint(l) => {
                let mut h = text::str_chars("lattice_constraint: ");
                match &l.constraint_type {
                    Some(t) => append_string(&mut h, t),
                    None => {},
                }
                self.line(ind, &h);
                let mut ts: Vec<Vec<char>> = Vec::new();
                ts.push(labeled("rule: ", &l.rule));
                if l.applies_to.len() > 0 {
                    let mut t = text::str_chars("applies_to: ");
                    let j = join_strs(&l.applies_to, ", ");
                    text::append(&mut t, &j);
                    ts.push(t);
                }
                assert(text::views(ts@) =~= seq!["rule: "@ + l.rule@] + (if l.applies_to@.len() > 0 {
                    seq!["applies_to: "@ + text::join(text::str_views(l.applies_to@), ", "@)]
                } else {
                    Seq::empty()
                }));
                self.lines_each(&d1, &ts);
            },
            Node::LatticeSchema(l) => {
                self.line_str(ind, "lattice_schema:");
                self.emit_schema_fields(&l.fields, ind);
            },
            Node::LatticeFrontier(l) => {
                self.line_str(ind, "lattice_frontier:");
                let mut ts = opt_item_exec("expected_schema: ", &l.expected_schema);
                let mut a = prefixed_exec("missing_field: ", &l.missing_fields);
                let mut b = prefixed_exec("strategy: ", &l.exploration_strategy);
                let ghost t0 = ts@;
                let ghost a0 = a@;
                let ghost b0 = b@;
                ts.append(&mut a);
                ts.append(&mut b);
                assert(text::views(ts@) =~= text::views(t0) + text::views(a0) + text::views(b0));
                self.lines_each(&d1, &ts);
            },
            Node::PressureEffect(p) => {
                self.line_str(ind, "pressure_effect:");
                let mut ts: Vec<Vec<char>> = Vec::new();
                ts.push(labeled("dynamic: ", &p.dynamic));
                let mut o = opt_item_exec("target: ", &p.target);
                let ghost t0 = ts@;
                let ghost o0 = o@;
                ts.append(&mut o);
                assert(text::views(ts@) =~= text::views(t0) + text::views(o0));
                assert(text::views(t0) =~= seq!["dynamic: "@ + p.dynamic@]);
                self.lines_each(&d1, &ts);
            },
            Node::UnitCell(_) => self.line_str(ind, "unit_cell:"),
            Node::Symmetry(_) => self.line_str(ind, "symmetry:"),
            _ => {},
        }
    }

    fn emit_nodes(&mut self, ns: &Vec<Node>, ind: &Vec<char>, top: bool)
        ensures
            final(self).lv() == nodes_lines(old(self).lv(), ns@, ind@, top),
        decreases ns@,
    {
        let mut i: usize = 0;
        let mut prev_was_block = false;
        assert(ns@.take(0) =~= Seq::<Node>::empty());
        while i < ns.len()
            invariant
                i <= ns.len(),
                self.lv() == nodes_lines(old(self).lv(), ns@.take(i as int), ind@, top),
                prev_was_block == (i > 0 && is_block(ns@[i - 1])),
            decreases ns.len() - i,
        {
            assert(ns@.take(i + 1).drop_last() =~= ns@.take(i as int));
            assert(ns@.take(i + 1).last() == ns@[i as int]);
            if i > 0 {
                assert(ns@.take(i + 1)[i - 1] == ns@[i - 1]);
            }
            let b = is_block_exec(&ns[i]);
            if top && b && prev_was_block {
                self.blank_if_needed();
            }
            self.emit_node(&ns[i], ind);
            prev_was_block = b;
            i = i + 1;
        }
        assert(ns@.take(ns.len() as int) =~= ns@);
    }

    fn emit_section(&mut self, o: &Option<Vec<Node>>, ind: &Vec<char>, label: &str)
        ensures
            final(self).lv() == section_lines(old(self).lv(), *o, ind@, label@),
        decreases *o,
    {
        match o {
            Some(p) => {
                let d1 = text::concat(ind, &text::str_chars("  "));
                let d2 = text::concat(&d1, &text::str_chars("  "));
                self.line_str(&d1, label);
                self.emit_nodes(p, &d2, false);
            },
            None => {},
        }
    }

    fn emit_arms(&mut self, arms: &Vec<crate::types::MatchArm>, ind: &Vec<char>)
        ensures
            final(self).lv() == arms_lines(old(self).lv(), arms@, ind@),
        decreases arms@,
    {
        let d1 = text::concat(ind, &text::str_chars("  "));
        let d2 = text::concat(&d1, &text::str_chars("  "));
        let mut i: usize = 0;
        assert(arms@.take(0) =~= Seq::<crate::types::MatchArm>::empty());
        while i < arms.len()
            invariant
                i <= arms.len(),
                d1@ == ind@ + level(),
                d2@ == ind@ + level() + level(),
                self.lv() == arms_lines(old(self).lv(), arms@.take(i as int), ind@),
            decreases arms.len() - i,
        {
            assert(arms@.take(i + 1).drop_last() =~= arms@.take(i as int));
            assert(arms@.take(i + 1).last() == arms@[i as int]);
            let mut h = text::str_chars("match ");
            append_string(&mut h, &arms[i].pattern);
            append_str(&mut h, ":");
            self.line(&d1, &h);
            self.emit_nodes(&arms[i].children, &d2, false);
            i = i + 1;
        }
        assert(arms@.take(arms.len() as int) =~= arms@);
    }

    fn emit_arms_opt(&mut self, o: &Option<Vec<crate::types::MatchArm>>, ind: &Vec<char>)
        ensures
            final(self).lv() == arms_opt(old(self).lv(), *o, ind@),
        decreases *o,
    {
        match o {
            Some(a) => self.emit_arms(a, ind),
            None => {},
        }
    }

    fn emit_task(&mut self, t: &crate::types::Task, ind: &Vec<char>)
        ensures
            final(self).lv() == task_lines(old(self).lv(), *t, ind@),
        decreases *t,
    {
        let d1 = text::concat(ind, &text::str_chars("  "));
        self.line(ind, &task_head_exec(t));
        let a = opt_item_exec("depends: ", &t.depends);
        let a = concat_texts(a, opt_item_exec("validate: ", &t.validate));
        let a = concat_texts(a, opt_item_exec("status: ", &t.status));
        self.lines_each(&d1, &a);
        self.emit_nodes(&t.children, &d1, false);
        self.emit_section(&t.on_pass, ind, "on_pass:");
        self.emit_section(&t.on_fail, ind, "on_fail:");
        self.emit_arms_opt(&t.match_arms, ind);
    }

    fn emit_node(&mut self, n: &Node, ind: &Vec<char>)
        ensures
            final(self).lv() == node_lines(old(self).lv(), *n, ind@),
        decreases *n,
    {
        let d1 = text::concat(ind, &text::str_chars("  "));
        match n {
            Node::Group(g) => {
                let mut h = text::repeat_str("#", g.depth as usize);
                append_str(&mut h, " ");
                append_string(&mut h, &g.name);
                push_atoms(&mut h, &g.atoms);
                push_gates(&mut h, &g.gates);
                assert(h@ =~= text::repeat("#"@, g.depth as nat) + " "@ + g.name@ + atoms_str(g.atoms@)
                    + gates_str(g.gates@));
                self.line(ind, &h);
                self.emit_nodes(&g.children, &d1, false);
            },
            Node::Task(t) => self.emit_task(t, ind),
            Node::Validate(v) => {
                let mut h = text::str_chars("validate ");
                append_string(&mut h, &v.name);
                append_str(&mut h, ":");
                assert(h@ =~= "validate "@ + v.name@ + ":"@);
                self.line(ind, &h);
                self.lines_each(&d1, &meta_texts_exec(&v.meta));
                self.emit_nodes(&v.children, &d1, false);
            },
            Node::Conditional(c) => {
                let mut h = text::str_chars("if ");
                if c.condition.live {
                    append_str(&mut h, "||");
                    append_string(&mut h, &c.condition.expr);
                    append_str(&mut h, "||");
                } else {
                    append_str(&mut h, "|");
                    append_string(&mut h, &c.condition.expr);
                    append_str(&mut h, "|");
                }
                append_str(&mut h, ":");
                assert(h@ =~= "if "@ + (if c.condition.live {
                    "||"@ + c.condition.expr@ + "||"@
                } else {
                    "|"@ + c.condition.expr@ + "|"@
                }) + ":"@);
                self.line(ind, &h);
                self.emit_nodes(&c.children, &d1, false);
            },
            Node::GateDef(g) => {
                let mut h = text::str_chars("gate: ");
                append_string(&mut h, &g.name);
                assert(h@ =~= "gate: "@ + g.name@);
                self.line(ind, &h);
                self.emit_nodes(&g.children, &d1, false);
            },
            Node::LatticeValidates(l) => {
                self.emit_lattice_head(n, ind);
                self.emit_nodes(&l.children, &d1, false);
            },
            Node::LatticeConstraint(l) => {
                self.emit_lattice_head(n, ind);
                self.emit_nodes(&l.children, &d1, false);
            },
            Node::LatticeSchema(l) => {
                self.emit_lattice_head(n, ind);
                self.emit_nodes(&l.children, &d1, false);
            },
            Node::LatticeFrontier(l) => {
                self.emit_lattice_head(n, ind);
                self.emit_nodes(&l.children, &d1, false);
            },
            Node::UnitCell(u) => {
                self.emit_lattice_head(n, ind);
                self.emit_nodes(&u.children, &d1, false);
            },
            Node::Symmetry(u) => {
                self.emit_lattice_head(n, ind);
                self.emit_nodes(&u.children, &d1, false);
            },
            Node::PressureEffect(_) => self.emit_lattice_head(n, ind),
            Node::ProjectScope(ps) => {
                let mut h = text::str_chars("%");
                append_string(&mut h, &ps.name);
                assert(h@ =~= "%"@ + ps.name@);
                self.line(ind, &h);
                self.emit_nodes(&ps.children, &d1, false);
            },
            _ => self.emit_leaf(n, ind),
        }
    }

    /// The text: the lines without trailing blank ones, joined by newlines,
    /// with a final newline.
    fn finish(self) -> (r: String)
        ensures
            r@ == finish_spec(self.lv()),
    {
        let mut lines = self.lines;
        let ghost lv0 = text::views(lines@);
        while lines.len() > 0 && lines[lines.len() - 1].len() == 0
            invariant
                strip_blank_tail(text::views(lines@)) == strip_blank_tail(lv0),
            decreases lines.len(),
        {
            let ghost before = text::views(lines@);
            lines.pop();
            assert(text::views(lines@) =~= before.drop_last());
        }
        assert(strip_blank_tail(text::views(lines@)) == text::views(lines@));
        let mut out = text::join_str(&lines, "\n");
        append_str(&mut out, "\n");
        text::to_string(&out)
    }
}

/// Formats a document into its canonical source text.
pub fn format(doc: &Document) -> (r: String)
    ensures
        r@ == format_spec(*doc),
        r@ == text::join(strip_blank_tail(doc_lines(*doc)), "\n"@) + "\n"@,
        r@.len() > 0 && r@.last() == '\n',
        all_clean(strip_blank_tail(doc_lines(*doc))),
        strip_blank_tail(doc_lines(*doc)).len() == 0 || strip_blank_tail(doc_lines(*doc)).last().len()
            > 0,
{
    let mut f = Formatter { lines: Vec::new() };
    assert(f.lv() =~= Seq::<Seq<char>>::empty());
    let ind: Vec<char> = Vec::new();
    f.emit_nodes(&doc.nodes, &ind, true);
    proof {
        lemma_format_shape(*doc);
    }
    f.finish()
}


// ── No trailing whitespace ─────────────────────────────────────

/// A line that is empty or does not end in whitespace.
pub open spec fn clean_line(l: Seq<char>) -> bool {
    l.len() == 0 || !text::is_ws(l.last())
}

pub open spec fn all_clean(ls: Seq<Seq<char>>) -> bool {
    forall|i: int| 0 <= i < ls.len() ==> #[trigger] clean_line(ls[i])
}

pub proof fn lemma_push_line_clean(acc: Seq<Seq<char>>, ind: Seq<char>, t: Seq<char>)
    requires
        all_clean(acc),
    ensures
        all_clean(push_line(acc, ind, t)),
{
    let tt = trim_end(t);
    text::lemma_trail_count_props(t, text::ws_pred());
    let r = push_line(acc, ind, t);
    assert forall|i: int| 0 <= i < r.len() implies #[trigger] clean_line(r[i]) by {
        if i < acc.len() {
            assert(r[i] == acc[i]);
        } else if tt.len() > 0 {
            let l = ind + tt;
            assert(l.last() == tt.last());
            assert(tt.last() == t[t.len() - text::trail_count(t, text::ws_pred()) - 1]);
        }
    }
}

pub proof fn lemma_push_lines_clean(acc: Seq<Seq<char>>, ind: Seq<char>, ts: Seq<Seq<char>>)
    requires
        all_clean(acc),
    ensures
        all_clean(push_lines(acc, ind, ts)),
    decreases ts.len(),
{
    if ts.len() > 0 {
        lemma_push_lines_clean(acc, ind, ts.drop_last());
        lemma_push_line_clean(push_lines(acc, ind, ts.drop_last()), ind, ts.last());
    }
}

pub proof fn lemma_blank_clean(acc: Seq<Seq<char>>)
    requires
        all_clean(acc),
    ensures
        all_clean(blank_if_needed(acc)),
{
    let r = blank_if_needed(acc);
    assert forall|i: int| 0 <= i < r.len() implies #[trigger] clean_line(r[i]) by {
        if i < acc.len() {
            assert(r[i] == acc[i]);
        }
    }
}

pub proof fn lemma_batch_clean(acc: Seq<Seq<char>>, ind: Seq<char>, recs: Seq<crate::types::BatchRecord>)
    requires
        all_clean(acc),
    ensures
        all_clean(batch_lines(acc, ind, recs)),
    decreases recs.len(),
{
    if recs.len() > 0 {
        lemma_batch_clean(acc, ind, recs.drop_last());
        let a = batch_lines(acc, ind, recs.drop_last());
        lemma_push_line_clean(a, ind, "- id: "@ + recs.last().id@);
        lemma_push_lines_clean(
            push_line(a, ind, "- id: "@ + recs.last().id@),
            ind + level(),
            kv_texts(recs.last().fields@),
        );
    }
}

pub proof fn lemma_leaf_clean(acc: Seq<Seq<char>>, n: Node, ind: Seq<char>)
    requires
        all_clean(acc),
    ensures
        all_clean(leaf_lines(acc, n, ind)),
{
    lemma_push_line_clean(acc, ind, leaf_head(n));
    let a0 = push_line(acc, ind, leaf_head(n));
    lemma_push_lines_clean(a0, ind + level(), leaf_body(n));
    let a = push_lines(a0, ind + level(), leaf_body(n));
    match n {
        Node::CodeBlock(cb) => {
            lemma_push_lines_clean(a0, ind, text::lines(cb.content@));
            lemma_push_line_clean(push_lines(a0, ind, text::lines(cb.content@)), ind, "```"@);
        },
        Node::Mutate(m) => match m.batch {
            Some(b) => lemma_batch_clean(a, ind + level(), b@),
            None => {},
        },
        _ => {},
    }
}

pub proof fn lemma_nodes_clean(acc: Seq<Seq<char>>, ns: Seq<Node>, ind: Seq<char>, top: bool)
    requires
        all_clean(acc),
    ensures
        all_clean(nodes_lines(acc, ns, ind, top)),
    decreases ns,
{
    if ns.len() > 0 {
        lemma_nodes_clean(acc, ns.drop_last(), ind, top);
        let a = nodes_lines(acc, ns.drop_last(), ind, top);
        lemma_blank_clean(a);
        let a2 = if top && ns.len() >= 2 && is_block(ns.last()) && is_block(ns[ns.len() - 2]) {
            blank_if_needed(a)
        } else {
            a
        };
        lemma_node_clean(a2, ns.last(), ind);
    }
}

pub proof fn lemma_section_clean(acc: Seq<Seq<char>>, o: Option<Vec<Node>>, ind: Seq<char>, label: Seq<char>)
    requires
        all_clean(acc),
    ensures
        all_clean(section_lines(acc, o, ind, label)),
    decreases o,
{
    match o {
        Some(p) => {
            lemma_push_line_clean(acc, ind + level(), label);
            lemma_nodes_clean(push_line(acc, ind + level(), label), p@, ind + level() + level(), false);
        },
        None => {},
    }
}

pub proof fn lemma_arms_clean(acc: Seq<Seq<char>>, arms: Seq<crate::types::MatchArm>, ind: Seq<char>)
    requires
        all_clean(acc),
    ensures
        all_clean(arms_lines(acc, arms, ind)),
    decreases arms,
{
    if arms.len() > 0 {
        lemma_arms_clean(acc, arms.drop_last(), ind);
        let a = arms_lines(acc, arms.drop_last(), ind);
        let h = "match "@ + arms.last().pattern@ + ":"@;
        lemma_push_line_clean(a, ind + level(), h);
        lemma_nodes_clean(push_line(a, ind + level(), h), arms.last().children@, ind + level() + level(), false);
    }
}

pub proof fn lemma_arms_opt_clean(acc: Seq<Seq<char>>, o: Option<Vec<crate::types::MatchArm>>, ind: Seq<char>)
    requires
        all_clean(acc),
    ensures
        all_clean(arms_opt(acc, o, ind)),
    decreases o,
{
    match o {
        Some(a) => lemma_arms_clean(acc, a@, ind),
        None => {},
    }
}

pub proof fn lemma_task_clean(acc: Seq<Seq<char>>, t: crate::types::Task, ind: Seq<char>)
    requires
        all_clean(acc),
    ensures
        all_clean(task_lines(acc, t, ind)),
    decreases t,
{
    lemma_push_line_clean(acc, ind, task_head(t));
    let a0 = push_line(acc, ind, task_head(t));
    lemma_push_lines_clean(a0, ind + level(), task_fields(t));
    let a1 = push_lines(a0, ind + level(), task_fields(t));
    lemma_nodes_clean(a1, t.children@, ind + level(), false);
    let a2 = nodes_lines(a1, t.children@, ind + level(), false);
    lemma_section_clean(a2, t.on_pass, ind, "on_pass:"@);
    let a3 = section_lines(a2, t.on_pass, ind, "on_pass:"@);
    lemma_section_clean(a3, t.on_fail, ind, "on_fail:"@);
    let a4 = section_lines(a3, t.on_fail, ind, "on_fail:"@);
    lemma_arms_opt_clean(a4, t.match_arms, ind);
}

proof fn lemma_arts_clean(acc: Seq<Seq<char>>, arts: Seq<crate::types::LatticeArtifactRef>, ind: Seq<char>)
    requires
        all_clean(acc),
    ensures
        all_clean(arts_lines(acc, arts, ind)),
    decreases arts.len(),
{
    if arts.len() > 0 {
        let a = arts.last();
        lemma_arts_clean(acc, arts.drop_last(), ind);
        let a0 = arts_lines(acc, arts.drop_last(), ind);
        lemma_push_line_clean(a0, ind + level(), "artifact: "@ + a.artifact@);
        let a1 = push_line(a0, ind + level(), "artifact: "@ + a.artifact@);
        lemma_push_lines_clean(a1, ind + level() + level(), opt_item("schema: "@, a.schema));
        let a2 = push_lines(a1, ind + level() + level(), opt_item("schema: "@, a.schema));
        lemma_push_lines_clean(
            a2,
            ind + level() + level(),
            a.checks@.map_values(|c: crate::types::LatticeFieldCheck| check_str(c)),
        );
    }
}

proof fn lemma_schema_lines_clean(acc: Seq<Seq<char>>, fs: Seq<crate::types::LatticeSchemaField>, ind: Seq<char>)
    requires
        all_clean(acc),
    ensures
        all_clean(schema_lines(acc, fs, ind)),
    decreases fs.len(),
{
    if fs.len() > 0 {
        let f = fs.last();
        lemma_schema_lines_clean(acc, fs.drop_last(), ind);
        let a0 = schema_lines(acc, fs.drop_last(), ind);
        lemma_push_line_clean(a0, ind + level(), "name: "@ + f.name@);
        let a1 = push_line(a0, ind + level(), "name: "@ + f.name@);
        lemma_push_lines_clean(a1, ind + level() + level(), seq!["type: "@ + f.field_type@] + (if f.required {
            seq!["required: true"@]
        } else {
            Seq::empty()
        }));
    }
}

proof fn lemma_lattice_clean(acc: Seq<Seq<char>>, n: Node, ind: Seq<char>)
    requires
        all_clean(acc),
    ensures
        all_clean(lattice_lines(acc, n, ind)),
{
    match n {
        Node::LatticeValidates(l) => {
            lemma_push_line_clean(acc, ind, "lattice_validates:"@);
            lemma_arts_clean(push_line(acc, ind, "lattice_validates:"@), l.artifacts@, ind);
        },
        Node::LatticeConstraint(l) => {
            let h = "lattice_constraint: "@ + match l.constraint_type {
                Some(t) => t@,
                None => Seq::empty(),
            };
            lemma_push_line_clean(acc, ind, h);
            lemma_push_lines_clean(
                push_line(acc, ind, h),
                ind + level(),
                seq!["rule: "@ + l.rule@] + (if l.applies_to@.len() > 0 {
                    seq!["applies_to: "@ + text::join(text::str_views(l.applies_to@), ", "@)]
                } else {
                    Seq::empty()
                }),
            );
        },
        Node::LatticeSchema(l) => {
            lemma_push_line_clean(acc, ind, "lattice_schema:"@);
            lemma_schema_lines_clean(push_line(acc, ind, "lattice_schema:"@), l.fields@, ind);
        },
        Node::LatticeFrontier(l) => {
            lemma_push_line_clean(acc, ind, "lattice_frontier:"@);
            lemma_push_lines_clean(
                push_line(acc, ind, "lattice_frontier:"@),
                ind + level(),
                opt_item("expected_schema: "@, l.expected_schema) + prefixed("missing_field: "@, l.missing_fields@)
                    + prefixed("strategy: "@, l.exploration_strategy@),
            );
        },
        Node::PressureEffect(p) => {
            lemma_push_line_clean(acc, ind, "pressure_effect:"@);
            lemma_push_lines_clean(
                push_line(acc, ind, "pressure_effect:"@),
                ind + level(),
                seq!["dynamic: "@ + p.dynamic@] + opt_item("target: "@, p.target),
            );
        },
        Node::UnitCell(_) => lemma_push_line_clean(acc, ind, "unit_cell:"@),
        Node::Symmetry(_) => lemma_push_line_clean(acc, ind, "symmetry:"@),
        _ => {},
    }
}

pub proof fn lemma_node_clean(acc: Seq<Seq<char>>, n: Node, ind: Seq<char>)
    requires
        all_clean(acc),
    ensures
        all_clean(node_lines(acc, n, ind)),
    decreases n,
{
    match n {
        Node::Group(g) => {
            let h = text::repeat("#"@, g.depth as nat) + " "@ + g.name@ + atoms_str(g.atoms@) + gates_str(g.gates@);
            lemma_push_line_clean(acc, ind, h);
            lemma_nodes_clean(push_line(acc, ind, h), g.children@, ind + level(), false);
        },
        Node::Task(t) => lemma_task_clean(acc, t, ind),
        Node::Validate(v) => {
            let h = "validate "@ + v.name@ + ":"@;
            lemma_push_line_clean(acc, ind, h);
            lemma_push_lines_clean(push_line(acc, ind, h), ind + level(), meta_texts(v.meta));
            lemma_nodes_clean(
                push_lines(push_line(acc, ind, h), ind + level(), meta_texts(v.meta)),
                v.children@,
                ind + level(),
                false,
            );
        },
        Node::Conditional(c) => {
            let h = "if "@ + (if c.condition.live {
                "||"@ + c.condition.expr@ + "||"@
            } else {
                "|"@ + c.condition.expr@ + "|"@
            }) + ":"@;
            lemma_push_line_clean(acc, ind, h);
            lemma_nodes_clean(push_line(acc, ind, h), c.children@, ind + level(), false);
        },
        Node::GateDef(g) => {
            let h = "gate: "@ + g.name@;
            lemma_push_line_clean(acc, ind, h);
            lemma_nodes_clean(push_line(acc, ind, h), g.children@, ind + level(), false);
        },
        Node::LatticeValidates(l) => {
            lemma_lattice_clean(acc, n, ind);
            lemma_nodes_clean(lattice_lines(acc, n, ind), l.children@, ind + level(), false);
        },
        Node::LatticeConstraint(l) => {
            lemma_lattice_clean(acc, n, ind);
            lemma_nodes_clean(lattice_lines(acc, n, ind), l.children@, ind + level(), false);
        },
        Node::LatticeSchema(l) => {
            lemma_lattice_clean(acc, n, ind);
            lemma_nodes_clean(lattice_lines(acc, n, ind), l.children@, ind + level(), false);
        },
        Node::LatticeFrontier(l) => {
            lemma_lattice_clean(acc, n, ind);
            lemma_nodes_clean(lattice_lines(acc, n, ind), l.children@, ind + level(), false);
        },
        Node::UnitCell(u) => {
            lemma_lattice_clean(acc, n, ind);
            lemma_nodes_clean(lattice_lines(acc, n, ind), u.children@, ind + level(), false);
        },
        Node::Symmetry(u) => {
            lemma_lattice_clean(acc, n, ind);
            lemma_nodes_clean(lattice_lines(acc, n, ind), u.children@, ind + level(), false);
        },
        Node::PressureEffect(_) => lemma_lattice_clean(acc, n, ind),
        Node::ProjectScope(ps) => {
            let h = "%"@ + ps.name@;
            lemma_push_line_clean(acc, ind, h);
            lemma_nodes_clean(push_line(acc, ind, h), ps.children@, ind + level(), false);
        },
        _ => lemma_leaf_clean(acc, n, ind),
    }
}

pub proof fn lemma_strip_blank_tail(ls: Seq<Seq<char>>)
    ensures
        strip_blank_tail(ls).len() <= ls.len(),
        forall|i: int| 0 <= i < strip_blank_tail(ls).len() ==> strip_blank_tail(ls)[i] == ls[i],
        strip_blank_tail(ls).len() == 0 || strip_blank_tail(ls).last().len() > 0,
    decreases ls.len(),
{
    if ls.len() > 0 && ls.last().len() == 0 {
        lemma_strip_blank_tail(ls.drop_last());
        let st = strip_blank_tail(ls);
        assert forall|i: int| 0 <= i < st.len() implies st[i] == ls[i] by {
            assert(ls.drop_last()[i] == ls[i]);
        }
    }
}

/// The output lines of a document, before trailing blank lines are dropped.
pub open spec fn doc_lines(doc: Document) -> Seq<Seq<char>> {
    nodes_lines(Seq::empty(), doc.nodes@, Seq::empty(), true)
}

/// The canonical text of any document is its lines joined by newlines and
/// ended by a newline; no line ends in whitespace, and the last line is not
/// blank.
pub proof fn lemma_format_shape(doc: Document)
    ensures
        format_spec(doc) == text::join(strip_blank_tail(doc_lines(doc)), "\n"@) + "\n"@,
        format_spec(doc).len() > 0,
        format_spec(doc).last() == '\n',
        all_clean(strip_blank_tail(doc_lines(doc))),
        strip_blank_tail(doc_lines(doc)).len() == 0 || strip_blank_tail(doc_lines(doc)).last().len() > 0,
{
    let ls = doc_lines(doc);
    reveal_strlit("\n");
    let j = text::join(strip_blank_tail(ls), "\n"@);
    assert((j + "\n"@).last() == '\n');
    lemma_nodes_clean(Seq::empty(), doc.nodes@, Seq::empty(), true);
    lemma_strip_blank_tail(ls);
    let st = strip_blank_tail(ls);
    assert forall|i: int| 0 <= i < st.len() implies #[trigger] clean_line(st[i]) by {
        assert(st[i] == ls[i]);
    }
}

/// No line holds a newline character.
pub open spec fn no_newline(ls: Seq<Seq<char>>) -> bool {
    forall|i: int, j: int| 0 <= i < ls.len() && 0 <= j < ls[i].len() ==> #[trigger] ls[i][j] != '\n'
}

/// Every newline of a text that ends a non-blank line follows a character
/// that is no whitespace.
pub open spec fn lines_end_clean(r: Seq<char>) -> bool {
    forall|i: int| 0 < i < r.len() && #[trigger] r[i] == '\n' ==> r[i - 1] == '\n' || !text::is_ws(r[i - 1])
}

proof fn lemma_join_clean(ls: Seq<Seq<char>>)
    requires
        all_clean(ls),
        no_newline(ls),
    ensures
        lines_end_clean(text::join(ls, "\n"@)),
        text::join(ls, "\n"@).len() == 0 || text::join(ls, "\n"@).last() == '\n' || !text::is_ws(
            text::join(ls, "\n"@).last(),
        ),
        ls.len() > 0 && ls.last().len() > 0 ==> text::join(ls, "\n"@).len() > 0 && text::join(ls, "\n"@).last()
            == ls.last().last(),
    decreases ls.len(),
{
    reveal_strlit("\n");
    if ls.len() == 1 {
        assert(clean_line(ls[0]));
        let l = ls[0];
        assert forall|i: int| 0 < i < l.len() && #[trigger] l[i] == '\n' implies l[i - 1] == '\n'
            || !text::is_ws(l[i - 1]) by {
            assert(ls[0][i] != '\n');
        }
    } else if ls.len() >= 2 {
        let init = ls.drop_last();
        assert forall|i: int| 0 <= i < init.len() implies #[trigger] clean_line(init[i]) by {
            assert(clean_line(ls[i]));
        }
        assert forall|i: int, j: int| 0 <= i < init.len() && 0 <= j < init[i].len() implies #[trigger] init[i][j]
            != '\n' by {
            assert(init[i] == ls[i]);
            assert(ls[i][j] != '\n');
        }
        lemma_join_clean(init);
        let j0 = text::join(init, "\n"@);
        let last = ls.last();
        let j = j0 + "\n"@ + last;
        assert(text::join(ls, "\n"@) == j);
        assert(clean_line(ls[ls.len() - 1]));
        assert forall|i: int| 0 < i < j.len() && #[trigger] j[i] == '\n' implies j[i - 1] == '\n' || !text::is_ws(
            j[i - 1],
        ) by {
            if i < j0.len() {
                assert(j[i] == j0[i]);
                assert(j[i - 1] == j0[i - 1]);
            } else if i == j0.len() {
                assert(j[i - 1] == j0.last());
            } else if i == j0.len() + 1 {
                assert(j[i] == last[0]);
                assert(ls[ls.len() - 1][0] != '\n');
            } else {
                let k = i - j0.len() - 1;
                assert(j[i] == last[k]);
                assert(ls[ls.len() - 1][k] != '\n');
            }
        }
        if last.len() > 0 {
            assert(j.last() == last.last());
        } else {
            assert(j.last() == '\n');
        }
    }
}

/// The text that `format` gives ends with one newline and not two; and where
/// no line of it holds a newline of its own (a text of the document that
/// holds one), no line of the text ends in whitespace.
pub proof fn lemma_format_text_shape(doc: Document)
    ensures
        format_spec(doc).len() > 0 && format_spec(doc).last() == '\n',
        format_spec(doc).len() < 2 || format_spec(doc)[format_spec(doc).len() - 2] != '\n',
        no_newline(strip_blank_tail(doc_lines(doc))) ==> lines_end_clean(format_spec(doc)),
{
    reveal_strlit("\n");
    lemma_format_shape(doc);
    let ls = strip_blank_tail(doc_lines(doc));
    let j = text::join(ls, "\n"@);
    let r = format_spec(doc);
    assert(r == j + "\n"@);
    if ls.len() > 0 {
        let l = ls.last();
        assert(clean_line(ls[ls.len() - 1]));
        if ls.len() == 1 {
            assert(j == ls[0]);
        } else {
            assert(j == text::join(ls.drop_last(), "\n"@) + "\n"@ + l);
        }
        assert(j.len() > 0 && j.last() == l.last());
        assert(r[r.len() - 2] == j.last());
        assert(text::is_ws('\n'));
    } else {
        assert(j.len() == 0);
    }
    if no_newline(ls) {
        lemma_join_clean(ls);
        assert forall|i: int| 0 < i < r.len() && #[trigger] r[i] == '\n' implies r[i - 1] == '\n' || !text::is_ws(
            r[i - 1],
        ) by {
            if i < j.len() {
                assert(r[i] == j[i]);
                assert(r[i - 1] == j[i - 1]);
            } else {
                assert(r[i - 1] == j.last());
            }
        }
    }
}

} // verus!
