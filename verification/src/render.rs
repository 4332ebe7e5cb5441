//! Rendering a document back to .bit text.
use crate::line;
use crate::text;
use crate::text::{append, append_str, append_string};
use crate::types::{
    Atom, Document, FieldDef, FieldDefault, FlowEdge, Gate, MatchArm, Node, Spawn, TaskKind,
    TaskMarker, TaskPrefix, VarValue, Priority,
};
use vstd::prelude::*;

verus! {

/// One level of indentation.
pub open spec fn step() -> Seq<char> {
    "    "@
}

pub open spec fn opt_text(o: Option<String>) -> Seq<char> {
    match o {
        Some(s) => s@,
        None => Seq::empty(),
    }
}

/// ` :name` or ` :name:value`.
pub open spec fn atom_text(a: Atom) -> Seq<char> {
    " :"@ + a.name@ + match a.value {
        Some(v) => ":"@ + v@,
        None => Seq::empty(),
    }
}

pub open spec fn atoms_text(atoms: Seq<Atom>) -> Seq<char>
    decreases atoms.len(),
{
    if atoms.len() == 0 {
        Seq::empty()
    } else {
        atoms_text(atoms.drop_last()) + atom_text(atoms.last())
    }
}

/// ` {name}` for each gate.
pub open spec fn gates_text(gates: Seq<Gate>) -> Seq<char>
    decreases gates.len(),
{
    if gates.len() == 0 {
        Seq::empty()
    } else {
        gates_text(gates.drop_last()) + " {"@ + gates.last().name@ + "}"@
    }
}

pub open spec fn prefix_text(p: TaskPrefix) -> Seq<char> {
    match p {
        TaskPrefix::Parallel => "+"@,
        TaskPrefix::Subtask(n) => text::repeat("-"@, n as nat),
        TaskPrefix::ParallelSubtask => "++"@,
        TaskPrefix::Unset => Seq::empty(),
    }
}

pub open spec fn seq_text(m: TaskMarker) -> Seq<char> {
    match m.seq {
        Some(n) => text::decimal(n as nat),
        None => Seq::empty(),
    }
}

pub open spec fn kind_sign(m: TaskMarker, label: Option<String>) -> Seq<char> {
    match m.kind {
        TaskKind::Required => "!"@,
        TaskKind::Optional => "o"@,
        TaskKind::Completed => "x"@,
        TaskKind::Open => if m.priority is Decision && m.seq is None {
            "?"@
        } else if label is None && m.seq is None {
            " "@
        } else {
            Seq::empty()
        },
    }
}

/// The bracketed marker of a task: prefix, `[`, label, sequence number,
/// the kind's sign and `]`.
pub open spec fn marker_text(m: TaskMarker, label: Option<String>) -> Seq<char> {
    prefix_text(m.prefix) + "["@ + opt_text(label) + seq_text(m) + kind_sign(m, label) + "]"@
}

pub open spec fn colon_opts(opts: Seq<String>) -> Seq<Seq<char>> {
    opts.map_values(|o: String| ":"@ + o@)
}

/// The default value of a field as written after its colon.
pub open spec fn default_text(d: FieldDefault) -> Seq<char> {
    match d {
        FieldDefault::Str(s) => "\""@ + s@ + "\""@,
        FieldDefault::Int(n) => text::signed_decimal(n as int),
        FieldDefault::Float(f) => f@,
        FieldDefault::Bool(b) => if b {
            "true"@
        } else {
            "false"@
        },
        FieldDefault::Atom(a) => ":"@ + a@,
        FieldDefault::Enum(opts) => text::join(colon_opts(opts@), "/"@),
        FieldDefault::Ref(r) => "@"@ + r@,
        FieldDefault::List => "[]"@,
        FieldDefault::Timestamp(t) => "|"@ + t@ + "|"@,
        FieldDefault::Nil => "nil"@,
    }
}

/// `name: default` or `name(s): default`.
pub open spec fn field_text(f: FieldDef) -> Seq<char> {
    f.name@ + (if f.plural {
        "(s)"@
    } else {
        Seq::empty()
    }) + ": "@ + default_text(f.default)
}

/// The arrow of an edge, with its timeout, wait, gate or label.
pub open spec fn arrow_text(e: FlowEdge) -> Seq<char> {
    if e.timeout is Some {
        "--timeout:|"@ + e.timeout->0@ + "|-->"@
    } else if e.wait is Some {
        "--wait:|"@ + e.wait->0@ + "|-->"@
    } else if e.gate is Some {
        "--"@ + e.gate->0@ + "-->"@
    } else if e.label is Some {
        "--"@ + e.label->0@ + "-->"@
    } else if e.parallel {
        "+-->"@
    } else {
        "-->"@
    }
}

/// An edge line at indentation `ind`.
pub open spec fn edge_text(e: FlowEdge, ind: Seq<char>) -> Seq<char> {
    ind + text::join(text::str_views(e.from@), ", "@) + " "@ + arrow_text(e) + " "@ + text::join(
        text::str_views(e.to@),
        ", "@,
    ) + "\n"@
}

pub open spec fn edges_text(edges: Seq<FlowEdge>, ind: Seq<char>) -> Seq<char>
    decreases edges.len(),
{
    if edges.len() == 0 {
        Seq::empty()
    } else {
        edges_text(edges.drop_last(), ind) + edge_text(edges.last(), ind)
    }
}

/// How an entity is named with its scope: `$Mod.@E`, `@workspace:W.@E` or
/// `@E`.
pub open spec fn scoped_entity(ms: Option<String>, ws: Option<String>, entity: Seq<char>) -> Seq<char> {
    match ms {
        Some(m) => "$"@ + m@ + ".@"@ + entity,
        None => match ws {
            Some(w) => "@workspace:"@ + w@ + ".@"@ + entity,
            None => "@"@ + entity,
        },
    }
}

// ── Executable pieces ──────────────────────────────────────────

fn push_opt(out: &mut Vec<char>, o: &Option<String>)
    ensures
        final(out)@ == old(out)@ + opt_text(*o),
{
    match o {
        Some(s) => append_string(out, s),
        None => {
            assert(old(out)@ + Seq::<char>::empty() =~= old(out)@);
        },
    }
}

pub fn render_atom(a: &Atom, out: &mut Vec<char>)
    ensures
        final(out)@ == old(out)@ + atom_text(*a),
{
    append_str(out, " :");
    append_string(out, &a.name);
    match &a.value {
        Some(v) => {
            append_str(out, ":");
            append_string(out, v);
        },
        None => {},
    }
    assert(out@ =~= old(out)@ + atom_text(*a));
}

fn render_atoms(atoms: &Vec<Atom>, out: &mut Vec<char>)
    ensures
        final(out)@ == old(out)@ + atoms_text(atoms@),
{
    let mut i: usize = 0;
    assert(atoms@.take(0) =~= Seq::<Atom>::empty());
    assert(old(out)@ + Seq::<char>::empty() =~= old(out)@);
    while i < atoms.len()
        invariant
            i <= atoms.len(),
            out@ == old(out)@ + atoms_text(atoms@.take(i as int)),
        decreases atoms.len() - i,
    {
        assert(atoms@.take(i + 1).drop_last() =~= atoms@.take(i as int));
        render_atom(&atoms[i], out);
        i = i + 1;
        assert(out@ =~= old(out)@ + atoms_text(atoms@.take(i as int)));
    }
    assert(atoms@.take(atoms.len() as int) =~= atoms@);
}

fn render_gates(gates: &Vec<Gate>, out: &mut Vec<char>)
    ensures
        final(out)@ == old(out)@ + gates_text(gates@),
{
    let mut i: usize = 0;
    assert(gates@.take(0) =~= Seq::<Gate>::empty());
    assert(old(out)@ + Seq::<char>::empty() =~= old(out)@);
    while i < gates.len()
        invariant
            i <= gates.len(),
            out@ == old(out)@ + gates_text(gates@.take(i as int)),
        decreases gates.len() - i,
    {
        assert(gates@.take(i + 1).drop_last() =~= gates@.take(i as int));
        append_str(out, " {");
        append_string(out, &gates[i].name);
        append_str(out, "}");
        i = i + 1;
        assert(out@ =~= old(out)@ + gates_text(gates@.take(i as int)));
    }
    assert(gates@.take(gates.len() as int) =~= gates@);
}

fn push_prefix(p: TaskPrefix, out: &mut Vec<char>)
    ensures
        final(out)@ == old(out)@ + prefix_text(p),
{
    match p {
        TaskPrefix::Parallel => append_str(out, "+"),
        TaskPrefix::Subtask(n) => {
            let d = text::repeat_str("-", n as usize);
            append(out, &d);
        },
        TaskPrefix::ParallelSubtask => append_str(out, "++"),
        TaskPrefix::Unset => {
            assert(old(out)@ =~= old(out)@ + Seq::<char>::empty());
        },
    }
}

fn push_seq(m: &TaskMarker, out: &mut Vec<char>)
    ensures
        final(out)@ == old(out)@ + seq_text(*m),
{
    match m.seq {
        Some(n) => {
            let d = text::decimal_u64_chars(n as u64);
            append(out, &d);
        },
        None => {
            assert(old(out)@ =~= old(out)@ + Seq::<char>::empty());
        },
    }
}

fn push_kind(m: &TaskMarker, label: &Option<String>, out: &mut Vec<char>)
    ensures
        final(out)@ == old(out)@ + kind_sign(*m, *label),
{
    match m.kind {
        TaskKind::Required => append_str(out, "!"),
        TaskKind::Optional => append_str(out, "o"),
        TaskKind::Completed => append_str(out, "x"),
        TaskKind::Open => {
            let decision = match m.priority {
                Priority::Decision => true,
                _ => false,
            };
            if decision && m.seq.is_none() {
                append_str(out, "?");
            } else if label.is_none() && m.seq.is_none() {
                append_str(out, " ");
            } else {
                assert(old(out)@ =~= old(out)@ + Seq::<char>::empty());
            }
        },
    }
}

pub fn render_task_marker(m: &TaskMarker, label: &Option<String>, out: &mut Vec<char>)
    ensures
        final(out)@ == old(out)@ + marker_text(*m, *label),
{
    let ghost o0 = out@;
    push_prefix(m.prefix, out);
    append_str(out, "[");
    push_opt(out, label);
    push_seq(m, out);
    push_kind(m, label, out);
    append_str(out, "]");
    assert(out@ =~= o0 + marker_text(*m, *label));
}

fn write_field_def(f: &FieldDef, out: &mut Vec<char>)
    ensures
        final(out)@ == old(out)@ + field_text(*f),
{
    let ghost o0 = out@;
    append_string(out, &f.name);
    if f.plural {
        append_str(out, "(s)");
    }
    append_str(out, ": ");
    let ghost o1 = out@;
    match &f.default {
        FieldDefault::Str(s) => {
            append_str(out, "\"");
            append_string(out, s);
            append_str(out, "\"");
        },
        FieldDefault::Int(n) => text::append_signed(out, *n),
        FieldDefault::Float(x) => append_string(out, x),
        FieldDefault::Bool(b) => if *b {
            append_str(out, "true")
        } else {
            append_str(out, "false")
        },
        FieldDefault::Atom(a) => {
            append_str(out, ":");
            append_string(out, a);
        },
        FieldDefault::Enum(opts) => {
            let mut parts: Vec<Vec<char>> = Vec::new();
            let mut i: usize = 0;
            while i < opts.len()
                invariant
                    i <= opts.len(),
                    text::views(parts@) == colon_opts(opts@).take(i as int),
                decreases opts.len() - i,
            {
                let mut p = text::str_chars(":");
                append_string(&mut p, &opts[i]);
                proof {
                    text::lemma_views_push(parts@, p);
                }
                parts.push(p);
                i = i + 1;
                assert(text::views(parts@) =~= colon_opts(opts@).take(i as int));
            }
            assert(colon_opts(opts@).take(opts.len() as int) =~= colon_opts(opts@));
            let j = text::join_str(&parts, "/");
            append(out, &j);
        },
        FieldDefault::Ref(r) => {
            append_str(out, "@");
            append_string(out, r);
        },
        FieldDefault::List => append_str(out, "[]"),
        FieldDefault::Timestamp(t) => {
            append_str(out, "|");
            append_string(out, t);
            append_str(out, "|");
        },
        FieldDefault::Nil => append_str(out, "nil"),
    }
    assert(out@ =~= o0 + field_text(*f));
}

/// Appends the text of a field definition: `name: default`.
pub fn render_field_def(f: &FieldDef, out: &mut String)
    ensures
        final(out)@ == old(out)@ + field_text(*f),
{
    let mut v: Vec<char> = Vec::new();
    write_field_def(f, &mut v);
    assert(v@ =~= field_text(*f));
    text::push_chars(out, &v);
}

fn join_strings(v: &Vec<String>, sep: &str) -> (r: Vec<char>)
    ensures
        r@ == text::join(text::str_views(v@), sep@),
{
    let parts = text::from_strings(v);
    text::join_str(&parts, sep)
}

pub fn render_flow_edge(e: &FlowEdge, ind: &Vec<char>, out: &mut Vec<char>)
    ensures
        final(out)@ == old(out)@ + edge_text(*e, ind@),
{
    let ghost o0 = out@;
    append(out, ind);
    append(out, &join_strings(&e.from, ", "));
    append_str(out, " ");
    let ghost o1 = out@;
    if e.timeout.is_some() {
        append_str(out, "--timeout:|");
        push_opt(out, &e.timeout);
        append_str(out, "|-->");
    } else if e.wait.is_some() {
        append_str(out, "--wait:|");
        push_opt(out, &e.wait);
        append_str(out, "|-->");
    } else if e.gate.is_some() {
        append_str(out, "--");
        push_opt(out, &e.gate);
        append_str(out, "-->");
    } else if e.label.is_some() {
        append_str(out, "--");
        push_opt(out, &e.label);
        append_str(out, "-->");
    } else if e.parallel {
        append_str(out, "+-->");
    } else {
        append_str(out, "-->");
    }
    assert(out@ =~= o1 + arrow_text(*e));
    append_str(out, " ");
    append(out, &join_strings(&e.to, ", "));
    append_str(out, "\n");
    assert(out@ =~= o0 + edge_text(*e, ind@));
}

fn render_edges(edges: &Vec<FlowEdge>, ind: &Vec<char>, out: &mut Vec<char>)
    ensures
        final(out)@ == old(out)@ + edges_text(edges@, ind@),
{
    let mut i: usize = 0;
    assert(edges@.take(0) =~= Seq::<FlowEdge>::empty());
    assert(old(out)@ + Seq::<char>::empty() =~= old(out)@);
    while i < edges.len()
        invariant
            i <= edges.len(),
            out@ == old(out)@ + edges_text(edges@.take(i as int), ind@),
        decreases edges.len() - i,
    {
        assert(edges@.take(i + 1).drop_last() =~= edges@.take(i as int));
        render_flow_edge(&edges[i], ind, out);
        i = i + 1;
        assert(out@ =~= old(out)@ + edges_text(edges@.take(i as int), ind@));
    }
    assert(edges@.take(edges.len() as int) =~= edges@);
}

fn push_scoped(out: &mut Vec<char>, ms: &Option<String>, ws: &Option<String>, entity: &String)
    ensures
        final(out)@ == old(out)@ + scoped_entity(*ms, *ws, entity@),
{
    match ms {
        Some(m) => {
            append_str(out, "$");
            append_string(out, m);
            append_str(out, ".@");
            append_string(out, entity);
        },
        None => match ws {
            Some(w) => {
                append_str(out, "@workspace:");
                append_string(out, w);
                append_str(out, ".@");
                append_string(out, entity);
            },
            None => {
                append_str(out, "@");
                append_string(out, entity);
            },
        },
    }
    assert(out@ =~= old(out)@ + scoped_entity(*ms, *ws, entity@));
}


// ── Text of nodes ──────────────────────────────────────────────

/// `ind` + `label` + value + newline, when the value is present.
pub open spec fn opt_line(ind: Seq<char>, label: Seq<char>, o: Option<String>) -> Seq<char> {
    match o {
        Some(x) => ind + label + x@ + "\n"@,
        None => Seq::empty(),
    }
}

/// `ind` + `label` + `"value"` + newline, when the value is present.
pub open spec fn opt_quoted_line(ind: Seq<char>, label: Seq<char>, o: Option<String>) -> Seq<char> {
    match o {
        Some(x) => ind + label + "\""@ + x@ + "\"\n"@,
        None => Seq::empty(),
    }
}

/// `prefix` + value, when the value is present.
pub open spec fn opt_prefixed(prefix: Seq<char>, o: Option<String>) -> Seq<char> {
    match o {
        Some(x) => prefix + x@,
        None => Seq::empty(),
    }
}

/// Field lines of a definition, one level deeper than `ind`.
pub open spec fn fields_lines(fs: Seq<FieldDef>, ind: Seq<char>) -> Seq<char>
    decreases fs.len(),
{
    if fs.len() == 0 {
        Seq::empty()
    } else {
        fields_lines(fs.drop_last(), ind) + ind + step() + field_text(fs.last()) + "\n"@
    }
}

/// `key: value` lines one level deeper than `ind`; with `bare`, a pair
/// under the key `_` is written as its value alone.
pub open spec fn pair_lines(ps: Seq<(String, String)>, ind: Seq<char>, bare: bool) -> Seq<char>
    decreases ps.len(),
{
    if ps.len() == 0 {
        Seq::empty()
    } else {
        let (k, v) = ps.last();
        pair_lines(ps.drop_last(), ind, bare) + if bare && k@ == "_"@ {
            ind + step() + v@ + "\n"@
        } else {
            ind + step() + k@ + ": "@ + v@ + "\n"@
        }
    }
}

/// `id:key:value` lines of one batch record.
pub open spec fn record_lines(id: Seq<char>, fs: Seq<(String, String)>, ind: Seq<char>) -> Seq<char>
    decreases fs.len(),
{
    if fs.len() == 0 {
        Seq::empty()
    } else {
        record_lines(id, fs.drop_last(), ind) + ind + step() + id + ":"@ + fs.last().0@ + ":"@
            + fs.last().1@ + "\n"@
    }
}

pub open spec fn batch_lines(recs: Seq<crate::types::BatchRecord>, ind: Seq<char>) -> Seq<char>
    decreases recs.len(),
{
    if recs.len() == 0 {
        Seq::empty()
    } else {
        batch_lines(recs.drop_last(), ind) + record_lines(recs.last().id@, recs.last().fields@, ind)
    }
}

/// Quoted lines of a form setting that may repeat.
pub open spec fn quoted_lines(vs: Seq<String>, ind: Seq<char>, label: Seq<char>) -> Seq<char>
    decreases vs.len(),
{
    if vs.len() == 0 {
        Seq::empty()
    } else {
        quoted_lines(vs.drop_last(), ind, label) + ind + label + "\""@ + vs.last()@ + "\"\n"@
    }
}

pub open spec fn projection_lines(ps: Seq<crate::types::FormProjectionDef>, ind: Seq<char>) -> Seq<char>
    decreases ps.len(),
{
    if ps.len() == 0 {
        Seq::empty()
    } else {
        projection_lines(ps.drop_last(), ind) + ind + "    projection_"@ + ps.last().target@ + ": \""@
            + ps.last().mapping@ + "\"\n"@
    }
}

pub open spec fn define_text(d: crate::types::Define, ind: Seq<char>) -> Seq<char> {
    ind + "define:"@ + scoped_entity(d.mod_scope, d.workspace_scope, d.entity@) + opt_prefixed(
        " from "@,
        d.from_scope,
    ) + atoms_text(d.atoms@) + "\n"@ + fields_lines(d.fields@, ind) + "\n"@
}

pub open spec fn mutate_text(m: crate::types::Mutate, ind: Seq<char>) -> Seq<char> {
    ind + "mutate:"@ + scoped_entity(m.mod_scope, m.workspace_scope, m.entity@) + opt_prefixed(
        ":"@,
        m.id,
    ) + "\n"@ + match m.batch {
        Some(b) => batch_lines(b@, ind),
        None => pair_lines(m.fields@, ind, false),
    } + "\n"@
}

/// The entity of a query with its scope (`E` without `@` when unscoped).
pub open spec fn query_entity(q: crate::types::Query) -> Seq<char> {
    match q.mod_scope {
        Some(m) => "$"@ + m@ + ".@"@ + q.entity@,
        None => match q.workspace_scope {
            Some(w) => "@workspace:"@ + w@ + ".@"@ + q.entity@,
            None => q.entity@,
        },
    }
}

pub open spec fn query_text(q: crate::types::Query, ind: Seq<char>) -> Seq<char> {
    ind + "? "@ + query_entity(q) + (if q.plural {
        "(s)"@
    } else {
        Seq::empty()
    }) + opt_prefixed(" from snap:"@, q.from_snapshot) + opt_prefixed(" where "@, q.filter)
        + "\n"@ + opt_line(ind, "    sort: "@, q.sort) + limit_line(ind, q.limit) + include_line(
        ind,
        q.includes,
    )
}

pub open spec fn limit_line(ind: Seq<char>, l: Option<usize>) -> Seq<char> {
    match l {
        Some(l) => ind + "    limit: "@ + text::decimal(l as nat) + "\n"@,
        None => Seq::empty(),
    }
}

pub open spec fn include_line(ind: Seq<char>, inc: Option<Vec<String>>) -> Seq<char> {
    match inc {
        Some(inc) => ind + "    include: "@ + text::join(text::str_views(inc@), ", "@) + "\n"@,
        None => Seq::empty(),
    }
}

pub open spec fn schema_line(ind: Seq<char>, v: Option<u32>) -> Seq<char> {
    match v {
        Some(v) => ind + "    schema_version: "@ + text::decimal(v as nat) + "\n"@,
        None => Seq::empty(),
    }
}

pub open spec fn form_head(f: crate::types::FormDef, ind: Seq<char>) -> Seq<char> {
    ind + "form:"@ + f.name@ + "\n"@ + schema_line(ind, f.schema_version) + opt_quoted_line(
        ind,
        "    ui_layout: "@,
        f.ui_layout,
    ) + quoted_lines(f.ui_pages@, ind, "    ui_page: "@)
}

pub open spec fn form_tail(f: crate::types::FormDef, ind: Seq<char>) -> Seq<char> {
    opt_quoted_line(ind, "    storage_canonical: "@, f.storage.canonical) + opt_quoted_line(
        ind,
        "    storage_entity: "@,
        f.storage.entity,
    ) + opt_quoted_line(ind, "    storage_duckdb: "@, f.storage.duckdb) + projection_lines(
        f.projections@,
        ind,
    ) + fields_lines(f.fields@, ind)
}

pub open spec fn form_text(f: crate::types::FormDef, ind: Seq<char>) -> Seq<char> {
    form_head(f, ind) + form_tail(f, ind) + "\n"@
}

pub open spec fn quoted_opts(opts: Seq<String>) -> Seq<Seq<char>> {
    opts.map_values(|o: String| "\""@ + o@ + "\""@)
}

/// The text of a node that has no child nodes.
pub open spec fn leaf_text(n: Node, ind: Seq<char>) -> Seq<char> {
    match n {
        Node::Prose(p) => ind + p.text@ + "\n"@,
        Node::Comment(c) => ind + "// "@ + c.text@ + "\n"@,
        Node::Spawn(sp) => "\n"@ + (if sp == Spawn::Parallel {
            "+\n"@
        } else {
            "++\n"@
        }) + "\n"@,
        Node::Divider => "---\n\n"@,
        Node::Define(d) => define_text(d, ind),
        Node::Mutate(m) => mutate_text(m, ind),
        Node::Delete(d) => ind + "delete:"@ + scoped_entity(d.mod_scope, d.workspace_scope, d.entity@)
            + ":"@ + d.id@ + "\n"@,
        Node::Query(q) => query_text(q, ind),
        Node::Variable(v) => ind + v.name@ + " = "@ + crate::index::var_text(v.value) + "\n"@,
        Node::Flow(f) => ind + "flow:\n"@ + edges_text(f.edges@, ind + step()) + "\n"@,
        Node::States(st) => ind + "states:\n"@ + edges_text(st.transitions@, ind + step()) + "\n"@,
        Node::Form(f) => form_text(f, ind),
        Node::ModDef(m) => ind + "mod:$"@ + m.name@ + "\n"@ + pair_lines(m.body@, ind, true) + "\n"@,
        Node::ModInvoke(m) => ind + "$"@ + m.name@ + opt_prefixed("."@, m.method) + match m.args {
            Some(a) => "("@ + a@ + ")"@,
            None => Seq::empty(),
        } + "\n"@,
        Node::Snap(x) => ind + "snap: \""@ + x.name@ + "\"\n"@,
        Node::Diff(d) => ind + "diff: "@ + d.target@ + opt_prefixed(" from snap:"@, d.from_snapshot)
            + "\n"@,
        Node::History(h) => ind + "history: "@ + h.target@ + match h.limit {
            Some(l) => " limit: "@ + text::decimal(l as nat),
            None => Seq::empty(),
        } + "\n"@,
        Node::StatusDef(x) => ind + "status: "@ + text::join(quoted_opts(x.options@), "/"@) + "\n"@,
        Node::Routine(r) => ind + "routine:"@ + r.trigger@ + ":|"@ + r.expr@ + "|\n"@,
        Node::Bold(b) => ind + "**"@ + b.text@ + "**\n"@,
        Node::Remember(r) => ind + "remember: \""@ + r.content@ + "\"\n"@,
        Node::Recall(r) => ind + "recall: \""@ + r.query@ + "\"\n"@,
        Node::EmbedMarker(e) => ind + "^"@ + e.tag@ + "\n"@,
        Node::Escalate(e) => ind + "escalate: "@ + e.target@ + "\n"@,
        Node::CodeBlock(cb) => ind + "```"@ + opt_text(cb.lang) + "\n"@ + cb.content@ + "\n"@ + ind
            + "```\n"@,
        Node::Webhook(w) => ind + "webhook: on:|"@ + w.trigger@ + "| url: \""@ + w.url@ + "\""@
            + match w.payload {
            Some(p) => " payload: \""@ + p@ + "\""@,
            None => Seq::empty(),
        } + "\n"@,
        Node::FilesDef(f) => ind + "files:\n"@ + path_lines(f.paths@, ind),
        Node::PolicyDef(p) => ind + "policy:\n"@ + rule_lines(p.rules@, ind),
        Node::Git(g) => ind + "git:"@ + g.verb@ + (if g.args@.len() > 0 {
            " "@ + g.args@
        } else {
            Seq::empty()
        }) + "\n"@ + git_body_lines(g.body@, ind),
        Node::Check(c) => ind + "check: "@ + c.name@ + "\n"@ + git_body_lines(c.body@, ind) + "\n"@,
        Node::UseBlock(u) => ind + "use "@ + u.mod_name@ + " config:\n"@ + git_body_lines(u.config@, ind),
        Node::MetricDef(m) => metric_text(m, ind),
        Node::Serve(sv) => ind + "serve:"@ + sv.target@ + "|"@ + sv.command@ + "|\n"@ + opt_setting(ind, "port"@, sv.port)
            + opt_setting(ind, "open"@, sv.open),
        Node::EntityDef(e) => entity_text(e, ind),
        Node::SyncDef(sd) => ind + "sync:"@ + sd.name@ + "\n"@ + setting_line(ind, "class"@, sd.class@)
            + setting_line(ind, "source"@, sd.source@) + setting_line(ind, "identity"@, sd.identity@),
        _ => Seq::empty(),
    }
}

/// A `key: value` line one level deeper than `ind`, when the value is not
/// empty.
pub open spec fn setting_line(ind: Seq<char>, key: Seq<char>, v: Seq<char>) -> Seq<char> {
    if v.len() > 0 {
        ind + "    "@ + key + ": "@ + v + "\n"@
    } else {
        Seq::empty()
    }
}

/// The lines of a multi-line formula, two steps deeper than `ind`.
pub open spec fn formula_lines(ls: Seq<Seq<char>>, ind: Seq<char>) -> Seq<char>
    decreases ls.len(),
{
    if ls.len() == 0 {
        Seq::empty()
    } else {
        formula_lines(ls.drop_last(), ind) + ind + "    "@ + ls.last() + "\n"@
    }
}

/// A metric: its header, then its settings; a formula that spans lines is
/// written as a `|` block.
pub open spec fn metric_text(m: crate::types::MetricDef, ind: Seq<char>) -> Seq<char> {
    ind + "## Metric: "@ + m.name@ + "\n"@ + opt_setting(ind, "source"@, m.source) + (if m.cross_source {
        ind + "  cross_source: true\n"@
    } else {
        Seq::empty()
    }) + opt_setting(ind, "grain"@, m.grain) + (if m.dimensions@.len() > 0 {
        ind + "  dimensions: ["@ + text::join(text::str_views(m.dimensions@), ", "@) + "]\n"@
    } else {
        Seq::empty()
    }) + formula_text(m.formula@, ind)
}

/// A metric's formula: none when empty, a `|` block when it spans lines.
pub open spec fn formula_text(f: Seq<char>, ind: Seq<char>) -> Seq<char> {
    if f.len() == 0 {
        Seq::empty()
    } else if text::contains(f, seq!['\n']) {
        ind + "  formula: |\n"@ + formula_lines(text::lines(f), ind)
    } else {
        ind + "  formula: "@ + f + "\n"@
    }
}

/// `  key: value` one step deeper than `ind`, when there is a value.
pub open spec fn opt_setting(ind: Seq<char>, key: Seq<char>, o: Option<String>) -> Seq<char> {
    match o {
        Some(v) => ind + "  "@ + key + ": "@ + v@ + "\n"@,
        None => Seq::empty(),
    }
}

/// An entity: its header, its three settings, then its fields.
pub open spec fn entity_text(e: crate::types::EntityDef, ind: Seq<char>) -> Seq<char> {
    ind + "## Entity: "@ + e.name@ + "\n"@ + ind + "  source: "@ + e.source@ + "\n"@ + ind + "  namespace: "@
        + e.namespace@ + "\n"@ + ind + "  identity: "@ + e.identity@ + "\n"@ + (if e.fields@.len() > 0 {
        ind + "  fields:\n"@ + entity_field_lines(e.fields@, ind)
    } else {
        Seq::empty()
    })
}

/// The `- name: type` lines of an entity's fields.
pub open spec fn entity_field_lines(fs: Seq<crate::types::EntityField>, ind: Seq<char>) -> Seq<char>
    decreases fs.len(),
{
    if fs.len() == 0 {
        Seq::empty()
    } else {
        entity_field_lines(fs.drop_last(), ind) + ind + "    - "@ + fs.last().name@ + ": "@ + fs.last().field_type@
            + "\n"@
    }
}

/// The `key: value` lines of a git operation.
pub open spec fn git_body_lines(ps: Seq<(String, String)>, ind: Seq<char>) -> Seq<char>
    decreases ps.len(),
{
    if ps.len() == 0 {
        Seq::empty()
    } else {
        git_body_lines(ps.drop_last(), ind) + ind + "    "@ + ps.last().0@ + ": "@ + ps.last().1@ + "\n"@
    }
}

/// The path lines of a `files:` block.
pub open spec fn path_lines(ps: Seq<String>, ind: Seq<char>) -> Seq<char>
    decreases ps.len(),
{
    if ps.len() == 0 {
        Seq::empty()
    } else {
        path_lines(ps.drop_last(), ind) + ind + "    @"@ + ps.last()@ + "\n"@
    }
}

/// Gates written `{name body}` one after another.
pub open spec fn brace_gates(gs: Seq<Gate>) -> Seq<char>
    decreases gs.len(),
{
    if gs.len() == 0 {
        Seq::empty()
    } else {
        brace_gates(gs.drop_last()) + "{"@ + gs.last().name@ + opt_prefixed(" "@, gs.last().body) + "}"@
    }
}

/// The rule lines of a `policy:` block.
pub open spec fn rule_lines(rs: Seq<crate::types::PolicyRule>, ind: Seq<char>) -> Seq<char>
    decreases rs.len(),
{
    if rs.len() == 0 {
        Seq::empty()
    } else {
        let r = rs.last();
        rule_lines(rs.drop_last(), ind) + ind + "    @"@ + r.path@ + (if r.gates.len() > 0 {
            ": "@ + brace_gates(r.gates@)
        } else {
            Seq::empty()
        }) + "\n"@
    }
}

pub open spec fn nodes_text(ns: Seq<Node>, ind: Seq<char>) -> Seq<char>
    decreases ns,
{
    if ns.len() == 0 {
        Seq::empty()
    } else {
        nodes_text(ns.drop_last(), ind) + node_text(ns.last(), ind)
    }
}

pub open spec fn arms_text(arms: Seq<MatchArm>, ind: Seq<char>) -> Seq<char>
    decreases arms,
{
    if arms.len() == 0 {
        Seq::empty()
    } else {
        arms_text(arms.drop_last(), ind) + ind + step() + step() + arms.last().pattern@ + ":\n"@
            + nodes_text(arms.last().children@, ind + step() + step() + step())
    }
}

/// The header line of a task and its `depends`, `validate` and `status`
/// lines.
pub open spec fn task_head(t: crate::types::Task, ind: Seq<char>) -> Seq<char> {
    ind + marker_text(t.marker, t.label) + " "@ + t.text@ + gates_text(t.gates@) + "\n"@ + opt_line(
        ind,
        "    depends: "@,
        t.depends,
    ) + opt_line(ind, "    validate: "@, t.validate) + opt_line(ind, "    status: "@, t.status)
}

/// An `on_pass:` or `on_fail:` section of a task, when present.
pub open spec fn section_text(o: Option<Vec<Node>>, ind: Seq<char>, label: Seq<char>) -> Seq<char>
    decreases o,
{
    match o {
        Some(p) => ind + label + nodes_text(p@, ind + step() + step()),
        None => Seq::empty(),
    }
}

/// The `match:` section of a task, when present.
pub open spec fn arms_section(o: Option<Vec<MatchArm>>, ind: Seq<char>) -> Seq<char>
    decreases o,
{
    match o {
        Some(a) => ind + "    match:\n"@ + arms_text(a@, ind),
        None => Seq::empty(),
    }
}

/// The text of a task line and its block.
pub open spec fn task_text(t: crate::types::Task, ind: Seq<char>) -> Seq<char>
    decreases t,
{
    task_head(t, ind) + nodes_text(t.children@, ind + step()) + section_text(
        t.on_pass,
        ind,
        "    on_pass:\n"@,
    ) + section_text(t.on_fail, ind, "    on_fail:\n"@) + arms_section(t.match_arms, ind)
}

/// A `key: value` line one step deeper than `ind`.
pub open spec fn line4(ind: Seq<char>, key: Seq<char>, v: Seq<char>) -> Seq<char> {
    ind + "    "@ + key + ": "@ + v + "\n"@
}

/// One `key: value` line per value.
pub open spec fn list_lines(ind: Seq<char>, key: Seq<char>, vs: Seq<String>) -> Seq<char>
    decreases vs.len(),
{
    if vs.len() == 0 {
        Seq::empty()
    } else {
        list_lines(ind, key, vs.drop_last()) + line4(ind, key, vs.last()@)
    }
}

pub open spec fn check_text(c: crate::types::LatticeFieldCheck, ind: Seq<char>) -> Seq<char> {
    line4(ind, "field"@, c.field@) + (if c.required {
        line4(ind, "required"@, "true"@)
    } else {
        Seq::empty()
    }) + match c.min_items {
        Some(n) => line4(ind, "min_items"@, text::decimal(n as nat)),
        None => Seq::empty(),
    }
}

pub open spec fn checks_text(cs: Seq<crate::types::LatticeFieldCheck>, ind: Seq<char>) -> Seq<char>
    decreases cs.len(),
{
    if cs.len() == 0 {
        Seq::empty()
    } else {
        checks_text(cs.drop_last(), ind) + check_text(cs.last(), ind)
    }
}

pub open spec fn art_text(a: crate::types::LatticeArtifactRef, ind: Seq<char>) -> Seq<char> {
    line4(ind, "artifact"@, a.artifact@) + match a.schema {
        Some(x) => line4(ind, "schema"@, x@),
        None => Seq::empty(),
    } + checks_text(a.checks@, ind)
}

pub open spec fn arts_text(arts: Seq<crate::types::LatticeArtifactRef>, ind: Seq<char>) -> Seq<char>
    decreases arts.len(),
{
    if arts.len() == 0 {
        Seq::empty()
    } else {
        arts_text(arts.drop_last(), ind) + art_text(arts.last(), ind)
    }
}

pub open spec fn schema_field_text(f: crate::types::LatticeSchemaField, ind: Seq<char>) -> Seq<char> {
    line4(ind, "name"@, f.name@) + line4(ind, "type"@, f.field_type@) + (if f.required {
        line4(ind, "required"@, "true"@)
    } else {
        Seq::empty()
    })
}

pub open spec fn schema_fields_text(fs: Seq<crate::types::LatticeSchemaField>, ind: Seq<char>) -> Seq<char>
    decreases fs.len(),
{
    if fs.len() == 0 {
        Seq::empty()
    } else {
        schema_fields_text(fs.drop_last(), ind) + schema_field_text(fs.last(), ind)
    }
}

/// The header and setting lines of a lattice section, before its children.
pub open spec fn lattice_head(n: Node, ind: Seq<char>) -> Seq<char> {
    match n {
        Node::LatticeValidates(l) => ind + "lattice_validates:\n"@ + arts_text(l.artifacts@, ind),
        Node::LatticeConstraint(l) => ind + "lattice_constraint:\n"@ + match l.constraint_type {
            Some(t) => line4(ind, "type"@, t@),
            None => Seq::empty(),
        } + (if l.rule@.len() > 0 {
            line4(ind, "rule"@, l.rule@)
        } else {
            Seq::empty()
        }) + list_lines(ind, "applies_to"@, l.applies_to@),
        Node::LatticeSchema(l) => ind + "lattice_schema:\n"@ + schema_fields_text(l.fields@, ind),
        Node::LatticeFrontier(l) => ind + "lattice_frontier:\n"@ + match l.expected_schema {
            Some(x) => line4(ind, "expected_schema"@, x@),
            None => Seq::empty(),
        } + list_lines(ind, "missing_field"@, l.missing_fields@) + list_lines(
            ind,
            "strategy"@,
            l.exploration_strategy@,
        ),
        Node::PressureEffect(p) => ind + "pressure_effect:\n"@ + (if p.dynamic@.len() > 0 {
            line4(ind, "dynamic"@, p.dynamic@)
        } else {
            Seq::empty()
        }) + match p.target {
            Some(t) => line4(ind, "target"@, t@),
            None => Seq::empty(),
        },
        Node::UnitCell(_) => ind + "unit_cell:\n"@,
        Node::Symmetry(_) => ind + "symmetry:\n"@,
        _ => Seq::empty(),
    }
}

/// The text of a node at indentation `ind`.
pub open spec fn node_text(n: Node, ind: Seq<char>) -> Seq<char>
    decreases n,
{
    match n {
        Node::Group(g) => ind + text::repeat("#"@, g.depth as nat) + " "@ + g.name@ + atoms_text(g.atoms@)
            + "\n\n"@ + nodes_text(g.children@, ind + step()),
        Node::Task(t) => task_text(t, ind),
        Node::Validate(v) => ind + "validate "@ + v.name@ + ":\n"@ + nodes_text(v.children@, ind + step())
            + "\n"@,
        Node::Conditional(c) => ind + (if c.condition.live {
            "if ||"@ + c.condition.expr@ + "||:\n"@
        } else {
            "if |"@ + c.condition.expr@ + "|:\n"@
        }) + nodes_text(c.children@, ind + step()),
        Node::GateDef(g) => ind + "gate:"@ + g.name@ + "\n"@ + nodes_text(g.children@, ind + step()),
        Node::LatticeValidates(l) => lattice_head(n, ind) + nodes_text(l.children@, ind + step()),
        Node::LatticeConstraint(l) => lattice_head(n, ind) + nodes_text(l.children@, ind + step()),
        Node::LatticeSchema(l) => lattice_head(n, ind) + nodes_text(l.children@, ind + step()),
        Node::LatticeFrontier(l) => lattice_head(n, ind) + nodes_text(l.children@, ind + step()),
        Node::UnitCell(u) => lattice_head(n, ind) + nodes_text(u.children@, ind + step()),
        Node::Symmetry(u) => lattice_head(n, ind) + nodes_text(u.children@, ind + step()),
        Node::PressureEffect(_) => lattice_head(n, ind),
        Node::ProjectScope(ps) => ind + "%"@ + ps.name@ + "\n"@ + nodes_text(ps.children@, ind + step()),
        _ => leaf_text(n, ind),
    }
}

/// The text of a document: its nodes, without trailing whitespace.
pub open spec fn render_spec(doc: Document) -> Seq<char> {
    text::trim_end(nodes_text(doc.nodes@, Seq::empty()))
}


// ── Writing nodes ──────────────────────────────────────────────

fn push_fields_lines(fs: &Vec<FieldDef>, ind: &Vec<char>, out: &mut Vec<char>)
    ensures
        final(out)@ == old(out)@ + fields_lines(fs@, ind@),
{
    let mut i: usize = 0;
    assert(fs@.take(0) =~= Seq::<FieldDef>::empty());
    assert(old(out)@ + Seq::<char>::empty() =~= old(out)@);
    while i < fs.len()
        invariant
            i <= fs.len(),
            out@ == old(out)@ + fields_lines(fs@.take(i as int), ind@),
        decreases fs.len() - i,
    {
        assert(fs@.take(i + 1).drop_last() =~= fs@.take(i as int));
        append(out, ind);
        append_str(out, "    ");
        write_field_def(&fs[i], out);
        append_str(out, "\n");
        i = i + 1;
        assert(out@ =~= old(out)@ + fields_lines(fs@.take(i as int), ind@));
    }
    assert(fs@.take(fs.len() as int) =~= fs@);
}

#[verifier::spinoff_prover]
fn push_pair_lines(ps: &Vec<(String, String)>, ind: &Vec<char>, bare: bool, out: &mut Vec<char>)
    ensures
        final(out)@ == old(out)@ + pair_lines(ps@, ind@, bare),
{
    let mut i: usize = 0;
    assert(ps@.take(0) =~= Seq::<(String, String)>::empty());
    assert(old(out)@ + Seq::<char>::empty() =~= old(out)@);
    while i < ps.len()
        invariant
            i <= ps.len(),
            out@ == old(out)@ + pair_lines(ps@.take(i as int), ind@, bare),
        decreases ps.len() - i,
    {
        assert(ps@.take(i + 1).drop_last() =~= ps@.take(i as int));
        assert(ps@.take(i + 1).last() == ps@[i as int]);
        let (k, v) = &ps[i];
        append(out, ind);
        append_str(out, "    ");
        if bare && text::eq_str(&text::string_chars(k), "_") {
            append_string(out, v);
        } else {
            append_string(out, k);
            append_str(out, ": ");
            append_string(out, v);
        }
        append_str(out, "\n");
        i = i + 1;
        assert(out@ =~= old(out)@ + pair_lines(ps@.take(i as int), ind@, bare));
    }
    assert(ps@.take(ps.len() as int) =~= ps@);
}

fn push_record_lines(id: &String, fs: &Vec<(String, String)>, ind: &Vec<char>, out: &mut Vec<char>)
    ensures
        final(out)@ == old(out)@ + record_lines(id@, fs@, ind@),
{
    let mut i: usize = 0;
    assert(fs@.take(0) =~= Seq::<(String, String)>::empty());
    assert(old(out)@ + Seq::<char>::empty() =~= old(out)@);
    while i < fs.len()
        invariant
            i <= fs.len(),
            out@ == old(out)@ + record_lines(id@, fs@.take(i as int), ind@),
        decreases fs.len() - i,
    {
        assert(fs@.take(i + 1).drop_last() =~= fs@.take(i as int));
        assert(fs@.take(i + 1).last() == fs@[i as int]);
        append(out, ind);
        append_str(out, "    ");
        append_string(out, id);
        append_str(out, ":");
        append_string(out, &fs[i].0);
        append_str(out, ":");
        append_string(out, &fs[i].1);
        append_str(out, "\n");
        i = i + 1;
        assert(out@ =~= old(out)@ + record_lines(id@, fs@.take(i as int), ind@));
    }
    assert(fs@.take(fs.len() as int) =~= fs@);
}

fn push_batch_lines(recs: &Vec<crate::types::BatchRecord>, ind: &Vec<char>, out: &mut Vec<char>)
    ensures
        final(out)@ == old(out)@ + batch_lines(recs@, ind@),
{
    let mut i: usize = 0;
    assert(recs@.take(0) =~= Seq::<crate::types::BatchRecord>::empty());
    assert(old(out)@ + Seq::<char>::empty() =~= old(out)@);
    while i < recs.len()
        invariant
            i <= recs.len(),
            out@ == old(out)@ + batch_lines(recs@.take(i as int), ind@),
        decreases recs.len() - i,
    {
        assert(recs@.take(i + 1).drop_last() =~= recs@.take(i as int));
        push_record_lines(&recs[i].id, &recs[i].fields, ind, out);
        i = i + 1;
        assert(out@ =~= old(out)@ + batch_lines(recs@.take(i as int), ind@));
    }
    assert(recs@.take(recs.len() as int) =~= recs@);
}

fn push_quoted_lines(vs: &Vec<String>, ind: &Vec<char>, label: &str, out: &mut Vec<char>)
    ensures
        final(out)@ == old(out)@ + quoted_lines(vs@, ind@, label@),
{
    let mut i: usize = 0;
    assert(vs@.take(0) =~= Seq::<String>::empty());
    assert(old(out)@ + Seq::<char>::empty() =~= old(out)@);
    while i < vs.len()
        invariant
            i <= vs.len(),
            out@ == old(out)@ + quoted_lines(vs@.take(i as int), ind@, label@),
        decreases vs.len() - i,
    {
        assert(vs@.take(i + 1).drop_last() =~= vs@.take(i as int));
        append(out, ind);
        append_str(out, label);
        append_str(out, "\"");
        append_string(out, &vs[i]);
        append_str(out, "\"\n");
        i = i + 1;
        assert(out@ =~= old(out)@ + quoted_lines(vs@.take(i as int), ind@, label@));
    }
    assert(vs@.take(vs.len() as int) =~= vs@);
}

fn push_projection_lines(ps: &Vec<crate::types::FormProjectionDef>, ind: &Vec<char>, out: &mut Vec<char>)
    ensures
        final(out)@ == old(out)@ + projection_lines(ps@, ind@),
{
    let mut i: usize = 0;
    assert(ps@.take(0) =~= Seq::<crate::types::FormProjectionDef>::empty());
    assert(old(out)@ + Seq::<char>::empty() =~= old(out)@);
    while i < ps.len()
        invariant
            i <= ps.len(),
            out@ == old(out)@ + projection_lines(ps@.take(i as int), ind@),
        decreases ps.len() - i,
    {
        assert(ps@.take(i + 1).drop_last() =~= ps@.take(i as int));
        append(out, ind);
        append_str(out, "    projection_");
        append_string(out, &ps[i].target);
        append_str(out, ": \"");
        append_string(out, &ps[i].mapping);
        append_str(out, "\"\n");
        i = i + 1;
        assert(out@ =~= old(out)@ + projection_lines(ps@.take(i as int), ind@));
    }
    assert(ps@.take(ps.len() as int) =~= ps@);
}

fn push_opt_line(ind: &Vec<char>, label: &str, o: &Option<String>, out: &mut Vec<char>)
    ensures
        final(out)@ == old(out)@ + opt_line(ind@, label@, *o),
{
    match o {
        Some(x) => {
            append(out, ind);
            append_str(out, label);
            append_string(out, x);
            append_str(out, "\n");
            assert(out@ =~= old(out)@ + opt_line(ind@, label@, *o));
        },
        None => {
            assert(old(out)@ + Seq::<char>::empty() =~= old(out)@);
        },
    }
}

fn push_opt_quoted_line(ind: &Vec<char>, label: &str, o: &Option<String>, out: &mut Vec<char>)
    ensures
        final(out)@ == old(out)@ + opt_quoted_line(ind@, label@, *o),
{
    match o {
        Some(x) => {
            append(out, ind);
            append_str(out, label);
            append_str(out, "\"");
            append_string(out, x);
            append_str(out, "\"\n");
            assert(out@ =~= old(out)@ + opt_quoted_line(ind@, label@, *o));
        },
        None => {
            assert(old(out)@ + Seq::<char>::empty() =~= old(out)@);
        },
    }
}

fn push_opt_prefixed(prefix: &str, o: &Option<String>, out: &mut Vec<char>)
    ensures
        final(out)@ == old(out)@ + opt_prefixed(prefix@, *o),
{
    match o {
        Some(x) => {
            append_str(out, prefix);
            append_string(out, x);
            assert(out@ =~= old(out)@ + opt_prefixed(prefix@, *o));
        },
        None => {
            assert(old(out)@ + Seq::<char>::empty() =~= old(out)@);
        },
    }
}

fn render_define(d: &crate::types::Define, ind: &Vec<char>, out: &mut Vec<char>)
    ensures
        final(out)@ == old(out)@ + define_text(*d, ind@),
{
    append(out, ind);
    append_str(out, "define:");
    push_scoped(out, &d.mod_scope, &d.workspace_scope, &d.entity);
    push_opt_prefixed(" from ", &d.from_scope, out);
    render_atoms(&d.atoms, out);
    append_str(out, "\n");
    push_fields_lines(&d.fields, ind, out);
    append_str(out, "\n");
    assert(out@ =~= old(out)@ + define_text(*d, ind@));
}

fn render_mutate(m: &crate::types::Mutate, ind: &Vec<char>, out: &mut Vec<char>)
    ensures
        final(out)@ == old(out)@ + mutate_text(*m, ind@),
{
    append(out, ind);
    append_str(out, "mutate:");
    push_scoped(out, &m.mod_scope, &m.workspace_scope, &m.entity);
    push_opt_prefixed(":", &m.id, out);
    append_str(out, "\n");
    let ghost o1 = out@;
    match &m.batch {
        Some(b) => push_batch_lines(b, ind, out),
        None => push_pair_lines(&m.fields, ind, false, out),
    }
    append_str(out, "\n");
    assert(out@ =~= old(out)@ + mutate_text(*m, ind@));
}

fn push_query_entity(q: &crate::types::Query, out: &mut Vec<char>)
    ensures
        final(out)@ == old(out)@ + query_entity(*q),
{
    match &q.mod_scope {
        Some(m) => {
            append_str(out, "$");
            append_string(out, m);
            append_str(out, ".@");
            append_string(out, &q.entity);
        },
        None => match &q.workspace_scope {
            Some(w) => {
                append_str(out, "@workspace:");
                append_string(out, w);
                append_str(out, ".@");
                append_string(out, &q.entity);
            },
            None => append_string(out, &q.entity),
        },
    }
    assert(out@ =~= old(out)@ + query_entity(*q));
}

fn push_limit_line(ind: &Vec<char>, l: Option<usize>, out: &mut Vec<char>)
    ensures
        final(out)@ == old(out)@ + limit_line(ind@, l),
{
    match l {
        Some(l) => {
            append(out, ind);
            append_str(out, "    limit: ");
            text::append_decimal(out, l);
            append_str(out, "\n");
            assert(out@ =~= old(out)@ + limit_line(ind@, Some(l)));
        },
        None => {
            assert(old(out)@ + Seq::<char>::empty() =~= old(out)@);
        },
    }
}

fn push_include_line(ind: &Vec<char>, inc: &Option<Vec<String>>, out: &mut Vec<char>)
    ensures
        final(out)@ == old(out)@ + include_line(ind@, *inc),
{
    match inc {
        Some(v) => {
            append(out, ind);
            append_str(out, "    include: ");
            append(out, &join_strings(v, ", "));
            append_str(out, "\n");
            assert(out@ =~= old(out)@ + include_line(ind@, *inc));
        },
        None => {
            assert(old(out)@ + Seq::<char>::empty() =~= old(out)@);
        },
    }
}

fn render_query(q: &crate::types::Query, ind: &Vec<char>, out: &mut Vec<char>)
    ensures
        final(out)@ == old(out)@ + query_text(*q, ind@),
{
    append(out, ind);
    append_str(out, "? ");
    push_query_entity(q, out);
    if q.plural {
        append_str(out, "(s)");
    }
    let ghost o1 = out@;
    push_opt_prefixed(" from snap:", &q.from_snapshot, out);
    push_opt_prefixed(" where ", &q.filter, out);
    append_str(out, "\n");
    push_opt_line(ind, "    sort: ", &q.sort, out);
    push_limit_line(ind, q.limit, out);
    push_include_line(ind, &q.includes, out);
    assert(out@ =~= old(out)@ + query_text(*q, ind@));
}

fn push_schema_line(ind: &Vec<char>, v: Option<u32>, out: &mut Vec<char>)
    ensures
        final(out)@ == old(out)@ + schema_line(ind@, v),
{
    match v {
        Some(v) => {
            append(out, ind);
            append_str(out, "    schema_version: ");
            let d = text::decimal_u64_chars(v as u64);
            append(out, &d);
            append_str(out, "\n");
            assert(out@ =~= old(out)@ + schema_line(ind@, Some(v)));
        },
        None => {
            assert(old(out)@ + Seq::<char>::empty() =~= old(out)@);
        },
    }
}

fn render_form_head(f: &crate::types::FormDef, ind: &Vec<char>, out: &mut Vec<char>)
    ensures
        final(out)@ == old(out)@ + form_head(*f, ind@),
{
    append(out, ind);
    append_str(out, "form:");
    append_string(out, &f.name);
    append_str(out, "\n");
    push_schema_line(ind, f.schema_version, out);
    push_opt_quoted_line(ind, "    ui_layout: ", &f.ui_layout, out);
    push_quoted_lines(&f.ui_pages, ind, "    ui_page: ", out);
    assert(out@ =~= old(out)@ + form_head(*f, ind@));
}

fn render_form_tail(f: &crate::types::FormDef, ind: &Vec<char>, out: &mut Vec<char>)
    ensures
        final(out)@ == old(out)@ + form_tail(*f, ind@),
{
    push_opt_quoted_line(ind, "    storage_canonical: ", &f.storage.canonical, out);
    push_opt_quoted_line(ind, "    storage_entity: ", &f.storage.entity, out);
    push_opt_quoted_line(ind, "    storage_duckdb: ", &f.storage.duckdb, out);
    push_projection_lines(&f.projections, ind, out);
    push_fields_lines(&f.fields, ind, out);
    assert(out@ =~= old(out)@ + form_tail(*f, ind@));
}

fn render_form(f: &crate::types::FormDef, ind: &Vec<char>, out: &mut Vec<char>)
    ensures
        final(out)@ == old(out)@ + form_text(*f, ind@),
{
    render_form_head(f, ind, out);
    render_form_tail(f, ind, out);
    append_str(out, "\n");
    assert(out@ =~= old(out)@ + form_text(*f, ind@));
}

fn render_mod_invoke(m: &crate::types::ModInvoke, ind: &Vec<char>, out: &mut Vec<char>)
    ensures
        final(out)@ == old(out)@ + leaf_text(Node::ModInvoke(*m), ind@),
{
    append(out, ind);
    append_str(out, "$");
    append_string(out, &m.name);
    push_opt_prefixed(".", &m.method, out);
    let ghost o1 = out@;
    match &m.args {
        Some(a) => {
            append_str(out, "(");
            append_string(out, a);
            append_str(out, ")");
        },
        None => {},
    }
    append_str(out, "\n");
    assert(out@ =~= old(out)@ + leaf_text(Node::ModInvoke(*m), ind@));
}

fn render_status(x: &crate::types::StatusDef, ind: &Vec<char>, out: &mut Vec<char>)
    ensures
        final(out)@ == old(out)@ + leaf_text(Node::StatusDef(*x), ind@),
{
    let mut parts: Vec<Vec<char>> = Vec::new();
    let mut i: usize = 0;
    while i < x.options.len()
        invariant
            i <= x.options.len(),
            text::views(parts@) == quoted_opts(x.options@).take(i as int),
        decreases x.options.len() - i,
    {
        let mut p = text::str_chars("\"");
        append_string(&mut p, &x.options[i]);
        append_str(&mut p, "\"");
        proof {
            text::lemma_views_push(parts@, p);
        }
        parts.push(p);
        i = i + 1;
        assert(text::views(parts@) =~= quoted_opts(x.options@).take(i as int));
    }
    assert(quoted_opts(x.options@).take(x.options.len() as int) =~= quoted_opts(x.options@));
    append(out, ind);
    append_str(out, "status: ");
    append(out, &text::join_str(&parts, "/"));
    append_str(out, "\n");
    assert(out@ =~= old(out)@ + leaf_text(Node::StatusDef(*x), ind@));
}


fn render_leaf(n: &Node, ind: &Vec<char>, out: &mut Vec<char>)
    ensures
        final(out)@ == old(out)@ + leaf_text(*n, ind@),
{
    match n {
        Node::Prose(p) => {
            append(out, ind);
            append_string(out, &p.text);
            append_str(out, "\n");
        },
        Node::Comment(c) => {
            append(out, ind);
            append_str(out, "// ");
            append_string(out, &c.text);
            append_str(out, "\n");
        },
        Node::Spawn(sp) => {
            append_str(out, "\n");
            match sp {
                Spawn::Parallel => append_str(out, "+\n"),
                Spawn::Sequential => append_str(out, "++\n"),
            }
            append_str(out, "\n");
        },
        Node::Divider => append_str(out, "---\n\n"),
        Node::Define(d) => render_define(d, ind, out),
        Node::Mutate(m) => render_mutate(m, ind, out),
        Node::Delete(d) => {
            append(out, ind);
            append_str(out, "delete:");
            push_scoped(out, &d.mod_scope, &d.workspace_scope, &d.entity);
            append_str(out, ":");
            append_string(out, &d.id);
            append_str(out, "\n");
        },
        Node::Query(q) => render_query(q, ind, out),
        Node::Variable(v) => {
            append(out, ind);
            append_string(out, &v.name);
            append_str(out, " = ");
            let t = crate::index::var_text_exec(&v.value);
            append_string(out, &t);
            append_str(out, "\n");
        },
        Node::Flow(f) => {
            append(out, ind);
            append_str(out, "flow:\n");
            let ci = text::concat(ind, &text::str_chars("    "));
            render_edges(&f.edges, &ci, out);
            append_str(out, "\n");
        },
        Node::States(st) => {
            append(out, ind);
            append_str(out, "states:\n");
            let ci = text::concat(ind, &text::str_chars("    "));
            render_edges(&st.transitions, &ci, out);
            append_str(out, "\n");
        },
        Node::Form(f) => render_form(f, ind, out),
        Node::ModDef(m) => {
            append(out, ind);
            append_str(out, "mod:$");
            append_string(out, &m.name);
            append_str(out, "\n");
            push_pair_lines(&m.body, ind, true, out);
            append_str(out, "\n");
        },
        Node::ModInvoke(m) => render_mod_invoke(m, ind, out),
        Node::LatticeValidates(_) | Node::LatticeConstraint(_) | Node::LatticeSchema(_)
        | Node::LatticeFrontier(_) | Node::PressureEffect(_) | Node::UnitCell(_) | Node::Symmetry(_)
        | Node::ProjectScope(_) => {},
        _ => render_leaf_rest(n, ind, out),
    }
    assert(out@ =~= old(out)@ + leaf_text(*n, ind@));
}

fn render_leaf_rest(n: &Node, ind: &Vec<char>, out: &mut Vec<char>)
    requires
        n is Snap || n is Diff || n is History || n is StatusDef || n is Routine || n is Bold
            || n is Remember || n is Recall || n is EmbedMarker || n is Escalate || n is CodeBlock
            || n is Group || n is Task || n is Validate || n is Conditional || n is GateDef
            || n is Webhook || n is FilesDef || n is PolicyDef || n is SyncDef || n is Git || n is Check || n is EntityDef || n is UseBlock || n is Serve || n is MetricDef,
    ensures
        final(out)@ == old(out)@ + leaf_text(*n, ind@),
{
    match n {
        Node::Snap(x) => {
            append(out, ind);
            append_str(out, "snap: \"");
            append_string(out, &x.name);
            append_str(out, "\"\n");
        },
        Node::Diff(d) => {
            append(out, ind);
            append_str(out, "diff: ");
            append_string(out, &d.target);
            push_opt_prefixed(" from snap:", &d.from_snapshot, out);
            append_str(out, "\n");
        },
        Node::History(h) => {
            append(out, ind);
            append_str(out, "history: ");
            append_string(out, &h.target);
            match h.limit {
                Some(l) => {
                    append_str(out, " limit: ");
                    text::append_decimal(out, l);
                },
                None => {},
            }
            append_str(out, "\n");
        },
        Node::StatusDef(x) => render_status(x, ind, out),
        Node::Routine(r) => {
            append(out, ind);
            append_str(out, "routine:");
            append_string(out, &r.trigger);
            append_str(out, ":|");
            append_string(out, &r.expr);
            append_str(out, "|\n");
        },
        Node::Bold(b) => {
            append(out, ind);
            append_str(out, "**");
            append_string(out, &b.text);
            append_str(out, "**\n");
        },
        Node::Remember(r) => {
            append(out, ind);
            append_str(out, "remember: \"");
            append_string(out, &r.content);
            append_str(out, "\"\n");
        },
        Node::Recall(r) => {
            append(out, ind);
            append_str(out, "recall: \"");
            append_string(out, &r.query);
            append_str(out, "\"\n");
        },
        Node::EmbedMarker(e) => {
            append(out, ind);
            append_str(out, "^");
            append_string(out, &e.tag);
            append_str(out, "\n");
        },
        Node::Escalate(e) => {
            append(out, ind);
            append_str(out, "escalate: ");
            append_string(out, &e.target);
            append_str(out, "\n");
        },
        Node::CodeBlock(cb) => {
            append(out, ind);
            append_str(out, "```");
            push_opt(out, &cb.lang);
            append_str(out, "\n");
            append_string(out, &cb.content);
            append_str(out, "\n");
            append(out, ind);
            append_str(out, "```\n");
        },
        Node::Webhook(_) | Node::FilesDef(_) | Node::PolicyDef(_) | Node::SyncDef(_) | Node::Git(_)
        | Node::Check(_) | Node::EntityDef(_) | Node::UseBlock(_) | Node::Serve(_)
        | Node::MetricDef(_) => render_leaf_more(
            n,
            ind,
            out,
        ),
        _ => {},
    }
    assert(out@ =~= old(out)@ + leaf_text(*n, ind@));
}

#[verifier::spinoff_prover]
fn render_leaf_more(n: &Node, ind: &Vec<char>, out: &mut Vec<char>)
    requires
        n is Webhook || n is FilesDef || n is PolicyDef || n is SyncDef || n is Git || n is Check || n is EntityDef || n is UseBlock || n is Serve || n is MetricDef,
    ensures
        final(out)@ == old(out)@ + leaf_text(*n, ind@),
{
    match n {
        Node::Webhook(w) => {
            append(out, ind);
            append_str(out, "webhook: on:|");
            append_string(out, &w.trigger);
            append_str(out, "| url: \"");
            append_string(out, &w.url);
            append_str(out, "\"");
            match &w.payload {
                Some(p) => {
                    append_str(out, " payload: \"");
                    append_string(out, p);
                    append_str(out, "\"");
                },
                None => {},
            }
            append_str(out, "\n");
        },
        Node::FilesDef(f) => {
            append(out, ind);
            append_str(out, "files:\n");
            render_paths(&f.paths, ind, out);
        },
        Node::PolicyDef(p) => {
            append(out, ind);
            append_str(out, "policy:\n");
            render_rules(&p.rules, ind, out);
        },
        Node::Git(g) => {
            append(out, ind);
            append_str(out, "git:");
            append_string(out, &g.verb);
            if text::string_chars(&g.args).len() > 0 {
                append_str(out, " ");
                append_string(out, &g.args);
            }
            append_str(out, "\n");
            render_git_body(&g.body, ind, out);
        },
        Node::SyncDef(sd) => {
            append(out, ind);
            append_str(out, "sync:");
            append_string(out, &sd.name);
            append_str(out, "\n");
            push_setting(out, ind, "class", &sd.class);
            push_setting(out, ind, "source", &sd.source);
            push_setting(out, ind, "identity", &sd.identity);
        },
        Node::EntityDef(e) => render_entity(e, ind, out),
        Node::MetricDef(m) => render_metric(m, ind, out),
        Node::Serve(sv) => {
            append(out, ind);
            append_str(out, "serve:");
            append_string(out, &sv.target);
            append_str(out, "|");
            append_string(out, &sv.command);
            append_str(out, "|\n");
            push_opt_setting(out, ind, "port", &sv.port);
            push_opt_setting(out, ind, "open", &sv.open);
        },
        Node::UseBlock(u) => {
            append(out, ind);
            append_str(out, "use ");
            append_string(out, &u.mod_name);
            append_str(out, " config:\n");
            render_git_body(&u.config, ind, out);
        },
        Node::Check(c) => {
            append(out, ind);
            append_str(out, "check: ");
            append_string(out, &c.name);
            append_str(out, "\n");
            render_git_body(&c.body, ind, out);
            append_str(out, "\n");
        },
        _ => {},
    }
    assert(out@ =~= old(out)@ + leaf_text(*n, ind@));
}

fn render_entity(e: &crate::types::EntityDef, ind: &Vec<char>, out: &mut Vec<char>)
    ensures
        final(out)@ == old(out)@ + entity_text(*e, ind@),
{
    append(out, ind);
    append_str(out, "## Entity: ");
    append_string(out, &e.name);
    append_str(out, "\n");
    append(out, ind);
    append_str(out, "  source: ");
    append_string(out, &e.source);
    append_str(out, "\n");
    append(out, ind);
    append_str(out, "  namespace: ");
    append_string(out, &e.namespace);
    append_str(out, "\n");
    append(out, ind);
    append_str(out, "  identity: ");
    append_string(out, &e.identity);
    append_str(out, "\n");
    if e.fields.len() > 0 {
        append(out, ind);
        append_str(out, "  fields:\n");
        render_entity_fields(&e.fields, ind, out);
    }
    assert(out@ =~= old(out)@ + entity_text(*e, ind@));
}

fn render_formula_lines(ls: &Vec<Vec<char>>, ind: &Vec<char>, out: &mut Vec<char>)
    ensures
        final(out)@ == old(out)@ + formula_lines(text::views(ls@), ind@),
{
    let ghost lv = text::views(ls@);
    let mut i: usize = 0;
    assert(old(out)@ + formula_lines(lv.take(0), ind@) =~= old(out)@);
    while i < ls.len()
        invariant
            i <= ls.len(),
            lv == text::views(ls@),
            out@ == old(out)@ + formula_lines(lv.take(i as int), ind@),
        decreases ls.len() - i,
    {
        assert(lv.take(i + 1).drop_last() =~= lv.take(i as int));
        assert(lv.take(i + 1).last() == ls@[i as int]@);
        append(out, ind);
        append_str(out, "    ");
        append(out, &ls[i]);
        append_str(out, "\n");
        i = i + 1;
        assert(out@ =~= old(out)@ + formula_lines(lv.take(i as int), ind@));
    }
    assert(lv.take(ls.len() as int) =~= lv);
}

fn render_formula(f: &Vec<char>, ind: &Vec<char>, out: &mut Vec<char>)
    ensures
        final(out)@ == old(out)@ + formula_text(f@, ind@),
{
    if f.len() > 0 {
        if text::contains_char(f, '\n') {
            append(out, ind);
            append_str(out, "  formula: |\n");
            let ls = text::lines_of(f);
            render_formula_lines(&ls, ind, out);
        } else {
            append(out, ind);
            append_str(out, "  formula: ");
            append(out, f);
            append_str(out, "\n");
        }
    }
    assert(out@ =~= old(out)@ + formula_text(f@, ind@));
}

#[verifier::spinoff_prover]
fn render_metric(m: &crate::types::MetricDef, ind: &Vec<char>, out: &mut Vec<char>)
    ensures
        final(out)@ == old(out)@ + metric_text(*m, ind@),
{
    let ghost o = old(out)@;
    let ghost i = ind@;
    append(out, ind);
    append_str(out, "## Metric: ");
    append_string(out, &m.name);
    append_str(out, "\n");
    push_opt_setting(out, ind, "source", &m.source);
    let ghost p1 = i + "## Metric: "@ + m.name@ + "\n"@ + opt_setting(i, "source"@, m.source);
    assert(out@ =~= o + p1);
    if m.cross_source {
        append(out, ind);
        append_str(out, "  cross_source: true\n");
    }
    let ghost p2 = p1 + (if m.cross_source {
        i + "  cross_source: true\n"@
    } else {
        Seq::empty()
    });
    assert(out@ =~= o + p2);
    push_opt_setting(out, ind, "grain", &m.grain);
    let ghost p3 = p2 + opt_setting(i, "grain"@, m.grain);
    assert(out@ =~= o + p3);
    if m.dimensions.len() > 0 {
        append(out, ind);
        append_str(out, "  dimensions: [");
        let j = join_strings(&m.dimensions, ", ");
        append(out, &j);
        append_str(out, "]\n");
    }
    let ghost p4 = p3 + (if m.dimensions@.len() > 0 {
        i + "  dimensions: ["@ + text::join(text::str_views(m.dimensions@), ", "@) + "]\n"@
    } else {
        Seq::empty()
    });
    assert(out@ =~= o + p4);
    render_formula(&text::string_chars(&m.formula), ind, out);
    assert(out@ =~= old(out)@ + metric_text(*m, ind@));
}

fn push_opt_setting(out: &mut Vec<char>, ind: &Vec<char>, key: &str, o: &Option<String>)
    ensures
        final(out)@ == old(out)@ + opt_setting(ind@, key@, *o),
{
    match o {
        Some(v) => {
            append(out, ind);
            append_str(out, "  ");
            append_str(out, key);
            append_str(out, ": ");
            append_string(out, v);
            append_str(out, "\n");
        },
        None => {},
    }
}

fn render_entity_fields(fs: &Vec<crate::types::EntityField>, ind: &Vec<char>, out: &mut Vec<char>)
    ensures
        final(out)@ == old(out)@ + entity_field_lines(fs@, ind@),
{
    let mut i: usize = 0;
    assert(old(out)@ + entity_field_lines(fs@.take(0), ind@) =~= old(out)@);
    while i < fs.len()
        invariant
            i <= fs.len(),
            out@ == old(out)@ + entity_field_lines(fs@.take(i as int), ind@),
        decreases fs.len() - i,
    {
        assert(fs@.take(i + 1).drop_last() =~= fs@.take(i as int));
        assert(fs@.take(i + 1).last() == fs@[i as int]);
        append(out, ind);
        append_str(out, "    - ");
        append_string(out, &fs[i].name);
        append_str(out, ": ");
        append_string(out, &fs[i].field_type);
        append_str(out, "\n");
        i = i + 1;
        assert(out@ =~= old(out)@ + entity_field_lines(fs@.take(i as int), ind@));
    }
    assert(fs@.take(fs.len() as int) =~= fs@);
}

fn render_git_body(ps: &Vec<(String, String)>, ind: &Vec<char>, out: &mut Vec<char>)
    ensures
        final(out)@ == old(out)@ + git_body_lines(ps@, ind@),
{
    let mut i: usize = 0;
    assert(old(out)@ + git_body_lines(ps@.take(0), ind@) =~= old(out)@);
    while i < ps.len()
        invariant
            i <= ps.len(),
            out@ == old(out)@ + git_body_lines(ps@.take(i as int), ind@),
        decreases ps.len() - i,
    {
        assert(ps@.take(i + 1).drop_last() =~= ps@.take(i as int));
        assert(ps@.take(i + 1).last() == ps@[i as int]);
        append(out, ind);
        append_str(out, "    ");
        append_string(out, &ps[i].0);
        append_str(out, ": ");
        append_string(out, &ps[i].1);
        append_str(out, "\n");
        i = i + 1;
        assert(out@ =~= old(out)@ + git_body_lines(ps@.take(i as int), ind@));
    }
    assert(ps@.take(ps.len() as int) =~= ps@);
}

fn push_setting(out: &mut Vec<char>, ind: &Vec<char>, key: &str, v: &String)
    ensures
        final(out)@ == old(out)@ + setting_line(ind@, key@, v@),
{
    let vc = text::string_chars(v);
    if vc.len() > 0 {
        append(out, ind);
        append_str(out, "    ");
        append_str(out, key);
        append_str(out, ": ");
        append(out, &vc);
        append_str(out, "\n");
        assert(out@ =~= old(out)@ + setting_line(ind@, key@, v@));
    } else {
        assert(out@ =~= old(out)@ + setting_line(ind@, key@, v@));
    }
}

fn render_paths(ps: &Vec<String>, ind: &Vec<char>, out: &mut Vec<char>)
    ensures
        final(out)@ == old(out)@ + path_lines(ps@, ind@),
{
    let mut i: usize = 0;
    assert(old(out)@ + path_lines(ps@.take(0), ind@) =~= old(out)@);
    while i < ps.len()
        invariant
            i <= ps.len(),
            out@ == old(out)@ + path_lines(ps@.take(i as int), ind@),
        decreases ps.len() - i,
    {
        assert(ps@.take(i + 1).drop_last() =~= ps@.take(i as int));
        assert(ps@.take(i + 1).last() == ps@[i as int]);
        append(out, ind);
        append_str(out, "    @");
        append_string(out, &ps[i]);
        append_str(out, "\n");
        i = i + 1;
        assert(out@ =~= old(out)@ + path_lines(ps@.take(i as int), ind@));
    }
    assert(ps@.take(ps.len() as int) =~= ps@);
}

fn render_brace_gates(gs: &Vec<Gate>, out: &mut Vec<char>)
    ensures
        final(out)@ == old(out)@ + brace_gates(gs@),
{
    let mut i: usize = 0;
    assert(old(out)@ + brace_gates(gs@.take(0)) =~= old(out)@);
    while i < gs.len()
        invariant
            i <= gs.len(),
            out@ == old(out)@ + brace_gates(gs@.take(i as int)),
        decreases gs.len() - i,
    {
        assert(gs@.take(i + 1).drop_last() =~= gs@.take(i as int));
        assert(gs@.take(i + 1).last() == gs@[i as int]);
        append_str(out, "{");
        append_string(out, &gs[i].name);
        push_opt_prefixed(" ", &gs[i].body, out);
        append_str(out, "}");
        i = i + 1;
        assert(out@ =~= old(out)@ + brace_gates(gs@.take(i as int)));
    }
    assert(gs@.take(gs.len() as int) =~= gs@);
}

fn render_rules(rs: &Vec<crate::types::PolicyRule>, ind: &Vec<char>, out: &mut Vec<char>)
    ensures
        final(out)@ == old(out)@ + rule_lines(rs@, ind@),
{
    let mut i: usize = 0;
    assert(old(out)@ + rule_lines(rs@.take(0), ind@) =~= old(out)@);
    while i < rs.len()
        invariant
            i <= rs.len(),
            out@ == old(out)@ + rule_lines(rs@.take(i as int), ind@),
        decreases rs.len() - i,
    {
        assert(rs@.take(i + 1).drop_last() =~= rs@.take(i as int));
        assert(rs@.take(i + 1).last() == rs@[i as int]);
        let ghost before = out@;
        append(out, ind);
        append_str(out, "    @");
        append_string(out, &rs[i].path);
        if rs[i].gates.len() > 0 {
            append_str(out, ": ");
            render_brace_gates(&rs[i].gates, out);
        }
        append_str(out, "\n");
        i = i + 1;
        assert(out@ =~= old(out)@ + rule_lines(rs@.take(i as int), ind@));
    }
    assert(rs@.take(rs.len() as int) =~= rs@);
}


fn deeper(ind: &Vec<char>) -> (r: Vec<char>)
    ensures
        r@ == ind@ + step(),
{
    text::concat(ind, &text::str_chars("    "))
}

fn render_nodes(ns: &Vec<Node>, ind: &Vec<char>, out: &mut Vec<char>)
    ensures
        final(out)@ == old(out)@ + nodes_text(ns@, ind@),
    decreases ns@,
{
    let mut i: usize = 0;
    assert(ns@.take(0) =~= Seq::<Node>::empty());
    assert(old(out)@ + Seq::<char>::empty() =~= old(out)@);
    while i < ns.len()
        invariant
            i <= ns.len(),
            out@ == old(out)@ + nodes_text(ns@.take(i as int), ind@),
        decreases ns.len() - i,
    {
        assert(ns@.take(i + 1).drop_last() =~= ns@.take(i as int));
        assert(ns@.take(i + 1).last() == ns@[i as int]);
        render_node(&ns[i], ind, out);
        i = i + 1;
        assert(out@ =~= old(out)@ + nodes_text(ns@.take(i as int), ind@));
    }
    assert(ns@.take(ns.len() as int) =~= ns@);
}

fn render_arms(arms: &Vec<MatchArm>, ind: &Vec<char>, out: &mut Vec<char>)
    ensures
        final(out)@ == old(out)@ + arms_text(arms@, ind@),
    decreases arms@,
{
    let mut i: usize = 0;
    assert(arms@.take(0) =~= Seq::<MatchArm>::empty());
    assert(old(out)@ + Seq::<char>::empty() =~= old(out)@);
    let d3 = deeper(&deeper(&deeper(ind)));
    while i < arms.len()
        invariant
            i <= arms.len(),
            d3@ == ind@ + step() + step() + step(),
            out@ == old(out)@ + arms_text(arms@.take(i as int), ind@),
        decreases arms.len() - i,
    {
        assert(arms@.take(i + 1).drop_last() =~= arms@.take(i as int));
        assert(arms@.take(i + 1).last() == arms@[i as int]);
        append(out, ind);
        append_str(out, "    ");
        append_str(out, "    ");
        append_string(out, &arms[i].pattern);
        append_str(out, ":\n");
        render_nodes(&arms[i].children, &d3, out);
        i = i + 1;
        assert(out@ =~= old(out)@ + arms_text(arms@.take(i as int), ind@));
    }
    assert(arms@.take(arms.len() as int) =~= arms@);
}

fn render_task_head(t: &crate::types::Task, ind: &Vec<char>, out: &mut Vec<char>)
    ensures
        final(out)@ == old(out)@ + task_head(*t, ind@),
{
    append(out, ind);
    render_task_marker(&t.marker, &t.label, out);
    append_str(out, " ");
    append_string(out, &t.text);
    render_gates(&t.gates, out);
    append_str(out, "\n");
    push_opt_line(ind, "    depends: ", &t.depends, out);
    push_opt_line(ind, "    validate: ", &t.validate, out);
    push_opt_line(ind, "    status: ", &t.status, out);
    assert(out@ =~= old(out)@ + task_head(*t, ind@));
}

fn render_section(o: &Option<Vec<Node>>, ind: &Vec<char>, label: &str, out: &mut Vec<char>)
    ensures
        final(out)@ == old(out)@ + section_text(*o, ind@, label@),
    decreases *o,
{
    match o {
        Some(p) => {
            append(out, ind);
            append_str(out, label);
            let d2 = deeper(&deeper(ind));
            render_nodes(p, &d2, out);
            assert(out@ =~= old(out)@ + section_text(*o, ind@, label@));
        },
        None => {
            assert(old(out)@ + Seq::<char>::empty() =~= old(out)@);
        },
    }
}

fn render_arms_section(o: &Option<Vec<MatchArm>>, ind: &Vec<char>, out: &mut Vec<char>)
    ensures
        final(out)@ == old(out)@ + arms_section(*o, ind@),
    decreases *o,
{
    match o {
        Some(a) => {
            append(out, ind);
            append_str(out, "    match:\n");
            render_arms(a, ind, out);
            assert(out@ =~= old(out)@ + arms_section(*o, ind@));
        },
        None => {
            assert(old(out)@ + Seq::<char>::empty() =~= old(out)@);
        },
    }
}

#[verifier::spinoff_prover]
#[verifier::rlimit(40)]
fn render_task(t: &crate::types::Task, ind: &Vec<char>, out: &mut Vec<char>)
    ensures
        final(out)@ == old(out)@ + task_text(*t, ind@),
    decreases *t,
{
    let ghost o0 = out@;
    render_task_head(t, ind, out);
    let ghost o1 = out@;
    let d1 = deeper(ind);
    render_nodes(&t.children, &d1, out);
    let ghost o2 = out@;
    render_section(&t.on_pass, ind, "    on_pass:\n", out);
    let ghost o3 = out@;
    render_section(&t.on_fail, ind, "    on_fail:\n", out);
    let ghost o4 = out@;
    render_arms_section(&t.match_arms, ind, out);
    proof {
        let h = task_head(*t, ind@);
        let n = nodes_text(t.children@, ind@ + step());
        let s1 = section_text(t.on_pass, ind@, "    on_pass:\n"@);
        let s2 = section_text(t.on_fail, ind@, "    on_fail:\n"@);
        let a = arms_section(t.match_arms, ind@);
        assert(task_text(*t, ind@) == h + n + s1 + s2 + a);
        assert(out@ =~= o0 + (h + n + s1 + s2 + a));
    }
}

fn push_line4(out: &mut Vec<char>, ind: &Vec<char>, key: &str, v: &Vec<char>)
    ensures
        final(out)@ == old(out)@ + line4(ind@, key@, v@),
{
    append(out, ind);
    append_str(out, "    ");
    append_str(out, key);
    append_str(out, ": ");
    append(out, v);
    append_str(out, "\n");
}

fn push_list_lines(out: &mut Vec<char>, ind: &Vec<char>, key: &str, vs: &Vec<String>)
    ensures
        final(out)@ == old(out)@ + list_lines(ind@, key@, vs@),
{
    let mut i: usize = 0;
    assert(old(out)@ + list_lines(ind@, key@, vs@.take(0)) =~= old(out)@);
    while i < vs.len()
        invariant
            i <= vs.len(),
            out@ == old(out)@ + list_lines(ind@, key@, vs@.take(i as int)),
        decreases vs.len() - i,
    {
        assert(vs@.take(i + 1).drop_last() =~= vs@.take(i as int));
        assert(vs@.take(i + 1).last() == vs@[i as int]);
        push_line4(out, ind, key, &text::string_chars(&vs[i]));
        i = i + 1;
        assert(out@ =~= old(out)@ + list_lines(ind@, key@, vs@.take(i as int)));
    }
    assert(vs@.take(vs.len() as int) =~= vs@);
}

fn push_checks(out: &mut Vec<char>, ind: &Vec<char>, cs: &Vec<crate::types::LatticeFieldCheck>)
    ensures
        final(out)@ == old(out)@ + checks_text(cs@, ind@),
{
    let mut i: usize = 0;
    assert(old(out)@ + checks_text(cs@.take(0), ind@) =~= old(out)@);
    while i < cs.len()
        invariant
            i <= cs.len(),
            out@ == old(out)@ + checks_text(cs@.take(i as int), ind@),
        decreases cs.len() - i,
    {
        assert(cs@.take(i + 1).drop_last() =~= cs@.take(i as int));
        assert(cs@.take(i + 1).last() == cs@[i as int]);
        let c = &cs[i];
        let ghost o = out@;
        push_line4(out, ind, "field", &text::string_chars(&c.field));
        if c.required {
            push_line4(out, ind, "required", &text::str_chars("true"));
        }
        match c.min_items {
            Some(n) => {
                let mut d: Vec<char> = Vec::new();
                text::append_decimal(&mut d, n);
                push_line4(out, ind, "min_items", &d);
            },
            None => {},
        }
        assert(out@ =~= o + check_text(*c, ind@));
        i = i + 1;
        assert(out@ =~= old(out)@ + checks_text(cs@.take(i as int), ind@));
    }
    assert(cs@.take(cs.len() as int) =~= cs@);
}

fn push_arts(out: &mut Vec<char>, ind: &Vec<char>, arts: &Vec<crate::types::LatticeArtifactRef>)
    ensures
        final(out)@ == old(out)@ + arts_text(arts@, ind@),
{
    let mut i: usize = 0;
    assert(old(out)@ + arts_text(arts@.take(0), ind@) =~= old(out)@);
    while i < arts.len()
        invariant
            i <= arts.len(),
            out@ == old(out)@ + arts_text(arts@.take(i as int), ind@),
        decreases arts.len() - i,
    {
        assert(arts@.take(i + 1).drop_last() =~= arts@.take(i as int));
        assert(arts@.take(i + 1).last() == arts@[i as int]);
        let a = &arts[i];
        let ghost o = out@;
        push_line4(out, ind, "artifact", &text::string_chars(&a.artifact));
        match &a.schema {
            Some(x) => push_line4(out, ind, "schema", &text::string_chars(x)),
            None => {},
        }
        push_checks(out, ind, &a.checks);
        assert(out@ =~= o + art_text(*a, ind@));
        i = i + 1;
        assert(out@ =~= old(out)@ + arts_text(arts@.take(i as int), ind@));
    }
    assert(arts@.take(arts.len() as int) =~= arts@);
}

fn push_schema_fields(out: &mut Vec<char>, ind: &Vec<char>, fs: &Vec<crate::types::LatticeSchemaField>)
    ensures
        final(out)@ == old(out)@ + schema_fields_text(fs@, ind@),
{
    let mut i: usize = 0;
    assert(old(out)@ + schema_fields_text(fs@.take(0), ind@) =~= old(out)@);
    while i < fs.len()
        invariant
            i <= fs.len(),
            out@ == old(out)@ + schema_fields_text(fs@.take(i as int), ind@),
        decreases fs.len() - i,
    {
        assert(fs@.take(i + 1).drop_last() =~= fs@.take(i as int));
        assert(fs@.take(i + 1).last() == fs@[i as int]);
        let f = &fs[i];
        let ghost o = out@;
        push_line4(out, ind, "name", &text::string_chars(&f.name));
        push_line4(out, ind, "type", &text::string_chars(&f.field_type));
        if f.required {
            push_line4(out, ind, "required", &text::str_chars("true"));
        }
        assert(out@ =~= o + schema_field_text(*f, ind@));
        i = i + 1;
        assert(out@ =~= old(out)@ + schema_fields_text(fs@.take(i as int), ind@));
    }
    assert(fs@.take(fs.len() as int) =~= fs@);
}

/// Writes the header and setting lines of a lattice section.
#[verifier::spinoff_prover]
fn render_lattice_head(n: &Node, ind: &Vec<char>, out: &mut Vec<char>)
    ensures
        final(out)@ == old(out)@ + lattice_head(*n, ind@),
{
    let ghost o = out@;
    match n {
        Node::LatticeValidates(l) => {
            append(out, ind);
            append_str(out, "lattice_validates:\n");
            push_arts(out, ind, &l.artifacts);
        },
        Node::LatticeConstraint(l) => {
            append(out, ind);
            append_str(out, "lattice_constraint:\n");
            let ghost o1 = out@;
            match &l.constraint_type {
                Some(t) => push_line4(out, ind, "type", &text::string_chars(t)),
                None => {},
            }
            let ghost o2 = out@;
            let rule = text::string_chars(&l.rule);
            if rule.len() > 0 {
                push_line4(out, ind, "rule", &rule);
            }
            let ghost o3 = out@;
            push_list_lines(out, ind, "applies_to", &l.applies_to);
            assert(out@ =~= o + lattice_head(*n, ind@));
        },
        Node::LatticeSchema(l) => {
            append(out, ind);
            append_str(out, "lattice_schema:\n");
            push_schema_fields(out, ind, &l.fields);
        },
        Node::LatticeFrontier(l) => {
            append(out, ind);
            append_str(out, "lattice_frontier:\n");
            match &l.expected_schema {
                Some(x) => push_line4(out, ind, "expected_schema", &text::string_chars(x)),
                None => {},
            }
            push_list_lines(out, ind, "missing_field", &l.missing_fields);
            push_list_lines(out, ind, "strategy", &l.exploration_strategy);
            assert(out@ =~= o + lattice_head(*n, ind@));
        },
        Node::PressureEffect(p) => {
            append(out, ind);
            append_str(out, "pressure_effect:\n");
            let d = text::string_chars(&p.dynamic);
            if d.len() > 0 {
                push_line4(out, ind, "dynamic", &d);
            }
            match &p.target {
                Some(t) => push_line4(out, ind, "target", &text::string_chars(t)),
                None => {},
            }
            assert(out@ =~= o + lattice_head(*n, ind@));
        },
        Node::UnitCell(_) => {
            append(out, ind);
            append_str(out, "unit_cell:\n");
        },
        Node::Symmetry(_) => {
            append(out, ind);
            append_str(out, "symmetry:\n");
        },
        _ => {},
    }
    assert(out@ =~= o + lattice_head(*n, ind@));
}

fn render_node(n: &Node, ind: &Vec<char>, out: &mut Vec<char>)
    ensures
        final(out)@ == old(out)@ + node_text(*n, ind@),
    decreases *n,
{
    match n {
        Node::Group(g) => {
            append(out, ind);
            let h = text::repeat_str("#", g.depth as usize);
            append(out, &h);
            append_str(out, " ");
            append_string(out, &g.name);
            render_atoms(&g.atoms, out);
            append_str(out, "\n\n");
            let d1 = deeper(ind);
            render_nodes(&g.children, &d1, out);
            assert(out@ =~= old(out)@ + node_text(*n, ind@));
        },
        Node::Task(t) => render_task(t, ind, out),
        Node::LatticeValidates(l) => {
            render_lattice_head(n, ind, out);
            render_nodes(&l.children, &deeper(ind), out);
        },
        Node::LatticeConstraint(l) => {
            render_lattice_head(n, ind, out);
            render_nodes(&l.children, &deeper(ind), out);
        },
        Node::LatticeSchema(l) => {
            render_lattice_head(n, ind, out);
            render_nodes(&l.children, &deeper(ind), out);
        },
        Node::LatticeFrontier(l) => {
            render_lattice_head(n, ind, out);
            render_nodes(&l.children, &deeper(ind), out);
        },
        Node::UnitCell(u) => {
            render_lattice_head(n, ind, out);
            render_nodes(&u.children, &deeper(ind), out);
        },
        Node::Symmetry(u) => {
            render_lattice_head(n, ind, out);
            render_nodes(&u.children, &deeper(ind), out);
        },
        Node::PressureEffect(_) => render_lattice_head(n, ind, out),
        Node::ProjectScope(ps) => {
            append(out, ind);
            append_str(out, "%");
            append_string(out, &ps.name);
            append_str(out, "\n");
            let d1 = deeper(ind);
            render_nodes(&ps.children, &d1, out);
            assert(out@ =~= old(out)@ + node_text(*n, ind@));
        },
        Node::Validate(v) => {
            append(out, ind);
            append_str(out, "validate ");
            append_string(out, &v.name);
            append_str(out, ":\n");
            let d1 = deeper(ind);
            render_nodes(&v.children, &d1, out);
            append_str(out, "\n");
            assert(out@ =~= old(out)@ + node_text(*n, ind@));
        },
        Node::Conditional(c) => {
            append(out, ind);
            let ghost o1 = out@;
            if c.condition.live {
                append_str(out, "if ||");
                append_string(out, &c.condition.expr);
                append_str(out, "||:\n");
            } else {
                append_str(out, "if |");
                append_string(out, &c.condition.expr);
                append_str(out, "|:\n");
            }
            let d1 = deeper(ind);
            render_nodes(&c.children, &d1, out);
            assert(out@ =~= old(out)@ + node_text(*n, ind@));
        },
        Node::GateDef(g) => {
            append(out, ind);
            append_str(out, "gate:");
            append_string(out, &g.name);
            append_str(out, "\n");
            let d1 = deeper(ind);
            render_nodes(&g.children, &d1, out);
            assert(out@ =~= old(out)@ + node_text(*n, ind@));
        },
        _ => render_leaf(n, ind, out),
    }
}

/// Renders a document as .bit text: each node at its depth, without
/// trailing whitespace.
pub fn render(doc: &Document) -> (r: String)
    ensures
        r@ == render_spec(*doc),
{
    let mut out: Vec<char> = Vec::new();
    let ind: Vec<char> = Vec::new();
    assert(out@ + Seq::<char>::empty() =~= out@);
    render_nodes(&doc.nodes, &ind, &mut out);
    assert(out@ =~= Seq::<char>::empty() + nodes_text(doc.nodes@, Seq::<char>::empty()));
    text::to_string(&text::trim_end_chars(&out))
}

} // verus!
