//! An index of a document: its groups, tasks, references, mods, flows and
//! the other named things it declares, for lookup without walking the tree.
use crate::line;
use crate::text;
use crate::types::{Atom, Document, Inline, Node, PolicyRule, VarValue};
use vstd::prelude::*;

verus! {

/// A group, with the names of the groups that contain it.
#[derive(Debug, Clone)]
pub struct GroupEntry {
    pub name: String,
    pub depth: u8,
    pub path: Vec<String>,
    pub atoms: Vec<String>,
    pub assignee: Option<String>,
}

/// A task, with the path of the group it stands in.
#[derive(Debug, Clone)]
pub struct TaskEntry {
    pub text: String,
    pub label: Option<String>,
    pub kind: String,
    pub group_path: Vec<String>,
    pub assignee: Option<String>,
    pub gates: Vec<String>,
}

/// A reference in a prose line, with the line's text.
#[derive(Debug, Clone)]
pub struct RefEntry {
    pub path: Vec<String>,
    pub context: String,
}

/// A mod that is defined or invoked.
#[derive(Debug, Clone)]
pub struct ModEntry {
    pub name: String,
    pub kind: Option<String>,
}

/// The edges of a flow, each from its sources to its targets.
#[derive(Debug, Clone)]
pub struct FlowEntry {
    pub edges: Vec<(Vec<String>, Vec<String>)>,
}

/// File paths that a group claims.
#[derive(Debug, Clone)]
pub struct FileScopeEntry {
    pub paths: Vec<String>,
    pub group_path: Vec<String>,
}

/// Gate rules by path, with the group that sets them.
#[derive(Debug, Clone)]
pub struct PolicyEntry {
    pub rules: Vec<(String, Vec<String>)>,
    pub group_path: Vec<String>,
}

/// The index of a document. `variables` holds each assigned name once (a
/// variable under its scoped name and under its plain name), with the value
/// last assigned to it; `variable` gives that value.
#[derive(Debug, Clone)]
pub struct DocIndex {
    pub groups: Vec<GroupEntry>,
    pub tasks: Vec<TaskEntry>,
    pub refs: Vec<RefEntry>,
    pub mods: Vec<ModEntry>,
    pub flows: Vec<FlowEntry>,
    pub validators: Vec<String>,
    pub forms: Vec<String>,
    pub variables: Vec<(String, String)>,
    pub remembers: Vec<String>,
    pub recalls: Vec<String>,
    pub embed_markers: Vec<String>,
    pub file_scopes: Vec<FileScopeEntry>,
    pub policies: Vec<PolicyEntry>,
    pub escalations: Vec<String>,
}

// ── The model ───────────────────────────────────────────────────

pub struct GroupView {
    pub name: Seq<char>,
    pub depth: u8,
    pub path: Seq<Seq<char>>,
    pub atoms: Seq<Seq<char>>,
    pub assignee: Option<Seq<char>>,
}

pub struct TaskView {
    pub text: Seq<char>,
    pub label: Option<Seq<char>>,
    pub kind: Seq<char>,
    pub group_path: Seq<Seq<char>>,
    pub assignee: Option<Seq<char>>,
    pub gates: Seq<Seq<char>>,
}

/// What an index holds, as plain values.
pub struct IndexView {
    pub groups: Seq<GroupView>,
    pub tasks: Seq<TaskView>,
    pub refs: Seq<(Seq<Seq<char>>, Seq<char>)>,
    pub mods: Seq<(Seq<char>, Option<Seq<char>>)>,
    pub flows: Seq<Seq<(Seq<Seq<char>>, Seq<Seq<char>>)>>,
    pub validators: Seq<Seq<char>>,
    pub forms: Seq<Seq<char>>,
    pub variables: Seq<(Seq<char>, Seq<char>)>,
    pub remembers: Seq<Seq<char>>,
    pub recalls: Seq<Seq<char>>,
    pub embed_markers: Seq<Seq<char>>,
    pub file_scopes: Seq<(Seq<Seq<char>>, Seq<Seq<char>>)>,
    pub policies: Seq<(Seq<(Seq<char>, Seq<Seq<char>>)>, Seq<Seq<char>>)>,
    pub escalations: Seq<Seq<char>>,
}

pub open spec fn empty_index() -> IndexView {
    IndexView {
        groups: Seq::empty(),
        tasks: Seq::empty(),
        refs: Seq::empty(),
        mods: Seq::empty(),
        flows: Seq::empty(),
        validators: Seq::empty(),
        forms: Seq::empty(),
        variables: Seq::empty(),
        remembers: Seq::empty(),
        recalls: Seq::empty(),
        embed_markers: Seq::empty(),
        file_scopes: Seq::empty(),
        policies: Seq::empty(),
        escalations: Seq::empty(),
    }
}

/// `@` followed by a reference path joined by `:`.
pub open spec fn at_path(path: Seq<Seq<char>>) -> Seq<char> {
    "@"@ + text::join(path, ":"@)
}

/// The assignee that a task's spans name: the first reference to `agent`
/// or `me` or with two or more parts, or the first atom written with `@`.
pub open spec fn assignee_spec(inlines: Seq<Inline>) -> Option<Seq<char>>
    decreases inlines.len(),
{
    if inlines.len() == 0 {
        None
    } else {
        match inlines[0] {
            Inline::Ref(r) if (r.path@.len() > 0 && (r.path@[0]@ == "agent"@ || r.path@[0]@
                == "me"@)) || r.path@.len() >= 2 => Some(at_path(text::str_views(r.path@))),
            Inline::Atom(a) if text::starts_with(a.name@, "@"@) => Some(a.name@),
            _ => assignee_spec(inlines.drop_first()),
        }
    }
}

/// The assignee of a group: the first atom written with `@`, or whose value
/// is written with `@`.
pub open spec fn group_assignee_spec(atoms: Seq<Atom>) -> Option<Seq<char>>
    decreases atoms.len(),
{
    if atoms.len() == 0 {
        None
    } else if text::starts_with(atoms[0].name@, "@"@) {
        Some(atoms[0].name@)
    } else if atoms[0].value matches Some(v) && text::starts_with(v@, "@"@) {
        Some(atoms[0].value->0@)
    } else {
        group_assignee_spec(atoms.drop_first())
    }
}

/// The text a variable's value is indexed under.
pub open spec fn var_text(v: VarValue) -> Seq<char> {
    match v {
        VarValue::Literal(s) => s@,
        VarValue::Compute(c) => if c.live {
            "||"@ + c.expr@ + "||"@
        } else {
            "|"@ + c.expr@ + "|"@
        },
        VarValue::Ref(r) => at_path(text::str_views(r.path@)),
    }
}

/// The references among the spans of a prose line.
pub open spec fn refs_of(inlines: Seq<Inline>, context: Seq<char>) -> Seq<(Seq<Seq<char>>, Seq<char>)>
    decreases inlines.len(),
{
    if inlines.len() == 0 {
        Seq::empty()
    } else {
        let rest = refs_of(inlines.drop_last(), context);
        match inlines.last() {
            Inline::Ref(r) => rest.push((text::str_views(r.path@), context)),
            _ => rest,
        }
    }
}

/// The index after a sequence of nodes under group path `path`, with
/// `asg` the assignee in force there.
pub open spec fn index_seq(acc: IndexView, nodes: Seq<Node>, path: Seq<Seq<char>>, asg: Option<Seq<char>>) -> IndexView
    decreases nodes,
{
    if nodes.len() == 0 {
        acc
    } else {
        index_node(index_seq(acc, nodes.drop_last(), path, asg), nodes.last(), path, asg)
    }
}

/// The index after one node.
pub open spec fn index_node(acc: IndexView, n: Node, path: Seq<Seq<char>>, asg: Option<Seq<char>>) -> IndexView
    decreases n,
{
    match n {
        Node::Group(g) => {
            let p2 = path.push(g.name@);
            let ga = group_assignee_spec(g.atoms@);
            let entry = GroupView {
                name: g.name@,
                depth: g.depth,
                path: p2,
                atoms: g.atoms@.map_values(|a: Atom| a.name@),
                assignee: ga,
            };
            index_seq(
                IndexView { groups: acc.groups.push(entry), ..acc },
                g.children@,
                p2,
                if ga is Some {
                    ga
                } else {
                    asg
                },
            )
        },
        Node::Task(t) => {
            let da = assignee_spec(t.inline@);
            let entry = TaskView {
                text: t.text@,
                label: line::opt_str_view(t.label),
                kind: t.marker.kind.name_spec(),
                group_path: path,
                assignee: if da is Some {
                    da
                } else {
                    asg
                },
                gates: t.gates@.map_values(|x: crate::types::Gate| x.name@),
            };
            index_seq(IndexView { tasks: acc.tasks.push(entry), ..acc }, t.children@, path, asg)
        },
        Node::Prose(p) => IndexView { refs: acc.refs + refs_of(p.inline@, p.text@), ..acc },
        Node::ModDef(m) => IndexView {
            mods: acc.mods.push((m.name@, line::opt_str_view(m.kind))),
            ..acc
        },
        Node::ModInvoke(m) => IndexView { mods: acc.mods.push((m.name@, None)), ..acc },
        Node::Flow(f) => IndexView {
            flows: acc.flows.push(
                f.edges@.map_values(
                    |e: crate::types::FlowEdge| (text::str_views(e.from@), text::str_views(e.to@)),
                ),
            ),
            ..acc
        },
        Node::Validate(v) => index_seq(
            IndexView { validators: acc.validators.push(v.name@), ..acc },
            v.children@,
            path,
            asg,
        ),
        Node::Form(f) => IndexView { forms: acc.forms.push(f.name@), ..acc },
        Node::Variable(v) => {
            let val = var_text(v.value);
            let scoped = if path.len() == 0 {
                v.name@
            } else {
                text::join(path, ":"@) + ":"@ + v.name@
            };
            IndexView {
                variables: crate::ir::assoc_set(
                    crate::ir::assoc_set(acc.variables, scoped, val),
                    v.name@,
                    val,
                ),
                ..acc
            }
        },
        Node::Conditional(c) => index_seq(acc, c.children@, path, asg),
        Node::Remember(r) => IndexView { remembers: acc.remembers.push(r.content@), ..acc },
        Node::Recall(r) => IndexView { recalls: acc.recalls.push(r.query@), ..acc },
        Node::EmbedMarker(e) => IndexView { embed_markers: acc.embed_markers.push(e.tag@), ..acc },
        Node::Escalate(e) => IndexView { escalations: acc.escalations.push(e.target@), ..acc },
        Node::FilesDef(f) => IndexView {
            file_scopes: acc.file_scopes.push((text::str_views(f.paths@), path)),
            ..acc
        },
        Node::PolicyDef(pd) => IndexView {
            policies: acc.policies.push((pd.rules@.map_values(|r: PolicyRule| policy_rule_view(r)), path)),
            ..acc
        },
        _ => acc,
    }
}

/// A policy rule as the index keeps it: the path and the names of its gates.
pub open spec fn policy_rule_view(r: PolicyRule) -> (Seq<char>, Seq<Seq<char>>) {
    (r.path@, r.gates@.map_values(|g: crate::types::Gate| g.name@))
}


/// Whether no name occurs twice among the variables.
pub open spec fn names_distinct(vars: Seq<(Seq<char>, Seq<char>)>) -> bool {
    forall|i: int, j: int| 0 <= i < j < vars.len() ==> #[trigger] vars[i].0 != #[trigger] vars[j].0
}

proof fn lemma_assoc_set_distinct(vars: Seq<(Seq<char>, Seq<char>)>, k: Seq<char>, v: Seq<char>)
    requires
        names_distinct(vars),
    ensures
        names_distinct(crate::ir::assoc_set(vars, k, v)),
        forall|x: Seq<char>|
            #[trigger] crate::ir::has_key(crate::ir::assoc_set(vars, k, v), x) ==> x == k
                || crate::ir::has_key(vars, x),
    decreases vars.len(),
{
    if vars.len() > 0 && vars[0].0 != k {
        let t = vars.drop_first();
        assert forall|i: int, j: int| 0 <= i < j < t.len() implies #[trigger] t[i].0 != #[trigger] t[j].0 by {
            assert(vars[i + 1].0 != vars[j + 1].0);
        }
        lemma_assoc_set_distinct(t, k, v);
        let r = crate::ir::assoc_set(t, k, v);
        let full = crate::ir::assoc_set(vars, k, v);
        assert(full == seq![vars[0]] + r);
        assert forall|j: int| 0 <= j < r.len() implies #[trigger] r[j].0 != vars[0].0 by {
            if r[j].0 == vars[0].0 {
                assert(crate::ir::has_key(r, r[j].0));
                assert(crate::ir::has_key(t, vars[0].0));
                let m = choose|m: int| 0 <= m < t.len() && (#[trigger] t[m]).0 == vars[0].0;
                assert(vars[0].0 != vars[m + 1].0);
            }
        }
        assert forall|i: int, j: int| 0 <= i < j < full.len() implies #[trigger] full[i].0
            != #[trigger] full[j].0 by {
            if i == 0 {
                assert(full[j] == r[j - 1]);
            } else {
                assert(full[i] == r[i - 1] && full[j] == r[j - 1]);
            }
        }
        assert forall|x: Seq<char>| crate::ir::has_key(full, x) implies x == k || crate::ir::has_key(vars, x) by {
            let m = choose|m: int| 0 <= m < full.len() && (#[trigger] full[m]).0 == x;
            if m == 0 {
                assert(vars[0].0 == x);
            } else {
                assert(r[m - 1].0 == x);
                assert(crate::ir::has_key(r, x));
                assert(x == k || crate::ir::has_key(t, x));
                if x != k {
                    let q = choose|q: int| 0 <= q < t.len() && (#[trigger] t[q]).0 == x;
                    assert(vars[q + 1].0 == x);
                }
            }
        }
    } else if vars.len() > 0 {
        let full = crate::ir::assoc_set(vars, k, v);
        assert(full == vars.update(0, (k, v)));
        assert forall|i: int, j: int| 0 <= i < j < full.len() implies #[trigger] full[i].0
            != #[trigger] full[j].0 by {
            assert(vars[i].0 != vars[j].0);
        }
        assert forall|x: Seq<char>| crate::ir::has_key(full, x) implies x == k || crate::ir::has_key(vars, x) by {
            let m = choose|m: int| 0 <= m < full.len() && (#[trigger] full[m]).0 == x;
            if m > 0 {
                assert(vars[m].0 == x);
            }
        }
    } else {
        let full = crate::ir::assoc_set(vars, k, v);
        assert(full == seq![(k, v)]);
        assert forall|x: Seq<char>| crate::ir::has_key(full, x) implies x == k || crate::ir::has_key(vars, x) by {
            let m = choose|m: int| 0 <= m < full.len() && (#[trigger] full[m]).0 == x;
            assert(m == 0);
        }
    }
}

proof fn lemma_index_seq_distinct(acc: IndexView, nodes: Seq<Node>, path: Seq<Seq<char>>, asg: Option<Seq<char>>)
    requires
        names_distinct(acc.variables),
    ensures
        names_distinct(index_seq(acc, nodes, path, asg).variables),
    decreases nodes,
{
    if nodes.len() > 0 {
        lemma_index_seq_distinct(acc, nodes.drop_last(), path, asg);
        lemma_index_node_distinct(index_seq(acc, nodes.drop_last(), path, asg), nodes.last(), path, asg);
    }
}

proof fn lemma_index_node_distinct(acc: IndexView, n: Node, path: Seq<Seq<char>>, asg: Option<Seq<char>>)
    requires
        names_distinct(acc.variables),
    ensures
        names_distinct(index_node(acc, n, path, asg).variables),
    decreases n,
{
    match n {
        Node::Group(g) => {
            let p2 = path.push(g.name@);
            let ga = group_assignee_spec(g.atoms@);
            let entry = GroupView {
                name: g.name@,
                depth: g.depth,
                path: p2,
                atoms: g.atoms@.map_values(|a: Atom| a.name@),
                assignee: ga,
            };
            lemma_index_seq_distinct(
                IndexView { groups: acc.groups.push(entry), ..acc },
                g.children@,
                p2,
                if ga is Some {
                    ga
                } else {
                    asg
                },
            );
        },
        Node::Task(t) => {
            let da = assignee_spec(t.inline@);
            let entry = TaskView {
                text: t.text@,
                label: line::opt_str_view(t.label),
                kind: t.marker.kind.name_spec(),
                group_path: path,
                assignee: if da is Some {
                    da
                } else {
                    asg
                },
                gates: t.gates@.map_values(|x: crate::types::Gate| x.name@),
            };
            lemma_index_seq_distinct(IndexView { tasks: acc.tasks.push(entry), ..acc }, t.children@, path, asg);
        },
        Node::Validate(v) => {
            lemma_index_seq_distinct(
                IndexView { validators: acc.validators.push(v.name@), ..acc },
                v.children@,
                path,
                asg,
            );
        },
        Node::Conditional(c) => {
            lemma_index_seq_distinct(acc, c.children@, path, asg);
        },
        Node::Variable(v) => {
            let val = var_text(v.value);
            let scoped = if path.len() == 0 {
                v.name@
            } else {
                text::join(path, ":"@) + ":"@ + v.name@
            };
            lemma_assoc_set_distinct(acc.variables, scoped, val);
            lemma_assoc_set_distinct(crate::ir::assoc_set(acc.variables, scoped, val), v.name@, val);
        },
        _ => {},
    }
}

/// An index holds each variable name once, with the value last assigned
/// under it.
pub proof fn lemma_index_variables_distinct(doc: Document)
    ensures
        names_distinct(index_spec(doc).variables),
{
    lemma_index_seq_distinct(empty_index(), doc.nodes@, Seq::empty(), None);
}

/// The tasks of a tree of nodes under the group path `path`, in document
/// order, each as its text and the names of the groups around it: each
/// task, then the tasks among its children; the tasks inside groups (under
/// the group's name), `validate` blocks and conditionals.
pub open spec fn tree_tasks(ns: Seq<Node>, path: Seq<Seq<char>>) -> Seq<(Seq<char>, Seq<Seq<char>>)>
    decreases ns,
{
    if ns.len() == 0 {
        Seq::empty()
    } else {
        tree_tasks(ns.drop_last(), path) + node_tasks(ns.last(), path)
    }
}

pub open spec fn node_tasks(n: Node, path: Seq<Seq<char>>) -> Seq<(Seq<char>, Seq<Seq<char>>)>
    decreases n,
{
    match n {
        Node::Group(g) => tree_tasks(g.children@, path.push(g.name@)),
        Node::Task(t) => seq![(t.text@, path)] + tree_tasks(t.children@, path),
        Node::Validate(v) => tree_tasks(v.children@, path),
        Node::Conditional(c) => tree_tasks(c.children@, path),
        _ => Seq::empty(),
    }
}

/// Each task entry as its text and group path.
pub open spec fn entry_places(ts: Seq<TaskView>) -> Seq<(Seq<char>, Seq<Seq<char>>)> {
    ts.map_values(|t: TaskView| (t.text, t.group_path))
}

proof fn lemma_index_seq_tasks(acc: IndexView, nodes: Seq<Node>, path: Seq<Seq<char>>, asg: Option<Seq<char>>)
    ensures
        entry_places(index_seq(acc, nodes, path, asg).tasks) == entry_places(acc.tasks) + tree_tasks(nodes, path),
    decreases nodes,
{
    if nodes.len() == 0 {
        assert(entry_places(acc.tasks) + tree_tasks(nodes, path) =~= entry_places(acc.tasks));
    } else {
        lemma_index_seq_tasks(acc, nodes.drop_last(), path, asg);
        lemma_index_node_tasks(index_seq(acc, nodes.drop_last(), path, asg), nodes.last(), path, asg);
        assert(entry_places(acc.tasks) + tree_tasks(nodes.drop_last(), path) + node_tasks(nodes.last(), path)
            =~= entry_places(acc.tasks) + tree_tasks(nodes, path));
    }
}

proof fn lemma_index_node_tasks(acc: IndexView, n: Node, path: Seq<Seq<char>>, asg: Option<Seq<char>>)
    ensures
        entry_places(index_node(acc, n, path, asg).tasks) == entry_places(acc.tasks) + node_tasks(n, path),
    decreases n,
{
    match n {
        Node::Group(g) => {
            let p2 = path.push(g.name@);
            let ga = group_assignee_spec(g.atoms@);
            let entry = GroupView {
                name: g.name@,
                depth: g.depth,
                path: p2,
                atoms: g.atoms@.map_values(|a: Atom| a.name@),
                assignee: ga,
            };
            lemma_index_seq_tasks(
                IndexView { groups: acc.groups.push(entry), ..acc },
                g.children@,
                p2,
                if ga is Some {
                    ga
                } else {
                    asg
                },
            );
        },
        Node::Task(t) => {
            let da = assignee_spec(t.inline@);
            let entry = TaskView {
                text: t.text@,
                label: line::opt_str_view(t.label),
                kind: t.marker.kind.name_spec(),
                group_path: path,
                assignee: if da is Some {
                    da
                } else {
                    asg
                },
                gates: t.gates@.map_values(|x: crate::types::Gate| x.name@),
            };
            let acc2 = IndexView { tasks: acc.tasks.push(entry), ..acc };
            lemma_index_seq_tasks(acc2, t.children@, path, asg);
            assert(entry_places(acc2.tasks) =~= entry_places(acc.tasks).push((t.text@, path)));
            assert(entry_places(acc.tasks).push((t.text@, path)) + tree_tasks(t.children@, path)
                =~= entry_places(acc.tasks) + (seq![(t.text@, path)] + tree_tasks(t.children@, path)));
        },
        Node::Validate(v) => {
            lemma_index_seq_tasks(
                IndexView { validators: acc.validators.push(v.name@), ..acc },
                v.children@,
                path,
                asg,
            );
        },
        Node::Conditional(c) => {
            lemma_index_seq_tasks(acc, c.children@, path, asg);
        },
        _ => {
            assert(entry_places(acc.tasks) + node_tasks(n, path) =~= entry_places(acc.tasks));
        },
    }
}

/// The index holds one task entry for each task of the document, in
/// document order, with its own text and the names of the groups around
/// it: every task inside groups, `validate` blocks, conditionals and other
/// tasks, subtasks included.
pub proof fn lemma_index_holds_every_task(doc: Document)
    ensures
        entry_places(index_spec(doc).tasks) == tree_tasks(doc.nodes@, Seq::empty()),
        index_spec(doc).tasks.len() == tree_tasks(doc.nodes@, Seq::empty()).len(),
{
    let root = Seq::<Seq<char>>::empty();
    lemma_index_seq_tasks(empty_index(), doc.nodes@, root, None);
    let v = index_seq(empty_index(), doc.nodes@, root, None);
    assert(entry_places(empty_index().tasks) =~= Seq::<(Seq<char>, Seq<Seq<char>>)>::empty());
    assert(Seq::<(Seq<char>, Seq<Seq<char>>)>::empty() + tree_tasks(doc.nodes@, root) =~= tree_tasks(doc.nodes@, root));
    assert(entry_places(index_spec(doc).tasks) =~= entry_places(v.tasks));
}

/// The assignee that a task inherits from the groups on its path: that of
/// the last group with exactly that path, else of the path one shorter,
/// and so on.
pub open spec fn last_group_assignee(groups: Seq<GroupView>, p: Seq<Seq<char>>) -> Option<Seq<char>>
    decreases groups.len(),
{
    if groups.len() == 0 {
        None
    } else if groups.last().path == p && groups.last().assignee is Some {
        groups.last().assignee
    } else {
        last_group_assignee(groups.drop_last(), p)
    }
}

pub open spec fn inherited(groups: Seq<GroupView>, p: Seq<Seq<char>>) -> Option<Seq<char>>
    decreases p.len(),
{
    if p.len() == 0 {
        None
    } else {
        match last_group_assignee(groups, p) {
            Some(a) => Some(a),
            None => inherited(groups, p.drop_last()),
        }
    }
}

pub open spec fn resolve_task(groups: Seq<GroupView>, t: TaskView) -> TaskView {
    if t.assignee is Some {
        t
    } else {
        TaskView { assignee: inherited(groups, t.group_path), ..t }
    }
}

/// An index whose tasks without an assignee take the one they inherit.
pub open spec fn resolved(v: IndexView) -> IndexView {
    IndexView { tasks: v.tasks.map_values(|t: TaskView| resolve_task(v.groups, t)), ..v }
}

/// The index of a document.
pub open spec fn index_spec(doc: Document) -> IndexView {
    resolved(index_seq(empty_index(), doc.nodes@, Seq::empty(), None))
}

/// The value last assigned to a variable name.
pub open spec fn var_lookup(vars: Seq<(Seq<char>, Seq<char>)>, name: Seq<char>) -> Option<Seq<char>>
    decreases vars.len(),
{
    if vars.len() == 0 {
        None
    } else if vars.last().0 == name {
        Some(vars.last().1)
    } else {
        var_lookup(vars.drop_last(), name)
    }
}

pub open spec fn group_view(g: GroupEntry) -> GroupView {
    GroupView {
        name: g.name@,
        depth: g.depth,
        path: text::str_views(g.path@),
        atoms: text::str_views(g.atoms@),
        assignee: line::opt_str_view(g.assignee),
    }
}

pub open spec fn task_view(t: TaskEntry) -> TaskView {
    TaskView {
        text: t.text@,
        label: line::opt_str_view(t.label),
        kind: t.kind@,
        group_path: text::str_views(t.group_path@),
        assignee: line::opt_str_view(t.assignee),
        gates: text::str_views(t.gates@),
    }
}

pub open spec fn flow_view(f: FlowEntry) -> Seq<(Seq<Seq<char>>, Seq<Seq<char>>)> {
    f.edges@.map_values(|e: (Vec<String>, Vec<String>)| (text::str_views(e.0@), text::str_views(e.1@)))
}

impl View for DocIndex {
    type V = IndexView;

    open spec fn view(&self) -> IndexView {
        IndexView {
            groups: self.groups@.map_values(|g: GroupEntry| group_view(g)),
            tasks: self.tasks@.map_values(|t: TaskEntry| task_view(t)),
            refs: self.refs@.map_values(|r: RefEntry| (text::str_views(r.path@), r.context@)),
            mods: self.mods@.map_values(|m: ModEntry| (m.name@, line::opt_str_view(m.kind))),
            flows: self.flows@.map_values(|f: FlowEntry| flow_view(f)),
            validators: text::str_views(self.validators@),
            forms: text::str_views(self.forms@),
            variables: self.variables@.map_values(|p: (String, String)| (p.0@, p.1@)),
            remembers: text::str_views(self.remembers@),
            recalls: text::str_views(self.recalls@),
            embed_markers: text::str_views(self.embed_markers@),
            file_scopes: self.file_scopes@.map_values(
                |f: FileScopeEntry| (text::str_views(f.paths@), text::str_views(f.group_path@)),
            ),
            policies: self.policies@.map_values(|e: PolicyEntry| policy_entry_view(e)),
            escalations: text::str_views(self.escalations@),
        }
    }
}

pub open spec fn policy_entry_view(e: PolicyEntry) -> (Seq<(Seq<char>, Seq<Seq<char>>)>, Seq<Seq<char>>) {
    (
        e.rules@.map_values(|r: (String, Vec<String>)| (r.0@, text::str_views(r.1@))),
        text::str_views(e.group_path@),
    )
}

// ── Small helpers ───────────────────────────────────────────────

fn string_of(s: &str) -> (r: String)
    ensures
        r@ == s@,
{
    text::to_string(&text::str_chars(s))
}

pub fn clone_strings(v: &Vec<String>) -> (r: Vec<String>)
    ensures
        text::str_views(r@) == text::str_views(v@),
{
    let mut out: Vec<String> = Vec::new();
    let mut i: usize = 0;
    while i < v.len()
        invariant
            i <= v.len(),
            text::str_views(out@) == text::str_views(v@).take(i as int),
        decreases v.len() - i,
    {
        let ghost o0 = out@;
        let c = v[i].clone();
        out.push(c);
        assert(out@ =~= o0.push(v@[i as int]));
        assert(text::str_views(out@) =~= text::str_views(o0).push(v@[i as int]@));
        assert(text::str_views(v@).take(i + 1) =~= text::str_views(v@).take(i as int).push(v@[i as int]@));
        i = i + 1;
    }
    assert(text::str_views(v@).take(v.len() as int) =~= text::str_views(v@));
    out
}

fn clone_opt(o: &Option<String>) -> (r: Option<String>)
    ensures
        line::opt_str_view(r) == line::opt_str_view(*o),
{
    match o {
        Some(x) => Some(x.clone()),
        None => None,
    }
}

/// `@` and the parts of a path joined by `:`.
pub fn at_path_exec(path: &Vec<String>) -> (r: String)
    ensures
        r@ == at_path(text::str_views(path@)),
{
    let parts = text::from_strings(path);
    let joined = text::join_str(&parts, ":");
    let mut a = text::str_chars("@");
    text::append(&mut a, &joined);
    text::to_string(&a)
}

pub fn var_text_exec(v: &VarValue) -> (r: String)
    ensures
        r@ == var_text(*v),
{
    match v {
        VarValue::Literal(s) => s.clone(),
        VarValue::Compute(c) => {
            let bar = if c.live {
                "||"
            } else {
                "|"
            };
            let mut a = text::str_chars(bar);
            text::append(&mut a, &text::string_chars(&c.expr));
            text::append_str(&mut a, bar);
            text::to_string(&a)
        },
        VarValue::Ref(r) => at_path_exec(&r.path),
    }
}

/// The assignee named by a task's spans.
pub fn extract_assignee(inlines: &Vec<Inline>) -> (r: Option<String>)
    ensures
        line::opt_str_view(r) == assignee_spec(inlines@),
{
    let mut i: usize = 0;
    assert(inlines@.skip(0) =~= inlines@);
    while i < inlines.len()
        invariant
            i <= inlines.len(),
            assignee_spec(inlines@) == assignee_spec(inlines@.skip(i as int)),
        decreases inlines.len() - i,
    {
        assert(inlines@.skip(i as int)[0] == inlines@[i as int]);
        assert(inlines@.skip(i as int).drop_first() =~= inlines@.skip(i + 1));
        match &inlines[i] {
            Inline::Ref(r) => {
                let n = r.path.len();
                if (n > 0 && (text::eq_str(&text::string_chars(&r.path[0]), "agent") || text::eq_str(
                    &text::string_chars(&r.path[0]),
                    "me",
                ))) || n >= 2 {
                    return Some(at_path_exec(&r.path));
                }
            },
            Inline::Atom(a) => {
                if text::starts_with_str(&text::string_chars(&a.name), "@") {
                    return Some(a.name.clone());
                }
            },
            _ => {},
        }
        i = i + 1;
    }
    None
}

/// The assignee of a group, from its atoms.
pub fn extract_group_assignee(atoms: &Vec<Atom>) -> (r: Option<String>)
    ensures
        line::opt_str_view(r) == group_assignee_spec(atoms@),
{
    let mut i: usize = 0;
    assert(atoms@.skip(0) =~= atoms@);
    while i < atoms.len()
        invariant
            i <= atoms.len(),
            group_assignee_spec(atoms@) == group_assignee_spec(atoms@.skip(i as int)),
        decreases atoms.len() - i,
    {
        assert(atoms@.skip(i as int)[0] == atoms@[i as int]);
        assert(atoms@.skip(i as int).drop_first() =~= atoms@.skip(i + 1));
        let a = &atoms[i];
        if text::starts_with_str(&text::string_chars(&a.name), "@") {
            return Some(a.name.clone());
        }
        match &a.value {
            Some(v) => {
                if text::starts_with_str(&text::string_chars(v), "@") {
                    return Some(v.clone());
                }
            },
            None => {},
        }
        i = i + 1;
    }
    None
}


fn refs_exec(inlines: &Vec<Inline>, context: &String) -> (r: Vec<RefEntry>)
    ensures
        r@.map_values(|x: RefEntry| (text::str_views(x.path@), x.context@)) == refs_of(
            inlines@,
            context@,
        ),
{
    let mut out: Vec<RefEntry> = Vec::new();
    let mut i: usize = 0;
    while i < inlines.len()
        invariant
            i <= inlines.len(),
            out@.map_values(|x: RefEntry| (text::str_views(x.path@), x.context@)) == refs_of(
                inlines@.take(i as int),
                context@,
            ),
        decreases inlines.len() - i,
    {
        assert(inlines@.take(i + 1).drop_last() =~= inlines@.take(i as int));
        assert(inlines@.take(i + 1).last() == inlines@[i as int]);
        match &inlines[i] {
            Inline::Ref(r) => {
                let ghost o0 = out@;
                let e = RefEntry { path: clone_strings(&r.path), context: context.clone() };
                out.push(e);
                assert(out@.map_values(|x: RefEntry| (text::str_views(x.path@), x.context@))
                    =~= o0.map_values(|x: RefEntry| (text::str_views(x.path@), x.context@)).push(
                    (text::str_views(r.path@), context@),
                ));
            },
            _ => {},
        }
        i = i + 1;
    }
    assert(inlines@.take(inlines.len() as int) =~= inlines@);
    out
}

impl Default for DocIndex {
    fn default() -> (r: Self)
        ensures
            r@ == empty_index(),
    {
        DocIndex::new()
    }
}

impl DocIndex {
    /// An empty index.
    pub fn new() -> (r: DocIndex)
        ensures
            r@ == empty_index(),
    {
        let r = DocIndex {
            groups: Vec::new(),
            tasks: Vec::new(),
            refs: Vec::new(),
            mods: Vec::new(),
            flows: Vec::new(),
            validators: Vec::new(),
            forms: Vec::new(),
            variables: Vec::new(),
            remembers: Vec::new(),
            recalls: Vec::new(),
            embed_markers: Vec::new(),
            file_scopes: Vec::new(),
            policies: Vec::new(),
            escalations: Vec::new(),
        };
        assert(r@ =~= empty_index()) by {
            assert(r@.groups =~= Seq::<GroupView>::empty());
            assert(r@.tasks =~= Seq::<TaskView>::empty());
            assert(r@.refs =~= Seq::<(Seq<Seq<char>>, Seq<char>)>::empty());
            assert(r@.mods =~= Seq::<(Seq<char>, Option<Seq<char>>)>::empty());
            assert(r@.flows =~= Seq::<Seq<(Seq<Seq<char>>, Seq<Seq<char>>)>>::empty());
            assert(r@.validators =~= Seq::<Seq<char>>::empty());
            assert(r@.forms =~= Seq::<Seq<char>>::empty());
            assert(r@.variables =~= Seq::<(Seq<char>, Seq<char>)>::empty());
            assert(r@.remembers =~= Seq::<Seq<char>>::empty());
            assert(r@.recalls =~= Seq::<Seq<char>>::empty());
            assert(r@.embed_markers =~= Seq::<Seq<char>>::empty());
            assert(r@.file_scopes =~= Seq::<(Seq<Seq<char>>, Seq<Seq<char>>)>::empty());
            assert(r@.policies =~= Seq::<(Seq<(Seq<char>, Seq<Seq<char>>)>, Seq<Seq<char>>)>::empty());
            assert(r@.escalations =~= Seq::<Seq<char>>::empty());
        }
        r
    }

    /// The index of a document: every group, task, reference, mod, flow,
    /// validator, form, variable, memory line, embed marker, file scope,
    /// policy and escalation,
    /// in document order; tasks without an assignee of their own take the
    /// one of the nearest group on their path that has one.
    pub fn build(doc: &Document) -> (r: DocIndex)
        ensures
            r@ == index_spec(*doc),
    {
        let mut idx = DocIndex::new();
        let path: Vec<String> = Vec::new();
        let asg: Option<String> = None;
        assert(text::str_views(path@) =~= Seq::<Seq<char>>::empty());
        idx.index_nodes(&doc.nodes, &path, &asg);
        idx.resolve_assignment_inheritance();
        idx
    }

    /// Adds the entries of a sequence of nodes.
    fn index_nodes(&mut self, nodes: &Vec<Node>, path: &Vec<String>, asg: &Option<String>)
        ensures
            final(self)@ == index_seq(old(self)@, nodes@, text::str_views(path@), line::opt_str_view(*asg)),
        decreases nodes@,
    {
        let ghost p = text::str_views(path@);
        let ghost a = line::opt_str_view(*asg);
        let mut i: usize = 0;
        assert(nodes@.take(0) =~= Seq::<Node>::empty());
        while i < nodes.len()
            invariant
                i <= nodes.len(),
                p == text::str_views(path@),
                a == line::opt_str_view(*asg),
                self@ == index_seq(old(self)@, nodes@.take(i as int), p, a),
            decreases nodes.len() - i,
        {
            assert(nodes@.take(i + 1).drop_last() =~= nodes@.take(i as int));
            assert(nodes@.take(i + 1).last() == nodes@[i as int]);
            self.index_node(&nodes[i], path, asg);
            i = i + 1;
        }
        assert(nodes@.take(nodes.len() as int) =~= nodes@);
    }

    /// Adds the entries of one node.
    fn index_node(&mut self, n: &Node, path: &Vec<String>, asg: &Option<String>)
        ensures
            final(self)@ == index_node(old(self)@, *n, text::str_views(path@), line::opt_str_view(*asg)),
        decreases *n,
    {
        let ghost v0 = self@;
        match n {
            Node::Group(g) => {
                let mut p2 = clone_strings(path);
                p2.push(g.name.clone());
                let ga = extract_group_assignee(&g.atoms);
                let mut names: Vec<String> = Vec::new();
                let mut k: usize = 0;
                while k < g.atoms.len()
                    invariant
                        k <= g.atoms.len(),
                        text::str_views(names@) == g.atoms@.take(k as int).map_values(|x: Atom| x.name@),
                    decreases g.atoms.len() - k,
                {
                    let ghost n0 = names@;
                    names.push(g.atoms[k].name.clone());
                    assert(text::str_views(names@) =~= text::str_views(n0).push(g.atoms@[k as int].name@));
                    assert(g.atoms@.take(k + 1) =~= g.atoms@.take(k as int).push(g.atoms@[k as int]));
                    k = k + 1;
                }
                assert(g.atoms@.take(g.atoms.len() as int) =~= g.atoms@);
                let entry = GroupEntry {
                    name: g.name.clone(),
                    depth: g.depth,
                    path: clone_strings(&p2),
                    atoms: names,
                    assignee: clone_opt(&ga),
                };
                let ghost gs0 = self.groups@;
                self.groups.push(entry);
                assert(self.groups@.map_values(|x: GroupEntry| group_view(x)) =~= gs0.map_values(
                    |x: GroupEntry| group_view(x),
                ).push(group_view(entry)));
                let eff = if ga.is_some() {
                    ga
                } else {
                    clone_opt(asg)
                };
                assert(text::str_views(p2@) =~= text::str_views(path@).push(g.name@));
                self.index_nodes(&g.children, &p2, &eff);
            },
            Node::Task(t) => {
                let da = extract_assignee(&t.inline);
                let assignee = if da.is_some() {
                    da
                } else {
                    clone_opt(asg)
                };
                let mut gates: Vec<String> = Vec::new();
                let mut k: usize = 0;
                while k < t.gates.len()
                    invariant
                        k <= t.gates.len(),
                        text::str_views(gates@) == t.gates@.take(k as int).map_values(
                            |x: crate::types::Gate| x.name@,
                        ),
                    decreases t.gates.len() - k,
                {
                    let ghost n0 = gates@;
                    gates.push(t.gates[k].name.clone());
                    assert(text::str_views(gates@) =~= text::str_views(n0).push(t.gates@[k as int].name@));
                    assert(t.gates@.take(k + 1) =~= t.gates@.take(k as int).push(t.gates@[k as int]));
                    k = k + 1;
                }
                assert(t.gates@.take(t.gates.len() as int) =~= t.gates@);
                let entry = TaskEntry {
                    text: t.text.clone(),
                    label: clone_opt(&t.label),
                    kind: string_of(t.marker.kind.name()),
                    group_path: clone_strings(path),
                    assignee,
                    gates,
                };
                let ghost ts0 = self.tasks@;
                self.tasks.push(entry);
                assert(self.tasks@.map_values(|x: TaskEntry| task_view(x)) =~= ts0.map_values(
                    |x: TaskEntry| task_view(x),
                ).push(task_view(entry)));
                self.index_nodes(&t.children, path, asg);
            },
            Node::Prose(pr) => {
                let mut rs = refs_exec(&pr.inline, &pr.text);
                let ghost r0 = self.refs@;
                let ghost rs0 = rs@;
                self.refs.append(&mut rs);
                assert(self.refs@.map_values(|x: RefEntry| (text::str_views(x.path@), x.context@))
                    =~= r0.map_values(|x: RefEntry| (text::str_views(x.path@), x.context@))
                    + rs0.map_values(|x: RefEntry| (text::str_views(x.path@), x.context@)));
            },
            Node::ModDef(m) => {
                let ghost m0 = self.mods@;
                let e = ModEntry { name: m.name.clone(), kind: clone_opt(&m.kind) };
                self.mods.push(e);
                assert(self.mods@.map_values(|x: ModEntry| (x.name@, line::opt_str_view(x.kind)))
                    =~= m0.map_values(|x: ModEntry| (x.name@, line::opt_str_view(x.kind))).push(
                    (m.name@, line::opt_str_view(m.kind)),
                ));
            },
            Node::ModInvoke(m) => {
                let ghost m0 = self.mods@;
                let e = ModEntry { name: m.name.clone(), kind: None };
                self.mods.push(e);
                assert(self.mods@.map_values(|x: ModEntry| (x.name@, line::opt_str_view(x.kind)))
                    =~= m0.map_values(|x: ModEntry| (x.name@, line::opt_str_view(x.kind))).push(
                    (m.name@, None),
                ));
            },
            Node::Flow(f) => {
                let mut edges: Vec<(Vec<String>, Vec<String>)> = Vec::new();
                let mut k: usize = 0;
                while k < f.edges.len()
                    invariant
                        k <= f.edges.len(),
                        edges@.map_values(
                            |e: (Vec<String>, Vec<String>)| (text::str_views(e.0@), text::str_views(e.1@)),
                        ) == f.edges@.take(k as int).map_values(
                            |e: crate::types::FlowEdge| (text::str_views(e.from@), text::str_views(e.to@)),
                        ),
                    decreases f.edges.len() - k,
                {
                    let ghost e0 = edges@;
                    let pair = (clone_strings(&f.edges[k].from), clone_strings(&f.edges[k].to));
                    edges.push(pair);
                    assert(edges@.map_values(
                        |e: (Vec<String>, Vec<String>)| (text::str_views(e.0@), text::str_views(e.1@)),
                    ) =~= e0.map_values(
                        |e: (Vec<String>, Vec<String>)| (text::str_views(e.0@), text::str_views(e.1@)),
                    ).push((text::str_views(f.edges@[k as int].from@), text::str_views(f.edges@[k as int].to@))));
                    assert(f.edges@.take(k + 1) =~= f.edges@.take(k as int).push(f.edges@[k as int]));
                    k = k + 1;
                }
                assert(f.edges@.take(f.edges.len() as int) =~= f.edges@);
                let ghost fl0 = self.flows@;
                let fe = FlowEntry { edges };
                self.flows.push(fe);
                assert(self.flows@.map_values(|x: FlowEntry| flow_view(x)) =~= fl0.map_values(
                    |x: FlowEntry| flow_view(x),
                ).push(flow_view(fe)));
            },
            Node::Validate(v) => {
                let ghost s0 = self.validators@;
                self.validators.push(v.name.clone());
                assert(text::str_views(self.validators@) =~= text::str_views(s0).push(v.name@));
                self.index_nodes(&v.children, path, asg);
            },
            Node::Form(f) => {
                let ghost s0 = self.forms@;
                self.forms.push(f.name.clone());
                assert(text::str_views(self.forms@) =~= text::str_views(s0).push(f.name@));
            },
            Node::Variable(v) => {
                let val = var_text_exec(&v.value);
                let scoped = if path.len() == 0 {
                    v.name.clone()
                } else {
                    let parts = text::from_strings(path);
                    let mut a = text::join_str(&parts, ":");
                    text::append_str(&mut a, ":");
                    text::append(&mut a, &text::string_chars(&v.name));
                    text::to_string(&a)
                };
                let ghost s0 = self.variables@;
                assert(crate::ir::pairs_view(s0) =~= s0.map_values(|p: (String, String)| (p.0@, p.1@)));
                crate::ir::set_var(&mut self.variables, scoped, val.clone());
                crate::ir::set_var(&mut self.variables, v.name.clone(), val);
                assert(crate::ir::pairs_view(self.variables@) =~= self.variables@.map_values(
                    |p: (String, String)| (p.0@, p.1@),
                ));
            },
            Node::Conditional(c) => {
                self.index_nodes(&c.children, path, asg);
            },
            Node::Remember(r) => {
                let ghost s0 = self.remembers@;
                self.remembers.push(r.content.clone());
                assert(text::str_views(self.remembers@) =~= text::str_views(s0).push(r.content@));
            },
            Node::Recall(r) => {
                let ghost s0 = self.recalls@;
                self.recalls.push(r.query.clone());
                assert(text::str_views(self.recalls@) =~= text::str_views(s0).push(r.query@));
            },
            Node::EmbedMarker(e) => {
                let ghost s0 = self.embed_markers@;
                self.embed_markers.push(e.tag.clone());
                assert(text::str_views(self.embed_markers@) =~= text::str_views(s0).push(e.tag@));
            },
            Node::Escalate(e) => {
                let ghost s0 = self.escalations@;
                self.escalations.push(e.target.clone());
                assert(text::str_views(self.escalations@) =~= text::str_views(s0).push(e.target@));
            },
            Node::FilesDef(f) => {
                let ghost s0 = self.file_scopes@;
                let entry = FileScopeEntry { paths: clone_strings(&f.paths), group_path: clone_strings(path) };
                self.file_scopes.push(entry);
                assert(self.file_scopes@.map_values(
                    |f: FileScopeEntry| (text::str_views(f.paths@), text::str_views(f.group_path@)),
                ) =~= s0.map_values(
                    |f: FileScopeEntry| (text::str_views(f.paths@), text::str_views(f.group_path@)),
                ).push((text::str_views(entry.paths@), text::str_views(entry.group_path@))));
            },
            Node::PolicyDef(pd) => {
                let ghost s0 = self.policies@;
                let entry = PolicyEntry { rules: policy_rules_of(&pd.rules), group_path: clone_strings(path) };
                self.policies.push(entry);
                assert(self.policies@.map_values(|e: PolicyEntry| policy_entry_view(e)) =~= s0.map_values(
                    |e: PolicyEntry| policy_entry_view(e),
                ).push(policy_entry_view(entry)));
            },
            _ => {},
        }
    }
}

fn gate_names_of(gs: &Vec<crate::types::Gate>) -> (r: Vec<String>)
    ensures
        text::str_views(r@) == gs@.map_values(|g: crate::types::Gate| g.name@),
{
    let mut out: Vec<String> = Vec::new();
    let mut i: usize = 0;
    while i < gs.len()
        invariant
            i <= gs.len(),
            text::str_views(out@) == gs@.take(i as int).map_values(|g: crate::types::Gate| g.name@),
        decreases gs.len() - i,
    {
        let ghost o = out@;
        let nm = gs[i].name.clone();
        out.push(nm);
        proof {
            assert(text::str_views(o.push(nm)) =~= text::str_views(o).push(nm@));
            assert(gs@.take(i + 1) =~= gs@.take(i as int).push(gs@[i as int]));
        }
        i = i + 1;
    }
    assert(gs@.take(gs.len() as int) =~= gs@);
    out
}

fn policy_rules_of(rs: &Vec<PolicyRule>) -> (r: Vec<(String, Vec<String>)>)
    ensures
        r@.map_values(|x: (String, Vec<String>)| (x.0@, text::str_views(x.1@))) == rs@.map_values(
            |x: PolicyRule| policy_rule_view(x),
        ),
{
    let mut out: Vec<(String, Vec<String>)> = Vec::new();
    let mut i: usize = 0;
    while i < rs.len()
        invariant
            i <= rs.len(),
            out@.map_values(|x: (String, Vec<String>)| (x.0@, text::str_views(x.1@))) == rs@.take(
                i as int,
            ).map_values(|x: PolicyRule| policy_rule_view(x)),
        decreases rs.len() - i,
    {
        let ghost o = out@;
        let e = (rs[i].path.clone(), gate_names_of(&rs[i].gates));
        out.push(e);
        proof {
            assert(out@.map_values(|x: (String, Vec<String>)| (x.0@, text::str_views(x.1@))) =~= o.map_values(
                |x: (String, Vec<String>)| (x.0@, text::str_views(x.1@)),
            ).push((e.0@, text::str_views(e.1@))));
            assert(rs@.take(i + 1) =~= rs@.take(i as int).push(rs@[i as int]));
        }
        i = i + 1;
    }
    assert(rs@.take(rs.len() as int) =~= rs@);
    out
}


/// Whether `a` is the first `k` parts of `p`.
fn path_prefix_eq(a: &Vec<String>, p: &Vec<String>, k: usize) -> (b: bool)
    requires
        k <= p.len(),
    ensures
        b == (text::str_views(a@) == text::str_views(p@).take(k as int)),
{
    if a.len() != k {
        assert(text::str_views(a@).len() != text::str_views(p@).take(k as int).len());
        return false;
    }
    let mut j: usize = 0;
    while j < k
        invariant
            j <= k <= p.len(),
            a.len() == k,
            forall|m: int| 0 <= m < j ==> a@[m]@ == p@[m]@,
        decreases k - j,
    {
        if !text::eq(&text::string_chars(&a[j]), &text::string_chars(&p[j])) {
            assert(text::str_views(a@)[j as int] != text::str_views(p@).take(k as int)[j as int]);
            return false;
        }
        j = j + 1;
    }
    assert(text::str_views(a@) =~= text::str_views(p@).take(k as int));
    true
}

fn last_group_assignee_exec(groups: &Vec<GroupEntry>, p: &Vec<String>, k: usize) -> (r: Option<String>)
    requires
        k <= p.len(),
    ensures
        line::opt_str_view(r) == last_group_assignee(
            groups@.map_values(|g: GroupEntry| group_view(g)),
            text::str_views(p@).take(k as int),
        ),
{
    let ghost gv = groups@.map_values(|g: GroupEntry| group_view(g));
    let ghost q = text::str_views(p@).take(k as int);
    let mut j: usize = groups.len();
    assert(gv.take(j as int) =~= gv);
    while j > 0
        invariant
            j <= groups.len(),
            gv == groups@.map_values(|g: GroupEntry| group_view(g)),
            q == text::str_views(p@).take(k as int),
            k <= p.len(),
            last_group_assignee(gv, q) == last_group_assignee(gv.take(j as int), q),
        decreases j,
    {
        let g = &groups[j - 1];
        assert(gv.take(j as int).last() == group_view(*g));
        assert(gv.take(j as int).drop_last() =~= gv.take(j - 1));
        if g.assignee.is_some() && path_prefix_eq(&g.path, p, k) {
            return clone_opt(&g.assignee);
        }
        j = j - 1;
    }
    None
}

fn inherited_exec(groups: &Vec<GroupEntry>, p: &Vec<String>) -> (r: Option<String>)
    ensures
        line::opt_str_view(r) == inherited(
            groups@.map_values(|g: GroupEntry| group_view(g)),
            text::str_views(p@),
        ),
{
    let ghost gv = groups@.map_values(|g: GroupEntry| group_view(g));
    let ghost pv = text::str_views(p@);
    let mut k: usize = p.len();
    assert(pv.take(k as int) =~= pv);
    while k > 0
        invariant
            k <= p.len(),
            gv == groups@.map_values(|g: GroupEntry| group_view(g)),
            pv == text::str_views(p@),
            inherited(gv, pv) == inherited(gv, pv.take(k as int)),
        decreases k,
    {
        let found = last_group_assignee_exec(groups, p, k);
        if found.is_some() {
            return found;
        }
        assert(pv.take(k as int).drop_last() =~= pv.take(k - 1));
        k = k - 1;
    }
    None
}

impl DocIndex {
    /// Gives each task without an assignee the one it inherits from the
    /// groups on its path.
    fn resolve_assignment_inheritance(&mut self)
        ensures
            final(self)@ == resolved(old(self)@),
    {
        let ghost gv = self.groups@.map_values(|g: GroupEntry| group_view(g));
        let ghost orig = self.tasks@;
        let mut todo: Vec<TaskEntry> = Vec::new();
        std::mem::swap(&mut todo, &mut self.tasks);
        assert(orig.take(0).map_values(|t: TaskEntry| resolve_task(gv, task_view(t))) =~= Seq::<TaskView>::empty());
        assert(self.tasks@.map_values(|t: TaskEntry| task_view(t)) =~= Seq::<TaskView>::empty());
        while todo.len() > 0
            invariant
                orig == orig.take(orig.len() - todo@.len()) + todo@,
                todo@.len() <= orig.len(),
                gv == self.groups@.map_values(|g: GroupEntry| group_view(g)),
                self.groups == old(self).groups,
                self.refs == old(self).refs,
                self.mods == old(self).mods,
                self.flows == old(self).flows,
                self.validators == old(self).validators,
                self.forms == old(self).forms,
                self.variables == old(self).variables,
                self.remembers == old(self).remembers,
                self.recalls == old(self).recalls,
                self.embed_markers == old(self).embed_markers,
                self.escalations == old(self).escalations,
                self.file_scopes == old(self).file_scopes,
                self.policies == old(self).policies,
                orig == old(self).tasks@,
                self.tasks@.map_values(|t: TaskEntry| task_view(t)) == orig.take(
                    orig.len() - todo@.len(),
                ).map_values(|t: TaskEntry| resolve_task(gv, task_view(t))),
            decreases todo@.len(),
        {
            let ghost done = orig.take(orig.len() - todo@.len());
            let mut t = todo.remove(0);
            proof {
                let d2 = orig.take(orig.len() - todo@.len());
                assert(d2 =~= done.push(t));
                assert(orig =~= d2 + todo@);
            }
            let ghost t0 = t;
            if t.assignee.is_none() {
                t.assignee = inherited_exec(&self.groups, &t.group_path);
            }
            assert(task_view(t) == resolve_task(gv, task_view(t0)));
            let ghost ts0 = self.tasks@;
            self.tasks.push(t);
            assert(self.tasks@.map_values(|x: TaskEntry| task_view(x)) =~= ts0.map_values(
                |x: TaskEntry| task_view(x),
            ).push(task_view(t)));
            assert(orig.take(orig.len() - todo@.len()).map_values(
                |x: TaskEntry| resolve_task(gv, task_view(x)),
            ) =~= done.map_values(|x: TaskEntry| resolve_task(gv, task_view(x))).push(
                resolve_task(gv, task_view(t0)),
            ));
        }
        assert(orig.take(orig.len() as int) =~= orig);
        assert(self@.tasks =~= old(self)@.tasks.map_values(|t: TaskView| resolve_task(gv, t)));
    }

    /// The value in force for a variable name: the last one assigned to it.
    pub fn variable(&self, name: &str) -> (r: Option<String>)
        ensures
            line::opt_str_view(r) == var_lookup(self@.variables, name@),
    {
        let ghost vv = self@.variables;
        let mut j: usize = self.variables.len();
        assert(vv.take(j as int) =~= vv);
        while j > 0
            invariant
                j <= self.variables.len(),
                vv == self@.variables,
                var_lookup(vv, name@) == var_lookup(vv.take(j as int), name@),
            decreases j,
        {
            assert(vv.take(j as int).last() == (self.variables@[j - 1].0@, self.variables@[j - 1].1@));
            assert(vv.take(j as int).drop_last() =~= vv.take(j - 1));
            if text::eq_str(&text::string_chars(&self.variables[j - 1].0), name) {
                return Some(self.variables[j - 1].1.clone());
            }
            j = j - 1;
        }
        None
    }
}

} // verus!
