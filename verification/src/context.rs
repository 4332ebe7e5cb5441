//! Focused views of an index: the tasks, references, gates and variables
//! that concern one agent, or the tasks of one group.
use crate::index::{at_path, DocIndex, IndexView, TaskEntry, TaskView};
use crate::line;
use crate::text;
use vstd::prelude::*;

verus! {

/// The part of an index that concerns one target.
#[derive(Debug, Clone)]
pub struct ContextWindow {
    pub target: String,
    pub tasks: Vec<TaskContext>,
    pub related_refs: Vec<String>,
    pub active_gates: Vec<String>,
    pub variables: Vec<(String, String)>,
}

/// A task as a context window shows it.
#[derive(Debug, Clone)]
pub struct TaskContext {
    pub text: String,
    pub kind: String,
    pub label: Option<String>,
    pub gates: Vec<String>,
    pub group_path: Vec<String>,
}

pub struct TaskContextView {
    pub text: Seq<char>,
    pub kind: Seq<char>,
    pub label: Option<Seq<char>>,
    pub gates: Seq<Seq<char>>,
    pub group_path: Seq<Seq<char>>,
}

pub open spec fn tc_view(t: TaskContext) -> TaskContextView {
    TaskContextView {
        text: t.text@,
        kind: t.kind@,
        label: line::opt_str_view(t.label),
        gates: text::str_views(t.gates@),
        group_path: text::str_views(t.group_path@),
    }
}

pub open spec fn tcs_view(v: Seq<TaskContext>) -> Seq<TaskContextView> {
    v.map_values(|t: TaskContext| tc_view(t))
}

/// How a task entry appears in a context window.
pub open spec fn as_context(t: TaskView) -> TaskContextView {
    TaskContextView {
        text: t.text,
        kind: t.kind,
        label: t.label,
        gates: t.gates,
        group_path: t.group_path,
    }
}

/// Whether a task concerns an agent: its assignee or its text contains the
/// agent's name.
pub open spec fn concerns(t: TaskView, agent: Seq<char>) -> bool {
    (t.assignee matches Some(a) && text::contains(a, agent)) || text::contains(t.text, agent)
}

pub open spec fn agent_tasks(ts: Seq<TaskView>, agent: Seq<char>) -> Seq<TaskContextView>
    decreases ts.len(),
{
    if ts.len() == 0 {
        Seq::empty()
    } else {
        let rest = agent_tasks(ts.drop_last(), agent);
        if concerns(ts.last(), agent) {
            rest.push(as_context(ts.last()))
        } else {
            rest
        }
    }
}

pub open spec fn group_tasks(ts: Seq<TaskView>, group: Seq<char>) -> Seq<TaskContextView>
    decreases ts.len(),
{
    if ts.len() == 0 {
        Seq::empty()
    } else {
        let rest = group_tasks(ts.drop_last(), group);
        if ts.last().group_path.contains(group) {
            rest.push(as_context(ts.last()))
        } else {
            rest
        }
    }
}

/// The references of prose lines that mention the agent, written `@a:b`.
pub open spec fn agent_refs(rs: Seq<(Seq<Seq<char>>, Seq<char>)>, agent: Seq<char>) -> Seq<Seq<char>>
    decreases rs.len(),
{
    if rs.len() == 0 {
        Seq::empty()
    } else {
        let rest = agent_refs(rs.drop_last(), agent);
        if text::contains(rs.last().1, agent) {
            rest.push(at_path(rs.last().0))
        } else {
            rest
        }
    }
}

/// The gates of the tasks, in order.
pub open spec fn all_gates(ts: Seq<TaskContextView>) -> Seq<Seq<char>>
    decreases ts.len(),
{
    if ts.len() == 0 {
        Seq::empty()
    } else {
        all_gates(ts.drop_last()) + ts.last().gates
    }
}

/// Whether a later assignment gives the same name a new value.
pub open spec fn reassigned(vars: Seq<(Seq<char>, Seq<char>)>, i: int) -> bool {
    exists|j: int| i < j < vars.len() && #[trigger] vars[j].0 == vars[i].0
}

/// The assignments in force: each name with the value last assigned to it,
/// in the order of those last assignments.
pub open spec fn in_force(vars: Seq<(Seq<char>, Seq<char>)>, i: int) -> Seq<(Seq<char>, Seq<char>)>
    decreases vars.len() - i,
{
    if i < 0 || i >= vars.len() {
        Seq::empty()
    } else if reassigned(vars, i) {
        in_force(vars, i + 1)
    } else {
        seq![vars[i]] + in_force(vars, i + 1)
    }
}

/// Where no name occurs twice, every assignment is in force.
proof fn lemma_in_force_distinct(vars: Seq<(Seq<char>, Seq<char>)>, i: int)
    requires
        crate::index::names_distinct(vars),
        0 <= i <= vars.len(),
    ensures
        in_force(vars, i) == vars.skip(i),
    decreases vars.len() - i,
{
    if i < vars.len() {
        assert(!reassigned(vars, i)) by {
            if reassigned(vars, i) {
                let j = choose|j: int| i < j < vars.len() && #[trigger] vars[j].0 == vars[i].0;
                assert(vars[i].0 != vars[j].0);
            }
        }
        lemma_in_force_distinct(vars, i + 1);
        assert(vars.skip(i) =~= seq![vars[i]] + vars.skip(i + 1));
    } else {
        assert(vars.skip(i) =~= Seq::<(Seq<char>, Seq<char>)>::empty());
    }
}

/// The variables that an agent's or a task's context carries from the index
/// of a document are exactly the index's variables, in the same order: the
/// index holds each name once, so each of its assignments is in force.
pub proof fn lemma_context_variables_are_index_variables(doc: crate::types::Document)
    ensures
        in_force(crate::index::index_spec(doc).variables, 0) == crate::index::index_spec(doc).variables,
{
    let vars = crate::index::index_spec(doc).variables;
    crate::index::lemma_index_variables_distinct(doc);
    lemma_in_force_distinct(vars, 0);
    assert(vars.skip(0) =~= vars);
}

pub open spec fn pairs_view(v: Seq<(String, String)>) -> Seq<(Seq<char>, Seq<char>)> {
    v.map_values(|p: (String, String)| (p.0@, p.1@))
}

fn task_context(t: &TaskEntry) -> (r: TaskContext)
    ensures
        tc_view(r) == as_context(crate::index::task_view(*t)),
{
    TaskContext {
        text: t.text.clone(),
        kind: t.kind.clone(),
        label: match &t.label {
            Some(l) => Some(l.clone()),
            None => None,
        },
        gates: crate::index::clone_strings(&t.gates),
        group_path: crate::index::clone_strings(&t.group_path),
    }
}

fn contains_string(s: &String, p: &str) -> (b: bool)
    ensures
        b == text::contains(s@, p@),
{
    text::contains_str(&text::string_chars(s), p)
}

fn variables_in_force(vars: &Vec<(String, String)>) -> (r: Vec<(String, String)>)
    ensures
        pairs_view(r@) == in_force(pairs_view(vars@), 0),
{
    let ghost pv = pairs_view(vars@);
    let mut out: Vec<(String, String)> = Vec::new();
    let mut i: usize = 0;
    assert(pairs_view(out@) + in_force(pv, 0) =~= in_force(pv, 0));
    while i < vars.len()
        invariant
            i <= vars.len(),
            pv == pairs_view(vars@),
            pairs_view(out@) + in_force(pv, i as int) == in_force(pv, 0),
        decreases vars.len() - i,
    {
        let mut later = false;
        let mut j: usize = i + 1;
        while j < vars.len()
            invariant
                i < j <= vars.len(),
                pv == pairs_view(vars@),
                later == (exists|m: int| i < m < j && #[trigger] pv[m].0 == pv[i as int].0),
            decreases vars.len() - j,
        {
            if text::eq(&text::string_chars(&vars[j].0), &text::string_chars(&vars[i].0)) {
                later = true;
            }
            assert(pv[j as int].0 == vars@[j as int].0@);
            assert(pv[i as int].0 == vars@[i as int].0@);
            j = j + 1;
        }
        assert(later == reassigned(pv, i as int));
        if !later {
            let ghost o0 = out@;
            out.push((vars[i].0.clone(), vars[i].1.clone()));
            assert(pairs_view(out@) =~= pairs_view(o0).push(pv[i as int]));
            assert(pairs_view(out@) + in_force(pv, i + 1) =~= pairs_view(o0) + in_force(pv, i as int));
        }
        i = i + 1;
    }
    assert(in_force(pv, vars.len() as int) =~= Seq::<(Seq<char>, Seq<char>)>::empty());
    assert(pairs_view(out@) =~= in_force(pv, 0));
    out
}

/// The context window of an agent: the tasks assigned to it or naming it,
/// the references of the prose lines that mention it, the gates of those
/// tasks, and the variables in force.
pub fn extract_for_agent(index: &DocIndex, agent_ref: &str) -> (r: ContextWindow)
    ensures
        r.target@ == agent_ref@,
        tcs_view(r.tasks@) == agent_tasks(index@.tasks, agent_ref@),
        text::str_views(r.related_refs@) == agent_refs(index@.refs, agent_ref@),
        text::str_views(r.active_gates@) == all_gates(tcs_view(r.tasks@)),
        pairs_view(r.variables@) == in_force(index@.variables, 0),
{
    let ghost tv = index@.tasks;
    let mut tasks: Vec<TaskContext> = Vec::new();
    let mut i: usize = 0;
    while i < index.tasks.len()
        invariant
            i <= index.tasks.len(),
            tv == index@.tasks,
            tcs_view(tasks@) == agent_tasks(tv.take(i as int), agent_ref@),
        decreases index.tasks.len() - i,
    {
        let t = &index.tasks[i];
        assert(tv.take(i + 1).drop_last() =~= tv.take(i as int));
        assert(tv.take(i + 1).last() == crate::index::task_view(*t));
        let hit = match &t.assignee {
            Some(a) => contains_string(a, agent_ref),
            None => false,
        } || contains_string(&t.text, agent_ref);
        if hit {
            let ghost t0 = tasks@;
            let c = task_context(t);
            tasks.push(c);
            assert(tcs_view(tasks@) =~= tcs_view(t0).push(tc_view(c)));
        }
        i = i + 1;
    }
    assert(tv.take(index.tasks.len() as int) =~= tv);
    let ghost rv = index@.refs;
    let mut refs: Vec<String> = Vec::new();
    let mut k: usize = 0;
    while k < index.refs.len()
        invariant
            k <= index.refs.len(),
            rv == index@.refs,
            text::str_views(refs@) == agent_refs(rv.take(k as int), agent_ref@),
        decreases index.refs.len() - k,
    {
        let r = &index.refs[k];
        assert(rv.take(k + 1).drop_last() =~= rv.take(k as int));
        assert(rv.take(k + 1).last() == (text::str_views(r.path@), r.context@));
        if contains_string(&r.context, agent_ref) {
            let ghost r0 = refs@;
            let a = text::to_string(&text::string_chars(&crate::index::at_path_exec(&r.path)));
            refs.push(a);
            assert(text::str_views(refs@) =~= text::str_views(r0).push(a@));
        }
        k = k + 1;
    }
    assert(rv.take(index.refs.len() as int) =~= rv);
    let mut gates: Vec<String> = Vec::new();
    let mut m: usize = 0;
    while m < tasks.len()
        invariant
            m <= tasks.len(),
            text::str_views(gates@) == all_gates(tcs_view(tasks@).take(m as int)),
        decreases tasks.len() - m,
    {
        assert(tcs_view(tasks@).take(m + 1).drop_last() =~= tcs_view(tasks@).take(m as int));
        assert(tcs_view(tasks@).take(m + 1).last() == tc_view(tasks@[m as int]));
        let mut g = crate::index::clone_strings(&tasks[m].gates);
        let ghost g0 = gates@;
        let ghost gm = g@;
        gates.append(&mut g);
        assert(gates@ =~= g0 + gm);
        assert(text::str_views(gates@) =~= text::str_views(g0) + text::str_views(gm));
        m = m + 1;
    }
    assert(tcs_view(tasks@).take(tasks.len() as int) =~= tcs_view(tasks@));
    let variables = variables_in_force(&index.variables);
    ContextWindow {
        target: text::to_string(&text::str_chars(agent_ref)),
        tasks,
        related_refs: refs,
        active_gates: gates,
        variables,
    }
}

/// The context window of a group: the tasks whose group path names it.
pub fn extract_for_group(index: &DocIndex, group_name: &str) -> (r: ContextWindow)
    ensures
        r.target@ == group_name@,
        tcs_view(r.tasks@) == group_tasks(index@.tasks, group_name@),
        r.related_refs@.len() == 0,
        r.active_gates@.len() == 0,
        r.variables@.len() == 0,
{
    let ghost tv = index@.tasks;
    let mut tasks: Vec<TaskContext> = Vec::new();
    let mut i: usize = 0;
    while i < index.tasks.len()
        invariant
            i <= index.tasks.len(),
            tv == index@.tasks,
            tcs_view(tasks@) == group_tasks(tv.take(i as int), group_name@),
        decreases index.tasks.len() - i,
    {
        let t = &index.tasks[i];
        assert(tv.take(i + 1).drop_last() =~= tv.take(i as int));
        assert(tv.take(i + 1).last() == crate::index::task_view(*t));
        let mut found = false;
        let mut j: usize = 0;
        while j < t.group_path.len()
            invariant
                j <= t.group_path.len(),
                found == (exists|q: int| 0 <= q < j && #[trigger] t.group_path@[q]@ == group_name@),
            decreases t.group_path.len() - j,
        {
            if text::eq_str(&text::string_chars(&t.group_path[j]), group_name) {
                found = true;
            }
            j = j + 1;
        }
        proof {
            let g = text::str_views(t.group_path@);
            if found {
                let q = choose|q: int| 0 <= q < t.group_path.len() && #[trigger] t.group_path@[q]@ == group_name@;
                assert(g[q] == group_name@);
            } else {
                assert forall|q: int| 0 <= q < g.len() implies g[q] != group_name@ by {
                    assert(g[q] == t.group_path@[q]@);
                }
            }
            assert(found == g.contains(group_name@));
        }
        if found {
            let ghost t0 = tasks@;
            let c = task_context(t);
            tasks.push(c);
            assert(tcs_view(tasks@) =~= tcs_view(t0).push(tc_view(c)));
        }
        i = i + 1;
    }
    assert(tv.take(index.tasks.len() as int) =~= tv);
    ContextWindow {
        target: text::to_string(&text::str_chars(group_name)),
        tasks,
        related_refs: Vec::new(),
        active_gates: Vec::new(),
        variables: Vec::new(),
    }
}

} // verus!
