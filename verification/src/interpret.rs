//! The interpreter: runs a document graph in order, keeping the state of
//! flows, entities, variables, gates and tasks, and a trace of what
//! happened.
use crate::ir::{
    assoc_set, chars_of, construct_view, constructs_view, field_get, fields_insert, fields_view,
    has_key, pairs_view, value_view, values_view, BitIR, Construct, ConstructKind, ConstructView,
    IRView, Value, ValueView,
};
use crate::text;
use vstd::prelude::*;

verus! {

/// An event in the execution trace.
#[derive(Debug, Clone)]
pub struct ExecEvent {
    pub kind: ExecEventKind,
    pub construct: String,
    pub detail: String,
}

#[derive(Debug, Clone, Copy, PartialEq, Eq, Structural)]
pub enum ExecEventKind {
    /// Schema registered.
    SchemaRegistered,
    /// Entity created/mutated.
    EntityMutated,
    /// Entity deleted.
    EntityDeleted,
    /// Flow state transitioned.
    FlowTransition,
    /// Flow blocked by gate.
    FlowBlocked,
    /// Gate evaluated.
    GateEvaluated,
    /// Bound checked.
    BoundChecked,
    /// Task state changed.
    TaskUpdated,
    /// Spawn started.
    SpawnStarted,
    /// Conditional evaluated.
    ConditionalEvaluated,
    /// Validate checklist checked.
    ValidationRun,
    /// Webhook would fire.
    WebhookTriggered,
    /// Variable set.
    VariableSet,
    /// Sync scheduled.
    SyncScheduled,
    /// Routine scheduled.
    RoutineScheduled,
    /// Error.
    Error,
}

/// A failure while running one construct.
#[derive(Debug, Clone)]
pub struct ExecError {
    pub message: String,
    pub construct: String,
}


impl ExecEventKind {
    /// The variant's name, as `{:?}` writes it.
    pub open spec fn name_spec(self) -> Seq<char> {
        match self {
            ExecEventKind::SchemaRegistered => "SchemaRegistered"@,
            ExecEventKind::EntityMutated => "EntityMutated"@,
            ExecEventKind::EntityDeleted => "EntityDeleted"@,
            ExecEventKind::FlowTransition => "FlowTransition"@,
            ExecEventKind::FlowBlocked => "FlowBlocked"@,
            ExecEventKind::GateEvaluated => "GateEvaluated"@,
            ExecEventKind::BoundChecked => "BoundChecked"@,
            ExecEventKind::TaskUpdated => "TaskUpdated"@,
            ExecEventKind::SpawnStarted => "SpawnStarted"@,
            ExecEventKind::ConditionalEvaluated => "ConditionalEvaluated"@,
            ExecEventKind::ValidationRun => "ValidationRun"@,
            ExecEventKind::WebhookTriggered => "WebhookTriggered"@,
            ExecEventKind::VariableSet => "VariableSet"@,
            ExecEventKind::SyncScheduled => "SyncScheduled"@,
            ExecEventKind::RoutineScheduled => "RoutineScheduled"@,
            ExecEventKind::Error => "Error"@,
        }
    }

    pub fn name(&self) -> (r: &'static str)
        ensures
            r@ == self.name_spec(),
    {
        match self {
            ExecEventKind::SchemaRegistered => "SchemaRegistered",
            ExecEventKind::EntityMutated => "EntityMutated",
            ExecEventKind::EntityDeleted => "EntityDeleted",
            ExecEventKind::FlowTransition => "FlowTransition",
            ExecEventKind::FlowBlocked => "FlowBlocked",
            ExecEventKind::GateEvaluated => "GateEvaluated",
            ExecEventKind::BoundChecked => "BoundChecked",
            ExecEventKind::TaskUpdated => "TaskUpdated",
            ExecEventKind::SpawnStarted => "SpawnStarted",
            ExecEventKind::ConditionalEvaluated => "ConditionalEvaluated",
            ExecEventKind::ValidationRun => "ValidationRun",
            ExecEventKind::WebhookTriggered => "WebhookTriggered",
            ExecEventKind::VariableSet => "VariableSet",
            ExecEventKind::SyncScheduled => "SyncScheduled",
            ExecEventKind::RoutineScheduled => "RoutineScheduled",
            ExecEventKind::Error => "Error",
        }
    }
}

/// A three-valued truth: passed, not known yet, failed.
#[derive(Debug, Clone, Copy, PartialEq, Eq, Structural)]
pub enum Trit {
    Pos,
    Neutral,
    Neg,
}

/// Kleene conjunction: a failure wins, then an unknown.
pub open spec fn kleene_and(a: Trit, b: Trit) -> Trit {
    if a == Trit::Neg || b == Trit::Neg {
        Trit::Neg
    } else if a == Trit::Neutral || b == Trit::Neutral {
        Trit::Neutral
    } else {
        Trit::Pos
    }
}

/// Where a text that reads as a floating-point number stands among the
/// numbers a run compares: equal numbers share a rank, a greater number
/// has a greater rank, and NaN compares with nothing.
#[derive(Debug, Clone, Copy, PartialEq, Eq, Structural)]
pub enum NumberRank {
    NaN,
    At(u64),
}

pub open spec fn num_gt(a: NumberRank, b: NumberRank) -> bool {
    match (a, b) {
        (NumberRank::At(x), NumberRank::At(y)) => x > y,
        _ => false,
    }
}

pub open spec fn num_lt(a: NumberRank, b: NumberRank) -> bool {
    match (a, b) {
        (NumberRank::At(x), NumberRank::At(y)) => x < y,
        _ => false,
    }
}

pub open spec fn ranks_view(t: Seq<(String, NumberRank)>) -> Seq<(Seq<char>, NumberRank)> {
    t.map_values(|e: (String, NumberRank)| (e.0@, e.1))
}

pub struct EventView {
    pub kind: ExecEventKind,
    pub construct: Seq<char>,
    pub detail: Seq<char>,
}

pub open spec fn event_view(e: ExecEvent) -> EventView {
    EventView { kind: e.kind, construct: e.construct@, detail: e.detail@ }
}

pub open spec fn events_view(s: Seq<ExecEvent>) -> Seq<EventView> {
    s.map_values(|e: ExecEvent| event_view(e))
}

pub open spec fn ev(kind: ExecEventKind, construct: Seq<char>, detail: Seq<char>) -> EventView {
    EventView { kind, construct, detail }
}

pub type FieldsView = Seq<(Seq<char>, ValueView)>;

/// The state of a run.
pub struct CtxView {
    pub flow_states: Seq<(Seq<char>, Seq<char>)>,
    pub entities: Seq<(Seq<char>, FieldsView)>,
    pub variables: Seq<(Seq<char>, Seq<char>)>,
    pub gate_results: Seq<(Seq<char>, Trit)>,
    pub task_states: Seq<(Seq<char>, bool)>,
    pub trace: Seq<EventView>,
    /// Each error's message and the construct it concerns.
    pub errors: Seq<(Seq<char>, Seq<char>)>,
}

pub open spec fn push_event(c: CtxView, e: EventView) -> CtxView {
    CtxView { trace: c.trace.push(e), ..c }
}

/// The entry under a key removed.
pub open spec fn assoc_remove<V>(s: Seq<(Seq<char>, V)>, k: Seq<char>) -> Seq<(Seq<char>, V)>
    decreases s.len(),
{
    if s.len() == 0 {
        s
    } else if s[0].0 == k {
        s.drop_first()
    } else {
        seq![s[0]] + assoc_remove(s.drop_first(), k)
    }
}

/// The text of a string field.
pub open spec fn str_field_of(fs: FieldsView, k: Seq<char>) -> Option<Seq<char>> {
    match field_get(fs, k) {
        Some(ValueView::String(s)) => Some(s),
        _ => None,
    }
}

pub open spec fn or_empty(o: Option<Seq<char>>) -> Seq<char> {
    match o {
        Some(s) => s,
        None => Seq::empty(),
    }
}

/// `@Entity:id` of a mutation or deletion.
pub open spec fn entity_key(entity: Seq<char>, fs: FieldsView) -> Seq<char> {
    seq!['@'] + entity + seq![':'] + or_empty(str_field_of(fs, "_id"@))
}

/// A record's fields after a mutation's fields (all but `_id`) are set.
pub open spec fn merge_fields(entry: FieldsView, fs: FieldsView) -> FieldsView
    decreases fs.len(),
{
    if fs.len() == 0 {
        entry
    } else {
        let prev = merge_fields(entry, fs.drop_last());
        let (k, v) = fs.last();
        if k == "_id"@ {
            prev
        } else {
            fields_insert(prev, k, v)
        }
    }
}

pub struct EdgeView {
    pub from: Seq<char>,
    pub to: Seq<char>,
    pub label: Option<Seq<char>>,
    pub gate: Option<Seq<char>>,
}

pub open spec fn is_edge_key(k: Seq<char>) -> bool {
    text::starts_with(k, "edge_"@) && !text::contains(k, "_label"@) && !text::contains(k, "_gate"@)
}

/// The edges of a flow construct, in field order, with their labels and
/// gates.
pub open spec fn flow_edges(fs: FieldsView, all: FieldsView) -> Seq<EdgeView>
    decreases fs.len(),
{
    if fs.len() == 0 {
        Seq::empty()
    } else {
        let (k, v) = fs.last();
        flow_edges(fs.drop_last(), all) + match v {
            ValueView::String(e) => if is_edge_key(k) {
                match text::split_once(e, " --> "@) {
                    Some((a, b)) => {
                        let idx = text::trim_start_matches(k, "edge_"@);
                        seq![
                            EdgeView {
                                from: a,
                                to: b,
                                label: str_field_of(all, "edge_"@ + idx + "_label"@),
                                gate: str_field_of(all, "edge_"@ + idx + "_gate"@),
                            },
                        ]
                    },
                    None => Seq::empty(),
                }
            } else {
                Seq::empty()
            },
            _ => Seq::empty(),
        }
    }
}

pub open spec fn transition(c: CtxView, name: Seq<char>, e: EdgeView) -> CtxView {
    push_event(
        CtxView { flow_states: assoc_set(c.flow_states, name, e.to), ..c },
        ev(
            ExecEventKind::FlowTransition,
            "flow:"@ + name,
            e.from + " --> "@ + e.to + match e.label {
                Some(l) => " ("@ + l + ")"@,
                None => Seq::empty(),
            },
        ),
    )
}

/// Tries the edges from `i` on: the first edge out of `cur` whose gate
/// passes moves the flow; a gate that is unknown or failed leaves a
/// blocked event and the search goes on.
pub open spec fn flow_walk(c: CtxView, name: Seq<char>, cur: Seq<char>, es: Seq<EdgeView>, i: int) -> CtxView
    decreases es.len() - i,
{
    if i < 0 || i >= es.len() {
        c
    } else {
        let e = es[i];
        if e.from != cur {
            flow_walk(c, name, cur, es, i + 1)
        } else {
            match e.gate {
                Some(g) => match field_get(c.gate_results, g) {
                    Some(Trit::Pos) => transition(c, name, e),
                    Some(Trit::Neg) => flow_walk(
                        push_event(
                            c,
                            ev(
                                ExecEventKind::FlowBlocked,
                                "flow:"@ + name,
                                e.from + " blocked — gate '"@ + g + "' failed"@,
                            ),
                        ),
                        name,
                        cur,
                        es,
                        i + 1,
                    ),
                    _ => flow_walk(
                        push_event(
                            c,
                            ev(
                                ExecEventKind::FlowBlocked,
                                "flow:"@ + name,
                                e.from + " uncertain — gate '"@ + g
                                    + "' has unknown conditions (retry later)"@,
                            ),
                        ),
                        name,
                        cur,
                        es,
                        i + 1,
                    ),
                },
                None => transition(c, name, e),
            }
        }
    }
}

pub open spec fn exec_flow_spec(c: CtxView, x: ConstructView) -> CtxView {
    let name = match x.name {
        Some(n) => n,
        None => "unnamed"@,
    };
    let es = flow_edges(x.fields, x.fields);
    if es.len() == 0 {
        c
    } else {
        match field_get(c.flow_states, name) {
            Some(cur) => flow_walk(c, name, cur, es, 0),
            None => flow_walk(
                CtxView { flow_states: assoc_set(c.flow_states, name, es[0].from), ..c },
                name,
                es[0].from,
                es,
                0,
            ),
        }
    }
}

pub open spec fn is_bracket(ch: char) -> bool {
    ch == '[' || ch == ']'
}

pub open spec fn bracket_pred() -> spec_fn(char) -> bool {
    |ch: char| is_bracket(ch)
}

/// Brackets stripped from both ends.
pub open spec fn trim_brackets(s: Seq<char>) -> Seq<char> {
    let a = text::lead_count(s, bracket_pred());
    if a == s.len() {
        Seq::empty()
    } else {
        s.subrange(a as int, s.len() - text::trail_count(s, bracket_pred()))
    }
}

/// The conditions of a gate's `requires` list: split at commas, trimmed,
/// colons stripped, empty ones dropped.
pub open spec fn gate_conditions(parts: Seq<Seq<char>>) -> Seq<Seq<char>>
    decreases parts.len(),
{
    if parts.len() == 0 {
        Seq::empty()
    } else {
        let prev = gate_conditions(parts.drop_last());
        let t = text::trim_matches_char(text::trim(parts.last()), ':');
        if t.len() > 0 {
            prev.push(t)
        } else {
            prev
        }
    }
}

/// What is known of one condition: a gate's result, a task's state (done
/// passes, open is unknown), a variable's presence, or unknown.
pub open spec fn cond_trit(c: CtxView, cond: Seq<char>) -> Trit {
    match field_get(c.gate_results, cond) {
        Some(t) => t,
        None => match field_get(c.task_states, cond) {
            Some(d) => if d {
                Trit::Pos
            } else {
                Trit::Neutral
            },
            None => if has_key(c.variables, cond) {
                Trit::Pos
            } else {
                Trit::Neutral
            },
        },
    }
}

/// The conjunction of some conditions and the ones not known to pass.
pub open spec fn gate_eval(c: CtxView, conds: Seq<Seq<char>>) -> (Trit, Seq<Seq<char>>)
    decreases conds.len(),
{
    if conds.len() == 0 {
        (Trit::Pos, Seq::empty())
    } else {
        let (r, m) = gate_eval(c, conds.drop_last());
        let t = cond_trit(c, conds.last());
        (
            kleene_and(r, t),
            if t != Trit::Pos {
                m.push(conds.last())
            } else {
                m
            },
        )
    }
}

pub open spec fn gate_detail(r: Trit, missing: Seq<Seq<char>>) -> Seq<char> {
    match r {
        Trit::Pos => "passed=true ("@ + (if missing.len() == 0 {
            "all conditions met"@
        } else {
            "conditions met"@
        }) + ")"@,
        Trit::Neutral => "uncertain — unknown conditions: "@ + text::join(missing, ", "@),
        Trit::Neg => "failed — missing: "@ + text::join(missing, ", "@),
    }
}

pub open spec fn exec_gate_spec(c: CtxView, x: ConstructView) -> CtxView {
    match x.name {
        None => c,
        Some(n) => {
            let (r, missing) = match field_get(x.fields, "requires"@) {
                Some(ValueView::Raw(req)) => gate_eval(
                    c,
                    gate_conditions(text::split(trim_brackets(req), ","@)),
                ),
                _ => (Trit::Pos, Seq::empty()),
            };
            push_event(
                CtxView { gate_results: assoc_set(c.gate_results, n, r), ..c },
                ev(ExecEventKind::GateEvaluated, "gate:"@ + n, gate_detail(r, missing)),
            )
        },
    }
}

/// A comparison `lhs <op> rhs` of a variable with a number; `None` where
/// the variable is unset or either side is no number.
pub open spec fn compare_at(
    vars: Seq<(Seq<char>, Seq<char>)>,
    cond: Seq<char>,
    op: Seq<char>,
    ranks: Seq<(Seq<char>, NumberRank)>,
    greater: bool,
) -> Option<bool> {
    match text::find(cond, op) {
        Some(p) => {
            let lhs = text::trim(cond.take(p));
            let rhs = text::trim_start_matches(text::trim(cond.skip(p + 1)), "="@);
            match field_get(vars, lhs) {
                Some(lv) => match (field_get(ranks, lv), field_get(ranks, text::trim(rhs))) {
                    (Some(a), Some(b)) => Some(
                        if greater {
                            num_gt(a, b)
                        } else {
                            num_lt(a, b)
                        },
                    ),
                    _ => None,
                },
                None => None,
            }
        },
        None => None,
    }
}

/// An equality `lhs = rhs` of a variable's trimmed value with a text.
pub open spec fn equals_at(vars: Seq<(Seq<char>, Seq<char>)>, cond: Seq<char>) -> Option<bool> {
    match text::find(cond, "="@) {
        Some(p) => {
            let lhs = text::trim(cond.take(p));
            let rhs = text::trim(text::trim_start_matches(text::trim(cond.skip(p + 1)), "="@));
            match field_get(vars, lhs) {
                Some(lv) => Some(text::trim(lv) == rhs),
                None => None,
            }
        },
        None => None,
    }
}

/// A condition's truth: `>`, then `<`, then `=` comparisons with a
/// variable; true where none applies.
pub open spec fn eval_condition(
    vars: Seq<(Seq<char>, Seq<char>)>,
    cond: Seq<char>,
    ranks: Seq<(Seq<char>, NumberRank)>,
) -> bool {
    match compare_at(vars, cond, ">"@, ranks, true) {
        Some(b) => b,
        None => match compare_at(vars, cond, "<"@, ranks, false) {
            Some(b) => b,
            None => match equals_at(vars, cond) {
                Some(b) => b,
                None => true,
            },
        },
    }
}

pub open spec fn count_completed(cs: Seq<ConstructView>) -> nat
    decreases cs.len(),
{
    if cs.len() == 0 {
        0
    } else {
        count_completed(cs.drop_last()) + match str_field_of(cs.last().fields, "status"@) {
            Some(st) => if text::contains(st, "Completed"@) {
                1nat
            } else {
                0nat
            },
            None => 0nat,
        }
    }
}

pub open spec fn define_step(c: CtxView, x: ConstructView) -> CtxView {
    match x.name {
        Some(n) => push_event(
            CtxView { entities: assoc_set(c.entities, seq!['@'] + n, x.fields), ..c },
            ev(ExecEventKind::SchemaRegistered, "define:@"@ + n, text::decimal(x.fields.len()) + " fields"@),
        ),
        None => c,
    }
}

pub open spec fn mutate_step(c: CtxView, x: ConstructView) -> CtxView {
    match x.name {
        Some(e) => {
            let key = entity_key(e, x.fields);
            let entry = match field_get(c.entities, key) {
                Some(f) => f,
                None => Seq::empty(),
            };
            push_event(
                CtxView { entities: assoc_set(c.entities, key, merge_fields(entry, x.fields)), ..c },
                ev(
                    ExecEventKind::EntityMutated,
                    "mutate:"@ + key,
                    text::decimal((x.fields.len() - 1) as nat) + " fields updated"@,
                ),
            )
        },
        None => c,
    }
}

pub open spec fn delete_step(c: CtxView, x: ConstructView) -> CtxView {
    match x.name {
        Some(e) => {
            let key = entity_key(e, x.fields);
            push_event(
                CtxView { entities: assoc_remove(c.entities, key), ..c },
                ev(ExecEventKind::EntityDeleted, "delete:"@ + key, Seq::empty()),
            )
        },
        None => c,
    }
}

pub open spec fn bound_step(c: CtxView, x: ConstructView) -> CtxView {
    match x.name {
        Some(n) => push_event(
            c,
            ev(ExecEventKind::BoundChecked, "bound:"@ + n, text::decimal(x.fields.len()) + " constraints"@),
        ),
        None => c,
    }
}

pub open spec fn task_text(x: ConstructView) -> Seq<char> {
    or_empty(str_field_of(x.fields, "text"@))
}

pub open spec fn task_done(x: ConstructView) -> bool {
    let status = match str_field_of(x.fields, "status"@) {
        Some(s) => s,
        None => "Open"@,
    };
    text::contains(status, "Completed"@) || text::contains(status, "Done"@)
}

/// A task's own step: its state recorded and traced.
pub open spec fn task_step(c: CtxView, x: ConstructView) -> CtxView {
    push_event(
        CtxView { task_states: assoc_set(c.task_states, task_text(x), task_done(x)), ..c },
        ev(
            ExecEventKind::TaskUpdated,
            "task"@,
            seq!['['] + (if task_done(x) {
                seq!['x']
            } else {
                seq![' ']
            }) + "] "@ + task_text(x),
        ),
    )
}

pub open spec fn spawn_step(c: CtxView, x: ConstructView, parallel: bool) -> CtxView {
    push_event(
        c,
        ev(
            ExecEventKind::SpawnStarted,
            if parallel {
                "+"@
            } else {
                "++"@
            },
            (if parallel {
                "parallel"@
            } else {
                "sequential"@
            }) + " ("@ + text::decimal(x.children.len()) + " children)"@,
        ),
    )
}

pub open spec fn condition_of(x: ConstructView) -> Seq<char> {
    or_empty(str_field_of(x.fields, "condition"@))
}

pub open spec fn condition_step(c: CtxView, x: ConstructView, r: bool) -> CtxView {
    push_event(
        c,
        ev(
            ExecEventKind::ConditionalEvaluated,
            "if "@ + condition_of(x),
            "result="@ + if r {
                "true"@
            } else {
                "false"@
            },
        ),
    )
}

pub open spec fn validate_step(c: CtxView, x: ConstructView) -> CtxView {
    let name = match x.name {
        Some(n) => n,
        None => "checklist"@,
    };
    push_event(
        c,
        ev(
            ExecEventKind::ValidationRun,
            "validate:"@ + name,
            text::decimal(count_completed(x.children)) + seq!['/'] + text::decimal(x.children.len())
                + " items complete"@,
        ),
    )
}

pub open spec fn webhook_step(c: CtxView, x: ConstructView) -> CtxView {
    push_event(
        c,
        ev(
            ExecEventKind::WebhookTriggered,
            "webhook:"@ + or_empty(x.name),
            "POST "@ + or_empty(str_field_of(x.fields, "url"@)),
        ),
    )
}

pub open spec fn variable_step(c: CtxView, x: ConstructView) -> CtxView {
    match x.name {
        Some(n) => match str_field_of(x.fields, "value"@) {
            Some(v) => CtxView { variables: assoc_set(c.variables, n, v), ..c },
            None => c,
        },
        None => c,
    }
}

pub open spec fn sync_step(c: CtxView, x: ConstructView) -> CtxView {
    push_event(
        c,
        ev(
            ExecEventKind::SyncScheduled,
            "sync:"@ + or_empty(x.name),
            "schedule="@ + or_empty(str_field_of(x.fields, "schedule"@)) + " source="@ + or_empty(
                str_field_of(x.fields, "source"@),
            ),
        ),
    )
}

pub open spec fn routine_step(c: CtxView, x: ConstructView) -> CtxView {
    push_event(
        c,
        ev(ExecEventKind::RoutineScheduled, "routine:"@ + or_empty(x.name), or_empty(x.name)),
    )
}

/// The state after one construct runs.
pub open spec fn exec_spec(c: CtxView, x: ConstructView, ranks: Seq<(Seq<char>, NumberRank)>) -> CtxView
    decreases x,
{
    match x.kind {
        ConstructKind::Define => define_step(c, x),
        ConstructKind::Mutate => mutate_step(c, x),
        ConstructKind::Delete => delete_step(c, x),
        ConstructKind::Flow => exec_flow_spec(c, x),
        ConstructKind::Gate => exec_gate_spec(c, x),
        ConstructKind::Bound => bound_step(c, x),
        ConstructKind::Task => exec_seq_spec(task_step(c, x), x.children, ranks),
        ConstructKind::SpawnParallel => exec_seq_spec(spawn_step(c, x, true), x.children, ranks),
        ConstructKind::SpawnSequential => exec_seq_spec(spawn_step(c, x, false), x.children, ranks),
        ConstructKind::Conditional => {
            let r = eval_condition(c.variables, condition_of(x), ranks);
            if r {
                exec_seq_spec(condition_step(c, x, r), x.children, ranks)
            } else {
                condition_step(c, x, r)
            }
        },
        ConstructKind::Validate => validate_step(c, x),
        ConstructKind::Webhook => webhook_step(c, x),
        ConstructKind::Group => exec_seq_spec(c, x.children, ranks),
        ConstructKind::Variable => variable_step(c, x),
        ConstructKind::Sync => sync_step(c, x),
        ConstructKind::Routine => routine_step(c, x),
        _ => c,
    }
}

/// The state after some constructs run in order.
pub open spec fn exec_seq_spec(c: CtxView, xs: Seq<ConstructView>, ranks: Seq<(Seq<char>, NumberRank)>) -> CtxView
    decreases xs,
{
    if xs.len() == 0 {
        c
    } else {
        exec_spec(exec_seq_spec(c, xs.drop_last(), ranks), xs.last(), ranks)
    }
}

/// The graph's variables set and traced, in order.
pub open spec fn import_vars(c: CtxView, vs: Seq<(Seq<char>, Seq<char>)>) -> CtxView
    decreases vs.len(),
{
    if vs.len() == 0 {
        c
    } else {
        let prev = import_vars(c, vs.drop_last());
        let (k, v) = vs.last();
        push_event(
            CtxView { variables: assoc_set(prev.variables, k, v), ..prev },
            ev(ExecEventKind::VariableSet, k, v),
        )
    }
}

/// A run of a whole graph: its variables, then its constructs in order.
pub open spec fn execute_spec(c: CtxView, ir: IRView, ranks: Seq<(Seq<char>, NumberRank)>) -> CtxView {
    exec_seq_spec(import_vars(c, ir.variables), ir.constructs, ranks)
}


// ── The running state ──────────────────────────────────────────

/// The state of a run: where each flow stands, the entities and schemas
/// by `@Entity[:id]`, the variables, gate results and task states, and the
/// trace of events.
pub struct ExecContext {
    pub flow_states: Vec<(String, String)>,
    pub entities: Vec<(String, Vec<(String, Value)>)>,
    pub variables: Vec<(String, String)>,
    pub gate_results: Vec<(String, Trit)>,
    pub task_states: Vec<(String, bool)>,
    pub trace: Vec<ExecEvent>,
    pub errors: Vec<ExecError>,
}

pub open spec fn entities_view(s: Seq<(String, Vec<(String, Value)>)>) -> Seq<(Seq<char>, FieldsView)> {
    s.map_values(|e: (String, Vec<(String, Value)>)| (e.0@, fields_view(e.1@)))
}

pub open spec fn keyed<V>(s: Seq<(String, V)>) -> Seq<(Seq<char>, V)> {
    s.map_values(|e: (String, V)| (e.0@, e.1))
}

impl ExecContext {
    pub open spec fn view(&self) -> CtxView {
        CtxView {
            flow_states: pairs_view(self.flow_states@),
            entities: entities_view(self.entities@),
            variables: pairs_view(self.variables@),
            gate_results: keyed(self.gate_results@),
            task_states: keyed(self.task_states@),
            trace: events_view(self.trace@),
            errors: self.errors@.map_values(|e: ExecError| (e.message@, e.construct@)),
        }
    }

    /// An empty state.
    pub fn new() -> (r: ExecContext)
        ensures
            r@ == (CtxView {
                flow_states: seq![],
                entities: seq![],
                variables: seq![],
                gate_results: seq![],
                task_states: seq![],
                trace: seq![],
                errors: seq![],
            }),
    {
        let r = ExecContext {
            flow_states: Vec::new(),
            entities: Vec::new(),
            variables: Vec::new(),
            gate_results: Vec::new(),
            task_states: Vec::new(),
            trace: Vec::new(),
            errors: Vec::new(),
        };
        assert(pairs_view(r.flow_states@) =~= seq![]);
        assert(entities_view(r.entities@) =~= seq![]);
        assert(pairs_view(r.variables@) =~= seq![]);
        assert(keyed(r.gate_results@) =~= seq![]);
        assert(keyed(r.task_states@) =~= seq![]);
        assert(r.errors@.map_values(|e: ExecError| (e.message@, e.construct@)) =~= seq![]);
        assert(events_view(r.trace@) =~= seq![]);
        r
    }
}

// ── Values, fields and tables ──────────────────────────────────

/// A copy of a value.
pub fn clone_value(v: &Value) -> (r: Value)
    ensures
        value_view(r) == value_view(*v),
    decreases *v,
{
    match v {
        Value::String(s) => Value::String(s.clone()),
        Value::Integer(n) => Value::Integer(*n),
        Value::Float(t) => Value::Float(t.clone()),
        Value::Boolean(b) => Value::Boolean(*b),
        Value::Enum(vs) => Value::Enum(crate::index::clone_strings(vs)),
        Value::EntityRef(s) => Value::EntityRef(s.clone()),
        Value::Array(items) => {
            let mut out: Vec<Value> = Vec::new();
            let mut i: usize = 0;
            assert(items@.take(0) =~= Seq::<Value>::empty());
            while i < items.len()
                invariant
                    i <= items.len(),
                    *v == Value::Array(*items),
                    values_view(out@) == values_view(items@.take(i as int)),
                decreases items.len() - i,
            {
                proof {
                    crate::ir::lemma_take_step(items@, i as int);
                    assert(decreases_to!(*v => (*v)->Array_0));
                    assert(decreases_to!((*v)->Array_0 => (*v)->Array_0@));
                    assert(decreases_to!((*v)->Array_0@ => items@[i as int]));
                }
                let x = clone_value(&items[i]);
                let ghost o0 = out@;
                out.push(x);
                assert(out@.drop_last() =~= o0);
                i = i + 1;
            }
            assert(items@.take(items.len() as int) =~= items@);
            Value::Array(out)
        },
        Value::Timestamp(t) => Value::Timestamp(t.clone()),
        Value::Nil => Value::Nil,
        Value::Raw(s) => Value::Raw(s.clone()),
    }
}

/// A copy of some fields.
pub fn clone_fields(fs: &Vec<(String, Value)>) -> (r: Vec<(String, Value)>)
    ensures
        fields_view(r@) == fields_view(fs@),
{
    let mut out: Vec<(String, Value)> = Vec::new();
    let mut i: usize = 0;
    while i < fs.len()
        invariant
            i <= fs.len(),
            fields_view(out@) == fields_view(fs@).take(i as int),
        decreases fs.len() - i,
    {
        let v = clone_value(&fs[i].1);
        let ghost o0 = out@;
        out.push((fs[i].0.clone(), v));
        assert(fields_view(out@) =~= fields_view(o0).push((fs@[i as int].0@, value_view(fs@[i as int].1))));
        assert(fields_view(fs@).take(i + 1) =~= fields_view(fs@).take(i as int).push(fields_view(fs@)[i as int]));
        i = i + 1;
    }
    assert(fields_view(fs@).take(fs.len() as int) =~= fields_view(fs@));
    out
}

/// The text of a string field.
fn str_field(fs: &Vec<(String, Value)>, k: &str) -> (r: Option<String>)
    ensures
        crate::ir::sopt(r) == str_field_of(fields_view(fs@), k@),
{
    match crate::ir::find_field(fs, k) {
        Some(i) => {
            assert(fields_view(fs@)[i as int] == (fs@[i as int].0@, value_view(fs@[i as int].1)));
            match &fs[i].1 {
                Value::String(s) => Some(s.clone()),
                _ => None,
            }
        },
        None => None,
    }
}

/// The first entry under a key, by index.
fn find_key<V>(m: &Vec<(String, V)>, k: &Vec<char>) -> (r: Option<usize>)
    ensures
        r matches Some(i) ==> i < m.len() && m@[i as int].0@ == k@ && forall|j: int|
            0 <= j < i ==> (#[trigger] m@[j]).0@ != k@,
        r is None ==> forall|j: int| 0 <= j < m@.len() ==> (#[trigger] m@[j]).0@ != k@,
{
    let mut i: usize = 0;
    while i < m.len()
        invariant
            i <= m.len(),
            forall|j: int| 0 <= j < i ==> (#[trigger] m@[j]).0@ != k@,
        decreases m.len() - i,
    {
        if text::eq(&text::string_chars(&m[i].0), k) {
            return Some(i);
        }
        i = i + 1;
    }
    None
}

/// `field_get` and `assoc_set` at the first index of a key, over any view
/// of the entries that keeps their keys.
proof fn lemma_first_key<A, V>(m: Seq<(String, A)>, mv: Seq<(Seq<char>, V)>, k: Seq<char>, i: int, v: V)
    requires
        mv.len() == m.len(),
        forall|j: int| 0 <= j < m.len() ==> (#[trigger] mv[j]).0 == m[j].0@,
        0 <= i <= m.len(),
        i < m.len() ==> m[i].0@ == k,
        forall|j: int| 0 <= j < i ==> (#[trigger] m[j]).0@ != k,
    ensures
        i < m.len() ==> field_get(mv, k) == Some(mv[i].1),
        i == m.len() ==> field_get(mv, k) is None,
        i < m.len() ==> assoc_set(mv, k, v) == mv.update(i, (k, v)),
        i == m.len() ==> assoc_set(mv, k, v) == mv.push((k, v)),
        i < m.len() ==> assoc_remove(mv, k) == mv.remove(i),
        i == m.len() ==> assoc_remove(mv, k) == mv,
{
    assert forall|j: int| 0 <= j < i implies (#[trigger] mv[j]).0 != k by {
        assert(mv[j].0 == m[j].0@);
    }
    crate::ir::lemma_assoc_set_at(mv, k, v, i);
    if i < m.len() {
        crate::ir::lemma_field_first(mv, k, i, v);
        lemma_remove_at(mv, k, i);
    } else {
        crate::ir::lemma_field_none(mv, k);
        lemma_remove_none(mv, k);
    }
}

proof fn lemma_remove_at<V>(s: Seq<(Seq<char>, V)>, k: Seq<char>, i: int)
    requires
        0 <= i < s.len(),
        s[i].0 == k,
        forall|j: int| 0 <= j < i ==> (#[trigger] s[j]).0 != k,
    ensures
        assoc_remove(s, k) == s.remove(i),
    decreases i,
{
    if i == 0 {
        assert(s.drop_first() =~= s.remove(0));
    } else {
        let t = s.drop_first();
        assert forall|j: int| 0 <= j < i - 1 implies (#[trigger] t[j]).0 != k by {
            assert(t[j] == s[j + 1]);
        }
        lemma_remove_at(t, k, i - 1);
        assert(seq![s[0]] + t.remove(i - 1) =~= s.remove(i));
    }
}

proof fn lemma_remove_none<V>(s: Seq<(Seq<char>, V)>, k: Seq<char>)
    requires
        forall|j: int| 0 <= j < s.len() ==> (#[trigger] s[j]).0 != k,
    ensures
        assoc_remove(s, k) == s,
    decreases s.len(),
{
    if s.len() > 0 {
        let t = s.drop_first();
        assert forall|j: int| 0 <= j < t.len() implies (#[trigger] t[j]).0 != k by {
            assert(t[j] == s[j + 1]);
        }
        lemma_remove_none(t, k);
        assert(seq![s[0]] + t =~= s);
    }
}


fn set_entity(m: &mut Vec<(String, Vec<(String, Value)>)>, k: String, v: Vec<(String, Value)>)
    ensures
        entities_view(final(m)@) == assoc_set(entities_view(old(m)@), k@, fields_view(v@)),
{
    let ghost mv = entities_view(m@);
    let ghost kv = k@;
    let ghost vv = fields_view(v@);
    let r = find_key(m, &text::string_chars(&k));
    match r {
        Some(i) => {
            proof {
                lemma_first_key(m@, mv, kv, i as int, vv);
            }
            m.set(i, (k, v));
            assert(entities_view(m@) =~= mv.update(i as int, (kv, vv)));
        },
        None => {
            proof {
                lemma_first_key(m@, mv, kv, m@.len() as int, vv);
            }
            m.push((k, v));
            assert(entities_view(m@) =~= mv.push((kv, vv)));
        },
    }
}

fn remove_entity(m: &mut Vec<(String, Vec<(String, Value)>)>, k: &Vec<char>)
    ensures
        entities_view(final(m)@) == assoc_remove(entities_view(old(m)@), k@),
{
    let ghost mv = entities_view(m@);
    match find_key(m, k) {
        Some(i) => {
            proof {
                lemma_first_key(m@, mv, k@, i as int, Seq::<(Seq<char>, ValueView)>::empty());
            }
            m.remove(i);
            assert(entities_view(m@) =~= mv.remove(i as int));
        },
        None => {
            proof {
                lemma_first_key(m@, mv, k@, m@.len() as int, Seq::<(Seq<char>, ValueView)>::empty());
            }
        },
    }
}

fn set_trit(m: &mut Vec<(String, Trit)>, k: String, v: Trit)
    ensures
        keyed(final(m)@) == assoc_set(keyed(old(m)@), k@, v),
{
    let ghost mv = keyed(m@);
    let ghost kv = k@;
    match find_key(m, &text::string_chars(&k)) {
        Some(i) => {
            proof {
                lemma_first_key(m@, mv, kv, i as int, v);
            }
            m.set(i, (k, v));
            assert(keyed(m@) =~= mv.update(i as int, (kv, v)));
        },
        None => {
            proof {
                lemma_first_key(m@, mv, kv, m@.len() as int, v);
            }
            m.push((k, v));
            assert(keyed(m@) =~= mv.push((kv, v)));
        },
    }
}

fn set_bool(m: &mut Vec<(String, bool)>, k: String, v: bool)
    ensures
        keyed(final(m)@) == assoc_set(keyed(old(m)@), k@, v),
{
    let ghost mv = keyed(m@);
    let ghost kv = k@;
    match find_key(m, &text::string_chars(&k)) {
        Some(i) => {
            proof {
                lemma_first_key(m@, mv, kv, i as int, v);
            }
            m.set(i, (k, v));
            assert(keyed(m@) =~= mv.update(i as int, (kv, v)));
        },
        None => {
            proof {
                lemma_first_key(m@, mv, kv, m@.len() as int, v);
            }
            m.push((k, v));
            assert(keyed(m@) =~= mv.push((kv, v)));
        },
    }
}

fn get_str(m: &Vec<(String, String)>, k: &Vec<char>) -> (r: Option<String>)
    ensures
        crate::ir::sopt(r) == field_get(pairs_view(m@), k@),
{
    let ghost mv = pairs_view(m@);
    match find_key(m, k) {
        Some(i) => {
            proof {
                lemma_first_key(m@, mv, k@, i as int, Seq::<char>::empty());
            }
            Some(m[i].1.clone())
        },
        None => {
            proof {
                lemma_first_key(m@, mv, k@, m@.len() as int, Seq::<char>::empty());
            }
            None
        },
    }
}

fn get_entity(m: &Vec<(String, Vec<(String, Value)>)>, k: &Vec<char>) -> (r: Option<Vec<(String, Value)>>)
    ensures
        match r {
            Some(f) => field_get(entities_view(m@), k@) == Some(fields_view(f@)),
            None => field_get(entities_view(m@), k@) is None,
        },
{
    let ghost mv = entities_view(m@);
    match find_key(m, k) {
        Some(i) => {
            proof {
                lemma_first_key(m@, mv, k@, i as int, Seq::<(Seq<char>, ValueView)>::empty());
            }
            Some(clone_fields(&m[i].1))
        },
        None => {
            proof {
                lemma_first_key(m@, mv, k@, m@.len() as int, Seq::<(Seq<char>, ValueView)>::empty());
            }
            None
        },
    }
}

fn get_trit(m: &Vec<(String, Trit)>, k: &Vec<char>) -> (r: Option<Trit>)
    ensures
        r == field_get(keyed(m@), k@),
{
    let ghost mv = keyed(m@);
    match find_key(m, k) {
        Some(i) => {
            proof {
                lemma_first_key(m@, mv, k@, i as int, Trit::Pos);
            }
            Some(m[i].1)
        },
        None => {
            proof {
                lemma_first_key(m@, mv, k@, m@.len() as int, Trit::Pos);
            }
            None
        },
    }
}

fn get_bool(m: &Vec<(String, bool)>, k: &Vec<char>) -> (r: Option<bool>)
    ensures
        r == field_get(keyed(m@), k@),
{
    let ghost mv = keyed(m@);
    match find_key(m, k) {
        Some(i) => {
            proof {
                lemma_first_key(m@, mv, k@, i as int, true);
            }
            Some(m[i].1)
        },
        None => {
            proof {
                lemma_first_key(m@, mv, k@, m@.len() as int, true);
            }
            None
        },
    }
}

fn rank_of(ranks: &Vec<(String, NumberRank)>, k: &Vec<char>) -> (r: Option<NumberRank>)
    ensures
        r == field_get(ranks_view(ranks@), k@),
{
    let ghost mv = ranks_view(ranks@);
    match find_key(ranks, k) {
        Some(i) => {
            proof {
                lemma_first_key(ranks@, mv, k@, i as int, NumberRank::NaN);
            }
            Some(ranks[i].1)
        },
        None => {
            proof {
                lemma_first_key(ranks@, mv, k@, ranks@.len() as int, NumberRank::NaN);
            }
            None
        },
    }
}

fn has_var(m: &Vec<(String, String)>, k: &Vec<char>) -> (r: bool)
    ensures
        r == has_key(pairs_view(m@), k@),
{
    match find_key(m, k) {
        Some(i) => {
            assert(pairs_view(m@)[i as int].0 == k@);
            true
        },
        None => {
            assert forall|j: int| 0 <= j < m@.len() implies (#[trigger] pairs_view(m@)[j]).0 != k@ by {
                assert(pairs_view(m@)[j].0 == m@[j].0@);
            }
            false
        },
    }
}


// ── Running constructs ─────────────────────────────────────────

fn entity_key_exec(e: &String, fs: &Vec<(String, Value)>) -> (r: Vec<char>)
    ensures
        r@ == entity_key(e@, fields_view(fs@)),
{
    let mut k: Vec<char> = Vec::new();
    k.push('@');
    text::append_string(&mut k, e);
    k.push(':');
    match str_field(fs, "_id") {
        Some(id) => text::append_string(&mut k, &id),
        None => {},
    }
    k
}

fn merge_fields_exec(entry: Vec<(String, Value)>, fs: &Vec<(String, Value)>) -> (r: Vec<(String, Value)>)
    ensures
        fields_view(r@) == merge_fields(fields_view(entry@), fields_view(fs@)),
{
    let ghost e0 = fields_view(entry@);
    let ghost fv = fields_view(fs@);
    let mut out = entry;
    let mut i: usize = 0;
    assert(fv.take(0) =~= Seq::<(Seq<char>, ValueView)>::empty());
    while i < fs.len()
        invariant
            i <= fs.len(),
            fv == fields_view(fs@),
            fields_view(out@) == merge_fields(e0, fv.take(i as int)),
        decreases fs.len() - i,
    {
        proof {
            crate::ir::lemma_take_step(fv, i as int);
            reveal_strlit("_id");
        }
        assert(fv[i as int] == (fs@[i as int].0@, value_view(fs@[i as int].1)));
        if !text::eq_str(&text::string_chars(&fs[i].0), "_id") {
            let v = clone_value(&fs[i].1);
            crate::ir::insert_field(&mut out, fs[i].0.clone(), v);
        }
        i = i + 1;
    }
    assert(fv.take(fs.len() as int) =~= fv);
    out
}

/// An edge of a running flow.
struct Edge {
    from: String,
    to: String,
    label: Option<String>,
    gate: Option<String>,
}

spec fn edge_view(e: Edge) -> EdgeView {
    EdgeView {
        from: e.from@,
        to: e.to@,
        label: crate::ir::sopt(e.label),
        gate: crate::ir::sopt(e.gate),
    }
}

spec fn edges_view(s: Seq<Edge>) -> Seq<EdgeView> {
    s.map_values(|e: Edge| edge_view(e))
}

fn flow_edges_exec(fs: &Vec<(String, Value)>) -> (r: Vec<Edge>)
    ensures
        edges_view(r@) == flow_edges(fields_view(fs@), fields_view(fs@)),
{
    let ghost fv = fields_view(fs@);
    let mut out: Vec<Edge> = Vec::new();
    let mut i: usize = 0;
    assert(edges_view(out@) =~= flow_edges(fv.take(0), fv));
    while i < fs.len()
        invariant
            i <= fs.len(),
            fv == fields_view(fs@),
            edges_view(out@) == flow_edges(fv.take(i as int), fv),
        decreases fs.len() - i,
    {
        proof {
            crate::ir::lemma_take_step(fv, i as int);
            reveal_strlit("edge_");
        }
        assert(fv[i as int] == (fs@[i as int].0@, value_view(fs@[i as int].1)));
        let ghost before = edges_view(out@);
        let k = text::string_chars(&fs[i].0);
        let mut pushed = false;
        match &fs[i].1 {
            Value::String(e) => {
                if text::starts_with_str(&k, "edge_") && !text::contains_str(&k, "_label")
                    && !text::contains_str(&k, "_gate") {
                    match text::split_once_str(&text::string_chars(e), " --> ") {
                        Some((a, b)) => {
                            let idx = text::trim_start_matches_str(&k, "edge_");
                            let mut lk = chars_of("edge_");
                            text::append(&mut lk, &idx);
                            let mut gk = lk.clone();
                            text::append_str(&mut lk, "_label");
                            text::append_str(&mut gk, "_gate");
                            let label = str_field(fs, &text::to_string(&lk));
                            let gate = str_field(fs, &text::to_string(&gk));
                            let ed = Edge {
                                from: text::to_string(&a),
                                to: text::to_string(&b),
                                label,
                                gate,
                            };
                            out.push(ed);
                            pushed = true;
                            assert(edges_view(out@) =~= before + seq![edge_view(ed)]);
                        },
                        None => {},
                    }
                }
            },
            _ => {},
        }
        if !pushed {
            assert(edges_view(out@) =~= before + Seq::<EdgeView>::empty());
        }
        i = i + 1;
    }
    assert(fv.take(fs.len() as int) =~= fv);
    out
}

pub(crate) fn bracket_trim_exec(s: &Vec<char>) -> (r: Vec<char>)
    ensures
        r@ == trim_brackets(s@),
{
    let mut a: usize = 0;
    while a < s.len() && (s[a] == '[' || s[a] == ']')
        invariant
            a <= s.len(),
            forall|j: int| 0 <= j < a ==> #[trigger] bracket_pred()(s@[j]),
        decreases s.len() - a,
    {
        a = a + 1;
    }
    proof {
        text::lemma_lead_count(s@, bracket_pred(), a as int);
    }
    if a == s.len() {
        return Vec::new();
    }
    let mut k: usize = 0;
    while k < s.len() && (s[s.len() - 1 - k] == '[' || s[s.len() - 1 - k] == ']')
        invariant
            k <= s.len(),
            forall|j: int| s.len() - k <= j < s.len() ==> #[trigger] bracket_pred()(s@[j]),
        decreases s.len() - k,
    {
        k = k + 1;
    }
    proof {
        text::lemma_trail_count(s@, bracket_pred(), k as int);
        text::lemma_lead_count_props(s@, bracket_pred());
        text::lemma_trail_count_props(s@, bracket_pred());
        assert(!bracket_pred()(s@[a as int]));
        if a + k > s.len() {
            assert(bracket_pred()(s@[a as int]));
        }
    }
    text::slice_of(s, a, s.len() - k)
}

fn gate_conditions_exec(parts: &Vec<Vec<char>>) -> (r: Vec<Vec<char>>)
    ensures
        text::views(r@) == gate_conditions(text::views(parts@)),
{
    let ghost pv = text::views(parts@);
    let mut out: Vec<Vec<char>> = Vec::new();
    let mut i: usize = 0;
    assert(text::views(out@) =~= gate_conditions(pv.take(0)));
    while i < parts.len()
        invariant
            i <= parts.len(),
            pv == text::views(parts@),
            text::views(out@) == gate_conditions(pv.take(i as int)),
        decreases parts.len() - i,
    {
        proof {
            crate::ir::lemma_take_step(pv, i as int);
        }
        let t = text::trim_matches_char_exec(&text::trim_chars(&parts[i]), ':');
        if t.len() > 0 {
            let ghost o0 = out@;
            out.push(t);
            proof {
                text::lemma_views_push(o0, t);
            }
        }
        i = i + 1;
    }
    assert(pv.take(parts.len() as int) =~= pv);
    out
}

pub open spec fn runnable(x: ConstructView) -> bool
    decreases x,
{
    &&& (x.kind == ConstructKind::Mutate && x.name is Some ==> x.fields.len() >= 1)
    &&& all_runnable(x.children)
}

/// Every mutation that names its entity carries at least one field.
pub open spec fn all_runnable(xs: Seq<ConstructView>) -> bool
    decreases xs,
{
    if xs.len() == 0 {
        true
    } else {
        all_runnable(xs.drop_last()) && runnable(xs.last())
    }
}

proof fn lemma_all_runnable(xs: Seq<ConstructView>, i: int)
    requires
        all_runnable(xs),
        0 <= i <= xs.len(),
    ensures
        all_runnable(xs.take(i)),
    decreases xs.len(),
{
    if i < xs.len() {
        assert(xs.drop_last().take(i) =~= xs.take(i));
        lemma_all_runnable(xs.drop_last(), i);
    } else {
        assert(xs.take(i) =~= xs);
    }
}

impl ExecContext {
    fn push_ev(&mut self, kind: ExecEventKind, construct: Vec<char>, detail: Vec<char>)
        ensures
            final(self)@ == push_event(old(self)@, ev(kind, construct@, detail@)),
    {
        let e = ExecEvent { kind, construct: text::to_string(&construct), detail: text::to_string(&detail) };
        let ghost t0 = self.trace@;
        self.trace.push(e);
        assert(events_view(self.trace@) =~= events_view(t0).push(event_view(e)));
    }

    fn exec_define(&mut self, x: &Construct)
        ensures
            final(self)@ == define_step(old(self)@, construct_view(*x)),
    {
        match &x.name {
            Some(n) => {
                let mut key: Vec<char> = Vec::new();
                key.push('@');
                text::append_string(&mut key, n);
                set_entity(&mut self.entities, text::to_string(&key), clone_fields(&x.fields));
                let mut c = chars_of("define:@");
                text::append_string(&mut c, n);
                let mut d: Vec<char> = Vec::new();
                text::append_decimal(&mut d, x.fields.len());
                text::append_str(&mut d, " fields");
                self.push_ev(ExecEventKind::SchemaRegistered, c, d);
            },
            None => {},
        }
    }

    fn exec_mutate(&mut self, x: &Construct)
        requires
            x.name is Some ==> x.fields@.len() >= 1,
        ensures
            final(self)@ == mutate_step(old(self)@, construct_view(*x)),
    {
        match &x.name {
            Some(e) => {
                let key = entity_key_exec(e, &x.fields);
                let entry = match get_entity(&self.entities, &key) {
                    Some(f) => f,
                    None => {
                        let f: Vec<(String, Value)> = Vec::new();
                        assert(fields_view(f@) =~= Seq::<(Seq<char>, ValueView)>::empty());
                        f
                    },
                };
                let merged = merge_fields_exec(entry, &x.fields);
                set_entity(&mut self.entities, text::to_string(&key), merged);
                let mut c = chars_of("mutate:");
                text::append(&mut c, &key);
                let mut d: Vec<char> = Vec::new();
                text::append_decimal(&mut d, x.fields.len() - 1);
                text::append_str(&mut d, " fields updated");
                self.push_ev(ExecEventKind::EntityMutated, c, d);
            },
            None => {},
        }
    }

    fn exec_delete(&mut self, x: &Construct)
        ensures
            final(self)@ == delete_step(old(self)@, construct_view(*x)),
    {
        match &x.name {
            Some(e) => {
                let key = entity_key_exec(e, &x.fields);
                remove_entity(&mut self.entities, &key);
                let mut c = chars_of("delete:");
                text::append(&mut c, &key);
                self.push_ev(ExecEventKind::EntityDeleted, c, Vec::new());
            },
            None => {},
        }
    }

    fn transition_exec(&mut self, name: &Vec<char>, e: &Edge)
        ensures
            final(self)@ == transition(old(self)@, name@, edge_view(*e)),
    {
        crate::ir::set_var(&mut self.flow_states, text::to_string(name), e.to.clone());
        let mut c = chars_of("flow:");
        text::append(&mut c, name);
        let mut d = text::string_chars(&e.from);
        text::append_str(&mut d, " --> ");
        text::append_string(&mut d, &e.to);
        let ghost base = d@;
        match &e.label {
            Some(l) => {
                text::append_str(&mut d, " (");
                text::append_string(&mut d, l);
                text::append_str(&mut d, ")");
                assert(d@ =~= base + (" ("@ + l@ + ")"@));
            },
            None => {
                assert(d@ =~= base + Seq::<char>::empty());
            },
        }
        self.push_ev(ExecEventKind::FlowTransition, c, d);
    }

    fn exec_flow(&mut self, x: &Construct)
        ensures
            final(self)@ == exec_flow_spec(old(self)@, construct_view(*x)),
    {
        let name: Vec<char> = match &x.name {
            Some(n) => text::string_chars(n),
            None => chars_of("unnamed"),
        };
        let es = flow_edges_exec(&x.fields);
        let ghost esv = edges_view(es@);
        if es.len() == 0 {
            return;
        }
        assert(esv[0] == edge_view(es@[0]));
        let cur: String = match get_str(&self.flow_states, &name) {
            Some(c) => c,
            None => {
                let f = es[0].from.clone();
                crate::ir::set_var(&mut self.flow_states, text::to_string(&name), f.clone());
                f
            },
        };
        let curc = text::string_chars(&cur);
        let ghost target = flow_walk(self@, name@, cur@, esv, 0);
        let mut i: usize = 0;
        while i < es.len()
            invariant_except_break
                i <= es.len(),
                esv == edges_view(es@),
                curc@ == cur@,
                flow_walk(self@, name@, cur@, esv, i as int) == target,
            ensures
                self@ == target,
            decreases es.len() - i,
        {
            let e = &es[i];
            assert(esv[i as int] == edge_view(*e));
            if text::eq(&text::string_chars(&e.from), &curc) {
                match &e.gate {
                    Some(g) => {
                        let gc = text::string_chars(g);
                        match get_trit(&self.gate_results, &gc) {
                            Some(Trit::Pos) => {
                                self.transition_exec(&name, e);
                                break;
                            },
                            Some(Trit::Neg) => {
                                let mut c = chars_of("flow:");
                                text::append(&mut c, &name);
                                let mut d = text::string_chars(&e.from);
                                text::append_str(&mut d, " blocked — gate '");
                                text::append(&mut d, &gc);
                                text::append_str(&mut d, "' failed");
                                self.push_ev(ExecEventKind::FlowBlocked, c, d);
                            },
                            _ => {
                                let mut c = chars_of("flow:");
                                text::append(&mut c, &name);
                                let mut d = text::string_chars(&e.from);
                                text::append_str(&mut d, " uncertain — gate '");
                                text::append(&mut d, &gc);
                                text::append_str(&mut d, "' has unknown conditions (retry later)");
                                self.push_ev(ExecEventKind::FlowBlocked, c, d);
                            },
                        }
                    },
                    None => {
                        self.transition_exec(&name, e);
                        break;
                    },
                }
            }
            i = i + 1;
        }
    }

    fn cond_trit_exec(&self, cond: &Vec<char>) -> (r: Trit)
        ensures
            r == cond_trit(self@, cond@),
    {
        match get_trit(&self.gate_results, cond) {
            Some(t) => t,
            None => match get_bool(&self.task_states, cond) {
                Some(d) => if d {
                    Trit::Pos
                } else {
                    Trit::Neutral
                },
                None => if has_var(&self.variables, cond) {
                    Trit::Pos
                } else {
                    Trit::Neutral
                },
            },
        }
    }

    fn exec_gate(&mut self, x: &Construct)
        ensures
            final(self)@ == exec_gate_spec(old(self)@, construct_view(*x)),
    {
        let n = match &x.name {
            Some(n) => n,
            None => {
                return;
            },
        };
        let mut result = Trit::Pos;
        let mut missing: Vec<Vec<char>> = Vec::new();
        let ghost c0 = self@;
        let ghost mut conds_v: Seq<Seq<char>> = Seq::empty();
        match crate::ir::find_field(&x.fields, "requires") {
            Some(fi) => {
                assert(fields_view(x.fields@)[fi as int] == (x.fields@[fi as int].0@, value_view(
                    x.fields@[fi as int].1,
                )));
                match &x.fields[fi].1 {
                    Value::Raw(req) => {
                        proof {
                            reveal_strlit(",");
                        }
                        let parts = text::split_str(&bracket_trim_exec(&text::string_chars(req)), ",");
                        let conds = gate_conditions_exec(&parts);
                        proof {
                            conds_v = text::views(conds@);
                        }
                        let mut i: usize = 0;
                        assert(conds_v.take(0) =~= Seq::<Seq<char>>::empty());
                        assert(text::views(missing@) =~= Seq::<Seq<char>>::empty());
                        while i < conds.len()
                            invariant
                                i <= conds.len(),
                                conds_v == text::views(conds@),
                                self@ == c0,
                                (result, text::views(missing@)) == gate_eval(c0, conds_v.take(i as int)),
                            decreases conds.len() - i,
                        {
                            proof {
                                crate::ir::lemma_take_step(conds_v, i as int);
                            }
                            let t = self.cond_trit_exec(&conds[i]);
                            result = if result == Trit::Neg || t == Trit::Neg {
                                Trit::Neg
                            } else if result == Trit::Neutral || t == Trit::Neutral {
                                Trit::Neutral
                            } else {
                                Trit::Pos
                            };
                            if t != Trit::Pos {
                                let ghost m0 = missing@;
                                missing.push(conds[i].clone());
                                proof {
                                    text::lemma_views_push(m0, conds@[i as int]);
                                }
                            }
                            i = i + 1;
                        }
                        assert(conds_v.take(conds.len() as int) =~= conds_v);
                    },
                    _ => {},
                }
            },
            None => {},
        }
        set_trit(&mut self.gate_results, n.clone(), result);
        let mut c = chars_of("gate:");
        text::append_string(&mut c, n);
        let d = match result {
            Trit::Pos => {
                let mut d = chars_of("passed=true (");
                if missing.len() == 0 {
                    text::append_str(&mut d, "all conditions met");
                } else {
                    text::append_str(&mut d, "conditions met");
                }
                text::append_str(&mut d, ")");
                d
            },
            Trit::Neutral => {
                let mut d = chars_of("uncertain — unknown conditions: ");
                text::append(&mut d, &text::join_str(&missing, ", "));
                d
            },
            Trit::Neg => {
                let mut d = chars_of("failed — missing: ");
                text::append(&mut d, &text::join_str(&missing, ", "));
                d
            },
        };
        self.push_ev(ExecEventKind::GateEvaluated, c, d);
    }
}


fn compare_at_exec(
    vars: &Vec<(String, String)>,
    cond: &Vec<char>,
    op: &str,
    ranks: &Vec<(String, NumberRank)>,
    greater: bool,
) -> (r: Option<bool>)
    requires
        op@.len() > 0,
    ensures
        r == compare_at(pairs_view(vars@), cond@, op@, ranks_view(ranks@), greater),
{
    match text::find_str(cond, op) {
        Some(p) => {
            let n = cond.len();
            proof {
                text::lemma_find_from(cond@, op@, 0);
            }
            assert(text::matches_at(cond@, op@, p as int));
            let lhs = text::trim_chars(&text::slice_of(cond, 0, p));
            let tail = text::slice_of(cond, p + 1, n);
            assert(tail@ =~= cond@.skip(p + 1));
            let rhs = text::trim_start_matches_str(&text::trim_chars(&tail), "=");
            match get_str(vars, &lhs) {
                Some(lv) => {
                    let a = rank_of(ranks, &text::string_chars(&lv));
                    let b = rank_of(ranks, &text::trim_chars(&rhs));
                    match (a, b) {
                        (Some(x), Some(y)) => {
                            let v = match (x, y) {
                                (NumberRank::At(i), NumberRank::At(j)) => if greater {
                                    i > j
                                } else {
                                    i < j
                                },
                                _ => false,
                            };
                            Some(v)
                        },
                        _ => None,
                    }
                },
                None => None,
            }
        },
        None => None,
    }
}


fn equals_at_exec(vars: &Vec<(String, String)>, cond: &Vec<char>) -> (r: Option<bool>)
    ensures
        r == equals_at(pairs_view(vars@), cond@),
{
    proof {
        reveal_strlit("=");
    }
    match text::find_str(cond, "=") {
        Some(p) => {
            let n = cond.len();
            proof {
                text::lemma_find_from(cond@, "="@, 0);
            }
            assert(text::matches_at(cond@, "="@, p as int));
            let lhs = text::trim_chars(&text::slice_of(cond, 0, p));
            let tail = text::slice_of(cond, p + 1, n);
            assert(tail@ =~= cond@.skip(p + 1));
            let rhs = text::trim_chars(&text::trim_start_matches_str(&text::trim_chars(&tail), "="));
            match get_str(vars, &lhs) {
                Some(lv) => Some(text::eq(&text::trim_chars(&text::string_chars(&lv)), &rhs)),
                None => None,
            }
        },
        None => None,
    }
}

/// A condition's truth: `>`, then `<`, then `=` comparisons of a variable;
/// true where none applies. Numbers compare by the ranks given.
pub fn eval_condition_exec(
    vars: &Vec<(String, String)>,
    cond: &Vec<char>,
    ranks: &Vec<(String, NumberRank)>,
) -> (r: bool)
    ensures
        r == eval_condition(pairs_view(vars@), cond@, ranks_view(ranks@)),
{
    proof {
        reveal_strlit(">");
        reveal_strlit("<");
    }
    match compare_at_exec(vars, cond, ">", ranks, true) {
        Some(b) => b,
        None => match compare_at_exec(vars, cond, "<", ranks, false) {
            Some(b) => b,
            None => match equals_at_exec(vars, cond) {
                Some(b) => b,
                None => true,
            },
        },
    }
}

fn count_completed_exec(cs: &Vec<Construct>) -> (r: usize)
    ensures
        r == count_completed(constructs_view(cs@)),
{
    let ghost cvs = constructs_view(cs@);
    proof {
        crate::ir::lemma_constructs_view(cs@);
    }
    let mut n: usize = 0;
    let mut i: usize = 0;
    while i < cs.len()
        invariant
            i <= cs.len(),
            cvs == constructs_view(cs@),
            cvs.len() == cs@.len(),
            forall|j: int| 0 <= j < cs@.len() ==> #[trigger] cvs[j] == construct_view(cs@[j]),
            n == count_completed(cvs.take(i as int)),
            n <= i,
        decreases cs.len() - i,
    {
        proof {
            crate::ir::lemma_take_step(cvs, i as int);
            reveal_strlit("Completed");
        }
        assert(cvs[i as int] == construct_view(cs@[i as int]));
        match str_field(&cs[i].fields, "status") {
            Some(st) => {
                if text::contains_str(&text::string_chars(&st), "Completed") {
                    n = n + 1;
                }
            },
            None => {},
        }
        i = i + 1;
    }
    assert(cvs.take(cs.len() as int) =~= cvs);
    n
}

impl ExecContext {
    fn exec_bound(&mut self, x: &Construct)
        ensures
            final(self)@ == bound_step(old(self)@, construct_view(*x)),
    {
        match &x.name {
            Some(n) => {
                let mut c = chars_of("bound:");
                text::append_string(&mut c, n);
                let mut d: Vec<char> = Vec::new();
                text::append_decimal(&mut d, x.fields.len());
                text::append_str(&mut d, " constraints");
                self.push_ev(ExecEventKind::BoundChecked, c, d);
            },
            None => {},
        }
    }

    fn task_step_exec(&mut self, x: &Construct)
        ensures
            final(self)@ == task_step(old(self)@, construct_view(*x)),
    {
        proof {
            reveal_strlit("Completed");
            reveal_strlit("Done");
        }
        let t = match str_field(&x.fields, "text") {
            Some(t) => t,
            None => String::new(),
        };
        let status = match str_field(&x.fields, "status") {
            Some(s) => text::string_chars(&s),
            None => chars_of("Open"),
        };
        let done = text::contains_str(&status, "Completed") || text::contains_str(&status, "Done");
        set_bool(&mut self.task_states, t.clone(), done);
        let mut d: Vec<char> = Vec::new();
        d.push('[');
        if done {
            d.push('x');
        } else {
            d.push(' ');
        }
        text::append_str(&mut d, "] ");
        text::append_string(&mut d, &t);
        assert(d@ =~= seq!['['] + (if done {
            seq!['x']
        } else {
            seq![' ']
        }) + "] "@ + t@);
        self.push_ev(ExecEventKind::TaskUpdated, chars_of("task"), d);
    }

    fn spawn_step_exec(&mut self, x: &Construct, parallel: bool)
        ensures
            final(self)@ == spawn_step(old(self)@, construct_view(*x), parallel),
    {
        proof {
            crate::ir::lemma_constructs_view(x.children@);
        }
        let c = if parallel {
            chars_of("+")
        } else {
            chars_of("++")
        };
        let mut d = if parallel {
            chars_of("parallel")
        } else {
            chars_of("sequential")
        };
        text::append_str(&mut d, " (");
        text::append_decimal(&mut d, x.children.len());
        text::append_str(&mut d, " children)");
        self.push_ev(ExecEventKind::SpawnStarted, c, d);
    }

    fn validate_step_exec(&mut self, x: &Construct)
        ensures
            final(self)@ == validate_step(old(self)@, construct_view(*x)),
    {
        proof {
            crate::ir::lemma_constructs_view(x.children@);
        }
        let mut c = chars_of("validate:");
        match &x.name {
            Some(n) => text::append_string(&mut c, n),
            None => text::append_str(&mut c, "checklist"),
        }
        let done = count_completed_exec(&x.children);
        let mut d: Vec<char> = Vec::new();
        text::append_decimal(&mut d, done);
        d.push('/');
        text::append_decimal(&mut d, x.children.len());
        text::append_str(&mut d, " items complete");
        assert(d@ =~= text::decimal(done as nat) + seq!['/'] + text::decimal(x.children@.len())
            + " items complete"@);
        self.push_ev(ExecEventKind::ValidationRun, c, d);
    }

    fn webhook_step_exec(&mut self, x: &Construct)
        ensures
            final(self)@ == webhook_step(old(self)@, construct_view(*x)),
    {
        let mut c = chars_of("webhook:");
        match &x.name {
            Some(n) => text::append_string(&mut c, n),
            None => {},
        }
        let mut d = chars_of("POST ");
        match str_field(&x.fields, "url") {
            Some(u) => text::append_string(&mut d, &u),
            None => {},
        }
        self.push_ev(ExecEventKind::WebhookTriggered, c, d);
    }

    fn variable_step_exec(&mut self, x: &Construct)
        ensures
            final(self)@ == variable_step(old(self)@, construct_view(*x)),
    {
        match &x.name {
            Some(n) => match str_field(&x.fields, "value") {
                Some(v) => crate::ir::set_var(&mut self.variables, n.clone(), v),
                None => {},
            },
            None => {},
        }
    }

    fn sync_step_exec(&mut self, x: &Construct)
        ensures
            final(self)@ == sync_step(old(self)@, construct_view(*x)),
    {
        let mut c = chars_of("sync:");
        match &x.name {
            Some(n) => text::append_string(&mut c, n),
            None => {},
        }
        let mut d = chars_of("schedule=");
        match str_field(&x.fields, "schedule") {
            Some(v) => text::append_string(&mut d, &v),
            None => {},
        }
        text::append_str(&mut d, " source=");
        match str_field(&x.fields, "source") {
            Some(v) => text::append_string(&mut d, &v),
            None => {},
        }
        self.push_ev(ExecEventKind::SyncScheduled, c, d);
    }

    fn routine_step_exec(&mut self, x: &Construct)
        ensures
            final(self)@ == routine_step(old(self)@, construct_view(*x)),
    {
        let mut c = chars_of("routine:");
        let mut d: Vec<char> = Vec::new();
        match &x.name {
            Some(n) => {
                text::append_string(&mut c, n);
                text::append_string(&mut d, n);
            },
            None => {},
        }
        self.push_ev(ExecEventKind::RoutineScheduled, c, d);
    }

    /// Runs one construct.
    pub fn exec_construct(&mut self, x: &Construct, ranks: &Vec<(String, NumberRank)>)
        requires
            runnable(construct_view(*x)),
        ensures
            final(self)@ == exec_spec(old(self)@, construct_view(*x), ranks_view(ranks@)),
        decreases *x,
    {
        match x.kind {
            ConstructKind::Define => self.exec_define(x),
            ConstructKind::Mutate => self.exec_mutate(x),
            ConstructKind::Delete => self.exec_delete(x),
            ConstructKind::Flow => self.exec_flow(x),
            ConstructKind::Gate => self.exec_gate(x),
            ConstructKind::Bound => self.exec_bound(x),
            ConstructKind::Task => {
                self.task_step_exec(x);
                self.exec_all(&x.children, ranks);
            },
            ConstructKind::SpawnParallel => {
                self.spawn_step_exec(x, true);
                self.exec_all(&x.children, ranks);
            },
            ConstructKind::SpawnSequential => {
                self.spawn_step_exec(x, false);
                self.exec_all(&x.children, ranks);
            },
            ConstructKind::Conditional => {
                let cond = match str_field(&x.fields, "condition") {
                    Some(c) => text::string_chars(&c),
                    None => Vec::new(),
                };
                let r = eval_condition_exec(&self.variables, &cond, ranks);
                let mut c = chars_of("if ");
                text::append(&mut c, &cond);
                let d = if r {
                    chars_of("result=true")
                } else {
                    chars_of("result=false")
                };
                proof {
                    reveal_strlit("result=true");
                    reveal_strlit("result=false");
                    reveal_strlit("result=");
                    reveal_strlit("true");
                    reveal_strlit("false");
                    assert("result=true"@ =~= "result="@ + "true"@);
                    assert("result=false"@ =~= "result="@ + "false"@);
                }
                self.push_ev(ExecEventKind::ConditionalEvaluated, c, d);
                if r {
                    self.exec_all(&x.children, ranks);
                }
            },
            ConstructKind::Validate => self.validate_step_exec(x),
            ConstructKind::Webhook => self.webhook_step_exec(x),
            ConstructKind::Group => self.exec_all(&x.children, ranks),
            ConstructKind::Variable => self.variable_step_exec(x),
            ConstructKind::Sync => self.sync_step_exec(x),
            ConstructKind::Routine => self.routine_step_exec(x),
            _ => {},
        }
    }

    /// Runs some constructs in order.
    pub fn exec_all(&mut self, xs: &Vec<Construct>, ranks: &Vec<(String, NumberRank)>)
        requires
            all_runnable(constructs_view(xs@)),
        ensures
            final(self)@ == exec_seq_spec(old(self)@, constructs_view(xs@), ranks_view(ranks@)),
        decreases xs@,
    {
        let ghost cvs = constructs_view(xs@);
        let ghost c0 = self@;
        proof {
            crate::ir::lemma_constructs_view(xs@);
        }
        let mut i: usize = 0;
        assert(cvs.take(0) =~= Seq::<ConstructView>::empty());
        while i < xs.len()
            invariant
                i <= xs.len(),
                cvs == constructs_view(xs@),
                cvs.len() == xs@.len(),
                forall|j: int| 0 <= j < xs@.len() ==> #[trigger] cvs[j] == construct_view(xs@[j]),
                all_runnable(cvs),
                self@ == exec_seq_spec(c0, cvs.take(i as int), ranks_view(ranks@)),
            decreases xs.len() - i,
        {
            proof {
                crate::ir::lemma_take_step(cvs, i as int);
                lemma_all_runnable(cvs, i + 1);
            }
            assert(cvs[i as int] == construct_view(xs@[i as int]));
            self.exec_construct(&xs[i], ranks);
            i = i + 1;
        }
        assert(cvs.take(xs.len() as int) =~= cvs);
    }
}


/// Event counts by kind name.
pub open spec fn count_events(es: Seq<EventView>) -> Seq<(Seq<char>, usize)>
    decreases es.len(),
{
    if es.len() == 0 {
        Seq::empty()
    } else {
        let prev = count_events(es.drop_last());
        let k = es.last().kind.name_spec();
        fields_insert(
            prev,
            k,
            match field_get(prev, k) {
                Some(c) => (c + 1) as usize,
                None => 1,
            },
        )
    }
}

proof fn lemma_count_events_le(es: Seq<EventView>)
    ensures
        crate::ir::all_le(count_events(es), es.len() as int),
    decreases es.len(),
{
    if es.len() > 0 {
        let prev = count_events(es.drop_last());
        let k = es.last().kind.name_spec();
        lemma_count_events_le(es.drop_last());
        crate::ir::lemma_get_le(prev, k, es.len() - 1);
        assert(crate::ir::all_le(prev, es.len() as int));
        let v: usize = match field_get(prev, k) {
            Some(c) => (c + 1) as usize,
            None => 1,
        };
        crate::ir::lemma_insert_le(prev, k, v, es.len() as int);
    }
}

/// Event counts by kind, then the number of events, entities, flow
/// states, gate results, task states and errors, ordered by key.
pub open spec fn summary_spec(c: CtxView) -> Seq<(Seq<char>, usize)> {
    let m1 = fields_insert(count_events(c.trace), "total_events"@, c.trace.len() as usize);
    let m2 = fields_insert(m1, "entities"@, c.entities.len() as usize);
    let m3 = fields_insert(m2, "flow_states"@, c.flow_states.len() as usize);
    let m4 = fields_insert(m3, "gate_results"@, c.gate_results.len() as usize);
    let m5 = fields_insert(m4, "task_states"@, c.task_states.len() as usize);
    fields_insert(m5, "errors"@, c.errors.len() as usize)
}

/// Whether every mutation that names its entity carries a field.
pub fn all_runnable_exec(xs: &Vec<Construct>) -> (r: bool)
    ensures
        r == all_runnable(constructs_view(xs@)),
    decreases xs@,
{
    let ghost cvs = constructs_view(xs@);
    proof {
        crate::ir::lemma_constructs_view(xs@);
    }
    let mut i: usize = 0;
    assert(cvs.take(0) =~= Seq::<ConstructView>::empty());
    while i < xs.len()
        invariant
            i <= xs.len(),
            cvs == constructs_view(xs@),
            cvs.len() == xs@.len(),
            forall|j: int| 0 <= j < xs@.len() ==> #[trigger] cvs[j] == construct_view(xs@[j]),
            all_runnable(cvs.take(i as int)),
        decreases xs.len() - i,
    {
        proof {
            crate::ir::lemma_take_step(cvs, i as int);
        }
        let x = &xs[i];
        assert(cvs[i as int] == construct_view(*x));
        let own = !(x.kind == ConstructKind::Mutate && x.name.is_some()) || x.fields.len() >= 1;
        let ghost xv = construct_view(*x);
        assert(xv.children == constructs_view(x.children@));
        assert(xv.fields.len() == x.fields@.len());
        assert(own == (xv.kind == ConstructKind::Mutate && xv.name is Some ==> xv.fields.len() >= 1));
        if !own || !all_runnable_exec(&x.children) {
            proof {
                assert(!runnable(xv));
                if all_runnable(cvs) {
                    lemma_all_runnable(cvs, i + 1);
                    assert(cvs.take(i + 1).last() == xv);
                }
            }
            return false;
        }
        assert(runnable(xv));
        assert(cvs.take(i + 1).last() == xv);
        i = i + 1;
    }
    assert(cvs.take(xs.len() as int) =~= cvs);
    true
}

impl ExecContext {
    /// Runs a whole graph: its variables are set and traced, then its
    /// constructs run in order. Numbers in conditions compare by `ranks`.
    pub fn execute(&mut self, ir: &BitIR, ranks: &Vec<(String, NumberRank)>)
        requires
            all_runnable(constructs_view(ir.constructs@)),
        ensures
            final(self)@ == execute_spec(old(self)@, ir@, ranks_view(ranks@)),
    {
        let ghost c0 = self@;
        let vs = &ir.variables;
        let ghost vv = pairs_view(vs@);
        let mut i: usize = 0;
        assert(vv.take(0) =~= Seq::<(Seq<char>, Seq<char>)>::empty());
        while i < vs.len()
            invariant
                i <= vs.len(),
                vs == &ir.variables,
                vv == pairs_view(vs@),
                self@ == import_vars(c0, vv.take(i as int)),
            decreases vs.len() - i,
        {
            proof {
                crate::ir::lemma_take_step(vv, i as int);
            }
            crate::ir::set_var(&mut self.variables, vs[i].0.clone(), vs[i].1.clone());
            self.push_ev(
                ExecEventKind::VariableSet,
                text::string_chars(&vs[i].0),
                text::string_chars(&vs[i].1),
            );
            i = i + 1;
        }
        assert(vv.take(vs.len() as int) =~= vv);
        self.exec_all(&ir.constructs, ranks);
    }

    /// Event counts by kind, then the number of events, entities, flow
    /// states, gate results, task states and errors, ordered by key.
    pub fn summary(&self) -> (r: Vec<(String, usize)>)
        ensures
            crate::ir::schema_view(r@) == summary_spec(self@),
    {
        let ghost evs = events_view(self.trace@);
        let mut m: Vec<(String, usize)> = Vec::new();
        let mut i: usize = 0;
        assert(crate::ir::schema_view(m@) =~= count_events(evs.take(0)));
        while i < self.trace.len()
            invariant
                i <= self.trace.len(),
                evs == events_view(self.trace@),
                crate::ir::schema_view(m@) == count_events(evs.take(i as int)),
            decreases self.trace.len() - i,
        {
            proof {
                crate::ir::lemma_take_step(evs, i as int);
                lemma_count_events_le(evs.take(i as int));
                crate::ir::lemma_get_le(count_events(evs.take(i as int)), evs[i as int].kind.name_spec(), i as int);
            }
            let k = self.trace[i].kind.name();
            let kc = chars_of(k);
            let v: usize = match crate::ir::find_count(&m, &kc) {
                Some(c) => c + 1,
                None => 1,
            };
            crate::ir::insert_count(&mut m, k.to_owned(), v);
            i = i + 1;
        }
        assert(evs.take(self.trace.len() as int) =~= evs);
        crate::ir::insert_count(&mut m, "total_events".to_owned(), self.trace.len());
        crate::ir::insert_count(&mut m, "entities".to_owned(), self.entities.len());
        crate::ir::insert_count(&mut m, "flow_states".to_owned(), self.flow_states.len());
        crate::ir::insert_count(&mut m, "gate_results".to_owned(), self.gate_results.len());
        crate::ir::insert_count(&mut m, "task_states".to_owned(), self.task_states.len());
        crate::ir::insert_count(&mut m, "errors".to_owned(), self.errors.len());
        m
    }
}


impl Default for ExecContext {
    fn default() -> (r: ExecContext)
        ensures
            r@ == (CtxView {
                flow_states: seq![],
                entities: seq![],
                variables: seq![],
                gate_results: seq![],
                task_states: seq![],
                trace: seq![],
                errors: seq![],
            }),
    {
        ExecContext::new()
    }
}


// ── Laws ───────────────────────────────────────────────────────

pub open spec fn flow_name(x: ConstructView) -> Seq<char> {
    match x.name {
        Some(n) => n,
        None => "unnamed"@,
    }
}

proof fn lemma_get_after_set<V>(m: Seq<(Seq<char>, V)>, k: Seq<char>, v: V)
    ensures
        field_get(assoc_set(m, k, v), k) == Some(v),
    decreases m.len(),
{
    if m.len() > 0 && m[0].0 != k {
        lemma_get_after_set(m.drop_first(), k, v);
        assert((seq![m[0]] + assoc_set(m.drop_first(), k, v)).drop_first() =~= assoc_set(
            m.drop_first(),
            k,
            v,
        ));
    }
}

proof fn lemma_flow_walk(c: CtxView, name: Seq<char>, cur: Seq<char>, es: Seq<EdgeView>, i: int)
    requires
        0 <= i,
        field_get(c.flow_states, name) == Some(cur),
    ensures
        ({
            let r = field_get(flow_walk(c, name, cur, es, i).flow_states, name);
            r == Some(cur) || exists|j: int|
                i <= j < es.len() && (#[trigger] es[j]).from == cur && r == Some(es[j].to)
        }),
    decreases es.len() - i,
{
    if i < es.len() {
        let e = es[i];
        if e.from != cur {
            lemma_flow_walk(c, name, cur, es, i + 1);
        } else {
            lemma_get_after_set(c.flow_states, name, e.to);
            match e.gate {
                Some(g) => match field_get(c.gate_results, g) {
                    Some(Trit::Pos) => {},
                    Some(Trit::Neg) => {
                        let c2 = push_event(
                            c,
                            ev(
                                ExecEventKind::FlowBlocked,
                                "flow:"@ + name,
                                e.from + " blocked — gate '"@ + g + "' failed"@,
                            ),
                        );
                        lemma_flow_walk(c2, name, cur, es, i + 1);
                    },
                    _ => {
                        let c2 = push_event(
                            c,
                            ev(
                                ExecEventKind::FlowBlocked,
                                "flow:"@ + name,
                                e.from + " uncertain — gate '"@ + g
                                    + "' has unknown conditions (retry later)"@,
                            ),
                        );
                        lemma_flow_walk(c2, name, cur, es, i + 1);
                    },
                },
                None => {},
            }
        }
    }
}

/// A flow moves only along its own edges: running a flow construct leaves
/// the flow at the state it stood at (the first edge's source for a flow
/// not seen before) or moves it to the target of an edge out of that state;
/// a flow without edges changes nothing.
pub proof fn lemma_flow_moves_along_edges(c: CtxView, x: ConstructView)
    ensures
        flow_edges(x.fields, x.fields).len() == 0 ==> exec_flow_spec(c, x) == c,
        flow_edges(x.fields, x.fields).len() > 0 ==> ({
            let es = flow_edges(x.fields, x.fields);
            let cur = match field_get(c.flow_states, flow_name(x)) {
                Some(s) => s,
                None => es[0].from,
            };
            let r = field_get(exec_flow_spec(c, x).flow_states, flow_name(x));
            r == Some(cur) || exists|j: int|
                0 <= j < es.len() && (#[trigger] es[j]).from == cur && r == Some(es[j].to)
        }),
{
    let es = flow_edges(x.fields, x.fields);
    let n = flow_name(x);
    if es.len() > 0 {
        match field_get(c.flow_states, n) {
            Some(cur) => {
                lemma_flow_walk(c, n, cur, es, 0);
            },
            None => {
                let c1 = CtxView { flow_states: assoc_set(c.flow_states, n, es[0].from), ..c };
                lemma_get_after_set(c.flow_states, n, es[0].from);
                lemma_flow_walk(c1, n, es[0].from, es, 0);
            },
        }
    }
}

} // verus!
