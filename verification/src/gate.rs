//! Gates: the conditions that guard tasks and flows. A gate body is one of
//! `when:`, `unless:`, `after:`, `needs:`, `all:`, `any:`, `not:`, `intake`,
//! a score gate (`name score: >= N`), a result gate (`name result: :value`),
//! or the name of a validator.
//!
//! Evaluation reads the plain facts of a context; the two questions it
//! cannot answer itself (whether a compute expression is truthy, and whether
//! a score gate passes) are asked of the caller, who lists them with
//! `gate_queries` and answers them before calling `eval_gate`.
use crate::interpret::{bracket_trim_exec, trim_brackets};
use crate::parse::pairs_view;
use crate::text;
use crate::text::{starts_with, trim};
use vstd::prelude::*;

verus! {

/// `s` trimmed, without one surrounding `||...||` pair or else one `|...|`
/// pair.
pub open spec fn strip_pipes_spec(s: Seq<char>) -> Seq<char> {
    let t = text::trim(s);
    match text::strip_prefix(t, "||"@) {
        Some(a) if text::strip_suffix(a, "||"@) is Some => text::strip_suffix(a, "||"@)->0,
        _ => match text::strip_prefix(t, "|"@) {
            Some(a) if text::strip_suffix(a, "|"@) is Some => text::strip_suffix(a, "|"@)->0,
            _ => t,
        },
    }
}

/// Removes the pipes around a compute expression: `|x > 0|` and `||x > 0||`
/// both give `x > 0`.
pub fn strip_pipes(s: &str) -> (r: String)
    ensures
        r@ == strip_pipes_spec(s@),
{
    let t = text::trim_chars(&text::str_chars(s));
    if let Some(a) = text::strip_prefix_str(&t, "||") {
        if let Some(b) = text::strip_suffix_str(&a, "||") {
            return text::to_string(&b);
        }
    }
    if let Some(a) = text::strip_prefix_str(&t, "|") {
        if let Some(b) = text::strip_suffix_str(&a, "|") {
            return text::to_string(&b);
        }
    }
    text::to_string(&t)
}

/// State of the brace scanner after some prefix: the sub-gates found so far,
/// the brace depth, and the text of the sub-gate being read.
pub struct BraceScan {
    pub gates: Seq<Seq<char>>,
    pub depth: nat,
    pub current: Seq<char>,
}

/// One scanner step on character `c`.
pub open spec fn brace_step(st: BraceScan, c: char) -> BraceScan {
    if c == '{' {
        BraceScan {
            gates: st.gates,
            depth: st.depth + 1,
            current: if st.depth > 0 {
                st.current.push(c)
            } else {
                st.current
            },
        }
    } else if c == '}' {
        let d: nat = if st.depth > 0 {
            (st.depth - 1) as nat
        } else {
            0
        };
        if d > 0 {
            BraceScan { gates: st.gates, depth: d, current: st.current.push(c) }
        } else {
            let t = text::trim(st.current);
            BraceScan {
                gates: if t.len() > 0 {
                    st.gates.push(t)
                } else {
                    st.gates
                },
                depth: d,
                current: Seq::empty(),
            }
        }
    } else {
        BraceScan {
            gates: st.gates,
            depth: st.depth,
            current: if st.depth > 0 {
                st.current.push(c)
            } else {
                st.current
            },
        }
    }
}

/// The scanner state after reading all of `s`.
pub open spec fn brace_scan(s: Seq<char>) -> BraceScan
    decreases s.len(),
{
    if s.len() == 0 {
        BraceScan { gates: Seq::empty(), depth: 0, current: Seq::empty() }
    } else {
        brace_step(brace_scan(s.drop_last()), s.last())
    }
}

/// The trimmed, non-empty contents of each top-level `{...}` group of `s`;
/// `s` itself when there is none and `s` is not empty.
pub open spec fn sub_gates_spec(s: Seq<char>) -> Seq<Seq<char>> {
    let g = brace_scan(s).gates;
    if g.len() == 0 && s.len() > 0 {
        seq![s]
    } else {
        g
    }
}

/// The sub-gates of a composite gate body, as character vectors.
pub fn sub_gates_chars(sv: &Vec<char>) -> (r: Vec<Vec<char>>)
    ensures
        text::views(r@) == sub_gates_spec(sv@),
{
    let mut gates: Vec<Vec<char>> = Vec::new();
    let mut depth: usize = 0;
    let mut current: Vec<char> = Vec::new();
    let mut i: usize = 0;
    while i < sv.len()
        invariant
            i <= sv.len(),
            depth <= i,
            ({
                let st = brace_scan(sv@.take(i as int));
                &&& text::views(gates@) == st.gates
                &&& depth == st.depth
                &&& current@ == st.current
            }),
        decreases sv.len() - i,
    {
        let c = sv[i];
        proof {
            assert(sv@.take(i + 1).drop_last() =~= sv@.take(i as int));
        }
        if c == '{' {
            if depth > 0 {
                current.push(c);
            }
            depth = depth + 1;
        } else if c == '}' {
            depth = if depth > 0 { depth - 1 } else { 0 };
            if depth > 0 {
                current.push(c);
            } else {
                let t = text::trim_chars(&current);
                if t.len() > 0 {
                    proof {
                        text::lemma_views_push(gates@, t);
                    }
                    gates.push(t);
                }
                current = Vec::new();
            }
        } else {
            if depth > 0 {
                current.push(c);
            }
        }
        i = i + 1;
    }
    proof {
        assert(sv@.take(sv.len() as int) =~= sv@);
    }
    if gates.len() == 0 && sv.len() > 0 {
        let mut out: Vec<Vec<char>> = Vec::new();
        out.push(sv.clone());
        assert(text::views(out@) =~= seq![sv@]);
        return out;
    }
    gates
}

/// Splits a composite gate body such as `{when: a}{after: b}` into its
/// sub-gates.
pub fn extract_sub_gates(s: &str) -> (r: Vec<String>)
    ensures
        text::str_views(r@) == sub_gates_spec(s@),
{
    let sv = text::str_chars(s);
    let gates = sub_gates_chars(&sv);
    text::to_strings(&gates)
}

proof fn lemma_brace_scan_len(s: Seq<char>)
    ensures
        brace_scan(s).current.len() <= s.len(),
        forall|i: int|
            0 <= i < brace_scan(s).gates.len() ==> #[trigger] brace_scan(s).gates[i].len() <= s.len(),
    decreases s.len(),
{
    if s.len() > 0 {
        lemma_brace_scan_len(s.drop_last());
        text::lemma_trim_len(brace_scan(s.drop_last()).current);
    }
}

/// Each sub-gate is no longer than the text it was taken from.
pub proof fn lemma_sub_gates_len(s: Seq<char>)
    ensures
        forall|i: int|
            0 <= i < sub_gates_spec(s).len() ==> #[trigger] sub_gates_spec(s)[i].len() <= s.len(),
{
    lemma_brace_scan_len(s);
}


// ── Evaluating a gate ───────────────────────────────────────────

/// A question that gate evaluation leaves to its caller.
pub enum GateQuery {
    /// Whether the compute expression is truthy.
    Compute(String),
    /// Whether the score gate with this (trimmed) body passes.
    Score(String),
}

/// The facts of a gate context that evaluation reads.
pub struct GateFacts {
    /// Names of the defined variables.
    pub vars: Vec<String>,
    /// Names of the completed tasks.
    pub completed_tasks: Vec<String>,
    /// Each task's recorded result, by task name.
    pub task_results: Vec<(String, String)>,
    /// Names of the submitted forms.
    pub submitted_forms: Vec<String>,
    /// Names of the document's validators.
    pub validators: Vec<String>,
}

/// The caller's answer to a query.
pub struct GateAnswer {
    pub query: GateQuery,
    pub passed: bool,
    /// What a score gate reports (unused for a compute query).
    pub details: String,
}

/// Whether a gate passed, and what it reports.
pub struct GateOutcome {
    pub passed: bool,
    pub details: String,
}

/// A query as a plain value: `true` with a compute expression, `false` with
/// the text of a score gate.
pub open spec fn query_view(q: GateQuery) -> (bool, Seq<char>) {
    match q {
        GateQuery::Compute(e) => (true, e@),
        GateQuery::Score(b) => (false, b@),
    }
}

pub open spec fn queries_view(v: Seq<GateQuery>) -> Seq<(bool, Seq<char>)> {
    v.map_values(|q: GateQuery| query_view(q))
}

/// An answer as a plain value: the query, whether it passed, its details.
pub open spec fn answer_view(a: GateAnswer) -> (bool, Seq<char>, bool, Seq<char>) {
    (query_view(a.query).0, query_view(a.query).1, a.passed, a.details@)
}

pub open spec fn answers_view(v: Seq<GateAnswer>) -> Seq<(bool, Seq<char>, bool, Seq<char>)> {
    v.map_values(|a: GateAnswer| answer_view(a))
}

/// The facts as plain values.
pub struct FactsView {
    pub vars: Seq<Seq<char>>,
    pub completed: Seq<Seq<char>>,
    pub results: Seq<(Seq<char>, Seq<char>)>,
    pub forms: Seq<Seq<char>>,
    pub validators: Seq<Seq<char>>,
}

impl View for GateFacts {
    type V = FactsView;

    open spec fn view(&self) -> FactsView {
        FactsView {
            vars: text::str_views(self.vars@),
            completed: text::str_views(self.completed_tasks@),
            results: pairs_view(self.task_results@),
            forms: text::str_views(self.submitted_forms@),
            validators: text::str_views(self.validators@),
        }
    }
}

/// The first answer to the query (`compute`, `q`): whether it passed and its
/// details.
pub open spec fn answer_for(
    answers: Seq<(bool, Seq<char>, bool, Seq<char>)>,
    compute: bool,
    q: Seq<char>,
) -> Option<(bool, Seq<char>)>
    decreases answers.len(),
{
    if answers.len() == 0 {
        None
    } else if answers[0].0 == compute && answers[0].1 == q {
        Some((answers[0].2, answers[0].3))
    } else {
        answer_for(answers.drop_first(), compute, q)
    }
}

/// Whether the compute expression `e` was answered truthy; an unanswered
/// expression counts as not truthy.
pub open spec fn holds(answers: Seq<(bool, Seq<char>, bool, Seq<char>)>, e: Seq<char>) -> bool {
    match answer_for(answers, true, e) {
        Some((p, _)) => p,
        None => false,
    }
}

/// The first recorded result of task `name`.
pub open spec fn result_of(results: Seq<(Seq<char>, Seq<char>)>, name: Seq<char>) -> Option<Seq<char>>
    decreases results.len(),
{
    if results.len() == 0 {
        None
    } else if results[0].0 == name {
        Some(results[0].1)
    } else {
        result_of(results.drop_first(), name)
    }
}

pub open spec fn bool_text(b: bool) -> Seq<char> {
    if b {
        "true"@
    } else {
        "false"@
    }
}

/// The kinds of gate body.
#[derive(PartialEq, Eq, Structural)]
pub enum GateKind {
    When,
    Unless,
    After,
    Needs,
    All,
    Any,
    Not,
    Intake,
    Score,
    Result,
    Validator,
}

/// Whether `t` starts with `a` or with `b`.
pub open spec fn starts_either(t: Seq<char>, a: Seq<char>, b: Seq<char>) -> bool {
    starts_with(t, a) || starts_with(t, b)
}

/// The kind of the trimmed gate body `t`.
pub open spec fn gate_kind(t: Seq<char>) -> GateKind {
    if starts_either(t, "when:"@, "when "@) {
        GateKind::When
    } else if starts_either(t, "unless:"@, "unless "@) {
        GateKind::Unless
    } else if starts_either(t, "after:"@, "after "@) {
        GateKind::After
    } else if starts_either(t, "needs:"@, "needs "@) {
        GateKind::Needs
    } else if starts_either(t, "all:"@, "all "@) {
        GateKind::All
    } else if starts_either(t, "any:"@, "any "@) {
        GateKind::Any
    } else if starts_either(t, "not:"@, "not "@) {
        GateKind::Not
    } else if starts_with(t, "intake"@) {
        GateKind::Intake
    } else if text::contains(t, "score:"@) {
        GateKind::Score
    } else if text::contains(t, "result:"@) {
        GateKind::Result
    } else {
        GateKind::Validator
    }
}

/// `t` without its keyword `a` or `b`, trimmed.
pub open spec fn head_rest(t: Seq<char>, a: Seq<char>, b: Seq<char>) -> Seq<char> {
    trim(text::trim_start_matches(text::trim_start_matches(t, a), b))
}

pub proof fn lemma_trim_start_matches_len(s: Seq<char>, p: Seq<char>)
    ensures
        text::trim_start_matches(s, p).len() <= s.len(),
        p.len() > 0 && starts_with(s, p) ==> text::trim_start_matches(s, p).len() <= s.len()
            - p.len(),
    decreases s.len(),
{
    if p.len() > 0 && starts_with(s, p) {
        lemma_trim_start_matches_len(s.skip(p.len() as int), p);
    }
}

/// Removing a keyword that the text starts with shortens it.
pub proof fn lemma_head_rest_len(t: Seq<char>, a: Seq<char>, b: Seq<char>)
    requires
        a.len() > 0,
        b.len() > 0,
        starts_either(t, a, b),
    ensures
        head_rest(t, a, b).len() < t.len(),
{
    lemma_trim_start_matches_len(t, a);
    let u = text::trim_start_matches(t, a);
    lemma_trim_start_matches_len(u, b);
    text::lemma_trim_len(text::trim_start_matches(u, b));
}

/// The task name and expected result of an `after:` gate.
pub open spec fn after_parts(t: Seq<char>) -> (Seq<char>, Option<Seq<char>>) {
    let task_ref = head_rest(t, "after:"@, "after "@);
    match text::find(task_ref, " result:"@) {
        Some(p) => (
            trim_brackets(trim(task_ref.take(p))),
            Some(text::trim_start_matches(trim(task_ref.skip(p + 8)), ":"@)),
        ),
        None => (trim_brackets(task_ref), None),
    }
}

/// Whether a completed task is, or contains, `name`.
pub open spec fn task_done(completed: Seq<Seq<char>>, name: Seq<char>) -> bool {
    exists|i: int|
        0 <= i < completed.len() && (#[trigger] completed[i] == name || text::contains(
            completed[i],
            name,
        ))
}

/// Whether task `name` recorded the result `expected` (leading colons
/// ignored on both sides).
pub open spec fn result_matches(
    results: Seq<(Seq<char>, Seq<char>)>,
    name: Seq<char>,
    expected: Seq<char>,
) -> bool {
    match result_of(results, name) {
        Some(r) => text::trim_start_matches(r, ":"@) == text::trim_start_matches(expected, ":"@),
        None => false,
    }
}

pub open spec fn after_spec(t: Seq<char>, f: FactsView) -> (bool, Seq<char>) {
    let (name, expected) = after_parts(t);
    let done = task_done(f.completed, name);
    let passed = match expected {
        Some(x) => done && result_matches(f.results, name, x),
        None => done,
    };
    (passed, "after: "@ + name + " -> "@ + bool_text(passed))
}

pub open spec fn needs_spec(t: Seq<char>, f: FactsView) -> (bool, Seq<char>) {
    let resource = head_rest(t, "needs:"@, "needs "@);
    let passed = f.vars.contains(text::trim_start_matches(resource, "@"@));
    (passed, "needs: "@ + resource + " -> "@ + bool_text(passed))
}

/// The form name and `where:` expression of an `intake` gate.
pub open spec fn intake_parts(t: Seq<char>) -> (Seq<char>, Option<Seq<char>>) {
    let rest = trim(text::trim_start_matches(t, "intake"@));
    match text::find(rest, "where:"@) {
        Some(i) => (trim(rest.take(i)), Some(trim(rest.skip(i + 6)))),
        None => (rest, None),
    }
}

pub open spec fn intake_spec(
    t: Seq<char>,
    answers: Seq<(bool, Seq<char>, bool, Seq<char>)>,
    f: FactsView,
) -> (bool, Seq<char>) {
    let (name, where_expr) = intake_parts(t);
    let submitted = if name.len() == 0 {
        f.forms.len() > 0
    } else {
        f.forms.contains(name)
    };
    let head = "intake: '"@ + name;
    if !submitted {
        (false, head + "' not submitted"@)
    } else {
        match where_expr {
            Some(e) => {
                let x = strip_pipes_spec(e);
                let p = holds(answers, x);
                (p, head + "' submitted, where: "@ + x + " -> "@ + bool_text(p))
            },
            None => (true, head + "' submitted"@),
        }
    }
}

pub open spec fn result_gate_spec(t: Seq<char>, f: FactsView) -> (bool, Seq<char>) {
    let i = match text::find(t, "result:"@) {
        Some(i) => i,
        None => t.len() as int,
    };
    let name = trim(t.take(i));
    let expected = text::trim_start_matches(trim(t.skip(i + 7)), ":"@);
    let passed = result_matches(f.results, name, expected);
    (passed, "result: "@ + name + " expected :"@ + expected + " -> "@ + bool_text(passed))
}

pub open spec fn validator_spec(t: Seq<char>, f: FactsView) -> (bool, Seq<char>) {
    let exists = f.validators.contains(t);
    (exists, "validator: "@ + t + " exists="@ + bool_text(exists))
}

/// The number of `true`s.
pub open spec fn count_true(ps: Seq<bool>) -> nat
    decreases ps.len(),
{
    if ps.len() == 0 {
        0
    } else {
        count_true(ps.drop_last()) + if ps.last() {
            1nat
        } else {
            0nat
        }
    }
}

/// What gate `body` gives: whether it passed and what it reports.
pub open spec fn gate_spec(
    body: Seq<char>,
    answers: Seq<(bool, Seq<char>, bool, Seq<char>)>,
    f: FactsView,
) -> (bool, Seq<char>)
    decreases body.len(), 0nat,
{
    let t = trim(body);
    match gate_kind(t) {
        GateKind::When => {
            let e = strip_pipes_spec(head_rest(t, "when:"@, "when "@));
            let p = holds(answers, e);
            (p, "when: "@ + e + " -> "@ + bool_text(p))
        },
        GateKind::Unless => {
            let e = strip_pipes_spec(head_rest(t, "unless:"@, "unless "@));
            let p = !holds(answers, e);
            (p, "unless: "@ + e + " -> "@ + bool_text(p))
        },
        GateKind::After => after_spec(t, f),
        GateKind::Needs => needs_spec(t, f),
        GateKind::All => {
            let inner = head_rest(t, "all:"@, "all "@);
            proof {
                reveal_strlit("all:");
                reveal_strlit("all ");
                text::lemma_trim_len(body);
                lemma_head_rest_len(t, "all:"@, "all "@);
            }
            let subs = sub_gates_spec(inner);
            let n = count_true(subs_passed(subs, inner.len(), answers, f));
            (n == subs.len(), "all: "@ + text::decimal(n) + "/"@ + text::decimal(subs.len()) + " passed"@)
        },
        GateKind::Any => {
            let inner = head_rest(t, "any:"@, "any "@);
            proof {
                reveal_strlit("any:");
                reveal_strlit("any ");
                text::lemma_trim_len(body);
                lemma_head_rest_len(t, "any:"@, "any "@);
            }
            let subs = sub_gates_spec(inner);
            let n = count_true(subs_passed(subs, inner.len(), answers, f));
            (n > 0, "any: "@ + text::decimal(n) + "/"@ + text::decimal(subs.len()) + " passed"@)
        },
        GateKind::Not => {
            let inner = head_rest(t, "not:"@, "not "@);
            proof {
                reveal_strlit("not:");
                reveal_strlit("not ");
                text::lemma_trim_len(body);
                lemma_head_rest_len(t, "not:"@, "not "@);
            }
            let p = gate_spec(inner, answers, f).0;
            (!p, "not: inner="@ + bool_text(p) + " -> "@ + bool_text(!p))
        },
        GateKind::Intake => intake_spec(t, answers, f),
        GateKind::Score => match answer_for(answers, false, t) {
            Some((p, d)) => (p, d),
            None => (false, Seq::empty()),
        },
        GateKind::Result => result_gate_spec(t, f),
        GateKind::Validator => validator_spec(t, f),
    }
}

/// Whether each of the sub-gates `subs` (each at most `bound` long) passed.
pub open spec fn subs_passed(
    subs: Seq<Seq<char>>,
    bound: nat,
    answers: Seq<(bool, Seq<char>, bool, Seq<char>)>,
    f: FactsView,
) -> Seq<bool>
    decreases bound, subs.len(),
{
    if subs.len() == 0 {
        Seq::empty()
    } else if subs.last().len() <= bound {
        subs_passed(subs.drop_last(), bound, answers, f).push(gate_spec(subs.last(), answers, f).0)
    } else {
        Seq::empty()
    }
}

/// The queries that evaluating gate `body` asks, in order; an `intake`
/// gate's `where:` expression is listed whether or not its form was
/// submitted.
pub open spec fn queries_spec(body: Seq<char>) -> Seq<(bool, Seq<char>)>
    decreases body.len(), 0nat,
{
    let t = trim(body);
    match gate_kind(t) {
        GateKind::When => seq![(true, strip_pipes_spec(head_rest(t, "when:"@, "when "@)))],
        GateKind::Unless => seq![(true, strip_pipes_spec(head_rest(t, "unless:"@, "unless "@)))],
        GateKind::All => {
            let inner = head_rest(t, "all:"@, "all "@);
            proof {
                reveal_strlit("all:");
                reveal_strlit("all ");
                text::lemma_trim_len(body);
                lemma_head_rest_len(t, "all:"@, "all "@);
            }
            subs_queries(sub_gates_spec(inner), inner.len())
        },
        GateKind::Any => {
            let inner = head_rest(t, "any:"@, "any "@);
            proof {
                reveal_strlit("any:");
                reveal_strlit("any ");
                text::lemma_trim_len(body);
                lemma_head_rest_len(t, "any:"@, "any "@);
            }
            subs_queries(sub_gates_spec(inner), inner.len())
        },
        GateKind::Not => {
            let inner = head_rest(t, "not:"@, "not "@);
            proof {
                reveal_strlit("not:");
                reveal_strlit("not ");
                text::lemma_trim_len(body);
                lemma_head_rest_len(t, "not:"@, "not "@);
            }
            queries_spec(inner)
        },
        GateKind::Intake => match intake_parts(t).1 {
            Some(e) => seq![(true, strip_pipes_spec(e))],
            None => Seq::empty(),
        },
        GateKind::Score => seq![(false, t)],
        _ => Seq::empty(),
    }
}

/// The queries of the sub-gates `subs` (each at most `bound` long), in
/// order.
pub open spec fn subs_queries(subs: Seq<Seq<char>>, bound: nat) -> Seq<(bool, Seq<char>)>
    decreases bound, subs.len(),
{
    if subs.len() == 0 {
        Seq::empty()
    } else if subs.last().len() <= bound {
        subs_queries(subs.drop_last(), bound) + queries_spec(subs.last())
    } else {
        Seq::empty()
    }
}

fn append_bool(a: &mut Vec<char>, b: bool)
    ensures
        final(a)@ == old(a)@ + bool_text(b),
{
    if b {
        text::append_str(a, "true");
    } else {
        text::append_str(a, "false");
    }
}

fn head_rest_exec(t: &Vec<char>, a: &str, b: &str) -> (r: Vec<char>)
    ensures
        r@ == head_rest(t@, a@, b@),
{
    text::trim_chars(&text::trim_start_matches_str(&text::trim_start_matches_str(t, a), b))
}

fn starts_either_exec(t: &Vec<char>, a: &str, b: &str) -> (r: bool)
    ensures
        r == starts_either(t@, a@, b@),
{
    text::starts_with_str(t, a) || text::starts_with_str(t, b)
}

/// The kind of the trimmed gate body `t`.
pub fn gate_kind_exec(t: &Vec<char>) -> (k: GateKind)
    ensures
        k == gate_kind(t@),
{
    if starts_either_exec(t, "when:", "when ") {
        GateKind::When
    } else if starts_either_exec(t, "unless:", "unless ") {
        GateKind::Unless
    } else if starts_either_exec(t, "after:", "after ") {
        GateKind::After
    } else if starts_either_exec(t, "needs:", "needs ") {
        GateKind::Needs
    } else if starts_either_exec(t, "all:", "all ") {
        GateKind::All
    } else if starts_either_exec(t, "any:", "any ") {
        GateKind::Any
    } else if starts_either_exec(t, "not:", "not ") {
        GateKind::Not
    } else if text::starts_with_str(t, "intake") {
        GateKind::Intake
    } else if text::contains_str(t, "score:") {
        GateKind::Score
    } else if text::contains_str(t, "result:") {
        GateKind::Result
    } else {
        GateKind::Validator
    }
}

/// Whether the text is a score gate, whose outcome its caller decides.
pub fn is_score_gate(gate_body: &str) -> (r: bool)
    ensures
        r == (gate_kind(trim(gate_body@)) == GateKind::Score),
{
    let t = text::trim_chars(&text::str_chars(gate_body));
    match gate_kind_exec(&t) {
        GateKind::Score => true,
        _ => false,
    }
}

fn contains_name(v: &Vec<String>, x: &Vec<char>) -> (r: bool)
    ensures
        r == text::str_views(v@).contains(x@),
{
    let mut i: usize = 0;
    while i < v.len()
        invariant
            i <= v.len(),
            forall|j: int| 0 <= j < i ==> #[trigger] text::str_views(v@)[j] != x@,
        decreases v.len() - i,
    {
        let s = text::string_chars(&v[i]);
        if text::eq(&s, x) {
            assert(text::str_views(v@)[i as int] == x@);
            return true;
        }
        i = i + 1;
    }
    false
}

fn task_done_exec(completed: &Vec<String>, name: &Vec<char>) -> (r: bool)
    ensures
        r == task_done(text::str_views(completed@), name@),
{
    let ghost cv = text::str_views(completed@);
    let mut i: usize = 0;
    while i < completed.len()
        invariant
            i <= completed.len(),
            cv == text::str_views(completed@),
            forall|j: int|
                0 <= j < i ==> !(#[trigger] cv[j] == name@ || text::contains(cv[j], name@)),
        decreases completed.len() - i,
    {
        let s = text::string_chars(&completed[i]);
        if text::eq(&s, name) || text::contains_chars(&s, name) {
            assert(cv[i as int] == s@);
            return true;
        }
        i = i + 1;
    }
    false
}

fn result_of_exec(results: &Vec<(String, String)>, name: &Vec<char>) -> (r: Option<Vec<char>>)
    ensures
        match r {
            Some(v) => result_of(pairs_view(results@), name@) == Some(v@),
            None => result_of(pairs_view(results@), name@) is None,
        },
{
    let ghost rv = pairs_view(results@);
    let mut i: usize = 0;
    assert(rv.skip(0) =~= rv);
    while i < results.len()
        invariant
            i <= results.len(),
            rv == pairs_view(results@),
            result_of(rv, name@) == result_of(rv.skip(i as int), name@),
        decreases results.len() - i,
    {
        proof {
            assert(rv.skip(i as int).drop_first() =~= rv.skip(i + 1));
        }
        let k = text::string_chars(&results[i].0);
        if text::eq(&k, name) {
            return Some(text::string_chars(&results[i].1));
        }
        i = i + 1;
    }
    None
}

fn result_matches_exec(results: &Vec<(String, String)>, name: &Vec<char>, expected: &Vec<char>) -> (r: bool)
    ensures
        r == result_matches(pairs_view(results@), name@, expected@),
{
    match result_of_exec(results, name) {
        Some(v) => text::eq(
            &text::trim_start_matches_str(&v, ":"),
            &text::trim_start_matches_str(expected, ":"),
        ),
        None => false,
    }
}

fn answer_exec(answers: &Vec<GateAnswer>, compute: bool, q: &Vec<char>) -> (r: Option<(bool, Vec<char>)>)
    ensures
        match r {
            Some((p, d)) => answer_for(answers_view(answers@), compute, q@) == Some((p, d@)),
            None => answer_for(answers_view(answers@), compute, q@) is None,
        },
{
    let ghost av = answers_view(answers@);
    let mut i: usize = 0;
    assert(av.skip(0) =~= av);
    while i < answers.len()
        invariant
            i <= answers.len(),
            av == answers_view(answers@),
            answer_for(av, compute, q@) == answer_for(av.skip(i as int), compute, q@),
        decreases answers.len() - i,
    {
        proof {
            assert(av.skip(i as int).drop_first() =~= av.skip(i + 1));
        }
        let a = &answers[i];
        let same = match &a.query {
            GateQuery::Compute(e) => compute && text::eq(&text::string_chars(e), q),
            GateQuery::Score(b) => !compute && text::eq(&text::string_chars(b), q),
        };
        if same {
            return Some((a.passed, text::string_chars(&a.details)));
        }
        i = i + 1;
    }
    None
}

fn holds_exec(answers: &Vec<GateAnswer>, e: &Vec<char>) -> (r: bool)
    ensures
        r == holds(answers_view(answers@), e@),
{
    match answer_exec(answers, true, e) {
        Some((p, _)) => p,
        None => false,
    }
}

fn outcome(passed: bool, d: &Vec<char>) -> (r: GateOutcome)
    ensures
        r.passed == passed,
        r.details@ == d@,
{
    GateOutcome { passed, details: text::to_string(d) }
}

/// A `when:` or `unless:` gate.
fn compute_gate(t: &Vec<char>, answers: &Vec<GateAnswer>, unless: bool) -> (r: GateOutcome)
    ensures
        ({
            let (kw, a, b) = if unless {
                ("unless: "@, "unless:"@, "unless "@)
            } else {
                ("when: "@, "when:"@, "when "@)
            };
            let e = strip_pipes_spec(head_rest(t@, a, b));
            let p = holds(answers_view(answers@), e) != unless;
            r.passed == p && r.details@ == kw + e + " -> "@ + bool_text(p)
        }),
{
    let rest = if unless {
        head_rest_exec(t, "unless:", "unless ")
    } else {
        head_rest_exec(t, "when:", "when ")
    };
    let e = text::string_chars(&strip_pipes(&text::to_string(&rest)));
    let p = holds_exec(answers, &e) != unless;
    let mut d: Vec<char> = Vec::new();
    if unless {
        text::append_str(&mut d, "unless: ");
    } else {
        text::append_str(&mut d, "when: ");
    }
    text::append(&mut d, &e);
    text::append_str(&mut d, " -> ");
    append_bool(&mut d, p);
    outcome(p, &d)
}

fn after_gate(t: &Vec<char>, facts: &GateFacts) -> (r: GateOutcome)
    ensures
        (r.passed, r.details@) == after_spec(t@, facts@),
{
    let task_ref = head_rest_exec(t, "after:", "after ");
    let (name, expected) = match text::find_str(&task_ref, " result:") {
        Some(p) => {
            proof {
                text::lemma_find_from(task_ref@, " result:"@, 0);
                reveal_strlit(" result:");
            }
            let l = task_ref.len();
            let head = text::slice_of(&task_ref, 0, p);
            let tail = text::slice_of(&task_ref, p + 8, l);
            assert(head@ =~= task_ref@.take(p as int));
            assert(tail@ =~= task_ref@.skip(p + 8));
            (
                bracket_trim_exec(&text::trim_chars(&head)),
                Some(text::trim_start_matches_str(&text::trim_chars(&tail), ":")),
            )
        },
        None => (bracket_trim_exec(&task_ref), None),
    };
    let done = task_done_exec(&facts.completed_tasks, &name);
    let passed = match &expected {
        Some(x) => done && result_matches_exec(&facts.task_results, &name, x),
        None => done,
    };
    let mut d: Vec<char> = Vec::new();
    text::append_str(&mut d, "after: ");
    text::append(&mut d, &name);
    text::append_str(&mut d, " -> ");
    append_bool(&mut d, passed);
    outcome(passed, &d)
}

fn needs_gate(t: &Vec<char>, facts: &GateFacts) -> (r: GateOutcome)
    ensures
        (r.passed, r.details@) == needs_spec(t@, facts@),
{
    let resource = head_rest_exec(t, "needs:", "needs ");
    let key = text::trim_start_matches_str(&resource, "@");
    let passed = contains_name(&facts.vars, &key);
    let mut d: Vec<char> = Vec::new();
    text::append_str(&mut d, "needs: ");
    text::append(&mut d, &resource);
    text::append_str(&mut d, " -> ");
    append_bool(&mut d, passed);
    outcome(passed, &d)
}

fn intake_parts_exec(t: &Vec<char>) -> (r: (Vec<char>, Option<Vec<char>>))
    ensures
        r.0@ == intake_parts(t@).0,
        match r.1 {
            Some(e) => intake_parts(t@).1 == Some(e@),
            None => intake_parts(t@).1 is None,
        },
{
    let rest = text::trim_chars(&text::trim_start_matches_str(t, "intake"));
    match text::find_str(&rest, "where:") {
        Some(i) => {
            proof {
                text::lemma_find_from(rest@, "where:"@, 0);
                reveal_strlit("where:");
            }
            let l = rest.len();
            let head = text::slice_of(&rest, 0, i);
            let tail = text::slice_of(&rest, i + 6, l);
            assert(head@ =~= rest@.take(i as int));
            assert(tail@ =~= rest@.skip(i + 6));
            (text::trim_chars(&head), Some(text::trim_chars(&tail)))
        },
        None => (rest, None),
    }
}

fn intake_gate(t: &Vec<char>, facts: &GateFacts, answers: &Vec<GateAnswer>) -> (r: GateOutcome)
    ensures
        (r.passed, r.details@) == intake_spec(t@, answers_view(answers@), facts@),
{
    let (name, where_expr) = intake_parts_exec(t);
    let submitted = if name.len() == 0 {
        facts.submitted_forms.len() > 0
    } else {
        contains_name(&facts.submitted_forms, &name)
    };
    let mut d: Vec<char> = Vec::new();
    text::append_str(&mut d, "intake: '");
    text::append(&mut d, &name);
    if !submitted {
        text::append_str(&mut d, "' not submitted");
        return outcome(false, &d);
    }
    match where_expr {
        Some(e) => {
            let x = text::string_chars(&strip_pipes(&text::to_string(&e)));
            let p = holds_exec(answers, &x);
            text::append_str(&mut d, "' submitted, where: ");
            text::append(&mut d, &x);
            text::append_str(&mut d, " -> ");
            append_bool(&mut d, p);
            outcome(p, &d)
        },
        None => {
            text::append_str(&mut d, "' submitted");
            outcome(true, &d)
        },
    }
}

fn result_gate(t: &Vec<char>, facts: &GateFacts) -> (r: GateOutcome)
    requires
        text::contains(t@, "result:"@),
    ensures
        (r.passed, r.details@) == result_gate_spec(t@, facts@),
{
    let i = match text::find_str(t, "result:") {
        Some(i) => i,
        None => t.len(),
    };
    proof {
        text::lemma_find_from(t@, "result:"@, 0);
        reveal_strlit("result:");
    }
    let l = t.len();
    let head = text::slice_of(t, 0, i);
    let tail = text::slice_of(t, i + 7, l);
    assert(head@ =~= t@.take(i as int));
    assert(tail@ =~= t@.skip(i + 7));
    let name = text::trim_chars(&head);
    let expected = text::trim_start_matches_str(&text::trim_chars(&tail), ":");
    let passed = result_matches_exec(&facts.task_results, &name, &expected);
    let mut d: Vec<char> = Vec::new();
    text::append_str(&mut d, "result: ");
    text::append(&mut d, &name);
    text::append_str(&mut d, " expected :");
    text::append(&mut d, &expected);
    text::append_str(&mut d, " -> ");
    append_bool(&mut d, passed);
    outcome(passed, &d)
}

fn validator_gate(t: &Vec<char>, facts: &GateFacts) -> (r: GateOutcome)
    ensures
        (r.passed, r.details@) == validator_spec(t@, facts@),
{
    let exists = contains_name(&facts.validators, t);
    let mut d: Vec<char> = Vec::new();
    text::append_str(&mut d, "validator: ");
    text::append(&mut d, t);
    text::append_str(&mut d, " exists=");
    append_bool(&mut d, exists);
    outcome(exists, &d)
}

/// Evaluates gate `body`.
fn gate_chars(body: &Vec<char>, facts: &GateFacts, answers: &Vec<GateAnswer>) -> (r: GateOutcome)
    ensures
        (r.passed, r.details@) == gate_spec(body@, answers_view(answers@), facts@),
    decreases body@.len(), 1nat,
{
    let t = text::trim_chars(body);
    proof {
        text::lemma_trim_len(body@);
    }
    match gate_kind_exec(&t) {
        GateKind::When => compute_gate(&t, answers, false),
        GateKind::Unless => compute_gate(&t, answers, true),
        GateKind::After => after_gate(&t, facts),
        GateKind::Needs => needs_gate(&t, facts),
        GateKind::All => {
            let inner = head_rest_exec(&t, "all:", "all ");
            proof {
                reveal_strlit("all:");
                reveal_strlit("all ");
                lemma_head_rest_len(t@, "all:"@, "all "@);
            }
            let (n, len) = subs_outcome(&inner, facts, answers);
            let mut d: Vec<char> = Vec::new();
            text::append_str(&mut d, "all: ");
            text::append_decimal(&mut d, n);
            text::append_str(&mut d, "/");
            text::append_decimal(&mut d, len);
            text::append_str(&mut d, " passed");
            outcome(n == len, &d)
        },
        GateKind::Any => {
            let inner = head_rest_exec(&t, "any:", "any ");
            proof {
                reveal_strlit("any:");
                reveal_strlit("any ");
                lemma_head_rest_len(t@, "any:"@, "any "@);
            }
            let (n, len) = subs_outcome(&inner, facts, answers);
            let mut d: Vec<char> = Vec::new();
            text::append_str(&mut d, "any: ");
            text::append_decimal(&mut d, n);
            text::append_str(&mut d, "/");
            text::append_decimal(&mut d, len);
            text::append_str(&mut d, " passed");
            outcome(n > 0, &d)
        },
        GateKind::Not => {
            let inner = head_rest_exec(&t, "not:", "not ");
            proof {
                reveal_strlit("not:");
                reveal_strlit("not ");
                lemma_head_rest_len(t@, "not:"@, "not "@);
            }
            let p = gate_chars(&inner, facts, answers).passed;
            let mut d: Vec<char> = Vec::new();
            text::append_str(&mut d, "not: inner=");
            append_bool(&mut d, p);
            text::append_str(&mut d, " -> ");
            append_bool(&mut d, !p);
            outcome(!p, &d)
        },
        GateKind::Intake => intake_gate(&t, facts, answers),
        GateKind::Score => match answer_exec(answers, false, &t) {
            Some((p, d)) => outcome(p, &d),
            None => outcome(false, &Vec::new()),
        },
        GateKind::Result => result_gate(&t, facts),
        GateKind::Validator => validator_gate(&t, facts),
    }
}

/// How many of the sub-gates of `inner` passed, and how many there are.
fn subs_outcome(inner: &Vec<char>, facts: &GateFacts, answers: &Vec<GateAnswer>) -> (r: (usize, usize))
    ensures
        r.0 == count_true(
            subs_passed(sub_gates_spec(inner@), inner@.len(), answers_view(answers@), facts@),
        ),
        r.1 == sub_gates_spec(inner@).len(),
    decreases inner@.len(), 2nat,
{
    let subs = sub_gates_chars(inner);
    proof {
        lemma_sub_gates_len(inner@);
    }
    let ghost sv = text::views(subs@);
    let ghost av = answers_view(answers@);
    let ghost fv = facts@;
    let ghost bound = inner@.len();
    let mut n: usize = 0;
    let mut i: usize = 0;
    while i < subs.len()
        invariant
            i <= subs.len(),
            sv == text::views(subs@),
            sv == sub_gates_spec(inner@),
            bound == inner@.len(),
            av == answers_view(answers@),
            fv == facts@,
            forall|j: int| 0 <= j < sv.len() ==> #[trigger] sv[j].len() <= bound,
            n == count_true(subs_passed(sv.take(i as int), bound, av, fv)),
            n <= i,
        decreases subs.len() - i,
    {
        proof {
            assert(sv[i as int] == subs@[i as int]@);
            assert(subs@[i as int]@.len() <= inner@.len());
        }
        let r = gate_chars(&subs[i], facts, answers);
        proof {
            let pre = sv.take(i as int);
            let cur = sv.take(i + 1);
            assert(cur.drop_last() =~= pre);
            assert(cur.last() == sv[i as int]);
            let ps = subs_passed(pre, bound, av, fv);
            assert(subs_passed(cur, bound, av, fv) == ps.push(r.passed));
            assert(ps.push(r.passed).drop_last() =~= ps);
        }
        if r.passed {
            n = n + 1;
        }
        i = i + 1;
    }
    assert(sv.take(subs.len() as int) =~= sv);
    (n, subs.len())
}

fn push_query(out: &mut Vec<GateQuery>, compute: bool, q: &Vec<char>)
    ensures
        queries_view(final(out)@) == queries_view(old(out)@).push((compute, q@)),
{
    let ghost o = out@;
    if compute {
        out.push(GateQuery::Compute(text::to_string(q)));
    } else {
        out.push(GateQuery::Score(text::to_string(q)));
    }
    assert(queries_view(out@) =~= queries_view(o).push((compute, q@)));
}

/// Appends the queries of gate `body` to `out`.
fn queries_chars(body: &Vec<char>, out: &mut Vec<GateQuery>)
    ensures
        queries_view(final(out)@) == queries_view(old(out)@) + queries_spec(body@),
    decreases body@.len(), 1nat,
{
    let ghost o = queries_view(out@);
    let t = text::trim_chars(body);
    proof {
        text::lemma_trim_len(body@);
    }
    match gate_kind_exec(&t) {
        GateKind::When => {
            let e = text::string_chars(&strip_pipes(&text::to_string(&head_rest_exec(&t, "when:", "when ")))); 
            push_query(out, true, &e);
            assert(o.push((true, e@)) =~= o + seq![(true, e@)]);
        },
        GateKind::Unless => {
            let e = text::string_chars(
                &strip_pipes(&text::to_string(&head_rest_exec(&t, "unless:", "unless "))),
            );
            push_query(out, true, &e);
            assert(o.push((true, e@)) =~= o + seq![(true, e@)]);
        },
        GateKind::All => {
            let inner = head_rest_exec(&t, "all:", "all ");
            proof {
                reveal_strlit("all:");
                reveal_strlit("all ");
                lemma_head_rest_len(t@, "all:"@, "all "@);
            }
            subs_queries_exec(&inner, out);
        },
        GateKind::Any => {
            let inner = head_rest_exec(&t, "any:", "any ");
            proof {
                reveal_strlit("any:");
                reveal_strlit("any ");
                lemma_head_rest_len(t@, "any:"@, "any "@);
            }
            subs_queries_exec(&inner, out);
        },
        GateKind::Not => {
            let inner = head_rest_exec(&t, "not:", "not ");
            proof {
                reveal_strlit("not:");
                reveal_strlit("not ");
                lemma_head_rest_len(t@, "not:"@, "not "@);
            }
            queries_chars(&inner, out);
        },
        GateKind::Intake => {
            let (_, where_expr) = intake_parts_exec(&t);
            match where_expr {
                Some(e) => {
                    let x = text::string_chars(&strip_pipes(&text::to_string(&e)));
                    push_query(out, true, &x);
                    assert(o.push((true, x@)) =~= o + seq![(true, x@)]);
                },
                None => {
                    assert(o + Seq::<(bool, Seq<char>)>::empty() =~= o);
                },
            }
        },
        GateKind::Score => {
            push_query(out, false, &t);
            assert(o.push((false, t@)) =~= o + seq![(false, t@)]);
        },
        _ => {
            assert(o + Seq::<(bool, Seq<char>)>::empty() =~= o);
        },
    }
}

/// Appends the queries of the sub-gates of `inner` to `out`.
fn subs_queries_exec(inner: &Vec<char>, out: &mut Vec<GateQuery>)
    ensures
        queries_view(final(out)@) == queries_view(old(out)@) + subs_queries(
            sub_gates_spec(inner@),
            inner@.len(),
        ),
    decreases inner@.len(), 2nat,
{
    let subs = sub_gates_chars(inner);
    proof {
        lemma_sub_gates_len(inner@);
    }
    let ghost sv = text::views(subs@);
    let ghost o = queries_view(out@);
    let ghost bound = inner@.len();
    let mut i: usize = 0;
    assert(o + subs_queries(sv.take(0), bound) =~= o);
    while i < subs.len()
        invariant
            i <= subs.len(),
            sv == text::views(subs@),
            sv == sub_gates_spec(inner@),
            bound == inner@.len(),
            forall|j: int| 0 <= j < sv.len() ==> #[trigger] sv[j].len() <= bound,
            queries_view(out@) == o + subs_queries(sv.take(i as int), bound),
        decreases subs.len() - i,
    {
        proof {
            assert(sv[i as int] == subs@[i as int]@);
            assert(subs@[i as int]@.len() <= inner@.len());
        }
        queries_chars(&subs[i], out);
        proof {
            let pre = sv.take(i as int);
            let cur = sv.take(i + 1);
            assert(cur.drop_last() =~= pre);
            assert(cur.last() == sv[i as int]);
            assert(subs_queries(cur, bound) == subs_queries(pre, bound) + queries_spec(sv[i as int]));
            assert(o + subs_queries(pre, bound) + queries_spec(sv[i as int]) =~= o + (subs_queries(
                pre,
                bound,
            ) + queries_spec(sv[i as int])));
        }
        i = i + 1;
    }
    assert(sv.take(subs.len() as int) =~= sv);
}

/// Evaluates a gate body against the facts of a context and the caller's
/// answers to the body's queries (see `gate_queries`). A query left
/// unanswered counts as failed.
pub fn eval_gate(gate_body: &str, facts: &GateFacts, answers: &Vec<GateAnswer>) -> (r: GateOutcome)
    ensures
        (r.passed, r.details@) == gate_spec(gate_body@, answers_view(answers@), facts@),
{
    gate_chars(&text::str_chars(gate_body), facts, answers)
}

/// The compute expressions and score gates that evaluating a gate body
/// asks about, in order.
pub fn gate_queries(gate_body: &str) -> (r: Vec<GateQuery>)
    ensures
        queries_view(r@) == queries_spec(gate_body@),
{
    let mut out: Vec<GateQuery> = Vec::new();
    assert(queries_view(out@) =~= Seq::<(bool, Seq<char>)>::empty());
    queries_chars(&text::str_chars(gate_body), &mut out);
    assert(Seq::<(bool, Seq<char>)>::empty() + queries_spec(gate_body@) =~= queries_spec(gate_body@));
    out
}

proof fn lemma_count_true(ps: Seq<bool>)
    ensures
        count_true(ps) <= ps.len(),
        count_true(ps) == ps.len() <==> forall|i: int| 0 <= i < ps.len() ==> #[trigger] ps[i],
        count_true(ps) > 0 <==> exists|i: int| 0 <= i < ps.len() && #[trigger] ps[i],
    decreases ps.len(),
{
    if ps.len() > 0 {
        let q = ps.drop_last();
        lemma_count_true(q);
        assert forall|i: int| 0 <= i < q.len() implies #[trigger] q[i] == ps[i] by {}
        if count_true(ps) == ps.len() {
            assert forall|i: int| 0 <= i < ps.len() implies #[trigger] ps[i] by {
                if i < q.len() {
                    assert(q[i]);
                }
            }
        }
        if forall|i: int| 0 <= i < ps.len() ==> #[trigger] ps[i] {
            assert(ps[ps.len() - 1]);
            assert forall|i: int| 0 <= i < q.len() implies #[trigger] q[i] by {
                assert(ps[i]);
            }
        }
        if exists|i: int| 0 <= i < ps.len() && #[trigger] ps[i] {
            let i = choose|i: int| 0 <= i < ps.len() && #[trigger] ps[i];
            if i < q.len() {
                assert(q[i]);
            }
        }
        if count_true(ps) > 0 {
            if ps.last() {
                assert(ps[ps.len() - 1]);
            } else {
                let j = choose|j: int| 0 <= j < q.len() && #[trigger] q[j];
                assert(ps[j]);
            }
        }
    }
}

proof fn lemma_subs_passed(
    subs: Seq<Seq<char>>,
    bound: nat,
    answers: Seq<(bool, Seq<char>, bool, Seq<char>)>,
    f: FactsView,
)
    requires
        forall|j: int| 0 <= j < subs.len() ==> #[trigger] subs[j].len() <= bound,
    ensures
        subs_passed(subs, bound, answers, f).len() == subs.len(),
        forall|i: int|
            0 <= i < subs.len() ==> #[trigger] subs_passed(subs, bound, answers, f)[i] == gate_spec(
                subs[i],
                answers,
                f,
            ).0,
    decreases subs.len(),
{
    if subs.len() > 0 {
        let q = subs.drop_last();
        assert(subs.last().len() <= bound);
        assert forall|j: int| 0 <= j < q.len() implies #[trigger] q[j].len() <= bound by {
            assert(q[j] == subs[j]);
        }
        lemma_subs_passed(q, bound, answers, f);
        assert forall|i: int| 0 <= i < subs.len() implies #[trigger] subs_passed(
            subs,
            bound,
            answers,
            f,
        )[i] == gate_spec(subs[i], answers, f).0 by {
            if i < q.len() {
                assert(subs_passed(q, bound, answers, f)[i] == gate_spec(q[i], answers, f).0);
            }
        }
    }
}

/// An `intake` gate passes only when its form was submitted (the named form
/// is among the submitted ones; with no name, any form is), and then,
/// when it has a `where:` expression, exactly when that expression (without
/// its pipes) was answered true; without one, it passes.
pub proof fn lemma_intake_gate(
    body: Seq<char>,
    answers: Seq<(bool, Seq<char>, bool, Seq<char>)>,
    f: FactsView,
)
    requires
        gate_kind(trim(body)) == GateKind::Intake,
    ensures
        ({
            let (name, where_expr) = intake_parts(trim(body));
            let submitted = if name.len() == 0 {
                f.forms.len() > 0
            } else {
                f.forms.contains(name)
            };
            &&& !submitted ==> !gate_spec(body, answers, f).0
            &&& submitted && where_expr is None ==> gate_spec(body, answers, f).0
            &&& submitted && where_expr is Some ==> (gate_spec(body, answers, f).0 == match answer_for(
                answers,
                true,
                strip_pipes_spec(where_expr->Some_0),
            ) {
                Some((p, _)) => p,
                None => false,
            })
        }),
{
}

/// An `all:` gate passes exactly when each of its sub-gates passes, an
/// `any:` gate exactly when at least one of them does, and a `not:` gate
/// exactly when its inner gate does not.
pub proof fn lemma_composite_gates(
    body: Seq<char>,
    answers: Seq<(bool, Seq<char>, bool, Seq<char>)>,
    f: FactsView,
)
    ensures
        ({
            let t = trim(body);
            let subs = sub_gates_spec(head_rest(t, "all:"@, "all "@));
            gate_kind(t) == GateKind::All ==> (gate_spec(body, answers, f).0 <==> forall|i: int|
                0 <= i < subs.len() ==> #[trigger] gate_spec(subs[i], answers, f).0)
        }),
        ({
            let t = trim(body);
            let subs = sub_gates_spec(head_rest(t, "any:"@, "any "@));
            gate_kind(t) == GateKind::Any ==> (gate_spec(body, answers, f).0 <==> exists|i: int|
                0 <= i < subs.len() && #[trigger] gate_spec(subs[i], answers, f).0)
        }),
        ({
            let t = trim(body);
            gate_kind(t) == GateKind::Not ==> gate_spec(body, answers, f).0 == !gate_spec(
                head_rest(t, "not:"@, "not "@),
                answers,
                f,
            ).0
        }),
{
    let t = trim(body);
    if gate_kind(t) == GateKind::All || gate_kind(t) == GateKind::Any {
        let inner = if gate_kind(t) == GateKind::All {
            head_rest(t, "all:"@, "all "@)
        } else {
            head_rest(t, "any:"@, "any "@)
        };
        let subs = sub_gates_spec(inner);
        lemma_sub_gates_len(inner);
        lemma_subs_passed(subs, inner.len(), answers, f);
        let ps = subs_passed(subs, inner.len(), answers, f);
        lemma_count_true(ps);
        assert forall|i: int| 0 <= i < subs.len() implies #[trigger] ps[i] == gate_spec(
            subs[i],
            answers,
            f,
        ).0 by {}
        if gate_kind(t) == GateKind::All {
            if gate_spec(body, answers, f).0 {
                assert forall|i: int| 0 <= i < subs.len() implies #[trigger] gate_spec(
                    subs[i],
                    answers,
                    f,
                ).0 by {
                    assert(ps[i]);
                }
            }
            if forall|i: int| 0 <= i < subs.len() ==> #[trigger] gate_spec(subs[i], answers, f).0 {
                assert forall|i: int| 0 <= i < ps.len() implies #[trigger] ps[i] by {
                    assert(gate_spec(subs[i], answers, f).0);
                }
            }
        } else {
            if gate_spec(body, answers, f).0 {
                let i = choose|i: int| 0 <= i < ps.len() && #[trigger] ps[i];
                assert(gate_spec(subs[i], answers, f).0);
            }
            if exists|i: int| 0 <= i < subs.len() && #[trigger] gate_spec(subs[i], answers, f).0 {
                let i = choose|i: int| 0 <= i < subs.len() && #[trigger] gate_spec(subs[i], answers, f).0;
                assert(ps[i]);
            }
        }
    }
}

} // verus!
