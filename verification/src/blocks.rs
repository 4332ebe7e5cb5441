//! Block structure of a document: which construct a line opens, and the
//! recursive descent over indented blocks.
use crate::line;
use crate::parse;
use crate::parse::{ParseCtx, MAX_DEPTH, header_of, body_scan};
use crate::spans;
use crate::text;
use crate::text::{starts_with, ends_with, trim};
use crate::types::{
    Bold, CodeBlock, Compute, Conditional, Define, EmbedMarker, Escalate, Flow, FormDef,
    FormProjectionDef, FormStorageDef, GateDef, Group, ModDef, ModInvoke, Mutate, Node, Prose,
    RecallOp, Remember, Snap, Spawn, StatesDef, Task, ValidateDef, AttachmentMeta, Webhook, FilesDef,
    PolicyDef, PolicyRule, Gate, SyncDef, GitOp, CheckDef, EntityDef, EntityField, UseBlock, ServeDef, MetricDef,
};
use vstd::prelude::*;

verus! {

/// The construct that a line opens, decided by its first characters.
#[derive(PartialEq, Eq, Structural, Clone, Copy, Debug)]
pub enum LineKind {
    Blank,
    Code,
    Comment,
    Divider,
    SpawnParallel,
    SpawnSequential,
    Group,
    Define,
    Mutate,
    Delete,
    QueryBlock,
    InlineQuery,
    Flow,
    States,
    Validate,
    Form,
    ModDef,
    ModInvoke,
    Snap,
    Diff,
    History,
    Status,
    Conditional,
    Bold,
    Remember,
    Recall,
    Embed,
    GateDef,
    Escalate,
    DirectInvoke,
    Task,
    Variable,
    Routine,
    Webhook,
    Files,
    Policy,
    Sync,
    Git,
    Check,
    Entity,
    Use,
    Serve,
    Metric,
    Lattice,
    Scope,
    Prose,
}

pub open spec fn all_dashes(s: Seq<char>) -> bool {
    forall|i: int| 0 <= i < s.len() ==> s[i] == '-'
}

pub open spec fn is_divider(s: Seq<char>) -> bool {
    s == "---"@ || (starts_with(s, "---"@) && all_dashes(s))
}

pub open spec fn is_bold_line(s: Seq<char>) -> bool {
    starts_with(s, "**"@) && s.len() >= 5 && ends_with(s, "**"@)
}

/// `## Metric: Name`.
pub open spec fn is_metric_header(s: Seq<char>) -> bool {
    starts_with(s, "## Metric:"@) || starts_with(s, "## Metric :"@)
}

/// `## Entity: Name`.
pub open spec fn is_entity_header(s: Seq<char>) -> bool {
    starts_with(s, "## Entity:"@) || starts_with(s, "## Entity :"@)
}

/// Keywords of constructs that this library reads as plain prose lines:
/// `project:` and `commands:` ...
pub open spec fn is_prose_keyword3(s: Seq<char>) -> bool {
    ||| starts_with(s, "project:"@)
    ||| starts_with(s, "commands:"@)
}

/// A `%Name` scope line.
pub open spec fn is_scope_line(s: Seq<char>) -> bool {
    starts_with(s, "%"@) && s.len() > 1
}

/// Keywords of the `issue:` and `comment:` threads, which this library also
/// reads as plain prose lines.
pub open spec fn is_prose_keyword7(s: Seq<char>) -> bool {
    ||| starts_with(s, "issue:"@)
    ||| starts_with(s, "comment:"@)
}

/// The kind of construct that a trimmed line opens; `s` is the line
/// without its trailing comment. The checks run in this order.
pub open spec fn kind_of(t: Seq<char>, s: Seq<char>) -> LineKind {
    if t.len() == 0 {
        LineKind::Blank
    } else if starts_with(s, "```"@) {
        LineKind::Code
    } else if starts_with(t, "//"@) {
        LineKind::Comment
    } else if is_divider(s) {
        LineKind::Divider
    } else if s == "+"@ {
        LineKind::SpawnParallel
    } else if s == "++"@ {
        LineKind::SpawnSequential
    } else if is_entity_header(s) {
        LineKind::Entity
    } else if is_metric_header(s) {
        LineKind::Metric
    } else if starts_with(s, "#"@) && !starts_with(s, "#("@) {
        LineKind::Group
    } else if starts_with(s, "define:@"@) || starts_with(s, "define:$"@) {
        LineKind::Define
    } else if starts_with(s, "mutate:@"@) || starts_with(s, "mutate:$"@) {
        LineKind::Mutate
    } else if starts_with(s, "delete:@"@) || starts_with(s, "delete:$"@) {
        LineKind::Delete
    } else if starts_with(s, "query:"@) {
        LineKind::QueryBlock
    } else if starts_with(s, "? "@) {
        LineKind::InlineQuery
    } else if s == "flow:"@ {
        LineKind::Flow
    } else if s == "states:"@ {
        LineKind::States
    } else if starts_with(s, "validate "@) && ends_with(s, ":"@) {
        LineKind::Validate
    } else if starts_with(s, "check:"@) && !starts_with(s, "check:@"@) {
        LineKind::Check
    } else if starts_with(s, "form:"@) && !starts_with(s, "form:install"@) {
        LineKind::Form
    } else if starts_with(s, "mod:$"@) {
        LineKind::ModDef
    } else if starts_with(s, "mod:"@) {
        LineKind::ModInvoke
    } else if is_prose_keyword3(s) {
        LineKind::Prose
    } else if starts_with(s, "serve:"@) {
        LineKind::Serve
    } else if starts_with(s, "sync:"@) {
        LineKind::Sync
    } else if starts_with(s, "git:"@) {
        LineKind::Git
    } else {
        kind_of_rest(s)
    }
}

pub open spec fn kind_of_rest(s: Seq<char>) -> LineKind {
    if starts_with(s, "snap:"@) {
        LineKind::Snap
    } else if starts_with(s, "diff:"@) {
        LineKind::Diff
    } else if starts_with(s, "history:"@) {
        LineKind::History
    } else if starts_with(s, "status:"@) && text::contains(s, "/"@) {
        LineKind::Status
    } else if starts_with(s, "if "@) && ends_with(s, ":"@) {
        LineKind::Conditional
    } else if is_bold_line(s) {
        LineKind::Bold
    } else if starts_with(s, "webhook:"@) {
        LineKind::Webhook
    } else if starts_with(s, "remember:"@) {
        LineKind::Remember
    } else if starts_with(s, "recall:"@) {
        LineKind::Recall
    } else if starts_with(s, "^"@) && s.len() > 1 {
        LineKind::Embed
    } else if starts_with(s, "files:"@) {
        LineKind::Files
    } else if starts_with(s, "policy:"@) {
        LineKind::Policy
    } else if starts_with(s, "gate:"@) && !starts_with(s, "gate:name"@) {
        LineKind::GateDef
    } else if starts_with(s, "escalate:"@) {
        LineKind::Escalate
    } else if starts_with(s, "use $"@) || starts_with(s, "use @"@) {
        LineKind::Use
    } else if is_scope_line(s) {
        LineKind::Scope
    } else if starts_with(s, "$"@) {
        LineKind::DirectInvoke
    } else if is_prose_keyword7(s) {
        LineKind::Prose
    } else if line::is_task_line_spec(s) {
        LineKind::Task
    } else if line::variable_spec(s) is Some {
        LineKind::Variable
    } else if starts_with(s, "routine:"@) {
        LineKind::Routine
    } else if lattice_line(s) != 0 {
        LineKind::Lattice
    } else {
        LineKind::Prose
    }
}

/// Which lattice section a line opens: `lattice_validates:` 1,
/// `lattice_constraint:` 2, `lattice_schema:` 3, `lattice_frontier:` 4,
/// `pressure_effect:` 5, `unit_cell:` 6, `symmetry:` 7; 0 for none.
pub open spec fn lattice_line(s: Seq<char>) -> int {
    if starts_with(s, "lattice_validates:"@) {
        1
    } else if starts_with(s, "lattice_constraint:"@) {
        2
    } else if starts_with(s, "lattice_schema:"@) {
        3
    } else if starts_with(s, "lattice_frontier:"@) {
        4
    } else if starts_with(s, "pressure_effect:"@) {
        5
    } else if starts_with(s, "unit_cell:"@) {
        6
    } else if starts_with(s, "symmetry:"@) {
        7
    } else {
        0
    }
}

/// The indentation that the block of a lattice line must reach: four
/// more than the line's own.
pub open spec fn lattice_mi(line: Seq<char>) -> nat {
    let i = text::indent_of(line);
    if i + 4 <= usize::MAX {
        (i + 4) as nat
    } else {
        usize::MAX as nat
    }
}

/// The nesting level of a lattice line's block: unit cells and symmetries
/// go one level deeper, the other sections start again from zero.
pub open spec fn lattice_nest(k: int, nest: nat) -> nat {
    if k >= 6 {
        nest + 1
    } else {
        0
    }
}

/// The kind of the line at the current position of the source.
pub open spec fn kind_at(lines: Seq<Seq<char>>, i: int) -> LineKind {
    let t = trim(lines[i]);
    kind_of(t, line::strip_comment_spec(t))
}

/// Whether a node is of the kind that a line of kind `k` produces.
pub open spec fn kind_matches(k: LineKind, n: Node) -> bool {
    match n {
        Node::Group(_) => k == LineKind::Group,
        Node::Task(_) => k == LineKind::Task,
        Node::Prose(_) => k == LineKind::Prose,
        Node::Comment(_) => k == LineKind::Comment,
        Node::Spawn(sp) => (k == LineKind::SpawnParallel && sp == Spawn::Parallel) || (k
            == LineKind::SpawnSequential && sp == Spawn::Sequential),
        Node::Divider => k == LineKind::Divider,
        Node::Define(_) => k == LineKind::Define,
        Node::Mutate(_) => k == LineKind::Mutate,
        Node::Delete(_) => k == LineKind::Delete,
        Node::Query(_) => k == LineKind::QueryBlock || k == LineKind::InlineQuery,
        Node::Variable(_) => k == LineKind::Variable,
        Node::Flow(_) => k == LineKind::Flow,
        Node::States(_) => k == LineKind::States,
        Node::Validate(_) => k == LineKind::Validate,
        Node::Form(_) => k == LineKind::Form,
        Node::ModDef(_) => k == LineKind::ModDef,
        Node::ModInvoke(_) => k == LineKind::ModInvoke || k == LineKind::DirectInvoke,
        Node::Conditional(_) => k == LineKind::Conditional,
        Node::Snap(_) => k == LineKind::Snap,
        Node::Diff(_) => k == LineKind::Diff,
        Node::History(_) => k == LineKind::History,
        Node::StatusDef(_) => k == LineKind::Status,
        Node::Routine(_) => k == LineKind::Routine,
        Node::Bold(_) => k == LineKind::Bold,
        Node::Remember(_) => k == LineKind::Remember,
        Node::Recall(_) => k == LineKind::Recall,
        Node::EmbedMarker(_) => k == LineKind::Embed,
        Node::Escalate(_) => k == LineKind::Escalate,
        Node::GateDef(_) => k == LineKind::GateDef,
        Node::CodeBlock(_) => k == LineKind::Code,
        Node::Webhook(_) => k == LineKind::Webhook,
        Node::FilesDef(_) => k == LineKind::Files,
        Node::PolicyDef(_) => k == LineKind::Policy,
        Node::SyncDef(_) => k == LineKind::Sync,
        Node::Git(_) => k == LineKind::Git,
        Node::Check(_) => k == LineKind::Check,
        Node::EntityDef(_) => k == LineKind::Entity,
        Node::UseBlock(_) => k == LineKind::Use,
        Node::Serve(_) => k == LineKind::Serve,
        Node::MetricDef(_) => k == LineKind::Metric,
        Node::LatticeValidates(_) | Node::LatticeConstraint(_) | Node::LatticeSchema(_)
        | Node::LatticeFrontier(_) | Node::PressureEffect(_) | Node::UnitCell(_) | Node::Symmetry(_) => k
            == LineKind::Lattice,
        Node::ProjectScope(_) => k == LineKind::Scope,
    }
}

fn all_dashes_exec(s: &Vec<char>) -> (b: bool)
    ensures
        b == all_dashes(s@),
{
    let mut i: usize = 0;
    while i < s.len()
        invariant
            i <= s.len(),
            forall|j: int| 0 <= j < i ==> s@[j] == '-',
        decreases s.len() - i,
    {
        if s[i] != '-' {
            return false;
        }
        i = i + 1;
    }
    true
}

fn is_bold_exec(s: &Vec<char>) -> (b: bool)
    ensures
        b == is_bold_line(s@),
{
    text::starts_with_str(s, "**") && s.len() >= 5 && text::ends_with_str(s, "**")
}

fn prose_keyword3_exec(s: &Vec<char>) -> (b: bool)
    ensures
        b == is_prose_keyword3(s@),
{
    text::starts_with_str(s, "project:") || text::starts_with_str(s, "commands:")
}

fn scope_line_exec(s: &Vec<char>) -> (b: bool)
    ensures
        b == is_scope_line(s@),
{
    text::starts_with_str(s, "%") && s.len() > 1
}

/// Decides the kind of a trimmed line `t` whose comment-free text is `s`.
pub fn classify(t: &Vec<char>, s: &Vec<char>) -> (k: LineKind)
    ensures
        k == kind_of(t@, s@),
{
    if t.len() == 0 {
        LineKind::Blank
    } else if text::starts_with_str(s, "```") {
        LineKind::Code
    } else if text::starts_with_str(t, "//") {
        LineKind::Comment
    } else if text::eq_str(s, "---") || (text::starts_with_str(s, "---") && all_dashes_exec(s)) {
        LineKind::Divider
    } else if text::eq_str(s, "+") {
        LineKind::SpawnParallel
    } else if text::eq_str(s, "++") {
        LineKind::SpawnSequential
    } else if text::starts_with_str(s, "## Entity:") || text::starts_with_str(s, "## Entity :") {
        LineKind::Entity
    } else if text::starts_with_str(s, "## Metric:") || text::starts_with_str(s, "## Metric :") {
        LineKind::Metric
    } else if text::starts_with_str(s, "#") && !text::starts_with_str(s, "#(") {
        LineKind::Group
    } else if text::starts_with_str(s, "define:@") || text::starts_with_str(s, "define:$") {
        LineKind::Define
    } else if text::starts_with_str(s, "mutate:@") || text::starts_with_str(s, "mutate:$") {
        LineKind::Mutate
    } else if text::starts_with_str(s, "delete:@") || text::starts_with_str(s, "delete:$") {
        LineKind::Delete
    } else if text::starts_with_str(s, "query:") {
        LineKind::QueryBlock
    } else if text::starts_with_str(s, "? ") {
        LineKind::InlineQuery
    } else if text::eq_str(s, "flow:") {
        LineKind::Flow
    } else if text::eq_str(s, "states:") {
        LineKind::States
    } else if text::starts_with_str(s, "validate ") && text::ends_with_str(s, ":") {
        LineKind::Validate
    } else if text::starts_with_str(s, "check:") && !text::starts_with_str(s, "check:@") {
        LineKind::Check
    } else if text::starts_with_str(s, "form:") && !text::starts_with_str(s, "form:install") {
        LineKind::Form
    } else if text::starts_with_str(s, "mod:$") {
        LineKind::ModDef
    } else if text::starts_with_str(s, "mod:") {
        LineKind::ModInvoke
    } else if prose_keyword3_exec(s) {
        LineKind::Prose
    } else if text::starts_with_str(s, "serve:") {
        LineKind::Serve
    } else if text::starts_with_str(s, "sync:") {
        LineKind::Sync
    } else if text::starts_with_str(s, "git:") {
        LineKind::Git
    } else {
        classify_rest(s)
    }
}

fn classify_rest(s: &Vec<char>) -> (k: LineKind)
    ensures
        k == kind_of_rest(s@),
{
    if text::starts_with_str(s, "snap:") {
        LineKind::Snap
    } else if text::starts_with_str(s, "diff:") {
        LineKind::Diff
    } else if text::starts_with_str(s, "history:") {
        LineKind::History
    } else if text::starts_with_str(s, "status:") && text::contains_str(s, "/") {
        LineKind::Status
    } else if text::starts_with_str(s, "if ") && text::ends_with_str(s, ":") {
        LineKind::Conditional
    } else if is_bold_exec(s) {
        LineKind::Bold
    } else if text::starts_with_str(s, "webhook:") {
        LineKind::Webhook
    } else if text::starts_with_str(s, "remember:") {
        LineKind::Remember
    } else if text::starts_with_str(s, "recall:") {
        LineKind::Recall
    } else if text::starts_with_str(s, "^") && s.len() > 1 {
        LineKind::Embed
    } else if text::starts_with_str(s, "files:") {
        LineKind::Files
    } else if text::starts_with_str(s, "policy:") {
        LineKind::Policy
    } else if text::starts_with_str(s, "gate:") && !text::starts_with_str(s, "gate:name") {
        LineKind::GateDef
    } else if text::starts_with_str(s, "escalate:") {
        LineKind::Escalate
    } else if text::starts_with_str(s, "use $") || text::starts_with_str(s, "use @") {
        LineKind::Use
    } else if scope_line_exec(s) {
        LineKind::Scope
    } else if text::starts_with_str(s, "$") {
        LineKind::DirectInvoke
    } else if text::starts_with_str(s, "issue:") || text::starts_with_str(s, "comment:") {
        LineKind::Prose
    } else if line::is_task_line(s) {
        LineKind::Task
    } else if line::try_parse_variable(s).is_some() {
        LineKind::Variable
    } else if text::starts_with_str(s, "routine:") {
        LineKind::Routine
    } else if lattice_line_exec(s) != 0 {
        LineKind::Lattice
    } else {
        LineKind::Prose
    }
}

fn lattice_line_exec(s: &Vec<char>) -> (r: u8)
    ensures
        r as int == lattice_line(s@),
{
    if text::starts_with_str(s, "lattice_validates:") {
        1
    } else if text::starts_with_str(s, "lattice_constraint:") {
        2
    } else if text::starts_with_str(s, "lattice_schema:") {
        3
    } else if text::starts_with_str(s, "lattice_frontier:") {
        4
    } else if text::starts_with_str(s, "pressure_effect:") {
        5
    } else if text::starts_with_str(s, "unit_cell:") {
        6
    } else if text::starts_with_str(s, "symmetry:") {
        7
    } else {
        0
    }
}


// ── Specifications of block bodies ──────────────────────────────

/// The lines of a fenced code block from line `i` up to the closing fence,
/// and the index of the line after that fence.
pub open spec fn fence_scan(lines: Seq<Seq<char>>, i: int) -> (Seq<Seq<char>>, int)
    decreases lines.len() - i,
{
    if i < 0 || i >= lines.len() {
        (Seq::empty(), i)
    } else if starts_with(trim(lines[i]), "```"@) {
        (Seq::empty(), i + 1)
    } else {
        let (r, e) = fence_scan(lines, i + 1);
        (seq![lines[i]] + r, e)
    }
}

pub proof fn lemma_fence_scan(lines: Seq<Seq<char>>, i: int)
    requires
        0 <= i <= lines.len(),
    ensures
        i <= fence_scan(lines, i).1 <= lines.len(),
    decreases lines.len() - i,
{
    if i < lines.len() && !starts_with(trim(lines[i]), "```"@) {
        lemma_fence_scan(lines, i + 1);
    }
}

/// The language of a code fence, if the opening line names one.
pub open spec fn fence_lang(raw: Seq<char>) -> Option<Seq<char>> {
    let l = text::trim_start_matches(trim(raw), "`"@);
    if l.len() == 0 {
        None
    } else {
        Some(l)
    }
}

/// `define:@Entity :atom from @Path`: entity, atoms, parent scope, mod scope
/// and workspace scope.
pub open spec fn define_header(stripped: Seq<char>) -> (
    Seq<char>,
    Seq<(Seq<char>, Option<Seq<char>>)>,
    Option<Seq<char>>,
    Option<Seq<char>>,
    Option<Seq<char>>,
) {
    let rest = text::trim_start_matches(stripped, "define:"@);
    let (ms, ws, er) = line::entity_scope_spec(rest);
    let head = match text::find(er, " from "@) {
        Some(j) => er.take(j),
        None => er,
    };
    match text::find(er, " from @"@) {
        Some(i) => (
            line::name_and_atoms_spec(er.take(i)).0,
            line::name_and_atoms_spec(head).1,
            Some(trim(er.skip(i + 6))),
            ms,
            ws,
        ),
        None => (line::name_and_atoms_spec(er).0, line::name_and_atoms_spec(head).1, None, ms, ws),
    }
}

/// `if |expr|:` or `if ||expr||:`: the expression and whether it is live.
pub open spec fn condition_spec(c: Seq<char>) -> (Seq<char>, bool) {
    if starts_with(c, "||"@) && ends_with(c, "||"@) && c.len() >= 4 {
        (c.subrange(2, c.len() - 2), true)
    } else if starts_with(c, "|"@) && ends_with(c, "|"@) && c.len() >= 2 {
        (c.subrange(1, c.len() - 1), false)
    } else {
        (c, false)
    }
}

/// The text of an `if` line between the keyword and the final colons.
pub open spec fn condition_text(stripped: Seq<char>) -> Seq<char> {
    trim(text::trim_end_matches(text::trim_start_matches(stripped, "if "@), ":"@))
}

pub open spec fn paren_pred() -> spec_fn(char) -> bool {
    |c: char| c == '(' || c == ')'
}

/// A text without its leading and trailing parentheses.
pub open spec fn trim_parens(s: Seq<char>) -> Seq<char> {
    let a = s.skip(text::lead_count(s, paren_pred()) as int);
    a.take(a.len() - text::trail_count(a, paren_pred()))
}

/// `$Name.method(args)`: name, method and arguments.
pub open spec fn direct_invoke_spec(stripped: Seq<char>) -> (Seq<char>, Option<Seq<char>>, Option<Seq<char>>) {
    let rest = text::trim_start_matches(stripped, "$"@);
    match text::find(rest, "("@) {
        Some(p) => {
            let prefix = rest.take(p);
            let args = trim_parens(rest.skip(p));
            match text::find(prefix, "."@) {
                Some(d) => (prefix.take(d), Some(prefix.skip(d + 1)), Some(args)),
                None => (prefix, None, Some(args)),
            }
        },
        None => match text::find(rest, "."@) {
            Some(d) => (rest.take(d), Some(rest.skip(d + 1)), None),
            None => (rest, None, None),
        },
    }
}

fn trim_parens_exec(s: &Vec<char>) -> (r: Vec<char>)
    ensures
        r@ == trim_parens(s@),
{
    let mut i: usize = 0;
    while i < s.len() && (s[i] == '(' || s[i] == ')')
        invariant
            i <= s.len(),
            forall|j: int| 0 <= j < i ==> #[trigger] paren_pred()(s@[j]),
        decreases s.len() - i,
    {
        i = i + 1;
    }
    proof {
        text::lemma_lead_count(s@, paren_pred(), i as int);
    }
    let sl = s.len();
    let a = text::slice_of(s, i, sl);
    assert(a@ =~= s@.skip(i as int));
    let mut k: usize = a.len();
    while k > 0 && (a[k - 1] == '(' || a[k - 1] == ')')
        invariant
            k <= a.len(),
            forall|j: int| k <= j < a.len() ==> #[trigger] paren_pred()(a@[j]),
        decreases k,
    {
        k = k - 1;
    }
    proof {
        text::lemma_trail_count(a@, paren_pred(), a.len() - k);
    }
    text::slice_of(&a, 0, k)
}

/// Builds the node of a `$Name.method(args)` line.
pub fn direct_invoke_node(stripped: &Vec<char>) -> (r: ModInvoke)
    ensures
        (r.name@, line::opt_str_view(r.method), line::opt_str_view(r.args)) == direct_invoke_spec(stripped@),
{
    let rest = text::trim_start_matches_str(stripped, "$");
    match text::find_str(&rest, "(") {
        Some(p) => {
            proof {
                text::lemma_find_from(rest@, "("@, 0);
            }
            let rl = rest.len();
            let prefix = text::slice_of(&rest, 0, p);
            let tail = text::slice_of(&rest, p, rl);
            assert(tail@ =~= rest@.skip(p as int));
            let args = trim_parens_exec(&tail);
            match text::find_str(&prefix, ".") {
                Some(d) => {
                    proof {
                        text::lemma_find_from(prefix@, "."@, 0);
                        reveal_strlit(".");
                    }
                    let pl = prefix.len();
                    let m = text::slice_of(&prefix, d + 1, pl);
                    assert(m@ =~= prefix@.skip(d + 1));
                    ModInvoke {
                        name: text::sub_string(&prefix, 0, d),
                        method: Some(text::to_string(&m)),
                        args: Some(text::to_string(&args)),
                    }
                },
                None => ModInvoke {
                    name: text::to_string(&prefix),
                    method: None,
                    args: Some(text::to_string(&args)),
                },
            }
        },
        None => match text::find_str(&rest, ".") {
            Some(d) => {
                proof {
                    text::lemma_find_from(rest@, "."@, 0);
                    reveal_strlit(".");
                }
                let rl = rest.len();
                let m = text::slice_of(&rest, d + 1, rl);
                assert(m@ =~= rest@.skip(d + 1));
                ModInvoke {
                    name: text::sub_string(&rest, 0, d),
                    method: Some(text::to_string(&m)),
                    args: None,
                }
            },
            None => ModInvoke { name: text::to_string(&rest), method: None, args: None },
        },
    }
}

fn condition_exec(c: &Vec<char>) -> (r: (Vec<char>, bool))
    ensures
        (r.0@, r.1) == condition_spec(c@),
{
    let n = c.len();
    if text::starts_with_str(c, "||") && text::ends_with_str(c, "||") && n >= 4 {
        (text::slice_of(c, 2, n - 2), true)
    } else if text::starts_with_str(c, "|") && text::ends_with_str(c, "|") && n >= 2 {
        (text::slice_of(c, 1, n - 1), false)
    } else {
        (c.clone(), false)
    }
}


/// `mutate:@Entity:id {gate}`: entity, id, gate, mod scope and workspace
/// scope.
pub open spec fn mutate_header(stripped: Seq<char>) -> (
    Seq<char>,
    Option<Seq<char>>,
    Option<(Seq<char>, Option<Seq<char>>)>,
    Option<Seq<char>>,
    Option<Seq<char>>,
) {
    let rest = text::trim_start_matches(stripped, "mutate:"@);
    let (ms, ws, er) = line::entity_scope_spec(rest);
    let gs = line::gates_spec(er);
    let gate = if gs.len() > 0 {
        Some(gs[0])
    } else {
        None
    };
    let clean = line::remove_gates_spec(er);
    match text::split_once(clean, ":"@) {
        Some((e, i)) => (e, if trim(i).len() > 0 {
            Some(trim(i))
        } else {
            None
        }, gate, ms, ws),
        None => (clean, None, gate, ms, ws),
    }
}

/// Whether a mutate node is what its header and body lines say.
pub open spec fn mutate_matches(m: Mutate, stripped: Seq<char>, body: Seq<Seq<char>>) -> bool {
    let (entity, id, gate, ms, ws) = mutate_header(stripped);
    &&& m.entity@ == entity
    &&& line::opt_str_view(m.id) == id
    &&& (match m.gate {
        Some(g) => gate == Some(line::gate_view(g)),
        None => gate is None,
    })
    &&& line::opt_str_view(m.mod_scope) == ms
    &&& line::opt_str_view(m.workspace_scope) == ws
    &&& if id is None && body.len() > 0 && parse::is_batch_format_spec(body) {
        &&& m.fields@.len() == 0
        &&& m.batch matches Some(b) && parse::records_view(b@) == parse::batch_records_spec(body)
    } else {
        &&& m.batch is None
        &&& parse::pairs_view(m.fields@) == parse::kv_pairs(body)
    }
}

/// The parts of a form body: schema version, layout, pages, storage
/// (canonical, entity, duckdb), projections and fields.
pub struct FormView {
    pub schema_version: Option<u32>,
    pub ui_layout: Option<Seq<char>>,
    pub ui_pages: Seq<Seq<char>>,
    pub canonical: Option<Seq<char>>,
    pub entity: Option<Seq<char>>,
    pub duckdb: Option<Seq<char>>,
    pub projections: Seq<(Seq<char>, Seq<char>)>,
    pub fields: Seq<(Seq<char>, bool, line::FieldDefaultView)>,
}

pub open spec fn empty_form() -> FormView {
    FormView {
        schema_version: None,
        ui_layout: None,
        ui_pages: Seq::empty(),
        canonical: None,
        entity: None,
        duckdb: None,
        projections: Seq::empty(),
        fields: Seq::empty(),
    }
}

pub open spec fn form_field_step(v: FormView, l: Seq<char>) -> FormView {
    match line::field_def_spec(l) {
        Some(f) => FormView { fields: v.fields.push(f), ..v },
        None => v,
    }
}

/// One body line of a form: a setting (`schema_version`, `ui_layout`,
/// `ui_page`, `storage_*`, `projection_*`) or a field.
pub open spec fn form_step(v: FormView, l: Seq<char>) -> FormView {
    match text::split_once(l, ":"@) {
        Some((k, x)) => {
            let key = trim(k);
            let value = trim(x);
            let txt = line::form_text_spec(value);
            if key == "schema_version"@ {
                FormView { schema_version: text::parse_u32(txt), ..v }
            } else if key == "ui_layout"@ {
                FormView { ui_layout: Some(txt), ..v }
            } else if key == "ui_page"@ {
                FormView { ui_pages: v.ui_pages.push(txt), ..v }
            } else if key == "storage_canonical"@ {
                FormView { canonical: Some(txt), ..v }
            } else if key == "storage_entity"@ {
                FormView { entity: Some(txt), ..v }
            } else if key == "storage_duckdb"@ {
                FormView { duckdb: Some(txt), ..v }
            } else if key == "projection_entity"@ {
                FormView { projections: v.projections.push(("entity"@, txt)), ..v }
            } else if key == "projection_duckdb"@ {
                FormView { projections: v.projections.push(("duckdb"@, txt)), ..v }
            } else {
                form_field_step(v, l)
            }
        },
        None => form_field_step(v, l),
    }
}

pub open spec fn form_scan(lines: Seq<Seq<char>>) -> FormView
    decreases lines.len(),
{
    if lines.len() == 0 {
        empty_form()
    } else {
        form_step(form_scan(lines.drop_last()), lines.last())
    }
}

pub open spec fn form_parts_view(
    schema_version: Option<u32>,
    ui_layout: Option<String>,
    ui_pages: Vec<String>,
    storage: FormStorageDef,
    projections: Vec<FormProjectionDef>,
    fields: Vec<crate::types::FieldDef>,
) -> FormView {
    FormView {
        schema_version,
        ui_layout: line::opt_str_view(ui_layout),
        ui_pages: text::str_views(ui_pages@),
        canonical: line::opt_str_view(storage.canonical),
        entity: line::opt_str_view(storage.entity),
        duckdb: line::opt_str_view(storage.duckdb),
        projections: projections@.map_values(|p: FormProjectionDef| (p.target@, p.mapping@)),
        fields: parse::fields_view(fields@),
    }
}

pub open spec fn form_view(f: FormDef) -> FormView {
    form_parts_view(f.schema_version, f.ui_layout, f.ui_pages, f.storage, f.projections, f.fields)
}

/// Reads the setting and field lines of a form body.
pub fn form_body(lines: &Vec<Vec<char>>) -> (r: (
    Option<u32>,
    Option<String>,
    Vec<String>,
    FormStorageDef,
    Vec<FormProjectionDef>,
    Vec<crate::types::FieldDef>,
))
    ensures
        form_parts_view(r.0, r.1, r.2, r.3, r.4, r.5) == form_scan(text::views(lines@)),
{
    let mut schema_version: Option<u32> = None;
    let mut ui_layout: Option<String> = None;
    let mut ui_pages: Vec<String> = Vec::new();
    let mut storage = FormStorageDef { canonical: None, entity: None, duckdb: None };
    let mut projections: Vec<FormProjectionDef> = Vec::new();
    let mut fields: Vec<crate::types::FieldDef> = Vec::new();
    let mut i: usize = 0;
    proof {
        reveal_strlit("entity");
        reveal_strlit("duckdb");
        let fv = form_parts_view(schema_version, ui_layout, ui_pages, storage, projections, fields);
        assert(fv.ui_pages =~= Seq::<Seq<char>>::empty());
        assert(fv.projections =~= Seq::<(Seq<char>, Seq<char>)>::empty());
        assert(fv.fields =~= Seq::<(Seq<char>, bool, line::FieldDefaultView)>::empty());
        assert(text::views(lines@).take(0) =~= Seq::<Seq<char>>::empty());
    }
    while i < lines.len()
        invariant
            i <= lines.len(),
            form_parts_view(schema_version, ui_layout, ui_pages, storage, projections, fields)
                == form_scan(text::views(lines@).take(i as int)),
        decreases lines.len() - i,
    {
        let l = &lines[i];
        proof {
            let ls = text::views(lines@);
            assert(ls.take(i + 1).drop_last() =~= ls.take(i as int));
            assert(ls.take(i + 1).last() == l@);
        }
        let mut handled = false;
        match text::split_once_str(l, ":") {
            Some((k, x)) => {
                let key = text::trim_chars(&k);
                let value = text::trim_chars(&x);
                let txt = line::parse_form_text(&value);
                if text::eq_str(&key, "schema_version") {
                    schema_version = text::parse_u32_chars(&txt);
                    handled = true;
                } else if text::eq_str(&key, "ui_layout") {
                    ui_layout = Some(text::to_string(&txt));
                    handled = true;
                } else if text::eq_str(&key, "ui_page") {
                    ui_pages.push(text::to_string(&txt));
                    handled = true;
                } else if text::eq_str(&key, "storage_canonical") {
                    storage.canonical = Some(text::to_string(&txt));
                    handled = true;
                } else if text::eq_str(&key, "storage_entity") {
                    storage.entity = Some(text::to_string(&txt));
                    handled = true;
                } else if text::eq_str(&key, "storage_duckdb") {
                    storage.duckdb = Some(text::to_string(&txt));
                    handled = true;
                } else if text::eq_str(&key, "projection_entity") {
                    projections.push(
                        FormProjectionDef { target: text::to_string(&text::str_chars("entity")), mapping: text::to_string(&txt) },
                    );
                    handled = true;
                } else if text::eq_str(&key, "projection_duckdb") {
                    projections.push(
                        FormProjectionDef { target: text::to_string(&text::str_chars("duckdb")), mapping: text::to_string(&txt) },
                    );
                    handled = true;
                }
            },
            None => {},
        }
        if !handled {
            match line::parse_field_def(l) {
                Some(f) => {
                    fields.push(f);
                },
                None => {},
            }
        }
        proof {
            let fv = form_parts_view(schema_version, ui_layout, ui_pages, storage, projections, fields);
            let want = form_scan(text::views(lines@).take(i + 1));
            assert(fv.ui_pages =~= want.ui_pages);
            assert(fv.projections =~= want.projections);
            assert(fv.fields =~= want.fields);
        }
        i = i + 1;
    }
    assert(text::views(lines@).take(lines.len() as int) =~= text::views(lines@));
    (schema_version, ui_layout, ui_pages, storage, projections, fields)
}


/// The key-value lines of a mod body from line `i`: `key: value`,
/// `key: """` up to a closing `"""` line (the enclosed lines trimmed and
/// joined by newlines), or a line without a colon under the key `_`. `ml`
/// is the multi-line value being read, with its key. Also returns the
/// index of the first line after the body.
pub open spec fn mod_scan(
    lines: Seq<Seq<char>>,
    i: int,
    base: nat,
    ml: Option<(Seq<char>, Seq<char>)>,
) -> (Seq<(Seq<char>, Seq<char>)>, int)
    decreases lines.len() - i,
{
    if i < 0 || i >= lines.len() {
        match ml {
            Some(kv) => (seq![kv], i),
            None => (Seq::empty(), i),
        }
    } else {
        match ml {
            Some((k, acc)) => {
                let t = trim(lines[i]);
                if t == "\"\"\""@ {
                    let (r, e) = mod_scan(lines, i + 1, base, None);
                    (seq![(k, acc)] + r, e)
                } else {
                    mod_scan(lines, i + 1, base, Some((k, if acc.len() == 0 {
                        t
                    } else {
                        acc + "\n"@ + t
                    })))
                }
            },
            None => {
                if trim(lines[i]).len() == 0 {
                    mod_scan(lines, i + 1, base, None)
                } else if text::indent_of(lines[i]) <= base {
                    (Seq::empty(), i)
                } else {
                    let h = header_of(lines[i]);
                    match text::split_once(h, ":"@) {
                        Some((k, v)) => if trim(v) == "\"\"\""@ {
                            mod_scan(lines, i + 1, base, Some((trim(k), Seq::empty())))
                        } else {
                            let (r, e) = mod_scan(lines, i + 1, base, None);
                            (seq![(trim(k), trim(v))] + r, e)
                        },
                        None => {
                            let (r, e) = mod_scan(lines, i + 1, base, None);
                            (seq![("_"@, h)] + r, e)
                        },
                    }
                }
            },
        }
    }
}

pub proof fn lemma_mod_scan(lines: Seq<Seq<char>>, i: int, base: nat, ml: Option<(Seq<char>, Seq<char>)>)
    requires
        0 <= i <= lines.len(),
    ensures
        i <= mod_scan(lines, i, base, ml).1 <= lines.len(),
    decreases lines.len() - i,
{
    if i < lines.len() {
        match ml {
            Some((k, acc)) => {
                let t = trim(lines[i]);
                if t == "\"\"\""@ {
                    lemma_mod_scan(lines, i + 1, base, None);
                } else {
                    lemma_mod_scan(lines, i + 1, base, Some((k, if acc.len() == 0 {
                        t
                    } else {
                        acc + "\n"@ + t
                    })));
                }
            },
            None => {
                if trim(lines[i]).len() == 0 {
                    lemma_mod_scan(lines, i + 1, base, None);
                } else if text::indent_of(lines[i]) <= base {
                } else {
                    let h = header_of(lines[i]);
                    match text::split_once(h, ":"@) {
                        Some((k, v)) => if trim(v) == "\"\"\""@ {
                            lemma_mod_scan(lines, i + 1, base, Some((trim(k), Seq::empty())));
                        } else {
                            lemma_mod_scan(lines, i + 1, base, None);
                        },
                        None => {
                            lemma_mod_scan(lines, i + 1, base, None);
                        },
                    }
                }
            },
        }
    }
}

/// The value of the first pair with the given key.
pub open spec fn first_value(body: Seq<(Seq<char>, Seq<char>)>, key: Seq<char>) -> Option<Seq<char>>
    decreases body.len(),
{
    if body.len() == 0 {
        None
    } else if body[0].0 == key {
        Some(body[0].1)
    } else {
        first_value(body.drop_first(), key)
    }
}

/// `a / b / c`: the options, trimmed and without surrounding `"`.
pub open spec fn slash_options(v: Seq<char>) -> Seq<Seq<char>> {
    text::split(v, "/"@).map_values(|o: Seq<char>| text::trim_matches_char(trim(o), '"'))
}

/// `mod:$Name :v`: the name without the version marker, and whether it is
/// versioned.
pub open spec fn mod_name_spec(stripped: Seq<char>) -> (Seq<char>, bool) {
    let raw = trim(text::trim_start_matches(stripped, "mod:$"@));
    (
        trim(text::replace(text::replace(raw, " :v"@, ""@), ":v"@, ""@)),
        text::contains(raw, ":v"@) || ends_with(raw, " :v"@),
    )
}

/// Whether a mod node is what its header and body pairs say.
pub open spec fn mod_matches(m: ModDef, stripped: Seq<char>, body: Seq<(Seq<char>, Seq<char>)>) -> bool {
    &&& (m.name@, m.versioned) == mod_name_spec(stripped)
    &&& parse::pairs_view(m.body@) == body
    &&& line::opt_str_view(m.kind) == first_value(body, "kind"@)
    &&& line::opt_str_view(m.description) == (match first_value(body, "description"@) {
        Some(v) => Some(text::trim_matches_char(v, '"')),
        None => None,
    })
    &&& (match m.trigger {
        Some(t) => first_value(body, "trigger"@) matches Some(v) && text::str_views(t@)
            == slash_options(v),
        None => first_value(body, "trigger"@) is None,
    })
}

pub(crate) fn first_value_exec(body: &Vec<(String, String)>, key: &str) -> (r: Option<Vec<char>>)
    ensures
        line::opt_view(r) == first_value(parse::pairs_view(body@), key@),
{
    let mut i: usize = 0;
    assert(parse::pairs_view(body@).skip(0) =~= parse::pairs_view(body@));
    while i < body.len()
        invariant
            i <= body.len(),
            first_value(parse::pairs_view(body@), key@) == first_value(
                parse::pairs_view(body@).skip(i as int),
                key@,
            ),
        decreases body.len() - i,
    {
        let ghost pv = parse::pairs_view(body@);
        assert(pv.skip(i as int)[0] == parse::pair_view(body@[i as int]));
        assert(pv.skip(i as int).drop_first() =~= pv.skip(i + 1));
        let k = text::string_chars(&body[i].0);
        if text::eq_str(&k, key) {
            return Some(text::string_chars(&body[i].1));
        }
        i = i + 1;
    }
    None
}

/// Splits `v` at `/` into trimmed options without surrounding `"`.
pub fn slash_options_exec(v: &Vec<char>) -> (r: Vec<String>)
    ensures
        text::str_views(r@) == slash_options(v@),
{
    let parts = text::split_char(v, '/');
    proof {
        reveal_strlit("/");
        assert(seq!['/'] =~= "/"@);
    }
    let mut opts: Vec<String> = Vec::new();
    let mut i: usize = 0;
    while i < parts.len()
        invariant
            i <= parts.len(),
            text::str_views(opts@) == text::views(parts@).take(i as int).map_values(
                |o: Seq<char>| text::trim_matches_char(trim(o), '"'),
            ),
        decreases parts.len() - i,
    {
        let o = text::trim_matches_char_exec(&text::trim_chars(&parts[i]), '"');
        let so = text::to_string(&o);
        let ghost before = opts@;
        opts.push(so);
        proof {
            assert(text::str_views(opts@) =~= text::str_views(before).push(so@));
            assert(text::views(parts@).take(i + 1) =~= text::views(parts@).take(i as int).push(
                parts@[i as int]@,
            ));
        }
        i = i + 1;
        assert(text::str_views(opts@) =~= text::views(parts@).take(i as int).map_values(
            |o: Seq<char>| text::trim_matches_char(trim(o), '"'),
        ));
    }
    assert(text::views(parts@).take(parts.len() as int) =~= text::views(parts@));
    opts
}

/// Builds a mod node from its header line and body pairs.
pub fn mod_def_node(stripped: &Vec<char>, body: Vec<(String, String)>) -> (r: ModDef)
    ensures
        mod_matches(r, stripped@, parse::pairs_view(body@)),
{
    let raw = text::trim_chars(&text::trim_start_matches_str(stripped, "mod:$"));
    let versioned = text::contains_str(&raw, ":v") || text::ends_with_str(&raw, " :v");
    proof {
        reveal_strlit(" :v");
        reveal_strlit(":v");
    }
    let n1 = text::replace_str(&raw, " :v", "");
    let n2 = text::replace_str(&n1, ":v", "");
    let name = text::trim_chars(&n2);
    let kind = first_value_exec(&body, "kind");
    let description = match first_value_exec(&body, "description") {
        Some(v) => Some(text::to_string(&text::trim_matches_char_exec(&v, '"'))),
        None => None,
    };
    let trigger = match first_value_exec(&body, "trigger") {
        Some(v) => Some(slash_options_exec(&v)),
        None => None,
    };
    ModDef {
        name: text::to_string(&name),
        kind: parse::opt_string(kind),
        description,
        trigger,
        body,
        versioned,
    }
}


/// The attachment settings of a `validate` block.
pub struct MetaView {
    pub id: Option<Seq<char>>,
    pub targets: Seq<Seq<char>>,
    pub requires: Seq<Seq<char>>,
    pub blocks: Seq<Seq<char>>,
    pub depends_on: Seq<Seq<char>>,
}

pub open spec fn meta_view(m: AttachmentMeta) -> MetaView {
    MetaView {
        id: line::opt_str_view(m.id),
        targets: text::str_views(m.targets@),
        requires: text::str_views(m.requires@),
        blocks: text::str_views(m.blocks@),
        depends_on: text::str_views(m.depends_on@),
    }
}

/// Which setting a child line of a `validate` block gives (0 `id`,
/// 1 `targets`, 2 `requires`, 3 `blocks`, 4 `depends_on`), and its value.
pub open spec fn meta_entry(n: Node) -> Option<(int, Seq<char>)> {
    match n {
        Node::Prose(p) => match text::split_once(trim(p.text@), ":"@) {
            Some((k, v)) => {
                let key = trim(k);
                let value = trim(v);
                if key == "id"@ {
                    Some((0, value))
                } else if key == "targets"@ {
                    Some((1, value))
                } else if key == "requires"@ {
                    Some((2, value))
                } else if key == "blocks"@ {
                    Some((3, value))
                } else if key == "depends_on"@ {
                    Some((4, value))
                } else {
                    None
                }
            },
            None => None,
        },
        _ => None,
    }
}

pub open spec fn meta_set(m: MetaView, k: int, v: Seq<char>) -> MetaView {
    if k == 0 {
        MetaView { id: Some(v), ..m }
    } else if k == 1 {
        MetaView { targets: line::names_list(v), ..m }
    } else if k == 2 {
        MetaView { requires: line::names_list(v), ..m }
    } else if k == 3 {
        MetaView { blocks: line::names_list(v), ..m }
    } else {
        MetaView { depends_on: line::names_list(v), ..m }
    }
}

/// The settings given by the children of a `validate` block (a later line
/// replaces an earlier one), and the other children.
pub open spec fn meta_fold(nodes: Seq<Node>) -> (MetaView, Seq<Node>)
    decreases nodes.len(),
{
    if nodes.len() == 0 {
        (
            MetaView {
                id: None,
                targets: Seq::empty(),
                requires: Seq::empty(),
                blocks: Seq::empty(),
                depends_on: Seq::empty(),
            },
            Seq::empty(),
        )
    } else {
        let (m, kept) = meta_fold(nodes.drop_last());
        match meta_entry(nodes.last()) {
            Some((k, v)) => (meta_set(m, k, v), kept),
            None => (m, kept.push(nodes.last())),
        }
    }
}

fn meta_entry_exec(n: &Node) -> (r: Option<(u8, Vec<char>)>)
    ensures
        r matches Some((k, v)) ==> meta_entry(*n) == Some((k as int, v@)),
        r is None ==> meta_entry(*n) is None,
{
    match n {
        Node::Prose(p) => {
            let t = text::trim_chars(&text::string_chars(&p.text));
            match text::split_once_str(&t, ":") {
                Some((k, v)) => {
                    let key = text::trim_chars(&k);
                    let value = text::trim_chars(&v);
                    if text::eq_str(&key, "id") {
                        Some((0, value))
                    } else if text::eq_str(&key, "targets") {
                        Some((1, value))
                    } else if text::eq_str(&key, "requires") {
                        Some((2, value))
                    } else if text::eq_str(&key, "blocks") {
                        Some((3, value))
                    } else if text::eq_str(&key, "depends_on") {
                        Some((4, value))
                    } else {
                        None
                    }
                },
                None => None,
            }
        },
        _ => None,
    }
}

/// Separates the setting lines of a `validate` block from its other
/// children.
pub fn split_validate_meta(children: Vec<Node>) -> (r: (AttachmentMeta, Vec<Node>))
    ensures
        (meta_view(r.0), r.1@) == meta_fold(children@),
{
    let ghost orig = children@;
    let mut todo = children;
    let mut kept: Vec<Node> = Vec::new();
    let mut meta = AttachmentMeta {
        id: None,
        targets: Vec::new(),
        requires: Vec::new(),
        blocks: Vec::new(),
        depends_on: Vec::new(),
    };
    proof {
        let mv = meta_view(meta);
        assert(mv.targets =~= Seq::<Seq<char>>::empty());
        assert(mv.requires =~= Seq::<Seq<char>>::empty());
        assert(mv.blocks =~= Seq::<Seq<char>>::empty());
        assert(mv.depends_on =~= Seq::<Seq<char>>::empty());
        assert(orig.take(0) =~= Seq::<Node>::empty());
    }
    while todo.len() > 0
        invariant
            orig == orig.take(orig.len() - todo@.len()) + todo@,
            todo@.len() <= orig.len(),
            (meta_view(meta), kept@) == meta_fold(orig.take(orig.len() - todo@.len())),
        decreases todo@.len(),
    {
        let ghost done = orig.take(orig.len() - todo@.len());
        let node = todo.remove(0);
        proof {
            let d2 = orig.take(orig.len() - todo@.len());
            assert(d2 =~= done.push(node));
            assert(d2.drop_last() =~= done);
            assert(orig =~= d2 + todo@);
        }
        match meta_entry_exec(&node) {
            Some((k, v)) => {
                if k == 0 {
                    meta.id = Some(text::to_string(&v));
                } else {
                    let names = text::to_strings(&line::names_list_exec(&v));
                    if k == 1 {
                        meta.targets = names;
                    } else if k == 2 {
                        meta.requires = names;
                    } else if k == 3 {
                        meta.blocks = names;
                    } else {
                        meta.depends_on = names;
                    }
                }
            },
            None => {
                kept.push(node);
            },
        }
    }
    assert(orig.take(orig.len() as int) =~= orig);
    (meta, kept)
}


/// The body of the construct whose header is line `i`: the lines after it
/// indented deeper than it.
pub open spec fn body_of(lines: Seq<Seq<char>>, i: int) -> (Seq<Seq<char>>, int) {
    body_scan(lines, i + 1, text::indent_of(lines[i]))
}

impl ParseCtx {
    /// A fenced code block: the lines up to the closing fence.
    pub fn parse_code_block(&mut self) -> (r: Option<Node>)
        requires
            line_kind(old(self).lv(), old(self).pos as int) == LineKind::Code,
            old(self).wf(),
            old(self).pos < old(self).lines@.len(),
        ensures
            forall|nest: nat| #[trigger] line_parsed(old(self).lv(), old(self).pos as int, nest, r, final(self).pos as int),
            final(self).first_error == old(self).first_error,
            final(self).wf(),
            final(self).lines == old(self).lines,
            old(self).pos < final(self).pos,
            final(self).pos == fence_scan(old(self).lv(), old(self).pos + 1).1,
            r matches Some(Node::CodeBlock(c)) && line::opt_str_view(c.lang) == fence_lang(
                old(self).lv()[old(self).pos as int],
            ) && c.content@ == text::join(fence_scan(old(self).lv(), old(self).pos + 1).0, "\n"@),
    {
        let raw = self.peek();
        self.advance();
        let t = text::trim_chars(&raw);
        let l = text::trim_start_matches_str(&t, "`");
        let lang = if l.len() == 0 {
            None
        } else {
            Some(text::to_string(&l))
        };
        let ghost lv = self.lv();
        let ghost start = self.pos as int;
        let mut body: Vec<Vec<char>> = Vec::new();
        while self.pos < self.lines.len()
            invariant_except_break
                text::views(body@) + fence_scan(lv, self.pos as int).0 == fence_scan(lv, start).0,
                fence_scan(lv, self.pos as int).1 == fence_scan(lv, start).1,
            invariant
                self.wf(),
                self.lines == old(self).lines,
                self.first_error == old(self).first_error,
                lv == self.lv(),
                start <= self.pos,
            ensures
                text::views(body@) == fence_scan(lv, start).0,
                self.pos == fence_scan(lv, start).1,
            decreases self.lines@.len() - self.pos,
        {
            let line = self.peek();
            let lt = text::trim_chars(&line);
            if text::starts_with_str(&lt, "```") {
                self.advance();
                assert(text::views(body@) + Seq::<Seq<char>>::empty() =~= text::views(body@));
                break;
            }
            self.advance();
            proof {
                text::lemma_views_push(body@, line);
                assert(text::views(body@.push(line)) + fence_scan(lv, self.pos as int).0
                    =~= text::views(body@) + fence_scan(lv, self.pos - 1).0);
            }
            body.push(line);
        }
        proof {
            lemma_fence_scan(lv, start);
        }
        let content = text::join_str(&body, "\n");
        Some(Node::CodeBlock(CodeBlock { lang, content: text::to_string(&content) }))
    }

    /// `define:@Entity`: the header and the field lines of its body.
    pub fn parse_define(&mut self) -> (r: Option<Node>)
        requires
            line_kind(old(self).lv(), old(self).pos as int) == LineKind::Define,
            old(self).wf(),
            old(self).pos < old(self).lines@.len(),
        ensures
            forall|nest: nat| #[trigger] line_parsed(old(self).lv(), old(self).pos as int, nest, r, final(self).pos as int),
            final(self).first_error == old(self).first_error,
            final(self).wf(),
            final(self).lines == old(self).lines,
            old(self).pos < final(self).pos,
            final(self).pos == body_of(old(self).lv(), old(self).pos as int).1,
            r matches Some(Node::Define(d)) && (d.entity@, line::atoms_view(d.atoms@),
                line::opt_str_view(d.from_scope), line::opt_str_view(d.mod_scope),
                line::opt_str_view(d.workspace_scope)) == define_header(
                header_of(old(self).lv()[old(self).pos as int]),
            ) && parse::fields_view(d.fields@) == parse::field_defs(
                body_of(old(self).lv(), old(self).pos as int).0,
            ),
    {
        let raw = self.peek();
        self.advance();
        let stripped = line::strip_comment(&text::trim_chars(&raw));
        let rest = text::trim_start_matches_str(&stripped, "define:");
        let (ms, ws, er) = line::extract_entity_scope(&rest);
        let head = match text::find_str(&er, " from ") {
            Some(j) => {
                proof {
                    text::lemma_find_from(er@, " from "@, 0);
                }
                text::slice_of(&er, 0, j)
            },
            None => er.clone(),
        };
        let (_, atoms) = line::parse_name_and_atoms(&head);
        let (entity, from_scope) = match text::find_str(&er, " from @") {
            Some(i) => {
                proof {
                    text::lemma_find_from(er@, " from @"@, 0);
                    reveal_strlit(" from @");
                }
                let el = er.len();
                let ent = text::slice_of(&er, 0, i);
                let path = text::slice_of(&er, i + 6, el);
                assert(path@ =~= er@.skip(i + 6));
                let (name, _) = line::parse_name_and_atoms(&ent);
                (name, Some(text::to_string(&text::trim_chars(&path))))
            },
            None => {
                let (name, _) = line::parse_name_and_atoms(&er);
                (name, None)
            },
        };
        let base = Self::indent_of(&raw);
        let body = self.body_lines(base);
        proof {
            parse::lemma_body_scan(old(self).lv(), old(self).pos + 1, base as nat);
        }
        let fields = parse::field_defs_exec(&body);
        Some(
            Node::Define(
                Define {
                    entity: text::to_string(&entity),
                    atoms,
                    fields,
                    from_scope,
                    mod_scope: parse::opt_string(ms),
                    workspace_scope: parse::opt_string(ws),
                },
            ),
        )
    }

    /// `mutate:@Entity:id`: the header and the field (or batch) lines of its
    /// body.
    pub fn parse_mutate(&mut self) -> (r: Option<Node>)
        requires
            line_kind(old(self).lv(), old(self).pos as int) == LineKind::Mutate,
            old(self).wf(),
            old(self).pos < old(self).lines@.len(),
        ensures
            forall|nest: nat| #[trigger] line_parsed(old(self).lv(), old(self).pos as int, nest, r, final(self).pos as int),
            final(self).first_error == old(self).first_error,
            final(self).wf(),
            final(self).lines == old(self).lines,
            old(self).pos < final(self).pos,
            final(self).pos == body_of(old(self).lv(), old(self).pos as int).1,
            r matches Some(Node::Mutate(m)) && mutate_matches(
                m,
                header_of(old(self).lv()[old(self).pos as int]),
                body_of(old(self).lv(), old(self).pos as int).0,
            ),
    {
        let raw = self.peek();
        self.advance();
        let stripped = line::strip_comment(&text::trim_chars(&raw));
        let rest = text::trim_start_matches_str(&stripped, "mutate:");
        let (ms, ws, er) = line::extract_entity_scope(&rest);
        let mut gs = line::extract_gates(&er);
        let gate = if gs.len() > 0 {
            let g = gs.remove(0);
            Some(g)
        } else {
            None
        };
        let clean = line::remove_gates(&er);
        let (entity, id) = match text::split_once_str(&clean, ":") {
            Some((e, i)) => {
                let ti = text::trim_chars(&i);
                if ti.len() > 0 {
                    (e, Some(text::to_string(&ti)))
                } else {
                    (e, None)
                }
            },
            None => (clean, None),
        };
        let base = Self::indent_of(&raw);
        let body = self.body_lines(base);
        proof {
            parse::lemma_body_scan(old(self).lv(), old(self).pos + 1, base as nat);
        }
        if id.is_none() && body.len() > 0 && parse::is_batch_format(&body) {
            let batch = parse::parse_batch_records(&body);
            return Some(
                Node::Mutate(
                    Mutate {
                        entity: text::to_string(&entity),
                        id,
                        gate,
                        fields: Vec::new(),
                        batch: Some(batch),
                        mod_scope: parse::opt_string(ms),
                        workspace_scope: parse::opt_string(ws),
                    },
                ),
            );
        }
        let fields = parse::kv_pairs_exec(&body);
        Some(
            Node::Mutate(
                Mutate {
                    entity: text::to_string(&entity),
                    id,
                    gate,
                    fields,
                    batch: None,
                    mod_scope: parse::opt_string(ms),
                    workspace_scope: parse::opt_string(ws),
                },
            ),
        )
    }

    /// `query:` with its option lines.
    pub fn parse_query_block(&mut self) -> (r: Option<Node>)
        requires
            line_kind(old(self).lv(), old(self).pos as int) == LineKind::QueryBlock,
            old(self).wf(),
            old(self).pos < old(self).lines@.len(),
        ensures
            forall|nest: nat| #[trigger] line_parsed(old(self).lv(), old(self).pos as int, nest, r, final(self).pos as int),
            final(self).first_error == old(self).first_error,
            final(self).wf(),
            final(self).lines == old(self).lines,
            old(self).pos < final(self).pos,
            final(self).pos == body_of(old(self).lv(), old(self).pos as int).1,
            r matches Some(n) ==> n matches Node::Query(q) && parse::query_spec(
                body_of(old(self).lv(), old(self).pos as int).0,
            ) == Some(parse::query_view(q)),
            r is None ==> parse::query_spec(body_of(old(self).lv(), old(self).pos as int).0) is None,
    {
        let raw = self.peek();
        self.advance();
        let base = Self::indent_of(&raw);
        let body = self.body_lines(base);
        proof {
            parse::lemma_body_scan(old(self).lv(), old(self).pos + 1, base as nat);
        }
        match parse::parse_query_from_lines(&body) {
            Some(q) => Some(Node::Query(q)),
            None => None,
        }
    }

    /// `? Entity where ...` on one line.
    pub fn parse_inline_query(&mut self) -> (r: Option<Node>)
        requires
            line_kind(old(self).lv(), old(self).pos as int) == LineKind::InlineQuery,
            old(self).wf(),
            old(self).pos < old(self).lines@.len(),
        ensures
            forall|nest: nat| #[trigger] line_parsed(old(self).lv(), old(self).pos as int, nest, r, final(self).pos as int),
            final(self).first_error == old(self).first_error,
            final(self).wf(),
            final(self).lines == old(self).lines,
            old(self).pos < final(self).pos,
            final(self).pos == old(self).pos + 1,
            ({
                let body = seq![trim(text::trim_start_matches(header_of(old(self).lv()[old(self).pos as int]), "? "@))];
                &&& r matches Some(n) ==> n matches Node::Query(q) && parse::query_spec(body)
                    == Some(parse::query_view(q))
                &&& r is None ==> parse::query_spec(body) is None
            }),
    {
        let raw = self.peek();
        self.advance();
        let stripped = line::strip_comment(&text::trim_chars(&raw));
        let b = text::trim_chars(&text::trim_start_matches_str(&stripped, "? "));
        let mut body: Vec<Vec<char>> = Vec::new();
        body.push(b);
        assert(text::views(body@) =~= seq![b@]);
        match parse::parse_query_from_lines(&body) {
            Some(q) => Some(Node::Query(q)),
            None => None,
        }
    }

    /// `flow:` with its edge lines.
    pub fn parse_flow(&mut self) -> (r: Option<Node>)
        requires
            line_kind(old(self).lv(), old(self).pos as int) == LineKind::Flow,
            old(self).wf(),
            old(self).pos < old(self).lines@.len(),
        ensures
            forall|nest: nat| #[trigger] line_parsed(old(self).lv(), old(self).pos as int, nest, r, final(self).pos as int),
            final(self).first_error == old(self).first_error,
            final(self).wf(),
            final(self).lines == old(self).lines,
            old(self).pos < final(self).pos,
            final(self).pos == body_of(old(self).lv(), old(self).pos as int).1,
            r matches Some(Node::Flow(f)) && f.name is None && line::edges_view(f.edges@)
                == parse::all_edges(body_of(old(self).lv(), old(self).pos as int).0),
    {
        let raw = self.peek();
        self.advance();
        let base = Self::indent_of(&raw);
        let body = self.body_lines(base);
        proof {
            parse::lemma_body_scan(old(self).lv(), old(self).pos + 1, base as nat);
        }
        let edges = parse::all_edges_exec(&body);
        Some(Node::Flow(Flow { name: None, edges }))
    }

    /// `states:` with its transition lines.
    pub fn parse_states(&mut self) -> (r: Option<Node>)
        requires
            line_kind(old(self).lv(), old(self).pos as int) == LineKind::States,
            old(self).wf(),
            old(self).pos < old(self).lines@.len(),
        ensures
            forall|nest: nat| #[trigger] line_parsed(old(self).lv(), old(self).pos as int, nest, r, final(self).pos as int),
            final(self).first_error == old(self).first_error,
            final(self).wf(),
            final(self).lines == old(self).lines,
            old(self).pos < final(self).pos,
            final(self).pos == body_of(old(self).lv(), old(self).pos as int).1,
            r matches Some(Node::States(st)) && line::edges_view(st.transitions@) == parse::all_edges(
                body_of(old(self).lv(), old(self).pos as int).0,
            ),
    {
        let raw = self.peek();
        self.advance();
        let base = Self::indent_of(&raw);
        let body = self.body_lines(base);
        proof {
            parse::lemma_body_scan(old(self).lv(), old(self).pos + 1, base as nat);
        }
        let transitions = parse::all_edges_exec(&body);
        Some(Node::States(StatesDef { transitions }))
    }

    /// `form:Name` with its setting and field lines.
    pub fn parse_form(&mut self) -> (r: Option<Node>)
        requires
            line_kind(old(self).lv(), old(self).pos as int) == LineKind::Form,
            old(self).wf(),
            old(self).pos < old(self).lines@.len(),
        ensures
            forall|nest: nat| #[trigger] line_parsed(old(self).lv(), old(self).pos as int, nest, r, final(self).pos as int),
            final(self).first_error == old(self).first_error,
            final(self).wf(),
            final(self).lines == old(self).lines,
            old(self).pos < final(self).pos,
            final(self).pos == body_of(old(self).lv(), old(self).pos as int).1,
            r matches Some(Node::Form(f)) && f.name@ == trim(
                text::trim_start_matches(header_of(old(self).lv()[old(self).pos as int]), "form:"@),
            ) && form_view(f) == form_scan(body_of(old(self).lv(), old(self).pos as int).0),
    {
        let raw = self.peek();
        self.advance();
        let stripped = line::strip_comment(&text::trim_chars(&raw));
        let name = text::trim_chars(&text::trim_start_matches_str(&stripped, "form:"));
        let base = Self::indent_of(&raw);
        let body = self.body_lines(base);
        proof {
            parse::lemma_body_scan(old(self).lv(), old(self).pos + 1, base as nat);
        }
        let (schema_version, ui_layout, ui_pages, storage, projections, fields) = form_body(&body);
        Some(
            Node::Form(
                FormDef {
                    name: text::to_string(&name),
                    schema_version,
                    ui_layout,
                    ui_pages,
                    storage,
                    projections,
                    fields,
                },
            ),
        )
    }

    /// `sync:name` with its settings. A declaration without a name is an
    /// error: the first one is recorded and gives no node.
    pub fn parse_sync(&mut self) -> (r: Option<Node>)
        requires
            line_kind(old(self).lv(), old(self).pos as int) == LineKind::Sync,
            old(self).wf(),
            old(self).pos < old(self).lines@.len(),
        ensures
            final(self).wf(),
            final(self).lines == old(self).lines,
            old(self).pos < final(self).pos,
            forall|nest: nat|
                err_view(final(self).first_error) == err_after(
                    old(self).first_error,
                    #[trigger] line_err(old(self).lv(), old(self).pos as int, nest),
                ),
            forall|nest: nat|
                old(self).first_error is None && final(self).first_error is None ==> #[trigger] line_parsed(
                    old(self).lv(),
                    old(self).pos as int,
                    nest,
                    r,
                    final(self).pos as int,
                ),
    {
        let raw = self.peek();
        let line_no = self.current_line();
        self.advance();
        let stripped = line::strip_comment(&text::trim_chars(&raw));
        let name = text::trim_chars(&text::trim_start_matches_str(&stripped, "sync:"));
        if name.len() == 0 && self.first_error.is_none() {
            self.first_error = Some(line_no);
            return None;
        }
        let base = Self::indent_of(&raw);
        let body = self.body_lines(base);
        proof {
            parse::lemma_body_scan(old(self).lv(), old(self).pos + 1, base as nat);
        }
        let kv = parse::kv_pairs_exec(&body);
        Some(
            Node::SyncDef(
                SyncDef {
                    name: text::to_string(&name),
                    class: setting_exec(&kv, "class"),
                    source: setting_exec(&kv, "source"),
                    identity: setting_exec(&kv, "identity"),
                    mode: setting_exec(&kv, "mode"),
                    target: setting_exec(&kv, "target"),
                    schedule: setting_exec(&kv, "schedule"),
                    scope: setting_exec(&kv, "scope"),
                },
            ),
        )
    }

    /// `git:verb args` with its settings.
    pub fn parse_git(&mut self) -> (r: Option<Node>)
        requires
            line_kind(old(self).lv(), old(self).pos as int) == LineKind::Git,
            old(self).wf(),
            old(self).pos < old(self).lines@.len(),
        ensures
            forall|nest: nat| #[trigger] line_parsed(old(self).lv(), old(self).pos as int, nest, r, final(self).pos as int),
            final(self).first_error == old(self).first_error,
            final(self).wf(),
            final(self).lines == old(self).lines,
            old(self).pos < final(self).pos,
    {
        let raw = self.peek();
        self.advance();
        let stripped = line::strip_comment(&text::trim_chars(&raw));
        let (verb, args) = git_header_exec(&stripped);
        let base = Self::indent_of(&raw);
        let body = self.body_lines(base);
        proof {
            parse::lemma_body_scan(old(self).lv(), old(self).pos + 1, base as nat);
        }
        let kv = parse::kv_pairs_exec(&body);
        Some(Node::Git(GitOp { verb: text::to_string(&verb), args: text::to_string(&args), body: kv }))
    }

    /// `files:` with its path lines.
    pub fn parse_files(&mut self) -> (r: Option<Node>)
        requires
            line_kind(old(self).lv(), old(self).pos as int) == LineKind::Files,
            old(self).wf(),
            old(self).pos < old(self).lines@.len(),
        ensures
            forall|nest: nat| #[trigger] line_parsed(old(self).lv(), old(self).pos as int, nest, r, final(self).pos as int),
            final(self).first_error == old(self).first_error,
            final(self).wf(),
            final(self).lines == old(self).lines,
            old(self).pos < final(self).pos,
            final(self).pos == body_of(old(self).lv(), old(self).pos as int).1,
            r matches Some(Node::FilesDef(f)) && text::str_views(f.paths@) == files_spec(
                body_of(old(self).lv(), old(self).pos as int).0,
            ),
    {
        let raw = self.peek();
        self.advance();
        let base = Self::indent_of(&raw);
        let body = self.body_lines(base);
        proof {
            parse::lemma_body_scan(old(self).lv(), old(self).pos + 1, base as nat);
        }
        Some(Node::FilesDef(FilesDef { paths: files_paths(&body) }))
    }

    /// `policy:` with its rule lines.
    pub fn parse_policy(&mut self) -> (r: Option<Node>)
        requires
            line_kind(old(self).lv(), old(self).pos as int) == LineKind::Policy,
            old(self).wf(),
            old(self).pos < old(self).lines@.len(),
        ensures
            forall|nest: nat| #[trigger] line_parsed(old(self).lv(), old(self).pos as int, nest, r, final(self).pos as int),
            final(self).first_error == old(self).first_error,
            final(self).wf(),
            final(self).lines == old(self).lines,
            old(self).pos < final(self).pos,
            final(self).pos == body_of(old(self).lv(), old(self).pos as int).1,
            r matches Some(Node::PolicyDef(p)) && rules_view(p.rules@) == policy_spec(
                body_of(old(self).lv(), old(self).pos as int).0,
            ),
    {
        let raw = self.peek();
        self.advance();
        let base = Self::indent_of(&raw);
        let body = self.body_lines(base);
        proof {
            parse::lemma_body_scan(old(self).lv(), old(self).pos + 1, base as nat);
        }
        Some(Node::PolicyDef(PolicyDef { rules: policy_rules(&body) }))
    }

    /// `mod:$Name` with its key-value body.
    pub fn parse_mod_def(&mut self) -> (r: Option<Node>)
        requires
            line_kind(old(self).lv(), old(self).pos as int) == LineKind::ModDef,
            old(self).wf(),
            old(self).pos < old(self).lines@.len(),
        ensures
            forall|nest: nat| #[trigger] line_parsed(old(self).lv(), old(self).pos as int, nest, r, final(self).pos as int),
            final(self).first_error == old(self).first_error,
            final(self).wf(),
            final(self).lines == old(self).lines,
            old(self).pos < final(self).pos,
            ({
                let lv = old(self).lv();
                let i = old(self).pos as int;
                let scan = mod_scan(lv, i + 1, text::indent_of(lv[i]), None);
                &&& final(self).pos == scan.1
                &&& r matches Some(Node::ModDef(m)) && mod_matches(m, header_of(lv[i]), scan.0)
            }),
    {
        let raw = self.peek();
        self.advance();
        let stripped = line::strip_comment(&text::trim_chars(&raw));
        let base = Self::indent_of(&raw);
        let ghost lv = self.lv();
        let ghost start = self.pos as int;
        let mut body: Vec<(String, String)> = Vec::new();
        let mut ml: Option<(Vec<char>, Vec<char>)> = None;
        proof {
            reveal_strlit("\"\"\"");
            reveal_strlit("\n");
            reveal_strlit("_");
        }
        loop
            invariant_except_break
                parse::pairs_view(body@) + mod_scan(lv, self.pos as int, base as nat, ml_view(ml)).0
                    == mod_scan(lv, start, base as nat, None).0,
                mod_scan(lv, self.pos as int, base as nat, ml_view(ml)).1 == mod_scan(
                    lv,
                    start,
                    base as nat,
                    None,
                ).1,
            invariant
                self.wf(),
                self.lines == old(self).lines,
                self.first_error == old(self).first_error,
                lv == self.lv(),
                start <= self.pos,
            ensures
                parse::pairs_view(body@) == mod_scan(lv, start, base as nat, None).0,
                self.pos == mod_scan(lv, start, base as nat, None).1,
            decreases self.lines@.len() - self.pos,
        {
            if self.pos >= self.lines.len() {
                match ml {
                    Some((k, acc)) => {
                        let ghost b0 = body@;
                        body.push((text::to_string(&k), text::to_string(&acc)));
                        assert(parse::pairs_view(body@) =~= parse::pairs_view(b0).push((k@, acc@)));
                    },
                    None => {},
                }
                assert(parse::pairs_view(body@) =~= mod_scan(lv, start, base as nat, None).0);
                break;
            }
            let line = self.peek();
            let t = text::trim_chars(&line);
            match ml {
                Some((k, acc)) => {
                    if text::eq_str(&t, "\"\"\"") {
                        self.advance();
                        let ghost b0 = body@;
                        body.push((text::to_string(&k), text::to_string(&acc)));
                        assert(parse::pairs_view(body@) =~= parse::pairs_view(b0).push((k@, acc@)));
                        ml = None;
                        assert(parse::pairs_view(b0) + mod_scan(lv, self.pos - 1, base as nat, Some((k@, acc@))).0
                            =~= parse::pairs_view(body@) + mod_scan(lv, self.pos as int, base as nat, None).0);
                    } else {
                        self.advance();
                        let acc2 = if acc.len() == 0 {
                            t
                        } else {
                            let mut a = acc;
                            text::append_str(&mut a, "\n");
                            text::append(&mut a, &t);
                            a
                        };
                        ml = Some((k, acc2));
                    }
                },
                None => {
                    if t.len() == 0 {
                        self.advance();
                    } else if Self::indent_of(&line) <= base {
                        assert(parse::pairs_view(body@) + Seq::<(Seq<char>, Seq<char>)>::empty()
                            =~= parse::pairs_view(body@));
                        break;
                    } else {
                        self.advance();
                        let h = line::strip_comment(&t);
                        match text::split_once_str(&h, ":") {
                            Some((k, v)) => {
                                let tv = text::trim_chars(&v);
                                if text::eq_str(&tv, "\"\"\"") {
                                    ml = Some((text::trim_chars(&k), Vec::new()));
                                } else {
                                    let tk = text::trim_chars(&k);
                                    let ghost b0 = body@;
                                    body.push((text::to_string(&tk), text::to_string(&tv)));
                                    assert(parse::pairs_view(body@) =~= parse::pairs_view(b0).push((tk@, tv@)));
                                    assert(parse::pairs_view(b0) + mod_scan(lv, self.pos - 1, base as nat, None).0
                                        =~= parse::pairs_view(body@) + mod_scan(lv, self.pos as int, base as nat, None).0);
                                }
                            },
                            None => {
                                let ghost b0 = body@;
                                body.push((text::to_string(&text::str_chars("_")), text::to_string(&h)));
                                assert(parse::pairs_view(body@) =~= parse::pairs_view(b0).push(("_"@, h@)));
                                assert(parse::pairs_view(b0) + mod_scan(lv, self.pos - 1, base as nat, None).0
                                    =~= parse::pairs_view(body@) + mod_scan(lv, self.pos as int, base as nat, None).0);
                            },
                        }
                    }
                },
            }
        }
        proof {
            lemma_mod_scan(lv, start, base as nat, None);
        }
        Some(Node::ModDef(mod_def_node(&stripped, body)))
    }
}

pub open spec fn ml_view(ml: Option<(Vec<char>, Vec<char>)>) -> Option<(Seq<char>, Seq<char>)> {
    match ml {
        Some((k, a)) => Some((k@, a@)),
        None => None,
    }
}


// ── Webhooks, file scopes and policies ─────────────────────────

/// The first whitespace-separated word of `x`, or nothing.
pub open spec fn first_word(x: Seq<char>) -> Seq<char> {
    let w = text::split_ws(x);
    if w.len() > 0 {
        w[0]
    } else {
        Seq::empty()
    }
}

/// The text after the first occurrence of `key` in `rest`.
pub open spec fn after_key(rest: Seq<char>, key: Seq<char>) -> Option<Seq<char>> {
    match text::find(rest, key) {
        Some(i) => Some(rest.skip(i + key.len())),
        None => None,
    }
}

/// `webhook: on:|trigger| url: "..." payload: "..."`: the trigger (the piped
/// expression after `on:`), the url (the first word after `url:`, quotes
/// removed) and the payload (the text after `payload:`, quotes removed).
pub open spec fn webhook_spec(s: Seq<char>) -> (Seq<char>, Seq<char>, Option<Seq<char>>) {
    let rest = trim(text::trim_start_matches(s, "webhook:"@));
    let trigger = match after_key(rest, "on:"@) {
        Some(a) => line::pipe_expr_spec(a),
        None => Seq::empty(),
    };
    let url = match after_key(rest, "url:"@) {
        Some(a) => first_word(text::trim_matches_char(trim(a), '"')),
        None => Seq::empty(),
    };
    let payload = match after_key(rest, "payload:"@) {
        Some(a) => Some(text::trim_matches_char(trim(a), '"')),
        None => None,
    };
    (trigger, url, payload)
}

fn after_key_exec(rest: &Vec<char>, key: &str) -> (r: Option<Vec<char>>)
    ensures
        match r {
            Some(a) => after_key(rest@, key@) == Some(a@),
            None => after_key(rest@, key@) is None,
        },
{
    match text::find_str(rest, key) {
        Some(i) => {
            let kv = text::str_chars(key);
            proof {
                text::lemma_find_from(rest@, key@, 0);
            }
            let l = rest.len();
            let a = text::slice_of(rest, i + kv.len(), l);
            assert(a@ =~= rest@.skip(i + kv@.len()));
            Some(a)
        },
        None => None,
    }
}

fn first_word_exec(x: &Vec<char>) -> (r: Vec<char>)
    ensures
        r@ == first_word(x@),
{
    let w = text::split_whitespace(x);
    if w.len() > 0 {
        w[0].clone()
    } else {
        Vec::new()
    }
}

pub fn webhook_node(s: &Vec<char>) -> (r: Webhook)
    ensures
        (r.trigger@, r.url@, line::opt_str_view(r.payload)) == webhook_spec(s@),
{
    let rest = text::trim_chars(&text::trim_start_matches_str(s, "webhook:"));
    let trigger = match after_key_exec(&rest, "on:") {
        Some(a) => line::extract_pipe_expr(&a),
        None => Vec::new(),
    };
    let url = match after_key_exec(&rest, "url:") {
        Some(a) => first_word_exec(&text::trim_matches_char_exec(&text::trim_chars(&a), '"')),
        None => Vec::new(),
    };
    let payload = match after_key_exec(&rest, "payload:") {
        Some(a) => Some(text::to_string(&text::trim_matches_char_exec(&text::trim_chars(&a), '"'))),
        None => None,
    };
    Webhook { trigger: text::to_string(&trigger), url: text::to_string(&url), payload }
}

/// A `files:` body line: the path after `@`, or the whole line.
pub open spec fn file_path(l: Seq<char>) -> Seq<char> {
    match text::strip_prefix(l, "@"@) {
        Some(r) => trim(r),
        None => l,
    }
}

/// The paths of a `files:` body.
pub open spec fn files_spec(body: Seq<Seq<char>>) -> Seq<Seq<char>> {
    body.map_values(|l: Seq<char>| file_path(l))
}

pub fn files_paths(body: &Vec<Vec<char>>) -> (r: Vec<String>)
    ensures
        text::str_views(r@) == files_spec(text::views(body@)),
{
    let ghost bv = text::views(body@);
    let mut out: Vec<String> = Vec::new();
    let mut i: usize = 0;
    while i < body.len()
        invariant
            i <= body.len(),
            bv == text::views(body@),
            text::str_views(out@) == files_spec(bv).take(i as int),
        decreases body.len() - i,
    {
        let l = &body[i];
        let p = match text::strip_prefix_str(l, "@") {
            Some(rest) => text::trim_chars(&rest),
            None => l.clone(),
        };
        let ghost o = out@;
        let ps = text::to_string(&p);
        out.push(ps);
        proof {
            assert(text::str_views(o.push(ps)) =~= text::str_views(o).push(ps@));
            assert(files_spec(bv).take(i + 1) =~= files_spec(bv).take(i as int).push(file_path(bv[i as int])));
        }
        i = i + 1;
    }
    assert(files_spec(bv).take(body.len() as int) =~= files_spec(bv));
    out
}

/// A `policy:` body line `@path: {gate}...`: the path and its gates; lines
/// that do not start with `@` give no rule.
pub open spec fn policy_rule(l: Seq<char>) -> Option<(Seq<char>, Seq<(Seq<char>, Option<Seq<char>>)>)> {
    match text::strip_prefix(l, "@"@) {
        Some(rest) => Some(
            match text::find(rest, ":"@) {
                Some(c) => (trim(rest.take(c)), line::gates_spec(trim(rest.skip(c + 1)))),
                None => (trim(rest), Seq::empty()),
            },
        ),
        None => None,
    }
}

/// The rules of a `policy:` body.
pub open spec fn policy_spec(body: Seq<Seq<char>>) -> Seq<(Seq<char>, Seq<(Seq<char>, Option<Seq<char>>)>)>
    decreases body.len(),
{
    if body.len() == 0 {
        Seq::empty()
    } else {
        let r = policy_spec(body.drop_last());
        match policy_rule(body.last()) {
            Some(x) => r.push(x),
            None => r,
        }
    }
}

pub open spec fn rule_view(r: PolicyRule) -> (Seq<char>, Seq<(Seq<char>, Option<Seq<char>>)>) {
    (r.path@, r.gates@.map_values(|g: Gate| line::gate_view(g)))
}

pub open spec fn rules_view(v: Seq<PolicyRule>) -> Seq<(Seq<char>, Seq<(Seq<char>, Option<Seq<char>>)>)> {
    v.map_values(|r: PolicyRule| rule_view(r))
}

fn policy_rule_exec(l: &Vec<char>) -> (r: Option<PolicyRule>)
    ensures
        match r {
            Some(x) => policy_rule(l@) == Some(rule_view(x)),
            None => policy_rule(l@) is None,
        },
{
    match text::strip_prefix_str(l, "@") {
        Some(rest) => match text::find_str(&rest, ":") {
            Some(c) => {
                proof {
                    text::lemma_find_from(rest@, ":"@, 0);
                    reveal_strlit(":");
                }
                let rl = rest.len();
                let head = text::slice_of(&rest, 0, c);
                let tail = text::slice_of(&rest, c + 1, rl);
                assert(head@ =~= rest@.take(c as int));
                assert(tail@ =~= rest@.skip(c + 1));
                Some(
                    PolicyRule {
                        path: text::to_string(&text::trim_chars(&head)),
                        gates: line::extract_gates(&text::trim_chars(&tail)),
                    },
                )
            },
            None => {
                let gates: Vec<Gate> = Vec::new();
                assert(gates@.map_values(|g: Gate| line::gate_view(g)) =~= Seq::empty());
                Some(PolicyRule { path: text::to_string(&text::trim_chars(&rest)), gates })
            },
        },
        None => None,
    }
}

pub fn policy_rules(body: &Vec<Vec<char>>) -> (r: Vec<PolicyRule>)
    ensures
        rules_view(r@) == policy_spec(text::views(body@)),
{
    let ghost bv = text::views(body@);
    let mut out: Vec<PolicyRule> = Vec::new();
    let mut i: usize = 0;
    assert(rules_view(out@) =~= policy_spec(bv.take(0)));
    while i < body.len()
        invariant
            i <= body.len(),
            bv == text::views(body@),
            rules_view(out@) == policy_spec(bv.take(i as int)),
        decreases body.len() - i,
    {
        proof {
            assert(bv.take(i + 1).drop_last() =~= bv.take(i as int));
            assert(bv.take(i + 1).last() == bv[i as int]);
        }
        match policy_rule_exec(&body[i]) {
            Some(x) => {
                let ghost o = out@;
                out.push(x);
                assert(rules_view(o.push(x)) =~= rules_view(o).push(rule_view(x)));
            },
            None => {},
        }
        i = i + 1;
    }
    assert(bv.take(body.len() as int) =~= bv);
    out
}

// ── Checks ─────────────────────────────────────────────────────

/// Which attachment setting a key names (0 `id`, 1 `targets`,
/// 2 `requires`, 3 `blocks`, 4 `depends_on`).
pub open spec fn meta_key(key: Seq<char>) -> Option<int> {
    if key == "id"@ {
        Some(0)
    } else if key == "targets"@ {
        Some(1)
    } else if key == "requires"@ {
        Some(2)
    } else if key == "blocks"@ {
        Some(3)
    } else if key == "depends_on"@ {
        Some(4)
    } else {
        None
    }
}

pub open spec fn empty_meta() -> MetaView {
    MetaView {
        id: None,
        targets: Seq::empty(),
        requires: Seq::empty(),
        blocks: Seq::empty(),
        depends_on: Seq::empty(),
    }
}

/// The settings of a check's body lines: the attachment lines (a later one
/// replaces an earlier one), and the other `key: value` lines in order;
/// a line without `:` is dropped.
pub open spec fn check_fold(lines: Seq<Seq<char>>) -> (MetaView, Seq<(Seq<char>, Seq<char>)>)
    decreases lines.len(),
{
    if lines.len() == 0 {
        (empty_meta(), Seq::empty())
    } else {
        let (m, body) = check_fold(lines.drop_last());
        match text::split_once(lines.last(), ":"@) {
            Some((k, v)) => match meta_key(trim(k)) {
                Some(c) => (meta_set(m, c, trim(v)), body),
                None => (m, body.push((trim(k), trim(v)))),
            },
            None => (m, body),
        }
    }
}

/// Whether a check node is what its header and body lines say.
pub open spec fn check_matches(c: CheckDef, stripped: Seq<char>, body: Seq<Seq<char>>) -> bool {
    &&& c.name@ == trim(text::trim_start_matches(stripped, "check:"@))
    &&& (meta_view(c.meta), parse::pairs_view(c.body@)) == check_fold(body)
}

fn meta_key_exec(key: &Vec<char>) -> (r: Option<u8>)
    ensures
        r matches Some(c) ==> meta_key(key@) == Some(c as int),
        r is None ==> meta_key(key@) is None,
{
    if text::eq_str(key, "id") {
        Some(0)
    } else if text::eq_str(key, "targets") {
        Some(1)
    } else if text::eq_str(key, "requires") {
        Some(2)
    } else if text::eq_str(key, "blocks") {
        Some(3)
    } else if text::eq_str(key, "depends_on") {
        Some(4)
    } else {
        None
    }
}

/// Splits a check's body lines into its attachment settings and its other
/// settings.
pub fn check_body(lines: &Vec<Vec<char>>) -> (r: (AttachmentMeta, Vec<(String, String)>))
    ensures
        (meta_view(r.0), parse::pairs_view(r.1@)) == check_fold(text::views(lines@)),
{
    let ghost lv = text::views(lines@);
    let mut meta = AttachmentMeta {
        id: None,
        targets: Vec::new(),
        requires: Vec::new(),
        blocks: Vec::new(),
        depends_on: Vec::new(),
    };
    let mut body: Vec<(String, String)> = Vec::new();
    proof {
        let mv = meta_view(meta);
        assert(mv.targets =~= Seq::<Seq<char>>::empty());
        assert(mv.requires =~= Seq::<Seq<char>>::empty());
        assert(mv.blocks =~= Seq::<Seq<char>>::empty());
        assert(mv.depends_on =~= Seq::<Seq<char>>::empty());
        assert(lv.take(0) =~= Seq::<Seq<char>>::empty());
        assert(parse::pairs_view(body@) =~= Seq::<(Seq<char>, Seq<char>)>::empty());
    }
    let mut i: usize = 0;
    while i < lines.len()
        invariant
            i <= lines.len(),
            lv == text::views(lines@),
            (meta_view(meta), parse::pairs_view(body@)) == check_fold(lv.take(i as int)),
        decreases lines.len() - i,
    {
        proof {
            assert(lv.take(i + 1).drop_last() =~= lv.take(i as int));
            assert(lv.take(i + 1).last() == lines@[i as int]@);
        }
        match text::split_once_str(&lines[i], ":") {
            Some((k, v)) => {
                let key = text::trim_chars(&k);
                let value = text::trim_chars(&v);
                match meta_key_exec(&key) {
                    Some(c) => {
                        if c == 0 {
                            meta.id = Some(text::to_string(&value));
                        } else {
                            let names = text::to_strings(&line::names_list_exec(&value));
                            if c == 1 {
                                meta.targets = names;
                            } else if c == 2 {
                                meta.requires = names;
                            } else if c == 3 {
                                meta.blocks = names;
                            } else {
                                meta.depends_on = names;
                            }
                        }
                    },
                    None => {
                        let ghost b0 = body@;
                        body.push((text::to_string(&key), text::to_string(&value)));
                        assert(parse::pairs_view(body@) =~= parse::pairs_view(b0).push((key@, value@)));
                    },
                }
            },
            None => {},
        }
        i = i + 1;
    }
    assert(lv.take(lines.len() as int) =~= lv);
    (meta, body)
}

impl ParseCtx {
    /// `check: name` with its settings.
    pub fn parse_check(&mut self) -> (r: Option<Node>)
        requires
            line_kind(old(self).lv(), old(self).pos as int) == LineKind::Check,
            old(self).wf(),
            old(self).pos < old(self).lines@.len(),
        ensures
            forall|nest: nat| #[trigger] line_parsed(old(self).lv(), old(self).pos as int, nest, r, final(self).pos as int),
            final(self).first_error == old(self).first_error,
            final(self).wf(),
            final(self).lines == old(self).lines,
            old(self).pos < final(self).pos,
    {
        let raw = self.peek();
        self.advance();
        let stripped = line::strip_comment(&text::trim_chars(&raw));
        let name = text::trim_chars(&text::trim_start_matches_str(&stripped, "check:"));
        let base = Self::indent_of(&raw);
        let body = self.body_lines(base);
        proof {
            parse::lemma_body_scan(old(self).lv(), old(self).pos + 1, base as nat);
        }
        let (meta, kv) = check_body(&body);
        Some(Node::Check(CheckDef { name: text::to_string(&name), meta, body: kv }))
    }
}

// ── Entities ───────────────────────────────────────────────────

/// The name of `## Entity: Name`.
pub open spec fn entity_name(s: Seq<char>) -> Seq<char> {
    match text::strip_prefix(s, "## Entity:"@) {
        Some(r) => trim(r),
        None => match text::strip_prefix(s, "## Entity :"@) {
            Some(r) => trim(r),
            None => trim(s),
        },
    }
}

pub struct EntityView {
    pub source: Seq<char>,
    pub namespace: Seq<char>,
    pub identity: Seq<char>,
    pub fields: Seq<(Seq<char>, Seq<char>)>,
    pub in_fields: bool,
}

/// One body line of an entity: `fields:` opens the field list; a field is
/// `- name: type`; before the list, `source:`, `namespace:` and `identity:`
/// set those settings.
pub open spec fn entity_step(v: EntityView, l: Seq<char>) -> EntityView {
    if l == "fields:"@ {
        EntityView { in_fields: true, ..v }
    } else if v.in_fields {
        match text::split_once(trim(text::trim_start_matches(l, "-"@)), ":"@) {
            Some((n, t)) => EntityView { fields: v.fields.push((trim(n), trim(t))), ..v },
            None => v,
        }
    } else {
        match text::split_once(l, ":"@) {
            Some((k, val)) => {
                let key = trim(k);
                if key == "source"@ {
                    EntityView { source: trim(val), ..v }
                } else if key == "namespace"@ {
                    EntityView { namespace: trim(val), ..v }
                } else if key == "identity"@ {
                    EntityView { identity: trim(val), ..v }
                } else {
                    v
                }
            },
            None => v,
        }
    }
}

pub open spec fn entity_scan(lines: Seq<Seq<char>>) -> EntityView
    decreases lines.len(),
{
    if lines.len() == 0 {
        EntityView {
            source: Seq::empty(),
            namespace: Seq::empty(),
            identity: Seq::empty(),
            fields: Seq::empty(),
            in_fields: false,
        }
    } else {
        entity_step(entity_scan(lines.drop_last()), lines.last())
    }
}

pub open spec fn entity_fields_view(fs: Seq<EntityField>) -> Seq<(Seq<char>, Seq<char>)> {
    fs.map_values(|f: EntityField| (f.name@, f.field_type@))
}

/// Whether an entity node is what its header and body lines say.
pub open spec fn entity_matches(e: EntityDef, stripped: Seq<char>, body: Seq<Seq<char>>) -> bool {
    let v = entity_scan(body);
    &&& e.name@ == entity_name(stripped)
    &&& e.source@ == v.source
    &&& e.namespace@ == v.namespace
    &&& e.identity@ == v.identity
    &&& entity_fields_view(e.fields@) == v.fields
}

/// Reads an entity's body lines.
pub fn entity_body(name: String, lines: &Vec<Vec<char>>) -> (r: EntityDef)
    ensures
        r.name == name,
        ({
            let v = entity_scan(text::views(lines@));
            &&& r.source@ == v.source
            &&& r.namespace@ == v.namespace
            &&& r.identity@ == v.identity
            &&& entity_fields_view(r.fields@) == v.fields
        }),
{
    let ghost lv = text::views(lines@);
    let mut source: Vec<char> = Vec::new();
    let mut namespace: Vec<char> = Vec::new();
    let mut identity: Vec<char> = Vec::new();
    let mut fields: Vec<EntityField> = Vec::new();
    let mut in_fields = false;
    proof {
        assert(lv.take(0) =~= Seq::<Seq<char>>::empty());
        assert(entity_fields_view(fields@) =~= Seq::<(Seq<char>, Seq<char>)>::empty());
    }
    let mut i: usize = 0;
    while i < lines.len()
        invariant
            i <= lines.len(),
            lv == text::views(lines@),
            entity_scan(lv.take(i as int)) == (EntityView {
                source: source@,
                namespace: namespace@,
                identity: identity@,
                fields: entity_fields_view(fields@),
                in_fields,
            }),
        decreases lines.len() - i,
    {
        proof {
            assert(lv.take(i + 1).drop_last() =~= lv.take(i as int));
            assert(lv.take(i + 1).last() == lines@[i as int]@);
        }
        let l = &lines[i];
        if text::eq_str(l, "fields:") {
            in_fields = true;
        } else if in_fields {
            let f = text::trim_chars(&text::trim_start_matches_str(l, "-"));
            match text::split_once_str(&f, ":") {
                Some((n, t)) => {
                    let ghost f0 = fields@;
                    let n2 = text::trim_chars(&n);
                    let t2 = text::trim_chars(&t);
                    fields.push(EntityField { name: text::to_string(&n2), field_type: text::to_string(&t2) });
                    assert(entity_fields_view(fields@) =~= entity_fields_view(f0).push((n2@, t2@)));
                },
                None => {},
            }
        } else {
            match text::split_once_str(l, ":") {
                Some((k, val)) => {
                    let key = text::trim_chars(&k);
                    if text::eq_str(&key, "source") {
                        source = text::trim_chars(&val);
                    } else if text::eq_str(&key, "namespace") {
                        namespace = text::trim_chars(&val);
                    } else if text::eq_str(&key, "identity") {
                        identity = text::trim_chars(&val);
                    }
                },
                None => {},
            }
        }
        i = i + 1;
    }
    assert(lv.take(lines.len() as int) =~= lv);
    EntityDef {
        name,
        source: text::to_string(&source),
        namespace: text::to_string(&namespace),
        identity: text::to_string(&identity),
        fields,
    }
}

impl ParseCtx {
    /// `## Entity: Name` with its settings and fields.
    pub fn parse_entity(&mut self) -> (r: Option<Node>)
        requires
            line_kind(old(self).lv(), old(self).pos as int) == LineKind::Entity,
            old(self).wf(),
            old(self).pos < old(self).lines@.len(),
        ensures
            forall|nest: nat| #[trigger] line_parsed(old(self).lv(), old(self).pos as int, nest, r, final(self).pos as int),
            final(self).first_error == old(self).first_error,
            final(self).wf(),
            final(self).lines == old(self).lines,
            old(self).pos < final(self).pos,
    {
        let raw = self.peek();
        self.advance();
        let stripped = line::strip_comment(&text::trim_chars(&raw));
        let rest = match text::strip_prefix_str(&stripped, "## Entity:") {
            Some(r) => r,
            None => match text::strip_prefix_str(&stripped, "## Entity :") {
                Some(r) => r,
                None => stripped,
            },
        };
        let name = text::trim_chars(&rest);
        let base = Self::indent_of(&raw);
        let body = self.body_lines(base);
        proof {
            parse::lemma_body_scan(old(self).lv(), old(self).pos + 1, base as nat);
        }
        Some(Node::EntityDef(entity_body(text::to_string(&name), &body)))
    }
}

// ── Use declarations ───────────────────────────────────────────

/// What a `use` header says: the module, and for `use @Entity ...` the
/// entity, the module or workspace it comes from, and its alias.
pub struct UseView {
    pub mod_name: Seq<char>,
    pub entity: Option<Seq<char>>,
    pub from_mod: Option<Seq<char>>,
    pub from_workspace: Option<Seq<char>>,
    pub alias: Option<Seq<char>>,
}

/// The source and alias of `<source> [as @Alias]`.
pub open spec fn source_alias(from_rest: Seq<char>) -> (Seq<char>, Option<Seq<char>>) {
    match text::find(from_rest, " as @"@) {
        Some(i) => (trim(from_rest.take(i)), Some(trim(from_rest.skip(i + 5)))),
        None => (from_rest, None),
    }
}

pub open spec fn use_header(stripped: Seq<char>) -> UseView {
    let rest = trim(text::trim_start_matches(stripped, "use "@));
    if starts_with(rest, "@"@) {
        match text::split_once(rest, " from "@) {
            Some((p0, p1)) => {
                let entity = Some(text::trim_start_matches(trim(p0), "@"@));
                let (source, alias) = source_alias(trim(p1));
                if starts_with(source, "$"@) {
                    UseView {
                        mod_name: source,
                        entity,
                        from_mod: Some(text::trim_start_matches(source, "$"@)),
                        from_workspace: None,
                        alias,
                    }
                } else {
                    UseView {
                        mod_name: source,
                        entity,
                        from_mod: None,
                        from_workspace: text::strip_prefix(source, "@workspace:"@),
                        alias,
                    }
                }
            },
            None => UseView {
                mod_name: rest,
                entity: Some(text::trim_start_matches(trim(rest), "@"@)),
                from_mod: None,
                from_workspace: None,
                alias: None,
            },
        }
    } else {
        UseView { mod_name: first_word(rest), entity: None, from_mod: None, from_workspace: None, alias: None }
    }
}

/// Whether a `use` node is what its header and body lines say.
pub open spec fn use_matches(u: UseBlock, stripped: Seq<char>, body: Seq<Seq<char>>) -> bool {
    let h = use_header(stripped);
    &&& u.mod_name@ == h.mod_name
    &&& line::opt_str_view(u.entity) == h.entity
    &&& line::opt_str_view(u.from_mod) == h.from_mod
    &&& line::opt_str_view(u.from_workspace) == h.from_workspace
    &&& line::opt_str_view(u.alias) == h.alias
    &&& parse::pairs_view(u.config@) == parse::kv_pairs(body)
}

fn some_string(v: &Vec<char>) -> (r: Option<String>)
    ensures
        line::opt_str_view(r) == Some(v@),
{
    Some(text::to_string(v))
}

fn source_alias_exec(from_rest: &Vec<char>) -> (r: (Vec<char>, Option<String>))
    ensures
        (r.0@, line::opt_str_view(r.1)) == source_alias(from_rest@),
{
    match text::find_str(from_rest, " as @") {
        Some(i) => {
            proof {
                text::lemma_find_from(from_rest@, " as @"@, 0);
                reveal_strlit(" as @");
            }
            let src = text::trim_chars(&text::slice_of(from_rest, 0, i));
            let al = text::trim_chars(&text::slice_of(from_rest, i + 5, from_rest.len()));
            assert(from_rest@.subrange(0, i as int) =~= from_rest@.take(i as int));
            assert(from_rest@.subrange(i + 5, from_rest@.len() as int) =~= from_rest@.skip(i + 5));
            (src, some_string(&al))
        },
        None => (from_rest.clone(), None),
    }
}

/// Reads a `use` header.
pub fn use_node(stripped: &Vec<char>, config: Vec<(String, String)>) -> (r: UseBlock)
    ensures
        ({
            let h = use_header(stripped@);
            &&& r.mod_name@ == h.mod_name
            &&& line::opt_str_view(r.entity) == h.entity
            &&& line::opt_str_view(r.from_mod) == h.from_mod
            &&& line::opt_str_view(r.from_workspace) == h.from_workspace
            &&& line::opt_str_view(r.alias) == h.alias
        }),
        r.config == config,
{
    let rest = text::trim_chars(&text::trim_start_matches_str(stripped, "use "));
    if text::starts_with_str(&rest, "@") {
        match text::split_once_str(&rest, " from ") {
            Some((p0, p1)) => {
                let entity = some_string(&text::trim_start_matches_str(&text::trim_chars(&p0), "@"));
                let (source, alias) = source_alias_exec(&text::trim_chars(&p1));
                if text::starts_with_str(&source, "$") {
                    let fm = some_string(&text::trim_start_matches_str(&source, "$"));
                    UseBlock {
                        mod_name: text::to_string(&source),
                        config,
                        entity,
                        from_mod: fm,
                        from_workspace: None,
                        alias,
                    }
                } else {
                    let fw = match text::strip_prefix_str(&source, "@workspace:") {
                        Some(w) => some_string(&w),
                        None => None,
                    };
                    UseBlock {
                        mod_name: text::to_string(&source),
                        config,
                        entity,
                        from_mod: None,
                        from_workspace: fw,
                        alias,
                    }
                }
            },
            None => {
                let entity = some_string(&text::trim_start_matches_str(&text::trim_chars(&rest), "@"));
                UseBlock {
                    mod_name: text::to_string(&rest),
                    config,
                    entity,
                    from_mod: None,
                    from_workspace: None,
                    alias: None,
                }
            },
        }
    } else {
        UseBlock {
            mod_name: text::to_string(&first_word_exec(&rest)),
            config,
            entity: None,
            from_mod: None,
            from_workspace: None,
            alias: None,
        }
    }
}

impl ParseCtx {
    /// `use ...` with its configuration lines.
    pub fn parse_use(&mut self) -> (r: Option<Node>)
        requires
            line_kind(old(self).lv(), old(self).pos as int) == LineKind::Use,
            old(self).wf(),
            old(self).pos < old(self).lines@.len(),
        ensures
            forall|nest: nat| #[trigger] line_parsed(old(self).lv(), old(self).pos as int, nest, r, final(self).pos as int),
            final(self).first_error == old(self).first_error,
            final(self).wf(),
            final(self).lines == old(self).lines,
            old(self).pos < final(self).pos,
    {
        let raw = self.peek();
        self.advance();
        let stripped = line::strip_comment(&text::trim_chars(&raw));
        let base = Self::indent_of(&raw);
        let body = self.body_lines(base);
        proof {
            parse::lemma_body_scan(old(self).lv(), old(self).pos + 1, base as nat);
        }
        let kv = parse::kv_pairs_exec(&body);
        Some(Node::UseBlock(use_node(&stripped, kv)))
    }
}

// ── Serve ──────────────────────────────────────────────────────

/// `serve:target|command|`: the target before the first `|`, the command
/// up to the next `|` (or the end); without `|`, the whole rest is the
/// target.
pub open spec fn serve_header(stripped: Seq<char>) -> (Seq<char>, Seq<char>) {
    let rest = text::trim_start_matches(stripped, "serve:"@);
    match text::find(rest, "|"@) {
        Some(i) => {
            let after = rest.skip(i + 1);
            (trim(rest.take(i)), match text::find(after, "|"@) {
                Some(j) => trim(after.take(j)),
                None => trim(after),
            })
        },
        None => (trim(rest), Seq::empty()),
    }
}

/// The `port:` and `open:` settings of a serve body; a later line replaces
/// an earlier one.
pub open spec fn serve_scan(lines: Seq<Seq<char>>) -> (Option<Seq<char>>, Option<Seq<char>>)
    decreases lines.len(),
{
    if lines.len() == 0 {
        (None, None)
    } else {
        let (port, open) = serve_scan(lines.drop_last());
        match text::split_once(lines.last(), ":"@) {
            Some((k, v)) => if trim(k) == "port"@ {
                (Some(trim(v)), open)
            } else if trim(k) == "open"@ {
                (port, Some(trim(v)))
            } else {
                (port, open)
            },
            None => (port, open),
        }
    }
}

pub open spec fn serve_matches(sv: ServeDef, stripped: Seq<char>, body: Seq<Seq<char>>) -> bool {
    &&& (sv.target@, sv.command@) == serve_header(stripped)
    &&& (line::opt_str_view(sv.port), line::opt_str_view(sv.open)) == serve_scan(body)
}

fn after_bar(s: &Vec<char>) -> (r: Option<(Vec<char>, Vec<char>)>)
    ensures
        match r {
            Some((a, b)) => text::find(s@, "|"@) matches Some(i) && a@ == s@.take(i) && b@ == s@.skip(i + 1),
            None => text::find(s@, "|"@) is None,
        },
{
    match text::find_str(s, "|") {
        Some(i) => {
            assert(i < s.len()) by {
                reveal_strlit("|");
                text::lemma_find_from(s@, "|"@, 0);
            }
            let a = text::slice_of(s, 0, i);
            let b = text::slice_of(s, i + 1, s.len());
            assert(a@ =~= s@.take(i as int));
            assert(b@ =~= s@.skip(i + 1));
            Some((a, b))
        },
        None => None,
    }
}

pub fn serve_node(stripped: &Vec<char>, lines: &Vec<Vec<char>>) -> (r: ServeDef)
    ensures
        serve_matches(r, stripped@, text::views(lines@)),
{
    let rest = text::trim_start_matches_str(stripped, "serve:");
    let (target, command) = match after_bar(&rest) {
        Some((a, after)) => {
            let cmd = match after_bar(&after) {
                Some((c, _)) => text::trim_chars(&c),
                None => text::trim_chars(&after),
            };
            (text::trim_chars(&a), cmd)
        },
        None => (text::trim_chars(&rest), Vec::new()),
    };
    let ghost lv = text::views(lines@);
    let mut port: Option<String> = None;
    let mut open: Option<String> = None;
    let mut i: usize = 0;
    assert(lv.take(0) =~= Seq::<Seq<char>>::empty());
    while i < lines.len()
        invariant
            i <= lines.len(),
            lv == text::views(lines@),
            (line::opt_str_view(port), line::opt_str_view(open)) == serve_scan(lv.take(i as int)),
        decreases lines.len() - i,
    {
        proof {
            assert(lv.take(i + 1).drop_last() =~= lv.take(i as int));
            assert(lv.take(i + 1).last() == lines@[i as int]@);
        }
        match text::split_once_str(&lines[i], ":") {
            Some((k, v)) => {
                let key = text::trim_chars(&k);
                if text::eq_str(&key, "port") {
                    port = Some(text::to_string(&text::trim_chars(&v)));
                } else if text::eq_str(&key, "open") {
                    open = Some(text::to_string(&text::trim_chars(&v)));
                }
            },
            None => {},
        }
        i = i + 1;
    }
    assert(lv.take(lines.len() as int) =~= lv);
    ServeDef { target: text::to_string(&target), command: text::to_string(&command), port, open }
}

impl ParseCtx {
    /// `serve:target|command|` with its settings.
    pub fn parse_serve(&mut self) -> (r: Option<Node>)
        requires
            line_kind(old(self).lv(), old(self).pos as int) == LineKind::Serve,
            old(self).wf(),
            old(self).pos < old(self).lines@.len(),
        ensures
            forall|nest: nat| #[trigger] line_parsed(old(self).lv(), old(self).pos as int, nest, r, final(self).pos as int),
            final(self).first_error == old(self).first_error,
            final(self).wf(),
            final(self).lines == old(self).lines,
            old(self).pos < final(self).pos,
    {
        let raw = self.peek();
        self.advance();
        let stripped = line::strip_comment(&text::trim_chars(&raw));
        let base = Self::indent_of(&raw);
        let body = self.body_lines(base);
        proof {
            parse::lemma_body_scan(old(self).lv(), old(self).pos + 1, base as nat);
        }
        Some(Node::Serve(serve_node(&stripped, &body)))
    }
}

// ── Metrics ────────────────────────────────────────────────────

pub open spec fn metric_name(s: Seq<char>) -> Seq<char> {
    match text::strip_prefix(s, "## Metric:"@) {
        Some(r) => trim(r),
        None => match text::strip_prefix(s, "## Metric :"@) {
            Some(r) => trim(r),
            None => trim(s),
        },
    }
}

pub struct MetricView {
    pub source: Option<Seq<char>>,
    pub grain: Option<Seq<char>>,
    pub dimensions: Seq<Seq<char>>,
    pub formula: Seq<char>,
    pub cross_source: bool,
    pub in_formula: bool,
}

/// `[a, b]`: the names between the brackets.
pub open spec fn dims_spec(v: Seq<char>) -> Seq<Seq<char>> {
    line::names_list(text::trim_end_matches(text::trim_start_matches(v, "["@), "]"@))
}

/// One raw line of a metric's block. Once `formula: |` (or an empty
/// `formula:`) is read, every later line belongs to the formula: a blank
/// line adds a line break, another line adds itself, trimmed, on a line of
/// its own. Before that, the settings are read from the lines without
/// their comments.
pub open spec fn metric_step(v: MetricView, raw: Seq<char>) -> MetricView {
    let t = trim(raw);
    if t.len() == 0 {
        if v.in_formula {
            MetricView { formula: v.formula + "\n"@, ..v }
        } else {
            v
        }
    } else if v.in_formula {
        MetricView {
            formula: if v.formula.len() == 0 {
                t
            } else {
                v.formula + "\n"@ + t
            },
            ..v
        }
    } else {
        match text::split_once(line::strip_comment_spec(t), ":"@) {
            Some((k, x)) => {
                let key = trim(k);
                let val = trim(x);
                if key == "source"@ {
                    MetricView { source: Some(val), ..v }
                } else if key == "grain"@ {
                    MetricView { grain: Some(val), ..v }
                } else if key == "cross_source"@ {
                    MetricView { cross_source: val == "true"@, ..v }
                } else if key == "dimensions"@ {
                    MetricView { dimensions: dims_spec(val), ..v }
                } else if key == "formula"@ {
                    if val == "|"@ || val.len() == 0 {
                        MetricView { in_formula: true, ..v }
                    } else {
                        MetricView { formula: val, ..v }
                    }
                } else {
                    v
                }
            },
            None => v,
        }
    }
}

pub open spec fn metric_fold(raws: Seq<Seq<char>>) -> MetricView
    decreases raws.len(),
{
    if raws.len() == 0 {
        MetricView {
            source: None,
            grain: None,
            dimensions: Seq::empty(),
            formula: Seq::empty(),
            cross_source: false,
            in_formula: false,
        }
    } else {
        metric_step(metric_fold(raws.drop_last()), raws.last())
    }
}

/// Whether a metric node is what its header and the raw lines of its block
/// say; the formula is trimmed at the end.
pub open spec fn metric_matches(m: MetricDef, stripped: Seq<char>, raws: Seq<Seq<char>>) -> bool {
    let v = metric_fold(raws);
    &&& m.name@ == metric_name(stripped)
    &&& line::opt_str_view(m.source) == v.source
    &&& line::opt_str_view(m.grain) == v.grain
    &&& text::str_views(m.dimensions@) == v.dimensions
    &&& m.formula@ == trim(v.formula)
    &&& m.cross_source == v.cross_source
}

/// Reads the raw lines `from..to` of a metric's block.
pub fn metric_body(name: String, lines: &Vec<Vec<char>>, from: usize, to: usize) -> (r: MetricDef)
    requires
        from <= to <= lines.len(),
    ensures
        ({
            let v = metric_fold(text::views(lines@).subrange(from as int, to as int));
            &&& r.name == name
            &&& line::opt_str_view(r.source) == v.source
            &&& line::opt_str_view(r.grain) == v.grain
            &&& text::str_views(r.dimensions@) == v.dimensions
            &&& r.formula@ == trim(v.formula)
            &&& r.cross_source == v.cross_source
        }),
{
    let ghost raws = text::views(lines@).subrange(from as int, to as int);
    let mut source: Option<String> = None;
    let mut grain: Option<String> = None;
    let mut dims: Vec<String> = Vec::new();
    let mut formula: Vec<char> = Vec::new();
    let mut cross = false;
    let mut in_formula = false;
    let mut j: usize = from;
    assert(raws.take(0) =~= Seq::<Seq<char>>::empty());
    assert(text::str_views(dims@) =~= Seq::<Seq<char>>::empty());
    while j < to
        invariant
            from <= j <= to <= lines.len(),
            raws == text::views(lines@).subrange(from as int, to as int),
            metric_fold(raws.take(j - from)) == (MetricView {
                source: line::opt_str_view(source),
                grain: line::opt_str_view(grain),
                dimensions: text::str_views(dims@),
                formula: formula@,
                cross_source: cross,
                in_formula,
            }),
        decreases to - j,
    {
        proof {
            assert(raws.take(j - from + 1).drop_last() =~= raws.take(j - from));
            assert(raws.take(j - from + 1).last() == lines@[j as int]@);
        }
        let t = text::trim_chars(&lines[j]);
        if t.len() == 0 {
            if in_formula {
                text::append_str(&mut formula, "\n");
            }
        } else if in_formula {
            if formula.len() == 0 {
                formula = t;
            } else {
                text::append_str(&mut formula, "\n");
                text::append(&mut formula, &t);
            }
        } else {
            match text::split_once_str(&line::strip_comment(&t), ":") {
                Some((k, x)) => {
                    let key = text::trim_chars(&k);
                    let val = text::trim_chars(&x);
                    if text::eq_str(&key, "source") {
                        source = Some(text::to_string(&val));
                    } else if text::eq_str(&key, "grain") {
                        grain = Some(text::to_string(&val));
                    } else if text::eq_str(&key, "cross_source") {
                        cross = text::eq_str(&val, "true");
                    } else if text::eq_str(&key, "dimensions") {
                        let inner = text::trim_end_matches_str(&text::trim_start_matches_str(&val, "["), "]");
                        dims = text::to_strings(&line::names_list_exec(&inner));
                    } else if text::eq_str(&key, "formula") {
                        if text::eq_str(&val, "|") || val.len() == 0 {
                            in_formula = true;
                        } else {
                            formula = val;
                        }
                    }
                },
                None => {},
            }
        }
        j = j + 1;
    }
    assert(raws.take(to - from) =~= raws);
    MetricDef {
        name,
        source,
        grain,
        dimensions: dims,
        formula: text::to_string(&text::trim_chars(&formula)),
        cross_source: cross,
    }
}

impl ParseCtx {
    /// `## Metric: Name` with its settings and formula.
    pub fn parse_metric(&mut self) -> (r: Option<Node>)
        requires
            line_kind(old(self).lv(), old(self).pos as int) == LineKind::Metric,
            old(self).wf(),
            old(self).pos < old(self).lines@.len(),
        ensures
            forall|nest: nat| #[trigger] line_parsed(old(self).lv(), old(self).pos as int, nest, r, final(self).pos as int),
            final(self).first_error == old(self).first_error,
            final(self).wf(),
            final(self).lines == old(self).lines,
            old(self).pos < final(self).pos,
    {
        let raw = self.peek();
        self.advance();
        let stripped = line::strip_comment(&text::trim_chars(&raw));
        let rest = match text::strip_prefix_str(&stripped, "## Metric:") {
            Some(r) => r,
            None => match text::strip_prefix_str(&stripped, "## Metric :") {
                Some(r) => r,
                None => stripped,
            },
        };
        let name = text::trim_chars(&rest);
        let base = Self::indent_of(&raw);
        let start = self.pos;
        let _body = self.body_lines(base);
        proof {
            parse::lemma_body_scan(old(self).lv(), old(self).pos + 1, base as nat);
        }
        let end = self.pos;
        Some(Node::MetricDef(metric_body(text::to_string(&name), &self.lines, start, end)))
    }
}

// ── Lattice lines ──────────────────────────────────────────────

/// The children of a `lattice_constraint:` block: the last `rule:` and
/// `applies_to:` lines set those, the other children stay.
pub open spec fn constraint_colon(cs: Seq<Node>) -> (Seq<char>, Seq<Seq<char>>, Seq<Node>)
    decreases cs.len(),
{
    if cs.len() == 0 {
        (Seq::empty(), Seq::empty(), Seq::empty())
    } else {
        let (rule, applies, rem) = constraint_colon(cs.drop_last());
        let x = cs.last();
        match x {
            Node::Prose(p) => {
                let t = trim(p.text@);
                match text::strip_prefix(t, "rule:"@) {
                    Some(v) => (trim(v), applies, rem),
                    None => match text::strip_prefix(t, "applies_to:"@) {
                        Some(v) => (rule, line::names_list(trim(v)), rem),
                        None => (rule, applies, rem.push(x)),
                    },
                }
            },
            _ => (rule, applies, rem.push(x)),
        }
    }
}

/// The children of a `pressure_effect:` block: the last `dynamic:` and
/// `target:` lines.
pub open spec fn pressure_colon(cs: Seq<Node>) -> (Seq<char>, Option<Seq<char>>)
    decreases cs.len(),
{
    if cs.len() == 0 {
        (Seq::empty(), None)
    } else {
        let (d, tg) = pressure_colon(cs.drop_last());
        match cs.last() {
            Node::Prose(p) => {
                let t = trim(p.text@);
                match text::strip_prefix(t, "dynamic:"@) {
                    Some(v) => (trim(v), tg),
                    None => match text::strip_prefix(t, "target:"@) {
                        Some(v) => (d, Some(trim(v))),
                        None => (d, tg),
                    },
                }
            },
            _ => (d, tg),
        }
    }
}

/// The type that a `lattice_constraint: type` line names, if any.
pub open spec fn constraint_type_spec(t: Seq<char>) -> Option<Seq<char>> {
    let rest = trim(text::trim_start_matches(t, "lattice_constraint:"@));
    if rest.len() == 0 {
        None
    } else {
        Some(rest)
    }
}

/// Whether node `n` is the lattice section of kind `k` that a line (its
/// trimmed text `t`) and the nodes of its block give.
pub open spec fn colon_matches(k: int, t: Seq<char>, all: Seq<Node>, n: Node) -> bool {
    if k == 2 {
        n matches Node::LatticeConstraint(l) && line::opt_str_view(l.constraint_type) == constraint_type_spec(t)
            && (l.rule@, text::str_views(l.applies_to@), l.children@) == constraint_colon(all)
    } else if k == 5 {
        n matches Node::PressureEffect(pe) && (pe.dynamic@, line::opt_str_view(pe.target)) == pressure_colon(all)
    } else {
        crate::canon::lattice_matches(k, all, n)
    }
}

fn constraint_colon_exec(cs: Vec<Node>) -> (r: (String, Vec<String>, Vec<Node>))
    ensures
        (r.0@, text::str_views(r.1@), r.2@) == constraint_colon(cs@),
{
    let ghost orig = cs@;
    let mut todo = cs;
    let mut rule: Vec<char> = Vec::new();
    let mut applies: Vec<String> = Vec::new();
    let mut rem: Vec<Node> = Vec::new();
    assert(orig.take(0) =~= Seq::<Node>::empty());
    assert(text::str_views(applies@) =~= Seq::<Seq<char>>::empty());
    while todo.len() > 0
        invariant
            todo@.len() <= orig.len(),
            todo@ == orig.skip(orig.len() - todo@.len()),
            (rule@, text::str_views(applies@), rem@) == constraint_colon(orig.take(orig.len() - todo@.len())),
        decreases todo@.len(),
    {
        let ghost k = orig.len() - todo@.len();
        let x = todo.remove(0);
        proof {
            assert(x == orig[k]);
            assert(todo@ =~= orig.skip(k + 1));
            assert(orig.take(k + 1).drop_last() =~= orig.take(k));
            assert(orig.take(k + 1).last() == x);
        }
        match crate::canon::prose_trim(&x) {
            Some(t) => match text::strip_prefix_str(&t, "rule:") {
                Some(v) => {
                    rule = text::trim_chars(&v);
                },
                None => match text::strip_prefix_str(&t, "applies_to:") {
                    Some(v) => {
                        applies = text::to_strings(&line::names_list_exec(&text::trim_chars(&v)));
                    },
                    None => {
                        rem.push(x);
                    },
                },
            },
            None => {
                rem.push(x);
            },
        }
    }
    assert(orig.take(orig.len() as int) =~= orig);
    (text::to_string(&rule), applies, rem)
}

fn pressure_colon_exec(cs: &Vec<Node>) -> (r: (String, Option<String>))
    ensures
        (r.0@, line::opt_str_view(r.1)) == pressure_colon(cs@),
{
    let mut d: Vec<char> = Vec::new();
    let mut tg: Option<String> = None;
    let mut i: usize = 0;
    assert(cs@.take(0) =~= Seq::<Node>::empty());
    while i < cs.len()
        invariant
            i <= cs.len(),
            (d@, line::opt_str_view(tg)) == pressure_colon(cs@.take(i as int)),
        decreases cs.len() - i,
    {
        assert(cs@.take(i + 1).drop_last() =~= cs@.take(i as int));
        assert(cs@.take(i + 1).last() == cs@[i as int]);
        match crate::canon::prose_trim(&cs[i]) {
            Some(t) => match text::strip_prefix_str(&t, "dynamic:") {
                Some(v) => {
                    d = text::trim_chars(&v);
                },
                None => match text::strip_prefix_str(&t, "target:") {
                    Some(v) => {
                        tg = Some(text::to_string(&text::trim_chars(&v)));
                    },
                    None => {},
                },
            },
            None => {},
        }
        i = i + 1;
    }
    assert(cs@.take(cs.len() as int) =~= cs@);
    (text::to_string(&d), tg)
}

impl ParseCtx {
    /// A lattice line (`lattice_validates:` and the others) with its block.
    pub fn parse_lattice(&mut self, nesting: usize) -> (r: Option<Node>)
        requires
            line_kind(old(self).lv(), old(self).pos as int) == LineKind::Lattice,
            old(self).wf(),
            old(self).pos < old(self).lines@.len(),
            nesting < MAX_DEPTH,
        ensures
            err_view(final(self).first_error) == err_after(
                old(self).first_error,
                line_err(old(self).lv(), old(self).pos as int, nesting as nat),
            ),
            old(self).first_error is None && final(self).first_error is None ==> line_parsed(
                old(self).lv(),
                old(self).pos as int,
                nesting as nat,
                r,
                final(self).pos as int,
            ),
            final(self).wf(),
            final(self).lines == old(self).lines,
            old(self).pos < final(self).pos,
        decreases old(self).lines@.len() - old(self).pos, 0int,
    {
        let raw = self.peek();
        self.advance();
        let trimmed = text::trim_chars(&raw);
        let stripped = line::strip_comment(&trimmed);
        let k = lattice_line_exec(&stripped);
        let indent = Self::indent_of(&raw);
        let mi = if indent <= usize::MAX - 4 {
            indent + 4
        } else {
            usize::MAX
        };
        let nk = if k >= 6 {
            nesting + 1
        } else {
            0
        };
        let children = self.parse_block(mi, nk);
        let ghost block = children@;
        let node = if k == 2 {
            let ct = text::trim_chars(&text::trim_start_matches_str(&trimmed, "lattice_constraint:"));
            let constraint_type = if ct.len() == 0 {
                None
            } else {
                Some(text::to_string(&ct))
            };
            let (rule, applies_to, rest) = constraint_colon_exec(children);
            Node::LatticeConstraint(crate::types::LatticeConstraintDef { constraint_type, rule, applies_to, children: rest })
        } else if k == 5 {
            let (dynamic, target) = pressure_colon_exec(&children);
            Node::PressureEffect(crate::types::PressureEffectDef { dynamic, target })
        } else {
            crate::canon::lattice_node(k, children)
        };
        assert(colon_matches(k as int, trimmed@, block, node));
        Some(node)
    }
}

// ── Git operations ─────────────────────────────────────────────

/// `git:verb args`: the verb up to the first whitespace character and the
/// text after that character (the whole rest and no arguments when there
/// is none).
pub open spec fn git_header(stripped: Seq<char>) -> (Seq<char>, Seq<char>) {
    let rest = trim(text::trim_start_matches(stripped, "git:"@));
    let k = text::lead_count(rest, text::non_ws_pred());
    if k < rest.len() {
        (rest.take(k as int), rest.skip(k as int + 1))
    } else {
        (rest, Seq::empty())
    }
}

fn git_header_exec(stripped: &Vec<char>) -> (r: (Vec<char>, Vec<char>))
    ensures
        (r.0@, r.1@) == git_header(stripped@),
{
    let rest = text::trim_chars(&text::trim_start_matches_str(stripped, "git:"));
    let mut k: usize = 0;
    while k < rest.len() && !text::char_is_ws(rest[k])
        invariant
            k <= rest.len(),
            forall|j: int| 0 <= j < k ==> #[trigger] text::non_ws_pred()(rest@[j]),
        decreases rest.len() - k,
    {
        k = k + 1;
    }
    proof {
        text::lemma_lead_count(rest@, text::non_ws_pred(), k as int);
    }
    let n = rest.len();
    if k < n {
        let verb = text::slice_of(&rest, 0, k);
        let args = text::slice_of(&rest, k + 1, n);
        assert(verb@ =~= rest@.take(k as int));
        assert(args@ =~= rest@.skip(k + 1));
        (verb, args)
    } else {
        (rest, Vec::new())
    }
}

/// Whether a git node carries the header of line `raw` and the settings of
/// `body`.
pub open spec fn git_matches(g: GitOp, raw: Seq<char>, body: Seq<Seq<char>>) -> bool {
    (g.verb@, g.args@) == git_header(header_of(raw)) && parse::pairs_view(g.body@) == parse::kv_pairs(
        body,
    )
}

// ── Sync declarations ──────────────────────────────────────────

/// The name after `sync:`.
pub open spec fn sync_name(raw: Seq<char>) -> Seq<char> {
    trim(text::trim_start_matches(header_of(raw), "sync:"@))
}

/// The value of the first `key: value` setting for `key`, or nothing.
pub open spec fn setting(pairs: Seq<(Seq<char>, Seq<char>)>, key: Seq<char>) -> Seq<char> {
    match first_value(pairs, key) {
        Some(v) => v,
        None => Seq::empty(),
    }
}

/// Whether a sync declaration carries the name of line `raw` and the
/// settings of `body`.
pub open spec fn sync_matches(sd: SyncDef, raw: Seq<char>, body: Seq<Seq<char>>) -> bool {
    let kv = parse::kv_pairs(body);
    &&& sd.name@ == sync_name(raw)
    &&& sd.class@ == setting(kv, "class"@)
    &&& sd.source@ == setting(kv, "source"@)
    &&& sd.identity@ == setting(kv, "identity"@)
    &&& sd.mode@ == setting(kv, "mode"@)
    &&& sd.target@ == setting(kv, "target"@)
    &&& sd.schedule@ == setting(kv, "schedule"@)
    &&& sd.scope@ == setting(kv, "scope"@)
}

pub(crate) fn setting_exec(pairs: &Vec<(String, String)>, key: &str) -> (r: String)
    ensures
        r@ == setting(parse::pairs_view(pairs@), key@),
{
    match first_value_exec(pairs, key) {
        Some(v) => text::to_string(&v),
        None => String::new(),
    }
}

// ── Recursive descent ───────────────────────────────────────────

/// Whether a group node carries the header of line `raw`.
pub open spec fn group_matches(g: Group, raw: Seq<char>) -> bool {
    let (d, name, atoms, gates) = parse::group_header_spec(raw);
    &&& g.depth == d
    &&& g.name@ == name
    &&& line::atoms_view(g.atoms@) == atoms
    &&& g.gates@.map_values(|x: crate::types::Gate| line::gate_view(x)) == gates
}

/// Whether a task node carries the header of line `raw`.
pub open spec fn task_matches(t: Task, raw: Seq<char>) -> bool {
    match parse::task_header_spec(raw) {
        Some((marker, label, txt, gates, closes)) => {
            &&& t.marker == marker
            &&& line::opt_str_view(t.label) == label
            &&& t.text@ == txt
            &&& spans::inlines_view(t.inline@) == spans::parse_inline_spec(txt)
            &&& t.gates@.map_values(|x: crate::types::Gate| line::gate_view(x)) == gates
            &&& t.closes == closes
        },
        None => false,
    }
}

/// What a one-line construct holds, given its trimmed line `t` and that
/// line without its comment `s`; constructs with a body are described by
/// the functions that read them.
pub open spec fn leaf_matches(k: LineKind, t: Seq<char>, s: Seq<char>, n: Node) -> bool {
    match n {
        Node::Comment(c) => c.text@ == parse::comment_spec(t),
        Node::Delete(d) => (d.entity@, d.id@, line::opt_str_view(d.mod_scope), line::opt_str_view(
            d.workspace_scope,
        )) == parse::delete_spec(s),
        Node::ModInvoke(m) => if k == LineKind::ModInvoke {
            m.method is Some && (m.name@, m.method->0@, line::opt_str_view(m.args))
                == parse::mod_invoke_spec(s.skip(4))
        } else {
            (m.name@, line::opt_str_view(m.method), line::opt_str_view(m.args))
                == direct_invoke_spec(s)
        },
        Node::Snap(x) => x.name@ == parse::quoted_value_spec(s, "snap:"@),
        Node::Diff(d) => (d.target@, line::opt_str_view(d.from_snapshot)) == parse::diff_spec(s),
        Node::History(h) => (h.target@, h.limit) == parse::history_spec(s),
        Node::StatusDef(x) => text::str_views(x.options@) == parse::status_spec(s),
        Node::Bold(b) => b.text@ == s.subrange(2, s.len() - 2),
        Node::Remember(x) => x.content@ == parse::quoted_value_spec(s, "remember:"@),
        Node::Recall(x) => x.query@ == parse::quoted_value_spec(s, "recall:"@),
        Node::EmbedMarker(x) => x.tag@ == trim(s.skip(1)),
        Node::Escalate(x) => x.target@ == parse::plain_value_spec(s, "escalate:"@),
        Node::Variable(v) => line::variable_spec(s) == Some(line::variable_view(v)),
        Node::Routine(x) => (x.trigger@, x.expr@) == parse::routine_spec(s),
        Node::Prose(p) => p.text@ == t && spans::inlines_view(p.inline@) == spans::parse_inline_spec(
            s,
        ),
        Node::Webhook(w) => (w.trigger@, w.url@, line::opt_str_view(w.payload)) == webhook_spec(s),
        _ => true,
    }
}

// ── The block structure of a parse ─────────────────────────────

/// The indentation that a construct's block must exceed.
pub open spec fn child_indent(line: Seq<char>) -> nat {
    let i = text::indent_of(line);
    if i < usize::MAX {
        i + 1
    } else {
        i
    }
}

/// The kind of line `pos`.
pub open spec fn line_kind(lv: Seq<Seq<char>>, pos: int) -> LineKind {
    let t = trim(lv[pos]);
    kind_of(t, line::strip_comment_spec(t))
}

/// A position after `pos`, at most the end of the lines.
pub open spec fn clamp_end(e: int, pos: int, len: int) -> int {
    if e <= pos {
        pos + 1
    } else if e > len {
        len
    } else {
        e
    }
}

/// Where the construct that line `pos` opens ends, at nesting level `nest`.
pub open spec fn line_end(lv: Seq<Seq<char>>, pos: int, nest: nat) -> int
    decreases lv.len() - pos, 0int,
{
    if pos < 0 || pos >= lv.len() {
        pos + 1
    } else {
        match line_kind(lv, pos) {
            LineKind::Code => fence_scan(lv, pos + 1).1,
            LineKind::Define => body_of(lv, pos).1,
            LineKind::Mutate => body_of(lv, pos).1,
            LineKind::QueryBlock => body_of(lv, pos).1,
            LineKind::Flow => body_of(lv, pos).1,
            LineKind::States => body_of(lv, pos).1,
            LineKind::Form => body_of(lv, pos).1,
            LineKind::Files => body_of(lv, pos).1,
            LineKind::Policy => body_of(lv, pos).1,
            LineKind::Sync => if sync_name(lv[pos]).len() == 0 {
                pos + 1
            } else {
                body_of(lv, pos).1
            },
            LineKind::Git => body_of(lv, pos).1,
            LineKind::Check => body_of(lv, pos).1,
            LineKind::Entity => body_of(lv, pos).1,
            LineKind::Use => body_of(lv, pos).1,
            LineKind::Serve => body_of(lv, pos).1,
            LineKind::Metric => body_of(lv, pos).1,
            LineKind::ModDef => mod_scan(lv, pos + 1, text::indent_of(lv[pos]), None).1,
            LineKind::Group => block_end(lv, pos + 1, child_indent(lv[pos]), nest + 1),
            LineKind::Validate => block_end(lv, pos + 1, child_indent(lv[pos]), nest + 1),
            LineKind::Lattice => block_end(
                lv,
                pos + 1,
                lattice_mi(lv[pos]),
                lattice_nest(lattice_line(line::strip_comment_spec(trim(lv[pos]))), nest),
            ),
            LineKind::Conditional => block_end(lv, pos + 1, child_indent(lv[pos]), nest + 1),
            LineKind::Scope => scope_end(lv, pos + 1, child_indent(lv[pos]), nest + 1),
            LineKind::Task => if parse::task_header_spec(lv[pos]) is Some {
                block_end(lv, pos + 1, child_indent(lv[pos]), nest + 1)
            } else {
                pos + 1
            },
            LineKind::GateDef => block_end(lv, pos + 1, child_indent(lv[pos]), 1),
            _ => pos + 1,
        }
    }
}

/// Where a block that starts at `pos` ends: at the first non-blank line
/// indented less than `mi`, or at the end of the lines.
pub open spec fn block_end(lv: Seq<Seq<char>>, pos: int, mi: nat, nest: nat) -> int
    decreases lv.len() - pos, 1int,
{
    if nest >= MAX_DEPTH || pos < 0 || pos >= lv.len() {
        pos
    } else if trim(lv[pos]).len() == 0 {
        block_end(lv, pos + 1, mi, nest)
    } else if text::indent_of(lv[pos]) < mi {
        pos
    } else {
        block_end(lv, clamp_end(line_end(lv, pos, nest), pos, lv.len() as int), mi, nest)
    }
}

/// The line after `pos` is a non-blank line indented less than `mi`.
pub open spec fn dedent_next(lv: Seq<Seq<char>>, pos: int, mi: nat) -> bool {
    pos + 1 < lv.len() && trim(lv[pos + 1]).len() != 0 && text::indent_of(lv[pos + 1]) < mi
}

/// Where the lines of a scope that start at `pos` end: like a block, but a
/// divider line also ends the scope, and is read with it, except right
/// after a blank line that a dedented line follows, where the scope ends.
pub open spec fn scope_end(lv: Seq<Seq<char>>, pos: int, mi: nat, nest: nat) -> int
    decreases lv.len() - pos, 1int,
{
    if nest >= MAX_DEPTH || pos < 0 || pos >= lv.len() {
        pos
    } else if trim(lv[pos]).len() == 0 {
        if dedent_next(lv, pos, mi) {
            pos + 1
        } else {
            scope_end(lv, pos + 1, mi, nest)
        }
    } else if is_divider(trim(lv[pos])) {
        pos + 1
    } else if text::indent_of(lv[pos]) < mi {
        pos
    } else {
        scope_end(lv, clamp_end(line_end(lv, pos, nest), pos, lv.len() as int), mi, nest)
    }
}

/// The line (counted from one) of the first `sync:` declaration without a
/// name that reading the construct at `pos` meets, if any.
pub open spec fn line_err(lv: Seq<Seq<char>>, pos: int, nest: nat) -> Option<int>
    decreases lv.len() - pos, 0int,
{
    if pos < 0 || pos >= lv.len() {
        None
    } else {
        match line_kind(lv, pos) {
            LineKind::Sync => if sync_name(lv[pos]).len() == 0 {
                Some(pos + 1)
            } else {
                None
            },
            LineKind::Group => block_err(lv, pos + 1, child_indent(lv[pos]), nest + 1),
            LineKind::Validate => block_err(lv, pos + 1, child_indent(lv[pos]), nest + 1),
            LineKind::Lattice => block_err(
                lv,
                pos + 1,
                lattice_mi(lv[pos]),
                lattice_nest(lattice_line(line::strip_comment_spec(trim(lv[pos]))), nest),
            ),
            LineKind::Conditional => block_err(lv, pos + 1, child_indent(lv[pos]), nest + 1),
            LineKind::Scope => scope_err(lv, pos + 1, child_indent(lv[pos]), nest + 1),
            LineKind::Task => if parse::task_header_spec(lv[pos]) is Some {
                block_err(lv, pos + 1, child_indent(lv[pos]), nest + 1)
            } else {
                None
            },
            LineKind::GateDef => block_err(lv, pos + 1, child_indent(lv[pos]), 1),
            _ => None,
        }
    }
}

/// The line of the first `sync:` declaration without a name that reading
/// the block starting at `pos` meets, if any.
pub open spec fn block_err(lv: Seq<Seq<char>>, pos: int, mi: nat, nest: nat) -> Option<int>
    decreases lv.len() - pos, 1int,
{
    if nest >= MAX_DEPTH || pos < 0 || pos >= lv.len() {
        None
    } else if trim(lv[pos]).len() == 0 {
        block_err(lv, pos + 1, mi, nest)
    } else if text::indent_of(lv[pos]) < mi {
        None
    } else {
        match line_err(lv, pos, nest) {
            Some(e) => Some(e),
            None => block_err(lv, clamp_end(line_end(lv, pos, nest), pos, lv.len() as int), mi, nest),
        }
    }
}

/// The line of the first `sync:` declaration without a name that reading
/// the scope starting at `pos` meets, if any.
pub open spec fn scope_err(lv: Seq<Seq<char>>, pos: int, mi: nat, nest: nat) -> Option<int>
    decreases lv.len() - pos, 1int,
{
    if nest >= MAX_DEPTH || pos < 0 || pos >= lv.len() {
        None
    } else if trim(lv[pos]).len() == 0 {
        if dedent_next(lv, pos, mi) {
            None
        } else {
            scope_err(lv, pos + 1, mi, nest)
        }
    } else if is_divider(trim(lv[pos])) || text::indent_of(lv[pos]) < mi {
        None
    } else {
        match line_err(lv, pos, nest) {
            Some(e) => Some(e),
            None => scope_err(lv, clamp_end(line_end(lv, pos, nest), pos, lv.len() as int), mi, nest),
        }
    }
}

/// The error recorded after reading something that meets error `e`, when
/// `before` was recorded before: the first one stays.
pub open spec fn err_after(before: Option<usize>, e: Option<int>) -> Option<int> {
    match before {
        Some(x) => Some(x as int),
        None => e,
    }
}

pub open spec fn err_view(o: Option<usize>) -> Option<int> {
    match o {
        Some(x) => Some(x as int),
        None => None,
    }
}

/// A line that gives no node: a blank line, a query that does not parse, a
/// task line whose marker does not parse.
pub open spec fn line_none(lv: Seq<Seq<char>>, pos: int) -> bool {
    match line_kind(lv, pos) {
        LineKind::Blank => true,
        LineKind::QueryBlock => parse::query_spec(body_of(lv, pos).0) is None,
        LineKind::InlineQuery => parse::query_spec(
            seq![trim(text::trim_start_matches(header_of(lv[pos]), "? "@))],
        ) is None,
        LineKind::Task => parse::task_header_spec(lv[pos]) is None,
        LineKind::Sync => sync_name(lv[pos]).len() == 0,
        _ => false,
    }
}

/// What a task's block gives it: the setting lines of the block, then its
/// children and sections.
pub open spec fn task_block(t: Task, all: Seq<Node>) -> bool {
    let (rest, dep, val, st) = parse::task_fields_spec(all);
    &&& (line::opt_str_view(t.depends), line::opt_str_view(t.validate), line::opt_str_view(t.status))
        == (dep, val, st)
    &&& (t.children@, parse::opt_nodes(t.on_pass), parse::opt_nodes(t.on_fail), parse::opt_arms(
        t.match_arms,
    )) == parse::partition_spec(rest)
}

/// Node `n` is what line `pos` and the lines it reads give, at nesting
/// level `nest`.
pub open spec fn line_rel(lv: Seq<Seq<char>>, pos: int, nest: nat, n: Node) -> bool
    decreases lv.len() - pos, 0int,
{
    let t = trim(lv[pos]);
    let s = line::strip_comment_spec(t);
    let k = kind_of(t, s);
    &&& 0 <= pos < lv.len()
    &&& kind_matches(k, n)
    &&& leaf_matches(k, t, s, n)
    &&& match n {
        Node::CodeBlock(c) => line::opt_str_view(c.lang) == fence_lang(lv[pos]) && c.content@
            == text::join(fence_scan(lv, pos + 1).0, "\n"@),
        Node::Define(d) => (d.entity@, line::atoms_view(d.atoms@), line::opt_str_view(d.from_scope),
            line::opt_str_view(d.mod_scope), line::opt_str_view(d.workspace_scope)) == define_header(
            header_of(lv[pos]),
        ) && parse::fields_view(d.fields@) == parse::field_defs(body_of(lv, pos).0),
        Node::Mutate(m) => mutate_matches(m, header_of(lv[pos]), body_of(lv, pos).0),
        Node::Query(q) => if k == LineKind::QueryBlock {
            parse::query_spec(body_of(lv, pos).0) == Some(parse::query_view(q))
        } else {
            parse::query_spec(seq![trim(text::trim_start_matches(header_of(lv[pos]), "? "@))])
                == Some(parse::query_view(q))
        },
        Node::Flow(f) => f.name is None && line::edges_view(f.edges@) == parse::all_edges(
            body_of(lv, pos).0,
        ),
        Node::States(st) => line::edges_view(st.transitions@) == parse::all_edges(body_of(lv, pos).0),
        Node::Form(f) => f.name@ == trim(text::trim_start_matches(header_of(lv[pos]), "form:"@))
            && form_view(f) == form_scan(body_of(lv, pos).0),
        Node::FilesDef(f) => text::str_views(f.paths@) == files_spec(body_of(lv, pos).0),
        Node::SyncDef(sd) => sync_matches(sd, lv[pos], body_of(lv, pos).0),
        Node::Git(g) => git_matches(g, lv[pos], body_of(lv, pos).0),
        Node::Check(c) => check_matches(c, header_of(lv[pos]), body_of(lv, pos).0),
        Node::EntityDef(e) => entity_matches(e, header_of(lv[pos]), body_of(lv, pos).0),
        Node::UseBlock(u) => use_matches(u, header_of(lv[pos]), body_of(lv, pos).0),
        Node::Serve(sv) => serve_matches(sv, header_of(lv[pos]), body_of(lv, pos).0),
        Node::MetricDef(m) => metric_matches(m, header_of(lv[pos]), lv.subrange(pos + 1, body_of(lv, pos).1)),
        Node::PolicyDef(p) => rules_view(p.rules@) == policy_spec(body_of(lv, pos).0),
        Node::ModDef(m) => k == LineKind::ModDef ==> mod_matches(
            m,
            header_of(lv[pos]),
            mod_scan(lv, pos + 1, text::indent_of(lv[pos]), None).0,
        ),
        Node::Group(g) => group_matches(g, lv[pos]) && block_nodes(
            lv,
            pos + 1,
            child_indent(lv[pos]),
            nest + 1,
            g.children@,
        ),
        Node::Task(tk) => task_matches(tk, lv[pos]) && exists|all: Seq<Node>|
            block_nodes(lv, pos + 1, child_indent(lv[pos]), nest + 1, all) && #[trigger] task_block(
                tk,
                all,
            ),
        Node::LatticeValidates(_) | Node::LatticeConstraint(_) | Node::LatticeSchema(_)
        | Node::LatticeFrontier(_) | Node::PressureEffect(_) | Node::UnitCell(_) | Node::Symmetry(_) => exists|
            all: Seq<Node>,
        |
            block_nodes(lv, pos + 1, lattice_mi(lv[pos]), lattice_nest(lattice_line(s), nest), all)
                && #[trigger] colon_matches(lattice_line(s), t, all, n),
        Node::Validate(v) => v.name@ == trim(
            text::trim_end_matches(text::trim_start_matches(t, "validate "@), ":"@),
        ) && exists|all: Seq<Node>|
            block_nodes(lv, pos + 1, child_indent(lv[pos]), nest + 1, all) && (
            meta_view(v.meta),
            v.children@,
        ) == #[trigger] meta_fold(all),
        Node::Conditional(c) => (c.condition.expr@, c.condition.live) == condition_spec(
            condition_text(header_of(lv[pos])),
        ) && block_nodes(lv, pos + 1, child_indent(lv[pos]), nest + 1, c.children@),
        Node::ProjectScope(ps) => ps.name@ == trim(t.drop_first()) && scope_nodes(
            lv,
            pos + 1,
            child_indent(lv[pos]),
            nest + 1,
            ps.children@,
        ),
        Node::GateDef(g) => g.name@ == trim(text::trim_start_matches(t, "gate:"@)) && block_nodes(
            lv,
            pos + 1,
            child_indent(lv[pos]),
            1,
            g.children@,
        ),
        _ => true,
    }
}

/// The nodes that the block starting at `pos` gives: blank lines are
/// skipped, the block ends at the first line indented less than `mi`, and
/// every other line gives its construct's node (if any) and is read up to
/// the construct's end. Past the depth limit a block is empty.
pub open spec fn block_nodes(lv: Seq<Seq<char>>, pos: int, mi: nat, nest: nat, nodes: Seq<Node>) -> bool
    decreases lv.len() - pos, 1int,
{
    if nest >= MAX_DEPTH || pos < 0 || pos >= lv.len() {
        nodes.len() == 0
    } else if trim(lv[pos]).len() == 0 {
        block_nodes(lv, pos + 1, mi, nest, nodes)
    } else if text::indent_of(lv[pos]) < mi {
        nodes.len() == 0
    } else {
        let e = clamp_end(line_end(lv, pos, nest), pos, lv.len() as int);
        if line_none(lv, pos) {
            block_nodes(lv, e, mi, nest, nodes)
        } else {
            nodes.len() > 0 && line_rel(lv, pos, nest, nodes[0]) && block_nodes(
                lv,
                e,
                mi,
                nest,
                nodes.drop_first(),
            )
        }
    }
}

/// The nodes that the scope starting at `pos` gives: those of a block, up
/// to the first divider line.
pub open spec fn scope_nodes(lv: Seq<Seq<char>>, pos: int, mi: nat, nest: nat, nodes: Seq<Node>) -> bool
    decreases lv.len() - pos, 1int,
{
    if nest >= MAX_DEPTH || pos < 0 || pos >= lv.len() {
        nodes.len() == 0
    } else if trim(lv[pos]).len() == 0 {
        if dedent_next(lv, pos, mi) {
            nodes.len() == 0
        } else {
            scope_nodes(lv, pos + 1, mi, nest, nodes)
        }
    } else if is_divider(trim(lv[pos])) || text::indent_of(lv[pos]) < mi {
        nodes.len() == 0
    } else {
        let e = clamp_end(line_end(lv, pos, nest), pos, lv.len() as int);
        if line_none(lv, pos) {
            scope_nodes(lv, e, mi, nest, nodes)
        } else {
            nodes.len() > 0 && line_rel(lv, pos, nest, nodes[0]) && scope_nodes(
                lv,
                e,
                mi,
                nest,
                nodes.drop_first(),
            )
        }
    }
}

/// What parsing line `pos` at nesting level `nest` gave: the node `r`
/// (none exactly for the lines that give none) and the position `end` where
/// the construct ends.
pub open spec fn line_parsed(lv: Seq<Seq<char>>, pos: int, nest: nat, r: Option<Node>, end: int) -> bool {
    &&& end == line_end(lv, pos, nest)
    &&& (r is None <==> line_none(lv, pos))
    &&& (r matches Some(n) ==> line_rel(lv, pos, nest, n))
}

impl ParseCtx {
    /// Parses the nodes of a block: the lines from the current one up to the
    /// first non-blank line indented less than `min_indent`. Past the depth
    /// limit the block is empty.
    #[verifier::spinoff_prover]
    #[verifier::rlimit(50)]
    pub fn parse_block(&mut self, min_indent: usize, nesting: usize) -> (r: Vec<Node>)
        requires
            old(self).wf(),
        ensures
            final(self).wf(),
            final(self).lines == old(self).lines,
            old(self).pos <= final(self).pos,
            err_view(final(self).first_error) == err_after(
                old(self).first_error,
                block_err(old(self).lv(), old(self).pos as int, min_indent as nat, nesting as nat),
            ),
            old(self).first_error is None && final(self).first_error is None ==> final(self).pos
                == block_end(old(self).lv(), old(self).pos as int, min_indent as nat, nesting as nat)
                && block_nodes(old(self).lv(), old(self).pos as int, min_indent as nat, nesting as nat, r@),
        decreases old(self).lines@.len() - old(self).pos, 2int,
    {
        if nesting >= MAX_DEPTH {
            return Vec::new();
        }
        let ghost lv = self.lv();
        let ghost start = self.pos as int;
        let ghost mi = min_indent as nat;
        let ghost nest = nesting as nat;
        let ghost e0 = self.first_error;
        let mut nodes: Vec<Node> = Vec::new();
        while self.pos < self.lines.len()
            invariant
                self.wf(),
                self.lines == old(self).lines,
                lv == self.lv(),
                start == old(self).pos,
                start <= self.pos,
                nesting < MAX_DEPTH,
                mi == min_indent as nat,
                nest == nesting as nat,
                e0 == old(self).first_error,
                e0 is Some ==> self.first_error == e0,
                e0 is None && self.first_error is Some ==> block_err(lv, start, mi, nest) == err_view(
                    self.first_error,
                ),
                e0 is None && self.first_error is None ==> block_err(lv, self.pos as int, mi, nest)
                    == block_err(lv, start, mi, nest),
                e0 is None && self.first_error is None ==> block_end(lv, self.pos as int, mi, nest)
                    == block_end(lv, start, mi, nest),
                e0 is None && self.first_error is None ==> forall|suf: Seq<Node>|
                    #[trigger] block_nodes(lv, self.pos as int, mi, nest, suf) ==> block_nodes(
                        lv,
                        start,
                        mi,
                        nest,
                        nodes@ + suf,
                    ),
            ensures
                self.first_error is None ==> self.pos == block_end(lv, self.pos as int, mi, nest)
                    && block_nodes(lv, self.pos as int, mi, nest, Seq::empty()) && block_err(
                    lv,
                    self.pos as int,
                    mi,
                    nest,
                ) is None,
            decreases self.lines@.len() - self.pos,
        {
            let raw = self.peek();
            let t = text::trim_chars(&raw);
            let ghost p = self.pos as int;
            if t.len() == 0 {
                self.advance();
                proof {
                    assert(block_end(lv, p, mi, nest) == block_end(lv, p + 1, mi, nest));
                    assert(block_err(lv, p, mi, nest) == block_err(lv, p + 1, mi, nest));
                    if e0 is None && self.first_error is None {
                        assert forall|suf: Seq<Node>| #[trigger]
                            block_nodes(lv, self.pos as int, mi, nest, suf) implies block_nodes(
                            lv,
                            start,
                            mi,
                            nest,
                            nodes@ + suf,
                        ) by {
                            assert(block_nodes(lv, p, mi, nest, suf));
                        }
                    }
                }
                continue;
            }
            if Self::indent_of(&raw) < min_indent {
                assert(block_end(lv, p, mi, nest) == p);
                assert(block_err(lv, p, mi, nest) is None);
                break;
            }
            let ghost before = self.first_error;
            let r = self.parse_line(nesting);
            proof {
                if before is None && self.first_error is Some {
                    assert(line_err(lv, p, nest) == err_view(self.first_error));
                    assert(block_err(lv, p, mi, nest) == line_err(lv, p, nest));
                }
                if before is None && self.first_error is None {
                    assert(line_err(lv, p, nest) is None);
                    assert(block_err(lv, p, mi, nest) == block_err(lv, self.pos as int, mi, nest));
                }
            }
            match r {
                Some(node) => {
                    proof {
                        if e0 is None && self.first_error is None {
                            assert forall|suf: Seq<Node>| #[trigger]
                                block_nodes(lv, self.pos as int, mi, nest, suf) implies block_nodes(
                                lv,
                                start,
                                mi,
                                nest,
                                nodes@.push(node) + suf,
                            ) by {
                                let s2 = seq![node] + suf;
                                assert(s2.drop_first() =~= suf);
                                assert(block_nodes(lv, p, mi, nest, s2));
                                assert(nodes@.push(node) + suf =~= nodes@ + s2);
                            }
                        }
                    }
                    nodes.push(node);
                },
                None => {
                    proof {
                        if e0 is None && self.first_error is None {
                            assert forall|suf: Seq<Node>| #[trigger]
                                block_nodes(lv, self.pos as int, mi, nest, suf) implies block_nodes(
                                lv,
                                start,
                                mi,
                                nest,
                                nodes@ + suf,
                            ) by {
                                assert(block_nodes(lv, p, mi, nest, suf));
                            }
                        }
                    }
                },
            }
        }
        proof {
            assert(nodes@ + Seq::<Node>::empty() =~= nodes@);
        }
        nodes
    }

    /// Parses the construct that the current line opens.
    pub fn parse_line(&mut self, nesting: usize) -> (r: Option<Node>)
        requires
            old(self).wf(),
            old(self).pos < old(self).lines@.len(),
            nesting < MAX_DEPTH,
        ensures
            final(self).wf(),
            final(self).lines == old(self).lines,
            old(self).pos < final(self).pos,
            err_view(final(self).first_error) == err_after(
                old(self).first_error,
                line_err(old(self).lv(), old(self).pos as int, nesting as nat),
            ),
            old(self).first_error is None && final(self).first_error is None ==> line_parsed(
                old(self).lv(),
                old(self).pos as int,
                nesting as nat,
                r,
                final(self).pos as int,
            ),
        decreases old(self).lines@.len() - old(self).pos, 1int,
    {
        let raw = self.peek();
        let trimmed = text::trim_chars(&raw);
        let stripped = line::strip_comment(&trimmed);
        let k = classify(&trimmed, &stripped);
        assert(k == line_kind(self.lv(), self.pos as int));
        match k {
            LineKind::Code => self.parse_code_block(),
            LineKind::Group => self.parse_group(nesting),
            LineKind::Define => self.parse_define(),
            LineKind::Mutate => self.parse_mutate(),
            LineKind::QueryBlock => self.parse_query_block(),
            LineKind::InlineQuery => self.parse_inline_query(),
            LineKind::Flow => self.parse_flow(),
            LineKind::States => self.parse_states(),
            LineKind::Validate => self.parse_validate(nesting),
            LineKind::Lattice => self.parse_lattice(nesting),
            LineKind::Scope => self.parse_project_scope(nesting),
            LineKind::Form => self.parse_form(),
            LineKind::Files => self.parse_files(),
            LineKind::Policy => self.parse_policy(),
            LineKind::Sync => self.parse_sync(),
            LineKind::Git => self.parse_git(),
            LineKind::Check => self.parse_check(),
            LineKind::Entity => self.parse_entity(),
            LineKind::Use => self.parse_use(),
            LineKind::Serve => self.parse_serve(),
            LineKind::Metric => self.parse_metric(),
            LineKind::ModDef => self.parse_mod_def(),
            LineKind::Conditional => self.parse_conditional(nesting),
            LineKind::GateDef => self.parse_gate_def(),
            LineKind::Task => self.parse_task(nesting),
            _ => self.parse_leaf(k, &trimmed, &stripped),
        }
    }

    /// Parses a line that is a construct of its own, without a body.
    pub fn parse_leaf(&mut self, k: LineKind, trimmed: &Vec<char>, stripped: &Vec<char>) -> (r: Option<Node>)
        requires
            old(self).wf(),
            old(self).pos < old(self).lines@.len(),
            trimmed@ == trim(old(self).lv()[old(self).pos as int]),
            stripped@ == line::strip_comment_spec(trimmed@),
            k == kind_of(trimmed@, stripped@),
            !(k == LineKind::Code || k == LineKind::Group || k == LineKind::Define || k
                == LineKind::Mutate || k == LineKind::QueryBlock || k == LineKind::InlineQuery || k
                == LineKind::Flow || k == LineKind::States || k == LineKind::Validate || k
                == LineKind::Form || k == LineKind::ModDef || k == LineKind::Conditional || k
                == LineKind::GateDef || k == LineKind::Task || k == LineKind::Files || k
                == LineKind::Policy || k == LineKind::Sync || k == LineKind::Git || k == LineKind::Check || k == LineKind::Entity || k == LineKind::Use || k == LineKind::Serve || k == LineKind::Metric || k == LineKind::Lattice
                || k == LineKind::Scope),
        ensures
            forall|nest: nat| #[trigger] line_parsed(old(self).lv(), old(self).pos as int, nest, r, final(self).pos as int),
            final(self).first_error == old(self).first_error,
            final(self).wf(),
            final(self).lines == old(self).lines,
            final(self).pos == old(self).pos + 1,
            r matches Some(n) ==> kind_matches(k, n) && leaf_matches(k, trimmed@, stripped@, n),
            r is None ==> k == LineKind::Blank,
    {
        self.advance();
        match k {
            LineKind::Comment => Some(Node::Comment(parse::comment_node(trimmed))),
            LineKind::Divider => Some(Node::Divider),
            LineKind::SpawnParallel => Some(Node::Spawn(Spawn::Parallel)),
            LineKind::SpawnSequential => Some(Node::Spawn(Spawn::Sequential)),
            LineKind::Delete => Some(Node::Delete(parse::delete_node(stripped))),
            LineKind::ModInvoke => {
                proof {
                    reveal_strlit("mod:");
                }
                let sl = stripped.len();
                let after = text::slice_of(stripped, 4, sl);
                assert(after@ =~= stripped@.skip(4));
                Some(Node::ModInvoke(parse::mod_invoke_node(&after)))
            },
            LineKind::Snap => Some(
                Node::Snap(Snap { name: text::to_string(&parse::quoted_value(stripped, "snap:")) }),
            ),
            LineKind::Diff => Some(Node::Diff(parse::diff_node(stripped))),
            LineKind::History => Some(Node::History(parse::history_node(stripped))),
            LineKind::Status => Some(Node::StatusDef(parse::status_node(stripped))),
            LineKind::Bold => {
                let sl = stripped.len();
                Some(Node::Bold(Bold { text: text::sub_string(stripped, 2, sl - 2) }))
            },
            LineKind::Remember => Some(
                Node::Remember(
                    Remember { content: text::to_string(&parse::quoted_value(stripped, "remember:")) },
                ),
            ),
            LineKind::Recall => Some(
                Node::Recall(RecallOp { query: text::to_string(&parse::quoted_value(stripped, "recall:")) }),
            ),
            LineKind::Embed => {
                let sl = stripped.len();
                let tail = text::slice_of(stripped, 1, sl);
                assert(tail@ =~= stripped@.skip(1));
                Some(Node::EmbedMarker(EmbedMarker { tag: text::to_string(&text::trim_chars(&tail)) }))
            },
            LineKind::Escalate => Some(
                Node::Escalate(
                    Escalate { target: text::to_string(&parse::plain_value(stripped, "escalate:")) },
                ),
            ),
            LineKind::DirectInvoke => Some(Node::ModInvoke(direct_invoke_node(stripped))),
            LineKind::Variable => match line::try_parse_variable(stripped) {
                Some(v) => Some(Node::Variable(v)),
                None => Some(Node::Prose(parse::prose_node(trimmed, stripped))),
            },
            LineKind::Routine => Some(Node::Routine(parse::routine_node(stripped))),
            LineKind::Webhook => Some(Node::Webhook(webhook_node(stripped))),
            LineKind::Prose => Some(Node::Prose(parse::prose_node(trimmed, stripped))),
            _ => None,
        }
    }


    /// `%Name`: the scope's name, and the nodes of the lines indented under
    /// it, up to a divider line, which the scope reads too.
    pub fn parse_project_scope(&mut self, nesting: usize) -> (r: Option<Node>)
        requires
            line_kind(old(self).lv(), old(self).pos as int) == LineKind::Scope,
            old(self).wf(),
            old(self).pos < old(self).lines@.len(),
            nesting < MAX_DEPTH,
        ensures
            err_view(final(self).first_error) == err_after(
                old(self).first_error,
                line_err(old(self).lv(), old(self).pos as int, nesting as nat),
            ),
            old(self).first_error is None && final(self).first_error is None ==> line_parsed(
                old(self).lv(),
                old(self).pos as int,
                nesting as nat,
                r,
                final(self).pos as int,
            ),
            final(self).wf(),
            final(self).lines == old(self).lines,
            old(self).pos < final(self).pos,
        decreases old(self).lines@.len() - old(self).pos, 0int,
    {
        let raw = self.peek();
        self.advance();
        let trimmed = text::trim_chars(&raw);
        let tl = trimmed.len();
        let tail = text::slice_of(&trimmed, 1, tl);
        assert(tail@ =~= trimmed@.drop_first());
        let name = text::trim_chars(&tail);
        let indent = Self::indent_of(&raw);
        let child = if indent < usize::MAX {
            indent + 1
        } else {
            indent
        };
        let children = self.parse_scope_block(child, nesting + 1);
        Some(Node::ProjectScope(crate::types::ProjectScope { name: text::to_string(&name), children }))
    }

    /// Parses the nodes of a scope: like `parse_block`, but a divider line
    /// ends the scope and is read with it, except right after a blank line
    /// that a dedented line follows.
    #[verifier::spinoff_prover]
    #[verifier::rlimit(50)]
    pub fn parse_scope_block(&mut self, min_indent: usize, nesting: usize) -> (r: Vec<Node>)
        requires
            old(self).wf(),
        ensures
            final(self).wf(),
            final(self).lines == old(self).lines,
            old(self).pos <= final(self).pos,
            err_view(final(self).first_error) == err_after(
                old(self).first_error,
                scope_err(old(self).lv(), old(self).pos as int, min_indent as nat, nesting as nat),
            ),
            old(self).first_error is None && final(self).first_error is None ==> final(self).pos
                == scope_end(old(self).lv(), old(self).pos as int, min_indent as nat, nesting as nat)
                && scope_nodes(old(self).lv(), old(self).pos as int, min_indent as nat, nesting as nat, r@),
        decreases old(self).lines@.len() - old(self).pos, 2int,
    {
        if nesting >= MAX_DEPTH {
            return Vec::new();
        }
        let ghost lv = self.lv();
        let ghost start = self.pos as int;
        let ghost mi = min_indent as nat;
        let ghost nest = nesting as nat;
        let ghost e0 = self.first_error;
        let mut nodes: Vec<Node> = Vec::new();
        while self.pos < self.lines.len()
            invariant
                self.wf(),
                self.lines == old(self).lines,
                lv == self.lv(),
                start == old(self).pos,
                start <= self.pos,
                nesting < MAX_DEPTH,
                mi == min_indent as nat,
                nest == nesting as nat,
                e0 == old(self).first_error,
                e0 is Some ==> self.first_error == e0,
                e0 is None && self.first_error is Some ==> scope_err(lv, start, mi, nest) == err_view(
                    self.first_error,
                ),
                e0 is None && self.first_error is None ==> scope_err(lv, self.pos as int, mi, nest)
                    == scope_err(lv, start, mi, nest),
                e0 is None && self.first_error is None ==> scope_end(lv, self.pos as int, mi, nest)
                    == scope_end(lv, start, mi, nest),
                e0 is None && self.first_error is None ==> forall|suf: Seq<Node>|
                    #[trigger] scope_nodes(lv, self.pos as int, mi, nest, suf) ==> scope_nodes(
                        lv,
                        start,
                        mi,
                        nest,
                        nodes@ + suf,
                    ),
            ensures
                self.first_error is None ==> self.pos == scope_end(lv, self.pos as int, mi, nest)
                    && scope_nodes(lv, self.pos as int, mi, nest, Seq::empty()) && scope_err(
                    lv,
                    self.pos as int,
                    mi,
                    nest,
                ) is None,
            decreases self.lines@.len() - self.pos,
        {
            let raw = self.peek();
            let t = text::trim_chars(&raw);
            let ghost p = self.pos as int;
            if t.len() == 0 {
                self.advance();
                let stop = if self.pos < self.lines.len() {
                    let next = self.peek();
                    let nt = text::trim_chars(&next);
                    nt.len() != 0 && Self::indent_of(&next) < min_indent
                } else {
                    false
                };
                assert(stop == dedent_next(lv, p, mi));
                if stop {
                    assert(scope_end(lv, p, mi, nest) == p + 1);
                    assert(scope_err(lv, p, mi, nest) is None);
                    proof {
                        if e0 is None && self.first_error is None {
                            assert(scope_nodes(lv, p, mi, nest, Seq::empty()));
                            assert(nodes@ + Seq::<Node>::empty() =~= nodes@);
                        }
                    }
                    return nodes;
                }
                proof {
                    assert(scope_end(lv, p, mi, nest) == scope_end(lv, p + 1, mi, nest));
                    assert(scope_err(lv, p, mi, nest) == scope_err(lv, p + 1, mi, nest));
                    if e0 is None && self.first_error is None {
                        assert forall|suf: Seq<Node>| #[trigger]
                            scope_nodes(lv, self.pos as int, mi, nest, suf) implies scope_nodes(
                            lv,
                            start,
                            mi,
                            nest,
                            nodes@ + suf,
                        ) by {
                            assert(scope_nodes(lv, p, mi, nest, suf));
                        }
                    }
                }
                continue;
            }
            if text::eq_str(&t, "---") || (text::starts_with_str(&t, "---") && all_dashes_exec(&t)) {
                self.advance();
                assert(scope_end(lv, p, mi, nest) == p + 1);
                assert(scope_err(lv, p, mi, nest) is None);
                proof {
                    if e0 is None && self.first_error is None {
                        assert(scope_nodes(lv, p, mi, nest, Seq::empty()));
                        assert(nodes@ + Seq::<Node>::empty() =~= nodes@);
                    }
                }
                return nodes;
            }
            if Self::indent_of(&raw) < min_indent {
                assert(scope_end(lv, p, mi, nest) == p);
                assert(scope_err(lv, p, mi, nest) is None);
                break;
            }
            let ghost before = self.first_error;
            let r = self.parse_line(nesting);
            proof {
                if before is None && self.first_error is Some {
                    assert(line_err(lv, p, nest) == err_view(self.first_error));
                    assert(scope_err(lv, p, mi, nest) == line_err(lv, p, nest));
                }
                if before is None && self.first_error is None {
                    assert(line_err(lv, p, nest) is None);
                    assert(scope_err(lv, p, mi, nest) == scope_err(lv, self.pos as int, mi, nest));
                }
            }
            match r {
                Some(node) => {
                    proof {
                        if e0 is None && self.first_error is None {
                            assert forall|suf: Seq<Node>| #[trigger]
                                scope_nodes(lv, self.pos as int, mi, nest, suf) implies scope_nodes(
                                lv,
                                start,
                                mi,
                                nest,
                                nodes@.push(node) + suf,
                            ) by {
                                let s2 = seq![node] + suf;
                                assert(s2.drop_first() =~= suf);
                                assert(scope_nodes(lv, p, mi, nest, s2));
                                assert(nodes@.push(node) + suf =~= nodes@ + s2);
                            }
                        }
                    }
                    nodes.push(node);
                },
                None => {
                    proof {
                        if e0 is None && self.first_error is None {
                            assert forall|suf: Seq<Node>| #[trigger]
                                scope_nodes(lv, self.pos as int, mi, nest, suf) implies scope_nodes(
                                lv,
                                start,
                                mi,
                                nest,
                                nodes@ + suf,
                            ) by {
                                assert(scope_nodes(lv, p, mi, nest, suf));
                            }
                        }
                    }
                },
            }
        }
        proof {
            assert(nodes@ + Seq::<Node>::empty() =~= nodes@);
        }
        nodes
    }

    /// `#`, `##`, ...: a group with its header and the block of lines
    /// indented deeper than it.
    pub fn parse_group(&mut self, nesting: usize) -> (r: Option<Node>)
        requires
            line_kind(old(self).lv(), old(self).pos as int) == LineKind::Group,
            old(self).wf(),
            old(self).pos < old(self).lines@.len(),
            nesting < MAX_DEPTH,
        ensures
            err_view(final(self).first_error) == err_after(
                old(self).first_error,
                line_err(old(self).lv(), old(self).pos as int, nesting as nat),
            ),
            old(self).first_error is None && final(self).first_error is None ==> line_parsed(
                old(self).lv(),
                old(self).pos as int,
                nesting as nat,
                r,
                final(self).pos as int,
            ),
            final(self).wf(),
            final(self).lines == old(self).lines,
            old(self).pos < final(self).pos,
            r matches Some(Node::Group(g)) && group_matches(g, old(self).lv()[old(self).pos as int]),
        decreases old(self).lines@.len() - old(self).pos, 0int,
    {
        let raw = self.peek();
        self.advance();
        let trimmed = text::trim_chars(&raw);
        let stripped = line::strip_comment(&trimmed);
        let n = text::count_lead_char(&stripped, '#');
        let depth = n as u8;
        let from = depth as usize;
        assert(from <= n) by (bit_vector)
            requires
                from == (n as u8) as usize,
        ;
        let sl = stripped.len();
        let tail = text::slice_of(&stripped, from, sl);
        assert(tail@ =~= stripped@.skip(from as int));
        let rest = text::trim_chars(&tail);
        let gates = line::extract_gates(&rest);
        let clean = line::remove_gates(&rest);
        let (name, atoms) = line::parse_name_and_atoms(&clean);
        let indent = Self::indent_of(&raw);
        let child = if indent < usize::MAX {
            indent + 1
        } else {
            indent
        };
        let children = self.parse_block(child, nesting + 1);
        Some(Node::Group(Group { depth, name: text::to_string(&name), atoms, gates, children }))
    }

    /// A task line with its block: the marker and header, the `depends:`,
    /// `validate:` and `status:` lines of the block, and its `on_pass:`,
    /// `on_fail:` and `match:` sections. No node when the marker does not
    /// parse.
    pub fn parse_task(&mut self, nesting: usize) -> (r: Option<Node>)
        requires
            line_kind(old(self).lv(), old(self).pos as int) == LineKind::Task,
            old(self).wf(),
            old(self).pos < old(self).lines@.len(),
            nesting < MAX_DEPTH,
        ensures
            err_view(final(self).first_error) == err_after(
                old(self).first_error,
                line_err(old(self).lv(), old(self).pos as int, nesting as nat),
            ),
            old(self).first_error is None && final(self).first_error is None ==> line_parsed(
                old(self).lv(),
                old(self).pos as int,
                nesting as nat,
                r,
                final(self).pos as int,
            ),
            final(self).wf(),
            final(self).lines == old(self).lines,
            old(self).pos < final(self).pos,
            r matches Some(n) ==> n matches Node::Task(t) && task_matches(t, old(self).lv()[old(self).pos as int]),
            r is None ==> parse::task_header_spec(old(self).lv()[old(self).pos as int]) is None,
        decreases old(self).lines@.len() - old(self).pos, 0int,
    {
        let raw = self.peek();
        self.advance();
        let indent = Self::indent_of(&raw);
        let trimmed = text::trim_chars(&raw);
        let stripped = line::strip_comment(&trimmed);
        match line::parse_task_marker(&stripped) {
            None => None,
            Some((marker, label, rest)) => {
                let gates = line::extract_gates(&rest);
                let clean = line::remove_gates(&rest);
                let (t, closes) = line::extract_closes(&clean);
                let tt = text::trim_chars(&t);
                let inline = spans::parse_inline(&tt);
                let child = if indent < usize::MAX {
                    indent + 1
                } else {
                    indent
                };
                let all = self.parse_block(child, nesting + 1);
                let ghost block = all@;
                let (all, depends, validate, status) = parse::extract_task_fields(all);
                let (children, on_pass, on_fail, match_arms) = parse::partition_task_children(all);
                let task = Task {
                    marker,
                    label: parse::opt_string(label),
                    text: text::to_string(&tt),
                    inline,
                    gates,
                    children,
                    on_pass,
                    on_fail,
                    match_arms,
                    closes,
                    depends,
                    validate,
                    status,
                };
                assert(task_block(task, block));
                Some(Node::Task(task))
            },
        }
    }

    /// `validate name:` with its block; the setting lines of the block go
    /// to the attachment settings.
    pub fn parse_validate(&mut self, nesting: usize) -> (r: Option<Node>)
        requires
            line_kind(old(self).lv(), old(self).pos as int) == LineKind::Validate,
            old(self).wf(),
            old(self).pos < old(self).lines@.len(),
            nesting < MAX_DEPTH,
        ensures
            err_view(final(self).first_error) == err_after(
                old(self).first_error,
                line_err(old(self).lv(), old(self).pos as int, nesting as nat),
            ),
            old(self).first_error is None && final(self).first_error is None ==> line_parsed(
                old(self).lv(),
                old(self).pos as int,
                nesting as nat,
                r,
                final(self).pos as int,
            ),
            final(self).wf(),
            final(self).lines == old(self).lines,
            old(self).pos < final(self).pos,
            r matches Some(Node::Validate(v)) && v.name@ == trim(
                text::trim_end_matches(
                    text::trim_start_matches(trim(old(self).lv()[old(self).pos as int]), "validate "@),
                    ":"@,
                ),
            ),
        decreases old(self).lines@.len() - old(self).pos, 0int,
    {
        let raw = self.peek();
        self.advance();
        let trimmed = text::trim_chars(&raw);
        let name = text::trim_chars(
            &text::trim_end_matches_str(&text::trim_start_matches_str(&trimmed, "validate "), ":"),
        );
        let indent = Self::indent_of(&raw);
        let child = if indent < usize::MAX {
            indent + 1
        } else {
            indent
        };
        let children = self.parse_block(child, nesting + 1);
        let ghost block = children@;
        let (meta, kept) = split_validate_meta(children);
        assert((meta_view(meta), kept@) == meta_fold(block));
        Some(Node::Validate(ValidateDef { name: text::to_string(&name), meta, children: kept }))
    }

    /// `if |expr|:` with its block.
    pub fn parse_conditional(&mut self, nesting: usize) -> (r: Option<Node>)
        requires
            line_kind(old(self).lv(), old(self).pos as int) == LineKind::Conditional,
            old(self).wf(),
            old(self).pos < old(self).lines@.len(),
            nesting < MAX_DEPTH,
        ensures
            err_view(final(self).first_error) == err_after(
                old(self).first_error,
                line_err(old(self).lv(), old(self).pos as int, nesting as nat),
            ),
            old(self).first_error is None && final(self).first_error is None ==> line_parsed(
                old(self).lv(),
                old(self).pos as int,
                nesting as nat,
                r,
                final(self).pos as int,
            ),
            final(self).wf(),
            final(self).lines == old(self).lines,
            old(self).pos < final(self).pos,
            r matches Some(Node::Conditional(c)) && (c.condition.expr@, c.condition.live)
                == condition_spec(condition_text(header_of(old(self).lv()[old(self).pos as int]))),
        decreases old(self).lines@.len() - old(self).pos, 0int,
    {
        let raw = self.peek();
        self.advance();
        let stripped = line::strip_comment(&text::trim_chars(&raw));
        let c = text::trim_chars(
            &text::trim_end_matches_str(&text::trim_start_matches_str(&stripped, "if "), ":"),
        );
        let (expr, live) = condition_exec(&c);
        let indent = Self::indent_of(&raw);
        let child = if indent < usize::MAX {
            indent + 1
        } else {
            indent
        };
        let children = self.parse_block(child, nesting + 1);
        Some(
            Node::Conditional(
                Conditional { condition: Compute { expr: text::to_string(&expr), live }, children },
            ),
        )
    }

    /// `gate:name` with its block (read from nesting level one).
    pub fn parse_gate_def(&mut self) -> (r: Option<Node>)
        requires
            line_kind(old(self).lv(), old(self).pos as int) == LineKind::GateDef,
            old(self).wf(),
            old(self).pos < old(self).lines@.len(),
        ensures
            forall|nest: nat|
                err_view(final(self).first_error) == err_after(
                    old(self).first_error,
                    #[trigger] line_err(old(self).lv(), old(self).pos as int, nest),
                ),
            forall|nest: nat|
                old(self).first_error is None && final(self).first_error is None ==> #[trigger] line_parsed(
                    old(self).lv(),
                    old(self).pos as int,
                    nest,
                    r,
                    final(self).pos as int,
                ),
            final(self).wf(),
            final(self).lines == old(self).lines,
            old(self).pos < final(self).pos,
            r matches Some(Node::GateDef(g)) && g.name@ == trim(
                text::trim_start_matches(trim(old(self).lv()[old(self).pos as int]), "gate:"@),
            ),
        decreases old(self).lines@.len() - old(self).pos, 0int,
    {
        let raw = self.peek();
        self.advance();
        let trimmed = text::trim_chars(&raw);
        let name = text::trim_chars(&text::trim_start_matches_str(&trimmed, "gate:"));
        let indent = Self::indent_of(&raw);
        let child = if indent < usize::MAX {
            indent + 1
        } else {
            indent
        };
        let children = self.parse_block(child, 1);
        Some(Node::GateDef(GateDef { name: text::to_string(&name), children }))
    }
}

} // verus!
