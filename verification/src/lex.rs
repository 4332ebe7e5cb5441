//! Line-level reading of .bit source: the lines of a text, the current one,
//! and the construct keyword that a line starts with.
use crate::text;
use crate::text::starts_with;
use vstd::prelude::*;

verus! {

/// The construct keywords of the language.
#[derive(Debug, Clone, Copy, PartialEq, Eq, Structural)]
pub enum KeywordKind {
    Define,
    Mutate,
    Delete,
    Query,
    InlineQuery,
    Flow,
    States,
    Validate,
    Check,
    Gate,
    Bound,
    Form,
    Mod,
    Project,
    Commands,
    Serve,
    Sync,
    Webhook,
    Git,
    Snap,
    Diff,
    History,
    Status,
    Remember,
    Recall,
    Issue,
    Comment,
    Routine,
    Escalate,
    Use,
    Policy,
    Files,
    LatticeValidates,
    LatticeConstraint,
    LatticeSchema,
    LatticeFrontier,
    PressureEffect,
    UnitCell,
    Symmetry,
    Entity,
    Metric,
    ProjectScope,
}

/// Task marker kinds: `[ ]`, `[x]`, `[!]`, `[?]`, `[>]` and numbered ones.
#[derive(Debug, Clone, Copy, PartialEq, Eq, Structural)]
pub enum TaskMarkerKind {
    Open,
    Done,
    Blocked,
    Question,
    Deferred,
    Numbered(u32),
}

/// Reads a source line by line.
pub struct Lexer {
    pub lines: Vec<Vec<char>>,
    pub pos: usize,
    pub in_code_block: bool,
}

impl Lexer {
    pub open spec fn wf(&self) -> bool {
        self.pos <= self.lines@.len()
    }

    /// A lexer at the first line of `source`.
    pub fn new(source: &str) -> (r: Lexer)
        ensures
            r.wf(),
            text::views(r.lines@) == text::lines(source@),
            r.pos == 0,
            !r.in_code_block,
    {
        let chars = text::str_chars(source);
        Lexer { lines: text::lines_of(&chars), pos: 0, in_code_block: false }
    }

    /// The current line, if any is left.
    pub fn peek_line(&self) -> (r: Option<String>)
        ensures
            self.pos < self.lines@.len() ==> (r matches Some(l) && l@ == self.lines@[self.pos as int]@),
            self.pos >= self.lines@.len() ==> r is None,
    {
        if self.pos < self.lines.len() {
            Some(text::to_string(&self.lines[self.pos]))
        } else {
            None
        }
    }

    /// The number of the current line, counting from one.
    pub fn line_number(&self) -> (r: usize)
        requires
            self.pos < usize::MAX,
        ensures
            r == self.pos + 1,
    {
        self.pos + 1
    }
}

/// The construct keyword that a trimmed line starts with; more specific
/// prefixes are checked first.
pub open spec fn keyword_spec(t: Seq<char>) -> Option<KeywordKind> {
    if starts_with(t, "define:@"@) || starts_with(t, "define:$"@) {
        Some(KeywordKind::Define)
    } else if starts_with(t, "mutate:@"@) || starts_with(t, "mutate:$"@) {
        Some(KeywordKind::Mutate)
    } else if starts_with(t, "delete:@"@) || starts_with(t, "delete:$"@) {
        Some(KeywordKind::Delete)
    } else if starts_with(t, "query:"@) {
        Some(KeywordKind::Query)
    } else if starts_with(t, "flow:"@) {
        Some(KeywordKind::Flow)
    } else if starts_with(t, "states:"@) {
        Some(KeywordKind::States)
    } else if starts_with(t, "validate "@) && text::ends_with(t, ":"@) {
        Some(KeywordKind::Validate)
    } else if starts_with(t, "check:"@) {
        Some(KeywordKind::Check)
    } else if starts_with(t, "gate:"@) {
        Some(KeywordKind::Gate)
    } else if starts_with(t, "bound:"@) {
        Some(KeywordKind::Bound)
    } else if starts_with(t, "form:"@) {
        Some(KeywordKind::Form)
    } else if starts_with(t, "mod:"@) {
        Some(KeywordKind::Mod)
    } else if starts_with(t, "project:"@) {
        Some(KeywordKind::Project)
    } else if starts_with(t, "commands:"@) {
        Some(KeywordKind::Commands)
    } else if starts_with(t, "serve:"@) {
        Some(KeywordKind::Serve)
    } else if starts_with(t, "sync:"@) {
        Some(KeywordKind::Sync)
    } else if starts_with(t, "webhook:"@) {
        Some(KeywordKind::Webhook)
    } else if starts_with(t, "git:"@) {
        Some(KeywordKind::Git)
    } else {
        keyword_spec_rest(t)
    }
}

pub open spec fn keyword_spec_rest(t: Seq<char>) -> Option<KeywordKind> {
    if starts_with(t, "snap:"@) {
        Some(KeywordKind::Snap)
    } else if starts_with(t, "diff:"@) {
        Some(KeywordKind::Diff)
    } else if starts_with(t, "history:"@) {
        Some(KeywordKind::History)
    } else if starts_with(t, "status:"@) && text::contains(t, "/"@) {
        Some(KeywordKind::Status)
    } else if starts_with(t, "remember:"@) {
        Some(KeywordKind::Remember)
    } else if starts_with(t, "recall:"@) {
        Some(KeywordKind::Recall)
    } else if starts_with(t, "issue:"@) {
        Some(KeywordKind::Issue)
    } else if starts_with(t, "comment:"@) {
        Some(KeywordKind::Comment)
    } else if starts_with(t, "routine:"@) {
        Some(KeywordKind::Routine)
    } else if starts_with(t, "escalate:"@) {
        Some(KeywordKind::Escalate)
    } else if starts_with(t, "use $"@) || starts_with(t, "use @"@) {
        Some(KeywordKind::Use)
    } else if starts_with(t, "policy:"@) {
        Some(KeywordKind::Policy)
    } else if starts_with(t, "files:"@) {
        Some(KeywordKind::Files)
    } else if starts_with(t, "if "@) && text::ends_with(t, ":"@) {
        Some(KeywordKind::Gate)
    } else if starts_with(t, "lattice_validates:"@) {
        Some(KeywordKind::LatticeValidates)
    } else if starts_with(t, "lattice_constraint:"@) {
        Some(KeywordKind::LatticeConstraint)
    } else if starts_with(t, "lattice_schema:"@) {
        Some(KeywordKind::LatticeSchema)
    } else if starts_with(t, "lattice_frontier:"@) {
        Some(KeywordKind::LatticeFrontier)
    } else if starts_with(t, "pressure_effect:"@) {
        Some(KeywordKind::PressureEffect)
    } else if starts_with(t, "unit_cell:"@) {
        Some(KeywordKind::UnitCell)
    } else if starts_with(t, "symmetry:"@) {
        Some(KeywordKind::Symmetry)
    } else {
        None
    }
}

/// Decides the construct keyword of a trimmed line.
pub fn classify_keyword(t: &Vec<char>) -> (r: Option<KeywordKind>)
    ensures
        r == keyword_spec(t@),
{
    if text::starts_with_str(t, "define:@") || text::starts_with_str(t, "define:$") {
        Some(KeywordKind::Define)
    } else if text::starts_with_str(t, "mutate:@") || text::starts_with_str(t, "mutate:$") {
        Some(KeywordKind::Mutate)
    } else if text::starts_with_str(t, "delete:@") || text::starts_with_str(t, "delete:$") {
        Some(KeywordKind::Delete)
    } else if text::starts_with_str(t, "query:") {
        Some(KeywordKind::Query)
    } else if text::starts_with_str(t, "flow:") {
        Some(KeywordKind::Flow)
    } else if text::starts_with_str(t, "states:") {
        Some(KeywordKind::States)
    } else if text::starts_with_str(t, "validate ") && text::ends_with_str(t, ":") {
        Some(KeywordKind::Validate)
    } else if text::starts_with_str(t, "check:") {
        Some(KeywordKind::Check)
    } else if text::starts_with_str(t, "gate:") {
        Some(KeywordKind::Gate)
    } else if text::starts_with_str(t, "bound:") {
        Some(KeywordKind::Bound)
    } else if text::starts_with_str(t, "form:") {
        Some(KeywordKind::Form)
    } else if text::starts_with_str(t, "mod:") {
        Some(KeywordKind::Mod)
    } else if text::starts_with_str(t, "project:") {
        Some(KeywordKind::Project)
    } else if text::starts_with_str(t, "commands:") {
        Some(KeywordKind::Commands)
    } else if text::starts_with_str(t, "serve:") {
        Some(KeywordKind::Serve)
    } else if text::starts_with_str(t, "sync:") {
        Some(KeywordKind::Sync)
    } else if text::starts_with_str(t, "webhook:") {
        Some(KeywordKind::Webhook)
    } else if text::starts_with_str(t, "git:") {
        Some(KeywordKind::Git)
    } else {
        classify_keyword_rest(t)
    }
}

fn classify_keyword_rest(t: &Vec<char>) -> (r: Option<KeywordKind>)
    ensures
        r == keyword_spec_rest(t@),
{
    if text::starts_with_str(t, "snap:") {
        Some(KeywordKind::Snap)
    } else if text::starts_with_str(t, "diff:") {
        Some(KeywordKind::Diff)
    } else if text::starts_with_str(t, "history:") {
        Some(KeywordKind::History)
    } else if text::starts_with_str(t, "status:") && text::contains_str(t, "/") {
        Some(KeywordKind::Status)
    } else if text::starts_with_str(t, "remember:") {
        Some(KeywordKind::Remember)
    } else if text::starts_with_str(t, "recall:") {
        Some(KeywordKind::Recall)
    } else if text::starts_with_str(t, "issue:") {
        Some(KeywordKind::Issue)
    } else if text::starts_with_str(t, "comment:") {
        Some(KeywordKind::Comment)
    } else if text::starts_with_str(t, "routine:") {
        Some(KeywordKind::Routine)
    } else if text::starts_with_str(t, "escalate:") {
        Some(KeywordKind::Escalate)
    } else if text::starts_with_str(t, "use $") || text::starts_with_str(t, "use @") {
        Some(KeywordKind::Use)
    } else if text::starts_with_str(t, "policy:") {
        Some(KeywordKind::Policy)
    } else if text::starts_with_str(t, "files:") {
        Some(KeywordKind::Files)
    } else if text::starts_with_str(t, "if ") && text::ends_with_str(t, ":") {
        Some(KeywordKind::Gate)
    } else if text::starts_with_str(t, "lattice_validates:") {
        Some(KeywordKind::LatticeValidates)
    } else if text::starts_with_str(t, "lattice_constraint:") {
        Some(KeywordKind::LatticeConstraint)
    } else if text::starts_with_str(t, "lattice_schema:") {
        Some(KeywordKind::LatticeSchema)
    } else if text::starts_with_str(t, "lattice_frontier:") {
        Some(KeywordKind::LatticeFrontier)
    } else if text::starts_with_str(t, "pressure_effect:") {
        Some(KeywordKind::PressureEffect)
    } else if text::starts_with_str(t, "unit_cell:") {
        Some(KeywordKind::UnitCell)
    } else if text::starts_with_str(t, "symmetry:") {
        Some(KeywordKind::Symmetry)
    } else {
        None
    }
}

/// The name after a keyword: for `validate name:` the name, for `use ...`
/// the whole line, otherwise the trimmed text after the first colon when it
/// is not empty.
pub open spec fn keyword_name_spec(t: Seq<char>, kw: KeywordKind) -> Option<Seq<char>> {
    if kw == KeywordKind::Validate {
        match text::strip_prefix(t, "validate "@) {
            Some(a) => text::strip_suffix(a, ":"@),
            None => None,
        }
    } else if kw == KeywordKind::Use {
        Some(t)
    } else {
        match text::find(t, ":"@) {
            Some(c) => if text::trim(t.skip(c + 1)).len() == 0 {
                None
            } else {
                Some(text::trim(t.skip(c + 1)))
            },
            None => None,
        }
    }
}

pub fn extract_keyword_name(t: &Vec<char>, kw: KeywordKind) -> (r: Option<Vec<char>>)
    ensures
        crate::line::opt_view(r) == keyword_name_spec(t@, kw),
{
    if kw == KeywordKind::Validate {
        match text::strip_prefix_str(t, "validate ") {
            Some(a) => text::strip_suffix_str(&a, ":"),
            None => None,
        }
    } else if kw == KeywordKind::Use {
        Some(t.clone())
    } else {
        match text::find_str(t, ":") {
            Some(c) => {
                proof {
                    text::lemma_find_from(t@, ":"@, 0);
                    reveal_strlit(":");
                }
                let tl = t.len();
                let after = text::slice_of(t, c + 1, tl);
                assert(after@ =~= t@.skip(c + 1));
                let rest = text::trim_chars(&after);
                if rest.len() == 0 {
                    None
                } else {
                    Some(rest)
                }
            },
            None => None,
        }
    }
}


// ── Tokens ─────────────────────────────────────────────────────

/// A typed field value. A floating-point value is held as the text of the
/// number.
#[derive(Debug, Clone, PartialEq)]
pub enum FieldValue {
    String(String),
    Integer(i64),
    Float(String),
    Boolean(bool),
    Enum(Vec<String>),
    Array(String),
    Object(String),
    EntityRef(String),
    Timestamp,
    Nil,
    Compute(String),
    Raw(String),
}

/// A token of the .bit token stream.
#[derive(Debug, Clone, PartialEq)]
pub enum Token {
    Keyword { keyword: KeywordKind, name: Option<String>, line: usize, indent: usize },
    Field {
        key: String,
        required: bool,
        indexed: bool,
        value: FieldValue,
        line: usize,
        indent: usize,
    },
    Arrow { from: String, to: String, label: Option<String>, line: usize, indent: usize },
    Task {
        marker: TaskMarkerKind,
        label: Option<String>,
        text: String,
        line: usize,
        indent: usize,
    },
    Comment { text: String, line: usize },
    Heading { depth: u8, text: String, line: usize },
    Divider { line: usize },
    Spawn { parallel: bool, line: usize },
    Embed { tag: String, line: usize },
    Directive { kind: String, value: String, line: usize },
    Variable { name: String, value: String, line: usize, indent: usize },
    CodeFence { language: Option<String>, line: usize },
    Text { text: String, line: usize, indent: usize },
    Blank { line: usize },
    Eof,
}

pub enum FieldValueView {
    String(Seq<char>),
    Integer(i64),
    Float(Seq<char>),
    Boolean(bool),
    Enum(Seq<Seq<char>>),
    Array(Seq<char>),
    Object(Seq<char>),
    EntityRef(Seq<char>),
    Timestamp,
    Nil,
    Compute(Seq<char>),
    Raw(Seq<char>),
}

pub open spec fn value_view(v: FieldValue) -> FieldValueView {
    match v {
        FieldValue::String(s) => FieldValueView::String(s@),
        FieldValue::Integer(n) => FieldValueView::Integer(n),
        FieldValue::Float(s) => FieldValueView::Float(s@),
        FieldValue::Boolean(b) => FieldValueView::Boolean(b),
        FieldValue::Enum(v) => FieldValueView::Enum(text::str_views(v@)),
        FieldValue::Array(s) => FieldValueView::Array(s@),
        FieldValue::Object(s) => FieldValueView::Object(s@),
        FieldValue::EntityRef(s) => FieldValueView::EntityRef(s@),
        FieldValue::Timestamp => FieldValueView::Timestamp,
        FieldValue::Nil => FieldValueView::Nil,
        FieldValue::Compute(s) => FieldValueView::Compute(s@),
        FieldValue::Raw(s) => FieldValueView::Raw(s@),
    }
}

/// The typed value of a field's text. A `##` number that is no valid
/// floating-point text reads as `0`, a `#` number that is no valid integer
/// as 0.
pub open spec fn field_value_spec(raw: Seq<char>) -> FieldValueView {
    let s = text::trim(raw);
    if s.len() == 0 || s == "\"\""@ {
        FieldValueView::String(Seq::empty())
    } else if s == "nil"@ || s == "null"@ {
        FieldValueView::Nil
    } else if s == "?"@ || s == "true"@ || s == "false"@ {
        FieldValueView::Boolean(s == "true"@ || s == "?"@)
    } else if starts_with(s, "\""@) && text::ends_with(s, "\""@) && s.len() >= 2 {
        FieldValueView::String(s.subrange(1, s.len() - 1))
    } else if starts_with(s, "##"@) {
        let t = text::trim(s.skip(2));
        FieldValueView::Float(if crate::line::is_float_text(t) {
            t
        } else {
            "0"@
        })
    } else if starts_with(s, "#"@) {
        FieldValueView::Integer(match text::parse_i64(text::trim(s.skip(1))) {
            Some(n) => n,
            None => 0,
        })
    } else if starts_with(s, "@"@) {
        if s == "@timestamp"@ {
            FieldValueView::Timestamp
        } else {
            FieldValueView::EntityRef(s)
        }
    } else if starts_with(s, ":"@) {
        FieldValueView::Enum(text::split(s, "/"@).map_values(|v: Seq<char>| text::trim(v)))
    } else if starts_with(s, "["@) {
        FieldValueView::Array(s)
    } else if starts_with(s, "{"@) {
        FieldValueView::Object(s)
    } else if starts_with(s, "|"@) && text::ends_with(s, "|"@) && s.len() >= 2 {
        FieldValueView::Compute(s.subrange(1, s.len() - 1))
    } else if text::parse_i64(s) is Some {
        FieldValueView::Integer(text::parse_i64(s)->0)
    } else if crate::line::is_float_text(s) {
        FieldValueView::Float(s)
    } else {
        FieldValueView::Raw(s)
    }
}

pub fn parse_field_value(raw: &Vec<char>) -> (r: FieldValue)
    ensures
        value_view(r) == field_value_spec(raw@),
{
    let s = text::trim_chars(raw);
    let n = s.len();
    proof {
        reveal_strlit("\"");
        reveal_strlit("##");
        reveal_strlit("#");
        reveal_strlit("|");
        reveal_strlit("/");
        reveal_strlit("0");
    }
    if n == 0 || text::eq_str(&s, "\"\"") {
        return FieldValue::String(String::new());
    }
    if text::eq_str(&s, "nil") || text::eq_str(&s, "null") {
        return FieldValue::Nil;
    }
    if text::eq_str(&s, "?") || text::eq_str(&s, "true") || text::eq_str(&s, "false") {
        return FieldValue::Boolean(text::eq_str(&s, "true") || text::eq_str(&s, "?"));
    }
    if text::starts_with_str(&s, "\"") && text::ends_with_str(&s, "\"") && n >= 2 {
        return FieldValue::String(text::sub_string(&s, 1, n - 1));
    }
    if text::starts_with_str(&s, "##") {
        let tail = text::slice_of(&s, 2, n);
        assert(tail@ =~= s@.skip(2));
        let t = text::trim_chars(&tail);
        if crate::line::is_float_text_exec(&t) {
            return FieldValue::Float(text::to_string(&t));
        } else {
            return FieldValue::Float(text::to_string(&text::str_chars("0")));
        }
    }
    if text::starts_with_str(&s, "#") {
        let tail = text::slice_of(&s, 1, n);
        assert(tail@ =~= s@.skip(1));
        let v = match text::parse_i64_chars(&text::trim_chars(&tail)) {
            Some(v) => v,
            None => 0,
        };
        return FieldValue::Integer(v);
    }
    if text::starts_with_str(&s, "@") {
        if text::eq_str(&s, "@timestamp") {
            return FieldValue::Timestamp;
        }
        return FieldValue::EntityRef(text::to_string(&s));
    }
    if text::starts_with_str(&s, ":") {
        let parts = text::split_char(&s, '/');
        assert(seq!['/'] =~= "/"@);
        let mut out: Vec<String> = Vec::new();
        let mut i: usize = 0;
        while i < parts.len()
            invariant
                i <= parts.len(),
                text::str_views(out@) == text::views(parts@).take(i as int).map_values(
                    |v: Seq<char>| text::trim(v),
                ),
            decreases parts.len() - i,
        {
            let t = text::to_string(&text::trim_chars(&parts[i]));
            let ghost o0 = out@;
            out.push(t);
            assert(text::str_views(out@) =~= text::str_views(o0).push(t@));
            assert(text::views(parts@).take(i + 1) =~= text::views(parts@).take(i as int).push(
                parts@[i as int]@,
            ));
            i = i + 1;
            assert(text::str_views(out@) =~= text::views(parts@).take(i as int).map_values(
                |v: Seq<char>| text::trim(v),
            ));
        }
        assert(text::views(parts@).take(parts.len() as int) =~= text::views(parts@));
        return FieldValue::Enum(out);
    }
    if text::starts_with_str(&s, "[") {
        return FieldValue::Array(text::to_string(&s));
    }
    if text::starts_with_str(&s, "{") {
        return FieldValue::Object(text::to_string(&s));
    }
    if text::starts_with_str(&s, "|") && text::ends_with_str(&s, "|") && n >= 2 {
        return FieldValue::Compute(text::sub_string(&s, 1, n - 1));
    }
    match text::parse_i64_chars(&s) {
        Some(v) => {
            return FieldValue::Integer(v);
        },
        None => {},
    }
    if crate::line::is_float_text_exec(&s) {
        FieldValue::Float(text::to_string(&s))
    } else {
        FieldValue::Raw(text::to_string(&s))
    }
}


pub open spec fn non_digit_pred() -> spec_fn(char) -> bool {
    |c: char| !text::is_digit(c)
}

/// The kind of a task marker from the text between its brackets.
pub open spec fn marker_kind_spec(inside: Seq<char>) -> TaskMarkerKind {
    let t = text::trim(inside);
    if t.len() == 0 || t == " "@ {
        TaskMarkerKind::Open
    } else if t == "x"@ || t == "X"@ {
        TaskMarkerKind::Done
    } else if t == "!"@ {
        TaskMarkerKind::Blocked
    } else if t == "?"@ {
        TaskMarkerKind::Question
    } else if t == ">"@ {
        TaskMarkerKind::Deferred
    } else {
        match text::parse_u32(t.take(t.len() - text::trail_count(t, non_digit_pred()))) {
            Some(n) => TaskMarkerKind::Numbered(n),
            None => TaskMarkerKind::Open,
        }
    }
}

fn marker_kind_exec(inside: &Vec<char>) -> (r: TaskMarkerKind)
    ensures
        r == marker_kind_spec(inside@),
{
    let t = text::trim_chars(inside);
    if t.len() == 0 || text::eq_str(&t, " ") {
        TaskMarkerKind::Open
    } else if text::eq_str(&t, "x") || text::eq_str(&t, "X") {
        TaskMarkerKind::Done
    } else if text::eq_str(&t, "!") {
        TaskMarkerKind::Blocked
    } else if text::eq_str(&t, "?") {
        TaskMarkerKind::Question
    } else if text::eq_str(&t, ">") {
        TaskMarkerKind::Deferred
    } else {
        let mut k: usize = t.len();
        while k > 0 && !(t[k - 1] >= '0' && t[k - 1] <= '9')
            invariant
                k <= t.len(),
                forall|j: int| k <= j < t.len() ==> #[trigger] non_digit_pred()(t@[j]),
            decreases k,
        {
            k = k - 1;
        }
        proof {
            text::lemma_trail_count(t@, non_digit_pred(), t.len() - k);
        }
        match text::parse_u32_chars(&text::slice_of(&t, 0, k)) {
            Some(n) => TaskMarkerKind::Numbered(n),
            None => TaskMarkerKind::Open,
        }
    }
}

/// A task line: the marker kind and the text after the brackets.
pub open spec fn task_token_spec(t: Seq<char>) -> (TaskMarkerKind, Seq<char>) {
    let start = match text::find(t, "["@) {
        Some(i) => i,
        None => 0,
    };
    let end = match text::find(t, "]"@) {
        Some(i) => i,
        None => t.len() as int,
    };
    let inside = if start + 1 <= end {
        t.subrange(start + 1, end)
    } else {
        Seq::empty()
    };
    let after = if end + 1 <= t.len() {
        text::trim(t.skip(end + 1))
    } else {
        Seq::empty()
    };
    (marker_kind_spec(inside), after)
}

fn task_token_exec(t: &Vec<char>) -> (r: (TaskMarkerKind, Vec<char>))
    ensures
        (r.0, r.1@) == task_token_spec(t@),
{
    let n = t.len();
    let start: usize = match text::find_str(t, "[") {
        Some(i) => {
            proof {
                text::lemma_find_from(t@, "["@, 0);
            }
            i
        },
        None => 0,
    };
    let end: usize = match text::find_str(t, "]") {
        Some(i) => {
            proof {
                text::lemma_find_from(t@, "]"@, 0);
            }
            i
        },
        None => n,
    };
    let inside = if start < end {
        text::slice_of(t, start + 1, end)
    } else {
        Vec::new()
    };
    let after = if end < n {
        let a = text::slice_of(t, end + 1, n);
        assert(a@ =~= t@.skip(end + 1));
        text::trim_chars(&a)
    } else {
        Vec::new()
    };
    (marker_kind_exec(&inside), after)
}

/// An arrow line: its source, target and `|label|`.
pub open spec fn arrow_spec(t: Seq<char>) -> (Seq<char>, Seq<char>, Option<Seq<char>>) {
    let norm = text::replace(text::replace(t, "-.->"@, "-->"@), "==>"@, "-->"@);
    let (working, label) = match text::find(norm, "-->|"@) {
        Some(p) => match text::find(norm.skip(p + 4), "|"@) {
            Some(e) => (
                norm.take(p) + "-->"@ + norm.skip(p + 4 + e + 1),
                Some(norm.subrange(p + 4, p + 4 + e)),
            ),
            None => (norm, None),
        },
        None => (norm, None),
    };
    match text::split_once(working, "-->"@) {
        Some((a, b)) => (text::trim(a), text::trim(b), label),
        None => (text::trim(working), Seq::empty(), label),
    }
}

fn arrow_exec(t: &Vec<char>) -> (r: (Vec<char>, Vec<char>, Option<Vec<char>>))
    ensures
        (r.0@, r.1@, crate::line::opt_view(r.2)) == arrow_spec(t@),
{
    proof {
        reveal_strlit("-.->");
        reveal_strlit("==>");
        reveal_strlit("-->|");
        reveal_strlit("-->");
        reveal_strlit("|");
    }
    let n1 = text::replace_str(t, "-.->", "-->");
    let norm = text::replace_str(&n1, "==>", "-->");
    let nl = norm.len();
    let (working, label) = match text::find_str(&norm, "-->|") {
        Some(p) => {
            proof {
                text::lemma_find_from(norm@, "-->|"@, 0);
            }
            let rest = text::slice_of(&norm, p + 4, nl);
            assert(rest@ =~= norm@.skip(p + 4));
            match text::find_str(&rest, "|") {
                Some(e) => {
                    proof {
                        text::lemma_find_from(rest@, "|"@, 0);
                    }
                    let mut w = text::slice_of(&norm, 0, p);
                    text::append_str(&mut w, "-->");
                    let tail = text::slice_of(&norm, p + 4 + e + 1, nl);
                    assert(tail@ =~= norm@.skip(p + 4 + e + 1));
                    text::append(&mut w, &tail);
                    let l = text::slice_of(&norm, p + 4, p + 4 + e);
                    (w, Some(l))
                },
                None => (norm.clone(), None),
            }
        },
        None => (norm.clone(), None),
    };
    match text::split_once_str(&working, "-->") {
        Some((a, b)) => (text::trim_chars(&a), text::trim_chars(&b), label),
        None => (text::trim_chars(&working), Vec::new(), label),
    }
}

/// A field line: key, whether it is required (`!`) or indexed (`^`), and
/// the value after the first colon.
pub open spec fn field_token_spec(t: Seq<char>) -> (Seq<char>, bool, bool, FieldValueView) {
    let c = match text::find(t, ":"@) {
        Some(i) => i,
        None => t.len() as int,
    };
    let key_part = t.take(c);
    let value_part = if c + 1 <= t.len() {
        text::trim(t.skip(c + 1))
    } else {
        Seq::empty()
    };
    (
        text::trim(text::trim_end_matches(text::trim_end_matches(key_part, "!"@), "^"@)),
        text::ends_with(key_part, "!"@),
        text::ends_with(key_part, "^"@),
        field_value_spec(value_part),
    )
}

fn field_token_exec(t: &Vec<char>) -> (r: (Vec<char>, bool, bool, FieldValue))
    ensures
        (r.0@, r.1, r.2, value_view(r.3)) == field_token_spec(t@),
{
    let n = t.len();
    let c: usize = match text::find_str(t, ":") {
        Some(i) => {
            proof {
                text::lemma_find_from(t@, ":"@, 0);
            }
            i
        },
        None => n,
    };
    let key_part = text::slice_of(t, 0, c);
    let value_part = if c < n {
        let v = text::slice_of(t, c + 1, n);
        assert(v@ =~= t@.skip(c + 1));
        text::trim_chars(&v)
    } else {
        Vec::new()
    };
    let required = text::ends_with_str(&key_part, "!");
    let indexed = text::ends_with_str(&key_part, "^");
    let key = text::trim_chars(&text::trim_end_matches_str(&text::trim_end_matches_str(&key_part, "!"), "^"));
    (key, required, indexed, parse_field_value(&value_part))
}


/// The value of a token, its strings taken as character sequences.
pub enum TokenView {
    Keyword { keyword: KeywordKind, name: Option<Seq<char>>, line: usize, indent: usize },
    Field {
        key: Seq<char>,
        required: bool,
        indexed: bool,
        value: FieldValueView,
        line: usize,
        indent: usize,
    },
    Arrow { from: Seq<char>, to: Seq<char>, label: Option<Seq<char>>, line: usize, indent: usize },
    Task {
        marker: TaskMarkerKind,
        label: Option<Seq<char>>,
        text: Seq<char>,
        line: usize,
        indent: usize,
    },
    Comment { text: Seq<char>, line: usize },
    Heading { depth: u8, text: Seq<char>, line: usize },
    Divider { line: usize },
    Spawn { parallel: bool, line: usize },
    Embed { tag: Seq<char>, line: usize },
    Directive { kind: Seq<char>, value: Seq<char>, line: usize },
    Variable { name: Seq<char>, value: Seq<char>, line: usize, indent: usize },
    CodeFence { language: Option<Seq<char>>, line: usize },
    Text { text: Seq<char>, line: usize, indent: usize },
    Blank { line: usize },
    Eof,
}

pub open spec fn sopt(o: Option<String>) -> Option<Seq<char>> {
    match o {
        Some(s) => Some(s@),
        None => None,
    }
}

pub open spec fn token_view(t: Token) -> TokenView {
    match t {
        Token::Keyword { keyword, name, line, indent } => TokenView::Keyword {
            keyword,
            name: sopt(name),
            line,
            indent,
        },
        Token::Field { key, required, indexed, value, line, indent } => TokenView::Field {
            key: key@,
            required,
            indexed,
            value: value_view(value),
            line,
            indent,
        },
        Token::Arrow { from, to, label, line, indent } => TokenView::Arrow {
            from: from@,
            to: to@,
            label: sopt(label),
            line,
            indent,
        },
        Token::Task { marker, label, text, line, indent } => TokenView::Task {
            marker,
            label: sopt(label),
            text: text@,
            line,
            indent,
        },
        Token::Comment { text, line } => TokenView::Comment { text: text@, line },
        Token::Heading { depth, text, line } => TokenView::Heading { depth, text: text@, line },
        Token::Divider { line } => TokenView::Divider { line },
        Token::Spawn { parallel, line } => TokenView::Spawn { parallel, line },
        Token::Embed { tag, line } => TokenView::Embed { tag: tag@, line },
        Token::Directive { kind, value, line } => TokenView::Directive {
            kind: kind@,
            value: value@,
            line,
        },
        Token::Variable { name, value, line, indent } => TokenView::Variable {
            name: name@,
            value: value@,
            line,
            indent,
        },
        Token::CodeFence { language, line } => TokenView::CodeFence {
            language: sopt(language),
            line,
        },
        Token::Text { text, line, indent } => TokenView::Text { text: text@, line, indent },
        Token::Blank { line } => TokenView::Blank { line },
        Token::Eof => TokenView::Eof,
    }
}

/// The number of leading spaces of a line (tabs do not count).
pub open spec fn space_indent(raw: Seq<char>) -> nat {
    text::lead_count(raw, text::char_pred(' '))
}

/// The language named after an opening fence; a closing fence with more
/// than the three backticks names none.
pub open spec fn fence_language(t: Seq<char>, opening: bool) -> Option<Seq<char>> {
    if t.len() > 3 && !opening {
        None
    } else {
        let rest = text::trim(text::trim_start_matches(t, "`"@));
        if rest.len() == 0 {
            None
        } else {
            Some(rest)
        }
    }
}

/// A line of three or more dashes and nothing else.
pub open spec fn is_divider(t: Seq<char>) -> bool {
    starts_with(t, "---"@) && forall|i: int| 0 <= i < t.len() ==> t[i] == '-'
}

pub open spec fn is_directive(t: Seq<char>) -> bool {
    starts_with(t, "@priority "@) || starts_with(t, "@due "@) || starts_with(t, "@assign "@)
}

/// The kind (first word without its `@`) and value (the rest, trimmed) of
/// a directive line.
pub open spec fn directive_parts(t: Seq<char>) -> (Seq<char>, Seq<char>) {
    match text::find(t, " "@) {
        Some(sp) => (text::trim_start_matches(t.take(sp), "@"@), text::trim(t.skip(sp + 1))),
        None => (text::trim_start_matches(t, "@"@), Seq::empty()),
    }
}

/// Whether a line is a task line: after leading `+` and `-` signs and
/// whitespace it opens a bracket that some `]` closes later on the line.
pub open spec fn is_task_line(t: Seq<char>) -> bool {
    let c = text::trim_start(text::trim_start_matches(text::trim_start_matches(t, "+"@), "-"@));
    starts_with(c, "["@) && text::contains(c, "]"@)
}

/// Characters of a variable name.
pub open spec fn var_char(c: char) -> bool {
    crate::spans::alnum(c) || c == '_'
}

/// A variable assignment `name = value`: the text before the first `=`
/// has a space and no colon, and the trimmed name is made of letters,
/// digits and underscores.
pub open spec fn variable_spec(t: Seq<char>) -> Option<(Seq<char>, Seq<char>)> {
    match text::find(t, "="@) {
        Some(e) => {
            let lhs = t.take(e);
            let name = text::trim(lhs);
            if e > 0 && !text::contains(lhs, ":"@) && text::contains(lhs, " "@) && name.len() > 0
                && forall|i: int| 0 <= i < name.len() ==> var_char(name[i]) {
                Some((name, text::trim(t.skip(e + 1))))
            } else {
                None
            }
        },
        None => None,
    }
}

pub open spec fn has_arrow(t: Seq<char>) -> bool {
    text::contains(t, "-->"@) || text::contains(t, "==>"@) || text::contains(t, "-.->"@)
}

/// The token of a trimmed, non-blank line outside a code block.
pub open spec fn plain_token(t: Seq<char>, line: usize, indent: usize) -> TokenView {
    if starts_with(t, "//"@) {
        TokenView::Comment { text: text::trim(text::trim_start_matches(t, "//"@)), line }
    } else if is_divider(t) {
        TokenView::Divider { line }
    } else if t == "+"@ {
        TokenView::Spawn { parallel: true, line }
    } else if t == "++"@ {
        TokenView::Spawn { parallel: false, line }
    } else if starts_with(t, "#"@) && !starts_with(t, "#("@) {
        let d = text::lead_count(t, text::char_pred('#'));
        TokenView::Heading { depth: d as u8, text: text::trim(t.skip(d as int)), line }
    } else if starts_with(t, "^"@) && t.len() > 1 {
        TokenView::Embed { tag: text::trim(t.skip(1)), line }
    } else if is_directive(t) {
        TokenView::Directive { kind: directive_parts(t).0, value: directive_parts(t).1, line }
    } else {
        plain_token_rest(t, line, indent)
    }
}

pub open spec fn plain_token_rest(t: Seq<char>, line: usize, indent: usize) -> TokenView {
    if is_task_line(t) {
        TokenView::Task {
            marker: task_token_spec(t).0,
            label: None,
            text: task_token_spec(t).1,
            line,
            indent,
        }
    } else if variable_spec(t) is Some {
        match variable_spec(t) {
            Some((name, value)) => TokenView::Variable { name, value, line, indent },
            None => TokenView::Eof,
        }
    } else if keyword_spec(t) is Some {
        TokenView::Keyword {
            keyword: keyword_spec(t)->0,
            name: keyword_name_spec(t, keyword_spec(t)->0),
            line,
            indent,
        }
    } else if has_arrow(t) {
        TokenView::Arrow {
            from: arrow_spec(t).0,
            to: arrow_spec(t).1,
            label: arrow_spec(t).2,
            line,
            indent,
        }
    } else if indent >= 4 && text::contains(t, ":"@) {
        TokenView::Field {
            key: field_token_spec(t).0,
            required: field_token_spec(t).1,
            indexed: field_token_spec(t).2,
            value: field_token_spec(t).3,
            line,
            indent,
        }
    } else if starts_with(t, "? "@) {
        TokenView::Keyword { keyword: KeywordKind::InlineQuery, name: Some(t.skip(2)), line, indent }
    } else if starts_with(t, "$"@) {
        TokenView::Keyword { keyword: KeywordKind::Mod, name: Some(t), line, indent }
    } else if starts_with(t, "%"@) {
        TokenView::Keyword { keyword: KeywordKind::ProjectScope, name: Some(t.skip(1)), line, indent }
    } else {
        TokenView::Text { text: t, line, indent }
    }
}

/// The token of one source line, numbered `line`, and whether a code block
/// is open after it.
pub open spec fn line_token(raw: Seq<char>, line: usize, in_code: bool) -> (TokenView, bool) {
    let t = text::trim(raw);
    let indent = space_indent(raw) as usize;
    if t.len() == 0 {
        (TokenView::Blank { line }, in_code)
    } else if starts_with(t, "```"@) {
        (TokenView::CodeFence { language: fence_language(t, !in_code), line }, !in_code)
    } else if in_code {
        (TokenView::Text { text: raw, line, indent }, in_code)
    } else {
        (plain_token(t, line, indent), in_code)
    }
}


fn string_opt(o: Option<Vec<char>>) -> (r: Option<String>)
    ensures
        sopt(r) == crate::line::opt_view(o),
{
    match o {
        Some(v) => Some(text::to_string(&v)),
        None => None,
    }
}

fn fence_language_exec(t: &Vec<char>, opening: bool) -> (r: Option<String>)
    ensures
        sopt(r) == fence_language(t@, opening),
{
    if t.len() > 3 && !opening {
        None
    } else {
        let rest = text::trim_chars(&text::trim_start_matches_str(t, "`"));
        if rest.len() == 0 {
            None
        } else {
            Some(text::to_string(&rest))
        }
    }
}

fn is_divider_exec(t: &Vec<char>) -> (r: bool)
    ensures
        r == is_divider(t@),
{
    if !text::starts_with_str(t, "---") {
        return false;
    }
    let mut i: usize = 0;
    while i < t.len()
        invariant
            i <= t.len(),
            forall|j: int| 0 <= j < i ==> t@[j] == '-',
        decreases t.len() - i,
    {
        if t[i] != '-' {
            return false;
        }
        i = i + 1;
    }
    true
}

fn directive_exec(t: &Vec<char>) -> (r: (String, String))
    ensures
        (r.0@, r.1@) == directive_parts(t@),
{
    match text::find_str(t, " ") {
        Some(sp) => {
            proof {
                reveal_strlit(" ");
                text::lemma_find_from(t@, " "@, 0);
            }
            let n = t.len();
            let head = text::slice_of(t, 0, sp);
            let tail = text::slice_of(t, sp + 1, n);
            assert(tail@ =~= t@.skip(sp + 1));
            (
                text::to_string(&text::trim_start_matches_str(&head, "@")),
                text::to_string(&text::trim_chars(&tail)),
            )
        },
        None => (text::to_string(&text::trim_start_matches_str(t, "@")), String::new()),
    }
}

fn is_task_line_exec(t: &Vec<char>) -> (r: bool)
    ensures
        r == is_task_line(t@),
{
    let a = text::trim_start_matches_str(t, "+");
    let b = text::trim_start_matches_str(&a, "-");
    let c = text::trim_start_chars(&b);
    text::starts_with_str(&c, "[") && text::contains_str(&c, "]")
}

fn all_var_chars(name: &Vec<char>) -> (r: bool)
    ensures
        r == (forall|i: int| 0 <= i < name@.len() ==> var_char(name@[i])),
{
    let mut i: usize = 0;
    while i < name.len()
        invariant
            i <= name.len(),
            forall|j: int| 0 <= j < i ==> var_char(name@[j]),
        decreases name.len() - i,
    {
        let c = name[i];
        if !(crate::spans::is_alphanumeric(c) || c == '_') {
            return false;
        }
        i = i + 1;
    }
    true
}

fn variable_exec(t: &Vec<char>) -> (r: Option<(Vec<char>, Vec<char>)>)
    ensures
        match r {
            Some((n, v)) => variable_spec(t@) == Some((n@, v@)),
            None => variable_spec(t@) is None,
        },
{
    match text::find_str(t, "=") {
        Some(e) => {
            proof {
                text::lemma_find_from(t@, "="@, 0);
                reveal_strlit("=");
            }
            let lhs = text::slice_of(t, 0, e);
            let name = text::trim_chars(&lhs);
            if e > 0 && !text::contains_str(&lhs, ":") && text::contains_str(&lhs, " ")
                && name.len() > 0 && all_var_chars(&name) {
                let rhs = text::slice_of(t, e + 1, t.len());
                assert(rhs@ =~= t@.skip(e + 1));
                Some((name, text::trim_chars(&rhs)))
            } else {
                None
            }
        },
        None => None,
    }
}

fn has_arrow_exec(t: &Vec<char>) -> (r: bool)
    ensures
        r == has_arrow(t@),
{
    text::contains_str(t, "-->") || text::contains_str(t, "==>") || text::contains_str(t, "-.->")
}

fn plain_token_exec(t: &Vec<char>, line: usize, indent: usize) -> (r: Token)
    ensures
        token_view(r) == plain_token(t@, line, indent),
{
    proof {
        reveal_strlit("+");
        reveal_strlit("++");
    }
    if text::starts_with_str(t, "//") {
        let c = text::trim_chars(&text::trim_start_matches_str(t, "//"));
        Token::Comment { text: text::to_string(&c), line }
    } else if is_divider_exec(t) {
        Token::Divider { line }
    } else if text::eq_str(t, "+") {
        Token::Spawn { parallel: true, line }
    } else if text::eq_str(t, "++") {
        Token::Spawn { parallel: false, line }
    } else if text::starts_with_str(t, "#") && !text::starts_with_str(t, "#(") {
        let d = text::count_lead_char(t, '#');
        let rest = text::slice_of(t, d, t.len());
        assert(rest@ =~= t@.skip(d as int));
        Token::Heading { depth: d as u8, text: text::to_string(&text::trim_chars(&rest)), line }
    } else if text::starts_with_str(t, "^") && t.len() > 1 {
        let rest = text::slice_of(t, 1, t.len());
        assert(rest@ =~= t@.skip(1));
        Token::Embed { tag: text::to_string(&text::trim_chars(&rest)), line }
    } else if text::starts_with_str(t, "@priority ") || text::starts_with_str(t, "@due ")
        || text::starts_with_str(t, "@assign ") {
        let (kind, value) = directive_exec(t);
        Token::Directive { kind, value, line }
    } else {
        plain_token_rest_exec(t, line, indent)
    }
}

fn plain_token_rest_exec(t: &Vec<char>, line: usize, indent: usize) -> (r: Token)
    ensures
        token_view(r) == plain_token_rest(t@, line, indent),
{
    if is_task_line_exec(t) {
        let (marker, after) = task_token_exec(t);
        return Token::Task { marker, label: None, text: text::to_string(&after), line, indent };
    }
    match variable_exec(t) {
        Some((name, value)) => {
            return Token::Variable {
                name: text::to_string(&name),
                value: text::to_string(&value),
                line,
                indent,
            };
        },
        None => {},
    }
    match classify_keyword(t) {
        Some(kw) => {
            let name = string_opt(extract_keyword_name(t, kw));
            return Token::Keyword { keyword: kw, name, line, indent };
        },
        None => {},
    }
    if has_arrow_exec(t) {
        let (from, to, label) = arrow_exec(t);
        Token::Arrow {
            from: text::to_string(&from),
            to: text::to_string(&to),
            label: string_opt(label),
            line,
            indent,
        }
    } else if indent >= 4 && text::contains_str(t, ":") {
        let (key, required, indexed, value) = field_token_exec(t);
        Token::Field { key: text::to_string(&key), required, indexed, value, line, indent }
    } else if text::starts_with_str(t, "? ") {
        proof {
            reveal_strlit("? ");
        }
        let rest = text::slice_of(t, 2, t.len());
        assert(rest@ =~= t@.skip(2));
        Token::Keyword {
            keyword: KeywordKind::InlineQuery,
            name: Some(text::to_string(&rest)),
            line,
            indent,
        }
    } else if text::starts_with_str(t, "$") {
        Token::Keyword { keyword: KeywordKind::Mod, name: Some(text::to_string(t)), line, indent }
    } else if text::starts_with_str(t, "%") {
        proof {
            reveal_strlit("%");
        }
        let rest = text::slice_of(t, 1, t.len());
        assert(rest@ =~= t@.skip(1));
        Token::Keyword {
            keyword: KeywordKind::ProjectScope,
            name: Some(text::to_string(&rest)),
            line,
            indent,
        }
    } else {
        Token::Text { text: text::to_string(t), line, indent }
    }
}

/// The token of one source line and whether a code block is open after it.
pub fn line_token_exec(raw: &Vec<char>, line: usize, in_code: bool) -> (r: (Token, bool))
    ensures
        (token_view(r.0), r.1) == line_token(raw@, line, in_code),
{
    let t = text::trim_chars(raw);
    let indent = text::count_lead_char(raw, ' ');
    if t.len() == 0 {
        (Token::Blank { line }, in_code)
    } else if text::starts_with_str(&t, "```") {
        (Token::CodeFence { language: fence_language_exec(&t, !in_code), line }, !in_code)
    } else if in_code {
        (Token::Text { text: text::to_string(raw), line, indent }, in_code)
    } else {
        (plain_token_exec(&t, line, indent), in_code)
    }
}


pub open spec fn token_views(s: Seq<Token>) -> Seq<TokenView> {
    s.map_values(|t: Token| token_view(t))
}

/// The tokens of the lines from `pos` on, with a code block open or not
/// before them, ending with `Eof`.
pub open spec fn tokens_from(lines: Seq<Seq<char>>, pos: int, in_code: bool) -> Seq<TokenView>
    decreases lines.len() - pos,
{
    if pos < 0 || pos >= lines.len() {
        seq![TokenView::Eof]
    } else {
        let (tok, next) = line_token(lines[pos], (pos + 1) as usize, in_code);
        seq![tok] + tokens_from(lines, pos + 1, next)
    }
}

/// The line a token was read from; `Eof` has none.
pub open spec fn token_line(t: TokenView) -> Option<usize> {
    match t {
        TokenView::Keyword { line, .. } => Some(line),
        TokenView::Field { line, .. } => Some(line),
        TokenView::Arrow { line, .. } => Some(line),
        TokenView::Task { line, .. } => Some(line),
        TokenView::Comment { line, .. } => Some(line),
        TokenView::Heading { line, .. } => Some(line),
        TokenView::Divider { line } => Some(line),
        TokenView::Spawn { line, .. } => Some(line),
        TokenView::Embed { line, .. } => Some(line),
        TokenView::Directive { line, .. } => Some(line),
        TokenView::Variable { line, .. } => Some(line),
        TokenView::CodeFence { line, .. } => Some(line),
        TokenView::Text { line, .. } => Some(line),
        TokenView::Blank { line } => Some(line),
        TokenView::Eof => None,
    }
}

/// Every line gives one token, which carries that line's number.
pub proof fn lemma_line_token_line(raw: Seq<char>, line: usize, in_code: bool)
    ensures
        token_line(line_token(raw, line, in_code).0) == Some(line),
{
}

/// Lexing lines gives one token per line, each carrying the number of its
/// line, and then a single `Eof`.
pub proof fn lemma_tokens_shape(lines: Seq<Seq<char>>, pos: int, in_code: bool)
    requires
        0 <= pos <= lines.len(),
        lines.len() < usize::MAX,
    ensures
        tokens_from(lines, pos, in_code).len() == lines.len() - pos + 1,
        tokens_from(lines, pos, in_code).last() is Eof,
        forall|i: int|
            0 <= i < lines.len() - pos ==> token_line(#[trigger] tokens_from(lines, pos, in_code)[i])
                == Some((pos + i + 1) as usize),
    decreases lines.len() - pos,
{
    if pos < lines.len() {
        let (tok, next) = line_token(lines[pos], (pos + 1) as usize, in_code);
        lemma_line_token_line(lines[pos], (pos + 1) as usize, in_code);
        lemma_tokens_shape(lines, pos + 1, next);
        let rest = tokens_from(lines, pos + 1, next);
        let all = tokens_from(lines, pos, in_code);
        assert(all == seq![tok] + rest);
        assert forall|i: int| 0 <= i < lines.len() - pos implies token_line(#[trigger] all[i])
            == Some((pos + i + 1) as usize) by {
            if i > 0 {
                assert(all[i] == rest[i - 1]);
            }
        }
    }
}

impl Lexer {
    /// Reads the current line and moves past it; `Eof` once no line is left.
    pub fn next_token(&mut self) -> (r: Token)
        ensures
            final(self).lines@ == old(self).lines@,
            old(self).pos >= old(self).lines@.len() ==> r is Eof && *final(self) == *old(self),
            final(self).pos == pos_after(old(self).lines@.len(), old(self).pos as nat, 1),
            old(self).pos < old(self).lines@.len() ==> {
                &&& final(self).pos == old(self).pos + 1
                &&& (token_view(r), final(self).in_code_block) == line_token(
                    old(self).lines@[old(self).pos as int]@,
                    (old(self).pos + 1) as usize,
                    old(self).in_code_block,
                )
            },
    {
        assert(pos_after(self.lines@.len(), self.pos as nat, 0) == self.pos);
        if self.pos >= self.lines.len() {
            return Token::Eof;
        }
        let line = self.pos + 1;
        let (tok, next) = line_token_exec(&self.lines[self.pos], line, self.in_code_block);
        self.pos = line;
        self.in_code_block = next;
        tok
    }

    /// Reads every line left, ending with `Eof`.
    pub fn tokenize_all(&mut self) -> (r: Vec<Token>)
        ensures
            final(self).lines@ == old(self).lines@,
            token_views(r@) == tokens_from(
                text::views(old(self).lines@),
                old(self).pos as int,
                old(self).in_code_block,
            ),
            old(self).wf() && old(self).lines@.len() < usize::MAX ==> {
                &&& r@.len() == old(self).lines@.len() - old(self).pos + 1
                &&& token_view(r@.last()) is Eof
                &&& forall|i: int|
                    0 <= i < r@.len() - 1 ==> token_line(token_view(#[trigger] r@[i])) == Some(
                        (old(self).pos + i + 1) as usize,
                    )
            },
    {
        let mut tokens: Vec<Token> = Vec::new();
        let ghost lines = text::views(self.lines@);
        let ghost start = self.pos as int;
        let ghost code0 = self.in_code_block;
        let ghost raw_lines = self.lines@;
        let ghost pos0 = self.pos as int;
        loop
            invariant_except_break
                self.lines@ == raw_lines,
                text::views(self.lines@) == lines,
                token_views(tokens@) + tokens_from(lines, self.pos as int, self.in_code_block)
                    == tokens_from(lines, start, code0),
            ensures
                self.lines@ == raw_lines,
                token_views(tokens@) == tokens_from(lines, start, code0),
            decreases self.lines@.len() - self.pos,
        {
            let ghost before = token_views(tokens@);
            let ghost p = self.pos as int;
            let ghost c = self.in_code_block;
            let tok = self.next_token();
            let is_end = match tok {
                Token::Eof => true,
                _ => false,
            };
            tokens.push(tok);
            proof {
                assert(token_views(tokens@) =~= before.push(token_view(tok)));
                if p < lines.len() {
                    assert(lines[p] == self.lines@[p]@);
                }
            }
            if is_end {
                proof {
                    if p < lines.len() {
                        assert(token_view(tok) is Eof);
                        assert(false) by {
                            lemma_line_token_not_eof(lines[p], (p + 1) as usize, c);
                        }
                    }
                    assert(tokens_from(lines, p, c) =~= seq![TokenView::Eof]);
                    assert(token_views(tokens@) =~= before + tokens_from(lines, p, c));
                }
                break;
            }
            proof {
                assert(token_views(tokens@) + tokens_from(lines, self.pos as int, self.in_code_block)
                    =~= before + tokens_from(lines, p, c));
            }
        }
        proof {
            if pos0 <= raw_lines.len() && raw_lines.len() < usize::MAX {
                lemma_tokens_shape(lines, start, code0);
                let tv = token_views(tokens@);
                assert(tv.len() == tokens@.len());
                assert(tv.last() == token_view(tokens@.last()));
                assert forall|i: int| 0 <= i < tokens@.len() - 1 implies token_line(token_view(#[trigger] tokens@[i]))
                    == Some((start + i + 1) as usize) by {
                    assert(tv[i] == token_view(tokens@[i]));
                }
            }
        }
        tokens
    }
}

/// Where a lexer over `n` lines that stands at line index `p` stands after
/// `k` calls of `next_token`: one line further per call, up to the end.
pub open spec fn pos_after(n: nat, p: nat, k: nat) -> nat
    decreases k,
{
    if k == 0 {
        p
    } else {
        let q = pos_after(n, p, (k - 1) as nat);
        if q < n {
            q + 1
        } else {
            q
        }
    }
}

/// A lexer made by `new` over a source of `n` lines stands, after `k` calls
/// of `next_token`, at line index `min(k, n)`: `line_number` gives
/// `min(k, n) + 1`, and `peek_line` gives line `k` while `k < n` and nothing
/// after. Reading the position changes nothing.
pub proof fn lemma_position_after_calls(n: nat, k: nat)
    ensures
        pos_after(n, 0, k) == if k < n {
            k
        } else {
            n
        },
    decreases k,
{
    if k > 0 {
        lemma_position_after_calls(n, (k - 1) as nat);
    }
}

/// The states of a lexer made by `new` over `source` and moved by `k`
/// calls of `next_token` (each state as `next_token` leaves the one before
/// it): after the `k`-th call the lexer stands at line index `min(k, n)`
/// for the source's `n` lines, so `line_number` gives `min(k, n) + 1` and
/// `peek_line` gives line `k` while `k < n` and nothing after.
pub proof fn lemma_lexer_run(source: Seq<char>, states: Seq<Lexer>)
    requires
        states.len() > 0,
        text::views(states[0].lines@) == text::lines(source),
        states[0].pos == 0,
        forall|i: int|
            0 < i < states.len() ==> (#[trigger] states[i]).lines@ == states[i - 1].lines@ && states[i].pos
                == pos_after(states[i - 1].lines@.len(), states[i - 1].pos as nat, 1),
    ensures
        forall|k: int|
            0 <= k < states.len() ==> (#[trigger] states[k]).lines@ == states[0].lines@ && states[k].pos == if k
                < text::lines(source).len() {
                k
            } else {
                text::lines(source).len() as int
            },
    decreases states.len(),
{
    let n = states[0].lines@.len();
    assert(text::views(states[0].lines@).len() == n);
    if states.len() > 1 {
        let init = states.drop_last();
        assert forall|i: int| 0 < i < init.len() implies (#[trigger] init[i]).lines@ == init[i - 1].lines@
            && init[i].pos == pos_after(init[i - 1].lines@.len(), init[i - 1].pos as nat, 1) by {
            assert(init[i] == states[i]);
            assert(init[i - 1] == states[i - 1]);
            assert(states[i].lines@ == states[i - 1].lines@);
        }
        lemma_lexer_run(source, init);
        let k = states.len() - 1;
        assert(states[k].lines@ == states[k - 1].lines@);
        assert(states[k - 1] == init[k - 1]);
        assert(pos_after(n, states[k - 1].pos as nat, 0) == states[k - 1].pos);
        assert forall|j: int| 0 <= j < states.len() implies (#[trigger] states[j]).lines@ == states[0].lines@
            && states[j].pos == if j < text::lines(source).len() {
            j
        } else {
            text::lines(source).len() as int
        } by {
            if j < k {
                assert(states[j] == init[j]);
            }
        }
    }
}

proof fn lemma_line_token_not_eof(raw: Seq<char>, line: usize, in_code: bool)
    ensures
        !(line_token(raw, line, in_code).0 is Eof),
{
    let t = text::trim(raw);
    if t.len() > 0 && !starts_with(t, "```"@) && !in_code {
        let indent = space_indent(raw) as usize;
        if !starts_with(t, "//"@) && !is_divider(t) && t != "+"@ && t != "++"@ && !(starts_with(
            t,
            "#"@,
        ) && !starts_with(t, "#("@)) && !(starts_with(t, "^"@) && t.len() > 1) && !is_directive(
            t,
        ) && !is_task_line(t) && variable_spec(t) is Some {
            match variable_spec(t) {
                Some(_) => {},
                None => {},
            }
        }
    }
}

} // verus!
