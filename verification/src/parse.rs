//! The .bit parser: turns source text into a `Document`.
//!
//! The source is split into lines (tabs count as four spaces); each
//! construct starts on a line of its own and owns the more deeply indented
//! lines that follow it.
use crate::spans;
use crate::line;
use crate::line::{opt_view, strip_comment_spec};
use crate::text;
use crate::text::{starts_with, trim};
use crate::types::{
    Atom, Bold, CodeBlock, Comment, Compute, Conditional, Define, Delete, Diff, Document, EmbedMarker,
    Escalate, Flow, FormDef, FormProjectionDef, FormStorageDef, Gate, GateDef, Group, HistoryOp,
    Inline, MatchArm, ModDef, ModInvoke, Mutate, Node, ParseError, Prose, RecallOp, Remember,
    Routine, Snap, Spawn, StatesDef, StatusDef, Task, TaskMarker, ValidateDef, AttachmentMeta,
};
use vstd::prelude::*;

verus! {

/// Deepest nesting of blocks that the parser descends into.
pub const MAX_DEPTH: usize = 128;

/// A line with surrounding whitespace and a trailing comment removed.
pub open spec fn header_of(raw: Seq<char>) -> Seq<char> {
    strip_comment_spec(trim(raw))
}

/// The body of a construct: from line `i`, the non-blank lines indented
/// deeper than `base` (blank lines are skipped), each trimmed and without its
/// comment; and the index of the first line after the body.
pub open spec fn body_scan(lines: Seq<Seq<char>>, i: int, base: nat) -> (Seq<Seq<char>>, int)
    decreases lines.len() - i,
{
    if i < 0 || i >= lines.len() {
        (Seq::empty(), i)
    } else if trim(lines[i]).len() == 0 {
        body_scan(lines, i + 1, base)
    } else if text::indent_of(lines[i]) <= base {
        (Seq::empty(), i)
    } else {
        let (rest, e) = body_scan(lines, i + 1, base);
        (seq![header_of(lines[i])] + rest, e)
    }
}

pub proof fn lemma_body_scan(lines: Seq<Seq<char>>, i: int, base: nat)
    requires
        0 <= i <= lines.len(),
    ensures
        i <= body_scan(lines, i, base).1 <= lines.len(),
    decreases lines.len() - i,
{
    if i < lines.len() {
        lemma_body_scan(lines, i + 1, base);
    }
}

/// Group header: the depth (`#` count), name, atoms and gates.
pub open spec fn group_header_spec(raw: Seq<char>) -> (u8, Seq<char>, Seq<(Seq<char>, Option<Seq<char>>)>, Seq<(Seq<char>, Option<Seq<char>>)>) {
    let stripped = header_of(raw);
    let depth = text::lead_count(stripped, text::char_pred('#')) as u8;
    let rest = trim(stripped.skip(depth as int));
    let (name, atoms) = line::name_and_atoms_spec(line::remove_gates_spec(rest));
    (depth, name, atoms, line::gates_spec(rest))
}

/// Task header: the marker, label, text (gates and `git:closes #N`
/// removed, trimmed), gates and closed issue.
pub open spec fn task_header_spec(raw: Seq<char>) -> Option<(TaskMarker, Option<Seq<char>>, Seq<char>, Seq<(Seq<char>, Option<Seq<char>>)>, Option<u32>)> {
    match line::task_marker_spec(header_of(raw)) {
        Some((marker, label, rest)) => {
            let (t, closes) = line::closes_spec(line::remove_gates_spec(rest));
            Some((marker, label, trim(t), line::gates_spec(rest), closes))
        },
        None => None,
    }
}

/// The lines of a source: tabs become four spaces, then the text is split
/// into lines.
pub open spec fn source_lines(source: Seq<char>) -> Seq<Seq<char>> {
    text::lines(text::expand_tabs(source))
}

/// Whether `e` is the error for a `sync:` declaration without a name on
/// line `l`.
pub open spec fn is_missing_sync_name(e: ParseError, l: int) -> bool {
    &&& e.code@ == "E_SYNC_MISSING_NAME"@
    &&& e.kind@ == "parse_error"@
    &&& e.message@ == "sync: declaration on line "@ + text::decimal(l as nat) + " has no name"@
    &&& e.context is None
    &&& e.line == l
    &&& e.col == 0
}

/// Whether `e` is the error for sync declaration `name` with the refused
/// class `class`.
pub open spec fn is_invalid_sync_class(e: ParseError, name: Seq<char>, class: Seq<char>) -> bool {
    &&& e.code@ == "E_SYNC_INVALID_CLASS"@
    &&& e.kind@ == "parse_error"@
    &&& e.message@ == "Invalid sync class '"@ + class + "' in sync declaration '"@ + name
        + "'; expected canon, ops, or data"@
    &&& e.context matches Some(c) && c@ == name
    &&& e.line == 0
    &&& e.col == 0
}

/// What parsing a source gives: the error for the first `sync:`
/// declaration without a name that reading its lines meets; else, of the
/// nodes of the block of all its lines (from indentation zero), the error
/// for the first sync declaration with a refused class; else a document
/// of those nodes, with the sub-groups of each `Sync` group turned into
/// sync declarations.
pub open spec fn parsed(source: Seq<char>, r: Result<Document, ParseError>) -> bool {
    let lv = source_lines(source);
    match crate::blocks::block_err(lv, 0, 0, 0) {
        Some(l) => r matches Err(e) && is_missing_sync_name(e, l),
        None => exists|raw: Seq<Node>|
            #![trigger crate::blocks::block_nodes(lv, 0, 0, 0, raw)]
            crate::blocks::block_nodes(lv, 0, 0, 0, raw) && match crate::canon::err_seq(raw) {
                Some(bad) => r matches Err(e) && is_invalid_sync_class(e, bad.0, bad.1),
                None => r matches Ok(d) && crate::canon::ok_seq(raw, d.nodes@),
            },
    }
}

fn missing_sync_name(l: usize) -> (e: ParseError)
    ensures
        is_missing_sync_name(e, l as int),
{
    let mut m: Vec<char> = Vec::new();
    text::append_str(&mut m, "sync: declaration on line ");
    text::append_decimal(&mut m, l);
    text::append_str(&mut m, " has no name");
    ParseError {
        code: text::to_string(&text::str_chars("E_SYNC_MISSING_NAME")),
        kind: text::to_string(&text::str_chars("parse_error")),
        message: text::to_string(&m),
        context: None,
        line: l,
        col: 0,
    }
}

/// Parses a source into its document (see `parsed`).
pub fn parse(source: &str) -> (r: Result<Document, ParseError>)
    ensures
        parsed(source@, r),
{
    let chars = text::str_chars(source);
    let normalized = text::expand_tabs_exec(&chars);
    let lines = text::lines_of(&normalized);
    let mut ctx = ParseCtx::new(lines);
    let nodes = ctx.parse_block(0, 0);
    match ctx.first_error {
        Some(l) => Err(missing_sync_name(l)),
        None => {
            let ghost raw = nodes@;
            match crate::canon::canon_nodes(nodes) {
                Ok(ns) => Ok(Document { nodes: ns }),
                Err((name, class)) => Err(invalid_sync_class(&name, &class)),
            }
        },
    }
}

fn invalid_sync_class(name: &String, class: &String) -> (e: ParseError)
    ensures
        is_invalid_sync_class(e, name@, class@),
{
    let mut m: Vec<char> = Vec::new();
    text::append_str(&mut m, "Invalid sync class '");
    text::append_string(&mut m, class);
    text::append_str(&mut m, "' in sync declaration '");
    text::append_string(&mut m, name);
    text::append_str(&mut m, "'; expected canon, ops, or data");
    ParseError {
        code: text::to_string(&text::str_chars("E_SYNC_INVALID_CLASS")),
        kind: text::to_string(&text::str_chars("parse_error")),
        message: text::to_string(&m),
        context: Some(name.clone()),
        line: 0,
        col: 0,
    }
}

/// The parser's position in the lines of the source.
pub struct ParseCtx {
    pub lines: Vec<Vec<char>>,
    pub pos: usize,
    /// The line of the first `sync:` declaration found without a name.
    pub first_error: Option<usize>,
}

impl ParseCtx {
    pub open spec fn wf(&self) -> bool {
        self.pos <= self.lines@.len()
    }

    pub open spec fn lv(&self) -> Seq<Seq<char>> {
        text::views(self.lines@)
    }

    pub fn new(lines: Vec<Vec<char>>) -> (r: Self)
        ensures
            r.wf(),
            r.pos == 0,
            r.lines@ == lines@,
            r.first_error is None,
    {
        ParseCtx { lines, pos: 0, first_error: None }
    }

    /// The current line.
    pub fn peek(&self) -> (r: Vec<char>)
        requires
            self.pos < self.lines@.len(),
        ensures
            r@ == self.lv()[self.pos as int],
    {
        self.lines[self.pos].clone()
    }

    /// Moves past the current line.
    pub fn advance(&mut self)
        requires
            old(self).pos < old(self).lines@.len(),
        ensures
            final(self).pos == old(self).pos + 1,
            final(self).lines == old(self).lines,
            final(self).first_error == old(self).first_error,
    {
        let _n = self.lines.len();
        self.pos = self.pos + 1;
    }

    /// 1-based number of the current line.
    pub fn current_line(&self) -> (r: usize)
        requires
            self.pos < self.lines@.len(),
        ensures
            r == self.pos + 1,
    {
        let _n = self.lines.len();
        self.pos + 1
    }

    /// Width of the leading whitespace of a line.
    pub fn indent_of(line: &Vec<char>) -> (r: usize)
        ensures
            r == text::indent_of(line@),
    {
        text::indent_bytes(line)
    }

    /// Reads the body lines of a construct whose header is indented `base`.
    pub fn body_lines(&mut self, base: usize) -> (r: Vec<Vec<char>>)
        requires
            old(self).wf(),
        ensures
            final(self).wf(),
            final(self).lines == old(self).lines,
            text::views(r@) == body_scan(old(self).lv(), old(self).pos as int, base as nat).0,
            final(self).pos == body_scan(old(self).lv(), old(self).pos as int, base as nat).1,
            final(self).first_error == old(self).first_error,
    {
        let ghost start = self.pos as int;
        let ghost lv = self.lv();
        let mut out: Vec<Vec<char>> = Vec::new();
        loop
            invariant
                self.wf(),
                self.lines == old(self).lines,
                lv == self.lv(),
                lv == old(self).lv(),
                self.first_error == old(self).first_error,
                start == old(self).pos as int,
                start <= self.pos,
                text::views(out@) + body_scan(lv, self.pos as int, base as nat).0 == body_scan(
                    lv,
                    start,
                    base as nat,
                ).0,
                body_scan(lv, self.pos as int, base as nat).1 == body_scan(lv, start, base as nat).1,
            decreases self.lines@.len() - self.pos,
        {
            if self.pos >= self.lines.len() {
                assert(body_scan(lv, self.pos as int, base as nat) == (
                    Seq::<Seq<char>>::empty(),
                    self.pos as int,
                ));
                assert(text::views(out@) + Seq::<Seq<char>>::empty() =~= text::views(out@));
                return out;
            }
            let raw = self.peek();
            let t = text::trim_chars(&raw);
            if t.len() == 0 {
                self.advance();
                continue;
            }
            if Self::indent_of(&raw) <= base {
                assert(body_scan(lv, self.pos as int, base as nat) == (
                    Seq::<Seq<char>>::empty(),
                    self.pos as int,
                ));
                assert(text::views(out@) + Seq::<Seq<char>>::empty() =~= text::views(out@));
                return out;
            }
            self.advance();
            let h = line::strip_comment(&t);
            proof {
                text::lemma_views_push(out@, h);
                assert(text::views(out@.push(h)) + body_scan(lv, self.pos as int, base as nat).0
                    =~= text::views(out@) + body_scan(lv, self.pos - 1, base as nat).0);
            }
            out.push(h);
        }
    }
}


// ── One-line constructs ─────────────────────────────────────────

/// `// text`: the comment text.
pub open spec fn comment_spec(trimmed: Seq<char>) -> Seq<char> {
    trim(text::trim_start_matches(trimmed, "//"@))
}

pub fn comment_node(trimmed: &Vec<char>) -> (r: Comment)
    ensures
        r.text@ == comment_spec(trimmed@),
{
    Comment { text: text::to_string(&text::trim_chars(&text::trim_start_matches_str(trimmed, "//"))) }
}

/// `delete:@Entity:id`: entity, id, mod scope and workspace scope.
pub open spec fn delete_spec(stripped: Seq<char>) -> (Seq<char>, Seq<char>, Option<Seq<char>>, Option<Seq<char>>) {
    let rest = text::trim_start_matches(stripped, "delete:"@);
    let (ms, ws, er) = line::entity_scope_spec(rest);
    match text::split_once(er, ":"@) {
        Some((e, id)) => (e, id, ms, ws),
        None => (er, Seq::empty(), ms, ws),
    }
}

pub fn delete_node(stripped: &Vec<char>) -> (r: Delete)
    ensures
        (r.entity@, r.id@, line::opt_str_view(r.mod_scope), line::opt_str_view(r.workspace_scope))
            == delete_spec(stripped@),
{
    let rest = text::trim_start_matches_str(stripped, "delete:");
    let (ms, ws, er) = line::extract_entity_scope(&rest);
    let (entity, id) = match text::split_once_str(&er, ":") {
        Some((e, i)) => (e, i),
        None => (er, Vec::new()),
    };
    Delete {
        entity: text::to_string(&entity),
        id: text::to_string(&id),
        mod_scope: opt_string(ms),
        workspace_scope: opt_string(ws),
    }
}

pub fn opt_string(v: Option<Vec<char>>) -> (r: Option<String>)
    ensures
        line::opt_str_view(r) == opt_view(v),
{
    match v {
        Some(x) => Some(text::to_string(&x)),
        None => None,
    }
}

/// `mod:method args`: name (the args), method and args.
pub open spec fn mod_invoke_spec(after: Seq<char>) -> (Seq<char>, Seq<char>, Option<Seq<char>>) {
    match text::find(after, " "@) {
        Some(i) => {
            let args = trim(after.skip(i + 1));
            (args, after.take(i), Some(args))
        },
        None => (Seq::empty(), after, None),
    }
}

pub fn mod_invoke_node(after: &Vec<char>) -> (r: ModInvoke)
    ensures
        r.method is Some,
        (r.name@, r.method->0@, line::opt_str_view(r.args)) == mod_invoke_spec(after@),
{
    match text::find_str(after, " ") {
        Some(i) => {
            proof {
                text::lemma_find_from(after@, " "@, 0);
                reveal_strlit(" ");
            }
            let al = after.len();
            let rest = text::slice_of(after, i + 1, al);
            assert(rest@ =~= after@.skip(i + 1));
            let args = text::trim_chars(&rest);
            ModInvoke {
                name: text::to_string(&args),
                method: Some(text::sub_string(after, 0, i)),
                args: Some(text::to_string(&args)),
            }
        },
        None => ModInvoke { name: String::new(), method: Some(text::to_string(after)), args: None },
    }
}

/// `keyword value`: the value, trimmed and without surrounding `"`.
pub open spec fn quoted_value_spec(stripped: Seq<char>, kw: Seq<char>) -> Seq<char> {
    text::trim_matches_char(trim(text::trim_start_matches(stripped, kw)), '"')
}

pub fn quoted_value(stripped: &Vec<char>, kw: &str) -> (r: Vec<char>)
    ensures
        r@ == quoted_value_spec(stripped@, kw@),
{
    text::trim_matches_char_exec(&text::trim_chars(&text::trim_start_matches_str(stripped, kw)), '"')
}

/// `keyword value`: the value, trimmed.
pub open spec fn plain_value_spec(stripped: Seq<char>, kw: Seq<char>) -> Seq<char> {
    trim(text::trim_start_matches(stripped, kw))
}

pub fn plain_value(stripped: &Vec<char>, kw: &str) -> (r: Vec<char>)
    ensures
        r@ == plain_value_spec(stripped@, kw@),
{
    text::trim_chars(&text::trim_start_matches_str(stripped, kw))
}

/// `diff:target from snap:version`.
pub open spec fn diff_spec(stripped: Seq<char>) -> (Seq<char>, Option<Seq<char>>) {
    let rest = plain_value_spec(stripped, "diff:"@);
    match text::find(rest, " from snap:"@) {
        Some(i) => (trim(rest.take(i)), Some(trim(rest.skip(i + 11)))),
        None => (rest, None),
    }
}

pub fn diff_node(stripped: &Vec<char>) -> (r: Diff)
    ensures
        (r.target@, line::opt_str_view(r.from_snapshot)) == diff_spec(stripped@),
{
    let rest = plain_value(stripped, "diff:");
    match text::find_str(&rest, " from snap:") {
        Some(i) => {
            proof {
                text::lemma_find_from(rest@, " from snap:"@, 0);
                reveal_strlit(" from snap:");
            }
            let rl = rest.len();
            let after = text::slice_of(&rest, i + 11, rl);
            assert(after@ =~= rest@.skip(i + 11));
            Diff {
                target: text::to_string(&text::trim_chars(&text::slice_of(&rest, 0, i))),
                from_snapshot: Some(text::to_string(&text::trim_chars(&after))),
            }
        },
        None => Diff { target: text::to_string(&rest), from_snapshot: None },
    }
}

/// `history:target limit:N`.
pub open spec fn history_spec(stripped: Seq<char>) -> (Seq<char>, Option<usize>) {
    let rest = plain_value_spec(stripped, "history:"@);
    match text::find(rest, "limit:"@) {
        Some(i) => (trim(rest.take(i)), text::parse_usize(trim(rest.skip(i + 6)))),
        None => (rest, None),
    }
}

pub fn history_node(stripped: &Vec<char>) -> (r: HistoryOp)
    ensures
        (r.target@, r.limit) == history_spec(stripped@),
{
    let rest = plain_value(stripped, "history:");
    match text::find_str(&rest, "limit:") {
        Some(i) => {
            proof {
                text::lemma_find_from(rest@, "limit:"@, 0);
                reveal_strlit("limit:");
            }
            let rl = rest.len();
            let after = text::slice_of(&rest, i + 6, rl);
            assert(after@ =~= rest@.skip(i + 6));
            HistoryOp {
                target: text::to_string(&text::trim_chars(&text::slice_of(&rest, 0, i))),
                limit: text::parse_usize_chars(&text::trim_chars(&after)),
            }
        },
        None => HistoryOp { target: text::to_string(&rest), limit: None },
    }
}

/// `status: a / b / c`: the options.
pub open spec fn status_spec(stripped: Seq<char>) -> Seq<Seq<char>> {
    text::split(plain_value_spec(stripped, "status:"@), "/"@).map_values(
        |o: Seq<char>| text::trim_matches_char(trim(o), '"'),
    )
}

pub fn status_node(stripped: &Vec<char>) -> (r: StatusDef)
    ensures
        text::str_views(r.options@) == status_spec(stripped@),
{
    let raw = plain_value(stripped, "status:");
    let parts = text::split_char(&raw, '/');
    proof {
        reveal_strlit("/");
        assert(seq!['/'] =~= "/"@);
    }
    let mut opts: Vec<String> = Vec::new();
    let mut i: usize = 0;
    while i < parts.len()
        invariant
            i <= parts.len(),
            text::str_views(opts@) == text::views(parts@).take(i as int).map_values(
                |o: Seq<char>| text::trim_matches_char(trim(o), '"'),
            ),
        decreases parts.len() - i,
    {
        let o = text::trim_matches_char_exec(&text::trim_chars(&parts[i]), '"');
        let so = text::to_string(&o);
        let ghost before = opts@;
        opts.push(so);
        proof {
            assert(text::str_views(opts@) =~= text::str_views(before).push(so@));
            assert(text::views(parts@).take(i + 1) =~= text::views(parts@).take(i as int).push(
                parts@[i as int]@,
            ));
        }
        i = i + 1;
        assert(text::str_views(opts@) =~= text::views(parts@).take(i as int).map_values(
            |o: Seq<char>| text::trim_matches_char(trim(o), '"'),
        ));
    }
    assert(text::views(parts@).take(parts.len() as int) =~= text::views(parts@));
    StatusDef { options: opts }
}

/// `routine: trigger |expr|`.
pub open spec fn routine_spec(stripped: Seq<char>) -> (Seq<char>, Seq<char>) {
    let rest = plain_value_spec(stripped, "routine:"@);
    match text::find(rest, "|"@) {
        Some(p) => (
            trim(text::trim_end_matches(rest.take(p), ":"@)),
            line::pipe_expr_spec(rest.skip(p)),
        ),
        None => (rest, Seq::empty()),
    }
}

pub fn routine_node(stripped: &Vec<char>) -> (r: Routine)
    ensures
        (r.trigger@, r.expr@) == routine_spec(stripped@),
{
    let rest = plain_value(stripped, "routine:");
    match text::find_str(&rest, "|") {
        Some(p) => {
            proof {
                text::lemma_find_from(rest@, "|"@, 0);
            }
            let head = text::slice_of(&rest, 0, p);
            let rl = rest.len();
            let tail = text::slice_of(&rest, p, rl);
            assert(tail@ =~= rest@.skip(p as int));
            Routine {
                trigger: text::to_string(&text::trim_chars(&text::trim_end_matches_str(&head, ":"))),
                expr: text::to_string(&line::extract_pipe_expr(&tail)),
            }
        },
        None => Routine { trigger: text::to_string(&rest), expr: String::new() },
    }
}

/// The prose node for a line: its trimmed text and the spans of its
/// comment-free text.
pub fn prose_node(trimmed: &Vec<char>, stripped: &Vec<char>) -> (r: Prose)
    ensures
        r.text@ == trimmed@,
        spans::inlines_view(r.inline@) == spans::parse_inline_spec(stripped@),
{
    Prose { text: text::to_string(trimmed), inline: spans::parse_inline(stripped) }
}


// ── Bodies of key-value lines ───────────────────────────────────

/// `key: value` pairs of body lines (lines without a colon are dropped).
pub open spec fn kv_pairs(lines: Seq<Seq<char>>) -> Seq<(Seq<char>, Seq<char>)>
    decreases lines.len(),
{
    if lines.len() == 0 {
        Seq::empty()
    } else {
        let rest = kv_pairs(lines.drop_last());
        match text::split_once(lines.last(), ":"@) {
            Some((k, v)) => rest.push((trim(k), trim(v))),
            None => rest,
        }
    }
}

pub open spec fn pair_view(p: (String, String)) -> (Seq<char>, Seq<char>) {
    (p.0@, p.1@)
}

pub open spec fn pairs_view(v: Seq<(String, String)>) -> Seq<(Seq<char>, Seq<char>)> {
    v.map_values(|p: (String, String)| pair_view(p))
}

pub fn kv_pairs_exec(lines: &Vec<Vec<char>>) -> (r: Vec<(String, String)>)
    ensures
        pairs_view(r@) == kv_pairs(text::views(lines@)),
{
    let mut out: Vec<(String, String)> = Vec::new();
    let mut i: usize = 0;
    while i < lines.len()
        invariant
            i <= lines.len(),
            pairs_view(out@) == kv_pairs(text::views(lines@).take(i as int)),
        decreases lines.len() - i,
    {
        proof {
            let ls = text::views(lines@);
            assert(ls.take(i + 1).drop_last() =~= ls.take(i as int));
            assert(ls.take(i + 1).last() == lines@[i as int]@);
        }
        match text::split_once_str(&lines[i], ":") {
            Some((k, v)) => {
                let p = (text::to_string(&text::trim_chars(&k)), text::to_string(&text::trim_chars(&v)));
                let ghost o = out@;
                out.push(p);
                assert(pairs_view(out@) =~= pairs_view(o).push(pair_view(p)));
            },
            None => {},
        }
        i = i + 1;
    }
    assert(text::views(lines@).take(lines.len() as int) =~= text::views(lines@));
    out
}

/// The field definitions among body lines.
pub open spec fn field_defs(lines: Seq<Seq<char>>) -> Seq<(Seq<char>, bool, line::FieldDefaultView)>
    decreases lines.len(),
{
    if lines.len() == 0 {
        Seq::empty()
    } else {
        let rest = field_defs(lines.drop_last());
        match line::field_def_spec(lines.last()) {
            Some(f) => rest.push(f),
            None => rest,
        }
    }
}

pub open spec fn fields_view(v: Seq<crate::types::FieldDef>) -> Seq<(Seq<char>, bool, line::FieldDefaultView)> {
    v.map_values(|f: crate::types::FieldDef| line::field_view(f))
}

pub fn field_defs_exec(lines: &Vec<Vec<char>>) -> (r: Vec<crate::types::FieldDef>)
    ensures
        fields_view(r@) == field_defs(text::views(lines@)),
{
    let mut out: Vec<crate::types::FieldDef> = Vec::new();
    let mut i: usize = 0;
    while i < lines.len()
        invariant
            i <= lines.len(),
            fields_view(out@) == field_defs(text::views(lines@).take(i as int)),
        decreases lines.len() - i,
    {
        proof {
            let ls = text::views(lines@);
            assert(ls.take(i + 1).drop_last() =~= ls.take(i as int));
            assert(ls.take(i + 1).last() == lines@[i as int]@);
        }
        match line::parse_field_def(&lines[i]) {
            Some(f) => {
                let ghost o = out@;
                out.push(f);
                assert(fields_view(out@) =~= fields_view(o).push(line::field_view(f)));
            },
            None => {},
        }
        i = i + 1;
    }
    assert(text::views(lines@).take(lines.len() as int) =~= text::views(lines@));
    out
}

/// Every edge of a list of flow lines, in order.
pub open spec fn all_edges(lines: Seq<Seq<char>>) -> Seq<line::EdgeView>
    decreases lines.len(),
{
    if lines.len() == 0 {
        Seq::empty()
    } else {
        all_edges(lines.drop_last()) + line::flow_edges_spec(lines.last())
    }
}

pub fn all_edges_exec(lines: &Vec<Vec<char>>) -> (r: Vec<crate::types::FlowEdge>)
    ensures
        line::edges_view(r@) == all_edges(text::views(lines@)),
{
    let mut out: Vec<crate::types::FlowEdge> = Vec::new();
    let mut i: usize = 0;
    while i < lines.len()
        invariant
            i <= lines.len(),
            line::edges_view(out@) == all_edges(text::views(lines@).take(i as int)),
        decreases lines.len() - i,
    {
        proof {
            let ls = text::views(lines@);
            assert(ls.take(i + 1).drop_last() =~= ls.take(i as int));
            assert(ls.take(i + 1).last() == lines@[i as int]@);
        }
        let mut es = line::parse_flow_edges(&lines[i]);
        let ghost o = out@;
        let ghost e0 = es@;
        out.append(&mut es);
        assert(line::edges_view(out@) =~= line::edges_view(o) + line::edges_view(e0));
        i = i + 1;
    }
    assert(text::views(lines@).take(lines.len() as int) =~= text::views(lines@));
    out
}


// ── Batch mutations ─────────────────────────────────────────────

/// `str::splitn(3, ':')`.
pub open spec fn splitn3(l: Seq<char>) -> Seq<Seq<char>> {
    match text::split_once(l, ":"@) {
        None => seq![l],
        Some((a, r)) => match text::split_once(r, ":"@) {
            None => seq![a, r],
            Some((b, c)) => seq![a, b, c],
        },
    }
}

pub fn splitn3_exec(l: &Vec<char>) -> (r: Vec<Vec<char>>)
    ensures
        text::views(r@) == splitn3(l@),
{
    let mut out: Vec<Vec<char>> = Vec::new();
    match text::split_once_str(l, ":") {
        None => {
            out.push(l.clone());
        },
        Some((a, r)) => match text::split_once_str(&r, ":") {
            None => {
                out.push(a);
                out.push(r);
            },
            Some((b, c)) => {
                out.push(a);
                out.push(b);
                out.push(c);
            },
        },
    }
    assert(text::views(out@) =~= splitn3(l@));
    out
}

pub open spec fn id_char(c: char) -> bool {
    spans::alnum(c) || c == '_' || c == '-'
}

/// Whether a line reads `id:field:value` with a bare identifier as id.
pub open spec fn is_batch_line(l: Seq<char>) -> bool {
    let parts = splitn3(l);
    parts.len() >= 3 && {
        let id = trim(parts[0]);
        &&& id.len() > 0
        &&& !text::contains(id, "\""@)
        &&& !text::contains(id, " "@)
        &&& forall|i: int| 0 <= i < id.len() ==> id_char(#[trigger] id[i])
    }
}

pub open spec fn is_batch_format_spec(lines: Seq<Seq<char>>) -> bool {
    exists|k: int| 0 <= k < lines.len() && is_batch_line(#[trigger] lines[k])
}

fn is_batch_line_exec(l: &Vec<char>) -> (b: bool)
    ensures
        b == is_batch_line(l@),
{
    let parts = splitn3_exec(l);
    if parts.len() < 3 {
        return false;
    }
    let id = text::trim_chars(&parts[0]);
    assert(text::views(parts@)[0] == parts@[0]@);
    if id.len() == 0 || text::contains_str(&id, "\"") || text::contains_str(&id, " ") {
        return false;
    }
    let mut i: usize = 0;
    while i < id.len()
        invariant
            i <= id.len(),
            splitn3(l@).len() >= 3,
            id@ == trim(splitn3(l@)[0]),
            forall|j: int| 0 <= j < i ==> id_char(#[trigger] id@[j]),
        decreases id.len() - i,
    {
        if !(spans::is_alphanumeric(id[i]) || id[i] == '_' || id[i] == '-') {
            assert(!id_char(id@[i as int]));
            return false;
        }
        i = i + 1;
    }
    true
}

pub fn is_batch_format(lines: &Vec<Vec<char>>) -> (b: bool)
    ensures
        b == is_batch_format_spec(text::views(lines@)),
{
    let mut k: usize = 0;
    while k < lines.len()
        invariant
            k <= lines.len(),
            forall|j: int| 0 <= j < k ==> !is_batch_line(#[trigger] text::views(lines@)[j]),
        decreases lines.len() - k,
    {
        assert(text::views(lines@)[k as int] == lines@[k as int]@);
        if is_batch_line_exec(&lines[k]) {
            return true;
        }
        k = k + 1;
    }
    false
}

/// Batch records with their text taken as character sequences.
pub open spec fn record_view(r: crate::types::BatchRecord) -> (Seq<char>, Seq<(Seq<char>, Seq<char>)>) {
    (r.id@, pairs_view(r.fields@))
}

pub open spec fn records_view(v: Seq<crate::types::BatchRecord>) -> Seq<(Seq<char>, Seq<(Seq<char>, Seq<char>)>)> {
    v.map_values(|r: crate::types::BatchRecord| record_view(r))
}

/// Index of the first record with the given id.
pub open spec fn record_index(recs: Seq<(Seq<char>, Seq<(Seq<char>, Seq<char>)>)>, id: Seq<char>, i: int) -> Option<int>
    decreases recs.len() - i,
{
    if i < 0 || i >= recs.len() {
        None
    } else if recs[i].0 == id {
        Some(i)
    } else {
        record_index(recs, id, i + 1)
    }
}

/// The records after one more batch line.
pub open spec fn batch_step(recs: Seq<(Seq<char>, Seq<(Seq<char>, Seq<char>)>)>, l: Seq<char>) -> Seq<(Seq<char>, Seq<(Seq<char>, Seq<char>)>)> {
    let parts = splitn3(l);
    if parts.len() >= 3 {
        let id = trim(parts[0]);
        let f = (trim(parts[1]), trim(parts[2]));
        match record_index(recs, id, 0) {
            Some(k) => recs.update(k, (recs[k].0, recs[k].1.push(f))),
            None => recs.push((id, seq![f])),
        }
    } else {
        match text::split_once(l, ":"@) {
            Some((k, v)) => if recs.len() > 0 {
                recs.update(recs.len() - 1, (recs.last().0, recs.last().1.push((trim(k), trim(v)))))
            } else {
                recs
            },
            None => recs,
        }
    }
}

pub open spec fn batch_records_spec(lines: Seq<Seq<char>>) -> Seq<(Seq<char>, Seq<(Seq<char>, Seq<char>)>)>
    decreases lines.len(),
{
    if lines.len() == 0 {
        Seq::empty()
    } else {
        batch_step(batch_records_spec(lines.drop_last()), lines.last())
    }
}

fn push_field(rec: &mut crate::types::BatchRecord, f: (String, String))
    ensures
        record_view(*final(rec)) == (record_view(*old(rec)).0, record_view(*old(rec)).1.push(pair_view(f))),
{
    let ghost o = rec.fields@;
    rec.fields.push(f);
    assert(pairs_view(rec.fields@) =~= pairs_view(o).push(pair_view(f)));
}

pub fn parse_batch_records(lines: &Vec<Vec<char>>) -> (r: Vec<crate::types::BatchRecord>)
    ensures
        records_view(r@) == batch_records_spec(text::views(lines@)),
{
    let mut recs: Vec<crate::types::BatchRecord> = Vec::new();
    let mut i: usize = 0;
    while i < lines.len()
        invariant
            i <= lines.len(),
            records_view(recs@) == batch_records_spec(text::views(lines@).take(i as int)),
        decreases lines.len() - i,
    {
        let l = &lines[i];
        proof {
            let ls = text::views(lines@);
            assert(ls.take(i + 1).drop_last() =~= ls.take(i as int));
            assert(ls.take(i + 1).last() == l@);
        }
        let ghost rv = records_view(recs@);
        let parts = splitn3_exec(l);
        if parts.len() >= 3 {
            proof {
                assert(text::views(parts@)[0] == parts@[0]@);
                assert(text::views(parts@)[1] == parts@[1]@);
                assert(text::views(parts@)[2] == parts@[2]@);
            }
            let id = text::trim_chars(&parts[0]);
            let f = (
                text::to_string(&text::trim_chars(&parts[1])),
                text::to_string(&text::trim_chars(&parts[2])),
            );
            let mut k: usize = 0;
            let mut found = false;
            while k < recs.len()
                invariant_except_break
                    !found,
                invariant
                    k <= recs.len(),
                    rv == records_view(recs@),
                    record_index(rv, id@, 0) == record_index(rv, id@, k as int),
                ensures
                    found ==> k < recs.len() && record_index(rv, id@, 0) == Some(k as int),
                    !found ==> record_index(rv, id@, 0) is None,
                    rv == records_view(recs@),
                decreases recs.len() - k,
            {
                assert(rv[k as int].0 == recs@[k as int].id@);
                let rid = text::string_chars(&recs[k].id);
                if text::eq(&rid, &id) {
                    found = true;
                    break;
                }
                k = k + 1;
            }
            if found {
                let ghost before = recs@;
                let mut rec = recs.remove(k);
                assert(rec == before[k as int]);
                push_field(&mut rec, f);
                recs.insert(k, rec);
                proof {
                    assert(recs@ =~= before.update(k as int, rec));
                    assert(records_view(recs@) =~= rv.update(
                        k as int,
                        (rv[k as int].0, rv[k as int].1.push(pair_view(f))),
                    ));
                }
            } else {
                let fields = vec![f];
                let rec = crate::types::BatchRecord { id: text::to_string(&id), fields };
                let ghost before = recs@;
                recs.push(rec);
                proof {
                    assert(pairs_view(fields@) =~= seq![pair_view(f)]);
                    assert(records_view(recs@) =~= rv.push((id@, seq![pair_view(f)])));
                }
            }
        } else {
            match text::split_once_str(l, ":") {
                Some((kk, vv)) => {
                    if recs.len() > 0 {
                        let last = recs.len() - 1;
                        let f = (
                            text::to_string(&text::trim_chars(&kk)),
                            text::to_string(&text::trim_chars(&vv)),
                        );
                        let ghost before = recs@;
                        let mut rec = recs.remove(last);
                        assert(rec == before[last as int]);
                        push_field(&mut rec, f);
                        recs.push(rec);
                        proof {
                            assert(recs@ =~= before.update(last as int, rec));
                            assert(records_view(recs@) =~= rv.update(
                                last as int,
                                (rv.last().0, rv.last().1.push(pair_view(f))),
                            ));
                        }
                    }
                },
                None => {},
            }
        }
        i = i + 1;
    }
    assert(text::views(lines@).take(lines.len() as int) =~= text::views(lines@));
    recs
}


// ── Queries ─────────────────────────────────────────────────────

/// A query with its text taken as character sequences.
pub struct QueryView {
    pub entity: Seq<char>,
    pub plural: bool,
    pub filter: Option<Seq<char>>,
    pub sort: Option<Seq<char>>,
    pub limit: Option<usize>,
    pub includes: Option<Seq<Seq<char>>>,
    pub mod_scope: Option<Seq<char>>,
    pub workspace_scope: Option<Seq<char>>,
    pub from_snapshot: Option<Seq<char>>,
}

pub open spec fn opt_strs_view(o: Option<Vec<String>>) -> Option<Seq<Seq<char>>> {
    match o {
        Some(v) => Some(text::str_views(v@)),
        None => None,
    }
}

pub open spec fn query_view(q: crate::types::Query) -> QueryView {
    QueryView {
        entity: q.entity@,
        plural: q.plural,
        filter: line::opt_str_view(q.filter),
        sort: line::opt_str_view(q.sort),
        limit: q.limit,
        includes: opt_strs_view(q.includes),
        mod_scope: line::opt_str_view(q.mod_scope),
        workspace_scope: line::opt_str_view(q.workspace_scope),
        from_snapshot: line::opt_str_view(q.from_snapshot),
    }
}

/// The first query line with any `from snap:version` taken out, and the
/// version.
pub open spec fn snap_split(first: Seq<char>) -> (Seq<char>, Option<Seq<char>>) {
    match text::find(first, " from snap:"@) {
        Some(si) => {
            let sv = trim(first.skip(si + 11));
            match text::find(sv, " where "@) {
                Some(wp) => (first.take(si) + " where "@ + sv.skip(wp + 7), Some(trim(sv.take(wp)))),
                None => (first.take(si), Some(sv)),
            }
        },
        None => (first, None),
    }
}

/// `sort:`, `limit:` and `include:` lines after the first.
pub open spec fn query_options(lines: Seq<Seq<char>>) -> (Option<Seq<char>>, Option<usize>, Option<Seq<Seq<char>>>)
    decreases lines.len(),
{
    if lines.len() == 0 {
        (None, None, None)
    } else {
        let (sort, limit, inc) = query_options(lines.drop_last());
        let t = trim(lines.last());
        if starts_with(t, "sort:"@) {
            (Some(trim(t.skip(5))), limit, inc)
        } else if starts_with(t, "limit:"@) {
            (sort, text::parse_usize(trim(t.skip(6))), inc)
        } else if starts_with(t, "include:"@) {
            (sort, limit, Some(text::split(t.skip(8), ","@).map_values(|x: Seq<char>| trim(x))))
        } else {
            (sort, limit, inc)
        }
    }
}

/// The query that a block's lines describe.
pub open spec fn query_spec(lines: Seq<Seq<char>>) -> Option<QueryView> {
    if lines.len() == 0 {
        None
    } else {
        let (pre, from_snapshot) = snap_split(lines[0]);
        let (ms, ws, scoped) = line::entity_scope_spec(trim(pre));
        let (entity_part, filter) = match text::find(scoped, " where "@) {
            Some(wp) => (scoped.take(wp), Some(scoped.skip(wp + 7))),
            None => (scoped, None),
        };
        let (entity, plural) = if text::contains(entity_part, "(s)"@) {
            (trim(text::replace(entity_part, "(s)"@, Seq::empty())), true)
        } else {
            (trim(entity_part), false)
        };
        let (sort, limit, includes) = query_options(lines.skip(1));
        Some(
            QueryView {
                entity,
                plural,
                filter,
                sort,
                limit,
                includes,
                mod_scope: ms,
                workspace_scope: ws,
                from_snapshot,
            },
        )
    }
}

fn snap_split_exec(first: &Vec<char>) -> (r: (Vec<char>, Option<Vec<char>>))
    ensures
        (r.0@, opt_view(r.1)) == snap_split(first@),
{
    proof {
        reveal_strlit(" from snap:");
        reveal_strlit(" where ");
    }
    match text::find_str(first, " from snap:") {
        Some(si) => {
            proof {
                text::lemma_find_from(first@, " from snap:"@, 0);
            }
            let fl = first.len();
            let after = text::slice_of(first, si + 11, fl);
            assert(after@ =~= first@.skip(si + 11));
            let sv = text::trim_chars(&after);
            match text::find_str(&sv, " where ") {
                Some(wp) => {
                    proof {
                        text::lemma_find_from(sv@, " where "@, 0);
                    }
                    let mut pre = text::slice_of(first, 0, si);
                    text::append_str(&mut pre, " where ");
                    let svl = sv.len();
                    let tail = text::slice_of(&sv, wp + 7, svl);
                    assert(tail@ =~= sv@.skip(wp + 7));
                    text::append(&mut pre, &tail);
                    (pre, Some(text::trim_chars(&text::slice_of(&sv, 0, wp))))
                },
                None => (text::slice_of(first, 0, si), Some(sv)),
            }
        },
        None => (first.clone(), None),
    }
}

fn query_options_exec(lines: &Vec<Vec<char>>) -> (r: (Option<String>, Option<usize>, Option<Vec<String>>))
    ensures
        (line::opt_str_view(r.0), r.1, opt_strs_view(r.2)) == query_options(text::views(lines@)),
{
    let mut sort: Option<String> = None;
    let mut limit: Option<usize> = None;
    let mut inc: Option<Vec<String>> = None;
    let mut i: usize = 0;
    proof {
        reveal_strlit("sort:");
        reveal_strlit("limit:");
        reveal_strlit("include:");
    }
    while i < lines.len()
        invariant
            i <= lines.len(),
            (line::opt_str_view(sort), limit, opt_strs_view(inc)) == query_options(
                text::views(lines@).take(i as int),
            ),
        decreases lines.len() - i,
    {
        proof {
            let ls = text::views(lines@);
            assert(ls.take(i + 1).drop_last() =~= ls.take(i as int));
            assert(ls.take(i + 1).last() == lines@[i as int]@);
        }
        let t = text::trim_chars(&lines[i]);
        let tl = t.len();
        proof {
            reveal_strlit("sort:");
            reveal_strlit("limit:");
            reveal_strlit("include:");
        }
        if text::starts_with_str(&t, "sort:") {
            let rest = text::slice_of(&t, 5, tl);
            assert(rest@ =~= t@.skip(5));
            sort = Some(text::to_string(&text::trim_chars(&rest)));
        } else if text::starts_with_str(&t, "limit:") {
            let rest = text::slice_of(&t, 6, tl);
            assert(rest@ =~= t@.skip(6));
            limit = text::parse_usize_chars(&text::trim_chars(&rest));
        } else if text::starts_with_str(&t, "include:") {
            let rest = text::slice_of(&t, 8, tl);
            assert(rest@ =~= t@.skip(8));
            let parts = text::split_char(&rest, ',');
            proof {
                reveal_strlit(",");
                assert(seq![','] =~= ","@);
            }
            let mut items: Vec<String> = Vec::new();
            let mut k: usize = 0;
            while k < parts.len()
                invariant
                    k <= parts.len(),
                    text::str_views(items@) == text::views(parts@).take(k as int).map_values(
                        |x: Seq<char>| trim(x),
                    ),
                decreases parts.len() - k,
            {
                let s = text::to_string(&text::trim_chars(&parts[k]));
                let ghost o = items@;
                items.push(s);
                proof {
                    assert(text::str_views(items@) =~= text::str_views(o).push(s@));
                    assert(text::views(parts@).take(k + 1) =~= text::views(parts@).take(
                        k as int,
                    ).push(parts@[k as int]@));
                }
                k = k + 1;
                assert(text::str_views(items@) =~= text::views(parts@).take(k as int).map_values(
                    |x: Seq<char>| trim(x),
                ));
            }
            assert(text::views(parts@).take(parts.len() as int) =~= text::views(parts@));
            inc = Some(items);
        }
        i = i + 1;
    }
    assert(text::views(lines@).take(lines.len() as int) =~= text::views(lines@));
    (sort, limit, inc)
}

pub fn parse_query_from_lines(lines: &Vec<Vec<char>>) -> (r: Option<crate::types::Query>)
    ensures
        r matches Some(q) ==> query_spec(text::views(lines@)) == Some(query_view(q)),
        r is None ==> query_spec(text::views(lines@)) is None,
{
    if lines.len() == 0 {
        return None;
    }
    proof {
        reveal_strlit(" where ");
        reveal_strlit("(s)");
        reveal_strlit("");
        assert(text::views(lines@)[0] == lines@[0]@);
    }
    let (pre, from_snapshot) = snap_split_exec(&lines[0]);
    let (ms, ws, scoped) = line::extract_entity_scope(&text::trim_chars(&pre));
    let (entity_part, filter) = match text::find_str(&scoped, " where ") {
        Some(wp) => {
            proof {
                text::lemma_find_from(scoped@, " where "@, 0);
            }
            let sl = scoped.len();
            let f = text::slice_of(&scoped, wp + 7, sl);
            assert(f@ =~= scoped@.skip(wp + 7));
            (text::slice_of(&scoped, 0, wp), Some(f))
        },
        None => (scoped, None),
    };
    let (entity, plural) = if text::contains_str(&entity_part, "(s)") {
        (text::trim_chars(&text::replace_str(&entity_part, "(s)", "")), true)
    } else {
        (text::trim_chars(&entity_part), false)
    };
    assert(""@ =~= Seq::<char>::empty());
    let mut rest: Vec<Vec<char>> = Vec::new();
    let mut i: usize = 1;
    while i < lines.len()
        invariant
            1 <= i <= lines.len(),
            text::views(rest@) == text::views(lines@).subrange(1, i as int),
        decreases lines.len() - i,
    {
        let l = lines[i].clone();
        proof {
            text::lemma_views_push(rest@, l);
        }
        rest.push(l);
        i = i + 1;
        assert(text::views(rest@) =~= text::views(lines@).subrange(1, i as int));
    }
    assert(text::views(lines@).subrange(1, lines.len() as int) =~= text::views(lines@).skip(1));
    let (sort, limit, includes) = query_options_exec(&rest);
    Some(
        crate::types::Query {
            entity: text::to_string(&entity),
            plural,
            filter: opt_string(filter),
            sort,
            limit,
            includes,
            mod_scope: opt_string(ms),
            workspace_scope: opt_string(ws),
            from_snapshot: opt_string(from_snapshot),
        },
    )
}


// ── Task bodies ─────────────────────────────────────────────────

/// Which pressure field a child line sets (`depends:`, `validate:`,
/// `status:` with a value), and the value.
pub open spec fn task_field(n: Node) -> Option<(int, Seq<char>)> {
    match n {
        Node::Prose(p) => match text::split_once(trim(p.text@), ":"@) {
            Some((k, v)) => {
                let key = trim(k);
                let val = trim(v);
                if key == "depends"@ && val.len() > 0 {
                    Some((0, val))
                } else if key == "validate"@ && val.len() > 0 {
                    Some((1, val))
                } else if key == "status"@ && val.len() > 0 {
                    Some((2, val))
                } else {
                    None
                }
            },
            None => None,
        },
        _ => None,
    }
}

/// The children without their field lines, and the last `depends`,
/// `validate` and `status` values.
pub open spec fn task_fields_spec(nodes: Seq<Node>) -> (Seq<Node>, Option<Seq<char>>, Option<Seq<char>>, Option<Seq<char>>)
    decreases nodes.len(),
{
    if nodes.len() == 0 {
        (Seq::empty(), None, None, None)
    } else {
        let (rest, d, v, s) = task_fields_spec(nodes.drop_last());
        match task_field(nodes.last()) {
            Some((k, x)) => if k == 0 {
                (rest, Some(x), v, s)
            } else if k == 1 {
                (rest, d, Some(x), s)
            } else {
                (rest, d, v, Some(x))
            },
            None => (rest.push(nodes.last()), d, v, s),
        }
    }
}

fn task_field_exec(n: &Node) -> (r: Option<(u8, Vec<char>)>)
    ensures
        r matches Some((k, x)) ==> task_field(*n) == Some((k as int, x@)),
        r is None ==> task_field(*n) is None,
{
    match n {
        Node::Prose(p) => {
            let t = text::trim_chars(&text::string_chars(&p.text));
            match text::split_once_str(&t, ":") {
                Some((k, v)) => {
                    let key = text::trim_chars(&k);
                    let val = text::trim_chars(&v);
                    if text::eq_str(&key, "depends") && val.len() > 0 {
                        Some((0, val))
                    } else if text::eq_str(&key, "validate") && val.len() > 0 {
                        Some((1, val))
                    } else if text::eq_str(&key, "status") && val.len() > 0 {
                        Some((2, val))
                    } else {
                        None
                    }
                },
                None => None,
            }
        },
        _ => None,
    }
}

pub fn extract_task_fields(children: Vec<Node>) -> (r: (Vec<Node>, Option<String>, Option<String>, Option<String>))
    ensures
        (r.0@, line::opt_str_view(r.1), line::opt_str_view(r.2), line::opt_str_view(r.3))
            == task_fields_spec(children@),
{
    let ghost orig = children@;
    let mut todo = children;
    let mut remaining: Vec<Node> = Vec::new();
    let mut depends: Option<String> = None;
    let mut validate: Option<String> = None;
    let mut status: Option<String> = None;
    while todo.len() > 0
        invariant
            orig == orig.take(orig.len() - todo@.len()) + todo@,
            todo@.len() <= orig.len(),
            (remaining@, line::opt_str_view(depends), line::opt_str_view(validate),
                line::opt_str_view(status)) == task_fields_spec(
                orig.take(orig.len() - todo@.len()),
            ),
        decreases todo@.len(),
    {
        let ghost done = orig.take(orig.len() - todo@.len());
        let node = todo.remove(0);
        proof {
            let d2 = orig.take(orig.len() - todo@.len());
            assert(d2 =~= done.push(node));
            assert(d2.drop_last() =~= done);
            assert(orig =~= d2 + todo@);
        }
        match task_field_exec(&node) {
            Some((k, x)) => {
                if k == 0 {
                    depends = Some(text::to_string(&x));
                } else if k == 1 {
                    validate = Some(text::to_string(&x));
                } else {
                    status = Some(text::to_string(&x));
                }
            },
            None => {
                remaining.push(node);
            },
        }
    }
    assert(orig.take(orig.len() as int) =~= orig);
    (remaining, depends, validate, status)
}

/// The section that a child line opens: 1 `on_pass:`, 2 `on_fail:`,
/// 3 `match:`, 0 none.
pub open spec fn section_kw(n: Node) -> int {
    match n {
        Node::Prose(p) => if p.text@ == "on_pass:"@ || p.text@ == "on pass:"@ {
            1
        } else if p.text@ == "on_fail:"@ || p.text@ == "on fail:"@ {
            2
        } else if p.text@ == "match:"@ {
            3
        } else {
            0
        },
        _ => 0,
    }
}

/// State of the task-children partition.
pub struct PartState {
    pub regular: Seq<Node>,
    pub pass: Seq<Node>,
    pub fail: Seq<Node>,
    pub arms: Seq<(Seq<char>, Seq<Node>)>,
    pub section: int,
    pub pattern: Option<Seq<char>>,
    pub arm_children: Seq<Node>,
}

/// The open match arm closed off, if there is one.
pub open spec fn close_arm(st: PartState) -> PartState {
    match st.pattern {
        Some(p) => PartState {
            arms: st.arms.push((p, st.arm_children)),
            pattern: None,
            arm_children: Seq::empty(),
            ..st
        },
        None => st,
    }
}

/// Whether a child line opens a match arm (`pattern:` with no space).
pub open spec fn arm_pattern(n: Node) -> Option<Seq<char>> {
    match n {
        Node::Prose(p) => if text::ends_with(p.text@, ":"@) && !text::contains(p.text@, " "@) {
            Some(text::trim_end_matches(p.text@, ":"@))
        } else {
            None
        },
        _ => None,
    }
}

pub open spec fn part_step(st: PartState, n: Node) -> PartState {
    let kw = section_kw(n);
    if kw != 0 {
        let s2 = if st.section == 3 {
            close_arm(st)
        } else {
            st
        };
        PartState { section: kw, ..s2 }
    } else if st.section == 1 {
        PartState { pass: st.pass.push(n), ..st }
    } else if st.section == 2 {
        PartState { fail: st.fail.push(n), ..st }
    } else if st.section == 3 {
        match arm_pattern(n) {
            Some(p) => PartState { pattern: Some(p), ..close_arm(st) },
            None => PartState { arm_children: st.arm_children.push(n), ..st },
        }
    } else {
        PartState { regular: st.regular.push(n), ..st }
    }
}

pub open spec fn part_scan(nodes: Seq<Node>) -> PartState
    decreases nodes.len(),
{
    if nodes.len() == 0 {
        PartState {
            regular: Seq::empty(),
            pass: Seq::empty(),
            fail: Seq::empty(),
            arms: Seq::empty(),
            section: 0,
            pattern: None,
            arm_children: Seq::empty(),
        }
    } else {
        part_step(part_scan(nodes.drop_last()), nodes.last())
    }
}

/// Regular children, `on_pass` nodes, `on_fail` nodes and match arms
/// (each present only when not empty).
pub open spec fn partition_spec(nodes: Seq<Node>) -> (Seq<Node>, Option<Seq<Node>>, Option<Seq<Node>>, Option<Seq<(Seq<char>, Seq<Node>)>>) {
    let st0 = part_scan(nodes);
    let st = if st0.section == 3 {
        close_arm(st0)
    } else {
        st0
    };
    (
        st.regular,
        if st.pass.len() > 0 {
            Some(st.pass)
        } else {
            None
        },
        if st.fail.len() > 0 {
            Some(st.fail)
        } else {
            None
        },
        if st.arms.len() > 0 {
            Some(st.arms)
        } else {
            None
        },
    )
}

pub open spec fn arm_view(a: MatchArm) -> (Seq<char>, Seq<Node>) {
    (a.pattern@, a.children@)
}

pub open spec fn arms_view(v: Seq<MatchArm>) -> Seq<(Seq<char>, Seq<Node>)> {
    v.map_values(|a: MatchArm| arm_view(a))
}

pub open spec fn opt_nodes(o: Option<Vec<Node>>) -> Option<Seq<Node>> {
    match o {
        Some(v) => Some(v@),
        None => None,
    }
}

pub open spec fn opt_arms(o: Option<Vec<MatchArm>>) -> Option<Seq<(Seq<char>, Seq<Node>)>> {
    match o {
        Some(v) => Some(arms_view(v@)),
        None => None,
    }
}

fn section_kw_exec(n: &Node) -> (r: u8)
    ensures
        r as int == section_kw(*n),
{
    match n {
        Node::Prose(p) => {
            let t = text::string_chars(&p.text);
            if text::eq_str(&t, "on_pass:") || text::eq_str(&t, "on pass:") {
                1
            } else if text::eq_str(&t, "on_fail:") || text::eq_str(&t, "on fail:") {
                2
            } else if text::eq_str(&t, "match:") {
                3
            } else {
                0
            }
        },
        _ => 0,
    }
}

fn arm_pattern_exec(n: &Node) -> (r: Option<Vec<char>>)
    ensures
        opt_view(r) == arm_pattern(*n),
{
    match n {
        Node::Prose(p) => {
            let t = text::string_chars(&p.text);
            if text::ends_with_str(&t, ":") && !text::contains_str(&t, " ") {
                Some(text::trim_end_matches_str(&t, ":"))
            } else {
                None
            }
        },
        _ => None,
    }
}

pub fn partition_task_children(children: Vec<Node>) -> (r: (
    Vec<Node>,
    Option<Vec<Node>>,
    Option<Vec<Node>>,
    Option<Vec<MatchArm>>,
))
    ensures
        (r.0@, opt_nodes(r.1), opt_nodes(r.2), opt_arms(r.3)) == partition_spec(children@),
{
    let ghost orig = children@;
    let mut todo = children;
    let mut regular: Vec<Node> = Vec::new();
    let mut pass: Vec<Node> = Vec::new();
    let mut fail: Vec<Node> = Vec::new();
    let mut arms: Vec<MatchArm> = Vec::new();
    let mut section: u8 = 0;
    let mut pattern: Option<Vec<char>> = None;
    let mut arm_children: Vec<Node> = Vec::new();
    while todo.len() > 0
        invariant
            orig == orig.take(orig.len() - todo@.len()) + todo@,
            todo@.len() <= orig.len(),
            ({
                let st = part_scan(orig.take(orig.len() - todo@.len()));
                &&& st.regular == regular@
                &&& st.pass == pass@
                &&& st.fail == fail@
                &&& st.arms == arms_view(arms@)
                &&& st.section == section as int
                &&& st.pattern == opt_view(pattern)
                &&& st.arm_children == arm_children@
            }),
        decreases todo@.len(),
    {
        let ghost done = orig.take(orig.len() - todo@.len());
        let node = todo.remove(0);
        proof {
            let d2 = orig.take(orig.len() - todo@.len());
            assert(d2 =~= done.push(node));
            assert(d2.drop_last() =~= done);
            assert(orig =~= d2 + todo@);
        }
        let kw = section_kw_exec(&node);
        if kw != 0 {
            if section == 3 {
                if let Some(p) = pattern {
                    let ghost a0 = arms@;
                    let arm = MatchArm { pattern: text::to_string(&p), children: arm_children };
                    arms.push(arm);
                    assert(arms_view(arms@) =~= arms_view(a0).push(arm_view(arm)));
                    arm_children = Vec::new();
                    pattern = None;
                }
            }
            section = kw;
        } else if section == 1 {
            pass.push(node);
        } else if section == 2 {
            fail.push(node);
        } else if section == 3 {
            match arm_pattern_exec(&node) {
                Some(np) => {
                    if let Some(p) = pattern {
                        let ghost a0 = arms@;
                        let arm = MatchArm { pattern: text::to_string(&p), children: arm_children };
                        arms.push(arm);
                        assert(arms_view(arms@) =~= arms_view(a0).push(arm_view(arm)));
                        arm_children = Vec::new();
                    }
                    pattern = Some(np);
                },
                None => {
                    arm_children.push(node);
                },
            }
        } else {
            regular.push(node);
        }
    }
    assert(orig.take(orig.len() as int) =~= orig);
    if section == 3 {
        if let Some(p) = pattern {
            let ghost a0 = arms@;
            let arm = MatchArm { pattern: text::to_string(&p), children: arm_children };
            arms.push(arm);
            assert(arms_view(arms@) =~= arms_view(a0).push(arm_view(arm)));
        }
    }
    let on_pass = if pass.len() > 0 { Some(pass) } else { None };
    let on_fail = if fail.len() > 0 { Some(fail) } else { None };
    let match_arms = if arms.len() > 0 { Some(arms) } else { None };
    (regular, on_pass, on_fail, match_arms)
}

} // verus!
