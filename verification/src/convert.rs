//! Converters between Markdown, JSON values and documents.
use crate::line;
use crate::text;
use crate::text::{starts_with, trim, trim_start};
use crate::types::{
    CodeBlock, Define, Document, FieldDef, FieldDefault, Group, Node, Priority, Prose, Task,
    TaskKind, TaskMarker, TaskPrefix,
};
use serde_json::Value as SerdeJson;
use vstd::prelude::*;

verus! {

/// Why a conversion failed.
#[derive(Debug)]
pub enum ConvertError {
    InvalidJson(String),
    InvalidMarkdown(String),
    SerializeError(String),
}

impl ConvertError {
    /// The message of the error, with the kind of conversion that failed.
    pub fn to_string(&self) -> (r: String)
        ensures
            r@ == match self {
                ConvertError::InvalidJson(m) => "JSON conversion error: "@ + m@,
                ConvertError::InvalidMarkdown(m) => "Markdown conversion error: "@ + m@,
                ConvertError::SerializeError(m) => "Serialization error: "@ + m@,
            },
    {
        let (head, m) = match self {
            ConvertError::InvalidJson(m) => ("JSON conversion error: ", m),
            ConvertError::InvalidMarkdown(m) => ("Markdown conversion error: ", m),
            ConvertError::SerializeError(m) => ("Serialization error: ", m),
        };
        let mut out = text::str_chars(head);
        text::append_string(&mut out, m);
        text::to_string(&out)
    }
}

// ── Markdown ───────────────────────────────────────────────────

/// What a Markdown line becomes.
pub enum MdItem {
    Heading(u8, Seq<char>),
    Task(TaskKind, Seq<char>),
    Code(Option<Seq<char>>, Seq<char>),
    Paragraph(Seq<char>),
}

/// The lines of a fenced block from line `i` up to the closing fence (its
/// index, or the number of lines when there is none).
pub open spec fn md_fence(lines: Seq<Seq<char>>, i: int) -> (Seq<Seq<char>>, int)
    decreases lines.len() - i,
{
    if i < 0 || i >= lines.len() {
        (Seq::empty(), lines.len() as int)
    } else if starts_with(trim_start(lines[i]), "```"@) {
        (Seq::empty(), i)
    } else {
        let (r, e) = md_fence(lines, i + 1);
        (seq![lines[i]] + r, e)
    }
}

/// A line that ends a paragraph.
pub open spec fn para_break(l: Seq<char>) -> bool {
    let t = trim(l);
    t.len() == 0 || starts_with(t, "#"@) || starts_with(t, "- "@) || starts_with(t, "```"@)
}

/// The lines of a paragraph from line `i` (trimmed), and the index after it.
pub open spec fn md_para(lines: Seq<Seq<char>>, i: int) -> (Seq<Seq<char>>, int)
    decreases lines.len() - i,
{
    if i < 0 || i >= lines.len() || para_break(lines[i]) {
        (Seq::empty(), i)
    } else {
        let (r, e) = md_para(lines, i + 1);
        (seq![trim(lines[i])] + r, e)
    }
}

/// Number of `#` that a heading line starts with.
pub open spec fn hashes(l: Seq<char>) -> nat {
    text::lead_count(l, text::char_pred('#'))
}

pub open spec fn is_heading(l: Seq<char>) -> bool {
    starts_with(l, "#"@) && 1 <= hashes(l) <= 6 && trim(l.skip(hashes(l) as int)).len() > 0
}

/// The task that a list line gives, if it is one.
pub open spec fn md_task(l: Seq<char>) -> Option<(TaskKind, Seq<char>)> {
    let t = trim_start(l);
    if starts_with(t, "- [ ] "@) {
        Some((TaskKind::Required, t.skip(6)))
    } else if starts_with(t, "- [x] "@) || starts_with(t, "- [X] "@) {
        Some((TaskKind::Completed, t.skip(6)))
    } else if starts_with(t, "- "@) {
        Some((TaskKind::Required, t.skip(2)))
    } else {
        None
    }
}

/// The items of a Markdown text from line `i`. A paragraph starts at any
/// line that is nothing else (a `#` line that is no heading too) and runs
/// up to the next blank, `#`, `- ` or fence line. The result is always
/// `Some` (see `lemma_md_scan_total`).
pub open spec fn md_scan(lines: Seq<Seq<char>>, i: int) -> Option<Seq<MdItem>>
    decreases lines.len() - i, 0int,
{
    if i < 0 || i >= lines.len() {
        Some(Seq::empty())
    } else {
        let l = lines[i];
        if starts_with(trim_start(l), "```"@) {
            let lang = text::trim_start_matches(trim_start(l), "`"@);
            let (body, e) = md_fence(lines, i + 1);
            let next = if e < lines.len() {
                e + 1
            } else {
                e
            };
            let item = MdItem::Code(if lang.len() == 0 {
                None
            } else {
                Some(lang)
            }, text::join(body, "\n"@));
            if next <= i || next > lines.len() {
                None
            } else {
                match md_scan(lines, next) {
                    Some(rest) => Some(seq![item] + rest),
                    None => None,
                }
            }
        } else if is_heading(l) {
            match md_scan(lines, i + 1) {
                Some(rest) => Some(
                    seq![MdItem::Heading(hashes(l) as u8, trim(l.skip(hashes(l) as int)))] + rest,
                ),
                None => None,
            }
        } else if md_task(l) is Some {
            match md_scan(lines, i + 1) {
                Some(rest) => match md_task(l) {
                    Some((k, t)) => Some(seq![MdItem::Task(k, t)] + rest),
                    None => None,
                },
                None => None,
            }
        } else if trim_start(l).len() == 0 {
            md_scan(lines, i + 1)
        } else {
            let (ps, e) = md_para(lines, i + 1);
            if e <= i || e > lines.len() {
                None
            } else {
                match md_scan(lines, e) {
                    Some(rest) => Some(seq![MdItem::Paragraph(text::join(seq![trim(l)] + ps, " "@))] + rest),
                    None => None,
                }
            }
        }
    }
}

/// A task node with the given kind and text, and nothing else set.
pub open spec fn plain_task(t: Task, kind: TaskKind, txt: Seq<char>) -> bool {
    &&& t.marker == TaskMarker {
        kind,
        priority: Priority::Unset,
        prefix: TaskPrefix::Unset,
        seq: None,
    }
    &&& t.label is None
    &&& t.text@ == txt
    &&& t.inline@.len() == 0
    &&& t.gates@.len() == 0
    &&& t.children@.len() == 0
    &&& t.on_pass is None
    &&& t.on_fail is None
    &&& t.match_arms is None
    &&& t.closes is None
    &&& t.depends is None
    &&& t.validate is None
    &&& t.status is None
}

/// Whether a node is the one a Markdown item becomes.
pub open spec fn md_node(n: Node, item: MdItem) -> bool {
    match item {
        MdItem::Heading(d, name) => n matches Node::Group(g) && g.depth == d && g.name@ == name
            && g.atoms@.len() == 0 && g.gates@.len() == 0 && g.children@.len() == 0,
        MdItem::Task(k, txt) => n matches Node::Task(t) && plain_task(t, k, txt),
        MdItem::Code(lang, content) => n matches Node::CodeBlock(c) && line::opt_str_view(c.lang)
            == lang && c.content@ == content,
        MdItem::Paragraph(txt) => n matches Node::Prose(p) && p.text@ == txt && p.inline@.len()
            == 0,
    }
}

pub open spec fn md_nodes(ns: Seq<Node>, items: Seq<MdItem>) -> bool {
    ns.len() == items.len() && forall|k: int| 0 <= k < ns.len() ==> #[trigger] md_node(ns[k], items[k])
}

/// A task with the given kind and text.
pub fn make_task(kind: TaskKind, txt: &Vec<char>) -> (r: Node)
    ensures
        r matches Node::Task(t) && plain_task(t, kind, txt@),
{
    Node::Task(
        Task {
            marker: TaskMarker {
                kind,
                priority: Priority::Unset,
                prefix: TaskPrefix::Unset,
                seq: None,
            },
            label: None,
            text: text::to_string(txt),
            inline: Vec::new(),
            gates: Vec::new(),
            children: Vec::new(),
            on_pass: None,
            on_fail: None,
            match_arms: None,
            closes: None,
            depends: None,
            validate: None,
            status: None,
        },
    )
}

fn md_task_exec(l: &Vec<char>) -> (r: Option<(TaskKind, Vec<char>)>)
    ensures
        r matches Some((k, t)) ==> md_task(l@) == Some((k, t@)),
        r is None ==> md_task(l@) is None,
{
    let t = text::trim_start_chars(l);
    let n = t.len();
    proof {
        reveal_strlit("- [ ] ");
        reveal_strlit("- [x] ");
        reveal_strlit("- [X] ");
        reveal_strlit("- ");
    }
    if text::starts_with_str(&t, "- [ ] ") {
        let r = text::slice_of(&t, 6, n);
        assert(r@ =~= t@.skip(6));
        Some((TaskKind::Required, r))
    } else if text::starts_with_str(&t, "- [x] ") || text::starts_with_str(&t, "- [X] ") {
        let r = text::slice_of(&t, 6, n);
        assert(r@ =~= t@.skip(6));
        Some((TaskKind::Completed, r))
    } else if text::starts_with_str(&t, "- ") {
        let r = text::slice_of(&t, 2, n);
        assert(r@ =~= t@.skip(2));
        Some((TaskKind::Required, r))
    } else {
        None
    }
}

fn para_break_exec(l: &Vec<char>) -> (b: bool)
    ensures
        b == para_break(l@),
{
    let t = text::trim_chars(l);
    t.len() == 0 || text::starts_with_str(&t, "#") || text::starts_with_str(&t, "- ")
        || text::starts_with_str(&t, "```")
}

fn count_hashes(l: &Vec<char>) -> (n: usize)
    ensures
        n == hashes(l@),
        n <= l.len(),
{
    let mut i: usize = 0;
    while i < l.len() && l[i] == '#'
        invariant
            i <= l.len(),
            forall|j: int| 0 <= j < i ==> #[trigger] text::char_pred('#')(l@[j]),
        decreases l.len() - i,
    {
        i = i + 1;
    }
    proof {
        text::lemma_lead_count(l@, text::char_pred('#'), i as int);
    }
    i
}


pub proof fn lemma_md_fence(lines: Seq<Seq<char>>, i: int)
    requires
        0 <= i <= lines.len(),
    ensures
        i <= md_fence(lines, i).1 <= lines.len(),
    decreases lines.len() - i,
{
    if i < lines.len() && !starts_with(trim_start(lines[i]), "```"@) {
        lemma_md_fence(lines, i + 1);
    }
}

pub proof fn lemma_md_para(lines: Seq<Seq<char>>, i: int)
    requires
        0 <= i <= lines.len(),
    ensures
        i <= md_para(lines, i).1 <= lines.len(),
    decreases lines.len() - i,
{
    if i < lines.len() && !para_break(lines[i]) {
        lemma_md_para(lines, i + 1);
    }
}

/// The conversion reads every text.
pub proof fn lemma_md_scan_total(lines: Seq<Seq<char>>, i: int)
    requires
        0 <= i <= lines.len(),
    ensures
        md_scan(lines, i) is Some,
    decreases lines.len() - i,
{
    if i < lines.len() {
        let l = lines[i];
        if starts_with(trim_start(l), "```"@) {
            lemma_md_fence(lines, i + 1);
            let e = md_fence(lines, i + 1).1;
            let next = if e < lines.len() {
                e + 1
            } else {
                e
            };
            lemma_md_scan_total(lines, next);
        } else if is_heading(l) || md_task(l) is Some || trim_start(l).len() == 0 {
            lemma_md_scan_total(lines, i + 1);
        } else {
            lemma_md_para(lines, i + 1);
            lemma_md_scan_total(lines, md_para(lines, i + 1).1);
        }
    }
}

/// Converts Markdown into a document: headings (one to six `#`) become
/// groups, `- [ ]`, `- [x]` and `- ` lines tasks, fenced blocks code blocks
/// and runs of other lines paragraphs of prose (joined by spaces); blank
/// lines are skipped. A paragraph starts at any other line, a `#` line that
/// is no heading included.
pub fn from_markdown(md: &str) -> (r: Result<Document, ConvertError>)
    ensures
        md_scan(text::lines(md@), 0) is Some,
        r matches Ok(d) && md_nodes(d.nodes@, md_scan(text::lines(md@), 0)->0),
{
    let lines = text::lines_of(&text::str_chars(md));
    let ghost lv = text::views(lines@);
    proof {
        lemma_md_scan_total(lv, 0);
    }
    let ghost all = md_scan(lv, 0)->0;
    let ghost mut items: Seq<MdItem> = Seq::empty();
    let mut nodes: Vec<Node> = Vec::new();
    let mut i: usize = 0;
    proof {
        reveal_strlit("\n");
        reveal_strlit(" ");
        assert(all =~= items + md_scan(lv, 0)->0);
    }
    while i < lines.len()
        invariant
            lv == text::views(lines@),
            i <= lines.len(),
            md_scan(lv, i as int) is Some,
            all == items + md_scan(lv, i as int)->0,
            md_nodes(nodes@, items),
        decreases lines.len() - i,
    {
        let l = &lines[i];
        assert(l@ == lv[i as int]);
        let ts = text::trim_start_chars(l);
        if text::starts_with_str(&ts, "```") {
            let lang_part = text::trim_start_matches_str(&ts, "`");
            let lang = if lang_part.len() == 0 {
                None
            } else {
                Some(text::to_string(&lang_part))
            };
            let mut body: Vec<Vec<char>> = Vec::new();
            let mut j: usize = i + 1;
            proof {
                lemma_md_fence(lv, i + 1);
            }
            while j < lines.len() && !text::starts_with_str(&text::trim_start_chars(&lines[j]), "```")
                invariant
                    lv == text::views(lines@),
                    i < j <= lines.len(),
                    text::views(body@) + md_fence(lv, j as int).0 == md_fence(lv, i + 1).0,
                    md_fence(lv, j as int).1 == md_fence(lv, i + 1).1,
                decreases lines.len() - j,
            {
                assert(lines@[j as int]@ == lv[j as int]);
                let ghost b0 = body@;
                body.push(lines[j].clone());
                proof {
                    assert(body@[body@.len() - 1]@ == lv[j as int]);
                    assert(text::views(body@) =~= text::views(b0).push(lv[j as int]));
                    assert(text::views(body@) + md_fence(lv, j + 1).0 =~= text::views(b0)
                        + md_fence(lv, j as int).0);
                }
                j = j + 1;
            }
            proof {
                if j < lines.len() {
                    assert(lines@[j as int]@ == lv[j as int]);
                }
                assert(md_fence(lv, j as int).0 =~= Seq::<Seq<char>>::empty());
                assert(text::views(body@) =~= md_fence(lv, i + 1).0);
            }
            let content = text::join_str(&body, "\n");
            let next = if j < lines.len() {
                j + 1
            } else {
                j
            };
            let ghost item = MdItem::Code(line::opt_str_view(lang), content@);
            let node = Node::CodeBlock(CodeBlock { lang, content: text::to_string(&content) });
            proof {
                let rest = md_scan(lv, next as int)->0;
                assert(md_scan(lv, i as int) == Some(seq![item] + rest));
                assert(all =~= items.push(item) + rest);
                items = items.push(item);
            }
            nodes.push(node);
            assert(md_node(nodes@[nodes@.len() - 1], item));
            i = next;
            continue;
        }
        let h = count_hashes(l);
        let n = l.len();
        if h >= 1 && h <= 6 {
            let tail = text::slice_of(l, h, n);
            assert(tail@ =~= l@.skip(h as int));
            let name = text::trim_chars(&tail);
            if name.len() > 0 {
                proof {
                    reveal_strlit("#");
                    text::lemma_lead_count_props(l@, text::char_pred('#'));
                    assert(l@[0] == '#');
                    assert(l@.take(1) =~= "#"@);
                    assert(starts_with(l@, "#"@));
                }
                let ghost item = MdItem::Heading(h as u8, name@);
                let node = Node::Group(
                    Group {
                        depth: h as u8,
                        name: text::to_string(&name),
                        atoms: Vec::new(),
                        gates: Vec::new(),
                        children: Vec::new(),
                    },
                );
                proof {
                    let rest = md_scan(lv, i + 1)->0;
                    assert(all =~= items.push(item) + rest);
                    items = items.push(item);
                }
                nodes.push(node);
                assert(md_node(nodes@[nodes@.len() - 1], item));
                i = i + 1;
                continue;
            }
        }
        proof {
            if is_heading(l@) {
                assert(false);
            }
        }
        match md_task_exec(l) {
            Some((k, t)) => {
                let ghost item = MdItem::Task(k, t@);
                let node = make_task(k, &t);
                proof {
                    let rest = md_scan(lv, i + 1)->0;
                    assert(all =~= items.push(item) + rest);
                    items = items.push(item);
                }
                nodes.push(node);
                assert(md_node(nodes@[nodes@.len() - 1], item));
                i = i + 1;
                continue;
            },
            None => {},
        }
        if ts.len() == 0 {
            i = i + 1;
            continue;
        }
        let mut parts: Vec<Vec<char>> = Vec::new();
        let first = text::trim_chars(l);
        proof {
            text::lemma_views_push(parts@, first);
        }
        parts.push(first);
        let mut j: usize = i + 1;
        proof {
            lemma_md_para(lv, i + 1);
            assert(text::views(parts@) + md_para(lv, j as int).0 =~= seq![trim(lv[i as int])] + md_para(lv, i + 1).0);
        }
        while j < lines.len() && !para_break_exec(&lines[j])
            invariant
                lv == text::views(lines@),
                i < j <= lines.len(),
                text::views(parts@) + md_para(lv, j as int).0 == seq![trim(lv[i as int])] + md_para(lv, i + 1).0,
                md_para(lv, j as int).1 == md_para(lv, i + 1).1,
            decreases lines.len() - j,
        {
            assert(lines@[j as int]@ == lv[j as int]);
            let t = text::trim_chars(&lines[j]);
            let ghost p0 = parts@;
            proof {
                text::lemma_views_push(parts@, t);
            }
            parts.push(t);
            proof {
                assert(text::views(parts@) + md_para(lv, j + 1).0 =~= text::views(p0) + md_para(
                    lv,
                    j as int,
                ).0);
            }
            j = j + 1;
        }
        proof {
            if j < lines.len() {
                assert(lines@[j as int]@ == lv[j as int]);
            }
            assert(md_para(lv, j as int).0 =~= Seq::<Seq<char>>::empty());
            assert(text::views(parts@) =~= seq![trim(lv[i as int])] + md_para(lv, i + 1).0);
        }
        let txt = text::join_str(&parts, " ");
        let ghost item = MdItem::Paragraph(txt@);
        let node = Node::Prose(Prose { text: text::to_string(&txt), inline: Vec::new() });
        proof {
            let rest = md_scan(lv, j as int)->0;
            assert(all =~= items.push(item) + rest);
            items = items.push(item);
        }
        nodes.push(node);
        assert(md_node(nodes@[nodes@.len() - 1], item));
        i = j;
    }
    proof {
        assert(items =~= all);
    }
    Ok(Document { nodes })
}


// ── JSON values ────────────────────────────────────────────────

/// A JSON value, with the text that JSON writes for it.
#[derive(Debug)]
pub struct Json {
    pub value: JsonValue,
    pub text: String,
}

/// The kinds of JSON values. A number carries its value when it is an
/// integer that fits `i64`, and whether it is a floating-point number.
#[derive(Debug)]
pub enum JsonValue {
    Null,
    Bool(bool),
    Number(Option<i64>, bool),
    Str(String),
    Array(Vec<Json>),
    Object(Vec<(String, Json)>),
}

/// What a JSON value converts to.
pub enum JsonItem {
    Define(Seq<char>, Seq<(Seq<char>, line::FieldDefaultView)>),
    Prose(Seq<char>),
}

/// The field default that a JSON value gives: a number that fits in `i64`
/// is an integer, any other number a float (kept as its text).
pub open spec fn json_default(v: Json) -> line::FieldDefaultView {
    match v.value {
        JsonValue::Str(s) => line::FieldDefaultView::Str(s@),
        JsonValue::Number(n, _) => match n {
            Some(i) => line::FieldDefaultView::Int(i),
            None => line::FieldDefaultView::Float(v.text@),
        },
        JsonValue::Bool(b) => line::FieldDefaultView::Bool(b),
        JsonValue::Null => line::FieldDefaultView::Nil,
        JsonValue::Array(_) => line::FieldDefaultView::List,
        JsonValue::Object(_) => line::FieldDefaultView::Str(v.text@),
    }
}

/// A primitive value as text: strings unquoted, `null` as `nil`.
pub open spec fn json_plain(v: Json) -> Seq<char> {
    match v.value {
        JsonValue::Str(s) => s@,
        JsonValue::Bool(b) => if b {
            "true"@
        } else {
            "false"@
        },
        JsonValue::Null => "nil"@,
        _ => v.text@,
    }
}

pub open spec fn define_item(entity: Seq<char>, v: Json) -> JsonItem {
    match v.value {
        JsonValue::Object(m) => JsonItem::Define(
            entity,
            m@.map_values(|p: (String, Json)| (p.0@, json_default(p.1))),
        ),
        _ => JsonItem::Define(entity, Seq::empty()),
    }
}

/// The items of an array under a key: objects become definitions of that
/// entity, other values lines of prose.
pub open spec fn array_items(key: Seq<char>, arr: Seq<Json>) -> Seq<JsonItem>
    decreases arr.len(),
{
    if arr.len() == 0 {
        Seq::empty()
    } else {
        array_items(key, arr.drop_last()).push(
            if arr.last().value is Object {
                define_item(key, arr.last())
            } else {
                JsonItem::Prose(key + ": "@ + arr.last().text@)
            },
        )
    }
}

/// The items of the entries of an object.
pub open spec fn entry_items(m: Seq<(String, Json)>) -> Seq<JsonItem>
    decreases m.len(),
{
    if m.len() == 0 {
        Seq::empty()
    } else {
        let (k, v) = m.last();
        entry_items(m.drop_last()) + match v.value {
            JsonValue::Array(arr) => array_items(k@, arr@),
            JsonValue::Object(_) => seq![define_item(k@, v)],
            _ => seq![JsonItem::Prose(k@ + ": "@ + json_plain(v))],
        }
    }
}

/// The items that a JSON value converts to.
pub open spec fn json_items(v: Json) -> Seq<JsonItem>
    decreases v,
{
    match v.value {
        JsonValue::Object(m) => entry_items(m@),
        JsonValue::Array(arr) => json_seq_items(arr@),
        _ => seq![JsonItem::Prose(json_plain(v))],
    }
}

pub open spec fn json_seq_items(arr: Seq<Json>) -> Seq<JsonItem>
    decreases arr,
{
    if arr.len() == 0 {
        Seq::empty()
    } else {
        json_seq_items(arr.drop_last()) + json_items(arr.last())
    }
}

/// Whether a node is the one a JSON item becomes.
pub open spec fn json_node(n: Node, it: JsonItem) -> bool {
    match it {
        JsonItem::Define(e, fs) => n matches Node::Define(d) && d.entity@ == e && d.atoms@.len() == 0
            && d.from_scope is None && d.mod_scope is None && d.workspace_scope is None
            && d.fields@.map_values(|f: FieldDef| (f.name@, line::default_view(f.default))) == fs
            && forall|k: int| 0 <= k < d.fields@.len() ==> !(#[trigger] d.fields@[k]).plural,
        JsonItem::Prose(t) => n matches Node::Prose(p) && p.text@ == t && p.inline@.len() == 0,
    }
}

pub open spec fn json_nodes(ns: Seq<Node>, items: Seq<JsonItem>) -> bool {
    ns.len() == items.len() && forall|k: int| 0 <= k < ns.len() ==> #[trigger] json_node(ns[k], items[k])
}

fn json_default_exec(v: &Json) -> (r: FieldDefault)
    ensures
        line::default_view(r) == json_default(*v),
{
    match &v.value {
        JsonValue::Str(s) => FieldDefault::Str(s.clone()),
        JsonValue::Number(n, _) => match n {
            Some(i) => FieldDefault::Int(*i),
            None => FieldDefault::Float(v.text.clone()),
        },
        JsonValue::Bool(b) => FieldDefault::Bool(*b),
        JsonValue::Null => FieldDefault::Nil,
        JsonValue::Array(_) => FieldDefault::List,
        JsonValue::Object(_) => FieldDefault::Str(v.text.clone()),
    }
}

fn json_plain_exec(v: &Json) -> (r: Vec<char>)
    ensures
        r@ == json_plain(*v),
{
    match &v.value {
        JsonValue::Str(s) => text::string_chars(s),
        JsonValue::Bool(b) => if *b {
            text::str_chars("true")
        } else {
            text::str_chars("false")
        },
        JsonValue::Null => text::str_chars("nil"),
        _ => text::string_chars(&v.text),
    }
}

fn prose_of(t: Vec<char>) -> (r: Node)
    ensures
        json_node(r, JsonItem::Prose(t@)),
{
    Node::Prose(Prose { text: text::to_string(&t), inline: Vec::new() })
}

fn keyed_text(key: &String, t: &Vec<char>) -> (r: Vec<char>)
    ensures
        r@ == key@ + ": "@ + t@,
{
    let mut out = text::string_chars(key);
    text::append_str(&mut out, ": ");
    text::append(&mut out, t);
    out
}

fn define_of(entity: &String, v: &Json) -> (r: Node)
    ensures
        json_node(r, define_item(entity@, *v)),
{
    let mut fields: Vec<FieldDef> = Vec::new();
    match &v.value {
        JsonValue::Object(m) => {
            let mut i: usize = 0;
            while i < m.len()
                invariant
                    i <= m.len(),
                    fields@.map_values(|f: FieldDef| (f.name@, line::default_view(f.default)))
                        == m@.map_values(|p: (String, Json)| (p.0@, json_default(p.1))).take(i as int),
                    forall|k: int| 0 <= k < fields@.len() ==> !(#[trigger] fields@[k]).plural,
                decreases m.len() - i,
            {
                let f = FieldDef { name: m[i].0.clone(), plural: false, default: json_default_exec(&m[i].1) };
                let ghost f0 = fields@;
                fields.push(f);
                assert(fields@ =~= f0.push(f));
                assert(f.name@ == m@[i as int].0@);
                assert(fields@.map_values(|f: FieldDef| (f.name@, line::default_view(f.default)))
                    =~= f0.map_values(|f: FieldDef| (f.name@, line::default_view(f.default))).push(
                    (f.name@, line::default_view(f.default)),
                ));
                assert(m@.map_values(|p: (String, Json)| (p.0@, json_default(p.1))).take(i + 1)
                    =~= m@.map_values(|p: (String, Json)| (p.0@, json_default(p.1))).take(i as int).push(
                    (m@[i as int].0@, json_default(m@[i as int].1)),
                ));
                i = i + 1;
            }
            assert(m@.map_values(|p: (String, Json)| (p.0@, json_default(p.1))).take(m.len() as int)
                =~= m@.map_values(|p: (String, Json)| (p.0@, json_default(p.1))));
        },
        _ => {
            assert(fields@.map_values(|f: FieldDef| (f.name@, line::default_view(f.default)))
                =~= Seq::<(Seq<char>, line::FieldDefaultView)>::empty());
        },
    }
    Node::Define(
        Define {
            entity: entity.clone(),
            atoms: Vec::new(),
            fields,
            from_scope: None,
            mod_scope: None,
            workspace_scope: None,
        },
    )
}

proof fn lemma_json_nodes_push(ns: Seq<Node>, items: Seq<JsonItem>, n: Node, it: JsonItem)
    requires
        json_nodes(ns, items),
        json_node(n, it),
    ensures
        json_nodes(ns.push(n), items.push(it)),
{
    assert forall|k: int| 0 <= k < ns.len() + 1 implies #[trigger] json_node(ns.push(n)[k], items.push(it)[k]) by {
        if k < ns.len() {
            assert(ns.push(n)[k] == ns[k]);
            assert(items.push(it)[k] == items[k]);
        }
    }
}

impl Json {
    /// Appends the nodes of a JSON value.
    fn nodes_into(&self, out: &mut Vec<Node>, Ghost(items): Ghost<Seq<JsonItem>>)
        requires
            json_nodes(old(out)@, items),
        ensures
            json_nodes(final(out)@, items + json_items(*self)),
        decreases *self,
    {
        match &self.value {
            JsonValue::Object(m) => {
                let ghost mut its = items;
                let mut i: usize = 0;
                assert(items + entry_items(m@.take(0)) =~= items);
                while i < m.len()
                    invariant
                        i <= m.len(),
                        its == items + entry_items(m@.take(i as int)),
                        json_nodes(out@, its),
                    decreases m.len() - i,
                {
                    assert(m@.take(i + 1).drop_last() =~= m@.take(i as int));
                    assert(m@.take(i + 1).last() == m@[i as int]);
                    let (k, v) = &m[i];
                    match &v.value {
                        JsonValue::Array(arr) => {
                            let mut j: usize = 0;
                            let ghost base = its;
                            assert(array_items(k@, arr@.take(0)) =~= Seq::<JsonItem>::empty());
                            assert(base + array_items(k@, arr@.take(0)) =~= base);
                            while j < arr.len()
                                invariant
                                    j <= arr.len(),
                                    its == base + array_items(k@, arr@.take(j as int)),
                                    json_nodes(out@, its),
                                decreases arr.len() - j,
                            {
                                assert(arr@.take(j + 1).drop_last() =~= arr@.take(j as int));
                                assert(arr@.take(j + 1).last() == arr@[j as int]);
                                let item = &arr[j];
                                let ghost it = if item.value is Object {
                                    define_item(k@, *item)
                                } else {
                                    JsonItem::Prose(k@ + ": "@ + item.text@)
                                };
                                let n = match &item.value {
                                    JsonValue::Object(_) => define_of(k, item),
                                    _ => prose_of(keyed_text(k, &text::string_chars(&item.text))),
                                };
                                proof {
                                    lemma_json_nodes_push(out@, its, n, it);
                                    its = its.push(it);
                                    assert(its =~= base + array_items(k@, arr@.take(j + 1)));
                                }
                                out.push(n);
                                j = j + 1;
                            }
                            assert(arr@.take(arr.len() as int) =~= arr@);
                            assert(its =~= items + entry_items(m@.take(i + 1)));
                        },
                        JsonValue::Object(_) => {
                            let n = define_of(k, v);
                            proof {
                                lemma_json_nodes_push(out@, its, n, define_item(k@, *v));
                                its = its.push(define_item(k@, *v));
                                assert(its =~= items + entry_items(m@.take(i + 1)));
                            }
                            out.push(n);
                        },
                        _ => {
                            let n = prose_of(keyed_text(k, &json_plain_exec(v)));
                            let ghost it = JsonItem::Prose(k@ + ": "@ + json_plain(*v));
                            proof {
                                lemma_json_nodes_push(out@, its, n, it);
                                its = its.push(it);
                                assert(its =~= items + entry_items(m@.take(i + 1)));
                            }
                            out.push(n);
                        },
                    }
                    i = i + 1;
                }
                assert(m@.take(m.len() as int) =~= m@);
            },
            JsonValue::Array(arr) => {
                let ghost mut its = items;
                let mut i: usize = 0;
                assert(items + json_seq_items(arr@.take(0)) =~= items);
                while i < arr.len()
                    invariant
                        i <= arr.len(),
                        self.value == JsonValue::Array(*arr),
                        its == items + json_seq_items(arr@.take(i as int)),
                        json_nodes(out@, its),
                    decreases arr.len() - i,
                {
                    assert(arr@.take(i + 1).drop_last() =~= arr@.take(i as int));
                    assert(arr@.take(i + 1).last() == arr@[i as int]);
                    proof {
                        assert(decreases_to!(*self => self.value));
                        assert(decreases_to!(self.value => self.value->Array_0));
                        assert(self.value->Array_0 == *arr);
                        assert(decreases_to!(*arr => arr@));
                        assert(decreases_to!(arr@ => arr@[i as int]));
                    }
                    arr[i].nodes_into(out, Ghost(its));
                    proof {
                        assert(its + json_items(arr@[i as int]) =~= items + json_seq_items(arr@.take(i + 1)));
                        its = its + json_items(arr@[i as int]);
                    }
                    i = i + 1;
                }
                assert(arr@.take(arr.len() as int) =~= arr@);
            },
            _ => {
                let n = prose_of(json_plain_exec(self));
                proof {
                    lemma_json_nodes_push(out@, items, n, JsonItem::Prose(json_plain(*self)));
                    assert(items.push(JsonItem::Prose(json_plain(*self))) =~= items + json_items(*self));
                }
                out.push(n);
            },
        }
    }
}

/// `serde_json`'s JSON value, carried through unread.
#[verifier::external_type_specification]
#[verifier::external_body]
pub struct ExJsonValue(SerdeJson);

/// The JSON value that `serde_json` reads from a text, if the text is JSON.
pub uninterp spec fn json_of_text(s: Seq<char>) -> Option<Json>;

/// The library's JSON value for one of `serde_json`'s, each value with the
/// text that `serde_json` writes for it. Nothing is stated of it: it only
/// converts, one value for one.
#[verifier::external_body]
fn json_of_value(v: &SerdeJson) -> Json {
    let value = match v {
        serde_json::Value::Null => JsonValue::Null,
        serde_json::Value::Bool(b) => JsonValue::Bool(*b),
        serde_json::Value::Number(n) => JsonValue::Number(n.as_i64(), n.is_f64()),
        serde_json::Value::String(s) => JsonValue::Str(s.clone()),
        serde_json::Value::Array(a) => JsonValue::Array(a.iter().map(json_of_value).collect()),
        serde_json::Value::Object(m) => JsonValue::Object(m.iter().map(|(k, x)| (k.clone(), json_of_value(x))).collect()),
    };
    Json { value, text: v.to_string() }
}

/// Reads a JSON text with `serde_json::from_str`. The result is the value
/// that the text denotes (named `json_of_text`), or the error's message
/// when the text is not JSON; what the message says is not stated.
#[verifier::external_body]
fn parse_json_text(s: &str) -> (r: Result<Json, String>)
    ensures
        match r {
            Ok(j) => json_of_text(s@) == Some(j),
            Err(_) => json_of_text(s@) is None,
        },
{
    match serde_json::from_str::<SerdeJson>(s) {
        Ok(v) => Ok(json_of_value(&v)),
        Err(e) => Err(e.to_string()),
    }
}

/// Converts a JSON text into a document: a text that is not JSON is
/// refused with `InvalidJson`; otherwise the value converts as in
/// `from_json_value`.
pub fn from_json(json: &str) -> (r: Result<Document, ConvertError>)
    ensures
        match json_of_text(json@) {
            None => r matches Err(ConvertError::InvalidJson(_)),
            Some(v) => r matches Ok(d) && json_nodes(d.nodes@, json_items(v)),
        },
{
    match parse_json_text(json) {
        Ok(v) => from_json_value(&v),
        Err(m) => Err(ConvertError::InvalidJson(m)),
    }
}

/// Converts a JSON value into a document: the entries of an object become
/// definitions (objects, and objects in arrays, keyed by their entity) or
/// prose lines (other values); an array converts item by item; a lone
/// primitive becomes a prose line.
pub fn from_json_value(v: &Json) -> (r: Result<Document, ConvertError>)
    ensures
        r matches Ok(d) && json_nodes(d.nodes@, json_items(*v)),
{
    let mut nodes: Vec<Node> = Vec::new();
    assert(json_nodes(nodes@, Seq::<JsonItem>::empty()));
    v.nodes_into(&mut nodes, Ghost(Seq::empty()));
    assert(Seq::<JsonItem>::empty() + json_items(*v) =~= json_items(*v));
    Ok(Document { nodes })
}


// ── Documents to JSON ──────────────────────────────────────────

/// A JSON value to write out; an object's entries are ordered by key, each
/// key once. A floating-point number is held as the text of the number.
#[derive(Debug, PartialEq)]
pub enum JsonOut {
    Null,
    Bool(bool),
    Int(i64),
    Float(String),
    Str(String),
    Array(Vec<JsonOut>),
    Object(Vec<(String, JsonOut)>),
}

pub enum JsonOutView {
    Null,
    Bool(bool),
    Int(i64),
    Float(Seq<char>),
    Str(Seq<char>),
    Array(Seq<JsonOutView>),
    Object(Seq<(Seq<char>, JsonOutView)>),
}

pub open spec fn out_view(v: JsonOut) -> JsonOutView
    decreases v,
{
    match v {
        JsonOut::Null => JsonOutView::Null,
        JsonOut::Bool(b) => JsonOutView::Bool(b),
        JsonOut::Int(n) => JsonOutView::Int(n),
        JsonOut::Float(t) => JsonOutView::Float(t@),
        JsonOut::Str(s) => JsonOutView::Str(s@),
        JsonOut::Array(items) => JsonOutView::Array(outs_view(items@)),
        JsonOut::Object(m) => JsonOutView::Object(entries_view(m@)),
    }
}

pub open spec fn outs_view(s: Seq<JsonOut>) -> Seq<JsonOutView>
    decreases s,
{
    if s.len() == 0 {
        Seq::empty()
    } else {
        outs_view(s.drop_last()).push(out_view(s.last()))
    }
}

pub open spec fn entries_view(s: Seq<(String, JsonOut)>) -> Seq<(Seq<char>, JsonOutView)>
    decreases s,
{
    if s.len() == 0 {
        Seq::empty()
    } else {
        entries_view(s.drop_last()).push((s.last().0@, out_view(s.last().1)))
    }
}

pub type JsonMap = Seq<(Seq<char>, JsonOutView)>;

/// The JSON value of a field's default.
pub open spec fn default_json(d: FieldDefault) -> JsonOutView {
    match d {
        FieldDefault::Str(s) => JsonOutView::Str(s@),
        FieldDefault::Int(n) => JsonOutView::Int(n),
        FieldDefault::Float(t) => JsonOutView::Float(t@),
        FieldDefault::Bool(b) => JsonOutView::Bool(b),
        FieldDefault::Nil => JsonOutView::Null,
        FieldDefault::Atom(a) => JsonOutView::Str(a@),
        FieldDefault::Enum(vs) => JsonOutView::Array(
            text::str_views(vs@).map_values(|v: Seq<char>| JsonOutView::Str(v)),
        ),
        FieldDefault::Ref(r) => JsonOutView::Str(seq!['@'] + r@),
        FieldDefault::List => JsonOutView::Array(Seq::empty()),
        FieldDefault::Timestamp(t) => JsonOutView::Str(t@),
    }
}

/// A schema's fields as a JSON object.
pub open spec fn define_fields_json(fs: Seq<FieldDef>) -> JsonMap
    decreases fs.len(),
{
    if fs.len() == 0 {
        Seq::empty()
    } else {
        crate::ir::fields_insert(define_fields_json(fs.drop_last()), fs.last().name@, default_json(fs.last().default))
    }
}

/// Adds an item to the array under `k`: a missing key starts one, a key
/// that holds something else than an array is left as it is.
pub open spec fn push_to_array(m: JsonMap, k: Seq<char>, item: JsonOutView) -> JsonMap {
    match crate::ir::field_get(m, k) {
        None => crate::ir::fields_insert(m, k, JsonOutView::Array(seq![item])),
        Some(JsonOutView::Array(items)) => crate::ir::field_update(m, k, JsonOutView::Array(items.push(item))),
        Some(_) => m,
    }
}

/// Appends a schema object to the ones already kept for its entity.
pub open spec fn add_define(ds: Seq<(Seq<char>, Seq<JsonOutView>)>, e: Seq<char>, obj: JsonOutView) -> Seq<
    (Seq<char>, Seq<JsonOutView>),
>
    decreases ds.len(),
{
    if ds.len() == 0 {
        seq![(e, seq![obj])]
    } else if ds[0].0 == e {
        ds.update(0, (e, ds[0].1.push(obj)))
    } else {
        seq![ds[0]] + add_define(ds.drop_first(), e, obj)
    }
}

pub open spec fn task_status_json(k: TaskKind) -> Seq<char> {
    match k {
        TaskKind::Completed => "completed"@,
        TaskKind::Required => "pending"@,
        TaskKind::Optional => "optional"@,
        TaskKind::Open => "open"@,
    }
}

/// The JSON of a document of one task: under `tasks`, one object with the
/// task's status and text.
pub proof fn lemma_one_task_json(t: crate::types::Task)
    ensures
        json_object(seq![Node::Task(t)]) == seq![
            (
                "tasks"@,
                JsonOutView::Array(
                    seq![JsonOutView::Object(seq![("status"@, JsonOutView::Str(task_status_json(t.marker.kind))), ("text"@, JsonOutView::Str(t.text@))])],
                ),
            ),
        ],
{
    let ns = seq![Node::Task(t)];
    assert(ns.drop_last() =~= Seq::<Node>::empty());
    assert(json_fold(Seq::<Node>::empty()) == (Seq::<(Seq<char>, JsonOutView)>::empty(), Seq::<(Seq<char>, Seq<JsonOutView>)>::empty()));
}

/// A task's status in the JSON tells its kind: two tasks of different kinds
/// never get the same status.
pub proof fn lemma_task_status_tells_kind(k1: TaskKind, k2: TaskKind)
    ensures
        task_status_json(k1) == task_status_json(k2) ==> k1 == k2,
{
    reveal_strlit("completed");
    reveal_strlit("pending");
    reveal_strlit("optional");
    reveal_strlit("open");
    let a = task_status_json(k1);
    let b = task_status_json(k2);
    if a == b && k1 != k2 {
        assert(a.len() == b.len());
        assert(a[0] == b[0]);
        assert(a[1] == b[1]);
    }
}

/// Two documents of one task each give the same JSON exactly when the
/// tasks have the same kind and the same text: the JSON keeps a task's
/// kind (`pending` for required, `optional`, `completed`, `open`).
pub proof fn lemma_one_task_json_keeps_kind(t1: crate::types::Task, t2: crate::types::Task)
    ensures
        (json_object(seq![Node::Task(t1)]) == json_object(seq![Node::Task(t2)])) == (t1.marker.kind
            == t2.marker.kind && t1.text@ == t2.text@),
{
    lemma_one_task_json(t1);
    lemma_one_task_json(t2);
    lemma_task_status_tells_kind(t1.marker.kind, t2.marker.kind);
    let o1 = json_object(seq![Node::Task(t1)]);
    let o2 = json_object(seq![Node::Task(t2)]);
    if o1 == o2 {
        assert(o1[0] == o2[0]);
        let a1 = o1[0].1->Array_0;
        let a2 = o2[0].1->Array_0;
        assert(a1[0] == a2[0]);
        let f1 = a1[0]->Object_0;
        let f2 = a2[0]->Object_0;
        assert(f1[0] == f2[0]);
        assert(f1[1] == f2[1]);
    }
}

/// The JSON object and the schema objects by entity after some nodes.
pub open spec fn json_fold(ns: Seq<Node>) -> (JsonMap, Seq<(Seq<char>, Seq<JsonOutView>)>)
    decreases ns, 0int,
{
    if ns.len() == 0 {
        (Seq::empty(), Seq::empty())
    } else {
        let (m, ds) = json_fold(ns.drop_last());
        match ns.last() {
            Node::Define(d) => (m, add_define(ds, d.entity@, JsonOutView::Object(define_fields_json(d.fields@)))),
            Node::Group(g) => (
                crate::ir::fields_insert(m, g.name@, JsonOutView::Object(json_object(g.children@))),
                ds,
            ),
            Node::Task(t) => (
                push_to_array(
                    m,
                    "tasks"@,
                    JsonOutView::Object(
                        seq![("status"@, JsonOutView::Str(task_status_json(t.marker.kind))), ("text"@, JsonOutView::Str(t.text@))],
                    ),
                ),
                ds,
            ),
            Node::Prose(p) => (push_to_array(m, "prose"@, JsonOutView::Str(p.text@)), ds),
            Node::CodeBlock(cb) => (
                push_to_array(
                    m,
                    "code_blocks"@,
                    JsonOutView::Object(
                        match cb.lang {
                            Some(l) => seq![("content"@, JsonOutView::Str(cb.content@)), ("lang"@, JsonOutView::Str(l@))],
                            None => seq![("content"@, JsonOutView::Str(cb.content@))],
                        },
                    ),
                ),
                ds,
            ),
            _ => (m, ds),
        }
    }
}

/// The schema objects merged in: one object under its entity, several as
/// an array.
pub open spec fn merge_defines(m: JsonMap, ds: Seq<(Seq<char>, Seq<JsonOutView>)>) -> JsonMap
    decreases ds.len(),
{
    if ds.len() == 0 {
        m
    } else {
        let (e, items) = ds.last();
        crate::ir::fields_insert(
            merge_defines(m, ds.drop_last()),
            e,
            if items.len() == 1 {
                items[0]
            } else {
                JsonOutView::Array(items)
            },
        )
    }
}

/// The JSON object of some nodes: groups as nested objects, tasks, prose
/// and code blocks in arrays, schemas under their entity names.
pub open spec fn json_object(ns: Seq<Node>) -> JsonMap
    decreases ns, 1int,
{
    let (m, ds) = json_fold(ns);
    merge_defines(m, ds)
}


pub proof fn lemma_entries_view(s: Seq<(String, JsonOut)>)
    ensures
        entries_view(s).len() == s.len(),
        forall|i: int| 0 <= i < s.len() ==> #[trigger] entries_view(s)[i] == (s[i].0@, out_view(s[i].1)),
    decreases s.len(),
{
    if s.len() > 0 {
        lemma_entries_view(s.drop_last());
    }
}

pub proof fn lemma_outs_view(s: Seq<JsonOut>)
    ensures
        outs_view(s).len() == s.len(),
        forall|i: int| 0 <= i < s.len() ==> #[trigger] outs_view(s)[i] == out_view(s[i]),
    decreases s.len(),
{
    if s.len() > 0 {
        lemma_outs_view(s.drop_last());
    }
}

/// Sets `k` to `v` in entries ordered by key.
fn insert_entry(m: &mut Vec<(String, JsonOut)>, k: String, v: JsonOut)
    ensures
        entries_view(final(m)@) == crate::ir::fields_insert(entries_view(old(m)@), k@, out_view(v)),
{
    let ghost fs = entries_view(m@);
    proof {
        lemma_entries_view(m@);
    }
    let kc = text::string_chars(&k);
    let mut i: usize = 0;
    let mut found = false;
    while i < m.len()
        invariant_except_break
            i <= m.len(),
            fs == entries_view(m@),
            fs.len() == m@.len(),
            forall|j: int| 0 <= j < m@.len() ==> #[trigger] fs[j] == (m@[j].0@, out_view(m@[j].1)),
            kc@ == k@,
            !found,
            forall|j: int| 0 <= j < i ==> crate::ir::key_lt(#[trigger] fs[j].0, k@),
        ensures
            i <= m.len(),
            fs == entries_view(m@),
            forall|j: int| 0 <= j < i ==> crate::ir::key_lt(#[trigger] fs[j].0, k@),
            i < m.len() ==> !crate::ir::key_lt(fs[i as int].0, k@),
            found == (i < m.len() && fs[i as int].0 == k@),
        decreases m.len() - i,
    {
        let ki = text::string_chars(&m[i].0);
        assert(fs[i as int].0 == m@[i as int].0@);
        if !crate::ir::key_lt_exec(&ki, &kc) {
            found = text::eq(&ki, &kc);
            break;
        }
        i = i + 1;
    }
    proof {
        crate::ir::lemma_fields_insert_at(fs, k@, out_view(v), i as int);
    }
    let ghost kv = k@;
    let ghost vv = out_view(v);
    let ghost m0 = m@;
    if found {
        m.set(i, (k, v));
        proof {
            lemma_entries_view(m@);
            assert(entries_view(m@) =~= fs.update(i as int, (kv, vv)));
        }
    } else {
        m.insert(i, (k, v));
        proof {
            lemma_entries_view(m@);
            let want = fs.take(i as int) + seq![(kv, vv)] + fs.skip(i as int);
            assert forall|j: int| 0 <= j < m@.len() implies #[trigger] entries_view(m@)[j] == want[j] by {
                if j < i {
                    assert(m@[j] == m0[j]);
                } else if j > i {
                    assert(m@[j] == m0[j - 1]);
                }
            }
            assert(entries_view(m@) =~= want);
        }
    }
}

/// The index of the first entry under `k`.
fn find_entry(m: &Vec<(String, JsonOut)>, k: &str) -> (r: Option<usize>)
    ensures
        r matches Some(i) ==> i < m.len() && entries_view(m@)[i as int].0 == k@ && forall|j: int|
            0 <= j < i ==> (#[trigger] entries_view(m@)[j]).0 != k@,
        r is None ==> forall|j: int| 0 <= j < m@.len() ==> (#[trigger] entries_view(m@)[j]).0 != k@,
{
    let ghost fv = entries_view(m@);
    proof {
        lemma_entries_view(m@);
    }
    let kc = text::str_chars(k);
    let mut i: usize = 0;
    while i < m.len()
        invariant
            i <= m.len(),
            fv == entries_view(m@),
            fv.len() == m@.len(),
            forall|j: int| 0 <= j < m@.len() ==> #[trigger] fv[j] == (m@[j].0@, out_view(m@[j].1)),
            kc@ == k@,
            forall|j: int| 0 <= j < i ==> (#[trigger] fv[j]).0 != k@,
        decreases m.len() - i,
    {
        assert(fv[i as int].0 == m@[i as int].0@);
        if text::eq(&text::string_chars(&m[i].0), &kc) {
            return Some(i);
        }
        i = i + 1;
    }
    None
}

/// Adds an item to the array under `k`.
fn push_to_array_exec(m: &mut Vec<(String, JsonOut)>, k: &str, item: JsonOut)
    ensures
        entries_view(final(m)@) == push_to_array(entries_view(old(m)@), k@, out_view(item)),
{
    proof {
        lemma_entries_view(m@);
    }
    match find_entry(m, k) {
        None => {
            proof {
                crate::ir::lemma_field_none(entries_view(m@), k@);
            }
            let mut arr: Vec<JsonOut> = Vec::new();
            arr.push(item);
            assert(outs_view(arr@) =~= seq![out_view(item)]) by {
                lemma_outs_view(arr@);
            }
            insert_entry(m, k.to_owned(), JsonOut::Array(arr));
        },
        Some(i) => {
            proof {
                crate::ir::lemma_field_first(entries_view(m@), k@, i as int, out_view(item));
                assert(entries_view(m@)[i as int] == (m@[i as int].0@, out_view(m@[i as int].1)));
            }
            let is_array = match &m[i].1 {
                JsonOut::Array(_) => true,
                _ => false,
            };
            if is_array {
                let (key, val) = m.remove(i);
                match val {
                    JsonOut::Array(items) => {
                        let mut items = items;
                        let ghost i0 = items@;
                        items.push(item);
                        assert(items@.drop_last() =~= i0);
                        m.insert(i, (key, JsonOut::Array(items)));
                        proof {
                            let fs = entries_view(old(m)@);
                            lemma_entries_view(old(m)@);
                            lemma_entries_view(m@);
                            assert forall|j: int| 0 <= j < m@.len() implies #[trigger] m@[j] == (if j
                                == i {
                                m@[j]
                            } else {
                                old(m)@[j]
                            }) by {}
                            assert(entries_view(m@) =~= fs.update(
                                i as int,
                                (fs[i as int].0, JsonOutView::Array(outs_view(i0).push(out_view(item)))),
                            ));
                            crate::ir::lemma_field_first(
                                fs,
                                k@,
                                i as int,
                                JsonOutView::Array(outs_view(i0).push(out_view(item))),
                            );
                        }
                    },
                    _ => {
                        m.insert(i, (key, val));
                    },
                }
            }
        },
    }
}


/// The JSON value of a field's default.
pub fn field_default_to_json(d: &FieldDefault) -> (r: JsonOut)
    ensures
        out_view(r) == default_json(*d),
{
    match d {
        FieldDefault::Str(s) => JsonOut::Str(s.clone()),
        FieldDefault::Int(n) => JsonOut::Int(*n),
        FieldDefault::Float(t) => JsonOut::Float(t.clone()),
        FieldDefault::Bool(b) => JsonOut::Bool(*b),
        FieldDefault::Nil => JsonOut::Null,
        FieldDefault::Atom(a) => JsonOut::Str(a.clone()),
        FieldDefault::Enum(vs) => {
            let ghost want = text::str_views(vs@).map_values(|v: Seq<char>| JsonOutView::Str(v));
            let mut out: Vec<JsonOut> = Vec::new();
            let mut i: usize = 0;
            while i < vs.len()
                invariant
                    i <= vs.len(),
                    want == text::str_views(vs@).map_values(|v: Seq<char>| JsonOutView::Str(v)),
                    outs_view(out@) == want.take(i as int),
                decreases vs.len() - i,
            {
                let ghost o0 = out@;
                out.push(JsonOut::Str(vs[i].clone()));
                assert(out@.drop_last() =~= o0);
                assert(outs_view(out@) == outs_view(o0).push(out_view(out@.last())));
                assert(want[i as int] == JsonOutView::Str(vs@[i as int]@));
                assert(want.take(i + 1) =~= want.take(i as int).push(want[i as int]));
                i = i + 1;
            }
            assert(want.take(vs.len() as int) =~= want);
            JsonOut::Array(out)
        },
        FieldDefault::Ref(r) => {
            let mut c: Vec<char> = Vec::new();
            c.push('@');
            text::append_string(&mut c, r);
            JsonOut::Str(text::to_string(&c))
        },
        FieldDefault::List => {
            let out: Vec<JsonOut> = Vec::new();
            JsonOut::Array(out)
        },
        FieldDefault::Timestamp(t) => JsonOut::Str(t.clone()),
    }
}

/// A schema's fields as a JSON object.
pub fn define_to_json(d: &Define) -> (r: JsonOut)
    ensures
        out_view(r) == JsonOutView::Object(define_fields_json(d.fields@)),
{
    let fs = &d.fields;
    let mut m: Vec<(String, JsonOut)> = Vec::new();
    let mut i: usize = 0;
    assert(entries_view(m@) =~= define_fields_json(fs@.take(0)));
    while i < fs.len()
        invariant
            i <= fs.len(),
            fs == &d.fields,
            entries_view(m@) == define_fields_json(fs@.take(i as int)),
        decreases fs.len() - i,
    {
        let v = field_default_to_json(&fs[i].default);
        insert_entry(&mut m, fs[i].name.clone(), v);
        assert(fs@.take(i + 1).drop_last() =~= fs@.take(i as int));
        i = i + 1;
    }
    assert(fs@.take(fs.len() as int) =~= fs@);
    JsonOut::Object(m)
}

pub open spec fn defs_view(ds: Seq<(String, Vec<JsonOut>)>) -> Seq<(Seq<char>, Seq<JsonOutView>)> {
    ds.map_values(|e: (String, Vec<JsonOut>)| (e.0@, outs_view(e.1@)))
}

proof fn lemma_add_define_at(
    ds: Seq<(Seq<char>, Seq<JsonOutView>)>,
    e: Seq<char>,
    obj: JsonOutView,
    i: int,
)
    requires
        0 <= i <= ds.len(),
        forall|j: int| 0 <= j < i ==> (#[trigger] ds[j]).0 != e,
        i < ds.len() ==> ds[i].0 == e,
    ensures
        i < ds.len() ==> add_define(ds, e, obj) == ds.update(i, (e, ds[i].1.push(obj))),
        i == ds.len() ==> add_define(ds, e, obj) == ds.push((e, seq![obj])),
    decreases i,
{
    if i > 0 {
        let t = ds.drop_first();
        assert forall|j: int| 0 <= j < i - 1 implies (#[trigger] t[j]).0 != e by {
            assert(t[j] == ds[j + 1]);
        }
        lemma_add_define_at(t, e, obj, i - 1);
        if i < ds.len() {
            assert(seq![ds[0]] + t.update(i - 1, (e, t[i - 1].1.push(obj))) =~= ds.update(
                i,
                (e, ds[i].1.push(obj)),
            ));
        } else {
            assert(seq![ds[0]] + t.push((e, seq![obj])) =~= ds.push((e, seq![obj])));
        }
    } else if ds.len() == 0 {
        assert(seq![(e, seq![obj])] =~= ds.push((e, seq![obj])));
    }
}

fn add_define_exec(ds: &mut Vec<(String, Vec<JsonOut>)>, e: String, obj: JsonOut)
    ensures
        defs_view(final(ds)@) == add_define(defs_view(old(ds)@), e@, out_view(obj)),
{
    let ghost dv = defs_view(ds@);
    let ec = text::string_chars(&e);
    let mut i: usize = 0;
    while i < ds.len()
        invariant_except_break
            i <= ds.len(),
            dv == defs_view(ds@),
            ec@ == e@,
            forall|j: int| 0 <= j < i ==> (#[trigger] dv[j]).0 != e@,
        ensures
            i <= ds.len(),
            dv == defs_view(ds@),
            forall|j: int| 0 <= j < i ==> (#[trigger] dv[j]).0 != e@,
            i < ds.len() ==> dv[i as int].0 == e@,
        decreases ds.len() - i,
    {
        if text::eq(&text::string_chars(&ds[i].0), &ec) {
            break;
        }
        i = i + 1;
    }
    proof {
        lemma_add_define_at(dv, e@, out_view(obj), i as int);
    }
    let ghost ov = out_view(obj);
    if i < ds.len() {
        let (key, items) = ds.remove(i);
        let mut items = items;
        let ghost i0 = items@;
        items.push(obj);
        assert(items@.drop_last() =~= i0);
        ds.insert(i, (key, items));
        assert(defs_view(ds@) =~= dv.update(i as int, (e@, dv[i as int].1.push(ov))));
    } else {
        let mut items: Vec<JsonOut> = Vec::new();
        items.push(obj);
        assert(outs_view(items@) =~= seq![ov]) by {
            lemma_outs_view(items@);
        }
        let ghost ev = e@;
        ds.push((e, items));
        assert(defs_view(ds@) =~= dv.push((ev, seq![ov])));
    }
}

pub open spec fn merged_value(items: Seq<JsonOutView>) -> JsonOutView {
    if items.len() == 1 {
        items[0]
    } else {
        JsonOutView::Array(items)
    }
}

proof fn lemma_merge_front(m: JsonMap, x: (Seq<char>, Seq<JsonOutView>), rest: Seq<(Seq<char>, Seq<JsonOutView>)>)
    ensures
        merge_defines(m, seq![x] + rest) == merge_defines(
            crate::ir::fields_insert(m, x.0, merged_value(x.1)),
            rest,
        ),
    decreases rest.len(),
{
    let s = seq![x] + rest;
    if rest.len() == 0 {
        assert(s =~= seq![x]);
        assert(s.drop_last() =~= Seq::<(Seq<char>, Seq<JsonOutView>)>::empty());
        assert(s.last() == x);
        assert(merge_defines(m, s.drop_last()) == m);
    } else {
        assert(s.drop_last() =~= seq![x] + rest.drop_last());
        assert(s.last() == rest.last());
        lemma_merge_front(m, x, rest.drop_last());
    }
}

fn merge_defines_exec(m: &mut Vec<(String, JsonOut)>, ds: Vec<(String, Vec<JsonOut>)>)
    ensures
        entries_view(final(m)@) == merge_defines(entries_view(old(m)@), defs_view(ds@)),
{
    let ghost target = merge_defines(entries_view(m@), defs_view(ds@));
    let mut ds = ds;
    while ds.len() > 0
        invariant
            merge_defines(entries_view(m@), defs_view(ds@)) == target,
        decreases ds.len(),
    {
        let ghost dv = defs_view(ds@);
        let (e, items) = ds.remove(0);
        proof {
            assert(dv =~= seq![dv[0]] + defs_view(ds@));
            lemma_merge_front(entries_view(m@), dv[0], defs_view(ds@));
            lemma_outs_view(items@);
        }
        let v = if items.len() == 1 {
            let mut items = items;
            items.pop().unwrap()
        } else {
            JsonOut::Array(items)
        };
        insert_entry(m, e, v);
    }
    assert(defs_view(ds@) =~= Seq::<(Seq<char>, Seq<JsonOutView>)>::empty());
}

/// The JSON object of some nodes: groups as nested objects, tasks, prose
/// and code blocks in arrays under `tasks`, `prose` and `code_blocks`, and
/// schemas under their entity names (several of one entity as an array).
pub fn nodes_to_json_value(nodes: &Vec<Node>) -> (r: JsonOut)
    ensures
        out_view(r) == JsonOutView::Object(json_object(nodes@)),
    decreases nodes@,
{
    let mut m: Vec<(String, JsonOut)> = Vec::new();
    let mut ds: Vec<(String, Vec<JsonOut>)> = Vec::new();
    let mut i: usize = 0;
    assert(nodes@.take(0) =~= Seq::<Node>::empty());
    assert(entries_view(m@) =~= Seq::<(Seq<char>, JsonOutView)>::empty());
    assert(defs_view(ds@) =~= Seq::<(Seq<char>, Seq<JsonOutView>)>::empty());
    while i < nodes.len()
        invariant
            i <= nodes.len(),
            (entries_view(m@), defs_view(ds@)) == json_fold(nodes@.take(i as int)),
        decreases nodes.len() - i,
    {
        proof {
            crate::ir::lemma_take_step(nodes@, i as int);
        }
        match &nodes[i] {
            Node::Define(d) => {
                let obj = define_to_json(d);
                add_define_exec(&mut ds, d.entity.clone(), obj);
            },
            Node::Group(g) => {
                proof {
                    assert(decreases_to!(nodes@ => nodes@[i as int]));
                }
                let v = nodes_to_json_value(&g.children);
                insert_entry(&mut m, g.name.clone(), v);
            },
            Node::Task(t) => {
                let status = match t.marker.kind {
                    TaskKind::Completed => "completed",
                    TaskKind::Required => "pending",
                    TaskKind::Optional => "optional",
                    TaskKind::Open => "open",
                };
                let mut obj: Vec<(String, JsonOut)> = Vec::new();
                obj.push(("status".to_owned(), JsonOut::Str(status.to_owned())));
                obj.push(("text".to_owned(), JsonOut::Str(t.text.clone())));
                proof {
                    lemma_entries_view(obj@);
                    assert(entries_view(obj@) =~= seq![
                        ("status"@, JsonOutView::Str(task_status_json(t.marker.kind))),
                        ("text"@, JsonOutView::Str(t.text@)),
                    ]);
                }
                push_to_array_exec(&mut m, "tasks", JsonOut::Object(obj));
            },
            Node::Prose(p) => {
                push_to_array_exec(&mut m, "prose", JsonOut::Str(p.text.clone()));
            },
            Node::CodeBlock(cb) => {
                let mut obj: Vec<(String, JsonOut)> = Vec::new();
                obj.push(("content".to_owned(), JsonOut::Str(cb.content.clone())));
                match &cb.lang {
                    Some(l) => {
                        obj.push(("lang".to_owned(), JsonOut::Str(l.clone())));
                    },
                    None => {},
                }
                proof {
                    lemma_entries_view(obj@);
                    match &cb.lang {
                        Some(l) => {
                            assert(entries_view(obj@) =~= seq![
                                ("content"@, JsonOutView::Str(cb.content@)),
                                ("lang"@, JsonOutView::Str(l@)),
                            ]);
                        },
                        None => {
                            assert(entries_view(obj@) =~= seq![("content"@, JsonOutView::Str(cb.content@))]);
                        },
                    }
                }
                push_to_array_exec(&mut m, "code_blocks", JsonOut::Object(obj));
            },
            _ => {},
        }
        i = i + 1;
    }
    assert(nodes@.take(nodes.len() as int) =~= nodes@);
    merge_defines_exec(&mut m, ds);
    JsonOut::Object(m)
}

} // verus!
