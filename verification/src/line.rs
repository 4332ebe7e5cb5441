//! Line-level pieces of the .bit grammar: comments, task markers, gates,
//! atoms, field definitions, variables, entity scopes and flow edges.
use crate::text;
use crate::text::{contains, find, split_once, starts_with, trim};
use crate::types::{
    Atom, Compute, FieldDef, FieldDefault, FlowEdge, Gate, Priority, TaskKind, TaskMarker, TaskPrefix, VarValue,
    Variable,
};
use vstd::prelude::*;

verus! {

// ── Comments ─────────────────────────────────────────────────────

/// Scans for a `//` that starts a comment: outside a double-quoted string
/// (where `\` escapes the next character) and outside a `|...|` expression.
pub open spec fn comment_scan(s: Seq<char>, i: int, in_string: bool, in_pipe: bool) -> Option<int>
    decreases s.len() + 1 - i,
{
    if i < 0 || i >= s.len() {
        None
    } else {
        let c = s[i];
        if c == '\\' && in_string {
            comment_scan(s, i + 2, in_string, in_pipe)
        } else if c == '"' {
            comment_scan(s, i + 1, !in_string, in_pipe)
        } else if c == '|' && !in_string {
            comment_scan(s, i + 1, in_string, !in_pipe)
        } else if c == '/' && !in_string && !in_pipe && i + 1 < s.len() && s[i + 1] == '/' {
            Some(i)
        } else {
            comment_scan(s, i + 1, in_string, in_pipe)
        }
    }
}

pub open spec fn find_comment_start_spec(s: Seq<char>) -> Option<int> {
    comment_scan(s, 0, false, false)
}

pub fn find_comment_start(s: &Vec<char>) -> (r: Option<usize>)
    ensures
        r matches Some(k) ==> find_comment_start_spec(s@) == Some(k as int) && k < s@.len(),
        r is None ==> find_comment_start_spec(s@) is None,
{
    let mut in_string = false;
    let mut in_pipe = false;
    let mut i: usize = 0;
    while i < s.len()
        invariant
            find_comment_start_spec(s@) == comment_scan(s@, i as int, in_string, in_pipe),
        decreases s.len() - i,
    {
        let c = s[i];
        if c == '\\' && in_string {
            if s.len() - i < 2 {
                assert(comment_scan(s@, i + 2, in_string, in_pipe) is None);
                return None;
            }
            i = i + 2;
        } else {
            if c == '"' {
                in_string = !in_string;
            } else if c == '|' && !in_string {
                in_pipe = !in_pipe;
            } else if c == '/' && !in_string && !in_pipe && i + 1 < s.len() && s[i + 1] == '/' {
                return Some(i);
            }
            i = i + 1;
        }
    }
    None
}

/// The line without a trailing comment (and the whitespace before it).
pub open spec fn strip_comment_spec(s: Seq<char>) -> Seq<char> {
    match find_comment_start_spec(s) {
        Some(i) => text::trim_end(s.take(i)),
        None => s,
    }
}

pub fn strip_comment(s: &Vec<char>) -> (r: Vec<char>)
    ensures
        r@ == strip_comment_spec(s@),
{
    match find_comment_start(s) {
        Some(i) => text::trim_end_chars(&text::slice_of(s, 0, i)),
        None => s.clone(),
    }
}

// ── Task markers ─────────────────────────────────────────────────

/// Whether a trimmed line is a task: `[..]` after optional `+`/`-` prefixes.
pub open spec fn is_task_line_spec(t: Seq<char>) -> bool {
    let s = text::trim_start_matches(text::trim_start_matches(t, "+"@), "-"@);
    starts_with(s, "["@) && contains(s, "]"@)
}

pub fn is_task_line(t: &Vec<char>) -> (b: bool)
    ensures
        b == is_task_line_spec(t@),
{
    let a = text::trim_start_matches_str(t, "+");
    let s = text::trim_start_matches_str(&a, "-");
    text::starts_with_str(&s, "[") && text::contains_str(&s, "]")
}

/// The meaning of the text between a task's brackets:
/// label, kind, priority and sequence number.
pub open spec fn bracket_content_spec(inside: Seq<char>) -> (
    Option<Seq<char>>,
    TaskKind,
    Priority,
    Option<u32>,
) {
    let t = trim(inside);
    if t.len() == 0 {
        (None, TaskKind::Open, Priority::Unset, None)
    } else if t == "!"@ {
        (None, TaskKind::Required, Priority::Required, None)
    } else if t == "o"@ {
        (None, TaskKind::Optional, Priority::Optional, None)
    } else if t == "x"@ {
        (None, TaskKind::Completed, Priority::Unset, None)
    } else {
        let last = t.last();
        let has_bang = last == '!';
        let has_o = last == 'o' && t.len() > 1;
        let has_q = last == '?';
        let prefix = t.drop_last();
        if text::parse_u32(t) is Some {
            (None, TaskKind::Open, Priority::Unset, text::parse_u32(t))
        } else if t.len() >= 2 && text::parse_u32(prefix) is Some && has_bang {
            (None, TaskKind::Required, Priority::Required, text::parse_u32(prefix))
        } else if t.len() >= 2 && text::parse_u32(prefix) is Some && has_o {
            (None, TaskKind::Optional, Priority::Optional, text::parse_u32(prefix))
        } else if has_bang {
            (Some(prefix), TaskKind::Required, Priority::Required, None)
        } else if has_q {
            (Some(prefix), TaskKind::Open, Priority::Decision, None)
        } else if has_o && !text::all_digits(prefix) {
            (Some(prefix), TaskKind::Optional, Priority::Optional, None)
        } else {
            (Some(t), TaskKind::Open, Priority::Unset, None)
        }
    }
}

pub open spec fn opt_view(o: Option<Vec<char>>) -> Option<Seq<char>> {
    match o {
        Some(v) => Some(v@),
        None => None,
    }
}

pub open spec fn opt_str_view(o: Option<String>) -> Option<Seq<char>> {
    match o {
        Some(v) => Some(v@),
        None => None,
    }
}

fn all_digits_exec(s: &Vec<char>) -> (b: bool)
    ensures
        b == text::all_digits(s@),
{
    let mut i: usize = 0;
    while i < s.len()
        invariant
            i <= s.len(),
            forall|j: int| 0 <= j < i ==> text::is_digit(#[trigger] s@[j]),
        decreases s.len() - i,
    {
        if !('0' <= s[i] && s[i] <= '9') {
            assert(!text::is_digit(s@[i as int]));
            return false;
        }
        i = i + 1;
    }
    true
}

pub fn parse_bracket_content(inside: &Vec<char>) -> (r: (
    Option<Vec<char>>,
    TaskKind,
    Priority,
    Option<u32>,
))
    ensures
        ({
            let (l, k, p, n) = bracket_content_spec(inside@);
            &&& opt_view(r.0) == l
            &&& r.1 == k
            &&& r.2 == p
            &&& r.3 == n
        }),
{
    let t = text::trim_chars(inside);
    if t.len() == 0 {
        return (None, TaskKind::Open, Priority::Unset, None);
    }
    if text::eq_str(&t, "!") {
        return (None, TaskKind::Required, Priority::Required, None);
    }
    if text::eq_str(&t, "o") {
        return (None, TaskKind::Optional, Priority::Optional, None);
    }
    if text::eq_str(&t, "x") {
        return (None, TaskKind::Completed, Priority::Unset, None);
    }
    let last = t[t.len() - 1];
    let has_bang = last == '!';
    let has_o = last == 'o' && t.len() > 1;
    let has_q = last == '?';
    let prefix = text::slice_of(&t, 0, t.len() - 1);
    assert(prefix@ =~= t@.drop_last());
    if let Some(n) = text::parse_u32_chars(&t) {
        return (None, TaskKind::Open, Priority::Unset, Some(n));
    }
    if t.len() >= 2 {
        if let Some(n) = text::parse_u32_chars(&prefix) {
            if has_bang {
                return (None, TaskKind::Required, Priority::Required, Some(n));
            }
            if has_o {
                return (None, TaskKind::Optional, Priority::Optional, Some(n));
            }
        }
    }
    if has_bang {
        return (Some(prefix), TaskKind::Required, Priority::Required, None);
    }
    if has_q {
        return (Some(prefix), TaskKind::Open, Priority::Decision, None);
    }
    if has_o && !all_digits_exec(&prefix) {
        return (Some(prefix), TaskKind::Optional, Priority::Optional, None);
    }
    (Some(t), TaskKind::Open, Priority::Unset, None)
}

/// The prefix of a task line (`++`, `+`, or a run of `-`) and the text after
/// it.
pub open spec fn task_prefix_spec(text: Seq<char>) -> (TaskPrefix, Seq<char>) {
    let dashes = text::lead_count(text, text::char_pred('-'));
    if starts_with(text, "++"@) && starts_with(text.skip(2), "["@) {
        (TaskPrefix::ParallelSubtask, text.skip(2))
    } else if starts_with(text, "+"@) && starts_with(text.skip(1), "["@) {
        (TaskPrefix::Parallel, text.skip(1))
    } else if dashes > 0 && text.len() > dashes && text[dashes as int] == '[' {
        (TaskPrefix::Subtask(dashes as u8), text.skip(dashes as int))
    } else {
        (TaskPrefix::Unset, text)
    }
}

/// A parsed task marker: the marker, its label, and the text after it.
pub open spec fn task_marker_spec(text: Seq<char>) -> Option<(TaskMarker, Option<Seq<char>>, Seq<char>)> {
    let (prefix, s) = task_prefix_spec(text);
    if !starts_with(s, "["@) {
        None
    } else {
        match find(s, "]"@) {
            Some(end) => {
                let (label, kind, priority, seq) = bracket_content_spec(s.subrange(1, end));
                Some(
                    (
                        TaskMarker { kind, priority, prefix, seq },
                        label,
                        text::trim_start(s.skip(end + 1)),
                    ),
                )
            },
            None => None,
        }
    }
}

pub fn parse_task_marker(t: &Vec<char>) -> (r: Option<(TaskMarker, Option<Vec<char>>, Vec<char>)>)
    ensures
        r matches Some((m, l, rest)) ==> task_marker_spec(t@) == Some((m, opt_view(l), rest@)),
        r is None ==> task_marker_spec(t@) is None,
{
    let mut s = t.clone();
    let mut prefix = TaskPrefix::Unset;
    let mut dashes: usize = 0;
    while dashes < t.len() && t[dashes] == '-'
        invariant
            dashes <= t.len(),
            forall|j: int| 0 <= j < dashes ==> #[trigger] text::char_pred('-')(t@[j]),
        decreases t.len() - dashes,
    {
        dashes = dashes + 1;
    }
    proof {
        text::lemma_lead_count(t@, text::char_pred('-'), dashes as int);
        reveal_strlit("++");
        reveal_strlit("+");
    }
    let two = text::starts_with_str(t, "++") && {
        let a = text::slice_of(t, 2, t.len());
        text::starts_with_str(&a, "[")
    };
    let one = text::starts_with_str(t, "+") && {
        let a = text::slice_of(t, 1, t.len());
        text::starts_with_str(&a, "[")
    };
    if two {
        prefix = TaskPrefix::ParallelSubtask;
        s = text::slice_of(t, 2, t.len());
    } else if one {
        prefix = TaskPrefix::Parallel;
        s = text::slice_of(t, 1, t.len());
    } else if dashes > 0 && t.len() > dashes && t[dashes] == '[' {
        prefix = TaskPrefix::Subtask(dashes as u8);
        s = text::slice_of(t, dashes, t.len());
    }
    assert(task_prefix_spec(t@) == (prefix, s@));
    if !text::starts_with_str(&s, "[") {
        return None;
    }
    match text::find_str(&s, "]") {
        Some(end) => {
            proof {
                reveal_strlit("[");
                reveal_strlit("]");
                text::lemma_find_from(s@, "]"@, 0);
                if end == 0 {
                    assert(s@.take(1) =~= "["@);
                    assert(s@.subrange(0, 1) =~= "]"@);
                    assert(("["@)[0] == '[');
                    assert(s@.take(1)[0] == s@[0]);
                    assert(s@.subrange(0, 1)[0] == s@[0]);
                    assert(("]"@)[0] == ']');
                }
            }
            let inside = text::slice_of(&s, 1, end);
            let (label, kind, priority, seq) = parse_bracket_content(&inside);
            let rest = text::trim_start_chars(&text::slice_of(&s, end + 1, s.len()));
            proof {
                assert(s@.subrange(end + 1, s@.len() as int) =~= s@.skip(end + 1));
            }
            Some((TaskMarker { kind, priority, prefix, seq }, label, rest))
        },
        None => None,
    }
}

// ── Gates ────────────────────────────────────────────────────────

/// Position of the `}` that closes the `{` at or after `i`, with `depth`
/// braces already open.
pub open spec fn brace_match(s: Seq<char>, i: int, depth: int) -> Option<int>
    decreases s.len() - i,
{
    if i < 0 || i >= s.len() {
        None
    } else if s[i] == '{' {
        brace_match(s, i + 1, depth + 1)
    } else if s[i] == '}' {
        if depth - 1 == 0 {
            Some(i)
        } else {
            brace_match(s, i + 1, depth - 1)
        }
    } else {
        brace_match(s, i + 1, depth)
    }
}

pub proof fn lemma_brace_match(s: Seq<char>, i: int, depth: int)
    requires
        0 <= i,
    ensures
        brace_match(s, i, depth) matches Some(k) ==> i <= k < s.len(),
    decreases s.len() - i,
{
    if i < s.len() {
        lemma_brace_match(s, i + 1, depth + 1);
        lemma_brace_match(s, i + 1, depth - 1);
        lemma_brace_match(s, i + 1, depth);
    }
}

/// `find_matching_brace`: the closing brace of the group opened at `start`.
pub fn find_matching_brace(s: &Vec<char>, start: usize) -> (r: Option<usize>)
    requires
        start < s@.len(),
        s@[start as int] == '{',
    ensures
        r matches Some(k) ==> brace_match(s@, start as int, 0) == Some(k as int) && start < k
            < s@.len(),
        r is None ==> brace_match(s@, start as int, 0) is None,
{
    let n = s.len();
    let mut depth: usize = 1;
    let mut i: usize = start + 1;
    while i < s.len()
        invariant
            start < i,
            1 <= depth <= i - start,
            brace_match(s@, start as int, 0) == brace_match(s@, i as int, depth as int),
        decreases s.len() - i,
    {
        if s[i] == '{' {
            depth = depth + 1;
        } else if s[i] == '}' {
            if depth == 1 {
                proof {
                    lemma_brace_match(s@, start as int, 0);
                }
                return Some(i);
            }
            depth = depth - 1;
        }
        i = i + 1;
    }
    None
}

/// The gates `{name body}` of a line, left to right.
pub open spec fn gates_spec(s: Seq<char>) -> Seq<(Seq<char>, Option<Seq<char>>)>
    decreases s.len(),
{
    match find(s, "{"@) {
        Some(start) => match brace_match(s, start, 0) {
            Some(end) => if 0 <= start < end < s.len() {
                seq![gate_of(s.subrange(start + 1, end))] + gates_spec(s.skip(end + 1))
            } else {
                Seq::empty()
            },
            None => Seq::empty(),
        },
        None => Seq::empty(),
    }
}

/// The name (first word) and the trimmed remainder of a gate's inner text.
pub open spec fn gate_of(inner: Seq<char>) -> (Seq<char>, Option<Seq<char>>) {
    let words = text::split_ws(inner);
    let name = if words.len() > 0 {
        words[0]
    } else {
        inner
    };
    (
        name,
        if inner.len() > name.len() {
            Some(trim(inner.skip(name.len() as int)))
        } else {
            None
        },
    )
}

pub open spec fn gate_view(g: Gate) -> (Seq<char>, Option<Seq<char>>) {
    (g.name@, opt_str_view(g.body))
}

fn gate_from_inner(inner: &Vec<char>) -> (g: Gate)
    ensures
        gate_view(g) == gate_of(inner@),
{
    let words = text::split_whitespace(inner);
    let name = if words.len() > 0 {
        words[0].clone()
    } else {
        inner.clone()
    };
    assert(name@ == (if text::split_ws(inner@).len() > 0 {
        text::split_ws(inner@)[0]
    } else {
        inner@
    }));
    let body = if inner.len() > name.len() {
        Some(text::to_string(&text::trim_chars(&text::slice_of(inner, name.len(), inner.len()))))
    } else {
        None
    };
    Gate { name: text::to_string(&name), body }
}

pub fn extract_gates(t: &Vec<char>) -> (r: Vec<Gate>)
    ensures
        r@.map_values(|g: Gate| gate_view(g)) == gates_spec(t@),
{
    let mut out: Vec<Gate> = Vec::new();
    let mut s = t.clone();
    loop
        invariant
            out@.map_values(|g: Gate| gate_view(g)) + gates_spec(s@) == gates_spec(t@),
        decreases s@.len(),
    {
        match text::find_char(&s, '{') {
            Some(start) => {
                proof {
                    reveal_strlit("{");
                    assert(seq!['{'] =~= "{"@);
                    text::lemma_find_from(s@, seq!['{'], 0);
                    assert(s@.subrange(start as int, start + 1)[0] == s@[start as int]);
                }
                match find_matching_brace(&s, start) {
                    Some(end) => {
                        let inner = text::slice_of(&s, start + 1, end);
                        let g = gate_from_inner(&inner);
                        let rest = text::slice_of(&s, end + 1, s.len());
                        let ghost o = out@;
                        out.push(g);
                        proof {
                            assert(rest@ =~= s@.skip(end + 1));
                            assert(out@.map_values(|g: Gate| gate_view(g)) =~= o.map_values(
                                |g: Gate| gate_view(g),
                            ).push(gate_view(g)));
                            assert(out@.map_values(|g: Gate| gate_view(g)) + gates_spec(rest@)
                                =~= o.map_values(|g: Gate| gate_view(g)) + gates_spec(s@));
                        }
                        s = rest;
                    },
                    None => {
                        assert(out@.map_values(|g: Gate| gate_view(g)) =~= out@.map_values(
                            |g: Gate| gate_view(g),
                        ) + gates_spec(s@));
                        return out;
                    },
                }
            },
            None => {
                proof {
                    reveal_strlit("{");
                    assert(seq!['{'] =~= "{"@);
                }
                assert(out@.map_values(|g: Gate| gate_view(g)) =~= out@.map_values(
                    |g: Gate| gate_view(g),
                ) + gates_spec(s@));
                return out;
            },
        }
    }
}

/// The line with every `{...}` group removed.
pub open spec fn remove_gates_spec(s: Seq<char>) -> Seq<char>
    decreases s.len(),
{
    match find(s, "{"@) {
        Some(start) => match brace_match(s, start, 0) {
            Some(end) => if 0 <= start < end < s.len() {
                remove_gates_spec(s.take(start) + s.skip(end + 1))
            } else {
                s
            },
            None => s,
        },
        None => s,
    }
}

pub fn remove_gates(t: &Vec<char>) -> (r: Vec<char>)
    ensures
        r@ == remove_gates_spec(t@),
{
    let mut s = t.clone();
    loop
        invariant
            remove_gates_spec(s@) == remove_gates_spec(t@),
        decreases s@.len(),
    {
        match text::find_char(&s, '{') {
            Some(start) => {
                proof {
                    reveal_strlit("{");
                    assert(seq!['{'] =~= "{"@);
                    text::lemma_find_from(s@, seq!['{'], 0);
                    assert(s@.subrange(start as int, start + 1)[0] == s@[start as int]);
                }
                match find_matching_brace(&s, start) {
                    Some(end) => {
                        let mut next = text::slice_of(&s, 0, start);
                        text::append(&mut next, &text::slice_of(&s, end + 1, s.len()));
                        proof {
                            assert(next@ =~= s@.take(start as int) + s@.skip(end + 1));
                        }
                        s = next;
                    },
                    None => {
                        return s;
                    },
                }
            },
            None => {
                proof {
                    reveal_strlit("{");
                    assert(seq!['{'] =~= "{"@);
                }
                return s;
            },
        }
    }
}


// ── Closing references ──────────────────────────────────────────

/// `git:closes #N` removed from the text, with `N`.
pub open spec fn closes_spec(t: Seq<char>) -> (Seq<char>, Option<u32>) {
    match find(t, "git:closes #"@) {
        Some(pos) => {
            let after = t.skip(pos + 12);
            let n = text::lead_count(after, digit_pred());
            match text::parse_u32(after.take(n as int)) {
                Some(v) => (t.take(pos) + t.skip(pos + 12 + n), Some(v)),
                None => (t, None),
            }
        },
        None => (t, None),
    }
}

pub open spec fn digit_pred() -> spec_fn(char) -> bool {
    |c: char| text::is_digit(c)
}

pub fn extract_closes(t: &Vec<char>) -> (r: (Vec<char>, Option<u32>))
    ensures
        r.0@ == closes_spec(t@).0,
        r.1 == closes_spec(t@).1,
{
    match text::find_str(t, "git:closes #") {
        Some(pos) => {
            proof {
                reveal_strlit("git:closes #");
                text::lemma_find_from(t@, "git:closes #"@, 0);
            }
            let tl = t.len();
            let after = text::slice_of(t, pos + 12, tl);
            let mut n: usize = 0;
            while n < after.len() && '0' <= after[n] && after[n] <= '9'
                invariant
                    n <= after.len(),
                    forall|j: int| 0 <= j < n ==> #[trigger] digit_pred()(after@[j]),
                decreases after.len() - n,
            {
                n = n + 1;
            }
            proof {
                text::lemma_lead_count(after@, digit_pred(), n as int);
                assert(after@ =~= t@.skip(pos + 12));
            }
            let digits = text::slice_of(&after, 0, n);
            match text::parse_u32_chars(&digits) {
                Some(v) => {
                    let mut cleaned = text::slice_of(t, 0, pos);
                    text::append(&mut cleaned, &text::slice_of(t, pos + 12 + n, t.len()));
                    proof {
                        assert(t@.subrange(pos + 12 + n, t@.len() as int) =~= t@.skip(
                            pos + 12 + n,
                        ));
                    }
                    (cleaned, Some(v))
                },
                None => (t.clone(), None),
            }
        },
        None => (t.clone(), None),
    }
}

// ── Names and atoms ─────────────────────────────────────────────

/// Words that carry a time or trigger value and so are atoms.
pub open spec fn is_timed_word(w: Seq<char>) -> bool {
    ||| starts_with(w, "on:"@)
    ||| starts_with(w, "routine:"@)
    ||| starts_with(w, "due:"@)
    ||| starts_with(w, "deadline:"@)
    ||| starts_with(w, "timebox:"@)
    ||| starts_with(w, "available:"@)
    ||| starts_with(w, "blackout:"@)
}

/// What one word contributes: a name part, an atom, or nothing.
pub enum WordRole {
    NamePart(Seq<char>),
    AtomOf(Seq<char>, Option<Seq<char>>),
    Skip,
}

pub open spec fn word_role(w: Seq<char>) -> WordRole {
    if starts_with(w, ":"@) {
        let a = w.skip(1);
        match split_once(a, ":"@) {
            Some((k, v)) => WordRole::AtomOf(k, Some(v)),
            None => WordRole::AtomOf(a, None),
        }
    } else if !is_timed_word(w) {
        WordRole::NamePart(w)
    } else {
        match split_once(w, ":"@) {
            Some((k, v)) => WordRole::AtomOf(k, Some(v)),
            None => WordRole::Skip,
        }
    }
}

/// Name parts and atoms of a list of words.
pub open spec fn name_atoms_of(words: Seq<Seq<char>>) -> (Seq<Seq<char>>, Seq<(Seq<char>, Option<Seq<char>>)>)
    decreases words.len(),
{
    if words.len() == 0 {
        (Seq::empty(), Seq::empty())
    } else {
        let (ns, ats) = name_atoms_of(words.drop_last());
        match word_role(words.last()) {
            WordRole::NamePart(n) => (ns.push(n), ats),
            WordRole::AtomOf(k, v) => (ns, ats.push((k, v))),
            WordRole::Skip => (ns, ats),
        }
    }
}

/// The name (space-joined name words) and the atoms of a header.
pub open spec fn name_and_atoms_spec(t: Seq<char>) -> (Seq<char>, Seq<(Seq<char>, Option<Seq<char>>)>) {
    let (ns, ats) = name_atoms_of(text::split_ws(t));
    (text::join(ns, " "@), ats)
}

pub open spec fn atom_view(a: Atom) -> (Seq<char>, Option<Seq<char>>) {
    (a.name@, opt_str_view(a.value))
}

pub open spec fn atoms_view(v: Seq<Atom>) -> Seq<(Seq<char>, Option<Seq<char>>)> {
    v.map_values(|a: Atom| atom_view(a))
}

fn is_timed_word_exec(w: &Vec<char>) -> (b: bool)
    ensures
        b == is_timed_word(w@),
{
    text::starts_with_str(w, "on:") || text::starts_with_str(w, "routine:")
        || text::starts_with_str(w, "due:") || text::starts_with_str(w, "deadline:")
        || text::starts_with_str(w, "timebox:") || text::starts_with_str(w, "available:")
        || text::starts_with_str(w, "blackout:")
}

pub fn parse_name_and_atoms(t: &Vec<char>) -> (r: (Vec<char>, Vec<Atom>))
    ensures
        r.0@ == name_and_atoms_spec(t@).0,
        atoms_view(r.1@) == name_and_atoms_spec(t@).1,
{
    let words = text::split_whitespace(t);
    let mut names: Vec<Vec<char>> = Vec::new();
    let mut atoms: Vec<Atom> = Vec::new();
    let mut i: usize = 0;
    while i < words.len()
        invariant
            i <= words.len(),
            text::views(words@) == text::split_ws(t@),
            (text::views(names@), atoms_view(atoms@)) == name_atoms_of(
                text::views(words@).take(i as int),
            ),
        decreases words.len() - i,
    {
        let w = &words[i];
        let ghost ws = text::views(words@);
        let ghost n0 = names@;
        let ghost a0 = atoms@;
        proof {
            assert(ws.take(i + 1).drop_last() =~= ws.take(i as int));
            assert(ws.take(i + 1).last() == w@);
        }
        if text::starts_with_str(w, ":") {
            proof {
                reveal_strlit(":");
            }
            let a = text::slice_of(w, 1, w.len());
            assert(a@ =~= w@.skip(1));
            match text::split_once_str(&a, ":") {
                Some((k, v)) => {
                    atoms.push(Atom { name: text::to_string(&k), value: Some(text::to_string(&v)) });
                },
                None => {
                    atoms.push(Atom { name: text::to_string(&a), value: None });
                },
            }
            assert(atoms_view(atoms@) =~= atoms_view(a0).push(atom_view(atoms@.last())));
        } else if !is_timed_word_exec(w) {
            let wc = w.clone();
            proof {
                text::lemma_views_push(names@, wc);
            }
            names.push(wc);
        } else {
            match text::split_once_str(w, ":") {
                Some((k, v)) => {
                    atoms.push(Atom { name: text::to_string(&k), value: Some(text::to_string(&v)) });
                    assert(atoms_view(atoms@) =~= atoms_view(a0).push(atom_view(atoms@.last())));
                },
                None => {},
            }
        }
        i = i + 1;
    }
    proof {
        assert(text::views(words@).take(words.len() as int) =~= text::views(words@));
    }
    let name = text::join_str(&names, " ");
    (name, atoms)
}

// ── Entity scope ────────────────────────────────────────────────

/// `$Mod.@Entity`, `@workspace:w.@Entity` or `@Entity`: the mod scope, the
/// workspace scope, and the text after the scope.
pub open spec fn entity_scope_spec(t: Seq<char>) -> (Option<Seq<char>>, Option<Seq<char>>, Seq<char>) {
    if starts_with(t, "$"@) && find(t, ".@"@) is Some {
        let d = find(t, ".@"@)->0;
        (Some(t.subrange(1, d)), None, t.skip(d + 2))
    } else if starts_with(t, "@workspace:"@) && find(t.skip(11), ".@"@) is Some {
        let a = t.skip(11);
        let d = find(a, ".@"@)->0;
        (None, Some(a.take(d)), a.skip(d + 2))
    } else if starts_with(t, "@"@) {
        (None, None, t.skip(1))
    } else {
        (None, None, t)
    }
}

pub fn extract_entity_scope(t: &Vec<char>) -> (r: (Option<Vec<char>>, Option<Vec<char>>, Vec<char>))
    ensures
        opt_view(r.0) == entity_scope_spec(t@).0,
        opt_view(r.1) == entity_scope_spec(t@).1,
        r.2@ == entity_scope_spec(t@).2,
{
    proof {
        reveal_strlit("$");
        reveal_strlit("@");
        reveal_strlit(".@");
        reveal_strlit("@workspace:");
    }
    if text::starts_with_str(t, "$") {
        if let Some(d) = text::find_str(t, ".@") {
            proof {
                text::lemma_find_from(t@, ".@"@, 0);
                if d == 0 {
                    assert(t@.take(1)[0] == t@[0]);
                    assert(t@.subrange(0, 2)[0] == t@[0]);
                    assert(("$"@)[0] == '$');
                    assert((".@"@)[0] == '.');
                }
            }
            let m = text::slice_of(t, 1, d);
            let rest = text::slice_of(t, d + 2, t.len());
            assert(rest@ =~= t@.skip(d + 2));
            return (Some(m), None, rest);
        }
    }
    if text::starts_with_str(t, "@workspace:") {
        let a = text::slice_of(t, 11, t.len());
        assert(a@ =~= t@.skip(11));
        if let Some(d) = text::find_str(&a, ".@") {
            proof {
                text::lemma_find_from(a@, ".@"@, 0);
            }
            let w = text::slice_of(&a, 0, d);
            let rest = text::slice_of(&a, d + 2, a.len());
            assert(rest@ =~= a@.skip(d + 2));
            return (None, Some(w), rest);
        }
    }
    if text::starts_with_str(t, "@") {
        let rest = text::slice_of(t, 1, t.len());
        assert(rest@ =~= t@.skip(1));
        return (None, None, rest);
    }
    (None, None, t.clone())
}

// ── Field definitions ───────────────────────────────────────────

/// ASCII letters folded to lower case.
pub open spec fn ascii_lower(c: char) -> char {
    if 'A' <= c <= 'Z' {
        ((c as u32) + 32) as char
    } else {
        c
    }
}

/// Equal to `word` (given in lower case) ignoring ASCII case.
pub open spec fn eq_ignore_case(s: Seq<char>, word: Seq<char>) -> bool {
    s.len() == word.len() && forall|i: int| 0 <= i < s.len() ==> ascii_lower(#[trigger] s[i]) == word[i]
}

/// Digits with at most one `.`, and at least one digit.
pub open spec fn is_mantissa(m: Seq<char>) -> bool {
    match find(m, "."@) {
        Some(d) => text::all_digits(m.take(d)) && text::all_digits(m.skip(d + 1)) && (d > 0
            || m.len() > d + 1),
        None => m.len() > 0 && text::all_digits(m),
    }
}

/// An optionally signed run of one or more digits.
pub open spec fn is_exponent(x: Seq<char>) -> bool {
    let y = if x.len() > 0 && (x[0] == '+' || x[0] == '-') {
        x.drop_first()
    } else {
        x
    };
    y.len() > 0 && text::all_digits(y)
}

/// Position of the first `e` or `E`.
pub open spec fn exp_pos(b: Seq<char>) -> Option<int> {
    match find(b, "e"@) {
        Some(i) => match find(b, "E"@) {
            Some(j) => Some(if i < j { i } else { j }),
            None => Some(i),
        },
        None => find(b, "E"@),
    }
}

/// The grammar that `f64::from_str` accepts: an optional sign, then `inf`,
/// `infinity` or `nan` in any case, or a decimal number with an optional
/// exponent.
pub open spec fn is_float_text(s: Seq<char>) -> bool {
    let b = if s.len() > 0 && (s[0] == '+' || s[0] == '-') {
        s.drop_first()
    } else {
        s
    };
    ||| eq_ignore_case(b, "inf"@)
    ||| eq_ignore_case(b, "infinity"@)
    ||| eq_ignore_case(b, "nan"@)
    ||| match exp_pos(b) {
        Some(e) => is_mantissa(b.take(e)) && is_exponent(b.skip(e + 1)),
        None => is_mantissa(b),
    }
}

fn ascii_lower_exec(c: char) -> (r: char)
    ensures
        r == ascii_lower(c),
{
    if 'A' <= c && c <= 'Z' {
        let n = (c as u32) + 32;
        proof {
            assert(0x61 <= n <= 0x7A);
        }
        char_from_ascii(n)
    } else {
        c
    }
}

/// The ASCII character with code `n`.
fn char_from_ascii(n: u32) -> (c: char)
    requires
        n < 128,
    ensures
        c == n as char,
{
    let b = n as u8;
    let c = b as char;
    assert(c == n as char);
    c
}

fn eq_ignore_case_exec(s: &Vec<char>, word: &str) -> (b: bool)
    ensures
        b == eq_ignore_case(s@, word@),
{
    let w = text::str_chars(word);
    if s.len() != w.len() {
        return false;
    }
    let mut i: usize = 0;
    while i < s.len()
        invariant
            i <= s.len(),
            s.len() == w.len(),
            w@ == word@,
            forall|j: int| 0 <= j < i ==> ascii_lower(#[trigger] s@[j]) == w@[j],
        decreases s.len() - i,
    {
        if ascii_lower_exec(s[i]) != w[i] {
            return false;
        }
        i = i + 1;
    }
    true
}

fn all_digits_range(s: &Vec<char>, from: usize, to: usize) -> (b: bool)
    requires
        from <= to <= s.len(),
    ensures
        b == text::all_digits(s@.subrange(from as int, to as int)),
{
    let t = text::slice_of(s, from, to);
    all_digits_exec(&t)
}

fn is_mantissa_exec(m: &Vec<char>) -> (b: bool)
    ensures
        b == is_mantissa(m@),
{
    match text::find_str(m, ".") {
        Some(d) => {
            proof {
                text::lemma_find_from(m@, "."@, 0);
                reveal_strlit(".");
            }
            let a = all_digits_range(m, 0, d);
            let b = all_digits_range(m, d + 1, m.len());
            assert(m@.subrange(0, d as int) =~= m@.take(d as int));
            assert(m@.subrange(d + 1, m@.len() as int) =~= m@.skip(d + 1));
            a && b && (d > 0 || m.len() > d + 1)
        },
        None => m.len() > 0 && all_digits_exec(m),
    }
}

fn is_exponent_exec(x: &Vec<char>) -> (b: bool)
    ensures
        b == is_exponent(x@),
{
    let from: usize = if x.len() > 0 && (x[0] == '+' || x[0] == '-') { 1 } else { 0 };
    assert(x@.subrange(from as int, x@.len() as int) =~= if x@.len() > 0 && (x@[0] == '+'
        || x@[0] == '-') {
        x@.drop_first()
    } else {
        x@
    });
    x.len() > from && all_digits_range(x, from, x.len())
}

pub fn is_float_text_exec(s: &Vec<char>) -> (r: bool)
    ensures
        r == is_float_text(s@),
{
    let from: usize = if s.len() > 0 && (s[0] == '+' || s[0] == '-') { 1 } else { 0 };
    let b = text::slice_of(s, from, s.len());
    assert(b@ =~= if s@.len() > 0 && (s@[0] == '+' || s@[0] == '-') {
        s@.drop_first()
    } else {
        s@
    });
    if eq_ignore_case_exec(&b, "inf") || eq_ignore_case_exec(&b, "infinity")
        || eq_ignore_case_exec(&b, "nan") {
        return true;
    }
    let e1 = text::find_str(&b, "e");
    let e2 = text::find_str(&b, "E");
    let e: Option<usize> = match e1 {
        Some(i) => match e2 {
            Some(j) => Some(if i < j { i } else { j }),
            None => Some(i),
        },
        None => e2,
    };
    match e {
        Some(k) => {
            proof {
                if e1 is Some {
                    text::lemma_find_from(b@, "e"@, 0);
                }
                if e2 is Some {
                    text::lemma_find_from(b@, "E"@, 0);
                }
                reveal_strlit("e");
                reveal_strlit("E");
            }
            let m = text::slice_of(&b, 0, k);
            let x = text::slice_of(&b, k + 1, b.len());
            assert(x@ =~= b@.skip(k + 1));
            is_mantissa_exec(&m) && is_exponent_exec(&x)
        },
        None => is_mantissa_exec(&b),
    }
}

/// The default value written after a field's colon.
pub open spec fn field_default_spec(value: Seq<char>) -> FieldDefaultView {
    let v = trim(value);
    if v == "nil"@ {
        FieldDefaultView::Nil
    } else if v == "true"@ || v == "false"@ {
        FieldDefaultView::Bool(v == "true"@)
    } else if v == "[]"@ {
        FieldDefaultView::List
    } else if v.len() >= 2 && starts_with(v, "\""@) && text::ends_with(v, "\""@) {
        FieldDefaultView::Str(v.subrange(1, v.len() - 1))
    } else if v.len() >= 2 && starts_with(v, "|"@) && text::ends_with(v, "|"@) {
        FieldDefaultView::Timestamp(v.subrange(1, v.len() - 1))
    } else if starts_with(v, "@"@) {
        FieldDefaultView::Ref(v.skip(1))
    } else if contains(v, "/"@) && starts_with(v, ":"@) {
        FieldDefaultView::Enum(
            text::split(v, "/"@).map_values(
                |o: Seq<char>| text::trim_start_matches(trim(o), ":"@),
            ),
        )
    } else if starts_with(v, ":"@) {
        FieldDefaultView::Atom(v.skip(1))
    } else if text::parse_i64(v) is Some {
        FieldDefaultView::Int(text::parse_i64(v)->0)
    } else if is_float_text(v) {
        FieldDefaultView::Float(v)
    } else {
        FieldDefaultView::Str(v)
    }
}

/// A field default with its text taken as character sequences.
pub enum FieldDefaultView {
    Nil,
    Bool(bool),
    List,
    Str(Seq<char>),
    Timestamp(Seq<char>),
    Ref(Seq<char>),
    Enum(Seq<Seq<char>>),
    Atom(Seq<char>),
    Int(i64),
    Float(Seq<char>),
}

pub open spec fn default_view(d: FieldDefault) -> FieldDefaultView {
    match d {
        FieldDefault::Nil => FieldDefaultView::Nil,
        FieldDefault::Bool(b) => FieldDefaultView::Bool(b),
        FieldDefault::List => FieldDefaultView::List,
        FieldDefault::Str(s) => FieldDefaultView::Str(s@),
        FieldDefault::Timestamp(s) => FieldDefaultView::Timestamp(s@),
        FieldDefault::Ref(s) => FieldDefaultView::Ref(s@),
        FieldDefault::Enum(v) => FieldDefaultView::Enum(text::str_views(v@)),
        FieldDefault::Atom(s) => FieldDefaultView::Atom(s@),
        FieldDefault::Int(n) => FieldDefaultView::Int(n),
        FieldDefault::Float(s) => FieldDefaultView::Float(s@),
    }
}

pub fn parse_field_default(value: &Vec<char>) -> (r: FieldDefault)
    ensures
        default_view(r) == field_default_spec(value@),
{
    proof {
        reveal_strlit("\"");
        reveal_strlit("|");
        reveal_strlit(":");
        reveal_strlit("/");
        reveal_strlit("@");
    }
    let v = text::trim_chars(value);
    if text::eq_str(&v, "nil") {
        return FieldDefault::Nil;
    }
    if text::eq_str(&v, "true") || text::eq_str(&v, "false") {
        return FieldDefault::Bool(text::eq_str(&v, "true"));
    }
    if text::eq_str(&v, "[]") {
        return FieldDefault::List;
    }
    if v.len() >= 2 && text::starts_with_str(&v, "\"") && text::ends_with_str(&v, "\"") {
        return FieldDefault::Str(text::sub_string(&v, 1, v.len() - 1));
    }
    if v.len() >= 2 && text::starts_with_str(&v, "|") && text::ends_with_str(&v, "|") {
        return FieldDefault::Timestamp(text::sub_string(&v, 1, v.len() - 1));
    }
    if text::starts_with_str(&v, "@") {
        let r = text::sub_string(&v, 1, v.len());
        assert(r@ =~= v@.skip(1));
        return FieldDefault::Ref(r);
    }
    if text::contains_str(&v, "/") && text::starts_with_str(&v, ":") {
        let parts = text::split_str(&v, "/");
        let mut opts: Vec<String> = Vec::new();
        let mut i: usize = 0;
        while i < parts.len()
            invariant
                i <= parts.len(),
                text::str_views(opts@) == text::views(parts@).take(i as int).map_values(
                    |o: Seq<char>| text::trim_start_matches(trim(o), ":"@),
                ),
            decreases parts.len() - i,
        {
            let o = text::trim_start_matches_str(&text::trim_chars(&parts[i]), ":");
            let ghost before = opts@;
            let so = text::to_string(&o);
            opts.push(so);
            proof {
                assert(text::str_views(opts@) =~= text::str_views(before).push(so@));
                assert(text::views(parts@).take(i + 1) =~= text::views(parts@).take(i as int).push(
                    parts@[i as int]@,
                ));
            }
            i = i + 1;
            assert(text::str_views(opts@) =~= text::views(parts@).take(i as int).map_values(
                |o: Seq<char>| text::trim_start_matches(trim(o), ":"@),
            ));
        }
        assert(text::views(parts@).take(parts.len() as int) =~= text::views(parts@));
        return FieldDefault::Enum(opts);
    }
    if text::starts_with_str(&v, ":") {
        let r = text::sub_string(&v, 1, v.len());
        assert(r@ =~= v@.skip(1));
        return FieldDefault::Atom(r);
    }
    if let Some(n) = text::parse_i64_chars(&v) {
        return FieldDefault::Int(n);
    }
    if is_float_text_exec(&v) {
        return FieldDefault::Float(text::to_string(&v));
    }
    FieldDefault::Str(text::to_string(&v))
}

/// `name: default`, where a `(s)` in the name marks a plural field.
pub open spec fn field_def_spec(line: Seq<char>) -> Option<(Seq<char>, bool, FieldDefaultView)> {
    match split_once(line, ":"@) {
        Some((n, v)) => {
            let raw = trim(n);
            let (name, plural) = if contains(raw, "(s)"@) {
                (text::replace(raw, "(s)"@, Seq::empty()), true)
            } else {
                (raw, false)
            };
            Some((name, plural, field_default_spec(trim(v))))
        },
        None => None,
    }
}

pub open spec fn field_view(f: FieldDef) -> (Seq<char>, bool, FieldDefaultView) {
    (f.name@, f.plural, default_view(f.default))
}

pub fn parse_field_def(line: &Vec<char>) -> (r: Option<FieldDef>)
    ensures
        r matches Some(f) ==> field_def_spec(line@) == Some(field_view(f)),
        r is None ==> field_def_spec(line@) is None,
{
    match text::split_once_str(line, ":") {
        Some((n, v)) => {
            let raw = text::trim_chars(&n);
            let value = text::trim_chars(&v);
            proof {
                reveal_strlit("(s)");
                reveal_strlit("");
            }
            let (name, plural) = if text::contains_str(&raw, "(s)") {
                (text::replace_str(&raw, "(s)", ""), true)
            } else {
                (raw, false)
            };
            let default = parse_field_default(&value);
            assert(""@ =~= Seq::<char>::empty());
            Some(FieldDef { name: text::to_string(&name), plural, default })
        },
        None => None,
    }
}

/// `"text"` without its quotes; other text trimmed.
pub open spec fn form_text_spec(value: Seq<char>) -> Seq<char> {
    let t = trim(value);
    if starts_with(t, "\""@) && text::ends_with(t, "\""@) && t.len() >= 2 {
        t.subrange(1, t.len() - 1)
    } else {
        t
    }
}

pub fn parse_form_text(value: &Vec<char>) -> (r: Vec<char>)
    ensures
        r@ == form_text_spec(value@),
{
    let t = text::trim_chars(value);
    if text::starts_with_str(&t, "\"") && text::ends_with_str(&t, "\"") && t.len() >= 2 {
        text::slice_of(&t, 1, t.len() - 1)
    } else {
        t
    }
}

pub fn parse_form_u32(value: &Vec<char>) -> (r: Option<u32>)
    ensures
        r == text::parse_u32(form_text_spec(value@)),
{
    text::parse_u32_chars(&parse_form_text(value))
}

/// The text between the first `|` and the next `|`; the whole text when
/// there is no such pair.
pub open spec fn pipe_expr_spec(s: Seq<char>) -> Seq<char> {
    match find(s, "|"@) {
        Some(start) => {
            let rest = s.skip(start + 1);
            match find(rest, "|"@) {
                Some(end) => rest.take(end),
                None => s,
            }
        },
        None => s,
    }
}

pub fn extract_pipe_expr(s: &Vec<char>) -> (r: Vec<char>)
    ensures
        r@ == pipe_expr_spec(s@),
{
    if let Some(start) = text::find_str(s, "|") {
        proof {
            text::lemma_find_from(s@, "|"@, 0);
            reveal_strlit("|");
        }
        let sl = s.len();
        let rest = text::slice_of(s, start + 1, sl);
        assert(rest@ =~= s@.skip(start + 1));
        if let Some(end) = text::find_str(&rest, "|") {
            proof {
                text::lemma_find_from(rest@, "|"@, 0);
            }
            return text::slice_of(&rest, 0, end);
        }
    }
    s.clone()
}


// ── Variables ───────────────────────────────────────────────────

/// Line starts that mark another construct, so that `=` in them is not an
/// assignment.
pub open spec fn var_excluded() -> Seq<Seq<char>> {
    seq!["#"@, "["@, "+"@, "-"@, "//"@, "define:"@, "mutate:"@, "query:"@, "flow:"@, "states:"@, "status:"@, "validate"@, "form:"@, "mod:"@, "git:"@, "if "@, "**"@, "$"@, "@"@, "snap:"@, "diff:"@, "history:"@, "routine:"@, "use "@, "webhook:"@, "delete:"@, "? "@, "remember:"@, "recall:"@, "^"@, "files:"@, "policy:"@, "escalate:"@, "gate:"@, "check:"@]
}

pub open spec fn is_var_excluded(line: Seq<char>) -> bool {
    exists|k: int| 0 <= k < 35 && starts_with(line, #[trigger] var_excluded()[k])
}

fn var_excluded_at(k: usize) -> (r: &'static str)
    requires
        k < 35,
    ensures
        r@ == var_excluded()[k as int],
{
    match k {
        0 => "#",
        1 => "[",
        2 => "+",
        3 => "-",
        4 => "//",
        5 => "define:",
        6 => "mutate:",
        7 => "query:",
        8 => "flow:",
        9 => "states:",
        10 => "status:",
        11 => "validate",
        12 => "form:",
        13 => "mod:",
        14 => "git:",
        15 => "if ",
        16 => "**",
        17 => "$",
        18 => "@",
        19 => "snap:",
        20 => "diff:",
        21 => "history:",
        22 => "routine:",
        23 => "use ",
        24 => "webhook:",
        25 => "delete:",
        26 => "? ",
        27 => "remember:",
        28 => "recall:",
        29 => "^",
        30 => "files:",
        31 => "policy:",
        32 => "escalate:",
        33 => "gate:",
        _ => "check:",
    }
}

fn is_var_excluded_exec(line: &Vec<char>) -> (b: bool)
    ensures
        b == is_var_excluded(line@),
{
    let mut k: usize = 0;
    while k < 35
        invariant
            k <= 35,
            forall|j: int| 0 <= j < k ==> !starts_with(line@, #[trigger] var_excluded()[j]),
        decreases 35 - k,
    {
        if text::starts_with_str(line, var_excluded_at(k)) {
            return true;
        }
        k = k + 1;
    }
    false
}

/// A variable's value with its text taken as character sequences.
pub enum VarValueView {
    Literal(Seq<char>),
    Compute(Seq<char>, bool),
    Ref(crate::spans::RefView),
}

pub open spec fn var_value_view(v: VarValue) -> VarValueView {
    match v {
        VarValue::Literal(s) => VarValueView::Literal(s@),
        VarValue::Compute(c) => VarValueView::Compute(c.expr@, c.live),
        VarValue::Ref(r) => VarValueView::Ref(crate::spans::ref_view(r)),
    }
}

/// The value written right of `=`: `||expr||`, `|expr|`, `@ref` or literal
/// text. (`|`, `||` and `|||` are read with the single-pipe rule.)
pub open spec fn var_value_spec(raw: Seq<char>) -> VarValueView {
    if raw.len() >= 4 && starts_with(raw, "||"@) && text::ends_with(raw, "||"@) {
        VarValueView::Compute(raw.subrange(2, raw.len() - 2), true)
    } else if raw.len() >= 2 && starts_with(raw, "|"@) && text::ends_with(raw, "|"@) {
        VarValueView::Compute(raw.subrange(1, raw.len() - 1), false)
    } else if starts_with(raw, "@"@) {
        VarValueView::Ref(crate::spans::ref_at_spec(raw, 0).0)
    } else {
        VarValueView::Literal(raw)
    }
}

/// `name = value`, for a line that no other construct claims.
pub open spec fn variable_spec(line: Seq<char>) -> Option<(Seq<char>, VarValueView)> {
    if is_var_excluded(line) {
        None
    } else {
        match find(line, "="@) {
            Some(eq) => {
                let before = line[eq - 1];
                if eq == 0 {
                    None
                } else if before == '!' || before == '~' || before == '<' || before == '>' {
                    None
                } else if eq + 1 < line.len() && line[eq + 1] == '=' {
                    None
                } else {
                    let name = trim(line.take(eq));
                    let raw = trim(line.skip(eq + 1));
                    if contains(name, " "@) {
                        None
                    } else {
                        Some((name, var_value_spec(raw)))
                    }
                }
            },
            None => None,
        }
    }
}

pub open spec fn variable_view(v: Variable) -> (Seq<char>, VarValueView) {
    (v.name@, var_value_view(v.value))
}

pub fn parse_var_value(raw: &Vec<char>) -> (r: VarValue)
    ensures
        var_value_view(r) == var_value_spec(raw@),
{
    if raw.len() >= 4 && text::starts_with_str(raw, "||") && text::ends_with_str(raw, "||") {
        return VarValue::Compute(Compute { expr: text::sub_string(raw, 2, raw.len() - 2), live: true });
    }
    if raw.len() >= 2 && text::starts_with_str(raw, "|") && text::ends_with_str(raw, "|") {
        return VarValue::Compute(Compute { expr: text::sub_string(raw, 1, raw.len() - 1), live: false });
    }
    if text::starts_with_str(raw, "@") {
        proof {
            reveal_strlit("@");
        }
        let (r, _n) = crate::spans::parse_ref_at(raw, 0);
        return VarValue::Ref(r);
    }
    VarValue::Literal(text::to_string(raw))
}

pub fn try_parse_variable(line: &Vec<char>) -> (r: Option<Variable>)
    ensures
        r matches Some(v) ==> variable_spec(line@) == Some(variable_view(v)),
        r is None ==> variable_spec(line@) is None,
{
    if is_var_excluded_exec(line) {
        return None;
    }
    match text::find_str(line, "=") {
        Some(eq) => {
            proof {
                text::lemma_find_from(line@, "="@, 0);
                reveal_strlit("=");
            }
            if eq == 0 {
                return None;
            }
            let before = line[eq - 1];
            if before == '!' || before == '~' || before == '<' || before == '>' {
                return None;
            }
            if line.len() - eq > 1 && line[eq + 1] == '=' {
                return None;
            }
            let name = text::trim_chars(&text::slice_of(line, 0, eq));
            let ll = line.len();
            let raw = text::trim_chars(&text::slice_of(line, eq + 1, ll));
            assert(line@.subrange(eq + 1, ll as int) =~= line@.skip(eq + 1));
            if text::contains_str(&name, " ") {
                return None;
            }
            let value = parse_var_value(&raw);
            Some(Variable { name: text::to_string(&name), value })
        },
        None => None,
    }
}


// ── Flow edges ──────────────────────────────────────────────────

/// The trimmed, non-empty items of a list of parts.
pub open spec fn nonempty_trimmed(parts: Seq<Seq<char>>) -> Seq<Seq<char>>
    decreases parts.len(),
{
    if parts.len() == 0 {
        Seq::empty()
    } else {
        let rest = nonempty_trimmed(parts.drop_last());
        let t = trim(parts.last());
        if t.len() > 0 {
            rest.push(t)
        } else {
            rest
        }
    }
}

/// A comma-separated list of names.
pub open spec fn names_list(s: Seq<char>) -> Seq<Seq<char>> {
    nonempty_trimmed(text::split(s, ","@))
}

pub fn names_list_exec(s: &Vec<char>) -> (r: Vec<Vec<char>>)
    ensures
        text::views(r@) == names_list(s@),
{
    let parts = text::split_char(s, ',');
    proof {
        reveal_strlit(",");
        assert(seq![','] =~= ","@);
    }
    let mut out: Vec<Vec<char>> = Vec::new();
    let mut i: usize = 0;
    while i < parts.len()
        invariant
            i <= parts.len(),
            text::views(out@) == nonempty_trimmed(text::views(parts@).take(i as int)),
        decreases parts.len() - i,
    {
        let t = text::trim_chars(&parts[i]);
        proof {
            let ps = text::views(parts@);
            assert(ps.take(i + 1).drop_last() =~= ps.take(i as int));
            assert(ps.take(i + 1).last() == parts@[i as int]@);
        }
        if t.len() > 0 {
            proof {
                text::lemma_views_push(out@, t);
            }
            out.push(t);
        }
        i = i + 1;
    }
    assert(text::views(parts@).take(parts.len() as int) =~= text::views(parts@));
    out
}

/// An edge modifier: label, gate, wait expression or timeout expression.
pub open spec fn classify_modifier(inner: Seq<char>) -> (
    Option<Seq<char>>,
    Option<Seq<char>>,
    Option<Seq<char>>,
    Option<Seq<char>>,
) {
    if starts_with(inner, "timeout:"@) {
        (None, None, None, Some(pipe_expr_spec(text::trim_start_matches(inner, "timeout:"@))))
    } else if starts_with(inner, "wait:"@) {
        (None, None, Some(pipe_expr_spec(text::trim_start_matches(inner, "wait:"@))), None)
    } else if starts_with(inner, "{"@) {
        (None, Some(inner), None, None)
    } else {
        (Some(inner), None, None, None)
    }
}

pub fn classify_edge_modifier(inner: &Vec<char>) -> (r: (
    Option<Vec<char>>,
    Option<Vec<char>>,
    Option<Vec<char>>,
    Option<Vec<char>>,
))
    ensures
        (opt_view(r.0), opt_view(r.1), opt_view(r.2), opt_view(r.3)) == classify_modifier(inner@),
{
    if text::starts_with_str(inner, "timeout:") {
        let e = extract_pipe_expr(&text::trim_start_matches_str(inner, "timeout:"));
        return (None, None, None, Some(e));
    }
    if text::starts_with_str(inner, "wait:") {
        let e = extract_pipe_expr(&text::trim_start_matches_str(inner, "wait:"));
        return (None, None, Some(e), None);
    }
    if text::starts_with_str(inner, "{") {
        return (None, Some(inner.clone()), None, None);
    }
    (Some(inner.clone()), None, None, None)
}

/// The modifier written between dashes before an arrow (`--label-->`).
pub open spec fn edge_modifiers_spec(segment: Seq<char>) -> (
    Option<Seq<char>>,
    Option<Seq<char>>,
    Option<Seq<char>>,
    Option<Seq<char>>,
) {
    let t = trim(segment);
    let none = (None, None, None, None);
    let first = match text::rfind(t, "--"@) {
        Some(last) => match text::rfind(t.take(last), "--"@) {
            Some(st) => if t.subrange(st + 2, last).len() > 0 {
                Some(classify_modifier(t.subrange(st + 2, last)))
            } else {
                None
            },
            None => None,
        },
        None => None,
    };
    match first {
        Some(m) => m,
        None => match text::rfind(t, "--"@) {
            Some(dp) => if trim(t.skip(dp + 2)).len() > 0 && dp > 0 {
                classify_modifier(trim(t.skip(dp + 2)))
            } else {
                none
            },
            None => none,
        },
    }
}

pub proof fn lemma_rfind_from(s: Seq<char>, p: Seq<char>, i: int)
    ensures
        text::rfind_from(s, p, i) matches Some(k) ==> k <= i && text::matches_at(s, p, k),
    decreases i + 1,
{
    if i >= 0 && !text::matches_at(s, p, i) {
        lemma_rfind_from(s, p, i - 1);
    }
}

pub fn parse_edge_modifiers(segment: &Vec<char>) -> (r: (
    Option<Vec<char>>,
    Option<Vec<char>>,
    Option<Vec<char>>,
    Option<Vec<char>>,
))
    ensures
        (opt_view(r.0), opt_view(r.1), opt_view(r.2), opt_view(r.3)) == edge_modifiers_spec(
            segment@,
        ),
{
    let t = text::trim_chars(segment);
    proof {
        reveal_strlit("--");
    }
    if let Some(last) = text::rfind_str(&t, "--") {
        proof {
            lemma_rfind_from(t@, "--"@, t@.len() - 2);
        }
        let before = text::slice_of(&t, 0, last);
        if let Some(st) = text::rfind_str(&before, "--") {
            proof {
                lemma_rfind_from(before@, "--"@, before@.len() - 2);
            }
            let inner = text::slice_of(&t, st + 2, last);
            if inner.len() > 0 {
                return classify_edge_modifier(&inner);
            }
        }
    }
    if let Some(dp) = text::rfind_str(&t, "--") {
        proof {
            lemma_rfind_from(t@, "--"@, t@.len() - 2);
        }
        let tl = t.len();
        let after = text::slice_of(&t, dp + 2, tl);
        assert(after@ =~= t@.skip(dp + 2));
        let inner = text::trim_chars(&after);
        if inner.len() > 0 && dp > 0 {
            return classify_edge_modifier(&inner);
        }
    }
    (None, None, None, None)
}

/// A flow edge with its text taken as character sequences.
pub struct EdgeView {
    pub from: Seq<Seq<char>>,
    pub to: Seq<Seq<char>>,
    pub label: Option<Seq<char>>,
    pub parallel: bool,
    pub gate: Option<Seq<char>>,
    pub wait: Option<Seq<char>>,
    pub timeout: Option<Seq<char>>,
}

pub open spec fn edge_view(e: FlowEdge) -> EdgeView {
    EdgeView {
        from: text::str_views(e.from@),
        to: text::str_views(e.to@),
        label: opt_str_view(e.label),
        parallel: e.parallel,
        gate: opt_str_view(e.gate),
        wait: opt_str_view(e.wait),
        timeout: opt_str_view(e.timeout),
    }
}

pub open spec fn edges_view(v: Seq<FlowEdge>) -> Seq<EdgeView> {
    v.map_values(|e: FlowEdge| edge_view(e))
}

/// The edge between arrow segments `i` and `i + 1`, if it names anything.
pub open spec fn edge_at(segs: Seq<Seq<char>>, i: int) -> Option<EdgeView> {
    let from_part = trim(segs[i]);
    let to_part = trim(segs[i + 1]);
    let parallel = text::ends_with(from_part, "+"@) || text::ends_with(from_part, "+-"@);
    let from_clean = text::trim_end_matches(
        text::trim_end_matches(text::trim_end_matches(from_part, "+"@), "-"@),
        "+-"@,
    );
    let (label, gate, wait, timeout) = edge_modifiers_spec(from_part);
    let from = if from_clean.len() == 0 && i > 0 {
        Seq::empty()
    } else {
        names_list(from_clean)
    };
    let to = names_list(trim(text::split(to_part, "-->"@)[0]));
    if from.len() > 0 || to.len() > 0 {
        Some(EdgeView { from, to, label, parallel, gate, wait, timeout })
    } else {
        None
    }
}

/// The edges of the first `k` arrow segments.
pub open spec fn edges_upto(segs: Seq<Seq<char>>, k: int) -> Seq<EdgeView>
    decreases k,
{
    if k <= 0 {
        Seq::empty()
    } else {
        let rest = edges_upto(segs, k - 1);
        match edge_at(segs, k - 1) {
            Some(e) => rest.push(e),
            None => rest,
        }
    }
}

/// The edges of a flow line `A --> B, C --label--> D`.
pub open spec fn flow_edges_spec(line: Seq<char>) -> Seq<EdgeView> {
    let segs = text::split(line, "-->"@);
    edges_upto(segs, segs.len() - 1)
}

fn to_strings_opt(v: Option<Vec<char>>) -> (r: Option<String>)
    ensures
        opt_str_view(r) == opt_view(v),
{
    match v {
        Some(x) => Some(text::to_string(&x)),
        None => None,
    }
}

fn edge_at_exec(segs: &Vec<Vec<char>>, i: usize) -> (r: Option<FlowEdge>)
    requires
        i + 1 < segs@.len(),
    ensures
        r matches Some(e) ==> edge_at(text::views(segs@), i as int) == Some(edge_view(e)),
        r is None ==> edge_at(text::views(segs@), i as int) is None,
{
    proof {
        reveal_strlit("-->");
    }
    let sl = segs.len();
    let from_part = text::trim_chars(&segs[i]);
    let to_part = text::trim_chars(&segs[i + 1]);
    let parallel = text::ends_with_str(&from_part, "+") || text::ends_with_str(&from_part, "+-");
    let a = text::trim_end_matches_str(&from_part, "+");
    let b = text::trim_end_matches_str(&a, "-");
    let from_clean = text::trim_end_matches_str(&b, "+-");
    let (label, gate, wait, timeout) = parse_edge_modifiers(&from_part);
    let from: Vec<Vec<char>> = if from_clean.len() == 0 && i > 0 {
        Vec::new()
    } else {
        names_list_exec(&from_clean)
    };
    let to_first = text::split_str(&to_part, "-->");
    let to = names_list_exec(&text::trim_chars(&to_first[0]));
    proof {
        assert(text::views(segs@)[i as int] == segs@[i as int]@);
        assert(text::views(segs@)[i + 1] == segs@[i + 1]@);
        assert(text::views(to_first@)[0] == to_first@[0]@);
        if from_clean.len() == 0 && i > 0 {
            assert(text::views(from@) =~= Seq::<Seq<char>>::empty());
        }
    }
    if from.len() > 0 || to.len() > 0 {
        Some(
            FlowEdge {
                from: text::to_strings(&from),
                to: text::to_strings(&to),
                label: to_strings_opt(label),
                parallel,
                gate: to_strings_opt(gate),
                wait: to_strings_opt(wait),
                timeout: to_strings_opt(timeout),
            },
        )
    } else {
        None
    }
}

pub fn parse_flow_edges(line: &Vec<char>) -> (r: Vec<FlowEdge>)
    ensures
        edges_view(r@) == flow_edges_spec(line@),
{
    proof {
        reveal_strlit("-->");
    }
    let segs = text::split_str(line, "-->");
    let mut out: Vec<FlowEdge> = Vec::new();
    let mut i: usize = 0;
    while i < segs.len() - 1
        invariant
            segs@.len() >= 1,
            i + 1 <= segs@.len(),
            text::views(segs@) == text::split(line@, "-->"@),
            edges_view(out@) == edges_upto(text::views(segs@), i as int),
        decreases segs@.len() - i,
    {
        match edge_at_exec(&segs, i) {
            Some(e) => {
                let ghost o = out@;
                out.push(e);
                assert(edges_view(out@) =~= edges_view(o).push(edge_view(e)));
            },
            None => {},
        }
        i = i + 1;
    }
    out
}

} // verus!
