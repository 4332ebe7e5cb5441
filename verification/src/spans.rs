//! Inline spans of a line of text: references, mod calls, project refs,
//! channels, compute expressions and bold text.
use crate::text;
use crate::line;
use crate::types::{Compute, Inline, Ref};
use vstd::prelude::*;

verus! {

/// `char::is_alphanumeric` (Unicode `Alphabetic` or `Numeric`).
pub uninterp spec fn alnum(c: char) -> bool;

/// Tests a character with `char::is_alphanumeric`.
#[verifier::external_body]
pub fn is_alphanumeric(c: char) -> (b: bool)
    ensures
        b == alnum(c),
{
    c.is_alphanumeric()
}

/// Characters that may continue a reference path segment.
pub open spec fn ref_char(c: char) -> bool {
    alnum(c) || c == '_' || c == '-' || c == '.' || c == '/' || c == '~'
}

/// Characters of an identifier after `$` or `#`.
pub open spec fn ident_char(c: char) -> bool {
    alnum(c) || c == '_' || c == '-' || c == ':' || c == '.'
}

pub open spec fn ident_pred() -> spec_fn(char) -> bool {
    |c: char| ident_char(c)
}

/// The identifier starting at `from` and its length.
pub open spec fn ident_len(c: Seq<char>, from: int) -> nat {
    text::lead_count(c.skip(from), ident_pred())
}

pub fn scan_identifier(c: &Vec<char>, from: usize) -> (r: (Vec<char>, usize))
    requires
        from <= c@.len(),
    ensures
        r.1 == ident_len(c@, from as int),
        r.0@ == c@.subrange(from as int, from + r.1),
        from + r.1 <= c@.len(),
{
    let mut i: usize = from;
    while i < c.len() && (is_alphanumeric(c[i]) || c[i] == '_' || c[i] == '-' || c[i] == ':'
        || c[i] == '.')
        invariant
            from <= i <= c.len(),
            forall|j: int| 0 <= j < i - from ==> #[trigger] ident_pred()(c@.skip(from as int)[j]),
        decreases c.len() - i,
    {
        assert(c@.skip(from as int)[i - from] == c@[i as int]);
        i = i + 1;
    }
    proof {
        let t = c@.skip(from as int);
        if i < c.len() {
            assert(t[i - from] == c@[i as int]);
        }
        text::lemma_lead_count(t, ident_pred(), i - from);
    }
    (text::slice_of(c, from, i), i - from)
}

/// First `|` at or after `start` that is not followed by another `|`; the
/// length when there is none.
pub open spec fn single_pipe_end(c: Seq<char>, start: int) -> int
    decreases c.len() - start,
{
    if start < 0 || start >= c.len() {
        c.len() as int
    } else if c[start] == '|' && !(start + 1 < c.len() && c[start + 1] == '|') {
        start
    } else {
        single_pipe_end(c, start + 1)
    }
}

/// First position at or after `start` where `x x` begins; the length when
/// there is none.
pub open spec fn double_end(c: Seq<char>, start: int, x: char) -> int
    decreases c.len() - start,
{
    if start < 0 || start + 1 >= c.len() {
        c.len() as int
    } else if c[start] == x && c[start + 1] == x {
        start
    } else {
        double_end(c, start + 1, x)
    }
}

pub proof fn lemma_single_pipe_end(c: Seq<char>, start: int)
    requires
        0 <= start,
    ensures
        start <= single_pipe_end(c, start) <= c.len() || (start > c.len() && single_pipe_end(
            c,
            start,
        ) == c.len()),
    decreases c.len() - start,
{
    if start < c.len() {
        lemma_single_pipe_end(c, start + 1);
    }
}

pub proof fn lemma_double_end(c: Seq<char>, start: int, x: char)
    requires
        0 <= start,
    ensures
        start <= double_end(c, start, x) <= c.len() || (start > c.len() && double_end(c, start, x)
            == c.len()),
        double_end(c, start, x) < c.len() ==> double_end(c, start, x) + 1 < c.len(),
    decreases c.len() - start,
{
    if start + 1 < c.len() {
        lemma_double_end(c, start + 1, x);
    }
}

pub fn find_single_pipe_end(c: &Vec<char>, start: usize) -> (r: usize)
    ensures
        r == single_pipe_end(c@, start as int),
{
    let mut i: usize = start;
    while i < c.len()
        invariant
            start <= i,
            single_pipe_end(c@, start as int) == single_pipe_end(c@, i as int),
        decreases c.len() - i,
    {
        if c[i] == '|' && !(i + 1 < c.len() && c[i + 1] == '|') {
            return i;
        }
        i = i + 1;
    }
    c.len()
}

fn find_double_end(c: &Vec<char>, start: usize, x: char) -> (r: usize)
    ensures
        r == double_end(c@, start as int, x),
{
    let mut i: usize = start;
    while i < c.len() && c.len() - i > 1
        invariant
            start <= i,
            double_end(c@, start as int, x) == double_end(c@, i as int, x),
        decreases c.len() - i,
    {
        if c[i] == x && c[i + 1] == x {
            return i;
        }
        i = i + 1;
    }
    c.len()
}

pub fn find_double_pipe_end(c: &Vec<char>, start: usize) -> (r: usize)
    ensures
        r == double_end(c@, start as int, '|'),
{
    find_double_end(c, start, '|')
}

pub fn find_bold_end(c: &Vec<char>, start: usize) -> (r: usize)
    ensures
        r == double_end(c@, start as int, '*'),
{
    find_double_end(c, start, '*')
}

// ── References ───────────────────────────────────────────────────

/// A reference with its text taken as character sequences.
pub struct RefView {
    pub path: Seq<Seq<char>>,
    pub plural: bool,
    pub mod_scope: Option<Seq<char>>,
    pub workspace_scope: Option<Seq<char>>,
}

pub open spec fn ref_view(r: Ref) -> RefView {
    RefView {
        path: text::str_views(r.path@),
        plural: r.plural,
        mod_scope: crate::line::opt_str_view(r.mod_scope),
        workspace_scope: crate::line::opt_str_view(r.workspace_scope),
    }
}

/// Reads path segments from `i`: `:` separates them, `(s)` marks a plural,
/// and the path ends at any other character. Gives the path, the plural
/// flag and where reading stopped.
pub open spec fn ref_scan(c: Seq<char>, i: int, path: Seq<Seq<char>>, cur: Seq<char>, plural: bool) -> (
    Seq<Seq<char>>,
    bool,
    int,
)
    decreases c.len() - i,
{
    if i < 0 || i >= c.len() {
        (finish_path(path, cur), plural, i)
    } else if c[i] == ':' {
        ref_scan(c, i + 1, push_nonempty(path, cur), Seq::empty(), plural)
    } else if c[i] == '(' && i + 2 < c.len() && c[i + 1] == 's' && c[i + 2] == ')' {
        ref_scan(c, i + 3, push_nonempty(path, cur), Seq::empty(), true)
    } else if ref_char(c[i]) {
        ref_scan(c, i + 1, path, cur.push(c[i]), plural)
    } else {
        (finish_path(path, cur), plural, i)
    }
}

pub open spec fn push_nonempty(path: Seq<Seq<char>>, cur: Seq<char>) -> Seq<Seq<char>> {
    if cur.len() > 0 {
        path.push(cur)
    } else {
        path
    }
}

pub open spec fn finish_path(path: Seq<Seq<char>>, cur: Seq<char>) -> Seq<Seq<char>> {
    let p = push_nonempty(path, cur);
    if p.len() == 0 {
        seq![Seq::empty()]
    } else {
        p
    }
}

/// Where the path of the reference starting at `at` (an `@`) begins, and
/// its workspace scope: `@workspace:name.@Entity` skips to `Entity`.
pub open spec fn ref_start(c: Seq<char>, at: int) -> (int, Option<Seq<char>>) {
    let rem = c.skip(at + 1);
    if text::starts_with(rem, "workspace:"@) && text::find(rem, ".@"@) is Some {
        let d = text::find(rem, ".@"@)->0;
        if 10 <= d {
            (at + 1 + d + 2, Some(rem.subrange(10, d)))
        } else {
            (at + 1, None)
        }
    } else {
        (at + 1, None)
    }
}

/// The reference that starts at `at` and the number of characters it spans.
pub open spec fn ref_at_spec(c: Seq<char>, at: int) -> (RefView, int) {
    let (start, ws) = ref_start(c, at);
    let (path, plural, end) = ref_scan(c, start, Seq::empty(), Seq::empty(), false);
    (RefView { path, plural, mod_scope: None, workspace_scope: ws }, end - at)
}

pub proof fn lemma_ref_scan(c: Seq<char>, i: int, path: Seq<Seq<char>>, cur: Seq<char>, plural: bool)
    requires
        0 <= i <= c.len(),
    ensures
        i <= ref_scan(c, i, path, cur, plural).2 <= c.len(),
    decreases c.len() - i,
{
    if i < c.len() {
        if c[i] == ':' {
            lemma_ref_scan(c, i + 1, push_nonempty(path, cur), Seq::empty(), plural);
        } else if c[i] == '(' && i + 2 < c.len() && c[i + 1] == 's' && c[i + 2] == ')' {
            lemma_ref_scan(c, i + 3, push_nonempty(path, cur), Seq::empty(), true);
        } else if ref_char(c[i]) {
            lemma_ref_scan(c, i + 1, path, cur.push(c[i]), plural);
        }
    }
}

fn push_nonempty_exec(path: &mut Vec<Vec<char>>, cur: Vec<char>)
    ensures
        text::views(final(path)@) == push_nonempty(text::views(old(path)@), cur@),
{
    if cur.len() > 0 {
        proof {
            text::lemma_views_push(path@, cur);
        }
        path.push(cur);
    }
}

/// Parses the reference whose `@` is at `at`; gives it and the number of
/// characters it spans (at least one).
pub fn parse_ref_at(c: &Vec<char>, at: usize) -> (r: (Ref, usize))
    requires
        at < c@.len(),
    ensures
        ref_view(r.0) == ref_at_spec(c@, at as int).0,
        r.1 == ref_at_spec(c@, at as int).1,
        1 <= r.1,
        at + r.1 <= c@.len(),
{
    let cl = c.len();
    let rem = text::slice_of(c, at + 1, cl);
    assert(rem@ =~= c@.skip(at + 1));
    let mut i: usize = at + 1;
    let mut workspace_scope: Option<Vec<char>> = None;
    if text::starts_with_str(&rem, "workspace:") {
        if let Some(d) = text::find_str(&rem, ".@") {
            proof {
                text::lemma_find_from(rem@, ".@"@, 0);
                reveal_strlit(".@");
            }
            if 10 <= d {
                assert(d + 2 <= rem@.len());
                workspace_scope = Some(text::slice_of(&rem, 10, d));
                i = at + 1 + d + 2;
            }
        }
    }
    assert((i as int, crate::line::opt_view(workspace_scope)) == ref_start(c@, at as int));
    let ghost start = i as int;
    let mut path: Vec<Vec<char>> = Vec::new();
    let mut cur: Vec<char> = Vec::new();
    let mut plural = false;
    assert(text::views(path@) =~= Seq::<Seq<char>>::empty());
    assert(cur@ =~= Seq::<char>::empty());
    while i < c.len()
        invariant
            start <= i <= c.len(),
            ref_scan(c@, start, Seq::empty(), Seq::empty(), false) == ref_scan(
                c@,
                i as int,
                text::views(path@),
                cur@,
                plural,
            ),
        ensures
            ref_scan(c@, start, Seq::empty(), Seq::empty(), false) == (
                finish_path(text::views(path@), cur@),
                plural,
                i as int,
            ),
            start <= i <= c.len(),
        decreases c.len() - i,
    {
        let ch = c[i];
        if ch == ':' {
            push_nonempty_exec(&mut path, cur);
            cur = Vec::new();
            i = i + 1;
        } else if ch == '(' && c.len() - i > 2 && c[i + 1] == 's' && c[i + 2] == ')' {
            plural = true;
            push_nonempty_exec(&mut path, cur);
            cur = Vec::new();
            i = i + 3;
        } else if is_alphanumeric(ch) || ch == '_' || ch == '-' || ch == '.' || ch == '/' || ch
            == '~' {
            cur.push(ch);
            i = i + 1;
        } else {
            break;
        }
    }
    push_nonempty_exec(&mut path, cur);
    if path.len() == 0 {
        let e: Vec<char> = Vec::new();
        proof {
            text::lemma_views_push(path@, e);
        }
        path.push(e);
        assert(text::views(path@) =~= seq![Seq::<char>::empty()]);
    }
    proof {
        lemma_ref_scan(c@, start, Seq::empty(), Seq::empty(), false);
    }
    let ws: Option<String> = match workspace_scope {
        Some(w) => Some(text::to_string(&w)),
        None => None,
    };
    let r = Ref { path: text::to_strings(&path), plural, mod_scope: None, workspace_scope: ws };
    assert(ref_view(r).path == text::views(path@));
    (r, i - at)
}


// ── Inline spans ─────────────────────────────────────────────────

/// An inline span with its text taken as character sequences.
pub enum InlineView {
    Text(Seq<char>),
    Ref(RefView),
    ModCall(Seq<char>, Option<Seq<char>>),
    ProjectRef(Seq<char>),
    Channel(Seq<char>),
    Compute(Seq<char>, bool),
    Bold(Seq<char>),
    Atom(Seq<char>, Option<Seq<char>>),
}

pub open spec fn inline_view(x: Inline) -> InlineView {
    match x {
        Inline::Text { value } => InlineView::Text(value@),
        Inline::Ref(r) => InlineView::Ref(ref_view(r)),
        Inline::ModCall { name, args } => InlineView::ModCall(
            name@,
            crate::line::opt_str_view(args),
        ),
        Inline::ProjectRef { name } => InlineView::ProjectRef(name@),
        Inline::Channel { name } => InlineView::Channel(name@),
        Inline::Compute(c) => InlineView::Compute(c.expr@, c.live),
        Inline::Bold { value } => InlineView::Bold(value@),
        Inline::Atom(a) => InlineView::Atom(a.name@, line::opt_str_view(a.value)),
    }
}

pub open spec fn inlines_view(v: Seq<Inline>) -> Seq<InlineView> {
    v.map_values(|x: Inline| inline_view(x))
}

/// Pending plain text closed off as a text span.
pub open spec fn flush(spans: Seq<InlineView>, cur: Seq<char>) -> Seq<InlineView> {
    if cur.len() > 0 {
        spans.push(InlineView::Text(cur))
    } else {
        spans
    }
}

/// Characters that end a `%Project` name.
pub open spec fn project_stop(c: char) -> bool {
    c == '@' || c == '$' || c == '#' || c == '|' || c == '{' || c == '*' || c == '%'
}

pub open spec fn project_pred() -> spec_fn(char) -> bool {
    |c: char| !project_stop(c)
}

/// Whether a `@` or `%` at `i` may start a span (start of text, after
/// whitespace or `(`; `@` also after `:`).
pub open spec fn at_boundary(c: Seq<char>, i: int, colon: bool) -> bool {
    i == 0 || text::is_ws(c[i - 1]) || c[i - 1] == '(' || (colon && c[i - 1] == ':')
}

pub open spec fn with_mod(r: RefView, m: Seq<char>) -> RefView {
    RefView { path: r.path, plural: r.plural, mod_scope: Some(m), workspace_scope: r.workspace_scope }
}

/// The spans of `c` from position `i` on, given the spans already read and
/// the pending plain text.
pub open spec fn inline_scan(c: Seq<char>, i: int, spans: Seq<InlineView>, cur: Seq<char>) -> Seq<InlineView>
    decreases c.len() + 2 - i,
{
    if i < 0 || i >= c.len() {
        flush(spans, cur)
    } else {
        let ch = c[i];
        if ch == '@' && at_boundary(c, i, true) {
            let (r, n) = ref_at_spec(c, i);
            if n >= 1 && i + n <= c.len() {
                inline_scan(c, i + n, flush(spans, cur).push(InlineView::Ref(r)), Seq::empty())
            } else {
                flush(spans, cur)
            }
        } else if ch == '$' {
            let k = ident_len(c, i + 1);
            let name = c.subrange(i + 1, i + 1 + k);
            let after = i + 1 + k;
            let m = text::trim_end_matches(name, "."@);
            if after > c.len() {
                flush(spans, cur)
            } else if text::ends_with(name, "."@) && after < c.len() && c[after] == '@' {
                let (r, n) = ref_at_spec(c, after);
                if n >= 1 && after + n <= c.len() {
                    inline_scan(
                        c,
                        after + n,
                        flush(spans, cur).push(InlineView::Ref(with_mod(r, m))),
                        Seq::empty(),
                    )
                } else {
                    flush(spans, cur)
                }
            } else {
                inline_scan(
                    c,
                    after,
                    flush(spans, cur).push(InlineView::ModCall(m, None)),
                    Seq::empty(),
                )
            }
        } else if ch == '%' && i + 1 < c.len() && alnum(c[i + 1]) && at_boundary(c, i, false) {
            let m = text::lead_count(c.skip(i + 1), project_pred());
            let name = text::trim_end(c.subrange(i + 1, i + 1 + m));
            if i + 1 + name.len() > c.len() {
                flush(spans, cur)
            } else {
            inline_scan(
                c,
                i + 1 + name.len(),
                flush(spans, cur).push(InlineView::ProjectRef(name)),
                Seq::empty(),
            )
            }
        } else if ch == '#' && i + 1 < c.len() && alnum(c[i + 1]) {
            let k = ident_len(c, i + 1);
            if i + 1 + k > c.len() {
                flush(spans, cur)
            } else {
            inline_scan(
                c,
                i + 1 + k,
                flush(spans, cur).push(InlineView::Channel(c.subrange(i + 1, i + 1 + k))),
                Seq::empty(),
            )
            }
        } else if ch == '|' && i + 1 < c.len() && c[i + 1] == '|' {
            let e = double_end(c, i + 2, '|');
            if i + 2 <= e <= c.len() {
                inline_scan(
                    c,
                    e + 2,
                    flush(spans, cur).push(InlineView::Compute(c.subrange(i + 2, e), true)),
                    Seq::empty(),
                )
            } else {
                flush(spans, cur)
            }
        } else if ch == '|' {
            let e = single_pipe_end(c, i + 1);
            if i + 1 <= e <= c.len() {
                inline_scan(
                    c,
                    e + 1,
                    flush(spans, cur).push(InlineView::Compute(c.subrange(i + 1, e), false)),
                    Seq::empty(),
                )
            } else {
                flush(spans, cur)
            }
        } else if ch == '*' && i + 1 < c.len() && c[i + 1] == '*' {
            let e = double_end(c, i + 2, '*');
            if i + 2 <= e <= c.len() {
                inline_scan(
                    c,
                    e + 2,
                    flush(spans, cur).push(InlineView::Bold(c.subrange(i + 2, e))),
                    Seq::empty(),
                )
            } else {
                flush(spans, cur)
            }
        } else {
            inline_scan(c, i + 1, spans, cur.push(ch))
        }
    }
}

pub proof fn lemma_scan_end(c: Seq<char>, i: int, spans: Seq<InlineView>, cur: Seq<char>)
    requires
        i >= c.len(),
    ensures
        inline_scan(c, i, spans, cur) == flush(spans, cur),
{
}

/// The inline spans of a line of text.
pub open spec fn parse_inline_spec(t: Seq<char>) -> Seq<InlineView> {
    inline_scan(t, 0, Seq::empty(), Seq::empty())
}

fn flush_exec(spans: &mut Vec<Inline>, cur: Vec<char>)
    ensures
        inlines_view(final(spans)@) == flush(inlines_view(old(spans)@), cur@),
{
    if cur.len() > 0 {
        let ghost o = spans@;
        let x = Inline::Text { value: text::to_string(&cur) };
        spans.push(x);
        assert(inlines_view(spans@) =~= inlines_view(o).push(inline_view(x)));
    } else {
        assert(inlines_view(spans@) == inlines_view(old(spans)@));
    }
}

fn push_span(spans: &mut Vec<Inline>, x: Inline)
    ensures
        inlines_view(final(spans)@) == inlines_view(old(spans)@).push(inline_view(x)),
{
    let ghost o = spans@;
    spans.push(x);
    assert(inlines_view(spans@) =~= inlines_view(o).push(inline_view(x)));
}

fn at_boundary_exec(c: &Vec<char>, i: usize, colon: bool) -> (b: bool)
    requires
        i < c@.len(),
    ensures
        b == at_boundary(c@, i as int, colon),
{
    i == 0 || text::char_is_ws(c[i - 1]) || c[i - 1] == '(' || (colon && c[i - 1] == ':')
}

pub fn parse_inline(t: &Vec<char>) -> (r: Vec<Inline>)
    ensures
        inlines_view(r@) == parse_inline_spec(t@),
{
    let c = t;
    let mut spans: Vec<Inline> = Vec::new();
    let mut cur: Vec<char> = Vec::new();
    let mut i: usize = 0;
    assert(inlines_view(spans@) =~= Seq::<InlineView>::empty());
    assert(cur@ =~= Seq::<char>::empty());
    while i < c.len()
        invariant
            parse_inline_spec(c@) == inline_scan(c@, i as int, inlines_view(spans@), cur@),
        decreases c.len() + 2 - i,
    {
        let ch = c[i];
        if ch == '@' && at_boundary_exec(c, i, true) {
            flush_exec(&mut spans, cur);
            cur = Vec::new();
            let (r, n) = parse_ref_at(c, i);
            push_span(&mut spans, Inline::Ref(r));
            i = i + n;
        } else if ch == '$' {
            flush_exec(&mut spans, cur);
            cur = Vec::new();
            let (name, k) = scan_identifier(c, i + 1);
            let after = i + 1 + k;
            let m = text::trim_end_matches_str(&name, ".");
            if text::ends_with_str(&name, ".") && after < c.len() && c[after] == '@' {
                let (r, n) = parse_ref_at(c, after);
                let r2 = Ref {
                    path: r.path,
                    plural: r.plural,
                    mod_scope: Some(text::to_string(&m)),
                    workspace_scope: r.workspace_scope,
                };
                push_span(&mut spans, Inline::Ref(r2));
                i = after + n;
                } else {
                push_span(&mut spans, Inline::ModCall { name: text::to_string(&m), args: None });
                i = after;
                }
        } else if ch == '%' && c.len() - i > 1 && is_alphanumeric(c[i + 1]) && at_boundary_exec(
            c,
            i,
            false,
        ) {
            flush_exec(&mut spans, cur);
            cur = Vec::new();
            let mut j: usize = i + 1;
            while j < c.len() && !(c[j] == '@' || c[j] == '$' || c[j] == '#' || c[j] == '|' || c[j]
                == '{' || c[j] == '*' || c[j] == '%')
                invariant
                    i + 1 <= j <= c.len(),
                    forall|q: int|
                        0 <= q < j - (i + 1) ==> #[trigger] project_pred()(c@.skip(i + 1)[q]),
                decreases c.len() - j,
            {
                assert(c@.skip(i + 1)[j - (i + 1)] == c@[j as int]);
                j = j + 1;
            }
            proof {
                let s = c@.skip(i + 1);
                if j < c.len() {
                    assert(s[j - (i + 1)] == c@[j as int]);
                }
                text::lemma_lead_count(s, project_pred(), j - (i + 1));
            }
            let raw = text::slice_of(c, i + 1, j);
            let name = text::trim_end_chars(&raw);
            proof {
                text::lemma_trail_count_bound(raw@, text::ws_pred());
            }
            let nl = name.len();
            push_span(&mut spans, Inline::ProjectRef { name: text::to_string(&name) });
            i = i + 1 + nl;
        } else if ch == '#' && c.len() - i > 1 && is_alphanumeric(c[i + 1]) {
            flush_exec(&mut spans, cur);
            cur = Vec::new();
            let (name, k) = scan_identifier(c, i + 1);
            push_span(&mut spans, Inline::Channel { name: text::to_string(&name) });
            i = i + 1 + k;
        } else if ch == '|' && c.len() - i > 1 && c[i + 1] == '|' {
            flush_exec(&mut spans, cur);
            cur = Vec::new();
            let e = find_double_pipe_end(c, i + 2);
            proof {
                lemma_double_end(c@, i + 2, '|');
            }
            let expr = text::sub_string(c, i + 2, e);
            push_span(&mut spans, Inline::Compute(Compute { expr, live: true }));
            i = if e < c.len() { e + 2 } else { c.len() };
            proof {
                if e >= c.len() {
                    lemma_scan_end(c@, e + 2, inlines_view(spans@), cur@);
                    lemma_scan_end(c@, c@.len() as int, inlines_view(spans@), cur@);
                }
            }
        } else if ch == '|' {
            flush_exec(&mut spans, cur);
            cur = Vec::new();
            let e = find_single_pipe_end(c, i + 1);
            proof {
                lemma_single_pipe_end(c@, i + 1);
            }
            let expr = text::sub_string(c, i + 1, e);
            push_span(&mut spans, Inline::Compute(Compute { expr, live: false }));
            proof {
                if e >= c.len() {
                    lemma_scan_end(c@, e + 1, inlines_view(spans@), cur@);
                    lemma_scan_end(c@, c@.len() as int, inlines_view(spans@), cur@);
                }
            }
            i = if e < c.len() { e + 1 } else { c.len() };
        } else if ch == '*' && c.len() - i > 1 && c[i + 1] == '*' {
            flush_exec(&mut spans, cur);
            cur = Vec::new();
            let e = find_bold_end(c, i + 2);
            proof {
                lemma_double_end(c@, i + 2, '*');
            }
            let value = text::sub_string(c, i + 2, e);
            push_span(&mut spans, Inline::Bold { value });
            proof {
                if e >= c.len() {
                    lemma_scan_end(c@, e + 2, inlines_view(spans@), cur@);
                    lemma_scan_end(c@, c@.len() as int, inlines_view(spans@), cur@);
                }
            }
            i = if e < c.len() { e + 2 } else { c.len() };
        } else {
            cur.push(ch);
            i = i + 1;
        }
    }
    flush_exec(&mut spans, cur);
    spans
}

} // verus!
