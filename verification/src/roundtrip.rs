//! Writing a document back out and reading it again: for documents made of
//! top-level group headers, task lines and variables, `render` and `format`
//! give texts that parse back to documents that are written the same way.
use crate::blocks::{self, LineKind};
use crate::line;
use crate::parse;
use crate::text::{self, find, lines, starts_with, trim};
use vstd::prelude::*;

verus! {

// ── Characters ─────────────────────────────────────────────────

pub open spec fn is_letter(c: char) -> bool {
    (0x41 <= (c as u32) <= 0x5A) || (0x61 <= (c as u32) <= 0x7A)
}

pub open spec fn is_alnum_char(c: char) -> bool {
    is_letter(c) || (0x30 <= (c as u32) <= 0x39)
}

/// A word: ASCII letters and digits, starting with a letter.
pub open spec fn is_word(w: Seq<char>) -> bool {
    &&& w.len() > 0
    &&& is_letter(w[0])
    &&& forall|i: int| 0 <= i < w.len() ==> #[trigger] is_alnum_char(w[i])
}

/// A task text: ASCII letters, digits and spaces, starting with a letter
/// and not ending with a space.
pub open spec fn is_plain_text(t: Seq<char>) -> bool {
    &&& t.len() > 0
    &&& is_letter(t[0])
    &&& t.last() != ' '
    &&& forall|i: int| 0 <= i < t.len() ==> #[trigger] is_alnum_char(t[i]) || t[i] == ' '
}

pub proof fn lemma_alnum_char(c: char)
    requires
        is_alnum_char(c),
    ensures
        !text::is_ws(c),
        c != '\n' && c != '\t' && c != '\r' && c != '/' && c != '{' && c != ':' && c != ' ',
        c != '#' && c != '"' && c != '|' && c != '[' && c != ']' && c != '=' && c != '-',
{
    assert(('\n' as u32) == 10 && ('\t' as u32) == 9 && ('\r' as u32) == 13 && ('/' as u32) == 47);
    assert(('{' as u32) == 123 && (':' as u32) == 58 && (' ' as u32) == 32 && ('#' as u32) == 35);
    assert(('"' as u32) == 34 && ('|' as u32) == 124 && ('[' as u32) == 91 && (']' as u32) == 93);
    assert(('=' as u32) == 61 && ('-' as u32) == 45);
}

/// `c` occurs nowhere in `s`.
pub open spec fn lacks(s: Seq<char>, c: char) -> bool {
    forall|i: int| 0 <= i < s.len() ==> #[trigger] s[i] != c
}

/// A pattern that holds a character that `s` lacks is found nowhere in `s`.
pub proof fn lemma_not_found(s: Seq<char>, p: Seq<char>, k: int)
    requires
        0 <= k < p.len(),
        lacks(s, p[k]),
    ensures
        find(s, p) is None,
        !starts_with(s, p),
        forall|j: int| !#[trigger] text::matches_at(s, p, j),
{
    assert forall|j: int| !#[trigger] text::matches_at(s, p, j) by {
        if text::matches_at(s, p, j) {
            assert(s.subrange(j, j + p.len())[k] == p[k]);
            assert(s[j + k] == p[k]);
        }
    }
    text::lemma_find_from(s, p, 0);
    if starts_with(s, p) {
        assert(s.take(p.len() as int)[k] == p[k]);
        assert(s[k] == p[k]);
    }
}

/// A pattern whose first character differs from that of `s` does not start it.
pub proof fn lemma_first_differs(s: Seq<char>, p: Seq<char>)
    requires
        p.len() > 0,
        s.len() > 0,
        s[0] != p[0],
    ensures
        !starts_with(s, p),
{
    if starts_with(s, p) {
        assert(s.take(p.len() as int)[0] == p[0]);
    }
}

// ── Trimming ───────────────────────────────────────────────────

pub proof fn lemma_trim_id(s: Seq<char>)
    requires
        s.len() > 0,
        !text::is_ws(s[0]),
        !text::is_ws(s.last()),
    ensures
        trim(s) == s,
        text::trim_start(s) == s,
        text::trim_end(s) == s,
{
    text::lemma_lead_count(s, text::ws_pred(), 0);
    assert(text::trim_start(s) =~= s);
    text::lemma_trail_count(s, text::ws_pred(), 0);
    assert(text::trim_end(s) =~= s);
}

/// Trimming a word or text after one space gives it back.
pub proof fn lemma_trim_after_space(s: Seq<char>)
    requires
        s.len() > 0,
        !text::is_ws(s[0]),
        !text::is_ws(s.last()),
    ensures
        trim(seq![' '] + s) == s,
        text::trim_start(seq![' '] + s) == s,
{
    let t = seq![' '] + s;
    assert(text::is_ws(' '));
    assert(t[1] == s[0]);
    text::lemma_lead_count(t, text::ws_pred(), 1);
    assert(text::trim_start(t) =~= s);
    lemma_trim_id(s);
}

pub proof fn lemma_word_ends(w: Seq<char>)
    requires
        is_word(w),
    ensures
        !text::is_ws(w[0]),
        !text::is_ws(w.last()),
        lacks(w, '\n'),
        lacks(w, '\t'),
        lacks(w, '\r'),
        lacks(w, '/'),
        lacks(w, '{'),
        lacks(w, ':'),
        lacks(w, ' '),
        lacks(w, '#'),
        lacks(w, '"'),
        lacks(w, '|'),
{
    assert(is_alnum_char(w[w.len() - 1]));
    lemma_alnum_char(w[0]);
    lemma_alnum_char(w[w.len() - 1]);
    assert forall|i: int| 0 <= i < w.len() implies #[trigger] w[i] != '\n' && w[i] != '\t' && w[i]
        != '\r' && w[i] != '/' && w[i] != '{' && w[i] != ':' && w[i] != ' ' && w[i] != '#' && w[i]
        != '"' && w[i] != '|' by {
        lemma_alnum_char(w[i]);
    }
}

pub proof fn lemma_text_ends(t: Seq<char>)
    requires
        is_plain_text(t),
    ensures
        !text::is_ws(t[0]),
        !text::is_ws(t.last()),
        lacks(t, '\n'),
        lacks(t, '\t'),
        lacks(t, '\r'),
        lacks(t, '/'),
        lacks(t, '{'),
        lacks(t, ':'),
        lacks(t, '"'),
        lacks(t, '|'),
{
    assert(is_alnum_char(t[t.len() - 1]) || t[t.len() - 1] == ' ');
    lemma_alnum_char(t[0]);
    lemma_alnum_char(t[t.len() - 1]);
    assert forall|i: int| 0 <= i < t.len() implies #[trigger] t[i] != '\n' && t[i] != '\t' && t[i]
        != '\r' && t[i] != '/' && t[i] != '{' && t[i] != ':' && t[i] != '"' && t[i] != '|' by {
        if t[i] != ' ' {
            lemma_alnum_char(t[i]);
        }
    }
}


/// Words of ASCII letters and digits separated by single spaces.
pub open spec fn strict_name(w: Seq<char>) -> bool {
    &&& w.len() > 0
    &&& is_alnum_char(w[0])
    &&& is_alnum_char(w.last())
    &&& forall|i: int| 0 <= i < w.len() ==> #[trigger] is_alnum_char(w[i]) || w[i] == ' '
    &&& forall|i: int| 0 <= i < w.len() - 1 && #[trigger] w[i] == ' ' ==> w[i + 1] != ' '
}

/// Words of ASCII letters and digits separated by spaces.
pub open spec fn name_part(w: Seq<char>) -> bool {
    &&& w.len() > 0
    &&& is_alnum_char(w[0])
    &&& is_alnum_char(w.last())
    &&& forall|i: int| 0 <= i < w.len() ==> #[trigger] is_alnum_char(w[i]) || w[i] == ' '
}

/// A group name: words of ASCII letters and digits separated by spaces,
/// starting with a letter.
pub open spec fn is_name(w: Seq<char>) -> bool {
    name_part(w) && is_letter(w[0])
}

/// The name that a header gives: its words joined by single spaces.
pub open spec fn norm(w: Seq<char>) -> Seq<char> {
    text::join(text::split_ws(w), " "@)
}

pub proof fn lemma_name_ends(w: Seq<char>)
    requires
        name_part(w),
    ensures
        !text::is_ws(w[0]),
        !text::is_ws(w.last()),
        lacks(w, '\n'),
        lacks(w, '\t'),
        lacks(w, '\r'),
        lacks(w, '/'),
        lacks(w, '{'),
        lacks(w, ':'),
        lacks(w, '#'),
        lacks(w, '"'),
        lacks(w, '|'),
{
    lemma_alnum_char(w[0]);
    lemma_alnum_char(w[w.len() - 1]);
    assert forall|i: int| 0 <= i < w.len() implies #[trigger] w[i] != '\n' && w[i] != '\t' && w[i]
        != '\r' && w[i] != '/' && w[i] != '{' && w[i] != ':' && w[i] != '#' && w[i] != '"' && w[i] != '|' by {
        if w[i] != ' ' {
            lemma_alnum_char(w[i]);
        }
    }
}

/// A run of ASCII letters and digits.
pub open spec fn alnum_word(x: Seq<char>) -> bool {
    x.len() > 0 && forall|i: int| 0 <= i < x.len() ==> #[trigger] is_alnum_char(x[i])
}

pub proof fn lemma_join_front_sep(ls: Seq<Seq<char>>, sep: Seq<char>)
    requires
        ls.len() > 1,
    ensures
        text::join(ls, sep) == ls[0] + sep + text::join(ls.drop_first(), sep),
    decreases ls.len(),
{
    if ls.len() > 2 {
        lemma_join_front_sep(ls.drop_last(), sep);
        assert(ls.drop_last().drop_first() =~= ls.drop_first().drop_last());
        assert(ls.drop_first().last() == ls.last());
        assert(ls.drop_last()[0] == ls[0]);
        let j = text::join(ls.drop_last().drop_first(), sep);
        assert(text::join(ls.drop_first(), sep) == j + sep + ls.last());
        assert(text::join(ls, sep) == text::join(ls.drop_last(), sep) + sep + ls.last());
        assert(text::join(ls, sep) =~= ls[0] + sep + text::join(ls.drop_first(), sep));
    } else {
        assert(ls.drop_first() =~= seq![ls[1]]);
        assert(ls.drop_last() =~= seq![ls[0]]);
        assert(text::join(seq![ls[1]], sep) == ls[1]);
        assert(text::join(seq![ls[0]], sep) == ls[0]);
        assert(text::join(ls, sep) =~= ls[0] + sep + text::join(ls.drop_first(), sep));
    }
}


pub proof fn lemma_join_words(words: Seq<Seq<char>>)
    requires
        words.len() > 0,
        forall|i: int| 0 <= i < words.len() ==> #[trigger] alnum_word(words[i]),
    ensures
        strict_name(text::join(words, " "@)),
        text::join(words, " "@)[0] == words[0][0],
    decreases words.len(),
{
    reveal_strlit(" ");
    if words.len() == 1 {
        let x = words[0];
        assert(alnum_word(x));
        assert(text::join(words, " "@) == x);
        assert forall|i: int| 0 <= i < x.len() - 1 && #[trigger] x[i] == ' ' implies x[i + 1] != ' ' by {
            lemma_alnum_char(x[i]);
        }
        assert(is_alnum_char(x[x.len() - 1]));
    } else {
        let init = words.drop_last();
        assert forall|i: int| 0 <= i < init.len() implies #[trigger] alnum_word(init[i]) by {
            assert(init[i] == words[i]);
        }
        lemma_join_words(init);
        let a = text::join(init, " "@);
        let x = words.last();
        assert(alnum_word(words[words.len() - 1]));
        let j = a + " "@ + x;
        assert(text::join(words, " "@) == j);
        assert(is_alnum_char(a.last()));
        lemma_alnum_char(a.last());
        assert(is_alnum_char(x[0]));
        lemma_alnum_char(x[0]);
        assert(j.last() == x.last());
        assert(is_alnum_char(x[x.len() - 1]));
        assert forall|i: int| 0 <= i < j.len() implies #[trigger] is_alnum_char(j[i]) || j[i] == ' ' by {
            if i < a.len() {
                assert(j[i] == a[i]);
            } else if i > a.len() {
                assert(j[i] == x[i - a.len() - 1]);
            }
        }
        assert forall|i: int| 0 <= i < j.len() - 1 && #[trigger] j[i] == ' ' implies j[i + 1] != ' ' by {
            if i < a.len() - 1 {
                assert(j[i] == a[i]);
                assert(j[i + 1] == a[i + 1]);
            } else if i == a.len() - 1 {
                assert(j[i] == a.last());
            } else if i == a.len() {
                assert(j[i + 1] == x[0]);
            } else {
                assert(j[i] == x[i - a.len() - 1]);
                lemma_alnum_char(x[i - a.len() - 1]);
            }
        }
        assert(j[0] == a[0]);
        assert(init[0] == words[0]);
    }
}

/// Splitting a name at its spaces gives words of letters and digits; they
/// make a name with single spaces that starts as the name does.
#[verifier::spinoff_prover]
#[verifier::rlimit(80)]
pub proof fn lemma_split_name(w: Seq<char>)
    requires
        name_part(w),
    ensures
        text::split_ws(w).len() > 0,
        forall|i: int| 0 <= i < text::split_ws(w).len() ==> #[trigger] alnum_word(text::split_ws(w)[i]),
        strict_name(norm(w)),
        norm(w)[0] == w[0],
        strict_name(w) ==> norm(w) == w,
    decreases w.len(),
{
    reveal_strlit(" ");
    lemma_name_ends(w);
    text::lemma_lead_count(w, text::ws_pred(), 0);
    assert(w.skip(0) =~= w);
    text::lemma_find_from(w, " "@, 0);
    match find(w, " "@) {
        None => {
            assert forall|j: int| 0 <= j < w.len() implies #[trigger] is_alnum_char(w[j]) by {
                if w[j] == ' ' {
                    assert(text::matches_at(w, " "@, j)) by {
                        assert(w.subrange(j, j + 1) =~= " "@);
                    }
                }
            }
            assert forall|j: int| 0 <= j < w.len() implies #[trigger] text::non_ws_pred()(w[j]) by {
                assert(is_alnum_char(w[j]));
                lemma_alnum_char(w[j]);
            }
            text::lemma_lead_count(w, text::non_ws_pred(), w.len() as int);
            assert(w.take(w.len() as int) =~= w);
            assert(w.skip(w.len() as int) =~= Seq::<char>::empty());
            assert(text::split_ws(Seq::<char>::empty()) =~= Seq::<Seq<char>>::empty());
            assert(text::split_ws(w) =~= seq![w]);
            assert(alnum_word(w));
            assert forall|i: int| 0 <= i < seq![w].len() implies #[trigger] alnum_word(seq![w][i]) by {}
            lemma_join_words(seq![w]);
        },
        Some(k) => {
            assert(text::matches_at(w, " "@, k));
            assert(w.subrange(k, k + 1)[0] == w[k]);
            assert(w[k] == ' ');
            assert(k > 0);
            assert forall|j: int| 0 <= j < k implies #[trigger] is_alnum_char(w[j]) by {
                if w[j] == ' ' {
                    assert(text::matches_at(w, " "@, j)) by {
                        assert(w.subrange(j, j + 1) =~= " "@);
                    }
                }
            }
            assert forall|j: int| 0 <= j < k implies #[trigger] text::non_ws_pred()(w[j]) by {
                assert(is_alnum_char(w[j]));
                lemma_alnum_char(w[j]);
            }
            assert(text::is_ws(' '));
            text::lemma_lead_count(w, text::non_ws_pred(), k);
            let w0 = w.take(k);
            let u = w.skip(k);
            text::lemma_lead_count_props(u, text::ws_pred());
            let r = text::lead_count(u, text::ws_pred()) as int;
            assert(r >= 1) by {
                assert(u[0] == ' ');
            }
            assert(u.last() == w.last());
            lemma_alnum_char(w.last());
            assert(r < u.len()) by {
                if r >= u.len() {
                    assert(text::ws_pred()(u[u.len() - 1]));
                }
            }
            let rest = u.skip(r);
            assert(rest =~= w.skip(k + r));
            assert(!text::is_ws(rest[0]));
            assert(rest[0] == w[k + r]);
            assert(is_alnum_char(rest[0])) by {
                if w[k + r] == ' ' {
                    assert(text::is_ws(' '));
                }
            }
            assert(rest.last() == w.last());
            assert(name_part(rest)) by {
                assert forall|i: int| 0 <= i < rest.len() implies #[trigger] is_alnum_char(rest[i]) || rest[i] == ' ' by {
                    assert(rest[i] == w[i + k + r]);
                }
            }
            lemma_split_name(rest);
            assert(text::split_ws(w) == seq![w0] + text::split_ws(u));
            text::lemma_lead_count(rest, text::ws_pred(), 0);
            assert(rest.skip(0) =~= rest);
            assert(text::split_ws(u) == text::split_ws(rest));
            let rs = text::split_ws(rest);
            let all = seq![w0] + rs;
            assert(all.drop_first() =~= rs);
            assert(all[0] == w0);
            assert forall|i: int| 0 <= i < w0.len() implies #[trigger] is_alnum_char(w0[i]) by {
                assert(w0[i] == w[i]);
            }
            assert(alnum_word(w0));
            assert forall|i: int| 0 <= i < all.len() implies #[trigger] alnum_word(all[i]) by {
                if i > 0 {
                    assert(all[i] == rs[i - 1]);
                }
            }
            lemma_join_words(all);
            assert(norm(w)[0] == w0[0]);
            if strict_name(w) {
                assert(w[k + 1] != ' ');
                assert(r == 1) by {
                    if r > 1 {
                        assert(text::ws_pred()(u[1]));
                        assert(u[1] == w[k + 1]);
                        if w[k + 1] != ' ' {
                            assert(is_alnum_char(w[k + 1]));
                            lemma_alnum_char(w[k + 1]);
                        }
                    }
                }
                assert(strict_name(rest)) by {
                    assert forall|i: int| 0 <= i < rest.len() - 1 && #[trigger] rest[i] == ' ' implies rest[i + 1] != ' ' by {
                        assert(rest[i] == w[i + k + 1]);
                        assert(rest[i + 1] == w[i + k + 2]);
                    }
                }
                lemma_join_front_sep(all, " "@);
                assert(w0 + " "@ + rest =~= w);
            }
        },
    }
}

/// Words that are no atoms and no timed words are all name words.
pub proof fn lemma_name_words(words: Seq<Seq<char>>)
    requires
        forall|i: int| 0 <= i < words.len() ==> #[trigger] alnum_word(words[i]),
    ensures
        line::name_atoms_of(words) == (words, Seq::<(Seq<char>, Option<Seq<char>>)>::empty()),
    decreases words.len(),
{
    if words.len() > 0 {
        let init = words.drop_last();
        assert forall|i: int| 0 <= i < init.len() implies #[trigger] alnum_word(init[i]) by {
            assert(init[i] == words[i]);
        }
        lemma_name_words(init);
        let x = words.last();
        assert(alnum_word(words[words.len() - 1]));
        assert forall|i: int| 0 <= i < x.len() implies #[trigger] x[i] != ':' by {
            lemma_alnum_char(x[i]);
        }
        reveal_strlit(":");
        lemma_not_found(x, ":"@, 0);
        reveal_strlit("on:");
        reveal_strlit("routine:");
        reveal_strlit("due:");
        reveal_strlit("deadline:");
        reveal_strlit("timebox:");
        reveal_strlit("available:");
        reveal_strlit("blackout:");
        lemma_not_found(x, "on:"@, 2);
        lemma_not_found(x, "routine:"@, 7);
        lemma_not_found(x, "due:"@, 3);
        lemma_not_found(x, "deadline:"@, 8);
        lemma_not_found(x, "timebox:"@, 7);
        lemma_not_found(x, "available:"@, 9);
        lemma_not_found(x, "blackout:"@, 8);
        assert(line::word_role(x) == line::WordRole::NamePart(x));
        assert(init.push(x) =~= words);
    }
}

// ── Comments ───────────────────────────────────────────────────

pub proof fn lemma_no_comment(s: Seq<char>, i: int, in_string: bool, in_pipe: bool)
    requires
        lacks(s, '/'),
    ensures
        line::comment_scan(s, i, in_string, in_pipe) is None,
    decreases s.len() + 1 - i,
{
    if 0 <= i < s.len() {
        let c = s[i];
        if c == '\\' && in_string {
            lemma_no_comment(s, i + 2, in_string, in_pipe);
        } else if c == '"' {
            lemma_no_comment(s, i + 1, !in_string, in_pipe);
        } else if c == '|' && !in_string {
            lemma_no_comment(s, i + 1, in_string, !in_pipe);
        } else {
            lemma_no_comment(s, i + 1, in_string, in_pipe);
        }
    }
}

/// A line without `/` and without whitespace at its ends is its own header.
pub proof fn lemma_header_id(l: Seq<char>)
    requires
        l.len() > 0,
        !text::is_ws(l[0]),
        !text::is_ws(l.last()),
        lacks(l, '/'),
    ensures
        trim(l) == l,
        line::strip_comment_spec(l) == l,
        parse::header_of(l) == l,
{
    lemma_trim_id(l);
    lemma_no_comment(l, 0, false, false);
}

// ── Group header lines ─────────────────────────────────────────

pub proof fn lemma_hashes(d: nat)
    ensures
        text::repeat("#"@, d).len() == d,
        forall|i: int| 0 <= i < d ==> #[trigger] text::repeat("#"@, d)[i] == '#',
    decreases d,
{
    reveal_strlit("#");
    if d > 0 {
        lemma_hashes((d - 1) as nat);
        let r = text::repeat("#"@, (d - 1) as nat);
        assert forall|i: int| 0 <= i < d implies #[trigger] text::repeat("#"@, d)[i] == '#' by {
            if i < d - 1 {
                assert(text::repeat("#"@, d)[i] == r[i]);
            }
        }
    }
}

/// The header line of a group of depth `d` named `w`.
pub open spec fn group_text(d: nat, w: Seq<char>) -> Seq<char> {
    text::repeat("#"@, d) + seq![' '] + w
}

pub open spec fn is_lattice_word(w: Seq<char>) -> bool {
    ||| w == "Pressure Effect"@
    ||| w == "Unit Cell"@
    ||| w == "Validates"@
    ||| w == "Constraint"@
    ||| w == "Schema"@
    ||| w == "Frontier"@
    ||| w == "Symmetry"@
}

/// A group header of depth one to three with such a name, other than one
/// that gives a lattice section name at depth two.
pub open spec fn group_ok(d: nat, w: Seq<char>) -> bool {
    1 <= d <= 3 && is_name(w) && !(d == 2 && is_lattice_word(norm(w)))
}

pub proof fn lemma_group_text(d: nat, w: Seq<char>)
    requires
        group_ok(d, w),
    ensures
        group_text(d, w).len() == d + 1 + w.len(),
        group_text(d, w)[0] == '#',
        group_text(d, w)[1] == if d == 1 { ' ' } else { '#' },
        group_text(d, w).last() == w.last(),
        group_text(d, w).skip(d as int) == seq![' '] + w,
        group_text(d, w).skip(d as int + 1) == w,
        !text::is_ws(group_text(d, w).last()),
        forall|c: char| c != '#' && c != ' ' && lacks(w, c) ==> lacks(group_text(d, w), c),
        forall|i: int| 0 <= i < d ==> #[trigger] group_text(d, w)[i] == '#',
        group_text(d, w)[d as int] == ' ',
{
    lemma_hashes(d);
    lemma_name_ends(w);
    let l = group_text(d, w);
    let h = text::repeat("#"@, d);
    assert(l.skip(d as int) =~= seq![' '] + w);
    assert(l.skip(d as int + 1) =~= w);
    assert(l[d as int] == ' ');
    assert forall|i: int| 0 <= i < d implies #[trigger] l[i] == '#' by {
        assert(l[i] == h[i]);
    }
    assert(l[0] == '#');
    assert(l.last() == w.last());
    assert forall|c: char| c != '#' && c != ' ' && lacks(w, c) implies lacks(l, c) by {
        assert forall|i: int| 0 <= i < l.len() implies #[trigger] l[i] != c by {
            if i < d {
                assert(l[i] == '#');
            } else if i == d {
            } else {
                assert(l[i] == w[i - d - 1]);
            }
        }
    }
}

/// What the header of a group line gives: its depth and name, no atoms and
/// no gates.
pub proof fn lemma_group_header(d: nat, w: Seq<char>)
    requires
        group_ok(d, w),
    ensures
        parse::header_of(group_text(d, w)) == group_text(d, w),
        parse::group_header_spec(group_text(d, w)) == (d as u8, norm(w), Seq::<(Seq<char>, Option<Seq<char>>)>::empty(), Seq::<(Seq<char>, Option<Seq<char>>)>::empty()),
{
    let l = group_text(d, w);
    lemma_group_text(d, w);
    lemma_name_ends(w);
    lemma_header_id(l);
    text::lemma_lead_count(l, text::char_pred('#'), d as int);
    lemma_trim_after_space(w);
    reveal_strlit("{");
    lemma_not_found(w, "{"@, 0);
    assert(line::gates_spec(w) =~= Seq::empty());
    assert(line::remove_gates_spec(w) == w);
    lemma_split_name(w);
    lemma_name_words(text::split_ws(w));
}

// ── Task lines ─────────────────────────────────────────────────

/// The line of a task with marker sign `c` and text `t`.
pub open spec fn task_text(c: char, t: Seq<char>) -> Seq<char> {
    seq!['[', c, ']', ' '] + t
}

pub open spec fn sign_ok(c: char) -> bool {
    c == '!' || c == 'o' || c == 'x' || c == ' '
}

pub open spec fn task_ok(c: char, t: Seq<char>) -> bool {
    sign_ok(c) && is_plain_text(t)
}

/// The marker that a sign gives.
pub open spec fn marker_of(c: char) -> crate::types::TaskMarker {
    let (kind, priority) = if c == '!' {
        (crate::types::TaskKind::Required, crate::types::Priority::Required)
    } else if c == 'o' {
        (crate::types::TaskKind::Optional, crate::types::Priority::Optional)
    } else if c == 'x' {
        (crate::types::TaskKind::Completed, crate::types::Priority::Unset)
    } else {
        (crate::types::TaskKind::Open, crate::types::Priority::Unset)
    };
    crate::types::TaskMarker { kind, priority, prefix: crate::types::TaskPrefix::Unset, seq: None }
}

pub proof fn lemma_task_text(c: char, t: Seq<char>)
    requires
        task_ok(c, t),
    ensures
        task_text(c, t).len() == t.len() + 4,
        task_text(c, t)[0] == '[',
        task_text(c, t)[1] == c,
        task_text(c, t)[2] == ']',
        task_text(c, t).last() == t.last(),
        task_text(c, t).skip(3) == seq![' '] + t,
        !text::is_ws(task_text(c, t).last()),
        lacks(task_text(c, t), '/'),
        lacks(task_text(c, t), '\n'),
        lacks(task_text(c, t), '\t'),
        lacks(task_text(c, t), '\r'),
{
    lemma_text_ends(t);
    let l = task_text(c, t);
    assert(l.skip(3) =~= seq![' '] + t);
    assert(l.last() == t.last());
    assert forall|i: int| 0 <= i < l.len() implies #[trigger] l[i] != '/' && l[i] != '\n' && l[i] != '\t'
        && l[i] != '\r' by {
        if i >= 4 {
            assert(l[i] == t[i - 4]);
        }
    }
}

pub proof fn lemma_find_close(c: char, t: Seq<char>)
    requires
        task_ok(c, t),
    ensures
        find(task_text(c, t), "]"@) == Some(2int),
{
    reveal_strlit("]");
    let l = task_text(c, t);
    lemma_task_text(c, t);
    text::lemma_find_from(l, "]"@, 0);
    assert(text::matches_at(l, "]"@, 2)) by {
        assert(l.subrange(2, 3) =~= "]"@);
    }
    assert(!text::matches_at(l, "]"@, 0)) by {
        if text::matches_at(l, "]"@, 0) {
            assert(l.subrange(0, 1)[0] == l[0]);
        }
    }
    assert(!text::matches_at(l, "]"@, 1)) by {
        if text::matches_at(l, "]"@, 1) {
            assert(l.subrange(1, 2)[0] == l[1]);
        }
    }
}

/// What the header of a task line gives: the sign's marker, no label, the
/// text, no gates and no closed issue.
pub proof fn lemma_task_header(c: char, t: Seq<char>)
    requires
        task_ok(c, t),
    ensures
        parse::header_of(task_text(c, t)) == task_text(c, t),
        parse::task_header_spec(task_text(c, t)) == Some((marker_of(c), None::<Seq<char>>, t, Seq::<(Seq<char>, Option<Seq<char>>)>::empty(), None::<u32>)),
{
    let l = task_text(c, t);
    lemma_task_text(c, t);
    lemma_text_ends(t);
    lemma_header_id(l);
    reveal_strlit("++");
    reveal_strlit("+");
    reveal_strlit("[");
    lemma_first_differs(l, "++"@);
    lemma_first_differs(l, "+"@);
    text::lemma_lead_count(l, text::char_pred('-'), 0);
    assert(line::task_prefix_spec(l) == (crate::types::TaskPrefix::Unset, l));
    assert(starts_with(l, "["@)) by {
        assert(l.take(1) =~= "["@);
    }
    lemma_find_close(c, t);
    let inside = l.subrange(1, 2);
    assert(inside =~= seq![c]);
    if c == ' ' {
        assert(text::is_ws(' '));
        text::lemma_lead_count(inside, text::ws_pred(), 1);
        assert(trim(inside).len() == 0);
    } else {
        assert(!text::is_ws(c));
        lemma_trim_id(inside);
        reveal_strlit("!");
        reveal_strlit("o");
        reveal_strlit("x");
        if c == '!' {
            assert(inside =~= "!"@);
        } else if c == 'o' {
            assert(inside =~= "o"@);
            assert(inside != "!"@);
        } else {
            assert(inside =~= "x"@);
            assert(inside != "!"@);
            assert(inside != "o"@);
        }
    }
    assert(line::bracket_content_spec(inside) == (None::<Seq<char>>, marker_of(c).kind, marker_of(c).priority, None::<u32>));
    lemma_trim_after_space(t);
    reveal_strlit("{");
    lemma_not_found(t, "{"@, 0);
    assert(line::gates_spec(t) =~= Seq::empty());
    assert(line::remove_gates_spec(t) == t);
    reveal_strlit("git:closes #");
    lemma_not_found(t, "git:closes #"@, 3);
    assert(line::closes_spec(t) == (t, None::<u32>));
    lemma_trim_id(t);
}

// ── Line kinds ─────────────────────────────────────────────────

pub proof fn lemma_group_kind(d: nat, w: Seq<char>)
    requires
        group_ok(d, w),
    ensures
        blocks::kind_of(group_text(d, w), group_text(d, w)) == LineKind::Group,
{
    let l = group_text(d, w);
    lemma_group_text(d, w);
    lemma_name_ends(w);
    assert(lacks(l, ':'));
    reveal_strlit("```");
    reveal_strlit("//");
    reveal_strlit("---");
    reveal_strlit("+");
    reveal_strlit("++");
    reveal_strlit("## Entity:");
    reveal_strlit("## Entity :");
    reveal_strlit("## Metric:");
    reveal_strlit("## Metric :");
    reveal_strlit("#");
    reveal_strlit("#(");
    reveal_strlit("define:@");
    reveal_strlit("define:$");
    reveal_strlit("mutate:@");
    reveal_strlit("mutate:$");
    reveal_strlit("delete:@");
    reveal_strlit("delete:$");
    reveal_strlit("query:");
    reveal_strlit("? ");
    reveal_strlit("flow:");
    reveal_strlit("states:");
    reveal_strlit("validate ");
    reveal_strlit("check:");
    reveal_strlit("check:@");
    reveal_strlit("form:");
    reveal_strlit("form:install");
    reveal_strlit("mod:$");
    reveal_strlit("mod:");
    reveal_strlit("project:");
    reveal_strlit("commands:");
    reveal_strlit("serve:");
    reveal_strlit("sync:");
    reveal_strlit("git:");
    reveal_strlit("snap:");
    reveal_strlit("diff:");
    reveal_strlit("history:");
    reveal_strlit("status:");
    reveal_strlit("if ");
    reveal_strlit("**");
    reveal_strlit("webhook:");
    reveal_strlit("remember:");
    reveal_strlit("recall:");
    reveal_strlit("^");
    reveal_strlit("files:");
    reveal_strlit("policy:");
    reveal_strlit("gate:");
    reveal_strlit("gate:name");
    reveal_strlit("escalate:");
    reveal_strlit("use $");
    reveal_strlit("use @");
    reveal_strlit("%");
    reveal_strlit("$");
    reveal_strlit("issue:");
    reveal_strlit("comment:");
    reveal_strlit("routine:");
    lemma_first_differs(l, "```"@);
    lemma_first_differs(l, "//"@);
    lemma_first_differs(l, "---"@);
    lemma_first_differs(l, "+"@);
    lemma_first_differs(l, "++"@);
    lemma_not_found(l, "## Entity:"@, 9);
    lemma_not_found(l, "## Entity :"@, 10);
    lemma_not_found(l, "## Metric:"@, 9);
    lemma_not_found(l, "## Metric :"@, 10);
    assert(starts_with(l, "#"@)) by {
        assert(l.take(1) =~= "#"@);
    }
    assert(!starts_with(l, "#("@)) by {
        if starts_with(l, "#("@) {
            assert(l.take(2)[1] == l[1]);
        }
    }
}

pub proof fn lemma_task_kind(c: char, t: Seq<char>)
    requires
        task_ok(c, t),
    ensures
        blocks::kind_of(task_text(c, t), task_text(c, t)) == LineKind::Task,
{
    let l = task_text(c, t);
    lemma_task_text(c, t);
    reveal_strlit("```");
    reveal_strlit("//");
    reveal_strlit("---");
    reveal_strlit("+");
    reveal_strlit("++");
    reveal_strlit("## Entity:");
    reveal_strlit("## Entity :");
    reveal_strlit("## Metric:");
    reveal_strlit("## Metric :");
    reveal_strlit("#");
    reveal_strlit("#(");
    reveal_strlit("define:@");
    reveal_strlit("define:$");
    reveal_strlit("mutate:@");
    reveal_strlit("mutate:$");
    reveal_strlit("delete:@");
    reveal_strlit("delete:$");
    reveal_strlit("query:");
    reveal_strlit("? ");
    reveal_strlit("flow:");
    reveal_strlit("states:");
    reveal_strlit("validate ");
    reveal_strlit("check:");
    reveal_strlit("check:@");
    reveal_strlit("form:");
    reveal_strlit("form:install");
    reveal_strlit("mod:$");
    reveal_strlit("mod:");
    reveal_strlit("project:");
    reveal_strlit("commands:");
    reveal_strlit("serve:");
    reveal_strlit("sync:");
    reveal_strlit("git:");
    reveal_strlit("snap:");
    reveal_strlit("diff:");
    reveal_strlit("history:");
    reveal_strlit("status:");
    reveal_strlit("if ");
    reveal_strlit("**");
    reveal_strlit("webhook:");
    reveal_strlit("remember:");
    reveal_strlit("recall:");
    reveal_strlit("^");
    reveal_strlit("files:");
    reveal_strlit("policy:");
    reveal_strlit("gate:");
    reveal_strlit("gate:name");
    reveal_strlit("escalate:");
    reveal_strlit("use $");
    reveal_strlit("use @");
    reveal_strlit("%");
    reveal_strlit("$");
    reveal_strlit("issue:");
    reveal_strlit("comment:");
    reveal_strlit("routine:");
    lemma_first_differs(l, "```"@);
    lemma_first_differs(l, "//"@);
    lemma_first_differs(l, "---"@);
    lemma_first_differs(l, "+"@);
    lemma_first_differs(l, "++"@);
    lemma_first_differs(l, "define:@"@);
    lemma_first_differs(l, "define:$"@);
    lemma_first_differs(l, "mutate:@"@);
    lemma_first_differs(l, "mutate:$"@);
    lemma_first_differs(l, "delete:@"@);
    lemma_first_differs(l, "delete:$"@);
    lemma_first_differs(l, "query:"@);
    lemma_first_differs(l, "? "@);
    lemma_first_differs(l, "flow:"@);
    lemma_first_differs(l, "states:"@);
    lemma_first_differs(l, "validate "@);
    lemma_first_differs(l, "check:"@);
    lemma_first_differs(l, "check:@"@);
    lemma_first_differs(l, "form:"@);
    lemma_first_differs(l, "form:install"@);
    lemma_first_differs(l, "mod:$"@);
    lemma_first_differs(l, "mod:"@);
    lemma_first_differs(l, "project:"@);
    lemma_first_differs(l, "commands:"@);
    lemma_first_differs(l, "serve:"@);
    lemma_first_differs(l, "sync:"@);
    lemma_first_differs(l, "git:"@);
    lemma_first_differs(l, "snap:"@);
    lemma_first_differs(l, "diff:"@);
    lemma_first_differs(l, "history:"@);
    lemma_first_differs(l, "status:"@);
    lemma_first_differs(l, "if "@);
    lemma_first_differs(l, "**"@);
    lemma_first_differs(l, "webhook:"@);
    lemma_first_differs(l, "remember:"@);
    lemma_first_differs(l, "recall:"@);
    lemma_first_differs(l, "^"@);
    lemma_first_differs(l, "files:"@);
    lemma_first_differs(l, "policy:"@);
    lemma_first_differs(l, "gate:"@);
    lemma_first_differs(l, "gate:name"@);
    lemma_first_differs(l, "escalate:"@);
    lemma_first_differs(l, "use $"@);
    lemma_first_differs(l, "use @"@);
    lemma_first_differs(l, "%"@);
    lemma_first_differs(l, "$"@);
    lemma_first_differs(l, "issue:"@);
    lemma_first_differs(l, "comment:"@);
    lemma_first_differs(l, "routine:"@);
    assert(!blocks::is_bold_line(l));
    assert(!blocks::is_scope_line(l));
    reveal_strlit("-");
    reveal_strlit("[");
    reveal_strlit("]");
    lemma_first_differs(l, "-"@);
    assert(text::trim_start_matches(l, "+"@) == l);
    assert(text::trim_start_matches(l, "-"@) == l);
    assert(starts_with(l, "["@)) by {
        assert(l.take(1) =~= "["@);
    }
    lemma_find_close(c, t);
    assert(line::is_task_line_spec(l));
    assert(!blocks::is_prose_keyword3(l));
    assert(!blocks::is_prose_keyword7(l));
    lemma_first_differs(l, "## Entity:"@);
    lemma_first_differs(l, "## Entity :"@);
    lemma_first_differs(l, "## Metric:"@);
    lemma_first_differs(l, "## Metric :"@);
    lemma_first_differs(l, "#"@);
    lemma_first_differs(l, "#("@);
    assert(!blocks::is_divider(l));
    assert(blocks::kind_of_rest(l) == LineKind::Task);
}


// ── Variable lines ─────────────────────────────────────────────

pub open spec fn is_lower(c: char) -> bool {
    0x61 <= (c as u32) <= 0x7A
}

pub open spec fn is_digit_char(c: char) -> bool {
    0x30 <= (c as u32) <= 0x39
}

/// The line of a variable `n` with literal value `v`.
pub open spec fn var_line(n: Seq<char>, v: Seq<char>) -> Seq<char> {
    n + " = "@ + v
}

/// A variable name of lower-case letters and underscores that starts with a
/// letter and does not start with `if`, `use` or `validate` (lines the
/// language reads otherwise), and a value of one or more digits.
pub open spec fn var_ok(n: Seq<char>, v: Seq<char>) -> bool {
    &&& n.len() > 0
    &&& is_lower(n[0])
    &&& forall|i: int| 0 <= i < n.len() ==> #[trigger] is_lower(n[i]) || n[i] == '_'
    &&& v.len() > 0
    &&& forall|i: int| 0 <= i < v.len() ==> #[trigger] is_digit_char(v[i])
    &&& !starts_with(n, "if"@)
    &&& !starts_with(n, "use"@)
    &&& !starts_with(n, "validate"@)
}

pub proof fn lemma_var_line(n: Seq<char>, v: Seq<char>)
    requires
        var_ok(n, v),
    ensures
        var_line(n, v).len() == n.len() + 3 + v.len(),
        forall|i: int| 0 <= i < n.len() ==> #[trigger] var_line(n, v)[i] == n[i],
        var_line(n, v)[n.len() as int] == ' ',
        var_line(n, v)[n.len() as int + 1] == '=',
        var_line(n, v)[n.len() as int + 2] == ' ',
        var_line(n, v).take(n.len() as int + 1) == n + " "@,
        var_line(n, v).skip(n.len() as int + 2) == seq![' '] + v,
        var_line(n, v)[0] == n[0],
        var_line(n, v).last() == v.last(),
        !text::is_ws(var_line(n, v)[0]),
        !text::is_ws(var_line(n, v).last()),
        !text::is_ws(n[0]) && !text::is_ws(n.last()),
        !text::is_ws(v[0]) && !text::is_ws(v.last()),
        lacks(n, ' ') && lacks(n, '=') && lacks(v, '|') && lacks(v, '@'),
        forall|c: char| c != ' ' && c != '=' && lacks(n, c) && lacks(v, c) ==> lacks(var_line(n, v), c),
        lacks(var_line(n, v), ':') && lacks(var_line(n, v), '/') && lacks(var_line(n, v), '\n'),
        lacks(var_line(n, v), '\t') && lacks(var_line(n, v), '\r') && lacks(var_line(n, v), '['),
{
    reveal_strlit(" = ");
    reveal_strlit(" ");
    let l = var_line(n, v);
    assert(l.take(n.len() as int + 1) =~= n + " "@);
    assert(l.skip(n.len() as int + 2) =~= seq![' '] + v);
    assert forall|i: int| 0 <= i < n.len() implies #[trigger] l[i] == n[i] by {}
    assert(l.last() == v.last());
    assert(is_lower(n[n.len() - 1]) || n[n.len() - 1] == '_');
    assert(is_digit_char(v[v.len() - 1]));
    assert(is_digit_char(v[0]));
    assert(('_' as u32) == 95 && (' ' as u32) == 32 && ('=' as u32) == 61 && ('|' as u32) == 124);
    assert(('@' as u32) == 64 && (':' as u32) == 58 && ('/' as u32) == 47 && ('\n' as u32) == 10);
    assert(('\t' as u32) == 9 && ('\r' as u32) == 13 && ('[' as u32) == 91);
    assert forall|i: int| 0 <= i < n.len() implies #[trigger] n[i] != ' ' && n[i] != '=' && n[i] != ':' && n[i]
        != '/' && n[i] != '\n' && n[i] != '\t' && n[i] != '\r' && n[i] != '[' by {
        assert(is_lower(n[i]) || n[i] == '_');
    }
    assert forall|i: int| 0 <= i < v.len() implies #[trigger] v[i] != '|' && v[i] != '@' && v[i] != ':' && v[i]
        != '/' && v[i] != '\n' && v[i] != '\t' && v[i] != '\r' && v[i] != '[' by {
        assert(is_digit_char(v[i]));
    }
    assert forall|c: char| c != ' ' && c != '=' && lacks(n, c) && lacks(v, c) implies lacks(l, c) by {
        assert forall|i: int| 0 <= i < l.len() implies #[trigger] l[i] != c by {
            if i < n.len() {
            } else if i < n.len() + 3 {
                assert(l[i] == " = "@[i - n.len()]);
            } else {
                assert(l[i] == v[i - n.len() - 3]);
            }
        }
    }
}

/// A pattern without spaces that starts a variable line starts its name.
pub proof fn lemma_var_prefix(n: Seq<char>, v: Seq<char>, p: Seq<char>)
    requires
        var_ok(n, v),
        lacks(p, ' '),
        p.len() > 0,
        starts_with(n, p) ==> false,
    ensures
        !starts_with(var_line(n, v), p),
{
    let l = var_line(n, v);
    lemma_var_line(n, v);
    if starts_with(l, p) {
        if p.len() > n.len() {
            assert(l.take(p.len() as int)[n.len() as int] == p[n.len() as int]);
        } else {
            assert(n.take(p.len() as int) =~= l.take(p.len() as int));
        }
    }
}

#[verifier::spinoff_prover]
#[verifier::rlimit(60)]
pub proof fn lemma_var_kind(n: Seq<char>, v: Seq<char>)
    requires
        var_ok(n, v),
    ensures
        !line::is_var_excluded(var_line(n, v)),
        blocks::kind_of(var_line(n, v), var_line(n, v)) == LineKind::Variable,
        line::variable_spec(var_line(n, v)) == Some((n, line::VarValueView::Literal(v))),
        parse::header_of(var_line(n, v)) == var_line(n, v),
{
    let l = var_line(n, v);
    lemma_var_line(n, v);
    lemma_header_id(l);
    reveal_strlit("#");
    reveal_strlit("$");
    reveal_strlit("%");
    reveal_strlit("+");
    reveal_strlit("-");
    reveal_strlit("=");
    reveal_strlit("@");
    reveal_strlit("[");
    reveal_strlit("^");
    reveal_strlit("#(");
    reveal_strlit("**");
    reveal_strlit("++");
    reveal_strlit("//");
    reveal_strlit("? ");
    reveal_strlit("---");
    reveal_strlit("```");
    reveal_strlit("if ");
    reveal_strlit("git:");
    reveal_strlit("mod:");
    reveal_strlit("use ");
    reveal_strlit("diff:");
    reveal_strlit("flow:");
    reveal_strlit("form:");
    reveal_strlit("gate:");
    reveal_strlit("mod:$");
    reveal_strlit("snap:");
    reveal_strlit("sync:");
    reveal_strlit("use $");
    reveal_strlit("use @");
    reveal_strlit("check:");
    reveal_strlit("files:");
    reveal_strlit("issue:");
    reveal_strlit("query:");
    reveal_strlit("serve:");
    reveal_strlit("check:@");
    reveal_strlit("define:");
    reveal_strlit("delete:");
    reveal_strlit("mutate:");
    reveal_strlit("policy:");
    reveal_strlit("recall:");
    reveal_strlit("states:");
    reveal_strlit("status:");
    reveal_strlit("comment:");
    reveal_strlit("define:$");
    reveal_strlit("define:@");
    reveal_strlit("delete:$");
    reveal_strlit("delete:@");
    reveal_strlit("history:");
    reveal_strlit("mutate:$");
    reveal_strlit("mutate:@");
    reveal_strlit("project:");
    reveal_strlit("routine:");
    reveal_strlit("validate");
    reveal_strlit("webhook:");
    reveal_strlit("commands:");
    reveal_strlit("escalate:");
    reveal_strlit("gate:name");
    reveal_strlit("remember:");
    reveal_strlit("validate ");
    reveal_strlit("## Entity:");
    reveal_strlit("## Metric:");
    reveal_strlit("## Entity :");
    reveal_strlit("## Metric :");
    reveal_strlit("form:install");
    lemma_first_differs(l, "#"@);
    lemma_first_differs(l, "$"@);
    lemma_first_differs(l, "%"@);
    lemma_first_differs(l, "+"@);
    lemma_first_differs(l, "-"@);
    lemma_first_differs(l, "@"@);
    lemma_first_differs(l, "["@);
    lemma_first_differs(l, "^"@);
    lemma_first_differs(l, "#("@);
    lemma_first_differs(l, "**"@);
    lemma_first_differs(l, "++"@);
    lemma_first_differs(l, "//"@);
    lemma_first_differs(l, "? "@);
    lemma_first_differs(l, "---"@);
    lemma_first_differs(l, "```"@);
    lemma_not_found(l, "git:"@, 3);
    lemma_not_found(l, "mod:"@, 3);
    lemma_not_found(l, "diff:"@, 4);
    lemma_not_found(l, "flow:"@, 4);
    lemma_not_found(l, "form:"@, 4);
    lemma_not_found(l, "gate:"@, 4);
    lemma_not_found(l, "mod:$"@, 3);
    lemma_not_found(l, "snap:"@, 4);
    lemma_not_found(l, "sync:"@, 4);
    lemma_not_found(l, "check:"@, 5);
    lemma_not_found(l, "files:"@, 5);
    lemma_not_found(l, "issue:"@, 5);
    lemma_not_found(l, "query:"@, 5);
    lemma_not_found(l, "serve:"@, 5);
    lemma_not_found(l, "check:@"@, 5);
    lemma_not_found(l, "define:"@, 6);
    lemma_not_found(l, "delete:"@, 6);
    lemma_not_found(l, "mutate:"@, 6);
    lemma_not_found(l, "policy:"@, 6);
    lemma_not_found(l, "recall:"@, 6);
    lemma_not_found(l, "states:"@, 6);
    lemma_not_found(l, "status:"@, 6);
    lemma_not_found(l, "comment:"@, 7);
    lemma_not_found(l, "define:$"@, 6);
    lemma_not_found(l, "define:@"@, 6);
    lemma_not_found(l, "delete:$"@, 6);
    lemma_not_found(l, "delete:@"@, 6);
    lemma_not_found(l, "history:"@, 7);
    lemma_not_found(l, "mutate:$"@, 6);
    lemma_not_found(l, "mutate:@"@, 6);
    lemma_not_found(l, "project:"@, 7);
    lemma_not_found(l, "routine:"@, 7);
    lemma_var_prefix(n, v, "validate"@);
    lemma_not_found(l, "webhook:"@, 7);
    lemma_not_found(l, "commands:"@, 8);
    lemma_not_found(l, "escalate:"@, 8);
    lemma_not_found(l, "gate:name"@, 4);
    lemma_not_found(l, "remember:"@, 8);
    lemma_not_found(l, "## Entity:"@, 9);
    lemma_not_found(l, "## Metric:"@, 9);
    lemma_not_found(l, "## Entity :"@, 10);
    lemma_not_found(l, "## Metric :"@, 10);
    lemma_not_found(l, "form:install"@, 4);
    reveal_strlit("if");
    reveal_strlit("use");
    assert(!starts_with(l, "if "@)) by {
        lemma_var_prefix(n, v, "if"@);
        if starts_with(l, "if "@) {
            assert(l.take(2) =~= "if"@);
        }
    }
    assert(!starts_with(l, "use "@)) by {
        lemma_var_prefix(n, v, "use"@);
        if starts_with(l, "use "@) {
            assert(l.take(3) =~= "use"@);
        }
    }
    assert(!starts_with(l, "use $"@)) by {
        if starts_with(l, "use $"@) {
            assert(l.take(4) =~= "use "@);
        }
    }
    assert(!starts_with(l, "use @"@)) by {
        if starts_with(l, "use @"@) {
            assert(l.take(4) =~= "use "@);
        }
    }
    lemma_var_prefix(n, v, "validate"@);
    assert(!starts_with(l, "validate "@)) by {
        if starts_with(l, "validate "@) {
            assert(l.take(8) =~= "validate"@);
        }
    }
    assert forall|k: int| 0 <= k < 35 implies !starts_with(l, #[trigger] line::var_excluded()[k]) by {}
    assert(!blocks::is_bold_line(l));
    assert(!blocks::is_scope_line(l));
    assert(!blocks::is_prose_keyword3(l));
    assert(!blocks::is_prose_keyword7(l));
    assert(!blocks::is_entity_header(l));
    assert(!blocks::is_metric_header(l));
    assert(!blocks::is_divider(l));
    assert(!blocks::is_metric_header(l));
    assert(text::trim_start_matches(l, "+"@) == l);
    assert(text::trim_start_matches(l, "-"@) == l);
    assert(!line::is_task_line_spec(l));
    // `=`: first at the end of the name and its space
    text::lemma_find_from(l, "="@, 0);
    let eq: int = n.len() as int + 1;
    assert(text::matches_at(l, "="@, eq)) by {
        assert(l.subrange(eq, eq + 1) =~= "="@);
    }
    assert forall|j: int| 0 <= j < eq implies !text::matches_at(l, "="@, j) by {
        if text::matches_at(l, "="@, j) {
            assert(l.subrange(j, j + 1)[0] == l[j]);
        }
    }
    assert(find(l, "="@) == Some(eq));
    let name = trim(l.take(eq));
    let raw = trim(l.skip(eq + 1));
    assert(l.take(eq) =~= n + " "@);
    assert(n + " "@ =~= n.push(' '));
    text::lemma_lead_count(n.push(' '), text::ws_pred(), 0);
    assert(text::trim_start(n.push(' ')) =~= n.push(' '));
    assert(text::is_ws(' '));
    text::lemma_trail_count(n.push(' '), text::ws_pred(), 1);
    assert(name =~= n);
    lemma_trim_after_space(v);
    assert(raw == v);
    lemma_not_found(n, " "@, 0);
    reveal_strlit("||");
    reveal_strlit("|");
    lemma_first_differs(v, "||"@);
    lemma_first_differs(v, "|"@);
    lemma_first_differs(v, "@"@);
    assert(line::var_value_spec(v) == line::VarValueView::Literal(v));
    assert(blocks::kind_of_rest(l) == LineKind::Variable);
}

// ── Documents of header and task lines ─────────────────────────

/// A line of such a document: blank, a group header or a task.
pub enum PlainLine {
    Blank,
    Header(nat, Seq<char>),
    Item(char, Seq<char>),
    Var(Seq<char>, Seq<char>),
}

pub open spec fn line_of(f: PlainLine) -> Seq<char> {
    match f {
        PlainLine::Blank => Seq::empty(),
        PlainLine::Header(d, w) => group_text(d, w),
        PlainLine::Item(c, t) => task_text(c, t),
        PlainLine::Var(n, v) => var_line(n, v),
    }
}

pub open spec fn plain_ok(f: PlainLine) -> bool {
    match f {
        PlainLine::Blank => true,
        PlainLine::Header(d, w) => group_ok(d, w),
        PlainLine::Item(c, t) => task_ok(c, t),
        PlainLine::Var(n, v) => var_ok(n, v),
    }
}

pub open spec fn all_ok(fs: Seq<PlainLine>) -> bool {
    forall|i: int| 0 <= i < fs.len() ==> #[trigger] plain_ok(fs[i])
}

pub open spec fn texts_of(fs: Seq<PlainLine>) -> Seq<Seq<char>> {
    fs.map_values(|f: PlainLine| line_of(f))
}

/// The first non-blank line at or after `p`, or the end.
pub open spec fn next_line(fs: Seq<PlainLine>, p: int) -> int
    decreases fs.len() - p,
{
    if p < 0 || p >= fs.len() {
        fs.len() as int
    } else if fs[p] is Blank {
        next_line(fs, p + 1)
    } else {
        p
    }
}

/// The non-blank lines from `p` on.
pub open spec fn items_from(fs: Seq<PlainLine>, p: int) -> Seq<PlainLine>
    decreases fs.len() - p,
{
    if p < 0 || p >= fs.len() {
        Seq::empty()
    } else if fs[p] is Blank {
        items_from(fs, p + 1)
    } else {
        seq![fs[p]] + items_from(fs, p + 1)
    }
}

/// The node that a non-blank line gives, as its fields show it.
pub open spec fn node_is(n: crate::types::Node, f: PlainLine) -> bool {
    match f {
        PlainLine::Blank => false,
        PlainLine::Header(d, w) => n matches crate::types::Node::Group(g) && {
            &&& g.depth as nat == d
            &&& g.name@ == norm(w)
            &&& g.atoms@.len() == 0
            &&& g.gates@.len() == 0
            &&& g.children@.len() == 0
        },
        PlainLine::Item(c, t) => n matches crate::types::Node::Task(tk) && {
            &&& tk.marker == marker_of(c)
            &&& tk.label is None
            &&& tk.text@ == t
            &&& tk.gates@.len() == 0
            &&& tk.children@.len() == 0
            &&& tk.on_pass is None
            &&& tk.on_fail is None
            &&& tk.match_arms is None
            &&& tk.closes is None
            &&& tk.depends is None
            &&& tk.validate is None
            &&& tk.status is None
        },
        PlainLine::Var(nm, v) => n matches crate::types::Node::Variable(x) && x.name@ == nm
            && line::var_value_view(x.value) == line::VarValueView::Literal(v),
    }
}

pub proof fn lemma_line_shape(fs: Seq<PlainLine>, i: int)
    requires
        all_ok(fs),
        0 <= i < fs.len(),
    ensures
        texts_of(fs)[i] == line_of(fs[i]),
        (trim(texts_of(fs)[i]).len() == 0) == (fs[i] is Blank),
        text::indent_of(texts_of(fs)[i]) == 0,
        lacks(texts_of(fs)[i], '\n'),
        lacks(texts_of(fs)[i], '\t'),
        lacks(texts_of(fs)[i], '\r'),
        !(fs[i] is Blank) ==> texts_of(fs)[i].len() > 0 && !text::is_ws(texts_of(fs)[i].last()),
{
    let l = texts_of(fs)[i];
    assert(plain_ok(fs[i]));
    match fs[i] {
        PlainLine::Blank => {
            assert(l =~= Seq::<char>::empty());
            assert(trim(l) =~= Seq::<char>::empty());
            assert(l.take(0) =~= Seq::<char>::empty());
        },
        PlainLine::Header(d, w) => {
            lemma_group_text(d, w);
            lemma_name_ends(w);
            lemma_trim_id(l);
            text::lemma_lead_count(l, text::ws_pred(), 0);
            assert(l.take(0) =~= Seq::<char>::empty());
        },
        PlainLine::Item(c, t) => {
            lemma_task_text(c, t);
            lemma_trim_id(l);
            text::lemma_lead_count(l, text::ws_pred(), 0);
            assert(l.take(0) =~= Seq::<char>::empty());
        },
        PlainLine::Var(n, v) => {
            lemma_var_line(n, v);
            lemma_trim_id(l);
            text::lemma_lead_count(l, text::ws_pred(), 0);
            assert(l.take(0) =~= Seq::<char>::empty());
        },
    }
}

/// Within the lines, a block one level down ends at the next non-blank
/// line and holds nothing.
pub proof fn lemma_inner_block(fs: Seq<PlainLine>, q: int, ns: Seq<crate::types::Node>)
    requires
        all_ok(fs),
        0 <= q <= fs.len(),
    ensures
        blocks::block_end(texts_of(fs), q, 1, 1) == next_line(fs, q),
        blocks::block_err(texts_of(fs), q, 1, 1) is None,
        blocks::block_nodes(texts_of(fs), q, 1, 1, ns) ==> ns.len() == 0,
    decreases fs.len() - q,
{
    let lv = texts_of(fs);
    if q < fs.len() {
        lemma_line_shape(fs, q);
        if fs[q] is Blank {
            lemma_inner_block(fs, q + 1, ns);
        }
    }
}

/// What one non-blank line gives among the top-level lines: its kind, where
/// it ends, no error, and its node.
#[verifier::spinoff_prover]
#[verifier::rlimit(50)]
pub proof fn lemma_line_facts(fs: Seq<PlainLine>, i: int, n: crate::types::Node)
    requires
        all_ok(fs),
        0 <= i < fs.len(),
        !(fs[i] is Blank),
    ensures
        !blocks::line_none(texts_of(fs), i),
        i + 1 <= blocks::line_end(texts_of(fs), i, 0) <= fs.len(),
        items_from(fs, blocks::line_end(texts_of(fs), i, 0)) == items_from(fs, i + 1),
        blocks::line_err(texts_of(fs), i, 0) is None,
        blocks::line_rel(texts_of(fs), i, 0, n) ==> node_is(n, fs[i]),
{
    let lv = texts_of(fs);
    lemma_line_shape(fs, i);
    assert(plain_ok(fs[i]));
    assert(blocks::child_indent(lv[i]) == 1);
    lemma_next_line(fs, i + 1);
    match fs[i] {
        PlainLine::Header(d, w) => {
            lemma_group_header(d, w);
            lemma_group_kind(d, w);
            lemma_group_text(d, w);
            lemma_name_ends(w);
            assert(lacks(lv[i], '/'));
            lemma_header_id(lv[i]);
            assert(blocks::line_kind(lv, i) == LineKind::Group);
            if blocks::line_rel(lv, i, 0, n) {
                let g = n->Group_0;
                lemma_inner_block(fs, i + 1, g.children@);
                assert(line::atoms_view(g.atoms@).len() == g.atoms@.len());
                assert(g.gates@.map_values(|x: crate::types::Gate| line::gate_view(x)).len() == g.gates@.len());
            }
            lemma_inner_block(fs, i + 1, Seq::empty());
        },
        PlainLine::Item(c, t) => {
            lemma_task_header(c, t);
            lemma_task_kind(c, t);
            lemma_task_text(c, t);
            lemma_text_ends(t);
            lemma_header_id(lv[i]);
            assert(blocks::line_kind(lv, i) == LineKind::Task);
            lemma_inner_block(fs, i + 1, Seq::empty());
            if blocks::line_rel(lv, i, 0, n) {
                let tk = n->Task_0;
                let all = choose|all: Seq<crate::types::Node>|
                    blocks::block_nodes(lv, i + 1, 1, 1, all) && #[trigger] blocks::task_block(tk, all);
                lemma_inner_block(fs, i + 1, all);
                assert(all =~= Seq::<crate::types::Node>::empty());
                assert(parse::task_fields_spec(all) == (Seq::<crate::types::Node>::empty(), None::<Seq<char>>, None::<Seq<char>>, None::<Seq<char>>));
                assert(parse::partition_spec(Seq::<crate::types::Node>::empty()).0.len() == 0);
                assert(tk.gates@.map_values(|x: crate::types::Gate| line::gate_view(x)).len() == tk.gates@.len());
            }
        },
        PlainLine::Var(nm, v) => {
            lemma_var_kind(nm, v);
            lemma_var_line(nm, v);
            lemma_header_id(lv[i]);
            assert(blocks::line_kind(lv, i) == LineKind::Variable);
        },
        PlainLine::Blank => {},
    }
}

pub proof fn lemma_next_line(fs: Seq<PlainLine>, p: int)
    requires
        0 <= p <= fs.len(),
    ensures
        p <= next_line(fs, p) <= fs.len(),
        items_from(fs, p) == items_from(fs, next_line(fs, p)),
    decreases fs.len() - p,
{
    if p < fs.len() && fs[p] is Blank {
        lemma_next_line(fs, p + 1);
    }
}

/// The top-level block of the lines: no error, and one node per non-blank
/// line, in order.
#[verifier::spinoff_prover]
#[verifier::rlimit(50)]
pub proof fn lemma_top_block(fs: Seq<PlainLine>, p: int, raw: Seq<crate::types::Node>)
    requires
        all_ok(fs),
        0 <= p <= fs.len(),
    ensures
        blocks::block_err(texts_of(fs), p, 0, 0) is None,
        blocks::block_nodes(texts_of(fs), p, 0, 0, raw) ==> raw.len() == items_from(fs, p).len() && forall|k: int|
            0 <= k < raw.len() ==> #[trigger] node_is(raw[k], items_from(fs, p)[k]),
    decreases fs.len() - p,
{
    let lv = texts_of(fs);
    if p < fs.len() {
        lemma_line_shape(fs, p);
        if fs[p] is Blank {
            lemma_top_block(fs, p + 1, raw);
        } else {
            let n = if raw.len() > 0 { raw[0] } else { crate::types::Node::Divider };
            lemma_line_facts(fs, p, n);
            let e = blocks::line_end(lv, p, 0);
            assert(blocks::clamp_end(blocks::line_end(lv, p, 0), p, lv.len() as int) == e);
            lemma_top_block(fs, e, raw.drop_first());
            if blocks::block_nodes(lv, p, 0, 0, raw) {
                let rest = items_from(fs, p + 1);
                assert(items_from(fs, p) == seq![fs[p]] + rest);
                assert forall|k: int| 0 <= k < raw.len() implies #[trigger] node_is(raw[k], items_from(fs, p)[k]) by {
                    if k > 0 {
                        assert(raw[k] == raw.drop_first()[k - 1]);
                        assert(items_from(fs, p)[k] == rest[k - 1]);
                    }
                }
            }
        }
    }
}

pub proof fn lemma_items_ok(fs: Seq<PlainLine>, p: int)
    requires
        all_ok(fs),
        0 <= p <= fs.len(),
    ensures
        all_ok(items_from(fs, p)),
        forall|k: int| 0 <= k < items_from(fs, p).len() ==> !(#[trigger] items_from(fs, p)[k] is Blank),
    decreases fs.len() - p,
{
    if p < fs.len() {
        lemma_items_ok(fs, p + 1);
        let rest = items_from(fs, p + 1);
        if !(fs[p] is Blank) {
            assert(plain_ok(fs[p]));
            assert forall|k: int| 0 <= k < items_from(fs, p).len() implies plain_ok(#[trigger] items_from(fs, p)[k])
                && !(items_from(fs, p)[k] is Blank) by {
                if k > 0 {
                    assert(items_from(fs, p)[k] == rest[k - 1]);
                }
            }
        }
    }
}

/// The canonical step keeps such a node as it is.
pub proof fn lemma_canon_node(n: crate::types::Node, m: crate::types::Node, f: PlainLine)
    requires
        node_is(n, f),
        plain_ok(f),
    ensures
        crate::canon::err_node(n) is None,
        crate::canon::ok_node(n, m) ==> node_is(m, f),
{
    match f {
        PlainLine::Header(d, w) => {
            let g = n->Group_0;
            lemma_name_ends(w);
            assert(!crate::canon::is_lattice(g));
            assert(g.children@ =~= Seq::<crate::types::Node>::empty());
            assert(crate::canon::err_seq(g.children@) is None);
            assert(crate::canon::sync_child_err(g.children@) is None);
            if crate::canon::ok_node(n, m) {
                assert(m is Group);
                let g2 = m->Group_0;
                assert(crate::canon::same_header(g, g2));
                if g.name@ == "Sync"@ {
                    assert(crate::canon::ok_sync_seq(g.children@, g2.children@));
                } else {
                    assert(crate::canon::ok_seq(g.children@, g2.children@));
                }
                assert(g2.children@.len() == 0);
                assert(node_is(m, f));
            }
            assert(n == crate::types::Node::Group(g));
            assert(crate::canon::err_node(n) is None);
        },
        PlainLine::Item(c, t) => {
            let tk = n->Task_0;
            assert(tk.children@ =~= Seq::<crate::types::Node>::empty());
            assert(crate::canon::err_seq(tk.children@) is None);
            assert(crate::canon::err_opt(tk.on_pass) is None);
            assert(crate::canon::err_opt(tk.on_fail) is None);
            assert(crate::canon::err_task(tk) is None);
            if crate::canon::ok_node(n, m) {
                let t2 = m->Task_0;
                assert(crate::canon::ok_task(tk, t2));
                assert(crate::canon::ok_seq(tk.children@, t2.children@));
                assert(t2.children@.len() == 0);
                assert(crate::canon::ok_opt(tk.on_pass, t2.on_pass));
                assert(t2.on_pass is None);
                assert(t2.on_fail is None);
                assert(t2.match_arms is None);
                assert(node_is(m, f));
            }
        },
        PlainLine::Var(_, _) => {},
        PlainLine::Blank => {},
    }
}

pub proof fn lemma_canon_seq(raw: Seq<crate::types::Node>, ms: Seq<crate::types::Node>, items: Seq<PlainLine>)
    requires
        raw.len() == items.len(),
        all_ok(items),
        forall|k: int| 0 <= k < raw.len() ==> #[trigger] node_is(raw[k], items[k]),
    ensures
        crate::canon::err_seq(raw) is None,
        crate::canon::ok_seq(raw, ms) ==> ms.len() == items.len() && forall|k: int|
            0 <= k < ms.len() ==> #[trigger] node_is(ms[k], items[k]),
    decreases raw.len(),
{
    if raw.len() > 0 {
        let last = raw.len() - 1;
        assert(node_is(raw[last], items[last]));
        assert(plain_ok(items[last]));
        lemma_canon_node(raw[last], if ms.len() > 0 { ms.last() } else { crate::types::Node::Divider }, items[last]);
        assert forall|k: int| 0 <= k < raw.drop_last().len() implies #[trigger] node_is(raw.drop_last()[k], items.drop_last()[k]) by {
            assert(node_is(raw[k], items[k]));
        }
        assert forall|i: int| 0 <= i < items.drop_last().len() implies #[trigger] plain_ok(items.drop_last()[i]) by {
            assert(plain_ok(items[i]));
        }
        lemma_canon_seq(raw.drop_last(), ms.drop_last(), items.drop_last());
        if crate::canon::ok_seq(raw, ms) {
            assert forall|k: int| 0 <= k < ms.len() implies #[trigger] node_is(ms[k], items[k]) by {
                if k < last {
                    assert(ms[k] == ms.drop_last()[k]);
                    assert(items[k] == items.drop_last()[k]);
                }
            }
        }
    }
}

/// What a document of such lines gives: no error, and one node per
/// non-blank line, in order, as the line shows it.
pub proof fn lemma_parse_lines(fs: Seq<PlainLine>, src: Seq<char>, r: Result<crate::types::Document, crate::types::ParseError>)
    requires
        all_ok(fs),
        parse::source_lines(src) == texts_of(fs),
        parse::parsed(src, r),
    ensures
        r matches Ok(d) && d.nodes@.len() == items_from(fs, 0).len() && forall|k: int|
            0 <= k < d.nodes@.len() ==> #[trigger] node_is(d.nodes@[k], items_from(fs, 0)[k]),
{
    let lv = texts_of(fs);
    lemma_top_block(fs, 0, Seq::empty());
    let raw = choose|raw: Seq<crate::types::Node>| #[trigger] blocks::block_nodes(lv, 0, 0, 0, raw) && match crate::canon::err_seq(raw) {
        Some(bad) => r matches Err(e) && parse::is_invalid_sync_class(e, bad.0, bad.1),
        None => r matches Ok(d) && crate::canon::ok_seq(raw, d.nodes@),
    };
    lemma_top_block(fs, 0, raw);
    lemma_items_ok(fs, 0);
    let items = items_from(fs, 0);
    lemma_canon_seq(raw, if r is Ok { r->Ok_0.nodes@ } else { Seq::empty() }, items);
}

/// The text that `render` writes for the node of a line.
pub open spec fn rend(f: PlainLine) -> Seq<char> {
    match f {
        PlainLine::Header(d, w) => group_text(d, norm(w)) + "\n\n"@,
        _ => line_of(f) + "\n"@,
    }
}

/// The line that a line's node is written back as: a group header with its
/// name's words joined by single spaces, the other lines as they are.
pub open spec fn out_desc(f: PlainLine) -> PlainLine {
    match f {
        PlainLine::Header(d, w) => PlainLine::Header(d, norm(w)),
        _ => f,
    }
}

pub proof fn lemma_out_desc(f: PlainLine)
    requires
        plain_ok(f),
    ensures
        plain_ok(out_desc(f)),
        out_desc(out_desc(f)) == out_desc(f),
        rend(out_desc(f)) == rend(f),
        (out_desc(f) is Header) == (f is Header),
        !(f is Blank) ==> !(out_desc(f) is Blank),
{
    match f {
        PlainLine::Header(d, w) => {
            lemma_split_name(w);
            let nw = norm(w);
            assert(name_part(nw));
            lemma_split_name(nw);
            assert(norm(nw) == nw);
            assert(is_letter(nw[0]));
        },
        _ => {},
    }
}

/// The node of a line is written back as that line.
pub proof fn lemma_node_out(n: crate::types::Node, f: PlainLine, acc: Seq<Seq<char>>)
    requires
        node_is(n, f),
        plain_ok(f),
    ensures
        crate::render::node_text(n, Seq::empty()) == rend(f),
        crate::format::node_lines(acc, n, Seq::empty()) == acc.push(line_of(out_desc(f))),
        crate::format::is_block(n) == (f is Header),
{
    reveal_strlit(" ");
    reveal_strlit("\n");
    reveal_strlit("\n\n");
    match f {
        PlainLine::Header(d, w) => {
            let g = n->Group_0;
            lemma_out_desc(f);
            let nw = norm(w);
            lemma_group_text(d, nw);
            lemma_split_name(w);
            lemma_name_ends(nw);
            let l = group_text(d, nw);
            assert(crate::render::atoms_text(g.atoms@) =~= Seq::<char>::empty());
            assert(crate::render::nodes_text(g.children@, crate::render::step()) =~= Seq::<char>::empty());
            assert(Seq::<char>::empty() + text::repeat("#"@, g.depth as nat) + " "@ + g.name@ =~= l);
            assert(crate::format::atoms_str(g.atoms@) =~= Seq::<char>::empty());
            assert(crate::format::gates_str(g.gates@) =~= Seq::<char>::empty());
            let h = text::repeat("#"@, g.depth as nat) + " "@ + g.name@ + crate::format::atoms_str(g.atoms@) + crate::format::gates_str(g.gates@);
            assert(h =~= l);
            lemma_trim_id(l);
            assert(Seq::<char>::empty() + l =~= l);
            assert(crate::format::push_line(acc, Seq::empty(), h) == acc.push(l));
            assert(crate::format::nodes_lines(acc.push(l), g.children@, crate::format::level(), false) == acc.push(l));
        },
        PlainLine::Item(c, t) => {
            let tk = n->Task_0;
            lemma_task_text(c, t);
            lemma_text_ends(t);
            lemma_trim_id(t);
            let l = task_text(c, t);
            reveal_strlit("[");
            reveal_strlit("]");
            reveal_strlit("!");
            reveal_strlit("o");
            reveal_strlit("x");
            let sign = if c == '!' { "!"@ } else if c == 'o' { "o"@ } else if c == 'x' { "x"@ } else { " "@ };
            assert(crate::render::kind_sign(tk.marker, tk.label) == sign);
            assert(crate::render::marker_text(tk.marker, tk.label) =~= seq!['[', c, ']']);
            assert(crate::render::gates_text(tk.gates@) =~= Seq::<char>::empty());
            assert(crate::render::task_head(tk, Seq::empty()) =~= l + "\n"@);
            assert(crate::render::nodes_text(tk.children@, crate::render::step()) =~= Seq::<char>::empty());
            assert(crate::render::task_text(tk, Seq::empty()) =~= l + "\n"@);
            assert(crate::format::marker_inside(tk.marker, tk.label) == sign);
            assert(crate::format::marker_str(tk.marker, tk.label) =~= seq!['[', c, ']']);
            assert(crate::format::gates_str(tk.gates@) =~= Seq::<char>::empty());
            let h = crate::format::task_head(tk);
            assert(h =~= l);
            lemma_trim_id(l);
            assert(Seq::<char>::empty() + l =~= l);
            assert(crate::format::push_line(acc, Seq::empty(), h) == acc.push(l));
            assert(crate::format::task_fields(tk) =~= Seq::<Seq<char>>::empty());
            assert(crate::format::push_lines(acc.push(l), crate::format::level(), crate::format::task_fields(tk)) == acc.push(l));
            assert(crate::format::nodes_lines(acc.push(l), tk.children@, crate::format::level(), false) == acc.push(l));
            assert(crate::format::task_lines(acc, tk, Seq::empty()) == acc.push(l));
        },
        PlainLine::Var(nm, v) => {
            let x = n->Variable_0;
            lemma_var_line(nm, v);
            let l = var_line(nm, v);
            reveal_strlit(" = ");
            assert(x.value is Literal);
            assert(crate::index::var_text(x.value) == v);
            assert(crate::render::leaf_text(n, Seq::empty()) =~= l + "\n"@);
            assert(crate::format::rhs_str(x.value) == v);
            assert(crate::format::leaf_head(n) == l);
            lemma_trim_id(l);
            assert(Seq::<char>::empty() + l =~= l);
            assert(crate::format::push_line(acc, Seq::empty(), l) == acc.push(l));
            assert(crate::format::leaf_body(n) =~= Seq::<Seq<char>>::empty());
            assert(crate::format::leaf_lines(acc, n, Seq::empty()) == acc.push(l));
        },
        PlainLine::Blank => {},
    }
}

// ── How the lines of a document are laid out ───────────────────

pub proof fn lemma_items_push(fs: Seq<PlainLine>, x: PlainLine, p: int)
    requires
        0 <= p <= fs.len(),
    ensures
        items_from(fs.push(x), p) == items_from(fs, p) + if x is Blank {
            Seq::<PlainLine>::empty()
        } else {
            seq![x]
        },
    decreases fs.len() - p,
{
    let t = fs.push(x);
    if p == fs.len() {
        assert(items_from(t, p + 1) =~= Seq::<PlainLine>::empty());
        assert(items_from(fs, p) =~= Seq::<PlainLine>::empty());
        if !(x is Blank) {
            assert(items_from(t, p) =~= seq![x]);
        }
    } else {
        lemma_items_push(fs, x, p + 1);
        assert(t[p] == fs[p]);
        if !(fs[p] is Blank) {
            assert(seq![fs[p]] + items_from(t, p + 1) =~= seq![fs[p]] + items_from(fs, p + 1) + if x is Blank {
                Seq::<PlainLine>::empty()
            } else {
                seq![x]
            });
        }
    }
}

/// The lines that `render` writes for some lines' nodes: a blank line
/// after each group header.
pub open spec fn render_layout(fs: Seq<PlainLine>) -> Seq<PlainLine>
    decreases fs.len(),
{
    if fs.len() == 0 {
        Seq::empty()
    } else {
        let a = render_layout(fs.drop_last());
        if fs.last() is Header {
            a.push(out_desc(fs.last())).push(PlainLine::Blank)
        } else {
            a.push(out_desc(fs.last()))
        }
    }
}

/// The lines that `format` writes for some lines' nodes: a blank line
/// between two group headers in a row.
pub open spec fn format_layout(fs: Seq<PlainLine>) -> Seq<PlainLine>
    decreases fs.len(),
{
    if fs.len() == 0 {
        Seq::empty()
    } else {
        let a = format_layout(fs.drop_last());
        let a2 = if fs.len() >= 2 && fs.last() is Header && fs[fs.len() - 2] is Header {
            if a.len() == 0 || !(a.last() is Blank) {
                a.push(PlainLine::Blank)
            } else {
                a
            }
        } else {
            a
        };
        a2.push(out_desc(fs.last()))
    }
}

/// The lines as their nodes are written back.
pub open spec fn outs(fs: Seq<PlainLine>) -> Seq<PlainLine> {
    fs.map_values(|f: PlainLine| out_desc(f))
}

/// Each line followed by a newline.
pub open spec fn text_of(ls: Seq<Seq<char>>) -> Seq<char>
    decreases ls.len(),
{
    if ls.len() == 0 {
        Seq::empty()
    } else {
        text_of(ls.drop_last()) + ls.last() + "\n"@
    }
}

/// The texts written for some lines' nodes.
pub open spec fn rend_all(fs: Seq<PlainLine>) -> Seq<char>
    decreases fs.len(),
{
    if fs.len() == 0 {
        Seq::empty()
    } else {
        rend_all(fs.drop_last()) + rend(fs.last())
    }
}

pub proof fn lemma_render_layout(fs: Seq<PlainLine>)
    requires
        all_ok(fs),
        forall|k: int| 0 <= k < fs.len() ==> !(#[trigger] fs[k] is Blank),
    ensures
        all_ok(render_layout(fs)),
        items_from(render_layout(fs), 0) == outs(fs),
        text_of(texts_of(render_layout(fs))) == rend_all(fs),
    decreases fs.len(),
{
    reveal_strlit("\n");
    reveal_strlit("\n\n");
    if fs.len() > 0 {
        let init = fs.drop_last();
        let x0 = fs.last();
        assert(plain_ok(fs[fs.len() - 1]));
        lemma_out_desc(x0);
        let x = out_desc(x0);
        assert forall|k: int| 0 <= k < init.len() implies plain_ok(#[trigger] init[k]) && !(init[k] is Blank) by {
            assert(plain_ok(fs[k]));
            assert(!(fs[k] is Blank));
        }
        lemma_render_layout(init);
        let a = render_layout(init);
        assert(!(fs[fs.len() - 1] is Blank));
        lemma_items_push(a, x, 0);
        assert(outs(init).push(x) =~= outs(fs));
        if x0 is Header {
            let b = a.push(x);
            lemma_items_push(b, PlainLine::Blank, 0);
            assert(items_from(b.push(PlainLine::Blank), 0) =~= outs(fs));
            assert forall|k: int| 0 <= k < b.push(PlainLine::Blank).len() implies #[trigger] plain_ok(b.push(PlainLine::Blank)[k]) by {
                if k < a.len() {
                    assert(b.push(PlainLine::Blank)[k] == a[k]);
                }
            }
            assert(texts_of(b.push(PlainLine::Blank)).drop_last() =~= texts_of(b));
            assert(texts_of(b).drop_last() =~= texts_of(a));
            let t2 = texts_of(b.push(PlainLine::Blank));
            assert(t2.last() == line_of(PlainLine::Blank));
            assert(text_of(t2) == text_of(texts_of(b)) + Seq::<char>::empty() + "\n"@);
            assert(texts_of(b).last() == line_of(x));
            assert(text_of(texts_of(b)) == text_of(texts_of(a)) + line_of(x) + "\n"@);
            assert(text_of(t2) =~= text_of(texts_of(a)) + line_of(x) + "\n"@ + Seq::<char>::empty() + "\n"@);
            assert(rend(x0) =~= line_of(x) + "\n"@ + Seq::<char>::empty() + "\n"@);
        } else {
            assert(items_from(a.push(x), 0) =~= outs(fs));
            assert forall|k: int| 0 <= k < a.push(x).len() implies #[trigger] plain_ok(a.push(x)[k]) by {
                if k < a.len() {
                    assert(a.push(x)[k] == a[k]);
                }
            }
            assert(texts_of(a.push(x)).drop_last() =~= texts_of(a));
            assert(rend(x0) == line_of(x) + "\n"@);
        }
    }
}

pub proof fn lemma_format_layout(fs: Seq<PlainLine>)
    requires
        all_ok(fs),
        forall|k: int| 0 <= k < fs.len() ==> !(#[trigger] fs[k] is Blank),
    ensures
        all_ok(format_layout(fs)),
        items_from(format_layout(fs), 0) == outs(fs),
        fs.len() > 0 ==> format_layout(fs).len() > 0 && !(format_layout(fs).last() is Blank),
    decreases fs.len(),
{
    if fs.len() > 0 {
        let init = fs.drop_last();
        let x0 = fs.last();
        assert(plain_ok(fs[fs.len() - 1]));
        assert(!(fs[fs.len() - 1] is Blank));
        lemma_out_desc(x0);
        let x = out_desc(x0);
        assert forall|k: int| 0 <= k < init.len() implies plain_ok(#[trigger] init[k]) && !(init[k] is Blank) by {
            assert(plain_ok(fs[k]));
            assert(!(fs[k] is Blank));
        }
        lemma_format_layout(init);
        let a = format_layout(init);
        assert(outs(init).push(x) =~= outs(fs));
        let a2 = if fs.len() >= 2 && x0 is Header && fs[fs.len() - 2] is Header {
            if a.len() == 0 || !(a.last() is Blank) {
                a.push(PlainLine::Blank)
            } else {
                a
            }
        } else {
            a
        };
        if a2 != a {
            lemma_items_push(a, PlainLine::Blank, 0);
            assert(items_from(a2, 0) =~= items_from(a, 0));
        }
        assert(items_from(a2, 0) == outs(init));
        assert forall|k: int| 0 <= k < a2.len() implies #[trigger] plain_ok(a2[k]) by {
            if k < a.len() {
                assert(a2[k] == a[k]);
            }
        }
        lemma_items_push(a2, x, 0);
        assert(items_from(a2.push(x), 0) =~= outs(fs));
        assert forall|k: int| 0 <= k < a2.push(x).len() implies #[trigger] plain_ok(a2.push(x)[k]) by {
            if k < a2.len() {
                assert(a2.push(x)[k] == a2[k]);
            }
        }
    }
}

/// Writing back lines that were written back changes nothing.
pub proof fn lemma_outs(fs: Seq<PlainLine>)
    requires
        all_ok(fs),
        forall|k: int| 0 <= k < fs.len() ==> !(#[trigger] fs[k] is Blank),
    ensures
        all_ok(outs(fs)),
        forall|k: int| 0 <= k < outs(fs).len() ==> !(#[trigger] outs(fs)[k] is Blank),
        outs(fs).len() == fs.len(),
        rend_all(outs(fs)) == rend_all(fs),
        format_layout(outs(fs)) == format_layout(fs),
    decreases fs.len(),
{
    let o = outs(fs);
    assert forall|k: int| 0 <= k < o.len() implies plain_ok(#[trigger] o[k]) && !(o[k] is Blank) by {
        assert(plain_ok(fs[k]));
        assert(!(fs[k] is Blank));
        lemma_out_desc(fs[k]);
    }
    if fs.len() > 0 {
        let init = fs.drop_last();
        assert forall|k: int| 0 <= k < init.len() implies plain_ok(#[trigger] init[k]) && !(init[k] is Blank) by {
            assert(plain_ok(fs[k]));
            assert(!(fs[k] is Blank));
        }
        lemma_outs(init);
        assert(o.drop_last() =~= outs(init));
        assert(plain_ok(fs[fs.len() - 1]));
        lemma_out_desc(fs.last());
        assert(o.last() == out_desc(fs.last()));
        if fs.len() >= 2 {
            assert(o[o.len() - 2] == out_desc(fs[fs.len() - 2]));
            assert(plain_ok(fs[fs.len() - 2]));
            lemma_out_desc(fs[fs.len() - 2]);
        }
    }
}

/// The nodes of such lines are written out as the layouts show.
pub proof fn lemma_nodes_out(ns: Seq<crate::types::Node>, items: Seq<PlainLine>)
    requires
        ns.len() == items.len(),
        all_ok(items),
        forall|k: int| 0 <= k < ns.len() ==> #[trigger] node_is(ns[k], items[k]),
    ensures
        crate::render::nodes_text(ns, Seq::empty()) == rend_all(items),
        crate::format::nodes_lines(Seq::empty(), ns, Seq::empty(), true) == texts_of(format_layout(items)),
    decreases ns.len(),
{
    if ns.len() > 0 {
        let last = ns.len() - 1;
        let init = ns.drop_last();
        let iinit = items.drop_last();
        assert(node_is(ns[last], items[last]));
        assert(plain_ok(items[last]));
        assert forall|k: int| 0 <= k < init.len() implies #[trigger] node_is(init[k], iinit[k]) by {
            assert(node_is(ns[k], items[k]));
        }
        assert forall|i: int| 0 <= i < iinit.len() implies #[trigger] plain_ok(iinit[i]) by {
            assert(plain_ok(items[i]));
        }
        lemma_nodes_out(init, iinit);
        let a = crate::format::nodes_lines(Seq::empty(), init, Seq::empty(), true);
        assert forall|k: int| 0 <= k < iinit.len() implies !(#[trigger] iinit[k] is Blank) by {
            assert(node_is(ns[k], items[k]));
        }
        lemma_format_layout(iinit);
        let fa = format_layout(iinit);
        let both = ns.len() >= 2 && crate::format::is_block(ns.last()) && crate::format::is_block(ns[ns.len() - 2]);
        let a2 = if both {
            crate::format::blank_if_needed(a)
        } else {
            a
        };
        let fa2 = if items.len() >= 2 && items.last() is Header && items[items.len() - 2] is Header {
            if fa.len() == 0 || !(fa.last() is Blank) {
                fa.push(PlainLine::Blank)
            } else {
                fa
            }
        } else {
            fa
        };
        lemma_node_out(ns[last], items[last], a2);
        if ns.len() >= 2 {
            assert(node_is(ns[ns.len() - 2], items[items.len() - 2]));
            assert(plain_ok(items[items.len() - 2]));
            lemma_node_out(ns[ns.len() - 2], items[items.len() - 2], a2);
        }
        if fa.len() > 0 {
            lemma_line_shape(fa, fa.len() - 1);
            assert(texts_of(fa).last() == texts_of(fa)[fa.len() - 1]);
        }
        assert(texts_of(fa.push(PlainLine::Blank)) =~= texts_of(fa).push(Seq::empty()));
        assert(a2 == texts_of(fa2));
        assert(items.drop_last() == iinit);
        assert(texts_of(fa2.push(out_desc(items.last()))) =~= texts_of(fa2).push(line_of(out_desc(items.last()))));
        assert(crate::format::nodes_lines(Seq::empty(), ns, Seq::empty(), true) == crate::format::node_lines(a2, ns.last(), Seq::empty()));
    }
}

// ── Texts and their lines ──────────────────────────────────────

/// No line holds a newline, a tab or a carriage return.
pub open spec fn clean_lines(ls: Seq<Seq<char>>) -> bool {
    forall|i: int| 0 <= i < ls.len() ==> lacks(#[trigger] ls[i], '\n') && lacks(ls[i], '\t') && lacks(ls[i], '\r')
}

pub proof fn lemma_texts_clean(fs: Seq<PlainLine>)
    requires
        all_ok(fs),
    ensures
        clean_lines(texts_of(fs)),
        texts_of(fs).len() == fs.len(),
{
    assert forall|i: int| 0 <= i < texts_of(fs).len() implies lacks(#[trigger] texts_of(fs)[i], '\n') && lacks(
        texts_of(fs)[i],
        '\t',
    ) && lacks(texts_of(fs)[i], '\r') by {
        lemma_line_shape(fs, i);
    }
}

pub proof fn lemma_expand_tabs_id(s: Seq<char>)
    requires
        lacks(s, '\t'),
    ensures
        text::expand_tabs(s) == s,
    decreases s.len(),
{
    if s.len() > 0 {
        assert(lacks(s.drop_last(), '\t')) by {
            assert forall|i: int| 0 <= i < s.drop_last().len() implies #[trigger] s.drop_last()[i] != '\t' by {
                assert(s.drop_last()[i] == s[i]);
            }
        }
        lemma_expand_tabs_id(s.drop_last());
        assert(s[s.len() - 1] != '\t');
        assert(s.drop_last() + seq![s.last()] =~= s);
    }
}

pub proof fn lemma_lacks_concat(a: Seq<char>, b: Seq<char>, c: char)
    requires
        lacks(a, c),
        lacks(b, c),
    ensures
        lacks(a + b, c),
{
    assert forall|i: int| 0 <= i < (a + b).len() implies #[trigger] (a + b)[i] != c by {
        if i < a.len() {
            assert((a + b)[i] == a[i]);
        } else {
            assert((a + b)[i] == b[i - a.len()]);
        }
    }
}

pub proof fn lemma_text_of_tabs(ls: Seq<Seq<char>>)
    requires
        clean_lines(ls),
    ensures
        lacks(text_of(ls), '\t'),
        lacks(text::join(ls, "\n"@), '\t'),
    decreases ls.len(),
{
    reveal_strlit("\n");
    assert(lacks("\n"@, '\t'));
    assert(lacks(Seq::<char>::empty(), '\t'));
    if ls.len() > 0 {
        let init = ls.drop_last();
        assert forall|i: int| 0 <= i < init.len() implies lacks(#[trigger] init[i], '\n') && lacks(init[i], '\t')
            && lacks(init[i], '\r') by {
            assert(init[i] == ls[i]);
        }
        lemma_text_of_tabs(init);
        assert(lacks(ls[ls.len() - 1], '\t'));
        lemma_lacks_concat(text_of(init), ls.last(), '\t');
        lemma_lacks_concat(text_of(init) + ls.last(), "\n"@, '\t');
        if ls.len() > 1 {
            lemma_lacks_concat(text::join(init, "\n"@), "\n"@, '\t');
            lemma_lacks_concat(text::join(init, "\n"@) + "\n"@, ls.last(), '\t');
        }
    }
}

pub proof fn lemma_lines_cons(a: Seq<char>, b: Seq<char>)
    requires
        lacks(a, '\n'),
        lacks(a, '\r'),
    ensures
        lines(a + "\n"@ + b) == seq![a] + lines(b),
{
    reveal_strlit("\n");
    let s = a + "\n"@ + b;
    text::lemma_find_from(s, "\n"@, 0);
    assert(text::matches_at(s, "\n"@, a.len() as int)) by {
        assert(s.subrange(a.len() as int, a.len() as int + 1) =~= "\n"@);
    }
    assert forall|j: int| 0 <= j < a.len() implies !text::matches_at(s, "\n"@, j) by {
        if text::matches_at(s, "\n"@, j) {
            assert(s.subrange(j, j + 1)[0] == s[j]);
            assert(s[j] == a[j]);
        }
    }
    assert(find(s, seq!['\n']) == Some(a.len() as int)) by {
        assert(seq!['\n'] =~= "\n"@);
    }
    assert(s.take(a.len() as int) =~= a);
    assert(s.skip(a.len() as int + 1) =~= b);
    if a.len() > 0 {
        assert(a.last() != '\r');
    }
    assert(text::strip_cr(a) == a);
}

pub proof fn lemma_lines_single(a: Seq<char>)
    requires
        a.len() > 0,
        lacks(a, '\n'),
    ensures
        lines(a) == seq![a],
{
    lemma_not_found(a, seq!['\n'], 0);
}

pub proof fn lemma_text_of_front(ls: Seq<Seq<char>>)
    requires
        ls.len() > 0,
    ensures
        text_of(ls) == ls[0] + "\n"@ + text_of(ls.drop_first()),
    decreases ls.len(),
{
    if ls.len() > 1 {
        lemma_text_of_front(ls.drop_last());
        assert(ls.drop_last().drop_first() =~= ls.drop_first().drop_last());
        assert(ls.drop_first().last() == ls.last());
    } else {
        assert(ls.drop_first() =~= Seq::<Seq<char>>::empty());
        assert(ls.drop_last() =~= Seq::<Seq<char>>::empty());
    }
}

pub proof fn lemma_lines_text_of(ls: Seq<Seq<char>>)
    requires
        clean_lines(ls),
    ensures
        lines(text_of(ls)) == ls,
    decreases ls.len(),
{
    if ls.len() > 0 {
        lemma_text_of_front(ls);
        let rest = ls.drop_first();
        assert forall|i: int| 0 <= i < rest.len() implies lacks(#[trigger] rest[i], '\n') && lacks(rest[i], '\t')
            && lacks(rest[i], '\r') by {
            assert(rest[i] == ls[i + 1]);
        }
        lemma_lines_text_of(rest);
        assert(lacks(ls[0], '\n') && lacks(ls[0], '\r'));
        lemma_lines_cons(ls[0], text_of(rest));
        assert(seq![ls[0]] + rest =~= ls);
    }
}

pub proof fn lemma_join_front(ls: Seq<Seq<char>>)
    requires
        ls.len() > 1,
    ensures
        text::join(ls, "\n"@) == ls[0] + "\n"@ + text::join(ls.drop_first(), "\n"@),
    decreases ls.len(),
{
    if ls.len() > 2 {
        lemma_join_front(ls.drop_last());
        assert(ls.drop_last().drop_first() =~= ls.drop_first().drop_last());
        assert(ls.drop_first().last() == ls.last());
        assert(ls.drop_last()[0] == ls[0]);
        let j = text::join(ls.drop_last().drop_first(), "\n"@);
        assert(text::join(ls.drop_first(), "\n"@) == j + "\n"@ + ls.last());
        assert(text::join(ls, "\n"@) == text::join(ls.drop_last(), "\n"@) + "\n"@ + ls.last());
        assert(text::join(ls, "\n"@) =~= ls[0] + "\n"@ + text::join(ls.drop_first(), "\n"@));
    } else {
        assert(ls.drop_first() =~= seq![ls[1]]);
        assert(ls.drop_last() =~= seq![ls[0]]);
        assert(text::join(seq![ls[1]], "\n"@) == ls[1]);
        assert(text::join(seq![ls[0]], "\n"@) == ls[0]);
        assert(text::join(ls, "\n"@) =~= ls[0] + "\n"@ + text::join(ls.drop_first(), "\n"@));
    }
}

pub proof fn lemma_lines_join(ls: Seq<Seq<char>>)
    requires
        clean_lines(ls),
        ls.len() > 0,
        ls.last().len() > 0,
    ensures
        lines(text::join(ls, "\n"@)) == ls,
    decreases ls.len(),
{
    if ls.len() == 1 {
        assert(lacks(ls[0], '\n'));
        lemma_lines_single(ls[0]);
        assert(seq![ls[0]] =~= ls);
    } else {
        lemma_join_front(ls);
        let rest = ls.drop_first();
        assert forall|i: int| 0 <= i < rest.len() implies lacks(#[trigger] rest[i], '\n') && lacks(rest[i], '\t')
            && lacks(rest[i], '\r') by {
            assert(rest[i] == ls[i + 1]);
        }
        assert(rest.last() == ls.last());
        lemma_lines_join(rest);
        assert(lacks(ls[0], '\n') && lacks(ls[0], '\r'));
        lemma_lines_cons(ls[0], text::join(rest, "\n"@));
        assert(seq![ls[0]] + rest =~= ls);
    }
}

pub proof fn lemma_text_of_join(ls: Seq<Seq<char>>)
    requires
        ls.len() > 0,
    ensures
        text_of(ls) == text::join(ls, "\n"@) + "\n"@,
    decreases ls.len(),
{
    if ls.len() == 1 {
        assert(ls.drop_last() =~= Seq::<Seq<char>>::empty());
        assert(text_of(ls.drop_last()) == Seq::<char>::empty());
        assert(ls.last() == ls[0]);
        assert(text_of(ls) =~= ls[0] + "\n"@);
    } else {
        lemma_text_of_join(ls.drop_last());
    }
}

/// Trailing whitespace of a text whose lines each end in a non-space
/// character or are blank: the text without its trailing blank lines.
pub proof fn lemma_trim_end_text_of(ls: Seq<Seq<char>>)
    requires
        forall|i: int| 0 <= i < ls.len() ==> (#[trigger] ls[i]).len() == 0 || !text::is_ws(ls[i].last()),
    ensures
        text::trim_end(text_of(ls)) == text::join(crate::format::strip_blank_tail(ls), "\n"@),
    decreases ls.len(),
{
    reveal_strlit("\n");
    if ls.len() == 0 {
        assert(text::trim_end(Seq::<char>::empty()) =~= Seq::<char>::empty());
    } else {
        let init = ls.drop_last();
        let x = text_of(init) + ls.last();
        assert(text_of(ls) == x + "\n"@);
        assert(text::is_ws('\n'));
        let y = x + "\n"@;
        assert(y.drop_last() =~= x);
        assert(text::trail_count(y, text::ws_pred()) == 1 + text::trail_count(x, text::ws_pred()));
        text::lemma_trail_count_bound(x, text::ws_pred());
        assert(text::trim_end(y) =~= text::trim_end(x));
        if ls.last().len() == 0 {
            assert forall|i: int| 0 <= i < init.len() implies (#[trigger] init[i]).len() == 0 || !text::is_ws(init[i].last()) by {
                assert(init[i] == ls[i]);
            }
            lemma_trim_end_text_of(init);
            assert(x =~= text_of(init));
        } else {
            assert(!text::is_ws(ls[ls.len() - 1].last()));
            assert(x.last() == ls.last().last());
            text::lemma_trail_count(x, text::ws_pred(), 0);
            assert(text::trim_end(x) =~= x);
            if init.len() == 0 {
                assert(text_of(init) =~= Seq::<char>::empty());
                assert(x =~= ls[0]);
            } else {
                lemma_text_of_join(init);
                assert(x =~= text::join(init, "\n"@) + "\n"@ + ls.last());
            }
        }
    }
}

// ── The laws ───────────────────────────────────────────────────

pub proof fn lemma_items_all(fs: Seq<PlainLine>, p: int)
    requires
        forall|k: int| 0 <= k < fs.len() ==> !(#[trigger] fs[k] is Blank),
        0 <= p <= fs.len(),
    ensures
        items_from(fs, p) == fs.skip(p),
    decreases fs.len() - p,
{
    if p < fs.len() {
        lemma_items_all(fs, p + 1);
        assert(!(fs[p] is Blank));
        assert(seq![fs[p]] + fs.skip(p + 1) =~= fs.skip(p));
    } else {
        assert(fs.skip(p) =~= Seq::<PlainLine>::empty());
    }
}

/// The lines without their trailing blank ones.
pub open spec fn strip_blanks(fs: Seq<PlainLine>) -> Seq<PlainLine>
    decreases fs.len(),
{
    if fs.len() > 0 && fs.last() is Blank {
        strip_blanks(fs.drop_last())
    } else {
        fs
    }
}

pub proof fn lemma_strip_blanks(fs: Seq<PlainLine>)
    requires
        all_ok(fs),
    ensures
        all_ok(strip_blanks(fs)),
        texts_of(strip_blanks(fs)) == crate::format::strip_blank_tail(texts_of(fs)),
        items_from(strip_blanks(fs), 0) == items_from(fs, 0),
        strip_blanks(fs).len() == 0 || !(strip_blanks(fs).last() is Blank),
    decreases fs.len(),
{
    if fs.len() > 0 {
        lemma_line_shape(fs, fs.len() - 1);
        let init = fs.drop_last();
        assert(texts_of(fs).drop_last() =~= texts_of(init));
        if fs.last() is Blank {
            assert forall|i: int| 0 <= i < init.len() implies #[trigger] plain_ok(init[i]) by {
                assert(plain_ok(fs[i]));
            }
            lemma_strip_blanks(init);
            lemma_items_push(init, PlainLine::Blank, 0);
            assert(init.push(PlainLine::Blank) =~= fs);
            assert(items_from(fs, 0) =~= items_from(init, 0));
        }
    }
}

pub proof fn lemma_line_ends(fs: Seq<PlainLine>)
    requires
        all_ok(fs),
    ensures
        forall|i: int| 0 <= i < texts_of(fs).len() ==> (#[trigger] texts_of(fs)[i]).len() == 0 || !text::is_ws(
            texts_of(fs)[i].last(),
        ),
{
    assert forall|i: int| 0 <= i < texts_of(fs).len() implies (#[trigger] texts_of(fs)[i]).len() == 0
        || !text::is_ws(texts_of(fs)[i].last()) by {
        lemma_line_shape(fs, i);
        if fs[i] is Blank {
            assert(texts_of(fs)[i] =~= Seq::<char>::empty());
        }
    }
}

/// The source that a list of header and task lines makes: the lines joined
/// by newlines.
pub open spec fn plain_source(fs: Seq<PlainLine>) -> Seq<char> {
    text::join(texts_of(fs), "\n"@)
}

/// A source of one or more lines, each a group header `#` to `###` whose
/// name is words of letters and digits separated by spaces and starting
/// with a letter (not a lattice section name at depth two), a task line `[!]`, `[o]`, `[x]` or
/// `[ ]` with a text of letters, digits and spaces, or a variable
/// `name = digits` (a name of lower-case letters and underscores that does
/// not start with `if`, `use` or `validate`).
pub open spec fn plain_document(fs: Seq<PlainLine>) -> bool {
    &&& fs.len() > 0
    &&& all_ok(fs)
    &&& forall|k: int| 0 <= k < fs.len() ==> !(#[trigger] fs[k] is Blank)
}

/// Such a source parses, to one node per line, each written back as its
/// line.
pub proof fn lemma_plain_document_parses(fs: Seq<PlainLine>, r: Result<crate::types::Document, crate::types::ParseError>)
    requires
        plain_document(fs),
        parse::parsed(plain_source(fs), r),
    ensures
        r matches Ok(d) && d.nodes@.len() == fs.len() && forall|k: int|
            0 <= k < fs.len() ==> #[trigger] node_is(d.nodes@[k], fs[k]),
{
    lemma_texts_clean(fs);
    lemma_text_of_tabs(texts_of(fs));
    lemma_expand_tabs_id(plain_source(fs));
    lemma_line_shape(fs, fs.len() - 1);
    assert(texts_of(fs).last() == texts_of(fs)[fs.len() - 1]);
    lemma_lines_join(texts_of(fs));
    lemma_parse_lines(fs, plain_source(fs), r);
    lemma_items_all(fs, 0);
    assert(fs.skip(0) =~= fs);
}

/// Parse, render, parse again, render again: the two renderings are the
/// same, for every source of group header and task lines as
/// `plain_document` describes them.
pub proof fn lemma_render_round_trip(
    fs: Seq<PlainLine>,
    d1: crate::types::Document,
    r2: Result<crate::types::Document, crate::types::ParseError>,
)
    requires
        plain_document(fs),
        parse::parsed(plain_source(fs), Ok(d1)),
        parse::parsed(crate::render::render_spec(d1), r2),
    ensures
        r2 matches Ok(d2) && crate::render::render_spec(d2) == crate::render::render_spec(d1),
{
    lemma_plain_document_parses(fs, Ok(d1));
    lemma_nodes_out(d1.nodes@, fs);
    lemma_render_layout(fs);
    let rl = render_layout(fs);
    lemma_line_ends(rl);
    lemma_trim_end_text_of(texts_of(rl));
    lemma_strip_blanks(rl);
    let sl = strip_blanks(rl);
    let text1 = crate::render::render_spec(d1);
    assert(text1 == text::join(texts_of(sl), "\n"@));
    lemma_texts_clean(sl);
    lemma_text_of_tabs(texts_of(sl));
    lemma_expand_tabs_id(text1);
    lemma_outs(fs);
    assert(items_from(sl, 0) == outs(fs));
    assert(sl.len() > 0) by {
        if sl.len() == 0 {
            assert(items_from(sl, 0) =~= Seq::<PlainLine>::empty());
        }
    }
    lemma_line_shape(sl, sl.len() - 1);
    assert(texts_of(sl).last() == texts_of(sl)[sl.len() - 1]);
    lemma_lines_join(texts_of(sl));
    lemma_parse_lines(sl, text1, r2);
    let d2 = r2->Ok_0;
    lemma_nodes_out(d2.nodes@, outs(fs));
}

/// Parse, format, parse again, format again: the two formattings are the
/// same, for every source of group header and task lines as
/// `plain_document` describes them.
pub proof fn lemma_format_idempotent(
    fs: Seq<PlainLine>,
    d1: crate::types::Document,
    r2: Result<crate::types::Document, crate::types::ParseError>,
)
    requires
        plain_document(fs),
        parse::parsed(plain_source(fs), Ok(d1)),
        parse::parsed(crate::format::format_spec(d1), r2),
    ensures
        r2 matches Ok(d2) && crate::format::format_spec(d2) == crate::format::format_spec(d1),
{
    lemma_plain_document_parses(fs, Ok(d1));
    lemma_nodes_out(d1.nodes@, fs);
    lemma_format_layout(fs);
    let fl = format_layout(fs);
    lemma_line_shape(fl, fl.len() - 1);
    assert(texts_of(fl).last() == texts_of(fl)[fl.len() - 1]);
    assert(crate::format::strip_blank_tail(texts_of(fl)) == texts_of(fl));
    lemma_text_of_join(texts_of(fl));
    let text1 = crate::format::format_spec(d1);
    assert(text1 == text_of(texts_of(fl)));
    lemma_texts_clean(fl);
    lemma_text_of_tabs(texts_of(fl));
    lemma_expand_tabs_id(text1);
    lemma_lines_text_of(texts_of(fl));
    lemma_parse_lines(fl, text1, r2);
    let d2 = r2->Ok_0;
    lemma_outs(fs);
    lemma_nodes_out(d2.nodes@, outs(fs));
}

/// `# name` parses to one group of depth one with that name and nothing
/// else, for every name of ASCII letters and digits that starts with a
/// letter.
pub proof fn lemma_group_keeps_name(w: Seq<char>, r: Result<crate::types::Document, crate::types::ParseError>)
    requires
        is_word(w),
        parse::parsed("# "@ + w, r),
    ensures
        r matches Ok(d) && d.nodes@.len() == 1 && (d.nodes@[0] matches crate::types::Node::Group(g) && g.name@ == w
            && g.depth == 1 && g.atoms@.len() == 0 && g.gates@.len() == 0 && g.children@.len() == 0),
{
    reveal_strlit("# ");
    reveal_strlit("#");
    lemma_word_ends(w);
    assert(is_name(w)) by {
        assert forall|i: int| 0 <= i < w.len() - 1 && #[trigger] w[i] == ' ' implies w[i + 1] != ' ' by {
            assert(w[i] != ' ');
        }
        assert(is_alnum_char(w[w.len() - 1]));
    }
    let fs = seq![PlainLine::Header(1, w)];
    assert(strict_name(w)) by {
        assert forall|i: int| 0 <= i < w.len() - 1 && #[trigger] w[i] == ' ' implies w[i + 1] != ' ' by {
            assert(w[i] != ' ');
        }
    }
    lemma_split_name(w);
    assert(plain_ok(fs[0]));
    assert(text::repeat("#"@, 1) =~= "#"@) by {
        assert(text::repeat("#"@, 0) =~= Seq::<char>::empty());
    }
    assert(texts_of(fs) =~= seq![group_text(1, w)]);
    assert(plain_source(fs) == group_text(1, w));
    assert(group_text(1, w) =~= "# "@ + w);
    lemma_plain_document_parses(fs, r);
    assert(node_is(r->Ok_0.nodes@[0], fs[0]));
}

/// `[!] text` parses to one required task with that text and no label,
/// for every text of ASCII letters, digits and spaces that starts with a
/// letter and does not end with a space.
pub proof fn lemma_task_keeps_text(t: Seq<char>, r: Result<crate::types::Document, crate::types::ParseError>)
    requires
        is_plain_text(t),
        parse::parsed("[!] "@ + t, r),
    ensures
        r matches Ok(d) && d.nodes@.len() == 1 && (d.nodes@[0] matches crate::types::Node::Task(x) && x.text@ == t
            && x.marker.kind == crate::types::TaskKind::Required && x.marker.priority
            == crate::types::Priority::Required && x.label is None),
{
    reveal_strlit("[!] ");
    let fs = seq![PlainLine::Item('!', t)];
    assert(plain_ok(fs[0]));
    assert(texts_of(fs) =~= seq![task_text('!', t)]);
    assert(plain_source(fs) == task_text('!', t));
    assert(task_text('!', t) =~= "[!] "@ + t);
    lemma_plain_document_parses(fs, r);
    assert(node_is(r->Ok_0.nodes@[0], fs[0]));
}

// ── Task markers ───────────────────────────────────────────────

pub proof fn lemma_decimal_digits(n: nat)
    ensures
        text::decimal(n).len() > 0,
        text::all_digits(text::decimal(n)),
        text::digits_value(text::decimal(n)) == n,
    decreases n,
{
    if n >= 10 {
        lemma_decimal_digits(n / 10);
        let d = text::decimal(n / 10);
        let x = d.push(text::digit_char(n % 10));
        assert(x.drop_last() =~= d);
        assert(((text::digit_char(n % 10) as nat) - 48) as nat == n % 10);
        assert((n / 10) * 10 + n % 10 == n) by (nonlinear_arith);
        assert forall|i: int| 0 <= i < x.len() implies #[trigger] text::is_digit(x[i]) by {
            if i < d.len() {
                assert(x[i] == d[i]);
            }
        }
    } else {
        let x = seq![text::digit_char(n)];
        assert(x.drop_last() =~= Seq::<char>::empty());
        assert(((text::digit_char(n) as nat) - 48) as nat == n);
        assert(text::is_digit(text::digit_char(n)));
        assert(x.last() == text::digit_char(n));
        assert(text::digits_value(x.drop_last()) == 0);
        assert(text::digits_value(x) == text::digits_value(x.drop_last()) * 10 + ((x.last() as nat) - 48) as nat);
        assert(text::digits_value(x) == n);
    }
}

pub proof fn lemma_decimal_u32(n: nat)
    requires
        n <= u32::MAX,
    ensures
        text::parse_u32(text::decimal(n)) == Some(n as u32),
        text::decimal(n)[0] != '+',
        lacks(text::decimal(n), ']'),
        !text::is_ws(text::decimal(n)[0]),
        !text::is_ws(text::decimal(n).last()),
        text::decimal(n) != "!"@ && text::decimal(n) != "o"@ && text::decimal(n) != "x"@,
{
    lemma_decimal_digits(n);
    let d = text::decimal(n);
    assert(text::is_digit(d[0]));
    assert(text::is_digit(d[d.len() - 1]));
    assert forall|i: int| 0 <= i < d.len() implies #[trigger] d[i] != ']' by {
        assert(text::is_digit(d[i]));
    }
    reveal_strlit("!");
    reveal_strlit("o");
    reveal_strlit("x");
    if d == "!"@ {
        assert(d[0] == '!');
    }
    if d == "o"@ {
        assert(d[0] == 'o');
    }
    if d == "x"@ {
        assert(d[0] == 'x');
    }
}

/// What stands between the brackets when a marker is written, over views.
pub open spec fn inside_text(kind: crate::types::TaskKind, priority: crate::types::Priority, seq: Option<u32>, label: Option<Seq<char>>) -> Seq<char> {
    match seq {
        Some(n) => text::decimal(n as nat) + match kind {
            crate::types::TaskKind::Required => "!"@,
            crate::types::TaskKind::Optional => "o"@,
            _ => Seq::empty(),
        },
        None => match label {
            Some(l) => match kind {
                crate::types::TaskKind::Required => l + "!"@,
                crate::types::TaskKind::Optional => l + "o"@,
                crate::types::TaskKind::Open => if priority == crate::types::Priority::Decision {
                    l + "?"@
                } else {
                    l
                },
                _ => l,
            },
            None => match kind {
                crate::types::TaskKind::Required => "!"@,
                crate::types::TaskKind::Optional => "o"@,
                crate::types::TaskKind::Completed => "x"@,
                crate::types::TaskKind::Open => " "@,
            },
        },
    }
}

pub proof fn lemma_trim_twice(s: Seq<char>)
    ensures
        trim(trim(s)) == trim(s),
        trim(s).len() > 0 ==> !text::is_ws(trim(s)[0]) && !text::is_ws(trim(s).last()),
{
    let a = text::trim_start(s);
    text::lemma_lead_count_props(s, text::ws_pred());
    let t = trim(s);
    text::lemma_trail_count_props(a, text::ws_pred());
    if t.len() > 0 {
        assert(t[0] == a[0]);
        assert(t.last() == a[a.len() - text::trail_count(a, text::ws_pred()) - 1]);
        lemma_trim_id(t);
    } else {
        assert(trim(t) =~= t) by {
            assert(text::trim_start(t) =~= t);
            assert(text::trim_end(t) =~= t);
        }
    }
}

/// Writing the marker content that the brackets held gives text that reads
/// back as the same content.
pub proof fn lemma_bracket_round(inside: Seq<char>)
    ensures
        ({
            let (label, kind, priority, seq) = line::bracket_content_spec(inside);
            line::bracket_content_spec(inside_text(kind, priority, seq, label)) == line::bracket_content_spec(inside)
        }),
{
    reveal_strlit("!");
    reveal_strlit("o");
    reveal_strlit("x");
    reveal_strlit("?");
    reveal_strlit(" ");
    let t = trim(inside);
    lemma_trim_twice(inside);
    let (label, kind, priority, seq) = line::bracket_content_spec(inside);
    let out = inside_text(kind, priority, seq, label);
    if t.len() == 0 {
        assert(text::is_ws(' '));
        text::lemma_lead_count(" "@, text::ws_pred(), 1);
        assert(trim(out).len() == 0);
    } else if t == "!"@ || t == "o"@ || t == "x"@ {
        assert(out == t);
        lemma_trim_id(t);
    } else {
        let last = t.last();
        let prefix = t.drop_last();
        if text::parse_u32(t) is Some {
            let n = text::parse_u32(t)->Some_0;
            assert(out == text::decimal(n as nat) + Seq::<char>::empty());
            assert(out =~= text::decimal(n as nat));
            lemma_decimal_u32(n as nat);
            lemma_trim_id(out);
        } else if t.len() >= 2 && text::parse_u32(prefix) is Some && (last == '!' || (last == 'o' && t.len() > 1)) {
            let n = text::parse_u32(prefix)->Some_0;
            lemma_decimal_u32(n as nat);
            let d = text::decimal(n as nat);
            let c = if last == '!' { '!' } else { 'o' };
            assert(out =~= d.push(c));
            lemma_trim_id(out);
            assert(out.drop_last() =~= d);
            assert(out.last() == c);
            assert(out != "!"@ && out != "o"@ && out != "x"@);
            assert(text::parse_u32(out) is None) by {
                assert(out[0] != '+');
                assert(!text::is_digit(out[out.len() - 1]));
            }
        } else {
            // the content is written back as it was, trimmed
            if last == '!' || last == '?' || (last == 'o' && t.len() > 1) {
                assert(out =~= prefix.push(last));
                assert(prefix.push(last) =~= t);
            } else {
                assert(out == t);
            }
            assert(out == t);
        }
    }
}

pub proof fn lemma_lacks_trim(s: Seq<char>, c: char)
    requires
        lacks(s, c),
    ensures
        lacks(trim(s), c),
        trim(s).len() > 0 ==> lacks(trim(s).drop_last(), c),
{
    let a = text::trim_start(s);
    text::lemma_lead_count_bound(s, text::ws_pred());
    let k = text::lead_count(s, text::ws_pred()) as int;
    assert forall|i: int| 0 <= i < a.len() implies #[trigger] a[i] != c by {
        assert(a[i] == s[i + k]);
    }
    let t = trim(s);
    text::lemma_trail_count_bound(a, text::ws_pred());
    assert forall|i: int| 0 <= i < t.len() implies #[trigger] t[i] != c by {
        assert(t[i] == a[i]);
    }
    if t.len() > 0 {
        let td = t.drop_last();
        assert forall|i: int| 0 <= i < td.len() implies #[trigger] td[i] != c by {
            assert(td[i] == t[i]);
        }
    }
}

/// What `format` writes between the brackets is that content, and holds no
/// closing bracket when the content read held none.
pub proof fn lemma_written_inside(inside: Seq<char>, label: Option<String>, m: crate::types::TaskMarker)
    requires
        lacks(inside, ']'),
        line::bracket_content_spec(inside) == (line::opt_str_view(label), m.kind, m.priority, m.seq),
    ensures
        crate::format::marker_inside(m, label) == inside_text(m.kind, m.priority, m.seq, line::opt_str_view(label)),
        lacks(crate::format::marker_inside(m, label), ']'),
{
    reveal_strlit("!");
    reveal_strlit("o");
    reveal_strlit("x");
    reveal_strlit("?");
    reveal_strlit(" ");
    let ins2 = crate::format::marker_inside(m, label);
    let l = line::opt_str_view(label);
    lemma_lacks_trim(inside, ']');
    match m.seq {
        Some(n) => {
            lemma_decimal_u32(n as nat);
            let d = text::decimal(n as nat);
            assert forall|i: int| 0 <= i < ins2.len() implies #[trigger] ins2[i] != ']' by {
                if i >= d.len() {
                    assert(ins2[i] == ins2.last());
                } else {
                    assert(ins2[i] == d[i]);
                }
            }
        },
        None => {
            match l {
                Some(x) => {
                    let tt = trim(inside);
                    assert(x == tt || x == tt.drop_last());
                    assert(lacks(x, ']'));
                    assert forall|i: int| 0 <= i < ins2.len() implies #[trigger] ins2[i] != ']' by {
                        if i < x.len() {
                            assert(ins2[i] == x[i]);
                        }
                    }
                },
                None => {},
            }
        },
    }
}

/// A task marker read from a line, written out as `format` writes it and
/// followed by a space and a text, is read back as the same marker with the
/// same label, and that text. (A run of dashes whose length is a multiple
/// of 256 is read as a subtask of depth zero, which is written without
/// dashes; it is left out.)
#[verifier::spinoff_prover]
#[verifier::rlimit(80)]
pub proof fn lemma_marker_round_trip(s: Seq<char>, label: Option<String>, t: Seq<char>)
    requires
        line::task_marker_spec(s) is Some,
        line::task_marker_spec(s)->Some_0.1 == line::opt_str_view(label),
        line::task_marker_spec(s)->Some_0.0.prefix != crate::types::TaskPrefix::Subtask(0),
        t.len() == 0 || !text::is_ws(t[0]),
    ensures
        line::task_marker_spec(crate::format::marker_str(line::task_marker_spec(s)->Some_0.0, label) + " "@ + t)
            == Some((line::task_marker_spec(s)->Some_0.0, line::task_marker_spec(s)->Some_0.1, t)),
{
    reveal_strlit("[");
    reveal_strlit("]");
    reveal_strlit(" ");
    reveal_strlit("+");
    reveal_strlit("++");
    reveal_strlit("-");
    reveal_strlit("!");
    reveal_strlit("o");
    reveal_strlit("x");
    reveal_strlit("?");
    let (m, l, rest) = line::task_marker_spec(s)->Some_0;
    let (prefix, s2) = line::task_prefix_spec(s);
    let end = find(s2, "]"@)->Some_0;
    text::lemma_find_from(s2, "]"@, 0);
    assert(starts_with(s2, "["@));
    assert(s2.take(1)[0] == s2[0]);
    assert(s2[0] == '[');
    assert(text::matches_at(s2, "]"@, end));
    assert(s2.subrange(end, end + 1)[0] == s2[end]);
    assert(1 <= end < s2.len());
    let inside = s2.subrange(1, end);
    assert(lacks(inside, ']')) by {
        assert forall|i: int| 0 <= i < inside.len() implies #[trigger] inside[i] != ']' by {
            assert(inside[i] == s2[i + 1]);
            if inside[i] == ']' {
                assert(text::matches_at(s2, "]"@, i + 1)) by {
                    assert(s2.subrange(i + 1, i + 2) =~= "]"@);
                }
            }
        }
    }
    assert(line::bracket_content_spec(inside) == (l, m.kind, m.priority, m.seq));
    assert(m.prefix == prefix);
    let ins2 = crate::format::marker_inside(m, label);
    lemma_written_inside(inside, label, m);
    lemma_bracket_round(inside);
    let s3 = "["@ + ins2 + "]"@ + " "@ + t;
    let u = crate::format::prefix_str(prefix) + s3;
    assert(crate::format::marker_str(m, label) + " "@ + t =~= u);
    lemma_close_found(ins2, t);
    assert(s3[0] == '[');
    lemma_prefix_round(prefix, s3);
    assert(crate::types::TaskMarker { kind: m.kind, priority: m.priority, prefix: prefix, seq: m.seq } == m);
}

pub proof fn lemma_close_found(ins2: Seq<char>, t: Seq<char>)
    requires
        lacks(ins2, ']'),
        t.len() == 0 || !text::is_ws(t[0]),
    ensures
        ({
            let s3 = "["@ + ins2 + "]"@ + " "@ + t;
            &&& starts_with(s3, "["@)
            &&& find(s3, "]"@) == Some(ins2.len() as int + 1)
            &&& s3.subrange(1, ins2.len() as int + 1) == ins2
            &&& text::trim_start(s3.skip(ins2.len() as int + 2)) == t
            &&& s3[0] == '['
        }),
{
    reveal_strlit("[");
    reveal_strlit("]");
    reveal_strlit(" ");
    let s3 = "["@ + ins2 + "]"@ + " "@ + t;
    let e2: int = ins2.len() as int + 1;
    text::lemma_find_from(s3, "]"@, 0);
    assert(text::matches_at(s3, "]"@, e2)) by {
        assert(s3.subrange(e2, e2 + 1) =~= "]"@);
    }
    assert forall|j: int| 0 <= j < e2 implies !text::matches_at(s3, "]"@, j) by {
        if text::matches_at(s3, "]"@, j) {
            assert(s3.subrange(j, j + 1)[0] == s3[j]);
            if j > 0 {
                assert(s3[j] == ins2[j - 1]);
            }
        }
    }
    assert(starts_with(s3, "["@)) by {
        assert(s3.take(1) =~= "["@);
    }
    assert(s3.subrange(1, e2) =~= ins2);
    let after = s3.skip(e2 + 1);
    assert(after =~= seq![' '] + t);
    assert(text::is_ws(' '));
    text::lemma_lead_count(after, text::ws_pred(), 1);
    assert(text::trim_start(after) =~= t);
}

pub proof fn lemma_prefix_round(prefix: crate::types::TaskPrefix, s3: Seq<char>)
    requires
        s3.len() > 0,
        s3[0] == '[',
        prefix != crate::types::TaskPrefix::Subtask(0),
    ensures
        line::task_prefix_spec(crate::format::prefix_str(prefix) + s3) == (prefix, s3),
{
    reveal_strlit("[");
    reveal_strlit("+");
    reveal_strlit("++");
    reveal_strlit("-");
    let u = crate::format::prefix_str(prefix) + s3;
    lemma_first_differs(s3, "++"@);
    lemma_first_differs(s3, "+"@);
    match prefix {
        crate::types::TaskPrefix::Unset => {
            assert(u =~= s3);
            text::lemma_lead_count(u, text::char_pred('-'), 0);
        },
        crate::types::TaskPrefix::Parallel => {
            assert(u =~= seq!['+'] + s3);
            assert(u.skip(1) =~= s3);
            assert(!starts_with(u, "++"@)) by {
                if starts_with(u, "++"@) {
                    assert(u.take(2)[1] == u[1]);
                }
            }
            assert(starts_with(u, "+"@)) by {
                assert(u.take(1) =~= "+"@);
            }
            assert(starts_with(u.skip(1), "["@)) by {
                assert(u.skip(1).take(1) =~= "["@);
            }
        },
        crate::types::TaskPrefix::ParallelSubtask => {
            assert(u.skip(2) =~= s3);
            assert(starts_with(u, "++"@)) by {
                assert(u.take(2) =~= "++"@);
            }
            assert(starts_with(u.skip(2), "["@)) by {
                assert(u.skip(2).take(1) =~= "["@);
            }
        },
        crate::types::TaskPrefix::Subtask(n) => {
            let dn = text::repeat("-"@, n as nat);
            lemma_dashes(n as nat);
            assert(n > 0);
            assert(u[0] == dn[0]);
            assert(u[0] == '-');
            lemma_first_differs(u, "++"@);
            lemma_first_differs(u, "+"@);
            assert forall|j: int| 0 <= j < n implies #[trigger] text::char_pred('-')(u[j]) by {
                assert(u[j] == dn[j]);
            }
            assert(u[n as int] == s3[0]);
            text::lemma_lead_count(u, text::char_pred('-'), n as int);
            assert(u.skip(n as int) =~= s3);
            assert(((n as nat) as u8) == n);
        },
    }
}

pub proof fn lemma_dashes(d: nat)
    ensures
        text::repeat("-"@, d).len() == d,
        forall|i: int| 0 <= i < d ==> #[trigger] text::repeat("-"@, d)[i] == '-',
    decreases d,
{
    reveal_strlit("-");
    if d > 0 {
        lemma_dashes((d - 1) as nat);
        let r = text::repeat("-"@, (d - 1) as nat);
        assert forall|i: int| 0 <= i < d implies #[trigger] text::repeat("-"@, d)[i] == '-' by {
            if i < d - 1 {
                assert(text::repeat("-"@, d)[i] == r[i]);
            }
        }
    }
}

} // verus!
