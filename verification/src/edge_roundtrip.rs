//! Writing a flow edge and reading it back: an edge between lists of names,
//! with no timeout, wait, gate or label, parses back to the same edge, its
//! parallel marker included.
use crate::line;
use crate::render;
use crate::roundtrip::{
    is_alnum_char, is_word, lacks, lemma_not_found, lemma_trim_after_space, lemma_trim_id,
    lemma_word_ends,
};
use crate::text::{self, find, trim};
use crate::types::FlowEdge;
use vstd::prelude::*;

verus! {

/// An edge line as it is written, without its indentation and line end.
pub open spec fn edge_line(e: FlowEdge) -> Seq<char> {
    text::join(text::str_views(e.from@), ", "@) + " "@ + render::arrow_text(e) + " "@ + text::join(
        text::str_views(e.to@),
        ", "@,
    )
}

proof fn lemma_name_char(c: char)
    requires
        is_alnum_char(c),
    ensures
        c != '-' && c != '+' && c != ',' && !text::is_ws(c),
{
    assert(('-' as u32) == 45 && ('+' as u32) == 43 && (',' as u32) == 44);
}

proof fn lemma_name_lacks(w: Seq<char>)
    requires
        is_word(w),
    ensures
        lacks(w, '-'),
        lacks(w, '+'),
        lacks(w, ','),
        !text::is_ws(w[0]),
        !text::is_ws(w.last()),
        w.last() != '-' && w.last() != '+',
{
    lemma_word_ends(w);
    assert forall|i: int| 0 <= i < w.len() implies #[trigger] w[i] != '-' && w[i] != '+' && w[i]
        != ',' by {
        lemma_name_char(w[i]);
    }
    assert(w.last() == w[w.len() - 1]);
}

/// No occurrence at all: searching backwards finds nothing.
proof fn lemma_rfind_none(s: Seq<char>, p: Seq<char>, i: int)
    requires
        forall|j: int| !#[trigger] text::matches_at(s, p, j),
    ensures
        text::rfind_from(s, p, i) is None,
    decreases i + 1,
{
    if i >= 0 {
        lemma_rfind_none(s, p, i - 1);
    }
}

/// A text without the separator splits into itself.
proof fn lemma_split_whole(s: Seq<char>, sep: Seq<char>)
    requires
        sep.len() > 0,
        find(s, sep) is None,
    ensures
        text::split(s, sep) == seq![s],
{
}

/// Trimming a name followed by one space gives the name.
proof fn lemma_trim_space_after(a: Seq<char>)
    requires
        a.len() > 0,
        !text::is_ws(a[0]),
        !text::is_ws(a.last()),
    ensures
        trim(a + seq![' ']) == a,
{
    let s = a + seq![' '];
    assert(text::is_ws(' '));
    assert(s[0] == a[0]);
    text::lemma_lead_count(s, text::ws_pred(), 0);
    assert(text::trim_start(s) =~= s);
    assert(s[s.len() - 1] == ' ');
    assert(s[s.len() - 2] == a.last());
    text::lemma_trail_count(s, text::ws_pred(), 1);
    assert(trim(s) =~= a);
}

/// One or more names, each a word.
pub open spec fn is_names(ws: Seq<Seq<char>>) -> bool {
    &&& ws.len() > 0
    &&& forall|i: int| 0 <= i < ws.len() ==> #[trigger] is_word(ws[i])
}

/// Nothing, or one space.
spec fn pad(p: Seq<char>) -> bool {
    p == Seq::<char>::empty() || p == seq![' ']
}

/// What the text on one side of an arrow is made of: no dash or plus sign,
/// and no whitespace at either end.
spec fn side_ok(a: Seq<char>) -> bool {
    &&& a.len() > 0
    &&& !text::is_ws(a[0])
    &&& !text::is_ws(a.last())
    &&& a.last() != '+'
    &&& a.last() != '-'
    &&& lacks(a, '-')
    &&& lacks(a, '+')
}

/// Trimming a word with at most one space on each side gives the word.
proof fn lemma_trim_padded(s: Seq<char>, w: Seq<char>, t: Seq<char>)
    requires
        pad(s),
        pad(t),
        is_word(w),
    ensures
        trim(s + w + t) == w,
{
    lemma_name_lacks(w);
    assert(text::is_ws(' '));
    let x = s + w + t;
    assert(x[s.len() as int] == w[0]);
    assert forall|j: int| 0 <= j < s.len() implies #[trigger] text::ws_pred()(x[j]) by {
        assert(x[j] == s[j]);
    }
    text::lemma_lead_count(x, text::ws_pred(), s.len() as int);
    let y = w + t;
    assert(text::trim_start(x) =~= y);
    assert forall|j: int| y.len() - t.len() <= j < y.len() implies #[trigger] text::ws_pred()(y[j]) by {
        assert(y[j] == t[j - w.len()]);
    }
    assert(y[y.len() - t.len() - 1] == w.last());
    text::lemma_trail_count(y, text::ws_pred(), t.len() as int);
    assert(trim(x) =~= w);
}

/// The pieces that splitting `p` + the names joined by `", "` + `q` at its
/// commas gives.
spec fn comma_parts(p: Seq<char>, ws: Seq<Seq<char>>, q: Seq<char>) -> Seq<Seq<char>> {
    Seq::new(
        ws.len(),
        |i: int|
            (if i == 0 {
                p
            } else {
                seq![' ']
            }) + ws[i] + (if i == ws.len() - 1 {
                q
            } else {
                Seq::<char>::empty()
            }),
    )
}

proof fn lemma_split_names(p: Seq<char>, ws: Seq<Seq<char>>, q: Seq<char>)
    requires
        pad(p),
        pad(q),
        is_names(ws),
    ensures
        text::split(p + text::join(ws, ", "@) + q, ","@) == comma_parts(p, ws, q),
    decreases ws.len(),
{
    reveal_strlit(",");
    reveal_strlit(", ");
    let w0 = ws[0];
    assert(is_word(w0));
    lemma_name_lacks(w0);
    if ws.len() == 1 {
        assert(text::join(ws, ", "@) == w0);
        let x = p + w0 + q;
        assert(lacks(x, ',')) by {
            assert forall|i: int| 0 <= i < x.len() implies #[trigger] x[i] != ',' by {
                if p.len() <= i < p.len() + w0.len() {
                    assert(x[i] == w0[i - p.len()]);
                }
            }
        }
        lemma_not_found(x, ","@, 0);
        lemma_split_whole(x, ","@);
        assert(comma_parts(p, ws, q) =~= seq![x]);
    } else {
        let rest = ws.drop_first();
        assert forall|i: int| 0 <= i < rest.len() implies #[trigger] is_word(rest[i]) by {
            assert(rest[i] == ws[i + 1]);
        }
        crate::roundtrip::lemma_join_front_sep(ws, ", "@);
        let jr = text::join(rest, ", "@);
        let x = p + text::join(ws, ", "@) + q;
        assert(x =~= p + w0 + seq![','] + (seq![' '] + jr + q));
        let k: int = (p.len() + w0.len()) as int;
        assert(text::matches_at(x, ","@, k)) by {
            assert(x.subrange(k, k + 1) =~= ","@);
        }
        assert forall|j: int| 0 <= j < k implies !#[trigger] text::matches_at(x, ","@, j) by {
            if text::matches_at(x, ","@, j) {
                assert(x.subrange(j, j + 1)[0] == x[j]);
                if j >= p.len() {
                    assert(x[j] == w0[j - p.len()]);
                }
            }
        }
        text::lemma_find_from(x, ","@, 0);
        assert(find(x, ","@) == Some(k));
        assert(x.take(k) =~= p + w0);
        assert(x.skip(k + 1) =~= seq![' '] + jr + q);
        lemma_split_names(seq![' '], rest, q);
        assert(text::split(x, ","@) =~= seq![x.take(k)] + text::split(x.skip(k + 1), ","@));
        let cp = comma_parts(p, ws, q);
        let cr = comma_parts(seq![' '], rest, q);
        assert forall|i: int| 0 <= i < cp.len() implies #[trigger] cp[i] == (seq![p + w0] + cr)[i] by {
            if i == 0 {
                assert(cp[0] =~= p + w0);
            } else {
                assert(cr[i - 1] =~= cp[i]);
            }
        }
        assert(cp =~= seq![p + w0] + cr);
    }
}

proof fn lemma_nonempty_trimmed_all(ps: Seq<Seq<char>>, ws: Seq<Seq<char>>)
    requires
        ps.len() == ws.len(),
        forall|i: int| 0 <= i < ps.len() ==> trim(#[trigger] ps[i]) == ws[i] && ws[i].len() > 0,
    ensures
        line::nonempty_trimmed(ps) == ws,
    decreases ps.len(),
{
    if ps.len() == 0 {
        assert(ws =~= Seq::<Seq<char>>::empty());
    } else {
        let pi = ps.drop_last();
        let wi = ws.drop_last();
        assert forall|i: int| 0 <= i < pi.len() implies trim(#[trigger] pi[i]) == wi[i] && wi[i].len()
            > 0 by {
            assert(pi[i] == ps[i]);
        }
        lemma_nonempty_trimmed_all(pi, wi);
        assert(trim(ps[ps.len() - 1]) == ws[ws.len() - 1]);
        assert(wi.push(ws.last()) =~= ws);
    }
}

/// Names joined by `", "`, with at most a space on each side, read back as
/// the same names.
proof fn lemma_names_join(p: Seq<char>, ws: Seq<Seq<char>>, q: Seq<char>)
    requires
        pad(p),
        pad(q),
        is_names(ws),
    ensures
        line::names_list(p + text::join(ws, ", "@) + q) == ws,
{
    lemma_split_names(p, ws, q);
    let ps = comma_parts(p, ws, q);
    assert forall|i: int| 0 <= i < ps.len() implies trim(#[trigger] ps[i]) == ws[i] && ws[i].len()
        > 0 by {
        let s = if i == 0 {
            p
        } else {
            seq![' ']
        };
        let t = if i == ws.len() - 1 {
            q
        } else {
            Seq::<char>::empty()
        };
        assert(is_word(ws[i]));
        lemma_trim_padded(s, ws[i], t);
    }
    lemma_nonempty_trimmed_all(ps, ws);
}

/// Names joined by `", "` have no dash or plus sign and no whitespace at
/// their ends.
proof fn lemma_join_side(ws: Seq<Seq<char>>)
    requires
        is_names(ws),
    ensures
        side_ok(text::join(ws, ", "@)),
    decreases ws.len(),
{
    reveal_strlit(", ");
    let x = ws.last();
    assert(is_word(ws[ws.len() - 1]));
    lemma_name_lacks(x);
    if ws.len() == 1 {
        assert(text::join(ws, ", "@) == ws[0]);
    } else {
        let init = ws.drop_last();
        assert forall|i: int| 0 <= i < init.len() implies #[trigger] is_word(init[i]) by {
            assert(init[i] == ws[i]);
        }
        lemma_join_side(init);
        let a = text::join(init, ", "@);
        let j = a + ", "@ + x;
        assert(text::join(ws, ", "@) == j);
        assert(j[0] == a[0]);
        assert(j.last() == x.last());
        assert forall|i: int| 0 <= i < j.len() implies #[trigger] j[i] != '-' && j[i] != '+' by {
            if i < a.len() {
                assert(j[i] == a[i]);
            } else if i >= a.len() + 2 {
                assert(j[i] == x[i - a.len() - 2]);
            } else {
                assert(j[i] == ',' || j[i] == ' ');
            }
        }
    }
}

/// Where the arrow of the line `a p--> b` is found, with `p` the parallel
/// marker or nothing, and the two parts it splits the line into.
proof fn lemma_arrow_split(a: Seq<char>, pre: Seq<char>, b: Seq<char>)
    requires
        lacks(a, '-'),
        lacks(b, '-'),
        pre == Seq::<char>::empty() || pre == seq!['+'],
    ensures
        ({
            let l = a + seq![' '] + pre + "-->"@ + seq![' '] + b;
            text::split(l, "-->"@) == seq![a + seq![' '] + pre, seq![' '] + b]
        }),
{
    reveal_strlit("-->");
    let l = a + seq![' '] + pre + "-->"@ + seq![' '] + b;
    let k: int = (a.len() + 1 + pre.len()) as int;
    assert(text::matches_at(l, "-->"@, k)) by {
        assert(l.subrange(k, k + 3) =~= "-->"@);
    }
    assert forall|j: int| 0 <= j < k implies !#[trigger] text::matches_at(l, "-->"@, j) by {
        if text::matches_at(l, "-->"@, j) {
            assert(l.subrange(j, j + 3)[0] == l[j]);
            if j < a.len() {
                assert(l[j] == a[j]);
            } else if j == a.len() {
                assert(l[j] == ' ');
            } else {
                assert(l[j] == pre[0]);
            }
        }
    }
    text::lemma_find_from(l, "-->"@, 0);
    assert(find(l, "-->"@) == Some(k));
    let r = seq![' '] + b;
    assert(l.skip(k + 3) =~= r);
    assert(l.take(k) =~= a + seq![' '] + pre);
    assert(lacks(r, '-')) by {
        assert forall|i: int| 0 <= i < r.len() implies #[trigger] r[i] != '-' by {
            if i > 0 {
                assert(r[i] == b[i - 1]);
            }
        }
    }
    lemma_not_found(r, "-->"@, 0);
    lemma_split_whole(r, "-->"@);
    assert(text::split(l, "-->"@) =~= seq![l.take(k)] + text::split(l.skip(k + 3), "-->"@));
}

/// What the text before the arrow says of an edge from the names `a`:
/// whether it is parallel, the text its names are read from, and that it
/// carries no modifier.
proof fn lemma_from_part(a: Seq<char>, parallel: bool)
    requires
        side_ok(a),
    ensures
        ({
            let seg = if parallel {
                a + seq![' '] + seq!['+']
            } else {
                a + seq![' ']
            };
            let from_part = trim(seg);
            let from_clean = text::trim_end_matches(
                text::trim_end_matches(text::trim_end_matches(from_part, "+"@), "-"@),
                "+-"@,
            );
            &&& (text::ends_with(from_part, "+"@) || text::ends_with(from_part, "+-"@)) == parallel
            &&& from_clean == if parallel {
                a + seq![' ']
            } else {
                a
            }
            &&& line::edge_modifiers_spec(from_part) == (
                None::<Seq<char>>,
                None::<Seq<char>>,
                None::<Seq<char>>,
                None::<Seq<char>>,
            )
        }),
{
    reveal_strlit("+");
    reveal_strlit("-");
    reveal_strlit("+-");
    reveal_strlit("--");
    let n = a.len();
    let sp = a + seq![' '];
    assert(text::is_ws(' '));
    assert(!text::is_ws('+')) by {
        assert(('+' as u32) == 43);
    }
    lemma_trim_space_after(a);
    assert(sp[sp.len() - 1] == ' ');
    assert(!text::ends_with(sp, "+"@)) by {
        assert(sp.skip(sp.len() - 1)[0] == ' ');
    }
    assert(!text::ends_with(sp, "-"@)) by {
        assert(sp.skip(sp.len() - 1)[0] == ' ');
    }
    assert(!text::ends_with(sp, "+-"@)) by {
        if text::ends_with(sp, "+-"@) {
            assert(sp.skip(sp.len() - 2)[1] == ' ');
        }
    }
    if parallel {
        let seg = sp + seq!['+'];
        assert(seg[0] == a[0]);
        assert(seg.last() == '+');
        lemma_trim_id(seg);
        let from_part = trim(seg);
        assert(from_part == seg);
        assert(text::ends_with(seg, "+"@)) by {
            assert(seg.skip(seg.len() - 1) =~= "+"@);
        }
        assert(seg.take(seg.len() - 1) =~= sp);
        assert(text::trim_end_matches(sp, "+"@) == sp);
        assert(text::trim_end_matches(seg, "+"@) == sp);
        assert(text::trim_end_matches(sp, "-"@) == sp);
        assert(text::trim_end_matches(sp, "+-"@) == sp);
        assert(lacks(seg, '-')) by {
            assert forall|i: int| 0 <= i < seg.len() implies #[trigger] seg[i] != '-' by {
                if i < n {
                    assert(seg[i] == a[i]);
                }
            }
        }
        lemma_not_found(seg, "--"@, 0);
        lemma_rfind_none(seg, "--"@, seg.len() - 2);
    } else {
        let from_part = trim(sp);
        assert(from_part == a);
        assert(!text::ends_with(a, "+"@)) by {
            if text::ends_with(a, "+"@) {
                assert(a.skip(n - 1)[0] == a.last());
            }
        }
        assert(!text::ends_with(a, "-"@)) by {
            if text::ends_with(a, "-"@) {
                assert(a.skip(n - 1)[0] == a.last());
            }
        }
        assert(!text::ends_with(a, "+-"@)) by {
            if text::ends_with(a, "+-"@) {
                assert(a.skip(n - 2)[1] == a.last());
            }
        }
        assert(text::trim_end_matches(a, "+"@) == a);
        assert(text::trim_end_matches(a, "-"@) == a);
        assert(text::trim_end_matches(a, "+-"@) == a);
        lemma_trim_id(a);
        lemma_not_found(a, "--"@, 0);
        lemma_rfind_none(a, "--"@, a.len() - 2);
    }
}

/// An edge between lists of names (each a word), with no timeout, wait,
/// gate or label, reads back from the line it is written as: the same names
/// on each side, and the same parallel flag (`A, B +--> C` for a parallel
/// edge, `A, B --> C` otherwise).
pub proof fn lemma_flow_edge_round_trip(e: FlowEdge)
    requires
        is_names(text::str_views(e.from@)),
        is_names(text::str_views(e.to@)),
        e.timeout is None,
        e.wait is None,
        e.gate is None,
        e.label is None,
    ensures
        line::flow_edges_spec(edge_line(e)) == seq![line::edge_view(e)],
        forall|ind: Seq<char>| #[trigger]
            render::edge_text(e, ind) == ind + edge_line(e) + "\n"@,
{
    reveal_strlit(" ");
    reveal_strlit("-->");
    reveal_strlit("+-->");
    let fa = text::str_views(e.from@);
    let fb = text::str_views(e.to@);
    let a = text::join(fa, ", "@);
    let b = text::join(fb, ", "@);
    lemma_join_side(fa);
    lemma_join_side(fb);
    let pre: Seq<char> = if e.parallel {
        seq!['+']
    } else {
        Seq::<char>::empty()
    };
    let l = edge_line(e);
    assert(render::arrow_text(e) =~= pre + "-->"@);
    assert(l =~= a + seq![' '] + pre + "-->"@ + seq![' '] + b);
    lemma_arrow_split(a, pre, b);
    let segs = text::split(l, "-->"@);
    assert(segs.len() == 2);
    let seg0 = a + seq![' '] + pre;
    assert(segs[0] == seg0);
    assert(segs[1] == seq![' '] + b);
    let empty = Seq::<char>::empty();
    if e.parallel {
        assert(seg0 =~= a + seq![' '] + seq!['+']);
        lemma_names_join(empty, fa, seq![' ']);
        assert(empty + a + seq![' '] =~= a + seq![' ']);
    } else {
        assert(seg0 =~= a + seq![' ']);
        lemma_names_join(empty, fa, empty);
        assert(empty + a + empty =~= a);
    }
    lemma_from_part(a, e.parallel);
    lemma_trim_after_space(b);
    let to_part = trim(segs[1]);
    assert(to_part == b);
    lemma_not_found(b, "-->"@, 0);
    lemma_split_whole(b, "-->"@);
    lemma_trim_id(b);
    lemma_names_join(empty, fb, empty);
    assert(empty + b + empty =~= b);
    let v = line::edge_view(e);
    assert(line::edge_at(segs, 0) == Some(v));
    assert(line::edges_upto(segs, 0) == Seq::<line::EdgeView>::empty());
    assert(line::edges_upto(segs, 1) =~= seq![v]);
}

} // verus!
