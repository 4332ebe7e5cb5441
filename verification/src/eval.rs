//! Pieces of the expression evaluator that work on text alone: filter
//! predicates, fuzzy matching and edit distance.
use crate::text;
use vstd::prelude::*;

verus! {

pub open spec fn min3(a: nat, b: nat, c: nat) -> nat {
    if a <= b && a <= c {
        a
    } else if b <= c {
        b
    } else {
        c
    }
}

/// Levenshtein distance: the least number of single-character insertions,
/// deletions and substitutions that turn `a` into `b`.
pub open spec fn edit_distance(a: Seq<char>, b: Seq<char>) -> nat
    decreases a.len() + b.len(),
{
    if a.len() == 0 {
        b.len()
    } else if b.len() == 0 {
        a.len()
    } else {
        let cost: nat = if a.last() == b.last() {
            0
        } else {
            1
        };
        min3(
            edit_distance(a.drop_last(), b) + 1,
            edit_distance(a, b.drop_last()) + 1,
            edit_distance(a.drop_last(), b.drop_last()) + cost,
        )
    }
}

pub open spec fn max2(a: nat, b: nat) -> nat {
    if a >= b {
        a
    } else {
        b
    }
}

/// The distance never exceeds the longer length.
pub proof fn lemma_edit_distance_bound(a: Seq<char>, b: Seq<char>)
    ensures
        edit_distance(a, b) <= max2(a.len(), b.len()),
    decreases a.len() + b.len(),
{
    if a.len() > 0 && b.len() > 0 {
        lemma_edit_distance_bound(a.drop_last(), b.drop_last());
    }
}

/// A text is at distance zero from itself.
pub proof fn lemma_edit_distance_self(a: Seq<char>)
    ensures
        edit_distance(a, a) == 0,
    decreases a.len(),
{
    if a.len() > 0 {
        lemma_edit_distance_self(a.drop_last());
    }
}

/// Distance from the empty text is the other text's length, both ways.
/// The distance is zero exactly between equal texts.
pub proof fn lemma_edit_distance_zero(a: Seq<char>, b: Seq<char>)
    ensures
        (edit_distance(a, b) == 0) == (a == b),
    decreases a.len() + b.len(),
{
    if a == b {
        lemma_edit_distance_self(a);
    } else if a.len() > 0 && b.len() > 0 {
        lemma_edit_distance_zero(a.drop_last(), b.drop_last());
        assert(a =~= a.drop_last().push(a.last()));
        assert(b =~= b.drop_last().push(b.last()));
        let cost: nat = if a.last() == b.last() {
            0
        } else {
            1
        };
        assert(edit_distance(a.drop_last(), b.drop_last()) + cost >= 1);
        assert(edit_distance(a, b) == min3(
            edit_distance(a.drop_last(), b) + 1,
            edit_distance(a, b.drop_last()) + 1,
            edit_distance(a.drop_last(), b.drop_last()) + cost,
        ));
    } else if a.len() == 0 && b.len() == 0 {
        assert(a =~= b);
    }
}

pub proof fn lemma_edit_distance_empty(a: Seq<char>)
    ensures
        edit_distance(Seq::empty(), a) == a.len(),
        edit_distance(a, Seq::empty()) == a.len(),
{
}

/// The distance does not depend on the order of its arguments.
pub proof fn lemma_edit_distance_symmetric(a: Seq<char>, b: Seq<char>)
    ensures
        edit_distance(a, b) == edit_distance(b, a),
    decreases a.len() + b.len(),
{
    if a.len() > 0 && b.len() > 0 {
        lemma_edit_distance_symmetric(a.drop_last(), b);
        lemma_edit_distance_symmetric(a, b.drop_last());
        lemma_edit_distance_symmetric(a.drop_last(), b.drop_last());
    }
}

/// Edit distance between character vectors, by dynamic programming over two
/// rows.
pub fn levenshtein_chars(a: &Vec<char>, b: &Vec<char>) -> (r: usize)
    requires
        a@.len() < usize::MAX,
        b@.len() < usize::MAX,
    ensures
        r == edit_distance(a@, b@),
{
    let n = a.len();
    let m = b.len();
    let mut prev: Vec<usize> = Vec::new();
    let mut j: usize = 0;
    while j <= m
        invariant
            j <= m + 1,
            m == b@.len(),
            m < usize::MAX,
            prev@.len() == j,
            forall|k: int| 0 <= k < j ==> prev@[k] == edit_distance(Seq::<char>::empty(), b@.take(k)),
        decreases m + 1 - j,
    {
        proof {
            assert(a@.take(0) =~= Seq::<char>::empty());
        }
        prev.push(j);
        j = j + 1;
    }
    assert(a@.take(0) =~= Seq::<char>::empty());
    let mut i: usize = 1;
    while i <= n
        invariant
            1 <= i <= n + 1,
            n == a@.len(),
            m == b@.len(),
            n < usize::MAX,
            m < usize::MAX,
            prev@.len() == m + 1,
            forall|k: int| 0 <= k <= m ==> prev@[k] == edit_distance(a@.take(i - 1), b@.take(k)),
        decreases n + 1 - i,
    {
        let mut cur: Vec<usize> = Vec::new();
        proof {
            assert(b@.take(0) =~= Seq::<char>::empty());
        }
        cur.push(i);
        let mut jj: usize = 1;
        while jj <= m
            invariant
                1 <= i <= n,
                1 <= jj <= m + 1,
                n == a@.len(),
                m == b@.len(),
                n < usize::MAX,
                m < usize::MAX,
                prev@.len() == m + 1,
                cur@.len() == jj,
                forall|k: int| 0 <= k <= m ==> prev@[k] == edit_distance(a@.take(i - 1), b@.take(k)),
                forall|k: int| 0 <= k < jj ==> cur@[k] == edit_distance(a@.take(i as int), b@.take(k)),
            decreases m + 1 - jj,
        {
            let ghost x = a@.take(i as int);
            let ghost y = b@.take(jj as int);
            proof {
                assert(x.drop_last() =~= a@.take(i - 1));
                assert(y.drop_last() =~= b@.take(jj - 1));
                assert(x.last() == a@[i - 1]);
                assert(y.last() == b@[jj - 1]);
                lemma_edit_distance_bound(a@.take(i - 1), b@.take(jj as int));
                lemma_edit_distance_bound(a@.take(i as int), b@.take(jj - 1));
                lemma_edit_distance_bound(a@.take(i - 1), b@.take(jj - 1));
            }
            let cost: usize = if a[i - 1] == b[jj - 1] { 0 } else { 1 };
            let del = prev[jj] + 1;
            let ins = cur[jj - 1] + 1;
            let sub = prev[jj - 1] + cost;
            let best = if del <= ins && del <= sub {
                del
            } else if ins <= sub {
                ins
            } else {
                sub
            };
            cur.push(best);
            jj = jj + 1;
        }
        prev = cur;
        i = i + 1;
    }
    proof {
        assert(a@.take(n as int) =~= a@);
        assert(b@.take(m as int) =~= b@);
    }
    prev[m]
}

/// Edit distance between two texts (counted in characters).
pub fn levenshtein(a: &str, b: &str) -> (r: usize)
    requires
        a@.len() < usize::MAX,
        b@.len() < usize::MAX,
    ensures
        r == edit_distance(a@, b@),
{
    let av = text::str_chars(a);
    let bv = text::str_chars(b);
    levenshtein_chars(&av, &bv)
}

/// `str::to_lowercase` (Unicode lowercase mapping of every character).
pub uninterp spec fn lowercase(s: Seq<char>) -> Seq<char>;

/// Lowercases text with `str::to_lowercase`.
#[verifier::external_body]
pub fn to_lowercase(s: &Vec<char>) -> (r: Vec<char>)
    ensures
        r@ == lowercase(s@),
{
    let st: String = s.iter().collect();
    st.to_lowercase().chars().collect()
}

/// Case-insensitive match: one text contains the other, or they are within
/// three edits of each other.
pub open spec fn fuzzy_match_spec(a: Seq<char>, b: Seq<char>) -> bool {
    let al = lowercase(a);
    let bl = lowercase(b);
    text::contains(al, bl) || text::contains(bl, al) || edit_distance(al, bl) <= 3
}

pub fn fuzzy_match(a: &str, b: &str) -> (r: bool)
    ensures
        lowercase(a@).len() < usize::MAX && lowercase(b@).len() < usize::MAX ==> r
            == fuzzy_match_spec(a@, b@),
{
    let al = to_lowercase(&text::str_chars(a));
    let bl = to_lowercase(&text::str_chars(b));
    if text::contains_chars(&al, &bl) || text::contains_chars(&bl, &al) {
        return true;
    }
    if al.len() == usize::MAX || bl.len() == usize::MAX {
        return false;
    }
    levenshtein_chars(&al, &bl) <= 3
}

// ── Filter predicates ────────────────────────────────────────────

/// One `field op value` clause of a filter.
#[derive(Debug, Clone)]
pub struct Predicate {
    pub field: String,
    pub op: String,
    pub value: String,
}

impl Predicate {
    pub open spec fn view3(self) -> (Seq<char>, Seq<char>, Seq<char>) {
        (self.field@, self.op@, self.value@)
    }
}

/// The comparison operators, in the order in which a clause is tried.
pub open spec fn filter_ops() -> Seq<Seq<char>> {
    seq!["!="@, ">="@, "<="@, "~="@, "="@, ">"@, "<"@]
}

/// The predicate that clause `c` holds, trying the operators from the
/// `k`-th on: the first operator that occurs in `c` splits it at its first
/// occurrence into a trimmed field and a trimmed, unquoted value.
pub open spec fn clause_from(c: Seq<char>, k: int) -> Option<(Seq<char>, Seq<char>, Seq<char>)>
    decreases 7 - k,
{
    if k < 0 || k >= 7 {
        None
    } else {
        let op = filter_ops()[k];
        match text::find(c, op) {
            Some(pos) => Some(
                (
                    text::trim(c.take(pos)),
                    op,
                    text::trim_matches_char(text::trim(c.skip(pos + op.len())), '"'),
                ),
            ),
            None => clause_from(c, k + 1),
        }
    }
}

/// The predicates of a list of clauses, skipping clauses with no operator.
pub open spec fn predicates_of(clauses: Seq<Seq<char>>) -> Seq<(Seq<char>, Seq<char>, Seq<char>)>
    decreases clauses.len(),
{
    if clauses.len() == 0 {
        Seq::empty()
    } else {
        let rest = predicates_of(clauses.drop_last());
        match clause_from(text::trim(clauses.last()), 0) {
            Some(p) => rest.push(p),
            None => rest,
        }
    }
}

/// The predicates of a filter: its ` and `-separated clauses.
pub open spec fn filter_predicates_spec(filter: Seq<char>) -> Seq<(Seq<char>, Seq<char>, Seq<char>)> {
    predicates_of(text::split(filter, " and "@))
}

fn op_literal(k: usize) -> (r: &'static str)
    requires
        k < 7,
    ensures
        r@ == filter_ops()[k as int],
{
    if k == 0 {
        "!="
    } else if k == 1 {
        ">="
    } else if k == 2 {
        "<="
    } else if k == 3 {
        "~="
    } else if k == 4 {
        "="
    } else if k == 5 {
        ">"
    } else {
        "<"
    }
}

fn parse_clause(c: &Vec<char>) -> (r: Option<Predicate>)
    ensures
        r matches Some(p) ==> clause_from(c@, 0) == Some(p.view3()),
        r is None ==> clause_from(c@, 0) is None,
{
    let mut k: usize = 0;
    while k < 7
        invariant
            k <= 7,
            clause_from(c@, 0) == clause_from(c@, k as int),
        decreases 7 - k,
    {
        let op = op_literal(k);
        let opv = text::str_chars(op);
        match text::find_chars(c, &opv) {
            Some(pos) => {
                proof {
                    text::lemma_find_from(c@, opv@, 0);
                }
                let cl = c.len();
                let field = text::trim_chars(&text::slice_of(c, 0, pos));
                let after = text::slice_of(c, pos + opv.len(), cl);
                let value = text::trim_matches_char_exec(&text::trim_chars(&after), '"');
                assert(after@ =~= c@.skip(pos + opv@.len()));
                return Some(
                    Predicate {
                        field: text::to_string(&field),
                        op: op.to_owned(),
                        value: text::to_string(&value),
                    },
                );
            },
            None => {},
        }
        k = k + 1;
    }
    None
}

/// Parses `status=open and points>3` into its predicates.
pub fn parse_filter_predicates(filter: &str) -> (r: Vec<Predicate>)
    ensures
        r@.map_values(|p: Predicate| p.view3()) == filter_predicates_spec(filter@),
{
    let fv = text::str_chars(filter);
    proof {
        reveal_strlit(" and ");
    }
    let clauses = text::split_str(&fv, " and ");
    let mut out: Vec<Predicate> = Vec::new();
    let mut i: usize = 0;
    while i < clauses.len()
        invariant
            i <= clauses.len(),
            text::views(clauses@) == text::split(fv@, " and "@),
            out@.map_values(|p: Predicate| p.view3()) == predicates_of(
                text::views(clauses@).take(i as int),
            ),
        decreases clauses.len() - i,
    {
        let c = text::trim_chars(&clauses[i]);
        let ghost o = out@;
        proof {
            let cs = text::views(clauses@);
            assert(cs.take(i + 1).drop_last() =~= cs.take(i as int));
            assert(cs.take(i + 1).last() == clauses@[i as int]@);
        }
        match parse_clause(&c) {
            Some(p) => {
                out.push(p);
                proof {
                    assert(out@.map_values(|p: Predicate| p.view3()) =~= o.map_values(
                        |p: Predicate| p.view3(),
                    ).push(p.view3()));
                }
            },
            None => {},
        }
        i = i + 1;
    }
    proof {
        assert(text::views(clauses@).take(clauses.len() as int) =~= text::views(clauses@));
    }
    out
}

} // verus!
