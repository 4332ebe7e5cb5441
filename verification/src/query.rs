//! Query requests over entity records, and the fuzzy text match that the
//! `~=` operator uses.
use crate::eval::{edit_distance, lowercase, to_lowercase};
use crate::text;
use vstd::prelude::*;

pub use crate::eval::levenshtein;

verus! {

#[derive(Debug, Clone)]
pub struct QueryRequest {
    pub entity: String,
    pub plural: bool,
    pub filter: Option<String>,
    pub sort: Option<SortSpec>,
    pub limit: Option<usize>,
    pub includes: Option<Vec<String>>,
}

#[derive(Debug, Clone)]
pub struct SortSpec {
    pub field: String,
    pub descending: bool,
}

/// Case-insensitive match: one text contains the other, some word of the
/// first is within two edits of the second, or the whole texts are within
/// three edits.
pub open spec fn query_fuzzy_spec(a: Seq<char>, b: Seq<char>) -> bool {
    let al = lowercase(a);
    let bl = lowercase(b);
    ||| text::contains(al, bl)
    ||| text::contains(bl, al)
    ||| exists|k: int|
        0 <= k < text::split_ws(al).len() && edit_distance(#[trigger] text::split_ws(al)[k], bl)
            <= 2
    ||| edit_distance(al, bl) <= 3
}

pub fn fuzzy_match(a: &str, b: &str) -> (r: bool)
    ensures
        lowercase(a@).len() < usize::MAX && lowercase(b@).len() < usize::MAX ==> r
            == query_fuzzy_spec(a@, b@),
{
    let al = to_lowercase(&text::str_chars(a));
    let bl = to_lowercase(&text::str_chars(b));
    if text::contains_chars(&al, &bl) || text::contains_chars(&bl, &al) {
        return true;
    }
    if al.len() == usize::MAX || bl.len() == usize::MAX {
        return false;
    }
    let words = text::split_whitespace(&al);
    let mut i: usize = 0;
    while i < words.len()
        invariant
            i <= words.len(),
            bl@.len() < usize::MAX,
            al@.len() < usize::MAX,
            al@ == lowercase(a@),
            bl@ == lowercase(b@),
            !text::contains(al@, bl@),
            !text::contains(bl@, al@),
            text::views(words@) == text::split_ws(al@),
            forall|k: int| 0 <= k < i ==> edit_distance(#[trigger] text::split_ws(al@)[k], bl@) > 2,
        decreases words.len() - i,
    {
        proof {
            assert(text::views(words@)[i as int] == words@[i as int]@);
            lemma_split_ws_short(al@, i as int);
        }
        if crate::eval::levenshtein_chars(&words[i], &bl) <= 2 {
            assert(edit_distance(text::split_ws(al@)[i as int], bl@) <= 2);
            return true;
        }
        i = i + 1;
    }
    crate::eval::levenshtein_chars(&al, &bl) <= 3
}

/// Every word of a text is no longer than the text.
proof fn lemma_split_ws_short(s: Seq<char>, k: int)
    requires
        0 <= k < text::split_ws(s).len(),
    ensures
        text::split_ws(s)[k].len() <= s.len(),
    decreases s.len(),
{
    let n = text::lead_count(s, text::ws_pred());
    text::lemma_lead_count_bound(s, text::ws_pred());
    if n < s.len() {
        let t = s.skip(n as int);
        let w = text::lead_count(t, text::non_ws_pred());
        text::lemma_lead_count_bound(t, text::non_ws_pred());
        if 1 <= w <= t.len() && k > 0 {
            lemma_split_ws_short(t.skip(w as int), k - 1);
        }
    }
}

} // verus!
