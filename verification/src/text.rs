//! Character-level text primitives used by every layer of the library.
//!
//! Text is handled as `Vec<char>` inside the library; each operation is
//! specified over `Seq<char>` by a spec function of the same name.
use vstd::prelude::*;

verus! {

// ── Conversions between `str`/`String` and characters ───────────

/// Appends one character to a `String` (`String::push`).
#[verifier::external_body]
pub fn push_char(s: &mut String, c: char)
    ensures
        final(s)@ == old(s)@.push(c),
{
    s.push(c);
}

/// Appends characters to a `String`.
pub fn push_chars(s: &mut String, v: &Vec<char>)
    ensures
        final(s)@ == old(s)@ + v@,
{
    let mut i: usize = 0;
    while i < v.len()
        invariant
            i <= v.len(),
            s@ == old(s)@ + v@.take(i as int),
        decreases v.len() - i,
    {
        push_char(s, v[i]);
        i = i + 1;
        assert(s@ =~= old(s)@ + v@.take(i as int));
    }
    assert(v@.take(v.len() as int) =~= v@);
}

/// The characters of `s`, in order.
pub fn str_chars(s: &str) -> (v: Vec<char>)
    ensures
        v@ == s@,
{
    let mut v: Vec<char> = Vec::new();
    for c in it: s.chars()
        invariant
            v@ == it.seq().take(it.index() as int),
    {
        v.push(c);
    }
    v
}

/// A `String` holding exactly the characters of `v`.
pub fn to_string(v: &Vec<char>) -> (s: String)
    ensures
        s@ == v@,
{
    let mut s = String::new();
    let mut i: usize = 0;
    while i < v.len()
        invariant
            i <= v.len(),
            s@ == v@.take(i as int),
        decreases v.len() - i,
    {
        push_char(&mut s, v[i]);
        i = i + 1;
        assert(v@.take(i as int) == v@.take(i - 1).push(v@[i - 1]));
    }
    assert(v@.take(v.len() as int) == v@);
    s
}

/// The characters of a `String`.
pub fn string_chars(s: &String) -> (v: Vec<char>)
    ensures
        v@ == s@,
{
    str_chars(s.as_str())
}

/// `a` followed by `b`.
pub fn concat(a: &Vec<char>, b: &Vec<char>) -> (r: Vec<char>)
    ensures
        r@ == a@ + b@,
{
    let mut r = a.clone();
    append(&mut r, b);
    r
}

/// Appends the characters of `b` to `a`.
pub fn append(a: &mut Vec<char>, b: &Vec<char>)
    ensures
        final(a)@ == old(a)@ + b@,
{
    let ghost a0 = a@;
    let mut i: usize = 0;
    while i < b.len()
        invariant
            i <= b.len(),
            a@ == a0 + b@.take(i as int),
        decreases b.len() - i,
    {
        a.push(b[i]);
        i = i + 1;
        assert(b@.take(i as int) == b@.take(i - 1).push(b@[i - 1]));
    }
    assert(b@.take(b.len() as int) == b@);
}

/// Appends the characters of a `str` to `a`.
pub fn append_str(a: &mut Vec<char>, b: &str)
    ensures
        final(a)@ == old(a)@ + b@,
{
    let bv = str_chars(b);
    append(a, &bv);
}

/// Appends the characters of a `String` to `a`.
pub fn append_string(a: &mut Vec<char>, b: &String)
    ensures
        final(a)@ == old(a)@ + b@,
{
    let bv = string_chars(b);
    append(a, &bv);
}

/// Appends the decimal notation of `n` to `a`.
pub fn append_decimal(a: &mut Vec<char>, n: usize)
    ensures
        final(a)@ == old(a)@ + decimal(n as nat),
{
    let d = decimal_chars(n);
    append(a, &d);
}

/// The characters `s[from..to]`.
pub fn slice_of(s: &Vec<char>, from: usize, to: usize) -> (r: Vec<char>)
    requires
        from <= to <= s.len(),
    ensures
        r@ == s@.subrange(from as int, to as int),
{
    let mut r: Vec<char> = Vec::new();
    let mut i: usize = from;
    while i < to
        invariant
            from <= i <= to <= s.len(),
            r@ == s@.subrange(from as int, i as int),
        decreases to - i,
    {
        r.push(s[i]);
        i = i + 1;
        assert(s@.subrange(from as int, i as int) == s@.subrange(from as int, i - 1).push(
            s@[i - 1],
        ));
    }
    r
}

/// `String` holding `s[from..to]`.
pub fn sub_string(s: &Vec<char>, from: usize, to: usize) -> (r: String)
    requires
        from <= to <= s.len(),
    ensures
        r@ == s@.subrange(from as int, to as int),
{
    let v = slice_of(s, from, to);
    to_string(&v)
}

/// Whether two character sequences are equal.
pub fn eq(a: &Vec<char>, b: &Vec<char>) -> (r: bool)
    ensures
        r == (a@ == b@),
{
    if a.len() != b.len() {
        return false;
    }
    let mut i: usize = 0;
    while i < a.len()
        invariant
            a.len() == b.len(),
            i <= a.len(),
            forall|j: int| 0 <= j < i ==> a@[j] == b@[j],
        decreases a.len() - i,
    {
        if a[i] != b[i] {
            return false;
        }
        i = i + 1;
    }
    assert(a@ =~= b@);
    true
}

/// Whether `a` holds exactly the characters of the literal `b`.
pub fn eq_str(a: &Vec<char>, b: &str) -> (r: bool)
    ensures
        r == (a@ == b@),
{
    let bv = str_chars(b);
    eq(a, &bv)
}

// ── Whitespace ───────────────────────────────────────────────────

/// Unicode `White_Space`, as `char::is_whitespace` defines it.
pub open spec fn is_ws(c: char) -> bool {
    let n = c as u32;
    ||| 0x09 <= n <= 0x0D
    ||| n == 0x20
    ||| n == 0x85
    ||| n == 0xA0
    ||| n == 0x1680
    ||| 0x2000 <= n <= 0x200A
    ||| n == 0x2028
    ||| n == 0x2029
    ||| n == 0x202F
    ||| n == 0x205F
    ||| n == 0x3000
}

pub fn char_is_ws(c: char) -> (b: bool)
    ensures
        b == is_ws(c),
{
    let n = c as u32;
    (0x09 <= n && n <= 0x0D) || n == 0x20 || n == 0x85 || n == 0xA0 || n == 0x1680 || (0x2000
        <= n && n <= 0x200A) || n == 0x2028 || n == 0x2029 || n == 0x202F || n == 0x205F || n
        == 0x3000
}

/// ASCII decimal digit.
pub open spec fn is_digit(c: char) -> bool {
    '0' <= c <= '9'
}

pub open spec fn ws_pred() -> spec_fn(char) -> bool {
    |c: char| is_ws(c)
}

pub open spec fn char_pred(x: char) -> spec_fn(char) -> bool {
    |c: char| c == x
}

/// Number of leading characters of `s` that satisfy `p`.
pub open spec fn lead_count(s: Seq<char>, p: spec_fn(char) -> bool) -> nat
    decreases s.len(),
{
    if s.len() > 0 && p(s[0]) {
        1 + lead_count(s.drop_first(), p)
    } else {
        0
    }
}

/// Number of trailing characters of `s` that satisfy `p`.
pub open spec fn trail_count(s: Seq<char>, p: spec_fn(char) -> bool) -> nat
    decreases s.len(),
{
    if s.len() > 0 && p(s.last()) {
        1 + trail_count(s.drop_last(), p)
    } else {
        0
    }
}

pub proof fn lemma_lead_count(s: Seq<char>, p: spec_fn(char) -> bool, i: int)
    requires
        0 <= i <= s.len(),
        forall|j: int| 0 <= j < i ==> #[trigger] p(s[j]),
        i == s.len() || !p(s[i]),
    ensures
        lead_count(s, p) == i,
    decreases i,
{
    if i > 0 {
        let t = s.drop_first();
        assert forall|j: int| 0 <= j < i - 1 implies #[trigger] p(t[j]) by {
            assert(t[j] == s[j + 1]);
        }
        if i - 1 < t.len() {
            assert(t[i - 1] == s[i]);
        }
        lemma_lead_count(t, p, i - 1);
    }
}

pub proof fn lemma_lead_count_bound(s: Seq<char>, p: spec_fn(char) -> bool)
    ensures
        lead_count(s, p) <= s.len(),
    decreases s.len(),
{
    if s.len() > 0 && p(s[0]) {
        lemma_lead_count_bound(s.drop_first(), p);
    }
}

pub proof fn lemma_lead_count_props(s: Seq<char>, p: spec_fn(char) -> bool)
    ensures
        lead_count(s, p) <= s.len(),
        lead_count(s, p) < s.len() ==> !p(s[lead_count(s, p) as int]),
        forall|j: int| 0 <= j < lead_count(s, p) ==> #[trigger] p(s[j]),
    decreases s.len(),
{
    if s.len() > 0 && p(s[0]) {
        let t = s.drop_first();
        lemma_lead_count_props(t, p);
        assert forall|j: int| 0 <= j < lead_count(s, p) implies #[trigger] p(s[j]) by {
            if j > 0 {
                assert(s[j] == t[j - 1]);
            }
        }
    }
}

pub proof fn lemma_trail_count_props(s: Seq<char>, p: spec_fn(char) -> bool)
    ensures
        trail_count(s, p) <= s.len(),
        trail_count(s, p) < s.len() ==> !p(s[s.len() - trail_count(s, p) - 1]),
        forall|j: int| s.len() - trail_count(s, p) <= j < s.len() ==> #[trigger] p(s[j]),
    decreases s.len(),
{
    if s.len() > 0 && p(s.last()) {
        let t = s.drop_last();
        lemma_trail_count_props(t, p);
        assert forall|j: int| s.len() - trail_count(s, p) <= j < s.len() implies #[trigger] p(
            s[j],
        ) by {
            if j < s.len() - 1 {
                assert(s[j] == t[j]);
            }
        }
    }
}

pub proof fn lemma_trail_count(s: Seq<char>, p: spec_fn(char) -> bool, k: int)
    requires
        0 <= k <= s.len(),
        forall|j: int| s.len() - k <= j < s.len() ==> #[trigger] p(s[j]),
        k == s.len() || !p(s[s.len() - k - 1]),
    ensures
        trail_count(s, p) == k,
    decreases k,
{
    if k > 0 {
        let t = s.drop_last();
        assert(p(s[s.len() - 1]));
        assert forall|j: int| t.len() - (k - 1) <= j < t.len() implies #[trigger] p(t[j]) by {
            assert(t[j] == s[j]);
        }
        if k - 1 < t.len() {
            assert(t[t.len() - (k - 1) - 1] == s[s.len() - k - 1]);
        }
        lemma_trail_count(t, p, k - 1);
    }
}

pub proof fn lemma_trail_count_bound(s: Seq<char>, p: spec_fn(char) -> bool)
    ensures
        trail_count(s, p) <= s.len(),
    decreases s.len(),
{
    if s.len() > 0 && p(s.last()) {
        lemma_trail_count_bound(s.drop_last(), p);
    }
}

/// `str::trim_start`.
pub open spec fn trim_start(s: Seq<char>) -> Seq<char> {
    s.skip(lead_count(s, ws_pred()) as int)
}

/// `str::trim_end`.
pub open spec fn trim_end(s: Seq<char>) -> Seq<char> {
    s.take(s.len() - trail_count(s, ws_pred()))
}

/// `str::trim`.
pub open spec fn trim(s: Seq<char>) -> Seq<char> {
    trim_end(trim_start(s))
}

/// Trimming never lengthens.
pub proof fn lemma_trim_len(s: Seq<char>)
    ensures
        trim(s).len() <= s.len(),
{
    lemma_lead_count_bound(s, ws_pred());
    lemma_trail_count_bound(trim_start(s), ws_pred());
}

/// Number of leading whitespace characters.
pub fn ws_lead(s: &Vec<char>) -> (n: usize)
    ensures
        n == lead_count(s@, ws_pred()),
        n <= s.len(),
{
    let mut i: usize = 0;
    while i < s.len() && char_is_ws(s[i])
        invariant
            i <= s.len(),
            forall|j: int| 0 <= j < i ==> #[trigger] ws_pred()(s@[j]),
        decreases s.len() - i,
    {
        i = i + 1;
    }
    proof {
        lemma_lead_count(s@, ws_pred(), i as int);
    }
    i
}

/// Number of trailing whitespace characters.
pub fn ws_trail(s: &Vec<char>) -> (n: usize)
    ensures
        n == trail_count(s@, ws_pred()),
        n <= s.len(),
{
    let mut k: usize = 0;
    while k < s.len() && char_is_ws(s[s.len() - 1 - k])
        invariant
            k <= s.len(),
            forall|j: int| s.len() - k <= j < s.len() ==> #[trigger] ws_pred()(s@[j]),
        decreases s.len() - k,
    {
        k = k + 1;
    }
    proof {
        lemma_trail_count(s@, ws_pred(), k as int);
    }
    k
}

pub fn trim_start_chars(s: &Vec<char>) -> (r: Vec<char>)
    ensures
        r@ == trim_start(s@),
{
    let n = ws_lead(s);
    slice_of(s, n, s.len())
}

pub fn trim_end_chars(s: &Vec<char>) -> (r: Vec<char>)
    ensures
        r@ == trim_end(s@),
{
    let n = ws_trail(s);
    slice_of(s, 0, s.len() - n)
}

pub fn trim_chars(s: &Vec<char>) -> (r: Vec<char>)
    ensures
        r@ == trim(s@),
{
    let a = trim_start_chars(s);
    trim_end_chars(&a)
}

/// Whether every character of `s` is whitespace (`str::trim(s).is_empty()`).
pub fn is_blank(s: &Vec<char>) -> (b: bool)
    ensures
        b == (trim(s@).len() == 0),
{
    let t = trim_chars(s);
    t.len() == 0
}

/// Number of leading characters equal to `c`.
pub fn count_lead_char(s: &Vec<char>, c: char) -> (n: usize)
    ensures
        n == lead_count(s@, char_pred(c)),
        n <= s.len(),
{
    let mut i: usize = 0;
    while i < s.len() && s[i] == c
        invariant
            i <= s.len(),
            forall|j: int| 0 <= j < i ==> #[trigger] char_pred(c)(s@[j]),
        decreases s.len() - i,
    {
        i = i + 1;
    }
    proof {
        lemma_lead_count(s@, char_pred(c), i as int);
    }
    i
}

/// The number of bytes that UTF-8 takes for a character.
pub open spec fn utf8_len(c: char) -> nat {
    if (c as u32) < 0x80 {
        1
    } else if (c as u32) < 0x800 {
        2
    } else if (c as u32) < 0x10000 {
        3
    } else {
        4
    }
}

/// The number of bytes that UTF-8 takes for some characters.
pub open spec fn utf8_width(s: Seq<char>) -> nat
    decreases s.len(),
{
    if s.len() == 0 {
        0
    } else {
        utf8_width(s.drop_last()) + utf8_len(s.last())
    }
}

/// Indentation width: the number of bytes of the leading whitespace (at
/// most `usize::MAX`).
pub open spec fn indent_of(s: Seq<char>) -> nat {
    let w = utf8_width(s.take(lead_count(s, ws_pred()) as int));
    if w <= usize::MAX {
        w
    } else {
        usize::MAX as nat
    }
}

/// The indentation of a line in bytes, as `indent_of` states it.
pub fn indent_bytes(s: &Vec<char>) -> (r: usize)
    ensures
        r == indent_of(s@),
{
    let n = ws_lead(s);
    let mut w: usize = 0;
    let mut i: usize = 0;
    let mut sat = false;
    assert(s@.take(0) =~= Seq::<char>::empty());
    while i < n
        invariant
            n <= s.len(),
            n == lead_count(s@, ws_pred()),
            i <= n,
            sat ==> w == usize::MAX && utf8_width(s@.take(i as int)) >= usize::MAX,
            !sat ==> w == utf8_width(s@.take(i as int)),
        decreases n - i,
    {
        assert(s@.take(i + 1).drop_last() =~= s@.take(i as int));
        assert(s@.take(i + 1).last() == s@[i as int]);
        let c = s[i] as u32;
        let k: usize = if c < 0x80 {
            1
        } else if c < 0x800 {
            2
        } else if c < 0x10000 {
            3
        } else {
            4
        };
        if !sat {
            if w <= usize::MAX - k {
                w = w + k;
            } else {
                w = usize::MAX;
                sat = true;
            }
        }
        i = i + 1;
    }
    w
}

// ── Prefixes, suffixes, searching ────────────────────────────────

pub open spec fn starts_with(s: Seq<char>, p: Seq<char>) -> bool {
    p.len() <= s.len() && s.take(p.len() as int) == p
}

pub open spec fn ends_with(s: Seq<char>, p: Seq<char>) -> bool {
    p.len() <= s.len() && s.skip(s.len() - p.len()) == p
}

pub open spec fn matches_at(s: Seq<char>, p: Seq<char>, i: int) -> bool {
    0 <= i && i + p.len() <= s.len() && s.subrange(i, i + p.len()) == p
}

/// Whether `p` occurs in `s` at position `i`.
pub fn matches_at_exec(s: &Vec<char>, p: &Vec<char>, i: usize) -> (b: bool)
    ensures
        b == matches_at(s@, p@, i as int),
{
    if i > s.len() || p.len() > s.len() - i {
        return false;
    }
    let mut k: usize = 0;
    while k < p.len()
        invariant
            i + p.len() <= s.len(),
            k <= p.len(),
            forall|j: int| 0 <= j < k ==> s@[i + j] == p@[j],
        decreases p.len() - k,
    {
        if s[i + k] != p[k] {
            assert(s@.subrange(i as int, i + p.len())[k as int] != p@[k as int]);
            return false;
        }
        k = k + 1;
    }
    assert(s@.subrange(i as int, i + p.len()) =~= p@);
    true
}

pub fn starts_with_chars(s: &Vec<char>, p: &Vec<char>) -> (b: bool)
    ensures
        b == starts_with(s@, p@),
{
    let r = matches_at_exec(s, p, 0);
    proof {
        if r {
            assert(s@.take(p@.len() as int) =~= s@.subrange(0, p@.len() as int));
        } else if p@.len() <= s@.len() {
            assert(s@.take(p@.len() as int) =~= s@.subrange(0, p@.len() as int));
        }
    }
    r
}

pub fn starts_with_str(s: &Vec<char>, p: &str) -> (b: bool)
    ensures
        b == starts_with(s@, p@),
{
    let pv = str_chars(p);
    starts_with_chars(s, &pv)
}

pub fn ends_with_chars(s: &Vec<char>, p: &Vec<char>) -> (b: bool)
    ensures
        b == ends_with(s@, p@),
{
    if p.len() > s.len() {
        return false;
    }
    let r = matches_at_exec(s, p, s.len() - p.len());
    proof {
        assert(s@.skip(s@.len() - p@.len()) =~= s@.subrange(
            s@.len() - p@.len(),
            s@.len() - p@.len() + p@.len(),
        ));
    }
    r
}

pub fn ends_with_str(s: &Vec<char>, p: &str) -> (b: bool)
    ensures
        b == ends_with(s@, p@),
{
    let pv = str_chars(p);
    ends_with_chars(s, &pv)
}

pub fn starts_with_char(s: &Vec<char>, c: char) -> (b: bool)
    ensures
        b == (s@.len() > 0 && s@[0] == c),
        b == starts_with(s@, seq![c]),
{
    proof {
        if s@.len() > 0 {
            assert(s@.take(1) =~= seq![s@[0]]);
            if s@[0] != c {
                assert(s@.take(1)[0] != seq![c][0]);
            }
        }
    }
    s.len() > 0 && s[0] == c
}

pub fn ends_with_char(s: &Vec<char>, c: char) -> (b: bool)
    ensures
        b == (s@.len() > 0 && s@.last() == c),
        b == ends_with(s@, seq![c]),
{
    proof {
        if s@.len() > 0 {
            assert(s@.skip(s@.len() - 1) =~= seq![s@.last()]);
            if s@.last() != c {
                assert(s@.skip(s@.len() - 1)[0] != seq![c][0]);
            }
        }
    }
    s.len() > 0 && s[s.len() - 1] == c
}

/// First position at or after `i` where `p` occurs (`str::find`).
pub open spec fn find_from(s: Seq<char>, p: Seq<char>, i: int) -> Option<int>
    decreases s.len() + 1 - i,
{
    if i < 0 || i + p.len() > s.len() {
        None
    } else if matches_at(s, p, i) {
        Some(i)
    } else {
        find_from(s, p, i + 1)
    }
}

pub open spec fn find(s: Seq<char>, p: Seq<char>) -> Option<int> {
    find_from(s, p, 0)
}

pub open spec fn contains(s: Seq<char>, p: Seq<char>) -> bool {
    find(s, p) is Some
}

pub proof fn lemma_find_from(s: Seq<char>, p: Seq<char>, i: int)
    requires
        0 <= i,
    ensures
        find_from(s, p, i) matches Some(k) ==> i <= k && matches_at(s, p, k) && (forall|j: int|
            i <= j < k ==> !matches_at(s, p, j)),
        find_from(s, p, i) is None ==> forall|j: int| i <= j ==> !matches_at(s, p, j),
    decreases s.len() + 1 - i,
{
    if i < 0 || i + p.len() > s.len() {
        if i >= 0 {
            assert forall|j: int| i <= j implies !matches_at(s, p, j) by {}
        }
    } else if !matches_at(s, p, i) {
        lemma_find_from(s, p, i + 1);
    }
}

/// First position at or after `from` where `p` occurs.
pub fn find_chars_from(s: &Vec<char>, p: &Vec<char>, from: usize) -> (r: Option<usize>)
    ensures
        r matches Some(k) ==> find_from(s@, p@, from as int) == Some(k as int),
        r is None ==> find_from(s@, p@, from as int) is None,
{
    let mut i: usize = from;
    while i <= s.len() && p.len() <= s.len() - i
        invariant
            from <= i,
            find_from(s@, p@, from as int) == find_from(s@, p@, i as int),
        decreases s.len() + 1 - i,
    {
        if p.len() == 0 {
            assert(s@.subrange(i as int, i as int) =~= p@);
            return Some(i);
        }
        if matches_at_exec(s, p, i) {
            return Some(i);
        }
        i = i + 1;
    }
    None
}

pub fn find_chars(s: &Vec<char>, p: &Vec<char>) -> (r: Option<usize>)
    ensures
        r matches Some(k) ==> find(s@, p@) == Some(k as int),
        r is None ==> find(s@, p@) is None,
{
    find_chars_from(s, p, 0)
}

pub fn find_str(s: &Vec<char>, p: &str) -> (r: Option<usize>)
    ensures
        r matches Some(k) ==> find(s@, p@) == Some(k as int),
        r is None ==> find(s@, p@) is None,
{
    let pv = str_chars(p);
    find_chars(s, &pv)
}

pub fn find_char(s: &Vec<char>, c: char) -> (r: Option<usize>)
    ensures
        r matches Some(k) ==> find(s@, seq![c]) == Some(k as int),
        r is None ==> find(s@, seq![c]) is None,
{
    let pv = vec![c];
    proof {
        assert(pv@ =~= seq![c]);
    }
    find_chars(s, &pv)
}

pub fn contains_str(s: &Vec<char>, p: &str) -> (b: bool)
    ensures
        b == contains(s@, p@),
{
    find_str(s, p).is_some()
}

pub fn contains_char(s: &Vec<char>, c: char) -> (b: bool)
    ensures
        b == contains(s@, seq![c]),
{
    find_char(s, c).is_some()
}

pub fn contains_chars(s: &Vec<char>, p: &Vec<char>) -> (b: bool)
    ensures
        b == contains(s@, p@),
{
    find_chars(s, p).is_some()
}

/// Last position at or before `i` where `p` occurs (`str::rfind`).
pub open spec fn rfind_from(s: Seq<char>, p: Seq<char>, i: int) -> Option<int>
    decreases i + 1,
{
    if i < 0 {
        None
    } else if matches_at(s, p, i) {
        Some(i)
    } else {
        rfind_from(s, p, i - 1)
    }
}

pub open spec fn rfind(s: Seq<char>, p: Seq<char>) -> Option<int> {
    rfind_from(s, p, s.len() - p.len())
}

pub fn rfind_str(s: &Vec<char>, p: &str) -> (r: Option<usize>)
    ensures
        r matches Some(k) ==> rfind(s@, p@) == Some(k as int),
        r is None ==> rfind(s@, p@) is None,
{
    let pv = str_chars(p);
    if pv.len() > s.len() {
        assert(rfind_from(s@, pv@, s@.len() - pv@.len()) is None);
        return None;
    }
    let mut i: usize = s.len() - pv.len();
    loop
        invariant
            pv@ == p@,
            pv.len() <= s.len(),
            i <= s.len() - pv.len(),
            rfind(s@, pv@) == rfind_from(s@, pv@, i as int),
        decreases i,
    {
        if matches_at_exec(s, &pv, i) {
            return Some(i);
        }
        if i == 0 {
            assert(rfind_from(s@, pv@, -1) is None);
            return None;
        }
        i = i - 1;
    }
}

/// `str::strip_prefix`: the rest after `p`, if `s` starts with `p`.
pub open spec fn strip_prefix(s: Seq<char>, p: Seq<char>) -> Option<Seq<char>> {
    if starts_with(s, p) {
        Some(s.skip(p.len() as int))
    } else {
        None
    }
}

/// `str::strip_suffix`.
pub open spec fn strip_suffix(s: Seq<char>, p: Seq<char>) -> Option<Seq<char>> {
    if ends_with(s, p) {
        Some(s.take(s.len() - p.len()))
    } else {
        None
    }
}

pub fn strip_prefix_str(s: &Vec<char>, p: &str) -> (r: Option<Vec<char>>)
    ensures
        r matches Some(v) ==> strip_prefix(s@, p@) == Some(v@),
        r is None ==> strip_prefix(s@, p@) is None,
{
    let pv = str_chars(p);
    if starts_with_chars(s, &pv) {
        Some(slice_of(s, pv.len(), s.len()))
    } else {
        None
    }
}

pub fn strip_suffix_str(s: &Vec<char>, p: &str) -> (r: Option<Vec<char>>)
    ensures
        r matches Some(v) ==> strip_suffix(s@, p@) == Some(v@),
        r is None ==> strip_suffix(s@, p@) is None,
{
    let pv = str_chars(p);
    if ends_with_chars(s, &pv) {
        Some(slice_of(s, 0, s.len() - pv.len()))
    } else {
        None
    }
}

/// `str::trim_start_matches` with a string pattern: removes every leading
/// repetition of `p`.
pub open spec fn trim_start_matches(s: Seq<char>, p: Seq<char>) -> Seq<char>
    decreases s.len(),
{
    if p.len() > 0 && starts_with(s, p) {
        trim_start_matches(s.skip(p.len() as int), p)
    } else {
        s
    }
}

/// `str::trim_end_matches` with a string pattern.
pub open spec fn trim_end_matches(s: Seq<char>, p: Seq<char>) -> Seq<char>
    decreases s.len(),
{
    if p.len() > 0 && ends_with(s, p) {
        trim_end_matches(s.take(s.len() - p.len()), p)
    } else {
        s
    }
}

pub fn trim_start_matches_str(s: &Vec<char>, p: &str) -> (r: Vec<char>)
    ensures
        r@ == trim_start_matches(s@, p@),
{
    let pv = str_chars(p);
    if pv.len() == 0 {
        return s.clone();
    }
    let mut i: usize = 0;
    assert(s@.skip(0) =~= s@);
    while i <= s.len() && matches_at_exec(s, &pv, i)
        invariant
            pv@.len() > 0,
            i <= s.len(),
            trim_start_matches(s@, pv@) == trim_start_matches(s@.skip(i as int), pv@),
        decreases s.len() - i,
    {
        proof {
            let t = s@.skip(i as int);
            assert(t.take(pv@.len() as int) =~= s@.subrange(i as int, i + pv@.len()));
            assert(t.skip(pv@.len() as int) =~= s@.skip(i + pv@.len()));
        }
        i = i + pv.len();
    }
    proof {
        let t = s@.skip(i as int);
        if starts_with(t, pv@) {
            assert(t.take(pv@.len() as int) =~= s@.subrange(i as int, i + pv@.len()));
        }
    }
    slice_of(s, i, s.len())
}

pub fn trim_end_matches_str(s: &Vec<char>, p: &str) -> (r: Vec<char>)
    ensures
        r@ == trim_end_matches(s@, p@),
{
    let pv = str_chars(p);
    if pv.len() == 0 {
        return s.clone();
    }
    let mut e: usize = s.len();
    assert(s@.take(s@.len() as int) =~= s@);
    while e >= pv.len() && matches_at_exec(s, &pv, e - pv.len())
        invariant
            pv@.len() > 0,
            e <= s.len(),
            trim_end_matches(s@, pv@) == trim_end_matches(s@.take(e as int), pv@),
        decreases e,
    {
        proof {
            let t = s@.take(e as int);
            assert(t.skip(t.len() - pv@.len()) =~= s@.subrange(e - pv@.len(), e as int));
            assert(t.take(t.len() - pv@.len()) =~= s@.take(e - pv@.len()));
        }
        e = e - pv.len();
    }
    proof {
        let t = s@.take(e as int);
        if ends_with(t, pv@) {
            assert(t.skip(t.len() - pv@.len()) =~= s@.subrange(e - pv@.len(), e as int));
        }
    }
    slice_of(s, 0, e)
}

/// `str::trim_matches(c)`: strips `c` from both ends.
pub open spec fn trim_matches_char(s: Seq<char>, c: char) -> Seq<char> {
    let a = lead_count(s, char_pred(c));
    if a == s.len() {
        Seq::empty()
    } else {
        s.subrange(a as int, s.len() - trail_count(s, char_pred(c)))
    }
}

pub fn trim_matches_char_exec(s: &Vec<char>, c: char) -> (r: Vec<char>)
    ensures
        r@ == trim_matches_char(s@, c),
{
    let mut i: usize = 0;
    while i < s.len() && s[i] == c
        invariant
            i <= s.len(),
            forall|j: int| 0 <= j < i ==> #[trigger] char_pred(c)(s@[j]),
        decreases s.len() - i,
    {
        i = i + 1;
    }
    proof {
        lemma_lead_count(s@, char_pred(c), i as int);
    }
    if i == s.len() {
        return Vec::new();
    }
    let mut k: usize = 0;
    while k < s.len() && s[s.len() - 1 - k] == c
        invariant
            k <= s.len(),
            forall|j: int| s.len() - k <= j < s.len() ==> #[trigger] char_pred(c)(s@[j]),
        decreases s.len() - k,
    {
        k = k + 1;
    }
    proof {
        lemma_trail_count(s@, char_pred(c), k as int);
        assert(s@[i as int] != c);
        if k > s.len() - i {
            assert(char_pred(c)(s@[i as int]));
        }
    }
    slice_of(s, i, s.len() - k)
}


// ── Splitting and joining ────────────────────────────────────────

/// The views of a sequence of character vectors.
pub open spec fn views(v: Seq<Vec<char>>) -> Seq<Seq<char>> {
    v.map_values(|x: Vec<char>| x@)
}

pub proof fn lemma_views_push(v: Seq<Vec<char>>, x: Vec<char>)
    ensures
        views(v.push(x)) == views(v).push(x@),
{
    assert(views(v.push(x)) =~= views(v).push(x@));
}

/// The views of a sequence of strings.
pub open spec fn str_views(v: Seq<String>) -> Seq<Seq<char>> {
    v.map_values(|x: String| x@)
}

/// Each character vector as a `String`.
pub fn to_strings(v: &Vec<Vec<char>>) -> (r: Vec<String>)
    ensures
        str_views(r@) == views(v@),
{
    let mut out: Vec<String> = Vec::new();
    let mut k: usize = 0;
    while k < v.len()
        invariant
            k <= v.len(),
            str_views(out@) == views(v@).take(k as int),
        decreases v.len() - k,
    {
        let ghost o = out@;
        let s = to_string(&v[k]);
        out.push(s);
        proof {
            assert(out@ == o.push(s));
            assert(str_views(o.push(s)) =~= str_views(o).push(s@));
            assert(views(v@).take(k + 1) =~= views(v@).take(k as int).push(v@[k as int]@));
        }
        k = k + 1;
    }
    assert(views(v@).take(v.len() as int) =~= views(v@));
    out
}

/// Each `String` as a character vector.
pub fn from_strings(v: &Vec<String>) -> (r: Vec<Vec<char>>)
    ensures
        views(r@) == str_views(v@),
{
    let mut out: Vec<Vec<char>> = Vec::new();
    let mut k: usize = 0;
    while k < v.len()
        invariant
            k <= v.len(),
            views(out@) == str_views(v@).take(k as int),
        decreases v.len() - k,
    {
        let c = string_chars(&v[k]);
        proof {
            lemma_views_push(out@, c);
        }
        out.push(c);
        k = k + 1;
        assert(views(out@) =~= str_views(v@).take(k as int));
    }
    assert(str_views(v@).take(v.len() as int) =~= str_views(v@));
    out
}

/// `str::split` with a non-empty separator.
pub open spec fn split(s: Seq<char>, sep: Seq<char>) -> Seq<Seq<char>>
    decreases s.len(),
{
    if sep.len() == 0 {
        seq![s]
    } else {
        match find(s, sep) {
            Some(i) => if 0 <= i && i + sep.len() <= s.len() {
                seq![s.take(i)] + split(s.skip(i + sep.len()), sep)
            } else {
                seq![s]
            },
            None => seq![s],
        }
    }
}

pub fn split_chars(s: &Vec<char>, sep: &Vec<char>) -> (r: Vec<Vec<char>>)
    requires
        sep@.len() > 0,
    ensures
        views(r@) == split(s@, sep@),
        r@.len() >= 1,
{
    let mut out: Vec<Vec<char>> = Vec::new();
    let mut rest = s.clone();
    loop
        invariant
            sep@.len() > 0,
            views(out@) + split(rest@, sep@) == split(s@, sep@),
        decreases rest@.len(),
    {
        match find_chars(&rest, sep) {
            Some(i) => {
                proof {
                    lemma_find_from(rest@, sep@, 0);
                }
                let head = slice_of(&rest, 0, i);
                let tail = slice_of(&rest, i + sep.len(), rest.len());
                proof {
                    assert(head@ == rest@.take(i as int));
                    assert(tail@ =~= rest@.skip(i + sep@.len()));
                    lemma_views_push(out@, head);
                    assert(views(out@.push(head)) + split(tail@, sep@) =~= views(out@) + split(
                        rest@,
                        sep@,
                    ));
                }
                out.push(head);
                rest = tail;
            },
            None => {
                proof {
                    lemma_views_push(out@, rest);
                    assert(views(out@.push(rest)) =~= views(out@) + split(rest@, sep@));
                }
                out.push(rest);
                return out;
            },
        }
    }
}

pub fn split_str(s: &Vec<char>, sep: &str) -> (r: Vec<Vec<char>>)
    requires
        sep@.len() > 0,
    ensures
        views(r@) == split(s@, sep@),
        r@.len() >= 1,
{
    let sv = str_chars(sep);
    split_chars(s, &sv)
}

pub fn split_char(s: &Vec<char>, c: char) -> (r: Vec<Vec<char>>)
    ensures
        views(r@) == split(s@, seq![c]),
        r@.len() >= 1,
{
    let sv = vec![c];
    assert(sv@ =~= seq![c]);
    split_chars(s, &sv)
}

/// `str::split_once`: the text before and after the first `sep`.
pub open spec fn split_once(s: Seq<char>, sep: Seq<char>) -> Option<(Seq<char>, Seq<char>)> {
    match find(s, sep) {
        Some(i) => Some((s.take(i), s.skip(i + sep.len()))),
        None => None,
    }
}

pub fn split_once_chars(s: &Vec<char>, sep: &Vec<char>) -> (r: Option<(Vec<char>, Vec<char>)>)
    ensures
        r matches Some((a, b)) ==> split_once(s@, sep@) == Some((a@, b@)),
        r is None ==> split_once(s@, sep@) is None,
{
    match find_chars(s, sep) {
        Some(i) => {
            proof {
                lemma_find_from(s@, sep@, 0);
            }
            assert(matches_at(s@, sep@, i as int));
            let sl = s.len();
            let a = slice_of(s, 0, i);
            let b = slice_of(s, i + sep.len(), sl);
            assert(b@ =~= s@.skip(i + sep@.len()));
            Some((a, b))
        },
        None => None,
    }
}

pub fn split_once_char(s: &Vec<char>, c: char) -> (r: Option<(Vec<char>, Vec<char>)>)
    ensures
        r matches Some((a, b)) ==> split_once(s@, seq![c]) == Some((a@, b@)),
        r is None ==> split_once(s@, seq![c]) is None,
{
    let sv = vec![c];
    assert(sv@ =~= seq![c]);
    split_once_chars(s, &sv)
}

pub fn split_once_str(s: &Vec<char>, sep: &str) -> (r: Option<(Vec<char>, Vec<char>)>)
    ensures
        r matches Some((a, b)) ==> split_once(s@, sep@) == Some((a@, b@)),
        r is None ==> split_once(s@, sep@) is None,
{
    let sv = str_chars(sep);
    split_once_chars(s, &sv)
}

pub open spec fn non_ws_pred() -> spec_fn(char) -> bool {
    |c: char| !is_ws(c)
}

/// `str::split_whitespace`.
pub open spec fn split_ws(s: Seq<char>) -> Seq<Seq<char>>
    decreases s.len(),
{
    let k = lead_count(s, ws_pred());
    if k >= s.len() {
        Seq::empty()
    } else {
        let t = s.skip(k as int);
        let w = lead_count(t, non_ws_pred());
        if 1 <= w <= t.len() {
            seq![t.take(w as int)] + split_ws(t.skip(w as int))
        } else {
            Seq::empty()
        }
    }
}

pub fn split_whitespace(s: &Vec<char>) -> (r: Vec<Vec<char>>)
    ensures
        views(r@) == split_ws(s@),
{
    let mut out: Vec<Vec<char>> = Vec::new();
    let mut rest = s.clone();
    loop
        invariant
            views(out@) + split_ws(rest@) == split_ws(s@),
        decreases rest@.len(),
    {
        let k = ws_lead(&rest);
        if k >= rest.len() {
            assert(views(out@) + split_ws(rest@) =~= views(out@));
            return out;
        }
        let t = slice_of(&rest, k, rest.len());
        let mut w: usize = 0;
        while w < t.len() && !char_is_ws(t[w])
            invariant
                w <= t.len(),
                forall|j: int| 0 <= j < w ==> #[trigger] non_ws_pred()(t@[j]),
            decreases t.len() - w,
        {
            w = w + 1;
        }
        proof {
            lemma_lead_count(t@, non_ws_pred(), w as int);
            lemma_lead_count_props(rest@, ws_pred());
            assert(t@ =~= rest@.skip(k as int));
            assert(w >= 1) by {
                if w == 0 {
                    assert(!ws_pred()(rest@[k as int]));
                    assert(t@[0] == rest@[k as int]);
                    assert(non_ws_pred()(t@[0]));
                }
            }
        }
        let word = slice_of(&t, 0, w);
        let tail = slice_of(&t, w, t.len());
        proof {
            assert(word@ == t@.take(w as int));
            assert(tail@ =~= t@.skip(w as int));
            lemma_views_push(out@, word);
            assert(views(out@.push(word)) + split_ws(tail@) =~= views(out@) + split_ws(rest@));
        }
        out.push(word);
        rest = tail;
    }
}

/// `slice::join` on strings.
pub open spec fn join(parts: Seq<Seq<char>>, sep: Seq<char>) -> Seq<char>
    decreases parts.len(),
{
    if parts.len() == 0 {
        Seq::empty()
    } else if parts.len() == 1 {
        parts[0]
    } else {
        join(parts.drop_last(), sep) + sep + parts.last()
    }
}

pub fn join_chars(parts: &Vec<Vec<char>>, sep: &Vec<char>) -> (r: Vec<char>)
    ensures
        r@ == join(views(parts@), sep@),
{
    let mut out: Vec<char> = Vec::new();
    let mut i: usize = 0;
    while i < parts.len()
        invariant
            i <= parts.len(),
            out@ == join(views(parts@).take(i as int), sep@),
        decreases parts.len() - i,
    {
        if i > 0 {
            append(&mut out, sep);
        }
        append(&mut out, &parts[i]);
        proof {
            let vs = views(parts@);
            assert(vs.take(i + 1).drop_last() =~= vs.take(i as int));
            if i == 0 {
                assert(vs.take(1) =~= seq![parts@[0]@]);
            }
        }
        i = i + 1;
    }
    assert(views(parts@).take(parts.len() as int) =~= views(parts@));
    out
}

pub fn join_str(parts: &Vec<Vec<char>>, sep: &str) -> (r: Vec<char>)
    ensures
        r@ == join(views(parts@), sep@),
{
    let sv = str_chars(sep);
    join_chars(parts, &sv)
}

/// `str::lines`: split at `\n`, dropping a final empty line and a `\r`
/// before each `\n`.
pub open spec fn lines(s: Seq<char>) -> Seq<Seq<char>>
    decreases s.len(),
{
    if s.len() == 0 {
        Seq::empty()
    } else {
        match find(s, seq!['\n']) {
            Some(i) => if 0 <= i < s.len() {
                seq![strip_cr(s.take(i))] + lines(s.skip(i + 1))
            } else {
                seq![s]
            },
            None => seq![s],
        }
    }
}

pub open spec fn strip_cr(s: Seq<char>) -> Seq<char> {
    if s.len() > 0 && s.last() == '\r' {
        s.drop_last()
    } else {
        s
    }
}

pub fn lines_of(s: &Vec<char>) -> (r: Vec<Vec<char>>)
    ensures
        views(r@) == lines(s@),
{
    let mut out: Vec<Vec<char>> = Vec::new();
    let mut rest = s.clone();
    loop
        invariant
            views(out@) + lines(rest@) == lines(s@),
        decreases rest@.len(),
    {
        if rest.len() == 0 {
            assert(views(out@) + lines(rest@) =~= views(out@));
            return out;
        }
        match find_char(&rest, '\n') {
            Some(i) => {
                proof {
                    lemma_find_from(rest@, seq!['\n'], 0);
                }
                let mut head = slice_of(&rest, 0, i);
                if head.len() > 0 && head[head.len() - 1] == '\r' {
                    head.pop();
                }
                let tail = slice_of(&rest, i + 1, rest.len());
                proof {
                    assert(head@ =~= strip_cr(rest@.take(i as int)));
                    assert(tail@ =~= rest@.skip(i + 1));
                    lemma_views_push(out@, head);
                    assert(views(out@.push(head)) + lines(tail@) =~= views(out@) + lines(rest@));
                }
                out.push(head);
                rest = tail;
            },
            None => {
                proof {
                    lemma_views_push(out@, rest);
                    assert(views(out@.push(rest)) =~= views(out@) + lines(rest@));
                }
                out.push(rest);
                return out;
            },
        }
    }
}

/// `str::replace(from, to)` for a non-empty `from`.
pub open spec fn replace(s: Seq<char>, from: Seq<char>, to: Seq<char>) -> Seq<char>
    decreases s.len(),
{
    if from.len() == 0 {
        s
    } else {
        match find(s, from) {
            Some(i) => if 0 <= i && i + from.len() <= s.len() {
                s.take(i) + to + replace(s.skip(i + from.len()), from, to)
            } else {
                s
            },
            None => s,
        }
    }
}

pub fn replace_str(s: &Vec<char>, from: &str, to: &str) -> (r: Vec<char>)
    requires
        from@.len() > 0,
    ensures
        r@ == replace(s@, from@, to@),
{
    let fv = str_chars(from);
    let tv = str_chars(to);
    let mut out: Vec<char> = Vec::new();
    let mut rest = s.clone();
    loop
        invariant
            fv@ == from@,
            tv@ == to@,
            fv@.len() > 0,
            out@ + replace(rest@, fv@, tv@) == replace(s@, fv@, tv@),
        decreases rest@.len(),
    {
        match find_chars(&rest, &fv) {
            Some(i) => {
                proof {
                    lemma_find_from(rest@, fv@, 0);
                }
                let head = slice_of(&rest, 0, i);
                let tail = slice_of(&rest, i + fv.len(), rest.len());
                let ghost old_out = out@;
                append(&mut out, &head);
                append(&mut out, &tv);
                proof {
                    assert(tail@ =~= rest@.skip(i + fv@.len()));
                    assert(out@ + replace(tail@, fv@, tv@) =~= old_out + replace(rest@, fv@, tv@));
                }
                rest = tail;
            },
            None => {
                let ghost old_out = out@;
                append(&mut out, &rest);
                return out;
            },
        }
    }
}

/// `str::repeat`.
pub open spec fn repeat(s: Seq<char>, n: nat) -> Seq<char>
    decreases n,
{
    if n == 0 {
        Seq::empty()
    } else {
        repeat(s, (n - 1) as nat) + s
    }
}

pub fn repeat_str(s: &str, n: usize) -> (r: Vec<char>)
    ensures
        r@ == repeat(s@, n as nat),
{
    let sv = str_chars(s);
    let mut out: Vec<char> = Vec::new();
    let mut i: usize = 0;
    while i < n
        invariant
            sv@ == s@,
            i <= n,
            out@ == repeat(s@, i as nat),
        decreases n - i,
    {
        append(&mut out, &sv);
        i = i + 1;
    }
    out
}

/// Tab characters replaced by four spaces (`str::replace('\t', "    ")`).
pub open spec fn expand_tabs(s: Seq<char>) -> Seq<char>
    decreases s.len(),
{
    if s.len() == 0 {
        Seq::empty()
    } else {
        expand_tabs(s.drop_last()) + if s.last() == '\t' {
            seq![' ', ' ', ' ', ' ']
        } else {
            seq![s.last()]
        }
    }
}

pub fn expand_tabs_exec(s: &Vec<char>) -> (r: Vec<char>)
    ensures
        r@ == expand_tabs(s@),
{
    let mut out: Vec<char> = Vec::new();
    let mut i: usize = 0;
    while i < s.len()
        invariant
            i <= s.len(),
            out@ == expand_tabs(s@.take(i as int)),
        decreases s.len() - i,
    {
        let ghost before = out@;
        if s[i] == '\t' {
            out.push(' ');
            out.push(' ');
            out.push(' ');
            out.push(' ');
        } else {
            out.push(s[i]);
        }
        proof {
            assert(s@.take(i + 1).drop_last() =~= s@.take(i as int));
            assert(out@ =~= expand_tabs(s@.take(i + 1)));
        }
        i = i + 1;
    }
    assert(s@.take(s.len() as int) =~= s@);
    out
}

// ── Numbers ──────────────────────────────────────────────────────

pub open spec fn digit_char(d: nat) -> char {
    (d + 48) as char
}

/// Decimal notation of `n` (`ToString` on an unsigned integer).
pub open spec fn decimal(n: nat) -> Seq<char>
    decreases n,
{
    if n < 10 {
        seq![digit_char(n)]
    } else {
        decimal(n / 10).push(digit_char(n % 10))
    }
}

pub fn digit_to_char(d: usize) -> (c: char)
    requires
        d < 10,
    ensures
        c == digit_char(d as nat),
{
    if d == 0 {
        '0'
    } else if d == 1 {
        '1'
    } else if d == 2 {
        '2'
    } else if d == 3 {
        '3'
    } else if d == 4 {
        '4'
    } else if d == 5 {
        '5'
    } else if d == 6 {
        '6'
    } else if d == 7 {
        '7'
    } else if d == 8 {
        '8'
    } else {
        '9'
    }
}

pub fn decimal_chars(n: usize) -> (r: Vec<char>)
    ensures
        r@ == decimal(n as nat),
    decreases n,
{
    if n < 10 {
        let c = digit_to_char(n);
        let v = vec![c];
        assert(v@ =~= seq![c]);
        v
    } else {
        let mut v = decimal_chars(n / 10);
        let c = digit_to_char(n % 10);
        v.push(c);
        v
    }
}

/// Decimal notation of a signed integer (`ToString` on `i64`).
pub open spec fn signed_decimal(n: int) -> Seq<char> {
    if n < 0 {
        "-"@ + decimal((-n) as nat)
    } else {
        decimal(n as nat)
    }
}

pub fn decimal_u64_chars(n: u64) -> (r: Vec<char>)
    ensures
        r@ == decimal(n as nat),
    decreases n,
{
    if n < 10 {
        let c = digit_to_char(n as usize);
        let v = vec![c];
        assert(v@ =~= seq![c]);
        v
    } else {
        let mut v = decimal_u64_chars(n / 10);
        let c = digit_to_char((n % 10) as usize);
        v.push(c);
        v
    }
}

pub fn append_signed(a: &mut Vec<char>, n: i64)
    ensures
        final(a)@ == old(a)@ + signed_decimal(n as int),
{
    if n < 0 {
        let m: u64 = if n == i64::MIN {
            9223372036854775808u64
        } else {
            (-n) as u64
        };
        assert(m as int == -(n as int));
        append_str(a, "-");
        let d = decimal_u64_chars(m);
        let ghost a1 = a@;
        append(a, &d);
        assert(a@ =~= old(a)@ + ("-"@ + decimal((-(n as int)) as nat)));
    } else {
        let d = decimal_u64_chars(n as u64);
        append(a, &d);
    }
}

/// Value of a run of ASCII digits.
pub open spec fn digits_value(s: Seq<char>) -> nat
    decreases s.len(),
{
    if s.len() == 0 {
        0
    } else {
        digits_value(s.drop_last()) * 10 + ((s.last() as nat) - 48) as nat
    }
}

pub open spec fn all_digits(s: Seq<char>) -> bool {
    forall|i: int| 0 <= i < s.len() ==> #[trigger] is_digit(s[i])
}

/// `str::parse::<u32>()` (an optional `+`, then one or more ASCII digits,
/// within range).
pub open spec fn parse_u32(s: Seq<char>) -> Option<u32> {
    let d = if s.len() > 0 && s[0] == '+' {
        s.drop_first()
    } else {
        s
    };
    if d.len() > 0 && all_digits(d) && digits_value(d) <= u32::MAX {
        Some(digits_value(d) as u32)
    } else {
        None
    }
}

/// `str::parse::<usize>()` (an optional `+`, then one or more ASCII
/// digits, within range).
pub open spec fn parse_usize(s: Seq<char>) -> Option<usize> {
    let d = if s.len() > 0 && s[0] == '+' {
        s.drop_first()
    } else {
        s
    };
    if d.len() > 0 && all_digits(d) && digits_value(d) <= usize::MAX {
        Some(digits_value(d) as usize)
    } else {
        None
    }
}

/// `str::parse::<i64>()` (an optional sign, then one or more ASCII digits,
/// within range).
pub open spec fn parse_i64(s: Seq<char>) -> Option<i64> {
    let neg = s.len() > 0 && s[0] == '-';
    let d = if s.len() > 0 && (s[0] == '+' || s[0] == '-') {
        s.drop_first()
    } else {
        s
    };
    if d.len() > 0 && all_digits(d) {
        if neg && digits_value(d) <= 0x8000_0000_0000_0000 {
            Some((0 - digits_value(d)) as i64)
        } else if !neg && digits_value(d) <= 0x7FFF_FFFF_FFFF_FFFF {
            Some(digits_value(d) as i64)
        } else {
            None
        }
    } else {
        None
    }
}

/// Reads a run of digits; `None` when it is empty, holds another character, or
/// exceeds `limit`.
fn read_digits(d: &Vec<char>, from: usize, limit: u64) -> (r: Option<u64>)
    requires
        from <= d.len(),
        limit >= 9,
    ensures
        ({
            let t = d@.skip(from as int);
            &&& r matches Some(v) ==> t.len() > 0 && all_digits(t) && digits_value(t) == v
                && v <= limit
            &&& r is None ==> !(t.len() > 0 && all_digits(t) && digits_value(t) <= limit)
        }),
{
    let ghost t = d@.skip(from as int);
    if from == d.len() {
        return None;
    }
    let mut v: u64 = 0;
    let mut i: usize = from;
    while i < d.len()
        invariant
            from <= i <= d.len(),
            t == d@.skip(from as int),
            v <= limit,
            limit >= 9,
            all_digits(t.take(i - from)),
            digits_value(t.take(i - from)) == v,
        decreases d.len() - i,
    {
        let c = d[i];
        if !('0' <= c && c <= '9') {
            proof {
                assert(t[i - from] == c);
                assert(!is_digit(t[i - from]));
            }
            return None;
        }
        let dv = (c as u64) - 48;
        proof {
            assert(t.take(i + 1 - from).drop_last() =~= t.take(i - from));
            assert(t.take(i + 1 - from).last() == c);
        }
        if v > (limit - dv) / 10 {
            proof {
                assert(v * 10 + dv > limit) by (nonlinear_arith)
                    requires
                        v > (limit - dv) / 10,
                        dv <= 9,
                        dv <= limit || true,
                ;
                lemma_digits_value_prefix_monotone(t, (i + 1 - from) as int);
            }
            return None;
        }
        proof {
            assert(v * 10 + dv <= limit) by (nonlinear_arith)
                requires
                    v <= (limit - dv) / 10,
                    dv <= 9,
            ;
        }
        v = v * 10 + dv;
        i = i + 1;
    }
    assert(t.take(d.len() - from) =~= t);
    Some(v)
}

/// Once a prefix of a digit run exceeds a bound, the whole run does.
proof fn lemma_digits_value_prefix_monotone(t: Seq<char>, k: int)
    requires
        0 <= k <= t.len(),
        all_digits(t.take(k)),
    ensures
        all_digits(t) ==> digits_value(t.take(k)) <= digits_value(t),
    decreases t.len() - k,
{
    if k < t.len() && all_digits(t) {
        assert(all_digits(t.take(k + 1)));
        lemma_digits_value_prefix_monotone(t, k + 1);
        assert(t.take(k + 1).drop_last() =~= t.take(k));
    } else if k == t.len() {
        assert(t.take(k) =~= t);
    }
}

pub fn parse_u32_chars(s: &Vec<char>) -> (r: Option<u32>)
    ensures
        r == parse_u32(s@),
{
    let from: usize = if s.len() > 0 && s[0] == '+' { 1 } else { 0 };
    proof {
        assert(s@.skip(from as int) =~= if s@.len() > 0 && s@[0] == '+' {
            s@.drop_first()
        } else {
            s@
        });
    }
    match read_digits(s, from, 0xFFFF_FFFF) {
        Some(v) => Some(v as u32),
        None => None,
    }
}

pub fn parse_usize_chars(s: &Vec<char>) -> (r: Option<usize>)
    ensures
        r == parse_usize(s@),
{
    let from: usize = if s.len() > 0 && s[0] == '+' { 1 } else { 0 };
    proof {
        assert(s@.skip(from as int) =~= if s@.len() > 0 && s@[0] == '+' {
            s@.drop_first()
        } else {
            s@
        });
    }
    let max = usize::MAX as u64;
    match read_digits(s, from, max) {
        Some(v) => Some(v as usize),
        None => None,
    }
}

pub fn parse_i64_chars(s: &Vec<char>) -> (r: Option<i64>)
    ensures
        r == parse_i64(s@),
{
    let neg = s.len() > 0 && s[0] == '-';
    let from: usize = if s.len() > 0 && (s[0] == '+' || s[0] == '-') { 1 } else { 0 };
    proof {
        assert(s@.skip(from as int) =~= if s@.len() > 0 && (s@[0] == '+' || s@[0] == '-') {
            s@.drop_first()
        } else {
            s@
        });
    }
    if neg {
        match read_digits(s, from, 0x8000_0000_0000_0000) {
            Some(v) => {
                if v == 0x8000_0000_0000_0000 {
                    Some(i64::MIN)
                } else {
                    Some(0 - (v as i64))
                }
            },
            None => None,
        }
    } else {
        match read_digits(s, from, 0x7FFF_FFFF_FFFF_FFFF) {
            Some(v) => Some(v as i64),
            None => None,
        }
    }
}


// ── Debug-style quoting ──────────────────────────────────────────

/// How `{:?}` writes one character inside a quoted string (for the
/// characters that text in this library holds: quotes, backslashes and the
/// common control characters are escaped, everything else is kept).
pub open spec fn escape_char(c: char) -> Seq<char> {
    if c == '"' {
        seq!['\\', '"']
    } else if c == '\\' {
        seq!['\\', '\\']
    } else if c == '\n' {
        seq!['\\', 'n']
    } else if c == '\r' {
        seq!['\\', 'r']
    } else if c == '\t' {
        seq!['\\', 't']
    } else {
        seq![c]
    }
}

pub open spec fn escape_debug(s: Seq<char>) -> Seq<char>
    decreases s.len(),
{
    if s.len() == 0 {
        Seq::empty()
    } else {
        escape_debug(s.drop_last()) + escape_char(s.last())
    }
}

/// `"text"` with escapes, as `{:?}` writes a string.
pub open spec fn debug_quoted(s: Seq<char>) -> Seq<char> {
    seq!['"'] + escape_debug(s) + seq!['"']
}

pub fn debug_quoted_exec(s: &Vec<char>) -> (r: Vec<char>)
    ensures
        r@ == debug_quoted(s@),
{
    let mut out: Vec<char> = Vec::new();
    out.push('"');
    let mut i: usize = 0;
    while i < s.len()
        invariant
            i <= s.len(),
            out@ == seq!['"'] + escape_debug(s@.take(i as int)),
        decreases s.len() - i,
    {
        let c = s[i];
        if c == '"' {
            out.push('\\');
            out.push('"');
        } else if c == '\\' {
            out.push('\\');
            out.push('\\');
        } else if c == '\n' {
            out.push('\\');
            out.push('n');
        } else if c == '\r' {
            out.push('\\');
            out.push('r');
        } else if c == '\t' {
            out.push('\\');
            out.push('t');
        } else {
            out.push(c);
        }
        proof {
            assert(s@.take(i + 1).drop_last() =~= s@.take(i as int));
            assert(out@ =~= seq!['"'] + escape_debug(s@.take(i + 1)));
        }
        i = i + 1;
    }
    out.push('"');
    assert(s@.take(s.len() as int) =~= s@);
    assert(out@ =~= debug_quoted(s@));
    out
}

} // verus!
