//! The citation grammar: which character shapes count as inline citations,
//! reference-definition lines, reference-entry lines and reference-section
//! headers.
//!
//! Everything is defined over `Seq<char>`; the executable matchers are
//! verified against these definitions.

use vstd::prelude::*;
use vstd::string::StrSliceExecFns;

verus! {

// ---------------------------------------------------------------------------
// Character classes
// ---------------------------------------------------------------------------

/// A decimal digit, as in the numeric citation `[3]`.
pub open spec fn is_digit_char(c: char) -> bool {
    '0' <= c && c <= '9'
}

/// A lowercase ASCII letter.
pub open spec fn is_lower_alpha(c: char) -> bool {
    'a' <= c && c <= 'z'
}

/// An uppercase ASCII letter.
pub open spec fn is_upper_alpha(c: char) -> bool {
    'A' <= c && c <= 'Z'
}

/// Letters, digits, underscore and hyphen: the characters allowed in a
/// citation identifier, as in `[^sec-1_2]`.
pub open spec fn is_id_char(c: char) -> bool {
    is_lower_alpha(c) || is_upper_alpha(c) || is_digit_char(c) || c == '_' || c == '-'
}

/// Whitespace that can occur inside a single line: space or tab.
pub open spec fn is_line_ws(c: char) -> bool {
    c == ' ' || c == '\t'
}

/// `a` equals `b` up to ASCII case, where `b` is expected lowercase.
pub open spec fn matches_ci(a: char, b: char) -> bool {
    a == b || (is_lower_alpha(b) && a as u32 == b as u32 - 32)
}

fn digit_char(c: char) -> (r: bool)
    ensures
        r == is_digit_char(c),
{
    '0' <= c && c <= '9'
}

fn id_char(c: char) -> (r: bool)
    ensures
        r == is_id_char(c),
{
    ('a' <= c && c <= 'z') || ('A' <= c && c <= 'Z') || ('0' <= c && c <= '9') || c == '_' || c
        == '-'
}

pub(crate) fn line_ws_char(c: char) -> (r: bool)
    ensures
        r == is_line_ws(c),
{
    c == ' ' || c == '\t'
}

fn char_ci(a: char, b: char) -> (r: bool)
    ensures
        r == matches_ci(a, b),
{
    if a == b {
        true
    } else if 'a' <= b && b <= 'z' {
        let bu = b as u32;
        (a as u32) == bu - 32
    } else {
        false
    }
}

// ---------------------------------------------------------------------------
// Character runs
// ---------------------------------------------------------------------------

/// The first index at or after `i` that does not hold a digit.
pub open spec fn digit_run_end(s: Seq<char>, i: int) -> int
    decreases s.len() - i,
{
    if i < s.len() && is_digit_char(s[i]) {
        digit_run_end(s, i + 1)
    } else {
        i
    }
}

/// The first index at or after `i` that does not hold an identifier character.
pub open spec fn id_run_end(s: Seq<char>, i: int) -> int
    decreases s.len() - i,
{
    if i < s.len() && is_id_char(s[i]) {
        id_run_end(s, i + 1)
    } else {
        i
    }
}

/// `digit_run_end` is the unique boundary of a digit run.
pub proof fn lemma_digit_run_end_is(s: Seq<char>, i: int, m: int)
    requires
        0 <= i <= m <= s.len(),
        forall|q: int| i <= q < m ==> is_digit_char(s[q]),
        m < s.len() ==> !is_digit_char(s[m]),
    ensures
        digit_run_end(s, i) == m,
    decreases m - i,
{
    if i < m {
        lemma_digit_run_end_is(s, i + 1, m);
    }
}

/// `id_run_end` is the unique boundary of an identifier-character run.
pub proof fn lemma_id_run_end_is(s: Seq<char>, i: int, m: int)
    requires
        0 <= i <= m <= s.len(),
        forall|q: int| i <= q < m ==> is_id_char(s[q]),
        m < s.len() ==> !is_id_char(s[m]),
    ensures
        id_run_end(s, i) == m,
    decreases m - i,
{
    if i < m {
        lemma_id_run_end_is(s, i + 1, m);
    }
}

pub proof fn lemma_digit_run_end(s: Seq<char>, i: int)
    requires
        0 <= i <= s.len(),
    ensures
        i <= digit_run_end(s, i) <= s.len(),
        forall|q: int| i <= q < digit_run_end(s, i) ==> is_digit_char(s[q]),
        digit_run_end(s, i) < s.len() ==> !is_digit_char(s[digit_run_end(s, i)]),
    decreases s.len() - i,
{
    if i < s.len() && is_digit_char(s[i]) {
        lemma_digit_run_end(s, i + 1);
    }
}

pub proof fn lemma_id_run_end(s: Seq<char>, i: int)
    requires
        0 <= i <= s.len(),
    ensures
        i <= id_run_end(s, i) <= s.len(),
        forall|q: int| i <= q < id_run_end(s, i) ==> is_id_char(s[q]),
        id_run_end(s, i) < s.len() ==> !is_id_char(s[id_run_end(s, i)]),
    decreases s.len() - i,
{
    if i < s.len() && is_id_char(s[i]) {
        lemma_id_run_end(s, i + 1);
    }
}

fn digit_run_end_x(v: &Vec<char>, i: usize) -> (e: usize)
    requires
        i <= v.len(),
    ensures
        e as int == digit_run_end(v@, i as int),
        i <= e <= v.len(),
{
    let mut e = i;
    while e < v.len() && digit_char(v[e])
        invariant
            i <= e <= v.len(),
            digit_run_end(v@, i as int) == digit_run_end(v@, e as int),
        decreases v.len() - e,
    {
        e = e + 1;
    }
    proof {
        lemma_digit_run_end(v@, e as int);
    }
    e
}

fn id_run_end_x(v: &Vec<char>, i: usize) -> (e: usize)
    requires
        i <= v.len(),
    ensures
        e as int == id_run_end(v@, i as int),
        i <= e <= v.len(),
{
    let mut e = i;
    while e < v.len() && id_char(v[e])
        invariant
            i <= e <= v.len(),
            id_run_end(v@, i as int) == id_run_end(v@, e as int),
        decreases v.len() - e,
    {
        e = e + 1;
    }
    proof {
        lemma_id_run_end(v@, e as int);
    }
    e
}

/// The first index at or after `i` that does not hold a space or tab.
pub open spec fn ws_run_end(s: Seq<char>, i: int) -> int
    decreases s.len() - i,
{
    if i < s.len() && is_line_ws(s[i]) {
        ws_run_end(s, i + 1)
    } else {
        i
    }
}

/// The first index at or after `i` that does not hold `'#'`.
pub open spec fn hash_run_end(s: Seq<char>, i: int) -> int
    decreases s.len() - i,
{
    if i < s.len() && s[i] == '#' {
        hash_run_end(s, i + 1)
    } else {
        i
    }
}

pub proof fn lemma_ws_run_end(s: Seq<char>, i: int)
    requires
        0 <= i <= s.len(),
    ensures
        i <= ws_run_end(s, i) <= s.len(),
        forall|q: int| i <= q < ws_run_end(s, i) ==> is_line_ws(s[q]),
        ws_run_end(s, i) < s.len() ==> !is_line_ws(s[ws_run_end(s, i)]),
    decreases s.len() - i,
{
    if i < s.len() && is_line_ws(s[i]) {
        lemma_ws_run_end(s, i + 1);
    }
}

pub proof fn lemma_hash_run_end(s: Seq<char>, i: int)
    requires
        0 <= i <= s.len(),
    ensures
        i <= hash_run_end(s, i) <= s.len(),
        forall|q: int| i <= q < hash_run_end(s, i) ==> s[q] == '#',
        hash_run_end(s, i) < s.len() ==> s[hash_run_end(s, i)] != '#',
    decreases s.len() - i,
{
    if i < s.len() && s[i] == '#' {
        lemma_hash_run_end(s, i + 1);
    }
}

fn ws_run_end_x(v: &Vec<char>, i: usize) -> (e: usize)
    requires
        i <= v.len(),
    ensures
        e as int == ws_run_end(v@, i as int),
        i <= e <= v.len(),
{
    let mut e = i;
    while e < v.len() && line_ws_char(v[e])
        invariant
            i <= e <= v.len(),
            ws_run_end(v@, i as int) == ws_run_end(v@, e as int),
        decreases v.len() - e,
    {
        e = e + 1;
    }
    proof {
        lemma_ws_run_end(v@, e as int);
    }
    e
}

fn hash_run_end_x(v: &Vec<char>, i: usize) -> (e: usize)
    requires
        i <= v.len(),
    ensures
        e as int == hash_run_end(v@, i as int),
        i <= e <= v.len(),
{
    let mut e = i;
    while e < v.len() && v[e] == '#'
        invariant
            i <= e <= v.len(),
            hash_run_end(v@, i as int) == hash_run_end(v@, e as int),
        decreases v.len() - e,
    {
        e = e + 1;
    }
    proof {
        lemma_hash_run_end(v@, e as int);
    }
    e
}

// ---------------------------------------------------------------------------
// Inline citation tokens
// ---------------------------------------------------------------------------

/// The word `w` stands in `s` at position `p`, character for character.
pub open spec fn word_at(s: Seq<char>, p: int, w: Seq<char>) -> bool {
    &&& 0 <= p
    &&& p + w.len() <= s.len()
    &&& forall|k: int| 0 <= k < w.len() ==> s[p + k] == w[k]
}

/// The keywords a named citation such as `[source:3]` may use.
pub open spec fn is_citation_keyword(w: Seq<char>) -> bool {
    ||| w == "source"@
    ||| w == "ref"@
    ||| w == "cite"@
    ||| w == "note"@
    ||| w == "fig"@
    ||| w == "table"@
    ||| w == "eq"@
}

/// A footnote-style citation: `[^ID]` with a non-empty identifier.
pub open spec fn is_footnote_citation(t: Seq<char>) -> bool {
    &&& t.len() >= 4
    &&& t[0] == '['
    &&& t[1] == '^'
    &&& t[t.len() - 1] == ']'
    &&& forall|k: int| 2 <= k < t.len() - 1 ==> is_id_char(t[k])
}

/// A numeric citation: `[N]` with one or more digits.
pub open spec fn is_numeric_citation(t: Seq<char>) -> bool {
    &&& t.len() >= 3
    &&& t[0] == '['
    &&& t[t.len() - 1] == ']'
    &&& forall|k: int| 1 <= k < t.len() - 1 ==> is_digit_char(t[k])
}

/// A named citation: `[KEYWORD:ID]` with a recognized keyword and a non-empty
/// identifier.
pub open spec fn is_named_citation(t: Seq<char>) -> bool {
    exists|w: Seq<char>|
        {
            &&& is_citation_keyword(w)
            &&& t.len() >= w.len() + 4
            &&& word_at(t, 1, w)
            &&& t[0] == '['
            &&& t[w.len() as int + 1] == ':'
            &&& t[t.len() - 1] == ']'
            &&& forall|k: int| w.len() + 2 <= k < t.len() - 1 ==> is_id_char(t[k])
        }
}

/// Any inline citation shape: footnote, numeric or named.
pub open spec fn is_inline_citation(t: Seq<char>) -> bool {
    is_footnote_citation(t) || is_numeric_citation(t) || is_named_citation(t)
}

/// Length of the named-citation tail `:ID]` that begins at `p` (the index
/// just after the keyword), counted from the opening bracket at `i`;
/// zero when no such tail stands there.
pub open spec fn named_tail_len(s: Seq<char>, i: int, p: int) -> int {
    if p < s.len() && s[p] == ':' {
        let f = id_run_end(s, p + 1);
        if f > p + 1 && f < s.len() && s[f] == ']' {
            f + 1 - i
        } else {
            0
        }
    } else {
        0
    }
}

/// Length of the inline citation token that begins at index `i` of `s`,
/// or zero when none begins there.  At most one citation shape can begin
/// at a given position, so this is the (unique) match length.
pub open spec fn token_len(s: Seq<char>, i: int) -> int {
    if !(0 <= i && i < s.len() && s[i] == '[') {
        0
    } else if i + 1 < s.len() && s[i + 1] == '^' {
        let e = id_run_end(s, i + 2);
        if e > i + 2 && e < s.len() && s[e] == ']' {
            e + 1 - i
        } else {
            0
        }
    } else if i + 1 < s.len() && is_digit_char(s[i + 1]) {
        let e = digit_run_end(s, i + 1);
        if e < s.len() && s[e] == ']' {
            e + 1 - i
        } else {
            0
        }
    } else if word_at(s, i + 1, "source"@) {
        named_tail_len(s, i, i + 7)
    } else if word_at(s, i + 1, "ref"@) {
        named_tail_len(s, i, i + 4)
    } else if word_at(s, i + 1, "cite"@) {
        named_tail_len(s, i, i + 5)
    } else if word_at(s, i + 1, "note"@) {
        named_tail_len(s, i, i + 5)
    } else if word_at(s, i + 1, "fig"@) {
        named_tail_len(s, i, i + 4)
    } else if word_at(s, i + 1, "table"@) {
        named_tail_len(s, i, i + 6)
    } else if word_at(s, i + 1, "eq"@) {
        named_tail_len(s, i, i + 3)
    } else {
        0
    }
}

/// A positive `token_len` stays within the text.
pub proof fn lemma_token_len_bounds(s: Seq<char>, i: int)
    ensures
        token_len(s, i) == 0 || (0 <= i && 3 <= token_len(s, i) && i + token_len(s, i) <= s.len()),
{
    if 0 <= i && i < s.len() && s[i] == '[' {
        if i + 1 < s.len() && s[i + 1] == '^' {
            lemma_id_run_end(s, i + 2);
        } else if i + 1 < s.len() && is_digit_char(s[i + 1]) {
            lemma_digit_run_end(s, i + 1);
        } else {
            proof_named_tail_bounds(s, i, i + 7);
            proof_named_tail_bounds(s, i, i + 4);
            proof_named_tail_bounds(s, i, i + 5);
            proof_named_tail_bounds(s, i, i + 6);
            proof_named_tail_bounds(s, i, i + 3);
        }
    }
}

proof fn proof_named_tail_bounds(s: Seq<char>, i: int, p: int)
    requires
        0 <= i < p,
    ensures
        named_tail_len(s, i, p) == 0 || (p + 2 < s.len() + 1 && p + 3 - i <= named_tail_len(s, i, p)
            && i + named_tail_len(s, i, p) <= s.len()),
{
    if p < s.len() && s[p] == ':' {
        lemma_id_run_end(s, p + 1);
    }
}

/// Identifier characters are never brackets.
proof fn lemma_id_char_not_bracket()
    ensures
        forall|c: char| is_id_char(c) ==> c != '[' && c != ']' && c != '\n',
        forall|c: char| is_digit_char(c) ==> c != '[' && c != ']' && c != '\n',
{
}

/// Every citation keyword consists of lowercase letters.
proof fn lemma_keyword_chars(w: Seq<char>)
    requires
        is_citation_keyword(w),
    ensures
        forall|k: int| 0 <= k < w.len() ==> is_lower_alpha(#[trigger] w[k]),
{
    reveal_strlit("source");
    reveal_strlit("ref");
    reveal_strlit("cite");
    reveal_strlit("note");
    reveal_strlit("fig");
    reveal_strlit("table");
    reveal_strlit("eq");
}

proof fn lemma_named_sound(s: Seq<char>, i: int, w: Seq<char>)
    requires
        0 <= i < s.len(),
        s[i] == '[',
        is_citation_keyword(w),
        word_at(s, i + 1, w),
        named_tail_len(s, i, i + 1 + w.len()) > 0,
        token_len(s, i) == named_tail_len(s, i, i + 1 + w.len()),
    ensures
        is_inline_citation(s.subrange(i, i + token_len(s, i))),
        s[i + token_len(s, i) - 1] == ']',
        forall|q: int|
            i < q < i + token_len(s, i) - 1 ==> is_id_char(#[trigger] s[q]) || s[q] == '^' || s[q]
                == ':',
{
    lemma_keyword_chars(w);
    lemma_id_char_not_bracket();
    let p = i + 1 + w.len();
    let f = id_run_end(s, p + 1);
    lemma_id_run_end(s, p + 1);
    let n = token_len(s, i);
    let t = s.subrange(i, i + n);
    assert(t[0] == '[');
    assert(t[w.len() as int + 1] == ':');
    assert(t[t.len() - 1] == s[f]);
    assert(word_at(t, 1, w)) by {
        assert(forall|k: int| 0 <= k < w.len() ==> #[trigger] t[1 + k] == s[i + 1 + k]);
    }
    assert(forall|k: int| w.len() + 2 <= k < t.len() - 1 ==> is_id_char(#[trigger] t[k])) by {
        assert(forall|k: int| w.len() + 2 <= k < t.len() - 1 ==> #[trigger] t[k] == s[i + k]);
    }
    assert(is_named_citation(t));
    assert forall|q: int|
        i < q < i + n - 1 implies is_id_char(#[trigger] s[q]) || s[q] == '^' || s[q] == ':' by {
        if q < p {
            assert(s[q] == w[q - i - 1]);
            assert(is_lower_alpha(s[q]));
        } else if q == p {
            assert(s[q] == ':');
        } else {
            assert(is_id_char(s[q]));
        }
    }
}

/// What a positive `token_len` match looks like: it is an inline citation,
/// it is bracketed, and its interior holds no bracket and no line break.
pub proof fn lemma_token_sound(s: Seq<char>, i: int)
    requires
        token_len(s, i) > 0,
    ensures
        0 <= i && i + token_len(s, i) <= s.len(),
        is_inline_citation(s.subrange(i, i + token_len(s, i))),
        s[i] == '[',
        s[i + token_len(s, i) - 1] == ']',
        forall|q: int|
            i < q < i + token_len(s, i) - 1 ==> is_id_char(#[trigger] s[q]) || s[q] == '^' || s[q]
                == ':',
        forall|q: int|
            i < q < i + token_len(s, i) - 1 ==> s[q] != '[' && s[q] != ']' && #[trigger] s[q]
                != '\n',
{
    reveal_strlit("source");
    reveal_strlit("ref");
    reveal_strlit("cite");
    reveal_strlit("note");
    reveal_strlit("fig");
    reveal_strlit("table");
    reveal_strlit("eq");
    lemma_token_len_bounds(s, i);
    lemma_id_char_not_bracket();
    let n = token_len(s, i);
    let t = s.subrange(i, i + n);
    if i + 1 < s.len() && s[i + 1] == '^' {
        let e = id_run_end(s, i + 2);
        lemma_id_run_end(s, i + 2);
        assert(t[0] == '[');
        assert(t[1] == '^');
        assert(t[t.len() - 1] == s[e]);
        assert(forall|k: int| 2 <= k < t.len() - 1 ==> t[k] == s[i + k]);
        assert(is_footnote_citation(t));
    } else if i + 1 < s.len() && is_digit_char(s[i + 1]) {
        let e = digit_run_end(s, i + 1);
        lemma_digit_run_end(s, i + 1);
        assert(t[0] == '[');
        assert(t[t.len() - 1] == s[e]);
        assert(forall|k: int| 1 <= k < t.len() - 1 ==> t[k] == s[i + k]);
        assert(is_numeric_citation(t));
    } else if word_at(s, i + 1, "source"@) {
        lemma_named_sound(s, i, "source"@);
    } else if word_at(s, i + 1, "ref"@) {
        lemma_named_sound(s, i, "ref"@);
    } else if word_at(s, i + 1, "cite"@) {
        lemma_named_sound(s, i, "cite"@);
    } else if word_at(s, i + 1, "note"@) {
        lemma_named_sound(s, i, "note"@);
    } else if word_at(s, i + 1, "fig"@) {
        lemma_named_sound(s, i, "fig"@);
    } else if word_at(s, i + 1, "table"@) {
        lemma_named_sound(s, i, "table"@);
    } else if word_at(s, i + 1, "eq"@) {
        lemma_named_sound(s, i, "eq"@);
    }
}

proof fn lemma_word_at_first(s: Seq<char>, p: int, w: Seq<char>)
    requires
        word_at(s, p, w),
        w.len() > 0,
    ensures
        s[p] == w[0],
{
    assert(s[p + 0] == w[0]);
}

proof fn lemma_named_complete(s: Seq<char>, i: int, j: int, w: Seq<char>)
    requires
        0 <= i,
        i + 4 <= j <= s.len(),
        is_citation_keyword(w),
        s[i] == '[',
        j - i >= w.len() + 4,
        word_at(s, i + 1, w),
        s[i + 1 + w.len()] == ':',
        s[j - 1] == ']',
        forall|k: int| i + w.len() + 2 <= k < j - 1 ==> is_id_char(#[trigger] s[k]),
    ensures
        named_tail_len(s, i, i + 1 + w.len()) == j - i,
{
    lemma_id_char_not_bracket();
    let p = i + 1 + w.len();
    lemma_id_run_end_is(s, p + 1, j - 1);
}

/// Every bracket group of citation shape is matched, with its full length.
pub proof fn lemma_token_complete(s: Seq<char>, i: int, j: int)
    requires
        0 <= i < j <= s.len(),
        is_inline_citation(s.subrange(i, j)),
    ensures
        token_len(s, i) == j - i,
{
    reveal_strlit("source");
    reveal_strlit("ref");
    reveal_strlit("cite");
    reveal_strlit("note");
    reveal_strlit("fig");
    reveal_strlit("table");
    reveal_strlit("eq");
    lemma_id_char_not_bracket();
    let t = s.subrange(i, j);
    assert(forall|k: int| 0 <= k < j - i ==> #[trigger] t[k] == s[i + k]);
    if is_footnote_citation(t) {
        assert forall|k: int| i + 2 <= k < j - 1 implies is_id_char(#[trigger] s[k]) by {
            assert(s[k] == t[k - i]);
            assert(is_id_char(t[k - i]));
        }
        lemma_id_run_end_is(s, i + 2, j - 1);
    } else if is_numeric_citation(t) {
        assert forall|k: int| i + 1 <= k < j - 1 implies is_digit_char(#[trigger] s[k]) by {
            assert(s[k] == t[k - i]);
            assert(is_digit_char(t[k - i]));
        }
        lemma_digit_run_end_is(s, i + 1, j - 1);
        assert(s[i + 1] != '^');
    } else {
        let w = choose|w: Seq<char>|
            {
                &&& is_citation_keyword(w)
                &&& t.len() >= w.len() + 4
                &&& word_at(t, 1, w)
                &&& t[0] == '['
                &&& t[w.len() as int + 1] == ':'
                &&& t[t.len() - 1] == ']'
                &&& forall|k: int| w.len() + 2 <= k < t.len() - 1 ==> is_id_char(t[k])
            };
        lemma_keyword_chars(w);
        assert(word_at(s, i + 1, w)) by {
            assert(forall|k: int| 0 <= k < w.len() ==> s[i + 1 + k] == #[trigger] t[1 + k]);
        }
        assert(forall|k: int| i + w.len() + 2 <= k < j - 1 ==> is_id_char(#[trigger] s[k])) by {
            assert(forall|k: int|
                i + w.len() + 2 <= k < j - 1 ==> #[trigger] s[k] == t[k - i]);
        }
        lemma_word_at_first(s, i + 1, w);
        assert(!is_digit_char(s[i + 1]) && s[i + 1] != '^');
        lemma_named_complete(s, i, j, w);
        // The keywords differ in their first letters, so only the branch
        // for `w` can fire.
        if word_at(s, i + 1, "source"@) && w != "source"@ {
            lemma_word_at_first(s, i + 1, "source"@);
            assert(false);
        }
        if word_at(s, i + 1, "ref"@) && w != "ref"@ {
            lemma_word_at_first(s, i + 1, "ref"@);
            assert(false);
        }
        if word_at(s, i + 1, "cite"@) && w != "cite"@ {
            lemma_word_at_first(s, i + 1, "cite"@);
            assert(false);
        }
        if word_at(s, i + 1, "note"@) && w != "note"@ {
            lemma_word_at_first(s, i + 1, "note"@);
            assert(false);
        }
        if word_at(s, i + 1, "fig"@) && w != "fig"@ {
            lemma_word_at_first(s, i + 1, "fig"@);
            assert(false);
        }
        if word_at(s, i + 1, "table"@) && w != "table"@ {
            lemma_word_at_first(s, i + 1, "table"@);
            assert(false);
        }
        if word_at(s, i + 1, "eq"@) && w != "eq"@ {
            lemma_word_at_first(s, i + 1, "eq"@);
            assert(false);
        }
    }
}

fn word_at_x(v: &Vec<char>, p: usize, w: &str) -> (r: bool)
    ensures
        r == word_at(v@, p as int, w@),
{
    let wl = w.unicode_len();
    if p > v.len() || v.len() - p < wl {
        return false;
    }
    let mut k: usize = 0;
    while k < wl
        invariant
            0 <= k <= wl,
            p + wl <= v.len(),
            wl == w@.len(),
            forall|q: int| 0 <= q < k ==> v@[p + q] == w@[q],
        decreases wl - k,
    {
        if v[p + k] != w.get_char(k) {
            return false;
        }
        k = k + 1;
    }
    true
}

fn named_tail_len_x(v: &Vec<char>, i: usize, p: usize) -> (n: usize)
    requires
        i < p <= v.len(),
    ensures
        n as int == named_tail_len(v@, i as int, p as int),
{
    if p < v.len() && v[p] == ':' {
        let f = id_run_end_x(v, p + 1);
        if f > p + 1 && f < v.len() && v[f] == ']' {
            f + 1 - i
        } else {
            0
        }
    } else {
        0
    }
}

/// Length of the inline citation token beginning at index `i`, or zero.
pub(crate) fn token_len_x(v: &Vec<char>, i: usize) -> (n: usize)
    requires
        i <= v.len(),
    ensures
        n as int == token_len(v@, i as int),
        i + n <= v.len(),
{
    proof {
        reveal_strlit("source");
        reveal_strlit("ref");
        reveal_strlit("cite");
        reveal_strlit("note");
        reveal_strlit("fig");
        reveal_strlit("table");
        reveal_strlit("eq");
        lemma_token_len_bounds(v@, i as int);
    }
    if i >= v.len() || v[i] != '[' {
        return 0;
    }
    if i + 1 < v.len() && v[i + 1] == '^' {
        let e = id_run_end_x(v, i + 2);
        if e > i + 2 && e < v.len() && v[e] == ']' {
            e + 1 - i
        } else {
            0
        }
    } else if i + 1 < v.len() && digit_char(v[i + 1]) {
        let e = digit_run_end_x(v, i + 1);
        if e < v.len() && v[e] == ']' {
            e + 1 - i
        } else {
            0
        }
    } else if word_at_x(v, i + 1, "source") {
        named_tail_len_x(v, i, i + 7)
    } else if word_at_x(v, i + 1, "ref") {
        named_tail_len_x(v, i, i + 4)
    } else if word_at_x(v, i + 1, "cite") {
        named_tail_len_x(v, i, i + 5)
    } else if word_at_x(v, i + 1, "note") {
        named_tail_len_x(v, i, i + 5)
    } else if word_at_x(v, i + 1, "fig") {
        named_tail_len_x(v, i, i + 4)
    } else if word_at_x(v, i + 1, "table") {
        named_tail_len_x(v, i, i + 6)
    } else if word_at_x(v, i + 1, "eq") {
        named_tail_len_x(v, i, i + 3)
    } else {
        0
    }
}

// ---------------------------------------------------------------------------
// Reference lines
// ---------------------------------------------------------------------------

/// The word `w` stands in `s` at position `p` up to ASCII case
/// (`w` is expected lowercase).
pub open spec fn word_at_ci(s: Seq<char>, p: int, w: Seq<char>) -> bool {
    &&& 0 <= p
    &&& p + w.len() <= s.len()
    &&& forall|k: int| 0 <= k < w.len() ==> matches_ci(s[p + k], w[k])
}

/// Only spaces and tabs stand from `q` to the end of the line.
pub open spec fn all_ws_from(l: Seq<char>, q: int) -> bool {
    forall|k: int| q <= k < l.len() ==> is_line_ws(l[k])
}

/// `[N]:` begins the line: a standard reference definition.
pub open spec fn is_numeric_colon_def(l: Seq<char>) -> bool {
    &&& l.len() >= 4
    &&& l[0] == '['
    &&& ({
        let e = digit_run_end(l, 1);
        &&& e > 1
        &&& e + 1 < l.len()
        &&& l[e] == ']'
        &&& l[e + 1] == ':'
    })
}

/// `[^ID]:` begins the line: a footnote definition.
pub open spec fn is_footnote_colon_def(l: Seq<char>) -> bool {
    &&& l.len() >= 5
    &&& l[0] == '['
    &&& l[1] == '^'
    &&& ({
        let e = id_run_end(l, 2);
        &&& e > 2
        &&& e + 1 < l.len()
        &&& l[e] == ']'
        &&& l[e + 1] == ':'
    })
}

/// `[N]` then required whitespace then a non-blank remainder:
/// a space-separated reference definition.
pub open spec fn is_numeric_space_def(l: Seq<char>) -> bool {
    &&& l.len() >= 5
    &&& l[0] == '['
    &&& ({
        let e = digit_run_end(l, 1);
        &&& e > 1
        &&& e + 1 < l.len()
        &&& l[e] == ']'
        &&& is_line_ws(l[e + 1])
        &&& exists|q: int| e + 1 < q < l.len() && !is_line_ws(l[q])
    })
}

/// `http://` or `https://` stands at `u` and the rest of the line is the
/// remainder of the URL, closed by a single `)` as the line's final
/// character.
pub open spec fn is_url_to_line_end(l: Seq<char>, u: int) -> bool {
    ||| (word_at(l, u, "http://"@) && url_body_to_line_end(l, u + 7))
    ||| (word_at(l, u, "https://"@) && url_body_to_line_end(l, u + 8))
}

/// At least one character stands between `b` and the closing `)` that ends
/// the line, and no other `)` occurs in between.
pub open spec fn url_body_to_line_end(l: Seq<char>, b: int) -> bool {
    &&& b < l.len() - 1
    &&& l[l.len() - 1] == ')'
    &&& forall|q: int| b <= q < l.len() - 1 ==> l[q] != ')'
}

/// `[N](http…)` or `[^ID](http…)` filling the whole line: a
/// Markdown-link-style reference definition.  Without a caret only
/// digits may stand in the bracket: an ordinary link whose text is a
/// word, `[alpha](https://…)`, is no reference definition.
pub open spec fn is_link_def(l: Seq<char>) -> bool {
    &&& l.len() >= 2
    &&& l[0] == '['
    &&& ({
        let st: int = if l[1] == '^' {
            2
        } else {
            1
        };
        let e = if l[1] == '^' {
            id_run_end(l, 2)
        } else {
            digit_run_end(l, 1)
        };
        &&& e > st
        &&& e + 1 < l.len()
        &&& l[e] == ']'
        &&& l[e + 1] == '('
        &&& is_url_to_line_end(l, e + 2)
    })
}

/// Any of the four reference-definition shapes, anchored to the line.
pub open spec fn is_reference_definition_line(l: Seq<char>) -> bool {
    ||| is_footnote_colon_def(l)
    ||| is_numeric_colon_def(l)
    ||| is_numeric_space_def(l)
    ||| is_link_def(l)
}

/// `[N]` or `[^ID]` then required whitespace then a non-empty remainder:
/// the fallback shape of a bibliography entry such as
/// `[1] Author, A. (2024). Title.`.  Without a caret only digits may
/// stand in the bracket: a prose line such as `[alpha] text` is no
/// reference entry.
pub open spec fn is_reference_entry_line(l: Seq<char>) -> bool {
    &&& l.len() >= 2
    &&& l[0] == '['
    &&& ({
        let st: int = if l[1] == '^' {
            2
        } else {
            1
        };
        let e = if l[1] == '^' {
            id_run_end(l, 2)
        } else {
            digit_run_end(l, 1)
        };
        &&& e > st
        &&& e + 1 < l.len()
        &&& l[e] == ']'
        &&& is_line_ws(l[e + 1])
        &&& l.len() > e + 2
    })
}

/// The section words a reference header may use, lowercase and in stem form.
/// `reference`, `citation`, `source` and `note` may take a plural `s`;
/// `bibliography` stands alone.
pub open spec fn header_word_to_end(l: Seq<char>, p: int) -> bool {
    ||| stem_to_end(l, p, "reference"@, true)
    ||| stem_to_end(l, p, "citation"@, true)
    ||| stem_to_end(l, p, "source"@, true)
    ||| stem_to_end(l, p, "note"@, true)
    ||| stem_to_end(l, p, "bibliography"@, false)
}

/// The stem stands at `p` up to case, optionally followed by a plural `s`,
/// and nothing but spaces and tabs follows it.
pub open spec fn stem_to_end(l: Seq<char>, p: int, stem: Seq<char>, plural: bool) -> bool {
    &&& word_at_ci(l, p, stem)
    &&& {
        ||| all_ws_from(l, p + stem.len())
        ||| (plural && p + stem.len() < l.len() && matches_ci(l[p + stem.len()], 's')
            && all_ws_from(l, p + stem.len() + 1))
    }
}

/// A reference-section header: one to six `#`, optional blanks, one of the
/// section words, and nothing else on the line.
pub open spec fn is_reference_header_line(l: Seq<char>) -> bool {
    let n = hash_run_end(l, 0);
    let p = ws_run_end(l, n);
    &&& 1 <= n <= 6
    &&& header_word_to_end(l, p)
}

proof fn lemma_word_at_index(s: Seq<char>, p: int, w: Seq<char>, k: int)
    requires
        word_at(s, p, w),
        0 <= k < w.len(),
    ensures
        s[p + k] == w[k],
{
}

fn word_at_ci_x(v: &Vec<char>, p: usize, w: &str) -> (r: bool)
    ensures
        r == word_at_ci(v@, p as int, w@),
{
    let wl = w.unicode_len();
    if p > v.len() || v.len() - p < wl {
        return false;
    }
    let mut k: usize = 0;
    while k < wl
        invariant
            0 <= k <= wl,
            p + wl <= v.len(),
            wl == w@.len(),
            forall|q: int| 0 <= q < k ==> matches_ci(v@[p + q], w@[q]),
        decreases wl - k,
    {
        if !char_ci(v[p + k], w.get_char(k)) {
            return false;
        }
        k = k + 1;
    }
    true
}

fn all_ws_from_x(v: &Vec<char>, q: usize) -> (r: bool)
    requires
        q <= v.len(),
    ensures
        r == all_ws_from(v@, q as int),
{
    let mut k = q;
    while k < v.len()
        invariant
            q <= k <= v.len(),
            forall|j: int| q <= j < k ==> is_line_ws(v@[j]),
        decreases v.len() - k,
    {
        if !line_ws_char(v[k]) {
            return false;
        }
        k = k + 1;
    }
    true
}

fn stem_to_end_x(v: &Vec<char>, p: usize, stem: &str, plural: bool) -> (r: bool)
    ensures
        r == stem_to_end(v@, p as int, stem@, plural),
{
    if !word_at_ci_x(v, p, stem) {
        return false;
    }
    let wl = stem.unicode_len();
    let vn = v.len();
    proof {
        assert(p + wl <= vn);
    }
    let q = p + wl;
    if all_ws_from_x(v, q) {
        return true;
    }
    if plural && q < v.len() && char_ci(v[q], 's') {
        all_ws_from_x(v, q + 1)
    } else {
        false
    }
}

/// Does this single line have the shape of a reference definition?
pub(crate) fn reference_definition_line_x(l: &Vec<char>) -> (r: bool)
    ensures
        r == is_reference_definition_line(l@),
{
    proof {
        reveal_strlit("http://");
        reveal_strlit("https://");
    }
    if l.len() < 2 || l[0] != '[' {
        return false;
    }
    // `[^ID]:`
    if l[1] == '^' {
        let e = id_run_end_x(l, 2);
        if e > 2 && e < l.len() - 1 && l[e] == ']' && l[e + 1] == ':' {
            return true;
        }
    } else {
        // `[N]:` and `[N] rest`
        let e = digit_run_end_x(l, 1);
        if e > 1 && e < l.len() - 1 && l[e] == ']' {
            if l[e + 1] == ':' {
                return true;
            }
            if line_ws_char(l[e + 1]) {
                let f = ws_run_end_x(l, e + 2);
                if f < l.len() {
                    proof {
                        lemma_ws_run_end(l@, e as int + 2);
                        assert(!is_line_ws(l@[f as int]));
                    }
                    return true;
                }
                proof {
                    lemma_ws_run_end(l@, e as int + 2);
                    assert(!is_numeric_space_def(l@)) by {
                        if exists|q: int| e + 1 < q < l@.len() && !is_line_ws(l@[q]) {
                            let q = choose|q: int|
                                e + 1 < q < l@.len() && !is_line_ws(l@[q]);
                            assert(is_line_ws(l@[q]));
                        }
                    }
                }
            }
        }
    }
    // `[ID](http…)` / `[^ID](http…)`
    link_def_x(l)
}

fn url_body_x(l: &Vec<char>, b: usize) -> (r: bool)
    requires
        b <= l.len(),
    ensures
        r == url_body_to_line_end(l@, b as int),
{
    if l.len() < 2 || b >= l.len() - 1 {
        return false;
    }
    if l[l.len() - 1] != ')' {
        return false;
    }
    let mut q = b;
    while q < l.len() - 1
        invariant
            b <= q <= l.len() - 1,
            l@.len() >= 2,
            forall|j: int| b <= j < q ==> l@[j] != ')',
        decreases l.len() - q,
    {
        if l[q] == ')' {
            return false;
        }
        q = q + 1;
    }
    true
}

fn link_def_x(l: &Vec<char>) -> (r: bool)
    ensures
        r == is_link_def(l@),
{
    proof {
        reveal_strlit("http://");
        reveal_strlit("https://");
    }
    if l.len() < 2 || l[0] != '[' {
        return false;
    }
    let st: usize = if l[1] == '^' {
        2
    } else {
        1
    };
    let e = if l[1] == '^' {
        id_run_end_x(l, 2)
    } else {
        digit_run_end_x(l, 1)
    };
    if !(e > st && e < l.len() - 1 && l[e] == ']' && l[e + 1] == '(') {
        return false;
    }
    if word_at_x(l, e + 2, "http://") {
        proof {
            if word_at(l@, e as int + 2, "https://"@) {
                lemma_word_at_index(l@, e as int + 2, "http://"@, 4);
                lemma_word_at_index(l@, e as int + 2, "https://"@, 4);
            }
        }
        url_body_x(l, e + 9)
    } else if word_at_x(l, e + 2, "https://") {
        url_body_x(l, e + 10)
    } else {
        false
    }
}

/// Does this single line have the shape of a fallback reference entry?
pub(crate) fn reference_entry_line_x(l: &Vec<char>) -> (r: bool)
    ensures
        r == is_reference_entry_line(l@),
{
    if l.len() < 2 || l[0] != '[' {
        return false;
    }
    let st: usize = if l[1] == '^' {
        2
    } else {
        1
    };
    let e = if l[1] == '^' {
        id_run_end_x(l, 2)
    } else {
        digit_run_end_x(l, 1)
    };
    e > st && e < l.len() - 1 && l[e] == ']' && line_ws_char(l[e + 1]) && l.len() - 2 > e
}

/// Does this single line have the shape of a reference-section header?
pub(crate) fn reference_header_line_x(l: &Vec<char>) -> (r: bool)
    ensures
        r == is_reference_header_line(l@),
{
    let n = hash_run_end_x(l, 0);
    if n < 1 || n > 6 {
        return false;
    }
    let p = ws_run_end_x(l, n);
    stem_to_end_x(l, p, "reference", true) || stem_to_end_x(l, p, "citation", true)
        || stem_to_end_x(l, p, "source", true) || stem_to_end_x(l, p, "note", true)
        || stem_to_end_x(l, p, "bibliography", false)
}

// ---------------------------------------------------------------------------
// Public matchers
// ---------------------------------------------------------------------------

/// Does an inline citation token begin anywhere in the text?
pub fn has_inline_citation(text: &str) -> (r: bool)
    ensures
        r == exists|i: int| token_len(text@, i) > 0,
        r == exists|i: int, j: int|
            0 <= i < j <= text@.len() && is_inline_citation(text@.subrange(i, j)),
{
    let v = crate::text::str_to_chars(text);
    let mut i: usize = 0;
    while i < v.len()
        invariant
            i <= v.len(),
            v@ == text@,
            forall|j: int| 0 <= j < i ==> token_len(text@, j) == 0,
        decreases v.len() - i,
    {
        let n = token_len_x(&v, i);
        if n > 0 {
            proof {
                let ii = i as int;
                assert(token_len(text@, ii) > 0);
                lemma_token_sound(text@, ii);
                assert(0 <= ii && ii < ii + n && ii + n <= text@.len());
                assert(is_inline_citation(text@.subrange(ii, ii + n)));
            }
            return true;
        }
        i = i + 1;
    }
    proof {
        assert forall|j: int| token_len(text@, j) <= 0 by {
            if 0 <= j < text@.len() {
            }
        }
        assert forall|a: int, b: int|
            !(0 <= a < b <= text@.len() && is_inline_citation(
                #[trigger] text@.subrange(a, b),
            )) by {
            if 0 <= a < b <= text@.len() && is_inline_citation(text@.subrange(a, b)) {
                lemma_token_complete(text@, a, b);
            }
        }
    }
    false
}

/// Does this single line have the shape of a reference definition?
pub fn line_is_reference_definition(line: &str) -> (r: bool)
    ensures
        r == is_reference_definition_line(line@),
{
    let v = crate::text::str_to_chars(line);
    reference_definition_line_x(&v)
}

/// Does this single line have the shape of a fallback reference entry?
pub fn line_is_reference_entry(line: &str) -> (r: bool)
    ensures
        r == is_reference_entry_line(line@),
{
    let v = crate::text::str_to_chars(line);
    reference_entry_line_x(&v)
}

/// Does this single line have the shape of a reference-section header?
pub fn line_is_reference_header(line: &str) -> (r: bool)
    ensures
        r == is_reference_header_line(line@),
{
    let v = crate::text::str_to_chars(line);
    reference_header_line_x(&v)
}

} // verus!
