//! Laws of the pipeline, stated and proved over the same specification
//! functions that the executable code is verified against.

use crate::config::RemoverConfig;
use crate::patterns::is_id_char;
use crate::patterns::is_inline_citation;
use crate::patterns::is_reference_definition_line;
use crate::patterns::is_reference_header_line;
use crate::patterns::lemma_token_len_bounds;
use crate::patterns::lemma_token_sound;
use crate::patterns::token_len;
use crate::remover::boundary_index;
use crate::remover::boundary_index_from;
use crate::remover::collapse_newlines;
use crate::remover::collapse_newlines_from;
use crate::remover::collapse_spaces;
use crate::remover::collapse_spaces_from;
use crate::remover::is_boundary_line;
use crate::remover::remove_sections_spec;
use crate::remover::remove_spec;
use crate::remover::strip_citations;
use crate::remover::strip_from;
use crate::remover::trim_line_end;
use crate::remover::trim_lines;
use crate::remover::wants_section_removal;
use crate::text::join_lines;
use crate::text::lines_from;
use crate::text::lines_of;
use crate::text::strip_cr;
use vstd::prelude::*;

verus! {

// ---------------------------------------------------------------------------
// Non-expansion: no stage ever makes the text longer
// ---------------------------------------------------------------------------

proof fn lemma_strip_from_len(s: Seq<char>, i: int)
    requires
        0 <= i <= s.len(),
    ensures
        strip_from(s, i).len() <= s.len() - i,
    decreases s.len() - i,
{
    if i < s.len() {
        if token_len(s, i) > 0 {
            lemma_token_len_bounds(s, i);
            lemma_strip_from_len(s, i + token_len(s, i));
        } else {
            lemma_strip_from_len(s, i + 1);
        }
    }
}

proof fn lemma_collapse_spaces_from_len(s: Seq<char>, i: int, prev: bool)
    requires
        0 <= i <= s.len(),
    ensures
        collapse_spaces_from(s, i, prev).len() <= s.len() - i,
    decreases s.len() - i,
{
    if i < s.len() {
        lemma_collapse_spaces_from_len(s, i + 1, true);
        lemma_collapse_spaces_from_len(s, i + 1, s[i] == ' ');
    }
}

proof fn lemma_collapse_newlines_from_len(s: Seq<char>, i: int, run: int)
    requires
        0 <= i <= s.len(),
    ensures
        collapse_newlines_from(s, i, run).len() <= s.len() - i,
    decreases s.len() - i,
{
    if i < s.len() {
        lemma_collapse_newlines_from_len(s, i + 1, run);
        lemma_collapse_newlines_from_len(s, i + 1, run + 1);
        lemma_collapse_newlines_from_len(s, i + 1, 0);
    }
}

proof fn lemma_trim_line_end_len(l: Seq<char>)
    ensures
        trim_line_end(l).len() <= l.len(),
    decreases l.len(),
{
    if l.len() > 0 && crate::patterns::is_line_ws(l[l.len() - 1]) {
        lemma_trim_line_end_len(l.drop_last());
    }
}

/// Joining pointwise-shorter lines gives a no-longer text.
proof fn lemma_join_pointwise_le(ls1: Seq<Seq<char>>, ls2: Seq<Seq<char>>)
    requires
        ls1.len() == ls2.len(),
        forall|k: int| 0 <= k < ls1.len() ==> (#[trigger] ls1[k]).len() <= ls2[k].len(),
    ensures
        join_lines(ls1).len() <= join_lines(ls2).len(),
    decreases ls1.len(),
{
    if ls1.len() > 1 {
        assert(forall|k: int|
            0 <= k < ls1.drop_first().len() ==> (#[trigger] ls1.drop_first()[k]).len()
                <= ls2.drop_first()[k].len());
        lemma_join_pointwise_le(ls1.drop_first(), ls2.drop_first());
    }
}

/// Joining a prefix of the lines gives a no-longer text.
proof fn lemma_join_take_le(ls: Seq<Seq<char>>, k: int)
    requires
        0 <= k <= ls.len(),
    ensures
        join_lines(ls.take(k)).len() <= join_lines(ls).len(),
    decreases ls.len(),
{
    if k == ls.len() {
        assert(ls.take(k) =~= ls);
    } else if k > 0 {
        assert(ls.take(k).drop_first() =~= ls.drop_first().take(k - 1));
        assert(ls.take(k)[0] == ls[0]);
        lemma_join_take_le(ls.drop_first(), k - 1);
        if k == 1 {
            assert(join_lines(ls.take(k)) == ls[0]);
        }
    }
}

/// The lines of a document, joined back, are never longer than it: the
/// split only ever drops characters (`'\r'` before `'\n'`, a final
/// line terminator).
proof fn lemma_join_lines_from_len(s: Seq<char>, i: int)
    requires
        0 <= i <= s.len(),
    ensures
        join_lines(lines_from(s, i)).len() <= s.len() - i,
    decreases s.len() - i,
{
    if i < s.len() {
        crate::text::lemma_next_newline(s, i);
        let e = crate::text::next_newline(s, i);
        if e == s.len() {
            assert(join_lines(lines_from(s, i)) == s.subrange(i, e));
        } else {
            lemma_join_lines_from_len(s, e + 1);
            let a = strip_cr(s.subrange(i, e));
            let rest = lines_from(s, e + 1);
            assert(a.len() <= e - i);
            let ls = seq![a] + rest;
            assert(ls[0] == a);
            if rest.len() == 0 {
                assert(ls.len() == 1);
            } else {
                assert(ls.drop_first() =~= rest);
            }
        }
    }
}

/// Non-expansion of the section stage.
proof fn lemma_remove_sections_len(s: Seq<char>, cfg: RemoverConfig)
    ensures
        remove_sections_spec(s, cfg).len() <= s.len(),
{
    lemma_boundary_index_in_range(lines_of(s), cfg, 0);
    match boundary_index(lines_of(s), cfg) {
        Some(k) => {
            lemma_join_take_le(lines_of(s), k);
            lemma_join_lines_from_len(s, 0);
        },
        None => {},
    }
}

/// A found boundary index lies among the lines.
proof fn lemma_boundary_index_in_range(ls: Seq<Seq<char>>, cfg: RemoverConfig, k: int)
    requires
        0 <= k,
    ensures
        (match boundary_index_from(ls, cfg, k) {
            Some(b) => k <= b < ls.len(),
            None => true,
        }),
    decreases ls.len() - k,
{
    if k < ls.len() && !is_boundary_line(ls[k], cfg) {
        lemma_boundary_index_in_range(ls, cfg, k + 1);
    }
}

/// Non-expansion of the trim stage.
proof fn lemma_trim_lines_len(s: Seq<char>)
    ensures
        trim_lines(s).len() <= s.len(),
{
    let ls = lines_of(s);
    let trimmed = ls.map_values(|l: Seq<char>| trim_line_end(l));
    assert forall|k: int| 0 <= k < trimmed.len() implies (#[trigger] trimmed[k]).len()
        <= ls[k].len() by {
        lemma_trim_line_end_len(ls[k]);
    }
    lemma_join_pointwise_le(trimmed, ls);
    lemma_join_lines_from_len(s, 0);
}

/// Non-expansion: under every configuration, the pipeline's output is
/// never longer than its input — no stage inserts characters.
pub proof fn lemma_remove_non_expansive(s: Seq<char>, cfg: RemoverConfig)
    ensures
        remove_spec(s, cfg).len() <= s.len(),
{
    let t1 = if wants_section_removal(cfg) {
        remove_sections_spec(s, cfg)
    } else {
        s
    };
    let t2 = if cfg.remove_inline_citations {
        strip_citations(t1)
    } else {
        t1
    };
    let t3 = if cfg.normalize_whitespace {
        collapse_spaces(t2)
    } else {
        t2
    };
    let t4 = if cfg.remove_blank_lines {
        collapse_newlines(t3)
    } else {
        t3
    };
    lemma_remove_sections_len(s, cfg);
    lemma_strip_from_len(t1, 0);
    lemma_collapse_spaces_from_len(t2, 0, false);
    lemma_collapse_newlines_from_len(t3, 0, 0);
    lemma_trim_lines_len(t4);
}

// ---------------------------------------------------------------------------
// Idempotence of the default pipeline
// ---------------------------------------------------------------------------

proof fn lemma_strip_id(s: Seq<char>, i: int)
    requires
        0 <= i <= s.len(),
        forall|j: int| token_len(s, j) == 0,
    ensures
        strip_from(s, i) == s.subrange(i, s.len() as int),
    decreases s.len() - i,
{
    if i < s.len() {
        lemma_strip_id(s, i + 1);
        assert(seq![s[i]] + s.subrange(i + 1, s.len() as int) =~= s.subrange(i, s.len() as int));
    } else {
        assert(s.subrange(i, s.len() as int) =~= Seq::<char>::empty());
    }
}

proof fn lemma_collapse_spaces_id(s: Seq<char>, i: int, prev: bool)
    requires
        0 <= i <= s.len(),
        forall|j: int| 0 <= j < s.len() - 1 ==> !(#[trigger] s[j] == ' ' && s[j + 1] == ' '),
        prev ==> i > 0 && s[i - 1] == ' ',
    ensures
        collapse_spaces_from(s, i, prev) == s.subrange(i, s.len() as int),
    decreases s.len() - i,
{
    if i < s.len() {
        if s[i] == ' ' && prev {
            assert(s[i - 1] == ' ' && s[i - 1 + 1] == ' ');
            assert(false);
        }
        lemma_collapse_spaces_id(s, i + 1, s[i] == ' ');
        assert(seq![s[i]] + s.subrange(i + 1, s.len() as int) =~= s.subrange(i, s.len() as int));
    } else {
        assert(s.subrange(i, s.len() as int) =~= Seq::<char>::empty());
    }
}

proof fn lemma_collapse_newlines_id(s: Seq<char>, i: int, run: int)
    requires
        0 <= i <= s.len(),
        0 <= run <= 2,
        forall|j: int|
            0 <= j < s.len() - 2 ==> !(#[trigger] s[j] == '\n' && s[j + 1] == '\n' && s[j + 2]
                == '\n'),
        run >= 1 ==> i >= 1 && s[i - 1] == '\n',
        run >= 2 ==> i >= 2 && s[i - 2] == '\n',
    ensures
        collapse_newlines_from(s, i, run) == s.subrange(i, s.len() as int),
    decreases s.len() - i,
{
    if i < s.len() {
        if s[i] == '\n' && run >= 2 {
            assert(s[i - 2] == '\n' && s[i - 2 + 1] == '\n' && s[i - 2 + 2] == '\n');
            assert(false);
        }
        if s[i] == '\n' {
            lemma_collapse_newlines_id(s, i + 1, run + 1);
            assert(seq![s[i]] + s.subrange(i + 1, s.len() as int) =~= s.subrange(
                i,
                s.len() as int,
            ));
        } else {
            lemma_collapse_newlines_id(s, i + 1, 0);
            assert(seq![s[i]] + s.subrange(i + 1, s.len() as int) =~= s.subrange(
                i,
                s.len() as int,
            ));
        }
    } else {
        assert(s.subrange(i, s.len() as int) =~= Seq::<char>::empty());
    }
}

/// Splitting into lines and joining again is the identity on documents
/// without `"\r\n"` and without a trailing newline.
proof fn lemma_join_lines_id(s: Seq<char>, i: int)
    requires
        0 <= i <= s.len(),
        forall|j: int| 0 <= j < s.len() - 1 ==> !(#[trigger] s[j] == '\r' && s[j + 1] == '\n'),
        s.len() > 0 ==> s[s.len() - 1] != '\n',
    ensures
        join_lines(lines_from(s, i)) == s.subrange(i, s.len() as int),
    decreases s.len() - i,
{
    if i >= s.len() {
        assert(s.subrange(i, s.len() as int) =~= Seq::<char>::empty());
    } else {
        crate::text::lemma_next_newline(s, i);
        let e = crate::text::next_newline(s, i);
        if e == s.len() {
            assert(join_lines(lines_from(s, i)) == s.subrange(i, e));
        } else {
            assert(s[e] == '\n');
            assert(e < s.len() - 1);
            lemma_join_lines_id(s, e + 1);
            let a = strip_cr(s.subrange(i, e));
            assert(a == s.subrange(i, e)) by {
                if e > i && s.subrange(i, e)[e - i - 1] == '\r' {
                    assert(s[e - 1] == '\r' && s[e - 1 + 1] == '\n');
                    assert(false);
                }
            }
            let rest = lines_from(s, e + 1);
            let ls = seq![a] + rest;
            assert(ls[0] == a);
            assert(rest.len() > 0);
            assert(ls.drop_first() =~= rest);
            assert(s.subrange(i, e) + seq!['\n'] + s.subrange(e + 1, s.len() as int)
                =~= s.subrange(i, s.len() as int));
        }
    }
}

/// A document on which every stage of the default pipeline is a no-op:
/// no line opens a reference section, no inline citation token stands
/// anywhere, no two spaces or three newlines stand in a row, the document
/// uses bare `'\n'` line endings with no final one, and no line carries
/// trailing blanks.
pub open spec fn fully_cleaned(o: Seq<char>) -> bool {
    &&& boundary_index(lines_of(o), RemoverConfig::spec_default()) is None
    &&& forall|i: int| token_len(o, i) == 0
    &&& forall|i: int| 0 <= i < o.len() - 1 ==> !(#[trigger] o[i] == ' ' && o[i + 1] == ' ')
    &&& forall|i: int|
        0 <= i < o.len() - 2 ==> !(#[trigger] o[i] == '\n' && o[i + 1] == '\n' && o[i + 2] == '\n')
    &&& forall|i: int| 0 <= i < o.len() - 1 ==> !(#[trigger] o[i] == '\r' && o[i + 1] == '\n')
    &&& (o.len() > 0 ==> o[o.len() - 1] != '\n')
    &&& forall|k: int|
        0 <= k < lines_of(o).len() ==> trim_line_end(#[trigger] lines_of(o)[k]) == lines_of(o)[k]
}

/// On a fully cleaned document, the default pipeline changes nothing.
pub proof fn lemma_default_fixed_point(o: Seq<char>)
    requires
        fully_cleaned(o),
    ensures
        remove_spec(o, RemoverConfig::spec_default()) == o,
{
    let cfg = RemoverConfig::spec_default();
    assert(remove_sections_spec(o, cfg) == o);
    lemma_strip_id(o, 0);
    assert(o.subrange(0, o.len() as int) =~= o);
    lemma_collapse_spaces_id(o, 0, false);
    lemma_collapse_newlines_id(o, 0, 0);
    assert(lines_of(o).map_values(|l: Seq<char>| trim_line_end(l)) =~= lines_of(o));
    lemma_join_lines_id(o, 0);
}

/// Idempotence: once the first default pass has produced a fully cleaned
/// document, a second pass returns it unchanged, so
/// `process(process(text)) == process(text)` for the default preset.
pub proof fn lemma_default_idempotent(s: Seq<char>)
    requires
        fully_cleaned(remove_spec(s, RemoverConfig::spec_default())),
    ensures
        remove_spec(remove_spec(s, RemoverConfig::spec_default()), RemoverConfig::spec_default())
            == remove_spec(s, RemoverConfig::spec_default()),
{
    lemma_default_fixed_point(remove_spec(s, RemoverConfig::spec_default()));
}

// ---------------------------------------------------------------------------
// Boundary correctness
// ---------------------------------------------------------------------------

/// The boundary scan finds the first matching line.
proof fn lemma_boundary_index_is(ls: Seq<Seq<char>>, cfg: RemoverConfig, a: int, k: int)
    requires
        0 <= a <= k < ls.len(),
        is_boundary_line(ls[k], cfg),
        forall|j: int| a <= j < k ==> !is_boundary_line(#[trigger] ls[j], cfg),
    ensures
        boundary_index_from(ls, cfg, a) == Some(k),
    decreases k - a,
{
    if a < k {
        lemma_boundary_index_is(ls, cfg, a + 1, k);
    }
}

/// Boundary correctness: in a document whose lines are some non-reference
/// content, then a reference-section header, then only definition lines,
/// section removal truncates exactly before the header, and the pipeline's
/// output is that truncation taken through the later stages the
/// configuration enables.
pub proof fn lemma_boundary_truncation(s: Seq<char>, cfg: RemoverConfig, k: int)
    requires
        cfg.remove_reference_headers,
        0 <= k < lines_of(s).len(),
        is_reference_header_line(lines_of(s)[k]),
        forall|j: int| 0 <= j < k ==> !is_boundary_line(#[trigger] lines_of(s)[j], cfg),
        forall|j: int|
            k < j < lines_of(s).len() ==> is_reference_definition_line(
                #[trigger] lines_of(s)[j],
            ),
    ensures
        remove_sections_spec(s, cfg) == join_lines(lines_of(s).take(k)),
        remove_spec(s, cfg) == ({
            let t = join_lines(lines_of(s).take(k));
            let t2 = if cfg.remove_inline_citations {
                strip_citations(t)
            } else {
                t
            };
            let t3 = if cfg.normalize_whitespace {
                collapse_spaces(t2)
            } else {
                t2
            };
            let t4 = if cfg.remove_blank_lines {
                collapse_newlines(t3)
            } else {
                t3
            };
            if cfg.trim_lines {
                trim_lines(t4)
            } else {
                t4
            }
        }),
{
    lemma_boundary_index_is(lines_of(s), cfg, 0, k);
}

/// A line that opens with a bracketed word — no caret and no digit after
/// the bracket — never opens a reference section: only `[N]` and `[^ID]`
/// markers, and headers, do.  An ordinary Markdown link filling the line,
/// `[alpha](https://…)`, or prose such as `[alpha] text`, is kept.
pub proof fn lemma_word_bracket_line_no_boundary(l: Seq<char>, cfg: RemoverConfig)
    requires
        l.len() > 1,
        l[0] == '[',
        l[1] != '^',
        !crate::patterns::is_digit_char(l[1]),
    ensures
        !is_boundary_line(l, cfg),
{
    assert(crate::patterns::hash_run_end(l, 0) == 0);
    assert(crate::patterns::digit_run_end(l, 1) == 1);
}

/// A citation-shaped line at the very start of the document truncates it
/// to the empty document: the content before the boundary was empty.
pub proof fn lemma_boundary_at_start(s: Seq<char>, cfg: RemoverConfig)
    requires
        lines_of(s).len() > 0,
        is_boundary_line(lines_of(s)[0], cfg),
    ensures
        remove_sections_spec(s, cfg) == Seq::<char>::empty(),
{
    assert(lines_of(s).take(0) =~= Seq::<Seq<char>>::empty());
}

// ---------------------------------------------------------------------------
// Content preservation: what the stripper can never delete
// ---------------------------------------------------------------------------

/// The stripping scan restricted to the window `[i, j)`: tokens are still
/// recognized against the whole text, but only matches that fit inside the
/// window are skipped.
pub open spec fn strip_scan(s: Seq<char>, i: int, j: int) -> Seq<char>
    decreases j - i,
{
    if i < 0 || i >= j || j > s.len() {
        Seq::empty()
    } else if token_len(s, i) > 0 && i + token_len(s, i) <= j {
        strip_scan(s, i + token_len(s, i), j)
    } else {
        seq![s[i]] + strip_scan(s, i + 1, j)
    }
}

/// Over the whole text, the windowed scan is the stripper.
pub proof fn lemma_strip_scan_full(s: Seq<char>, i: int)
    requires
        0 <= i <= s.len(),
    ensures
        strip_scan(s, i, s.len() as int) == strip_from(s, i),
    decreases s.len() - i,
{
    if i < s.len() {
        lemma_token_len_bounds(s, i);
        if token_len(s, i) > 0 {
            lemma_strip_scan_full(s, i + token_len(s, i));
        } else {
            lemma_strip_scan_full(s, i + 1);
        }
    }
}

/// The scan splits at any point that no token inside the window crosses.
proof fn lemma_strip_scan_split(s: Seq<char>, a: int, b: int, c: int)
    requires
        0 <= a <= b <= c <= s.len(),
        forall|p: int|
            a <= p < b && #[trigger] token_len(s, p) > 0 ==> p + token_len(s, p) <= b,
    ensures
        strip_scan(s, a, c) == strip_scan(s, a, b) + strip_scan(s, b, c),
    decreases b - a,
{
    if a < b {
        lemma_token_len_bounds(s, a);
        if token_len(s, a) > 0 {
            lemma_strip_scan_split(s, a + token_len(s, a), b, c);
        } else {
            lemma_strip_scan_split(s, a + 1, b, c);
            assert(seq![s[a]] + (strip_scan(s, a + 1, b) + strip_scan(s, b, c)) =~= (seq![s[a]]
                + strip_scan(s, a + 1, b)) + strip_scan(s, b, c));
        }
    } else {
        assert(strip_scan(s, a, b) =~= Seq::<char>::empty());
        assert(strip_scan(s, a, b) + strip_scan(s, b, c) =~= strip_scan(s, b, c));
    }
}

/// A window in which no token begins is kept character for character.
proof fn lemma_strip_scan_keeps(s: Seq<char>, i: int, j: int)
    requires
        0 <= i <= j <= s.len(),
        forall|p: int| i <= p < j ==> token_len(s, p) == 0,
    ensures
        strip_scan(s, i, j) == s.subrange(i, j),
    decreases j - i,
{
    if i < j {
        lemma_strip_scan_keeps(s, i + 1, j);
        assert(seq![s[i]] + s.subrange(i + 1, j) =~= s.subrange(i, j));
    } else {
        assert(s.subrange(i, j) =~= Seq::<char>::empty());
    }
}

/// The heart of content preservation: a span of the text in which no
/// citation token begins, and into which no earlier token reaches,
/// survives stripping character for character, in place.
pub proof fn lemma_strip_preserves_span(s: Seq<char>, i: int, j: int)
    requires
        0 <= i <= j <= s.len(),
        forall|p: int| i <= p < j ==> token_len(s, p) == 0,
        forall|p: int|
            0 <= p < i && #[trigger] token_len(s, p) > 0 ==> p + token_len(s, p) <= i,
    ensures
        strip_citations(s) == strip_scan(s, 0, i) + s.subrange(i, j) + strip_from(s, j),
{
    lemma_strip_scan_full(s, 0);
    lemma_strip_scan_split(s, 0, i, s.len() as int);
    lemma_strip_scan_split(s, i, j, s.len() as int);
    lemma_strip_scan_keeps(s, i, j);
    lemma_strip_scan_full(s, j);
    assert(strip_scan(s, 0, i) + (s.subrange(i, j) + strip_from(s, j)) =~= strip_scan(s, 0, i)
        + s.subrange(i, j) + strip_from(s, j));
}

/// An ordinary Markdown link `[text](url)` standing at `[i, j)`:
/// bracket-free link text that is not itself citation-shaped, and a
/// bracket-free target.
pub open spec fn is_plain_link_span(s: Seq<char>, i: int, j: int) -> bool {
    &&& 0 <= i
    &&& i + 4 <= j <= s.len()
    &&& s[i] == '['
    &&& exists|m: int|
        {
            &&& i < m
            &&& m + 1 < j
            &&& #[trigger] s[m] == ']'
            &&& s[m + 1] == '('
            &&& s[j - 1] == ')'
            &&& (forall|q: int| i < q < m ==> s[q] != '[' && #[trigger] s[q] != ']')
            &&& (forall|q: int| m + 1 < q < j ==> s[q] != '[' && #[trigger] s[q] != ']')
            &&& !is_inline_citation(s.subrange(i, m + 1))
        }
}

/// No citation token begins at the opening bracket of a plain link.
proof fn lemma_plain_link_no_token(s: Seq<char>, i: int, j: int)
    requires
        is_plain_link_span(s, i, j),
    ensures
        token_len(s, i) == 0,
{
    lemma_token_len_bounds(s, i);
    if token_len(s, i) > 0 {
        let n = token_len(s, i);
        lemma_token_sound(s, i);
        let m = choose|m: int|
            {
                &&& i < m
                &&& m + 1 < j
                &&& #[trigger] s[m] == ']'
                &&& s[m + 1] == '('
                &&& s[j - 1] == ')'
                &&& (forall|q: int| i < q < m ==> s[q] != '[' && #[trigger] s[q] != ']')
                &&& (forall|q: int| m + 1 < q < j ==> s[q] != '[' && #[trigger] s[q] != ']')
                &&& !is_inline_citation(s.subrange(i, m + 1))
            };
        if i + n - 1 < m {
            assert(s[i + n - 1] != ']');
            assert(false);
        } else if i + n - 1 > m {
            assert(s[m] != ']' && s[m] != '[');
            assert(false);
        } else {
            assert(s.subrange(i, i + n) =~= s.subrange(i, m + 1));
            assert(false);
        }
    }
}

/// No citation token reaches a character that cannot stand inside one.
proof fn lemma_no_token_across(s: Seq<char>, i: int)
    requires
        0 <= i < s.len(),
        !(is_id_char(s[i]) || s[i] == '^' || s[i] == ':' || s[i] == '[' || s[i] == ']'),
    ensures
        forall|p: int|
            0 <= p < i && #[trigger] token_len(s, p) > 0 ==> p + token_len(s, p) <= i,
{
    assert forall|p: int|
        0 <= p < i && #[trigger] token_len(s, p) > 0 implies p + token_len(s, p) <= i by {
        lemma_token_sound(s, p);
        let n = token_len(s, p);
        if p + n > i {
            if i == p + n - 1 {
                assert(s[i] == ']');
            } else {
                assert(is_id_char(s[i]) || s[i] == '^' || s[i] == ':');
            }
            assert(false);
        }
    }
}

/// Content preservation for links: an ordinary Markdown link whose text is
/// not citation-shaped survives stripping verbatim, in place.
pub proof fn lemma_strip_preserves_link(s: Seq<char>, i: int, j: int)
    requires
        is_plain_link_span(s, i, j),
    ensures
        strip_citations(s) == strip_scan(s, 0, i) + s.subrange(i, j) + strip_from(s, j),
{
    lemma_plain_link_no_token(s, i, j);
    let m = choose|m: int|
        {
            &&& i < m
            &&& m + 1 < j
            &&& #[trigger] s[m] == ']'
            &&& s[m + 1] == '('
            &&& s[j - 1] == ')'
            &&& (forall|q: int| i < q < m ==> s[q] != '[' && #[trigger] s[q] != ']')
            &&& (forall|q: int| m + 1 < q < j ==> s[q] != '[' && #[trigger] s[q] != ']')
            &&& !is_inline_citation(s.subrange(i, m + 1))
        };
    assert forall|p: int| i <= p < j implies token_len(s, p) == 0 by {
        if token_len(s, p) > 0 {
            lemma_token_sound(s, p);
            assert(s[p] == '[');
            assert(p == i);
        }
    }
    assert forall|p: int|
        0 <= p < i && #[trigger] token_len(s, p) > 0 implies p + token_len(s, p) <= i by {
        lemma_token_sound(s, p);
        let n = token_len(s, p);
        if p + n > i {
            if i == p + n - 1 {
                assert(s[i] == ']');
            } else {
                assert(s[i] != '[');
            }
            assert(false);
        }
    }
    lemma_strip_preserves_span(s, i, j);
}

/// Content preservation for images: `![alt](url)` of the same plain shape
/// survives stripping verbatim, in place.
pub proof fn lemma_strip_preserves_image(s: Seq<char>, i: int, j: int)
    requires
        0 <= i < s.len(),
        s[i] == '!',
        is_plain_link_span(s, i + 1, j),
    ensures
        strip_citations(s) == strip_scan(s, 0, i) + s.subrange(i, j) + strip_from(s, j),
{
    lemma_plain_link_no_token(s, i + 1, j);
    let m = choose|m: int|
        {
            &&& i + 1 < m
            &&& m + 1 < j
            &&& #[trigger] s[m] == ']'
            &&& s[m + 1] == '('
            &&& s[j - 1] == ')'
            &&& (forall|q: int| i + 1 < q < m ==> s[q] != '[' && #[trigger] s[q] != ']')
            &&& (forall|q: int| m + 1 < q < j ==> s[q] != '[' && #[trigger] s[q] != ']')
            &&& !is_inline_citation(s.subrange(i + 1, m + 1))
        };
    assert forall|p: int| i <= p < j implies token_len(s, p) == 0 by {
        if token_len(s, p) > 0 {
            lemma_token_sound(s, p);
            assert(s[p] == '[');
            assert(p == i + 1);
        }
    }
    lemma_no_token_across(s, i);
    lemma_strip_preserves_span(s, i, j);
}

/// Content preservation for everything bracketless: a span that opens the
/// text or follows right after a character no citation can contain — a
/// newline, a space, an emphasis star — and that holds no `'['` survives
/// stripping verbatim, in place.  This covers bold and italic markers,
/// list bullets, and plain prose.
pub proof fn lemma_strip_preserves_plain_span(s: Seq<char>, i: int, j: int)
    requires
        0 <= i <= j <= s.len(),
        i == 0 || !(is_id_char(s[i - 1]) || s[i - 1] == '^' || s[i - 1] == ':' || s[i - 1] == '['
            || s[i - 1] == ']'),
        forall|p: int| i <= p < j ==> #[trigger] s[p] != '[',
    ensures
        strip_citations(s) == strip_scan(s, 0, i) + s.subrange(i, j) + strip_from(s, j),
{
    assert forall|p: int| i <= p < j implies token_len(s, p) == 0 by {
        if token_len(s, p) > 0 {
            lemma_token_sound(s, p);
        }
    }
    if i > 0 {
        lemma_no_token_across(s, i - 1);
        assert forall|p: int|
            0 <= p < i && #[trigger] token_len(s, p) > 0 implies p + token_len(s, p) <= i by {
            lemma_token_sound(s, p);
            if p < i - 1 {
            } else {
                assert(p == i - 1);
                assert(s[p] == '[');
            }
        }
    }
    lemma_strip_preserves_span(s, i, j);
}

// ---------------------------------------------------------------------------
// Order preservation: every stage only deletes characters
// ---------------------------------------------------------------------------

/// `a` is obtained from `b` by deleting characters: every character of
/// `a` occurs in `b`, in the same relative order.
pub open spec fn is_subsequence(a: Seq<char>, b: Seq<char>) -> bool
    decreases b.len(),
{
    if a.len() == 0 {
        true
    } else if b.len() == 0 {
        false
    } else if a[0] == b[0] {
        is_subsequence(a.drop_first(), b.drop_first())
    } else {
        is_subsequence(a, b.drop_first())
    }
}

proof fn lemma_subseq_refl(a: Seq<char>)
    ensures
        is_subsequence(a, a),
    decreases a.len(),
{
    if a.len() > 0 {
        lemma_subseq_refl(a.drop_first());
    }
}

proof fn lemma_subseq_drop_left(a: Seq<char>, b: Seq<char>)
    requires
        is_subsequence(a, b),
        a.len() > 0,
    ensures
        is_subsequence(a.drop_first(), b),
    decreases b.len(),
{
    if a[0] == b[0] {
        if a.drop_first().len() > 0 {
            if a.drop_first()[0] == b[0] {
                lemma_subseq_drop_left(a.drop_first(), b.drop_first());
            }
        }
    } else {
        lemma_subseq_drop_left(a, b.drop_first());
        if a.drop_first().len() > 0 && a.drop_first()[0] == b[0] {
            lemma_subseq_drop_left(a.drop_first(), b.drop_first());
        }
    }
}

proof fn lemma_subseq_cons_right(a: Seq<char>, b: Seq<char>, x: char)
    requires
        is_subsequence(a, b),
    ensures
        is_subsequence(a, seq![x] + b),
{
    let c = seq![x] + b;
    assert(c.len() > 0 && c[0] == x);
    assert(c.drop_first() =~= b);
    if a.len() > 0 && a[0] == x {
        lemma_subseq_drop_left(a, b);
    }
}

proof fn lemma_subseq_concat(a1: Seq<char>, a2: Seq<char>, b1: Seq<char>, b2: Seq<char>)
    requires
        is_subsequence(a1, b1),
        is_subsequence(a2, b2),
    ensures
        is_subsequence(a1 + a2, b1 + b2),
    decreases b1.len(),
{
    if a1.len() == 0 {
        assert(a1 + a2 =~= a2);
        lemma_subseq_prepend_right(a2, b2, b1);
    } else {
        assert(b1.len() > 0);
        assert((a1 + a2)[0] == a1[0] && (b1 + b2)[0] == b1[0]);
        assert((b1 + b2).drop_first() =~= b1.drop_first() + b2);
        if a1[0] == b1[0] {
            lemma_subseq_concat(a1.drop_first(), a2, b1.drop_first(), b2);
            assert((a1 + a2).drop_first() =~= a1.drop_first() + a2);
        } else {
            lemma_subseq_concat(a1, a2, b1.drop_first(), b2);
        }
    }
}

proof fn lemma_subseq_prepend_right(a: Seq<char>, b: Seq<char>, c: Seq<char>)
    requires
        is_subsequence(a, b),
    ensures
        is_subsequence(a, c + b),
    decreases c.len(),
{
    if c.len() == 0 {
        assert(c + b =~= b);
    } else {
        lemma_subseq_prepend_right(a, b, c.drop_first());
        lemma_subseq_cons_right(a, c.drop_first() + b, c[0]);
        assert(seq![c[0]] + (c.drop_first() + b) =~= c + b);
    }
}

proof fn lemma_subseq_trans(a: Seq<char>, b: Seq<char>, c: Seq<char>)
    requires
        is_subsequence(a, b),
        is_subsequence(b, c),
    ensures
        is_subsequence(a, c),
    decreases b.len() + c.len(),
{
    if a.len() == 0 || b.len() == 0 {
    } else if c.len() == 0 {
    } else if a[0] == b[0] && b[0] == c[0] {
        lemma_subseq_trans(a.drop_first(), b.drop_first(), c.drop_first());
    } else if a[0] == b[0] {
        lemma_subseq_trans(a, b, c.drop_first());
        lemma_subseq_drop_left(a, c.drop_first());
    } else {
        lemma_subseq_drop_left(b, c);
        lemma_subseq_trans(a, b.drop_first(), c);
    }
}

proof fn lemma_subseq_append_right(a: Seq<char>, b: Seq<char>, x: char)
    requires
        is_subsequence(a, b),
    ensures
        is_subsequence(a, b.push(x)),
{
    lemma_subseq_concat(a, Seq::empty(), b, seq![x]);
    assert(a + Seq::<char>::empty() =~= a);
    assert(b + seq![x] =~= b.push(x));
}

proof fn lemma_subseq_widen(s: Seq<char>, x: Seq<char>, i: int, j: int)
    requires
        0 <= i <= j <= s.len(),
        is_subsequence(x, s.subrange(j, s.len() as int)),
    ensures
        is_subsequence(x, s.subrange(i, s.len() as int)),
    decreases j - i,
{
    if i < j {
        lemma_subseq_widen(s, x, i + 1, j);
        lemma_subseq_cons_right(x, s.subrange(i + 1, s.len() as int), s[i]);
        assert(seq![s[i]] + s.subrange(i + 1, s.len() as int) =~= s.subrange(i, s.len() as int));
    }
}

proof fn lemma_strip_from_subseq(s: Seq<char>, i: int)
    requires
        0 <= i <= s.len(),
    ensures
        is_subsequence(strip_from(s, i), s.subrange(i, s.len() as int)),
    decreases s.len() - i,
{
    if i >= s.len() {
        assert(s.subrange(i, s.len() as int) =~= Seq::<char>::empty());
    } else if token_len(s, i) > 0 {
        lemma_token_len_bounds(s, i);
        lemma_strip_from_subseq(s, i + token_len(s, i));
        lemma_subseq_widen(s, strip_from(s, i), i, i + token_len(s, i));
    } else {
        lemma_strip_from_subseq(s, i + 1);
        lemma_subseq_refl(seq![s[i]]);
        lemma_subseq_concat(
            seq![s[i]],
            strip_from(s, i + 1),
            seq![s[i]],
            s.subrange(i + 1, s.len() as int),
        );
        assert(seq![s[i]] + s.subrange(i + 1, s.len() as int) =~= s.subrange(i, s.len() as int));
    }
}

proof fn lemma_collapse_spaces_from_subseq(s: Seq<char>, i: int, prev: bool)
    requires
        0 <= i <= s.len(),
    ensures
        is_subsequence(collapse_spaces_from(s, i, prev), s.subrange(i, s.len() as int)),
    decreases s.len() - i,
{
    if i >= s.len() {
        assert(s.subrange(i, s.len() as int) =~= Seq::<char>::empty());
    } else if s[i] == ' ' && prev {
        lemma_collapse_spaces_from_subseq(s, i + 1, true);
        lemma_subseq_widen(s, collapse_spaces_from(s, i, prev), i, i + 1);
    } else {
        lemma_collapse_spaces_from_subseq(s, i + 1, s[i] == ' ');
        lemma_subseq_refl(seq![s[i]]);
        lemma_subseq_concat(
            seq![s[i]],
            collapse_spaces_from(s, i + 1, s[i] == ' '),
            seq![s[i]],
            s.subrange(i + 1, s.len() as int),
        );
        assert(seq![s[i]] + s.subrange(i + 1, s.len() as int) =~= s.subrange(i, s.len() as int));
    }
}

proof fn lemma_collapse_newlines_from_subseq(s: Seq<char>, i: int, run: int)
    requires
        0 <= i <= s.len(),
    ensures
        is_subsequence(collapse_newlines_from(s, i, run), s.subrange(i, s.len() as int)),
    decreases s.len() - i,
{
    if i >= s.len() {
        assert(s.subrange(i, s.len() as int) =~= Seq::<char>::empty());
    } else if s[i] == '\n' && run >= 2 {
        lemma_collapse_newlines_from_subseq(s, i + 1, run);
        lemma_subseq_widen(s, collapse_newlines_from(s, i, run), i, i + 1);
    } else {
        let next_run: int = if s[i] == '\n' {
            run + 1
        } else {
            0
        };
        lemma_collapse_newlines_from_subseq(s, i + 1, next_run);
        lemma_subseq_refl(seq![s[i]]);
        lemma_subseq_concat(
            seq![s[i]],
            collapse_newlines_from(s, i + 1, next_run),
            seq![s[i]],
            s.subrange(i + 1, s.len() as int),
        );
        assert(seq![s[i]] + s.subrange(i + 1, s.len() as int) =~= s.subrange(i, s.len() as int));
    }
}

proof fn lemma_trim_line_subseq(l: Seq<char>)
    ensures
        is_subsequence(trim_line_end(l), l),
    decreases l.len(),
{
    if l.len() > 0 && crate::patterns::is_line_ws(l[l.len() - 1]) {
        lemma_trim_line_subseq(l.drop_last());
        lemma_subseq_append_right(trim_line_end(l), l.drop_last(), l[l.len() - 1]);
        assert(l.drop_last().push(l[l.len() - 1]) =~= l);
    } else {
        lemma_subseq_refl(l);
    }
}

proof fn lemma_join_pointwise_subseq(ls1: Seq<Seq<char>>, ls2: Seq<Seq<char>>)
    requires
        ls1.len() == ls2.len(),
        forall|k: int| 0 <= k < ls1.len() ==> is_subsequence(#[trigger] ls1[k], ls2[k]),
    ensures
        is_subsequence(join_lines(ls1), join_lines(ls2)),
    decreases ls1.len(),
{
    if ls1.len() == 1 {
        assert(is_subsequence(ls1[0], ls2[0]));
    } else if ls1.len() > 1 {
        assert(forall|k: int|
            0 <= k < ls1.drop_first().len() ==> is_subsequence(
                #[trigger] ls1.drop_first()[k],
                ls2.drop_first()[k],
            ));
        lemma_join_pointwise_subseq(ls1.drop_first(), ls2.drop_first());
        lemma_subseq_refl(seq!['\n']);
        assert(is_subsequence(ls1[0], ls2[0]));
        lemma_subseq_concat(ls1[0], seq!['\n'], ls2[0], seq!['\n']);
        lemma_subseq_concat(
            ls1[0] + seq!['\n'],
            join_lines(ls1.drop_first()),
            ls2[0] + seq!['\n'],
            join_lines(ls2.drop_first()),
        );
    }
}

proof fn lemma_join_lines_from_subseq(s: Seq<char>, i: int)
    requires
        0 <= i <= s.len(),
    ensures
        is_subsequence(join_lines(lines_from(s, i)), s.subrange(i, s.len() as int)),
    decreases s.len() - i,
{
    if i >= s.len() {
        assert(s.subrange(i, s.len() as int) =~= Seq::<char>::empty());
    } else {
        crate::text::lemma_next_newline(s, i);
        let e = crate::text::next_newline(s, i);
        let full = s.subrange(i, s.len() as int);
        if e == s.len() {
            assert(join_lines(lines_from(s, i)) == s.subrange(i, e));
            lemma_subseq_refl(s.subrange(i, e));
        } else {
            let a = strip_cr(s.subrange(i, e));
            assert(is_subsequence(a, s.subrange(i, e))) by {
                let sub = s.subrange(i, e);
                if sub.len() > 0 && sub[sub.len() - 1] == '\r' {
                    lemma_subseq_refl(sub.drop_last());
                    lemma_subseq_append_right(sub.drop_last(), sub.drop_last(), sub[sub.len() - 1]);
                    assert(sub.drop_last().push(sub[sub.len() - 1]) =~= sub);
                } else {
                    lemma_subseq_refl(sub);
                }
            }
            let rest = lines_from(s, e + 1);
            let ls = seq![a] + rest;
            assert(ls[0] == a);
            if rest.len() == 0 {
                assert(ls.len() == 1);
                assert(join_lines(ls) == a);
                lemma_subseq_append_right(a, s.subrange(i, e), s[e]);
                assert(s.subrange(i, e).push(s[e]) =~= s.subrange(i, e + 1));
                lemma_subseq_widen(s, a, i, i);
                assert(is_subsequence(a, s.subrange(i, e + 1)));
                lemma_subseq_concat(a, Seq::empty(), s.subrange(i, e + 1), s.subrange(e + 1, s.len() as int));
                assert(a + Seq::<char>::empty() =~= a);
                assert(s.subrange(i, e + 1) + s.subrange(e + 1, s.len() as int) =~= full);
            } else {
                assert(ls.drop_first() =~= rest);
                assert(join_lines(ls) == a + seq!['\n'] + join_lines(rest));
                lemma_join_lines_from_subseq(s, e + 1);
                lemma_subseq_refl(seq!['\n']);
                lemma_subseq_concat(a, seq!['\n'], s.subrange(i, e), seq!['\n']);
                lemma_subseq_concat(
                    a + seq!['\n'],
                    join_lines(rest),
                    s.subrange(i, e) + seq!['\n'],
                    s.subrange(e + 1, s.len() as int),
                );
                assert(s.subrange(i, e) + seq!['\n'] + s.subrange(e + 1, s.len() as int)
                    =~= full);
            }
        }
    }
}

proof fn lemma_join_take_subseq(ls: Seq<Seq<char>>, k: int)
    requires
        0 <= k <= ls.len(),
    ensures
        is_subsequence(join_lines(ls.take(k)), join_lines(ls)),
    decreases ls.len(),
{
    if k == ls.len() {
        assert(ls.take(k) =~= ls);
        lemma_subseq_refl(join_lines(ls));
    } else if k == 0 {
        assert(ls.take(0) =~= Seq::<Seq<char>>::empty());
    } else {
        assert(ls.take(k).drop_first() =~= ls.drop_first().take(k - 1));
        assert(ls.take(k)[0] == ls[0]);
        lemma_join_take_subseq(ls.drop_first(), k - 1);
        lemma_subseq_refl(ls[0]);
        if k == 1 {
            assert(join_lines(ls.take(k)) == ls[0]);
            lemma_subseq_concat(
                ls[0],
                Seq::empty(),
                ls[0],
                seq!['\n'] + join_lines(ls.drop_first()),
            );
            assert(ls[0] + Seq::<char>::empty() =~= ls[0]);
            assert(ls[0] + (seq!['\n'] + join_lines(ls.drop_first())) =~= ls[0] + seq!['\n']
                + join_lines(ls.drop_first()));
        } else {
            lemma_subseq_refl(seq!['\n']);
            lemma_subseq_concat(ls[0], seq!['\n'], ls[0], seq!['\n']);
            lemma_subseq_concat(
                ls[0] + seq!['\n'],
                join_lines(ls.drop_first().take(k - 1)),
                ls[0] + seq!['\n'],
                join_lines(ls.drop_first()),
            );
        }
    }
}

/// Order preservation: under every configuration, the pipeline only
/// deletes characters — its output is a subsequence of its input, so the
/// relative order of all retained characters is preserved.
pub proof fn lemma_remove_preserves_order(s: Seq<char>, cfg: RemoverConfig)
    ensures
        is_subsequence(remove_spec(s, cfg), s),
{
    let t1 = if wants_section_removal(cfg) {
        remove_sections_spec(s, cfg)
    } else {
        s
    };
    let t2 = if cfg.remove_inline_citations {
        strip_citations(t1)
    } else {
        t1
    };
    let t3 = if cfg.normalize_whitespace {
        collapse_spaces(t2)
    } else {
        t2
    };
    let t4 = if cfg.remove_blank_lines {
        collapse_newlines(t3)
    } else {
        t3
    };
    let t5 = if cfg.trim_lines {
        trim_lines(t4)
    } else {
        t4
    };
    assert(is_subsequence(t1, s)) by {
        lemma_subseq_refl(s);
        if wants_section_removal(cfg) {
            lemma_boundary_index_in_range(lines_of(s), cfg, 0);
            match boundary_index(lines_of(s), cfg) {
                Some(k) => {
                    lemma_join_take_subseq(lines_of(s), k);
                    lemma_join_lines_from_subseq(s, 0);
                    assert(s.subrange(0, s.len() as int) =~= s);
                    lemma_subseq_trans(
                        join_lines(lines_of(s).take(k)),
                        join_lines(lines_of(s)),
                        s,
                    );
                },
                None => {},
            }
        }
    }
    assert(is_subsequence(t2, t1)) by {
        lemma_subseq_refl(t1);
        if cfg.remove_inline_citations {
            lemma_strip_from_subseq(t1, 0);
            assert(t1.subrange(0, t1.len() as int) =~= t1);
        }
    }
    assert(is_subsequence(t3, t2)) by {
        lemma_subseq_refl(t2);
        if cfg.normalize_whitespace {
            lemma_collapse_spaces_from_subseq(t2, 0, false);
            assert(t2.subrange(0, t2.len() as int) =~= t2);
        }
    }
    assert(is_subsequence(t4, t3)) by {
        lemma_subseq_refl(t3);
        if cfg.remove_blank_lines {
            lemma_collapse_newlines_from_subseq(t3, 0, 0);
            assert(t3.subrange(0, t3.len() as int) =~= t3);
        }
    }
    assert(is_subsequence(t5, t4)) by {
        lemma_subseq_refl(t4);
        if cfg.trim_lines {
            let ls = lines_of(t4);
            let trimmed = ls.map_values(|l: Seq<char>| trim_line_end(l));
            assert forall|k: int|
                0 <= k < trimmed.len() implies is_subsequence(#[trigger] trimmed[k], ls[k]) by {
                lemma_trim_line_subseq(ls[k]);
            }
            lemma_join_pointwise_subseq(trimmed, ls);
            lemma_join_lines_from_subseq(t4, 0);
            assert(t4.subrange(0, t4.len() as int) =~= t4);
            lemma_subseq_trans(join_lines(trimmed), join_lines(ls), t4);
        }
    }
    lemma_subseq_trans(t5, t4, t3);
    lemma_subseq_trans(t5, t3, t2);
    lemma_subseq_trans(t5, t2, t1);
    lemma_subseq_trans(t5, t1, s);
}

} // verus!
