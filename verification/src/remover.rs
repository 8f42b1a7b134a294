//! The cleanup pipeline: reference-section removal, inline citation
//! stripping, whitespace normalization, blank-line collapsing and
//! line trimming, composed in that fixed order under a configuration.

use crate::config::RemoverConfig;
use crate::patterns::is_line_ws;
use crate::patterns::is_reference_definition_line;
use crate::patterns::is_reference_entry_line;
use crate::patterns::is_reference_header_line;
use crate::patterns::lemma_token_len_bounds;
use crate::patterns::token_len;
use crate::text::join_lines;
use crate::text::lines_of;
use vstd::prelude::*;

verus! {

// ---------------------------------------------------------------------------
// Inline citation stripping
// ---------------------------------------------------------------------------

/// The text from index `i` on with every inline citation token deleted.
/// The scan runs left to right; a position where a token begins is skipped
/// past the whole token, every other character is kept.
pub open spec fn strip_from(s: Seq<char>, i: int) -> Seq<char>
    decreases s.len() - i,
{
    if i < 0 || i >= s.len() {
        Seq::empty()
    } else if token_len(s, i) > 0 {
        proof {
            lemma_token_len_bounds(s, i);
        }
        strip_from(s, i + token_len(s, i))
    } else {
        seq![s[i]] + strip_from(s, i + 1)
    }
}

/// The text with every inline citation token deleted.
pub open spec fn strip_citations(s: Seq<char>) -> Seq<char> {
    strip_from(s, 0)
}

// ---------------------------------------------------------------------------
// Whitespace stages
// ---------------------------------------------------------------------------

/// The text from index `i` on with every run of two or more spaces
/// collapsed to one.  `prev_space` says whether the character kept just
/// before `i` was a space.
pub open spec fn collapse_spaces_from(s: Seq<char>, i: int, prev_space: bool) -> Seq<char>
    decreases s.len() - i,
{
    if i < 0 || i >= s.len() {
        Seq::empty()
    } else if s[i] == ' ' && prev_space {
        collapse_spaces_from(s, i + 1, true)
    } else {
        seq![s[i]] + collapse_spaces_from(s, i + 1, s[i] == ' ')
    }
}

/// Every run of two or more spaces collapsed to a single space.
/// Tabs and newlines are untouched.
pub open spec fn collapse_spaces(s: Seq<char>) -> Seq<char> {
    collapse_spaces_from(s, 0, false)
}

/// The text from index `i` on with every run of three or more newlines
/// capped at two.  `run` counts the newlines kept immediately before `i`,
/// saturated at two.
pub open spec fn collapse_newlines_from(s: Seq<char>, i: int, run: int) -> Seq<char>
    decreases s.len() - i,
{
    if i < 0 || i >= s.len() {
        Seq::empty()
    } else if s[i] == '\n' {
        if run >= 2 {
            collapse_newlines_from(s, i + 1, run)
        } else {
            seq!['\n'] + collapse_newlines_from(s, i + 1, run + 1)
        }
    } else {
        seq![s[i]] + collapse_newlines_from(s, i + 1, 0)
    }
}

/// Every run of three or more newlines capped at exactly two, so at most
/// one blank line remains in a row.
pub open spec fn collapse_newlines(s: Seq<char>) -> Seq<char> {
    collapse_newlines_from(s, 0, 0)
}

/// The line with its trailing spaces and tabs removed.
pub open spec fn trim_line_end(l: Seq<char>) -> Seq<char>
    decreases l.len(),
{
    if l.len() > 0 && is_line_ws(l[l.len() - 1]) {
        trim_line_end(l.drop_last())
    } else {
        l
    }
}

/// Every line trimmed at its end, and the lines joined back with `'\n'`.
/// As with `str::lines`, a trailing newline does not produce a final
/// empty line.
pub open spec fn trim_lines(s: Seq<char>) -> Seq<char> {
    join_lines(lines_of(s).map_values(|l: Seq<char>| trim_line_end(l)))
}

// ---------------------------------------------------------------------------
// Reference-section boundary
// ---------------------------------------------------------------------------

/// Does this line open a reference section under the given configuration?
/// A header counts only when header removal is enabled; definition and
/// entry shapes always count once the section scan runs at all.
pub open spec fn is_boundary_line(l: Seq<char>, cfg: RemoverConfig) -> bool {
    ||| (cfg.remove_reference_headers && is_reference_header_line(l))
    ||| is_reference_definition_line(l)
    ||| is_reference_entry_line(l)
}

/// The index of the first boundary line at or after `k`, if any.
pub open spec fn boundary_index_from(ls: Seq<Seq<char>>, cfg: RemoverConfig, k: int) -> Option<
    int,
>
    decreases ls.len() - k,
{
    if k < 0 || k >= ls.len() {
        None
    } else if is_boundary_line(ls[k], cfg) {
        Some(k)
    } else {
        boundary_index_from(ls, cfg, k + 1)
    }
}

/// The index of the first line that opens a reference section, if any.
pub open spec fn boundary_index(ls: Seq<Seq<char>>, cfg: RemoverConfig) -> Option<int> {
    boundary_index_from(ls, cfg, 0)
}

/// The document truncated strictly before the first boundary line; a
/// document without one is returned unchanged.
pub open spec fn remove_sections_spec(s: Seq<char>, cfg: RemoverConfig) -> Seq<char> {
    match boundary_index(lines_of(s), cfg) {
        Some(k) => join_lines(lines_of(s).take(k)),
        None => s,
    }
}

// ---------------------------------------------------------------------------
// The pipeline
// ---------------------------------------------------------------------------

/// Does the configuration call for the reference-section scan at all?
pub open spec fn wants_section_removal(cfg: RemoverConfig) -> bool {
    cfg.remove_reference_links || cfg.remove_reference_entries || cfg.remove_reference_headers
}

/// The full pipeline: each stage applied in its fixed place when its flag
/// is set, each stage's output feeding the next.
pub open spec fn remove_spec(s: Seq<char>, cfg: RemoverConfig) -> Seq<char> {
    let t1 = if wants_section_removal(cfg) {
        remove_sections_spec(s, cfg)
    } else {
        s
    };
    let t2 = if cfg.remove_inline_citations {
        strip_citations(t1)
    } else {
        t1
    };
    let t3 = if cfg.normalize_whitespace {
        collapse_spaces(t2)
    } else {
        t2
    };
    let t4 = if cfg.remove_blank_lines {
        collapse_newlines(t3)
    } else {
        t3
    };
    if cfg.trim_lines {
        trim_lines(t4)
    } else {
        t4
    }
}

// ---------------------------------------------------------------------------
// Executable stages
// ---------------------------------------------------------------------------

fn copy_chars(v: &Vec<char>) -> (r: Vec<char>)
    ensures
        r@ == v@,
{
    let mut r: Vec<char> = Vec::new();
    let mut i: usize = 0;
    while i < v.len()
        invariant
            i <= v.len(),
            r@ == v@.take(i as int),
        decreases v.len() - i,
    {
        r.push(v[i]);
        proof {
            assert(v@.take(i as int + 1) =~= v@.take(i as int).push(v@[i as int]));
        }
        i = i + 1;
    }
    proof {
        assert(v@.take(v@.len() as int) =~= v@);
    }
    r
}

fn strip_citations_chars(v: &Vec<char>) -> (r: Vec<char>)
    ensures
        r@ == strip_citations(v@),
{
    let mut r: Vec<char> = Vec::new();
    let mut i: usize = 0;
    while i < v.len()
        invariant
            i <= v.len(),
            strip_citations(v@) == r@ + strip_from(v@, i as int),
        decreases v.len() - i,
    {
        let n = crate::patterns::token_len_x(v, i);
        if n > 0 {
            i = i + n;
        } else {
            let ghost old_r = r@;
            r.push(v[i]);
            proof {
                assert(old_r + (seq![v@[i as int]] + strip_from(v@, i as int + 1)) =~= r@
                    + strip_from(v@, i as int + 1));
            }
            i = i + 1;
        }
    }
    proof {
        assert(r@ + strip_from(v@, v@.len() as int) =~= r@);
    }
    r
}

fn collapse_spaces_chars(v: &Vec<char>) -> (r: Vec<char>)
    ensures
        r@ == collapse_spaces(v@),
{
    let mut r: Vec<char> = Vec::new();
    let mut i: usize = 0;
    let mut prev_space = false;
    while i < v.len()
        invariant
            i <= v.len(),
            collapse_spaces(v@) == r@ + collapse_spaces_from(v@, i as int, prev_space),
        decreases v.len() - i,
    {
        let c = v[i];
        if c == ' ' && prev_space {
        } else {
            let ghost old_r = r@;
            r.push(c);
            proof {
                assert(old_r + (seq![v@[i as int]] + collapse_spaces_from(
                    v@,
                    i as int + 1,
                    v@[i as int] == ' ',
                )) =~= r@ + collapse_spaces_from(v@, i as int + 1, v@[i as int] == ' '));
            }
            prev_space = c == ' ';
        }
        i = i + 1;
    }
    proof {
        assert(r@ + collapse_spaces_from(v@, v@.len() as int, prev_space) =~= r@);
    }
    r
}

fn collapse_newlines_chars(v: &Vec<char>) -> (r: Vec<char>)
    ensures
        r@ == collapse_newlines(v@),
{
    let mut r: Vec<char> = Vec::new();
    let mut i: usize = 0;
    let mut run: usize = 0;
    while i < v.len()
        invariant
            i <= v.len(),
            run <= 2,
            collapse_newlines(v@) == r@ + collapse_newlines_from(v@, i as int, run as int),
        decreases v.len() - i,
    {
        let c = v[i];
        if c == '\n' {
            if run >= 2 {
            } else {
                let ghost old_r = r@;
                r.push('\n');
                proof {
                    assert(old_r + (seq!['\n'] + collapse_newlines_from(
                        v@,
                        i as int + 1,
                        run as int + 1,
                    )) =~= r@ + collapse_newlines_from(v@, i as int + 1, run as int + 1));
                }
                run = run + 1;
            }
        } else {
            let ghost old_r = r@;
            r.push(c);
            proof {
                assert(old_r + (seq![v@[i as int]] + collapse_newlines_from(v@, i as int + 1, 0))
                    =~= r@ + collapse_newlines_from(v@, i as int + 1, 0));
            }
            run = 0;
        }
        i = i + 1;
    }
    proof {
        assert(r@ + collapse_newlines_from(v@, v@.len() as int, run as int) =~= r@);
    }
    r
}

/// `trim_line_end` keeps exactly the characters before the trailing
/// whitespace run.
proof fn lemma_trim_line_end_is(l: Seq<char>, m: int)
    requires
        0 <= m <= l.len(),
        forall|q: int| m <= q < l.len() ==> is_line_ws(l[q]),
        m > 0 ==> !is_line_ws(l[m - 1]),
    ensures
        trim_line_end(l) == l.take(m),
    decreases l.len(),
{
    if l.len() > 0 && is_line_ws(l[l.len() - 1]) {
        assert(m < l.len());
        assert forall|q: int| m <= q < l.drop_last().len() implies is_line_ws(
            #[trigger] l.drop_last()[q],
        ) by {
            assert(l.drop_last()[q] == l[q]);
        }
        if m > 0 {
            assert(l.drop_last()[m - 1] == l[m - 1]);
        }
        lemma_trim_line_end_is(l.drop_last(), m);
        assert(l.drop_last().take(m) =~= l.take(m));
    } else {
        assert(l.take(m) =~= l);
    }
}

fn trim_line_chars(l: &Vec<char>) -> (r: Vec<char>)
    ensures
        r@ == trim_line_end(l@),
{
    let mut m = l.len();
    while m > 0 && crate::patterns::line_ws_char(l[m - 1])
        invariant
            m <= l.len(),
            forall|q: int| m <= q < l@.len() ==> is_line_ws(l@[q]),
        decreases m,
    {
        m = m - 1;
    }
    proof {
        lemma_trim_line_end_is(l@, m as int);
    }
    let mut r: Vec<char> = Vec::new();
    let mut t: usize = 0;
    while t < m
        invariant
            t <= m <= l.len(),
            r@ == l@.take(t as int),
        decreases m - t,
    {
        r.push(l[t]);
        proof {
            assert(l@.take(t as int + 1) =~= l@.take(t as int).push(l@[t as int]));
        }
        t = t + 1;
    }
    r
}

fn trim_lines_chars(v: &Vec<char>) -> (r: Vec<char>)
    ensures
        r@ == trim_lines(v@),
{
    let lines = crate::text::split_lines(v);
    let mut trimmed: Vec<Vec<char>> = Vec::new();
    let mut j: usize = 0;
    while j < lines.len()
        invariant
            j <= lines.len(),
            crate::text::line_views(lines@) == lines_of(v@),
            trimmed@.len() == j,
            forall|k: int|
                0 <= k < j ==> #[trigger] trimmed@[k]@ == trim_line_end(lines_of(v@)[k]),
        decreases lines.len() - j,
    {
        let tl = trim_line_chars(&lines[j]);
        trimmed.push(tl);
        j = j + 1;
    }
    proof {
        assert(crate::text::line_views(trimmed@) =~= lines_of(v@).map_values(
            |l: Seq<char>| trim_line_end(l),
        ));
    }
    let r = crate::text::join_first_lines(&trimmed, trimmed.len());
    proof {
        assert(crate::text::line_views(trimmed@).take(trimmed@.len() as int) =~= crate::text::line_views(trimmed@));
    }
    r
}

fn remove_sections_chars(v: &Vec<char>, cfg: &RemoverConfig) -> (r: Vec<char>)
    ensures
        r@ == remove_sections_spec(v@, *cfg),
{
    let lines = crate::text::split_lines(v);
    let ghost views = crate::text::line_views(lines@);
    let mut k: usize = 0;
    while k < lines.len()
        invariant
            k <= lines.len(),
            views == crate::text::line_views(lines@),
            views == lines_of(v@),
            boundary_index(views, *cfg) == boundary_index_from(views, *cfg, k as int),
        decreases lines.len() - k,
    {
        let l = &lines[k];
        let hit = (cfg.remove_reference_headers && crate::patterns::reference_header_line_x(l))
            || crate::patterns::reference_definition_line_x(l)
            || crate::patterns::reference_entry_line_x(l);
        if hit {
            proof {
                assert(is_boundary_line(views[k as int], *cfg));
            }
            return crate::text::join_first_lines(&lines, k);
        }
        k = k + 1;
    }
    copy_chars(v)
}

// ---------------------------------------------------------------------------
// The remover
// ---------------------------------------------------------------------------

/// Main citation remover: a configuration bundled up for repeated use.
pub struct CitationRemover {
    config: RemoverConfig,
}

impl View for CitationRemover {
    type V = RemoverConfig;

    closed spec fn view(&self) -> RemoverConfig {
        self.config
    }
}

impl CitationRemover {
    /// Create new remover with default configuration
    pub fn new() -> (r: Self)
        ensures
            r@ == RemoverConfig::spec_default(),
    {
        CitationRemover { config: RemoverConfig::new() }
    }

    /// Create remover with custom configuration
    pub fn with_config(config: RemoverConfig) -> (r: Self)
        ensures
            r@ == config,
    {
        CitationRemover { config }
    }

    /// Remove citations from a markdown string: the full pipeline under
    /// this remover's configuration.
    pub fn remove(&self, markdown: &str) -> (r: String)
        ensures
            r@ == remove_spec(markdown@, self@),
            r@.len() <= markdown@.len(),
    {
        proof {
            crate::laws::lemma_remove_non_expansive(markdown@, self@);
        }
        let mut v = crate::text::str_to_chars(markdown);
        if self.config.remove_reference_links || self.config.remove_reference_entries
            || self.config.remove_reference_headers {
            v = remove_sections_chars(&v, &self.config);
        }
        if self.config.remove_inline_citations {
            v = strip_citations_chars(&v);
        }
        if self.config.normalize_whitespace {
            v = collapse_spaces_chars(&v);
        }
        if self.config.remove_blank_lines {
            v = collapse_newlines_chars(&v);
        }
        if self.config.trim_lines {
            v = trim_lines_chars(&v);
        }
        crate::text::chars_to_string(&v)
    }

    /// Delete every inline citation token; all other characters stay.
    pub fn remove_inline_citations(&self, text: &str) -> (r: String)
        ensures
            r@ == strip_citations(text@),
    {
        let v = crate::text::str_to_chars(text);
        let stripped = strip_citations_chars(&v);
        crate::text::chars_to_string(&stripped)
    }

    /// Truncate the document strictly before the first line that opens a
    /// reference section; without one, return it unchanged.
    pub fn remove_reference_sections(&self, text: &str) -> (r: String)
        ensures
            r@ == remove_sections_spec(text@, self@),
    {
        let v = crate::text::str_to_chars(text);
        let cut = remove_sections_chars(&v, &self.config);
        crate::text::chars_to_string(&cut)
    }

    /// Collapse every run of two or more spaces to a single space.
    pub fn normalize_whitespace(&self, text: &str) -> (r: String)
        ensures
            r@ == collapse_spaces(text@),
    {
        let v = crate::text::str_to_chars(text);
        let collapsed = collapse_spaces_chars(&v);
        crate::text::chars_to_string(&collapsed)
    }

    /// Cap every run of three or more newlines at exactly two.
    pub fn remove_excessive_blank_lines(&self, text: &str) -> (r: String)
        ensures
            r@ == collapse_newlines(text@),
    {
        let v = crate::text::str_to_chars(text);
        let collapsed = collapse_newlines_chars(&v);
        crate::text::chars_to_string(&collapsed)
    }

    /// Strip trailing spaces and tabs from every line.
    pub fn trim_all_lines(&self, text: &str) -> (r: String)
        ensures
            r@ == trim_lines(text@),
    {
        let v = crate::text::str_to_chars(text);
        let trimmed = trim_lines_chars(&v);
        crate::text::chars_to_string(&trimmed)
    }
}

impl Default for CitationRemover {
    /// The default remover runs every stage.
    fn default() -> (r: Self)
        ensures
            r@ == RemoverConfig::spec_default(),
    {
        CitationRemover::new()
    }
}

} // verus!
