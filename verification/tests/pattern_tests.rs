use markdown_ai_cite_remove::patterns::has_inline_citation;
use markdown_ai_cite_remove::patterns::line_is_reference_definition;
use markdown_ai_cite_remove::patterns::line_is_reference_entry;
use markdown_ai_cite_remove::patterns::line_is_reference_header;

#[test]
fn test_inline_citations_numeric() {
    assert!(has_inline_citation("[1]"));
    assert!(has_inline_citation("[123]"));
    assert!(!has_inline_citation("[abc]"));
    assert!(!has_inline_citation("[]"));
}

#[test]
fn test_inline_citations_footnote_style() {
    // Simple footnotes
    assert!(has_inline_citation("[^1]"));
    assert!(has_inline_citation("[^note]"));

    // Footnotes with underscores
    assert!(has_inline_citation("[^1_1]"));
    assert!(has_inline_citation("[^1_23]"));
    assert!(has_inline_citation("[^2_1]"));

    // Footnotes with hyphens
    assert!(has_inline_citation("[^section-1]"));
    assert!(has_inline_citation("[^note-main]"));
}

#[test]
fn test_inline_citations_named() {
    assert!(has_inline_citation("[source:1]"));
    assert!(has_inline_citation("[ref:2]"));
    assert!(has_inline_citation("[cite:3]"));
    assert!(has_inline_citation("[note:4]"));
    assert!(has_inline_citation("[fig:1]"));
    assert!(!has_inline_citation("[other:1]"));
}

#[test]
fn test_reference_definitions_standard() {
    assert!(line_is_reference_definition("[1]: https://example.com"));
    assert!(line_is_reference_definition("[2] https://example.com"));
    assert!(line_is_reference_definition("[123]: https://example.com \"Title\""));
}

#[test]
fn test_reference_definitions_footnote() {
    // Simple footnote definitions
    assert!(line_is_reference_definition("[^1]: Some text"));
    assert!(line_is_reference_definition("[^note]: Description"));

    // Footnote definitions with underscores
    assert!(line_is_reference_definition("[^1_1]: https://example.com"));
    assert!(line_is_reference_definition("[^1_23]: https://example.com/page"));
    assert!(line_is_reference_definition("[^2_1]: Some reference text"));
}

#[test]
fn test_reference_definitions_markdown_link() {
    assert!(line_is_reference_definition("[1](https://example.com)"));
    assert!(line_is_reference_definition("[123](https://example.com/page)"));

    // Footnote-style markdown links
    assert!(line_is_reference_definition("[^1_1](https://example.com)"));
    assert!(line_is_reference_definition("[^2_5](https://example.com/page)"));
}

#[test]
fn test_reference_header_pattern() {
    assert!(line_is_reference_header("## References"));
    assert!(line_is_reference_header("# Citations"));
    assert!(line_is_reference_header("### Sources"));
    assert!(line_is_reference_header("#### Bibliography"));
    assert!(!line_is_reference_header("## Other Section"));
}

#[test]
fn test_reference_entry_pattern() {
    assert!(line_is_reference_entry("[1] Author, A. (2024). Title."));
    assert!(line_is_reference_entry("[^1] Some reference text"));
    assert!(line_is_reference_entry("[^1_1] Reference with underscore"));
}

#[test]
fn test_word_brackets_are_no_reference_lines() {
    // Without a caret, only digits may stand in the bracket: a bracketed
    // word opens no reference line.
    assert!(!line_is_reference_entry("[alpha] prose text"));
    assert!(!line_is_reference_definition("[alpha] prose text"));
    assert!(!line_is_reference_definition("[alpha](https://example.com)"));
    assert!(!line_is_reference_definition("[a](https://x)"));
    assert!(line_is_reference_definition("[12](https://example.com)"));
    assert!(line_is_reference_definition("[^note](https://example.com)"));
    assert!(line_is_reference_entry("[^note] still an entry"));
}
