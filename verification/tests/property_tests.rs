use markdown_ai_cite_remove::remove_citations;
use markdown_ai_cite_remove::remove_citations_with_config;
use markdown_ai_cite_remove::CleanerError;
use markdown_ai_cite_remove::RemovalMode;
use markdown_ai_cite_remove::RemoverConfig;

#[test]
fn test_default_pass_is_idempotent() {
    let input = "Text[1] here[2].\n\nMore  prose.\n\n[1]: https://example.com";
    let once = remove_citations(input);
    let twice = remove_citations(&once);
    assert_eq!(twice, once);
}

#[test]
fn test_idempotent_on_plain_prose() {
    let input = "# Title\n\nSome prose with [a link](https://example.com) kept.";
    let once = remove_citations(input);
    let twice = remove_citations(&once);
    assert_eq!(twice, once);
}

#[test]
fn test_output_never_longer_than_input() {
    let samples = vec![
        "",
        "plain",
        "Text[1] here[2].",
        "a  b   c",
        "x\n\n\n\n\ny",
        "Content.\n\n## References\n[1]: https://example.com",
        "[1][2][3]",
        "line \nline\t\n",
    ];
    for input in samples {
        let configs = vec![
            RemoverConfig::new(),
            RemoverConfig::inline_only(),
            RemoverConfig::references_only(),
        ];
        for config in configs {
            let output = remove_citations_with_config(input, config);
            assert!(output.len() <= input.len());
        }
    }
}

#[test]
fn test_boundary_truncates_before_header() {
    let input = "Intro line.\nSecond line.\n## References\n[1]: https://a.example\n[2]: https://b.example";
    let config = RemoverConfig {
        remove_inline_citations: false,
        remove_reference_links: true,
        remove_reference_headers: true,
        remove_reference_entries: true,
        normalize_whitespace: false,
        remove_blank_lines: false,
        trim_lines: false,
    };
    let output = remove_citations_with_config(input, config);
    assert_eq!(output, "Intro line.\nSecond line.");
}

#[test]
fn test_header_case_insensitive() {
    let input = "Content.\n\n## references\n[1]: https://example.com";
    assert_eq!(remove_citations(input).trim(), "Content.");
}

#[test]
fn test_header_with_trailing_blanks() {
    let input = "Content.\n\n## References   \n[1]: https://example.com";
    assert_eq!(remove_citations(input).trim(), "Content.");
}

#[test]
fn test_seven_hashes_is_no_header() {
    let input = "Content.\n####### References";
    assert_eq!(remove_citations(input), "Content.\n####### References");
}

#[test]
fn test_keyword_must_match_exactly() {
    let input = "See[table:2] and[eq:3-b] here, but not [sources:1].";
    assert_eq!(remove_citations(input), "See and here, but not [sources:1].");
}

#[test]
fn test_inline_only_keeps_blank_lines() {
    let config = RemoverConfig::inline_only();
    let input = "A[1]\n\n\n\nB";
    let output = remove_citations_with_config(input, config);
    assert_eq!(output, "A\n\n\n\nB");
}

#[test]
fn test_references_only_collapses_blank_lines() {
    let config = RemoverConfig::references_only();
    let input = "A[1]\n\n\n\nB";
    let output = remove_citations_with_config(input, config);
    assert_eq!(output, "A[1]\n\nB");
}

#[test]
fn test_error_messages_carry_text() {
    let err = CleanerError::Io(String::from("file not found"));
    assert_eq!(err.message(), "file not found");
    let err = CleanerError::Utf8(String::from("bad byte"));
    assert_eq!(err.message(), "bad byte");
    let err = CleanerError::InvalidPattern(String::from("unbalanced"));
    assert_eq!(err.message(), "unbalanced");
}

#[test]
fn test_removal_modes_are_distinct() {
    assert!(RemovalMode::All != RemovalMode::InlineOnly);
    assert!(RemovalMode::InlineOnly != RemovalMode::ReferencesOnly);
    assert_eq!(RemovalMode::All, RemovalMode::All);
}

#[test]
fn test_word_bracket_lines_are_preserved() {
    // Lines opening with a bracketed word are ordinary Markdown, not
    // reference-section boundaries.
    let input = "[alpha] prose text";
    assert_eq!(remove_citations(input), input);

    let input = "Content.\n[a](https://x)";
    assert_eq!(remove_citations(input), input);

    // A numeric marker in the same place still opens the section.
    let input = "Content.\n[1](https://x)";
    assert_eq!(remove_citations(input), "Content.");
}

#[test]
fn test_crlf_input_is_handled() {
    let input = "Content here.\r\nMore text[1].\r\n\r\n[1]: https://example.com";
    let cleaned = remove_citations(input);
    assert!(cleaned.contains("Content here."));
    assert!(cleaned.contains("More text."));
    assert!(!cleaned.contains("https://example.com"));
}
