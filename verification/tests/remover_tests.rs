use markdown_ai_cite_remove::CitationRemover;
use markdown_ai_cite_remove::RemoverConfig;

#[test]
fn remover_test_remove_inline_numeric() {
    let remover = CitationRemover::new();
    let input = "Text[1] with[2] citations[3].";
    let result = remover.remove_inline_citations(input);
    assert_eq!(result, "Text with citations.");
}

#[test]
fn remover_test_remove_inline_named() {
    let remover = CitationRemover::new();
    let input = "Text[source:1] with[ref:2] citations.";
    let result = remover.remove_inline_citations(input);
    assert_eq!(result, "Text with citations.");
}

#[test]
fn remover_test_normalize_whitespace() {
    let remover = CitationRemover::new();
    let input = "Text  with    multiple     spaces.";
    let result = remover.normalize_whitespace(input);
    assert_eq!(result, "Text with multiple spaces.");
}

#[test]
fn remover_test_remove_excessive_blank_lines() {
    let remover = CitationRemover::new();
    let input = "Line 1\n\n\n\n\nLine 2";
    let result = remover.remove_excessive_blank_lines(input);
    assert_eq!(result, "Line 1\n\nLine 2");
}

#[test]
fn remover_test_trim_all_lines() {
    let remover = CitationRemover::new();
    let input = "Line 1   \nLine 2  \nLine 3 ";
    let result = remover.trim_all_lines(input);
    assert_eq!(result, "Line 1\nLine 2\nLine 3");
}

#[test]
fn remover_test_remove_reference_sections_with_header() {
    let remover = CitationRemover::new();
    let input = "Content here.\n\n## References\n[1]: https://example.com";
    let result = remover.remove_reference_sections(input);
    assert_eq!(result.trim(), "Content here.");
}

#[test]
fn remover_test_remove_reference_sections_without_header() {
    let remover = CitationRemover::new();
    let input = "Content here.\n\n[1]: https://example.com\n[2]: https://test.com";
    let result = remover.remove_reference_sections(input);
    assert_eq!(result.trim(), "Content here.");
}

#[test]
fn remover_test_custom_config() {
    let config = RemoverConfig {
        remove_inline_citations: true,
        remove_reference_links: false,
        remove_reference_headers: false,
        remove_reference_entries: false,
        normalize_whitespace: false,
        remove_blank_lines: false,
        trim_lines: false,
    };
    let remover = CitationRemover::with_config(config);
    let input = "Text[1].\n\n[1]: https://example.com";
    let result = remover.remove(input);
    assert!(!result.contains("[1]"));
    assert!(result.contains("https://example.com"));
}

#[test]
fn remover_test_full_pipeline() {
    let remover = CitationRemover::new();
    let input = "Text[1]  with   spaces.\n\n\n\n## References\n[1]: https://example.com";
    let result = remover.remove(input);
    assert!(!result.contains("[1]"));
    assert!(!result.contains("https://example.com"));
    assert!(!result.contains("  "));
    assert!(!result.contains("\n\n\n"));
}

#[test]
fn test_cleaner_reusability() {
    let remover = CitationRemover::new();

    let input1 = "Text[1].";
    let input2 = "More[2].";
    let input3 = "Final[3].";

    assert_eq!(remover.remove(input1), "Text.");
    assert_eq!(remover.remove(input2), "More.");
    assert_eq!(remover.remove(input3), "Final.");
}
