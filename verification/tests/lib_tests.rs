use markdown_ai_cite_remove::remove_citations;

#[test]
fn test_remove_basic() {
    let input = "Text[1] here[2].";
    let expected = "Text here.";
    assert_eq!(remove_citations(input), expected);
}

#[test]
fn test_remove_with_references() {
    let input = "Content here.\n\n[1]: https://example.com\n[2]: https://test.com";
    let expected = "Content here.";
    assert_eq!(remove_citations(input).trim(), expected);
}

#[test]
fn test_remove_preserves_markdown() {
    let input = "# Heading\n\nSome **bold** text[1] and *italic*[2].\n\n[1]: https://example.com";
    let expected = "# Heading\n\nSome **bold** text and *italic*.";
    assert_eq!(remove_citations(input).trim(), expected);
}

#[test]
fn lib_test_empty_string() {
    assert_eq!(remove_citations(""), "");
}

#[test]
fn lib_test_no_citations() {
    let input = "Just regular markdown text.";
    assert_eq!(remove_citations(input), input);
}
