//! Configuration for the removal pipeline: one flag per stage.

use vstd::prelude::*;

verus! {

/// Configuration options for citation removal
#[derive(Debug, Clone)]
pub struct RemoverConfig {
    /// Remove inline citations like `[1][2]`
    pub remove_inline_citations: bool,
    /// Remove reference link lists at bottom
    pub remove_reference_links: bool,
    /// Remove reference section headers (`## References`)
    pub remove_reference_headers: bool,
    /// Remove full bibliographic entries
    pub remove_reference_entries: bool,
    /// Normalize whitespace after removal
    pub normalize_whitespace: bool,
    /// Remove blank lines left by removed sections
    pub remove_blank_lines: bool,
    /// Trim trailing whitespace from lines
    pub trim_lines: bool,
}

impl RemoverConfig {
    /// The default configuration: every stage enabled.
    pub open spec fn spec_default() -> RemoverConfig {
        RemoverConfig {
            remove_inline_citations: true,
            remove_reference_links: true,
            remove_reference_headers: true,
            remove_reference_entries: true,
            normalize_whitespace: true,
            remove_blank_lines: true,
            trim_lines: true,
        }
    }

    /// The preset that touches inline citations only: no reference-section
    /// removal and no blank-line collapsing.
    pub open spec fn spec_inline_only() -> RemoverConfig {
        RemoverConfig {
            remove_inline_citations: true,
            remove_reference_links: false,
            remove_reference_headers: false,
            remove_reference_entries: false,
            normalize_whitespace: true,
            remove_blank_lines: false,
            trim_lines: true,
        }
    }

    /// The preset that removes reference sections only: inline citations
    /// are kept.
    pub open spec fn spec_references_only() -> RemoverConfig {
        RemoverConfig {
            remove_inline_citations: false,
            remove_reference_links: true,
            remove_reference_headers: true,
            remove_reference_entries: true,
            normalize_whitespace: true,
            remove_blank_lines: true,
            trim_lines: true,
        }
    }

    /// Create a new configuration with all features enabled
    pub fn new() -> (r: Self)
        ensures
            r == RemoverConfig::spec_default(),
    {
        RemoverConfig {
            remove_inline_citations: true,
            remove_reference_links: true,
            remove_reference_headers: true,
            remove_reference_entries: true,
            normalize_whitespace: true,
            remove_blank_lines: true,
            trim_lines: true,
        }
    }

    /// Create a configuration that only removes inline citations
    pub fn inline_only() -> (r: Self)
        ensures
            r == RemoverConfig::spec_inline_only(),
    {
        RemoverConfig {
            remove_inline_citations: true,
            remove_reference_links: false,
            remove_reference_headers: false,
            remove_reference_entries: false,
            normalize_whitespace: true,
            remove_blank_lines: false,
            trim_lines: true,
        }
    }

    /// Create a configuration that only removes reference sections
    pub fn references_only() -> (r: Self)
        ensures
            r == RemoverConfig::spec_references_only(),
    {
        RemoverConfig {
            remove_inline_citations: false,
            remove_reference_links: true,
            remove_reference_headers: true,
            remove_reference_entries: true,
            normalize_whitespace: true,
            remove_blank_lines: true,
            trim_lines: true,
        }
    }
}

impl Default for RemoverConfig {
    /// The default configuration enables every stage.
    fn default() -> (r: Self)
        ensures
            r == RemoverConfig::spec_default(),
    {
        RemoverConfig::new()
    }
}

/// Mode for handling different citation styles
#[derive(Debug, Clone, Copy, PartialEq, Eq, Structural)]
pub enum RemovalMode {
    /// Remove all citation types
    All,
    /// Remove only inline citations, keep reference lists
    InlineOnly,
    /// Remove only reference lists, keep inline citations
    ReferencesOnly,
}

} // verus!
