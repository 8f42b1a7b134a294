//! Remove AI-generated citations and annotations from Markdown text.
//!
//! The library deletes inline citation markers such as `[1]`, `[^1_2]` and
//! `[source:3]`, truncates trailing reference sections (`## References`
//! headers, `[1]: https://…` definition lines, bibliography entries), and
//! tidies the whitespace the removals leave behind.  Ordinary Markdown —
//! links `[text](url)`, images `![alt](url)`, emphasis, lists — is kept.
//!
//! Every transformation is specified over the document's character
//! sequence and verified against that specification.

pub mod config;
pub mod error;
pub mod laws;
pub mod patterns;
pub mod remover;
pub mod text;

pub use config::RemovalMode;
pub use config::RemoverConfig;
pub use error::CleanerError;
pub use remover::CitationRemover;

use vstd::prelude::*;

verus! {

/// Main entry point - remove citations from markdown with default settings
pub fn remove_citations(markdown: &str) -> (r: String)
    ensures
        r@ == remover::remove_spec(markdown@, RemoverConfig::spec_default()),
        r@.len() <= markdown@.len(),
{
    CitationRemover::new().remove(markdown)
}

/// Remove citations from markdown with custom configuration
pub fn remove_citations_with_config(markdown: &str, config: RemoverConfig) -> (r: String)
    ensures
        r@ == remover::remove_spec(markdown@, config),
        r@.len() <= markdown@.len(),
{
    CitationRemover::with_config(config).remove(markdown)
}

} // verus!
