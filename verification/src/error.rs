//! The failures the surrounding I/O shell can meet.  The cleaning core is
//! total — every input string maps to an output string — so the library
//! itself never produces one of these; they exist for callers that read
//! and write files around it.  Each variant carries the text of the
//! underlying failure.

use vstd::prelude::*;

verus! {

#[derive(Debug, Clone)]
pub enum CleanerError {
    /// A text-matcher constant was malformed.
    InvalidPattern(String),
    /// Reading or writing failed.
    Io(String),
    /// The input bytes were not valid UTF-8.
    Utf8(String),
}

impl CleanerError {
    /// The text of the underlying failure.
    pub fn message(&self) -> (r: String)
        ensures
            (match self {
                CleanerError::InvalidPattern(m) => r@ == m@,
                CleanerError::Io(m) => r@ == m@,
                CleanerError::Utf8(m) => r@ == m@,
            }),
    {
        match self {
            CleanerError::InvalidPattern(m) => m.clone(),
            CleanerError::Io(m) => m.clone(),
            CleanerError::Utf8(m) => m.clone(),
        }
    }
}

} // verus!
