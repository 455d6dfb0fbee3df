//! Error type raised by the lexer.

use vstd::prelude::*;

verus! {

/// A lexical failure: an unrecognized character, an unterminated string
/// literal, or a string literal broken by a raw line break.
#[derive(Debug)]
pub struct ScanError {}

impl ScanError {
    pub fn raise() -> (e: ScanError) {
        ScanError {}
    }

    /// A displayable description of the failure.
    pub fn message(&self) -> (m: &'static str)
        ensures
            m@ == "scan error"@,
    {
        "scan error"
    }
}

} // verus!
