//! The failures the library itself decides.
//!
//! Failures of reading or writing streams stay with the caller; the
//! library reports only what the substitution's own rules refuse.

use vstd::prelude::*;

verus! {

/// Why a configured pattern was refused.
#[derive(Debug)]
pub enum PatternError {
    /// The pattern does not compile; carries the compiler's error.
    InvalidRegex(regex::Error),
    /// The pattern compiles but holds no capturing group named `id`.
    MissingIdGroup,
}

/// Why a substitution was aborted.
#[derive(Debug)]
pub enum SubstError {
    /// A match carried no `id` capture although the pattern was validated
    /// to hold one: an internal-consistency defect, not an input condition.
    MissingIdCapture,
    /// A matched identifier resolved to this file path, but no content is
    /// available for it; the whole substitution is abandoned.
    SecretUnreadable(Vec<u8>),
}

} // verus!
