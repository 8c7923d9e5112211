//! Error values surfaced to callers of the encoding core.

use vstd::prelude::*;

verus! {

/// A recoverable, input-dependent error of the parameter and media-type
/// encoders: a header or parameter name failed the token grammar.
#[derive(Debug, PartialEq, Eq)]
pub enum ComponentError {
    InvalidToken(String),
}

/// Reported by `quote_if_needed` when the value cannot be represented as a
/// (possibly quoted) string under the requested transport profile, so the
/// caller must fall back to percent encoding.
#[derive(Clone, Copy, Debug, PartialEq, Eq, Structural)]
pub struct NotRepresentable;

} // verus!
