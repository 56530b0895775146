//! Invocation arguments, as plain values. The surrounding binary parses
//! the command line and hands them over in this form.

use vstd::prelude::*;

verus! {

/// What an invocation asks for: the book file to open, an optional
/// zero-indexed starting chapter, and whether to report verbosely.
#[derive(Debug, Clone, PartialEq, Eq)]
pub struct CliArgs {
    /// Book file to open.
    pub filename: String,
    /// Start at a specific chapter (zero-indexed).
    pub chapter: Option<usize>,
    /// Enable verbose output.
    pub verbose: bool,
}

} // verus!
