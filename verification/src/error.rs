//! The decode errors the pipeline reports. A source failure is fatal and
//! carries the tokenizer's message; the structural errors name the
//! mismatch that aborted the decode.

use vstd::prelude::*;

verus! {

/// Why a decode step failed.
#[derive(Debug, PartialEq)]
pub enum Error {
    /// The underlying tokenizer failed: malformed markup.
    Syntax(String),
    /// An event appeared where the grammar of the requested shape does not
    /// allow it (for instance, a discriminant position holding neither
    /// character data nor a start-tag).
    UnexpectedToken,
    /// A unit variant's element carried attributes; holds the offending
    /// attribute count.
    InvalidLength(usize),
    /// The document ended in the middle of an element.
    UnexpectedEof,
    /// A sequence of mixed discriminants (out-of-order sibling variants)
    /// was requested; such sequences are not supported.
    Unsupported,
    /// The document nests deeper than the defensive bound.
    DepthLimitExceeded,
}

} // verus!
