//! The traversal state threaded through every nested decode call: the
//! current nesting depth and the one-shot "the next token is a map value"
//! flag.

use vstd::prelude::*;

verus! {

/// The defensive bound on nesting depth: a document that nests deeper
/// aborts with a dedicated error instead of growing without limit.
pub const MAX_DEPTH: usize = 1024;

/// The shared traversal context. `depth` counts the unmatched open
/// elements on the path from the document root; `map_value` marks that the
/// next token is positioned as a field's value, not a key.
pub struct DeserializerState {
    pub depth: usize,
    pub map_value: bool,
}

impl DeserializerState {
    /// A fresh state at the document root: no open elements, no pending
    /// value position.
    pub fn new() -> (s: DeserializerState)
        ensures
            s.depth == 0,
            !s.map_value,
    {
        DeserializerState { depth: 0, map_value: false }
    }

    /// Mark that the next token is a value.
    pub fn set_map_value(&mut self)
        ensures
            final(self).depth == old(self).depth,
            final(self).map_value,
    {
        self.map_value = true;
    }

    /// Clear the one-shot value flag and report whether it was set.
    pub fn unset_map_value(&mut self) -> (was: bool)
        ensures
            final(self).depth == old(self).depth,
            !final(self).map_value,
            was == old(self).map_value,
    {
        let was = self.map_value;
        self.map_value = false;
        was
    }
}

} // verus!
