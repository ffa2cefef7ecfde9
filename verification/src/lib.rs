//! A lookahead-buffered XML event pipeline: a root buffer that owns the
//! tokenizer, child views with independent cursors over the same shared
//! queue, and the sequence / tagged-union access objects that use them to
//! decide, event by event, where one value ends and the next begins.
//! Map/struct access — and with it the tuple- and struct-shaped variant
//! payloads — is a collaborator outside this crate.

use vstd::prelude::*;

pub mod buffer;
pub mod de;
pub mod error;
pub mod events;
pub mod seq;
pub mod source;
pub mod state;
pub mod var;

verus! {

/// Relies on `String::push_str`: appends the characters of `other` to `s`.
pub assume_specification[ String::push_str ](s: &mut String, other: &str)
    ensures
        final(s)@ == old(s)@ + other@,
;

} // verus!
