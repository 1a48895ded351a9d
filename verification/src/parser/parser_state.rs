//! The grammar state machine for one object body.

use vstd::prelude::*;

verus! {

/// What is expected next while reading one object body.  The state is local
/// to each parsing invocation: a nested object or array starts over at
/// `Idle`, and the enclosing invocation's state is untouched by the
/// recursion.
pub enum ParserState {
    /// Expect a key (or a bare value, or a closer).
    Idle,
    /// A key was read; expect a colon.
    GotName,
    /// A colon was read; expect a value.
    GotColon,
    /// A value was read; expect a comma or a closer.
    GotValue,
}

} // verus!
