use vstd::prelude::*;

verus! {

/// What the checked layer reports when an operation cannot be done.
#[derive(Debug, Clone, Copy, PartialEq, Eq, Structural)]
pub enum Error {
    /// A size or an offset lies beyond the allowed limit.
    OutOfBounds,
    /// An offset falls inside the encoding of a character.
    Utf8,
}

} // verus!
