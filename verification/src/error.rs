//! Errors that can appear.

use vstd::prelude::*;

verus! {

/// Game error.
#[derive(Debug, Clone, Copy, PartialEq, Eq, Structural)]
pub enum Error {
    /// Index out of bounds.
    IndexOutOfBounds,
    /// Field already filled at the given column; carries the team that
    /// attempted the move, so a caller can penalize it.
    FieldFullAtColumn(crate::board::Team),
    /// A builder was finalized before all of its players were set.
    BuilderMissingField,
}

} // verus!
