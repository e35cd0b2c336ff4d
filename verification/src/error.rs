//! What a caller can be told went wrong. Nothing of it stops the simulation:
//! the same operations exist in a form that skips what cannot be done.

use vstd::prelude::*;

verus! {

/// The kinds of failure that the library reports.
#[derive(Clone, Copy, Debug, PartialEq, Eq, Hash, Structural)]
pub enum WorldError {
    /// A mass below zero was given.
    InvalidMass,
    /// No player of the world has the identifier.
    UnknownPlayer,
    /// No entity of the world has the identifier.
    UnknownEntity,
    /// The player has no cell that is old enough to split.
    MitosisNoEligibleCells,
}

} // verus!
