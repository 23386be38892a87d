//! Error taxonomy: configuration errors are fatal at startup and reported to
//! the caller; spatial-index inconsistencies are recoverable results that let
//! a tick keep processing the remaining agents.

use vstd::prelude::*;
use crate::grid::CellKey;

verus! {

/// A rejected configuration: the simulation does not start.
#[derive(Clone, Copy, PartialEq, Eq, Structural, Debug)]
pub enum ConfigurationError {
    /// The minimum corner is not strictly below the maximum corner on every
    /// axis.
    InvalidBounds,
    /// Some grid dimension is not positive.
    InvalidDimensions,
}

/// An internal-consistency violation of the spatial index, surfaced as a
/// recoverable error rather than an abort.
#[derive(Clone, Copy, PartialEq, Eq, Structural, Debug)]
pub enum SpatialIndexError {
    /// The cell key lies outside the initialized grid range.
    UnknownCell { key: CellKey },
    /// The agent id was not present in the cell it was to be removed from.
    AgentNotInCell { key: CellKey, id: usize },
}

} // verus!
