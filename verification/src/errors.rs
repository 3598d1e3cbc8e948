//! Error taxonomy of the engine. Every variant is a local precondition
//! violation, detected before any work on the population starts; no partial
//! evolution is ever committed.

use vstd::prelude::*;

verus! {

/// Why an engine operation refused to run.
#[derive(Clone, Copy, Debug, PartialEq, Eq, Structural)]
pub enum EvolveError {
    /// The population is too small for previous/current/next neighbor
    /// semantics on a ring: fewer than three slots.
    InvalidTopology,
    /// A reduction was asked of a population with no members.
    EmptyPopulation,
    /// The population is too small relative to the available parallel workers
    /// to trust the per-slot write-ownership argument.
    UnsafeConcurrencyConfiguration,
}
} // verus!
