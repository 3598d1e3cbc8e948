//! A spatial, in-place genetic-algorithm evolution engine.
//!
//! A population of candidate solutions sits on a fixed one-dimensional ring:
//! slot `i`'s neighbors are `(i + n - 1) % n` and `(i + 1) % n`. Each
//! generation, every slot compares its fitness with its two neighbors; a slot
//! that is a local minimum (no neighbor is strictly worse) is replaced by
//! mating it with its better neighbor and then mutating it. The engine is
//! generic over the representation of an individual and never inspects genome
//! content, only an opaque integer fitness score.

pub mod chunks;
pub mod engine;
pub mod errors;
pub mod ev_num;
pub mod evolvable;
pub mod organisms;
mod parallel;
pub mod policy;
mod random;
pub mod reduce;
pub mod topology;

pub use engine::Evolver;
pub use errors::EvolveError;
pub use ev_num::EvNum;
pub use evolvable::Evolvable;
