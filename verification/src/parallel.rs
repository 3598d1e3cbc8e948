//! The engine's bridge to the parallel runtime: the score phase is a parallel
//! map over the population, and the worker count bounds how many tasks may
//! touch the population at once. Both live behind trusted declarations; the
//! logic that consumes their results is verified for every outcome.

use vstd::prelude::*;
use rayon::iter::{IntoParallelRefIterator, ParallelIterator};
use crate::evolvable::Evolvable;

verus! {

/// Relies on `rayon::iter::ParallelIterator::collect` over
/// `par_iter().map(..)`: an indexed parallel map over a vector collects its
/// results in input order, so entry `i` of the result is `pop[i].score()`,
/// computed with no cross-slot dependency.
#[verifier::external_body]
pub(crate) fn par_scores<T: Evolvable>(pop: &Vec<T>) -> (r: Vec<i64>)
    ensures
        r@.len() == pop@.len(),
        forall|i: int| 0 <= i < pop@.len() ==> r@[i] as int == pop@[i].score_spec(),
{
    pop.par_iter().map(|x| x.score()).collect()
}

/// Relies on `num_cpus::get`: the number of available logical CPUs, documented
/// to always be at least one.
#[verifier::external_body]
pub(crate) fn worker_count() -> (r: usize)
    ensures
        1 <= r,
{
    num_cpus::get()
}

} // verus!
