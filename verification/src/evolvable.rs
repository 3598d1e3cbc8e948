//! The capability set of one candidate solution. The engine consumes this
//! contract and nothing else: it never copies or serializes an individual's
//! genetic content, only reorders and references it, and all randomness in the
//! system is confined to `mutate`.

use vstd::prelude::*;

verus! {

/// One candidate solution in the population, opaque to the engine beyond
/// fitness, mate and mutate.
pub trait Evolvable: Sized + Send + Sync {
    /// The fitness this individual reports, as a mathematical value.
    /// Higher is better.
    spec fn score_spec(&self) -> int;

    /// The offspring that mating `self` with `other` produces. Mating is
    /// deterministic: all randomness in the system is confined to `mutate`.
    spec fn mate_spec(&self, other: Self) -> Self;

    /// Which outcomes this type's random `mutate` can produce from a given
    /// prior value: the relation states what holds of every draw.
    spec fn mutate_rel(pre: Self, post: Self) -> bool;

    /// Report this individual's fitness. Pure and callable any number of
    /// times; implementations should keep it cheap or cache it.
    fn score(&self) -> (r: i64)
        ensures
            r as int == self.score_spec(),
    ;

    /// Combine with `other`, mutating `self` in place; `other` is read-only.
    fn mate(&mut self, other: &Self)
        ensures
            *final(self) == old(self).mate_spec(*other),
    ;

    /// Randomly perturb `self` in place. This is the one source of randomness
    /// in the system.
    fn mutate(&mut self)
        ensures
            Self::mutate_rel(*old(self), *final(self)),
    ;
}

/// Is the type's mate operator fitness-preserving: does the offspring's
/// fitness always lie in the closed interval bounded by the two parents'
/// fitness values?
pub open spec fn mate_preserves_fitness<T: Evolvable>() -> bool {
    forall|a: T, b: T|
        vstd::math::min(a.score_spec(), b.score_spec()) <= (#[trigger] a.mate_spec(b)).score_spec()
            <= vstd::math::max(a.score_spec(), b.score_spec())
}

/// Does the type's mutate operator never lower fitness, whatever it draws?
pub open spec fn mutate_nondecreasing<T: Evolvable>() -> bool {
    forall|pre: T, post: T|
        #[trigger] T::mutate_rel(pre, post) ==> post.score_spec() >= pre.score_spec()
}

/// The fitness snapshot of a population: entry `i` is slot `i`'s fitness.
pub open spec fn snap<T: Evolvable>(pop: Seq<T>) -> Seq<int> {
    pop.map_values(|x: T| x.score_spec())
}

} // verus!
