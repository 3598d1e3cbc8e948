//! A toy individual whose genetic content is solely its fitness score. It
//! exists to exercise the engine and the reductions: mating moves the score
//! to the midpoint of the two parents' scores (so its mate operator is
//! fitness-preserving), and mutation nudges the score by at most one step in
//! either direction, four times out of five.

use vstd::prelude::*;
use crate::evolvable::{Evolvable, mate_preserves_fitness, mutate_nondecreasing};
use crate::organisms::Organism;
use crate::random::random_index;

verus! {

/// The midpoint of two scores, rounding toward the smaller one.
pub open spec fn midpoint_spec(a: int, b: int) -> int {
    vstd::math::min(a, b) + (vstd::math::max(a, b) - vstd::math::min(a, b)) / 2
}

/// An individual whose content is solely its fitness score.
#[derive(Clone, Copy, Debug, PartialEq, Eq, Structural)]
pub struct EvNum(pub i64);

impl Evolvable for EvNum {
    open spec fn score_spec(&self) -> int {
        self.0 as int
    }

    open spec fn mate_spec(&self, other: Self) -> Self {
        EvNum(midpoint_spec(self.0 as int, other.0 as int) as i64)
    }

    /// Every draw moves the score by at most one step.
    open spec fn mutate_rel(pre: Self, post: Self) -> bool {
        pre.0 - 1 <= post.0 <= pre.0 + 1
    }

    fn score(&self) -> (r: i64) {
        self.0
    }

    /// Move to the midpoint of the two parents' scores, rounding toward the
    /// weaker parent.
    fn mate(&mut self, other: &Self) {
        self.0 = midpoint(self.0, other.0);
    }

    /// Four times out of five, nudge the score one step up or down (or leave
    /// it, on the middle draw); saturate at the score type's bounds.
    fn mutate(&mut self) {
        nudge(self);
    }
}

impl Organism for EvNum {
    open spec fn fitness_spec(&self) -> int {
        self.0 as int
    }

    open spec fn cross_over_spec(&self, parent1: Self, parent2: Self) -> Self {
        EvNum(midpoint_spec(parent1.0 as int, parent2.0 as int) as i64)
    }

    /// Every draw moves the score by at most one step.
    open spec fn mutate_rel(pre: Self, post: Self) -> bool {
        pre.0 - 1 <= post.0 <= pre.0 + 1
    }

    fn calculate_fitness(&self) -> (r: i64) {
        self.0
    }

    /// Become the midpoint of the two parents' scores, rounding toward the
    /// weaker parent; the prior content plays no part.
    fn cross_over(&mut self, parent1: &Self, parent2: &Self) {
        self.0 = midpoint(parent1.0, parent2.0);
    }

    /// As the ring-engine mutation: a one-step nudge, four times out of five.
    fn mutate(&mut self) {
        nudge(self);
    }
}

/// A deterministic individual: mating moves to the midpoint of the parents'
/// scores (fitness-preserving) and mutation leaves the score alone (so it
/// never lowers fitness). With it, one generation of the engine is exactly
/// reproducible, and both conditions of the engine's non-regression guarantee
/// hold.
#[derive(Clone, Copy, Debug, PartialEq, Eq, Structural)]
pub struct SteadyNum(pub i64);

impl Evolvable for SteadyNum {
    open spec fn score_spec(&self) -> int {
        self.0 as int
    }

    open spec fn mate_spec(&self, other: Self) -> Self {
        SteadyNum(midpoint_spec(self.0 as int, other.0 as int) as i64)
    }

    /// The degenerate perturbation: the value never moves.
    open spec fn mutate_rel(pre: Self, post: Self) -> bool {
        post == pre
    }

    fn score(&self) -> (r: i64) {
        self.0
    }

    /// Move to the midpoint of the two parents' scores, rounding toward the
    /// weaker parent.
    fn mate(&mut self, other: &Self) {
        self.0 = midpoint(self.0, other.0);
    }

    /// Leave the score alone: this individual's perturbation is degenerate.
    fn mutate(&mut self) {
    }
}

/// The midpoint of two scores lies in the closed interval they bound.
pub proof fn lemma_midpoint_in_interval(a: int, b: int)
    ensures
        vstd::math::min(a, b) <= midpoint_spec(a, b) <= vstd::math::max(a, b),
{
    let lo = vstd::math::min(a, b);
    let hi = vstd::math::max(a, b);
    vstd::arithmetic::div_mod::lemma_div_pos_is_pos(hi - lo, 2);
    vstd::arithmetic::div_mod::lemma_div_nonincreasing(hi - lo, 2);
}

/// `EvNum`'s mate operator is fitness-preserving: the engine's non-regression
/// clauses apply to it whenever its one-step mutate can be bounded.
pub proof fn lemma_ev_num_mate_preserves_fitness()
    ensures
        mate_preserves_fitness::<EvNum>(),
{
    assert forall|x: EvNum, y: EvNum|
        vstd::math::min(x.score_spec(), y.score_spec()) <= (
        #[trigger] x.mate_spec(y)).score_spec() <= vstd::math::max(
            x.score_spec(),
            y.score_spec(),
        ) by {
        lemma_midpoint_in_interval(x.0 as int, y.0 as int);
    }
}

/// `SteadyNum`'s operators satisfy both hypotheses of the engine's
/// non-regression guarantee: its mate is fitness-preserving and its mutate
/// never lowers fitness.
pub proof fn lemma_steady_num_non_regressive()
    ensures
        mate_preserves_fitness::<SteadyNum>(),
        mutate_nondecreasing::<SteadyNum>(),
{
    assert forall|x: SteadyNum, y: SteadyNum|
        vstd::math::min(x.score_spec(), y.score_spec()) <= (
        #[trigger] x.mate_spec(y)).score_spec() <= vstd::math::max(
            x.score_spec(),
            y.score_spec(),
        ) by {
        lemma_midpoint_in_interval(x.0 as int, y.0 as int);
    }
}

/// The midpoint of two scores, rounding toward the smaller one.
fn midpoint(a: i64, b: i64) -> (r: i64)
    ensures
        r as int == midpoint_spec(a as int, b as int),
{
    let x = a as i128;
    let y = b as i128;
    let lo = if x <= y {
        x
    } else {
        y
    };
    let hi = if x <= y {
        y
    } else {
        x
    };
    let d = ((hi - lo) as u128) / 2;
    proof {
        vstd::arithmetic::div_mod::lemma_div_nonincreasing(hi - lo, 2);
        vstd::arithmetic::div_mod::lemma_div_pos_is_pos(hi - lo, 2);
    }
    (lo + d as i128) as i64
}

/// Nudge the score one step up or down (or leave it, on the middle draw),
/// four times out of five; saturate at the score type's bounds.
fn nudge(e: &mut EvNum)
    ensures
        old(e).0 - 1 <= final(e).0 <= old(e).0 + 1,
{
    if random_index(5) >= 1 {
        let d = random_index(3);
        if d == 0 {
            if e.0 > i64::MIN {
                e.0 = e.0 - 1;
            }
        } else if d == 2 {
            if e.0 < i64::MAX {
                e.0 = e.0 + 1;
            }
        }
    }
}

} // verus!
