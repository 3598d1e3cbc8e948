//! An alternative, non-spatial strategy: the weaker half of the population is
//! re-bred from randomly chosen parents of the stronger half, every member is
//! re-ranked by fitness, and the population ends sorted ascending by fitness.
//! Unlike the ring engine, this strategy has no topology: parent choice is
//! random, and order encodes rank rather than adjacency.

use vstd::prelude::*;
use rayon::iter::{
    IndexedParallelIterator, IntoParallelRefIterator, IntoParallelRefMutIterator,
    ParallelIterator,
};
use rayon::slice::ParallelSliceMut;
use crate::random::random_index;

verus! {

/// One candidate solution for the rank-based strategy: it reports a fitness,
/// is re-bred from two parents, and mutates in place.
pub trait Organism: Sized + Send + Sync {
    /// The fitness this individual reports, as a mathematical value. Higher
    /// is better.
    spec fn fitness_spec(&self) -> int;

    /// The offspring that breeding the two parents produces in place of
    /// `self`. Breeding is deterministic: randomness is confined to `mutate`
    /// and to the strategy's choice of parents.
    spec fn cross_over_spec(&self, parent1: Self, parent2: Self) -> Self;

    /// Which outcomes this type's random `mutate` can produce from a given
    /// prior value: the relation states what holds of every draw.
    spec fn mutate_rel(pre: Self, post: Self) -> bool;

    /// Calculate and return a fitness score. May be called many times, so
    /// implementations should keep it cheap or cached.
    fn calculate_fitness(&self) -> (r: i64)
        ensures
            r as int == self.fitness_spec(),
    ;

    /// Replace `self`'s content by breeding the two parents.
    fn cross_over(&mut self, parent1: &Self, parent2: &Self)
        ensures
            *final(self) == old(self).cross_over_spec(*parent1, *parent2),
    ;

    /// Randomly perturb `self` in place.
    fn mutate(&mut self)
        ensures
            Self::mutate_rel(*old(self), *final(self)),
    ;
}

/// Is the population ordered ascending by reported fitness?
pub open spec fn sorted_by_fitness<T: Organism>(s: Seq<T>) -> bool {
    forall|i: int, j: int|
        0 <= i <= j < s.len() ==> s[i].fitness_spec() <= s[j].fitness_spec()
}

/// Does slot `j` of `mid` hold an outcome of mutating the offspring bred
/// from two members of `pre`'s stronger half? Which two is the strategy's
/// random choice, so only their existence is owed.
pub open spec fn bred_slot_ok<T: Organism>(pre: Seq<T>, mid: Seq<T>, j: int) -> bool {
    let len = pre.len() as int;
    let half = len / 2;
    exists|a: int, b: int|
        half <= a < len && half <= b < len && T::mutate_rel(
            #[trigger] pre[j].cross_over_spec(pre[a], pre[b]),
            mid[j],
        )
}

/// Did one breeding pass take `pre` to `mid`? The stronger half is untouched,
/// and every slot of the weaker half holds an outcome of mutating the
/// offspring bred from two members of the stronger half.
pub open spec fn bred_from<T: Organism>(pre: Seq<T>, mid: Seq<T>) -> bool {
    let len = pre.len() as int;
    let half = len / 2;
    &&& mid.len() == pre.len()
    &&& forall|j: int| half <= j < len ==> mid[j] == pre[j]
    &&& forall|j: int| 0 <= j < half ==> bred_slot_ok(pre, mid, j)
}

/// Order two organisms ascending by their reported fitness.
pub fn fitness_ordering<T: Organism>(a: &T, b: &T) -> (r: core::cmp::Ordering)
    ensures
        r == core::cmp::Ordering::Less <==> a.fitness_spec() < b.fitness_spec(),
        r == core::cmp::Ordering::Equal <==> a.fitness_spec() == b.fitness_spec(),
        r == core::cmp::Ordering::Greater <==> a.fitness_spec() > b.fitness_spec(),
{
    let fa = a.calculate_fitness();
    let fb = b.calculate_fitness();
    if fa < fb {
        core::cmp::Ordering::Less
    } else if fa == fb {
        core::cmp::Ordering::Equal
    } else {
        core::cmp::Ordering::Greater
    }
}

/// Relies on `<[T]>::sort_unstable_by`: sorts in place by the comparator, so
/// the result is a permutation of the input ordered by the reported fitness.
#[verifier::external_body]
fn sort_by_fitness<T: Organism>(v: &mut Vec<T>)
    ensures
        final(v)@.to_multiset() == old(v)@.to_multiset(),
        final(v)@.len() == old(v)@.len(),
        sorted_by_fitness(final(v)@),
{
    v.sort_unstable_by(|a, b| fitness_ordering(a, b));
}

/// Relies on rayon's `par_sort_unstable_by`: as `sort_unstable_by`, with the
/// work shared among the worker threads.
#[verifier::external_body]
fn par_sort_by_fitness<T: Organism>(v: &mut Vec<T>)
    ensures
        final(v)@.to_multiset() == old(v)@.to_multiset(),
        final(v)@.len() == old(v)@.len(),
        sorted_by_fitness(final(v)@),
{
    v.par_sort_unstable_by(|a, b| fitness_ordering(a, b));
}

/// Relies on `<[T]>::split_at_mut` and rayon's parallel zipped `for_each`:
/// task `j` of the weaker half breeds its own slot from the given parents of
/// the stronger half (`pairs[j]` indexes into the stronger half) and mutates
/// it, so the tasks' write targets are pairwise disjoint and the stronger
/// half is only read.
#[verifier::external_body]
fn par_cross<T: Organism>(pop: &mut Vec<T>, half: usize, pairs: &Vec<(usize, usize)>)
    requires
        half == old(pop)@.len() / 2,
        pairs@.len() == half,
        forall|k: int|
            0 <= k < pairs@.len() ==> (#[trigger] pairs@[k]).0 < old(pop)@.len() - half
                && pairs@[k].1 < old(pop)@.len() - half,
    ensures
        final(pop)@.len() == old(pop)@.len(),
        forall|j: int|
            half <= j < old(pop)@.len() ==> (#[trigger] final(pop)@[j]) == old(pop)@[j],
        forall|j: int|
            0 <= j < half ==> T::mutate_rel(
                #[trigger] old(pop)@[j].cross_over_spec(
                    old(pop)@[half + pairs@[j].0],
                    old(pop)@[half + pairs@[j].1],
                ),
                final(pop)@[j],
            ),
{
    let (bottom, top) = pop.split_at_mut(half);
    bottom.par_iter_mut().zip(pairs.par_iter()).for_each(
        |(e, p)| {
            e.cross_over(&top[p.0], &top[p.1]);
            e.mutate();
        },
    );
}

/// Re-breed the weaker half of the population from randomly chosen parents of
/// the stronger half, then rank everyone: afterwards the population is sorted
/// ascending by fitness and holds exactly the stronger half plus the new
/// offspring, each offspring a mutated cross-over of two stronger-half
/// members.
pub fn evolve<T: Organism>(population: &mut Vec<T>)
    ensures
        final(population)@.len() == old(population)@.len(),
        sorted_by_fitness(final(population)@),
        exists|mid: Seq<T>|
            (#[trigger] bred_from(old(population)@, mid)) && final(population)@.to_multiset()
                == mid.to_multiset(),
{
    let n = population.len();
    let half = n / 2;
    proof {
        if half >= 1 {
            vstd::arithmetic::div_mod::lemma_div_decreases(n as int, 2);
        }
    }
    let mut i: usize = 0;
    while i < half
        invariant
            i <= half,
            half == n / 2,
            n >= 1 ==> half < n,
            population@.len() == n,
            old(population)@.len() == n,
            forall|j: int| i <= j < n ==> (#[trigger] population@[j]) == old(population)@[j],
            forall|j: int| 0 <= j < i ==> bred_slot_ok(old(population)@, population@, j),
        decreases half - i,
    {
        let p1 = half + random_index(n - half);
        let p2 = half + random_index(n - half);
        let ghost pre = population@;
        let mut cur = population.remove(i);
        proof {
            pre.remove_ensures(i as int);
        }
        cur.cross_over(&population[p1 - 1], &population[p2 - 1]);
        cur.mutate();
        population.insert(i, cur);
        proof {
            pre.remove(i as int).insert_ensures(i as int, cur);
            assert(population@ =~= pre.update(i as int, cur));
            assert(half <= p1 < n && half <= p2 < n);
            assert(T::mutate_rel(
                old(population)@[i as int].cross_over_spec(
                    old(population)@[p1 as int],
                    old(population)@[p2 as int],
                ),
                population@[i as int],
            ));
            assert forall|j: int| 0 <= j < i + 1 implies bred_slot_ok(
                old(population)@,
                population@,
                j,
            ) by {
                if j < i {
                    assert(bred_slot_ok(old(population)@, pre, j));
                    assert(population@[j] == pre[j]);
                }
            }
        }
        i = i + 1;
    }
    let ghost mid = population@;
    sort_by_fitness(population);
    proof {
        assert(bred_from(old(population)@, mid));
    }
}

/// As `evolve`, with the breeding pass and the ranking both shared among the
/// worker threads. The parent draws happen up front, one pair per re-bred
/// slot, so each parallel task owns exactly one slot of the weaker half.
pub fn par_evolve<T: Organism>(population: &mut Vec<T>)
    ensures
        final(population)@.len() == old(population)@.len(),
        sorted_by_fitness(final(population)@),
        exists|mid: Seq<T>|
            (#[trigger] bred_from(old(population)@, mid)) && final(population)@.to_multiset()
                == mid.to_multiset(),
{
    let n = population.len();
    let half = n / 2;
    proof {
        if half >= 1 {
            vstd::arithmetic::div_mod::lemma_div_decreases(n as int, 2);
        }
    }
    let mut pairs: Vec<(usize, usize)> = Vec::new();
    let mut i: usize = 0;
    while i < half
        invariant
            i <= half,
            half == n / 2,
            n >= 1 ==> half < n,
            population@.len() == n,
            old(population)@.len() == n,
            pairs@.len() == i,
            forall|k: int|
                0 <= k < i ==> (#[trigger] pairs@[k]).0 < n - half && pairs@[k].1 < n - half,
        decreases half - i,
    {
        let a = random_index(n - half);
        let b = random_index(n - half);
        pairs.push((a, b));
        i = i + 1;
    }
    par_cross(population, half, &pairs);
    let ghost mid = population@;
    par_sort_by_fitness(population);
    proof {
        assert forall|j: int| 0 <= j < half as int implies bred_slot_ok(
            old(population)@,
            mid,
            j,
        ) by {
            let a = half as int + pairs@[j].0 as int;
            let b = half as int + pairs@[j].1 as int;
            assert(half <= a < n && half <= b < n);
            assert(T::mutate_rel(
                old(population)@[j].cross_over_spec(old(population)@[a], old(population)@[b]),
                mid[j],
            ));
        }
        assert(bred_from(old(population)@, mid));
    }
}

} // verus!
