//! The concurrent evolution engine. One `evolve` call runs four strictly
//! ordered phases: score (refresh the fitness cache, in parallel), decide
//! (one verdict per slot against that frozen snapshot), apply (mate and
//! mutate exactly the flagged slots, each task writing only its own slot),
//! and cache sync (re-score the written slots). The decide and apply phases
//! run as one deterministic in-order pass over the ring: that realizes one
//! fixed schedule of the per-slot tasks, whose write targets the policy
//! module proves pairwise disjoint. The chunked variant runs the same phases
//! independently on contiguous chunks and rotates the population by one slot
//! between generations so that chunk-boundary pairs eventually meet.

use vstd::prelude::*;
use crate::errors::EvolveError;
use crate::evolvable::{Evolvable, snap, mate_preserves_fitness, mutate_nondecreasing};
use crate::policy::{
    score_seq, replaceable_in, mate_choice_in, plan_matches, decision_matches, decide_range,
};
use crate::topology::lemma_neighbors_distinct;
use crate::parallel::{par_scores, worker_count};
use crate::chunks::{valid_chunking, chunk_size, chunk_lo, chunk_hi, lemma_chunk_bounds};
use crate::reduce::{sum_of, lemma_sum_pointwise_le, lemma_sum_rotl1};

verus! {

/// A population on a ring, together with its fitness cache.
pub struct Evolver<T: Evolvable> {
    scores: Vec<i64>,
    population: Vec<T>,
}

/// A cyclic left rotation by one slot.
pub open spec fn rotl1<A>(s: Seq<A>) -> Seq<A> {
    s.subrange(1, s.len() as int).push(s[0])
}

/// The mate value slot `i`'s apply task observes under the engine's in-order
/// schedule: slots are applied in increasing index order and each is written
/// at most once, so a chosen mate earlier on the ring is seen in its evolved
/// state, and one later on the ring in its pre-step state.
pub open spec fn partner_of<T: Evolvable>(
    pre: Seq<T>,
    post: Seq<T>,
    snap0: Seq<int>,
    lo: int,
    hi: int,
    i: int,
) -> T {
    let m = mate_choice_in(snap0, lo, hi, i);
    if m < i {
        post[m]
    } else {
        pre[m]
    }
}

/// What one generation owes slot `i` of the ring `[lo, hi)` under the frozen
/// snapshot `snap0`: a slot the decide phase did not flag is untouched, and a
/// flagged slot holds an outcome of mutating the offspring of its pre-step
/// value and its chosen mate's observed value.
pub open spec fn slot_outcome_ok<T: Evolvable>(
    pre: Seq<T>,
    post: Seq<T>,
    snap0: Seq<int>,
    lo: int,
    hi: int,
    i: int,
) -> bool {
    if replaceable_in(snap0, lo, hi, i) {
        T::mutate_rel(pre[i].mate_spec(partner_of(pre, post, snap0, lo, hi, i)), post[i])
    } else {
        post[i] == pre[i]
    }
}

/// What one chunked generation owes slot `i` before the boundary rotation:
/// the slot's outcome obligation on its own chunk's ring, decided against the
/// pre-step fitness snapshot.
pub open spec fn chunk_slot_ok<T: Evolvable>(pre: Seq<T>, mid: Seq<T>, size: int, i: int) -> bool {
    slot_outcome_ok(
        pre,
        mid,
        snap(pre),
        chunk_lo(i, size),
        chunk_hi(i, pre.len() as int, size),
        i,
    )
}

/// Did one chunked generation step take `pre` to `mid` (before the boundary
/// rotation)? Every slot meets its own chunk's outcome obligation — flagged
/// slots bred and mutated, others untouched — and under a fitness-preserving
/// mate operator and a non-lowering mutate operator no slot's fitness drops.
pub open spec fn chunked_step_ok<T: Evolvable>(pre: Seq<T>, mid: Seq<T>, size: int) -> bool {
    let len = pre.len() as int;
    &&& mid.len() == pre.len()
    &&& forall|i: int| 0 <= i < len ==> chunk_slot_ok(pre, mid, size, i)
    &&& (mate_preserves_fitness::<T>() && mutate_nondecreasing::<T>() ==> forall|i: int|
        0 <= i < len ==> (#[trigger] mid[i].score_spec()) >= pre[i].score_spec())
}

/// A slot's outcome obligation reads only its own ring's slots, so two
/// pre-states, post-state scores and snapshots that agree there agree on it.
proof fn lemma_slot_outcome_same_on_range<T: Evolvable>(
    pre1: Seq<T>,
    pre2: Seq<T>,
    post: Seq<T>,
    s1: Seq<int>,
    s2: Seq<int>,
    lo: int,
    hi: int,
    i: int,
)
    requires
        lo + 3 <= hi,
        lo <= i < hi,
        forall|k: int| lo <= k < hi ==> pre1[k] == pre2[k],
        forall|k: int| lo <= k < hi ==> s1[k] == s2[k],
    ensures
        slot_outcome_ok(pre1, post, s1, lo, hi, i) == slot_outcome_ok(pre2, post, s2, lo, hi, i),
{
    lemma_neighbors_distinct(lo, hi, i);
}

impl<T: Evolvable> Evolver<T> {
    /// The engine's invariant: the fitness cache is index-aligned with the
    /// population and synchronized with it (no stale entry survives a step
    /// boundary), and the ring is large enough for neighbor semantics.
    pub closed spec fn wf(&self) -> bool {
        &&& self.scores@.len() == self.population@.len()
        &&& self.population@.len() >= 3
        &&& forall|i: int|
            0 <= i < self.population@.len() ==> (#[trigger] self.scores@[i]) as int
                == self.population@[i].score_spec()
    }

    /// The population as a sequence.
    pub closed spec fn pop(&self) -> Seq<T> {
        self.population@
    }

    /// The fitness cache as a sequence of mathematical values.
    pub closed spec fn cache(&self) -> Seq<int> {
        score_seq(self.scores@)
    }

    /// Build an engine around `population`, scoring every member in parallel.
    /// Fails with `InvalidTopology` exactly when the population has fewer
    /// than three slots, and may fail with `UnsafeConcurrencyConfiguration`
    /// when the population holds fewer than two slots per available worker.
    pub fn new(population: Vec<T>) -> (r: Result<Evolver<T>, EvolveError>)
        ensures
            population@.len() < 3 <==> r is Err && r->Err_0 == EvolveError::InvalidTopology,
            r is Err ==> r->Err_0 == EvolveError::InvalidTopology || r->Err_0
                == EvolveError::UnsafeConcurrencyConfiguration,
            r is Ok ==> r->Ok_0.wf() && r->Ok_0.pop() == population@ && r->Ok_0.cache() == snap(
                population@,
            ),
    {
        let workers = worker_count();
        Self::with_workers(population, workers)
    }

    /// Build an engine around `population` for a given worker count. Fails
    /// with `InvalidTopology` exactly when the population has fewer than
    /// three slots, and with `UnsafeConcurrencyConfiguration` exactly when it
    /// has at least three slots but fewer than two per worker — a
    /// configuration for which the per-slot write-ownership argument has not
    /// been validated.
    pub fn with_workers(population: Vec<T>, workers: usize) -> (r: Result<Evolver<T>, EvolveError>)
        requires
            workers >= 1,
        ensures
            r is Ok <==> population@.len() >= 3 && population@.len() >= 2 * workers,
            population@.len() < 3 <==> r is Err && r->Err_0 == EvolveError::InvalidTopology,
            population@.len() >= 3 && population@.len() < 2 * workers <==> r is Err && r->Err_0
                == EvolveError::UnsafeConcurrencyConfiguration,
            r is Ok ==> r->Ok_0.wf() && r->Ok_0.pop() == population@ && r->Ok_0.cache() == snap(
                population@,
            ),
    {
        let len = population.len();
        if len < 3 {
            return Err(EvolveError::InvalidTopology);
        }
        if len / 2 < workers {
            proof {
                assert(len < 2 * workers) by (nonlinear_arith)
                    requires
                        len / 2 < workers,
                        len >= 0,
                        workers >= 1,
                ;
            }
            return Err(EvolveError::UnsafeConcurrencyConfiguration);
        }
        proof {
            assert(len >= 2 * workers) by (nonlinear_arith)
                requires
                    len / 2 >= workers,
                    len >= 0,
                    workers >= 1,
            ;
        }
        let scores = par_scores(&population);
        proof {
            assert(score_seq(scores@) =~= snap(population@));
        }
        Ok(Evolver { scores, population })
    }

    /// The population, for inspection between generations.
    pub fn population_ref(&self) -> (r: &Vec<T>)
        ensures
            r@ == self.pop(),
    {
        &self.population
    }

    /// The fitness cache, for inspection between generations.
    pub fn scores_ref(&self) -> (r: &Vec<i64>)
        ensures
            score_seq(r@) == self.cache(),
            self.wf() ==> r@.len() == self.pop().len(),
    {
        &self.scores
    }

    /// The number of slots on the ring.
    pub fn len(&self) -> (r: usize)
        ensures
            r == self.pop().len(),
    {
        self.population.len()
    }

    /// Whether the population has no members. An engine that satisfies its
    /// invariant never does; the query is kept for callers holding an
    /// arbitrary engine value.
    pub fn is_empty(&self) -> (r: bool)
        ensures
            r == (self.pop().len() == 0),
    {
        self.population.len() == 0
    }

    /// One generation over the whole ring, in place.
    ///
    /// Phases: refresh the fitness cache in parallel; decide every slot
    /// against that frozen snapshot; mate each flagged slot with its chosen
    /// neighbor and mutate it, writing only that slot; re-score written
    /// slots. A slot is written iff it was a local minimum or tie of the
    /// snapshot, and each flagged slot's outcome is pinned by
    /// `slot_outcome_ok`: a mutation of the offspring of its pre-step value
    /// and its chosen mate's observed value, under the engine's fixed
    /// in-order schedule. A ring below three slots cannot be built
    /// (`InvalidTopology` at construction), so no runtime guard is needed
    /// here.
    ///
    /// Under a fitness-preserving mate operator and a mutate operator that
    /// never lowers fitness, no slot's fitness drops, and therefore the
    /// population's fitness sum (hence its average) never decreases.
    pub fn evolve(&mut self)
        requires
            old(self).wf(),
        ensures
            final(self).wf(),
            final(self).pop().len() == old(self).pop().len(),
            forall|i: int|
                0 <= i < old(self).pop().len() ==> slot_outcome_ok(
                    old(self).pop(),
                    final(self).pop(),
                    snap(old(self).pop()),
                    0,
                    old(self).pop().len() as int,
                    i,
                ),
            mate_preserves_fitness::<T>() && mutate_nondecreasing::<T>() ==> forall|i: int|
                0 <= i < old(self).pop().len() ==> (#[trigger] final(self).pop()[i].score_spec())
                    >= old(self).pop()[i].score_spec(),
            mate_preserves_fitness::<T>() && mutate_nondecreasing::<T>() ==> sum_of(
                snap(final(self).pop()),
            ) >= sum_of(snap(old(self).pop())),
            final(self).cache() == snap(final(self).pop()),
    {
        let n = self.population.len();
        self.scores = par_scores(&self.population);
        proof {
            assert(score_seq(self.scores@) =~= snap(old(self).pop()));
        }
        evolve_range(&mut self.population, &mut self.scores, 0, n);
        proof {
            if mate_preserves_fitness::<T>() && mutate_nondecreasing::<T>() {
                lemma_sum_pointwise_le(snap(old(self).pop()), snap(self.population@));
            }
            assert(score_seq(self.scores@) =~= snap(self.population@));
        }
    }

    /// One generation of the chunked strategy, with the chunk size picked
    /// from the available worker count. See `evolve_chunked_with_size`.
    pub fn evolve_chunked(&mut self)
        requires
            old(self).wf(),
        ensures
            final(self).wf(),
            final(self).pop().len() == old(self).pop().len(),
            exists|size: int, mid: Seq<T>|
                valid_chunking(old(self).pop().len() as int, size) && (
                #[trigger] chunked_step_ok::<T>(old(self).pop(), mid, size)) && final(self).pop()
                    == rotl1(mid),
            mate_preserves_fitness::<T>() && mutate_nondecreasing::<T>() ==> sum_of(
                snap(final(self).pop()),
            ) >= sum_of(snap(old(self).pop())),
            final(self).cache() == snap(final(self).pop()),
    {
        let workers = worker_count();
        let size = chunk_size(self.population.len(), workers);
        self.evolve_chunked_with_size(size);
    }

    /// One generation of the chunked strategy: cut the ring into contiguous
    /// chunks of `size` slots (the trailing chunk holds the remainder), run
    /// the score, decide and apply phases on every chunk independently — each
    /// chunk wraps onto itself, deliberately ignoring true neighbors across a
    /// chunk boundary for this generation — then rotate the whole population
    /// left by one slot, so that across generations every globally adjacent
    /// pair eventually lands inside one chunk and interacts.
    ///
    /// This trades topology fidelity for coarser synchronization; exact
    /// global-neighbor semantics is `evolve`.
    pub fn evolve_chunked_with_size(&mut self, size: usize)
        requires
            old(self).wf(),
            valid_chunking(old(self).pop().len() as int, size as int),
        ensures
            final(self).wf(),
            final(self).pop().len() == old(self).pop().len(),
            exists|mid: Seq<T>|
                (#[trigger] chunked_step_ok::<T>(old(self).pop(), mid, size as int))
                    && final(self).pop() == rotl1(mid),
            mate_preserves_fitness::<T>() && mutate_nondecreasing::<T>() ==> sum_of(
                snap(final(self).pop()),
            ) >= sum_of(snap(old(self).pop())),
            final(self).cache() == snap(final(self).pop()),
    {
        let n = self.population.len();
        self.scores = par_scores(&self.population);
        let ghost pop0 = self.population@;
        let mut lo: usize = 0;
        while lo < n
            invariant
                0 <= lo <= n,
                lo as int % size as int == 0 || lo == n,
                valid_chunking(n as int, size as int),
                self.population@.len() == n,
                self.scores@.len() == n,
                pop0.len() == n,
                forall|j: int| lo <= j < n ==> (#[trigger] self.population@[j]) == pop0[j],
                forall|j: int|
                    lo <= j < n ==> (#[trigger] self.scores@[j]) as int == pop0[j].score_spec(),
                forall|j: int|
                    0 <= j < lo ==> (#[trigger] self.scores@[j]) as int
                        == self.population@[j].score_spec(),
                forall|j: int|
                    0 <= j < lo ==> (#[trigger] chunk_lo(j, size as int)) <= j < chunk_hi(
                        j,
                        n as int,
                        size as int,
                    ),
                forall|j: int|
                    0 <= j < lo ==> (#[trigger] chunk_lo(j, size as int)) + 3 <= chunk_hi(
                        j,
                        n as int,
                        size as int,
                    ) <= n,
                forall|j: int|
                    0 <= j < lo ==> chunk_slot_ok(pop0, self.population@, size as int, j),
                mate_preserves_fitness::<T>() && mutate_nondecreasing::<T>() ==> forall|j: int|
                    0 <= j < lo ==> (#[trigger] self.population@[j].score_spec())
                        >= pop0[j].score_spec(),
            decreases n - lo,
        {
            let hi = if n - lo < size {
                n
            } else {
                lo + size
            };
            proof {
                lemma_chunk_bounds(n as int, size as int, lo as int, hi as int);
            }
            let ghost pre_pop = self.population@;
            let ghost pre_scores = self.scores@;
            evolve_range(&mut self.population, &mut self.scores, lo, hi);
            proof {
                assert forall|j: int|
                    lo as int <= j < hi as int implies score_seq(pre_scores)[j] == snap(pop0)[j] by {
                    assert(pre_scores[j] as int == pop0[j].score_spec());
                }
                assert forall|j: int|
                    0 <= j < hi implies chunk_slot_ok(pop0, self.population@, size as int, j) by {
                    if j < lo {
                        let cl = chunk_lo(j, size as int);
                        let ch = chunk_hi(j, n as int, size as int);
                        lemma_neighbors_distinct(cl, ch, j);
                        assert(chunk_slot_ok(pop0, pre_pop, size as int, j));
                        assert(self.population@[j] == pre_pop[j]);
                        let mj = mate_choice_in(snap(pop0), cl, ch, j);
                        if mj < j {
                            assert(self.population@[mj] == pre_pop[mj]);
                        }
                    } else {
                        assert(slot_outcome_ok(
                            pre_pop,
                            self.population@,
                            score_seq(pre_scores),
                            lo as int,
                            hi as int,
                            j,
                        ));
                        lemma_slot_outcome_same_on_range(
                            pre_pop,
                            pop0,
                            self.population@,
                            score_seq(pre_scores),
                            snap(pop0),
                            lo as int,
                            hi as int,
                            j,
                        );
                    }
                }
                if mate_preserves_fitness::<T>() && mutate_nondecreasing::<T>() {
                    assert forall|j: int|
                        0 <= j < hi implies (#[trigger] self.population@[j].score_spec())
                        >= pop0[j].score_spec() by {
                        if lo <= j {
                            assert(self.population@[j].score_spec() >= pre_pop[j].score_spec());
                        }
                    }
                }
                assert(lo as int + (hi - lo) == hi as int);
                assert(hi as int % size as int == 0 || hi == n) by {
                    if hi as int != n as int {
                        vstd::arithmetic::div_mod::lemma_mod_multiples_vanish(
                            1,
                            lo as int,
                            size as int,
                        );
                        assert(hi as int == size as int * 1 + lo as int);
                    }
                }
            }
            lo = hi;
        }
        let ghost mid = self.population@;
        let ghost mid_scores = self.scores@;
        proof {
            assert(chunked_step_ok::<T>(pop0, mid, size as int));
        }
        rotate_left_one(&mut self.population);
        rotate_left_one(&mut self.scores);
        proof {
            assert(self.population@ == rotl1(mid));
            assert forall|i: int|
                0 <= i < n implies (#[trigger] self.scores@[i]) as int
                == self.population@[i].score_spec() by {
                if i < n - 1 {
                    assert(self.scores@[i] == mid_scores[i + 1]);
                    assert(self.population@[i] == mid[i + 1]);
                } else {
                    assert(self.scores@[i] == mid_scores[0]);
                    assert(self.population@[i] == mid[0]);
                }
            }
            if mate_preserves_fitness::<T>() && mutate_nondecreasing::<T>() {
                lemma_sum_pointwise_le(snap(pop0), snap(mid));
                lemma_sum_rotl1(snap(mid));
                assert(snap(rotl1(mid)) =~= rotl1(snap(mid)));
            }
            assert(score_seq(self.scores@) =~= snap(self.population@));
        }
    }
}

/// Rotate a population (or its score cache) left by one slot, in place.
fn rotate_left_one<A>(v: &mut Vec<A>)
    requires
        old(v)@.len() >= 1,
    ensures
        final(v)@ == rotl1(old(v)@),
{
    let x = v.remove(0);
    v.push(x);
    proof {
        old(v)@.remove_ensures(0);
        assert(v@ =~= rotl1(old(v)@));
    }
}

/// The decide, apply and cache-sync phases over the sub-ring `[lo, hi)`,
/// with the cache already holding that range's fresh snapshot. Only slots of
/// `[lo, hi)` are read or written, and each flagged slot's outcome obligation
/// is met under the in-order schedule.
fn evolve_range<T: Evolvable>(pop: &mut Vec<T>, scores: &mut Vec<i64>, lo: usize, hi: usize)
    requires
        old(pop)@.len() == old(scores)@.len(),
        lo + 3 <= hi,
        hi <= old(pop)@.len(),
        forall|j: int| lo <= j < hi ==> (#[trigger] old(scores)@[j]) as int
            == old(pop)@[j].score_spec(),
    ensures
        final(pop)@.len() == old(pop)@.len(),
        final(scores)@.len() == old(scores)@.len(),
        forall|j: int|
            0 <= j < old(pop)@.len() && !(lo <= j < hi) ==> (#[trigger] final(pop)@[j]) == old(
                pop,
            )@[j],
        forall|j: int|
            0 <= j < old(scores)@.len() && !(lo <= j < hi) ==> (#[trigger] final(scores)@[j])
                == old(scores)@[j],
        forall|j: int| lo <= j < hi ==> (#[trigger] final(scores)@[j]) as int
            == final(pop)@[j].score_spec(),
        forall|j: int|
            lo <= j < hi ==> slot_outcome_ok(
                old(pop)@,
                final(pop)@,
                score_seq(old(scores)@),
                lo as int,
                hi as int,
                j,
            ),
        mate_preserves_fitness::<T>() && mutate_nondecreasing::<T>() ==> forall|j: int|
            lo <= j < hi ==> (#[trigger] final(pop)@[j].score_spec())
                >= old(pop)@[j].score_spec(),
{
    let ghost pop0 = pop@;
    let ghost scores0 = scores@;
    let ghost snap0 = score_seq(scores0);
    let plan = decide_range(scores, lo, hi);
    let mut i: usize = lo;
    while i < hi
        invariant
            lo <= i <= hi,
            lo + 3 <= hi,
            hi <= pop0.len(),
            pop0.len() == scores0.len(),
            pop@.len() == pop0.len(),
            scores@.len() == scores0.len(),
            snap0 == score_seq(scores0),
            plan_matches(plan@, snap0, lo as int, hi as int),
            forall|j: int| lo <= j < hi ==> (#[trigger] scores0[j]) as int
                == pop0[j].score_spec(),
            forall|j: int|
                0 <= j < pop@.len() && !(lo <= j < i) ==> (#[trigger] pop@[j]) == pop0[j],
            forall|j: int|
                0 <= j < scores@.len() && !(lo <= j < i) ==> (#[trigger] scores@[j])
                    == scores0[j],
            forall|j: int| lo <= j < i ==> (#[trigger] scores@[j]) as int
                == pop@[j].score_spec(),
            forall|j: int|
                lo <= j < i ==> slot_outcome_ok(pop0, pop@, snap0, lo as int, hi as int, j),
            mate_preserves_fitness::<T>() && mutate_nondecreasing::<T>() ==> forall|j: int|
                lo <= j < i ==> (#[trigger] pop@[j].score_spec()) >= pop0[j].score_spec(),
        decreases hi - i,
    {
        let d = plan[i - lo];
        if let Some(m) = d {
            proof {
                assert(decision_matches(d, snap0, lo as int, hi as int, i as int));
                lemma_neighbors_distinct(lo as int, hi as int, i as int);
                if mate_preserves_fitness::<T>() && mutate_nondecreasing::<T>() {
                    assert(pop@[m as int].score_spec() >= snap0[m as int]);
                }
            }
            let ghost prev_pop = pop@;
            let ghost prev_scores = scores@;
            apply_slot(pop, scores, lo, hi, i, m, Ghost(snap0));
            proof {
                assert forall|j: int|
                    0 <= j < pop@.len() && !(lo <= j < i + 1) implies (#[trigger] pop@[j])
                    == pop0[j] by {
                    assert(pop@[j] == prev_pop[j]);
                    assert(prev_pop[j] == pop0[j]);
                }
                assert forall|j: int|
                    0 <= j < scores@.len() && !(lo <= j < i + 1) implies (#[trigger] scores@[j])
                    == scores0[j] by {
                    assert(scores@[j] == prev_scores[j]);
                    assert(prev_scores[j] == scores0[j]);
                }
                assert forall|j: int|
                    lo <= j < i + 1 implies slot_outcome_ok(
                    pop0,
                    pop@,
                    snap0,
                    lo as int,
                    hi as int,
                    j,
                ) by {
                    lemma_neighbors_distinct(lo as int, hi as int, j);
                    if j < i {
                        assert(slot_outcome_ok(pop0, prev_pop, snap0, lo as int, hi as int, j));
                        assert(pop@[j] == prev_pop[j]);
                        let mj = mate_choice_in(snap0, lo as int, hi as int, j);
                        if mj < j {
                            assert(pop@[mj] == prev_pop[mj]);
                        }
                    } else {
                        assert(prev_pop[i as int] == pop0[i as int]);
                        if (m as int) < j {
                            assert(pop@[m as int] == prev_pop[m as int]);
                        } else {
                            assert(prev_pop[m as int] == pop0[m as int]);
                        }
                    }
                }
                if mate_preserves_fitness::<T>() && mutate_nondecreasing::<T>() {
                    assert(snap0[i as int] == scores0[i as int] as int);
                    assert(pop@[i as int].score_spec() >= pop0[i as int].score_spec());
                    assert forall|j: int| lo <= j < i + 1 implies (
                    #[trigger] pop@[j].score_spec()) >= pop0[j].score_spec() by {
                        if j < i {
                            assert(pop@[j] == prev_pop[j]);
                        }
                    }
                }
            }
        } else {
            proof {
                assert(decision_matches(d, snap0, lo as int, hi as int, i as int));
                assert forall|j: int|
                    lo <= j < i + 1 implies slot_outcome_ok(
                    pop0,
                    pop@,
                    snap0,
                    lo as int,
                    hi as int,
                    j,
                ) by {
                    if j == i {
                        assert(pop@[i as int] == pop0[i as int]);
                    }
                }
            }
        }
        i = i + 1;
    }
}

/// The apply phase for one flagged slot of the sub-ring `[lo, hi)`: mate slot
/// `i` with the chosen neighbor `m`, mutate it, and re-score it, writing to
/// slot `i` and nowhere else.
fn apply_slot<T: Evolvable>(
    pop: &mut Vec<T>,
    scores: &mut Vec<i64>,
    lo: usize,
    hi: usize,
    i: usize,
    m: usize,
    Ghost(snap0): Ghost<Seq<int>>,
)
    requires
        old(pop)@.len() == old(scores)@.len(),
        lo + 3 <= hi,
        hi <= old(pop)@.len(),
        lo <= i < hi,
        hi <= snap0.len(),
        replaceable_in(snap0, lo as int, hi as int, i as int),
        m as int == mate_choice_in(snap0, lo as int, hi as int, i as int),
        old(pop)@[i as int].score_spec() == snap0[i as int],
        mate_preserves_fitness::<T>() && mutate_nondecreasing::<T>()
            ==> old(pop)@[m as int].score_spec() >= snap0[m as int],
    ensures
        final(pop)@.len() == old(pop)@.len(),
        final(scores)@.len() == old(scores)@.len(),
        forall|j: int|
            0 <= j < old(pop)@.len() && j != i ==> (#[trigger] final(pop)@[j]) == old(pop)@[j],
        forall|j: int|
            0 <= j < old(scores)@.len() && j != i ==> (#[trigger] final(scores)@[j])
                == old(scores)@[j],
        final(scores)@[i as int] as int == final(pop)@[i as int].score_spec(),
        T::mutate_rel(
            old(pop)@[i as int].mate_spec(old(pop)@[m as int]),
            final(pop)@[i as int],
        ),
        mate_preserves_fitness::<T>() && mutate_nondecreasing::<T>()
            ==> final(pop)@[i as int].score_spec() >= snap0[i as int],
{
    proof {
        lemma_neighbors_distinct(lo as int, hi as int, i as int);
    }
    let ghost pre = pop@;
    let mut cur = pop.remove(i);
    let m_adj = if m > i { m - 1 } else { m };
    proof {
        pre.remove_ensures(i as int);
        assert(pop@[m_adj as int] == pre[m as int]);
    }
    cur.mate(&pop[m_adj]);
    cur.mutate();
    let s = cur.score();
    pop.insert(i, cur);
    scores.set(i, s);
    proof {
        pre.remove(i as int).insert_ensures(i as int, cur);
        assert(pop@ =~= pre.update(i as int, cur));
        assert(T::mutate_rel(pre[i as int].mate_spec(pre[m as int]), cur));
        if mate_preserves_fitness::<T>() && mutate_nondecreasing::<T>() {
            assert(snap0[m as int] >= snap0[i as int]);
            assert(pre[i as int].mate_spec(pre[m as int]).score_spec() >= snap0[i as int]);
            assert(cur.score_spec() >= pre[i as int].mate_spec(pre[m as int]).score_spec());
        }
    }
}

} // verus!
