//! Reduction operations over a population: the best individual, and the
//! average fitness. Both are associative folds over the fitness snapshot;
//! neither touches genome content.

use vstd::prelude::*;
use crate::evolvable::{Evolvable, snap};
use crate::errors::EvolveError;

verus! {

/// The sum of a sequence of fitness values.
pub open spec fn sum_of(s: Seq<int>) -> int
    decreases s.len(),
{
    if s.len() == 0 {
        0
    } else {
        sum_of(s.drop_last()) + s.last()
    }
}

/// Integer division rounding toward zero, the rounding the machine's signed
/// division performs.
pub open spec fn div_toward_zero(a: int, b: int) -> int {
    if a >= 0 {
        a / b
    } else {
        -((-a) / b)
    }
}

/// The average fitness of a non-empty snapshot: its sum divided by its
/// length, rounded toward zero.
pub open spec fn average_of(s: Seq<int>) -> int {
    div_toward_zero(sum_of(s), s.len() as int)
}

/// A sum never decreases when no entry does.
pub proof fn lemma_sum_pointwise_le(a: Seq<int>, b: Seq<int>)
    requires
        a.len() == b.len(),
        forall|i: int| 0 <= i < a.len() ==> a[i] <= b[i],
    ensures
        sum_of(a) <= sum_of(b),
    decreases a.len(),
{
    if a.len() > 0 {
        lemma_sum_pointwise_le(a.drop_last(), b.drop_last());
    }
}

/// A sum can also be unfolded at the front.
pub proof fn lemma_sum_first(s: Seq<int>)
    requires
        s.len() >= 1,
    ensures
        sum_of(s) == s[0] + sum_of(s.subrange(1, s.len() as int)),
    decreases s.len(),
{
    if s.len() == 1 {
        assert(s.subrange(1, 1).len() == 0);
        assert(sum_of(s.subrange(1, 1)) == 0);
        assert(s.drop_last().len() == 0);
        assert(sum_of(s.drop_last()) == 0);
        assert(sum_of(s) == sum_of(s.drop_last()) + s.last());
    } else {
        let dl = s.drop_last();
        lemma_sum_first(dl);
        let tail = s.subrange(1, s.len() as int);
        assert(dl.subrange(1, dl.len() as int) =~= tail.drop_last());
        assert(tail.last() == s.last());
        assert(sum_of(tail) == sum_of(tail.drop_last()) + tail.last());
        assert(dl[0] == s[0]);
        assert(sum_of(s) == sum_of(dl) + s.last());
    }
}

/// Rotating a snapshot does not change its sum.
pub proof fn lemma_sum_rotl1(s: Seq<int>)
    requires
        s.len() >= 1,
    ensures
        sum_of(s.subrange(1, s.len() as int).push(s[0])) == sum_of(s),
{
    let rest = s.subrange(1, s.len() as int);
    assert(rest.push(s[0]).drop_last() =~= rest);
    assert(sum_of(rest.push(s[0])) == sum_of(rest) + s[0]);
    lemma_sum_first(s);
}

/// Averages are ordered as their sums are: over equal lengths, a snapshot
/// whose sum is no smaller has an average no smaller.
pub proof fn lemma_average_nondecreasing(a: Seq<int>, b: Seq<int>)
    requires
        a.len() == b.len(),
        a.len() >= 1,
        sum_of(a) <= sum_of(b),
    ensures
        average_of(a) <= average_of(b),
{
    let n = a.len() as int;
    let x = sum_of(a);
    let y = sum_of(b);
    if x >= 0 && y >= 0 {
        vstd::arithmetic::div_mod::lemma_div_is_ordered(x, y, n);
    } else if x < 0 && y < 0 {
        vstd::arithmetic::div_mod::lemma_div_is_ordered(-y, -x, n);
    } else {
        // x < 0 <= y: a non-negative quotient never lies below a non-positive one.
        vstd::arithmetic::div_mod::lemma_div_pos_is_pos(y, n);
        vstd::arithmetic::div_mod::lemma_div_pos_is_pos(-x, n);
    }
}

/// Non-regression law: over populations of equal, non-zero length, if no
/// slot's fitness dropped, then the population-wide average fitness did not
/// drop. One `evolve` generation under a fitness-preserving mate operator
/// and a mutate operator that never lowers fitness guarantees exactly such a
/// per-slot bound, so its average never regresses.
pub proof fn lemma_average_non_regression(pre: Seq<int>, post: Seq<int>)
    requires
        pre.len() == post.len(),
        pre.len() >= 1,
        forall|i: int| 0 <= i < pre.len() ==> post[i] >= pre[i],
    ensures
        average_of(post) >= average_of(pre),
{
    lemma_sum_pointwise_le(pre, post);
    lemma_average_nondecreasing(pre, post);
}

/// The best individual of a population: the one at the first slot holding the
/// maximal fitness. Fails with `EmptyPopulation` on a population with no
/// members, and only there.
pub fn get_best<T: Evolvable>(population: &Vec<T>) -> (r: Result<&T, EvolveError>)
    ensures
        r is Err <==> population@.len() == 0,
        r is Err ==> r->Err_0 == EvolveError::EmptyPopulation,
        r is Ok ==> exists|k: int|
            {
                &&& 0 <= k < population@.len()
                &&& *r->Ok_0 == population@[k]
                &&& forall|j: int| 0 <= j < population@.len() ==> snap(population@)[j] <= snap(
                    population@,
                )[k]
                &&& forall|j: int| 0 <= j < k ==> snap(population@)[j] < snap(population@)[k]
            },
{
    let n = population.len();
    if n == 0 {
        return Err(EvolveError::EmptyPopulation);
    }
    let mut best: usize = 0;
    let mut best_score: i64 = population[0].score();
    let mut i: usize = 1;
    while i < n
        invariant
            n == population@.len(),
            0 <= best < i <= n,
            best_score as int == snap(population@)[best as int],
            forall|j: int| 0 <= j < i ==> snap(population@)[j] <= best_score as int,
            forall|j: int| 0 <= j < best ==> snap(population@)[j] < best_score as int,
        decreases n - i,
    {
        let s = population[i].score();
        if s > best_score {
            best = i;
            best_score = s;
        }
        i = i + 1;
    }
    Ok(&population[best])
}

/// The average fitness of a population: the sum of all fitness values divided
/// by the population length, rounded toward zero. Fails with
/// `EmptyPopulation` on a population with no members, and only there:
/// division by zero is not a silent zero.
pub fn get_average<T: Evolvable>(population: &Vec<T>) -> (r: Result<i64, EvolveError>)
    ensures
        r is Err <==> population@.len() == 0,
        r is Err ==> r->Err_0 == EvolveError::EmptyPopulation,
        r is Ok ==> r->Ok_0 as int == average_of(snap(population@)),
{
    let n = population.len();
    if n == 0 {
        return Err(EvolveError::EmptyPopulation);
    }
    let mut total: i128 = 0;
    let mut i: usize = 0;
    while i < n
        invariant
            n == population@.len(),
            0 <= i <= n,
            total as int == sum_of(snap(population@).subrange(0, i as int)),
            -(i as int) * 0x8000_0000_0000_0000 <= total as int <= (i as int)
                * 0x7fff_ffff_ffff_ffff,
            n <= usize::MAX,
        decreases n - i,
    {
        let s = population[i].score();
        proof {
            let pre = snap(population@).subrange(0, i as int);
            let post = snap(population@).subrange(0, i + 1);
            assert(post.drop_last() =~= pre);
            assert(-(i + 1) * 0x8000_0000_0000_0000 <= total + s <= (i + 1)
                * 0x7fff_ffff_ffff_ffff) by (nonlinear_arith)
                requires
                    -(i as int) * 0x8000_0000_0000_0000 <= total as int <= (i as int)
                        * 0x7fff_ffff_ffff_ffff,
                    -0x8000_0000_0000_0000 <= s as int <= 0x7fff_ffff_ffff_ffff,
            ;
        }
        total = total + s as i128;
        i = i + 1;
    }
    proof {
        assert(snap(population@).subrange(0, n as int) =~= snap(population@));
        lemma_average_in_score_range(total as int, n as int);
    }
    let avg: i128 = total / (n as i128);
    Ok(avg as i64)
}

/// A sum bounded by `n` copies of the extreme fitness values has a quotient
/// that fits back into a fitness value.
proof fn lemma_average_in_score_range(total: int, n: int)
    requires
        1 <= n,
        -n * 0x8000_0000_0000_0000 <= total <= n * 0x7fff_ffff_ffff_ffff,
    ensures
        -0x8000_0000_0000_0000 <= div_toward_zero(total, n) <= 0x7fff_ffff_ffff_ffff,
{
    if total >= 0 {
        vstd::arithmetic::div_mod::lemma_div_is_ordered(total, n * 0x7fff_ffff_ffff_ffff, n);
        vstd::arithmetic::div_mod::lemma_div_multiples_vanish(0x7fff_ffff_ffff_ffff, n);
        vstd::arithmetic::div_mod::lemma_div_pos_is_pos(total, n);
    } else {
        vstd::arithmetic::div_mod::lemma_div_is_ordered(-total, n * 0x8000_0000_0000_0000, n);
        vstd::arithmetic::div_mod::lemma_div_multiples_vanish(0x8000_0000_0000_0000, n);
        vstd::arithmetic::div_mod::lemma_div_pos_is_pos(-total, n);
    }
}

} // verus!
