//! Selection policy: the decide phase. Given the frozen fitness snapshot of
//! one generation, a slot is *replaceable* iff it is a local minimum or tie
//! (neither ring neighbor is strictly worse), and a replaceable slot mates
//! with its strictly better neighbor, falling back to the right neighbor on a
//! tie. The decision for a slot reads only the snapshot, never live
//! individual state, so every decision in a generation sees the same fitness
//! snapshot.

use vstd::prelude::*;
use crate::topology::{prev_in, next_in, neighbors_in, lemma_neighbors_distinct};

verus! {

/// The fitness snapshot held by a score cache: entry `i` as a mathematical
/// integer.
pub open spec fn score_seq(s: Seq<i64>) -> Seq<int> {
    s.map_values(|x: i64| x as int)
}

/// Is slot `i` a local minimum or tie on the ring `[lo, hi)` under the frozen
/// snapshot `scores`? True iff neither neighbor is strictly worse than `i`.
pub open spec fn replaceable_in(scores: Seq<int>, lo: int, hi: int, i: int) -> bool {
    scores[prev_in(lo, hi, i)] >= scores[i] && scores[i] <= scores[next_in(lo, hi, i)]
}

/// Which neighbor a replaceable slot mates with: the strictly better one; on
/// a tie between the two neighbors, deterministically the right (next) one.
pub open spec fn mate_choice_in(scores: Seq<int>, lo: int, hi: int, i: int) -> int {
    if scores[prev_in(lo, hi, i)] > scores[next_in(lo, hi, i)] {
        prev_in(lo, hi, i)
    } else {
        next_in(lo, hi, i)
    }
}

/// The decide phase's verdict for slot `i` on the ring `[lo, hi)`: the mate's
/// index when the slot is to be replaced, `None` otherwise.
pub open spec fn decision_in(scores: Seq<int>, lo: int, hi: int, i: int) -> Option<int> {
    if replaceable_in(scores, lo, hi, i) {
        Some(mate_choice_in(scores, lo, hi, i))
    } else {
        None
    }
}

/// Does the executable verdict `d` for slot `i` agree with the decide phase's
/// specification?
pub open spec fn decision_matches(
    d: Option<usize>,
    scores: Seq<int>,
    lo: int,
    hi: int,
    i: int,
) -> bool {
    match d {
        Some(m) => replaceable_in(scores, lo, hi, i) && m as int == mate_choice_in(
            scores,
            lo,
            hi,
            i,
        ),
        None => !replaceable_in(scores, lo, hi, i),
    }
}

/// Does the plan assign every slot of `[lo, hi)` its specified verdict?
pub open spec fn plan_matches(plan: Seq<Option<usize>>, scores: Seq<int>, lo: int, hi: int) -> bool {
    &&& plan.len() == hi - lo
    &&& forall|i: int| lo <= i < hi ==> decision_matches(#[trigger] plan[i - lo], scores, lo, hi, i)
}

/// Is slot `i` a local minimum or tie on the whole ring held by `scores`?
pub fn is_replaceable(scores: &Vec<i64>, i: usize) -> (r: bool)
    requires
        3 <= scores@.len(),
        i < scores@.len(),
    ensures
        r == replaceable_in(score_seq(scores@), 0, scores@.len() as int, i as int),
{
    decide_slot(scores, 0, scores.len(), i).is_some()
}

/// The decide phase for one slot of the ring `[lo, hi)`: reads only the
/// frozen snapshot in `scores`.
pub fn decide_slot(scores: &Vec<i64>, lo: usize, hi: usize, i: usize) -> (d: Option<usize>)
    requires
        lo + 3 <= hi,
        hi <= scores@.len(),
        lo <= i < hi,
    ensures
        decision_matches(d, score_seq(scores@), lo as int, hi as int, i as int),
{
    let (prev, next) = neighbors_in(lo, hi, i);
    if scores[prev] >= scores[i] && scores[i] <= scores[next] {
        if scores[prev] > scores[next] {
            Some(prev)
        } else {
            Some(next)
        }
    } else {
        None
    }
}

/// The decide phase for the whole ring `[lo, hi)`: one verdict per slot, all
/// computed against the same frozen snapshot, before any slot is written.
pub fn decide_range(scores: &Vec<i64>, lo: usize, hi: usize) -> (plan: Vec<Option<usize>>)
    requires
        lo + 3 <= hi,
        hi <= scores@.len(),
    ensures
        plan_matches(plan@, score_seq(scores@), lo as int, hi as int),
{
    let mut plan: Vec<Option<usize>> = Vec::new();
    let mut i = lo;
    while i < hi
        invariant
            lo <= i <= hi,
            lo + 3 <= hi,
            hi <= scores@.len(),
            plan@.len() == i - lo,
            forall|j: int| lo <= j < i ==> decision_matches(
                #[trigger] plan@[j - lo],
                score_seq(scores@),
                lo as int,
                hi as int,
                j,
            ),
        decreases hi - i,
    {
        let d = decide_slot(scores, lo, hi, i);
        plan.push(d);
        i = i + 1;
    }
    plan
}

/// A slot's verdict reads only its ring's own scores: two snapshots that
/// agree on `[lo, hi)` give every slot of that ring the same verdict.
pub proof fn lemma_replaceable_same_on_range(s1: Seq<int>, s2: Seq<int>, lo: int, hi: int, i: int)
    requires
        lo + 3 <= hi,
        hi <= s1.len(),
        hi <= s2.len(),
        lo <= i < hi,
        forall|k: int| lo <= k < hi ==> s1[k] == s2[k],
    ensures
        replaceable_in(s1, lo, hi, i) == replaceable_in(s2, lo, hi, i),
        mate_choice_in(s1, lo, hi, i) == mate_choice_in(s2, lo, hi, i),
{
    lemma_neighbors_distinct(lo, hi, i);
}

/// The set of slots the apply phase writes for slot `i`'s task: slot `i`
/// itself when the decide phase flagged it, nothing otherwise.
pub open spec fn writes_in(scores: Seq<int>, lo: int, hi: int, i: int) -> Set<int> {
    if replaceable_in(scores, lo, hi, i) {
        set![i]
    } else {
        Set::empty()
    }
}

/// The slots slot `i`'s task reads during the apply phase: its two ring
/// neighbors.
pub open spec fn reads_in(scores: Seq<int>, lo: int, hi: int, i: int) -> Set<int> {
    set![prev_in(lo, hi, i), next_in(lo, hi, i)]
}

/// Write-set disjointness law: within one generation, the apply-phase tasks
/// of two distinct slots write to disjoint slots (each slot is written at most
/// once), and no task writes to a slot that it itself reads. This is the
/// invariant that lets the apply phase run over aliased neighbor data without
/// a lock: overlapping access is read-read or read of another task's write
/// target, never write-write on one slot.
pub proof fn lemma_write_set_disjoint(scores: Seq<int>, lo: int, hi: int, i: int, j: int)
    requires
        lo + 3 <= hi,
        lo <= i < hi,
        lo <= j < hi,
        i != j,
    ensures
        writes_in(scores, lo, hi, i).disjoint(writes_in(scores, lo, hi, j)),
        writes_in(scores, lo, hi, i).disjoint(reads_in(scores, lo, hi, i)),
        writes_in(scores, lo, hi, i).subset_of(set![i]),
{
    lemma_neighbors_distinct(lo, hi, i);
    assert forall|x: int| writes_in(scores, lo, hi, i).contains(x) implies !writes_in(
        scores,
        lo,
        hi,
        j,
    ).contains(x) by {}
    assert forall|x: int| writes_in(scores, lo, hi, i).contains(x) implies !reads_in(
        scores,
        lo,
        hi,
        i,
    ).contains(x) by {}
}

} // verus!
