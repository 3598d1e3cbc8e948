//! Ring topology: pure index arithmetic mapping a slot to its left and right
//! neighbors on a circular one-dimensional lattice. A range `[lo, hi)` of at
//! least three slots forms its own ring, so the same functions serve both the
//! whole population and one chunk of it.

use vstd::prelude::*;

verus! {

/// Index of the left (previous) neighbor of `i` on the ring `[lo, hi)`.
pub open spec fn prev_in(lo: int, hi: int, i: int) -> int {
    lo + (i - lo + (hi - lo) - 1) % (hi - lo)
}

/// Index of the right (next) neighbor of `i` on the ring `[lo, hi)`.
pub open spec fn next_in(lo: int, hi: int, i: int) -> int {
    lo + (i - lo + 1) % (hi - lo)
}

/// Left neighbor on the whole ring `[0, n)`.
pub open spec fn prev_index(i: int, n: int) -> int {
    prev_in(0, n, i)
}

/// Right neighbor on the whole ring `[0, n)`.
pub open spec fn next_index(i: int, n: int) -> int {
    next_in(0, n, i)
}

/// The two neighbors of slot `i` on a ring of `n` slots, wrapping around.
pub fn neighbors(i: usize, n: usize) -> (r: (usize, usize))
    requires
        3 <= n,
        i < n,
    ensures
        r.0 as int == prev_index(i as int, n as int),
        r.1 as int == next_index(i as int, n as int),
{
    neighbors_in(0, n, i)
}

/// The two neighbors of slot `i` on the sub-ring `[lo, hi)`, wrapping around
/// within that range only.
pub fn neighbors_in(lo: usize, hi: usize, i: usize) -> (r: (usize, usize))
    requires
        lo + 3 <= hi,
        lo <= i < hi,
    ensures
        r.0 as int == prev_in(lo as int, hi as int, i as int),
        r.1 as int == next_in(lo as int, hi as int, i as int),
        lo <= r.0 < hi,
        lo <= r.1 < hi,
{
    let prev: usize = if i > lo { i - 1 } else { hi - 1 };
    let next: usize = if i < hi - 1 { i + 1 } else { lo };
    proof {
        lemma_ring_neighbors(lo as int, hi as int, i as int);
    }
    (prev, next)
}

/// On a ring `[lo, hi)` of at least two slots, the neighbor indices unfold to
/// plain successor and predecessor arithmetic with wrap-around at the ends.
pub proof fn lemma_ring_neighbors(lo: int, hi: int, i: int)
    requires
        lo + 2 <= hi,
        lo <= i < hi,
    ensures
        prev_in(lo, hi, i) == if i == lo { hi - 1 } else { i - 1 },
        next_in(lo, hi, i) == if i == hi - 1 { lo } else { i + 1 },
        lo <= prev_in(lo, hi, i) < hi,
        lo <= next_in(lo, hi, i) < hi,
        prev_in(lo, hi, i) != i,
        next_in(lo, hi, i) != i,
{
    let s = hi - lo;
    let k = i - lo;
    if i == lo {
        assert((k + s - 1) % s == s - 1) by {
            vstd::arithmetic::div_mod::lemma_small_mod((s - 1) as nat, s as nat);
        }
    } else {
        assert((k + s - 1) % s == k - 1) by {
            vstd::arithmetic::div_mod::lemma_mod_multiples_vanish(1, k - 1, s);
            vstd::arithmetic::div_mod::lemma_small_mod((k - 1) as nat, s as nat);
        }
    }
    if i == hi - 1 {
        assert((k + 1) % s == 0) by {
            vstd::arithmetic::div_mod::lemma_mod_self_0(s);
        }
    } else {
        assert((k + 1) % s == k + 1) by {
            vstd::arithmetic::div_mod::lemma_small_mod((k + 1) as nat, s as nat);
        }
    }
}

/// Topology correctness: on any ring of at least three slots, every slot's two
/// neighbors are distinct, both differ from the slot itself, both lie on the
/// ring, and the first and last slots wrap around to each other.
pub proof fn lemma_neighbors_distinct(lo: int, hi: int, i: int)
    requires
        lo + 3 <= hi,
        lo <= i < hi,
    ensures
        lo <= prev_in(lo, hi, i) < hi,
        lo <= next_in(lo, hi, i) < hi,
        prev_in(lo, hi, i) != i,
        next_in(lo, hi, i) != i,
        prev_in(lo, hi, i) != next_in(lo, hi, i),
        prev_in(lo, hi, lo) == hi - 1 && next_in(lo, hi, lo) == lo + 1,
        prev_in(lo, hi, hi - 1) == hi - 2 && next_in(lo, hi, hi - 1) == lo,
{
    lemma_ring_neighbors(lo, hi, i);
    lemma_ring_neighbors(lo, hi, lo);
    lemma_ring_neighbors(lo, hi, hi - 1);
}

} // verus!
