//! Chunk sizing for the chunked engine variant. The population is cut into
//! contiguous chunks, each treated as its own ring for one generation, so a
//! chunk must never hold fewer than three slots: the chunk-size search
//! enumerates candidate sizes and rejects any that would leave a trailing
//! chunk below three.

use vstd::prelude::*;
use vstd::arithmetic::div_mod::{
    lemma_fundamental_div_mod, lemma_fundamental_div_mod_converse, lemma_mod_self_0,
    lemma_div_nonincreasing, lemma_div_pos_is_pos,
};

verus! {

/// Does `size` cut a population of length `len` into chunks all of size at
/// least three? The trailing chunk holds the division remainder, so the
/// remainder must be zero or at least three.
pub open spec fn valid_chunking(len: int, size: int) -> bool {
    &&& 3 <= size <= len
    &&& (len % size == 0 || len % size >= 3)
}

/// The first slot of the chunk that slot `i` falls in.
pub open spec fn chunk_lo(i: int, size: int) -> int {
    (i / size) * size
}

/// One past the last slot of the chunk that slot `i` falls in: the chunk is
/// full-sized unless it is the trailing remainder chunk, which runs to the
/// end of the population.
pub open spec fn chunk_hi(i: int, len: int, size: int) -> int {
    if chunk_lo(i, size) + size <= (len / size) * size {
        chunk_lo(i, size) + size
    } else {
        len
    }
}

/// A chunk size for `len` slots shared among `workers` parallel workers:
/// close to an even split, but never below three and never cutting a trailing
/// chunk below three.
pub fn chunk_size(len: usize, workers: usize) -> (r: usize)
    requires
        3 <= len,
        1 <= workers,
    ensures
        valid_chunking(len as int, r as int),
{
    let mut r: usize = len / workers;
    proof {
        lemma_div_nonincreasing(len as int, workers as int);
        lemma_div_pos_is_pos(len as int, workers as int);
    }
    if r < 3 {
        r = 3;
    }
    while len % r != 0 && len % r < 3
        invariant
            3 <= r <= len,
        decreases len - r,
    {
        proof {
            if r == len {
                lemma_mod_self_0(len as int);
                assert(false);
            }
        }
        r = r + 1;
    }
    r
}

/// The chunk layout walked by the chunked engine agrees with the per-slot
/// chunk bounds: starting a chunk at any multiple `lo` of the chunk size and
/// ending it at `lo + size`, or at the population's end when fewer than
/// `size` slots remain, covers exactly the slots whose chunk is `[lo, hi)`,
/// and every chunk holds at least three slots.
pub proof fn lemma_chunk_bounds(len: int, size: int, lo: int, hi: int)
    requires
        valid_chunking(len, size),
        0 <= lo < len,
        lo % size == 0,
        hi == if len - lo < size {
            len
        } else {
            lo + size
        },
    ensures
        lo + 3 <= hi <= len,
        forall|j: int|
            lo <= j < hi ==> chunk_lo(j, size) == lo && chunk_hi(j, len, size) == hi,
{
    let q = len / size;
    let rem = len % size;
    lemma_fundamental_div_mod(len, size);
    lemma_fundamental_div_mod(lo, size);
    let c = lo / size;
    assert(lo == c * size);
    assert forall|j: int| lo <= j < hi implies chunk_lo(j, size) == lo && chunk_hi(j, len, size)
        == hi by {
        assert(j - lo < size);
        lemma_fundamental_div_mod_converse(j, size, c, j - lo);
        assert(j / size == c);
        assert(chunk_lo(j, size) == c * size);
        if len - lo < size {
            // trailing chunk: lo is the largest multiple of size not above len,
            // so the chunk runs to the end of the population
            assert(c * size + size > len);
            assert((q * size) * 1 <= q * size + rem);
            assert(c * size < len);
            assert(c <= q) by (nonlinear_arith)
                requires
                    c * size < len,
                    len == q * size + rem,
                    0 <= rem < size,
                    size > 0,
            ;
            assert(c >= q) by (nonlinear_arith)
                requires
                    c * size + size > len,
                    len == q * size + rem,
                    0 <= rem < size,
                    size > 0,
            ;
            assert(c == q);
            assert(chunk_lo(j, size) + size > (len / size) * size);
        } else {
            // full chunk: the next multiple of size still fits below the
            // remainder region
            assert(c * size + size <= len);
            assert(c + 1 <= q) by (nonlinear_arith)
                requires
                    c * size + size <= len,
                    len == q * size + rem,
                    0 <= rem < size,
                    size > 0,
            ;
            assert(c * size + size <= q * size) by (nonlinear_arith)
                requires
                    c + 1 <= q,
                    size > 0,
            ;
            assert(chunk_lo(j, size) + size <= (len / size) * size);
        }
    }
    if len - lo < size {
        // the trailing chunk is exactly the division remainder, which a valid
        // chunking keeps at zero or at least three slots
        assert(c == q) by (nonlinear_arith)
            requires
                lo == c * size,
                c * size < len,
                c * size + size > len,
                len == q * size + rem,
                0 <= rem < size,
                size > 0,
        ;
        assert(len - lo == rem);
        assert(rem > 0);
    }
}

} // verus!
