use evolver::EvNum;
use evolver::chunks::chunk_size;
use evolver::organisms::{evolve, par_evolve};

fn values(pop: &[EvNum]) -> Vec<i64> {
    pop.iter().map(|e| e.0).collect()
}

fn assert_sorted(vs: &[i64]) {
    for w in vs.windows(2) {
        assert!(w[0] <= w[1], "not sorted: {:?}", vs);
    }
}

#[test]
fn evolve_sorts_and_keeps_the_stronger_half() {
    let mut pop = vec![EvNum(5), EvNum(1), EvNum(4), EvNum(9), EvNum(2), EvNum(8)];
    evolve(&mut pop);
    let vs = values(&pop);
    assert_eq!(vs.len(), 6);
    assert_sorted(&vs);
    // the stronger half (9, 2, 8) survives breeding untouched, then sorting
    // only reorders it
    for kept in [9, 2, 8] {
        assert!(vs.contains(&kept), "{kept} missing from {:?}", vs);
    }
    // offspring are midpoints of two of (9, 2, 8), nudged by at most one
    for v in vs {
        assert!((1..=10).contains(&v), "offspring {v} out of range");
    }
}

#[test]
fn par_evolve_sorts_and_keeps_the_stronger_half() {
    let mut pop = vec![EvNum(5), EvNum(1), EvNum(4), EvNum(9), EvNum(2), EvNum(8)];
    par_evolve(&mut pop);
    let vs = values(&pop);
    assert_eq!(vs.len(), 6);
    assert_sorted(&vs);
    for kept in [9, 2, 8] {
        assert!(vs.contains(&kept), "{kept} missing from {:?}", vs);
    }
    for v in vs {
        assert!((1..=10).contains(&v), "offspring {v} out of range");
    }
}

#[test]
fn evolve_handles_tiny_populations() {
    let mut pop = vec![EvNum(7)];
    evolve(&mut pop);
    assert_eq!(values(&pop), vec![7]);
    let mut empty: Vec<EvNum> = Vec::new();
    evolve(&mut empty);
    assert!(empty.is_empty());
}

#[test]
fn chunk_sizes_partition_without_an_undersized_tail() {
    assert_eq!(chunk_size(10, 2), 5);
    assert_eq!(chunk_size(10, 3), 5);
    assert_eq!(chunk_size(7, 2), 4);
    assert_eq!(chunk_size(3, 8), 3);
    for len in 3..40usize {
        for workers in 1..8usize {
            let size = chunk_size(len, workers);
            assert!((3..=len).contains(&size));
            let rem = len % size;
            assert!(rem == 0 || rem >= 3, "len {len} size {size} rem {rem}");
        }
    }
}
