use evolver::policy::{is_replaceable, decide_slot};

#[test]
fn local_minimum_is_flagged_and_its_neighbors_are_not() {
    let scores: Vec<i64> = vec![5, 1, 5];
    assert!(is_replaceable(&scores, 1));
    assert!(!is_replaceable(&scores, 0));
    assert!(!is_replaceable(&scores, 2));
}

#[test]
fn equal_neighbors_on_a_three_ring_gate_only_the_minimum() {
    // slots 0 and 2 compare against each other (a tie) and against slot 1,
    // which is strictly worse, so neither is a local minimum; slot 1 is
    let scores: Vec<i64> = vec![3, 1, 3];
    assert!(is_replaceable(&scores, 1));
    assert!(!is_replaceable(&scores, 0));
    assert!(!is_replaceable(&scores, 2));
}

#[test]
fn an_all_tie_ring_flags_every_slot() {
    let scores: Vec<i64> = vec![2, 2, 2];
    for i in 0..3 {
        assert!(is_replaceable(&scores, i));
    }
}

#[test]
fn the_strictly_better_neighbor_is_chosen_as_mate() {
    let scores: Vec<i64> = vec![5, 1, 4];
    assert_eq!(decide_slot(&scores, 0, 3, 1), Some(0));
    let scores: Vec<i64> = vec![4, 1, 5];
    assert_eq!(decide_slot(&scores, 0, 3, 1), Some(2));
}

#[test]
fn a_neighbor_tie_picks_the_next_slot() {
    let scores: Vec<i64> = vec![4, 1, 4];
    assert_eq!(decide_slot(&scores, 0, 3, 1), Some(2));
}

#[test]
fn a_slot_that_beats_a_neighbor_gets_no_mate() {
    let scores: Vec<i64> = vec![5, 1, 4];
    assert_eq!(decide_slot(&scores, 0, 3, 0), None);
    assert_eq!(decide_slot(&scores, 0, 3, 2), None);
}

#[test]
fn write_targets_are_distinct_and_never_read_by_their_own_task() {
    // every flagged task writes its own slot and reads only its neighbors, so
    // the write targets are pairwise distinct and a mate is never the slot
    // itself
    let scores: Vec<i64> = vec![2, 2, 5, 1, 4, 1];
    let n = scores.len();
    let mut writes: Vec<usize> = Vec::new();
    for i in 0..n {
        if let Some(mate) = decide_slot(&scores, 0, n, i) {
            assert_ne!(mate, i);
            assert!(!writes.contains(&i));
            writes.push(i);
        }
    }
    assert_eq!(writes, vec![1, 3, 5]);
}

#[test]
fn sub_rings_wrap_within_their_own_range() {
    // on the sub-ring [3, 6) of a larger cache, slot 4 is the local minimum
    let scores: Vec<i64> = vec![0, 0, 0, 7, 2, 9];
    assert_eq!(decide_slot(&scores, 3, 6, 4), Some(5));
    assert_eq!(decide_slot(&scores, 3, 6, 3), None);
    assert_eq!(decide_slot(&scores, 3, 6, 5), None);
}
