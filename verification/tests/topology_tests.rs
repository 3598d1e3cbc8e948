use evolver::topology::neighbors;

#[test]
fn wraps_at_first_slot() {
    assert_eq!(neighbors(0, 5), (4, 1));
    assert_eq!(neighbors(0, 3), (2, 1));
}

#[test]
fn wraps_at_last_slot() {
    assert_eq!(neighbors(4, 5), (3, 0));
    assert_eq!(neighbors(2, 3), (1, 0));
}

#[test]
fn interior_slots_use_plain_successors() {
    assert_eq!(neighbors(2, 5), (1, 3));
    assert_eq!(neighbors(1, 3), (0, 2));
}

#[test]
fn neighbors_are_distinct_and_differ_from_the_slot() {
    for n in 3..10usize {
        for i in 0..n {
            let (prev, next) = neighbors(i, n);
            assert_ne!(prev, i);
            assert_ne!(next, i);
            assert_ne!(prev, next);
            assert!(prev < n && next < n);
        }
    }
}
