use evolver::ev_num::SteadyNum;
use evolver::reduce::get_average;
use evolver::{EvNum, EvolveError, Evolver};

#[test]
fn too_small_a_population_is_an_invalid_topology() {
    let pop = vec![EvNum(1), EvNum(2)];
    match Evolver::new(pop) {
        Err(e) => assert_eq!(e, EvolveError::InvalidTopology),
        Ok(_) => panic!("a two-slot ring must be refused"),
    }
}

#[test]
fn fewer_than_two_slots_per_worker_is_refused() {
    let pop: Vec<EvNum> = (0..9).map(EvNum).collect();
    match Evolver::with_workers(pop, 5) {
        Err(e) => assert_eq!(e, EvolveError::UnsafeConcurrencyConfiguration),
        Ok(_) => panic!("nine slots for five workers must be refused"),
    }
}

#[test]
fn two_slots_per_worker_are_accepted() {
    let pop: Vec<EvNum> = (0..10).map(EvNum).collect();
    let engine = Evolver::with_workers(pop, 5).unwrap();
    assert_eq!(engine.len(), 10);
    assert!(!engine.is_empty());
}

#[test]
fn one_exact_generation_is_reproducible() {
    let pop = vec![SteadyNum(5), SteadyNum(1), SteadyNum(5), SteadyNum(2), SteadyNum(8), SteadyNum(2)];
    let mut engine = Evolver::with_workers(pop, 1).unwrap();
    engine.evolve();
    // slot 1 mates with its right neighbor (a tie between neighbors), slots 3
    // and 5 with their stronger neighbor, slot 5 reading slot 4's frozen-score
    // choice; everything else is not a local minimum and stays put
    let after = vec![5, 3, 5, 5, 8, 5];
    let best = evolver::reduce::get_best(engine.population_ref()).unwrap().0;
    assert_eq!(best, 8);
    assert_eq!(
        engine.population_ref().iter().map(|g| g.0).collect::<Vec<i64>>(),
        after
    );
    // the cache is synchronized at the step boundary
    assert_eq!(engine.scores_ref(), &after);
}

#[test]
fn non_regression_of_the_average_under_a_fitness_preserving_mate() {
    let pop = vec![SteadyNum(5), SteadyNum(1), SteadyNum(5), SteadyNum(2), SteadyNum(8), SteadyNum(2)];
    let before = get_average(&pop).unwrap();
    let mut engine = Evolver::with_workers(pop, 1).unwrap();
    for _ in 0..5 {
        let pre = get_average(engine.population_ref()).unwrap();
        engine.evolve();
        let post = get_average(engine.population_ref()).unwrap();
        assert!(post >= pre);
    }
    assert!(get_average(engine.population_ref()).unwrap() >= before);
}

#[test]
fn a_local_minimum_is_replaced_within_its_parents_interval() {
    let pop = vec![EvNum(5), EvNum(1), EvNum(5)];
    let mut engine = Evolver::with_workers(pop, 1).unwrap();
    engine.evolve();
    let after: Vec<i64> = engine.population_ref().iter().map(|e| e.0).collect();
    // slots 0 and 2 each beat a neighbor and stay put; slot 1 becomes the
    // midpoint 3, then the random nudge moves it one step at most
    assert_eq!(after[0], 5);
    assert_eq!(after[2], 5);
    assert!((2..=4).contains(&after[1]));
}

#[test]
fn a_chunked_generation_evolves_each_chunk_and_rotates() {
    let pop: Vec<SteadyNum> = [9, 1, 9, 9, 1, 9, 9, 1, 9].iter().map(|&v| SteadyNum(v)).collect();
    let mut engine = Evolver::with_workers(pop, 1).unwrap();
    engine.evolve_chunked_with_size(3);
    // each chunk [9, 1, 9] raises its middle slot to the midpoint 5, then the
    // whole ring rotates left by one slot
    let after: Vec<i64> = engine.population_ref().iter().map(|g| g.0).collect();
    assert_eq!(after, vec![5, 9, 9, 5, 9, 9, 5, 9, 9]);
}

#[test]
fn building_an_engine_scores_every_member() {
    let pop = vec![EvNum(4), EvNum(-7), EvNum(0), EvNum(22)];
    let engine = Evolver::with_workers(pop, 2).unwrap();
    assert_eq!(engine.scores_ref(), &vec![4, -7, 0, 22]);
}

#[test]
fn a_trailing_remainder_chunk_evolves_as_its_own_ring() {
    let pop: Vec<SteadyNum> = [9, 1, 1, 9, 9, 1, 9].iter().map(|&v| SteadyNum(v)).collect();
    let mut engine = Evolver::with_workers(pop, 1).unwrap();
    // seven slots cut at size four: a full chunk [9, 1, 1, 9] and a remainder
    // chunk [9, 1, 9]; both middles rise to their midpoints, then the ring
    // rotates left by one slot
    engine.evolve_chunked_with_size(4);
    let after: Vec<i64> = engine.population_ref().iter().map(|g| g.0).collect();
    assert_eq!(after, vec![5, 5, 9, 9, 5, 9, 9]);
}

#[test]
fn the_picked_chunking_preserves_length_and_membership_bounds() {
    let pop: Vec<EvNum> = (0..4096).map(EvNum).collect();
    let mut engine = Evolver::new(pop).unwrap();
    engine.evolve_chunked();
    assert_eq!(engine.len(), 4096);
}
