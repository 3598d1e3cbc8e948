use evolver::reduce::{get_best, get_average};
use evolver::{EvNum, EvolveError};

#[test]
fn best_of_three_is_the_five() {
    let pop = vec![EvNum(1), EvNum(5), EvNum(3)];
    let best = get_best(&pop).unwrap();
    assert_eq!(best.0, 5);
}

#[test]
fn average_of_three_is_three() {
    let pop = vec![EvNum(1), EvNum(5), EvNum(3)];
    assert_eq!(get_average(&pop).unwrap(), 3);
}

#[test]
fn reductions_fail_on_an_empty_population() {
    let pop: Vec<EvNum> = Vec::new();
    assert_eq!(get_best(&pop).unwrap_err(), EvolveError::EmptyPopulation);
    assert_eq!(get_average(&pop).unwrap_err(), EvolveError::EmptyPopulation);
}

#[test]
fn a_negative_average_rounds_toward_zero() {
    let pop = vec![EvNum(-5), EvNum(-6)];
    assert_eq!(get_average(&pop).unwrap(), -5);
}

#[test]
fn best_handles_negative_scores() {
    let pop = vec![EvNum(-9), EvNum(-2), EvNum(-4)];
    assert_eq!(get_best(&pop).unwrap().0, -2);
}

#[test]
fn average_of_extreme_scores_stays_in_range() {
    let pop = vec![EvNum(i64::MAX), EvNum(i64::MAX)];
    assert_eq!(get_average(&pop).unwrap(), i64::MAX);
    let pop = vec![EvNum(i64::MIN), EvNum(i64::MIN), EvNum(i64::MIN)];
    assert_eq!(get_average(&pop).unwrap(), i64::MIN);
}
