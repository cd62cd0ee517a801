use simple_concurrent_get::Outcome;
use simple_concurrent_get::RunnerError;
use simple_concurrent_get::runner::run_ordered;
use simple_concurrent_get::runner::run_ordered_fifo;
use simple_concurrent_get::runner::run_unordered;
use simple_concurrent_get::runner::run_unordered_fifo;

type O = Outcome<u64, String>;

fn successes(values: &[u64]) -> Vec<O> {
    values.iter().map(|v| Outcome::Success(*v)).collect()
}

#[test]
fn zero_concurrency_is_rejected_unordered() {
    let outcomes: Vec<O> = successes(&[1, 2, 3]);
    let schedule: Vec<usize> = Vec::new();
    let res = run_unordered(outcomes, 0, &schedule);
    assert_eq!(res.err(), Some(RunnerError::InvalidConcurrency));
}

#[test]
fn zero_concurrency_is_rejected_ordered() {
    let outcomes: Vec<O> = successes(&[1, 2, 3]);
    let schedule: Vec<usize> = Vec::new();
    let res = run_ordered(outcomes, 0, &schedule);
    assert_eq!(res.err(), Some(RunnerError::InvalidConcurrency));
}

#[test]
fn empty_batch_returns_empty_report() {
    let outcomes: Vec<O> = Vec::new();
    let schedule: Vec<usize> = Vec::new();
    let rep = run_unordered(outcomes, 3, &schedule).unwrap();
    assert_eq!(rep.results.len(), 0);
    assert_eq!(rep.completion_order.len(), 0);
    assert_eq!(rep.max_in_flight, 0);
}

#[test]
fn both_runners_deliver_every_item() {
    let schedule: Vec<usize> = vec![1, 0, 1, 0, 0];
    let rep_u = run_unordered(successes(&[10, 20, 30, 40, 50]), 2, &schedule).unwrap();
    let rep_o = run_ordered(successes(&[10, 20, 30, 40, 50]), 2, &schedule).unwrap();
    assert_eq!(rep_u.results.len(), 5);
    assert_eq!(rep_o.results.len(), 5);
    let mut got_u: Vec<O> = rep_u.results.clone();
    let mut got_o: Vec<O> = rep_o.results.clone();
    got_u.sort_by_key(key_of);
    got_o.sort_by_key(key_of);
    assert_eq!(got_u, got_o);
}

fn key_of(o: &O) -> u64 {
    match o {
        Outcome::Success(v) => *v,
        Outcome::Failure(_) => u64::MAX,
    }
}

#[test]
fn ordered_output_matches_input_for_adversarial_schedules() {
    // several completion orders, including one where the first item is the
    // slowest: the ordered report never changes
    let schedules: Vec<Vec<usize>> = vec![
        vec![],
        vec![0, 0, 0, 0, 0, 0],
        vec![1, 1, 1, 1, 1, 1],
        vec![2, 1, 0, 2, 1, 0],
        vec![usize::MAX, 7, 5, 3, 2, 1],
    ];
    for schedule in &schedules {
        let rep = run_ordered(successes(&[9, 8, 7, 6, 5, 4]), 3, schedule).unwrap();
        assert_eq!(
            rep.results,
            successes(&[9, 8, 7, 6, 5, 4]),
            "ordered output must equal input order"
        );
    }
}

#[test]
fn unordered_completion_order_follows_schedule() {
    // three items, bound three: all launch at once, the schedule picks
    // in-flight position 1, then 0, then the only one left
    let schedule: Vec<usize> = vec![1, 0, 0];
    let rep = run_unordered(successes(&[100, 200, 300]), 3, &schedule).unwrap();
    assert_eq!(rep.completion_order, vec![1, 0, 2]);
    assert_eq!(rep.results, successes(&[200, 100, 300]));
    assert_eq!(rep.max_in_flight, 3);
}

#[test]
fn serialized_runners_agree_exactly() {
    // bound 1: no reordering is possible, whatever the schedule says
    let schedule: Vec<usize> = vec![5, 3, 9];
    let rep_u = run_unordered(successes(&[11, 22, 33]), 1, &schedule).unwrap();
    let rep_o = run_ordered(successes(&[11, 22, 33]), 1, &schedule).unwrap();
    assert_eq!(rep_u.results, successes(&[11, 22, 33]));
    assert_eq!(rep_o.results, successes(&[11, 22, 33]));
    assert_eq!(rep_u.completion_order, vec![0, 1, 2]);
    assert_eq!(rep_u.max_in_flight, 1);
    assert_eq!(rep_o.max_in_flight, 1);
}

#[test]
fn fifo_runners_keep_input_order() {
    let rep_u = run_unordered_fifo(successes(&[5, 6, 7, 8]), 2).unwrap();
    let rep_o = run_ordered_fifo(successes(&[5, 6, 7, 8]), 2).unwrap();
    assert_eq!(rep_u.results, successes(&[5, 6, 7, 8]));
    assert_eq!(rep_o.results, successes(&[5, 6, 7, 8]));
}

#[test]
fn gate_high_water_mark_is_the_bound() {
    // seven items, bound four: the pipeline reaches, and never exceeds,
    // four simultaneous operations
    let schedule: Vec<usize> = vec![3, 1, 2, 0, 1, 0, 0];
    let rep = run_unordered(successes(&[1, 2, 3, 4, 5, 6, 7]), 4, &schedule).unwrap();
    assert_eq!(rep.max_in_flight, 4);
}

#[test]
fn gate_high_water_mark_is_the_batch_when_smaller() {
    let schedule: Vec<usize> = Vec::new();
    let rep = run_ordered(successes(&[1, 2]), 9, &schedule).unwrap();
    assert_eq!(rep.max_in_flight, 2);
}

#[test]
fn single_failure_stays_in_its_slot() {
    // one of five operations fails; its position reports the failure and
    // every other position keeps its success
    let outcomes: Vec<O> = vec![
        Outcome::Success(1),
        Outcome::Success(2),
        Outcome::Failure("timeout".to_string()),
        Outcome::Success(4),
        Outcome::Success(5),
    ];
    let schedule: Vec<usize> = vec![2, 0, 1, 1, 0];
    let rep = run_ordered(outcomes.clone(), 2, &schedule).unwrap();
    assert_eq!(rep.results, outcomes);
    assert_eq!(rep.results[2], Outcome::Failure("timeout".to_string()));

    let rep_u = run_unordered(outcomes.clone(), 2, &schedule).unwrap();
    let failures: Vec<&O> = rep_u
        .results
        .iter()
        .filter(|o| matches!(o, Outcome::Failure(_)))
        .collect();
    assert_eq!(failures.len(), 1);
    assert_eq!(*failures[0], Outcome::Failure("timeout".to_string()));
    assert_eq!(rep_u.results.len(), 5);
}
