use simple_concurrent_get::Gate;
use simple_concurrent_get::Outcome;
use simple_concurrent_get::RunnerError;
use simple_concurrent_get::runner::perform_all;
use simple_concurrent_get::runner::run_ordered;
use simple_concurrent_get::runner::run_ordered_op;
use simple_concurrent_get::runner::run_unordered;
use simple_concurrent_get::runner::run_unordered_op;
use simple_concurrent_get::sink::run_ordered_foreach;
use simple_concurrent_get::sink::run_unordered_foreach;

type O = Outcome<u64, String>;

fn descriptors() -> Vec<String> {
    vec![
        "alpha".to_string(),
        "be".to_string(),
        "gamma ray".to_string(),
        "d".to_string(),
        "epsilon!".to_string(),
        "zeta".to_string(),
        "eta eta eta".to_string(),
    ]
}

fn length_op(d: String) -> O {
    Outcome::Success(d.len() as u64)
}

#[test]
fn seven_descriptors_bound_four_runners_agree() {
    // each operation deterministically returns the descriptor's length;
    // the unordered result set, sorted, equals the ordered result list
    let schedule: Vec<usize> = vec![3, 3, 1, 0, 2, 1, 0];
    let rep_u = run_unordered_op(descriptors(), 4, &schedule, length_op).unwrap();
    let rep_o = run_ordered_op(descriptors(), 4, &schedule, length_op).unwrap();

    let expected: Vec<O> = descriptors()
        .into_iter()
        .map(|d| Outcome::Success(d.len() as u64))
        .collect();
    assert_eq!(rep_o.results, expected);

    let mut sorted_u: Vec<u64> = rep_u.results.iter().map(unwrap_len).collect();
    sorted_u.sort();
    let mut sorted_e: Vec<u64> = expected.iter().map(unwrap_len).collect();
    sorted_e.sort();
    assert_eq!(sorted_u, sorted_e);
    assert_eq!(rep_u.max_in_flight, 4);
    assert_eq!(rep_o.max_in_flight, 4);
}

fn unwrap_len(o: &O) -> u64 {
    match o {
        Outcome::Success(v) => *v,
        Outcome::Failure(_) => panic!("expected success"),
    }
}

#[test]
fn perform_all_is_index_aligned() {
    let outs = perform_all(descriptors(), length_op);
    let expected: Vec<O> = descriptors()
        .into_iter()
        .map(|d| Outcome::Success(d.len() as u64))
        .collect();
    assert_eq!(outs, expected);
}

#[test]
fn op_runners_reject_zero_concurrency() {
    let schedule: Vec<usize> = Vec::new();
    assert_eq!(
        run_unordered_op(descriptors(), 0, &schedule, length_op).err(),
        Some(RunnerError::InvalidConcurrency)
    );
    assert_eq!(
        run_ordered_op(descriptors(), 0, &schedule, length_op).err(),
        Some(RunnerError::InvalidConcurrency)
    );
}

fn describe_outcome(o: O) -> String {
    match o {
        Outcome::Success(v) => format!("ok:{}", v),
        Outcome::Failure(e) => format!("err:{}", e),
    }
}

#[test]
fn callback_mode_equals_mapped_collect_mode_ordered() {
    let outcomes: Vec<O> = vec![
        Outcome::Success(3),
        Outcome::Failure("timeout".to_string()),
        Outcome::Success(9),
    ];
    let schedule: Vec<usize> = vec![1, 1, 0];
    let collected = run_ordered(outcomes.clone(), 2, &schedule).unwrap();
    let mapped = run_ordered_foreach(outcomes, 2, &schedule, describe_outcome).unwrap();
    let expected: Vec<String> = collected.results.into_iter().map(describe_outcome).collect();
    assert_eq!(mapped.results, expected);
    assert_eq!(mapped.results, vec!["ok:3".to_string(), "err:timeout".to_string(), "ok:9".to_string()]);
}

#[test]
fn callback_mode_equals_mapped_collect_mode_unordered() {
    let outcomes: Vec<O> = vec![
        Outcome::Success(3),
        Outcome::Failure("timeout".to_string()),
        Outcome::Success(9),
    ];
    let schedule: Vec<usize> = vec![1, 1, 0];
    let collected = run_unordered(outcomes.clone(), 2, &schedule).unwrap();
    let mapped = run_unordered_foreach(outcomes, 2, &schedule, describe_outcome).unwrap();
    assert_eq!(collected.completion_order, mapped.completion_order);
    let expected: Vec<String> = collected.results.into_iter().map(describe_outcome).collect();
    assert_eq!(mapped.results, expected);
}

#[test]
fn foreach_rejects_zero_concurrency() {
    let outcomes: Vec<O> = vec![Outcome::Success(1)];
    let schedule: Vec<usize> = Vec::new();
    let res = run_unordered_foreach(outcomes, 0, &schedule, describe_outcome);
    assert_eq!(res.err(), Some(RunnerError::InvalidConcurrency));
}

#[test]
fn gate_tokens_are_bounded() {
    let mut gate = Gate::new(2).unwrap();
    assert_eq!(gate.available(), 2);
    assert!(gate.try_acquire());
    assert!(gate.try_acquire());
    assert!(!gate.try_acquire());
    assert_eq!(gate.occupied(), 2);
    gate.release();
    assert_eq!(gate.available(), 1);
    assert!(gate.try_acquire());
    assert!(!gate.try_acquire());
}

#[test]
fn gate_rejects_zero_capacity() {
    assert_eq!(Gate::new(0).err(), Some(RunnerError::InvalidConcurrency));
}

#[test]
fn runner_error_describes_itself() {
    assert_eq!(
        RunnerError::InvalidConcurrency.describe(),
        "concurrency bound must be at least 1"
    );
    assert_eq!(
        RunnerError::SubstrateFailure.describe(),
        "scheduling substrate failed"
    );
}

#[test]
fn outcome_reports_its_variant() {
    let s: O = Outcome::Success(1);
    let f: O = Outcome::Failure("no".to_string());
    assert!(s.is_success());
    assert!(!s.is_failure());
    assert!(f.is_failure());
    assert!(!f.is_success());
}
