//! The callback sink: each outcome is passed through a caller-supplied
//! transformation before it is accumulated, honoring the active runner's
//! ordering discipline. Collect mode is the plain runners in
//! [`crate::runner`]; this module is the callback mode.

use vstd::prelude::*;
use crate::outcome::Outcome;
use crate::outcome::RunnerError;
use crate::runner::RunReport;
use crate::runner::gate_trace_ok;
use crate::runner::is_index_permutation;
use crate::runner::ordered_run_ok;
use crate::runner::run_ordered;
use crate::runner::run_unordered;
use crate::runner::unordered_run_ok;

verus! {

/// Unordered runner, callback mode: every outcome is handed to
/// `run_for_each` as its operation completes, and the transformed values are
/// accumulated in completion order. Position `k` of the report holds a value
/// the callback may return for the outcome of the operation that completed
/// `k`-th — so for a deterministic callback, the report is exactly the
/// collect-mode report mapped through it.
pub fn run_unordered_foreach<T, E, R, F: Fn(Outcome<T, E>) -> R>(
    outcomes: Vec<Outcome<T, E>>,
    n: usize,
    schedule: &Vec<usize>,
    run_for_each: F,
) -> (res: Result<RunReport<R>, RunnerError>)
    requires
        forall|j: int| 0 <= j < outcomes@.len() ==> call_requires(run_for_each, (outcomes@[j],)),
    ensures
        n == 0 <==> res is Err,
        res matches Err(e) ==> e == RunnerError::InvalidConcurrency,
        res matches Ok(r) ==> {
            &&& is_index_permutation(r.completion_order@, outcomes@.len())
            &&& r.results@.len() == outcomes@.len()
            &&& forall|k: int| 0 <= k < r.results@.len() ==> call_ensures(
                run_for_each,
                (outcomes@[r.completion_order@[k] as int],),
                #[trigger] r.results@[k],
            )
            &&& gate_trace_ok(outcomes@.len(), n as int, r.max_in_flight as int)
        },
{
    let ghost orig = outcomes@;
    match run_unordered(outcomes, n, schedule) {
        Err(e) => Err(e),
        Ok(rep) => {
            let RunReport { results, completion_order: order, max_in_flight } = rep;
            let ghost coll = results@;
            let mut remaining = results;
            let mut mapped: Vec<R> = Vec::new();
            while remaining.len() > 0
                invariant
                    unordered_run_ok(orig, n as int, coll, order@, max_in_flight as int),
                    forall|j: int| 0 <= j < orig.len() ==> call_requires(
                        run_for_each,
                        (orig[j],),
                    ),
                    remaining@ == coll.skip(mapped@.len() as int),
                    mapped@.len() + remaining@.len() == coll.len(),
                    forall|k: int| 0 <= k < mapped@.len() ==> call_ensures(
                        run_for_each,
                        (coll[k],),
                        #[trigger] mapped@[k],
                    ),
                decreases remaining@.len(),
            {
                let ghost k = mapped@.len() as int;
                let o = remaining.remove(0);
                proof {
                    assert(o == coll[k]);
                    assert(coll[k] == orig[order@[k] as int]);
                    assert(order@[k] < orig.len());
                }
                let r = run_for_each(o);
                mapped.push(r);
            }
            proof {
                assert forall|k: int| 0 <= k < mapped@.len() implies call_ensures(
                    run_for_each,
                    (orig[order@[k] as int],),
                    #[trigger] mapped@[k],
                ) by {
                    assert(coll[k] == orig[order@[k] as int]);
                }
            }
            Ok(RunReport { results: mapped, completion_order: order, max_in_flight })
        },
    }
}

/// Ordered runner, callback mode: outcomes pass through `run_for_each` and
/// the transformed values are accumulated in input order. Position `i` of
/// the report holds a value the callback may return for input outcome `i` —
/// so for a deterministic callback, the report is exactly the collect-mode
/// report mapped through it.
pub fn run_ordered_foreach<T, E, R, F: Fn(Outcome<T, E>) -> R>(
    outcomes: Vec<Outcome<T, E>>,
    n: usize,
    schedule: &Vec<usize>,
    run_for_each: F,
) -> (res: Result<RunReport<R>, RunnerError>)
    requires
        forall|j: int| 0 <= j < outcomes@.len() ==> call_requires(run_for_each, (outcomes@[j],)),
    ensures
        n == 0 <==> res is Err,
        res matches Err(e) ==> e == RunnerError::InvalidConcurrency,
        res matches Ok(r) ==> {
            &&& is_index_permutation(r.completion_order@, outcomes@.len())
            &&& r.results@.len() == outcomes@.len()
            &&& forall|i: int| 0 <= i < r.results@.len() ==> call_ensures(
                run_for_each,
                (outcomes@[i],),
                #[trigger] r.results@[i],
            )
            &&& gate_trace_ok(outcomes@.len(), n as int, r.max_in_flight as int)
        },
{
    let ghost orig = outcomes@;
    match run_ordered(outcomes, n, schedule) {
        Err(e) => Err(e),
        Ok(rep) => {
            let RunReport { results, completion_order: order, max_in_flight } = rep;
            let ghost coll = results@;
            let mut remaining = results;
            let mut mapped: Vec<R> = Vec::new();
            while remaining.len() > 0
                invariant
                    ordered_run_ok(orig, n as int, coll, order@, max_in_flight as int),
                    forall|j: int| 0 <= j < orig.len() ==> call_requires(
                        run_for_each,
                        (orig[j],),
                    ),
                    remaining@ == coll.skip(mapped@.len() as int),
                    mapped@.len() + remaining@.len() == coll.len(),
                    forall|i: int| 0 <= i < mapped@.len() ==> call_ensures(
                        run_for_each,
                        (coll[i],),
                        #[trigger] mapped@[i],
                    ),
                decreases remaining@.len(),
            {
                let ghost k = mapped@.len() as int;
                let o = remaining.remove(0);
                proof {
                    assert(o == coll[k]);
                }
                let r = run_for_each(o);
                mapped.push(r);
            }
            Ok(RunReport { results: mapped, completion_order: order, max_in_flight })
        },
    }
}

} // verus!
