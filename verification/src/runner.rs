//! The runners: drive a batch of operations through the concurrency gate and
//! collect each operation's outcome under an ordering discipline.
//!
//! A concurrent substrate decides, at each instant, which of the in-flight
//! operations finishes next. The runners here take that decision as an
//! explicit *schedule* argument — a sequence of picks among the operations
//! currently in flight — so everything proved about them holds for every
//! completion order a substrate could produce. A schedule does not choose
//! *what* runs: admission is always in input order, token-bounded.

use vstd::prelude::*;
use vstd::multiset::Multiset;
use crate::gate::Gate;
use crate::outcome::Outcome;
use crate::outcome::RunnerError;

verus! {

broadcast use vstd::seq_lib::group_to_multiset_ensures, vstd::multiset::group_multiset_axioms, vstd::set::group_set_axioms, vstd::seq_lib::seq_to_set_is_finite;

/// The input positions of a completion trace.
pub open spec fn trace_indices<O>(s: Seq<(usize, O)>) -> Seq<usize> {
    s.map_values(|p: (usize, O)| p.0)
}

/// The delivered values of a completion trace.
pub open spec fn trace_vals<O>(s: Seq<(usize, O)>) -> Seq<O> {
    s.map_values(|p: (usize, O)| p.1)
}

/// `p` lists each input position below `m` exactly once.
pub open spec fn is_index_permutation(p: Seq<usize>, m: nat) -> bool {
    &&& p.len() == m
    &&& forall|j: int| 0 <= j < p.len() ==> (#[trigger] p[j]) < m
    &&& p.no_duplicates()
}

/// What holds of the token pool over a whole run: no instant ever saw more than
/// `n` operations in flight, and — since admission is eager — the pipeline
/// did reach `n` simultaneous operations whenever the batch was large
/// enough, `m` otherwise.
pub open spec fn gate_trace_ok(m: nat, n: int, max_in_flight: int) -> bool {
    &&& 0 <= max_in_flight <= n
    &&& max_in_flight <= m
    &&& m > 0 ==> max_in_flight == vstd::math::min(n, m as int)
    &&& m == 0 ==> max_in_flight == 0
}

/// What a successful unordered run reports: results in completion order.
/// Every input position completed exactly once; the value at report position
/// `k` is the outcome of the operation that completed `k`-th; and the
/// results as a whole are exactly the input outcomes, reordered.
pub open spec fn unordered_run_ok<O>(
    outcomes: Seq<O>,
    n: int,
    results: Seq<O>,
    order: Seq<usize>,
    max_in_flight: int,
) -> bool {
    &&& is_index_permutation(order, outcomes.len())
    &&& results.len() == outcomes.len()
    &&& forall|k: int| 0 <= k < results.len() ==> #[trigger] results[k] == outcomes[order[k] as int]
    &&& results.to_multiset() == outcomes.to_multiset()
    &&& gate_trace_ok(outcomes.len(), n, max_in_flight)
}

/// What a successful ordered run reports: the same completion trace as an
/// unordered run, but the results are re-established in input order — the
/// report equals the input outcomes exactly, whatever the completion order.
pub open spec fn ordered_run_ok<O>(
    outcomes: Seq<O>,
    n: int,
    results: Seq<O>,
    order: Seq<usize>,
    max_in_flight: int,
) -> bool {
    &&& is_index_permutation(order, outcomes.len())
    &&& results == outcomes
    &&& gate_trace_ok(outcomes.len(), n, max_in_flight)
}

/// What the shared engine guarantees of a completion trace.
pub open spec fn engine_trace_ok<O>(
    outcomes: Seq<O>,
    n: int,
    trace: Seq<(usize, O)>,
    max_in_flight: int,
) -> bool {
    &&& is_index_permutation(trace_indices(trace), outcomes.len())
    &&& forall|k: int| 0 <= k < trace.len() ==> (#[trigger] trace[k]).1 == outcomes[trace[k].0 as int]
    &&& trace_vals(trace).to_multiset() == outcomes.to_multiset()
    &&& gate_trace_ok(outcomes.len(), n, max_in_flight)
}

/// The report of a successful run: the collected results, the input
/// positions in the order their operations completed, and the greatest
/// number of operations that were ever in flight at one instant.
pub struct RunReport<O> {
    /// The collected results, in the order fixed by the runner's discipline.
    pub results: Vec<O>,
    /// Input positions in the order their operations completed.
    pub completion_order: Vec<usize>,
    /// The greatest number of operations in flight at any instant.
    pub max_in_flight: usize,
}

/// The shared gate-bounded engine, used by both disciplines.
///
/// Admission: input order, eagerly, whenever a concurrency token is free.
/// Completion: the schedule picks one in-flight operation (the pick is read
/// modulo the number in flight, so any sequence of numbers is a valid
/// schedule, and an empty schedule completes oldest-first); its token is
/// released at once, letting the next queued item start. The returned trace
/// lists `(input position, outcome)` in completion order.
fn drive<O>(outcomes: Vec<O>, n: usize, schedule: &Vec<usize>) -> (r: (Vec<(usize, O)>, usize))
    requires
        n >= 1,
    ensures
        engine_trace_ok(outcomes@, n as int, r.0@, r.1 as int),
{
    let ghost orig: Seq<O> = outcomes@;
    let m: usize = outcomes.len();
    let mut rest: Vec<O> = outcomes;
    let mut gate: Gate = match Gate::new(n) {
        Ok(g) => g,
        Err(_) => { return unreached(); },
    };
    let mut in_flight: Vec<(usize, O)> = Vec::new();
    let mut trace: Vec<(usize, O)> = Vec::new();
    let mut next: usize = 0;
    let mut max_in_flight: usize = 0;

    while trace.len() < m
        invariant
            n >= 1,
            m == orig.len(),
            next <= m,
            rest@ == orig.skip(next as int),
            gate.wf(),
            gate.capacity() == n as int,
            gate.held() == in_flight@.len(),
            in_flight@.len() <= n,
            next == trace@.len() + in_flight@.len(),
            forall|j: int| 0 <= j < in_flight@.len()
                ==> (#[trigger] in_flight@[j]).0 < next && in_flight@[j].1 == orig[in_flight@[j].0 as int],
            forall|k: int| 0 <= k < trace@.len()
                ==> (#[trigger] trace@[k]).0 < next && trace@[k].1 == orig[trace@[k].0 as int],
            forall|j1: int, j2: int| 0 <= j1 < j2 < in_flight@.len()
                ==> in_flight@[j1].0 != in_flight@[j2].0,
            forall|k1: int, k2: int| 0 <= k1 < k2 < trace@.len()
                ==> trace@[k1].0 != trace@[k2].0,
            forall|k: int, j: int| 0 <= k < trace@.len() && 0 <= j < in_flight@.len()
                ==> trace@[k].0 != in_flight@[j].0,
            trace_vals(trace@).to_multiset()
                .add(trace_vals(in_flight@).to_multiset())
                .add(rest@.to_multiset()) == orig.to_multiset(),
            max_in_flight as int <= n as int,
            max_in_flight <= next,
            max_in_flight as int >= in_flight@.len(),
            trace@.len() > 0 ==> max_in_flight as int >= vstd::math::min(n as int, m as int),
        decreases m - trace@.len(), m - next,
    {
        let launched: bool = if next < m { gate.try_acquire() } else { false };
        if launched {
            let ghost pre_rest = rest@;
            let ghost pre_flight = in_flight@;
            let o = rest.remove(0);
            proof {
                assert(pre_rest[0] == orig[next as int]);
                assert(rest@ =~= orig.skip(next as int + 1));
            }
            in_flight.push((next, o));
            next = next + 1;
            if in_flight.len() > max_in_flight {
                max_in_flight = in_flight.len();
            }
            proof {
                let v = orig[next as int - 1];
                assert(trace_vals(in_flight@) =~= trace_vals(pre_flight).push(v));
                assert(trace_vals(pre_flight).push(v).to_multiset()
                    =~= trace_vals(pre_flight).to_multiset().insert(v));
                assert(pre_rest.contains(v)) by {
                    assert(pre_rest[0] == v);
                }
                assert(pre_rest.to_multiset().count(v) > 0);
                assert(rest@ =~= pre_rest.remove(0));
                assert(rest@.to_multiset() == pre_rest.to_multiset().remove(v));
                assert(trace_vals(trace@).to_multiset()
                    .add(trace_vals(in_flight@).to_multiset())
                    .add(rest@.to_multiset()) =~= orig.to_multiset());
            }
        } else {
            proof {
                if next < m {
                    // every token is taken: exactly n operations are in flight
                    assert(in_flight@.len() == n);
                } else {
                    // everything is launched but not everything has completed
                    assert(in_flight@.len() == m - trace@.len());
                }
                assert(in_flight@.len() >= 1);
                if trace@.len() == 0 {
                    // the first completion: the token pool has been seen at its
                    // high-water mark already
                    assert(max_in_flight as int >= vstd::math::min(n as int, m as int));
                }
            }
            let completed: usize = trace.len();
            let seed: usize = if schedule.len() == 0 {
                0
            } else {
                schedule[completed % schedule.len()]
            };
            let pick: usize = seed % in_flight.len();
            let ghost pre_flight = in_flight@;
            let ghost pre_trace = trace@;
            let entry = in_flight.remove(pick);
            gate.release();
            trace.push(entry);
            proof {
                let v = entry.1;
                assert(entry == pre_flight[pick as int]);
                assert(trace_vals(in_flight@) =~= trace_vals(pre_flight).remove(pick as int));
                assert(trace_vals(pre_flight)[pick as int] == v);
                assert(trace_vals(pre_flight).remove(pick as int).to_multiset()
                    == trace_vals(pre_flight).to_multiset().remove(v));
                assert(trace_vals(pre_flight).contains(v)) by {
                    assert(trace_vals(pre_flight)[pick as int] == v);
                }
                assert(trace_vals(pre_flight).to_multiset().count(v) > 0);
                assert(trace_vals(trace@) =~= trace_vals(pre_trace).push(v));
                assert(trace_vals(pre_trace).push(v).to_multiset()
                    =~= trace_vals(pre_trace).to_multiset().insert(v));
                assert(trace_vals(trace@).to_multiset()
                    .add(trace_vals(in_flight@).to_multiset())
                    .add(rest@.to_multiset()) =~= orig.to_multiset());
                // the moved entry keeps positions distinct on both sides
                assert(forall|j: int| 0 <= j < in_flight@.len()
                    ==> (#[trigger] in_flight@[j]) == pre_flight[if j < pick as int { j } else { j + 1 }]);
            }
        }
    }
    proof {
        assert(trace@.len() == m);
        assert(in_flight@.len() == 0);
        assert(next == m);
        assert(rest@.len() == 0);
        assert(trace_vals(in_flight@).to_multiset() =~= Multiset::empty()) by {
            vstd::multiset::lemma_multiset_empty_len(trace_vals(in_flight@).to_multiset());
        }
        assert(rest@.to_multiset() =~= Multiset::empty()) by {
            vstd::multiset::lemma_multiset_empty_len(rest@.to_multiset());
        }
        assert(trace_vals(trace@).to_multiset() =~= orig.to_multiset());
        assert(is_index_permutation(trace_indices(trace@), m as nat)) by {
            assert(trace_indices(trace@).len() == m);
            assert forall|j: int| 0 <= j < trace_indices(trace@).len()
                implies (#[trigger] trace_indices(trace@)[j]) < m by {
                assert(trace_indices(trace@)[j] == trace@[j].0);
            }
            assert(trace_indices(trace@).no_duplicates()) by {
                assert forall|i: int, j: int|
                    0 <= i < trace_indices(trace@).len() && 0 <= j < trace_indices(trace@).len()
                        && i != j
                    implies trace_indices(trace@)[i] != trace_indices(trace@)[j] by {
                    assert(trace_indices(trace@)[i] == trace@[i].0);
                    assert(trace_indices(trace@)[j] == trace@[j].0);
                }
            }
        }
    }
    (trace, max_in_flight)
}

/// Every position below `m` occurs in an index permutation: together with
/// `no_duplicates`, listing `m` in-range positions forces each to appear.
proof fn lemma_index_permutation_complete(p: Seq<usize>, m: nat)
    requires
        is_index_permutation(p, m),
    ensures
        forall|x: usize| x < m ==> #[trigger] p.contains(x),
{
    let q = p.map_values(|u: usize| u as int);
    assert(q.no_duplicates()) by {
        assert forall|i: int, j: int|
            0 <= i < q.len() && 0 <= j < q.len() && i != j implies q[i] != q[j] by {
            assert(p[i] != p[j]);
        }
    }
    q.unique_seq_to_set();
    vstd::set_lib::lemma_int_range(0, m as int);
    assert(q.to_set().subset_of(vstd::set_lib::set_int_range(0, m as int))) by {
        assert forall|x: int| q.to_set().contains(x)
            implies vstd::set_lib::set_int_range(0, m as int).contains(x) by {
            assert(q.contains(x));
            let i = choose|i: int| 0 <= i < q.len() && q[i] == x;
            assert(p[i] < m);
        }
    }
    vstd::set_lib::lemma_subset_equality(q.to_set(), vstd::set_lib::set_int_range(0, m as int));
    assert forall|x: usize| x < m implies #[trigger] p.contains(x) by {
        assert(vstd::set_lib::set_int_range(0, m as int).contains(x as int));
        assert(q.to_set().contains(x as int));
        assert(q.contains(x as int));
        let i = choose|i: int| 0 <= i < q.len() && q[i] == x as int;
        assert(p[i] == x);
    }
}

/// Unordered runner: results are delivered in completion order. The report
/// holds exactly the input outcomes, reordered by when each operation
/// completed; a bound of zero is rejected before anything is admitted.
pub fn run_unordered<T, E>(
    outcomes: Vec<Outcome<T, E>>,
    n: usize,
    schedule: &Vec<usize>,
) -> (res: Result<RunReport<Outcome<T, E>>, RunnerError>)
    ensures
        n == 0 <==> res is Err,
        res matches Err(e) ==> e == RunnerError::InvalidConcurrency,
        res matches Ok(r) ==> unordered_run_ok(
            outcomes@,
            n as int,
            r.results@,
            r.completion_order@,
            r.max_in_flight as int,
        ),
{
    if n == 0 {
        return Err(RunnerError::InvalidConcurrency);
    }
    let ghost orig = outcomes@;
    let m: usize = outcomes.len();
    let (t, max_in_flight) = drive(outcomes, n, schedule);
    let mut t = t;
    let ghost all = t@;
    let mut results: Vec<Outcome<T, E>> = Vec::new();
    let mut order: Vec<usize> = Vec::new();
    while t.len() > 0
        invariant
            engine_trace_ok(orig, n as int, all, max_in_flight as int),
            m == orig.len(),
            t@ == all.skip(results@.len() as int),
            results@.len() + t@.len() == all.len(),
            order@.len() == results@.len(),
            forall|k: int| 0 <= k < results@.len()
                ==> #[trigger] results@[k] == all[k].1 && order@[k] == all[k].0,
        decreases t@.len(),
    {
        let ghost k = results@.len() as int;
        let p = t.remove(0);
        proof {
            assert(p == all[k]);
        }
        order.push(p.0);
        results.push(p.1);
    }
    proof {
        assert(results@.len() == all.len());
        assert(results@ =~= trace_vals(all));
        assert(order@ =~= trace_indices(all)) by {
            assert(order@.len() == all.len());
            assert forall|k: int| 0 <= k < order@.len() implies order@[k] == trace_indices(
                all,
            )[k] by {
                assert(results@[k] == all[k].1);
                assert(trace_indices(all)[k] == all[k].0);
            }
        }
        assert forall|k: int| 0 <= k < results@.len()
            implies #[trigger] results@[k] == orig[order@[k] as int] by {
            assert(order@[k] == all[k].0);
            assert(all[k].0 < orig.len());
            assert(all[k].1 == orig[all[k].0 as int]);
        }
    }
    Ok(RunReport { results, completion_order: order, max_in_flight })
}

/// Ordered runner: the same admission, gate interaction and completion trace
/// as the unordered runner, but each completed outcome is parked in the slot
/// of its input position, and the slots are emitted in input order — so the
/// report equals the input exactly, at the cost of head-of-line blocking
/// when an early operation straggles.
pub fn run_ordered<T, E>(
    outcomes: Vec<Outcome<T, E>>,
    n: usize,
    schedule: &Vec<usize>,
) -> (res: Result<RunReport<Outcome<T, E>>, RunnerError>)
    ensures
        n == 0 <==> res is Err,
        res matches Err(e) ==> e == RunnerError::InvalidConcurrency,
        res matches Ok(r) ==> ordered_run_ok(
            outcomes@,
            n as int,
            r.results@,
            r.completion_order@,
            r.max_in_flight as int,
        ),
{
    if n == 0 {
        return Err(RunnerError::InvalidConcurrency);
    }
    let ghost orig = outcomes@;
    let m: usize = outcomes.len();
    let (t, max_in_flight) = drive(outcomes, n, schedule);
    let mut t = t;
    let ghost all = t@;

    // one result slot per input position, each written exactly once
    let mut slots: Vec<Option<Outcome<T, E>>> = Vec::with_capacity(m);
    let mut i: usize = 0;
    while i < m
        invariant
            i <= m,
            slots@.len() == i,
            forall|j: int| 0 <= j < i ==> (#[trigger] slots@[j]) is None,
        decreases m - i,
    {
        slots.push(None);
        i = i + 1;
    }

    let mut order: Vec<usize> = Vec::new();
    while t.len() > 0
        invariant
            engine_trace_ok(orig, n as int, all, max_in_flight as int),
            m == orig.len(),
            t@ == all.skip(order@.len() as int),
            order@.len() + t@.len() == all.len(),
            forall|k: int| 0 <= k < order@.len() ==> #[trigger] order@[k] == all[k].0,
            slots@.len() == m,
            forall|j: int| 0 <= j < m
                ==> ((#[trigger] slots@[j]) is Some <==> exists|k: int|
                    0 <= k < order@.len() && all[k].0 == j),
            forall|j: int| 0 <= j < m
                ==> ((#[trigger] slots@[j]) matches Some(v) ==> v == orig[j]),
        decreases t@.len(),
    {
        let ghost k = order@.len() as int;
        let p = t.remove(0);
        proof {
            assert(p == all[k]);
            assert(trace_indices(all)[k] == all[k].0);
            assert(p.0 < m);
        }
        let idx: usize = p.0;
        let ghost pre_slots = slots@;
        let _vacant = slots.remove(idx);
        slots.insert(idx, Some(p.1));
        order.push(idx);
        proof {
            assert(slots@ =~= pre_slots.update(idx as int, Some(p.1)));
            assert forall|j: int| 0 <= j < m
                implies ((#[trigger] slots@[j]) is Some <==> exists|k2: int|
                    0 <= k2 < order@.len() && all[k2].0 == j) by {
                if j == idx as int {
                    assert(all[k].0 == j);
                    assert(0 <= k < order@.len() && all[k].0 == j);
                } else {
                    assert(slots@[j] == pre_slots[j]);
                }
            }
        }
    }

    proof {
        lemma_index_permutation_complete(trace_indices(all), m as nat);
        assert forall|j: int| 0 <= j < m implies (#[trigger] slots@[j]) == Some(orig[j]) by {
            assert(trace_indices(all).contains(j as usize));
            let k = choose|k: int| 0 <= k < trace_indices(all).len()
                && trace_indices(all)[k] == j as usize;
            assert(all[k].0 == j);
        }
    }

    // emit in input position order: the reorder buffer drains front to back
    let mut results: Vec<Outcome<T, E>> = Vec::new();
    let ghost full = slots@;
    while results.len() < m
        invariant
            m == orig.len(),
            full.len() == m,
            forall|j: int| 0 <= j < m ==> #[trigger] full[j] == Some(orig[j]),
            results@.len() <= m,
            slots@ == full.skip(results@.len() as int),
            forall|j: int| 0 <= j < results@.len() ==> #[trigger] results@[j] == orig[j],
        decreases m - results@.len(),
    {
        let ghost k = results@.len() as int;
        let s = slots.remove(0);
        proof {
            assert(s == full[k]);
        }
        match s {
            Some(o) => {
                results.push(o);
            },
            None => {
                proof {
                    assert(false);
                }
            },
        }
    }
    proof {
        assert(results@ =~= orig);
        assert(is_index_permutation(order@, orig.len())) by {
            assert(order@ =~= trace_indices(all));
        }
    }
    Ok(RunReport { results, completion_order: order, max_in_flight })
}

/// Calls the work operation once per item, in input order, and collects the
/// outcomes index-aligned with the items. The runners replay admission and
/// completion against the token pool afterwards: an operation's outcome depends
/// only on its item, never on the interleaving.
pub fn perform_all<D, T, E, F: Fn(D) -> Outcome<T, E>>(items: Vec<D>, op: F) -> (outs: Vec<
    Outcome<T, E>,
>)
    requires
        forall|i: int| 0 <= i < items@.len() ==> call_requires(op, (items@[i],)),
    ensures
        outs@.len() == items@.len(),
        forall|i: int| 0 <= i < outs@.len() ==> call_ensures(op, (items@[i],), #[trigger] outs@[i]),
{
    let ghost orig = items@;
    let mut rest = items;
    let mut outs: Vec<Outcome<T, E>> = Vec::new();
    while rest.len() > 0
        invariant
            forall|i: int| 0 <= i < orig.len() ==> call_requires(op, (orig[i],)),
            rest@ == orig.skip(outs@.len() as int),
            outs@.len() + rest@.len() == orig.len(),
            forall|i: int| 0 <= i < outs@.len() ==> call_ensures(op, (orig[i],), #[trigger] outs@[i]),
        decreases rest@.len(),
    {
        let ghost k = outs@.len() as int;
        let d = rest.remove(0);
        proof {
            assert(d == orig[k]);
        }
        let o = op(d);
        outs.push(o);
    }
    outs
}

/// Unordered runner over raw items: drives the work operation across every
/// item through the concurrency gate and reports the outcomes in completion order. A
/// bound of zero is rejected before any operation is started.
pub fn run_unordered_op<D, T, E, F: Fn(D) -> Outcome<T, E>>(
    items: Vec<D>,
    n: usize,
    schedule: &Vec<usize>,
    op: F,
) -> (res: Result<RunReport<Outcome<T, E>>, RunnerError>)
    requires
        forall|i: int| 0 <= i < items@.len() ==> call_requires(op, (items@[i],)),
    ensures
        n == 0 <==> res is Err,
        res matches Err(e) ==> e == RunnerError::InvalidConcurrency,
        res matches Ok(r) ==> {
            &&& is_index_permutation(r.completion_order@, items@.len())
            &&& r.results@.len() == items@.len()
            &&& forall|k: int| 0 <= k < r.results@.len() ==> call_ensures(
                op,
                (items@[r.completion_order@[k] as int],),
                #[trigger] r.results@[k],
            )
            &&& gate_trace_ok(items@.len(), n as int, r.max_in_flight as int)
        },
{
    if n == 0 {
        return Err(RunnerError::InvalidConcurrency);
    }
    let ghost its = items@;
    let outs = perform_all(items, op);
    let ghost pre = outs@;
    match run_unordered(outs, n, schedule) {
        Ok(r) => {
            proof {
                assert forall|k: int| 0 <= k < r.results@.len() implies call_ensures(
                    op,
                    (its[r.completion_order@[k] as int],),
                    #[trigger] r.results@[k],
                ) by {
                    let j = r.completion_order@[k] as int;
                    assert(r.results@[k] == pre[j]);
                }
            }
            Ok(r)
        },
        Err(_) => unreached(),
    }
}

/// Ordered runner over raw items: drives the work operation across every
/// item through the concurrency gate and reports the outcomes in input order. A bound
/// of zero is rejected before any operation is started.
pub fn run_ordered_op<D, T, E, F: Fn(D) -> Outcome<T, E>>(
    items: Vec<D>,
    n: usize,
    schedule: &Vec<usize>,
    op: F,
) -> (res: Result<RunReport<Outcome<T, E>>, RunnerError>)
    requires
        forall|i: int| 0 <= i < items@.len() ==> call_requires(op, (items@[i],)),
    ensures
        n == 0 <==> res is Err,
        res matches Err(e) ==> e == RunnerError::InvalidConcurrency,
        res matches Ok(r) ==> {
            &&& is_index_permutation(r.completion_order@, items@.len())
            &&& r.results@.len() == items@.len()
            &&& forall|i: int| 0 <= i < r.results@.len() ==> call_ensures(
                op,
                (items@[i],),
                #[trigger] r.results@[i],
            )
            &&& gate_trace_ok(items@.len(), n as int, r.max_in_flight as int)
        },
{
    if n == 0 {
        return Err(RunnerError::InvalidConcurrency);
    }
    let outs = perform_all(items, op);
    let ghost pre = outs@;
    match run_ordered(outs, n, schedule) {
        Ok(r) => Ok(r),
        Err(_) => unreached(),
    }
}

/// Unordered runner with an empty schedule: completions happen oldest-first.
pub fn run_unordered_fifo<T, E>(
    outcomes: Vec<Outcome<T, E>>,
    n: usize,
) -> (res: Result<RunReport<Outcome<T, E>>, RunnerError>)
    ensures
        n == 0 <==> res is Err,
        res matches Err(e) ==> e == RunnerError::InvalidConcurrency,
        res matches Ok(r) ==> unordered_run_ok(
            outcomes@,
            n as int,
            r.results@,
            r.completion_order@,
            r.max_in_flight as int,
        ),
{
    let schedule: Vec<usize> = Vec::new();
    run_unordered(outcomes, n, &schedule)
}

/// Ordered runner with an empty schedule: completions happen oldest-first.
pub fn run_ordered_fifo<T, E>(
    outcomes: Vec<Outcome<T, E>>,
    n: usize,
) -> (res: Result<RunReport<Outcome<T, E>>, RunnerError>)
    ensures
        n == 0 <==> res is Err,
        res matches Err(e) ==> e == RunnerError::InvalidConcurrency,
        res matches Ok(r) ==> ordered_run_ok(
            outcomes@,
            n as int,
            r.results@,
            r.completion_order@,
            r.max_in_flight as int,
        ),
{
    let schedule: Vec<usize> = Vec::new();
    run_ordered(outcomes, n, &schedule)
}

} // verus!
