//! The guarantees the runners give jointly, stated once, as theorems over
//! the run predicates that the runners' own contracts establish.

use vstd::prelude::*;
use crate::runner::gate_trace_ok;
use crate::runner::is_index_permutation;
use crate::runner::ordered_run_ok;
use crate::runner::unordered_run_ok;

verus! {

/// Exact delivery: a successful run of either discipline reports exactly one
/// outcome per input — none lost, none duplicated — for every batch length,
/// every concurrency bound and every completion schedule.
pub proof fn lemma_exact_delivery<O>(
    outcomes: Seq<O>,
    n_o: int,
    res_o: Seq<O>,
    ord_o: Seq<usize>,
    mif_o: int,
    n_u: int,
    res_u: Seq<O>,
    ord_u: Seq<usize>,
    mif_u: int,
)
    requires
        ordered_run_ok(outcomes, n_o, res_o, ord_o, mif_o),
        unordered_run_ok(outcomes, n_u, res_u, ord_u, mif_u),
    ensures
        res_o.len() == outcomes.len(),
        res_u.len() == outcomes.len(),
        res_o.to_multiset() == outcomes.to_multiset(),
        res_u.to_multiset() == outcomes.to_multiset(),
{
}

/// Order preservation: the ordered runner's output equals its input order
/// whatever the completion order was — two ordered runs over the same batch
/// agree exactly, even under different schedules and different bounds.
pub proof fn lemma_ordered_output_schedule_independent<O>(
    outcomes: Seq<O>,
    n1: int,
    res1: Seq<O>,
    ord1: Seq<usize>,
    mif1: int,
    n2: int,
    res2: Seq<O>,
    ord2: Seq<usize>,
    mif2: int,
)
    requires
        ordered_run_ok(outcomes, n1, res1, ord1, mif1),
        ordered_run_ok(outcomes, n2, res2, ord2, mif2),
    ensures
        res1 == outcomes,
        res1 == res2,
{
}

/// Content agreement: for the same batch, an unordered run delivers exactly
/// the same multiset of outcomes as an ordered run — the order may differ,
/// the content may not.
pub proof fn lemma_disciplines_agree_on_content<O>(
    outcomes: Seq<O>,
    n_o: int,
    res_o: Seq<O>,
    ord_o: Seq<usize>,
    mif_o: int,
    n_u: int,
    res_u: Seq<O>,
    ord_u: Seq<usize>,
    mif_u: int,
)
    requires
        ordered_run_ok(outcomes, n_o, res_o, ord_o, mif_o),
        unordered_run_ok(outcomes, n_u, res_u, ord_u, mif_u),
    ensures
        res_u.to_multiset() == res_o.to_multiset(),
{
}

/// Gate bound: at no instant of a successful run were more than `n`
/// operations in flight; and with admission being eager, the high-water mark
/// is exactly the bound (or the whole batch, when it is smaller).
pub proof fn lemma_gate_bound_respected(m: nat, n: int, max_in_flight: int)
    requires
        gate_trace_ok(m, n, max_in_flight),
    ensures
        max_in_flight <= n,
        m >= n > 0 ==> max_in_flight == n,
        0 < m < n ==> max_in_flight == m,
{
}

/// Sink equivalence: when a callback refines a (deterministic) function `g`,
/// running in callback mode is the same as running in collect mode and then
/// mapping `g` over the collection, under the same completion order.
/// `collected` is what a collect-mode run reported, `mapped` what a
/// callback-mode run reported; both reports satisfy their runners'
/// contracts with the same completion order.
pub proof fn lemma_callback_equals_mapped_collect<O, R>(
    outcomes: Seq<O>,
    order: Seq<usize>,
    collected: Seq<O>,
    mapped: Seq<R>,
    g: spec_fn(O) -> R,
)
    requires
        is_index_permutation(order, outcomes.len()),
        collected.len() == outcomes.len(),
        forall|k: int| 0 <= k < collected.len() ==> #[trigger] collected[k] == outcomes[order[k] as int],
        mapped.len() == outcomes.len(),
        forall|k: int| 0 <= k < mapped.len() ==> #[trigger] mapped[k] == g(outcomes[order[k] as int]),
    ensures
        mapped == collected.map_values(g),
{
    assert(mapped =~= collected.map_values(g));
}

} // verus!
