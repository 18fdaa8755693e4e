//! Aggregation: the weighted sum of the signal values.

use crate::arithmetic::{answers, perform, serves, single_valued, Operation};
use crate::binary64::ZERO;
use crate::engine::RustAttentionEngine;
use crate::signal_map;
use crate::signal_map::{
    distinct_names, lemma_lookup_entry, lemma_position_sound, lookup, names, position, SignalMap,
};
use vstd::prelude::*;

verus! {

/// One step of the weighted sum: a weight whose name has a value adds an
/// answer for `weight * value` to the total, any other weight leaves the
/// total as it is.
pub open spec fn is_step<A: Fn(Operation) -> u64>(
    arith: &A,
    weight: (Seq<char>, u64),
    values: Seq<(Seq<char>, u64)>,
    before: u64,
    after: u64,
) -> bool {
    match lookup(values, weight.0) {
        Some(value) => exists|product: u64|
            #![trigger answers(arith, Operation::Add(before, product), after)]
            answers(arith, Operation::Mul(weight.1, value), product) && answers(
                arith,
                Operation::Add(before, product),
                after,
            ),
        None => after == before,
    }
}

/// `totals` are the running totals of the weighted sum: `+0.0` first, then
/// one step for each weight, front to back.
pub open spec fn are_running_totals<A: Fn(Operation) -> u64>(
    arith: &A,
    weights: Seq<(Seq<char>, u64)>,
    values: Seq<(Seq<char>, u64)>,
    totals: Seq<u64>,
) -> bool {
    totals.len() == weights.len() + 1 && totals[0] == ZERO && forall|i: int|
        #![trigger weights[i]]
        0 <= i < weights.len() ==> is_step(arith, weights[i], values, totals[i], totals[i + 1])
}

/// `result` is an answer for the sum of `weight * value` over the names that
/// have both, taken in the order of the weights and added to `+0.0`.
pub open spec fn is_weighted_value<A: Fn(Operation) -> u64>(
    arith: &A,
    weights: Seq<(Seq<char>, u64)>,
    values: Seq<(Seq<char>, u64)>,
    result: u64,
) -> bool {
    exists|totals: Seq<u64>| #[trigger]
        are_running_totals(arith, weights, values, totals) && totals.last() == result
}

/// No name of `left` is a name of `right`.
pub open spec fn disjoint_names<V, W>(
    left: Seq<(Seq<char>, V)>,
    right: Seq<(Seq<char>, W)>,
) -> bool {
    forall|i: int, j: int|
        0 <= i < left.len() && 0 <= j < right.len() ==> left[i].0 != right[j].0
}

/// Where weights and values share no name, the weighted value is `+0.0`,
/// whatever the arithmetic: nothing is ever added.
pub proof fn lemma_disjoint_is_zero<A: Fn(Operation) -> u64>(
    arith: &A,
    weights: Seq<(Seq<char>, u64)>,
    values: Seq<(Seq<char>, u64)>,
    result: u64,
)
    requires
        is_weighted_value(arith, weights, values, result),
        disjoint_names(weights, values),
    ensures
        result == ZERO,
{
    let totals = choose|totals: Seq<u64>| #[trigger]
        are_running_totals(arith, weights, values, totals) && totals.last() == result;
    lemma_totals_stay_zero(arith, weights, values, totals, weights.len() as int);
}

proof fn lemma_totals_stay_zero<A: Fn(Operation) -> u64>(
    arith: &A,
    weights: Seq<(Seq<char>, u64)>,
    values: Seq<(Seq<char>, u64)>,
    totals: Seq<u64>,
    upto: int,
)
    requires
        are_running_totals(arith, weights, values, totals),
        disjoint_names(weights, values),
        0 <= upto <= weights.len(),
    ensures
        totals[upto] == ZERO,
    decreases upto,
{
    if upto > 0 {
        lemma_totals_stay_zero(arith, weights, values, totals, upto - 1);
        let weight = weights[upto - 1];
        lemma_position_sound(values, weight.0);
        assert(position(values, weight.0) is None);
        assert(is_step(arith, weight, values, totals[upto - 1], totals[upto - 1 + 1]));
    }
}

/// One step of a plain weighted sum: an answer for `weight * value` is added
/// to the total.
pub open spec fn is_product_step<A: Fn(Operation) -> u64>(
    arith: &A,
    weight: u64,
    value: u64,
    before: u64,
    after: u64,
) -> bool {
    exists|product: u64|
        #![trigger answers(arith, Operation::Add(before, product), after)]
        answers(arith, Operation::Mul(weight, value), product) && answers(
            arith,
            Operation::Add(before, product),
            after,
        )
}

/// `result` is an answer for `weights[0] * values[0] + weights[1] * values[1]
/// + ...`, added front to back to `+0.0`, with no term left out.
pub open spec fn is_dot_product<A: Fn(Operation) -> u64>(
    arith: &A,
    weights: Seq<u64>,
    values: Seq<u64>,
    result: u64,
) -> bool {
    exists|totals: Seq<u64>|
        #![trigger totals.len()]
        totals.len() == weights.len() + 1 && totals[0] == ZERO && totals.last() == result
            && forall|i: int|
            #![trigger weights[i]]
            0 <= i < weights.len() ==> is_product_step(
                arith,
                weights[i],
                values[i],
                totals[i],
                totals[i + 1],
            )
}

/// Where weights and values carry the same names in the same order, no
/// entry is passed over: the weighted value is the full sum of products.
pub proof fn lemma_same_names_give_dot_product<A: Fn(Operation) -> u64>(
    arith: &A,
    weights: Seq<(Seq<char>, u64)>,
    values: Seq<(Seq<char>, u64)>,
    result: u64,
)
    requires
        is_weighted_value(arith, weights, values, result),
        names(weights) == names(values),
        distinct_names(values),
    ensures
        is_dot_product(arith, signal_map::values(weights), signal_map::values(values), result),
{
    let totals = choose|totals: Seq<u64>| #[trigger]
        are_running_totals(arith, weights, values, totals) && totals.last() == result;
    assert(weights.len() == names(weights).len());
    assert(values.len() == names(values).len());
    let w = signal_map::values(weights);
    let v = signal_map::values(values);
    assert forall|i: int| 0 <= i < w.len() implies is_product_step(
        arith,
        #[trigger] w[i],
        v[i],
        totals[i],
        totals[i + 1],
    ) by {
        assert(names(weights)[i] == names(values)[i]);
        lemma_lookup_entry(values, i);
        assert(is_step(arith, weights[i], values, totals[i], totals[i + 1]));
    }
    assert(totals.len() == w.len() + 1);
}

proof fn lemma_running_totals_unique<A: Fn(Operation) -> u64>(
    arith: &A,
    weights: Seq<(Seq<char>, u64)>,
    values: Seq<(Seq<char>, u64)>,
    first: Seq<u64>,
    second: Seq<u64>,
    upto: int,
)
    requires
        single_valued(arith),
        are_running_totals(arith, weights, values, first),
        are_running_totals(arith, weights, values, second),
        0 <= upto <= weights.len(),
    ensures
        first[upto] == second[upto],
    decreases upto,
{
    if upto > 0 {
        lemma_running_totals_unique(arith, weights, values, first, second, upto - 1);
        let weight = weights[upto - 1];
        let before = first[upto - 1];
        let after1 = first[upto - 1 + 1];
        let after2 = second[upto - 1 + 1];
        assert(is_step(arith, weight, values, before, after1));
        assert(is_step(arith, weight, values, before, after2));
        match lookup(values, weight.0) {
            Some(value) => {
                let product1 = choose|product: u64|
                    #![trigger answers(arith, Operation::Add(before, product), after1)]
                    answers(arith, Operation::Mul(weight.1, value), product) && answers(
                        arith,
                        Operation::Add(before, product),
                        after1,
                    );
                let product2 = choose|product: u64|
                    #![trigger answers(arith, Operation::Add(before, product), after2)]
                    answers(arith, Operation::Mul(weight.1, value), product) && answers(
                        arith,
                        Operation::Add(before, product),
                        after2,
                    );
                assert(product1 == product2);
            },
            None => {},
        }
    }
}

/// Arithmetic that gives one answer to each operation gives weights and
/// values one weighted value.
pub proof fn lemma_weighted_value_unique<A: Fn(Operation) -> u64>(
    arith: &A,
    weights: Seq<(Seq<char>, u64)>,
    values: Seq<(Seq<char>, u64)>,
    first: u64,
    second: u64,
)
    requires
        single_valued(arith),
        is_weighted_value(arith, weights, values, first),
        is_weighted_value(arith, weights, values, second),
    ensures
        first == second,
{
    let totals1 = choose|totals: Seq<u64>| #[trigger]
        are_running_totals(arith, weights, values, totals) && totals.last() == first;
    let totals2 = choose|totals: Seq<u64>| #[trigger]
        are_running_totals(arith, weights, values, totals) && totals.last() == second;
    lemma_running_totals_unique(arith, weights, values, totals1, totals2, weights.len() as int);
}

impl RustAttentionEngine {
    /// The weighted sum of the values: see `is_weighted_value`. A weight
    /// without a value and a value without a weight are passed over.
    pub fn compute_weighted_value<A: Fn(Operation) -> u64>(
        &self,
        weights: &SignalMap<u64>,
        signal_values: &SignalMap<u64>,
        arith: &A,
    ) -> (result: u64)
        requires
            serves(arith),
        ensures
            is_weighted_value(arith, weights@, signal_values@, result),
            disjoint_names(weights@, signal_values@) ==> result == ZERO,
    {
        let n: usize = weights.len();
        let mut total: u64 = ZERO;
        let ghost mut totals: Seq<u64> = seq![ZERO];
        let mut i: usize = 0;
        while i < n
            invariant
                serves(arith),
                i <= n == weights@.len(),
                are_running_totals(arith, weights@.take(i as int), signal_values@, totals),
                totals.last() == total,
            decreases n - i,
        {
            let mut next: u64 = total;
            if let Some(value) = signal_values.get(weights.name(i)) {
                let product: u64 = perform(arith, Operation::Mul(weights.value(i), value));
                next = perform(arith, Operation::Add(total, product));
            }
            proof {
                assert(is_step(arith, weights@[i as int], signal_values@, total, next));
                let ghost longer = totals.push(next);
                assert forall|k: int| 0 <= k < i + 1 implies is_step(
                    arith,
                    #[trigger] weights@.take(i + 1)[k],
                    signal_values@,
                    longer[k],
                    longer[k + 1],
                ) by {
                    if k < i {
                        assert(weights@.take(i as int)[k] == weights@[k]);
                    }
                }
                totals = longer;
            }
            total = next;
            i += 1;
        }
        proof {
            assert(weights@.take(n as int) =~= weights@);
            if disjoint_names(weights@, signal_values@) {
                lemma_disjoint_is_zero(arith, weights@, signal_values@, total);
            }
        }
        total
    }
}

} // verus!
