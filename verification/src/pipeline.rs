//! The fused pipeline: scores, weights and the weighted value in one call,
//! for one decision cycle or for a batch of them.

use crate::aggregate::{
    is_dot_product, is_weighted_value, lemma_same_names_give_dot_product,
    lemma_weighted_value_unique,
};
use crate::arithmetic::{serves, single_valued, Operation};
use crate::engine::RustAttentionEngine;
use crate::scoring::{are_scores, lemma_scores_unique};
use crate::signal_map::{names, values, SignalMap};
use crate::softmax::{is_softmax, lemma_softmax_unique};
use vstd::prelude::*;

verus! {

/// What scoring sees of the observations: value and age, under the same
/// names. An observation is a value, an age in seconds and a timestamp; the
/// timestamp is the caller's own and takes no part in any stage.
pub open spec fn score_inputs(observations: Seq<(Seq<char>, (u64, u64, u64))>) -> Seq<
    (Seq<char>, (u64, u64)),
> {
    Seq::new(
        observations.len(),
        |i: int| (observations[i].0, (observations[i].1.0, observations[i].1.1)),
    )
}

/// What aggregation sees of the observations: the value, under the same
/// names.
pub open spec fn observed_values(observations: Seq<(Seq<char>, (u64, u64, u64))>) -> Seq<
    (Seq<char>, u64),
> {
    Seq::new(observations.len(), |i: int| (observations[i].0, observations[i].1.0))
}

/// `value` and `weights` are a decision on `observations`: for some scores
/// of the observations, `weights` is their softmax under the observations'
/// names, and `value` is the weighted value of the observed values.
pub open spec fn is_decision<A: Fn(Operation) -> u64>(
    arith: &A,
    temperature: u64,
    observations: Seq<(Seq<char>, (u64, u64, u64))>,
    value: u64,
    weights: Seq<(Seq<char>, u64)>,
) -> bool {
    exists|scores: Seq<(Seq<char>, u64)>| #[trigger]
        are_scores(arith, score_inputs(observations), scores) && names(weights) == names(
            observations,
        ) && is_softmax(arith, temperature, values(scores), values(weights)) && is_weighted_value(
            arith,
            weights,
            observed_values(observations),
            value,
        )
}

/// Arithmetic that gives one answer to each operation allows one decision
/// on given observations: two runs of the pipeline agree bit for bit.
pub proof fn lemma_decision_unique<A: Fn(Operation) -> u64>(
    arith: &A,
    temperature: u64,
    observations: Seq<(Seq<char>, (u64, u64, u64))>,
    first: (u64, Seq<(Seq<char>, u64)>),
    second: (u64, Seq<(Seq<char>, u64)>),
)
    requires
        single_valued(arith),
        is_decision(arith, temperature, observations, first.0, first.1),
        is_decision(arith, temperature, observations, second.0, second.1),
    ensures
        first == second,
{
    let scores1 = choose|scores: Seq<(Seq<char>, u64)>| #[trigger]
        are_scores(arith, score_inputs(observations), scores) && names(first.1) == names(
            observations,
        ) && is_softmax(arith, temperature, values(scores), values(first.1)) && is_weighted_value(
            arith,
            first.1,
            observed_values(observations),
            first.0,
        );
    let scores2 = choose|scores: Seq<(Seq<char>, u64)>| #[trigger]
        are_scores(arith, score_inputs(observations), scores) && names(second.1) == names(
            observations,
        ) && is_softmax(arith, temperature, values(scores), values(second.1)) && is_weighted_value(
            arith,
            second.1,
            observed_values(observations),
            second.0,
        );
    lemma_scores_unique(arith, score_inputs(observations), scores1, scores2);
    lemma_softmax_unique(arith, temperature, values(scores1), values(first.1), values(second.1));
    assert forall|i: int| 0 <= i < first.1.len() implies first.1[i] == second.1[i] by {
        assert(names(first.1)[i] == names(second.1)[i]);
        assert(values(first.1)[i] == values(second.1)[i]);
    }
    assert(first.1.len() == names(first.1).len());
    assert(second.1.len() == names(second.1).len());
    assert(first.1 =~= second.1);
    lemma_weighted_value_unique(
        arith,
        first.1,
        observed_values(observations),
        first.0,
        second.0,
    );
}

impl RustAttentionEngine {
    /// Runs one decision cycle: scores the observations, turns the scores
    /// into weights, and returns the weighted value of the observed values
    /// together with the weights.
    pub fn decide_fast<A: Fn(Operation) -> u64>(
        &self,
        signals: &SignalMap<(u64, u64, u64)>,
        arith: &A,
    ) -> (decision: (u64, SignalMap<u64>))
        requires
            serves(arith),
        ensures
            is_decision(arith, self.temperature(), signals@, decision.0, decision.1@),
            is_dot_product(
                arith,
                values(decision.1@),
                values(observed_values(signals@)),
                decision.0,
            ),
    {
        let n: usize = signals.len();
        let mut pairs: Vec<(u64, u64)> = Vec::new();
        let mut readings: Vec<u64> = Vec::new();
        let mut i: usize = 0;
        while i < n
            invariant
                i <= n == signals@.len(),
                pairs@.len() == i,
                readings@.len() == i,
                forall|k: int|
                    #![trigger pairs@[k]]
                    0 <= k < i ==> pairs@[k] == (signals@[k].1.0, signals@[k].1.1),
                forall|k: int|
                    #![trigger readings@[k]]
                    0 <= k < i ==> readings@[k] == signals@[k].1.0,
            decreases n - i,
        {
            let observation: (u64, u64, u64) = signals.value(i);
            pairs.push((observation.0, observation.1));
            readings.push(observation.0);
            i += 1;
        }
        let score_input: SignalMap<(u64, u64)> = SignalMap::relabel(signals, pairs);
        assert(score_input@ =~= score_inputs(signals@));
        let scores: SignalMap<u64> = self.calculate_scores(&score_input, arith);
        let weights: SignalMap<u64> = self.softmax(&scores, arith);
        assert(names(weights@) =~= names(signals@));
        let signal_values: SignalMap<u64> = SignalMap::relabel(signals, readings);
        assert(signal_values@ =~= observed_values(signals@));
        let weighted_value: u64 = self.compute_weighted_value(&weights, &signal_values, arith);
        proof {
            assert(names(signal_values@) =~= names(signals@));
            lemma_same_names_give_dot_product(arith, weights@, signal_values@, weighted_value);
        }
        (weighted_value, weights)
    }
}

/// Runs one decision cycle per entry of `batch_signals`, each on its own and
/// with the same temperature, and returns the decisions in the order of the
/// entries: what `decide_fast` gives for each.
pub fn batch_decide<A: Fn(Operation) -> u64>(
    temperature: u64,
    batch_signals: &Vec<SignalMap<(u64, u64, u64)>>,
    arith: &A,
) -> (decisions: Vec<(u64, SignalMap<u64>)>)
    requires
        serves(arith),
    ensures
        decisions@.len() == batch_signals@.len(),
        forall|i: int|
            #![trigger decisions@[i]]
            0 <= i < batch_signals@.len() ==> is_decision(
                arith,
                temperature,
                batch_signals@[i]@,
                decisions@[i].0,
                decisions@[i].1@,
            ),
{
    let engine = RustAttentionEngine::new(temperature);
    let mut decisions: Vec<(u64, SignalMap<u64>)> = Vec::new();
    let mut i: usize = 0;
    while i < batch_signals.len()
        invariant
            serves(arith),
            engine.temperature() == temperature,
            i <= batch_signals@.len(),
            decisions@.len() == i,
            forall|k: int|
                #![trigger decisions@[k]]
                0 <= k < i ==> is_decision(
                    arith,
                    temperature,
                    batch_signals@[k]@,
                    decisions@[k].0,
                    decisions@[k].1@,
                ),
        decreases batch_signals@.len() - i,
    {
        let decision: (u64, SignalMap<u64>) = engine.decide_fast(&batch_signals[i], arith);
        decisions.push(decision);
        i += 1;
    }
    decisions
}

} // verus!
