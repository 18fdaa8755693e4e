//! Scoring: how much attention a signal deserves before normalisation.
//!
//! A signal's score is its magnitude, raised by half for a volatility signal,
//! times a recency factor `exp(-age / 60)` that lets a reading fade within
//! minutes.

use crate::arithmetic::{answers, perform, serves, single_valued, Operation};
use crate::binary64::{abs, magnitude, neg, negation};
use crate::engine::RustAttentionEngine;
use crate::signal_map::SignalMap;
use crate::source::{is_volatility, volatility_name};
use vstd::prelude::*;

verus! {

/// The pattern of `1.5`: the factor by which a volatility signal counts more.
pub const VOLATILITY_BOOST: u64 = 0x3FF8_0000_0000_0000;

/// The pattern of `60.0`: the age, in seconds, at which a signal has faded
/// to `1 / e` of its weight.
pub const DECAY_SECONDS: u64 = 0x404E_0000_0000_0000;

/// `base` is the magnitude of `value`, for a volatility signal an answer for
/// that magnitude times `VOLATILITY_BOOST`.
pub open spec fn is_base<A: Fn(Operation) -> u64>(
    arith: &A,
    name: Seq<char>,
    value: u64,
    base: u64,
) -> bool {
    if volatility_name(name) {
        answers(arith, Operation::Mul(magnitude(value), VOLATILITY_BOOST), base)
    } else {
        base == magnitude(value)
    }
}

/// `factor` is an answer for `exp(-age / DECAY_SECONDS)`.
pub open spec fn is_recency<A: Fn(Operation) -> u64>(arith: &A, age: u64, factor: u64) -> bool {
    exists|ratio: u64|
        #![trigger answers(arith, Operation::Exp(ratio), factor)]
        answers(arith, Operation::Div(negation(age), DECAY_SECONDS), ratio) && answers(
            arith,
            Operation::Exp(ratio),
            factor,
        )
}

/// `score` is an answer for the score of the signal `name` with the given
/// value and age: its base times its recency factor.
pub open spec fn is_score<A: Fn(Operation) -> u64>(
    arith: &A,
    name: Seq<char>,
    value: u64,
    age: u64,
    score: u64,
) -> bool {
    exists|base: u64, factor: u64|
        #![trigger answers(arith, Operation::Mul(base, factor), score)]
        is_base(arith, name, value, base) && is_recency(arith, age, factor) && answers(
            arith,
            Operation::Mul(base, factor),
            score,
        )
}

/// `scores` gives every signal of `signals`, under its name and in its
/// place, an answer for its score.
pub open spec fn are_scores<A: Fn(Operation) -> u64>(
    arith: &A,
    signals: Seq<(Seq<char>, (u64, u64))>,
    scores: Seq<(Seq<char>, u64)>,
) -> bool {
    scores.len() == signals.len() && forall|i: int|
        #![trigger scores[i]]
        0 <= i < signals.len() ==> scores[i].0 == signals[i].0 && is_score(
            arith,
            signals[i].0,
            signals[i].1.0,
            signals[i].1.1,
            scores[i].1,
        )
}

/// A score does not depend on the sign of the value.
pub proof fn lemma_score_ignores_sign<A: Fn(Operation) -> u64>(
    arith: &A,
    name: Seq<char>,
    value: u64,
    age: u64,
    score: u64,
)
    ensures
        is_score(arith, name, value, age, score) == is_score(
            arith,
            name,
            negation(value),
            age,
            score,
        ),
{
    assert(magnitude(negation(value)) == magnitude(value));
    assert forall|base: u64|
        is_base(arith, name, value, base) == is_base(arith, name, negation(value), base) by {}
}

/// Arithmetic that gives one answer to each operation gives each signal one
/// score.
pub proof fn lemma_score_unique<A: Fn(Operation) -> u64>(
    arith: &A,
    name: Seq<char>,
    value: u64,
    age: u64,
    first: u64,
    second: u64,
)
    requires
        single_valued(arith),
        is_score(arith, name, value, age, first),
        is_score(arith, name, value, age, second),
    ensures
        first == second,
{
    let (base1, factor1) = choose|base: u64, factor: u64|
        #![trigger answers(arith, Operation::Mul(base, factor), first)]
        is_base(arith, name, value, base) && is_recency(arith, age, factor) && answers(
            arith,
            Operation::Mul(base, factor),
            first,
        );
    let (base2, factor2) = choose|base: u64, factor: u64|
        #![trigger answers(arith, Operation::Mul(base, factor), second)]
        is_base(arith, name, value, base) && is_recency(arith, age, factor) && answers(
            arith,
            Operation::Mul(base, factor),
            second,
        );
    assert(base1 == base2);
    let ratio1 = choose|ratio: u64|
        #![trigger answers(arith, Operation::Exp(ratio), factor1)]
        answers(arith, Operation::Div(negation(age), DECAY_SECONDS), ratio) && answers(
            arith,
            Operation::Exp(ratio),
            factor1,
        );
    let ratio2 = choose|ratio: u64|
        #![trigger answers(arith, Operation::Exp(ratio), factor2)]
        answers(arith, Operation::Div(negation(age), DECAY_SECONDS), ratio) && answers(
            arith,
            Operation::Exp(ratio),
            factor2,
        );
    assert(ratio1 == ratio2);
    assert(factor1 == factor2);
}

/// Arithmetic that gives one answer to each operation gives the signals one
/// mapping of scores.
pub proof fn lemma_scores_unique<A: Fn(Operation) -> u64>(
    arith: &A,
    signals: Seq<(Seq<char>, (u64, u64))>,
    first: Seq<(Seq<char>, u64)>,
    second: Seq<(Seq<char>, u64)>,
)
    requires
        single_valued(arith),
        are_scores(arith, signals, first),
        are_scores(arith, signals, second),
    ensures
        first == second,
{
    assert forall|i: int| 0 <= i < signals.len() implies first[i] == second[i] by {
        lemma_score_unique(
            arith,
            signals[i].0,
            signals[i].1.0,
            signals[i].1.1,
            first[i].1,
            second[i].1,
        );
    }
    assert(first =~= second);
}

/// Scores one signal.
pub fn score<A: Fn(Operation) -> u64>(name: &String, value: u64, age: u64, arith: &A) -> (r: u64)
    requires
        serves(arith),
    ensures
        is_score(arith, name@, value, age, r),
{
    let mut base: u64 = abs(value);
    if is_volatility(name.as_str()) {
        base = perform(arith, Operation::Mul(base, VOLATILITY_BOOST));
    }
    let ratio: u64 = perform(arith, Operation::Div(neg(age), DECAY_SECONDS));
    let factor: u64 = perform(arith, Operation::Exp(ratio));
    assert(is_recency(arith, age, factor));
    perform(arith, Operation::Mul(base, factor))
}

impl RustAttentionEngine {
    /// Scores every signal. A signal is a value and an age in seconds; the
    /// scores carry the names of the signals, in their order.
    pub fn calculate_scores<A: Fn(Operation) -> u64>(
        &self,
        signals: &SignalMap<(u64, u64)>,
        arith: &A,
    ) -> (scores: SignalMap<u64>)
        requires
            serves(arith),
        ensures
            are_scores(arith, signals@, scores@),
    {
        let n: usize = signals.len();
        let mut computed: Vec<u64> = Vec::new();
        let mut i: usize = 0;
        while i < n
            invariant
                serves(arith),
                i <= n == signals@.len(),
                computed@.len() == i,
                forall|k: int|
                    #![trigger computed@[k]]
                    0 <= k < i ==> is_score(
                        arith,
                        signals@[k].0,
                        signals@[k].1.0,
                        signals@[k].1.1,
                        computed@[k],
                    ),
            decreases n - i,
        {
            let signal: (u64, u64) = signals.value(i);
            let r: u64 = score(signals.name(i), signal.0, signal.1, arith);
            computed.push(r);
            i += 1;
        }
        let scores: SignalMap<u64> = SignalMap::relabel(signals, computed);
        assert forall|k: int| 0 <= k < signals@.len() implies scores@[k].0 == signals@[k].0
            && is_score(
            arith,
            signals@[k].0,
            signals@[k].1.0,
            signals@[k].1.1,
            (#[trigger] scores@[k]).1,
        ) by {
            assert(scores@[k].1 == computed@[k]);
        }
        scores
    }
}

} // verus!
