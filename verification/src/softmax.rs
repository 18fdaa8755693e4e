//! Softmax: scores to weights.

use crate::arithmetic::{answers, perform, serves, single_valued, Operation};
use crate::binary64::{below, greater_of, is_zero, max, nan, zero, NEGATIVE_INFINITY, ONE, ZERO};
use crate::engine::RustAttentionEngine;
use crate::signal_map::{names, values, SignalMap};
use vstd::prelude::*;

verus! {

/// The largest of `scores`: the running maximum, started at negative infinity
/// and taken front to back, that skips every NaN.
pub open spec fn peak(scores: Seq<u64>) -> u64
    decreases scores.len(),
{
    if scores.len() == 0 {
        NEGATIVE_INFINITY
    } else {
        greater_of(peak(scores.drop_last()), scores.last())
    }
}

/// `exponential` is an answer for `exp((score - peak) / temperature)`.
pub open spec fn is_exponential<A: Fn(Operation) -> u64>(
    arith: &A,
    score: u64,
    peak: u64,
    temperature: u64,
    exponential: u64,
) -> bool {
    exists|shifted: u64, scaled: u64|
        #![trigger answers(arith, Operation::Div(shifted, temperature), scaled)]
        answers(arith, Operation::Sub(score, peak), shifted) && answers(
            arith,
            Operation::Div(shifted, temperature),
            scaled,
        ) && answers(arith, Operation::Exp(scaled), exponential)
}

/// `exponentials` holds, entry by entry, an answer for the exponential of
/// each score's distance from the peak, divided by the temperature.
pub open spec fn are_exponentials<A: Fn(Operation) -> u64>(
    arith: &A,
    temperature: u64,
    scores: Seq<u64>,
    exponentials: Seq<u64>,
) -> bool {
    exponentials.len() == scores.len() && forall|i: int|
        #![trigger exponentials[i]]
        0 <= i < scores.len() ==> is_exponential(
            arith,
            scores[i],
            peak(scores),
            temperature,
            exponentials[i],
        )
}

/// `sums` are the running totals of `terms`: `+0.0` first, then each term
/// added to the total before it, front to back.
pub open spec fn are_running_sums<A: Fn(Operation) -> u64>(
    arith: &A,
    terms: Seq<u64>,
    sums: Seq<u64>,
) -> bool {
    sums.len() == terms.len() + 1 && sums[0] == ZERO && forall|i: int|
        #![trigger terms[i]]
        0 <= i < terms.len() ==> answers(arith, Operation::Add(sums[i], terms[i]), sums[i + 1])
}

/// `total` is an answer for the sum of `terms`, added front to back to `+0.0`.
pub open spec fn is_sum<A: Fn(Operation) -> u64>(arith: &A, terms: Seq<u64>, total: u64) -> bool {
    exists|sums: Seq<u64>| #[trigger] are_running_sums(arith, terms, sums) && sums.last() == total
}

/// Every weight is the same answer for `1 / n`, `n` the number of weights.
pub open spec fn are_uniform<A: Fn(Operation) -> u64>(arith: &A, weights: Seq<u64>) -> bool {
    exists|count: u64, share: u64|
        #![trigger answers(arith, Operation::Div(ONE, count), share)]
        answers(arith, Operation::FromCount(weights.len() as usize), count) && answers(
            arith,
            Operation::Div(ONE, count),
            share,
        ) && forall|i: int| 0 <= i < weights.len() ==> weights[i] == share
}

/// Every weight is an answer for its exponential divided by `total`.
pub open spec fn are_shares<A: Fn(Operation) -> u64>(
    arith: &A,
    exponentials: Seq<u64>,
    total: u64,
    weights: Seq<u64>,
) -> bool {
    forall|i: int|
        #![trigger weights[i]]
        0 <= i < weights.len() ==> answers(
            arith,
            Operation::Div(exponentials[i], total),
            weights[i],
        )
}

/// `weights` is a softmax of `scores` at `temperature`, as `arith` computes
/// it. No scores give no weights. Otherwise the exponentials of the scores'
/// distances from their peak are summed; where that sum compares equal to
/// zero every weight is `1 / n`, else each weight is its exponential's share
/// of the sum.
pub open spec fn is_softmax<A: Fn(Operation) -> u64>(
    arith: &A,
    temperature: u64,
    scores: Seq<u64>,
    weights: Seq<u64>,
) -> bool {
    weights.len() == scores.len() && (scores.len() > 0 ==> exists|
        exponentials: Seq<u64>,
        total: u64,
    |
        #![trigger is_sum(arith, exponentials, total)]
        are_exponentials(arith, temperature, scores, exponentials) && is_sum(
            arith,
            exponentials,
            total,
        ) && if zero(total) {
            are_uniform(arith, weights)
        } else {
            are_shares(arith, exponentials, total, weights)
        })
}

/// The peak is negative infinity or one of the scores, and no score that is
/// a number lies above it.
pub proof fn lemma_peak_is_maximum(scores: Seq<u64>)
    ensures
        peak(scores) == NEGATIVE_INFINITY || exists|i: int|
            0 <= i < scores.len() && scores[i] == peak(scores),
        forall|i: int| 0 <= i < scores.len() ==> !below(peak(scores), #[trigger] scores[i]),
        (forall|i: int| 0 <= i < scores.len() ==> nan(#[trigger] scores[i])) ==> peak(scores)
            == NEGATIVE_INFINITY,
        !nan(peak(scores)),
    decreases scores.len(),
{
    if scores.len() > 0 {
        let front = scores.drop_last();
        lemma_peak_is_maximum(front);
        let last = scores.len() - 1;
        if peak(scores) != NEGATIVE_INFINITY {
            if peak(scores) == scores[last] {
            } else {
                assert(peak(scores) == peak(front));
                let i = choose|i: int| 0 <= i < front.len() && front[i] == peak(front);
                assert(scores[i] == peak(scores));
            }
        }
        assert forall|i: int| 0 <= i < scores.len() implies !below(
            peak(scores),
            #[trigger] scores[i],
        ) by {
            if i < last {
                assert(front[i] == scores[i]);
            }
        }
        if forall|i: int| 0 <= i < scores.len() ==> nan(#[trigger] scores[i]) {
            assert forall|i: int| 0 <= i < front.len() implies nan(#[trigger] front[i]) by {
                assert(front[i] == scores[i]);
            }
            assert(nan(scores[last]));
        }
    }
}

/// Running totals are determined by their terms, where the arithmetic gives
/// one answer to each operation.
proof fn lemma_running_sums_unique<A: Fn(Operation) -> u64>(
    arith: &A,
    terms: Seq<u64>,
    first: Seq<u64>,
    second: Seq<u64>,
    upto: int,
)
    requires
        single_valued(arith),
        are_running_sums(arith, terms, first),
        are_running_sums(arith, terms, second),
        0 <= upto <= terms.len(),
    ensures
        first[upto] == second[upto],
    decreases upto,
{
    if upto > 0 {
        lemma_running_sums_unique(arith, terms, first, second, upto - 1);
        let term = terms[upto - 1];
        assert(answers(arith, Operation::Add(first[upto - 1], term), first[upto - 1 + 1]));
        assert(answers(arith, Operation::Add(second[upto - 1], term), second[upto - 1 + 1]));
    }
}

/// Arithmetic that gives one answer to each operation gives the scores one
/// softmax.
pub proof fn lemma_softmax_unique<A: Fn(Operation) -> u64>(
    arith: &A,
    temperature: u64,
    scores: Seq<u64>,
    first: Seq<u64>,
    second: Seq<u64>,
)
    requires
        single_valued(arith),
        is_softmax(arith, temperature, scores, first),
        is_softmax(arith, temperature, scores, second),
    ensures
        first == second,
{
    if scores.len() > 0 {
        let (exps1, total1) = choose|exponentials: Seq<u64>, total: u64|
            #![trigger is_sum(arith, exponentials, total)]
            are_exponentials(arith, temperature, scores, exponentials) && is_sum(
                arith,
                exponentials,
                total,
            ) && if zero(total) {
                are_uniform(arith, first)
            } else {
                are_shares(arith, exponentials, total, first)
            };
        let (exps2, total2) = choose|exponentials: Seq<u64>, total: u64|
            #![trigger is_sum(arith, exponentials, total)]
            are_exponentials(arith, temperature, scores, exponentials) && is_sum(
                arith,
                exponentials,
                total,
            ) && if zero(total) {
                are_uniform(arith, second)
            } else {
                are_shares(arith, exponentials, total, second)
            };
        assert forall|i: int| 0 <= i < scores.len() implies exps1[i] == exps2[i] by {
            lemma_exponential_unique(
                arith,
                scores[i],
                peak(scores),
                temperature,
                exps1[i],
                exps2[i],
            );
        }
        assert(exps1 =~= exps2);
        let sums1 = choose|sums: Seq<u64>| #[trigger]
            are_running_sums(arith, exps1, sums) && sums.last() == total1;
        let sums2 = choose|sums: Seq<u64>| #[trigger]
            are_running_sums(arith, exps2, sums) && sums.last() == total2;
        lemma_running_sums_unique(arith, exps1, sums1, sums2, exps1.len() as int);
        assert(total1 == total2);
        if zero(total1) {
            let (count1, share1) = choose|count: u64, share: u64|
                #![trigger answers(arith, Operation::Div(ONE, count), share)]
                answers(arith, Operation::FromCount(first.len() as usize), count) && answers(
                    arith,
                    Operation::Div(ONE, count),
                    share,
                ) && forall|i: int| 0 <= i < first.len() ==> first[i] == share;
            let (count2, share2) = choose|count: u64, share: u64|
                #![trigger answers(arith, Operation::Div(ONE, count), share)]
                answers(arith, Operation::FromCount(second.len() as usize), count) && answers(
                    arith,
                    Operation::Div(ONE, count),
                    share,
                ) && forall|i: int| 0 <= i < second.len() ==> second[i] == share;
            assert(count1 == count2);
            assert(share1 == share2);
        } else {
            assert forall|i: int| 0 <= i < first.len() implies first[i] == second[i] by {
                assert(answers(arith, Operation::Div(exps1[i], total1), first[i]));
                assert(answers(arith, Operation::Div(exps2[i], total2), second[i]));
            }
        }
    }
    assert(first =~= second);
}

proof fn lemma_exponential_unique<A: Fn(Operation) -> u64>(
    arith: &A,
    score: u64,
    peak: u64,
    temperature: u64,
    first: u64,
    second: u64,
)
    requires
        single_valued(arith),
        is_exponential(arith, score, peak, temperature, first),
        is_exponential(arith, score, peak, temperature, second),
    ensures
        first == second,
{
    let (shifted1, scaled1) = choose|shifted: u64, scaled: u64|
        #![trigger answers(arith, Operation::Div(shifted, temperature), scaled)]
        answers(arith, Operation::Sub(score, peak), shifted) && answers(
            arith,
            Operation::Div(shifted, temperature),
            scaled,
        ) && answers(arith, Operation::Exp(scaled), first);
    let (shifted2, scaled2) = choose|shifted: u64, scaled: u64|
        #![trigger answers(arith, Operation::Div(shifted, temperature), scaled)]
        answers(arith, Operation::Sub(score, peak), shifted) && answers(
            arith,
            Operation::Div(shifted, temperature),
            scaled,
        ) && answers(arith, Operation::Exp(scaled), second);
    assert(shifted1 == shifted2);
    assert(scaled1 == scaled2);
}

/// The peak of `scores`.
pub fn max_score(scores: &SignalMap<u64>) -> (r: u64)
    ensures
        r == peak(values(scores@)),
{
    let n: usize = scores.len();
    let mut r: u64 = NEGATIVE_INFINITY;
    let mut i: usize = 0;
    while i < n
        invariant
            i <= n == scores@.len(),
            r == peak(values(scores@).take(i as int)),
        decreases n - i,
    {
        assert(values(scores@).take(i + 1).drop_last() =~= values(scores@).take(i as int));
        r = max(r, scores.value(i));
        i += 1;
    }
    assert(values(scores@).take(n as int) =~= values(scores@));
    r
}

/// Adds `terms` front to back, starting from `+0.0`.
pub fn sum<A: Fn(Operation) -> u64>(terms: &Vec<u64>, arith: &A) -> (total: u64)
    requires
        serves(arith),
    ensures
        is_sum(arith, terms@, total),
{
    let mut total: u64 = ZERO;
    let ghost mut sums: Seq<u64> = seq![ZERO];
    let mut i: usize = 0;
    while i < terms.len()
        invariant
            serves(arith),
            i <= terms@.len(),
            are_running_sums(arith, terms@.take(i as int), sums),
            sums.last() == total,
        decreases terms@.len() - i,
    {
        let next: u64 = perform(arith, Operation::Add(total, terms[i]));
        proof {
            let ghost longer = sums.push(next);
            assert forall|k: int| 0 <= k < i + 1 implies answers(
                arith,
                Operation::Add(longer[k], #[trigger] terms@.take(i + 1)[k]),
                longer[k + 1],
            ) by {
                if k < i {
                    assert(terms@.take(i as int)[k] == terms@[k]);
                }
            }
            sums = longer;
        }
        total = next;
        i += 1;
    }
    assert(terms@.take(i as int) =~= terms@);
    total
}

impl RustAttentionEngine {
    /// Turns scores into weights: see `is_softmax`. The weights carry the
    /// names of the scores, in their order.
    pub fn softmax<A: Fn(Operation) -> u64>(&self, scores: &SignalMap<u64>, arith: &A) -> (weights:
        SignalMap<u64>)
        requires
            serves(arith),
        ensures
            names(weights@) == names(scores@),
            is_softmax(arith, self.temperature(), values(scores@), values(weights@)),
            scores@.len() == 0 ==> weights@.len() == 0,
    {
        let n: usize = scores.len();
        let temperature: u64 = self.temperature_bits();
        let ghost given = values(scores@);
        if n == 0 {
            let weights: SignalMap<u64> = SignalMap::new();
            assert(names(weights@) =~= names(scores@));
            return weights;
        }
        let top: u64 = max_score(scores);
        let mut exponentials: Vec<u64> = Vec::new();
        let mut i: usize = 0;
        while i < n
            invariant
                serves(arith),
                i <= n == scores@.len(),
                given == values(scores@),
                top == peak(given),
                exponentials@.len() == i,
                forall|k: int|
                    #![trigger exponentials@[k]]
                    0 <= k < i ==> is_exponential(
                        arith,
                        given[k],
                        top,
                        temperature,
                        exponentials@[k],
                    ),
            decreases n - i,
        {
            let shifted: u64 = perform(arith, Operation::Sub(scores.value(i), top));
            let scaled: u64 = perform(arith, Operation::Div(shifted, temperature));
            let exponential: u64 = perform(arith, Operation::Exp(scaled));
            assert(is_exponential(arith, given[i as int], top, temperature, exponential));
            exponentials.push(exponential);
            i += 1;
        }
        assert(are_exponentials(arith, temperature, given, exponentials@));
        let total: u64 = sum(&exponentials, arith);
        let mut shares: Vec<u64> = Vec::new();
        if is_zero(total) {
            let count: u64 = perform(arith, Operation::FromCount(n));
            let share: u64 = perform(arith, Operation::Div(ONE, count));
            let mut j: usize = 0;
            while j < n
                invariant
                    j <= n,
                    shares@.len() == j,
                    forall|k: int| 0 <= k < j ==> shares@[k] == share,
                decreases n - j,
            {
                shares.push(share);
                j += 1;
            }
            assert(are_uniform(arith, shares@));
        } else {
            let mut j: usize = 0;
            while j < n
                invariant
                    serves(arith),
                    j <= n == exponentials@.len(),
                    shares@.len() == j,
                    forall|k: int|
                        #![trigger shares@[k]]
                        0 <= k < j ==> answers(
                            arith,
                            Operation::Div(exponentials@[k], total),
                            shares@[k],
                        ),
                decreases n - j,
            {
                let share: u64 = perform(arith, Operation::Div(exponentials[j], total));
                shares.push(share);
                j += 1;
            }
            assert(are_shares(arith, exponentials@, total, shares@));
        }
        let weights: SignalMap<u64> = SignalMap::relabel(scores, shares);
        assert(names(weights@) =~= names(scores@));
        assert(values(weights@) =~= shares@);
        assert(is_sum(arith, exponentials@, total));
        weights
    }
}

} // verus!
