use decisify_attention::arithmetic::Operation;
use decisify_attention::engine::RustAttentionEngine;
use decisify_attention::pipeline::batch_decide;
use decisify_attention::scoring::score;
use decisify_attention::signal_map::SignalMap;
use decisify_attention::softmax::{max_score, sum};

/// The arithmetic of the machine.
fn machine(op: Operation) -> u64 {
    match op {
        Operation::Add(a, b) => (f64::from_bits(a) + f64::from_bits(b)).to_bits(),
        Operation::Sub(a, b) => (f64::from_bits(a) - f64::from_bits(b)).to_bits(),
        Operation::Mul(a, b) => (f64::from_bits(a) * f64::from_bits(b)).to_bits(),
        Operation::Div(a, b) => (f64::from_bits(a) / f64::from_bits(b)).to_bits(),
        Operation::Exp(a) => f64::from_bits(a).exp().to_bits(),
        Operation::FromCount(n) => (n as f64).to_bits(),
    }
}

/// Arithmetic whose exponential always underflows to zero.
fn underflowing(op: Operation) -> u64 {
    match op {
        Operation::Exp(_) => 0.0f64.to_bits(),
        other => machine(other),
    }
}

fn bits(x: f64) -> u64 {
    x.to_bits()
}

fn readings(entries: &[(&str, f64)]) -> SignalMap<u64> {
    let mut map: SignalMap<u64> = SignalMap::new();
    for (name, value) in entries {
        map.insert(name.to_string(), bits(*value));
    }
    map
}

fn signals(entries: &[(&str, f64, f64)]) -> SignalMap<(u64, u64)> {
    let mut map: SignalMap<(u64, u64)> = SignalMap::new();
    for (name, value, age) in entries {
        map.insert(name.to_string(), (bits(*value), bits(*age)));
    }
    map
}

fn observations(entries: &[(&str, f64, f64, f64)]) -> SignalMap<(u64, u64, u64)> {
    let mut map: SignalMap<(u64, u64, u64)> = SignalMap::new();
    for (name, value, age, timestamp) in entries {
        map.insert(name.to_string(), (bits(*value), bits(*age), bits(*timestamp)));
    }
    map
}

fn number(map: &SignalMap<u64>, name: &str) -> f64 {
    f64::from_bits(map.get(&name.to_string()).unwrap())
}

fn listed(map: &SignalMap<u64>) -> Vec<(String, u64)> {
    let mut entries = Vec::new();
    for i in 0..map.len() {
        entries.push((map.name(i).clone(), map.value(i)));
    }
    entries
}

#[test]
fn scores_boost_volatility_at_zero_age() {
    let engine = RustAttentionEngine::new(bits(1.0));
    let scores =
        engine.calculate_scores(&signals(&[("a", 2.0, 0.0), ("volatility_x", 2.0, 0.0)]), &machine);
    assert_eq!(scores.len(), 2);
    assert_eq!(number(&scores, "a"), 2.0);
    assert_eq!(number(&scores, "volatility_x"), 3.0);
}

#[test]
fn scores_keep_names_and_order() {
    let engine = RustAttentionEngine::new(bits(1.0));
    let scores = engine.calculate_scores(
        &signals(&[("z", 1.0, 0.0), ("a", 2.0, 0.0), ("m", 3.0, 0.0)]),
        &machine,
    );
    let names: Vec<String> = listed(&scores).into_iter().map(|entry| entry.0).collect();
    assert_eq!(names, vec!["z".to_string(), "a".to_string(), "m".to_string()]);
}

#[test]
fn score_of_empty_input_is_empty() {
    let engine = RustAttentionEngine::new(bits(1.0));
    let scores = engine.calculate_scores(&signals(&[]), &machine);
    assert!(scores.is_empty());
}

#[test]
fn score_discards_sign() {
    let name = "price".to_string();
    assert_eq!(score(&name, bits(-4.0), bits(0.0), &machine), bits(4.0));
    assert_eq!(score(&name, bits(4.0), bits(0.0), &machine), bits(4.0));
    assert_eq!(score(&name, bits(0.0), bits(0.0), &machine), bits(0.0));
    assert_eq!(score(&name, bits(-0.0), bits(0.0), &machine), bits(0.0));
}

#[test]
fn score_decays_to_one_over_e_after_a_minute() {
    let name = "price".to_string();
    let expected = 2.0 * (-1.0f64).exp();
    assert_eq!(score(&name, bits(2.0), bits(60.0), &machine), bits(expected));
    let boosted = "fx_volatility".to_string();
    let expected_boosted = 3.0 * (-0.5f64).exp();
    assert_eq!(score(&boosted, bits(-2.0), bits(30.0), &machine), bits(expected_boosted));
}

#[test]
fn score_grows_with_magnitude() {
    let name = "price".to_string();
    let magnitudes = [0.0, 1e-300, 0.25, 1.0, 1.5, 7.0, 1e12];
    for age in [0.0, 1.0, 59.0, 60.0, 600.0] {
        let mut last = -1.0f64;
        for m in magnitudes {
            let plus = f64::from_bits(score(&name, bits(m), bits(age), &machine));
            let minus = f64::from_bits(score(&name, bits(-m), bits(age), &machine));
            assert_eq!(plus, minus);
            assert!(plus >= 0.0);
            assert!(plus >= last);
            last = plus;
        }
    }
}

#[test]
fn score_fades_with_age() {
    let name = "volatility".to_string();
    let mut last = f64::INFINITY;
    for age in [0.0, 0.5, 1.0, 30.0, 60.0, 61.0, 3600.0, 1e9] {
        let s = f64::from_bits(score(&name, bits(2.0), bits(age), &machine));
        assert!(s <= last);
        last = s;
    }
    assert_eq!(last, 0.0);
}

#[test]
fn negative_age_amplifies_the_score() {
    let name = "price".to_string();
    let s = f64::from_bits(score(&name, bits(1.0), bits(-60.0), &machine));
    assert_eq!(s, 1.0f64.exp());
}

#[test]
fn score_hands_on_what_is_not_a_number() {
    let name = "price".to_string();
    assert!(f64::from_bits(score(&name, bits(f64::NAN), bits(0.0), &machine)).is_nan());
    assert!(f64::from_bits(score(&name, bits(1.0), bits(f64::NAN), &machine)).is_nan());
    assert_eq!(
        f64::from_bits(score(&name, bits(f64::NEG_INFINITY), bits(0.0), &machine)),
        f64::INFINITY
    );
}

#[test]
fn softmax_equal_scores_give_equal_weights() {
    let engine = RustAttentionEngine::new(bits(1.0));
    let weights = engine.softmax(&readings(&[("a", 1.0), ("b", 1.0)]), &machine);
    assert_eq!(weights.len(), 2);
    assert_eq!(number(&weights, "a"), 0.5);
    assert_eq!(number(&weights, "b"), 0.5);
}

#[test]
fn softmax_of_nothing_is_nothing() {
    let engine = RustAttentionEngine::new(bits(1.0));
    let weights = engine.softmax(&readings(&[]), &machine);
    assert_eq!(weights.len(), 0);
    assert!(weights.is_empty());
}

#[test]
fn softmax_of_one_score_is_one() {
    let engine = RustAttentionEngine::new(bits(0.3));
    let weights = engine.softmax(&readings(&[("only", -17.5)]), &machine);
    assert_eq!(listed(&weights), vec![("only".to_string(), bits(1.0))]);
}

#[test]
fn softmax_exact_weights() {
    let engine = RustAttentionEngine::new(bits(2.0));
    let weights = engine.softmax(&readings(&[("a", 1.0), ("b", 3.0), ("c", 2.0)]), &machine);
    let ea = ((1.0f64 - 3.0) / 2.0).exp();
    let eb = ((3.0f64 - 3.0) / 2.0).exp();
    let ec = ((2.0f64 - 3.0) / 2.0).exp();
    let total = 0.0 + ea + eb + ec;
    assert_eq!(
        listed(&weights),
        vec![
            ("a".to_string(), bits(ea / total)),
            ("b".to_string(), bits(eb / total)),
            ("c".to_string(), bits(ec / total)),
        ]
    );
}

#[test]
fn softmax_weights_sum_to_one() {
    let cases: Vec<(f64, Vec<(&str, f64)>)> = vec![
        (1.0, vec![("a", 0.0)]),
        (1.0, vec![("a", 1.0), ("b", 2.0), ("c", 3.0)]),
        (0.05, vec![("a", 0.1), ("b", 0.7), ("c", 0.2), ("d", 0.69)]),
        (100.0, vec![("a", -5.0), ("b", 5.0)]),
        (1e-6, vec![("a", 1.0), ("b", 1.0 + 1e-9), ("c", 0.0)]),
        (0.7, vec![("a", 1e300), ("b", -1e300), ("c", 0.0)]),
    ];
    for (temperature, scores) in cases {
        let engine = RustAttentionEngine::new(bits(temperature));
        let weights = engine.softmax(&readings(&scores), &machine);
        assert_eq!(weights.len(), scores.len());
        let mut total = 0.0;
        for (_, w) in listed(&weights) {
            let w = f64::from_bits(w);
            assert!((0.0..=1.0).contains(&w));
            total += w;
        }
        assert!((total - 1.0).abs() <= 1e-9);
    }
}

#[test]
fn softmax_is_shift_invariant() {
    let scores = [("a", 0.25), ("b", 1.5), ("c", -0.75), ("d", 1.5)];
    for temperature in [0.1, 1.0, 10.0] {
        let engine = RustAttentionEngine::new(bits(temperature));
        let plain = engine.softmax(&readings(&scores), &machine);
        for shift in [-100.0, -1.0, 0.5, 3.0, 1000.0] {
            let moved: Vec<(&str, f64)> = scores.iter().map(|(k, v)| (*k, v + shift)).collect();
            let shifted = engine.softmax(&readings(&moved), &machine);
            for (name, _) in scores {
                assert!((number(&plain, name) - number(&shifted, name)).abs() <= 1e-9);
            }
        }
    }
}

#[test]
fn softmax_sharpens_as_temperature_falls() {
    let scores = readings(&[("low", 1.0), ("high", 2.0)]);
    let warm = RustAttentionEngine::new(bits(10.0)).softmax(&scores, &machine);
    let cold = RustAttentionEngine::new(bits(0.001)).softmax(&scores, &machine);
    assert!(number(&warm, "high") > number(&warm, "low"));
    assert!(number(&cold, "high") > number(&warm, "high"));
    assert_eq!(number(&cold, "high"), 1.0);
    assert_eq!(number(&cold, "low"), 0.0);
}

#[test]
fn softmax_falls_back_to_uniform_when_the_sum_is_zero() {
    let engine = RustAttentionEngine::new(bits(1.0));
    let weights =
        engine.softmax(&readings(&[("a", 1.0), ("b", 5.0), ("c", 2.0), ("d", 0.0)]), &underflowing);
    assert_eq!(
        listed(&weights),
        vec![
            ("a".to_string(), bits(0.25)),
            ("b".to_string(), bits(0.25)),
            ("c".to_string(), bits(0.25)),
            ("d".to_string(), bits(0.25)),
        ]
    );
    let thirds = engine.softmax(&readings(&[("a", 1.0), ("b", 5.0), ("c", 2.0)]), &underflowing);
    for (_, w) in listed(&thirds) {
        assert_eq!(w, bits(1.0 / 3.0));
    }
}

#[test]
fn softmax_with_negative_temperature_inverts_the_ranking() {
    let engine = RustAttentionEngine::new(bits(-1.0));
    let weights = engine.softmax(&readings(&[("low", 1.0), ("high", 2.0)]), &machine);
    let low = 1.0f64.exp() / (0.0 + 1.0f64.exp() + 1.0);
    let high = 1.0 / (0.0 + 1.0f64.exp() + 1.0);
    assert_eq!(number(&weights, "low"), low);
    assert_eq!(number(&weights, "high"), high);
    assert!(number(&weights, "low") > number(&weights, "high"));
}

#[test]
fn softmax_with_zero_temperature_is_not_a_number() {
    let engine = RustAttentionEngine::new(bits(0.0));
    let weights = engine.softmax(&readings(&[("low", 1.0), ("high", 2.0)]), &machine);
    assert_eq!(weights.len(), 2);
    assert!(number(&weights, "low").is_nan());
    assert!(number(&weights, "high").is_nan());
}

#[test]
fn max_score_skips_what_is_not_a_number() {
    assert_eq!(max_score(&readings(&[])), bits(f64::NEG_INFINITY));
    assert_eq!(max_score(&readings(&[("a", f64::NAN)])), bits(f64::NEG_INFINITY));
    assert_eq!(max_score(&readings(&[("a", -3.0), ("b", f64::NAN), ("c", -7.0)])), bits(-3.0));
    assert_eq!(
        max_score(&readings(&[("a", 1.0), ("b", f64::INFINITY), ("c", 2.0)])),
        bits(f64::INFINITY)
    );
    assert_eq!(max_score(&readings(&[("a", 2.0), ("b", 2.0)])), bits(2.0));
    assert_eq!(max_score(&readings(&[("a", 0.0), ("b", -0.0)])), bits(0.0));
    assert_eq!(max_score(&readings(&[("a", -0.0), ("b", 0.0)])), bits(-0.0));
}

#[test]
fn sum_adds_front_to_back() {
    assert_eq!(sum(&vec![], &machine), bits(0.0));
    assert_eq!(sum(&vec![bits(-0.0)], &machine), bits(0.0));
    let terms = vec![bits(1e16), bits(1.0), bits(-1e16), bits(1.0)];
    let expected = (((0.0 + 1e16) + 1.0) + -1e16) + 1.0;
    assert_eq!(sum(&terms, &machine), bits(expected));
    assert_eq!(expected, 1.0);
}

#[test]
fn weighted_value_of_half_weights() {
    let engine = RustAttentionEngine::new(bits(1.0));
    let value = engine.compute_weighted_value(
        &readings(&[("a", 0.5), ("b", 0.5)]),
        &readings(&[("a", 10.0), ("b", 0.0)]),
        &machine,
    );
    assert_eq!(f64::from_bits(value), 5.0);
}

#[test]
fn weighted_value_of_disjoint_names_is_zero() {
    let engine = RustAttentionEngine::new(bits(1.0));
    let value = engine.compute_weighted_value(
        &readings(&[("a", 0.5), ("b", 0.5)]),
        &readings(&[("c", 10.0), ("d", 3.0)]),
        &machine,
    );
    assert_eq!(value, bits(0.0));
    assert_eq!(engine.compute_weighted_value(&readings(&[]), &readings(&[]), &machine), bits(0.0));
    assert_eq!(
        engine.compute_weighted_value(&readings(&[("a", 1.0)]), &readings(&[]), &machine),
        bits(0.0)
    );
    assert_eq!(
        engine.compute_weighted_value(&readings(&[]), &readings(&[("a", 1.0)]), &machine),
        bits(0.0)
    );
}

#[test]
fn weighted_value_skips_names_without_a_partner() {
    let engine = RustAttentionEngine::new(bits(1.0));
    let value = engine.compute_weighted_value(
        &readings(&[("a", 0.25), ("ghost", 0.5), ("b", 0.25)]),
        &readings(&[("b", 8.0), ("stray", 100.0), ("a", 4.0)]),
        &machine,
    );
    assert_eq!(f64::from_bits(value), 0.25 * 4.0 + 0.25 * 8.0);
}

#[test]
fn weighted_value_adds_in_the_order_of_the_weights() {
    let engine = RustAttentionEngine::new(bits(1.0));
    let values = readings(&[("big", 1e16), ("one", 1.0), ("small", -1e16)]);
    let forward = engine.compute_weighted_value(
        &readings(&[("big", 1.0), ("one", 1.0), ("small", 1.0)]),
        &values,
        &machine,
    );
    let other = engine.compute_weighted_value(
        &readings(&[("big", 1.0), ("small", 1.0), ("one", 1.0)]),
        &values,
        &machine,
    );
    assert_eq!(f64::from_bits(forward), ((0.0 + 1e16) + 1.0) + -1e16);
    assert_eq!(f64::from_bits(other), ((0.0 + 1e16) + -1e16) + 1.0);
}

#[test]
fn decide_opposite_signs() {
    let engine = RustAttentionEngine::new(bits(1.0));
    let (value, weights) =
        engine.decide_fast(&observations(&[("a", 1.0, 0.0, 0.0), ("b", -1.0, 0.0, 0.0)]), &machine);
    assert_eq!(weights.len(), 2);
    assert_eq!(number(&weights, "a"), 0.5);
    assert_eq!(number(&weights, "b"), 0.5);
    assert_eq!(f64::from_bits(value), 0.0);
}

#[test]
fn decide_ignores_the_timestamp() {
    let engine = RustAttentionEngine::new(bits(0.5));
    let (v1, w1) = engine.decide_fast(
        &observations(&[("a", 0.3, 10.0, 1.0), ("volatility", -0.9, 45.0, 2.0)]),
        &machine,
    );
    let (v2, w2) = engine.decide_fast(
        &observations(&[("a", 0.3, 10.0, f64::NAN), ("volatility", -0.9, 45.0, -1e300)]),
        &machine,
    );
    assert_eq!(v1, v2);
    assert_eq!(listed(&w1), listed(&w2));
}

#[test]
fn decide_is_the_three_stages_in_turn() {
    let engine = RustAttentionEngine::new(bits(0.5));
    let (value, weights) = engine.decide_fast(
        &observations(&[
            ("a", 0.3, 10.0, 7.0),
            ("volatility", -0.9, 45.0, 8.0),
            ("c", 0.0, 0.0, 9.0),
        ]),
        &machine,
    );
    let scores = engine.calculate_scores(
        &signals(&[("a", 0.3, 10.0), ("volatility", -0.9, 45.0), ("c", 0.0, 0.0)]),
        &machine,
    );
    let expected_weights = engine.softmax(&scores, &machine);
    let expected_value = engine.compute_weighted_value(
        &expected_weights,
        &readings(&[("a", 0.3), ("volatility", -0.9), ("c", 0.0)]),
        &machine,
    );
    assert_eq!(listed(&weights), listed(&expected_weights));
    assert_eq!(value, expected_value);
}

#[test]
fn decide_on_nothing() {
    let engine = RustAttentionEngine::new(bits(1.0));
    let (value, weights) = engine.decide_fast(&observations(&[]), &machine);
    assert_eq!(value, bits(0.0));
    assert!(weights.is_empty());
}

#[test]
fn batch_decide_matches_decide_in_order() {
    let temperature = bits(0.8);
    let cycles: Vec<Vec<(&str, f64, f64, f64)>> = vec![
        vec![("a", 1.0, 0.0, 0.0), ("b", -1.0, 0.0, 0.0)],
        vec![],
        vec![
            ("volatility_index", 0.4, 12.0, 3.0),
            ("momentum", -0.2, 90.0, 4.0),
            ("news", 0.9, 5.0, 5.0),
        ],
        vec![("a", 1.0, 0.0, 0.0), ("b", -1.0, 0.0, 0.0)],
        vec![("only", 0.0, 0.0, 0.0)],
    ];
    let batch: Vec<SignalMap<(u64, u64, u64)>> =
        cycles.iter().map(|cycle| observations(cycle)).collect();
    let decisions = batch_decide(temperature, &batch, &machine);
    assert_eq!(decisions.len(), cycles.len());
    let engine = RustAttentionEngine::new(temperature);
    for (cycle, decision) in cycles.iter().zip(decisions.iter()) {
        let (value, weights) = engine.decide_fast(&observations(cycle), &machine);
        assert_eq!(decision.0, value);
        assert_eq!(listed(&decision.1), listed(&weights));
    }
}

#[test]
fn batch_decide_of_no_cycles() {
    let decisions = batch_decide(bits(1.0), &Vec::new(), &machine);
    assert!(decisions.is_empty());
}
