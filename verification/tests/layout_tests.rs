use layout_optimizer::evaluation::{fitness_from_cost, Evaluator, WeightedBigramMetric};
use layout_optimizer::fixedpoint::FP_SCALE;
use layout_optimizer::generator::{LayoutGenerator, PermutationLayoutGenerator};
use layout_optimizer::key::{Finger, Hand, Key, Keyboard};
use layout_optimizer::layout::{HandModifiers, LayerKey, Layout, LayoutError};
use layout_optimizer::metrics::{AsymmetricBigrams, BigramMetric, ManualBigramPenalty, Parameters};
use layout_optimizer::results::{
    EvaluationResult, MetricResult, MetricResults, MetricType, NormalizationType,
};

fn key(cost: u64, hand: Hand, finger: Finger, symmetry_index: usize) -> Key {
    Key { cost, hand, finger, symmetry_index }
}

fn kb3() -> Keyboard {
    Keyboard::new(vec![
        key(FP_SCALE, Hand::Left, Finger::Index, 0),
        key(FP_SCALE, Hand::Left, Finger::Middle, 1),
        key(FP_SCALE, Hand::Right, Finger::Index, 0),
    ])
}

fn rows(rs: &[&str]) -> Vec<Vec<char>> {
    rs.iter().map(|s| s.chars().collect()).collect()
}

fn simple_layout() -> Layout {
    Layout::new(
        rows(&["a", "b", "c"]),
        vec![false, false, false],
        &kb3(),
        vec![],
        vec![0],
    )
    .expect("layout should build")
}

#[test]
fn layerkey_new_sets_fields() {
    let k = key(5, Hand::Left, Finger::Ring, 2);
    let lk = LayerKey::new(1, k, 'q', vec![3, 4], true, false, 7);
    assert_eq!(lk.layer, 1);
    assert_eq!(lk.symbol, 'q');
    assert_eq!(lk.modifiers, vec![3, 4]);
    assert!(lk.is_fixed);
    assert!(!lk.is_modifier);
    assert_eq!(lk.key_index, 7);
}

#[test]
fn base_layout_text_has_one_symbol_per_nonfixed_key() {
    let l = simple_layout();
    assert_eq!(l.as_text(), "abc");
    // Every non-fixed key position maps to exactly one base layer key.
    assert_eq!(l.layerkeys.len(), 3);
}

#[test]
fn symbol_resolution_is_deterministic_and_idempotent() {
    let l = simple_layout();
    let first = l.get_layerkey_index_for_symbol(&'b');
    let second = l.get_layerkey_index_for_symbol(&'b');
    assert_eq!(first, second);
    assert_eq!(first, Some(1));
    assert_eq!(l.get_layerkey_for_symbol(&'z').map(|k| k.symbol), None);
}

#[test]
fn resolution_picks_cheaper_key() {
    // 'x' appears on an expensive and on a cheap key.
    let kb = Keyboard::new(vec![
        key(5 * FP_SCALE, Hand::Left, Finger::Index, 0),
        key(FP_SCALE, Hand::Right, Finger::Index, 0),
    ]);
    let l = Layout::new(
        rows(&["x", "x"]),
        vec![false, false],
        &kb,
        vec![],
        vec![0],
    )
    .unwrap();
    assert_eq!(l.get_layerkey_index_for_symbol(&'x'), Some(1));
}

#[test]
fn equal_cost_resolution_prefers_lower_layer() {
    // 'x' reachable on layer 1 of the first key and layer 0 of the
    // second, at exactly equal total cost: the layer 0 entry wins.
    let kb = Keyboard::new(vec![
        key(FP_SCALE, Hand::Left, Finger::Index, 0),
        key(2 * FP_SCALE, Hand::Right, Finger::Index, 0),
    ]);
    let l = Layout::new(
        rows(&["yx", "x"]),
        vec![false, false],
        &kb,
        vec![],
        vec![0, FP_SCALE],
    )
    .unwrap();
    // Both candidates cost 2.0; index 2 is the layer 0 sibling.
    let idx = l.get_layerkey_index_for_symbol(&'x').unwrap();
    assert_eq!(l.get_layerkey(&idx).layer, 0);
}

#[test]
fn modifier_chain_resolves_through_opposite_hand() {
    // Keys 0 (left) and 2 (right); layer 1 is reached via 'm' held by
    // the left hand, so the right-hand key's layer 1 chain names 'm'.
    let l = Layout::new(
        rows(&["aA", "m", "cC"]),
        vec![false, false, false],
        &kb3(),
        vec![HandModifiers { left: vec!['m'], right: vec!['m'] }],
        vec![0, FP_SCALE],
    )
    .unwrap();
    let m_idx = l.get_layerkey_index_for_symbol(&'m').unwrap();
    assert!(l.get_layerkey(&m_idx).is_modifier);
    let upper_c = l.get_layerkey_index_for_symbol(&'C').unwrap();
    let (base, mods) = l.resolve_modifiers(&upper_c);
    assert_eq!(l.get_layerkey(&base).symbol, 'c');
    assert_eq!(mods, vec![m_idx]);
}

#[test]
fn undeclarable_modifier_is_a_configuration_error() {
    let r = Layout::new(
        rows(&["aA", "b", "c"]),
        vec![false, false, false],
        &kb3(),
        vec![HandModifiers { left: vec!['z'], right: vec![] }],
        vec![0, FP_SCALE],
    );
    assert_eq!(r.err(), Some(LayoutError::UnsupportedModifier('z')));
}

#[test]
fn dimension_mismatch_is_a_configuration_error() {
    let r = Layout::new(rows(&["a", "b"]), vec![false, false], &kb3(), vec![], vec![0]);
    assert_eq!(r.err(), Some(LayoutError::DimensionMismatch));
}

#[test]
fn empty_key_is_a_configuration_error() {
    let r = Layout::new(
        rows(&["a", "", "c"]),
        vec![false, false, false],
        &kb3(),
        vec![],
        vec![0],
    );
    assert_eq!(r.err(), Some(LayoutError::EmptyKey));
}

#[test]
fn layer_cost_defaults_to_zero() {
    let l = simple_layout();
    assert_eq!(l.get_layer_cost(0), 0);
    assert_eq!(l.get_layer_cost(9), 0);
}

#[test]
fn total_cost_is_invariant_under_metric_reordering() {
    let a = MetricResult {
        name: "one".to_string(),
        cost: 3 * FP_SCALE,
        message: None,
        weight: FP_SCALE,
        normalization: NormalizationType::Fixed(FP_SCALE),
    };
    let b = MetricResult {
        name: "two".to_string(),
        cost: 5 * FP_SCALE,
        message: None,
        weight: 2 * FP_SCALE,
        normalization: NormalizationType::WeightAll(FP_SCALE),
    };
    let mut fwd = MetricResults::new(MetricType::Bigram, 7 * FP_SCALE, FP_SCALE);
    fwd.add_result(a.clone());
    fwd.add_result(b.clone());
    let mut rev = MetricResults::new(MetricType::Bigram, 7 * FP_SCALE, FP_SCALE);
    rev.add_result(b);
    rev.add_result(a);
    assert_eq!(fwd.total_cost(), rev.total_cost());
    assert_eq!(fwd.unnormalized_total_cost(), rev.unnormalized_total_cost());
}

#[test]
fn zero_costs_aggregate_to_zero_even_with_zero_found_weight() {
    for norm in [
        NormalizationType::Fixed(FP_SCALE),
        NormalizationType::WeightFound(FP_SCALE),
        NormalizationType::WeightAll(FP_SCALE),
    ] {
        let mut mrs = MetricResults::new(MetricType::Bigram, 0, 0);
        mrs.add_result(MetricResult {
            name: "zero".to_string(),
            cost: 0,
            message: None,
            weight: FP_SCALE,
            normalization: norm,
        });
        assert_eq!(mrs.total_cost(), 0);
    }
    // A nonzero cost under WeightFound with zero found weight would be
    // NaN in real arithmetic; it must resolve to 0.
    let mut mrs = MetricResults::new(MetricType::Bigram, 0, 5 * FP_SCALE);
    mrs.add_result(MetricResult {
        name: "n".to_string(),
        cost: FP_SCALE,
        message: None,
        weight: FP_SCALE,
        normalization: NormalizationType::WeightFound(FP_SCALE),
    });
    assert_eq!(mrs.total_cost(), 0);
}

fn frac(numer: u64, denom: u64) -> u64 {
    // A fixed-point fraction numer/denom of 1.0.
    FP_SCALE * numer / denom
}

#[test]
fn three_key_manual_bigram_scenario() {
    // A 3-key keyboard, one layer, symbols a, b, c, none fixed; one
    // bigram metric charging 1.0 for the ordered pair (a, b), weight
    // 1.0, fixed normalization by 1.0; frequencies ab: 0.6, ba: 0.3,
    // ac: 0.1.  Expected total cost: 1.0 * 0.6 = 0.6.
    let l = simple_layout();
    let metric = BigramMetric::Manual(ManualBigramPenalty::new(vec![(('a', 'b'), FP_SCALE)]));
    let ev = Evaluator::new(
        vec![
            (('a', 'b'), frac(6, 10)),
            (('b', 'a'), frac(3, 10)),
            (('a', 'c'), frac(1, 10)),
        ],
        vec![WeightedBigramMetric {
            metric,
            weight: FP_SCALE,
            normalization: NormalizationType::Fixed(FP_SCALE),
        }],
    );
    let res: EvaluationResult = ev.evaluate_layout(&l);
    assert_eq!(res.total_cost(), frac(6, 10));
    // Ordered pairs are distinct: ba and ac contribute nothing.
    let score = res.optimization_score();
    assert_eq!(score, 100_000_000u64 * FP_SCALE / frac(6, 10));
}

#[test]
fn asymmetric_bigrams_charges_asymmetric_pairs() {
    let l = simple_layout();
    let metric = BigramMetric::Asymmetric(AsymmetricBigrams::new(&Parameters {}));
    // Keys 0 and 2 share symmetry index 0; keys 0 and 1 do not.
    let i_a = l.get_layerkey_index_for_symbol(&'a').unwrap();
    let i_b = l.get_layerkey_index_for_symbol(&'b').unwrap();
    let i_c = l.get_layerkey_index_for_symbol(&'c').unwrap();
    let w = frac(1, 2);
    let (cost_sym, _) = metric.total_cost(&vec![((i_a, i_c), w)], None, &l);
    assert_eq!(cost_sym, 0);
    let (cost_asym, msg) = metric.total_cost(&vec![((i_a, i_b), w)], None, &l);
    assert_eq!(cost_asym, w);
    // The diagnostic names the worst bigram with its share of the cost.
    let msg = msg.unwrap();
    assert!(msg.contains("ab (100.00%)"), "message was: {msg}");
}

#[test]
fn worst_offenders_are_reported_by_cost() {
    let l = simple_layout();
    let metric = BigramMetric::Manual(ManualBigramPenalty::new(vec![
        (('a', 'b'), FP_SCALE),
        (('b', 'c'), FP_SCALE),
    ]));
    let i_a = l.get_layerkey_index_for_symbol(&'a').unwrap();
    let i_b = l.get_layerkey_index_for_symbol(&'b').unwrap();
    let i_c = l.get_layerkey_index_for_symbol(&'c').unwrap();
    let (total, msg) = metric.total_cost(
        &vec![((i_a, i_b), frac(3, 4)), ((i_b, i_c), frac(1, 4))],
        None,
        &l,
    );
    assert_eq!(total, FP_SCALE);
    let msg = msg.unwrap();
    // Highest-cost offender first, with two-decimal percentages.
    assert!(msg.contains("Worst bigrams: ab (75.00%), bc (25.00%)"), "message was: {msg}");
}

#[test]
fn generator_overlays_genome_on_nonfixed_keys() {
    let gen = LayoutGenerator::new(
        kb3(),
        rows(&["a", "b", "c"]),
        vec![false, true, false],
        vec![],
        vec![0],
    );
    let l = gen.generate_unchecked(&vec!['x', 'y']).unwrap();
    assert_eq!(l.as_text(), "xy");
    let idx = l.get_layerkey_index_for_symbol(&'b').unwrap();
    assert!(l.get_layerkey(&idx).is_fixed);
}

#[test]
fn all_fixed_mask_returns_base_layout_unchanged() {
    // Fixed-key mask marking all keys fixed: genome length 0, and the
    // generator returns the base layout unchanged.
    let gen = LayoutGenerator::new(
        kb3(),
        rows(&["a", "b", "c"]),
        vec![true, true, true],
        vec![],
        vec![0],
    );
    let l = gen.generate_unchecked(&vec![]).unwrap();
    assert_eq!(l.as_text(), "");
    for (sym, idx) in [('a', 0u16), ('b', 1), ('c', 2)] {
        assert_eq!(l.get_layerkey(&idx).symbol, sym);
        assert_eq!(l.get_layerkey_index_for_symbol(&sym), Some(idx));
    }
}

#[test]
fn permutation_generator_applies_index_genome() {
    let gen = LayoutGenerator::new(
        kb3(),
        rows(&["a", "b", "c"]),
        vec![false, false, false],
        vec![],
        vec![0],
    );
    let pg = PermutationLayoutGenerator::new(
        vec!['a', 'b', 'c'],
        &vec!['b'],
        gen,
    );
    assert_eq!(pg.permutable_indices(), vec![0, 2]);
    // Swap the permutable symbols a and c; b stays.
    let l = pg.generate_layout(&vec![1, 0]).unwrap();
    assert_eq!(l.as_text(), "cba");
}

#[test]
fn fitness_is_inverse_to_cost() {
    assert_eq!(fitness_from_cost(0), u64::MAX);
    let cost = frac(6, 10);
    assert_eq!(fitness_from_cost(cost), 100_000_000u64 * FP_SCALE / cost);
    assert!(fitness_from_cost(frac(3, 10)) > fitness_from_cost(cost));
}

#[test]
fn plots_render_symbols_per_layer() {
    let l = Layout::new(
        rows(&["aA", "m", "cC"]),
        vec![false, true, false],
        &kb3(),
        vec![HandModifiers { left: vec!['m'], right: vec!['m'] }],
        vec![0, FP_SCALE],
    )
    .unwrap();
    assert_eq!(l.plot(), "a m c");
    // Keys with fewer layers fall back to their highest layer.
    assert_eq!(l.plot_layer(1), "A m C");
    // The compact plot shows only the non-fixed keys' base symbols.
    assert_eq!(l.plot_compact(), "a c");
}

#[test]
fn checked_generate_validates_the_alphabet() {
    let gen = LayoutGenerator::new(
        kb3(),
        rows(&["a", "b", "c"]),
        vec![false, false, false],
        vec![],
        vec![0],
    );
    // A permutation of the declared symbols passes validation and the
    // checked and unchecked paths produce the same layout.
    let genome = vec!['c', 'a', 'b'];
    let checked = gen.generate(&genome).unwrap();
    let unchecked = gen.generate_unchecked(&genome).unwrap();
    assert_eq!(checked.as_text(), "cab");
    assert_eq!(checked.as_text(), unchecked.as_text());
    // A symbol outside the declared alphabet is rejected.
    assert_eq!(gen.generate(&vec!['a', 'b', 'z']).err(), Some(LayoutError::InvalidSymbols));
    // A duplicated symbol cannot consume the alphabet either.
    assert_eq!(gen.generate(&vec!['a', 'a', 'b']).err(), Some(LayoutError::InvalidSymbols));
}
