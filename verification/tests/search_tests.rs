use layout_optimizer::cache::Cache;
use layout_optimizer::evaluation::{Evaluator, WeightedBigramMetric};
use layout_optimizer::evolution::{EvolutionObserver, GenerationStep, StepResult};
use layout_optimizer::fixedpoint::{mul_div, sat_add, FP_SCALE};
use layout_optimizer::generator::LayoutGenerator;
use layout_optimizer::key::{Finger, Hand, Key, Keyboard};
use layout_optimizer::metrics::{BigramMetric, ManualBigramPenalty};
use layout_optimizer::results::NormalizationType;
use layout_optimizer::sa::{neighbor_swap, SaState};

fn kb3() -> Keyboard {
    Keyboard::new(vec![
        Key { cost: FP_SCALE, hand: Hand::Left, finger: Finger::Index, symmetry_index: 0 },
        Key { cost: FP_SCALE, hand: Hand::Left, finger: Finger::Middle, symmetry_index: 1 },
        Key { cost: FP_SCALE, hand: Hand::Right, finger: Finger::Index, symmetry_index: 0 },
    ])
}

fn rows(rs: &[&str]) -> Vec<Vec<char>> {
    rs.iter().map(|s| s.chars().collect()).collect()
}

fn evaluator() -> Evaluator {
    Evaluator::new(
        vec![
            (('a', 'b'), FP_SCALE * 6 / 10),
            (('b', 'a'), FP_SCALE * 3 / 10),
            (('a', 'c'), FP_SCALE / 10),
        ],
        vec![WeightedBigramMetric {
            metric: BigramMetric::Manual(ManualBigramPenalty::new(vec![(('a', 'b'), FP_SCALE)])),
            weight: FP_SCALE,
            normalization: NormalizationType::Fixed(FP_SCALE),
        }],
    )
}

/// A small deterministic pseudo-random generator for the property tests.
struct Lcg(u64);

impl Lcg {
    fn next(&mut self) -> u64 {
        self.0 = self.0.wrapping_mul(6364136223846793005).wrapping_add(1442695040888963407);
        self.0 >> 33
    }

    fn unit(&mut self) -> f64 {
        (self.next() % 1_000_000) as f64 / 1_000_000.0
    }
}

#[test]
fn fixed_point_arithmetic_saturates_and_divides() {
    assert_eq!(sat_add(u64::MAX, 1), u64::MAX);
    assert_eq!(sat_add(2, 3), 5);
    assert_eq!(mul_div(FP_SCALE, FP_SCALE, FP_SCALE), FP_SCALE);
    assert_eq!(mul_div(7, 9, 0), 0);
}

#[test]
fn cache_stores_and_replaces_entries() {
    let mut c = Cache::new();
    let key: Vec<char> = "abc".chars().collect();
    assert_eq!(c.get(&key), None);
    c.insert(key.clone(), 42);
    assert_eq!(c.get(&key), Some(42));
    c.insert(key.clone(), 7);
    assert_eq!(c.get(&key), Some(7));
    let other: Vec<char> = "cba".chars().collect();
    assert_eq!(c.get(&other), None);
}

#[test]
fn evaluation_is_identical_with_and_without_cache() {
    // Cache correctness: for a fixed configuration the evaluated cost is
    // the same whether or not the cache is enabled, including repeated
    // queries of the same genome.
    let ev = evaluator();
    let gen = LayoutGenerator::new(
        kb3(),
        rows(&["a", "b", "c"]),
        vec![false, false, false],
        vec![],
        vec![0],
    );
    let mut cache = Cache::new();
    for genome in [vec!['a', 'b', 'c'], vec!['c', 'a', 'b'], vec!['a', 'b', 'c']] {
        let l = gen.generate_unchecked(&genome).unwrap();
        let key: Vec<char> = l.as_text().chars().collect();
        let uncached = ev.evaluate_with_cache(&l, &key, &mut Cache::new(), false);
        let cached = ev.evaluate_with_cache(&l, &key, &mut cache, true);
        let cached_again = ev.evaluate_with_cache(&l, &key, &mut cache, true);
        assert_eq!(uncached, cached);
        assert_eq!(cached, cached_again);
    }
}

#[test]
fn greedy_annealing_only_accepts_non_worsening_moves() {
    // Temperature effectively 0: the draw never succeeds, and over many
    // random proposals the accepted cost never rises.
    let mut rng = Lcg(12345);
    let mut state = SaState::init(vec![0, 1, 2], 1000);
    let mut last = state.current_cost;
    for _ in 0..500 {
        let candidate_cost = rng.next() % 2000;
        let candidate = neighbor_swap(
            &state.current_genome,
            (rng.next() % 3) as usize,
            (rng.next() % 3) as usize,
        );
        state.consider(candidate, candidate_cost, false);
        assert!(state.current_cost <= last);
        assert!(state.best_cost <= state.current_cost);
        last = state.current_cost;
    }
}

#[test]
fn positive_temperature_accepts_some_worse_moves() {
    // With a genuine temperature the Metropolis draw accepts some
    // strictly worse moves with nonzero probability.
    let mut rng = Lcg(99);
    let temperature = 500.0f64;
    let mut state = SaState::init(vec![0, 1, 2], 1000);
    let mut accepted_worse = 0u32;
    for _ in 0..2000 {
        let candidate_cost = rng.next() % 2000;
        let delta = candidate_cost as f64 - state.current_cost as f64;
        let accept_worse = delta > 0.0 && rng.unit() < (-delta / temperature).exp();
        let was_worse = candidate_cost > state.current_cost;
        let before = state.current_cost;
        state.consider(vec![0, 1, 2], candidate_cost, accept_worse);
        if was_worse && state.current_cost != before {
            accepted_worse += 1;
        }
    }
    assert!(accepted_worse > 0, "no worse move was ever accepted");
    // The best-seen cost still never exceeds the accepted cost.
    assert!(state.best_cost <= state.current_cost);
}

#[test]
fn all_time_best_fitness_is_non_decreasing() {
    // The all-time best survives population regressions.
    let mut obs = EvolutionObserver::new();
    let fitness_reports = [5u64, 3, 7, 6, 7, 2];
    let mut last_best = 0u64;
    for (i, f) in fitness_reports.iter().enumerate() {
        let r = obs.observe(GenerationStep::Intermediate(*f, vec![i]));
        match r {
            StepResult::Best(bf, _) => {
                assert!(bf >= last_best);
                last_best = bf;
            },
            _ => panic!("expected an intermediate best"),
        }
    }
    assert_eq!(last_best, 7);
    // The driver's terminal and failure signals pass through.
    assert!(matches!(obs.observe(GenerationStep::Final), StepResult::Done));
    assert!(matches!(obs.observe(GenerationStep::Error), StepResult::Failed));
    assert_eq!(obs.all_time_best.as_ref().map(|b| b.0), Some(7));
}

#[test]
fn neighbor_swap_exchanges_two_positions() {
    let g = vec![10usize, 20, 30];
    assert_eq!(neighbor_swap(&g, 0, 2), vec![30, 20, 10]);
    assert_eq!(neighbor_swap(&g, 1, 1), vec![10, 20, 30]);
}
