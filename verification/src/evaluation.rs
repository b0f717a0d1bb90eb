//! The evaluator: maps the weighted bigram corpus through a layout,
//! runs every configured bigram metric, and aggregates the normalized,
//! weighted results into one scalar cost — optionally memoized in a
//! result cache.

use vstd::prelude::*;

use crate::cache::Cache;
use crate::fixedpoint::{divq_spec, mul_div_spec, sat_add, sat_add_spec, FP_SCALE};
use crate::layout::{LayerKey, LayerKeyIndex, Layout};
use crate::metrics::BigramMetric;
use crate::results::{
    aggregate_spec, metric_cost_spec, normalize_spec, EvaluationResult, MetricResult,
    MetricResults, MetricType, NormalizationType,
};

verus! {

/// One configured metric: the metric itself, its aggregation weight and
/// its normalization policy.
#[derive(Debug, Clone)]
pub struct WeightedBigramMetric {
    pub metric: BigramMetric,
    /// Weight in the aggregate (fixed-point).
    pub weight: u64,
    /// Normalization applied before weighting into the aggregate.
    pub normalization: NormalizationType,
}

/// Whether both symbols of a pair resolve through the layout's symbol
/// map.
pub open spec fn pair_found(km: Map<char, LayerKeyIndex>, p: (char, char)) -> bool {
    km.contains_key(p.0) && km.contains_key(p.1)
}

/// The first `n` weighted symbol bigrams mapped to layer key index
/// pairs; unresolvable bigrams are skipped.
pub open spec fn mapped_prefix(
    freqs: Seq<((char, char), u64)>,
    km: Map<char, LayerKeyIndex>,
    n: int,
) -> Seq<((LayerKeyIndex, LayerKeyIndex), u64)>
    decreases n,
{
    if n <= 0 {
        Seq::empty()
    } else {
        let m = mapped_prefix(freqs, km, n - 1);
        if pair_found(km, freqs[n - 1].0) {
            m.push(((km[freqs[n - 1].0.0], km[freqs[n - 1].0.1]), freqs[n - 1].1))
        } else {
            m
        }
    }
}

/// Weight mass of the first `n` bigrams the layout can map.
pub open spec fn found_weight_prefix(
    freqs: Seq<((char, char), u64)>,
    km: Map<char, LayerKeyIndex>,
    n: int,
) -> int
    decreases n,
{
    if n <= 0 {
        0
    } else {
        let w = found_weight_prefix(freqs, km, n - 1);
        if pair_found(km, freqs[n - 1].0) {
            sat_add_spec(w, freqs[n - 1].1 as int)
        } else {
            w
        }
    }
}

/// Weight mass of the first `n` bigrams the layout cannot map.
pub open spec fn not_found_weight_prefix(
    freqs: Seq<((char, char), u64)>,
    km: Map<char, LayerKeyIndex>,
    n: int,
) -> int
    decreases n,
{
    if n <= 0 {
        0
    } else {
        let w = not_found_weight_prefix(freqs, km, n - 1);
        if pair_found(km, freqs[n - 1].0) {
            w
        } else {
            sat_add_spec(w, freqs[n - 1].1 as int)
        }
    }
}

/// Aggregate cost of the configured metrics over mapped bigrams.
pub open spec fn metrics_cost_spec(
    ms: Seq<WeightedBigramMetric>,
    mapped: Seq<((LayerKeyIndex, LayerKeyIndex), u64)>,
    lks: Seq<LayerKey>,
    fw: int,
    nfw: int,
) -> int {
    ms.fold_left(
        0int,
        (|acc: int, wm: WeightedBigramMetric| sat_add_spec(
            acc,
            normalize_spec(
                mul_div_spec(wm.weight as int, wm.metric.total_cost_spec(mapped, lks), FP_SCALE as int),
                wm.normalization,
                fw,
                nfw,
            ),
        )),
    )
}

/// The overall scalar cost of one evaluation: the metric aggregate over
/// the mapped bigram corpus, 0 when no metric is configured.
pub open spec fn eval_cost_spec(
    ms: Seq<WeightedBigramMetric>,
    freqs: Seq<((char, char), u64)>,
    lks: Seq<LayerKey>,
    km: Map<char, LayerKeyIndex>,
) -> int {
    if ms.len() == 0 {
        0
    } else {
        metrics_cost_spec(
            ms,
            mapped_prefix(freqs, km, freqs.len() as int),
            lks,
            found_weight_prefix(freqs, km, freqs.len() as int),
            not_found_weight_prefix(freqs, km, freqs.len() as int),
        )
    }
}

/// Evaluates layouts against a weighted bigram corpus with a set of
/// configured metrics.
#[derive(Debug, Clone)]
pub struct Evaluator {
    /// The weighted bigram statistics of the corpus.
    pub bigram_freqs: Vec<((char, char), u64)>,
    /// The configured bigram metrics.
    pub bigram_metrics: Vec<WeightedBigramMetric>,
}

impl Evaluator {
    pub fn new(
        bigram_freqs: Vec<((char, char), u64)>,
        bigram_metrics: Vec<WeightedBigramMetric>,
    ) -> (r: Self)
        ensures
            r.bigram_freqs == bigram_freqs,
            r.bigram_metrics == bigram_metrics,
    {
        Self { bigram_freqs, bigram_metrics }
    }

    /// The cost this evaluator assigns to a layout.
    pub open spec fn cost_spec(self, l: Layout) -> int {
        eval_cost_spec(self.bigram_metrics@, self.bigram_freqs@, l.layerkeys@, l.key_map_view())
    }

    /// Map the bigram corpus through the layout: the resolvable bigrams
    /// as index pairs, and the found / not-found weight masses.
    fn map_bigrams(&self, layout: &Layout) -> (r: (Vec<((LayerKeyIndex, LayerKeyIndex), u64)>, u64, u64))
        requires
            layout.wf(),
        ensures
            r.0@ == mapped_prefix(
                self.bigram_freqs@,
                layout.key_map_view(),
                self.bigram_freqs@.len() as int,
            ),
            r.1 as int == found_weight_prefix(
                self.bigram_freqs@,
                layout.key_map_view(),
                self.bigram_freqs@.len() as int,
            ),
            r.2 as int == not_found_weight_prefix(
                self.bigram_freqs@,
                layout.key_map_view(),
                self.bigram_freqs@.len() as int,
            ),
            forall|t: int|
                0 <= t < r.0@.len() ==> ((#[trigger] r.0@[t]).0.0 as int) < layout.layerkeys@.len()
                    && (r.0@[t].0.1 as int) < layout.layerkeys@.len(),
    {
        let ghost km = layout.key_map_view();
        let mut mapped: Vec<((LayerKeyIndex, LayerKeyIndex), u64)> = Vec::new();
        let mut fw: u64 = 0;
        let mut nfw: u64 = 0;
        let mut i: usize = 0;
        while i < self.bigram_freqs.len()
            invariant
                0 <= i <= self.bigram_freqs@.len(),
                layout.wf(),
                km == layout.key_map_view(),
                mapped@ == mapped_prefix(self.bigram_freqs@, km, i as int),
                fw as int == found_weight_prefix(self.bigram_freqs@, km, i as int),
                nfw as int == not_found_weight_prefix(self.bigram_freqs@, km, i as int),
                forall|t: int|
                    0 <= t < mapped@.len() ==> ((#[trigger] mapped@[t]).0.0 as int)
                        < layout.layerkeys@.len() && (mapped@[t].0.1 as int)
                        < layout.layerkeys@.len(),
            decreases self.bigram_freqs@.len() - i,
        {
            let pair = self.bigram_freqs[i].0;
            let w = self.bigram_freqs[i].1;
            let i1 = layout.get_layerkey_index_for_symbol(&pair.0);
            let i2 = layout.get_layerkey_index_for_symbol(&pair.1);
            match (i1, i2) {
                (Some(a), Some(b)) => {
                    mapped.push(((a, b), w));
                    fw = sat_add(fw, w);
                },
                _ => {
                    nfw = sat_add(nfw, w);
                },
            }
            i = i + 1;
        }
        (mapped, fw, nfw)
    }

    /// Evaluate a layout: run every configured metric over the mapped
    /// corpus and build the result tree, one [`MetricResults`] per
    /// metric type.  The overall cost of the result is exactly
    /// [`Evaluator::cost_spec`].
    pub fn evaluate_layout(&self, layout: &Layout) -> (r: EvaluationResult)
        requires
            layout.wf(),
        ensures
            r.total_cost_spec() == self.cost_spec(*layout),
            r.results_seq().len() == 4,
            r.results_seq()[0].metric_type == MetricType::Layout,
            r.results_seq()[1].metric_type == MetricType::Unigram,
            r.results_seq()[2].metric_type == MetricType::Bigram,
            r.results_seq()[3].metric_type == MetricType::Trigram,
            r.results_seq()[2].found_weight as int == found_weight_prefix(
                self.bigram_freqs@,
                layout.key_map_view(),
                self.bigram_freqs@.len() as int,
            ),
            r.results_seq()[2].not_found_weight as int == not_found_weight_prefix(
                self.bigram_freqs@,
                layout.key_map_view(),
                self.bigram_freqs@.len() as int,
            ),
            r.results_seq()[2].metric_costs@.len() == self.bigram_metrics@.len(),
    {
        let (mapped, fw, nfw) = self.map_bigrams(layout);
        let ghost km = layout.key_map_view();
        let ghost lks = layout.layerkeys@;
        let ghost f = (|acc: int, wm: WeightedBigramMetric| sat_add_spec(
            acc,
            normalize_spec(
                mul_div_spec(wm.weight as int, wm.metric.total_cost_spec(mapped@, lks), FP_SCALE as int),
                wm.normalization,
                fw as int,
                nfw as int,
            ),
        ));
        let mut bigram_results = MetricResults::new(MetricType::Bigram, fw, nfw);
        let mut t: usize = 0;
        proof {
            assert(self.bigram_metrics@.take(0int) =~= Seq::<WeightedBigramMetric>::empty());
        }
        while t < self.bigram_metrics.len()
            invariant
                0 <= t <= self.bigram_metrics@.len(),
                layout.wf(),
                km == layout.key_map_view(),
                lks == layout.layerkeys@,
                mapped@ == mapped_prefix(
                    self.bigram_freqs@,
                    km,
                    self.bigram_freqs@.len() as int,
                ),
                forall|t2: int|
                    0 <= t2 < mapped@.len() ==> ((#[trigger] mapped@[t2]).0.0 as int) < lks.len()
                        && (mapped@[t2].0.1 as int) < lks.len(),
                bigram_results.metric_type == MetricType::Bigram,
                bigram_results.found_weight == fw,
                bigram_results.not_found_weight == nfw,
                bigram_results.metric_costs@.len() == t,
                aggregate_spec(bigram_results.cores(), fw as int, nfw as int, true, true)
                    == self.bigram_metrics@.take(t as int).fold_left(0int, f),
                f == (|acc: int, wm: WeightedBigramMetric| sat_add_spec(
                    acc,
                    normalize_spec(
                        mul_div_spec(
                            wm.weight as int,
                            wm.metric.total_cost_spec(mapped@, lks),
                            FP_SCALE as int,
                        ),
                        wm.normalization,
                        fw as int,
                        nfw as int,
                    ),
                )),
            decreases self.bigram_metrics@.len() - t,
        {
            let wm = &self.bigram_metrics[t];
            let (cost, message) = wm.metric.total_cost(&mapped, None, layout);
            let name_str = wm.metric.name();
            let mr = MetricResult {
                name: name_str.to_owned(),
                cost,
                message,
                weight: wm.weight,
                normalization: wm.normalization,
            };
            let ghost pre_cores = bigram_results.cores();
            bigram_results.add_result(mr);
            proof {
                assert(bigram_results.cores().drop_last() =~= pre_cores);
                assert(bigram_results.cores().last() == mr);
                assert(aggregate_spec(bigram_results.cores(), fw as int, nfw as int, true, true)
                    == sat_add_spec(
                    aggregate_spec(pre_cores, fw as int, nfw as int, true, true),
                    metric_cost_spec(mr, fw as int, nfw as int, true, true),
                ));
                assert(metric_cost_spec(mr, fw as int, nfw as int, true, true) == normalize_spec(
                    mul_div_spec(
                        wm.weight as int,
                        wm.metric.total_cost_spec(mapped@, lks),
                        FP_SCALE as int,
                    ),
                    wm.normalization,
                    fw as int,
                    nfw as int,
                ));
                assert(self.bigram_metrics@.take(t + 1).drop_last() =~= self.bigram_metrics@.take(
                    t as int,
                ));
                assert(self.bigram_metrics@.take(t + 1).last() == self.bigram_metrics@[t as int]);
            }
            t = t + 1;
        }
        proof {
            assert(self.bigram_metrics@.take(self.bigram_metrics@.len() as int)
                =~= self.bigram_metrics@);
        }
        let layout_results = MetricResults::new(MetricType::Layout, 0, 0);
        let unigram_results = MetricResults::new(MetricType::Unigram, 0, 0);
        let trigram_results = MetricResults::new(MetricType::Trigram, 0, 0);
        let mut individual: Vec<MetricResults> = Vec::new();
        individual.push(layout_results);
        individual.push(unigram_results);
        individual.push(bigram_results);
        individual.push(trigram_results);
        let ghost iv = individual@;
        let result = EvaluationResult::new(individual);
        proof {
            let g = (|acc: int, mr: MetricResults| sat_add_spec(
                acc,
                EvaluationResult::entry_cost_spec(mr),
            ));
            reveal_with_fuel(Seq::fold_left, 6);
            assert(result.results_seq() == iv);
            assert(iv.len() == 4);
            assert(EvaluationResult::entry_cost_spec(iv[0]) == 0);
            assert(EvaluationResult::entry_cost_spec(iv[1]) == 0);
            assert(EvaluationResult::entry_cost_spec(iv[3]) == 0);
            if self.bigram_metrics@.len() == 0 {
                assert(iv[2].metric_costs@.len() == 0);
                assert(EvaluationResult::entry_cost_spec(iv[2]) == 0);
                assert(result.total_cost_spec() == 0);
            } else {
                assert(EvaluationResult::entry_cost_spec(iv[2]) == aggregate_spec(
                    iv[2].cores(),
                    fw as int,
                    nfw as int,
                    true,
                    true,
                ));
                crate::results::lemma_aggregate_bounds(iv[2].cores(), fw as int, nfw as int, true, true);
                assert(result.total_cost_spec() == aggregate_spec(
                    iv[2].cores(),
                    fw as int,
                    nfw as int,
                    true,
                    true,
                ));
            }
        }
        result
    }

    /// Evaluate a layout and reduce the result to its scalar cost.
    pub fn evaluate_to_cost(&self, layout: &Layout) -> (r: u64)
        requires
            layout.wf(),
        ensures
            r as int == self.cost_spec(*layout),
    {
        let res = self.evaluate_layout(layout);
        proof {
            crate::results::lemma_total_cost_nonneg(res);
        }
        res.total_cost()
    }

    /// Evaluate cache-first: return the memoized cost of the layout's
    /// text key when the cache is enabled and holds a faithful entry,
    /// otherwise evaluate and memoize.  The returned cost is the same
    /// whether or not the cache is enabled — the memo is transparent.
    pub fn evaluate_with_cache(
        &self,
        layout: &Layout,
        key: &Vec<char>,
        cache: &mut Cache,
        enabled: bool,
    ) -> (r: u64)
        requires
            layout.wf(),
            old(cache).wf(),
            old(cache).view_map().contains_key(key@) ==> old(cache).view_map()[key@] as int
                == eval_cost_spec(
                self.bigram_metrics@,
                self.bigram_freqs@,
                layout.layerkeys@,
                layout.key_map_view(),
            ),
        ensures
            r as int == self.cost_spec(*layout),
            final(cache).wf(),
            (!enabled ==> *final(cache) == *old(cache)),
            (enabled ==> final(cache).view_map() == old(cache).view_map().insert(key@, r)),
    {
        if enabled {
            match cache.get(key) {
                Some(c) => {
                    proof {
                        assert(old(cache).view_map().insert(key@, c)
                            =~= old(cache).view_map());
                    }
                    c
                },
                None => {
                    let c = self.evaluate_to_cost(layout);
                    let key2 = crate::generator::clone_chars(key);
                    cache.insert(key2, c);
                    c
                },
            }
        } else {
            self.evaluate_to_cost(layout)
        }
    }
}

/// The display fitness of a cost: the larger the better.  `1e8` divided
/// by the cost; the maximum fitness for a zero cost.
pub fn fitness_from_cost(cost: u64) -> (r: u64)
    ensures
        (cost == 0 ==> r == u64::MAX),
        (cost > 0 ==> r as int == divq_spec(100000000 * (FP_SCALE as int), cost as int)),
{
    if cost == 0 {
        u64::MAX
    } else {
        let n: u128 = 100000000u128 * (FP_SCALE as u128);
        let q = n / (cost as u128);
        if q > u64::MAX as u128 {
            u64::MAX
        } else {
            q as u64
        }
    }
}

} // verus!
