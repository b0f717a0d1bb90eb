//! Results of metric evaluations: per-metric costs, their normalization,
//! and the aggregation into one scalar cost per evaluation.

use vstd::prelude::*;
use vstd::arithmetic::div_mod::{lemma_basic_div, lemma_div_basics_4};
use vstd::arithmetic::mul::lemma_mul_nonnegative;
use vstd::seq_lib::{commutative_foldl, lemma_fold_left_permutation};

use crate::fixedpoint::{divq_spec, mul_div, mul_div_spec, sat_add, sat_add_spec, FP_SCALE};

verus! {

/// How the total cost of one metric is normalized before weighting.
///
/// The divisor value is fixed-point, like every cost in this crate.
#[derive(Debug, Clone, Copy, PartialEq, Eq, Structural)]
pub enum NormalizationType {
    /// Divide the metric's cost by a fixed value.
    Fixed(u64),
    /// Divide the metric's cost by the product of a fixed value and the
    /// total weight of the n-grams that the layout could map.
    WeightFound(u64),
    /// Divide the metric's cost by the product of a fixed value and the
    /// found weight, plus the weight the layout could not map.
    WeightAll(u64),
}

/// Which data a metric operates on.
#[derive(Debug, Clone, Copy, PartialEq, Eq, Structural)]
pub enum MetricType {
    Layout,
    Unigram,
    Bigram,
    Trigram,
}

/// The raw result of one metric evaluation.
#[derive(Debug, Clone)]
pub struct MetricResult {
    /// Name of the metric.
    pub name: String,
    /// Resulting total cost (fixed-point, not normalized).
    pub cost: u64,
    /// An optional message with additional details.
    pub message: Option<String>,
    /// The weight used when aggregating all metrics (fixed-point).
    pub weight: u64,
    /// The normalization to apply.
    pub normalization: NormalizationType,
}

/// A metric result together with its normalized weighted and unweighted costs.
#[derive(Debug, Clone)]
pub struct NormalizedMetricResult {
    pub core: MetricResult,
    pub weighted_cost: u64,
    pub unweighted_cost: u64,
}

/// Normalization of a cost `val` under policy `nt`, given the found and
/// not-found n-gram weights.  A zero divisor yields 0, never an error:
/// in real arithmetic this would be the NaN case, and a NaN must become
/// cost 0 rather than propagate.
pub open spec fn normalize_spec(val: int, nt: NormalizationType, found: int, not_found: int) -> int {
    match nt {
        NormalizationType::Fixed(t) => divq_spec(val * FP_SCALE, t as int),
        NormalizationType::WeightFound(t) => divq_spec(
            val * FP_SCALE * FP_SCALE,
            (t as int) * found,
        ),
        NormalizationType::WeightAll(t) => divq_spec(
            val * FP_SCALE * FP_SCALE,
            (t as int) * found + not_found * FP_SCALE,
        ),
    }
}

/// The contribution of one metric result: optionally weighted by the
/// metric's weight, optionally normalized by its policy.
pub open spec fn metric_cost_spec(
    mr: MetricResult,
    found: int,
    not_found: int,
    normalize: bool,
    weight: bool,
) -> int {
    let cost = if weight {
        mul_div_spec(mr.weight as int, mr.cost as int, FP_SCALE as int)
    } else {
        mr.cost as int
    };
    if normalize {
        normalize_spec(cost, mr.normalization, found, not_found)
    } else {
        cost
    }
}

/// Saturating sum of the contributions of a sequence of metric results.
pub open spec fn aggregate_spec(
    s: Seq<MetricResult>,
    found: int,
    not_found: int,
    normalize: bool,
    weight: bool,
) -> int {
    s.fold_left(
        0int,
        (|acc: int, mr: MetricResult| sat_add_spec(acc, metric_cost_spec(mr, found, not_found, normalize, weight))),
    )
}

/// Every single-metric contribution lies in `[0, u64::MAX]`.
pub proof fn lemma_metric_cost_bounds(
    mr: MetricResult,
    found: int,
    not_found: int,
    normalize: bool,
    weight: bool,
)
    ensures
        0 <= metric_cost_spec(mr, found, not_found, normalize, weight) <= u64::MAX,
{
    lemma_mul_nonnegative(mr.weight as int, mr.cost as int);
    let cost = if weight {
        mul_div_spec(mr.weight as int, mr.cost as int, FP_SCALE as int)
    } else {
        mr.cost as int
    };
    lemma_divq_nonneg(mr.weight as int * mr.cost as int, FP_SCALE as int);
    assert(0 <= cost);
    lemma_mul_nonnegative(cost, FP_SCALE as int);
    lemma_mul_nonnegative(cost * FP_SCALE, FP_SCALE as int);
    match mr.normalization {
        NormalizationType::Fixed(t) => {
            lemma_divq_nonneg(cost * FP_SCALE, t as int);
        },
        NormalizationType::WeightFound(t) => {
            lemma_divq_nonneg(cost * FP_SCALE * FP_SCALE, (t as int) * found);
        },
        NormalizationType::WeightAll(t) => {
            lemma_divq_nonneg(cost * FP_SCALE * FP_SCALE, (t as int) * found + not_found * FP_SCALE);
        },
    }
}

/// `divq_spec` of a non-negative numerator lies in `[0, u64::MAX]`.
pub proof fn lemma_divq_nonneg(n: int, d: int)
    requires
        0 <= n,
    ensures
        0 <= divq_spec(n, d) <= u64::MAX,
{
    if d > 0 {
        lemma_div_basics_4(n, d);
    }
}

/// A list of metric results of the same [`MetricType`], with the weight
/// mass the layout could and could not map.
#[derive(Debug, Clone)]
pub struct MetricResults {
    /// Which data the metrics operated on.
    pub metric_type: MetricType,
    /// Total weight of n-grams that the layout could map (fixed-point).
    pub found_weight: u64,
    /// Total weight of n-grams with symbols the layout could not map.
    pub not_found_weight: u64,
    /// The individual metric results.
    pub metric_costs: Vec<NormalizedMetricResult>,
}

impl MetricResults {
    /// Sequence of the raw metric results held by this list.
    pub open spec fn cores(self) -> Seq<MetricResult> {
        self.metric_costs@.map_values(|n: NormalizedMetricResult| n.core)
    }

    pub fn new(metric_type: MetricType, found_weight: u64, not_found_weight: u64) -> (r: Self)
        ensures
            r.metric_type == metric_type,
            r.found_weight == found_weight,
            r.not_found_weight == not_found_weight,
            r.metric_costs@ =~= Seq::<NormalizedMetricResult>::empty(),
    {
        Self { metric_type, found_weight, not_found_weight, metric_costs: Vec::new() }
    }

    /// Normalize a cost value under the given policy.
    fn normalize_value(&self, val: u64, normalization_type: &NormalizationType) -> (r: u64)
        ensures
            r == normalize_spec(
                val as int,
                *normalization_type,
                self.found_weight as int,
                self.not_found_weight as int,
            ),
    {
        match normalization_type {
            NormalizationType::Fixed(t) => mul_div(val, FP_SCALE, *t),
            NormalizationType::WeightFound(t) => {
                proof {
                    lemma_wide_products_fit(val as int, *t as int, self.found_weight as int);
                }
                let n: u128 = (val as u128) * (FP_SCALE as u128) * (FP_SCALE as u128);
                let d: u128 = (*t as u128) * (self.found_weight as u128);
                div_wide(n, d)
            },
            NormalizationType::WeightAll(t) => {
                proof {
                    lemma_wide_products_fit(val as int, *t as int, self.found_weight as int);
                    lemma_wide_products_fit(val as int, *t as int, self.not_found_weight as int);
                }
                let n: u128 = (val as u128) * (FP_SCALE as u128) * (FP_SCALE as u128);
                let p: u128 = (*t as u128) * (self.found_weight as u128);
                let q: u128 = (self.not_found_weight as u128) * (FP_SCALE as u128);
                match p.checked_add(q) {
                    Some(d) => div_wide(n, d),
                    None => {
                        // The exact divisor exceeds even `u128`, so the
                        // quotient of the (much smaller) numerator is 0.
                        proof {
                            lemma_basic_div(
                                (val as int) * FP_SCALE * FP_SCALE,
                                p as int + q as int,
                            );
                        }
                        0
                    },
                }
            },
        }
    }

    /// Weight and/or normalize one metric result.
    fn compute_metric_cost(&self, metric_cost: &MetricResult, normalize: bool, weight: bool) -> (r:
        u64)
        ensures
            r == metric_cost_spec(
                *metric_cost,
                self.found_weight as int,
                self.not_found_weight as int,
                normalize,
                weight,
            ),
    {
        let cost = if weight {
            mul_div(metric_cost.weight, metric_cost.cost, FP_SCALE)
        } else {
            metric_cost.cost
        };
        proof {
            lemma_mul_nonnegative(metric_cost.weight as int, metric_cost.cost as int);
            lemma_divq_nonneg(
                metric_cost.weight as int * metric_cost.cost as int,
                FP_SCALE as int,
            );
        }
        if normalize {
            self.normalize_value(cost, &metric_cost.normalization)
        } else {
            cost
        }
    }

    /// Append one metric result, computing its weighted and unweighted
    /// normalized costs; nothing else changes.
    pub fn add_result(&mut self, metric_cost: MetricResult)
        ensures
            final(self).metric_type == old(self).metric_type,
            final(self).found_weight == old(self).found_weight,
            final(self).not_found_weight == old(self).not_found_weight,
            final(self).metric_costs@.len() == old(self).metric_costs@.len() + 1,
            final(self).metric_costs@.last().core == metric_cost,
            final(self).metric_costs@.last().weighted_cost == metric_cost_spec(
                metric_cost,
                old(self).found_weight as int,
                old(self).not_found_weight as int,
                true,
                true,
            ),
            final(self).metric_costs@.last().unweighted_cost == metric_cost_spec(
                metric_cost,
                old(self).found_weight as int,
                old(self).not_found_weight as int,
                true,
                false,
            ),
            final(self).metric_costs@.drop_last() =~= old(self).metric_costs@,
    {
        let weighted_cost = self.compute_metric_cost(&metric_cost, true, true);
        let unweighted_cost = self.compute_metric_cost(&metric_cost, true, false);
        self.metric_costs.push(
            NormalizedMetricResult { core: metric_cost, weighted_cost, unweighted_cost },
        );
    }

    /// Saturating sum of all contributions, weighted and/or normalized.
    fn aggregate_metric_costs(&self, normalize: bool, weight: bool) -> (r: u64)
        ensures
            r == aggregate_spec(
                self.cores(),
                self.found_weight as int,
                self.not_found_weight as int,
                normalize,
                weight,
            ),
    {
        let found = self.found_weight;
        let not_found = self.not_found_weight;
        let ghost f = (|acc: int, mr: MetricResult| sat_add_spec(
            acc,
            metric_cost_spec(mr, found as int, not_found as int, normalize, weight),
        ));
        let mut acc: u64 = 0;
        let mut i: usize = 0;
        proof {
            assert(self.cores().take(0int) =~= Seq::<MetricResult>::empty());
        }
        while i < self.metric_costs.len()
            invariant
                0 <= i <= self.metric_costs.len(),
                self.cores().len() == self.metric_costs.len(),
                acc as int == self.cores().take(i as int).fold_left(0int, f),
                f == (|acc: int, mr: MetricResult| sat_add_spec(
                    acc,
                    metric_cost_spec(mr, found as int, not_found as int, normalize, weight),
                )),
                found == self.found_weight,
                not_found == self.not_found_weight,
            decreases self.metric_costs.len() - i,
        {
            let c = self.compute_metric_cost(&self.metric_costs[i].core, normalize, weight);
            proof {
                assert(self.cores().take(i + 1).drop_last() =~= self.cores().take(i as int));
                assert(self.cores().take(i + 1).last() == self.cores()[i as int]);
            }
            acc = sat_add(acc, c);
            i = i + 1;
        }
        proof {
            assert(self.cores().take(self.metric_costs.len() as int) =~= self.cores());
        }
        acc
    }

    /// The weighted and normalized total cost of all metrics in this list.
    pub fn total_cost(&self) -> (r: u64)
        ensures
            r == aggregate_spec(
                self.cores(),
                self.found_weight as int,
                self.not_found_weight as int,
                true,
                true,
            ),
    {
        self.aggregate_metric_costs(true, true)
    }

    /// The weighted but not normalized total cost of all metrics in this list.
    pub fn unnormalized_total_cost(&self) -> (r: u64)
        ensures
            r == aggregate_spec(
                self.cores(),
                self.found_weight as int,
                self.not_found_weight as int,
                false,
                true,
            ),
    {
        self.aggregate_metric_costs(false, true)
    }
}

/// Quotient of two wide intermediates, clamped to `u64`.
fn div_wide(n: u128, d: u128) -> (r: u64)
    ensures
        r == divq_spec(n as int, d as int),
{
    if d == 0 {
        0
    } else {
        let q = n / d;
        if q > u64::MAX as u128 {
            u64::MAX
        } else {
            q as u64
        }
    }
}

/// The wide intermediates of normalization fit in `u128`.
proof fn lemma_wide_products_fit(val: int, t: int, found: int)
    requires
        0 <= val <= u64::MAX,
        0 <= t <= u64::MAX,
        0 <= found <= u64::MAX,
    ensures
        0 <= val * FP_SCALE,
        0 <= val * FP_SCALE * FP_SCALE <= u128::MAX,
        0 <= t * found <= u128::MAX,
        0 <= found * FP_SCALE <= u128::MAX,
{
    assert(0 <= val * FP_SCALE <= u64::MAX * (FP_SCALE as int)) by (nonlinear_arith)
        requires 0 <= val <= u64::MAX;
    assert(0 <= val * FP_SCALE * FP_SCALE <= u64::MAX * (FP_SCALE as int) * (FP_SCALE as int))
        by (nonlinear_arith)
        requires 0 <= val * FP_SCALE <= u64::MAX * (FP_SCALE as int);
    assert(u64::MAX * (FP_SCALE as int) * (FP_SCALE as int) <= u128::MAX);
    assert(0 <= t * found <= u64::MAX * (u64::MAX as int)) by (nonlinear_arith)
        requires 0 <= t <= u64::MAX && 0 <= found <= u64::MAX;
    assert(0 <= found * FP_SCALE <= u64::MAX * (FP_SCALE as int)) by (nonlinear_arith)
        requires 0 <= found <= u64::MAX;
    assert(u64::MAX * (u64::MAX as int) <= u128::MAX);
}

/// The fold operator of [`aggregate_spec`] is commutative, so the
/// aggregate does not depend on the order of the metric results.
pub proof fn lemma_aggregate_commutative(found: int, not_found: int, normalize: bool, weight: bool)
    ensures
        commutative_foldl(
            (|acc: int, mr: MetricResult| sat_add_spec(
                acc,
                metric_cost_spec(mr, found, not_found, normalize, weight),
            )),
        ),
{
    let f = (|acc: int, mr: MetricResult| sat_add_spec(
        acc,
        metric_cost_spec(mr, found, not_found, normalize, weight),
    ));
    assert forall|x: MetricResult, y: MetricResult, v: int| #[trigger] f(f(v, x), y) == f(
        f(v, y),
        x,
    ) by {
        lemma_metric_cost_bounds(x, found, not_found, normalize, weight);
        lemma_metric_cost_bounds(y, found, not_found, normalize, weight);
    }
}

/// Reordering the metric results of one metric type leaves the aggregate
/// unchanged: summation is commutative, even with saturation.
pub proof fn lemma_aggregate_permutation(
    s1: Seq<MetricResult>,
    s2: Seq<MetricResult>,
    found: int,
    not_found: int,
    normalize: bool,
    weight: bool,
)
    requires
        s1.to_multiset() == s2.to_multiset(),
    ensures
        aggregate_spec(s1, found, not_found, normalize, weight) == aggregate_spec(
            s2,
            found,
            not_found,
            normalize,
            weight,
        ),
{
    lemma_aggregate_commutative(found, not_found, normalize, weight);
    lemma_fold_left_permutation(
        s1,
        s2,
        (|acc: int, mr: MetricResult| sat_add_spec(
            acc,
            metric_cost_spec(mr, found, not_found, normalize, weight),
        )),
        0int,
    );
}

/// When every raw metric cost is 0, the aggregate is 0, under any
/// normalization policy and any found / not-found weights — in particular
/// when the found weight is 0, where real arithmetic would divide by
/// zero.
pub proof fn lemma_aggregate_zero_costs(
    s: Seq<MetricResult>,
    found: int,
    not_found: int,
    normalize: bool,
    weight: bool,
)
    requires
        forall|i: int| 0 <= i < s.len() ==> (#[trigger] s[i]).cost == 0,
    ensures
        aggregate_spec(s, found, not_found, normalize, weight) == 0,
    decreases s.len(),
{
    if s.len() > 0 {
        lemma_aggregate_zero_costs(s.drop_last(), found, not_found, normalize, weight);
        let mr = s.last();
        assert(mr.cost == 0);
        assert(metric_cost_spec(mr, found, not_found, normalize, weight) == 0) by {
            assert(mul_div_spec(mr.weight as int, 0int, FP_SCALE as int) == 0) by {
                assert(mr.weight as int * 0int == 0);
                lemma_basic_div(0int, FP_SCALE as int);
            }
        }
    }
}

/// The result tree of one whole evaluation: one [`MetricResults`] per
/// metric type.
#[derive(Debug, Clone)]
pub struct EvaluationResult {
    individual_results: Vec<MetricResults>,
}

impl EvaluationResult {
    /// The per-type result lists, in order.
    pub closed spec fn results_seq(self) -> Seq<MetricResults> {
        self.individual_results@
    }

    /// Total cost of one [`MetricResults`] entry as it enters the overall
    /// sum: entries without any concrete metric contribute nothing.
    pub open spec fn entry_cost_spec(mr: MetricResults) -> int {
        if mr.metric_costs@.len() == 0 {
            0
        } else {
            aggregate_spec(mr.cores(), mr.found_weight as int, mr.not_found_weight as int, true, true)
        }
    }

    /// Saturating sum of the per-type totals.
    pub open spec fn total_cost_spec(self) -> int {
        self.results_seq().fold_left(
            0int,
            (|acc: int, mr: MetricResults| sat_add_spec(acc, Self::entry_cost_spec(mr))),
        )
    }

    pub fn new(individual_results: Vec<MetricResults>) -> (r: Self)
        ensures
            r.results_seq() == individual_results@,
    {
        Self { individual_results }
    }

    /// The overall scalar cost: sum over all metric types with at least
    /// one concrete metric of that type's weighted normalized total.
    pub fn total_cost(&self) -> (r: u64)
        ensures
            r == self.total_cost_spec(),
    {
        let ghost f = (|acc: int, mr: MetricResults| sat_add_spec(acc, Self::entry_cost_spec(mr)));
        let mut cost: u64 = 0;
        let mut i: usize = 0;
        proof {
            assert(self.results_seq().take(0int) =~= Seq::<MetricResults>::empty());
        }
        while i < self.individual_results.len()
            invariant
                0 <= i <= self.individual_results.len(),
                self.results_seq().len() == self.individual_results.len(),
                cost as int == self.results_seq().take(i as int).fold_left(0int, f),
                f == (|acc: int, mr: MetricResults| sat_add_spec(acc, Self::entry_cost_spec(mr))),
            decreases self.individual_results.len() - i,
        {
            let mc = &self.individual_results[i];
            let c: u64 = if mc.metric_costs.len() == 0 {
                0
            } else {
                mc.total_cost()
            };
            proof {
                assert(self.results_seq().take(i + 1).drop_last() =~= self.results_seq().take(
                    i as int,
                ));
                assert(self.results_seq().take(i + 1).last() == self.results_seq()[i as int]);
            }
            cost = sat_add(cost, c);
            i = i + 1;
        }
        proof {
            assert(self.results_seq().take(self.individual_results.len() as int)
                =~= self.results_seq());
        }
        cost
    }

    /// Display-only score: the larger the better.  `1e8` divided by the
    /// total cost; the maximum when the cost is 0.
    pub fn optimization_score(&self) -> (r: u64)
        ensures
            (self.total_cost_spec() == 0 ==> r == u64::MAX),
            (self.total_cost_spec() > 0 ==> r == divq_spec(
                100000000 * (FP_SCALE as int),
                self.total_cost_spec(),
            )),
    {
        let t = self.total_cost();
        if t == 0 {
            u64::MAX
        } else {
            proof {
                lemma_total_cost_nonneg(*self);
            }
            div_wide(100000000u128 * (FP_SCALE as u128), t as u128)
        }
    }

    /// The per-type result lists for reporting.
    pub fn iter(&self) -> (r: &Vec<MetricResults>)
        ensures
            r@ == self.results_seq(),
    {
        &self.individual_results
    }
}

/// The overall total cost is non-negative.
pub proof fn lemma_total_cost_nonneg(e: EvaluationResult)
    ensures
        0 <= e.total_cost_spec() <= u64::MAX,
{
    let g = (|mr: MetricResults| EvaluationResult::entry_cost_spec(mr));
    assert forall|mr: MetricResults| 0 <= #[trigger] g(mr) <= u64::MAX by {
        lemma_aggregate_bounds(
            mr.cores(),
            mr.found_weight as int,
            mr.not_found_weight as int,
            true,
            true,
        );
    }
    lemma_fold_sat_add_bounds(e.results_seq(), g);
    assert((|acc: int, x: MetricResults| sat_add_spec(acc, g(x))) =~= (|acc: int,
        mr: MetricResults| sat_add_spec(acc, EvaluationResult::entry_cost_spec(mr))));
}

/// The aggregate of any sequence of metric results lies in `[0, u64::MAX]`.
pub proof fn lemma_aggregate_bounds(
    s: Seq<MetricResult>,
    found: int,
    not_found: int,
    normalize: bool,
    weight: bool,
)
    ensures
        0 <= aggregate_spec(s, found, not_found, normalize, weight) <= u64::MAX,
{
    let g = (|mr: MetricResult| metric_cost_spec(mr, found, not_found, normalize, weight));
    assert forall|mr: MetricResult| 0 <= #[trigger] g(mr) <= u64::MAX by {
        lemma_metric_cost_bounds(mr, found, not_found, normalize, weight);
    }
    lemma_fold_sat_add_bounds(s, g);
    assert((|acc: int, x: MetricResult| sat_add_spec(acc, g(x))) =~= (|acc: int,
        mr: MetricResult| sat_add_spec(
        acc,
        metric_cost_spec(mr, found, not_found, normalize, weight),
    )));
}

/// Folding saturating additions of in-range contributions from 0 stays
/// within `[0, u64::MAX]`.
proof fn lemma_fold_sat_add_bounds<A>(s: Seq<A>, g: spec_fn(A) -> int)
    requires
        forall|x: A| 0 <= #[trigger] g(x) <= u64::MAX,
    ensures
        0 <= s.fold_left(0int, (|acc: int, x: A| sat_add_spec(acc, g(x)))) <= u64::MAX,
    decreases s.len(),
{
    let f = (|acc: int, x: A| sat_add_spec(acc, g(x)));
    if s.len() > 0 {
        lemma_fold_sat_add_bounds(s.drop_last(), g);
        assert(s.fold_left(0int, f) == f(s.drop_last().fold_left(0int, f), s.last()));
    } else {
        assert(s.fold_left(0int, f) == 0);
    }
}

} // verus!
