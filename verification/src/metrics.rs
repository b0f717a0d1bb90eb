//! Bigram metrics: pluggable cost functions over weighted symbol pairs,
//! dispatched through one closed enumeration, with the shared total-cost
//! accumulation and worst-offender diagnostics.

use vstd::prelude::*;

use crate::fixedpoint::{mul_div, mul_div_spec, sat_add, sat_add_spec, FP_SCALE};
use crate::key::Finger;
use crate::layout::{LayerKey, LayerKeyIndex, Layout};
use crate::text::{chars_to_string, push_all, push_str_chars, u64_digits};
use crate::worst::{worst_into_sorted, worst_len, worst_new, worst_pop_min, worst_push};

verus! {

/// How many worst offenders the diagnostic message reports.
pub const N_WORST: usize = 3;

/// Configuration of the asymmetric-bigram metric.
#[derive(Debug, Clone, PartialEq)]
pub struct Parameters {}

/// Charges each bigram whose two keys are not symmetry partners; thumbs
/// are excluded.
#[derive(Debug, Clone, PartialEq)]
pub struct AsymmetricBigrams {}

impl AsymmetricBigrams {
    pub fn new(_params: &Parameters) -> (r: Self)
        ensures
            r == (AsymmetricBigrams {  }),
    {
        Self {  }
    }
}

/// Charges each bigram the penalty its symbol pair carries in a manually
/// configured table, scaled by the bigram's weight.
#[derive(Debug, Clone, PartialEq)]
pub struct ManualBigramPenalty {
    /// Penalties per ordered symbol pair (fixed-point).
    pub penalties: Vec<((char, char), u64)>,
}

impl ManualBigramPenalty {
    pub fn new(penalties: Vec<((char, char), u64)>) -> (r: Self)
        ensures
            r.penalties@ == penalties@,
    {
        Self { penalties }
    }
}

/// The closed set of bigram metrics.
#[derive(Debug, Clone, PartialEq)]
pub enum BigramMetric {
    Asymmetric(AsymmetricBigrams),
    Manual(ManualBigramPenalty),
}

/// The penalty stored for an ordered symbol pair, scanning from entry
/// `i`; 0 when the pair has no entry.
pub open spec fn manual_pen_from(t: Seq<((char, char), u64)>, pair: (char, char), i: int) -> u64
    decreases t.len() - i,
{
    if i < 0 || i >= t.len() {
        0
    } else if t[i].0 == pair {
        t[i].1
    } else {
        manual_pen_from(t, pair, i + 1)
    }
}

/// The penalty a manual table assigns to an ordered symbol pair.
pub open spec fn manual_pen_spec(t: Seq<((char, char), u64)>, pair: (char, char)) -> u64 {
    manual_pen_from(t, pair, 0)
}

impl BigramMetric {
    /// The name of the metric.
    pub open spec fn name_spec(self) -> Seq<char> {
        match self {
            BigramMetric::Asymmetric(_) => "Asymmetric Bigrams"@,
            BigramMetric::Manual(_) => "Manual Bigram Penalty"@,
        }
    }

    pub fn name(&self) -> (r: &'static str)
        ensures
            r@ == self.name_spec(),
    {
        match self {
            BigramMetric::Asymmetric(_) => "Asymmetric Bigrams",
            BigramMetric::Manual(_) => "Manual Bigram Penalty",
        }
    }

    /// The cost this metric charges one weighted bigram.
    ///
    /// The asymmetric metric charges the full weight when the two keys
    /// are not symmetry partners and neither is a thumb key; the manual
    /// metric charges the configured penalty scaled by the weight.
    pub open spec fn individual_cost_spec(self, lk1: LayerKey, lk2: LayerKey, weight: u64) -> int {
        match self {
            BigramMetric::Asymmetric(_) => {
                if lk1.key.symmetry_index != lk2.key.symmetry_index && lk1.key.finger
                    != Finger::Thumb && lk2.key.finger != Finger::Thumb {
                    weight as int
                } else {
                    0
                }
            },
            BigramMetric::Manual(m) => mul_div_spec(
                weight as int,
                manual_pen_spec(m.penalties@, (lk1.symbol, lk2.symbol)) as int,
                FP_SCALE as int,
            ),
        }
    }

    /// Compute the cost of one bigram; `None` would mean the metric
    /// cannot price single bigrams, which none of these variants does.
    ///
    /// `total_weight` is part of the metric interface (some metrics
    /// scale by it); the present variants do not read it.
    pub fn individual_cost(
        &self,
        key1: &LayerKey,
        key2: &LayerKey,
        weight: u64,
        _total_weight: u64,
        _layout: &Layout,
    ) -> (r: Option<u64>)
        ensures
            match r {
                Some(c) => c as int == self.individual_cost_spec(*key1, *key2, weight),
                None => false,
            },
    {
        match self {
            BigramMetric::Asymmetric(_) => {
                let hit = key1.key.symmetry_index != key2.key.symmetry_index && !matches!(
                    key1.key.finger,
                    Finger::Thumb,
                ) && !matches!(key2.key.finger, Finger::Thumb);
                if hit {
                    Some(weight)
                } else {
                    Some(0)
                }
            },
            BigramMetric::Manual(m) => {
                let pen = manual_pen(&m.penalties, key1.symbol, key2.symbol);
                Some(mul_div(weight, pen, FP_SCALE))
            },
        }
    }

    /// The total cost of a sequence of weighted bigrams: the saturating
    /// sum of the individual costs.
    pub open spec fn total_cost_spec(
        self,
        bgs: Seq<((LayerKeyIndex, LayerKeyIndex), u64)>,
        lks: Seq<LayerKey>,
    ) -> int {
        bgs.fold_left(
            0int,
            (|acc: int, bg: ((LayerKeyIndex, LayerKeyIndex), u64)| sat_add_spec(
                acc,
                self.individual_cost_spec(lks[bg.0.0 as int], lks[bg.0.1 as int], bg.1),
            )),
        )
    }

    /// Compute the total cost for the metric over a weighted bigram
    /// collection, with a diagnostic message naming the worst offenders
    /// and the share of cost that involves a modifier key.
    ///
    /// The diagnostics never alter the returned total cost.
    /// `total_weight` is accepted for interface fidelity; these variants
    /// price bigrams without it.
    pub fn total_cost(
        &self,
        bigrams: &Vec<((LayerKeyIndex, LayerKeyIndex), u64)>,
        _total_weight: Option<u64>,
        layout: &Layout,
    ) -> (r: (u64, Option<String>))
        requires
            layout.wf(),
            forall|i: int|
                0 <= i < bigrams@.len() ==> ((#[trigger] bigrams@[i]).0.0 as int)
                    < layout.layerkeys@.len() && (bigrams@[i].0.1 as int)
                    < layout.layerkeys@.len(),
        ensures
            r.0 as int == self.total_cost_spec(bigrams@, layout.layerkeys@),
    {
        let ghost f = (|acc: int, bg: ((LayerKeyIndex, LayerKeyIndex), u64)| sat_add_spec(
            acc,
            self.individual_cost_spec(
                layout.layerkeys@[bg.0.0 as int],
                layout.layerkeys@[bg.0.1 as int],
                bg.1,
            ),
        ));
        let mut total: u64 = 0;
        let mut with_mod: u64 = 0;
        let mut worst = worst_new(N_WORST);
        let mut i: usize = 0;
        proof {
            assert(bigrams@.take(0int) =~= Seq::<((LayerKeyIndex, LayerKeyIndex), u64)>::empty());
        }
        while i < bigrams.len()
            invariant
                0 <= i <= bigrams@.len(),
                layout.wf(),
                forall|i2: int|
                    0 <= i2 < bigrams@.len() ==> ((#[trigger] bigrams@[i2]).0.0 as int)
                        < layout.layerkeys@.len() && (bigrams@[i2].0.1 as int)
                        < layout.layerkeys@.len(),
                total as int == bigrams@.take(i as int).fold_left(0int, f),
                f == (|acc: int, bg: ((LayerKeyIndex, LayerKeyIndex), u64)| sat_add_spec(
                    acc,
                    self.individual_cost_spec(
                        layout.layerkeys@[bg.0.0 as int],
                        layout.layerkeys@[bg.0.1 as int],
                        bg.1,
                    ),
                )),
            decreases bigrams@.len() - i,
        {
            let pair = bigrams[i].0;
            let weight = bigrams[i].1;
            let k1 = layout.get_layerkey(&pair.0);
            let is_mod1 = k1.is_modifier;
            let k2 = layout.get_layerkey(&pair.1);
            let is_mod2 = k2.is_modifier;
            let c = match self.individual_cost(
                layout.get_layerkey(&pair.0),
                layout.get_layerkey(&pair.1),
                weight,
                0,
                layout,
            ) {
                Some(c) => c,
                None => 0,
            };
            proof {
                assert(bigrams@.take(i + 1).drop_last() =~= bigrams@.take(i as int));
                assert(bigrams@.take(i + 1).last() == bigrams@[i as int]);
            }
            total = sat_add(total, c);
            if is_mod1 || is_mod2 {
                with_mod = sat_add(with_mod, c);
            }
            worst_push(&mut worst, (pair.0, pair.1), c);
            if worst_len(&worst) > N_WORST {
                worst_pop_min(&mut worst);
            }
            i = i + 1;
        }
        proof {
            assert(bigrams@.take(bigrams@.len() as int) =~= bigrams@);
        }

        // Diagnostics: worst offenders (highest cost first, only strictly
        // positive) as shares of the total, and the modifier share.
        let sorted = worst_into_sorted(worst);
        let mut msg: Vec<char> = Vec::new();
        let mut named: u64 = 0;
        let mut j: usize = sorted.len();
        while j > 0
            invariant
                0 <= j <= sorted@.len(),
                layout.wf(),
            decreases j,
        {
            j = j - 1;
            let entry = sorted[j];
            if entry.1 > 0 {
                let i1 = entry.0.0;
                let i2 = entry.0.1;
                if (i1 as usize) < layout.layerkeys.len() && (i2 as usize)
                    < layout.layerkeys.len() {
                    if named == 0 {
                        push_str_chars(&mut msg, "Worst bigrams: ");
                    } else {
                        push_str_chars(&mut msg, ", ");
                    }
                    msg.push(layout.get_layerkey(&i1).symbol);
                    msg.push(layout.get_layerkey(&i2).symbol);
                    push_str_chars(&mut msg, " (");
                    push_percent(&mut msg, entry.1, total);
                    push_str_chars(&mut msg, "%)");
                    if named < u64::MAX {
                        named = named + 1;
                    }
                }
            }
        }
        if total > 0 {
            if named > 0 {
                push_str_chars(&mut msg, ";  ");
            }
            push_percent(&mut msg, with_mod, total);
            push_str_chars(&mut msg, "% of cost involved a modifier");
        }
        (total, Some(chars_to_string(&msg)))
    }
}

/// Append `100 * numer / denom` as a percentage with two decimals.
fn push_percent(msg: &mut Vec<char>, numer: u64, denom: u64) {
    // Percent scaled by 100: 12.34% is stored as 1234.
    let pc100 = mul_div(numer, 10000, denom);
    let whole = pc100 / 100;
    let frac = pc100 % 100;
    let wd = u64_digits(whole);
    push_all(msg, &wd);
    msg.push('.');
    let d1 = frac / 10;
    let d2 = frac % 10;
    let c1 = crate::text::digit_of(d1);
    msg.push(c1);
    let c2 = crate::text::digit_of(d2);
    msg.push(c2);
}

/// The penalty a manual table assigns to an ordered symbol pair, as
/// executable code.
pub fn manual_pen(t: &Vec<((char, char), u64)>, s1: char, s2: char) -> (r: u64)
    ensures
        r == manual_pen_spec(t@, (s1, s2)),
{
    let mut i: usize = 0;
    while i < t.len()
        invariant
            0 <= i <= t@.len(),
            manual_pen_spec(t@, (s1, s2)) == manual_pen_from(t@, (s1, s2), i as int),
        decreases t@.len() - i,
    {
        let e = t[i];
        if e.0.0 == s1 && e.0.1 == s2 {
            return e.1;
        }
        i = i + 1;
    }
    0
}

/// Every individual bigram cost lies in `[0, u64::MAX]`.
pub proof fn lemma_individual_cost_bounds(m: BigramMetric, lk1: LayerKey, lk2: LayerKey, w: u64)
    ensures
        0 <= m.individual_cost_spec(lk1, lk2, w) <= u64::MAX,
{
    match m {
        BigramMetric::Asymmetric(_) => {},
        BigramMetric::Manual(t) => {
            vstd::arithmetic::mul::lemma_mul_nonnegative(
                w as int,
                manual_pen_spec(t.penalties@, (lk1.symbol, lk2.symbol)) as int,
            );
            crate::results::lemma_divq_nonneg(
                (w as int) * (manual_pen_spec(t.penalties@, (lk1.symbol, lk2.symbol)) as int),
                FP_SCALE as int,
            );
        },
    }
}

/// Reordering the bigram collection leaves the metric's total cost
/// unchanged: the bigram sum is commutative, even with saturation.
pub proof fn lemma_total_cost_permutation(
    m: BigramMetric,
    b1: Seq<((LayerKeyIndex, LayerKeyIndex), u64)>,
    b2: Seq<((LayerKeyIndex, LayerKeyIndex), u64)>,
    lks: Seq<LayerKey>,
)
    requires
        b1.to_multiset() == b2.to_multiset(),
    ensures
        m.total_cost_spec(b1, lks) == m.total_cost_spec(b2, lks),
{
    let f = (|acc: int, bg: ((LayerKeyIndex, LayerKeyIndex), u64)| sat_add_spec(
        acc,
        m.individual_cost_spec(lks[bg.0.0 as int], lks[bg.0.1 as int], bg.1),
    ));
    assert forall|x: ((LayerKeyIndex, LayerKeyIndex), u64), y: ((LayerKeyIndex, LayerKeyIndex), u64), v: int|
        #[trigger] f(f(v, x), y) == f(f(v, y), x) by {
        lemma_individual_cost_bounds(m, lks[x.0.0 as int], lks[x.0.1 as int], x.1);
        lemma_individual_cost_bounds(m, lks[y.0.0 as int], lks[y.0.1 as int], y.1);
    }
    assert(vstd::seq_lib::commutative_foldl(f));
    vstd::seq_lib::lemma_fold_left_permutation(b1, b2, f, 0int);
}

} // verus!
