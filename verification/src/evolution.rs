//! The decision core of the evolutionary search: the all-time best
//! solution across generation steps, and the step-wise interface that
//! interactive hosts drive one generation at a time.
//!
//! Selection, crossover and mutation are the driver's work; this state
//! machine consumes the driver's per-generation report and keeps the
//! best fitness seen, which never decreases even when the population's
//! own best regresses.

use vstd::prelude::*;

use crate::sa::clone_genome;

verus! {

/// What the underlying driver reports for one generation step.
#[derive(Debug, Clone)]
pub enum GenerationStep {
    /// A finished generation: the population's best fitness and genome.
    Intermediate(u64, Vec<usize>),
    /// The driver reached its termination condition.
    Final,
    /// The driver failed; the run stops.
    Error,
}

/// What a stepping caller receives.
#[derive(Debug, Clone)]
pub enum StepResult {
    /// The all-time best fitness and genome after this generation.
    Best(u64, Vec<usize>),
    /// The search is over.
    Done,
    /// The driver failed.
    Failed,
}

/// The all-time best solution across generation steps.
#[derive(Debug, Clone)]
pub struct EvolutionObserver {
    /// Best (fitness, genome) seen so far; fitness is higher-is-better.
    pub all_time_best: Option<(u64, Vec<usize>)>,
}

/// The fitness of the observer's best solution, if any.
pub open spec fn best_fitness(o: EvolutionObserver) -> Option<u64> {
    match o.all_time_best {
        Some(p) => Some(p.0),
        None => None,
    }
}

impl EvolutionObserver {
    pub fn new() -> (r: Self)
        ensures
            r.all_time_best is None,
    {
        Self { all_time_best: None }
    }

    /// Consume one generation step: on an intermediate result, keep the
    /// better of the reported solution and the all-time best; pass
    /// termination and failure through.
    ///
    /// The all-time best fitness never decreases.
    pub fn observe(&mut self, step: GenerationStep) -> (r: StepResult)
        ensures
            match step {
                GenerationStep::Intermediate(f, g) => {
                    &&& final(self).all_time_best is Some
                    &&& best_fitness(*final(self)) == Some(
                        max_fitness(best_fitness(*old(self)), f),
                    )
                    &&& (match (old(self).all_time_best, final(self).all_time_best) {
                        (Some(b0), Some(b1)) => b1.0 >= b0.0 && (b1.0 == b0.0 ==> b1.1@ == b0.1@)
                            && (b1.0 > b0.0 ==> b1.1@ == g@),
                        (None, Some(b1)) => b1.0 == f && b1.1@ == g@,
                        _ => false,
                    })
                    &&& (match r {
                        StepResult::Best(bf, bg) => Some(bf) == best_fitness(*final(self))
                            && (match final(self).all_time_best {
                            Some(b1) => bg@ == b1.1@,
                            None => false,
                        }),
                        _ => false,
                    })
                },
                GenerationStep::Final => r is Done && final(self).all_time_best == old(
                    self,
                ).all_time_best,
                GenerationStep::Error => r is Failed && final(self).all_time_best == old(
                    self,
                ).all_time_best,
            },
    {
        match step {
            GenerationStep::Intermediate(f, g) => {
                let replace = match &self.all_time_best {
                    Some(b) => f > b.0,
                    None => true,
                };
                if replace {
                    let g2 = clone_genome(&g);
                    self.all_time_best = Some((f, g));
                    match &self.all_time_best {
                        Some(b) => StepResult::Best(b.0, g2),
                        None => StepResult::Failed,
                    }
                } else {
                    match &self.all_time_best {
                        Some(b) => {
                            let bg = clone_genome(&b.1);
                            StepResult::Best(b.0, bg)
                        },
                        None => StepResult::Failed,
                    }
                }
            },
            GenerationStep::Final => StepResult::Done,
            GenerationStep::Error => StepResult::Failed,
        }
    }
}

/// The better of an optional previous best fitness and a new one.
pub open spec fn max_fitness(prev: Option<u64>, f: u64) -> u64 {
    match prev {
        Some(p) => if f > p {
            f
        } else {
            p
        },
        None => f,
    }
}

/// The all-time best fitness after a sequence of reported generation
/// fitnesses.
pub open spec fn best_after(init: Option<u64>, fs: Seq<u64>) -> Option<u64>
    decreases fs.len(),
{
    if fs.len() == 0 {
        init
    } else {
        best_after(Some(max_fitness(init, fs[0])), fs.drop_first())
    }
}

/// Across successive generation steps the all-time best fitness is
/// non-decreasing: observing more generations never lowers it.
pub proof fn lemma_best_fitness_monotone(init: Option<u64>, fs: Seq<u64>, n: int)
    requires
        0 <= n <= fs.len(),
    ensures
        match (best_after(init, fs.take(n)), best_after(init, fs)) {
            (Some(a), Some(b)) => a <= b,
            (None, Some(_)) => true,
            (None, None) => true,
            (Some(_), None) => false,
        },
    decreases fs.len() - n,
{
    if n < fs.len() {
        lemma_best_step(init, fs, n);
        lemma_best_fitness_monotone(init, fs, n + 1);
        lemma_take_succ(fs, n);
    } else {
        assert(fs.take(n) =~= fs);
    }
}

/// One more observed generation never lowers the all-time best.
proof fn lemma_best_step(init: Option<u64>, fs: Seq<u64>, n: int)
    requires
        0 <= n < fs.len(),
    ensures
        match (best_after(init, fs.take(n)), best_after(init, fs.take(n + 1))) {
            (Some(a), Some(b)) => a <= b,
            (None, Some(_)) => true,
            (None, None) => true,
            (Some(_), None) => false,
        },
    decreases n,
{
    lemma_take_succ(fs, n);
    lemma_best_after_one_more(init, fs.take(n), fs[n]);
}

/// Appending one fitness to the observed sequence never lowers the best.
proof fn lemma_best_after_one_more(init: Option<u64>, fs: Seq<u64>, f: u64)
    ensures
        match (best_after(init, fs), best_after(init, fs.push(f))) {
            (Some(a), Some(b)) => a <= b,
            (None, Some(_)) => true,
            (None, None) => true,
            (Some(_), None) => false,
        },
    decreases fs.len(),
{
    if fs.len() == 0 {
        assert(fs.push(f).len() == 1);
        assert(fs.push(f)[0] == f);
        assert(fs.push(f).drop_first() =~= Seq::<u64>::empty());
        assert(best_after(Some(max_fitness(init, f)), Seq::<u64>::empty()) == Some(
            max_fitness(init, f),
        ));
        assert(best_after(init, fs.push(f)) == Some(max_fitness(init, f)));
    } else {
        assert(fs.push(f).drop_first() =~= fs.drop_first().push(f));
        lemma_best_after_one_more(Some(max_fitness(init, fs[0])), fs.drop_first(), f);
    }
}

/// Taking one more element appends it.
proof fn lemma_take_succ(fs: Seq<u64>, n: int)
    requires
        0 <= n < fs.len(),
    ensures
        fs.take(n + 1) == fs.take(n).push(fs[n]),
{
    assert(fs.take(n + 1) =~= fs.take(n).push(fs[n]));
}

} // verus!
