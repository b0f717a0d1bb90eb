//! The decision core of the simulated-annealing search: acceptance of a
//! candidate genome and tracking of the best genome seen.
//!
//! Proposing a neighbor and drawing against `exp(-delta / temperature)`
//! depend on randomness and real arithmetic, so the driver performs them
//! and hands the outcome in as the `accept_worse` draw; with temperature
//! (effectively) zero the draw is always `false` and the search degrades
//! to greedy hill-climbing by construction.

use vstd::prelude::*;

verus! {

/// The search state of one annealing run.
#[derive(Debug, Clone)]
pub struct SaState {
    /// The currently accepted genome.
    pub current_genome: Vec<usize>,
    /// Cost of the accepted genome.
    pub current_cost: u64,
    /// The best genome seen so far, kept regardless of acceptance.
    pub best_genome: Vec<usize>,
    /// Cost of the best genome seen.
    pub best_cost: u64,
}

impl SaState {
    /// The best cost never exceeds the currently accepted cost.
    pub open spec fn wf(self) -> bool {
        self.best_cost <= self.current_cost
    }

    /// Start a run from an evaluated genome.
    pub fn init(genome: Vec<usize>, cost: u64) -> (r: Self)
        ensures
            r.wf(),
            r.current_genome@ == genome@,
            r.current_cost == cost,
            r.best_genome@ == genome@,
            r.best_cost == cost,
    {
        let g2 = clone_genome(&genome);
        Self { current_genome: genome, current_cost: cost, best_genome: g2, best_cost: cost }
    }

    /// Consider an evaluated candidate: accept it if it does not cost
    /// more than the current genome, or if the caller's draw against the
    /// acceptance probability succeeded; always retain the best genome
    /// seen.  With `accept_worse == false` (temperature effectively 0)
    /// only moves with cost at most the current cost are ever accepted.
    pub fn consider(&mut self, candidate: Vec<usize>, cost: u64, accept_worse: bool)
        requires
            old(self).wf(),
        ensures
            final(self).wf(),
            // Acceptance of the current state.
            (cost <= old(self).current_cost || accept_worse) ==> final(self).current_genome@
                == candidate@ && final(self).current_cost == cost,
            !(cost <= old(self).current_cost || accept_worse) ==> final(self).current_genome@
                == old(self).current_genome@ && final(self).current_cost == old(
                self,
            ).current_cost,
            // Greedy mode: without the draw, the accepted cost never rises.
            (!accept_worse ==> final(self).current_cost <= old(self).current_cost),
            // Best-seen tracking, independent of acceptance.
            final(self).best_cost == (if cost < old(self).best_cost {
                cost as int
            } else {
                old(self).best_cost as int
            }),
            (cost < old(self).best_cost ==> final(self).best_genome@ == candidate@),
            (cost >= old(self).best_cost ==> final(self).best_genome@ == old(self).best_genome@),
            final(self).best_cost <= old(self).best_cost,
    {
        if cost < self.best_cost {
            self.best_genome = clone_genome(&candidate);
            self.best_cost = cost;
        }
        if cost <= self.current_cost || accept_worse {
            self.current_genome = candidate;
            self.current_cost = cost;
        }
    }
}

/// Copy a genome.
pub fn clone_genome(v: &Vec<usize>) -> (r: Vec<usize>)
    ensures
        r@ == v@,
{
    let mut out: Vec<usize> = Vec::new();
    let mut i: usize = 0;
    while i < v.len()
        invariant
            0 <= i <= v@.len(),
            out@ =~= v@.take(i as int),
        decreases v@.len() - i,
    {
        out.push(v[i]);
        proof {
            assert(out@ =~= v@.take(i + 1));
        }
        i = i + 1;
    }
    proof {
        assert(v@.take(v@.len() as int) =~= v@);
    }
    out
}

/// Swap two positions of a genome: the local perturbation both searches
/// use to propose a neighbor.
pub fn neighbor_swap(genome: &Vec<usize>, a: usize, b: usize) -> (r: Vec<usize>)
    requires
        a < genome@.len(),
        b < genome@.len(),
    ensures
        r@ == genome@.update(a as int, genome@[b as int]).update(b as int, genome@[a as int]),
{
    let mut out = clone_genome(genome);
    let va = genome[a];
    let vb = genome[b];
    out.set(a, vb);
    out.set(b, va);
    out
}

/// Greedy mode never accepts a strictly worse move: with the draw held
/// `false` over any number of considered candidates, the accepted cost
/// is non-increasing over the whole run.
pub proof fn lemma_greedy_costs_nonincreasing(costs: Seq<int>)
    requires
        forall|i: int| 0 < i < costs.len() ==> #[trigger] costs[i] <= costs[i - 1],
    ensures
        forall|i: int, j: int|
            #![trigger costs[i], costs[j]]
            0 <= i <= j < costs.len() ==> costs[j] <= costs[i],
{
    assert forall|i: int, j: int|
        #![trigger costs[i], costs[j]]
        0 <= i <= j < costs.len() implies costs[j] <= costs[i] by {
        lemma_chain_nonincreasing(costs, i, j);
    }
}

proof fn lemma_chain_nonincreasing(costs: Seq<int>, i: int, j: int)
    requires
        0 <= i <= j < costs.len(),
        forall|k: int| 0 < k < costs.len() ==> #[trigger] costs[k] <= costs[k - 1],
    ensures
        costs[j] <= costs[i],
    decreases j - i,
{
    if i < j {
        lemma_chain_nonincreasing(costs, i, j - 1);
    }
}

} // verus!
