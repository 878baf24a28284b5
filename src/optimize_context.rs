use vstd::prelude::*;

use crate::heuristic::{HeuristicOptimizer, MAX_ITERATIONS};
use crate::measure::{filter_weight, saturated, weigh};
use crate::s_expr::SExpr;
use crate::rule::{default_batches, RuleSet};

verus! {

/// The configuration of one optimization run; nothing of it outlives the run.
#[derive(Debug, Clone, Copy, PartialEq, Eq, Structural)]
pub struct OptimizeContext {
    /// The most passes one batch may take.
    pub max_iterations: usize,
}

impl OptimizeContext {
    /// The default configuration.
    pub fn create() -> (r: OptimizeContext)
        ensures
            r.max_iterations == MAX_ITERATIONS,
    {
        OptimizeContext { max_iterations: MAX_ITERATIONS }
    }

    /// The configuration for optimizing the tree rooted at `e`: the cap is
    /// raised, where needed, above the filter weight of `e`, which bounds
    /// the passes that the default batches take.
    pub fn fit_to(&self, e: &SExpr) -> (r: OptimizeContext)
        ensures
            r.max_iterations == if saturated(filter_weight(e@) + 1) > self.max_iterations {
                saturated(filter_weight(e@) + 1)
            } else {
                self.max_iterations as nat
            },
    {
        let (weight, _) = weigh(e);
        let needed = weight.saturating_add(1);
        if needed > self.max_iterations {
            OptimizeContext { max_iterations: needed }
        } else {
            OptimizeContext { max_iterations: self.max_iterations }
        }
    }

    /// A heuristic optimizer over the default rule set, configured by this context.
    pub fn heuristic_optimizer(&self) -> (r: HeuristicOptimizer)
        ensures
            r.rule_set@ == default_batches(),
            r.max_iterations == self.max_iterations,
    {
        HeuristicOptimizer::with_rule_set(RuleSet::create(), self.max_iterations)
    }
}

} // verus!
