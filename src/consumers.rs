//! Types shared with the downstream consumers of the simulation: the
//! strategies that read bars and the backtester that replays them.
use vstd::prelude::*;

verus! {

/// What a strategy asks for on a bar.
#[derive(Debug, Clone, Copy, PartialEq, Eq, Structural)]
pub enum Signal {
    Buy,
    Sell,
    Hold,
}

/// How a backtester fills the orders a strategy asks for.
#[derive(Debug, Clone, Copy, PartialEq, Eq, Structural)]
pub enum ExecutionModel {
    Naive,
    Realistic,
    Conservative,
}

/// Settings of a strategy latency benchmark.
pub struct StrategyBenchmark {
    iterations: usize,
}

impl StrategyBenchmark {
    pub fn new(iterations: usize) -> (r: StrategyBenchmark)
        ensures
            r.iterations() == iterations,
    {
        StrategyBenchmark { iterations }
    }

    /// Number of passes over the bars per strategy.
    pub closed spec fn iterations(&self) -> usize {
        self.iterations
    }

    pub fn get_iterations(&self) -> (r: usize)
        ensures
            r == self.iterations(),
    {
        self.iterations
    }
}

} // verus!
