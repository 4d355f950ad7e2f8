//! Feature toggles of an application.

use vstd::prelude::*;

verus! {

/// Where probabilistic data structures may stand in for exact ones. They use
/// less memory and give approximate results.
#[derive(Debug, Clone, Copy, PartialEq, Eq, Structural)]
pub struct EnableProbabilisticOptimizations {
    pub in_sets: bool,
    pub in_joins: bool,
    pub in_aggregations: bool,
}

impl Default for EnableProbabilisticOptimizations {
    /// No probabilistic optimization anywhere.
    fn default() -> (toggles: Self)
        ensures
            toggles == (EnableProbabilisticOptimizations {
                in_sets: false,
                in_joins: false,
                in_aggregations: false,
            }),
    {
        EnableProbabilisticOptimizations { in_sets: false, in_joins: false, in_aggregations: false }
    }
}

/// The feature toggles that an application is configured with.
#[derive(Debug, Clone, Copy, PartialEq, Eq, Structural)]
pub struct Flags {
    pub enable_probabilistic_optimizations: EnableProbabilisticOptimizations,
}

impl Default for Flags {
    /// Every toggle at its default.
    fn default() -> (flags: Self)
        ensures
            flags == (Flags {
                enable_probabilistic_optimizations: EnableProbabilisticOptimizations {
                    in_sets: false,
                    in_joins: false,
                    in_aggregations: false,
                },
            }),
    {
        Flags { enable_probabilistic_optimizations: EnableProbabilisticOptimizations::default() }
    }
}

} // verus!
