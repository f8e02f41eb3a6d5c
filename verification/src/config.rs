use vstd::prelude::*;

use crate::fx::FX_ONE;

verus! {

/// The two read-only tunables every component consumes: the resolution
/// parameter controlling the parameter grid, mutation step units, harmonic
/// distribution shape and generation budget; and the target score a run must
/// reach to count as a success. Passed explicitly into every constructor
/// instead of living in ambient state.
#[derive(Clone, Copy)]
pub struct NAConfig {
    /// The resolution parameter: parameters live on a `1/resolution` grid.
    pub resolution: u64,
    /// Target score in fixed-point units; a score within `1/resolution` of
    /// it counts as success.
    pub optimum: i64,
}

impl NAConfig {
    pub open spec fn wf(&self) -> bool {
        &&& 2 <= self.resolution <= 1_000_000
        &&& 0 < self.optimum <= FX_ONE
    }

    /// The spacing of the parameter grid, in fixed-point units: one
    /// `1/resolution` step.
    pub open spec fn spec_grid(&self) -> int {
        FX_ONE as int / self.resolution as int
    }

    pub fn grid(&self) -> (r: i64)
        requires
            self.wf(),
        ensures
            r == self.spec_grid(),
            1 <= r <= FX_ONE / 2,
    {
        let g: u64 = (FX_ONE as u64) / self.resolution;
        proof {
            vstd::arithmetic::div_mod::lemma_div_is_ordered_by_denominator(
                FX_ONE as int,
                2,
                self.resolution as int,
            );
            vstd::arithmetic::div_mod::lemma_div_is_ordered_by_denominator(
                FX_ONE as int,
                self.resolution as int,
                1_000_000,
            );
        }
        g as i64
    }
}

} // verus!
