use vstd::prelude::*;

use crate::fx::fx_bounded;
use crate::nn::ann::{NANN, same_shape};

verus! {

/// The common face of the three problem families: a pure scoring function
/// over genomes. Each implementation fixes a deterministic score model at
/// construction; `evaluate` returns exactly that model's value, the success
/// flag of the resolution-scaled tolerance test, and the genome's raw output
/// for diagnostics.
pub trait NAProblem: Sized {
    /// The problem instance is well formed.
    spec fn wf(&self) -> bool;

    /// The genome's shape fits this problem's inputs and outputs.
    spec fn compatible(&self, nn: &NANN) -> bool;

    /// The score the problem assigns to a genome, in fixed-point units.
    spec fn score_of(&self, nn: &NANN) -> int;

    /// Whether the genome's score reaches the configured target.
    spec fn success_of(&self, nn: &NANN) -> bool;

    /// The raw forward-pass output `evaluate` hands back for diagnostics:
    /// the genome's output rows for the two classification families, the
    /// per-tick accelerations for the control family.
    spec fn spec_raw(&self, nn: &NANN) -> Seq<Seq<i64>>;

    /// Compatibility depends only on the genome's architecture: a genome
    /// shaped like a compatible one is compatible too.
    proof fn compat_shape(&self, a: &NANN, b: &NANN)
        requires
            self.compatible(a),
            a.wf(),
            same_shape(a, b),
        ensures
            self.compatible(b),
    ;

    /// Scores a genome: success flag, score, and the raw forward-pass
    /// output.
    fn evaluate(&self, nn: &NANN) -> (r: (bool, i64, Vec<Vec<i64>>))
        requires
            self.wf(),
            nn.wf(),
            self.compatible(nn),
        ensures
            r.1 as int == self.score_of(nn),
            r.0 == self.success_of(nn),
            r.2@.map_values(|v: Vec<i64>| v@) == self.spec_raw(nn),
            fx_bounded(r.1 as int),
            0 <= r.1,
    ;
}

} // verus!
