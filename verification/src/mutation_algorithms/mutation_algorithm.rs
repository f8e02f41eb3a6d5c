use vstd::prelude::*;

use crate::nn::ann::NANN;
use crate::problems::na_problem::NAProblem;

verus! {

/// The common face of the mutation operators. Every operator owns a problem
/// handle and proposes mutated genomes under the shared acceptance rule:
/// the mutation is kept exactly when its score is at least the original's,
/// so the genome a call returns never scores worse than the one it was
/// given.
pub trait MutationAlgorithm: Sized {
    /// The problem family this operator is bound to.
    type Prob: NAProblem;

    /// The operator's own state is well formed.
    spec fn wf(&self) -> bool;

    /// The problem instance the operator scores against.
    spec fn problem_of(&self) -> Self::Prob;

    /// The operator's internal state matches the genome's architecture
    /// (self-adaptive operators keep one step size per parameter).
    spec fn fits(&self, nn: &NANN) -> bool;

    /// The bound problem handle.
    fn getProblem(&self) -> (r: &Self::Prob)
        ensures
            *r == self.problem_of(),
    ;

    /// Proposes a mutation of the genome, evaluates it against the bound
    /// problem, and keeps it only if it scores at least `originalScore`;
    /// self-adaptive operators also update their step sizes. The returned
    /// genome always evaluates at least as well as the original.
    fn mutate(&mut self, nn: NANN, originalScore: i64) -> (r: NANN)
        requires
            old(self).wf(),
            nn.wf(),
            old(self).problem_of().wf(),
            old(self).problem_of().compatible(&nn),
            old(self).fits(&nn),
            originalScore as int == old(self).problem_of().score_of(&nn),
        ensures
            final(self).wf(),
            final(self).problem_of() == old(self).problem_of(),
            r.wf(),
            old(self).problem_of().compatible(&r),
            final(self).fits(&r),
            old(self).problem_of().score_of(&r) >= originalScore as int,
    ;
}

} // verus!
