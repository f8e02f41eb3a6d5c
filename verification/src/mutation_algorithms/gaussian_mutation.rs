use vstd::prelude::*;

use crate::fx::{FX_ONE, fx_add, fx_bounded};
use crate::mutation_algorithms::mutation_algorithm::MutationAlgorithm;
use crate::nn::ann::{NANN, same_shape};
use crate::problems::na_problem::NAProblem;
use crate::rng::{rand_between, rand_chance};

verus! {

/// Gaussian mutation: every parameter is perturbed independently, with
/// probability one over its layer's width, by a bell-shaped draw of spread
/// one half.
pub struct GaussianMutation<P: NAProblem> {
    pub problem: P,
}

/// One bell-shaped fixed-point draw with spread one half: a sum of twelve
/// uniform draws, centred, then halved.
fn gaussianDraw() -> (r: i64)
    ensures
        -3 * FX_ONE <= r <= 3 * FX_ONE,
{
    let mut sumu: i64 = 0;
    let mut t: usize = 0;
    while t < 12
        invariant
            0 <= t <= 12,
            0 <= sumu <= (t as i64) * FX_ONE,
        decreases 12 - t,
    {
        let draw = rand_between(0, FX_ONE);
        sumu = sumu + draw;
        t = t + 1;
    }
    let g = sumu - 6 * FX_ONE;
    if g >= 0 {
        ((g as u64) / 2) as i64
    } else {
        -((((-g) as u64) / 2) as i64)
    }
}

impl<P: NAProblem> GaussianMutation<P> {
    /// Builds the operator for a problem.
    pub fn new(problem: P) -> (r: GaussianMutation<P>)
        requires
            problem.wf(),
        ensures
            r.wf(),
            r.problem_of() == problem,
    {
        GaussianMutation { problem }
    }

    /// The operator's display name.
    pub fn name(&self) -> (r: String)
        ensures
            r@ == "Gaussian Mutation"@,
    {
        "Gaussian Mutation".to_string()
    }
}

impl<P: NAProblem> MutationAlgorithm for GaussianMutation<P> {
    type Prob = P;

    open spec fn wf(&self) -> bool {
        self.problem.wf()
    }

    open spec fn problem_of(&self) -> P {
        self.problem
    }

    open spec fn fits(&self, nn: &NANN) -> bool {
        true
    }

    fn getProblem(&self) -> (r: &P) {
        &self.problem
    }

    fn mutate(&mut self, nn: NANN, originalScore: i64) -> (r: NANN)
        ensures
            *final(self) == *old(self),
    {
        let mut mutatedNN = nn.cloneNet();
        let nl = mutatedNN.layers.len();
        let mut li: usize = 0;
        while li < nl
            invariant
                self == old(self),
                self.wf(),
                nn.wf(),
                mutatedNN.wf(),
                same_shape(&nn, &mutatedNN),
                nl == mutatedNN.layers@.len(),
                0 <= li <= nl,
            decreases nl - li,
        {
            let rows = mutatedNN.layers[li].weights.len();
            let cols = mutatedNN.layers[li].biases.len();
            let mut x: usize = 0;
            while x < rows
                invariant
                    self.wf(),
                    nn.wf(),
                    mutatedNN.wf(),
                    same_shape(&nn, &mutatedNN),
                    nl == mutatedNN.layers@.len(),
                    0 <= li < nl,
                    rows == mutatedNN.layers@[li as int].rows(),
                    cols == mutatedNN.layers@[li as int].cols(),
                    0 <= x <= rows,
                decreases rows - x,
            {
                let mut y: usize = 0;
                while y < cols
                    invariant
                        self.wf(),
                        nn.wf(),
                        mutatedNN.wf(),
                        same_shape(&nn, &mutatedNN),
                        nl == mutatedNN.layers@.len(),
                        0 <= li < nl,
                        0 <= x < rows,
                        rows == mutatedNN.layers@[li as int].rows(),
                        cols == mutatedNN.layers@[li as int].cols(),
                        0 <= y <= cols,
                    decreases cols - y,
                {
                    if rand_chance(1, cols as u32) {
                        let w = mutatedNN.layers[li].weights[x][y];
                        mutatedNN.setWeight(li, x, y, fx_add(w, gaussianDraw()));
                    }
                    y = y + 1;
                }
                x = x + 1;
            }
            if mutatedNN.isUsingBias() {
                let mut y: usize = 0;
                while y < cols
                    invariant
                        self.wf(),
                        nn.wf(),
                        mutatedNN.wf(),
                        same_shape(&nn, &mutatedNN),
                        nl == mutatedNN.layers@.len(),
                        0 <= li < nl,
                        cols == mutatedNN.layers@[li as int].cols(),
                        0 <= y <= cols,
                    decreases cols - y,
                {
                    if rand_chance(1, cols as u32) {
                        let b = mutatedNN.layers[li].biases[y];
                        mutatedNN.setBias(li, y, fx_add(b, gaussianDraw()));
                    }
                    y = y + 1;
                }
            }
            li = li + 1;
        }
        proof {
            self.problem.compat_shape(&nn, &mutatedNN);
        }
        let (_success, mutatedScore, _solution) = self.problem.evaluate(&mutatedNN);
        if mutatedScore >= originalScore {
            mutatedNN
        } else {
            nn
        }
    }
}

} // verus!
