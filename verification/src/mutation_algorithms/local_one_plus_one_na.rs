use vstd::prelude::*;

use crate::fx::{FX_ONE, fx_step};
use crate::mutation_algorithms::mutation_algorithm::MutationAlgorithm;
use crate::mutation_algorithms::one_plus_one_na::{
    lemma_grid_carried_by_copy, lemma_grid_preserved_bias, lemma_grid_preserved_weight,
};
use crate::nn::ann::{NANN, params_on_grid, same_shape};
use crate::problems::na_problem::NAProblem;
use crate::rng::{rand_chance, rand_index};

verus! {

/// The fixed-step (1+1) strategy: each chosen parameter moves by exactly one
/// `1/resolution` grid step in a random direction; at least one parameter is
/// touched, and further ones follow with probability one over the neuron
/// count.
pub struct LocalOnePlusOneNA<P: NAProblem> {
    pub problem: P,
    pub resolutionParameter: u64,
    pub numberOfNeurons: u32,
}

impl<P: NAProblem> LocalOnePlusOneNA<P> {
    /// Builds the operator for a genome's architecture and a problem.
    pub fn new(nn: &NANN, problem: P, resolutionParameter: u64) -> (r: LocalOnePlusOneNA<P>)
        requires
            nn.wf(),
            problem.wf(),
            2 <= resolutionParameter <= 1_000_000,
        ensures
            r.wf(),
            r.problem_of() == problem,
            r.resolutionParameter == resolutionParameter,
            r.numberOfNeurons as int == crate::nn::ann::spec_neuron_count(
                nn.layers@,
                nn.layers@.len() as int,
            ),
    {
        let numberOfNeurons = nn.countNeurons();
        LocalOnePlusOneNA { problem, resolutionParameter, numberOfNeurons }
    }

    /// The operator's display name.
    pub fn name(&self) -> (r: String)
        ensures
            r@ == "Local (1+1)NA"@,
    {
        "Local (1+1)NA".to_string()
    }
}

impl<P: NAProblem> MutationAlgorithm for LocalOnePlusOneNA<P> {
    type Prob = P;

    open spec fn wf(&self) -> bool {
        &&& 2 <= self.resolutionParameter <= 1_000_000
        &&& 1 <= self.numberOfNeurons
        &&& self.problem.wf()
    }

    open spec fn problem_of(&self) -> P {
        self.problem
    }

    open spec fn fits(&self, nn: &NANN) -> bool {
        true
    }

    fn getProblem(&self) -> (r: &P) {
        &self.problem
    }

    /// Besides the shared acceptance guarantee: every delta is exactly one
    /// grid step applied through the refusing addition, so a genome whose
    /// parameters sit on the `1/resolution` grid mutates to one whose
    /// parameters still do.
    fn mutate(&mut self, nn: NANN, originalScore: i64) -> (r: NANN)
        ensures
            *final(self) == *old(self),
            params_on_grid(&nn, FX_ONE as int / old(self).resolutionParameter as int)
                ==> params_on_grid(&r, FX_ONE as int / old(self).resolutionParameter as int),
    {
        let res = self.resolutionParameter;
        let grid: i64 = ((FX_ONE as u64) / res) as i64;
        proof {
            vstd::arithmetic::div_mod::lemma_div_pos_is_pos(FX_ONE as int, res as int);
            vstd::arithmetic::div_mod::lemma_multiply_divide_le(
                FX_ONE as int,
                res as int,
                FX_ONE as int,
            );
            vstd::arithmetic::div_mod::lemma_div_is_ordered_by_denominator(
                FX_ONE as int,
                res as int,
                1_000_000,
            );
        }
        let mut mutatedNN = nn.cloneNet();
        let ghost g = FX_ONE as int / res as int;
        proof {
            lemma_grid_carried_by_copy(&nn, &mutatedNN, g);
        }
        let mut iter: u64 = 0;
        // At least one parameter is always mutated; the geometric tail of
        // continuations is capped far beyond any realistic draw.
        loop
            invariant
                self == old(self),
                self.wf(),
                nn.wf(),
                mutatedNN.wf(),
                same_shape(&nn, &mutatedNN),
                1 <= grid <= FX_ONE,
                grid as int == g,
                iter <= 1_000_000,
                params_on_grid(&nn, g) ==> params_on_grid(&mutatedNN, g),
            decreases 1_000_000 - iter,
        {
            let nl = mutatedNN.layers.len();
            let li = rand_index(nl);
            let rows = mutatedNN.layers[li].weights.len();
            let cols = mutatedNN.layers[li].biases.len();
            let x = rand_index(rows);
            let y = rand_index(cols);
            let delta: i64 = if rand_index(2) == 0 {
                -grid
            } else {
                grid
            };
            let w = mutatedNN.layers[li].weights[x][y];
            let ghost before = mutatedNN;
            mutatedNN.setWeight(li, x, y, fx_step(w, delta));
            proof {
                assert(delta as int == 1 * (grid as int) || delta as int == -(1 * (grid as int)));
                lemma_grid_preserved_weight(
                    &before,
                    &mutatedNN,
                    li as int,
                    x as int,
                    y as int,
                    w as int,
                    delta as int,
                    1,
                    grid as int,
                );
            }
            if mutatedNN.isUsingBias() {
                let delta2: i64 = if rand_index(2) == 0 {
                    -grid
                } else {
                    grid
                };
                let b = mutatedNN.layers[li].biases[y];
                let ghost before2 = mutatedNN;
                mutatedNN.setBias(li, y, fx_step(b, delta2));
                proof {
                    assert(delta2 as int == 1 * (grid as int) || delta2 as int == -(1 * (
                    grid as int)));
                    lemma_grid_preserved_bias(
                        &before2,
                        &mutatedNN,
                        li as int,
                        y as int,
                        b as int,
                        delta2 as int,
                        1,
                        grid as int,
                    );
                }
            }
            if !rand_chance(1, self.numberOfNeurons) {
                break;
            }
            if iter >= 1_000_000 {
                break;
            }
            iter = iter + 1;
        }
        proof {
            self.problem.compat_shape(&nn, &mutatedNN);
        }
        let (_success, mutatedScore, _solution) = self.problem.evaluate(&mutatedNN);
        if mutatedScore >= originalScore {
            mutatedNN
        } else {
            nn
        }
    }
}

} // verus!
