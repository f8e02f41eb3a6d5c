use vstd::prelude::*;

use crate::fx::{FX_ONE, fx_step, lemma_fx_step_on_grid, lemma_steps_on_grid};
use crate::nn::ann::{NANN, params_on_grid, same_shape};
use crate::problems::na_problem::NAProblem;
use crate::mutation_algorithms::mutation_algorithm::MutationAlgorithm;
use crate::rng::{rand_chance, rand_index};
use crate::utils::math_utils::harmonicDistribution;

verus! {

/// The harmonic-step (1+1) strategy: each chosen parameter moves by a
/// harmonic-distributed number of `1/resolution` grid steps in a random
/// direction; at least one parameter is touched, and further ones follow
/// with probability one over the neuron count.
pub struct OnePlusOneNA<P: NAProblem> {
    pub problem: P,
    pub resolutionParameter: u64,
    pub numberOfNeurons: u32,
}

impl<P: NAProblem> OnePlusOneNA<P> {
    /// Builds the operator for a genome's architecture and a problem.
    pub fn new(nn: &NANN, problem: P, resolutionParameter: u64) -> (r: OnePlusOneNA<P>)
        requires
            nn.wf(),
            problem.wf(),
            2 <= resolutionParameter <= 1_000_000,
        ensures
            r.wf(),
            r.problem_of() == problem,
            r.resolutionParameter == resolutionParameter,
            r.numberOfNeurons as int == crate::nn::ann::spec_neuron_count(
                nn.layers@,
                nn.layers@.len() as int,
            ),
    {
        let numberOfNeurons = nn.countNeurons();
        OnePlusOneNA { problem, resolutionParameter, numberOfNeurons }
    }

    /// The operator's display name.
    pub fn name(&self) -> (r: String)
        ensures
            r@ == "(1+1)NA"@,
    {
        "(1+1)NA".to_string()
    }
}

impl<P: NAProblem> MutationAlgorithm for OnePlusOneNA<P> {
    type Prob = P;

    open spec fn wf(&self) -> bool {
        &&& 2 <= self.resolutionParameter <= 1_000_000
        &&& 1 <= self.numberOfNeurons
        &&& self.problem.wf()
    }

    open spec fn problem_of(&self) -> P {
        self.problem
    }

    open spec fn fits(&self, nn: &NANN) -> bool {
        true
    }

    fn getProblem(&self) -> (r: &P) {
        &self.problem
    }

    /// Besides the shared acceptance guarantee: every delta is a whole
    /// number of grid steps applied through the refusing addition, so a
    /// genome whose parameters sit on the `1/resolution` grid mutates to one
    /// whose parameters still do.
    fn mutate(&mut self, nn: NANN, originalScore: i64) -> (r: NANN)
        ensures
            *final(self) == *old(self),
            params_on_grid(&nn, FX_ONE as int / old(self).resolutionParameter as int)
                ==> params_on_grid(&r, FX_ONE as int / old(self).resolutionParameter as int),
    {
        let res = self.resolutionParameter;
        let grid: i64 = ((FX_ONE as u64) / res) as i64;
        proof {
            vstd::arithmetic::div_mod::lemma_div_pos_is_pos(FX_ONE as int, res as int);
            vstd::arithmetic::div_mod::lemma_multiply_divide_le(
                FX_ONE as int,
                res as int,
                FX_ONE as int,
            );
            vstd::arithmetic::div_mod::lemma_fundamental_div_mod(FX_ONE as int, res as int);
            assert((res as int) * (grid as int) <= FX_ONE as int);
            vstd::arithmetic::div_mod::lemma_div_is_ordered_by_denominator(
                FX_ONE as int,
                res as int,
                1_000_000,
            );
        }
        let mut mutatedNN = nn.cloneNet();
        let ghost g = FX_ONE as int / res as int;
        proof {
            lemma_grid_carried_by_copy(&nn, &mutatedNN, g);
        }
        let mut iter: u64 = 0;
        // At least one parameter is always mutated; the geometric tail of
        // continuations is capped far beyond any realistic draw.
        loop
            invariant
                self == old(self),
                self.wf(),
                nn.wf(),
                mutatedNN.wf(),
                same_shape(&nn, &mutatedNN),
                1 <= grid <= FX_ONE,
                grid as int == g,
                (res as int) * (grid as int) <= FX_ONE as int,
                res == self.resolutionParameter,
                iter <= 1_000_000,
                params_on_grid(&nn, g) ==> params_on_grid(&mutatedNN, g),
            decreases 1_000_000 - iter,
        {
            let nl = mutatedNN.layers.len();
            let li = rand_index(nl);
            let rows = mutatedNN.layers[li].weights.len();
            let cols = mutatedNN.layers[li].biases.len();
            let x = rand_index(rows);
            let y = rand_index(cols);
            let h = harmonicDistribution(res);
            proof {
                assert((h as int) * (grid as int) <= (res as int) * (grid as int)
                    && (res as int) * (grid as int) <= 1_000_000_000_000) by (nonlinear_arith)
                    requires
                        1 <= h as int <= res as int,
                        0 <= grid as int,
                        (res as int) * (grid as int) <= 1_000_000,
                        res as int <= 1_000_000,
                        grid as int <= 1_000_000,
                ;
            }
            let d: i64 = (h as i64) * grid;
            let delta: i64 = if rand_index(2) == 0 {
                -d
            } else {
                d
            };
            let w = mutatedNN.layers[li].weights[x][y];
            let ghost before = mutatedNN;
            mutatedNN.setWeight(li, x, y, fx_step(w, delta));
            proof {
                lemma_grid_preserved_weight(
                    &before,
                    &mutatedNN,
                    li as int,
                    x as int,
                    y as int,
                    w as int,
                    delta as int,
                    h as int,
                    grid as int,
                );
            }
            if mutatedNN.isUsingBias() {
                let h2 = harmonicDistribution(res);
                proof {
                    assert((h2 as int) * (grid as int) <= 1_000_000_000_000) by (nonlinear_arith)
                        requires
                            1 <= h2 as int <= res as int,
                            0 <= grid as int <= 1_000_000,
                            res as int <= 1_000_000,
                    ;
                }
                let d2: i64 = (h2 as i64) * grid;
                let delta2: i64 = if rand_index(2) == 0 {
                    -d2
                } else {
                    d2
                };
                let b = mutatedNN.layers[li].biases[y];
                let ghost before2 = mutatedNN;
                mutatedNN.setBias(li, y, fx_step(b, delta2));
                proof {
                    lemma_grid_preserved_bias(
                        &before2,
                        &mutatedNN,
                        li as int,
                        y as int,
                        b as int,
                        delta2 as int,
                        h2 as int,
                        grid as int,
                    );
                }
            }
            if !rand_chance(1, self.numberOfNeurons) {
                break;
            }
            if iter >= 1_000_000 {
                break;
            }
            iter = iter + 1;
        }
        proof {
            self.problem.compat_shape(&nn, &mutatedNN);
        }
        let (_success, mutatedScore, _solution) = self.problem.evaluate(&mutatedNN);
        if mutatedScore >= originalScore {
            mutatedNN
        } else {
            nn
        }
    }
}

/// Replacing one weight by a refused-or-exact grid step keeps the whole
/// network on the grid.
pub(crate) proof fn lemma_grid_preserved_weight(
    before: &NANN,
    after: &NANN,
    li: int,
    x: int,
    y: int,
    w: int,
    delta: int,
    k: int,
    grid: int,
)
    requires
        1 <= grid,
        delta == k * grid || delta == -(k * grid),
        w == before.spec_weight(li, x, y),
        after.layers@.len() == before.layers@.len(),
        0 <= li < before.layers@.len(),
        0 <= x < before.layers@[li].rows(),
        0 <= y < before.layers@[li].cols(),
        forall|a: int| 0 <= a < after.layers@.len() ==> (#[trigger] after.layers@[a]).rows()
            == before.layers@[a].rows() && after.layers@[a].cols() == before.layers@[a].cols(),
        after.spec_weight(li, x, y) as int == crate::fx::spec_fx_step(w, delta),
        forall|a: int, b: int, c: int|
            0 <= a < after.layers@.len() && 0 <= b < after.layers@[a].rows() && 0 <= c
                < after.layers@[a].cols() && !(a == li && b == x && c == y)
                ==> #[trigger] after.spec_weight(a, b, c) == before.spec_weight(a, b, c),
        forall|a: int, c: int|
            0 <= a < after.layers@.len() && 0 <= c < after.layers@[a].cols()
                ==> #[trigger] after.spec_bias(a, c) == before.spec_bias(a, c),
    ensures
        params_on_grid(before, grid) ==> params_on_grid(after, grid),
{
    if params_on_grid(before, grid) {
        lemma_steps_on_grid(k, grid);
        lemma_fx_step_on_grid(w, delta, grid);
        assert forall|a: int, b: int, c: int|
            0 <= a < after.layers@.len() && 0 <= b < after.layers@[a].rows() && 0 <= c
                < after.layers@[a].cols() implies #[trigger] after.spec_weight(a, b, c) as int
            % grid == 0 by {
            if !(a == li && b == x && c == y) {
                assert(after.spec_weight(a, b, c) == before.spec_weight(a, b, c));
            }
        }
        assert forall|a: int, c: int|
            0 <= a < after.layers@.len() && 0 <= c < after.layers@[a].cols()
            implies #[trigger] after.spec_bias(a, c) as int % grid == 0 by {
            assert(after.spec_bias(a, c) == before.spec_bias(a, c));
        }
    }
}

/// Replacing one bias by a refused-or-exact grid step keeps the whole
/// network on the grid.
pub(crate) proof fn lemma_grid_preserved_bias(
    before: &NANN,
    after: &NANN,
    li: int,
    y: int,
    b: int,
    delta: int,
    k: int,
    grid: int,
)
    requires
        1 <= grid,
        delta == k * grid || delta == -(k * grid),
        b == before.spec_bias(li, y),
        after.layers@.len() == before.layers@.len(),
        0 <= li < before.layers@.len(),
        0 <= y < before.layers@[li].cols(),
        forall|a: int| 0 <= a < after.layers@.len() ==> (#[trigger] after.layers@[a]).rows()
            == before.layers@[a].rows() && after.layers@[a].cols() == before.layers@[a].cols(),
        after.spec_bias(li, y) as int == crate::fx::spec_fx_step(b, delta),
        forall|a: int, c: int|
            0 <= a < after.layers@.len() && 0 <= c < after.layers@[a].cols() && !(a == li && c
                == y) ==> #[trigger] after.spec_bias(a, c) == before.spec_bias(a, c),
        forall|a: int, b2: int, c: int|
            0 <= a < after.layers@.len() && 0 <= b2 < after.layers@[a].rows() && 0 <= c
                < after.layers@[a].cols() ==> #[trigger] after.spec_weight(a, b2, c)
                == before.spec_weight(a, b2, c),
    ensures
        params_on_grid(before, grid) ==> params_on_grid(after, grid),
{
    if params_on_grid(before, grid) {
        lemma_steps_on_grid(k, grid);
        lemma_fx_step_on_grid(b, delta, grid);
        assert forall|a: int, b2: int, c: int|
            0 <= a < after.layers@.len() && 0 <= b2 < after.layers@[a].rows() && 0 <= c
                < after.layers@[a].cols() implies #[trigger] after.spec_weight(a, b2, c) as int
            % grid == 0 by {
            assert(after.spec_weight(a, b2, c) == before.spec_weight(a, b2, c));
        }
        assert forall|a: int, c: int|
            0 <= a < after.layers@.len() && 0 <= c < after.layers@[a].cols()
            implies #[trigger] after.spec_bias(a, c) as int % grid == 0 by {
            if !(a == li && c == y) {
                assert(after.spec_bias(a, c) == before.spec_bias(a, c));
            }
        }
    }
}

/// A network whose parameters all equal another's inherits its grid
/// alignment.
pub(crate) proof fn lemma_grid_carried_by_copy(a: &NANN, b: &NANN, grid: int)
    requires
        a.params_eq(b),
    ensures
        params_on_grid(a, grid) ==> params_on_grid(b, grid),
{
    if params_on_grid(a, grid) {
        assert forall|l: int, x: int, y: int|
            0 <= l < b.layers@.len() && 0 <= x < b.layers@[l].rows() && 0 <= y < b.layers@[
                l].cols() implies #[trigger] b.spec_weight(l, x, y) as int % grid == 0 by {
            assert(a.spec_weight(l, x, y) == b.spec_weight(l, x, y));
        }
        assert forall|l: int, y: int|
            0 <= l < b.layers@.len() && 0 <= y < b.layers@[l].cols()
            implies #[trigger] b.spec_bias(l, y) as int % grid == 0 by {
            assert(a.spec_bias(l, y) == b.spec_bias(l, y));
        }
    }
}

} // verus!
