use vstd::prelude::*;

use crate::fx::{FX_MAX, FX_ONE, fx_add, fx_mul_div};
use crate::mutation_algorithms::mutation_algorithm::MutationAlgorithm;
use crate::nn::ann::{NANN, same_shape};
use crate::mutation_algorithms::sa_one_plus_one_na::{adaptStepSizes, adapted_from};
use crate::problems::na_problem::NAProblem;
use crate::rng::{rand_chance, rand_index};

verus! {

/// The self-adaptive local strategy: like the self-adaptive (1+1) operator
/// but with single local steps — a chosen parameter moves by its own
/// mutation strength over the resolution, without the harmonic factor.
/// Every touched strength then adapts by the success or failure factor,
/// floored at one unit, whether or not the mutation is accepted.
pub struct SALocalMutation<P: NAProblem> {
    pub problem: P,
    pub resolutionParameter: u64,
    pub numberOfNeurons: u32,
    pub weightStepSizes: Vec<Vec<Vec<i64>>>,
    pub biasStepSizes: Vec<Vec<i64>>,
    pub successAdaptation: i64,
    pub failureAdaptation: i64,
}

impl<P: NAProblem> SALocalMutation<P> {
    pub open spec fn spec_wss(&self, l: int, x: int, y: int) -> i64 {
        self.weightStepSizes@[l]@[x]@[y]
    }

    pub open spec fn spec_bss(&self, l: int, y: int) -> i64 {
        self.biasStepSizes@[l]@[y]
    }

    /// Every strength of `post`'s tables arose from the matching entry of
    /// this operator's tables by zero or more floored multiplications with
    /// the one factor `f`.
    pub open spec fn adapted_with(&self, post: &Self, f: i64) -> bool {
        &&& forall|l: int, x: int, y: int|
            0 <= l < post.weightStepSizes@.len() && 0 <= x < post.weightStepSizes@[l]@.len() && 0
                <= y < post.weightStepSizes@[l]@[x]@.len() ==> #[trigger] adapted_from(
                post.spec_wss(l, x, y),
                self.spec_wss(l, x, y),
                f as int,
            )
        &&& forall|l: int, y: int|
            0 <= l < post.biasStepSizes@.len() && 0 <= y < post.biasStepSizes@[l]@.len()
                ==> #[trigger] adapted_from(post.spec_bss(l, y), self.spec_bss(l, y), f as int)
    }

    /// All stored step sizes are non-negative fixed-point values.
    pub open spec fn steps_bounded(&self) -> bool {
        &&& forall|l: int, x: int, y: int|
            0 <= l < self.weightStepSizes@.len() && 0 <= x < self.weightStepSizes@[l]@.len() && 0
                <= y < self.weightStepSizes@[l]@[x]@.len() ==> 0 <= #[trigger] self.spec_wss(
                l,
                x,
                y,
            ) <= FX_MAX
        &&& forall|l: int, y: int|
            0 <= l < self.biasStepSizes@.len() && 0 <= y < self.biasStepSizes@[l]@.len() ==> 0
                <= #[trigger] self.spec_bss(l, y) <= FX_MAX
    }

    /// Builds the operator: one step size per weight and, if biases are on,
    /// per bias, all starting at an eighth of the resolution.
    pub fn new(
        nn: &NANN,
        problem: P,
        resolutionParameter: u64,
        successAdaptation: i64,
        failureAdaptation: i64,
    ) -> (r: SALocalMutation<P>)
        requires
            nn.wf(),
            problem.wf(),
            2 <= resolutionParameter <= 1_000_000,
            successAdaptation > FX_ONE,
            successAdaptation <= FX_MAX,
            0 < failureAdaptation < FX_ONE,
        ensures
            r.wf(),
            r.problem_of() == problem,
            r.fits(nn),
            r.resolutionParameter == resolutionParameter,
            r.successAdaptation == successAdaptation,
            r.failureAdaptation == failureAdaptation,
            r.numberOfNeurons as int == crate::nn::ann::spec_neuron_count(
                nn.layers@,
                nn.layers@.len() as int,
            ),
            forall|l: int, x: int, y: int|
                0 <= l < r.weightStepSizes@.len() && 0 <= x < r.weightStepSizes@[l]@.len() && 0
                    <= y < r.weightStepSizes@[l]@[x]@.len() ==> #[trigger] r.spec_wss(l, x, y)
                    as int == (resolutionParameter as int) * ((FX_ONE as int) / 8),
            forall|l: int, y: int|
                0 <= l < r.biasStepSizes@.len() && 0 <= y < r.biasStepSizes@[l]@.len()
                    ==> #[trigger] r.spec_bss(l, y) as int == (resolutionParameter as int) * ((
                FX_ONE as int) / 8),
    {
        let init: i64 = (resolutionParameter as i64) * (FX_ONE / 8);
        let nl = nn.layers.len();
        let mut weightStepSizes: Vec<Vec<Vec<i64>>> = Vec::new();
        let mut biasStepSizes: Vec<Vec<i64>> = Vec::new();
        let mut l: usize = 0;
        while l < nl
            invariant
                nn.wf(),
                nl == nn.layers@.len(),
                0 <= l <= nl,
                0 <= init <= FX_MAX,
                weightStepSizes@.len() == l as int,
                biasStepSizes@.len() == (if nn.spec_usingBias() {
                    l as int
                } else {
                    0
                }),
                forall|a: int| 0 <= a < l ==> (#[trigger] weightStepSizes@[a])@.len()
                    == nn.layers@[a].rows(),
                forall|a: int, b: int|
                    0 <= a < l && 0 <= b < weightStepSizes@[a]@.len() ==> (
                    #[trigger] weightStepSizes@[a]@[b])@.len() == nn.layers@[a].cols(),
                forall|a: int, b: int, c: int|
                    0 <= a < l && 0 <= b < weightStepSizes@[a]@.len() && 0 <= c
                        < weightStepSizes@[a]@[b]@.len() ==> (
                    #[trigger] weightStepSizes@[a]@[b]@[c]) == init,
                nn.spec_usingBias() ==> forall|a: int|
                    0 <= a < l ==> (#[trigger] biasStepSizes@[a])@.len() == nn.layers@[a].cols(),
                forall|a: int, c: int|
                    0 <= a < biasStepSizes@.len() && 0 <= c < biasStepSizes@[a]@.len() ==> (
                    #[trigger] biasStepSizes@[a]@[c]) == init,
            decreases nl - l,
        {
            let rows = nn.layers[l].weights.len();
            let cols = nn.layers[l].biases.len();
            let mut mat: Vec<Vec<i64>> = Vec::new();
            let mut x: usize = 0;
            while x < rows
                invariant
                    0 <= x <= rows,
                    1 <= cols,
                    0 <= init <= FX_MAX,
                    mat@.len() == x as int,
                    forall|b: int| 0 <= b < x ==> (#[trigger] mat@[b])@.len() == cols,
                    forall|b: int, c: int|
                        0 <= b < x && 0 <= c < mat@[b]@.len() ==> (#[trigger] mat@[b]@[c])
                            == init,
                decreases rows - x,
            {
                let mut row: Vec<i64> = Vec::new();
                let mut y: usize = 0;
                while y < cols
                    invariant
                        0 <= y <= cols,
                        0 <= init <= FX_MAX,
                        row@.len() == y as int,
                        forall|c: int| 0 <= c < y ==> (#[trigger] row@[c]) == init,
                    decreases cols - y,
                {
                    row.push(init);
                    y = y + 1;
                }
                mat.push(row);
                x = x + 1;
            }
            weightStepSizes.push(mat);
            if nn.isUsingBias() {
                let mut brow: Vec<i64> = Vec::new();
                let mut y: usize = 0;
                while y < cols
                    invariant
                        0 <= y <= cols,
                        0 <= init <= FX_MAX,
                        brow@.len() == y as int,
                        forall|c: int| 0 <= c < y ==> (#[trigger] brow@[c]) == init,
                    decreases cols - y,
                {
                    brow.push(init);
                    y = y + 1;
                }
                biasStepSizes.push(brow);
            }
            l = l + 1;
        }
        let numberOfNeurons = nn.countNeurons();
        SALocalMutation {
            problem,
            resolutionParameter,
            numberOfNeurons,
            weightStepSizes,
            biasStepSizes,
            successAdaptation,
            failureAdaptation,
        }
    }

    /// The operator's display name.
    pub fn name(&self) -> (r: String)
        ensures
            r@ == "Self Adaptive Local"@,
    {
        "Self Adaptive Local".to_string()
    }
}

impl<P: NAProblem> MutationAlgorithm for SALocalMutation<P> {
    type Prob = P;

    open spec fn wf(&self) -> bool {
        &&& 2 <= self.resolutionParameter <= 1_000_000
        &&& 1 <= self.numberOfNeurons
        &&& self.problem.wf()
        &&& self.successAdaptation > FX_ONE
        &&& self.successAdaptation <= FX_MAX
        &&& 0 < self.failureAdaptation < FX_ONE
        &&& self.steps_bounded()
    }

    open spec fn problem_of(&self) -> P {
        self.problem
    }

    open spec fn fits(&self, nn: &NANN) -> bool {
        &&& self.weightStepSizes@.len() == nn.layers@.len()
        &&& forall|l: int| 0 <= l < nn.layers@.len() ==> (#[trigger] self.weightStepSizes@[l])@.len()
            == nn.layers@[l].rows()
        &&& forall|l: int, x: int|
            0 <= l < nn.layers@.len() && 0 <= x < self.weightStepSizes@[l]@.len() ==> (
            #[trigger] self.weightStepSizes@[l]@[x])@.len() == nn.layers@[l].cols()
        &&& nn.spec_usingBias() ==> self.biasStepSizes@.len() == nn.layers@.len() && forall|l: int|
            0 <= l < nn.layers@.len() ==> (#[trigger] self.biasStepSizes@[l])@.len()
                == nn.layers@[l].cols()
    }

    fn getProblem(&self) -> (r: &P) {
        &self.problem
    }

    /// Besides the shared acceptance guarantee: the step tables keep their
    /// shapes; one factor — the success factor exactly on strict
    /// improvement, the failure factor otherwise — multiplies every touched
    /// strength, floored at one unit, once per occurrence, whether or not
    /// the mutation is accepted; so every entry either keeps its old value
    /// or ends at least at one unit, and no call drives a strength below
    /// one.
    fn mutate(&mut self, nn: NANN, originalScore: i64) -> (r: NANN)
        ensures
            final(self).weightStepSizes@.len() == old(self).weightStepSizes@.len(),
            forall|l: int|
                0 <= l < final(self).weightStepSizes@.len() ==> (#[trigger] final(self).weightStepSizes@[l])@.len() == old(self).weightStepSizes@[l]@.len(),
            forall|l: int, x: int|
                0 <= l < final(self).weightStepSizes@.len() && 0 <= x < final(self).weightStepSizes@[l]@.len() ==> (#[trigger] final(self).weightStepSizes@[l]@[x])@.len() == old(self).weightStepSizes@[l]@[x]@.len(),
            final(self).biasStepSizes@.len() == old(self).biasStepSizes@.len(),
            forall|l: int|
                0 <= l < final(self).biasStepSizes@.len() ==> (#[trigger] final(self).biasStepSizes@[l])@.len() == old(self).biasStepSizes@[l]@.len(),
            exists|f: i64|
                (f == old(self).successAdaptation || f == old(self).failureAdaptation)
                    && #[trigger] old(self).adapted_with(final(self), f),
            forall|l: int, x: int, y: int|
                0 <= l < final(self).weightStepSizes@.len() && 0 <= x < final(self).weightStepSizes@[l]@.len() && 0 <= y < final(self).weightStepSizes@[l]@[x]@.len()
                    ==> #[trigger] final(self).spec_wss(l, x, y) == old(self).spec_wss(l, x, y)
                    || final(self).spec_wss(l, x, y) >= FX_ONE,
            forall|l: int, y: int|
                0 <= l < final(self).biasStepSizes@.len() && 0 <= y < final(self).biasStepSizes@[l]@.len() ==> #[trigger] final(self).spec_bss(l, y) == old(self).spec_bss(l, y) || final(self).spec_bss(l, y) >= FX_ONE,
    {
        let res = self.resolutionParameter;
        let mut mutatedNN = nn.cloneNet();
        let mut mutatedParameters: Vec<(usize, usize, usize)> = Vec::new();
        let mut iter: u64 = 0;
        // At least one parameter is always mutated; the geometric tail of
        // continuations is capped far beyond any realistic draw.
        loop
            invariant
                self == old(self),
                self.wf(),
                nn.wf(),
                self.fits(&nn),
                mutatedNN.wf(),
                same_shape(&nn, &mutatedNN),
                res == self.resolutionParameter,
                iter <= 1_000_000,
                forall|t: int|
                    0 <= t < mutatedParameters@.len() ==> {
                        let p = #[trigger] mutatedParameters@[t];
                        p.0 < nn.layers@.len() && p.1 < nn.layers@[p.0 as int].rows() && p.2
                            < nn.layers@[p.0 as int].cols()
                    },
            decreases 1_000_000 - iter,
        {
            let nl = mutatedNN.layers.len();
            let li = rand_index(nl);
            let rows = mutatedNN.layers[li].weights.len();
            let cols = mutatedNN.layers[li].biases.len();
            let x = rand_index(rows);
            let y = rand_index(cols);
            proof {
                assert((li as int) < nn.layers@.len());
                assert((li as int) < self.weightStepSizes@.len());
                assert(rows == nn.layers@[li as int].rows());
                assert(cols == nn.layers@[li as int].cols());
                assert(self.weightStepSizes@[li as int]@.len() == nn.layers@[li as int].rows());
                assert(self.weightStepSizes@[li as int]@[x as int]@.len() == nn.layers@[
                    li as int].cols());
            }
            let ss = self.weightStepSizes[li][x][y];
            proof {
                assert(0 <= self.spec_wss(li as int, x as int, y as int) <= FX_MAX);
            }
            let step = fx_mul_div(ss, 1, res as i64);
            let delta: i64 = if rand_index(2) == 0 {
                -step
            } else {
                step
            };
            let w = mutatedNN.layers[li].weights[x][y];
            mutatedNN.setWeight(li, x, y, fx_add(w, delta));
            if mutatedNN.isUsingBias() {
                proof {
                    assert(nn.spec_usingBias());
                    assert(self.biasStepSizes@.len() == nn.layers@.len());
                    assert(self.biasStepSizes@[li as int]@.len() == nn.layers@[li as int].cols());
                }
                let bss = self.biasStepSizes[li][y];
                proof {
                    assert(0 <= self.spec_bss(li as int, y as int) <= FX_MAX);
                }
                let step2 = fx_mul_div(bss, 1, res as i64);
                let delta2: i64 = if rand_index(2) == 0 {
                    -step2
                } else {
                    step2
                };
                let b = mutatedNN.layers[li].biases[y];
                mutatedNN.setBias(li, y, fx_add(b, delta2));
            }
            mutatedParameters.push((li, x, y));
            if !rand_chance(1, self.numberOfNeurons) {
                break;
            }
            if iter >= 1_000_000 {
                break;
            }
            iter = iter + 1;
        }
        proof {
            self.problem.compat_shape(&nn, &mutatedNN);
        }
        let (_success, mutatedScore, _solution) = self.problem.evaluate(&mutatedNN);

        // Every touched parameter's strength adapts, whether or not the
        // mutation is accepted: multiplied by the success factor on strict
        // improvement, by the failure factor otherwise, floored at one unit,
        // once per occurrence among the drawn parameters.
        let adaptationStrength: i64 = if mutatedScore > originalScore {
            self.successAdaptation
        } else {
            self.failureAdaptation
        };
        let useBias = nn.isUsingBias();
        proof {
            assert forall|l: int, x: int, y: int|
                0 <= l < self.weightStepSizes@.len() && 0 <= x < self.weightStepSizes@[l]@.len()
                    && 0 <= y < self.weightStepSizes@[l]@[x]@.len() implies 0
                <= #[trigger] self.weightStepSizes@[l]@[x]@[y] <= FX_MAX by {
                assert(0 <= self.spec_wss(l, x, y) <= FX_MAX);
            }
            assert forall|l: int, y: int|
                0 <= l < self.biasStepSizes@.len() && 0 <= y < self.biasStepSizes@[
                    l]@.len() implies 0 <= #[trigger] self.biasStepSizes@[l]@[y] <= FX_MAX by {
                assert(0 <= self.spec_bss(l, y) <= FX_MAX);
            }
            assert forall|t2: int|
                0 <= t2 < mutatedParameters@.len() implies {
                let p = #[trigger] mutatedParameters@[t2];
                p.0 < self.weightStepSizes@.len() && p.1 < self.weightStepSizes@[
                    p.0 as int]@.len() && p.2 < self.weightStepSizes@[p.0 as int]@[
                    p.1 as int]@.len()
            } by {
                let p = mutatedParameters@[t2];
                assert(p.0 < nn.layers@.len());
            }
            if useBias {
                assert(self.biasStepSizes@.len() == self.weightStepSizes@.len());
                assert forall|t2: int|
                    0 <= t2 < mutatedParameters@.len() implies {
                    let p = #[trigger] mutatedParameters@[t2];
                    p.2 < self.biasStepSizes@[p.0 as int]@.len()
                } by {
                    let p = mutatedParameters@[t2];
                    assert(p.0 < nn.layers@.len());
                    assert(self.biasStepSizes@[p.0 as int]@.len() == nn.layers@[
                        p.0 as int].cols());
                }
            }
        }
        adaptStepSizes(
            &mut self.weightStepSizes,
            &mut self.biasStepSizes,
            &mutatedParameters,
            adaptationStrength,
            useBias,
        );
        proof {
            assert forall|l: int, x: int, y: int|
                0 <= l < self.weightStepSizes@.len() && 0 <= x < self.weightStepSizes@[l]@.len()
                    && 0 <= y < self.weightStepSizes@[l]@[x]@.len() implies #[trigger] adapted_from(
                self.spec_wss(l, x, y),
                old(self).spec_wss(l, x, y),
                adaptationStrength as int,
            ) by {
                assert(adapted_from(
                    self.weightStepSizes@[l]@[x]@[y],
                    old(self).weightStepSizes@[l]@[x]@[y],
                    adaptationStrength as int,
                ));
            }
            assert forall|l: int, y: int|
                0 <= l < self.biasStepSizes@.len() && 0 <= y < self.biasStepSizes@[
                    l]@.len() implies #[trigger] adapted_from(
                self.spec_bss(l, y),
                old(self).spec_bss(l, y),
                adaptationStrength as int,
            ) by {
                assert(adapted_from(
                    self.biasStepSizes@[l]@[y],
                    old(self).biasStepSizes@[l]@[y],
                    adaptationStrength as int,
                ));
            }
            assert(old(self).adapted_with(self, adaptationStrength));
            assert(self.fits(&nn));
            assert(self.wf());
        }
        if mutatedScore >= originalScore {
            mutatedNN
        } else {
            nn
        }
    }
}

} // verus!
