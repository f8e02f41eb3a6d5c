use vstd::prelude::*;

use crate::fx::{FX_MAX, FX_ONE, fx_add, fx_mul, fx_mul_div};
use crate::mutation_algorithms::mutation_algorithm::MutationAlgorithm;
use crate::nn::ann::{NANN, same_shape};
use crate::problems::na_problem::NAProblem;
use crate::rng::{rand_chance, rand_index};
use crate::utils::math_utils::harmonicDistribution;

verus! {

/// The self-adaptive (1+1) strategy: each parameter owns a mutation
/// strength; a chosen parameter moves by a harmonic-distributed multiple of
/// its strength over the resolution, and every touched strength is then
/// multiplied by the success or failure factor and floored at one unit —
/// whether or not the mutation is accepted.
pub struct SAOnePlusOneNA<P: NAProblem> {
    pub problem: P,
    pub resolutionParameter: u64,
    pub numberOfNeurons: u32,
    pub weightStepSizes: Vec<Vec<Vec<i64>>>,
    pub biasStepSizes: Vec<Vec<i64>>,
    pub successAdaptation: i64,
    pub failureAdaptation: i64,
}

/// Replaces one entry of a per-weight table, leaving the rest untouched.
pub(crate) fn set_step3(v: &mut Vec<Vec<Vec<i64>>>, l: usize, x: usize, y: usize, val: i64)
    requires
        l < old(v)@.len(),
        x < old(v)@[l as int]@.len(),
        y < old(v)@[l as int]@[x as int]@.len(),
    ensures
        final(v)@.len() == old(v)@.len(),
        forall|a: int| 0 <= a < final(v)@.len() ==> (#[trigger] final(v)@[a])@.len() == old(v)@[a]@.len(),
        forall|a: int, b: int|
            0 <= a < final(v)@.len() && 0 <= b < final(v)@[a]@.len() ==> (#[trigger] final(v)@[a]@[b])@.len() == old(v)@[a]@[b]@.len(),
        final(v)@[l as int]@[x as int]@[y as int] == val,
        forall|a: int, b: int, c: int|
            0 <= a < final(v)@.len() && 0 <= b < final(v)@[a]@.len() && 0 <= c < final(v)@[a]@[b]@.len() && !(a == l && b == x && c == y) ==> (#[trigger] final(v)@[a]@[b]@[c]) == old(v)@[a]@[b]@[c],
{
    let mut mat = v.remove(l);
    let mut row = mat.remove(x);
    row.set(y, val);
    mat.insert(x, row);
    v.insert(l, mat);
    proof {
        assert(v@ =~= old(v)@.update(l as int, v@[l as int]));
        assert(v@[l as int]@ =~= old(v)@[l as int]@.update(x as int, v@[l as int]@[x as int]));
        assert(v@[l as int]@[x as int]@ =~= old(v)@[l as int]@[x as int]@.update(y as int, val));
    }
}

/// Replaces one entry of a per-bias table, leaving the rest untouched.
pub(crate) fn set_step2(v: &mut Vec<Vec<i64>>, l: usize, y: usize, val: i64)
    requires
        l < old(v)@.len(),
        y < old(v)@[l as int]@.len(),
    ensures
        final(v)@.len() == old(v)@.len(),
        forall|a: int| 0 <= a < final(v)@.len() ==> (#[trigger] final(v)@[a])@.len() == old(v)@[a]@.len(),
        final(v)@[l as int]@[y as int] == val,
        forall|a: int, c: int|
            0 <= a < final(v)@.len() && 0 <= c < final(v)@[a]@.len() && !(a == l && c == y) ==> (
            #[trigger] final(v)@[a]@[c]) == old(v)@[a]@[c],
{
    let mut row = v.remove(l);
    row.set(y, val);
    v.insert(l, row);
    proof {
        assert(v@ =~= old(v)@.update(l as int, v@[l as int]));
        assert(v@[l as int]@ =~= old(v)@[l as int]@.update(y as int, val));
    }
}

/// The multiplicative strength update with its floor: the old strength
/// scaled by the factor, never below one unit.
pub open spec fn spec_adapt(ss: int, factor: int) -> int {
    if crate::fx::spec_fx_mul(ss, factor) < FX_ONE as int {
        FX_ONE as int
    } else {
        crate::fx::spec_fx_mul(ss, factor)
    }
}

/// The strength update applied `k` times over.
pub open spec fn spec_adapt_iter(ss: int, factor: int, k: nat) -> int
    decreases k,
{
    if k == 0 {
        ss
    } else {
        spec_adapt(spec_adapt_iter(ss, factor, (k - 1) as nat), factor)
    }
}

/// A strength arose from another by zero or more applications of the
/// update with one factor: unchanged, or multiplied and floored once per
/// occurrence among the touched parameters.
pub open spec fn adapted_from(newv: i64, oldv: i64, factor: int) -> bool {
    exists|k: nat| newv as int == spec_adapt_iter(oldv as int, factor, k)
}

proof fn lemma_adapted_refl(v: i64, factor: int)
    ensures
        adapted_from(v, v, factor),
{
    assert(v as int == spec_adapt_iter(v as int, factor, 0));
}

proof fn lemma_adapted_step(newv: i64, cur: i64, oldv: i64, factor: int)
    requires
        adapted_from(cur, oldv, factor),
        newv as int == spec_adapt(cur as int, factor),
    ensures
        adapted_from(newv, oldv, factor),
{
    let k = choose|k: nat| cur as int == spec_adapt_iter(oldv as int, factor, k);
    assert(newv as int == spec_adapt_iter(oldv as int, factor, k + 1));
}

/// Applies the strength update to every occurrence of a touched parameter,
/// in both tables: its weight strength — and, when biases are on, the
/// co-indexed bias strength — becomes the old value times the factor,
/// floored at one unit, once per occurrence. Shapes are unchanged;
/// untouched entries keep their values.
pub(crate) fn adaptStepSizes(
    wss: &mut Vec<Vec<Vec<i64>>>,
    bss: &mut Vec<Vec<i64>>,
    mutatedParameters: &Vec<(usize, usize, usize)>,
    adaptationStrength: i64,
    useBias: bool,
)
    requires
        0 < adaptationStrength <= FX_MAX,
        forall|l: int, x: int, y: int|
            0 <= l < old(wss)@.len() && 0 <= x < old(wss)@[l]@.len() && 0 <= y < old(wss)@[l]@[
                x]@.len() ==> 0 <= #[trigger] old(wss)@[l]@[x]@[y] <= FX_MAX,
        forall|l: int, y: int|
            0 <= l < old(bss)@.len() && 0 <= y < old(bss)@[l]@.len() ==> 0 <= #[trigger] old(bss)@[l]@[y] <= FX_MAX,
        forall|t: int|
            0 <= t < mutatedParameters@.len() ==> {
                let p = #[trigger] mutatedParameters@[t];
                p.0 < old(wss)@.len() && p.1 < old(wss)@[p.0 as int]@.len() && p.2 < old(wss)@[
                    p.0 as int]@[p.1 as int]@.len()
            },
        useBias ==> old(bss)@.len() == old(wss)@.len() && forall|t: int|
            0 <= t < mutatedParameters@.len() ==> {
                let p = #[trigger] mutatedParameters@[t];
                p.2 < old(bss)@[p.0 as int]@.len()
            },
    ensures
        final(wss)@.len() == old(wss)@.len(),
        forall|l: int| 0 <= l < final(wss)@.len() ==> (#[trigger] final(wss)@[l])@.len() == old(wss)@[l]@.len(),
        forall|l: int, x: int|
            0 <= l < final(wss)@.len() && 0 <= x < final(wss)@[l]@.len() ==> (#[trigger] final(wss)@[l]@[x])@.len() == old(wss)@[l]@[x]@.len(),
        final(bss)@.len() == old(bss)@.len(),
        forall|l: int| 0 <= l < final(bss)@.len() ==> (#[trigger] final(bss)@[l])@.len() == old(bss)@[l]@.len(),
        forall|l: int, x: int, y: int|
            0 <= l < final(wss)@.len() && 0 <= x < final(wss)@[l]@.len() && 0 <= y < final(wss)@[l]@[x]@.len() ==> 0 <= #[trigger] final(wss)@[l]@[x]@[y] <= FX_MAX,
        forall|l: int, y: int|
            0 <= l < final(bss)@.len() && 0 <= y < final(bss)@[l]@.len() ==> 0 <= #[trigger] final(bss)@[l]@[y] <= FX_MAX,
        forall|l: int, x: int, y: int|
            0 <= l < final(wss)@.len() && 0 <= x < final(wss)@[l]@.len() && 0 <= y < final(wss)@[l]@[x]@.len() ==> #[trigger] adapted_from(
                final(wss)@[l]@[x]@[y],
                old(wss)@[l]@[x]@[y],
                adaptationStrength as int,
            ),
        forall|l: int, y: int|
            0 <= l < final(bss)@.len() && 0 <= y < final(bss)@[l]@.len()
                ==> #[trigger] adapted_from(
                final(bss)@[l]@[y],
                old(bss)@[l]@[y],
                adaptationStrength as int,
            ),
        forall|l: int, x: int, y: int|
            0 <= l < final(wss)@.len() && 0 <= x < final(wss)@[l]@.len() && 0 <= y < final(wss)@[l]@[x]@.len() ==> #[trigger] final(wss)@[l]@[x]@[y] == old(wss)@[l]@[x]@[y]
                || final(wss)@[l]@[x]@[y] >= FX_ONE,
        forall|l: int, y: int|
            0 <= l < final(bss)@.len() && 0 <= y < final(bss)@[l]@.len() ==> #[trigger] final(bss)@[l]@[y] == old(bss)@[l]@[y] || final(bss)@[l]@[y] >= FX_ONE,
{
    let ghost w0 = wss@;
    let ghost b0 = bss@;
    proof {
        assert forall|l: int, x: int, y: int|
            0 <= l < wss@.len() && 0 <= x < wss@[l]@.len() && 0 <= y < wss@[l]@[
                x]@.len() implies #[trigger] adapted_from(
            wss@[l]@[x]@[y],
            w0[l]@[x]@[y],
            adaptationStrength as int,
        ) by {
            lemma_adapted_refl(wss@[l]@[x]@[y], adaptationStrength as int);
        }
        assert forall|l: int, y: int|
            0 <= l < bss@.len() && 0 <= y < bss@[l]@.len() implies #[trigger] adapted_from(
            bss@[l]@[y],
            b0[l]@[y],
            adaptationStrength as int,
        ) by {
            lemma_adapted_refl(bss@[l]@[y], adaptationStrength as int);
        }
    }
    let np = mutatedParameters.len();
    let mut t: usize = 0;
    while t < np
        invariant
            0 < adaptationStrength <= FX_MAX,
            np == mutatedParameters@.len(),
            0 <= t <= np,
            wss@.len() == w0.len(),
            forall|l: int| 0 <= l < wss@.len() ==> (#[trigger] wss@[l])@.len() == w0[l]@.len(),
            forall|l: int, x: int|
                0 <= l < wss@.len() && 0 <= x < wss@[l]@.len() ==> (#[trigger] wss@[l]@[x])@.len()
                    == w0[l]@[x]@.len(),
            bss@.len() == b0.len(),
            forall|l: int| 0 <= l < bss@.len() ==> (#[trigger] bss@[l])@.len() == b0[l]@.len(),
            forall|l: int, x: int, y: int|
                0 <= l < wss@.len() && 0 <= x < wss@[l]@.len() && 0 <= y < wss@[l]@[x]@.len()
                    ==> 0 <= #[trigger] wss@[l]@[x]@[y] <= FX_MAX,
            forall|l: int, y: int|
                0 <= l < bss@.len() && 0 <= y < bss@[l]@.len() ==> 0 <= #[trigger] bss@[l]@[y]
                    <= FX_MAX,
            forall|l: int, x: int, y: int|
                0 <= l < wss@.len() && 0 <= x < wss@[l]@.len() && 0 <= y < wss@[l]@[x]@.len()
                    ==> #[trigger] adapted_from(
                    wss@[l]@[x]@[y],
                    w0[l]@[x]@[y],
                    adaptationStrength as int,
                ),
            forall|l: int, y: int|
                0 <= l < bss@.len() && 0 <= y < bss@[l]@.len() ==> #[trigger] adapted_from(
                    bss@[l]@[y],
                    b0[l]@[y],
                    adaptationStrength as int,
                ),
            forall|l: int, x: int, y: int|
                0 <= l < wss@.len() && 0 <= x < wss@[l]@.len() && 0 <= y < wss@[l]@[x]@.len()
                    ==> #[trigger] wss@[l]@[x]@[y] == w0[l]@[x]@[y] || wss@[l]@[x]@[y] >= FX_ONE,
            forall|l: int, y: int|
                0 <= l < bss@.len() && 0 <= y < bss@[l]@.len() ==> #[trigger] bss@[l]@[y] == b0[
                    l]@[y] || bss@[l]@[y] >= FX_ONE,
            forall|t2: int|
                0 <= t2 < mutatedParameters@.len() ==> {
                    let p = #[trigger] mutatedParameters@[t2];
                    p.0 < w0.len() && p.1 < w0[p.0 as int]@.len() && p.2 < w0[p.0 as int]@[
                        p.1 as int]@.len()
                },
            useBias ==> b0.len() == w0.len() && forall|t2: int|
                0 <= t2 < mutatedParameters@.len() ==> {
                    let p = #[trigger] mutatedParameters@[t2];
                    p.2 < b0[p.0 as int]@.len()
                },
        decreases np - t,
    {
        let (li, x, y) = mutatedParameters[t];
        let ss = wss[li][x][y];
        proof {
            assert((ss as int) * (adaptationStrength as int) >= 0) by (nonlinear_arith)
                requires
                    ss as int >= 0,
                    adaptationStrength as int > 0,
            ;
            vstd::arithmetic::div_mod::lemma_div_pos_is_pos(
                (ss as int) * (adaptationStrength as int),
                FX_ONE as int,
            );
        }
        let mut updated = fx_mul(ss, adaptationStrength);
        if updated < FX_ONE {
            updated = FX_ONE;
        }
        let ghost wssPrev = wss@;
        set_step3(wss, li, x, y, updated);
        proof {
            assert(updated as int == spec_adapt(ss as int, adaptationStrength as int));
            assert forall|l2: int, x2: int, y2: int|
                0 <= l2 < wss@.len() && 0 <= x2 < wss@[l2]@.len() && 0 <= y2 < wss@[l2]@[
                    x2]@.len() implies (#[trigger] adapted_from(
                wss@[l2]@[x2]@[y2],
                w0[l2]@[x2]@[y2],
                adaptationStrength as int,
            ) && 0 <= wss@[l2]@[x2]@[y2] <= FX_MAX && (wss@[l2]@[x2]@[y2] == w0[l2]@[x2]@[y2]
                || wss@[l2]@[x2]@[y2] >= FX_ONE)) by {
                if l2 == li as int && x2 == x as int && y2 == y as int {
                    assert(wss@[l2]@[x2]@[y2] == updated);
                    lemma_adapted_step(
                        updated,
                        ss,
                        w0[l2]@[x2]@[y2],
                        adaptationStrength as int,
                    );
                } else {
                    assert(wss@[l2]@[x2]@[y2] == wssPrev[l2]@[x2]@[y2]);
                }
            }
        }
        if useBias {
            let bs = bss[li][y];
            proof {
                assert((bs as int) * (adaptationStrength as int) >= 0) by (nonlinear_arith)
                    requires
                        bs as int >= 0,
                        adaptationStrength as int > 0,
                ;
                vstd::arithmetic::div_mod::lemma_div_pos_is_pos(
                    (bs as int) * (adaptationStrength as int),
                    FX_ONE as int,
                );
            }
            let mut updatedB = fx_mul(bs, adaptationStrength);
            if updatedB < FX_ONE {
                updatedB = FX_ONE;
            }
            let ghost bssPrev = bss@;
            set_step2(bss, li, y, updatedB);
            proof {
                assert(updatedB as int == spec_adapt(bs as int, adaptationStrength as int));
                assert forall|l2: int, y2: int|
                    0 <= l2 < bss@.len() && 0 <= y2 < bss@[l2]@.len() implies (
                #[trigger] adapted_from(
                    bss@[l2]@[y2],
                    b0[l2]@[y2],
                    adaptationStrength as int,
                ) && 0 <= bss@[l2]@[y2] <= FX_MAX && (bss@[l2]@[y2] == b0[l2]@[y2] || bss@[l2]@[
                    y2] >= FX_ONE)) by {
                    if l2 == li as int && y2 == y as int {
                        assert(bss@[l2]@[y2] == updatedB);
                        lemma_adapted_step(
                            updatedB,
                            bs,
                            b0[l2]@[y2],
                            adaptationStrength as int,
                        );
                    } else {
                        assert(bss@[l2]@[y2] == bssPrev[l2]@[y2]);
                    }
                }
            }
        }
        t = t + 1;
    }
}

impl<P: NAProblem> SAOnePlusOneNA<P> {
    pub open spec fn spec_wss(&self, l: int, x: int, y: int) -> i64 {
        self.weightStepSizes@[l]@[x]@[y]
    }

    pub open spec fn spec_bss(&self, l: int, y: int) -> i64 {
        self.biasStepSizes@[l]@[y]
    }

    /// Every strength of `post`'s tables arose from the matching entry of
    /// this operator's tables by zero or more floored multiplications with
    /// the one factor `f`.
    pub open spec fn adapted_with(&self, post: &Self, f: i64) -> bool {
        &&& forall|l: int, x: int, y: int|
            0 <= l < post.weightStepSizes@.len() && 0 <= x < post.weightStepSizes@[l]@.len() && 0
                <= y < post.weightStepSizes@[l]@[x]@.len() ==> #[trigger] adapted_from(
                post.spec_wss(l, x, y),
                self.spec_wss(l, x, y),
                f as int,
            )
        &&& forall|l: int, y: int|
            0 <= l < post.biasStepSizes@.len() && 0 <= y < post.biasStepSizes@[l]@.len()
                ==> #[trigger] adapted_from(post.spec_bss(l, y), self.spec_bss(l, y), f as int)
    }

    /// All stored step sizes are non-negative fixed-point values.
    pub open spec fn steps_bounded(&self) -> bool {
        &&& forall|l: int, x: int, y: int|
            0 <= l < self.weightStepSizes@.len() && 0 <= x < self.weightStepSizes@[l]@.len() && 0
                <= y < self.weightStepSizes@[l]@[x]@.len() ==> 0 <= #[trigger] self.spec_wss(
                l,
                x,
                y,
            ) <= FX_MAX
        &&& forall|l: int, y: int|
            0 <= l < self.biasStepSizes@.len() && 0 <= y < self.biasStepSizes@[l]@.len() ==> 0
                <= #[trigger] self.spec_bss(l, y) <= FX_MAX
    }

    /// Builds the operator: one step size per weight and, if biases are on,
    /// per bias, all starting at an eighth of the resolution.
    pub fn new(
        nn: &NANN,
        problem: P,
        resolutionParameter: u64,
        successAdaptation: i64,
        failureAdaptation: i64,
    ) -> (r: SAOnePlusOneNA<P>)
        requires
            nn.wf(),
            problem.wf(),
            2 <= resolutionParameter <= 1_000_000,
            successAdaptation > FX_ONE,
            successAdaptation <= FX_MAX,
            0 < failureAdaptation < FX_ONE,
        ensures
            r.wf(),
            r.problem_of() == problem,
            r.fits(nn),
            r.resolutionParameter == resolutionParameter,
            r.successAdaptation == successAdaptation,
            r.failureAdaptation == failureAdaptation,
            r.numberOfNeurons as int == crate::nn::ann::spec_neuron_count(
                nn.layers@,
                nn.layers@.len() as int,
            ),
            forall|l: int, x: int, y: int|
                0 <= l < r.weightStepSizes@.len() && 0 <= x < r.weightStepSizes@[l]@.len() && 0
                    <= y < r.weightStepSizes@[l]@[x]@.len() ==> #[trigger] r.spec_wss(l, x, y)
                    as int == (resolutionParameter as int) * ((FX_ONE as int) / 8),
            forall|l: int, y: int|
                0 <= l < r.biasStepSizes@.len() && 0 <= y < r.biasStepSizes@[l]@.len()
                    ==> #[trigger] r.spec_bss(l, y) as int == (resolutionParameter as int) * ((
                FX_ONE as int) / 8),
    {
        let init: i64 = (resolutionParameter as i64) * (FX_ONE / 8);
        let nl = nn.layers.len();
        let mut weightStepSizes: Vec<Vec<Vec<i64>>> = Vec::new();
        let mut biasStepSizes: Vec<Vec<i64>> = Vec::new();
        let mut l: usize = 0;
        while l < nl
            invariant
                nn.wf(),
                nl == nn.layers@.len(),
                0 <= l <= nl,
                0 <= init <= FX_MAX,
                weightStepSizes@.len() == l as int,
                biasStepSizes@.len() == (if nn.spec_usingBias() {
                    l as int
                } else {
                    0
                }),
                forall|a: int| 0 <= a < l ==> (#[trigger] weightStepSizes@[a])@.len()
                    == nn.layers@[a].rows(),
                forall|a: int, b: int|
                    0 <= a < l && 0 <= b < weightStepSizes@[a]@.len() ==> (
                    #[trigger] weightStepSizes@[a]@[b])@.len() == nn.layers@[a].cols(),
                forall|a: int, b: int, c: int|
                    0 <= a < l && 0 <= b < weightStepSizes@[a]@.len() && 0 <= c
                        < weightStepSizes@[a]@[b]@.len() ==> (
                    #[trigger] weightStepSizes@[a]@[b]@[c]) == init,
                nn.spec_usingBias() ==> forall|a: int|
                    0 <= a < l ==> (#[trigger] biasStepSizes@[a])@.len() == nn.layers@[a].cols(),
                forall|a: int, c: int|
                    0 <= a < biasStepSizes@.len() && 0 <= c < biasStepSizes@[a]@.len() ==> (
                    #[trigger] biasStepSizes@[a]@[c]) == init,
            decreases nl - l,
        {
            let rows = nn.layers[l].weights.len();
            let cols = nn.layers[l].biases.len();
            let mut mat: Vec<Vec<i64>> = Vec::new();
            let mut x: usize = 0;
            while x < rows
                invariant
                    0 <= x <= rows,
                    1 <= cols,
                    0 <= init <= FX_MAX,
                    mat@.len() == x as int,
                    forall|b: int| 0 <= b < x ==> (#[trigger] mat@[b])@.len() == cols,
                    forall|b: int, c: int|
                        0 <= b < x && 0 <= c < mat@[b]@.len() ==> (#[trigger] mat@[b]@[c])
                            == init,
                decreases rows - x,
            {
                let mut row: Vec<i64> = Vec::new();
                let mut y: usize = 0;
                while y < cols
                    invariant
                        0 <= y <= cols,
                        0 <= init <= FX_MAX,
                        row@.len() == y as int,
                        forall|c: int| 0 <= c < y ==> (#[trigger] row@[c]) == init,
                    decreases cols - y,
                {
                    row.push(init);
                    y = y + 1;
                }
                mat.push(row);
                x = x + 1;
            }
            weightStepSizes.push(mat);
            if nn.isUsingBias() {
                let mut brow: Vec<i64> = Vec::new();
                let mut y: usize = 0;
                while y < cols
                    invariant
                        0 <= y <= cols,
                        0 <= init <= FX_MAX,
                        brow@.len() == y as int,
                        forall|c: int| 0 <= c < y ==> (#[trigger] brow@[c]) == init,
                    decreases cols - y,
                {
                    brow.push(init);
                    y = y + 1;
                }
                biasStepSizes.push(brow);
            }
            l = l + 1;
        }
        let numberOfNeurons = nn.countNeurons();
        SAOnePlusOneNA {
            problem,
            resolutionParameter,
            numberOfNeurons,
            weightStepSizes,
            biasStepSizes,
            successAdaptation,
            failureAdaptation,
        }
    }

    /// The operator's display name.
    pub fn name(&self) -> (r: String)
        ensures
            r@ == "Self Adaptive (1+1)NA"@,
    {
        "Self Adaptive (1+1)NA".to_string()
    }
}

impl<P: NAProblem> MutationAlgorithm for SAOnePlusOneNA<P> {
    type Prob = P;

    open spec fn wf(&self) -> bool {
        &&& 2 <= self.resolutionParameter <= 1_000_000
        &&& 1 <= self.numberOfNeurons
        &&& self.problem.wf()
        &&& self.successAdaptation > FX_ONE
        &&& self.successAdaptation <= FX_MAX
        &&& 0 < self.failureAdaptation < FX_ONE
        &&& self.steps_bounded()
    }

    open spec fn problem_of(&self) -> P {
        self.problem
    }

    open spec fn fits(&self, nn: &NANN) -> bool {
        &&& self.weightStepSizes@.len() == nn.layers@.len()
        &&& forall|l: int| 0 <= l < nn.layers@.len() ==> (#[trigger] self.weightStepSizes@[l])@.len()
            == nn.layers@[l].rows()
        &&& forall|l: int, x: int|
            0 <= l < nn.layers@.len() && 0 <= x < self.weightStepSizes@[l]@.len() ==> (
            #[trigger] self.weightStepSizes@[l]@[x])@.len() == nn.layers@[l].cols()
        &&& nn.spec_usingBias() ==> self.biasStepSizes@.len() == nn.layers@.len() && forall|l: int|
            0 <= l < nn.layers@.len() ==> (#[trigger] self.biasStepSizes@[l])@.len()
                == nn.layers@[l].cols()
    }

    fn getProblem(&self) -> (r: &P) {
        &self.problem
    }

    /// Besides the shared acceptance guarantee: the step tables keep their
    /// shapes; one factor — the success factor exactly on strict
    /// improvement, the failure factor otherwise — multiplies every touched
    /// strength, floored at one unit, once per occurrence, whether or not
    /// the mutation is accepted; so every entry either keeps its old value
    /// or ends at least at one unit, and no call drives a strength below
    /// one.
    fn mutate(&mut self, nn: NANN, originalScore: i64) -> (r: NANN)
        ensures
            final(self).weightStepSizes@.len() == old(self).weightStepSizes@.len(),
            forall|l: int|
                0 <= l < final(self).weightStepSizes@.len() ==> (#[trigger] final(self).weightStepSizes@[l])@.len() == old(self).weightStepSizes@[l]@.len(),
            forall|l: int, x: int|
                0 <= l < final(self).weightStepSizes@.len() && 0 <= x < final(self).weightStepSizes@[l]@.len() ==> (#[trigger] final(self).weightStepSizes@[l]@[
                    x])@.len() == old(self).weightStepSizes@[l]@[x]@.len(),
            final(self).biasStepSizes@.len() == old(self).biasStepSizes@.len(),
            forall|l: int|
                0 <= l < final(self).biasStepSizes@.len() ==> (#[trigger] final(self).biasStepSizes@[l])@.len() == old(self).biasStepSizes@[l]@.len(),
            exists|f: i64|
                (f == old(self).successAdaptation || f == old(self).failureAdaptation)
                    && #[trigger] old(self).adapted_with(final(self), f),
            forall|l: int, x: int, y: int|
                0 <= l < final(self).weightStepSizes@.len() && 0 <= x < final(self).weightStepSizes@[l]@.len() && 0 <= y < final(self).weightStepSizes@[l]@[x]@.len()
                    ==> #[trigger] final(self).spec_wss(l, x, y) == old(self).spec_wss(l, x, y)
                    || final(self).spec_wss(l, x, y) >= FX_ONE,
            forall|l: int, y: int|
                0 <= l < final(self).biasStepSizes@.len() && 0 <= y < final(self).biasStepSizes@[l]@.len() ==> #[trigger] final(self).spec_bss(l, y) == old(self).spec_bss(l, y) || final(self).spec_bss(l, y) >= FX_ONE,
    {
        let res = self.resolutionParameter;
        let mut mutatedNN = nn.cloneNet();
        let mut mutatedParameters: Vec<(usize, usize, usize)> = Vec::new();
        let mut iter: u64 = 0;
        // At least one parameter is always mutated; the geometric tail of
        // continuations is capped far beyond any realistic draw.
        loop
            invariant
                self == old(self),
                self.wf(),
                nn.wf(),
                self.fits(&nn),
                mutatedNN.wf(),
                same_shape(&nn, &mutatedNN),
                res == self.resolutionParameter,
                iter <= 1_000_000,
                forall|t: int|
                    0 <= t < mutatedParameters@.len() ==> {
                        let p = #[trigger] mutatedParameters@[t];
                        p.0 < nn.layers@.len() && p.1 < nn.layers@[p.0 as int].rows() && p.2
                            < nn.layers@[p.0 as int].cols()
                    },
            decreases 1_000_000 - iter,
        {
            let nl = mutatedNN.layers.len();
            let li = rand_index(nl);
            let rows = mutatedNN.layers[li].weights.len();
            let cols = mutatedNN.layers[li].biases.len();
            let x = rand_index(rows);
            let y = rand_index(cols);
            let h = harmonicDistribution(res);
            proof {
                assert((li as int) < nn.layers@.len());
                assert((li as int) < self.weightStepSizes@.len());
                assert(rows == nn.layers@[li as int].rows());
                assert(cols == nn.layers@[li as int].cols());
                assert(self.weightStepSizes@[li as int]@.len() == nn.layers@[li as int].rows());
                assert(self.weightStepSizes@[li as int]@[x as int]@.len() == nn.layers@[
                    li as int].cols());
            }
            let ss = self.weightStepSizes[li][x][y];
            proof {
                assert(0 <= self.spec_wss(li as int, x as int, y as int) <= FX_MAX);
            }
            let step = fx_mul_div(ss, h as i64, res as i64);
            let delta: i64 = if rand_index(2) == 0 {
                -step
            } else {
                step
            };
            let w = mutatedNN.layers[li].weights[x][y];
            mutatedNN.setWeight(li, x, y, fx_add(w, delta));
            if mutatedNN.isUsingBias() {
                let h2 = harmonicDistribution(res);
                proof {
                    assert(nn.spec_usingBias());
                    assert(self.biasStepSizes@.len() == nn.layers@.len());
                    assert(self.biasStepSizes@[li as int]@.len() == nn.layers@[li as int].cols());
                }
                let bss = self.biasStepSizes[li][y];
                proof {
                    assert(0 <= self.spec_bss(li as int, y as int) <= FX_MAX);
                }
                let step2 = fx_mul_div(bss, h2 as i64, res as i64);
                let delta2: i64 = if rand_index(2) == 0 {
                    -step2
                } else {
                    step2
                };
                let b = mutatedNN.layers[li].biases[y];
                mutatedNN.setBias(li, y, fx_add(b, delta2));
            }
            mutatedParameters.push((li, x, y));
            if !rand_chance(1, self.numberOfNeurons) {
                break;
            }
            if iter >= 1_000_000 {
                break;
            }
            iter = iter + 1;
        }
        proof {
            self.problem.compat_shape(&nn, &mutatedNN);
        }
        let (_success, mutatedScore, _solution) = self.problem.evaluate(&mutatedNN);

        // Every touched parameter's strength adapts, whether or not the
        // mutation is accepted: multiplied by the success factor on strict
        // improvement, by the failure factor otherwise, floored at one unit,
        // once per occurrence among the drawn parameters.
        let adaptationStrength: i64 = if mutatedScore > originalScore {
            self.successAdaptation
        } else {
            self.failureAdaptation
        };
        let useBias = nn.isUsingBias();
        proof {
            assert forall|l: int, x: int, y: int|
                0 <= l < self.weightStepSizes@.len() && 0 <= x < self.weightStepSizes@[l]@.len()
                    && 0 <= y < self.weightStepSizes@[l]@[x]@.len() implies 0
                <= #[trigger] self.weightStepSizes@[l]@[x]@[y] <= FX_MAX by {
                assert(0 <= self.spec_wss(l, x, y) <= FX_MAX);
            }
            assert forall|l: int, y: int|
                0 <= l < self.biasStepSizes@.len() && 0 <= y < self.biasStepSizes@[
                    l]@.len() implies 0 <= #[trigger] self.biasStepSizes@[l]@[y] <= FX_MAX by {
                assert(0 <= self.spec_bss(l, y) <= FX_MAX);
            }
            assert forall|t2: int|
                0 <= t2 < mutatedParameters@.len() implies {
                let p = #[trigger] mutatedParameters@[t2];
                p.0 < self.weightStepSizes@.len() && p.1 < self.weightStepSizes@[
                    p.0 as int]@.len() && p.2 < self.weightStepSizes@[p.0 as int]@[
                    p.1 as int]@.len()
            } by {
                let p = mutatedParameters@[t2];
                assert(p.0 < nn.layers@.len());
            }
            if useBias {
                assert(self.biasStepSizes@.len() == self.weightStepSizes@.len());
                assert forall|t2: int|
                    0 <= t2 < mutatedParameters@.len() implies {
                    let p = #[trigger] mutatedParameters@[t2];
                    p.2 < self.biasStepSizes@[p.0 as int]@.len()
                } by {
                    let p = mutatedParameters@[t2];
                    assert(p.0 < nn.layers@.len());
                    assert(self.biasStepSizes@[p.0 as int]@.len() == nn.layers@[
                        p.0 as int].cols());
                }
            }
        }
        adaptStepSizes(
            &mut self.weightStepSizes,
            &mut self.biasStepSizes,
            &mutatedParameters,
            adaptationStrength,
            useBias,
        );
        proof {
            assert forall|l: int, x: int, y: int|
                0 <= l < self.weightStepSizes@.len() && 0 <= x < self.weightStepSizes@[l]@.len()
                    && 0 <= y < self.weightStepSizes@[l]@[x]@.len() implies #[trigger] adapted_from(
                self.spec_wss(l, x, y),
                old(self).spec_wss(l, x, y),
                adaptationStrength as int,
            ) by {
                assert(adapted_from(
                    self.weightStepSizes@[l]@[x]@[y],
                    old(self).weightStepSizes@[l]@[x]@[y],
                    adaptationStrength as int,
                ));
            }
            assert forall|l: int, y: int|
                0 <= l < self.biasStepSizes@.len() && 0 <= y < self.biasStepSizes@[
                    l]@.len() implies #[trigger] adapted_from(
                self.spec_bss(l, y),
                old(self).spec_bss(l, y),
                adaptationStrength as int,
            ) by {
                assert(adapted_from(
                    self.biasStepSizes@[l]@[y],
                    old(self).biasStepSizes@[l]@[y],
                    adaptationStrength as int,
                ));
            }
            assert(old(self).adapted_with(self, adaptationStrength));
            assert(self.fits(&nn));
            assert(self.wf());
        }
        if mutatedScore >= originalScore {
            mutatedNN
        } else {
            nn
        }
    }
}

} // verus!
