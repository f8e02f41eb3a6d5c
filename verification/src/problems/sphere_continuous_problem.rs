use vstd::prelude::*;

use crate::config::NAConfig;
use crate::fx::{
    FX_11PI_6, FX_2PI_3, FX_3PI_2, FX_4PI_3, FX_ONE, FX_PI, FX_PI_2, FX_PI_3, FX_TAU, acos_fx,
    emod, fx_bounded, fx_mul_div, ring_sym, spec_acos_fx, spec_emod, spec_fx_mul_div,
    spec_ring_sym,
};
use crate::nn::ann::NANN;
use crate::problems::na_problem::NAProblem;
use crate::utils::interval::{
    Interval, cell_set, covers_cell, lemma_measure_is_cell_count, pairs_cover_cell,
};

verus! {

/// Continuous angular classification: the genome reads the target ranges,
/// answers with hyperplane arcs on the circle, and is scored by how much of
/// the circle it classifies the same way as the target set.
pub struct SphereContinuousNAProblem {
    ranges: Vec<(i64, i64)>,
    problemName: String,
    config: NAConfig,
}

impl SphereContinuousNAProblem {
    pub closed spec fn spec_ranges(&self) -> Seq<(i64, i64)> {
        self.ranges@
    }

    pub closed spec fn spec_config(&self) -> NAConfig {
        self.config
    }

    pub closed spec fn spec_name(&self) -> Seq<char> {
        self.problemName@
    }

    /// The target ranges flattened into one input row: start and end of each
    /// range, in order.
    pub open spec fn spec_inputs(&self) -> Seq<i64> {
        Seq::new(
            (2 * self.spec_ranges().len()) as nat,
            |t: int|
                if t % 2 == 0 {
                    self.spec_ranges()[t / 2].0
                } else {
                    self.spec_ranges()[t / 2].1
                },
        )
    }

    /// The genome's raw output row for this problem's inputs.
    pub open spec fn spec_prediction(&self, nn: &NANN) -> Seq<i64> {
        nn.spec_forward_row(self.spec_inputs())
    }

    /// The predicted arcs: each output pair `(angle, bias)` becomes the arc
    /// from `angle - acos(bias)` to `angle + acos(bias)`, both reduced into
    /// one turn, the bias first reduced into `[-1, 1)`.
    pub open spec fn spec_pred_pairs(&self, nn: &NANN) -> Seq<(i64, i64)> {
        let pred = self.spec_prediction(nn);
        Seq::new(
            (pred.len() as int / 2) as nat,
            |j: int|
                {
                    let angle = pred[2 * j] as int;
                    let a = spec_acos_fx(spec_ring_sym(pred[2 * j + 1] as int, FX_ONE as int));
                    (
                        spec_emod(angle - a, FX_TAU as int) as i64,
                        spec_emod(angle + a, FX_TAU as int) as i64,
                    )
                },
        )
    }

    /// The cells of the circle on which prediction and target agree: both
    /// cover them, or neither does.
    pub open spec fn spec_agreement(&self, nn: &NANN) -> Set<int> {
        Set::new(
            |c: int|
                0 <= c < FX_TAU && (pairs_cover_cell(self.spec_pred_pairs(nn), c)
                    <==> pairs_cover_cell(self.spec_ranges(), c)),
        )
    }

    /// Builds the problem from explicit target ranges.
    pub fn new(ranges: Vec<(i64, i64)>, problemName: String, config: NAConfig) -> (r:
        SphereContinuousNAProblem)
        requires
            1 <= ranges@.len() <= 500,
            forall|i: int|
                0 <= i < ranges@.len() ==> fx_bounded((#[trigger] ranges@[i]).0 as int)
                    && fx_bounded(ranges@[i].1 as int),
            config.wf(),
        ensures
            r.wf(),
            r.spec_ranges() == ranges@,
            r.spec_config() == config,
            r.spec_name() == problemName@,
    {
        SphereContinuousNAProblem { ranges, problemName, config }
    }

    /// The first quarter of the circle as the positive class.
    pub fn newQuarter(config: NAConfig) -> (r: SphereContinuousNAProblem)
        requires
            config.wf(),
        ensures
            r.wf(),
            r.spec_ranges() =~= seq![(0i64, FX_PI_2)],
            r.spec_config() == config,
    {
        let mut ranges: Vec<(i64, i64)> = Vec::new();
        ranges.push((0, FX_PI_2));
        SphereContinuousNAProblem::new(ranges, "Sphere Continuous Quarter".to_string(), config)
    }

    /// The first half of the circle as the positive class.
    pub fn newHalf(config: NAConfig) -> (r: SphereContinuousNAProblem)
        requires
            config.wf(),
        ensures
            r.wf(),
            r.spec_ranges() =~= seq![(0i64, FX_PI)],
            r.spec_config() == config,
    {
        let mut ranges: Vec<(i64, i64)> = Vec::new();
        ranges.push((0, FX_PI));
        SphereContinuousNAProblem::new(ranges, "Sphere Continuous Half".to_string(), config)
    }

    /// Two opposite quarters as the positive class.
    pub fn newTwoQuarters(config: NAConfig) -> (r: SphereContinuousNAProblem)
        requires
            config.wf(),
        ensures
            r.wf(),
            r.spec_ranges() =~= seq![(0i64, FX_PI_2), (FX_PI, FX_3PI_2)],
            r.spec_config() == config,
    {
        let mut ranges: Vec<(i64, i64)> = Vec::new();
        ranges.push((0, FX_PI_2));
        ranges.push((FX_PI, FX_3PI_2));
        SphereContinuousNAProblem::new(
            ranges,
            "Sphere Continuous Two Quarters".to_string(),
            config,
        )
    }

    /// Three unevenly spaced arcs whose layout admits local optima.
    pub fn newLocalOpt(config: NAConfig) -> (r: SphereContinuousNAProblem)
        requires
            config.wf(),
        ensures
            r.wf(),
            r.spec_ranges() =~= seq![(0i64, FX_PI_3), (FX_2PI_3, FX_PI), (FX_4PI_3, FX_11PI_6)],
            r.spec_config() == config,
    {
        let mut ranges: Vec<(i64, i64)> = Vec::new();
        ranges.push((0, FX_PI_3));
        ranges.push((FX_2PI_3, FX_PI));
        ranges.push((FX_4PI_3, FX_11PI_6));
        SphereContinuousNAProblem::new(
            ranges,
            "Sphere Continuous Local Optima".to_string(),
            config,
        )
    }

    /// The display name of this problem instance.
    pub fn name(&self) -> (r: &String)
        ensures
            r@ == self.spec_name(),
    {
        &self.problemName
    }
}

impl NAProblem for SphereContinuousNAProblem {
    open spec fn wf(&self) -> bool {
        &&& 1 <= self.spec_ranges().len() <= 500
        &&& forall|i: int|
            0 <= i < self.spec_ranges().len() ==> fx_bounded(
                (#[trigger] self.spec_ranges()[i]).0 as int,
            ) && fx_bounded(self.spec_ranges()[i].1 as int)
        &&& self.spec_config().wf()
    }

    open spec fn compatible(&self, nn: &NANN) -> bool {
        &&& nn.in_dim() == 2 * self.spec_ranges().len()
        &&& nn.out_dim() % 2 == 0
    }

    open spec fn score_of(&self, nn: &NANN) -> int {
        spec_fx_mul_div(self.spec_agreement(nn).len() as int, FX_ONE as int, FX_TAU as int)
    }

    open spec fn success_of(&self, nn: &NANN) -> bool {
        self.score_of(nn) >= self.spec_config().optimum - self.spec_config().spec_grid()
    }

    open spec fn spec_raw(&self, nn: &NANN) -> Seq<Seq<i64>> {
        seq![self.spec_prediction(nn)]
    }

    proof fn compat_shape(&self, a: &NANN, b: &NANN) {
        assert(a.layers@[0].rows() == b.layers@[0].rows());
        assert(a.layers@[a.layers@.len() - 1].cols() == b.layers@[b.layers@.len() - 1].cols());
    }

    fn evaluate(&self, nn: &NANN) -> (r: (bool, i64, Vec<Vec<i64>>)) {
        // Flatten the target ranges into the single input row.
        let nr = self.ranges.len();
        let mut inputs: Vec<i64> = Vec::new();
        let mut i: usize = 0;
        while i < nr
            invariant
                nr == self.spec_ranges().len(),
                self.wf(),
                0 <= i <= nr,
                inputs@.len() == 2 * i as int,
                forall|t: int| 0 <= t < inputs@.len() ==> inputs@[t] == self.spec_inputs()[t],
                forall|t: int| 0 <= t < inputs@.len() ==> fx_bounded(#[trigger] inputs@[t] as int),
            decreases nr - i,
        {
            let (a, b) = self.ranges[i];
            inputs.push(a);
            inputs.push(b);
            i = i + 1;
        }
        proof {
            assert(inputs@ =~= self.spec_inputs());
        }
        let mut batch: Vec<Vec<i64>> = Vec::new();
        batch.push(inputs);
        let prediction = nn.forward(&batch);
        let row = &prediction[0];

        // Turn each (angle, bias) output pair into the covered arc.
        let m = row.len() / 2;
        let mut predPairs: Vec<(i64, i64)> = Vec::new();
        let mut j: usize = 0;
        while j < m
            invariant
                self.wf(),
                nn.wf(),
                m == row@.len() as int / 2,
                row@ == self.spec_prediction(nn),
                forall|t: int| 0 <= t < row@.len() ==> fx_bounded(#[trigger] row@[t] as int),
                0 <= j <= m,
                predPairs@.len() == j as int,
                forall|t: int| 0 <= t < j ==> predPairs@[t] == self.spec_pred_pairs(nn)[t],
                forall|t: int|
                    0 <= t < j ==> fx_bounded((#[trigger] predPairs@[t]).0 as int) && fx_bounded(
                        predPairs@[t].1 as int,
                    ),
            decreases m - j,
        {
            let angle = row[2 * j];
            let biasRaw = row[2 * j + 1];
            let bias = ring_sym(biasRaw, FX_ONE);
            let a = acos_fx(bias);
            let start = emod(angle - a, FX_TAU);
            let end = emod(angle + a, FX_TAU);
            predPairs.push((start, end));
            j = j + 1;
        }
        proof {
            assert(predPairs@ =~= self.spec_pred_pairs(nn));
        }

        let mut givenPairs: Vec<(i64, i64)> = Vec::new();
        let mut k: usize = 0;
        while k < nr
            invariant
                nr == self.spec_ranges().len(),
                self.wf(),
                0 <= k <= nr,
                givenPairs@ == self.spec_ranges().take(k as int),
            decreases nr - k,
        {
            let p = self.ranges[k];
            givenPairs.push(p);
            proof {
                assert(givenPairs@ =~= self.spec_ranges().take(k as int + 1));
            }
            k = k + 1;
        }
        proof {
            assert(givenPairs@ =~= self.spec_ranges());
        }

        let predictionRanges = Interval::fromVec(predPairs);
        let givenRanges = Interval::fromVec(givenPairs);

        // Positives: circle cells both sides cover.
        let correctPositives = predictionRanges.intersection(&givenRanges);
        // Negatives: circle cells neither side covers.
        let givenComplement = givenRanges.complement();
        let predictedComplement = predictionRanges.complement();
        let correctNegatives = givenComplement.intersection(&predictedComplement);
        let correctPredictionRanges = correctPositives.union(&correctNegatives);

        let correctPredictionArea = correctPredictionRanges.measure();
        proof {
            lemma_measure_is_cell_count(correctPredictionRanges@);
            assert(cell_set(correctPredictionRanges@) =~= self.spec_agreement(nn));
        }
        let score = fx_mul_div(correctPredictionArea, FX_ONE, FX_TAU);
        proof {
            vstd::arithmetic::div_mod::lemma_div_pos_is_pos(
                correctPredictionArea as int * FX_ONE as int,
                FX_TAU as int,
            );
            assert(correctPredictionArea as int * FX_ONE as int >= 0) by (nonlinear_arith)
                requires
                    correctPredictionArea as int >= 0,
            ;
        }
        let grid = self.config.grid();
        let success = score >= self.config.optimum - grid;
        proof {
            assert(prediction@.map_values(|v: Vec<i64>| v@) =~= self.spec_raw(nn));
        }
        (success, score, prediction)
    }
}

} // verus!
