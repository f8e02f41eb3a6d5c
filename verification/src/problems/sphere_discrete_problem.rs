use vstd::prelude::*;

use crate::config::NAConfig;
use crate::fx::{
    FX_3PI_2, FX_ONE, FX_PI, FX_PI_2, FX_PI_3, FX_TAU, FX_2PI_3, FX_4PI_3, FX_11PI_6, emod,
    fx_bounded, fx_mul_div, ring_sym, spec_emod, spec_fx_mul_div, spec_ring_sym,
};
use crate::nn::ann::NANN;
use crate::problems::na_problem::NAProblem;
use crate::utils::math_utils::{
    abovePlane, cartesianToPolar, inRange, nSpherePointGeneration, spec_abovePlane, spec_inRange,
};

verus! {

/// Discrete sampled-point classification: a fixed, pre-labeled sample of
/// points on the unit hypersphere, generated and labeled once at
/// construction; the genome answers one hyperplane per target range, and is
/// scored by the share of points it classifies correctly.
pub struct SphereDiscreteNAProblem {
    ranges: Vec<Vec<(i64, i64)>>,
    points: Vec<(Vec<i64>, bool)>,
    numPoints: u32,
    problemName: String,
    config: NAConfig,
}

impl SphereDiscreteNAProblem {
    pub closed spec fn spec_ranges(&self) -> Seq<Seq<(i64, i64)>> {
        self.ranges@.map_values(|v: Vec<(i64, i64)>| v@)
    }

    pub closed spec fn spec_points(&self) -> Seq<(Seq<i64>, bool)> {
        self.points@.map_values(|p: (Vec<i64>, bool)| (p.0@, p.1))
    }

    pub closed spec fn spec_numPoints(&self) -> int {
        self.numPoints as int
    }

    pub closed spec fn spec_config(&self) -> NAConfig {
        self.config
    }

    pub closed spec fn spec_name(&self) -> Seq<char> {
        self.problemName@
    }

    /// The dimension of the polar boxes: one less than the sphere's.
    pub open spec fn spec_dims(&self) -> int {
        self.spec_ranges()[0].len() as int
    }

    /// The flattened input rows: one row per target box, its ranges laid out
    /// as start/end pairs.
    pub open spec fn spec_input_row(&self, i: int) -> Seq<i64> {
        Seq::new(
            (2 * self.spec_dims()) as nat,
            |t: int|
                if t % 2 == 0 {
                    self.spec_ranges()[i][t / 2].0
                } else {
                    self.spec_ranges()[i][t / 2].1
                },
        )
    }

    /// The genome's output rows, one per target box.
    pub open spec fn spec_prediction_row(&self, nn: &NANN, i: int) -> Seq<i64> {
        nn.spec_forward_row(self.spec_input_row(i))
    }

    /// One predicted normal vector: the output row with its leading entries
    /// reduced into one turn and its trailing bias into `[-1, 1)`.
    pub open spec fn spec_normal_vector(&self, nn: &NANN, i: int) -> Seq<i64> {
        let row = self.spec_prediction_row(nn, i);
        Seq::new(
            row.len(),
            |j: int|
                if j < row.len() - 1 {
                    spec_emod(row[j] as int, FX_TAU as int) as i64
                } else {
                    spec_ring_sym(row[j] as int, FX_ONE as int) as i64
                },
        )
    }

    /// Whether a labeled point is classified correctly: a positive point
    /// must lie above some predicted hyperplane, a negative point above
    /// none.
    pub open spec fn spec_point_correct(&self, nn: &NANN, p: (Seq<i64>, bool)) -> bool {
        if p.1 {
            exists|v: int|
                0 <= v < self.spec_ranges().len() && spec_abovePlane(
                    p.0,
                    #[trigger] self.spec_normal_vector(nn, v),
                )
        } else {
            forall|v: int|
                0 <= v < self.spec_ranges().len() ==> !spec_abovePlane(
                    p.0,
                    #[trigger] self.spec_normal_vector(nn, v),
                )
        }
    }

    /// Builds the problem: generates the sample, converts each point to
    /// polar form and labels it against the target boxes, once.
    pub fn new(
        ranges: Vec<Vec<(i64, i64)>>,
        numPoints: u32,
        problemName: String,
        config: NAConfig,
    ) -> (r: SphereDiscreteNAProblem)
        requires
            1 <= ranges@.len() <= 100,
            1 <= ranges@[0]@.len() <= 3,
            forall|i: int| 0 <= i < ranges@.len() ==> (#[trigger] ranges@[i])@.len()
                == ranges@[0]@.len(),
            forall|i: int, j: int|
                0 <= i < ranges@.len() && 0 <= j < ranges@[i]@.len() ==> fx_bounded(
                    (#[trigger] ranges@[i]@[j]).0 as int,
                ) && fx_bounded(ranges@[i]@[j].1 as int),
            1 <= numPoints <= 1_000_000,
            config.wf(),
        ensures
            r.wf(),
            r.spec_ranges() == ranges@.map_values(|v: Vec<(i64, i64)>| v@),
            r.spec_numPoints() == numPoints as int,
            r.spec_config() == config,
            r.spec_name() == problemName@,
    {
        let dims = ranges[0].len();
        let raw = nSpherePointGeneration(numPoints, dims + 1);
        let n = raw.len();
        let mut points: Vec<(Vec<i64>, bool)> = Vec::new();
        let mut i: usize = 0;
        while i < n
            invariant
                n == raw@.len(),
                0 <= i <= n,
                2 <= dims + 1 <= 4,
                forall|t: int| 0 <= t < raw@.len() ==> crate::utils::math_utils::spec_point_ok(
                    (#[trigger] raw@[t])@,
                    dims + 1,
                ),
                points@.len() == i as int,
                forall|t: int| 0 <= t < i ==> (#[trigger] points@[t]).0@.len() == dims as int,
                forall|t: int, j: int|
                    0 <= t < i && 0 <= j < points@[t].0@.len() ==> fx_bounded(
                        (#[trigger] points@[t].0@[j]) as int,
                    ),
                forall|t: int|
                    0 <= t < i ==> (#[trigger] points@[t]).1 == spec_inRange(
                        points@[t].0@,
                        ranges@.map_values(|v: Vec<(i64, i64)>| v@),
                    ),
            decreases n - i,
        {
            let p = &raw[i];
            let polar = cartesianToPolar(p);
            let label = inRange(&polar, &ranges);
            points.push((polar, label));
            i = i + 1;
        }
        SphereDiscreteNAProblem { ranges, points, numPoints, problemName, config }
    }

    /// Preset instance: sphere discrete quarter as the positive region.
    pub fn newQuarter(numPoints: u32, config: NAConfig) -> (r: SphereDiscreteNAProblem)
        requires
            1 <= numPoints <= 1_000_000,
            config.wf(),
        ensures
            r.wf(),
            r.spec_dims() == 1,
            r.spec_numPoints() == numPoints as int,
            r.spec_config() == config,
    {
        let mut ranges: Vec<Vec<(i64, i64)>> = Vec::new();
        let mut row0: Vec<(i64, i64)> = Vec::new();
        row0.push((0, FX_PI_2));
        ranges.push(row0);
        let r = SphereDiscreteNAProblem::new(ranges, numPoints, "Sphere Discrete Quarter".to_string(), config);
        proof {
            assert(r.spec_ranges()[0].len() == 1);
        }
        r
    }

    /// Preset instance: sphere discrete half as the positive region.
    pub fn newHalf(numPoints: u32, config: NAConfig) -> (r: SphereDiscreteNAProblem)
        requires
            1 <= numPoints <= 1_000_000,
            config.wf(),
        ensures
            r.wf(),
            r.spec_dims() == 1,
            r.spec_numPoints() == numPoints as int,
            r.spec_config() == config,
    {
        let mut ranges: Vec<Vec<(i64, i64)>> = Vec::new();
        let mut row0: Vec<(i64, i64)> = Vec::new();
        row0.push((0, FX_PI));
        ranges.push(row0);
        let r = SphereDiscreteNAProblem::new(ranges, numPoints, "Sphere Discrete Half".to_string(), config);
        proof {
            assert(r.spec_ranges()[0].len() == 1);
        }
        r
    }

    /// Preset instance: sphere discrete two quarters as the positive region.
    pub fn newTwoQuarters(numPoints: u32, config: NAConfig) -> (r: SphereDiscreteNAProblem)
        requires
            1 <= numPoints <= 1_000_000,
            config.wf(),
        ensures
            r.wf(),
            r.spec_dims() == 1,
            r.spec_numPoints() == numPoints as int,
            r.spec_config() == config,
    {
        let mut ranges: Vec<Vec<(i64, i64)>> = Vec::new();
        let mut row0: Vec<(i64, i64)> = Vec::new();
        row0.push((0, FX_PI_2));
        ranges.push(row0);
        let mut row1: Vec<(i64, i64)> = Vec::new();
        row1.push((FX_PI, FX_3PI_2));
        ranges.push(row1);
        let r = SphereDiscreteNAProblem::new(ranges, numPoints, "Sphere Discrete Two Quarters".to_string(), config);
        proof {
            assert(r.spec_ranges()[0].len() == 1);
        }
        r
    }

    /// Preset instance: sphere discrete local optima as the positive region.
    pub fn newLocalOpt(numPoints: u32, config: NAConfig) -> (r: SphereDiscreteNAProblem)
        requires
            1 <= numPoints <= 1_000_000,
            config.wf(),
        ensures
            r.wf(),
            r.spec_dims() == 1,
            r.spec_numPoints() == numPoints as int,
            r.spec_config() == config,
    {
        let mut ranges: Vec<Vec<(i64, i64)>> = Vec::new();
        let mut row0: Vec<(i64, i64)> = Vec::new();
        row0.push((0, FX_PI_3));
        ranges.push(row0);
        let mut row1: Vec<(i64, i64)> = Vec::new();
        row1.push((FX_2PI_3, FX_PI));
        ranges.push(row1);
        let mut row2: Vec<(i64, i64)> = Vec::new();
        row2.push((FX_4PI_3, FX_11PI_6));
        ranges.push(row2);
        let r = SphereDiscreteNAProblem::new(ranges, numPoints, "Sphere Discrete Local Optima".to_string(), config);
        proof {
            assert(r.spec_ranges()[0].len() == 1);
        }
        r
    }

    /// Preset instance: sphere 3d corner as the positive region.
    pub fn newCorner3D(numPoints: u32, config: NAConfig) -> (r: SphereDiscreteNAProblem)
        requires
            1 <= numPoints <= 1_000_000,
            config.wf(),
        ensures
            r.wf(),
            r.spec_dims() == 2,
            r.spec_numPoints() == numPoints as int,
            r.spec_config() == config,
    {
        let mut ranges: Vec<Vec<(i64, i64)>> = Vec::new();
        let mut row0: Vec<(i64, i64)> = Vec::new();
        row0.push((0, FX_PI_2));
        row0.push((0, FX_PI_2));
        ranges.push(row0);
        let r = SphereDiscreteNAProblem::new(ranges, numPoints, "Sphere 3D Corner".to_string(), config);
        proof {
            assert(r.spec_ranges()[0].len() == 2);
        }
        r
    }

    /// Preset instance: sphere 3d half as the positive region.
    pub fn newHalf3D(numPoints: u32, config: NAConfig) -> (r: SphereDiscreteNAProblem)
        requires
            1 <= numPoints <= 1_000_000,
            config.wf(),
        ensures
            r.wf(),
            r.spec_dims() == 2,
            r.spec_numPoints() == numPoints as int,
            r.spec_config() == config,
    {
        let mut ranges: Vec<Vec<(i64, i64)>> = Vec::new();
        let mut row0: Vec<(i64, i64)> = Vec::new();
        row0.push((0, FX_PI));
        row0.push((0, FX_PI));
        ranges.push(row0);
        let r = SphereDiscreteNAProblem::new(ranges, numPoints, "Sphere 3D Half".to_string(), config);
        proof {
            assert(r.spec_ranges()[0].len() == 2);
        }
        r
    }

    /// Preset instance: sphere 3d slice as the positive region.
    pub fn newSlice3D(numPoints: u32, config: NAConfig) -> (r: SphereDiscreteNAProblem)
        requires
            1 <= numPoints <= 1_000_000,
            config.wf(),
        ensures
            r.wf(),
            r.spec_dims() == 2,
            r.spec_numPoints() == numPoints as int,
            r.spec_config() == config,
    {
        let mut ranges: Vec<Vec<(i64, i64)>> = Vec::new();
        let mut row0: Vec<(i64, i64)> = Vec::new();
        row0.push((0, FX_PI));
        row0.push((0, FX_PI_2));
        ranges.push(row0);
        let r = SphereDiscreteNAProblem::new(ranges, numPoints, "Sphere 3D Slice".to_string(), config);
        proof {
            assert(r.spec_ranges()[0].len() == 2);
        }
        r
    }

    /// Preset instance: sphere 3d two slices as the positive region.
    pub fn newTwoSlices3D(numPoints: u32, config: NAConfig) -> (r: SphereDiscreteNAProblem)
        requires
            1 <= numPoints <= 1_000_000,
            config.wf(),
        ensures
            r.wf(),
            r.spec_dims() == 2,
            r.spec_numPoints() == numPoints as int,
            r.spec_config() == config,
    {
        let mut ranges: Vec<Vec<(i64, i64)>> = Vec::new();
        let mut row0: Vec<(i64, i64)> = Vec::new();
        row0.push((0, FX_PI_2));
        row0.push((0, FX_PI));
        ranges.push(row0);
        let mut row1: Vec<(i64, i64)> = Vec::new();
        row1.push((FX_PI, FX_3PI_2));
        row1.push((FX_PI, FX_TAU));
        ranges.push(row1);
        let r = SphereDiscreteNAProblem::new(ranges, numPoints, "Sphere 3D Two Slices".to_string(), config);
        proof {
            assert(r.spec_ranges()[0].len() == 2);
        }
        r
    }

    /// Preset instance: sphere 4d quarter as the positive region.
    pub fn newQuarter4D(numPoints: u32, config: NAConfig) -> (r: SphereDiscreteNAProblem)
        requires
            1 <= numPoints <= 1_000_000,
            config.wf(),
        ensures
            r.wf(),
            r.spec_dims() == 3,
            r.spec_numPoints() == numPoints as int,
            r.spec_config() == config,
    {
        let mut ranges: Vec<Vec<(i64, i64)>> = Vec::new();
        let mut row0: Vec<(i64, i64)> = Vec::new();
        row0.push((0, FX_PI));
        row0.push((0, FX_PI));
        row0.push((0, FX_PI));
        ranges.push(row0);
        let r = SphereDiscreteNAProblem::new(ranges, numPoints, "Sphere 4D Quarter".to_string(), config);
        proof {
            assert(r.spec_ranges()[0].len() == 3);
        }
        r
    }

    /// Preset instance: sphere 4d half as the positive region.
    pub fn newHalf4D(numPoints: u32, config: NAConfig) -> (r: SphereDiscreteNAProblem)
        requires
            1 <= numPoints <= 1_000_000,
            config.wf(),
        ensures
            r.wf(),
            r.spec_dims() == 3,
            r.spec_numPoints() == numPoints as int,
            r.spec_config() == config,
    {
        let mut ranges: Vec<Vec<(i64, i64)>> = Vec::new();
        let mut row0: Vec<(i64, i64)> = Vec::new();
        row0.push((0, FX_TAU));
        row0.push((0, FX_PI));
        row0.push((0, FX_PI));
        ranges.push(row0);
        let r = SphereDiscreteNAProblem::new(ranges, numPoints, "Sphere 4D Half".to_string(), config);
        proof {
            assert(r.spec_ranges()[0].len() == 3);
        }
        r
    }

    /// Preset instance: sphere 4d two quarters as the positive region.
    pub fn newTwoQuarters4D(numPoints: u32, config: NAConfig) -> (r: SphereDiscreteNAProblem)
        requires
            1 <= numPoints <= 1_000_000,
            config.wf(),
        ensures
            r.wf(),
            r.spec_dims() == 3,
            r.spec_numPoints() == numPoints as int,
            r.spec_config() == config,
    {
        let mut ranges: Vec<Vec<(i64, i64)>> = Vec::new();
        let mut row0: Vec<(i64, i64)> = Vec::new();
        row0.push((0, FX_PI));
        row0.push((0, FX_PI));
        row0.push((0, FX_PI));
        ranges.push(row0);
        let mut row1: Vec<(i64, i64)> = Vec::new();
        row1.push((FX_PI, FX_TAU));
        row1.push((0, FX_PI));
        row1.push((0, FX_PI));
        ranges.push(row1);
        let r = SphereDiscreteNAProblem::new(ranges, numPoints, "Sphere 4D Two Quarters".to_string(), config);
        proof {
            assert(r.spec_ranges()[0].len() == 3);
        }
        r
    }

    /// The display name of this problem instance.
    pub fn name(&self) -> (r: &String)
        ensures
            r@ == self.spec_name(),
    {
        &self.problemName
    }
}

/// How many of the first `k` stored points the prediction classifies
/// correctly.
pub open spec fn spec_correct_count(p: SphereDiscreteNAProblem, nn: NANN, k: int) -> int
    decreases k,
{
    if k <= 0 {
        0
    } else {
        spec_correct_count(p, nn, k - 1) + if p.spec_point_correct(&nn, p.spec_points()[k - 1]) {
            1int
        } else {
            0int
        }
    }
}

impl NAProblem for SphereDiscreteNAProblem {
    open spec fn wf(&self) -> bool {
        &&& 1 <= self.spec_ranges().len() <= 100
        &&& 1 <= self.spec_dims() <= 3
        &&& forall|i: int| 0 <= i < self.spec_ranges().len() ==> (
        #[trigger] self.spec_ranges()[i]).len() == self.spec_dims()
        &&& forall|i: int, j: int|
            0 <= i < self.spec_ranges().len() && 0 <= j < self.spec_ranges()[i].len()
                ==> fx_bounded((#[trigger] self.spec_ranges()[i][j]).0 as int) && fx_bounded(
                self.spec_ranges()[i][j].1 as int,
            )
        &&& 1 <= self.spec_numPoints() <= 1_000_000
        &&& self.spec_points().len() == self.spec_numPoints()
        &&& forall|t: int| 0 <= t < self.spec_points().len() ==> (
        #[trigger] self.spec_points()[t]).0.len() == self.spec_dims()
        &&& forall|t: int, j: int|
            0 <= t < self.spec_points().len() && 0 <= j < self.spec_points()[t].0.len()
                ==> fx_bounded((#[trigger] self.spec_points()[t].0[j]) as int)
        &&& forall|t: int|
            0 <= t < self.spec_points().len() ==> (#[trigger] self.spec_points()[t]).1
                == spec_inRange(self.spec_points()[t].0, self.spec_ranges())
        &&& self.spec_config().wf()
    }

    open spec fn compatible(&self, nn: &NANN) -> bool {
        &&& nn.in_dim() == 2 * self.spec_dims()
        &&& nn.out_dim() == self.spec_dims() + 1
    }

    open spec fn score_of(&self, nn: &NANN) -> int {
        spec_fx_mul_div(
            spec_correct_count(*self, *nn, self.spec_points().len() as int),
            FX_ONE as int,
            self.spec_numPoints(),
        )
    }

    open spec fn success_of(&self, nn: &NANN) -> bool {
        self.score_of(nn) >= self.spec_config().optimum - self.spec_config().spec_grid()
    }

    open spec fn spec_raw(&self, nn: &NANN) -> Seq<Seq<i64>> {
        Seq::new(self.spec_ranges().len(), |i: int| self.spec_prediction_row(nn, i))
    }

    proof fn compat_shape(&self, a: &NANN, b: &NANN) {
        assert(a.layers@[0].rows() == b.layers@[0].rows());
        assert(a.layers@[a.layers@.len() - 1].cols() == b.layers@[b.layers@.len() - 1].cols());
    }

    fn evaluate(&self, nn: &NANN) -> (r: (bool, i64, Vec<Vec<i64>>)) {
        let nr = self.ranges.len();
        let dims = self.ranges[0].len();
        // One input row per target box.
        let mut inputs: Vec<Vec<i64>> = Vec::new();
        let mut i: usize = 0;
        while i < nr
            invariant
                self.wf(),
                nr == self.spec_ranges().len(),
                dims == self.spec_dims(),
                0 <= i <= nr,
                inputs@.len() == i as int,
                forall|t: int| 0 <= t < i ==> (#[trigger] inputs@[t])@ == self.spec_input_row(t),
                forall|t: int| 0 <= t < i ==> (#[trigger] inputs@[t])@.len() == 2 * dims as int,
                forall|t: int, u: int|
                    0 <= t < i && 0 <= u < inputs@[t]@.len() ==> fx_bounded(
                        (#[trigger] inputs@[t]@[u]) as int,
                    ),
            decreases nr - i,
        {
            let row = &self.ranges[i];
            proof {
                assert(self.spec_ranges()[i as int] == row@);
            }
            let mut flat: Vec<i64> = Vec::new();
            let mut j: usize = 0;
            while j < dims
                invariant
                    self.wf(),
                    0 <= i < nr,
                    nr == self.spec_ranges().len(),
                    dims == self.spec_dims(),
                    row@ == self.ranges@[i as int]@,
                    row@.len() == dims as int,
                    row@ == self.spec_ranges()[i as int],
                    0 <= j <= dims,
                    flat@.len() == 2 * j as int,
                    forall|t: int| 0 <= t < flat@.len() ==> flat@[t] == self.spec_input_row(
                        i as int,
                    )[t],
                    forall|t: int| 0 <= t < flat@.len() ==> fx_bounded(
                        (#[trigger] flat@[t]) as int,
                    ),
                decreases dims - j,
            {
                let (a, b) = row[j];
                proof {
                    assert(self.spec_ranges()[i as int] == row@);
                }
                flat.push(a);
                flat.push(b);
                j = j + 1;
            }
            proof {
                assert(flat@ =~= self.spec_input_row(i as int));
            }
            inputs.push(flat);
            i = i + 1;
        }
        let prediction = nn.forward(&inputs);

        // Reduce each output row into a normal vector plus trailing bias.
        let mut normalVectors: Vec<Vec<i64>> = Vec::new();
        let mut v: usize = 0;
        while v < nr
            invariant
                self.wf(),
                nn.wf(),
                self.compatible(nn),
                nr == self.spec_ranges().len(),
                dims == self.spec_dims(),
                prediction@.len() == nr,
                forall|t: int| 0 <= t < nr ==> (#[trigger] prediction@[t])@
                    == self.spec_prediction_row(nn, t),
                forall|t: int| 0 <= t < nr ==> (#[trigger] prediction@[t])@.len() == dims + 1,
                0 <= v <= nr,
                normalVectors@.len() == v as int,
                forall|t: int| 0 <= t < v ==> (#[trigger] normalVectors@[t])@
                    == self.spec_normal_vector(nn, t),
                forall|t: int| 0 <= t < v ==> (#[trigger] normalVectors@[t])@.len() == dims + 1,
                forall|t: int, u: int|
                    0 <= t < v && 0 <= u < normalVectors@[t]@.len() ==> fx_bounded(
                        (#[trigger] normalVectors@[t]@[u]) as int,
                    ),
            decreases nr - v,
        {
            let row = &prediction[v];
            let m = row.len();
            let mut nv: Vec<i64> = Vec::new();
            let mut j: usize = 0;
            while j < m
                invariant
                    self.wf(),
                    nn.wf(),
                    0 <= v < nr,
                    nr == self.spec_ranges().len(),
                    row@ == self.spec_prediction_row(nn, v as int),
                    m == row@.len(),
                    forall|u: int| 0 <= u < row@.len() ==> fx_bounded(
                        (#[trigger] row@[u]) as int,
                    ),
                    0 <= j <= m,
                    nv@.len() == j as int,
                    forall|t: int| 0 <= t < j ==> nv@[t] == self.spec_normal_vector(
                        nn,
                        v as int,
                    )[t],
                    forall|t: int| 0 <= t < j ==> fx_bounded((#[trigger] nv@[t]) as int),
                decreases m - j,
            {
                let value = row[j];
                if j < m - 1 {
                    nv.push(emod(value, FX_TAU));
                } else {
                    nv.push(ring_sym(value, FX_ONE));
                }
                j = j + 1;
            }
            proof {
                assert(nv@ =~= self.spec_normal_vector(nn, v as int));
            }
            normalVectors.push(nv);
            v = v + 1;
        }

        // Count the points the prediction classifies correctly.
        let np = self.points.len();
        let mut correct: u32 = 0;
        let mut t: usize = 0;
        while t < np
            invariant
                self.wf(),
                nn.wf(),
                self.compatible(nn),
                nr == self.spec_ranges().len(),
                dims == self.spec_dims(),
                np == self.spec_points().len(),
                normalVectors@.len() == nr,
                forall|u: int| 0 <= u < nr ==> (#[trigger] normalVectors@[u])@
                    == self.spec_normal_vector(nn, u),
                forall|u: int| 0 <= u < nr ==> (#[trigger] normalVectors@[u])@.len() == dims + 1,
                forall|u: int, w: int|
                    0 <= u < nr && 0 <= w < normalVectors@[u]@.len() ==> fx_bounded(
                        (#[trigger] normalVectors@[u]@[w]) as int,
                    ),
                0 <= t <= np,
                correct as int == spec_correct_count(*self, *nn, t as int),
                correct <= t as u32,
            decreases np - t,
        {
            let (point, label) = &self.points[t];
            let mut above: bool = false;
            let mut w: usize = 0;
            proof {
                assert(self.spec_points()[t as int] == (point@, *label));
            }
            while w < nr
                invariant
                    self.wf(),
                    nn.wf(),
                    0 <= t < np,
                    np == self.spec_points().len(),
                    nr == self.spec_ranges().len(),
                    dims == self.spec_dims(),
                    point@ == self.spec_points()[t as int].0,
                    normalVectors@.len() == nr,
                    forall|u: int| 0 <= u < nr ==> (#[trigger] normalVectors@[u])@
                        == self.spec_normal_vector(nn, u),
                    forall|u: int| 0 <= u < nr ==> (#[trigger] normalVectors@[u])@.len() == dims
                        + 1,
                    forall|u: int, w2: int|
                        0 <= u < nr && 0 <= w2 < normalVectors@[u]@.len() ==> fx_bounded(
                            (#[trigger] normalVectors@[u]@[w2]) as int,
                        ),
                    0 <= w <= nr,
                    above <==> exists|u: int|
                        0 <= u < w && spec_abovePlane(
                            point@,
                            #[trigger] self.spec_normal_vector(nn, u),
                        ),
                decreases nr - w,
            {
                let isAbove = abovePlane(point, &normalVectors[w]);
                if isAbove {
                    proof {
                        assert(spec_abovePlane(point@, self.spec_normal_vector(nn, w as int)));
                    }
                    above = true;
                    w = nr;
                } else {
                    w = w + 1;
                }
            }
            let pointCorrect = if *label {
                above
            } else {
                !above
            };
            proof {
                assert(pointCorrect == self.spec_point_correct(
                    nn,
                    self.spec_points()[t as int],
                ));
            }
            if pointCorrect {
                correct = correct + 1;
            }
            t = t + 1;
        }
        let score = fx_mul_div(correct as i64, FX_ONE, self.numPoints as i64);
        proof {
            vstd::arithmetic::div_mod::lemma_div_pos_is_pos(
                (correct as int) * (FX_ONE as int),
                self.spec_numPoints(),
            );
            assert((correct as int) * (FX_ONE as int) >= 0) by (nonlinear_arith)
                requires
                    correct as int >= 0,
            ;
        }
        let grid = self.config.grid();
        let success = score >= self.config.optimum - grid;
        proof {
            assert(prediction@.map_values(|v: Vec<i64>| v@) =~= self.spec_raw(nn));
        }
        (success, score, prediction)
    }
}

} // verus!
