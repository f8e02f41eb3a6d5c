use vstd::prelude::*;

use crate::fx::{FX_MAX, FX_ONE, fx_add, fx_bounded, fx_mul, spec_clamp, spec_fx_mul};
use crate::problems::na_problem::NAProblem;
use crate::rng::rand_between;

verus! {

/// The closed set of activation functions a layer can carry. The identity is
/// the one the experiments exercise; the enumeration keeps the function a
/// pure value inside the layer.
#[derive(Clone, Copy)]
pub enum Activation {
    Identity,
}

impl Activation {
    pub open spec fn spec_apply(&self, x: int) -> int {
        x
    }

    pub fn apply(&self, x: i64) -> (r: i64)
        ensures
            r as int == self.spec_apply(x as int),
    {
        x
    }
}

/// One affine layer: a weight matrix stored as rows of inputs by columns of
/// outputs, a bias vector (all zeros when biases are disabled), and the
/// activation applied to each output.
pub struct Layer {
    pub weights: Vec<Vec<i64>>,
    pub biases: Vec<i64>,
    pub activationFunction: Activation,
}

/// The saturating dot product of an input row with one weight column,
/// accumulated left to right over the first `k` inputs.
pub open spec fn spec_dot(w: Seq<Vec<i64>>, input: Seq<i64>, j: int, k: int) -> int
    decreases k,
{
    if k <= 0 {
        0
    } else {
        spec_clamp(spec_dot(w, input, j, k - 1) + spec_fx_mul(input[k - 1] as int, w[k - 1]@[j] as int))
    }
}

/// A quantized initial draw: `k` grid steps of size `1/resolution` stay
/// within a tenth of a unit and on the grid.
proof fn lemma_quantized_draw(k: int, span: int, grid: int, resolution: int)
    requires
        -span <= k <= span,
        0 <= span,
        10 * span <= resolution,
        1 <= grid,
        resolution * grid <= FX_ONE,
    ensures
        -(FX_ONE as int / 10) <= k * grid <= FX_ONE as int / 10,
        (k * grid) % grid == 0,
        -(FX_MAX as int) <= k * grid <= FX_MAX as int,
{
    assert(10 * (k * grid) <= FX_ONE && -(FX_ONE as int) <= 10 * (k * grid)) by (nonlinear_arith)
        requires
            -span <= k <= span,
            0 <= span,
            10 * span <= resolution,
            1 <= grid,
            resolution * grid <= FX_ONE,
    ;
    assert(k * grid <= FX_ONE as int / 10 && -(FX_ONE as int / 10) <= k * grid) by (nonlinear_arith)
        requires
            10 * (k * grid) <= FX_ONE,
            -(FX_ONE as int) <= 10 * (k * grid),
    ;
    vstd::arithmetic::div_mod::lemma_mod_multiples_basic(k, grid);
}

impl Layer {
    pub open spec fn rows(&self) -> int {
        self.weights@.len() as int
    }

    pub open spec fn cols(&self) -> int {
        self.biases@.len() as int
    }

    pub open spec fn wf(&self) -> bool {
        &&& 1 <= self.rows() <= 1000
        &&& 1 <= self.cols() <= 1000
        &&& forall|i: int| 0 <= i < self.rows() ==> (#[trigger] self.weights@[i])@.len()
            == self.cols()
        &&& forall|i: int, j: int|
            0 <= i < self.rows() && 0 <= j < self.cols() ==> fx_bounded(
                (#[trigger] self.weights@[i]@[j]) as int,
            )
        &&& forall|j: int| 0 <= j < self.cols() ==> fx_bounded((#[trigger] self.biases@[j]) as int)
    }

    /// The output the layer assigns to an input row: for each column, the
    /// saturating dot product plus the bias, through the activation.
    pub open spec fn spec_forward(&self, input: Seq<i64>) -> Seq<i64> {
        Seq::new(
            self.cols() as nat,
            |j: int|
                self.activationFunction.spec_apply(
                    spec_clamp(spec_dot(self.weights@, input, j, self.rows()) + self.biases@[j]),
                ) as i64,
        )
    }

    /// Creates a layer with parameters drawn uniformly from a tenth of the
    /// resolution in either direction and quantized to the `1/resolution`
    /// grid; biases start at zero when disabled.
    pub fn new(
        dimInput: usize,
        dimOutput: usize,
        activationFunction: Activation,
        resolutionParameter: u64,
        usingBias: bool,
    ) -> (r: Layer)
        requires
            1 <= dimInput <= 1000,
            1 <= dimOutput <= 1000,
            2 <= resolutionParameter <= 1_000_000,
        ensures
            r.wf(),
            r.rows() == dimInput,
            r.cols() == dimOutput,
            !usingBias ==> forall|j: int| 0 <= j < r.cols() ==> (#[trigger] r.biases@[j]) == 0,
            forall|i: int, j: int|
                0 <= i < r.rows() && 0 <= j < r.cols() ==> -(FX_ONE / 10) <= (
                #[trigger] r.weights@[i]@[j]) <= FX_ONE / 10 && (r.weights@[i]@[j] as int) % (
                FX_ONE as int / resolutionParameter as int) == 0,
            forall|j: int|
                0 <= j < r.cols() ==> -(FX_ONE / 10) <= (#[trigger] r.biases@[j]) <= FX_ONE / 10
                    && (r.biases@[j] as int) % (FX_ONE as int / resolutionParameter as int) == 0,
    {
        let grid: i64 = ((FX_ONE as u64) / resolutionParameter) as i64;
        let span: i64 = (resolutionParameter / 10) as i64;
        proof {
            vstd::arithmetic::div_mod::lemma_div_pos_is_pos(FX_ONE as int, resolutionParameter as int);
            vstd::arithmetic::div_mod::lemma_multiply_divide_le(
                FX_ONE as int,
                resolutionParameter as int,
                FX_ONE as int,
            );
            vstd::arithmetic::div_mod::lemma_div_is_ordered_by_denominator(
                FX_ONE as int,
                resolutionParameter as int,
                1_000_000,
            );
            vstd::arithmetic::div_mod::lemma_div_pos_is_pos(resolutionParameter as int, 10);
            vstd::arithmetic::div_mod::lemma_multiply_divide_le(
                resolutionParameter as int,
                10,
                100_000,
            );
            vstd::arithmetic::div_mod::lemma_fundamental_div_mod(
                FX_ONE as int,
                resolutionParameter as int,
            );
            vstd::arithmetic::div_mod::lemma_fundamental_div_mod(resolutionParameter as int, 10);
        }
        let mut weights: Vec<Vec<i64>> = Vec::new();
        let mut i: usize = 0;
        while i < dimInput
            invariant
                0 <= i <= dimInput,
                1 <= dimOutput <= 1000,
                0 <= span <= 100_000,
                1 <= grid <= FX_ONE,
                weights@.len() == i as int,
                grid == FX_ONE as int / resolutionParameter as int,
                10 * span <= resolutionParameter,
                (resolutionParameter as int) * (grid as int) <= FX_ONE,
                forall|a: int| 0 <= a < i ==> (#[trigger] weights@[a])@.len() == dimOutput,
                forall|a: int, b: int|
                    0 <= a < i && 0 <= b < dimOutput ==> -(FX_ONE / 10) <= (
                    #[trigger] weights@[a]@[b]) <= FX_ONE / 10 && (weights@[a]@[b] as int) % (
                    grid as int) == 0,
            decreases dimInput - i,
        {
            let mut row: Vec<i64> = Vec::new();
            let mut j: usize = 0;
            while j < dimOutput
                invariant
                    0 <= j <= dimOutput,
                    0 <= span <= 100_000,
                    1 <= grid <= FX_ONE,
                    row@.len() == j as int,
                    grid == FX_ONE as int / resolutionParameter as int,
                    10 * span <= resolutionParameter,
                    (resolutionParameter as int) * (grid as int) <= FX_ONE,
                    forall|b: int| 0 <= b < j ==> -(FX_ONE / 10) <= (#[trigger] row@[b]) <= FX_ONE
                        / 10 && (row@[b] as int) % (grid as int) == 0,
                decreases dimOutput - j,
            {
                let k = rand_between(-span, span);
                proof {
                    lemma_quantized_draw(
                        k as int,
                        span as int,
                        grid as int,
                        resolutionParameter as int,
                    );
                }
                row.push(k * grid);
                j = j + 1;
            }
            weights.push(row);
            i = i + 1;
        }
        let mut biases: Vec<i64> = Vec::new();
        let mut j: usize = 0;
        while j < dimOutput
            invariant
                0 <= j <= dimOutput,
                0 <= span <= 100_000,
                1 <= grid <= FX_ONE,
                biases@.len() == j as int,
                grid == FX_ONE as int / resolutionParameter as int,
                10 * span <= resolutionParameter,
                (resolutionParameter as int) * (grid as int) <= FX_ONE,
                forall|b: int| 0 <= b < j ==> -(FX_ONE / 10) <= (#[trigger] biases@[b]) <= FX_ONE
                    / 10 && (biases@[b] as int) % (grid as int) == 0,
                !usingBias ==> forall|b: int| 0 <= b < j ==> (#[trigger] biases@[b]) == 0,
            decreases dimOutput - j,
        {
            if usingBias {
                let k = rand_between(-span, span);
                proof {
                    lemma_quantized_draw(
                        k as int,
                        span as int,
                        grid as int,
                        resolutionParameter as int,
                    );
                }
                biases.push(k * grid);
            } else {
                proof {
                    vstd::arithmetic::div_mod::lemma_small_mod(0, grid as nat);
                }
                biases.push(0);
            }
            j = j + 1;
        }
        Layer { weights, biases, activationFunction }
    }

    pub fn getBiases(&self) -> (r: &Vec<i64>)
        ensures
            r@ == self.biases@,
    {
        &self.biases
    }

    /// Single layer forward pass: the input row against the weight matrix,
    /// plus the bias, through the activation. The input must match the
    /// matrix's row count; the transposed orientation is not offered, since
    /// adding the bias after it only types for square layers.
    pub fn forward(&self, inputs: &Vec<i64>) -> (r: Vec<i64>)
        requires
            self.wf(),
            inputs@.len() == self.rows(),
            forall|t: int| 0 <= t < inputs@.len() ==> fx_bounded(#[trigger] inputs@[t] as int),
        ensures
            r@.len() == self.cols(),
            r@ == self.spec_forward(inputs@),
            forall|t: int| 0 <= t < r@.len() ==> fx_bounded(#[trigger] r@[t] as int),
    {
        let cols = self.biases.len();
        let rows = self.weights.len();
        let mut out: Vec<i64> = Vec::new();
        let mut j: usize = 0;
        while j < cols
            invariant
                self.wf(),
                cols == self.cols(),
                rows == self.rows(),
                inputs@.len() == self.rows(),
                forall|t: int| 0 <= t < inputs@.len() ==> fx_bounded(#[trigger] inputs@[t] as int),
                0 <= j <= cols,
                out@.len() == j as int,
                forall|t: int| 0 <= t < j ==> (#[trigger] out@[t]) == self.spec_forward(
                    inputs@,
                )[t],
                forall|t: int| 0 <= t < j ==> fx_bounded(#[trigger] out@[t] as int),
            decreases cols - j,
        {
            let mut acc: i64 = 0;
            let mut k: usize = 0;
            while k < rows
                invariant
                    self.wf(),
                    rows == self.rows(),
                    inputs@.len() == self.rows(),
                    0 <= j < self.cols(),
                    forall|t: int| 0 <= t < inputs@.len() ==> fx_bounded(
                        #[trigger] inputs@[t] as int,
                    ),
                    0 <= k <= rows,
                    acc as int == spec_dot(self.weights@, inputs@, j as int, k as int),
                    fx_bounded(acc as int),
                decreases rows - k,
            {
                let w = self.weights[k][j];
                acc = fx_add(acc, fx_mul(inputs[k], w));
                k = k + 1;
            }
            let v = self.activationFunction.apply(fx_add(acc, self.biases[j]));
            out.push(v);
            j = j + 1;
        }
        out
    }
}

/// A layered affine network: the genome the evolution strategies evolve.
pub struct NANN {
    pub layers: Vec<Layer>,
    pub usingBias: bool,
}

/// The row a network assigns to an input after its first `k` layers.
pub open spec fn spec_net_to(layers: Seq<Layer>, input: Seq<i64>, k: int) -> Seq<i64>
    decreases k,
{
    if k <= 0 {
        input
    } else {
        layers[k - 1].spec_forward(spec_net_to(layers, input, k - 1))
    }
}

impl NANN {
    pub open spec fn wf(&self) -> bool {
        &&& 1 <= self.layers@.len() <= 100
        &&& forall|i: int| 0 <= i < self.layers@.len() ==> (#[trigger] self.layers@[i]).wf()
        &&& forall|i: int|
            0 <= i && i + 1 < self.layers@.len() ==> (#[trigger] self.layers@[i]).cols()
                == self.layers@[i + 1].rows()
    }

    pub open spec fn spec_usingBias(&self) -> bool {
        self.usingBias
    }

    /// The width of the first layer: what every input row must measure.
    pub open spec fn in_dim(&self) -> int {
        self.layers@[0].rows()
    }

    /// The width of the last layer: what every output row measures.
    pub open spec fn out_dim(&self) -> int {
        self.layers@[self.layers@.len() - 1].cols()
    }

    /// The full forward pass of one row.
    pub open spec fn spec_forward_row(&self, input: Seq<i64>) -> Seq<i64> {
        spec_net_to(self.layers@, input, self.layers@.len() as int)
    }

    /// Creates a network from ordered `(inputSize, outputSize)` pairs;
    /// consecutive layers must have compatible sizes.
    pub fn new(
        layerSizes: Vec<(usize, usize)>,
        activationFunction: Activation,
        resolutionParameter: u64,
        usingBias: bool,
    ) -> (r: NANN)
        requires
            1 <= layerSizes@.len() <= 100,
            forall|i: int|
                0 <= i < layerSizes@.len() ==> 1 <= (#[trigger] layerSizes@[i]).0 <= 1000 && 1
                    <= layerSizes@[i].1 <= 1000,
            forall|i: int|
                0 <= i && i + 1 < layerSizes@.len() ==> (#[trigger] layerSizes@[i]).1
                    == layerSizes@[i + 1].0,
            2 <= resolutionParameter <= 1_000_000,
        ensures
            r.wf(),
            r.layers@.len() == layerSizes@.len(),
            forall|i: int|
                0 <= i < r.layers@.len() ==> (#[trigger] r.layers@[i]).rows() == layerSizes@[i].0
                    && r.layers@[i].cols() == layerSizes@[i].1,
            r.spec_usingBias() == usingBias,
            !usingBias ==> forall|l: int, y: int|
                0 <= l < r.layers@.len() && 0 <= y < r.layers@[l].cols() ==> #[trigger] r.spec_bias(
                    l,
                    y,
                ) == 0,
            params_on_grid(&r, FX_ONE as int / resolutionParameter as int),
            forall|l: int, x: int, y: int|
                0 <= l < r.layers@.len() && 0 <= x < r.layers@[l].rows() && 0 <= y < r.layers@[
                    l].cols() ==> -(FX_ONE / 10) <= #[trigger] r.spec_weight(l, x, y) <= FX_ONE
                    / 10,
            forall|l: int, y: int|
                0 <= l < r.layers@.len() && 0 <= y < r.layers@[l].cols() ==> -(FX_ONE / 10)
                    <= #[trigger] r.spec_bias(l, y) <= FX_ONE / 10,
    {
        let n = layerSizes.len();
        let mut layers: Vec<Layer> = Vec::new();
        let mut i: usize = 0;
        while i < n
            invariant
                n == layerSizes@.len(),
                0 <= i <= n,
                1 <= n <= 100,
                2 <= resolutionParameter <= 1_000_000,
                forall|t: int|
                    0 <= t < layerSizes@.len() ==> 1 <= (#[trigger] layerSizes@[t]).0 <= 1000 && 1
                        <= layerSizes@[t].1 <= 1000,
                layers@.len() == i as int,
                forall|t: int|
                    0 <= t < i ==> (#[trigger] layers@[t]).wf() && layers@[t].rows()
                        == layerSizes@[t].0 && layers@[t].cols() == layerSizes@[t].1,
                !usingBias ==> forall|t: int, y: int|
                    0 <= t < i && 0 <= y < layers@[t].cols() ==> (
                    #[trigger] layers@[t].biases@[y]) == 0,
                forall|t: int, x: int, y: int|
                    0 <= t < i && 0 <= x < layers@[t].rows() && 0 <= y < layers@[t].cols() ==> -(
                    FX_ONE / 10) <= (#[trigger] layers@[t].weights@[x]@[y]) <= FX_ONE / 10 && (
                    layers@[t].weights@[x]@[y] as int) % (
                    FX_ONE as int / resolutionParameter as int) == 0,
                forall|t: int, y: int|
                    0 <= t < i && 0 <= y < layers@[t].cols() ==> -(FX_ONE / 10) <= (
                    #[trigger] layers@[t].biases@[y]) <= FX_ONE / 10 && (
                    layers@[t].biases@[y] as int) % (
                    FX_ONE as int / resolutionParameter as int) == 0,
            decreases n - i,
        {
            let (dimInput, dimOutput) = layerSizes[i];
            let layer = Layer::new(
                dimInput,
                dimOutput,
                activationFunction,
                resolutionParameter,
                usingBias,
            );
            layers.push(layer);
            i = i + 1;
        }
        proof {
            assert forall|t: int| 0 <= t && t + 1 < layers@.len() implies (
            #[trigger] layers@[t]).cols() == layers@[t + 1].rows() by {
                assert(layerSizes@[t].1 == layerSizes@[t + 1].0);
            }
        }
        NANN { layers, usingBias }
    }

    pub fn isUsingBias(&self) -> (r: bool)
        ensures
            r == self.spec_usingBias(),
    {
        self.usingBias
    }

    /// Batched forward pass: one output row per input row, each row fed
    /// through every layer in order.
    pub fn forward(&self, inputs: &Vec<Vec<i64>>) -> (r: Vec<Vec<i64>>)
        requires
            self.wf(),
            forall|i: int| 0 <= i < inputs@.len() ==> (#[trigger] inputs@[i])@.len()
                == self.in_dim(),
            forall|i: int, t: int|
                0 <= i < inputs@.len() && 0 <= t < inputs@[i]@.len() ==> fx_bounded(
                    (#[trigger] inputs@[i]@[t]) as int,
                ),
        ensures
            r@.len() == inputs@.len(),
            forall|i: int| 0 <= i < r@.len() ==> (#[trigger] r@[i])@ == self.spec_forward_row(
                inputs@[i]@,
            ),
            forall|i: int| 0 <= i < r@.len() ==> (#[trigger] r@[i])@.len() == self.out_dim(),
            forall|i: int, t: int|
                0 <= i < r@.len() && 0 <= t < r@[i]@.len() ==> fx_bounded(
                    (#[trigger] r@[i]@[t]) as int,
                ),
    {
        let nl = self.layers.len();
        let mut out: Vec<Vec<i64>> = Vec::new();
        let mut i: usize = 0;
        while i < inputs.len()
            invariant
                self.wf(),
                nl == self.layers@.len(),
                forall|t: int| 0 <= t < inputs@.len() ==> (#[trigger] inputs@[t])@.len()
                    == self.in_dim(),
                forall|a: int, t: int|
                    0 <= a < inputs@.len() && 0 <= t < inputs@[a]@.len() ==> fx_bounded(
                        (#[trigger] inputs@[a]@[t]) as int,
                    ),
                0 <= i <= inputs@.len(),
                out@.len() == i as int,
                forall|a: int| 0 <= a < i ==> (#[trigger] out@[a])@ == self.spec_forward_row(
                    inputs@[a]@,
                ),
                forall|a: int| 0 <= a < i ==> (#[trigger] out@[a])@.len() == self.out_dim(),
                forall|a: int, t: int|
                    0 <= a < i && 0 <= t < out@[a]@.len() ==> fx_bounded(
                        (#[trigger] out@[a]@[t]) as int,
                    ),
            decreases inputs@.len() - i,
        {
            let src = &inputs[i];
            let mut cur: Vec<i64> = Vec::new();
            let mut t: usize = 0;
            while t < src.len()
                invariant
                    0 <= t <= src@.len(),
                    cur@ == src@.take(t as int),
                decreases src@.len() - t,
            {
                let v = src[t];
                cur.push(v);
                proof {
                    assert(cur@ =~= src@.take(t as int + 1));
                }
                t = t + 1;
            }
            proof {
                assert(cur@ =~= src@);
            }
            let mut li: usize = 0;
            while li < nl
                invariant
                    self.wf(),
                    nl == self.layers@.len(),
                    0 <= li <= nl,
                    0 <= i < inputs@.len(),
                    inputs@[i as int]@.len() == self.in_dim(),
                    forall|t2: int| 0 <= t2 < inputs@[i as int]@.len() ==> fx_bounded(
                        (#[trigger] inputs@[i as int]@[t2]) as int,
                    ),
                    cur@ == spec_net_to(self.layers@, inputs@[i as int]@, li as int),
                    forall|t2: int| 0 <= t2 < cur@.len() ==> fx_bounded(
                        #[trigger] cur@[t2] as int,
                    ),
                    cur@.len() == if li == 0 {
                        self.in_dim()
                    } else {
                        self.layers@[li as int - 1].cols()
                    },
                decreases nl - li,
            {
                cur = self.layers[li].forward(&cur);
                li = li + 1;
            }
            out.push(cur);
            i = i + 1;
        }
        out
    }
}

/// Two networks have the same architecture: equally many layers, each with
/// equal dimensions, and the same bias setting.
pub open spec fn same_shape(a: &NANN, b: &NANN) -> bool {
    &&& a.layers@.len() == b.layers@.len()
    &&& forall|i: int|
        0 <= i < a.layers@.len() ==> (#[trigger] a.layers@[i]).rows() == b.layers@[i].rows()
            && a.layers@[i].cols() == b.layers@[i].cols()
    &&& a.spec_usingBias() == b.spec_usingBias()
}

impl NANN {
    /// The weight at a layer and matrix position, for specifications.
    pub open spec fn spec_weight(&self, l: int, x: int, y: int) -> i64 {
        self.layers@[l].weights@[x]@[y]
    }

    /// The bias at a layer and position, for specifications.
    pub open spec fn spec_bias(&self, l: int, y: int) -> i64 {
        self.layers@[l].biases@[y]
    }

    /// All parameters of both networks agree.
    pub open spec fn params_eq(&self, other: &NANN) -> bool {
        &&& same_shape(self, other)
        &&& forall|l: int, x: int, y: int|
            0 <= l < self.layers@.len() && 0 <= x < self.layers@[l].rows() && 0 <= y
                < self.layers@[l].cols() ==> #[trigger] self.spec_weight(l, x, y)
                == other.spec_weight(l, x, y)
        &&& forall|l: int, y: int|
            0 <= l < self.layers@.len() && 0 <= y < self.layers@[l].cols() ==> #[trigger] self.spec_bias(
                l,
                y,
            ) == other.spec_bias(l, y)
    }

    /// A deep value copy: no storage is shared with the original, and every
    /// parameter agrees.
    pub fn cloneNet(&self) -> (r: NANN)
        requires
            self.wf(),
        ensures
            r.wf(),
            same_shape(self, &r),
            self.params_eq(&r),
    {
        let nl = self.layers.len();
        let mut layers: Vec<Layer> = Vec::new();
        let mut i: usize = 0;
        while i < nl
            invariant
                self.wf(),
                nl == self.layers@.len(),
                0 <= i <= nl,
                layers@.len() == i as int,
                forall|t: int|
                    0 <= t < i ==> (#[trigger] layers@[t]).wf() && layers@[t].rows()
                        == self.layers@[t].rows() && layers@[t].cols() == self.layers@[t].cols(),
                forall|t: int, x: int, y: int|
                    0 <= t < i && 0 <= x < layers@[t].rows() && 0 <= y < layers@[t].cols()
                        ==> (#[trigger] layers@[t].weights@[x]@[y]) == self.spec_weight(t, x, y),
                forall|t: int, y: int|
                    0 <= t < i && 0 <= y < layers@[t].cols()
                        ==> (#[trigger] layers@[t].biases@[y]) == self.spec_bias(t, y),
            decreases nl - i,
        {
            let src = &self.layers[i];
            let rows = src.weights.len();
            let mut weights: Vec<Vec<i64>> = Vec::new();
            let mut x: usize = 0;
            while x < rows
                invariant
                    self.wf(),
                    0 <= i < self.layers@.len(),
                    src == self.layers@[i as int],
                    src.wf(),
                    rows == src.rows(),
                    0 <= x <= rows,
                    weights@.len() == x as int,
                    forall|t: int| 0 <= t < x ==> (#[trigger] weights@[t])@ == src.weights@[t]@,
                decreases rows - x,
            {
                let srow = &src.weights[x];
                let mut row: Vec<i64> = Vec::new();
                let mut y: usize = 0;
                while y < srow.len()
                    invariant
                        0 <= y <= srow@.len(),
                        row@ == srow@.take(y as int),
                    decreases srow@.len() - y,
                {
                    let v = srow[y];
                    row.push(v);
                    proof {
                        assert(row@ =~= srow@.take(y as int + 1));
                    }
                    y = y + 1;
                }
                proof {
                    assert(row@ =~= srow@);
                }
                weights.push(row);
                x = x + 1;
            }
            let mut biases: Vec<i64> = Vec::new();
            let mut y: usize = 0;
            while y < src.biases.len()
                invariant
                    0 <= y <= src.biases@.len(),
                    biases@ == src.biases@.take(y as int),
                decreases src.biases@.len() - y,
            {
                let v = src.biases[y];
                biases.push(v);
                proof {
                    assert(biases@ =~= src.biases@.take(y as int + 1));
                }
                y = y + 1;
            }
            proof {
                assert(biases@ =~= src.biases@);
            }
            layers.push(Layer { weights, biases, activationFunction: src.activationFunction });
            i = i + 1;
        }
        NANN { layers, usingBias: self.usingBias }
    }

    /// Replaces one weight; every other parameter is untouched.
    pub fn setWeight(&mut self, l: usize, x: usize, y: usize, v: i64)
        requires
            old(self).wf(),
            l < old(self).layers@.len(),
            x < old(self).layers@[l as int].rows(),
            y < old(self).layers@[l as int].cols(),
            fx_bounded(v as int),
        ensures
            final(self).wf(),
            same_shape(old(self), final(self)),
            final(self).spec_usingBias() == old(self).spec_usingBias(),
            final(self).spec_weight(l as int, x as int, y as int) == v,
            forall|a: int, b: int, c: int|
                0 <= a < final(self).layers@.len() && 0 <= b < final(self).layers@[a].rows() && 0
                    <= c < final(self).layers@[a].cols() && !(a == l && b == x && c == y)
                    ==> #[trigger] final(self).spec_weight(a, b, c) == old(self).spec_weight(
                    a,
                    b,
                    c,
                ),
            forall|a: int, c: int|
                0 <= a < final(self).layers@.len() && 0 <= c < final(self).layers@[a].cols()
                    ==> #[trigger] final(self).spec_bias(a, c) == old(self).spec_bias(a, c),
    {
        let mut layer = self.layers.remove(l);
        let mut row = layer.weights.remove(x);
        row.set(y, v);
        layer.weights.insert(x, row);
        self.layers.insert(l, layer);
        proof {
            assert(self.layers@ =~= old(self).layers@.update(
                l as int,
                self.layers@[l as int],
            ));
            assert(self.layers@[l as int].weights@ =~= old(self).layers@[l as int].weights@.update(
                x as int,
                self.layers@[l as int].weights@[x as int],
            ));
            assert(self.layers@[l as int].weights@[x as int]@ =~= old(self).layers@[
                l as int].weights@[x as int]@.update(y as int, v));
        }
    }

    /// Replaces one bias; every other parameter is untouched.
    pub fn setBias(&mut self, l: usize, y: usize, v: i64)
        requires
            old(self).wf(),
            l < old(self).layers@.len(),
            y < old(self).layers@[l as int].cols(),
            fx_bounded(v as int),
        ensures
            final(self).wf(),
            same_shape(old(self), final(self)),
            final(self).spec_usingBias() == old(self).spec_usingBias(),
            final(self).spec_bias(l as int, y as int) == v,
            forall|a: int, c: int|
                0 <= a < final(self).layers@.len() && 0 <= c < final(self).layers@[a].cols() && !(a
                    == l && c == y) ==> #[trigger] final(self).spec_bias(a, c) == old(
                    self,
                ).spec_bias(a, c),
            forall|a: int, b: int, c: int|
                0 <= a < final(self).layers@.len() && 0 <= b < final(self).layers@[a].rows() && 0
                    <= c < final(self).layers@[a].cols() ==> #[trigger] final(self).spec_weight(
                    a,
                    b,
                    c,
                ) == old(self).spec_weight(a, b, c),
    {
        let mut layer = self.layers.remove(l);
        layer.biases.set(y, v);
        self.layers.insert(l, layer);
        proof {
            assert(self.layers@ =~= old(self).layers@.update(
                l as int,
                self.layers@[l as int],
            ));
            assert(self.layers@[l as int].biases@ =~= old(self).layers@[l as int].biases@.update(
                y as int,
                v,
            ));
        }
    }

    /// The summed output widths of all layers: the network's neuron count,
    /// the denominator of the operators' continuation probability.
    pub fn countNeurons(&self) -> (r: u32)
        requires
            self.wf(),
        ensures
            r as int == spec_neuron_count(self.layers@, self.layers@.len() as int),
            1 <= r <= 100_000,
    {
        let nl = self.layers.len();
        let mut total: u32 = 0;
        let mut i: usize = 0;
        while i < nl
            invariant
                self.wf(),
                nl == self.layers@.len(),
                0 <= i <= nl,
                total as int == spec_neuron_count(self.layers@, i as int),
                total <= 1000 * i as u32,
                i > 0 ==> total >= 1,
            decreases nl - i,
        {
            let c = self.layers[i].biases.len();
            total = total + (c as u32);
            i = i + 1;
        }
        total
    }
}

/// The summed output widths of the first `k` layers.
pub open spec fn spec_neuron_count(layers: Seq<Layer>, k: int) -> int
    decreases k,
{
    if k <= 0 {
        0
    } else {
        spec_neuron_count(layers, k - 1) + layers[k - 1].cols()
    }
}

/// Every parameter of the network is a whole multiple of the grid spacing.
pub open spec fn params_on_grid(nn: &NANN, g: int) -> bool {
    &&& forall|l: int, x: int, y: int|
        0 <= l < nn.layers@.len() && 0 <= x < nn.layers@[l].rows() && 0 <= y
            < nn.layers@[l].cols() ==> #[trigger] nn.spec_weight(l, x, y) as int % g == 0
    &&& forall|l: int, y: int|
        0 <= l < nn.layers@.len() && 0 <= y < nn.layers@[l].cols() ==> #[trigger] nn.spec_bias(
            l,
            y,
        ) as int % g == 0
}

/// The generation budget of a run: one hundred times the resolution times
/// the floor of its binary logarithm, tying experiment cost to the
/// resolution.
pub open spec fn spec_budget(config: crate::config::NAConfig) -> int {
    100 * (config.resolution as int) * crate::fx::spec_ilog2(config.resolution as int)
}

/// One full experiment run: evaluate, track the best score and its
/// generation, stop on success, otherwise replace the genome with the
/// operator's mutation, up to the generation budget. Returns the final
/// generation, the generation of the best score seen, the final score and
/// the final raw output; the score and raw output are those of a genome the
/// run really evaluated, a successful one whenever the run stopped inside
/// the budget.
pub fn run<M: crate::mutation_algorithms::mutation_algorithm::MutationAlgorithm>(
    nn: NANN,
    mutationAlgorithm: M,
    config: crate::config::NAConfig,
) -> (r: (u64, u64, i64, Vec<Vec<i64>>))
    requires
        nn.wf(),
        mutationAlgorithm.wf(),
        mutationAlgorithm.problem_of().wf(),
        mutationAlgorithm.problem_of().compatible(&nn),
        mutationAlgorithm.fits(&nn),
        config.wf(),
    ensures
        1 <= r.0,
        r.1 <= r.0,
        r.0 as int <= spec_budget(config) + 1,
        r.0 as int > spec_budget(config) ==> r.0 as int == spec_budget(config) + 1,
        0 <= r.2,
        exists|g: NANN|
            g.wf() && mutationAlgorithm.problem_of().compatible(&g)
                && r.2 as int == mutationAlgorithm.problem_of().score_of(&g)
                && r.3@.map_values(|v: Vec<i64>| v@) == mutationAlgorithm.problem_of().spec_raw(&g)
                && (r.0 as int <= spec_budget(config)
                ==> mutationAlgorithm.problem_of().success_of(&g)),
{
    let ghost prob0 = mutationAlgorithm.problem_of();
    let mut current = nn;
    let mut alg = mutationAlgorithm;
    let lg = crate::fx::ilog2_floor(config.resolution);
    proof {
        assert(100 * (config.resolution as int) * (lg as int) <= 100 * 1_000_000 * 63
            && 100 * (config.resolution as int) * (lg as int) <= 100 * (
        config.resolution as int) * 63) by (nonlinear_arith)
            requires
                0 <= config.resolution as int <= 1_000_000,
                0 <= lg as int <= 63,
        ;
    }
    proof {
        if lg == 0 {
            vstd::arithmetic::power2::lemma2_to64();
        }
        assert(lg >= 1);
        assert(100 * (config.resolution as int) * (lg as int) >= 1) by (nonlinear_arith)
            requires
                config.resolution as int >= 2,
                lg as int >= 1,
        ;
    }
    let budget: u64 = 100 * config.resolution * lg;
    proof {
        assert(budget as int == spec_budget(config));
    }
    let mut i: u64 = 1;
    let mut maxScoreGeneration: u64 = 0;
    let mut maxScore: i64 = 0;
    let mut score: i64 = 0;
    let mut solution: Vec<Vec<i64>> = Vec::new();
    let mut firstRow: Vec<i64> = Vec::new();
    firstRow.push(0);
    solution.push(firstRow);
    let ghost mut lastEval = current;
    while i <= budget
        invariant
            current.wf(),
            alg.wf(),
            alg.problem_of() == prob0,
            prob0 == mutationAlgorithm.problem_of(),
            prob0.wf(),
            prob0.compatible(&current),
            alg.fits(&current),
            budget as int <= 100 * 1_000_000 * 63,
            budget as int <= 100 * (config.resolution as int) * 63,
            1 <= i <= budget + 1,
            budget >= 1,
            budget as int == spec_budget(config),
            maxScoreGeneration < i,
            0 <= score,
            i > 1 ==> lastEval.wf() && prob0.compatible(&lastEval) && score as int
                == prob0.score_of(&lastEval) && solution@.map_values(|v: Vec<i64>| v@)
                == prob0.spec_raw(&lastEval),
        decreases budget + 1 - i,
    {
        proof {
            lastEval = current;
        }
        let evaluated = alg.getProblem().evaluate(&current);
        let success = evaluated.0;
        score = evaluated.1;
        solution = evaluated.2;
        if score > maxScore {
            maxScore = score;
            maxScoreGeneration = i;
        }
        if success {
            proof {
                assert(current.wf() && mutationAlgorithm.problem_of().compatible(&current)
                    && score as int == mutationAlgorithm.problem_of().score_of(&current)
                    && solution@.map_values(|v: Vec<i64>| v@)
                    == mutationAlgorithm.problem_of().spec_raw(&current)
                    && mutationAlgorithm.problem_of().success_of(&current));
            }
            return (i, maxScoreGeneration, score, solution);
        }
        current = alg.mutate(current, score);
        i = i + 1;
    }
    proof {
        assert(lastEval.wf() && mutationAlgorithm.problem_of().compatible(&lastEval)
            && score as int == mutationAlgorithm.problem_of().score_of(&lastEval)
            && solution@.map_values(|v: Vec<i64>| v@) == mutationAlgorithm.problem_of().spec_raw(
            &lastEval,
        ));
    }
    (i, maxScoreGeneration, score, solution)
}

} // verus!
