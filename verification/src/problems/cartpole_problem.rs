use vstd::prelude::*;

use crate::config::NAConfig;
use crate::fx::{
    FX_MAX, FX_ONE, cos_fx, fx_add, fx_bounded, fx_mul, fx_mul_div, fx_round_unit, sin_fx,
    spec_clamp, spec_cos_fx, spec_fx_mul, spec_fx_mul_div, spec_fx_round_unit, spec_sin_fx,
};
use crate::nn::ann::NANN;
use crate::problems::na_problem::NAProblem;
use crate::rng::{rand_between, seeded_between, seeded_rng};

verus! {

/// Gravity folded into one integration step, in fixed point.
pub const GRAVITY_PER_TIMESTEP: i64 = 327_000;

/// The fixed cart step, in fixed point.
pub const CART_STEP_SIZE: i64 = 600_000;

/// The pole angle at which an episode fails (a sixteenth of a half turn).
pub const POLE_FAIL_ANGLE: i64 = 196_350;

/// The cart position at which an episode fails.
pub const CART_FAIL_POS: i64 = 50_000_000;

/// The closed family of response-shaping functions the simulation can run
/// the genome's raw output through to obtain a cart acceleration.
#[derive(Clone, Copy)]
pub enum ResponseShaping {
    /// The raw output is the acceleration.
    Continuous,
    /// The output scaled by the reciprocal of the rounded cart step.
    DiscretizedContinuous,
    /// Only the output's sign is kept: one fixed cart step either way.
    SingleStep,
    /// The output is read as a whole number of tenths-over-resolution
    /// steps, at least one of them.
    NSteps,
}

impl ResponseShaping {
    pub open spec fn spec_apply(&self, x: int, resolution: int) -> int {
        match self {
            ResponseShaping::Continuous => x,
            ResponseShaping::DiscretizedContinuous => spec_fx_mul_div(
                x,
                FX_ONE as int,
                CART_STEP_SIZE as int,
            ),
            ResponseShaping::SingleStep => if x >= 0 {
                CART_STEP_SIZE as int
            } else {
                -CART_STEP_SIZE as int
            },
            ResponseShaping::NSteps => {
                let base = if -FX_ONE < x < 0 {
                    -FX_ONE as int
                } else if 0 <= x < FX_ONE {
                    FX_ONE as int
                } else {
                    spec_fx_round_unit(x)
                };
                spec_fx_mul_div(base, 10, resolution)
            },
        }
    }

    pub fn apply(&self, x: i64, resolution: u64) -> (r: i64)
        requires
            fx_bounded(x as int),
            2 <= resolution <= 1_000_000,
        ensures
            r as int == self.spec_apply(x as int, resolution as int),
            fx_bounded(r as int),
    {
        match self {
            ResponseShaping::Continuous => x,
            ResponseShaping::DiscretizedContinuous => fx_mul_div(x, FX_ONE, CART_STEP_SIZE),
            ResponseShaping::SingleStep => if x >= 0 {
                CART_STEP_SIZE
            } else {
                -CART_STEP_SIZE
            },
            ResponseShaping::NSteps => {
                let base: i64 = if -FX_ONE < x && x < 0 {
                    -FX_ONE
                } else if 0 <= x && x < FX_ONE {
                    FX_ONE
                } else {
                    fx_round_unit(x)
                };
                fx_mul_div(base, 10, resolution as i64)
            },
        }
    }
}

/// The cart-pole control problem: a deterministic per-instance start state,
/// Euler integration of the pendulum-on-cart motion, and a score counting
/// the ticks the pole stays upright and the cart in bounds, up to nine
/// hundred.
pub struct CartpoleProblem {
    directionFunction: ResponseShaping,
    problemName: String,
    seed: u64,
    cartX0: i64,
    poleAngle0: i64,
    config: NAConfig,
}

impl CartpoleProblem {
    pub closed spec fn spec_shaping(&self) -> ResponseShaping {
        self.directionFunction
    }

    pub closed spec fn spec_config(&self) -> NAConfig {
        self.config
    }

    pub closed spec fn spec_name(&self) -> Seq<char> {
        self.problemName@
    }

    pub closed spec fn spec_seed(&self) -> u64 {
        self.seed
    }

    pub closed spec fn spec_cartX0(&self) -> i64 {
        self.cartX0
    }

    pub closed spec fn spec_poleAngle0(&self) -> i64 {
        self.poleAngle0
    }

    /// One integration tick from a state `(cartX, cartV, poleA, poleW,
    /// poleAcc)`: query the genome, shape its output into an acceleration,
    /// move the cart, then update the pole by the linearized
    /// pendulum-on-cart motion.
    pub open spec fn spec_step(&self, nn: &NANN, s: (i64, i64, i64, i64, i64)) -> (
        (i64, i64, i64, i64, i64),
        i64,
    ) {
        let raw = nn.spec_forward_row(seq![s.2, s.3, s.4, s.0, s.1])[0];
        let acc = self.spec_shaping().spec_apply(
            raw as int,
            self.spec_config().resolution as int,
        ) as i64;
        let cartV = spec_clamp(s.1 + acc) as i64;
        let cartX = spec_clamp(s.0 + cartV) as i64;
        let inner = spec_clamp(
            spec_fx_mul(GRAVITY_PER_TIMESTEP as int, spec_sin_fx(s.2 as int)) + -spec_fx_mul(
                cartV as int,
                spec_cos_fx(s.2 as int),
            ),
        ) as i64;
        let poleAcc = spec_fx_mul_div(inner as int, 3, 35) as i64;
        let poleW = spec_clamp(s.3 + poleAcc) as i64;
        let poleA = spec_clamp(s.2 + poleW) as i64;
        ((cartX, cartV, poleA, poleW, poleAcc), acc)
    }

    /// The state after `k` ticks, from the instance's fixed start state.
    pub open spec fn spec_state_at(&self, nn: &NANN, k: int) -> (i64, i64, i64, i64, i64)
        decreases k,
    {
        if k <= 0 {
            (self.spec_cartX0(), 0i64, self.spec_poleAngle0(), 0i64, 0i64)
        } else {
            self.spec_step(nn, self.spec_state_at(nn, k - 1)).0
        }
    }

    /// The shaped acceleration the simulation applies at tick `k + 1`.
    pub open spec fn spec_accel_at(&self, nn: &NANN, k: int) -> i64 {
        self.spec_step(nn, self.spec_state_at(nn, k)).1
    }

    /// An episode fails when the pole leans too far or the cart leaves its
    /// track.
    pub open spec fn spec_failed(s: (i64, i64, i64, i64, i64)) -> bool {
        ||| (if s.2 >= 0 {
            s.2 as int
        } else {
            -(s.2 as int)
        }) >= POLE_FAIL_ANGLE
        ||| (if s.0 >= 0 {
            s.0 as int
        } else {
            -(s.0 as int)
        }) >= CART_FAIL_POS
    }

    /// The episode's outcome from tick `k` on: whether it survives to nine
    /// hundred ticks, and the tick count it ends with.
    pub open spec fn spec_outcome_from(&self, nn: &NANN, k: int) -> (bool, int)
        decreases 900 - k,
    {
        if k < 0 || k >= 900 {
            (true, 900)
        } else {
            let s = self.spec_state_at(nn, k + 1);
            if Self::spec_failed(s) {
                (false, k + 1)
            } else if k + 1 == 900 {
                (true, 900)
            } else {
                self.spec_outcome_from(nn, k + 1)
            }
        }
    }

    /// Builds a cart-pole instance: the start state is drawn once from a
    /// freshly seeded generator and fixed for the instance's lifetime.
    pub fn new(directionFunction: ResponseShaping, problemName: String, config: NAConfig) -> (r:
        CartpoleProblem)
        requires
            config.wf(),
        ensures
            r.wf(),
            r.spec_shaping() == directionFunction,
            r.spec_config() == config,
            r.spec_name() == problemName@,
    {
        let seed = rand_between(0, 9999) as u64;
        let mut rng = seeded_rng(seed);
        let cartX0 = seeded_between(&mut rng, -5 * FX_ONE, 5 * FX_ONE);
        let poleAngle0 = seeded_between(&mut rng, -10_000, 10_000);
        CartpoleProblem { directionFunction, problemName, seed, cartX0, poleAngle0, config }
    }

    /// The raw output drives the cart directly.
    pub fn default(config: NAConfig) -> (r: CartpoleProblem)
        requires
            config.wf(),
        ensures
            r.wf(),
            r.spec_shaping() == ResponseShaping::Continuous,
            r.spec_config() == config,
    {
        CartpoleProblem::new(ResponseShaping::Continuous, "Cartpole continuous".to_string(), config)
    }

    /// The raw output is discretized to the cart-step grid.
    pub fn newDiscretizedContinuous(config: NAConfig) -> (r: CartpoleProblem)
        requires
            config.wf(),
        ensures
            r.wf(),
            r.spec_shaping() == ResponseShaping::DiscretizedContinuous,
            r.spec_config() == config,
    {
        CartpoleProblem::new(
            ResponseShaping::DiscretizedContinuous,
            "Cartpole discrete".to_string(),
            config,
        )
    }

    /// Only the output's sign moves the cart, one fixed step at a time.
    pub fn newSingleStep(config: NAConfig) -> (r: CartpoleProblem)
        requires
            config.wf(),
        ensures
            r.wf(),
            r.spec_shaping() == ResponseShaping::SingleStep,
            r.spec_config() == config,
    {
        CartpoleProblem::new(ResponseShaping::SingleStep, "Cartpole single step".to_string(), config)
    }

    /// The output is read as a whole number of fixed steps, at least one.
    pub fn newNSteps(config: NAConfig) -> (r: CartpoleProblem)
        requires
            config.wf(),
        ensures
            r.wf(),
            r.spec_shaping() == ResponseShaping::NSteps,
            r.spec_config() == config,
    {
        CartpoleProblem::new(ResponseShaping::NSteps, "Cartpole N Steps".to_string(), config)
    }

    /// The display name of this problem instance.
    pub fn name(&self) -> (r: &String)
        ensures
            r@ == self.spec_name(),
    {
        &self.problemName
    }

    /// The seed the instance's start state was drawn from, kept for
    /// reproducibility records.
    pub fn seed(&self) -> (r: u64)
        ensures
            r == self.spec_seed(),
    {
        self.seed
    }
}

impl NAProblem for CartpoleProblem {
    open spec fn wf(&self) -> bool {
        &&& self.spec_config().wf()
        &&& -5 * FX_ONE <= self.spec_cartX0() <= 5 * FX_ONE
        &&& -10_000 <= self.spec_poleAngle0() <= 10_000
    }

    open spec fn compatible(&self, nn: &NANN) -> bool {
        &&& nn.in_dim() == 5
        &&& nn.out_dim() >= 1
    }

    open spec fn score_of(&self, nn: &NANN) -> int {
        self.spec_outcome_from(nn, 0).1 * FX_ONE
    }

    open spec fn success_of(&self, nn: &NANN) -> bool {
        self.spec_outcome_from(nn, 0).0
    }

    open spec fn spec_raw(&self, nn: &NANN) -> Seq<Seq<i64>> {
        seq![
            Seq::new(
                self.spec_outcome_from(nn, 0).1 as nat,
                |t: int| self.spec_accel_at(nn, t),
            ),
        ]
    }

    proof fn compat_shape(&self, a: &NANN, b: &NANN) {
        assert(a.layers@[0].rows() == b.layers@[0].rows());
        assert(a.layers@[a.layers@.len() - 1].cols() == b.layers@[b.layers@.len() - 1].cols());
    }

    fn evaluate(&self, nn: &NANN) -> (r: (bool, i64, Vec<Vec<i64>>)) {
        let mut cartX: i64 = self.cartX0;
        let mut cartVelocity: i64 = 0;
        let mut poleAngle: i64 = self.poleAngle0;
        let mut poleAngularVelocity: i64 = 0;
        let mut poleAngularAcceleration: i64 = 0;
        let mut timestep: u64 = 0;
        let mut directionHistory: Vec<i64> = Vec::new();
        let resolution = self.config.resolution;

        let mut outcomeSuccess: bool = false;
        let mut outcomeTicks: u64 = 0;
        loop
            invariant_except_break
                self.wf(),
                nn.wf(),
                self.compatible(nn),
                resolution == self.spec_config().resolution,
                0 <= timestep < 900,
                (cartX, cartVelocity, poleAngle, poleAngularVelocity, poleAngularAcceleration)
                    == self.spec_state_at(nn, timestep as int),
                fx_bounded(cartX as int),
                fx_bounded(cartVelocity as int),
                fx_bounded(poleAngle as int),
                fx_bounded(poleAngularVelocity as int),
                fx_bounded(poleAngularAcceleration as int),
                self.spec_outcome_from(nn, timestep as int) == self.spec_outcome_from(nn, 0),
                directionHistory@.len() == timestep as int,
                forall|k: int| 0 <= k < timestep ==> (#[trigger] directionHistory@[k])
                    == self.spec_accel_at(nn, k),
            ensures
                outcomeSuccess == self.spec_outcome_from(nn, 0).0,
                outcomeTicks as int == self.spec_outcome_from(nn, 0).1,
                directionHistory@.len() == outcomeTicks as int,
                forall|k: int| 0 <= k < outcomeTicks ==> (#[trigger] directionHistory@[k])
                    == self.spec_accel_at(nn, k),
                1 <= outcomeTicks <= 900,
            decreases 900 - timestep,
        {
            let mut inputs: Vec<i64> = Vec::new();
            inputs.push(poleAngle);
            inputs.push(poleAngularVelocity);
            inputs.push(poleAngularAcceleration);
            inputs.push(cartX);
            inputs.push(cartVelocity);
            proof {
                assert(inputs@ =~= seq![
                    poleAngle,
                    poleAngularVelocity,
                    poleAngularAcceleration,
                    cartX,
                    cartVelocity,
                ]);
            }
            let mut batch: Vec<Vec<i64>> = Vec::new();
            batch.push(inputs);
            let outRows = nn.forward(&batch);
            let raw = outRows[0][0];
            let acceleration = self.directionFunction.apply(raw, resolution);
            directionHistory.push(acceleration);
            cartVelocity = fx_add(cartVelocity, acceleration);
            cartX = fx_add(cartX, cartVelocity);

            // Linearized pendulum-on-cart motion, integrated by Euler steps.
            let inner = fx_add(
                fx_mul(GRAVITY_PER_TIMESTEP, sin_fx(poleAngle)),
                -fx_mul(cartVelocity, cos_fx(poleAngle)),
            );
            poleAngularAcceleration = fx_mul_div(inner, 3, 35);
            poleAngularVelocity = fx_add(poleAngularVelocity, poleAngularAcceleration);
            poleAngle = fx_add(poleAngle, poleAngularVelocity);
            timestep = timestep + 1;
            proof {
                assert((cartX, cartVelocity, poleAngle, poleAngularVelocity,
                    poleAngularAcceleration) == self.spec_state_at(nn, timestep as int));
            }

            let absAngle: i64 = if poleAngle >= 0 {
                poleAngle
            } else {
                -poleAngle
            };
            let absX: i64 = if cartX >= 0 {
                cartX
            } else {
                -cartX
            };
            if absAngle >= POLE_FAIL_ANGLE || absX >= CART_FAIL_POS {
                outcomeSuccess = false;
                outcomeTicks = timestep;
                break;
            }
            if timestep >= 900 {
                outcomeSuccess = true;
                outcomeTicks = timestep;
                break;
            }
        }
        let score = (outcomeTicks as i64) * FX_ONE;
        let mut solution: Vec<Vec<i64>> = Vec::new();
        solution.push(directionHistory);
        proof {
            assert(solution@[0]@ =~= self.spec_raw(nn)[0]);
            assert(solution@.map_values(|v: Vec<i64>| v@) =~= self.spec_raw(nn));
        }
        (outcomeSuccess, score, solution)
    }
}

} // verus!
