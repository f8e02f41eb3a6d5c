use na_evolution::config::NAConfig;
use na_evolution::fx::{FX_ONE, FX_PI_2};
use na_evolution::mutation_algorithms::gaussian_mutation::GaussianMutation;
use na_evolution::mutation_algorithms::local_one_plus_one_na::LocalOnePlusOneNA;
use na_evolution::mutation_algorithms::mutation_algorithm::MutationAlgorithm;
use na_evolution::mutation_algorithms::one_plus_one_na::OnePlusOneNA;
use na_evolution::mutation_algorithms::sa_local_mutation::SALocalMutation;
use na_evolution::mutation_algorithms::sa_one_plus_one_na::SAOnePlusOneNA;
use na_evolution::nn::ann::{run, Activation, NANN};
use na_evolution::problems::cartpole_problem::{CartpoleProblem, ResponseShaping, CART_STEP_SIZE};
use na_evolution::problems::na_problem::NAProblem;
use na_evolution::problems::sphere_continuous_problem::SphereContinuousNAProblem;
use na_evolution::problems::sphere_discrete_problem::SphereDiscreteNAProblem;

fn config() -> NAConfig {
    NAConfig { resolution: 240, optimum: 900_000 }
}

/// A genome compatible with the single-range continuous problem: two inputs,
/// two outputs.
fn continuous_genome() -> NANN {
    NANN::new(vec![(2, 2)], Activation::Identity, 240, false)
}

#[test]
fn forward_pass_matches_by_hand() {
    // One layer, two inputs, one output, no bias; weight 0.5 on the first
    // input. Feeding [1, 0] must yield exactly 0.5.
    let mut nn = NANN::new(vec![(2, 1)], Activation::Identity, 100, false);
    nn.setWeight(0, 0, 0, FX_ONE / 2);
    nn.setWeight(0, 1, 0, 0);
    let out = nn.forward(&vec![vec![FX_ONE, 0]]);
    assert_eq!(out.len(), 1);
    assert_eq!(out[0], vec![FX_ONE / 2]);
}

#[test]
fn mutation_acceptance_is_monotone_for_every_operator() {
    let cfg = config();
    let nn = continuous_genome();
    let mk_problem = || SphereContinuousNAProblem::newQuarter(cfg);

    let mut harmonic = OnePlusOneNA::new(&nn, mk_problem(), cfg.resolution);
    let mut local = LocalOnePlusOneNA::new(&nn, mk_problem(), cfg.resolution);
    let mut gauss = GaussianMutation::new(mk_problem());
    let mut sa = SAOnePlusOneNA::new(&nn, mk_problem(), cfg.resolution, 1_500_000, 500_000);
    let mut sa_local = SALocalMutation::new(&nn, mk_problem(), cfg.resolution, 1_500_000, 500_000);

    for _ in 0..10 {
        let g = continuous_genome();
        let (_, score, _) = harmonic.getProblem().evaluate(&g);
        let mutated = harmonic.mutate(g, score);
        assert!(harmonic.getProblem().evaluate(&mutated).1 >= score);

        let g = continuous_genome();
        let (_, score, _) = local.getProblem().evaluate(&g);
        let mutated = local.mutate(g, score);
        assert!(local.getProblem().evaluate(&mutated).1 >= score);

        let g = continuous_genome();
        let (_, score, _) = gauss.getProblem().evaluate(&g);
        let mutated = gauss.mutate(g, score);
        assert!(gauss.getProblem().evaluate(&mutated).1 >= score);

        let g = continuous_genome();
        let (_, score, _) = sa.getProblem().evaluate(&g);
        let mutated = sa.mutate(g, score);
        assert!(sa.getProblem().evaluate(&mutated).1 >= score);

        let g = continuous_genome();
        let (_, score, _) = sa_local.getProblem().evaluate(&g);
        let mutated = sa_local.mutate(g, score);
        assert!(sa_local.getProblem().evaluate(&mutated).1 >= score);
    }
}

#[test]
fn step_sizes_never_fall_below_one_unit() {
    let cfg = config();
    let nn = continuous_genome();
    let problem = SphereContinuousNAProblem::newQuarter(cfg);
    // Resolution 240 starts the step sizes at 30 units; every later update
    // is floored at one unit.
    let mut sa = SAOnePlusOneNA::new(&nn, problem, cfg.resolution, 1_500_000, 500_000);
    let mut g = continuous_genome();
    for _ in 0..60 {
        let (_, score, _) = sa.getProblem().evaluate(&g);
        g = sa.mutate(g, score);
        for mat in &sa.weightStepSizes {
            for row in mat {
                for ss in row {
                    assert!(*ss >= FX_ONE, "step size fell to {ss}");
                }
            }
        }
    }
}

#[test]
fn a_mutation_is_eventually_accepted_and_changes_a_parameter() {
    let cfg = config();
    let nn = continuous_genome();
    let problem = SphereContinuousNAProblem::newQuarter(cfg);
    let mut op = LocalOnePlusOneNA::new(&nn, problem, cfg.resolution);
    let mut g = continuous_genome();
    let mut changed = false;
    for _ in 0..200 {
        let (_, score, _) = op.getProblem().evaluate(&g);
        let snapshot: Vec<Vec<Vec<i64>>> =
            g.layers.iter().map(|l| l.weights.clone()).collect();
        let mutated = op.mutate(g, score);
        let after: Vec<Vec<Vec<i64>>> =
            mutated.layers.iter().map(|l| l.weights.clone()).collect();
        if snapshot != after {
            changed = true;
            break;
        }
        g = mutated;
    }
    assert!(changed, "no accepted mutation changed a parameter in 200 tries");
}

#[test]
fn discrete_classification_rewards_a_good_genome() {
    // Target: the first quarter of the circle; one thousand sample points.
    // The genome answers a hyperplane whose normal points at the quarter's
    // middle with no offset: it classifies three quarters of the circle
    // correctly, which clears the configured optimum.
    let cfg = NAConfig { resolution: 100, optimum: 650_000 };
    let problem = SphereDiscreteNAProblem::newQuarter(1000, cfg);
    let mut nn = NANN::new(vec![(2, 2)], Activation::Identity, 100, true);
    for x in 0..2 {
        for y in 0..2 {
            nn.setWeight(0, x, y, 0);
        }
    }
    nn.setBias(0, 0, FX_PI_2 / 2);
    nn.setBias(0, 1, 0);
    let (success, score, _) = problem.evaluate(&nn);
    assert!(score >= 650_000 - 10_000, "score was {score}");
    assert!(success);
}

#[test]
fn cartpole_reports_one_tick_per_history_entry() {
    let cfg = config();
    let problem = CartpoleProblem::newSingleStep(cfg);
    let nn = NANN::new(vec![(5, 1)], Activation::Identity, 240, false);
    let (_, score, history) = problem.evaluate(&nn);
    assert!(score >= FX_ONE);
    assert_eq!(history.len(), 1);
    assert_eq!(history[0].len() as i64, score / FX_ONE);
    assert!(score / FX_ONE <= 900);
}

#[test]
fn run_terminates_within_budget_and_tracks_best_generation() {
    let cfg = NAConfig { resolution: 4, optimum: 990_000 };
    let nn = NANN::new(vec![(2, 2)], Activation::Identity, 4, false);
    let problem = SphereContinuousNAProblem::newHalf(cfg);
    let op = LocalOnePlusOneNA::new(&nn, problem, cfg.resolution);
    let (generation, best_generation, score, _) = run(nn, op, cfg);
    assert!(generation >= 1);
    assert!(best_generation <= generation);
    // Budget is 100 * resolution * log2(resolution) = 800.
    assert!(generation <= 801);
    assert!(score >= 0);
}

#[test]
fn response_shaping_formulas_are_exact() {
    let r = 240;
    assert_eq!(ResponseShaping::Continuous.apply(123_456, r), 123_456);
    // 0.6 scaled by round(0.6)/0.6 = 1/0.6 gives exactly 1.
    assert_eq!(ResponseShaping::DiscretizedContinuous.apply(CART_STEP_SIZE, r), FX_ONE);
    assert_eq!(ResponseShaping::SingleStep.apply(-5, r), -CART_STEP_SIZE);
    assert_eq!(ResponseShaping::SingleStep.apply(0, r), CART_STEP_SIZE);
    // Any output inside (0, 1) counts as one step of 10/resolution.
    assert_eq!(ResponseShaping::NSteps.apply(FX_ONE / 2, r), FX_ONE * 10 / 240);
    assert_eq!(ResponseShaping::NSteps.apply(-FX_ONE / 2, r), -(FX_ONE * 10) / 240 - 1);
    // 2.4 rounds to 2 whole steps.
    assert_eq!(ResponseShaping::NSteps.apply(2_400_000, r), 2 * FX_ONE * 10 / 240);
}

#[test]
fn initial_parameters_sit_on_the_resolution_grid() {
    let resolution = 250;
    let grid = FX_ONE / resolution as i64;
    let nn = NANN::new(vec![(3, 4)], Activation::Identity, resolution, true);
    for layer in &nn.layers {
        for row in &layer.weights {
            for w in row {
                assert_eq!(w.rem_euclid(grid), 0, "weight {w} off the grid");
                assert!(-FX_ONE / 10 <= *w && *w <= FX_ONE / 10);
            }
        }
        for b in &layer.biases {
            assert_eq!(b.rem_euclid(grid), 0);
            assert!(-FX_ONE / 10 <= *b && *b <= FX_ONE / 10);
        }
    }
}

#[test]
fn grid_alignment_survives_grid_step_mutation() {
    let cfg = NAConfig { resolution: 250, optimum: 990_000 };
    let grid = FX_ONE / 250;
    let problem = SphereContinuousNAProblem::newQuarter(cfg);
    let mut op = LocalOnePlusOneNA::new(
        &NANN::new(vec![(2, 2)], Activation::Identity, 250, true),
        problem,
        cfg.resolution,
    );
    let mut g = NANN::new(vec![(2, 2)], Activation::Identity, 250, true);
    for _ in 0..30 {
        let (_, score, _) = op.getProblem().evaluate(&g);
        g = op.mutate(g, score);
        for layer in &g.layers {
            for row in &layer.weights {
                for w in row {
                    assert_eq!(w.rem_euclid(grid), 0, "weight {w} left the grid");
                }
            }
            for b in &layer.biases {
                assert_eq!(b.rem_euclid(grid), 0, "bias {b} left the grid");
            }
        }
    }
}
