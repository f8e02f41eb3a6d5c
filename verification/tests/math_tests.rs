use na_evolution::fx::{
    FX_ONE, FX_PI, FX_PI_2, FX_TAU, acos_fx, atan2_fx, cos_fx, emod, isqrt, ring_sym, sin_fx,
};
use na_evolution::utils::math_utils::{
    cartesianToPolar, harmonicFromUniform, harmonicNumber, harmonicDistribution, inRange,
    nSpherePointGeneration, polarToCartesian, ring,
};

fn close(a: i64, b: i64, tol: i64) -> bool {
    (a - b).abs() <= tol
}

fn norm2(v: &[i64]) -> i64 {
    v.iter().map(|x| (x * x) / FX_ONE).sum()
}

#[test]
fn ring_reduces_into_the_circle() {
    assert_eq!(ring(7_000_000, FX_TAU, false), 7_000_000 - FX_TAU);
    assert_eq!(ring(-FX_PI, FX_TAU, false), FX_TAU - FX_PI);
    assert_eq!(ring(0, FX_TAU, false), 0);
    // Symmetric window: 1.5 reduced into [-1, 1) is -0.5.
    assert_eq!(ring(1_500_000, FX_ONE, true), -500_000);
    assert_eq!(ring(-500_000, FX_ONE, true), -500_000);
}

#[test]
fn emod_is_euclidean() {
    assert_eq!(emod(-1, 10), 9);
    assert_eq!(emod(25, 10), 5);
    assert_eq!(emod(-20, 10), 0);
    let r = ring_sym(3_500_000, FX_ONE);
    assert!(-FX_ONE <= r && r < FX_ONE);
}

#[test]
fn harmonic_number_exact_values() {
    assert_eq!(harmonicNumber(1), FX_ONE);
    assert_eq!(harmonicNumber(2), FX_ONE + FX_ONE / 2);
    assert_eq!(harmonicNumber(4), FX_ONE + 500_000 + 333_333 + 250_000);
}

#[test]
fn harmonic_sampler_inverts_the_cdf() {
    let h2 = harmonicNumber(2);
    // The mass of k = 1 is 1/(1*H(2)) = 2/3.
    assert_eq!(harmonicFromUniform(2, h2, 0), 1);
    assert_eq!(harmonicFromUniform(2, h2, 600_000), 1);
    assert_eq!(harmonicFromUniform(2, h2, 700_000), 2);
    for _ in 0..50 {
        let k = harmonicDistribution(10);
        assert!((1..=10).contains(&k));
    }
}

#[test]
fn isqrt_is_exact() {
    assert_eq!(isqrt(0), 0);
    assert_eq!(isqrt(1), 1);
    assert_eq!(isqrt(35), 5);
    assert_eq!(isqrt(36), 6);
    assert_eq!(isqrt(1_000_000_000_000), 1_000_000);
}

#[test]
fn trig_matches_reference_within_tolerance() {
    let tol = 5_000; // 0.005 of a unit
    for k in -6..=6 {
        let x = k * 500_000;
        let sf = sin_fx(x) as f64 / FX_ONE as f64;
        let cf = cos_fx(x) as f64 / FX_ONE as f64;
        let xr = x as f64 / FX_ONE as f64;
        assert!((sf - xr.sin()).abs() < tol as f64 / FX_ONE as f64, "sin at {x}");
        assert!((cf - xr.cos()).abs() < tol as f64 / FX_ONE as f64, "cos at {x}");
    }
    assert_eq!(sin_fx(0), 0);
    assert!(close(sin_fx(FX_PI_2), FX_ONE, 2_000));
    assert!(close(acos_fx(0), FX_PI_2, 3_000));
    assert!(close(atan2_fx(0, FX_ONE), 0, 2_000));
    assert!(close(atan2_fx(FX_ONE, 0), FX_PI_2, 2_000));
}

#[test]
fn geometry_round_trip_two_dims() {
    let tol = 8_000;
    for k in 0..12 {
        let angle = k * (FX_TAU / 12) + 1_234;
        let p = polarToCartesian(&vec![angle]);
        assert!(close(norm2(&p), FX_ONE, 10_000), "norm^2 was {}", norm2(&p));
        let back = cartesianToPolar(&p);
        let diff = emod(back[0] - angle, FX_TAU);
        assert!(diff < tol || diff > FX_TAU - tol, "angle {angle} came back as {}", back[0]);
    }
}

#[test]
fn geometry_round_trip_three_dims() {
    let tol = 12_000;
    // Azimuth free, inclination strictly inside (0, pi).
    for (az, inc) in [(300_000, 700_000), (2_500_000, 1_400_000), (5_000_000, 2_600_000)] {
        let p = polarToCartesian(&vec![az, inc]);
        assert!(close(norm2(&p), FX_ONE, 10_000), "norm^2 was {}", norm2(&p));
        let back = cartesianToPolar(&p);
        let az_diff = emod(back[0] - az, FX_TAU);
        assert!(az_diff < tol || az_diff > FX_TAU - tol, "azimuth {az} -> {}", back[0]);
        assert!(close(back[1], inc, tol), "inclination {inc} -> {}", back[1]);
    }
}

#[test]
fn geometry_round_trip_four_dims() {
    let tol = 15_000;
    // Azimuth free, inclination inside (0, pi), elevation inside
    // (-pi/2, pi/2).
    for (az, inc, el) in [
        (400_000, 800_000, 300_000),
        (2_700_000, 1_900_000, -600_000),
        (5_500_000, 2_500_000, 1_100_000),
    ] {
        let p = polarToCartesian(&vec![az, inc, el]);
        assert!(close(norm2(&p), FX_ONE, 10_000), "norm^2 was {}", norm2(&p));
        let back = cartesianToPolar(&p);
        let az_diff = emod(back[0] - az, FX_TAU);
        assert!(az_diff < tol || az_diff > FX_TAU - tol, "azimuth {az} -> {}", back[0]);
        assert!(close(back[1], inc, tol), "inclination {inc} -> {}", back[1]);
        assert!(close(back[2], el, tol), "elevation {el} -> {}", back[2]);
    }
}

#[test]
fn sphere_points_are_unit_length() {
    for dims in 2..=4 {
        let pts = nSpherePointGeneration(50, dims);
        assert_eq!(pts.len(), 50);
        for p in &pts {
            assert_eq!(p.len(), dims);
            let norm2: i64 = p.iter().map(|x| (x * x) / FX_ONE).sum();
            assert!(close(norm2, FX_ONE, 20_000), "norm^2 was {norm2}");
        }
    }
}

#[test]
fn in_range_checks_every_coordinate() {
    let ranges = vec![vec![(0, FX_PI_2), (FX_PI_2, FX_PI)]];
    assert!(inRange(&vec![100, FX_PI_2 + 100], &ranges));
    assert!(!inRange(&vec![FX_PI, FX_PI_2 + 100], &ranges));
    assert!(!inRange(&vec![100, 100], &ranges));
    // A second range rescues a point the first rejects.
    let ranges2 = vec![vec![(0, 100)], vec![(FX_PI, FX_PI + 100)]];
    assert!(inRange(&vec![FX_PI + 50], &ranges2));
}

#[test]
fn all_zero_four_dim_point_maps_to_zero_angles() {
    assert_eq!(cartesianToPolar(&vec![0, 0, 0, 0]), vec![0, 0, 0]);
}
