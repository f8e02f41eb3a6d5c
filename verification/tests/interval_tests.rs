use na_evolution::fx::{FX_3PI_2, FX_PI, FX_PI_2, FX_PI_3, FX_TAU};
use na_evolution::utils::interval::Interval;

fn assert_canonical(iv: &Interval) {
    let arcs = iv.ranges();
    for (i, a) in arcs.iter().enumerate() {
        assert!(0 <= a.0 && a.0 <= a.1 && a.1 <= FX_TAU);
        for (j, b) in arcs.iter().enumerate() {
            if i != j {
                assert!(a.1 < b.0 || b.1 < a.0, "arcs overlap or touch: {:?} {:?}", a, b);
            }
        }
    }
}

#[test]
fn interval_closure_canonical_arcs() {
    let cases: Vec<Vec<(i64, i64)>> = vec![
        vec![(0, FX_PI_2)],
        vec![(FX_PI, FX_PI_2)],
        vec![(100, 200), (150, 300), (300, 400)],
        vec![(FX_TAU - 5, 5), (0, 0), (17, 17)],
        vec![(-FX_PI, FX_PI), (FX_PI_3, FX_3PI_2)],
        vec![(7_000_000, -7_000_000)],
    ];
    for pairs in cases {
        let iv = Interval::fromVec(pairs);
        assert_canonical(&iv);
    }
}

#[test]
fn union_and_intersection_are_canonical() {
    let a = Interval::fromVec(vec![(0, FX_PI_2), (FX_PI, FX_3PI_2)]);
    let b = Interval::fromVec(vec![(FX_PI_3, FX_PI)]);
    assert_canonical(&a.union(&b));
    assert_canonical(&a.intersection(&b));
    assert_canonical(&a.complement());
}

#[test]
fn de_morgan_measures_agree() {
    let cases: Vec<(Vec<(i64, i64)>, Vec<(i64, i64)>)> = vec![
        (vec![(0, FX_PI_2)], vec![(FX_PI_3, FX_PI)]),
        (vec![(100, 5_000_000)], vec![(2_000_000, 2_500_000), (6_000_000, 6_100_000)]),
        (vec![(FX_PI, FX_PI_2)], vec![(0, FX_TAU - 1)]),
        (vec![(0, 0)], vec![(5, 5)]),
    ];
    for (pa, pb) in cases {
        let a = Interval::fromVec(pa);
        let b = Interval::fromVec(pb);
        let lhs = a.union(&b).complement();
        let rhs = a.complement().intersection(&b.complement());
        assert_eq!(lhs.measure(), rhs.measure());
    }
}

#[test]
fn complement_involution_keeps_measure() {
    let cases: Vec<Vec<(i64, i64)>> = vec![
        vec![(0, FX_PI_2)],
        vec![(1, 2), (4, 8), (1_000_000, 2_000_000)],
        vec![(FX_PI, 17)],
    ];
    for pairs in cases {
        let a = Interval::fromVec(pairs);
        let back = a.complement().complement();
        assert_eq!(a.measure(), back.measure());
    }
}

#[test]
fn full_circle_identity() {
    let cases: Vec<Vec<(i64, i64)>> = vec![
        vec![(0, FX_PI_2)],
        vec![(3, 3)],
        vec![(0, FX_TAU - 1)],
        vec![(1_000, 2_000), (2_500, 2_600), (FX_PI, FX_3PI_2)],
    ];
    for pairs in cases {
        let a = Interval::fromVec(pairs);
        let c = a.complement();
        assert_eq!(a.measure() + c.measure(), FX_TAU);
    }
}

#[test]
fn quarter_complement_totals_three_half_pi() {
    let a = Interval::fromVec(vec![(0, FX_PI_2)]);
    let c = a.complement();
    assert_eq!(c.measure(), FX_3PI_2);
    assert_eq!(c.measure(), FX_TAU - FX_PI_2);
}

#[test]
fn full_circle_arc_has_empty_complement() {
    // A list covering everything but a degenerate point at zero.
    let a = Interval::fromVec(vec![(0, FX_TAU - 1), (FX_TAU - 1, FX_TAU - 1)]);
    assert_eq!(a.complement().measure(), 1);
    let empty = Interval::fromVec(vec![]);
    assert_eq!(empty.complement().measure(), FX_TAU);
}

#[test]
fn dedup_merges_overlapping_and_touching() {
    let mut a = Interval::fromVec(vec![(0, 100), (100, 200), (150, 400)]);
    a.deduplicateRanges();
    assert_canonical(&a);
    assert_eq!(a.measure(), 400);
    assert_eq!(a.ranges().len(), 1);
}

#[test]
fn new_splits_wrapping_range() {
    let a = Interval::new(FX_PI, FX_PI_2);
    let arcs = a.ranges();
    assert_eq!(arcs.len(), 2);
    assert_canonical(&a);
    assert_eq!(a.measure(), FX_PI_2 + (FX_TAU - FX_PI));
}
