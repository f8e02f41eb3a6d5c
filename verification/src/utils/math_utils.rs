use vstd::prelude::*;

use crate::fx::{
    FX_MAX, FX_ONE, FX_PI, FX_TAU, acos_fx, atan2_fx, cos_fx, emod, fx_add, fx_bounded, fx_mul,
    fx_mul_div, isqrt, ring_sym, sin_fx, spec_acos_fx, spec_atan2_fx, spec_cos_fx, spec_emod,
    spec_fx_mul, spec_fx_mul_div, spec_isqrt, spec_ring_sym, spec_sin_fx,
};
use crate::rng::rand_between;

verus! {

/// Wraparound reduction of a value into a circular domain: into `[0, limit)`
/// normally, or into the symmetric window `[-limit, limit)` when negative
/// results are allowed.
pub fn ring(value: i64, limit: i64, allowNegativeResults: bool) -> (r: i64)
    requires
        0 < limit <= FX_MAX,
        fx_bounded(value as int),
    ensures
        !allowNegativeResults ==> r == spec_emod(value as int, limit as int) && 0 <= r < limit,
        allowNegativeResults ==> r == spec_ring_sym(value as int, limit as int) && -limit <= r
            < limit,
{
    if allowNegativeResults {
        ring_sym(value, limit)
    } else {
        emod(value, limit)
    }
}

/// The n-th harmonic number in fixed point: the sum of `1/i` for `i` up to
/// `n`, each term rounded down to the grid.
pub open spec fn spec_harmonic(n: int) -> int
    decreases n,
{
    if n <= 0 {
        0
    } else {
        spec_harmonic(n - 1) + (FX_ONE as int) / n
    }
}

pub fn harmonicNumber(n: u64) -> (r: i64)
    requires
        1 <= n <= 1_000_000,
    ensures
        r == spec_harmonic(n as int),
        FX_ONE <= r <= FX_ONE * (n as i64),
{
    let mut sum: u64 = 0;
    let mut i: u64 = 1;
    while i <= n
        invariant
            1 <= i <= n + 1,
            n <= 1_000_000,
            sum == spec_harmonic(i as int - 1),
            sum <= FX_ONE * (i - 1),
            i > 1 ==> sum >= FX_ONE,
        decreases n + 1 - i,
    {
        let term: u64 = (FX_ONE as u64) / i;
        proof {
            vstd::arithmetic::div_mod::lemma_div_pos_is_pos(FX_ONE as int, i as int);
            vstd::arithmetic::div_mod::lemma_div_is_ordered_by_denominator(
                FX_ONE as int,
                1,
                i as int,
            );
        }
        sum = sum + term;
        i = i + 1;
    }
    sum as i64
}

/// The fixed-point cumulative mass of the harmonic distribution: the sum of
/// `1/(k*H)` for `k` up to the argument, where `H` is the harmonic number of
/// the resolution, both in fixed point.
pub open spec fn spec_harmonic_cdf(h: int, k: int) -> int
    decreases k,
{
    if k <= 0 {
        0
    } else {
        spec_harmonic_cdf(h, k - 1) + ((FX_ONE as int) * (FX_ONE as int)) / (k * h)
    }
}

/// The deterministic half of the harmonic sampler: the smallest `k >= 1`
/// whose cumulative mass reaches the uniform draw `u`, capped at the
/// resolution.
pub fn harmonicFromUniform(resolution: u64, h: i64, u: i64) -> (r: u64)
    requires
        1 <= resolution <= 1_000_000,
        FX_ONE <= h <= FX_ONE * 1_000_000,
        0 <= u < FX_ONE,
    ensures
        1 <= r <= resolution,
        r < resolution ==> spec_harmonic_cdf(h as int, r as int) >= u,
        forall|k: int| 1 <= k < r ==> spec_harmonic_cdf(h as int, k) < u,
{
    let mut k: u64 = 1;
    let mut acc: u64 = 0;
    loop
        invariant
            1 <= k <= resolution,
            resolution <= 1_000_000,
            FX_ONE <= h <= FX_ONE * 1_000_000,
            0 <= u < FX_ONE,
            acc == spec_harmonic_cdf(h as int, k as int - 1),
            acc <= FX_ONE * (k - 1),
            forall|j: int| 1 <= j < k ==> spec_harmonic_cdf(h as int, j) < u,
        decreases resolution - k,
    {
        proof {
            assert(1 <= (k as int) * (h as int) && (k as int) * (h as int)
                <= 1_000_000_000_000_000_000 && (FX_ONE as int) * (FX_ONE as int) <= (
            (k as int) * (h as int)) * (FX_ONE as int)) by (nonlinear_arith)
                requires
                    1 <= k as int <= 1_000_000,
                    FX_ONE as int <= h as int <= 1_000_000_000_000,
                    FX_ONE as int == 1_000_000,
            ;
        }
        let den: u128 = (k as u128) * (h as u128);
        let term128: u128 = ((FX_ONE as u128) * (FX_ONE as u128)) / den;
        proof {
            vstd::arithmetic::div_mod::lemma_multiply_divide_le(
                (FX_ONE as int) * (FX_ONE as int),
                (k as int) * (h as int),
                FX_ONE as int,
            );
            vstd::arithmetic::div_mod::lemma_div_pos_is_pos(
                (FX_ONE as int) * (FX_ONE as int),
                (k as int) * (h as int),
            );
        }
        let term: u64 = term128 as u64;
        acc = acc + term;
        if acc >= (u as u64) {
            return k;
        }
        if k == resolution {
            return k;
        }
        k = k + 1;
    }
}

/// One harmonic-distribution draw: a value in `[1, resolution]` with mass
/// proportional to `1/k`, sampled by inverting the cumulative mass at a
/// uniform fixed-point draw.
pub fn harmonicDistribution(resolution: u64) -> (r: u64)
    requires
        1 <= resolution <= 1_000_000,
    ensures
        1 <= r <= resolution,
{
    let h = harmonicNumber(resolution);
    let u = rand_between(0, FX_ONE - 1);
    harmonicFromUniform(resolution, h, u)
}

/// Whether a polar point lies inside one of the polar boxes: inside some
/// row, every coordinate, reduced into one turn, falls within that row's
/// matching closed range. Coordinates beyond a row's length are
/// unconstrained.
pub open spec fn spec_range_matches(point: Seq<i64>, range: Seq<(i64, i64)>) -> bool {
    forall|j: int|
        0 <= j < point.len() && j < range.len() ==> {
            let p = spec_emod(point[j] as int, FX_TAU as int);
            (#[trigger] range[j]).0 <= p <= range[j].1
        }
}

pub open spec fn spec_inRange(point: Seq<i64>, ranges: Seq<Seq<(i64, i64)>>) -> bool {
    exists|i: int| 0 <= i < ranges.len() && spec_range_matches(point, #[trigger] ranges[i])
}

/// Whether a polar point falls inside any of the given polar ranges.
pub fn inRange(point: &Vec<i64>, ranges: &Vec<Vec<(i64, i64)>>) -> (r: bool)
    requires
        forall|j: int| 0 <= j < point@.len() ==> fx_bounded(#[trigger] point@[j] as int),
    ensures
        r == spec_inRange(point@, ranges@.map_values(|v: Vec<(i64, i64)>| v@)),
{
    let ghost rsview = ranges@.map_values(|v: Vec<(i64, i64)>| v@);
    let n = ranges.len();
    let mut i: usize = 0;
    while i < n
        invariant
            n == ranges@.len(),
            0 <= i <= n,
            rsview == ranges@.map_values(|v: Vec<(i64, i64)>| v@),
            forall|j: int| 0 <= j < point@.len() ==> fx_bounded(#[trigger] point@[j] as int),
            forall|t: int| 0 <= t < i ==> !spec_range_matches(point@, #[trigger] rsview[t]),
        decreases n - i,
    {
        let row = &ranges[i];
        let m = if point.len() < row.len() {
            point.len()
        } else {
            row.len()
        };
        let mut j: usize = 0;
        let mut all: bool = true;
        while j < m
            invariant
                m <= point@.len(),
                m <= row@.len(),
                m == if point@.len() < row@.len() {
                    point@.len() as int
                } else {
                    row@.len() as int
                },
                0 <= j <= m,
                forall|t: int| 0 <= t < point@.len() ==> fx_bounded(#[trigger] point@[t] as int),
                all <==> (forall|t: int|
                    0 <= t < j ==> {
                        let p = spec_emod(point@[t] as int, FX_TAU as int);
                        (#[trigger] row@[t]).0 <= p <= row@[t].1
                    }),
            decreases m - j,
        {
            let p = emod(point[j], FX_TAU);
            if !(row[j].0 <= p && p <= row[j].1) {
                all = false;
                proof {
                    assert(!({
                        let q = spec_emod(point@[j as int] as int, FX_TAU as int);
                        row@[j as int].0 <= q <= row@[j as int].1
                    }));
                }
                j = m;
            } else {
                j = j + 1;
            }
        }
        proof {
            assert(rsview[i as int] == row@);
        }
        if all {
            proof {
                assert(spec_range_matches(point@, rsview[i as int]));
            }
            return true;
        }
        proof {
            if spec_range_matches(point@, rsview[i as int]) {
                assert(false);
            }
        }
        i = i + 1;
    }
    false
}

/// The Cartesian unit vector of a tuple of polar angles, in fixed point,
/// mirroring the executable conversion: two, three or four coordinates from
/// one, two or three angles. In four dimensions the angles are read as the
/// azimuth, the inclination from the third axis, and the elevation toward
/// the fourth axis, inverting the polar conversion; the vector's length is
/// one up to the accuracy of the rational sine and cosine.
pub open spec fn spec_polarToCartesian(p: Seq<i64>) -> Seq<int>
    recommends
        1 <= p.len() <= 3,
{
    if p.len() == 1 {
        seq![spec_cos_fx(p[0] as int), spec_sin_fx(p[0] as int)]
    } else if p.len() == 2 {
        // The first stored angle is the azimuth, the second the inclination.
        seq![
            spec_fx_mul(spec_sin_fx(p[1] as int), spec_cos_fx(p[0] as int)),
            spec_fx_mul(spec_sin_fx(p[1] as int), spec_sin_fx(p[0] as int)),
            spec_cos_fx(p[1] as int),
        ]
    } else {
        seq![
            spec_fx_mul(spec_fx_mul(spec_cos_fx(p[0] as int), spec_sin_fx(p[1] as int)), spec_cos_fx(p[2] as int)),
            spec_fx_mul(spec_fx_mul(spec_sin_fx(p[0] as int), spec_sin_fx(p[1] as int)), spec_cos_fx(p[2] as int)),
            spec_cos_fx(p[1] as int),
            spec_fx_mul(spec_sin_fx(p[1] as int), spec_sin_fx(p[2] as int)),
        ]
    }
}

/// Converts a tuple of polar angles to a Cartesian point of unit length.
/// Supports two to four dimensions.
pub fn polarToCartesian(point: &Vec<i64>) -> (r: Vec<i64>)
    requires
        1 <= point@.len() <= 3,
        forall|j: int| 0 <= j < point@.len() ==> fx_bounded(#[trigger] point@[j] as int),
    ensures
        r@.len() == point@.len() + 1,
        forall|j: int| 0 <= j < r@.len() ==> (#[trigger] r@[j]) as int == spec_polarToCartesian(
            point@,
        )[j],
        forall|j: int| 0 <= j < r@.len() ==> -FX_ONE <= (#[trigger] r@[j]) <= FX_ONE,
{
    let mut r: Vec<i64> = Vec::new();
    if point.len() == 1 {
        let a1 = point[0];
        r.push(cos_fx(a1));
        r.push(sin_fx(a1));
    } else if point.len() == 2 {
        let a2 = point[0];
        let a1 = point[1];
        let s1 = sin_fx(a1);
        let c1 = cos_fx(a1);
        let s2 = sin_fx(a2);
        let c2 = cos_fx(a2);
        r.push(fx_mul(s1, c2));
        r.push(fx_mul(s1, s2));
        r.push(c1);
        proof {
            lemma_fx_mul_unit(s1 as int, c2 as int);
            lemma_fx_mul_unit(s1 as int, s2 as int);
        }
    } else {
        let a1 = point[0];
        let a2 = point[1];
        let a3 = point[2];
        let s1 = sin_fx(a1);
        let c1 = cos_fx(a1);
        let s2 = sin_fx(a2);
        let c2 = cos_fx(a2);
        let s3 = sin_fx(a3);
        let c3 = cos_fx(a3);
        let m1 = fx_mul(c1, s2);
        let m2 = fx_mul(s1, s2);
        proof {
            lemma_fx_mul_unit(c1 as int, s2 as int);
            lemma_fx_mul_unit(s1 as int, s2 as int);
        }
        r.push(fx_mul(m1, c3));
        r.push(fx_mul(m2, c3));
        r.push(c2);
        r.push(fx_mul(s2, s3));
        proof {
            lemma_fx_mul_unit(m1 as int, c3 as int);
            lemma_fx_mul_unit(m2 as int, c3 as int);
            lemma_fx_mul_unit(s2 as int, s3 as int);
        }
    }
    r
}

/// The product of two values of at most unit magnitude keeps unit magnitude.
proof fn lemma_fx_mul_unit(a: int, b: int)
    requires
        -FX_ONE <= a <= FX_ONE,
        -FX_ONE <= b <= FX_ONE,
    ensures
        -FX_ONE <= spec_fx_mul(a, b) <= FX_ONE,
{
    assert(-((FX_ONE as int) * (FX_ONE as int)) <= a * b && a * b <= (FX_ONE as int) * (
    FX_ONE as int)) by (nonlinear_arith)
        requires
            -FX_ONE <= a <= FX_ONE,
            -FX_ONE <= b <= FX_ONE,
    ;
    vstd::arithmetic::div_mod::lemma_div_is_ordered(
        a * b,
        (FX_ONE as int) * (FX_ONE as int),
        FX_ONE as int,
    );
    vstd::arithmetic::div_mod::lemma_div_is_ordered(
        -((FX_ONE as int) * (FX_ONE as int)),
        a * b,
        FX_ONE as int,
    );
    assert(((FX_ONE as int) * (FX_ONE as int)) / (FX_ONE as int) == FX_ONE as int)
        by (nonlinear_arith);
    assert((-((FX_ONE as int) * (FX_ONE as int))) / (FX_ONE as int) == -(FX_ONE as int))
        by (nonlinear_arith);
}

/// The tuple of polar angles of a Cartesian point, mirroring the executable
/// conversion for two to four dimensions. The all-zero four-dimensional
/// point maps to all-zero angles by definition.
pub open spec fn spec_cartesianToPolar(p: Seq<i64>) -> Seq<int>
    recommends
        2 <= p.len() <= 4,
{
    if p.len() == 2 {
        seq![spec_atan2_fx(p[1] as int, p[0] as int)]
    } else if p.len() == 3 {
        seq![
            spec_atan2_fx(p[1] as int, p[0] as int),
            spec_atan2_fx(
                spec_isqrt((p[0] as int) * (p[0] as int) + (p[1] as int) * (p[1] as int)),
                p[2] as int,
            ),
        ]
    } else {
        if p[0] == 0 && p[1] == 0 && p[2] == 0 && p[3] == 0 {
            seq![0, 0, 0]
        } else {
            let norm = spec_isqrt(
                (p[0] as int) * (p[0] as int) + (p[1] as int) * (p[1] as int) + (p[2] as int) * (
                p[2] as int) + (p[3] as int) * (p[3] as int),
            );
            seq![
                spec_atan2_fx(p[1] as int, p[0] as int),
                spec_acos_fx(spec_fx_mul_div(p[2] as int, FX_ONE as int, norm)),
                spec_atan2_fx(
                    p[3] as int,
                    spec_isqrt((p[0] as int) * (p[0] as int) + (p[1] as int) * (p[1] as int)),
                ),
            ]
        }
    }
}

/// Converts a Cartesian point on the unit sphere to its polar angles.
/// Supports two to four dimensions; anything else is rejected by contract.
pub fn cartesianToPolar(point: &Vec<i64>) -> (r: Vec<i64>)
    requires
        2 <= point@.len() <= 4,
        forall|j: int| 0 <= j < point@.len() ==> -2 * FX_ONE <= (#[trigger] point@[j]) <= 2
            * FX_ONE,
    ensures
        r@.len() == point@.len() - 1,
        forall|j: int| 0 <= j < r@.len() ==> (#[trigger] r@[j]) as int == spec_cartesianToPolar(
            point@,
        )[j],
        forall|j: int| 0 <= j < r@.len() ==> -FX_PI <= (#[trigger] r@[j]) <= FX_PI,
{
    let mut r: Vec<i64> = Vec::new();
    if point.len() == 2 {
        r.push(atan2_fx(point[1], point[0]));
    } else if point.len() == 3 {
        let x1 = point[0];
        let x2 = point[1];
        proof {
            lemma_square_sum_bound(x1 as int, x2 as int, 0, 0);
        }
        let ss: u64 = ((x1 * x1) + (x2 * x2)) as u64;
        let planar = isqrt(ss);
        proof {
            assert(planar as int <= 3_000_000) by (nonlinear_arith)
                requires
                    (planar as int) * (planar as int) <= ss as int,
                    ss as int <= 8_000_000_000_000,
                    planar as int >= 0,
            ;
        }
        r.push(atan2_fx(x2, x1));
        r.push(atan2_fx(planar as i64, point[2]));
    } else {
        let x1 = point[0];
        let x2 = point[1];
        let x3 = point[2];
        let x4 = point[3];
        if x1 == 0 && x2 == 0 && x3 == 0 && x4 == 0 {
            r.push(0);
            r.push(0);
            r.push(0);
        } else {
            proof {
                lemma_square_sum_bound(x1 as int, x2 as int, x3 as int, x4 as int);
            }
            proof {
                if x1 != 0 {
                    assert((x1 as int) * (x1 as int) >= 1) by (nonlinear_arith)
                        requires
                            x1 as int != 0,
                    ;
                } else if x2 != 0 {
                    assert((x2 as int) * (x2 as int) >= 1) by (nonlinear_arith)
                        requires
                            x2 as int != 0,
                    ;
                } else if x3 != 0 {
                    assert((x3 as int) * (x3 as int) >= 1) by (nonlinear_arith)
                        requires
                            x3 as int != 0,
                    ;
                } else {
                    assert((x4 as int) * (x4 as int) >= 1) by (nonlinear_arith)
                        requires
                            x4 as int != 0,
                    ;
                }
            }
            let ss: u64 = ((x1 * x1) + (x2 * x2) + (x3 * x3) + (x4 * x4)) as u64;
            let norm = isqrt(ss);
            proof {
                assert(norm as int >= 1) by (nonlinear_arith)
                    requires
                        (norm as int + 1) * (norm as int + 1) > ss as int,
                        ss as int >= 1,
                        norm as int >= 0,
                ;
                assert(norm as int <= 13_000_000) by (nonlinear_arith)
                    requires
                        (norm as int) * (norm as int) <= ss as int,
                        ss as int <= 16_000_000_000_000,
                        norm as int >= 0,
                ;
                assert(-(norm as int) <= x3 as int <= norm as int) by (nonlinear_arith)
                    requires
                        (norm as int + 1) * (norm as int + 1) > ss as int,
                        ss as int >= (x3 as int) * (x3 as int),
                        norm as int >= 0,
                ;
            }
            let arg = fx_mul_div(x3, FX_ONE, norm as i64);
            proof {
                lemma_ratio_unit(x3 as int, norm as int);
            }
            let ss2: u64 = ((x1 * x1) + (x2 * x2)) as u64;
            let planar = isqrt(ss2);
            proof {
                assert(planar as int <= 3_000_000) by (nonlinear_arith)
                    requires
                        (planar as int) * (planar as int) <= ss2 as int,
                        ss2 as int <= 8_000_000_000_000,
                        planar as int >= 0,
                ;
            }
            r.push(atan2_fx(x2, x1));
            r.push(acos_fx(arg));
            r.push(atan2_fx(x4, planar as i64));
        }
    }
    r
}

/// Squares of coordinates within twice the unit stay comfortably inside the
/// square-root routine's domain.
proof fn lemma_square_sum_bound(a: int, b: int, c: int, d: int)
    requires
        -2 * FX_ONE <= a <= 2 * FX_ONE,
        -2 * FX_ONE <= b <= 2 * FX_ONE,
        -2 * FX_ONE <= c <= 2 * FX_ONE,
        -2 * FX_ONE <= d <= 2 * FX_ONE,
    ensures
        0 <= a * a <= 4_000_000_000_000,
        0 <= b * b <= 4_000_000_000_000,
        0 <= c * c <= 4_000_000_000_000,
        0 <= d * d <= 4_000_000_000_000,
{
    assert(0 <= a * a <= 4_000_000_000_000 && 0 <= b * b <= 4_000_000_000_000 && 0 <= c * c
        <= 4_000_000_000_000 && 0 <= d * d <= 4_000_000_000_000) by (nonlinear_arith)
        requires
            -2_000_000 <= a <= 2_000_000,
            -2_000_000 <= b <= 2_000_000,
            -2_000_000 <= c <= 2_000_000,
            -2_000_000 <= d <= 2_000_000,
    ;
}

/// A value no larger in magnitude than the divisor scales to at most one
/// unit under the fixed-point quotient.
proof fn lemma_ratio_unit(g: int, norm: int)
    requires
        1 <= norm,
        -norm <= g <= norm,
    ensures
        -FX_ONE <= spec_fx_mul_div(g, FX_ONE as int, norm) <= FX_ONE,
{
    assert(g * (FX_ONE as int) <= norm * (FX_ONE as int) && -(norm * (FX_ONE as int)) <= g * (
    FX_ONE as int)) by (nonlinear_arith)
        requires
            -norm <= g <= norm,
    ;
    vstd::arithmetic::div_mod::lemma_multiply_divide_le(g * (FX_ONE as int), norm, FX_ONE as int);
    vstd::arithmetic::div_mod::lemma_div_is_ordered(
        -(norm * (FX_ONE as int)),
        g * (FX_ONE as int),
        norm,
    );
    vstd::arithmetic::div_mod::lemma_div_multiples_vanish(-(FX_ONE as int), norm);
}

/// The saturating accumulation of the shifted dot product used by the plane
/// test: each step adds `n_k * (c_k - bias * n_k)`.
pub open spec fn spec_plane_acc(n: Seq<int>, c: Seq<int>, bias: int, k: int) -> int
    decreases k,
{
    if k <= 0 {
        0
    } else {
        crate::fx::spec_clamp(
            spec_plane_acc(n, c, bias, k - 1) + spec_fx_mul(
                n[k - 1],
                crate::fx::spec_clamp(c[k - 1] + -spec_fx_mul(n[k - 1], bias)),
            ),
        )
    }
}

/// Whether a polar point lies on the positive side of the hyperplane whose
/// normal is given as polar angles followed by a trailing bias scalar.
pub open spec fn spec_abovePlane(point: Seq<i64>, normalVector: Seq<i64>) -> bool {
    let n = spec_polarToCartesian(normalVector.take(normalVector.len() - 1));
    let c = spec_polarToCartesian(point);
    spec_plane_acc(n, c, normalVector.last() as int, n.len() as int) >= 0
}

/// Classifies a polar point against a hyperplane in polar form: the normal's
/// angles are converted to a unit Cartesian normal `n`, the point to a
/// Cartesian point `p`, and the point counts as above when
/// `n . (p - bias*n) >= 0`.
pub fn abovePlane(point: &Vec<i64>, normalVector: &Vec<i64>) -> (r: bool)
    requires
        point@.len() + 1 == normalVector@.len(),
        2 <= normalVector@.len() <= 4,
        forall|j: int| 0 <= j < point@.len() ==> fx_bounded(#[trigger] point@[j] as int),
        forall|j: int| 0 <= j < normalVector@.len() ==> fx_bounded(
            #[trigger] normalVector@[j] as int,
        ),
    ensures
        r == spec_abovePlane(point@, normalVector@),
{
    let mut angles: Vec<i64> = Vec::new();
    let mut t: usize = 0;
    let alen = normalVector.len() - 1;
    while t < alen
        invariant
            alen == normalVector@.len() - 1,
            0 <= t <= alen,
            angles@ == normalVector@.take(t as int),
            forall|j: int| 0 <= j < normalVector@.len() ==> fx_bounded(
                #[trigger] normalVector@[j] as int,
            ),
        decreases alen - t,
    {
        let a = normalVector[t];
        angles.push(a);
        proof {
            assert(angles@ =~= normalVector@.take(t as int + 1));
        }
        t = t + 1;
    }
    proof {
        assert(angles@ =~= normalVector@.take(normalVector@.len() - 1));
    }
    let bias = normalVector[normalVector.len() - 1];
    let n = polarToCartesian(&angles);
    let c = polarToCartesian(point);
    let mut acc: i64 = 0;
    let mut k: usize = 0;
    let ghost nv = spec_polarToCartesian(normalVector@.take(normalVector@.len() - 1));
    let ghost cv = spec_polarToCartesian(point@);
    while k < n.len()
        invariant
            n@.len() == c@.len(),
            0 <= k <= n@.len(),
            forall|j: int| 0 <= j < n@.len() ==> (#[trigger] n@[j]) as int == nv[j] && -FX_ONE
                <= n@[j] <= FX_ONE,
            forall|j: int| 0 <= j < c@.len() ==> (#[trigger] c@[j]) as int == cv[j] && -FX_ONE
                <= c@[j] <= FX_ONE,
            fx_bounded(bias as int),
            acc as int == spec_plane_acc(nv, cv, bias as int, k as int),
            fx_bounded(acc as int),
        decreases n@.len() - k,
    {
        let shift = fx_mul(n[k], bias);
        let d = fx_add(c[k], -shift);
        let term = fx_mul(n[k], d);
        acc = fx_add(acc, term);
        k = k + 1;
    }
    acc >= 0
}

/// The sum of squares of the first `k` entries.
pub open spec fn spec_sq_sum(v: Seq<i64>, k: int) -> int
    decreases k,
{
    if k <= 0 {
        0
    } else {
        spec_sq_sum(v, k - 1) + (v[k - 1] as int) * (v[k - 1] as int)
    }
}

/// One scaled coordinate: dividing `g` scaled by one unit by the vector's
/// length keeps the squared value within one rounding band of the exact
/// ratio, once everything is multiplied up by the squared length.
proof fn lemma_scaled_square(g: int, q: int, rem: int, norm: int)
    requires
        norm >= 1,
        -(norm * (FX_ONE as int)) <= g * FX_ONE <= norm * (FX_ONE as int),
        g * FX_ONE == norm * q + rem,
        0 <= rem < norm,
    ensures
        1_000_000_000_000 * (g * g) - 2_000_001 * (norm * norm) <= (norm * norm) * (q * q),
        (norm * norm) * (q * q) <= 1_000_000_000_000 * (g * g) + 2_000_001 * (norm * norm),
{
    assert((g * FX_ONE) * (g * FX_ONE) == 1_000_000_000_000 * (g * g)) by (nonlinear_arith)
        requires
            FX_ONE as int == 1_000_000,
    ;
    assert(1_000_000_000_000 * (g * g) - 2_000_001 * (norm * norm) <= (norm * norm) * (q * q)
        && (norm * norm) * (q * q) <= 1_000_000_000_000 * (g * g) + 2_000_001 * (norm * norm))
        by (nonlinear_arith)
        requires
            norm >= 1,
            -(norm * 1_000_000) <= g * 1_000_000 <= norm * 1_000_000,
            g * 1_000_000 == norm * q + rem,
            0 <= rem < norm,
            (g * 1_000_000) * (g * 1_000_000) == 1_000_000_000_000 * (g * g),
            FX_ONE as int == 1_000_000,
    ;
}

proof fn lemma_sq_sum_push(v: Seq<i64>, x: i64, k: int)
    requires
        0 <= k <= v.len(),
    ensures
        spec_sq_sum(v.push(x), k) == spec_sq_sum(v, k),
    decreases k,
{
    if k > 0 {
        lemma_sq_sum_push(v, x, k - 1);
        assert(v.push(x)[k - 1] == v[k - 1]);
    }
}

/// Whether a sequence is a well-formed generated point: the requested number
/// of coordinates, each within one unit.
pub open spec fn spec_point_ok(v: Seq<i64>, dimensions: int) -> bool {
    v.len() == dimensions && forall|j: int| 0 <= j < v.len() ==> -FX_ONE <= (#[trigger] v[j])
        <= FX_ONE
}

/// Generates points of the given dimension spread over the unit hypersphere:
/// every coordinate is drawn from a bell-shaped sum of uniform draws, then
/// the vector is scaled down by its own length, so each point's squared
/// length is one up to a small rounding band. A draw shorter than a
/// thousandth of a unit falls back to the first axis.
pub fn nSpherePointGeneration(numberOfPoints: u32, dimensions: usize) -> (r: Vec<Vec<i64>>)
    requires
        1 <= dimensions <= 4,
    ensures
        r@.len() == numberOfPoints as int,
        forall|i: int| 0 <= i < r@.len() ==> spec_point_ok((#[trigger] r@[i])@, dimensions as int),
        forall|i: int|
            0 <= i < r@.len() ==> 1_000_000_000_000 - 9_000_000 <= #[trigger] spec_sq_sum(
                r@[i]@,
                dimensions as int,
            ) <= 1_000_000_000_000 + 3_100_000_000,
{
    let mut points: Vec<Vec<i64>> = Vec::new();
    let mut p: u32 = 0;
    while p < numberOfPoints
        invariant
            1 <= dimensions <= 4,
            0 <= p <= numberOfPoints,
            points@.len() == p as int,
            forall|i: int| 0 <= i < points@.len() ==> spec_point_ok(
                (#[trigger] points@[i])@,
                dimensions as int,
            ),
            forall|i: int|
                0 <= i < points@.len() ==> 1_000_000_000_000 - 9_000_000 <= #[trigger] spec_sq_sum(
                    points@[i]@,
                    dimensions as int,
                ) <= 1_000_000_000_000 + 3_100_000_000,
        decreases numberOfPoints - p,
    {
        let mut g: Vec<i64> = Vec::new();
        let mut d: usize = 0;
        while d < dimensions
            invariant
                0 <= d <= dimensions,
                dimensions <= 4,
                g@.len() == d as int,
                forall|j: int| 0 <= j < g@.len() ==> -6 * FX_ONE <= (#[trigger] g@[j]) <= 6
                    * FX_ONE,
            decreases dimensions - d,
        {
            let mut sumu: i64 = 0;
            let mut t: usize = 0;
            while t < 12
                invariant
                    0 <= t <= 12,
                    0 <= sumu <= (t as i64) * FX_ONE,
                decreases 12 - t,
            {
                let draw = rand_between(0, FX_ONE);
                sumu = sumu + draw;
                t = t + 1;
            }
            g.push(sumu - 6 * FX_ONE);
            d = d + 1;
        }
        let mut ss: u64 = 0;
        let mut d2: usize = 0;
        while d2 < dimensions
            invariant
                0 <= d2 <= dimensions,
                dimensions <= 4,
                g@.len() == dimensions as int,
                forall|j: int| 0 <= j < g@.len() ==> -6 * FX_ONE <= (#[trigger] g@[j]) <= 6
                    * FX_ONE,
                ss <= (d2 as u64) * 36_000_000_000_000,
                ss as int == spec_sq_sum(g@, d2 as int),
                forall|j: int| 0 <= j < d2 ==> ss as int >= (#[trigger] g@[j] as int) * (
                g@[j] as int),
            decreases dimensions - d2,
        {
            let gj = g[d2];
            proof {
                assert(0 <= (gj as int) * (gj as int) && (gj as int) * (gj as int)
                    <= 36_000_000_000_000) by (nonlinear_arith)
                    requires
                        -6_000_000 <= gj as int <= 6_000_000,
                ;
            }
            ss = ss + ((gj * gj) as u64);
            d2 = d2 + 1;
        }
        let mut coord: Vec<i64> = Vec::new();
        if ss < 1_000_000 {
            coord.push(FX_ONE);
            proof {
                assert((FX_ONE as int) * (FX_ONE as int) == 1_000_000_000_000)
                    by (nonlinear_arith);
                assert(coord@[0] == FX_ONE);
                assert(spec_sq_sum(coord@, 0) == 0);
                assert(spec_sq_sum(coord@, 1) == 1_000_000_000_000);
            }
            let mut d3: usize = 1;
            while d3 < dimensions
                invariant
                    1 <= d3 <= dimensions,
                    coord@.len() == d3 as int,
                    forall|j: int| 0 <= j < coord@.len() ==> -FX_ONE <= (#[trigger] coord@[j])
                        <= FX_ONE,
                    spec_sq_sum(coord@, d3 as int) == 1_000_000_000_000,
                decreases dimensions - d3,
            {
                proof {
                    lemma_sq_sum_push(coord@, 0, d3 as int);
                }
                coord.push(0);
                d3 = d3 + 1;
            }
        } else {
            let norm = isqrt(ss);
            proof {
                assert(norm as int >= 1000) by (nonlinear_arith)
                    requires
                        (norm as int + 1) * (norm as int + 1) > ss as int,
                        ss as int >= 1_000_000,
                        norm as int >= 0,
                ;
                assert(norm as int <= 13_000_000) by (nonlinear_arith)
                    requires
                        (norm as int) * (norm as int) <= ss as int,
                        ss as int <= 144_000_000_000_000,
                        norm as int >= 0,
                ;
            }
            let ghost nn2 = (norm as int) * (norm as int);
            let mut d3: usize = 0;
            while d3 < dimensions
                invariant
                    0 <= d3 <= dimensions,
                    1 <= dimensions <= 4,
                    g@.len() == dimensions as int,
                    coord@.len() == d3 as int,
                    1000 <= norm as int <= 13_000_000,
                    nn2 == (norm as int) * (norm as int),
                    nn2 <= ss as int,
                    (ss as int) < (norm as int + 1) * (norm as int + 1),
                    ss as int == spec_sq_sum(g@, dimensions as int),
                    forall|j: int| 0 <= j < g@.len() ==> -6 * FX_ONE <= (#[trigger] g@[j]) <= 6
                        * FX_ONE,
                    forall|j: int| 0 <= j < g@.len() ==> ss as int >= (#[trigger] g@[j] as int) * (
                    g@[j] as int),
                    forall|j: int| 0 <= j < coord@.len() ==> -FX_ONE <= (#[trigger] coord@[j])
                        <= FX_ONE,
                    nn2 * spec_sq_sum(coord@, d3 as int) >= 1_000_000_000_000 * spec_sq_sum(
                        g@,
                        d3 as int,
                    ) - nn2 * 2_000_001 * (d3 as int),
                    nn2 * spec_sq_sum(coord@, d3 as int) <= 1_000_000_000_000 * spec_sq_sum(
                        g@,
                        d3 as int,
                    ) + nn2 * 2_000_001 * (d3 as int),
                decreases dimensions - d3,
            {
                let gj = g[d3];
                proof {
                    assert(-(norm as int) <= gj as int <= norm as int) by (nonlinear_arith)
                        requires
                            (norm as int + 1) * (norm as int + 1) > ss as int,
                            ss as int >= (gj as int) * (gj as int),
                            norm as int >= 0,
                    ;
                    lemma_ratio_unit(gj as int, norm as int);
                }
                let q = fx_mul_div(gj, FX_ONE, norm as i64);
                proof {
                    let gi = gj as int;
                    let ni = norm as int;
                    let a = gi * (FX_ONE as int);
                    vstd::arithmetic::div_mod::lemma_fundamental_div_mod(a, ni);
                    let q0 = a / ni;
                    let rem = a % ni;
                    assert(-(ni * (FX_ONE as int)) <= a <= ni * (FX_ONE as int))
                        by (nonlinear_arith)
                        requires
                            -ni <= gi <= ni,
                            FX_ONE as int == 1_000_000,
                            a == gi * 1_000_000,
                    ;
                    assert(-(FX_MAX as int) <= q0 <= FX_MAX as int) by (nonlinear_arith)
                        requires
                            a == ni * q0 + rem,
                            0 <= rem < ni,
                            ni >= 1000,
                            -(ni * 1_000_000) <= a <= ni * 1_000_000,
                            FX_MAX as int == 1_000_000_000_000,
                    ;
                    assert(q as int == q0);
                    lemma_scaled_square(gi, q0, rem, ni);
                    let sPrev = spec_sq_sum(coord@, d3 as int);
                    lemma_sq_sum_push(coord@, q, d3 as int);
                    assert(spec_sq_sum(coord@.push(q), d3 + 1) == sPrev + q0 * q0);
                    assert(spec_sq_sum(g@, d3 + 1) == spec_sq_sum(g@, d3 as int) + gi * gi);
                    assert(nn2 * (sPrev + q0 * q0) == nn2 * sPrev + nn2 * (q0 * q0))
                        by (nonlinear_arith);
                    assert(nn2 * 2_000_001 * (d3 + 1) == nn2 * 2_000_001 * (d3 as int) + nn2
                        * 2_000_001) by (nonlinear_arith);
                }
                coord.push(q);
                d3 = d3 + 1;
            }
            proof {
                let sFull = spec_sq_sum(coord@, dimensions as int);
                let pFull = spec_sq_sum(g@, dimensions as int);
                assert(1_000_000_000_000 - 9_000_000 <= sFull) by (nonlinear_arith)
                    requires
                        nn2 * sFull >= 1_000_000_000_000 * pFull - nn2 * 2_000_001 * (
                        dimensions as int),
                        pFull == ss as int,
                        nn2 <= ss as int,
                        dimensions as int <= 4,
                        nn2 == (norm as int) * (norm as int),
                        norm as int >= 1000,
                ;
                assert(sFull <= 1_000_000_000_000 + 3_100_000_000) by (nonlinear_arith)
                    requires
                        nn2 * sFull <= 1_000_000_000_000 * pFull + nn2 * 2_000_001 * (
                        dimensions as int),
                        pFull == ss as int,
                        (ss as int) < (norm as int + 1) * (norm as int + 1),
                        nn2 == (norm as int) * (norm as int),
                        norm as int >= 1000,
                        dimensions as int <= 4,
                ;
            }
        }
        points.push(coord);
        p = p + 1;
    }
    points
}

} // verus!
