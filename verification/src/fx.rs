use vstd::prelude::*;

verus! {

/// Fixed-point scale: one unit is 1/1_000_000 of a real unit. Every numeric
/// quantity in this crate (angles, network parameters, scores, step sizes) is
/// an `i64` count of such units.
pub const FX_ONE: i64 = 1_000_000;

/// A full turn of the circle, in fixed-point units. Chosen divisible by 12 so
/// that the quarter-, sixth- and twelfth-turn constants used by the problem
/// constructors are exact.
pub const FX_TAU: i64 = 6_283_188;

/// Half a turn.
pub const FX_PI: i64 = 3_141_594;

/// A quarter turn.
pub const FX_PI_2: i64 = 1_570_797;

/// A sixth of a turn.
pub const FX_PI_3: i64 = 1_047_198;

/// Three quarters of a turn.
pub const FX_3PI_2: i64 = 4_712_391;

/// A third of a turn.
pub const FX_2PI_3: i64 = 2_094_396;

/// Two thirds of a turn.
pub const FX_4PI_3: i64 = 4_188_792;

/// Eleven twelfths of a turn.
pub const FX_11PI_6: i64 = 5_759_589;

/// Magnitude bound on every fixed-point value handled by the crate; additions
/// saturate here so that products always fit in `i128`.
pub const FX_MAX: i64 = 1_000_000_000_000;

pub open spec fn fx_bounded(v: int) -> bool {
    -(FX_MAX as int) <= v <= FX_MAX as int
}

pub open spec fn spec_clamp(v: int) -> int {
    if v > FX_MAX as int {
        FX_MAX as int
    } else if v < -(FX_MAX as int) {
        -(FX_MAX as int)
    } else {
        v
    }
}

/// Floor division of `p` by a positive divisor, agreeing with the
/// mathematical `/` of specifications.
fn div_floor(p: i128, d: i128) -> (r: i128)
    requires
        0 < d,
        -0x4000_0000_0000_0000_0000_0000_0000_0000 < p < 0x4000_0000_0000_0000_0000_0000_0000_0000,
    ensures
        r == p as int / d as int,
{
    if p >= 0 {
        let q: u128 = (p as u128) / (d as u128);
        proof {
            vstd::arithmetic::div_mod::lemma_fundamental_div_mod(p as int, d as int);
            vstd::arithmetic::div_mod::lemma_fundamental_div_mod((p as u128) as int, (d as u128) as int);
            let qi = p as int / d as int;
            let qu = (p as u128) as int / (d as u128) as int;
            assert(d as int * qi + p as int % d as int == d as int * qu + (p as u128) as int % (d as u128) as int);
            assert(qi == qu) by (nonlinear_arith)
                requires
                    d as int * qi + p as int % d as int == d as int * qu + (p as u128) as int % (d as u128) as int,
                    0 <= (p as int) % (d as int) < (d as int),
                    0 <= ((p as u128) as int) % ((d as u128) as int) < (d as int),
                    d as int > 0,
            ;
        }
        q as i128
    } else {
        let m: u128 = (-p) as u128;
        let du: u128 = d as u128;
        let q: u128 = m / du;
        let rem: u128 = m % du;
        let qi: i128 = q as i128;
        proof {
            assert(m as int == -(p as int));
            assert(du as int == d as int);
            vstd::arithmetic::div_mod::lemma_fundamental_div_mod(m as int, du as int);
            assert(m as int == d as int * q as int + rem as int);
            if rem == 0 {
                assert(p as int / d as int == -(q as int)) by (nonlinear_arith)
                    requires
                        -(p as int) == d as int * q as int,
                        d as int > 0,
                ;
            } else {
                assert(0 < (d as int - rem as int) < (d as int));
                assert(p as int / d as int == -(q as int) - 1) by (nonlinear_arith)
                    requires
                        -(p as int) == d as int * q as int + rem as int,
                        0 < (rem as int) < (d as int),
                        d as int > 0,
                ;
            }
        }
        if rem == 0 {
            -qi
        } else {
            -qi - 1
        }
    }
}

pub open spec fn spec_emod(v: int, m: int) -> int
    recommends
        m > 0,
{
    v % m
}

/// Euclidean remainder: the representative of `v` modulo `m` in `[0, m)`.
/// This is the wraparound reduction used for angles on the circle.
pub fn emod(v: i64, m: i64) -> (r: i64)
    requires
        0 < m <= 2 * FX_MAX,
        -2 * FX_MAX <= v <= 2 * FX_MAX,
    ensures
        r == spec_emod(v as int, m as int),
        0 <= r < m,
{
    let t: i64 = v % m;
    proof {
        let x = v as int;
        let mm = m as int;
        if x < 0 {
            let rn = (-x) % mm;
            let qn = (-x) / mm;
            vstd::arithmetic::div_mod::lemma_fundamental_div_mod(-x, mm);
            if rn == 0 {
                assert(x == (-qn) * mm + 0) by (nonlinear_arith)
                    requires
                        -x == mm * qn,
                ;
                vstd::arithmetic::div_mod::lemma_fundamental_div_mod_converse_mod(x, mm, -qn, 0);
            } else {
                assert(x == (-qn - 1) * mm + (mm - rn)) by (nonlinear_arith)
                    requires
                        -x == mm * qn + rn,
                ;
                vstd::arithmetic::div_mod::lemma_fundamental_div_mod_converse_mod(x, mm, -qn - 1, mm - rn);
            }
        }
    }
    if t < 0 {
        t + m
    } else {
        t
    }
}

/// Reduction of `v` into the symmetric window `[-m, m)`: the wraparound
/// reduction that allows negative results.
pub open spec fn spec_ring_sym(v: int, m: int) -> int
    recommends
        m > 0,
{
    spec_emod(v + m, 2 * m) - m
}

pub fn ring_sym(v: i64, m: i64) -> (r: i64)
    requires
        0 < m <= FX_MAX,
        fx_bounded(v as int),
    ensures
        r == spec_ring_sym(v as int, m as int),
        -m <= r < m,
{
    let t: i64 = emod(v + m, 2 * m);
    t - m
}

/// Saturating addition: exact while the sum stays inside the working range,
/// clamped at the range's edge otherwise.
pub fn fx_add(a: i64, b: i64) -> (r: i64)
    requires
        fx_bounded(a as int),
        fx_bounded(b as int),
    ensures
        r == spec_clamp(a + b),
        fx_bounded(r as int),
{
    let s: i64 = a + b;
    if s > FX_MAX {
        FX_MAX
    } else if s < -FX_MAX {
        -FX_MAX
    } else {
        s
    }
}

/// Fixed-point product: `a * b` rescaled by one unit, rounded toward
/// negative infinity, clamped into the working range.
pub open spec fn spec_fx_mul(a: int, b: int) -> int {
    spec_clamp((a * b) / (FX_ONE as int))
}

pub fn fx_mul(a: i64, b: i64) -> (r: i64)
    requires
        fx_bounded(a as int),
        fx_bounded(b as int),
    ensures
        r == spec_fx_mul(a as int, b as int),
        fx_bounded(r as int),
{
    proof {
        assert((a as int) * (b as int) <= (FX_MAX as int) * (FX_MAX as int)
            && (a as int) * (b as int) >= -((FX_MAX as int) * (FX_MAX as int))) by (nonlinear_arith)
            requires
                fx_bounded(a as int),
                fx_bounded(b as int),
        ;
    }
    let p: i128 = (a as i128) * (b as i128);
    let q: i128 = div_floor(p, FX_ONE as i128);
    if q > FX_MAX as i128 {
        FX_MAX
    } else if q < -(FX_MAX as i128) {
        -FX_MAX
    } else {
        q as i64
    }
}

/// `(a * b) / d` with floor rounding and clamping; `d` must be positive.
pub open spec fn spec_fx_mul_div(a: int, b: int, d: int) -> int
    recommends
        d > 0,
{
    spec_clamp((a * b) / d)
}

pub fn fx_mul_div(a: i64, b: i64, d: i64) -> (r: i64)
    requires
        fx_bounded(a as int),
        fx_bounded(b as int),
        0 < d,
    ensures
        r == spec_fx_mul_div(a as int, b as int, d as int),
        fx_bounded(r as int),
{
    proof {
        assert((a as int) * (b as int) <= (FX_MAX as int) * (FX_MAX as int)
            && (a as int) * (b as int) >= -((FX_MAX as int) * (FX_MAX as int))) by (nonlinear_arith)
            requires
                fx_bounded(a as int),
                fx_bounded(b as int),
        ;
    }
    let p: i128 = (a as i128) * (b as i128);
    let q: i128 = div_floor(p, d as i128);
    if q > FX_MAX as i128 {
        FX_MAX
    } else if q < -(FX_MAX as i128) {
        -FX_MAX
    } else {
        q as i64
    }
}

/// A quarter of a half turn, rounded: the scale constant of the arctangent
/// approximation.
pub const FX_PI_4: i64 = 785_398;

/// Shape constant of the arctangent approximation (0.273 in fixed point).
pub const FX_ATAN_K: i64 = 273_000;

/// The non-negative integer square root: the unique `r` with
/// `r*r <= n < (r+1)*(r+1)`.
pub open spec fn spec_isqrt(n: int) -> int
    recommends
        n >= 0,
{
    choose|r: int| r >= 0 && #[trigger] (r * r) <= n && n < (r + 1) * (r + 1)
}

proof fn lemma_isqrt_unique(n: int, a: int, b: int)
    requires
        a >= 0,
        b >= 0,
        a * a <= n && n < (a + 1) * (a + 1),
        b * b <= n && n < (b + 1) * (b + 1),
    ensures
        a == b,
{
    assert(a == b) by (nonlinear_arith)
        requires
            a >= 0,
            b >= 0,
            a * a <= n && n < (a + 1) * (a + 1),
            b * b <= n && n < (b + 1) * (b + 1),
    ;
}

pub fn isqrt(n: u64) -> (r: u64)
    requires
        n < 0x1000_0000_0000_0000,
    ensures
        r as int == spec_isqrt(n as int),
        (r as int) * (r as int) <= n as int,
        (n as int) < (r as int + 1) * (r as int + 1),
{
    let mut lo: u64 = 0;
    let mut hi: u64 = 0x4000_0000;
    proof {
        assert((0x4000_0000 as int) * (0x4000_0000 as int) == 0x1000_0000_0000_0000) by (nonlinear_arith);
    }
    while lo + 1 < hi
        invariant
            lo < hi <= 0x4000_0000,
            (lo as int) * (lo as int) <= n as int,
            (n as int) < (hi as int) * (hi as int),
        decreases hi - lo,
    {
        let mid: u64 = lo + (hi - lo) / 2;
        proof {
            assert((mid as int) * (mid as int) <= 0x1000_0000_0000_0000) by (nonlinear_arith)
                requires
                    0 <= mid as int <= 0x4000_0000,
            ;
        }
        if mid * mid <= n {
            lo = mid;
        } else {
            hi = mid;
        }
    }
    proof {
        let witness = lo as int;
        assert(witness >= 0 && witness * witness <= n as int && (n as int) < (witness + 1) * (witness + 1));
        lemma_isqrt_unique(n as int, spec_isqrt(n as int), witness);
    }
    lo
}

/// The floor base-2 logarithm as a specification value.
pub open spec fn spec_ilog2(n: int) -> int
    decreases n,
{
    if n < 2 {
        0
    } else {
        1 + spec_ilog2(n / 2)
    }
}

/// The floor base-2 logarithm: `pow2(r) <= n < pow2(r+1)`.
pub fn ilog2_floor(n: u64) -> (r: u64)
    requires
        n >= 1,
    ensures
        r as int == spec_ilog2(n as int),
        r <= 63,
        vstd::arithmetic::power2::pow2(r as nat) <= n as int,
        (n as int) < vstd::arithmetic::power2::pow2((r + 1) as nat),
{
    let mut r: u64 = 0;
    let mut v: u64 = n;
    proof {
        vstd::arithmetic::power2::lemma2_to64();
    }
    while v >= 2
        invariant
            v >= 1,
            n >= 1,
            r <= 63,
            spec_ilog2(n as int) == r + spec_ilog2(v as int),
            vstd::arithmetic::power2::pow2(r as nat) * v as int <= n as int,
            (n as int) < vstd::arithmetic::power2::pow2(r as nat) * (v as int + 1),
            vstd::arithmetic::power2::pow2(r as nat) <= n as int,
        decreases v,
    {
        let ghost p = vstd::arithmetic::power2::pow2(r as nat);
        let ghost vold = v as int;
        v = v / 2;
        r = r + 1;
        proof {
            vstd::arithmetic::power2::lemma_pow2_pos(r as nat);
            vstd::arithmetic::power2::lemma_pow2_pos((r - 1) as nat);
            vstd::arithmetic::power2::lemma_pow2_unfold((r) as nat);
            let p2 = vstd::arithmetic::power2::pow2(r as nat);
            assert(p2 == 2 * p);
            assert(v as int == vold / 2);
            assert(2 * (v as int) <= vold && vold < 2 * (v as int) + 2);
            assert(p2 * (v as int) <= p * vold && p * (vold + 1) <= p2 * (v as int + 1))
                by (nonlinear_arith)
                requires
                    p2 == 2 * p,
                    p > 0,
                    2 * (v as int) <= vold && vold < 2 * (v as int) + 2,
            ;
            assert(p * vold <= n as int);
            assert(p2 * (v as int) >= p2) by (nonlinear_arith)
                requires
                    p2 > 0,
                    v as int >= 1,
            ;
            if r > 63 {
                if r as nat > 64 {
                    vstd::arithmetic::power2::lemma_pow2_strictly_increases(64, r as nat);
                }
                vstd::arithmetic::power2::lemma2_to64_rest();
                assert(p2 >= 0x10000000000000000);
                assert(p2 * (v as int) >= p2) by (nonlinear_arith)
                    requires
                        p2 > 0,
                        v as int >= 1,
                ;
                assert(false);
            }
        }
    }
    proof {
        let p = vstd::arithmetic::power2::pow2(r as nat);
        vstd::arithmetic::power2::lemma_pow2_pos(r as nat);
        vstd::arithmetic::power2::lemma_pow2_unfold((r + 1) as nat);
        assert(vstd::arithmetic::power2::pow2((r + 1) as nat) == 2 * p);
        assert((n as int) < p * (v as int + 1));
        assert(p * (v as int + 1) <= 2 * p) by (nonlinear_arith)
            requires
                p > 0,
                v as int == 1,
        ;
    }
    r
}

/// The rational sine approximation on a half turn, in fixed point:
/// `16 a (pi - a) / (5 pi^2 - 4 a (pi - a))`, scaled by one unit.
pub open spec fn spec_sin_half(a: int) -> int
    recommends
        0 <= a <= FX_PI,
{
    let y = a * (FX_PI - a);
    (16 * y * FX_ONE) / (5 * (FX_PI as int) * (FX_PI as int) - 4 * y)
}

/// Fixed-point sine: the angle is reduced into one turn, and each half turn
/// uses the rational approximation above with the matching sign.
pub open spec fn spec_sin_fx(x: int) -> int {
    let a = spec_emod(x, FX_TAU as int);
    if a <= FX_PI {
        spec_sin_half(a)
    } else {
        -spec_sin_half(a - FX_PI)
    }
}

/// Fixed-point cosine: sine shifted by a quarter turn.
pub open spec fn spec_cos_fx(x: int) -> int {
    spec_sin_fx(x + FX_PI_2)
}

fn sin_half(a: i64) -> (r: i64)
    requires
        0 <= a <= FX_PI,
    ensures
        r == spec_sin_half(a as int),
        0 <= r <= FX_ONE,
{
    let ai: i128 = a as i128;
    let pi: i128 = FX_PI as i128;
    proof {
        assert(0 <= (a as int) * (FX_PI - a as int) && 4 * ((a as int) * (FX_PI - a as int))
            <= (FX_PI as int) * (FX_PI as int)) by (nonlinear_arith)
            requires
                0 <= a as int <= FX_PI as int,
        ;
    }
    proof {
        assert(0 <= (ai as int) * ((pi as int) - (ai as int)) && 4 * ((ai as int) * ((pi as int)
            - (ai as int))) <= 9_869_612_860_836) by (nonlinear_arith)
            requires
                0 <= ai as int <= 3_141_594,
                pi as int == 3_141_594,
        ;
    }
    let y: i128 = ai * (pi - ai);
    proof {
        assert(0 <= y as int && 4 * (y as int) <= 9_869_612_860_836);
        assert((FX_PI as int) * (FX_PI as int) == 9_869_612_860_836) by (nonlinear_arith);
        assert(0 <= 16 * (y as int) * (FX_ONE as int) && 16 * (y as int) * (FX_ONE as int)
            <= 40_000_000_000_000_000_000) by (nonlinear_arith)
            requires
                0 <= y as int,
                4 * (y as int) <= 9_869_612_860_836,
                FX_ONE as int == 1_000_000,
        ;
    }
    let num: u128 = (16 * y * (FX_ONE as i128)) as u128;
    let den: u128 = (5 * pi * pi - 4 * y) as u128;
    let q: u128 = num / den;
    proof {
        let yi = (a as int) * (FX_PI - a as int);
        let numi = 16 * yi * (FX_ONE as int);
        let deni = 5 * (FX_PI as int) * (FX_PI as int) - 4 * yi;
        assert(num as int == numi && den as int == deni);
        assert(deni > 0);
        assert(numi <= deni * (FX_ONE as int)) by (nonlinear_arith)
            requires
                4 * yi <= (FX_PI as int) * (FX_PI as int),
                yi >= 0,
                deni == 5 * (FX_PI as int) * (FX_PI as int) - 4 * yi,
                numi == 16 * yi * (FX_ONE as int),
        ;
        vstd::arithmetic::div_mod::lemma_multiply_divide_le(numi, deni, FX_ONE as int);
        vstd::arithmetic::div_mod::lemma_div_pos_is_pos(numi, deni);
    }
    q as i64
}

pub fn sin_fx(x: i64) -> (r: i64)
    requires
        -2 * FX_MAX <= x <= 2 * FX_MAX,
    ensures
        r == spec_sin_fx(x as int),
        -FX_ONE <= r <= FX_ONE,
{
    let a = emod(x, FX_TAU);
    if a <= FX_PI {
        sin_half(a)
    } else {
        let v = sin_half(a - FX_PI);
        -v
    }
}

pub fn cos_fx(x: i64) -> (r: i64)
    requires
        -FX_MAX <= x <= FX_MAX,
    ensures
        r == spec_cos_fx(x as int),
        -FX_ONE <= r <= FX_ONE,
{
    sin_fx(x + FX_PI_2)
}

/// The arctangent approximation on `[0, 1]`, in fixed point:
/// `(pi/4) z + 0.273 z (1 - z)`.
pub open spec fn spec_atan_unit(z: int) -> int
    recommends
        0 <= z <= FX_ONE,
{
    (FX_PI_4 * z) / (FX_ONE as int) + (FX_ATAN_K * z * (FX_ONE - z)) / (
    (FX_ONE as int) * (FX_ONE as int))
}

fn atan_unit(z: i64) -> (r: i64)
    requires
        0 <= z <= FX_ONE,
    ensures
        r == spec_atan_unit(z as int),
        0 <= r < FX_PI_2,
{
    proof {
        assert(0 <= (FX_PI_4 as int) * (z as int) && (FX_PI_4 as int) * (z as int)
            <= 1_000_000_000_000) by (nonlinear_arith)
            requires
                0 <= z as int <= 1_000_000,
                FX_PI_4 as int == 785_398,
        ;
    }
    let t1: u128 = ((FX_PI_4 as u128) * (z as u128)) / (FX_ONE as u128);
    let zi: i128 = z as i128;
    proof {
        assert(0 <= (FX_ATAN_K as int) * (z as int) * ((FX_ONE as int) - z as int)
            && (FX_ATAN_K as int) * (z as int) * ((FX_ONE as int) - z as int)
                <= 273_000_000_000_000_000) by (nonlinear_arith)
            requires
                0 <= z as int <= FX_ONE as int,
                FX_ATAN_K as int == 273_000,
                FX_ONE as int == 1_000_000,
        ;
    }
    let prod: i128 = (FX_ATAN_K as i128) * zi * ((FX_ONE as i128) - zi);
    let t2: u128 = (prod as u128) / ((FX_ONE as u128) * (FX_ONE as u128));
    proof {
        let z1 = z as int;
        assert((FX_PI_4 as int) * z1 <= (FX_ONE as int) * (FX_PI_4 as int)) by (nonlinear_arith)
            requires
                0 <= z1 <= FX_ONE as int,
        ;
        assert((FX_ATAN_K as int) * z1 * (FX_ONE - z1) <= ((FX_ONE as int) * (FX_ONE as int))
            * (FX_ATAN_K as int)) by (nonlinear_arith)
            requires
                0 <= z1 <= FX_ONE as int,
        ;
        vstd::arithmetic::div_mod::lemma_multiply_divide_le(
            (FX_PI_4 as int) * z1,
            FX_ONE as int,
            FX_PI_4 as int,
        );
        vstd::arithmetic::div_mod::lemma_div_pos_is_pos((FX_PI_4 as int) * z1, FX_ONE as int);
        vstd::arithmetic::div_mod::lemma_multiply_divide_le(
            (FX_ATAN_K as int) * z1 * (FX_ONE - z1),
            (FX_ONE as int) * (FX_ONE as int),
            FX_ATAN_K as int,
        );
        vstd::arithmetic::div_mod::lemma_div_pos_is_pos(
            (FX_ATAN_K as int) * z1 * (FX_ONE - z1),
            (FX_ONE as int) * (FX_ONE as int),
        );
    }
    (t1 as i64) + (t2 as i64)
}

/// Fixed-point two-argument arctangent: the angle of the point `(x, y)`, in
/// `[-pi, pi]`, built from the unit arctangent by octant reduction. The
/// origin maps to zero.
pub open spec fn spec_atan2_fx(y: int, x: int) -> int {
    let ax = if x >= 0 { x } else { -x };
    let ay = if y >= 0 { y } else { -y };
    let base = if ax == 0 && ay == 0 {
        0
    } else if ax >= ay {
        spec_atan_unit((ay * FX_ONE) / ax)
    } else {
        FX_PI_2 - spec_atan_unit((ax * FX_ONE) / ay)
    };
    if x >= 0 && y >= 0 {
        base
    } else if x < 0 && y >= 0 {
        FX_PI - base
    } else if x >= 0 {
        -base
    } else {
        -(FX_PI - base)
    }
}

pub fn atan2_fx(y: i64, x: i64) -> (r: i64)
    requires
        fx_bounded(y as int),
        fx_bounded(x as int),
    ensures
        r == spec_atan2_fx(y as int, x as int),
        -FX_PI <= r <= FX_PI,
        y >= 0 ==> 0 <= r,
{
    let ax: i64 = if x >= 0 { x } else { -x };
    let ay: i64 = if y >= 0 { y } else { -y };
    let base: i64 = if ax == 0 && ay == 0 {
        0
    } else if ax >= ay {
        let z: u128 = ((ay as u128) * (FX_ONE as u128)) / (ax as u128);
        proof {
            vstd::arithmetic::div_mod::lemma_multiply_divide_le(
                (ay as int) * (FX_ONE as int),
                ax as int,
                FX_ONE as int,
            );
            vstd::arithmetic::div_mod::lemma_div_pos_is_pos(
                (ay as int) * (FX_ONE as int),
                ax as int,
            );
            assert((ay as int) * (FX_ONE as int) <= (ax as int) * (FX_ONE as int))
                by (nonlinear_arith)
                requires
                    0 <= ay as int <= ax as int,
            ;
        }
        atan_unit(z as i64)
    } else {
        let z: u128 = ((ax as u128) * (FX_ONE as u128)) / (ay as u128);
        proof {
            vstd::arithmetic::div_mod::lemma_multiply_divide_le(
                (ax as int) * (FX_ONE as int),
                ay as int,
                FX_ONE as int,
            );
            vstd::arithmetic::div_mod::lemma_div_pos_is_pos(
                (ax as int) * (FX_ONE as int),
                ay as int,
            );
            assert((ax as int) * (FX_ONE as int) <= (ay as int) * (FX_ONE as int))
                by (nonlinear_arith)
                requires
                    0 <= ax as int <= ay as int,
            ;
        }
        FX_PI_2 - atan_unit(z as i64)
    };
    if x >= 0 && y >= 0 {
        base
    } else if x < 0 && y >= 0 {
        FX_PI - base
    } else if x >= 0 {
        -base
    } else {
        -(FX_PI - base)
    }
}

/// Fixed-point arccosine on `[-1, 1]`, in `[0, pi]`: the angle whose cosine
/// has the given value, via the point `(value, sqrt(1 - value^2))`.
pub open spec fn spec_acos_fx(x: int) -> int {
    spec_atan2_fx(spec_isqrt((FX_ONE as int) * (FX_ONE as int) - x * x), x)
}

pub fn acos_fx(x: i64) -> (r: i64)
    requires
        -FX_ONE <= x <= FX_ONE,
    ensures
        r == spec_acos_fx(x as int),
        0 <= r <= FX_PI,
{
    proof {
        assert(0 <= (x as int) * (x as int) && (x as int) * (x as int)
            <= (FX_ONE as int) * (FX_ONE as int) && (FX_ONE as int) * (FX_ONE as int)
            == 1_000_000_000_000) by (nonlinear_arith)
            requires
                -(FX_ONE as int) <= x as int <= FX_ONE as int,
                FX_ONE as int == 1_000_000,
        ;
    }
    let sq: u64 = ((FX_ONE as i64) * (FX_ONE as i64) - x * x) as u64;
    let s: u64 = isqrt(sq);
    proof {
        assert((s as int) * (s as int) <= (FX_ONE as int) * (FX_ONE as int)) by {
            assert((s as int) * (s as int) <= sq as int);
        }
        assert(s as int <= FX_ONE as int) by (nonlinear_arith)
            requires
                (s as int) * (s as int) <= (FX_ONE as int) * (FX_ONE as int),
                s as int >= 0,
        ;
    }
    let r = atan2_fx(s as i64, x);
    proof {
        if x as int >= 0 {
        }
    }
    r
}

/// Rounds to the nearest whole unit (halves upward), clamped into the
/// working range.
pub open spec fn spec_fx_round_unit(x: int) -> int {
    spec_clamp(((x + FX_ONE / 2) / (FX_ONE as int)) * FX_ONE)
}

pub fn fx_round_unit(x: i64) -> (r: i64)
    requires
        fx_bounded(x as int),
    ensures
        r == spec_fx_round_unit(x as int),
        fx_bounded(r as int),
{
    let q: i128 = div_floor((x as i128) + (FX_ONE as i128) / 2, FX_ONE as i128);
    proof {
        vstd::arithmetic::div_mod::lemma_div_is_ordered(
            x as int + FX_ONE / 2,
            2_000_000_000_000,
            FX_ONE as int,
        );
        vstd::arithmetic::div_mod::lemma_div_is_ordered(
            -2_000_000_000_000,
            x as int + FX_ONE / 2,
            FX_ONE as int,
        );
        assert(2_000_000_000_000int / (FX_ONE as int) == 2_000_000) by (nonlinear_arith);
        assert((-2_000_000_000_000int) / (FX_ONE as int) == -2_000_000) by (nonlinear_arith);
    }
    let scaled: i128 = q * (FX_ONE as i128);
    if scaled > FX_MAX as i128 {
        FX_MAX
    } else if scaled < -(FX_MAX as i128) {
        -FX_MAX
    } else {
        scaled as i64
    }
}

/// At-least-one-mutation, at the level of a single parameter update: a
/// mutation step adds a non-zero delta through the saturating addition, so
/// as long as the result stays inside the working range, the touched
/// parameter really changes.
pub proof fn lemma_mutation_step_changes(w: int, delta: int)
    requires
        delta != 0,
        fx_bounded(w),
        fx_bounded(w + delta),
    ensures
        spec_clamp(w + delta) != w,
{
}

/// One mutation step of the parameter grid: adds the delta exactly while
/// the result stays inside the working range, and refuses the step (keeping
/// the old value) at the range's rim. Unlike a clamping addition this never
/// moves a parameter off a grid the delta respects.
pub open spec fn spec_fx_step(w: int, delta: int) -> int {
    if fx_bounded(w + delta) {
        w + delta
    } else {
        w
    }
}

pub fn fx_step(w: i64, delta: i64) -> (r: i64)
    requires
        fx_bounded(w as int),
        fx_bounded(delta as int),
    ensures
        r == spec_fx_step(w as int, delta as int),
        fx_bounded(r as int),
{
    let s: i64 = w + delta;
    if s > FX_MAX || s < -FX_MAX {
        w
    } else {
        s
    }
}

/// A refusing step keeps grid alignment: if the parameter and the delta are
/// both whole multiples of the grid, so is the result.
pub proof fn lemma_fx_step_on_grid(w: int, delta: int, g: int)
    requires
        g >= 1,
        w % g == 0,
        delta % g == 0,
    ensures
        spec_fx_step(w, delta) % g == 0,
{
    if fx_bounded(w + delta) {
        vstd::arithmetic::div_mod::lemma_add_mod_noop(w, delta, g);
        vstd::arithmetic::div_mod::lemma_small_mod(0, g as nat);
    }
}

/// A whole number of grid steps is on the grid, whichever way it points.
pub proof fn lemma_steps_on_grid(k: int, g: int)
    requires
        g >= 1,
    ensures
        (k * g) % g == 0,
        (-(k * g)) % g == 0,
{
    vstd::arithmetic::div_mod::lemma_mod_multiples_basic(k, g);
    vstd::arithmetic::div_mod::lemma_mod_multiples_basic(-k, g);
    assert(-(k * g) == (-k) * g) by (nonlinear_arith);
}

} // verus!
