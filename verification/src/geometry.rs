//! Vector and angle primitives in fixed-point arithmetic.
//!
//! A scalar is an `i64` holding the real value times `SCALE`. Angles are
//! radians in the same representation. Sine and cosine are computed with
//! Bhaskara's rational approximations, so the whole pipeline stays in
//! exact integer arithmetic and every function is pinned to a spec-level
//! definition.

use vstd::prelude::*;
use vstd::arithmetic::div_mod::{
    lemma_fundamental_div_mod_converse, lemma_mod_bound, lemma_small_mod, lemma_basic_div,
    lemma_div_is_ordered, lemma_div_multiples_vanish, lemma_div_pos_is_pos,
    lemma_div_is_ordered_by_denominator,
};

verus! {

/// One world unit, i.e. the fixed-point scaling factor 2^16.
pub const SCALE: i64 = 65536;

/// pi in fixed-point radians (pi * SCALE, rounded down).
pub const PI_FX: i64 = 205887;

/// 2*pi in fixed-point radians.
pub const TWO_PI_FX: i64 = 411774;

/// pi/2 in fixed-point radians (rounded up, so 2*HALF_PI_FX > PI_FX).
pub const HALF_PI_FX: i64 = 102944;

/// Largest magnitude accepted for an angle, so reductions cannot overflow.
pub const ANGLE_BOUND: i64 = 0x100_0000_0000;

/// Largest magnitude accepted for a position or cube coordinate.
pub const COORD_BOUND: i64 = 0x100_0000_0000;

/// Largest magnitude accepted for a ray direction component.
pub const VEC_BOUND: i64 = 0x10_0000;

/// A position in the world, or a direction; both are fixed-point pairs.
#[derive(Clone, Copy, PartialEq, Eq, Structural, Debug)]
pub struct Point {
    pub x: i64,
    pub y: i64,
}

/// The coordinates are small enough for the intersection arithmetic.
pub open spec fn wf_coord(p: Point) -> bool {
    -COORD_BOUND <= p.x <= COORD_BOUND && -COORD_BOUND <= p.y <= COORD_BOUND
}

/// The components are small enough for the intersection arithmetic.
pub open spec fn wf_vec(v: Point) -> bool {
    -VEC_BOUND <= v.x <= VEC_BOUND && -VEC_BOUND <= v.y <= VEC_BOUND
}

/// Bhaskara's sine approximation on [0, pi]: 16 x (pi - x) / (5 pi^2 - 4 x (pi - x)),
/// stated over fixed-point integers with flooring division.
pub open spec fn spec_bhask_sin(r: int) -> int
    recommends
        0 <= r <= PI_FX,
{
    let p = r * (PI_FX - r);
    (16 * p * SCALE) / (5 * PI_FX * PI_FX - 4 * p)
}

/// Sine of any fixed-point angle: reduce modulo 2*pi, then apply the
/// half-wave approximation with the sign of the half.
pub open spec fn spec_sin(x: int) -> int {
    let r = x % (TWO_PI_FX as int);
    if r < PI_FX {
        spec_bhask_sin(r)
    } else {
        -spec_bhask_sin(r - PI_FX)
    }
}

/// Bhaskara's cosine approximation on [0, pi/2]:
/// (pi^2 - 4 u^2) / (pi^2 + u^2), scaled to fixed point, division toward zero.
pub open spec fn spec_bhask_cos(u: int) -> int
    recommends
        0 <= u <= HALF_PI_FX,
{
    let n = PI_FX * PI_FX - 4 * (u * u);
    let d = PI_FX * PI_FX + u * u;
    if n >= 0 {
        (n * SCALE) / d
    } else {
        -(((-n) * SCALE) / d)
    }
}

/// Cosine of any fixed-point angle: reduce into [-pi, pi), then fold the
/// quadrants onto [0, pi/2].
pub open spec fn spec_cos(x: int) -> int {
    let r0 = x % (TWO_PI_FX as int);
    let r = if r0 >= PI_FX {
        r0 - TWO_PI_FX
    } else {
        r0
    };
    let a = if r < 0 {
        -r
    } else {
        r
    };
    if a <= HALF_PI_FX {
        spec_bhask_cos(a)
    } else {
        -spec_bhask_cos(PI_FX - a)
    }
}

/// Degrees to radians: deg * pi / 180, in fixed point.
pub open spec fn spec_rad(deg: int) -> int {
    if deg >= 0 {
        (deg * PI_FX) / (180 * SCALE)
    } else {
        -(((-deg) * PI_FX) / (180 * SCALE))
    }
}

/// The sine approximation stays inside [0, SCALE] on [0, pi].
pub proof fn lemma_bhask_sin_bounds(r: int)
    requires
        0 <= r <= PI_FX,
    ensures
        0 <= spec_bhask_sin(r) <= SCALE,
{
    let p = r * (PI_FX - r);
    assert(0 <= p && 4 * p <= PI_FX * PI_FX) by (nonlinear_arith)
        requires
            0 <= r <= PI_FX,
            p == r * (PI_FX - r),
    ;
    let den = 5 * PI_FX * PI_FX - 4 * p;
    assert(den >= 4 * PI_FX * PI_FX);
    lemma_div_pos_is_pos(16 * p * SCALE, den);
    assert(16 * p * SCALE <= SCALE * den) by (nonlinear_arith)
        requires
            0 <= p,
            4 * p <= PI_FX * PI_FX,
            den == 5 * PI_FX * PI_FX - 4 * p,
    ;
    lemma_div_is_ordered(16 * p * SCALE, SCALE * den, den);
    lemma_div_multiples_vanish(SCALE as int, den);
}

/// The cosine approximation stays inside [0, SCALE] on [0, pi/2].
pub proof fn lemma_bhask_cos_bounds(u: int)
    requires
        0 <= u <= HALF_PI_FX,
    ensures
        0 <= spec_bhask_cos(u) <= SCALE,
{
    let n = PI_FX * PI_FX - 4 * (u * u);
    let d = PI_FX * PI_FX + u * u;
    assert(0 <= u * u && u * u <= HALF_PI_FX * HALF_PI_FX) by (nonlinear_arith)
        requires
            0 <= u <= HALF_PI_FX,
    ;
    if n >= 0 {
        lemma_div_pos_is_pos(n * SCALE, d);
        assert(n * SCALE <= SCALE * d) by (nonlinear_arith)
            requires
                0 <= n,
                n == PI_FX * PI_FX - 4 * (u * u),
                d == PI_FX * PI_FX + u * u,
                0 <= u * u,
        ;
        lemma_div_is_ordered(n * SCALE, SCALE * d, d);
        lemma_div_multiples_vanish(SCALE as int, d);
    } else {
        // Only possible in the last ulp before pi/2; there the quotient is 0.
        assert((-n) * SCALE < d) by (nonlinear_arith)
            requires
                n == PI_FX * PI_FX - 4 * (u * u),
                d == PI_FX * PI_FX + u * u,
                n < 0,
                u * u <= HALF_PI_FX * HALF_PI_FX,
        ;
        lemma_div_pos_is_pos((-n) * SCALE, d);
        lemma_basic_div((-n) * SCALE, d);
    }
}

/// Sine is bounded by one world unit in magnitude, for every angle.
pub proof fn lemma_sin_bounds(x: int)
    ensures
        -SCALE <= spec_sin(x) <= SCALE,
{
    lemma_mod_bound(x, TWO_PI_FX as int);
    let r = x % (TWO_PI_FX as int);
    if r < PI_FX {
        lemma_bhask_sin_bounds(r);
    } else {
        lemma_bhask_sin_bounds(r - PI_FX);
    }
}

/// Cosine is bounded by one world unit in magnitude, for every angle.
pub proof fn lemma_cos_bounds(x: int)
    ensures
        -SCALE <= spec_cos(x) <= SCALE,
{
    lemma_mod_bound(x, TWO_PI_FX as int);
    let r0 = x % (TWO_PI_FX as int);
    let r = if r0 >= PI_FX { r0 - TWO_PI_FX } else { r0 };
    let a = if r < 0 { -r } else { r };
    if a <= HALF_PI_FX {
        lemma_bhask_cos_bounds(a);
    } else {
        lemma_bhask_cos_bounds(PI_FX - a);
    }
}

/// A zero angle gives cosine exactly one: the ray straight ahead is not scaled.
pub proof fn lemma_cos_zero()
    ensures
        spec_cos(0) == SCALE,
{
    lemma_small_mod(0, TWO_PI_FX as nat);
    assert(spec_bhask_cos(0) == (PI_FX * PI_FX * SCALE) / (PI_FX * PI_FX));
    lemma_div_multiples_vanish(SCALE as int, PI_FX * PI_FX);
    assert(PI_FX * PI_FX * SCALE == SCALE * (PI_FX * PI_FX)) by (nonlinear_arith);
}

/// In the front quadrant the cosine is never negative.
pub proof fn lemma_cos_nonneg(a: int)
    requires
        0 <= a <= HALF_PI_FX,
    ensures
        0 <= spec_cos(a),
{
    lemma_small_mod(a as nat, TWO_PI_FX as nat);
    lemma_bhask_cos_bounds(a);
}

/// Cosine falls (weakly) as the angle grows across the front quadrant.
pub proof fn lemma_cos_antimonotone(a1: int, a2: int)
    requires
        0 <= a1 <= a2 <= HALF_PI_FX,
    ensures
        spec_cos(a2) <= spec_cos(a1),
{
    lemma_small_mod(a1 as nat, TWO_PI_FX as nat);
    lemma_small_mod(a2 as nat, TWO_PI_FX as nat);
    lemma_bhask_cos_bounds(a1);
    lemma_bhask_cos_bounds(a2);
    let n1 = PI_FX * PI_FX - 4 * (a1 * a1);
    let n2 = PI_FX * PI_FX - 4 * (a2 * a2);
    let d1 = PI_FX * PI_FX + a1 * a1;
    let d2 = PI_FX * PI_FX + a2 * a2;
    assert(0 <= a1 * a1 && a1 * a1 <= a2 * a2 && a2 * a2 <= HALF_PI_FX * HALF_PI_FX)
        by (nonlinear_arith)
        requires
            0 <= a1 <= a2 <= HALF_PI_FX,
    ;
    if n2 >= 0 {
        assert(n2 * SCALE <= n1 * SCALE) by (nonlinear_arith)
            requires
                n1 == PI_FX * PI_FX - 4 * (a1 * a1),
                n2 == PI_FX * PI_FX - 4 * (a2 * a2),
                a1 * a1 <= a2 * a2,
        ;
        lemma_div_is_ordered(n2 * SCALE, n1 * SCALE, d2);
        lemma_div_is_ordered_by_denominator(n1 * SCALE, d1, d2);
        assert(n1 * SCALE >= 0) by (nonlinear_arith)
            requires
                n1 == PI_FX * PI_FX - 4 * (a1 * a1),
                a1 * a1 <= a2 * a2,
                n2 == PI_FX * PI_FX - 4 * (a2 * a2),
                n2 >= 0,
        ;
    } else {
        // spec_bhask_cos(a2) <= 0 there, and the a1 value is nonnegative.
        assert(spec_bhask_cos(a2) <= 0) by {
            lemma_div_pos_is_pos((-n2) * SCALE, d2);
        };
    }
}

/// Product of two fixed-point scalars, widened so it can never overflow.
pub(crate) fn wide_mul(a: i64, b: i64) -> (r: i128)
    ensures
        r as int == (a as int) * (b as int),
{
    proof {
        assert((a as int) * (b as int) < 0x8000_0000_0000_0000_0000_0000_0000_0000int
            && (a as int) * (b as int) >= -0x8000_0000_0000_0000_0000_0000_0000_0000int)
            by (nonlinear_arith)
            requires
                -0x8000_0000_0000_0000int <= a as int <= 0x7FFF_FFFF_FFFF_FFFFint,
                -0x8000_0000_0000_0000int <= b as int <= 0x7FFF_FFFF_FFFF_FFFFint,
        ;
    }
    (a as i128) * (b as i128)
}

/// Fixed-point minimum.
pub fn fmin(a: i64, b: i64) -> (r: i64)
    ensures
        r == if a < b { a } else { b },
{
    if a < b {
        a
    } else {
        b
    }
}

/// Fixed-point maximum.
pub fn fmax(a: i64, b: i64) -> (r: i64)
    ensures
        r == if a < b { b } else { a },
{
    if a < b {
        b
    } else {
        a
    }
}

/// Degrees to fixed-point radians.
pub fn rad(deg: i64) -> (r: i64)
    requires
        -ANGLE_BOUND <= deg <= ANGLE_BOUND,
    ensures
        r == spec_rad(deg as int),
{
    if deg >= 0 {
        (deg * PI_FX) / (180 * SCALE)
    } else {
        let q: i64 = ((-deg) * PI_FX) / (180 * SCALE);
        -q
    }
}

/// Reduce an angle into [0, 2*pi), matching the spec-level Euclidean
/// remainder also for negative angles.
fn reduce_angle(x: i64) -> (r: i64)
    requires
        -ANGLE_BOUND <= x <= ANGLE_BOUND,
    ensures
        r == (x as int) % (TWO_PI_FX as int),
        0 <= r < TWO_PI_FX,
{
    if x >= 0 {
        let r = x % TWO_PI_FX;
        proof {
            lemma_mod_bound(x as int, TWO_PI_FX as int);
        }
        r
    } else {
        let k = (-x) % TWO_PI_FX;
        proof {
            lemma_mod_bound(-x as int, TWO_PI_FX as int);
        }
        if k == 0 {
            proof {
                let q = (-x as int) / (TWO_PI_FX as int);
                vstd::arithmetic::div_mod::lemma_fundamental_div_mod(-x as int, TWO_PI_FX as int);
                lemma_fundamental_div_mod_converse(x as int, TWO_PI_FX as int, -q, 0);
            }
            0
        } else {
            proof {
                let q = (-x as int) / (TWO_PI_FX as int);
                vstd::arithmetic::div_mod::lemma_fundamental_div_mod(-x as int, TWO_PI_FX as int);
                lemma_fundamental_div_mod_converse(
                    x as int,
                    TWO_PI_FX as int,
                    -q - 1,
                    TWO_PI_FX - k,
                );
            }
            TWO_PI_FX - k
        }
    }
}

/// The sine half-wave kernel.
fn bhask_sin(r: i64) -> (s: i64)
    requires
        0 <= r <= PI_FX,
    ensures
        s == spec_bhask_sin(r as int),
        0 <= s <= SCALE,
{
    proof {
        lemma_bhask_sin_bounds(r as int);
        assert(0 <= r * (PI_FX - r) && 4 * (r * (PI_FX - r)) <= PI_FX * PI_FX)
            by (nonlinear_arith)
            requires
                0 <= r <= PI_FX,
        ;
    }
    let p: i64 = r * (PI_FX - r);
    let num: i64 = 16 * p * SCALE;
    let den: i64 = 5 * PI_FX * PI_FX - 4 * p;
    num / den
}

/// The cosine quadrant kernel.
fn bhask_cos(u: i64) -> (c: i64)
    requires
        0 <= u <= HALF_PI_FX,
    ensures
        c == spec_bhask_cos(u as int),
        0 <= c <= SCALE,
{
    proof {
        lemma_bhask_cos_bounds(u as int);
        assert(0 <= u * u && u * u <= HALF_PI_FX * HALF_PI_FX) by (nonlinear_arith)
            requires
                0 <= u <= HALF_PI_FX,
        ;
    }
    let u2: i64 = u * u;
    let n: i64 = PI_FX * PI_FX - 4 * u2;
    let d: i64 = PI_FX * PI_FX + u2;
    if n >= 0 {
        (n * SCALE) / d
    } else {
        let q: i64 = ((-n) * SCALE) / d;
        -q
    }
}

/// Fixed-point sine of any angle within `ANGLE_BOUND`.
pub fn fx_sin(x: i64) -> (s: i64)
    requires
        -ANGLE_BOUND <= x <= ANGLE_BOUND,
    ensures
        s == spec_sin(x as int),
        -SCALE <= s <= SCALE,
{
    let r = reduce_angle(x);
    if r < PI_FX {
        bhask_sin(r)
    } else {
        let s = bhask_sin(r - PI_FX);
        -s
    }
}

/// Fixed-point cosine of any angle within `ANGLE_BOUND`.
pub fn fx_cos(x: i64) -> (c: i64)
    requires
        -ANGLE_BOUND <= x <= ANGLE_BOUND,
    ensures
        c == spec_cos(x as int),
        -SCALE <= c <= SCALE,
{
    let r0 = reduce_angle(x);
    let r = if r0 >= PI_FX {
        r0 - TWO_PI_FX
    } else {
        r0
    };
    let a = if r < 0 {
        -r
    } else {
        r
    };
    if a <= HALF_PI_FX {
        bhask_cos(a)
    } else {
        let c = bhask_cos(PI_FX - a);
        -c
    }
}

/// Direction vector of an angle: (cos theta, sin theta), each within one
/// world unit, so the result always satisfies `wf_vec`.
pub fn angle_to_vec(theta: i64) -> (v: Point)
    requires
        -ANGLE_BOUND <= theta <= ANGLE_BOUND,
    ensures
        v.x == spec_cos(theta as int),
        v.y == spec_sin(theta as int),
        wf_vec(v),
{
    Point { x: fx_cos(theta), y: fx_sin(theta) }
}

} // verus!
