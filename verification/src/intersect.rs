//! Ray versus axis-aligned unit cube, by the slab method.
//!
//! A cube at `c` fills the square `[c.x, c.x + 1] x [c.y, c.y + 1]` in
//! world units. Parametric hit values along the ray are exact rationals
//! `numerator / denominator` with positive denominators; they are compared
//! by cross-multiplication so no precision is lost before the final
//! distance is rounded.
//!
//! An axis whose direction component is zero contributes no slab at all,
//! so a ray parallel to an axis is never clipped by that pair of faces,
//! even when it lies outside them; that quirk of the classic algorithm is
//! kept deliberately.

use vstd::prelude::*;
use vstd::arithmetic::div_mod::{lemma_div_nonincreasing, lemma_div_pos_is_pos};
use crate::geometry::{Point, SCALE, COORD_BOUND, VEC_BOUND, wf_coord, wf_vec, wide_mul};
use crate::isqrt::{isqrt, spec_isqrt};

verus! {

/// The slab of one axis: `None` when the direction component is zero,
/// otherwise the entry and exit numerators over the positive denominator
/// `|d|`, entry first.
pub open spec fn spec_axis_slab(o: int, d: int, c: int) -> Option<(int, int, int)> {
    if d == 0 {
        None
    } else if d > 0 {
        Some((c - o, c + SCALE - o, d))
    } else {
        Some((o - c - SCALE, o - c, -d))
    }
}

/// The clipped parameter interval of the whole ray, as two rationals
/// `(tmin_n, tmin_d, tmax_n, tmax_d)`; `None` when no axis contributes.
pub open spec fn spec_slab(o: Point, v: Point, c: Point) -> Option<(int, int, int, int)> {
    let sx = spec_axis_slab(o.x as int, v.x as int, c.x as int);
    let sy = spec_axis_slab(o.y as int, v.y as int, c.y as int);
    match (sx, sy) {
        (None, None) => None,
        (Some((l, h, d)), None) => Some((l, d, h, d)),
        (None, Some((l, h, d))) => Some((l, d, h, d)),
        (Some((lx, hx, dx)), Some((ly, hy, dy))) => {
            let tn = if lx * dy >= ly * dx { lx } else { ly };
            let td = if lx * dy >= ly * dx { dx } else { dy };
            let xn = if hx * dy <= hy * dx { hx } else { hy };
            let xd = if hx * dy <= hy * dx { dx } else { dy };
            Some((tn, td, xn, xd))
        },
    }
}

/// The ray meets the cube: the interval is nonempty and starts at a
/// nonnegative parameter.
pub open spec fn spec_hit(o: Point, v: Point, c: Point) -> bool {
    match spec_slab(o, v, c) {
        None => false,
        Some((tn, td, xn, xd)) => tn * xd <= xn * td && tn >= 0,
    }
}

/// The squared fixed-point length of `v * tmin`, each component rounded
/// toward zero.
pub open spec fn spec_dist_sq(o: Point, v: Point, c: Point) -> int
    recommends
        spec_hit(o, v, c),
{
    match spec_slab(o, v, c) {
        None => 0,
        Some((tn, td, xn, xd)) => {
            let ax = if v.x < 0 {
                -(v.x as int)
            } else {
                v.x as int
            };
            let ay = if v.y < 0 {
                -(v.y as int)
            } else {
                v.y as int
            };
            let px = (ax * tn) / td;
            let py = (ay * tn) / td;
            px * px + py * py
        },
    }
}

/// What the intersector returns: the fixed-point distance to the nearest
/// face when the ray hits, nothing otherwise.
pub open spec fn spec_cube_dist(o: Point, v: Point, c: Point) -> Option<int> {
    if spec_hit(o, v, c) {
        Some(spec_isqrt(spec_dist_sq(o, v, c) as nat) as int)
    } else {
        None
    }
}

/// A parameter between the entry and exit of one axis slab keeps the ray
/// point inside that slab: `c <= o + (tn/td) d <= c + 1`, cross-multiplied
/// by the positive denominator `td`.
proof fn lemma_axis_contains(o: int, d: int, c: int, tn: int, td: int)
    requires
        d != 0,
        td > 0,
        (spec_axis_slab(o, d, c) matches Some((l, h, den)) && l * td <= tn * den && tn * den <= h
            * td),
    ensures
        c * td <= o * td + d * tn,
        o * td + d * tn <= (c + SCALE) * td,
{
    let (l, h, den) = spec_axis_slab(o, d, c)->Some_0;
    if d > 0 {
        assert(c * td <= o * td + d * tn) by (nonlinear_arith)
            requires
                (c - o) * td <= tn * d,
        ;
        assert(o * td + d * tn <= (c + SCALE) * td) by (nonlinear_arith)
            requires
                tn * d <= (c + SCALE - o) * td,
        ;
    } else {
        assert(c * td <= o * td + d * tn) by (nonlinear_arith)
            requires
                tn * (-d) <= (o - c) * td,
        ;
        assert(o * td + d * tn <= (c + SCALE) * td) by (nonlinear_arith)
            requires
                (o - c - SCALE) * td <= tn * (-d),
        ;
    }
}

/// A reported hit is geometrically sound: the entry parameter `tn/td` is
/// a nonnegative point on the ray that lies inside the slab `[c, c + 1]`
/// of every axis the ray is not parallel to. (An axis with a zero
/// direction component imposes nothing: the kept quirk of the method.)
pub proof fn lemma_hit_is_sound(o: Point, v: Point, c: Point)
    requires
        spec_hit(o, v, c),
    ensures
        (spec_slab(o, v, c) matches Some((tn, td, xn, xd)) && {
            &&& 0 <= tn
            &&& 0 < td
            &&& v.x != 0 ==> c.x * td <= o.x * td + v.x * tn <= (c.x + SCALE) * td
            &&& v.y != 0 ==> c.y * td <= o.y * td + v.y * tn <= (c.y + SCALE) * td
        }),
{
    let sx = spec_axis_slab(o.x as int, v.x as int, c.x as int);
    let sy = spec_axis_slab(o.y as int, v.y as int, c.y as int);
    let (tn, td, xn, xd) = spec_slab(o, v, c)->Some_0;
    match (sx, sy) {
        (None, None) => {
            assert(false);
        },
        (Some((l, h, den)), None) => {
            lemma_axis_contains(o.x as int, v.x as int, c.x as int, tn, td);
        },
        (None, Some((l, h, den))) => {
            lemma_axis_contains(o.y as int, v.y as int, c.y as int, tn, td);
        },
        (Some((lx, hx, dx)), Some((ly, hy, dy))) => {
            assert(dx > 0 && dy > 0);
            // The entry is the later of the two slab entries, so it sits
            // at or after both; the hit test bounds it by the earlier of
            // the two exits, so it sits at or before both.
            if lx * dy >= ly * dx {
                assert(tn == lx && td == dx);
                if hx * dy <= hy * dx {
                    // hit: tn * dx <= hx * dx; push the bound to the y axis
                    assert(tn * dy <= hy * dx) by (nonlinear_arith)
                        requires
                            tn * dx <= hx * dx,
                            hx * dy <= hy * dx,
                            dx > 0,
                            dy > 0,
                    ;
                } else {
                    // hit: tn * dy <= hy * dx; push the bound to the x axis
                    assert(tn * dx <= hx * dx) by (nonlinear_arith)
                        requires
                            tn * dy <= hy * dx,
                            hy * dx < hx * dy,
                            dx > 0,
                            dy > 0,
                    ;
                }
            } else {
                assert(tn == ly && td == dy);
                if hx * dy <= hy * dx {
                    // hit: tn * dx <= hx * dy; push the bound to the y axis
                    assert(tn * dy <= hy * dy) by (nonlinear_arith)
                        requires
                            tn * dx <= hx * dy,
                            hx * dy <= hy * dx,
                            dx > 0,
                            dy > 0,
                    ;
                } else {
                    // hit: tn * dy <= hy * dy; push the bound to the x axis
                    assert(tn * dx <= hx * dy) by (nonlinear_arith)
                        requires
                            tn * dy <= hy * dy,
                            hy * dx < hx * dy,
                            dx > 0,
                            dy > 0,
                    ;
                }
            }
            lemma_axis_contains(o.x as int, v.x as int, c.x as int, tn, td);
            lemma_axis_contains(o.y as int, v.y as int, c.y as int, tn, td);
        },
    }
}

/// One axis of the slab test.
fn axis_slab(o: i64, d: i64, c: i64) -> (r: Option<(i64, i64, i64)>)
    requires
        -COORD_BOUND <= o <= COORD_BOUND,
        -COORD_BOUND <= c <= COORD_BOUND,
        -VEC_BOUND <= d <= VEC_BOUND,
    ensures
        (match r {
            None => spec_axis_slab(o as int, d as int, c as int) is None,
            Some((l, h, dd)) => spec_axis_slab(o as int, d as int, c as int) == Some(
                (l as int, h as int, dd as int),
            ),
        }),
        r matches Some((l, h, dd)) ==> 0 < dd <= VEC_BOUND && -(2 * COORD_BOUND + SCALE) <= l
            && l <= h && h <= 2 * COORD_BOUND + SCALE,
{
    if d == 0 {
        None
    } else if d > 0 {
        Some((c - o, c + SCALE - o, d))
    } else {
        Some((o - c - SCALE, o - c, -d))
    }
}

/// Distance along the ray from `origin` in direction `vec` to the unit
/// cube at `cube`, or `None` when the ray misses it.
pub fn intersect(origin: Point, vec: Point, cube: Point) -> (res: Option<i64>)
    requires
        wf_coord(origin),
        wf_coord(cube),
        wf_vec(vec),
    ensures
        res is Some <==> spec_hit(origin, vec, cube),
        res matches Some(d) ==> spec_cube_dist(origin, vec, cube) == Some(d as int),
        res matches Some(d) ==> 0 <= d,
{
    let sx = axis_slab(origin.x, vec.x, cube.x);
    let sy = axis_slab(origin.y, vec.y, cube.y);
    let (tn, td, xn, xd): (i64, i64, i64, i64) = match (sx, sy) {
        (None, None) => {
            return None;
        },
        (Some((l, h, d)), None) => (l, d, h, d),
        (None, Some((l, h, d))) => (l, d, h, d),
        (Some((lx, hx, dx)), Some((ly, hy, dy))) => {
            let lc = wide_mul(lx, dy) >= wide_mul(ly, dx);
            let hc = wide_mul(hx, dy) <= wide_mul(hy, dx);
            let tn = if lc { lx } else { ly };
            let td = if lc { dx } else { dy };
            let xn = if hc { hx } else { hy };
            let xd = if hc { dx } else { dy };
            (tn, td, xn, xd)
        },
    };
    if wide_mul(tn, xd) <= wide_mul(xn, td) && tn >= 0 {
        let ax: i64 = if vec.x < 0 { -vec.x } else { vec.x };
        let ay: i64 = if vec.y < 0 { -vec.y } else { vec.y };
        let px: i128 = wide_mul(ax, tn) / (td as i128);
        let py: i128 = wide_mul(ay, tn) / (td as i128);
        proof {
            assert(0 <= (ax as int) * (tn as int) <= 0x4000_0000_0000_0000int)
                by (nonlinear_arith)
                requires
                    0 <= ax as int <= VEC_BOUND,
                    0 <= tn as int <= 2 * COORD_BOUND + SCALE,
            ;
            lemma_div_pos_is_pos((ax as int) * (tn as int), td as int);
            lemma_div_nonincreasing((ax as int) * (tn as int), td as int);
            assert(0 <= (ay as int) * (tn as int) <= 0x4000_0000_0000_0000int)
                by (nonlinear_arith)
                requires
                    0 <= ay as int <= VEC_BOUND,
                    0 <= tn as int <= 2 * COORD_BOUND + SCALE,
            ;
            lemma_div_pos_is_pos((ay as int) * (tn as int), td as int);
            lemma_div_nonincreasing((ay as int) * (tn as int), td as int);
            assert((px as int) * (px as int) + (py as int) * (py as int)
                < 0x4000_0000_0000_0000_0000_0000_0000_0000int) by (nonlinear_arith)
                requires
                    0 <= px as int <= 0x4000_0000_0000_0000int,
                    0 <= py as int <= 0x4000_0000_0000_0000int,
            ;
        }
        let s: i128 = px * px + py * py;
        let r: u64 = isqrt(s as u128);
        proof {
            assert((r as int) < 0x8000_0000_0000_0000int) by (nonlinear_arith)
                requires
                    (r as int) * (r as int) <= (s as int),
                    (s as int) < 0x4000_0000_0000_0000_0000_0000_0000_0000int,
                    0 <= r as int,
            ;
        }
        Some(r as i64)
    } else {
        None
    }
}

} // verus!
