//! The projector and the per-frame column renderer.
//!
//! A frame is one entry per ray: either the vertical strip that ray paints
//! (position, size and gray shade) or nothing when the ray hits no cube
//! and the background shows through. Painting the strips onto an actual
//! canvas is the platform layer's business; the renderer's contract pins
//! every strip exactly.

use vstd::prelude::*;
use vstd::arithmetic::div_mod::{
    lemma_div_nonincreasing, lemma_div_pos_is_pos, lemma_div_is_ordered,
    lemma_div_is_ordered_by_denominator, lemma_div_multiples_vanish, lemma_fundamental_div_mod,
    lemma_mod_bound,
};
use crate::geometry::{
    Point, SCALE, PI_FX, HALF_PI_FX, ANGLE_BOUND, spec_cos, spec_sin, angle_to_vec, wf_coord,
    wf_vec, wide_mul,
};
use crate::intersect::{intersect, spec_cube_dist};
use crate::camera::{State, wf_state, WIDTH, HEIGHT};

verus! {

/// Numerator of the projection formula: screen height in fixed-point
/// squared units; also the saturation height used when the corrected
/// distance vanishes.
pub const H_NUM: i64 = 800 * 65536 * 65536;

/// The gray level the screen is cleared to before the strips go on:
/// white, so misses show through as background.
pub const BACKGROUND_SHADE: u8 = 255;

/// Every obstacle of a map is within the coordinate bounds.
pub open spec fn wf_map(map: Seq<Point>) -> bool {
    forall|i: int| 0 <= i < map.len() ==> wf_coord(#[trigger] map[i])
}

/// One vertical strip of a frame, in pixels.
#[derive(Clone, Copy, PartialEq, Eq, Structural, Debug)]
pub struct Strip {
    pub x: u32,
    pub y: u32,
    pub width: u32,
    pub height: u32,
    pub shade: u8,
}

/// The projected strip height in pixels:
/// `screen_height / (dist * cos(angle))`, the cosine factor flattening the
/// fisheye bulge; saturated when the corrected distance rounds to nothing.
pub open spec fn spec_height(dist: int, angle: int) -> int
    recommends
        dist > 0,
{
    let c = spec_cos(angle);
    if c <= 0 {
        H_NUM as int
    } else {
        (H_NUM as int) / (dist * c)
    }
}

/// The gray level of a strip: under fog, brightness falls off linearly
/// with apparent height; without fog every strip is flat black.
pub open spec fn spec_shade(fog: bool, h: int) -> int {
    if fog {
        let t = ((h + (HEIGHT as int) / 2) * (SCALE as int)) / (HEIGHT as int);
        let m = if t > SCALE { SCALE as int } else { t };
        ((SCALE - m) * 255) / (SCALE as int)
    } else {
        0
    }
}

/// The strip a hit ray paints: column `i` of the frame, the height
/// clamped to the screen and centered vertically.
pub open spec fn spec_strip(st: State, i: int, h: int) -> Strip {
    let w = (WIDTH as int) / (st.samples as int);
    let hpx = if h > HEIGHT as int {
        HEIGHT as int
    } else {
        h
    };
    Strip {
        x: (i * w) as u32,
        y: ((HEIGHT as int) / 2 - hpx / 2) as u32,
        width: w as u32,
        height: hpx as u32,
        shade: spec_shade(st.fog, h) as u8,
    }
}

/// The nearest strictly positive hit distance over the map, scanned in
/// order; hits at distance zero count as misses, as in the strip loop.
pub open spec fn spec_nearest(map: Seq<Point>, o: Point, v: Point) -> Option<int>
    decreases map.len(),
{
    if map.len() == 0 {
        None
    } else {
        let prev = spec_nearest(map.drop_last(), o, v);
        match spec_cube_dist(o, v, map.last()) {
            None => prev,
            Some(t) => if t > 0 {
                match prev {
                    None => Some(t),
                    Some(d) => if t < d {
                        Some(t)
                    } else {
                        Some(d)
                    },
                }
            } else {
                prev
            },
        }
    }
}

/// The whole work of one ray: aim it, find the nearest cube, project the
/// strip; `None` when the ray hits nothing.
pub open spec fn spec_ray(map: Seq<Point>, st: State, i: int) -> Option<Strip> {
    let delta = (st.fov as int) / (st.samples as int);
    let theta = (st.direction as int) + (st.fov as int) / 2 - i * delta;
    let v = Point { x: spec_cos(theta) as i64, y: spec_sin(theta) as i64 };
    match spec_nearest(map, st.position, v) {
        None => None,
        Some(d) => {
            let diff = (st.direction as int) - theta;
            let off = if diff < 0 {
                -diff
            } else {
                diff
            };
            Some(spec_strip(st, i, spec_height(d, off)))
        },
    }
}

/// What the nearest-hit scan selects: nothing only when no cube is hit at
/// a positive distance, and otherwise the strictly smallest positive hit
/// distance, so of two cubes on one ray the nearer one wins.
pub proof fn lemma_nearest_props(map: Seq<Point>, o: Point, v: Point)
    ensures
        spec_nearest(map, o, v) is None ==> forall|i: int|
            0 <= i < map.len() ==> (match spec_cube_dist(o, v, #[trigger] map[i]) {
                Some(t) => t <= 0,
                None => true,
            }),
        spec_nearest(map, o, v) matches Some(d) ==> {
            &&& d > 0
            &&& exists|i: int|
                0 <= i < map.len() && spec_cube_dist(o, v, #[trigger] map[i]) == Some(d)
            &&& forall|i: int|
                0 <= i < map.len() ==> (match spec_cube_dist(o, v, #[trigger] map[i]) {
                    Some(t) => t <= 0 || d <= t,
                    None => true,
                })
        },
    decreases map.len(),
{
    if map.len() == 0 {
    } else {
        let sub = map.drop_last();
        lemma_nearest_props(sub, o, v);
        assert(map.last() == map[map.len() - 1]);
        let prev = spec_nearest(sub, o, v);
        let cur = spec_cube_dist(o, v, map.last());
        if spec_nearest(map, o, v) is None {
            assert forall|i: int|
                0 <= i < map.len() implies (match spec_cube_dist(o, v, #[trigger] map[i]) {
                Some(t) => t <= 0,
                None => true,
            }) by {
                if i < map.len() - 1 {
                    assert(sub[i] == map[i]);
                } else {
                    assert(map[i] == map.last());
                }
            }
        } else {
            let d = spec_nearest(map, o, v)->Some_0;
            assert forall|i: int|
                0 <= i < map.len() implies (match spec_cube_dist(o, v, #[trigger] map[i]) {
                Some(t) => t <= 0 || d <= t,
                None => true,
            }) by {
                if i < map.len() - 1 {
                    assert(sub[i] == map[i]);
                } else {
                    assert(map[i] == map.last());
                }
            }
            if cur == Some(d) && d > 0 {
                assert(spec_cube_dist(o, v, map[map.len() - 1]) == Some(d));
            } else {
                assert(prev == Some(d));
                let j = choose|j: int|
                    0 <= j < sub.len() && spec_cube_dist(o, v, #[trigger] sub[j]) == Some(d);
                assert(spec_cube_dist(o, v, map[j]) == Some(d));
            }
        }
    }
}

/// Over an empty map every ray misses: a rendered frame is pure
/// background.
pub proof fn lemma_empty_map_background(st: State, i: int)
    ensures
        spec_ray(Seq::<Point>::empty(), st, i) is None,
{
}

/// For a fixed ray offset the projected height never grows as the
/// distance grows; the unrounded quotient falls strictly, though two
/// nearby distances can round to the same pixel height.
pub proof fn lemma_height_antitone_in_dist(d1: int, d2: int, a: int)
    requires
        0 < d1 < d2,
        0 < spec_cos(a),
    ensures
        spec_height(d2, a) <= spec_height(d1, a),
        d1 * spec_cos(a) < d2 * spec_cos(a),
{
    let c = spec_cos(a);
    assert(0 < d1 * c && d1 * c < d2 * c) by (nonlinear_arith)
        requires
            0 < d1 < d2,
            0 < c,
    ;
    lemma_div_is_ordered_by_denominator(H_NUM as int, d1 * c, d2 * c);
}

/// For a fixed distance the projected height never falls as the ray
/// offset grows toward the quadrant edge, where the cosine correction
/// fades and the apparent height blows up.
pub proof fn lemma_height_monotone_in_offset(d: int, a1: int, a2: int)
    requires
        0 < d,
        0 <= a1 <= a2 <= HALF_PI_FX,
    ensures
        spec_height(d, a1) <= spec_height(d, a2),
{
    crate::geometry::lemma_cos_antimonotone(a1, a2);
    crate::geometry::lemma_cos_nonneg(a1);
    crate::geometry::lemma_cos_nonneg(a2);
    let c1 = spec_cos(a1);
    let c2 = spec_cos(a2);
    if c2 <= 0 {
        if c1 > 0 {
            assert(1 <= d * c1) by (nonlinear_arith)
                requires
                    0 < d,
                    0 < c1,
            ;
            lemma_div_nonincreasing(H_NUM as int, d * c1);
        }
    } else {
        assert(0 < d * c2 && d * c2 <= d * c1) by (nonlinear_arith)
            requires
                0 < d,
                0 < c2,
                c2 <= c1,
        ;
        lemma_div_is_ordered_by_denominator(H_NUM as int, d * c2, d * c1);
    }
}

/// The world of the session: eight cubes forming two short walls.
pub open spec fn spec_default_map() -> Seq<Point> {
    seq![
        Point { x: 65536, y: 65536 },
        Point { x: 196608, y: 196608 },
        Point { x: 196608, y: 262144 },
        Point { x: 65536, y: 393216 },
        Point { x: 196608, y: 327680 },
        Point { x: 327680, y: 196608 },
        Point { x: 327680, y: 262144 },
        Point { x: 327680, y: 327680 },
    ]
}

/// Appends the default scene to a map.
pub fn gen_map(map: &mut Vec<Point>)
    ensures
        final(map)@ == old(map)@ + spec_default_map(),
        wf_map(old(map)@) ==> wf_map(final(map)@),
{
    map.push(Point { x: 65536, y: 65536 });
    map.push(Point { x: 196608, y: 196608 });
    map.push(Point { x: 196608, y: 262144 });
    map.push(Point { x: 65536, y: 393216 });
    map.push(Point { x: 196608, y: 327680 });
    map.push(Point { x: 327680, y: 196608 });
    map.push(Point { x: 327680, y: 262144 });
    map.push(Point { x: 327680, y: 327680 });
    proof {
        assert(map@ =~= old(map)@ + spec_default_map());
        if wf_map(old(map)@) {
            assert forall|i: int| 0 <= i < map@.len() implies wf_coord(#[trigger] map@[i]) by {
                if i < old(map)@.len() {
                } else {
                    assert(map@[i] == spec_default_map()[i - old(map)@.len()]);
                }
            }
        }
    }
}

/// Projects a hit distance and a ray offset to a strip height in pixels.
pub fn distance_to_height(dist: i64, angle: i64) -> (h: i64)
    requires
        0 < dist,
        -ANGLE_BOUND <= angle <= ANGLE_BOUND,
    ensures
        h == spec_height(dist as int, angle as int),
        0 <= h <= H_NUM,
{
    let c = crate::geometry::fx_cos(angle);
    if c <= 0 {
        H_NUM
    } else {
        let denom: i128 = wide_mul(dist, c);
        proof {
            assert(1 <= (dist as int) * (c as int)) by (nonlinear_arith)
                requires
                    0 < dist as int,
                    0 < c as int,
            ;
            lemma_div_pos_is_pos(H_NUM as int, denom as int);
            lemma_div_nonincreasing(H_NUM as int, denom as int);
        }
        let q: i128 = (H_NUM as i128) / denom;
        q as i64
    }
}

/// Builds the strip of column `i` from the unclamped height.
fn column_strip(state: &State, i: u32, w: u32, h: i64) -> (s: Strip)
    requires
        wf_state(*state),
        i < state.samples,
        w == (WIDTH as int) / (state.samples as int),
        0 <= h <= H_NUM,
    ensures
        s == spec_strip(*state, i as int, h as int),
{
    proof {
        lemma_div_nonincreasing(WIDTH as int, state.samples as int);
        assert((i as int) * (w as int) <= 640000) by (nonlinear_arith)
            requires
                0 <= i as int <= 800,
                0 <= w as int <= 800,
        ;
    }
    let shade: u8 = if state.fog {
        let t: i64 = ((h + (HEIGHT as i64) / 2) * SCALE) / (HEIGHT as i64);
        proof {
            lemma_div_pos_is_pos((h + (HEIGHT as int) / 2) * (SCALE as int), HEIGHT as int);
        }
        let m: i64 = if t > SCALE {
            SCALE
        } else {
            t
        };
        proof {
            lemma_div_pos_is_pos(((SCALE - m) as int) * 255, SCALE as int);
            lemma_div_is_ordered(((SCALE - m) as int) * 255, (SCALE as int) * 255, SCALE as int);
            lemma_div_multiples_vanish(255, SCALE as int);
        }
        let a: i64 = ((SCALE - m) * 255) / SCALE;
        a as u8
    } else {
        0
    };
    let hpx: u32 = if h > HEIGHT as i64 {
        HEIGHT
    } else {
        h as u32
    };
    Strip { x: i * w, y: HEIGHT / 2 - hpx / 2, width: w, height: hpx, shade }
}

/// Scans the whole map for the nearest cube along one ray. The first
/// positive hit is taken outright; later hits only replace it when
/// strictly smaller, so ties keep the earliest cube.
pub fn nearest_hit(map: &Vec<Point>, origin: Point, vector: Point) -> (res: Option<i64>)
    requires
        wf_map(map@),
        wf_coord(origin),
        wf_vec(vector),
    ensures
        (match res {
            None => spec_nearest(map@, origin, vector) is None,
            Some(d) => spec_nearest(map@, origin, vector) == Some(d as int) && d > 0,
        }),
{
    let mut best: Option<i64> = None;
    let mut idx: usize = 0;
    while idx < map.len()
        invariant
            0 <= idx <= map.len(),
            wf_map(map@),
            wf_coord(origin),
            wf_vec(vector),
            (match best {
                None => spec_nearest(map@.take(idx as int), origin, vector) is None,
                Some(d) => spec_nearest(map@.take(idx as int), origin, vector) == Some(d as int)
                    && d > 0,
            }),
        decreases map.len() - idx,
    {
        let cube = map[idx];
        let temp = intersect(origin, vector, cube);
        proof {
            assert(map@.take(idx as int + 1).drop_last() =~= map@.take(idx as int));
            assert(map@.take(idx as int + 1).last() == map@[idx as int]);
        }
        if let Some(t) = temp {
            if t > 0 {
                best = match best {
                    None => Some(t),
                    Some(b) => if t < b {
                        Some(t)
                    } else {
                        Some(b)
                    },
                };
            }
        }
        idx = idx + 1;
    }
    proof {
        assert(map@.take(map@.len() as int) =~= map@);
    }
    best
}

/// Renders one frame: one entry per ray, swept from `direction + fov/2`
/// downward in equal angular steps, each entry exactly the strip (or
/// miss) that `spec_ray` prescribes.
pub fn render(map: &Vec<Point>, state: &State) -> (frame: Vec<Option<Strip>>)
    requires
        wf_map(map@),
        wf_state(*state),
        0 < state.fov < PI_FX,
    ensures
        frame@.len() == state.samples as int,
        forall|i: int| 0 <= i < state.samples as int ==> frame@[i] == spec_ray(map@, *state, i),
{
    let samples: u32 = state.samples;
    let delta: i64 = state.fov / (samples as i64);
    let w: u32 = WIDTH / samples;
    let mut theta: i64 = state.direction + state.fov / 2;
    let mut frame: Vec<Option<Strip>> = Vec::new();
    let mut i: u32 = 0;
    proof {
        lemma_div_pos_is_pos(state.fov as int, samples as int);
        lemma_div_nonincreasing(state.fov as int, samples as int);
    }
    while i < samples
        invariant
            0 <= i <= samples,
            samples == state.samples,
            wf_map(map@),
            wf_state(*state),
            0 < state.fov < PI_FX,
            0 <= delta <= state.fov,
            delta == (state.fov as int) / (state.samples as int),
            w == (WIDTH as int) / (state.samples as int),
            0 <= (i as int) * (delta as int) <= state.fov,
            theta as int == (state.direction as int) + (state.fov as int) / 2 - (i as int) * (
            delta as int),
            frame@.len() == i as int,
            forall|j: int| 0 <= j < i as int ==> frame@[j] == spec_ray(map@, *state, j),
        decreases samples - i,
    {
        let vector = angle_to_vec(theta);
        let hit = nearest_hit(map, state.position, vector);
        let entry: Option<Strip> = match hit {
            None => None,
            Some(d) => {
                let diff: i64 = state.direction - theta;
                let off: i64 = if diff < 0 {
                    -diff
                } else {
                    diff
                };
                let h = distance_to_height(d, off);
                Some(column_strip(state, i, w, h))
            },
        };
        frame.push(entry);
        proof {
            assert(entry == spec_ray(map@, *state, i as int));
            assert((i as int + 1) * (delta as int) == (i as int) * (delta as int) + (delta as int))
                by (nonlinear_arith);
            if i as int + 1 <= samples as int {
                assert((i as int + 1) * (delta as int) <= (samples as int) * (delta as int))
                    by (nonlinear_arith)
                    requires
                        i as int + 1 <= samples as int,
                        0 <= delta as int,
                ;
                lemma_fundamental_div_mod(state.fov as int, state.samples as int);
                lemma_mod_bound(state.fov as int, state.samples as int);
                assert((state.samples as int) * ((state.fov as int) / (state.samples as int)) == (
                (state.fov as int) / (state.samples as int)) * (state.samples as int))
                    by (nonlinear_arith);
            }
        }
        theta = theta - delta;
        i = i + 1;
    }
    frame
}

} // verus!
