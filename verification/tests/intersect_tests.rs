use raycast::geometry::{Point, SCALE};
use raycast::intersect::intersect;
use raycast::isqrt::isqrt;
use raycast::render::gen_map;

fn pt(x: i64, y: i64) -> Point {
    Point { x, y }
}

#[test]
fn ray_at_cube_center_hits_at_positive_distance() {
    // From (0.5, 0.5) straight toward the center of the cube at (3, 3).
    let origin = pt(SCALE / 2, SCALE / 2);
    let diag = pt(46341, 46341);
    let hit = intersect(origin, diag, pt(3 * SCALE, 3 * SCALE));
    match hit {
        Some(d) => assert!(d > 0),
        None => panic!("expected a hit"),
    }
}

#[test]
fn ray_away_from_every_cube_misses_all() {
    let mut map: Vec<Point> = Vec::new();
    gen_map(&mut map);
    // All cubes sit in the positive quadrant; aim into the negative one.
    let origin = pt(0, 0);
    for &vec in [pt(-46341, -46341), pt(-SCALE, -1000)].iter() {
        for cube in map.iter() {
            assert_eq!(intersect(origin, vec, *cube), None);
        }
    }
}

#[test]
fn axis_ray_exact_distance() {
    // Straight along +x into the cube two units ahead: distance exactly 2.
    let hit = intersect(pt(0, 0), pt(SCALE, 0), pt(2 * SCALE, 0));
    assert_eq!(hit, Some(2 * SCALE));
}

#[test]
fn behind_the_camera_is_no_hit() {
    let hit = intersect(pt(0, 0), pt(SCALE, 0), pt(-3 * SCALE, 0));
    assert_eq!(hit, None);
}

#[test]
fn zero_direction_never_hits() {
    assert_eq!(intersect(pt(0, 0), pt(0, 0), pt(0, 0)), None);
}

#[test]
fn parallel_axis_slab_quirk_is_kept() {
    // A ray along +x with a zero y component never gets clipped by the
    // y slabs, so a cube well off the ray line still reports a hit.
    let hit = intersect(pt(0, 0), pt(SCALE, 0), pt(2 * SCALE, 5 * SCALE));
    assert_eq!(hit, Some(2 * SCALE));
}

#[test]
fn diagonal_distance_is_euclidean() {
    // From the origin along (1,1)/sqrt(2) to the cube at (2,2): the entry
    // corner is at (2,2), a straight-line distance of 2*sqrt(2).
    let hit = intersect(pt(0, 0), pt(46341, 46341), pt(2 * SCALE, 2 * SCALE));
    let d = hit.expect("diagonal ray should hit");
    let expect = 2.0f64 * std::f64::consts::SQRT_2;
    let got = d as f64 / SCALE as f64;
    assert!((got - expect).abs() < 0.001, "distance {} vs {}", got, expect);
}

#[test]
fn integer_square_roots() {
    assert_eq!(isqrt(0), 0);
    assert_eq!(isqrt(1), 1);
    assert_eq!(isqrt(17), 4);
    assert_eq!(isqrt(1 << 40), 1 << 20);
    assert_eq!(isqrt((1 << 40) - 1), (1 << 20) - 1);
}
