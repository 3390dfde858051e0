use raycast::geometry::{angle_to_vec, fmax, fmin, fx_cos, fx_sin, rad, Point, PI_FX, SCALE};

const TOL: f64 = 0.01;

fn to_f(v: i64) -> f64 {
    v as f64 / SCALE as f64
}

#[test]
fn unit_length_direction_vectors() {
    // One ray direction per region of the circle, plus large unwrapped
    // angles from long rotation sessions.
    let angles: [i64; 12] = [
        0,
        1,
        30000,
        51472,
        102944,
        150000,
        PI_FX,
        250000,
        350000,
        -51472,
        40 * PI_FX + 1234,
        -40 * PI_FX - 1234,
    ];
    for &theta in angles.iter() {
        let v = angle_to_vec(theta);
        let len2 = to_f(v.x) * to_f(v.x) + to_f(v.y) * to_f(v.y);
        assert!((len2 - 1.0).abs() < TOL, "angle {} gave squared length {}", theta, len2);
    }
}

#[test]
fn cardinal_directions_are_exact_or_close() {
    let east = angle_to_vec(0);
    assert_eq!(east.x, SCALE);
    assert_eq!(east.y, 0);
    let west = angle_to_vec(PI_FX);
    assert!(west.x < -SCALE + 700);
    assert!(west.y.abs() <= 1);
}

#[test]
fn sine_and_cosine_ranges_and_signs() {
    assert_eq!(fx_sin(0), 0);
    assert!(fx_sin(102944) > SCALE - 2);
    assert!(fx_sin(PI_FX + 102944) < -SCALE + 2);
    assert_eq!(fx_cos(0), SCALE);
    assert!(fx_cos(102944).abs() <= 1);
    for &x in [-300000i64, -5, 0, 7, 99999, 205887, 411774, 1 << 30].iter() {
        assert!(fx_sin(x) <= SCALE && fx_sin(x) >= -SCALE);
        assert!(fx_cos(x) <= SCALE && fx_cos(x) >= -SCALE);
    }
}

#[test]
fn sine_is_periodic_in_two_pi() {
    for &x in [0i64, 12345, 102944, 205886, 300000].iter() {
        assert_eq!(fx_sin(x), fx_sin(x + 411774));
        assert_eq!(fx_cos(x), fx_cos(x - 411774));
    }
}

#[test]
fn degree_conversion() {
    assert_eq!(rad(SCALE), 1143);
    assert_eq!(rad(180 * SCALE), PI_FX);
    assert_eq!(rad(0), 0);
    assert_eq!(rad(-180 * SCALE), -PI_FX);
}

#[test]
fn fixed_min_max() {
    assert_eq!(fmin(3, 5), 3);
    assert_eq!(fmin(5, 3), 3);
    assert_eq!(fmax(-7, 2), 2);
    assert_eq!(fmax(2, 2), 2);
}

#[test]
fn points_compare_by_fields() {
    let a = Point { x: 1, y: 2 };
    let b = Point { x: 1, y: 2 };
    assert_eq!(a, b);
}
