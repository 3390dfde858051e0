use raycast::camera::State;
use raycast::geometry::{Point, SCALE};
use raycast::render::{distance_to_height, gen_map, nearest_hit, render, Strip, H_NUM};

fn pt(x: i64, y: i64) -> Point {
    Point { x, y }
}

#[test]
fn default_map_holds_the_eight_cubes() {
    let mut map: Vec<Point> = Vec::new();
    gen_map(&mut map);
    assert_eq!(map.len(), 8);
    assert_eq!(map[0], pt(SCALE, SCALE));
    assert_eq!(map[5], pt(5 * SCALE, 3 * SCALE));
    assert_eq!(map[7], pt(5 * SCALE, 5 * SCALE));
}

#[test]
fn gen_map_appends_to_what_is_there() {
    let mut map = vec![pt(7, 7)];
    gen_map(&mut map);
    assert_eq!(map.len(), 9);
    assert_eq!(map[0], pt(7, 7));
    assert_eq!(map[1], pt(SCALE, SCALE));
}

#[test]
fn nearer_cube_wins_the_tie_break() {
    // Cubes at (3,3) and (5,3) on a ray from (0,3) heading +x: the hit
    // must be the (3,3) cube, three units out.
    let map = vec![pt(5 * SCALE, 3 * SCALE), pt(3 * SCALE, 3 * SCALE)];
    let hit = nearest_hit(&map, pt(0, 3 * SCALE), pt(SCALE, 0));
    assert_eq!(hit, Some(3 * SCALE));
    // The scan order must not matter.
    let map2 = vec![pt(3 * SCALE, 3 * SCALE), pt(5 * SCALE, 3 * SCALE)];
    let hit2 = nearest_hit(&map2, pt(0, 3 * SCALE), pt(SCALE, 0));
    assert_eq!(hit2, Some(3 * SCALE));
}

#[test]
fn no_positive_hit_means_no_strip_distance() {
    let map = vec![pt(-4 * SCALE, 0)];
    assert_eq!(nearest_hit(&map, pt(0, 0), pt(SCALE, 0)), None);
}

#[test]
fn projector_exact_heights() {
    // Head-on at distance 1 the cube fills the screen; farther cubes
    // shrink in exact proportion.
    assert_eq!(distance_to_height(SCALE, 0), 800);
    assert_eq!(distance_to_height(2 * SCALE, 0), 400);
    assert_eq!(distance_to_height(4 * SCALE, 0), 200);
    assert_eq!(distance_to_height(800 * SCALE, 0), 1);
}

#[test]
fn projector_monotone_in_distance() {
    let mut last = H_NUM + 1;
    for d in 1..200i64 {
        let h = distance_to_height(d * SCALE / 8, 0);
        assert!(h <= last);
        last = h;
    }
}

#[test]
fn projector_monotone_in_offset() {
    // For a fixed distance the height grows as the ray leans away from
    // the view axis toward the quadrant edge.
    let offsets: [i64; 5] = [0, 20000, 51472, 80000, 102000];
    let mut last = 0i64;
    for &a in offsets.iter() {
        let h = distance_to_height(2 * SCALE, a);
        assert!(h >= last, "offset {} shrank the strip", a);
        last = h;
    }
}

#[test]
fn empty_map_renders_pure_background() {
    let map: Vec<Point> = Vec::new();
    let state = State {
        position: pt(123456, -98765),
        samples: 640,
        direction: 54321,
        fov: 85656,
        fog: true,
    };
    let frame = render(&map, &state);
    assert_eq!(frame.len(), 640);
    assert!(frame.iter().all(|e| e.is_none()));
}

#[test]
fn single_ray_head_on_cube_fills_half_the_screen() {
    // Camera at the origin facing +x, one cube two units ahead, a single
    // ray and a sliver of a field of view: one strip, 400 pixels tall,
    // vertically centered, flat black without fog.
    let map = vec![pt(2 * SCALE, 0)];
    let state = State {
        position: pt(0, 0),
        samples: 1,
        direction: 0,
        fov: 1,
        fog: false,
    };
    let frame = render(&map, &state);
    assert_eq!(frame.len(), 1);
    assert_eq!(
        frame[0],
        Some(Strip { x: 0, y: 200, width: 800, height: 400, shade: 0 })
    );
}

#[test]
fn fog_shades_by_apparent_height() {
    // Same scene with the cube four units out and fog on: height 200,
    // gray level (1 - (200 + 400)/800) * 255 = 63.
    let map = vec![pt(4 * SCALE, 0)];
    let state = State {
        position: pt(0, 0),
        samples: 1,
        direction: 0,
        fov: 1,
        fog: true,
    };
    let frame = render(&map, &state);
    assert_eq!(
        frame[0],
        Some(Strip { x: 0, y: 300, width: 800, height: 200, shade: 63 })
    );
}

#[test]
fn close_cube_clamps_to_full_screen_and_fades_out() {
    // A cube half a unit ahead projects taller than the screen: the
    // strip is clamped to the full height and fog turns it black.
    let map = vec![pt(SCALE / 2, 0)];
    let state = State {
        position: pt(0, 0),
        samples: 1,
        direction: 0,
        fov: 1,
        fog: true,
    };
    let frame = render(&map, &state);
    assert_eq!(
        frame[0],
        Some(Strip { x: 0, y: 0, width: 800, height: 800, shade: 0 })
    );
}

#[test]
fn frame_of_the_default_scene_from_the_start_pose() {
    // The session's opening pose: quarter-turn heading into the scene.
    let mut map: Vec<Point> = Vec::new();
    gen_map(&mut map);
    let state = State {
        position: pt(0, 0),
        samples: 800,
        direction: 51472,
        fov: 85656,
        fog: true,
    };
    let frame = render(&map, &state);
    assert_eq!(frame.len(), 800);
    // The central column looks straight down the diagonal at the cube at
    // (1,1) and must paint something; every strip is one column wide.
    assert!(frame[400].is_some());
    for e in frame.iter() {
        if let Some(s) = e {
            assert_eq!(s.width, 1);
            assert!(s.height <= 800);
            assert!(s.x < 800);
        }
    }
}
