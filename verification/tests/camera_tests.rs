use raycast::camera::{Camera, State, ROT_FX, SPEED_FX, WIDTH};
use raycast::geometry::Point;

fn start_state() -> State {
    State {
        position: Point { x: 0, y: 0 },
        samples: 800,
        direction: 0,
        fov: 85656,
        fog: true,
    }
}

#[test]
fn new_camera_wants_a_first_frame() {
    let mut cam = Camera::new(start_state());
    assert!(cam.take_needs_render());
    assert!(!cam.take_needs_render());
}

#[test]
fn every_command_raises_the_redraw_flag() {
    let mut cam = Camera::new(start_state());
    let commands: [fn(&mut Camera); 9] = [
        Camera::move_forward,
        Camera::move_backward,
        Camera::rotate_left,
        Camera::rotate_right,
        Camera::decrease_fov,
        Camera::increase_fov,
        Camera::decrease_resolution,
        Camera::increase_resolution,
        Camera::toggle_fog,
    ];
    for cmd in commands.iter() {
        cam.take_needs_render();
        assert!(!cam.needs_render);
        cmd(&mut cam);
        assert!(cam.needs_render);
    }
}

#[test]
fn moving_east_steps_along_x() {
    let mut cam = Camera::new(start_state());
    cam.move_forward();
    assert_eq!(cam.state.position, Point { x: SPEED_FX, y: 0 });
    cam.move_backward();
    assert_eq!(cam.state.position, Point { x: 0, y: 0 });
}

#[test]
fn rotation_accumulates_without_wrapping() {
    let mut cam = Camera::new(start_state());
    for _ in 0..200 {
        cam.rotate_left();
    }
    assert_eq!(cam.state.direction, 200 * ROT_FX);
    cam.rotate_right();
    assert_eq!(cam.state.direction, 199 * ROT_FX);
}

#[test]
fn fov_steps_by_one_degree() {
    let mut cam = Camera::new(start_state());
    cam.decrease_fov();
    assert_eq!(cam.state.fov, 85656 - 1143);
    cam.increase_fov();
    cam.increase_fov();
    assert_eq!(cam.state.fov, 85656 + 1143);
}

#[test]
fn fov_is_not_clamped_at_zero() {
    let mut st = start_state();
    st.fov = 500;
    let mut cam = Camera::new(st);
    cam.decrease_fov();
    assert_eq!(cam.state.fov, 500 - 1143);
}

#[test]
fn resolution_never_leaves_its_bounds() {
    let mut cam = Camera::new(start_state());
    // Doubling from the top sticks at the screen width.
    cam.increase_resolution();
    assert_eq!(cam.state.samples, WIDTH);
    // Halving all the way down sticks at one ray.
    for _ in 0..20 {
        cam.decrease_resolution();
        assert!(cam.state.samples >= 1);
    }
    assert_eq!(cam.state.samples, 1);
    cam.decrease_resolution();
    assert_eq!(cam.state.samples, 1);
    // Doubling back up never exceeds the screen width.
    for step in 0..20 {
        cam.increase_resolution();
        assert!(cam.state.samples <= WIDTH);
        if step == 8 {
            assert_eq!(cam.state.samples, 512);
        }
    }
    assert_eq!(cam.state.samples, WIDTH);
}

#[test]
fn halving_odd_sample_counts_floors() {
    let mut st = start_state();
    st.samples = 3;
    let mut cam = Camera::new(st);
    cam.decrease_resolution();
    assert_eq!(cam.state.samples, 1);
}

#[test]
fn toggling_fog_twice_restores_the_state() {
    let mut cam = Camera::new(start_state());
    let before = cam.state;
    cam.toggle_fog();
    assert!(!cam.state.fog);
    assert_eq!(
        State { fog: true, ..cam.state },
        before,
        "only the fog flag may change"
    );
    cam.toggle_fog();
    assert_eq!(cam.state, before);
}
