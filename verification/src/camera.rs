//! Camera state and the command set that mutates it between frames.
//!
//! Every command is an immediate, exact state transition; each one also
//! raises the redraw flag, which the frame loop consumes through
//! `take_needs_render`.

use vstd::prelude::*;
use crate::geometry::{
    Point, SCALE, COORD_BOUND, spec_cos, spec_sin, spec_rad, fx_cos, fx_sin, rad, wf_coord,
};

verus! {

/// Screen width in pixels, fixed for the session.
pub const WIDTH: u32 = 800;

/// Screen height in pixels, fixed for the session.
pub const HEIGHT: u32 = 800;

/// Distance walked per move command, in fixed-point world units (0.2).
pub const SPEED_FX: i64 = 13107;

/// Angle turned per rotate command, in fixed-point radians (2 degrees).
pub const ROT_FX: i64 = 2288;

/// Largest facing angle magnitude the camera may accumulate.
pub const DIR_LIMIT: i64 = 0x80_0000_0000;

/// Largest field-of-view magnitude the state may hold.
pub const FOV_LIMIT: i64 = 0x4000_0000;

/// The camera pose and rendering configuration.
#[derive(Clone, Copy, PartialEq, Eq, Structural, Debug)]
pub struct State {
    pub position: Point,
    pub samples: u32,
    pub direction: i64,
    pub fov: i64,
    pub fog: bool,
}

/// Machine bounds on the pose, and the sample-count invariant
/// `1 <= samples <= WIDTH` that the resolution commands maintain.
pub open spec fn wf_state(s: State) -> bool {
    &&& wf_coord(s.position)
    &&& -DIR_LIMIT <= s.direction <= DIR_LIMIT
    &&& -FOV_LIMIT <= s.fov <= FOV_LIMIT
    &&& 1 <= s.samples <= WIDTH
}

/// One movement component: the speed times a unit-vector component,
/// rescaled to world units with rounding toward zero.
pub open spec fn spec_step(c: int) -> int {
    let p = SPEED_FX * c;
    if p >= 0 {
        p / (SCALE as int)
    } else {
        -((-p) / (SCALE as int))
    }
}

/// Where a move command puts the camera: the position advanced `sign`
/// times one speed step along the facing direction.
pub open spec fn spec_moved(s: State, sign: int) -> State {
    State {
        position: Point {
            x: (s.position.x + sign * spec_step(spec_cos(s.direction as int))) as i64,
            y: (s.position.y + sign * spec_step(spec_sin(s.direction as int))) as i64,
        },
        ..s
    }
}

/// Fog toggling, the only effect of the toggle-fog command.
pub open spec fn spec_toggle_fog(s: State) -> State {
    State { fog: !s.fog, ..s }
}

/// Toggling fog twice restores the state exactly: same pose, same
/// resolution, same shading mode.
pub proof fn lemma_fog_roundtrip(s: State)
    ensures
        spec_toggle_fog(spec_toggle_fog(s)) == s,
{
}

fn step_component(c: i64) -> (r: i64)
    requires
        -SCALE <= c <= SCALE,
    ensures
        r == spec_step(c as int),
        -SPEED_FX <= r <= SPEED_FX,
{
    let p: i64 = SPEED_FX * c;
    if p >= 0 {
        p / SCALE
    } else {
        let q: i64 = (-p) / SCALE;
        -q
    }
}

/// The camera threaded through the frame loop: the mutable state plus the
/// needs-redraw flag every command raises.
pub struct Camera {
    pub state: State,
    pub needs_render: bool,
}

impl Camera {
    /// A fresh camera asks for its first frame at once.
    pub fn new(state: State) -> (cam: Camera)
        ensures
            cam.state == state,
            cam.needs_render,
    {
        Camera { state, needs_render: true }
    }

    /// Hands out the redraw flag and lowers it, leaving the pose alone.
    pub fn take_needs_render(&mut self) -> (r: bool)
        ensures
            r == old(self).needs_render,
            !final(self).needs_render,
            final(self).state == old(self).state,
    {
        let r = self.needs_render;
        self.needs_render = false;
        r
    }

    /// Walk one speed step along the facing direction.
    pub fn move_forward(&mut self)
        requires
            wf_state(old(self).state),
            -COORD_BOUND + SPEED_FX <= old(self).state.position.x <= COORD_BOUND - SPEED_FX,
            -COORD_BOUND + SPEED_FX <= old(self).state.position.y <= COORD_BOUND - SPEED_FX,
        ensures
            final(self).state == spec_moved(old(self).state, 1),
            final(self).needs_render,
            wf_state(final(self).state),
    {
        let dx = step_component(fx_cos(self.state.direction));
        let dy = step_component(fx_sin(self.state.direction));
        self.state.position.x = self.state.position.x + dx;
        self.state.position.y = self.state.position.y + dy;
        self.needs_render = true;
    }

    /// Walk one speed step against the facing direction.
    pub fn move_backward(&mut self)
        requires
            wf_state(old(self).state),
            -COORD_BOUND + SPEED_FX <= old(self).state.position.x <= COORD_BOUND - SPEED_FX,
            -COORD_BOUND + SPEED_FX <= old(self).state.position.y <= COORD_BOUND - SPEED_FX,
        ensures
            final(self).state == spec_moved(old(self).state, -1),
            final(self).needs_render,
            wf_state(final(self).state),
    {
        let dx = step_component(fx_cos(self.state.direction));
        let dy = step_component(fx_sin(self.state.direction));
        self.state.position.x = self.state.position.x - dx;
        self.state.position.y = self.state.position.y - dy;
        self.needs_render = true;
    }

    /// Turn left by the rotation speed; the angle is left unwrapped.
    pub fn rotate_left(&mut self)
        requires
            wf_state(old(self).state),
            old(self).state.direction <= DIR_LIMIT - ROT_FX,
        ensures
            final(self).state == (State {
                direction: (old(self).state.direction + ROT_FX) as i64,
                ..old(self).state
            }),
            final(self).needs_render,
            wf_state(final(self).state),
    {
        self.state.direction = self.state.direction + ROT_FX;
        self.needs_render = true;
    }

    /// Turn right by the rotation speed; the angle is left unwrapped.
    pub fn rotate_right(&mut self)
        requires
            wf_state(old(self).state),
            old(self).state.direction >= -DIR_LIMIT + ROT_FX,
        ensures
            final(self).state == (State {
                direction: (old(self).state.direction - ROT_FX) as i64,
                ..old(self).state
            }),
            final(self).needs_render,
            wf_state(final(self).state),
    {
        self.state.direction = self.state.direction - ROT_FX;
        self.needs_render = true;
    }

    /// Narrow the field of view by one degree; no clamping is applied.
    pub fn decrease_fov(&mut self)
        requires
            wf_state(old(self).state),
            old(self).state.fov >= -FOV_LIMIT + 1200,
        ensures
            final(self).state == (State {
                fov: (old(self).state.fov - spec_rad(SCALE as int)) as i64,
                ..old(self).state
            }),
            final(self).needs_render,
            wf_state(final(self).state),
    {
        let one_deg = rad(SCALE);
        proof {
            assert(spec_rad(SCALE as int) == (65536int * 205887) / (180int * 65536));
            assert(0 <= spec_rad(SCALE as int) < 1200);
        }
        self.state.fov = self.state.fov - one_deg;
        self.needs_render = true;
    }

    /// Widen the field of view by one degree; no clamping is applied.
    pub fn increase_fov(&mut self)
        requires
            wf_state(old(self).state),
            old(self).state.fov <= FOV_LIMIT - 1200,
        ensures
            final(self).state == (State {
                fov: (old(self).state.fov + spec_rad(SCALE as int)) as i64,
                ..old(self).state
            }),
            final(self).needs_render,
            wf_state(final(self).state),
    {
        let one_deg = rad(SCALE);
        proof {
            assert(spec_rad(SCALE as int) == (65536int * 205887) / (180int * 65536));
            assert(0 <= spec_rad(SCALE as int) < 1200);
        }
        self.state.fov = self.state.fov + one_deg;
        self.needs_render = true;
    }

    /// Halve the ray count, stopping at one ray: the sample count never
    /// drops below 1.
    pub fn decrease_resolution(&mut self)
        requires
            wf_state(old(self).state),
        ensures
            final(self).state == (State {
                samples: if old(self).state.samples / 2 < 1 {
                    1u32
                } else {
                    old(self).state.samples / 2
                },
                ..old(self).state
            }),
            1 <= final(self).state.samples <= WIDTH,
            final(self).needs_render,
            wf_state(final(self).state),
    {
        let halved = self.state.samples / 2;
        self.state.samples = if halved < 1 { 1 } else { halved };
        self.needs_render = true;
    }

    /// Double the ray count, stopping at the screen width: the sample
    /// count never exceeds WIDTH.
    pub fn increase_resolution(&mut self)
        requires
            wf_state(old(self).state),
        ensures
            final(self).state == (State {
                samples: if old(self).state.samples * 2 > WIDTH {
                    WIDTH
                } else {
                    (old(self).state.samples * 2) as u32
                },
                ..old(self).state
            }),
            1 <= final(self).state.samples <= WIDTH,
            final(self).needs_render,
            wf_state(final(self).state),
    {
        let doubled = self.state.samples * 2;
        self.state.samples = if doubled > WIDTH { WIDTH } else { doubled };
        self.needs_render = true;
    }

    /// Switch between fogged and flat-black shading.
    pub fn toggle_fog(&mut self)
        requires
            wf_state(old(self).state),
        ensures
            final(self).state == spec_toggle_fog(old(self).state),
            final(self).needs_render,
            wf_state(final(self).state),
    {
        self.state.fog = !self.state.fog;
        self.needs_render = true;
    }
}

} // verus!
