//! Vehicles: per-tick physics, controllers, and respawn handling.
//!
//! Each tick integrates steering, gravity, acceleration, a planar speed
//! cap, anti-drift realignment, a terminal-velocity cap, and position;
//! then resolves track collision (walls, floor snap, friction, gravity
//! reorientation). A vehicle that leaves the track counts down a respawn
//! timer and is reset. All arithmetic is exact fixed point; the spec
//! functions below state each step to the last unit.
use vstd::prelude::*;
use crate::linalg::{
    Vector, Quat, Mtx, in_bounds, dot_s, scale_s, mag_sq_wide, mag_s, normalized_s, cross_s,
    approach_v, vec_mul_mtx_s, mtx_from_quat_s, quat_in_bounds, quat_mul_s, quat_axis_angle_s,
    quat_normalized_s, quat_norm_sq_wide, signed_angle_s, lemma_vec_mul_mtx_bound, lemma_scale_bound,
};
use crate::math::{
    abs_i, tdiv, fx_mul_s, fx_div_s, approach_s, clamp_s, sqrt_floor, fx_mul, fx_div, fx_approach,
    clamp_i64, tdiv_i64, tdiv_i128, isqrt_u128, lemma_abs_mul, lemma_tdiv_bound, lemma_fx_mul_bound,
    lemma_div_facts, lemma_sqrt_floor, SCALE,
};
use crate::spline::{Spline, spline_wf, CollisionState, collision_fields, TRACK_RADIUS, WALL_HEIGHT};
use crate::octree::Octree;

verus! {

/// Vehicle body radius.
pub const RADIUS: i64 = 19661;

/// Height above the track within which gravity still pulls toward it.
pub const MAX_GRAVITY_HEIGHT: i64 = 524288;

/// Depth below the track surface still treated as a collision.
pub const COLLISION_DEPTH: i64 = 16384;

/// Height at or below which the vehicle snaps to the surface.
pub const GRAVITY_SNAP: i64 = 3277;

/// Ticks between leaving the track and respawning.
pub const RESPAWN_TIMER_INIT: u8 = 60;

/// One tick of the fixed sixty-per-second clock.
pub const TICK_DELTA: i64 = 1092;

/// Rate at which the up vector approaches the gravity direction.
pub const GRAVITY_APPROACH_SPEED: i64 = 327680;

/// Downward acceleration.
pub const GRAVITY_STRENGTH: i64 = 393216;

/// Floor friction coefficient.
pub const FRICTION_COEFFICIENT: i64 = 6554;

/// Height below which gravity pulls straight at the track.
pub const GRAVITY_FALLOFF_POINT: i64 = 131072;

/// Rate of the steering visual smoothing.
pub const STEERING_APPROACH_SPEED: i64 = 393216;

/// Cap on the gravity-parallel velocity component.
pub const GRAVITY_TERMINAL_VELOCITY: i64 = 524288;

/// How far ahead the guidance target sits on the spline.
pub const GUIDANCE_LOOKAHEAD: i64 = 262144;

/// Turns per radian: steering rates are stated in radians per second.
pub const INV_TAU: i64 = 10430;

/// Position bound of the simulated world.
pub const POS_MAX: i64 = 0x8000_0000;

/// Velocity component bound held by the invariant.
pub const VEL_MAX: i64 = 0x800_0000;

/// The pedal state a controller produces.
#[derive(Clone, Copy, PartialEq, Eq, Structural, Debug)]
pub enum Pedal {
    Accel,
    Brake,
    Neutral,
}

/// The pressed buttons handed in by the platform layer.
#[derive(Clone, Copy, PartialEq, Eq, Structural, Debug)]
pub struct Buttons {
    pub ok: bool,
    pub back: bool,
    pub pause: bool,
}

/// One tick's input state.
#[derive(Clone, Copy, PartialEq, Eq, Structural, Debug)]
pub struct Controls {
    pub buttons: Buttons,
    /// Steering input in [-1, 1] at the usual scale.
    pub steering: i64,
}

/// What a controller sees when deciding its next inputs.
pub struct ControllerGuidance {
    /// The last seen lateral position, normalized.
    pub horizontal: i64,
    /// The vehicle position.
    pub position: Vector,
    /// The signed magnitude of the vehicle's speed.
    pub speed: i64,
    /// The vehicle up vector.
    pub up: Vector,
    /// The vehicle forward vector.
    pub forward: Vector,
    /// A point somewhat ahead on the track to target.
    pub target: Vector,
    /// The state of the controls.
    pub controls: Controls,
}

/// A controller exposes a pedal and a steering value each tick; how a
/// controller refreshes them from guidance is its own affair.
pub trait Controller: Sized {
    fn pedal(&self) -> Pedal;

    fn steering(&self) -> i64;
}

/// Drives from the platform's buttons and steering axis.
#[derive(Clone, Copy, PartialEq, Eq, Structural, Debug)]
pub struct PlayerController {
    pub next_pedal: Pedal,
    pub next_steering: i64,
}

impl Controller for PlayerController {
    fn pedal(&self) -> (r: Pedal)
        ensures
            r == self.next_pedal,
    {
        self.next_pedal
    }

    fn steering(&self) -> (r: i64)
        ensures
            r == self.next_steering,
    {
        self.next_steering
    }

}

/// The player controller after reading the buttons: back brakes, the
/// confirm button accelerates, the steering axis passes through.
pub open spec fn player_updated_s(c: PlayerController, g: ControllerGuidance) -> PlayerController {
    PlayerController {
        next_pedal: if g.controls.buttons.back {
            Pedal::Brake
        } else if g.controls.buttons.ok {
            Pedal::Accel
        } else {
            Pedal::Neutral
        },
        next_steering: g.controls.steering,
    }
}

impl PlayerController {
    /// Reads the platform buttons: back brakes, the confirm button
    /// accelerates, and the steering axis passes through.
    pub fn update(&mut self, guidance: &ControllerGuidance)
        ensures
            *final(self) == player_updated_s(*old(self), *guidance),
    {
        self.next_pedal = if guidance.controls.buttons.back {
            Pedal::Brake
        } else if guidance.controls.buttons.ok {
            Pedal::Accel
        } else {
            Pedal::Neutral
        };
        self.next_steering = guidance.controls.steering;
    }
}

/// Does nothing: neutral pedal, centered steering.
#[derive(Clone, Copy, PartialEq, Eq, Structural, Debug)]
pub struct EmptyController;

impl Controller for EmptyController {
    fn pedal(&self) -> (r: Pedal)
        ensures
            r == Pedal::Neutral,
    {
        Pedal::Neutral
    }

    fn steering(&self) -> (r: i64)
        ensures
            r == 0,
    {
        0
    }

}

/// The controller a vehicle owns: inputs, self-driving, or none.
pub enum ControllerKind {
    Player(PlayerController),
    Ai(AIController),
    Empty(EmptyController),
}

/// Steers toward a lookahead point on the spline; brakes for tight
/// turns, for being far off center, and otherwise accelerates.
#[derive(Clone, Copy, PartialEq, Eq, Structural, Debug)]
pub struct AIController {
    pub next_pedal: Pedal,
    pub next_steering: i64,
}

/// The self-driving brake margin on the normalized lateral position.
pub const AI_BRAKE_RADIUS: i64 = 13107;

/// Steering strength against the target angle: five per radian, and the
/// angle is measured in turns, so the constant carries the two-pi.
pub const AI_STEER_STRENGTH: i64 = 2059031;

/// Angle (in turns) above which the turn counts as tight.
pub const AI_CAREFUL_ANGLE: i64 = 6780;

/// Speed below which the self-driver always accelerates.
pub const AI_MIN_SPEED: i64 = 458752;

/// Smoothing rate for the self-driver's steering.
pub const AI_STEER_INTERP_STRENGTH: i64 = 655360;

/// The self-driver's next steering value: the signed angle to the
/// target direction, scaled, clamped to the unit range, then smoothed.
pub open spec fn ai_steering_s(old_steering: int, angle: int) -> int {
    let new_steering = clamp_s(
        fx_mul_s(-angle, AI_STEER_STRENGTH as int),
        -(SCALE as int),
        SCALE as int,
    );
    clamp_s(
        approach_s(
            old_steering,
            fx_mul_s(AI_STEER_INTERP_STRENGTH as int, TICK_DELTA as int),
            new_steering,
        ),
        -2 * (SCALE as int),
        2 * (SCALE as int),
    )
}

impl Controller for AIController {
    fn pedal(&self) -> (r: Pedal)
        ensures
            r == self.next_pedal,
    {
        self.next_pedal
    }

    fn steering(&self) -> (r: i64)
        ensures
            r == self.next_steering,
    {
        self.next_steering
    }

}

/// The self-driving controller after one guidance read: steering follows
/// the signed angle toward the lookahead target (smoothed and clamped);
/// the pedal accelerates when slow, brakes for tight angles or wide
/// lateral offset, and accelerates otherwise.
pub open spec fn ai_updated_s(c: AIController, g: ControllerGuidance) -> AIController {
    let d = Vector {
        x: (g.target.x - g.position.x) as i64,
        y: (g.target.y - g.position.y) as i64,
        z: (g.target.z - g.position.z) as i64,
    };
    let t0 = normalized_s(d);
    let dir = if in_bounds(t0, SCALE as int) {
        t0
    } else {
        Vector { x: 0 as i64, y: 0 as i64, z: SCALE }
    };
    let angle = signed_angle_s(g.forward, dir, g.up);
    AIController {
        next_steering: ai_steering_s(c.next_steering as int, angle) as i64,
        next_pedal: if g.speed < AI_MIN_SPEED {
            Pedal::Accel
        } else if abs_i(angle) >= AI_CAREFUL_ANGLE as int {
            Pedal::Brake
        } else if abs_i(g.horizontal as int) >= AI_BRAKE_RADIUS as int {
            Pedal::Brake
        } else {
            Pedal::Accel
        },
    }
}

impl AIController {
    /// Aims at the guidance target (see `ai_updated_s`).
    #[verifier::rlimit(100)]
    #[verifier::spinoff_prover]
    pub fn update(&mut self, guidance: &ControllerGuidance)
        requires
            in_bounds(guidance.target, POS_MAX as int),
            in_bounds(guidance.position, POS_MAX as int),
            in_bounds(guidance.up, 0x400_0000 as int),
            in_bounds(guidance.forward, 0x400_0000 as int),
            abs_i(guidance.horizontal as int) <= 4 * (SCALE as int),
            abs_i(old(self).next_steering as int) <= 2 * (SCALE as int),
        ensures
            *final(self) == ai_updated_s(*old(self), *guidance),
    {
        let d = guidance.target.sub(guidance.position);
        proof {
            assert(in_bounds(d, 2 * (POS_MAX as int)));
        }
        let t0 = d.normalized();
        let target_direction = if -SCALE <= t0.x && t0.x <= SCALE && -SCALE <= t0.y && t0.y
            <= SCALE && -SCALE <= t0.z && t0.z <= SCALE {
            t0
        } else {
            Vector::z_axis()
        };
        let angle = guidance.forward.signed_angle(&target_direction, &guidance.up);
        proof {
            lemma_fx_mul_bound(
                (-angle) as int,
                AI_STEER_STRENGTH as int,
                crate::trig::HALF_TURN as int,
                AI_STEER_STRENGTH as int,
            );
            assert((crate::trig::HALF_TURN as int) * (AI_STEER_STRENGTH as int)
                <= 0x10_0000_0000_0000int) by (nonlinear_arith);
            lemma_fx_mul_bound(
                AI_STEER_INTERP_STRENGTH as int,
                TICK_DELTA as int,
                AI_STEER_INTERP_STRENGTH as int,
                TICK_DELTA as int,
            );
        }
        let new_steering = clamp_i64(fx_mul(-angle, AI_STEER_STRENGTH), -SCALE, SCALE);
        proof {
            assert((AI_STEER_INTERP_STRENGTH as int) * (TICK_DELTA as int) == 715653120int)
                by (nonlinear_arith);
            crate::math::lemma_tdiv_bound(715653120int, 715653120int, SCALE as int);
        }
        let rate = fx_mul(AI_STEER_INTERP_STRENGTH, TICK_DELTA);
        self.next_steering = clamp_i64(
            fx_approach(self.next_steering, rate, new_steering),
            -2 * SCALE,
            2 * SCALE,
        );
        let abs_angle = crate::math::abs_i64(angle);
        let abs_horizontal = crate::math::abs_i64(guidance.horizontal);
        self.next_pedal = if guidance.speed < AI_MIN_SPEED {
            Pedal::Accel
        } else if abs_angle >= AI_CAREFUL_ANGLE {
            Pedal::Brake
        } else if abs_horizontal >= AI_BRAKE_RADIUS {
            Pedal::Brake
        } else {
            Pedal::Accel
        };
    }
}

/// The pedal a controller currently offers.
pub open spec fn pedal_of(c: ControllerKind) -> Pedal {
    match c {
        ControllerKind::Player(p) => p.next_pedal,
        ControllerKind::Ai(a) => a.next_pedal,
        ControllerKind::Empty(_) => Pedal::Neutral,
    }
}

/// The steering a controller currently offers.
pub open spec fn steering_of(c: ControllerKind) -> int {
    match c {
        ControllerKind::Player(p) => p.next_steering as int,
        ControllerKind::Ai(a) => a.next_steering as int,
        ControllerKind::Empty(_) => 0,
    }
}

/// A controller after one guidance read: the player reads the buttons,
/// the self-driver aims at the target, the empty controller is inert.
pub open spec fn controller_updated_s(c: ControllerKind, g: ControllerGuidance) -> ControllerKind {
    match c {
        ControllerKind::Player(p) => ControllerKind::Player(player_updated_s(p, g)),
        ControllerKind::Ai(a) => ControllerKind::Ai(ai_updated_s(a, g)),
        ControllerKind::Empty(e) => ControllerKind::Empty(e),
    }
}

/// What a controller sees for a vehicle this tick: the last seen lateral
/// position and closest offset feed the lookahead target on the spline.
pub open spec fn guidance_s(s: Spline, v: Vehicle, controls: Controls) -> ControllerGuidance {
    ControllerGuidance {
        horizontal: v.last_horizontal,
        position: v.position,
        speed: signed_speed_s(v) as i64,
        up: up_vector_s(v),
        forward: forward_vector_s(v),
        target: crate::spline::get_baked_s(s, v.last_offset + GUIDANCE_LOOKAHEAD),
        controls,
    }
}

impl ControllerKind {
    /// The current pedal of whatever controller is installed.
    pub fn pedal(&self) -> (r: Pedal)
        ensures
            r == pedal_of(*self),
    {
        match self {
            ControllerKind::Player(c) => c.pedal(),
            ControllerKind::Ai(c) => c.pedal(),
            ControllerKind::Empty(c) => c.pedal(),
        }
    }

    /// The current steering of whatever controller is installed.
    pub fn steering(&self) -> (r: i64)
        ensures
            r as int == steering_of(*self),
    {
        match self {
            ControllerKind::Player(c) => c.steering(),
            ControllerKind::Ai(c) => c.steering(),
            ControllerKind::Empty(c) => c.steering(),
        }
    }
}

/// Static per-archetype constants, kept in the garage's registry.
pub struct Model {
    pub speed: i64,
    pub acceleration: i64,
    pub handling: i64,
    pub anti_drift: i64,
    pub mesh: crate::mesh::Mesh,
}

/// Model constants within the rates the physics arithmetic admits.
pub open spec fn model_wf(m: Model) -> bool {
    &&& 1 <= m.speed <= 0x100_0000
    &&& 0 <= m.acceleration <= 0x100_0000
    &&& 0 <= m.handling <= 0x100_0000
    &&& 0 <= m.anti_drift <= 0xC_0000
}

/// One racing vehicle.
pub struct Vehicle {
    pub position: Vector,
    pub rotation: Quat,
    pub velocity: Vector,
    /// Smoothed steering value, for the visual roll.
    pub steering: i64,
    pub model_id: u16,
    pub controller: ControllerKind,
    /// While set, the vehicle is uncontrolled and will respawn when the
    /// timer reaches zero.
    pub respawn_timer: Option<u8>,
    /// Where the vehicle respawns.
    pub respawn_point: Vector,
    /// The last seen normalized lateral position.
    pub last_horizontal: i64,
    /// The last seen closest spline offset.
    pub last_offset: i64,
}

/// The vehicle's structural invariant: every numeric field within the
/// window the physics arithmetic is verified for.
pub open spec fn vehicle_wf(v: Vehicle) -> bool {
    &&& in_bounds(v.position, POS_MAX as int)
    &&& in_bounds(v.velocity, VEL_MAX as int)
    &&& quat_in_bounds(v.rotation, SCALE as int)
    &&& abs_i(v.steering as int) <= 2 * (SCALE as int)
    &&& in_bounds(v.respawn_point, POS_MAX as int)
    &&& abs_i(v.last_horizontal as int) <= 4 * (SCALE as int)
    &&& 0 <= v.last_offset <= 2 * (crate::spline::LEN_MAX as int)
    &&& (v.respawn_timer is Some ==> 1 <= v.respawn_timer->0 <= RESPAWN_TIMER_INIT)
    &&& ({
        match v.controller {
            ControllerKind::Player(c) => abs_i(c.next_steering as int) <= 2 * (SCALE as int),
            ControllerKind::Ai(c) => abs_i(c.next_steering as int) <= 2 * (SCALE as int),
            ControllerKind::Empty(_) => true,
        }
    })
}

/// The vehicle's local up direction: the rotation applied to the
/// vertical axis.
pub open spec fn up_vector_s(v: Vehicle) -> Vector {
    vec_mul_mtx_s(Vector { x: 0 as i64, y: SCALE, z: 0 as i64 }, mtx_from_quat_s(v.rotation))
}

/// The vehicle's local forward direction.
pub open spec fn forward_vector_s(v: Vehicle) -> Vector {
    vec_mul_mtx_s(Vector { x: 0 as i64, y: 0 as i64, z: SCALE }, mtx_from_quat_s(v.rotation))
}

/// The gravity-parallel part of the velocity: the up vector scaled by
/// the velocity's component along it.
pub open spec fn gravity_part_s(v: Vector, up: Vector) -> Vector {
    scale_s(up, dot_s(v, up) as int)
}

impl Vehicle {
    /// A fresh vehicle at a spawn point: at rest, upright, respawning
    /// back to where it spawned.
    pub fn new(pos: Vector, model_id: u16, controller: ControllerKind) -> (r: Vehicle)
        requires
            in_bounds(pos, POS_MAX as int),
            (match controller {
                ControllerKind::Player(c) => abs_i(c.next_steering as int) <= 2 * (SCALE as int),
                ControllerKind::Ai(c) => abs_i(c.next_steering as int) <= 2 * (SCALE as int),
                ControllerKind::Empty(_) => true,
            }),
        ensures
            vehicle_wf(r),
            r == (Vehicle {
                position: pos,
                rotation: Quat { w: SCALE, x: 0 as i64, y: 0 as i64, z: 0 as i64 },
                velocity: Vector { x: 0 as i64, y: 0 as i64, z: 0 as i64 },
                steering: 0 as i64,
                model_id,
                controller,
                respawn_timer: None,
                respawn_point: pos,
                last_horizontal: 0 as i64,
                last_offset: 0 as i64,
            }),
    {
        Vehicle {
            position: pos,
            rotation: Quat::ident(),
            velocity: Vector::zero(),
            steering: 0,
            model_id,
            controller,
            respawn_timer: None,
            respawn_point: pos,
            last_horizontal: 0,
            last_offset: 0,
        }
    }

    /// The exact local up direction.
    pub fn up_vector(&self) -> (r: Vector)
        requires
            quat_in_bounds(self.rotation, SCALE as int),
        ensures
            r == up_vector_s(*self),
            in_bounds(r, 5 * (SCALE as int)),
    {
        let m = self.rotation.to_mtx();
        let r = m.mul_vec(&Vector::y_axis());
        proof {
            crate::linalg::lemma_axis_rows(mtx_from_quat_s(self.rotation));
        }
        r
    }

    /// The exact local forward direction.
    pub fn forward_vector(&self) -> (r: Vector)
        requires
            quat_in_bounds(self.rotation, SCALE as int),
        ensures
            r == forward_vector_s(*self),
            in_bounds(r, 5 * (SCALE as int)),
    {
        let m = self.rotation.to_mtx();
        let r = m.mul_vec(&Vector::z_axis());
        proof {
            crate::linalg::lemma_axis_rows(mtx_from_quat_s(self.rotation));
        }
        r
    }

    /// The gravity-parallel part of the current velocity.
    pub fn gravity(&self) -> (r: Vector)
        requires
            vehicle_wf(*self),
        ensures
            r == gravity_part_s(self.velocity, up_vector_s(*self)),
            in_bounds(r, 75 * (VEL_MAX as int)),
    {
        let up = self.up_vector();
        let d = self.velocity.dot(&up);
        proof {
            lemma_gravity_bounds(self.velocity, up);
            lemma_abs_mul(up.x as int, d as int, 5 * (SCALE as int), 15 * (VEL_MAX as int));
            lemma_abs_mul(up.y as int, d as int, 5 * (SCALE as int), 15 * (VEL_MAX as int));
            lemma_abs_mul(up.z as int, d as int, 5 * (SCALE as int), 15 * (VEL_MAX as int));
        }
        Vector {
            x: tdiv_i128((up.x as i128) * (d as i128), SCALE as i128) as i64,
            y: tdiv_i128((up.y as i128) * (d as i128), SCALE as i128) as i64,
            z: tdiv_i128((up.z as i128) * (d as i128), SCALE as i128) as i64,
        }
    }

    /// The velocity with its gravity-parallel part removed.
    pub fn velocity_without_gravity(&self) -> (r: Vector)
        requires
            vehicle_wf(*self),
        ensures
            ({
                let g = gravity_part_s(self.velocity, up_vector_s(*self));
                r.x == self.velocity.x - g.x && r.y == self.velocity.y - g.y && r.z
                    == self.velocity.z - g.z
            }),
            in_bounds(r, 76 * (VEL_MAX as int)),
    {
        let g = self.gravity();
        self.velocity.sub(g)
    }
}

/// Bounds for the gravity decomposition: the dot of a velocity with a
/// frame vector, and the frame vector scaled back by it.
proof fn lemma_gravity_bounds(v: Vector, up: Vector)
    requires
        in_bounds(v, VEL_MAX as int),
        in_bounds(up, 5 * (SCALE as int)),
    ensures
        abs_i(dot_s(v, up)) <= 15 * (VEL_MAX as int),
        in_bounds(gravity_part_s(v, up), 75 * (VEL_MAX as int)),
        forall|c: int|
            abs_i(c) <= 5 * (SCALE as int) ==> abs_i(#[trigger] fx_mul_s(c, dot_s(v, up))) <= 75
                * (VEL_MAX as int),
{
    lemma_abs_mul(v.x as int, up.x as int, VEL_MAX as int, 5 * (SCALE as int));
    lemma_abs_mul(v.y as int, up.y as int, VEL_MAX as int, 5 * (SCALE as int));
    lemma_abs_mul(v.z as int, up.z as int, VEL_MAX as int, 5 * (SCALE as int));
    assert(3 * ((VEL_MAX as int) * (5 * (SCALE as int))) == 15 * (VEL_MAX as int) * (
    SCALE as int)) by (nonlinear_arith);
    lemma_tdiv_bound(
        v.x * up.x + v.y * up.y + v.z * up.z,
        15 * (VEL_MAX as int) * (SCALE as int),
        SCALE as int,
    );
    vstd::arithmetic::div_mod::lemma_div_multiples_vanish(15 * (VEL_MAX as int), SCALE as int);
    let d = dot_s(v, up);
    assert forall|c: int| abs_i(c) <= 5 * (SCALE as int) implies abs_i(
        #[trigger] fx_mul_s(c, d),
    ) <= 75 * (VEL_MAX as int) by {
        lemma_fx_mul_bound(c, d, 5 * (SCALE as int), 15 * (VEL_MAX as int));
        assert((5 * (SCALE as int)) * (15 * (VEL_MAX as int)) == (SCALE as int) * (75 * (
        VEL_MAX as int))) by (nonlinear_arith);
        vstd::arithmetic::div_mod::lemma_div_multiples_vanish(75 * (VEL_MAX as int), SCALE as int);
    }
    assert(abs_i(up.x as int) <= 5 * (SCALE as int) && abs_i(up.y as int) <= 5 * (SCALE as int)
        && abs_i(up.z as int) <= 5 * (SCALE as int));
}

/// The planar velocity rescaled onto the cap when its squared magnitude
/// exceeds the cap's square: each component is scaled by the cap over
/// the rounded-up magnitude, which can only shrink the true magnitude.
pub open spec fn cap_speed_s(w: Vector, cap: int) -> Vector {
    if tdiv(mag_sq_wide(w), SCALE as int) > fx_mul_s(cap, cap) {
        let wsq = mag_sq_wide(w);
        let m = if sqrt_floor(wsq) * sqrt_floor(wsq) == wsq {
            sqrt_floor(wsq)
        } else {
            sqrt_floor(wsq) + 1
        };
        Vector {
            x: tdiv(w.x * cap, m) as i64,
            y: tdiv(w.y * cap, m) as i64,
            z: tdiv(w.z * cap, m) as i64,
        }
    } else {
        w
    }
}

/// Caps a velocity's magnitude by rescaling, never by subtracting: the
/// returned squared magnitude (at the usual scale) never exceeds the
/// squared cap, for any input velocity.
pub fn cap_speed(w: Vector, cap: i64) -> (r: Vector)
    requires
        in_bounds(w, 0x400_0000_0000 as int),
        1 <= cap <= 0x100_0000,
    ensures
        r == cap_speed_s(w, cap as int),
        tdiv(mag_sq_wide(r), SCALE as int) <= fx_mul_s(cap as int, cap as int),
        in_bounds(r, (cap + SCALE) as int),
        tdiv(mag_sq_wide(w), SCALE as int) <= fx_mul_s(cap as int, cap as int) ==> r == w,
{
    proof {
        crate::linalg::lemma_squares_nonneg_pub(w);
        lemma_abs_mul(w.x as int, w.x as int, 0x400_0000_0000 as int, 0x400_0000_0000 as int);
        lemma_abs_mul(w.y as int, w.y as int, 0x400_0000_0000 as int, 0x400_0000_0000 as int);
        lemma_abs_mul(w.z as int, w.z as int, 0x400_0000_0000 as int, 0x400_0000_0000 as int);
    }
    let sx: i128 = (w.x as i128) * (w.x as i128);
    let sy: i128 = (w.y as i128) * (w.y as i128);
    let sz: i128 = (w.z as i128) * (w.z as i128);
    let wsq: i128 = sx + sy + sz;
    let msq: i128 = tdiv_i128(wsq, SCALE as i128);
    proof {
        assert(wsq as int == mag_sq_wide(w));
        lemma_tdiv_bound(
            mag_sq_wide(w),
            3 * (0x400_0000_0000 as int) * (0x400_0000_0000 as int),
            SCALE as int,
        );
        lemma_fx_mul_bound(cap as int, cap as int, 0x100_0000 as int, 0x100_0000 as int);
        lemma_div_facts(mag_sq_wide(w), SCALE as int);
        lemma_tdiv_bound((cap as int) * (cap as int), (cap as int) * (cap as int), SCALE as int);
        assert((cap as int) * (cap as int) >= 0) by (nonlinear_arith);
        assert(tdiv(mag_sq_wide(w), SCALE as int) == mag_sq_wide(w) / (SCALE as int));
    }
    let capsq: i64 = fx_mul(cap, cap);
    if msq > capsq as i128 {
        let mfl: u64 = isqrt_u128(wsq as u128);
        let m: i64 = if (mfl as u128) * (mfl as u128) == wsq as u128 {
            mfl as i64
        } else {
            (mfl as i64) + 1
        };
        proof {
            lemma_sqrt_floor(mag_sq_wide(w));
            assert(wsq >= 0);
            assert((wsq as u128) as int == mag_sq_wide(w));
            assert(mfl as int == sqrt_floor(mag_sq_wide(w)));
            assert(m >= 1) by {
                if m == 0 {
                    assert(mfl == 0);
                    assert(sqrt_floor(mag_sq_wide(w)) == 0);
                    assert(mag_sq_wide(w) < (sqrt_floor(mag_sq_wide(w)) + 1) * (sqrt_floor(
                        mag_sq_wide(w),
                    ) + 1));
                    assert((0int + 1) * (0int + 1) == 1) by (nonlinear_arith);
                    assert(mag_sq_wide(w) < 1);
                    assert(mag_sq_wide(w) == 0);
                    assert(tdiv(0int, SCALE as int) == 0) by {
                        lemma_div_facts(0int, SCALE as int);
                    }
                    assert(fx_mul_s(cap as int, cap as int) >= 0) by {
                        assert((cap as int) * (cap as int) >= 0) by (nonlinear_arith);
                        lemma_div_facts((cap as int) * (cap as int), SCALE as int);
                    }
                    assert(false);
                }
            }
            assert((m as int) * (m as int) >= mag_sq_wide(w)) by (nonlinear_arith)
                requires
                    m as int == sqrt_floor(mag_sq_wide(w)) || m as int == sqrt_floor(
                        mag_sq_wide(w),
                    ) + 1,
                    sqrt_floor(mag_sq_wide(w)) >= 0,
                    m as int == sqrt_floor(mag_sq_wide(w)) ==> sqrt_floor(mag_sq_wide(w))
                        * sqrt_floor(mag_sq_wide(w)) == mag_sq_wide(w),
                    mag_sq_wide(w) < (sqrt_floor(mag_sq_wide(w)) + 1) * (sqrt_floor(
                        mag_sq_wide(w),
                    ) + 1),
            ;
            lemma_abs_mul(w.x as int, cap as int, 0x400_0000_0000 as int, 0x100_0000 as int);
            lemma_abs_mul(w.y as int, cap as int, 0x400_0000_0000 as int, 0x100_0000 as int);
            lemma_abs_mul(w.z as int, cap as int, 0x400_0000_0000 as int, 0x100_0000 as int);
            lemma_tdiv_bound(w.x * cap, abs_i(w.x * cap), m as int);
            lemma_tdiv_bound(w.y * cap, abs_i(w.y * cap), m as int);
            lemma_tdiv_bound(w.z * cap, abs_i(w.z * cap), m as int);
            lemma_comp_le_mag(w, m as int);
            assert(abs_i(w.x * cap) == abs_i(w.x as int) * (cap as int)
                && abs_i(w.y * cap) == abs_i(w.y as int) * (cap as int)
                && abs_i(w.z * cap) == abs_i(w.z as int) * (cap as int)) by (nonlinear_arith)
                requires
                    cap >= 0,
            ;
            assert(abs_i(tdiv(w.x * cap, m as int)) <= cap as int) by (nonlinear_arith)
                requires
                    abs_i(tdiv(w.x * cap, m as int)) * (m as int) <= abs_i(w.x * cap),
                    abs_i(w.x * cap) == abs_i(w.x as int) * (cap as int),
                    abs_i(w.x as int) <= m as int,
                    m >= 1,
                    cap >= 0,
            ;
            assert(abs_i(tdiv(w.y * cap, m as int)) <= cap as int) by (nonlinear_arith)
                requires
                    abs_i(tdiv(w.y * cap, m as int)) * (m as int) <= abs_i(w.y * cap),
                    abs_i(w.y * cap) == abs_i(w.y as int) * (cap as int),
                    abs_i(w.y as int) <= m as int,
                    m >= 1,
                    cap >= 0,
            ;
            assert(abs_i(tdiv(w.z * cap, m as int)) <= cap as int) by (nonlinear_arith)
                requires
                    abs_i(tdiv(w.z * cap, m as int)) * (m as int) <= abs_i(w.z * cap),
                    abs_i(w.z * cap) == abs_i(w.z as int) * (cap as int),
                    abs_i(w.z as int) <= m as int,
                    m >= 1,
                    cap >= 0,
            ;
        }
        let rx: i64 = tdiv_i128((w.x as i128) * (cap as i128), m as i128) as i64;
        let ry: i64 = tdiv_i128((w.y as i128) * (cap as i128), m as i128) as i64;
        let rz: i64 = tdiv_i128((w.z as i128) * (cap as i128), m as i128) as i64;
        let r = Vector { x: rx, y: ry, z: rz };
        proof {
            lemma_cap_math(w, r, cap as int, m as int);
            crate::linalg::lemma_squares_nonneg_pub(r);
            lemma_tdiv_bound(mag_sq_wide(r), (cap as int) * (cap as int), SCALE as int);
            assert(((cap as int) * (cap as int)) / (SCALE as int) == fx_mul_s(
                cap as int,
                cap as int,
            ));
        }
        r
    } else {
        proof {
            vstd::arithmetic::div_mod::lemma_fundamental_div_mod(mag_sq_wide(w), SCALE as int);
            vstd::arithmetic::div_mod::lemma_mod_bound(mag_sq_wide(w), SCALE as int);
            assert(mag_sq_wide(w) < (fx_mul_s(cap as int, cap as int) + 1) * (SCALE as int))
                by (nonlinear_arith)
                requires
                    mag_sq_wide(w) == (SCALE as int) * (mag_sq_wide(w) / (SCALE as int))
                        + mag_sq_wide(w) % (SCALE as int),
                    0 <= mag_sq_wide(w) % (SCALE as int) < SCALE as int,
                    mag_sq_wide(w) / (SCALE as int) <= fx_mul_s(cap as int, cap as int),
                    mag_sq_wide(w) >= 0,
            ;
            lemma_div_facts((cap as int) * (cap as int), SCALE as int);
            assert(in_bounds(w, (cap + SCALE) as int)) by (nonlinear_arith)
                requires
                    mag_sq_wide(w) == w.x * w.x + w.y * w.y + w.z * w.z,
                    mag_sq_wide(w) < (fx_mul_s(cap as int, cap as int) + 1) * (SCALE as int),
                    fx_mul_s(cap as int, cap as int) * (SCALE as int) <= (cap as int) * (
                    cap as int),
                    1 <= cap,
                    in_bounds(w, 0x400_0000_0000 as int),
            ;
        }
        w
    }
}

/// The rounded-up magnitude bounds every component.
proof fn lemma_comp_le_mag(w: Vector, m: int)
    requires
        (m as int) * (m as int) >= mag_sq_wide(w),
        m >= 0,
    ensures
        abs_i(w.x as int) <= m,
        abs_i(w.y as int) <= m,
        abs_i(w.z as int) <= m,
{
    assert(abs_i(w.x as int) <= m && abs_i(w.y as int) <= m && abs_i(w.z as int) <= m)
        by (nonlinear_arith)
        requires
            m * m >= w.x * w.x + w.y * w.y + w.z * w.z,
            m >= 0,
    ;
}

/// The heart of the speed cap: componentwise `|r_i| * m <= |w_i| * cap`
/// with `m * m >= |w|^2` forces `|r|^2 <= cap^2`.
proof fn lemma_cap_math(w: Vector, r: Vector, cap: int, m: int)
    requires
        m >= 1,
        cap >= 0,
        (m as int) * (m as int) >= mag_sq_wide(w),
        abs_i(r.x as int) * m <= abs_i(w.x * cap),
        abs_i(r.y as int) * m <= abs_i(w.y * cap),
        abs_i(r.z as int) * m <= abs_i(w.z * cap),
    ensures
        mag_sq_wide(r) <= cap * cap,
{
    assert(r.x * r.x * (m * m) <= w.x * w.x * (cap * cap)) by (nonlinear_arith)
        requires
            abs_i(r.x as int) * m <= abs_i(w.x * cap),
            m >= 1,
    ;
    assert(r.y * r.y * (m * m) <= w.y * w.y * (cap * cap)) by (nonlinear_arith)
        requires
            abs_i(r.y as int) * m <= abs_i(w.y * cap),
            m >= 1,
    ;
    assert(r.z * r.z * (m * m) <= w.z * w.z * (cap * cap)) by (nonlinear_arith)
        requires
            abs_i(r.z as int) * m <= abs_i(w.z * cap),
            m >= 1,
    ;
    let rsq = r.x * r.x + r.y * r.y + r.z * r.z;
    let wsq = w.x * w.x + w.y * w.y + w.z * w.z;
    assert(rsq * (m * m) <= wsq * (cap * cap)) by (nonlinear_arith)
        requires
            r.x * r.x * (m * m) <= w.x * w.x * (cap * cap),
            r.y * r.y * (m * m) <= w.y * w.y * (cap * cap),
            r.z * r.z * (m * m) <= w.z * w.z * (cap * cap),
            rsq == r.x * r.x + r.y * r.y + r.z * r.z,
            wsq == w.x * w.x + w.y * w.y + w.z * w.z,
    ;
    assert(wsq * (cap * cap) <= (m * m) * (cap * cap)) by (nonlinear_arith)
        requires
            m * m >= wsq,
            cap >= 0,
    ;
    assert(rsq <= cap * cap) by (nonlinear_arith)
        requires
            rsq * (m * m) <= (m * m) * (cap * cap),
            m >= 1,
    ;
}


/// A normalized quaternion, reset to the identity in the degenerate
/// zero-norm case (which regular play never reaches).
pub open spec fn renorm_s(q: Quat) -> Quat {
    let n = quat_normalized_s(q);
    if quat_in_bounds(n, SCALE as int) {
        n
    } else {
        Quat { w: SCALE, x: 0 as i64, y: 0 as i64, z: 0 as i64 }
    }
}

/// Normalizes a rotation, falling back to the identity when degenerate.
pub fn renormalize_quat(q: Quat) -> (r: Quat)
    requires
        quat_in_bounds(q, 64 * (SCALE as int)),
    ensures
        r == renorm_s(q),
        quat_in_bounds(r, SCALE as int),
{
    let n = q.normalized();
    if -SCALE <= n.w && n.w <= SCALE && -SCALE <= n.x && n.x <= SCALE && -SCALE <= n.y && n.y
        <= SCALE && -SCALE <= n.z && n.z <= SCALE {
        n
    } else {
        Quat::ident()
    }
}

/// A vector clamped componentwise into a symmetric window.
pub open spec fn clamp_v(v: Vector, m: int) -> Vector {
    Vector {
        x: clamp_s(v.x as int, -m, m) as i64,
        y: clamp_s(v.y as int, -m, m) as i64,
        z: clamp_s(v.z as int, -m, m) as i64,
    }
}

/// Exact componentwise clamp.
pub fn clamp_vec(v: Vector, m: i64) -> (r: Vector)
    requires
        1 <= m,
    ensures
        r == clamp_v(v, m as int),
        in_bounds(r, m as int),
{
    Vector {
        x: clamp_i64(v.x, -m, m),
        y: clamp_i64(v.y, -m, m),
        z: clamp_i64(v.z, -m, m),
    }
}

/// The pedal as a signed unit factor.
pub open spec fn pedal_value_s(p: Pedal) -> int {
    match p {
        Pedal::Accel => SCALE as int,
        Pedal::Brake => -(SCALE as int),
        Pedal::Neutral => 0,
    }
}

/// The planar velocity after anti-drift realignment: its direction is
/// smoothed toward forward or backward (whichever it already faces
/// more), then rescaled to its old magnitude.
pub open spec fn align_without_s(without: Vector, fwd: Vector, anti_drift: int) -> Vector {
    let f = normalized_s(fwd);
    let b = Vector { x: (-f.x) as i64, y: (-f.y) as i64, z: (-f.z) as i64 };
    let len = mag_s(without);
    let wn = normalized_s(without);
    let rate = fx_mul_s(anti_drift, TICK_DELTA as int);
    let chosen = if dot_s(f, wn) > dot_s(b, wn) {
        approach_v(wn, rate, f)
    } else {
        approach_v(wn, rate, b)
    };
    let v = normalized_s(chosen);
    scale_s(v, len)
}

/// One physics integration step: gravity, optional acceleration, the
/// planar speed cap, anti-drift, the terminal-velocity cap, and the
/// position integral; the new velocity and position are clamped into
/// the invariant windows (regular play stays far inside them).
pub open spec fn update_physics_s(v: Vehicle, model: Model, pedal: Pedal) -> Vehicle {
    let up = up_vector_s(v);
    let fwd = forward_vector_s(v);
    let gstep = scale_s(up, fx_mul_s(GRAVITY_STRENGTH as int, TICK_DELTA as int));
    let vel1 = Vector {
        x: (v.velocity.x - gstep.x) as i64,
        y: (v.velocity.y - gstep.y) as i64,
        z: (v.velocity.z - gstep.z) as i64,
    };
    let grav = gravity_part_s(vel1, up);
    let without = Vector {
        x: (vel1.x - grav.x) as i64,
        y: (vel1.y - grav.y) as i64,
        z: (vel1.z - grav.z) as i64,
    };
    let astep = scale_s(
        fwd,
        fx_mul_s(fx_mul_s(pedal_value_s(pedal), model.acceleration as int), TICK_DELTA as int),
    );
    let without2 = if v.respawn_timer is None {
        Vector {
            x: (without.x + astep.x) as i64,
            y: (without.y + astep.y) as i64,
            z: (without.z + astep.z) as i64,
        }
    } else {
        without
    };
    let without3 = cap_speed_s(without2, model.speed as int);
    let without4 = align_without_s(without3, fwd, model.anti_drift as int);
    let grav2 = cap_speed_s(grav, GRAVITY_TERMINAL_VELOCITY as int);
    let vel2 = clamp_v(
        Vector {
            x: (grav2.x + without4.x) as i64,
            y: (grav2.y + without4.y) as i64,
            z: (grav2.z + without4.z) as i64,
        },
        VEL_MAX as int,
    );
    let step = scale_s(vel2, TICK_DELTA as int);
    let pos2 = clamp_v(
        Vector {
            x: (v.position.x + step.x) as i64,
            y: (v.position.y + step.y) as i64,
            z: (v.position.z + step.z) as i64,
        },
        POS_MAX as int,
    );
    Vehicle { position: pos2, velocity: vel2, ..v }
}

impl Vehicle {
    /// Steering integration: rotates about the local up axis by the
    /// steering input times handling (skipped while respawning, like the
    /// visual steering smoothing), and keeps the rotation normalized.
    pub fn handle_steering(&mut self, model: &Model, steer: i64)
        requires
            vehicle_wf(*old(self)),
            model_wf(*model),
            abs_i(steer as int) <= 2 * (SCALE as int),
        ensures
            vehicle_wf(*final(self)),
            *final(self) == steer_apply_s(*old(self), *model, steer as int),
    {
        if self.respawn_timer.is_some() {
            return ;
        }
        proof {
            lemma_fx_mul_bound(-steer as int, model.handling as int, 2 * (SCALE as int), 0x100_0000 as int);
            lemma_fx_mul_bound(
                fx_mul_s(-steer as int, model.handling as int),
                TICK_DELTA as int,
                0x2_0000_0000 as int,
                TICK_DELTA as int,
            );
            lemma_fx_mul_bound(
                fx_mul_s(fx_mul_s(-steer as int, model.handling as int), TICK_DELTA as int),
                INV_TAU as int,
                0x8_0000_0000 as int,
                INV_TAU as int,
            );
            lemma_fx_mul_bound(
                STEERING_APPROACH_SPEED as int,
                TICK_DELTA as int,
                STEERING_APPROACH_SPEED as int,
                TICK_DELTA as int,
            );
        }
        let a1 = fx_mul(-steer, model.handling);
        let a2 = fx_mul(a1, TICK_DELTA);
        let angle = fx_mul(a2, INV_TAU);
        let rot = Quat::axis_angle(&Vector::y_axis(), angle);
        self.rotation = renormalize_quat(rot.mul(self.rotation));
        proof {
            assert((STEERING_APPROACH_SPEED as int) * (TICK_DELTA as int) == 429391872int)
                by (nonlinear_arith);
            lemma_tdiv_bound(429391872int, 429391872int, SCALE as int);
        }
        let rate = fx_mul(STEERING_APPROACH_SPEED, TICK_DELTA);
        // the smoothing keeps real steering well inside the window; the
        // clamp makes that a stated invariant
        self.steering = clamp_i64(fx_approach(self.steering, rate, steer), -2 * SCALE, 2 * SCALE);
    }

    /// One full physics integration step (see `update_physics_s`).
    #[verifier::rlimit(100)]
    #[verifier::spinoff_prover]
    pub fn update_physics(&mut self, model: &Model, pedal: Pedal)
        requires
            vehicle_wf(*old(self)),
            model_wf(*model),
        ensures
            vehicle_wf(*final(self)),
            *final(self) == update_physics_s(*old(self), *model, pedal),
    {
        let up = self.up_vector();
        let fwd = self.forward_vector();
        proof {
            lemma_fx_mul_bound(
                GRAVITY_STRENGTH as int,
                TICK_DELTA as int,
                GRAVITY_STRENGTH as int,
                TICK_DELTA as int,
            );
            crate::linalg::lemma_scale_bound(
                up,
                fx_mul_s(GRAVITY_STRENGTH as int, TICK_DELTA as int),
                5 * (SCALE as int),
                0x10_0000 as int,
            );
        }
        let gstep = up.scale(fx_mul(GRAVITY_STRENGTH, TICK_DELTA));
        let vel1 = self.velocity.sub(gstep);
        // decompose against the same up vector
        proof {
            lemma_gravity_bounds_wide(vel1, up);
        }
        let d = vel1.dot(&up);
        let grav = Vector {
            x: tdiv_i128((up.x as i128) * (d as i128), SCALE as i128) as i64,
            y: tdiv_i128((up.y as i128) * (d as i128), SCALE as i128) as i64,
            z: tdiv_i128((up.z as i128) * (d as i128), SCALE as i128) as i64,
        };
        let without = vel1.sub(grav);
        let pedal_value: i64 = match pedal {
            Pedal::Accel => SCALE,
            Pedal::Brake => -SCALE,
            Pedal::Neutral => 0,
        };
        proof {
            lemma_fx_mul_bound(
                pedal_value as int,
                model.acceleration as int,
                SCALE as int,
                0x100_0000 as int,
            );
            lemma_fx_mul_bound(
                fx_mul_s(pedal_value as int, model.acceleration as int),
                TICK_DELTA as int,
                0x100_0000_0000 as int,
                TICK_DELTA as int,
            );
            crate::linalg::lemma_scale_bound(
                fwd,
                fx_mul_s(fx_mul_s(pedal_value as int, model.acceleration as int), TICK_DELTA as int),
                5 * (SCALE as int),
                0x4_0000_0000 as int,
            );
        }
        let astep = fwd.scale(fx_mul(fx_mul(pedal_value, model.acceleration), TICK_DELTA));
        let without2 = if self.respawn_timer.is_none() {
            without.add(astep)
        } else {
            without
        };
        let without3 = cap_speed(without2, model.speed);
        let without4 = align_without(without3, fwd, model.anti_drift);
        let grav2 = cap_speed(grav, GRAVITY_TERMINAL_VELOCITY);
        let vel2 = clamp_vec(grav2.add(without4), VEL_MAX);
        proof {
            lemma_fx_mul_bound(vel2.x as int, TICK_DELTA as int, VEL_MAX as int, TICK_DELTA as int);
            crate::linalg::lemma_scale_bound(vel2, TICK_DELTA as int, VEL_MAX as int, TICK_DELTA as int);
        }
        let step = vel2.scale(TICK_DELTA);
        let pos2 = clamp_vec(self.position.add(step), POS_MAX);
        self.velocity = vel2;
        self.position = pos2;
    }
}

/// Bounds for decomposing a velocity one gravity step wide of the
/// invariant window.
proof fn lemma_gravity_bounds_wide(v: Vector, up: Vector)
    requires
        in_bounds(v, 2 * (VEL_MAX as int)),
        in_bounds(up, 5 * (SCALE as int)),
    ensures
        abs_i(dot_s(v, up)) <= 30 * (VEL_MAX as int),
        in_bounds(gravity_part_s(v, up), 150 * (VEL_MAX as int)),
        forall|c: int|
            abs_i(c) <= 5 * (SCALE as int) ==> abs_i(#[trigger] fx_mul_s(c, dot_s(v, up))) <= 150
                * (VEL_MAX as int),
{
    lemma_abs_mul(v.x as int, up.x as int, 2 * (VEL_MAX as int), 5 * (SCALE as int));
    lemma_abs_mul(v.y as int, up.y as int, 2 * (VEL_MAX as int), 5 * (SCALE as int));
    lemma_abs_mul(v.z as int, up.z as int, 2 * (VEL_MAX as int), 5 * (SCALE as int));
    assert(3 * ((2 * (VEL_MAX as int)) * (5 * (SCALE as int))) == 30 * (VEL_MAX as int) * (
    SCALE as int)) by (nonlinear_arith);
    lemma_tdiv_bound(
        v.x * up.x + v.y * up.y + v.z * up.z,
        30 * (VEL_MAX as int) * (SCALE as int),
        SCALE as int,
    );
    vstd::arithmetic::div_mod::lemma_div_multiples_vanish(30 * (VEL_MAX as int), SCALE as int);
    let d = dot_s(v, up);
    assert forall|c: int| abs_i(c) <= 5 * (SCALE as int) implies abs_i(
        #[trigger] fx_mul_s(c, d),
    ) <= 150 * (VEL_MAX as int) by {
        lemma_fx_mul_bound(c, d, 5 * (SCALE as int), 30 * (VEL_MAX as int));
        assert((5 * (SCALE as int)) * (30 * (VEL_MAX as int)) == (SCALE as int) * (150 * (
        VEL_MAX as int))) by (nonlinear_arith);
        vstd::arithmetic::div_mod::lemma_div_multiples_vanish(150 * (VEL_MAX as int), SCALE as int);
    }
}

/// Anti-drift realignment (see `align_without_s`).
fn align_without(without: Vector, fwd: Vector, anti_drift: i64) -> (r: Vector)
    requires
        in_bounds(without, 0x4000_0000 as int),
        in_bounds(fwd, 5 * (SCALE as int)),
        0 <= anti_drift <= 0xC_0000,
    ensures
        r == align_without_s(without, fwd, anti_drift as int),
        in_bounds(r, 0x1_0000_0000_0000 as int),
{
    let f = fwd.normalized();
    let b = f.neg();
    proof {
        assert(in_bounds(f, 5 * (SCALE as int)));
    }
    let len = without_mag(without);
    let wn = without_normalized(without);
    proof {
        lemma_fx_mul_bound(anti_drift as int, TICK_DELTA as int, 0xC_0000 as int, TICK_DELTA as int);
    }
    let rate = fx_mul(anti_drift, TICK_DELTA);
    let df = f.dot(&wn);
    let db = b.dot(&wn);
    let chosen = if df > db {
        wn.approach(rate, &f)
    } else {
        wn.approach(rate, &b)
    };
    proof {
        let rr = fx_mul_s(anti_drift as int, TICK_DELTA as int);
        lemma_fx_mul_bound(anti_drift as int, TICK_DELTA as int, 0xC_0000 as int, TICK_DELTA as int);
        assert(in_bounds(wn, 0x4000_0000 as int));
        crate::math::lemma_approach_abs(wn.x as int, rr, f.x as int, 0x4000_0000 as int, 5 * (
        SCALE as int));
        crate::math::lemma_approach_abs(wn.y as int, rr, f.y as int, 0x4000_0000 as int, 5 * (
        SCALE as int));
        crate::math::lemma_approach_abs(wn.z as int, rr, f.z as int, 0x4000_0000 as int, 5 * (
        SCALE as int));
        crate::math::lemma_approach_abs(wn.x as int, rr, b.x as int, 0x4000_0000 as int, 5 * (
        SCALE as int));
        crate::math::lemma_approach_abs(wn.y as int, rr, b.y as int, 0x4000_0000 as int, 5 * (
        SCALE as int));
        crate::math::lemma_approach_abs(wn.z as int, rr, b.z as int, 0x4000_0000 as int, 5 * (
        SCALE as int));
    }
    let v = without_normalized(chosen);
    proof {
        lemma_fx_mul_bound(v.x as int, len as int, 0x8000_0000 as int, 0x1_0000_0000 as int);
        lemma_fx_mul_bound(v.y as int, len as int, 0x8000_0000 as int, 0x1_0000_0000 as int);
        lemma_fx_mul_bound(v.z as int, len as int, 0x8000_0000 as int, 0x1_0000_0000 as int);
    }
    v.scale(len)
}

/// Magnitude of a planar velocity.
fn without_mag(v: Vector) -> (r: i64)
    requires
        in_bounds(v, 0x8000_0000 as int),
    ensures
        r as int == mag_s(v),
        0 <= r <= 0x1_0000_0000 as int,
{
    proof {
        crate::linalg::lemma_squares_nonneg_pub(v);
        lemma_abs_mul(v.x as int, v.x as int, 0x8000_0000 as int, 0x8000_0000 as int);
        lemma_abs_mul(v.y as int, v.y as int, 0x8000_0000 as int, 0x8000_0000 as int);
        lemma_abs_mul(v.z as int, v.z as int, 0x8000_0000 as int, 0x8000_0000 as int);
    }
    let sx: i128 = (v.x as i128) * (v.x as i128);
    let sy: i128 = (v.y as i128) * (v.y as i128);
    let sz: i128 = (v.z as i128) * (v.z as i128);
    let n: u128 = (sx + sy + sz) as u128;
    let r = isqrt_u128(n);
    proof {
        crate::math::lemma_sqrt_floor_unique(mag_sq_wide(v), r as int);
        assert((0x1_0000_0000int + 1) * (0x1_0000_0000int + 1) > 3 * (0x8000_0000 as int) * (
        0x8000_0000 as int)) by (nonlinear_arith);
        assert((r as int) <= 0x1_0000_0000int) by (nonlinear_arith)
            requires
                (r as int) * (r as int) <= mag_sq_wide(v),
                mag_sq_wide(v) <= 3 * (0x8000_0000 as int) * (0x8000_0000 as int),
                r >= 0,
        ;
    }
    r as i64
}

/// Normalization of a planar velocity.
fn without_normalized(v: Vector) -> (r: Vector)
    requires
        in_bounds(v, 0x8000_0000 as int),
    ensures
        r == normalized_s(v),
        in_bounds(r, 0x8000_0000 as int),
        mag_s(v) != 0 ==> in_bounds(r, SCALE as int),
        mag_s(v) == 0 ==> r == v,
{
    let m = without_mag(v);
    if m == 0 {
        v
    } else {
        proof {
            crate::linalg::lemma_squares_nonneg_pub(v);
            crate::math::lemma_sqrt_floor(mag_sq_wide(v));
            crate::linalg::lemma_norm_component_pub(v.x as int, mag_sq_wide(v), m as int);
            crate::linalg::lemma_norm_component_pub(v.y as int, mag_sq_wide(v), m as int);
            crate::linalg::lemma_norm_component_pub(v.z as int, mag_sq_wide(v), m as int);
        }
        Vector {
            x: tdiv_i128((v.x as i128) * (SCALE as i128), m as i128) as i64,
            y: tdiv_i128((v.y as i128) * (SCALE as i128), m as i128) as i64,
            z: tdiv_i128((v.z as i128) * (SCALE as i128), m as i128) as i64,
        }
    }
}



/// The velocity with its gravity-parallel part removed, as a function of
/// the vehicle state.
pub open spec fn without_gravity_s(v: Vehicle) -> Vector {
    let g = gravity_part_s(v.velocity, up_vector_s(v));
    Vector {
        x: (v.velocity.x - g.x) as i64,
        y: (v.velocity.y - g.y) as i64,
        z: (v.velocity.z - g.z) as i64,
    }
}

/// The wall response: when the vehicle (its radius accounted for) sits
/// past the track edge at wall height, it is pushed back to the adjusted
/// radius with the lateral sign kept, and both the gravity-parallel and
/// the wall-bound velocity components are removed.
pub open spec fn wall_response_s(v: Vehicle, st: CollisionState) -> Vehicle {
    let adjusted = (TRACK_RADIUS - RADIUS) as int;
    let abs_h = abs_i(st.horizontal as int);
    if abs_h > adjusted && st.height <= WALL_HEIGHT {
        let push = if st.horizontal >= 0 {
            abs_h - adjusted
        } else {
            -(abs_h - adjusted)
        };
        let delta = scale_s(st.right, push);
        let pos = clamp_v(
            Vector {
                x: (v.position.x - delta.x) as i64,
                y: (v.position.y - delta.y) as i64,
                z: (v.position.z - delta.z) as i64,
            },
            POS_MAX as int,
        );
        let w = without_gravity_s(v);
        let wd = dot_s(w, st.right);
        let wp = Vector {
            x: fx_mul_s(st.right.x as int, wd) as i64,
            y: fx_mul_s(st.right.y as int, wd) as i64,
            z: fx_mul_s(st.right.z as int, wd) as i64,
        };
        let vel = clamp_v(
            Vector { x: (w.x - wp.x) as i64, y: (w.y - wp.y) as i64, z: (w.z - wp.z) as i64 },
            VEL_MAX as int,
        );
        Vehicle { position: pos, velocity: vel, ..v }
    } else {
        v
    }
}

/// The floor response: at snap height the gravity-parallel velocity is
/// dropped, friction is subtracted along the motion (zeroing the
/// velocity instead of reversing it), and the position snaps onto the
/// surface along the track's up vector.
pub open spec fn floor_response_s(v: Vehicle, st: CollisionState) -> Vehicle {
    if st.height <= GRAVITY_SNAP {
        let w = without_gravity_s(v);
        let cl = clamp_v(w, VEL_MAX as int);
        let dir = normalized_s(cl);
        let fr = scale_s(
            dir,
            fx_mul_s(
                FRICTION_COEFFICIENT as int,
                fx_mul_s(GRAVITY_STRENGTH as int, TICK_DELTA as int),
            ),
        );
        let wf = Vector {
            x: (cl.x - fr.x) as i64,
            y: (cl.y - fr.y) as i64,
            z: (cl.z - fr.z) as i64,
        };
        let keep = dot_s(wf, cl);
        let vel = if keep <= 0 {
            Vector { x: 0 as i64, y: 0 as i64, z: 0 as i64 }
        } else {
            clamp_v(wf, VEL_MAX as int)
        };
        let snap = scale_s(st.up, st.height as int);
        let pos = clamp_v(
            Vector {
                x: (v.position.x - snap.x) as i64,
                y: (v.position.y - snap.y) as i64,
                z: (v.position.z - snap.z) as i64,
            },
            POS_MAX as int,
        );
        Vehicle { position: pos, velocity: vel, ..v }
    } else {
        v
    }
}

/// The gravity direction after a track contact: a height-keyed blend of
/// the world's down direction and the track's up vector, renormalized.
/// The blend factor subtracts the falloff point twice (once before and
/// once after the division), reproducing the source formula, under which
/// the factor is zero at every reachable height and the blend always
/// lands on the track's up vector.
pub open spec fn gravity_blend_s(st: CollisionState) -> Vector {
    let y = Vector { x: 0 as i64, y: SCALE, z: 0 as i64 };
    let h1 = st.height - (GRAVITY_FALLOFF_POINT as int);
    let h2 = fx_div_s(h1, MAX_GRAVITY_HEIGHT as int) - (GRAVITY_FALLOFF_POINT as int);
    let blend = clamp_s(h2, 0, SCALE as int);
    let down = scale_s(y, blend);
    let up_part = scale_s(st.up, (SCALE as int) - blend);
    let combined = Vector {
        x: (down.x + up_part.x) as i64,
        y: (down.y + up_part.y) as i64,
        z: (down.z + up_part.z) as i64,
    };
    clamp_v(normalized_s(clamp_v(combined, 0x8000_0000 as int)), 4 * (SCALE as int))
}

/// The whole track-collision response for a non-respawning vehicle, as a
/// function of the collision query's result: no track starts the respawn
/// countdown; within the track radius the wall and floor responses run
/// and the guidance fields are refreshed; beyond it (but within bounds)
/// nothing changes. The second component is the new gravity direction.
pub open spec fn collide_apply_s(v: Vehicle, col: Option<CollisionState>, walls: bool) -> (
    Vehicle,
    Vector,
) {
    let y = Vector { x: 0 as i64, y: SCALE, z: 0 as i64 };
    match col {
        None => (Vehicle { respawn_timer: Some(RESPAWN_TIMER_INIT), ..v }, y),
        Some(st) => {
            if abs_i(st.horizontal as int) <= TRACK_RADIUS as int {
                let v1 = if walls {
                    wall_response_s(v, st)
                } else {
                    v
                };
                let v2 = Vehicle {
                    last_offset: st.offset,
                    last_horizontal: (-fx_div_s(
                        st.horizontal as int,
                        TRACK_RADIUS as int,
                    )) as i64,
                    ..v1
                };
                (floor_response_s(v2, st), gravity_blend_s(st))
            } else {
                (v, y)
            }
        },
    }
}

/// The orientation realignment: the up vector is smoothed toward the
/// gravity direction and the rotation turns about their common normal by
/// the signed angle between them; skipped when the normal is
/// (near-)zero, the open flipped-vehicle case.
pub open spec fn align_apply_s(v: Vehicle, new_gravity: Vector) -> Vehicle {
    let up = up_vector_s(v);
    let rate = fx_mul_s(GRAVITY_APPROACH_SPEED as int, TICK_DELTA as int);
    let approach_up = approach_v(up, rate, new_gravity);
    let alignment = normalized_s(clamp_v(cross_s(up, new_gravity), 0x8000_0000 as int));
    let asq = tdiv(mag_sq_wide(alignment), SCALE as int);
    if asq > 0 {
        let ca = clamp_v(alignment, SCALE as int);
        let capped = clamp_v(approach_up, 0x400_0000 as int);
        let angle = signed_angle_s(up, capped, ca);
        let rot = quat_axis_angle_s(ca, angle);
        Vehicle { rotation: renorm_s(quat_mul_s(v.rotation, rot)), ..v }
    } else {
        v
    }
}

/// The steering step: while respawning nothing changes; otherwise the
/// rotation turns about the local up axis by the steering input times
/// handling (converted to turns) and the visual steering is smoothed.
pub open spec fn steer_apply_s(v: Vehicle, m: Model, steer: int) -> Vehicle {
    if v.respawn_timer is Some {
        v
    } else {
        let angle = fx_mul_s(
            fx_mul_s(fx_mul_s(-steer, m.handling as int), TICK_DELTA as int),
            INV_TAU as int,
        );
        let rot = quat_axis_angle_s(Vector { x: 0 as i64, y: SCALE, z: 0 as i64 }, angle);
        Vehicle {
            rotation: renorm_s(quat_mul_s(rot, v.rotation)),
            steering: clamp_s(
                approach_s(
                    v.steering as int,
                    fx_mul_s(STEERING_APPROACH_SPEED as int, TICK_DELTA as int),
                    steer,
                ),
                -2 * (SCALE as int),
                2 * (SCALE as int),
            ) as i64,
            ..v
        }
    }
}

/// A final rotation normalization, countering drift.
pub open spec fn finish_rotation_s(v: Vehicle) -> Vehicle {
    Vehicle { rotation: renorm_s(v.rotation), ..v }
}

impl Vehicle {
    /// Track collision response. While the respawn timer runs, nothing
    /// happens and gravity stays the world's down. Otherwise the track
    /// is queried under the vehicle: with no track found the respawn
    /// timer starts; on the track, a wall hit pushes the vehicle back
    /// inside and removes wall-bound velocity, a floor contact snaps to
    /// the surface with friction (velocity zeroed rather than reversed),
    /// and the returned gravity direction blends from the track's up
    /// toward the world's down with height.
    #[verifier::rlimit(100)]
    #[verifier::spinoff_prover]
    pub fn collide_with_spline(
        &mut self,
        spline: &Spline,
        octree: &Octree,
        walls: bool,
    ) -> (r: Vector)
        requires
            vehicle_wf(*old(self)),
            spline_wf(*spline),
            octree.wf(),
            crate::octree::segments_match(*octree, *spline),
        ensures
            vehicle_wf(*final(self)),
            in_bounds(r, 4 * (SCALE as int)),
            old(self).respawn_timer is Some ==> *final(self) == *old(self) && r == (Vector {
                x: 0 as i64,
                y: SCALE,
                z: 0 as i64,
            }),
            old(self).respawn_timer is None ==> exists|col: Option<CollisionState>|
                {
                    &&& crate::spline::collision_result_valid(
                        *spline,
                        *octree,
                        old(self).position,
                        col,
                    )
                    &&& (crate::spline::collision_owed(*spline, *octree, old(self).position)
                        ==> col is Some)
                    &&& *final(self) == (#[trigger] collide_apply_s(*old(self), col, walls)).0
                    &&& r == collide_apply_s(*old(self), col, walls).1
                },
            old(self).respawn_timer is None && (forall|k: int|
                0 <= k < octree.segment_log().len() ==> !crate::octree::box_contains(
                    (#[trigger] octree.segment_log()[k]).min,
                    octree.segment_log()[k].max,
                    old(self).position,
                )) ==> final(self).respawn_timer == Some(RESPAWN_TIMER_INIT)
                && final(self).position == old(self).position,
            final(self).respawn_timer is Some ==> (final(self).respawn_timer == old(
                self,
            ).respawn_timer || final(self).respawn_timer == Some(RESPAWN_TIMER_INIT)),
            final(self).respawn_point == old(self).respawn_point,
            final(self).rotation == old(self).rotation,
            final(self).model_id == old(self).model_id,
    {
        let mut new_gravity = Vector::y_axis();
        if self.respawn_timer.is_some() {
            return new_gravity;
        }
        let col = spline.get_collision(octree, self.position);
        match col {
            None => {
                // out of bounds: start the respawn countdown
                self.respawn_timer = Some(RESPAWN_TIMER_INIT);
                proof {
                    assert(*self == collide_apply_s(*old(self), col, walls).0);
                }
                new_gravity
            },
            Some(state) => {
                let height = state.height;
                let horizontal = state.horizontal;
                let abs_horizontal = crate::math::abs_i64(horizontal);
                proof {
                    assert(in_bounds(state.up, crate::spline::UPR_MAX as int));
                    assert(in_bounds(state.right, crate::spline::UPR_MAX as int));
                }
                if abs_horizontal <= TRACK_RADIUS {
                    if walls {
                        let adjusted = TRACK_RADIUS - RADIUS;
                        if abs_horizontal > adjusted && height <= WALL_HEIGHT {
                            // push back inside and drop wall-bound velocity
                            let overshoot = abs_horizontal - adjusted;
                            let push = if horizontal >= 0 {
                                overshoot
                            } else {
                                -overshoot
                            };
                            proof {
                                crate::linalg::lemma_scale_bound(
                                    state.right,
                                    push as int,
                                    crate::spline::UPR_MAX as int,
                                    TRACK_RADIUS as int,
                                );
                            }
                            let delta = state.right.scale(push);
                            self.position = clamp_vec(self.position.sub(delta), POS_MAX);
                            let without = self.velocity_without_gravity();
                            proof {
                                lemma_wall_dot(without, state.right);
                            }
                            let wall_dot = without.dot(&state.right);
                            let wall_part = Vector {
                                x: tdiv_i128(
                                    (state.right.x as i128) * (wall_dot as i128),
                                    SCALE as i128,
                                ) as i64,
                                y: tdiv_i128(
                                    (state.right.y as i128) * (wall_dot as i128),
                                    SCALE as i128,
                                ) as i64,
                                z: tdiv_i128(
                                    (state.right.z as i128) * (wall_dot as i128),
                                    SCALE as i128,
                                ) as i64,
                            };
                            self.velocity = clamp_vec(without.sub(wall_part), VEL_MAX);
                        }
                    }
                    // guidance bookkeeping
                    self.last_offset = state.offset;
                    proof {
                        lemma_tdiv_bound(
                            (horizontal as int) * (SCALE as int),
                            (crate::spline::BOUNDS_RADIUS as int) * (SCALE as int),
                            TRACK_RADIUS as int,
                        );
                    }
                    self.last_horizontal = -crate::math::fx_div(horizontal, TRACK_RADIUS);
                    if height <= GRAVITY_SNAP {
                        // floor contact: drop the gravity part, apply
                        // friction without reversing, snap to the surface
                        let without = self.velocity_without_gravity();
                        let clamped = clamp_vec(without, VEL_MAX);
                        let dir = without_normalized(clamped);
                        proof {
                            lemma_fx_mul_bound(
                                FRICTION_COEFFICIENT as int,
                                fx_mul_s(GRAVITY_STRENGTH as int, TICK_DELTA as int),
                                FRICTION_COEFFICIENT as int,
                                0x10_0000 as int,
                            );
                            assert(in_bounds(normalized_s(clamped), VEL_MAX as int));
                            crate::linalg::lemma_scale_bound(
                                normalized_s(clamped),
                                fx_mul_s(
                                    FRICTION_COEFFICIENT as int,
                                    fx_mul_s(GRAVITY_STRENGTH as int, TICK_DELTA as int),
                                ),
                                VEL_MAX as int,
                                0x10_0000 as int,
                            );
                        }
                        let fr = dir.scale(
                            fx_mul(FRICTION_COEFFICIENT, fx_mul(GRAVITY_STRENGTH, TICK_DELTA)),
                        );
                        let with_friction = clamped.sub(fr);
                        proof {
                            lemma_friction_dot(with_friction, clamped);
                        }
                        let keep = with_friction.dot(&clamped);
                        if keep <= 0 {
                            self.velocity = Vector::zero();
                        } else {
                            self.velocity = clamp_vec(with_friction, VEL_MAX);
                        }
                        proof {
                            crate::linalg::lemma_scale_bound(
                                state.up,
                                height as int,
                                crate::spline::UPR_MAX as int,
                                MAX_GRAVITY_HEIGHT as int,
                            );
                        }
                        let snap = state.up.scale(height);
                        self.position = clamp_vec(self.position.sub(snap), POS_MAX);
                    }
                    // blend the gravity direction by height
                    let h1 = height - GRAVITY_FALLOFF_POINT;
                    proof {
                        lemma_tdiv_bound(
                            (h1 as int) * (SCALE as int),
                            (MAX_GRAVITY_HEIGHT as int) * (SCALE as int),
                            MAX_GRAVITY_HEIGHT as int,
                        );
                    }
                    let h2 = crate::math::fx_div(h1, MAX_GRAVITY_HEIGHT) - GRAVITY_FALLOFF_POINT;
                    let blend = clamp_i64(h2, 0, SCALE);
                    proof {
                        crate::linalg::lemma_scale_bound(
                            Vector { x: 0 as i64, y: SCALE, z: 0 as i64 },
                            blend as int,
                            SCALE as int,
                            SCALE as int,
                        );
                        crate::linalg::lemma_scale_bound(
                            state.up,
                            (SCALE - blend) as int,
                            crate::spline::UPR_MAX as int,
                            SCALE as int,
                        );
                    }
                    let down_part = new_gravity.scale(blend);
                    let up_part = state.up.scale(SCALE - blend);
                    let combined = down_part.add(up_part);
                    let normalized = without_normalized(clamp_vec(combined, 0x8000_0000));
                    new_gravity = clamp_vec(normalized, 4 * SCALE);
                    proof {
                        assert(new_gravity == gravity_blend_s(state));
                        assert(*self == collide_apply_s(*old(self), col, walls).0);
                    }
                } else {
                    proof {
                        assert(*self == *old(self));
                        assert(*self == collide_apply_s(*old(self), col, walls).0);
                    }
                }
                new_gravity
            },
        }
    }

    /// Orientation realignment: the up vector is smoothed toward the
    /// gravity direction, rotating about their common normal; skipped
    /// when they are (anti)parallel, which the source leaves as an open
    /// recovery case.
    pub fn update_collision(&mut self, spline: &Spline, octree: &Octree, walls: bool)
        requires
            vehicle_wf(*old(self)),
            spline_wf(*spline),
            octree.wf(),
            crate::octree::segments_match(*octree, *spline),
        ensures
            vehicle_wf(*final(self)),
            old(self).respawn_timer is Some ==> *final(self) == align_apply_s(
                *old(self),
                Vector { x: 0 as i64, y: SCALE, z: 0 as i64 },
            ),
            old(self).respawn_timer is None ==> exists|col: Option<CollisionState>|
                {
                    &&& crate::spline::collision_result_valid(
                        *spline,
                        *octree,
                        old(self).position,
                        col,
                    )
                    &&& (crate::spline::collision_owed(*spline, *octree, old(self).position)
                        ==> col is Some)
                    &&& *final(self) == align_apply_s(
                        (#[trigger] collide_apply_s(*old(self), col, walls)).0,
                        collide_apply_s(*old(self), col, walls).1,
                    )
                },
            old(self).respawn_timer is None && (forall|k: int|
                0 <= k < octree.segment_log().len() ==> !crate::octree::box_contains(
                    (#[trigger] octree.segment_log()[k]).min,
                    octree.segment_log()[k].max,
                    old(self).position,
                )) ==> final(self).respawn_timer == Some(RESPAWN_TIMER_INIT),
            old(self).respawn_timer is Some ==> final(self).respawn_timer == old(self).respawn_timer,
            final(self).respawn_timer is Some ==> (final(self).respawn_timer == old(
                self,
            ).respawn_timer || final(self).respawn_timer == Some(RESPAWN_TIMER_INIT)),
            final(self).respawn_point == old(self).respawn_point,
            final(self).model_id == old(self).model_id,
    {
        let new_gravity = self.collide_with_spline(spline, octree, walls);
        let ghost mid = *self;
        let up = self.up_vector();
        proof {
            lemma_fx_mul_bound(
                GRAVITY_APPROACH_SPEED as int,
                TICK_DELTA as int,
                GRAVITY_APPROACH_SPEED as int,
                TICK_DELTA as int,
            );
        }
        let rate = fx_mul(GRAVITY_APPROACH_SPEED, TICK_DELTA);
        let approach_up = up.approach(rate, &new_gravity);
        let alignment0 = up.cross(&new_gravity);
        let alignment = without_normalized(clamp_vec(alignment0, 0x8000_0000));
        let asq = alignment.mag_sq();
        if asq > 0 {
            let clamped_align = clamp_vec(alignment, SCALE);
            let capped_approach = clamp_vec(approach_up, 0x400_0000);
            let angle = up.signed_angle(&capped_approach, &clamped_align);
            let rot = Quat::axis_angle(&clamped_align, angle);
            self.rotation = renormalize_quat(self.rotation.mul(rot));
        }
        proof {
            assert(*self == align_apply_s(mid, new_gravity));
        }
    }

    /// The signed speed: the planar velocity's magnitude, negated when
    /// the planar motion points backward (see `signed_speed_s`).
    pub fn signed_speed(&self) -> (r: i64)
        requires
            vehicle_wf(*self),
        ensures
            r as int == signed_speed_s(*self),
            abs_i(r as int) <= 0x1_0000_0000 as int,
    {
        let v = self.velocity_without_gravity();
        let cv = clamp_vec(v, 0x4000_0000);
        let f = self.forward_vector();
        let m = without_mag(cv);
        let d = cv.dot(&f);
        if d < 0 {
            -m
        } else {
            m
        }
    }

    /// One tick of the respawn countdown. A running timer counts down;
    /// at zero the vehicle returns exactly to its respawn point, at
    /// rest, upright, with the timer cleared. Without a timer nothing
    /// changes.
    pub fn respawn_step(&mut self)
        requires
            vehicle_wf(*old(self)),
        ensures
            vehicle_wf(*final(self)),
            *final(self) == respawn_step_s(*old(self)),
    {
        match self.respawn_timer {
            None => {},
            Some(t) => {
                let t2 = t - 1;
                if t2 == 0 {
                    self.position = self.respawn_point;
                    self.rotation = Quat::ident();
                    self.steering = 0;
                    self.velocity = Vector::zero();
                    self.respawn_timer = None;
                } else {
                    self.respawn_timer = Some(t2);
                }
            },
        }
    }

    /// One full vehicle tick: steering, physics, collision, and a final
    /// rotation normalization, in that order.
    pub fn update(
        &mut self,
        model: &Model,
        spline: &Spline,
        octree: &Octree,
        pedal: Pedal,
        steer: i64,
        walls: bool,
    )
        requires
            vehicle_wf(*old(self)),
            model_wf(*model),
            spline_wf(*spline),
            octree.wf(),
            crate::octree::segments_match(*octree, *spline),
            abs_i(steer as int) <= 2 * (SCALE as int),
        ensures
            vehicle_wf(*final(self)),
            final(self).respawn_point == old(self).respawn_point,
            final(self).model_id == old(self).model_id,
            old(self).respawn_timer is Some ==> final(self).respawn_timer == old(self).respawn_timer,
            ({
                let phys = update_physics_s(
                    steer_apply_s(*old(self), *model, steer as int),
                    *model,
                    pedal,
                );
                &&& (phys.respawn_timer is Some ==> *final(self) == finish_rotation_s(
                    align_apply_s(phys, Vector { x: 0 as i64, y: SCALE, z: 0 as i64 }),
                ))
                &&& (phys.respawn_timer is None ==> exists|col: Option<CollisionState>|
                    {
                        &&& crate::spline::collision_result_valid(
                            *spline,
                            *octree,
                            phys.position,
                            col,
                        )
                        &&& (crate::spline::collision_owed(*spline, *octree, phys.position)
                            ==> col is Some)
                        &&& *final(self) == finish_rotation_s(
                            align_apply_s(
                                (#[trigger] collide_apply_s(phys, col, walls)).0,
                                collide_apply_s(phys, col, walls).1,
                            ),
                        )
                    })
            }),
    {
        self.handle_steering(model, steer);
        self.update_physics(model, pedal);
        self.update_collision(spline, octree, walls);
        self.rotation = renormalize_quat(self.rotation);
    }
}

/// The signed speed: the magnitude of the gravity-free velocity (clamped
/// into the planar window), carrying the sign of its component along the
/// vehicle's forward direction.
pub open spec fn signed_speed_s(v: Vehicle) -> int {
    let g = gravity_part_s(v.velocity, up_vector_s(v));
    let w = Vector {
        x: (v.velocity.x - g.x) as i64,
        y: (v.velocity.y - g.y) as i64,
        z: (v.velocity.z - g.z) as i64,
    };
    let cw = clamp_v(w, 0x4000_0000);
    let m = mag_s(cw);
    if dot_s(cw, forward_vector_s(v)) < 0 {
        -m
    } else {
        m
    }
}

/// The respawn countdown as a function of the vehicle state.
pub open spec fn respawn_step_s(v: Vehicle) -> Vehicle {
    match v.respawn_timer {
        None => v,
        Some(t) => {
            if t - 1 == 0 {
                Vehicle {
                    position: v.respawn_point,
                    rotation: Quat { w: SCALE, x: 0 as i64, y: 0 as i64, z: 0 as i64 },
                    steering: 0 as i64,
                    velocity: Vector { x: 0 as i64, y: 0 as i64, z: 0 as i64 },
                    respawn_timer: None,
                    ..v
                }
            } else {
                Vehicle { respawn_timer: Some((t - 1) as u8), ..v }
            }
        },
    }
}

/// Iterated respawn steps.
pub open spec fn respawn_iter_s(v: Vehicle, n: nat) -> Vehicle
    decreases n,
{
    if n == 0 {
        v
    } else {
        respawn_iter_s(respawn_step_s(v), (n - 1) as nat)
    }
}

/// The respawn law: a vehicle whose timer just started (because the
/// track was lost) returns exactly to its respawn point, at rest and
/// upright, after `RESPAWN_TIMER_INIT` countdown steps, and its timer
/// is clear.
pub proof fn lemma_respawn_countdown(v: Vehicle, n: nat)
    requires
        v.respawn_timer == Some(n as u8),
        1 <= n <= RESPAWN_TIMER_INIT,
    ensures
        ({
            let r = respawn_iter_s(v, n);
            &&& r.position == v.respawn_point
            &&& r.velocity == (Vector { x: 0 as i64, y: 0 as i64, z: 0 as i64 })
            &&& r.rotation == (Quat { w: SCALE, x: 0 as i64, y: 0 as i64, z: 0 as i64 })
            &&& r.steering == 0
            &&& r.respawn_timer is None
            &&& r.respawn_point == v.respawn_point
        }),
    decreases n,
{
    if n == 1 {
        assert(respawn_iter_s(v, 1) == respawn_iter_s(respawn_step_s(v), 0));
    } else {
        let v2 = respawn_step_s(v);
        assert(v2.respawn_timer == Some((n - 1) as u8));
        lemma_respawn_countdown(v2, (n - 1) as nat);
    }
}

/// Bounds for removing the wall-parallel velocity.
proof fn lemma_wall_dot(without: Vector, right: Vector)
    requires
        in_bounds(without, 76 * (VEL_MAX as int)),
        in_bounds(right, crate::spline::UPR_MAX as int),
    ensures
        abs_i(dot_s(without, right)) <= 0x720_0000_0000 as int,
        abs_i(right.x * dot_s(without, right)) <= (0x7_2000_0000_0000 as int) * (SCALE as int),
        abs_i(right.y * dot_s(without, right)) <= (0x7_2000_0000_0000 as int) * (SCALE as int),
        abs_i(right.z * dot_s(without, right)) <= (0x7_2000_0000_0000 as int) * (SCALE as int),
        abs_i(tdiv(right.x * dot_s(without, right), SCALE as int)) <= 0x7_2000_0000_0000 as int,
        abs_i(tdiv(right.y * dot_s(without, right), SCALE as int)) <= 0x7_2000_0000_0000 as int,
        abs_i(tdiv(right.z * dot_s(without, right), SCALE as int)) <= 0x7_2000_0000_0000 as int,
{
    lemma_abs_mul(without.x as int, right.x as int, 76 * (VEL_MAX as int), crate::spline::UPR_MAX as int);
    lemma_abs_mul(without.y as int, right.y as int, 76 * (VEL_MAX as int), crate::spline::UPR_MAX as int);
    lemma_abs_mul(without.z as int, right.z as int, 76 * (VEL_MAX as int), crate::spline::UPR_MAX as int);
    assert(3 * ((76 * (VEL_MAX as int)) * (crate::spline::UPR_MAX as int)) <= (0x720_0000_0000int)
        * (SCALE as int)) by (nonlinear_arith);
    lemma_tdiv_bound(
        without.x * right.x + without.y * right.y + without.z * right.z,
        (0x720_0000_0000int) * (SCALE as int),
        SCALE as int,
    );
    vstd::arithmetic::div_mod::lemma_div_multiples_vanish(0x720_0000_0000int, SCALE as int);
    let d = dot_s(without, right);
    lemma_abs_mul(right.x as int, d, crate::spline::UPR_MAX as int, 0x720_0000_0000int);
    lemma_abs_mul(right.y as int, d, crate::spline::UPR_MAX as int, 0x720_0000_0000int);
    lemma_abs_mul(right.z as int, d, crate::spline::UPR_MAX as int, 0x720_0000_0000int);
    assert((crate::spline::UPR_MAX as int) * (0x720_0000_0000int) <= (0x7_2000_0000_0000int) * (
    SCALE as int)) by (nonlinear_arith);
    lemma_tdiv_bound(right.x * d, (0x7_2000_0000_0000int) * (SCALE as int), SCALE as int);
    lemma_tdiv_bound(right.y * d, (0x7_2000_0000_0000int) * (SCALE as int), SCALE as int);
    lemma_tdiv_bound(right.z * d, (0x7_2000_0000_0000int) * (SCALE as int), SCALE as int);
    vstd::arithmetic::div_mod::lemma_div_multiples_vanish(0x7_2000_0000_0000int, SCALE as int);
}

/// Bounds for the friction direction test.
proof fn lemma_friction_dot(a: Vector, b: Vector)
    requires
        in_bounds(a, 0x1_0000_0000 as int),
        in_bounds(b, VEL_MAX as int),
    ensures
        abs_i(dot_s(a, b)) <= 0x1800_0000_0000 as int,
{
    lemma_abs_mul(a.x as int, b.x as int, 0x1_0000_0000 as int, VEL_MAX as int);
    lemma_abs_mul(a.y as int, b.y as int, 0x1_0000_0000 as int, VEL_MAX as int);
    lemma_abs_mul(a.z as int, b.z as int, 0x1_0000_0000 as int, VEL_MAX as int);
    assert(3 * ((0x1_0000_0000 as int) * (VEL_MAX as int)) <= (0x1800_0000_0000int) * (
    SCALE as int)) by (nonlinear_arith);
    lemma_tdiv_bound(
        a.x * b.x + a.y * b.y + a.z * b.z,
        (0x1800_0000_0000int) * (SCALE as int),
        SCALE as int,
    );
    vstd::arithmetic::div_mod::lemma_div_multiples_vanish(0x1800_0000_0000int, SCALE as int);
}


/// The magnitude of a bounded vector (a public face of the planar
/// helpers, for the collision pass).
pub fn vec_mag(v: Vector) -> (r: i64)
    requires
        in_bounds(v, 0x8000_0000 as int),
    ensures
        r as int == mag_s(v),
        0 <= r <= 0x1_0000_0000 as int,
{
    without_mag(v)
}

/// Normalization of a bounded vector.
pub fn vec_normalize(v: Vector) -> (r: Vector)
    requires
        in_bounds(v, 0x8000_0000 as int),
    ensures
        r == normalized_s(v),
        in_bounds(r, 0x8000_0000 as int),
        mag_s(v) != 0 ==> in_bounds(r, SCALE as int),
        mag_s(v) == 0 ==> r == v,
{
    without_normalized(v)
}

} // verus!
