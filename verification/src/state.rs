//! The simulation state: track, spatial index, and vehicles, advanced by
//! a fixed tick.
//!
//! Each tick: respawn countdowns run; every vehicle's controller and
//! physics step; the octree's per-tick vehicle buckets are rebuilt; and
//! pairwise vehicle collisions are resolved with buffered corrections so
//! the outcome does not depend on iteration order within the tick.
use vstd::prelude::*;
use crate::linalg::{Vector, in_bounds, dot_s, mag_sq_wide, normalized_s};
use crate::math::{abs_i, tdiv, fx_mul_s, fx_mul, tdiv_i64, tdiv_i128, clamp_i64, lemma_abs_mul, lemma_tdiv_bound, SCALE};
use crate::spline::{Spline, spline_wf};
use crate::octree::{Octree, segments_match, box_contains};
use crate::vehicle::{
    Vehicle, Model, ControllerKind, Pedal, Controls, ControllerGuidance, vehicle_wf, model_wf,
    clamp_vec, clamp_v, respawn_step_s, steer_apply_s, update_physics_s, collide_apply_s,
    align_apply_s, finish_rotation_s, guidance_s, controller_updated_s, pedal_of, steering_of,
    RADIUS, GUIDANCE_LOOKAHEAD, POS_MAX, VEL_MAX,
};
use crate::spline::{CollisionState, collision_result_valid, collision_owed};
use crate::octree::{OctreeListEntry, VEHICLE_BOX_HALF};
use crate::garage::Garage;

verus! {

/// The whole simulation: a loaded track and its index, the model
/// registry, and the racing vehicles.
pub struct GameState {
    pub spline: Spline,
    pub octree: Octree,
    pub garage: Garage,
    pub vehicles: Vec<Vehicle>,
    /// Whether wall collision is enabled.
    pub walls: bool,
}

/// The simulation's invariant: a well-formed track and index that agree,
/// well-formed models, and well-formed vehicles.
pub open spec fn state_wf(s: GameState) -> bool {
    &&& s.vehicles@.len() <= 4096
    &&& spline_wf(s.spline)
    &&& s.octree.wf()
    &&& segments_match(s.octree, s.spline)
    &&& forall|i: int| 0 <= i < s.vehicles@.len() ==> vehicle_wf(#[trigger] s.vehicles@[i])
    &&& forall|i: int| 0 <= i < s.garage.by_id@.len() ==> model_wf(#[trigger] s.garage.by_id@[i])
}

/// What the controller-and-physics pass does to one (already counted
/// down) vehicle: with a registered model the controller reads its
/// guidance and the full steering-physics-collision chain follows;
/// without one the vehicle coasts unchanged. (Kept opaque: the body is a
/// large composition; proofs reveal it where they establish or use it.)
#[verifier::opaque]
pub open spec fn vehicle_chain_rel(
    s: Spline,
    oct: Octree,
    controls: Controls,
    walls: bool,
    has_model: bool,
    m: Model,
    vr: Vehicle,
    v1: Vehicle,
) -> bool {
    if has_model {
        let g = guidance_s(s, vr, controls);
        let ctl = controller_updated_s(vr.controller, g);
        let vc = Vehicle { controller: ctl, ..vr };
        let phys = update_physics_s(steer_apply_s(vc, m, steering_of(ctl)), m, pedal_of(ctl));
        if phys.respawn_timer is Some {
            v1 == finish_rotation_s(
                align_apply_s(phys, Vector { x: 0 as i64, y: SCALE, z: 0 as i64 }),
            )
        } else {
            exists|col: Option<CollisionState>|
                {
                    &&& collision_result_valid(s, oct, phys.position, col)
                    &&& (collision_owed(s, oct, phys.position) ==> col is Some)
                    &&& v1 == finish_rotation_s(
                        align_apply_s(
                            (#[trigger] collide_apply_s(phys, col, walls)).0,
                            collide_apply_s(phys, col, walls).1,
                        ),
                    )
                }
        }
    } else {
        v1 == vr
    }
}

/// What one tick does to one vehicle before the buffered pair pass: the
/// respawn countdown runs, then the controller-and-physics chain.
pub open spec fn vehicle_tick_rel(
    s: Spline,
    oct: Octree,
    controls: Controls,
    walls: bool,
    has_model: bool,
    m: Model,
    v0: Vehicle,
    v1: Vehicle,
) -> bool {
    vehicle_chain_rel(s, oct, controls, walls, has_model, m, respawn_step_s(v0), v1)
}

/// The whole tick against the mid-tick vehicle states `mids`: every
/// vehicle steps by `vehicle_tick_rel`; the octree holds exactly one
/// conservative box per vehicle at its stepped position; and the final
/// vehicles equal the stepped ones except that buffered pair corrections
/// (bounded translations, redistributed momentum) replace position and
/// velocity. (Kept opaque like `vehicle_tick_rel`.)
#[verifier::opaque]
pub open spec fn tick_rel(
    pre: GameState,
    post: GameState,
    controls: Controls,
    mids: Seq<Vehicle>,
) -> bool {
    let n = pre.vehicles@.len() as int;
    &&& mids.len() == n
    &&& forall|i: int|
        0 <= i < n ==> vehicle_tick_rel(
            pre.spline,
            pre.octree,
            controls,
            pre.walls,
            (pre.vehicles@[i].model_id as int) < pre.garage.by_id@.len(),
            pre.garage.by_id@[pre.vehicles@[i].model_id as int],
            #[trigger] pre.vehicles@[i],
            mids[i],
        )
    &&& forall|i: int|
        0 <= i < n ==> (#[trigger] post.octree.vehicle_log()[i]).min == (Vector {
            x: (mids[i].position.x - VEHICLE_BOX_HALF) as i64,
            y: (mids[i].position.y - VEHICLE_BOX_HALF) as i64,
            z: (mids[i].position.z - VEHICLE_BOX_HALF) as i64,
        }) && post.octree.vehicle_log()[i].max == (Vector {
            x: (mids[i].position.x + VEHICLE_BOX_HALF) as i64,
            y: (mids[i].position.y + VEHICLE_BOX_HALF) as i64,
            z: (mids[i].position.z + VEHICLE_BOX_HALF) as i64,
        })
    &&& forall|i: int|
        0 <= i < n ==> {
            let vf = #[trigger] post.vehicles@[i];
            let v1 = mids[i];
            &&& vf.rotation == v1.rotation
            &&& vf.steering == v1.steering
            &&& vf.controller == v1.controller
            &&& vf.respawn_timer == v1.respawn_timer
            &&& vf.respawn_point == v1.respawn_point
            &&& vf.model_id == v1.model_id
            &&& vf.last_horizontal == v1.last_horizontal
            &&& vf.last_offset == v1.last_offset
            &&& exists|t: Vector|
                #![trigger in_bounds(t, (RADIUS as int) * n)]
                in_bounds(t, (RADIUS as int) * n) && vf.position == clamp_v(
                    Vector {
                        x: (v1.position.x + t.x) as i64,
                        y: (v1.position.y + t.y) as i64,
                        z: (v1.position.z + t.z) as i64,
                    },
                    POS_MAX as int,
                )
            &&& exists|mv: Vector|
                #![trigger in_bounds(mv, 0x7000_0000_0000 as int)]
                in_bounds(mv, 0x7000_0000_0000 as int) && vf.velocity == clamp_v(
                    mv,
                    VEL_MAX as int,
                )
        }
}

/// The per-vehicle chain relation reads only the octree's segment log.
pub proof fn lemma_vehicle_chain_rel_segments_only(
    s: Spline,
    a: Octree,
    b: Octree,
    controls: Controls,
    walls: bool,
    has_model: bool,
    m: Model,
    vr: Vehicle,
    v1: Vehicle,
)
    requires
        a.segment_log() == b.segment_log(),
        vehicle_chain_rel(s, a, controls, walls, has_model, m, vr, v1),
    ensures
        vehicle_chain_rel(s, b, controls, walls, has_model, m, vr, v1),
{
    reveal(vehicle_chain_rel);
    if has_model {
        let g = guidance_s(s, vr, controls);
        let ctl = controller_updated_s(vr.controller, g);
        let vc = Vehicle { controller: ctl, ..vr };
        let phys = update_physics_s(steer_apply_s(vc, m, steering_of(ctl)), m, pedal_of(ctl));
        if !(phys.respawn_timer is Some) {
            let col = choose|col: Option<CollisionState>|
                {
                    &&& collision_result_valid(s, a, phys.position, col)
                    &&& (collision_owed(s, a, phys.position) ==> col is Some)
                    &&& v1 == finish_rotation_s(
                        align_apply_s(
                            (#[trigger] collide_apply_s(phys, col, walls)).0,
                            collide_apply_s(phys, col, walls).1,
                        ),
                    )
                };
            crate::spline::lemma_collision_valid_segments_only(s, a, b, phys.position, col);
        }
    }
}

impl GameState {
    /// A fresh simulation over a loaded track.
    pub fn new(spline: Spline, octree: Octree, garage: Garage) -> (r: GameState)
        requires
            spline_wf(spline),
            octree.wf(),
            segments_match(octree, spline),
            forall|i: int| 0 <= i < garage.by_id@.len() ==> model_wf(#[trigger] garage.by_id@[i]),
        ensures
            state_wf(r),
            r.vehicles@.len() == 0,
    {
        GameState { spline, octree, garage, vehicles: Vec::new(), walls: true }
    }

    /// Spawns a vehicle at a position; it will respawn back there.
    pub fn spawn(&mut self, pos: Vector, model_id: u16, controller: ControllerKind)
        requires
            state_wf(*old(self)),
            old(self).vehicles@.len() < 4096,
            in_bounds(pos, POS_MAX as int),
            (match controller {
                ControllerKind::Player(c) => abs_i(c.next_steering as int) <= 2 * (SCALE as int),
                ControllerKind::Ai(c) => abs_i(c.next_steering as int) <= 2 * (SCALE as int),
                ControllerKind::Empty(_) => true,
            }),
        ensures
            state_wf(*final(self)),
            final(self).vehicles@ == old(self).vehicles@.push(
                Vehicle {
                    position: pos,
                    rotation: crate::linalg::Quat { w: SCALE, x: 0 as i64, y: 0 as i64, z: 0 as i64 },
                    velocity: Vector { x: 0 as i64, y: 0 as i64, z: 0 as i64 },
                    steering: 0 as i64,
                    model_id,
                    controller,
                    respawn_timer: None,
                    respawn_point: pos,
                    last_horizontal: 0 as i64,
                    last_offset: 0 as i64,
                },
            ),
            final(self).spline == old(self).spline,
            final(self).octree == old(self).octree,
            final(self).garage == old(self).garage,
            final(self).walls == old(self).walls,
    {
        let v = Vehicle::new(pos, model_id, controller);
        self.vehicles.push(v);
    }

    /// One controller refresh for one vehicle.
    fn update_controller(&mut self, i: usize, controls: &Controls)
        requires
            state_wf(*old(self)),
            i < old(self).vehicles@.len(),
            abs_i(controls.steering as int) <= 2 * (SCALE as int),
        ensures
            state_wf(*final(self)),
            final(self).vehicles@ == old(self).vehicles@.update(
                i as int,
                Vehicle {
                    controller: controller_updated_s(
                        old(self).vehicles@[i as int].controller,
                        guidance_s(old(self).spline, old(self).vehicles@[i as int], *controls),
                    ),
                    ..old(self).vehicles@[i as int]
                },
            ),
            final(self).spline == old(self).spline,
            final(self).octree == old(self).octree,
            final(self).garage == old(self).garage,
            final(self).walls == old(self).walls,
    {
        let last_offset = self.vehicles[i].last_offset;
        proof {
            assert(vehicle_wf(self.vehicles@[i as int]));
        }
        let target = self.spline.get_baked(last_offset + GUIDANCE_LOOKAHEAD);
        let speed = self.vehicles[i].signed_speed();
        let up = self.vehicles[i].up_vector();
        let forward = self.vehicles[i].forward_vector();
        let guidance = ControllerGuidance {
            horizontal: self.vehicles[i].last_horizontal,
            position: self.vehicles[i].position,
            speed,
            up,
            forward,
            target,
            controls: *controls,
        };
        proof {
            assert(guidance == guidance_s(
                old(self).spline,
                old(self).vehicles@[i as int],
                *controls,
            ));
        }
        let v = &mut self.vehicles[i];
        match &mut v.controller {
            ControllerKind::Player(c) => {
                c.update(&guidance);
            },
            ControllerKind::Ai(c) => {
                c.update(&guidance);
            },
            ControllerKind::Empty(_) => {},
        }
        proof {
            assert(self.vehicles@[i as int] == Vehicle {
                controller: controller_updated_s(
                    old(self).vehicles@[i as int].controller,
                    guidance,
                ),
                ..old(self).vehicles@[i as int]
            });
            assert(self.vehicles@ =~= old(self).vehicles@.update(
                i as int,
                Vehicle {
                    controller: controller_updated_s(
                        old(self).vehicles@[i as int].controller,
                        guidance,
                    ),
                    ..old(self).vehicles@[i as int]
                },
            ));
            assert(vehicle_wf(self.vehicles@[i as int]));
            assert(forall|j: int|
                0 <= j < self.vehicles@.len() ==> vehicle_wf(#[trigger] self.vehicles@[j]));
        }
    }

    /// The respawn countdown pass: every vehicle steps by
    /// `respawn_step_s`; nothing else changes.
    #[verifier::spinoff_prover]
    fn respawn_pass(&mut self)
        requires
            state_wf(*old(self)),
        ensures
            state_wf(*final(self)),
            final(self).vehicles@.len() == old(self).vehicles@.len(),
            final(self).spline == old(self).spline,
            final(self).garage == old(self).garage,
            final(self).walls == old(self).walls,
            final(self).octree == old(self).octree,
            forall|k: int|
                0 <= k < old(self).vehicles@.len() ==> #[trigger] final(self).vehicles@[k]
                    == respawn_step_s(old(self).vehicles@[k]),
    {
        let n = self.vehicles.len();
        let mut i: usize = 0;
        while i < n
            invariant
                state_wf(*self),
                n == self.vehicles@.len(),
                i <= n,
                self.spline == old(self).spline,
                self.garage == old(self).garage,
                self.walls == old(self).walls,
                self.octree == old(self).octree,
                forall|k: int|
                    0 <= k < i ==> #[trigger] self.vehicles@[k] == respawn_step_s(
                        old(self).vehicles@[k],
                    ),
                forall|k: int|
                    i <= k < n ==> #[trigger] self.vehicles@[k] == old(self).vehicles@[k],
            decreases n - i,
        {
            proof {
                assert(vehicle_wf(self.vehicles@[i as int]));
            }
            self.vehicles[i].respawn_step();
            proof {
                assert(forall|j: int|
                    0 <= j < self.vehicles@.len() ==> vehicle_wf(#[trigger] self.vehicles@[j]));
            }
            i += 1;
        }
    }

    /// One vehicle's controller and physics step against the current
    /// track and index: the whole `vehicle_tick_rel` chain, before the
    /// vehicle's velocity is parked for the buffered pair pass.
    #[verifier::rlimit(100)]
    #[verifier::spinoff_prover]
    fn physics_step(&mut self, i: usize, controls: &Controls)
        requires
            state_wf(*old(self)),
            i < old(self).vehicles@.len(),
            abs_i(controls.steering as int) <= 2 * (SCALE as int),
        ensures
            state_wf(*final(self)),
            final(self).vehicles@.len() == old(self).vehicles@.len(),
            final(self).spline == old(self).spline,
            final(self).garage == old(self).garage,
            final(self).walls == old(self).walls,
            final(self).octree == old(self).octree,
            forall|k: int|
                0 <= k < old(self).vehicles@.len() && k != i as int ==> #[trigger] final(self).vehicles@[
                    k
                ] == old(self).vehicles@[k],
            vehicle_chain_rel(
                old(self).spline,
                old(self).octree,
                *controls,
                old(self).walls,
                (old(self).vehicles@[i as int].model_id as int) < old(self).garage.by_id@.len(),
                old(self).garage.by_id@[old(self).vehicles@[i as int].model_id as int],
                old(self).vehicles@[i as int],
                final(self).vehicles@[i as int],
            ),
    {
        let ghost vr = self.vehicles@[i as int];
        let model_id = self.vehicles[i].model_id as usize;
        // a vehicle without a registered model coasts unchanged and its
        // controller is not consulted
        if model_id < self.garage.by_id.len() {
            self.update_controller(i, controls);
            let pedal = self.vehicles[i].controller.pedal();
            let steer = self.vehicles[i].controller.steering();
            proof {
                assert(vehicle_wf(self.vehicles@[i as int]));
                assert(model_wf(self.garage.by_id@[model_id as int]));
            }
            let ghost before_update = self.vehicles@[i as int];
            let spline_ref = &self.spline;
            let octree_ref = &self.octree;
            let model_ref = &self.garage.by_id[model_id];
            let v = &mut self.vehicles[i];
            v.update(model_ref, spline_ref, octree_ref, pedal, steer, self.walls);
            proof {
                reveal(vehicle_chain_rel);
                let m = old(self).garage.by_id@[vr.model_id as int];
                let g = guidance_s(old(self).spline, vr, *controls);
                let ctl = controller_updated_s(vr.controller, g);
                assert(before_update == Vehicle { controller: ctl, ..vr });
                let phys = update_physics_s(
                    steer_apply_s(before_update, m, steering_of(ctl)),
                    m,
                    pedal_of(ctl),
                );
                assert(vehicle_chain_rel(
                    old(self).spline,
                    old(self).octree,
                    *controls,
                    old(self).walls,
                    true,
                    m,
                    vr,
                    self.vehicles@[i as int],
                ));
            }
        } else {
            proof {
                reveal(vehicle_chain_rel);
            }
        }
    }

    /// One simulation tick (see the module description and `tick_rel`).
    /// A vehicle whose model id names no registered model coasts
    /// unchanged and its controller is not consulted.
    #[verifier::rlimit(100)]
    #[verifier::spinoff_prover]
    pub fn tick(&mut self, controls: &Controls)
        requires
            state_wf(*old(self)),
            abs_i(controls.steering as int) <= 2 * (SCALE as int),
        ensures
            state_wf(*final(self)),
            final(self).vehicles@.len() == old(self).vehicles@.len(),
            final(self).spline == old(self).spline,
            final(self).garage == old(self).garage,
            final(self).walls == old(self).walls,
            final(self).octree.segment_log() == old(self).octree.segment_log(),
            final(self).octree.root_min() == old(self).octree.root_min(),
            final(self).octree.root_max() == old(self).octree.root_max(),
            final(self).octree.vehicle_log().len() == old(self).vehicles@.len(),
            forall|k: int|
                0 <= k < old(self).vehicles@.len() ==> (#[trigger] final(self).octree.vehicle_log()[
                    k
                ]).index == k,
            exists|mids: Seq<Vehicle>| tick_rel(*old(self), *final(self), *controls, mids),
    {
        let n = self.vehicles.len();
        // respawn countdowns
        self.respawn_pass();
        // controller and physics pass, and octree repopulation
        self.octree.reset_vehicles();
        let ghost mut mids: Seq<Vehicle> = Seq::empty();
        let mut original_velocity: Vec<Vector> = Vec::new();
        let mut i: usize = 0;
        while i < n
            invariant
                state_wf(*self),
                n == self.vehicles@.len(),
                i <= n,
                original_velocity@.len() == i,
                abs_i(controls.steering as int) <= 2 * (SCALE as int),
                self.spline == old(self).spline,
                self.garage == old(self).garage,
                self.walls == old(self).walls,
                self.octree.segment_log() == old(self).octree.segment_log(),
                self.octree.root_min() == old(self).octree.root_min(),
                self.octree.root_max() == old(self).octree.root_max(),
                self.octree.vehicle_log().len() == i,
                forall|k: int|
                    0 <= k < i ==> (#[trigger] self.octree.vehicle_log()[k]).index == k,
                mids.len() == i,
                forall|k: int|
                    i <= k < n ==> #[trigger] self.vehicles@[k] == respawn_step_s(
                        old(self).vehicles@[k],
                    ),
                forall|k: int|
                    0 <= k < i ==> #[trigger] self.vehicles@[k] == (Vehicle {
                        velocity: Vector { x: 0 as i64, y: 0 as i64, z: 0 as i64 },
                        ..mids[k]
                    }),
                forall|k: int|
                    0 <= k < i ==> vehicle_tick_rel(
                        old(self).spline,
                        old(self).octree,
                        *controls,
                        old(self).walls,
                        ((#[trigger] old(self).vehicles@[k]).model_id as int) < old(
                            self,
                        ).garage.by_id@.len(),
                        old(self).garage.by_id@[old(self).vehicles@[k].model_id as int],
                        old(self).vehicles@[k],
                        mids[k],
                    ),
                forall|k: int|
                    0 <= k < i ==> (#[trigger] self.octree.vehicle_log()[k]).min == (Vector {
                        x: (mids[k].position.x - VEHICLE_BOX_HALF) as i64,
                        y: (mids[k].position.y - VEHICLE_BOX_HALF) as i64,
                        z: (mids[k].position.z - VEHICLE_BOX_HALF) as i64,
                    }) && self.octree.vehicle_log()[k].max == (Vector {
                        x: (mids[k].position.x + VEHICLE_BOX_HALF) as i64,
                        y: (mids[k].position.y + VEHICLE_BOX_HALF) as i64,
                        z: (mids[k].position.z + VEHICLE_BOX_HALF) as i64,
                    }),
            decreases n - i,
        {
            let ghost vr = self.vehicles@[i as int];
            let ghost oct_during = self.octree;
            let ghost has_model = (self.vehicles@[i as int].model_id as int)
                < self.garage.by_id@.len();
            self.physics_step(i, controls);
            proof {
                let m = old(self).garage.by_id@[old(self).vehicles@[i as int].model_id as int];
                lemma_vehicle_chain_rel_segments_only(
                    old(self).spline,
                    oct_during,
                    old(self).octree,
                    *controls,
                    old(self).walls,
                    has_model,
                    m,
                    vr,
                    self.vehicles@[i as int],
                );
                assert(vehicle_tick_rel(
                    old(self).spline,
                    old(self).octree,
                    *controls,
                    old(self).walls,
                    has_model,
                    m,
                    old(self).vehicles@[i as int],
                    self.vehicles@[i as int],
                ));
                mids = mids.push(self.vehicles@[i as int]);
            }
            original_velocity.push(self.vehicles[i].velocity);
            let zero = Vector::zero();
            self.vehicles[i].velocity = zero;
            proof {
                assert(self.vehicles@[i as int] == (Vehicle {
                    velocity: Vector { x: 0 as i64, y: 0 as i64, z: 0 as i64 },
                    ..mids[i as int]
                }));
                assert(vehicle_wf(self.vehicles@[i as int]));
                assert(forall|j: int|
                    0 <= j < self.vehicles@.len() ==> vehicle_wf(#[trigger] self.vehicles@[j]));
            }
            let pos = self.vehicles[i].position;
            self.octree.add_vehicle(pos, i);
            i += 1;
        }
        // pairwise collision: buffered positional corrections and
        // momentum-neighbor lists (each vehicle starts in its own group)
        let mut translations: Vec<Vector> = Vec::new();
        let mut neighbors: Vec<Vec<usize>> = Vec::new();
        let mut i: usize = 0;
        while i < n
            invariant
                i <= n,
                n <= 4096,
                translations@.len() == i,
                neighbors@.len() == i,
                forall|k: int|
                    0 <= k < i ==> in_bounds(#[trigger] translations@[k], (RADIUS as int) * (
                    n as int)),
                forall|k: int|
                    0 <= k < i ==> 1 <= (#[trigger] neighbors@[k])@.len() <= 4096,
                forall|k: int, e: int|
                    0 <= k < i && 0 <= e < (#[trigger] neighbors@[k])@.len() ==> (
                    #[trigger] neighbors@[k]@[e]) < n,
            decreases n - i,
        {
            proof {
                assert((RADIUS as int) * (n as int) >= 0) by (nonlinear_arith)
                    requires
                        n >= 0,
                ;
            }
            translations.push(Vector::zero());
            let mut own: Vec<usize> = Vec::new();
            own.push(i);
            neighbors.push(own);
            i += 1;
        }
        let mut momentum_add: Vec<Vector> = Vec::new();
        let mut i: usize = 0;
        while i < n
            invariant
                i <= n,
                momentum_add@.len() == i,
                forall|k: int| 0 <= k < i ==> #[trigger] momentum_add@[k] == (Vector {
                    x: 0 as i64,
                    y: 0 as i64,
                    z: 0 as i64,
                }),
            decreases n - i,
        {
            momentum_add.push(Vector::zero());
            i += 1;
        }
        let mut i: usize = 0;
        while i < n
            invariant
                state_wf(*self),
                n == self.vehicles@.len(),
                i <= n,
                self.spline == old(self).spline,
                self.garage == old(self).garage,
                self.walls == old(self).walls,
                self.octree.segment_log() == old(self).octree.segment_log(),
                self.octree.root_min() == old(self).octree.root_min(),
                self.octree.root_max() == old(self).octree.root_max(),
                mids.len() == n,
                forall|k: int|
                    0 <= k < n ==> #[trigger] self.vehicles@[k] == (Vehicle {
                        velocity: Vector { x: 0 as i64, y: 0 as i64, z: 0 as i64 },
                        ..mids[k]
                    }),
                forall|k: int|
                    0 <= k < n ==> vehicle_tick_rel(
                        old(self).spline,
                        old(self).octree,
                        *controls,
                        old(self).walls,
                        ((#[trigger] old(self).vehicles@[k]).model_id as int) < old(
                            self,
                        ).garage.by_id@.len(),
                        old(self).garage.by_id@[old(self).vehicles@[k].model_id as int],
                        old(self).vehicles@[k],
                        mids[k],
                    ),
                forall|k: int|
                    0 <= k < n ==> (#[trigger] self.octree.vehicle_log()[k]).min == (Vector {
                        x: (mids[k].position.x - VEHICLE_BOX_HALF) as i64,
                        y: (mids[k].position.y - VEHICLE_BOX_HALF) as i64,
                        z: (mids[k].position.z - VEHICLE_BOX_HALF) as i64,
                    }) && self.octree.vehicle_log()[k].max == (Vector {
                        x: (mids[k].position.x + VEHICLE_BOX_HALF) as i64,
                        y: (mids[k].position.y + VEHICLE_BOX_HALF) as i64,
                        z: (mids[k].position.z + VEHICLE_BOX_HALF) as i64,
                    }),
                self.octree.vehicle_log().len() == n,
                forall|k: int|
                    0 <= k < n ==> (#[trigger] self.octree.vehicle_log()[k]).index == k,
                translations@.len() == n,
                neighbors@.len() == n,
                momentum_add@.len() == n,
                original_velocity@.len() == n,
                forall|k: int|
                    0 <= k < n ==> in_bounds(#[trigger] translations@[k], (RADIUS as int) * (
                    n as int)),
                forall|k: int| 0 <= k < n ==> 1 <= (#[trigger] neighbors@[k])@.len() <= 4096,
                forall|k: int, e: int|
                    0 <= k < n && 0 <= e < (#[trigger] neighbors@[k])@.len() ==> (
                    #[trigger] neighbors@[k]@[e]) < n,
            decreases n - i,
        {
            proof {
                assert(1 <= (RADIUS as int) * (n as int) <= 0x8000_0000int) by (nonlinear_arith)
                    requires
                        1 <= n <= 4096,
                        RADIUS == 19661,
                ;
            }
            let pos_i = self.vehicles[i].position;
            let candidates = self.octree.find_vehicle_collisions(&pos_i);
            let m = candidates.len();
            let mut c: usize = 0;
            while c < m
                invariant
                    state_wf(*self),
                    n == self.vehicles@.len(),
                    i < n,
                    c <= m,
                    m == candidates@.len(),
                    1 <= (RADIUS as int) * (n as int) <= 0x8000_0000int,
                    in_bounds(pos_i, POS_MAX as int),
                    self.spline == old(self).spline,
                    self.garage == old(self).garage,
                    self.walls == old(self).walls,
                    self.octree.segment_log() == old(self).octree.segment_log(),
                    self.octree.root_min() == old(self).octree.root_min(),
                    self.octree.root_max() == old(self).octree.root_max(),
                    mids.len() == n,
                    forall|k: int|
                        0 <= k < n ==> #[trigger] self.vehicles@[k] == (Vehicle {
                            velocity: Vector { x: 0 as i64, y: 0 as i64, z: 0 as i64 },
                            ..mids[k]
                        }),
                    forall|k: int|
                        0 <= k < n ==> vehicle_tick_rel(
                            old(self).spline,
                            old(self).octree,
                            *controls,
                            old(self).walls,
                            ((#[trigger] old(self).vehicles@[k]).model_id as int) < old(
                                self,
                            ).garage.by_id@.len(),
                            old(self).garage.by_id@[old(self).vehicles@[k].model_id as int],
                            old(self).vehicles@[k],
                            mids[k],
                        ),
                    forall|k: int|
                        0 <= k < n ==> (#[trigger] self.octree.vehicle_log()[k]).min == (Vector {
                            x: (mids[k].position.x - VEHICLE_BOX_HALF) as i64,
                            y: (mids[k].position.y - VEHICLE_BOX_HALF) as i64,
                            z: (mids[k].position.z - VEHICLE_BOX_HALF) as i64,
                        }) && self.octree.vehicle_log()[k].max == (Vector {
                            x: (mids[k].position.x + VEHICLE_BOX_HALF) as i64,
                            y: (mids[k].position.y + VEHICLE_BOX_HALF) as i64,
                            z: (mids[k].position.z + VEHICLE_BOX_HALF) as i64,
                        }),
                    self.octree.vehicle_log().len() == n,
                    forall|k: int|
                        0 <= k < n ==> (#[trigger] self.octree.vehicle_log()[k]).index == k,
                    crate::octree::sound_result(
                        self.octree.vehicle_log(),
                        pos_i,
                        candidates@,
                    ),
                    translations@.len() == n,
                    neighbors@.len() == n,
                    momentum_add@.len() == n,
                    forall|k: int|
                        0 <= k < n ==> in_bounds(#[trigger] translations@[k], (RADIUS as int) * (
                        n as int)),
                    forall|k: int| 0 <= k < n ==> 1 <= (#[trigger] neighbors@[k])@.len() <= 4096,
                    forall|k: int, e: int|
                        0 <= k < n && 0 <= e < (#[trigger] neighbors@[k])@.len() ==> (
                        #[trigger] neighbors@[k]@[e]) < n,
                decreases m - c,
            {
                let j = candidates[c];
                proof {
                    let log = self.octree.vehicle_log();
                    let kw = choose|k: int|
                        0 <= k < log.len() && (#[trigger] log[k]).index == candidates@[c as int]
                            && box_contains(log[k].min, log[k].max, pos_i);
                    assert(log[kw].index == kw);
                    assert(j < n);
                }
                if j > i {
                    proof {
                        assert(vehicle_wf(self.vehicles@[i as int]));
                        assert(vehicle_wf(self.vehicles@[j as int]));
                    }
                    let pos_j = self.vehicles[j].position;
                    let normal = pos_i.sub(pos_j);
                    proof {
                        assert(in_bounds(normal, 2 * (POS_MAX as int)));
                    }
                    let cn = clamp_vec(normal, 0x8000_0000);
                    let length = crate::vehicle::vec_mag(cn);
                    let depth = 2 * RADIUS - length;
                    if depth > 0 && neighbors[i].len() < 4096 && neighbors[j].len() < 4096 {
                        let unit = crate::vehicle::vec_normalize(cn);
                        proof {
                            lemma_tdiv_bound(depth as int, 2 * (RADIUS as int), 2);
                        }
                        let half = tdiv_i64(depth, 2);
                        let up_i = self.vehicles[i].up_vector();
                        let up_j = self.vehicles[j].up_vector();
                        let adj_i = adjust_normal(up_i, unit);
                        let adj_j = adjust_normal(up_j, unit);
                        proof {
                            crate::linalg::lemma_scale_bound(
                                adjust_normal_s(up_i, unit),
                                half as int,
                                0x8000_0000 as int,
                                RADIUS as int,
                            );
                            crate::linalg::lemma_scale_bound(
                                adjust_normal_s(up_j, unit),
                                half as int,
                                0x8000_0000 as int,
                                RADIUS as int,
                            );
                        }
                        let push_i = adj_i.scale(half);
                        let push_j = adj_j.scale(half);
                        let ti = translations[i];
                        translations[i] = clamp_vec(ti.add(push_i), RADIUS * (n as i64));
                        let tj = translations[j];
                        translations[j] = clamp_vec(tj.sub(push_j), RADIUS * (n as i64));
                        neighbors[i].push(j);
                        neighbors[j].push(i);
                    }
                }
                c += 1;
            }
            i += 1;
        }
        // distribute momentum: each vehicle's pre-collision velocity is
        // split into one share per member of its contact list, and every
        // member (the vehicle itself included) receives one share
        let mut i: usize = 0;
        while i < n
            invariant
                i <= n,
                n == original_velocity@.len(),
                n == neighbors@.len(),
                momentum_add@.len() == n,
                forall|k: int| 0 <= k < n ==> 1 <= (#[trigger] neighbors@[k])@.len() <= 4096,
                forall|k: int, e: int|
                    0 <= k < n && 0 <= e < (#[trigger] neighbors@[k])@.len() ==> (
                    #[trigger] neighbors@[k]@[e]) < n,
                forall|k: int|
                    0 <= k < n ==> in_bounds(#[trigger] momentum_add@[k], 0x7000_0000_0000 as int),
            decreases n - i,
        {
            let count = neighbors[i].len() as i64;
            let ov = original_velocity[i];
            let cv = clamp_vec(ov, VEL_MAX);
            let share = Vector {
                x: tdiv_i64(cv.x, count),
                y: tdiv_i64(cv.y, count),
                z: tdiv_i64(cv.z, count),
            };
            let group = neighbors[i].len();
            let mut e: usize = 0;
            while e < group
                invariant
                    i < n,
                    e <= group,
                    n == neighbors@.len(),
                    group == neighbors@[i as int]@.len(),
                    momentum_add@.len() == n,
                    in_bounds(share, VEL_MAX as int),
                    forall|k: int, e2: int|
                        0 <= k < n && 0 <= e2 < (#[trigger] neighbors@[k])@.len() ==> (
                        #[trigger] neighbors@[k]@[e2]) < n,
                    forall|k: int|
                        0 <= k < n ==> in_bounds(
                            #[trigger] momentum_add@[k],
                            0x7000_0000_0000 as int,
                        ),
                decreases group - e,
            {
                let target = neighbors[i][e];
                let ma = momentum_add[target];
                momentum_add[target] = clamp_vec(ma.add(share), 0x7000_0000_0000);
                e += 1;
            }
            i += 1;
        }
        // apply buffered corrections
        let mut i: usize = 0;
        while i < n
            invariant
                state_wf(*self),
                n == self.vehicles@.len(),
                i <= n,
                self.spline == old(self).spline,
                self.garage == old(self).garage,
                self.walls == old(self).walls,
                self.octree.segment_log() == old(self).octree.segment_log(),
                self.octree.root_min() == old(self).octree.root_min(),
                self.octree.root_max() == old(self).octree.root_max(),
                self.octree.vehicle_log().len() == n,
                forall|k: int|
                    0 <= k < n ==> (#[trigger] self.octree.vehicle_log()[k]).index == k,
                mids.len() == n,
                forall|k: int|
                    i <= k < n ==> #[trigger] self.vehicles@[k] == (Vehicle {
                        velocity: Vector { x: 0 as i64, y: 0 as i64, z: 0 as i64 },
                        ..mids[k]
                    }),
                forall|k: int|
                    0 <= k < n ==> vehicle_tick_rel(
                        old(self).spline,
                        old(self).octree,
                        *controls,
                        old(self).walls,
                        ((#[trigger] old(self).vehicles@[k]).model_id as int) < old(
                            self,
                        ).garage.by_id@.len(),
                        old(self).garage.by_id@[old(self).vehicles@[k].model_id as int],
                        old(self).vehicles@[k],
                        mids[k],
                    ),
                forall|k: int|
                    0 <= k < n ==> (#[trigger] self.octree.vehicle_log()[k]).min == (Vector {
                        x: (mids[k].position.x - VEHICLE_BOX_HALF) as i64,
                        y: (mids[k].position.y - VEHICLE_BOX_HALF) as i64,
                        z: (mids[k].position.z - VEHICLE_BOX_HALF) as i64,
                    }) && self.octree.vehicle_log()[k].max == (Vector {
                        x: (mids[k].position.x + VEHICLE_BOX_HALF) as i64,
                        y: (mids[k].position.y + VEHICLE_BOX_HALF) as i64,
                        z: (mids[k].position.z + VEHICLE_BOX_HALF) as i64,
                    }),
                translations@.len() == n,
                momentum_add@.len() == n,
                forall|k: int|
                    0 <= k < n ==> in_bounds(#[trigger] translations@[k], (RADIUS as int) * (
                    n as int)),
                forall|k: int|
                    0 <= k < n ==> in_bounds(#[trigger] momentum_add@[k], 0x7000_0000_0000 as int),
                forall|k: int|
                    0 <= k < i ==> {
                        let vf = #[trigger] self.vehicles@[k];
                        &&& vf.rotation == mids[k].rotation
                        &&& vf.steering == mids[k].steering
                        &&& vf.controller == mids[k].controller
                        &&& vf.respawn_timer == mids[k].respawn_timer
                        &&& vf.respawn_point == mids[k].respawn_point
                        &&& vf.model_id == mids[k].model_id
                        &&& vf.last_horizontal == mids[k].last_horizontal
                        &&& vf.last_offset == mids[k].last_offset
                        &&& vf.position == clamp_v(
                            Vector {
                                x: (mids[k].position.x + translations@[k].x) as i64,
                                y: (mids[k].position.y + translations@[k].y) as i64,
                                z: (mids[k].position.z + translations@[k].z) as i64,
                            },
                            POS_MAX as int,
                        )
                        &&& vf.velocity == clamp_v(momentum_add@[k], VEL_MAX as int)
                    },
            decreases n - i,
        {
            proof {
                assert(vehicle_wf(self.vehicles@[i as int]));
                assert(0 <= (RADIUS as int) * (n as int) <= 0x8000_0000int) by (nonlinear_arith)
                    requires
                        0 <= n <= 4096,
                        RADIUS == 19661,
                ;
            }
            let p = self.vehicles[i].position;
            let t = translations[i];
            let np = clamp_vec(p.add(t), POS_MAX);
            self.vehicles[i].position = np;
            let v0 = self.vehicles[i].velocity;
            let ma = momentum_add[i];
            let nv = clamp_vec(v0.add(ma), VEL_MAX);
            self.vehicles[i].velocity = nv;
            proof {
                assert(v0 == Vector { x: 0 as i64, y: 0 as i64, z: 0 as i64 });
                assert(nv == clamp_v(momentum_add@[i as int], VEL_MAX as int));
                assert(p == mids[i as int].position);
            }
            proof {
                assert(vehicle_wf(self.vehicles@[i as int]));
                assert(forall|j: int|
                    0 <= j < self.vehicles@.len() ==> vehicle_wf(#[trigger] self.vehicles@[j]));
            }
            i += 1;
        }
        proof {
            reveal(tick_rel);
            assert(tick_rel(*old(self), *self, *controls, mids));
        }

    }
}

/// A separation direction projected into a vehicle's driving plane: the
/// component along the vehicle's up vector is removed and the rest
/// renormalized, so collisions push within the plane, never vertically.
pub open spec fn adjust_normal_s(up: Vector, normal: Vector) -> Vector {
    let d = dot_s(normal, up);
    let planar = Vector {
        x: (normal.x - fx_mul_s(up.x as int, d)) as i64,
        y: (normal.y - fx_mul_s(up.y as int, d)) as i64,
        z: (normal.z - fx_mul_s(up.z as int, d)) as i64,
    };
    normalized_s(Vector {
        x: crate::math::clamp_s(planar.x as int, -0x8000_0000, 0x8000_0000) as i64,
        y: crate::math::clamp_s(planar.y as int, -0x8000_0000, 0x8000_0000) as i64,
        z: crate::math::clamp_s(planar.z as int, -0x8000_0000, 0x8000_0000) as i64,
    })
}

/// Exact planar separation direction.
fn adjust_normal(up: Vector, normal: Vector) -> (r: Vector)
    requires
        in_bounds(up, 5 * (SCALE as int)),
        in_bounds(normal, 0x8000_0000 as int),
    ensures
        r == adjust_normal_s(up, normal),
        in_bounds(r, 0x8000_0000 as int),
{
    proof {
        lemma_abs_mul(normal.x as int, up.x as int, 0x8000_0000 as int, 5 * (SCALE as int));
        lemma_abs_mul(normal.y as int, up.y as int, 0x8000_0000 as int, 5 * (SCALE as int));
        lemma_abs_mul(normal.z as int, up.z as int, 0x8000_0000 as int, 5 * (SCALE as int));
        lemma_tdiv_bound(
            normal.x * up.x + normal.y * up.y + normal.z * up.z,
            15 * (0x8000_0000 as int) * (SCALE as int),
            SCALE as int,
        );
        vstd::arithmetic::div_mod::lemma_div_multiples_vanish(
            15 * (0x8000_0000 as int),
            SCALE as int,
        );
    }
    let d = normal.dot(&up);
    proof {
        lemma_abs_mul(up.x as int, d as int, 5 * (SCALE as int), 15 * (0x8000_0000 as int));
        lemma_abs_mul(up.y as int, d as int, 5 * (SCALE as int), 15 * (0x8000_0000 as int));
        lemma_abs_mul(up.z as int, d as int, 5 * (SCALE as int), 15 * (0x8000_0000 as int));
    }
    let gx: i64 = tdiv_i128((up.x as i128) * (d as i128), SCALE as i128) as i64;
    let gy: i64 = tdiv_i128((up.y as i128) * (d as i128), SCALE as i128) as i64;
    let gz: i64 = tdiv_i128((up.z as i128) * (d as i128), SCALE as i128) as i64;
    let planar = Vector { x: normal.x - gx, y: normal.y - gy, z: normal.z - gz };
    let clamped = clamp_vec(planar, 0x8000_0000);
    crate::vehicle::vec_normalize(clamped)
}

} // verus!
