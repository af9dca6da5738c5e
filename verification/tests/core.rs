use condux::assets::{Asset, AssetEntry};
use condux::garage::Garage;
use condux::linalg::{Quat, Vector};
use condux::math::SCALE;
use condux::mesh::Mesh;
use condux::octree::{existing_pool_index, pool_index, Octree, VEHICLE_BOX_HALF};
use condux::spline::{Spline, TRACK_RADIUS};
use condux::state::GameState;
use condux::vehicle::{
    cap_speed, Buttons, Controller, ControllerKind, Controls, EmptyController, Model, Pedal,
    PlayerController, Vehicle, RADIUS, RESPAWN_TIMER_INIT,
};

/// Two bytes of an 8.8 fixed-point value for a whole number of units.
fn fixed_bytes(units: i16) -> [u8; 2] {
    let raw = (units as i32 * 256) as i16;
    [(raw & 0xff) as u8, ((raw >> 8) & 0xff) as u8]
}

/// A square-ish flat untilted loop of the given half-width in units.
fn square_spline_bytes(half: i16) -> Vec<u8> {
    let mut bytes = vec![4u8];
    for (x, z) in [(half, half), (half, -half), (-half, -half), (-half, half)] {
        bytes.extend_from_slice(&fixed_bytes(x));
        bytes.extend_from_slice(&fixed_bytes(0));
        bytes.extend_from_slice(&fixed_bytes(z));
        bytes.push(0);
    }
    bytes
}

fn load_square() -> Spline {
    let mut asset = Asset::from_bytes(square_spline_bytes(10));
    Spline::load(&mut asset).expect("square track loads")
}

fn flat_model() -> Model {
    Model {
        speed: 15 * SCALE,
        acceleration: 7 * SCALE,
        handling: 98304,
        anti_drift: 12 * SCALE,
        mesh: Mesh { vertices: vec![], lines: vec![] },
    }
}

#[test]
fn asset_reads_bytes_and_fixed() {
    let mut a = Asset::from_bytes(vec![7, 0x00, 0x0A, 0x80, 0xFF]);
    assert_eq!(a.read_byte(), Some(7));
    // 0x0A00 is ten units at 8.8, widened to 16.16
    assert_eq!(a.read_fixed(), Some(10 * SCALE));
    // 0xFF80 is -0.5 units
    assert_eq!(a.read_fixed(), Some(-SCALE / 2));
    assert_eq!(a.read_byte(), None);
}

#[test]
fn asset_registry_lookup() {
    let entries = vec![
        AssetEntry { name: b"track".to_vec(), data: vec![1, 2, 3] },
        AssetEntry { name: b"mesh".to_vec(), data: vec![9] },
    ];
    let mut found = Asset::load(&entries, b"mesh").expect("registered name");
    assert_eq!(found.read_byte(), Some(9));
    assert!(Asset::load(&entries, b"absent").is_none());
}

#[test]
fn spline_rejects_bad_input() {
    // fewer than three points
    let mut short = Asset::from_bytes(vec![2, 0, 0, 0, 0, 0, 0, 0]);
    assert!(Spline::load(&mut short).is_none());
    // truncated data
    let mut truncated = Asset::from_bytes(vec![4, 1, 2, 3]);
    assert!(Spline::load(&mut truncated).is_none());
    // coincident neighboring control points divide by zero in the
    // handle construction and are rejected
    let mut bytes = vec![3u8];
    for _ in 0..3 {
        bytes.extend_from_slice(&fixed_bytes(5));
        bytes.extend_from_slice(&fixed_bytes(0));
        bytes.extend_from_slice(&fixed_bytes(5));
        bytes.push(0);
    }
    let mut coincident = Asset::from_bytes(bytes);
    assert!(Spline::load(&mut coincident).is_none());
}

#[test]
fn baked_offsets_ascend_and_sum_to_length() {
    let s = load_square();
    assert!(s.baked.len() >= 4);
    assert_eq!(s.baked[0].offset, 0);
    let mut sum = 0i64;
    for i in 0..s.baked.len() - 1 {
        assert!(s.baked[i].offset < s.baked[i + 1].offset, "offsets ascend strictly");
        let chord = s.baked[i].point.dist(s.baked[i + 1].point);
        assert!(chord > 0);
        assert_eq!(s.baked[i + 1].offset, s.baked[i].offset + chord);
        sum += chord;
    }
    let closing = s.baked[s.baked.len() - 1].point.dist(s.baked[0].point);
    assert!(closing > 0);
    assert_eq!(s.length, sum + closing, "length is the chord sum plus the closing chord");
}

#[test]
fn get_baked_is_periodic() {
    let s = load_square();
    for off in [0i64, 1, 12345, s.length / 3, s.length - 1] {
        let a = s.get_baked(off);
        let b = s.get_baked(off + s.length);
        assert_eq!(a, b, "one full loop returns the same point");
    }
}

#[test]
fn octree_vehicle_query_matches_brute_force() {
    let s = load_square();
    let mut tree = Octree::new(&s);
    tree.reset_vehicles();
    let positions = [
        Vector { x: 10 * SCALE, y: 0, z: 10 * SCALE },
        Vector { x: 10 * SCALE + SCALE / 4, y: 0, z: 10 * SCALE },
        Vector { x: -10 * SCALE, y: 0, z: -10 * SCALE },
        Vector { x: 0, y: 0, z: 10 * SCALE },
        Vector { x: 3 * SCALE, y: 2 * SCALE, z: -7 * SCALE },
    ];
    for (i, p) in positions.iter().enumerate() {
        tree.add_vehicle(*p, i);
    }
    let queries = [
        Vector { x: 10 * SCALE, y: 0, z: 10 * SCALE },
        Vector { x: 0, y: 0, z: 0 },
        Vector { x: -10 * SCALE, y: SCALE / 2, z: -10 * SCALE },
        Vector { x: 100 * SCALE, y: 100 * SCALE, z: 100 * SCALE },
    ];
    let half = VEHICLE_BOX_HALF;
    for q in queries {
        let mut expected: Vec<usize> = vec![];
        for (i, p) in positions.iter().enumerate() {
            let inside = p.x - half <= q.x
                && q.x <= p.x + half
                && p.y - half <= q.y
                && q.y <= p.y + half
                && p.z - half <= q.z
                && q.z <= p.z + half;
            if inside {
                expected.push(i);
            }
        }
        let mut got = tree.find_vehicle_collisions(&q);
        got.sort();
        assert_eq!(got, expected, "octree result equals the brute-force scan");
    }
}

#[test]
fn octree_closest_offset_matches_brute_force() {
    let s = load_square();
    let tree = Octree::new(&s);
    let queries = [
        Vector { x: 10 * SCALE, y: 0, z: 0 },
        Vector { x: 9 * SCALE, y: SCALE / 2, z: 9 * SCALE },
        Vector { x: 0, y: 0, z: -10 * SCALE },
    ];
    for q in queries {
        let got = tree.find_closest_offset(&s, q).expect("a point near the track finds a segment");
        // the result's distance must match the best brute-force distance
        let mut best: Option<i64> = None;
        for i in 0..s.baked.len() {
            let (_, d) = s.get_offset_and_dist_sq(q, i);
            best = Some(match best {
                None => d,
                Some(b) => b.min(d),
            });
        }
        let mut got_dist: Option<i64> = None;
        for i in 0..s.baked.len() {
            let (o, d) = s.get_offset_and_dist_sq(q, i);
            if o == got {
                got_dist = Some(match got_dist {
                    None => d,
                    Some(g) => g.min(d),
                });
            }
        }
        assert_eq!(got_dist.unwrap(), best.unwrap(), "closest offset has the minimal distance");
    }
}

#[test]
fn collision_none_far_outside() {
    let s = load_square();
    let tree = Octree::new(&s);
    let far = Vector { x: 1000 * SCALE, y: 1000 * SCALE, z: 1000 * SCALE };
    assert!(tree.find_closest_offset(&s, far).is_none());
    assert!(s.get_collision(&tree, far).is_none());
}

#[test]
fn collision_some_on_track() {
    let s = load_square();
    let tree = Octree::new(&s);
    let on_track = Vector { x: 10 * SCALE, y: SCALE / 8, z: 0 };
    let c = s.get_collision(&tree, on_track).expect("a point inside the tube collides");
    assert!(c.horizontal.abs() <= 5 * SCALE);
    assert!(c.height >= -SCALE / 4);
}

#[test]
fn speed_cap_exact_and_bounded() {
    // twice the cap along one axis rescales onto the cap exactly
    let w = Vector { x: 2 * SCALE, y: 0, z: 0 };
    let r = cap_speed(w, SCALE);
    assert_eq!(r, Vector { x: SCALE, y: 0, z: 0 });
    // a velocity under the cap passes through unchanged
    let slow = Vector { x: SCALE / 2, y: SCALE / 4, z: 0 };
    assert_eq!(cap_speed(slow, SCALE), slow);
    // arbitrary directions never exceed the cap (squared, at scale)
    let capsq = (15 * SCALE) * (15 * SCALE) / SCALE;
    for v in [
        Vector { x: 40 * SCALE, y: -25 * SCALE, z: 3 * SCALE },
        Vector { x: -999 * SCALE, y: 1, z: 77777 },
        Vector { x: 15 * SCALE, y: 15 * SCALE, z: 15 * SCALE },
    ] {
        let c = cap_speed(v, 15 * SCALE);
        let msq = (c.x as i128 * c.x as i128 + c.y as i128 * c.y as i128
            + c.z as i128 * c.z as i128) / SCALE as i128;
        assert!(msq <= capsq as i128, "planar speed never exceeds the model speed");
    }
}

#[test]
fn respawn_countdown_restores_spawn_state() {
    let spawn = Vector { x: 3 * SCALE, y: 2 * SCALE, z: SCALE };
    let mut v = Vehicle::new(spawn, 0, ControllerKind::Empty(EmptyController));
    v.position = Vector { x: 50 * SCALE, y: -9 * SCALE, z: 0 };
    v.velocity = Vector { x: SCALE, y: -2 * SCALE, z: 3 };
    v.steering = SCALE / 2;
    v.respawn_timer = Some(RESPAWN_TIMER_INIT);
    for _ in 0..RESPAWN_TIMER_INIT {
        assert!(v.respawn_timer.is_some(), "timer runs for the full countdown");
        v.respawn_step();
    }
    assert_eq!(v.respawn_timer, None);
    assert_eq!(v.position, spawn, "the vehicle returns exactly to its respawn point");
    assert_eq!(v.velocity, Vector { x: 0, y: 0, z: 0 });
    assert_eq!(v.rotation, Quat { w: SCALE, x: 0, y: 0, z: 0 });
    assert_eq!(v.steering, 0);
}

#[test]
fn vehicle_leaves_track_and_respawns_in_state() {
    let s = load_square();
    let tree = Octree::new(&s);
    let mut garage = Garage::new();
    garage.load(b"default".to_vec(), flat_model()).unwrap();
    let mut game = GameState::new(s, tree, garage);
    // spawn far off the track: the first tick starts the countdown
    let spawn = Vector { x: 500 * SCALE, y: 0, z: 0 };
    game.spawn(spawn, 0, ControllerKind::Empty(EmptyController));
    let controls =
        Controls { buttons: Buttons { ok: false, back: false, pause: false }, steering: 0 };
    game.tick(&controls);
    assert_eq!(game.vehicles[0].respawn_timer, Some(RESPAWN_TIMER_INIT));
}

#[test]
fn accelerating_vehicle_approaches_model_speed() {
    let s = load_square();
    let tree = Octree::new(&s);
    let mut garage = Garage::new();
    garage.load(b"default".to_vec(), flat_model()).unwrap();
    // on the track centerline (an eighth of a loop from the start, in
    // the middle of an edge), at rest, flooring the pedal
    let spawn_on_curve = s.get_baked(s.length / 8);
    let mut game = GameState::new(s, tree, garage);
    let spawn = Vector { x: spawn_on_curve.x, y: spawn_on_curve.y, z: spawn_on_curve.z };
    game.spawn(
        spawn,
        0,
        ControllerKind::Player(PlayerController { next_pedal: Pedal::Accel, next_steering: 0 }),
    );
    let controls =
        Controls { buttons: Buttons { ok: true, back: false, pause: false }, steering: 0 };
    let mut last_speed = 0i64;
    let cap = 15 * SCALE;
    for t in 0..120 {
        game.tick(&controls);
        let v = &game.vehicles[0];
        assert!(v.respawn_timer.is_none(), "the vehicle stays on the track (tick {t})");
        let speed = v.signed_speed();
        assert!(speed <= cap + SCALE, "speed stays at or under the model speed");
        if t > 5 && t < 60 {
            assert!(speed >= last_speed - SCALE / 16, "speed climbs toward the cap");
        }
        last_speed = speed;
        assert!(
            v.last_horizontal.abs() <= SCALE,
            "lateral offset stays within the track radius"
        );
    }
    assert!(last_speed > 5 * SCALE, "the vehicle got moving");
}

#[test]
fn pair_collision_separates_overlapping_vehicles() {
    let s = load_square();
    let tree = Octree::new(&s);
    let mut garage = Garage::new();
    garage.load(b"default".to_vec(), flat_model()).unwrap();
    let mut game = GameState::new(s, tree, garage);
    // two vehicles on the track, overlapping along the lateral axis
    let a = Vector { x: 10 * SCALE, y: 0, z: 0 };
    let b = Vector { x: 10 * SCALE + RADIUS / 2, y: 0, z: 0 };
    game.spawn(a, 0, ControllerKind::Empty(EmptyController));
    game.spawn(b, 0, ControllerKind::Empty(EmptyController));
    let before = game.vehicles[0].position.dist(game.vehicles[1].position);
    assert!(before < 2 * RADIUS);
    let controls =
        Controls { buttons: Buttons { ok: false, back: false, pause: false }, steering: 0 };
    game.tick(&controls);
    let after = game.vehicles[0].position.dist(game.vehicles[1].position);
    assert!(after > before, "one resolution pass pushes the pair apart");
    assert!(after >= 2 * RADIUS - SCALE / 2, "the pair ends close to separated");
}

#[test]
fn mesh_load_validates_indices() {
    // two vertices, one line between them
    let mut bytes = vec![2u8];
    for _ in 0..2 {
        bytes.extend_from_slice(&fixed_bytes(1));
        bytes.extend_from_slice(&fixed_bytes(2));
        bytes.extend_from_slice(&fixed_bytes(3));
    }
    bytes.push(1);
    bytes.extend_from_slice(&[0, 1]);
    let mut ok = Asset::from_bytes(bytes.clone());
    let m = Mesh::load(&mut ok).expect("well-formed mesh");
    assert_eq!(m.vertices.len(), 2);
    assert_eq!(m.lines, vec![(0, 1)]);
    // an index at the vertex count fails
    let n = bytes.len();
    bytes[n - 1] = 2;
    let mut bad = Asset::from_bytes(bytes);
    assert!(Mesh::load(&mut bad).is_none());
}

#[test]
fn font_load_needs_all_glyphs() {
    // ninety-five empty glyphs load; ninety-four do not
    let mut ok = Asset::from_bytes(vec![0u8; 95]);
    assert!(condux::font::Font::new(&mut ok).is_some());
    let mut short = Asset::from_bytes(vec![0u8; 94]);
    assert!(condux::font::Font::new(&mut short).is_none());
    // a glyph line pointing past its points fails
    let mut bytes = vec![0x11u8, 0x00, 0x01];
    bytes.extend(vec![0u8; 94]);
    let mut bad = Asset::from_bytes(bytes);
    assert!(condux::font::Font::new(&mut bad).is_none());
}

#[test]
fn pool_index_combines_axis_sides() {
    assert_eq!(existing_pool_index([false, false, false]), 0);
    assert_eq!(existing_pool_index([true, false, false]), 1);
    assert_eq!(existing_pool_index([false, true, false]), 2);
    assert_eq!(existing_pool_index([true, true, true]), 7);
    assert_eq!(pool_index([Some(true), Some(false), Some(true)]), Some(5));
    assert_eq!(pool_index([Some(true), None, Some(true)]), None);
}

#[test]
fn garage_registers_and_replaces() {
    let mut g = Garage::new();
    assert!(g.get_id(b"default").is_none());
    g.load(b"default".to_vec(), flat_model()).unwrap();
    let id = g.get_id(b"default").expect("registered");
    assert_eq!(id, 0);
    assert!(g.get_model(id).is_some());
    assert!(g.get_model(7).is_none());
    // replacing keeps the id
    let mut replacement = flat_model();
    replacement.speed = 9 * SCALE;
    g.load(b"default".to_vec(), replacement).unwrap();
    assert_eq!(g.get_id(b"default"), Some(0));
    assert_eq!(g.get_model(0).unwrap().speed, 9 * SCALE);
}

#[test]
fn controllers_expose_pedal_and_steering() {
    let empty = EmptyController;
    assert!(matches!(empty.pedal(), Pedal::Neutral));
    assert_eq!(empty.steering(), 0);
    let mut player = PlayerController { next_pedal: Pedal::Neutral, next_steering: 0 };
    player.next_pedal = Pedal::Brake;
    player.next_steering = -SCALE;
    assert!(matches!(player.pedal(), Pedal::Brake));
    assert_eq!(player.steering(), -SCALE);
}
