use vndf::game::data::{Body, Color, EntityId, ManeuverData, Planet, Vec2, MAX_COORD, MILLI};
use vndf::game::state::GameState;

fn direction_of(angle_rad: f64) -> Vec2 {
    Vec2 {
        x: (angle_rad.cos() * MILLI as f64) as i64,
        y: (angle_rad.sin() * MILLI as f64) as i64,
    }
}

fn maneuver(start_ms: u64, duration_ms: u64, angle_rad: f64, thrust_milli: i64) -> ManeuverData {
    ManeuverData {
        start_ms,
        duration_ms,
        direction: direction_of(angle_rad),
        thrust: thrust_milli,
    }
}

fn get_body(body_id: EntityId, game_state: &GameState) -> Body {
    for entity in game_state.export_entities() {
        if entity.id == body_id {
            return entity.body.unwrap();
        }
    }
    unreachable!();
}

fn get_maneuver_id(ship_id: EntityId, game_state: &GameState) -> EntityId {
    let n = game_state.entities.maneuvers.len();
    for i in 0..n {
        if game_state.entities.maneuvers.val_at(i).ship_id == ship_id {
            return game_state.entities.maneuvers.key_at(i);
        }
    }
    panic!("Maneuver not found");
}

fn angle_of(v: Vec2) -> f64 {
    (v.y as f64).atan2(v.x as f64)
}

fn angle_has_decreased(direction: f64, before: Body, after: Body) -> bool {
    let old_difference = (direction - angle_of(before.velocity)).abs();
    let new_difference = (direction - angle_of(after.velocity)).abs();
    new_difference < old_difference
}

#[test]
fn it_should_execute_multiple_maneuvers_after_each_other() {
    let mut game_state = GameState::new();

    let ship_id = game_state.on_enter();

    let maneuver_a = maneuver(500, 50, 1.0, MILLI);
    let maneuver_b = maneuver(1000, 50, -1.0, MILLI);

    game_state.on_schedule_maneuver(ship_id, maneuver_a);
    game_state.on_schedule_maneuver(ship_id, maneuver_b);

    let before = get_body(ship_id, &game_state);
    game_state.on_update(maneuver_a.start_ms + 100);
    let after = get_body(ship_id, &game_state);

    assert!(angle_has_decreased(1.0, before, after));

    let before = get_body(ship_id, &game_state);
    game_state.on_update(maneuver_b.start_ms + 100);
    let after = get_body(ship_id, &game_state);

    assert!(angle_has_decreased(-1.0, before, after));
}

#[test]
fn maneuvers_should_apply_thrust_over_time() {
    let mut game_state = GameState::new();

    let ship_id = game_state.on_enter();

    let data = maneuver(500, 200, 1.0, MILLI);
    game_state.on_schedule_maneuver(ship_id, data);

    let before = get_body(ship_id, &game_state);
    game_state.on_update(data.start_ms + data.duration_ms / 2);
    let after = get_body(ship_id, &game_state);

    assert!(angle_has_decreased(1.0, before, after));

    let mid = after;
    game_state.on_update(data.start_ms + data.duration_ms);
    let last = get_body(ship_id, &game_state);

    let along = |b: Body| b.velocity.x * data.direction.x + b.velocity.y * data.direction.y;
    assert!(along(last) > along(mid));
}

#[test]
fn maneuver_thrust_should_be_configurable() {
    let mut game_state = GameState::new();

    let ship_id_a = game_state.on_enter();
    let ship_id_b = game_state.on_enter();

    let start_ms = 500;
    let duration_ms = 1000;

    game_state.on_schedule_maneuver(ship_id_a, maneuver(start_ms, duration_ms, 0.0, MILLI));
    game_state.on_schedule_maneuver(ship_id_b, maneuver(start_ms, duration_ms, 0.0, MILLI / 2));
    game_state.on_update(start_ms + duration_ms);

    let body_a = get_body(ship_id_a, &game_state);
    let body_b = get_body(ship_id_b, &game_state);

    assert!(body_a.velocity.x > body_b.velocity.x);
}

#[test]
fn maneuver_thrust_should_stay_within_limits() {
    let mut game_state = GameState::new();

    let ship_id_a = game_state.on_enter();
    let ship_id_b = game_state.on_enter();
    let ship_id_c = game_state.on_enter();
    let ship_id_d = game_state.on_enter();

    let start_ms = 500;
    let duration_ms = 1000;

    game_state.on_schedule_maneuver(ship_id_a, maneuver(start_ms, duration_ms, 0.0, MILLI));
    game_state.on_schedule_maneuver(ship_id_b, maneuver(start_ms, duration_ms, 0.0, 2 * MILLI));
    game_state.on_schedule_maneuver(ship_id_c, maneuver(start_ms, duration_ms, 0.0, 0));
    game_state.on_schedule_maneuver(ship_id_d, maneuver(start_ms, duration_ms, 0.0, -MILLI));
    game_state.on_update(start_ms + duration_ms);

    let body_a = get_body(ship_id_a, &game_state);
    let body_b = get_body(ship_id_b, &game_state);
    let body_c = get_body(ship_id_c, &game_state);
    let body_d = get_body(ship_id_d, &game_state);

    assert!(body_a.velocity.x == body_b.velocity.x);
    assert!(body_c.velocity.x == 0);
    assert!(body_d.velocity.x == -body_a.velocity.x);
}

#[test]
fn players_should_only_be_able_to_cancel_their_own_maneuvers() {
    let mut game_state = GameState::new();

    let ship_id_a = game_state.on_enter();
    let ship_id_b = game_state.on_enter();

    let data = maneuver(500, 1000, 0.0, MILLI);

    game_state.on_schedule_maneuver(ship_id_a, data);
    game_state.on_schedule_maneuver(ship_id_b, data);

    assert_eq!(game_state.entities.maneuvers.len(), 2);

    let maneuver_id_a = get_maneuver_id(ship_id_a, &game_state);
    game_state.on_cancel_maneuver(ship_id_b, maneuver_id_a);
    game_state.on_update(0);

    assert_eq!(game_state.entities.maneuvers.len(), 2);
}

#[test]
fn owners_can_cancel_their_own_maneuvers() {
    let mut game_state = GameState::new();

    let ship_id = game_state.on_enter();
    game_state.on_schedule_maneuver(ship_id, maneuver(500, 1000, 0.0, MILLI));
    assert_eq!(game_state.entities.maneuvers.len(), 1);

    let maneuver_id = get_maneuver_id(ship_id, &game_state);
    game_state.on_cancel_maneuver(ship_id, maneuver_id);
    assert_eq!(game_state.entities.maneuvers.len(), 0);
}

#[test]
fn a_ship_inside_a_planet_is_destroyed_and_not_exported() {
    let mut game_state = GameState::new();

    let ship_id = game_state.on_enter();
    let planet = Planet {
        position: Vec2 { x: 0, y: 0 },
        radius: 1_000,
        mass: 1_000_000,
        color: Color { r: 200, g: 100, b: 50 },
    };
    game_state.entities.create_planet(planet);

    assert_eq!(game_state.export_entities().len(), 1);
    game_state.on_update(100);

    for entity in game_state.export_entities() {
        assert!(entity.id != ship_id);
    }
    assert_eq!(game_state.export_entities().len(), 0);
}

#[test]
fn gravity_pulls_a_body_toward_the_planet() {
    let mut game_state = GameState::new();

    let ship_id = game_state.on_enter();
    let planet = Planet {
        position: Vec2 { x: 20_000, y: 0 },
        radius: 1_000,
        mass: 1_000_000,
        color: Color { r: 0, g: 0, b: 255 },
    };
    game_state.entities.create_planet(planet);

    game_state.on_update(1000);

    let body = get_body(ship_id, &game_state);
    assert!(body.velocity.x > 0);
    assert!(body.velocity.y == 0);
    assert!(body.position.x > 0);
    assert!(body.position.x <= MAX_COORD);
}
