use vndf::client::reconciler::ClientReconciler;
use vndf::game::data::{Body, Vec2};

fn body_at(x: i64, y: i64) -> Body {
    Body {
        position: Vec2 { x, y },
        velocity: Vec2 { x: 0, y: 0 },
        force: Vec2 { x: 0, y: 0 },
        mass: 1_000,
    }
}

#[test]
fn it_should_interpolate_between_perceptions() {
    // previous = {t: 0, pos: (0, 0)}, current = {t: 1 s, pos: (10, 0)}:
    // halfway through, the position is (5, 0).
    let mut reconciler = ClientReconciler::new();
    reconciler.receive_state(0, 0, body_at(0, 0));
    reconciler.receive_state(0, 1_000, body_at(10, 0));

    assert_eq!(reconciler.position_at(0, 500), Some(Vec2 { x: 5, y: 0 }));
    assert_eq!(reconciler.position_at(0, 0), Some(Vec2 { x: 0, y: 0 }));
    assert_eq!(reconciler.position_at(0, 1_000), Some(Vec2 { x: 10, y: 0 }));
}

#[test]
fn queries_clamp_to_the_snapshot_interval() {
    let mut reconciler = ClientReconciler::new();
    reconciler.receive_state(0, 0, body_at(0, 0));
    reconciler.receive_state(0, 1_000, body_at(10, 0));

    assert_eq!(reconciler.position_at(0, 1_500), Some(Vec2 { x: 10, y: 0 }));
    assert_eq!(reconciler.position_at(0, 2_000_000), Some(Vec2 { x: 10, y: 0 }));
}

#[test]
fn stale_perceptions_are_ignored() {
    let mut reconciler = ClientReconciler::new();
    reconciler.receive_state(0, 0, body_at(0, 0));
    reconciler.receive_state(0, 1_000, body_at(10, 0));

    // An older embedded timestamp than the stored current must be discarded.
    reconciler.receive_state(0, 500, body_at(-100, -100));

    assert_eq!(reconciler.position_at(0, 1_000), Some(Vec2 { x: 10, y: 0 }));
    assert_eq!(reconciler.position_at(0, 500), Some(Vec2 { x: 5, y: 0 }));
}

#[test]
fn the_first_sighting_fills_both_slots() {
    let mut reconciler = ClientReconciler::new();
    reconciler.receive_state(4, 250, body_at(7, 9));

    // With a zero-length interval the current state is returned unmodified.
    assert_eq!(reconciler.position_at(4, 0), Some(Vec2 { x: 7, y: 9 }));
    assert_eq!(reconciler.position_at(4, 9_999), Some(Vec2 { x: 7, y: 9 }));
    assert_eq!(reconciler.position_at(5, 250), None);
}

#[test]
fn unknown_entities_yield_nothing() {
    let reconciler = ClientReconciler::new();
    assert_eq!(reconciler.position_at(0, 0), None);
}
