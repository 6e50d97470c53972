use vndf::game::state::GameState;
use vndf::protocol::{Action, Step};
use vndf::server::clients::ClientRegistry;

#[test]
fn confirmation_takes_the_larger_sequence_in_either_order() {
    // Two actions with sequence numbers 3 and 8, delivered in both orders,
    // leave the confirmation at 8 and never move it backward.
    for order in [[3u64, 8u64], [8u64, 3u64]] {
        let mut registry = ClientRegistry::new();
        let mut state = GameState::new();
        let address = 77;

        registry.on_action(
            &mut state,
            address,
            &Action { id: order[0], steps: vec![Step::Login] },
            10,
        );
        registry.on_action(
            &mut state,
            address,
            &Action { id: order[1], steps: vec![Step::Heartbeat] },
            20,
        );

        let session = registry.clients.get(address).unwrap();
        assert_eq!(session.last_confirmed_seq, 8);
        assert_eq!(session.last_active_ms, 20);
    }
}

#[test]
fn unknown_addresses_without_login_are_ignored() {
    let mut registry = ClientRegistry::new();
    let mut state = GameState::new();

    registry.on_action(
        &mut state,
        123,
        &Action { id: 1, steps: vec![Step::Heartbeat] },
        5,
    );

    assert!(registry.clients.get(123).is_none());
    assert_eq!(state.export_entities().len(), 0);
}

#[test]
fn login_creates_one_ship_and_repeating_it_changes_nothing() {
    let mut registry = ClientRegistry::new();
    let mut state = GameState::new();

    registry.on_action(&mut state, 5, &Action { id: 1, steps: vec![Step::Login] }, 100);
    let id_first = registry.clients.get(5).unwrap().id;
    assert_eq!(state.export_entities().len(), 1);

    registry.on_action(&mut state, 5, &Action { id: 2, steps: vec![Step::Login] }, 200);
    let session = registry.clients.get(5).unwrap();
    assert_eq!(session.id, id_first);
    assert_eq!(session.last_active_ms, 200);
    assert_eq!(state.export_entities().len(), 1);
}

#[test]
fn broadcasts_are_set_and_withdrawn_through_actions() {
    let mut registry = ClientRegistry::new();
    let mut state = GameState::new();

    registry.on_action(
        &mut state,
        9,
        &Action {
            id: 1,
            steps: vec![Step::Login, Step::Broadcast(String::from("vessel seeks crew"))],
        },
        1,
    );
    let exported = state.export_entities();
    assert_eq!(exported.len(), 1);
    let broadcast = exported[0].broadcast.as_ref().unwrap();
    assert_eq!(broadcast.message, "vessel seeks crew");
    assert!(registry.clients.get(9).unwrap().broadcasting);

    registry.on_action(
        &mut state,
        9,
        &Action { id: 2, steps: vec![Step::StopBroadcast] },
        2,
    );
    let exported = state.export_entities();
    assert!(exported[0].broadcast.is_none());
    assert!(!registry.clients.get(9).unwrap().broadcasting);
}

#[test]
fn timed_out_sessions_are_found_and_evicted_like_a_leave() {
    let mut registry = ClientRegistry::new();
    let mut state = GameState::new();

    registry.on_action(&mut state, 1, &Action { id: 1, steps: vec![Step::Login] }, 0);
    registry.on_action(&mut state, 2, &Action { id: 1, steps: vec![Step::Login] }, 9_000);
    assert_eq!(state.export_entities().len(), 2);

    let stale = registry.timed_out_clients(12_000, 5_000);
    assert_eq!(stale.len(), 1);
    let (address, ship_id) = stale[0];
    assert_eq!(address, 1);

    registry.evict(&mut state, address);
    assert!(registry.clients.get(1).is_none());
    assert!(registry.clients.get(2).is_some());
    let exported = state.export_entities();
    assert_eq!(exported.len(), 1);
    assert!(exported[0].id != ship_id);
}

#[test]
fn generated_ids_have_the_documented_shape() {
    for _ in 0..50 {
        let id = vndf::ids::generate_id();
        let chars: Vec<char> = id.chars().collect();
        assert_eq!(chars.len(), 9);
        assert_eq!(chars[3], '-');
        for k in 0..3 {
            assert!(chars[k].is_ascii_uppercase());
        }
        for k in 4..9 {
            assert!(chars[k].is_ascii_uppercase() || chars[k].is_ascii_digit());
        }
    }
}

#[test]
fn an_oversized_broadcast_is_ignored_at_admission() {
    let mut registry = ClientRegistry::new();
    let mut state = GameState::new();

    // The longest admissible broadcast text holds 481 bytes; one byte more
    // and the step is ignored, so dissemination can always pack every
    // admitted percept.
    let fits = "a".repeat(481);
    let too_long = "a".repeat(482);

    registry.on_action(
        &mut state,
        4,
        &Action { id: 1, steps: vec![Step::Login, Step::Broadcast(too_long)] },
        1,
    );
    let exported = state.export_entities();
    assert!(exported[0].broadcast.is_none());
    assert!(!registry.clients.get(4).unwrap().broadcasting);

    registry.on_action(
        &mut state,
        4,
        &Action { id: 2, steps: vec![Step::Broadcast(fits.clone())] },
        2,
    );
    let exported = state.export_entities();
    assert_eq!(exported[0].broadcast.as_ref().unwrap().message, fits);
    assert!(registry.clients.get(4).unwrap().broadcasting);
}
