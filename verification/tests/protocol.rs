use vndf::game::data::{Body, Broadcast, ManeuverData, Vec2};
use vndf::protocol::{
    build_perceptions, decode_action, decode_perception, encode_action, Percept,
    PerceptionBuilder, PerceptionHeader, Step, MAX_PACKET_SIZE,
};
use vndf::wire::DecodeError;

fn sample_maneuver() -> ManeuverData {
    ManeuverData {
        start_ms: 1_000,
        duration_ms: 2_000,
        direction: Vec2 { x: -540, y: 841 },
        thrust: -250,
    }
}

fn sample_body() -> Body {
    Body {
        position: Vec2 { x: -1_000_000, y: 2_500 },
        velocity: Vec2 { x: 10_000, y: 0 },
        force: Vec2 { x: 0, y: -1 },
        mass: 1_000,
    }
}

#[test]
fn an_action_survives_the_round_trip() {
    let steps = vec![
        Step::Login,
        Step::Heartbeat,
        Step::Broadcast(String::from("hello, out there")),
        Step::StopBroadcast,
        Step::SetManeuver(sample_maneuver()),
        Step::CancelManeuver(42),
    ];
    let bytes = encode_action(7, &steps).unwrap();
    assert!(bytes.len() <= MAX_PACKET_SIZE);

    let action = decode_action(&bytes).unwrap();
    assert_eq!(action.id, 7);
    assert_eq!(action.steps, steps);
}

#[test]
fn a_perception_survives_the_round_trip() {
    let header = PerceptionHeader { confirm_action: 99, self_id: Some(3) };
    let mut builder = PerceptionBuilder::begin(header);
    assert!(builder.add(Percept::Broadcast(Broadcast {
        sender: 3,
        message: String::from("free ships to good homes"),
    })));
    assert!(builder.add(Percept::Entity(3, sample_body())));
    let mut bytes: Vec<u8> = Vec::new();
    builder.encode(&mut bytes);
    assert!(bytes.len() <= MAX_PACKET_SIZE);

    let perception = decode_perception(&bytes).unwrap();
    assert_eq!(perception.header, header);
    assert_eq!(perception.percepts.len(), 2);
    match &perception.percepts[0] {
        Percept::Broadcast(b) => {
            assert_eq!(b.sender, 3);
            assert_eq!(b.message, "free ships to good homes");
        },
        _ => panic!("wrong percept kind"),
    }
    match &perception.percepts[1] {
        Percept::Entity(id, body) => {
            assert_eq!(*id, 3);
            assert_eq!(*body, sample_body());
        },
        _ => panic!("wrong percept kind"),
    }
}

#[test]
fn encoding_fails_only_past_the_packet_bound() {
    let message: String = std::iter::repeat('x').take(480).collect();
    let ok = encode_action(1, &vec![Step::Broadcast(message)]);
    assert!(ok.is_ok());

    let message: String = std::iter::repeat('x').take(600).collect();
    let too_large = encode_action(1, &vec![Step::Broadcast(message)]);
    assert!(too_large.is_err());
}

#[test]
fn decode_rejects_malformed_input_with_typed_errors() {
    assert_eq!(decode_action(&[]), Err(DecodeError::UnexpectedEnd));
    assert_eq!(decode_action(&[9]), Err(DecodeError::UnknownMessage));
    assert_eq!(decode_action(&[1, 1, 0, 0, 0, 0, 0, 0]), Err(DecodeError::UnexpectedEnd));

    // A valid empty action, then variations that break it.
    let good = encode_action(5, &Vec::new()).unwrap();
    assert!(decode_action(&good).is_ok());

    let mut trailing = good.clone();
    trailing.push(0);
    assert_eq!(decode_action(&trailing), Err(DecodeError::TrailingData));

    let unknown_step = encode_step_packet(200);
    assert_eq!(decode_action(&unknown_step), Err(DecodeError::UnknownStep));

    // A cancel step whose id carries a sign byte no encoder produces.
    let bad_sign = vec![
        2u8, 0, 0, 0, 0, 0, 0, 0, 0, // perception tag + confirmation
        7, // neither "no id" nor "id follows"
    ];
    assert_eq!(decode_perception(&bad_sign), Err(DecodeError::InvalidNumber));

    let bad_percept = perception_with_percept_tag(9);
    assert_eq!(decode_perception(&bad_percept), Err(DecodeError::UnknownPercept));

    let bad_text = broadcast_step_with_bytes(&[0xff, 0xfe]);
    assert_eq!(decode_action(&bad_text), Err(DecodeError::InvalidText));
}

/// An action packet holding one step with the given tag byte.
fn encode_step_packet(tag: u8) -> Vec<u8> {
    let mut bytes = vec![1u8];
    bytes.extend_from_slice(&[0, 0, 0, 0, 0, 0, 0, 0]); // sequence 0
    bytes.extend_from_slice(&[1, 0]); // one step
    bytes.push(tag);
    bytes
}

/// A perception packet holding one percept with the given tag byte.
fn perception_with_percept_tag(tag: u8) -> Vec<u8> {
    let mut bytes = vec![2u8];
    bytes.extend_from_slice(&[0, 0, 0, 0, 0, 0, 0, 0]); // confirmation 0
    bytes.push(0); // no self id
    bytes.extend_from_slice(&[1, 0]); // one percept
    bytes.push(tag);
    bytes
}

/// An action packet holding one broadcast step with the given raw text bytes.
fn broadcast_step_with_bytes(raw: &[u8]) -> Vec<u8> {
    let mut bytes = vec![1u8];
    bytes.extend_from_slice(&[0, 0, 0, 0, 0, 0, 0, 0]);
    bytes.extend_from_slice(&[1, 0]);
    bytes.push(3); // broadcast step
    bytes.extend_from_slice(&[raw.len() as u8, 0]);
    bytes.extend_from_slice(raw);
    bytes
}

#[test]
fn the_builder_never_exceeds_the_bound_and_drops_nothing() {
    let header = PerceptionHeader { confirm_action: 1, self_id: Some(9) };
    let mut percepts: Vec<Percept> = Vec::new();
    for k in 0..40 {
        let message: String = std::iter::repeat('b').take(40).collect();
        percepts.push(Percept::Broadcast(Broadcast { sender: k, message }));
    }

    let packets = build_perceptions(header, &percepts);
    assert!(packets.len() >= 2);

    let mut seen: Vec<Percept> = Vec::new();
    for packet in &packets {
        assert!(packet.len() <= MAX_PACKET_SIZE);
        let perception = decode_perception(packet).unwrap();
        assert_eq!(perception.header, header);
        seen.extend(perception.percepts);
    }
    assert_eq!(seen, percepts);
}

#[test]
fn an_overfull_builder_refuses_without_mutating() {
    let header = PerceptionHeader { confirm_action: 0, self_id: None };
    let mut builder = PerceptionBuilder::begin(header);
    let big: String = std::iter::repeat('a').take(400).collect();
    assert!(builder.add(Percept::Broadcast(Broadcast { sender: 1, message: big })));

    let big2: String = std::iter::repeat('c').take(400).collect();
    assert!(!builder.add(Percept::Broadcast(Broadcast { sender: 2, message: big2 })));

    let mut bytes: Vec<u8> = Vec::new();
    builder.encode(&mut bytes);
    let perception = decode_perception(&bytes).unwrap();
    assert_eq!(perception.percepts.len(), 1);
}
