use copper::connection::{handle_packet, ConnectionState, ConnectionStateError};
use copper::packet::{Packet, PacketError};

#[test]
fn test_initial_state_is_handshake() {
    assert_eq!(ConnectionState::new(), ConnectionState::Handshake);
}

#[test]
fn test_handshake_packet_advances_state() {
    // Frame: length 1, id 0x00 (the handshake packet), no payload.
    let packet = Packet::new(&[1, 0]).expect("Failed to create packet");
    let next = ConnectionState::try_from_packet(ConnectionState::new(), &packet);
    let next = next.expect("handshake packet must be accepted");
    assert_ne!(next, ConnectionState::Handshake);
    assert_eq!(next, ConnectionState::Login);
}

#[test]
fn test_handshake_rejects_other_ids() {
    for id in [1u8, 2, 5, 0x7F] {
        let packet = Packet::new(&[1, id]).expect("Failed to create packet");
        let next = ConnectionState::try_from_packet(ConnectionState::new(), &packet);
        assert_eq!(next, Err(ConnectionStateError::InvalidId));
    }
}

#[test]
fn test_unspecified_states_reject_transitions() {
    let packet = Packet::new(&[1, 0]).expect("Failed to create packet");
    for state in [
        ConnectionState::Status,
        ConnectionState::Login,
        ConnectionState::Play,
        ConnectionState::Transfer,
    ] {
        let next = ConnectionState::try_from_packet(state, &packet);
        assert_eq!(next, Err(ConnectionStateError::UnspecifiedTransition));
    }
}

#[test]
fn test_intent_selects_next_state() {
    assert_eq!(
        ConnectionState::next_state_from_intent(1),
        Ok(ConnectionState::Status)
    );
    assert_eq!(
        ConnectionState::next_state_from_intent(2),
        Ok(ConnectionState::Login)
    );
    assert_eq!(
        ConnectionState::next_state_from_intent(3),
        Ok(ConnectionState::Transfer)
    );
    assert_eq!(
        ConnectionState::next_state_from_intent(0),
        Err(ConnectionStateError::InvalidId)
    );
    assert_eq!(
        ConnectionState::next_state_from_intent(4),
        Err(ConnectionStateError::InvalidId)
    );
}

#[test]
fn test_two_connections_keep_independent_states() {
    // Each connection owns its state value outright: advancing one cannot
    // touch the other.
    let state_a = ConnectionState::new();
    let state_b = ConnectionState::new();

    let handshake = Packet::new(&[1, 0]).expect("Failed to create packet");
    let state_a = ConnectionState::try_from_packet(state_a, &handshake)
        .expect("handshake packet must be accepted");
    // Put connection A all the way into the play phase.
    let state_a = if state_a == ConnectionState::Login {
        ConnectionState::Play
    } else {
        state_a
    };

    assert_eq!(state_a, ConnectionState::Play);
    assert_eq!(state_b, ConnectionState::Handshake);
}

#[test]
fn test_handle_packet_echoes_behind_prefix() {
    let response = handle_packet(&[4, 4, 1, 2, 3]).expect("framing must succeed");
    let mut expected: Vec<u8> = b"Received: ".to_vec();
    expected.extend_from_slice(&[4, 4, 1, 2, 3]);
    assert_eq!(response, expected);
}

#[test]
fn test_handle_packet_reports_framing_errors() {
    assert_eq!(handle_packet(&[]), Err(PacketError::LengthDecodingError));
    assert_eq!(handle_packet(&[5, 0x80]), Err(PacketError::IdDecodingError));
}
