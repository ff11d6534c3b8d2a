use relay_core::machine::MachineState;
use relay_core::protocol::{decode, encode, ControlEventKind, Envelope, ProtocolError};

fn chat(author: &str, body: &str) -> Envelope {
    Envelope::ChatMessage { author: String::from(author), body: String::from(body) }
}

#[test]
fn round_trip_chat() {
    let env = chat("alice", "hello there");
    assert_eq!(decode(&encode(&env)), Ok(env));
}

#[test]
fn round_trip_chat_empty_strings() {
    let env = chat("", "");
    assert_eq!(decode(&encode(&env)), Ok(env));
}

#[test]
fn round_trip_chat_unicode() {
    let env = chat("søren", "snö och is — 雪");
    assert_eq!(decode(&encode(&env)), Ok(env));
}

#[test]
fn round_trip_every_control_kind() {
    let kinds = [
        ControlEventKind::Start,
        ControlEventKind::Stop,
        ControlEventKind::Pause,
        ControlEventKind::Emergency,
        ControlEventKind::Power,
    ];
    for kind in kinds {
        let env = Envelope::ControlEvent { kind };
        assert_eq!(decode(&encode(&env)), Ok(env));
    }
}

#[test]
fn round_trip_every_state_notice() {
    let states = [
        MachineState::Idle,
        MachineState::Running,
        MachineState::Paused,
        MachineState::Stopped,
        MachineState::EmergencyStop,
    ];
    for state in states {
        let env = Envelope::StateNotice { state };
        assert_eq!(decode(&encode(&env)), Ok(env));
    }
}

#[test]
fn encoding_is_deterministic() {
    let env = chat("bob", "same bytes every time");
    assert_eq!(encode(&env), encode(&env));
}

#[test]
fn unknown_tag_is_rejected() {
    for tag in 3u8..=255 {
        let buf = vec![tag, 0, 0];
        assert_eq!(decode(&buf), Err(ProtocolError::UnknownVariant));
    }
}

#[test]
fn empty_buffer_is_malformed() {
    assert_eq!(decode(&[]), Err(ProtocolError::MalformedPayload));
}

#[test]
fn truncated_chat_is_malformed() {
    let env = chat("alice", "hello");
    let bytes = encode(&env);
    let truncated = &bytes[..bytes.len() - 1];
    assert_eq!(decode(truncated), Err(ProtocolError::MalformedPayload));
}

#[test]
fn chat_length_overrun_is_malformed() {
    // Tag byte, then an author length claiming more bytes than follow.
    let mut buf = vec![0u8];
    buf.extend_from_slice(&[255, 255, 255, 255, 255, 255, 255, 255]);
    assert_eq!(decode(&buf), Err(ProtocolError::MalformedPayload));
}

#[test]
fn chat_invalid_utf8_is_malformed() {
    let mut buf = vec![0u8];
    // author: two bytes, an invalid UTF-8 sequence
    buf.extend_from_slice(&2u64.to_le_bytes());
    buf.extend_from_slice(&[0xff, 0xfe]);
    // body: zero bytes
    buf.extend_from_slice(&0u64.to_le_bytes());
    assert_eq!(decode(&buf), Err(ProtocolError::MalformedPayload));
}

#[test]
fn chat_trailing_bytes_are_malformed() {
    let env = chat("alice", "hello");
    let mut bytes = encode(&env);
    bytes.push(0);
    assert_eq!(decode(&bytes), Err(ProtocolError::MalformedPayload));
}

#[test]
fn control_event_bad_kind_byte_is_malformed() {
    assert_eq!(decode(&[1u8, 5]), Err(ProtocolError::MalformedPayload));
    assert_eq!(decode(&[1u8, 255]), Err(ProtocolError::MalformedPayload));
}

#[test]
fn control_event_wrong_length_is_malformed() {
    assert_eq!(decode(&[1u8]), Err(ProtocolError::MalformedPayload));
    assert_eq!(decode(&[1u8, 0, 0]), Err(ProtocolError::MalformedPayload));
}

#[test]
fn state_notice_bad_state_byte_is_malformed() {
    assert_eq!(decode(&[2u8, 5]), Err(ProtocolError::MalformedPayload));
}

#[test]
fn state_notice_wrong_length_is_malformed() {
    assert_eq!(decode(&[2u8]), Err(ProtocolError::MalformedPayload));
    assert_eq!(decode(&[2u8, 1, 1]), Err(ProtocolError::MalformedPayload));
}

#[test]
fn decode_survives_arbitrary_garbage() {
    // Nothing here may panic, whatever the bytes are.
    let samples: Vec<Vec<u8>> = vec![
        vec![0],
        vec![0, 1],
        vec![0, 8, 0, 0, 0, 0, 0, 0, 0],
        vec![1],
        vec![2],
        vec![9, 9, 9, 9],
        vec![0; 64],
        vec![255; 64],
    ];
    for s in samples {
        let _ = decode(&s);
    }
}
