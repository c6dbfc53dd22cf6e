use spaceone::message_types::{AgencyId, MapMessage, MessageId, NodeId, PayloadKind};

fn message(kind: PayloadKind) -> MapMessage {
    MapMessage::new_at(
        NodeId("rover-01".into()),
        AgencyId::Nasa,
        vec![NodeId("habitat-01".into())],
        kind,
        b"test content".to_vec(),
        1_000,
    )
}

#[test]
fn map_message_built_intact_with_its_kind() {
    let msg = message(PayloadKind::Query);
    assert_eq!(msg.payload_type(), "Query");
    assert!(msg.verify_integrity());
    assert_eq!(msg.hop_count, 0);
    assert_eq!(msg.version, 1);
    assert_eq!(msg.ttl_seconds, 3600);
    assert_eq!(msg.message_id.0, "d87ca20fb47b105c59e46a63a86193a546b980991c86115a08da820304450b9d");
    assert_eq!(message(PayloadKind::NegotiationResult).payload_type(), "NegotiationResult");
}

#[test]
fn map_message_tampered_content_fails_integrity() {
    let mut msg = message(PayloadKind::Command);
    msg.content.push(b'!');
    assert!(!msg.verify_integrity());
}

#[test]
fn map_message_hop_limit_is_one_per_minute_of_ttl() {
    let mut msg = message(PayloadKind::Query);
    for _ in 0..59 {
        assert!(msg.increment_hop());
    }
    assert!(!msg.increment_hop());
    assert_eq!(msg.hop_count, 60);
    // Relaying does not disturb the integrity check.
    assert!(msg.verify_integrity());
}

#[test]
fn message_id_displays_sixteen_characters() {
    let id = MessageId::generate(b"abc");
    assert_eq!(id.0.len(), 64);
    assert_eq!(id.as_text(), id.0[..16].to_string());
    assert_eq!(id.as_text(), "3a985da74fe225b2");
}

#[test]
fn test_map_message_creation() {
    let msg = MapMessage::new(
        NodeId("rover-01".into()),
        AgencyId::Nasa,
        vec![NodeId("habitat-01".into())],
        PayloadKind::Query,
        MessageId::generate(b"test").0.into_bytes(),
    );
    assert_eq!(msg.payload_type(), "Query");
    assert!(msg.verify_integrity());
    assert_eq!(msg.hop_count, 0);
}

#[test]
fn test_hop_count_increment() {
    let mut msg = MapMessage::new(
        NodeId("rover-01".into()),
        AgencyId::Nasa,
        vec![],
        PayloadKind::Query,
        MessageId::generate(b"ttl-test").0.into_bytes(),
    );
    for _ in 0..59 {
        assert!(msg.increment_hop());
    }
    assert!(!msg.increment_hop());
}
