use spaceone::message_types::{MessageId, Priority};
use spaceone::priority_bundle::{BundleDestination, BundleId, BundlePriority, PriorityBundle};

#[test]
fn message_types_test_priority_ordering() {
    assert!(Priority::Critical > Priority::Normal);
    assert!(Priority::SafetyCritical >= Priority::Emergency);
    assert!(Priority::Background < Priority::Low);
    assert!(Priority::SafetyCritical.is_sufficient_for(Priority::Critical));
    assert!(!Priority::Normal.is_sufficient_for(Priority::High));
}

#[test]
fn test_message_id_generation() {
    let content = b"test content";
    let id1 = MessageId::generate(content);
    let id2 = MessageId::generate(content);
    assert_eq!(id1, id2);

    let id3 = MessageId::generate(b"different");
    assert_ne!(id1, id3);
}

#[test]
fn message_id_is_sha3_hex() {
    let id = MessageId::generate(b"");
    assert_eq!(id.0, "a7ffc6f8bf1ed76651c14756a061d662f580ff4de43b49fa82d80a4b80f8434a");
}

#[test]
fn priority_levels() {
    assert_eq!(Priority::Background.rank(), 0);
    assert_eq!(Priority::SafetyCritical.rank(), 7);
    assert!(Priority::Urgent.is_sufficient_for(Priority::Urgent));
}

#[test]
fn priority_bundle_test_priority_ordering() {
    assert!(BundlePriority::SafetyCritical > BundlePriority::Emergency);
    assert!(BundlePriority::Emergency > BundlePriority::Command);
    assert!(BundlePriority::Command > BundlePriority::ScienceHigh);
    assert!(BundlePriority::Maintenance < BundlePriority::ScienceBulk);
}

#[test]
fn test_max_delay_consistency() {
    assert!(BundlePriority::SafetyCritical.max_delay_seconds() < BundlePriority::Emergency.max_delay_seconds());
    assert!(BundlePriority::Emergency.max_delay_seconds() < BundlePriority::Maintenance.max_delay_seconds());
}

#[test]
fn max_delays() {
    assert_eq!(BundlePriority::SafetyCritical.max_delay_seconds(), 30);
    assert_eq!(BundlePriority::Command.max_delay_seconds(), 300);
    assert_eq!(BundlePriority::Maintenance.max_delay_seconds(), 259200);
}

#[test]
fn test_bundle_creation_and_expiry() {
    let bundle = PriorityBundle::new(
        BundleId("test-bundle".into()),
        BundlePriority::ScienceNormal,
        "rover-01".into(),
        BundleDestination::EarthStation("dsn".into()),
        vec![0u8; 1024],
        3600,
    );

    assert!(!bundle.is_expired());
    assert!(bundle.remaining_ttl_seconds() > 3500);
    // 1024 bytes at 1 kbps: 8.192 s.
    assert_eq!(bundle.estimated_transmission_time_ms(1000), 8192);
}

#[test]
fn test_expired_bundle() {
    let mut bundle = PriorityBundle::new(
        BundleId("expired".into()),
        BundlePriority::Maintenance,
        "rover-01".into(),
        BundleDestination::Relay("orbiter".into()),
        vec![],
        1,
    );

    bundle.expires_at = bundle.created_at - 1000;
    assert!(bundle.is_expired());
}

#[test]
fn bundle_times_at_a_given_instant() {
    let bundle = PriorityBundle::new_at(
        BundleId("b".into()),
        BundlePriority::Command,
        "rover-01".into(),
        BundleDestination::Relay("orbiter".into()),
        vec![1, 2, 3],
        60,
        1_000_000,
    );
    assert_eq!(bundle.payload_size, 3);
    assert_eq!(bundle.expires_at, 1_060_000);
    assert!(!bundle.is_expired_at(1_060_000));
    assert!(bundle.is_expired_at(1_060_001));
    assert_eq!(bundle.remaining_ttl_seconds_at(1_000_000), 60);
}

#[test]
fn minimum_bandwidths() {
    assert_eq!(BundlePriority::SafetyCritical.min_bandwidth_bps(), 2000);
    assert_eq!(BundlePriority::Emergency.min_bandwidth_bps(), 1000);
    assert_eq!(BundlePriority::Command.min_bandwidth_bps(), 500);
    assert_eq!(BundlePriority::Telemetry.min_bandwidth_bps(), 100);
}
