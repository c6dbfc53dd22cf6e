use spaceone::priority_bundle::{BundleDestination, BundleId, BundlePriority, PriorityBundle};
use spaceone::store_forward::{EvictionStrategy, StoreForwardSystem};

fn make_bundle(id: &str, priority: BundlePriority, size: u64) -> PriorityBundle {
    PriorityBundle::new(
        BundleId(id.into()),
        priority,
        "test".into(),
        BundleDestination::EarthStation("dsn".into()),
        vec![0u8; size as usize],
        86400,
    )
}

fn bundle_to(id: &str, priority: BundlePriority, size: u64, dest: BundleDestination) -> PriorityBundle {
    PriorityBundle::new_at(BundleId(id.into()), priority, "test".into(), dest, vec![7u8; size as usize], 86400, 0)
}

#[test]
fn test_store_and_retrieve() {
    let mut system = StoreForwardSystem::new(1024 * 1024);

    let bundle = make_bundle("b1", BundlePriority::ScienceNormal, 100);
    system.store(bundle).unwrap();

    let retrieved = system.retrieve(&BundleId("b1".into()));
    assert!(retrieved.is_some());
    assert_eq!(retrieved.unwrap().payload_size, 100);
}

#[test]
fn test_eviction_on_capacity() {
    let mut system = StoreForwardSystem::new(300);

    system.store(make_bundle("b1", BundlePriority::Maintenance, 150)).unwrap();
    system.store(make_bundle("b2", BundlePriority::ScienceBulk, 150)).unwrap();

    let result = system.store(make_bundle("b3", BundlePriority::Command, 150));
    assert!(result.is_ok());

    let state = system.state();
    assert!(state.bundle_count <= 3);
    assert!(state.eviction_count > 0);
}

#[test]
fn test_cleanup_expired() {
    let mut system = StoreForwardSystem::new(1024 * 1024);

    let mut bundle = make_bundle("expired", BundlePriority::Maintenance, 100);
    bundle.expires_at = chrono::Utc::now().timestamp_millis() - 3_600_000;

    system.store(bundle).unwrap();
    let cleaned = system.cleanup_expired();
    assert_eq!(cleaned, 1);
    assert_eq!(system.state().bundle_count, 0);
}

#[test]
fn test_integrity_verification() {
    let mut system = StoreForwardSystem::new(1024 * 1024);

    system.store(make_bundle("intact", BundlePriority::ScienceNormal, 200)).unwrap();
    let failures = system.verify_integrity();
    assert_eq!(failures, 0);
}

#[test]
fn test_retrieve_by_destination() {
    let mut system = StoreForwardSystem::new(1024 * 1024);

    system.store(make_bundle("b1", BundlePriority::ScienceNormal, 50)).unwrap();
    system.store(make_bundle("b2", BundlePriority::ScienceNormal, 50)).unwrap();

    let dest = BundleDestination::EarthStation("dsn".into());
    let bundles = system.retrieve_by_destination(&dest);
    assert_eq!(bundles.len(), 2);
}

#[test]
fn test_storage_state() {
    let mut system = StoreForwardSystem::new(1024 * 1024);

    system.store(make_bundle("b1", BundlePriority::ScienceNormal, 1000)).unwrap();
    let state = system.state();

    assert_eq!(state.bundle_count, 1);
    assert_eq!(state.used_bytes, 1000);
    assert_eq!(state.total_capacity_bytes, 1024 * 1024);
}

#[test]
fn store_lowest_priority_eviction_takes_first_low_bundle_only() {
    let mut system = StoreForwardSystem::new(300);
    let dsn = || BundleDestination::EarthStation("dsn".into());
    system.store_at(bundle_to("b1", BundlePriority::Maintenance, 150, dsn()), 0).unwrap();
    system.store_at(bundle_to("b2", BundlePriority::ScienceBulk, 150, dsn()), 0).unwrap();
    system.store_at(bundle_to("b3", BundlePriority::Command, 150, dsn()), 0).unwrap();
    let st = system.state_at(0);
    assert_eq!(st.bundle_count, 2);
    assert_eq!(st.used_bytes, 300);
    assert_eq!(st.eviction_count, 1);
    assert!(system.retrieve_at(&BundleId("b1".into()), 1).is_none());
    assert!(system.retrieve_at(&BundleId("b2".into()), 1).is_some());
    assert!(system.retrieve_at(&BundleId("b3".into()), 1).is_some());
}

#[test]
fn store_oldest_first_follows_identifier_order() {
    let mut system = StoreForwardSystem::with_eviction(200, EvictionStrategy::OldestFirst);
    let dsn = || BundleDestination::EarthStation("dsn".into());
    // Stored first, but "z" sorts after "a".
    system.store_at(bundle_to("z", BundlePriority::SafetyCritical, 100, dsn()), 0).unwrap();
    system.store_at(bundle_to("a", BundlePriority::SafetyCritical, 100, dsn()), 10).unwrap();
    system.store_at(bundle_to("m", BundlePriority::Command, 100, dsn()), 20).unwrap();
    assert!(system.retrieve_at(&BundleId("a".into()), 30).is_none());
    assert!(system.retrieve_at(&BundleId("z".into()), 30).is_some());
    assert!(system.retrieve_at(&BundleId("m".into()), 30).is_some());
}

#[test]
fn store_least_frequently_used_evicts_the_untouched_bundle() {
    let mut system = StoreForwardSystem::with_eviction(200, EvictionStrategy::LeastFrequentlyUsed);
    let dsn = || BundleDestination::EarthStation("dsn".into());
    system.store_at(bundle_to("a", BundlePriority::Telemetry, 100, dsn()), 0).unwrap();
    system.store_at(bundle_to("b", BundlePriority::Telemetry, 100, dsn()), 0).unwrap();
    assert!(system.retrieve_at(&BundleId("a".into()), 5).is_some());
    system.store_at(bundle_to("c", BundlePriority::Telemetry, 100, dsn()), 10).unwrap();
    assert!(system.retrieve_at(&BundleId("b".into()), 20).is_none());
    assert!(system.retrieve_at(&BundleId("a".into()), 20).is_some());
    assert!(system.retrieve_at(&BundleId("c".into()), 20).is_some());
}

#[test]
fn store_least_recently_used_evicts_the_stalest_bundle() {
    let mut system = StoreForwardSystem::with_eviction(200, EvictionStrategy::LeastRecentlyUsed);
    let dsn = || BundleDestination::EarthStation("dsn".into());
    system.store_at(bundle_to("a", BundlePriority::Telemetry, 100, dsn()), 0).unwrap();
    system.store_at(bundle_to("b", BundlePriority::Telemetry, 100, dsn()), 5).unwrap();
    assert!(system.retrieve_at(&BundleId("a".into()), 8).is_some());
    system.store_at(bundle_to("c", BundlePriority::Telemetry, 100, dsn()), 10).unwrap();
    assert!(system.retrieve_at(&BundleId("b".into()), 20).is_none());
    assert!(system.retrieve_at(&BundleId("a".into()), 20).is_some());
}

#[test]
fn store_remove_and_destination_index() {
    let mut system = StoreForwardSystem::new(10_000);
    let relay = || BundleDestination::Relay("mro".into());
    let dsn = || BundleDestination::EarthStation("dsn".into());
    system.store_at(bundle_to("r2", BundlePriority::Telemetry, 10, relay()), 0).unwrap();
    system.store_at(bundle_to("e1", BundlePriority::Telemetry, 10, dsn()), 0).unwrap();
    system.store_at(bundle_to("r1", BundlePriority::Telemetry, 10, relay()), 0).unwrap();
    let via_relay: Vec<String> = system.retrieve_by_destination(&relay()).iter().map(|b| b.id.0.clone()).collect();
    assert_eq!(via_relay, vec!["r2".to_string(), "r1".to_string()]);
    assert!(system.remove(&BundleId("r2".into())));
    assert!(!system.remove(&BundleId("r2".into())));
    let via_relay: Vec<String> = system.retrieve_by_destination(&relay()).iter().map(|b| b.id.0.clone()).collect();
    assert_eq!(via_relay, vec!["r1".to_string()]);
    assert!(system.retrieve_by_destination(&BundleDestination::Relay("other".into())).is_empty());
    assert_eq!(system.state_at(0).used_bytes, 20);
}

#[test]
fn store_ages_in_whole_hours_and_seconds() {
    let mut system = StoreForwardSystem::new(10_000);
    let dsn = || BundleDestination::EarthStation("dsn".into());
    system.store_at(bundle_to("old", BundlePriority::Telemetry, 10, dsn()), 0).unwrap();
    system.store_at(bundle_to("new", BundlePriority::Telemetry, 10, dsn()), 7_000_000).unwrap();
    let st = system.state_at(7_200_999);
    assert_eq!(st.oldest_bundle_age_hours, 2);
    assert_eq!(st.newest_bundle_age_seconds, 200);
    assert_eq!(st.integrity_failures, 0);
    let empty = StoreForwardSystem::new(10).state_at(5);
    assert_eq!(empty.oldest_bundle_age_hours, 0);
    assert_eq!(empty.newest_bundle_age_seconds, 0);
}

#[test]
fn store_expiry_is_strict_and_retransmissions_counted() {
    let mut system = StoreForwardSystem::new(10_000);
    let dsn = || BundleDestination::EarthStation("dsn".into());
    let b = bundle_to("x", BundlePriority::Telemetry, 10, dsn());
    let expiry = b.expires_at;
    system.store_at(b, 0).unwrap();
    system.mark_retransmission(&BundleId("x".into()));
    assert_eq!(system.cleanup_expired_at(expiry), 0);
    assert_eq!(system.cleanup_expired_at(expiry + 1), 1);
    assert_eq!(system.state_at(expiry).bundle_count, 0);
    assert_eq!(system.state_at(expiry).used_bytes, 0);
}

#[test]
fn store_same_identifier_replaces_the_bundle() {
    let mut system = StoreForwardSystem::new(10_000);
    let dsn = || BundleDestination::EarthStation("dsn".into());
    system.store_at(bundle_to("x", BundlePriority::Telemetry, 10, dsn()), 0).unwrap();
    system.store_at(bundle_to("x", BundlePriority::Command, 30, dsn()), 1).unwrap();
    let st = system.state_at(2);
    assert_eq!(st.bundle_count, 1);
    assert_eq!(st.used_bytes, 30);
    assert_eq!(system.retrieve_at(&BundleId("x".into()), 3).unwrap().priority, BundlePriority::Command);
    // The replaced record leaves the index: the bundle is listed once.
    assert_eq!(system.retrieve_by_destination(&dsn()).len(), 1);
}

#[test]
fn storing_an_identifier_again_replaces_its_bytes() {
    let mut s = StoreForwardSystem::new(10_000);
    let mut first = PriorityBundle::new(
        BundleId("dup".into()),
        BundlePriority::Command,
        "rover".into(),
        BundleDestination::EarthStation("DSN".into()),
        vec![1u8; 300],
        3600,
    );
    s.store(first.clone()).unwrap();
    assert_eq!(s.state().used_bytes, 300);
    first = PriorityBundle::new(
        BundleId("dup".into()),
        BundlePriority::Command,
        "rover".into(),
        BundleDestination::Relay("MRO".into()),
        vec![2u8; 120],
        3600,
    );
    s.store(first).unwrap();
    let st = s.state();
    assert_eq!(st.used_bytes, 120);
    assert_eq!(st.bundle_count, 1);
    assert!(s.retrieve_by_destination(&BundleDestination::EarthStation("DSN".into())).is_empty());
    assert_eq!(s.retrieve_by_destination(&BundleDestination::Relay("MRO".into())).len(), 1);
    assert_eq!(s.retrieve(&BundleId("dup".into())).unwrap().payload, vec![2u8; 120]);
}
