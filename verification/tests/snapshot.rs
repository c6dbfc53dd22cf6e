use spaceone::snapshot::{count_spaceone_units, last_line_or_unknown, uptime_seconds_of, HostReadings, SystemSnapshot};

#[test]
fn uptime_is_the_whole_seconds_of_the_first_field() {
    assert_eq!(uptime_seconds_of("35812.27 139520.91\n"), 35812);
    assert_eq!(uptime_seconds_of("  42 7"), 42);
    assert_eq!(uptime_seconds_of(".5 1"), 0);
    assert_eq!(uptime_seconds_of(""), 0);
    assert_eq!(uptime_seconds_of("abc.1"), 0);
}

#[test]
fn spaceone_units_are_counted_by_prefix() {
    let names: Vec<String> = ["spaceone-core.service", "aqm-dtnd.service", "spaceone-relay.service", "spaceone"]
        .iter()
        .map(|s| s.to_string())
        .collect();
    assert_eq!(count_spaceone_units(&names), 2);
    assert_eq!(count_spaceone_units(&Vec::new()), 0);
}

#[test]
fn last_reboot_reason_is_the_last_log_line() {
    assert_eq!(last_line_or_unknown("a\nb\nwatchdog reset\n"), "watchdog reset");
    assert_eq!(last_line_or_unknown("only"), "only");
    assert_eq!(last_line_or_unknown(""), "unknown");
}

#[test]
fn snapshot_from_full_readings() {
    let s = SystemSnapshot::from_readings(HostReadings {
        timestamp: "2030-01-01T00:00:00+00:00".to_string(),
        uptime_text: Some("100.9 3.0\n".to_string()),
        boot_slot: Some("rootfs.1".to_string()),
        health: Some((8500, "nominal".to_string())),
        services: Some(vec!["spaceone-core.service".to_string(), "rauc.service".to_string()]),
        pending_bundles: Some(4),
        safe_mode_active: true,
        core_log: Some("2030-01-01 boot\n2030-01-01 planned reboot".to_string()),
    });
    assert_eq!(s.timestamp, "2030-01-01T00:00:00+00:00");
    assert_eq!(s.uptime_seconds, 100);
    assert_eq!(s.active_slot, "rootfs.1");
    assert_eq!(s.aqm_health_score_per_10k, 8500);
    assert_eq!(s.aqm_system_state, "nominal");
    assert_eq!(s.spaceone_services_active, 1);
    assert_eq!(s.pending_dtn_bundles, 4);
    assert!(s.safe_mode_active);
    assert_eq!(s.last_reboot_reason, "2030-01-01 planned reboot");
}

#[test]
fn snapshot_from_failed_readings() {
    let s = SystemSnapshot::from_readings(HostReadings {
        timestamp: "t".to_string(),
        uptime_text: None,
        boot_slot: None,
        health: None,
        services: None,
        pending_bundles: None,
        safe_mode_active: false,
        core_log: None,
    });
    assert_eq!(s.uptime_seconds, 0);
    assert_eq!(s.active_slot, "unknown");
    assert_eq!(s.aqm_health_score_per_10k, 0);
    assert_eq!(s.aqm_system_state, "unavailable");
    assert_eq!(s.spaceone_services_active, 0);
    assert_eq!(s.pending_dtn_bundles, 0);
    assert!(!s.safe_mode_active);
    assert_eq!(s.last_reboot_reason, "unknown");
}
