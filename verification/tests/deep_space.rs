use spaceone::dsn::{
    days_since_j2000, in_solar_conjunction, send_through_relay, visible_complex_at_hour, DsnBundle, DsnBundleStatus, DsnComplex,
    DsnConfig, DsnDish, DsnModulation, DsnRelay,
};

fn complex(id: &str, location: &str, visible: bool) -> DsnComplex {
    DsnComplex {
        id: id.into(),
        location: location.into(),
        dishes: vec![DsnDish {
            id: format!("{}-70m", id),
            diameter_cm: 7000,
            band: "Ka-band".into(),
            is_available: true,
            is_scheduled: false,
        }],
        is_visible_mars: visible,
        next_pass_start: None,
        next_pass_end: None,
    }
}

fn test_config() -> DsnConfig {
    DsnConfig {
        complexes: vec![complex("DSS-14", "Goldstone, California", true)],
        frequency_khz: 32_000_000,
        transmit_power_centi_dbm: 4300,
        receive_sensitivity_centi_dbm: -16000,
    }
}

fn bundle(id: &str) -> DsnBundle {
    DsnBundle {
        id: id.into(),
        payload: vec![1, 2, 3, 4],
        destination_eid: "dtn://mars/rover-01".into(),
        priority: 4,
        modulation: DsnModulation::PcmPskPm,
        scheduled_time: None,
        status: DsnBundleStatus::Scheduled,
    }
}

#[test]
fn test_select_complex() {
    let mut relay = DsnRelay::new(test_config());
    let complex = relay.select_active_complex();
    assert_eq!(complex, Some("DSS-14".to_string()));
}

#[test]
fn test_schedule_and_transmit() {
    let mut relay = DsnRelay::new(test_config());
    relay.select_active_complex();

    relay.schedule_transmission(bundle("TEST-001")).unwrap();
    let transmitted = relay.transmit_scheduled();
    assert_eq!(transmitted.len(), 1);
    assert_eq!(transmitted[0].status, DsnBundleStatus::Transmitting);
}

#[test]
fn dsn_first_visible_complex_is_chosen() {
    let config = DsnConfig {
        complexes: vec![
            complex("DSS-14", "Goldstone", false),
            complex("DSS-43", "Canberra", true),
            complex("DSS-63", "Madrid", true),
        ],
        ..test_config()
    };
    let mut relay = DsnRelay::new(config);
    assert_eq!(relay.select_active_complex(), Some("DSS-43".to_string()));
    assert_eq!(relay.stats().active_complex, Some("DSS-43".to_string()));
}

#[test]
fn dsn_no_visible_complex_refuses_scheduling() {
    let config = DsnConfig { complexes: vec![complex("DSS-14", "Goldstone", false)], ..test_config() };
    let mut relay = DsnRelay::new(config);
    assert_eq!(relay.select_active_complex(), None);
    assert_eq!(
        relay.schedule_transmission(bundle("B")),
        Err("No DSN complex available — waiting for Mars visibility".to_string())
    );
    assert_eq!(relay.stats().scheduled, 0);
}

#[test]
fn dsn_transmission_stamps_and_queues() {
    let mut relay = DsnRelay::new(test_config());
    relay.select_active_complex();
    let mut b = bundle("B1");
    b.status = DsnBundleStatus::Failed;
    assert_eq!(relay.schedule_transmission(b), Ok("B1".to_string()));
    relay.schedule_transmission(bundle("B2")).unwrap();
    assert_eq!(relay.stats().scheduled, 2);
    let sent = relay.transmit_scheduled_at("2030-01-01T00:00:00+00:00");
    assert_eq!(sent.len(), 2);
    assert_eq!(sent[1].id, "B2");
    assert_eq!(sent[1].scheduled_time, Some("2030-01-01T00:00:00+00:00".to_string()));
    let st = relay.stats();
    assert_eq!(st.scheduled, 0);
    assert_eq!(st.in_queue, 2);
    assert_eq!(st.delivered, 0);
    assert_eq!(st.failed, 0);
    assert!(relay.transmit_scheduled().is_empty());
}

#[test]
fn dsn_link_status_figures() {
    let mut relay = DsnRelay::new(test_config());
    relay.select_active_complex();
    let st = relay.link_status_at("now");
    assert_eq!(st.active_complex, Some("DSS-14".to_string()));
    assert_eq!(st.signal_strength_centi_db, -14000);
    assert_eq!(st.snr_centi_db, 1500);
    assert_eq!(st.bit_error_rate_ppb, 1000);
    assert_eq!(st.round_trip_light_time_seconds, 840);
    assert_eq!(st.doppler_shift_hz, 2500);
    assert_eq!(st.next_window_start, Some("now".to_string()));
    assert_eq!(st.next_window_duration_minutes, 480);
}

#[test]
fn dsn_complex_follows_the_hour() {
    assert_eq!(visible_complex_at_hour(0), "DSS-43 (Canberra)");
    assert_eq!(visible_complex_at_hour(7), "DSS-43 (Canberra)");
    assert_eq!(visible_complex_at_hour(8), "DSS-54 (Madrid)");
    assert_eq!(visible_complex_at_hour(15), "DSS-54 (Madrid)");
    assert_eq!(visible_complex_at_hour(16), "DSS-14 (Goldstone)");
    assert_eq!(visible_complex_at_hour(23), "DSS-14 (Goldstone)");
}

#[test]
fn dsn_conjunction_closes_each_cycle() {
    assert!(!in_solar_conjunction(0));
    assert!(!in_solar_conjunction(770));
    assert!(in_solar_conjunction(771));
    assert!(in_solar_conjunction(779));
    assert!(!in_solar_conjunction(780));
    assert!(in_solar_conjunction(780 * 10 + 775));
    assert!(!in_solar_conjunction(-5));
}

#[test]
fn dsn_sending_follows_the_link() {
    let mut relay = DsnRelay::new(test_config());
    assert_eq!(
        send_through_relay(&mut relay, true, true, bundle("A")),
        Err("Solar conjunction — no DSN contact possible".to_string())
    );
    assert_eq!(
        send_through_relay(&mut relay, false, false, bundle("A")),
        Err("Mars not visible — waiting for next pass".to_string())
    );
    assert_eq!(relay.stats().scheduled, 0);
    assert_eq!(send_through_relay(&mut relay, false, true, bundle("A")), Ok("A".to_string()));
    assert_eq!(relay.stats().scheduled, 1);
    assert_eq!(relay.stats().active_complex, Some("DSS-14".to_string()));

    let mut blind = DsnRelay::new(DsnConfig {
        complexes: vec![complex("DSS-43", "Canberra", false)],
        frequency_khz: 8_400_000,
        transmit_power_centi_dbm: 4300,
        receive_sensitivity_centi_dbm: -16000,
    });
    assert_eq!(
        send_through_relay(&mut blind, false, true, bundle("B")),
        Err("No DSN complex available — waiting for Mars visibility".to_string())
    );
}

#[test]
fn dsn_days_from_j2000_truncate() {
    let j2000: i64 = 946_728_000_000;
    assert_eq!(days_since_j2000(j2000), 0);
    assert_eq!(days_since_j2000(j2000 + 86_400_000 - 1), 0);
    assert_eq!(days_since_j2000(j2000 + 86_400_000), 1);
    assert_eq!(days_since_j2000(j2000 - 1), 0);
    assert_eq!(days_since_j2000(j2000 - 86_400_000), -1);
    // 2024-01-01T00:00:00Z is 8765.5 days after J2000.
    assert_eq!(days_since_j2000(1_704_067_200_000), 8765);
}

#[test]
fn test_bundle_routing() {
    let mut relay = DsnRelay::new(test_config());
    let bundle = DsnBundle {
        id: "TEST-DSN-001".into(),
        payload: vec![0xAA, 0xBB, 0xCC],
        destination_eid: "dtn://mars/rover-01".into(),
        priority: 3,
        modulation: DsnModulation::PcmPskPm,
        scheduled_time: None,
        status: DsnBundleStatus::Scheduled,
    };
    // Outside a conjunction, with Mars visible.
    let result = send_through_relay(&mut relay, false, true, bundle);
    assert!(result.is_ok());
}
