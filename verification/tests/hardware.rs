use spaceone::hal::{ArmLockstep, lockstep_vote, TmrError, decode_tmr_status, TmrStatus};
use spaceone::memory_controller::{EccMemoryController, DmVerity};
use spaceone::watchdog::{HardwareWatchdog, WatchdogConfig, WatchdogState};

#[test]
fn test_tmr_computation() {
    let result = ArmLockstep::tmr_compute(|| 42);
    assert_eq!(result.unwrap(), 42);
}

#[test]
fn test_tmr_mismatch_detection() {
    let counter = std::sync::atomic::AtomicU32::new(0);
    let result = ArmLockstep::tmr_compute(|| {
        let val = counter.fetch_add(1, std::sync::atomic::Ordering::SeqCst);
        if val == 1 { 100 } else { 42 }
    });
    assert!(result.is_err());
}

#[test]
fn lockstep_detects_any_divergence() {
    assert_eq!(lockstep_vote(7, 7, 7), Ok(7));
    assert_eq!(lockstep_vote(7, 7, 9), Err(TmrError::TripleMismatch));
    assert_eq!(lockstep_vote(9, 7, 7), Err(TmrError::TripleMismatch));
    assert_eq!(lockstep_vote(7, 9, 7), Err(TmrError::TripleMismatch));
    assert_eq!(lockstep_vote(1, 2, 3), Err(TmrError::TripleMismatch));
}

#[test]
fn tmr_status_fields() {
    let s: TmrStatus = decode_tmr_status(0x0000_1235);
    assert_eq!(s.divergences_detected, 0x23);
    assert_eq!(s.last_divergence_address, 0x1235);
    assert!(s.is_active);
}

#[test]
fn test_ecc_no_error() {
    let mut controller = EccMemoryController::new(256, 4096);
    let data = vec![0x42u8; 4096];
    let _ecc = controller.compute_ecc(&data);

    let result = controller.check_and_correct(0, &data);
    assert!(result.is_ok());
}

#[test]
fn ecc_is_parity_and_rotated_parity() {
    let controller = EccMemoryController::new(1, 4096);
    assert_eq!(controller.compute_ecc(&[0x01, 0x02, 0x04]), vec![0x07, 0x0E]);
    assert_eq!(controller.compute_ecc(&[0xFF, 0xFF]), vec![0x00, 0x00]);
    assert_eq!(controller.compute_ecc(&[0x80]), vec![0x80, 0x01]);
}

#[test]
fn check_and_correct_returns_the_data() {
    let mut controller = EccMemoryController::new(1, 16);
    let data = vec![1u8, 2, 3];
    assert_eq!(controller.check_and_correct(3, &data).unwrap(), data);
}

#[test]
fn test_dm_verity() {
    let mut verity = DmVerity::new();
    let data = b"hello mars";
    verity.hash_page(0, data);
    assert!(verity.verify_page(0, data));
    assert!(!verity.verify_page(0, b"modified"));
}

#[test]
fn dm_verity_unknown_page_fails() {
    let verity = DmVerity::new();
    assert!(!verity.verify_page(7, b"anything"));
}

#[test]
fn test_watchdog_normal_operation() {
    let mut wd = HardwareWatchdog::new(WatchdogConfig::default());
    wd.start();
    assert_eq!(*wd.get_state(), WatchdogState::Running);

    for _i in 0..5 {
        wd.feed();
        wd.tick(1000);
    }

    let stats = wd.get_stats();
    assert_eq!(stats.total_resets, 0);
    assert_eq!(stats.missed_feeds, 0);
}

#[test]
fn test_watchdog_trigger_reset() {
    let config = WatchdogConfig {
        timeout_ms: 2000,
        max_missed_feeds: 2,
        auto_reset: true,
        feed_interval_ms: 1000,
    };

    let mut wd = HardwareWatchdog::new(config);
    wd.start();
    wd.feed();

    for _ in 0..10 {
        let triggered = wd.tick(1000);
        if triggered {
            break;
        }
    }

    let stats = wd.get_stats();
    assert_eq!(stats.total_resets, 1);
}

#[test]
fn watchdog_without_auto_reset_expires() {
    let config = WatchdogConfig { timeout_ms: 1000, max_missed_feeds: 1, auto_reset: false, feed_interval_ms: 500 };
    let mut wd = HardwareWatchdog::new(config);
    wd.start();
    assert!(!wd.tick(1000));
    assert!(wd.tick(1));
    assert_eq!(*wd.get_state(), WatchdogState::Expired);
    assert_eq!(wd.get_stats().total_resets, 0);
}

#[test]
fn disabled_watchdog_never_fires() {
    let mut wd = HardwareWatchdog::new(WatchdogConfig::default());
    wd.start();
    wd.disable();
    assert!(!wd.tick(1_000_000));
    assert_eq!(*wd.get_state(), WatchdogState::Disabled);
}

#[test]
fn checks_and_scrubs_keep_totals_and_count_scrubs() {
    let mut c = EccMemoryController::new(4, 4096);
    let total = c.get_stats().total_pages;
    assert_eq!(total, 1024);
    let data = vec![7u8; 64];
    let mut scrubs = 0;
    for i in 0..10u64 {
        if i % 3 == 0 {
            c.scrub_all();
            scrubs += 1;
        } else {
            assert_eq!(c.check_and_correct(i, &data).unwrap(), data);
        }
        let st = c.get_stats();
        assert_eq!(st.total_pages, total);
        assert!(st.clean_pages <= st.total_pages);
        assert_eq!(st.scrub_count, scrubs);
    }
}
