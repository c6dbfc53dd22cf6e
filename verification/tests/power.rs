use spaceone::power::{PowerConfig, PowerManager, PowerMode};

#[test]
fn test_power_gating() {
    let mut pm = PowerManager::new(PowerConfig::default());
    pm.register_component("camera".into(), 50_000);
    pm.register_component("processor_critical".into(), 100_000);

    pm.gate_component("camera").unwrap();
    assert_eq!(pm.get_total_power(), 100_000);

    pm.ungate_component("camera").unwrap();
    assert_eq!(pm.get_total_power(), 150_000);
}

#[test]
fn test_sel_detection() {
    let mut pm = PowerManager::new(PowerConfig::default());
    let sel = pm.detect_sel(100_000);
    assert!(sel);
    assert_eq!(pm.get_sel_count(), 1);
}

#[test]
fn test_sleep_mode() {
    let mut pm = PowerManager::new(PowerConfig::default());
    pm.register_component("processor".into(), 100_000);
    pm.register_component("camera".into(), 50_000);
    pm.register_component("watchdog_timer".into(), 5_000);

    pm.set_mode(PowerMode::Sleep);
    assert_eq!(pm.get_total_power(), 5_000);
}

#[test]
fn power_default_config() {
    let c = PowerConfig::default();
    assert_eq!(c.max_power_budget_uw, 200_000);
    assert_eq!(c.sel_detection_threshold_ua, 50_000);
    assert_eq!(c.auto_gate_threshold_pct, 80);
    assert_eq!(c.wake_sources, vec!["watchdog".to_string(), "timer".to_string(), "external_interrupt".to_string()]);
}

#[test]
fn power_reduced_keeps_critical_and_life_support() {
    let mut pm = PowerManager::new(PowerConfig::default());
    pm.register_component("camera".into(), 50_000);
    pm.register_component("life_support".into(), 300_000);
    pm.register_component("processor_critical".into(), 100_000);
    pm.set_mode(PowerMode::Reduced);
    assert_eq!(*pm.get_mode(), PowerMode::Reduced);
    assert_eq!(pm.get_total_power(), 400_000);
    pm.set_mode(PowerMode::FullPower);
    assert_eq!(pm.get_total_power(), 450_000);
}

#[test]
fn power_latch_up_threshold_is_strict_and_gating_idempotent() {
    let mut pm = PowerManager::new(PowerConfig::default());
    pm.register_component("camera".into(), 50_000);
    assert!(!pm.detect_sel(50_000));
    assert_eq!(pm.get_sel_count(), 0);
    assert_eq!(*pm.get_mode(), PowerMode::FullPower);
    assert!(pm.detect_sel(50_001));
    assert_eq!(pm.get_total_power(), 0);
    // Gating an already gated or unknown component changes nothing.
    pm.gate_component("camera").unwrap();
    pm.gate_component("heater").unwrap();
    assert_eq!(pm.get_total_power(), 0);
    pm.ungate_component("camera").unwrap();
    pm.ungate_component("camera").unwrap();
    assert_eq!(pm.get_total_power(), 50_000);
}

#[test]
fn power_deep_sleep_keeps_memory() {
    let mut pm = PowerManager::new(PowerConfig::default());
    pm.register_component("retained_memory".into(), 2_000);
    pm.register_component("radio".into(), 80_000);
    pm.set_mode(PowerMode::DeepSleep);
    assert_eq!(pm.get_total_power(), 2_000);
}
