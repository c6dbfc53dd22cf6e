use spaceone::hal::{
    leon_watchdog_armed, model_runs_lockstep, parse_sysfs_i64, parse_sysfs_u64, throttling_due,
    within_mars_operational_range,
};
use spaceone::text::parse_i64;

#[test]
fn sysfs_values_are_trimmed_and_parsed() {
    assert_eq!(parse_sysfs_u64("1500000\n"), Some(1_500_000));
    assert_eq!(parse_sysfs_u64("  42 "), Some(42));
    assert_eq!(parse_sysfs_u64("+7"), Some(7));
    assert_eq!(parse_sysfs_u64("-7"), None);
    assert_eq!(parse_sysfs_u64(""), None);
    assert_eq!(parse_sysfs_u64("18446744073709551616"), None);
    assert_eq!(parse_sysfs_i64("-12500\n"), Some(-12_500));
    assert_eq!(parse_sysfs_i64("48000"), Some(48_000));
    assert_eq!(parse_sysfs_i64("4 8"), None);
}

#[test]
fn signed_parsing_matches_from_str() {
    for text in ["0", "-0", "+5", "-5", "-", "+", "-+5", "+-5", "9223372036854775807", "9223372036854775808",
        "-9223372036854775808", "-9223372036854775809", "12a", ""]
    {
        let cs: Vec<char> = text.chars().collect();
        assert_eq!(parse_i64(&cs), text.parse::<i64>().ok(), "{}", text);
    }
}

#[test]
fn mars_operating_range_bounds() {
    assert!(within_mars_operational_range(-40_000));
    assert!(within_mars_operational_range(50_000));
    assert!(within_mars_operational_range(21_500));
    assert!(!within_mars_operational_range(-40_001));
    assert!(!within_mars_operational_range(50_001));
}

#[test]
fn throttling_only_above_limit() {
    assert!(throttling_due(85_001, 85_000));
    assert!(!throttling_due(85_000, 85_000));
    assert!(!throttling_due(-1, 0));
}

#[test]
fn lockstep_boards_by_model() {
    assert!(model_runs_lockstep("NXP i.MX8MQ EVK"));
    assert!(model_runs_lockstep("Raspberry Pi 4 Model B Rev 1.4"));
    assert!(!model_runs_lockstep("Generic ARM board"));
}

#[test]
fn leon_watchdog_arm_bit() {
    assert!(leon_watchdog_armed(1));
    assert!(leon_watchdog_armed(0xFFFF_FFFF));
    assert!(!leon_watchdog_armed(0));
    assert!(!leon_watchdog_armed(2));
}
