use spaceone::health::{
    Anomaly, AnomalySeverity, ComponentId, ComponentType, HealthError, HealthManager, HealthMetric, HealthStatus,
    SafeModeLevel,
};
use spaceone::recovery::{AutoRecoveryEngine, RecoveryStrategy};

fn metric(component: &str, name: &str, value_milli: i64, warning: i64, critical: i64) -> HealthMetric {
    HealthMetric {
        component_id: ComponentId(component.into()),
        metric_name: name.into(),
        value_milli,
        unit: "u".into(),
        threshold_warning_milli: warning,
        threshold_critical_milli: critical,
        timestamp: 0,
    }
}

#[test]
fn test_register_and_monitor() {
    let mut manager = HealthManager::new();
    manager.register_component(ComponentId("processor-01".into()), ComponentType::Processor);
    manager.update_metric(metric("processor-01", "cpu_temperature", 45_000, 50_000, 70_000)).unwrap();
    let health = manager.get_health(&ComponentId("processor-01".into())).unwrap();
    assert_eq!(health.status, HealthStatus::Nominal);
}

#[test]
fn test_anomaly_detection() {
    let mut manager = HealthManager::new();
    manager.register_component(ComponentId("power-01".into()), ComponentType::Power);
    manager.update_metric(metric("power-01", "voltage_drop", 85_000, 50_000, 80_000)).unwrap();
    let anomalies = manager.active_anomalies();
    assert_eq!(anomalies.len(), 1);
    assert_eq!(anomalies[0].severity, AnomalySeverity::Critical);
}

#[test]
fn test_system_health_report() {
    let mut manager = HealthManager::new();
    manager.register_component(ComponentId("comp-1".into()), ComponentType::Processor);
    manager.register_component(ComponentId("comp-2".into()), ComponentType::Memory);
    let report = manager.system_health();
    assert_eq!(report.total_components, 2);
    assert_eq!(report.nominal_count, 2);
    assert_eq!(report.health_basis_points, 10000);
}

#[test]
fn test_safe_mode_activation() {
    let mut manager = HealthManager::new();
    manager.activate_safe_mode(SafeModeLevel::SafeMinimum, "Test");
    let report = manager.system_health();
    assert_eq!(report.safe_mode_level, SafeModeLevel::SafeMinimum);
}

#[test]
fn anomaly_values_round_to_hundredths() {
    let mut manager = HealthManager::new();
    manager.register_component_at(ComponentId("fan".into()), ComponentType::Thermal, 0);
    manager.update_metric_at(metric("fan", "rpm", 60_505, 50_004, 80_000), 0).unwrap();
    let log = manager.active_anomalies();
    assert_eq!(log[0].description, "Metric 'rpm' warning threshold: 60.51 > 50.00");
}

#[test]
fn anomaly_texts_and_warning_path() {
    let mut manager = HealthManager::new();
    manager.register_component_at(ComponentId("pump".into()), ComponentType::WaterRecycling, 0);
    manager.update_metric_at(metric("pump", "pressure", 60_500, 50_000, 80_000), 12_345).unwrap();
    let log = manager.active_anomalies();
    assert_eq!(log.len(), 1);
    assert_eq!(log[0].id, "anomaly-degraded-pump-12");
    assert_eq!(log[0].severity, AnomalySeverity::Warning);
    assert_eq!(log[0].description, "Metric 'pressure' warning threshold: 60.50 > 50.00");
    assert_eq!(log[0].recommended_action, "Monitor pump closely");
    // Still degraded: no second warning.
    manager.update_metric_at(metric("pump", "pressure", 61_000, 50_000, 80_000), 13_000).unwrap();
    assert_eq!(manager.active_anomalies().len(), 1);
    // Critical crossing.
    manager.update_metric_at(metric("pump", "pressure", 90_000, 50_000, 80_000), -1).unwrap();
    let log = manager.active_anomalies();
    assert_eq!(log.len(), 2);
    assert_eq!(log[1].id, "anomaly-pump--1");
    assert_eq!(log[1].description, "Metric 'pressure' exceeded threshold: 90.00 > 80.00 (critical)");
    let h = manager.get_health(&ComponentId("pump".into())).unwrap();
    assert_eq!(h.status, HealthStatus::Impaired);
    assert_eq!(h.failure_count, 1);
    assert_eq!(h.metrics.len(), 3);
    assert_eq!(h.last_check, -1);
}

#[test]
fn unknown_component_is_an_error() {
    let mut manager = HealthManager::new();
    let r = manager.update_metric(metric("ghost", "x", 0, 1, 2));
    match r {
        Err(HealthError::ComponentNotFound(id)) => assert_eq!(id.0, "ghost"),
        _ => panic!("expected ComponentNotFound"),
    }
    let e = manager.get_health(&ComponentId("ghost".into())).unwrap_err();
    assert_eq!(e.message(), "Composant non trouvé: ghost");
}

#[test]
fn metric_history_keeps_last_hundred() {
    let mut manager = HealthManager::new();
    manager.register_component_at(ComponentId("c".into()), ComponentType::Memory, 0);
    for i in 0..150 {
        manager.update_metric_at(metric("c", "m", i, 1_000_000, 2_000_000), i).unwrap();
    }
    let h = manager.get_health(&ComponentId("c".into())).unwrap();
    assert_eq!(h.metrics.len(), 100);
    assert_eq!(h.metrics[0].value_milli, 50);
    assert_eq!(h.metrics[99].value_milli, 149);
}

#[test]
fn safe_minimum_degrades_nominal_components() {
    let mut manager = HealthManager::new();
    manager.register_component_at(ComponentId("a".into()), ComponentType::Camera, 0);
    manager.activate_safe_mode(SafeModeLevel::Restricted, "partial");
    assert_eq!(manager.get_health(&ComponentId("a".into())).unwrap().status, HealthStatus::Nominal);
    manager.activate_safe_mode(SafeModeLevel::EmergencyShutdown, "now");
    assert_eq!(manager.get_health(&ComponentId("a".into())).unwrap().status, HealthStatus::Degraded);
    let report = manager.system_health();
    assert_eq!(report.degraded_count, 1);
    assert_eq!(report.health_basis_points, 0);
}

#[test]
fn old_anomalies_are_cleaned() {
    let mut manager = HealthManager::new();
    manager.register_component_at(ComponentId("p".into()), ComponentType::Power, 0);
    manager.update_metric_at(metric("p", "v", 99_000, 1, 2), 0).unwrap();
    manager.update_metric_at(metric("p", "v", 99_000, 1, 2), 90_000_000).unwrap();
    assert_eq!(manager.active_anomalies().len(), 2);
    let removed = manager.cleanup_old_anomalies_at(90_000_000);
    assert_eq!(removed, 1);
    assert_eq!(manager.active_anomalies().len(), 1);
}

#[test]
fn registering_again_resets_the_record() {
    let mut manager = HealthManager::new();
    manager.register_component_at(ComponentId("x".into()), ComponentType::Drill, 1);
    manager.update_metric_at(metric("x", "m", 5, 1, 2), 2).unwrap();
    manager.register_component_at(ComponentId("x".into()), ComponentType::Drill, 3);
    let h = manager.get_health(&ComponentId("x".into())).unwrap();
    assert_eq!(h.status, HealthStatus::Nominal);
    assert_eq!(h.failure_count, 0);
    assert!(h.metrics.is_empty());
    assert_eq!(manager.system_health().total_components, 1);
}

#[test]
fn metric_evaluation_thresholds() {
    assert_eq!(metric("c", "m", 50, 50, 80).evaluate(), HealthStatus::Nominal);
    assert_eq!(metric("c", "m", 51, 50, 80).evaluate(), HealthStatus::Degraded);
    assert_eq!(metric("c", "m", 80, 50, 80).evaluate(), HealthStatus::Degraded);
    assert_eq!(metric("c", "m", 81, 50, 80).evaluate(), HealthStatus::Impaired);
}

#[test]
fn test_recovery_attempt() {
    let mut engine = AutoRecoveryEngine::new();
    let comp_id = ComponentId("processor-01".into());
    let result = engine.attempt_recovery(&comp_id, &ComponentType::Processor);
    assert!(result.success);
    assert_eq!(result.new_status, HealthStatus::Nominal);
    assert_eq!(result.attempt, 1);
}

#[test]
fn test_escalation() {
    let engine = AutoRecoveryEngine::new();
    let comp_id = ComponentId("test".into());
    let next = engine.escalate_strategy(&comp_id, &RecoveryStrategy::SoftRestart);
    assert_eq!(next, RecoveryStrategy::HardRestart);
    let next = engine.escalate_strategy(&comp_id, &RecoveryStrategy::EnterSafeMode);
    assert_eq!(next, RecoveryStrategy::EnterSafeMode);
}

#[test]
fn test_recovery_history() {
    let mut engine = AutoRecoveryEngine::new();
    let comp_id = ComponentId("memory-01".into());
    for _ in 0..3 {
        engine.attempt_recovery(&comp_id, &ComponentType::Memory);
    }
    let hist = engine.get_history(&comp_id).unwrap();
    assert_eq!(hist.total_attempts, 3);
    assert_eq!(hist.successful, 3);
}

#[test]
fn recovery_strategies_by_component_kind() {
    let mut engine = AutoRecoveryEngine::new();
    let r = engine.attempt_recovery_at(&ComponentId("t".into()), &ComponentType::Thruster, 42);
    assert_eq!(r.strategy, RecoveryStrategy::Isolate);
    assert_eq!(r.new_status, HealthStatus::Impaired);
    assert_eq!(r.detail, "Component isolated, resources reallocated");
    let r = engine.attempt_recovery_at(&ComponentId("l".into()), &ComponentType::LifeSupport, 43);
    assert_eq!(r.strategy, RecoveryStrategy::EnterSafeMode);
    assert_eq!(r.new_status, HealthStatus::Degraded);
    let r = engine.attempt_recovery_at(&ComponentId("w".into()), &ComponentType::WeatherStation, 44);
    assert_eq!(r.strategy, RecoveryStrategy::SoftRestart);
    let h = engine.get_history(&ComponentId("t".into())).unwrap();
    assert_eq!(h.last_recovery_at, Some(42));
    assert_eq!(h.last_strategy, Some(RecoveryStrategy::Isolate));
    let stats = engine.statistics();
    assert_eq!(stats.total_components_recovered, 3);
    assert_eq!(stats.total_attempts, 3);
    assert_eq!(stats.success_rate_permille, 1000);
}

#[test]
fn escalation_reaches_safe_mode_in_four_steps() {
    let engine = AutoRecoveryEngine::new();
    let id = ComponentId("x".into());
    let mut s = RecoveryStrategy::SoftRestart;
    for _ in 0..4 {
        s = engine.escalate_strategy(&id, &s);
    }
    assert_eq!(s, RecoveryStrategy::EnterSafeMode);
}

#[test]
fn empty_engine_statistics() {
    let engine = AutoRecoveryEngine::new();
    let stats = engine.statistics();
    assert_eq!(stats.total_attempts, 0);
    assert_eq!(stats.success_rate_permille, 1000);
    assert!(engine.get_history(&ComponentId("none".into())).is_none());
}

#[allow(dead_code)]
fn anomaly_type_is_public(a: &Anomaly) -> &str {
    &a.id
}
