use spaceone::crew_decision::{CrewDecisionSupport, RiskLevel, TimePressure};
use spaceone::diagnostics::{DiagnosisFinding, DiagnosticResponse, DistributedDiagnostics};
use spaceone::health::{Anomaly, AnomalySeverity, ComponentId, HealthStatus, SafeModeLevel};

fn anomaly(id: &str, component: &str, severity: AnomalySeverity, description: &str, at: i64) -> Anomaly {
    Anomaly {
        id: id.into(),
        component: ComponentId(component.into()),
        severity,
        description: description.into(),
        detected_at: at,
        related_metrics: vec![],
        recommended_action: "Check".into(),
    }
}

#[test]
fn test_generate_recommendation() {
    let support = CrewDecisionSupport::new();
    let anomalies = vec![anomaly("a1", "power-01", AnomalySeverity::Critical, "Voltage drop detected on primary bus", 0)];
    let recs = support.generate_recommendation(&anomalies, &SafeModeLevel::Nominal);
    assert_eq!(recs.len(), 1);
    assert_eq!(recs[0].severity, AnomalySeverity::Critical);
    assert!(!recs[0].options.is_empty());
    assert!(recs[0].time_pressure == TimePressure::Normal);
}

#[test]
fn test_decision_timeliness() {
    let support = CrewDecisionSupport::new();
    let detection: i64 = 1_700_000_000_000;
    let decision_fast = detection + 10_000;
    let decision_slow = detection + 30 * 60_000;
    assert!(support.evaluate_decision_timeliness(decision_fast, detection, &AnomalySeverity::Emergency));
    assert!(!support.evaluate_decision_timeliness(decision_slow, detection, &AnomalySeverity::Emergency));
}

#[test]
fn test_thermal_recommendation() {
    let support = CrewDecisionSupport::new();
    let anomalies = vec![anomaly(
        "thermal-1",
        "thermal-01",
        AnomalySeverity::Warning,
        "Temperature anomaly on thermal control system",
        0,
    )];
    let recs = support.generate_recommendation(&anomalies, &SafeModeLevel::Nominal);
    assert_eq!(recs.len(), 1);
    assert_eq!(recs[0].options.len(), 2);
    assert_eq!(recs[0].time_pressure, TimePressure::Extended);
}

#[test]
fn recommendations_group_by_situation() {
    let support = CrewDecisionSupport::new();
    let anomalies = vec![
        anomaly("a", "cam", AnomalySeverity::Info, "Lens  dusty", 0),
        anomaly("b", "bat", AnomalySeverity::Warning, "  BATTERY low", 0),
        anomaly("c", "rtg", AnomalySeverity::Emergency, "power lost", 0),
        anomaly("d", "hab", AnomalySeverity::Critical, "", 0),
    ];
    let recs = support.generate_recommendation_at(&anomalies, &SafeModeLevel::Restricted, 61_999);
    assert_eq!(recs.len(), 2);
    assert_eq!(recs[0].id, "rec-power_loss-61");
    assert_eq!(recs[0].title, "Anomalie power_loss: 2 système(s) affecté(s)");
    assert_eq!(recs[0].severity, AnomalySeverity::Emergency);
    assert_eq!(recs[0].time_pressure, TimePressure::Immediate);
    assert_eq!(recs[0].situation_summary, "  BATTERY low; power lost");
    assert_eq!(recs[0].affected_systems, vec![ComponentId("bat".into()), ComponentId("rtg".into())]);
    assert_eq!(recs[0].options.len(), 3);
    assert_eq!(recs[0].recommended_option, "power_reduce_load");
    assert_eq!(recs[0].options[2].risk_level, RiskLevel::High);
    assert_eq!(recs[1].id, "rec-general-61");
    assert_eq!(recs[1].options.len(), 2);
    assert_eq!(recs[1].recommended_option, "general_monitor");
    assert_eq!(recs[1].severity, AnomalySeverity::Critical);
    assert_eq!(recs[1].situation_summary, "Lens  dusty; ");
    assert_eq!(recs[1].generated_at, 61_999);
}

#[test]
fn no_anomaly_no_recommendation() {
    let support = CrewDecisionSupport::new();
    assert!(support.generate_recommendation(&[], &SafeModeLevel::Nominal).is_empty());
}

#[test]
fn timeliness_limits_by_severity() {
    let support = CrewDecisionSupport::new();
    assert!(support.evaluate_decision_timeliness(300_000, 0, &AnomalySeverity::Critical));
    assert!(!support.evaluate_decision_timeliness(300_001, 0, &AnomalySeverity::Critical));
    assert!(support.evaluate_decision_timeliness(900_000, 0, &AnomalySeverity::Warning));
    assert!(support.evaluate_decision_timeliness(3_600_000, 0, &AnomalySeverity::Info));
    assert!(!support.evaluate_decision_timeliness(3_600_001, 0, &AnomalySeverity::Info));
}

fn finding(node: &str, component: &str, status: HealthStatus) -> DiagnosisFinding {
    DiagnosisFinding {
        node_id: node.into(),
        component: ComponentId(component.into()),
        status,
        confidence_permille: 900,
        detail: "d".into(),
    }
}

#[test]
fn test_distributed_diagnosis() {
    let engine = DistributedDiagnostics::new("rover-01".into());
    let local = vec![finding("rover-01", "processor", HealthStatus::Nominal)];
    let peers = vec![DiagnosticResponse {
        query_id: "q1".into(),
        from_node: "habitat-01".into(),
        timestamp: 0,
        findings: vec![finding("habitat-01", "power", HealthStatus::Degraded)],
        response_time_ms: 1200,
    }];
    let diagnosis = engine.run_distributed_diagnosis(&local, &peers);
    assert_eq!(diagnosis.participating_nodes.len(), 2);
    assert_eq!(diagnosis.findings.len(), 2);
    assert!(diagnosis.overall_health_basis_points < 10000);
}

#[test]
fn diagnosis_recommendations() {
    let engine = DistributedDiagnostics::new("rover-01".into());
    let local = vec![finding("rover-01", "processor", HealthStatus::Nominal)];
    let peers = vec![
        DiagnosticResponse {
            query_id: "q1".into(),
            from_node: "habitat-01".into(),
            timestamp: 0,
            findings: vec![finding("habitat-01", "power", HealthStatus::Degraded)],
            response_time_ms: 1,
        },
        DiagnosticResponse {
            query_id: "q2".into(),
            from_node: "rover-01".into(),
            timestamp: 0,
            findings: vec![],
            response_time_ms: 1,
        },
    ];
    let d = engine.run_distributed_diagnosis_at(&local, &peers, 7, "20300101120000");
    assert_eq!(d.diagnosis_id, "diag-rover-01-20300101120000");
    assert_eq!(d.participating_nodes, vec!["rover-01".to_string(), "habitat-01".to_string()]);
    assert_eq!(d.overall_health_basis_points, 5000);
    assert_eq!(
        d.recommendations,
        vec![
            "HIGH: Consider entering safe mode - multiple components degraded".to_string(),
            "Component power on habitat-01 is Degraded - recommend maintenance".to_string(),
            "CRITICAL: System health below 70% - immediate action required".to_string(),
        ]
    );
    assert_eq!(d.timestamp, 7);
    assert!(d.correlated_anomalies.is_empty());
}

#[test]
fn empty_diagnosis_is_healthy() {
    let engine = DistributedDiagnostics::new("n".into());
    let d = engine.run_distributed_diagnosis(&[], &[]);
    assert_eq!(d.overall_health_basis_points, 10000);
    assert!(d.recommendations.is_empty());
    assert_eq!(d.participating_nodes, vec!["n".to_string()]);
}

#[test]
fn test_correlate_anomalies() {
    let engine = DistributedDiagnostics::new("coordinator".into());
    let now: i64 = 1_700_000_000_000;
    let by_node = vec![
        ("rover-01".to_string(), vec![anomaly("a1", "power", AnomalySeverity::Warning, "Voltage drop", now)]),
        ("habitat-01".to_string(), vec![anomaly("a2", "power", AnomalySeverity::Warning, "Voltage drop", now)]),
    ];
    let correlated = engine.correlate_anomalies(&by_node);
    assert_eq!(correlated.len(), 1);
    assert_eq!(correlated[0].affected_nodes.len(), 2);
}

#[test]
fn correlation_window_and_texts() {
    let engine = DistributedDiagnostics::new("c".into());
    let by_node = vec![
        (
            "n1".to_string(),
            vec![
                anomaly("a", "power", AnomalySeverity::Warning, "x", 1_000),
                anomaly("b", "comms", AnomalySeverity::Info, "y", 0),
            ],
        ),
        (
            "n2".to_string(),
            vec![
                anomaly("c", "power", AnomalySeverity::Critical, "x", 121_999),
                anomaly("d", "comms", AnomalySeverity::Info, "y", 300_001),
            ],
        ),
        ("n3".to_string(), vec![anomaly("e", "drill", AnomalySeverity::Emergency, "z", 0)]),
    ];
    let c = engine.correlate_anomalies(&by_node);
    assert_eq!(c.len(), 1);
    assert_eq!(c[0].component_type, "power");
    assert_eq!(c[0].affected_nodes, vec!["n1".to_string(), "n2".to_string()]);
    assert_eq!(c[0].severity, AnomalySeverity::Critical);
    assert_eq!(c[0].time_window_secs, 120);
    assert_eq!(c[0].conclusion, "Correlated power anomalies across 2 nodes within 120s window");
}

#[test]
fn heartbeat_statuses() {
    let engine = DistributedDiagnostics::new("me".into());
    let f = engine.heartbeat_diagnosis(8, 0);
    assert_eq!(f.status, HealthStatus::Nominal);
    assert_eq!(f.confidence_permille, 1000);
    assert_eq!(f.detail, "Heartbeat: 8/8 peers responded (0 timeouts)");
    let f = engine.heartbeat_diagnosis(8, 2);
    assert_eq!(f.status, HealthStatus::Degraded);
    assert_eq!(f.confidence_permille, 750);
    let f = engine.heartbeat_diagnosis(8, 3);
    assert_eq!(f.status, HealthStatus::Impaired);
    assert_eq!(f.component.0, "network_connectivity");
    assert_eq!(f.node_id, "me");
    assert_eq!(engine.heartbeat_diagnosis(0, 0).confidence_permille, 1000);
}
