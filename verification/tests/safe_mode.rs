use spaceone::bridge::AqmServiceState;
use spaceone::supervisor::{evaluate_safe_mode_trigger, AqmHealthReport, SafeModeDecision};

fn service(name: &str, state: &str) -> AqmServiceState {
    AqmServiceState {
        service: name.to_string(),
        active_state: state.to_string(),
        sub_state: "running".to_string(),
        restarts: 0,
    }
}

fn report(score: u32, state: &str, services: Vec<AqmServiceState>) -> AqmHealthReport {
    AqmHealthReport { score_per_10k: score, system_state: state.to_string(), services }
}

#[test]
fn critical_without_dtn_daemon_names_it() {
    let r = report(
        2000,
        "critical",
        vec![service("aqm-recovery.service", "failed"), service("aqm-dtnd.service", "inactive")],
    );
    assert_eq!(
        evaluate_safe_mode_trigger(&r),
        SafeModeDecision::Immediate { reason: "aqm-dtnd unavailable — communication lost".to_string() }
    );
}

#[test]
fn critical_without_recovery_names_it() {
    let r = report(
        2000,
        "critical",
        vec![service("aqm-dtnd.service", "active"), service("aqm-recovery.service", "failed")],
    );
    assert_eq!(
        evaluate_safe_mode_trigger(&r),
        SafeModeDecision::Immediate { reason: "aqm-recovery unavailable — no rollback capability".to_string() }
    );
}

#[test]
fn critical_counts_services_down() {
    let r = report(
        9000,
        "critical",
        vec![service("a.service", "failed"), service("b.service", "active"), service("c.service", "activating")],
    );
    assert_eq!(
        evaluate_safe_mode_trigger(&r),
        SafeModeDecision::Immediate { reason: "2 critical services down".to_string() }
    );
    let empty = report(9000, "critical", vec![]);
    assert_eq!(
        evaluate_safe_mode_trigger(&empty),
        SafeModeDecision::Immediate { reason: "0 critical services down".to_string() }
    );
}

#[test]
fn degraded_below_threshold_warns() {
    let r = report(5500, "degraded", vec![]);
    assert_eq!(
        evaluate_safe_mode_trigger(&r),
        SafeModeDecision::Warning {
            reason: "System score 0.55 below threshold 0.6".to_string(),
            threshold_per_10k: 6000,
        }
    );
    let low = report(49, "degraded", vec![]);
    assert_eq!(
        evaluate_safe_mode_trigger(&low),
        SafeModeDecision::Warning {
            reason: "System score 0.00 below threshold 0.6".to_string(),
            threshold_per_10k: 6000,
        }
    );
    let near = report(5996, "degraded", vec![]);
    assert_eq!(
        evaluate_safe_mode_trigger(&near),
        SafeModeDecision::Warning {
            reason: "System score 0.60 below threshold 0.6".to_string(),
            threshold_per_10k: 6000,
        }
    );
}

#[test]
fn degraded_at_threshold_and_nominal_are_nominal() {
    assert_eq!(evaluate_safe_mode_trigger(&report(6000, "degraded", vec![])), SafeModeDecision::Nominal);
    assert_eq!(evaluate_safe_mode_trigger(&report(0, "nominal", vec![])), SafeModeDecision::Nominal);
}

#[test]
fn other_states_are_unknown() {
    assert_eq!(
        evaluate_safe_mode_trigger(&report(10000, "booting", vec![])),
        SafeModeDecision::Unknown("booting".to_string())
    );
}
