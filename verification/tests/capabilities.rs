use spaceone::access_control::{AccessControlManager, Role, SessionId};
use spaceone::security::SecurityError;

#[test]
fn test_authenticate_and_check() {
    let mut acm = AccessControlManager::new();
    let session_id = acm.authenticate("commander_shepard".into(), Role::MissionCommander, "rover-01".into()).unwrap();
    assert!(acm.check_permission(&session_id, "command", "rover.nav").unwrap());
    assert!(acm.check_permission(&session_id, "read", "science_data.images").unwrap());
}

#[test]
fn test_scientist_limited_access() {
    let mut acm = AccessControlManager::new();
    let session_id = acm.authenticate("dr_watson".into(), Role::Scientist, "science_lab".into()).unwrap();
    assert!(acm.check_permission(&session_id, "read", "science_data.samples").unwrap());
    assert!(!acm.check_permission(&session_id, "command", "rover.nav").unwrap());
}

#[test]
fn test_expired_session() {
    let mut acm = AccessControlManager::new();
    let now: i64 = 1_700_000_000_000;
    let session_id = acm
        .authenticate_with("test".into(), Role::Operator, "test-node".into(), "s-1".into(), now)
        .unwrap();
    // One hour after the session's end.
    let later = now + 3_600_000 + 3_600_000;
    assert!(acm.check_permission_at(&session_id, "read", "status", later).is_err());
}

#[test]
fn test_session_cleanup() {
    let mut acm = AccessControlManager::new();
    let now: i64 = 1_700_000_000_000;
    for i in 0..5 {
        acm.authenticate_with(format!("user-{}", i), Role::Observer, "test".into(), format!("s-{}", i), now).unwrap();
    }
    assert_eq!(acm.active_sessions(), 5);
    let cleaned = acm.cleanup_expired_sessions_at(now + 3_600_000 + 3_600_000);
    assert_eq!(cleaned, 5);
    assert_eq!(acm.active_sessions(), 0);
}

#[test]
fn capability_patterns() {
    let mut acm = AccessControlManager::new();
    let now: i64 = 0;
    let fd = acm.authenticate_with("fd".into(), Role::FlightDirector, "n".into(), "fd".into(), now).unwrap();
    assert!(acm.check_permission_at(&fd, "command", "rover.arm", now).unwrap());
    assert!(!acm.check_permission_at(&fd, "command", "rover", now).unwrap());
    assert!(!acm.check_permission_at(&fd, "command", "roverx.arm", now).unwrap());
    assert!(acm.check_permission_at(&fd, "command", "rover.", now).unwrap());
    assert!(!acm.check_permission_at(&fd, "read", "science_data.x", now).unwrap());
    let auto = acm.authenticate_with("ai".into(), Role::AutonomousSystem, "n".into(), "ai".into(), now).unwrap();
    assert!(acm.check_permission_at(&auto, "restart", "internal.scheduler", now).unwrap());
    assert!(!acm.check_permission_at(&auto, "restart", "rover.nav", now).unwrap());
    let obs = acm.authenticate_with("o".into(), Role::Observer, "n".into(), "o".into(), now).unwrap();
    assert!(acm.check_permission_at(&obs, "read", "status.power", now).unwrap());
    assert!(!acm.check_permission_at(&obs, "monitor", "health.cpu", now).unwrap());
    let eng = acm.authenticate_with("e".into(), Role::Engineer, "n".into(), "e".into(), now).unwrap();
    assert!(acm.check_permission_at(&eng, "maintain", "system.fans", now).unwrap());
}

#[test]
fn sessions_end_and_expire() {
    let mut acm = AccessControlManager::new();
    let id = acm.authenticate_with("p".into(), Role::Operator, "n".into(), "x".into(), 0).unwrap();
    assert!(acm.check_permission_at(&id, "read", "status.a", 3_600_000).unwrap());
    match acm.check_permission_at(&id, "read", "status.a", 3_600_001) {
        Err(SecurityError::AccessDenied(m)) => assert_eq!(m, "Session expired"),
        _ => panic!("expected expiry"),
    }
    assert!(acm.terminate_session(&id));
    assert!(!acm.terminate_session(&id));
    match acm.check_permission_at(&SessionId("x".into()), "read", "status.a", 0) {
        Err(SecurityError::AccessDenied(m)) => assert_eq!(m, "Session not found"),
        _ => panic!("expected a missing session"),
    }
    assert_eq!(acm.active_sessions(), 0);
}

#[test]
fn random_sessions_are_counted() {
    let mut acm = AccessControlManager::new();
    for i in 0..5 {
        acm.authenticate(format!("user-{}", i), Role::Observer, "test".into()).unwrap();
    }
    assert_eq!(acm.active_sessions(), 5);
}
