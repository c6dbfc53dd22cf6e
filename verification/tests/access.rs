use spaceone::rbac::{AuditResult, Permission, RbacResult, RbacSystem, Role, TotpValidator};

fn is_granted(r: &RbacResult) -> bool {
    matches!(r, RbacResult::Granted)
}

fn denial(r: RbacResult) -> String {
    match r {
        RbacResult::Denied(m) => m,
        other => panic!("expected a denial, got {:?}", other),
    }
}

#[test]
fn role_permissions_and_levels() {
    assert_eq!(Role::MissionCommander.permissions().len(), 11);
    assert_eq!(Role::Scientist.permissions(), vec![Permission::ViewScienceData, Permission::RequestScienceObservation]);
    assert_eq!(Role::MissionCommander.priority_level(), 0);
    assert_eq!(Role::Engineer.priority_level(), 2);
    assert_eq!(Role::Operator.priority_level(), 4);
}

#[test]
fn user_ids_come_from_uuids() {
    let mut rbac = RbacSystem::new();
    let id = rbac.create_user_from_uuid("alice", Role::Operator, "1b4e28ba-2fa1-41d2-883f-0016d3cca427");
    assert_eq!(id, "USR-1b4e28ba");
    let random = rbac.create_user("bob", Role::Scientist);
    assert!(random.starts_with("USR-"));
    assert_eq!(random.len(), 12);
}

#[test]
fn permission_checks() {
    let mut rbac = RbacSystem::new();
    let cmd = rbac.create_user("cmdr", Role::MissionCommander);
    let sci = rbac.create_user("sci", Role::Scientist);
    assert!(is_granted(&rbac.check_permission(&cmd, &Permission::ManageUsers)));
    assert!(matches!(rbac.check_permission(&cmd, &Permission::Reboot), RbacResult::RequiresDualAuth));
    assert_eq!(
        denial(rbac.check_permission(&sci, &Permission::SendCommand)),
        "Role Scientist lacks permission SendCommand"
    );
    assert_eq!(denial(rbac.check_permission("USR-none", &Permission::SendCommand)), "User not found");
}

#[test]
fn dual_authorization_rules() {
    let mut rbac = RbacSystem::new();
    let fd = rbac.create_user_from_uuid("fd", Role::FlightDirector, "00000001-0000-4000-8000-000000000000");
    let mc = rbac.create_user_from_uuid("mc", Role::MissionCommander, "00000002-0000-4000-8000-000000000000");
    let op = rbac.create_user_from_uuid("op", Role::Operator, "00000003-0000-4000-8000-000000000000");
    let en = rbac.create_user_from_uuid("en", Role::Engineer, "00000004-0000-4000-8000-000000000000");
    assert!(is_granted(&rbac.dual_authorization(&fd, &mc, &Permission::SafeMode)));
    assert_eq!(denial(rbac.dual_authorization(&fd, &fd, &Permission::SafeMode)), "Self-authorization not allowed");
    assert_eq!(
        denial(rbac.dual_authorization(&fd, &op, &Permission::SafeMode)),
        "Insufficient permissions for dual auth"
    );
    assert_eq!(
        denial(rbac.dual_authorization(&op, &en, &Permission::SendCommand)),
        "At least one Flight Director required for dual auth"
    );
    assert_eq!(denial(rbac.dual_authorization("x", &fd, &Permission::SafeMode)), "Primary user not found");
    assert_eq!(denial(rbac.dual_authorization(&fd, "x", &Permission::SafeMode)), "Secondary user not found");
}

#[test]
fn sessions_and_audit() {
    let mut rbac = RbacSystem::new();
    let u = rbac.create_user("eve", Role::Engineer);
    let sid = rbac
        .create_session_at(&u, "10.0.0.1", 1_000, "abcdef01-2345-4678-9abc-def012345678", "t".to_string())
        .unwrap();
    assert_eq!(sid, "SES-abcdef01");
    let s = rbac.validate_session_at(&sid, 1_000 + 480 * 60_000 - 1).unwrap();
    assert_eq!(s.ip_address, "10.0.0.1");
    assert_eq!(s.role, Role::Engineer);
    assert!(rbac.validate_session_at(&sid, 1_000 + 480 * 60_000).is_none());
    assert!(rbac.validate_session_at("SES-nothing", 0).is_none());
    assert_eq!(rbac.create_session("USR-missing", "ip").unwrap_err(), "User not found");
    let live = rbac.create_session(&u, "10.0.0.2").unwrap();
    assert!(rbac.validate_session(&live).is_some());

    rbac.audit(&u, "reboot", "rover-01", AuditResult::Denied, "no second signature");
    rbac.audit_at(&u, "view", "telemetry", AuditResult::Granted, "", 5, "99999999-0000-4000-8000-000000000000");
    let log = rbac.get_audit_log();
    assert_eq!(log.len(), 2);
    assert_eq!(log[0].result, AuditResult::Denied);
    assert!(log[0].id.starts_with("AUD-"));
    assert_eq!(log[1].id, "AUD-99999999");
    assert_eq!(log[1].timestamp, 5);
}

#[test]
fn totp_codes_are_six_digits() {
    assert!(TotpValidator::verify("secret", "123456"));
    assert!(!TotpValidator::verify("secret", "12345"));
    assert!(!TotpValidator::verify("secret", "12a456"));
    assert!(!TotpValidator::verify("secret", "１２３４５６"));
    let s = TotpValidator::generate_secret();
    assert_eq!(s.len(), 16);
    assert!(s.chars().all(|c| c.is_ascii_hexdigit() && !c.is_ascii_uppercase()));
}

#[test]
fn mission_commander_holds_every_permission() {
    let all = [
        Permission::SendCommand,
        Permission::SendCriticalCommand,
        Permission::SafeMode,
        Permission::Reboot,
        Permission::FirmwareUpdate,
        Permission::ViewScienceData,
        Permission::RequestScienceObservation,
        Permission::ModifySchedule,
        Permission::ViewAllTelemetry,
        Permission::ViewSystemLogs,
        Permission::ManageUsers,
    ];
    for p in all.iter() {
        assert!(Role::MissionCommander.permissions().contains(p));
        assert!(Role::MissionCommander.has_permission(p));
    }
}
