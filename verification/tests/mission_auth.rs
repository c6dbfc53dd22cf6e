use spaceone::auth_service::{authorize_command_at, login_at, AuthService, AuthorizedCommand, CommandAuthResult, LoginRequest};
use spaceone::rbac::{RbacSystem, Role};

const UUID: &str = "1234abcd-0000-4000-8000-000000000000";

#[test]
fn routine_command_by_operator_is_authorized() {
    let mut rbac = RbacSystem::new();
    let op = rbac.create_user("op", Role::Operator);
    assert_eq!(
        authorize_command_at(&rbac, "routine", &op, None, 1_700_000_000_123),
        CommandAuthResult::Authorized { command_id: "CMD-1700000000".to_string(), needs_secondary: false }
    );
    assert_eq!(
        authorize_command_at(&rbac, "high", &op, None, -1),
        CommandAuthResult::Authorized { command_id: "CMD--1".to_string(), needs_secondary: false }
    );
}

#[test]
fn unknown_priority_and_user_are_denied() {
    let mut rbac = RbacSystem::new();
    let op = rbac.create_user("op", Role::Operator);
    assert_eq!(
        authorize_command_at(&rbac, "urgent", &op, None, 0),
        CommandAuthResult::Denied("Unknown priority".to_string())
    );
    assert_eq!(
        authorize_command_at(&rbac, "routine", "USR-nobody", None, 0),
        CommandAuthResult::Denied("User not found".to_string())
    );
    assert_eq!(
        authorize_command_at(&rbac, "safe_mode", &op, None, 0),
        CommandAuthResult::Denied("Role Operator lacks permission SafeMode".to_string())
    );
}

#[test]
fn critical_commands_need_a_second_user() {
    let mut rbac = RbacSystem::new();
    let fd = rbac.create_user("fd", Role::FlightDirector);
    let mc = rbac.create_user("mc", Role::MissionCommander);
    let sci = rbac.create_user("sci", Role::Scientist);
    assert_eq!(authorize_command_at(&rbac, "safe_mode", &fd, None, 5_000), CommandAuthResult::RequiresDualAuth);
    assert_eq!(
        authorize_command_at(&rbac, "safe_mode", &fd, Some(mc.as_str()), 5_000),
        CommandAuthResult::Authorized { command_id: "CMD-5".to_string(), needs_secondary: false }
    );
    assert_eq!(
        authorize_command_at(&rbac, "critical", &fd, Some(fd.as_str()), 5_000),
        CommandAuthResult::Denied("Self-authorization not allowed".to_string())
    );
    assert_eq!(
        authorize_command_at(&rbac, "critical", &fd, Some(sci.as_str()), 5_000),
        CommandAuthResult::Denied("Insufficient permissions for dual auth".to_string())
    );
}

#[test]
fn login_opens_a_session_and_returns_a_token() {
    let mut rbac = RbacSystem::new();
    let op = rbac.create_user("op", Role::Operator);
    let before = rbac.get_audit_log().len();
    let r = login_at(&mut rbac, "op", "123456", "10.0.0.7", UUID, 1_700_000_000_999, "t0".to_string());
    assert!(r.success);
    assert!(!r.requires_mfa);
    assert_eq!(r.error, None);
    assert_eq!(r.session_id, Some("SES-1234abcd".to_string()));
    let t = r.token.unwrap();
    assert_eq!(t.session_id, "SES-1234abcd");
    assert_eq!(t.user_id, op);
    assert_eq!(t.username, "op");
    assert_eq!(t.role, Role::Operator);
    assert_eq!(t.iat, 1_700_000_000);
    assert_eq!(t.exp, 1_700_000_000 + 8 * 3600);
    assert_eq!(rbac.get_audit_log().len(), before + 1);
    assert_eq!(rbac.get_audit_log()[before].details, "User op logged in");
    assert!(rbac.validate_session_at("SES-1234abcd", 1_700_000_001_000).is_some());
}

#[test]
fn login_with_a_bad_code_or_name_is_refused() {
    let mut rbac = RbacSystem::new();
    rbac.create_user("op", Role::Operator);
    let r = login_at(&mut rbac, "op", "12a456", "10.0.0.7", UUID, 0, "t0".to_string());
    assert!(!r.success);
    assert!(r.requires_mfa);
    assert_eq!(r.error, Some("Invalid MFA code".to_string()));
    assert!(r.token.is_none() && r.session_id.is_none());
    assert_eq!(rbac.get_audit_log().last().unwrap().details, "Invalid TOTP for op");
    let r = login_at(&mut rbac, "ghost", "123456", "10.0.0.7", UUID, 0, "t0".to_string());
    assert!(!r.success && !r.requires_mfa);
    assert_eq!(r.error, Some("User not found".to_string()));
}

#[test]
fn login_now_uses_the_request() {
    let mut svc = AuthService::new(b"k");
    svc.create_user("op", Role::Operator, "h");
    let r = svc.login(LoginRequest { username: "op".into(), password_hash: "h".into(), totp_code: "000000".into() }, "127.0.0.1");
    assert!(r.success);
    assert!(r.session_id.unwrap().starts_with("SES-"));
}

#[test]
fn test_login_flow() {
    let mut service = AuthService::new(b"test_secret_key");
    let user_id = service.create_user("test_operator", Role::Operator, "hash123");
    assert!(!user_id.is_empty());
}

fn request(priority: &str) -> AuthorizedCommand {
    command_request("move forward 10m", priority)
}

fn command_request(command: &str, priority: &str) -> AuthorizedCommand {
    AuthorizedCommand {
        command: command.to_string(),
        target_asset: "rover-01".to_string(),
        priority: priority.to_string(),
        primary_token: "token123".to_string(),
        secondary_token: None,
        secondary_user_id: None,
    }
}

#[test]
fn test_authorize_routine_command() {
    let service = AuthService::new(b"test_secret_key");
    let result = service.authorize_command(request("routine"));
    match result {
        CommandAuthResult::Authorized { command_id, needs_secondary } => {
            assert!(!command_id.is_empty());
            assert!(!needs_secondary);
        }
        _ => panic!("Expected Authorized"),
    }
}

#[test]
fn test_dual_auth_required() {
    let service = AuthService::new(b"test_secret_key");
    let result = service.authorize_command(command_request("enter safe mode", "safe_mode"));
    assert!(matches!(result, CommandAuthResult::RequiresDualAuth));
}

#[test]
fn provisioned_service_goes_by_the_token_session() {
    let mut service = AuthService::new(b"k");
    service.create_user("op", Role::Operator, "h");
    // An unknown token names no one once users exist.
    assert_eq!(
        service.authorize_command_at(request("routine"), 0),
        CommandAuthResult::Denied("User not found".to_string())
    );
    let r = service.login(LoginRequest { username: "op".into(), password_hash: "h".into(), totp_code: "123456".into() }, "ip");
    let mut req = request("routine");
    req.primary_token = r.session_id.unwrap();
    assert!(matches!(service.authorize_command(req), CommandAuthResult::Authorized { needs_secondary: false, .. }));
}

#[test]
fn empty_access_system_runs_on_priority() {
    let rbac = RbacSystem::new();
    assert_eq!(
        authorize_command_at(&rbac, "high", "anyone", None, 3_000),
        CommandAuthResult::Authorized { command_id: "CMD-3".to_string(), needs_secondary: false }
    );
    assert_eq!(authorize_command_at(&rbac, "critical", "anyone", None, 0), CommandAuthResult::RequiresDualAuth);
    assert_eq!(
        authorize_command_at(&rbac, "critical", "anyone", Some("other"), 0),
        CommandAuthResult::Denied("Primary user not found".to_string())
    );
    assert_eq!(authorize_command_at(&rbac, "later", "anyone", None, 0), CommandAuthResult::Denied("Unknown priority".to_string()));
}
