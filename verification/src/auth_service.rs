//! Mission Control authentication: login with a TOTP code, which opens a
//! session, and authorization of commands by priority, with a second
//! authorization for critical ones. Times are Unix milliseconds; token
//! times are Unix seconds.

use vstd::prelude::*;
use crate::clock::{floor_seconds, in_clock_range, now_millis, now_rfc3339};
use crate::entropy::{is_hyphenated_uuid, uuid_v4_string};
use crate::rbac::{
    answer_of, dual_answer, first_named, fresh_user, is_critical, last_session, lemma_first_named_bounds, has_user, logged_in, permission_answer, session_opened, user_of,
    AuditResult, Permission, RbacResult, RbacSystem, Role, TotpValidator,
};
use crate::text::{concat2, i64_to_decimal, is_digit, spec_signed_decimal, str_eq};

verus! {

/// A session token.
#[derive(Debug)]
pub struct JwtToken {
    pub session_id: String,
    pub user_id: String,
    pub username: String,
    pub role: Role,
    /// Expiry, Unix seconds.
    pub exp: i64,
    /// Issue time, Unix seconds.
    pub iat: i64,
}

/// A login request.
#[derive(Debug)]
pub struct LoginRequest {
    pub username: String,
    pub password_hash: String,
    pub totp_code: String,
}

/// The answer to a login.
#[derive(Debug)]
pub struct LoginResponse {
    pub success: bool,
    pub token: Option<JwtToken>,
    pub session_id: Option<String>,
    pub error: Option<String>,
    pub requires_mfa: bool,
}

/// A command to authorize.
#[derive(Debug)]
pub struct AuthorizedCommand {
    pub command: String,
    pub target_asset: String,
    pub priority: String,
    pub primary_token: String,
    /// Needed, with the secondary user, for critical and safe-mode commands.
    pub secondary_token: Option<String>,
    pub secondary_user_id: Option<String>,
}

/// The answer to a command authorization.
#[derive(Debug, PartialEq, Eq)]
pub enum CommandAuthResult {
    Authorized { command_id: String, needs_secondary: bool },
    RequiresDualAuth,
    Denied(String),
}

/// Token lifetime: eight hours, in seconds.
pub const TOKEN_LIFETIME_SECS: i64 = 28_800;

/// Whether a code has the shape of a TOTP code: six ASCII digits.
pub open spec fn totp_shape(code: Seq<char>) -> bool {
    code.len() == 6 && forall|i: int| 0 <= i < code.len() ==> is_digit(#[trigger] code[i])
}

/// The permission a command priority asks for.
pub open spec fn permission_for(priority: Seq<char>) -> Option<Permission> {
    if priority == "routine"@ || priority == "high"@ {
        Some(Permission::SendCommand)
    } else if priority == "critical"@ {
        Some(Permission::SendCriticalCommand)
    } else if priority == "safe_mode"@ {
        Some(Permission::SafeMode)
    } else {
        None
    }
}

/// The identifier of a command authorized at `now`: "CMD-" and the Unix
/// seconds.
pub open spec fn command_id_at(now: i64) -> Seq<char> {
    "CMD-"@ + spec_signed_decimal(now as int / 1000)
}

/// `r` authorizes a command at `now`.
pub open spec fn authorized_at(r: CommandAuthResult, now: i64) -> bool {
    r matches CommandAuthResult::Authorized { command_id, needs_secondary } && command_id@ == command_id_at(now)
        && !needs_secondary
}

/// `r` denies with the message `m`.
pub open spec fn denied_with(r: CommandAuthResult, m: Seq<char>) -> bool {
    r matches CommandAuthResult::Denied(x) && x@ == m
}

/// The answer to a command of priority `priority` by `primary`, with the
/// second user `secondary` when there is one: an unknown priority is
/// denied; otherwise the primary user's answer for the permission decides,
/// and where it asks for a second authorization, the dual answer of the
/// two users decides (without a second user, one is asked for). Until a
/// first user is provisioned the service runs on the priority alone:
/// routine and high commands are authorized, critical and safe-mode ones
/// ask for a second authorization.
pub open spec fn authorization_for(
    users: Seq<crate::rbac::User>,
    priority: Seq<char>,
    primary: Seq<char>,
    secondary: Option<Seq<char>>,
    now: i64,
    r: CommandAuthResult,
) -> bool {
    match permission_for(priority) {
        None => denied_with(r, "Unknown priority"@),
        Some(p) => {
            let a = if users.len() == 0 {
                if is_critical(p) { (2int, Seq::<char>::empty()) } else { (0int, Seq::<char>::empty()) }
            } else {
                permission_answer(users, primary, p)
            };
            if a.0 == 0 {
                authorized_at(r, now)
            } else if a.0 == 1 {
                denied_with(r, a.1)
            } else {
                match secondary {
                    None => r == CommandAuthResult::RequiresDualAuth,
                    Some(s) => {
                        let d = dual_answer(users, primary, s, p);
                        if d.0 == 0 {
                            authorized_at(r, now)
                        } else if d.0 == 1 {
                            denied_with(r, d.1)
                        } else {
                            denied_with(r, "Dual auth failed"@)
                        }
                    },
                }
            }
        },
    }
}

fn priority_permission(priority: &str) -> (p: Option<Permission>)
    ensures
        p == permission_for(priority@),
{
    if str_eq(priority, "routine") || str_eq(priority, "high") {
        Some(Permission::SendCommand)
    } else if str_eq(priority, "critical") {
        Some(Permission::SendCriticalCommand)
    } else if str_eq(priority, "safe_mode") {
        Some(Permission::SafeMode)
    } else {
        None
    }
}

fn command_id(now: i64) -> (id: String)
    ensures
        id@ == command_id_at(now),
{
    concat2("CMD-", i64_to_decimal(floor_seconds(now)).as_str())
}

/// Authorizes a command of priority `priority` by the user `primary` at
/// `now`, with `secondary` as the second user where one is given.
pub fn authorize_command_at(rbac: &RbacSystem, priority: &str, primary: &str, secondary: Option<&str>, now: i64) -> (r:
    CommandAuthResult)
    ensures
        authorization_for(
            rbac.users(),
            priority@,
            primary@,
            match secondary {
                Some(s) => Some(s@),
                None => None,
            },
            now,
            r,
        ),
{
    let permission = match priority_permission(priority) {
        Some(p) => p,
        None => {
            return CommandAuthResult::Denied("Unknown priority".to_string());
        },
    };
    let answer = if rbac.user_count() == 0 {
        match permission {
            Permission::SendCriticalCommand | Permission::SafeMode | Permission::Reboot => RbacResult::RequiresDualAuth,
            _ => RbacResult::Granted,
        }
    } else {
        rbac.check_permission(primary, &permission)
    };
    match answer {
        RbacResult::Granted => CommandAuthResult::Authorized { command_id: command_id(now), needs_secondary: false },
        RbacResult::RequiresDualAuth => {
            match secondary {
                Some(sec) => match rbac.dual_authorization(primary, sec, &permission) {
                    RbacResult::Granted => CommandAuthResult::Authorized {
                        command_id: command_id(now),
                        needs_secondary: false,
                    },
                    RbacResult::Denied(reason) => CommandAuthResult::Denied(reason),
                    RbacResult::RequiresDualAuth => CommandAuthResult::Denied("Dual auth failed".to_string()),
                },
                None => CommandAuthResult::RequiresDualAuth,
            }
        },
        RbacResult::Denied(reason) => CommandAuthResult::Denied(reason),
    }
}


/// What a login of `username` with `totp` from `ip` at `now` does to the
/// access system (`r0` before, `r1` after), with `uuid` for the session
/// and audit identifiers and `login` written as the login time: a code
/// that is not six digits is refused and audited; an unknown user name is
/// refused; a locked account or one without MFA is refused as the session
/// opening refuses it; otherwise a session is opened for the first user
/// of that name, the login is audited and a token is returned.
pub open spec fn login_outcome(
    r0: RbacSystem,
    r1: RbacSystem,
    username: Seq<char>,
    totp: Seq<char>,
    ip: Seq<char>,
    uuid: Seq<char>,
    now: i64,
    login: Seq<char>,
    r: LoginResponse,
) -> bool {
    let us = r0.users();
    let k = first_named(us, username);
    let n = r0.audit_entries().len();
    if !totp_shape(totp) {
        &&& !r.success && r.requires_mfa && r.token is None && r.session_id is None
        &&& r.error matches Some(e) && e@ == "Invalid MFA code"@
        &&& r1.users() == us
        &&& r1.sessions() == r0.sessions()
        &&& r1.audit_entries().len() == n + 1
        &&& r1.audit_entries().take(n as int) == r0.audit_entries()
        &&& audited(r1.audit_entries().last(), "MFA verification"@, AuditResult::Denied, "Invalid TOTP for "@ + username, now, uuid)
    } else if k >= us.len() {
        &&& !r.success && !r.requires_mfa && r.token is None && r.session_id is None
        &&& r.error matches Some(e) && e@ == "User not found"@
        &&& r1 == r0
    } else {
        let id = us[k].id@;
        let u = user_of(us, id);
        if u.locked || !u.mfa_enabled {
            &&& !r.success && !r.requires_mfa && r.token is None && r.session_id is None
            &&& r.error matches Some(e) && e@ == (if u.locked { "Account locked"@ } else { "MFA required but not enabled"@ })
            &&& r1.users() == us
            &&& r1.sessions() == r0.sessions()
            &&& r1.audit_entries() == r0.audit_entries()
        } else {
            &&& r.success && !r.requires_mfa && r.error is None
            &&& r.session_id matches Some(sid) && sid@ == "SES-"@ + uuid.take(8)
            &&& r1.sessions() == r0.sessions().push(r1.sessions().last())
            &&& session_opened(r1.sessions().last(), "SES-"@ + uuid.take(8), u, ip, now, r0.timeout_minutes())
            &&& r1.users().len() == us.len()
            &&& forall|j: int| 0 <= j < us.len() ==> if us[j].id@ == id {
                logged_in(us[j], r1.users()[j], login)
            } else {
                r1.users()[j] == us[j]
            }
            &&& r.token matches Some(t) && {
                &&& t.session_id@ == "SES-"@ + uuid.take(8)
                &&& t.user_id@ == id
                &&& t.username@ == username
                &&& t.role == us[k].role
                &&& t.iat == now as int / 1000
                &&& t.exp == now as int / 1000 + TOKEN_LIFETIME_SECS
            }
            &&& r1.audit_entries().len() == n + 1
            &&& r1.audit_entries().take(n as int) == r0.audit_entries()
            &&& audited(r1.audit_entries().last(), "authentication"@, AuditResult::Granted,
                "User "@ + username + " logged in"@, now, uuid)
        }
    }
}

/// An audit record of a login step by "anonymous".
pub open spec fn audited(
    e: crate::rbac::AuditEntry,
    resource: Seq<char>,
    result: AuditResult,
    details: Seq<char>,
    now: i64,
    uuid: Seq<char>,
) -> bool {
    &&& e.id@ == "AUD-"@ + uuid.take(8)
    &&& e.timestamp == now
    &&& e.user_id@ == "anonymous"@
    &&& e.action@ == "LOGIN"@
    &&& e.resource@ == resource
    &&& e.result == result
    &&& e.details@ == details
}

fn refused(message: String, requires_mfa: bool) -> (r: LoginResponse)
    ensures
        !r.success,
        r.requires_mfa == requires_mfa,
        r.token is None,
        r.session_id is None,
        r.error == Some(message),
{
    LoginResponse { success: false, token: None, session_id: None, error: Some(message), requires_mfa }
}

/// Logs `username` in with `totp_code` from `ip` at `now`, with `uuid` for
/// the session and audit identifiers and `login_text` as the login time.
pub fn login_at(
    rbac: &mut RbacSystem,
    username: &str,
    totp_code: &str,
    ip: &str,
    uuid: &str,
    now: i64,
    login_text: String,
) -> (r: LoginResponse)
    requires
        in_clock_range(now),
        is_hyphenated_uuid(uuid@),
    ensures
        login_outcome(*old(rbac), *final(rbac), username@, totp_code@, ip@, uuid@, now, login_text@, r),
{
    if !TotpValidator::verify("secret", totp_code) {
        let details = concat2("Invalid TOTP for ", username);
        rbac.audit_at("anonymous", "LOGIN", "MFA verification", AuditResult::Denied, details.as_str(), now, uuid);
        return refused("Invalid MFA code".to_string(), true);
    }
    let found = rbac.find_by_username(username);
    let (user_id, role) = match found {
        Some(f) => f,
        None => {
            return refused("User not found".to_string(), false);
        },
    };
    proof {
        let k = first_named(rbac.users(), username@);
        assert(k < rbac.users().len());
        let us = rbac.users();
        lemma_first_named_bounds(us, username@);
        assert(us[k].id@ == user_id@);
        assert(has_user(us, user_id@));
    }
    match rbac.create_session_at(user_id.as_str(), ip, now, uuid, login_text) {
        Err(m) => refused(m, false),
        Ok(sid) => {
            let mut details = concat2("User ", username);
            details.append(" logged in");
            rbac.audit_at("anonymous", "LOGIN", "authentication", AuditResult::Granted, details.as_str(), now, uuid);
            let secs = floor_seconds(now);
            let token = JwtToken {
                session_id: sid.clone(),
                user_id,
                username: username.to_owned(),
                role,
                exp: secs + TOKEN_LIFETIME_SECS,
                iat: secs,
            };
            LoginResponse { success: true, token: Some(token), session_id: Some(sid), error: None, requires_mfa: false }
        },
    }
}


/// The user behind a token at `now`: the owner of the latest session
/// with that identifier while it lasts, else no one (the empty name).
pub open spec fn token_user(ss: Seq<crate::rbac::Session>, token: Seq<char>, now: i64) -> Seq<char> {
    match last_session(ss, token) {
        Some(k) => if now < ss[k].expires_at { ss[k].user_id@ } else { Seq::empty() },
        None => Seq::empty(),
    }
}

/// The second user a request names, counted only with its token.
pub open spec fn second_of(request: AuthorizedCommand) -> Option<Seq<char>> {
    match (request.secondary_token, request.secondary_user_id) {
        (Some(_), Some(s)) => Some(s@),
        _ => None,
    }
}

/// The authentication service: the users, sessions and audit of Mission
/// Control, and the secret its tokens are keyed with.
pub struct AuthService {
    rbac: RbacSystem,
    jwt_secret: Vec<u8>,
}

impl AuthService {
    /// The access system behind the service.
    pub closed spec fn access(self) -> RbacSystem {
        self.rbac
    }

    /// The token secret.
    pub closed spec fn secret(self) -> Seq<u8> {
        self.jwt_secret@
    }

    /// A service with no user, no session and no audit record.
    pub fn new(jwt_secret: &[u8]) -> (s: Self)
        ensures
            s.access().users().len() == 0,
            s.access().sessions().len() == 0,
            s.access().audit_entries().len() == 0,
            s.secret() == jwt_secret@,
    {
        let mut secret: Vec<u8> = Vec::new();
        let mut i: usize = 0;
        while i < jwt_secret.len()
            invariant
                i <= jwt_secret@.len(),
                secret@ == jwt_secret@.take(i as int),
            decreases jwt_secret@.len() - i,
        {
            secret.push(jwt_secret[i]);
            i += 1;
            assert(secret@ =~= jwt_secret@.take(i as int));
        }
        assert(jwt_secret@.take(jwt_secret@.len() as int) =~= jwt_secret@);
        AuthService { rbac: RbacSystem::new(), jwt_secret: secret }
    }

    /// Registers a user (the password hash is kept by the provisioning
    /// outside); returns its identifier.
    pub fn create_user(&mut self, username: &str, role: Role, password_hash: &str) -> (id: String)
        ensures
            exists|g: Seq<char>| is_hyphenated_uuid(g) && id@ == "USR-"@ + g.take(8),
            final(self).access().sessions() == old(self).access().sessions(),
            final(self).access().audit_entries() == old(self).access().audit_entries(),
            has_user(final(self).access().users(), id@),
            forall|k: int| 0 <= k < final(self).access().users().len() && final(self).access().users()[k].id@ == id@
                ==> fresh_user(final(self).access().users()[k], id@, username@, role),
            forall|k: int| 0 <= k < old(self).access().users().len() && old(self).access().users()[k].id@ != id@
                ==> final(self).access().users()[k] == old(self).access().users()[k],
            final(self).secret() == old(self).secret(),
    {
        self.rbac.create_user(username, role)
    }

    /// Logs a request in now from `ip`.
    pub fn login(&mut self, request: LoginRequest, ip: &str) -> (r: LoginResponse)
        ensures
            exists|uuid: Seq<char>, now: i64, login: Seq<char>|
                #[trigger] login_outcome(old(self).access(), final(self).access(), request.username@, request.totp_code@, ip@,
                    uuid, now, login, r) && in_clock_range(now) && is_hyphenated_uuid(uuid),
            final(self).secret() == old(self).secret(),
    {
        let uuid = uuid_v4_string();
        let now = now_millis();
        let login_text = now_rfc3339();
        let ghost lt = login_text@;
        let ghost before = self.access();
        let r = login_at(&mut self.rbac, request.username.as_str(), request.totp_code.as_str(), ip, uuid.as_str(), now,
            login_text);
        proof {
            assert(login_outcome(before, self.access(), request.username@, request.totp_code@, ip@, uuid@, now, lt, r));
        }
        r
    }

    /// The user behind a token at `now`.
    fn token_owner(&self, token: &str, now: i64) -> (u: String)
        ensures
            u@ == token_user(self.access().sessions(), token@, now),
    {
        match self.rbac.validate_session_at(token, now) {
            Some(session) => session.user_id.clone(),
            None => String::new(),
        }
    }

    /// Authorizes a request at `now`: the primary user is the owner of the
    /// session its token names.
    pub fn authorize_command_at(&self, request: AuthorizedCommand, now: i64) -> (r: CommandAuthResult)
        ensures
            authorization_for(self.access().users(), request.priority@,
                token_user(self.access().sessions(), request.primary_token@, now), second_of(request), now, r),
    {
        let primary = self.token_owner(request.primary_token.as_str(), now);
        let secondary: Option<&str> = match (&request.secondary_token, &request.secondary_user_id) {
            (Some(_), Some(s)) => Some(s.as_str()),
            _ => None,
        };
        authorize_command_at(&self.rbac, request.priority.as_str(), primary.as_str(), secondary, now)
    }

    /// Authorizes a request now.
    pub fn authorize_command(&self, request: AuthorizedCommand) -> (r: CommandAuthResult)
        ensures
            exists|now: i64|
                #[trigger] in_clock_range(now) && authorization_for(self.access().users(), request.priority@,
                    token_user(self.access().sessions(), request.primary_token@, now), second_of(request), now, r),
    {
        let now = now_millis();
        self.authorize_command_at(request, now)
    }
}

} // verus!
