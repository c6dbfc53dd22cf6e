//! Access control of Mission Control: five roles with their permissions,
//! dual authorization of critical commands, sessions after MFA, an audit
//! log, and the shape check of TOTP codes. Times are Unix milliseconds.

use vstd::prelude::*;
use crate::clock::{now_millis, in_clock_range, now_rfc3339};
use crate::entropy::{uuid_v4_string, is_hyphenated_uuid, random_u64, is_lower_hex};
use crate::hashing::{hex_encode, spec_hex};
use crate::text::{chars_of, string_of, str_eq, concat2, is_digit, char_is_digit};

verus! {

/// Role of a Mission Control user.
#[derive(Debug, Clone, Copy, PartialEq, Eq, Structural)]
pub enum Role {
    /// Mission Commander: full authority.
    MissionCommander,
    /// Flight Director: operational commands.
    FlightDirector,
    /// Scientist: science data only.
    Scientist,
    /// Engineer: systems and maintenance.
    Engineer,
    /// Operator: read access and routine commands.
    Operator,
}

/// A permission.
#[derive(Debug, Clone, Copy, PartialEq, Eq, Structural)]
pub enum Permission {
    SendCommand,
    SendCriticalCommand,
    SafeMode,
    Reboot,
    FirmwareUpdate,
    ViewScienceData,
    RequestScienceObservation,
    ModifySchedule,
    ViewAllTelemetry,
    ViewSystemLogs,
    ManageUsers,
}

/// The permissions of a role, in order.
pub open spec fn role_permissions(r: Role) -> Seq<Permission> {
    match r {
        Role::MissionCommander => seq![
            Permission::SendCommand,
            Permission::SendCriticalCommand,
            Permission::SafeMode,
            Permission::Reboot,
            Permission::FirmwareUpdate,
            Permission::ViewScienceData,
            Permission::RequestScienceObservation,
            Permission::ModifySchedule,
            Permission::ViewAllTelemetry,
            Permission::ViewSystemLogs,
            Permission::ManageUsers,
        ],
        Role::FlightDirector => seq![
            Permission::SendCommand,
            Permission::SendCriticalCommand,
            Permission::SafeMode,
            Permission::ViewScienceData,
            Permission::ModifySchedule,
            Permission::ViewAllTelemetry,
        ],
        Role::Scientist => seq![Permission::ViewScienceData, Permission::RequestScienceObservation],
        Role::Engineer => seq![
            Permission::SendCommand,
            Permission::ViewAllTelemetry,
            Permission::FirmwareUpdate,
            Permission::ViewSystemLogs,
        ],
        Role::Operator => seq![Permission::SendCommand, Permission::ViewAllTelemetry, Permission::ViewSystemLogs],
    }
}

/// The Mission Commander has full authority: every permission.
pub proof fn lemma_commander_holds_every_permission(p: Permission)
    ensures
        role_permissions(Role::MissionCommander).contains(p),
{
    let s = role_permissions(Role::MissionCommander);
    let k: int = match p {
        Permission::SendCommand => 0,
        Permission::SendCriticalCommand => 1,
        Permission::SafeMode => 2,
        Permission::Reboot => 3,
        Permission::FirmwareUpdate => 4,
        Permission::ViewScienceData => 5,
        Permission::RequestScienceObservation => 6,
        Permission::ModifySchedule => 7,
        Permission::ViewAllTelemetry => 8,
        Permission::ViewSystemLogs => 9,
        Permission::ManageUsers => 10,
    };
    assert(s[k] == p);
}

/// The permissions that need a second authorization.
pub open spec fn is_critical(p: Permission) -> bool {
    p == Permission::SendCriticalCommand || p == Permission::SafeMode || p == Permission::Reboot
}

/// Whether a role can lead a dual authorization.
pub open spec fn is_commanding(r: Role) -> bool {
    r == Role::MissionCommander || r == Role::FlightDirector
}

impl Role {
    /// The role's power, 0 for the most powerful.
    pub open spec fn spec_priority(self) -> u8 {
        match self {
            Role::MissionCommander => 0,
            Role::FlightDirector => 1,
            Role::Engineer => 2,
            Role::Scientist => 3,
            Role::Operator => 4,
        }
    }

    /// The role's name, as `Debug` writes it.
    pub open spec fn spec_name(self) -> Seq<char> {
        match self {
            Role::MissionCommander => "MissionCommander"@,
            Role::FlightDirector => "FlightDirector"@,
            Role::Scientist => "Scientist"@,
            Role::Engineer => "Engineer"@,
            Role::Operator => "Operator"@,
        }
    }

    /// The role's permissions.
    pub fn permissions(&self) -> (v: Vec<Permission>)
        ensures
            v@ == role_permissions(*self),
    {
        match self {
            Role::MissionCommander => vec![
                Permission::SendCommand,
                Permission::SendCriticalCommand,
                Permission::SafeMode,
                Permission::Reboot,
                Permission::FirmwareUpdate,
                Permission::ViewScienceData,
                Permission::RequestScienceObservation,
                Permission::ModifySchedule,
                Permission::ViewAllTelemetry,
                Permission::ViewSystemLogs,
                Permission::ManageUsers,
            ],
            Role::FlightDirector => vec![
                Permission::SendCommand,
                Permission::SendCriticalCommand,
                Permission::SafeMode,
                Permission::ViewScienceData,
                Permission::ModifySchedule,
                Permission::ViewAllTelemetry,
            ],
            Role::Scientist => vec![Permission::ViewScienceData, Permission::RequestScienceObservation],
            Role::Engineer => vec![
                Permission::SendCommand,
                Permission::ViewAllTelemetry,
                Permission::FirmwareUpdate,
                Permission::ViewSystemLogs,
            ],
            Role::Operator => vec![Permission::SendCommand, Permission::ViewAllTelemetry, Permission::ViewSystemLogs],
        }
    }

    /// The role's power, 0 for the most powerful.
    pub fn priority_level(&self) -> (p: u8)
        ensures
            p == self.spec_priority(),
    {
        match self {
            Role::MissionCommander => 0,
            Role::FlightDirector => 1,
            Role::Engineer => 2,
            Role::Scientist => 3,
            Role::Operator => 4,
        }
    }

    /// The role's name, as `Debug` writes it.
    pub fn name(&self) -> (s: String)
        ensures
            s@ == self.spec_name(),
    {
        match self {
            Role::MissionCommander => "MissionCommander".to_string(),
            Role::FlightDirector => "FlightDirector".to_string(),
            Role::Scientist => "Scientist".to_string(),
            Role::Engineer => "Engineer".to_string(),
            Role::Operator => "Operator".to_string(),
        }
    }

    /// Whether the role has the permission.
    pub fn has_permission(&self, p: &Permission) -> (b: bool)
        ensures
            b == role_permissions(*self).contains(*p),
    {
        let ps = self.permissions();
        let mut i: usize = 0;
        while i < ps.len()
            invariant
                i <= ps@.len(),
                ps@ == role_permissions(*self),
                forall|j: int| 0 <= j < i ==> ps@[j] != *p,
            decreases ps@.len() - i,
        {
            if ps[i] == *p {
                return true;
            }
            i = i + 1;
        }
        false
    }
}

impl Permission {
    /// The permission's name, as `Debug` writes it.
    pub open spec fn spec_name(self) -> Seq<char> {
        match self {
            Permission::SendCommand => "SendCommand"@,
            Permission::SendCriticalCommand => "SendCriticalCommand"@,
            Permission::SafeMode => "SafeMode"@,
            Permission::Reboot => "Reboot"@,
            Permission::FirmwareUpdate => "FirmwareUpdate"@,
            Permission::ViewScienceData => "ViewScienceData"@,
            Permission::RequestScienceObservation => "RequestScienceObservation"@,
            Permission::ModifySchedule => "ModifySchedule"@,
            Permission::ViewAllTelemetry => "ViewAllTelemetry"@,
            Permission::ViewSystemLogs => "ViewSystemLogs"@,
            Permission::ManageUsers => "ManageUsers"@,
        }
    }

    /// The permission's name, as `Debug` writes it.
    pub fn name(&self) -> (s: String)
        ensures
            s@ == self.spec_name(),
    {
        match self {
            Permission::SendCommand => "SendCommand".to_string(),
            Permission::SendCriticalCommand => "SendCriticalCommand".to_string(),
            Permission::SafeMode => "SafeMode".to_string(),
            Permission::Reboot => "Reboot".to_string(),
            Permission::FirmwareUpdate => "FirmwareUpdate".to_string(),
            Permission::ViewScienceData => "ViewScienceData".to_string(),
            Permission::RequestScienceObservation => "RequestScienceObservation".to_string(),
            Permission::ModifySchedule => "ModifySchedule".to_string(),
            Permission::ViewAllTelemetry => "ViewAllTelemetry".to_string(),
            Permission::ViewSystemLogs => "ViewSystemLogs".to_string(),
            Permission::ManageUsers => "ManageUsers".to_string(),
        }
    }
}

/// A Mission Control user.
#[derive(Debug)]
pub struct User {
    pub id: String,
    pub username: String,
    pub role: Role,
    pub mfa_enabled: bool,
    pub mfa_secret: Option<String>,
    pub active_session: bool,
    pub last_login: Option<String>,
    pub failed_attempts: u32,
    pub locked: bool,
}

/// A session opened after login and MFA.
#[derive(Debug)]
pub struct Session {
    pub id: String,
    pub user_id: String,
    pub username: String,
    pub role: Role,
    pub created_at: i64,
    pub expires_at: i64,
    pub mfa_verified: bool,
    pub ip_address: String,
}

/// Outcome recorded in the audit log.
#[derive(Debug, Clone, Copy, PartialEq, Eq, Structural)]
pub enum AuditResult {
    Granted,
    Denied,
    RequiresDualAuth,
}

/// An audit record.
#[derive(Debug)]
pub struct AuditEntry {
    pub id: String,
    pub timestamp: i64,
    pub user_id: String,
    pub action: String,
    pub resource: String,
    pub result: AuditResult,
    pub details: String,
}

/// Answer of an authorization check.
#[derive(Debug)]
pub enum RbacResult {
    Granted,
    Denied(String),
    RequiresDualAuth,
}

/// The access-control system.
pub struct RbacSystem {
    users: Vec<User>,
    sessions: Vec<Session>,
    audit_log: Vec<AuditEntry>,
    session_timeout_minutes: u64,
    max_failed_attempts: u32,
}

/// The kind and message of an authorization answer: 0 granted, 1 denied
/// (with its reason), 2 dual authorization required.
pub open spec fn answer_of(r: RbacResult) -> (int, Seq<char>) {
    match r {
        RbacResult::Granted => (0, Seq::empty()),
        RbacResult::Denied(m) => (1, m@),
        RbacResult::RequiresDualAuth => (2, Seq::empty()),
    }
}

/// No two users share an identifier.
pub open spec fn distinct_users(us: Seq<User>) -> bool {
    forall|i: int, j: int| 0 <= i < j < us.len() ==> us[i].id@ != us[j].id@
}

/// Whether a user with this identifier exists.
pub open spec fn has_user(us: Seq<User>, id: Seq<char>) -> bool {
    exists|k: int| 0 <= k < us.len() && us[k].id@ == id
}

/// The user with this identifier (meaningful when there is one).
pub open spec fn user_of(us: Seq<User>, id: Seq<char>) -> User {
    us[choose|k: int| 0 <= k < us.len() && us[k].id@ == id]
}

/// The answer to "may this user use this permission": unknown and locked
/// users are denied, so is a role without the permission; critical
/// permissions need a second authorization; the others are granted.
pub open spec fn permission_answer(us: Seq<User>, id: Seq<char>, p: Permission) -> (int, Seq<char>) {
    if !has_user(us, id) {
        (1, "User not found"@)
    } else if user_of(us, id).locked {
        (1, "Account locked"@)
    } else if !role_permissions(user_of(us, id).role).contains(p) {
        (1, "Role "@ + user_of(us, id).role.spec_name() + " lacks permission "@ + p.spec_name())
    } else if is_critical(p) {
        (2, Seq::empty())
    } else {
        (0, Seq::empty())
    }
}

/// The answer to a dual authorization: both users must exist and hold
/// the permission, be two different users, and one of them must be a
/// Mission Commander or a Flight Director.
pub open spec fn dual_answer(us: Seq<User>, primary: Seq<char>, secondary: Seq<char>, p: Permission) -> (int, Seq<char>) {
    if !has_user(us, primary) {
        (1, "Primary user not found"@)
    } else if !has_user(us, secondary) {
        (1, "Secondary user not found"@)
    } else if !role_permissions(user_of(us, primary).role).contains(p) || !role_permissions(user_of(us, secondary).role).contains(p) {
        (1, "Insufficient permissions for dual auth"@)
    } else if primary == secondary {
        (1, "Self-authorization not allowed"@)
    } else if !is_commanding(user_of(us, primary).role) && !is_commanding(user_of(us, secondary).role) {
        (1, "At least one Flight Director required for dual auth"@)
    } else {
        (0, Seq::empty())
    }
}

/// A critical permission is never granted on a single check: at best it
/// asks for a second authorization.
pub proof fn lemma_critical_needs_second_authorization(us: Seq<User>, id: Seq<char>, p: Permission)
    requires
        is_critical(p),
    ensures
        permission_answer(us, id, p).0 != 0,
{
}

/// Nobody authorizes alone: a dual authorization by one user with
/// itself is always denied.
pub proof fn lemma_no_self_authorization(us: Seq<User>, id: Seq<char>, p: Permission)
    ensures
        dual_answer(us, id, id, p).0 == 1,
{
}

/// A granted dual authorization involves two different users who both
/// hold the permission, one of them a Mission Commander or a Flight
/// Director.
pub proof fn lemma_dual_grant_conditions(us: Seq<User>, primary: Seq<char>, secondary: Seq<char>, p: Permission)
    requires
        dual_answer(us, primary, secondary, p).0 == 0,
    ensures
        primary != secondary,
        has_user(us, primary) && has_user(us, secondary),
        role_permissions(user_of(us, primary).role).contains(p),
        role_permissions(user_of(us, secondary).role).contains(p),
        is_commanding(user_of(us, primary).role) || is_commanding(user_of(us, secondary).role),
{
}

/// Only Mission Commanders and Flight Directors hold critical permissions
/// other than a reboot, which only the Mission Commander holds.
pub proof fn lemma_critical_permissions_by_role(r: Role, p: Permission)
    requires
        is_critical(p),
        role_permissions(r).contains(p),
    ensures
        is_commanding(r),
        p == Permission::Reboot ==> r == Role::MissionCommander,
{
    if !is_commanding(r) || (p == Permission::Reboot && r != Role::MissionCommander) {
        let k = choose|k: int| 0 <= k < role_permissions(r).len() && role_permissions(r)[k] == p;
        assert(role_permissions(r)[k] == p);
    }
}

/// Where the first user with this user name stands (the number of users
/// when none has it).
pub open spec fn first_named(us: Seq<User>, name: Seq<char>) -> int
    decreases us.len(),
{
    if us.len() == 0 {
        0
    } else if us[0].username@ == name {
        0
    } else {
        1 + first_named(us.drop_first(), name)
    }
}

/// `first_named` lies within the users, past none with the name.
pub proof fn lemma_first_named_bounds(us: Seq<User>, name: Seq<char>)
    ensures
        0 <= first_named(us, name) <= us.len(),
        first_named(us, name) < us.len() ==> us[first_named(us, name)].username@ == name,
    decreases us.len(),
{
    if us.len() > 0 && us[0].username@ != name {
        lemma_first_named_bounds(us.drop_first(), name);
    }
}

/// A new user record.
pub open spec fn fresh_user(u: User, id: Seq<char>, username: Seq<char>, role: Role) -> bool {
    &&& u.id@ == id
    &&& u.username@ == username
    &&& u.role == role
    &&& u.mfa_enabled
    &&& u.mfa_secret is None
    &&& !u.active_session
    &&& u.last_login is None
    &&& u.failed_attempts == 0
    &&& !u.locked
}

/// A session opened at `now` for the user `u` from `ip`.
pub open spec fn session_opened(s: Session, id: Seq<char>, u: User, ip: Seq<char>, now: i64, timeout_minutes: u64) -> bool {
    &&& s.id@ == id
    &&& s.user_id@ == u.id@
    &&& s.username@ == u.username@
    &&& s.role == u.role
    &&& s.created_at == now
    &&& s.expires_at == now + timeout_minutes * 60_000
    &&& s.mfa_verified
    &&& s.ip_address@ == ip
}

/// The user `u1` is `u0` after logging in at the time written `login`.
pub open spec fn logged_in(u0: User, u1: User, login: Seq<char>) -> bool {
    &&& u1.id@ == u0.id@
    &&& u1.username@ == u0.username@
    &&& u1.role == u0.role
    &&& u1.mfa_enabled == u0.mfa_enabled
    &&& u1.mfa_secret is Some == u0.mfa_secret is Some
    &&& (u0.mfa_secret matches Some(x) ==> u1.mfa_secret matches Some(y) && y@ == x@)
    &&& u1.active_session
    &&& u1.last_login matches Some(t) && t@ == login
    &&& u1.failed_attempts == 0
    &&& u1.locked == u0.locked
}

/// The position of the last session with this identifier.
pub open spec fn last_session(ss: Seq<Session>, id: Seq<char>) -> Option<int>
    decreases ss.len(),
{
    if ss.len() == 0 {
        None
    } else if ss.last().id@ == id {
        Some(ss.len() - 1)
    } else {
        last_session(ss.drop_last(), id)
    }
}

impl RbacSystem {
    #[verifier::type_invariant]
    spec fn well_formed(self) -> bool {
        &&& distinct_users(self.users@)
        &&& self.session_timeout_minutes <= 525_600
    }

    /// The users.
    pub closed spec fn users(self) -> Seq<User> {
        self.users@
    }

    /// The sessions, in the order they were opened.
    pub closed spec fn sessions(self) -> Seq<Session> {
        self.sessions@
    }

    /// The audit log, oldest first.
    pub closed spec fn audit_entries(self) -> Seq<AuditEntry> {
        self.audit_log@
    }

    /// The session lifetime, in minutes.
    pub closed spec fn timeout_minutes(self) -> u64 {
        self.session_timeout_minutes
    }

    /// The number of failed logins that locks an account.
    pub closed spec fn lockout_threshold(self) -> u32 {
        self.max_failed_attempts
    }

    /// An empty system: sessions last 8 hours; 5 failed logins lock an
    /// account.
    pub fn new() -> (s: Self)
        ensures
            s.users().len() == 0,
            s.sessions().len() == 0,
            s.audit_entries().len() == 0,
            s.timeout_minutes() == 480,
            s.lockout_threshold() == 5,
    {
        RbacSystem {
            users: Vec::new(),
            sessions: Vec::new(),
            audit_log: Vec::new(),
            session_timeout_minutes: 480,
            max_failed_attempts: 5,
        }
    }

    /// Position of the user with this identifier.
    fn find_user(us: &Vec<User>, id: &str) -> (r: Option<usize>)
        ensures
            match r {
                Some(k) => k < us@.len() && us@[k as int].id@ == id@,
                None => !has_user(us@, id@),
            },
    {
        let mut i: usize = 0;
        while i < us.len()
            invariant
                i <= us@.len(),
                forall|j: int| 0 <= j < i ==> us@[j].id@ != id@,
            decreases us@.len() - i,
        {
            if str_eq(us[i].id.as_str(), id) {
                return Some(i);
            }
            i = i + 1;
        }
        None
    }

    /// How many users are registered.
    pub fn user_count(&self) -> (n: usize)
        ensures
            n == self.users().len(),
    {
        self.users.len()
    }

    /// The first user with this user name: its identifier and role.
    pub fn find_by_username(&self, username: &str) -> (r: Option<(String, Role)>)
        ensures
            ({
                let k = first_named(self.users(), username@);
                if k < self.users().len() {
                    r matches Some(f) && f.0@ == self.users()[k].id@ && f.1 == self.users()[k].role
                } else {
                    r is None
                }
            }),
    {
        let us = &self.users;
        let mut i: usize = 0;
        proof {
            assert(us@.skip(0) =~= us@);
            lemma_first_named_bounds(us@, username@);
        }
        while i < us.len()
            invariant
                i <= us@.len(),
                us@ == self.users(),
                first_named(us@, username@) == i + first_named(us@.skip(i as int), username@),
                0 <= first_named(us@.skip(i as int), username@) <= us@.len() - i,
            decreases us@.len() - i,
        {
            proof {
                assert(us@.skip(i as int).drop_first() =~= us@.skip(i + 1));
                assert(us@.skip(i as int)[0] == us@[i as int]);
                lemma_first_named_bounds(us@.skip(i + 1), username@);
            }
            if str_eq(us[i].username.as_str(), username) {
                return Some((us[i].id.clone(), us[i].role));
            }
            i = i + 1;
        }
        proof {
            assert(us@.skip(i as int).len() == 0);
        }
        None
    }

    /// Registers a user whose identifier is "USR-" followed by the first
    /// group of `uuid`; MFA is required. A user with the same identifier is
    /// replaced.
    pub fn create_user_from_uuid(&mut self, username: &str, role: Role, uuid: &str) -> (id: String)
        requires
            is_hyphenated_uuid(uuid@),
        ensures
            id@ == "USR-"@ + uuid@.take(8),
            final(self).sessions() == old(self).sessions(),
            final(self).audit_entries() == old(self).audit_entries(),
            final(self).timeout_minutes() == old(self).timeout_minutes(),
            has_user(old(self).users(), id@) ==> {
                &&& final(self).users().len() == old(self).users().len()
                &&& forall|k: int| 0 <= k < old(self).users().len() ==> if old(self).users()[k].id@ == id@ {
                    fresh_user(final(self).users()[k], id@, username@, role)
                } else {
                    final(self).users()[k] == old(self).users()[k]
                }
            },
            !has_user(old(self).users(), id@) ==> {
                &&& final(self).users().len() == old(self).users().len() + 1
                &&& final(self).users().take(old(self).users().len() as int) == old(self).users()
                &&& fresh_user(final(self).users().last(), id@, username@, role)
            },
    {
        proof {
            use_type_invariant(&*self);
        }
        let id = Self::prefixed_id("USR-", uuid);
        let found = Self::find_user(&self.users, id.as_str());
        let user = User {
            id: id.clone(),
            username: username.to_owned(),
            role,
            mfa_enabled: true,
            mfa_secret: None,
            active_session: false,
            last_login: None,
            failed_attempts: 0,
            locked: false,
        };
        let mut us: Vec<User> = Vec::new();
        std::mem::swap(&mut us, &mut self.users);
        let ghost before = us@;
        match found {
            Some(k) => {
                us.set(k, user);
                proof {
                    assert forall|i: int, j: int| 0 <= i < j < us@.len() implies us@[i].id@ != us@[j].id@ by {
                        if i == k as int || j == k as int {
                            assert(before[k as int].id@ == us@[k as int].id@);
                        }
                    }
                    assert forall|i: int| 0 <= i < before.len() && before[i].id@ == id@ implies i == k as int by {
                        if i != k as int {
                            assert(before[i].id@ == before[k as int].id@);
                        }
                    }
                }
            },
            None => {
                us.push(user);
                proof {
                    assert(us@.take(before.len() as int) =~= before);
                }
            },
        }
        self.users = us;
        id
    }

    /// Registers a user with a random identifier.
    pub fn create_user(&mut self, username: &str, role: Role) -> (id: String)
        ensures
            exists|g: Seq<char>| is_hyphenated_uuid(g) && id@ == "USR-"@ + g.take(8),
            final(self).sessions() == old(self).sessions(),
            final(self).audit_entries() == old(self).audit_entries(),
            has_user(final(self).users(), id@),
            forall|k: int| 0 <= k < final(self).users().len() && final(self).users()[k].id@ == id@
                ==> fresh_user(final(self).users()[k], id@, username@, role),
            forall|k: int| 0 <= k < old(self).users().len() && old(self).users()[k].id@ != id@
                ==> final(self).users()[k] == old(self).users()[k],
    {
        let uuid = uuid_v4_string();
        let id = self.create_user_from_uuid(username, role, uuid.as_str());
        proof {
            use_type_invariant(&*self);
            if has_user(old(self).users(), id@) {
                let k = choose|k: int| 0 <= k < old(self).users().len() && old(self).users()[k].id@ == id@;
                assert(final(self).users()[k].id@ == id@);
            } else {
                assert(final(self).users().last().id@ == id@);
                assert(final(self).users()[final(self).users().len() - 1].id@ == id@);
                assert forall|k: int| 0 <= k < old(self).users().len() implies final(self).users()[k] == old(self).users()[k] by {
                    assert(final(self).users().take(old(self).users().len() as int)[k] == final(self).users()[k]);
                }
            }
        }
        id
    }

    /// `prefix` followed by the first group (8 characters) of a UUID.
    fn prefixed_id(prefix: &str, uuid: &str) -> (id: String)
        requires
            is_hyphenated_uuid(uuid@),
        ensures
            id@ == prefix@ + uuid@.take(8),
    {
        let cs = chars_of(uuid);
        let mut head: Vec<char> = Vec::new();
        let mut i: usize = 0;
        while i < 8
            invariant
                i <= 8,
                cs@ == uuid@,
                cs@.len() == 36,
                head@ == cs@.take(i as int),
            decreases 8 - i,
        {
            head.push(cs[i]);
            i = i + 1;
            proof {
                assert(head@ =~= cs@.take(i as int));
            }
        }
        let tail = string_of(head.as_slice());
        concat2(prefix, tail.as_str())
    }

    /// Whether a user may use a permission, as `permission_answer` says.
    pub fn check_permission(&self, user_id: &str, permission: &Permission) -> (r: RbacResult)
        ensures
            answer_of(r) == permission_answer(self.users(), user_id@, *permission),
    {
        proof {
            use_type_invariant(self);
        }
        let k = match Self::find_user(&self.users, user_id) {
            None => {
                return RbacResult::Denied("User not found".to_string());
            },
            Some(k) => k,
        };
        proof {
            self.lemma_user_of(user_id@, k as int);
        }
        let user = &self.users[k];
        if user.locked {
            return RbacResult::Denied("Account locked".to_string());
        }
        if !user.role.has_permission(permission) {
            let mut m = concat2("Role ", user.role.name().as_str());
            m.append(" lacks permission ");
            m.append(permission.name().as_str());
            return RbacResult::Denied(m);
        }
        let needs_dual_auth = match permission {
            Permission::SendCriticalCommand => true,
            Permission::SafeMode => true,
            Permission::Reboot => true,
            _ => false,
        };
        if needs_dual_auth {
            return RbacResult::RequiresDualAuth;
        }
        RbacResult::Granted
    }

    /// The user at `k` is the one `user_of` names.
    proof fn lemma_user_of(self, id: Seq<char>, k: int)
        requires
            distinct_users(self.users@),
            0 <= k < self.users@.len(),
            self.users@[k].id@ == id,
        ensures
            has_user(self.users(), id),
            user_of(self.users(), id) == self.users@[k],
    {
        let c = choose|j: int| 0 <= j < self.users@.len() && self.users@[j].id@ == id;
        assert(c == k) by {
            if c != k {
                assert(self.users@[c].id@ == self.users@[k].id@);
            }
        }
    }

    /// Dual authorization of `permission` by two users, as `dual_answer`
    /// says.
    pub fn dual_authorization(&self, primary_user_id: &str, secondary_user_id: &str, permission: &Permission) -> (r: RbacResult)
        ensures
            answer_of(r) == dual_answer(self.users(), primary_user_id@, secondary_user_id@, *permission),
    {
        proof {
            use_type_invariant(self);
        }
        let kp = match Self::find_user(&self.users, primary_user_id) {
            None => {
                return RbacResult::Denied("Primary user not found".to_string());
            },
            Some(k) => k,
        };
        let ks = match Self::find_user(&self.users, secondary_user_id) {
            None => {
                return RbacResult::Denied("Secondary user not found".to_string());
            },
            Some(k) => k,
        };
        proof {
            self.lemma_user_of(primary_user_id@, kp as int);
            self.lemma_user_of(secondary_user_id@, ks as int);
        }
        let primary = &self.users[kp];
        let secondary = &self.users[ks];
        let primary_ok = primary.role.has_permission(permission);
        let secondary_ok = secondary.role.has_permission(permission);
        if !primary_ok || !secondary_ok {
            return RbacResult::Denied("Insufficient permissions for dual auth".to_string());
        }
        if str_eq(primary_user_id, secondary_user_id) {
            return RbacResult::Denied("Self-authorization not allowed".to_string());
        }
        let has_commander = primary.role == Role::MissionCommander || primary.role == Role::FlightDirector
            || secondary.role == Role::MissionCommander || secondary.role == Role::FlightDirector;
        if !has_commander {
            return RbacResult::Denied("At least one Flight Director required for dual auth".to_string());
        }
        RbacResult::Granted
    }
}


/// Checks on the shape of TOTP codes.
pub struct TotpValidator;

impl RbacSystem {
    /// Appends an audit record for `user_id` made at `now`; its identifier
    /// is "AUD-" followed by the first group of `uuid`.
    pub fn audit_at(
        &mut self,
        user_id: &str,
        action: &str,
        resource: &str,
        result: AuditResult,
        details: &str,
        now: i64,
        uuid: &str,
    )
        requires
            is_hyphenated_uuid(uuid@),
        ensures
            final(self).users() == old(self).users(),
            final(self).sessions() == old(self).sessions(),
            final(self).timeout_minutes() == old(self).timeout_minutes(),
            final(self).audit_entries().len() == old(self).audit_entries().len() + 1,
            final(self).audit_entries().take(old(self).audit_entries().len() as int) == old(self).audit_entries(),
            ({
                let e = final(self).audit_entries().last();
                &&& e.id@ == "AUD-"@ + uuid@.take(8)
                &&& e.timestamp == now
                &&& e.user_id@ == user_id@
                &&& e.action@ == action@
                &&& e.resource@ == resource@
                &&& e.result == result
                &&& e.details@ == details@
            }),
    {
        proof {
            use_type_invariant(&*self);
        }
        let entry = AuditEntry {
            id: Self::prefixed_id("AUD-", uuid),
            timestamp: now,
            user_id: user_id.to_owned(),
            action: action.to_owned(),
            resource: resource.to_owned(),
            result,
            details: details.to_owned(),
        };
        let mut log: Vec<AuditEntry> = Vec::new();
        std::mem::swap(&mut log, &mut self.audit_log);
        let ghost before = log@;
        log.push(entry);
        proof {
            assert(log@.take(before.len() as int) =~= before);
        }
        self.audit_log = log;
    }

    /// Appends an audit record made now, with a random identifier.
    pub fn audit(&mut self, user_id: &str, action: &str, resource: &str, result: AuditResult, details: &str)
        ensures
            final(self).users() == old(self).users(),
            final(self).sessions() == old(self).sessions(),
            final(self).audit_entries().len() == old(self).audit_entries().len() + 1,
            final(self).audit_entries().take(old(self).audit_entries().len() as int) == old(self).audit_entries(),
            ({
                let e = final(self).audit_entries().last();
                &&& in_clock_range(e.timestamp)
                &&& e.user_id@ == user_id@
                &&& e.action@ == action@
                &&& e.resource@ == resource@
                &&& e.result == result
                &&& e.details@ == details@
            }),
    {
        let uuid = uuid_v4_string();
        let now = now_millis();
        self.audit_at(user_id, action, resource, result, details, now, uuid.as_str());
    }

    /// The audit log, oldest first.
    pub fn get_audit_log(&self) -> (log: &[AuditEntry])
        ensures
            log@ == self.audit_entries(),
    {
        self.audit_log.as_slice()
    }

    /// Opens a session for `user_id` from `ip` at `now`: refused for an
    /// unknown or locked user, or one without MFA. The session lasts the
    /// configured timeout; its identifier is "SES-" followed by the first
    /// group of `uuid`. The user is marked as logged in, with `login_text`
    /// as the time of the login, and its failed attempts are reset.
    pub fn create_session_at(&mut self, user_id: &str, ip: &str, now: i64, uuid: &str, login_text: String) -> (r: Result<String, String>)
        requires
            in_clock_range(now),
            is_hyphenated_uuid(uuid@),
        ensures
            final(self).audit_entries() == old(self).audit_entries(),
            final(self).timeout_minutes() == old(self).timeout_minutes(),
            match r {
                Err(m) => {
                    &&& final(self).users() == old(self).users()
                    &&& final(self).sessions() == old(self).sessions()
                    &&& m@ == (if !has_user(old(self).users(), user_id@) {
                        "User not found"@
                    } else if user_of(old(self).users(), user_id@).locked {
                        "Account locked"@
                    } else {
                        "MFA required but not enabled"@
                    })
                    &&& (has_user(old(self).users(), user_id@) ==> user_of(old(self).users(), user_id@).locked
                        || !user_of(old(self).users(), user_id@).mfa_enabled)
                },
                Ok(sid) => {
                    let u = user_of(old(self).users(), user_id@);
                    &&& has_user(old(self).users(), user_id@)
                    &&& !u.locked
                    &&& u.mfa_enabled
                    &&& sid@ == "SES-"@ + uuid@.take(8)
                    &&& final(self).sessions() == old(self).sessions().push(final(self).sessions().last())
                    &&& session_opened(final(self).sessions().last(), sid@, u, ip@, now, old(self).timeout_minutes())
                    &&& final(self).users().len() == old(self).users().len()
                    &&& forall|k: int| 0 <= k < old(self).users().len() ==> if old(self).users()[k].id@ == user_id@ {
                        logged_in(old(self).users()[k], final(self).users()[k], login_text@)
                    } else {
                        final(self).users()[k] == old(self).users()[k]
                    }
                },
            },
    {
        proof {
            use_type_invariant(&*self);
        }
        let k = match Self::find_user(&self.users, user_id) {
            None => {
                return Err("User not found".to_string());
            },
            Some(k) => k,
        };
        proof {
            self.lemma_user_of(user_id@, k as int);
        }
        if self.users[k].locked {
            return Err("Account locked".to_string());
        }
        if !self.users[k].mfa_enabled {
            return Err("MFA required but not enabled".to_string());
        }
        let session_id = Self::prefixed_id("SES-", uuid);
        let lifetime_ms: i64 = (self.session_timeout_minutes as i64) * 60_000;
        let session = Session {
            id: session_id.clone(),
            user_id: user_id.to_owned(),
            username: self.users[k].username.clone(),
            role: self.users[k].role,
            created_at: now,
            expires_at: now + lifetime_ms,
            mfa_verified: true,
            ip_address: ip.to_owned(),
        };
        let mut ss: Vec<Session> = Vec::new();
        std::mem::swap(&mut ss, &mut self.sessions);
        ss.push(session);
        self.sessions = ss;
        let u = &self.users[k];
        let updated = User {
            id: u.id.clone(),
            username: u.username.clone(),
            role: u.role,
            mfa_enabled: u.mfa_enabled,
            mfa_secret: match &u.mfa_secret {
                Some(x) => Some(x.clone()),
                None => None,
            },
            active_session: true,
            last_login: Some(login_text),
            failed_attempts: 0,
            locked: u.locked,
        };
        let mut us: Vec<User> = Vec::new();
        std::mem::swap(&mut us, &mut self.users);
        let ghost before = us@;
        us.set(k, updated);
        proof {
            assert forall|i: int, j: int| 0 <= i < j < us@.len() implies us@[i].id@ != us@[j].id@ by {
                if i == k as int || j == k as int {
                    assert(before[k as int].id@ == us@[k as int].id@);
                }
            }
            assert forall|i: int| 0 <= i < before.len() && before[i].id@ == user_id@ implies i == k as int by {
                if i != k as int {
                    assert(before[i].id@ == before[k as int].id@);
                }
            }
        }
        self.users = us;
        Ok(session_id)
    }

    /// Opens a session for `user_id` from `ip` now, with a random
    /// identifier.
    pub fn create_session(&mut self, user_id: &str, ip: &str) -> (r: Result<String, String>)
        ensures
            final(self).audit_entries() == old(self).audit_entries(),
            match r {
                Err(m) => {
                    &&& final(self).users() == old(self).users()
                    &&& final(self).sessions() == old(self).sessions()
                    &&& m@ == (if !has_user(old(self).users(), user_id@) {
                        "User not found"@
                    } else if user_of(old(self).users(), user_id@).locked {
                        "Account locked"@
                    } else {
                        "MFA required but not enabled"@
                    })
                },
                Ok(sid) => {
                    let u = user_of(old(self).users(), user_id@);
                    &&& has_user(old(self).users(), user_id@)
                    &&& !u.locked
                    &&& u.mfa_enabled
                    &&& exists|now: i64| in_clock_range(now)
                        && session_opened(final(self).sessions().last(), sid@, u, ip@, now, old(self).timeout_minutes())
                    &&& final(self).sessions() == old(self).sessions().push(final(self).sessions().last())
                },
            },
    {
        let uuid = uuid_v4_string();
        let now = now_millis();
        let login_text = now_rfc3339();
        self.create_session_at(user_id, ip, now, uuid.as_str(), login_text)
    }

    /// The most recent session with this identifier, when it has not
    /// expired at `now`.
    pub fn validate_session_at(&self, session_id: &str, now: i64) -> (r: Option<&Session>)
        ensures
            match last_session(self.sessions(), session_id@) {
                Some(k) => if now < self.sessions()[k].expires_at {
                    r == Some(&self.sessions()[k])
                } else {
                    r is None
                },
                None => r is None,
            },
    {
        let ss = &self.sessions;
        let mut i: usize = ss.len();
        proof {
            assert(ss@.take(ss@.len() as int) =~= ss@);
        }
        while i > 0
            invariant
                i <= ss@.len(),
                ss@ == self.sessions(),
                last_session(ss@, session_id@) == last_session(ss@.take(i as int), session_id@),
            decreases i,
        {
            proof {
                assert(ss@.take(i as int).drop_last() =~= ss@.take(i - 1));
                assert(ss@.take(i as int).last() == ss@[i - 1]);
            }
            if str_eq(ss[i - 1].id.as_str(), session_id) {
                proof {
                    assert(ss@.take(i as int).len() == i);
                    assert(last_session(ss@.take(i as int), session_id@) == Some((i - 1) as int));
                    assert(self.sessions() == ss@);
                }
                if now < ss[i - 1].expires_at {
                    return Some(&ss[i - 1]);
                } else {
                    return None;
                }
            }
            i = i - 1;
        }
        None
    }

    /// The most recent session with this identifier, when it has not
    /// expired now.
    pub fn validate_session(&self, session_id: &str) -> (r: Option<&Session>)
        ensures
            exists|now: i64| #[trigger] in_clock_range(now) && match last_session(self.sessions(), session_id@) {
                Some(k) => if now < self.sessions()[k].expires_at {
                    r == Some(&self.sessions()[k])
                } else {
                    r is None
                },
                None => r is None,
            },
    {
        let now = now_millis();
        self.validate_session_at(session_id, now)
    }
}

impl TotpValidator {
    /// A new TOTP secret: the hex text of the big-endian bytes of a random
    /// 64-bit number.
    pub fn generate_secret() -> (s: String)
        ensures
            s@.len() == 16,
            forall|i: int| 0 <= i < 16 ==> is_lower_hex(#[trigger] s@[i]),
    {
        let x = random_u64();
        let bytes: [u8; 8] = [
            (x >> 56) as u8,
            (x >> 48) as u8,
            (x >> 40) as u8,
            (x >> 32) as u8,
            (x >> 24) as u8,
            (x >> 16) as u8,
            (x >> 8) as u8,
            x as u8,
        ];
        let s = hex_encode(vstd::array::array_as_slice(&bytes));
        proof {
            lemma_hex_is_lower(bytes@);
        }
        s
    }

    /// Whether `code` has the shape of a TOTP code: six ASCII digits. The
    /// secret is not used: codes are not checked against it.
    pub fn verify(secret: &str, code: &str) -> (ok: bool)
        ensures
            ok == (code@.len() == 6 && forall|i: int| 0 <= i < code@.len() ==> is_digit(#[trigger] code@[i])),
    {
        let cs = chars_of(code);
        if cs.len() != 6 {
            return false;
        }
        let mut i: usize = 0;
        while i < 6
            invariant
                i <= 6,
                cs@ == code@,
                cs@.len() == 6,
                forall|j: int| 0 <= j < i ==> is_digit(cs@[j]),
            decreases 6 - i,
        {
            if !char_is_digit(cs[i]) {
                return false;
            }
            i = i + 1;
        }
        true
    }
}

/// The hex text of bytes is twice as long and made of lower-case hex
/// digits.
proof fn lemma_hex_is_lower(data: Seq<u8>)
    ensures
        spec_hex(data).len() == 2 * data.len(),
        forall|i: int| 0 <= i < spec_hex(data).len() ==> is_lower_hex(#[trigger] spec_hex(data)[i]),
    decreases data.len(),
{
    if data.len() > 0 {
        lemma_hex_is_lower(data.drop_first());
        let d0 = data[0] / 16;
        let d1 = data[0] % 16;
        assert(is_lower_hex(crate::hashing::hex_digit(d0)));
        assert(is_lower_hex(crate::hashing::hex_digit(d1)));
        let rest = spec_hex(data.drop_first());
        assert forall|i: int| 0 <= i < spec_hex(data).len() implies is_lower_hex(#[trigger] spec_hex(data)[i]) by {
            if i >= 2 {
                assert(spec_hex(data)[i] == rest[i - 2]);
            }
        }
    }
}

} // verus!
