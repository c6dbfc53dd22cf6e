//! Role-based access control extended with capabilities for the
//! distributed nodes: each role holds (action, resource, scope)
//! permissions, sessions carry the capabilities of their role and
//! expire. Times are Unix milliseconds.

use vstd::prelude::*;
use crate::clock::{now_millis, in_clock_range};
use crate::entropy::{uuid_v4_string, is_hyphenated_uuid};
use crate::security::{SecurityError, SecurityResult};
use crate::text::{str_eq, concat2};

verus! {

/// Role of a principal.
#[derive(Debug, Clone, Copy, PartialEq, Eq, Hash, Structural)]
pub enum Role {
    MissionCommander,
    FlightDirector,
    Scientist,
    Engineer,
    Operator,
    Observer,
    AutonomousSystem,
}

/// Highest classification of data a role may see.
#[derive(Debug, Clone, Copy, PartialEq, Eq, Structural)]
pub enum ClearanceLevel {
    Public,
    Internal,
    Confidential,
    Secret,
    TopSecret,
}

/// Scope of a permission.
#[derive(Debug, PartialEq, Eq, Hash)]
pub enum PermissionScope {
    Global,
    Node(String),
    Agency(String),
    System(String),
}

impl Clone for PermissionScope {
    fn clone(&self) -> (r: Self)
        ensures
            r == *self,
    {
        match self {
            PermissionScope::Global => PermissionScope::Global,
            PermissionScope::Node(s) => PermissionScope::Node(s.clone()),
            PermissionScope::Agency(s) => PermissionScope::Agency(s.clone()),
            PermissionScope::System(s) => PermissionScope::System(s.clone()),
        }
    }
}

/// A capability: an action on a resource, within a scope. "*" as the
/// action stands for any action, "*" as the resource for any resource,
/// and a resource ending in ".*" for every resource under that prefix.
#[derive(Debug, PartialEq, Eq, Hash)]
pub struct Permission {
    pub action: String,
    pub resource: String,
    pub scope: PermissionScope,
}

impl Clone for Permission {
    fn clone(&self) -> (r: Self)
        ensures
            r == *self,
    {
        Permission { action: self.action.clone(), resource: self.resource.clone(), scope: self.scope.clone() }
    }
}

/// A role with its permissions.
#[derive(Debug)]
pub struct RoleDefinition {
    pub role: Role,
    pub permissions: Vec<Permission>,
    pub description: String,
    pub max_classification: ClearanceLevel,
}

/// Identifier of a session.
#[derive(Debug, PartialEq, Eq, Hash)]
pub struct SessionId(pub String);

impl Clone for SessionId {
    fn clone(&self) -> (r: Self)
        ensures
            r == *self,
    {
        SessionId(self.0.clone())
    }
}

/// An authenticated session.
#[derive(Debug)]
pub struct AuthenticatedSession {
    pub session_id: SessionId,
    pub principal: String,
    pub role: Role,
    pub capabilities: Vec<Permission>,
    pub created_at: i64,
    pub expires_at: i64,
    pub node_id: String,
}

/// Whether a permission's resource pattern covers a resource.
pub open spec fn resource_covers(pattern: Seq<char>, resource: Seq<char>) -> bool {
    ||| pattern == "*"@
    ||| pattern == resource
    ||| (pattern.len() >= 2 && pattern.subrange(pattern.len() - 2, pattern.len() as int) == ".*"@
        && resource.len() >= pattern.len() - 1 && resource.take(pattern.len() - 1) == pattern.take(pattern.len() - 1))
}

/// Whether a permission allows an action on a resource.
pub open spec fn permits(p: Permission, action: Seq<char>, resource: Seq<char>) -> bool {
    (p.action@ == "*"@ || p.action@ == action) && resource_covers(p.resource@, resource)
}

/// Whether some capability allows the action on the resource.
pub open spec fn capabilities_allow(caps: Seq<Permission>, action: Seq<char>, resource: Seq<char>) -> bool {
    exists|k: int| 0 <= k < caps.len() && permits(caps[k], action, resource)
}

/// Whether some capability is the full wildcard ("*" on "*").
pub open spec fn has_full_wildcard(caps: Seq<Permission>) -> bool {
    exists|k: int| 0 <= k < caps.len() && caps[k].action@ == "*"@ && caps[k].resource@ == "*"@
}

impl AuthenticatedSession {
    /// Whether the session's capabilities allow `action` on `resource`.
    pub fn has_permission(&self, action: &str, resource: &str) -> (b: bool)
        ensures
            b == capabilities_allow(self.capabilities@, action@, resource@),
    {
        let caps = &self.capabilities;
        let mut i: usize = 0;
        while i < caps.len()
            invariant
                i <= caps@.len(),
                caps@ == self.capabilities@,
                forall|j: int| 0 <= j < i ==> !permits(caps@[j], action@, resource@),
            decreases caps@.len() - i,
        {
            if permission_allows(&caps[i], action, resource) {
                proof {
                    assert(permits(caps@[i as int], action@, resource@));
                    assert(caps@[i as int] == self.capabilities@[i as int]);
                }
                return true;
            }
            i = i + 1;
        }
        false
    }

    /// Whether the session is still valid at `now`.
    pub fn is_valid_at(&self, now: i64) -> (b: bool)
        ensures
            b == (now <= self.expires_at),
    {
        now <= self.expires_at
    }

    /// Whether the session is still valid now.
    pub fn is_valid(&self) -> (b: bool)
        ensures
            exists|now: i64| in_clock_range(now) && b == (now <= self.expires_at),
    {
        let now = now_millis();
        self.is_valid_at(now)
    }
}

/// Whether a resource pattern covers a resource.
fn covers(pattern: &str, resource: &str) -> (b: bool)
    ensures
        b == resource_covers(pattern@, resource@),
{
    let p = crate::text::chars_of(pattern);
    let r = crate::text::chars_of(resource);
    if str_eq(pattern, "*") || str_eq(pattern, resource) {
        return true;
    }
    let n = p.len();
    if n < 2 || p[n - 2] != '.' || p[n - 1] != '*' {
        proof {
            reveal_strlit(".*");
            if n >= 2 {
                if p@.subrange(n - 2, n as int) == ".*"@ {
                    assert(p@.subrange(n - 2, n as int)[0] == p@[n - 2]);
                    assert(p@.subrange(n - 2, n as int)[1] == p@[n - 1]);
                }
            }
        }
        return false;
    }
    proof {
        reveal_strlit(".*");
        assert(p@.subrange(n - 2, n as int) =~= ".*"@);
    }
    if r.len() < n - 1 {
        proof {
            assert(r@.len() == resource@.len());
            assert(pattern@.len() == n);
            assert(!(resource@.len() >= pattern@.len() - 1));
        }
        return false;
    }
    let mut i: usize = 0;
    while i < n - 1
        invariant
            n == p@.len(),
            p@ == pattern@,
            r@ == resource@,
            pattern@ != "*"@,
            pattern@ != resource@,
            n >= 2,
            r@.len() >= n - 1,
            i <= n - 1,
            forall|j: int| 0 <= j < i ==> r@[j] == p@[j],
        decreases n - 1 - i,
    {
        if r[i] != p[i] {
            proof {
                assert(r@.take(n - 1)[i as int] != p@.take(n - 1)[i as int]);
            }
            return false;
        }
        i = i + 1;
    }
    proof {
        assert(r@.take(n - 1) =~= p@.take(n - 1));
    }
    true
}

/// Whether a permission allows an action on a resource.
fn permission_allows(p: &Permission, action: &str, resource: &str) -> (b: bool)
    ensures
        b == permits(*p, action@, resource@),
{
    (str_eq(p.action.as_str(), "*") || str_eq(p.action.as_str(), action)) && covers(p.resource.as_str(), resource)
}


/// A permission with this action and resource.
pub open spec fn perm_is(p: Permission, action: Seq<char>, resource: Seq<char>) -> bool {
    p.action@ == action && p.resource@ == resource
}

/// The capabilities each role grants, in order.
pub open spec fn role_grants(role: Role, ps: Seq<Permission>) -> bool {
    match role {
        Role::MissionCommander => ps.len() == 1
            && perm_is(ps[0], "*"@, "*"@) && ps[0].scope == PermissionScope::Global,
        Role::FlightDirector => ps.len() == 4
            && perm_is(ps[0], "command"@, "rover.*"@) && ps[0].scope == PermissionScope::Global
            && perm_is(ps[1], "command"@, "habitat.*"@) && ps[1].scope == PermissionScope::Global
            && perm_is(ps[2], "read"@, "telemetry.*"@) && ps[2].scope == PermissionScope::Global
            && perm_is(ps[3], "execute"@, "scheduler.*"@) && ps[3].scope == PermissionScope::Global,
        Role::Scientist => ps.len() == 3
            && perm_is(ps[0], "read"@, "science_data.*"@) && ps[0].scope == PermissionScope::Global
            && perm_is(ps[1], "analyze"@, "science_data.*"@) && ps[1].scope == PermissionScope::Global
            && perm_is(ps[2], "read"@, "telemetry.*"@) && ps[2].scope == PermissionScope::Global,
        Role::Engineer => ps.len() == 1
            && perm_is(ps[0], "maintain"@, "system.*"@) && ps[0].scope == PermissionScope::Global,
        Role::Operator => ps.len() == 2
            && perm_is(ps[0], "read"@, "status.*"@) && ps[0].scope == PermissionScope::Global
            && perm_is(ps[1], "monitor"@, "health.*"@) && ps[1].scope == PermissionScope::Global,
        Role::Observer => ps.len() == 1
            && perm_is(ps[0], "read"@, "status.*"@) && ps[0].scope == PermissionScope::Global,
        Role::AutonomousSystem => ps.len() == 3
            && perm_is(ps[0], "*"@, "internal.*"@) && (ps[0].scope matches PermissionScope::System(s) && s@ == "spaceone"@)
            && perm_is(ps[1], "read"@, "health.*"@) && ps[1].scope == PermissionScope::Global
            && perm_is(ps[2], "actuate"@, "recovery.*"@) && ps[2].scope == PermissionScope::Global,
    }
}

/// The definition of a role: its description and clearance.
pub open spec fn role_described(role: Role, d: Seq<char>, c: ClearanceLevel) -> bool {
    match role {
        Role::MissionCommander => d == "Full access to all systems and data"@ && c == ClearanceLevel::TopSecret,
        Role::FlightDirector => d == "Operational command and telemetry access"@ && c == ClearanceLevel::Secret,
        Role::Scientist => d == "Science data access and analysis"@ && c == ClearanceLevel::Confidential,
        Role::Engineer => d == "System maintenance"@ && c == ClearanceLevel::Internal,
        Role::Operator => d == "Monitoring and basic operations"@ && c == ClearanceLevel::Internal,
        Role::Observer => d == "Read-only consultation"@ && c == ClearanceLevel::Public,
        Role::AutonomousSystem => d == "Autonomous system actions"@ && c == ClearanceLevel::Secret,
    }
}

/// The role at each position of the standard table.
pub open spec fn role_at(k: int) -> Role {
    if k == 0 {
        Role::MissionCommander
    } else if k == 1 {
        Role::FlightDirector
    } else if k == 2 {
        Role::Scientist
    } else if k == 3 {
        Role::Engineer
    } else if k == 4 {
        Role::Operator
    } else if k == 5 {
        Role::Observer
    } else {
        Role::AutonomousSystem
    }
}

/// The standard role table.
fn standard_roles() -> (rs: Vec<RoleDefinition>)
    ensures
        rs@.len() == 7,
        forall|k: int| 0 <= k < 7 ==> #[trigger] rs@[k].role == role_at(k) && role_grants(role_at(k), rs@[k].permissions@)
            && role_described(role_at(k), rs@[k].description@, rs@[k].max_classification),
{
    let mut rs: Vec<RoleDefinition> = Vec::new();
    let mut ps: Vec<Permission> = Vec::new();
    ps.push(Permission { action: "*".to_string(), resource: "*".to_string(), scope: PermissionScope::Global });
    rs.push(RoleDefinition { role: Role::MissionCommander, permissions: ps, description: "Full access to all systems and data".to_string(), max_classification: ClearanceLevel::TopSecret });
    let mut ps: Vec<Permission> = Vec::new();
    ps.push(Permission { action: "command".to_string(), resource: "rover.*".to_string(), scope: PermissionScope::Global });
    ps.push(Permission { action: "command".to_string(), resource: "habitat.*".to_string(), scope: PermissionScope::Global });
    ps.push(Permission { action: "read".to_string(), resource: "telemetry.*".to_string(), scope: PermissionScope::Global });
    ps.push(Permission { action: "execute".to_string(), resource: "scheduler.*".to_string(), scope: PermissionScope::Global });
    rs.push(RoleDefinition { role: Role::FlightDirector, permissions: ps, description: "Operational command and telemetry access".to_string(), max_classification: ClearanceLevel::Secret });
    let mut ps: Vec<Permission> = Vec::new();
    ps.push(Permission { action: "read".to_string(), resource: "science_data.*".to_string(), scope: PermissionScope::Global });
    ps.push(Permission { action: "analyze".to_string(), resource: "science_data.*".to_string(), scope: PermissionScope::Global });
    ps.push(Permission { action: "read".to_string(), resource: "telemetry.*".to_string(), scope: PermissionScope::Global });
    rs.push(RoleDefinition { role: Role::Scientist, permissions: ps, description: "Science data access and analysis".to_string(), max_classification: ClearanceLevel::Confidential });
    let mut ps: Vec<Permission> = Vec::new();
    ps.push(Permission { action: "maintain".to_string(), resource: "system.*".to_string(), scope: PermissionScope::Global });
    rs.push(RoleDefinition { role: Role::Engineer, permissions: ps, description: "System maintenance".to_string(), max_classification: ClearanceLevel::Internal });
    let mut ps: Vec<Permission> = Vec::new();
    ps.push(Permission { action: "read".to_string(), resource: "status.*".to_string(), scope: PermissionScope::Global });
    ps.push(Permission { action: "monitor".to_string(), resource: "health.*".to_string(), scope: PermissionScope::Global });
    rs.push(RoleDefinition { role: Role::Operator, permissions: ps, description: "Monitoring and basic operations".to_string(), max_classification: ClearanceLevel::Internal });
    let mut ps: Vec<Permission> = Vec::new();
    ps.push(Permission { action: "read".to_string(), resource: "status.*".to_string(), scope: PermissionScope::Global });
    rs.push(RoleDefinition { role: Role::Observer, permissions: ps, description: "Read-only consultation".to_string(), max_classification: ClearanceLevel::Public });
    let mut ps: Vec<Permission> = Vec::new();
    ps.push(Permission { action: "*".to_string(), resource: "internal.*".to_string(), scope: PermissionScope::System("spaceone".to_string()) });
    ps.push(Permission { action: "read".to_string(), resource: "health.*".to_string(), scope: PermissionScope::Global });
    ps.push(Permission { action: "actuate".to_string(), resource: "recovery.*".to_string(), scope: PermissionScope::Global });
    rs.push(RoleDefinition { role: Role::AutonomousSystem, permissions: ps, description: "Autonomous system actions".to_string(), max_classification: ClearanceLevel::Secret });
    rs
}


/// The access-control manager.
pub struct AccessControlManager {
    roles: Vec<RoleDefinition>,
    sessions: Vec<AuthenticatedSession>,
    session_timeout_seconds: u64,
}

/// No two sessions share an identifier.
pub open spec fn distinct_sessions(ss: Seq<AuthenticatedSession>) -> bool {
    forall|i: int, j: int| 0 <= i < j < ss.len() ==> ss[i].session_id.0@ != ss[j].session_id.0@
}

/// Whether a session with this identifier exists.
pub open spec fn has_session(ss: Seq<AuthenticatedSession>, id: Seq<char>) -> bool {
    exists|k: int| 0 <= k < ss.len() && ss[k].session_id.0@ == id
}

/// The session with this identifier (meaningful when there is one).
pub open spec fn session_of(ss: Seq<AuthenticatedSession>, id: Seq<char>) -> AuthenticatedSession {
    ss[choose|k: int| 0 <= k < ss.len() && ss[k].session_id.0@ == id]
}

/// The sessions still valid at `now`, in order.
pub open spec fn live_sessions(ss: Seq<AuthenticatedSession>, now: i64) -> Seq<AuthenticatedSession>
    decreases ss.len(),
{
    if ss.len() == 0 {
        Seq::empty()
    } else if now <= ss.last().expires_at {
        live_sessions(ss.drop_last(), now).push(ss.last())
    } else {
        live_sessions(ss.drop_last(), now)
    }
}

/// The sessions other than the one with this identifier, in order.
pub open spec fn without_session(ss: Seq<AuthenticatedSession>, id: Seq<char>) -> Seq<AuthenticatedSession>
    decreases ss.len(),
{
    if ss.len() == 0 {
        Seq::empty()
    } else if ss.last().session_id.0@ == id {
        without_session(ss.drop_last(), id)
    } else {
        without_session(ss.drop_last(), id).push(ss.last())
    }
}

/// A session opened at `now` for `principal` on `node_id` with `role`.
pub open spec fn opened_session(s: AuthenticatedSession, id: Seq<char>, principal: Seq<char>, role: Role, node_id: Seq<char>, now: i64, timeout_s: u64) -> bool {
    &&& s.session_id.0@ == id
    &&& s.principal@ == principal
    &&& s.role == role
    &&& role_grants(role, s.capabilities@)
    &&& s.created_at == now
    &&& s.expires_at == now + timeout_s * 1000
    &&& s.node_id@ == node_id
}

impl AccessControlManager {
    #[verifier::type_invariant]
    spec fn well_formed(self) -> bool {
        &&& self.roles@.len() == 7
        &&& forall|k: int| 0 <= k < 7 ==> #[trigger] self.roles@[k].role == role_at(k) && role_grants(role_at(k), self.roles@[k].permissions@)
        &&& distinct_sessions(self.sessions@)
        &&& self.session_timeout_seconds <= 86_400
    }

    /// The open sessions.
    pub closed spec fn sessions(self) -> Seq<AuthenticatedSession> {
        self.sessions@
    }

    /// The session lifetime, in seconds.
    pub closed spec fn timeout_seconds(self) -> u64 {
        self.session_timeout_seconds
    }

    /// A manager with the standard role table (see `role_grants`), no
    /// session, and one-hour sessions.
    pub fn new() -> (m: Self)
        ensures
            m.sessions().len() == 0,
            m.timeout_seconds() == 3600,
    {
        AccessControlManager { roles: standard_roles(), sessions: Vec::new(), session_timeout_seconds: 3600 }
    }

    /// Position of the definition of a role.
    fn find_role(&self, role: Role) -> (k: usize)
        ensures
            k < 7,
            role_at(k as int) == role,
            self.roles@[k as int].role == role,
            role_grants(role, self.roles@[k as int].permissions@),
    {
        proof {
            use_type_invariant(self);
        }
        let mut i: usize = 0;
        while i < 6 && self.roles[i].role != role
            invariant
                i <= 6,
                self.roles@.len() == 7,
                forall|k: int| 0 <= k < 7 ==> #[trigger] self.roles@[k].role == role_at(k) && role_grants(role_at(k), self.roles@[k].permissions@),
                forall|j: int| 0 <= j < i ==> role_at(j) != role,
            decreases 6 - i,
        {
            i = i + 1;
        }
        proof {
            assert(self.roles@[i as int].role == role_at(i as int));
            if i == 6 && role_at(6) != role {
                assert(role_at(0) != role && role_at(1) != role && role_at(2) != role && role_at(3) != role
                    && role_at(4) != role && role_at(5) != role);
            }
        }
        i
    }

    /// Position of the session with this identifier.
    fn find_session(ss: &Vec<AuthenticatedSession>, id: &SessionId) -> (r: Option<usize>)
        ensures
            match r {
                Some(k) => k < ss@.len() && ss@[k as int].session_id.0@ == id.0@,
                None => !has_session(ss@, id.0@),
            },
    {
        let mut i: usize = 0;
        while i < ss.len()
            invariant
                i <= ss@.len(),
                forall|j: int| 0 <= j < i ==> ss@[j].session_id.0@ != id.0@,
            decreases ss@.len() - i,
        {
            if str_eq(ss[i].session_id.0.as_str(), id.0.as_str()) {
                return Some(i);
            }
            i = i + 1;
        }
        None
    }

    /// Opens a session at `now` for `principal` on `node_id`, with the
    /// capabilities of `role`; `uuid` becomes its identifier, replacing a
    /// session with the same identifier.
    pub fn authenticate_with(&mut self, principal: String, role: Role, node_id: String, uuid: String, now: i64) -> (r: SecurityResult<SessionId>)
        requires
            in_clock_range(now),
        ensures
            r matches Ok(id) && id.0@ == uuid@,
            final(self).timeout_seconds() == old(self).timeout_seconds(),
            has_session(final(self).sessions(), uuid@),
            opened_session(session_of(final(self).sessions(), uuid@), uuid@, principal@, role, node_id@, now, old(self).timeout_seconds()),
            forall|k: int| 0 <= k < old(self).sessions().len() && old(self).sessions()[k].session_id.0@ != uuid@
                ==> final(self).sessions().contains(old(self).sessions()[k]),
            forall|k: int| 0 <= k < final(self).sessions().len() && final(self).sessions()[k].session_id.0@ != uuid@
                ==> old(self).sessions().contains(final(self).sessions()[k]),
            final(self).sessions().len() == old(self).sessions().len() + (if has_session(old(self).sessions(), uuid@) {
                0int
            } else {
                1int
            }),
    {
        proof {
            use_type_invariant(&*self);
        }
        let k = self.find_role(role);
        let caps = self.roles[k].permissions.clone();
        proof {
            assert(caps@ =~= self.roles@[k as int].permissions@);
        }
        let id = SessionId(uuid);
        let session = AuthenticatedSession {
            session_id: id.clone(),
            principal,
            role,
            capabilities: caps,
            created_at: now,
            expires_at: now + (self.session_timeout_seconds as i64) * 1000,
            node_id,
        };
        let found = Self::find_session(&self.sessions, &id);
        let mut ss: Vec<AuthenticatedSession> = Vec::new();
        std::mem::swap(&mut ss, &mut self.sessions);
        let ghost before = ss@;
        let ghost slot: int;
        match found {
            Some(j) => {
                ss.set(j, session);
                proof {
                    slot = j as int;
                    assert(has_session(before, uuid@)) by {
                        assert(before[j as int].session_id.0@ == uuid@);
                    }
                    assert forall|a: int, b: int| 0 <= a < b < ss@.len() implies ss@[a].session_id.0@ != ss@[b].session_id.0@ by {
                        if a == j as int || b == j as int {
                            assert(before[j as int].session_id.0@ == ss@[j as int].session_id.0@);
                        }
                    }
                    assert forall|k: int| 0 <= k < before.len() && before[k].session_id.0@ != uuid@ implies ss@.contains(before[k]) by {
                        assert(k != j as int);
                        assert(ss@[k] == before[k]);
                    }
                    assert forall|k: int| 0 <= k < ss@.len() && ss@[k].session_id.0@ != uuid@ implies before.contains(ss@[k]) by {
                        assert(k != j as int);
                        assert(ss@[k] == before[k]);
                    }
                }
            },
            None => {
                ss.push(session);
                proof {
                    slot = before.len() as int;
                    assert forall|k: int| 0 <= k < before.len() && before[k].session_id.0@ != uuid@ implies ss@.contains(before[k]) by {
                        assert(ss@[k] == before[k]);
                    }
                    assert forall|k: int| 0 <= k < ss@.len() && ss@[k].session_id.0@ != uuid@ implies before.contains(ss@[k]) by {
                        assert(k < before.len());
                        assert(ss@[k] == before[k]);
                    }
                }
            },
        }
        proof {
            let c = choose|m: int| 0 <= m < ss@.len() && ss@[m].session_id.0@ == uuid@;
            assert(ss@[slot].session_id.0@ == uuid@);
            assert(c == slot) by {
                if c != slot {
                    assert(ss@[c].session_id.0@ == ss@[slot].session_id.0@);
                }
            }
        }
        self.sessions = ss;
        Ok(id)
    }

    /// Opens a session now for `principal` on `node_id`, with the
    /// capabilities of `role` and a random identifier.
    pub fn authenticate(&mut self, principal: String, role: Role, node_id: String) -> (r: SecurityResult<SessionId>)
        ensures
            r matches Ok(id) && is_hyphenated_uuid(id.0@) && has_session(final(self).sessions(), id.0@)
                && exists|now: i64| in_clock_range(now) && opened_session(session_of(final(self).sessions(), id.0@), id.0@, principal@, role, node_id@, now, old(self).timeout_seconds()),
            r matches Ok(id) && final(self).sessions().len() == old(self).sessions().len() + (if has_session(
                old(self).sessions(),
                id.0@,
            ) {
                0int
            } else {
                1int
            }),
            r matches Ok(id) && (forall|k: int| 0 <= k < old(self).sessions().len() && old(self).sessions()[k].session_id.0@ != id.0@
                ==> final(self).sessions().contains(old(self).sessions()[k])),
    {
        let uuid = uuid_v4_string();
        let now = now_millis();
        self.authenticate_with(principal, role, node_id, uuid, now)
    }

    /// Whether the session may do `action` on `resource` at `now`: an
    /// error for an unknown or expired session.
    pub fn check_permission_at(&self, session_id: &SessionId, action: &str, resource: &str, now: i64) -> (r: SecurityResult<bool>)
        ensures
            !has_session(self.sessions(), session_id.0@) ==> (r matches Err(SecurityError::AccessDenied(m)) && m@ == "Session not found"@),
            has_session(self.sessions(), session_id.0@) ==> {
                let s = session_of(self.sessions(), session_id.0@);
                &&& now > s.expires_at ==> (r matches Err(SecurityError::AccessDenied(m)) && m@ == "Session expired"@)
                &&& now <= s.expires_at ==> r == Ok::<bool, SecurityError>(
                    has_full_wildcard(s.capabilities@) || capabilities_allow(s.capabilities@, action@, resource@))
            },
    {
        proof {
            use_type_invariant(self);
        }
        let k = match Self::find_session(&self.sessions, session_id) {
            None => {
                return Err(SecurityError::AccessDenied("Session not found".to_string()));
            },
            Some(k) => k,
        };
        proof {
            let c = choose|m: int| 0 <= m < self.sessions@.len() && self.sessions@[m].session_id.0@ == session_id.0@;
            assert(c == k as int) by {
                if c != k as int {
                    assert(self.sessions@[c].session_id.0@ == self.sessions@[k as int].session_id.0@);
                }
            }
        }
        let s = &self.sessions[k];
        if !s.is_valid_at(now) {
            return Err(SecurityError::AccessDenied("Session expired".to_string()));
        }
        let caps = &s.capabilities;
        let mut i: usize = 0;
        let mut wildcard = false;
        while i < caps.len() && !wildcard
            invariant
                i <= caps@.len(),
                wildcard ==> i < caps@.len() && caps@[i as int].action@ == "*"@ && caps@[i as int].resource@ == "*"@,
                !wildcard ==> forall|j: int| 0 <= j < i ==> !(caps@[j].action@ == "*"@ && caps@[j].resource@ == "*"@),
            decreases caps@.len() - i + (if wildcard { 0int } else { 1int }),
        {
            if str_eq(caps[i].action.as_str(), "*") && str_eq(caps[i].resource.as_str(), "*") {
                wildcard = true;
            } else {
                i = i + 1;
            }
        }
        if wildcard {
            return Ok(true);
        }
        Ok(s.has_permission(action, resource))
    }

    /// Whether the session may do `action` on `resource` now.
    pub fn check_permission(&self, session_id: &SessionId, action: &str, resource: &str) -> (r: SecurityResult<bool>)
        ensures
            !has_session(self.sessions(), session_id.0@) ==> (r matches Err(SecurityError::AccessDenied(m)) && m@ == "Session not found"@),
            has_session(self.sessions(), session_id.0@) ==> exists|now: i64| {
                let s = session_of(self.sessions(), session_id.0@);
                &&& #[trigger] in_clock_range(now)
                &&& now > s.expires_at ==> (r matches Err(SecurityError::AccessDenied(m)) && m@ == "Session expired"@)
                &&& now <= s.expires_at ==> r == Ok::<bool, SecurityError>(
                    has_full_wildcard(s.capabilities@) || capabilities_allow(s.capabilities@, action@, resource@))
            },
    {
        let now = now_millis();
        self.check_permission_at(session_id, action, resource, now)
    }

    /// Ends a session; whether it existed.
    pub fn terminate_session(&mut self, session_id: &SessionId) -> (existed: bool)
        ensures
            existed == has_session(old(self).sessions(), session_id.0@),
            final(self).sessions() == without_session(old(self).sessions(), session_id.0@),
            final(self).timeout_seconds() == old(self).timeout_seconds(),
    {
        proof {
            use_type_invariant(&*self);
        }
        let existed = Self::find_session(&self.sessions, session_id).is_some();
        let mut rest: Vec<AuthenticatedSession> = Vec::new();
        std::mem::swap(&mut rest, &mut self.sessions);
        let ghost orig = rest@;
        let mut kept: Vec<AuthenticatedSession> = Vec::new();
        while rest.len() > 0
            invariant
                rest@ == orig.skip(orig.len() - rest@.len()),
                rest@.len() <= orig.len(),
                distinct_sessions(orig),
                kept@ == without_session(orig.take(orig.len() - rest@.len()), session_id.0@),
                forall|a: int| 0 <= a < kept@.len() ==> #[trigger] orig.take(orig.len() - rest@.len()).contains(kept@[a]),
            decreases rest@.len(),
        {
            let ghost i = orig.len() - rest@.len();
            let s = rest.remove(0);
            proof {
                assert(orig.take(i + 1).drop_last() =~= orig.take(i));
                assert(s == orig[i]);
                assert(rest@ =~= orig.skip(i + 1));
            }
            let ghost before = kept@;
            proof {
                assert forall|a: int| 0 <= a < before.len() implies orig.take(i).contains(before[a]) by {
                    assert(orig.take(i).contains(kept@[a]));
                }
            }
            if !str_eq(s.session_id.0.as_str(), session_id.0.as_str()) {
                kept.push(s);
            }
            proof {
                assert forall|a: int| 0 <= a < kept@.len() implies #[trigger] orig.take(i + 1).contains(kept@[a]) by {
                    if a < before.len() {
                        assert(orig.take(i).contains(before[a]));
                        let w = choose|w: int| 0 <= w < orig.take(i).len() && orig.take(i)[w] == before[a];
                        assert(kept@[a] == before[a]);
                        assert(orig.take(i + 1)[w] == orig.take(i)[w]);
                    } else {
                        assert(orig.take(i + 1)[i] == kept@[a]);
                    }
                }
            }
        }
        proof {
            assert(orig.take(orig.len() as int) =~= orig);
            assert forall|a: int, b: int| 0 <= a < b < kept@.len() implies kept@[a].session_id.0@ != kept@[b].session_id.0@ by {
                lemma_subsequence_distinct(orig, kept@, session_id.0@, a, b);
            }
        }
        self.sessions = kept;
        existed
    }

    /// Drops the sessions expired at `now`; how many were dropped.
    pub fn cleanup_expired_sessions_at(&mut self, now: i64) -> (removed: usize)
        ensures
            final(self).sessions() == live_sessions(old(self).sessions(), now),
            removed == old(self).sessions().len() - final(self).sessions().len(),
            final(self).timeout_seconds() == old(self).timeout_seconds(),
    {
        proof {
            use_type_invariant(&*self);
        }
        let mut rest: Vec<AuthenticatedSession> = Vec::new();
        std::mem::swap(&mut rest, &mut self.sessions);
        let ghost orig = rest@;
        let initial = rest.len();
        let mut kept: Vec<AuthenticatedSession> = Vec::new();
        while rest.len() > 0
            invariant
                rest@ == orig.skip(orig.len() - rest@.len()),
                rest@.len() <= orig.len(),
                initial == orig.len(),
                kept@ == live_sessions(orig.take(orig.len() - rest@.len()), now),
                kept@.len() <= orig.len() - rest@.len(),
                forall|a: int, b: int| 0 <= a < b < kept@.len() ==> kept@[a].session_id.0@ != kept@[b].session_id.0@,
                distinct_sessions(orig),
                forall|a: int| 0 <= a < kept@.len() ==> #[trigger] orig.take(orig.len() - rest@.len()).contains(kept@[a]),
            decreases rest@.len(),
        {
            let ghost i = orig.len() - rest@.len();
            let s = rest.remove(0);
            proof {
                assert(orig.take(i + 1).drop_last() =~= orig.take(i));
                assert(s == orig[i]);
                assert(rest@ =~= orig.skip(i + 1));
            }
            let ghost before = kept@;
            proof {
                assert forall|a: int| 0 <= a < before.len() implies orig.take(i).contains(before[a]) by {
                    assert(orig.take(i).contains(kept@[a]));
                }
            }
            if s.is_valid_at(now) {
                kept.push(s);
                proof {
                    assert forall|a: int| 0 <= a < before.len() implies kept@[a].session_id.0@ != orig[i].session_id.0@ by {
                        assert(orig.take(i).contains(before[a]));
                        let w = choose|w: int| 0 <= w < orig.take(i).len() && orig.take(i)[w] == before[a];
                        assert(orig.take(i)[w] == orig[w]);
                        assert(kept@[a] == before[a]);
                    }
                }
            }
            proof {
                assert forall|a: int| 0 <= a < kept@.len() implies #[trigger] orig.take(i + 1).contains(kept@[a]) by {
                    if a < before.len() {
                        assert(orig.take(i).contains(before[a]));
                        let w = choose|w: int| 0 <= w < orig.take(i).len() && orig.take(i)[w] == before[a];
                        assert(kept@[a] == before[a]);
                        assert(orig.take(i + 1)[w] == orig.take(i)[w]);
                    } else {
                        assert(orig.take(i + 1)[i] == kept@[a]);
                    }
                }
            }
        }
        proof {
            assert(orig.take(orig.len() as int) =~= orig);
        }
        let removed = initial - kept.len();
        self.sessions = kept;
        removed
    }

    /// Drops the sessions that have expired; how many were dropped.
    pub fn cleanup_expired_sessions(&mut self) -> (removed: usize)
        ensures
            exists|now: i64| in_clock_range(now) && final(self).sessions() == live_sessions(old(self).sessions(), now),
            removed == old(self).sessions().len() - final(self).sessions().len(),
    {
        let now = now_millis();
        self.cleanup_expired_sessions_at(now)
    }

    /// The number of open sessions.
    pub fn active_sessions(&self) -> (n: usize)
        ensures
            n == self.sessions().len(),
    {
        self.sessions.len()
    }
}

/// Two sessions of a subsequence of distinct sessions have different
/// identifiers.
proof fn lemma_subsequence_distinct(orig: Seq<AuthenticatedSession>, kept: Seq<AuthenticatedSession>, id: Seq<char>, a: int, b: int)
    requires
        distinct_sessions(orig),
        kept == without_session(orig, id),
        0 <= a < b < kept.len(),
    ensures
        kept[a].session_id.0@ != kept[b].session_id.0@,
    decreases orig.len(),
{
    if orig.len() > 0 {
        let prev = without_session(orig.drop_last(), id);
        assert(distinct_sessions(orig.drop_last())) by {
            assert forall|i: int, j: int| 0 <= i < j < orig.drop_last().len() implies orig.drop_last()[i].session_id.0@ != orig.drop_last()[j].session_id.0@ by {
                assert(orig.drop_last()[i] == orig[i]);
                assert(orig.drop_last()[j] == orig[j]);
            }
        }
        if orig.last().session_id.0@ == id {
            lemma_subsequence_distinct(orig.drop_last(), kept, id, a, b);
        } else if b < prev.len() {
            lemma_subsequence_distinct(orig.drop_last(), prev, id, a, b);
        } else {
            lemma_without_session_members(orig.drop_last(), id, a);
            let w = choose|w: int| 0 <= w < orig.drop_last().len() && orig.drop_last()[w] == prev[a];
            assert(orig[w] == prev[a]);
            assert(kept[b] == orig.last());
        }
    }
}

/// Every member of `without_session(ss, id)` is a member of `ss`.
proof fn lemma_without_session_members(ss: Seq<AuthenticatedSession>, id: Seq<char>, a: int)
    requires
        0 <= a < without_session(ss, id).len(),
    ensures
        exists|w: int| 0 <= w < ss.len() && ss[w] == without_session(ss, id)[a],
    decreases ss.len(),
{
    if ss.len() > 0 {
        let prev = without_session(ss.drop_last(), id);
        if ss.last().session_id.0@ == id || a < prev.len() {
            lemma_without_session_members(ss.drop_last(), id, a);
            let w = choose|w: int| 0 <= w < ss.drop_last().len() && ss.drop_last()[w] == prev[a];
            assert(ss[w] == ss.drop_last()[w]);
        } else {
            assert(ss[ss.len() - 1] == without_session(ss, id)[a]);
        }
    }
}

} // verus!
