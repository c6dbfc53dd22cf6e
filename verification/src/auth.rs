//! Authentication between agencies: identity certificates signed by each
//! agency, revocation, and capability-based authorisation (capabilities
//! with a scope and an optional expiry). Times are Unix milliseconds.

use vstd::prelude::*;
use crate::clock::{now_millis, in_clock_range, div_trunc, whole_seconds};
use crate::hashing::{sha3_256, hex_encode, spec_hex, spec_sha3_256};
use crate::message_types::{AgencyId, NodeId};
use crate::negotiation::MapError;
use crate::text::{concat2, str_eq};

verus! {

// ─── Identities ───

/// The identity certificate of a Mars entity.
#[derive(Debug)]
pub struct MarsIdentity {
    pub node_id: NodeId,
    pub agency: AgencyId,
    pub public_key: Vec<u8>,
    pub issued_at: i64,
    pub expires_at: i64,
    pub mission: String,
    pub platform: String,
}

/// Whole days from `now` to `expires_at`, truncated toward zero.
pub open spec fn days_between(now: i64, expires_at: i64) -> int {
    div_trunc(div_trunc(expires_at - now, 1000), 86400)
}

impl MarsIdentity {
    /// The certificate's fingerprint: lower-case hex of the SHA3-256 of
    /// the public key.
    pub fn fingerprint(&self) -> (f: String)
        ensures
            f@ == spec_hex(spec_sha3_256(self.public_key@)),
    {
        let digest = sha3_256(self.public_key.as_slice());
        hex_encode(digest.as_slice())
    }

    /// Whether the certificate is valid at `now` (issued, not expired).
    pub open spec fn valid_at(self, now: i64) -> bool {
        self.issued_at <= now <= self.expires_at
    }

    /// Whether the certificate is valid at `now`.
    pub fn is_valid_at(&self, now: i64) -> (r: bool)
        ensures
            r == self.valid_at(now),
    {
        now >= self.issued_at && now <= self.expires_at
    }

    /// Whether the certificate is valid now.
    pub fn is_valid(&self) -> (r: bool)
        ensures
            exists|now: i64| in_clock_range(now) && r == self.valid_at(now),
    {
        let now = now_millis();
        self.is_valid_at(now)
    }

    /// Whether the certificate has expired at `now`.
    pub fn is_expired_at(&self, now: i64) -> (r: bool)
        ensures
            r == (now > self.expires_at),
    {
        now > self.expires_at
    }

    /// Whether the certificate has expired now.
    pub fn is_expired(&self) -> (r: bool)
        ensures
            exists|now: i64| in_clock_range(now) && r == (now > self.expires_at),
    {
        let now = now_millis();
        self.is_expired_at(now)
    }

    /// Whole days left at `now` before expiry (negative once expired).
    pub fn days_until_expiry_at(&self, now: i64) -> (d: i64)
        ensures
            d == days_between(now, self.expires_at),
    {
        let secs = whole_seconds((self.expires_at as i128) - (now as i128));
        let days: i128 = if secs >= 0 { secs / 86400 } else { -((-secs) / 86400) };
        days as i64
    }

    /// Whole days left now before expiry.
    pub fn days_until_expiry(&self) -> (d: i64)
        ensures
            exists|now: i64| in_clock_range(now) && d == days_between(now, self.expires_at),
    {
        let now = now_millis();
        self.days_until_expiry_at(now)
    }
}

// ─── Capabilities ───

/// Where a capability applies.
#[derive(Debug, PartialEq, Eq)]
pub enum CapabilityScope {
    /// The whole Mars network.
    Global,
    /// One agency.
    Agency(AgencyId),
    /// Some nodes.
    Nodes(Vec<NodeId>),
    /// One kind of resource.
    Resource(String),
}

/// A capability granted to an entity.
#[derive(Debug, PartialEq, Eq)]
pub struct Capability {
    pub name: String,
    pub scope: CapabilityScope,
    pub expires_at: Option<i64>,
}

/// Errors of authentication.
#[derive(Debug, PartialEq, Eq)]
pub enum AuthError {
    CertificateExpired(NodeId),
    UnknownCertificate(String),
    InsufficientCapability { required: String, provided: String },
    AgencyNotAuthorized(AgencyId),
    InvalidSignature(NodeId),
    CertificateRevoked(NodeId),
}

/// Counts for a security audit.
#[derive(Debug, Clone, Copy, PartialEq, Eq, Structural)]
pub struct AuthAuditReport {
    pub total_identities: usize,
    pub total_capabilities: usize,
    pub revoked_count: usize,
    pub expiring_soon: usize,
    pub expired: usize,
}

/// Whether a node named `n` is among `nodes`.
pub open spec fn names_node(nodes: Seq<NodeId>, n: Seq<char>) -> bool {
    exists|k: int| 0 <= k < nodes.len() && (#[trigger] nodes[k]).0@ == n
}

/// Whether some node of `nodes` is among `required`.
pub open spec fn shares_node(nodes: Seq<NodeId>, required: Seq<NodeId>) -> bool {
    exists|k: int| 0 <= k < nodes.len() && names_node(required, (#[trigger] nodes[k]).0@)
}

/// Whether two scopes are the same.
pub open spec fn same_scope(a: CapabilityScope, b: CapabilityScope) -> bool {
    match (a, b) {
        (CapabilityScope::Global, CapabilityScope::Global) => true,
        (CapabilityScope::Agency(x), CapabilityScope::Agency(y)) => x == y,
        (CapabilityScope::Nodes(x), CapabilityScope::Nodes(y)) => x@.len() == y@.len()
            && forall|k: int| 0 <= k < x@.len() ==> (#[trigger] x@[k]).0@ == y@[k].0@,
        (CapabilityScope::Resource(x), CapabilityScope::Resource(y)) => x@ == y@,
        _ => false,
    }
}

/// Whether two capabilities are the same (name, scope and expiry).
pub open spec fn same_capability(a: Capability, b: Capability) -> bool {
    a.name@ == b.name@ && same_scope(a.scope, b.scope) && a.expires_at == b.expires_at
}

/// Whether a capability covers the requested scope: a global capability
/// covers every scope; no other covers a global request; agencies and
/// resources must match, and node sets must share a node.
pub open spec fn covers(cap: Capability, scope: CapabilityScope) -> bool {
    match (cap.scope, scope) {
        (CapabilityScope::Global, _) => true,
        (_, CapabilityScope::Global) => false,
        (CapabilityScope::Agency(a1), CapabilityScope::Agency(a2)) => a1 == a2,
        (CapabilityScope::Nodes(nodes), CapabilityScope::Nodes(required)) => shares_node(nodes@, required@),
        (CapabilityScope::Resource(r1), CapabilityScope::Resource(r2)) => r1@ == r2@,
        _ => false,
    }
}

/// Whether a node is named in a list.
fn contains_node(nodes: &Vec<NodeId>, n: &NodeId) -> (r: bool)
    ensures
        r == names_node(nodes@, n.0@),
{
    let mut i: usize = 0;
    while i < nodes.len()
        invariant
            i <= nodes@.len(),
            forall|k: int| 0 <= k < i ==> (#[trigger] nodes@[k]).0@ != n.0@,
        decreases nodes@.len() - i,
    {
        if str_eq(nodes[i].0.as_str(), n.0.as_str()) {
            return true;
        }
        i = i + 1;
    }
    false
}

/// Whether a capability covers the requested scope.
pub fn cap_matches_scope(cap: &Capability, scope: &CapabilityScope) -> (r: bool)
    ensures
        r == covers(*cap, *scope),
{
    match (&cap.scope, scope) {
        (CapabilityScope::Global, _) => true,
        (_, CapabilityScope::Global) => false,
        (CapabilityScope::Agency(a1), CapabilityScope::Agency(a2)) => *a1 == *a2,
        (CapabilityScope::Nodes(nodes), CapabilityScope::Nodes(required)) => {
            let mut i: usize = 0;
            while i < nodes.len()
                invariant
                    i <= nodes@.len(),
                    cap.scope == CapabilityScope::Nodes(*nodes),
                    *scope == CapabilityScope::Nodes(*required),
                    forall|k: int| 0 <= k < i ==> !names_node(required@, (#[trigger] nodes@[k]).0@),
                decreases nodes@.len() - i,
            {
                if contains_node(required, &nodes[i]) {
                    proof {
                        let w = nodes@[i as int];
                        assert(0 <= i < nodes@.len() && names_node(required@, w.0@));
                        assert(shares_node(nodes@, required@));
                    }
                    return true;
                }
                i = i + 1;
            }
            false
        },
        (CapabilityScope::Resource(r1), CapabilityScope::Resource(r2)) => str_eq(r1.as_str(), r2.as_str()),
        _ => false,
    }
}

// ─── Registry ───

/// Where the identity of node `n` stands, or the length when none.
pub open spec fn identity_index(ids: Seq<MarsIdentity>, n: Seq<char>) -> int
    decreases ids.len(),
{
    if ids.len() == 0 {
        0
    } else if ids[0].node_id.0@ == n {
        0
    } else {
        1 + identity_index(ids.drop_first(), n)
    }
}

/// Where the capabilities of node `n` stand, or the length when none.
pub open spec fn caps_index(cs: Seq<(NodeId, Seq<Capability>)>, n: Seq<char>) -> int
    decreases cs.len(),
{
    if cs.len() == 0 {
        0
    } else if cs[0].0.0@ == n {
        0
    } else {
        1 + caps_index(cs.drop_first(), n)
    }
}

/// The capabilities of node `n`.
pub open spec fn caps_of(cs: Seq<(NodeId, Seq<Capability>)>, n: Seq<char>) -> Seq<Capability> {
    let e = caps_index(cs, n);
    if e < cs.len() {
        cs[e].1
    } else {
        Seq::empty()
    }
}

/// Whether the same capability is in `set`.
pub open spec fn has_same(set: Seq<Capability>, c: Capability) -> bool {
    exists|k: int| 0 <= k < set.len() && same_capability(#[trigger] set[k], c)
}

/// `set` with the capabilities of `new` added, each unless already there.
pub open spec fn caps_added(set: Seq<Capability>, new: Seq<Capability>) -> Seq<Capability>
    decreases new.len(),
{
    if new.len() == 0 {
        set
    } else {
        let s = caps_added(set, new.drop_last());
        if has_same(s, new.last()) {
            s
        } else {
            s.push(new.last())
        }
    }
}

/// Whether a capability is still in force at `now`.
pub open spec fn cap_live(c: Capability, now: i64) -> bool {
    match c.expires_at {
        None => true,
        Some(e) => e > now,
    }
}

/// The capabilities still in force at `now`, in order.
pub open spec fn live_caps(set: Seq<Capability>, now: i64) -> Seq<Capability>
    decreases set.len(),
{
    if set.len() == 0 {
        Seq::empty()
    } else if cap_live(set.last(), now) {
        live_caps(set.drop_last(), now).push(set.last())
    } else {
        live_caps(set.drop_last(), now)
    }
}

/// The identities not expired at `now` (expiry not before `now`), in order.
pub open spec fn live_identities(ids: Seq<MarsIdentity>, now: i64) -> Seq<MarsIdentity>
    decreases ids.len(),
{
    if ids.len() == 0 {
        Seq::empty()
    } else if ids.last().expires_at < now {
        live_identities(ids.drop_last(), now)
    } else {
        live_identities(ids.drop_last(), now).push(ids.last())
    }
}

/// The number of identities expired at `now`.
pub open spec fn expired_count(ids: Seq<MarsIdentity>, now: i64) -> nat
    decreases ids.len(),
{
    if ids.len() == 0 {
        0
    } else {
        expired_count(ids.drop_last(), now) + (if ids.last().expires_at < now { 1nat } else { 0nat })
    }
}

/// The number of identities with less than 30 whole days left at `now`
/// (and not past expiry by a whole day).
pub open spec fn expiring_count(ids: Seq<MarsIdentity>, now: i64) -> nat
    decreases ids.len(),
{
    if ids.len() == 0 {
        0
    } else {
        let d = days_between(now, ids.last().expires_at);
        expiring_count(ids.drop_last(), now) + (if 0 <= d < 30 { 1nat } else { 0nat })
    }
}

/// The number of capabilities over all nodes.
pub open spec fn total_caps(cs: Seq<(NodeId, Seq<Capability>)>) -> nat
    decreases cs.len(),
{
    if cs.len() == 0 {
        0
    } else {
        total_caps(cs.drop_last()) + cs.last().1.len()
    }
}

/// The registry of identities, capabilities and revocations.
pub struct AuthRegistry {
    identities: Vec<MarsIdentity>,
    capabilities: Vec<(NodeId, Vec<Capability>)>,
    revoked: Vec<NodeId>,
    trusted_agencies: Vec<AgencyId>,
}

impl AuthRegistry {
    /// The registered identities.
    pub closed spec fn identities(self) -> Seq<MarsIdentity> {
        self.identities@
    }

    /// The capabilities granted, per node.
    pub closed spec fn capabilities(self) -> Seq<(NodeId, Seq<Capability>)> {
        self.capabilities@.map_values(|e: (NodeId, Vec<Capability>)| (e.0, e.1@))
    }

    /// The revoked nodes.
    pub closed spec fn revoked(self) -> Seq<NodeId> {
        self.revoked@
    }

    /// An empty registry.
    pub fn new() -> (r: Self)
        ensures
            r.identities().len() == 0,
            r.capabilities().len() == 0,
            r.revoked().len() == 0,
    {
        AuthRegistry {
            identities: Vec::new(),
            capabilities: Vec::new(),
            revoked: Vec::new(),
            trusted_agencies: Vec::new(),
        }
    }

    /// Where the identity of a node stands (`identity_index`).
    fn find_identity(&self, n: &NodeId) -> (i: usize)
        ensures
            i == identity_index(self.identities(), n.0@),
            i <= self.identities().len(),
    {
        let mut i: usize = 0;
        while i < self.identities.len() && !str_eq(self.identities[i].node_id.0.as_str(), n.0.as_str())
            invariant
                i <= self.identities@.len(),
                forall|j: int| 0 <= j < i ==> (#[trigger] self.identities@[j]).node_id.0@ != n.0@,
            decreases self.identities@.len() - i,
        {
            i = i + 1;
        }
        proof {
            lemma_identity_index_at(self.identities@, n.0@, i as int);
        }
        i
    }

    /// Where the capabilities of a node stand (`caps_index`).
    fn find_caps(&self, n: &NodeId) -> (e: usize)
        ensures
            e == caps_index(self.capabilities(), n.0@),
            e <= self.capabilities().len(),
    {
        let mut e: usize = 0;
        while e < self.capabilities.len() && !str_eq(self.capabilities[e].0.0.as_str(), n.0.as_str())
            invariant
                e <= self.capabilities@.len(),
                self.capabilities().len() == self.capabilities@.len(),
                forall|j: int| 0 <= j < e ==> (#[trigger] self.capabilities()[j]).0.0@ != n.0@,
            decreases self.capabilities@.len() - e,
        {
            e = e + 1;
        }
        proof {
            lemma_caps_index_at(self.capabilities(), n.0@, e as int);
        }
        e
    }

    /// Whether a node is revoked.
    fn is_revoked(&self, n: &NodeId) -> (r: bool)
        ensures
            r == names_node(self.revoked(), n.0@),
    {
        contains_node(&self.revoked, n)
    }

    /// Registers an identity valid at `now` (in place of one of the same
    /// node); an identity not valid at `now` is refused.
    pub fn register_identity_at(&mut self, identity: MarsIdentity, now: i64) -> (r: Result<(), MapError>)
        ensures
            identity.valid_at(now) ==> {
                &&& r is Ok
                &&& final(self).identities() == registered(old(self).identities(), identity)
            },
            !identity.valid_at(now) ==> {
                &&& r matches Err(MapError::AuthFailed(m)) && m@ == "Certificat invalide pour "@ + identity.node_id.0@
                &&& final(self).identities() == old(self).identities()
            },
            final(self).capabilities() == old(self).capabilities(),
            final(self).revoked() == old(self).revoked(),
    {
        if !identity.is_valid_at(now) {
            return Err(MapError::AuthFailed(concat2("Certificat invalide pour ", identity.node_id.0.as_str())));
        }
        let i = self.find_identity(&identity.node_id);
        if i < self.identities.len() {
            self.identities.set(i, identity);
        } else {
            self.identities.push(identity);
        }
        Ok(())
    }

    /// Registers an identity valid now.
    pub fn register_identity(&mut self, identity: MarsIdentity) -> (r: Result<(), MapError>)
        ensures
            exists|now: i64| in_clock_range(now) && {
                &&& identity.valid_at(now) ==> {
                    &&& r is Ok
                    &&& final(self).identities() == registered(old(self).identities(), identity)
                }
                &&& !identity.valid_at(now) ==> {
                    &&& r matches Err(MapError::AuthFailed(m)) && m@ == "Certificat invalide pour "@ + identity.node_id.0@
                    &&& final(self).identities() == old(self).identities()
                }
            },
            final(self).capabilities() == old(self).capabilities(),
            final(self).revoked() == old(self).revoked(),
    {
        let now = now_millis();
        self.register_identity_at(identity, now)
    }

    /// Grants capabilities to a node (a capability already held is not
    /// added twice).
    pub fn grant_capabilities(&mut self, node_id: &NodeId, caps: Vec<Capability>)
        ensures
            ({
                let e = caps_index(old(self).capabilities(), node_id.0@);
                let cs = old(self).capabilities();
                final(self).capabilities() == if e < cs.len() {
                    cs.update(e, (cs[e].0, caps_added(cs[e].1, caps@)))
                } else {
                    cs.push((*node_id, caps_added(Seq::empty(), caps@)))
                }
            }),
            final(self).identities() == old(self).identities(),
            final(self).revoked() == old(self).revoked(),
    {
        let e = self.find_caps(node_id);
        let ghost cs = self.capabilities();
        let found = e < self.capabilities.len();
        let (owner, mut set) = if found {
            self.capabilities.remove(e)
        } else {
            (node_id.clone(), Vec::new())
        };
        let ghost start = set@;
        let mut rest = caps;
        let ghost all = rest@;
        let mut i: usize = 0;
        while rest.len() > 0
            invariant
                rest@ == all.skip(all.len() - rest@.len()),
                rest@.len() <= all.len(),
                set@ == caps_added(start, all.take(all.len() - rest@.len())),
                found ==> self.capabilities@.len() + 1 == cs.len() && e < cs.len(),
                found ==> self.capabilities() == cs.remove(e as int),
                found ==> owner == cs[e as int].0 && start == cs[e as int].1,
                !found ==> self.capabilities() == cs && owner == *node_id && start == Seq::<Capability>::empty(),
                !found ==> e == cs.len(),
            decreases rest@.len(),
        {
            let ghost k = all.len() - rest@.len();
            let c = rest.remove(0);
            proof {
                assert(all.take(k + 1).drop_last() =~= all.take(k));
                assert(c == all[k]);
                assert(all.take(k + 1).last() == c);
                assert(rest@ =~= all.skip(k + 1));
            }
            if !contains_capability(&set, &c) {
                set.push(c);
            }
        }
        proof {
            assert(all.take(all.len() as int) =~= all);
        }
        if found {
            self.capabilities.insert(e, (owner, set));
            proof {
                assert(self.capabilities() =~= cs.update(e as int, (cs[e as int].0, caps_added(cs[e as int].1, all))));
            }
        } else {
            self.capabilities.push((owner, set));
            proof {
                assert(self.capabilities() =~= cs.push((*node_id, caps_added(Seq::empty(), all))));
            }
        }
    }

    /// Revokes a node: it is listed as revoked and its identity is dropped.
    pub fn revoke_identity(&mut self, node_id: &NodeId)
        ensures
            final(self).revoked() == revoked_with(old(self).revoked(), *node_id),
            ({
                let i = identity_index(old(self).identities(), node_id.0@);
                final(self).identities() == if i < old(self).identities().len() {
                    old(self).identities().remove(i)
                } else {
                    old(self).identities()
                }
            }),
            final(self).capabilities() == old(self).capabilities(),
    {
        if !self.is_revoked(node_id) {
            self.revoked.push(node_id.clone());
        }
        let i = self.find_identity(node_id);
        if i < self.identities.len() {
            let _ = self.identities.remove(i);
        }
    }

    /// Authenticates a node at `now`: refused when revoked, unknown, or
    /// its certificate is not valid at `now`; else its identity.
    pub fn authenticate_at(&self, node_id: &NodeId, now: i64) -> (r: Result<&MarsIdentity, AuthError>)
        ensures
            answers(r, auth_outcome(self.identities(), self.revoked(), *node_id, now)),
    {
        if self.is_revoked(node_id) {
            return Err(AuthError::CertificateRevoked(node_id.clone()));
        }
        let i = self.find_identity(node_id);
        if i >= self.identities.len() {
            return Err(AuthError::UnknownCertificate(node_id.0.clone()));
        }
        let identity = &self.identities[i];
        if !identity.is_valid_at(now) {
            return Err(AuthError::CertificateExpired(node_id.clone()));
        }
        Ok(identity)
    }

    /// Authenticates a node now.
    pub fn authenticate(&self, node_id: &NodeId) -> (r: Result<&MarsIdentity, AuthError>)
        ensures
            exists|now: i64| in_clock_range(now) && answers(r, auth_outcome(self.identities(), self.revoked(), *node_id, now)),
    {
        let now = now_millis();
        self.authenticate_at(node_id, now)
    }

    /// Drops the identities expired at `now` and the capabilities no
    /// longer in force; returns how many identities were dropped.
    pub fn cleanup_expired_at(&mut self, now: i64) -> (count: usize)
        ensures
            count == expired_count(old(self).identities(), now),
            final(self).identities() == live_identities(old(self).identities(), now),
            final(self).capabilities() == old(self).capabilities().map_values(
                |e: (NodeId, Seq<Capability>)| (e.0, live_caps(e.1, now))),
            final(self).revoked() == old(self).revoked(),
    {
        let mut rest: Vec<MarsIdentity> = Vec::new();
        std::mem::swap(&mut rest, &mut self.identities);
        let ghost all = rest@;
        let n = rest.len();
        let mut count: usize = 0;
        while rest.len() > 0
            invariant
                rest@ == all.skip(all.len() - rest@.len()),
                rest@.len() <= all.len(),
                all.len() == n,
                self.capabilities@ == old(self).capabilities@,
                self.revoked@ == old(self).revoked@,
                self.identities@ == live_identities(all.take(all.len() - rest@.len()), now),
                count == expired_count(all.take(all.len() - rest@.len()), now),
                count <= all.len() - rest@.len(),
            decreases rest@.len(),
        {
            let ghost k = all.len() - rest@.len();
            let id = rest.remove(0);
            proof {
                assert(all.take(k + 1).drop_last() =~= all.take(k));
                assert(id == all[k]);
                assert(all.take(k + 1).last() == id);
                assert(rest@ =~= all.skip(k + 1));
            }
            if id.expires_at < now {
                count = count + 1;
            } else {
                self.identities.push(id);
            }
        }
        proof {
            assert(all.take(all.len() as int) =~= all);
        }
        let ghost cs = self.capabilities();
        let mut entries: Vec<(NodeId, Vec<Capability>)> = Vec::new();
        std::mem::swap(&mut entries, &mut self.capabilities);
        let ghost orig = entries@;
        let mut j: usize = 0;
        let mut cleaned: Vec<(NodeId, Vec<Capability>)> = Vec::new();
        while entries.len() > 0
            invariant
                entries@ == orig.skip(orig.len() - entries@.len()),
                entries@.len() <= orig.len(),
                self.identities@ == live_identities(all, now),
                self.revoked@ == old(self).revoked@,
                cs == old(self).capabilities(),
                cleaned@.len() == orig.len() - entries@.len(),
                cs == orig.map_values(|e: (NodeId, Vec<Capability>)| (e.0, e.1@)),
                cleaned@.map_values(|e: (NodeId, Vec<Capability>)| (e.0, e.1@))
                    == cs.take(orig.len() - entries@.len()).map_values(|e: (NodeId, Seq<Capability>)| (e.0, live_caps(e.1, now))),
            decreases entries@.len(),
        {
            let ghost k = orig.len() - entries@.len();
            let (owner, set) = entries.remove(0);
            proof {
                assert(entries@ =~= orig.skip(k + 1));
                assert(orig[k] == (owner, set));
            }
            let ghost sv = set@;
            let kept = live_only(set, now);
            let ghost before = cleaned@;
            let ghost ow = owner;
            cleaned.push((owner, kept));
            proof {
                assert(cs[k] == (ow, sv));
                let lhs = cleaned@.map_values(|e: (NodeId, Vec<Capability>)| (e.0, e.1@));
                let rhs = cs.take(k + 1).map_values(|e: (NodeId, Seq<Capability>)| (e.0, live_caps(e.1, now)));
                let prev = cs.take(k).map_values(|e: (NodeId, Seq<Capability>)| (e.0, live_caps(e.1, now)));
                assert forall|j: int| 0 <= j < k + 1 implies lhs[j] == rhs[j] by {
                    if j < k {
                        assert(cleaned@[j] == before[j]);
                        assert(lhs[j] == prev[j]);
                    } else {
                        assert(cleaned@[j] == (ow, kept));
                    }
                }
                assert(lhs =~= rhs);
            }
        }
        proof {
            assert(cs.take(orig.len() as int) =~= cs);
        }
        self.capabilities = cleaned;
        count
    }

    /// Drops what expired now; returns how many identities were dropped.
    pub fn cleanup_expired(&mut self) -> (count: usize)
        ensures
            exists|now: i64| in_clock_range(now) && count == expired_count(old(self).identities(), now)
                && final(self).identities() == live_identities(old(self).identities(), now)
                && final(self).capabilities() == old(self).capabilities().map_values(
                    |e: (NodeId, Seq<Capability>)| (e.0, live_caps(e.1, now))),
            final(self).revoked() == old(self).revoked(),
    {
        let now = now_millis();
        self.cleanup_expired_at(now)
    }

    /// Counts for a security audit at `now`.
    pub fn audit_report_at(&self, now: i64) -> (rep: AuthAuditReport)
        requires
            total_caps(self.capabilities()) <= usize::MAX,
        ensures
            rep.total_identities == self.identities().len(),
            rep.total_capabilities == total_caps(self.capabilities()),
            rep.revoked_count == self.revoked().len(),
            rep.expiring_soon == expiring_count(self.identities(), now),
            rep.expired == expired_count(self.identities(), now),
    {
        let ids = &self.identities;
        let mut soon: usize = 0;
        let mut expired: usize = 0;
        let mut i: usize = 0;
        while i < ids.len()
            invariant
                i <= ids@.len(),
                soon == expiring_count(ids@.take(i as int), now),
                expired == expired_count(ids@.take(i as int), now),
                soon <= i,
                expired <= i,
            decreases ids@.len() - i,
        {
            proof {
                assert(ids@.take(i + 1).drop_last() =~= ids@.take(i as int));
                assert(ids@.take(i + 1).last() == ids@[i as int]);
            }
            let d = ids[i].days_until_expiry_at(now);
            if d < 30 && d >= 0 {
                soon = soon + 1;
            }
            if ids[i].expires_at < now {
                expired = expired + 1;
            }
            i = i + 1;
        }
        proof {
            assert(ids@.take(ids@.len() as int) =~= ids@);
        }
        let cs = &self.capabilities;
        let ghost cv = self.capabilities();
        let mut total: usize = 0;
        let mut k: usize = 0;
        while k < cs.len()
            invariant
                k <= cs@.len(),
                cv == cs@.map_values(|e: (NodeId, Vec<Capability>)| (e.0, e.1@)),
                total == total_caps(cv.take(k as int)),
                total_caps(cv) <= usize::MAX,
            decreases cs@.len() - k,
        {
            proof {
                assert(cv.take(k + 1).drop_last() =~= cv.take(k as int));
                assert(cv.take(k + 1).last() == cv[k as int]);
                lemma_total_caps_prefix(cv, k + 1);
            }
            total = total + cs[k].1.len();
            k = k + 1;
        }
        proof {
            assert(cv.take(cs@.len() as int) =~= cv);
        }
        AuthAuditReport {
            total_identities: ids.len(),
            total_capabilities: total,
            revoked_count: self.revoked.len(),
            expiring_soon: soon,
            expired,
        }
    }

    /// Counts for a security audit now.
    pub fn audit_report(&self) -> (rep: AuthAuditReport)
        requires
            total_caps(self.capabilities()) <= usize::MAX,
        ensures
            rep.total_identities == self.identities().len(),
            rep.total_capabilities == total_caps(self.capabilities()),
            rep.revoked_count == self.revoked().len(),
            exists|now: i64| in_clock_range(now) && rep.expiring_soon == expiring_count(self.identities(), now)
                && rep.expired == expired_count(self.identities(), now),
    {
        let now = now_millis();
        self.audit_report_at(now)
    }

    /// Whether a node holds a capability of this name that covers the
    /// requested scope.
    pub fn check_capability(&self, node_id: &NodeId, required_capability: &str, scope: &CapabilityScope) -> (r: bool)
        ensures
            r == exists|k: int| 0 <= k < caps_of(self.capabilities(), node_id.0@).len() && {
                let c = #[trigger] caps_of(self.capabilities(), node_id.0@)[k];
                c.name@ == required_capability@ && covers(c, *scope)
            },
    {
        let e = self.find_caps(node_id);
        if e >= self.capabilities.len() {
            return false;
        }
        let set = &self.capabilities[e].1;
        let ghost cs = caps_of(self.capabilities(), node_id.0@);
        proof {
            assert(cs == set@);
        }
        let mut i: usize = 0;
        while i < set.len()
            invariant
                i <= set@.len(),
                cs == set@,
                cs == caps_of(self.capabilities(), node_id.0@),
                forall|k: int| 0 <= k < i ==> !({
                    let c = #[trigger] cs[k];
                    c.name@ == required_capability@ && covers(c, *scope)
                }),
            decreases set@.len() - i,
        {
            if str_eq(set[i].name.as_str(), required_capability) && cap_matches_scope(&set[i], scope) {
                proof {
                    let c = caps_of(self.capabilities(), node_id.0@)[i as int];
                    assert(c == set@[i as int]);
                    assert(c.name@ == required_capability@ && covers(c, *scope));
                }
                return true;
            }
            i = i + 1;
        }
        false
    }
}

/// The identities after registering `identity`: in place of the one of
/// the same node, else added.
pub open spec fn registered(ids: Seq<MarsIdentity>, identity: MarsIdentity) -> Seq<MarsIdentity> {
    let i = identity_index(ids, identity.node_id.0@);
    if i < ids.len() {
        ids.update(i, identity)
    } else {
        ids.push(identity)
    }
}

/// The revoked nodes after revoking `n`.
pub open spec fn revoked_with(revoked: Seq<NodeId>, n: NodeId) -> Seq<NodeId> {
    if names_node(revoked, n.0@) {
        revoked
    } else {
        revoked.push(n)
    }
}

/// Revocation is final: once a node is revoked, authenticating it is
/// refused as revoked, whatever identities are registered and whenever.
pub proof fn lemma_revoked_always_refused(ids: Seq<MarsIdentity>, revoked: Seq<NodeId>, n: NodeId, now: i64)
    ensures
        auth_outcome(ids, revoked_with(revoked, n), n, now) == Err::<MarsIdentity, AuthError>(AuthError::CertificateRevoked(n)),
{
    let r = revoked_with(revoked, n);
    if !names_node(revoked, n.0@) {
        assert(r[r.len() - 1] == n);
        assert(names_node(r, n.0@));
    }
}

/// A registered identity authenticates: right after registering an
/// identity valid at `now`, authenticating its node at `now` gives it
/// back, unless the node was revoked.
pub proof fn lemma_registered_authenticates(ids: Seq<MarsIdentity>, revoked: Seq<NodeId>, identity: MarsIdentity, now: i64)
    requires
        identity.valid_at(now),
        !names_node(revoked, identity.node_id.0@),
    ensures
        auth_outcome(registered(ids, identity), revoked, identity.node_id, now) == Ok::<MarsIdentity, AuthError>(identity),
{
    let n = identity.node_id.0@;
    let i = identity_index(ids, n);
    lemma_identity_index_props(ids, n);
    let after = registered(ids, identity);
    assert forall|j: int| 0 <= j < i implies (#[trigger] after[j]).node_id.0@ != n by {
        assert(after[j] == ids[j]);
    }
    lemma_identity_index_at(after, n, i);
}

/// What `identity_index` finds: no earlier identity has the node, and the
/// one found has it.
pub proof fn lemma_identity_index_props(ids: Seq<MarsIdentity>, n: Seq<char>)
    ensures
        0 <= identity_index(ids, n) <= ids.len(),
        forall|j: int| 0 <= j < identity_index(ids, n) ==> (#[trigger] ids[j]).node_id.0@ != n,
        identity_index(ids, n) < ids.len() ==> ids[identity_index(ids, n)].node_id.0@ == n,
    decreases ids.len(),
{
    if ids.len() > 0 && ids[0].node_id.0@ != n {
        lemma_identity_index_props(ids.drop_first(), n);
        assert forall|j: int| 0 <= j < identity_index(ids, n) implies (#[trigger] ids[j]).node_id.0@ != n by {
            if j > 0 {
                assert(ids[j] == ids.drop_first()[j - 1]);
            }
        }
    }
}

/// What authenticating node `n` at `now` gives: refused when revoked,
/// unknown, or not valid at `now`; else the registered identity.
pub open spec fn auth_outcome(
    ids: Seq<MarsIdentity>,
    revoked: Seq<NodeId>,
    n: NodeId,
    now: i64,
) -> Result<MarsIdentity, AuthError> {
    let i = identity_index(ids, n.0@);
    if names_node(revoked, n.0@) {
        Err(AuthError::CertificateRevoked(n))
    } else if i >= ids.len() {
        Err(AuthError::UnknownCertificate(n.0))
    } else if !ids[i].valid_at(now) {
        Err(AuthError::CertificateExpired(n))
    } else {
        Ok(ids[i])
    }
}

/// Whether an answer given by reference is the outcome `o`.
pub open spec fn answers(r: Result<&MarsIdentity, AuthError>, o: Result<MarsIdentity, AuthError>) -> bool {
    match (r, o) {
        (Ok(a), Ok(b)) => *a == b,
        (Err(x), Err(y)) => x == y,
        _ => false,
    }
}

/// `identity_index` is the first place holding the node.
pub proof fn lemma_identity_index_at(ids: Seq<MarsIdentity>, n: Seq<char>, p: int)
    requires
        0 <= p <= ids.len(),
        forall|j: int| 0 <= j < p ==> (#[trigger] ids[j]).node_id.0@ != n,
        p < ids.len() ==> ids[p].node_id.0@ == n,
    ensures
        identity_index(ids, n) == p,
    decreases ids.len(),
{
    if ids.len() > 0 && p > 0 {
        assert(ids[0].node_id.0@ != n);
        assert forall|j: int| 0 <= j < p - 1 implies (#[trigger] ids.drop_first()[j]).node_id.0@ != n by {
            assert(ids.drop_first()[j] == ids[j + 1]);
        }
        if p < ids.len() {
            assert(ids.drop_first()[p - 1] == ids[p]);
        }
        lemma_identity_index_at(ids.drop_first(), n, p - 1);
    }
}

/// `caps_index` is the first place holding the node.
pub proof fn lemma_caps_index_at(cs: Seq<(NodeId, Seq<Capability>)>, n: Seq<char>, p: int)
    requires
        0 <= p <= cs.len(),
        forall|j: int| 0 <= j < p ==> (#[trigger] cs[j]).0.0@ != n,
        p < cs.len() ==> cs[p].0.0@ == n,
    ensures
        caps_index(cs, n) == p,
    decreases cs.len(),
{
    if cs.len() > 0 && p > 0 {
        assert(cs[0].0.0@ != n);
        assert forall|j: int| 0 <= j < p - 1 implies (#[trigger] cs.drop_first()[j]).0.0@ != n by {
            assert(cs.drop_first()[j] == cs[j + 1]);
        }
        if p < cs.len() {
            assert(cs.drop_first()[p - 1] == cs[p]);
        }
        lemma_caps_index_at(cs.drop_first(), n, p - 1);
    }
}

/// Whether two scopes are the same.
fn scope_eq(a: &CapabilityScope, b: &CapabilityScope) -> (r: bool)
    ensures
        r == same_scope(*a, *b),
{
    match (a, b) {
        (CapabilityScope::Global, CapabilityScope::Global) => true,
        (CapabilityScope::Agency(x), CapabilityScope::Agency(y)) => *x == *y,
        (CapabilityScope::Nodes(x), CapabilityScope::Nodes(y)) => {
            if x.len() != y.len() {
                return false;
            }
            let mut i: usize = 0;
            while i < x.len()
                invariant
                    i <= x@.len(),
                    x@.len() == y@.len(),
                    *a == CapabilityScope::Nodes(*x),
                    *b == CapabilityScope::Nodes(*y),
                    forall|k: int| 0 <= k < i ==> (#[trigger] x@[k]).0@ == y@[k].0@,
                decreases x@.len() - i,
            {
                if !str_eq(x[i].0.as_str(), y[i].0.as_str()) {
                    return false;
                }
                i = i + 1;
            }
            true
        },
        (CapabilityScope::Resource(x), CapabilityScope::Resource(y)) => str_eq(x.as_str(), y.as_str()),
        _ => false,
    }
}

/// Whether the same capability is in `set`.
fn contains_capability(set: &Vec<Capability>, c: &Capability) -> (r: bool)
    ensures
        r == has_same(set@, *c),
{
    let mut i: usize = 0;
    while i < set.len()
        invariant
            i <= set@.len(),
            forall|k: int| 0 <= k < i ==> !same_capability(#[trigger] set@[k], *c),
        decreases set@.len() - i,
    {
        if str_eq(set[i].name.as_str(), c.name.as_str()) && scope_eq(&set[i].scope, &c.scope)
            && set[i].expires_at == c.expires_at {
            proof {
                assert(same_capability(set@[i as int], *c));
            }
            return true;
        }
        i = i + 1;
    }
    false
}

/// The capabilities still in force at `now`, in order.
fn live_only(set: Vec<Capability>, now: i64) -> (kept: Vec<Capability>)
    ensures
        kept@ == live_caps(set@, now),
{
    let mut rest = set;
    let ghost all = rest@;
    let mut kept: Vec<Capability> = Vec::new();
    while rest.len() > 0
        invariant
            rest@ == all.skip(all.len() - rest@.len()),
            rest@.len() <= all.len(),
            kept@ == live_caps(all.take(all.len() - rest@.len()), now),
        decreases rest@.len(),
    {
        let ghost k = all.len() - rest@.len();
        let c = rest.remove(0);
        proof {
            assert(all.take(k + 1).drop_last() =~= all.take(k));
            assert(c == all[k]);
            assert(all.take(k + 1).last() == c);
            assert(rest@ =~= all.skip(k + 1));
        }
        let live = match c.expires_at {
            None => true,
            Some(e) => e > now,
        };
        if live {
            kept.push(c);
        }
    }
    proof {
        assert(all.take(all.len() as int) =~= all);
    }
    kept
}

/// A prefix holds no more capabilities than the whole.
pub proof fn lemma_total_caps_prefix(cs: Seq<(NodeId, Seq<Capability>)>, k: int)
    requires
        0 <= k <= cs.len(),
    ensures
        total_caps(cs.take(k)) <= total_caps(cs),
    decreases cs.len(),
{
    if k < cs.len() {
        assert(cs.drop_last().take(k) =~= cs.take(k)) by {
            assert(k <= cs.drop_last().len());
        }
        lemma_total_caps_prefix(cs.drop_last(), k);
    } else {
        assert(cs.take(k) =~= cs);
    }
}

} // verus!
