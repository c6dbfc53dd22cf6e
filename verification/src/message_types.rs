//! Multi-Agency Protocol message vocabulary: identifiers, priorities,
//! query kinds, response statuses and negotiation statuses.

use vstd::prelude::*;
use crate::clock::{now_millis, in_clock_range};
use crate::hashing::{sha3_256, hex_encode, spec_hex, spec_sha3_256};
use crate::text::{chars_of, str_eq, string_of};

verus! {

/// Identifier of a node of the Mars network.
#[derive(Debug, PartialEq, Eq, Hash)]
pub struct NodeId(pub String);

impl Clone for NodeId {
    fn clone(&self) -> (r: Self)
        ensures
            r == *self,
    {
        NodeId(self.0.clone())
    }
}

/// A space agency taking part in the Multi-Agency Protocol.
#[derive(Debug, Clone, Copy, PartialEq, Eq, Hash, Structural)]
pub enum AgencyId {
    Nasa,
    SpaceX,
    Esa,
    Cnsa,
}

/// Identifier of a MAP message: hex of the SHA3-256 of its content.
#[derive(Debug, PartialEq, Eq, Hash)]
pub struct MessageId(pub String);

impl Clone for MessageId {
    fn clone(&self) -> (r: Self)
        ensures
            r == *self,
    {
        MessageId(self.0.clone())
    }
}

impl MessageId {
    /// The identifier of a content: lower-case hex of its SHA3-256 digest.
    pub fn generate(content: &[u8]) -> (id: MessageId)
        ensures
            id.0@ == spec_hex(spec_sha3_256(content@)),
    {
        let digest = sha3_256(content);
        MessageId(hex_encode(digest.as_slice()))
    }

    /// The identifier as displayed: its first sixteen characters (which
    /// must be ASCII, as those of a generated identifier are).
    pub fn as_text(&self) -> (s: String)
        requires
            self.0@.len() >= 16,
            forall|i: int| 0 <= i < 16 ==> (self.0@[i] as u32) < 128,
        ensures
            s@ == self.0@.take(16),
    {
        let cs = chars_of(self.0.as_str());
        let mut head: Vec<char> = Vec::new();
        let mut i: usize = 0;
        while i < 16
            invariant
                i <= 16,
                cs@ == self.0@,
                cs@.len() >= 16,
                head@ == cs@.take(i as int),
            decreases 16 - i,
        {
            head.push(cs[i]);
            i += 1;
            assert(head@ =~= cs@.take(i as int));
        }
        string_of(head.as_slice())
    }
}

/// Message priority, from the lowest (0) to safety-critical (7).
#[derive(Debug, Clone, Copy, PartialEq, Eq, PartialOrd, Ord, Hash, Structural)]
pub enum Priority {
    Background,
    Low,
    Normal,
    High,
    Urgent,
    Critical,
    Emergency,
    SafetyCritical,
}

impl Priority {
    /// The priority's level, 0 to 7; the derived order follows it.
    pub open spec fn level(self) -> u8 {
        match self {
            Priority::Background => 0,
            Priority::Low => 1,
            Priority::Normal => 2,
            Priority::High => 3,
            Priority::Urgent => 4,
            Priority::Critical => 5,
            Priority::Emergency => 6,
            Priority::SafetyCritical => 7,
        }
    }

    /// The priority's level, 0 to 7.
    pub fn rank(&self) -> (r: u8)
        ensures
            r == self.level(),
    {
        match self {
            Priority::Background => 0,
            Priority::Low => 1,
            Priority::Normal => 2,
            Priority::High => 3,
            Priority::Urgent => 4,
            Priority::Critical => 5,
            Priority::Emergency => 6,
            Priority::SafetyCritical => 7,
        }
    }

    /// Whether this priority is at least the required one.
    pub fn is_sufficient_for(&self, required: Priority) -> (ok: bool)
        ensures
            ok == (self.level() >= required.level()),
    {
        self.rank() >= required.rank()
    }
}

/// Sufficiency of priorities is a total preorder: reflexive and transitive.
pub proof fn lemma_sufficiency_preorder(a: Priority, b: Priority, c: Priority)
    ensures
        a.level() >= a.level(),
        (a.level() >= b.level() && b.level() >= c.level()) ==> a.level() >= c.level(),
        a.level() >= b.level() || b.level() >= a.level(),
{
}

/// Kinds of queries to a MAP peer.
#[derive(Debug, Clone, PartialEq, Eq)]
pub enum QueryType {
    /// Current state of a node.
    StatusRequest,
    /// Available capabilities.
    CapabilitiesRequest,
    /// Relative position.
    PositionRequest,
    /// Available resources.
    ResourceRequest,
    /// Current load.
    LoadRequest,
    /// Availability for a task.
    AvailabilityRequest { task: String, duration_seconds: u32 },
    /// Inventory of resources.
    InventoryRequest { resource_types: Vec<String> },
}

/// Status of a response.
#[derive(Debug, Clone, PartialEq, Eq)]
pub enum ResponseStatus {
    Success,
    PartialSuccess { details: String },
    Rejected { reason: String },
    Busy,
    InsufficientResources,
    CapabilityMismatch,
    PriorityConflict,
    Timeout,
    Error { code: u16, message: String },
}

/// Status of a negotiation.
#[derive(Debug, PartialEq, Eq)]
pub enum NegotiationStatus {
    InProgress,
    Completed,
    Failed,
    Timeout,
    Overridden { by: NodeId, reason: String },
}

impl Clone for NegotiationStatus {
    fn clone(&self) -> (r: Self)
        ensures
            r == *self,
    {
        match self {
            NegotiationStatus::InProgress => NegotiationStatus::InProgress,
            NegotiationStatus::Completed => NegotiationStatus::Completed,
            NegotiationStatus::Failed => NegotiationStatus::Failed,
            NegotiationStatus::Timeout => NegotiationStatus::Timeout,
            NegotiationStatus::Overridden { by, reason } => NegotiationStatus::Overridden {
                by: by.clone(),
                reason: reason.clone(),
            },
        }
    }
}

/// The kind of payload a MAP message carries.
#[derive(Debug, Clone, Copy, PartialEq, Eq, Structural)]
pub enum PayloadKind {
    Query,
    Command,
    Response,
    Negotiation,
    NegotiationResult,
}

/// The name of a payload kind.
pub open spec fn kind_name(k: PayloadKind) -> Seq<char> {
    match k {
        PayloadKind::Query => "Query"@,
        PayloadKind::Command => "Command"@,
        PayloadKind::Response => "Response"@,
        PayloadKind::Negotiation => "Negotiation"@,
        PayloadKind::NegotiationResult => "NegotiationResult"@,
    }
}

/// The envelope of every MAP message. `content` is the canonical
/// encoding of the sender, its agency, the recipients and the payload;
/// the identifier is derived from it.
#[derive(Debug)]
pub struct MapMessage {
    pub version: u8,
    pub message_id: MessageId,
    pub timestamp: i64,
    pub sender: NodeId,
    pub sender_agency: AgencyId,
    pub recipients: Vec<NodeId>,
    pub ttl_seconds: u32,
    pub hop_count: u32,
    pub payload_kind: PayloadKind,
    pub content: Vec<u8>,
    pub signature: Option<Vec<u8>>,
}

/// Whether a message's identifier is the digest of its content.
pub open spec fn intact(m: MapMessage) -> bool {
    m.message_id.0@ == spec_hex(spec_sha3_256(m.content@))
}

impl MapMessage {
    /// A message built at `now`: version 1, identified by the digest of
    /// its content, living 3600 seconds, never relayed, unsigned.
    pub fn new_at(
        sender: NodeId,
        sender_agency: AgencyId,
        recipients: Vec<NodeId>,
        payload_kind: PayloadKind,
        content: Vec<u8>,
        now: i64,
    ) -> (m: Self)
        ensures
            m.version == 1,
            intact(m),
            m.timestamp == now,
            m.sender == sender,
            m.sender_agency == sender_agency,
            m.recipients == recipients,
            m.ttl_seconds == 3600,
            m.hop_count == 0,
            m.payload_kind == payload_kind,
            m.content == content,
            m.signature is None,
    {
        let message_id = MessageId::generate(content.as_slice());
        MapMessage {
            version: 1,
            message_id,
            timestamp: now,
            sender,
            sender_agency,
            recipients,
            ttl_seconds: 3600,
            hop_count: 0,
            payload_kind,
            content,
            signature: None,
        }
    }

    /// A message built now.
    pub fn new(
        sender: NodeId,
        sender_agency: AgencyId,
        recipients: Vec<NodeId>,
        payload_kind: PayloadKind,
        content: Vec<u8>,
    ) -> (m: Self)
        ensures
            m.version == 1,
            intact(m),
            in_clock_range(m.timestamp),
            m.sender == sender,
            m.sender_agency == sender_agency,
            m.recipients == recipients,
            m.ttl_seconds == 3600,
            m.hop_count == 0,
            m.payload_kind == payload_kind,
            m.content == content,
            m.signature is None,
    {
        let now = now_millis();
        Self::new_at(sender, sender_agency, recipients, payload_kind, content, now)
    }

    /// Counts one more hop; whether the message may still travel (its
    /// hops stay under one per minute of its time to live).
    pub fn increment_hop(&mut self) -> (alive: bool)
        requires
            old(self).hop_count < u32::MAX,
        ensures
            final(self).hop_count == old(self).hop_count + 1,
            alive == (final(self).hop_count < old(self).ttl_seconds / 60),
            *final(self) == (MapMessage { hop_count: final(self).hop_count, ..*old(self) }),
    {
        self.hop_count = self.hop_count + 1;
        if self.hop_count >= self.ttl_seconds / 60 {
            return false;
        }
        true
    }

    /// Whether the identifier is still the digest of the content.
    pub fn verify_integrity(&self) -> (ok: bool)
        ensures
            ok == intact(*self),
    {
        let expected = MessageId::generate(self.content.as_slice());
        str_eq(expected.0.as_str(), self.message_id.0.as_str())
    }

    /// The name of the payload kind.
    pub fn payload_type(&self) -> (name: &'static str)
        ensures
            name@ == kind_name(self.payload_kind),
    {
        match self.payload_kind {
            PayloadKind::Query => "Query",
            PayloadKind::Command => "Command",
            PayloadKind::Response => "Response",
            PayloadKind::Negotiation => "Negotiation",
            PayloadKind::NegotiationResult => "NegotiationResult",
        }
    }
}

/// A message as built passes the integrity check, and keeps passing it
/// as it is relayed.
pub proof fn lemma_built_message_intact(m: MapMessage, hops: u32)
    requires
        intact(m),
    ensures
        intact(MapMessage { hop_count: hops, ..m }),
{
}

} // verus!
