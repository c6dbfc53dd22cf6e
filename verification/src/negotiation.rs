//! Multi-round negotiation between agencies over shared Mars resources:
//! a proposal, each participant's answer, and the outcome (consensus at
//! two thirds, another round, or failure). Shares are in thousandths,
//! times in Unix milliseconds.

use vstd::prelude::*;
use crate::clock::{now_millis, in_clock_range};
use crate::hashing::{spec_hex, spec_sha3_256};
use crate::message_types::{MessageId, NegotiationStatus, NodeId};
use crate::text::str_eq;

verus! {

/// Share of a resource proposed for one node.
#[derive(Debug)]
pub struct NodeAllocation {
    pub node_id: NodeId,
    /// Share of the resource, in thousandths.
    pub share_permille: u32,
    /// Time slot (Unix milliseconds), if any.
    pub time_slot: Option<(i64, i64)>,
    pub constraints: Vec<String>,
}

impl Clone for NodeAllocation {
    fn clone(&self) -> (r: Self)
        ensures
            r.node_id == self.node_id,
            r.share_permille == self.share_permille,
            r.time_slot == self.time_slot,
            r.constraints@ == self.constraints@,
    {
        let constraints = self.constraints.clone();
        proof {
            assert(constraints@ =~= self.constraints@);
        }
        NodeAllocation {
            node_id: self.node_id.clone(),
            share_permille: self.share_permille,
            time_slot: self.time_slot,
            constraints,
        }
    }
}

/// A proposed allocation.
#[derive(Debug)]
pub struct NegotiationProposal {
    pub proposer: NodeId,
    pub allocation: Vec<NodeAllocation>,
    pub rationale: String,
}

/// What is negotiated; amounts in thousandths, times in Unix
/// milliseconds.
#[derive(Debug)]
pub enum NegotiationType {
    /// Access to a shared resource.
    ResourceConflict { resource: String, contested_by: Vec<NodeId> },
    /// Sharing a workload.
    WorkloadBalancing { task: String, total_work_milli: i64 },
    /// Access to the communication network, in bits per second.
    CommsBandwidth { total_bandwidth_bps: u64, requested_by: Vec<(NodeId, u64)> },
    /// An observation window.
    ObservationWindow { target: String, window_start: i64, window_end: i64 },
}

/// A participant's decision.
#[derive(Debug)]
pub enum NegotiationDecision {
    Accept,
    Reject { reason: String },
    CounterPropose,
    Abstain,
}

/// A participant's answer to a proposal.
#[derive(Debug)]
pub struct NegotiationResponse {
    pub from: NodeId,
    pub round: u32,
    pub decision: NegotiationDecision,
    pub counter_proposal: Option<NegotiationProposal>,
    pub rationale: String,
}

/// The outcome of a negotiation.
#[derive(Debug)]
pub struct NegotiationResult {
    pub negotiation_id: MessageId,
    pub status: NegotiationStatus,
    pub final_allocation: Vec<NodeAllocation>,
    pub consensus_rounds: u32,
    pub agreements: Vec<NodeId>,
    pub dissenters: Vec<NodeId>,
}

/// A negotiation in progress; `responses` holds one answer per node, in
/// the order the nodes first answered.
#[derive(Debug)]
pub struct NegotiationState {
    pub id: MessageId,
    pub negotiation_type: NegotiationType,
    pub participants: Vec<NodeId>,
    pub initiator: NodeId,
    pub current_round: u32,
    pub max_rounds: u32,
    pub proposals: Vec<NegotiationProposal>,
    pub responses: Vec<NegotiationResponse>,
    pub status: NegotiationStatus,
    pub created_at: i64,
}

/// Errors of the Multi-Agency Protocol.
#[derive(Debug, Clone, PartialEq, Eq)]
pub enum MapError {
    /// No such negotiation (it ended or never started).
    NegotiationTimeout(u64),
    /// An identity was refused.
    AuthFailed(String),
}

/// Counts of the negotiations.
#[derive(Debug, Clone, Copy, PartialEq, Eq, Structural)]
pub struct NegotiationStats {
    pub active_count: usize,
    pub total_completed: usize,
    pub successful: usize,
    pub failed: usize,
    pub timeout: usize,
    /// Share of completed negotiations that reached consensus, in
    /// thousandths (rounded down); 1000 when none completed.
    pub success_rate_permille: u32,
}

/// The nodes whose decision satisfies `pick`, in answer order.
pub open spec fn deciders(rs: Seq<NegotiationResponse>, kind: int) -> Seq<NodeId>
    decreases rs.len(),
{
    if rs.len() == 0 {
        Seq::empty()
    } else if decision_kind(rs.last().decision) == kind {
        deciders(rs.drop_last(), kind).push(rs.last().from)
    } else {
        deciders(rs.drop_last(), kind)
    }
}

/// 0 accept, 1 reject, 2 counter-proposal, 3 abstention.
pub open spec fn decision_kind(d: NegotiationDecision) -> int {
    match d {
        NegotiationDecision::Accept => 0,
        NegotiationDecision::Reject { .. } => 1,
        NegotiationDecision::CounterPropose => 2,
        NegotiationDecision::Abstain => 3,
    }
}

/// The number of acceptances that makes a consensus among `n`
/// participants: two thirds, as 67% rounded up.
pub open spec fn consensus_threshold(n: nat) -> nat {
    (67 * n + 99) / 100
}

/// The consensus threshold is at least two thirds of the participants
/// and never more than all of them.
pub proof fn lemma_consensus_is_two_thirds(n: nat)
    ensures
        3 * consensus_threshold(n) >= 2 * n,
        consensus_threshold(n) <= n,
{
    let t = consensus_threshold(n);
    assert(100 * t <= 67 * n + 99) by (nonlinear_arith)
        requires
            t == (67 * n + 99) / 100,
    ;
    assert(100 * t >= 67 * n) by (nonlinear_arith)
        requires
            t == (67 * n + 99) / 100,
    ;
}

/// The outcome of a negotiation from its state.
pub open spec fn outcome_matches(r: NegotiationResult, st: NegotiationState) -> bool {
    outcome_with(r, st, st.responses@)
}

/// The outcome of the negotiation `st` once its answers are `rs`.
pub open spec fn outcome_with(r: NegotiationResult, st: NegotiationState, rs: Seq<NegotiationResponse>) -> bool {
    let accepts = deciders(rs, 0);
    let rejects = deciders(rs, 1);
    let counters = deciders(rs, 2);
    &&& r.negotiation_id == st.id
    &&& r.consensus_rounds == st.current_round
    &&& if accepts.len() >= consensus_threshold(st.participants@.len()) {
        &&& r.status == NegotiationStatus::Completed
        &&& (st.proposals@.len() > 0 ==> allocation_copy(r.final_allocation@, st.proposals@.last().allocation@))
        &&& (st.proposals@.len() == 0 ==> r.final_allocation@.len() == 0)
        &&& r.agreements@ == accepts
        &&& r.dissenters@ == rejects
    } else if counters.len() > 0 && st.current_round < st.max_rounds {
        &&& r.status == NegotiationStatus::InProgress
        &&& r.final_allocation@.len() == 0
        &&& r.agreements@.len() == 0
        &&& r.dissenters@ == rejects + counters
    } else {
        &&& r.status == NegotiationStatus::Failed
        &&& r.final_allocation@.len() == 0
        &&& r.agreements@ == accepts
        &&& r.dissenters@ == rejects
    }
}

/// `a` holds the same allocations as `b`.
pub open spec fn allocation_copy(a: Seq<NodeAllocation>, b: Seq<NodeAllocation>) -> bool {
    &&& a.len() == b.len()
    &&& forall|i: int| 0 <= i < a.len() ==> {
        &&& #[trigger] a[i].node_id == b[i].node_id
        &&& a[i].share_permille == b[i].share_permille
        &&& a[i].time_slot == b[i].time_slot
        &&& a[i].constraints@ == b[i].constraints@
    }
}

/// The nodes of `rs` whose decision has the given kind.
fn collect_deciders(rs: &Vec<NegotiationResponse>, kind: u8) -> (v: Vec<NodeId>)
    requires
        kind < 4,
    ensures
        v@ == deciders(rs@, kind as int),
{
    let mut v: Vec<NodeId> = Vec::new();
    let mut i: usize = 0;
    while i < rs.len()
        invariant
            i <= rs@.len(),
            kind < 4,
            v@ == deciders(rs@.take(i as int), kind as int),
        decreases rs@.len() - i,
    {
        proof {
            assert(rs@.take(i + 1).drop_last() =~= rs@.take(i as int));
            assert(rs@.take(i + 1).last() == rs@[i as int]);
        }
        let k: u8 = match rs[i].decision {
            NegotiationDecision::Accept => 0,
            NegotiationDecision::Reject { .. } => 1,
            NegotiationDecision::CounterPropose => 2,
            NegotiationDecision::Abstain => 3,
        };
        if k == kind {
            v.push(rs[i].from.clone());
        }
        i = i + 1;
    }
    proof {
        assert(rs@.take(rs@.len() as int) =~= rs@);
    }
    v
}

/// A copy of the allocations.
fn copy_allocations(a: &Vec<NodeAllocation>) -> (v: Vec<NodeAllocation>)
    ensures
        allocation_copy(v@, a@),
{
    let mut v: Vec<NodeAllocation> = Vec::new();
    let mut i: usize = 0;
    while i < a.len()
        invariant
            i <= a@.len(),
            v@.len() == i,
            forall|j: int| 0 <= j < i ==> {
                &&& #[trigger] v@[j].node_id == a@[j].node_id
                &&& v@[j].share_permille == a@[j].share_permille
                &&& v@[j].time_slot == a@[j].time_slot
                &&& v@[j].constraints@ == a@[j].constraints@
            },
        decreases a@.len() - i,
    {
        v.push(a[i].clone());
        i = i + 1;
    }
    v
}

/// Appends copies of node identifiers.
fn append_nodes(v: &mut Vec<NodeId>, extra: &Vec<NodeId>)
    ensures
        final(v)@ == old(v)@ + extra@,
{
    let ghost start = v@;
    let mut i: usize = 0;
    while i < extra.len()
        invariant
            i <= extra@.len(),
            v@ == start + extra@.take(i as int),
        decreases extra@.len() - i,
    {
        v.push(extra[i].clone());
        i = i + 1;
        proof {
            assert(v@ =~= start + extra@.take(i as int));
        }
    }
    proof {
        assert(extra@.take(extra@.len() as int) =~= extra@);
    }
}

/// The outcome of a negotiation from its state: consensus when at least
/// two thirds of the participants accept (the last proposal's allocation
/// is kept), another round when someone counter-proposed and rounds are
/// left, failure otherwise.
pub fn analyze_responses(state: &NegotiationState) -> (r: NegotiationResult)
    ensures
        outcome_matches(r, *state),
{
    let accepts = collect_deciders(&state.responses, 0);
    let rejects = collect_deciders(&state.responses, 1);
    let counters = collect_deciders(&state.responses, 2);
    let n = state.participants.len() as u128;
    let threshold: u128 = (67 * n + 99) / 100;
    if (accepts.len() as u128) >= threshold {
        let final_allocation = if state.proposals.len() > 0 {
            copy_allocations(&state.proposals[state.proposals.len() - 1].allocation)
        } else {
            Vec::new()
        };
        NegotiationResult {
            negotiation_id: state.id.clone(),
            status: NegotiationStatus::Completed,
            final_allocation,
            consensus_rounds: state.current_round,
            agreements: accepts,
            dissenters: rejects,
        }
    } else if counters.len() > 0 && state.current_round < state.max_rounds {
        let mut dissenters = rejects;
        append_nodes(&mut dissenters, &counters);
        NegotiationResult {
            negotiation_id: state.id.clone(),
            status: NegotiationStatus::InProgress,
            final_allocation: Vec::new(),
            consensus_rounds: state.current_round,
            agreements: Vec::new(),
            dissenters,
        }
    } else {
        NegotiationResult {
            negotiation_id: state.id.clone(),
            status: NegotiationStatus::Failed,
            final_allocation: Vec::new(),
            consensus_rounds: state.current_round,
            agreements: accepts,
            dissenters: rejects,
        }
    }
}


/// Position of the first negotiation with this identifier (the length
/// when there is none).
pub open spec fn negotiation_index(s: Seq<NegotiationState>, id: Seq<char>) -> int
    decreases s.len(),
{
    if s.len() == 0 {
        0
    } else if s[0].id.0@ == id {
        0
    } else {
        1 + negotiation_index(s.drop_first(), id)
    }
}

/// The answers after `resp`: it replaces the first answer from the same
/// node, or comes last.
pub open spec fn responses_after(rs: Seq<NegotiationResponse>, resp: NegotiationResponse) -> Seq<NegotiationResponse>
    decreases rs.len(),
{
    if rs.len() == 0 {
        seq![resp]
    } else if rs[0].from.0@ == resp.from.0@ {
        seq![resp] + rs.drop_first()
    } else {
        seq![rs[0]] + responses_after(rs.drop_first(), resp)
    }
}

/// Whether a node has answered.
pub open spec fn answered(rs: Seq<NegotiationResponse>, n: NodeId) -> bool {
    exists|j: int| 0 <= j < rs.len() && rs[j].from.0@ == n.0@
}

/// Whether the initiator and every participant of `st` are among the
/// answers `rs`.
pub open spec fn all_answered_with(st: NegotiationState, rs: Seq<NegotiationResponse>) -> bool {
    &&& answered(rs, st.initiator)
    &&& forall|p: int| 0 <= p < st.participants@.len() ==> answered(rs, #[trigger] st.participants@[p])
}

/// Whether the initiator and every participant have answered.
pub open spec fn all_answered(st: NegotiationState) -> bool {
    all_answered_with(st, st.responses@)
}

/// The number of results with the given status kind (0 completed, 1
/// failed, 2 timed out).
pub open spec fn count_outcomes(rs: Seq<NegotiationResult>, kind: int) -> nat
    decreases rs.len(),
{
    if rs.len() == 0 {
        0
    } else {
        count_outcomes(rs.drop_last(), kind) + (if status_kind(rs.last().status) == kind { 1nat } else { 0nat })
    }
}

/// 0 completed, 1 failed, 2 timed out, 3 other.
pub open spec fn status_kind(s: NegotiationStatus) -> int {
    match s {
        NegotiationStatus::Completed => 0,
        NegotiationStatus::Failed => 1,
        NegotiationStatus::Timeout => 2,
        _ => 3,
    }
}

proof fn lemma_negotiation_index(s: Seq<NegotiationState>, id: Seq<char>, j: int)
    requires
        0 <= j <= s.len(),
        forall|m: int| 0 <= m < j ==> s[m].id.0@ != id,
        j < s.len() ==> s[j].id.0@ == id,
    ensures
        negotiation_index(s, id) == j,
    decreases s.len(),
{
    if s.len() > 0 && j > 0 {
        lemma_negotiation_index(s.drop_first(), id, j - 1);
    }
}

proof fn lemma_responses_after(rs: Seq<NegotiationResponse>, resp: NegotiationResponse, j: int)
    requires
        0 <= j <= rs.len(),
        forall|m: int| 0 <= m < j ==> rs[m].from.0@ != resp.from.0@,
        j < rs.len() ==> rs[j].from.0@ == resp.from.0@,
    ensures
        j < rs.len() ==> responses_after(rs, resp) == rs.update(j, resp),
        j == rs.len() ==> responses_after(rs, resp) == rs.push(resp),
    decreases rs.len(),
{
    if rs.len() > 0 {
        if j == 0 {
            assert(seq![resp] + rs.drop_first() =~= rs.update(0, resp));
        } else {
            lemma_responses_after(rs.drop_first(), resp, j - 1);
            if j < rs.len() {
                assert(seq![rs[0]] + rs.drop_first().update(j - 1, resp) =~= rs.update(j, resp));
            } else {
                assert(seq![rs[0]] + rs.drop_first().push(resp) =~= rs.push(resp));
            }
        }
    }
}

/// The negotiation engine.
pub struct NegotiationEngine {
    active: Vec<NegotiationState>,
    completed: Vec<NegotiationResult>,
    default_max_rounds: u32,
}

/// The engine `f` is `o` with a negotiation `id` started at `now`: it
/// takes the place of an active one with the same identifier, or comes
/// last; it has the given initiator, participants, type and first
/// proposal, round 0, the engine's round limit, no response, and is in
/// progress.
pub open spec fn negotiation_started(
    o: NegotiationEngine,
    f: NegotiationEngine,
    initiator: NodeId,
    participants: Seq<NodeId>,
    negotiation_type: NegotiationType,
    initial_proposal: NegotiationProposal,
    id: Seq<char>,
    now: i64,
) -> bool {
    let k = negotiation_index(o.active(), id);
    let st = f.active()[k];
    &&& k < o.active().len() ==> f.active().len() == o.active().len()
        && forall|j: int| 0 <= j < o.active().len() && j != k ==> f.active()[j] == o.active()[j]
    &&& k == o.active().len() ==> f.active().len() == o.active().len() + 1
        && f.active().take(k) =~= o.active()
    &&& st.id.0@ == id
    &&& st.participants@ =~= participants
    &&& st.initiator == initiator
    &&& st.current_round == 0
    &&& st.max_rounds == o.max_rounds()
    &&& st.proposals@ =~= seq![initial_proposal]
    &&& st.responses@.len() == 0
    &&& st.status == NegotiationStatus::InProgress
    &&& st.created_at == now
    &&& st.negotiation_type == negotiation_type
}

impl NegotiationEngine {
    /// The negotiations in progress.
    pub closed spec fn active(self) -> Seq<NegotiationState> {
        self.active@
    }

    /// The outcomes of the finished negotiations, oldest first.
    pub closed spec fn completed(self) -> Seq<NegotiationResult> {
        self.completed@
    }

    /// The number of rounds a new negotiation may last.
    pub closed spec fn max_rounds(self) -> u32 {
        self.default_max_rounds
    }

    /// An engine with no negotiation.
    pub fn new(max_rounds: u32) -> (e: Self)
        ensures
            e.active().len() == 0,
            e.completed().len() == 0,
            e.max_rounds() == max_rounds,
    {
        NegotiationEngine { active: Vec::new(), completed: Vec::new(), default_max_rounds: max_rounds }
    }

    /// Position of the negotiation with this identifier.
    fn find(s: &Vec<NegotiationState>, id: &MessageId) -> (k: usize)
        ensures
            k as int == negotiation_index(s@, id.0@),
            k <= s@.len(),
    {
        let mut i: usize = 0;
        while i < s.len() && !str_eq(s[i].id.0.as_str(), id.0.as_str())
            invariant
                i <= s@.len(),
                forall|m: int| 0 <= m < i ==> s@[m].id.0@ != id.0@,
            decreases s@.len() - i,
        {
            i = i + 1;
        }
        proof {
            lemma_negotiation_index(s@, id.0@, i as int);
        }
        i
    }

    /// Opens a negotiation at `now` from the initiator's first proposal;
    /// its identifier is derived from `content`, the encoding of the
    /// initiator and the negotiation type. A negotiation with the same
    /// identifier is replaced.
    pub fn start_negotiation_at(
        &mut self,
        initiator: &NodeId,
        participants: Vec<NodeId>,
        negotiation_type: NegotiationType,
        initial_proposal: NegotiationProposal,
        content: &[u8],
        now: i64,
    ) -> (r: Result<MessageId, MapError>)
        ensures
            r matches Ok(id) && id.0@ == spec_hex(spec_sha3_256(content@)),
            final(self).completed() == old(self).completed(),
            final(self).max_rounds() == old(self).max_rounds(),
            negotiation_started(*old(self), *final(self), *initiator, participants@, negotiation_type, initial_proposal,
                spec_hex(spec_sha3_256(content@)), now),
    {
        let id = MessageId::generate(content);
        let state = NegotiationState {
            id: id.clone(),
            negotiation_type,
            participants,
            initiator: initiator.clone(),
            current_round: 0,
            max_rounds: self.default_max_rounds,
            proposals: vec![initial_proposal],
            responses: Vec::new(),
            status: NegotiationStatus::InProgress,
            created_at: now,
        };
        let k = Self::find(&self.active, &id);
        if k < self.active.len() {
            self.active.set(k, state);
        } else {
            self.active.push(state);
            proof {
                assert(self.active@.take(k as int) =~= old(self).active@);
            }
        }
        Ok(id)
    }

    /// Opens a negotiation now.
    pub fn start_negotiation(
        &mut self,
        initiator: &NodeId,
        participants: Vec<NodeId>,
        negotiation_type: NegotiationType,
        initial_proposal: NegotiationProposal,
        content: &[u8],
    ) -> (r: Result<MessageId, MapError>)
        ensures
            r matches Ok(id) && id.0@ == spec_hex(spec_sha3_256(content@)),
            final(self).completed() == old(self).completed(),
            final(self).max_rounds() == old(self).max_rounds(),
            negotiation_index(final(self).active(), spec_hex(spec_sha3_256(content@))) < final(self).active().len(),
            exists|now: i64| #[trigger] in_clock_range(now) && negotiation_started(*old(self), *final(self), *initiator,
                participants@, negotiation_type, initial_proposal, spec_hex(spec_sha3_256(content@)), now),
    {
        let now = now_millis();
        let r = self.start_negotiation_at(initiator, participants, negotiation_type, initial_proposal, content, now);
        proof {
            let id = spec_hex(spec_sha3_256(content@));
            let k = negotiation_index(old(self).active(), id);
            lemma_index_bound(old(self).active(), id);
            assert(final(self).active()[k].id.0@ == id);
            assert forall|m: int| 0 <= m < k implies final(self).active()[m].id.0@ != id by {
                lemma_index_before(old(self).active(), id, m);
                if k == old(self).active().len() {
                    assert(final(self).active().take(k)[m] == final(self).active()[m]);
                }
                assert(final(self).active()[m] == old(self).active()[m]);
            }
            lemma_negotiation_index(final(self).active(), id, k);
        }
        r
    }

    /// Records an answer. Once the initiator and every participant have
    /// answered, the negotiation ends with the outcome of
    /// `analyze_responses`, which is returned and kept; otherwise it stays
    /// open. An unknown negotiation is an error.
    pub fn submit_response(&mut self, negotiation_id: &MessageId, response: NegotiationResponse) -> (r: Result<Option<NegotiationResult>, MapError>)
        ensures
            final(self).max_rounds() == old(self).max_rounds(),
            ({
                let k = negotiation_index(old(self).active(), negotiation_id.0@);
                if k == old(self).active().len() {
                    &&& r == Err::<Option<NegotiationResult>, MapError>(MapError::NegotiationTimeout(0))
                    &&& final(self).active() == old(self).active()
                    &&& final(self).completed() == old(self).completed()
                } else {
                    let st0 = old(self).active()[k];
                    let rs = responses_after(st0.responses@, response);
                    if all_answered_with(st0, rs) {
                        &&& r matches Ok(Some(res)) && outcome_with(res, st0, rs)
                        &&& final(self).active() == old(self).active().remove(k)
                        &&& final(self).completed().len() == old(self).completed().len() + 1
                        &&& final(self).completed().drop_last() == old(self).completed()
                        &&& outcome_with(final(self).completed().last(), st0, rs)
                    } else {
                        &&& r matches Ok(None)
                        &&& final(self).completed() == old(self).completed()
                        &&& final(self).active().len() == old(self).active().len()
                        &&& forall|j: int| 0 <= j < old(self).active().len() && j != k ==> final(self).active()[j] == old(self).active()[j]
                        &&& final(self).active()[k].responses@ == rs
                        &&& final(self).active()[k] == NegotiationState { responses: final(self).active()[k].responses, ..st0 }
                    }
                }
            }),
    {
        let k = Self::find(&self.active, negotiation_id);
        if k == self.active.len() {
            return Err(MapError::NegotiationTimeout(0));
        }
        let ghost before = self.active@;
        let mut st = self.active.remove(k);
        let ghost st0 = st;
        let mut j: usize = 0;
        while j < st.responses.len() && !str_eq(st.responses[j].from.0.as_str(), response.from.0.as_str())
            invariant
                j <= st.responses@.len(),
                forall|m: int| 0 <= m < j ==> st.responses@[m].from.0@ != response.from.0@,
            decreases st.responses@.len() - j,
        {
            j = j + 1;
        }
        let ghost rs0 = st.responses@;
        proof {
            lemma_responses_after(rs0, response, j as int);
        }
        let ghost rs = responses_after(rs0, response);
        let mut responses: Vec<NegotiationResponse> = Vec::new();
        std::mem::swap(&mut responses, &mut st.responses);
        if j < responses.len() {
            responses.set(j, response);
        } else {
            responses.push(response);
        }
        st.responses = responses;
        proof {
            assert(st.responses@ == rs);
        }
        let done = Self::everyone_answered(&st);
        if done {
            let result = analyze_responses(&st);
            let kept = analyze_responses(&st);
            self.completed.push(kept);
            proof {
                assert(self.completed@.drop_last() =~= old(self).completed@);
            }
            Ok(Some(result))
        } else {
            self.active.insert(k, st);
            proof {
                assert forall|m: int| 0 <= m < before.len() && m != k implies self.active@[m] == before[m] by {}
            }
            Ok(None)
        }
    }

    /// Starts the next round with a new proposal: the answers are
    /// cleared, and the negotiation times out once the round count
    /// reaches its limit. An unknown negotiation is an error.
    pub fn next_round(&mut self, negotiation_id: &MessageId, new_proposal: NegotiationProposal) -> (r: Result<(), MapError>)
        ensures
            final(self).completed() == old(self).completed(),
            final(self).max_rounds() == old(self).max_rounds(),
            ({
                let k = negotiation_index(old(self).active(), negotiation_id.0@);
                if k == old(self).active().len() {
                    r == Err::<(), MapError>(MapError::NegotiationTimeout(0)) && final(self).active() == old(self).active()
                } else {
                    let st0 = old(self).active()[k];
                    let st1 = final(self).active()[k];
                    let round = if st0.current_round < u32::MAX { (st0.current_round + 1) as u32 } else { u32::MAX };
                    &&& r is Ok
                    &&& final(self).active().len() == old(self).active().len()
                    &&& forall|j: int| 0 <= j < old(self).active().len() && j != k ==> final(self).active()[j] == old(self).active()[j]
                    &&& st1.current_round == round
                    &&& st1.responses@.len() == 0
                    &&& st1.proposals@ == st0.proposals@.push(new_proposal)
                    &&& st1.status == (if round >= st0.max_rounds { NegotiationStatus::Timeout } else { st0.status })
                    &&& st1.id == st0.id
                    &&& st1.participants == st0.participants
                    &&& st1.initiator == st0.initiator
                    &&& st1.max_rounds == st0.max_rounds
                    &&& st1.negotiation_type == st0.negotiation_type
                    &&& st1.created_at == st0.created_at
                }
            }),
    {
        let k = Self::find(&self.active, negotiation_id);
        if k == self.active.len() {
            return Err(MapError::NegotiationTimeout(0));
        }
        let ghost before = self.active@;
        let mut st = self.active.remove(k);
        st.current_round = st.current_round.saturating_add(1);
        st.responses = Vec::new();
        st.proposals.push(new_proposal);
        if st.current_round >= st.max_rounds {
            st.status = NegotiationStatus::Timeout;
        }
        self.active.insert(k, st);
        proof {
            assert forall|m: int| 0 <= m < before.len() && m != k implies self.active@[m] == before[m] by {}
        }
        Ok(())
    }

    /// Counts of the open and finished negotiations by outcome.
    pub fn statistics(&self) -> (st: NegotiationStats)
        ensures
            st.active_count == self.active().len(),
            st.total_completed == self.completed().len(),
            st.successful == count_outcomes(self.completed(), 0),
            st.failed == count_outcomes(self.completed(), 1),
            st.timeout == count_outcomes(self.completed(), 2),
            st.success_rate_permille == (if self.completed().len() > 0 {
                count_outcomes(self.completed(), 0) * 1000 / self.completed().len()
            } else {
                1000
            }),
    {
        let c = &self.completed;
        let mut successful: usize = 0;
        let mut failed: usize = 0;
        let mut timeout: usize = 0;
        let mut i: usize = 0;
        while i < c.len()
            invariant
                i <= c@.len(),
                successful == count_outcomes(c@.take(i as int), 0),
                failed == count_outcomes(c@.take(i as int), 1),
                timeout == count_outcomes(c@.take(i as int), 2),
                successful <= i,
                failed <= i,
                timeout <= i,
            decreases c@.len() - i,
        {
            proof {
                assert(c@.take(i + 1).drop_last() =~= c@.take(i as int));
            }
            match c[i].status {
                NegotiationStatus::Completed => {
                    successful = successful + 1;
                },
                NegotiationStatus::Failed => {
                    failed = failed + 1;
                },
                NegotiationStatus::Timeout => {
                    timeout = timeout + 1;
                },
                _ => {},
            }
            i = i + 1;
        }
        proof {
            assert(c@.take(c@.len() as int) =~= c@);
        }
        let total = c.len();
        let success_rate_permille: u32 = if total > 0 {
            let q: u128 = (successful as u128) * 1000 / (total as u128);
            proof {
                assert((successful as int) * 1000 / (total as int) <= 1000) by (nonlinear_arith)
                    requires
                        successful <= total,
                        total > 0,
                ;
            }
            q as u32
        } else {
            1000
        };
        NegotiationStats {
            active_count: self.active.len(),
            total_completed: total,
            successful,
            failed,
            timeout,
            success_rate_permille,
        }
    }

    /// The identifiers of the open negotiations.
    pub fn active_negotiations(&self) -> (ids: Vec<MessageId>)
        ensures
            ids@ == self.active().map_values(|s: NegotiationState| s.id),
    {
        let a = &self.active;
        let mut ids: Vec<MessageId> = Vec::new();
        let mut i: usize = 0;
        while i < a.len()
            invariant
                i <= a@.len(),
                a@ == self.active(),
                ids@ == a@.take(i as int).map_values(|s: NegotiationState| s.id),
            decreases a@.len() - i,
        {
            ids.push(a[i].id.clone());
            i = i + 1;
            proof {
                assert(ids@ =~= a@.take(i as int).map_values(|s: NegotiationState| s.id));
            }
        }
        proof {
            assert(a@.take(a@.len() as int) =~= a@);
        }
        ids
    }

    /// Whether the initiator and every participant have answered.
    fn everyone_answered(st: &NegotiationState) -> (b: bool)
        ensures
            b == all_answered(*st),
    {
        if !Self::has_answered(&st.responses, &st.initiator) {
            return false;
        }
        let mut p: usize = 0;
        while p < st.participants.len()
            invariant
                p <= st.participants@.len(),
                forall|q: int| 0 <= q < p ==> answered(st.responses@, #[trigger] st.participants@[q]),
            decreases st.participants@.len() - p,
        {
            if !Self::has_answered(&st.responses, &st.participants[p]) {
                return false;
            }
            p = p + 1;
        }
        true
    }

    /// Whether a node has answered.
    fn has_answered(rs: &Vec<NegotiationResponse>, n: &NodeId) -> (b: bool)
        ensures
            b == answered(rs@, *n),
    {
        let mut i: usize = 0;
        while i < rs.len()
            invariant
                i <= rs@.len(),
                forall|m: int| 0 <= m < i ==> rs@[m].from.0@ != n.0@,
            decreases rs@.len() - i,
        {
            if str_eq(rs[i].from.0.as_str(), n.0.as_str()) {
                return true;
            }
            i = i + 1;
        }
        false
    }
}

/// The first match is within the sequence, or at its end.
proof fn lemma_index_bound(s: Seq<NegotiationState>, id: Seq<char>)
    ensures
        0 <= negotiation_index(s, id) <= s.len(),
        negotiation_index(s, id) < s.len() ==> s[negotiation_index(s, id)].id.0@ == id,
    decreases s.len(),
{
    if s.len() > 0 && s[0].id.0@ != id {
        lemma_index_bound(s.drop_first(), id);
        if negotiation_index(s, id) < s.len() {
            assert(s.drop_first()[negotiation_index(s, id) - 1] == s[negotiation_index(s, id)]);
        }
    }
}

/// Before the first match, no identifier matches.
proof fn lemma_index_before(s: Seq<NegotiationState>, id: Seq<char>, m: int)
    requires
        0 <= m < negotiation_index(s, id),
    ensures
        s[m].id.0@ != id,
    decreases s.len(),
{
    lemma_index_bound(s, id);
    if s.len() > 0 && s[0].id.0@ != id && m > 0 {
        lemma_index_before(s.drop_first(), id, m - 1);
        assert(s.drop_first()[m - 1] == s[m]);
    }
}

} // verus!
