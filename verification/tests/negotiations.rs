use spaceone::message_types::{MessageId, NegotiationStatus, NodeId};
use spaceone::negotiation::{
    analyze_responses, MapError, NegotiationDecision, NegotiationEngine, NegotiationProposal, NegotiationResponse,
    NegotiationState, NegotiationType, NodeAllocation,
};

fn allocation(node: &str, share_permille: u32) -> NodeAllocation {
    NodeAllocation { node_id: NodeId(node.into()), share_permille, time_slot: None, constraints: vec![] }
}

fn accept(node: &NodeId) -> NegotiationResponse {
    NegotiationResponse {
        from: node.clone(),
        round: 0,
        decision: NegotiationDecision::Accept,
        counter_proposal: None,
        rationale: "OK".into(),
    }
}

#[test]
fn test_successful_negotiation() {
    let mut engine = NegotiationEngine::new(3);
    let initiator = NodeId("rover-nasa".into());
    let participants = vec![NodeId("habitat-esa".into()), NodeId("orbiter-spacex".into())];
    let proposal = NegotiationProposal {
        proposer: initiator.clone(),
        allocation: vec![allocation("rover-nasa", 500), allocation("habitat-esa", 300), allocation("orbiter-spacex", 200)],
        rationale: "Resource sharing for coordinated exploration".into(),
    };
    let neg_id = engine
        .start_negotiation(
            &initiator,
            participants.clone(),
            NegotiationType::ResourceConflict { resource: "comms_bandwidth".into(), contested_by: participants.clone() },
            proposal,
            b"[\"rover-nasa\",{\"ResourceConflict\":{}}]",
        )
        .unwrap();
    for node_id in &participants {
        let result = engine.submit_response(&neg_id, accept(node_id));
        assert!(result.is_ok());
    }
    let result = engine.submit_response(&neg_id, accept(&initiator)).unwrap();
    assert!(result.is_some());
    let result = result.unwrap();
    assert_eq!(result.status, NegotiationStatus::Completed);
    assert_eq!(result.agreements.len(), 3);
    assert_eq!(result.final_allocation.len(), 3);
    assert_eq!(result.final_allocation[0].share_permille, 500);
}

#[test]
fn test_negotiation_statistics() {
    let mut engine = NegotiationEngine::new(3);
    let initiator = NodeId("node-1".into());
    let participants = vec![NodeId("node-2".into())];
    let proposal = NegotiationProposal {
        proposer: initiator.clone(),
        allocation: vec![allocation("node-1", 500), allocation("node-2", 500)],
        rationale: "test".into(),
    };
    let neg_id = engine
        .start_negotiation(
            &initiator,
            participants.clone(),
            NegotiationType::WorkloadBalancing { task: "test".into(), total_work_milli: 100_000 },
            proposal,
            b"workload",
        )
        .unwrap();
    for node in &[initiator.clone(), participants[0].clone()] {
        engine.submit_response(&neg_id, accept(node)).unwrap();
    }
    let stats = engine.statistics();
    assert_eq!(stats.total_completed, 1);
    assert_eq!(stats.successful, 1);
    assert_eq!(stats.active_count, 0);
    assert_eq!(stats.success_rate_permille, 1000);
}

fn state(participants: usize, responses: Vec<(u32, NegotiationDecision)>, round: u32, max_rounds: u32) -> NegotiationState {
    NegotiationState {
        id: MessageId("n".into()),
        negotiation_type: NegotiationType::ObservationWindow { target: "crater".into(), window_start: 0, window_end: 1 },
        participants: (0..participants).map(|i| NodeId(format!("p{}", i))).collect(),
        initiator: NodeId("init".into()),
        current_round: round,
        max_rounds,
        proposals: vec![NegotiationProposal { proposer: NodeId("init".into()), allocation: vec![allocation("p0", 1000)], rationale: "r".into() }],
        responses: responses
            .into_iter()
            .map(|(i, d)| NegotiationResponse {
                from: NodeId(format!("p{}", i)),
                round,
                decision: d,
                counter_proposal: None,
                rationale: String::new(),
            })
            .collect(),
        status: NegotiationStatus::InProgress,
        created_at: 0,
    }
}

#[test]
fn consensus_needs_two_thirds() {
    // Three participants: two acceptances are not enough (67% of 3 rounds up to 3).
    let st = state(3, vec![(0, NegotiationDecision::Accept), (1, NegotiationDecision::Accept), (2, NegotiationDecision::Reject { reason: "no".into() })], 0, 3);
    assert_eq!(analyze_responses(&st).status, NegotiationStatus::Failed);
    // Two participants: two acceptances make a consensus.
    let st = state(2, vec![(0, NegotiationDecision::Accept), (1, NegotiationDecision::Accept), (2, NegotiationDecision::Reject { reason: "no".into() })], 0, 3);
    let r = analyze_responses(&st);
    assert_eq!(r.status, NegotiationStatus::Completed);
    assert_eq!(r.agreements, vec![NodeId("p0".into()), NodeId("p1".into())]);
    assert_eq!(r.dissenters, vec![NodeId("p2".into())]);
    assert_eq!(r.final_allocation.len(), 1);
    // Four participants: two acceptances are not enough (threshold 3).
    let st = state(4, vec![(0, NegotiationDecision::Accept), (1, NegotiationDecision::Accept), (2, NegotiationDecision::CounterPropose), (3, NegotiationDecision::Reject { reason: "x".into() })], 1, 3);
    let r = analyze_responses(&st);
    assert_eq!(r.status, NegotiationStatus::InProgress);
    assert!(r.agreements.is_empty());
    assert_eq!(r.dissenters, vec![NodeId("p3".into()), NodeId("p2".into())]);
    // No round left: failure.
    let st = state(4, vec![(0, NegotiationDecision::Accept), (2, NegotiationDecision::CounterPropose), (3, NegotiationDecision::Abstain)], 3, 3);
    let r = analyze_responses(&st);
    assert_eq!(r.status, NegotiationStatus::Failed);
    assert_eq!(r.agreements, vec![NodeId("p0".into())]);
    assert!(r.final_allocation.is_empty());
    assert_eq!(r.consensus_rounds, 3);
}

#[test]
fn rounds_and_unknown_negotiations() {
    let mut engine = NegotiationEngine::new(2);
    let init = NodeId("a".into());
    let id = engine
        .start_negotiation_at(
            &init,
            vec![NodeId("b".into())],
            NegotiationType::CommsBandwidth { total_bandwidth_bps: 1000, requested_by: vec![] },
            NegotiationProposal { proposer: init.clone(), allocation: vec![], rationale: String::new() },
            b"x",
            7,
        )
        .unwrap();
    assert_eq!(id.0, "741efa311f97686956946758e0d95f70f11ff2da4f2feb7c54314f44134ac49f");
    assert_eq!(engine.active_negotiations(), vec![id.clone()]);
    assert_eq!(engine.submit_response(&id, accept(&init)).unwrap().is_none(), true);
    engine.next_round(&id, NegotiationProposal { proposer: init.clone(), allocation: vec![], rationale: String::new() }).unwrap();
    engine.next_round(&id, NegotiationProposal { proposer: init.clone(), allocation: vec![], rationale: String::new() }).unwrap();
    let missing = MessageId("missing".into());
    assert_eq!(engine.next_round(&missing, NegotiationProposal { proposer: init.clone(), allocation: vec![], rationale: String::new() }), Err(MapError::NegotiationTimeout(0)));
    assert!(engine.submit_response(&missing, accept(&init)).is_err());
    // After the reset of the answers, both must answer again.
    assert!(engine.submit_response(&id, accept(&NodeId("b".into()))).unwrap().is_none());
    let r = engine.submit_response(&id, accept(&init)).unwrap().unwrap();
    assert_eq!(r.consensus_rounds, 2);
    assert_eq!(engine.statistics().total_completed, 1);
}
