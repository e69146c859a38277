use paxos_node::acceptor::Acceptor_Status;
use paxos_node::proposal::Proposal;
use paxos_node::round::{
    choose_value, count_acks, count_grants, decide_phase1, decide_phase2, granting_nodes,
    has_majority, majority_size, AcceptReply, PromiseReply,
};

fn ack(node: i32, id: i32) -> AcceptReply {
    AcceptReply {
        node_id: node,
        status: Acceptor_Status::Accepted,
        proposal_id: id,
        proposal: Proposal::new(id, "k".to_string(), "v".to_string()),
    }
}

fn reply(node: i32, promised: i32, prior: Option<(i32, &str)>) -> PromiseReply {
    PromiseReply {
        node_id: node,
        promised_proposal_id: promised,
        accepted_proposal_id: prior.map(|p| p.0),
        accepted_value: prior.map(|p| p.1.to_string()),
    }
}

#[test]
fn quorum_of_five() {
    assert!(has_majority(3, 5));
    assert!(!has_majority(2, 5));
    assert_eq!(majority_size(5), 3);
}

#[test]
fn quorum_edges() {
    assert!(has_majority(2, 3));
    assert!(!has_majority(1, 3));
    assert!(has_majority(3, 4));
    assert!(!has_majority(2, 4));
    assert_eq!(majority_size(4), 3);
    assert_eq!(majority_size(1), 1);
    assert_eq!(majority_size(0), 1);
    assert!(has_majority(1, 0));
    assert!(!has_majority(0, 0));
}

#[test]
fn phase1_without_quorum_aborts() {
    let p = Proposal::new(3, "k".to_string(), "v".to_string());
    let replies = vec![reply(1, 3, None), reply(2, 3, None)];
    assert!(decide_phase1(5, &p, &replies).is_none());
    assert!(decide_phase1(4, &p, &replies).is_none());
    assert!(decide_phase1(3, &p, &replies).is_some());
}

#[test]
fn phase1_ignores_promises_of_other_rounds() {
    let p = Proposal::new(3, "k".to_string(), "v".to_string());
    let replies = vec![reply(1, 3, None), reply(2, 2, Some((1, "old"))), reply(3, 4, None)];
    assert_eq!(count_grants(&replies, 3), 1);
    assert!(decide_phase1(3, &p, &replies).is_none());
    assert_eq!(granting_nodes(&replies, 3), vec![1]);
}

#[test]
fn phase1_keeps_client_value_without_prior() {
    let p = Proposal::new(7, "x".to_string(), "1".to_string());
    let replies = vec![reply(1, 7, None), reply(2, 7, None), reply(3, 7, None)];
    let plan = decide_phase1(3, &p, &replies).unwrap();
    assert_eq!(plan.proposal.get_proposal_id(), 7);
    assert_eq!(plan.proposal.get_key(), "x");
    assert_eq!(plan.proposal.get_value(), "1");
    assert_eq!(plan.targets, vec![1, 2, 3]);
}

#[test]
fn phase1_adopts_value_of_earlier_round() {
    // round 10 was accepted by one acceptor before round 12 prepared
    let p = Proposal::new(12, "k".to_string(), "B".to_string());
    let replies = vec![reply(1, 12, None), reply(2, 12, Some((10, "A"))), reply(3, 12, None)];
    let plan = decide_phase1(3, &p, &replies).unwrap();
    assert_eq!(plan.proposal.get_proposal_id(), 12);
    assert_eq!(plan.proposal.get_value(), "A");
}

#[test]
fn highest_prior_wins_and_ties_keep_first() {
    let requested = "mine".to_string();
    let replies = vec![
        reply(1, 20, Some((4, "four"))),
        reply(2, 20, Some((9, "nine"))),
        reply(3, 20, Some((9, "other nine"))),
        reply(4, 20, Some((7, "seven"))),
        reply(5, 19, Some((15, "stale round"))),
    ];
    assert_eq!(choose_value(&replies, 20, &requested), "nine");
    assert_eq!(choose_value(&replies, 21, &requested), "mine");
}

#[test]
fn prior_needs_id_and_value() {
    let requested = "mine".to_string();
    let replies = vec![PromiseReply {
        node_id: 1,
        promised_proposal_id: 5,
        accepted_proposal_id: Some(3),
        accepted_value: None,
    }];
    assert_eq!(choose_value(&replies, 5, &requested), "mine");
}

#[test]
fn phase2_counts_matching_accepts() {
    let replies = vec![
        ack(1, 6),
        ack(2, 5),
        ack(3, 6),
        AcceptReply {
            node_id: 4,
            status: Acceptor_Status::Reject,
            proposal_id: 6,
            proposal: Proposal::new(6, "k".to_string(), "v".to_string()),
        },
    ];
    assert_eq!(count_acks(&replies, 6), 2);
    assert!(decide_phase2(3, 6, &replies));
    assert!(!decide_phase2(4, 6, &replies));
    assert!(!decide_phase2(3, 5, &replies));
    assert!(!decide_phase2(3, 6, &Vec::new()));
}
