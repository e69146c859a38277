use paxos_node::acceptor::Acceptor_Status;
use paxos_node::cluster::Connection_Status;
use paxos_node::learner::Learner;
use paxos_node::local::{
    insert_with_retries, run_local_round, send_accept, send_prepare, MAX_ROUND_ATTEMPTS,
};
use paxos_node::paxos::PaxosService;
use paxos_node::proposal::Proposal;
use paxos_node::proposer::Proposer;

fn proposer(_name: &str) -> Proposer {
    Proposer::new()
}

fn cluster(name: &str, size: i32) -> Vec<PaxosService> {
    let mut nodes = Vec::new();
    for id in 1..=size {
        let p = proposer(&format!("{}_{}", name, id));
        let mut svc = PaxosService::new(id, format!("127.0.0.1:{}", 9000 + id), p, Some(1));
        for peer in 1..=size {
            svc.register(peer, format!("127.0.0.1:{}", 9000 + peer));
        }
        nodes.push(svc);
    }
    nodes
}

#[test]
fn learner_commit_is_idempotent() {
    let mut l = Learner::new();
    assert_eq!(l.read("k".to_string()), None);
    let p = Proposal::new(1, "k".to_string(), "v".to_string());
    l.insert(p.clone());
    assert_eq!(l.read("k".to_string()), Some("v".to_string()));
    l.insert(p);
    assert_eq!(l.read("k".to_string()), Some("v".to_string()));
    l.insert(Proposal::new(2, "k".to_string(), "w".to_string()));
    assert_eq!(l.read("k".to_string()), Some("w".to_string()));
}

#[test]
fn proposer_issues_increasing_ids() {
    let mut p = proposer("ids");
    assert_eq!(p.get_last_seen_propose_id(), 0);
    assert_eq!(p.next_proposal_id(), Some(1));
    assert_eq!(p.next_proposal_id(), Some(2));
    p.set_last_seen_propose_id(i32::MAX);
    assert_eq!(p.next_proposal_id(), None);
    assert_eq!(p.get_last_seen_propose_id(), i32::MAX);
}

#[test]
fn proposer_prepare_accept_commit() {
    let mut p = proposer("stack");
    let prom = p.prepare(Proposal::new(2, "a".to_string(), "1".to_string())).unwrap();
    assert_eq!(prom.get_promised_proposal_id(), 2);
    assert!(p.accept(Proposal::new(1, "a".to_string(), "0".to_string())).is_none());
    let m = p.accept(Proposal::new(2, "a".to_string(), "1".to_string())).unwrap();
    assert!(m.status == Acceptor_Status::Accepted);
    p.commit(m.get_accepted_proposal());
    assert_eq!(p.read("a".to_string()), Some("1".to_string()));
}

#[test]
fn fan_out_over_local_proposers() {
    let mut nodes = vec![proposer("fan_1"), proposer("fan_2"), proposer("fan_3")];
    // the third node has promised a later round already
    nodes[2].prepare(Proposal::new(9, "q".to_string(), "z".to_string()));
    let p = Proposal::new(4, "q".to_string(), "r".to_string());
    let promises = send_prepare(&mut nodes, p.clone());
    assert_eq!(promises.len(), 2);
    assert_eq!(promises[0].get_promised_proposal_id(), 4);
    send_accept(&mut nodes, p);
    assert_eq!(nodes[0].read("q".to_string()), Some("r".to_string()));
    assert_eq!(nodes[1].read("q".to_string()), Some("r".to_string()));
    assert_eq!(nodes[2].read("q".to_string()), None);
}

#[test]
fn service_starts_with_itself_as_member() {
    let svc = PaxosService::new(2, "h:2".to_string(), proposer("svc_new"), None);
    assert!(svc.ping());
    assert_eq!(svc.get_node_id(), 2);
    assert_eq!(svc.get_leader_id(), 2);
    assert_eq!(svc.cluster_size(), 1);
    assert_eq!(svc.leader_address(), Some("h:2".to_string()));
    let peers = svc.peers();
    assert!(peers[0].status == Connection_Status::Active);
}

#[test]
fn service_register_dedups_and_finds_leader() {
    let mut svc = PaxosService::new(2, "h:2".to_string(), proposer("svc_reg"), Some(1));
    assert_eq!(svc.leader_address(), None);
    assert!(svc.register(1, "h:1".to_string()));
    assert!(svc.register(1, "h:1b".to_string()));
    assert_eq!(svc.cluster_size(), 2);
    assert_eq!(svc.leader_address(), Some("h:1b".to_string()));
}

#[test]
fn service_rpc_handlers() {
    let mut svc = PaxosService::new(5, "h:5".to_string(), proposer("svc_rpc"), None);
    let p = svc.begin_round("k".to_string(), "v".to_string()).unwrap();
    assert_eq!(p.get_proposal_id(), 1);
    let rep = svc.propose(3, "k".to_string(), "v".to_string()).unwrap();
    assert_eq!(rep.node_id, 5);
    assert_eq!(rep.promised_proposal_id, 3);
    assert!(svc.propose(2, "k".to_string(), "v".to_string()).is_none());
    assert!(svc.accept(2, "k".to_string(), "v".to_string()).is_none());
    let acc = svc.accept(3, "k".to_string(), "v".to_string()).unwrap();
    assert_eq!(acc.proposal_id, 3);
    assert!(svc.commit(3, "k".to_string(), "v".to_string()));
    assert_eq!(svc.read("k".to_string()), Some("v".to_string()));
    let rep = svc.propose(4, "k".to_string(), "w".to_string()).unwrap();
    assert_eq!(rep.accepted_proposal_id, Some(3));
    assert_eq!(rep.accepted_value, Some("v".to_string()));
}

#[test]
fn end_to_end_all_reachable() {
    let mut nodes = cluster("e2e_all", 3);
    let reachable = vec![true, true, true];
    let p = run_local_round(&mut nodes, &reachable, 0, "x".to_string(), "1".to_string()).unwrap();
    assert_eq!(p.get_value(), "1");
    for node in nodes.iter_mut() {
        assert_eq!(node.read("x".to_string()), Some("1".to_string()));
    }
}

#[test]
fn end_to_end_one_peer_unreachable() {
    let mut nodes = cluster("e2e_partial", 3);
    let reachable = vec![true, true, false];
    let p = run_local_round(&mut nodes, &reachable, 0, "x".to_string(), "1".to_string());
    assert!(p.is_some());
    assert_eq!(nodes[0].read("x".to_string()), Some("1".to_string()));
    assert_eq!(nodes[1].read("x".to_string()), Some("1".to_string()));
    assert_eq!(nodes[2].read("x".to_string()), None);
}

#[test]
fn end_to_end_minority_fails() {
    let mut nodes = cluster("e2e_minority", 3);
    let reachable = vec![true, false, false];
    assert!(run_local_round(&mut nodes, &reachable, 0, "x".to_string(), "1".to_string()).is_none());
    assert_eq!(nodes[0].read("x".to_string()), None);
}

#[test]
fn end_to_end_later_round_adopts_accepted_value() {
    let mut nodes = cluster("e2e_adopt", 3);
    // round 10 of another proposer reached only node 3
    assert!(nodes[2].accept(10, "k".to_string(), "A".to_string()).is_some());
    // node 2 proposes with ids above 10
    for _ in 0..11 {
        nodes[1].begin_round("k".to_string(), "unused".to_string());
    }
    let reachable = vec![true, true, true];
    let p = run_local_round(&mut nodes, &reachable, 1, "k".to_string(), "B".to_string()).unwrap();
    assert_eq!(p.get_proposal_id(), 12);
    assert_eq!(p.get_value(), "A");
    for node in nodes.iter_mut() {
        assert_eq!(node.read("k".to_string()), Some("A".to_string()));
    }
}

#[test]
fn end_to_end_stale_round_fails() {
    let mut nodes = cluster("e2e_stale", 3);
    assert!(nodes[1].propose(50, "k".to_string(), "z".to_string()).is_some());
    assert!(nodes[2].propose(50, "k".to_string(), "z".to_string()).is_some());
    let reachable = vec![true, true, true];
    assert!(run_local_round(&mut nodes, &reachable, 0, "k".to_string(), "v".to_string()).is_none());
}

#[test]
fn end_to_end_rounds_on_other_keys_are_independent() {
    let mut nodes = cluster("e2e_keys", 3);
    assert!(nodes[1].propose(50, "busy".to_string(), "z".to_string()).is_some());
    assert!(nodes[2].propose(50, "busy".to_string(), "z".to_string()).is_some());
    let reachable = vec![true, true, true];
    let p = run_local_round(&mut nodes, &reachable, 0, "free".to_string(), "v".to_string()).unwrap();
    assert_eq!(p.get_value(), "v");
    assert_eq!(nodes[2].read("free".to_string()), Some("v".to_string()));
}

#[test]
fn retry_with_higher_id_succeeds() {
    let mut nodes = cluster("retry_ok", 3);
    assert!(nodes[1].propose(2, "k".to_string(), "z".to_string()).is_some());
    assert!(nodes[2].propose(2, "k".to_string(), "z".to_string()).is_some());
    let reachable = vec![true, true, true];
    let p = insert_with_retries(&mut nodes, &reachable, 0, "k".to_string(), "v".to_string(), MAX_ROUND_ATTEMPTS)
        .unwrap();
    assert_eq!(p.get_proposal_id(), 2);
    assert_eq!(p.get_value(), "v");
    assert_eq!(nodes[1].read("k".to_string()), Some("v".to_string()));
}

#[test]
fn retries_are_bounded() {
    let mut nodes = cluster("retry_bounded", 3);
    assert!(nodes[1].propose(9, "k".to_string(), "z".to_string()).is_some());
    assert!(nodes[2].propose(9, "k".to_string(), "z".to_string()).is_some());
    let reachable = vec![true, true, true];
    assert!(insert_with_retries(&mut nodes, &reachable, 0, "k".to_string(), "v".to_string(), 3).is_none());
    assert!(insert_with_retries(&mut nodes, &reachable, 0, "k".to_string(), "v".to_string(), 0).is_none());
    assert_eq!(nodes[0].read("k".to_string()), None);
}

#[test]
fn three_of_five_promising_commits_prior_value() {
    let mut nodes = cluster("five", 5);
    // a lower round left value "old" accepted on node 2
    assert!(nodes[1].accept(1, "k".to_string(), "old".to_string()).is_some());
    for _ in 0..4 {
        nodes[0].begin_round("k".to_string(), "unused".to_string());
    }
    let reachable = vec![true, true, true, false, false];
    let p = run_local_round(&mut nodes, &reachable, 0, "k".to_string(), "new".to_string()).unwrap();
    assert_eq!(p.get_proposal_id(), 5);
    assert_eq!(p.get_value(), "old");
    for i in 0..3 {
        assert_eq!(nodes[i].read("k".to_string()), Some("old".to_string()));
    }
    assert_eq!(nodes[3].read("k".to_string()), None);
}

#[test]
fn two_of_five_fails() {
    let mut nodes = cluster("five_fail", 5);
    let reachable = vec![true, true, false, false, false];
    assert!(run_local_round(&mut nodes, &reachable, 0, "k".to_string(), "v".to_string()).is_none());
    assert_eq!(nodes[0].read("k".to_string()), None);
    assert_eq!(nodes[1].read("k".to_string()), None);
}
