use paxos_node::acceptor::{Acceptor, Acceptor_Status, Promise};
use paxos_node::proposal::Proposal;

fn prop(id: i32, key: &str, value: &str) -> Proposal {
    Proposal::new(id, key.to_string(), value.to_string())
}

#[test]
fn proposal_getters() {
    let p = prop(4, "k", "v");
    assert_eq!(p.get_proposal_id(), 4);
    assert_eq!(p.get_key(), "k");
    assert_eq!(p.get_value(), "v");
    let q = p.clone();
    assert_eq!(q.get_proposal_id(), 4);
    assert_eq!(q.get_value(), "v");
}

#[test]
fn fresh_acceptor_promises_without_prior() {
    let mut a = Acceptor::new();
    assert!(a.get_last_accepted_proposal().is_none());
    let promise = a.prepare(prop(1, "k", "v")).unwrap();
    assert_eq!(promise.get_promised_proposal_id(), 1);
    assert_eq!(promise.get_accepted_proposal_id(), None);
    assert_eq!(promise.get_accepted_value(), None);
}

#[test]
fn promise_recovers_previously_accepted() {
    let mut a = Acceptor::new();
    let m = a.accept(prop(5, "k", "v")).unwrap();
    assert!(m.status == Acceptor_Status::Accepted);
    assert_eq!(m.proposal_id, 5);
    let promise = a.prepare(prop(7, "k", "other")).unwrap();
    assert_eq!(promise.get_promised_proposal_id(), 7);
    assert_eq!(promise.get_accepted_proposal_id(), Some(5));
    assert_eq!(promise.get_accepted_value(), Some("v".to_string()));
}

#[test]
fn lower_accept_after_accept_is_rejected() {
    let mut a = Acceptor::new();
    assert!(a.accept(prop(8, "k", "v")).is_some());
    assert!(a.accept(prop(7, "k", "w")).is_none());
    assert!(a.accept(prop(3, "k", "w")).is_none());
    assert!(a.prepare(prop(6, "k", "w")).is_none());
    assert!(a.accept(prop(8, "k", "again")).is_some());
    assert!(a.accept(prop(9, "k", "later")).is_some());
    assert_eq!(a.get_last_accepted_proposal().unwrap().get_value(), "later");
}

#[test]
fn accept_after_higher_promise_is_rejected() {
    let mut a = Acceptor::new();
    assert!(a.prepare(prop(10, "k", "v")).is_some());
    assert!(a.accept(prop(9, "k", "v")).is_none());
    assert!(a.accept(prop(10, "k", "v")).is_some());
}

#[test]
fn rejection_leaves_state_unchanged() {
    let mut a = Acceptor::new();
    assert!(a.accept(prop(4, "k", "v")).is_some());
    assert!(a.prepare(prop(6, "k", "x")).is_some());
    assert!(a.prepare(prop(5, "k", "y")).is_none());
    assert!(a.accept(prop(5, "k", "y")).is_none());
    let last = a.get_last_accepted_proposal().unwrap();
    assert_eq!(last.get_proposal_id(), 4);
    assert_eq!(last.get_value(), "v");
    // the promise is still 6, not raised by the rejected calls
    let promise = a.prepare(prop(6, "k", "z")).unwrap();
    assert_eq!(promise.get_promised_proposal_id(), 6);
    assert_eq!(promise.get_accepted_proposal_id(), Some(4));
}

#[test]
fn equal_id_prepare_is_promised_again() {
    let mut a = Acceptor::new();
    assert!(a.prepare(prop(3, "k", "v")).is_some());
    assert!(a.prepare(prop(3, "k", "v")).is_some());
}

#[test]
fn negative_id_is_below_fresh_promise() {
    let mut a = Acceptor::new();
    assert!(a.prepare(prop(-1, "k", "v")).is_none());
    assert!(a.accept(prop(-1, "k", "v")).is_none());
    assert!(a.prepare(prop(0, "k", "v")).is_some());
}

#[test]
fn accept_message_hands_back_proposal() {
    let mut a = Acceptor::new();
    let m = a.accept(prop(2, "key", "value")).unwrap();
    let p = m.get_accepted_proposal();
    assert_eq!(p.get_proposal_id(), 2);
    assert_eq!(p.get_key(), "key");
    assert_eq!(p.get_value(), "value");
}

#[test]
fn promise_getters() {
    let p = Promise::new(9, Some(4), Some("x".to_string()));
    assert_eq!(p.get_promised_proposal_id(), 9);
    assert_eq!(p.get_accepted_proposal_id(), Some(4));
    assert_eq!(p.get_accepted_value(), Some("x".to_string()));
}

use paxos_node::acceptor::AcceptorTable;

#[test]
fn table_keeps_keys_apart() {
    let mut t = AcceptorTable::new();
    assert!(t.prepare(prop(10, "a", "x")).is_some());
    assert!(t.prepare(prop(5, "b", "y")).is_some());
    assert!(t.accept(prop(5, "b", "y")).is_some());
    assert!(t.accept(prop(5, "a", "y")).is_none());
    let promise = t.prepare(prop(6, "b", "z")).unwrap();
    assert_eq!(promise.get_accepted_proposal_id(), Some(5));
    assert_eq!(promise.get_accepted_value(), Some("y".to_string()));
    let promise = t.prepare(prop(11, "a", "z")).unwrap();
    assert_eq!(promise.get_accepted_proposal_id(), None);
}

#[test]
fn table_rejection_leaves_key_unchanged() {
    let mut t = AcceptorTable::new();
    assert!(t.accept(prop(4, "k", "v")).is_some());
    assert!(t.prepare(prop(3, "k", "w")).is_none());
    assert!(t.accept(prop(2, "k", "w")).is_none());
    let promise = t.prepare(prop(4, "k", "u")).unwrap();
    assert_eq!(promise.get_accepted_proposal_id(), Some(4));
    assert_eq!(promise.get_accepted_value(), Some("v".to_string()));
}
