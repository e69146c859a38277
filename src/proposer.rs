use vstd::prelude::*;
use crate::acceptor::{
    accept_step, acceptor_of, opt_accept_view, prepare_step, Accept_Message, AcceptorTable,
    AcceptorView, Promise,
};
use crate::learner::{commit_step, Learner};
use crate::acceptor::opt_string_view;
use crate::proposal::Proposal;

verus! {

/// The mathematical state of a node's proposer stack.
pub struct ProposerView {
    pub acceptors: Map<Seq<char>, AcceptorView>,
    pub applied: Map<Seq<char>, Seq<char>>,
    pub last_seen_propose_id: int,
}

/// A node's proposer, with the node's own acceptors (one per key) and
/// learner.
pub struct Proposer {
    acceptors: AcceptorTable,
    learner: Learner,
    last_seen_propose_id: i32,
}

impl View for Proposer {
    type V = ProposerView;

    closed spec fn view(&self) -> ProposerView {
        ProposerView {
            acceptors: self.acceptors@,
            applied: self.learner@,
            last_seen_propose_id: self.last_seen_propose_id as int,
        }
    }
}

impl Proposer {
    /// A proposer with fresh acceptors, learner and counter.
    pub fn new() -> (r: Proposer)
        ensures
            r@ == (ProposerView {
                acceptors: Map::empty(),
                applied: Map::empty(),
                last_seen_propose_id: 0,
            }),
    {
        let acceptors = AcceptorTable::new();
        let learner = Learner::new();
        let last_seen_propose_id: i32 = 0;
        Proposer { acceptors, learner, last_seen_propose_id }
    }

    pub fn get_last_seen_propose_id(&self) -> (r: i32)
        ensures
            r as int == self@.last_seen_propose_id,
    {
        self.last_seen_propose_id
    }

    pub fn set_last_seen_propose_id(&mut self, id: i32)
        ensures
            final(self)@ == (ProposerView { last_seen_propose_id: id as int, ..old(self)@ }),
    {
        self.last_seen_propose_id = id;
    }

    /// Issues the next proposal id: one above the last, which is recorded.
    /// Returns `None`, changing nothing, once the id space is used up.
    pub fn next_proposal_id(&mut self) -> (r: Option<i32>)
        ensures
            old(self)@.last_seen_propose_id < i32::MAX <==> r is Some,
            r matches Some(id) ==> id as int == old(self)@.last_seen_propose_id + 1
                && final(self)@ == (ProposerView { last_seen_propose_id: id as int, ..old(self)@ }),
            r is None ==> final(self)@ == old(self)@,
    {
        if self.last_seen_propose_id < i32::MAX {
            self.last_seen_propose_id = self.last_seen_propose_id + 1;
            Some(self.last_seen_propose_id)
        } else {
            None
        }
    }

    /// Phase 1 on this node's acceptor for the proposal's key.
    pub fn prepare(&mut self, proposal: Proposal) -> (r: Option<Promise>)
        ensures
            final(self)@.acceptors == old(self)@.acceptors.insert(
                proposal@.key,
                prepare_step(acceptor_of(old(self)@.acceptors, proposal@.key), proposal@).0,
            ),
            match r {
                Some(pr) => Some(pr@),
                None => None,
            } == prepare_step(acceptor_of(old(self)@.acceptors, proposal@.key), proposal@).1,
            final(self)@.applied == old(self)@.applied,
            final(self)@.last_seen_propose_id == old(self)@.last_seen_propose_id,
    {
        self.acceptors.prepare(proposal)
    }

    /// Phase 2 on this node's acceptor for the proposal's key.
    pub fn accept(&mut self, proposal: Proposal) -> (r: Option<Accept_Message>)
        ensures
            final(self)@.acceptors == old(self)@.acceptors.insert(
                proposal@.key,
                accept_step(acceptor_of(old(self)@.acceptors, proposal@.key), proposal@).0,
            ),
            opt_accept_view(r) == accept_step(acceptor_of(old(self)@.acceptors, proposal@.key), proposal@).1,
            r matches Some(m) ==> m.status == crate::acceptor::Acceptor_Status::Accepted
                && m.proposal_id as int == proposal@.id,
            final(self)@.applied == old(self)@.applied,
            final(self)@.last_seen_propose_id == old(self)@.last_seen_propose_id,
    {
        self.acceptors.accept(proposal)
    }

    /// Phase 3: the decided proposal is applied by this node's learner.
    pub fn commit(&mut self, proposal: Proposal)
        ensures
            final(self)@ == (ProposerView {
                applied: commit_step(old(self)@.applied, proposal@),
                ..old(self)@
            }),
    {
        self.learner.insert(proposal);
    }

    /// The value this node has committed under `key`, if any.
    pub fn read(&self, key: String) -> (r: Option<String>)
        ensures
            opt_string_view(r) == if self@.applied.contains_key(key@) {
                Some(self@.applied[key@])
            } else {
                None
            },
    {
        self.learner.read(key)
    }
}

} // verus!
