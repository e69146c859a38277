use vstd::prelude::*;
use crate::acceptor::{
    accept_step, acceptor_of, opt_id_view, Acceptor_Status, opt_string_view, prepare_step, PromiseView,
};
use crate::cluster::{
    has_member, ids_unique, nodes_view, upsert, Connection_Status, Membership, NodeConfig,
    NodeView,
};
use crate::learner::commit_step;
use crate::proposal::{Proposal, ProposalView};
use crate::proposer::{Proposer, ProposerView};
use crate::round::{AcceptReply, PromiseReply};

verus! {

/// The mathematical state of a node's consensus service.
pub struct ServiceView {
    pub node_id: int,
    pub addr: Seq<char>,
    pub members: Seq<NodeView>,
    pub proposer: ProposerView,
    pub leader_id: int,
}

/// What a promise reply says, as a promise.
pub open spec fn reply_view(r: PromiseReply) -> PromiseView {
    PromiseView {
        promised_id: r.promised_proposal_id as int,
        accepted_id: opt_id_view(r.accepted_proposal_id),
        accepted_value: opt_string_view(r.accepted_value),
    }
}

pub open spec fn request_view(proposal_id: i32, key: String, value: String) -> ProposalView {
    ProposalView { id: proposal_id as int, key: key@, value: value@ }
}

/// A service after its acceptor for `p`'s key has prepared `p`, with the
/// promise it gives, if any.
pub open spec fn after_prepare(v: ServiceView, p: ProposalView) -> (ServiceView, Option<PromiseView>) {
    let step = prepare_step(acceptor_of(v.proposer.acceptors, p.key), p);
    (
        ServiceView {
            proposer: ProposerView { acceptors: v.proposer.acceptors.insert(p.key, step.0), ..v.proposer },
            ..v
        },
        step.1,
    )
}

/// A service after its acceptor for `p`'s key was asked to accept `p`,
/// with the proposal accepted, if any.
pub open spec fn after_accept(v: ServiceView, p: ProposalView) -> (ServiceView, Option<ProposalView>) {
    let step = accept_step(acceptor_of(v.proposer.acceptors, p.key), p);
    (
        ServiceView {
            proposer: ProposerView { acceptors: v.proposer.acceptors.insert(p.key, step.0), ..v.proposer },
            ..v
        },
        step.1,
    )
}

/// A node's consensus service: its identity, the cluster membership, its
/// proposer stack and the designated leader.
pub struct PaxosService {
    node_id: i32,
    addr: String,
    clusters: Membership,
    proposer: Proposer,
    leader_id: i32,
}

impl View for PaxosService {
    type V = ServiceView;

    closed spec fn view(&self) -> ServiceView {
        ServiceView {
            node_id: self.node_id as int,
            addr: self.addr@,
            members: self.clusters@,
            proposer: self.proposer@,
            leader_id: self.leader_id as int,
        }
    }
}

impl PaxosService {
    /// The service's invariant: no node id is registered twice.
    pub open spec fn wf(&self) -> bool {
        ids_unique(self@.members)
    }

    /// A service whose membership holds the node itself; the leader is the
    /// one given, or the node itself.
    pub fn new(node_id: i32, addr: String, proposer: Proposer, leader_id: Option<i32>) -> (r:
        PaxosService)
        ensures
            r.wf(),
            r@ == (ServiceView {
                node_id: node_id as int,
                addr: addr@,
                members: seq![
                    NodeView { node_id: node_id as int, addr: addr@, status: Connection_Status::Active },
                ],
                proposer: proposer@,
                leader_id: match leader_id {
                    Some(l) => l as int,
                    None => node_id as int,
                },
            }),
    {
        let id: i32 = match leader_id {
            Some(l) => l,
            None => node_id,
        };
        let mut clusters = Membership::new();
        clusters.register(node_id, addr.clone());
        assert(clusters@ =~= seq![
            NodeView { node_id: node_id as int, addr: addr@, status: Connection_Status::Active },
        ]);
        PaxosService { node_id, addr, clusters, proposer, leader_id: id }
    }

    /// Liveness probe.
    pub fn ping(&self) -> (r: bool)
        ensures
            r,
    {
        true
    }

    pub fn get_node_id(&self) -> (r: i32)
        ensures
            r as int == self@.node_id,
    {
        self.node_id
    }

    pub fn get_leader_id(&self) -> (r: i32)
        ensures
            r as int == self@.leader_id,
    {
        self.leader_id
    }

    /// The number of members, self included: the base of every quorum.
    pub fn cluster_size(&self) -> (r: usize)
        ensures
            r == self@.members.len(),
    {
        self.clusters.len()
    }

    /// A snapshot of the members, taken at the start of a round.
    pub fn peers(&self) -> (r: Vec<NodeConfig>)
        ensures
            nodes_view(r@) == self@.members,
    {
        self.clusters.peers()
    }

    /// The registered address of the leader, if the leader is a member.
    pub fn leader_address(&self) -> (r: Option<String>)
        ensures
            r is None <==> !has_member(self@.members, self@.leader_id),
            r matches Some(a) ==> exists|i: int|
                0 <= i < self@.members.len() && #[trigger] self@.members[i].node_id
                    == self@.leader_id && self@.members[i].addr == a@,
    {
        match self.clusters.find(self.leader_id) {
            Some(i) => Some(self.clusters.get(i).addr.clone()),
            None => None,
        }
    }

    /// Registers (or re-registers) a node; always answers `true`.
    pub fn register(&mut self, node_id: i32, addr: String) -> (r: bool)
        requires
            old(self).wf(),
        ensures
            r,
            final(self).wf(),
            final(self)@ == (ServiceView {
                members: upsert(old(self)@.members, node_id as int, addr@),
                ..old(self)@
            }),
    {
        self.clusters.register(node_id, addr);
        true
    }

    /// Starts a client write: issues the next proposal id and builds the
    /// proposal. `None`, changing nothing, once the ids are used up.
    pub fn begin_round(&mut self, key: String, value: String) -> (r: Option<Proposal>)
        ensures
            old(self)@.proposer.last_seen_propose_id < i32::MAX ==> r is Some,
            r matches Some(p) ==> p@ == (ProposalView {
                id: old(self)@.proposer.last_seen_propose_id + 1,
                key: key@,
                value: value@,
            }) && final(self)@ == (ServiceView {
                proposer: ProposerView {
                    last_seen_propose_id: old(self)@.proposer.last_seen_propose_id + 1,
                    ..old(self)@.proposer
                },
                ..old(self)@
            }),
            old(self)@.proposer.last_seen_propose_id >= i32::MAX ==> r is None,
            r is None ==> final(self)@ == old(self)@,
    {
        match self.proposer.next_proposal_id() {
            Some(id) => Some(Proposal::new(id, key, value)),
            None => None,
        }
    }

    /// Phase 1 request from a proposer: this node's acceptor for the key
    /// prepares.
    pub fn propose(&mut self, proposal_id: i32, key: String, value: String) -> (r: Option<
        PromiseReply,
    >)
        ensures
            final(self)@ == after_prepare(old(self)@, request_view(proposal_id, key, value)).0,
            match r {
                Some(rep) => Some(reply_view(rep)),
                None => None,
            } == after_prepare(old(self)@, request_view(proposal_id, key, value)).1,
            r matches Some(rep) ==> rep.node_id as int == old(self)@.node_id,
    {
        let proposal = Proposal::new(proposal_id, key, value);
        match self.proposer.prepare(proposal) {
            Some(promise) => Some(
                PromiseReply {
                    node_id: self.node_id,
                    promised_proposal_id: promise.get_promised_proposal_id(),
                    accepted_proposal_id: promise.get_accepted_proposal_id(),
                    accepted_value: promise.get_accepted_value(),
                },
            ),
            None => None,
        }
    }

    /// Phase 2 request from a proposer: this node's acceptor for the key
    /// accepts.
    pub fn accept(&mut self, proposal_id: i32, key: String, value: String) -> (r: Option<
        AcceptReply,
    >)
        ensures
            final(self)@ == after_accept(old(self)@, request_view(proposal_id, key, value)).0,
            r is Some <==> after_accept(old(self)@, request_view(proposal_id, key, value)).1 is Some,
            r matches Some(rep) ==> rep.node_id as int == old(self)@.node_id && rep.proposal_id
                == proposal_id && rep.status == Acceptor_Status::Accepted && rep.proposal@
                == request_view(proposal_id, key, value),
    {
        let proposal = Proposal::new(proposal_id, key, value);
        match self.proposer.accept(proposal) {
            Some(message) => Some(
                AcceptReply {
                    node_id: self.node_id,
                    status: message.status,
                    proposal_id: message.proposal_id,
                    proposal: message.proposal,
                },
            ),
            None => None,
        }
    }

    /// Phase 3 request: the decided value is applied by this node's learner.
    pub fn commit(&mut self, proposal_id: i32, key: String, value: String) -> (r: bool)
        ensures
            r,
            final(self)@ == (ServiceView {
                proposer: ProposerView {
                    applied: commit_step(
                        old(self)@.proposer.applied,
                        request_view(proposal_id, key, value),
                    ),
                    ..old(self)@.proposer
                },
                ..old(self)@
            }),
    {
        let proposal = Proposal::new(proposal_id, key, value);
        self.proposer.commit(proposal);
        true
    }

    /// The value this node has committed under `key`, if any.
    pub fn read(&self, key: String) -> (r: Option<String>)
        ensures
            opt_string_view(r) == if self@.proposer.applied.contains_key(key@) {
                Some(self@.proposer.applied[key@])
            } else {
                None
            },
    {
        self.proposer.read(key)
    }
}

} // verus!
