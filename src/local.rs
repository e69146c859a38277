use vstd::prelude::*;
use crate::acceptor::{
    accept_step, acceptor_of, opt_id_view, opt_string_view, prepare_step, Accept_Message,
    Acceptor_Status, Promise, PromiseView,
};
use crate::learner::commit_step;
use crate::proposal::{Proposal, ProposalView};
use crate::proposer::{Proposer, ProposerView};
use crate::paxos::{after_accept, after_prepare, PaxosService, ServiceView};
use crate::round::{
    acks, best_prior, decide_phase1, decide_phase2, grant_count, grants, is_majority,
    lemma_all_acked, lemma_prefix_step, prior, AcceptReply, PromiseReply,
};

verus! {

/// The promises that a prepare of `p` draws from acceptors in these
/// states, in order, rejections left out.
pub open spec fn promises_from(s: Seq<ProposerView>, p: ProposalView) -> Seq<PromiseView>
    decreases s.len(),
{
    if s.len() == 0 {
        Seq::empty()
    } else {
        match prepare_step(acceptor_of(s.last().acceptors, p.key), p).1 {
            Some(pr) => promises_from(s.drop_last(), p).push(pr),
            None => promises_from(s.drop_last(), p),
        }
    }
}

pub open spec fn proposer_views(s: Seq<Proposer>) -> Seq<ProposerView> {
    s.map_values(|x: Proposer| x@)
}

pub open spec fn promise_views(s: Seq<Promise>) -> Seq<PromiseView> {
    s.map_values(|x: Promise| x@)
}

/// A node after it has prepared `p`.
pub open spec fn prepared(n: ProposerView, p: ProposalView) -> ProposerView {
    ProposerView {
        acceptors: n.acceptors.insert(p.key, prepare_step(acceptor_of(n.acceptors, p.key), p).0),
        ..n
    }
}

/// A node after it has been asked to accept `p`, and has committed it when
/// it accepted.
pub open spec fn accepted_and_committed(n: ProposerView, p: ProposalView) -> ProposerView {
    ProposerView {
        acceptors: n.acceptors.insert(p.key, accept_step(acceptor_of(n.acceptors, p.key), p).0),
        applied: if accept_step(acceptor_of(n.acceptors, p.key), p).1 is Some {
            commit_step(n.applied, p)
        } else {
            n.applied
        },
        ..n
    }
}

/// Sends a prepare of `proposal` to every node and collects the promises.
pub fn send_prepare(multi_paxos: &mut Vec<Proposer>, proposal: Proposal) -> (r: Vec<Promise>)
    ensures
        final(multi_paxos)@.len() == old(multi_paxos)@.len(),
        forall|i: int|
            0 <= i < old(multi_paxos)@.len() ==> (#[trigger] final(multi_paxos)@[i])@ == prepared(
                old(multi_paxos)@[i]@,
                proposal@,
            ),
        promise_views(r@) == promises_from(proposer_views(old(multi_paxos)@), proposal@),
{
    let ghost s0 = proposer_views(multi_paxos@);
    let mut responses: Vec<Promise> = Vec::new();
    let mut i: usize = 0;
    while i < multi_paxos.len()
        invariant
            i <= multi_paxos@.len(),
            multi_paxos@.len() == s0.len(),
            s0 == proposer_views(old(multi_paxos)@),
            forall|j: int| 0 <= j < i ==> (#[trigger] multi_paxos@[j])@ == prepared(s0[j], proposal@),
            forall|j: int| i <= j < s0.len() ==> (#[trigger] multi_paxos@[j])@ == s0[j],
            promise_views(responses@) == promises_from(s0.subrange(0, i as int), proposal@),
        decreases s0.len() - i,
    {
        proof {
            crate::round::lemma_prefix_step(s0, i as int);
        }
        let ghost before = responses@;
        match multi_paxos[i].prepare(proposal.clone()) {
            Some(prom) => {
                responses.push(prom);
                assert(promise_views(responses@) =~= promise_views(before).push(responses@.last()@));
            },
            None => {},
        }
        i = i + 1;
    }
    assert(s0.subrange(0, s0.len() as int) =~= s0);
    responses
}

/// Sends an accept of `proposal` to every node; each node that accepts
/// commits it to its learner.
pub fn send_accept(multi_paxos: &mut Vec<Proposer>, proposal: Proposal)
    ensures
        final(multi_paxos)@.len() == old(multi_paxos)@.len(),
        forall|i: int|
            0 <= i < old(multi_paxos)@.len() ==> (#[trigger] final(multi_paxos)@[i])@
                == accepted_and_committed(old(multi_paxos)@[i]@, proposal@),
{
    let ghost s0 = proposer_views(multi_paxos@);
    let mut i: usize = 0;
    while i < multi_paxos.len()
        invariant
            i <= multi_paxos@.len(),
            multi_paxos@.len() == s0.len(),
            s0 == proposer_views(old(multi_paxos)@),
            forall|j: int|
                0 <= j < i ==> (#[trigger] multi_paxos@[j])@ == accepted_and_committed(
                    s0[j],
                    proposal@,
                ),
            forall|j: int| i <= j < s0.len() ==> (#[trigger] multi_paxos@[j])@ == s0[j],
        decreases s0.len() - i,
    {
        let answer: Option<Accept_Message> = multi_paxos[i].accept(proposal.clone());
        match answer {
            Some(message) => {
                if message.status == Acceptor_Status::Accepted {
                    multi_paxos[i].commit(proposal.clone());
                }
            },
            None => {},
        }
        i = i + 1;
    }
}

/// A service after committing `p`.
pub open spec fn with_commit(v: ServiceView, p: ProposalView) -> ServiceView {
    ServiceView {
        proposer: ProposerView { applied: commit_step(v.proposer.applied, p), ..v.proposer },
        ..v
    }
}

/// Whether a node's acceptor for `key` promises a round with id `id`.
pub open spec fn promises_round(v: ServiceView, key: Seq<char>, id: int) -> bool {
    acceptor_of(v.proposer.acceptors, key).max_promised <= id
}

/// The proposal a node's acceptor for `key` reports as accepted, as
/// (id, value).
pub open spec fn node_prior(v: ServiceView, key: Seq<char>) -> Option<(int, Seq<char>)> {
    match acceptor_of(v.proposer.acceptors, key).last_accepted {
        Some(q) => Some((q.id, q.value)),
        None => None,
    }
}

/// How many of the first `i` nodes are reachable and promise round `id`.
pub open spec fn promise_count(s: Seq<PaxosService>, reach: Seq<bool>, key: Seq<char>, id: int, i: int) -> nat
    decreases i,
{
    if i <= 0 {
        0
    } else {
        promise_count(s, reach, key, id, i - 1) + if reach[i - 1] && promises_round(s[i - 1]@, key, id) {
            1nat
        } else {
            0nat
        }
    }
}

/// Among the first `i` nodes that are reachable and promise round `id`, the
/// accepted proposal with the highest id; on equal ids the earliest node.
pub open spec fn best_reported(s: Seq<PaxosService>, reach: Seq<bool>, key: Seq<char>, id: int, i: int) -> Option<(int, Seq<char>)>
    decreases i,
{
    if i <= 0 {
        None
    } else {
        let b = best_reported(s, reach, key, id, i - 1);
        let q = node_prior(s[i - 1]@, key);
        if reach[i - 1] && promises_round(s[i - 1]@, key, id) && q is Some && (b is None || q.unwrap().0 > b.unwrap().0) {
            q
        } else {
            b
        }
    }
}

/// The value a round with id `id` commits: the best accepted value its
/// promises report, else the client's.
pub open spec fn round_value(s: Seq<PaxosService>, reach: Seq<bool>, key: Seq<char>, id: int, requested: Seq<char>) -> Seq<char> {
    match best_reported(s, reach, key, id, s.len() as int) {
        Some(b) => b.1,
        None => requested,
    }
}

/// A node after a round of proposal `pk` (the round's id and key, the
/// client's value) that committed `outcome`, or nothing: a reachable node
/// prepares `pk`; it accepts the committed proposal only if it promised;
/// it commits the decided proposal; the coordinator records the id used.
pub open spec fn after_round(v: ServiceView, reach: bool, coord: bool, pk: ProposalView, outcome: Option<ProposalView>) -> ServiceView {
    let prepared = prepare_step(acceptor_of(v.proposer.acceptors, pk.key), pk);
    ServiceView {
        proposer: ProposerView {
            acceptors: if reach {
                v.proposer.acceptors.insert(
                    pk.key,
                    match outcome {
                        Some(p) => if prepared.1 is Some {
                            accept_step(prepared.0, p).0
                        } else {
                            prepared.0
                        },
                        None => prepared.0,
                    },
                )
            } else {
                v.proposer.acceptors
            },
            applied: match outcome {
                Some(p) => if reach {
                    commit_step(v.proposer.applied, p)
                } else {
                    v.proposer.applied
                },
                None => v.proposer.applied,
            },
            last_seen_propose_id: if coord {
                pk.id
            } else {
                v.proposer.last_seen_propose_id
            },
        },
        ..v
    }
}

pub open spec fn opt_view(r: Option<Proposal>) -> Option<ProposalView> {
    match r {
        Some(p) => Some(p@),
        None => None,
    }
}

/// Runs one client write as a full round over an in-process cluster, node
/// `coordinator` proposing with the next id of its counter: prepare on
/// every reachable node; if strictly more than half of all nodes promised,
/// accept on exactly those that promised, carrying the value of the
/// highest-numbered accepted proposal their promises report (else the
/// client's); if strictly more than half accepted, commit on every
/// reachable node. Returns the committed proposal.
pub fn run_local_round(
    nodes: &mut Vec<PaxosService>,
    reachable: &Vec<bool>,
    coordinator: usize,
    key: String,
    value: String,
) -> (r: Option<Proposal>)
    requires
        old(nodes)@.len() == reachable@.len(),
        coordinator < old(nodes)@.len(),
    ensures
        final(nodes)@.len() == old(nodes)@.len(),
        ({
            let c = old(nodes)@[coordinator as int]@.proposer.last_seen_propose_id;
            &&& c >= i32::MAX ==> r is None && forall|i: int|
                0 <= i < old(nodes)@.len() ==> (#[trigger] final(nodes)@[i])@ == old(nodes)@[i]@
            &&& c < i32::MAX ==> (r is Some <==> is_majority(
                promise_count(old(nodes)@, reachable@, key@, c + 1, old(nodes)@.len() as int) as int,
                old(nodes)@.len() as int,
            ))
            &&& r is Some ==> r.unwrap()@ == (ProposalView {
                id: c + 1,
                key: key@,
                value: round_value(old(nodes)@, reachable@, key@, c + 1, value@),
            })
            &&& r is Some ==> forall|i: int|
                0 <= i < old(nodes)@.len() && reachable@[i] && promises_round(old(nodes)@[i]@, key@, c + 1)
                    ==> acceptor_of((#[trigger] final(nodes)@[i])@.proposer.acceptors, key@).last_accepted
                    == Some(r.unwrap()@)
            &&& c < i32::MAX ==> forall|i: int|
                0 <= i < old(nodes)@.len() ==> (#[trigger] final(nodes)@[i])@ == after_round(
                    old(nodes)@[i]@,
                    reachable@[i],
                    i == coordinator,
                    ProposalView { id: c + 1, key: key@, value: value@ },
                    opt_view(r),
                )
        }),
{
    let n = nodes.len();
    let ghost s0 = nodes@;
    let ghost c = s0[coordinator as int]@.proposer.last_seen_propose_id;
    let proposal = match nodes[coordinator].begin_round(key.clone(), value.clone()) {
        Some(p) => p,
        None => {
            assert forall|i: int| 0 <= i < n implies (#[trigger] nodes@[i])@ == s0[i]@ by {
                if i != coordinator {
                    assert(nodes@[i] == s0[i]);
                }
            }
            return None;
        },
    };
    let ghost s1 = nodes@;
    let ghost pv = proposal@;
    assert(pv == ProposalView { id: c + 1, key: key@, value: value@ });
    assert forall|j: int| 0 <= j < n implies (#[trigger] s1[j])@ == if j == coordinator {
        ServiceView { proposer: ProposerView { last_seen_propose_id: c + 1, ..s0[j]@.proposer }, ..s0[j]@ }
    } else {
        s0[j]@
    } by {
        if j != coordinator {
            assert(s1[j] == s0[j]);
        }
    }
    let id = proposal.get_proposal_id();

    let mut replies: Vec<PromiseReply> = Vec::new();
    let mut granted_by: Vec<bool> = Vec::new();
    let mut i: usize = 0;
    while i < n
        invariant
            n == s1.len(),
            n == s0.len(),
            nodes@.len() == n,
            reachable@.len() == n,
            granted_by@.len() == i,
            i <= n,
            id as int == pv.id,
            proposal@ == pv,
            forall|j: int| 0 <= j < n ==> (#[trigger] s1[j])@.proposer.acceptors == s0[j]@.proposer.acceptors,
            forall|j: int|
                0 <= j < i ==> (#[trigger] nodes@[j])@ == if reachable@[j] {
                    after_prepare(s1[j]@, pv).0
                } else {
                    s1[j]@
                },
            forall|j: int| i <= j < n ==> (#[trigger] nodes@[j])@ == s1[j]@,
            forall|k: int| 0 <= k < replies@.len() ==> grants(#[trigger] replies@[k], id as int),
            forall|j: int|
                0 <= j < i ==> #[trigger] granted_by@[j] == (reachable@[j] && promises_round(s0[j]@, pv.key, pv.id)),
            grant_count(replies@, pv.id) == promise_count(s0, reachable@, pv.key, pv.id, i as int),
            replies@.len() == promise_count(s0, reachable@, pv.key, pv.id, i as int),
            best_prior(replies@, pv.id) == best_reported(s0, reachable@, pv.key, pv.id, i as int),
        decreases n - i,
    {
        let mut granted = false;
        if reachable[i] {
            let k = proposal.get_key().to_string();
            let v = proposal.get_value().to_string();
            let ghost before = replies@;
            match nodes[i].propose(id, k, v) {
                Some(rep) => {
                    replies.push(rep);
                    assert(replies@.drop_last() =~= before);
                    granted = true;
                    proof {
                        let a = acceptor_of(s0[i as int]@.proposer.acceptors, pv.key);
                        match a.last_accepted {
                            Some(q) => {
                                assert(opt_id_view(rep.accepted_proposal_id) == Some(q.id));
                                assert(opt_string_view(rep.accepted_value) == Some(q.value));
                                assert(prior(rep) == node_prior(s0[i as int]@, pv.key));
                            },
                            None => {
                                assert(opt_id_view(rep.accepted_proposal_id) == None::<int>);
                                assert(prior(rep) == node_prior(s0[i as int]@, pv.key));
                            },
                        }
                    }
                },
                None => {},
            }
        }
        granted_by.push(granted);
        i = i + 1;
    }
    let ghost s2 = nodes@;

    let plan = match decide_phase1(n, &proposal, &replies) {
        Some(plan) => plan,
        None => {
            return None;
        },
    };
    let p2 = plan.proposal;
    let pid = p2.get_proposal_id();
    assert(p2@ == ProposalView { id: c + 1, key: key@, value: round_value(s0, reachable@, key@, c + 1, value@) });

    let mut answers: Vec<AcceptReply> = Vec::new();
    let mut i: usize = 0;
    while i < n
        invariant
            n == s2.len(),
            n == s0.len(),
            nodes@.len() == n,
            reachable@.len() == n,
            granted_by@.len() == n,
            i <= n,
            pid as int == pv.id,
            p2@.id == pv.id,
            p2@.key == pv.key,
            forall|j: int| 0 <= j < n ==> (#[trigger] s1[j])@.proposer.acceptors == s0[j]@.proposer.acceptors,
            forall|j: int|
                0 <= j < i ==> (#[trigger] nodes@[j])@ == if granted_by@[j] {
                    after_accept(s2[j]@, p2@).0
                } else {
                    s2[j]@
                },
            forall|j: int| i <= j < n ==> (#[trigger] nodes@[j])@ == s2[j]@,
            forall|k: int| 0 <= k < answers@.len() ==> acks(#[trigger] answers@[k], pv.id),
            forall|j: int|
                0 <= j < n ==> #[trigger] granted_by@[j] == (reachable@[j] && promises_round(s0[j]@, pv.key, pv.id)),
            forall|j: int|
                0 <= j < n ==> (#[trigger] s2[j])@ == if reachable@[j] {
                    after_prepare(s1[j]@, pv).0
                } else {
                    s1[j]@
                },
            answers@.len() == promise_count(s0, reachable@, pv.key, pv.id, i as int),
        decreases n - i,
    {
        if reachable[i] && granted_by[i] {
            assert(after_accept(s2[i as int]@, p2@).1 is Some);
            match nodes[i].accept(pid, p2.get_key().to_string(), p2.get_value().to_string()) {
                Some(a) => {
                    answers.push(a);
                },
                None => {},
            }
        }
        i = i + 1;
    }
    proof {
        lemma_all_acked(answers@, pv.id);
    }
    if !decide_phase2(n, pid, &answers) {
        return None;
    }
    let ghost s3 = nodes@;

    let mut i: usize = 0;
    while i < n
        invariant
            n == s3.len(),
            nodes@.len() == n,
            reachable@.len() == n,
            i <= n,
            forall|j: int|
                0 <= j < i ==> (#[trigger] nodes@[j])@ == if reachable@[j] {
                    with_commit(s3[j]@, p2@)
                } else {
                    s3[j]@
                },
            forall|j: int| i <= j < n ==> (#[trigger] nodes@[j])@ == s3[j]@,
        decreases n - i,
    {
        if reachable[i] {
            nodes[i].commit(pid, p2.get_key().to_string(), p2.get_value().to_string());
        }
        i = i + 1;
    }
    assert forall|j: int| 0 <= j < n implies (#[trigger] nodes@[j])@ == after_round(
        s0[j]@,
        reachable@[j],
        j == coordinator,
        pv,
        Some(p2@),
    ) by {
        let a = acceptor_of(s0[j]@.proposer.acceptors, pv.key);
        if reachable@[j] && promises_round(s0[j]@, pv.key, pv.id) {
            assert(nodes@[j]@.proposer.acceptors =~= s0[j]@.proposer.acceptors.insert(
                pv.key,
                accept_step(prepare_step(a, pv).0, p2@).0,
            ));
        }
    }
    Some(p2)
}

/// How many rounds a client write gets before it is reported failed.
pub const MAX_ROUND_ATTEMPTS: u32 = 3;

/// Runs a client write over an in-process cluster, retrying a failed round
/// with the coordinator's next, higher id, at most `max_attempts` rounds in
/// all. Returns the committed proposal, or `None` when every round failed.
pub fn insert_with_retries(
    nodes: &mut Vec<PaxosService>,
    reachable: &Vec<bool>,
    coordinator: usize,
    key: String,
    value: String,
    max_attempts: u32,
) -> (r: Option<Proposal>)
    requires
        old(nodes)@.len() == reachable@.len(),
        coordinator < old(nodes)@.len(),
    ensures
        final(nodes)@.len() == old(nodes)@.len(),
        ({
            let c0 = old(nodes)@[coordinator as int]@.proposer.last_seen_propose_id;
            let c1 = final(nodes)@[coordinator as int]@.proposer.last_seen_propose_id;
            &&& c0 <= c1 <= c0 + max_attempts
            &&& r is Some ==> r.unwrap()@.key == key@ && c0 < r.unwrap()@.id && r.unwrap()@.id == c1
            &&& (max_attempts > 0 && c0 < i32::MAX && is_majority(
                promise_count(old(nodes)@, reachable@, key@, c0 + 1, old(nodes)@.len() as int) as int,
                old(nodes)@.len() as int,
            )) ==> r is Some && r.unwrap()@ == (ProposalView {
                id: c0 + 1,
                key: key@,
                value: round_value(old(nodes)@, reachable@, key@, c0 + 1, value@),
            })
        }),
        forall|i: int|
            0 <= i < old(nodes)@.len() && !reachable@[i] && i != coordinator ==> (#[trigger] final(nodes)@[i])@ == old(nodes)@[i]@,
        r is Some ==> forall|i: int|
            0 <= i < old(nodes)@.len() ==> (#[trigger] final(nodes)@[i])@.proposer.applied == if reachable@[i] {
                old(nodes)@[i]@.proposer.applied.insert(key@, r.unwrap()@.value)
            } else {
                old(nodes)@[i]@.proposer.applied
            },
        r is None ==> forall|i: int|
            0 <= i < old(nodes)@.len() ==> (#[trigger] final(nodes)@[i])@.proposer.applied == old(nodes)@[i]@.proposer.applied,
{
    let ghost c0 = nodes@[coordinator as int]@.proposer.last_seen_propose_id;
    let ghost owed = c0 < i32::MAX && is_majority(
        promise_count(nodes@, reachable@, key@, c0 + 1, nodes@.len() as int) as int,
        nodes@.len() as int,
    );
    let mut attempt: u32 = 0;
    while attempt < max_attempts
        invariant
            owed == (c0 < i32::MAX && is_majority(
                promise_count(old(nodes)@, reachable@, key@, c0 + 1, old(nodes)@.len() as int) as int,
                old(nodes)@.len() as int,
            )),
            owed ==> attempt == 0,
            nodes@.len() == old(nodes)@.len(),
            reachable@.len() == old(nodes)@.len(),
            coordinator < old(nodes)@.len(),
            c0 == old(nodes)@[coordinator as int]@.proposer.last_seen_propose_id,
            attempt <= max_attempts,
            attempt == 0 ==> nodes@ == old(nodes)@,
            c0 <= nodes@[coordinator as int]@.proposer.last_seen_propose_id <= c0 + attempt,
            forall|i: int|
                0 <= i < old(nodes)@.len() && !reachable@[i] && i != coordinator ==> (#[trigger] nodes@[i])@ == old(nodes)@[i]@,
            forall|i: int|
                0 <= i < old(nodes)@.len() ==> (#[trigger] nodes@[i])@.proposer.applied == old(nodes)@[i]@.proposer.applied,
        decreases max_attempts - attempt,
    {
        let ghost before = nodes@;
        let r = run_local_round(nodes, reachable, coordinator, key.clone(), value.clone());
        proof {
            let c = before[coordinator as int]@.proposer.last_seen_propose_id;
            assert(nodes@[coordinator as int]@ == after_round(
                before[coordinator as int]@,
                reachable@[coordinator as int],
                true,
                ProposalView { id: c + 1, key: key@, value: value@ },
                opt_view(r),
            ) || c >= i32::MAX);
        }
        match r {
            Some(p) => {
                return Some(p);
            },
            None => {},
        }
        attempt = attempt + 1;
    }
    None
}

} // verus!
