use vstd::prelude::*;
use crate::acceptor::{opt_string_view, Acceptor_Status};
use crate::proposal::{Proposal, ProposalView};

verus! {

/// A peer's answer to `propose`, as it comes back over the wire.
#[derive(Debug)]
pub struct PromiseReply {
    pub node_id: i32,
    pub promised_proposal_id: i32,
    pub accepted_proposal_id: Option<i32>,
    pub accepted_value: Option<String>,
}

/// A peer's answer to `accept`, as it comes back over the wire.
#[derive(Debug)]
pub struct AcceptReply {
    pub node_id: i32,
    pub status: Acceptor_Status,
    pub proposal_id: i32,
    pub proposal: Proposal,
}

/// What phase 1 hands phase 2: the proposal to send, with the value it must
/// carry, and the peers that promised it.
#[derive(Debug)]
pub struct AcceptPlan {
    pub proposal: Proposal,
    pub targets: Vec<i32>,
}

/// Strictly more than half of the cluster.
pub open spec fn is_majority(count: int, cluster_size: int) -> bool {
    2 * count > cluster_size
}

/// A reply that promises exactly this round's id.
pub open spec fn grants(r: PromiseReply, id: int) -> bool {
    r.promised_proposal_id as int == id
}

/// The proposal a reply reports as previously accepted, as (id, value).
pub open spec fn prior(r: PromiseReply) -> Option<(int, Seq<char>)> {
    match (r.accepted_proposal_id, opt_string_view(r.accepted_value)) {
        (Some(i), Some(v)) => Some((i as int, v)),
        _ => None,
    }
}

/// How many replies promise `id`.
pub open spec fn grant_count(s: Seq<PromiseReply>, id: int) -> nat
    decreases s.len(),
{
    if s.len() == 0 {
        0
    } else {
        grant_count(s.drop_last(), id) + if grants(s.last(), id) {
            1nat
        } else {
            0nat
        }
    }
}

/// The node ids of the replies that promise `id`, in reply order.
pub open spec fn granted_ids(s: Seq<PromiseReply>, id: int) -> Seq<i32>
    decreases s.len(),
{
    if s.len() == 0 {
        Seq::empty()
    } else if grants(s.last(), id) {
        granted_ids(s.drop_last(), id).push(s.last().node_id)
    } else {
        granted_ids(s.drop_last(), id)
    }
}

/// Among the replies that promise `id`, the previously accepted proposal
/// with the highest id; on equal ids the earliest reply.
pub open spec fn best_prior(s: Seq<PromiseReply>, id: int) -> Option<(int, Seq<char>)>
    decreases s.len(),
{
    if s.len() == 0 {
        None
    } else {
        let b = best_prior(s.drop_last(), id);
        let r = s.last();
        if grants(r, id) && prior(r) is Some && (b is None || prior(r).unwrap().0 > b.unwrap().0) {
            prior(r)
        } else {
            b
        }
    }
}

/// The value phase 2 must carry: the best previously accepted value, or
/// the client's value when no promise reports one.
pub open spec fn chosen_value(s: Seq<PromiseReply>, id: int, requested: Seq<char>) -> Seq<char> {
    match best_prior(s, id) {
        Some(b) => b.1,
        None => requested,
    }
}

/// A reply that accepted exactly this round's id.
pub open spec fn acks(r: AcceptReply, id: int) -> bool {
    r.status == Acceptor_Status::Accepted && r.proposal_id as int == id
}

/// How many replies accepted `id`.
pub open spec fn ack_count(s: Seq<AcceptReply>, id: int) -> nat
    decreases s.len(),
{
    if s.len() == 0 {
        0
    } else {
        ack_count(s.drop_last(), id) + if acks(s.last(), id) {
            1nat
        } else {
            0nat
        }
    }
}

/// Whether `count` affirmative answers are a quorum of `cluster_size`.
pub fn has_majority(count: usize, cluster_size: usize) -> (r: bool)
    ensures
        r == is_majority(count as int, cluster_size as int),
{
    count > cluster_size / 2
}

/// The least number of answers that is a quorum of `cluster_size`.
pub fn majority_size(cluster_size: usize) -> (r: usize)
    requires
        cluster_size < usize::MAX,
    ensures
        r == cluster_size / 2 + 1,
        is_majority(r as int, cluster_size as int),
        !is_majority(r - 1, cluster_size as int),
{
    cluster_size / 2 + 1
}

pub proof fn lemma_prefix_step<T>(s: Seq<T>, i: int)
    requires
        0 <= i < s.len(),
    ensures
        s.subrange(0, i + 1).drop_last() == s.subrange(0, i),
        s.subrange(0, i + 1).last() == s[i],
{
    assert(s.subrange(0, i + 1).drop_last() =~= s.subrange(0, i));
}

/// Counts the replies that promise `proposal_id`.
pub fn count_grants(replies: &Vec<PromiseReply>, proposal_id: i32) -> (r: usize)
    ensures
        r == grant_count(replies@, proposal_id as int),
{
    let mut n: usize = 0;
    let mut i: usize = 0;
    while i < replies.len()
        invariant
            i <= replies@.len(),
            n == grant_count(replies@.subrange(0, i as int), proposal_id as int),
            n <= i,
        decreases replies@.len() - i,
    {
        proof {
            lemma_prefix_step(replies@, i as int);
        }
        if replies[i].promised_proposal_id == proposal_id {
            n = n + 1;
        }
        i = i + 1;
    }
    assert(replies@.subrange(0, replies@.len() as int) =~= replies@);
    n
}

/// The node ids of the replies that promise `proposal_id`, in order.
pub fn granting_nodes(replies: &Vec<PromiseReply>, proposal_id: i32) -> (r: Vec<i32>)
    ensures
        r@ == granted_ids(replies@, proposal_id as int),
{
    let mut out: Vec<i32> = Vec::new();
    let mut i: usize = 0;
    while i < replies.len()
        invariant
            i <= replies@.len(),
            out@ == granted_ids(replies@.subrange(0, i as int), proposal_id as int),
        decreases replies@.len() - i,
    {
        proof {
            lemma_prefix_step(replies@, i as int);
        }
        if replies[i].promised_proposal_id == proposal_id {
            out.push(replies[i].node_id);
        }
        i = i + 1;
    }
    assert(replies@.subrange(0, replies@.len() as int) =~= replies@);
    out
}

/// The value to carry into phase 2: the value of the highest-numbered
/// proposal that a promise of this round reports as accepted, else the
/// client's value.
pub fn choose_value(replies: &Vec<PromiseReply>, proposal_id: i32, requested: &String) -> (r: String)
    ensures
        r@ == chosen_value(replies@, proposal_id as int, requested@),
{
    let mut best: Option<usize> = None;
    let mut best_id: i32 = 0;
    let mut i: usize = 0;
    while i < replies.len()
        invariant
            i <= replies@.len(),
            match best_prior(replies@.subrange(0, i as int), proposal_id as int) {
                None => best is None,
                Some(b) => best matches Some(k) && k < replies@.len() && prior(replies@[k as int])
                    == Some(b) && b.0 == best_id as int,
            },
        decreases replies@.len() - i,
    {
        proof {
            lemma_prefix_step(replies@, i as int);
        }
        let r = &replies[i];
        if r.promised_proposal_id == proposal_id {
            match (r.accepted_proposal_id, &r.accepted_value) {
                (Some(aid), Some(_)) => {
                    if best.is_none() || aid > best_id {
                        best = Some(i);
                        best_id = aid;
                    }
                },
                _ => {},
            }
        }
        i = i + 1;
    }
    assert(replies@.subrange(0, replies@.len() as int) =~= replies@);
    match best {
        Some(k) => match &replies[k].accepted_value {
            Some(v) => v.clone(),
            None => requested.clone(),
        },
        None => requested.clone(),
    }
}

/// Phase 1 outcome: with a quorum of promises for this round, the proposal
/// to send in phase 2 (this round's id and key, with the chosen value) and
/// the peers that promised; without one, `None`.
pub fn decide_phase1(cluster_size: usize, proposal: &Proposal, replies: &Vec<PromiseReply>) -> (r:
    Option<AcceptPlan>)
    ensures
        r is Some <==> is_majority(
            grant_count(replies@, proposal@.id) as int,
            cluster_size as int,
        ),
        r matches Some(plan) ==> plan.proposal@ == (ProposalView {
            id: proposal@.id,
            key: proposal@.key,
            value: chosen_value(replies@, proposal@.id, proposal@.value),
        }) && plan.targets@ == granted_ids(replies@, proposal@.id),
{
    let id = proposal.get_proposal_id();
    let granted = count_grants(replies, id);
    if !has_majority(granted, cluster_size) {
        return None;
    }
    let requested = proposal.get_value().to_string();
    let value = choose_value(replies, id, &requested);
    let key = proposal.get_key().to_string();
    let targets = granting_nodes(replies, id);
    Some(AcceptPlan { proposal: Proposal::new(id, key, value), targets })
}

/// Counts the replies that accepted `proposal_id`.
pub fn count_acks(replies: &Vec<AcceptReply>, proposal_id: i32) -> (r: usize)
    ensures
        r == ack_count(replies@, proposal_id as int),
{
    let mut n: usize = 0;
    let mut i: usize = 0;
    while i < replies.len()
        invariant
            i <= replies@.len(),
            n == ack_count(replies@.subrange(0, i as int), proposal_id as int),
            n <= i,
        decreases replies@.len() - i,
    {
        proof {
            lemma_prefix_step(replies@, i as int);
        }
        if replies[i].status == Acceptor_Status::Accepted && replies[i].proposal_id == proposal_id {
            n = n + 1;
        }
        i = i + 1;
    }
    assert(replies@.subrange(0, replies@.len() as int) =~= replies@);
    n
}

/// Phase 2 outcome: whether a quorum accepted this round's id, so that the
/// value is decided and may be committed.
pub fn decide_phase2(cluster_size: usize, proposal_id: i32, replies: &Vec<AcceptReply>) -> (r: bool)
    ensures
        r == is_majority(ack_count(replies@, proposal_id as int) as int, cluster_size as int),
{
    let acked = count_acks(replies, proposal_id);
    has_majority(acked, cluster_size)
}

/// A count is a quorum exactly when it reaches half the cluster plus one,
/// and two quorums of one cluster always share a member.
pub proof fn lemma_quorum_arithmetic(cluster_size: int, a: int, b: int)
    requires
        cluster_size >= 0,
        a >= 0,
        b >= 0,
    ensures
        is_majority(a, cluster_size) <==> a >= cluster_size / 2 + 1,
        is_majority(a, cluster_size) && is_majority(b, cluster_size) ==> a + b > cluster_size,
{
}

/// What `best_prior` is: `None` exactly when no promise of the round
/// reports an accepted proposal; otherwise one that a promise reports, with
/// an id no reported id exceeds.
pub proof fn lemma_best_prior(s: Seq<PromiseReply>, id: int)
    ensures
        best_prior(s, id) is None <==> (forall|j: int|
            0 <= j < s.len() && grants(#[trigger] s[j], id) ==> prior(s[j]) is None),
        best_prior(s, id) matches Some(b) ==> (exists|j: int|
            0 <= j < s.len() && grants(#[trigger] s[j], id) && prior(s[j]) == Some(b)),
        best_prior(s, id) matches Some(b) ==> (forall|j: int|
            0 <= j < s.len() && grants(#[trigger] s[j], id) && prior(s[j]) is Some ==> prior(
                s[j],
            ).unwrap().0 <= b.0),
    decreases s.len(),
{
    if s.len() > 0 {
        let t = s.drop_last();
        lemma_best_prior(t, id);
        assert forall|j: int| 0 <= j < t.len() implies t[j] == #[trigger] s[j] by {}
        let b = best_prior(s, id);
        if let Some(bb) = b {
            if best_prior(t, id) == b {
                let j = choose|j: int| 0 <= j < t.len() && grants(#[trigger] t[j], id) && prior(t[j]) == Some(bb);
                assert(s[j] == t[j]);
            } else {
                assert(s[s.len() - 1] == s.last());
            }
        }
    }
}

/// A round that finds a previously accepted value among its promises, with
/// no higher-numbered one beside it (and no other value under the same id),
/// carries that value into phase 2 instead of its client's value.
pub proof fn lemma_adopts_prior_value(
    s: Seq<PromiseReply>,
    id: int,
    requested: Seq<char>,
    i: int,
    n: int,
    v: Seq<char>,
)
    requires
        0 <= i < s.len(),
        grants(s[i], id),
        prior(s[i]) == Some((n, v)),
        forall|j: int|
            0 <= j < s.len() && grants(#[trigger] s[j], id) && prior(s[j]) is Some ==> prior(
                s[j],
            ).unwrap().0 < n || prior(s[j]) == Some((n, v)),
    ensures
        chosen_value(s, id, requested) == v,
{
    lemma_best_prior(s, id);
    let b = best_prior(s, id).unwrap();
    let j = choose|j: int| 0 <= j < s.len() && grants(#[trigger] s[j], id) && prior(s[j]) == Some(b);
    assert(prior(s[j]) == Some(b));
}

/// When every reply accepted `id`, all of them count.
pub proof fn lemma_all_acked(s: Seq<AcceptReply>, id: int)
    requires
        forall|k: int| 0 <= k < s.len() ==> acks(#[trigger] s[k], id),
    ensures
        ack_count(s, id) == s.len(),
    decreases s.len(),
{
    if s.len() > 0 {
        let t = s.drop_last();
        assert forall|k: int| 0 <= k < t.len() implies acks(#[trigger] t[k], id) by {
            assert(t[k] == s[k]);
        }
        lemma_all_acked(t, id);
        assert(s.last() == s[s.len() - 1]);
    }
}

} // verus!
