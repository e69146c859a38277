use vstd::prelude::*;
use crate::proposal::{Proposal, ProposalView};

verus! {

/// Where an acceptor stands in its promise/accept cycle.
#[allow(non_camel_case_types)]
#[derive(Debug, Clone, Copy, PartialEq, Eq, Structural)]
pub enum Acceptor_Status {
    Proposing,
    Accepted,
    Failed,
    Reject,
    Idle,
}

/// The mathematical value of a promise.
pub struct PromiseView {
    pub promised_id: int,
    pub accepted_id: Option<int>,
    pub accepted_value: Option<Seq<char>>,
}

/// The answer to a successful `prepare`: the promised id, and the id and
/// value of the last proposal the acceptor has accepted, if any.
#[derive(Debug)]
pub struct Promise {
    promised_proposal_id: i32,
    accepted_proposal_id: Option<i32>,
    accepted_value: Option<String>,
}

pub open spec fn opt_id_view(o: Option<i32>) -> Option<int> {
    match o {
        Some(i) => Some(i as int),
        None => None,
    }
}

pub open spec fn opt_string_view(o: Option<String>) -> Option<Seq<char>> {
    match o {
        Some(s) => Some(s@),
        None => None,
    }
}

impl View for Promise {
    type V = PromiseView;

    closed spec fn view(&self) -> PromiseView {
        PromiseView {
            promised_id: self.promised_proposal_id as int,
            accepted_id: opt_id_view(self.accepted_proposal_id),
            accepted_value: opt_string_view(self.accepted_value),
        }
    }
}

/// The mathematical state of an acceptor.
pub struct AcceptorView {
    pub status: Acceptor_Status,
    pub max_promised: int,
    pub max_accepted: int,
    pub last_accepted: Option<ProposalView>,
}

/// The state of a fresh acceptor.
pub open spec fn initial_acceptor() -> AcceptorView {
    AcceptorView { status: Acceptor_Status::Idle, max_promised: 0, max_accepted: 0, last_accepted: None }
}

/// The acceptor's invariant: the last accepted proposal carries the
/// highest accepted id, and nothing was accepted above the promise.
pub open spec fn acceptor_well_formed(a: AcceptorView) -> bool {
    &&& a.max_accepted <= a.max_promised
    &&& match a.last_accepted {
        Some(p) => p.id == a.max_accepted,
        None => a.max_accepted == 0,
    }
}

/// What `prepare` does: a proposal below the promise is rejected and
/// nothing changes; otherwise the promise rises to its id and the last
/// accepted proposal, if any, is reported.
pub open spec fn prepare_step(a: AcceptorView, p: ProposalView) -> (AcceptorView, Option<PromiseView>) {
    if p.id < a.max_promised {
        (a, None)
    } else {
        (
            AcceptorView { status: Acceptor_Status::Proposing, max_promised: p.id, ..a },
            Some(
                PromiseView {
                    promised_id: p.id,
                    accepted_id: match a.last_accepted {
                        Some(q) => Some(q.id),
                        None => None,
                    },
                    accepted_value: match a.last_accepted {
                        Some(q) => Some(q.value),
                        None => None,
                    },
                },
            ),
        )
    }
}

/// What `accept` does: a proposal below the promise is rejected and nothing
/// changes; otherwise it becomes the last accepted proposal, and accepting
/// it also promises its id.
pub open spec fn accept_step(a: AcceptorView, p: ProposalView) -> (AcceptorView, Option<ProposalView>) {
    if p.id < a.max_promised {
        (a, None)
    } else {
        (
            AcceptorView {
                status: Acceptor_Status::Accepted,
                max_promised: p.id,
                max_accepted: p.id,
                last_accepted: Some(p),
            },
            Some(p),
        )
    }
}

/// An acceptor for one key: the highest promised and accepted ids and the
/// last proposal it accepted.
pub struct Acceptor {
    status: Acceptor_Status,
    max_seen_proposal_seq: i32,
    max_seen_accept_seq: i32,
    last_accepted: Option<Proposal>,
}

pub open spec fn opt_proposal_view(o: Option<Proposal>) -> Option<ProposalView> {
    match o {
        Some(p) => Some(p@),
        None => None,
    }
}

impl View for Acceptor {
    type V = AcceptorView;

    closed spec fn view(&self) -> AcceptorView {
        AcceptorView {
            status: self.status,
            max_promised: self.max_seen_proposal_seq as int,
            max_accepted: self.max_seen_accept_seq as int,
            last_accepted: opt_proposal_view(self.last_accepted),
        }
    }
}

/// The answer to a successful `accept`.
#[allow(non_camel_case_types)]
pub struct Accept_Message {
    pub status: Acceptor_Status,
    pub proposal_id: i32,
    pub proposal: Proposal,
}

pub open spec fn opt_accept_view(o: Option<Accept_Message>) -> Option<ProposalView> {
    match o {
        Some(m) => Some(m.proposal@),
        None => None,
    }
}

impl Acceptor {
    pub fn new() -> (r: Acceptor)
        ensures
            r@ == initial_acceptor(),
            acceptor_well_formed(r@),
    {
        Acceptor {
            status: Acceptor_Status::Idle,
            max_seen_proposal_seq: 0,
            max_seen_accept_seq: 0,
            last_accepted: None,
        }
    }

    /// Phase 1: promise not to accept anything below `proposal`'s id.
    pub fn prepare(&mut self, proposal: Proposal) -> (r: Option<Promise>)
        ensures
            (final(self)@, match r {
                Some(pr) => Some(pr@),
                None => None,
            }) == prepare_step(old(self)@, proposal@),
            acceptor_well_formed(old(self)@) ==> acceptor_well_formed(final(self)@),
    {
        let id = proposal.get_proposal_id();
        if self.max_seen_proposal_seq > id {
            return None;
        }
        self.set_max_seen_proposal_seq(id);
        self.status = Acceptor_Status::Proposing;
        let last_proposal = self.get_last_accepted_proposal();
        let accepted_proposal_id = match last_proposal {
            Some(prop) => Some(prop.get_proposal_id()),
            None => None,
        };
        let accepted_value = match last_proposal {
            Some(prop) => Some(prop.get_value().to_string()),
            None => None,
        };
        Some(Promise::new(self.max_seen_proposal_seq, accepted_proposal_id, accepted_value))
    }

    fn set_max_seen_proposal_seq(&mut self, value: i32)
        ensures
            final(self)@ == (AcceptorView { max_promised: value as int, ..old(self)@ }),
    {
        self.max_seen_proposal_seq = value;
    }

    /// Phase 2: accept `proposal` unless a higher id has been promised.
    pub fn accept(&mut self, proposal: Proposal) -> (r: Option<Accept_Message>)
        ensures
            (final(self)@, opt_accept_view(r)) == accept_step(old(self)@, proposal@),
            acceptor_well_formed(old(self)@) ==> acceptor_well_formed(final(self)@),
            r matches Some(m) ==> m.status == Acceptor_Status::Accepted && m.proposal_id as int
                == proposal@.id,
    {
        let id = proposal.get_proposal_id();
        if self.max_seen_proposal_seq > id {
            return None;
        }
        self.set_max_seen_proposal_seq(id);
        self.max_seen_accept_seq = id;
        self.status = Acceptor_Status::Accepted;
        self.last_accepted = Some(proposal.clone());
        Some(Accept_Message { status: Acceptor_Status::Accepted, proposal_id: id, proposal })
    }

    pub fn get_last_accepted_proposal(&self) -> (r: Option<&Proposal>)
        ensures
            match r {
                Some(p) => self@.last_accepted == Some(p@),
                None => self@.last_accepted is None,
            },
    {
        self.last_accepted.as_ref()
    }
}

impl Promise {
    pub fn new(
        promised_proposal_id: i32,
        accepted_proposal_id: Option<i32>,
        accepted_value: Option<String>,
    ) -> (r: Promise)
        ensures
            r@ == (PromiseView {
                promised_id: promised_proposal_id as int,
                accepted_id: opt_id_view(accepted_proposal_id),
                accepted_value: opt_string_view(accepted_value),
            }),
    {
        Promise { promised_proposal_id, accepted_proposal_id, accepted_value }
    }

    pub fn get_promised_proposal_id(&self) -> (r: i32)
        ensures
            r as int == self@.promised_id,
    {
        self.promised_proposal_id
    }

    pub fn get_accepted_proposal_id(&self) -> (r: Option<i32>)
        ensures
            opt_id_view(r) == self@.accepted_id,
    {
        self.accepted_proposal_id
    }

    pub fn get_accepted_value(&self) -> (r: Option<String>)
        ensures
            opt_string_view(r) == self@.accepted_value,
    {
        match &self.accepted_value {
            Some(v) => Some(v.clone()),
            None => None,
        }
    }
}

impl Accept_Message {
    pub fn get_accepted_proposal(&self) -> (r: Proposal)
        ensures
            r@ == self.proposal@,
    {
        self.proposal.clone()
    }
}

/// One key's acceptor within a table.
pub struct KeyedAcceptor {
    key: String,
    acceptor: Acceptor,
}

/// The map that a list of keyed acceptors stands for; a later entry for a
/// key shadows an earlier one.
pub closed spec fn keyed_map(s: Seq<KeyedAcceptor>) -> Map<Seq<char>, AcceptorView>
    decreases s.len(),
{
    if s.len() == 0 {
        Map::empty()
    } else {
        keyed_map(s.drop_last()).insert(s.last().key@, s.last().acceptor@)
    }
}

/// No entry after position `i` has the key of entry `i`.
spec fn last_of_key(s: Seq<KeyedAcceptor>, i: int) -> bool {
    forall|j: int| i < j < s.len() ==> (#[trigger] s[j]).key@ != s[i].key@
}

/// The acceptor state a table holds for `key`: a fresh one where the key
/// has not been seen.
pub open spec fn acceptor_of(m: Map<Seq<char>, AcceptorView>, key: Seq<char>) -> AcceptorView {
    if m.contains_key(key) {
        m[key]
    } else {
        initial_acceptor()
    }
}

proof fn lemma_keyed_map_absent(s: Seq<KeyedAcceptor>, key: Seq<char>)
    requires
        forall|i: int| 0 <= i < s.len() ==> (#[trigger] s[i]).key@ != key,
    ensures
        !keyed_map(s).contains_key(key),
    decreases s.len(),
{
    if s.len() > 0 {
        assert(s.last() == s[s.len() - 1]);
        let t = s.drop_last();
        assert forall|i: int| 0 <= i < t.len() implies (#[trigger] t[i]).key@ != key by {
            assert(t[i] == s[i]);
        }
        lemma_keyed_map_absent(t, key);
    }
}

proof fn lemma_keyed_map_at(s: Seq<KeyedAcceptor>, i: int)
    requires
        0 <= i < s.len(),
        last_of_key(s, i),
    ensures
        keyed_map(s).contains_key(s[i].key@),
        keyed_map(s)[s[i].key@] == s[i].acceptor@,
    decreases s.len(),
{
    if i < s.len() - 1 {
        let t = s.drop_last();
        assert(t[i] == s[i]);
        assert(s.last() == s[s.len() - 1]);
        assert forall|j: int| i < j < t.len() implies (#[trigger] t[j]).key@ != t[i].key@ by {
            assert(t[j] == s[j]);
        }
        lemma_keyed_map_at(t, i);
    }
}

proof fn lemma_keyed_map_update(s: Seq<KeyedAcceptor>, i: int, x: KeyedAcceptor)
    requires
        0 <= i < s.len(),
        last_of_key(s, i),
        x.key@ == s[i].key@,
    ensures
        keyed_map(s.update(i, x)) == keyed_map(s).insert(x.key@, x.acceptor@),
    decreases s.len(),
{
    let u = s.update(i, x);
    let t = s.drop_last();
    if i == s.len() - 1 {
        assert(u.drop_last() =~= t);
        assert(keyed_map(u) =~= keyed_map(s).insert(x.key@, x.acceptor@));
    } else {
        assert(u.drop_last() =~= t.update(i, x));
        assert(t[i] == s[i]);
        assert(s.last() == s[s.len() - 1]);
        assert(u.last() == s.last());
        assert forall|j: int| i < j < t.len() implies (#[trigger] t[j]).key@ != t[i].key@ by {
            assert(t[j] == s[j]);
        }
        lemma_keyed_map_update(t, i, x);
        assert(s[s.len() - 1].key@ != s[i].key@);
        assert(keyed_map(u) =~= keyed_map(s).insert(x.key@, x.acceptor@));
    }
}

/// Every acceptor a table holds is well formed.
pub open spec fn table_well_formed(m: Map<Seq<char>, AcceptorView>) -> bool {
    forall|k: Seq<char>| #[trigger] m.contains_key(k) ==> acceptor_well_formed(m[k])
}

/// A node's acceptor state kept per key, so that rounds on different keys
/// do not block each other. Its view maps each key seen to its acceptor's
/// state; a key not seen stands for a fresh acceptor.
pub struct AcceptorTable {
    entries: Vec<KeyedAcceptor>,
}

impl View for AcceptorTable {
    type V = Map<Seq<char>, AcceptorView>;

    closed spec fn view(&self) -> Map<Seq<char>, AcceptorView> {
        keyed_map(self.entries@)
    }
}

impl AcceptorTable {
    pub fn new() -> (r: AcceptorTable)
        ensures
            r@ == Map::<Seq<char>, AcceptorView>::empty(),
            table_well_formed(r@),
    {
        let r = AcceptorTable { entries: Vec::new() };
        assert(r.entries@.len() == 0);
        r
    }

    /// The position of `key`'s acceptor, added fresh if the key is new.
    fn slot(&mut self, key: &str) -> (i: usize)
        ensures
            i < final(self).entries@.len(),
            final(self).entries@[i as int].key@ == key@,
            last_of_key(final(self).entries@, i as int),
            final(self)@ == old(self)@.insert(key@, acceptor_of(old(self)@, key@)),
    {
        let mut i: usize = self.entries.len();
        while i > 0
            invariant
                i <= self.entries@.len(),
                self == old(self),
                forall|j: int| i <= j < self.entries@.len() ==> (#[trigger] self.entries@[j]).key@
                    != key@,
            decreases i,
        {
            if self.entries[i - 1].key == key.to_string() {
                proof {
                    lemma_keyed_map_at(self.entries@, i - 1);
                    assert(self@ =~= old(self)@.insert(key@, acceptor_of(old(self)@, key@)));
                }
                return i - 1;
            }
            i = i - 1;
        }
        proof {
            lemma_keyed_map_absent(self.entries@, key@);
        }
        let ghost before = self.entries@;
        let entry = KeyedAcceptor { key: key.to_string(), acceptor: Acceptor::new() };
        self.entries.push(entry);
        assert(self.entries@.drop_last() =~= before);
        self.entries.len() - 1
    }

    /// Phase 1 on the acceptor of the proposal's key.
    pub fn prepare(&mut self, proposal: Proposal) -> (r: Option<Promise>)
        ensures
            final(self)@ == old(self)@.insert(
                proposal@.key,
                prepare_step(acceptor_of(old(self)@, proposal@.key), proposal@).0,
            ),
            match r {
                Some(pr) => Some(pr@),
                None => None,
            } == prepare_step(acceptor_of(old(self)@, proposal@.key), proposal@).1,
            table_well_formed(old(self)@) ==> table_well_formed(final(self)@),
    {
        let i = self.slot(proposal.get_key());
        proof {
            lemma_keyed_map_at(self.entries@, i as int);
        }
        let ghost before = self.entries@;
        let mut entry = self.entries.remove(i);
        let r = entry.acceptor.prepare(proposal);
        proof {
            lemma_keyed_map_update(before, i as int, entry);
        }
        self.entries.insert(i, entry);
        assert(self.entries@ =~= before.update(i as int, entry));
        r
    }

    /// Phase 2 on the acceptor of the proposal's key.
    pub fn accept(&mut self, proposal: Proposal) -> (r: Option<Accept_Message>)
        ensures
            final(self)@ == old(self)@.insert(
                proposal@.key,
                accept_step(acceptor_of(old(self)@, proposal@.key), proposal@).0,
            ),
            opt_accept_view(r) == accept_step(acceptor_of(old(self)@, proposal@.key), proposal@).1,
            r matches Some(m) ==> m.status == Acceptor_Status::Accepted && m.proposal_id as int
                == proposal@.id,
            table_well_formed(old(self)@) ==> table_well_formed(final(self)@),
    {
        let i = self.slot(proposal.get_key());
        proof {
            lemma_keyed_map_at(self.entries@, i as int);
        }
        let ghost before = self.entries@;
        let mut entry = self.entries.remove(i);
        let r = entry.acceptor.accept(proposal);
        proof {
            lemma_keyed_map_update(before, i as int, entry);
        }
        self.entries.insert(i, entry);
        assert(self.entries@ =~= before.update(i as int, entry));
        r
    }
}

/// One call on an acceptor, as its effect on the state.
pub enum AcceptorOp {
    Prepare(ProposalView),
    Accept(ProposalView),
}

pub open spec fn apply_op(a: AcceptorView, op: AcceptorOp) -> AcceptorView {
    match op {
        AcceptorOp::Prepare(p) => prepare_step(a, p).0,
        AcceptorOp::Accept(p) => accept_step(a, p).0,
    }
}

/// The state after a sequence of calls.
pub open spec fn run_ops(a: AcceptorView, ops: Seq<AcceptorOp>) -> AcceptorView
    decreases ops.len(),
{
    if ops.len() == 0 {
        a
    } else {
        apply_op(run_ops(a, ops.drop_last()), ops.last())
    }
}

/// The promised id never decreases, whatever calls are made.
pub proof fn lemma_promise_monotonic(a: AcceptorView, ops: Seq<AcceptorOp>)
    ensures
        run_ops(a, ops).max_promised >= a.max_promised,
    decreases ops.len(),
{
    if ops.len() > 0 {
        lemma_promise_monotonic(a, ops.drop_last());
    }
}

/// Once `accept` succeeds with id N, no later `accept` with an id below N
/// succeeds, whatever `prepare` and `accept` calls come in between.
pub proof fn lemma_accept_safety(a: AcceptorView, p: ProposalView, ops: Seq<AcceptorOp>, q: ProposalView)
    requires
        accept_step(a, p).1 is Some,
        q.id < p.id,
    ensures
        accept_step(run_ops(accept_step(a, p).0, ops), q).1 is None,
{
    lemma_promise_monotonic(accept_step(a, p).0, ops);
}

/// A rejected `prepare` or `accept` leaves the state as it was.
pub proof fn lemma_rejection_is_side_effect_free(a: AcceptorView, p: ProposalView)
    ensures
        prepare_step(a, p).1 is None ==> prepare_step(a, p).0 == a,
        accept_step(a, p).1 is None ==> accept_step(a, p).0 == a,
{
}

/// Every state reached from a fresh acceptor is well formed.
pub proof fn lemma_reachable_well_formed(ops: Seq<AcceptorOp>)
    ensures
        acceptor_well_formed(run_ops(initial_acceptor(), ops)),
    decreases ops.len(),
{
    if ops.len() > 0 {
        lemma_reachable_well_formed(ops.drop_last());
    }
}

/// After accepting a proposal, a `prepare` with an id at least as high is
/// promised and reports that proposal's id and value.
pub proof fn lemma_promise_recovers_accepted(a: AcceptorView, p: ProposalView, q: ProposalView)
    requires
        accept_step(a, p).1 is Some,
        q.id >= p.id,
    ensures
        prepare_step(accept_step(a, p).0, q).1 == Some(
            PromiseView { promised_id: q.id, accepted_id: Some(p.id), accepted_value: Some(p.value) },
        ),
{
}

/// A call on one key's acceptor leaves every other key's acceptor as it was.
pub proof fn lemma_keys_independent(
    m: Map<Seq<char>, AcceptorView>,
    key: Seq<char>,
    a: AcceptorView,
    other: Seq<char>,
)
    requires
        other != key,
    ensures
        acceptor_of(m.insert(key, a), other) == acceptor_of(m, other),
{
}

/// In a well-formed state, an `accept` below the highest accepted id is
/// rejected and changes nothing.
pub proof fn lemma_accept_below_accepted_rejected(a: AcceptorView, p: ProposalView)
    requires
        acceptor_well_formed(a),
        p.id < a.max_accepted,
    ensures
        accept_step(a, p).1 is None,
        accept_step(a, p).0 == a,
{
}

} // verus!
