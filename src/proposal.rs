use vstd::prelude::*;

verus! {

/// The mathematical value of a proposal: its sequence number, key and value.
pub struct ProposalView {
    pub id: int,
    pub key: Seq<char>,
    pub value: Seq<char>,
}

/// A proposal of one value for one key under one sequence number.
/// Immutable once constructed.
#[derive(Debug, Default)]
pub struct Proposal {
    proposer_id: i32,
    key: String,
    value: String,
}

impl View for Proposal {
    type V = ProposalView;

    closed spec fn view(&self) -> ProposalView {
        ProposalView { id: self.proposer_id as int, key: self.key@, value: self.value@ }
    }
}

impl Clone for Proposal {
    fn clone(&self) -> (r: Proposal)
        ensures
            r@ == self@,
    {
        Proposal { proposer_id: self.proposer_id, key: self.key.clone(), value: self.value.clone() }
    }
}

impl Proposal {
    pub fn new(proposer_id: i32, key: String, value: String) -> (r: Proposal)
        ensures
            r@ == (ProposalView { id: proposer_id as int, key: key@, value: value@ }),
    {
        Proposal { proposer_id, key, value }
    }

    pub fn get_proposal_id(&self) -> (r: i32)
        ensures
            r as int == self@.id,
    {
        self.proposer_id
    }

    pub fn get_key(&self) -> (r: &str)
        ensures
            r@ == self@.key,
    {
        self.key.as_str()
    }

    pub fn get_value(&self) -> (r: &str)
        ensures
            r@ == self@.value,
    {
        self.value.as_str()
    }
}

} // verus!
