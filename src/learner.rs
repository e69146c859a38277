use vstd::prelude::*;
use crate::acceptor::opt_string_view;
use crate::proposal::{Proposal, ProposalView};

verus! {

/// One committed value within the learner.
pub struct AppliedEntry {
    key: String,
    value: String,
}

/// The map that a list of entries stands for; a later entry for a key
/// shadows an earlier one.
pub closed spec fn applied_map(s: Seq<AppliedEntry>) -> Map<Seq<char>, Seq<char>>
    decreases s.len(),
{
    if s.len() == 0 {
        Map::empty()
    } else {
        applied_map(s.drop_last()).insert(s.last().key@, s.last().value@)
    }
}

/// No entry after position `i` has the key of entry `i`.
spec fn last_of_key(s: Seq<AppliedEntry>, i: int) -> bool {
    forall|j: int| i < j < s.len() ==> (#[trigger] s[j]).key@ != s[i].key@
}

proof fn lemma_applied_absent(s: Seq<AppliedEntry>, key: Seq<char>)
    requires
        forall|i: int| 0 <= i < s.len() ==> (#[trigger] s[i]).key@ != key,
    ensures
        !applied_map(s).contains_key(key),
    decreases s.len(),
{
    if s.len() > 0 {
        assert(s.last() == s[s.len() - 1]);
        let t = s.drop_last();
        assert forall|i: int| 0 <= i < t.len() implies (#[trigger] t[i]).key@ != key by {
            assert(t[i] == s[i]);
        }
        lemma_applied_absent(t, key);
    }
}

proof fn lemma_applied_at(s: Seq<AppliedEntry>, i: int)
    requires
        0 <= i < s.len(),
        last_of_key(s, i),
    ensures
        applied_map(s).contains_key(s[i].key@),
        applied_map(s)[s[i].key@] == s[i].value@,
    decreases s.len(),
{
    if i < s.len() - 1 {
        let t = s.drop_last();
        assert(t[i] == s[i]);
        assert(s.last() == s[s.len() - 1]);
        assert forall|j: int| i < j < t.len() implies (#[trigger] t[j]).key@ != t[i].key@ by {
            assert(t[j] == s[j]);
        }
        lemma_applied_at(t, i);
    }
}

proof fn lemma_applied_update(s: Seq<AppliedEntry>, i: int, x: AppliedEntry)
    requires
        0 <= i < s.len(),
        last_of_key(s, i),
        x.key@ == s[i].key@,
    ensures
        applied_map(s.update(i, x)) == applied_map(s).insert(x.key@, x.value@),
    decreases s.len(),
{
    let u = s.update(i, x);
    let t = s.drop_last();
    if i == s.len() - 1 {
        assert(u.drop_last() =~= t);
        assert(applied_map(u) =~= applied_map(s).insert(x.key@, x.value@));
    } else {
        assert(u.drop_last() =~= t.update(i, x));
        assert(t[i] == s[i]);
        assert(s.last() == s[s.len() - 1]);
        assert(u.last() == s.last());
        assert forall|j: int| i < j < t.len() implies (#[trigger] t[j]).key@ != t[i].key@ by {
            assert(t[j] == s[j]);
        }
        lemma_applied_update(t, i, x);
        assert(s[s.len() - 1].key@ != s[i].key@);
        assert(applied_map(u) =~= applied_map(s).insert(x.key@, x.value@));
    }
}

/// Applies committed proposals, last commit wins. Its view is the map of
/// committed values, key by key; writing them to durable storage is left
/// to the process that owns the store.
pub struct Learner {
    entries: Vec<AppliedEntry>,
}

impl View for Learner {
    type V = Map<Seq<char>, Seq<char>>;

    closed spec fn view(&self) -> Map<Seq<char>, Seq<char>> {
        applied_map(self.entries@)
    }
}

/// The committed values after committing `p`: its value now stands under
/// its key.
pub open spec fn commit_step(m: Map<Seq<char>, Seq<char>>, p: ProposalView) -> Map<Seq<char>, Seq<char>> {
    m.insert(p.key, p.value)
}

impl Learner {
    pub fn new() -> (r: Learner)
        ensures
            r@ == Map::<Seq<char>, Seq<char>>::empty(),
    {
        let r = Learner { entries: Vec::new() };
        assert(r.entries@.len() == 0);
        r
    }

    /// The position of the last entry for `key`, if any.
    fn find(&self, key: &str) -> (r: Option<usize>)
        ensures
            r matches Some(i) ==> i < self.entries@.len() && self.entries@[i as int].key@ == key@
                && last_of_key(self.entries@, i as int),
            r is None ==> forall|j: int| 0 <= j < self.entries@.len() ==> (#[trigger] self.entries@[j]).key@ != key@,
    {
        let mut i: usize = self.entries.len();
        while i > 0
            invariant
                i <= self.entries@.len(),
                forall|j: int| i <= j < self.entries@.len() ==> (#[trigger] self.entries@[j]).key@ != key@,
            decreases i,
        {
            if self.entries[i - 1].key == key.to_string() {
                return Some(i - 1);
            }
            i = i - 1;
        }
        None
    }

    /// Records the proposal's value under its key, unconditionally.
    pub fn insert(&mut self, proposal: Proposal)
        ensures
            final(self)@ == commit_step(old(self)@, proposal@),
    {
        let key = proposal.get_key().to_string();
        let value = proposal.get_value().to_string();
        match self.find(proposal.get_key()) {
            Some(i) => {
                let ghost before = self.entries@;
                let entry = AppliedEntry { key, value };
                proof {
                    lemma_applied_update(before, i as int, entry);
                }
                self.entries.set(i, entry);
            },
            None => {
                let ghost before = self.entries@;
                proof {
                    lemma_applied_absent(before, key@);
                }
                self.entries.push(AppliedEntry { key, value });
                assert(self.entries@.drop_last() =~= before);
                assert(self@ =~= commit_step(old(self)@, proposal@));
            },
        }
    }

    /// The value committed under `key`, if any.
    pub fn read(&self, key: String) -> (r: Option<String>)
        ensures
            opt_string_view(r) == if self@.contains_key(key@) {
                Some(self@[key@])
            } else {
                None
            },
    {
        match self.find(key.as_str()) {
            Some(i) => {
                proof {
                    lemma_applied_at(self.entries@, i as int);
                }
                Some(self.entries[i].value.clone())
            },
            None => {
                proof {
                    lemma_applied_absent(self.entries@, key@);
                }
                None
            },
        }
    }
}

/// Committing the same proposal twice leaves the same values as committing
/// it once.
pub proof fn lemma_commit_idempotent(m: Map<Seq<char>, Seq<char>>, p: ProposalView)
    ensures
        commit_step(commit_step(m, p), p) == commit_step(m, p),
{
    assert(commit_step(commit_step(m, p), p) =~= commit_step(m, p));
}

} // verus!
