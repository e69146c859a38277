use vstd::prelude::*;

verus! {

/// Whether a peer can currently be reached.
#[allow(non_camel_case_types)]
#[derive(Debug, Clone, Copy, PartialEq, Eq, Structural)]
pub enum Connection_Status {
    Active,
    Unreachable,
    Retrying,
}

/// The mathematical value of a membership entry.
pub struct NodeView {
    pub node_id: int,
    pub addr: Seq<char>,
    pub status: Connection_Status,
}

/// One member of the cluster: its id, network address and reachability.
#[derive(Debug)]
pub struct NodeConfig {
    pub node_id: i32,
    pub addr: String,
    pub status: Connection_Status,
}

impl View for NodeConfig {
    type V = NodeView;

    open spec fn view(&self) -> NodeView {
        NodeView { node_id: self.node_id as int, addr: self.addr@, status: self.status }
    }
}

impl Clone for NodeConfig {
    fn clone(&self) -> (r: NodeConfig)
        ensures
            r@ == self@,
    {
        NodeConfig { node_id: self.node_id, addr: self.addr.clone(), status: self.status }
    }
}

impl NodeConfig {
    pub fn new(node_id: i32, addr: String, status: Connection_Status) -> (r: NodeConfig)
        ensures
            r@ == (NodeView { node_id: node_id as int, addr: addr@, status }),
    {
        NodeConfig { node_id, addr, status }
    }
}

pub open spec fn nodes_view(v: Seq<NodeConfig>) -> Seq<NodeView> {
    v.map_values(|n: NodeConfig| n@)
}

/// No node id occurs twice.
pub open spec fn ids_unique(s: Seq<NodeView>) -> bool {
    forall|i: int, j: int|
        0 <= i < s.len() && 0 <= j < s.len() && i != j ==> #[trigger] s[i].node_id
            != #[trigger] s[j].node_id
}

pub open spec fn has_member(s: Seq<NodeView>, id: int) -> bool {
    exists|i: int| 0 <= i < s.len() && #[trigger] s[i].node_id == id
}

/// Registration as an upsert: a known node id gets the new address and is
/// marked active in place; an unknown one is appended, active.
pub open spec fn upsert(s: Seq<NodeView>, id: int, addr: Seq<char>) -> Seq<NodeView> {
    let entry = NodeView { node_id: id, addr, status: Connection_Status::Active };
    if has_member(s, id) {
        s.update(choose|i: int| 0 <= i < s.len() && #[trigger] s[i].node_id == id, entry)
    } else {
        s.push(entry)
    }
}

/// The cluster's members keyed by node id, in order of first registration.
pub struct Membership {
    nodes: Vec<NodeConfig>,
}

impl View for Membership {
    type V = Seq<NodeView>;

    closed spec fn view(&self) -> Seq<NodeView> {
        nodes_view(self.nodes@)
    }
}

impl Membership {
    /// The membership invariant: node ids are unique.
    pub open spec fn wf(&self) -> bool {
        ids_unique(self@)
    }

    pub fn new() -> (r: Membership)
        ensures
            r@ == Seq::<NodeView>::empty(),
            r.wf(),
    {
        let r = Membership { nodes: Vec::new() };
        assert(r@ =~= Seq::<NodeView>::empty());
        r
    }

    pub fn len(&self) -> (r: usize)
        ensures
            r == self@.len(),
    {
        self.nodes.len()
    }

    /// The position of the member with `node_id`, if registered.
    pub fn find(&self, node_id: i32) -> (r: Option<usize>)
        ensures
            r matches Some(i) ==> i < self@.len() && self@[i as int].node_id == node_id as int,
            r is None <==> !has_member(self@, node_id as int),
    {
        let mut i: usize = 0;
        while i < self.nodes.len()
            invariant
                i <= self@.len(),
                self@.len() == self.nodes@.len(),
                forall|j: int| 0 <= j < i ==> #[trigger] self@[j].node_id != node_id as int,
            decreases self.nodes@.len() - i,
        {
            if self.nodes[i].node_id == node_id {
                assert(self@[i as int].node_id == node_id as int);
                return Some(i);
            }
            i = i + 1;
        }
        None
    }

    /// Registers a node: updates it in place if known, appends it otherwise.
    pub fn register(&mut self, node_id: i32, addr: String)
        requires
            old(self).wf(),
        ensures
            final(self).wf(),
            final(self)@ == upsert(old(self)@, node_id as int, addr@),
    {
        let ghost entry = NodeView {
            node_id: node_id as int,
            addr: addr@,
            status: Connection_Status::Active,
        };
        match self.find(node_id) {
            Some(i) => {
                let ghost k = choose|k: int|
                    0 <= k < self@.len() && #[trigger] self@[k].node_id == node_id as int;
                assert(k == i);
                self.nodes.set(i, NodeConfig::new(node_id, addr, Connection_Status::Active));
                assert(self@ =~= old(self)@.update(i as int, entry));
            },
            None => {
                self.nodes.push(NodeConfig::new(node_id, addr, Connection_Status::Active));
                assert(self@ =~= old(self)@.push(entry));
            },
        }
    }

    /// The member at position `i`.
    pub fn get(&self, i: usize) -> (r: &NodeConfig)
        requires
            i < self@.len(),
        ensures
            r@ == self@[i as int],
    {
        &self.nodes[i]
    }

    /// A copy of the member list, as a round sees it from its start.
    pub fn peers(&self) -> (r: Vec<NodeConfig>)
        ensures
            nodes_view(r@) == self@,
    {
        let mut out: Vec<NodeConfig> = Vec::new();
        let mut i: usize = 0;
        while i < self.nodes.len()
            invariant
                i <= self.nodes@.len(),
                out@.len() == i,
                forall|j: int| 0 <= j < i ==> (#[trigger] out@[j])@ == self.nodes@[j]@,
            decreases self.nodes@.len() - i,
        {
            out.push(self.nodes[i].clone());
            i = i + 1;
        }
        assert(nodes_view(out@) =~= self@);
        out
    }
}

/// Registering a node twice with the same address leaves the same members as
/// registering it once, and registration never creates a duplicate id.
pub proof fn lemma_register_idempotent(s: Seq<NodeView>, id: int, addr: Seq<char>)
    requires
        ids_unique(s),
    ensures
        ids_unique(upsert(s, id, addr)),
        upsert(upsert(s, id, addr), id, addr) == upsert(s, id, addr),
{
    let entry = NodeView { node_id: id, addr, status: Connection_Status::Active };
    let t = upsert(s, id, addr);
    if has_member(s, id) {
        let k = choose|i: int| 0 <= i < s.len() && #[trigger] s[i].node_id == id;
        assert(t[k].node_id == id);
        assert(has_member(t, id));
        let k2 = choose|i: int| 0 <= i < t.len() && #[trigger] t[i].node_id == id;
        assert(k2 == k);
        assert(upsert(t, id, addr) =~= t);
    } else {
        assert(t[s.len() as int].node_id == id);
        assert(has_member(t, id));
        let k2 = choose|i: int| 0 <= i < t.len() && #[trigger] t[i].node_id == id;
        assert(k2 == s.len());
        assert(upsert(t, id, addr) =~= t);
    }
}

} // verus!
