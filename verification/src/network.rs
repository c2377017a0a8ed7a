use crate::error::ExplorationError;
use vstd::prelude::*;

verus! {

/// The health of a node.
#[derive(Clone, Copy, Debug, PartialEq, Eq, Structural)]
pub enum NodeStatus {
    Susceptible,
    Infected,
    Resistant,
}

/// A node of the network: its identity and its health.
#[derive(Clone, Copy, Debug, PartialEq, Eq, Structural)]
pub struct Node {
    pub id: u32,
    pub status: NodeStatus,
}

/// An edge as one of its nodes lists it: `u` is the listing node, `v` the other end.
#[derive(Clone, Copy, Debug, PartialEq, Eq, Structural)]
pub struct Edge {
    pub u: u32,
    pub v: u32,
}

/// A network snapshot: the nodes in the order of their ids, and for each node the
/// edges that touch it.
#[derive(Debug)]
pub struct Topology {
    nodes: Vec<Node>,
    adjacency: Vec<Vec<Edge>>,
}

/// What a `Topology` holds, as plain sequences.
pub struct TopologyView {
    pub nodes: Seq<Node>,
    pub adjacency: Seq<Seq<Edge>>,
}

impl TopologyView {
    /// Node `i` has the id `i`, every node has its list, and every listed edge starts
    /// at the listing node and ends at a node of the set.
    pub open spec fn wf(self) -> bool {
        &&& self.nodes.len() <= u32::MAX
        &&& self.adjacency.len() == self.nodes.len()
        &&& forall|i: int| 0 <= i < self.nodes.len() ==> (#[trigger] self.nodes[i]).id == i
        &&& forall|i: int, k: int|
            0 <= i < self.adjacency.len() && 0 <= k < self.adjacency[i].len() ==> {
                &&& (#[trigger] self.adjacency[i][k]).u == i
                &&& self.adjacency[i][k].v < self.nodes.len()
            }
    }

    pub open spec fn is_isolated(self, i: int) -> bool {
        0 <= i < self.adjacency.len() && self.adjacency[i].len() == 0
    }

    pub open spec fn has_isolated_node(self) -> bool {
        exists|i: int| self.is_isolated(i)
    }
}

/// The lists of a snapshot as sequences of sequences.
pub open spec fn lists_view(lists: Seq<Vec<Edge>>) -> Seq<Seq<Edge>> {
    Seq::new(lists.len(), |i: int| lists[i]@)
}

impl View for Topology {
    type V = TopologyView;

    closed spec fn view(&self) -> TopologyView {
        TopologyView { nodes: self.nodes@, adjacency: lists_view(self.adjacency@) }
    }
}

/// One node's answer from the generator: its edges as pairs, or nothing.
pub open spec fn listed(raw: Seq<Option<Vec<(u32, u32)>>>, i: int) -> Seq<(u32, u32)> {
    match raw[i] {
        Some(pairs) => pairs@,
        None => Seq::empty(),
    }
}

/// The answers fit a network of `node_count` nodes: one per node, each pair from
/// the asked node to a node of the set.
pub open spec fn answers_fit(node_count: u32, raw: Seq<Option<Vec<(u32, u32)>>>) -> bool {
    &&& raw.len() == node_count
    &&& forall|i: int, k: int|
        0 <= i < raw.len() && 0 <= k < listed(raw, i).len() ==> {
            &&& (#[trigger] listed(raw, i)[k]).0 == i
            &&& listed(raw, i)[k].1 < node_count
        }
}

/// The snapshot that the answers describe: susceptible nodes `0..node_count`, and
/// for each the edges it was answered with, in their order.
pub open spec fn assembled(node_count: u32, raw: Seq<Option<Vec<(u32, u32)>>>) -> TopologyView {
    TopologyView {
        nodes: Seq::new(
            node_count as nat,
            |i: int| Node { id: i as u32, status: NodeStatus::Susceptible },
        ),
        adjacency: Seq::new(
            node_count as nat,
            |i: int|
                Seq::new(
                    listed(raw, i).len(),
                    |k: int| Edge { u: listed(raw, i)[k].0, v: listed(raw, i)[k].1 },
                ),
        ),
    }
}

impl Topology {
    pub open spec fn wf(&self) -> bool {
        self@.wf()
    }

    /// Tells whether the snapshot is well formed.
    pub fn is_valid(&self) -> (ok: bool)
        ensures
            ok == self.wf(),
    {
        let count: usize = self.nodes.len();
        if count > u32::MAX as usize || self.adjacency.len() != count {
            return false;
        }
        let mut i: usize = 0;
        while i < count
            invariant
                i <= count,
                count == self.nodes@.len(),
                count == self.adjacency@.len(),
                count <= u32::MAX,
                forall|a: int| 0 <= a < i ==> (#[trigger] self@.nodes[a]).id == a,
                forall|a: int, k: int|
                    0 <= a < i && 0 <= k < self@.adjacency[a].len() ==> {
                        &&& (#[trigger] self@.adjacency[a][k]).u == a
                        &&& self@.adjacency[a][k].v < count
                    },
            decreases count - i,
        {
            if self.nodes[i].id != i as u32 {
                assert(self@.nodes[i as int].id != i);
                return false;
            }
            let list = &self.adjacency[i];
            let mut k: usize = 0;
            while k < list.len()
                invariant
                    k <= list.len(),
                    i < count,
                    count == self.adjacency@.len(),
                    count == self.nodes@.len(),
                    count <= u32::MAX,
                    list@ == self@.adjacency[i as int],
                    forall|j: int|
                        0 <= j < k ==> (#[trigger] list@[j]).u == i && list@[j].v < count,
                decreases list.len() - k,
            {
                let edge = list[k];
                if edge.u != i as u32 || edge.v as usize >= count {
                    assert(self@.adjacency[i as int][k as int] == edge);
                    return false;
                }
                k += 1;
            }
            i += 1;
        }
        true
    }

    pub fn node_count(&self) -> (n: usize)
        requires
            self.wf(),
        ensures
            n == self@.nodes.len(),
    {
        self.nodes.len()
    }

    pub fn node(&self, i: usize) -> (node: Node)
        requires
            self.wf(),
            i < self@.nodes.len(),
        ensures
            node == self@.nodes[i as int],
    {
        self.nodes[i]
    }

    pub fn degree(&self, i: usize) -> (d: usize)
        requires
            self.wf(),
            i < self@.nodes.len(),
        ensures
            d == self@.adjacency[i as int].len(),
    {
        self.adjacency[i].len()
    }

    pub fn edge(&self, i: usize, k: usize) -> (e: Edge)
        requires
            self.wf(),
            i < self@.nodes.len(),
            k < self@.adjacency[i as int].len(),
        ensures
            e == self@.adjacency[i as int][k as int],
            e.u == i,
            e.v < self@.nodes.len(),
    {
        self.adjacency[i][k]
    }
}

/// Checks one node's answer: every pair starts at `node` and ends below `node_count`.
pub fn answer_fits(node: u32, node_count: u32, pairs: &Vec<(u32, u32)>) -> (ok: bool)
    ensures
        ok <==> forall|k: int|
            0 <= k < pairs@.len() ==> (#[trigger] pairs@[k]).0 == node && pairs@[k].1 < node_count,
{
    let mut k: usize = 0;
    while k < pairs.len()
        invariant
            k <= pairs.len(),
            forall|j: int|
                0 <= j < k ==> (#[trigger] pairs@[j]).0 == node && pairs@[j].1 < node_count,
        decreases pairs.len() - k,
    {
        let pair = pairs[k];
        if pair.0 != node || pair.1 >= node_count {
            return false;
        }
        k += 1;
    }
    true
}

/// Turns one node's pairs into its edges.
pub fn edges_of(pairs: &Vec<(u32, u32)>) -> (edges: Vec<Edge>)
    ensures
        edges@ == Seq::new(pairs@.len(), |k: int| Edge { u: pairs@[k].0, v: pairs@[k].1 }),
{
    let mut edges: Vec<Edge> = Vec::new();
    let mut k: usize = 0;
    while k < pairs.len()
        invariant
            k <= pairs.len(),
            edges@ == Seq::new(k as nat, |j: int| Edge { u: pairs@[j].0, v: pairs@[j].1 }),
        decreases pairs.len() - k,
    {
        let pair = pairs[k];
        edges.push(Edge { u: pair.0, v: pair.1 });
        k += 1;
    }
    edges
}

impl Topology {
    /// Builds the snapshot of `node_count` susceptible nodes from the generator's
    /// answers, one per node. Answers that do not fit the node set are refused.
    pub fn assemble(node_count: u32, raw: &Vec<Option<Vec<(u32, u32)>>>) -> (r: Result<
        Topology,
        ExplorationError,
    >)
        ensures
            r is Ok <==> answers_fit(node_count, raw@),
            r matches Ok(t) ==> t.wf() && t@ == assembled(node_count, raw@),
            r matches Err(e) ==> e == ExplorationError::InvariantViolation,
    {
        if raw.len() != node_count as usize {
            return Err(ExplorationError::InvariantViolation);
        }
        let mut nodes: Vec<Node> = Vec::new();
        let mut adjacency: Vec<Vec<Edge>> = Vec::new();
        let mut i: u32 = 0;
        while i < node_count
            invariant
                i <= node_count,
                raw@.len() == node_count,
                nodes@ == assembled(i, raw@).nodes,
                lists_view(adjacency@) == assembled(i, raw@).adjacency,
                adjacency@.len() == i,
                forall|a: int, k: int|
                    0 <= a < i && 0 <= k < listed(raw@, a).len() ==> {
                        &&& (#[trigger] listed(raw@, a)[k]).0 == a
                        &&& listed(raw@, a)[k].1 < node_count
                    },
            decreases node_count - i,
        {
            let edges = match &raw[i as usize] {
                Some(pairs) => {
                    if !answer_fits(i, node_count, pairs) {
                        assert(!answers_fit(node_count, raw@)) by {
                            if answers_fit(node_count, raw@) {
                                assert forall|k: int| 0 <= k < pairs@.len() implies (
                                #[trigger] pairs@[k]).0 == i && pairs@[k].1 < node_count by {
                                    assert(listed(raw@, i as int)[k] == pairs@[k]);
                                }
                            }
                        }
                        return Err(ExplorationError::InvariantViolation);
                    }
                    edges_of(pairs)
                },
                None => Vec::new(),
            };
            nodes.push(Node { id: i, status: NodeStatus::Susceptible });
            adjacency.push(edges);
            i += 1;
            proof {
                assert(nodes@ =~= assembled(i, raw@).nodes);
                assert(lists_view(adjacency@) =~= assembled(i, raw@).adjacency) by {
                    assert forall|a: int| 0 <= a < i implies lists_view(adjacency@)[a] == assembled(
                        i,
                        raw@,
                    ).adjacency[a] by {
                        if a < i - 1 {
                            assert(lists_view(adjacency@)[a] == assembled(
                                (i - 1) as u32,
                                raw@,
                            ).adjacency[a]);
                        }
                    }
                }
            }
        }
        let topology = Topology { nodes, adjacency };
        proof {
            assert(topology@.nodes == assembled(node_count, raw@).nodes);
            assert(topology@.adjacency == assembled(node_count, raw@).adjacency);
            assert(answers_fit(node_count, raw@));
            assert(topology@.wf()) by {
                assert forall|a: int, k: int|
                    0 <= a < topology@.adjacency.len() && 0 <= k
                        < topology@.adjacency[a].len() implies {
                    &&& (#[trigger] topology@.adjacency[a][k]).u == a
                    &&& topology@.adjacency[a][k].v < topology@.nodes.len()
                } by {
                    assert(topology@.adjacency[a][k].u == listed(raw@, a)[k].0);
                }
            }
        }
        Ok(topology)
    }
}

/// The number of listings in the first `upto` lists.
pub open spec fn listings(adjacency: Seq<Seq<Edge>>, upto: int) -> nat
    decreases upto,
{
    if upto <= 0 {
        0
    } else {
        listings(adjacency, upto - 1) + adjacency[upto - 1].len()
    }
}

/// The ids below `upto` whose nodes list no edge, in rising order.
pub open spec fn isolated_below(adjacency: Seq<Seq<Edge>>, upto: int) -> Seq<u32>
    decreases upto,
{
    if upto <= 0 {
        Seq::empty()
    } else if adjacency[upto - 1].len() == 0 {
        isolated_below(adjacency, upto - 1).push((upto - 1) as u32)
    } else {
        isolated_below(adjacency, upto - 1)
    }
}

/// An id is among `isolated_below` exactly when it is below `upto` and its node
/// lists no edge.
pub proof fn lemma_isolated_below(adjacency: Seq<Seq<Edge>>, upto: int, id: u32)
    requires
        0 <= upto <= adjacency.len(),
        adjacency.len() <= u32::MAX,
    ensures
        isolated_below(adjacency, upto).contains(id) <==> (id < upto && adjacency[id as int].len()
            == 0),
    decreases upto,
{
    if upto > 0 {
        lemma_isolated_below(adjacency, upto - 1, id);
        let before = isolated_below(adjacency, upto - 1);
        if adjacency[upto - 1].len() == 0 {
            let now = before.push((upto - 1) as u32);
            assert(now[now.len() - 1] == (upto - 1) as u32);
            if before.contains(id) {
                let k = choose|k: int| 0 <= k < before.len() && before[k] == id;
                assert(now[k] == id);
            }
        }
    }
}

impl Topology {
    /// A copy that holds the same nodes and lists.
    pub fn duplicate(&self) -> (copy: Topology)
        ensures
            copy@ == self@,
    {
        let nodes = self.nodes.clone();
        let mut adjacency: Vec<Vec<Edge>> = Vec::new();
        let mut i: usize = 0;
        while i < self.adjacency.len()
            invariant
                i <= self.adjacency.len(),
                adjacency@.len() == i,
                forall|a: int| 0 <= a < i ==> (#[trigger] adjacency@[a])@ == self.adjacency@[a]@,
            decreases self.adjacency.len() - i,
        {
            let list = self.adjacency[i].clone();
            assert(list@ =~= self.adjacency@[i as int]@);
            adjacency.push(list);
            i += 1;
        }
        let copy = Topology { nodes, adjacency };
        proof {
            assert(copy@.nodes =~= self@.nodes);
            assert(copy@.adjacency =~= self@.adjacency);
        }
        copy
    }

    /// The ids of the nodes that no edge touches, in rising order: the no-edge
    /// indicators of the generator.
    pub fn isolated_nodes(&self) -> (ids: Vec<u32>)
        requires
            self.wf(),
        ensures
            ids@ == isolated_below(self@.adjacency, self@.adjacency.len() as int),
            forall|id: u32| ids@.contains(id) <==> self@.is_isolated(id as int),
            (ids@.len() > 0) == self@.has_isolated_node(),
    {
        let mut ids: Vec<u32> = Vec::new();
        let mut i: usize = 0;
        while i < self.adjacency.len()
            invariant
                i <= self.adjacency.len(),
                self.wf(),
                ids@ == isolated_below(self@.adjacency, i as int),
            decreases self.adjacency.len() - i,
        {
            if self.adjacency[i].len() == 0 {
                ids.push(i as u32);
            }
            i += 1;
        }
        proof {
            let adjacency = self@.adjacency;
            assert forall|id: u32| ids@.contains(id) <==> self@.is_isolated(id as int) by {
                lemma_isolated_below(adjacency, adjacency.len() as int, id);
            }
            if ids@.len() > 0 {
                assert(ids@.contains(ids@[0]));
                assert(self@.is_isolated(ids@[0] as int));
            }
            if self@.has_isolated_node() {
                let w = choose|w: int| self@.is_isolated(w);
                assert(ids@.contains(w as u32));
            }
        }
        ids
    }

    /// The number of edges, each of which both of its nodes list: half the listings.
    pub fn edge_count(&self) -> (count: usize)
        requires
            self.wf(),
            listings(self@.adjacency, self@.adjacency.len() as int) <= usize::MAX,
        ensures
            count == listings(self@.adjacency, self@.adjacency.len() as int) / 2,
    {
        let mut total: usize = 0;
        let mut i: usize = 0;
        while i < self.adjacency.len()
            invariant
                i <= self.adjacency.len(),
                total == listings(self@.adjacency, i as int),
                listings(self@.adjacency, self@.adjacency.len() as int) <= usize::MAX,
            decreases self.adjacency.len() - i,
        {
            proof {
                lemma_listings_grow(self@.adjacency, i as int + 1, self@.adjacency.len() as int);
            }
            total = total + self.adjacency[i].len();
            i += 1;
        }
        total / 2
    }
}

/// Counting more lists never counts fewer listings.
pub proof fn lemma_listings_grow(adjacency: Seq<Seq<Edge>>, a: int, b: int)
    requires
        a <= b,
    ensures
        listings(adjacency, a) <= listings(adjacency, b),
    decreases b - a,
{
    if a < b {
        lemma_listings_grow(adjacency, a, b - 1);
    }
}

} // verus!
