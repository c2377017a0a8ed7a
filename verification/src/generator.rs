use crate::error::ExplorationError;
use crate::network::{
    answers_fit, lemma_listings_grow, listed, listings, Edge, NodeStatus, Topology, TopologyView,
};
use krabmaga::engine::fields::network::Network;
use std::fmt::Display;
use std::hash::Hash;
use vstd::prelude::*;

verus! {

/// krabmaga's `Network`, taken as it is: Verus sees nothing inside it.
#[verifier::external_type_specification]
#[verifier::external_body]
#[verifier::reject_recursive_types(O)]
#[verifier::reject_recursive_types(L)]
pub struct ExNetwork<O: Hash + Eq + Clone + Display, L: Clone + Hash + Display>(Network<O, L>);

/// The nodes that were added to a network, in the order of their adding.
pub uninterp spec fn staged_nodes(net: Network<u32, String>) -> Seq<u32>;

/// The edges that a network shows to its readers: for every node that it shows
/// with a list of edges, that list in its order, each edge as the pair of the ids
/// of its two ends.
pub uninterp spec fn published_edges(net: Network<u32, String>) -> Map<u32, Seq<(u32, u32)>>;

/// The most nodes that a network is generated for: the generator counts degrees in
/// 32 signed bits.
pub const GENERATOR_NODE_LIMIT: u32 = 0x7fff_ffff;

/// What a network shows that shows no list at all.
pub open spec fn nothing_shown() -> Map<u32, Seq<(u32, u32)>> {
    Map::empty()
}

/// The pairs that are shown for `node`; none where no list is shown for it.
pub open spec fn shown(edges: Map<u32, Seq<(u32, u32)>>, node: u32) -> Seq<(u32, u32)> {
    if edges.dom().contains(node) {
        edges[node]
    } else {
        Seq::empty()
    }
}

/// The number of pairs that are shown for the nodes below `upto`.
pub open spec fn shown_listings(edges: Map<u32, Seq<(u32, u32)>>, upto: nat) -> nat
    decreases upto,
{
    if upto == 0 {
        0
    } else {
        shown_listings(edges, (upto - 1) as nat) + shown(edges, (upto - 1) as u32).len()
    }
}

/// The number of edges that the node `node` brings into the network when it is
/// attached: the first two nodes are joined by one edge, each later node is joined
/// to `initial_edges` of the nodes before it, or to all of them where they are fewer.
pub open spec fn own_edges(node: nat, initial_edges: nat) -> nat {
    if node < 2 {
        1
    } else if node < initial_edges {
        node
    } else {
        initial_edges
    }
}

/// The number of edges of a generated network of `node_count` nodes.
pub open spec fn drawn_edges(node_count: nat, initial_edges: nat) -> nat
    decreases node_count,
{
    if node_count < 2 {
        0
    } else if node_count == 2 {
        1
    } else {
        drawn_edges((node_count - 1) as nat, initial_edges) + own_edges(
            (node_count - 1) as nat,
            initial_edges,
        )
    }
}

/// Whether a generated network has a node that no edge touches: the only node of a
/// network of one, and every node from the third on where new nodes bring no edge.
pub open spec fn leaves_isolated(node_count: nat, initial_edges: nat) -> bool {
    node_count == 1 || (node_count >= 3 && initial_edges == 0)
}

/// `Network::new(false)`: an undirected network that holds no node yet and shows
/// nothing.
#[verifier::external_body]
fn empty_network() -> (net: Network<u32, String>)
    ensures
        staged_nodes(net) == Seq::<u32>::empty(),
        published_edges(net) == nothing_shown(),
{
    Network::new(false)
}

/// `Network::add_node`: a node that the network does not hold is added behind the
/// others. What the network shows to its readers stays as it was.
#[verifier::external_body]
fn stage_node(net: &mut Network<u32, String>, node: u32)
    requires
        !staged_nodes(*old(net)).contains(node),
    ensures
        staged_nodes(*final(net)) == staged_nodes(*old(net)).push(node),
        published_edges(*final(net)) == published_edges(*old(net)),
{
    net.add_node(node)
}

/// `Network::preferential_attachment_BA` on the nodes `0..n`, added in that order:
/// replaces the edges by randomly drawn ones and, where there are two nodes or
/// more, shows them to the readers. Which edges are drawn is left to chance. What
/// holds of every outcome: the nodes stay; every shown pair starts at the node it
/// is shown for and ends at another of the nodes; every node is shown at least the
/// edges it brought; and each edge is shown twice, once for each end.
/// The call indexes `nodes` by the count of added nodes, counts degrees as `i32`
/// and reserves room for `initial_edges` choices, which the conditions keep in
/// range.
#[verifier::external_body]
fn attach_preferentially(net: &mut Network<u32, String>, nodes: &Vec<u32>, initial_edges: usize)
    requires
        nodes@ == staged_nodes(*old(net)),
        forall|i: int| 0 <= i < nodes@.len() ==> #[trigger] nodes@[i] == i,
        nodes@.len() <= GENERATOR_NODE_LIMIT,
        initial_edges <= nodes@.len(),
    ensures
        staged_nodes(*final(net)) == staged_nodes(*old(net)),
        nodes@.len() < 2 ==> published_edges(*final(net)) == published_edges(*old(net)),
        nodes@.len() >= 2 ==> {
            &&& forall|node: u32|
                #[trigger] published_edges(*final(net)).dom().contains(node) ==> node
                    < nodes@.len()
            &&& forall|node: u32, k: int|
                0 <= k < shown(published_edges(*final(net)), node).len() ==> {
                    &&& (#[trigger] shown(published_edges(*final(net)), node)[k]).0 == node
                    &&& shown(published_edges(*final(net)), node)[k].1 < nodes@.len()
                    &&& shown(published_edges(*final(net)), node)[k].1 != node
                }
            &&& forall|node: u32|
                node < nodes@.len() ==> (#[trigger] shown(
                    published_edges(*final(net)),
                    node,
                )).len() >= own_edges(node as nat, initial_edges as nat)
            &&& shown_listings(published_edges(*final(net)), nodes@.len()) == 2 * drawn_edges(
                nodes@.len(),
                initial_edges as nat,
            )
        },
{
    net.preferential_attachment_BA(nodes, initial_edges)
}

/// `Network::get_edges`: the list that the network shows for `node`, each edge as
/// the pair of the ids of its two ends, or nothing where it shows none.
#[verifier::external_body]
fn incident_edges(net: &Network<u32, String>, node: u32) -> (edges: Option<Vec<(u32, u32)>>)
    ensures
        edges is Some <==> published_edges(*net).dom().contains(node),
        edges matches Some(pairs) ==> pairs@ == published_edges(*net)[node],
{
    net.get_edges(node).map(|es| es.iter().map(|e| (e.u, e.v)).collect())
}

/// Bringing more edges than there are nodes brings as many as bringing one for
/// every node.
pub proof fn lemma_clamped_edges(node_count: nat, initial_edges: nat, upto: nat)
    requires
        upto <= node_count,
        initial_edges >= node_count,
    ensures
        drawn_edges(upto, initial_edges) == drawn_edges(upto, node_count),
    decreases upto,
{
    if upto > 2 {
        lemma_clamped_edges(node_count, initial_edges, (upto - 1) as nat);
    }
}

/// Where new nodes bring no edge, the only edge is the one between the first two
/// nodes.
pub proof fn lemma_single_edge(node_count: nat)
    requires
        node_count >= 2,
    ensures
        drawn_edges(node_count, 0) == 1,
    decreases node_count,
{
    if node_count > 2 {
        lemma_single_edge((node_count - 1) as nat);
    }
}

/// A network of `node_count >= 2` nodes whose new nodes bring an edge each has at
/// least `node_count - 1` edges.
pub proof fn lemma_enough_edges(node_count: nat, initial_edges: nat)
    requires
        node_count >= 2,
        initial_edges >= 1,
    ensures
        drawn_edges(node_count, initial_edges) >= node_count - 1,
    decreases node_count,
{
    if node_count > 2 {
        lemma_enough_edges((node_count - 1) as nat, initial_edges);
    }
}

/// Lists that are as long as what is shown hold as many listings.
proof fn lemma_listings_match(
    adjacency: Seq<Seq<Edge>>,
    edges: Map<u32, Seq<(u32, u32)>>,
    upto: nat,
)
    requires
        upto <= adjacency.len(),
        upto <= u32::MAX,
        forall|i: int|
            0 <= i < upto ==> (#[trigger] adjacency[i]).len() == shown(edges, i as u32).len(),
    ensures
        listings(adjacency, upto as int) == shown_listings(edges, upto),
    decreases upto,
{
    if upto > 0 {
        lemma_listings_match(adjacency, edges, (upto - 1) as nat);
    }
}

/// What every generated network of `node_count` nodes looks like, whatever was
/// drawn: its nodes are susceptible, every node lists at least the edges it
/// brought, no edge joins a node to itself, and the number of edges is
/// `drawn_edges`.
pub open spec fn generated(t: TopologyView, node_count: nat, initial_edges: nat) -> bool {
    &&& t.wf()
    &&& t.nodes.len() == node_count
    &&& forall|i: int|
        0 <= i < node_count ==> (#[trigger] t.nodes[i]).status == NodeStatus::Susceptible
    &&& forall|i: int, k: int|
        0 <= i < node_count && 0 <= k < t.adjacency[i].len() ==> (#[trigger] t.adjacency[i][k]).v
            != i
    &&& node_count >= 2 ==> forall|i: int|
        0 <= i < node_count ==> (#[trigger] t.adjacency[i]).len() >= own_edges(
            i as nat,
            initial_edges,
        )
    &&& listings(t.adjacency, node_count as int) == 2 * drawn_edges(node_count, initial_edges)
    &&& t.has_isolated_node() == leaves_isolated(node_count, initial_edges)
}

/// Generates an undirected network over `node_count` nodes by preferential
/// attachment: the first two nodes are joined, and each later node is joined to
/// `initial_edges_per_node` of the nodes before it, or to all of them where they
/// are fewer. Which of them is left to chance. More nodes than
/// `GENERATOR_NODE_LIMIT` are refused.
pub fn generate(node_count: u32, initial_edges_per_node: usize) -> (r: Result<
    Topology,
    ExplorationError,
>)
    ensures
        r is Ok <==> node_count <= GENERATOR_NODE_LIMIT,
        r matches Ok(t) ==> t.wf() && generated(
            t@,
            node_count as nat,
            initial_edges_per_node as nat,
        ),
        r matches Err(e) ==> e == ExplorationError::TopologyGenerationFailure,
{
    if node_count > GENERATOR_NODE_LIMIT {
        return Err(ExplorationError::TopologyGenerationFailure);
    }
    let mut net = empty_network();
    let mut ids: Vec<u32> = Vec::new();
    let mut id: u32 = 0;
    while id < node_count
        invariant
            id <= node_count,
            ids@ == Seq::new(id as nat, |k: int| k as u32),
            staged_nodes(net) == ids@,
            published_edges(net) == nothing_shown(),
        decreases node_count - id,
    {
        assert(!ids@.contains(id));
        stage_node(&mut net, id);
        ids.push(id);
        id += 1;
        assert(ids@ =~= Seq::new(id as nat, |k: int| k as u32));
    }
    let brought: usize = if initial_edges_per_node > node_count as usize {
        node_count as usize
    } else {
        initial_edges_per_node
    };
    attach_preferentially(&mut net, &ids, brought);
    let ghost edges = published_edges(net);
    let mut raw: Vec<Option<Vec<(u32, u32)>>> = Vec::new();
    let mut asked: u32 = 0;
    while asked < node_count
        invariant
            asked <= node_count,
            raw@.len() == asked,
            edges == published_edges(net),
            forall|a: int|
                0 <= a < asked ==> #[trigger] listed(raw@, a) == shown(edges, a as u32),
        decreases node_count - asked,
    {
        let answer = incident_edges(&net, asked);
        let ghost before = raw@;
        raw.push(answer);
        proof {
            assert forall|a: int| 0 <= a <= asked implies #[trigger] listed(raw@, a) == shown(
                edges,
                a as u32,
            ) by {
                if a < asked {
                    assert(raw@[a] == before[a]);
                    assert(listed(before, a) == shown(edges, a as u32));
                }
            }
        }
        asked += 1;
    }
    let assembled = Topology::assemble(node_count, &raw);
    proof {
        let n = node_count as nat;
        let m = initial_edges_per_node as nat;
        assert(answers_fit(node_count, raw@)) by {
            assert forall|i: int, k: int|
                0 <= i < raw@.len() && 0 <= k < listed(raw@, i).len() implies {
                &&& (#[trigger] listed(raw@, i)[k]).0 == i
                &&& listed(raw@, i)[k].1 < node_count
            } by {
                assert(listed(raw@, i) == shown(edges, i as u32));
                assert(shown(edges, i as u32)[k].0 == i as u32);
            }
        }
        let t = assembled->Ok_0@;
        assert forall|i: int| 0 <= i < n implies (#[trigger] t.adjacency[i]).len() == shown(
            edges,
            i as u32,
        ).len() by {
            assert(listed(raw@, i) == shown(edges, i as u32));
        }
        assert forall|i: int, k: int|
            0 <= i < n && 0 <= k < t.adjacency[i].len() implies (#[trigger] t.adjacency[i][k]).v
            != i by {
            assert(listed(raw@, i) == shown(edges, i as u32));
            assert(shown(edges, i as u32)[k].1 != i as u32);
        }
        lemma_listings_match(t.adjacency, edges, n);
        if n >= 2 {
            if m > n {
                lemma_clamped_edges(n, m, n);
            }
            assert forall|i: int| 0 <= i < n implies (#[trigger] t.adjacency[i]).len()
                >= own_edges(i as nat, m) by {
                assert(shown(edges, i as u32).len() >= own_edges(i as nat, brought as nat));
            }
            if m == 0 {
                lemma_single_edge(n);
                if n >= 3 {
                    lemma_listings_grow(t.adjacency, 3, n as int);
                    reveal_with_fuel(listings, 4);
                    assert(t.adjacency[0].len() >= 1);
                    assert(t.adjacency[1].len() >= 1);
                    assert(t.is_isolated(2));
                } else {
                    assert(t.adjacency[0].len() >= 1);
                    assert(t.adjacency[1].len() >= 1);
                }
            }
        } else {
            assert(shown_listings(edges, n) == 0) by {
                reveal_with_fuel(shown_listings, 2);
            }
            if n == 1 {
                assert(t.is_isolated(0));
            }
        }
    }
    match assembled {
        Ok(topology) => Ok(topology),
        Err(_) => Err(ExplorationError::TopologyGenerationFailure),
    }
}

} // verus!
