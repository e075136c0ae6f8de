//! The IGP topology and the forwarding tables derived from its shortest paths.
//!
//! The topology is kept in a `petgraph` stable graph and its shortest paths come from
//! `petgraph`'s shortest path faster algorithm; what this module believes of both is
//! stated on the items marked as trusted below. Everything else is verified against
//! those statements.

use vstd::prelude::*;
use std::collections::HashMap;
use petgraph::algo::NegativeCycle;
use petgraph::stable_graph::{NodeIndex, StableGraph};
use petgraph::Directed;
use crate::types::{DeviceError, IgpCost, LinkWeight, RouterId};

verus! {

/// A directed link: source, target and weight.
pub type Link = (RouterId, RouterId, LinkWeight);

/// The cost that marks a router as unreachable in a list of shortest distances.
pub const UNREACHABLE: IgpCost = 0xffff_ffff_ffff_ffff;

// ---------------------------------------------------------------------------------
// Trusted: the graph of petgraph
// ---------------------------------------------------------------------------------

/// Trusted: `petgraph::stable_graph::StableGraph`, carried as an opaque value.
#[verifier::external_type_specification]
#[verifier::external_body]
#[verifier::reject_recursive_types(N)]
#[verifier::reject_recursive_types(E)]
#[verifier::reject_recursive_types(Ty)]
#[verifier::reject_recursive_types(Ix)]
pub struct ExStableGraph<N, E, Ty, Ix>(StableGraph<N, E, Ty, Ix>);

/// Trusted: `petgraph::Directed`, the marker of directed graphs.
#[verifier::external_type_specification]
#[verifier::external_body]
pub struct ExDirected(Directed);

/// Trusted: `petgraph::algo::NegativeCycle`, the error of the shortest-path algorithms.
#[verifier::external_type_specification]
#[verifier::external_body]
pub struct ExNegativeCycle(NegativeCycle);

/// Trusted name: the number of nodes of a graph.
pub uninterp spec fn graph_nodes(g: StableGraph<(), LinkWeight, Directed, u32>) -> nat;

/// Trusted name: the edges of a graph, in the order of their indices.
pub uninterp spec fn graph_links(g: StableGraph<(), LinkWeight, Directed, u32>) -> Seq<Link>;

/// Trusted name: the graph has no vacant node or edge index, as is the case while
/// nothing is removed from it: the nodes are numbered from 0 without a gap and the
/// edges stand in the order of their addition.
pub uninterp spec fn graph_is_dense(g: StableGraph<(), LinkWeight, Directed, u32>) -> bool;

/// Trusted name: what `petgraph::algo::spfa` returns for a graph with the given number
/// of nodes and the given edges, from the given source: the distances and the
/// predecessors by node.
pub uninterp spec fn spfa_paths(nodes: nat, links: Seq<Link>, source: RouterId) -> (
    Seq<IgpCost>,
    Seq<Option<RouterId>>,
);

/// The highest index of a link from `a` to `b`, if there is one.
pub open spec fn last_link(links: Seq<Link>, a: RouterId, b: RouterId) -> Option<int>
    decreases links.len(),
{
    if links.len() == 0 {
        None
    } else if links.last().0 == a && links.last().1 == b {
        Some(links.len() - 1)
    } else {
        last_link(links.drop_last(), a, b)
    }
}

/// The links after the weight from `a` to `b` is set: the latest link from `a` to `b`
/// gets the weight, or a new link is added where there is none.
pub open spec fn with_link_weight(links: Seq<Link>, a: RouterId, b: RouterId, w: LinkWeight) -> Seq<
    Link,
> {
    match last_link(links, a, b) {
        Some(i) => links.update(i, (a, b, w)),
        None => links.push((a, b, w)),
    }
}

/// `walk` leads from `from` to `to` over links of `links`, each starting where the one
/// before it ends.
pub open spec fn is_walk(links: Seq<Link>, walk: Seq<Link>, from: RouterId, to: RouterId) -> bool
    decreases walk.len(),
{
    if walk.len() == 0 {
        from == to
    } else {
        &&& links.contains(walk.last())
        &&& walk.last().1 == to
        &&& is_walk(links, walk.drop_last(), from, walk.last().0)
    }
}

/// The total weight of a walk.
pub open spec fn walk_cost(walk: Seq<Link>) -> int
    decreases walk.len(),
{
    if walk.len() == 0 {
        0
    } else {
        walk_cost(walk.drop_last()) + walk.last().2
    }
}

/// `distances` are the shortest distances from `source`: a router is marked unreachable
/// exactly when no walk leads to it, and the distance of any other is the cost of some
/// walk to it and at most the cost of every walk to it.
pub open spec fn shortest_distances(links: Seq<Link>, source: RouterId, distances: Seq<IgpCost>) -> bool {
    forall|target: RouterId| #![trigger distances[target as int]]
        (target as int) < distances.len() ==> {
            &&& distances[target as int] != UNREACHABLE ==> exists|walk: Seq<Link>|
                #[trigger] is_walk(links, walk, source, target) && walk_cost(walk)
                    == distances[target as int]
            &&& forall|walk: Seq<Link>| #[trigger]
                is_walk(links, walk, source, target) ==> distances[target as int] <= walk_cost(
                    walk,
                ) && distances[target as int] != UNREACHABLE
        }
}

/// Every predecessor is one link before its router on a shortest path: both are
/// reachable, and some link from the predecessor to the router makes up the difference
/// of their distances.
pub open spec fn tight_predecessors(
    links: Seq<Link>,
    distances: Seq<IgpCost>,
    predecessors: Seq<Option<RouterId>>,
) -> bool {
    forall|target: RouterId| #![trigger predecessors[target as int]]
        (target as int) < predecessors.len() ==> (predecessors[target as int] matches Some(p) ==> {
            &&& (p as int) < distances.len()
            &&& (target as int) < distances.len()
            &&& distances[p as int] != UNREACHABLE
            &&& distances[target as int] != UNREACHABLE
            &&& exists|w: LinkWeight| #[trigger]
                links.contains((p, target, w)) && distances[p as int] + w
                    == distances[target as int]
        })
}

/// The distances and predecessors describe shortest paths from `source` in a topology
/// of `nodes` routers with the given links.
pub open spec fn sound_paths(
    nodes: nat,
    links: Seq<Link>,
    source: RouterId,
    distances: Seq<IgpCost>,
    predecessors: Seq<Option<RouterId>>,
) -> bool {
    &&& paths_shape(nodes, distances, predecessors)
    &&& shortest_distances(links, source, distances)
    &&& tight_predecessors(links, distances, predecessors)
    &&& predecessors_lead_back(source, distances, predecessors)
}

/// The predecessors of every reachable router lead back to the source: the walk from
/// predecessor to predecessor arrives at the source before it has made as many steps
/// as there are routers.
pub open spec fn predecessors_lead_back(
    source: RouterId,
    distances: Seq<IgpCost>,
    predecessors: Seq<Option<RouterId>>,
) -> bool {
    forall|target: RouterId| #![trigger distances[target as int]]
        (target as int) < distances.len() && distances[target as int] != UNREACHABLE ==> first_hop(
            predecessors,
            source,
            target,
            predecessors.len(),
        ) is Some
}

/// One distance and one predecessor per node; every predecessor is a node.
pub open spec fn paths_shape(
    nodes: nat,
    distances: Seq<IgpCost>,
    predecessors: Seq<Option<RouterId>>,
) -> bool {
    &&& distances.len() == nodes
    &&& predecessors.len() == nodes
    &&& forall|i: int|
        0 <= i < nodes ==> ((#[trigger] predecessors[i]) matches Some(p) ==> (p as int) < nodes)
}

/// Trusted: `StableGraph::new` makes a graph without nodes and edges.
#[verifier::external_body]
fn graph_new() -> (g: StableGraph<(), LinkWeight, Directed, u32>)
    ensures
        graph_nodes(g) == 0,
        graph_links(g) == Seq::<Link>::empty(),
        graph_is_dense(g),
{
    StableGraph::new()
}

/// Trusted: `StableGraph::add_node` on a graph without gaps adds one node, numbered
/// with the count of the nodes before it, and leaves the edges alone. It panics only
/// when the indices are used up.
#[verifier::external_body]
fn graph_add_node(g: &mut StableGraph<(), LinkWeight, Directed, u32>) -> (id: RouterId)
    requires
        graph_is_dense(*old(g)),
        graph_nodes(*old(g)) < u32::MAX,
    ensures
        id == graph_nodes(*old(g)),
        graph_nodes(*final(g)) == graph_nodes(*old(g)) + 1,
        graph_links(*final(g)) == graph_links(*old(g)),
        graph_is_dense(*final(g)),
{
    g.add_node(()).index() as u32
}

/// Trusted: `StableGraph::add_edge` on a graph without gaps appends the edge after all
/// others, also where an edge between the two nodes exists. It panics only on a
/// missing node or when the indices are used up.
#[verifier::external_body]
fn graph_add_edge(
    g: &mut StableGraph<(), LinkWeight, Directed, u32>,
    a: RouterId,
    b: RouterId,
    weight: LinkWeight,
)
    requires
        graph_is_dense(*old(g)),
        a < graph_nodes(*old(g)),
        b < graph_nodes(*old(g)),
        graph_links(*old(g)).len() < u32::MAX,
    ensures
        graph_nodes(*final(g)) == graph_nodes(*old(g)),
        graph_links(*final(g)) == graph_links(*old(g)).push((a, b, weight)),
        graph_is_dense(*final(g)),
{
    g.add_edge(NodeIndex::new(a as usize), NodeIndex::new(b as usize), weight);
}

/// Trusted: `StableGraph::update_edge` on a graph without gaps sets the weight of the
/// edge from `a` to `b` that was added last, or adds the edge where there is none, and
/// returns the index of that edge. It panics only on a missing node or when the
/// indices are used up.
#[verifier::external_body]
fn graph_update_edge(
    g: &mut StableGraph<(), LinkWeight, Directed, u32>,
    a: RouterId,
    b: RouterId,
    weight: LinkWeight,
) -> (index: usize)
    requires
        graph_is_dense(*old(g)),
        a < graph_nodes(*old(g)),
        b < graph_nodes(*old(g)),
        graph_links(*old(g)).len() < u32::MAX,
    ensures
        graph_nodes(*final(g)) == graph_nodes(*old(g)),
        graph_links(*final(g)) == with_link_weight(graph_links(*old(g)), a, b, weight),
        index == match last_link(graph_links(*old(g)), a, b) {
            Some(i) => i,
            None => graph_links(*old(g)).len() as int,
        },
        graph_is_dense(*final(g)),
{
    g.update_edge(NodeIndex::new(a as usize), NodeIndex::new(b as usize), weight).index()
}

/// Trusted: `petgraph::algo::spfa` on a graph without gaps, with the weight of each
/// edge widened to a path cost.
///
/// Its result depends on the nodes, the edges in their order and the source alone.
/// It reports an error only for a negative cycle, which weights that are not negative
/// cannot form, so it succeeds. It returns one distance and one predecessor per node;
/// the distances are the shortest distances from the source, with the largest cost
/// standing for "unreachable"; each predecessor is the node before its node on a
/// shortest path; and the predecessors of a reachable node lead back to the source.
/// It panics only on a source that is no node.
#[verifier::external_body]
fn graph_shortest_paths(g: &StableGraph<(), LinkWeight, Directed, u32>, source: RouterId) -> (r:
    Result<(Vec<IgpCost>, Vec<Option<RouterId>>), NegativeCycle>)
    requires
        graph_is_dense(*g),
        source < graph_nodes(*g),
    ensures
        r is Ok,
        r matches Ok(paths) ==> spfa_paths(graph_nodes(*g), graph_links(*g), source) == (
            paths.0@,
            paths.1@,
        ),
        r matches Ok(paths) ==> sound_paths(
            graph_nodes(*g),
            graph_links(*g),
            source,
            paths.0@,
            paths.1@,
        ),
{
    match petgraph::algo::spfa(g, NodeIndex::new(source as usize), |e| *e.weight() as u64) {
        Ok(paths) => Ok(
            (
                paths.distances,
                paths.predecessors.into_iter().map(|p| p.map(|n| n.index() as u32)).collect(),
            ),
        ),
        Err(e) => Err(e),
    }
}

// ---------------------------------------------------------------------------------
// The topology
// ---------------------------------------------------------------------------------

/// IGP network graph: routers numbered from 0 and weighted directed links between them.
#[derive(Debug)]
pub struct IgpNetwork {
    graph: StableGraph<(), LinkWeight, Directed, u32>,
    node_count: usize,
    edge_count: usize,
}

impl IgpNetwork {
    /// The number of routers.
    pub closed spec fn nodes(&self) -> nat {
        graph_nodes(self.graph)
    }

    /// The links in the order of their addition.
    pub closed spec fn links(&self) -> Seq<Link> {
        graph_links(self.graph)
    }

    /// The invariant of the topology.
    pub closed spec fn wf(&self) -> bool {
        &&& graph_is_dense(self.graph)
        &&& self.node_count == graph_nodes(self.graph)
        &&& self.edge_count == graph_links(self.graph).len()
        &&& self.node_count <= u32::MAX
        &&& self.edge_count <= u32::MAX
    }

    /// The result of the shortest-path computation from `source`.
    pub open spec fn paths(&self, source: RouterId) -> (Seq<IgpCost>, Seq<Option<RouterId>>) {
        spfa_paths(self.nodes(), self.links(), source)
    }

    /// A topology without routers and links.
    pub fn new() -> (g: IgpNetwork)
        ensures
            g.wf(),
            g.nodes() == 0,
            g.links() == Seq::<Link>::empty(),
    {
        IgpNetwork { graph: graph_new(), node_count: 0, edge_count: 0 }
    }

    /// The number of routers.
    pub fn node_count(&self) -> (n: usize)
        requires
            self.wf(),
        ensures
            n == self.nodes(),
    {
        self.node_count
    }

    /// The number of links.
    pub fn edge_count(&self) -> (n: usize)
        requires
            self.wf(),
        ensures
            n == self.links().len(),
    {
        self.edge_count
    }

    /// Adds a router and returns its id: the number of routers added before it.
    pub fn add_node(&mut self) -> (id: RouterId)
        requires
            old(self).wf(),
            old(self).nodes() < u32::MAX,
        ensures
            final(self).wf(),
            id == old(self).nodes(),
            final(self).nodes() == old(self).nodes() + 1,
            final(self).links() == old(self).links(),
    {
        let id = graph_add_node(&mut self.graph);
        self.node_count = self.node_count + 1;
        id
    }

    /// Adds a link from `a` to `b`, beside any link that exists between the two. Nothing
    /// is added, and `false` returned, where `a` or `b` is no router of the topology or
    /// no further link can be numbered.
    pub fn add_edge(&mut self, a: RouterId, b: RouterId, weight: LinkWeight) -> (added: bool)
        requires
            old(self).wf(),
        ensures
            final(self).wf(),
            final(self).nodes() == old(self).nodes(),
            added == (a < old(self).nodes() && b < old(self).nodes() && old(self).links().len()
                < u32::MAX),
            final(self).links() == (if added {
                old(self).links().push((a, b, weight))
            } else {
                old(self).links()
            }),
    {
        if (a as usize) < self.node_count && (b as usize) < self.node_count && self.edge_count
            < 0xffff_ffff {
            graph_add_edge(&mut self.graph, a, b, weight);
            self.edge_count = self.edge_count + 1;
            true
        } else {
            false
        }
    }

    /// Sets the weight of the latest link from `a` to `b`, or adds the link where there
    /// is none. Nothing is changed, and `false` returned, where `a` or `b` is no router
    /// of the topology or no further link can be numbered.
    pub fn update_edge(&mut self, a: RouterId, b: RouterId, weight: LinkWeight) -> (done: bool)
        requires
            old(self).wf(),
        ensures
            final(self).wf(),
            final(self).nodes() == old(self).nodes(),
            done == (a < old(self).nodes() && b < old(self).nodes() && old(self).links().len()
                < u32::MAX),
            final(self).links() == (if done {
                with_link_weight(old(self).links(), a, b, weight)
            } else {
                old(self).links()
            }),
    {
        if (a as usize) < self.node_count && (b as usize) < self.node_count && self.edge_count
            < 0xffff_ffff {
            let index = graph_update_edge(&mut self.graph, a, b, weight);
            proof {
                lemma_last_link(old(self).links(), a, b);
            }
            if index == self.edge_count {
                self.edge_count = self.edge_count + 1;
            }
            true
        } else {
            false
        }
    }

    /// The shortest distances from `source` and the predecessor of every router on its
    /// shortest path. There is a result exactly when `source` is a router of the
    /// topology.
    pub fn shortest_paths(&self, source: RouterId) -> (r: Option<
        (Vec<IgpCost>, Vec<Option<RouterId>>),
    >)
        requires
            self.wf(),
        ensures
            r is Some <==> source < self.nodes(),
            r matches Some(paths) ==> {
                &&& self.nodes() <= u32::MAX
                &&& self.paths(source) == (paths.0@, paths.1@)
                &&& sound_paths(self.nodes(), self.links(), source, paths.0@, paths.1@)
            },
    {
        if (source as usize) >= self.node_count {
            return None;
        }
        match graph_shortest_paths(&self.graph, source) {
            Ok(paths) => Some(paths),
            Err(_) => None,
        }
    }
}

// ---------------------------------------------------------------------------------
// Forwarding tables
// ---------------------------------------------------------------------------------

/// The first hop from `source` towards `target`: `target` itself where it is the
/// source or its predecessor is, else the first hop towards its predecessor. At most
/// `fuel` predecessors are followed.
pub open spec fn first_hop(
    predecessors: Seq<Option<RouterId>>,
    source: RouterId,
    target: RouterId,
    fuel: nat,
) -> Option<RouterId>
    decreases fuel,
{
    if target == source {
        Some(target)
    } else if target >= predecessors.len() {
        None
    } else {
        match predecessors[target as int] {
            None => None,
            Some(p) => if p == source {
                Some(target)
            } else if fuel == 0 {
                None
            } else {
                first_hop(predecessors, source, p, (fuel - 1) as nat)
            },
        }
    }
}

/// The forwarding entry for `target`: unreachable, or the first hop and the distance.
/// There is none where the predecessors do not lead from `target` back to `source`.
pub open spec fn table_entry(
    distances: Seq<IgpCost>,
    predecessors: Seq<Option<RouterId>>,
    source: RouterId,
    target: RouterId,
) -> Option<Option<(RouterId, IgpCost)>> {
    if distances[target as int] == UNREACHABLE {
        Some(None)
    } else {
        match first_hop(predecessors, source, target, predecessors.len()) {
            Some(hop) => Some(Some((hop, distances[target as int]))),
            None => None,
        }
    }
}

/// A forwarding table can be derived: there is a distance and a predecessor for each
/// of at most 2^32 routers, and an entry for every router.
pub open spec fn derivable(
    distances: Seq<IgpCost>,
    predecessors: Seq<Option<RouterId>>,
    source: RouterId,
) -> bool {
    &&& distances.len() == predecessors.len()
    &&& distances.len() <= 0x1_0000_0000
    &&& forall|target: RouterId|
        (target as int) < distances.len() ==> (#[trigger] table_entry(
            distances,
            predecessors,
            source,
            target,
        )) is Some
}

/// The forwarding table of `source`: one entry for every router.
pub open spec fn table_from_paths(
    distances: Seq<IgpCost>,
    predecessors: Seq<Option<RouterId>>,
    source: RouterId,
) -> Map<RouterId, Option<(RouterId, IgpCost)>> {
    Map::new(
        |target: RouterId| (target as int) < distances.len(),
        |target: RouterId| table_entry(distances, predecessors, source, target)->Some_0,
    )
}

/// The forwarding table that the router `source` derives from a topology of `nodes`
/// routers with the given links: the table of the shortest paths computed from
/// `source`. There is none where `source` is no router of the topology, or where what
/// was computed does not describe shortest paths.
pub open spec fn table_for(nodes: nat, links: Seq<Link>, source: RouterId) -> Option<
    Map<RouterId, Option<(RouterId, IgpCost)>>,
> {
    let paths = spfa_paths(nodes, links, source);
    if source < nodes && nodes <= u32::MAX && sound_paths(nodes, links, source, paths.0, paths.1) {
        Some(table_from_paths(paths.0, paths.1, source))
    } else {
        None
    }
}

/// Shortest paths give a table: every router is unreachable or has a first hop.
pub proof fn lemma_sound_paths_derivable(
    nodes: nat,
    links: Seq<Link>,
    source: RouterId,
    distances: Seq<IgpCost>,
    predecessors: Seq<Option<RouterId>>,
)
    requires
        nodes <= u32::MAX,
        sound_paths(nodes, links, source, distances, predecessors),
    ensures
        derivable(distances, predecessors, source),
{
    assert forall|target: RouterId| (target as int) < distances.len() implies (
    #[trigger] table_entry(distances, predecessors, source, target)) is Some by {
        let d = distances[target as int];
    }
}

/// The forwarding table that a router derives from a topology, if it can derive one.
pub open spec fn igp_table(graph: &IgpNetwork, source: RouterId) -> Option<
    Map<RouterId, Option<(RouterId, IgpCost)>>,
> {
    table_for(graph.nodes(), graph.links(), source)
}

/// Walks the predecessors from `target` back towards `source`.
fn walk_to_first_hop(predecessors: &Vec<Option<RouterId>>, source: RouterId, target: RouterId) -> (r:
    Option<RouterId>)
    ensures
        r == first_hop(predecessors@, source, target, predecessors@.len()),
{
    let mut current = target;
    let mut fuel: usize = predecessors.len();
    loop
        invariant
            fuel <= predecessors.len(),
            first_hop(predecessors@, source, target, predecessors@.len()) == first_hop(
                predecessors@,
                source,
                current,
                fuel as nat,
            ),
        decreases fuel,
    {
        if current == source {
            return Some(current);
        }
        if current as usize >= predecessors.len() {
            return None;
        }
        match predecessors[current as usize] {
            None => {
                return None;
            },
            Some(p) => {
                if p == source {
                    return Some(current);
                }
                if fuel == 0 {
                    return None;
                }
                current = p;
                fuel = fuel - 1;
            },
        }
    }
}

/// Derives the forwarding table of `source` from the shortest distances and the
/// predecessors on the shortest paths from it.
///
/// A router at the unreachable distance gets the entry `None`; any other gets its
/// distance and the first hop on its path, found by walking the predecessors back to
/// `source`. Where that walk fails for some router, or the two lists do not fit each
/// other, there is no table.
pub fn forwarding_table(
    source: RouterId,
    distances: &Vec<IgpCost>,
    predecessors: &Vec<Option<RouterId>>,
) -> (r: Result<HashMap<RouterId, Option<(RouterId, IgpCost)>>, DeviceError>)
    ensures
        match r {
            Ok(table) => derivable(distances@, predecessors@, source) && table@
                == table_from_paths(distances@, predecessors@, source),
            Err(e) => !derivable(distances@, predecessors@, source) && e
                == DeviceError::BadIgpTopology(source),
        },
{
    if distances.len() != predecessors.len() || distances.len() as u64 > 0x1_0000_0000 {
        return Err(DeviceError::BadIgpTopology(source));
    }
    let mut table: HashMap<RouterId, Option<(RouterId, IgpCost)>> = HashMap::new();
    let mut i: usize = 0;
    while i < distances.len()
        invariant
            i <= distances.len(),
            distances.len() == predecessors.len(),
            distances.len() <= 0x1_0000_0000,
            forall|target: RouterId| #[trigger]
                table@.contains_key(target) <==> (target as int) < i,
            forall|target: RouterId|
                (target as int) < i ==> table_entry(distances@, predecessors@, source, target)
                    == Some(#[trigger] table@[target]),
        decreases distances.len() - i,
    {
        let target = i as u32;
        let entry: Option<(RouterId, IgpCost)> = if distances[i] == UNREACHABLE {
            None
        } else {
            match walk_to_first_hop(predecessors, source, target) {
                Some(hop) => Some((hop, distances[i])),
                None => {
                    assert(table_entry(distances@, predecessors@, source, target) is None);
                    return Err(DeviceError::BadIgpTopology(source));
                },
            }
        };
        table.insert(target, entry);
        i = i + 1;
    }
    assert forall|target: RouterId| (target as int) < distances@.len() implies (
    #[trigger] table_entry(distances@, predecessors@, source, target)) is Some by {
        assert(table_entry(distances@, predecessors@, source, target) == Some(table@[target]));
    }
    assert(table@ =~= table_from_paths(distances@, predecessors@, source));
    Ok(table)
}

/// Setting a weight adds at most one link.
pub proof fn lemma_with_link_weight_len(links: Seq<Link>, a: RouterId, b: RouterId, w: LinkWeight)
    ensures
        links.len() <= with_link_weight(links, a, b, w).len() <= links.len() + 1,
{
    lemma_last_link(links, a, b);
}

/// The latest link between two routers is a link.
pub proof fn lemma_last_link(links: Seq<Link>, a: RouterId, b: RouterId)
    ensures
        match last_link(links, a, b) {
            Some(i) => 0 <= i < links.len() && links[i].0 == a && links[i].1 == b,
            None => forall|i: int| 0 <= i < links.len() ==> !((#[trigger] links[i]).0 == a
                && links[i].1 == b),
        },
    decreases links.len(),
{
    if links.len() > 0 {
        if !(links.last().0 == a && links.last().1 == b) {
            lemma_last_link(links.drop_last(), a, b);
            match last_link(links, a, b) {
                Some(i) => {
                    assert(links.drop_last()[i] == links[i]);
                },
                None => {
                    assert forall|i: int| 0 <= i < links.len() implies !((#[trigger] links[i]).0
                        == a && links[i].1 == b) by {
                        if i < links.len() - 1 {
                            assert(links.drop_last()[i] == links[i]);
                        }
                    }
                },
            }
        }
    }
}

} // verus!
