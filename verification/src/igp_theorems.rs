//! What holds of every forwarding table derived from a topology.

use vstd::prelude::*;
use crate::igp::{
    first_hop, is_walk, shortest_distances, sound_paths, spfa_paths, table_entry, table_for,
    tight_predecessors, walk_cost, Link, UNREACHABLE,
};
use crate::types::{IgpCost, LinkWeight, RouterId};

verus! {

/// A walk stays a walk when the links are listed in another order, or more than once.
pub proof fn lemma_walk_same_links(
    links: Seq<Link>,
    other: Seq<Link>,
    walk: Seq<Link>,
    from: RouterId,
    to: RouterId,
)
    requires
        links.to_set() == other.to_set(),
    ensures
        is_walk(links, walk, from, to) == is_walk(other, walk, from, to),
    decreases walk.len(),
{
    if walk.len() > 0 {
        lemma_walk_same_links(links, other, walk.drop_last(), from, walk.last().0);
        assert(links.contains(walk.last()) == links.to_set().contains(walk.last()));
        assert(other.contains(walk.last()) == other.to_set().contains(walk.last()));
    }
}

/// A link in front of a walk that starts where it ends makes a longer walk, and adds
/// its weight to the cost.
pub proof fn lemma_walk_prepend(links: Seq<Link>, first: Link, walk: Seq<Link>, to: RouterId)
    requires
        links.contains(first),
        is_walk(links, walk, first.1, to),
    ensures
        is_walk(links, seq![first] + walk, first.0, to),
        walk_cost(seq![first] + walk) == first.2 + walk_cost(walk),
    decreases walk.len(),
{
    let whole = seq![first] + walk;
    if walk.len() == 0 {
        assert(whole =~= seq![first]);
        assert(whole.last() == first);
        assert(whole.drop_last() =~= Seq::<Link>::empty());
        assert(is_walk(links, whole.drop_last(), first.0, first.0));
        assert(walk_cost(whole.drop_last()) == 0);
    } else {
        lemma_walk_prepend(links, first, walk.drop_last(), walk.last().0);
        assert(whole.last() == walk.last());
        assert(whole.drop_last() =~= seq![first] + walk.drop_last());
    }
}

/// The source is at distance 0 from itself.
pub proof fn lemma_source_distance(links: Seq<Link>, source: RouterId, distances: Seq<IgpCost>)
    requires
        shortest_distances(links, source, distances),
        (source as int) < distances.len(),
    ensures
        distances[source as int] == 0,
{
    let stay = Seq::<Link>::empty();
    assert(is_walk(links, stay, source, source));
    assert(walk_cost(stay) == 0);
}

/// The walk of the predecessors: from the first hop towards `target` there is a walk
/// to `target` whose cost is the difference of their distances, and the predecessor
/// of the first hop is the source.
proof fn lemma_first_hop_walk(
    links: Seq<Link>,
    distances: Seq<IgpCost>,
    predecessors: Seq<Option<RouterId>>,
    source: RouterId,
    target: RouterId,
    fuel: nat,
)
    requires
        distances.len() == predecessors.len(),
        tight_predecessors(links, distances, predecessors),
        target != source,
        first_hop(predecessors, source, target, fuel) is Some,
    ensures
        ({
            let hop = first_hop(predecessors, source, target, fuel)->Some_0;
            &&& hop != source
            &&& (hop as int) < distances.len()
            &&& predecessors[hop as int] == Some(source)
            &&& exists|rest: Seq<Link>| #[trigger]
                is_walk(links, rest, hop, target) && distances[hop as int] + walk_cost(rest)
                    == distances[target as int]
        }),
    decreases fuel,
{
    let p = predecessors[target as int]->Some_0;
    assert(predecessors[target as int] == Some(p));
    if p == source {
        let rest = Seq::<Link>::empty();
        assert(is_walk(links, rest, target, target));
        assert(walk_cost(rest) == 0);
    } else {
        lemma_first_hop_walk(links, distances, predecessors, source, p, (fuel - 1) as nat);
        let hop = first_hop(predecessors, source, p, (fuel - 1) as nat)->Some_0;
        let before = choose|rest: Seq<Link>| #[trigger]
            is_walk(links, rest, hop, p) && distances[hop as int] + walk_cost(rest)
                == distances[p as int];
        let w = choose|w: LinkWeight| #[trigger]
            links.contains((p, target, w)) && distances[p as int] + w
                == distances[target as int];
        let rest = before.push((p, target, w));
        assert(rest.last() == (p, target, w));
        assert(rest.drop_last() =~= before);
        assert(is_walk(links, rest, hop, target));
        assert(walk_cost(rest) == walk_cost(before) + w);
    }
}

/// The costs of a forwarding table are the shortest distances: a router has the
/// entry `None` exactly when no walk leads to it from the source, and the cost of any
/// other entry is the cost of some walk to the router and at most the cost of every
/// walk to it. The source reaches itself at cost 0 with itself as next hop.
pub proof fn lemma_table_costs_are_shortest(
    nodes: nat,
    links: Seq<Link>,
    source: RouterId,
    target: RouterId,
)
    requires
        table_for(nodes, links, source) is Some,
        target < nodes,
    ensures
        ({
            let table = table_for(nodes, links, source)->Some_0;
            &&& table.contains_key(target)
            &&& table[source] == Some((source, 0u64))
            &&& table[target] is None <==> forall|walk: Seq<Link>|
                !is_walk(links, walk, source, target)
            &&& table[target] matches Some(entry) ==> {
                &&& exists|walk: Seq<Link>| #[trigger]
                    is_walk(links, walk, source, target) && walk_cost(walk) == entry.1
                &&& forall|walk: Seq<Link>| #[trigger]
                    is_walk(links, walk, source, target) ==> entry.1 <= walk_cost(walk)
            }
        }),
{
    let paths = spfa_paths(nodes, links, source);
    let table = table_for(nodes, links, source)->Some_0;
    lemma_source_distance(links, source, paths.0);
    crate::igp::lemma_sound_paths_derivable(nodes, links, source, paths.0, paths.1);
    assert(table_entry(paths.0, paths.1, source, target) is Some);
    assert(table_entry(paths.0, paths.1, source, source) is Some);
    let d = paths.0[target as int];
    if d != UNREACHABLE {
        let walk = choose|walk: Seq<Link>| #[trigger]
            is_walk(links, walk, source, target) && walk_cost(walk) == d;
        assert(is_walk(links, walk, source, target));
    }
}

/// The next hop of a forwarding entry is a neighbor of the source on a shortest path:
/// a link leads from the source to the next hop, a walk leads from the next hop on to
/// the target, both together cost what the entry says, and no walk from the next hop
/// to the target is cheaper than that one.
pub proof fn lemma_next_hop_is_on_shortest_path(
    nodes: nat,
    links: Seq<Link>,
    source: RouterId,
    target: RouterId,
)
    requires
        table_for(nodes, links, source) is Some,
        target < nodes,
        target != source,
        table_for(nodes, links, source)->Some_0[target] is Some,
    ensures
        ({
            let entry = table_for(nodes, links, source)->Some_0[target]->Some_0;
            exists|w: LinkWeight, rest: Seq<Link>|
                {
                    &&& #[trigger] links.contains((source, entry.0, w))
                    &&& #[trigger] is_walk(links, rest, entry.0, target)
                    &&& w + walk_cost(rest) == entry.1
                    &&& forall|other: Seq<Link>| #[trigger]
                        is_walk(links, other, entry.0, target) ==> walk_cost(rest) <= walk_cost(
                            other,
                        )
                }
        }),
{
    let paths = spfa_paths(nodes, links, source);
    let table = table_for(nodes, links, source)->Some_0;
    crate::igp::lemma_sound_paths_derivable(nodes, links, source, paths.0, paths.1);
    assert(table_entry(paths.0, paths.1, source, target) is Some);
    let entry = table[target]->Some_0;
    let hop = entry.0;
    lemma_first_hop_walk(links, paths.0, paths.1, source, target, paths.1.len());
    lemma_source_distance(links, source, paths.0);
    let rest = choose|rest: Seq<Link>| #[trigger]
        is_walk(links, rest, hop, target) && paths.0[hop as int] + walk_cost(rest)
            == paths.0[target as int];
    assert(paths.1[hop as int] == Some(source));
    let w = choose|w: LinkWeight| #[trigger]
        links.contains((source, hop, w)) && paths.0[source as int] + w == paths.0[hop as int];
    assert(links.contains((source, hop, w)));
    assert forall|other: Seq<Link>| #[trigger] is_walk(links, other, hop, target) implies walk_cost(
        rest,
    ) <= walk_cost(other) by {
        lemma_walk_prepend(links, (source, hop, w), other, target);
        let longer = seq![(source, hop, w)] + other;
        assert(is_walk(links, longer, source, target));
    }
}

/// A forwarding table of `source` describes shortest paths: it has an entry for every
/// router of the topology and for nothing else; the source reaches itself at cost 0;
/// a router has the entry `None` exactly when no walk leads to it; and any other
/// entry holds the lowest cost of a walk to the router, with a next hop that is linked
/// from the source and from which a cheapest walk to the router makes up the rest of
/// the cost.
pub open spec fn describes_shortest_paths(
    nodes: nat,
    links: Seq<Link>,
    source: RouterId,
    table: Map<RouterId, Option<(RouterId, IgpCost)>>,
) -> bool {
    &&& forall|target: RouterId| #[trigger] table.contains_key(target) <==> target < nodes
    &&& table.contains_key(source) && table[source] == Some((source, 0u64))
    &&& forall|target: RouterId| #![trigger table[target]]
        target < nodes ==> {
            &&& table[target] is None <==> forall|walk: Seq<Link>|
                !is_walk(links, walk, source, target)
            &&& table[target] matches Some(entry) ==> {
                &&& forall|walk: Seq<Link>| #[trigger]
                    is_walk(links, walk, source, target) ==> entry.1 <= walk_cost(walk)
                &&& target != source ==> exists|w: LinkWeight, rest: Seq<Link>|
                    {
                        &&& #[trigger] links.contains((source, entry.0, w))
                        &&& #[trigger] is_walk(links, rest, entry.0, target)
                        &&& w + walk_cost(rest) == entry.1
                        &&& forall|other: Seq<Link>| #[trigger]
                            is_walk(links, other, entry.0, target) ==> walk_cost(rest)
                                <= walk_cost(other)
                    }
            }
        }
}

/// Every forwarding table derived from a topology describes its shortest paths.
pub proof fn lemma_table_describes_shortest_paths(nodes: nat, links: Seq<Link>, source: RouterId)
    requires
        table_for(nodes, links, source) is Some,
    ensures
        describes_shortest_paths(nodes, links, source, table_for(nodes, links, source)->Some_0),
{
    let table = table_for(nodes, links, source)->Some_0;
    lemma_table_costs_are_shortest(nodes, links, source, source);
    assert forall|target: RouterId| #![trigger table[target]] target < nodes implies {
        &&& table[target] is None <==> forall|walk: Seq<Link>|
            !is_walk(links, walk, source, target)
        &&& table[target] matches Some(entry) ==> {
            &&& forall|walk: Seq<Link>| #[trigger]
                is_walk(links, walk, source, target) ==> entry.1 <= walk_cost(walk)
            &&& target != source ==> exists|w: LinkWeight, rest: Seq<Link>|
                {
                    &&& #[trigger] links.contains((source, entry.0, w))
                    &&& #[trigger] is_walk(links, rest, entry.0, target)
                    &&& w + walk_cost(rest) == entry.1
                    &&& forall|other: Seq<Link>| #[trigger]
                        is_walk(links, other, entry.0, target) ==> walk_cost(rest) <= walk_cost(
                            other,
                        )
                }
        }
    } by {
        lemma_table_costs_are_shortest(nodes, links, source, target);
        if table[target] is Some && target != source {
            lemma_next_hop_is_on_shortest_path(nodes, links, source, target);
        }
    }
}

/// Tables derived from the same set of links agree on which routers are reachable
/// and on the cost of each, in whatever order the links were added.
pub proof fn lemma_costs_independent_of_link_order(
    nodes: nat,
    links: Seq<Link>,
    other: Seq<Link>,
    source: RouterId,
    target: RouterId,
)
    requires
        links.to_set() == other.to_set(),
        table_for(nodes, links, source) is Some,
        table_for(nodes, other, source) is Some,
        target < nodes,
    ensures
        ({
            let a = table_for(nodes, links, source)->Some_0[target];
            let b = table_for(nodes, other, source)->Some_0[target];
            &&& a is None <==> b is None
            &&& a is Some ==> a->Some_0.1 == b->Some_0.1
        }),
{
    lemma_table_costs_are_shortest(nodes, links, source, target);
    lemma_table_costs_are_shortest(nodes, other, source, target);
    let a = table_for(nodes, links, source)->Some_0[target];
    let b = table_for(nodes, other, source)->Some_0[target];
    assert forall|walk: Seq<Link>|
        is_walk(links, walk, source, target) == is_walk(other, walk, source, target) by {
        lemma_walk_same_links(links, other, walk, source, target);
    }
    if a is Some {
        let walk = choose|walk: Seq<Link>| #[trigger]
            is_walk(links, walk, source, target) && walk_cost(walk) == a->Some_0.1;
        assert(is_walk(other, walk, source, target));
    }
    if b is Some {
        let walk = choose|walk: Seq<Link>| #[trigger]
            is_walk(other, walk, source, target) && walk_cost(walk) == b->Some_0.1;
        assert(is_walk(links, walk, source, target));
    }
}

/// All cheapest walks from `source` to `target` leave the source over the same
/// neighbor.
pub open spec fn unique_first_hop(links: Seq<Link>, source: RouterId, target: RouterId) -> bool {
    forall|a: Seq<Link>, b: Seq<Link>|
        #![trigger is_walk(links, a, source, target), is_walk(links, b, source, target)]
        is_walk(links, a, source, target) && is_walk(links, b, source, target) && a.len() > 0
            && b.len() > 0 && (forall|other: Seq<Link>| #[trigger]
            is_walk(links, other, source, target) ==> walk_cost(a) <= walk_cost(other)
                && walk_cost(b) <= walk_cost(other)) ==> a[0].1 == b[0].1
}

/// Tables derived from the same set of links have the same entry for every router
/// whose cheapest walks all leave the source over the same neighbor, in whatever order
/// the links were added.
pub proof fn lemma_entries_independent_of_link_order(
    nodes: nat,
    links: Seq<Link>,
    other: Seq<Link>,
    source: RouterId,
    target: RouterId,
)
    requires
        links.to_set() == other.to_set(),
        table_for(nodes, links, source) is Some,
        table_for(nodes, other, source) is Some,
        target < nodes,
        unique_first_hop(links, source, target),
    ensures
        table_for(nodes, links, source)->Some_0[target] == table_for(
            nodes,
            other,
            source,
        )->Some_0[target],
{
    lemma_costs_independent_of_link_order(nodes, links, other, source, target);
    lemma_table_costs_are_shortest(nodes, links, source, target);
    lemma_table_costs_are_shortest(nodes, other, source, target);
    let a = table_for(nodes, links, source)->Some_0[target];
    let b = table_for(nodes, other, source)->Some_0[target];
    if a is Some && target != source {
        lemma_next_hop_is_on_shortest_path(nodes, links, source, target);
        lemma_next_hop_is_on_shortest_path(nodes, other, source, target);
        let ea = a->Some_0;
        let eb = b->Some_0;
        let (wa, ra) = choose|w: LinkWeight, rest: Seq<Link>|
            {
                &&& #[trigger] links.contains((source, ea.0, w))
                &&& #[trigger] is_walk(links, rest, ea.0, target)
                &&& w + walk_cost(rest) == ea.1
            };
        let (wb, rb) = choose|w: LinkWeight, rest: Seq<Link>|
            {
                &&& #[trigger] other.contains((source, eb.0, w))
                &&& #[trigger] is_walk(other, rest, eb.0, target)
                &&& w + walk_cost(rest) == eb.1
            };
        assert(links.contains((source, eb.0, wb))) by {
            assert(other.to_set().contains((source, eb.0, wb)));
            assert(links.to_set().contains((source, eb.0, wb)));
        }
        lemma_walk_same_links(links, other, rb, eb.0, target);
        lemma_walk_prepend(links, (source, ea.0, wa), ra, target);
        lemma_walk_prepend(links, (source, eb.0, wb), rb, target);
        let walk_a = seq![(source, ea.0, wa)] + ra;
        let walk_b = seq![(source, eb.0, wb)] + rb;
        assert(walk_a[0] == (source, ea.0, wa));
        assert(walk_b[0] == (source, eb.0, wb));
        assert(is_walk(links, walk_a, source, target));
        assert(is_walk(links, walk_b, source, target));
        assert(ea.0 == eb.0);
    }
}

} // verus!
