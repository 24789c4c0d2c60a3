//! Directed graphs of `petgraph`, with nodes numbered from zero.
use petgraph::graph::Graph;
use petgraph::Directed;
use vstd::multiset::Multiset;
use vstd::prelude::*;

verus! {

/// `petgraph::graph::Graph`, of which nothing is seen here but what the names below say.
#[verifier::external_type_specification]
#[verifier::external_body]
#[verifier::reject_recursive_types(N)]
#[verifier::reject_recursive_types(E)]
#[verifier::reject_recursive_types(Ty)]
#[verifier::reject_recursive_types(Ix)]
pub struct ExGraph<N, E, Ty, Ix>(petgraph::graph::Graph<N, E, Ty, Ix>);

/// `petgraph::Directed`, the mark of a graph with directed edges.
#[verifier::external_type_specification]
#[verifier::external_body]
pub struct ExDirected(petgraph::Directed);

/// The edges that a graph holds, from node to node, with their multiplicity.
pub uninterp spec fn edges_of(g: Graph<(), (), Directed, u32>) -> Multiset<(int, int)>;

/// How many nodes a graph holds; they are numbered from zero.
pub uninterp spec fn node_total(g: Graph<(), (), Directed, u32>) -> nat;

/// `petgraph::graph::Graph::new`: a graph without nodes and edges.
#[verifier::external_body]
pub(crate) fn empty_graph() -> (r: Graph<(), (), Directed, u32>)
    ensures
        node_total(r) == 0,
        edges_of(r) == Multiset::<(int, int)>::empty(),
{
    Graph::new()
}

/// `Graph::add_node`: a new node behind the others; it panics at the limit of `u32` numbers.
#[verifier::external_body]
pub(crate) fn add_node(g: &mut Graph<(), (), Directed, u32>) -> (r: usize)
    requires
        node_total(*old(g)) < u32::MAX,
    ensures
        r == node_total(*old(g)),
        node_total(*final(g)) == node_total(*old(g)) + 1,
        edges_of(*final(g)) == edges_of(*old(g)),
{
    g.add_node(()).index()
}

/// `Graph::add_edge`: one more edge from `a` to `b`, beside others between them; it panics
/// where one of the nodes does not exist and at the limit of `u32` numbers.
#[verifier::external_body]
pub(crate) fn add_edge(g: &mut Graph<(), (), Directed, u32>, a: usize, b: usize)
    requires
        a < node_total(*old(g)),
        b < node_total(*old(g)),
        edges_of(*old(g)).len() < u32::MAX,
    ensures
        node_total(*final(g)) == node_total(*old(g)),
        edges_of(*final(g)) == edges_of(*old(g)).insert((a as int, b as int)),
{
    g.add_edge(petgraph::graph::NodeIndex::new(a), petgraph::graph::NodeIndex::new(b), ());
}

/// The number that node `x` had before node `removed` left a graph of `total` nodes: the last
/// node took its place.
pub open spec fn number_before(x: int, removed: int, total: int) -> int {
    if x == removed {
        total - 1
    } else {
        x
    }
}

/// `Graph::remove_node`: node `a` leaves with every edge at it, the last node takes its
/// number, and the other edges stay between the nodes that they joined.
#[verifier::external_body]
pub(crate) fn remove_node(g: &mut Graph<(), (), Directed, u32>, a: usize)
    requires
        a < node_total(*old(g)),
    ensures
        node_total(*final(g)) == node_total(*old(g)) - 1,
        edges_of(*final(g)).len() <= edges_of(*old(g)).len(),
        forall|x: int, y: int|
            #![trigger edges_of(*final(g)).count((x, y))]
            edges_of(*final(g)).count((x, y)) == if 0 <= x < node_total(*final(g)) && 0 <= y
                < node_total(*final(g)) {
                edges_of(*old(g)).count(
                    (
                        number_before(x, a as int, node_total(*old(g)) as int),
                        number_before(y, a as int, node_total(*old(g)) as int),
                    ),
                )
            } else {
                0
            },
{
    g.remove_node(petgraph::graph::NodeIndex::new(a));
}

/// The way along which edges are followed.
#[derive(Debug, Clone, Copy, PartialEq, Eq, Structural)]
pub enum Direction {
    Outgoing,
    Incoming,
}

/// The edge that leads from `a` to `y` along `dir`.
pub open spec fn edge_along(a: int, y: int, dir: Direction) -> (int, int) {
    match dir {
        Direction::Outgoing => (a, y),
        Direction::Incoming => (y, a),
    }
}

/// `Graph::neighbors_directed`: the other ends of the edges that start (outgoing) or end
/// (incoming) at `a`, once for each edge.
#[verifier::external_body]
pub(crate) fn neighbors(g: &Graph<(), (), Directed, u32>, a: usize, dir: Direction) -> (r: Vec<
    usize,
>)
    requires
        a < node_total(*g),
    ensures
        forall|y: usize| #[trigger]
            r@.to_multiset().count(y) == edges_of(*g).count(edge_along(a as int, y as int, dir)),
{
    let along = match dir {
        Direction::Outgoing => petgraph::Direction::Outgoing,
        Direction::Incoming => petgraph::Direction::Incoming,
    };
    let from = petgraph::graph::NodeIndex::new(a);
    g.neighbors_directed(from, along).map(|n| n.index()).collect()
}

// ---------------------------------------------------------------------------
// Walks and orders
// ---------------------------------------------------------------------------

/// Whether an edge leads from place `i` of `w` to the next.
pub open spec fn steps_at(edges: Multiset<(int, int)>, w: Seq<int>, i: int) -> bool {
    edges.contains((w[i], w[i + 1]))
}

/// A walk along edges, with at least one step.
pub open spec fn is_walk(edges: Multiset<(int, int)>, w: Seq<int>) -> bool {
    w.len() >= 2 && forall|i: int| 0 <= i < w.len() - 1 ==> #[trigger] steps_at(edges, w, i)
}

/// Whether edges lead from `a` to `b` in one step or more.
pub open spec fn leads_to(edges: Multiset<(int, int)>, a: int, b: int) -> bool {
    exists|w: Seq<int>| #[trigger] is_walk(edges, w) && w[0] == a && w.last() == b
}

/// Whether no node leads back to itself.
pub open spec fn is_acyclic(edges: Multiset<(int, int)>) -> bool {
    forall|a: int| !(#[trigger] leads_to(edges, a, a))
}

/// An arrangement of the numbers below `total`, each once.
pub open spec fn is_arrangement(order: Seq<usize>, total: nat) -> bool {
    &&& order.len() == total
    &&& order.no_duplicates()
    &&& forall|i: int| 0 <= i < order.len() ==> #[trigger] order[i] < total
}

/// Whether every edge leads to the right in `order`.
pub open spec fn runs_forward(edges: Multiset<(int, int)>, order: Seq<usize>) -> bool {
    forall|i: int, j: int|
        0 <= i < order.len() && 0 <= j < order.len() && edges.contains(
            (#[trigger] order[i] as int, #[trigger] order[j] as int),
        ) ==> i < j
}

/// `petgraph::algo::toposort`: all nodes, each before those that its edges lead to, or a
/// node that lies on a cycle.
#[verifier::external_body]
pub(crate) fn toposort(g: &Graph<(), (), Directed, u32>) -> (r: Result<Vec<usize>, usize>)
    ensures
        match r {
            Ok(order) => is_arrangement(order@, node_total(*g)) && runs_forward(
                edges_of(*g),
                order@,
            ),
            Err(n) => n < node_total(*g) && leads_to(edges_of(*g), n as int, n as int),
        },
{
    match petgraph::algo::toposort(g, None) {
        Ok(order) => Ok(order.iter().map(|n| n.index()).collect()),
        Err(cycle) => Err(cycle.node_id().index()),
    }
}

/// Whether `b` can be reached from `a` along `dir` in one step or more.
pub open spec fn reaches(edges: Multiset<(int, int)>, a: int, b: int, dir: Direction) -> bool {
    match dir {
        Direction::Outgoing => leads_to(edges, a, b),
        Direction::Incoming => leads_to(edges, b, a),
    }
}

/// What is reached against the edges reaches back along them.
pub proof fn reaching_is_mutual(edges: Multiset<(int, int)>, a: int, b: int)
    ensures
        reaches(edges, a, b, Direction::Outgoing) == reaches(edges, b, a, Direction::Incoming),
{
}

/// Reaching is transitive.
pub proof fn reaching_is_transitive(
    edges: Multiset<(int, int)>,
    a: int,
    b: int,
    c: int,
    dir: Direction,
)
    requires
        reaches(edges, a, b, dir),
        reaches(edges, b, c, dir),
    ensures
        reaches(edges, a, c, dir),
{
    match dir {
        Direction::Outgoing => lemma_leads_transitive(edges, a, b, c),
        Direction::Incoming => lemma_leads_transitive(edges, c, b, a),
    }
}

proof fn lemma_leads_transitive(edges: Multiset<(int, int)>, a: int, b: int, c: int)
    requires
        leads_to(edges, a, b),
        leads_to(edges, b, c),
    ensures
        leads_to(edges, a, c),
{
    let v = choose|w: Seq<int>| #[trigger] is_walk(edges, w) && w[0] == a && w.last() == b;
    let w = choose|w: Seq<int>| #[trigger] is_walk(edges, w) && w[0] == b && w.last() == c;
    let all = v + w.skip(1);
    assert forall|i: int| 0 <= i < all.len() - 1 implies #[trigger] steps_at(edges, all, i) by {
        if i < v.len() - 1 {
            assert(steps_at(edges, v, i));
        } else {
            let k = i - (v.len() - 1);
            assert(all[i] == w[k]);
            assert(all[i + 1] == w[k + 1]);
            assert(steps_at(edges, w, k));
        }
    }
    assert(is_walk(edges, all));
    assert(all.last() == c);
}

/// One edge is a walk.
pub proof fn lemma_edge_leads(edges: Multiset<(int, int)>, a: int, b: int, dir: Direction)
    requires
        edges.contains(edge_along(a, b, dir)),
    ensures
        reaches(edges, a, b, dir),
{
    match dir {
        Direction::Outgoing => {
            let w = seq![a, b];
            assert(is_walk(edges, w));
        },
        Direction::Incoming => {
            let w = seq![b, a];
            assert(is_walk(edges, w));
        },
    }
}

/// A set that holds what `a` leads to in one step, and with each node what that leads to, holds
/// everything that `a` reaches.
pub proof fn lemma_closed_holds_reached(
    edges: Multiset<(int, int)>,
    a: int,
    dir: Direction,
    held: spec_fn(int) -> bool,
    b: int,
)
    requires
        forall|y: int| #[trigger] edges.contains(edge_along(a, y, dir)) ==> held(y),
        forall|x: int, y: int|
            held(x) && #[trigger] edges.contains(edge_along(x, y, dir)) ==> held(y),
        reaches(edges, a, b, dir),
    ensures
        held(b),
{
    match dir {
        Direction::Outgoing => {
            let w = choose|w: Seq<int>| #[trigger] is_walk(edges, w) && w[0] == a && w.last() == b;
            lemma_walk_held(edges, w, a, held, w.len() - 1);
        },
        Direction::Incoming => {
            let w = choose|w: Seq<int>| #[trigger] is_walk(edges, w) && w[0] == b && w.last() == a;
            lemma_walk_held_back(edges, w, a, held, 0);
        },
    }
}

proof fn lemma_walk_held(
    edges: Multiset<(int, int)>,
    w: Seq<int>,
    a: int,
    held: spec_fn(int) -> bool,
    i: int,
)
    requires
        is_walk(edges, w),
        w[0] == a,
        1 <= i < w.len(),
        forall|y: int| #[trigger] edges.contains(edge_along(a, y, Direction::Outgoing)) ==> held(y),
        forall|x: int, y: int|
            held(x) && #[trigger] edges.contains(edge_along(x, y, Direction::Outgoing)) ==> held(y),
    ensures
        held(w[i]),
    decreases i,
{
    assert(steps_at(edges, w, i - 1));
    assert(edges.contains(edge_along(w[i - 1], w[i], Direction::Outgoing)));
    if i > 1 {
        lemma_walk_held(edges, w, a, held, i - 1);
    }
}

proof fn lemma_walk_held_back(
    edges: Multiset<(int, int)>,
    w: Seq<int>,
    a: int,
    held: spec_fn(int) -> bool,
    i: int,
)
    requires
        is_walk(edges, w),
        w.last() == a,
        0 <= i < w.len() - 1,
        forall|y: int| #[trigger] edges.contains(edge_along(a, y, Direction::Incoming)) ==> held(y),
        forall|x: int, y: int|
            held(x) && #[trigger] edges.contains(edge_along(x, y, Direction::Incoming)) ==> held(y),
    ensures
        held(w[i]),
    decreases w.len() - i,
{
    assert(steps_at(edges, w, i));
    assert(edges.contains(edge_along(w[i + 1], w[i], Direction::Incoming)));
    if i + 1 < w.len() - 1 {
        lemma_walk_held_back(edges, w, a, held, i + 1);
    }
}

/// Where all edges run forward in an arrangement of all nodes, there is no cycle.
pub proof fn forward_order_excludes_cycles(
    edges: Multiset<(int, int)>,
    order: Seq<usize>,
    total: nat,
)
    requires
        is_arrangement(order, total),
        runs_forward(edges, order),
        forall|x: int, y: int| #[trigger]
            edges.contains((x, y)) ==> 0 <= x < total && 0 <= y < total,
    ensures
        is_acyclic(edges),
{
    assert forall|a: int| !(#[trigger] leads_to(edges, a, a)) by {
        if leads_to(edges, a, a) {
            let w = choose|w: Seq<int>| #[trigger] is_walk(edges, w) && w[0] == a && w.last() == a;
            lemma_places_rise(edges, order, total, w, w.len() - 1);
        }
    }
}

/// The place of a number in an arrangement.
spec fn place(order: Seq<usize>, x: int) -> int {
    choose|i: int| 0 <= i < order.len() && order[i] == x
}

proof fn lemma_place(order: Seq<usize>, total: nat, x: int)
    requires
        is_arrangement(order, total),
        0 <= x < total,
    ensures
        0 <= place(order, x) < order.len(),
        order[place(order, x)] == x,
{
    lemma_arrangement_full(order, total, x);
}

proof fn lemma_arrangement_full(order: Seq<usize>, total: nat, x: int)
    requires
        is_arrangement(order, total),
        0 <= x < total,
    ensures
        exists|i: int| 0 <= i < order.len() && order[i] == x,
{
    let ints = order.map_values(|u: usize| u as int);
    if forall|i: int| 0 <= i < order.len() ==> order[i] != x {
        assert(ints.no_duplicates()) by {
            assert forall|i: int, j: int|
                0 <= i < ints.len() && 0 <= j < ints.len() && i != j implies ints[i] != ints[j] by {
                assert(order[i] != order[j]);
            }
        }
        let all = vstd::set_lib::set_int_range(0, total as int);
        vstd::set_lib::lemma_int_range(0, total as int);
        ints.unique_seq_to_set();
        let rest = all.remove(x);
        assert(ints.to_set().subset_of(rest)) by {
            assert forall|y: int| ints.to_set().contains(y) implies rest.contains(y) by {
                assert(ints.contains(y));
                let i = choose|i: int| 0 <= i < ints.len() && ints[i] == y;
                assert(order[i] < total && order[i] != x);
            }
        }
        vstd::set_lib::lemma_len_subset(ints.to_set(), rest);
        assert(false);
    }
}

proof fn lemma_places_rise(
    edges: Multiset<(int, int)>,
    order: Seq<usize>,
    total: nat,
    w: Seq<int>,
    i: int,
)
    requires
        is_arrangement(order, total),
        runs_forward(edges, order),
        forall|x: int, y: int| #[trigger]
            edges.contains((x, y)) ==> 0 <= x < total && 0 <= y < total,
        is_walk(edges, w),
        1 <= i < w.len(),
    ensures
        place(order, w[0]) < place(order, w[i]),
    decreases i,
{
    assert(steps_at(edges, w, i - 1));
    lemma_place(order, total, w[i - 1]);
    lemma_place(order, total, w[i]);
    assert(edges.contains(
        (order[place(order, w[i - 1])] as int, order[place(order, w[i])] as int),
    ));
    if i > 1 {
        lemma_places_rise(edges, order, total, w, i - 1);
    }
}

/// An edge leads outward from its first end to its second, and back against its direction.
pub proof fn an_edge_leads_both_ways(edges: Multiset<(int, int)>, a: int, b: int)
    requires
        edges.contains((a, b)),
    ensures
        reaches(edges, a, b, Direction::Outgoing),
        reaches(edges, b, a, Direction::Incoming),
        a == b ==> !is_acyclic(edges),
{
    lemma_edge_leads(edges, a, b, Direction::Outgoing);
    lemma_edge_leads(edges, b, a, Direction::Incoming);
}

} // verus!
