//! The graph of a project's packages.
use crate::condition::{condition_holds, eval_condition};
use crate::digraph::{
    add_edge, add_node, edge_along, edges_of, empty_graph, forward_order_excludes_cycles,
    is_acyclic, is_arrangement, leads_to, lemma_closed_holds_reached, lemma_edge_leads, neighbors,
    node_total, number_before, reaches, reaching_is_transitive, remove_node, toposort,
};
use crate::error::{CoreError, CoreErrorView};
use crate::node::{kind_text, DependencyNode, NodeKind, NodeView};
use crate::table::{lookup, lookup_after_insert, Table};
use crate::target::{filters_hold, TargetTriple, TripleView};
use crate::text::{cat2, cat7, is_plain, quote, quoted};
use petgraph::graph::Graph;
use petgraph::Directed;
use std::collections::BTreeSet;
use vstd::multiset::Multiset;
use vstd::prelude::*;
use vstd::string::*;

pub use crate::digraph::Direction;

verus! {

broadcast use {
    vstd::string::group_string_axioms,
    vstd::multiset::group_multiset_axioms,
    vstd::std_specs::btree::group_btree_axioms,
};

/// The number of a package in its graph.
pub type NodeIndex = usize;

/// The packages of a project, numbered, and which of them depend on which: an edge leads from
/// a package to one that it needs. `indices` finds a package by its name.
#[derive(Debug)]
pub struct DependencyGraph {
    pub graph: Graph<(), (), Directed, u32>,
    pub nodes: Vec<DependencyNode>,
    pub indices: Table<usize>,
}

impl DependencyGraph {
    /// The edges between the packages.
    pub open spec fn edges(&self) -> Multiset<(int, int)> {
        edges_of(self.graph)
    }

    /// The packages as views.
    pub open spec fn node_views(&self) -> Seq<NodeView> {
        self.nodes@.map_values(|n: DependencyNode| n@)
    }

    /// The number of the package called `name`.
    pub open spec fn index_of(&self, name: Seq<char>) -> Option<usize> {
        lookup(self.indices.pairs(), name)
    }

    /// How many edges lead from the package called `p` to the one called `q`.
    pub open spec fn links(&self, p: Seq<char>, q: Seq<char>) -> nat {
        match (self.index_of(p), self.index_of(q)) {
            (Some(i), Some(j)) => self.edges().count((i as int, j as int)),
            _ => 0,
        }
    }

    /// Every package has a number of its own and is found under its name, and edges join
    /// packages of the graph.
    pub open spec fn wf(&self) -> bool {
        &&& node_total(self.graph) == self.nodes@.len()
        &&& self.indices.wf()
        &&& forall|i: int|
            0 <= i < self.nodes@.len() ==> self.index_of((#[trigger] self.nodes@[i]).name@) == Some(
                i as usize,
            )
        &&& forall|k: Seq<char>|
            #![trigger self.index_of(k)]
            self.index_of(k) is Some ==> self.index_of(k)->0 < self.nodes@.len() && self.nodes@[
                self.index_of(k)->0 as int
            ].name@ == k
        &&& forall|x: int, y: int| #[trigger]
            self.edges().contains((x, y)) ==> 0 <= x < self.nodes@.len() && 0 <= y
                < self.nodes@.len()
        &&& forall|i: int| 0 <= i < self.nodes@.len() ==> (#[trigger] self.nodes@[i]).wf()
    }
}

impl Default for DependencyGraph {
    fn default() -> (r: Self)
        ensures
            r.wf(),
            r.nodes@.len() == 0,
            r.edges() == Multiset::<(int, int)>::empty(),
    {
        DependencyGraph::new()
    }
}

/// The message for a name that is declared twice.
pub open spec fn declared_twice_message(
    name: Seq<char>,
    first: NodeKind,
    second: NodeKind,
) -> Seq<char> {
    "'"@ + name + "' is declared twice (as "@ + kind_text(first) + " and as "@ + kind_text(second)
        + "); dependency and tool names must be unique"@
}

impl DependencyGraph {
    pub fn new() -> (r: Self)
        ensures
            r.wf(),
            r.nodes@.len() == 0,
            r.edges() == Multiset::<(int, int)>::empty(),
    {
        DependencyGraph { graph: empty_graph(), nodes: Vec::new(), indices: Table::new() }
    }

    /// The number of the package that is called as `node` is; `node` itself becomes a new
    /// package where there is none.
    pub fn add_or_get_node(&mut self, node: DependencyNode) -> (r: usize)
        requires
            old(self).wf(),
            node.wf(),
            old(self).index_of(node.name@) is Some || old(self).nodes@.len() < u32::MAX,
        ensures
            final(self).wf(),
            final(self).edges() == old(self).edges(),
            match old(self).index_of(node.name@) {
                Some(i) => r == i && final(self).nodes@ == old(self).nodes@,
                None => r == old(self).nodes@.len() && final(self).nodes@ == old(self).nodes@.push(
                    node,
                ),
            },
            final(self).index_of(node.name@) == Some(r),
    {
        if let Some(i) = self.indices.get(node.name.as_str()) {
            return *i;
        }
        let ghost before = *self;
        let name = node.name.clone();
        let idx: usize = add_node(&mut self.graph);
        self.nodes.push(node);
        self.indices.insert(name, idx);
        proof {
            assert forall|k: Seq<char>| #[trigger]
                self.index_of(k) == if k == node.name@ {
                    Some(idx)
                } else {
                    before.index_of(k)
                } by {
                lookup_after_insert(before.indices.pairs(), node.name@, idx, k);
            }
            assert forall|i: int| 0 <= i < self.nodes@.len() implies self.index_of(
                (#[trigger] self.nodes@[i]).name@,
            ) == Some(i as usize) by {
                if i < before.nodes@.len() {
                    assert(self.nodes@[i] == before.nodes@[i]);
                    assert(before.index_of(before.nodes@[i].name@) == Some(i as usize));
                }
            }
            assert forall|k: Seq<char>|
                #![trigger self.index_of(k)]
                self.index_of(k) is Some implies self.index_of(k)->0 < self.nodes@.len()
                && self.nodes@[self.index_of(k)->0 as int].name@ == k by {
                if k != node.name@ {
                    assert(before.index_of(k) is Some);
                }
            }
            assert forall|j: int| 0 <= j < self.nodes@.len() implies (
            #[trigger] self.nodes@[j]).wf() by {
                if j < before.nodes@.len() {
                    assert(before.nodes@[j].wf());
                }
            }
            assert forall|x: int, y: int| #[trigger] self.edges().contains((x, y)) implies 0 <= x
                < self.nodes@.len() && 0 <= y < self.nodes@.len() by {
                assert(before.edges().contains((x, y)));
            }
        }
        idx
    }

    /// Adds a package under a name that is still free: dependencies and tools share one
    /// namespace.
    pub fn try_add_node(&mut self, node: DependencyNode) -> (r: Result<usize, CoreError>)
        requires
            old(self).wf(),
            node.wf(),
            old(self).nodes@.len() < u32::MAX,
        ensures
            final(self).wf(),
            final(self).edges() == old(self).edges(),
            match old(self).index_of(node.name@) {
                Some(i) => r matches Err(e) && e@ == CoreErrorView::Manifest(
                    declared_twice_message(node.name@, old(self).nodes@[i as int].kind, node.kind),
                ) && final(self).nodes@ == old(self).nodes@,
                None => r == Ok::<usize, CoreError>(old(self).nodes@.len() as usize)
                    && final(self).nodes@ == old(self).nodes@.push(node),
            },
    {
        if let Some(i) = self.indices.get(node.name.as_str()) {
            let existing = &self.nodes[*i];
            return Err(
                CoreError::Manifest(
                    cat7(
                        "'",
                        node.name.as_str(),
                        "' is declared twice (as ",
                        existing.kind.describe(),
                        " and as ",
                        node.kind.describe(),
                        "); dependency and tool names must be unique",
                    ),
                ),
            );
        }
        Ok(self.add_or_get_node(node))
    }

    /// The package with number `i`.
    pub fn node(&self, i: usize) -> (r: &DependencyNode)
        requires
            i < self.nodes@.len(),
        ensures
            *r == self.nodes@[i as int],
    {
        &self.nodes[i]
    }

    /// Puts `node` in place of the package with number `i` and the same name.
    pub fn set_node(&mut self, i: usize, node: DependencyNode)
        requires
            old(self).wf(),
            node.wf(),
            i < old(self).nodes@.len(),
            node.name@ == old(self).nodes@[i as int].name@,
        ensures
            final(self).wf(),
            final(self).nodes@ == old(self).nodes@.update(i as int, node),
            final(self).edges() == old(self).edges(),
            final(self).indices == old(self).indices,
    {
        let ghost before = *self;
        self.nodes.set(i, node);
        proof {
            assert forall|k: Seq<char>|
                #![trigger self.index_of(k)]
                self.index_of(k) is Some implies self.index_of(k)->0 < self.nodes@.len()
                && self.nodes@[self.index_of(k)->0 as int].name@ == k by {
                assert(before.index_of(k) is Some);
            }
            assert forall|j: int| 0 <= j < self.nodes@.len() implies self.index_of(
                (#[trigger] self.nodes@[j]).name@,
            ) == Some(j as usize) by {
                assert(before.index_of(before.nodes@[j].name@) == Some(j as usize));
            }
            assert forall|j: int| 0 <= j < self.nodes@.len() implies (
            #[trigger] self.nodes@[j]).wf() by {
                if j < before.nodes@.len() {
                    assert(before.nodes@[j].wf());
                }
            }
            assert forall|x: int, y: int| #[trigger] self.edges().contains((x, y)) implies 0 <= x
                < self.nodes@.len() && 0 <= y < self.nodes@.len() by {
                assert(before.edges().contains((x, y)));
            }
        }
    }

    /// Records that `dependent` needs `dependency`.
    pub fn add_dependency(&mut self, dependent: usize, dependency: usize)
        requires
            old(self).wf(),
            dependent < old(self).nodes@.len(),
            dependency < old(self).nodes@.len(),
            old(self).edges().len() < u32::MAX,
        ensures
            final(self).wf(),
            final(self).nodes@ == old(self).nodes@,
            final(self).indices == old(self).indices,
            final(self).edges() == old(self).edges().insert((dependent as int, dependency as int)),
    {
        let ghost before = *self;
        add_edge(&mut self.graph, dependent, dependency);
        proof {
            assert forall|k: Seq<char>|
                #![trigger self.index_of(k)]
                self.index_of(k) is Some implies self.index_of(k)->0 < self.nodes@.len()
                && self.nodes@[self.index_of(k)->0 as int].name@ == k by {
                assert(before.index_of(k) is Some);
            }
            assert forall|j: int| 0 <= j < self.nodes@.len() implies self.index_of(
                (#[trigger] self.nodes@[j]).name@,
            ) == Some(j as usize) by {
                assert(before.index_of(before.nodes@[j].name@) == Some(j as usize));
            }
            assert forall|x: int, y: int| #[trigger] self.edges().contains((x, y)) implies 0 <= x
                < self.nodes@.len() && 0 <= y < self.nodes@.len() by {
                if (x, y) != (dependent as int, dependency as int) {
                    assert(before.edges().contains((x, y)));
                }
            }
        }
    }
}

// ---------------------------------------------------------------------------
// Reaching
// ---------------------------------------------------------------------------

/// A queue of different numbers that are exactly the marked ones.
spec fn queue_matches(marks: Seq<bool>, queue: Seq<usize>) -> bool {
    &&& queue.no_duplicates()
    &&& forall|k: int|
        0 <= k < queue.len() ==> #[trigger] queue[k] < marks.len() && marks[queue[k] as int]
    &&& forall|y: int| 0 <= y < marks.len() && #[trigger] marks[y] ==> queue.contains(y as usize)
}

/// Different numbers below `n` are at most `n`.
proof fn lemma_at_most(queue: Seq<usize>, n: nat)
    requires
        queue.no_duplicates(),
        forall|k: int| 0 <= k < queue.len() ==> #[trigger] queue[k] < n,
    ensures
        queue.len() <= n,
{
    let ints = queue.map_values(|u: usize| u as int);
    assert(ints.no_duplicates()) by {
        assert forall|i: int, j: int|
            0 <= i < ints.len() && 0 <= j < ints.len() && i != j implies ints[i] != ints[j] by {
            assert(queue[i] != queue[j]);
        }
    }
    let all = vstd::set_lib::set_int_range(0, n as int);
    vstd::set_lib::lemma_int_range(0, n as int);
    ints.unique_seq_to_set();
    assert(ints.to_set().subset_of(all)) by {
        assert forall|y: int| ints.to_set().contains(y) implies all.contains(y) by {
            assert(ints.contains(y));
            let i = choose|i: int| 0 <= i < ints.len() && ints[i] == y;
            assert(queue[i] < n);
        }
    }
    vstd::set_lib::lemma_len_subset(ints.to_set(), all);
}

/// Marks the numbers that are not marked yet and queues them.
fn mark_new(marks: &mut Vec<bool>, queue: &mut Vec<usize>, found: &Vec<usize>)
    requires
        queue_matches(old(marks)@, old(queue)@),
        forall|k: int| 0 <= k < found@.len() ==> #[trigger] found@[k] < old(marks)@.len(),
    ensures
        queue_matches(final(marks)@, final(queue)@),
        final(marks)@.len() == old(marks)@.len(),
        old(queue)@.is_prefix_of(final(queue)@),
        forall|y: int| 0 <= y < old(marks)@.len() && old(marks)@[y] ==> #[trigger] final(marks)@[y],
        forall|k: int|
            old(queue)@.len() <= k < final(queue)@.len() ==> found@.contains(
                #[trigger] final(queue)@[k],
            ),
        forall|k: int|
            0 <= k < found@.len() ==> final(marks)@[#[trigger] found@[k] as int],
{
    let ghost marks0 = marks@;
    let ghost queue0 = queue@;
    let mut i: usize = 0;
    while i < found.len()
        invariant
            i <= found@.len(),
            queue_matches(marks@, queue@),
            marks@.len() == marks0.len(),
            queue0.len() <= queue@.len(),
            queue0 == queue@.subrange(0, queue0.len() as int),
            forall|k: int| 0 <= k < found@.len() ==> #[trigger] found@[k] < marks0.len(),
            forall|y: int| 0 <= y < marks0.len() && marks0[y] ==> #[trigger] marks@[y],
            forall|k: int|
                queue0.len() <= k < queue@.len() ==> found@.contains(#[trigger] queue@[k]),
            forall|k: int| 0 <= k < i ==> marks@[#[trigger] found@[k] as int],
        decreases found@.len() - i,
    {
        let y: usize = found[i];
        if !marks[y] {
            let ghost m = marks@;
            let ghost q = queue@;
            marks.set(y, true);
            queue.push(y);
            proof {
                assert(found@[i as int] == y);
                assert(!q.contains(y)) by {
                    if q.contains(y) {
                        let k = choose|k: int| 0 <= k < q.len() && q[k] == y;
                        assert(m[q[k] as int]);
                    }
                }
                assert forall|z: int| 0 <= z < marks@.len() && #[trigger] marks@[z] implies
                    queue@.contains(z as usize) by {
                    if z == y {
                        assert(queue@[q.len() as int] == y);
                    } else {
                        assert(m[z]);
                        let k = choose|k: int| 0 <= k < q.len() && q[k] == z as usize;
                        assert(queue@[k] == z as usize);
                    }
                }
                assert forall|k: int| 0 <= k < queue@.len() implies #[trigger] queue@[k]
                    < marks@.len() && marks@[queue@[k] as int] by {
                    if k < q.len() {
                        assert(queue@[k] == q[k]);
                    }
                }
                assert(queue0 =~= queue@.subrange(0, queue0.len() as int));
            }
        }
        i = i + 1;
    }
}

/// Every element of a list counts at least once.
proof fn lemma_counted(v: Seq<usize>, y: usize)
    ensures
        v.contains(y) <==> v.to_multiset().count(y) > 0,
{
    broadcast use vstd::seq_lib::group_to_multiset_ensures;

    v.to_multiset_ensures();
}

/// The numbers below `n` that can be reached from `idx`, in rising order.
pub open spec fn reached_from(
    edges: Multiset<(int, int)>,
    idx: int,
    dir: Direction,
    n: nat,
) -> Seq<int>
    decreases n,
{
    if n == 0 {
        Seq::empty()
    } else {
        let rest = reached_from(edges, idx, dir, (n - 1) as nat);
        if reaches(edges, idx, n - 1, dir) {
            rest.push(n - 1)
        } else {
            rest
        }
    }
}

/// Numbers as mathematical integers.
pub open spec fn ints(v: Seq<usize>) -> Seq<int> {
    v.map_values(|u: usize| u as int)
}

impl DependencyGraph {
    fn found_near(&self, x: usize, dir: Direction) -> (r: Vec<usize>)
        requires
            self.wf(),
            x < self.nodes@.len(),
        ensures
            forall|k: int|
                0 <= k < r@.len() ==> #[trigger] r@[k] < self.nodes@.len() && self.edges().contains(
                    edge_along(x as int, r@[k] as int, dir),
                ),
            forall|y: int|
                #![trigger edge_along(x as int, y, dir)]
                self.edges().contains(edge_along(x as int, y, dir)) ==> 0 <= y < self.nodes@.len()
                    && r@.contains(y as usize),
    {
        let r = neighbors(&self.graph, x, dir);
        let n: usize = self.nodes.len();
        proof {
            assert forall|k: int| 0 <= k < r@.len() implies #[trigger] r@[k] < self.nodes@.len()
                && self.edges().contains(edge_along(x as int, r@[k] as int, dir)) by {
                assert(r@.contains(r@[k]));
                lemma_counted(r@, r@[k]);
                assert(self.edges().contains(edge_along(x as int, r@[k] as int, dir)));
            }
            assert forall|y: int|
                #![trigger edge_along(x as int, y, dir)]
                self.edges().contains(edge_along(x as int, y, dir)) implies 0 <= y
                < self.nodes@.len() && r@.contains(y as usize) by {
                let e = edge_along(x as int, y, dir);
                assert(self.edges().contains((e.0, e.1)));
                assert(0 <= y < n);
                assert(r@.to_multiset().count(y as usize) == self.edges().count(e));
                lemma_counted(r@, y as usize);
            }
        }
        r
    }

    /// For every package whether it can be reached from `idx` along `dir`.
    fn reach_marks(&self, idx: usize, dir: Direction) -> (r: Vec<bool>)
        requires
            self.wf(),
        ensures
            r@.len() == self.nodes@.len(),
            forall|y: int|
                0 <= y < r@.len() ==> #[trigger] r@[y] == reaches(self.edges(), idx as int, y, dir),
    {
        let n: usize = self.nodes.len();
        let mut marks: Vec<bool> = Vec::new();
        while marks.len() < n
            invariant
                n == self.nodes@.len(),
                marks@.len() <= n,
                forall|y: int| 0 <= y < marks@.len() ==> #[trigger] marks@[y] == false,
            decreases n - marks@.len(),
        {
            marks.push(false);
        }
        let ghost edges = self.edges();
        if idx >= n {
            proof {
                assert forall|y: int| 0 <= y < n implies #[trigger] marks@[y] == reaches(
                    edges,
                    idx as int,
                    y,
                    dir,
                ) by {
                    if reaches(edges, idx as int, y, dir) {
                        assert forall|z: int| #[trigger]
                            edges.contains(edge_along(idx as int, z, dir)) implies false by {
                            let e = edge_along(idx as int, z, dir);
                            assert(edges.contains((e.0, e.1)));
                        }
                        lemma_closed_holds_reached(edges, idx as int, dir, |x: int| false, y);
                    }
                }
            }
            return marks;
        }
        let mut queue: Vec<usize> = Vec::new();
        let first = self.found_near(idx, dir);
        mark_new(&mut marks, &mut queue, &first);
        proof {
            assert forall|k: int| 0 <= k < queue@.len() implies reaches(
                edges,
                idx as int,
                #[trigger] queue@[k] as int,
                dir,
            ) by {
                assert(first@.contains(queue@[k]));
                let m = choose|m: int| 0 <= m < first@.len() && first@[m] == queue@[k];
                lemma_edge_leads(edges, idx as int, first@[m] as int, dir);
            }
            assert forall|y: int| #[trigger]
                edges.contains(edge_along(idx as int, y, dir)) implies 0 <= y < n && marks@[y] by {
                let m = choose|m: int| 0 <= m < first@.len() && first@[m] == y as usize;
                assert(marks@[first@[m] as int]);
            }
            lemma_at_most(queue@, n as nat);
        }
        let mut head: usize = 0;
        while head < queue.len()
            invariant
                self.wf(),
                edges == self.edges(),
                n == self.nodes@.len(),
                marks@.len() == n,
                head <= queue@.len() <= n,
                queue_matches(marks@, queue@),
                forall|k: int|
                    0 <= k < queue@.len() ==> reaches(
                        edges,
                        idx as int,
                        #[trigger] queue@[k] as int,
                        dir,
                    ),
                forall|y: int| #[trigger]
                    edges.contains(edge_along(idx as int, y, dir)) ==> 0 <= y < n && marks@[y],
                forall|k: int, y: int|
                    0 <= k < head && #[trigger] edges.contains(
                        edge_along(queue@[k] as int, y, dir),
                    ) ==> 0 <= y < n && marks@[y],
            decreases n - head,
        {
            let x: usize = queue[head];
            let found = self.found_near(x, dir);
            let ghost q = queue@;
            let ghost m0 = marks@;
            mark_new(&mut marks, &mut queue, &found);
            proof {
                assert forall|k: int| 0 <= k < q.len() implies queue@[k] == #[trigger] q[k] by {
                    assert(q[k] == queue@.subrange(0, q.len() as int)[k]);
                }
                assert forall|k: int| 0 <= k < queue@.len() implies reaches(
                    edges,
                    idx as int,
                    #[trigger] queue@[k] as int,
                    dir,
                ) by {
                    if k < q.len() {
                        assert(queue@[k] == q[k]);
                    } else {
                        assert(found@.contains(queue@[k]));
                        let m = choose|m: int| 0 <= m < found@.len() && found@[m] == queue@[k];
                        lemma_edge_leads(edges, x as int, found@[m] as int, dir);
                        assert(q[head as int] == x);
                        reaching_is_transitive(
                            edges,
                            idx as int,
                            x as int,
                            found@[m] as int,
                            dir,
                        );
                    }
                }
                assert forall|k: int, y: int|
                    0 <= k < head + 1 && #[trigger] edges.contains(
                        edge_along(queue@[k] as int, y, dir),
                    ) implies 0 <= y < n && marks@[y] by {
                    assert(queue@[k] == q[k]);
                    if k < head {
                        assert(edges.contains(edge_along(q[k] as int, y, dir)));
                        assert(m0[y]);
                    } else {
                        let e = edge_along(x as int, y, dir);
                        assert(found@.contains(y as usize));
                        let m = choose|m: int| 0 <= m < found@.len() && found@[m] == y as usize;
                        assert(marks@[found@[m] as int]);
                    }
                }
                assert forall|y: int| #[trigger]
                    edges.contains(edge_along(idx as int, y, dir)) implies 0 <= y < n
                    && marks@[y] by {
                    assert(m0[y]);
                }
                lemma_at_most(queue@, n as nat);
            }
            head = head + 1;
        }
        proof {
            let held = |x: int| 0 <= x < n && marks@[x];
            assert forall|y: int| 0 <= y < n implies #[trigger] marks@[y] == reaches(
                edges,
                idx as int,
                y,
                dir,
            ) by {
                if marks@[y] {
                    assert(queue@.contains(y as usize));
                    let k = choose|k: int| 0 <= k < queue@.len() && queue@[k] == y as usize;
                    assert(reaches(edges, idx as int, queue@[k] as int, dir));
                }
                if reaches(edges, idx as int, y, dir) {
                    assert forall|x: int, z: int|
                        held(x) && #[trigger] edges.contains(edge_along(x, z, dir)) implies held(
                        z,
                    ) by {
                        assert(marks@[x]);
                        assert(queue@.contains(x as usize));
                        let k = choose|k: int| 0 <= k < queue@.len() && queue@[k] == x as usize;
                        assert(edges.contains(edge_along(queue@[k] as int, z, dir)));
                    }
                    lemma_closed_holds_reached(edges, idx as int, dir, held, y);
                }
            }
        }
        marks
    }

    /// The packages that can be reached from `idx` along `dir`, in rising order.
    pub fn reachable_list(&self, idx: usize, dir: Direction) -> (r: Vec<usize>)
        requires
            self.wf(),
        ensures
            ints(r@) == reached_from(self.edges(), idx as int, dir, self.nodes@.len()),
            forall|k: int| 0 <= k < r@.len() ==> #[trigger] r@[k] < self.nodes@.len(),
    {
        let marks = self.reach_marks(idx, dir);
        let mut out: Vec<usize> = Vec::new();
        let mut i: usize = 0;
        assert(ints(out@) =~= Seq::<int>::empty());
        while i < marks.len()
            invariant
                i <= marks@.len(),
                marks@.len() == self.nodes@.len(),
                forall|y: int|
                    0 <= y < marks@.len() ==> #[trigger] marks@[y] == reaches(
                        self.edges(),
                        idx as int,
                        y,
                        dir,
                    ),
                ints(out@) == reached_from(self.edges(), idx as int, dir, i as nat),
                forall|k: int| 0 <= k < out@.len() ==> #[trigger] out@[k] < i,
            decreases marks@.len() - i,
        {
            if marks[i] {
                let ghost before = out@;
                out.push(i);
                assert(ints(out@) =~= ints(before).push(i as int));
            }
            i = i + 1;
        }
        out
    }

    /// All packages that can be reached from `idx` along `dir` (outgoing: what it needs, however
    /// indirectly; incoming: what needs it).
    pub fn reachable(&self, idx: usize, dir: Direction) -> (r: BTreeSet<usize>)
        requires
            self.wf(),
        ensures
            forall|y: usize| #[trigger]
                r@.contains(y) <==> y < self.nodes@.len() && reaches(
                    self.edges(),
                    idx as int,
                    y as int,
                    dir,
                ),
    {
        let marks = self.reach_marks(idx, dir);
        let mut out: BTreeSet<usize> = BTreeSet::new();
        let mut i: usize = 0;
        while i < marks.len()
            invariant
                i <= marks@.len(),
                marks@.len() == self.nodes@.len(),
                forall|y: int|
                    0 <= y < marks@.len() ==> #[trigger] marks@[y] == reaches(
                        self.edges(),
                        idx as int,
                        y,
                        dir,
                    ),
                forall|y: usize| #[trigger]
                    out@.contains(y) <==> y < i && reaches(self.edges(), idx as int, y as int, dir),
            decreases marks@.len() - i,
        {
            if marks[i] {
                out.insert(i);
            }
            i = i + 1;
        }
        out
    }
}

// ---------------------------------------------------------------------------
// Build order
// ---------------------------------------------------------------------------

/// Whether every package stands behind those that it needs.
pub open spec fn needs_come_first(edges: Multiset<(int, int)>, order: Seq<usize>) -> bool {
    forall|i: int, j: int|
        0 <= i < order.len() && 0 <= j < order.len() && edges.contains(
            (#[trigger] order[i] as int, #[trigger] order[j] as int),
        ) ==> j < i
}

/// The message for a cycle through the package called `name`.
pub open spec fn cycle_message(name: Seq<char>) -> Seq<char> {
    "Cycle involves node "@ + ("Some("@ + quoted(name) + ")"@)
}

/// `v` from the end to the start.
fn reversed(v: &Vec<usize>) -> (r: Vec<usize>)
    ensures
        r@.len() == v@.len(),
        forall|i: int| 0 <= i < r@.len() ==> #[trigger] r@[i] == v@[v@.len() - 1 - i],
{
    let n: usize = v.len();
    let mut out: Vec<usize> = Vec::new();
    let mut i: usize = 0;
    while i < n
        invariant
            n == v@.len(),
            i <= n,
            out@.len() == i,
            forall|k: int| 0 <= k < i ==> #[trigger] out@[k] == v@[n - 1 - k],
        decreases n - i,
    {
        out.push(v[n - 1 - i]);
        i = i + 1;
    }
    out
}

impl DependencyGraph {
    /// All packages, each behind those that it needs; an error names a package on a cycle.
    pub fn topological_order(&self) -> (r: Result<Vec<usize>, CoreError>)
        requires
            self.wf(),
        ensures
            r is Ok <==> is_acyclic(self.edges()),
            match r {
                Ok(order) => is_arrangement(order@, self.nodes@.len()) && needs_come_first(
                    self.edges(),
                    order@,
                ),
                Err(e) => exists|n: int|
                    0 <= n < self.nodes@.len() && #[trigger] leads_to(self.edges(), n, n) && e@
                        == CoreErrorView::CycleDetected(cycle_message(self.nodes@[n].name@)),
            },
    {
        match toposort(&self.graph) {
            Ok(order) => {
                let out = reversed(&order);
                proof {
                    forward_order_excludes_cycles(self.edges(), order@, self.nodes@.len());
                    assert(out@.no_duplicates()) by {
                        assert forall|i: int, j: int|
                            0 <= i < out@.len() && 0 <= j < out@.len() && i != j implies out@[i]
                            != out@[j] by {
                            assert(order@[out@.len() - 1 - i] != order@[out@.len() - 1 - j]);
                        }
                    }
                    assert forall|i: int| 0 <= i < out@.len() implies #[trigger] out@[i]
                        < self.nodes@.len() by {
                        assert(order@[out@.len() - 1 - i] < self.nodes@.len());
                    }
                    assert forall|i: int, j: int|
                        0 <= i < out@.len() && 0 <= j < out@.len() && self.edges().contains(
                            (#[trigger] out@[i] as int, #[trigger] out@[j] as int),
                        ) implies j < i by {
                        let a = out@.len() - 1 - i;
                        let b = out@.len() - 1 - j;
                        assert(self.edges().contains((order@[a] as int, order@[b] as int)));
                    }
                }
                Ok(out)
            },
            Err(n) => {
                let name = quote(self.nodes[n].name.as_str());
                let shown = crate::text::cat3("Some(", name.as_str(), ")");
                Err(CoreError::CycleDetected(cat2("Cycle involves node ", shown.as_str())))
            },
        }
    }
}

// ---------------------------------------------------------------------------
// Leaving packages out
// ---------------------------------------------------------------------------

/// `s` without the element at `i`, whose place the last element takes.
pub open spec fn swap_removed<A>(s: Seq<A>, i: int) -> Seq<A> {
    s.update(i, s.last()).drop_last()
}

/// The first element from `i` on that is not to stay.
pub open spec fn first_out<A>(s: Seq<A>, stays: spec_fn(A) -> bool, i: int) -> Option<int>
    decreases s.len() - i,
{
    if i < 0 || i >= s.len() {
        None
    } else if !stays(s[i]) {
        Some(i)
    } else {
        first_out(s, stays, i + 1)
    }
}

/// What is left when the first element that is not to stay leaves, again and again; each time
/// the last element takes its place.
pub open spec fn thinned<A>(s: Seq<A>, stays: spec_fn(A) -> bool) -> Seq<A>
    decreases s.len(),
{
    match first_out(s, stays, 0) {
        Some(i) => if 0 <= i < s.len() {
            thinned(swap_removed(s, i), stays)
        } else {
            s
        },
        None => s,
    }
}

proof fn lemma_first_out<A>(s: Seq<A>, stays: spec_fn(A) -> bool, i: int)
    requires
        0 <= i <= s.len(),
    ensures
        match first_out(s, stays, i) {
            Some(k) => i <= k < s.len() && !stays(s[k]),
            None => forall|k: int| i <= k < s.len() ==> stays(#[trigger] s[k]),
        },
    decreases s.len() - i,
{
    if i < s.len() && stays(s[i]) {
        lemma_first_out(s, stays, i + 1);
    }
}

proof fn lemma_swap_removed_bag<A>(s: Seq<A>, i: int)
    requires
        0 <= i < s.len(),
    ensures
        swap_removed(s, i).to_multiset() == s.to_multiset().remove(s[i]),
{
    broadcast use vstd::seq_lib::group_to_multiset_ensures;

    s.to_multiset_ensures();
    let u = s.update(i, s.last());
    assert(u.to_multiset() =~= s.to_multiset().insert(s.last()).remove(s[i]));
    assert(u =~= u.drop_last().push(s.last()));
    assert(u.drop_last().push(s.last()).to_multiset() =~= u.drop_last().to_multiset().insert(
        s.last(),
    ));
    assert(u.drop_last().to_multiset() =~= s.to_multiset().remove(s[i])) by {
        assert forall|x: A| u.drop_last().to_multiset().count(x) == s.to_multiset().remove(
            s[i],
        ).count(x) by {
            assert(u.to_multiset().count(x) == u.drop_last().to_multiset().insert(s.last()).count(x));
            assert(s.contains(s[i]));
            assert(s.contains(s[s.len() - 1]));
        }
    }
}

/// What is left is exactly what is to stay, each element as often as before.
pub proof fn thinning_keeps_what_stays<A>(s: Seq<A>, stays: spec_fn(A) -> bool)
    ensures
        thinned(s, stays).to_multiset() == s.to_multiset().filter(stays),
        forall|k: int| 0 <= k < thinned(s, stays).len() ==> stays(#[trigger] thinned(s, stays)[k]),
    decreases s.len(),
{
    broadcast use vstd::seq_lib::group_to_multiset_ensures;

    lemma_first_out(s, stays, 0);
    match first_out(s, stays, 0) {
        Some(i) => {
            thinning_keeps_what_stays(swap_removed(s, i), stays);
            lemma_swap_removed_bag(s, i);
            assert(s.to_multiset().remove(s[i]).filter(stays) =~= s.to_multiset().filter(stays));
        },
        None => {
            assert(s.to_multiset().filter(stays) =~= s.to_multiset()) by {
                assert forall|x: A|
                    s.to_multiset().filter(stays).count(x) == s.to_multiset().count(x) by {
                    if s.to_multiset().count(x) > 0 {
                        assert(s.contains(x));
                        let k = choose|k: int| 0 <= k < s.len() && s[k] == x;
                        assert(stays(s[k]));
                    }
                }
            }
        },
    }
}

/// Whether a package takes part in builds for `target`; tools do in all.
pub open spec fn runs_on(n: NodeView, target: TripleView) -> bool {
    n.kind == NodeKind::HostTool || filters_hold(target, n.platforms)
}

/// Whether the options enable a package.
pub open spec fn is_enabled(n: NodeView, options: Seq<(Seq<char>, Seq<char>)>) -> bool {
    match n.enabled_if {
        Some(c) => condition_holds(c, options),
        None => true,
    }
}

/// The packages that take part in builds for `target`.
pub open spec fn stays_for(target: TripleView) -> spec_fn(NodeView) -> bool {
    |n: NodeView| runs_on(n, target)
}

/// The packages that the options enable.
pub open spec fn stays_with(options: Seq<(Seq<char>, Seq<char>)>) -> spec_fn(NodeView) -> bool {
    |n: NodeView| is_enabled(n, options)
}

impl DependencyGraph {
    /// Whether `self` is what is left of `before` when only packages that may stay are kept:
    /// those, and the edges between them.
    pub open spec fn is_rest_of(
        &self,
        before: &DependencyGraph,
        stays: spec_fn(NodeView) -> bool,
    ) -> bool {
        &&& self.node_views() == thinned(before.node_views(), stays)
        &&& forall|p: Seq<char>, q: Seq<char>|
            self.index_of(p) is Some && self.index_of(q) is Some ==> #[trigger] self.links(p, q)
                == before.links(p, q)
        &&& self.edges().len() <= before.edges().len()
    }

    /// Fills `indices` anew from the names of the packages.
    fn rebuild_indices(&mut self)
        requires
            forall|i: int, j: int|
                0 <= i < j < old(self).nodes@.len() ==> (#[trigger] old(self).nodes@[i]).name@ != (
                #[trigger] old(self).nodes@[j]).name@,
        ensures
            final(self).nodes@ == old(self).nodes@,
            final(self).graph == old(self).graph,
            final(self).indices.wf(),
            forall|i: int|
                0 <= i < final(self).nodes@.len() ==> final(self).index_of(
                    (#[trigger] final(self).nodes@[i]).name@,
                ) == Some(i as usize),
            forall|k: Seq<char>|
                #![trigger final(self).index_of(k)]
                final(self).index_of(k) is Some ==> final(self).index_of(k)->0
                    < final(self).nodes@.len() && final(self).nodes@[final(self).index_of(
                    k,
                )->0 as int].name@ == k,
    {
        self.indices = Table::new();
        let ghost nodes = self.nodes@;
        let ghost g = self.graph;
        let mut i: usize = 0;
        while i < self.nodes.len()
            invariant
                i <= self.nodes@.len(),
                self.nodes@ == nodes,
                self.graph == g,
                self.indices.wf(),
                forall|a: int, b: int|
                    0 <= a < b < nodes.len() ==> (#[trigger] nodes[a]).name@ != (
                    #[trigger] nodes[b]).name@,
                forall|k: int|
                    0 <= k < i ==> self.index_of((#[trigger] nodes[k]).name@) == Some(k as usize),
                forall|k: Seq<char>|
                    #![trigger self.index_of(k)]
                    self.index_of(k) is Some ==> self.index_of(k)->0 < i && nodes[self.index_of(
                        k,
                    )->0 as int].name@ == k,
            decreases self.nodes@.len() - i,
        {
            let ghost before = *self;
            let name = self.nodes[i].name.clone();
            self.indices.insert(name, i);
            proof {
                assert forall|k: Seq<char>| #[trigger]
                    self.index_of(k) == if k == nodes[i as int].name@ {
                        Some(i)
                    } else {
                        before.index_of(k)
                    } by {
                    lookup_after_insert(before.indices.pairs(), nodes[i as int].name@, i, k);
                }
                assert forall|k: Seq<char>|
                    #![trigger self.index_of(k)]
                    self.index_of(k) is Some implies self.index_of(k)->0 < i + 1 && nodes[
                    self.index_of(k)->0 as int
                ].name@ == k by {
                    if k != nodes[i as int].name@ {
                        assert(before.index_of(k) is Some);
                    }
                }
                assert forall|k: int| 0 <= k < i + 1 implies self.index_of(
                    (#[trigger] nodes[k]).name@,
                ) == Some(k as usize) by {
                    if k < i {
                        assert(nodes[k].name@ != nodes[i as int].name@);
                        assert(before.index_of(nodes[k].name@) == Some(k as usize));
                    }
                }
            }
            i = i + 1;
        }
    }

    /// Takes the package with number `i` out of the graph; the last one takes its number.
    fn remove_at(&mut self, i: usize)
        requires
            old(self).wf(),
            i < old(self).nodes@.len(),
        ensures
            final(self).wf(),
            final(self).node_views() == swap_removed(old(self).node_views(), i as int),
            forall|p: Seq<char>, q: Seq<char>|
                final(self).index_of(p) is Some && final(self).index_of(q) is Some ==> #[trigger]
                    final(self).links(p, q) == old(self).links(p, q),
            forall|p: Seq<char>| #[trigger]
                final(self).index_of(p) is Some ==> old(self).index_of(p) is Some,
            final(self).edges().len() <= old(self).edges().len(),
    {
        let ghost before = *self;
        let total: usize = self.nodes.len();
        remove_node(&mut self.graph, i);
        self.nodes.swap_remove(i);
        proof {
            assert forall|a: int, b: int| 0 <= a < b < self.nodes@.len() implies (
            #[trigger] self.nodes@[a]).name@ != (#[trigger] self.nodes@[b]).name@ by {
                let x = number_before(a, i as int, total as int);
                let y = number_before(b, i as int, total as int);
                assert(self.nodes@[a] == before.nodes@[x]);
                assert(self.nodes@[b] == before.nodes@[y]);
                assert(before.index_of(before.nodes@[x].name@) == Some(x as usize));
                assert(before.index_of(before.nodes@[y].name@) == Some(y as usize));
            }
        }
        self.rebuild_indices();
        proof {
            assert(self.node_views() =~= swap_removed(before.node_views(), i as int));
            assert forall|a: int| 0 <= a < self.nodes@.len() implies (
            #[trigger] self.nodes@[a]).wf() by {
                let x = number_before(a, i as int, total as int);
                assert(self.nodes@[a] == before.nodes@[x]);
                assert(before.nodes@[x].wf());
            }
            assert forall|x: int, y: int| #[trigger] self.edges().contains((x, y)) implies 0 <= x
                < self.nodes@.len() && 0 <= y < self.nodes@.len() by {
                assert(self.edges().count((x, y)) > 0);
            }
            assert forall|p: Seq<char>| #[trigger] self.index_of(p) is Some implies before.index_of(
                p,
            ) is Some by {
                let a = self.index_of(p)->0 as int;
                let x = number_before(a, i as int, total as int);
                assert(self.nodes@[a] == before.nodes@[x]);
                assert(before.index_of(before.nodes@[x].name@) == Some(x as usize));
            }
            assert forall|p: Seq<char>, q: Seq<char>|
                self.index_of(p) is Some && self.index_of(q) is Some implies #[trigger] self.links(
                p,
                q,
            ) == before.links(p, q) by {
                let a = self.index_of(p)->0 as int;
                let b = self.index_of(q)->0 as int;
                let x = number_before(a, i as int, total as int);
                let y = number_before(b, i as int, total as int);
                assert(self.nodes@[a] == before.nodes@[x]);
                assert(self.nodes@[b] == before.nodes@[y]);
                assert(before.index_of(before.nodes@[x].name@) == Some(x as usize));
                assert(before.index_of(before.nodes@[y].name@) == Some(y as usize));
                assert(self.edges().count((a, b)) == before.edges().count((x, y)));
            }
        }
    }

    fn first_not_on(&self, target: &TargetTriple) -> (r: Option<usize>)
        ensures
            match r {
                Some(i) => i < self.nodes@.len() && first_out(
                    self.node_views(),
                    stays_for(target@),
                    0,
                ) == Some(i as int),
                None => first_out(self.node_views(), stays_for(target@), 0) is None,
            },
    {
        let mut i: usize = 0;
        let ghost all = self.node_views();
        let ghost stays = stays_for(target@);
        while i < self.nodes.len()
            invariant
                i <= self.nodes@.len(),
                all == self.node_views(),
                stays == stays_for(target@),
                first_out(all, stays, 0) == first_out(all, stays, i as int),
            decreases self.nodes@.len() - i,
        {
            let node = &self.nodes[i];
            assert(all[i as int] == node@);
            if node.kind != NodeKind::HostTool && !target.matches_all_filters(&node.platforms) {
                assert(!stays(all[i as int]));
                return Some(i);
            }
            assert(stays(all[i as int]));
            i = i + 1;
        }
        None
    }

    fn first_not_enabled(&self, options: &Table<String>) -> (r: Option<usize>)
        ensures
            match r {
                Some(i) => i < self.nodes@.len() && first_out(
                    self.node_views(),
                    stays_with(options.texts()),
                    0,
                ) == Some(i as int),
                None => first_out(self.node_views(), stays_with(options.texts()), 0) is None,
            },
    {
        let mut i: usize = 0;
        let ghost all = self.node_views();
        let ghost stays = stays_with(options.texts());
        while i < self.nodes.len()
            invariant
                i <= self.nodes@.len(),
                all == self.node_views(),
                stays == stays_with(options.texts()),
                first_out(all, stays, 0) == first_out(all, stays, i as int),
            decreases self.nodes@.len() - i,
        {
            let node = &self.nodes[i];
            assert(all[i as int] == node@);
            if let Some(cond) = &node.enabled_if {
                if !eval_condition(cond.as_str(), options) {
                    assert(!stays(all[i as int]));
                    return Some(i);
                }
            }
            assert(stays(all[i as int]));
            i = i + 1;
        }
        None
    }

    /// Leaves out the dependencies that do not take part in builds for `target`.
    pub fn filter_platforms(&mut self, target: &TargetTriple)
        requires
            old(self).wf(),
        ensures
            final(self).wf(),
            final(self).is_rest_of(old(self), stays_for(target@)),
    {
        let ghost start = *self;
        let ghost stays = stays_for(target@);
        loop
            invariant
                self.wf(),
                start == *old(self),
                stays == stays_for(target@),
                thinned(start.node_views(), stays) == thinned(self.node_views(), stays),
                forall|p: Seq<char>, q: Seq<char>|
                    self.index_of(p) is Some && self.index_of(q) is Some ==> #[trigger] self.links(
                        p,
                        q,
                    ) == start.links(p, q),
                self.edges().len() <= start.edges().len(),
            decreases self.nodes@.len(),
        {
            let i: usize = match self.first_not_on(target) {
                Some(k) => k,
                None => {
                    return;
                },
            };
            let ghost before = *self;
            self.remove_at(i);
            proof {
                assert forall|p: Seq<char>, q: Seq<char>|
                    self.index_of(p) is Some && self.index_of(q) is Some implies #[trigger]
                    self.links(p, q) == start.links(p, q) by {
                    assert(before.index_of(p) is Some && before.index_of(q) is Some);
                    assert(before.links(p, q) == start.links(p, q));
                }
                assert(self.node_views().len() == before.node_views().len() - 1);
            }
        }
    }

    /// Leaves out the packages that the options do not enable.
    pub fn filter_conditions(&mut self, options: &Table<String>)
        requires
            old(self).wf(),
        ensures
            final(self).wf(),
            final(self).is_rest_of(old(self), stays_with(options.texts())),
    {
        let ghost start = *self;
        let ghost stays = stays_with(options.texts());
        loop
            invariant
                self.wf(),
                start == *old(self),
                stays == stays_with(options.texts()),
                thinned(start.node_views(), stays) == thinned(self.node_views(), stays),
                forall|p: Seq<char>, q: Seq<char>|
                    self.index_of(p) is Some && self.index_of(q) is Some ==> #[trigger] self.links(
                        p,
                        q,
                    ) == start.links(p, q),
                self.edges().len() <= start.edges().len(),
            decreases self.nodes@.len(),
        {
            let i: usize = match self.first_not_enabled(options) {
                Some(k) => k,
                None => {
                    return;
                },
            };
            let ghost before = *self;
            self.remove_at(i);
            proof {
                assert forall|p: Seq<char>, q: Seq<char>|
                    self.index_of(p) is Some && self.index_of(q) is Some implies #[trigger]
                    self.links(p, q) == start.links(p, q) by {
                    assert(before.index_of(p) is Some && before.index_of(q) is Some);
                    assert(before.links(p, q) == start.links(p, q));
                }
                assert(self.node_views().len() == before.node_views().len() - 1);
            }
        }
    }

    /// Whether a condition holds for the given options.
    pub fn eval_condition(cond: &str, options: &Table<String>) -> (r: bool)
        ensures
            r == condition_holds(cond@, options.texts()),
    {
        eval_condition(cond, options)
    }
}

// ---------------------------------------------------------------------------
// What is promised of a graph
// ---------------------------------------------------------------------------

/// In an order of building, what a package needs stands before the package.
pub proof fn what_is_needed_is_built_before(
    edges: Multiset<(int, int)>,
    order: Seq<usize>,
    package: int,
    needed: int,
)
    requires
        needs_come_first(edges, order),
        0 <= package < order.len(),
        0 <= needed < order.len(),
        edges.contains((order[package] as int, order[needed] as int)),
    ensures
        needed < package,
{
}

/// What is reached from a package is exactly what its edges lead to, each once and in the order of
/// the numbers.
pub proof fn what_is_reached_from_a_package(
    edges: Multiset<(int, int)>,
    idx: int,
    dir: Direction,
    n: nat,
)
    ensures
        forall|y: int| #![trigger reached_from(edges, idx, dir, n).contains(y)]
            reached_from(edges, idx, dir, n).contains(y) <==> 0 <= y < n && reaches(
                edges,
                idx,
                y,
                dir,
            ),
        forall|i: int, j: int|
            0 <= i < j < reached_from(edges, idx, dir, n).len() ==> #[trigger] reached_from(
                edges,
                idx,
                dir,
                n,
            )[i] < #[trigger] reached_from(edges, idx, dir, n)[j],
    decreases n,
{
    if n > 0 {
        let less = reached_from(edges, idx, dir, (n - 1) as nat);
        let all = reached_from(edges, idx, dir, n);
        what_is_reached_from_a_package(edges, idx, dir, (n - 1) as nat);
        assert forall|y: int| #![trigger all.contains(y)]
            all.contains(y) <==> 0 <= y < n && reaches(edges, idx, y, dir) by {
            if all.contains(y) {
                let i = choose|i: int| 0 <= i < all.len() && all[i] == y;
                if i < less.len() {
                    assert(less[i] == y);
                    assert(less.contains(y));
                }
            }
            if 0 <= y < n && reaches(edges, idx, y, dir) {
                if y < n - 1 {
                    assert(less.contains(y));
                    let i = choose|i: int| 0 <= i < less.len() && less[i] == y;
                    assert(all[i] == y);
                } else {
                    assert(all[less.len() as int] == y);
                }
            }
        }
        assert forall|i: int, j: int| 0 <= i < j < all.len() implies #[trigger] all[i]
            < #[trigger] all[j] by {
            assert(all[i] == less[i]);
            if j < less.len() {
                assert(all[j] == less[j]);
            } else {
                assert(less.contains(less[i]));
            }
        }
    }
}

/// A package stays in a build for a target where its filters admit the target, and with options
/// where its condition holds of them; tools stay for every target.
pub proof fn who_stays_in_a_build(
    n: NodeView,
    target: TripleView,
    options: Seq<(Seq<char>, Seq<char>)>,
)
    ensures
        n.kind == NodeKind::HostTool ==> stays_for(target)(n),
        n.kind == NodeKind::TargetDependency ==> (stays_for(target)(n) <==> filters_hold(
            target,
            n.platforms,
        )),
        n.enabled_if is None ==> stays_with(options)(n),
        n.enabled_if matches Some(c) ==> (stays_with(options)(n) <==> condition_holds(c, options)),
{
}

/// A cycle is reported with a package on it, and a name that is declared twice with what it was
/// declared as.
pub proof fn what_is_wrong_with_a_graph_is_named(name: Seq<char>)
    ensures
        is_plain(name) ==> cycle_message(name) == "Cycle involves node Some(\""@ + name + "\")"@,
        declared_twice_message(name, NodeKind::TargetDependency, NodeKind::HostTool) == "'"@ + name
            + "' is declared twice (as a dependency and as a tool); dependency and tool names must be unique"@,
        declared_twice_message(name, NodeKind::HostTool, NodeKind::TargetDependency) == "'"@ + name
            + "' is declared twice (as a tool and as a dependency); dependency and tool names must be unique"@,
{
    reveal_strlit("Cycle involves node ");
    reveal_strlit("Some(");
    reveal_strlit(")");
    reveal_strlit("Cycle involves node Some(\"");
    reveal_strlit("\")");
    if is_plain(name) {
        assert(cycle_message(name) =~= "Cycle involves node Some(\""@ + name + "\")"@);
    }
    reveal_strlit("' is declared twice (as ");
    reveal_strlit(" and as ");
    reveal_strlit("); dependency and tool names must be unique");
    reveal_strlit("a dependency");
    reveal_strlit("a tool");
    reveal_strlit(
        "' is declared twice (as a dependency and as a tool); dependency and tool names must be unique",
    );
    reveal_strlit(
        "' is declared twice (as a tool and as a dependency); dependency and tool names must be unique",
    );
    assert(declared_twice_message(name, NodeKind::TargetDependency, NodeKind::HostTool) =~= "'"@
        + name
        + "' is declared twice (as a dependency and as a tool); dependency and tool names must be unique"@);
    assert(declared_twice_message(name, NodeKind::HostTool, NodeKind::TargetDependency) =~= "'"@
        + name
        + "' is declared twice (as a tool and as a dependency); dependency and tool names must be unique"@);
}

/// What is left of a graph are the packages that stay, all of them, with the links that they had
/// among each other.
pub proof fn what_is_left_of_a_graph(
    after: DependencyGraph,
    before: DependencyGraph,
    stays: spec_fn(NodeView) -> bool,
    n: NodeView,
    p: Seq<char>,
    q: Seq<char>,
)
    requires
        after.is_rest_of(&before, stays),
    ensures
        after.node_views().contains(n) <==> before.node_views().contains(n) && stays(n),
        after.index_of(p) is Some && after.index_of(q) is Some ==> after.links(p, q)
            == before.links(p, q),
{
    broadcast use vstd::seq_lib::group_to_multiset_ensures;

    let a = after.node_views();
    let b = before.node_views();
    thinning_keeps_what_stays(b, stays);
    assert(a.contains(n) <==> a.to_multiset().count(n) > 0);
    assert(b.contains(n) <==> b.to_multiset().count(n) > 0);
}

/// A link between two packages is an edge from the number of the first to the number of the second.
pub proof fn a_link_is_an_edge(g: DependencyGraph, p: Seq<char>, q: Seq<char>, i: usize, j: usize)
    requires
        g.index_of(p) == Some(i),
        g.index_of(q) == Some(j),
    ensures
        g.links(p, q) > 0 <==> g.edges().contains((i as int, j as int)),
        g.wf() ==> g.nodes@[i as int].name@ == p && g.nodes@[j as int].name@ == q,
{
}

} // verus!
