//! The edges between the packages of a project.
use crate::condition::condition_holds;
use crate::graph::{
    first_out, stays_for, stays_with, swap_removed, thinned, thinning_keeps_what_stays,
    DependencyGraph,
};
use crate::node::{DependencyNode, NodeKind, NodeView};
use crate::project::{kind_named, lemma_kind_in_graph, lemma_kind_named};
use crate::table::{lookup, Table};
use crate::target::{filters_hold, TargetTriple, TripleView};
use crate::text::{cat3, cat5, cat7, same};
use vstd::prelude::*;
use vstd::string::*;

verus! {

broadcast use vstd::string::group_string_axioms;

/// The packages that a package refers to: its dependencies, then its tools, which are marked.
pub open spec fn references(n: NodeView) -> Seq<(Seq<char>, bool)> {
    n.dependencies.map_values(|d: Seq<char>| (d, false)) + n.tools.map_values(
        |t: Seq<char>| (t, true),
    )
}

/// What is wrong with a reference, given the packages of the graph and those that were declared.
pub open spec fn link_problem(
    n: NodeView,
    to: (Seq<char>, bool),
    nodes: Seq<NodeView>,
    declared: Seq<NodeView>,
) -> Option<Seq<char>> {
    let dep = to.0;
    if dep == n.name {
        Some("'"@ + n.name + "' depends on itself"@)
    } else {
        match kind_named(nodes, dep) {
            Some(k) => if to.1 && k != NodeKind::HostTool {
                Some(
                    "'"@ + n.name + "' lists '"@ + dep + "' in `tools`, but '"@ + dep
                        + "' is not declared under [tools]"@,
                )
            } else if n.kind == NodeKind::HostTool && k == NodeKind::TargetDependency {
                Some("Tool '"@ + n.name + "' cannot depend on target dependency '"@ + dep + "'"@)
            } else {
                None
            },
            None => if kind_named(declared, dep) is Some {
                None
            } else {
                Some(
                    "'"@ + n.name + "' depends on '"@ + dep
                        + "', which is not declared in [dependencies] or [tools]"@,
                )
            },
        }
    }
}

/// The pairs of names that references of `n` link, or the first thing that is wrong with them.
pub open spec fn links_of(
    n: NodeView,
    refs: Seq<(Seq<char>, bool)>,
    nodes: Seq<NodeView>,
    declared: Seq<NodeView>,
) -> Result<Seq<(Seq<char>, Seq<char>)>, Seq<char>>
    decreases refs.len(),
{
    if refs.len() == 0 {
        Ok(Seq::empty())
    } else {
        match links_of(n, refs.drop_last(), nodes, declared) {
            Err(m) => Err(m),
            Ok(so_far) => match link_problem(n, refs.last(), nodes, declared) {
                Some(m) => Err(m),
                None => if kind_named(nodes, refs.last().0) is Some {
                    Ok(so_far.push((n.name, refs.last().0)))
                } else {
                    Ok(so_far)
                },
            },
        }
    }
}

/// The pairs of names that the packages `ns` link, or the first thing that is wrong with them.
pub open spec fn all_links(ns: Seq<NodeView>, nodes: Seq<NodeView>, declared: Seq<NodeView>) -> Result<
    Seq<(Seq<char>, Seq<char>)>,
    Seq<char>,
>
    decreases ns.len(),
{
    if ns.len() == 0 {
        Ok(Seq::empty())
    } else {
        match all_links(ns.drop_last(), nodes, declared) {
            Err(m) => Err(m),
            Ok(so_far) => match links_of(ns.last(), references(ns.last()), nodes, declared) {
                Err(m) => Err(m),
                Ok(more) => Ok(so_far + more),
            },
        }
    }
}

/// How many references packages have together.
pub open spec fn reference_total(ns: Seq<NodeView>) -> nat
    decreases ns.len(),
{
    if ns.len() == 0 {
        0
    } else {
        reference_total(ns.drop_last()) + references(ns.last()).len()
    }
}

proof fn lemma_links_error(
    n: NodeView,
    refs: Seq<(Seq<char>, bool)>,
    nodes: Seq<NodeView>,
    declared: Seq<NodeView>,
    i: int,
)
    requires
        0 <= i <= refs.len(),
        links_of(n, refs.take(i), nodes, declared) is Err,
    ensures
        links_of(n, refs, nodes, declared) == links_of(n, refs.take(i), nodes, declared),
    decreases refs.len() - i,
{
    if i < refs.len() {
        assert(refs.take(i + 1).drop_last() =~= refs.take(i));
        lemma_links_error(n, refs, nodes, declared, i + 1);
    } else {
        assert(refs.take(i) =~= refs);
    }
}

proof fn lemma_all_links_error(
    ns: Seq<NodeView>,
    nodes: Seq<NodeView>,
    declared: Seq<NodeView>,
    i: int,
)
    requires
        0 <= i <= ns.len(),
        all_links(ns.take(i), nodes, declared) is Err,
    ensures
        all_links(ns, nodes, declared) == all_links(ns.take(i), nodes, declared),
    decreases ns.len() - i,
{
    if i < ns.len() {
        assert(ns.take(i + 1).drop_last() =~= ns.take(i));
        lemma_all_links_error(ns, nodes, declared, i + 1);
    } else {
        assert(ns.take(i) =~= ns);
    }
}

proof fn lemma_total_of_take(ns: Seq<NodeView>, i: int)
    requires
        0 <= i <= ns.len(),
    ensures
        reference_total(ns.take(i)) <= reference_total(ns),
    decreases ns.len() - i,
{
    if i < ns.len() {
        assert(ns.take(i + 1).drop_last() =~= ns.take(i));
        lemma_total_of_take(ns, i + 1);
    } else {
        assert(ns.take(i) =~= ns);
    }
}

proof fn lemma_total_of_update(ns: Seq<NodeView>, i: int, x: NodeView)
    requires
        0 <= i < ns.len(),
    ensures
        reference_total(ns.update(i, x)) + references(ns[i]).len() == reference_total(ns)
            + references(x).len(),
    decreases ns.len(),
{
    if i == ns.len() - 1 {
        assert(ns.update(i, x).drop_last() =~= ns.drop_last());
    } else {
        assert(ns.update(i, x).drop_last() =~= ns.drop_last().update(i, x));
        lemma_total_of_update(ns.drop_last(), i, x);
    }
}

proof fn lemma_total_of_thinned(ns: Seq<NodeView>, stays: spec_fn(NodeView) -> bool)
    ensures
        reference_total(thinned(ns, stays)) <= reference_total(ns),
    decreases ns.len(),
{
    if let Some(i) = first_out(ns, stays, 0) {
        if 0 <= i < ns.len() {
            lemma_total_of_update(ns, i, ns.last());
            lemma_total_of_thinned(swap_removed(ns, i), stays);
        }
    }
}

/// No more pairs than references.
proof fn lemma_links_len(
    n: NodeView,
    refs: Seq<(Seq<char>, bool)>,
    nodes: Seq<NodeView>,
    declared: Seq<NodeView>,
)
    ensures
        links_of(n, refs, nodes, declared) matches Ok(ps) ==> ps.len() <= refs.len(),
    decreases refs.len(),
{
    if refs.len() > 0 {
        lemma_links_len(n, refs.drop_last(), nodes, declared);
    }
}

/// Where all packages could be linked, nothing is wrong with any reference: every package that is
/// referred to was declared, none refers to itself, tools are tools, and no tool depends on a
/// target dependency.
pub proof fn linked_packages_refer_to_declared_ones(
    ns: Seq<NodeView>,
    nodes: Seq<NodeView>,
    declared: Seq<NodeView>,
    i: int,
    k: int,
)
    requires
        all_links(ns, nodes, declared) is Ok,
        0 <= i < ns.len(),
        0 <= k < references(ns[i]).len(),
    ensures
        link_problem(ns[i], references(ns[i])[k], nodes, declared) is None,
        kind_named(nodes, references(ns[i])[k].0) is Some || kind_named(
            declared,
            references(ns[i])[k].0,
        ) is Some,
    decreases ns.len(),
{
    if i < ns.len() - 1 {
        linked_packages_refer_to_declared_ones(ns.drop_last(), nodes, declared, i, k);
    } else {
        lemma_no_problem(ns.last(), references(ns.last()), nodes, declared, k);
    }
}

proof fn lemma_no_problem(
    n: NodeView,
    refs: Seq<(Seq<char>, bool)>,
    nodes: Seq<NodeView>,
    declared: Seq<NodeView>,
    k: int,
)
    requires
        links_of(n, refs, nodes, declared) is Ok,
        0 <= k < refs.len(),
    ensures
        link_problem(n, refs[k], nodes, declared) is None,
    decreases refs.len(),
{
    if k < refs.len() - 1 {
        lemma_no_problem(n, refs.drop_last(), nodes, declared, k);
    }
}

/// A reference to a package that was declared and then filtered out links nothing and is no
/// error.
pub proof fn references_to_filtered_packages_are_dropped(
    n: NodeView,
    refs: Seq<(Seq<char>, bool)>,
    to: (Seq<char>, bool),
    nodes: Seq<NodeView>,
    declared: Seq<NodeView>,
)
    requires
        to.0 != n.name,
        kind_named(nodes, to.0) is None,
        kind_named(declared, to.0) is Some,
    ensures
        links_of(n, refs.push(to), nodes, declared) == links_of(n, refs, nodes, declared),
{
    assert(refs.push(to).drop_last() =~= refs);
}

fn references_of(node: &DependencyNode) -> (r: Vec<(String, bool)>)
    ensures
        r@.len() == references(node@).len(),
        forall|i: int|
            0 <= i < r@.len() ==> ((#[trigger] r@[i]).0@, r@[i].1) == references(node@)[i],
{
    let mut out: Vec<(String, bool)> = Vec::new();
    let mut i: usize = 0;
    while i < node.dependencies.len()
        invariant
            i <= node.dependencies@.len(),
            out@.len() == i,
            forall|k: int|
                0 <= k < i ==> ((#[trigger] out@[k]).0@, out@[k].1) == references(node@)[k],
        decreases node.dependencies@.len() - i,
    {
        let d = node.dependencies[i].clone();
        out.push((d, false));
        i = i + 1;
    }
    let mut k: usize = 0;
    while k < node.tools.len()
        invariant
            k <= node.tools@.len(),
            out@.len() == node.dependencies@.len() + k,
            forall|j: int|
                0 <= j < out@.len() ==> ((#[trigger] out@[j]).0@, out@[j].1) == references(node@)[j],
        decreases node.tools@.len() - k,
    {
        let t = node.tools[k].clone();
        out.push((t, true));
        k = k + 1;
    }
    out
}

/// The graph `g` has the packages of `start` and besides its edges one for every pair.
pub open spec fn linked_by(
    g: DependencyGraph,
    start: DependencyGraph,
    pairs: Seq<(Seq<char>, Seq<char>)>,
) -> bool {
    &&& g.nodes@ == start.nodes@
    &&& g.indices == start.indices
    &&& g.edges().len() == start.edges().len() + pairs.len()
    &&& forall|p: Seq<char>, q: Seq<char>|
        g.index_of(p) is Some && g.index_of(q) is Some ==> #[trigger] g.links(p, q) == start.links(
            p,
            q,
        ) + pairs.to_multiset().count((p, q))
}

proof fn lemma_linked_by_nothing(g: DependencyGraph)
    ensures
        linked_by(g, g, Seq::empty()),
{
    broadcast use vstd::seq_lib::group_to_multiset_ensures;

    let none = Seq::<(Seq<char>, Seq<char>)>::empty();
    assert forall|p: Seq<char>, q: Seq<char>| none.to_multiset().count((p, q)) == 0 by {
        assert(!none.contains((p, q)));
    }
}

/// A package that is left was there before.
proof fn lemma_thinned_index(
    rest: DependencyGraph,
    before: DependencyGraph,
    stays: spec_fn(NodeView) -> bool,
    p: Seq<char>,
)
    requires
        rest.wf(),
        before.wf(),
        rest.is_rest_of(&before, stays),
        rest.index_of(p) is Some,
    ensures
        before.index_of(p) is Some,
{
    broadcast use {
        vstd::multiset::group_multiset_axioms,
        vstd::seq_lib::group_to_multiset_ensures,
    };

    let all = before.node_views();
    let left = rest.node_views();
    let i = rest.index_of(p)->0 as int;
    let x = left[i];
    thinning_keeps_what_stays(all, stays);
    assert(left.contains(x));
    assert(left.to_multiset().count(x) > 0);
    assert(all.to_multiset().filter(stays).count(x) > 0);
    assert(all.to_multiset().count(x) > 0);
    assert(all.contains(x));
    let j = choose|j: int| 0 <= j < all.len() && all[j] == x;
    assert(before.nodes@[j].name@ == p);
    assert(before.index_of(before.nodes@[j].name@) == Some(j as usize));
}

fn copy_indices(t: &Table<usize>) -> (r: Table<usize>)
    ensures
        r.pairs() == t.pairs(),
{
    let mut out: Vec<(String, usize)> = Vec::new();
    let mut i: usize = 0;
    while i < t.entries.len()
        invariant
            i <= t.entries@.len(),
            out@.len() == i,
            forall|k: int|
                0 <= k < i ==> (#[trigger] out@[k]).0@ == t.entries@[k].0@ && out@[k].1
                    == t.entries@[k].1,
        decreases t.entries@.len() - i,
    {
        let k = t.entries[i].0.clone();
        let v: usize = t.entries[i].1;
        out.push((k, v));
        i = i + 1;
    }
    let r = Table { entries: out };
    assert(r.pairs() =~= t.pairs());
    r
}

proof fn lemma_linked_once_more(
    before: DependencyGraph,
    g: DependencyGraph,
    start: DependencyGraph,
    pairs: Seq<(Seq<char>, Seq<char>)>,
    i: usize,
    j: usize,
)
    requires
        before.wf(),
        linked_by(before, start, pairs),
        i < before.nodes@.len(),
        j < before.nodes@.len(),
        g.nodes@ == before.nodes@,
        g.indices == before.indices,
        g.edges() == before.edges().insert((i as int, j as int)),
    ensures
        linked_by(
            g,
            start,
            pairs.push((before.nodes@[i as int].name@, before.nodes@[j as int].name@)),
        ),
{
    broadcast use {
        vstd::multiset::group_multiset_axioms,
        vstd::seq_lib::group_to_multiset_ensures,
    };

    let a = before.nodes@[i as int].name@;
    let b = before.nodes@[j as int].name@;
    let more = pairs.push((a, b));
    pairs.to_multiset_ensures();
    assert(more.to_multiset() =~= pairs.to_multiset().insert((a, b)));
    assert(before.index_of(before.nodes@[i as int].name@) == Some(i));
    assert(before.index_of(before.nodes@[j as int].name@) == Some(j));
    assert forall|p: Seq<char>, q: Seq<char>|
        g.index_of(p) is Some && g.index_of(q) is Some implies #[trigger] g.links(p, q)
        == start.links(p, q) + more.to_multiset().count((p, q)) by {
        assert(before.index_of(p) == g.index_of(p));
        assert(before.index_of(q) == g.index_of(q));
        assert(before.links(p, q) == start.links(p, q) + pairs.to_multiset().count((p, q)));
        let x = g.index_of(p)->0;
        let y = g.index_of(q)->0;
        assert(before.nodes@[x as int].name@ == p);
        assert(before.nodes@[y as int].name@ == q);
        if (x as int, y as int) == (i as int, j as int) {
            assert((p, q) == (a, b));
        } else {
            assert((p, q) != (a, b));
        }
    }
}

fn link_node(
    graph: &mut DependencyGraph,
    i: usize,
    declared: &Table<usize>,
    Ghost(all): Ghost<Seq<NodeView>>,
    Ghost(start): Ghost<DependencyGraph>,
    Ghost(so_far): Ghost<Seq<(Seq<char>, Seq<char>)>>,
) -> (r: Result<(), String>)
    requires
        old(graph).wf(),
        i < old(graph).nodes@.len(),
        forall|k: Seq<char>| #[trigger]
            lookup(declared.pairs(), k) is Some <==> kind_named(all, k) is Some,
        linked_by(*old(graph), start, so_far),
        old(graph).edges().len() + references(old(graph).nodes@[i as int]@).len() < u32::MAX,
    ensures
        final(graph).wf(),
        final(graph).nodes@ == old(graph).nodes@,
        ({
            let n = old(graph).nodes@[i as int]@;
            match links_of(n, references(n), old(graph).node_views(), all) {
                Ok(more) => r is Ok && linked_by(*final(graph), start, so_far + more),
                Err(m) => r matches Err(e) && e@ == m,
            }
        }),
{
    let ghost first = *graph;
    let ghost n = graph.nodes@[i as int]@;
    let ghost nodes = graph.node_views();
    let ghost all_refs = references(n);
    let name = graph.nodes[i].name.clone();
    let kind = graph.nodes[i].kind;
    let refs = references_of(&graph.nodes[i]);
    let mut k: usize = 0;
    let ghost mut more: Seq<(Seq<char>, Seq<char>)> = Seq::empty();
    proof {
        assert(all_refs.take(0) =~= Seq::empty());
        assert(so_far + more =~= so_far);
    }
    while k < refs.len()
        invariant
            k <= refs@.len(),
            refs@.len() == all_refs.len(),
            all_refs == references(n),
            forall|j: int|
                0 <= j < refs@.len() ==> ((#[trigger] refs@[j]).0@, refs@[j].1) == all_refs[j],
            name@ == n.name,
            kind == n.kind,
            i < first.nodes@.len(),
            n == first.nodes@[i as int]@,
            nodes == first.node_views(),
            first == *old(graph),
            first.wf(),
            graph.wf(),
            graph.nodes@ == first.nodes@,
            graph.indices == first.indices,
            first.edges().len() + all_refs.len() < u32::MAX,
            first.edges().len() == start.edges().len() + so_far.len(),
            more.len() <= k,
            links_of(n, all_refs.take(k as int), nodes, all) == Ok::<
                Seq<(Seq<char>, Seq<char>)>,
                Seq<char>,
            >(more),
            linked_by(*graph, start, so_far + more),
            forall|x: Seq<char>| #[trigger]
                lookup(declared.pairs(), x) is Some <==> kind_named(all, x) is Some,
        decreases refs@.len() - k,
    {
        let dep = refs[k].0.as_str();
        let is_tool = refs[k].1;
        proof {
            assert(all_refs.take(k + 1).drop_last() =~= all_refs.take(k as int));
            assert(all_refs.take(k + 1).last() == (dep@, is_tool));
            assert(graph.node_views() == nodes);
            lemma_kind_in_graph(*graph, dep@);
        }
        if same(dep, name.as_str()) {
            proof {
                lemma_links_error(n, all_refs, nodes, all, k + 1);
            }
            return Err(cat3("'", name.as_str(), "' depends on itself"));
        }
        let found: Option<usize> = match graph.indices.get(dep) {
            Some(j) => Some(*j),
            None => None,
        };
        match found {
            Some(j) => {
                let dep_kind = graph.nodes[j].kind;
                if is_tool && dep_kind != NodeKind::HostTool {
                    proof {
                        lemma_links_error(n, all_refs, nodes, all, k + 1);
                    }
                    return Err(
                        cat7(
                            "'",
                            name.as_str(),
                            "' lists '",
                            dep,
                            "' in `tools`, but '",
                            dep,
                            "' is not declared under [tools]",
                        ),
                    );
                }
                if kind == NodeKind::HostTool && dep_kind == NodeKind::TargetDependency {
                    proof {
                        lemma_links_error(n, all_refs, nodes, all, k + 1);
                    }
                    return Err(
                        cat5(
                            "Tool '",
                            name.as_str(),
                            "' cannot depend on target dependency '",
                            dep,
                            "'",
                        ),
                    );
                }
                let ghost before = *graph;
                graph.add_dependency(i, j);
                proof {
                    lemma_linked_once_more(before, *graph, start, so_far + more, i, j);
                    assert((so_far + more).push((n.name, dep@)) =~= so_far + more.push(
                        (n.name, dep@),
                    ));
                    more = more.push((n.name, dep@));
                }
            },
            None => {
                if !declared.contains_key(dep) {
                    proof {
                        lemma_links_error(n, all_refs, nodes, all, k + 1);
                    }
                    return Err(
                        cat5(
                            "'",
                            name.as_str(),
                            "' depends on '",
                            dep,
                            "', which is not declared in [dependencies] or [tools]",
                        ),
                    );
                }
            },
        }
        k = k + 1;
    }
    assert(all_refs.take(k as int) =~= all_refs);
    Ok(())
}

/// The packages that take part: those that the options enable and that run on the target.
pub open spec fn taking_part(
    nodes: Seq<NodeView>,
    target: TripleView,
    options: Seq<(Seq<char>, Seq<char>)>,
) -> Seq<NodeView> {
    thinned(thinned(nodes, stays_with(options)), stays_for(target))
}

/// Leaves out the packages that do not take part and links the others. A reference to a package
/// that was never declared is an error; one to a package that was left out is dropped.
pub fn connect_graph(
    graph: &mut DependencyGraph,
    target: &TargetTriple,
    options: &Table<String>,
) -> (r: Result<(), String>)
    requires
        old(graph).wf(),
        old(graph).edges().len() + reference_total(old(graph).node_views()) < u32::MAX,
    ensures
        final(graph).wf(),
        final(graph).node_views() == taking_part(
            old(graph).node_views(),
            target@,
            options.texts(),
        ),
        match all_links(
            final(graph).node_views(),
            final(graph).node_views(),
            old(graph).node_views(),
        ) {
            Ok(pairs) => r is Ok && forall|p: Seq<char>, q: Seq<char>|
                final(graph).index_of(p) is Some && final(graph).index_of(q) is Some ==> #[trigger]
                    final(graph).links(p, q) == old(graph).links(p, q) + pairs.to_multiset().count(
                        (p, q),
                    ),
            Err(m) => r matches Err(e) && e@ == m,
        },
{
    let ghost first = *graph;
    let declared = copy_indices(&graph.indices);
    proof {
        assert forall|k: Seq<char>| #[trigger]
            lookup(declared.pairs(), k) is Some <==> kind_named(first.node_views(), k) is Some by {
            lemma_kind_in_graph(first, k);
        }
    }
    graph.filter_conditions(options);
    let ghost enabled = *graph;
    graph.filter_platforms(target);
    let ghost start = *graph;
    let ghost nodes = graph.node_views();
    let ghost all = first.node_views();
    proof {
        lemma_total_of_thinned(all, stays_with(options.texts()));
        lemma_total_of_thinned(enabled.node_views(), stays_for(target@));
        assert forall|p: Seq<char>, q: Seq<char>|
            start.index_of(p) is Some && start.index_of(q) is Some implies #[trigger] start.links(
            p,
            q,
        ) == first.links(p, q) by {
            assert(start.links(p, q) == enabled.links(p, q));
            lemma_thinned_index(start, enabled, stays_for(target@), p);
            lemma_thinned_index(start, enabled, stays_for(target@), q);
            assert(enabled.links(p, q) == first.links(p, q));
        }
    }
    let mut i: usize = 0;
    let ghost mut pairs: Seq<(Seq<char>, Seq<char>)> = Seq::empty();
    proof {
        assert(nodes.take(0) =~= Seq::empty());
        lemma_linked_by_nothing(start);
    }
    while i < graph.nodes.len()
        invariant
            i <= graph.nodes@.len(),
            graph.wf(),
            graph.nodes@ == start.nodes@,
            nodes == start.node_views(),
            all == first.node_views(),
            first == *old(graph),
            nodes == taking_part(all, target@, options.texts()),
            start.edges().len() + reference_total(nodes) < u32::MAX,
            forall|k: Seq<char>| #[trigger]
                lookup(declared.pairs(), k) is Some <==> kind_named(all, k) is Some,
            all_links(nodes.take(i as int), nodes, all) == Ok::<
                Seq<(Seq<char>, Seq<char>)>,
                Seq<char>,
            >(pairs),
            pairs.len() <= reference_total(nodes.take(i as int)),
            linked_by(*graph, start, pairs),
        decreases graph.nodes@.len() - i,
    {
        let ghost n = nodes[i as int];
        proof {
            assert(nodes.take(i + 1).drop_last() =~= nodes.take(i as int));
            assert(nodes.take(i + 1).last() == n);
            assert(graph.node_views() == nodes);
            lemma_total_of_take(nodes, i + 1);
            lemma_links_len(n, references(n), nodes, all);
        }
        match link_node(graph, i, &declared, Ghost(all), Ghost(start), Ghost(pairs)) {
            Ok(_) => {
                proof {
                    let more = links_of(n, references(n), nodes, all)->Ok_0;
                    pairs = pairs + more;
                }
            },
            Err(m) => {
                proof {
                    lemma_all_links_error(nodes, nodes, all, i + 1);
                }
                return Err(m);
            },
        }
        i = i + 1;
    }
    assert(nodes.take(i as int) =~= nodes);
    Ok(())
}

// ---------------------------------------------------------------------------
// What is promised of links
// ---------------------------------------------------------------------------

/// A package refers to each of its dependencies and to each of its tools, to these as tools.
pub proof fn what_a_package_refers_to(n: NodeView, d: Seq<char>)
    ensures
        references(n).contains((d, false)) <==> n.dependencies.contains(d),
        references(n).contains((d, true)) <==> n.tools.contains(d),
        references(n).len() == n.dependencies.len() + n.tools.len(),
{
    let refs = references(n);
    let m = n.dependencies.len() as int;
    if n.dependencies.contains(d) {
        let i = choose|i: int| 0 <= i < n.dependencies.len() && n.dependencies[i] == d;
        assert(refs[i] == (d, false));
    }
    if n.tools.contains(d) {
        let i = choose|i: int| 0 <= i < n.tools.len() && n.tools[i] == d;
        assert(refs[m + i] == (d, true));
    }
    if refs.contains((d, false)) {
        let i = choose|i: int| 0 <= i < refs.len() && refs[i] == (d, false);
        assert(i < m);
        assert(n.dependencies[i] == d);
    }
    if refs.contains((d, true)) {
        let i = choose|i: int| 0 <= i < refs.len() && refs[i] == (d, true);
        assert(i >= m);
        assert(n.tools[i - m] == d);
    }
}

/// A package may refer to any other package of the project, where a tool refers only to tools and
/// what is listed as a tool is one; a package that was filtered out may be referred to all the same.
/// Otherwise the message names both.
pub proof fn what_a_package_may_refer_to(
    n: NodeView,
    dep: Seq<char>,
    as_tool: bool,
    nodes: Seq<NodeView>,
    declared: Seq<NodeView>,
)
    ensures
        ({
            let there = exists|i: int| 0 <= i < nodes.len() && (#[trigger] nodes[i]).name == dep;
            let known = exists|i: int|
                0 <= i < declared.len() && (#[trigger] declared[i]).name == dep;
            let kind = kind_named(nodes, dep);
            let found = link_problem(n, (dep, as_tool), nodes, declared);
            &&& dep == n.name ==> found == Some("'"@ + n.name + "' depends on itself"@)
            &&& dep != n.name && !there && known ==> found is None
            &&& dep != n.name && !there && !known ==> found == Some(
                "'"@ + n.name + "' depends on '"@ + dep
                    + "', which is not declared in [dependencies] or [tools]"@,
            )
            &&& dep != n.name && there && kind == Some(NodeKind::HostTool) ==> found is None
            &&& dep != n.name && there && kind == Some(NodeKind::TargetDependency) && as_tool
                ==> found == Some(
                "'"@ + n.name + "' lists '"@ + dep + "' in `tools`, but '"@ + dep
                    + "' is not declared under [tools]"@,
            )
            &&& dep != n.name && there && kind == Some(NodeKind::TargetDependency) && !as_tool
                && n.kind == NodeKind::HostTool ==> found == Some(
                "Tool '"@ + n.name + "' cannot depend on target dependency '"@ + dep + "'"@,
            )
            &&& dep != n.name && there && kind == Some(NodeKind::TargetDependency) && !as_tool
                && n.kind == NodeKind::TargetDependency ==> found is None
        }),
{
    lemma_kind_named(nodes, dep);
    lemma_kind_named(declared, dep);
}

proof fn lemma_links_of(
    n: NodeView,
    refs: Seq<(Seq<char>, bool)>,
    nodes: Seq<NodeView>,
    declared: Seq<NodeView>,
    pair: (Seq<char>, Seq<char>),
)
    requires
        links_of(n, refs, nodes, declared) is Ok,
    ensures
        links_of(n, refs, nodes, declared)->Ok_0.contains(pair) <==> pair.0 == n.name && kind_named(
            nodes,
            pair.1,
        ) is Some && (refs.contains((pair.1, false)) || refs.contains((pair.1, true))),
    decreases refs.len(),
{
    if refs.len() > 0 {
        let init = refs.drop_last();
        lemma_links_of(n, init, nodes, declared, pair);
        let last = refs.last();
        assert(refs[refs.len() - 1] == last);
        let less = links_of(n, init, nodes, declared)->Ok_0;
        let all = links_of(n, refs, nodes, declared)->Ok_0;
        assert forall|r: (Seq<char>, bool)| #![trigger refs.contains(r)]
            refs.contains(r) <==> init.contains(r) || r == last by {
            if refs.contains(r) {
                let i = choose|i: int| 0 <= i < refs.len() && refs[i] == r;
                if i < init.len() {
                    assert(init[i] == r);
                }
            }
            if init.contains(r) {
                let i = choose|i: int| 0 <= i < init.len() && init[i] == r;
                assert(refs[i] == r);
            }
        }
        if less.contains(pair) {
            let k = choose|k: int| 0 <= k < less.len() && less[k] == pair;
            assert(all[k] == pair);
        }
        if kind_named(nodes, last.0) is Some {
            assert(all[less.len() as int] == (n.name, last.0));
        }
        if all.contains(pair) {
            let k = choose|k: int| 0 <= k < all.len() && all[k] == pair;
            if k < less.len() {
                assert(less[k] == pair);
            }
        }
        assert(last == (last.0, false) || last == (last.0, true));
    }
}

/// In a project that can be linked, a package is linked to exactly those of its dependencies and
/// tools that take part, from the package to what it needs.
pub proof fn a_package_is_linked_to_what_it_needs(
    ns: Seq<NodeView>,
    nodes: Seq<NodeView>,
    declared: Seq<NodeView>,
    from: Seq<char>,
    to: Seq<char>,
)
    requires
        all_links(ns, nodes, declared) is Ok,
    ensures
        all_links(ns, nodes, declared)->Ok_0.contains((from, to)) <==> (exists|i: int|
            0 <= i < ns.len() && (#[trigger] ns[i]).name == from && (ns[i].dependencies.contains(to)
                || ns[i].tools.contains(to))) && (exists|j: int|
            0 <= j < nodes.len() && (#[trigger] nodes[j]).name == to),
    decreases ns.len(),
{
    lemma_kind_named(nodes, to);
    if ns.len() > 0 {
        let init = ns.drop_last();
        let last = ns.last();
        a_package_is_linked_to_what_it_needs(init, nodes, declared, from, to);
        lemma_links_of(last, references(last), nodes, declared, (from, to));
        what_a_package_refers_to(last, to);
        let a = all_links(init, nodes, declared)->Ok_0;
        let b = links_of(last, references(last), nodes, declared)->Ok_0;
        let all = all_links(ns, nodes, declared)->Ok_0;
        assert(ns[ns.len() - 1] == last);
        if a.contains((from, to)) {
            let k = choose|k: int| 0 <= k < a.len() && a[k] == (from, to);
            assert(all[k] == (from, to));
            let i = choose|i: int|
                0 <= i < init.len() && (#[trigger] init[i]).name == from && (
                init[i].dependencies.contains(to) || init[i].tools.contains(to));
            assert(ns[i] == init[i]);
        }
        if b.contains((from, to)) {
            let k = choose|k: int| 0 <= k < b.len() && b[k] == (from, to);
            assert(all[a.len() + k] == (from, to));
        }
        if all.contains((from, to)) {
            let k = choose|k: int| 0 <= k < all.len() && all[k] == (from, to);
            if k < a.len() {
                assert(a[k] == (from, to));
            } else {
                assert(b[k - a.len()] == (from, to));
            }
        }
        if exists|i: int|
            0 <= i < ns.len() && (#[trigger] ns[i]).name == from && (ns[i].dependencies.contains(to)
                || ns[i].tools.contains(to)) {
            let i = choose|i: int|
                0 <= i < ns.len() && (#[trigger] ns[i]).name == from && (ns[i].dependencies.contains(
                    to,
                ) || ns[i].tools.contains(to));
            if i < init.len() {
                assert(init[i] == ns[i]);
            }
        }
    }
}

/// The packages that take part are those whose condition holds and whose filters admit the target,
/// and all of these.
pub proof fn who_takes_part(
    nodes: Seq<NodeView>,
    target: TripleView,
    options: Seq<(Seq<char>, Seq<char>)>,
    n: NodeView,
)
    ensures
        taking_part(nodes, target, options).contains(n) <==> nodes.contains(n) && (n.enabled_if
            is None || condition_holds(n.enabled_if->0, options)) && (n.kind == NodeKind::HostTool
            || filters_hold(target, n.platforms)),
{
    broadcast use vstd::seq_lib::group_to_multiset_ensures;

    let some = thinned(nodes, stays_with(options));
    let all = taking_part(nodes, target, options);
    thinning_keeps_what_stays(nodes, stays_with(options));
    thinning_keeps_what_stays(some, stays_for(target));
    assert(nodes.contains(n) <==> nodes.to_multiset().count(n) > 0);
    assert(some.contains(n) <==> some.to_multiset().count(n) > 0);
    assert(all.contains(n) <==> all.to_multiset().count(n) > 0);
}

/// Linking a graph that had no edges links exactly the pairs.
pub proof fn exactly_the_pairs_are_linked(
    g: DependencyGraph,
    start: DependencyGraph,
    pairs: Seq<(Seq<char>, Seq<char>)>,
    p: Seq<char>,
    q: Seq<char>,
)
    requires
        linked_by(g, start, pairs),
        start.links(p, q) == 0,
        g.index_of(p) is Some,
        g.index_of(q) is Some,
    ensures
        g.links(p, q) > 0 <==> pairs.contains((p, q)),
        g.nodes@ == start.nodes@,
{
    broadcast use vstd::seq_lib::group_to_multiset_ensures;

    assert(pairs.contains((p, q)) <==> pairs.to_multiset().count((p, q)) > 0);
}

} // verus!
