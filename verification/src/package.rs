//! The building of one package: what is settled about it between the pieces of work on disk.
use crate::context::{dependents_in, dependents_of, BuildContext};
use crate::digraph::reaches;
use crate::graph::{
    ints, reached_from, what_is_reached_from_a_package, DependencyGraph, Direction,
};
use crate::hash::{
    build_text, dependencies_separate_builds, id_of, source_bytes, HashCalculator, SourceFiles,
};
use crate::install::{mark_built, Places};
use crate::nested::{build_ids, ids_of, refs_view};
use crate::node::{DependencyNode, NodeKind, NodeView};
use crate::path::{join_path, path_join};
use crate::project::Project;
use crate::resolution::{nodes_view, Resolution};
use crate::storage::StorageManager;
use crate::strategy::strs;
use crate::table::Table;
use crate::text::{cat3, decimal_text, decimal, opt_view};
use crate::util::ToolchainFacts;
use vstd::prelude::*;
use vstd::string::*;
use vstd::utf8::encode_utf8;

verus! {

broadcast use vstd::string::group_string_axioms;

/// A package as it is built, and where the machine has a tool of its own in its place.
#[derive(Debug)]
pub struct Started {
    pub node: DependencyNode,
    pub local: Option<String>,
}

/// Configures the `i`th package of a graph, and finds out whether it is a tool that the machine
/// has of its own.
pub fn start(
    project: &Project,
    ctx: &BuildContext,
    graph: &DependencyGraph,
    i: usize,
    facts: &ToolchainFacts,
    env: &Table<String>,
) -> (r: Result<Started, String>)
    requires
        graph.wf(),
        i < graph.nodes@.len(),
    ensures
        ({
            let n = graph.nodes@[i as int]@;
            let dependents = dependents_of(*graph, i as int);
            match ctx.complaint(n, dependents, *facts, env.texts()) {
                Some(m) => r matches Err(e) && e@ == m,
                None => r matches Ok(s) && s.node@ == ctx.configured(
                    n,
                    dependents,
                    *facts,
                    env.texts(),
                ) && opt_view(s.local) == if n.kind == NodeKind::HostTool {
                    project.local_tool(n.name)
                } else {
                    None
                },
            }
        }),
        ctx.target_base.cmake_options.wf() ==> (r matches Ok(s) ==> s.node.wf()),
{
    let mut node = graph.node(i).clone();
    let dependents = dependents_in(graph, i);
    if let Err(m) = ctx.configure_node(&mut node, &dependents, facts, env) {
        return Err(m);
    }
    let local = match node.kind {
        NodeKind::HostTool => project.local_tool_path(node.name.as_str()),
        NodeKind::TargetDependency => None,
    };
    Ok(Started { node, local })
}

/// The packages that the `i`th needs, however indirectly, in rising order.
pub open spec fn needs_of(g: DependencyGraph, i: int) -> Seq<NodeView> {
    reached_from(g.edges(), i, Direction::Outgoing, g.nodes@.len()).map_values(
        |k: int| g.nodes@[k]@,
    )
}

/// The packages that the `i`th needs, however indirectly.
pub fn needs<'a>(graph: &'a DependencyGraph, i: usize) -> (r: Vec<&'a DependencyNode>)
    requires
        graph.wf(),
    ensures
        refs_view(r@) == needs_of(*graph, i as int),
{
    let indices = graph.reachable_list(i, Direction::Outgoing);
    let ghost reached = reached_from(graph.edges(), i as int, Direction::Outgoing, graph.nodes@.len());
    let mut out: Vec<&'a DependencyNode> = Vec::new();
    let mut k: usize = 0;
    while k < indices.len()
        invariant
            k <= indices@.len(),
            ints(indices@) == reached,
            forall|j: int| 0 <= j < indices@.len() ==> #[trigger] indices@[j] < graph.nodes@.len(),
            out@.len() == k,
            forall|j: int|
                0 <= j < k ==> *(#[trigger] out@[j]) == graph.nodes@[indices@[j] as int],
        decreases indices@.len() - k,
    {
        let node: &'a DependencyNode = &graph.nodes[indices[k]];
        out.push(node);
        k = k + 1;
    }
    proof {
        assert forall|j: int| 0 <= j < out@.len() implies #[trigger] refs_view(out@)[j]
            == needs_of(*graph, i as int)[j] by {
            assert(reached[j] == indices@[j] as int);
        }
        assert(refs_view(out@) =~= needs_of(*graph, i as int));
    }
    out
}

// ---------------------------------------------------------------------------
// Identities
// ---------------------------------------------------------------------------

/// The identity of the build of a package whose source has the identity `source_id`, on top of
/// other builds.
pub open spec fn identity_of(
    n: NodeView,
    source_id: Seq<char>,
    ctx: BuildContext,
    ids: Seq<Seq<char>>,
) -> Seq<char> {
    id_of(encode_utf8(build_text(n, source_id, ctx.target@, ctx.host@, ids)))
}

/// The identities of the builds that a package is built on: of those that it needs, then of those
/// that its own manifest pulled in.
pub open spec fn all_ids(needs: Seq<NodeView>, nested: Seq<NodeView>) -> Seq<Seq<char>> {
    build_ids(needs) + build_ids(nested)
}

/// Notes the identity of the source of a package, and gives the identity that its build has if its
/// own manifest pulls in nothing, which is known before the source is fetched.
pub fn identify(
    node: &mut DependencyNode,
    files: &SourceFiles,
    ctx: &BuildContext,
    deps: &[&DependencyNode],
) -> (r: (String, String))
    ensures
        r.0@ == id_of(
            source_bytes(
                old(node)@,
                files.tree_seen(),
                files.patches_seen(old(node).patches@.len()),
            ),
        ),
        final(node)@ == (NodeView { source_id: Some(r.0@), ..old(node)@ }),
        old(node).wf() ==> final(node).wf(),
        r.1@ == identity_of(old(node)@, r.0@, *ctx, build_ids(refs_view(deps@))),
{
    let source_id = HashCalculator::calculate_source_id(node, files);
    node.source_id = Some(source_id.clone());
    let ids = ids_of(deps);
    let plain_id = HashCalculator::calculate_build_id(node, files, &ctx.target, &ctx.host, &ids);
    (source_id, plain_id)
}

fn refs<'a>(nodes: &'a [DependencyNode]) -> (r: Vec<&'a DependencyNode>)
    ensures
        refs_view(r@) == nodes_view(nodes@),
{
    let mut out: Vec<&'a DependencyNode> = Vec::new();
    let mut i: usize = 0;
    while i < nodes.len()
        invariant
            i <= nodes@.len(),
            out@.len() == i,
            forall|j: int| 0 <= j < i ==> *(#[trigger] out@[j]) == nodes@[j],
        decreases nodes@.len() - i,
    {
        let node: &'a DependencyNode = &nodes[i];
        out.push(node);
        i = i + 1;
    }
    assert(refs_view(out@) =~= nodes_view(nodes@));
    out
}

/// Settles the identity of the build of a package, now that what its own manifest pulled in is
/// known, and with it where the build goes.
pub fn settle(
    node: &mut DependencyNode,
    source_id: &str,
    ctx: &BuildContext,
    storage: &StorageManager,
    deps: &[&DependencyNode],
    nested: &[DependencyNode],
) -> (r: (String, Places))
    requires
        opt_view(old(node).source_id) == Some(source_id@),
    ensures
        r.0@ == identity_of(
            old(node)@,
            source_id@,
            *ctx,
            all_ids(refs_view(deps@), nodes_view(nested@)),
        ),
        r.1.names(*storage, old(node)@.name, r.0@),
        final(node)@ == (NodeView {
            build_id: Some(r.0@),
            install_prefix: Some(r.1.install_dir@),
            ..old(node)@
        }),
        old(node).wf() ==> final(node).wf(),
{
    let mut ids = ids_of(deps);
    let pulled = refs(nested);
    let mut more = ids_of(&pulled);
    let ghost a = ids@;
    let ghost b = more@;
    ids.append(&mut more);
    assert(strs(ids@) =~= strs(a) + strs(b));
    let files = SourceFiles::none();
    let build_id = HashCalculator::calculate_build_id(node, &files, &ctx.target, &ctx.host, &ids);
    let places = Places::new(storage, node.name.as_str(), build_id.as_str());
    let prefix = places.install_dir.clone();
    mark_built(node, build_id.clone(), prefix);
    (build_id, places)
}

/// Takes the build that is on record for a package, with what its own manifest pulled in.
pub fn reuse(node: &mut DependencyNode, storage: &StorageManager, record: Resolution) -> (r: Vec<
    DependencyNode,
>)
    ensures
        r == record.nested,
        final(node)@ == (NodeView {
            build_id: Some(record.build_id@),
            install_prefix: Some(
                path_join(
                    storage.dir("installed"@),
                    old(node)@.name + "-"@ + record.build_id@,
                ),
            ),
            ..old(node)@
        }),
        old(node).wf() ==> final(node).wf(),
{
    let places = Places::new(storage, node.name.as_str(), record.build_id.as_str());
    mark_built(node, record.build_id, places.install_dir);
    record.nested
}

/// A package whose own manifest pulls in nothing has the identity that was known before its source
/// was fetched.
pub proof fn without_nested_packages_the_identity_is_plain(
    n: NodeView,
    source_id: Seq<char>,
    ctx: BuildContext,
    needs: Seq<NodeView>,
)
    ensures
        identity_of(n, source_id, ctx, all_ids(needs, Seq::empty())) == identity_of(
            n,
            source_id,
            ctx,
            build_ids(needs),
        ),
{
    assert(all_ids(needs, Seq::empty()) =~= build_ids(needs));
}

proof fn lemma_build_ids(before: Seq<NodeView>, n: NodeView, after: Seq<NodeView>)
    requires
        n.build_id is Some,
    ensures
        build_ids(before.push(n) + after) == build_ids(before).push(n.build_id->0) + build_ids(
            after,
        ),
    decreases after.len(),
{
    let all = before.push(n) + after;
    if after.len() == 0 {
        assert(all =~= before.push(n));
        assert(before.push(n).drop_last() =~= before);
        assert(build_ids(before).push(n.build_id->0) + build_ids(after) =~= build_ids(before).push(
            n.build_id->0,
        ));
    } else {
        lemma_build_ids(before, n, after.drop_last());
        assert(all.drop_last() =~= before.push(n) + after.drop_last());
        assert(all.last() == after.last());
        let head = build_ids(before).push(n.build_id->0);
        match after.last().build_id {
            Some(id) => {
                assert(head + build_ids(after.drop_last()).push(id) =~= (head + build_ids(
                    after.drop_last(),
                )).push(id));
            },
            None => {},
        }
    }
}

/// Another build of a package that is needed, however indirectly, is another build of the package
/// that needs it.
pub proof fn another_build_of_a_need_shows(
    n: NodeView,
    source_id: Seq<char>,
    ctx: BuildContext,
    before: Seq<NodeView>,
    a: NodeView,
    b: NodeView,
    after: Seq<NodeView>,
    nested: Seq<NodeView>,
)
    requires
        a.build_id is Some,
        b.build_id is Some,
        a.build_id != b.build_id,
    ensures
        encode_utf8(
            build_text(
                n,
                source_id,
                ctx.target@,
                ctx.host@,
                all_ids(before.push(a) + after, nested),
            ),
        ) != encode_utf8(
            build_text(
                n,
                source_id,
                ctx.target@,
                ctx.host@,
                all_ids(before.push(b) + after, nested),
            ),
        ),
{
    lemma_build_ids(before, a, after);
    lemma_build_ids(before, b, after);
    let front = build_ids(before);
    let back = build_ids(after) + build_ids(nested);
    assert(all_ids(before.push(a) + after, nested) =~= front.push(a.build_id->0) + back);
    assert(all_ids(before.push(b) + after, nested) =~= front.push(b.build_id->0) + back);
    dependencies_separate_builds(
        n,
        source_id,
        ctx.target@,
        ctx.host@,
        front,
        a.build_id->0,
        b.build_id->0,
        back,
    );
}

/// Another build of a package that the own manifest of a package pulls in is another build of that
/// package.
pub proof fn another_build_of_a_nested_package_shows(
    n: NodeView,
    source_id: Seq<char>,
    ctx: BuildContext,
    needs: Seq<NodeView>,
    before: Seq<NodeView>,
    a: NodeView,
    b: NodeView,
    after: Seq<NodeView>,
)
    requires
        a.build_id is Some,
        b.build_id is Some,
        a.build_id != b.build_id,
    ensures
        encode_utf8(
            build_text(
                n,
                source_id,
                ctx.target@,
                ctx.host@,
                all_ids(needs, before.push(a) + after),
            ),
        ) != encode_utf8(
            build_text(
                n,
                source_id,
                ctx.target@,
                ctx.host@,
                all_ids(needs, before.push(b) + after),
            ),
        ),
{
    lemma_build_ids(before, a, after);
    lemma_build_ids(before, b, after);
    let front = build_ids(needs) + build_ids(before);
    let back = build_ids(after);
    assert(all_ids(needs, before.push(a) + after) =~= front.push(a.build_id->0) + back);
    assert(all_ids(needs, before.push(b) + after) =~= front.push(b.build_id->0) + back);
    dependencies_separate_builds(
        n,
        source_id,
        ctx.target@,
        ctx.host@,
        front,
        a.build_id->0,
        b.build_id->0,
        back,
    );
}

// ---------------------------------------------------------------------------
// Probes
// ---------------------------------------------------------------------------

/// Where the options of a package are asked for, and where the log of that goes.
#[derive(Debug)]
pub struct ProbePlaces {
    pub key: String,
    pub scratch: String,
    pub build_dir: String,
    pub install_dir: String,
    pub options_file: String,
    pub log: String,
}

impl ProbePlaces {
    /// The places for a package, named by its plain identity and the process, so that runs at the
    /// same time do not clear each other's directory.
    pub fn new(
        node: &DependencyNode,
        files: &SourceFiles,
        ctx: &BuildContext,
        storage: &StorageManager,
        deps: &[&DependencyNode],
        pid: u64,
    ) -> (r: Self)
        ensures
            r.key@ == identity_of(
                node@,
                crate::hash::source_id_of(node@, *files),
                *ctx,
                build_ids(refs_view(deps@)),
            ),
            ({
                let name = node@.name + "-probe-"@ + r.key@;
                &&& r.scratch@ == path_join(storage.scratch(), name + "-"@ + decimal(pid as nat))
                &&& r.build_dir@ == path_join(r.scratch@, "build"@)
                &&& r.install_dir@ == path_join(r.scratch@, name)
                &&& r.options_file@ == path_join(r.scratch@, "options.txt"@)
                &&& r.log@ == path_join(path_join(storage.dir("logs"@), name), "configure.log"@)
            }),
    {
        let ids = ids_of(deps);
        let key = HashCalculator::calculate_build_id(node, files, &ctx.target, &ctx.host, &ids);
        let name = cat3(node.name.as_str(), "-probe-", key.as_str());
        let number = decimal_text(pid);
        let dir = cat3(name.as_str(), "-", number.as_str());
        let scratch_dir = storage.scratch_dir();
        let scratch = join_path(scratch_dir.as_str(), dir.as_str());
        let logs = storage.logs_dir();
        let log_dir = join_path(logs.as_str(), name.as_str());
        ProbePlaces {
            build_dir: join_path(scratch.as_str(), "build"),
            install_dir: join_path(scratch.as_str(), name.as_str()),
            options_file: join_path(scratch.as_str(), "options.txt"),
            log: join_path(log_dir.as_str(), "configure.log"),
            key,
            scratch,
        }
    }
}

/// A package needs exactly the packages that its edges lead to, near and far.
pub proof fn what_a_package_needs(g: DependencyGraph, i: int, n: NodeView)
    ensures
        needs_of(g, i).contains(n) <==> exists|k: int|
            0 <= k < g.nodes@.len() && #[trigger] g.nodes@[k]@ == n && reaches(
                g.edges(),
                i,
                k,
                Direction::Outgoing,
            ),
{
    let reached = reached_from(g.edges(), i, Direction::Outgoing, g.nodes@.len());
    what_is_reached_from_a_package(g.edges(), i, Direction::Outgoing, g.nodes@.len());
    let all = needs_of(g, i);
    if all.contains(n) {
        let j = choose|j: int| 0 <= j < all.len() && all[j] == n;
        assert(reached.contains(reached[j]));
        assert(g.nodes@[reached[j]]@ == n);
    }
    if exists|k: int|
        0 <= k < g.nodes@.len() && #[trigger] g.nodes@[k]@ == n && reaches(
            g.edges(),
            i,
            k,
            Direction::Outgoing,
        ) {
        let k = choose|k: int|
            0 <= k < g.nodes@.len() && #[trigger] g.nodes@[k]@ == n && reaches(
                g.edges(),
                i,
                k,
                Direction::Outgoing,
            );
        assert(reached.contains(k));
        let j = choose|j: int| 0 <= j < reached.len() && reached[j] == k;
        assert(all[j] == n);
    }
}

/// The identity of a build counts the builds of what the package needs and of what is nested in it,
/// in this order.
pub proof fn a_build_counts_its_needs_and_what_is_nested(
    n: NodeView,
    source_id: Seq<char>,
    ctx: BuildContext,
    needs: Seq<NodeView>,
    nested: Seq<NodeView>,
)
    ensures
        identity_of(n, source_id, ctx, all_ids(needs, nested)) == id_of(
            encode_utf8(
                build_text(
                    n,
                    source_id,
                    ctx.target@,
                    ctx.host@,
                    build_ids(needs) + build_ids(nested),
                ),
            ),
        ),
{
}

} // verus!
