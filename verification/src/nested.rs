//! Manifests inside the sources of packages: what they pull in, and how that joins the packages of
//! the project.
use crate::graph::DependencyGraph;
use crate::node::{DependencyNode, NodeView};
use crate::path::{path_eq, same_path};
use crate::project::Project;
use crate::resolution::{is_recordable, nodes_view, stays_put};
use crate::strategy::strs;
use crate::table::{
    inserted, inserted_stays_ordered, lookup, lookup_after_insert, lookup_after_merge, merged,
    merged_stays_ordered, ordered, Table,
};
use crate::text::{
    cat2, cat4, cat7, cut, join, joined, lemma_cut_at, lemma_no_cut, lines, lines_of, opt_view,
    same, split_once, views,
};
use vstd::prelude::*;
use vstd::string::*;

verus! {

broadcast use vstd::string::group_string_axioms;

// ---------------------------------------------------------------------------
// Joining packages
// ---------------------------------------------------------------------------

/// The last package called `name`.
pub open spec fn last_named(nodes: Seq<NodeView>, name: Seq<char>) -> Option<NodeView>
    decreases nodes.len(),
{
    if nodes.len() == 0 {
        None
    } else if nodes.last().name == name {
        Some(nodes.last())
    } else {
        last_named(nodes.drop_last(), name)
    }
}

/// The nested packages that are kept: those whose name neither the project nor an earlier nested
/// package has.
pub open spec fn kept_nested(nested: Seq<NodeView>, direct: Seq<NodeView>) -> Seq<NodeView>
    decreases nested.len(),
{
    if nested.len() == 0 {
        seq![]
    } else {
        let so_far = kept_nested(nested.drop_last(), direct);
        let n = nested.last();
        if last_named(direct, n.name) is Some || last_named(so_far, n.name) is Some {
            so_far
        } else {
            so_far.push(n)
        }
    }
}

/// Whether two prefixes are the same.
pub open spec fn same_prefix(a: Option<Seq<char>>, b: Option<Seq<char>>) -> bool {
    match (a, b) {
        (Some(p), Some(q)) => same_path(p, q),
        (None, None) => true,
        _ => false,
    }
}

/// A prefix as it is shown.
pub open spec fn shown(p: Option<Seq<char>>) -> Seq<char> {
    match p {
        Some(q) => q,
        None => Seq::empty(),
    }
}

/// The package that is used in place of a nested one of the same name.
pub open spec fn used_instead(
    kept: Seq<NodeView>,
    direct: Seq<NodeView>,
    name: Seq<char>,
) -> Option<NodeView> {
    match last_named(direct, name) {
        Some(n) => Some(n),
        None => last_named(kept, name),
    }
}

/// The warnings for nested packages that are left out although they are other builds than those
/// that are used.
pub open spec fn nested_warnings(nested: Seq<NodeView>, direct: Seq<NodeView>) -> Seq<Seq<char>>
    decreases nested.len(),
{
    if nested.len() == 0 {
        seq![]
    } else {
        let so_far = nested_warnings(nested.drop_last(), direct);
        let n = nested.last();
        match used_instead(kept_nested(nested.drop_last(), direct), direct, n.name) {
            Some(used) => if same_prefix(used.install_prefix, n.install_prefix) {
                so_far
            } else {
                so_far.push(
                    "'"@ + n.name + "' is required by a nested unideps.toml as "@ + shown(
                        n.install_prefix,
                    ) + ", but "@ + shown(used.install_prefix)
                        + " is already used; keeping the latter"@,
                )
            },
            None => so_far,
        }
    }
}

fn position_named(nodes: &[DependencyNode], name: &str) -> (r: Option<usize>)
    ensures
        match r {
            Some(i) => i < nodes@.len() && last_named(nodes_view(nodes@), name@) == Some(
                nodes@[i as int]@,
            ),
            None => last_named(nodes_view(nodes@), name@) is None,
        },
{
    let ghost all = nodes_view(nodes@);
    let mut i: usize = nodes.len();
    assert(all.take(i as int) =~= all);
    while i > 0
        invariant
            i <= nodes@.len(),
            all == nodes_view(nodes@),
            last_named(all, name@) == last_named(all.take(i as int), name@),
        decreases i,
    {
        i = i - 1;
        assert(all.take(i + 1).drop_last() =~= all.take(i as int));
        assert(all.take(i + 1).last() == nodes@[i as int]@);
        if same(nodes[i].name.as_str(), name) {
            return Some(i);
        }
    }
    None
}

fn same_prefixes(a: &Option<String>, b: &Option<String>) -> (r: bool)
    ensures
        r == same_prefix(opt_view(*a), opt_view(*b)),
{
    match (a, b) {
        (Some(p), Some(q)) => path_eq(p.as_str(), q.as_str()),
        (None, None) => true,
        _ => false,
    }
}

fn show(p: &Option<String>) -> (r: &str)
    ensures
        r@ == shown(opt_view(*p)),
{
    match p {
        Some(q) => q.as_str(),
        None => {
            proof {
                reveal_strlit("");
                assert(""@ =~= Seq::<char>::empty());
            }
            ""
        },
    }
}

fn left_out(node: &DependencyNode, used: &DependencyNode) -> (r: Option<String>)
    ensures
        opt_view(r) == if same_prefix(used@.install_prefix, node@.install_prefix) {
            None
        } else {
            Some(
                "'"@ + node@.name + "' is required by a nested unideps.toml as "@ + shown(
                    node@.install_prefix,
                ) + ", but "@ + shown(used@.install_prefix)
                    + " is already used; keeping the latter"@,
            )
        },
{
    if same_prefixes(&used.install_prefix, &node.install_prefix) {
        None
    } else {
        Some(
            cat7(
                "'",
                node.name.as_str(),
                "' is required by a nested unideps.toml as ",
                show(&node.install_prefix),
                ", but ",
                show(&used.install_prefix),
                " is already used; keeping the latter",
            ),
        )
    }
}

/// The packages of a project and of the manifests in their sources, the nested ones first, and the
/// warnings for nested ones that are left out. A package that the project declares wins over a
/// nested one of that name, and of nested ones the first wins, so that each appears once.
pub fn merge_nested(nested: Vec<DependencyNode>, direct: Vec<DependencyNode>) -> (r: (
    Vec<DependencyNode>,
    Vec<String>,
))
    ensures
        nodes_view(r.0@) == kept_nested(nodes_view(nested@), nodes_view(direct@)) + nodes_view(
            direct@,
        ),
        views(r.1@) == nested_warnings(nodes_view(nested@), nodes_view(direct@)),
{
    let mut direct = direct;
    let mut kept: Vec<DependencyNode> = Vec::new();
    let mut warnings: Vec<String> = Vec::new();
    let ghost all = nodes_view(nested@);
    let ghost own = nodes_view(direct@);
    let mut i: usize = 0;
    proof {
        assert(all.take(0) =~= Seq::<NodeView>::empty());
        assert(nodes_view(kept@) =~= Seq::<NodeView>::empty());
        assert(views(warnings@) =~= Seq::<Seq<char>>::empty());
    }
    while i < nested.len()
        invariant
            i <= nested@.len(),
            all == nodes_view(nested@),
            own == nodes_view(direct@),
            nodes_view(kept@) == kept_nested(all.take(i as int), own),
            views(warnings@) == nested_warnings(all.take(i as int), own),
        decreases nested@.len() - i,
    {
        let node = &nested[i];
        assert(all.take(i + 1).drop_last() =~= all.take(i as int));
        assert(all.take(i + 1).last() == node@);
        let ghost before = views(warnings@);
        let ghost kept_before = nodes_view(kept@);
        let warning = match position_named(&direct, node.name.as_str()) {
            Some(k) => left_out(node, &direct[k]),
            None => match position_named(&kept, node.name.as_str()) {
                Some(k) => left_out(node, &kept[k]),
                None => {
                    let copy = node.clone();
                    kept.push(copy);
                    assert(nodes_view(kept@) =~= kept_before.push(node@));
                    None
                },
            },
        };
        if let Some(w) = warning {
            warnings.push(w);
            assert(views(warnings@) =~= before.push(w@));
        }
        i = i + 1;
    }
    assert(all.take(i as int) =~= all);
    let ghost first = kept@;
    let ghost second = direct@;
    kept.append(&mut direct);
    assert(nodes_view(kept@) =~= nodes_view(first) + nodes_view(second));
    (kept, warnings)
}

/// Whether no two packages have the same name.
pub open spec fn names_differ(nodes: Seq<NodeView>) -> bool {
    forall|i: int, j: int|
        0 <= i < j < nodes.len() ==> (#[trigger] nodes[i]).name != (#[trigger] nodes[j]).name
}

proof fn lemma_last_named(nodes: Seq<NodeView>, name: Seq<char>)
    ensures
        last_named(nodes, name) is None <==> (forall|i: int|
            0 <= i < nodes.len() ==> (#[trigger] nodes[i]).name != name),
    decreases nodes.len(),
{
    if nodes.len() > 0 {
        let before = nodes.drop_last();
        lemma_last_named(before, name);
        assert(nodes.last() == nodes[nodes.len() - 1]);
        if nodes.last().name != name {
            if last_named(before, name) is None {
                assert forall|i: int| 0 <= i < nodes.len() implies (#[trigger] nodes[i]).name
                    != name by {
                    if i < before.len() {
                        assert(before[i].name != name);
                    }
                }
            } else {
                let i = choose|i: int| 0 <= i < before.len() && (#[trigger] before[i]).name == name;
                assert(nodes[i].name == name);
            }
        }
    }
}

proof fn lemma_kept(nested: Seq<NodeView>, direct: Seq<NodeView>)
    ensures
        names_differ(kept_nested(nested, direct)),
        forall|i: int, j: int|
            0 <= i < kept_nested(nested, direct).len() && 0 <= j < direct.len() ==> (
            #[trigger] kept_nested(nested, direct)[i]).name != (#[trigger] direct[j]).name,
    decreases nested.len(),
{
    if nested.len() > 0 {
        let so_far = kept_nested(nested.drop_last(), direct);
        let n = nested.last();
        lemma_kept(nested.drop_last(), direct);
        lemma_last_named(direct, n.name);
        lemma_last_named(so_far, n.name);
        let now = kept_nested(nested, direct);
        if last_named(direct, n.name) is None && last_named(so_far, n.name) is None {
            assert(now == so_far.push(n));
            assert forall|i: int, j: int| 0 <= i < j < now.len() implies (#[trigger] now[i]).name
                != (#[trigger] now[j]).name by {
                assert(now[i] == so_far[i]);
                if j < so_far.len() {
                    assert(now[j] == so_far[j]);
                }
            }
        }
    }
}

/// Each package appears once where the project itself names none twice.
pub proof fn each_package_appears_once(nested: Seq<NodeView>, direct: Seq<NodeView>)
    requires
        names_differ(direct),
    ensures
        names_differ(kept_nested(nested, direct) + direct),
{
    lemma_kept(nested, direct);
    let k = kept_nested(nested, direct);
    let all = k + direct;
    assert forall|i: int, j: int| 0 <= i < j < all.len() implies (#[trigger] all[i]).name != (
    #[trigger] all[j]).name by {
        if j < k.len() {
            assert(all[i] == k[i] && all[j] == k[j]);
        } else if i < k.len() {
            assert(all[i] == k[i] && all[j] == direct[j - k.len()]);
        } else {
            assert(all[i] == direct[i - k.len()] && all[j] == direct[j - k.len()]);
        }
    }
}

/// A package that the project declares is the one that is used, whatever nested manifests ask for.
pub proof fn declared_packages_win(nested: Seq<NodeView>, direct: Seq<NodeView>, i: int, j: int)
    requires
        0 <= i < (kept_nested(nested, direct) + direct).len(),
        0 <= j < direct.len(),
        (kept_nested(nested, direct) + direct)[i].name == direct[j].name,
    ensures
        i >= kept_nested(nested, direct).len(),
{
    lemma_kept(nested, direct);
    if i < kept_nested(nested, direct).len() {
        assert(kept_nested(nested, direct)[i].name != direct[j].name);
    }
}

/// Of nested packages with one name the first is kept: one more of that name changes nothing.
pub proof fn the_first_nested_package_wins(
    nested: Seq<NodeView>,
    direct: Seq<NodeView>,
    n: NodeView,
    i: int,
)
    requires
        0 <= i < nested.len(),
        nested[i].name == n.name,
    ensures
        kept_nested(nested.push(n), direct) == kept_nested(nested, direct),
{
    lemma_kept_or_direct(nested, direct, i);
    assert(nested.push(n).drop_last() =~= nested);
}

proof fn lemma_kept_or_direct(nested: Seq<NodeView>, direct: Seq<NodeView>, i: int)
    requires
        0 <= i < nested.len(),
    ensures
        last_named(direct, nested[i].name) is Some || last_named(
            kept_nested(nested, direct),
            nested[i].name,
        ) is Some,
    decreases nested.len(),
{
    let so_far = kept_nested(nested.drop_last(), direct);
    let now = kept_nested(nested, direct);
    let n = nested.last();
    if i < nested.len() - 1 {
        lemma_kept_or_direct(nested.drop_last(), direct, i);
        if now != so_far {
            assert(now == so_far.push(n));
            assert(now.drop_last() =~= so_far);
        }
    } else if last_named(direct, n.name) is None && last_named(so_far, n.name) is None {
        assert(now == so_far.push(n));
        assert(now.last() == n);
    }
}

// ---------------------------------------------------------------------------
// Building a nested manifest
// ---------------------------------------------------------------------------

/// The manifest in a source.
pub const MANIFEST_NAME: &'static str = "unideps.toml";

/// The message for nested manifests that depend on each other.
pub open spec fn nested_cycle_message(names: Seq<Seq<char>>) -> Seq<char> {
    "Nested unideps.toml files depend on each other: "@ + joined(names, " -> "@)
}

/// Whether a source is among those whose nested manifests are being built.
pub open spec fn is_being_built(stack: Seq<(String, String)>, source_id: Seq<char>) -> bool {
    exists|i: int| 0 <= i < stack.len() && (#[trigger] stack[i]).1@ == source_id
}

/// The names of the packages whose nested manifests are being built, the outermost first.
pub open spec fn stack_names(stack: Seq<(String, String)>) -> Seq<Seq<char>> {
    stack.map_values(|e: (String, String)| e.0@)
}

/// Why the nested manifest of a package cannot be built: its source is one of those whose nested
/// manifests are being built, each listed with its name and its identity.
pub fn nested_cycle(stack: &[(String, String)], name: &str, source_id: &str) -> (r: Option<String>)
    ensures
        opt_view(r) == if is_being_built(stack@, source_id@) {
            Some(nested_cycle_message(stack_names(stack@).push(name@)))
        } else {
            None
        },
{
    let mut found = false;
    let mut names: Vec<String> = Vec::new();
    let mut i: usize = 0;
    while i < stack.len()
        invariant
            i <= stack@.len(),
            names@.len() == i,
            forall|k: int| 0 <= k < i ==> (#[trigger] names@[k])@ == stack@[k].0@,
            found == (exists|k: int| 0 <= k < i && (#[trigger] stack@[k]).1@ == source_id@),
        decreases stack@.len() - i,
    {
        if same(stack[i].1.as_str(), source_id) {
            found = true;
            assert(stack@[i as int].1@ == source_id@);
        }
        let n = stack[i].0.clone();
        names.push(n);
        i = i + 1;
    }
    if !found {
        return None;
    }
    let last = name.to_owned();
    names.push(last);
    assert(views(names@) =~= stack_names(stack@).push(name@));
    let chain = join(&names, " -> ");
    Some(cat2("Nested unideps.toml files depend on each other: ", chain.as_str()))
}

/// Whether a package of the graph is enabled by an option, so that the options of the package that
/// holds the manifest are asked for.
pub fn needs_options(graph: &DependencyGraph) -> (r: bool)
    ensures
        r == exists|i: int|
            0 <= i < graph.nodes@.len() && (#[trigger] graph.nodes@[i]).enabled_if is Some,
{
    let mut i: usize = 0;
    while i < graph.nodes.len()
        invariant
            i <= graph.nodes@.len(),
            forall|k: int| 0 <= k < i ==> (#[trigger] graph.nodes@[k]).enabled_if is None,
        decreases graph.nodes@.len() - i,
    {
        if graph.nodes[i].enabled_if.is_some() {
            return true;
        }
        i = i + 1;
    }
    false
}

/// The options that a package with a nested manifest has: those that it declares itself, then what
/// the rules say, then what it is configured with.
pub fn nested_options(probed: Table<String>, node: &DependencyNode) -> (r: Table<String>)
    ensures
        r.texts() == merged(
            merged(probed.texts(), node@.config.cmake_options),
            node@.cmake_options,
        ),
        probed.wf() ==> r.wf(),
{
    let mut out = probed;
    out.merge(&node.config.cmake_options);
    out.merge(&node.cmake_options);
    out
}

/// The options in lines of the form `KEY=VALUE`.
pub open spec fn options_in_lines(ls: Seq<Seq<char>>) -> Seq<(Seq<char>, Seq<char>)>
    decreases ls.len(),
{
    if ls.len() == 0 {
        seq![]
    } else {
        match cut(ls.last(), "="@) {
            Some((k, v)) => inserted(options_in_lines(ls.drop_last()), k, v),
            None => options_in_lines(ls.drop_last()),
        }
    }
}

/// The options that a package wrote out, one to a line.
pub fn read_options(content: &str) -> (r: Table<String>)
    ensures
        r.texts() == options_in_lines(lines_of(content@)),
        r.wf(),
{
    let all_lines = lines(content);
    let ghost all = views(all_lines@);
    let mut out: Table<String> = Table::new();
    let mut i: usize = 0;
    proof {
        assert(all.take(0) =~= Seq::<Seq<char>>::empty());
        assert(out.texts() =~= Seq::<(Seq<char>, Seq<char>)>::empty());
    }
    while i < all_lines.len()
        invariant
            i <= all_lines@.len(),
            all == views(all_lines@),
            out.texts() == options_in_lines(all.take(i as int)),
            out.wf(),
        decreases all_lines@.len() - i,
    {
        assert(all.take(i + 1).drop_last() =~= all.take(i as int));
        assert(all.take(i + 1).last() == all_lines@[i as int]@);
        if let Some((k, v)) = split_once(all_lines[i].as_str(), "=") {
            out.set_text(k, v);
        }
        i = i + 1;
    }
    assert(all.take(i as int) =~= all);
    out
}

/// The warning for a package whose options could not be read.
pub fn unread_options(name: &str, log: &str) -> (r: String)
    ensures
        r@ == "could not read the options of '"@ + name@
            + "', so its optional dependencies (`enabled_if`) are treated as disabled. Does its cmake/unideps.cmake support nested builds (update it) and does the configure reach unideps_setup()? Log: "@
            + log@,
{
    cat4(
        "could not read the options of '",
        name,
        "', so its optional dependencies (`enabled_if`) are treated as disabled. Does its cmake/unideps.cmake support nested builds (update it) and does the configure reach unideps_setup()? Log: ",
        log,
    )
}

/// What is told of an error in the nested manifest of a package.
pub fn in_nested_manifest(name: &str, cause: &str) -> (r: String)
    ensures
        r@ == "In the nested unideps.toml of '"@ + name@ + "': "@ + cause@,
{
    cat4("In the nested unideps.toml of '", name, "': ", cause)
}

/// The identities of builds, of those packages that have one.
pub open spec fn build_ids(nodes: Seq<NodeView>) -> Seq<Seq<char>>
    decreases nodes.len(),
{
    if nodes.len() == 0 {
        seq![]
    } else {
        match nodes.last().build_id {
            Some(id) => build_ids(nodes.drop_last()).push(id),
            None => build_ids(nodes.drop_last()),
        }
    }
}

/// Packages that are referred to, as views.
pub open spec fn refs_view(v: Seq<&DependencyNode>) -> Seq<NodeView> {
    v.map_values(|n: &DependencyNode| n@)
}

/// The identities of the builds that a package needs.
pub fn ids_of<'a>(nodes: &[&'a DependencyNode]) -> (r: Vec<&'a str>)
    ensures
        strs(r@) == build_ids(refs_view(nodes@)),
{
    let mut out: Vec<&'a str> = Vec::new();
    let ghost all = refs_view(nodes@);
    let mut i: usize = 0;
    proof {
        assert(all.take(0) =~= Seq::<NodeView>::empty());
        assert(strs(out@) =~= Seq::<Seq<char>>::empty());
    }
    while i < nodes.len()
        invariant
            i <= nodes@.len(),
            all == refs_view(nodes@),
            strs(out@) == build_ids(all.take(i as int)),
        decreases nodes@.len() - i,
    {
        let node: &'a DependencyNode = nodes[i];
        assert(all.take(i + 1).drop_last() =~= all.take(i as int));
        assert(all.take(i + 1).last() == node@);
        if let Some(id) = &node.build_id {
            let ghost before = strs(out@);
            out.push(id.as_str());
            assert(strs(out@) =~= before.push(id@));
        }
        i = i + 1;
    }
    assert(all.take(i as int) =~= all);
    out
}

/// Whether what a manifest resolved to may be remembered: every package that it pulled in stays
/// the same in every run, and none is a tool of the machine.
pub fn may_record(project: &Project, nested: &[DependencyNode]) -> (r: bool)
    ensures
        r == forall|i: int|
            0 <= i < nested@.len() ==> stays_put((#[trigger] nested@[i])@) && project.local_tool(
                nested@[i].name@,
            ) is None,
{
    let mut i: usize = 0;
    while i < nested.len()
        invariant
            i <= nested@.len(),
            forall|k: int|
                0 <= k < i ==> stays_put((#[trigger] nested@[k])@) && project.local_tool(
                    nested@[k].name@,
                ) is None,
        decreases nested@.len() - i,
    {
        if !is_recordable(&nested[i]) || project.local_tool_path(
            nested[i].name.as_str(),
        ).is_some() {
            return false;
        }
        i = i + 1;
    }
    true
}

// ---------------------------------------------------------------------------
// What is promised of nested manifests
// ---------------------------------------------------------------------------

proof fn lemma_last_named_is_there(nodes: Seq<NodeView>, name: Seq<char>)
    ensures
        last_named(nodes, name) matches Some(n) ==> n.name == name && nodes.contains(n),
        last_named(nodes, name) is Some <==> exists|i: int|
            0 <= i < nodes.len() && (#[trigger] nodes[i]).name == name,
    decreases nodes.len(),
{
    if nodes.len() > 0 {
        assert(nodes[nodes.len() - 1] == nodes.last());
        let init = nodes.drop_last();
        lemma_last_named_is_there(init, name);
        if nodes.last().name != name {
            if let Some(n) = last_named(init, name) {
                let i = choose|i: int| 0 <= i < init.len() && init[i] == n;
                assert(nodes[i] == n);
                assert(nodes[i].name == name);
            }
            if exists|i: int| 0 <= i < nodes.len() && (#[trigger] nodes[i]).name == name {
                let i = choose|i: int| 0 <= i < nodes.len() && (#[trigger] nodes[i]).name == name;
                assert(init[i].name == name);
            }
        }
    }
}

/// A package of a nested manifest joins those of the project unless the project declares one of
/// that name or an earlier nested package has it. Where the one that is used lies elsewhere, that
/// is warned of.
pub proof fn a_nested_package_joins_where_its_name_is_free(
    nested: Seq<NodeView>,
    direct: Seq<NodeView>,
    n: NodeView,
)
    ensures
        ({
            let declared = exists|i: int|
                0 <= i < direct.len() && (#[trigger] direct[i]).name == n.name;
            let kept = kept_nested(nested, direct);
            let joined_before = exists|i: int|
                0 <= i < kept.len() && (#[trigger] kept[i]).name == n.name;
            let all = kept_nested(nested.push(n), direct);
            let warnings = nested_warnings(nested, direct);
            let more = nested_warnings(nested.push(n), direct);
            &&& !declared && !joined_before ==> all == kept.push(n) && more == warnings
            &&& declared || joined_before ==> all == kept
            &&& declared || joined_before ==> exists|used: NodeView| #![trigger used.name]
                used.name == n.name && (direct.contains(used) || kept.contains(used)) && (
                declared ==> direct.contains(used)) && more == if same_prefix(
                    used.install_prefix,
                    n.install_prefix,
                ) {
                    warnings
                } else {
                    warnings.push(
                        "'"@ + n.name + "' is required by a nested unideps.toml as "@ + shown(
                            n.install_prefix,
                        ) + ", but "@ + shown(used.install_prefix)
                            + " is already used; keeping the latter"@,
                    )
                }
        }),
{
    let kept = kept_nested(nested, direct);
    let all = nested.push(n);
    assert(all.drop_last() =~= nested);
    assert(all.last() == n);
    lemma_last_named_is_there(direct, n.name);
    lemma_last_named_is_there(kept, n.name);
    if let Some(used) = used_instead(kept, direct, n.name) {
        assert(used.name == n.name);
    }
}

/// Two packages lie in the same place where their prefixes are the same path; a package without a
/// prefix lies with others without one.
pub proof fn packages_in_the_same_place(p: Seq<char>, q: Seq<char>)
    ensures
        same_prefix(Some(p), Some(q)) <==> same_path(p, q),
        !same_prefix(Some(p), None),
        !same_prefix(None, Some(q)),
        same_prefix(None, None),
        shown(Some(p)) == p,
        shown(None).len() == 0,
{
}

/// Nested manifests that lead back to themselves are reported with the names on the way.
pub proof fn a_nested_cycle_is_reported_with_its_names(
    stack: Seq<(String, String)>,
    id: Seq<char>,
    names: Seq<Seq<char>>,
)
    ensures
        nested_cycle_message(names) == "Nested unideps.toml files depend on each other: "@ + joined(
            names,
            " -> "@,
        ),
        is_being_built(stack, id) <==> exists|i: int|
            0 <= i < stack.len() && (#[trigger] stack[i]).1@ == id,
        stack_names(stack).len() == stack.len(),
        forall|i: int| 0 <= i < stack.len() ==> #[trigger] stack_names(stack)[i] == stack[i].0@,
{
}

/// What a package declares itself wins over what the rules say, and that over what it was probed
/// for.
pub proof fn the_options_of_a_nested_project(
    probed: Seq<(Seq<char>, Seq<char>)>,
    rules: Seq<(Seq<char>, Seq<char>)>,
    own: Seq<(Seq<char>, Seq<char>)>,
    key: Seq<char>,
)
    requires
        ordered(probed),
        ordered(rules),
        ordered(own),
    ensures
        lookup(merged(merged(probed, rules), own), key) == if lookup(own, key) is Some {
            lookup(own, key)
        } else if lookup(rules, key) is Some {
            lookup(rules, key)
        } else {
            lookup(probed, key)
        },
{
    merged_stays_ordered(probed, rules);
    lookup_after_merge(probed, rules, key);
    lookup_after_merge(merged(probed, rules), own, key);
}

proof fn lemma_line_options_ordered(ls: Seq<Seq<char>>)
    ensures
        ordered(options_in_lines(ls)),
    decreases ls.len(),
{
    if ls.len() > 0 {
        lemma_line_options_ordered(ls.drop_last());
        if let Some((k, v)) = cut(ls.last(), "="@) {
            inserted_stays_ordered(options_in_lines(ls.drop_last()), k, v);
        }
    }
}

/// A line `KEY=VALUE` sets an option, a later one over an earlier one; a line without `=` sets
/// nothing.
pub proof fn a_line_sets_an_option(
    ls: Seq<Seq<char>>,
    k: Seq<char>,
    v: Seq<char>,
    other: Seq<char>,
)
    requires
        !k.contains('='),
    ensures
        lookup(options_in_lines(ls.push(k + "="@ + v)), k) == Some(v),
        other != k ==> lookup(options_in_lines(ls.push(k + "="@ + v)), other) == lookup(
            options_in_lines(ls),
            other,
        ),
        options_in_lines(ls.push(k)) == options_in_lines(ls),
        options_in_lines(Seq::empty()).len() == 0,
{
    reveal_strlit("=");
    assert("="@ =~= seq!['=']);
    let a = ls.push(k + "="@ + v);
    assert(a.drop_last() =~= ls);
    assert(a.last() == k + "="@ + v);
    lemma_cut_at(k, '=', v);
    lemma_line_options_ordered(ls);
    lookup_after_insert(options_in_lines(ls), k, v, other);
    lookup_after_insert(options_in_lines(ls), k, v, k);
    let b = ls.push(k);
    assert(b.drop_last() =~= ls);
    assert(b.last() == k);
    lemma_no_cut(k, '=');
}

/// The identities of builds are those of the packages that have one, in their order.
pub proof fn every_identity_counts(nodes: Seq<NodeView>, n: NodeView)
    ensures
        n.build_id is Some ==> build_ids(nodes.push(n)) == build_ids(nodes) + seq![n.build_id->0],
        n.build_id is None ==> build_ids(nodes.push(n)) == build_ids(nodes),
        build_ids(Seq::empty()).len() == 0,
{
    let all = nodes.push(n);
    assert(all.drop_last() =~= nodes);
    assert(all.last() == n);
    if n.build_id is Some {
        assert(build_ids(all) =~= build_ids(nodes) + seq![n.build_id->0]);
    }
}

} // verus!
