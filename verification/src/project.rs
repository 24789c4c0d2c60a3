//! A project: what its manifest and the machine's own configuration say together.
use crate::error::{error_message, CoreErrorView};
use crate::git::opt_str;
use crate::graph::{declared_twice_message, DependencyGraph};
use crate::manifest::{
    details_of, no_sysroot, spec_wf, tool_details_of, DependencyDetails, DependencySpec,
    DetailsView, LocalConfig, LocalStorageConfig, Manifest, SysrootView, TargetSysrootConfig,
    ToolRequirement,
};
use crate::node::{
    kind_text, node_of_dependency, node_of_tool, or_kept_list, or_kept_opt, overridden, put_opt,
    put_text, DependencyNode, NodeKind, NodeView,
};
use crate::path::{
    a_path_is_its_parent_and_its_name, components, components_of, is_name, join_path, opt_resolved,
    parent, parent_of, path_join, resolve_all, resolve_opt, resolve_relative, resolved,
    tail_trimmed,
};
use crate::recipe::{option_texts, Recipe, RecipeSource, RecipeView};
use crate::strategy::{
    flags_come_once, lacks_package, lacks_package_message, or_kept, push_missing, rule_views,
    with_flags, StrategyEngine,
};
use crate::table::{filled, lookup, lookup_after_fill, ordered, Table};
use crate::target::TargetTriple;
use crate::text::{
    after_prefix, cat2, cat3, cat4, cat7, chars_of, copy_list, copy_opt, opt_view, same,
    strip_prefix, text_of, to_uppercase, trim, trimmed, upper, views,
};
use vstd::prelude::*;
use vstd::string::*;
use vstd::utf8::is_ascii_chars;

verus! {

broadcast use vstd::string::group_string_axioms;

/// The ways in which a package can be built.
pub const SUPPORTED_STRATEGIES: [&'static str; 1] = ["cmake-install"];

/// The names in `SUPPORTED_STRATEGIES`, with a comma between neighbours.
pub open spec fn supported_text() -> Seq<char> {
    "cmake-install"@
}

// ---------------------------------------------------------------------------
// Recipes
// ---------------------------------------------------------------------------

/// A package with what its recipe says where the manifest is silent.
pub open spec fn with_recipe(
    n: NodeView,
    r: RecipeView,
    strategy_unset: bool,
    recipe_dir: Seq<char>,
) -> NodeView {
    let no_source = n.git is None && n.path is None;
    let takes_git = no_source && r.source.git is Some;
    NodeView {
        version: or_kept_opt(n.version, r.version),
        strategy: if strategy_unset {
            or_kept(r.strategy, n.strategy)
        } else {
            n.strategy
        },
        abi_ignores: with_flags(n.abi_ignores, r.abi_ignores),
        cmake_options: filled(n.cmake_options, option_texts(r.options)),
        import_name: or_kept_opt(n.import_name, r.import_name),
        include_dirs: or_kept_list(n.include_dirs, r.include_dirs),
        libraries: or_kept_list(n.libraries, r.libraries),
        binaries: or_kept_list(n.binaries, r.binaries),
        dependencies: or_kept_list(n.dependencies, r.dependencies),
        tools: or_kept_list(n.tools, r.tools),
        patches: or_kept_list(n.patches, resolved(recipe_dir, r.patches)),
        git: if takes_git {
            r.source.git
        } else {
            n.git
        },
        tag: if takes_git {
            or_kept_opt(n.tag, r.source.tag)
        } else {
            n.tag
        },
        branch: if takes_git {
            or_kept_opt(n.branch, r.source.branch)
        } else {
            n.branch
        },
        commit: if takes_git {
            or_kept_opt(n.commit, r.source.commit)
        } else {
            n.commit
        },
        path: if no_source && !takes_git {
            opt_resolved(recipe_dir, r.source.path)
        } else {
            n.path
        },
        ..n
    }
}

/// The directory of a recipe.
pub open spec fn dir_of(path: Seq<char>) -> Seq<char> {
    or_kept(parent_of(path), "."@)
}

fn keep_or_take(slot: &mut Option<String>, given: &Option<String>)
    ensures
        opt_view(*final(slot)) == or_kept_opt(opt_view(*old(slot)), opt_view(*given)),
{
    if slot.is_none() {
        *slot = copy_opt(given);
    }
}

fn keep_or_take_list(slot: &mut Vec<String>, given: &Vec<String>)
    ensures
        views(final(slot)@) == or_kept_list(views(old(slot)@), views(given@)),
{
    if slot.len() == 0 {
        *slot = copy_list(given);
        assert(views(old(slot)@).len() == 0);
        if slot.len() == 0 {
            assert(views(slot@) =~= views(old(slot)@));
        }
    }
}

fn take_source(node: &mut DependencyNode, source: &RecipeSource, recipe_dir: &str)
    ensures
        final(node)@ == ({
            let n = old(node)@;
            let no_source = n.git is None && n.path is None;
            let takes_git = no_source && source@.git is Some;
            NodeView {
                git: if takes_git {
                    source@.git
                } else {
                    n.git
                },
                tag: if takes_git {
                    or_kept_opt(n.tag, source@.tag)
                } else {
                    n.tag
                },
                branch: if takes_git {
                    or_kept_opt(n.branch, source@.branch)
                } else {
                    n.branch
                },
                commit: if takes_git {
                    or_kept_opt(n.commit, source@.commit)
                } else {
                    n.commit
                },
                path: if no_source && !takes_git {
                    opt_resolved(recipe_dir@, source@.path)
                } else {
                    n.path
                },
                ..n
            }
        }),
        old(node).wf() ==> final(node).wf(),
{
    if node.git.is_some() || node.path.is_some() {
        return;
    }
    if source.git.is_some() {
        node.git = copy_opt(&source.git);
        keep_or_take(&mut node.tag, &source.tag);
        keep_or_take(&mut node.branch, &source.branch);
        keep_or_take(&mut node.commit, &source.commit);
    } else {
        node.path = resolve_opt(recipe_dir, &source.path);
    }
}

/// Fills in what the manifest leaves open; what it says always wins over the recipe.
pub fn apply_recipe(
    node: &mut DependencyNode,
    rec: &Recipe,
    strategy_unset: bool,
    recipe_path: &str,
)
    ensures
        final(node)@ == with_recipe(old(node)@, rec@, strategy_unset, dir_of(recipe_path@)),
        old(node).wf() ==> final(node).wf(),
{
    let recipe_dir = match parent(recipe_path) {
        Some(d) => d,
        None => ".".to_owned(),
    };
    let options = rec.cmake_options();
    keep_or_take(&mut node.version, &rec.version);
    if strategy_unset {
        put_text(&mut node.strategy, &rec.strategy);
    }
    push_missing(&mut node.abi_ignores, &rec.abi_ignores);
    node.cmake_options.fill(&options);
    keep_or_take(&mut node.import_name, &rec.import_name);
    keep_or_take_list(&mut node.include_dirs, &rec.include_dirs);
    keep_or_take_list(&mut node.libraries, &rec.libraries);
    keep_or_take_list(&mut node.binaries, &rec.binaries);
    keep_or_take_list(&mut node.dependencies, &rec.dependencies);
    keep_or_take_list(&mut node.tools, &rec.tools);
    let patches = resolve_all(recipe_dir.as_str(), &rec.patches);
    keep_or_take_list(&mut node.patches, &patches);
    take_source(node, &rec.source, recipe_dir.as_str());
}

/// What the manifest says of a package wins over its recipe.
pub proof fn the_manifest_wins_over_the_recipe(
    n: NodeView,
    r: RecipeView,
    strategy_unset: bool,
    dir: Seq<char>,
    key: Seq<char>,
)
    requires
        ordered(n.cmake_options),
    ensures
        ({
            let m = with_recipe(n, r, strategy_unset, dir);
            &&& n.version is Some ==> m.version == n.version
            &&& !strategy_unset ==> m.strategy == n.strategy
            &&& lookup(n.cmake_options, key) is Some ==> lookup(m.cmake_options, key) == lookup(
                n.cmake_options,
                key,
            )
            &&& n.import_name is Some ==> m.import_name == n.import_name
            &&& n.include_dirs.len() > 0 ==> m.include_dirs == n.include_dirs
            &&& n.libraries.len() > 0 ==> m.libraries == n.libraries
            &&& n.binaries.len() > 0 ==> m.binaries == n.binaries
            &&& n.dependencies.len() > 0 ==> m.dependencies == n.dependencies
            &&& n.tools.len() > 0 ==> m.tools == n.tools
            &&& n.patches.len() > 0 ==> m.patches == n.patches
            &&& n.git is Some || n.path is Some ==> m.git == n.git && m.path == n.path && m.tag
                == n.tag && m.branch == n.branch && m.commit == n.commit
            &&& n.tag is Some ==> m.tag == n.tag
            &&& n.branch is Some ==> m.branch == n.branch
            &&& n.commit is Some ==> m.commit == n.commit
        }),
{
    lookup_after_fill(n.cmake_options, option_texts(r.options), key);
}

// ---------------------------------------------------------------------------
// Checks of single packages
// ---------------------------------------------------------------------------

/// `s` without a leading article, with a capital letter.
pub open spec fn capitalized(s: Seq<char>) -> Seq<char> {
    let t = or_kept(after_prefix(s, "a "@), s);
    if t.len() == 0 {
        seq![]
    } else {
        upper(t.take(1)) + t.skip(1)
    }
}

fn capitalize(s: &str) -> (r: String)
    ensures
        r@ == capitalized(s@),
{
    let t = match strip_prefix(s, "a ") {
        Some(t) => t,
        None => s.to_owned(),
    };
    let cs = chars_of(t.as_str());
    let n: usize = cs.len();
    if n == 0 {
        return String::new();
    }
    let first = text_of(&cs, 0, 1);
    let rest = text_of(&cs, 1, n);
    assert(cs@.subrange(0, 1) =~= t@.take(1));
    assert(cs@.subrange(1, n as int) =~= t@.skip(1));
    let up = to_uppercase(first.as_str());
    cat2(up.as_str(), rest.as_str())
}

/// The message for a package without a source.
pub open spec fn no_source_message(kind: NodeKind, name: Seq<char>) -> Seq<char> {
    capitalized(kind_text(kind)) + " '"@ + name
        + "' has no source: set `git` or `path` (or a `recipe` providing one). Version-only specs like `"@
        + name + " = \"1.0\"` need registries, which are not supported yet"@
}

/// The message for a package with a strategy that is not known.
pub open spec fn unknown_strategy_message(name: Seq<char>, strategy: Seq<char>) -> Seq<char> {
    "'"@ + name + "' uses unknown strategy '"@ + strategy + "' (supported: "@ + supported_text()
        + ")"@
}

/// What is wrong with the source or the strategy of a package.
pub open spec fn source_problem(n: NodeView) -> Option<Seq<char>> {
    if n.git is None && n.path is None {
        Some(no_source_message(n.kind, n.name))
    } else if n.strategy != "cmake-install"@ {
        Some(unknown_strategy_message(n.name, n.strategy))
    } else {
        None
    }
}

/// A problem, or none, as a view.
pub open spec fn problem(r: Result<(), String>) -> Option<Seq<char>> {
    match r {
        Ok(_) => None,
        Err(m) => Some(m@),
    }
}

/// A package needs a source and a strategy that is known.
pub fn validate_source(node: &DependencyNode) -> (r: Result<(), String>)
    ensures
        problem(r) == source_problem(node@),
{
    if node.git.is_none() && node.path.is_none() {
        let kind = capitalize(node.kind.describe());
        let head = cat4(
            kind.as_str(),
            " '",
            node.name.as_str(),
            "' has no source: set `git` or `path` (or a `recipe` providing one). Version-only specs like `",
        );
        return Err(
            cat3(
                head.as_str(),
                node.name.as_str(),
                " = \"1.0\"` need registries, which are not supported yet",
            ),
        );
    }
    if !same(node.strategy.as_str(), SUPPORTED_STRATEGIES[0]) {
        return Err(
            cat7(
                "'",
                node.name.as_str(),
                "' uses unknown strategy '",
                node.strategy.as_str(),
                "' (supported: ",
                SUPPORTED_STRATEGIES[0],
                ")",
            ),
        );
    }
    Ok(())
}

/// The first patch that is not among the files, if any.
pub open spec fn first_missing(patches: Seq<Seq<char>>, are_files: Seq<bool>) -> Option<Seq<char>>
    decreases patches.len(),
{
    if patches.len() == 0 {
        None
    } else {
        match first_missing(patches.drop_last(), are_files) {
            Some(p) => Some(p),
            None => if are_files[patches.len() - 1] {
                None
            } else {
                Some(patches.last())
            },
        }
    }
}

/// What is wrong with the files of a package, given whether its path is a directory and which of
/// its patches are files.
pub open spec fn files_problem(n: NodeView, path_is_dir: bool, are_files: Seq<bool>) -> Option<
    Seq<char>,
> {
    if n.path is Some && !path_is_dir {
        Some("Source path of '"@ + n.name + "' does not exist: "@ + n.path->0)
    } else {
        match first_missing(n.patches, are_files) {
            Some(p) => Some("Patch file of '"@ + n.name + "' not found: "@ + p),
            None => None,
        }
    }
}

/// Whether the source directory and the patch files of a package exist. This is asked when the
/// package is built: one that is filtered out may name paths of other machines.
pub fn check_files(node: &DependencyNode, path_is_dir: bool, patches_are_files: &[bool]) -> (r:
    Result<(), String>)
    requires
        patches_are_files@.len() == node.patches@.len(),
    ensures
        problem(r) == files_problem(node@, path_is_dir, patches_are_files@),
{
    if let Some(p) = &node.path {
        if !path_is_dir {
            return Err(
                cat4("Source path of '", node.name.as_str(), "' does not exist: ", p.as_str()),
            );
        }
    }
    let ghost all = views(node.patches@);
    let mut i: usize = 0;
    assert(all.take(0) =~= Seq::<Seq<char>>::empty());
    while i < node.patches.len()
        invariant
            i <= node.patches@.len(),
            patches_are_files@.len() == node.patches@.len(),
            all == views(node.patches@),
            node.path is Some ==> path_is_dir,
            first_missing(all.take(i as int), patches_are_files@) is None,
        decreases node.patches@.len() - i,
    {
        assert(all.take(i + 1).drop_last() =~= all.take(i as int));
        assert(all.take(i + 1).last() == node.patches@[i as int]@);
        if !patches_are_files[i] {
            proof {
                lemma_missing_stays(all, patches_are_files@, i + 1);
            }
            return Err(
                cat4(
                    "Patch file of '",
                    node.name.as_str(),
                    "' not found: ",
                    node.patches[i].as_str(),
                ),
            );
        }
        i = i + 1;
    }
    assert(all.take(i as int) =~= all);
    Ok(())
}

proof fn lemma_missing_stays(patches: Seq<Seq<char>>, are_files: Seq<bool>, i: int)
    requires
        0 <= i <= patches.len(),
        first_missing(patches.take(i), are_files) is Some,
    ensures
        first_missing(patches, are_files) == first_missing(patches.take(i), are_files),
    decreases patches.len() - i,
{
    if i < patches.len() {
        assert(patches.take(i + 1).drop_last() =~= patches.take(i));
        lemma_missing_stays(patches, are_files, i + 1);
    } else {
        assert(patches.take(i) =~= patches);
    }
}

// ---------------------------------------------------------------------------
// Declared packages
// ---------------------------------------------------------------------------

/// The kind of the first package called `name`.
pub open spec fn kind_named(nodes: Seq<NodeView>, name: Seq<char>) -> Option<NodeKind>
    decreases nodes.len(),
{
    if nodes.len() == 0 {
        None
    } else {
        match kind_named(nodes.drop_last(), name) {
            Some(k) => Some(k),
            None => if nodes.last().name == name {
                Some(nodes.last().kind)
            } else {
                None
            },
        }
    }
}

/// The kind under a name is that of a package of that name.
pub proof fn lemma_kind_named(nodes: Seq<NodeView>, name: Seq<char>)
    ensures
        match kind_named(nodes, name) {
            Some(k) => exists|i: int|
                0 <= i < nodes.len() && #[trigger] nodes[i].name == name && nodes[i].kind == k,
            None => forall|i: int| 0 <= i < nodes.len() ==> #[trigger] nodes[i].name != name,
        },
    decreases nodes.len(),
{
    if nodes.len() > 0 {
        let before = nodes.drop_last();
        lemma_kind_named(before, name);
        match kind_named(before, name) {
            Some(k) => {
                let i = choose|i: int|
                    0 <= i < before.len() && #[trigger] before[i].name == name && before[i].kind
                        == k;
                assert(nodes[i].name == name);
            },
            None => {
                assert forall|i: int|
                    0 <= i < nodes.len() && nodes.last().name != name implies #[trigger] nodes[i].name
                    != name by {
                    if i < before.len() {
                        assert(before[i].name != name);
                    }
                }
                assert(nodes[nodes.len() - 1] == nodes.last());
            },
        }
    }
}

/// In a graph the package that is found under a name is the one of that name.
pub proof fn lemma_kind_in_graph(g: DependencyGraph, name: Seq<char>)
    requires
        g.wf(),
    ensures
        kind_named(g.node_views(), name) == match g.index_of(name) {
            Some(i) => Some(g.nodes@[i as int].kind),
            None => None::<NodeKind>,
        },
{
    let nodes = g.node_views();
    assert(g.nodes.len() == g.nodes@.len());
    lemma_kind_named(nodes, name);
    match g.index_of(name) {
        Some(i) => {
            assert(nodes[i as int].name == name);
            let k = kind_named(nodes, name)->0;
            let j = choose|j: int|
                0 <= j < nodes.len() && #[trigger] nodes[j].name == name && nodes[j].kind == k;
            assert(g.nodes@[j].name@ == name);
            assert(g.index_of(g.nodes@[j].name@) == Some(j as usize));
        },
        None => {
            if kind_named(nodes, name) is Some {
                let k = kind_named(nodes, name)->0;
                let j = choose|j: int|
                    0 <= j < nodes.len() && #[trigger] nodes[j].name == name && nodes[j].kind == k;
                assert(g.index_of(g.nodes@[j].name@) == Some(j as usize));
            }
        },
    }
}

/// The packages after one more was declared: dependencies and tools share one namespace.
pub open spec fn with_declared(nodes: Seq<NodeView>, n: NodeView) -> Result<
    Seq<NodeView>,
    Seq<char>,
> {
    match kind_named(nodes, n.name) {
        Some(first) => Err(
            error_message(
                CoreErrorView::Manifest(declared_twice_message(n.name, first, n.kind)),
            ),
        ),
        None => Ok(nodes.push(n)),
    }
}

/// The packages that declarations give, or the error of the first that fails.
pub open spec fn all_declared(ds: Seq<Result<NodeView, Seq<char>>>) -> Result<
    Seq<NodeView>,
    Seq<char>,
>
    decreases ds.len(),
{
    if ds.len() == 0 {
        Ok(Seq::empty())
    } else {
        match all_declared(ds.drop_last()) {
            Err(m) => Err(m),
            Ok(nodes) => match ds.last() {
                Err(m) => Err(m),
                Ok(n) => with_declared(nodes, n),
            },
        }
    }
}

proof fn lemma_declared_error(ds: Seq<Result<NodeView, Seq<char>>>, i: int)
    requires
        0 <= i <= ds.len(),
        all_declared(ds.take(i)) is Err,
    ensures
        all_declared(ds) == all_declared(ds.take(i)),
    decreases ds.len() - i,
{
    if i < ds.len() {
        assert(ds.take(i + 1).drop_last() =~= ds.take(i));
        lemma_declared_error(ds, i + 1);
    } else {
        assert(ds.take(i) =~= ds);
    }
}

fn declare(graph: &mut DependencyGraph, node: DependencyNode) -> (r: Result<(), String>)
    requires
        old(graph).wf(),
        node.wf(),
        old(graph).nodes@.len() < u32::MAX,
    ensures
        final(graph).wf(),
        final(graph).edges() == old(graph).edges(),
        final(graph).nodes@.len() <= old(graph).nodes@.len() + 1,
        match with_declared(old(graph).node_views(), node@) {
            Ok(nodes) => r is Ok && final(graph).node_views() == nodes,
            Err(m) => r matches Err(e) && e@ == m,
        },
{
    proof {
        lemma_kind_in_graph(*graph, node.name@);
    }
    match graph.try_add_node(node) {
        Ok(_) => {
            assert(graph.node_views() =~= old(graph).node_views().push(node@));
            Ok(())
        },
        Err(e) => Err(e.message()),
    }
}

/// A tool as a package, its path seen from the manifest.
pub open spec fn tool_node(dir: Seq<char>, name: Seq<char>, req: ToolRequirement) -> NodeView {
    let n = node_of_tool(name, tool_details_of(req));
    NodeView { path: opt_resolved(dir, n.path), ..n }
}

/// A package, unless its source or its strategy is not in order.
pub open spec fn if_sound(n: NodeView) -> Result<NodeView, Seq<char>> {
    match source_problem(n) {
        Some(m) => Err(m),
        None => Ok(n),
    }
}

/// A package after an override whose paths are seen from the manifest.
pub open spec fn with_override(n: NodeView, ov: Option<DetailsView>, dir: Seq<char>) -> NodeView {
    match ov {
        None => n,
        Some(d) => {
            let m = overridden(n, d);
            NodeView {
                path: if d.path is Some {
                    opt_resolved(dir, m.path)
                } else {
                    m.path
                },
                patches: if d.patches.len() > 0 {
                    resolved(dir, m.patches)
                } else {
                    m.patches
                },
                ..m
            }
        },
    }
}

/// A dependency as a package, its paths seen from the manifest.
pub open spec fn plain_node(dir: Seq<char>, name: Seq<char>, d: DetailsView) -> NodeView {
    let n = node_of_dependency(name, d);
    NodeView { path: opt_resolved(dir, n.path), patches: resolved(dir, n.patches), ..n }
}

/// A recipe that was asked for, or why it could not be loaded, as views.
pub open spec fn recipe_answer(a: Option<Result<Recipe, String>>) -> Option<
    Result<RecipeView, Seq<char>>,
> {
    match a {
        None => None,
        Some(Ok(r)) => Some(Ok(r@)),
        Some(Err(m)) => Some(Err(m@)),
    }
}

/// What a dependency is declared as: first its recipe, then the overrides.
pub open spec fn declared_dependency(
    dir: Seq<char>,
    name: Seq<char>,
    d: DetailsView,
    recipe: Option<Result<RecipeView, Seq<char>>>,
    ov: Option<DetailsView>,
    local: Option<DetailsView>,
) -> Result<NodeView, Seq<char>> {
    match (d.recipe, recipe) {
        (Some(_), Some(Err(m))) => Err("Dependency '"@ + name + "': "@ + m),
        (Some(p), Some(Ok(r))) => if_sound(
            with_override(
                with_override(
                    with_recipe(
                        plain_node(dir, name, d),
                        r,
                        d.strategy is None,
                        dir_of(path_join(dir, p)),
                    ),
                    ov,
                    dir,
                ),
                local,
                dir,
            ),
        ),
        _ => if_sound(with_override(with_override(plain_node(dir, name, d), ov, dir), local, dir)),
    }
}

/// Details as a view, where there are any.
pub open spec fn opt_details(d: Option<DependencyDetails>) -> Option<DetailsView> {
    match d {
        Some(x) => Some(x@),
        None => None,
    }
}

#[derive(Debug)]
pub struct Project {
    pub manifest_dir: String,
    pub manifest: Manifest,
    pub local: Option<LocalConfig>,
}

impl Project {
    /// The tables have their keys in order, those of the packages too.
    pub open spec fn wf(&self) -> bool {
        &&& self.manifest.wf()
        &&& forall|i: int|
            0 <= i < self.manifest.dependencies.entries@.len() ==> spec_wf(
                (#[trigger] self.manifest.dependencies.entries@[i]).1,
            )
    }

    /// The override of the manifest for a package.
    pub open spec fn override_of(&self, name: Seq<char>) -> Option<DetailsView> {
        opt_details(lookup(self.manifest.overrides.pairs(), name))
    }

    /// The override of the machine for a package.
    pub open spec fn local_override_of(&self, name: Seq<char>) -> Option<DetailsView> {
        match self.local {
            Some(l) => opt_details(lookup(l.overrides.pairs(), name)),
            None => None,
        }
    }

    /// Where the machine has a tool of its own.
    pub open spec fn local_tool(&self, name: Seq<char>) -> Option<Seq<char>> {
        match self.local {
            Some(l) => opt_resolved(self.manifest_dir@, lookup(l.tools.texts(), name)),
            None => None,
        }
    }

    /// What the `i`th tool is declared as. One that the machine has needs no source.
    pub open spec fn declared_tool(&self, i: int) -> Result<NodeView, Seq<char>> {
        let (name, req) = self.manifest.tools.pairs()[i];
        let n = tool_node(self.manifest_dir@, name, req);
        if self.local_tool(name) is Some {
            Ok(n)
        } else {
            if_sound(n)
        }
    }

    /// What the `i`th dependency is declared as.
    pub open spec fn declared_dependency(
        &self,
        i: int,
        recipe: Option<Result<RecipeView, Seq<char>>>,
    ) -> Result<NodeView, Seq<char>> {
        let (name, spec) = self.manifest.dependencies.pairs()[i];
        declared_dependency(
            self.manifest_dir@,
            name,
            details_of(spec),
            recipe,
            self.override_of(name),
            self.local_override_of(name),
        )
    }

    /// Whether there is an answer for every recipe that a dependency asks for.
    pub open spec fn answered(&self, recipes: Seq<Option<Result<Recipe, String>>>) -> bool {
        &&& recipes.len() == self.manifest.dependencies.pairs().len()
        &&& forall|i: int|
            0 <= i < recipes.len() && details_of(
                self.manifest.dependencies.pairs()[i].1,
            ).recipe is Some ==> #[trigger] recipes[i] is Some
    }

    /// All declarations: the tools, then the dependencies.
    pub open spec fn declarations(&self, recipes: Seq<Option<Result<Recipe, String>>>) -> Seq<
        Result<NodeView, Seq<char>>,
    > {
        Seq::new(self.manifest.tools.pairs().len(), |i: int| self.declared_tool(i)) + Seq::new(
            self.manifest.dependencies.pairs().len(),
            |i: int| self.declared_dependency(i, recipe_answer(recipes[i])),
        )
    }

    /// The path of a tool that the machine has of its own.
    pub fn local_tool_path(&self, name: &str) -> (r: Option<String>)
        ensures
            opt_view(r) == self.local_tool(name@),
    {
        match &self.local {
            Some(l) => match l.tools.text(name) {
                Some(p) => Some(resolve_relative(self.manifest_dir.as_str(), p.as_str())),
                None => None,
            },
            None => None,
        }
    }

    fn resolve_override_paths(&self, node: &mut DependencyNode, ov: &DependencyDetails)
        ensures
            final(node)@ == (NodeView {
                path: if ov.path is Some {
                    opt_resolved(self.manifest_dir@, old(node)@.path)
                } else {
                    old(node)@.path
                },
                patches: if ov.patches@.len() > 0 {
                    resolved(self.manifest_dir@, old(node)@.patches)
                } else {
                    old(node)@.patches
                },
                ..old(node)@
            }),
            old(node).wf() ==> final(node).wf(),
    {
        if ov.path.is_some() {
            node.path = resolve_opt(self.manifest_dir.as_str(), &node.path);
        }
        if ov.patches.len() > 0 {
            node.patches = resolve_all(self.manifest_dir.as_str(), &node.patches);
        }
    }

    fn override_node(&self, node: &mut DependencyNode, ov: Option<&DependencyDetails>)
        ensures
            final(node)@ == with_override(
                old(node)@,
                match ov {
                    Some(d) => Some(d@),
                    None => None,
                },
                self.manifest_dir@,
            ),
            old(node).wf() ==> final(node).wf(),
    {
        if let Some(d) = ov {
            node.apply_override(d);
            self.resolve_override_paths(node, d);
        }
    }

    fn tool_from(&self, i: usize) -> (r: Result<DependencyNode, String>)
        requires
            i < self.manifest.tools.entries@.len(),
        ensures
            match r {
                Ok(n) => self.declared_tool(i as int) == Ok::<NodeView, Seq<char>>(n@) && n.wf(),
                Err(m) => self.declared_tool(i as int) == Err::<NodeView, Seq<char>>(m@),
            },
    {
        let entry = &self.manifest.tools.entries[i];
        assert(self.manifest.tools.pairs()[i as int] == (entry.0@, entry.1));
        let mut node = DependencyNode::from_host_tool(entry.0.as_str(), &entry.1);
        node.path = resolve_opt(self.manifest_dir.as_str(), &node.path);
        if self.local_tool_path(entry.0.as_str()).is_none() {
            match validate_source(&node) {
                Ok(_) => {},
                Err(m) => {
                    return Err(m);
                },
            }
        }
        Ok(node)
    }

    fn plain_from(&self, name: &str, spec: &DependencySpec) -> (r: DependencyNode)
        ensures
            r@ == plain_node(self.manifest_dir@, name@, details_of(*spec)),
            spec_wf(*spec) ==> r.wf(),
    {
        let mut node = DependencyNode::from_target_dep(name, spec);
        node.path = resolve_opt(self.manifest_dir.as_str(), &node.path);
        node.patches = resolve_all(self.manifest_dir.as_str(), &node.patches);
        node
    }

    fn add_recipe(
        &self,
        node: &mut DependencyNode,
        name: &str,
        spec: &DependencySpec,
        recipe: &Option<Result<Recipe, String>>,
    ) -> (r: Result<(), String>)
        requires
            details_of(*spec).recipe is Some ==> recipe is Some,
        ensures
            old(node).wf() ==> final(node).wf(),
            ({
                let d = details_of(*spec);
                match (d.recipe, recipe_answer(*recipe)) {
                    (Some(_), Some(Err(m))) => r matches Err(e) && e@ == "Dependency '"@ + name@
                        + "': "@ + m,
                    (Some(p), Some(Ok(rec))) => r is Ok && final(node)@ == with_recipe(
                        old(node)@,
                        rec,
                        d.strategy is None,
                        dir_of(path_join(self.manifest_dir@, p)),
                    ),
                    _ => r is Ok && final(node)@ == old(node)@,
                }
            }),
    {
        let details = spec.to_details();
        if let Some(p) = &details.recipe {
            let full = resolve_relative(self.manifest_dir.as_str(), p.as_str());
            match recipe {
                Some(Ok(rec)) => {
                    apply_recipe(node, rec, details.strategy.is_none(), full.as_str());
                },
                Some(Err(m)) => {
                    return Err(cat4("Dependency '", name, "': ", m.as_str()));
                },
                None => {},
            }
        }
        Ok(())
    }

    fn add_overrides(&self, node: &mut DependencyNode, name: &str)
        ensures
            final(node)@ == with_override(
                with_override(old(node)@, self.override_of(name@), self.manifest_dir@),
                self.local_override_of(name@),
                self.manifest_dir@,
            ),
            old(node).wf() ==> final(node).wf(),
    {
        self.override_node(node, self.manifest.overrides.get(name));
        if let Some(l) = &self.local {
            self.override_node(node, l.overrides.get(name));
        }
    }

    fn dependency_from(&self, i: usize, recipe: &Option<Result<Recipe, String>>) -> (r: Result<
        DependencyNode,
        String,
    >)
        requires
            self.wf(),
            i < self.manifest.dependencies.entries@.len(),
            details_of(self.manifest.dependencies.pairs()[i as int].1).recipe is Some
                ==> recipe is Some,
        ensures
            match r {
                Ok(n) => self.declared_dependency(i as int, recipe_answer(*recipe)) == Ok::<
                    NodeView,
                    Seq<char>,
                >(n@) && n.wf(),
                Err(m) => self.declared_dependency(i as int, recipe_answer(*recipe)) == Err::<
                    NodeView,
                    Seq<char>,
                >(m@),
            },
    {
        let entry = &self.manifest.dependencies.entries[i];
        let name = entry.0.as_str();
        assert(self.manifest.dependencies.pairs()[i as int] == (entry.0@, entry.1));
        assert(spec_wf(self.manifest.dependencies.entries@[i as int].1));
        let mut node = self.plain_from(name, &entry.1);
        match self.add_recipe(&mut node, name, &entry.1, recipe) {
            Ok(_) => {},
            Err(m) => {
                return Err(m);
            },
        }
        self.add_overrides(&mut node, name);
        match validate_source(&node) {
            Ok(_) => Ok(node),
            Err(m) => Err(m),
        }
    }

    /// The recipes that the dependencies ask for, each with its path and the version that the
    /// manifest asks for.
    pub fn wanted_recipes(&self) -> (r: Vec<Option<(String, Option<String>)>>)
        ensures
            r@.len() == self.manifest.dependencies.pairs().len(),
            forall|i: int|
                0 <= i < r@.len() ==> match #[trigger] r@[i] {
                    Some((path, version)) => ({
                        let d = details_of(self.manifest.dependencies.pairs()[i].1);
                        d.recipe matches Some(p) && path@ == path_join(self.manifest_dir@, p)
                            && opt_view(version) == d.version
                    }),
                    None => details_of(self.manifest.dependencies.pairs()[i].1).recipe is None,
                },
    {
        let mut out: Vec<Option<(String, Option<String>)>> = Vec::new();
        let mut i: usize = 0;
        while i < self.manifest.dependencies.entries.len()
            invariant
                i <= self.manifest.dependencies.entries@.len(),
                out@.len() == i,
                forall|k: int|
                    0 <= k < i ==> match #[trigger] out@[k] {
                        Some((path, version)) => ({
                            let d = details_of(self.manifest.dependencies.pairs()[k].1);
                            d.recipe matches Some(p) && path@ == path_join(self.manifest_dir@, p)
                                && opt_view(version) == d.version
                        }),
                        None => details_of(
                            self.manifest.dependencies.pairs()[k].1,
                        ).recipe is None,
                    },
            decreases self.manifest.dependencies.entries@.len() - i,
        {
            let details = self.manifest.dependencies.entries[i].1.to_details();
            let wanted = match &details.recipe {
                Some(p) => Some(
                    (
                        resolve_relative(self.manifest_dir.as_str(), p.as_str()),
                        copy_opt(&details.version),
                    ),
                ),
                None => None,
            };
            out.push(wanted);
            i = i + 1;
        }
        out
    }

    /// The packages of the project, without edges; `recipes` are the recipes that the
    /// dependencies ask for, or why they could not be loaded, as `wanted_recipes` lists them.
    pub fn build_graph(&self, recipes: &[Option<Result<Recipe, String>>]) -> (r: Result<
        DependencyGraph,
        String,
    >)
        requires
            self.wf(),
            self.answered(recipes@),
            self.manifest.tools.pairs().len() + self.manifest.dependencies.pairs().len()
                < u32::MAX,
        ensures
            match r {
                Ok(g) => g.wf() && g.edges().len() == 0 && all_declared(
                    self.declarations(recipes@),
                ) == Ok::<Seq<NodeView>, Seq<char>>(g.node_views()),
                Err(m) => all_declared(self.declarations(recipes@)) == Err::<
                    Seq<NodeView>,
                    Seq<char>,
                >(m@),
            },
    {
        let mut graph = DependencyGraph::new();
        let ghost ds = self.declarations(recipes@);
        let ghost tools = self.manifest.tools.pairs().len();
        let ghost deps = self.manifest.dependencies.pairs().len();
        proof {
            assert(ds.take(0) =~= Seq::empty());
            assert(graph.node_views() =~= Seq::<NodeView>::empty());
        }
        let mut i: usize = 0;
        while i < self.manifest.tools.entries.len()
            invariant
                i <= self.manifest.tools.entries@.len(),
                tools == self.manifest.tools.entries@.len(),
                deps == self.manifest.dependencies.entries@.len(),
                tools + deps < u32::MAX,
                ds == self.declarations(recipes@),
                ds.len() == tools + deps,
                graph.wf(),
                graph.edges().len() == 0,
                graph.nodes@.len() <= i,
                all_declared(ds.take(i as int)) == Ok::<Seq<NodeView>, Seq<char>>(
                    graph.node_views(),
                ),
            decreases self.manifest.tools.entries@.len() - i,
        {
            assert(ds.take(i + 1).drop_last() =~= ds.take(i as int));
            assert(ds.take(i + 1).last() == self.declared_tool(i as int));
            let node = match self.tool_from(i) {
                Ok(n) => n,
                Err(m) => {
                    proof {
                        lemma_declared_error(ds, i + 1);
                    }
                    return Err(m);
                },
            };
            match declare(&mut graph, node) {
                Ok(_) => {},
                Err(m) => {
                    proof {
                        lemma_declared_error(ds, i + 1);
                    }
                    return Err(m);
                },
            }
            i = i + 1;
        }
        let mut k: usize = 0;
        while k < self.manifest.dependencies.entries.len()
            invariant
                self.wf(),
                k <= self.manifest.dependencies.entries@.len(),
                tools == self.manifest.tools.entries@.len(),
                deps == self.manifest.dependencies.entries@.len(),
                self.answered(recipes@),
                tools + deps < u32::MAX,
                ds == self.declarations(recipes@),
                ds.len() == tools + deps,
                graph.wf(),
                graph.edges().len() == 0,
                graph.nodes@.len() <= tools + k,
                all_declared(ds.take(tools + k)) == Ok::<Seq<NodeView>, Seq<char>>(
                    graph.node_views(),
                ),
            decreases self.manifest.dependencies.entries@.len() - k,
        {
            assert(ds.take(tools + k + 1).drop_last() =~= ds.take(tools + k));
            assert(ds.take(tools + k + 1).last() == self.declared_dependency(
                k as int,
                recipe_answer(recipes@[k as int]),
            ));
            let node = match self.dependency_from(k, &recipes[k]) {
                Ok(n) => n,
                Err(m) => {
                    proof {
                        lemma_declared_error(ds, tools + k + 1);
                    }
                    return Err(m);
                },
            };
            match declare(&mut graph, node) {
                Ok(_) => {},
                Err(m) => {
                    proof {
                        lemma_declared_error(ds, tools + k + 1);
                    }
                    return Err(m);
                },
            }
            k = k + 1;
        }
        assert(ds.take(tools + k) =~= ds);
        Ok(graph)
    }
}

/// `p` from the root on.
pub open spec fn absolute(p: Seq<char>, cwd: Option<Seq<char>>) -> Seq<char> {
    match cwd {
        Some(dir) => path_join(dir, p),
        None => p,
    }
}

/// `p` from the root on, as seen from the working directory, where that is known.
pub fn absolute_path(p: &str, cwd: Option<&str>) -> (r: String)
    ensures
        r@ == absolute(p@, opt_str(cwd)),
{
    match cwd {
        Some(dir) => resolve_relative(dir, p),
        None => p.to_owned(),
    }
}

/// The value of an environment variable that is not blank.
pub open spec fn not_blank(env: Seq<(Seq<char>, Seq<char>)>, name: Seq<char>) -> Option<Seq<char>> {
    match lookup(env, name) {
        Some(v) => if trimmed(v).len() > 0 {
            Some(v)
        } else {
            None
        },
        None => None,
    }
}

/// The storage directory that the machine's configuration names.
pub open spec fn configured_base(local: Option<LocalConfig>) -> Option<Seq<char>> {
    match local {
        Some(l) => match l.storage {
            Some(s) => opt_view(s.base_dir),
            None => None,
        },
        None => None,
    }
}

/// The storage directory: the one on the command line, else that of the environment, else that
/// of the configuration, else `.unideps` in the home directory or beside the manifest.
pub open spec fn base_dir_of(
    cli: Option<Seq<char>>,
    local: Option<LocalConfig>,
    manifest_dir: Seq<char>,
    env: Seq<(Seq<char>, Seq<char>)>,
    cwd: Option<Seq<char>>,
) -> Seq<char> {
    if cli is Some {
        absolute(cli->0, cwd)
    } else if not_blank(env, "UNIDEPS_DIR"@) is Some {
        not_blank(env, "UNIDEPS_DIR"@)->0
    } else if not_blank(env, "UNIDEPS_BASE_DIR"@) is Some {
        not_blank(env, "UNIDEPS_BASE_DIR"@)->0
    } else if configured_base(local) is Some {
        path_join(manifest_dir, configured_base(local)->0)
    } else if lookup(env, "USERPROFILE"@) is Some {
        path_join(lookup(env, "USERPROFILE"@)->0, ".unideps"@)
    } else if lookup(env, "HOME"@) is Some {
        path_join(lookup(env, "HOME"@)->0, ".unideps"@)
    } else {
        path_join(manifest_dir, ".unideps"@)
    }
}

fn set_text_of(env: &Table<String>, name: &str) -> (r: Option<String>)
    ensures
        opt_view(r) == not_blank(env.texts(), name@),
{
    match env.text(name) {
        Some(v) => {
            let t = trim(v.as_str());
            if t.unicode_len() > 0 {
                Some(v.clone())
            } else {
                None
            }
        },
        None => None,
    }
}

/// The storage directory of a project; `env` is the environment and `cwd` the working directory.
pub fn resolve_base_dir(
    cli: Option<&str>,
    local: &Option<LocalConfig>,
    manifest_dir: &str,
    env: &Table<String>,
    cwd: Option<&str>,
) -> (r: String)
    ensures
        r@ == base_dir_of(opt_str(cli), *local, manifest_dir@, env.texts(), opt_str(cwd)),
{
    if let Some(p) = cli {
        return absolute_path(p, cwd);
    }
    if let Some(v) = set_text_of(env, "UNIDEPS_DIR") {
        return v;
    }
    if let Some(v) = set_text_of(env, "UNIDEPS_BASE_DIR") {
        return v;
    }
    if let Some(l) = local {
        if let Some(s) = &l.storage {
            if let Some(base) = &s.base_dir {
                return resolve_relative(manifest_dir, base.as_str());
            }
        }
    }
    if let Some(home) = env.text("USERPROFILE") {
        return join_path(home.as_str(), ".unideps");
    }
    if let Some(home) = env.text("HOME") {
        return join_path(home.as_str(), ".unideps");
    }
    join_path(manifest_dir, ".unideps")
}

/// A storage directory on the command line wins over every other.
pub proof fn the_command_line_decides_the_storage(
    cli: Seq<char>,
    local: Option<LocalConfig>,
    manifest_dir: Seq<char>,
    env: Seq<(Seq<char>, Seq<char>)>,
    cwd: Option<Seq<char>>,
)
    ensures
        base_dir_of(Some(cli), local, manifest_dir, env, cwd) == absolute(cli, cwd),
{
}

/// A toolchain of which the machine's own settings win.
pub open spec fn sysroot_over(base: SysrootView, local: Option<SysrootView>) -> SysrootView {
    match local {
        None => base,
        Some(l) => SysrootView {
            sysroot: or_kept_opt(l.sysroot, base.sysroot),
            toolchain_file: or_kept_opt(l.toolchain_file, base.toolchain_file),
            c_compiler: or_kept_opt(l.c_compiler, base.c_compiler),
            cxx_compiler: or_kept_opt(l.cxx_compiler, base.cxx_compiler),
            asm_compiler: or_kept_opt(l.asm_compiler, base.asm_compiler),
            compiler: or_kept_opt(l.compiler, base.compiler),
        },
    }
}

/// A program: a path with separators is seen from the manifest, and a bare name is kept, to be
/// looked up.
pub open spec fn program_path(dir: Seq<char>, p: Option<Seq<char>>) -> Option<Seq<char>> {
    match p {
        Some(q) => if components_of(q).len() > 1 {
            Some(path_join(dir, q))
        } else {
            Some(q)
        },
        None => None,
    }
}

/// A toolchain with its paths seen from the manifest.
pub open spec fn sysroot_from(dir: Seq<char>, c: SysrootView) -> SysrootView {
    SysrootView {
        toolchain_file: opt_resolved(dir, c.toolchain_file),
        c_compiler: program_path(dir, c.c_compiler),
        cxx_compiler: program_path(dir, c.cxx_compiler),
        ..c
    }
}

/// The toolchain under a name, where there is one.
pub open spec fn sysroot_named(pairs: Seq<(Seq<char>, TargetSysrootConfig)>, name: Seq<char>) -> Option<
    SysrootView,
> {
    match lookup(pairs, name) {
        Some(c) => Some(c@),
        None => None,
    }
}

fn fix_program(dir: &str, p: &Option<String>) -> (r: Option<String>)
    ensures
        opt_view(r) == program_path(dir@, opt_view(*p)),
{
    match p {
        Some(q) => {
            let steps = components(q.as_str());
            assert(views(steps@).len() == steps@.len());
            if steps.len() > 1 {
                Some(resolve_relative(dir, q.as_str()))
            } else {
                Some(q.clone())
            }
        },
        None => None,
    }
}

/// The message for a manifest that is not there.
pub fn missing_manifest(path: &str) -> (r: String)
    ensures
        r@ == "Manifest file not found: "@ + path@,
{
    cat2("Manifest file not found: ", path)
}

/// The directory of a manifest and the path of the machine's own configuration beside it.
pub fn manifest_places(manifest_path: &str) -> (r: (String, String))
    ensures
        r.0@ == dir_of(manifest_path@),
        r.1@ == path_join(dir_of(manifest_path@), ".local.toml"@),
{
    let dir = match parent(manifest_path) {
        Some(d) => d,
        None => ".".to_owned(),
    };
    let local = join_path(dir.as_str(), ".local.toml");
    (dir, local)
}

/// The first rule that names no package although it needs one.
pub open spec fn first_packageless(rules: Seq<crate::manifest::RuleView>) -> Option<Seq<char>>
    decreases rules.len(),
{
    if rules.len() == 0 {
        None
    } else {
        match first_packageless(rules.drop_last()) {
            Some(m) => Some(m),
            None => if lacks_package(rules.last()) {
                Some(lacks_package_message(rules.last().scope))
            } else {
                None
            },
        }
    }
}

proof fn lemma_first_packageless(rules: Seq<crate::manifest::RuleView>, i: int)
    requires
        0 <= i <= rules.len(),
        forall|j: int| 0 <= j < i ==> !lacks_package(#[trigger] rules[j]),
        i < rules.len() ==> lacks_package(rules[i]),
    ensures
        first_packageless(rules) == if i < rules.len() {
            Some(lacks_package_message(rules[i].scope))
        } else {
            None
        },
    decreases rules.len(),
{
    if rules.len() > 0 {
        let before = rules.drop_last();
        if i < rules.len() - 1 {
            assert(before[i] == rules[i]);
            lemma_first_packageless(before, i);
        } else {
            lemma_first_packageless(before, rules.len() - 1);
            assert(rules.last() == rules[rules.len() - 1]);
        }
    }
}

fn add_warning(out: &mut Vec<String>, wanted: bool, text: &str)
    ensures
        views(final(out)@) == if wanted {
            views(old(out)@).push(text@)
        } else {
            views(old(out)@)
        },
{
    if wanted {
        out.push(text.to_owned());
        assert(views(out@) =~= views(old(out)@).push(text@));
    }
}

/// `list`, with `text` behind it where it is wanted.
pub open spec fn warned(list: Seq<Seq<char>>, wanted: bool, text: Seq<char>) -> Seq<Seq<char>> {
    if wanted {
        list.push(text)
    } else {
        list
    }
}

/// Whether the configuration has settings for a cache.
pub open spec fn sets_cache(l: LocalConfig) -> bool {
    l.cache matches Some(c) && (c.remote_url is Some || c.auth_token is Some || c.upload is Some
        || c.local_dir is Some)
}

/// Whether the configuration limits memory.
pub open spec fn sets_memory(l: LocalConfig) -> bool {
    l.resources matches Some(r) && r.max_memory_gb is Some
}

/// Whether the configuration has settings for scratch space that have no effect.
pub open spec fn sets_scratch_mode(l: LocalConfig) -> bool {
    l.storage matches Some(s) && (s.scratch_mode is Some || s.cache_sources is Some)
}

/// The warnings for overrides, of which the last is `name`, that match no dependency.
pub open spec fn unmatched(
    names: Seq<Seq<char>>,
    dependencies: Seq<(Seq<char>, DependencySpec)>,
) -> Seq<Seq<char>>
    decreases names.len(),
{
    if names.len() == 0 {
        seq![]
    } else {
        warned(
            unmatched(names.drop_last(), dependencies),
            lookup(dependencies, names.last()) is None,
            "[overrides."@ + names.last() + "] does not match any dependency"@,
        )
    }
}

impl Project {
    /// A project from its manifest and the machine's own configuration.
    pub fn load(manifest_dir: String, manifest: Manifest, local: Option<LocalConfig>) -> (r: Result<
        Self,
        String,
    >)
        ensures
            match first_packageless(rule_views(manifest.strategy@)) {
                Some(m) => r matches Err(e) && e@ == m,
                None => r == Ok::<Self, String>(Project { manifest_dir, manifest, local }),
            },
    {
        let ghost rules = rule_views(manifest.strategy@);
        match StrategyEngine::validate(&manifest.strategy) {
            Ok(_) => {
                proof {
                    assert forall|j: int| 0 <= j < rules.len() implies !lacks_package(
                        #[trigger] rules[j],
                    ) by {
                        assert(!lacks_package(manifest.strategy@[j]@));
                    }
                    lemma_first_packageless(rules, rules.len() as int);
                }
                Ok(Project { manifest_dir, manifest, local })
            },
            Err(m) => {
                proof {
                    let v = manifest.strategy@;
                    let i = choose|i: int|
                        0 <= i < v.len() && lacks_package(#[trigger] v[i]@) && m@
                            == lacks_package_message(v[i].scope) && (forall|j: int|
                            0 <= j < i ==> !lacks_package(#[trigger] v[j]@));
                    assert forall|j: int| 0 <= j < i implies !lacks_package(#[trigger] rules[j]) by {
                        assert(!lacks_package(v[j]@));
                    }
                    assert(rules[i] == v[i]@);
                    lemma_first_packageless(rules, i);
                }
                Err(m)
            },
        }
    }

    /// A project from the manifest in the source of a package. Storage, tools and limits belong to
    /// the outer project, so no configuration beside that manifest counts, nor do its presets,
    /// targets and overrides.
    pub fn load_nested(manifest_dir: String, manifest: Manifest) -> (r: Result<Self, String>)
        ensures
            match first_packageless(rule_views(manifest.strategy@)) {
                Some(m) => r matches Err(e) && e@ == m,
                None => r matches Ok(p) && p.local is None && p.manifest == (Manifest {
                    presets: p.manifest.presets,
                    overrides: p.manifest.overrides,
                    targets: p.manifest.targets,
                    ..manifest
                }) && p.manifest_dir == manifest_dir && p.manifest.presets.pairs().len() == 0
                    && p.manifest.targets.pairs().len() == 0 && (forall|name: Seq<char>| #[trigger]
                    p.override_of(name) is None),
            },
            manifest.wf() ==> (r matches Ok(p) ==> p.manifest.wf()),
    {
        let none = Manifest::default();
        let kept = Manifest {
            presets: none.presets,
            overrides: none.overrides,
            targets: none.targets,
            ..manifest
        };
        Self::load(manifest_dir, kept, None)
    }

    /// The settings that have no effect yet.
    pub open spec fn without_effect(&self) -> Seq<Seq<char>> {
        let first = warned(
            seq![],
            self.manifest.registries.pairs().len() > 0,
            "[registries] are not supported yet and are ignored"@,
        );
        match self.local {
            None => first,
            Some(l) => warned(
                warned(
                    warned(
                        first,
                        sets_cache(l),
                        ".local.toml: [cache] settings are not supported yet and are ignored"@,
                    ),
                    sets_memory(l),
                    ".local.toml: resources.max_memory_gb is not supported yet and is ignored"@,
                ),
                sets_scratch_mode(l),
                ".local.toml: storage.scratch_mode / storage.cache_sources are not supported yet and are ignored"@,
            ),
        }
    }

    /// Warnings for the settings that have no effect yet.
    pub fn warn_unsupported(&self) -> (r: Vec<String>)
        ensures
            views(r@) == self.without_effect(),
    {
        let mut out: Vec<String> = Vec::new();
        assert(views(out@) =~= Seq::<Seq<char>>::empty());
        add_warning(
            &mut out,
            !self.manifest.registries.is_empty(),
            "[registries] are not supported yet and are ignored",
        );
        if let Some(l) = &self.local {
            let cache = match &l.cache {
                Some(c) => c.remote_url.is_some() || c.auth_token.is_some() || c.upload.is_some()
                    || c.local_dir.is_some(),
                None => false,
            };
            add_warning(
                &mut out,
                cache,
                ".local.toml: [cache] settings are not supported yet and are ignored",
            );
            let memory = match &l.resources {
                Some(r) => r.max_memory_gb.is_some(),
                None => false,
            };
            add_warning(
                &mut out,
                memory,
                ".local.toml: resources.max_memory_gb is not supported yet and is ignored",
            );
            let scratch = match &l.storage {
                Some(s) => s.scratch_mode.is_some() || s.cache_sources.is_some(),
                None => false,
            };
            add_warning(
                &mut out,
                scratch,
                ".local.toml: storage.scratch_mode / storage.cache_sources are not supported yet and are ignored",
            );
        }
        out
    }

    /// Warnings for overrides that match no dependency.
    pub fn warn_unmatched(&self) -> (r: Vec<String>)
        ensures
            views(r@) == unmatched(
                self.manifest.overrides.pairs().map_values(
                    |e: (Seq<char>, DependencyDetails)| e.0,
                ),
                self.manifest.dependencies.pairs(),
            ),
    {
        let mut out: Vec<String> = Vec::new();
        let ghost names = self.manifest.overrides.pairs().map_values(
            |e: (Seq<char>, DependencyDetails)| e.0,
        );
        let mut i: usize = 0;
        assert(names.take(0) =~= Seq::<Seq<char>>::empty());
        assert(views(out@) =~= Seq::<Seq<char>>::empty());
        while i < self.manifest.overrides.entries.len()
            invariant
                i <= self.manifest.overrides.entries@.len(),
                names == self.manifest.overrides.pairs().map_values(
                    |e: (Seq<char>, DependencyDetails)| e.0,
                ),
                views(out@) == unmatched(
                    names.take(i as int),
                    self.manifest.dependencies.pairs(),
                ),
            decreases self.manifest.overrides.entries@.len() - i,
        {
            let name = self.manifest.overrides.entries[i].0.as_str();
            assert(names.take(i + 1).drop_last() =~= names.take(i as int));
            assert(names.take(i + 1).last() == name@);
            let text = cat3("[overrides.", name, "] does not match any dependency");
            let known = self.manifest.dependencies.contains_key(name);
            add_warning(&mut out, !known, text.as_str());
            i = i + 1;
        }
        assert(names.take(i as int) =~= names);
        out
    }

    /// The storage directory.
    pub fn base_dir(&self, cli: Option<&str>, env: &Table<String>, cwd: Option<&str>) -> (r: String)
        ensures
            r@ == base_dir_of(
                opt_str(cli),
                self.local,
                self.manifest_dir@,
                env.texts(),
                opt_str(cwd),
            ),
    {
        resolve_base_dir(cli, &self.local, self.manifest_dir.as_str(), env, cwd)
    }

    /// What the machine's configuration says of the storage.
    pub open spec fn storage_config(&self) -> Option<LocalStorageConfig> {
        match self.local {
            Some(l) => l.storage,
            None => None,
        }
    }

    /// The scratch directory, where the machine has one of its own.
    pub fn scratch_dir(&self) -> (r: Option<String>)
        ensures
            opt_view(r) == match self.storage_config() {
                Some(s) => opt_resolved(self.manifest_dir@, opt_view(s.scratch_dir)),
                None => None,
            },
    {
        match &self.local {
            Some(l) => match &l.storage {
                Some(s) => resolve_opt(self.manifest_dir.as_str(), &s.scratch_dir),
                None => None,
            },
            None => None,
        }
    }

    /// Whether build directories are kept. They are scratch space: they are removed after a build
    /// unless the machine's configuration asks to keep them.
    pub fn keep_build_dirs(&self) -> (r: bool)
        ensures
            r == (self.storage_config() matches Some(s) && s.keep_build_dirs == Some(true)),
    {
        match &self.local {
            Some(l) => match &l.storage {
                Some(s) => match s.keep_build_dirs {
                    Some(b) => b,
                    None => false,
                },
                None => false,
            },
            None => false,
        }
    }

    /// How many jobs may run at once, where the machine limits them.
    pub fn max_jobs(&self) -> (r: Option<usize>)
        ensures
            r == match self.local {
                Some(l) => match l.resources {
                    Some(x) => x.max_jobs,
                    None => None,
                },
                None => None,
            },
    {
        match &self.local {
            Some(l) => match &l.resources {
                Some(x) => x.max_jobs,
                None => None,
            },
            None => None,
        }
    }

    /// The toolchain of a target, as the manifest and the machine say.
    pub open spec fn toolchain_of(&self, raw: Seq<char>) -> SysrootView {
        sysroot_from(
            self.manifest_dir@,
            sysroot_over(
                or_kept(sysroot_named(self.manifest.targets.pairs(), raw), no_sysroot()),
                match self.local {
                    Some(l) => sysroot_named(l.targets.pairs(), raw),
                    None => None,
                },
            ),
        )
    }

    /// The toolchain of a target. The machine's own settings win over the manifest.
    pub fn target_config(&self, target: &TargetTriple) -> (r: TargetSysrootConfig)
        ensures
            r@ == self.toolchain_of(target.raw@),
    {
        let raw = target.raw.as_str();
        let mut cfg = match self.manifest.targets.get(raw) {
            Some(c) => c.clone(),
            None => TargetSysrootConfig::default(),
        };
        if let Some(l) = &self.local {
            if let Some(own) = l.targets.get(raw) {
                put_opt(&mut cfg.sysroot, &own.sysroot);
                put_opt(&mut cfg.toolchain_file, &own.toolchain_file);
                put_opt(&mut cfg.c_compiler, &own.c_compiler);
                put_opt(&mut cfg.cxx_compiler, &own.cxx_compiler);
                put_opt(&mut cfg.asm_compiler, &own.asm_compiler);
                put_opt(&mut cfg.compiler, &own.compiler);
            }
        }
        let dir = self.manifest_dir.as_str();
        cfg.toolchain_file = resolve_opt(dir, &cfg.toolchain_file);
        cfg.c_compiler = fix_program(dir, &cfg.c_compiler);
        cfg.cxx_compiler = fix_program(dir, &cfg.cxx_compiler);
        cfg
    }
}

// ---------------------------------------------------------------------------
// What is promised of a project
// ---------------------------------------------------------------------------

/// What the manifest leaves open a recipe fills: the version, the strategy, the name to import, the
/// lists, the options and the source with its revision. Its patches and its source directory are
/// looked for beside the recipe.
pub proof fn a_recipe_fills_what_the_manifest_leaves_open(
    n: NodeView,
    r: RecipeView,
    strategy_unset: bool,
    dir: Seq<char>,
    key: Seq<char>,
)
    requires
        ordered(n.cmake_options),
    ensures
        ({
            let m = with_recipe(n, r, strategy_unset, dir);
            &&& n.version is None ==> m.version == r.version
            &&& strategy_unset && r.strategy is Some ==> m.strategy == r.strategy->0
            &&& r.strategy is None ==> m.strategy == n.strategy
            &&& n.import_name is None ==> m.import_name == r.import_name
            &&& n.include_dirs.len() == 0 ==> m.include_dirs == r.include_dirs
            &&& n.libraries.len() == 0 ==> m.libraries == r.libraries
            &&& n.binaries.len() == 0 ==> m.binaries == r.binaries
            &&& n.dependencies.len() == 0 ==> m.dependencies == r.dependencies
            &&& n.tools.len() == 0 ==> m.tools == r.tools
            &&& n.patches.len() == 0 ==> m.patches.len() == r.patches.len() && forall|i: int|
                0 <= i < r.patches.len() ==> #[trigger] m.patches[i] == path_join(dir, r.patches[i])
            &&& lookup(n.cmake_options, key) is None ==> lookup(m.cmake_options, key) == lookup(
                option_texts(r.options),
                key,
            )
            &&& n.git is None && n.path is None && r.source.git is Some ==> {
                &&& m.git == r.source.git
                &&& m.path is None
                &&& n.tag is None ==> m.tag == r.source.tag
                &&& n.branch is None ==> m.branch == r.source.branch
                &&& n.commit is None ==> m.commit == r.source.commit
            }
            &&& n.git is None && n.path is None && r.source.git is None && r.source.path is Some
                ==> m.git is None && m.path == Some(path_join(dir, r.source.path->0))
            &&& n.git is None && n.path is None && r.source.git is None && r.source.path is None
                ==> m.git is None && m.path is None
            &&& n.abi_ignores.is_prefix_of(m.abi_ignores)
            &&& m.abi_ignores.contains(key) <==> n.abi_ignores.contains(key)
                || r.abi_ignores.contains(key)
        }),
{
    lookup_after_fill(n.cmake_options, option_texts(r.options), key);
    flags_come_once(n.abi_ignores, r.abi_ignores);
}

/// No recipe decides for which platforms, under which condition and how a package is linked, or
/// what it is called.
pub proof fn a_recipe_leaves_the_rest(
    n: NodeView,
    r: RecipeView,
    strategy_unset: bool,
    dir: Seq<char>,
)
    ensures
        ({
            let m = with_recipe(n, r, strategy_unset, dir);
            &&& m.name == n.name && m.kind == n.kind
            &&& m.platforms == n.platforms && m.enabled_if == n.enabled_if
            &&& m.shared == n.shared && m.shallow == n.shallow && m.header_only == n.header_only
            &&& m.auto_import == n.auto_import && m.config == n.config
            &&& m.source_id == n.source_id && m.build_id == n.build_id
            &&& m.install_prefix == n.install_prefix && m.compiler == n.compiler
            &&& m.resolved_commit == n.resolved_commit
            &&& m.toolchain_fingerprint == n.toolchain_fingerprint
        }),
{
}

/// A package can be built where it has a source and is built with CMake; where it cannot, the
/// message says which of the two is missing.
pub proof fn a_package_needs_a_source_and_cmake(n: NodeView)
    ensures
        source_problem(n) is None <==> (n.git is Some || n.path is Some) && n.strategy
            == "cmake-install"@,
        n.git is None && n.path is None && n.kind == NodeKind::TargetDependency
            ==> source_problem(n)
            == Some(
            "Dependency '"@ + n.name
                + "' has no source: set `git` or `path` (or a `recipe` providing one). Version-only specs like `"@
                + n.name + " = \"1.0\"` need registries, which are not supported yet"@,
        ),
        n.git is None && n.path is None && n.kind == NodeKind::HostTool ==> source_problem(n)
            == Some(
            "Tool '"@ + n.name
                + "' has no source: set `git` or `path` (or a `recipe` providing one). Version-only specs like `"@
                + n.name + " = \"1.0\"` need registries, which are not supported yet"@,
        ),
        (n.git is Some || n.path is Some) && n.strategy != "cmake-install"@ ==> source_problem(n)
            == Some(
            "'"@ + n.name + "' uses unknown strategy '"@ + n.strategy + "' (supported: "@
                + "cmake-install"@ + ")"@,
        ),
{
    reveal_strlit("a dependency");
    reveal_strlit("a tool");
    reveal_strlit("a ");
    reveal_strlit(" '");
    reveal_strlit("Dependency '");
    reveal_strlit("Tool '");
    let d = "a dependency"@;
    let t = "a tool"@;
    assert(d.take(2) =~= "a "@);
    assert(t.take(2) =~= "a "@);
    assert(is_ascii_chars(d.skip(2).take(1)));
    assert(is_ascii_chars(t.skip(2).take(1)));
    assert(capitalized(d) + " '"@ =~= "Dependency '"@);
    assert(capitalized(t) + " '"@ =~= "Tool '"@);
}

/// The files of a package are in order where its source directory is there and every patch is a
/// file; the message names the directory, or the first patch that is missing.
pub proof fn the_files_of_a_package_must_be_there(
    n: NodeView,
    path_is_dir: bool,
    are_files: Seq<bool>,
    k: int,
)
    requires
        are_files.len() == n.patches.len(),
        0 <= k <= n.patches.len(),
        forall|i: int| 0 <= i < k ==> #[trigger] are_files[i],
        k < n.patches.len() ==> !are_files[k],
    ensures
        n.path is Some && !path_is_dir ==> files_problem(n, path_is_dir, are_files) == Some(
            "Source path of '"@ + n.name + "' does not exist: "@ + n.path->0,
        ),
        n.path is None || path_is_dir ==> files_problem(n, path_is_dir, are_files) == if k
            == n.patches.len() {
            None
        } else {
            Some("Patch file of '"@ + n.name + "' not found: "@ + n.patches[k])
        },
{
    lemma_missing(n.patches, are_files, k);
}

proof fn lemma_missing(patches: Seq<Seq<char>>, are_files: Seq<bool>, k: int)
    requires
        are_files.len() >= patches.len(),
        0 <= k <= patches.len(),
        forall|i: int| 0 <= i < k ==> #[trigger] are_files[i],
        k < patches.len() ==> !are_files[k],
    ensures
        first_missing(patches, are_files) == if k == patches.len() {
            None
        } else {
            Some(patches[k])
        },
    decreases patches.len(),
{
    if patches.len() > 0 {
        let init = patches.drop_last();
        lemma_missing(
            init,
            are_files,
            if k < init.len() {
                k
            } else {
                init.len() as int
            },
        );
    }
}

/// A project has all the packages that it declares, in their order, where each can be built and no
/// name stands for two of them; it has none otherwise.
pub proof fn every_declared_package_is_there_once(ds: Seq<Result<NodeView, Seq<char>>>)
    ensures
        all_declared(ds) is Ok <==> (forall|i: int| 0 <= i < ds.len() ==> #[trigger] ds[i] is Ok)
            && (forall|i: int, j: int|
            0 <= i < j < ds.len()
                ==> (#[trigger] ds[i])->Ok_0.name != (#[trigger] ds[j])->Ok_0.name),
        all_declared(ds) matches Ok(nodes) ==> nodes.len() == ds.len() && forall|i: int|
            0 <= i < ds.len() ==> ds[i] == Ok::<NodeView, Seq<char>>(#[trigger] nodes[i]),
    decreases ds.len(),
{
    if ds.len() > 0 {
        let init = ds.drop_last();
        every_declared_package_is_there_once(init);
        assert(forall|i: int| 0 <= i < init.len() ==> init[i] == #[trigger] ds[i]);
        assert(ds.last() == ds[ds.len() - 1]);
        if let Ok(nodes) = all_declared(init) {
            if let Ok(n) = ds.last() {
                lemma_kind_named(nodes, n.name);
                if kind_named(nodes, n.name) is Some {
                    let i = choose|i: int|
                        0 <= i < nodes.len() && (#[trigger] nodes[i]).name == n.name;
                    assert(init[i] == Ok::<NodeView, Seq<char>>(nodes[i]));
                    assert(ds[i]->Ok_0.name == ds[ds.len() - 1]->Ok_0.name);
                    assert(all_declared(ds) is Err);
                } else {
                    let all = nodes.push(n);
                    assert(all_declared(ds) == Ok::<Seq<NodeView>, Seq<char>>(all));
                    assert forall|i: int| 0 <= i < ds.len() implies ds[i] == Ok::<
                        NodeView,
                        Seq<char>,
                    >(#[trigger] all[i]) by {
                        if i < init.len() {
                            assert(init[i] == Ok::<NodeView, Seq<char>>(nodes[i]));
                        }
                    }
                    assert forall|i: int, j: int| 0 <= i < j < ds.len() implies (
                    #[trigger] ds[i])->Ok_0.name != (#[trigger] ds[j])->Ok_0.name by {
                        assert(init[i] == Ok::<NodeView, Seq<char>>(nodes[i]));
                        if j < init.len() {
                            assert(init[i] == ds[i] && init[j] == ds[j]);
                        }
                    }
                }
            }
        } else {
            if (forall|i: int| 0 <= i < ds.len() ==> #[trigger] ds[i] is Ok) && (forall|
                i: int,
                j: int,
            |
                0 <= i < j < ds.len() ==> (#[trigger] ds[i])->Ok_0.name != (
                #[trigger] ds[j])->Ok_0.name) {
                assert forall|i: int| 0 <= i < init.len() implies #[trigger] init[i] is Ok by {
                    assert(ds[i] is Ok);
                }
                assert forall|i: int, j: int| 0 <= i < j < init.len() implies (
                #[trigger] init[i])->Ok_0.name != (#[trigger] init[j])->Ok_0.name by {
                    assert(ds[i]->Ok_0.name != ds[j]->Ok_0.name);
                }
                assert(false);
            }
        }
    }
}

/// What the machine's own override of a package says wins over what the manifest's override says,
/// and that over the dependency itself. Patches and source directories of all three lie beside the
/// manifest.
pub proof fn the_machine_wins_over_the_manifest(
    dir: Seq<char>,
    name: Seq<char>,
    d: DetailsView,
    ov: DetailsView,
    local: DetailsView,
)
    requires
        d.recipe is None,
    ensures
        declared_dependency(dir, name, d, None, Some(ov), Some(local)) matches Ok(n) ==> {
            &&& n.name == name
            &&& n.version == if local.version is Some {
                local.version
            } else if ov.version is Some {
                ov.version
            } else {
                d.version
            }
            &&& n.shared == if local.shared is Some {
                local.shared
            } else if ov.shared is Some {
                ov.shared
            } else {
                d.shared
            }
            &&& n.enabled_if == if local.enabled_if is Some {
                local.enabled_if
            } else if ov.enabled_if is Some {
                ov.enabled_if
            } else {
                d.enabled_if
            }
            &&& local.git is Some || local.path is Some ==> n.git == local.git && n.path == (
            if local.path is Some {
                Some(path_join(dir, local.path->0))
            } else {
                None
            })
            &&& local.git is None && local.path is None && (ov.git is Some || ov.path is Some)
                ==> n.git == ov.git && n.path == (if ov.path is Some {
                Some(path_join(dir, ov.path->0))
            } else {
                None
            })
            &&& local.git is None && local.path is None && ov.git is None && ov.path is None
                ==> n.git == d.git && n.path == (if d.path is Some {
                Some(path_join(dir, d.path->0))
            } else {
                None
            })
            &&& n.platforms == if local.platforms.len() > 0 {
                local.platforms
            } else if ov.platforms.len() > 0 {
                ov.platforms
            } else {
                d.platforms
            }
        },
        declared_dependency(dir, name, d, None, Some(ov), Some(local)) matches Ok(n) ==> {
            let given = if local.patches.len() > 0 {
                local.patches
            } else if ov.patches.len() > 0 {
                ov.patches
            } else {
                d.patches
            };
            n.patches.len() == given.len() && forall|i: int|
                0 <= i < given.len() ==> #[trigger] n.patches[i] == path_join(dir, given[i])
        },
{
}

/// A dependency without overrides is what the manifest says. One whose recipe cannot be read is an
/// error that names it; one with a recipe lets overrides win over the recipe too.
pub proof fn a_dependency_is_declared_by_manifest_recipe_and_overrides(
    dir: Seq<char>,
    name: Seq<char>,
    d: DetailsView,
    r: RecipeView,
    ov: DetailsView,
    message: Seq<char>,
)
    requires
        d.recipe is Some,
    ensures
        declared_dependency(dir, name, d, Some(Err(message)), Some(ov), None) == Err::<
            NodeView,
            Seq<char>,
        >("Dependency '"@ + name + "': "@ + message),
        declared_dependency(dir, name, d, Some(Ok(r)), Some(ov), None) matches Ok(n) ==> {
            &&& n.version == if ov.version is Some {
                ov.version
            } else if d.version is Some {
                d.version
            } else {
                r.version
            }
            &&& n.libraries == if ov.libraries.len() > 0 {
                ov.libraries
            } else if d.libraries.len() > 0 {
                d.libraries
            } else {
                r.libraries
            }
            &&& n.strategy == "cmake-install"@
            &&& n.git is Some || n.path is Some
        },
{
}

/// A tool that the machine has of its own needs no source; any other tool needs one.
pub proof fn a_tool_of_the_machine_needs_no_source(p: Project, i: int)
    requires
        0 <= i < p.manifest.tools.pairs().len(),
    ensures
        p.local_tool(p.manifest.tools.pairs()[i].0) is Some ==> p.declared_tool(i) is Ok,
        p.local is None ==> p.local_tool(p.manifest.tools.pairs()[i].0) is None,
        p.local_tool(p.manifest.tools.pairs()[i].0) is None && p.declared_tool(i) is Ok ==> (
        p.declared_tool(i)->Ok_0.git is Some || p.declared_tool(i)->Ok_0.path is Some),
        p.declared_tool(i) is Ok ==> p.declared_tool(i)->Ok_0.name
            == p.manifest.tools.pairs()[i].0 && p.declared_tool(i)->Ok_0.kind == NodeKind::HostTool,
        p.local matches Some(l) ==> (lookup(
            l.tools.texts(),
            p.manifest.tools.pairs()[i].0,
        ) matches Some(q) ==> p.local_tool(p.manifest.tools.pairs()[i].0) == Some(
            path_join(p.manifest_dir@, q),
        )),
{
}

/// Where the storage lies: the command line decides, then `UNIDEPS_DIR`, then `UNIDEPS_BASE_DIR`,
/// then the machine's configuration, then the home directory. Variables that are blank do not
/// count.
pub proof fn where_the_storage_lies(
    cli: Option<Seq<char>>,
    local: Option<LocalConfig>,
    manifest_dir: Seq<char>,
    env: Seq<(Seq<char>, Seq<char>)>,
    cwd: Option<Seq<char>>,
)
    ensures
        ({
            let dir = base_dir_of(cli, local, manifest_dir, env, cwd);
            let first = lookup(env, "UNIDEPS_DIR"@);
            let second = lookup(env, "UNIDEPS_BASE_DIR"@);
            let use_first = first is Some && trimmed(first->0).len() > 0;
            let use_second = second is Some && trimmed(second->0).len() > 0;
            let configured = local is Some && local->0.storage is Some
                && local->0.storage->0.base_dir is Some;
            &&& cli is Some && cwd is Some ==> dir == path_join(cwd->0, cli->0)
            &&& cli is Some && cwd is None ==> dir == cli->0
            &&& cli is None && use_first ==> dir == first->0
            &&& cli is None && !use_first && use_second ==> dir == second->0
            &&& cli is None && !use_first && !use_second && configured ==> dir == path_join(
                manifest_dir,
                local->0.storage->0.base_dir->0@,
            )
            &&& cli is None && !use_first && !use_second && !configured ==> {
                &&& lookup(env, "USERPROFILE"@) is Some ==> dir == path_join(
                    lookup(env, "USERPROFILE"@)->0,
                    ".unideps"@,
                )
                &&& lookup(env, "USERPROFILE"@) is None && lookup(env, "HOME"@) is Some ==> dir
                    == path_join(lookup(env, "HOME"@)->0, ".unideps"@)
                &&& lookup(env, "USERPROFILE"@) is None && lookup(env, "HOME"@) is None ==> dir
                    == path_join(manifest_dir, ".unideps"@)
            }
        }),
{
}

/// What the machine's configuration says of a target's tools wins over the manifest, value by
/// value.
pub proof fn the_machine_decides_the_toolchain(base: SysrootView, l: SysrootView)
    ensures
        ({
            let m = sysroot_over(base, Some(l));
            &&& m.sysroot == if l.sysroot is Some {
                l.sysroot
            } else {
                base.sysroot
            }
            &&& m.toolchain_file == if l.toolchain_file is Some {
                l.toolchain_file
            } else {
                base.toolchain_file
            }
            &&& m.c_compiler == if l.c_compiler is Some {
                l.c_compiler
            } else {
                base.c_compiler
            }
            &&& m.cxx_compiler == if l.cxx_compiler is Some {
                l.cxx_compiler
            } else {
                base.cxx_compiler
            }
            &&& m.asm_compiler == if l.asm_compiler is Some {
                l.asm_compiler
            } else {
                base.asm_compiler
            }
            &&& m.compiler == if l.compiler is Some {
                l.compiler
            } else {
                base.compiler
            }
        }),
        sysroot_over(base, None) == base,
{
}

/// A toolchain file lies beside the manifest. So does a compiler that is given with a directory;
/// one that is given by its name alone is looked for where programs are.
pub proof fn a_program_name_is_no_path(dir: Seq<char>, c: SysrootView)
    ensures
        ({
            let m = sysroot_from(dir, c);
            &&& c.toolchain_file is Some ==> m.toolchain_file == Some(
                path_join(dir, c.toolchain_file->0),
            )
            &&& c.toolchain_file is None ==> m.toolchain_file is None
            &&& c.c_compiler is Some ==> m.c_compiler == Some(
                if components_of(c.c_compiler->0).len() > 1 {
                    path_join(dir, c.c_compiler->0)
                } else {
                    c.c_compiler->0
                },
            )
            &&& c.c_compiler is None ==> m.c_compiler is None
            &&& c.cxx_compiler is Some ==> m.cxx_compiler == Some(
                if components_of(c.cxx_compiler->0).len() > 1 {
                    path_join(dir, c.cxx_compiler->0)
                } else {
                    c.cxx_compiler->0
                },
            )
            &&& c.cxx_compiler is None ==> m.cxx_compiler is None
            &&& m.sysroot == c.sysroot && m.asm_compiler == c.asm_compiler && m.compiler
                == c.compiler
        }),
{
}

/// Every override that names no dependency is warned of, and no other.
pub proof fn an_override_without_a_dependency_is_warned_of(
    names: Seq<Seq<char>>,
    dependencies: Seq<(Seq<char>, DependencySpec)>,
    text: Seq<char>,
)
    ensures
        unmatched(names, dependencies).contains(text) <==> exists|i: int|
            0 <= i < names.len() && lookup(dependencies, #[trigger] names[i]) is None && text
                == "[overrides."@ + names[i] + "] does not match any dependency"@,
    decreases names.len(),
{
    let out = unmatched(names, dependencies);
    if names.len() > 0 {
        let init = names.drop_last();
        let less = unmatched(init, dependencies);
        let last = names.last();
        let mine = "[overrides."@ + last + "] does not match any dependency"@;
        an_override_without_a_dependency_is_warned_of(init, dependencies, text);
        assert(last == names[names.len() - 1]);
        if less.contains(text) {
            let k = choose|k: int| 0 <= k < less.len() && less[k] == text;
            assert(out[k] == text);
            let i = choose|i: int|
                0 <= i < init.len() && lookup(dependencies, #[trigger] init[i]) is None && text
                    == "[overrides."@ + init[i] + "] does not match any dependency"@;
            assert(names[i] == init[i]);
        }
        if lookup(dependencies, last) is None {
            assert(out == less.push(mine));
            assert(out[less.len() as int] == mine);
        }
        if out.contains(text) {
            let k = choose|k: int| 0 <= k < out.len() && out[k] == text;
            if k < less.len() {
                assert(less[k] == text);
            }
        }
        if exists|i: int|
            0 <= i < names.len() && lookup(dependencies, #[trigger] names[i]) is None && text
                == "[overrides."@ + names[i] + "] does not match any dependency"@ {
            let i = choose|i: int|
                0 <= i < names.len() && lookup(dependencies, #[trigger] names[i]) is None && text
                    == "[overrides."@ + names[i] + "] does not match any dependency"@;
            if i < init.len() {
                assert(init[i] == names[i]);
            }
        }
    }
}

/// What a project sets without effect is warned of, each thing by its name; without such settings
/// there is no warning.
pub proof fn what_has_no_effect_is_warned_of(p: Project)
    ensures
        ({
            let w = p.without_effect();
            &&& p.manifest.registries.pairs().len() > 0 ==> w.contains(
                "[registries] are not supported yet and are ignored"@,
            )
            &&& p.local matches Some(l) ==> {
                &&& sets_cache(l) ==> w.contains(
                    ".local.toml: [cache] settings are not supported yet and are ignored"@,
                )
                &&& sets_memory(l) ==> w.contains(
                    ".local.toml: resources.max_memory_gb is not supported yet and is ignored"@,
                )
                &&& sets_scratch_mode(l) ==> w.contains(
                    ".local.toml: storage.scratch_mode / storage.cache_sources are not supported yet and are ignored"@,
                )
                &&& p.manifest.registries.pairs().len() == 0 && !sets_cache(l) && !sets_memory(l)
                    && !sets_scratch_mode(l) ==> w.len() == 0
            }
            &&& p.manifest.registries.pairs().len() == 0 && p.local is None ==> w.len() == 0
        }),
{
    let first = "[registries] are not supported yet and are ignored"@;
    let w = p.without_effect();
    if p.manifest.registries.pairs().len() > 0 {
        assert(w[0] == first);
    }
    if let Some(l) = p.local {
        let a = warned(seq![], p.manifest.registries.pairs().len() > 0, first);
        let cache = ".local.toml: [cache] settings are not supported yet and are ignored"@;
        let memory = ".local.toml: resources.max_memory_gb is not supported yet and is ignored"@;
        let b = warned(a, sets_cache(l), cache);
        let c = warned(b, sets_memory(l), memory);
        if sets_cache(l) {
            assert(b[a.len() as int] == cache);
            assert(w[a.len() as int] == cache);
        }
        if sets_memory(l) {
            assert(c[b.len() as int] == memory);
            assert(w[b.len() as int] == memory);
        }
        if sets_scratch_mode(l) {
            assert(w[c.len() as int] == w.last());
        }
    }
}

/// A project loads where every rule that needs a package has one; the first that lacks it is the
/// error.
pub proof fn the_first_rule_without_a_package_is_the_error(
    rules: Seq<crate::manifest::RuleView>,
    k: int,
)
    requires
        0 <= k <= rules.len(),
        forall|j: int| 0 <= j < k ==> !lacks_package(#[trigger] rules[j]),
        k < rules.len() ==> lacks_package(rules[k]),
    ensures
        k == rules.len() ==> first_packageless(rules) is None,
        k < rules.len() ==> first_packageless(rules) == Some(lacks_package_message(rules[k].scope)),
{
    lemma_first_packageless(rules, k);
}

/// A project declares its tools first and then its dependencies, each under its own name and with
/// the overrides of that name: the manifest's, and the machine's where it has a configuration.
pub proof fn what_a_project_declares(
    p: Project,
    recipes: Seq<Option<Result<Recipe, String>>>,
    i: int,
    name: Seq<char>,
)
    requires
        0 <= i < p.manifest.dependencies.pairs().len(),
        name == p.manifest.dependencies.pairs()[i].0,
    ensures
        ({
            let all = p.declarations(recipes);
            let tools = p.manifest.tools.pairs().len();
            let over = lookup(p.manifest.overrides.pairs(), name);
            let own = if p.local is Some {
                lookup(p.local->0.overrides.pairs(), name)
            } else {
                None
            };
            &&& all.len() == tools + p.manifest.dependencies.pairs().len()
            &&& forall|k: int| 0 <= k < tools ==> #[trigger] all[k] == p.declared_tool(k)
            &&& all[tools + i] == declared_dependency(
                p.manifest_dir@,
                name,
                details_of(p.manifest.dependencies.pairs()[i].1),
                recipe_answer(recipes[i]),
                if over is Some {
                    Some(over->0@)
                } else {
                    None
                },
                if own is Some {
                    Some(own->0@)
                } else {
                    None
                },
            )
        }),
        recipe_answer(None) is None,
        forall|r: Recipe| #[trigger] recipe_answer(Some(Ok(r))) == Some(
            Ok::<RecipeView, Seq<char>>(r@),
        ),
        forall|m: String| #[trigger] recipe_answer(Some(Err(m))) == Some(
            Err::<RecipeView, Seq<char>>(m@),
        ),
{
    let all = p.declarations(recipes);
    let tools = p.manifest.tools.pairs().len() as int;
    assert(all[tools + i] == p.declared_dependency(i, recipe_answer(recipes[i])));
}

/// The tools of a target are those under its name in the manifest, with the machine's under that
/// name over them, and none where it is named in neither.
pub proof fn the_toolchain_of_a_target(p: Project, raw: Seq<char>)
    ensures
        ({
            let base = lookup(p.manifest.targets.pairs(), raw);
            let own = if p.local is Some {
                lookup(p.local->0.targets.pairs(), raw)
            } else {
                None
            };
            let t = p.toolchain_of(raw);
            &&& base is None && own is None ==> t == sysroot_from(p.manifest_dir@, no_sysroot())
            &&& base is Some && own is None ==> t == sysroot_from(p.manifest_dir@, base->0@)
            &&& base is Some && own is Some ==> t == sysroot_from(
                p.manifest_dir@,
                sysroot_over(base->0@, Some(own->0@)),
            )
            &&& base is None && own is Some ==> t.sysroot == own->0@.sysroot && t.compiler
                == own->0@.compiler
        }),
{
}

/// The directory of a file is what stands before its name.
pub proof fn the_directory_of_a_file(dir: Seq<char>, n: Seq<char>)
    requires
        is_name(n),
        dir.len() > 0,
        tail_trimmed(dir) == dir,
        dir.last() != '/',
    ensures
        dir_of(dir + "/"@ + n) == dir,
{
    a_path_is_its_parent_and_its_name(dir, n, n);
}

/// What a machine's configuration sets without effect: anything of the cache, the limit of memory,
/// and how scratch space and sources are kept.
pub proof fn which_settings_have_no_effect(l: LocalConfig)
    ensures
        l.cache is None ==> !sets_cache(l),
        l.cache matches Some(c) ==> (sets_cache(l) <==> !(c.remote_url is None && c.auth_token
            is None && c.upload is None && c.local_dir is None)),
        l.resources is None ==> !sets_memory(l),
        l.resources matches Some(r) ==> (sets_memory(l) <==> !(r.max_memory_gb is None)),
        l.storage is None ==> !sets_scratch_mode(l),
        l.storage matches Some(s) ==> (sets_scratch_mode(l) <==> !(s.scratch_mode is None
            && s.cache_sources is None)),
{
}

} // verus!
