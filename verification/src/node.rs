//! A package in the graph of a project.
use crate::compiler::{CompilerType, CompilerView};
use crate::manifest::{
    details_of, names_of, spec_wf, sub_name, sub_names, tool_details_of, DependencyDetails,
    DependencySpec, DetailsView, ToolRequirement, ToolView,
};
use crate::strategy::{default_config, or_kept, ConfigView, EffectiveConfig};
use crate::table::{lookup, lookup_after_merge, merged, ordered, Table};
use crate::text::{copy_list, copy_opt, extend_list, opt_view, views};
use vstd::prelude::*;
use vstd::string::*;

verus! {

broadcast use vstd::string::group_string_axioms;

#[derive(Debug, Clone, Copy, PartialEq, Eq, Structural)]
pub enum NodeKind {
    TargetDependency,
    HostTool,
}

/// How a message speaks of a node of some kind.
pub open spec fn kind_text(k: NodeKind) -> Seq<char> {
    match k {
        NodeKind::TargetDependency => "a dependency"@,
        NodeKind::HostTool => "a tool"@,
    }
}

impl NodeKind {
    pub fn describe(&self) -> (r: &'static str)
        ensures
            r@ == kind_text(*self),
    {
        match self {
            NodeKind::TargetDependency => "a dependency",
            NodeKind::HostTool => "a tool",
        }
    }
}

/// A package with everything that is known of it. `resolved_commit` is the commit that a
/// branch or the default HEAD stood for when it was last fetched.
#[derive(Debug)]
pub struct DependencyNode {
    pub name: String,
    pub kind: NodeKind,
    pub version: Option<String>,
    pub git: Option<String>,
    pub tag: Option<String>,
    pub branch: Option<String>,
    pub commit: Option<String>,
    pub path: Option<String>,
    pub shallow: bool,
    pub strategy: String,
    pub shared: Option<bool>,
    pub header_only: bool,
    pub cmake_options: Table<String>,
    pub abi_ignores: Vec<String>,
    pub platforms: Vec<String>,
    pub dependencies: Vec<String>,
    pub tools: Vec<String>,
    pub import_name: Option<String>,
    pub include_dirs: Vec<String>,
    pub libraries: Vec<String>,
    pub binaries: Vec<String>,
    pub enabled_if: Option<String>,
    pub auto_import: bool,
    pub config: EffectiveConfig,
    pub source_id: Option<String>,
    pub build_id: Option<String>,
    pub install_prefix: Option<String>,
    pub compiler: Option<CompilerType>,
    pub patches: Vec<String>,
    pub resolved_commit: Option<String>,
    pub toolchain_fingerprint: Option<String>,
}

/// A package as texts.
#[verifier::ext_equal]
pub struct NodeView {
    pub name: Seq<char>,
    pub kind: NodeKind,
    pub version: Option<Seq<char>>,
    pub git: Option<Seq<char>>,
    pub tag: Option<Seq<char>>,
    pub branch: Option<Seq<char>>,
    pub commit: Option<Seq<char>>,
    pub path: Option<Seq<char>>,
    pub shallow: bool,
    pub strategy: Seq<char>,
    pub shared: Option<bool>,
    pub header_only: bool,
    pub cmake_options: Seq<(Seq<char>, Seq<char>)>,
    pub abi_ignores: Seq<Seq<char>>,
    pub platforms: Seq<Seq<char>>,
    pub dependencies: Seq<Seq<char>>,
    pub tools: Seq<Seq<char>>,
    pub import_name: Option<Seq<char>>,
    pub include_dirs: Seq<Seq<char>>,
    pub libraries: Seq<Seq<char>>,
    pub binaries: Seq<Seq<char>>,
    pub enabled_if: Option<Seq<char>>,
    pub auto_import: bool,
    pub config: ConfigView,
    pub source_id: Option<Seq<char>>,
    pub build_id: Option<Seq<char>>,
    pub install_prefix: Option<Seq<char>>,
    pub compiler: Option<CompilerView>,
    pub patches: Seq<Seq<char>>,
    pub resolved_commit: Option<Seq<char>>,
    pub toolchain_fingerprint: Option<Seq<char>>,
}

/// An optional compiler family as a view.
pub open spec fn opt_compiler(c: Option<CompilerType>) -> Option<CompilerView> {
    match c {
        Some(k) => Some(k@),
        None => None,
    }
}

fn copy_compiler(c: &Option<CompilerType>) -> (r: Option<CompilerType>)
    ensures
        r == *c,
{
    match c {
        Some(k) => Some(k.clone()),
        None => None,
    }
}

impl View for DependencyNode {
    type V = NodeView;

    open spec fn view(&self) -> NodeView {
        NodeView {
            name: self.name@,
            kind: self.kind,
            version: opt_view(self.version),
            git: opt_view(self.git),
            tag: opt_view(self.tag),
            branch: opt_view(self.branch),
            commit: opt_view(self.commit),
            path: opt_view(self.path),
            shallow: self.shallow,
            strategy: self.strategy@,
            shared: self.shared,
            header_only: self.header_only,
            cmake_options: self.cmake_options.texts(),
            abi_ignores: views(self.abi_ignores@),
            platforms: views(self.platforms@),
            dependencies: views(self.dependencies@),
            tools: views(self.tools@),
            import_name: opt_view(self.import_name),
            include_dirs: views(self.include_dirs@),
            libraries: views(self.libraries@),
            binaries: views(self.binaries@),
            enabled_if: opt_view(self.enabled_if),
            auto_import: self.auto_import,
            config: self.config@,
            source_id: opt_view(self.source_id),
            build_id: opt_view(self.build_id),
            install_prefix: opt_view(self.install_prefix),
            compiler: opt_compiler(self.compiler),
            patches: views(self.patches@),
            resolved_commit: opt_view(self.resolved_commit),
            toolchain_fingerprint: opt_view(self.toolchain_fingerprint),
        }
    }
}

impl DependencyNode {
    /// The options of the package are in order.
    pub open spec fn wf(&self) -> bool {
        self.cmake_options.wf() && self.config.cmake_options.wf()
    }
}

impl Clone for DependencyNode {
    fn clone(&self) -> (r: Self)
        ensures
            r@ == self@,
            self.wf() ==> r.wf(),
    {
        DependencyNode {
            name: self.name.clone(),
            kind: self.kind,
            version: copy_opt(&self.version),
            git: copy_opt(&self.git),
            tag: copy_opt(&self.tag),
            branch: copy_opt(&self.branch),
            commit: copy_opt(&self.commit),
            path: copy_opt(&self.path),
            shallow: self.shallow,
            strategy: self.strategy.clone(),
            shared: self.shared,
            header_only: self.header_only,
            cmake_options: self.cmake_options.copy(),
            abi_ignores: copy_list(&self.abi_ignores),
            platforms: copy_list(&self.platforms),
            dependencies: copy_list(&self.dependencies),
            tools: copy_list(&self.tools),
            import_name: copy_opt(&self.import_name),
            include_dirs: copy_list(&self.include_dirs),
            libraries: copy_list(&self.libraries),
            binaries: copy_list(&self.binaries),
            enabled_if: copy_opt(&self.enabled_if),
            auto_import: self.auto_import,
            config: self.config.clone(),
            source_id: copy_opt(&self.source_id),
            build_id: copy_opt(&self.build_id),
            install_prefix: copy_opt(&self.install_prefix),
            compiler: copy_compiler(&self.compiler),
            patches: copy_list(&self.patches),
            resolved_commit: copy_opt(&self.resolved_commit),
            toolchain_fingerprint: copy_opt(&self.toolchain_fingerprint),
        }
    }
}

/// The strategy of a package that names none.
pub open spec fn default_strategy() -> Seq<char> {
    "cmake-install"@
}

/// The package that a declaration under `name` stands for.
pub open spec fn node_of_dependency(name: Seq<char>, d: DetailsView) -> NodeView {
    NodeView {
        name,
        kind: NodeKind::TargetDependency,
        version: d.version,
        git: d.git,
        tag: d.tag,
        branch: d.branch,
        commit: d.commit,
        path: d.path,
        shallow: or_kept(d.shallow, true),
        strategy: or_kept(d.strategy, default_strategy()),
        shared: d.shared,
        header_only: or_kept(d.header_only, false),
        cmake_options: d.cmake_options,
        abi_ignores: d.abi_ignores,
        platforms: d.platforms,
        dependencies: sub_names(d.dependencies),
        tools: d.tools,
        import_name: d.import_name,
        include_dirs: d.include_dirs,
        libraries: d.libraries,
        binaries: d.binaries,
        enabled_if: d.enabled_if,
        auto_import: or_kept(d.auto_import, false),
        config: default_config(),
        source_id: None,
        build_id: None,
        install_prefix: None,
        compiler: None,
        patches: d.patches,
        resolved_commit: None,
        toolchain_fingerprint: None,
    }
}

/// The package that a tool under `name` stands for.
pub open spec fn node_of_tool(name: Seq<char>, d: ToolView) -> NodeView {
    NodeView {
        name,
        kind: NodeKind::HostTool,
        version: d.version,
        git: d.git,
        tag: d.tag,
        branch: d.branch,
        commit: d.commit,
        path: d.path,
        shallow: true,
        strategy: or_kept(d.strategy, default_strategy()),
        shared: Some(false),
        header_only: false,
        cmake_options: Seq::empty(),
        abi_ignores: seq!["vc_runtime"@],
        platforms: Seq::empty(),
        dependencies: Seq::empty(),
        tools: Seq::empty(),
        import_name: None,
        include_dirs: Seq::empty(),
        libraries: Seq::empty(),
        binaries: Seq::empty(),
        enabled_if: None,
        auto_import: false,
        config: default_config(),
        source_id: None,
        build_id: None,
        install_prefix: None,
        compiler: None,
        patches: Seq::empty(),
        resolved_commit: None,
        toolchain_fingerprint: None,
    }
}

/// `given` where it holds something, else `kept`.
pub open spec fn or_kept_list(given: Seq<Seq<char>>, kept: Seq<Seq<char>>) -> Seq<Seq<char>> {
    if given.len() > 0 {
        given
    } else {
        kept
    }
}

/// `given` where it says something, else `kept`.
pub open spec fn or_kept_opt(given: Option<Seq<char>>, kept: Option<Seq<char>>) -> Option<
    Seq<char>,
> {
    match given {
        Some(v) => Some(v),
        None => kept,
    }
}

/// Whether details name a source.
pub open spec fn names_source(d: DetailsView) -> bool {
    d.git is Some || d.path is Some
}

/// Whether details name a revision.
pub open spec fn names_revision(d: DetailsView) -> bool {
    d.commit is Some || d.tag is Some || d.branch is Some
}

/// A package after an override. What the override says replaces what was said, with these
/// points of its own: a source replaces the whole source and a revision every revision, so
/// that `path` drops `git` and a tag drops a commit; CMake options are merged; ABI ignores
/// are added.
pub open spec fn overridden(n: NodeView, d: DetailsView) -> NodeView {
    NodeView {
        version: or_kept_opt(d.version, n.version),
        git: if names_source(d) {
            d.git
        } else {
            n.git
        },
        path: if names_source(d) {
            d.path
        } else {
            n.path
        },
        commit: if names_revision(d) {
            d.commit
        } else {
            n.commit
        },
        tag: if names_revision(d) {
            d.tag
        } else {
            n.tag
        },
        branch: if names_revision(d) {
            d.branch
        } else {
            n.branch
        },
        shallow: or_kept(d.shallow, n.shallow),
        strategy: or_kept(d.strategy, n.strategy),
        shared: if d.shared is Some {
            d.shared
        } else {
            n.shared
        },
        header_only: or_kept(d.header_only, n.header_only),
        cmake_options: merged(n.cmake_options, d.cmake_options),
        abi_ignores: n.abi_ignores + d.abi_ignores,
        platforms: or_kept_list(d.platforms, n.platforms),
        dependencies: or_kept_list(sub_names(d.dependencies), n.dependencies),
        tools: or_kept_list(d.tools, n.tools),
        import_name: or_kept_opt(d.import_name, n.import_name),
        include_dirs: or_kept_list(d.include_dirs, n.include_dirs),
        libraries: or_kept_list(d.libraries, n.libraries),
        binaries: or_kept_list(d.binaries, n.binaries),
        enabled_if: or_kept_opt(d.enabled_if, n.enabled_if),
        auto_import: or_kept(d.auto_import, n.auto_import),
        patches: or_kept_list(d.patches, n.patches),
        ..n
    }
}

/// An override that says nothing changes nothing.
pub proof fn an_empty_override_changes_nothing(n: NodeView)
    ensures
        overridden(n, crate::manifest::no_details()) == n,
{
    assert(overridden(n, crate::manifest::no_details()) =~= n);
}

/// A source in an override leaves nothing of the source before: at most one of `git` and
/// `path` stays when the override names one of them.
pub proof fn an_override_replaces_the_whole_source(n: NodeView, d: DetailsView)
    ensures
        d.path is Some && d.git is None ==> overridden(n, d).git is None && overridden(n, d).path
            == d.path,
        d.git is Some && d.path is None ==> overridden(n, d).path is None && overridden(n, d).git
            == d.git,
{
}

/// A revision in an override leaves no other revision: with a tag alone, neither a commit nor a
/// branch stays.
pub proof fn an_override_replaces_every_revision(n: NodeView, d: DetailsView)
    requires
        names_revision(d),
    ensures
        overridden(n, d).commit == d.commit,
        overridden(n, d).tag == d.tag,
        overridden(n, d).branch == d.branch,
{
}

/// Puts `given` into `slot` where it says something.
pub fn put_opt(slot: &mut Option<String>, given: &Option<String>)
    ensures
        opt_view(*final(slot)) == or_kept_opt(opt_view(*given), opt_view(*old(slot))),
{
    if given.is_some() {
        *slot = copy_opt(given);
    }
}

/// Puts `given` into `slot` where it says something.
pub fn put_text(slot: &mut String, given: &Option<String>)
    ensures
        final(slot)@ == or_kept(opt_view(*given), old(slot)@),
{
    if let Some(s) = given {
        *slot = s.clone();
    }
}

fn put_bool(slot: &mut bool, given: Option<bool>)
    ensures
        *final(slot) == or_kept(given, *old(slot)),
{
    if let Some(b) = given {
        *slot = b;
    }
}

fn put_list(slot: &mut Vec<String>, given: &Vec<String>)
    ensures
        views(final(slot)@) == or_kept_list(views(given@), views(old(slot)@)),
{
    if given.len() > 0 {
        *slot = copy_list(given);
    }
}

impl DependencyNode {
    /// The package that a dependency in the manifest stands for.
    pub fn from_target_dep(name: &str, spec: &DependencySpec) -> (r: Self)
        ensures
            r@ == node_of_dependency(name@, details_of(*spec)),
            spec_wf(*spec) ==> r.wf(),
    {
        let d = spec.to_details();
        let dependencies = names_of(&d.dependencies);
        let strategy = match d.strategy {
            Some(s) => s,
            None => "cmake-install".to_owned(),
        };
        DependencyNode {
            name: name.to_owned(),
            kind: NodeKind::TargetDependency,
            version: d.version,
            git: d.git,
            tag: d.tag,
            branch: d.branch,
            commit: d.commit,
            path: d.path,
            shallow: match d.shallow {
                Some(b) => b,
                None => true,
            },
            strategy,
            shared: d.shared,
            header_only: match d.header_only {
                Some(b) => b,
                None => false,
            },
            cmake_options: d.cmake_options,
            abi_ignores: d.abi_ignores,
            platforms: d.platforms,
            dependencies,
            tools: d.tools,
            import_name: d.import_name,
            include_dirs: d.include_dirs,
            libraries: d.libraries,
            binaries: d.binaries,
            enabled_if: d.enabled_if,
            auto_import: match d.auto_import {
                Some(b) => b,
                None => false,
            },
            config: EffectiveConfig::default(),
            source_id: None,
            build_id: None,
            install_prefix: None,
            compiler: None,
            patches: d.patches,
            resolved_commit: None,
            toolchain_fingerprint: None,
        }
    }

    /// Changes the package as an override says.
    pub fn apply_override(&mut self, details: &DependencyDetails)
        ensures
            final(self)@ == overridden(old(self)@, details@),
            old(self).wf() ==> final(self).wf(),
    {
        put_opt(&mut self.version, &details.version);
        if details.git.is_some() || details.path.is_some() {
            self.git = copy_opt(&details.git);
            self.path = copy_opt(&details.path);
        }
        if details.commit.is_some() || details.tag.is_some() || details.branch.is_some() {
            self.commit = copy_opt(&details.commit);
            self.tag = copy_opt(&details.tag);
            self.branch = copy_opt(&details.branch);
        }
        put_bool(&mut self.shallow, details.shallow);
        put_text(&mut self.strategy, &details.strategy);
        if details.shared.is_some() {
            self.shared = details.shared;
        }
        put_bool(&mut self.header_only, details.header_only);
        self.cmake_options.merge(&details.cmake_options);
        extend_list(&mut self.abi_ignores, &details.abi_ignores);
        put_list(&mut self.platforms, &details.platforms);
        let dependencies = names_of(&details.dependencies);
        put_list(&mut self.dependencies, &dependencies);
        put_list(&mut self.tools, &details.tools);
        put_opt(&mut self.import_name, &details.import_name);
        put_list(&mut self.include_dirs, &details.include_dirs);
        put_list(&mut self.libraries, &details.libraries);
        put_list(&mut self.binaries, &details.binaries);
        put_opt(&mut self.enabled_if, &details.enabled_if);
        put_bool(&mut self.auto_import, details.auto_import);
        put_list(&mut self.patches, &details.patches);
    }

    /// The package that a tool in the manifest stands for.
    pub fn from_host_tool(name: &str, req: &ToolRequirement) -> (r: Self)
        ensures
            r@ == node_of_tool(name@, tool_details_of(*req)),
            r.wf(),
    {
        let d = req.to_details();
        let strategy = match d.strategy {
            Some(s) => s,
            None => "cmake-install".to_owned(),
        };
        let mut abi_ignores: Vec<String> = Vec::new();
        abi_ignores.push("vc_runtime".to_owned());
        let r = DependencyNode {
            name: name.to_owned(),
            kind: NodeKind::HostTool,
            version: d.version,
            git: d.git,
            tag: d.tag,
            branch: d.branch,
            commit: d.commit,
            path: d.path,
            shallow: true,
            strategy,
            shared: Some(false),
            header_only: false,
            cmake_options: Table::new(),
            abi_ignores,
            platforms: Vec::new(),
            dependencies: Vec::new(),
            tools: Vec::new(),
            import_name: None,
            include_dirs: Vec::new(),
            libraries: Vec::new(),
            binaries: Vec::new(),
            enabled_if: None,
            auto_import: false,
            config: EffectiveConfig::default(),
            source_id: None,
            build_id: None,
            install_prefix: None,
            compiler: None,
            patches: Vec::new(),
            resolved_commit: None,
            toolchain_fingerprint: None,
        };
        assert(r@ =~= node_of_tool(name@, tool_details_of(*req)));
        r
    }
}

// ---------------------------------------------------------------------------
// What is promised of packages
// ---------------------------------------------------------------------------

/// Each list that an override gives is the list of the package afterwards; a list that it leaves
/// empty stays what it was. The names that the identity ignores add up.
pub proof fn an_override_replaces_the_lists_it_gives(n: NodeView, d: DetailsView)
    ensures
        d.patches.len() > 0 ==> overridden(n, d).patches == d.patches,
        d.platforms.len() > 0 ==> overridden(n, d).platforms == d.platforms,
        d.tools.len() > 0 ==> overridden(n, d).tools == d.tools,
        d.include_dirs.len() > 0 ==> overridden(n, d).include_dirs == d.include_dirs,
        d.libraries.len() > 0 ==> overridden(n, d).libraries == d.libraries,
        d.binaries.len() > 0 ==> overridden(n, d).binaries == d.binaries,
        d.dependencies.len() > 0 ==> overridden(n, d).dependencies.len() == d.dependencies.len()
            && forall|i: int|
            0 <= i < d.dependencies.len() ==> #[trigger] overridden(n, d).dependencies[i]
                == sub_name(d.dependencies[i]),
        d.patches.len() == 0 ==> overridden(n, d).patches == n.patches,
        d.platforms.len() == 0 ==> overridden(n, d).platforms == n.platforms,
        d.tools.len() == 0 ==> overridden(n, d).tools == n.tools,
        d.include_dirs.len() == 0 ==> overridden(n, d).include_dirs == n.include_dirs,
        d.libraries.len() == 0 ==> overridden(n, d).libraries == n.libraries,
        d.binaries.len() == 0 ==> overridden(n, d).binaries == n.binaries,
        d.dependencies.len() == 0 ==> overridden(n, d).dependencies == n.dependencies,
        overridden(n, d).abi_ignores == n.abi_ignores + d.abi_ignores,
{
}

/// Each value that an override sets is the value of the package afterwards; one that it does not
/// set stays what it was.
pub proof fn an_override_replaces_the_values_it_sets(n: NodeView, d: DetailsView)
    ensures
        overridden(n, d).version == if d.version is Some {
            d.version
        } else {
            n.version
        },
        overridden(n, d).shallow == if d.shallow is Some {
            d.shallow->0
        } else {
            n.shallow
        },
        overridden(n, d).strategy == if d.strategy is Some {
            d.strategy->0
        } else {
            n.strategy
        },
        overridden(n, d).shared == if d.shared is Some {
            d.shared
        } else {
            n.shared
        },
        overridden(n, d).header_only == if d.header_only is Some {
            d.header_only->0
        } else {
            n.header_only
        },
        overridden(n, d).import_name == if d.import_name is Some {
            d.import_name
        } else {
            n.import_name
        },
        overridden(n, d).enabled_if == if d.enabled_if is Some {
            d.enabled_if
        } else {
            n.enabled_if
        },
        overridden(n, d).auto_import == if d.auto_import is Some {
            d.auto_import->0
        } else {
            n.auto_import
        },
{
}

/// Each CMake option that an override sets has that value afterwards; every other option keeps the
/// value it had.
pub proof fn an_override_replaces_the_options_it_sets(n: NodeView, d: DetailsView, key: Seq<char>)
    requires
        ordered(n.cmake_options),
        ordered(d.cmake_options),
    ensures
        lookup(d.cmake_options, key) is Some ==> lookup(overridden(n, d).cmake_options, key)
            == lookup(d.cmake_options, key),
        lookup(d.cmake_options, key) is None ==> lookup(overridden(n, d).cmake_options, key)
            == lookup(n.cmake_options, key),
{
    lookup_after_merge(n.cmake_options, d.cmake_options, key);
}

/// An override that names no source and no revision leaves both as they were, and no override
/// changes the name or the kind of a package, or what was worked out about it.
pub proof fn an_override_keeps_what_it_does_not_speak_of(n: NodeView, d: DetailsView)
    ensures
        d.git is None && d.path is None ==> overridden(n, d).git == n.git && overridden(n, d).path
            == n.path,
        d.git is Some || d.path is Some ==> overridden(n, d).git == d.git && overridden(n, d).path
            == d.path,
        d.commit is None && d.tag is None && d.branch is None ==> overridden(n, d).commit
            == n.commit && overridden(n, d).tag == n.tag && overridden(n, d).branch == n.branch,
        d.commit is Some || d.tag is Some || d.branch is Some ==> overridden(n, d).commit
            == d.commit && overridden(n, d).tag == d.tag && overridden(n, d).branch == d.branch,
        overridden(n, d).name == n.name,
        overridden(n, d).kind == n.kind,
        overridden(n, d).config == n.config,
        overridden(n, d).source_id == n.source_id,
        overridden(n, d).build_id == n.build_id,
        overridden(n, d).install_prefix == n.install_prefix,
        overridden(n, d).compiler == n.compiler,
        overridden(n, d).resolved_commit == n.resolved_commit,
        overridden(n, d).toolchain_fingerprint == n.toolchain_fingerprint,
{
}

/// An override that is applied twice changes nothing the second time, but for the names that the
/// identity ignores, which then stand there twice.
pub proof fn an_override_holds_when_repeated(n: NodeView, d: DetailsView)
    requires
        ordered(n.cmake_options),
        ordered(d.cmake_options),
        d.abi_ignores.len() == 0,
    ensures
        ({
            let once = overridden(n, d);
            let twice = overridden(once, d);
            &&& (NodeView { cmake_options: once.cmake_options, ..twice }) == once
            &&& forall|k: Seq<char>| #[trigger]
                lookup(twice.cmake_options, k) == lookup(once.cmake_options, k)
        }),
{
    let once = overridden(n, d);
    let twice = overridden(once, d);
    crate::table::merged_stays_ordered(n.cmake_options, d.cmake_options);
    assert forall|k: Seq<char>| #[trigger] lookup(twice.cmake_options, k) == lookup(
        once.cmake_options,
        k,
    ) by {
        lookup_after_merge(n.cmake_options, d.cmake_options, k);
        lookup_after_merge(once.cmake_options, d.cmake_options, k);
    }
    assert(d.abi_ignores =~= Seq::empty());
    assert(n.abi_ignores + d.abi_ignores =~= n.abi_ignores);
    assert(once.abi_ignores + d.abi_ignores =~= once.abi_ignores);
    assert((NodeView { cmake_options: once.cmake_options, ..twice }) =~= once);
}

/// A dependency takes every value and list from the manifest. What the manifest leaves out is a
/// shallow clone, a CMake installation, libraries that are no headers alone, and no import by
/// itself.
pub proof fn a_dependency_is_what_the_manifest_says(name: Seq<char>, d: DetailsView)
    ensures
        ({
            let n = node_of_dependency(name, d);
            &&& n.name == name
            &&& n.kind == NodeKind::TargetDependency
            &&& n.version == d.version && n.git == d.git && n.path == d.path
            &&& n.commit == d.commit && n.tag == d.tag && n.branch == d.branch
            &&& n.shared == d.shared
            &&& n.cmake_options == d.cmake_options && n.abi_ignores == d.abi_ignores
            &&& n.platforms == d.platforms && n.tools == d.tools
            &&& n.import_name == d.import_name && n.enabled_if == d.enabled_if
            &&& n.include_dirs == d.include_dirs && n.libraries == d.libraries
            &&& n.binaries == d.binaries && n.patches == d.patches
            &&& n.dependencies.len() == d.dependencies.len()
            &&& forall|i: int|
                0 <= i < d.dependencies.len() ==> #[trigger] n.dependencies[i] == sub_name(
                    d.dependencies[i],
                )
            &&& n.shallow <==> d.shallow != Some(false)
            &&& n.header_only <==> d.header_only == Some(true)
            &&& n.auto_import <==> d.auto_import == Some(true)
            &&& n.strategy == if d.strategy is Some {
                d.strategy->0
            } else {
                "cmake-install"@
            }
            &&& n.source_id is None && n.build_id is None && n.install_prefix is None
            &&& n.compiler is None && n.resolved_commit is None && n.toolchain_fingerprint is None
        }),
{
}

/// A tool takes its source from the manifest and is built statically, for every platform and every
/// option, whatever runtime library the target has.
pub proof fn a_tool_is_built_for_the_host(name: Seq<char>, d: ToolView)
    ensures
        ({
            let n = node_of_tool(name, d);
            &&& n.name == name
            &&& n.kind == NodeKind::HostTool
            &&& n.version == d.version && n.git == d.git && n.path == d.path
            &&& n.commit == d.commit && n.tag == d.tag && n.branch == d.branch
            &&& n.shared == Some(false)
            &&& n.shallow && !n.header_only && !n.auto_import
            &&& n.strategy == if d.strategy is Some {
                d.strategy->0
            } else {
                "cmake-install"@
            }
            &&& n.abi_ignores == seq!["vc_runtime"@]
            &&& n.platforms.len() == 0 && n.enabled_if is None
            &&& n.cmake_options.len() == 0
            &&& n.dependencies.len() == 0 && n.tools.len() == 0 && n.patches.len() == 0
            &&& n.include_dirs.len() == 0 && n.libraries.len() == 0 && n.binaries.len() == 0
        }),
        kind_text(NodeKind::HostTool) == "a tool"@,
        kind_text(NodeKind::TargetDependency) == "a dependency"@,
{
}

} // verus!
