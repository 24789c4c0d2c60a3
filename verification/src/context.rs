//! What all packages of a run are built with, and how each of them is configured.
use crate::compiler::{CompilerType, CompilerView};
use crate::digraph::{reaches, reaching_is_mutual};
use crate::git::{as_str_opt, opt_str};
use crate::graph::{reached_from, what_is_reached_from_a_package, DependencyGraph, Direction};
use crate::node::{DependencyNode, NodeKind, NodeView};
use crate::strategy::{
    default_config, strs, with_rules, ConfigView, EffectiveConfig, StrategyEngine,
};
use crate::table::{
    filled, filled_stays_ordered, inserted, lookup, lookup_after_fill, lookup_after_insert, ordered,
    precedes, Table,
};
use crate::target::{Arch, Environment, Os, TargetTriple, TripleView};
use crate::text::{cat5, copy_opt, join, joined, opt_view, same, views};
use crate::util::{expand_vars, expansion, fingerprint_of, toolchain_fingerprint, ToolchainFacts};
use vstd::prelude::*;
use vstd::string::*;

verus! {

broadcast use vstd::string::group_string_axioms;

/// The compiler family of a target for which none is named.
pub open spec fn default_compiler(t: TripleView) -> CompilerView {
    match t.os {
        Os::Android | Os::Ios | Os::Macos | Os::Emscripten => CompilerView::Clang,
        Os::Windows => if t.env == Environment::Gnu {
            CompilerView::Gcc
        } else {
            CompilerView::Msvc
        },
        _ => CompilerView::Gcc,
    }
}

/// The compiler family of a target for which none is named.
pub fn detect_default_compiler(target: &TargetTriple) -> (r: CompilerType)
    ensures
        r@ == default_compiler(target@),
{
    match target.os {
        Os::Android | Os::Ios | Os::Macos | Os::Emscripten => CompilerType::Clang,
        Os::Windows => if target.env == Environment::Gnu {
            CompilerType::Gcc
        } else {
            CompilerType::Msvc
        },
        _ => CompilerType::Gcc,
    }
}

/// What Android calls an architecture.
pub open spec fn abi_text(a: Arch) -> Seq<char> {
    match a {
        Arch::Arm64 => "arm64-v8a"@,
        Arch::Arm => "armeabi-v7a"@,
        Arch::X86_64 => "x86_64"@,
        Arch::X86 => "x86"@,
        _ => "arm64-v8a"@,
    }
}

/// What Android calls an architecture.
pub fn android_abi(arch: Arch) -> (r: &'static str)
    ensures
        r@ == abi_text(arch),
{
    match arch {
        Arch::Arm64 => "arm64-v8a",
        Arch::Arm => "armeabi-v7a",
        Arch::X86_64 => "x86_64",
        Arch::X86 => "x86",
        _ => "arm64-v8a",
    }
}

/// What all packages of a run are built with. `forwarded` are options that every package for the
/// target gets; `vars` are the variables that `${NAME}` in options refers to.
#[derive(Debug)]
pub struct BuildContext {
    pub target: TargetTriple,
    pub host: TargetTriple,
    pub strategy: StrategyEngine,
    pub c_compiler: Option<String>,
    pub cxx_compiler: Option<String>,
    pub toolchain_file: Option<String>,
    pub target_compiler: CompilerType,
    pub host_compiler: CompilerType,
    pub target_base: EffectiveConfig,
    pub default_shared: Option<bool>,
    pub forwarded: Table<String>,
    pub vars: Table<String>,
}

/// `v` with its references replaced, or as it is where one of them cannot be.
pub open spec fn expanded_or_kept(
    v: Seq<char>,
    vars: Seq<(Seq<char>, Seq<char>)>,
    env: Seq<(Seq<char>, Seq<char>)>,
) -> Seq<char> {
    match expansion(v, v, vars, env) {
        Ok(t) => t,
        Err(_) => v,
    }
}

/// Options with the references in their values replaced.
pub open spec fn expanded_options(
    options: Seq<(Seq<char>, Seq<char>)>,
    vars: Seq<(Seq<char>, Seq<char>)>,
    env: Seq<(Seq<char>, Seq<char>)>,
) -> Seq<(Seq<char>, Seq<char>)> {
    options.map_values(|e: (Seq<char>, Seq<char>)| (e.0, expanded_or_kept(e.1, vars, env)))
}

/// What is wrong with the references in the options of a package, one message for each value.
pub open spec fn option_errors(
    options: Seq<(Seq<char>, Seq<char>)>,
    package: Seq<char>,
    vars: Seq<(Seq<char>, Seq<char>)>,
    env: Seq<(Seq<char>, Seq<char>)>,
) -> Seq<Seq<char>>
    decreases options.len(),
{
    if options.len() == 0 {
        seq![]
    } else {
        let so_far = option_errors(options.drop_last(), package, vars, env);
        let (key, value) = options.last();
        match expansion(value, value, vars, env) {
            Ok(_) => so_far,
            Err(m) => so_far.push(
                "In cmake_options."@ + key + " of '"@ + package + "': "@ + m,
            ),
        }
    }
}

fn expand_options(
    options: &mut Table<String>,
    package: &str,
    vars: &Table<String>,
    env: &Table<String>,
    errors: &mut Vec<String>,
)
    ensures
        final(options).texts() == expanded_options(
            old(options).texts(),
            vars.texts(),
            env.texts(),
        ),
        old(options).wf() ==> final(options).wf(),
        views(final(errors)@) == views(old(errors)@) + option_errors(
            old(options).texts(),
            package@,
            vars.texts(),
            env.texts(),
        ),
{
    let ghost start = options.texts();
    let ghost e0 = views(errors@);
    let ghost vs = vars.texts();
    let ghost es = env.texts();
    let mut out: Vec<(String, String)> = Vec::new();
    let mut i: usize = 0;
    assert(start.take(0) =~= Seq::<(Seq<char>, Seq<char>)>::empty());
    assert(views(errors@) =~= e0 + option_errors(start.take(0), package@, vs, es));
    while i < options.entries.len()
        invariant
            i <= options.entries@.len(),
            start == options.texts(),
            *options == *old(options),
            vs == vars.texts(),
            es == env.texts(),
            out@.len() == i,
            forall|k: int|
                0 <= k < i ==> (#[trigger] out@[k]).0@ == start[k].0 && out@[k].1@
                    == expanded_or_kept(start[k].1, vs, es),
            views(errors@) == e0 + option_errors(start.take(i as int), package@, vs, es),
        decreases options.entries@.len() - i,
    {
        let key = options.entries[i].0.clone();
        let value = options.entries[i].1.as_str();
        proof {
            assert(start.take(i + 1).drop_last() =~= start.take(i as int));
            assert(start.take(i + 1).last() == (key@, value@));
            assert(start[i as int] == (key@, value@));
        }
        let ghost before = views(errors@);
        match expand_vars(value, vars, env) {
            Ok(t) => {
                out.push((key, t));
            },
            Err(m) => {
                let text = cat5(
                    "In cmake_options.",
                    key.as_str(),
                    " of '",
                    package,
                    "': ",
                );
                let full = crate::text::cat2(text.as_str(), m.as_str());
                let kept = value.to_owned();
                out.push((key, kept));
                errors.push(full);
                assert(views(errors@) =~= before.push(full@));
                assert(views(errors@) =~= e0 + option_errors(
                    start.take(i + 1),
                    package@,
                    vs,
                    es,
                ));
            },
        }
        i = i + 1;
    }
    assert(start.take(i as int) =~= start);
    let r = Table { entries: out };
    assert(r.texts() =~= expanded_options(start, vs, es));
    proof {
        if options.wf() {
            assert forall|a: int, b: int| 0 <= a < b < r.pairs().len() implies precedes(
                #[trigger] r.pairs()[a].0,
                #[trigger] r.pairs()[b].0,
            ) by {
                assert(start[a].0 == options.pairs()[a].0);
                assert(start[b].0 == options.pairs()[b].0);
            }
        }
    }
    *options = r;
}

impl BuildContext {
    /// Whether the packages are built for the machine itself.
    pub open spec fn native(&self) -> bool {
        self.target.raw@ == self.host.raw@ && self.toolchain_file is None
    }

    /// The compilers and the toolchain file for a package of some kind.
    pub open spec fn compilers(&self, kind: NodeKind) -> (
        Option<Seq<char>>,
        Option<Seq<char>>,
        Option<Seq<char>>,
    ) {
        match kind {
            NodeKind::TargetDependency => (
                opt_view(self.c_compiler),
                opt_view(self.cxx_compiler),
                opt_view(self.toolchain_file),
            ),
            NodeKind::HostTool => if self.native() {
                (opt_view(self.c_compiler), opt_view(self.cxx_compiler), None)
            } else {
                (None, None, None)
            },
        }
    }

    /// The options of a package for the target: its own, then those that are passed on to all, and
    /// for Android what it calls the architecture.
    pub open spec fn target_options(&self, own: Seq<(Seq<char>, Seq<char>)>) -> Seq<
        (Seq<char>, Seq<char>),
    > {
        let all = filled(own, self.forwarded.texts());
        if self.target.os == Os::Android && lookup(all, "ANDROID_ABI"@) is None {
            inserted(all, "ANDROID_ABI"@, abi_text(self.target.arch))
        } else {
            all
        }
    }

    /// A package with what its kind brings: linkage, options and compiler family.
    pub open spec fn prepared(&self, n: NodeView) -> NodeView {
        match n.kind {
            NodeKind::TargetDependency => NodeView {
                shared: if n.shared is None {
                    self.default_shared
                } else {
                    n.shared
                },
                cmake_options: self.target_options(n.cmake_options),
                compiler: Some(self.target_compiler@),
                ..n
            },
            NodeKind::HostTool => NodeView {
                compiler: Some(
                    if self.native() {
                        self.target_compiler@
                    } else {
                        self.host_compiler@
                    },
                ),
                ..n
            },
        }
    }

    /// The settings that the rules start from.
    pub open spec fn base_for(&self, kind: NodeKind) -> ConfigView {
        match kind {
            NodeKind::TargetDependency => self.target_base@,
            NodeKind::HostTool => default_config(),
        }
    }

    /// A package with the settings that the rules give it and the fingerprint of its toolchain.
    pub open spec fn settled(
        &self,
        n: NodeView,
        dependents: Seq<Seq<char>>,
        facts: ToolchainFacts,
    ) -> NodeView {
        let (cc, cxx, file) = self.compilers(n.kind);
        NodeView {
            config: with_rules(
                self.base_for(n.kind),
                self.strategy.rules_for(n.name, dependents),
            ),
            toolchain_fingerprint: fingerprint_of(cc, cxx, file, facts),
            ..self.prepared(n)
        }
    }

    /// A package as it is built.
    pub open spec fn configured(
        &self,
        n: NodeView,
        dependents: Seq<Seq<char>>,
        facts: ToolchainFacts,
        env: Seq<(Seq<char>, Seq<char>)>,
    ) -> NodeView {
        let s = self.settled(n, dependents, facts);
        NodeView {
            cmake_options: expanded_options(s.cmake_options, self.vars.texts(), env),
            config: ConfigView {
                cmake_options: expanded_options(s.config.cmake_options, self.vars.texts(), env),
                ..s.config
            },
            ..s
        }
    }

    /// What is wrong with the options of a package: those of its own, then those of the rules.
    pub open spec fn errors_of(
        &self,
        n: NodeView,
        dependents: Seq<Seq<char>>,
        facts: ToolchainFacts,
        env: Seq<(Seq<char>, Seq<char>)>,
    ) -> Seq<Seq<char>> {
        let s = self.settled(n, dependents, facts);
        option_errors(s.cmake_options, n.name, self.vars.texts(), env) + option_errors(
            s.config.cmake_options,
            n.name,
            self.vars.texts(),
            env,
        )
    }

    /// What is told of a package that cannot be configured: everything that is wrong with it.
    pub open spec fn complaint(
        &self,
        n: NodeView,
        dependents: Seq<Seq<char>>,
        facts: ToolchainFacts,
        env: Seq<(Seq<char>, Seq<char>)>,
    ) -> Option<Seq<char>> {
        let errors = self.errors_of(n, dependents, facts, env);
        if errors.len() == 0 {
            None
        } else {
            Some(joined(errors, "\n"@))
        }
    }

    /// Same target and toolchain, but the rules of another manifest.
    pub fn with_strategy(&self, strategy: StrategyEngine) -> (r: BuildContext)
        ensures
            r.strategy == strategy,
            r.target == self.target,
            r.host == self.host,
            r.c_compiler == self.c_compiler,
            r.cxx_compiler == self.cxx_compiler,
            r.toolchain_file == self.toolchain_file,
            r.target_compiler == self.target_compiler,
            r.host_compiler == self.host_compiler,
            r.target_base@ == self.target_base@,
            self.target_base.cmake_options.wf() ==> r.target_base.cmake_options.wf(),
            r.default_shared == self.default_shared,
            r.forwarded.texts() == self.forwarded.texts(),
            r.vars.texts() == self.vars.texts(),
    {
        BuildContext {
            target: self.target.clone(),
            host: self.host.clone(),
            strategy,
            c_compiler: copy_opt(&self.c_compiler),
            cxx_compiler: copy_opt(&self.cxx_compiler),
            toolchain_file: copy_opt(&self.toolchain_file),
            target_compiler: self.target_compiler.clone(),
            host_compiler: self.host_compiler.clone(),
            target_base: self.target_base.clone(),
            default_shared: self.default_shared,
            forwarded: self.forwarded.copy(),
            vars: self.vars.copy(),
        }
    }

    /// Whether the packages are built for the machine itself.
    pub fn is_native(&self) -> (r: bool)
        ensures
            r == self.native(),
    {
        same(self.target.raw.as_str(), self.host.raw.as_str()) && self.toolchain_file.is_none()
    }

    /// What a package is built for: the target, or the host for tools.
    pub fn triple_for(&self, node: &DependencyNode) -> (r: &TargetTriple)
        ensures
            *r == match node.kind {
                NodeKind::TargetDependency => self.target,
                NodeKind::HostTool => self.host,
            },
    {
        match node.kind {
            NodeKind::TargetDependency => &self.target,
            NodeKind::HostTool => &self.host,
        }
    }

    /// The compilers and the toolchain file of a package. Tools are built with the host's own
    /// toolchain and share the project's compilers only when the project is built for the host.
    pub fn compilers_for(&self, node: &DependencyNode) -> (r: (
        Option<&str>,
        Option<&str>,
        Option<&str>,
    ))
        ensures
            (opt_str(r.0), opt_str(r.1), opt_str(r.2)) == self.compilers(node.kind),
    {
        match node.kind {
            NodeKind::TargetDependency => (
                as_str_opt(&self.c_compiler),
                as_str_opt(&self.cxx_compiler),
                as_str_opt(&self.toolchain_file),
            ),
            NodeKind::HostTool => if self.is_native() {
                (as_str_opt(&self.c_compiler), as_str_opt(&self.cxx_compiler), None)
            } else {
                (None, None, None)
            },
        }
    }

    fn prepare(&self, node: &mut DependencyNode)
        ensures
            final(node)@ == self.prepared(old(node)@),
            final(node).config == old(node).config,
            old(node).wf() ==> final(node).wf(),
    {
        match node.kind {
            NodeKind::TargetDependency => {
                if node.shared.is_none() {
                    node.shared = self.default_shared;
                }
                node.cmake_options.fill(&self.forwarded);
                if self.target.os == Os::Android && !node.cmake_options.has_text("ANDROID_ABI") {
                    node.cmake_options.set_text(
                        "ANDROID_ABI".to_owned(),
                        android_abi(self.target.arch).to_owned(),
                    );
                }
                node.compiler = Some(self.target_compiler.clone());
            },
            NodeKind::HostTool => {
                node.compiler = Some(
                    if self.is_native() {
                        self.target_compiler.clone()
                    } else {
                        self.host_compiler.clone()
                    },
                );
            },
        }
    }

    fn settle(&self, node: &mut DependencyNode, dependents: &[&str], facts: &ToolchainFacts)
        ensures
            final(node)@ == self.settled(old(node)@, strs(dependents@), *facts),
            old(node).wf() && self.target_base.cmake_options.wf() ==> final(node).wf(),
    {
        self.prepare(node);
        let config = match node.kind {
            NodeKind::TargetDependency => self.strategy.resolve_for_node(
                node.name.as_str(),
                dependents,
                &self.target_base,
            ),
            NodeKind::HostTool => {
                let base = EffectiveConfig::default();
                self.strategy.resolve_for_node(node.name.as_str(), dependents, &base)
            },
        };
        node.config = config;
        let (cc, cxx, file) = self.compilers_for(node);
        node.toolchain_fingerprint = toolchain_fingerprint(cc, cxx, file, facts);
    }

    /// Configures a package: what its kind brings, what the rules say, and the references in its
    /// options, which are replaced before anything is hashed. All problems of a package are
    /// reported together. `facts` is what is known of the project's toolchain and `env` the
    /// environment.
    pub fn configure_node(
        &self,
        node: &mut DependencyNode,
        dependents: &[&str],
        facts: &ToolchainFacts,
        env: &Table<String>,
    ) -> (r: Result<(), String>)
        ensures
            final(node)@ == self.configured(old(node)@, strs(dependents@), *facts, env.texts()),
            old(node).wf() && self.target_base.cmake_options.wf() ==> final(node).wf(),
            match self.complaint(old(node)@, strs(dependents@), *facts, env.texts()) {
                Some(m) => r matches Err(e) && e@ == m,
                None => r is Ok,
            },
    {
        let ghost n = node@;
        self.settle(node, dependents, facts);
        let mut errors: Vec<String> = Vec::new();
        let name = node.name.clone();
        expand_options(&mut node.cmake_options, name.as_str(), &self.vars, env, &mut errors);
        expand_options(
            &mut node.config.cmake_options,
            name.as_str(),
            &self.vars,
            env,
            &mut errors,
        );
        assert(views(errors@) =~= self.errors_of(n, strs(dependents@), *facts, env.texts()));
        if errors.len() > 0 {
            return Err(join(&errors, "\n"));
        }
        Ok(())
    }
}

/// Tools do not depend on the target of a project that is built for something else: neither its
/// compilers nor its settings reach them.
pub proof fn tools_of_cross_builds_ignore_the_target(
    a: BuildContext,
    b: BuildContext,
    n: NodeView,
    dependents: Seq<Seq<char>>,
    x: ToolchainFacts,
    y: ToolchainFacts,
    env: Seq<(Seq<char>, Seq<char>)>,
)
    requires
        n.kind == NodeKind::HostTool,
        !a.native(),
        !b.native(),
        a.strategy == b.strategy,
        a.host_compiler@ == b.host_compiler@,
        a.vars.texts() == b.vars.texts(),
    ensures
        a.configured(n, dependents, x, env) == b.configured(n, dependents, y, env),
        a.compilers(n.kind) == (None::<Seq<char>>, None::<Seq<char>>, None::<Seq<char>>),
{
    assert(fingerprint_of(None, None, None, x) is None);
    assert(fingerprint_of(None, None, None, y) is None);
}

/// A package for the target that says how it is linked is linked so, whatever the default.
pub proof fn the_default_linkage_fills_a_gap(ctx: BuildContext, n: NodeView)
    requires
        n.kind == NodeKind::TargetDependency,
    ensures
        n.shared is Some ==> ctx.prepared(n).shared == n.shared,
        n.shared is None ==> ctx.prepared(n).shared == ctx.default_shared,
{
}

/// An option of a package wins over one that is passed on to all.
pub proof fn own_options_win_over_forwarded_ones(ctx: BuildContext, n: NodeView, key: Seq<char>)
    requires
        n.kind == NodeKind::TargetDependency,
        ordered(n.cmake_options),
        lookup(n.cmake_options, key) is Some,
    ensures
        lookup(ctx.prepared(n).cmake_options, key) == lookup(n.cmake_options, key),
{
    crate::table::lookup_after_fill(n.cmake_options, ctx.forwarded.texts(), key);
    crate::table::filled_stays_ordered(n.cmake_options, ctx.forwarded.texts());
    let all = filled(n.cmake_options, ctx.forwarded.texts());
    if lookup(all, "ANDROID_ABI"@) is None {
        crate::table::lookup_after_insert(
            all,
            "ANDROID_ABI"@,
            abi_text(ctx.target.arch),
            key,
        );
    }
}

// ---------------------------------------------------------------------------
// All packages at once
// ---------------------------------------------------------------------------

/// The names of packages.
pub open spec fn names_at(nodes: Seq<NodeView>, indices: Seq<int>) -> Seq<Seq<char>> {
    indices.map_values(|i: int| nodes[i].name)
}

/// The packages that need the `i`th, however indirectly.
pub open spec fn dependents_of(g: DependencyGraph, i: int) -> Seq<Seq<char>> {
    names_at(
        g.node_views(),
        reached_from(g.edges(), i, Direction::Incoming, g.nodes@.len()),
    )
}

/// What is told of the first `n` packages that cannot be configured.
pub open spec fn complaints(
    ctx: BuildContext,
    g: DependencyGraph,
    facts: ToolchainFacts,
    env: Seq<(Seq<char>, Seq<char>)>,
    n: nat,
) -> Seq<Seq<char>>
    decreases n,
{
    if n == 0 {
        seq![]
    } else {
        let so_far = complaints(ctx, g, facts, env, (n - 1) as nat);
        match ctx.complaint(g.node_views()[n - 1], dependents_of(g, n - 1), facts, env) {
            Some(m) => so_far.push(m),
            None => so_far,
        }
    }
}

/// The packages that need the `i`th, however indirectly.
pub fn dependents_in<'a>(graph: &'a DependencyGraph, i: usize) -> (r: Vec<&'a str>)
    requires
        graph.wf(),
    ensures
        strs(r@) == dependents_of(*graph, i as int),
{
    let indices = graph.reachable_list(i, Direction::Incoming);
    let ghost reached = reached_from(graph.edges(), i as int, Direction::Incoming, graph.nodes@.len());
    let mut out: Vec<&'a str> = Vec::new();
    let mut k: usize = 0;
    while k < indices.len()
        invariant
            k <= indices@.len(),
            crate::graph::ints(indices@) == reached,
            forall|j: int| 0 <= j < indices@.len() ==> #[trigger] indices@[j] < graph.nodes@.len(),
            out@.len() == k,
            forall|j: int|
                0 <= j < k ==> (#[trigger] out@[j])@ == graph.nodes@[indices@[j] as int].name@,
        decreases indices@.len() - k,
    {
        let name: &'a str = graph.nodes[indices[k]].name.as_str();
        out.push(name);
        k = k + 1;
    }
    proof {
        assert forall|j: int| 0 <= j < out@.len() implies #[trigger] strs(out@)[j]
            == dependents_of(*graph, i as int)[j] by {
            assert(reached[j] == indices@[j] as int);
            assert(out@[j]@ == graph.nodes@[indices@[j] as int].name@);
        }
        assert(strs(out@) =~= dependents_of(*graph, i as int));
    }
    out
}

/// Configures every package without building it, so that all mistakes of a manifest are reported
/// before the first build.
pub fn preflight(
    ctx: &BuildContext,
    graph: &DependencyGraph,
    facts: &ToolchainFacts,
    env: &Table<String>,
) -> (r: Result<(), String>)
    requires
        graph.wf(),
    ensures
        ({
            let all = complaints(*ctx, *graph, *facts, env.texts(), graph.nodes@.len());
            if all.len() == 0 {
                r is Ok
            } else {
                r matches Err(e) && e@ == joined(all, "\n"@)
            }
        }),
{
    let mut errors: Vec<String> = Vec::new();
    let mut i: usize = 0;
    assert(views(errors@) =~= Seq::<Seq<char>>::empty());
    while i < graph.nodes.len()
        invariant
            graph.wf(),
            i <= graph.nodes@.len(),
            views(errors@) == complaints(*ctx, *graph, *facts, env.texts(), i as nat),
        decreases graph.nodes@.len() - i,
    {
        let mut node = graph.nodes[i].clone();
        assert(graph.node_views()[i as int] == node@);
        let dependents = dependents_in(graph, i);
        let ghost before = views(errors@);
        match ctx.configure_node(&mut node, &dependents, facts, env) {
            Ok(_) => {},
            Err(m) => {
                errors.push(m);
                assert(views(errors@) =~= before.push(m@));
            },
        }
        i = i + 1;
    }
    if errors.len() > 0 {
        return Err(join(&errors, "\n"));
    }
    Ok(())
}

// ---------------------------------------------------------------------------
// What is promised of a configuration
// ---------------------------------------------------------------------------

/// The compiler of a target for which none is named: Clang for Apple's systems, Android and
/// Emscripten, GCC for Linux and for Windows with the GNU environment, MSVC for Windows otherwise.
pub proof fn the_compiler_of_a_target(t: TripleView)
    ensures
        default_compiler(t) is Clang <==> t.os == Os::Macos || t.os == Os::Ios || t.os == Os::Android
            || t.os == Os::Emscripten,
        default_compiler(t) is Msvc <==> t.os == Os::Windows && t.env != Environment::Gnu,
        default_compiler(t) is Gcc <==> t.os == Os::Linux || t.os == Os::Windows && t.env
            == Environment::Gnu,
{
}

/// What a dependency is configured with: its own options, those that are forwarded where it has
/// none of that name, and for Android the name of the architecture's binary interface where nobody
/// gave one.
pub proof fn a_dependency_gets_the_options_of_the_target(
    ctx: BuildContext,
    n: NodeView,
    key: Seq<char>,
)
    requires
        n.kind == NodeKind::TargetDependency,
        ordered(n.cmake_options),
    ensures
        ({
            let own = lookup(n.cmake_options, key);
            let forwarded = lookup(ctx.forwarded.texts(), key);
            let got = lookup(ctx.prepared(n).cmake_options, key);
            &&& own is Some ==> got == own
            &&& own is None && forwarded is Some ==> got == forwarded
            &&& own is None && forwarded is None && key == "ANDROID_ABI"@ && ctx.target.os
                == Os::Android ==> got == Some(
                match ctx.target.arch {
                    Arch::Arm => "armeabi-v7a"@,
                    Arch::X86 => "x86"@,
                    Arch::X86_64 => "x86_64"@,
                    _ => "arm64-v8a"@,
                },
            )
            &&& own is None && forwarded is None && (key != "ANDROID_ABI"@ || ctx.target.os
                != Os::Android) ==> got is None
        }),
{
    let all = filled(n.cmake_options, ctx.forwarded.texts());
    lookup_after_fill(n.cmake_options, ctx.forwarded.texts(), key);
    lookup_after_fill(n.cmake_options, ctx.forwarded.texts(), "ANDROID_ABI"@);
    filled_stays_ordered(n.cmake_options, ctx.forwarded.texts());
    lookup_after_insert(all, "ANDROID_ABI"@, abi_text(ctx.target.arch), key);
}

/// A dependency is built with the compiler of the target; a tool with that of the host, which is
/// the target's where the build is for the host itself. Nothing else is changed in a tool.
pub proof fn a_tool_is_configured_for_the_host(ctx: BuildContext, n: NodeView)
    ensures
        n.kind == NodeKind::TargetDependency ==> ctx.prepared(n).compiler == Some(
            ctx.target_compiler@,
        ),
        n.kind == NodeKind::TargetDependency ==> (NodeView {
            shared: n.shared,
            cmake_options: n.cmake_options,
            compiler: n.compiler,
            ..ctx.prepared(n)
        }) == n,
        n.kind == NodeKind::HostTool && ctx.native() ==> ctx.prepared(n) == (NodeView {
            compiler: Some(ctx.target_compiler@),
            ..n
        }),
        n.kind == NodeKind::HostTool && !ctx.native() ==> ctx.prepared(n) == (NodeView {
            compiler: Some(ctx.host_compiler@),
            ..n
        }),
        ctx.native() <==> ctx.target.raw@ == ctx.host.raw@ && ctx.toolchain_file is None,
{
    if n.kind == NodeKind::TargetDependency {
        assert((NodeView {
            shared: n.shared,
            cmake_options: n.cmake_options,
            compiler: n.compiler,
            ..ctx.prepared(n)
        }) =~= n);
    }
}

/// The compilers and the toolchain file of a build are for its dependencies; a tool gets the
/// compilers only where the build is for the host itself, and never the file.
pub proof fn compilers_are_for_the_target(ctx: BuildContext)
    ensures
        ctx.compilers(NodeKind::TargetDependency) == (
            opt_view(ctx.c_compiler),
            opt_view(ctx.cxx_compiler),
            opt_view(ctx.toolchain_file),
        ),
        ctx.native() ==> ctx.compilers(NodeKind::HostTool) == (
            opt_view(ctx.c_compiler),
            opt_view(ctx.cxx_compiler),
            None::<Seq<char>>,
        ),
        !ctx.native() ==> ctx.compilers(NodeKind::HostTool) == (
            None::<Seq<char>>,
            None::<Seq<char>>,
            None::<Seq<char>>,
        ),
{
}

/// A dependency starts from the settings of the run, a tool from the defaults; the rules then
/// decide, those for it and for its dependents. Its tools are in its fingerprint.
pub proof fn rules_decide_the_settings(
    ctx: BuildContext,
    n: NodeView,
    dependents: Seq<Seq<char>>,
    facts: ToolchainFacts,
)
    ensures
        ({
            let s = ctx.settled(n, dependents, facts);
            let rules = ctx.strategy.rules_for(n.name, dependents);
            let tools = ctx.compilers(n.kind);
            &&& n.kind == NodeKind::TargetDependency ==> s.config == with_rules(
                ctx.target_base@,
                rules,
            )
            &&& n.kind == NodeKind::HostTool ==> s.config == with_rules(default_config(), rules)
            &&& n.kind == NodeKind::TargetDependency && rules.len() == 0 ==> s.config
                == ctx.target_base@
            &&& s.toolchain_fingerprint == fingerprint_of(tools.0, tools.1, tools.2, facts)
            &&& s.name == n.name && s.kind == n.kind && s.compiler == ctx.prepared(n).compiler
            &&& s.cmake_options == ctx.prepared(n).cmake_options
            &&& s.shared == ctx.prepared(n).shared
        }),
{
}

/// Every option is expanded, under its own name; what cannot be expanded stays as it is.
pub proof fn every_option_is_expanded(
    options: Seq<(Seq<char>, Seq<char>)>,
    vars: Seq<(Seq<char>, Seq<char>)>,
    env: Seq<(Seq<char>, Seq<char>)>,
    key: Seq<char>,
)
    ensures
        lookup(options, key) is None ==> lookup(expanded_options(options, vars, env), key) is None,
        lookup(options, key) matches Some(v) ==> {
            &&& expansion(v, v, vars, env) is Ok ==> lookup(
                expanded_options(options, vars, env),
                key,
            ) == Some(expansion(v, v, vars, env)->Ok_0)
            &&& expansion(v, v, vars, env) is Err ==> lookup(
                expanded_options(options, vars, env),
                key,
            ) == Some(v)
        },
    decreases options.len(),
{
    if options.len() > 0 {
        let rest = options.skip(1);
        every_option_is_expanded(rest, vars, env, key);
        let all = expanded_options(options, vars, env);
        assert(all.skip(1) =~= expanded_options(rest, vars, env));
        assert(all[0].0 == options[0].0);
    }
}

/// What a package is finally configured with: its options and those of its settings, expanded; all
/// else as the rules settled it.
pub proof fn a_configured_package_has_its_options_expanded(
    ctx: BuildContext,
    n: NodeView,
    dependents: Seq<Seq<char>>,
    facts: ToolchainFacts,
    env: Seq<(Seq<char>, Seq<char>)>,
)
    ensures
        ({
            let s = ctx.settled(n, dependents, facts);
            let c = ctx.configured(n, dependents, facts, env);
            &&& c.cmake_options == expanded_options(s.cmake_options, ctx.vars.texts(), env)
            &&& c.config.cmake_options == expanded_options(
                s.config.cmake_options,
                ctx.vars.texts(),
                env,
            )
            &&& c.config.shared == s.config.shared && c.config.build_type == s.config.build_type
            &&& c.config.vc_runtime == s.config.vc_runtime && c.config.lto == s.config.lto
            &&& c.config.flags == s.config.flags && c.config.cxx_std == s.config.cxx_std
            &&& c.config.cxx_stdlib == s.config.cxx_stdlib
            &&& c.shared == s.shared && c.compiler == s.compiler
            &&& c.toolchain_fingerprint == s.toolchain_fingerprint
        }),
{
}

proof fn lemma_no_option_errors(
    options: Seq<(Seq<char>, Seq<char>)>,
    package: Seq<char>,
    vars: Seq<(Seq<char>, Seq<char>)>,
    env: Seq<(Seq<char>, Seq<char>)>,
)
    ensures
        option_errors(options, package, vars, env).len() == 0 <==> forall|i: int|
            0 <= i < options.len() ==> expansion(
                (#[trigger] options[i]).1,
                options[i].1,
                vars,
                env,
            ) is Ok,
    decreases options.len(),
{
    if options.len() > 0 {
        let init = options.drop_last();
        lemma_no_option_errors(init, package, vars, env);
        let last = options[options.len() - 1];
        assert(options.last() == last);
        if option_errors(options, package, vars, env).len() == 0 {
            assert forall|i: int| 0 <= i < options.len() implies expansion(
                (#[trigger] options[i]).1,
                options[i].1,
                vars,
                env,
            ) is Ok by {
                if i < init.len() {
                    assert(init[i] == options[i]);
                }
            }
        }
        if forall|i: int|
            0 <= i < options.len() ==> expansion(
                (#[trigger] options[i]).1,
                options[i].1,
                vars,
                env,
            ) is Ok {
            assert forall|i: int| 0 <= i < init.len() implies expansion(
                (#[trigger] init[i]).1,
                init[i].1,
                vars,
                env,
            ) is Ok by {
                assert(init[i] == options[i]);
            }
            assert(expansion(last.1, last.1, vars, env) is Ok);
        }
    }
}

/// A package is complained of exactly where one of its options cannot be expanded, its own or those
/// that the rules set.
pub proof fn an_option_that_cannot_be_expanded_is_complained_of(
    ctx: BuildContext,
    n: NodeView,
    dependents: Seq<Seq<char>>,
    facts: ToolchainFacts,
    env: Seq<(Seq<char>, Seq<char>)>,
)
    ensures
        ({
            let s = ctx.settled(n, dependents, facts);
            let vars = ctx.vars.texts();
            ctx.complaint(n, dependents, facts, env) is None <==> (forall|i: int|
                0 <= i < s.cmake_options.len() ==> expansion(
                    (#[trigger] s.cmake_options[i]).1,
                    s.cmake_options[i].1,
                    vars,
                    env,
                ) is Ok) && (forall|i: int|
                0 <= i < s.config.cmake_options.len() ==> expansion(
                    (#[trigger] s.config.cmake_options[i]).1,
                    s.config.cmake_options[i].1,
                    vars,
                    env,
                ) is Ok)
        }),
{
    let s = ctx.settled(n, dependents, facts);
    lemma_no_option_errors(s.cmake_options, n.name, ctx.vars.texts(), env);
    lemma_no_option_errors(s.config.cmake_options, n.name, ctx.vars.texts(), env);
}

/// The complaint about an option names the option, the package and what is wrong.
pub proof fn a_complaint_names_the_option(
    key: Seq<char>,
    value: Seq<char>,
    package: Seq<char>,
    vars: Seq<(Seq<char>, Seq<char>)>,
    env: Seq<(Seq<char>, Seq<char>)>,
)
    ensures
        expansion(value, value, vars, env) matches Err(m) ==> option_errors(
            seq![(key, value)],
            package,
            vars,
            env,
        ) == seq!["In cmake_options."@ + key + " of '"@ + package + "': "@ + m],
{
    let one = seq![(key, value)];
    assert(one.drop_last() =~= Seq::empty());
    assert(one.last() == (key, value));
    if let Err(m) = expansion(value, value, vars, env) {
        let none = option_errors(one.drop_last(), package, vars, env);
        assert(none =~= seq![]);
        assert(option_errors(one, package, vars, env) =~= seq![
            "In cmake_options."@ + key + " of '"@ + package + "': "@ + m,
        ]);
    }
}

/// A build may start exactly where no package is complained of.
pub proof fn no_complaint_is_passed_over(
    ctx: BuildContext,
    g: DependencyGraph,
    facts: ToolchainFacts,
    env: Seq<(Seq<char>, Seq<char>)>,
    n: nat,
)
    ensures
        complaints(ctx, g, facts, env, n).len() == 0 <==> forall|i: int|
            0 <= i < n ==> ctx.complaint(
                g.node_views()[i],
                #[trigger] dependents_of(g, i),
                facts,
                env,
            ) is None,
    decreases n,
{
    if n > 0 {
        no_complaint_is_passed_over(ctx, g, facts, env, (n - 1) as nat);
        let d = dependents_of(g, n - 1);
        assert(d == dependents_of(g, n - 1));
    }
}

/// The dependents of a package are exactly the packages whose edges lead to it, near and far.
pub proof fn who_depends_on_a_package(g: DependencyGraph, i: int, name: Seq<char>)
    ensures
        dependents_of(g, i).contains(name) <==> exists|k: int|
            0 <= k < g.nodes@.len() && (#[trigger] g.nodes@[k]).name@ == name && reaches(
                g.edges(),
                k,
                i,
                Direction::Outgoing,
            ),
{
    let reached = reached_from(g.edges(), i, Direction::Incoming, g.nodes@.len());
    what_is_reached_from_a_package(g.edges(), i, Direction::Incoming, g.nodes@.len());
    let all = dependents_of(g, i);
    if all.contains(name) {
        let j = choose|j: int| 0 <= j < all.len() && all[j] == name;
        assert(reached.contains(reached[j]));
        reaching_is_mutual(g.edges(), reached[j], i);
        assert(g.nodes@[reached[j]].name@ == name);
    }
    if exists|k: int|
        0 <= k < g.nodes@.len() && (#[trigger] g.nodes@[k]).name@ == name && reaches(
            g.edges(),
            k,
            i,
            Direction::Outgoing,
        ) {
        let k = choose|k: int|
            0 <= k < g.nodes@.len() && (#[trigger] g.nodes@[k]).name@ == name && reaches(
                g.edges(),
                k,
                i,
                Direction::Outgoing,
            );
        reaching_is_mutual(g.edges(), k, i);
        assert(reached.contains(k));
        let j = choose|j: int| 0 <= j < reached.len() && reached[j] == k;
        assert(all[j] == g.node_views()[k].name);
    }
}

} // verus!
