//! What a project declares: its manifest and the machine's own configuration.
use crate::error::{CoreError, CoreErrorView};
use crate::table::Table;
use crate::target::{result_view, BuildType, CxxStdlib, VCRuntime};
use crate::text::{cat2, cat3, copy_list, copy_opt, lower, opt_view, same, to_lowercase, views};
use vstd::prelude::*;
use vstd::string::*;

verus! {

broadcast use vstd::string::group_string_axioms;

/// A project's manifest.
#[derive(Debug)]
pub struct Manifest {
    pub package: Option<PackageSection>,
    pub project: Option<ProjectSection>,
    pub presets: Table<Preset>,
    pub registries: Table<RegistryConfig>,
    pub tools: Table<ToolRequirement>,
    pub dependencies: Table<DependencySpec>,
    pub strategy: Vec<StrategyRule>,
    pub overrides: Table<DependencyDetails>,
    pub targets: Table<TargetSysrootConfig>,
}

impl Manifest {
    /// The tables have their keys in order, each once.
    pub open spec fn wf(&self) -> bool {
        self.presets.wf() && self.registries.wf() && self.tools.wf() && self.dependencies.wf()
            && self.overrides.wf() && self.targets.wf()
    }
}

impl Default for Manifest {
    fn default() -> (r: Self)
        ensures
            r.wf(),
            r.package is None,
            r.project is None,
            r.presets.pairs().len() == 0,
            r.registries.pairs().len() == 0,
            r.tools.pairs().len() == 0,
            r.dependencies.pairs().len() == 0,
            r.strategy@.len() == 0,
            r.overrides.pairs().len() == 0,
            r.targets.pairs().len() == 0,
    {
        Manifest {
            package: None,
            project: None,
            presets: Table::new(),
            registries: Table::new(),
            tools: Table::new(),
            dependencies: Table::new(),
            strategy: Vec::new(),
            overrides: Table::new(),
            targets: Table::new(),
        }
    }
}

#[derive(Debug)]
pub struct PackageSection {
    pub name: String,
    pub version: Option<String>,
    pub latest: Option<String>,
}

#[derive(Debug)]
pub struct ProjectSection {
    pub name: String,
    pub version: Option<String>,
}

#[derive(Debug)]
pub struct Preset {
    pub build_type: Option<BuildType>,
    pub vc_runtime: Option<VCRuntime>,
    pub cxx_std: Option<String>,
    pub cxx_stdlib: Option<CxxStdlib>,
    pub cxx_stdlib_package: Option<String>,
    pub lto: Option<LtoSetting>,
    pub flags: Vec<String>,
}

impl Default for Preset {
    fn default() -> (r: Self)
        ensures
            r.build_type is None,
            r.vc_runtime is None,
            r.cxx_std is None,
            r.cxx_stdlib is None,
            r.cxx_stdlib_package is None,
            r.lto is None,
            r.flags@.len() == 0,
    {
        Preset {
            build_type: None,
            vc_runtime: None,
            cxx_std: None,
            cxx_stdlib: None,
            cxx_stdlib_package: None,
            lto: None,
            flags: Vec::new(),
        }
    }
}

/// `true`, `false`, or a mode such as `thin`, `full`, `on` and `off`.
#[derive(Debug)]
pub enum LtoSetting {
    Bool(bool),
    Mode(String),
}

/// A setting with its mode as a sequence of characters.
pub enum LtoView {
    Bool(bool),
    Mode(Seq<char>),
}

impl View for LtoSetting {
    type V = LtoView;

    open spec fn view(&self) -> LtoView {
        match self {
            LtoSetting::Bool(b) => LtoView::Bool(*b),
            LtoSetting::Mode(m) => LtoView::Mode(m@),
        }
    }
}

/// Whether a setting asks for link time optimisation.
pub open spec fn lto_enabled(l: LtoView) -> Result<bool, CoreErrorView> {
    match l {
        LtoView::Bool(b) => Ok(b),
        LtoView::Mode(m) => {
            let n = lower(m);
            if n == "on"@ || n == "true"@ || n == "thin"@ || n == "full"@ || n == "fat"@ {
                Ok(true)
            } else if n == "off"@ || n == "false"@ || n == "none"@ {
                Ok(false)
            } else {
                Err(CoreErrorView::Manifest("Unknown lto mode: "@ + n))
            }
        },
    }
}

impl LtoSetting {
    pub fn enabled(&self) -> (r: Result<bool, CoreError>)
        ensures
            result_view(r) == lto_enabled(self@),
    {
        match self {
            LtoSetting::Bool(b) => Ok(*b),
            LtoSetting::Mode(m) => {
                let l = to_lowercase(m.as_str());
                let n = l.as_str();
                if same(n, "on") || same(n, "true") || same(n, "thin") || same(n, "full") || same(
                    n,
                    "fat",
                ) {
                    Ok(true)
                } else if same(n, "off") || same(n, "false") || same(n, "none") {
                    Ok(false)
                } else {
                    Err(CoreError::Manifest(cat2("Unknown lto mode: ", n)))
                }
            },
        }
    }
}

#[derive(Debug)]
pub struct RegistryConfig {
    pub git: String,
    pub branch: String,
}

/// The branch of a registry that names none.
pub fn default_branch() -> (r: String)
    ensures
        r@ == "main"@,
{
    "main".to_owned()
}

// ---------------------------------------------------------------------------
// Tools
// ---------------------------------------------------------------------------

#[derive(Debug)]
pub enum ToolRequirement {
    Version(String),
    Detailed(ToolDetails),
}

#[derive(Debug)]
pub struct ToolDetails {
    pub version: Option<String>,
    pub git: Option<String>,
    pub tag: Option<String>,
    pub branch: Option<String>,
    pub commit: Option<String>,
    pub path: Option<String>,
    pub strategy: Option<String>,
}

/// The details of a tool as texts.
pub struct ToolView {
    pub version: Option<Seq<char>>,
    pub git: Option<Seq<char>>,
    pub tag: Option<Seq<char>>,
    pub branch: Option<Seq<char>>,
    pub commit: Option<Seq<char>>,
    pub path: Option<Seq<char>>,
    pub strategy: Option<Seq<char>>,
}

impl View for ToolDetails {
    type V = ToolView;

    open spec fn view(&self) -> ToolView {
        ToolView {
            version: opt_view(self.version),
            git: opt_view(self.git),
            tag: opt_view(self.tag),
            branch: opt_view(self.branch),
            commit: opt_view(self.commit),
            path: opt_view(self.path),
            strategy: opt_view(self.strategy),
        }
    }
}

/// Details that say nothing.
pub open spec fn no_tool_details() -> ToolView {
    ToolView {
        version: None,
        git: None,
        tag: None,
        branch: None,
        commit: None,
        path: None,
        strategy: None,
    }
}

impl Default for ToolDetails {
    fn default() -> (r: Self)
        ensures
            r@ == no_tool_details(),
    {
        ToolDetails {
            version: None,
            git: None,
            tag: None,
            branch: None,
            commit: None,
            path: None,
            strategy: None,
        }
    }
}

impl Clone for ToolDetails {
    fn clone(&self) -> (r: Self)
        ensures
            r@ == self@,
    {
        ToolDetails {
            version: copy_opt(&self.version),
            git: copy_opt(&self.git),
            tag: copy_opt(&self.tag),
            branch: copy_opt(&self.branch),
            commit: copy_opt(&self.commit),
            path: copy_opt(&self.path),
            strategy: copy_opt(&self.strategy),
        }
    }
}

/// What a requirement says: a bare version is details with that version alone.
pub open spec fn tool_details_of(req: ToolRequirement) -> ToolView {
    match req {
        ToolRequirement::Version(v) => ToolView { version: Some(v@), ..no_tool_details() },
        ToolRequirement::Detailed(d) => d@,
    }
}

impl ToolRequirement {
    pub fn to_details(&self) -> (r: ToolDetails)
        ensures
            r@ == tool_details_of(*self),
    {
        match self {
            ToolRequirement::Version(v) => {
                let mut d = ToolDetails::default();
                d.version = Some(v.clone());
                d
            },
            ToolRequirement::Detailed(d) => d.clone(),
        }
    }
}

// ---------------------------------------------------------------------------
// Dependencies
// ---------------------------------------------------------------------------

/// The value of an option. Values other than these three kinds are held in the text that
/// TOML writes for them.
#[derive(Debug)]
pub enum OptionValue {
    Boolean(bool),
    Integer(i64),
    Text(String),
    Other(String),
}

/// The value of an option with its text as a sequence of characters.
pub enum OptionView {
    Boolean(bool),
    Integer(i64),
    Text(Seq<char>),
    Other(Seq<char>),
}

impl View for OptionValue {
    type V = OptionView;

    open spec fn view(&self) -> OptionView {
        match self {
            OptionValue::Boolean(b) => OptionView::Boolean(*b),
            OptionValue::Integer(i) => OptionView::Integer(*i),
            OptionValue::Text(s) => OptionView::Text(s@),
            OptionValue::Other(s) => OptionView::Other(s@),
        }
    }
}

impl Clone for OptionValue {
    fn clone(&self) -> (r: Self)
        ensures
            r@ == self@,
    {
        match self {
            OptionValue::Boolean(b) => OptionValue::Boolean(*b),
            OptionValue::Integer(i) => OptionValue::Integer(*i),
            OptionValue::Text(s) => OptionValue::Text(s.clone()),
            OptionValue::Other(s) => OptionValue::Other(s.clone()),
        }
    }
}

/// The options in a table, as views.
pub open spec fn options_of(pairs: Seq<(Seq<char>, OptionValue)>) -> Seq<(Seq<char>, OptionView)> {
    pairs.map_values(|e: (Seq<char>, OptionValue)| (e.0, e.1@))
}

/// A copy of a table of options.
pub fn copy_options(t: &Table<OptionValue>) -> (r: Table<OptionValue>)
    ensures
        options_of(r.pairs()) == options_of(t.pairs()),
        t.wf() ==> r.wf(),
{
    let mut out: Vec<(String, OptionValue)> = Vec::new();
    let mut i: usize = 0;
    while i < t.entries.len()
        invariant
            i <= t.entries@.len(),
            out@.len() == i,
            forall|k: int|
                0 <= k < i ==> #[trigger] out@[k].0@ == t.entries@[k].0@ && out@[k].1@
                    == t.entries@[k].1@,
        decreases t.entries@.len() - i,
    {
        let k = t.entries[i].0.clone();
        let v = t.entries[i].1.clone();
        out.push((k, v));
        i = i + 1;
    }
    let r = Table { entries: out };
    assert(options_of(r.pairs()) =~= options_of(t.pairs()));
    proof {
        if t.wf() {
            assert forall|a: int, b: int| 0 <= a < b < r.pairs().len() implies crate::table::precedes(
                #[trigger] r.pairs()[a].0,
                #[trigger] r.pairs()[b].0,
            ) by {
                assert(r.pairs()[a].0 == t.pairs()[a].0);
                assert(r.pairs()[b].0 == t.pairs()[b].0);
            }
        }
    }
    r
}

#[derive(Debug)]
pub enum SubDependency {
    Simple(String),
    Detailed { name: String, version: Option<String>, options: Table<OptionValue> },
}

/// A reference to another dependency, as texts.
pub enum SubView {
    Simple(Seq<char>),
    Detailed {
        name: Seq<char>,
        version: Option<Seq<char>>,
        options: Seq<(Seq<char>, OptionView)>,
    },
}

impl View for SubDependency {
    type V = SubView;

    open spec fn view(&self) -> SubView {
        match self {
            SubDependency::Simple(s) => SubView::Simple(s@),
            SubDependency::Detailed { name, version, options } => SubView::Detailed {
                name: name@,
                version: opt_view(*version),
                options: options_of(options.pairs()),
            },
        }
    }
}

/// The package that a reference names.
pub open spec fn sub_name(s: SubView) -> Seq<char> {
    match s {
        SubView::Simple(n) => n,
        SubView::Detailed { name, .. } => name,
    }
}

impl Clone for SubDependency {
    fn clone(&self) -> (r: Self)
        ensures
            r@ == self@,
    {
        match self {
            SubDependency::Simple(s) => SubDependency::Simple(s.clone()),
            SubDependency::Detailed { name, version, options } => SubDependency::Detailed {
                name: name.clone(),
                version: copy_opt(version),
                options: copy_options(options),
            },
        }
    }
}

impl SubDependency {
    pub fn name(&self) -> (r: &str)
        ensures
            r@ == sub_name(self@),
    {
        match self {
            SubDependency::Simple(s) => s.as_str(),
            SubDependency::Detailed { name, .. } => name.as_str(),
        }
    }
}

/// References as views.
pub open spec fn sub_views(v: Seq<SubDependency>) -> Seq<SubView> {
    v.map_values(|s: SubDependency| s@)
}

/// The packages that references name.
pub open spec fn sub_names(v: Seq<SubView>) -> Seq<Seq<char>> {
    v.map_values(|s: SubView| sub_name(s))
}

fn copy_subs(v: &Vec<SubDependency>) -> (r: Vec<SubDependency>)
    ensures
        sub_views(r@) == sub_views(v@),
{
    let mut out: Vec<SubDependency> = Vec::new();
    let mut i: usize = 0;
    while i < v.len()
        invariant
            i <= v@.len(),
            out@.len() == i,
            forall|k: int| 0 <= k < i ==> (#[trigger] out@[k])@ == v@[k]@,
        decreases v@.len() - i,
    {
        let s = v[i].clone();
        out.push(s);
        i = i + 1;
    }
    assert(sub_views(out@) =~= sub_views(v@));
    out
}

/// The packages that references name.
pub fn names_of(v: &Vec<SubDependency>) -> (r: Vec<String>)
    ensures
        views(r@) == sub_names(sub_views(v@)),
{
    let mut out: Vec<String> = Vec::new();
    let mut i: usize = 0;
    while i < v.len()
        invariant
            i <= v@.len(),
            out@.len() == i,
            forall|k: int| 0 <= k < i ==> #[trigger] out@[k]@ == sub_name(v@[k]@),
        decreases v@.len() - i,
    {
        let s = v[i].name().to_owned();
        out.push(s);
        i = i + 1;
    }
    assert(views(out@) =~= sub_names(sub_views(v@)));
    out
}

#[derive(Debug)]
pub enum DependencySpec {
    Version(String),
    Detailed(DependencyDetails),
}

#[derive(Debug)]
pub struct DependencyDetails {
    pub version: Option<String>,
    pub git: Option<String>,
    pub tag: Option<String>,
    pub branch: Option<String>,
    pub commit: Option<String>,
    pub path: Option<String>,
    pub shallow: Option<bool>,
    pub strategy: Option<String>,
    pub shared: Option<bool>,
    pub header_only: Option<bool>,
    pub cmake_options: Table<String>,
    pub abi_ignores: Vec<String>,
    pub platforms: Vec<String>,
    pub dependencies: Vec<SubDependency>,
    pub tools: Vec<String>,
    pub recipe: Option<String>,
    pub import_name: Option<String>,
    pub include_dirs: Vec<String>,
    pub libraries: Vec<String>,
    pub binaries: Vec<String>,
    pub enabled_if: Option<String>,
    pub auto_import: Option<bool>,
    pub patches: Vec<String>,
}

/// The details of a dependency as texts.
#[verifier::ext_equal]
pub struct DetailsView {
    pub version: Option<Seq<char>>,
    pub git: Option<Seq<char>>,
    pub tag: Option<Seq<char>>,
    pub branch: Option<Seq<char>>,
    pub commit: Option<Seq<char>>,
    pub path: Option<Seq<char>>,
    pub shallow: Option<bool>,
    pub strategy: Option<Seq<char>>,
    pub shared: Option<bool>,
    pub header_only: Option<bool>,
    pub cmake_options: Seq<(Seq<char>, Seq<char>)>,
    pub abi_ignores: Seq<Seq<char>>,
    pub platforms: Seq<Seq<char>>,
    pub dependencies: Seq<SubView>,
    pub tools: Seq<Seq<char>>,
    pub recipe: Option<Seq<char>>,
    pub import_name: Option<Seq<char>>,
    pub include_dirs: Seq<Seq<char>>,
    pub libraries: Seq<Seq<char>>,
    pub binaries: Seq<Seq<char>>,
    pub enabled_if: Option<Seq<char>>,
    pub auto_import: Option<bool>,
    pub patches: Seq<Seq<char>>,
}

impl View for DependencyDetails {
    type V = DetailsView;

    open spec fn view(&self) -> DetailsView {
        DetailsView {
            version: opt_view(self.version),
            git: opt_view(self.git),
            tag: opt_view(self.tag),
            branch: opt_view(self.branch),
            commit: opt_view(self.commit),
            path: opt_view(self.path),
            shallow: self.shallow,
            strategy: opt_view(self.strategy),
            shared: self.shared,
            header_only: self.header_only,
            cmake_options: self.cmake_options.texts(),
            abi_ignores: views(self.abi_ignores@),
            platforms: views(self.platforms@),
            dependencies: sub_views(self.dependencies@),
            tools: views(self.tools@),
            recipe: opt_view(self.recipe),
            import_name: opt_view(self.import_name),
            include_dirs: views(self.include_dirs@),
            libraries: views(self.libraries@),
            binaries: views(self.binaries@),
            enabled_if: opt_view(self.enabled_if),
            auto_import: self.auto_import,
            patches: views(self.patches@),
        }
    }
}

/// Details that say nothing.
pub open spec fn no_details() -> DetailsView {
    DetailsView {
        version: None,
        git: None,
        tag: None,
        branch: None,
        commit: None,
        path: None,
        shallow: None,
        strategy: None,
        shared: None,
        header_only: None,
        cmake_options: Seq::empty(),
        abi_ignores: Seq::empty(),
        platforms: Seq::empty(),
        dependencies: Seq::empty(),
        tools: Seq::empty(),
        recipe: None,
        import_name: None,
        include_dirs: Seq::empty(),
        libraries: Seq::empty(),
        binaries: Seq::empty(),
        enabled_if: None,
        auto_import: None,
        patches: Seq::empty(),
    }
}

impl Default for DependencyDetails {
    fn default() -> (r: Self)
        ensures
            r@ == no_details(),
            r.cmake_options.wf(),
    {
        let r = DependencyDetails {
            version: None,
            git: None,
            tag: None,
            branch: None,
            commit: None,
            path: None,
            shallow: None,
            strategy: None,
            shared: None,
            header_only: None,
            cmake_options: Table::new(),
            abi_ignores: Vec::new(),
            platforms: Vec::new(),
            dependencies: Vec::new(),
            tools: Vec::new(),
            recipe: None,
            import_name: None,
            include_dirs: Vec::new(),
            libraries: Vec::new(),
            binaries: Vec::new(),
            enabled_if: None,
            auto_import: None,
            patches: Vec::new(),
        };
        assert(r@ =~= no_details());
        r
    }
}

impl Clone for DependencyDetails {
    fn clone(&self) -> (r: Self)
        ensures
            r@ == self@,
            self.cmake_options.wf() ==> r.cmake_options.wf(),
    {
        DependencyDetails {
            version: copy_opt(&self.version),
            git: copy_opt(&self.git),
            tag: copy_opt(&self.tag),
            branch: copy_opt(&self.branch),
            commit: copy_opt(&self.commit),
            path: copy_opt(&self.path),
            shallow: self.shallow,
            strategy: copy_opt(&self.strategy),
            shared: self.shared,
            header_only: self.header_only,
            cmake_options: self.cmake_options.copy(),
            abi_ignores: copy_list(&self.abi_ignores),
            platforms: copy_list(&self.platforms),
            dependencies: copy_subs(&self.dependencies),
            tools: copy_list(&self.tools),
            recipe: copy_opt(&self.recipe),
            import_name: copy_opt(&self.import_name),
            include_dirs: copy_list(&self.include_dirs),
            libraries: copy_list(&self.libraries),
            binaries: copy_list(&self.binaries),
            enabled_if: copy_opt(&self.enabled_if),
            auto_import: self.auto_import,
            patches: copy_list(&self.patches),
        }
    }
}

/// What a declaration says: a bare version is details with that version alone.
pub open spec fn details_of(spec: DependencySpec) -> DetailsView {
    match spec {
        DependencySpec::Version(v) => DetailsView { version: Some(v@), ..no_details() },
        DependencySpec::Detailed(d) => d@,
    }
}

/// The options of a declaration are in order.
pub open spec fn spec_wf(spec: DependencySpec) -> bool {
    spec matches DependencySpec::Detailed(d) ==> d.cmake_options.wf()
}

impl DependencySpec {
    pub fn to_details(&self) -> (r: DependencyDetails)
        ensures
            r@ == details_of(*self),
            spec_wf(*self) ==> r.cmake_options.wf(),
    {
        match self {
            DependencySpec::Version(v) => {
                let mut d = DependencyDetails::default();
                d.version = Some(v.clone());
                d
            },
            DependencySpec::Detailed(d) => d.clone(),
        }
    }
}

// ---------------------------------------------------------------------------
// Strategy rules
// ---------------------------------------------------------------------------

#[derive(Debug, Clone, Copy, PartialEq, Eq, Structural)]
pub enum StrategyScope {
    Exact,
    Cascade,
    Global,
}

impl Default for StrategyScope {
    fn default() -> (r: Self)
        ensures
            r == StrategyScope::Exact,
    {
        StrategyScope::Exact
    }
}

#[derive(Debug)]
pub struct StrategyRule {
    pub package: Option<String>,
    pub scope: StrategyScope,
    pub build_type: Option<BuildType>,
    pub shared: Option<bool>,
    pub flags: Vec<String>,
    pub vc_runtime: Option<VCRuntime>,
    pub cxx_std: Option<String>,
    pub cxx_stdlib: Option<CxxStdlib>,
    pub lto: Option<bool>,
    pub cmake_options: Table<String>,
}

/// A rule as texts.
#[verifier::ext_equal]
pub struct RuleView {
    pub package: Option<Seq<char>>,
    pub scope: StrategyScope,
    pub build_type: Option<BuildType>,
    pub shared: Option<bool>,
    pub flags: Seq<Seq<char>>,
    pub vc_runtime: Option<VCRuntime>,
    pub cxx_std: Option<Seq<char>>,
    pub cxx_stdlib: Option<CxxStdlib>,
    pub lto: Option<bool>,
    pub cmake_options: Seq<(Seq<char>, Seq<char>)>,
}

impl View for StrategyRule {
    type V = RuleView;

    open spec fn view(&self) -> RuleView {
        RuleView {
            package: opt_view(self.package),
            scope: self.scope,
            build_type: self.build_type,
            shared: self.shared,
            flags: views(self.flags@),
            vc_runtime: self.vc_runtime,
            cxx_std: opt_view(self.cxx_std),
            cxx_stdlib: self.cxx_stdlib,
            lto: self.lto,
            cmake_options: self.cmake_options.texts(),
        }
    }
}

impl Default for StrategyRule {
    fn default() -> (r: Self)
        ensures
            r@ == (RuleView {
                package: None,
                scope: StrategyScope::Exact,
                build_type: None,
                shared: None,
                flags: Seq::empty(),
                vc_runtime: None,
                cxx_std: None,
                cxx_stdlib: None,
                lto: None,
                cmake_options: Seq::empty(),
            }),
    {
        StrategyRule {
            package: None,
            scope: StrategyScope::Exact,
            build_type: None,
            shared: None,
            flags: Vec::new(),
            vc_runtime: None,
            cxx_std: None,
            cxx_stdlib: None,
            lto: None,
            cmake_options: Table::new(),
        }
    }
}

impl Clone for StrategyRule {
    fn clone(&self) -> (r: Self)
        ensures
            r@ == self@,
    {
        StrategyRule {
            package: copy_opt(&self.package),
            scope: self.scope,
            build_type: self.build_type,
            shared: self.shared,
            flags: copy_list(&self.flags),
            vc_runtime: self.vc_runtime,
            cxx_std: copy_opt(&self.cxx_std),
            cxx_stdlib: self.cxx_stdlib,
            lto: self.lto,
            cmake_options: self.cmake_options.copy(),
        }
    }
}

// ---------------------------------------------------------------------------
// Toolchains and the machine's own configuration
// ---------------------------------------------------------------------------

#[derive(Debug)]
pub struct TargetSysrootConfig {
    pub sysroot: Option<String>,
    pub toolchain_file: Option<String>,
    pub c_compiler: Option<String>,
    pub cxx_compiler: Option<String>,
    pub asm_compiler: Option<String>,
    pub compiler: Option<String>,
}

/// The toolchain of a target as texts.
pub struct SysrootView {
    pub sysroot: Option<Seq<char>>,
    pub toolchain_file: Option<Seq<char>>,
    pub c_compiler: Option<Seq<char>>,
    pub cxx_compiler: Option<Seq<char>>,
    pub asm_compiler: Option<Seq<char>>,
    pub compiler: Option<Seq<char>>,
}

impl View for TargetSysrootConfig {
    type V = SysrootView;

    open spec fn view(&self) -> SysrootView {
        SysrootView {
            sysroot: opt_view(self.sysroot),
            toolchain_file: opt_view(self.toolchain_file),
            c_compiler: opt_view(self.c_compiler),
            cxx_compiler: opt_view(self.cxx_compiler),
            asm_compiler: opt_view(self.asm_compiler),
            compiler: opt_view(self.compiler),
        }
    }
}

/// A toolchain of which nothing is said.
pub open spec fn no_sysroot() -> SysrootView {
    SysrootView {
        sysroot: None,
        toolchain_file: None,
        c_compiler: None,
        cxx_compiler: None,
        asm_compiler: None,
        compiler: None,
    }
}

impl Default for TargetSysrootConfig {
    fn default() -> (r: Self)
        ensures
            r@ == no_sysroot(),
    {
        TargetSysrootConfig {
            sysroot: None,
            toolchain_file: None,
            c_compiler: None,
            cxx_compiler: None,
            asm_compiler: None,
            compiler: None,
        }
    }
}

impl Clone for TargetSysrootConfig {
    fn clone(&self) -> (r: Self)
        ensures
            r@ == self@,
    {
        TargetSysrootConfig {
            sysroot: copy_opt(&self.sysroot),
            toolchain_file: copy_opt(&self.toolchain_file),
            c_compiler: copy_opt(&self.c_compiler),
            cxx_compiler: copy_opt(&self.cxx_compiler),
            asm_compiler: copy_opt(&self.asm_compiler),
            compiler: copy_opt(&self.compiler),
        }
    }
}

#[derive(Debug)]
pub struct LocalConfig {
    pub storage: Option<LocalStorageConfig>,
    pub resources: Option<LocalResourcesConfig>,
    pub cache: Option<LocalCacheConfig>,
    pub tools: Table<String>,
    pub targets: Table<TargetSysrootConfig>,
    pub overrides: Table<DependencyDetails>,
}

impl Default for LocalConfig {
    fn default() -> (r: Self)
        ensures
            r.storage is None,
            r.resources is None,
            r.cache is None,
            r.tools.texts().len() == 0,
            r.targets.pairs().len() == 0,
            r.overrides.pairs().len() == 0,
    {
        LocalConfig {
            storage: None,
            resources: None,
            cache: None,
            tools: Table::new(),
            targets: Table::new(),
            overrides: Table::new(),
        }
    }
}

#[derive(Debug)]
pub struct LocalStorageConfig {
    pub base_dir: Option<String>,
    pub scratch_mode: Option<String>,
    pub scratch_dir: Option<String>,
    pub keep_build_dirs: Option<bool>,
    pub cache_sources: Option<bool>,
}

impl Default for LocalStorageConfig {
    fn default() -> (r: Self)
        ensures
            r.base_dir is None,
            r.scratch_mode is None,
            r.scratch_dir is None,
            r.keep_build_dirs is None,
            r.cache_sources is None,
    {
        LocalStorageConfig {
            base_dir: None,
            scratch_mode: None,
            scratch_dir: None,
            keep_build_dirs: None,
            cache_sources: None,
        }
    }
}

#[derive(Debug)]
pub struct LocalResourcesConfig {
    pub max_jobs: Option<usize>,
    pub max_memory_gb: Option<usize>,
}

#[derive(Debug)]
pub struct LocalCacheConfig {
    pub remote_url: Option<String>,
    pub auth_token: Option<String>,
    pub upload: Option<bool>,
    pub local_dir: Option<String>,
}

/// The error for a file whose content cannot be read as what it should be.
pub fn error_in_file(path: &str, message: &str) -> (r: CoreError)
    ensures
        r@ == CoreErrorView::Manifest(path@ + ": "@ + message@),
{
    CoreError::Manifest(cat3(path, ": ", message))
}

// ---------------------------------------------------------------------------
// What is promised of a manifest
// ---------------------------------------------------------------------------

/// The modes of link time optimization, in either case: which switch it on, which switch it off,
/// and no other text.
pub proof fn the_modes_of_link_time_optimization(m: Seq<char>, b: bool)
    ensures
        lto_enabled(LtoView::Bool(b)) == Ok::<bool, CoreErrorView>(b),
        lto_enabled(LtoView::Mode(m)) == Ok::<bool, CoreErrorView>(true) <==> lower(m) == "on"@
            || lower(m) == "true"@ || lower(m) == "thin"@ || lower(m) == "full"@ || lower(m)
            == "fat"@,
        lto_enabled(LtoView::Mode(m)) == Ok::<bool, CoreErrorView>(false) <==> lower(m) == "off"@
            || lower(m) == "false"@ || lower(m) == "none"@,
        lto_enabled(LtoView::Mode(m)) is Err ==> lto_enabled(LtoView::Mode(m)) == Err::<
            bool,
            CoreErrorView,
        >(CoreErrorView::Manifest("Unknown lto mode: "@ + lower(m))),
{
    reveal_strlit("on");
    reveal_strlit("true");
    reveal_strlit("thin");
    reveal_strlit("full");
    reveal_strlit("fat");
    reveal_strlit("off");
    reveal_strlit("false");
    reveal_strlit("none");
    assert("true"@[0] == 't' && "thin"@[0] == 't' && "full"@[0] == 'f' && "none"@[0] == 'n');
    assert("fat"@[1] == 'a' && "off"@[1] == 'f');
    assert("on"@.len() == 2 && "false"@.len() == 5 && "off"@.len() == 3 && "none"@.len() == 4);
}

/// A requirement that is only a version says nothing else.
pub proof fn a_version_alone_says_nothing_else(v: String)
    ensures
        ({
            let d = details_of(DependencySpec::Version(v));
            &&& d.version == Some(v@)
            &&& d.git is None && d.path is None && d.commit is None && d.tag is None
            &&& d.branch is None && d.recipe is None && d.shallow is None && d.strategy is None
            &&& d.shared is None && d.header_only is None && d.import_name is None
            &&& d.enabled_if is None && d.auto_import is None
            &&& d.cmake_options.len() == 0 && d.abi_ignores.len() == 0 && d.platforms.len() == 0
            &&& d.dependencies.len() == 0 && d.tools.len() == 0 && d.include_dirs.len() == 0
            &&& d.libraries.len() == 0 && d.binaries.len() == 0 && d.patches.len() == 0
        }),
        ({
            let t = tool_details_of(ToolRequirement::Version(v));
            &&& t.version == Some(v@)
            &&& t.git is None && t.path is None && t.commit is None && t.tag is None
            &&& t.branch is None && t.strategy is None
        }),
{
}

/// A target that nothing is configured for has no tools of its own.
pub proof fn an_unconfigured_target_has_no_tools()
    ensures
        no_sysroot().sysroot is None && no_sysroot().toolchain_file is None,
        no_sysroot().c_compiler is None && no_sysroot().cxx_compiler is None,
        no_sysroot().asm_compiler is None && no_sysroot().compiler is None,
{
}

} // verus!
