//! What a build is asked for: the command line, the manifest and the machine's configuration
//! settled into the settings of one run.
use crate::compiler::{compiler_at, compiler_named, CompilerType, CompilerView};
use crate::context::{default_compiler, detect_default_compiler, BuildContext};
use crate::error::{error_message, CoreErrorView};
use crate::git::{as_str_opt, opt_str};
use crate::manifest::{lto_enabled, Manifest, Preset};
use crate::node::or_kept_opt;
use crate::project::Project;
use crate::strategy::{
    default_config, flags_come_once, or_kept, rule_views, with_flags, ConfigView, EffectiveConfig,
    StrategyEngine,
};
use crate::table::{
    inserted, inserted_stays_ordered, lookup, lookup_after_insert, ordered, Table,
};
use crate::target::{build_type_of, BuildType, CxxStdlib, TargetTriple, TripleView, VCRuntime};
use crate::text::{
    cat2, cat3, cat5, copy_opt, has_prefix, join, joined, opt_view, starts_with, views,
    what_is_left_without_an_end,
};
use crate::util::{define_of, msvc_runtime_of, parse_define, resolve_msvc_runtime};
use vstd::prelude::*;
use vstd::string::*;

verus! {

broadcast use vstd::string::group_string_axioms;

/// What the command line of a build says.
#[derive(Debug)]
pub struct BuildArgs {
    pub manifest: String,
    pub target: Option<String>,
    pub preset: Option<String>,
    pub build_type: Option<String>,
    pub default_shared: Option<bool>,
    pub msvc_runtime: Option<String>,
    pub c_compiler: Option<String>,
    pub cxx_compiler: Option<String>,
    pub compiler: Option<String>,
    pub toolchain_file: Option<String>,
    pub cmake_args: Vec<String>,
    pub generate_targets: Option<String>,
    pub base_dir: Option<String>,
}

// ---------------------------------------------------------------------------
// Runs inside runs
// ---------------------------------------------------------------------------

/// The variable that every CMake process of a run finds in its environment.
pub const ACTIVE_VARIABLE: &'static str = "UNIDEPS_ACTIVE";

/// Why a run may not start: one that was started from inside another would wait for the lock that
/// the other holds.
pub fn refuse_inner_run(env: &Table<String>) -> (r: Option<String>)
    ensures
        opt_view(r) == if lookup(env.texts(), ACTIVE_VARIABLE@) is Some {
            Some(
                "unideps is already running (UNIDEPS_ACTIVE is set), and a run inside it would wait for its lock forever"@,
            )
        } else {
            None
        },
{
    if env.has_text(ACTIVE_VARIABLE) {
        Some(
            "unideps is already running (UNIDEPS_ACTIVE is set), and a run inside it would wait for its lock forever".to_owned(),
        )
    } else {
        None
    }
}

// ---------------------------------------------------------------------------
// Options
// ---------------------------------------------------------------------------

/// The options that arguments define; the last definition of a key counts.
pub open spec fn options_from(args: Seq<Seq<char>>) -> Seq<(Seq<char>, Seq<char>)>
    decreases args.len(),
{
    if args.len() == 0 {
        seq![]
    } else {
        match define_of(args.last()) {
            Some((k, v)) => inserted(options_from(args.drop_last()), k, v),
            None => options_from(args.drop_last()),
        }
    }
}

/// The warnings for arguments that define nothing.
pub open spec fn ignored_from(args: Seq<Seq<char>>) -> Seq<Seq<char>>
    decreases args.len(),
{
    if args.len() == 0 {
        seq![]
    } else {
        match define_of(args.last()) {
            Some(_) => ignored_from(args.drop_last()),
            None => ignored_from(args.drop_last()).push(
                "ignoring --cmake-args value '"@ + args.last() + "' (expected -DKEY=VALUE)"@,
            ),
        }
    }
}

/// The options that arguments define, and the warnings for those that define nothing.
pub fn parse_options(cmake_args: &[String]) -> (r: (Table<String>, Vec<String>))
    ensures
        r.0.texts() == options_from(views(cmake_args@)),
        r.0.wf(),
        views(r.1@) == ignored_from(views(cmake_args@)),
{
    let mut options: Table<String> = Table::new();
    let mut warnings: Vec<String> = Vec::new();
    let ghost all = views(cmake_args@);
    let mut i: usize = 0;
    proof {
        assert(all.take(0) =~= Seq::<Seq<char>>::empty());
        assert(options.texts() =~= Seq::<(Seq<char>, Seq<char>)>::empty());
        assert(views(warnings@) =~= Seq::<Seq<char>>::empty());
    }
    while i < cmake_args.len()
        invariant
            i <= cmake_args@.len(),
            all == views(cmake_args@),
            options.texts() == options_from(all.take(i as int)),
            options.wf(),
            views(warnings@) == ignored_from(all.take(i as int)),
        decreases cmake_args@.len() - i,
    {
        let arg = cmake_args[i].as_str();
        assert(all.take(i + 1).drop_last() =~= all.take(i as int));
        assert(all.take(i + 1).last() == arg@);
        let ghost before = views(warnings@);
        match parse_define(arg) {
            Some((k, v)) => {
                options.set_text(k, v);
            },
            None => {
                let text = cat3(
                    "ignoring --cmake-args value '",
                    arg,
                    "' (expected -DKEY=VALUE)",
                );
                warnings.push(text);
                assert(views(warnings@) =~= before.push(text@));
            },
        }
        i = i + 1;
    }
    assert(all.take(i as int) =~= all);
    (options, warnings)
}

/// Whether an option is passed on to every package for the target.
pub open spec fn is_forwarded(key: Seq<char>) -> bool {
    has_prefix(key, "ANDROID_"@) || has_prefix(key, "CMAKE_ANDROID_"@)
}

/// The options that are passed on to every package for the target.
pub open spec fn forwarded_from(options: Seq<(Seq<char>, Seq<char>)>) -> Seq<
    (Seq<char>, Seq<char>),
>
    decreases options.len(),
{
    if options.len() == 0 {
        seq![]
    } else if is_forwarded(options.last().0) {
        forwarded_from(options.drop_last()).push(options.last())
    } else {
        forwarded_from(options.drop_last())
    }
}

/// The options that are passed on to every package for the target.
pub fn forwarded_options(options: &Table<String>) -> (r: Table<String>)
    ensures
        r.texts() == forwarded_from(options.texts()),
{
    let mut out: Table<String> = Table { entries: Vec::new() };
    let ghost all = options.texts();
    let mut i: usize = 0;
    proof {
        assert(all.take(0) =~= Seq::<(Seq<char>, Seq<char>)>::empty());
        assert(out.texts() =~= Seq::<(Seq<char>, Seq<char>)>::empty());
    }
    while i < options.entries.len()
        invariant
            i <= options.entries@.len(),
            all == options.texts(),
            out.texts() == forwarded_from(all.take(i as int)),
        decreases options.entries@.len() - i,
    {
        let key = options.entries[i].0.as_str();
        assert(all.take(i + 1).drop_last() =~= all.take(i as int));
        assert(all.take(i + 1).last() == (key@, options.entries@[i as int].1@));
        if starts_with(key, "ANDROID_") || starts_with(key, "CMAKE_ANDROID_") {
            let ghost before = out.texts();
            let v = options.entries[i].1.clone();
            out.entries.push((key.to_owned(), v));
            assert(out.texts() =~= before.push((key@, v@)));
        }
        i = i + 1;
    }
    assert(all.take(i as int) =~= all);
    out
}

// ---------------------------------------------------------------------------
// Presets and settings
// ---------------------------------------------------------------------------

/// The message for a preset that is not there.
pub open spec fn unknown_preset_message(name: Seq<char>, known: Seq<Seq<char>>) -> Seq<char> {
    "Unknown preset '"@ + name + "' (available: "@ + joined(known, ", "@) + ")"@
}

/// The names of the presets.
pub open spec fn preset_names(m: Manifest) -> Seq<Seq<char>> {
    m.presets.pairs().map_values(|e: (Seq<char>, Preset)| e.0)
}

/// The preset called `name`, where one is asked for.
pub fn find_preset<'a>(m: &'a Manifest, name: Option<&str>) -> (r: Result<Option<&'a Preset>, String>)
    ensures
        match name {
            None => r == Ok::<Option<&'a Preset>, String>(None),
            Some(n) => match lookup(m.presets.pairs(), n@) {
                Some(p) => r matches Ok(Some(q)) && *q == p,
                None => r matches Err(e) && e@ == unknown_preset_message(n@, preset_names(*m)),
            },
        },
{
    let name = match name {
        None => {
            return Ok(None);
        },
        Some(n) => n,
    };
    if let Some(p) = m.presets.get(name) {
        return Ok(Some(p));
    }
    let mut known: Vec<String> = Vec::new();
    let mut i: usize = 0;
    while i < m.presets.entries.len()
        invariant
            i <= m.presets.entries@.len(),
            views(known@) == preset_names(*m).take(i as int),
        decreases m.presets.entries@.len() - i,
    {
        let k = m.presets.entries[i].0.clone();
        let ghost before = views(known@);
        known.push(k);
        assert(views(known@) =~= before.push(k@));
        assert(preset_names(*m)[i as int] == k@);
        assert(views(known@) =~= preset_names(*m).take(i + 1));
        i = i + 1;
    }
    assert(preset_names(*m).take(i as int) =~= preset_names(*m));
    let list = join(&known, ", ");
    Err(cat5("Unknown preset '", name, "' (available: ", list.as_str(), ")"))
}

/// A build type by its name, or the line that reports what is wrong with it.
pub open spec fn named_build_type(s: Seq<char>) -> Result<BuildType, Seq<char>> {
    match build_type_of(s) {
        Ok(b) => Ok(b),
        Err(e) => Err(error_message(e)),
    }
}

/// The build type: the one on the command line, else that of the consuming project, else that of
/// the preset, else a release.
pub open spec fn build_type_for(
    given: Option<Seq<char>>,
    options: Seq<(Seq<char>, Seq<char>)>,
    preset: Option<BuildType>,
) -> Result<BuildType, Seq<char>> {
    match given {
        Some(s) => named_build_type(s),
        None => match lookup(options, "CMAKE_BUILD_TYPE"@) {
            Some(s) => named_build_type(s),
            None => Ok(or_kept(preset, BuildType::Release)),
        },
    }
}

fn build_type_named(s: &str) -> (r: Result<BuildType, String>)
    ensures
        match r {
            Ok(b) => named_build_type(s@) == Ok::<BuildType, Seq<char>>(b),
            Err(m) => named_build_type(s@) == Err::<BuildType, Seq<char>>(m@),
        },
{
    match BuildType::from_str(s) {
        Ok(b) => Ok(b),
        Err(e) => Err(e.message()),
    }
}

/// The build type of a run.
pub fn select_build_type(
    given: Option<&str>,
    options: &Table<String>,
    preset: Option<BuildType>,
) -> (r: Result<BuildType, String>)
    ensures
        match r {
            Ok(b) => build_type_for(opt_str(given), options.texts(), preset) == Ok::<
                BuildType,
                Seq<char>,
            >(b),
            Err(m) => build_type_for(opt_str(given), options.texts(), preset) == Err::<
                BuildType,
                Seq<char>,
            >(m@),
        },
{
    if let Some(s) = given {
        return build_type_named(s);
    }
    if let Some(s) = options.text("CMAKE_BUILD_TYPE") {
        return build_type_named(s.as_str());
    }
    match preset {
        Some(b) => Ok(b),
        None => Ok(BuildType::Release),
    }
}

/// The MSVC runtime: the one on the command line, else that of the preset, else the dynamic one
/// for the build type.
pub open spec fn runtime_for(
    given: Option<Seq<char>>,
    build_type: BuildType,
    preset: Option<VCRuntime>,
) -> Result<VCRuntime, Seq<char>> {
    match given {
        Some(raw) => match msvc_runtime_of(raw, build_type) {
            Ok(rt) => Ok(rt),
            Err(m) => Err("Invalid --msvc-runtime: "@ + m),
        },
        None => Ok(
            or_kept(
                preset,
                if build_type == BuildType::Debug {
                    VCRuntime::MultiThreadedDebugDLL
                } else {
                    VCRuntime::MultiThreadedDLL
                },
            ),
        ),
    }
}

/// The MSVC runtime of a run.
pub fn select_runtime(
    given: Option<&str>,
    build_type: BuildType,
    preset: Option<VCRuntime>,
) -> (r: Result<VCRuntime, String>)
    ensures
        match r {
            Ok(rt) => runtime_for(opt_str(given), build_type, preset) == Ok::<
                VCRuntime,
                Seq<char>,
            >(rt),
            Err(m) => runtime_for(opt_str(given), build_type, preset) == Err::<
                VCRuntime,
                Seq<char>,
            >(m@),
        },
{
    if let Some(raw) = given {
        return match resolve_msvc_runtime(raw, build_type) {
            Ok(rt) => Ok(rt),
            Err(m) => Err(cat2("Invalid --msvc-runtime: ", m.as_str())),
        };
    }
    match preset {
        Some(rt) => Ok(rt),
        None => if build_type == BuildType::Debug {
            Ok(VCRuntime::MultiThreadedDebugDLL)
        } else {
            Ok(VCRuntime::MultiThreadedDLL)
        },
    }
}

/// The build type and the runtime of the consuming project win over the preset.
pub proof fn the_project_wins_over_the_preset(
    given: Option<Seq<char>>,
    options: Seq<(Seq<char>, Seq<char>)>,
    raw: Seq<char>,
    build_type: BuildType,
    a: Option<BuildType>,
    b: Option<BuildType>,
    x: Option<VCRuntime>,
    y: Option<VCRuntime>,
)
    ensures
        given is Some || lookup(options, "CMAKE_BUILD_TYPE"@) is Some ==> build_type_for(
            given,
            options,
            a,
        ) == build_type_for(given, options, b),
        runtime_for(Some(raw), build_type, x) == runtime_for(Some(raw), build_type, y),
{
}

/// The build type that a preset names.
pub open spec fn preset_build_type(preset: Option<Preset>) -> Option<BuildType> {
    match preset {
        Some(p) => p.build_type,
        None => None,
    }
}

/// The runtime that a preset names.
pub open spec fn preset_runtime(preset: Option<Preset>) -> Option<VCRuntime> {
    match preset {
        Some(p) => p.vc_runtime,
        None => None,
    }
}

/// The settings of a build type, changed as a preset says.
pub open spec fn with_preset(build_type: BuildType, preset: Option<Preset>) -> Result<
    ConfigView,
    Seq<char>,
> {
    let base = ConfigView { build_type, ..default_config() };
    match preset {
        None => Ok(base),
        Some(p) => {
            let lto = match p.lto {
                Some(l) => lto_enabled(l@),
                None => Ok(false),
            };
            match lto {
                Err(e) => Err(error_message(e)),
                Ok(on) => Ok(
                    ConfigView {
                        cxx_std: or_kept(opt_view(p.cxx_std), base.cxx_std),
                        cxx_stdlib: or_kept(p.cxx_stdlib, base.cxx_stdlib),
                        lto: on,
                        flags: with_flags(base.flags, views(p.flags@)),
                        ..base
                    },
                ),
            }
        },
    }
}

/// The settings that packages for the target start from.
pub open spec fn base_settings(
    build_type: BuildType,
    preset: Option<Preset>,
    msvc_runtime: Option<Seq<char>>,
) -> Result<ConfigView, Seq<char>> {
    match with_preset(build_type, preset) {
        Err(m) => Err(m),
        Ok(c) => match runtime_for(msvc_runtime, build_type, preset_runtime(preset)) {
            Err(m) => Err(m),
            Ok(vc_runtime) => Ok(ConfigView { vc_runtime, ..c }),
        },
    }
}

/// What is referred to, if anything.
pub open spec fn opt_deref<T>(o: Option<&T>) -> Option<T> {
    match o {
        Some(x) => Some(*x),
        None => None,
    }
}

fn apply_preset(build_type: BuildType, preset: Option<&Preset>) -> (r: Result<
    EffectiveConfig,
    String,
>)
    ensures
        match r {
            Ok(c) => with_preset(build_type, opt_deref(preset)) == Ok::<ConfigView, Seq<char>>(c@)
                && c.cmake_options.wf(),
            Err(m) => with_preset(build_type, opt_deref(preset)) == Err::<ConfigView, Seq<char>>(m@),
        },
{
    let mut base = EffectiveConfig::default();
    base.build_type = build_type;
    if let Some(p) = preset {
        crate::node::put_text(&mut base.cxx_std, &p.cxx_std);
        if let Some(sl) = p.cxx_stdlib {
            base.cxx_stdlib = sl;
        }
        if let Some(l) = &p.lto {
            match l.enabled() {
                Ok(on) => {
                    base.lto = on;
                },
                Err(e) => {
                    return Err(e.message());
                },
            }
        }
        base.add_flags(&p.flags);
    }
    Ok(base)
}

/// The settings that packages for the target start from.
pub fn target_base(
    build_type: BuildType,
    preset: Option<&Preset>,
    msvc_runtime: Option<&str>,
) -> (r: Result<EffectiveConfig, String>)
    ensures
        match r {
            Ok(c) => base_settings(build_type, opt_deref(preset), opt_str(msvc_runtime)) == Ok::<
                ConfigView,
                Seq<char>,
            >(c@) && c.cmake_options.wf(),
            Err(m) => base_settings(build_type, opt_deref(preset), opt_str(msvc_runtime)) == Err::<
                ConfigView,
                Seq<char>,
            >(m@),
        },
{
    let mut base = match apply_preset(build_type, preset) {
        Ok(c) => c,
        Err(m) => {
            return Err(m);
        },
    };
    let from_preset = match preset {
        Some(p) => p.vc_runtime,
        None => None,
    };
    match select_runtime(msvc_runtime, build_type, from_preset) {
        Ok(rt) => {
            base.vc_runtime = rt;
            Ok(base)
        },
        Err(m) => Err(m),
    }
}

/// The warning for a setting of a preset that has no effect yet.
pub fn preset_warning(preset: Option<&Preset>) -> (r: Option<&'static str>)
    ensures
        opt_str(r) == match preset {
            Some(p) => if p.cxx_stdlib_package is Some {
                Some("presets: cxx_stdlib_package is not supported yet and is ignored"@)
            } else {
                None
            },
            None => None,
        },
{
    match preset {
        Some(p) => if p.cxx_stdlib_package.is_some() {
            Some("presets: cxx_stdlib_package is not supported yet and is ignored")
        } else {
            None
        },
        None => None,
    }
}

// ---------------------------------------------------------------------------
// The toolchain
// ---------------------------------------------------------------------------

/// The compiler family of a run: the one that is named, else what the C compiler or the C++
/// compiler looks like, else the usual one of the target.
pub open spec fn compiler_for(
    named: Option<Seq<char>>,
    c: Option<Seq<char>>,
    cxx: Option<Seq<char>>,
    target: TripleView,
) -> CompilerView {
    match (named, c, cxx) {
        (Some(n), _, _) => compiler_named(n),
        (None, Some(p), _) => compiler_at(p),
        (None, None, Some(p)) => compiler_at(p),
        (None, None, None) => default_compiler(target),
    }
}

/// The compiler family of a run.
pub fn select_compiler(
    named: Option<&str>,
    c_compiler: Option<&str>,
    cxx_compiler: Option<&str>,
    target: &TargetTriple,
) -> (r: CompilerType)
    ensures
        r@ == compiler_for(opt_str(named), opt_str(c_compiler), opt_str(cxx_compiler), target@),
{
    match (named, c_compiler, cxx_compiler) {
        (Some(n), _, _) => match CompilerType::from_str(n) {
            Ok(c) => c,
            Err(_) => detect_default_compiler(target),
        },
        (None, Some(p), _) => CompilerType::detect_from_path(p),
        (None, None, Some(p)) => CompilerType::detect_from_path(p),
        (None, None, None) => detect_default_compiler(target),
    }
}

/// The toolchain file: the one on the command line, else that of the consuming project, else that
/// of the target.
pub open spec fn toolchain_file_for(
    given: Option<Seq<char>>,
    options: Seq<(Seq<char>, Seq<char>)>,
    configured: Option<Seq<char>>,
) -> Option<Seq<char>> {
    or_kept_opt(given, or_kept_opt(lookup(options, "CMAKE_TOOLCHAIN_FILE"@), configured))
}

fn first_given(a: &Option<String>, b: &Option<String>) -> (r: Option<String>)
    ensures
        opt_view(r) == or_kept_opt(opt_view(*a), opt_view(*b)),
{
    if a.is_some() {
        copy_opt(a)
    } else {
        copy_opt(b)
    }
}

/// The message for a toolchain file that is not there.
pub fn missing_toolchain_file(path: &str) -> (r: String)
    ensures
        r@ == "Toolchain file not found: "@ + path@,
{
    cat2("Toolchain file not found: ", path)
}

// ---------------------------------------------------------------------------
// The run
// ---------------------------------------------------------------------------

/// What a run is built with, and what is to be warned of.
#[derive(Debug)]
pub struct Plan {
    pub context: BuildContext,
    pub warnings: Vec<String>,
}

/// What is wrong with what a run is asked for: the preset, then the build type, then the settings.
pub open spec fn settled_base(args: BuildArgs, m: Manifest) -> Result<ConfigView, Seq<char>> {
    let options = options_from(views(args.cmake_args@));
    let preset = match args.preset {
        Some(n) => lookup(m.presets.pairs(), n@),
        None => None,
    };
    if args.preset is Some && preset is None {
        Err(unknown_preset_message(args.preset->0@, preset_names(m)))
    } else {
        match build_type_for(opt_view(args.build_type), options, preset_build_type(preset)) {
            Err(e) => Err(e),
            Ok(b) => base_settings(b, preset, opt_view(args.msvc_runtime)),
        }
    }
}

impl Plan {
    /// Whether the plan is what `args` ask for.
    pub open spec fn follows(
        &self,
        args: BuildArgs,
        p: Project,
        target: TargetTriple,
        host: TargetTriple,
    ) -> bool {
        let options = options_from(views(args.cmake_args@));
        let cfg = p.toolchain_of(target.raw@);
        let c = self.context;
        let cc = or_kept_opt(opt_view(args.c_compiler), cfg.c_compiler);
        let cxx = or_kept_opt(opt_view(args.cxx_compiler), cfg.cxx_compiler);
        &&& c.target == target
        &&& c.host == host
        &&& c.strategy.holds(rule_views(p.manifest.strategy@))
        &&& opt_view(c.c_compiler) == cc
        &&& opt_view(c.cxx_compiler) == cxx
        &&& opt_view(c.toolchain_file) == toolchain_file_for(
            opt_view(args.toolchain_file),
            options,
            cfg.toolchain_file,
        )
        &&& c.target_compiler@ == compiler_for(
            or_kept_opt(opt_view(args.compiler), cfg.compiler),
            cc,
            cxx,
            target@,
        )
        &&& c.host_compiler@ == default_compiler(host@)
        &&& c.target_base.cmake_options.wf()
        &&& c.default_shared == args.default_shared
        &&& c.forwarded.texts() == forwarded_from(options)
        &&& c.vars.texts() == options
    }
}

/// Settles what a run is asked for. Whether the toolchain file exists is for the caller to ask.
pub fn plan(args: &BuildArgs, project: &Project, target: &TargetTriple, host: &TargetTriple) -> (r:
    Result<Plan, String>)
    ensures
        match settled_base(*args, project.manifest) {
            Err(m) => r matches Err(e) && e@ == m,
            Ok(base) => r matches Ok(p) && p.follows(*args, *project, *target, *host)
                && p.context.target_base@ == base && views(p.warnings@) == ignored_from(
                views(args.cmake_args@),
            ) + match args.preset {
                Some(n) => match lookup(project.manifest.presets.pairs(), n@) {
                    Some(s) => if s.cxx_stdlib_package is Some {
                        seq!["presets: cxx_stdlib_package is not supported yet and is ignored"@]
                    } else {
                        seq![]
                    },
                    None => seq![],
                },
                None => seq![],
            },
        },
{
    let preset = match find_preset(&project.manifest, as_str_opt(&args.preset)) {
        Ok(p) => p,
        Err(m) => {
            return Err(m);
        },
    };
    let (options, mut warnings) = parse_options(&args.cmake_args);
    let from_preset = match preset {
        Some(p) => p.build_type,
        None => None,
    };
    let build_type = match select_build_type(as_str_opt(&args.build_type), &options, from_preset) {
        Ok(b) => b,
        Err(m) => {
            return Err(m);
        },
    };
    let base = match target_base(build_type, preset, as_str_opt(&args.msvc_runtime)) {
        Ok(b) => b,
        Err(m) => {
            return Err(m);
        },
    };
    let ghost before = views(warnings@);
    if let Some(w) = preset_warning(preset) {
        warnings.push(w.to_owned());
        assert(views(warnings@) =~= before + seq![w@]);
    } else {
        assert(views(warnings@) =~= before + seq![]);
    }
    let cfg = project.target_config(target);
    let c_compiler = first_given(&args.c_compiler, &cfg.c_compiler);
    let cxx_compiler = first_given(&args.cxx_compiler, &cfg.cxx_compiler);
    let from_options = match options.text("CMAKE_TOOLCHAIN_FILE") {
        Some(f) => Some(f.clone()),
        None => None,
    };
    let configured = first_given(&from_options, &cfg.toolchain_file);
    let toolchain_file = first_given(&args.toolchain_file, &configured);
    let named = first_given(&args.compiler, &cfg.compiler);
    let target_compiler = select_compiler(
        as_str_opt(&named),
        as_str_opt(&c_compiler),
        as_str_opt(&cxx_compiler),
        target,
    );
    let context = BuildContext {
        target: target.clone(),
        host: host.clone(),
        strategy: StrategyEngine::new(&project.manifest.strategy),
        c_compiler,
        cxx_compiler,
        toolchain_file,
        target_compiler,
        host_compiler: detect_default_compiler(host),
        target_base: base,
        default_shared: args.default_shared,
        forwarded: forwarded_options(&options),
        vars: options,
    };
    Ok(Plan { context, warnings })
}

// ---------------------------------------------------------------------------
// What is promised of a plan
// ---------------------------------------------------------------------------

proof fn lemma_options_ordered(args: Seq<Seq<char>>)
    ensures
        ordered(options_from(args)),
    decreases args.len(),
{
    if args.len() > 0 {
        lemma_options_ordered(args.drop_last());
        if let Some((k, v)) = define_of(args.last()) {
            inserted_stays_ordered(options_from(args.drop_last()), k, v);
        }
    }
}

/// The last definition of a name on the command line decides; what defines nothing is warned of and
/// changes nothing.
pub proof fn the_last_definition_decides(args: Seq<Seq<char>>, arg: Seq<char>, key: Seq<char>)
    ensures
        define_of(arg) matches Some((k, v)) ==> {
            &&& lookup(options_from(args.push(arg)), k) == Some(v)
            &&& key != k ==> lookup(options_from(args.push(arg)), key) == lookup(
                options_from(args),
                key,
            )
            &&& ignored_from(args.push(arg)) == ignored_from(args)
        },
        define_of(arg) is None ==> options_from(args.push(arg)) == options_from(args)
            && ignored_from(args.push(arg)) == ignored_from(args).push(
            "ignoring --cmake-args value '"@ + arg + "' (expected -DKEY=VALUE)"@,
        ),
        lookup(options_from(Seq::empty()), key) is None,
        ignored_from(Seq::empty()).len() == 0,
{
    let all = args.push(arg);
    assert(all.drop_last() =~= args);
    assert(all.last() == arg);
    lemma_options_ordered(args);
    if let Some((k, v)) = define_of(arg) {
        lookup_after_insert(options_from(args), k, v, key);
        lookup_after_insert(options_from(args), k, v, k);
    }
}

/// What the command line defines for Android is forwarded to the packages, and nothing else.
pub proof fn what_is_for_android_is_forwarded(
    options: Seq<(Seq<char>, Seq<char>)>,
    e: (Seq<char>, Seq<char>),
    x: Seq<char>,
)
    ensures
        is_forwarded("ANDROID_"@ + x),
        is_forwarded("CMAKE_ANDROID_"@ + x),
        is_forwarded(x) ==> has_prefix(x, "ANDROID_"@) || has_prefix(x, "CMAKE_ANDROID_"@),
        forwarded_from(options).contains(e) <==> options.contains(e) && is_forwarded(e.0),
    decreases options.len(),
{
    what_is_left_without_an_end("ANDROID_"@ + x, "ANDROID_"@, x);
    what_is_left_without_an_end("CMAKE_ANDROID_"@ + x, "CMAKE_ANDROID_"@, x);
    if options.len() > 0 {
        let init = options.drop_last();
        what_is_for_android_is_forwarded(init, e, x);
        let less = forwarded_from(init);
        let all = forwarded_from(options);
        if init.contains(e) {
            let i = choose|i: int| 0 <= i < init.len() && init[i] == e;
            assert(options[i] == e);
        }
        if options.contains(e) {
            let i = choose|i: int| 0 <= i < options.len() && options[i] == e;
            if i < init.len() {
                assert(init[i] == e);
            } else {
                assert(options.last() == e);
            }
        }
        assert(options[options.len() - 1] == options.last());
        if less.contains(e) {
            let i = choose|i: int| 0 <= i < less.len() && less[i] == e;
            assert(all[i] == e);
        }
        if all.contains(e) {
            let i = choose|i: int| 0 <= i < all.len() && all[i] == e;
            if i < less.len() {
                assert(less[i] == e);
            }
        }
        if is_forwarded(options.last().0) {
            assert(all[less.len() as int] == options.last());
        }
    }
}

/// The build type is what the command line names, else what it defines as `CMAKE_BUILD_TYPE`, else
/// what the preset says, else a release.
pub proof fn who_decides_the_build_type(
    given: Option<Seq<char>>,
    options: Seq<(Seq<char>, Seq<char>)>,
    preset: Option<BuildType>,
)
    ensures
        ({
            let named = if given is Some {
                given
            } else {
                lookup(options, "CMAKE_BUILD_TYPE"@)
            };
            let chosen = build_type_for(given, options, preset);
            &&& named matches Some(s) ==> {
                &&& build_type_of(s) is Ok <==> chosen is Ok
                &&& build_type_of(s) is Ok ==> chosen->Ok_0 == build_type_of(s)->Ok_0
                &&& build_type_of(s) is Err ==> chosen->Err_0 == "Manifest error: "@
                    + "Unknown build type: "@ + s
            }
            &&& named is None && preset is Some ==> chosen == Ok::<BuildType, Seq<char>>(preset->0)
            &&& named is None && preset is None ==> chosen == Ok::<BuildType, Seq<char>>(
                BuildType::Release,
            )
        }),
{
    let named = if given is Some {
        given
    } else {
        lookup(options, "CMAKE_BUILD_TYPE"@)
    };
    if let Some(s) = named {
        assert("Manifest error: "@ + ("Unknown build type: "@ + s) =~= "Manifest error: "@
            + "Unknown build type: "@ + s);
    }
}

/// The runtime library is what the command line names, else what the preset says, else the dynamic
/// one, for debugging in a debug build.
pub proof fn who_decides_the_runtime(
    raw: Seq<char>,
    build_type: BuildType,
    preset: Option<VCRuntime>,
)
    ensures
        msvc_runtime_of(raw, build_type) is Ok ==> runtime_for(Some(raw), build_type, preset)
            == msvc_runtime_of(raw, build_type),
        msvc_runtime_of(raw, build_type) matches Err(m) ==> runtime_for(
            Some(raw),
            build_type,
            preset,
        ) == Err::<VCRuntime, Seq<char>>("Invalid --msvc-runtime: "@ + m),
        preset is Some ==> runtime_for(None, build_type, preset) == Ok::<VCRuntime, Seq<char>>(
            preset->0,
        ),
        preset is None && build_type == BuildType::Debug ==> runtime_for(None, build_type, preset)
            == Ok::<VCRuntime, Seq<char>>(VCRuntime::MultiThreadedDebugDLL),
        preset is None && build_type != BuildType::Debug ==> runtime_for(None, build_type, preset)
            == Ok::<VCRuntime, Seq<char>>(VCRuntime::MultiThreadedDLL),
{
}

/// A preset gives the standard, the standard library, the link time optimization and the flags;
/// what it leaves out is as without a preset.
pub proof fn what_a_preset_gives(build_type: BuildType, p: Preset, f: Seq<char>)
    ensures
        with_preset(build_type, Some(p)) matches Ok(c) ==> {
            &&& c.build_type == build_type
            &&& p.cxx_std is Some ==> c.cxx_std == p.cxx_std->0@
            &&& p.cxx_std is None ==> c.cxx_std.len() == 0
            &&& p.cxx_stdlib is Some ==> c.cxx_stdlib == p.cxx_stdlib->0
            &&& p.cxx_stdlib is None ==> c.cxx_stdlib == CxxStdlib::PlatformDefault
            &&& p.lto is None ==> !c.lto
            &&& p.lto is Some ==> lto_enabled(p.lto->0@) == Ok::<bool, CoreErrorView>(c.lto)
            &&& c.flags.contains(f) <==> views(p.flags@).contains(f)
            &&& !c.shared && c.cmake_options.len() == 0
        },
        with_preset(build_type, Some(p)) is Err <==> p.lto is Some && lto_enabled(p.lto->0@) is Err,
        with_preset(build_type, None) matches Ok(c) && c == (ConfigView {
            build_type,
            ..default_config()
        }),
{
    flags_come_once(Seq::empty(), views(p.flags@));
}

/// The settings of a run are those of the preset with the runtime library that was chosen.
pub proof fn a_run_has_its_preset_and_its_runtime(
    build_type: BuildType,
    preset: Option<Preset>,
    msvc_runtime: Option<Seq<char>>,
)
    ensures
        ({
            let from = if preset is Some {
                preset->0.vc_runtime
            } else {
                None
            };
            let rt = runtime_for(msvc_runtime, build_type, from);
            let c = with_preset(build_type, preset);
            let base = base_settings(build_type, preset, msvc_runtime);
            &&& base is Ok <==> c is Ok && rt is Ok
            &&& base is Ok ==> base->Ok_0.vc_runtime == rt->Ok_0 && base->Ok_0.build_type
                == build_type && base->Ok_0.flags == c->Ok_0.flags && base->Ok_0.lto == c->Ok_0.lto
                && base->Ok_0.cxx_std == c->Ok_0.cxx_std && base->Ok_0.cxx_stdlib
                == c->Ok_0.cxx_stdlib
        }),
{
}

/// A compiler family is the one that is named, else that of the C compiler, else that of the C++
/// compiler, else the target's own.
pub proof fn who_decides_the_compiler(
    named: Option<Seq<char>>,
    c: Option<Seq<char>>,
    cxx: Option<Seq<char>>,
    target: TripleView,
)
    ensures
        named is Some ==> compiler_for(named, c, cxx, target) == compiler_named(named->0),
        named is None && c is Some ==> compiler_for(named, c, cxx, target) == compiler_at(c->0),
        named is None && c is None && cxx is Some ==> compiler_for(named, c, cxx, target)
            == compiler_at(cxx->0),
        named is None && c is None && cxx is None ==> compiler_for(named, c, cxx, target)
            == default_compiler(target),
{
}

/// A toolchain file is the one on the command line, else what it defines as `CMAKE_TOOLCHAIN_FILE`,
/// else the one that is configured for the target.
pub proof fn who_decides_the_toolchain_file(
    given: Option<Seq<char>>,
    options: Seq<(Seq<char>, Seq<char>)>,
    configured: Option<Seq<char>>,
)
    ensures
        given is Some ==> toolchain_file_for(given, options, configured) == given,
        given is None && lookup(options, "CMAKE_TOOLCHAIN_FILE"@) is Some ==> toolchain_file_for(
            given,
            options,
            configured,
        ) == lookup(options, "CMAKE_TOOLCHAIN_FILE"@),
        given is None && lookup(options, "CMAKE_TOOLCHAIN_FILE"@) is None ==> toolchain_file_for(
            given,
            options,
            configured,
        ) == configured,
{
}

/// A run has the settings of the preset that it names; a preset that is not there is an error that
/// names those that are.
pub proof fn a_run_names_a_preset_that_is_there(args: BuildArgs, m: Manifest)
    ensures
        args.preset matches Some(n) ==> (lookup(m.presets.pairs(), n@) is None ==> settled_base(
            args,
            m,
        ) == Err::<ConfigView, Seq<char>>(
            "Unknown preset '"@ + n@ + "' (available: "@ + joined(preset_names(m), ", "@) + ")"@,
        )),
        settled_base(args, m) matches Ok(c) ==> {
            let preset = if args.preset is Some {
                lookup(m.presets.pairs(), args.preset->0@)
            } else {
                None
            };
            let of_preset = if preset is Some {
                preset->0.build_type
            } else {
                None
            };
            &&& args.preset is Some ==> preset is Some
            &&& build_type_for(
                opt_view(args.build_type),
                options_from(views(args.cmake_args@)),
                of_preset,
            ) == Ok::<BuildType, Seq<char>>(c.build_type)
            &&& base_settings(c.build_type, preset, opt_view(args.msvc_runtime)) == Ok::<
                ConfigView,
                Seq<char>,
            >(c)
        },
{
}

/// A plan takes the compilers and the toolchain file from the command line, and from the target's
/// configuration where it leaves them out; what it defines is there for the packages.
pub proof fn a_plan_follows_the_command_line(
    plan: Plan,
    args: BuildArgs,
    p: Project,
    target: TargetTriple,
    host: TargetTriple,
)
    requires
        plan.follows(args, p, target, host),
    ensures
        ({
            let c = plan.context;
            let cfg = p.toolchain_of(target.raw@);
            let defined = options_from(views(args.cmake_args@));
            &&& c.target == target && c.host == host
            &&& args.c_compiler matches Some(x) ==> opt_view(c.c_compiler) == Some(x@)
            &&& args.c_compiler is None ==> opt_view(c.c_compiler) == cfg.c_compiler
            &&& args.cxx_compiler matches Some(x) ==> opt_view(c.cxx_compiler) == Some(x@)
            &&& args.cxx_compiler is None ==> opt_view(c.cxx_compiler) == cfg.cxx_compiler
            &&& args.toolchain_file matches Some(x) ==> opt_view(c.toolchain_file) == Some(x@)
            &&& args.toolchain_file is None && lookup(defined, "CMAKE_TOOLCHAIN_FILE"@) is None
                ==> opt_view(c.toolchain_file) == cfg.toolchain_file
            &&& args.compiler matches Some(x) ==> c.target_compiler@ == compiler_named(x@)
            &&& args.compiler is None && cfg.compiler is Some ==> c.target_compiler@
                == compiler_named(cfg.compiler->0)
            &&& c.host_compiler@ == default_compiler(host@)
            &&& c.default_shared == args.default_shared
            &&& c.vars.texts() == defined
            &&& c.forwarded.texts() == forwarded_from(defined)
            &&& c.strategy.holds(rule_views(p.manifest.strategy@))
        }),
{
}

} // verus!
