use unideps::compiler::CompilerType;
use unideps::context::{android_abi, dependents_in, detect_default_compiler, preflight, BuildContext};
use unideps::graph::DependencyGraph;
use unideps::inputs::{
    cmake_inputs, dep_root_vars, distinct_indices, library_candidates, CmakeMode, DepInput,
    PrefixFacts,
};
use unideps::install::{
    header_copy, header_dirs, is_fetched, mark_built, use_local_tool, InstallAction, InstallEvent,
    InstallJob, InstallStage, Places,
};
use unideps::manifest::{
    DependencyDetails, DependencySpec, LocalConfig, LtoSetting, Manifest, Preset, StrategyRule,
    StrategyScope, TargetSysrootConfig, ToolDetails, ToolRequirement,
};
use unideps::nested::{
    ids_of, in_nested_manifest, may_record, merge_nested, needs_options, nested_cycle,
    nested_options, read_options, unread_options,
};
use unideps::node::DependencyNode;
use unideps::hash::{HashCalculator, SourceFiles};
use unideps::package::{identify, needs, reuse, settle, start, ProbePlaces};
use unideps::plan::{
    forwarded_options, missing_toolchain_file, parse_options, plan, refuse_inner_run,
    select_build_type, select_runtime, BuildArgs,
};
use unideps::project::Project;
use unideps::resolution::Resolution;
use unideps::storage::StorageManager;
use unideps::strategy::StrategyEngine;
use unideps::table::Table;
use unideps::target::{Arch, BuildType, CxxStdlib, TargetTriple, VCRuntime};
use unideps::util::{CompilerFacts, ToolchainFacts};

fn table(pairs: &[(&str, &str)]) -> Table<String> {
    let mut t = Table::new();
    for (k, v) in pairs {
        t.set_text(k.to_string(), v.to_string());
    }
    t
}

fn strings(texts: &[&str]) -> Vec<String> {
    texts.iter().map(|t| t.to_string()).collect()
}

fn triple(s: &str) -> TargetTriple {
    s.parse().unwrap()
}

const LINUX: &str = "x86_64-unknown-linux-gnu";

fn node(name: &str, prefix: &str) -> DependencyNode {
    let mut n = DependencyNode::from_target_dep(
        name,
        &DependencySpec::Detailed(DependencyDetails::default()),
    );
    n.install_prefix = Some(prefix.to_string());
    n
}

fn tool(name: &str) -> DependencyNode {
    DependencyNode::from_host_tool(name, &ToolRequirement::Detailed(ToolDetails::default()))
}

fn names(nodes: &[DependencyNode]) -> Vec<(&str, &str)> {
    nodes
        .iter()
        .map(|n| (n.name.as_str(), n.install_prefix.as_deref().unwrap_or("")))
        .collect()
}

fn no_facts() -> ToolchainFacts {
    let compiler = || CompilerFacts { exists: false, on_path: None, len: None, mtime: None };
    ToolchainFacts { c: compiler(), cxx: compiler(), toolchain_content: Vec::new() }
}

fn args() -> BuildArgs {
    BuildArgs {
        manifest: "unideps.toml".to_string(),
        target: None,
        preset: None,
        build_type: None,
        default_shared: None,
        msvc_runtime: None,
        c_compiler: None,
        cxx_compiler: None,
        compiler: None,
        toolchain_file: None,
        cmake_args: Vec::new(),
        generate_targets: None,
        base_dir: None,
    }
}

fn project(manifest: Manifest) -> Project {
    Project::load("/proj".to_string(), manifest, None).unwrap()
}

fn context(a: &BuildArgs, target: &str, host: &str) -> BuildContext {
    plan(a, &project(Manifest::default()), &triple(target), &triple(host)).unwrap().context
}

// Nested manifests

#[test]
fn nested_packages_come_first() {
    let (merged, warnings) = merge_nested(vec![node("b", "/b")], vec![node("a", "/a")]);
    assert_eq!(names(&merged), [("b", "/b"), ("a", "/a")]);
    assert!(warnings.is_empty());
}

#[test]
fn declared_package_wins_over_nested_one() {
    let (merged, warnings) = merge_nested(vec![node("b", "/nested/b")], vec![node("b", "/own/b")]);
    assert_eq!(names(&merged), [("b", "/own/b")]);
    assert_eq!(
        warnings,
        vec!["'b' is required by a nested unideps.toml as /nested/b, but /own/b is already used; keeping the latter"]
    );
}

#[test]
fn first_nested_package_wins_and_identical_ones_are_merged() {
    let nested = vec![node("b", "/b1"), node("b", "/b2"), node("c", "/c"), node("c", "/c")];
    let (merged, warnings) = merge_nested(nested, Vec::new());
    assert_eq!(names(&merged), [("b", "/b1"), ("c", "/c")]);
    assert_eq!(warnings.len(), 1);
}

#[test]
fn nested_manifests_may_not_depend_on_each_other() {
    let stack = vec![("a".to_string(), "1".to_string()), ("b".to_string(), "2".to_string())];
    assert_eq!(nested_cycle(&stack, "c", "3"), None);
    assert_eq!(
        nested_cycle(&stack, "a2", "1").as_deref(),
        Some("Nested unideps.toml files depend on each other: a -> b -> a2")
    );
    assert_eq!(in_nested_manifest("a", "m"), "In the nested unideps.toml of 'a': m");
    assert!(unread_options("a", "/l").ends_with("Log: /l"));
}

#[test]
fn options_of_the_package_reach_its_nested_manifest() {
    let mut graph = DependencyGraph::new();
    graph.try_add_node(node("a", "/a")).unwrap();
    assert!(!needs_options(&graph));
    let mut b = node("b", "/b");
    b.enabled_if = Some("X".to_string());
    graph.try_add_node(b).unwrap();
    assert!(needs_options(&graph));

    let probed = read_options("A=1\r\nB=2=3\nno\nA=4\n");
    assert_eq!(probed.text("A").unwrap(), "4");
    assert_eq!(probed.text("B").unwrap(), "2=3");
    assert_eq!(probed.len(), 2);
    let mut n = node("n", "/n");
    n.config.cmake_options = table(&[("A", "rule"), ("C", "rule")]);
    n.cmake_options = table(&[("C", "own")]);
    let all = nested_options(probed, &n);
    assert_eq!(all.text("A").unwrap(), "rule");
    assert_eq!(all.text("B").unwrap(), "2=3");
    assert_eq!(all.text("C").unwrap(), "own");
}

#[test]
fn only_lasting_builds_are_recorded() {
    let p = project(Manifest::default());
    let mut pinned = node("a", "/a");
    pinned.git = Some("u".to_string());
    pinned.tag = Some("v1".to_string());
    assert!(may_record(&p, &[pinned.clone()]));
    let mut floating = pinned.clone();
    floating.tag = None;
    assert!(!may_record(&p, &[pinned.clone(), floating]));
    let local = LocalConfig { tools: table(&[("a", "/t")]), ..Default::default() };
    let p = Project::load("/proj".to_string(), Manifest::default(), Some(local)).unwrap();
    assert!(!may_record(&p, &[pinned]));
    let mut built = node("b", "/b");
    built.build_id = Some("id".to_string());
    assert_eq!(ids_of(&[&node("a", "/a"), &built]), ["id"]);
}

// Plans

#[test]
fn inner_runs_are_refused() {
    assert_eq!(refuse_inner_run(&Table::new()), None);
    let message = refuse_inner_run(&table(&[("UNIDEPS_ACTIVE", "1")])).unwrap();
    assert!(message.contains("already running"), "{message}");
}

#[test]
fn options_come_from_the_command_line() {
    let (options, warnings) =
        parse_options(&strings(&["-DANDROID_NDK=/n", "-GNinja", "-DCMAKE_ANDROID_API=30", "-DX:BOOL=1", "-DX=2"]));
    assert_eq!(options.text("X").unwrap(), "2");
    assert_eq!(
        warnings,
        vec!["ignoring --cmake-args value '-GNinja' (expected -DKEY=VALUE)"]
    );
    let forwarded = forwarded_options(&options);
    let keys: Vec<&str> = forwarded.entries.iter().map(|e| e.0.as_str()).collect();
    assert_eq!(keys, ["ANDROID_NDK", "CMAKE_ANDROID_API"]);
}

#[test]
fn the_consuming_project_wins_over_a_preset() {
    let from_cache = table(&[("CMAKE_BUILD_TYPE", "MinSizeRel")]);
    let preset = Some(BuildType::RelWithDebInfo);
    let none = Table::new();
    assert_eq!(select_build_type(Some("debug"), &from_cache, preset), Ok(BuildType::Debug));
    assert_eq!(select_build_type(None, &from_cache, preset), Ok(BuildType::MinSizeRel));
    assert_eq!(select_build_type(None, &none, preset), Ok(BuildType::RelWithDebInfo));
    assert_eq!(select_build_type(None, &none, None), Ok(BuildType::Release));
    assert!(select_build_type(Some("x"), &none, preset).is_err());
    let preset = Some(VCRuntime::MultiThreaded);
    let debug = BuildType::Debug;
    assert_eq!(
        select_runtime(Some("MultiThreadedDLL"), debug, preset),
        Ok(VCRuntime::MultiThreadedDLL)
    );
    assert_eq!(select_runtime(None, debug, preset), Ok(VCRuntime::MultiThreaded));
    assert_eq!(select_runtime(None, debug, None), Ok(VCRuntime::MultiThreadedDebugDLL));
    assert_eq!(
        select_runtime(None, BuildType::Release, None),
        Ok(VCRuntime::MultiThreadedDLL)
    );
    let err = select_runtime(Some("$<X>"), debug, None).unwrap_err();
    assert_eq!(
        err,
        "Invalid --msvc-runtime: Unsupported generator expression in MSVC runtime '$<X>'"
    );
}

#[test]
fn a_plan_settles_what_is_asked_for() {
    let mut manifest = Manifest::default();
    manifest.presets.insert(
        "dev".to_string(),
        Preset {
            build_type: Some(BuildType::Debug),
            cxx_std: Some("20".into()),
            cxx_stdlib: Some(CxxStdlib::Libcxx),
            cxx_stdlib_package: Some("libcxx".into()),
            lto: Some(LtoSetting::Mode("thin".into())),
            flags: strings(&["-g", "-g"]),
            ..Default::default()
        },
    );
    manifest.presets.insert(
        "bad".to_string(),
        Preset { lto: Some(LtoSetting::Mode("most".into())), ..Default::default() },
    );
    manifest.targets.insert(
        LINUX.to_string(),
        TargetSysrootConfig { c_compiler: Some("clang".into()), ..Default::default() },
    );
    let p = project(manifest);
    let (t, h) = (triple(LINUX), triple(LINUX));
    let mut a = args();
    a.preset = Some("dev".to_string());
    a.default_shared = Some(true);
    a.cmake_args = strings(&["-x", "-DCMAKE_TOOLCHAIN_FILE=/tc.cmake"]);
    let made = plan(&a, &p, &t, &h).unwrap();
    assert_eq!(
        made.warnings,
        vec![
            "ignoring --cmake-args value '-x' (expected -DKEY=VALUE)",
            "presets: cxx_stdlib_package is not supported yet and is ignored",
        ]
    );
    let c = made.context;
    assert_eq!(c.c_compiler.as_deref(), Some("clang"));
    assert_eq!(c.target_compiler, CompilerType::Clang);
    assert_eq!(c.host_compiler, CompilerType::Gcc);
    assert_eq!(c.toolchain_file.as_deref(), Some("/tc.cmake"));
    assert!(!c.is_native());
    assert_eq!(c.target_base.build_type, BuildType::Debug);
    assert_eq!(c.target_base.vc_runtime, VCRuntime::MultiThreadedDebugDLL);
    assert_eq!(c.target_base.cxx_std, "20");
    assert_eq!(c.target_base.cxx_stdlib, CxxStdlib::Libcxx);
    assert!(c.target_base.lto);
    assert_eq!(c.target_base.flags, ["-g"]);
    assert_eq!(c.default_shared, Some(true));
    a.toolchain_file = Some("/own.cmake".to_string());
    a.compiler = Some("msvc".to_string());
    let c = plan(&a, &p, &t, &h).unwrap().context;
    assert_eq!(c.toolchain_file.as_deref(), Some("/own.cmake"));
    assert_eq!(c.target_compiler, CompilerType::Msvc);
    a.preset = Some("none".to_string());
    assert_eq!(
        plan(&a, &p, &t, &h).unwrap_err(),
        "Unknown preset 'none' (available: bad, dev)"
    );
    a.preset = Some("bad".to_string());
    assert!(plan(&a, &p, &t, &h).is_err());
    assert_eq!(missing_toolchain_file("/t"), "Toolchain file not found: /t");
}

// Configuring packages

#[test]
fn targets_have_default_compilers() {
    let of = |s| detect_default_compiler(&triple(s));
    assert_eq!(of("x86_64-pc-windows-msvc"), CompilerType::Msvc);
    assert_eq!(of("x86_64-pc-windows-gnu"), CompilerType::Gcc);
    assert_eq!(of("aarch64-apple-darwin"), CompilerType::Clang);
    assert_eq!(of("aarch64-linux-android"), CompilerType::Clang);
    assert_eq!(of(LINUX), CompilerType::Gcc);
    assert_eq!(android_abi(Arch::Arm), "armeabi-v7a");
    assert_eq!(android_abi(Arch::X86), "x86");
    assert_eq!(android_abi(Arch::X86_64), "x86_64");
    assert_eq!(android_abi(Arch::Riscv64), "arm64-v8a");
}

#[test]
fn packages_for_android_get_what_is_passed_on() {
    let mut a = args();
    a.default_shared = Some(true);
    a.cmake_args = strings(&["-DANDROID_NDK=/n", "-DANDROID_STL=c++_shared", "-DDIR=/d"]);
    a.c_compiler = Some("/ndk/clang".to_string());
    let c = context(&a, "aarch64-linux-android", LINUX);
    let mut n = node("a", "/a");
    n.cmake_options = table(&[("ANDROID_STL", "none"), ("X", "${DIR}/x;$ENV{HOME}")]);
    c.configure_node(&mut n, &[], &no_facts(), &table(&[("HOME", "/h")])).unwrap();
    assert_eq!(n.shared, Some(true));
    assert_eq!(n.cmake_options.text("ANDROID_NDK").unwrap(), "/n");
    assert_eq!(n.cmake_options.text("ANDROID_STL").unwrap(), "none");
    assert_eq!(n.cmake_options.text("ANDROID_ABI").unwrap(), "arm64-v8a");
    assert_eq!(n.cmake_options.text("X").unwrap(), "/d/x;/h");
    assert_eq!(n.compiler, Some(CompilerType::Clang));
    assert!(n.toolchain_fingerprint.is_some());
    assert_eq!(c.triple_for(&n).raw, "aarch64-linux-android");

    let mut t = tool("t");
    c.configure_node(&mut t, &[], &no_facts(), &Table::new()).unwrap();
    assert_eq!(t.shared, Some(false));
    assert_eq!(t.cmake_options.len(), 0);
    assert_eq!(t.compiler, Some(CompilerType::Gcc));
    assert_eq!(t.toolchain_fingerprint, None);
    assert_eq!(c.compilers_for(&t), (None, None, None));
    assert_eq!(c.triple_for(&t).raw, LINUX);
}

#[test]
fn tools_of_native_builds_share_the_compilers() {
    let mut a = args();
    a.c_compiler = Some("clang".to_string());
    let c = context(&a, LINUX, LINUX);
    assert!(c.is_native());
    assert_eq!(c.compilers_for(&tool("t")), (Some("clang"), None, None));
    let mut t = tool("t");
    c.configure_node(&mut t, &[], &no_facts(), &Table::new()).unwrap();
    assert_eq!(t.compiler, Some(CompilerType::Clang));
}

#[test]
fn everything_that_is_wrong_is_told_at_once() {
    let rule = StrategyRule {
        scope: StrategyScope::Global,
        cmake_options: table(&[("R", "$ENV{NO}")]),
        ..Default::default()
    };
    let c = context(&args(), LINUX, LINUX).with_strategy(StrategyEngine::new(&[rule]));
    let mut n = node("a", "/a");
    n.cmake_options = table(&[("A", "${NO}"), ("B", "ok"), ("C", "${X")]);
    let err = c.configure_node(&mut n, &[], &no_facts(), &Table::new()).unwrap_err();
    let lines: Vec<&str> = err.split('\n').collect();
    assert_eq!(lines.len(), 3);
    assert!(lines[0].starts_with("In cmake_options.A of 'a': Variable 'NO'"));
    assert_eq!(lines[1], "In cmake_options.C of 'a': Unterminated variable reference in '${X'");
    assert!(lines[2].starts_with("In cmake_options.R of 'a': Environment variable 'NO'"));

    let mut graph = DependencyGraph::new();
    let mut first = node("a", "/a");
    first.cmake_options = table(&[("A", "${NO}")]);
    let a = graph.try_add_node(first).unwrap();
    let b = graph.try_add_node(node("b", "/b")).unwrap();
    graph.add_dependency(b, a);
    assert_eq!(dependents_in(&graph, a), ["b"]);
    assert!(dependents_in(&graph, b).is_empty());
    let plain = context(&args(), LINUX, LINUX);
    let err = preflight(&plain, &graph, &no_facts(), &Table::new()).unwrap_err();
    assert!(err.contains("'NO'"), "{err}");
    let a2 = context(
        &BuildArgs { cmake_args: strings(&["-DNO=1"]), ..args() },
        LINUX,
        LINUX,
    );
    assert_eq!(preflight(&a2, &graph, &no_facts(), &Table::new()), Ok(()));
}

// What CMake is given

fn bare() -> PrefixFacts {
    PrefixFacts { has_bin: false, has_include: false, declared_library: None, lib_entries: None }
}

#[test]
fn hints_name_a_package_in_every_spelling() {
    let mut n = node("png", "/i\\png");
    n.import_name = Some("PNG".to_string());
    let facts = PrefixFacts {
        has_bin: false,
        has_include: true,
        declared_library: None,
        lib_entries: Some(strings(&["/i/png/lib/z.a", "/i/png/lib/libPNG16.a", "/i/png/lib/png.txt"])),
    };
    let vars = dep_root_vars(&n, &facts);
    let pairs: Vec<(&str, &str)> = vars.iter().map(|(k, v)| (k.as_str(), v.as_str())).collect();
    let lib = "/i/png/lib/libPNG16.a";
    assert_eq!(
        pairs,
        [
            ("png_ROOT", "/i/png"),
            ("png_INCLUDE_DIR", "/i/png/include"),
            ("png_INCLUDE_DIRS", "/i/png/include"),
            ("png_LIBRARY", lib),
            ("png_LIBRARIES", lib),
            ("PNG_ROOT", "/i/png"),
            ("PNG_INCLUDE_DIR", "/i/png/include"),
            ("PNG_INCLUDE_DIRS", "/i/png/include"),
            ("PNG_LIBRARY", lib),
            ("PNG_LIBRARIES", lib),
        ]
    );
    n.install_prefix = None;
    assert!(dep_root_vars(&n, &facts).is_empty());
}

#[test]
fn hints_follow_the_case_mapping_of_unicode() {
    let vars = dep_root_vars(&node("stra\u{df}e", "/p"), &bare());
    assert_eq!(vars[0].0, "stra\u{df}e_ROOT");
    assert_eq!(vars[1].0, "STRASSE_ROOT");
    let facts = PrefixFacts {
        lib_entries: Some(strings(&["/p/lib/a.A", "/p/lib/lib\u{c9}X.SO"])),
        ..bare()
    };
    let vars = dep_root_vars(&node("lib\u{e9}x", "/p"), &facts);
    assert_eq!(vars[1].1, "/p/lib/lib\u{c9}X.SO");
    let declared = PrefixFacts { declared_library: Some("/p/l.a".to_string()), ..bare() };
    assert_eq!(dep_root_vars(&node("x", "/p"), &declared)[1].1, "/p/l.a");
    let other = PrefixFacts { lib_entries: Some(strings(&["/p/lib/b.lib", "/p/lib/a.lib"])), ..bare() };
    assert_eq!(dep_root_vars(&node("x", "/p"), &other)[1].1, "/p/lib/a.lib");
}

#[test]
fn a_library_without_extension_may_be_any_of_four() {
    assert_eq!(
        library_candidates("/p", "lib/yuv"),
        ["/p/lib/yuv", "/p/lib/yuv.lib", "/p/lib/yuv.a", "/p/lib/yuv.so", "/p/lib/yuv.dylib"]
    );
}

#[test]
fn cmake_is_given_what_a_package_needs() {
    let storage = StorageManager::new("/s".to_string());
    let c = context(&args(), LINUX, LINUX);
    let a = node("a", "/i/a");
    let again = node("a2", "/i/./a");
    let mut t = tool("t");
    t.install_prefix = Some("/i/t".to_string());
    let deps = vec![
        DepInput { node: &a, facts: bare() },
        DepInput { node: &again, facts: bare() },
        DepInput { node: &t, facts: PrefixFacts { has_bin: true, ..bare() } },
    ];
    assert_eq!(distinct_indices(&deps), [0, 2]);
    let mut n = node("n", "/i/n");
    n.cmake_options = table(&[("X", "own"), ("a_ROOT", "mine")]);
    n.config.cmake_options = table(&[("X", "rule")]);
    let mode = CmakeMode::Build { nested_targets: Some("/x\\t.cmake".to_string()) };
    let inputs = cmake_inputs(&c, &storage, &deps, &n, "/i/n", &mode);
    let d = &inputs.definitions;
    assert_eq!(d.text("X").unwrap(), "rule");
    assert_eq!(d.text("a_ROOT").unwrap(), "mine");
    assert_eq!(d.text("A_ROOT").unwrap(), "/i/a");
    assert_eq!(d.text("UNIDEPS_NESTED_TARGETS").unwrap(), "/x/t.cmake");
    assert_eq!(inputs.prefix_paths, ["/i/a"]);
    assert_eq!(inputs.host_tools_bins, ["/i/t/bin", "/i/t"]);
    assert_eq!(inputs.build_type, "Release");
    assert!(!inputs.shared && !inputs.isolate_env && !inputs.collect_pdbs);
    assert_eq!(inputs.msvc_runtime, None);
    let probe = CmakeMode::Probe("/o".to_string());
    let inputs = cmake_inputs(&c, &storage, &[], &n, "/i/n", &probe);
    assert_eq!(inputs.definitions.text("UNIDEPS_NESTED_PROBE").unwrap(), "/o");
    let windows = context(&args(), "x86_64-pc-windows-msvc", LINUX);
    let inputs = cmake_inputs(&windows, &storage, &[], &n, "/i/n", &probe);
    assert!(inputs.msvc_runtime.is_some());
    let inputs = cmake_inputs(&windows, &storage, &[], &t, "/i/t", &probe);
    assert!(inputs.isolate_env);
}

// Installing

fn install(
    header_only: bool,
    keep: bool,
    answer: &dyn Fn(&InstallAction, usize) -> InstallEvent,
) -> (Result<(), String>, Vec<String>) {
    let storage = StorageManager::new("/s".to_string());
    let job = InstallJob {
        name: "x".to_string(),
        header_only,
        src_dir: "/src".to_string(),
        keep_build_dirs: keep,
        places: Places::new(&storage, "x", "id"),
    };
    let mut log = Vec::new();
    let mut stage = InstallStage::Start;
    let mut event = InstallEvent::Begin;
    for i in 0..20 {
        let (next, action) = job.next(stage, &event);
        match &action {
            InstallAction::Done => return (Ok(()), log),
            InstallAction::Fail(m) => return (Err(m.clone()), log),
            InstallAction::DropArchive(m) => log.push(m.clone()),
            other => log.push(format!("{other:?}")),
        }
        event = answer(&action, i);
        stage = next;
    }
    unreachable!()
}

#[test]
fn a_package_is_built_packed_and_marked() {
    let plain = |a: &InstallAction, _: usize| match a {
        InstallAction::IsInstalled | InstallAction::HasArchive => InstallEvent::Answer(false),
        InstallAction::HasLists => InstallEvent::Answer(true),
        _ => InstallEvent::Worked,
    };
    let (r, log) = install(false, false, &plain);
    assert_eq!(r, Ok(()));
    assert_eq!(
        log,
        ["IsInstalled", "Lock", "IsInstalled", "Empty", "HasArchive", "HasLists", "RunCMake", "Pack", "Mark", "Tidy"]
    );
    let (_, log) = install(true, true, &plain);
    assert_eq!(log[5..], ["CopyHeaders", "Pack", "Mark"]);
    let (_, log) = install(false, false, &|a, _| match a {
        InstallAction::IsInstalled => InstallEvent::Answer(true),
        _ => InstallEvent::Worked,
    });
    assert_eq!(log, ["IsInstalled"]);
}

#[test]
fn broken_archives_are_dropped_and_failures_end_an_installation() {
    let (r, log) = install(false, true, &|a, _| match a {
        InstallAction::IsInstalled => InstallEvent::Answer(false),
        InstallAction::HasArchive | InstallAction::HasLists => InstallEvent::Answer(true),
        InstallAction::Unpack => InstallEvent::Failed("cut".to_string()),
        _ => InstallEvent::Worked,
    });
    assert_eq!(r, Ok(()));
    assert_eq!(
        log[5..],
        [
            "Unpack",
            "discarding corrupted cache archive /s/cache/x-id.tar.zst: cut",
            "Empty",
            "HasLists",
            "RunCMake",
            "Pack",
            "Mark"
        ]
    );
    let (r, _) = install(false, true, &|a, _| match a {
        InstallAction::IsInstalled | InstallAction::HasArchive | InstallAction::HasLists => {
            InstallEvent::Answer(false)
        }
        _ => InstallEvent::Worked,
    });
    assert_eq!(r.unwrap_err(), "CMakeLists.txt not found in source directory of 'x': /src");
    let (r, log) = install(false, true, &|a, _| match a {
        InstallAction::IsInstalled | InstallAction::HasArchive => InstallEvent::Answer(false),
        InstallAction::HasLists => InstallEvent::Answer(true),
        InstallAction::RunCMake => InstallEvent::Failed("error".to_string()),
        _ => InstallEvent::Worked,
    });
    assert_eq!(r.unwrap_err(), "error");
    assert!(!log.contains(&"Mark".to_string()));
}

#[test]
fn headers_keep_their_layout() {
    let mut n = node("h", "/h");
    assert_eq!(header_dirs(&n), ["include"]);
    assert_eq!(
        header_copy(&n, "include", "/src", "/i", true),
        Ok(("/src/include".to_string(), "/i/include".to_string()))
    );
    assert_eq!(
        header_copy(&n, "include", "/src", "/i", false).unwrap_err(),
        "Header-only 'h': 'include' not found in source; set `include_dirs` to the header directory"
    );
    n.include_dirs = strings(&["/abs"]);
    assert_eq!(
        header_copy(&n, &header_dirs(&n)[0], "/src", "/i", true).unwrap_err(),
        "include_dirs of header-only 'h' must be relative: /abs"
    );
}

#[test]
fn local_tools_stand_for_their_builds() {
    let mut t = tool("nasm");
    assert_eq!(
        use_local_tool(&mut t, "/t".to_string(), false).unwrap_err(),
        "Local tool path for 'nasm' does not exist: /t"
    );
    assert_eq!(t.build_id, None);
    use_local_tool(&mut t, "/t".to_string(), true).unwrap();
    let id = blake3::hash(b"/t").to_hex().as_str()[..16].to_string();
    assert_eq!((t.build_id.as_deref(), t.install_prefix.as_deref()), (Some(id.as_str()), Some("/t")));
    mark_built(&mut t, "b".to_string(), "/p".to_string());
    assert_eq!((t.build_id.as_deref(), t.install_prefix.as_deref()), (Some("b"), Some("/p")));
    let p = project(Manifest::default());
    assert!(!is_fetched(&p, &t));
    t.git = Some("u".to_string());
    assert!(is_fetched(&p, &t));
    t.path = Some("/src".to_string());
    assert!(!is_fetched(&p, &t));
}

// One package

fn chain() -> DependencyGraph {
    let mut graph = DependencyGraph::new();
    let app = graph.try_add_node(node("app", "")).unwrap();
    let lib = graph.try_add_node(node("lib", "/i/lib")).unwrap();
    let base = graph.try_add_node(node("base", "/i/base")).unwrap();
    graph.add_dependency(app, lib);
    graph.add_dependency(lib, base);
    graph.nodes[lib].build_id = Some("1111".to_string());
    graph.nodes[base].build_id = Some("2222".to_string());
    graph
}

#[test]
fn a_package_is_built_on_everything_it_needs() {
    let graph = chain();
    let c = context(&args(), LINUX, LINUX);
    let p = project(Manifest::default());
    let started = start(&p, &c, &graph, 0, &no_facts(), &Table::new()).unwrap();
    assert_eq!(started.local, None);
    let mut n = started.node;
    n.git = Some("u".to_string());
    n.tag = Some("v1".to_string());
    let files = SourceFiles { tree: None, patches: Vec::new() };
    let deps = needs(&graph, 0);
    let found: Vec<&str> = deps.iter().map(|d| d.name.as_str()).collect();
    assert_eq!(found, ["lib", "base"]);
    assert!(needs(&graph, 2).is_empty());

    let (source_id, plain) = identify(&mut n, &files, &c, &deps);
    assert_eq!(source_id, HashCalculator::calculate_source_id(&n, &files));
    assert_eq!(n.source_id.as_ref(), Some(&source_id));
    let id = |ids: &[&str]| {
        HashCalculator::calculate_build_id(&n, &files, &c.target, &c.host, ids)
    };
    assert_eq!(plain, id(&["1111", "2222"]));

    let storage = StorageManager::new("/s".to_string());
    let mut alone = n.clone();
    let (build_id, places) = settle(&mut alone, &source_id, &c, &storage, &deps, &[]);
    assert_eq!(build_id, plain);
    assert_eq!(places.install_dir, format!("/s/installed/app-{plain}"));
    assert_eq!(alone.install_prefix.as_ref(), Some(&places.install_dir));
    assert_eq!(alone.build_id.as_ref(), Some(&build_id));

    let mut pulled = node("inner", "/i/inner");
    pulled.build_id = Some("3333".to_string());
    let mut outer = n.clone();
    let (build_id, _) = settle(&mut outer, &source_id, &c, &storage, &deps, &[pulled.clone()]);
    assert_eq!(build_id, id(&["1111", "2222", "3333"]));
    assert_ne!(build_id, plain);

    let mut again = n.clone();
    let nested = reuse(&mut again, &storage, Resolution::new("app", &build_id, vec![pulled]));
    assert_eq!(nested.len(), 1);
    assert_eq!(again.build_id, outer.build_id);
    assert_eq!(again.install_prefix, outer.install_prefix);

    let probe = ProbePlaces::new(&n, &files, &c, &storage, &deps, 7);
    assert_eq!(probe.key, plain);
    assert_eq!(probe.scratch, format!("/s/scratch/app-probe-{plain}-7"));
    assert_eq!(probe.build_dir, format!("{}/build", probe.scratch));
    assert_eq!(probe.install_dir, format!("{}/app-probe-{plain}", probe.scratch));
    assert_eq!(probe.options_file, format!("{}/options.txt", probe.scratch));
    assert_eq!(probe.log, format!("/s/logs/app-probe-{plain}/configure.log"));
}

#[test]
fn tools_of_the_machine_are_found_at_the_start() {
    let mut graph = DependencyGraph::new();
    graph.try_add_node(tool("nasm")).unwrap();
    let mut lib = node("lib", "");
    lib.cmake_options = table(&[("A", "${NO}")]);
    graph.try_add_node(lib).unwrap();
    let c = context(&args(), LINUX, LINUX);
    let local = LocalConfig { tools: table(&[("nasm", "t"), ("lib", "l")]), ..Default::default() };
    let p = Project::load("/proj".to_string(), Manifest::default(), Some(local)).unwrap();
    let started = start(&p, &c, &graph, 0, &no_facts(), &Table::new()).unwrap();
    assert_eq!(started.local.as_deref(), Some("/proj/t"));
    let err = start(&p, &c, &graph, 1, &no_facts(), &Table::new()).unwrap_err();
    assert!(err.starts_with("In cmake_options.A of 'lib': "), "{err}");
    let known = context(&BuildArgs { cmake_args: strings(&["-DNO=1"]), ..args() }, LINUX, LINUX);
    let started = start(&p, &known, &graph, 1, &no_facts(), &Table::new()).unwrap();
    assert_eq!(started.local, None);
}
