use unideps::link::connect_graph;
use unideps::manifest::{
    DependencyDetails, DependencySpec, LocalCacheConfig, LocalConfig, LocalResourcesConfig,
    LocalStorageConfig, Manifest, OptionValue, RegistryConfig, StrategyRule, StrategyScope,
    SubDependency, TargetSysrootConfig, ToolDetails, ToolRequirement,
};
use unideps::project::{
    absolute_path, check_files, manifest_places, missing_manifest, resolve_base_dir, Project,
    SUPPORTED_STRATEGIES,
};
use unideps::recipe::{is_lua, Recipe, RecipeSource};
use unideps::table::Table;
use unideps::target::TargetTriple;
use unideps::util::{
    expand_vars, parse_bool, parse_define, resolve_msvc_runtime, toolchain_fingerprint,
    CompilerFacts, ToolchainFacts,
};
use unideps::target::{BuildType, VCRuntime};

fn table(pairs: &[(&str, &str)]) -> Table<String> {
    let mut t = Table::new();
    for (k, v) in pairs {
        t.set_text(k.to_string(), v.to_string());
    }
    t
}

fn project(deps: Vec<(&str, DependencySpec)>) -> Project {
    let mut manifest = Manifest::default();
    for (name, spec) in deps {
        manifest.dependencies.insert(name.to_string(), spec);
    }
    Project::load("/proj".to_string(), manifest, None).unwrap()
}

fn git(url: &str) -> DependencyDetails {
    DependencyDetails { git: Some(url.to_string()), ..Default::default() }
}

fn graph_of(p: &Project) -> Result<unideps::graph::DependencyGraph, String> {
    let wanted = p.wanted_recipes();
    assert!(wanted.iter().all(|w| w.is_none()));
    p.build_graph(&wanted.iter().map(|_| None).collect::<Vec<_>>())
}

fn linux() -> TargetTriple {
    "x86_64-unknown-linux-gnu".parse().unwrap()
}

#[test]
fn version_only_dependency_is_rejected() {
    let p = project(vec![("fmt", DependencySpec::Version("10.2.1".to_string()))]);
    let err = graph_of(&p).unwrap_err();
    assert!(err.contains("has no source"), "{err}");
    assert_eq!(
        err,
        "Dependency 'fmt' has no source: set `git` or `path` (or a `recipe` providing one). Version-only specs like `fmt = \"1.0\"` need registries, which are not supported yet"
    );
}

#[test]
fn unknown_strategy_is_rejected() {
    let d = DependencyDetails { strategy: Some("meson".into()), ..git("u") };
    let p = project(vec![("a", DependencySpec::Detailed(d))]);
    let err = graph_of(&p).unwrap_err();
    assert!(err.contains("unknown strategy"), "{err}");
    assert_eq!(err, "'a' uses unknown strategy 'meson' (supported: cmake-install)");
    assert_eq!(SUPPORTED_STRATEGIES, ["cmake-install"]);
}

#[test]
fn build_dirs_are_removed_unless_local_toml_opts_out() {
    assert!(!project(vec![]).keep_build_dirs());

    let local = LocalConfig {
        storage: Some(LocalStorageConfig { keep_build_dirs: Some(true), ..Default::default() }),
        ..Default::default()
    };
    let p = Project::load("/proj".to_string(), Manifest::default(), Some(local)).unwrap();
    assert!(p.keep_build_dirs());
}

#[test]
fn nested_manifest_ignores_local_toml() {
    let p = Project::load_nested("/proj".to_string(), Manifest::default()).unwrap();
    assert!(p.local.is_none());
}

#[test]
fn nested_manifest_ignores_its_overrides() {
    let manifest = || {
        let mut m = Manifest::default();
        m.dependencies.insert("z".to_string(), DependencySpec::Detailed(git("up")));
        m.overrides.insert("z".to_string(), git("fork"));
        m
    };
    let outer = Project::load("/proj".to_string(), manifest(), None).unwrap();
    assert_eq!(graph_of(&outer).unwrap().node(0).git.as_deref(), Some("fork"));
    let nested = Project::load_nested("/proj".to_string(), manifest()).unwrap();
    assert_eq!(graph_of(&nested).unwrap().node(0).git.as_deref(), Some("up"));
    assert!(nested.warn_unmatched().is_empty());
}

#[test]
fn dependency_and_tool_name_collision_is_rejected() {
    let mut manifest = Manifest::default();
    manifest.tools.insert(
        "nasm".to_string(),
        ToolRequirement::Detailed(ToolDetails { git: Some("u".into()), ..Default::default() }),
    );
    manifest.dependencies.insert("nasm".to_string(), DependencySpec::Detailed(git("u")));
    let p = Project::load("/proj".to_string(), manifest, None).unwrap();
    let err = graph_of(&p).unwrap_err();
    assert_eq!(
        err,
        "Manifest error: 'nasm' is declared twice (as a tool and as a dependency); dependency and tool names must be unique"
    );
}

#[test]
fn unknown_dependency_reference_is_rejected_but_filtered_one_is_not() {
    let a = DependencyDetails { dependencies: vec![SubDependency::Simple("b".into())], ..git("u") };
    let b = DependencyDetails { platforms: vec!["android".into()], ..git("u") };
    let c = DependencyDetails { dependencies: vec![SubDependency::Simple("typo".into())], ..git("u") };
    let p = project(vec![
        ("a", DependencySpec::Detailed(a)),
        ("b", DependencySpec::Detailed(b)),
        ("c", DependencySpec::Detailed(c)),
    ]);
    let mut g = graph_of(&p).unwrap();
    let err = connect_graph(&mut g, &linux(), &Table::new()).unwrap_err();
    assert!(err.contains("'typo'"), "{err}");
    assert_eq!(err, "'c' depends on 'typo', which is not declared in [dependencies] or [tools]");
}

#[test]
fn filtered_dependency_reference_is_dropped() {
    let a = DependencyDetails { dependencies: vec![SubDependency::Simple("b".into())], ..git("u") };
    let b = DependencyDetails { platforms: vec!["android".into()], ..git("u") };
    let p = project(vec![("a", DependencySpec::Detailed(a)), ("b", DependencySpec::Detailed(b))]);
    let mut g = graph_of(&p).unwrap();
    connect_graph(&mut g, &linux(), &Table::new()).unwrap();
    assert!(g.indices.contains_key("a"));
    assert!(!g.indices.contains_key("b"));
}

#[test]
fn scoped_strategy_without_package_is_rejected() {
    let mut manifest = Manifest::default();
    manifest.strategy.push(StrategyRule {
        scope: StrategyScope::Cascade,
        shared: Some(true),
        ..Default::default()
    });
    assert!(Project::load("/proj".to_string(), manifest, None).is_err());
}

#[test]
fn relative_paths_resolve_against_manifest_dir() {
    let d = DependencyDetails {
        path: Some("vendor/lib".into()),
        patches: vec!["fix.patch".into()],
        ..Default::default()
    };
    let p = project(vec![("lib", DependencySpec::Detailed(d))]);
    let g = graph_of(&p).unwrap();
    let node = g.node(*g.indices.get("lib").unwrap());
    assert!(node.path.as_ref().unwrap().starts_with('/'));
    assert!(node.patches[0].starts_with('/'));
    assert_eq!(node.path.as_deref(), Some("/proj/vendor/lib"));
    assert_eq!(node.patches, vec!["/proj/fix.patch"]);
}

fn ogg_recipe() -> Recipe {
    let mut options = Table::new();
    options.insert("BUILD_TESTING".to_string(), OptionValue::Boolean(false));
    Recipe {
        name: "ogg".into(),
        patches: vec!["p.patch".into()],
        source: RecipeSource {
            git: Some("https://x/ogg.git".into()),
            tag: Some("v1".into()),
            ..Default::default()
        },
        options,
        ..Default::default()
    }
}

#[test]
fn toml_recipe_fills_source_and_options() {
    let d = DependencyDetails { recipe: Some("recipes/ogg.toml".into()), ..Default::default() };
    let p = project(vec![("ogg", DependencySpec::Detailed(d))]);
    assert_eq!(p.wanted_recipes(), vec![Some(("/proj/recipes/ogg.toml".to_string(), None))]);
    let g = p.build_graph(&[Some(Ok(ogg_recipe()))]).unwrap();
    let node = g.node(*g.indices.get("ogg").unwrap());
    assert_eq!(node.git.as_deref(), Some("https://x/ogg.git"));
    assert_eq!(node.tag.as_deref(), Some("v1"));
    assert_eq!(node.cmake_options.text("BUILD_TESTING").unwrap(), "OFF");
    assert!(node.patches[0].ends_with("recipes/p.patch"));
    assert!(!is_lua("recipes/ogg.toml") && is_lua("r.lua"));
}

#[test]
fn broken_recipe_is_an_error() {
    let d = DependencyDetails { recipe: Some("r.lua".into()), ..Default::default() };
    let p = project(vec![("x", DependencySpec::Detailed(d))]);
    let err = p.build_graph(&[Some(Err("no end".to_string()))]).unwrap_err();
    assert_eq!(err, "Dependency 'x': no end");
}

#[test]
fn the_manifest_wins_over_a_recipe() {
    let d = DependencyDetails {
        recipe: Some("/r/ogg.toml".into()),
        path: Some("/src/ogg".into()),
        version: Some("9".into()),
        cmake_options: table(&[("BUILD_TESTING", "ON")]),
        strategy: Some("cmake-install".into()),
        ..Default::default()
    };
    let p = project(vec![("ogg", DependencySpec::Detailed(d))]);
    let mut recipe = ogg_recipe();
    recipe.version = Some("1".into());
    recipe.strategy = Some("meson".into());
    recipe.options.insert("LEVEL".to_string(), OptionValue::Integer(-3));
    recipe.options.insert("NAME".to_string(), OptionValue::Text("n".into()));
    recipe.options.insert("RATE".to_string(), OptionValue::Other("0.5".into()));
    recipe.libraries = vec!["lib/ogg".into()];
    let g = p.build_graph(&[Some(Ok(recipe))]).unwrap();
    let node = g.node(0);
    assert_eq!(node.version.as_deref(), Some("9"));
    assert_eq!(node.git, None);
    assert_eq!(node.tag, None);
    assert_eq!(node.path.as_deref(), Some("/src/ogg"));
    assert_eq!(node.strategy, "cmake-install");
    assert_eq!(node.cmake_options.text("BUILD_TESTING").unwrap(), "ON");
    assert_eq!(node.cmake_options.text("LEVEL").unwrap(), "-3");
    assert_eq!(node.cmake_options.text("NAME").unwrap(), "n");
    assert_eq!(node.cmake_options.text("RATE").unwrap(), "0.5");
    assert_eq!(node.libraries, vec!["lib/ogg"]);
    assert_eq!(node.patches, vec!["/r/p.patch"]);
}

#[test]
fn recipes_with_a_local_source_are_seen_from_the_recipe() {
    let d = DependencyDetails { recipe: Some("recipes/x.toml".into()), ..Default::default() };
    let p = project(vec![("x", DependencySpec::Detailed(d))]);
    let recipe = Recipe {
        strategy: Some("cmake-install".into()),
        source: RecipeSource { path: Some("../x".into()), ..Default::default() },
        ..Default::default()
    };
    let g = p.build_graph(&[Some(Ok(recipe))]).unwrap();
    assert_eq!(g.node(0).path.as_deref(), Some("/proj/recipes/../x"));
}

#[test]
fn local_overrides_win_over_those_of_the_manifest() {
    let mut manifest = Manifest::default();
    manifest.dependencies.insert("z".to_string(), DependencySpec::Detailed(git("up")));
    manifest.overrides.insert(
        "z".to_string(),
        DependencyDetails { tag: Some("v1".into()), ..git("fork") },
    );
    manifest.overrides.insert("other".to_string(), git("x"));
    let mut local = LocalConfig::default();
    local.overrides.insert(
        "z".to_string(),
        DependencyDetails { path: Some("../z".into()), ..Default::default() },
    );
    let p = Project::load("/proj".to_string(), manifest, Some(local)).unwrap();
    let g = graph_of(&p).unwrap();
    let node = g.node(0);
    assert_eq!(node.git, None);
    assert_eq!(node.path.as_deref(), Some("/proj/../z"));
    assert_eq!(node.tag.as_deref(), Some("v1"));
    assert_eq!(p.warn_unmatched(), vec!["[overrides.other] does not match any dependency"]);
}

#[test]
fn local_tools_need_no_source() {
    let mut manifest = Manifest::default();
    manifest.tools.insert("nasm".to_string(), ToolRequirement::Version("2".into()));
    let p = Project::load("/proj".to_string(), manifest, None).unwrap();
    assert!(graph_of(&p).unwrap_err().starts_with("Tool 'nasm' has no source"));

    let mut manifest = Manifest::default();
    manifest.tools.insert("nasm".to_string(), ToolRequirement::Version("2".into()));
    let local = LocalConfig { tools: table(&[("nasm", "tools/nasm")]), ..Default::default() };
    let p = Project::load("/proj".to_string(), manifest, Some(local)).unwrap();
    assert_eq!(graph_of(&p).unwrap().nodes.len(), 1);
    assert_eq!(p.local_tool_path("nasm").as_deref(), Some("/proj/tools/nasm"));
    assert_eq!(p.local_tool_path("yasm"), None);
}

#[test]
fn wrong_references_are_named() {
    let with_tools = |t: &str| DependencyDetails { tools: vec![t.into()], ..git("u") };
    let p = project(vec![
        ("a", DependencySpec::Detailed(with_tools("b"))),
        ("b", DependencySpec::Detailed(git("u"))),
    ]);
    let mut g = graph_of(&p).unwrap();
    assert_eq!(
        connect_graph(&mut g, &linux(), &Table::new()).unwrap_err(),
        "'a' lists 'b' in `tools`, but 'b' is not declared under [tools]"
    );

    let p = project(vec![("a", DependencySpec::Detailed(with_tools("a")))]);
    let mut g = graph_of(&p).unwrap();
    assert_eq!(connect_graph(&mut g, &linux(), &Table::new()).unwrap_err(), "'a' depends on itself");

    let mut manifest = Manifest::default();
    manifest.tools.insert(
        "t".to_string(),
        ToolRequirement::Detailed(ToolDetails { git: Some("u".into()), ..Default::default() }),
    );
    manifest.dependencies.insert("d".to_string(), DependencySpec::Detailed(git("u")));
    let p = Project::load("/proj".to_string(), manifest, None).unwrap();
    let mut g = graph_of(&p).unwrap();
    let t = *g.indices.get("t").unwrap();
    g.nodes[t].dependencies = vec!["d".to_string()];
    assert_eq!(
        connect_graph(&mut g, &linux(), &Table::new()).unwrap_err(),
        "Tool 't' cannot depend on target dependency 'd'"
    );
}

#[test]
fn files_of_packages_are_checked() {
    let d = DependencyDetails {
        path: Some("/src".into()),
        patches: vec!["/a.patch".into(), "/b.patch".into()],
        ..Default::default()
    };
    let p = project(vec![("x", DependencySpec::Detailed(d))]);
    let g = graph_of(&p).unwrap();
    assert_eq!(check_files(g.node(0), true, &[true, true]), Ok(()));
    assert_eq!(
        check_files(g.node(0), false, &[true, true]).unwrap_err(),
        "Source path of 'x' does not exist: /src"
    );
    assert_eq!(
        check_files(g.node(0), true, &[true, false]).unwrap_err(),
        "Patch file of 'x' not found: /b.patch"
    );
}

#[test]
fn settings_without_effect_are_warned_of() {
    assert!(project(vec![]).warn_unsupported().is_empty());
    let mut manifest = Manifest::default();
    manifest.registries.insert(
        "main".to_string(),
        RegistryConfig { git: "u".into(), branch: "main".into() },
    );
    let local = LocalConfig {
        storage: Some(LocalStorageConfig { cache_sources: Some(true), ..Default::default() }),
        resources: Some(LocalResourcesConfig { max_jobs: Some(4), max_memory_gb: Some(8) }),
        cache: Some(LocalCacheConfig {
            remote_url: None,
            auth_token: None,
            upload: Some(false),
            local_dir: None,
        }),
        ..Default::default()
    };
    let p = Project::load("/proj".to_string(), manifest, Some(local)).unwrap();
    assert_eq!(
        p.warn_unsupported(),
        vec![
            "[registries] are not supported yet and are ignored",
            ".local.toml: [cache] settings are not supported yet and are ignored",
            ".local.toml: resources.max_memory_gb is not supported yet and is ignored",
            ".local.toml: storage.scratch_mode / storage.cache_sources are not supported yet and are ignored",
        ]
    );
    assert_eq!(p.max_jobs(), Some(4));
    assert_eq!(p.scratch_dir(), None);
}

#[test]
fn storage_directory_follows_its_order() {
    let local = |base: &str| {
        Some(LocalConfig {
            storage: Some(LocalStorageConfig {
                base_dir: Some(base.to_string()),
                scratch_dir: Some("tmp".to_string()),
                ..Default::default()
            }),
            ..Default::default()
        })
    };
    let env = table(&[("HOME", "/home/u"), ("UNIDEPS_DIR", "  "), ("UNIDEPS_BASE_DIR", "/env")]);
    let home = table(&[("HOME", "/home/u")]);
    let none = Table::new();
    let at = |cli, l: &Option<LocalConfig>, e: &Table<String>| {
        resolve_base_dir(cli, l, "/proj", e, Some("/cwd"))
    };
    assert_eq!(at(Some("x"), &local("s"), &env), "/cwd/x");
    assert_eq!(at(Some("/x"), &local("s"), &env), "/x");
    assert_eq!(at(None, &local("s"), &env), "/env");
    assert_eq!(at(None, &local("s"), &home), "/proj/s");
    assert_eq!(at(None, &None, &home), "/home/u/.unideps");
    assert_eq!(at(None, &None, &none), "/proj/.unideps");
    let p = Project::load("/proj".to_string(), Manifest::default(), local("s")).unwrap();
    assert_eq!(p.base_dir(None, &none, None), "/proj/s");
    assert_eq!(p.scratch_dir().as_deref(), Some("/proj/tmp"));
    assert_eq!(absolute_path("x", None), "x");
}

#[test]
fn toolchains_of_the_machine_win() {
    let mut manifest = Manifest::default();
    let raw = "x86_64-unknown-linux-gnu";
    manifest.targets.insert(
        raw.to_string(),
        TargetSysrootConfig {
            c_compiler: Some("clang".into()),
            cxx_compiler: Some("bin/clang++".into()),
            toolchain_file: Some("tc.cmake".into()),
            ..Default::default()
        },
    );
    let mut local = LocalConfig::default();
    local.targets.insert(
        raw.to_string(),
        TargetSysrootConfig { c_compiler: Some("/opt/cc".into()), ..Default::default() },
    );
    let p = Project::load("/proj".to_string(), manifest, Some(local)).unwrap();
    let c = p.target_config(&linux());
    assert_eq!(c.c_compiler.as_deref(), Some("/opt/cc"));
    assert_eq!(c.cxx_compiler.as_deref(), Some("/proj/bin/clang++"));
    assert_eq!(c.toolchain_file.as_deref(), Some("/proj/tc.cmake"));
    assert_eq!(c.compiler, None);
    let other: TargetTriple = "aarch64-linux-android".parse().unwrap();
    assert_eq!(p.target_config(&other).c_compiler, None);
}

#[test]
fn manifests_lie_beside_their_configuration() {
    let (dir, local) = manifest_places("/proj/unideps.toml");
    assert_eq!((dir.as_str(), local.as_str()), ("/proj", "/proj/.local.toml"));
    assert_eq!(missing_manifest("x.toml"), "Manifest file not found: x.toml");
}

// What the command line is read with

#[test]
fn bool_parsing_accepts_cmake_spellings() {
    for t in ["ON", "on", "TRUE", "1", "YES", "y"] {
        assert_eq!(parse_bool(t), Ok(true), "{t}");
    }
    for f in ["OFF", "false", "0", "NO", "n", ""] {
        assert_eq!(parse_bool(f), Ok(false), "{f}");
    }
    assert!(parse_bool("maybe").is_err());
    assert_eq!(
        parse_bool(" Maybe "),
        Err("expected ON/OFF, TRUE/FALSE, YES/NO or 1/0, got 'maybe'".to_string())
    );
}

#[test]
fn msvc_runtime_generator_expressions() {
    let genex = "MultiThreaded$<$<CONFIG:Debug>:Debug>DLL";
    assert_eq!(
        resolve_msvc_runtime(genex, BuildType::Debug).unwrap(),
        VCRuntime::MultiThreadedDebugDLL
    );
    assert_eq!(
        resolve_msvc_runtime(genex, BuildType::Release).unwrap(),
        VCRuntime::MultiThreadedDLL
    );
    let static_genex = "MultiThreaded$<$<CONFIG:Debug,RelWithDebInfo>:Debug>";
    assert_eq!(
        resolve_msvc_runtime(static_genex, BuildType::RelWithDebInfo).unwrap(),
        VCRuntime::MultiThreadedDebug
    );
    assert_eq!(
        resolve_msvc_runtime("MultiThreaded", BuildType::Debug).unwrap(),
        VCRuntime::MultiThreaded
    );
    assert!(resolve_msvc_runtime("$<IF:$<CONFIG:Debug>,a,b>", BuildType::Debug).is_err());
    assert!(resolve_msvc_runtime("Bogus", BuildType::Debug).is_err());
}

#[test]
fn broken_generator_expressions_are_errors() {
    assert_eq!(
        resolve_msvc_runtime("$<$<CONFIG:Debug", BuildType::Debug).unwrap_err(),
        "Malformed generator expression in MSVC runtime '$<$<CONFIG:Debug'"
    );
    assert_eq!(
        resolve_msvc_runtime("$<IF:x>", BuildType::Debug).unwrap_err(),
        "Unsupported generator expression in MSVC runtime '$<IF:x>'"
    );
    assert_eq!(
        resolve_msvc_runtime("  static $<$<CONFIG:debug>:_debug>", BuildType::Debug).is_err(),
        true
    );
    assert_eq!(
        resolve_msvc_runtime(" static$<$<CONFIG: debug >:_debug> ", BuildType::Debug).unwrap(),
        VCRuntime::MultiThreadedDebug
    );
}

#[test]
fn define_parsing() {
    assert_eq!(parse_define("-DFOO=ON"), Some(("FOO".into(), "ON".into())));
    assert_eq!(parse_define("-DFOO:BOOL=OFF"), Some(("FOO".into(), "OFF".into())));
    assert_eq!(parse_define("-DPATH=a=b"), Some(("PATH".into(), "a=b".into())));
    assert_eq!(parse_define("--foo"), None);
    assert_eq!(parse_define("-D=x"), None);
    assert_eq!(parse_define("-D:T=x"), None);
    assert_eq!(parse_define("-DX"), None);
}

#[test]
fn variables_are_expanded() {
    let vars = table(&[("SKIA_DIR", "C:/skia")]);
    let env = Table::new();
    assert_eq!(expand_vars("${SKIA_DIR}", &vars, &env).unwrap(), "C:/skia");
    assert_eq!(
        expand_vars("-I${SKIA_DIR}/include;${SKIA_DIR}", &vars, &env).unwrap(),
        "-IC:/skia/include;C:/skia"
    );
    assert_eq!(
        expand_vars("plain $ and $x and 5$", &vars, &env).unwrap(),
        "plain $ and $x and 5$"
    );
    assert_eq!(expand_vars("", &vars, &env).unwrap(), "");
}

#[test]
fn unknown_or_broken_variables_are_errors() {
    let vars = Table::new();
    let env = Table::new();
    let err = expand_vars("${SKIA_DIR}", &vars, &env).unwrap_err();
    assert!(err.contains("SKIA_DIR") && err.contains("--cmake-args"), "{err}");
    assert!(expand_vars("$ENV{UNIDEPS_SURELY_UNSET_VARIABLE}", &vars, &env).is_err());
    assert!(expand_vars("${SKIA_DIR", &vars, &env).is_err());
}

#[test]
fn environment_variables_are_expanded() {
    let vars = table(&[("X", "var")]);
    let env = table(&[("X", "env")]);
    assert_eq!(expand_vars("$ENV{X}-${X}", &vars, &env).unwrap(), "env-var");
    assert_eq!(
        expand_vars("$ENV{Y}", &vars, &env).unwrap_err(),
        "Environment variable 'Y' (used in '$ENV{Y}') is not set"
    );
    assert_eq!(
        expand_vars("a${Y}", &vars, &env).unwrap_err(),
        "Variable 'Y' (used in 'a${Y}') is not defined: set it in CMake before unideps_setup() or pass --cmake-args=-DY=<value>"
    );
    assert_eq!(
        expand_vars("a${Y", &vars, &env).unwrap_err(),
        "Unterminated variable reference in 'a${Y'"
    );
}

fn facts(content: &[u8]) -> ToolchainFacts {
    let compiler = || CompilerFacts { exists: false, on_path: None, len: None, mtime: None };
    ToolchainFacts { c: compiler(), cxx: compiler(), toolchain_content: content.to_vec() }
}

#[test]
fn fingerprint_changes_with_toolchain_content() {
    let a = toolchain_fingerprint(None, None, Some("tc.cmake"), &facts(b"set(A 1)"));
    let b = toolchain_fingerprint(None, None, Some("tc.cmake"), &facts(b"set(A 2)"));
    assert_ne!(a, b);
    assert_eq!(toolchain_fingerprint(None, None, None, &facts(b"")), None);
}

#[test]
fn fingerprint_is_computed_from_all_its_parts() {
    let short = |d: &[u8]| blake3::hash(d).to_hex().as_str()[..16].to_string();
    let mut f = facts(b"x");
    f.c = CompilerFacts {
        exists: false,
        on_path: Some("/usr/bin/cc".into()),
        len: Some(1200),
        mtime: Some(99),
    };
    f.cxx = CompilerFacts { exists: true, on_path: None, len: Some(7), mtime: None };
    let expected = format!(
        "cc=/usr/bin/cc|1200|99;cxx=/opt/c++|7|0;toolchain=tc|{}",
        short(b"x")
    );
    assert_eq!(
        toolchain_fingerprint(Some("cc"), Some("/opt/c++"), Some("tc"), &f),
        Some(short(expected.as_bytes()))
    );
}
