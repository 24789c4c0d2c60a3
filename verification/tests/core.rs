use unideps::compiler::CompilerType;
use unideps::error::CoreError;
use unideps::graph::{DependencyGraph, Direction};
use unideps::hash::{build_preimage, source_preimage, EntryKind, HashCalculator, SourceFiles};
use unideps::manifest::{
    default_branch, error_in_file, DependencyDetails, DependencySpec, LtoSetting, Manifest, Preset,
    StrategyRule, StrategyScope, SubDependency, ToolDetails, ToolRequirement,
};
use unideps::node::{DependencyNode, NodeKind};
use unideps::strategy::{EffectiveConfig, StrategyEngine};
use unideps::table::Table;
use unideps::target::{Arch, BuildType, CxxStdlib, Environment, Os, TargetTriple, VCRuntime};

fn table(pairs: &[(&str, &str)]) -> Table<String> {
    let mut t = Table::new();
    for (k, v) in pairs {
        t.set_text(k.to_string(), v.to_string());
    }
    t
}

fn version(v: &str) -> DependencySpec {
    DependencySpec::Version(v.to_string())
}

fn dep(name: &str) -> DependencyNode {
    DependencyNode::from_target_dep(name, &version("1"))
}

// Graphs

#[test]
fn test_topological_order() {
    let mut graph = DependencyGraph::new();
    let a = DependencyNode::from_target_dep("app", &version("1"));
    let b = DependencyNode::from_target_dep("lib", &version("1"));
    let a_idx = graph.add_or_get_node(a);
    let b_idx = graph.add_or_get_node(b);
    graph.add_dependency(a_idx, b_idx);
    let order = graph.topological_order().unwrap();
    assert_eq!(order, vec![b_idx, a_idx]);
}

#[test]
fn test_override_replaces_source_and_ref() {
    let spec = DependencySpec::Detailed(DependencyDetails {
        git: Some("https://up/x.git".into()),
        commit: Some("abcdef1".into()),
        ..Default::default()
    });
    let mut node = DependencyNode::from_target_dep("x", &spec);
    node.apply_override(&DependencyDetails { tag: Some("v2".into()), ..Default::default() });
    assert_eq!(node.commit, None);
    assert_eq!(node.tag.as_deref(), Some("v2"));
    assert_eq!(node.git.as_deref(), Some("https://up/x.git"));

    node.apply_override(&DependencyDetails { path: Some("../x".into()), ..Default::default() });
    assert_eq!(node.git, None);
    assert!(node.path.is_some());
}

#[test]
fn test_duplicate_names_rejected() {
    let mut graph = DependencyGraph::new();
    let dep = DependencyNode::from_target_dep("nasm", &version("1"));
    let tool = DependencyNode::from_host_tool("nasm", &ToolRequirement::Version("2".into()));
    graph.try_add_node(dep).unwrap();
    assert!(graph.try_add_node(tool).is_err());
}

#[test]
fn test_reachable() {
    let mut graph = DependencyGraph::new();
    let a = graph.add_or_get_node(dep("a"));
    let b = graph.add_or_get_node(dep("b"));
    let c = graph.add_or_get_node(dep("c"));
    graph.add_dependency(a, b);
    graph.add_dependency(b, c);
    assert_eq!(graph.reachable(a, Direction::Outgoing), [b, c].into_iter().collect());
    assert_eq!(graph.reachable(c, Direction::Incoming), [a, b].into_iter().collect());
}

#[test]
fn test_eval_condition() {
    let opts = table(&[("A", "ON"), ("B", "OFF"), ("MODE", "Fast")]);
    let ev = |c: &str| DependencyGraph::eval_condition(c, &opts);
    assert!(ev("A"));
    assert!(!ev("B"));
    assert!(!ev("MISSING"));
    assert!(ev("!B"));
    assert!(ev("A && !B"));
    assert!(ev("B || A"));
    assert!(ev("MODE=fast"));
    assert!(ev("MISSING=OFF"));
    assert!(!ev("A && B || MISSING"));
}

#[test]
fn duplicate_name_message_names_both_kinds() {
    let mut graph = DependencyGraph::new();
    let tool = DependencyNode::from_host_tool("nasm", &ToolRequirement::Version("2".into()));
    graph.try_add_node(tool).unwrap();
    let e = graph.try_add_node(dep("nasm")).unwrap_err();
    assert_eq!(
        e.message(),
        "Manifest error: 'nasm' is declared twice (as a tool and as a dependency); dependency and tool names must be unique"
    );
    assert_eq!(graph.nodes.len(), 1);
}

#[test]
fn cycles_are_reported_with_a_quoted_name() {
    let mut graph = DependencyGraph::new();
    let a = graph.add_or_get_node(dep("on\"e"));
    graph.add_dependency(a, a);
    let e = graph.topological_order().unwrap_err();
    assert_eq!(e.message(), "Dependency cycle detected: Cycle involves node Some(\"on\\\"e\")");
}

#[test]
fn adding_a_known_name_gives_its_number() {
    let mut graph = DependencyGraph::new();
    let a = graph.add_or_get_node(dep("a"));
    let b = graph.add_or_get_node(dep("b"));
    assert_eq!(graph.add_or_get_node(dep("a")), a);
    assert_ne!(a, b);
    assert_eq!(graph.node(b).name, "b");
    let mut changed = dep("b");
    changed.build_id = Some("id".to_string());
    graph.set_node(b, changed);
    assert_eq!(graph.node(b).build_id.as_deref(), Some("id"));
}

#[test]
fn order_puts_every_need_first() {
    let mut graph = DependencyGraph::new();
    let n: Vec<usize> = ["d", "c", "b", "a"].iter().map(|x| graph.add_or_get_node(dep(x))).collect();
    graph.add_dependency(n[3], n[2]);
    graph.add_dependency(n[3], n[1]);
    graph.add_dependency(n[2], n[0]);
    graph.add_dependency(n[1], n[0]);
    let order = graph.topological_order().unwrap();
    let at = |i: usize| order.iter().position(|x| *x == i).unwrap();
    assert!(at(n[0]) < at(n[1]) && at(n[0]) < at(n[2]));
    assert!(at(n[1]) < at(n[3]) && at(n[2]) < at(n[3]));
    assert_eq!(graph.reachable_list(n[0], Direction::Incoming), vec![n[1], n[2], n[3]]);
}

#[test]
fn filters_keep_tools_and_edges_between_what_stays() {
    let linux: TargetTriple = "x86_64-unknown-linux-gnu".parse().unwrap();
    let mut graph = DependencyGraph::new();
    let a = graph.add_or_get_node(dep("a"));
    let mut only_windows = dep("b");
    only_windows.platforms = vec!["windows".to_string()];
    let b = graph.add_or_get_node(only_windows);
    let c = graph.add_or_get_node(dep("c"));
    let mut tool = DependencyNode::from_host_tool("t", &ToolRequirement::Version("1".into()));
    tool.platforms = vec!["windows".to_string()];
    let t = graph.add_or_get_node(tool);
    graph.add_dependency(a, b);
    graph.add_dependency(a, c);
    graph.add_dependency(c, t);
    graph.filter_platforms(&linux);
    let names: Vec<&str> = graph.nodes.iter().map(|n| n.name.as_str()).collect();
    assert_eq!(names, ["a", "t", "c"]);
    let at = |n: &str| *graph.indices.get(n).unwrap();
    assert!(!graph.indices.contains_key("b"));
    assert_eq!(graph.reachable_list(at("a"), Direction::Outgoing), vec![at("t"), at("c")]);
}

#[test]
fn conditions_leave_packages_out() {
    let mut graph = DependencyGraph::new();
    let mut png = dep("png");
    png.enabled_if = Some("WITH_PNG".to_string());
    graph.add_or_get_node(png);
    graph.add_or_get_node(dep("zlib"));
    graph.filter_conditions(&table(&[("WITH_PNG", "OFF")]));
    assert_eq!(graph.nodes.len(), 1);
    assert_eq!(graph.nodes[0].name, "zlib");
}

// Identities

#[test]
fn test_compiler_separation_in_build_id() {
    let spec = DependencySpec::Detailed(DependencyDetails {
        version: Some("1.0.0".into()),
        ..Default::default()
    });
    let mut node_clang = DependencyNode::from_target_dep("foo", &spec);
    node_clang.compiler = Some(CompilerType::Clang);

    let mut node_msvc = DependencyNode::from_target_dep("foo", &spec);
    node_msvc.compiler = Some(CompilerType::Msvc);

    let mut node_gcc = DependencyNode::from_target_dep("foo", &spec);
    node_gcc.compiler = Some(CompilerType::Gcc);

    let target: TargetTriple = "x86_64-pc-windows-msvc".parse().unwrap();
    let host: TargetTriple = "x86_64-pc-windows-msvc".parse().unwrap();
    let files = SourceFiles::none();

    let id_clang = HashCalculator::calculate_build_id(&node_clang, &files, &target, &host, &[]);
    let id_msvc = HashCalculator::calculate_build_id(&node_msvc, &files, &target, &host, &[]);
    let id_gcc = HashCalculator::calculate_build_id(&node_gcc, &files, &target, &host, &[]);

    assert_ne!(id_clang, id_msvc);
    assert_ne!(id_clang, id_gcc);
    assert_ne!(id_msvc, id_gcc);
}

#[test]
fn test_patches_content_affects_hash() {
    let patch_files = |content: &[u8]| SourceFiles { tree: None, patches: vec![Some(content.to_vec())] };
    let spec = DependencySpec::Detailed(DependencyDetails {
        version: Some("1.0.0".into()),
        ..Default::default()
    });

    let mut node1 = DependencyNode::from_target_dep("foo", &spec);
    node1.patches = vec!["/tmp/fix.patch".to_string()];

    let mut node2 = DependencyNode::from_target_dep("foo", &spec);
    node2.patches = vec!["/tmp/fix2.patch".to_string()];

    let files1 = patch_files(b"content A");
    let files2 = patch_files(b"content B");
    let src_id1 = HashCalculator::calculate_source_id(&node1, &files1);
    let src_id2 = HashCalculator::calculate_source_id(&node2, &files2);
    assert_ne!(src_id1, src_id2);

    let target: TargetTriple = "x86_64-pc-windows-msvc".parse().unwrap();
    let host: TargetTriple = "x86_64-pc-windows-msvc".parse().unwrap();

    let build_id1 = HashCalculator::calculate_build_id(&node1, &files1, &target, &host, &[]);
    let build_id2 = HashCalculator::calculate_build_id(&node2, &files2, &target, &host, &[]);
    assert_ne!(build_id1, build_id2);

    let src_id1_modified =
        HashCalculator::calculate_source_id(&node1, &patch_files(b"content Modified"));
    assert_ne!(src_id1, src_id1_modified);
}

fn node(spec: DependencyDetails) -> DependencyNode {
    DependencyNode::from_target_dep("foo", &DependencySpec::Detailed(spec))
}

fn source_id(n: &DependencyNode) -> String {
    HashCalculator::calculate_source_id(n, &SourceFiles::none())
}

#[test]
fn test_git_url_affects_source_id() {
    let a = node(DependencyDetails {
        git: Some("https://a/x.git".into()),
        tag: Some("v1".into()),
        ..Default::default()
    });
    let b = node(DependencyDetails {
        git: Some("https://b/x.git".into()),
        tag: Some("v1".into()),
        ..Default::default()
    });
    assert_ne!(source_id(&a), source_id(&b));
}

#[test]
fn test_resolved_commit_affects_branch_source_id() {
    let mut a = node(DependencyDetails {
        git: Some("u".into()),
        branch: Some("main".into()),
        ..Default::default()
    });
    let mut b = a.clone();
    a.resolved_commit = Some("1111".into());
    b.resolved_commit = Some("2222".into());
    assert_ne!(source_id(&a), source_id(&b));
}

#[test]
fn test_path_contents_affect_source_id() {
    let n = node(DependencyDetails { path: Some("/src/x".into()), ..Default::default() });
    let files = |content: &[u8]| SourceFiles {
        tree: Some(vec![("a.c".to_string(), EntryKind::File(content.to_vec()))]),
        patches: Vec::new(),
    };
    let before = HashCalculator::calculate_source_id(&n, &files(b"int a;"));
    assert!(!unideps::hash::is_hashed(".git"));
    assert!(unideps::hash::is_hashed("a.c"));
    assert_eq!(before, HashCalculator::calculate_source_id(&n, &files(b"int a;")));
    assert_ne!(before, HashCalculator::calculate_source_id(&n, &files(b"int b;")));
}

#[test]
fn test_vc_runtime_only_hashed_for_msvc() {
    let mut md = node(DependencyDetails::default());
    let mut mdd = md.clone();
    md.config.vc_runtime = VCRuntime::MultiThreadedDLL;
    mdd.config.vc_runtime = VCRuntime::MultiThreadedDebugDLL;
    let linux: TargetTriple = "x86_64-unknown-linux-gnu".parse().unwrap();
    let win: TargetTriple = "x86_64-pc-windows-msvc".parse().unwrap();
    let id = |n: &DependencyNode, t: &TargetTriple| {
        HashCalculator::calculate_build_id(n, &SourceFiles::none(), t, t, &[])
    };
    assert_eq!(id(&md, &linux), id(&mdd, &linux));
    assert_ne!(id(&md, &win), id(&mdd, &win));
}

#[test]
fn test_toolchain_fingerprint_affects_build_id() {
    let mut a = node(DependencyDetails::default());
    let mut b = a.clone();
    a.toolchain_fingerprint = Some("gcc-11".into());
    b.toolchain_fingerprint = Some("gcc-13".into());
    let t: TargetTriple = "x86_64-unknown-linux-gnu".parse().unwrap();
    assert_ne!(
        HashCalculator::calculate_build_id(&a, &SourceFiles::none(), &t, &t, &[]),
        HashCalculator::calculate_build_id(&b, &SourceFiles::none(), &t, &t, &[])
    );
}

fn short(data: &[u8]) -> String {
    blake3::hash(data).to_hex().as_str()[..16].to_string()
}

#[test]
fn identities_are_the_first_digits_of_digests() {
    assert_eq!(HashCalculator::short_hash(""), "af1349b9f5f9a1a6");
    assert_eq!(HashCalculator::short_hash("unideps"), short(b"unideps"));
    assert_eq!(HashCalculator::short_hash_bytes(&[0, 255]), short(&[0, 255]));
}

#[test]
fn source_identity_is_computed_from_all_its_parts() {
    let mut n = node(DependencyDetails {
        version: Some("1.2".into()),
        git: Some("u".into()),
        branch: Some("main".into()),
        path: Some("/p".into()),
        ..Default::default()
    });
    n.resolved_commit = Some("abc".to_string());
    n.patches = vec!["/x/one.patch".to_string(), "two.patch".to_string()];
    let files = SourceFiles { tree: None, patches: vec![Some(b"P".to_vec()), None] };
    let expected =
        "foo:v:1.2:git:u:branch:main:resolved:abc:path:/p:patch:one.patch:content:P:patch:two.patch";
    assert_eq!(source_preimage(&n, &files), expected.as_bytes());
    assert_eq!(HashCalculator::calculate_source_id(&n, &files), short(expected.as_bytes()));
}

#[test]
fn trees_are_hashed_in_the_order_of_their_paths() {
    let file = |p: &str, c: &str| (p.to_string(), EntryKind::File(c.as_bytes().to_vec()));
    let link = ("z".to_string(), EntryKind::Link(Some("a/b".to_string())));
    let entries = vec![file("a.c", "1"), link, file("a/b", "2")];
    let expected = b":file:a/b\x002:file:a.c\x001:link:z\x00a/b".to_vec();
    assert_eq!(HashCalculator::hash_dir_contents(&entries), short(&expected));
    let link = ("z".to_string(), EntryKind::Link(Some("a/b".to_string())));
    let shuffled = vec![file("a/b", "2"), file("a.c", "1"), link];
    assert_eq!(
        HashCalculator::hash_dir_contents(&entries),
        HashCalculator::hash_dir_contents(&shuffled)
    );
}

#[test]
fn build_identity_is_computed_from_all_its_parts() {
    let mut n = node(DependencyDetails {
        cmake_options: table(&[("X", "1")]),
        ..Default::default()
    });
    n.compiler = Some(CompilerType::Custom("tcc".to_string()));
    n.toolchain_fingerprint = Some("f".to_string());
    n.config.cxx_std = "20".to_string();
    n.config.flags = vec!["-O3".to_string()];
    n.config.cmake_options = table(&[("Y", "2")]);
    let t: TargetTriple = "x86_64-pc-windows-msvc".parse().unwrap();
    let expected = ":build_defaults:v2:source_id:sid:target:x86_64-pc-windows-msvc:compiler:tcc\
                    :toolchain:f:vc_runtime:MultiThreadedDLL:cxx_std:20:cxx_stdlib:PlatformDefault\
                    :build_type:Release:shared:false:header_only:false:lto:false:flag:-O3\
                    :cmake_opt:Y=2:node_opt:X=1:dep_id:aa:dep_id:bb";
    assert_eq!(build_preimage(&n, "sid", &t, &t, &["aa", "bb"]), expected);
    n.source_id = Some("sid".to_string());
    assert_eq!(
        HashCalculator::calculate_build_id(&n, &SourceFiles::none(), &t, &t, &["aa", "bb"]),
        short(expected.as_bytes())
    );
    n.abi_ignores = vec!["compiler".to_string(), "vc_runtime".to_string()];
    assert!(!build_preimage(&n, "sid", &t, &t, &[]).contains("tcc"));
    assert!(!build_preimage(&n, "sid", &t, &t, &[]).contains("vc_runtime"));
}

#[test]
fn every_setting_separates_builds() {
    let t: TargetTriple = "x86_64-unknown-linux-gnu".parse().unwrap();
    let other: TargetTriple = "aarch64-unknown-linux-gnu".parse().unwrap();
    let base = node(DependencyDetails { version: Some("1".into()), ..Default::default() });
    let id = |n: &DependencyNode, t: &TargetTriple| {
        HashCalculator::calculate_build_id(n, &SourceFiles::none(), t, t, &[])
    };
    let mut ids = vec![id(&base, &t), id(&base, &other)];
    let mut change = |f: &dyn Fn(&mut DependencyNode)| {
        let mut n = base.clone();
        f(&mut n);
        ids.push(id(&n, &t));
    };
    change(&|n| n.name = "bar".to_string());
    change(&|n| n.version = Some("2".to_string()));
    change(&|n| n.commit = Some("1234567".to_string()));
    change(&|n| n.tag = Some("1234567".to_string()));
    change(&|n| n.branch = Some("1234567".to_string()));
    change(&|n| n.config.cxx_std = "17".to_string());
    change(&|n| n.config.cxx_stdlib = CxxStdlib::Libcxx);
    change(&|n| n.config.lto = true);
    change(&|n| n.config.build_type = BuildType::Debug);
    change(&|n| n.shared = Some(true));
    change(&|n| n.header_only = true);
    change(&|n| n.config.flags = vec!["-g".to_string()]);
    change(&|n| n.cmake_options = table(&[("A", "1")]));
    change(&|n| n.config.cmake_options = table(&[("A", "1")]));
    let mut distinct = ids.clone();
    distinct.sort();
    distinct.dedup();
    assert_eq!(distinct.len(), ids.len());
}

#[test]
fn tools_are_built_for_the_host() {
    let host: TargetTriple = "x86_64-unknown-linux-gnu".parse().unwrap();
    let a: TargetTriple = "aarch64-linux-android".parse().unwrap();
    let b: TargetTriple = "x86_64-pc-windows-msvc".parse().unwrap();
    let tool = DependencyNode::from_host_tool("nasm", &ToolRequirement::Version("2".into()));
    let id = |t: &TargetTriple| {
        HashCalculator::calculate_build_id(&tool, &SourceFiles::none(), t, &host, &[])
    };
    assert_eq!(id(&a), id(&b));
}

// Manifests

#[test]
fn test_manifest_string_libraries_and_auto_import() {
    let mut manifest = Manifest::default();
    manifest.dependencies.insert(
        "libyuv".to_string(),
        DependencySpec::Detailed(DependencyDetails {
            git: Some("https://chromium.googlesource.com/libyuv/libyuv".into()),
            commit: Some("2dd4257364d39c38d79465c4ddc4b93137fe729b".into()),
            strategy: Some("cmake-install".into()),
            auto_import: Some(true),
            libraries: vec!["lib/yuv".into()],
            enabled_if: Some("OPENMEDIA_EXAMPLES".into()),
            ..Default::default()
        }),
    );
    let dep = manifest.dependencies.get("libyuv").unwrap();
    let details = dep.to_details();

    assert_eq!(details.auto_import, Some(true));
    assert_eq!(details.libraries, vec!["lib/yuv"]);
    assert_eq!(details.strategy.as_deref(), Some("cmake-install"));
    assert_eq!(details.enabled_if.as_deref(), Some("OPENMEDIA_EXAMPLES"));
}

#[test]
fn test_manifest_empty_table_dep() {
    let mut manifest = Manifest::default();
    manifest
        .dependencies
        .insert("empty".to_string(), DependencySpec::Detailed(DependencyDetails::default()));
    let details = manifest.dependencies.get("empty").unwrap().to_details();
    assert_eq!(details.auto_import, None);
}

#[test]
fn test_preset_lto_and_stdlib() {
    let mut manifest = Manifest::default();
    manifest.presets.insert(
        "rel".to_string(),
        Preset {
            build_type: Some(BuildType::Release),
            cxx_stdlib: Some(CxxStdlib::Libcxx),
            lto: Some(LtoSetting::Mode("thin".into())),
            ..Default::default()
        },
    );
    manifest.presets.insert(
        "dbg".to_string(),
        Preset { lto: Some(LtoSetting::Bool(false)), ..Default::default() },
    );
    let rel = manifest.presets.get("rel").unwrap();
    assert_eq!(rel.cxx_stdlib, Some(CxxStdlib::Libcxx));
    assert!(rel.lto.as_ref().unwrap().enabled().unwrap());
    assert!(!manifest.presets.get("dbg").unwrap().lto.as_ref().unwrap().enabled().unwrap());
}

#[test]
fn unknown_lto_mode_is_an_error() {
    let e = LtoSetting::Mode("FASTER".into()).enabled().unwrap_err();
    assert_eq!(e.message(), "Manifest error: Unknown lto mode: faster");
    assert!(LtoSetting::Mode("Full".into()).enabled().unwrap());
    assert!(!LtoSetting::Mode("OFF".into()).enabled().unwrap());
}

#[test]
fn bare_versions_are_details() {
    assert_eq!(version("10.2").to_details().version.as_deref(), Some("10.2"));
    let tool = ToolRequirement::Detailed(ToolDetails {
        git: Some("u".into()),
        ..Default::default()
    });
    assert_eq!(tool.to_details().git.as_deref(), Some("u"));
    assert_eq!(ToolRequirement::Version("3".into()).to_details().version.as_deref(), Some("3"));
    assert_eq!(default_branch(), "main");
    let e = error_in_file("unideps.toml", "bad");
    assert!(matches!(&e, CoreError::Manifest(m) if m == "unideps.toml: bad"));
}

#[test]
fn nodes_take_their_defaults() {
    let spec = DependencySpec::Detailed(DependencyDetails {
        dependencies: vec![
            SubDependency::Simple("zlib".into()),
            SubDependency::Detailed {
                name: "png".into(),
                version: None,
                options: Table::new(),
            },
        ],
        ..Default::default()
    });
    let n = DependencyNode::from_target_dep("x", &spec);
    assert_eq!(n.kind, NodeKind::TargetDependency);
    assert_eq!(n.dependencies, vec!["zlib", "png"]);
    assert_eq!(n.strategy, "cmake-install");
    assert!(n.shallow && !n.header_only && !n.auto_import);
    let t = DependencyNode::from_host_tool("t", &ToolRequirement::Version("1".into()));
    assert_eq!(t.abi_ignores, vec!["vc_runtime"]);
    assert_eq!(t.shared, Some(false));
}

#[test]
fn overrides_merge_options_and_add_ignores() {
    let mut n = node(DependencyDetails {
        cmake_options: table(&[("A", "1"), ("B", "1")]),
        abi_ignores: vec!["compiler".into()],
        libraries: vec!["keep".into()],
        ..Default::default()
    });
    n.apply_override(&DependencyDetails {
        cmake_options: table(&[("B", "2")]),
        abi_ignores: vec!["compiler".into()],
        shared: Some(true),
        ..Default::default()
    });
    assert_eq!(n.cmake_options.text("A").unwrap(), "1");
    assert_eq!(n.cmake_options.text("B").unwrap(), "2");
    assert_eq!(n.abi_ignores, vec!["compiler", "compiler"]);
    assert_eq!(n.libraries, vec!["keep"]);
    assert_eq!(n.shared, Some(true));
}

// Strategies

fn rule(package: Option<&str>, scope: StrategyScope, shared: bool) -> StrategyRule {
    StrategyRule {
        package: package.map(Into::into),
        scope,
        shared: Some(shared),
        ..Default::default()
    }
}

#[test]
fn cascade_applies_to_transitive_dependencies() {
    let engine = StrategyEngine::new(&[rule(Some("app_lib"), StrategyScope::Cascade, true)]);
    let base = EffectiveConfig::default();

    assert!(engine.resolve_for_node("zlib", &["png", "app_lib"], &base).shared);
    assert!(engine.resolve_for_node("app_lib", &[], &base).shared);
    assert!(!engine.resolve_for_node("zlib", &["other"], &base).shared);
}

#[test]
fn exact_beats_cascade_beats_global() {
    let engine = StrategyEngine::new(&[
        rule(None, StrategyScope::Global, true),
        rule(Some("parent"), StrategyScope::Cascade, false),
        rule(Some("child"), StrategyScope::Exact, true),
    ]);
    let base = EffectiveConfig::default();
    assert!(engine.resolve_for_node("unrelated", &[], &base).shared);
    assert!(!engine.resolve_for_node("other_child", &["parent"], &base).shared);
    assert!(engine.resolve_for_node("child", &["parent"], &base).shared);
}

#[test]
fn validate_rejects_packageless_scoped_rules() {
    assert!(StrategyEngine::validate(&[rule(None, StrategyScope::Exact, true)]).is_err());
    assert!(StrategyEngine::validate(&[rule(None, StrategyScope::Global, true)]).is_ok());
}

#[test]
fn rules_add_flags_once_and_merge_options() {
    let first = StrategyRule {
        scope: StrategyScope::Global,
        flags: vec!["-g".into(), "-O1".into()],
        cmake_options: table(&[("A", "1"), ("B", "1")]),
        lto: Some(true),
        ..Default::default()
    };
    let second = StrategyRule {
        package: Some("x".into()),
        scope: StrategyScope::Exact,
        flags: vec!["-O1".into(), "-s".into()],
        cmake_options: table(&[("B", "2")]),
        ..Default::default()
    };
    let engine = StrategyEngine::new(&[second, first]);
    let c = engine.resolve_for_node("x", &[], &EffectiveConfig::default());
    assert_eq!(c.flags, vec!["-g", "-O1", "-s"]);
    assert_eq!(c.cmake_options.text("A").unwrap(), "1");
    assert_eq!(c.cmake_options.text("B").unwrap(), "2");
    assert!(c.lto);
}

// Targets

fn t(s: &str) -> TargetTriple {
    s.parse().unwrap()
}

#[test]
fn parses_common_triples() {
    let w = t("x86_64-pc-windows-msvc");
    assert_eq!((w.arch, w.os, w.env), (Arch::X86_64, Os::Windows, Environment::Msvc));

    let l = t("aarch64-unknown-linux-gnu");
    assert_eq!((l.arch, l.os, l.env), (Arch::Arm64, Os::Linux, Environment::Gnu));

    let a = t("aarch64-linux-android");
    assert_eq!((a.os, a.env), (Os::Android, Environment::AndroidEabi));

    let a7 = t("armv7a-linux-androideabi");
    assert_eq!((a7.arch, a7.os), (Arch::Arm, Os::Android));

    let m = t("aarch64-apple-darwin");
    assert_eq!((m.os, m.vendor.as_str()), (Os::Macos, "apple"));

    let e = t("wasm32-unknown-emscripten");
    assert_eq!(e.os, Os::Emscripten);
}

#[test]
fn parses_mingw_triples_as_windows_gnu() {
    for s in ["x86_64-w64-mingw32", "i686-w64-mingw32", "x86_64-pc-windows-gnu"] {
        let tr = t(s);
        assert_eq!(tr.os, Os::Windows, "{s}");
        assert_eq!(tr.env, Environment::Gnu, "{s}");
    }
}

#[test]
fn rejects_unknown_os() {
    assert!("x86_64-pc-widnows-msvc".parse::<TargetTriple>().is_err());
    assert!("x86_64".parse::<TargetTriple>().is_err());
    assert!("sparc-unknown-linux-gnu".parse::<TargetTriple>().is_err());
}

#[test]
fn platform_filters() {
    let w = t("x86_64-pc-windows-msvc");
    assert!(w.matches_all_filters(&["windows".into()]));
    assert!(!w.matches_all_filters(&["linux".into(), "android".into()]));
    assert!(!w.matches_all_filters(&["!windows".into()]));
    assert!(w.matches_all_filters(&["msvc".into()]));
    assert!(w.matches_all_filters(&[]));
}

#[test]
fn a_filter_and_its_negation_never_agree() {
    let w = t("x86_64-pc-windows-msvc");
    for f in ["windows", "LINUX", "x86_64", "msvc", "musl", "x86_64-pc-windows-msvc", "nothing"] {
        assert_ne!(w.matches_platform_filter(f), w.matches_platform_filter(&format!("!{f}")), "{f}");
    }
}

#[test]
fn names_of_settings_parse_back() {
    for b in [BuildType::Debug, BuildType::Release, BuildType::RelWithDebInfo, BuildType::MinSizeRel] {
        assert_eq!(b.as_str().parse::<BuildType>().unwrap(), b);
    }
    for r in [
        VCRuntime::MultiThreaded,
        VCRuntime::MultiThreadedDebug,
        VCRuntime::MultiThreadedDLL,
        VCRuntime::MultiThreadedDebugDLL,
    ] {
        assert_eq!(r.as_cmake_value().parse::<VCRuntime>().unwrap(), r);
    }
    assert!(VCRuntime::MultiThreaded.is_static() && !VCRuntime::MultiThreaded.is_debug());
    assert!(VCRuntime::MultiThreadedDebugDLL.is_debug() && !VCRuntime::MultiThreadedDLL.is_static());
    for a in [Arch::X86, Arch::X86_64, Arch::Arm, Arch::Arm64, Arch::Wasm32, Arch::Riscv64] {
        assert_eq!(a.as_str().parse::<Arch>().unwrap(), a);
    }
    for o in [Os::Windows, Os::Linux, Os::Macos, Os::Ios, Os::Android, Os::Emscripten] {
        assert_eq!(o.as_str().parse::<Os>().unwrap(), o);
    }
}

#[test]
fn hosts_are_described_by_triples() {
    assert_eq!(TargetTriple::host("linux", "x86_64").os, Os::Linux);
    assert_eq!(TargetTriple::host("macos", "aarch64").arch, Arch::Arm64);
    assert_eq!(TargetTriple::host("windows", "x86_64").env, Environment::Msvc);
}

#[test]
fn unknown_settings_are_errors() {
    assert_eq!(
        "Fast".parse::<BuildType>().unwrap_err().message(),
        "Manifest error: Unknown build type: Fast"
    );
    assert!("md".parse::<VCRuntime>().is_err());
    assert!("sparc".parse::<Arch>().is_err());
    assert!("beos".parse::<Os>().is_err());
}

// Compilers

#[test]
fn test_compiler_type_from_str() {
    assert_eq!("clang".parse::<CompilerType>().unwrap(), CompilerType::Clang);
    assert_eq!("Clang".parse::<CompilerType>().unwrap(), CompilerType::Clang);
    assert_eq!("msvc".parse::<CompilerType>().unwrap(), CompilerType::Msvc);
    assert_eq!("MSVC".parse::<CompilerType>().unwrap(), CompilerType::Msvc);
    assert_eq!("gcc".parse::<CompilerType>().unwrap(), CompilerType::Gcc);
    assert_eq!("GNU".parse::<CompilerType>().unwrap(), CompilerType::Gcc);
}

#[test]
fn test_compiler_type_detect_from_path() {
    assert_eq!(
        CompilerType::detect_from_path("C:/Program Files/LLVM/bin/clang.exe"),
        CompilerType::Clang
    );
    assert_eq!(CompilerType::detect_from_path("clang++"), CompilerType::Clang);
    assert_eq!(CompilerType::detect_from_path("C:/VC/bin/cl.exe"), CompilerType::Msvc);
    assert_eq!(
        CompilerType::detect_from_path("/usr/bin/x86_64-linux-gnu-gcc-11"),
        CompilerType::Gcc
    );
}

#[test]
fn custom_compilers_keep_their_name_in_small_letters() {
    assert_eq!(
        "  \u{c9}TCC ".parse::<CompilerType>().unwrap(),
        CompilerType::Custom("\u{e9}tcc".to_string())
    );
    assert_eq!(CompilerType::Custom("x".into()).as_str(), "x");
}

#[test]
fn no_package_without_rules_is_kept() {
    let engine = StrategyEngine::new(&[
        rule(None, StrategyScope::Cascade, true),
        rule(Some("a"), StrategyScope::Exact, true),
        rule(Some("a"), StrategyScope::Exact, false),
        rule(None, StrategyScope::Global, true),
    ]);
    assert!(engine.cascade_rules.entries.is_empty());
    assert_eq!(engine.exact_rules.entries.len(), 1);
    assert_eq!(engine.exact_rules.entries[0].1.len(), 2);
    assert_eq!(engine.global_rules.len(), 1);
}
