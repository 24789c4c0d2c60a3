use std::collections::BTreeMap;
use unideps::checkout::{
    CheckoutAction, CheckoutEvent, CheckoutJob, CheckoutState, GitSource,
};
use unideps::cmake::{parse_cxx_std, CMakeBuild, CMakeRunner, RunAction, RunOutcome};
use unideps::git::GitRef;
use unideps::manifest::{DependencyDetails, DependencySpec};
use unideps::node::DependencyNode;
use unideps::packager::Packager;
use unideps::pdb::{is_binary, is_pdb};
use unideps::patch::{PatchApplier, PatchStep, ToolOutcome};
use unideps::resolution::{is_recordable, PrefixCheck, Resolution};
use unideps::source::{
    confirm_head, fetch_failure, read_failure, sanitize, BaseSource, PrepareAction, PrepareEvent,
    PrepareState, Sources,
};
use unideps::storage::StorageManager;
use unideps::table::Table;
use unideps::target::CxxStdlib;

fn detailed(d: DependencyDetails) -> DependencyNode {
    DependencyNode::from_target_dep("x", &DependencySpec::Detailed(d))
}

// CMake

#[test]
fn test_extract_embedded_pdbs() {
    let data = b"some prefix data C:\\dev\\build\\mylib.pdb\0 middle data another.PDB\0 suffix";
    let pdbs = CMakeRunner::extract_embedded_pdbs(data);
    assert_eq!(pdbs.len(), 2);
    assert_eq!(pdbs[0], "C:\\dev\\build\\mylib.pdb");
    assert_eq!(pdbs[1], "another.PDB");
}

/// Copies debug databases in a file system that is a map, as a driver does in a real one.
fn install_pdbs(files: &mut BTreeMap<String, Vec<u8>>, bld: &str, pfx: &str) {
    let under = |dir: &str, p: &String| p.starts_with(&format!("{dir}/"));
    let built: Vec<String> = files.keys().filter(|p| under(bld, p) && is_pdb(p)).cloned().collect();
    let binaries: Vec<String> =
        files.keys().filter(|p| under(pfx, p) && is_binary(p)).cloned().collect();
    for binary in binaries {
        let names = CMakeRunner::extract_embedded_pdbs(&files[&binary]);
        let exist: Vec<bool> = names.iter().map(|n| files.contains_key(n)).collect();
        let copies = CMakeRunner::auto_install_pdbs(&binary, pfx, &names, &exist, &built);
        let mut tried = 0;
        loop {
            let present: Vec<bool> = copies.iter().map(|(_, to)| files.contains_key(to)).collect();
            let Some(next) = CMakeRunner::next_pdb_copy(tried, &present) else {
                break;
            };
            let (from, to) = &copies[next];
            let content = files[from].clone();
            files.insert(to.clone(), content);
            tried = next + 1;
        }
    }
}

#[test]
fn test_auto_install_pdbs() {
    let (bld, pfx) = ("/t/build", "/t/install");
    let pdb_path = format!("{bld}/CMakeFiles/mylib.dir/mylib.pdb");
    let mut lib_content = b"dummy lib header\0".to_vec();
    lib_content.extend_from_slice(pdb_path.as_bytes());
    lib_content.push(0);

    let mut files = BTreeMap::new();
    files.insert(pdb_path, b"test-pdb-content".to_vec());
    files.insert(format!("{bld}/unused.pdb"), b"unused-pdb-content".to_vec());
    files.insert(format!("{pfx}/lib/mylib.lib"), lib_content);

    install_pdbs(&mut files, bld, pfx);
    let installed_pdb = format!("{pfx}/lib/mylib.pdb");
    assert_eq!(files[&installed_pdb], b"test-pdb-content");
    assert!(!files.contains_key(&format!("{pfx}/lib/unused.pdb")));

    files.insert(installed_pdb.clone(), b"existing-content".to_vec());
    install_pdbs(&mut files, bld, pfx);
    assert_eq!(files[&installed_pdb], b"existing-content");
}

#[test]
fn the_next_database_is_one_whose_target_is_absent() {
    assert_eq!(CMakeRunner::next_pdb_copy(0, &[true, false, false]), Some(1));
    assert_eq!(CMakeRunner::next_pdb_copy(2, &[true, false, false]), Some(2));
    assert_eq!(CMakeRunner::next_pdb_copy(2, &[false, false, true]), None);
    assert_eq!(CMakeRunner::next_pdb_copy(3, &[]), None);
    let named = vec!["/x/z.pdb".to_string()];
    assert!(CMakeRunner::auto_install_pdbs("/i/bin/z.dll", "/i", &named, &[true], &[]).is_empty());
}

#[test]
fn a_build_stops_at_the_first_failure() {
    let defs = Table::new();
    let mut b = opts(&defs, &[]);
    b.collect_pdbs = true;
    let steps = CMakeRunner::build_and_install(&b, "s", "b", "p", &[], &[], &[]).unwrap();
    let next = |probe: bool, done: usize, last: RunOutcome, collected: bool| {
        match CMakeRunner::next_run(&b, probe, &steps, done, &last, collected) {
            RunAction::Run(i) => format!("run {i}"),
            RunAction::CollectPdbs => "collect".to_string(),
            RunAction::Done => "done".to_string(),
            RunAction::Fail(m) => m,
        }
    };
    assert_eq!(next(false, 0, RunOutcome::Worked, false), "run 0");
    assert_eq!(next(false, 2, RunOutcome::Worked, false), "run 2");
    assert_eq!(next(false, 3, RunOutcome::Worked, false), "collect");
    assert_eq!(next(false, 3, RunOutcome::Worked, true), "done");
    assert_eq!(next(true, 0, RunOutcome::Worked, false), "run 0");
    assert_eq!(next(true, 1, RunOutcome::Worked, false), "done");
    assert_eq!(
        next(false, 1, RunOutcome::Failed(Some("x\ny\n".to_string())), false),
        "CMake build step failed. Full log: b/build.log\nx\ny"
    );
    assert_eq!(
        next(false, 0, RunOutcome::NotStarted, false),
        "Failed to execute cmake configure (is cmake on PATH?)"
    );
    b.collect_pdbs = false;
    let last = CMakeRunner::next_run(&b, false, &steps, 3, &RunOutcome::Worked, false);
    assert!(matches!(last, RunAction::Done));
}

#[test]
fn databases_of_the_compiler_keep_their_names() {
    let built = vec!["/b/vc143.pdb".to_string(), "/b/z.pdb".to_string()];
    let names = vec!["c:\\x\\vc143.pdb".to_string(), "/b/vc143.pdb".to_string()];
    let copies =
        CMakeRunner::auto_install_pdbs("/i/bin/libzd.dll", "/i", &names, &[false, true], &built);
    assert_eq!(copies, vec![("/b/vc143.pdb".to_string(), "/i/bin/vc143.pdb".to_string())]);
    let copies = CMakeRunner::auto_install_pdbs("/i/bin/zd.dll", "/i", &[], &[], &built);
    assert_eq!(
        copies,
        vec![
            ("/b/z.pdb".to_string(), "/i/bin/z.pdb".to_string()),
            ("/b/z.pdb".to_string(), "/i/bin/zd.pdb".to_string()),
        ]
    );
}

fn opts<'a>(defs: &'a Table<String>, flags: &'a [String]) -> CMakeBuild<'a> {
    CMakeBuild {
        source_dir: "src",
        build_dir: "bld",
        install_prefix: "pfx",
        build_type: "Release",
        shared: false,
        msvc_runtime: None,
        c_compiler: None,
        cxx_compiler: None,
        toolchain_file: None,
        definitions: defs,
        prefix_paths: &[],
        host_tools_bins: &[],
        log_dir: None,
        flags,
        cxx_std: "",
        cxx_stdlib: CxxStdlib::PlatformDefault,
        lto: false,
        jobs: None,
        collect_pdbs: false,
        isolate_env: false,
    }
}

fn args_of(b: &CMakeBuild) -> Vec<String> {
    CMakeRunner::configure_args(b, "s", "b", "p").unwrap()
}

#[test]
fn test_flags_std_stdlib_and_lto_reach_cmake() {
    let mut defs = Table::new();
    defs.set_text("CMAKE_CXX_FLAGS".to_string(), "-DUSER".to_string());
    let flags = vec!["-O2".to_string()];
    let mut b = opts(&defs, &flags);
    b.cxx_std = "gnu++17";
    b.cxx_stdlib = CxxStdlib::Libcxx;
    b.lto = true;
    let args = args_of(&b);
    assert!(args.contains(&"-DCMAKE_CXX_STANDARD=17".to_string()));
    assert!(args.contains(&"-DCMAKE_CXX_EXTENSIONS=ON".to_string()));
    assert!(args.contains(&"-DCMAKE_INTERPROCEDURAL_OPTIMIZATION=ON".to_string()));
    assert!(args.contains(&"-DCMAKE_C_FLAGS=-O2".to_string()));
    assert!(args.contains(&"-DCMAKE_CXX_FLAGS=-DUSER -O2 -stdlib=libc++".to_string()));
    assert_eq!(args.iter().filter(|a| a.starts_with("-DCMAKE_CXX_FLAGS=")).count(), 1);
}

#[test]
fn test_defaults_do_not_force_standard() {
    let defs = Table::new();
    let args = args_of(&opts(&defs, &[]));
    assert!(!args.iter().any(|a| a.contains("CMAKE_CXX_STANDARD")));
    assert!(!args.iter().any(|a| a.contains("CMAKE_CXX_FLAGS")));
}

#[test]
fn test_parse_cxx_std() {
    assert_eq!(parse_cxx_std("20").unwrap(), Some(("20".into(), false)));
    assert_eq!(parse_cxx_std("c++2a").unwrap(), Some(("20".into(), false)));
    assert_eq!(parse_cxx_std("").unwrap(), None);
    assert!(parse_cxx_std("latest").is_err());
}

#[test]
fn builds_run_in_three_steps() {
    let defs = Table::new();
    let mut b = opts(&defs, &[]);
    b.jobs = Some(4);
    let none: Vec<String> = Vec::new();
    let steps = CMakeRunner::build_and_install(&b, "/s", "/b", "/p", &none, &none, &none).unwrap();
    let names: Vec<&str> = steps.iter().map(|s| s.name.as_str()).collect();
    assert_eq!(names, ["configure", "build", "install"]);
    assert!(steps[1].args.contains(&"4".to_string()));
    assert!(steps[2].args.contains(&"--install".to_string()));
    b.cxx_std = "latest";
    assert!(CMakeRunner::build_and_install(&b, "/s", "/b", "/p", &none, &none, &none).is_err());
}

#[test]
fn definitions_of_the_user_win() {
    let mut defs = Table::new();
    defs.set_text("CMAKE_CXX_STANDARD".to_string(), "11".to_string());
    let mut b = opts(&defs, &[]);
    b.cxx_std = "20";
    let args = args_of(&b);
    let given: Vec<&String> =
        args.iter().filter(|a| a.starts_with("-DCMAKE_CXX_STANDARD=")).collect();
    assert_eq!(given.last().unwrap().as_str(), "-DCMAKE_CXX_STANDARD=11");
}

// Records

fn node(name: &str, prefix: &str) -> DependencyNode {
    let mut n =
        DependencyNode::from_target_dep(name, &DependencySpec::Detailed(DependencyDetails::default()));
    n.build_id = Some("b".repeat(16));
    n.install_prefix = Some(prefix.to_string());
    n
}

fn load(
    storage: &StorageManager,
    record: Resolution,
    name: &str,
    installed: &[&str],
    existing: &[&str],
) -> Option<Resolution> {
    let checks = record.prefix_checks(storage);
    let answers: Vec<bool> = checks
        .iter()
        .map(|c| match c {
            PrefixCheck::Installed(p) => installed.contains(&p.as_str()),
            PrefixCheck::Exists(p) => existing.contains(&p.as_str()),
            PrefixCheck::Never => true,
        })
        .collect();
    let intact = Resolution::prefixes_are_intact(&checks, &answers);
    Resolution::load(record, name, intact)
}

#[test]
fn only_a_pinned_source_may_be_recorded() {
    let git = Some("https://example.invalid/x.git".to_string());
    let pinned_tag = detailed(DependencyDetails {
        git: git.clone(),
        tag: Some("v1".into()),
        ..Default::default()
    });
    let pinned_commit = detailed(DependencyDetails {
        git: git.clone(),
        commit: Some("a".repeat(40)),
        ..Default::default()
    });
    let branch = detailed(DependencyDetails {
        git: git.clone(),
        branch: Some("main".into()),
        ..Default::default()
    });
    let default_head = detailed(DependencyDetails { git: git.clone(), ..Default::default() });
    let local = detailed(DependencyDetails { path: Some("../x".into()), ..Default::default() });

    assert!(is_recordable(&pinned_tag));
    assert!(is_recordable(&pinned_commit));
    assert!(!is_recordable(&branch));
    assert!(!is_recordable(&default_head));
    assert!(!is_recordable(&local));
}

#[test]
fn round_trips_the_nested_packages() {
    let storage = StorageManager::new("/store".to_string());
    let inner = "/store/installed/inner-bbbb";
    let record = Resolution::new("outer", "aaaa", vec![node("inner", inner)]);
    let loaded =
        load(&storage, record, "outer", &["/store/installed/outer-aaaa", inner], &[]).unwrap();
    assert_eq!(loaded.build_id, "aaaa");
    assert_eq!(loaded.nested.len(), 1);
    assert_eq!(loaded.nested[0].name, "inner");
    assert_eq!(loaded.nested[0].install_prefix.as_deref(), Some(inner));
}

#[test]
fn is_ignored_when_a_prefix_is_gone() {
    let storage = StorageManager::new("/store".to_string());
    let inner = "/store/installed/inner-bbbb";
    let record = || Resolution::new("outer", "aaaa", vec![node("inner", inner)]);
    let own = "/store/installed/outer-aaaa";
    assert!(load(&storage, record(), "outer", &[own, inner], &[]).is_some());
    assert!(load(&storage, record(), "outer", &[own], &[]).is_none());
}

#[test]
fn is_ignored_when_the_package_itself_is_incomplete() {
    let storage = StorageManager::new("/store".to_string());
    let record = || Resolution::new("outer", "aaaa", Vec::new());
    assert!(load(&storage, record(), "outer", &["/store/installed/outer-aaaa"], &[]).is_some());
    assert!(load(&storage, record(), "outer", &[], &[]).is_none());
}

#[test]
fn a_prefix_outside_the_storage_only_has_to_exist() {
    let storage = StorageManager::new("/t/store".to_string());
    let own = "/t/store/installed/outer-aaaa";
    let record = || Resolution::new("outer", "aaaa", vec![node("tool", "/t/local-tool")]);
    assert!(load(&storage, record(), "outer", &[own], &["/t/local-tool"]).is_some());
    assert!(load(&storage, record(), "outer", &[own], &[]).is_none());
}

#[test]
fn a_rewrite_replaces_the_previous_record() {
    let storage = StorageManager::new("/store".to_string());
    let mut files = BTreeMap::new();
    for id in ["aaaa", "cccc"] {
        let path = Resolution::path(&storage, "outer", "plain");
        files.insert(path, Resolution::new("outer", id, Vec::new()));
    }
    assert_eq!(files.len(), 1);
    let record = files.remove("/store/resolved/outer-plain.json").unwrap();
    let installed = ["/store/installed/outer-aaaa", "/store/installed/outer-cccc"];
    assert_eq!(load(&storage, record, "outer", &installed, &[]).unwrap().build_id, "cccc");
}

#[test]
fn foreign_records_are_not_used() {
    let record = Resolution::new("outer", "aaaa", Vec::new());
    assert_eq!(
        record.temp_path(&StorageManager::new("/s".to_string()), "p", 12),
        "/s/resolved/.outer-p.12.tmp"
    );
    assert_eq!(
        record.store_failure("full"),
        "Failed to record the resolution of 'outer': full"
    );
    assert!(Resolution::load(record, "other", true).is_none());
    let mut old = Resolution::new("outer", "aaaa", Vec::new());
    old.version = 1;
    assert!(Resolution::load(old, "outer", true).is_none());
    let mut unplaced = node("n", "/p");
    unplaced.install_prefix = None;
    let record = Resolution::new("outer", "aaaa", vec![unplaced]);
    let storage = StorageManager::new("/store".to_string());
    assert!(load(&storage, record, "outer", &["/store/installed/outer-aaaa"], &[]).is_none());
}

// Storage

#[test]
fn storage_has_its_directories() {
    let s = StorageManager::new("/b".to_string());
    assert_eq!(
        s.ensure_dirs(),
        [
            "/b/cache",
            "/b/installed",
            "/b/sources",
            "/b/scratch",
            "/b/logs",
            "/b/locks",
            "/b/resolved"
        ]
    );
    assert_eq!(s.package_lock_path("z-1"), "/b/locks/z-1.lock");
    assert_eq!(s.source_lock_path("z"), "/b/locks/src-z.lock");
    assert_eq!(s.global_build_lock_path(), "/b/locks/build.lock");
    assert_eq!(StorageManager::marker_path("/b/installed/z"), "/b/installed/z/.unideps-complete");
    let s = s.with_scratch_dir(Some("/ram".to_string()));
    assert_eq!(s.scratch_dir(), "/ram");
    assert_eq!(s.base_dir(), "/b");
    assert_eq!(Packager::temp_sibling("/c/a.tar.zst", 7), "/c/.a.tar.zst.tmp-7");
    assert_eq!(Packager::create_failure("/c/a", "x"), "Failed to create archive /c/a: x");
    assert_eq!(Packager::move_failure("/c/a", "x"), "Failed to move archive into place: /c/a: x");
    assert_eq!(Packager::unpack_failure("/c/a", "x"), "Failed to unpack /c/a: x");
}

// Checkouts

/// Answers of a repository that has only the branch `main` and the tag `v1`.
fn answer(action: &CheckoutAction, refs: &[&str], dest: &mut bool) -> CheckoutEvent {
    let output = |success: bool, text: &str| CheckoutEvent::Output {
        success,
        stdout: text.to_string(),
        stderr: String::new(),
    };
    match action {
        CheckoutAction::AskDest => CheckoutEvent::Answer(*dest),
        CheckoutAction::AskGitDir => CheckoutEvent::Answer(*dest),
        CheckoutAction::AskShallowFile => CheckoutEvent::Answer(false),
        CheckoutAction::AskModulesFile => CheckoutEvent::Answer(false),
        CheckoutAction::ReadMarker => CheckoutEvent::Content(String::new()),
        CheckoutAction::RemoveDest | CheckoutAction::DropDest => {
            *dest = false;
            CheckoutEvent::Worked
        }
        CheckoutAction::CreateDest => {
            *dest = true;
            CheckoutEvent::Worked
        }
        CheckoutAction::RemoveModules | CheckoutAction::WriteMarker(_) => CheckoutEvent::Worked,
        CheckoutAction::Git(args) => match args[0].as_str() {
            "fetch" => output(args.iter().any(|a| refs.iter().any(|r| a.contains(r))), ""),
            "rev-parse" => {
                let known = args.iter().any(|a| refs.iter().any(|r| a.contains(r)))
                    || args.iter().any(|a| a.contains("HEAD"));
                output(known, "0123456789012345678901234567890123456789")
            }
            _ => output(true, ""),
        },
        CheckoutAction::Done(_) => CheckoutEvent::Worked,
    }
}

fn run_checkout(git_ref: GitRef, refs: &[&str]) -> (Result<String, String>, bool) {
    let job = CheckoutJob { url: "u", dest: "/d", git_ref, shallow: true };
    let mut dest = false;
    let mut state = CheckoutState::first();
    let mut event = CheckoutEvent::Begin;
    for _ in 0..100 {
        let (next, action) = GitSource::fetch_and_checkout(&job, state, &event);
        if let CheckoutAction::Done(r) = action {
            return (r, dest);
        }
        event = answer(&action, refs, &mut dest);
        state = next;
    }
    unreachable!()
}

#[test]
fn missing_ref_is_an_error_not_a_fallback() {
    let refs = ["main", "v1"];
    for r in [
        GitRef::Tag("v9.9.9"),
        GitRef::Branch("nope"),
        GitRef::Commit("deadbeefdeadbeef"),
        GitRef::Commit("xyz"),
    ] {
        let (result, dest) = run_checkout(r, &refs);
        assert!(result.is_err());
        assert!(!dest);
    }
}

#[test]
fn a_checkout_ends_at_the_commit_that_was_asked_for() {
    let (result, dest) = run_checkout(GitRef::Tag("v1"), &["v1"]);
    assert_eq!(result.unwrap(), "0123456789012345678901234567890123456789");
    assert!(dest);
    let (result, _) = run_checkout(GitRef::Branch("main"), &["main"]);
    assert!(result.is_ok());
}

#[test]
fn output_of_git_is_captured() {
    let args = GitSource::get_head_commit_args();
    assert_eq!(args, ["rev-parse", "HEAD"]);
    let ok = CheckoutEvent::Output {
        success: true,
        stdout: " abc\n".to_string(),
        stderr: String::new(),
    };
    assert_eq!(GitSource::capture(&args, &ok).unwrap(), "abc");
    let bad = CheckoutEvent::Output {
        success: false,
        stdout: String::new(),
        stderr: "fatal\n".to_string(),
    };
    assert_eq!(GitSource::capture(&args, &bad).unwrap_err(), "git rev-parse HEAD: fatal");
    assert_eq!(GitSource::get_head_commit(&ok).unwrap(), "abc");
    assert_eq!(GitSource::get_head_commit(&bad).unwrap_err(), "git rev-parse HEAD: fatal");
}

// Patches

#[test]
fn patches_are_tried_with_both_tools() {
    let failed = |e: &str| ToolOutcome::Failure { stdout: String::new(), stderr: e.to_string() };
    assert!(matches!(
        PatchApplier::apply_patch("/p", &ToolOutcome::Success, None),
        PatchStep::Applied
    ));
    assert!(matches!(PatchApplier::apply_patch("/p", &failed("no"), None), PatchStep::TryPatch));
    assert!(matches!(
        PatchApplier::apply_patch("/p", &failed("no"), Some(&ToolOutcome::Success)),
        PatchStep::Applied
    ));
    let not_run = ToolOutcome::NotRun("missing".to_string());
    match PatchApplier::apply_patch("/p", &failed("no "), Some(&not_run)) {
        PatchStep::Failed(m) => {
            assert_eq!(m, "Failed to apply patch /p:\n  git apply: no\n  patch: missing")
        }
        _ => panic!(),
    }
    assert!(!PatchApplier::copies_entry(1, ".git"));
    assert!(PatchApplier::copies_entry(2, ".git") && PatchApplier::copies_entry(1, ".github"));
    assert_eq!(PatchApplier::git_apply_args()[0], "apply");
    assert_eq!(PatchApplier::patch_args().last().unwrap(), "-i");
}

// Sources

#[test]
fn checkouts_are_named_by_revision_and_address() {
    let storage = StorageManager::new("/b".to_string());
    let s = Sources::new(&storage);
    let short = |u: &str| blake3::hash(u.as_bytes()).to_hex().as_str()[..8].to_string();
    let mut n = detailed(DependencyDetails { git: Some("u".into()), ..Default::default() });
    assert_eq!(s.checkout_dir(&n, "u"), format!("/b/sources/x-head-{}", short("u")));
    assert_ne!(s.checkout_dir(&n, "u"), s.checkout_dir(&n, "v"));
    n.branch = Some("feature/a b".to_string());
    assert_eq!(s.checkout_dir(&n, "u"), format!("/b/sources/x-branch-feature_a_b-{}", short("u")));
    n.tag = Some("v1.0-rc_1".to_string());
    assert_eq!(s.checkout_dir(&n, "u"), format!("/b/sources/x-v1.0-rc_1-{}", short("u")));
    n.commit = Some("0123456789abcdef".to_string());
    assert_eq!(s.checkout_dir(&n, "u"), format!("/b/sources/x-0123456789ab-{}", short("u")));
    assert_eq!(sanitize("a/b\u{e9}"), "a_b_");
    assert_eq!(s.checkout_lock("/b/sources/x-head-1"), "/b/locks/src-x-head-1.lock");
}

#[test]
fn only_moving_revisions_are_looked_up() {
    let storage = StorageManager::new("/b".to_string());
    let mut s = Sources::new(&storage);
    let mut n = detailed(DependencyDetails { git: Some("u".into()), ..Default::default() });
    let (url, dir) = s.resolve_floating_ref(&n).unwrap();
    assert_eq!(url, "u");
    assert!(matches!(s.base_source(&n), Ok(BaseSource::Checkout { .. })));
    s.record_checkout(dir.clone());
    assert!(matches!(s.base_source(&n), Ok(BaseSource::Confirm { dir: d }) if d == dir));
    n.tag = Some("v1".to_string());
    assert!(s.resolve_floating_ref(&n).is_none());
    n.path = Some("/src".to_string());
    assert!(matches!(s.base_source(&n), Ok(BaseSource::Ready(p)) if p == "/src"));
    let bare = detailed(DependencyDetails::default());
    assert!(s.resolve_floating_ref(&bare).is_none());
    assert_eq!(s.base_source(&bare).unwrap_err(), "'x' has no git URL or path");
    n.resolved_commit = Some("a".to_string());
    assert_eq!(confirm_head(&n, "a"), Ok(()));
    assert_eq!(
        confirm_head(&n, "b").unwrap_err(),
        "Source of 'x' changed while building (expected a, got b)"
    );
    assert_eq!(fetch_failure(&n, "m"), "Failed to fetch 'x': m");
    assert_eq!(read_failure(&n, "m"), "Failed to read the checkout of 'x': m");
}

/// Makes a patched copy; `fails` tells whether an action fails.
fn prepare(fails: &dyn Fn(&PrepareAction) -> bool, marked: bool) -> (Result<String, String>, Vec<String>) {
    let storage = StorageManager::new("/b".to_string());
    let s = Sources::new(&storage);
    let n = detailed(DependencyDetails {
        patches: vec!["/1.patch".into(), "/2.patch".into()],
        ..Default::default()
    });
    let job = s.prepared_source(&n, "/base".to_string(), "id", 5).unwrap();
    let mut log = Vec::new();
    let mut state = PrepareState::first();
    let mut event = PrepareEvent::Begin;
    for _ in 0..30 {
        let (next, action) = job.next(state, &event);
        match &action {
            PrepareAction::Use(p) => return (Ok(p.clone()), log),
            PrepareAction::Fail(m) => return (Err(m.clone()), log),
            PrepareAction::Patch { patch, .. } => log.push(format!("patch {patch}")),
            PrepareAction::Write(p) => log.push(format!("write {p}")),
            PrepareAction::Copy { from, to } => log.push(format!("copy {from} {to}")),
            PrepareAction::Rename { from, to } => log.push(format!("rename {from} {to}")),
            PrepareAction::Clear(p) => log.push(format!("clear {p}")),
            PrepareAction::Remove(p) => log.push(format!("remove {p}")),
            _ => {}
        }
        event = match &action {
            PrepareAction::IsFile(_) => PrepareEvent::Answer(marked),
            a if fails(a) => PrepareEvent::Failed("boom".to_string()),
            _ => PrepareEvent::Worked,
        };
        state = next;
    }
    unreachable!()
}

#[test]
fn patched_copies_are_made_once_and_moved_when_complete() {
    let storage = StorageManager::new("/b".to_string());
    let plain = detailed(DependencyDetails::default());
    assert!(Sources::new(&storage).prepared_source(&plain, "/s".to_string(), "id", 1).is_none());

    let (r, log) = prepare(&|_| false, true);
    assert_eq!(r.unwrap(), "/b/sources/x-id");
    assert!(log.is_empty());

    let (r, log) = prepare(&|_| false, false);
    assert_eq!(r.unwrap(), "/b/sources/x-id");
    assert_eq!(
        log,
        [
            "clear /b/sources/tmp-x-id-5",
            "copy /base /b/sources/tmp-x-id-5",
            "patch /1.patch",
            "patch /2.patch",
            "write /b/sources/tmp-x-id-5/.unideps-patched",
            "remove /b/sources/x-id",
            "rename /b/sources/tmp-x-id-5 /b/sources/x-id",
        ]
    );
}

#[test]
fn failed_patches_leave_nothing_behind() {
    let (r, log) = prepare(
        &|a| matches!(a, PrepareAction::Patch { patch, .. } if patch == "/2.patch"),
        false,
    );
    assert_eq!(r.unwrap_err(), "Failed to prepare patched source for 'x': boom");
    assert_eq!(log.last().unwrap(), "clear /b/sources/tmp-x-id-5");
    let (r, _) = prepare(&|a| matches!(a, PrepareAction::Lock(_)), false);
    assert_eq!(r.unwrap_err(), "boom");
    let (r, log) = prepare(&|a| matches!(a, PrepareAction::Rename { .. }), false);
    assert_eq!(r.unwrap(), "/b/sources/x-id");
    assert!(log.contains(&"copy /b/sources/tmp-x-id-5 /b/sources/x-id".to_string()));
}
