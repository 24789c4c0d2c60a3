use unideps::cmake::parse_cxx_std;
use unideps::git::GitRef;
use unideps::graph::{DependencyGraph, Direction};
use unideps::hash::{EntryKind, HashCalculator, SourceFiles};
use unideps::manifest::{DependencyDetails, DependencySpec};
use unideps::node::DependencyNode;
use unideps::packager::Packager;
use unideps::path::{path_eq, path_precedes, sort_by_path};
use unideps::strategy::push_missing;
use unideps::table::Table;
use unideps::target::TargetTriple;
use unideps::util::{toolchain_fingerprint, CompilerFacts, ToolchainFacts};

fn node(name: &str) -> DependencyNode {
    DependencyNode::from_target_dep(name, &DependencySpec::Detailed(DependencyDetails::default()))
}

fn table(pairs: &[(&str, &str)]) -> Table<String> {
    let mut t = Table::new();
    for (k, v) in pairs {
        t.set_text(k.to_string(), v.to_string());
    }
    t
}

fn pairs(t: &Table<String>) -> Vec<(&str, &str)> {
    t.entries.iter().map(|(k, v)| (k.as_str(), v.as_str())).collect()
}

#[test]
fn tables_hold_each_key_once_and_in_order() {
    let mut t = table(&[("b", "1"), ("a", "2"), ("b", "3"), ("B", "4")]);
    assert_eq!(pairs(&t), [("B", "4"), ("a", "2"), ("b", "3")]);
    assert_eq!(t.text("b").map(String::as_str), Some("3"));
    assert_eq!(t.text("c"), None);
    t.fill(&table(&[("a", "x"), ("c", "5")]));
    assert_eq!(pairs(&t), [("B", "4"), ("a", "2"), ("b", "3"), ("c", "5")]);
    t.merge(&table(&[("a", "6"), ("\u{e9}", "7")]));
    assert_eq!(pairs(&t), [("B", "4"), ("a", "6"), ("b", "3"), ("c", "5"), ("\u{e9}", "7")]);
}

#[test]
fn paths_are_ordered_by_their_components() {
    assert!(path_precedes("a/b", "a-b"));
    assert!(!path_precedes("a-b", "a/b"));
    assert!(path_eq("a//b/.", "a/b") && !path_eq("./a", "a"));
    let sorted = |v: Vec<&str>| -> Vec<String> {
        sort_by_path(v.into_iter().map(|p| (p.to_string(), ())).collect())
            .into_iter()
            .map(|e| e.0)
            .collect()
    };
    assert_eq!(sorted(vec!["a-b", "b", "a/b", "a"]), ["a", "a/b", "a-b", "b"]);
    assert_eq!(sorted(vec!["b", "a", "a/b", "a-b"]), ["a", "a/b", "a-b", "b"]);
}

#[test]
fn only_branches_move() {
    assert!(!GitRef::from_parts(Some("abcdef0"), Some("t"), Some("b")).is_floating());
    assert!(!GitRef::from_parts(None, Some("t"), Some("b")).is_floating());
    assert!(GitRef::from_parts(None, None, Some("b")).is_floating());
    assert!(GitRef::from_parts(None, None, None).is_floating());
}

#[test]
fn every_part_of_a_source_shows() {
    let none = || SourceFiles { tree: None, patches: Vec::new() };
    let id = |n: &DependencyNode, f: &SourceFiles| HashCalculator::calculate_source_id(n, f);
    let mut ids = vec![id(&node("a"), &none()), id(&node("b"), &none())];
    let mut n = node("a");
    for version in ["1", "2"] {
        n.version = Some(version.to_string());
        ids.push(id(&n, &none()));
    }
    for tag in ["1", "2"] {
        n.tag = Some(tag.to_string());
        ids.push(id(&n, &none()));
    }
    n.commit = Some("1".to_string());
    ids.push(id(&n, &none()));
    for patch in ["/x/1.patch", "/x/2.patch"] {
        n.patches = vec![patch.to_string()];
        for content in [None, Some(b"".to_vec()), Some(b"+".to_vec())] {
            ids.push(id(&n, &SourceFiles { tree: None, patches: vec![content] }));
        }
    }
    n.path = Some("/src".to_string());
    n.patches = Vec::new();
    for content in ["1", "2"] {
        let tree = vec![("f".to_string(), EntryKind::File(content.as_bytes().to_vec()))];
        ids.push(id(&n, &SourceFiles { tree: Some(tree), patches: Vec::new() }));
    }
    let total = ids.len();
    ids.sort();
    ids.dedup();
    assert_eq!(ids.len(), total);
    n.path = None;
    let pinned = id(&n, &none());
    n.resolved_commit = Some("9".to_string());
    assert_eq!(id(&n, &none()), pinned);
    n.patches = vec!["/x/1.patch".to_string()];
    let here = id(&n, &SourceFiles { tree: None, patches: vec![None] });
    n.patches = vec!["/y/1.patch".to_string()];
    assert_eq!(id(&n, &SourceFiles { tree: None, patches: vec![None] }), here);
}

#[test]
fn reaching_goes_both_ways() {
    let mut g = DependencyGraph::new();
    let numbers: Vec<usize> =
        ["a", "b", "c", "d"].iter().map(|n| g.try_add_node(node(n)).unwrap()).collect();
    g.add_dependency(numbers[0], numbers[1]);
    g.add_dependency(numbers[1], numbers[2]);
    for &x in &numbers {
        for y in g.reachable(x, Direction::Outgoing) {
            assert!(g.reachable(y, Direction::Incoming).contains(&x));
        }
    }
    assert!(g.reachable(numbers[0], Direction::Outgoing).contains(&numbers[2]));
    assert_eq!(g.reachable_list(numbers[2], Direction::Incoming), [0, 1]);
    let order = g.topological_order().unwrap();
    let at = |x: usize| order.iter().position(|&y| y == x).unwrap();
    assert!(at(numbers[2]) < at(numbers[1]) && at(numbers[1]) < at(numbers[0]));
    g.add_dependency(numbers[2], numbers[0]);
    assert!(g.topological_order().is_err());
}

#[test]
fn another_compiler_is_another_toolchain() {
    let facts = |len: u64, mtime: u64| ToolchainFacts {
        c: CompilerFacts { exists: true, on_path: None, len: Some(len), mtime: Some(mtime) },
        cxx: CompilerFacts { exists: false, on_path: None, len: None, mtime: None },
        toolchain_content: Vec::new(),
    };
    let print = |len, mtime| toolchain_fingerprint(Some("/cc"), None, None, &facts(len, mtime));
    assert_eq!(print(1, 2), print(1, 2));
    assert_ne!(print(1, 2), print(2, 2));
    assert_ne!(print(1, 2), print(1, 3));
    assert_ne!(print(1, 2), toolchain_fingerprint(Some("/cc2"), None, None, &facts(1, 2)));
}

#[test]
fn runs_at_the_same_time_write_different_files() {
    assert_ne!(Packager::temp_sibling("/c/a.tar.zst", 1), Packager::temp_sibling("/c/a.tar.zst", 11));
}

#[test]
fn conditions_are_made_of_their_parts() {
    let options = table(&[("A", "ON"), ("B", "off"), ("C", "1")]);
    let ev = |c: &str| DependencyGraph::eval_condition(c, &options);
    let some = ["A", " B ", "!A", "! B", "", "  ", "A=on", "B=ON", "A && B", "|C", "A||B", "X=0"];
    for a in some {
        for b in some {
            if !a.ends_with('|') {
                assert_eq!(ev(&format!("{a}||{b}")), ev(a) || ev(b), "{a}||{b}");
            }
            if !a.ends_with('&') && !a.contains("||") && !b.contains("||") {
                assert_eq!(ev(&format!("{a}&&{b}")), ev(a) && ev(b), "{a}&&{b}");
            }
        }
        if !a.contains("||") && !a.contains("&&") {
            assert_eq!(ev(&format!("!{a}")), !ev(a), "!{a}");
        }
        assert_eq!(ev(&format!("\t{a} ")), ev(a), "{a}");
    }
    assert!(ev("") && ev(" \n"));
}

#[test]
fn filters_know_no_case_and_triples_pass_themselves() {
    assert!(TargetTriple::from_str("!x86_64-unknown-linux-gnu").is_err());
    let other = "x86_64-\u{130}ng-linux-gnu";
    assert!(TargetTriple::from_str(other).unwrap().matches_platform_filter(other));
    for s in ["x86_64-unknown-linux-gnu", "AARCH64-apple-Darwin", "arm-linux-androideabi"] {
        let t = TargetTriple::from_str(s).unwrap();
        assert!(t.matches_platform_filter(s), "{s}");
        assert!(!t.matches_platform_filter(&format!("!{s}")), "{s}");
        for f in ["Linux", "!LINUX", "ARM64", "Gnu", "!macOS", s] {
            assert_eq!(
                t.matches_platform_filter(f),
                t.matches_platform_filter(&f.to_lowercase()),
                "{s} {f}"
            );
        }
    }
}

#[test]
fn standards_are_numbers() {
    for n in ["17", "98", "2026"] {
        assert_eq!(parse_cxx_std(n).unwrap(), Some((n.to_string(), false)));
        assert_eq!(parse_cxx_std(&format!("c++{n}")).unwrap(), Some((n.to_string(), false)));
        assert_eq!(parse_cxx_std(&format!(" GNU++{n}\t")).unwrap(), Some((n.to_string(), true)));
    }
    assert_eq!(parse_cxx_std(" \t").unwrap(), None);
    assert_eq!(parse_cxx_std("\u{3000}").unwrap(), None);
    assert!(parse_cxx_std("\u{130}").is_err());
    assert!(parse_cxx_std("gnu++").is_err() && parse_cxx_std("1x").is_err());
}

#[test]
fn added_flags_come_once_behind_those_that_were_there() {
    let list = |v: &[&str]| -> Vec<String> { v.iter().map(|f| f.to_string()).collect() };
    let mut flags = list(&["-a", "-b", "-a"]);
    push_missing(&mut flags, &list(&["-d", "-b", "-c", "-d"]));
    assert_eq!(flags, list(&["-a", "-b", "-a", "-d", "-c"]));
}
