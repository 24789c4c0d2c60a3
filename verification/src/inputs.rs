//! What CMake is given for a package: its definitions, and where to find what it depends on.
use crate::cmake::{norm, normed};
use crate::context::BuildContext;
use crate::hash::{effective_target, is_shared};
use crate::node::{DependencyNode, NodeKind, NodeView};
use crate::path::{
    entries_view, file_name, file_name_of, join_path, path_eq, path_join, path_sorted, same_path,
    sort_by_path, sorting_orders_the_same_entries,
};
use crate::storage::StorageManager;
use crate::strategy::or_kept;
use crate::table::{
    filled, filled_stays_ordered, inserted, lookup, lookup_after_fill, lookup_after_insert,
    lookup_after_merge, merged, merged_stays_ordered, ordered, Table,
};
use crate::target::{build_type_text, runtime_text, Environment, Os};
use crate::text::{
    cat2, contains, ends_with, has_part, has_prefix, has_suffix, lower, opt_view, same,
    strip_prefix, to_lowercase, to_uppercase, upper, views, what_is_left_without_an_end,
};
use vstd::prelude::*;
use vstd::string::*;

verus! {

broadcast use vstd::string::group_string_axioms;

// ---------------------------------------------------------------------------
// Hints for the packages that depend on one
// ---------------------------------------------------------------------------

/// What is on disk of an installed package: whether it has `bin` and `include` directories, the
/// file of its first declared library that is there, and the paths in its `lib` directory, where
/// that can be read.
#[derive(Debug)]
pub struct PrefixFacts {
    pub has_bin: bool,
    pub has_include: bool,
    pub declared_library: Option<String>,
    pub lib_entries: Option<Vec<String>>,
}

/// The files that a declared library may be, relative to a prefix, the likeliest first: the name as
/// it is given, and behind it each extension of a library.
pub open spec fn library_files(prefix: Seq<char>, library: Seq<char>) -> Seq<Seq<char>> {
    seq![
        path_join(prefix, library),
        path_join(prefix, library + ".lib"@),
        path_join(prefix, library + ".a"@),
        path_join(prefix, library + ".so"@),
        path_join(prefix, library + ".dylib"@),
    ]
}

/// The files that a declared library may be, relative to a prefix, the likeliest first: the one
/// that is there first is the library.
pub fn library_candidates(prefix: &str, library: &str) -> (r: Vec<String>)
    ensures
        views(r@) == library_files(prefix@, library@),
{
    let mut out: Vec<String> = Vec::new();
    out.push(join_path(prefix, library));
    out.push(join_path(prefix, cat2(library, ".lib").as_str()));
    out.push(join_path(prefix, cat2(library, ".a").as_str()));
    out.push(join_path(prefix, cat2(library, ".so").as_str()));
    out.push(join_path(prefix, cat2(library, ".dylib").as_str()));
    assert(views(out@) =~= library_files(prefix@, library@));
    out
}

/// The texts without those that repeat the one before.
pub open spec fn without_repeats(s: Seq<Seq<char>>) -> Seq<Seq<char>>
    decreases s.len(),
{
    if s.len() == 0 {
        seq![]
    } else {
        let so_far = without_repeats(s.drop_last());
        if so_far.len() > 0 && so_far.last() == s.last() {
            so_far
        } else {
            so_far.push(s.last())
        }
    }
}

/// The names under which Find modules may look for a package.
pub open spec fn hint_names(n: NodeView) -> Seq<Seq<char>> {
    without_repeats(
        seq![n.name, upper(n.name)] + match n.import_name {
            Some(i) => seq![i, upper(i)],
            None => seq![],
        },
    )
}

/// Whether a file, by its name in small letters, is a library.
pub open spec fn is_library(f: Seq<char>) -> bool {
    has_suffix(f, ".a"@) || has_suffix(f, ".lib"@) || has_suffix(f, ".so"@) || has_suffix(
        f,
        ".dylib"@,
    )
}

/// Whether the file at a path is a library.
pub open spec fn is_library_at(p: Seq<char>) -> bool {
    match file_name_of(p) {
        Some(f) => is_library(lower(f)),
        None => false,
    }
}

/// The paths of libraries.
pub open spec fn libraries_among(paths: Seq<Seq<char>>) -> Seq<(Seq<char>, ())>
    decreases paths.len(),
{
    if paths.len() == 0 {
        seq![]
    } else if is_library_at(paths.last()) {
        libraries_among(paths.drop_last()).push((paths.last(), ()))
    } else {
        libraries_among(paths.drop_last())
    }
}

/// `w` without every leading `lib`.
pub open spec fn without_lib(w: Seq<char>) -> Seq<char>
    decreases w.len(),
{
    if w.len() >= 3 && has_prefix(w, "lib"@) {
        without_lib(w.skip(3))
    } else {
        w
    }
}

/// Whether a file is called like one of the names.
pub open spec fn called_like(p: Seq<char>, names: Seq<Seq<char>>) -> bool {
    exists|i: int|
        0 <= i < names.len() && has_part(
            lower(or_kept(file_name_of(p), ""@)),
            without_lib(lower(#[trigger] names[i])),
        )
}

/// The first file that is called like one of the names.
pub open spec fn first_called_like(
    files: Seq<(Seq<char>, ())>,
    names: Seq<Seq<char>>,
) -> Option<Seq<char>>
    decreases files.len(),
{
    if files.len() == 0 {
        None
    } else if called_like(files[0].0, names) {
        Some(files[0].0)
    } else {
        first_called_like(files.skip(1), names)
    }
}

/// The library of a package: the one that is declared, else one in its `lib` directory, of which
/// one that is called like the package comes first.
pub open spec fn library_of(names: Seq<Seq<char>>, facts: PrefixFacts) -> Option<Seq<char>> {
    match facts.declared_library {
        Some(p) => Some(normed(p@)),
        None => match facts.lib_entries {
            None => None,
            Some(paths) => {
                let files = path_sorted(libraries_among(views(paths@)));
                match first_called_like(files, names) {
                    Some(p) => Some(normed(p)),
                    None => if files.len() > 0 {
                        Some(normed(files[0].0))
                    } else {
                        None
                    },
                }
            },
        },
    }
}

/// The hints under one name.
pub open spec fn hints_under(
    name: Seq<char>,
    prefix: Seq<char>,
    inc: Option<Seq<char>>,
    lib: Option<Seq<char>>,
) -> Seq<(Seq<char>, Seq<char>)> {
    seq![(name + "_ROOT"@, prefix)] + match inc {
        Some(i) => seq![(name + "_INCLUDE_DIR"@, i), (name + "_INCLUDE_DIRS"@, i)],
        None => seq![],
    } + match lib {
        Some(l) => seq![(name + "_LIBRARY"@, l), (name + "_LIBRARIES"@, l)],
        None => seq![],
    }
}

/// The hints under all names.
pub open spec fn all_hints(
    names: Seq<Seq<char>>,
    prefix: Seq<char>,
    inc: Option<Seq<char>>,
    lib: Option<Seq<char>>,
) -> Seq<(Seq<char>, Seq<char>)>
    decreases names.len(),
{
    if names.len() == 0 {
        seq![]
    } else {
        all_hints(names.drop_last(), prefix, inc, lib) + hints_under(names.last(), prefix, inc, lib)
    }
}

/// The hints that let classic Find modules locate a package.
pub open spec fn root_vars(n: NodeView, facts: PrefixFacts) -> Seq<(Seq<char>, Seq<char>)> {
    match n.install_prefix {
        None => seq![],
        Some(p) => all_hints(
            hint_names(n),
            normed(p),
            if facts.has_include {
                Some(normed(path_join(p, "include"@)))
            } else {
                None
            },
            library_of(hint_names(n), facts),
        ),
    }
}

/// Pairs of texts as views.
pub open spec fn text_pairs(v: Seq<(String, String)>) -> Seq<(Seq<char>, Seq<char>)> {
    v.map_values(|e: (String, String)| (e.0@, e.1@))
}

fn drop_repeats(v: Vec<String>) -> (r: Vec<String>)
    ensures
        views(r@) == without_repeats(views(v@)),
{
    let mut out: Vec<String> = Vec::new();
    let ghost all = views(v@);
    let mut i: usize = 0;
    proof {
        assert(all.take(0) =~= Seq::<Seq<char>>::empty());
        assert(views(out@) =~= Seq::<Seq<char>>::empty());
    }
    while i < v.len()
        invariant
            i <= v@.len(),
            all == views(v@),
            views(out@) == without_repeats(all.take(i as int)),
        decreases v@.len() - i,
    {
        assert(all.take(i + 1).drop_last() =~= all.take(i as int));
        assert(all.take(i + 1).last() == v@[i as int]@);
        let n: usize = out.len();
        if n > 0 {
            assert(views(out@).last() == out@[n - 1]@);
        }
        if n == 0 || !same(out[n - 1].as_str(), v[i].as_str()) {
            let ghost before = views(out@);
            let s = v[i].clone();
            out.push(s);
            assert(views(out@) =~= before.push(v@[i as int]@));
        }
        i = i + 1;
    }
    assert(all.take(i as int) =~= all);
    out
}

fn names_for(dep: &DependencyNode) -> (r: Vec<String>)
    ensures
        views(r@) == hint_names(dep@),
{
    let mut names: Vec<String> = Vec::new();
    names.push(dep.name.clone());
    names.push(to_uppercase(dep.name.as_str()));
    if let Some(imp) = &dep.import_name {
        names.push(imp.clone());
        names.push(to_uppercase(imp.as_str()));
    }
    assert(views(names@) =~= seq![dep@.name, upper(dep@.name)] + match dep@.import_name {
        Some(i) => seq![i, upper(i)],
        None => seq![],
    });
    drop_repeats(names)
}

fn trim_lib(w: &str) -> (r: String)
    ensures
        r@ == without_lib(w@),
{
    let mut rest = w.to_owned();
    proof {
        reveal_strlit("lib");
    }
    loop
        invariant_except_break
            without_lib(rest@) == without_lib(w@),
        invariant
            "lib"@.len() == 3,
        ensures
            rest@ == without_lib(w@),
        decreases rest@.len(),
    {
        match strip_prefix(rest.as_str(), "lib") {
            Some(t) => {
                rest = t;
            },
            None => {
                break;
            },
        }
    }
    rest
}

fn is_called_like(p: &str, names: &[String]) -> (r: bool)
    ensures
        r == called_like(p@, views(names@)),
{
    let f = match file_name(p) {
        Some(n) => to_lowercase(n.as_str()),
        None => to_lowercase(""),
    };
    let mut i: usize = 0;
    while i < names.len()
        invariant
            i <= names@.len(),
            f@ == lower(or_kept(file_name_of(p@), ""@)),
            forall|k: int|
                0 <= k < i ==> !has_part(f@, without_lib(lower(#[trigger] views(names@)[k]))),
        decreases names@.len() - i,
    {
        let l = to_lowercase(names[i].as_str());
        let w = trim_lib(l.as_str());
        assert(views(names@)[i as int] == names@[i as int]@);
        if contains(f.as_str(), w.as_str()) {
            return true;
        }
        i = i + 1;
    }
    false
}

fn libraries_in(paths: &[String]) -> (r: Vec<(String, ())>)
    ensures
        entries_view(r@) == libraries_among(views(paths@)),
{
    let mut out: Vec<(String, ())> = Vec::new();
    let ghost all = views(paths@);
    let mut i: usize = 0;
    proof {
        assert(all.take(0) =~= Seq::<Seq<char>>::empty());
        assert(entries_view(out@) =~= Seq::<(Seq<char>, ())>::empty());
    }
    while i < paths.len()
        invariant
            i <= paths@.len(),
            all == views(paths@),
            entries_view(out@) == libraries_among(all.take(i as int)),
        decreases paths@.len() - i,
    {
        let p = paths[i].as_str();
        assert(all.take(i + 1).drop_last() =~= all.take(i as int));
        assert(all.take(i + 1).last() == p@);
        let wanted = match file_name(p) {
            Some(n) => {
                let f = to_lowercase(n.as_str());
                ends_with(f.as_str(), ".a") || ends_with(f.as_str(), ".lib") || ends_with(
                    f.as_str(),
                    ".so",
                ) || ends_with(f.as_str(), ".dylib")
            },
            None => false,
        };
        if wanted {
            let ghost before = entries_view(out@);
            out.push((p.to_owned(), ()));
            assert(entries_view(out@) =~= before.push((p@, ())));
        }
        i = i + 1;
    }
    assert(all.take(i as int) =~= all);
    out
}

fn find_library(names: &[String], facts: &PrefixFacts) -> (r: Option<String>)
    ensures
        opt_view(r) == library_of(views(names@), *facts),
{
    if let Some(p) = &facts.declared_library {
        return Some(norm(p.as_str()));
    }
    let paths = match &facts.lib_entries {
        None => {
            return None;
        },
        Some(v) => v,
    };
    let found = libraries_in(paths);
    let files = sort_by_path(found);
    let ghost all = entries_view(files@);
    let mut i: usize = 0;
    assert(all.skip(0) =~= all);
    while i < files.len()
        invariant
            i <= files@.len(),
            all == entries_view(files@),
            facts.declared_library is None,
            facts.lib_entries == Some(*paths),
            all == path_sorted(libraries_among(views(paths@))),
            first_called_like(all, views(names@)) == first_called_like(
                all.skip(i as int),
                views(names@),
            ),
        decreases files@.len() - i,
    {
        assert(all.skip(i as int)[0] == (files@[i as int].0@, ()));
        assert(all.skip(i as int).skip(1) =~= all.skip(i + 1));
        if is_called_like(files[i].0.as_str(), names) {
            return Some(norm(files[i].0.as_str()));
        }
        i = i + 1;
    }
    assert(all.skip(i as int) =~= Seq::<(Seq<char>, ())>::empty());
    if files.len() > 0 {
        assert(all[0] == (files@[0].0@, ()));
        Some(norm(files[0].0.as_str()))
    } else {
        None
    }
}

fn push_hint(out: &mut Vec<(String, String)>, name: &str, suffix: &str, value: &str)
    ensures
        text_pairs(final(out)@) == text_pairs(old(out)@).push((name@ + suffix@, value@)),
{
    let key = cat2(name, suffix);
    out.push((key, value.to_owned()));
    assert(text_pairs(out@) =~= text_pairs(old(out)@).push((name@ + suffix@, value@)));
}

fn push_hints(
    out: &mut Vec<(String, String)>,
    name: &str,
    prefix: &str,
    inc: &Option<String>,
    lib: &Option<String>,
)
    ensures
        text_pairs(final(out)@) == text_pairs(old(out)@) + hints_under(
            name@,
            prefix@,
            opt_view(*inc),
            opt_view(*lib),
        ),
{
    push_hint(out, name, "_ROOT", prefix);
    if let Some(i) = inc {
        push_hint(out, name, "_INCLUDE_DIR", i.as_str());
        push_hint(out, name, "_INCLUDE_DIRS", i.as_str());
    }
    if let Some(l) = lib {
        push_hint(out, name, "_LIBRARY", l.as_str());
        push_hint(out, name, "_LIBRARIES", l.as_str());
    }
    assert(text_pairs(out@) =~= text_pairs(old(out)@) + hints_under(
        name@,
        prefix@,
        opt_view(*inc),
        opt_view(*lib),
    ));
}

/// The hints `<Name>_ROOT`, `<Name>_INCLUDE_DIR(S)` and `<Name>_LIBRARY/LIBRARIES` that let classic
/// Find modules of dependent packages locate this one.
pub fn dep_root_vars(dep: &DependencyNode, facts: &PrefixFacts) -> (r: Vec<(String, String)>)
    ensures
        text_pairs(r@) == root_vars(dep@, *facts),
{
    let mut vars: Vec<(String, String)> = Vec::new();
    assert(text_pairs(vars@) =~= Seq::<(Seq<char>, Seq<char>)>::empty());
    let prefix = match &dep.install_prefix {
        None => {
            return vars;
        },
        Some(p) => p,
    };
    let names = names_for(dep);
    let shown = norm(prefix.as_str());
    let inc = if facts.has_include {
        let dir = join_path(prefix.as_str(), "include");
        Some(norm(dir.as_str()))
    } else {
        None
    };
    let lib = find_library(&names, facts);
    let ghost all = views(names@);
    let mut i: usize = 0;
    assert(all.take(0) =~= Seq::<Seq<char>>::empty());
    while i < names.len()
        invariant
            i <= names@.len(),
            all == views(names@),
            text_pairs(vars@) == all_hints(
                all.take(i as int),
                shown@,
                opt_view(inc),
                opt_view(lib),
            ),
        decreases names@.len() - i,
    {
        assert(all.take(i + 1).drop_last() =~= all.take(i as int));
        assert(all.take(i + 1).last() == names@[i as int]@);
        push_hints(&mut vars, names[i].as_str(), shown.as_str(), &inc, &lib);
        i = i + 1;
    }
    assert(all.take(i as int) =~= all);
    vars
}

// ---------------------------------------------------------------------------
// The dependencies of a package
// ---------------------------------------------------------------------------

/// A package that another needs, with what is on disk of it.
#[derive(Debug)]
pub struct DepInput<'a> {
    pub node: &'a DependencyNode,
    pub facts: PrefixFacts,
}

/// Whether a prefix is among those of the packages.
pub open spec fn has_prefix_path(deps: Seq<DepInput>, p: Seq<char>) -> bool {
    exists|i: int|
        0 <= i < deps.len() && (#[trigger] deps[i]).node@.install_prefix is Some && same_path(
            deps[i].node@.install_prefix->0,
            p,
        )
}

/// The packages with each prefix once; a package that is needed twice counts once.
pub open spec fn distinct_deps<'a>(deps: Seq<DepInput<'a>>) -> Seq<DepInput<'a>>
    decreases deps.len(),
{
    if deps.len() == 0 {
        seq![]
    } else {
        let so_far = distinct_deps(deps.drop_last());
        match deps.last().node@.install_prefix {
            Some(p) => if has_prefix_path(so_far, p) {
                so_far
            } else {
                so_far.push(deps.last())
            },
            None => so_far.push(deps.last()),
        }
    }
}

/// The prefixes of the packages for the target.
pub open spec fn target_prefixes(deps: Seq<DepInput>) -> Seq<Seq<char>>
    decreases deps.len(),
{
    if deps.len() == 0 {
        seq![]
    } else {
        let so_far = target_prefixes(deps.drop_last());
        let n = deps.last().node@;
        if n.kind == NodeKind::TargetDependency && n.install_prefix is Some {
            so_far.push(n.install_prefix->0)
        } else {
            so_far
        }
    }
}

/// The directories of the tools: `bin` where it is there, and the prefix itself.
pub open spec fn tool_dirs(deps: Seq<DepInput>) -> Seq<Seq<char>>
    decreases deps.len(),
{
    if deps.len() == 0 {
        seq![]
    } else {
        let so_far = tool_dirs(deps.drop_last());
        let n = deps.last().node@;
        if n.kind == NodeKind::HostTool && n.install_prefix is Some {
            let p = n.install_prefix->0;
            if deps.last().facts.has_bin {
                so_far.push(path_join(p, "bin"@)).push(p)
            } else {
                so_far.push(p)
            }
        } else {
            so_far
        }
    }
}

/// Definitions with the hints of the packages for the target, where they say nothing themselves.
pub open spec fn with_hints(
    definitions: Seq<(Seq<char>, Seq<char>)>,
    deps: Seq<DepInput>,
) -> Seq<(Seq<char>, Seq<char>)>
    decreases deps.len(),
{
    if deps.len() == 0 {
        definitions
    } else {
        let so_far = with_hints(definitions, deps.drop_last());
        let n = deps.last().node@;
        if n.kind == NodeKind::TargetDependency {
            filled(so_far, root_vars(n, deps.last().facts))
        } else {
            so_far
        }
    }
}

/// What CMake runs for: to build a package, with the targets of its nested manifest where it has
/// one, or only to write the options of the package to a file.
#[derive(Debug)]
pub enum CmakeMode {
    Build { nested_targets: Option<String> },
    Probe(String),
}

/// The variable that tells the package what CMake runs for, and its value.
pub open spec fn mode_variable(mode: CmakeMode) -> Option<(Seq<char>, Seq<char>)> {
    match mode {
        CmakeMode::Build { nested_targets } => match nested_targets {
            Some(f) => Some(("UNIDEPS_NESTED_TARGETS"@, normed(f@))),
            None => None,
        },
        CmakeMode::Probe(f) => Some(("UNIDEPS_NESTED_PROBE"@, normed(f@))),
    }
}

/// The definitions for a package: its own options, over which those of the rules win; the hints of
/// what it needs; and what CMake runs for. The values of options are passed on as they are.
pub open spec fn definitions_of(n: NodeView, deps: Seq<DepInput>, mode: CmakeMode) -> Seq<
    (Seq<char>, Seq<char>),
> {
    let all = with_hints(merged(n.cmake_options, n.config.cmake_options), deps);
    match mode_variable(mode) {
        Some((k, v)) => inserted(all, k, v),
        None => all,
    }
}

fn has_same_prefix(kept: &[usize], deps: &[DepInput], p: &str) -> (r: bool)
    requires
        forall|k: int| 0 <= k < kept@.len() ==> #[trigger] kept@[k] < deps@.len(),
    ensures
        r == has_prefix_path(kept@.map_values(|i: usize| deps@[i as int]), p@),
{
    let ghost all = kept@.map_values(|i: usize| deps@[i as int]);
    let mut i: usize = 0;
    while i < kept.len()
        invariant
            i <= kept@.len(),
            all == kept@.map_values(|i: usize| deps@[i as int]),
            forall|k: int| 0 <= k < kept@.len() ==> #[trigger] kept@[k] < deps@.len(),
            forall|k: int|
                0 <= k < i ==> !((#[trigger] all[k]).node@.install_prefix is Some && same_path(
                    all[k].node@.install_prefix->0,
                    p@,
                )),
        decreases kept@.len() - i,
    {
        assert(all[i as int] == deps@[kept@[i as int] as int]);
        if let Some(q) = &deps[kept[i]].node.install_prefix {
            if path_eq(q.as_str(), p) {
                return true;
            }
        }
        i = i + 1;
    }
    false
}

/// The numbers of the packages that count, each prefix once.
pub fn distinct_indices(deps: &[DepInput]) -> (r: Vec<usize>)
    ensures
        forall|k: int| 0 <= k < r@.len() ==> #[trigger] r@[k] < deps@.len(),
        r@.map_values(|i: usize| deps@[i as int]) == distinct_deps(deps@),
{
    let mut kept: Vec<usize> = Vec::new();
    let mut i: usize = 0;
    proof {
        assert(deps@.take(0) =~= Seq::<DepInput>::empty());
        assert(kept@.map_values(|i: usize| deps@[i as int]) =~= Seq::<DepInput>::empty());
    }
    while i < deps.len()
        invariant
            i <= deps@.len(),
            forall|k: int| 0 <= k < kept@.len() ==> #[trigger] kept@[k] < deps@.len(),
            kept@.map_values(|i: usize| deps@[i as int]) == distinct_deps(deps@.take(i as int)),
        decreases deps@.len() - i,
    {
        assert(deps@.take(i + 1).drop_last() =~= deps@.take(i as int));
        assert(deps@.take(i + 1).last() == deps@[i as int]);
        let seen = match &deps[i].node.install_prefix {
            Some(p) => has_same_prefix(&kept, deps, p.as_str()),
            None => false,
        };
        if !seen {
            let ghost before = kept@.map_values(|i: usize| deps@[i as int]);
            kept.push(i);
            assert(kept@.map_values(|i: usize| deps@[i as int]) =~= before.push(deps@[i as int]));
        }
        i = i + 1;
    }
    assert(deps@.take(i as int) =~= deps@);
    kept
}

/// What CMake is given for a package.
#[derive(Debug)]
pub struct CMakeInputs {
    pub definitions: Table<String>,
    pub prefix_paths: Vec<String>,
    pub host_tools_bins: Vec<String>,
    pub build_type: String,
    pub shared: bool,
    pub msvc_runtime: Option<&'static str>,
    pub collect_pdbs: bool,
    pub isolate_env: bool,
    pub log_dir: String,
}

fn gather(deps: &[DepInput], definitions: Table<String>) -> (r: (
    Table<String>,
    Vec<String>,
    Vec<String>,
))
    ensures
        r.0.texts() == with_hints(definitions.texts(), distinct_deps(deps@)),
        definitions.wf() ==> r.0.wf(),
        views(r.1@) == target_prefixes(distinct_deps(deps@)),
        views(r.2@) == tool_dirs(distinct_deps(deps@)),
{
    let kept = distinct_indices(deps);
    let ghost all = distinct_deps(deps@);
    let ghost sound = definitions.wf();
    let mut defs = definitions;
    let mut prefixes: Vec<String> = Vec::new();
    let mut bins: Vec<String> = Vec::new();
    let mut i: usize = 0;
    proof {
        assert(all.take(0) =~= Seq::<DepInput>::empty());
        assert(views(prefixes@) =~= Seq::<Seq<char>>::empty());
        assert(views(bins@) =~= Seq::<Seq<char>>::empty());
    }
    while i < kept.len()
        invariant
            i <= kept@.len(),
            all == kept@.map_values(|i: usize| deps@[i as int]),
            forall|k: int| 0 <= k < kept@.len() ==> #[trigger] kept@[k] < deps@.len(),
            defs.texts() == with_hints(definitions.texts(), all.take(i as int)),
            sound ==> defs.wf(),
            views(prefixes@) == target_prefixes(all.take(i as int)),
            views(bins@) == tool_dirs(all.take(i as int)),
        decreases kept@.len() - i,
    {
        let dep = &deps[kept[i]];
        proof {
            assert(all[i as int] == deps@[kept@[i as int] as int]);
            assert(all.take(i + 1).drop_last() =~= all.take(i as int));
            assert(all.take(i + 1).last() == *dep);
        }
        match dep.node.kind {
            NodeKind::TargetDependency => {
                let vars = dep_root_vars(dep.node, &dep.facts);
                let hints = Table { entries: vars };
                assert(hints.texts() =~= text_pairs(vars@));
                defs.fill(&hints);
                if let Some(p) = &dep.node.install_prefix {
                    let ghost before = views(prefixes@);
                    prefixes.push(p.clone());
                    assert(views(prefixes@) =~= before.push(p@));
                }
            },
            NodeKind::HostTool => {
                if let Some(p) = &dep.node.install_prefix {
                    let ghost before = views(bins@);
                    if dep.facts.has_bin {
                        let bin = join_path(p.as_str(), "bin");
                        bins.push(bin);
                        assert(views(bins@) =~= before.push(bin@));
                    }
                    let ghost between = views(bins@);
                    bins.push(p.clone());
                    assert(views(bins@) =~= between.push(p@));
                }
            },
        }
        i = i + 1;
    }
    assert(all.take(i as int) =~= all);
    (defs, prefixes, bins)
}

/// What CMake is given for a package: `deps` are the packages that it needs, directly or not, and
/// `install_dir` is where it goes. The values of its options are passed on as they are: what they
/// say of other packages is not replaced.
pub fn cmake_inputs(
    ctx: &BuildContext,
    storage: &StorageManager,
    deps: &[DepInput],
    node: &DependencyNode,
    install_dir: &str,
    mode: &CmakeMode,
) -> (r: CMakeInputs)
    ensures
        r.definitions.texts() == definitions_of(node@, distinct_deps(deps@), *mode),
        node.wf() ==> r.definitions.wf(),
        views(r.prefix_paths@) == target_prefixes(distinct_deps(deps@)),
        views(r.host_tools_bins@) == tool_dirs(distinct_deps(deps@)),
        r.build_type@ == build_type_text(node@.config.build_type),
        r.shared == or_kept(node@.shared, node@.config.shared),
        r.shared == is_shared(node@),
        ({
            let triple = match node@.kind {
                NodeKind::TargetDependency => ctx.target,
                NodeKind::HostTool => ctx.host,
            };
            &&& crate::git::opt_str(r.msvc_runtime) == if triple.env == Environment::Msvc {
                Some(runtime_text(node@.config.vc_runtime))
            } else {
                None
            }
            &&& r.collect_pdbs == (triple.os == Os::Windows)
            &&& triple@ == effective_target(node@, ctx.target@, ctx.host@)
        }),
        r.isolate_env == (node@.kind == NodeKind::HostTool && !ctx.native()),
        r.log_dir@ == path_join(storage.dir("logs"@), or_kept(file_name_of(install_dir@), ""@)),
{
    let mut definitions = node.cmake_options.copy();
    definitions.merge(&node.config.cmake_options);
    let (mut definitions, prefix_paths, host_tools_bins) = gather(deps, definitions);
    match mode {
        CmakeMode::Build { nested_targets } => {
            if let Some(f) = nested_targets {
                let shown = norm(f.as_str());
                definitions.set_text("UNIDEPS_NESTED_TARGETS".to_owned(), shown);
            }
        },
        CmakeMode::Probe(f) => {
            let shown = norm(f.as_str());
            definitions.set_text("UNIDEPS_NESTED_PROBE".to_owned(), shown);
        },
    }
    let triple = ctx.triple_for(node);
    let msvc_runtime = if triple.env == Environment::Msvc {
        Some(node.config.vc_runtime.as_cmake_value())
    } else {
        None
    };
    let logs = storage.logs_dir();
    let last = match file_name(install_dir) {
        Some(n) => n,
        None => "".to_owned(),
    };
    CMakeInputs {
        definitions,
        prefix_paths,
        host_tools_bins,
        build_type: node.config.build_type.as_str().to_owned(),
        shared: match node.shared {
            Some(b) => b,
            None => node.config.shared,
        },
        msvc_runtime,
        collect_pdbs: triple.os == Os::Windows,
        isolate_env: node.kind == NodeKind::HostTool && !ctx.is_native(),
        log_dir: join_path(logs.as_str(), last.as_str()),
    }
}

/// Whether no two packages have the same prefix.
pub open spec fn prefixes_differ(deps: Seq<DepInput>) -> bool {
    forall|i: int, j: int|
        0 <= i < j < deps.len() && (#[trigger] deps[i]).node@.install_prefix is Some && (
        #[trigger] deps[j]).node@.install_prefix is Some ==> !same_path(
            deps[i].node@.install_prefix->0,
            deps[j].node@.install_prefix->0,
        )
}

/// A prefix is passed on once.
pub proof fn each_prefix_counts_once(deps: Seq<DepInput>)
    ensures
        prefixes_differ(distinct_deps(deps)),
    decreases deps.len(),
{
    if deps.len() > 0 {
        let so_far = distinct_deps(deps.drop_last());
        let now = distinct_deps(deps);
        each_prefix_counts_once(deps.drop_last());
        if now != so_far {
            assert(now == so_far.push(deps.last()));
            assert forall|i: int, j: int|
                0 <= i < j < now.len() && (#[trigger] now[i]).node@.install_prefix is Some && (
                #[trigger] now[j]).node@.install_prefix is Some implies !same_path(
                now[i].node@.install_prefix->0,
                now[j].node@.install_prefix->0,
            ) by {
                assert(now[i] == so_far[i]);
                if j < so_far.len() {
                    assert(now[j] == so_far[j]);
                } else {
                    assert(!has_prefix_path(so_far, now[j].node@.install_prefix->0));
                }
            }
        }
    }
}

// ---------------------------------------------------------------------------
// What is promised of the inputs
// ---------------------------------------------------------------------------

/// A declared library is looked for under its own name first, then with each ending that a library
/// has.
pub proof fn where_a_declared_library_is_looked_for(prefix: Seq<char>, library: Seq<char>)
    ensures
        library_files(prefix, library).len() == 5,
        library_files(prefix, library)[0] == path_join(prefix, library),
        library_files(prefix, library).contains(path_join(prefix, library + ".lib"@)),
        library_files(prefix, library).contains(path_join(prefix, library + ".a"@)),
        library_files(prefix, library).contains(path_join(prefix, library + ".so"@)),
        library_files(prefix, library).contains(path_join(prefix, library + ".dylib"@)),
{
    let files = library_files(prefix, library);
    assert(files[1] == path_join(prefix, library + ".lib"@));
    assert(files[2] == path_join(prefix, library + ".a"@));
    assert(files[3] == path_join(prefix, library + ".so"@));
    assert(files[4] == path_join(prefix, library + ".dylib"@));
}

proof fn lemma_same_texts(s: Seq<Seq<char>>)
    ensures
        forall|x: Seq<char>| #![trigger without_repeats(s).contains(x)]
            without_repeats(s).contains(x) <==> s.contains(x),
        s.len() > 0 ==> without_repeats(s).len() > 0 && without_repeats(s)[0] == s[0]
            && without_repeats(s).last() == s.last(),
    decreases s.len(),
{
    if s.len() > 0 {
        let init = s.drop_last();
        lemma_same_texts(init);
        let less = without_repeats(init);
        let all = without_repeats(s);
        assert(s[s.len() - 1] == s.last());
        if init.len() > 0 {
            assert(init[0] == s[0]);
        }
        assert(all[all.len() - 1] == s.last());
        assert forall|x: Seq<char>| #![trigger all.contains(x)]
            all.contains(x) <==> s.contains(x) by {
            if all.contains(x) {
                let i = choose|i: int| 0 <= i < all.len() && all[i] == x;
                if i < less.len() {
                    assert(less[i] == x);
                    assert(less.contains(x));
                    let k = choose|k: int| 0 <= k < init.len() && init[k] == x;
                    assert(s[k] == x);
                }
            }
            if s.contains(x) {
                let k = choose|k: int| 0 <= k < s.len() && s[k] == x;
                if k < init.len() {
                    assert(init[k] == x);
                    assert(less.contains(x));
                    let i = choose|i: int| 0 <= i < less.len() && less[i] == x;
                    assert(all[i] == x);
                }
            }
        }
    }
}

/// Hints about a package go under its name and under the name it is imported by, as they are and in
/// capital letters, and under no other name.
pub proof fn the_names_of_hints(n: NodeView, x: Seq<char>)
    ensures
        hint_names(n).contains(x) <==> x == n.name || x == upper(n.name) || n.import_name is Some
            && (
        x == n.import_name->0 || x == upper(n.import_name->0)),
        hint_names(n)[0] == n.name,
{
    let s = seq![n.name, upper(n.name)] + match n.import_name {
        Some(i) => seq![i, upper(i)],
        None => seq![],
    };
    lemma_same_texts(s);
    assert(s[0] == n.name && s[1] == upper(n.name));
    if n.import_name is Some {
        assert(s[2] == n.import_name->0 && s[3] == upper(n.import_name->0));
    }
}

/// The endings that make a file a library, and no others.
pub proof fn the_endings_of_libraries(f: Seq<char>, x: Seq<char>)
    ensures
        is_library(x + ".a"@) && is_library(x + ".lib"@) && is_library(x + ".so"@) && is_library(
            x + ".dylib"@,
        ),
        is_library(f) ==> exists|rest: Seq<char>|
            f == rest + ".a"@ || f == rest + ".lib"@ || f == rest + ".so"@ || f == rest
                + ".dylib"@,
{
    what_is_left_without_an_end(f, ".a"@, x);
    what_is_left_without_an_end(f, ".lib"@, x);
    what_is_left_without_an_end(f, ".so"@, x);
    what_is_left_without_an_end(f, ".dylib"@, x);
    if is_library(f) {
        if has_suffix(f, ".a"@) {
            assert(f =~= f.take(f.len() - ".a"@.len()) + ".a"@);
        } else if has_suffix(f, ".lib"@) {
            assert(f =~= f.take(f.len() - ".lib"@.len()) + ".lib"@);
        } else if has_suffix(f, ".so"@) {
            assert(f =~= f.take(f.len() - ".so"@.len()) + ".so"@);
        } else {
            assert(f =~= f.take(f.len() - ".dylib"@.len()) + ".dylib"@);
        }
    }
}

proof fn lemma_libraries_among(paths: Seq<Seq<char>>, p: Seq<char>)
    ensures
        libraries_among(paths).contains((p, ())) <==> paths.contains(p) && is_library_at(p),
    decreases paths.len(),
{
    if paths.len() > 0 {
        let init = paths.drop_last();
        lemma_libraries_among(init, p);
        let less = libraries_among(init);
        let all = libraries_among(paths);
        assert(paths[paths.len() - 1] == paths.last());
        if init.contains(p) {
            let k = choose|k: int| 0 <= k < init.len() && init[k] == p;
            assert(paths[k] == p);
        }
        if paths.contains(p) && p != paths.last() {
            let k = choose|k: int| 0 <= k < paths.len() && paths[k] == p;
            assert(init[k] == p);
        }
        if less.contains((p, ())) {
            let i = choose|i: int| 0 <= i < less.len() && less[i] == (p, ());
            assert(all[i] == (p, ()));
        }
        if is_library_at(paths.last()) {
            assert(all[less.len() as int] == (paths.last(), ()));
        }
        if all.contains((p, ())) {
            let i = choose|i: int| 0 <= i < all.len() && all[i] == (p, ());
            if i < less.len() {
                assert(less[i] == (p, ()));
            }
        }
    }
}

proof fn lemma_first_called_like(files: Seq<(Seq<char>, ())>, names: Seq<Seq<char>>)
    ensures
        first_called_like(files, names) matches Some(p) ==> files.contains((p, ())) && called_like(
            p,
            names,
        ),
        first_called_like(files, names) is None ==> forall|i: int|
            0 <= i < files.len() ==> !called_like((#[trigger] files[i]).0, names),
    decreases files.len(),
{
    if files.len() > 0 {
        assert(files[0] == (files[0].0, ()));
        let rest = files.skip(1);
        lemma_first_called_like(rest, names);
        if !called_like(files[0].0, names) {
            if let Some(p) = first_called_like(rest, names) {
                let i = choose|i: int| 0 <= i < rest.len() && rest[i] == (p, ());
                assert(files[i + 1] == (p, ()));
            } else {
                assert forall|i: int| 0 <= i < files.len() implies !called_like(
                    (#[trigger] files[i]).0,
                    names,
                ) by {
                    if i > 0 {
                        assert(rest[i - 1] == files[i]);
                    }
                }
            }
        }
    }
}

/// The library of a package is the one it declares. Where it declares none it is a library of its
/// `lib` directory, one that is called like the package where there is such a one; without any
/// there is none.
pub proof fn the_library_of_a_package(names: Seq<Seq<char>>, facts: PrefixFacts, p: Seq<char>)
    ensures
        facts.declared_library matches Some(d) ==> library_of(names, facts) == Some(normed(d@)),
        facts.declared_library is None && facts.lib_entries is None ==> library_of(names, facts)
            is None,
        facts.declared_library is None ==> (facts.lib_entries matches Some(paths) ==> {
            &&& views(paths@).contains(p) && is_library_at(p) ==> library_of(names, facts) is Some
            &&& library_of(names, facts) matches Some(l) ==> exists|q: Seq<char>|
                #[trigger] views(paths@).contains(q) && is_library_at(q) && l == normed(q)
            &&& views(paths@).contains(p) && is_library_at(p) && called_like(p, names) ==> exists|
                q: Seq<char>,
            |
                #[trigger] views(paths@).contains(q) && is_library_at(q) && called_like(q, names)
                    && library_of(names, facts) == Some(normed(q))
        }),
{
    broadcast use vstd::seq_lib::group_to_multiset_ensures;

    if facts.declared_library is None {
        if let Some(paths) = facts.lib_entries {
            let found = libraries_among(views(paths@));
            let files = path_sorted(found);
            sorting_orders_the_same_entries(found);
            lemma_first_called_like(files, names);
            lemma_libraries_among(views(paths@), p);
            assert forall|e: (Seq<char>, ())| #![trigger files.contains(e)]
                files.contains(e) <==> found.contains(e) by {
                assert(files.contains(e) <==> files.to_multiset().count(e) > 0);
                assert(found.contains(e) <==> found.to_multiset().count(e) > 0);
            }
            if found.contains((p, ())) {
                assert(files.contains((p, ())));
                let i = choose|i: int| 0 <= i < files.len() && files[i] == (p, ());
                assert(files.len() > 0);
                assert(called_like(p, names) ==> first_called_like(files, names) is Some);
            }
            if let Some(q) = first_called_like(files, names) {
                lemma_libraries_among(views(paths@), q);
                assert(found.contains((q, ())));
            } else if files.len() > 0 {
                let q = files[0].0;
                assert(files[0] == (q, ()));
                assert(files.contains((q, ())));
                lemma_libraries_among(views(paths@), q);
            }
        }
    }
}

/// Under one name a package is hinted at by its prefix, by its headers and by its library, the last
/// two only where it has them.
pub proof fn the_hints_under_a_name(
    name: Seq<char>,
    prefix: Seq<char>,
    inc: Option<Seq<char>>,
    lib: Option<Seq<char>>,
)
    ensures
        ({
            let hints = hints_under(name, prefix, inc, lib);
            &&& hints.contains((name + "_ROOT"@, prefix))
            &&& inc is Some ==> hints.contains((name + "_INCLUDE_DIR"@, inc->0))
                && hints.contains((name + "_INCLUDE_DIRS"@, inc->0))
            &&& lib is Some ==> hints.contains((name + "_LIBRARY"@, lib->0)) && hints.contains(
                (name + "_LIBRARIES"@, lib->0),
            )
            &&& hints.len() == 1 + (if inc is Some {
                2int
            } else {
                0
            }) + (if lib is Some {
                2int
            } else {
                0
            })
        }),
{
    let hints = hints_under(name, prefix, inc, lib);
    assert(hints[0] == (name + "_ROOT"@, prefix));
    let n: int = if inc is Some {
        3
    } else {
        1
    };
    if inc is Some {
        assert(hints[1] == (name + "_INCLUDE_DIR"@, inc->0));
        assert(hints[2] == (name + "_INCLUDE_DIRS"@, inc->0));
    }
    if lib is Some {
        assert(hints[n] == (name + "_LIBRARY"@, lib->0));
        assert(hints[n + 1] == (name + "_LIBRARIES"@, lib->0));
    }
}

proof fn lemma_all_hints(
    names: Seq<Seq<char>>,
    prefix: Seq<char>,
    inc: Option<Seq<char>>,
    lib: Option<Seq<char>>,
    e: (Seq<char>, Seq<char>),
)
    ensures
        all_hints(names, prefix, inc, lib).contains(e) <==> exists|i: int|
            0 <= i < names.len() && hints_under(#[trigger] names[i], prefix, inc, lib).contains(e),
    decreases names.len(),
{
    if names.len() > 0 {
        let init = names.drop_last();
        lemma_all_hints(init, prefix, inc, lib, e);
        let a = all_hints(init, prefix, inc, lib);
        let b = hints_under(names.last(), prefix, inc, lib);
        let all = all_hints(names, prefix, inc, lib);
        assert(names[names.len() - 1] == names.last());
        if a.contains(e) {
            let k = choose|k: int| 0 <= k < a.len() && a[k] == e;
            assert(all[k] == e);
            let i = choose|i: int|
                0 <= i < init.len()
                    && hints_under(#[trigger] init[i], prefix, inc, lib).contains(e);
            assert(names[i] == init[i]);
        }
        if b.contains(e) {
            let k = choose|k: int| 0 <= k < b.len() && b[k] == e;
            assert(all[a.len() + k] == e);
        }
        if all.contains(e) {
            let k = choose|k: int| 0 <= k < all.len() && all[k] == e;
            if k < a.len() {
                assert(a[k] == e);
            } else {
                assert(b[k - a.len()] == e);
            }
        }
        if exists|i: int|
            0 <= i < names.len() && hints_under(#[trigger] names[i], prefix, inc, lib).contains(e) {
            let i = choose|i: int|
                0 <= i < names.len() && hints_under(#[trigger] names[i], prefix, inc, lib).contains(
                    e,
                );
            if i < init.len() {
                assert(init[i] == names[i]);
            }
        }
    }
}

/// A package that is installed is hinted at under each of its names, with its prefix, its `include`
/// directory where that is there, and its library where it has one; a package that is not installed
/// is not hinted at.
pub proof fn an_installed_package_is_hinted_at(
    n: NodeView,
    facts: PrefixFacts,
    name: Seq<char>,
)
    requires
        hint_names(n).contains(name),
    ensures
        n.install_prefix is None ==> root_vars(n, facts).len() == 0,
        n.install_prefix matches Some(p) ==> {
            let vars = root_vars(n, facts);
            let lib = library_of(hint_names(n), facts);
            &&& vars.contains((name + "_ROOT"@, normed(p)))
            &&& facts.has_include ==> vars.contains(
                (name + "_INCLUDE_DIR"@, normed(path_join(p, "include"@))),
            ) && vars.contains((name + "_INCLUDE_DIRS"@, normed(path_join(p, "include"@))))
            &&& lib is Some ==> vars.contains((name + "_LIBRARY"@, lib->0)) && vars.contains(
                (name + "_LIBRARIES"@, lib->0),
            )
        },
{
    if let Some(p) = n.install_prefix {
        let inc = if facts.has_include {
            Some(normed(path_join(p, "include"@)))
        } else {
            None
        };
        let lib = library_of(hint_names(n), facts);
        let names = hint_names(n);
        let k = choose|k: int| 0 <= k < names.len() && names[k] == name;
        the_hints_under_a_name(name, normed(p), inc, lib);
        assert(names[k] == name);
        lemma_all_hints(names, normed(p), inc, lib, (name + "_ROOT"@, normed(p)));
        if inc is Some {
            lemma_all_hints(names, normed(p), inc, lib, (name + "_INCLUDE_DIR"@, inc->0));
            lemma_all_hints(names, normed(p), inc, lib, (name + "_INCLUDE_DIRS"@, inc->0));
        }
        if lib is Some {
            lemma_all_hints(names, normed(p), inc, lib, (name + "_LIBRARY"@, lib->0));
            lemma_all_hints(names, normed(p), inc, lib, (name + "_LIBRARIES"@, lib->0));
        }
    }
}

/// CMake searches the prefixes of the dependencies that are installed, and of no tool; programs are
/// found in the prefixes of the tools, and in their `bin` directories where these are there.
pub proof fn dependencies_are_searched_and_tools_are_run(deps: Seq<DepInput>, p: Seq<char>)
    ensures
        target_prefixes(deps).contains(p) <==> exists|i: int|
            0 <= i < deps.len() && (#[trigger] deps[i]).node@.kind == NodeKind::TargetDependency
                && deps[i].node@.install_prefix == Some(p),
        tool_dirs(deps).contains(p) <==> exists|i: int|
            0 <= i < deps.len() && (#[trigger] deps[i]).node@.kind == NodeKind::HostTool
                && deps[i].node@.install_prefix is Some && (p == deps[i].node@.install_prefix->0
                    || (
            deps[i].facts.has_bin && p == path_join(deps[i].node@.install_prefix->0, "bin"@))),
    decreases deps.len(),
{
    if deps.len() > 0 {
        let init = deps.drop_last();
        dependencies_are_searched_and_tools_are_run(init, p);
        let last = deps.last();
        assert(deps[deps.len() - 1] == last);
        let a = target_prefixes(init);
        let all = target_prefixes(deps);
        let b = tool_dirs(init);
        let both = tool_dirs(deps);
        assert forall|i: int| 0 <= i < init.len() implies #[trigger] init[i] == deps[i] by {}
        if a.contains(p) {
            let k = choose|k: int| 0 <= k < a.len() && a[k] == p;
            assert(all[k] == p);
            let i = choose|i: int|
                0 <= i < init.len() && (#[trigger] init[i]).node@.kind == NodeKind::TargetDependency
                    && init[i].node@.install_prefix == Some(p);
            assert(deps[i] == init[i]);
        }
        if all.contains(p) {
            let k = choose|k: int| 0 <= k < all.len() && all[k] == p;
            if k < a.len() {
                assert(a[k] == p);
            }
        }
        if last.node@.kind == NodeKind::TargetDependency && last.node@.install_prefix == Some(p) {
            assert(all[a.len() as int] == p);
        }
        if exists|i: int|
            0 <= i < deps.len() && (#[trigger] deps[i]).node@.kind == NodeKind::TargetDependency
                && deps[i].node@.install_prefix == Some(p) {
            let i = choose|i: int|
                0 <= i < deps.len() && (#[trigger] deps[i]).node@.kind == NodeKind::TargetDependency
                    && deps[i].node@.install_prefix == Some(p);
            if i < init.len() {
                assert(init[i] == deps[i]);
            }
        }
        if b.contains(p) {
            let k = choose|k: int| 0 <= k < b.len() && b[k] == p;
            assert(both[k] == p);
            let i = choose|i: int|
                0 <= i < init.len() && (#[trigger] init[i]).node@.kind == NodeKind::HostTool
                    && init[i].node@.install_prefix is Some && (p == init[i].node@.install_prefix->0
                    || (init[i].facts.has_bin && p == path_join(
                    init[i].node@.install_prefix->0,
                    "bin"@,
                )));
            assert(deps[i] == init[i]);
        }
        if both.contains(p) {
            let k = choose|k: int| 0 <= k < both.len() && both[k] == p;
            if k < b.len() {
                assert(b[k] == p);
            }
        }
        if last.node@.kind == NodeKind::HostTool && last.node@.install_prefix is Some {
            let q = last.node@.install_prefix->0;
            assert(both.last() == q);
            if last.facts.has_bin {
                assert(both[b.len() as int] == path_join(q, "bin"@));
            }
        }
        if exists|i: int|
            0 <= i < deps.len() && (#[trigger] deps[i]).node@.kind == NodeKind::HostTool
                && deps[i].node@.install_prefix is Some && (p == deps[i].node@.install_prefix->0
                    || (
            deps[i].facts.has_bin && p == path_join(deps[i].node@.install_prefix->0, "bin"@))) {
            let i = choose|i: int|
                0 <= i < deps.len() && (#[trigger] deps[i]).node@.kind == NodeKind::HostTool
                    && deps[i].node@.install_prefix is Some && (p == deps[i].node@.install_prefix->0
                    || (deps[i].facts.has_bin && p == path_join(
                    deps[i].node@.install_prefix->0,
                    "bin"@,
                )));
            if i < init.len() {
                assert(init[i] == deps[i]);
            }
        }
    }
}

proof fn lemma_hints_ordered(definitions: Seq<(Seq<char>, Seq<char>)>, deps: Seq<DepInput>)
    requires
        ordered(definitions),
    ensures
        ordered(with_hints(definitions, deps)),
    decreases deps.len(),
{
    if deps.len() > 0 {
        lemma_hints_ordered(definitions, deps.drop_last());
        filled_stays_ordered(
            with_hints(definitions, deps.drop_last()),
            root_vars(deps.last().node@, deps.last().facts),
        );
    }
}

/// What a package defines wins over every hint, and the hint of an earlier dependency over that of
/// a later one. Tools are not hinted at.
pub proof fn what_a_package_defines_wins_over_hints(
    definitions: Seq<(Seq<char>, Seq<char>)>,
    deps: Seq<DepInput>,
    d: DepInput,
    key: Seq<char>,
)
    requires
        ordered(definitions),
    ensures
        lookup(definitions, key) is Some ==> lookup(with_hints(definitions, deps), key) == lookup(
            definitions,
            key,
        ),
        lookup(with_hints(definitions, deps), key) is Some ==> lookup(
            with_hints(definitions, deps.push(d)),
            key,
        ) == lookup(with_hints(definitions, deps), key),
        lookup(with_hints(definitions, deps), key) is None && d.node@.kind
            == NodeKind::TargetDependency ==> lookup(with_hints(definitions, deps.push(d)), key)
            == lookup(root_vars(d.node@, d.facts), key),
        d.node@.kind == NodeKind::HostTool ==> with_hints(definitions, deps.push(d)) == with_hints(
            definitions,
            deps,
        ),
        with_hints(definitions, Seq::empty()) == definitions,
    decreases deps.len(),
{
    let all = deps.push(d);
    assert(all.drop_last() =~= deps);
    assert(all.last() == d);
    lemma_hints_ordered(definitions, deps);
    lookup_after_fill(with_hints(definitions, deps), root_vars(d.node@, d.facts), key);
    if deps.len() > 0 {
        let init = deps.drop_last();
        what_a_package_defines_wins_over_hints(definitions, init, deps.last(), key);
        assert(init.push(deps.last()) =~= deps);
    }
}

/// A package is given its own options, those of the rules in their place where both set one, and
/// hints for the rest. A build of a nested project and a probe are told which file to write.
pub proof fn what_a_package_is_given(
    n: NodeView,
    deps: Seq<DepInput>,
    mode: CmakeMode,
    key: Seq<char>,
)
    requires
        ordered(n.cmake_options),
        ordered(n.config.cmake_options),
    ensures
        ({
            let all = definitions_of(n, deps, mode);
            let told = match mode {
                CmakeMode::Build { nested_targets } => match nested_targets {
                    Some(f) => Some(("UNIDEPS_NESTED_TARGETS"@, f@)),
                    None => None,
                },
                CmakeMode::Probe(f) => Some(("UNIDEPS_NESTED_PROBE"@, f@)),
            };
            &&& told matches Some((k, f)) ==> lookup(all, k) == Some(normed(f))
            &&& told is None || (told->0).0 != key ==> {
                &&& lookup(n.config.cmake_options, key) is Some ==> lookup(all, key) == lookup(
                    n.config.cmake_options,
                    key,
                )
                &&& lookup(n.config.cmake_options, key) is None && lookup(n.cmake_options, key)
                    is Some ==> lookup(all, key) == lookup(n.cmake_options, key)
                &&& lookup(n.config.cmake_options, key) is None && lookup(n.cmake_options, key)
                    is None && deps.len() == 0 ==> lookup(all, key) is None
            }
        }),
{
    let own = merged(n.cmake_options, n.config.cmake_options);
    merged_stays_ordered(n.cmake_options, n.config.cmake_options);
    lookup_after_merge(n.cmake_options, n.config.cmake_options, key);
    lemma_hints_ordered(own, deps);
    if lookup(own, key) is Some && deps.len() > 0 {
        what_a_package_defines_wins_over_hints(own, deps, deps[0], key);
    }
    if let Some((k, v)) = mode_variable(mode) {
        lookup_after_insert(with_hints(own, deps), k, v, key);
    }
}

/// Every prefix of the dependencies counts, though it counts only once, and a dependency without a
/// prefix stays.
pub proof fn no_dependency_is_passed_over(deps: Seq<DepInput>, i: int)
    requires
        0 <= i < deps.len(),
    ensures
        deps[i].node@.install_prefix matches Some(p) ==> has_prefix_path(distinct_deps(deps), p),
        deps[i].node@.install_prefix is None ==> distinct_deps(deps).contains(deps[i]),
        distinct_deps(deps)[0] == deps[0],
    decreases deps.len(),
{
    let init = deps.drop_last();
    let less = distinct_deps(init);
    let all = distinct_deps(deps);
    let last = deps.last();
    if init.len() > 0 {
        no_dependency_is_passed_over(
            init,
            if i < init.len() {
                i
            } else {
                0
            },
        );
        if less.len() == 0 {
            no_dependency_is_passed_over(init, 0);
            assert(false);
        }
        assert(all[0] == less[0]);
        assert(init[0] == deps[0]);
    } else {
        assert(less.len() == 0);
        assert(all[0] == last);
    }
    assert forall|k: int| 0 <= k < less.len() implies all[k] == #[trigger] less[k] by {}
    if i < init.len() {
        assert(init[i] == deps[i]);
        if let Some(p) = deps[i].node@.install_prefix {
            let k = choose|k: int|
                0 <= k < less.len() && (#[trigger] less[k]).node@.install_prefix is Some
                    && same_path(less[k].node@.install_prefix->0, p);
            assert(all[k] == less[k]);
        } else {
            let k = choose|k: int| 0 <= k < less.len() && less[k] == deps[i];
            assert(all[k] == deps[i]);
        }
    } else {
        assert(deps[i] == last);
        if let Some(p) = last.node@.install_prefix {
            if !has_prefix_path(less, p) {
                assert(all[less.len() as int] == last);
            }
        } else {
            assert(all[less.len() as int] == last);
        }
    }
}

/// A library is called like a package where the package's name stands in the file's, whatever their
/// case; the `lib` in front of the package's name does not count.
pub proof fn when_a_library_is_called_like_a_package(
    p: Seq<char>,
    file: Seq<char>,
    name: Seq<char>,
)
    requires
        file_name_of(p) == Some(file),
    ensures
        called_like(p, seq![name]) <==> has_part(lower(file), without_lib(lower(name))),
        without_lib("lib"@ + name) == without_lib(name),
        !has_prefix(name, "lib"@) ==> without_lib(name) == name,
{
    reveal_strlit("lib");
    let one = seq![name];
    assert(one[0] == name);
    what_is_left_without_an_end("lib"@ + name, "lib"@, name);
    assert(("lib"@ + name).skip(3) =~= name);
}

} // verus!
