//! Recipes written in Lua: what was read of their `package` table, and the recipe that it stands
//! for.
//!
//! A `Result` in these types is what reading a value of the table as text gave; its error is the
//! message for a value that cannot be read so.
use crate::manifest::{options_of, OptionValue, OptionView};
use crate::recipe::{no_source, set_option, Recipe, RecipeSource, RecipeSourceView, RecipeView};
use crate::table::{
    inserted, inserted_stays_ordered, lookup, lookup_after_insert, ordered, Table,
};
use crate::text::{cat2, cat4, cat5, copy_list, copy_opt, opt_view, views};
use vstd::prelude::*;
use vstd::string::*;

verus! {

broadcast use vstd::string::group_string_axioms;

/// An optional text that was read from a table.
pub type TextField = Result<Option<String>, String>;

/// The table that says where a source is.
#[derive(Debug)]
pub struct LuaSourceTable {
    pub git: TextField,
    pub tag: TextField,
    pub branch: TextField,
    pub commit: TextField,
    pub url: TextField,
    pub hash: TextField,
    pub path: TextField,
}

/// What `source` holds, or what the function there gave.
#[derive(Debug)]
pub enum LuaSource {
    Missing,
    Table(LuaSourceTable),
    Failed(String),
    Other(String),
}

/// One entry of a list of names.
#[derive(Debug)]
pub enum LuaEntry {
    Text(String),
    Named(Result<String, String>),
    Failed(String),
    Other(String),
}

/// What holds a list of names, or what the function there gave.
#[derive(Debug)]
pub enum LuaNames {
    Missing,
    List(Vec<LuaEntry>),
    Failed(String),
    Other(String),
}

/// What holds a path or a list of paths.
#[derive(Debug)]
pub enum LuaPaths {
    Missing,
    List(Vec<Result<String, String>>),
    Failed(String),
    Other(String),
}

/// The value of an option. A number that is not whole is held in the text that TOML writes for it.
#[derive(Debug)]
pub enum LuaOption {
    Boolean(bool),
    Integer(i64),
    Number(String),
    Text(Result<String, String>),
    Other(String),
}

/// What `options` holds.
#[derive(Debug)]
pub enum LuaOptions {
    Missing,
    List(Vec<Result<(String, LuaOption), String>>),
    Failed(String),
}

/// The `package` table of a recipe. Paths may stand under two keys.
#[derive(Debug)]
pub struct LuaPackage {
    pub name: Result<String, String>,
    pub latest: TextField,
    pub version: TextField,
    pub strategy: TextField,
    pub abi_ignores: Result<Option<Vec<String>>, String>,
    pub import_name: TextField,
    pub source: LuaSource,
    pub dependencies: LuaNames,
    pub tools: LuaNames,
    pub include_dirs: (LuaPaths, LuaPaths),
    pub libraries: (LuaPaths, LuaPaths),
    pub binaries: (LuaPaths, LuaPaths),
    pub patches: (LuaPaths, LuaPaths),
    pub options: LuaOptions,
}

/// An optional text as a view.
pub open spec fn field(f: TextField) -> Result<Option<Seq<char>>, Seq<char>> {
    match f {
        Ok(o) => Ok(opt_view(o)),
        Err(m) => Err(m@),
    }
}

/// A text, or an error, as a view.
pub open spec fn text_result(r: Result<String, String>) -> Result<Seq<char>, Seq<char>> {
    match r {
        Ok(s) => Ok(s@),
        Err(m) => Err(m@),
    }
}

/// The version of a recipe: the one that was asked for, else its own, else its latest.
pub open spec fn version_of(
    requested: Option<Seq<char>>,
    version: Result<Option<Seq<char>>, Seq<char>>,
    latest: Option<Seq<char>>,
) -> Result<Option<Seq<char>>, Seq<char>> {
    match requested {
        Some(v) => Ok(Some(v)),
        None => match version {
            Ok(Some(v)) => Ok(Some(v)),
            Ok(None) => Ok(latest),
            Err(m) => Err(m),
        },
    }
}

/// The source in a table.
pub open spec fn source_in(t: LuaSourceTable) -> Result<RecipeSourceView, Seq<char>> {
    match (
        field(t.git),
        field(t.tag),
        field(t.branch),
        field(t.commit),
        field(t.url),
        field(t.hash),
        field(t.path),
    ) {
        (Err(m), _, _, _, _, _, _) => Err(m),
        (_, Err(m), _, _, _, _, _) => Err(m),
        (_, _, Err(m), _, _, _, _) => Err(m),
        (_, _, _, Err(m), _, _, _) => Err(m),
        (_, _, _, _, Err(m), _, _) => Err(m),
        (_, _, _, _, _, Err(m), _) => Err(m),
        (_, _, _, _, _, _, Err(m)) => Err(m),
        (Ok(git), Ok(tag), Ok(branch), Ok(commit), Ok(url), Ok(hash), Ok(path)) => Ok(
            RecipeSourceView { git, tag, branch, commit, url, hash, path },
        ),
    }
}

/// The source of a recipe.
pub open spec fn source_of(s: LuaSource) -> Result<RecipeSourceView, Seq<char>> {
    match s {
        LuaSource::Missing => Ok(no_source()),
        LuaSource::Table(t) => source_in(t),
        LuaSource::Failed(m) => Err(m@),
        LuaSource::Other(kind) => Err(
            "recipe `package.source` must be a table or function, got "@ + kind@,
        ),
    }
}

/// The name in one entry of the list under `key`.
pub open spec fn entry_name(e: LuaEntry, key: Seq<char>) -> Result<Seq<char>, Seq<char>> {
    match e {
        LuaEntry::Text(s) => Ok(s@),
        LuaEntry::Named(Ok(s)) => Ok(s@),
        LuaEntry::Named(Err(m)) => Err("entry in `"@ + key + "` needs a `name`: "@ + m@),
        LuaEntry::Failed(m) => Err(m@),
        LuaEntry::Other(kind) => Err(
            "unsupported entry type "@ + kind@ + " in `package."@ + key + "`"@,
        ),
    }
}

/// The names in the entries of a list, or the error of the first that has none.
pub open spec fn entry_names(es: Seq<LuaEntry>, key: Seq<char>) -> Result<
    Seq<Seq<char>>,
    Seq<char>,
>
    decreases es.len(),
{
    if es.len() == 0 {
        Ok(Seq::empty())
    } else {
        match entry_names(es.drop_last(), key) {
            Err(m) => Err(m),
            Ok(names) => match entry_name(es.last(), key) {
                Err(m) => Err(m),
                Ok(n) => Ok(names.push(n)),
            },
        }
    }
}

/// The names under `key`.
pub open spec fn names_under(v: LuaNames, key: Seq<char>) -> Result<Seq<Seq<char>>, Seq<char>> {
    match v {
        LuaNames::Missing => Ok(Seq::empty()),
        LuaNames::List(es) => entry_names(es@, key),
        LuaNames::Failed(m) => Err(m@),
        LuaNames::Other(kind) => Err(
            "recipe `package."@ + key + "` must be a list or function, got "@ + kind@,
        ),
    }
}

/// Texts, or the error of the first that is none.
pub open spec fn all_texts(rs: Seq<Result<String, String>>) -> Result<Seq<Seq<char>>, Seq<char>>
    decreases rs.len(),
{
    if rs.len() == 0 {
        Ok(Seq::empty())
    } else {
        match all_texts(rs.drop_last()) {
            Err(m) => Err(m),
            Ok(ts) => match rs.last() {
                Err(m) => Err(m@),
                Ok(t) => Ok(ts.push(t@)),
            },
        }
    }
}

/// The paths in a value that stands for `key`.
pub open spec fn paths_in(v: LuaPaths, key: Seq<char>) -> Result<Seq<Seq<char>>, Seq<char>> {
    match v {
        LuaPaths::Missing => Ok(Seq::empty()),
        LuaPaths::List(rs) => all_texts(rs@),
        LuaPaths::Failed(m) => Err(m@),
        LuaPaths::Other(kind) => Err(
            "recipe `package."@ + key + "` must be a string or list, got "@ + kind@,
        ),
    }
}

/// The paths under `key`, or under its other name where nothing stands there.
pub open spec fn paths_under(v: (LuaPaths, LuaPaths), key: Seq<char>) -> Result<
    Seq<Seq<char>>,
    Seq<char>,
> {
    if v.0 is Missing {
        paths_in(v.1, key)
    } else {
        paths_in(v.0, key)
    }
}

/// The value of the option `key`.
pub open spec fn option_value(v: LuaOption, key: Seq<char>) -> Result<OptionView, Seq<char>> {
    match v {
        LuaOption::Boolean(b) => Ok(OptionView::Boolean(b)),
        LuaOption::Integer(i) => Ok(OptionView::Integer(i)),
        LuaOption::Number(t) => Ok(OptionView::Other(t@)),
        LuaOption::Text(Ok(t)) => Ok(OptionView::Text(t@)),
        LuaOption::Text(Err(m)) => Err(m@),
        LuaOption::Other(kind) => Err(
            "recipe option '"@ + key + "' has unsupported type "@ + kind@,
        ),
    }
}

/// The options in a list of pairs, or the error of the first that is none.
pub open spec fn options_in(ps: Seq<Result<(String, LuaOption), String>>) -> Result<
    Seq<(Seq<char>, OptionView)>,
    Seq<char>,
>
    decreases ps.len(),
{
    if ps.len() == 0 {
        Ok(Seq::empty())
    } else {
        match options_in(ps.drop_last()) {
            Err(m) => Err(m),
            Ok(so_far) => match ps.last() {
                Err(m) => Err(m@),
                Ok((k, v)) => match option_value(v, k@) {
                    Err(m) => Err(m),
                    Ok(o) => Ok(inserted(so_far, k@, o)),
                },
            },
        }
    }
}

/// The options of a recipe.
pub open spec fn options_under(o: LuaOptions) -> Result<Seq<(Seq<char>, OptionView)>, Seq<char>> {
    match o {
        LuaOptions::Missing => Ok(Seq::empty()),
        LuaOptions::List(ps) => options_in(ps@),
        LuaOptions::Failed(m) => Err(m@),
    }
}

/// The ignores of a recipe.
pub open spec fn ignores_of(r: Result<Option<Vec<String>>, String>) -> Result<
    Seq<Seq<char>>,
    Seq<char>,
> {
    match r {
        Ok(Some(v)) => Ok(views(v@)),
        Ok(None) => Ok(Seq::empty()),
        Err(m) => Err(m@),
    }
}

/// The part of a recipe that says what it is for.
pub struct HeadView {
    pub name: Seq<char>,
    pub version: Option<Seq<char>>,
    pub latest: Option<Seq<char>>,
    pub strategy: Option<Seq<char>>,
    pub abi_ignores: Seq<Seq<char>>,
    pub import_name: Option<Seq<char>>,
}

/// What a recipe is for, or the first error in it.
pub open spec fn head_of(p: LuaPackage, requested: Option<Seq<char>>) -> Result<
    HeadView,
    Seq<char>,
> {
    match text_result(p.name) {
        Err(m) => Err("recipe `package.name` must be a string: "@ + m),
        Ok(name) => match field(p.latest) {
            Err(m) => Err(m),
            Ok(latest) => match version_of(requested, field(p.version), latest) {
                Err(m) => Err(m),
                Ok(version) => match (
                    field(p.strategy),
                    ignores_of(p.abi_ignores),
                    field(p.import_name),
                ) {
                    (Err(m), _, _) => Err(m),
                    (_, Err(m), _) => Err(m),
                    (_, _, Err(m)) => Err(m),
                    (Ok(strategy), Ok(abi_ignores), Ok(import_name)) => Ok(
                        HeadView { name, version, latest, strategy, abi_ignores, import_name },
                    ),
                },
            },
        },
    }
}

/// The lists of a recipe: what it needs and what it installs.
pub struct ListsView {
    pub dependencies: Seq<Seq<char>>,
    pub tools: Seq<Seq<char>>,
    pub include_dirs: Seq<Seq<char>>,
    pub libraries: Seq<Seq<char>>,
    pub binaries: Seq<Seq<char>>,
    pub patches: Seq<Seq<char>>,
}

/// The lists of a recipe, or the first error in them.
pub open spec fn lists_of(p: LuaPackage) -> Result<ListsView, Seq<char>> {
    match (
        names_under(p.dependencies, "dependencies"@),
        names_under(p.tools, "tools"@),
        paths_under(p.include_dirs, "include_dirs"@),
        paths_under(p.libraries, "libraries"@),
        paths_under(p.binaries, "binaries"@),
        paths_under(p.patches, "patches"@),
    ) {
        (Err(m), _, _, _, _, _) => Err(m),
        (_, Err(m), _, _, _, _) => Err(m),
        (_, _, Err(m), _, _, _) => Err(m),
        (_, _, _, Err(m), _, _) => Err(m),
        (_, _, _, _, Err(m), _) => Err(m),
        (_, _, _, _, _, Err(m)) => Err(m),
        (
            Ok(dependencies),
            Ok(tools),
            Ok(include_dirs),
            Ok(libraries),
            Ok(binaries),
            Ok(patches),
        ) => Ok(
            ListsView { dependencies, tools, include_dirs, libraries, binaries, patches },
        ),
    }
}

/// The recipe that a package table stands for, or the first error in it.
pub open spec fn recipe_of(p: LuaPackage, requested: Option<Seq<char>>) -> Result<
    RecipeView,
    Seq<char>,
> {
    match head_of(p, requested) {
        Err(m) => Err(m),
        Ok(h) => match source_of(p.source) {
            Err(m) => Err(m),
            Ok(source) => match lists_of(p) {
                Err(m) => Err(m),
                Ok(l) => match options_under(p.options) {
                    Err(m) => Err(m),
                    Ok(options) => Ok(
                        RecipeView {
                            name: h.name,
                            version: h.version,
                            latest: h.latest,
                            strategy: h.strategy,
                            source,
                            options,
                            abi_ignores: h.abi_ignores,
                            dependencies: l.dependencies,
                            tools: l.tools,
                            import_name: h.import_name,
                            include_dirs: l.include_dirs,
                            libraries: l.libraries,
                            binaries: l.binaries,
                            patches: l.patches,
                        },
                    ),
                },
            },
        },
    }
}

/// A recipe, or an error, as views.
pub open spec fn recipe_view(r: Result<Recipe, String>) -> Result<RecipeView, Seq<char>> {
    match r {
        Ok(x) => Ok(x@),
        Err(m) => Err(m@),
    }
}

/// A version that is asked for is the version of the recipe.
pub proof fn the_requested_version_is_kept(p: LuaPackage, v: Seq<char>)
    ensures
        recipe_of(p, Some(v)) matches Ok(r) ==> r.version == Some(v),
{
}

/// Lists, or an error, as views.
pub open spec fn list_result(r: Result<Vec<String>, String>) -> Result<Seq<Seq<char>>, Seq<char>> {
    match r {
        Ok(v) => Ok(views(v@)),
        Err(m) => Err(m@),
    }
}

fn copy_field(f: &TextField) -> (r: TextField)
    ensures
        field(r) == field(*f),
{
    match f {
        Ok(o) => Ok(copy_opt(o)),
        Err(m) => Err(m.clone()),
    }
}

fn name_of_entry(e: &LuaEntry, key: &str) -> (r: Result<String, String>)
    ensures
        text_result(r) == entry_name(*e, key@),
{
    match e {
        LuaEntry::Text(s) => Ok(s.clone()),
        LuaEntry::Named(n) => match n {
            Ok(s) => Ok(s.clone()),
            Err(m) => Err(cat4("entry in `", key, "` needs a `name`: ", m.as_str())),
        },
        LuaEntry::Failed(m) => Err(m.clone()),
        LuaEntry::Other(kind) => Err(
            cat5("unsupported entry type ", kind.as_str(), " in `package.", key, "`"),
        ),
    }
}

/// Names the first error of a list, if any, in all longer beginnings of it.
proof fn lemma_entry_error(es: Seq<LuaEntry>, key: Seq<char>, i: int)
    requires
        0 <= i <= es.len(),
        entry_names(es.take(i), key) is Err,
    ensures
        entry_names(es, key) == entry_names(es.take(i), key),
    decreases es.len() - i,
{
    if i < es.len() {
        assert(es.take(i + 1).drop_last() =~= es.take(i));
        lemma_entry_error(es, key, i + 1);
    } else {
        assert(es.take(i) =~= es);
    }
}

proof fn lemma_text_error(rs: Seq<Result<String, String>>, i: int)
    requires
        0 <= i <= rs.len(),
        all_texts(rs.take(i)) is Err,
    ensures
        all_texts(rs) == all_texts(rs.take(i)),
    decreases rs.len() - i,
{
    if i < rs.len() {
        assert(rs.take(i + 1).drop_last() =~= rs.take(i));
        lemma_text_error(rs, i + 1);
    } else {
        assert(rs.take(i) =~= rs);
    }
}

proof fn lemma_option_error(ps: Seq<Result<(String, LuaOption), String>>, i: int)
    requires
        0 <= i <= ps.len(),
        options_in(ps.take(i)) is Err,
    ensures
        options_in(ps) == options_in(ps.take(i)),
    decreases ps.len() - i,
{
    if i < ps.len() {
        assert(ps.take(i + 1).drop_last() =~= ps.take(i));
        lemma_option_error(ps, i + 1);
    } else {
        assert(ps.take(i) =~= ps);
    }
}

fn source_from(t: &LuaSourceTable) -> (r: Result<RecipeSource, String>)
    ensures
        match r {
            Ok(s) => source_in(*t) == Ok::<RecipeSourceView, Seq<char>>(s@),
            Err(m) => source_in(*t) == Err::<RecipeSourceView, Seq<char>>(m@),
        },
{
    let git = match copy_field(&t.git) {
        Ok(v) => v,
        Err(m) => {
            return Err(m);
        },
    };
    let tag = match copy_field(&t.tag) {
        Ok(v) => v,
        Err(m) => {
            return Err(m);
        },
    };
    let branch = match copy_field(&t.branch) {
        Ok(v) => v,
        Err(m) => {
            return Err(m);
        },
    };
    let commit = match copy_field(&t.commit) {
        Ok(v) => v,
        Err(m) => {
            return Err(m);
        },
    };
    let url = match copy_field(&t.url) {
        Ok(v) => v,
        Err(m) => {
            return Err(m);
        },
    };
    let hash = match copy_field(&t.hash) {
        Ok(v) => v,
        Err(m) => {
            return Err(m);
        },
    };
    let path = match copy_field(&t.path) {
        Ok(v) => v,
        Err(m) => {
            return Err(m);
        },
    };
    Ok(RecipeSource { git, tag, branch, commit, url, hash, path })
}

/// The names under `key`: a list, or what a function gave, of texts or tables with a name.
pub fn name_list(value: &LuaNames, key: &str) -> (r: Result<Vec<String>, String>)
    ensures
        list_result(r) == names_under(*value, key@),
{
    match value {
        LuaNames::Missing => {
            let out: Vec<String> = Vec::new();
            assert(views(out@) =~= Seq::<Seq<char>>::empty());
            Ok(out)
        },
        LuaNames::List(es) => {
            let mut out: Vec<String> = Vec::new();
            let mut i: usize = 0;
            assert(views(out@) =~= Seq::<Seq<char>>::empty());
            assert(es@.take(0) =~= Seq::<LuaEntry>::empty());
            while i < es.len()
                invariant
                    i <= es@.len(),
                    *value == LuaNames::List(*es),
                    entry_names(es@.take(i as int), key@) == Ok::<Seq<Seq<char>>, Seq<char>>(
                        views(out@),
                    ),
                decreases es@.len() - i,
            {
                assert(es@.take(i + 1).drop_last() =~= es@.take(i as int));
                let ghost before = views(out@);
                match name_of_entry(&es[i], key) {
                    Ok(n) => {
                        out.push(n);
                        assert(views(out@) =~= before.push(n@));
                    },
                    Err(m) => {
                        proof {
                            lemma_entry_error(es@, key@, i + 1);
                        }
                        return Err(m);
                    },
                }
                i = i + 1;
            }
            assert(es@.take(i as int) =~= es@);
            Ok(out)
        },
        LuaNames::Failed(m) => Err(m.clone()),
        LuaNames::Other(kind) => Err(
            cat4(
                "recipe `package.",
                key,
                "` must be a list or function, got ",
                kind.as_str(),
            ),
        ),
    }
}

fn paths_from(value: &LuaPaths, key: &str) -> (r: Result<Vec<String>, String>)
    ensures
        list_result(r) == paths_in(*value, key@),
{
    match value {
        LuaPaths::Missing => {
            let out: Vec<String> = Vec::new();
            assert(views(out@) =~= Seq::<Seq<char>>::empty());
            Ok(out)
        },
        LuaPaths::List(rs) => {
            let mut out: Vec<String> = Vec::new();
            let mut i: usize = 0;
            assert(views(out@) =~= Seq::<Seq<char>>::empty());
            assert(rs@.take(0) =~= Seq::<Result<String, String>>::empty());
            while i < rs.len()
                invariant
                    i <= rs@.len(),
                    *value == LuaPaths::List(*rs),
                    all_texts(rs@.take(i as int)) == Ok::<Seq<Seq<char>>, Seq<char>>(
                        views(out@),
                    ),
                decreases rs@.len() - i,
            {
                assert(rs@.take(i + 1).drop_last() =~= rs@.take(i as int));
                let ghost before = views(out@);
                match &rs[i] {
                    Ok(t) => {
                        let p = t.clone();
                        out.push(p);
                        assert(views(out@) =~= before.push(t@));
                    },
                    Err(m) => {
                        proof {
                            lemma_text_error(rs@, i + 1);
                        }
                        return Err(m.clone());
                    },
                }
                i = i + 1;
            }
            assert(rs@.take(i as int) =~= rs@);
            Ok(out)
        },
        LuaPaths::Failed(m) => Err(m.clone()),
        LuaPaths::Other(kind) => Err(
            cat4(
                "recipe `package.",
                key,
                "` must be a string or list, got ",
                kind.as_str(),
            ),
        ),
    }
}

/// The paths under `key`, or under its other name where nothing stands there.
pub fn path_list(value: &(LuaPaths, LuaPaths), key: &str) -> (r: Result<Vec<String>, String>)
    ensures
        list_result(r) == paths_under(*value, key@),
{
    match &value.0 {
        LuaPaths::Missing => paths_from(&value.1, key),
        _ => paths_from(&value.0, key),
    }
}

fn option_from(value: &LuaOption, key: &str) -> (r: Result<OptionValue, String>)
    ensures
        match r {
            Ok(v) => option_value(*value, key@) == Ok::<OptionView, Seq<char>>(v@),
            Err(m) => option_value(*value, key@) == Err::<OptionView, Seq<char>>(m@),
        },
{
    match value {
        LuaOption::Boolean(b) => Ok(OptionValue::Boolean(*b)),
        LuaOption::Integer(i) => Ok(OptionValue::Integer(*i)),
        LuaOption::Number(t) => Ok(OptionValue::Other(t.clone())),
        LuaOption::Text(t) => match t {
            Ok(s) => Ok(OptionValue::Text(s.clone())),
            Err(m) => Err(m.clone()),
        },
        LuaOption::Other(kind) => Err(
            cat4("recipe option '", key, "' has unsupported type ", kind.as_str()),
        ),
    }
}

fn options_from(value: &LuaOptions) -> (r: Result<Table<OptionValue>, String>)
    ensures
        match r {
            Ok(t) => options_under(*value) == Ok::<Seq<(Seq<char>, OptionView)>, Seq<char>>(
                options_of(t.pairs()),
            ) && t.wf(),
            Err(m) => options_under(*value) == Err::<Seq<(Seq<char>, OptionView)>, Seq<char>>(
                m@,
            ),
        },
{
    match value {
        LuaOptions::Missing => {
            let out: Table<OptionValue> = Table::new();
            assert(options_of(out.pairs()) =~= Seq::<(Seq<char>, OptionView)>::empty());
            Ok(out)
        },
        LuaOptions::List(ps) => {
            let mut out: Table<OptionValue> = Table::new();
            let mut i: usize = 0;
            assert(options_of(out.pairs()) =~= Seq::<(Seq<char>, OptionView)>::empty());
            assert(ps@.take(0) =~= Seq::<Result<(String, LuaOption), String>>::empty());
            while i < ps.len()
                invariant
                    i <= ps@.len(),
                    *value == LuaOptions::List(*ps),
                    out.wf(),
                    options_in(ps@.take(i as int)) == Ok::<
                        Seq<(Seq<char>, OptionView)>,
                        Seq<char>,
                    >(options_of(out.pairs())),
                decreases ps@.len() - i,
            {
                assert(ps@.take(i + 1).drop_last() =~= ps@.take(i as int));
                match &ps[i] {
                    Ok(pair) => match option_from(&pair.1, pair.0.as_str()) {
                        Ok(v) => {
                            set_option(&mut out, pair.0.clone(), v);
                        },
                        Err(m) => {
                            proof {
                                lemma_option_error(ps@, i + 1);
                            }
                            return Err(m);
                        },
                    },
                    Err(m) => {
                        proof {
                            lemma_option_error(ps@, i + 1);
                        }
                        return Err(m.clone());
                    },
                }
                i = i + 1;
            }
            assert(ps@.take(i as int) =~= ps@);
            Ok(out)
        },
        LuaOptions::Failed(m) => Err(m.clone()),
    }
}

fn head_from(package: &LuaPackage, requested_version: Option<&str>) -> (r: Result<
    Recipe,
    String,
>)
    ensures
        match r {
            Ok(h) => head_of(*package, crate::git::opt_str(requested_version)) == Ok::<
                HeadView,
                Seq<char>,
            >(
                HeadView {
                    name: h.name@,
                    version: opt_view(h.version),
                    latest: opt_view(h.latest),
                    strategy: opt_view(h.strategy),
                    abi_ignores: views(h.abi_ignores@),
                    import_name: opt_view(h.import_name),
                },
            ),
            Err(m) => head_of(*package, crate::git::opt_str(requested_version)) == Err::<
                HeadView,
                Seq<char>,
            >(m@),
        },
{
    let name = match &package.name {
        Ok(n) => n.clone(),
        Err(m) => {
            return Err(cat2("recipe `package.name` must be a string: ", m.as_str()));
        },
    };
    let latest = match copy_field(&package.latest) {
        Ok(v) => v,
        Err(m) => {
            return Err(m);
        },
    };
    let version = match package.version(requested_version) {
        Ok(v) => v,
        Err(m) => {
            return Err(m);
        },
    };
    let strategy = match copy_field(&package.strategy) {
        Ok(v) => v,
        Err(m) => {
            return Err(m);
        },
    };
    let abi_ignores = match &package.abi_ignores {
        Ok(Some(v)) => copy_list(v),
        Ok(None) => {
            let none: Vec<String> = Vec::new();
            assert(views(none@) =~= Seq::<Seq<char>>::empty());
            none
        },
        Err(m) => {
            return Err(m.clone());
        },
    };
    let import_name = match copy_field(&package.import_name) {
        Ok(v) => v,
        Err(m) => {
            return Err(m);
        },
    };
    let mut recipe = Recipe::default();
    recipe.name = name;
    recipe.version = version;
    recipe.latest = latest;
    recipe.strategy = strategy;
    recipe.abi_ignores = abi_ignores;
    recipe.import_name = import_name;
    Ok(recipe)
}

impl LuaPackage {
    /// The version of a recipe, which a function under `source` is called with.
    pub fn version(&self, requested_version: Option<&str>) -> (r: Result<
        Option<String>,
        String,
    >)
        ensures
            field(r) == match field(self.latest) {
                Ok(latest) => version_of(
                    crate::git::opt_str(requested_version),
                    field(self.version),
                    latest,
                ),
                Err(m) => Err(m),
            },
    {
        let latest = match copy_field(&self.latest) {
            Ok(v) => v,
            Err(m) => {
                return Err(m);
            },
        };
        match requested_version {
            Some(v) => Ok(Some(v.to_owned())),
            None => match copy_field(&self.version) {
                Ok(Some(v)) => Ok(Some(v)),
                Ok(None) => Ok(latest),
                Err(m) => Err(m),
            },
        }
    }

    /// The recipe that the table stands for, or the first error in it.
    pub fn recipe(&self, requested_version: Option<&str>) -> (r: Result<Recipe, String>)
        ensures
            recipe_view(r) == recipe_of(*self, crate::git::opt_str(requested_version)),
            r matches Ok(x) ==> x.options.wf(),
    {
        let mut recipe = match head_from(self, requested_version) {
            Ok(h) => h,
            Err(m) => {
                return Err(m);
            },
        };
        recipe.source = match &self.source {
            LuaSource::Missing => RecipeSource::default(),
            LuaSource::Table(t) => match source_from(t) {
                Ok(s) => s,
                Err(m) => {
                    return Err(m);
                },
            },
            LuaSource::Failed(m) => {
                return Err(m.clone());
            },
            LuaSource::Other(kind) => {
                return Err(
                    cat2(
                        "recipe `package.source` must be a table or function, got ",
                        kind.as_str(),
                    ),
                );
            },
        };
        recipe.dependencies = match name_list(&self.dependencies, "dependencies") {
            Ok(v) => v,
            Err(m) => {
                return Err(m);
            },
        };
        recipe.tools = match name_list(&self.tools, "tools") {
            Ok(v) => v,
            Err(m) => {
                return Err(m);
            },
        };
        recipe.include_dirs = match path_list(&self.include_dirs, "include_dirs") {
            Ok(v) => v,
            Err(m) => {
                return Err(m);
            },
        };
        recipe.libraries = match path_list(&self.libraries, "libraries") {
            Ok(v) => v,
            Err(m) => {
                return Err(m);
            },
        };
        recipe.binaries = match path_list(&self.binaries, "binaries") {
            Ok(v) => v,
            Err(m) => {
                return Err(m);
            },
        };
        recipe.patches = match path_list(&self.patches, "patches") {
            Ok(v) => v,
            Err(m) => {
                return Err(m);
            },
        };
        recipe.options = match options_from(&self.options) {
            Ok(o) => o,
            Err(m) => {
                return Err(m);
            },
        };
        Ok(recipe)
    }
}

// ---------------------------------------------------------------------------
// What is promised of a recipe in Lua
// ---------------------------------------------------------------------------

/// A recipe has the name, the strategy, the names to ignore, the name to import and the source that
/// its table says. Its version is the one that was asked for, else the one in the table, else the
/// latest.
pub proof fn a_recipe_says_what_its_table_says(
    p: LuaPackage,
    requested: Option<Seq<char>>,
    r: RecipeView,
)
    requires
        recipe_of(p, requested) == Ok::<RecipeView, Seq<char>>(r),
    ensures
        p.name matches Ok(name) && r.name == name@,
        p.latest matches Ok(latest) && r.latest == opt_view(latest),
        p.strategy matches Ok(strategy) && r.strategy == opt_view(strategy),
        p.import_name matches Ok(import_name) && r.import_name == opt_view(import_name),
        p.abi_ignores matches Ok(ignores) && (ignores is Some ==> r.abi_ignores == views(
            ignores->0@,
        )) && (ignores is None ==> r.abi_ignores.len() == 0),
        requested is Some ==> r.version == requested,
        requested is None ==> (p.version matches Ok(version) && (version is Some ==> r.version
            == opt_view(version)) && (version is None ==> r.version == r.latest)),
        p.source is Missing ==> r.source == no_source(),
        p.source matches LuaSource::Table(t) ==> {
            &&& field(t.git) == Ok::<Option<Seq<char>>, Seq<char>>(r.source.git)
            &&& field(t.tag) == Ok::<Option<Seq<char>>, Seq<char>>(r.source.tag)
            &&& field(t.branch) == Ok::<Option<Seq<char>>, Seq<char>>(r.source.branch)
            &&& field(t.commit) == Ok::<Option<Seq<char>>, Seq<char>>(r.source.commit)
            &&& field(t.url) == Ok::<Option<Seq<char>>, Seq<char>>(r.source.url)
            &&& field(t.hash) == Ok::<Option<Seq<char>>, Seq<char>>(r.source.hash)
            &&& field(t.path) == Ok::<Option<Seq<char>>, Seq<char>>(r.source.path)
        },
        p.source is Missing || p.source is Table,
{
}

/// A recipe has each list that its table says, and no other entries.
pub proof fn a_recipe_has_the_lists_of_its_table(
    p: LuaPackage,
    requested: Option<Seq<char>>,
    r: RecipeView,
)
    requires
        recipe_of(p, requested) == Ok::<RecipeView, Seq<char>>(r),
    ensures
        names_under(p.dependencies, "dependencies"@) == Ok::<Seq<Seq<char>>, Seq<char>>(
            r.dependencies,
        ),
        names_under(p.tools, "tools"@) == Ok::<Seq<Seq<char>>, Seq<char>>(r.tools),
        paths_under(p.include_dirs, "include_dirs"@) == Ok::<Seq<Seq<char>>, Seq<char>>(
            r.include_dirs,
        ),
        paths_under(p.libraries, "libraries"@) == Ok::<Seq<Seq<char>>, Seq<char>>(r.libraries),
        paths_under(p.binaries, "binaries"@) == Ok::<Seq<Seq<char>>, Seq<char>>(r.binaries),
        paths_under(p.patches, "patches"@) == Ok::<Seq<Seq<char>>, Seq<char>>(r.patches),
        options_under(p.options) == Ok::<Seq<(Seq<char>, OptionView)>, Seq<char>>(r.options),
{
}

/// A table in which everything can be read makes a recipe; the name is the only thing that it
/// needs.
pub proof fn a_table_that_can_be_read_makes_a_recipe(p: LuaPackage, requested: Option<Seq<char>>)
    ensures
        p.name is Ok && p.latest is Ok && p.version is Ok && p.strategy is Ok && p.abi_ignores
            is Ok && p.import_name is Ok && source_of(p.source) is Ok && names_under(
            p.dependencies,
            "dependencies"@,
        ) is Ok && names_under(p.tools, "tools"@) is Ok && paths_under(
            p.include_dirs,
            "include_dirs"@,
        ) is Ok && paths_under(p.libraries, "libraries"@) is Ok && paths_under(
            p.binaries,
            "binaries"@,
        ) is Ok && paths_under(p.patches, "patches"@) is Ok && options_under(p.options) is Ok
            ==> recipe_of(p, requested) is Ok,
        p.name matches Err(m) ==> recipe_of(p, requested) == Err::<RecipeView, Seq<char>>(
            "recipe `package.name` must be a string: "@ + m@,
        ),
        p.name is Ok && p.latest is Ok && (requested is Some || p.version is Ok) && p.strategy
            is Ok && p.abi_ignores is Ok && p.import_name is Ok ==> (p.source matches LuaSource::Other(
            kind,
        ) ==> recipe_of(p, requested) == Err::<RecipeView, Seq<char>>(
            "recipe `package.source` must be a table or function, got "@ + kind@,
        )),
        source_of(LuaSource::Missing) is Ok,
{
}

/// A list of names holds texts, or tables with a name; it gives these names in their order. A list
/// that is missing is empty.
pub proof fn a_list_gives_the_names_in_it(es: Seq<LuaEntry>, key: Seq<char>, e: LuaEntry)
    ensures
        ({
            let before = entry_names(es, key);
            let all = entry_names(es.push(e), key);
            &&& before matches Ok(names) ==> {
                &&& e matches LuaEntry::Text(s) ==> all == Ok::<Seq<Seq<char>>, Seq<char>>(
                    names.push(s@),
                )
                &&& e matches LuaEntry::Named(Ok(s)) ==> all == Ok::<Seq<Seq<char>>, Seq<char>>(
                    names.push(s@),
                )
                &&& e matches LuaEntry::Named(Err(m)) ==> all == Err::<Seq<Seq<char>>, Seq<char>>(
                    "entry in `"@ + key + "` needs a `name`: "@ + m@,
                )
                &&& e matches LuaEntry::Failed(m) ==> all == Err::<Seq<Seq<char>>, Seq<char>>(m@)
                &&& e matches LuaEntry::Other(kind) ==> all == Err::<Seq<Seq<char>>, Seq<char>>(
                    "unsupported entry type "@ + kind@ + " in `package."@ + key + "`"@,
                )
            }
            &&& before matches Err(m) ==> all == before
        }),
        entry_names(Seq::empty(), key) matches Ok(names) && names.len() == 0,
        names_under(LuaNames::Missing, key) matches Ok(names) && names.len() == 0,
{
    let all = es.push(e);
    assert(all.drop_last() =~= es);
    assert(all.last() == e);
}

/// Where a list is something else, or a function for it fails, that is the error.
pub proof fn a_list_must_be_a_list(v: LuaNames, w: LuaPaths, o: LuaPaths, key: Seq<char>)
    ensures
        v matches LuaNames::List(es) ==> names_under(v, key) == entry_names(es@, key),
        v matches LuaNames::Failed(m) ==> names_under(v, key) == Err::<Seq<Seq<char>>, Seq<char>>(
            m@,
        ),
        v matches LuaNames::Other(kind) ==> names_under(v, key) == Err::<
            Seq<Seq<char>>,
            Seq<char>,
        >("recipe `package."@ + key + "` must be a list or function, got "@ + kind@),
        w matches LuaPaths::List(rs) ==> paths_under((w, o), key) == all_texts(rs@),
        w matches LuaPaths::Failed(m) ==> paths_under((w, o), key) == Err::<
            Seq<Seq<char>>,
            Seq<char>,
        >(m@),
        w matches LuaPaths::Other(kind) ==> paths_under((w, o), key) == Err::<
            Seq<Seq<char>>,
            Seq<char>,
        >("recipe `package."@ + key + "` must be a string or list, got "@ + kind@),
        paths_under((LuaPaths::Missing, w), key) == paths_under((w, LuaPaths::Missing), key),
        paths_under((LuaPaths::Missing, LuaPaths::Missing), key) matches Ok(ps) && ps.len() == 0,
{
}

/// A list of paths gives its texts in their order, or the first error in it.
pub proof fn a_list_gives_the_paths_in_it(
    rs: Seq<Result<String, String>>,
    r: Result<String, String>,
)
    ensures
        all_texts(rs) matches Ok(ts) ==> {
            &&& r matches Ok(t) ==> all_texts(rs.push(r)) == Ok::<Seq<Seq<char>>, Seq<char>>(
                ts.push(t@),
            )
            &&& r matches Err(m) ==> all_texts(rs.push(r)) == Err::<Seq<Seq<char>>, Seq<char>>(m@)
        },
        all_texts(rs) is Err ==> all_texts(rs.push(r)) == all_texts(rs),
        all_texts(Seq::empty()) matches Ok(ts) && ts.len() == 0,
{
    let all = rs.push(r);
    assert(all.drop_last() =~= rs);
    assert(all.last() == r);
}

proof fn lemma_options_ordered(ps: Seq<Result<(String, LuaOption), String>>)
    ensures
        options_in(ps) matches Ok(o) ==> ordered(o),
    decreases ps.len(),
{
    if ps.len() > 0 {
        lemma_options_ordered(ps.drop_last());
        if let Ok(so_far) = options_in(ps.drop_last()) {
            if let Ok((k, v)) = ps.last() {
                if let Ok(o) = option_value(v, k@) {
                    inserted_stays_ordered(so_far, k@, o);
                }
            }
        }
    }
}

/// An option keeps its name and its value, the last of a name wins, and a value that no option can
/// have is an error that names the option.
pub proof fn an_option_keeps_its_value(
    ps: Seq<Result<(String, LuaOption), String>>,
    k: String,
    v: LuaOption,
    other: Seq<char>,
)
    requires
        options_in(ps) is Ok,
    ensures
        ({
            let before = options_in(ps)->Ok_0;
            let all = options_in(ps.push(Ok((k, v))));
            let set = |value: OptionView|
                all is Ok && lookup(all->Ok_0, k@) == Some(value) && (other != k@ ==> lookup(
                    all->Ok_0,
                    other,
                ) == lookup(before, other));
            &&& v matches LuaOption::Boolean(b) ==> set(OptionView::Boolean(b))
            &&& v matches LuaOption::Integer(i) ==> set(OptionView::Integer(i))
            &&& v matches LuaOption::Number(t) ==> set(OptionView::Other(t@))
            &&& v matches LuaOption::Text(Ok(t)) ==> set(OptionView::Text(t@))
            &&& v matches LuaOption::Text(Err(m)) ==> all == Err::<
                Seq<(Seq<char>, OptionView)>,
                Seq<char>,
            >(m@)
            &&& v matches LuaOption::Other(kind) ==> all == Err::<
                Seq<(Seq<char>, OptionView)>,
                Seq<char>,
            >("recipe option '"@ + k@ + "' has unsupported type "@ + kind@)
        }),
        options_under(LuaOptions::Missing) matches Ok(o) && o.len() == 0,
{
    let all = ps.push(Ok((k, v)));
    assert(all.drop_last() =~= ps);
    assert(all.last() == Ok::<(String, LuaOption), String>((k, v)));
    lemma_options_ordered(ps);
    if let Ok(o) = option_value(v, k@) {
        lookup_after_insert(options_in(ps)->Ok_0, k@, o, other);
        lookup_after_insert(options_in(ps)->Ok_0, k@, o, k@);
    }
}

} // verus!
