//! Recipes: how a package is obtained and built where its manifest entry does not say so.
use crate::manifest::{options_of, OptionValue, OptionView};
use crate::table::{lemma_inserted_seen, lookup, precedes, Table};
use crate::path::{extension, extension_of};
use crate::text::{decimal, opt_view, same, views};
use vstd::prelude::*;
use vstd::string::*;

verus! {

broadcast use vstd::string::group_string_axioms;

#[derive(Debug)]
pub struct Recipe {
    pub name: String,
    pub version: Option<String>,
    pub latest: Option<String>,
    pub strategy: Option<String>,
    pub source: RecipeSource,
    pub options: Table<OptionValue>,
    pub abi_ignores: Vec<String>,
    pub dependencies: Vec<String>,
    pub tools: Vec<String>,
    pub import_name: Option<String>,
    pub include_dirs: Vec<String>,
    pub libraries: Vec<String>,
    pub binaries: Vec<String>,
    pub patches: Vec<String>,
}

#[derive(Debug)]
pub struct RecipeSource {
    pub git: Option<String>,
    pub tag: Option<String>,
    pub branch: Option<String>,
    pub commit: Option<String>,
    pub url: Option<String>,
    pub hash: Option<String>,
    pub path: Option<String>,
}

/// A source as texts.
pub struct RecipeSourceView {
    pub git: Option<Seq<char>>,
    pub tag: Option<Seq<char>>,
    pub branch: Option<Seq<char>>,
    pub commit: Option<Seq<char>>,
    pub url: Option<Seq<char>>,
    pub hash: Option<Seq<char>>,
    pub path: Option<Seq<char>>,
}

/// A recipe as texts.
#[verifier::ext_equal]
pub struct RecipeView {
    pub name: Seq<char>,
    pub version: Option<Seq<char>>,
    pub latest: Option<Seq<char>>,
    pub strategy: Option<Seq<char>>,
    pub source: RecipeSourceView,
    pub options: Seq<(Seq<char>, OptionView)>,
    pub abi_ignores: Seq<Seq<char>>,
    pub dependencies: Seq<Seq<char>>,
    pub tools: Seq<Seq<char>>,
    pub import_name: Option<Seq<char>>,
    pub include_dirs: Seq<Seq<char>>,
    pub libraries: Seq<Seq<char>>,
    pub binaries: Seq<Seq<char>>,
    pub patches: Seq<Seq<char>>,
}

impl View for RecipeSource {
    type V = RecipeSourceView;

    open spec fn view(&self) -> RecipeSourceView {
        RecipeSourceView {
            git: opt_view(self.git),
            tag: opt_view(self.tag),
            branch: opt_view(self.branch),
            commit: opt_view(self.commit),
            url: opt_view(self.url),
            hash: opt_view(self.hash),
            path: opt_view(self.path),
        }
    }
}

impl View for Recipe {
    type V = RecipeView;

    open spec fn view(&self) -> RecipeView {
        RecipeView {
            name: self.name@,
            version: opt_view(self.version),
            latest: opt_view(self.latest),
            strategy: opt_view(self.strategy),
            source: self.source@,
            options: options_of(self.options.pairs()),
            abi_ignores: views(self.abi_ignores@),
            dependencies: views(self.dependencies@),
            tools: views(self.tools@),
            import_name: opt_view(self.import_name),
            include_dirs: views(self.include_dirs@),
            libraries: views(self.libraries@),
            binaries: views(self.binaries@),
            patches: views(self.patches@),
        }
    }
}

/// A source of which nothing is said.
pub open spec fn no_source() -> RecipeSourceView {
    RecipeSourceView {
        git: None,
        tag: None,
        branch: None,
        commit: None,
        url: None,
        hash: None,
        path: None,
    }
}

impl Default for RecipeSource {
    fn default() -> (r: Self)
        ensures
            r@ == no_source(),
    {
        RecipeSource {
            git: None,
            tag: None,
            branch: None,
            commit: None,
            url: None,
            hash: None,
            path: None,
        }
    }
}

impl Default for Recipe {
    fn default() -> (r: Self)
        ensures
            r@ == (RecipeView {
                name: Seq::empty(),
                version: None,
                latest: None,
                strategy: None,
                source: no_source(),
                options: Seq::empty(),
                abi_ignores: Seq::empty(),
                dependencies: Seq::empty(),
                tools: Seq::empty(),
                import_name: None,
                include_dirs: Seq::empty(),
                libraries: Seq::empty(),
                binaries: Seq::empty(),
                patches: Seq::empty(),
            }),
            r.options.wf(),
    {
        Recipe {
            name: String::new(),
            version: None,
            latest: None,
            strategy: None,
            source: RecipeSource::default(),
            options: Table::new(),
            abi_ignores: Vec::new(),
            dependencies: Vec::new(),
            tools: Vec::new(),
            import_name: None,
            include_dirs: Vec::new(),
            libraries: Vec::new(),
            binaries: Vec::new(),
            patches: Vec::new(),
        }
    }
}

/// A whole number in decimal digits, with a sign where it is negative.
pub open spec fn integer_text(i: i64) -> Seq<char> {
    if i < 0 {
        seq!['-'] + decimal((-(i as int)) as nat)
    } else {
        decimal(i as nat)
    }
}

/// `toml::Value::Integer(i).to_string()`: the number in decimal digits, with a minus sign in front
/// where it is negative.
#[verifier::external_body]
fn toml_integer(i: i64) -> (r: String)
    ensures
        r@ == integer_text(i),
{
    toml::Value::Integer(i).to_string()
}

/// The value of an option as CMake takes it.
pub open spec fn option_text(v: OptionView) -> Seq<char> {
    match v {
        OptionView::Boolean(true) => "ON"@,
        OptionView::Boolean(false) => "OFF"@,
        OptionView::Integer(i) => integer_text(i),
        OptionView::Text(s) => s,
        OptionView::Other(s) => s,
    }
}

/// Options as CMake takes them.
pub open spec fn option_texts(options: Seq<(Seq<char>, OptionView)>) -> Seq<(Seq<char>, Seq<char>)> {
    options.map_values(|e: (Seq<char>, OptionView)| (e.0, option_text(e.1)))
}

fn text_of_option(v: &OptionValue) -> (r: String)
    ensures
        r@ == option_text(v@),
{
    match v {
        OptionValue::Boolean(b) => if *b {
            "ON".to_owned()
        } else {
            "OFF".to_owned()
        },
        OptionValue::Integer(i) => toml_integer(*i),
        OptionValue::Text(s) => s.clone(),
        OptionValue::Other(s) => s.clone(),
    }
}

impl Recipe {
    /// The options as CMake definitions (`true` becomes `ON`).
    pub fn cmake_options(&self) -> (r: Table<String>)
        ensures
            r.texts() == option_texts(self@.options),
            self.options.wf() ==> r.wf(),
    {
        let mut out: Vec<(String, String)> = Vec::new();
        let mut i: usize = 0;
        while i < self.options.entries.len()
            invariant
                i <= self.options.entries@.len(),
                out@.len() == i,
                forall|k: int|
                    0 <= k < i ==> (#[trigger] out@[k]).0@ == self.options.entries@[k].0@
                        && out@[k].1@ == option_text(self.options.entries@[k].1@),
            decreases self.options.entries@.len() - i,
        {
            let k = self.options.entries[i].0.clone();
            let v = text_of_option(&self.options.entries[i].1);
            out.push((k, v));
            i = i + 1;
        }
        let r = Table { entries: out };
        assert(r.texts() =~= option_texts(self@.options));
        proof {
            if self.options.wf() {
                assert forall|a: int, b: int| 0 <= a < b < r.pairs().len() implies precedes(
                    #[trigger] r.pairs()[a].0,
                    #[trigger] r.pairs()[b].0,
                ) by {
                    assert(r.pairs()[a].0 == self.options.pairs()[a].0);
                    assert(r.pairs()[b].0 == self.options.pairs()[b].0);
                }
            }
        }
        r
    }
}

/// Whether a recipe is written in Lua.
pub fn is_lua(path: &str) -> (r: bool)
    ensures
        r == (extension_of(path@) == Some("lua"@)),
{
    match extension(path) {
        Some(e) => same(e.as_str(), "lua"),
        None => false,
    }
}

/// Puts an option into a table of options.
pub fn set_option(options: &mut Table<OptionValue>, key: String, value: OptionValue)
    ensures
        options_of(final(options).pairs()) == crate::table::inserted(
            options_of(old(options).pairs()),
            key@,
            value@,
        ),
        old(options).wf() ==> final(options).wf(),
{
    let ghost f = |v: OptionValue| v@;
    let ghost g = |e: (Seq<char>, OptionValue)| (e.0, f(e.1));
    let ghost before = options.pairs();
    proof {
        lemma_inserted_seen(before, key@, value, f);
        assert(options_of(before) =~= before.map_values(g));
    }
    let ghost now = crate::table::inserted(before, key@, value);
    assert(options_of(now) =~= now.map_values(g));
    options.insert(key, value);
}

/// CMake gets `ON` and `OFF` for what is true and false, a whole number in decimal digits with a
/// sign where it is below zero, and a text as it is.
pub proof fn an_option_is_given_as_cmake_reads_it(i: i64, s: Seq<char>)
    ensures
        option_text(OptionView::Boolean(true)) == "ON"@,
        option_text(OptionView::Boolean(false)) == "OFF"@,
        option_text(OptionView::Text(s)) == s,
        option_text(OptionView::Other(s)) == s,
        i >= 0 ==> option_text(OptionView::Integer(i)) == decimal(i as nat),
        i < 0 ==> option_text(OptionView::Integer(i)) == seq!['-'] + decimal((0 - i as int) as nat),
{
}

/// Every option of a recipe is given, under its own name and with its own value.
pub proof fn every_option_is_given(options: Seq<(Seq<char>, OptionView)>, key: Seq<char>)
    ensures
        lookup(option_texts(options), key) == match lookup(options, key) {
            Some(v) => Some(option_text(v)),
            None => None,
        },
    decreases options.len(),
{
    if options.len() > 0 {
        every_option_is_given(options.skip(1), key);
        assert(option_texts(options).skip(1) =~= option_texts(options.skip(1)));
        assert(option_texts(options)[0].0 == options[0].0);
    }
}

} // verus!
