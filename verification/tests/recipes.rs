use unideps::engine::LuaRecipeEngine;
use unideps::lua::{
    LuaEntry, LuaNames, LuaOption, LuaOptions, LuaPackage, LuaPaths, LuaSource, LuaSourceTable,
};
use unideps::manifest::OptionValue;
use unideps::recipe::{set_option, Recipe};
use unideps::table::Table;

fn load(code: &str, requested: Option<&str>) -> Result<Recipe, String> {
    LuaRecipeEngine::new()?.load_recipe_from_str(code, requested)
}

#[test]
fn loads_full_recipe() {
    let code = r#"
package = {
    name = "ogg",
    latest = "1.3.5",
    import_name = "Ogg",
    source = function(v) return { git = "https://github.com/xiph/ogg.git", tag = "v" .. v } end,
    dependencies = { "zlib", { name = "png" } },
    tools = function(opts) return { "nasm" } end,
    libraries = "lib/ogg",
    patches = { "fix.patch" },
    options = { BUILD_TESTING = false, LEVEL = 3 },
}
"#;
    let r = load(code, None).unwrap();
    assert_eq!(r.name, "ogg");
    assert_eq!(r.version.as_deref(), Some("1.3.5"));
    assert_eq!(r.source.tag.as_deref(), Some("v1.3.5"));
    assert_eq!(r.dependencies, vec!["zlib", "png"]);
    assert_eq!(r.tools, vec!["nasm"]);
    assert_eq!(r.libraries, vec!["lib/ogg"]);
    assert_eq!(r.patches, vec!["fix.patch"]);
    assert!(matches!(r.options.get("BUILD_TESTING"), Some(OptionValue::Boolean(false))));
    assert!(matches!(r.options.get("LEVEL"), Some(OptionValue::Integer(3))));
    assert_eq!(r.import_name.as_deref(), Some("Ogg"));
}

#[test]
fn sandbox_blocks_os_and_io() {
    assert!(load("os.execute('echo hi')", None).is_err());
    assert!(load("io.open('x', 'w')", None).is_err());
    assert!(load("require('os')", None).is_err());
    for name in unideps::engine::HIDDEN_GLOBALS {
        assert!(load(&format!("{name}()"), None).is_err());
        assert!(load(&format!("package = {{ name = type({name}) }}"), None).unwrap().name == "nil");
    }
}

#[test]
fn missing_package_is_an_error() {
    let err = load("x = 1", None).unwrap_err();
    assert!(err.contains("package"));
    assert_eq!(err, "recipe must define a global `package` table");
}

#[test]
fn the_version_that_is_asked_for_counts() {
    let code = r#"package = { name = "x", version = "2", latest = "3",
        source = function(v) return { tag = v } end }"#;
    let tag = |requested| load(code, requested).unwrap().source.tag;
    assert_eq!(tag(Some("1")).as_deref(), Some("1"));
    assert_eq!(tag(None).as_deref(), Some("2"));
    let r = load(r#"package = { name = "x" }"#, None).unwrap();
    assert_eq!((r.version, r.latest, r.strategy, r.source.git), (None, None, None, None));
}

#[test]
fn paths_stand_under_two_keys() {
    let code = r#"package = { name = "x", includes = { "a", "b" }, lib = "l", bin = { "t" },
        binaries = {}, patch = "p", abi_ignores = { "F" } }"#;
    let r = load(code, None).unwrap();
    assert_eq!(r.include_dirs, vec!["a", "b"]);
    assert_eq!(r.libraries, vec!["l"]);
    assert!(r.binaries.is_empty());
    assert_eq!(r.patches, vec!["p"]);
    assert_eq!(r.abi_ignores, vec!["F"]);
}

#[test]
fn wrong_tables_are_errors() {
    let failure = |fields: &str| load(&format!("package = {{ name = \"x\", {fields} }}"), None).unwrap_err();
    assert_eq!(
        failure("source = 5"),
        "recipe `package.source` must be a table or function, got integer"
    );
    assert_eq!(
        failure("dependencies = 'zlib'"),
        "recipe `package.dependencies` must be a list or function, got string"
    );
    assert_eq!(failure("tools = { true }"), "unsupported entry type boolean in `package.tools`");
    assert!(failure("tools = { {} }").starts_with("entry in `tools` needs a `name`: "));
    assert_eq!(
        failure("libraries = true"),
        "recipe `package.libraries` must be a string or list, got boolean"
    );
    assert_eq!(
        failure("options = { A = {} }"),
        "recipe option 'A' has unsupported type table"
    );
    assert!(failure("source = function() error('no') end").contains("no"));
    assert!(failure("tools = function() return 5 end").contains("table"));
    let err = load("package = {}", None).unwrap_err();
    assert!(err.starts_with("recipe `package.name` must be a string: "), "{err}");
}

#[test]
fn options_are_written_for_cmake() {
    let code = r#"package = { name = "x", options = { ON_ = true, OFF_ = false, N = -12, M = 7,
        BIG = 9223372036854775807, SMALL = math.mininteger, F = 0.5, S = "s t" } }"#;
    let r = load(code, None).unwrap();
    let options = r.cmake_options();
    let pairs: Vec<(&str, &str)> =
        options.entries.iter().map(|(k, v)| (k.as_str(), v.as_str())).collect();
    assert_eq!(
        pairs,
        [
            ("BIG", "9223372036854775807"),
            ("F", "0.5"),
            ("M", "7"),
            ("N", "-12"),
            ("OFF_", "OFF"),
            ("ON_", "ON"),
            ("S", "s t"),
            ("SMALL", "-9223372036854775808"),
        ]
    );
}

#[test]
fn later_options_replace_earlier_ones() {
    let mut options = Table::new();
    set_option(&mut options, "B".to_string(), OptionValue::Integer(1));
    set_option(&mut options, "A".to_string(), OptionValue::Integer(2));
    set_option(&mut options, "B".to_string(), OptionValue::Text("x".to_string()));
    let keys: Vec<&str> = options.entries.iter().map(|e| e.0.as_str()).collect();
    assert_eq!(keys, ["A", "B"]);
    assert!(matches!(options.get("B"), Some(OptionValue::Text(t)) if t == "x"));
}

#[test]
fn nothing_more_is_read_once_something_is_wrong() {
    let code = "calls = 0
        local function count() calls = calls + 1 return {} end
        package = { name = 'x', source = count, dependencies = 'zlib', tools = count }
        setmetatable(package, { __index = function(_, k) if k == 'options' then error(calls) end end })";
    let err = load(code, None).unwrap_err();
    assert_eq!(err, "recipe `package.dependencies` must be a list or function, got string");
}

#[test]
fn functions_of_a_script_are_called_once() {
    let code = "local n = 0
        package = { name = 'x', latest = 2, source = function(v) n = n + 1 return { tag = v .. '-' .. n } end,
            tools = function(t) n = n + 1 return { type(t), tostring(next(t)), 'n' .. n } end }";
    let r = load(code, None).unwrap();
    assert_eq!(r.source.tag.as_deref(), Some("2-1"));
    assert_eq!(r.tools, vec!["table", "nil", "n2"]);
}

fn whole() -> LuaPackage {
    LuaPackage {
        name: Ok("x".to_string()),
        latest: Ok(Some("2".to_string())),
        version: Ok(None),
        strategy: Ok(None),
        abi_ignores: Ok(Some(vec!["compiler".to_string()])),
        import_name: Ok(None),
        source: LuaSource::Missing,
        dependencies: LuaNames::Missing,
        tools: LuaNames::List(vec![
            LuaEntry::Text("a".to_string()),
            LuaEntry::Named(Ok("b".to_string())),
        ]),
        include_dirs: (LuaPaths::Missing, LuaPaths::List(vec![Ok("inc".to_string())])),
        libraries: (LuaPaths::List(Vec::new()), LuaPaths::List(vec![Ok("l".to_string())])),
        binaries: (LuaPaths::Missing, LuaPaths::Missing),
        patches: (LuaPaths::Missing, LuaPaths::Missing),
        options: LuaOptions::List(vec![
            Ok(("K".to_string(), LuaOption::Integer(1))),
            Ok(("K".to_string(), LuaOption::Number("0.5".to_string()))),
        ]),
    }
}

#[test]
fn a_recipe_is_what_was_read() {
    let r = whole().recipe(None).unwrap();
    assert_eq!(r.version.as_deref(), Some("2"));
    assert_eq!(r.abi_ignores, vec!["compiler"]);
    assert_eq!(r.tools, vec!["a", "b"]);
    assert_eq!(r.include_dirs, vec!["inc"]);
    assert!(r.libraries.is_empty());
    assert!(matches!(r.options.get("K"), Some(OptionValue::Other(t)) if t == "0.5"));
    assert_eq!(whole().version(Some("1")), Ok(Some("1".to_string())));
    assert_eq!(whole().recipe(Some("1")).unwrap().version.as_deref(), Some("1"));
}

#[test]
fn the_first_error_is_told() {
    let failed = |text: &str| Err(text.to_string());
    let mut p = whole();
    p.options = LuaOptions::List(vec![Err("options".to_string())]);
    assert_eq!(p.recipe(None).unwrap_err(), "options");
    p.patches = (LuaPaths::Failed("patches".to_string()), LuaPaths::Missing);
    assert_eq!(p.recipe(None).unwrap_err(), "patches");
    p.libraries = (LuaPaths::List(vec![Err("library".to_string())]), LuaPaths::Missing);
    assert_eq!(p.recipe(None).unwrap_err(), "library");
    p.tools = LuaNames::List(vec![LuaEntry::Named(failed("nameless"))]);
    assert_eq!(p.recipe(None).unwrap_err(), "entry in `tools` needs a `name`: nameless");
    p.dependencies = LuaNames::Failed("dependencies".to_string());
    assert_eq!(p.recipe(None).unwrap_err(), "dependencies");
    p.source = LuaSource::Table(LuaSourceTable {
        git: Ok(None),
        tag: Ok(None),
        branch: Err("branch".to_string()),
        commit: Ok(None),
        url: Ok(None),
        hash: Err("hash".to_string()),
        path: Ok(None),
    });
    assert_eq!(p.recipe(None).unwrap_err(), "branch");
    p.import_name = Err("import".to_string());
    assert_eq!(p.recipe(None).unwrap_err(), "import");
    p.version = Err("version".to_string());
    assert_eq!(p.recipe(None).unwrap_err(), "version");
    assert_eq!(p.recipe(Some("1")).unwrap_err(), "import");
    p.name = failed("number");
    assert_eq!(p.recipe(None).unwrap_err(), "recipe `package.name` must be a string: number");
}

#[test]
fn the_recipe_is_that_of_the_script_at_hand() {
    let engine = LuaRecipeEngine::new().unwrap();
    let first = engine.load_recipe_from_str("package = { name = 'one' }", None).unwrap();
    let second = engine.load_recipe_from_str("package = { name = 'two' }", None).unwrap();
    assert_eq!((first.name.as_str(), second.name.as_str()), ("one", "two"));
    assert!(engine.load_recipe_from_str("package = nil", None).is_err());
}

#[test]
fn scripts_have_the_libraries_of_the_sandbox_alone() {
    let has = |what: &str| load(&format!("assert({what}) package = {{ name = 'x' }}"), None).is_ok();
    assert!(has("table.concat") && has("string.rep") && has("math.floor") && has("utf8.char"));
    for gone in ["os", "io", "debug", "coroutine", "require", "load", "loadfile", "dofile"] {
        assert!(has(&format!("{gone} == nil")), "{gone}");
    }
    assert!(has("collectgarbage == nil"));
}

#[test]
fn an_entry_is_judged_before_the_next_is_read() {
    let code = r#"
local list = { false, "b" }
list[1] = setmetatable({}, { __index = function() list[3] = "c" return "a" end })
package = { name = "x", dependencies = list }
"#;
    assert_eq!(load(code, None).unwrap().dependencies, vec!["a", "b", "c"]);
}

#[test]
fn nothing_is_asked_behind_what_is_wrong() {
    let engine = LuaRecipeEngine::new().unwrap();
    let hits = |code: &str| {
        engine.load_recipe_from_str(&format!("hits = 0 {code}"), None).unwrap_err();
        let r = engine.load_recipe_from_str("package = { name = tostring(hits) }", None).unwrap();
        r.name
    };
    let count = "function() hits = hits + 1 return {} end";
    assert_eq!(
        hits(&format!("package = {{ name = 'x', dependencies = {{ false }}, tools = {count} }}")),
        "0"
    );
    assert_eq!(
        hits(&format!("package = {{ name = {{}}, source = {count}, dependencies = {count} }}")),
        "0"
    );
    let asked = "{ __index = function() hits = hits + 1 end }";
    assert_eq!(
        hits(&format!("package = {{ name = 'x', source = setmetatable({{ git = {{}} }}, {asked}) }}")),
        "0"
    );
    assert_eq!(
        hits(&format!("package = {{ name = 'x', source = {count}, tools = {count}, lib = 1 }}")),
        "2"
    );
}

#[test]
fn questions_are_asked_in_order() {
    let code = r#"
local order = {}
local function note(n) order[#order + 1] = n return { git = table.concat(order, " ") } end
package = setmetatable({ name = "x" }, { __index = function(_, k)
    if k == "source" then return function() return note("source") end end
    if k == "dependencies" then return function() note("dependencies") return { "d" } end end
    if k == "tools" then return function() note("tools") return { table.concat(order, " ") } end end
end })
"#;
    let r = load(code, None).unwrap();
    assert_eq!(r.source.git.as_deref(), Some("source"));
    assert_eq!(r.tools, vec!["source dependencies tools"]);
}
