//! What the command line and the options of packages are read with.
use crate::error::error_message;
use crate::git::opt_str;
use crate::hash::{id_of, lemma_middle, HashCalculator};
use crate::table::{lookup, Table};
use crate::target::{build_type_text, runtime_of, BuildType, VCRuntime};
use crate::text::{
    after_prefix, ascii_lower, cat3, cat4, cat5, cat7, contains, cut, decimal, decimal_text,
    decimals_differ, eq_ignore_ascii_case, equal_but_case, find, has_part, has_prefix, join,
    joined, lemma_cut_at, lemma_cut_shrinks, lemma_find_from, lemma_first_piece,
    lemma_lower_kept, lemma_no_cut, lemma_one_piece, occurs_at, pair_view, pieces, same,
    same_but_case, small_letters_forget_only_case, split, split_once, strip_prefix,
    to_ascii_lowercase, trim, trimmed, views,
};
use vstd::prelude::*;
use vstd::string::*;
use vstd::utf8::encode_utf8;

pub use crate::path::resolve_relative;

verus! {

broadcast use vstd::string::group_string_axioms;

// ---------------------------------------------------------------------------
// Switches
// ---------------------------------------------------------------------------

/// What a switch says: CMake writes `ON`/`OFF` and a few other spellings, in any case.
pub open spec fn bool_of(s: Seq<char>) -> Result<bool, Seq<char>> {
    let w = ascii_lower(trimmed(s));
    if w == "1"@ || w == "on"@ || w == "true"@ || w == "yes"@ || w == "y"@ {
        Ok(true)
    } else if w == "0"@ || w == "off"@ || w == "false"@ || w == "no"@ || w == "n"@ || w == ""@ {
        Ok(false)
    } else {
        Err("expected ON/OFF, TRUE/FALSE, YES/NO or 1/0, got '"@ + w + "'"@)
    }
}

/// CMake passes switches as `ON`/`OFF`, `TRUE`/`FALSE`, `YES`/`NO` or `1`/`0`.
pub fn parse_bool(s: &str) -> (r: Result<bool, String>)
    ensures
        match r {
            Ok(b) => bool_of(s@) == Ok::<bool, Seq<char>>(b),
            Err(m) => bool_of(s@) == Err::<bool, Seq<char>>(m@),
        },
{
    let t = trim(s);
    let l = to_ascii_lowercase(t.as_str());
    let w = l.as_str();
    if same(w, "1") || same(w, "on") || same(w, "true") || same(w, "yes") || same(w, "y") {
        Ok(true)
    } else if same(w, "0") || same(w, "off") || same(w, "false") || same(w, "no") || same(w, "n")
        || same(w, "") {
        Ok(false)
    } else {
        Err(cat3("expected ON/OFF, TRUE/FALSE, YES/NO or 1/0, got '", w, "'"))
    }
}

// ---------------------------------------------------------------------------
// The MSVC runtime
// ---------------------------------------------------------------------------

/// How an expression that depends on the build type begins.
pub const OPEN: &'static str = "$<$<CONFIG:";

/// Whether one of the configurations, which stand between commas, is `config`.
pub open spec fn names_config(configs: Seq<char>, config: Seq<char>) -> bool {
    exists|i: int|
        0 <= i < pieces(configs, ","@).len() && same_but_case(
            trimmed(#[trigger] pieces(configs, ","@)[i]),
            config,
        )
}

/// `head` and what follows it, where that can be told.
pub open spec fn ahead<E>(head: Seq<char>, rest: Result<Seq<char>, E>) -> Result<Seq<char>, E> {
    match rest {
        Ok(t) => Ok(head + t),
        Err(e) => Err(e),
    }
}

/// `s` with every `$<$<CONFIG:a,b>:value>` replaced: by the value where `config` is among the
/// configurations, else by nothing. An expression without its end is an error.
pub open spec fn for_config(s: Seq<char>, config: Seq<char>) -> Result<Seq<char>, ()>
    decreases s.len(),
{
    match cut(s, OPEN@) {
        None => Ok(s),
        Some((head, after)) => match cut(after, ">:"@) {
            None => Err(()),
            Some((configs, tail)) => match cut(tail, ">"@) {
                None => Err(()),
                Some((value, rest)) => {
                    proof {
                        reveal_strlit("$<$<CONFIG:");
                        reveal_strlit(">:");
                        reveal_strlit(">");
                        lemma_cut_shrinks(s, OPEN@);
                        lemma_cut_shrinks(after, ">:"@);
                        lemma_cut_shrinks(tail, ">"@);
                    }
                    let chosen = if names_config(configs, config) {
                        value
                    } else {
                        seq![]
                    };
                    ahead(head + chosen, for_config(rest, config))
                },
            },
        },
    }
}

/// The runtime that `raw` names for a build type.
pub open spec fn msvc_runtime_of(raw: Seq<char>, build_type: BuildType) -> Result<
    VCRuntime,
    Seq<char>,
> {
    match for_config(trimmed(raw), build_type_text(build_type)) {
        Err(_) => Err("Malformed generator expression in MSVC runtime '"@ + raw + "'"@),
        Ok(out) => if has_part(out, "$<"@) {
            Err("Unsupported generator expression in MSVC runtime '"@ + raw + "'"@)
        } else {
            match runtime_of(out) {
                Ok(rt) => Ok(rt),
                Err(e) => Err(error_message(e)),
            }
        },
    }
}

proof fn lemma_ahead_twice<E>(a: Seq<char>, b: Seq<char>, r: Result<Seq<char>, E>)
    ensures
        ahead(a, ahead(b, r)) == ahead(a + b, r),
{
    if let Ok(t) = r {
        assert(a + (b + t) =~= a + b + t);
    }
}

fn has_config(configs: &str, config: &str) -> (r: bool)
    ensures
        r == names_config(configs@, config@),
{
    proof {
        reveal_strlit(",");
    }
    let parts = split(configs, ",");
    let mut i: usize = 0;
    while i < parts.len()
        invariant
            i <= parts@.len(),
            views(parts@) == pieces(configs@, ","@),
            forall|k: int|
                0 <= k < i ==> !same_but_case(
                    trimmed(#[trigger] pieces(configs@, ","@)[k]),
                    config@,
                ),
        decreases parts@.len() - i,
    {
        let t = trim(parts[i].as_str());
        assert(pieces(configs@, ","@)[i as int] == parts@[i as int]@);
        if eq_ignore_ascii_case(t.as_str(), config) {
            return true;
        }
        i = i + 1;
    }
    false
}

fn expand_configs(s: &str, config: &str) -> (r: Result<String, ()>)
    ensures
        match r {
            Ok(t) => for_config(s@, config@) == Ok::<Seq<char>, ()>(t@),
            Err(_) => for_config(s@, config@) == Err::<Seq<char>, ()>(()),
        },
{
    let mut out = String::new();
    let mut rest = s.to_owned();
    proof {
        assert(out@ =~= Seq::<char>::empty());
        if let Ok(t) = for_config(s@, config@) {
            assert(out@ + t =~= t);
        }
    }
    loop
        invariant_except_break
            ahead(out@, for_config(rest@, config@)) == for_config(s@, config@),
        ensures
            Ok::<Seq<char>, ()>(out@) == for_config(s@, config@),
        decreases rest@.len(),
    {
        let ghost whole = rest@;
        let (head, after) = match split_once(rest.as_str(), OPEN) {
            None => {
                out.append(rest.as_str());
                break;
            },
            Some(p) => p,
        };
        let (configs, tail) = match split_once(after.as_str(), ">:") {
            None => {
                return Err(());
            },
            Some(p) => p,
        };
        let (value, next) = match split_once(tail.as_str(), ">") {
            None => {
                return Err(());
            },
            Some(p) => p,
        };
        let ghost before = out@;
        out.append(head.as_str());
        if has_config(configs.as_str(), config) {
            out.append(value.as_str());
            assert(out@ =~= before + (head@ + value@));
        } else {
            assert(out@ =~= before + (head@ + seq![]));
        }
        proof {
            reveal_strlit("$<$<CONFIG:");
            reveal_strlit(">:");
            reveal_strlit(">");
            lemma_cut_shrinks(whole, OPEN@);
            lemma_cut_shrinks(after@, ">:"@);
            lemma_cut_shrinks(tail@, ">"@);
            let chosen = if names_config(configs@, config@) {
                value@
            } else {
                seq![]
            };
            lemma_ahead_twice(before, head@ + chosen, for_config(next@, config@));
        }
        rest = next;
    }
    Ok(out)
}

/// The runtime that `CMAKE_MSVC_RUNTIME_LIBRARY` names. It is usually an expression such as
/// `MultiThreaded$<$<CONFIG:Debug>:Debug>DLL`, which is expanded for the build type.
pub fn resolve_msvc_runtime(raw: &str, build_type: BuildType) -> (r: Result<VCRuntime, String>)
    ensures
        match r {
            Ok(rt) => msvc_runtime_of(raw@, build_type) == Ok::<VCRuntime, Seq<char>>(rt),
            Err(m) => msvc_runtime_of(raw@, build_type) == Err::<VCRuntime, Seq<char>>(m@),
        },
{
    let t = trim(raw);
    let out = match expand_configs(t.as_str(), build_type.as_str()) {
        Ok(o) => o,
        Err(_) => {
            return Err(cat3("Malformed generator expression in MSVC runtime '", raw, "'"));
        },
    };
    if contains(out.as_str(), "$<") {
        return Err(cat3("Unsupported generator expression in MSVC runtime '", raw, "'"));
    }
    match VCRuntime::from_str(out.as_str()) {
        Ok(rt) => Ok(rt),
        Err(e) => Err(e.message()),
    }
}

/// A runtime without an expression is taken by its name, whatever the build type.
pub proof fn plain_runtimes_do_not_depend_on_the_build_type(raw: Seq<char>, build_type: BuildType)
    requires
        !trimmed(raw).contains('$'),
    ensures
        msvc_runtime_of(raw, build_type) == match runtime_of(trimmed(raw)) {
            Ok(rt) => Ok::<VCRuntime, Seq<char>>(rt),
            Err(e) => Err::<VCRuntime, Seq<char>>(error_message(e)),
        },
{
    let s = trimmed(raw);
    reveal_strlit("$<$<CONFIG:");
    reveal_strlit("$<");
    lemma_find_from(s, OPEN@, 0);
    lemma_find_from(s, "$<"@, 0);
    assert forall|p: Seq<char>| #![trigger find(s, p)]
        p.len() > 0 && p[0] == '$' implies find(s, p) is None by {
        lemma_find_from(s, p, 0);
        if let Some(i) = find(s, p) {
            assert(s.subrange(i, i + p.len())[0] == s[i]);
            assert(s.contains(s[i]));
        }
    }
    assert(OPEN@[0] == '$');
    assert("$<"@[0] == '$');
    assert(find(s, OPEN@) is None);
    assert(find(s, "$<"@) is None);
}

// ---------------------------------------------------------------------------
// Variables
// ---------------------------------------------------------------------------

/// The message for a reference to a variable that is not there.
pub open spec fn unset_message(from_env: bool, name: Seq<char>, value: Seq<char>) -> Seq<char> {
    if from_env {
        "Environment variable '"@ + name + "' (used in '"@ + value + "') is not set"@
    } else {
        "Variable '"@ + name + "' (used in '"@ + value
            + "') is not defined: set it in CMake before unideps_setup() or pass --cmake-args=-D"@
            + name + "=<value>"@
    }
}

/// The message for a reference without its end.
pub open spec fn unterminated_message(value: Seq<char>) -> Seq<char> {
    "Unterminated variable reference in '"@ + value + "'"@
}

/// Whether a reference, which follows a `$`, is to the environment, and what stands in it.
pub open spec fn reference_in(tail: Seq<char>) -> Option<(bool, Seq<char>)> {
    match after_prefix(tail, "ENV{"@) {
        Some(body) => Some((true, body)),
        None => match after_prefix(tail, "{"@) {
            Some(body) => Some((false, body)),
            None => None,
        },
    }
}

/// `rest` with its references replaced: `${NAME}` by a variable and `$ENV{NAME}` by a variable of
/// the environment. Any other `$` is kept. `value` is the whole text, for messages.
pub open spec fn expansion(
    rest: Seq<char>,
    value: Seq<char>,
    vars: Seq<(Seq<char>, Seq<char>)>,
    env: Seq<(Seq<char>, Seq<char>)>,
) -> Result<Seq<char>, Seq<char>>
    decreases rest.len(),
{
    match cut(rest, seq!['$']) {
        None => Ok(rest),
        Some((head, tail)) => {
            proof {
                lemma_cut_shrinks(rest, seq!['$']);
            }
            match reference_in(tail) {
                None => ahead(head + seq!['$'], expansion(tail, value, vars, env)),
                Some((from_env, body)) => match cut(body, seq!['}']) {
                    None => Err(unterminated_message(value)),
                    Some((name, after)) => {
                        proof {
                            lemma_cut_shrinks(body, seq!['}']);
                        }
                        match lookup(
                            if from_env {
                                env
                            } else {
                                vars
                            },
                            name,
                        ) {
                            None => Err(unset_message(from_env, name, value)),
                            Some(v) => ahead(head + v, expansion(after, value, vars, env)),
                        }
                    },
                },
            }
        },
    }
}

fn reference_of(tail: &str) -> (r: Option<(bool, String)>)
    ensures
        match r {
            Some((e, b)) => reference_in(tail@) == Some((e, b@)),
            None => reference_in(tail@) is None,
        },
{
    match strip_prefix(tail, "ENV{") {
        Some(b) => Some((true, b)),
        None => match strip_prefix(tail, "{") {
            Some(b) => Some((false, b)),
            None => None,
        },
    }
}

fn unset(from_env: bool, name: &str, value: &str) -> (r: String)
    ensures
        r@ == unset_message(from_env, name@, value@),
{
    if from_env {
        cat5("Environment variable '", name, "' (used in '", value, "') is not set")
    } else {
        cat7(
            "Variable '",
            name,
            "' (used in '",
            value,
            "') is not defined: set it in CMake before unideps_setup() or pass --cmake-args=-D",
            name,
            "=<value>",
        )
    }
}

/// Expands `${NAME}` (a variable of the consuming CMake project) and `$ENV{NAME}` in the value of
/// an option. Anything else, a `$` that no `{` follows among it, is kept as it is. Unknown names
/// are errors: the literal text would configure the package wrongly.
pub fn expand_vars(value: &str, vars: &Table<String>, env: &Table<String>) -> (r: Result<
    String,
    String,
>)
    ensures
        match r {
            Ok(t) => expansion(value@, value@, vars.texts(), env.texts()) == Ok::<
                Seq<char>,
                Seq<char>,
            >(t@),
            Err(m) => expansion(value@, value@, vars.texts(), env.texts()) == Err::<
                Seq<char>,
                Seq<char>,
            >(m@),
        },
{
    let mut out = String::new();
    let mut rest = value.to_owned();
    let ghost vs = vars.texts();
    let ghost es = env.texts();
    proof {
        reveal_strlit("$");
        reveal_strlit("}");
        assert("$"@ =~= seq!['$']);
        assert("}"@ =~= seq!['}']);
        assert(out@ =~= Seq::<char>::empty());
        if let Ok(t) = expansion(value@, value@, vs, es) {
            assert(out@ + t =~= t);
        }
    }
    loop
        invariant_except_break
            ahead(out@, expansion(rest@, value@, vs, es)) == expansion(value@, value@, vs, es),
        invariant
            vs == vars.texts(),
            es == env.texts(),
            "$"@ == seq!['$'],
            "}"@ == seq!['}'],
        ensures
            Ok::<Seq<char>, Seq<char>>(out@) == expansion(value@, value@, vs, es),
        decreases rest@.len(),
    {
        let ghost whole = rest@;
        let ghost before = out@;
        let (head, tail) = match split_once(rest.as_str(), "$") {
            None => {
                out.append(rest.as_str());
                break;
            },
            Some(p) => p,
        };
        proof {
            lemma_cut_shrinks(whole, seq!['$']);
        }
        out.append(head.as_str());
        match reference_of(tail.as_str()) {
            None => {
                out.append("$");
                proof {
                    assert(out@ =~= before + (head@ + seq!['$']));
                    lemma_ahead_twice(before, head@ + seq!['$'], expansion(tail@, value@, vs, es));
                }
                rest = tail;
            },
            Some((from_env, body)) => {
                let (name, after) = match split_once(body.as_str(), "}") {
                    None => {
                        return Err(cat3("Unterminated variable reference in '", value, "'"));
                    },
                    Some(p) => p,
                };
                proof {
                    lemma_cut_shrinks(body@, seq!['}']);
                }
                let found = if from_env {
                    env.text(name.as_str())
                } else {
                    vars.text(name.as_str())
                };
                match found {
                    None => {
                        return Err(unset(from_env, name.as_str(), value));
                    },
                    Some(v) => {
                        out.append(v.as_str());
                        proof {
                            assert(out@ =~= before + (head@ + v@));
                            lemma_ahead_twice(
                                before,
                                head@ + v@,
                                expansion(after@, value@, vs, es),
                            );
                        }
                    },
                }
                rest = after;
            },
        }
    }
    Ok(out)
}

/// A text without `$` is kept as it is.
pub proof fn texts_without_references_are_kept(
    value: Seq<char>,
    vars: Seq<(Seq<char>, Seq<char>)>,
    env: Seq<(Seq<char>, Seq<char>)>,
)
    requires
        !value.contains('$'),
    ensures
        expansion(value, value, vars, env) == Ok::<Seq<char>, Seq<char>>(value),
{
    lemma_no_cut(value, '$');
}

proof fn lemma_plain_reference(
    a: Seq<char>,
    name: Seq<char>,
    b: Seq<char>,
    value: Seq<char>,
    vars: Seq<(Seq<char>, Seq<char>)>,
    env: Seq<(Seq<char>, Seq<char>)>,
)
    requires
        !a.contains('$'),
        !name.contains('}'),
    ensures
        expansion(a + seq!['$'] + ("{"@ + (name + seq!['}'] + b)), value, vars, env) == match lookup(
            vars,
            name,
        ) {
            Some(v) => ahead(a + v, expansion(b, value, vars, env)),
            None => Err(unset_message(false, name, value)),
        },
{
    let body = name + seq!['}'] + b;
    let tail = "{"@ + body;
    reveal_strlit("{");
    reveal_strlit("ENV{");
    lemma_cut_at(a, '$', tail);
    lemma_cut_at(name, '}', b);
    assert(tail[0] == '{');
    assert("ENV{"@[0] == 'E');
    assert(!has_prefix(tail, "ENV{"@)) by {
        if has_prefix(tail, "ENV{"@) {
            assert(tail.subrange(0, 4)[0] == 'E');
        }
    }
    assert(tail.subrange(0, 1) =~= "{"@);
    assert(tail.skip(1) =~= body);
    assert(reference_in(tail) == Some((false, body)));
}

/// The first reference of a text, to a variable that is defined, is replaced by it; what stands
/// before it is kept, and what stands behind it is expanded in the same way.
pub proof fn defined_variables_are_replaced(
    a: Seq<char>,
    name: Seq<char>,
    b: Seq<char>,
    vars: Seq<(Seq<char>, Seq<char>)>,
    env: Seq<(Seq<char>, Seq<char>)>,
)
    requires
        !a.contains('$'),
        !name.contains('}'),
        lookup(vars, name) is Some,
    ensures
        ({
            let value = a + seq!['$'] + ("{"@ + (name + seq!['}'] + b));
            expansion(value, value, vars, env) == ahead(
                a + lookup(vars, name)->0,
                expansion(b, value, vars, env),
            )
        }),
{
    let value = a + seq!['$'] + ("{"@ + (name + seq!['}'] + b));
    lemma_plain_reference(a, name, b, value, vars, env);
}

/// A reference to a variable that is not defined is an error.
pub proof fn unknown_variables_are_errors(
    a: Seq<char>,
    name: Seq<char>,
    b: Seq<char>,
    vars: Seq<(Seq<char>, Seq<char>)>,
    env: Seq<(Seq<char>, Seq<char>)>,
)
    requires
        !a.contains('$'),
        !name.contains('}'),
        lookup(vars, name) is None,
    ensures
        ({
            let value = a + seq!['$'] + ("{"@ + (name + seq!['}'] + b));
            expansion(value, value, vars, env) == Err::<Seq<char>, Seq<char>>(
                unset_message(false, name, value),
            )
        }),
{
    let value = a + seq!['$'] + ("{"@ + (name + seq!['}'] + b));
    lemma_plain_reference(a, name, b, value, vars, env);
}

// ---------------------------------------------------------------------------
// Definitions
// ---------------------------------------------------------------------------

/// The key and the value of a definition.
pub open spec fn define_of(arg: Seq<char>) -> Option<(Seq<char>, Seq<char>)> {
    match after_prefix(arg, "-D"@) {
        None => None,
        Some(s) => match cut(s, seq!['=']) {
            None => None,
            Some((k, v)) => {
                let key = match cut(k, seq![':']) {
                    Some((a, _)) => a,
                    None => k,
                };
                if key.len() == 0 {
                    None
                } else {
                    Some((key, v))
                }
            },
        },
    }
}

/// Accepts both `-DKEY=VALUE` and `-DKEY:TYPE=VALUE`.
pub fn parse_define(arg: &str) -> (r: Option<(String, String)>)
    ensures
        pair_view(r) == define_of(arg@),
{
    proof {
        reveal_strlit("=");
        reveal_strlit(":");
        assert("="@ =~= seq!['=']);
        assert(":"@ =~= seq![':']);
    }
    let stripped = match strip_prefix(arg, "-D") {
        Some(s) => s,
        None => {
            return None;
        },
    };
    let (k, v) = match split_once(stripped.as_str(), "=") {
        Some(p) => p,
        None => {
            return None;
        },
    };
    let key = match split_once(k.as_str(), ":") {
        Some((a, _)) => a,
        None => k,
    };
    if key.unicode_len() == 0 {
        return None;
    }
    Some((key, v))
}

/// The type in a definition does not matter.
pub proof fn types_of_definitions_do_not_matter(key: Seq<char>, kind: Seq<char>, value: Seq<char>)
    requires
        key.len() > 0,
        !key.contains('='),
        !key.contains(':'),
        !kind.contains('='),
    ensures
        define_of("-D"@ + (key + seq!['='] + value)) == Some((key, value)),
        define_of("-D"@ + ((key + seq![':'] + kind) + seq!['='] + value)) == Some((key, value)),
{
    reveal_strlit("-D");
    let plain = key + seq!['='] + value;
    let k = key + seq![':'] + kind;
    let typed = k + seq!['='] + value;
    assert(("-D"@ + plain).subrange(0, 2) =~= "-D"@);
    assert(("-D"@ + plain).skip(2) =~= plain);
    assert(("-D"@ + typed).subrange(0, 2) =~= "-D"@);
    assert(("-D"@ + typed).skip(2) =~= typed);
    lemma_cut_at(key, '=', value);
    lemma_no_cut(key, ':');
    assert(!k.contains('=')) by {
        assert forall|i: int| 0 <= i < k.len() implies k[i] != '=' by {
            if i < key.len() {
                assert(key.contains(key[i]));
            } else if i > key.len() {
                assert(kind.contains(kind[i - key.len() - 1]));
            }
        }
    }
    lemma_cut_at(k, '=', value);
    lemma_cut_at(key, ':', kind);
}

// ---------------------------------------------------------------------------
// The toolchain
// ---------------------------------------------------------------------------

/// What is known of a compiler: whether its path exists as it is given, where else it was found,
/// and the size and the time of what was found, the time in seconds.
#[derive(Debug)]
pub struct CompilerFacts {
    pub exists: bool,
    pub on_path: Option<String>,
    pub len: Option<u64>,
    pub mtime: Option<u64>,
}

/// What is known of a toolchain. A toolchain file that cannot be read counts as empty.
#[derive(Debug)]
pub struct ToolchainFacts {
    pub c: CompilerFacts,
    pub cxx: CompilerFacts,
    pub toolchain_content: Vec<u8>,
}

/// The part of a fingerprint that stands for a compiler.
pub open spec fn compiler_part(label: Seq<char>, given: Seq<char>, facts: CompilerFacts) -> Seq<
    char,
> {
    let shown = if facts.exists {
        given
    } else {
        match facts.on_path {
            Some(p) => p@,
            None => given,
        }
    };
    let len: nat = match facts.len {
        Some(n) => n as nat,
        None => 0,
    };
    let mtime: nat = match facts.mtime {
        Some(n) => n as nat,
        None => 0,
    };
    label + "="@ + shown + "|"@ + decimal(len) + "|"@ + decimal(mtime)
}

/// The part of a fingerprint that stands for a toolchain file.
pub open spec fn toolchain_part(path: Seq<char>, content: Seq<u8>) -> Seq<char> {
    "toolchain="@ + path + "|"@ + id_of(content)
}

/// `part`, if there is one.
pub open spec fn part_of(part: Option<Seq<char>>) -> Seq<Seq<char>> {
    match part {
        Some(p) => seq![p],
        None => seq![],
    }
}

/// What a fingerprint is computed from.
pub open spec fn toolchain_parts(
    c: Option<Seq<char>>,
    cxx: Option<Seq<char>>,
    file: Option<Seq<char>>,
    facts: ToolchainFacts,
) -> Seq<Seq<char>> {
    part_of(
        match c {
            Some(p) => Some(compiler_part("cc"@, p, facts.c)),
            None => None,
        },
    ) + part_of(
        match cxx {
            Some(p) => Some(compiler_part("cxx"@, p, facts.cxx)),
            None => None,
        },
    ) + part_of(
        match file {
            Some(p) => Some(toolchain_part(p, facts.toolchain_content@)),
            None => None,
        },
    )
}

/// The fingerprint of a toolchain, where anything of it is given.
pub open spec fn fingerprint_of(
    c: Option<Seq<char>>,
    cxx: Option<Seq<char>>,
    file: Option<Seq<char>>,
    facts: ToolchainFacts,
) -> Option<Seq<char>> {
    let parts = toolchain_parts(c, cxx, file, facts);
    if parts.len() == 0 {
        None
    } else {
        Some(id_of(encode_utf8(joined(parts, ";"@))))
    }
}

fn describe_compiler(label: &str, given: &str, facts: &CompilerFacts) -> (r: String)
    ensures
        r@ == compiler_part(label@, given@, *facts),
{
    let shown = if facts.exists {
        given
    } else {
        match &facts.on_path {
            Some(p) => p.as_str(),
            None => given,
        }
    };
    let len = decimal_text(
        match facts.len {
            Some(n) => n,
            None => 0,
        },
    );
    let mtime = decimal_text(
        match facts.mtime {
            Some(n) => n,
            None => 0,
        },
    );
    cat7(label, "=", shown, "|", len.as_str(), "|", mtime.as_str())
}

/// A part of the build identity, so that a new compiler or an edited toolchain file asks for a
/// new build.
pub fn toolchain_fingerprint(
    c_compiler: Option<&str>,
    cxx_compiler: Option<&str>,
    toolchain_file: Option<&str>,
    facts: &ToolchainFacts,
) -> (r: Option<String>)
    ensures
        crate::text::opt_view(r) == fingerprint_of(
            opt_str(c_compiler),
            opt_str(cxx_compiler),
            opt_str(toolchain_file),
            *facts,
        ),
{
    let mut parts: Vec<String> = Vec::new();
    if let Some(c) = c_compiler {
        parts.push(describe_compiler("cc", c, &facts.c));
    }
    if let Some(c) = cxx_compiler {
        parts.push(describe_compiler("cxx", c, &facts.cxx));
    }
    if let Some(tf) = toolchain_file {
        let id = HashCalculator::short_hash_bytes(&facts.toolchain_content);
        parts.push(cat4("toolchain=", tf, "|", id.as_str()));
    }
    assert(views(parts@) =~= toolchain_parts(
        opt_str(c_compiler),
        opt_str(cxx_compiler),
        opt_str(toolchain_file),
        *facts,
    ));
    if parts.len() == 0 {
        None
    } else {
        let text = join(&parts, ";");
        Some(HashCalculator::short_hash(text.as_str()))
    }
}

/// An edited toolchain file changes what the fingerprint is computed from, whenever the digests
/// of the two contents differ.
pub proof fn an_edited_toolchain_file_shows(
    c: Option<Seq<char>>,
    cxx: Option<Seq<char>>,
    file: Seq<char>,
    x: ToolchainFacts,
    y: ToolchainFacts,
)
    requires
        x.c == y.c,
        x.cxx == y.cxx,
        id_of(x.toolchain_content@) != id_of(y.toolchain_content@),
    ensures
        joined(toolchain_parts(c, cxx, Some(file), x), ";"@) != joined(
            toolchain_parts(c, cxx, Some(file), y),
            ";"@,
        ),
{
    let px = toolchain_parts(c, cxx, Some(file), x);
    let py = toolchain_parts(c, cxx, Some(file), y);
    let ix = id_of(x.toolchain_content@);
    let iy = id_of(y.toolchain_content@);
    let head = "toolchain="@ + file + "|"@;
    assert(px.last() == head + ix);
    assert(py.last() == head + iy);
    assert(px.drop_last() =~= py.drop_last());
    if joined(px, ";"@) == joined(py, ";"@) {
        let pre = if px.len() == 1 {
            seq![]
        } else {
            joined(px.drop_last(), ";"@) + ";"@
        };
        assert(joined(px, ";"@) =~= (pre + head) + ix + seq![]);
        assert(joined(py, ";"@) =~= (pre + head) + iy + seq![]);
        lemma_middle(pre + head, ix, iy, Seq::<char>::empty());
    }
}

/// A compiler of another size or from another time changes the part of the fingerprint that
/// stands for it.
pub proof fn another_compiler_shows(
    label: Seq<char>,
    given: Seq<char>,
    x: CompilerFacts,
    y: CompilerFacts,
)
    requires
        x.exists == y.exists,
        x.on_path == y.on_path,
        x.len is Some && y.len is Some && x.mtime is Some && y.mtime is Some,
        (x.len != y.len && x.mtime == y.mtime) || (x.len == y.len && x.mtime != y.mtime),
    ensures
        compiler_part(label, given, x) != compiler_part(label, given, y),
{
    let shown = if x.exists {
        given
    } else {
        match x.on_path {
            Some(p) => p@,
            None => given,
        }
    };
    let head = label + "="@ + shown + "|"@;
    let bar = "|"@;
    let (a, b) = (decimal(x.len->0 as nat), decimal(y.len->0 as nat));
    let (s, t) = (decimal(x.mtime->0 as nat), decimal(y.mtime->0 as nat));
    if compiler_part(label, given, x) == compiler_part(label, given, y) {
        if x.len != y.len {
            assert(head + a + bar + s =~= head + a + (bar + s));
            assert(head + b + bar + s =~= head + b + (bar + s));
            lemma_middle(head, a, b, bar + s);
            decimals_differ(x.len->0 as nat, y.len->0 as nat);
        } else {
            let p = head + a + bar;
            assert(p + s =~= p + s + seq![]);
            assert(p + t =~= p + t + seq![]);
            lemma_middle(p, s, t, Seq::<char>::empty());
            decimals_differ(x.mtime->0 as nat, y.mtime->0 as nat);
        }
    }
}

// ---------------------------------------------------------------------------
// What is promised of the command line
// ---------------------------------------------------------------------------

/// The spellings of a switch, in either case and with white space around them, and no other text.
/// A blank text is off.
pub proof fn the_spellings_of_a_switch(s: Seq<char>)
    ensures
        ({
            let t = trimmed(s);
            &&& bool_of(s) == Ok::<bool, Seq<char>>(true) <==> equal_but_case(t, "on"@)
                || equal_but_case(t, "true"@) || equal_but_case(t, "yes"@)
                    || equal_but_case(t, "y"@)
                || t == "1"@
            &&& bool_of(s) == Ok::<bool, Seq<char>>(false) <==> equal_but_case(t, "off"@)
                || equal_but_case(t, "false"@) || equal_but_case(t, "no"@) || equal_but_case(
                t,
                "n"@,
            ) || t == "0"@ || t.len() == 0
        }),
{
    let t = trimmed(s);
    let w = ascii_lower(t);
    reveal_strlit("1");
    reveal_strlit("on");
    reveal_strlit("true");
    reveal_strlit("yes");
    reveal_strlit("y");
    reveal_strlit("0");
    reveal_strlit("off");
    reveal_strlit("false");
    reveal_strlit("no");
    reveal_strlit("n");
    reveal_strlit("");
    lemma_switch(t, "1"@);
    lemma_switch(t, "on"@);
    lemma_switch(t, "true"@);
    lemma_switch(t, "yes"@);
    lemma_switch(t, "y"@);
    lemma_switch(t, "0"@);
    lemma_switch(t, "off"@);
    lemma_switch(t, "false"@);
    lemma_switch(t, "no"@);
    lemma_switch(t, "n"@);
    assert(w.len() == t.len());
    if t.len() == 0 {
        assert(w =~= ""@);
    }
    if equal_but_case(t, "1"@) {
        assert(t[0] == "1"@[0]);
        assert(t =~= "1"@);
    }
    if equal_but_case(t, "0"@) {
        assert(t[0] == "0"@[0]);
        assert(t =~= "0"@);
    }
    assert("1"@.len() == 1 && "0"@.len() == 1 && "y"@.len() == 1 && "n"@.len() == 1);
    assert("1"@[0] == '1' && "0"@[0] == '0' && "y"@[0] == 'y' && "n"@[0] == 'n');
    assert("on"@.len() == 2 && "no"@.len() == 2 && "on"@[0] == 'o' && "no"@[0] == 'n');
    assert("yes"@.len() == 3 && "off"@.len() == 3 && "yes"@[0] == 'y' && "off"@[0] == 'o');
    assert("true"@.len() == 4 && "false"@.len() == 5);
}

/// A text in small letters is a word of small letters exactly where they differ in case alone.
proof fn lemma_switch(t: Seq<char>, word: Seq<char>)
    requires
        forall|i: int| 0 <= i < word.len() ==> '\0' <= #[trigger] word[i] <= '\u{7f}'
            && !('A' <= word[i] <= 'Z'),
    ensures
        ascii_lower(t) == word <==> equal_but_case(t, word),
{
    lemma_lower_kept(word);
    assert(ascii_lower(word) =~= word);
    small_letters_forget_only_case(t, word);
}

/// A text is cut at the first place where the separator stands, also where that is a word.
proof fn lemma_cut_at_word(a: Seq<char>, p: Seq<char>, b: Seq<char>)
    requires
        p.len() > 0,
        !a.contains(p[0]),
    ensures
        cut(a + p + b, p) == Some((a, b)),
{
    let s = a + p + b;
    let n = a.len() as int;
    lemma_find_from(s, p, 0);
    assert(occurs_at(s, p, n)) by {
        assert(s.subrange(n, n + p.len()) =~= p);
    }
    let i = find(s, p)->0;
    assert(find(s, p) is Some && i <= n);
    assert(i == n) by {
        if i < n {
            assert(s.subrange(i, i + p.len())[0] == s[i]);
            assert(a[i] == p[0]);
        }
    }
    assert(s.take(n) =~= a);
    assert(s.skip(n + p.len()) =~= b);
}

/// A text that is for some build types alone stands in the result exactly where the build type is
/// one of them; what stands around it stays.
pub proof fn a_text_for_some_build_types(
    head: Seq<char>,
    configs: Seq<char>,
    value: Seq<char>,
    rest: Seq<char>,
    config: Seq<char>,
)
    requires
        !head.contains('$'),
        !configs.contains('>'),
        !value.contains('>'),
        !rest.contains('$'),
    ensures
        for_config(
            head + "$<$<CONFIG:"@ + (configs + ">:"@ + (value + ">"@ + rest)),
            config,
        ) == Ok::<Seq<char>, ()>(
            if names_config(configs, config) {
                head + value + rest
            } else {
                head + rest
            },
        ),
        for_config(rest, config) == Ok::<Seq<char>, ()>(rest),
{
    reveal_strlit("$<$<CONFIG:");
    reveal_strlit(">:");
    reveal_strlit(">");
    lemma_cut_at_word(head, "$<$<CONFIG:"@, configs + ">:"@ + (value + ">"@ + rest));
    lemma_cut_at_word(configs, ">:"@, value + ">"@ + rest);
    lemma_cut_at_word(value, ">"@, rest);
    lemma_find_from(rest, "$<$<CONFIG:"@, 0);
    if let Some(i) = find(rest, "$<$<CONFIG:"@) {
        assert(rest.subrange(i, i + 11)[0] == '$');
        assert(rest.contains(rest[i]));
    }
    assert(head + value + rest =~= (head + value) + rest);
    assert((head + Seq::<char>::empty()) + rest =~= head + rest);
}

/// A list of build types has the names between its commas, whatever their case and with white space
/// around them.
pub proof fn a_list_of_build_types(a: Seq<char>, b: Seq<char>, config: Seq<char>)
    requires
        !a.contains(','),
    ensures
        names_config(a, config) <==> equal_but_case(trimmed(a), config),
        names_config(a + ","@ + b, config) <==> equal_but_case(trimmed(a), config) || names_config(
            b,
            config,
        ),
{
    reveal_strlit(",");
    assert(","@ =~= seq![',']);
    lemma_one_piece(a, ',');
    lemma_first_piece(a, ',', b);
    small_letters_forget_only_case(trimmed(a), config);
    let one = pieces(a, ","@);
    assert(one[0] == a);
    let all = pieces(a + ","@ + b, ","@);
    let rest = pieces(b, ","@);
    assert(all[0] == a);
    if names_config(b, config) {
        let i = choose|i: int|
            0 <= i < rest.len() && same_but_case(trimmed(#[trigger] rest[i]), config);
        assert(all[i + 1] == rest[i]);
    }
    if names_config(a + ","@ + b, config) {
        let i = choose|i: int|
            0 <= i < all.len() && same_but_case(trimmed(#[trigger] all[i]), config);
        if i > 0 {
            assert(rest[i - 1] == all[i]);
        }
    }
}

/// A runtime library that is named for every build type is that one, and what cannot be understood
/// is an error that shows it.
pub proof fn a_runtime_is_named_or_refused(raw: Seq<char>, build_type: BuildType)
    ensures
        msvc_runtime_of(raw, build_type) matches Ok(rt) ==> (for_config(
            trimmed(raw),
            build_type_text(build_type),
        ) matches Ok(name) && runtime_of(name) matches Ok(named) && named == rt),
        for_config(trimmed(raw), build_type_text(build_type)) is Err ==> msvc_runtime_of(
            raw,
            build_type,
        ) == Err::<VCRuntime, Seq<char>>(
            "Malformed generator expression in MSVC runtime '"@ + raw + "'"@,
        ),
        for_config(trimmed(raw), build_type_text(build_type)) matches Ok(out) ==> (has_part(
            out,
            "$<"@,
        ) ==> msvc_runtime_of(raw, build_type) == Err::<VCRuntime, Seq<char>>(
            "Unsupported generator expression in MSVC runtime '"@ + raw + "'"@,
        )),
{
}

/// A reference to the environment is replaced by what the environment says, and is an error where
/// it says nothing; what stands around it is treated as elsewhere.
pub proof fn references_to_the_environment_are_replaced(
    a: Seq<char>,
    name: Seq<char>,
    b: Seq<char>,
    vars: Seq<(Seq<char>, Seq<char>)>,
    env: Seq<(Seq<char>, Seq<char>)>,
)
    requires
        !a.contains('$'),
        !name.contains('}'),
    ensures
        ({
            let value = a + seq!['$'] + ("ENV{"@ + (name + seq!['}'] + b));
            let out = expansion(value, value, vars, env);
            &&& lookup(env, name) is None ==> out == Err::<Seq<char>, Seq<char>>(
                "Environment variable '"@ + name + "' (used in '"@ + value + "') is not set"@,
            )
            &&& lookup(env, name) is Some && !b.contains('$') ==> out == Ok::<Seq<char>, Seq<char>>(
                a + lookup(env, name)->0 + b,
            )
        }),
{
    let body = name + seq!['}'] + b;
    let tail = "ENV{"@ + body;
    let value = a + seq!['$'] + tail;
    reveal_strlit("ENV{");
    lemma_cut_at(a, '$', tail);
    lemma_cut_at(name, '}', b);
    assert(tail.take(4) =~= "ENV{"@);
    assert(tail.skip(4) =~= body);
    assert(reference_in(tail) == Some((true, body)));
    if !b.contains('$') {
        lemma_no_cut(b, '$');
        assert(expansion(b, value, vars, env) == Ok::<Seq<char>, Seq<char>>(b));
    }
}

/// A reference to a variable gives the variable's value, alone or in a text.
pub proof fn references_to_variables_are_replaced(
    a: Seq<char>,
    name: Seq<char>,
    b: Seq<char>,
    vars: Seq<(Seq<char>, Seq<char>)>,
    env: Seq<(Seq<char>, Seq<char>)>,
)
    requires
        !a.contains('$'),
        !name.contains('}'),
        !b.contains('$'),
    ensures
        ({
            let value = a + seq!['$'] + ("{"@ + (name + seq!['}'] + b));
            let out = expansion(value, value, vars, env);
            &&& lookup(vars, name) is Some ==> out == Ok::<Seq<char>, Seq<char>>(
                a + lookup(vars, name)->0 + b,
            )
            &&& lookup(vars, name) is None ==> out == Err::<Seq<char>, Seq<char>>(
                "Variable '"@ + name + "' (used in '"@ + value
                    + "') is not defined: set it in CMake before unideps_setup() or pass --cmake-args=-D"@
                    + name + "=<value>"@,
            )
        }),
{
    let value = a + seq!['$'] + ("{"@ + (name + seq!['}'] + b));
    lemma_plain_reference(a, name, b, value, vars, env);
    lemma_no_cut(b, '$');
}

/// A `$` that begins no reference stays, and a reference that does not end is an error.
pub proof fn other_signs_stay(
    a: Seq<char>,
    b: Seq<char>,
    vars: Seq<(Seq<char>, Seq<char>)>,
    env: Seq<(Seq<char>, Seq<char>)>,
)
    requires
        !a.contains('$'),
        !b.contains('$'),
    ensures
        ({
            let value = a + seq!['$'] + b;
            let begins = has_prefix(b, "{"@) || has_prefix(b, "ENV{"@);
            &&& !begins ==> expansion(value, value, vars, env) == Ok::<Seq<char>, Seq<char>>(value)
            &&& begins && !b.contains('}') ==> expansion(value, value, vars, env) == Err::<
                Seq<char>,
                Seq<char>,
            >("Unterminated variable reference in '"@ + value + "'"@)
        }),
{
    let value = a + seq!['$'] + b;
    lemma_cut_at(a, '$', b);
    lemma_no_cut(b, '$');
    assert(expansion(b, value, vars, env) == Ok::<Seq<char>, Seq<char>>(b));
    assert((a + seq!['$']) + b =~= value);
    if let Some((_, body)) = reference_in(b) {
        if !b.contains('}') {
            assert(!body.contains('}')) by {
                if body.contains('}') {
                    let i = choose|i: int| 0 <= i < body.len() && body[i] == '}';
                    assert(b[b.len() - body.len() + i] == '}');
                }
            }
            lemma_no_cut(body, '}');
        }
    }
}

/// Only `-DKEY=VALUE` defines something: without `-D`, without `=` or without a key nothing is
/// defined.
pub proof fn what_defines_nothing(arg: Seq<char>)
    ensures
        !has_prefix(arg, "-D"@) ==> define_of(arg) is None,
        !arg.contains('=') ==> define_of(arg) is None,
        define_of(arg) matches Some((k, v)) ==> k.len() > 0 && has_prefix(arg, "-D"@)
            && arg.contains('='),
{
    if has_prefix(arg, "-D"@) {
        let s = arg.skip("-D"@.len() as int);
        if let Some((k, v)) = cut(s, seq!['=']) {
            lemma_find_from(s, seq!['='], 0);
            let i = find(s, seq!['='])->0;
            assert(s.subrange(i, i + 1)[0] == '=');
            assert(arg[i + "-D"@.len()] == '=');
        }
    }
}

/// Each tool that is given counts in the fingerprint, in the order of the C compiler, the C++
/// compiler and the toolchain file; where none is given there is none.
pub proof fn every_tool_counts_in_the_fingerprint(
    c: Seq<char>,
    cxx: Seq<char>,
    file: Seq<char>,
    facts: ToolchainFacts,
)
    ensures
        toolchain_parts(Some(c), Some(cxx), Some(file), facts) == seq![
            compiler_part("cc"@, c, facts.c),
            compiler_part("cxx"@, cxx, facts.cxx),
            "toolchain="@ + file + "|"@ + id_of(facts.toolchain_content@),
        ],
        toolchain_parts(Some(c), None, None, facts) == seq![compiler_part("cc"@, c, facts.c)],
        toolchain_parts(None, Some(cxx), None, facts) == seq![compiler_part("cxx"@, cxx, facts.cxx)],
        toolchain_parts(None, None, Some(file), facts) == seq![
            "toolchain="@ + file + "|"@ + id_of(facts.toolchain_content@),
        ],
        fingerprint_of(None, None, None, facts) is None,
        fingerprint_of(Some(c), Some(cxx), Some(file), facts) == Some(
            id_of(
                encode_utf8(joined(toolchain_parts(Some(c), Some(cxx), Some(file), facts), ";"@)),
            ),
        ),
{
    assert(toolchain_parts(Some(c), Some(cxx), Some(file), facts) =~= seq![
        compiler_part("cc"@, c, facts.c),
        compiler_part("cxx"@, cxx, facts.cxx),
        "toolchain="@ + file + "|"@ + id_of(facts.toolchain_content@),
    ]);
    assert(toolchain_parts(Some(c), None, None, facts) =~= seq![compiler_part("cc"@, c, facts.c)]);
    assert(toolchain_parts(None, Some(cxx), None, facts) =~= seq![
        compiler_part("cxx"@, cxx, facts.cxx),
    ]);
    assert(toolchain_parts(None, None, Some(file), facts) =~= seq![
        "toolchain="@ + file + "|"@ + id_of(facts.toolchain_content@),
    ]);
}

/// A compiler counts by the path it is found at, its length and its time of change; what is not
/// known of it counts as zero.
pub proof fn a_compiler_counts_by_what_it_is(
    label: Seq<char>,
    given: Seq<char>,
    facts: CompilerFacts,
)
    ensures
        ({
            let path = if !facts.exists && facts.on_path is Some {
                facts.on_path->0@
            } else {
                given
            };
            let len: nat = if facts.len is Some {
                facts.len->0 as nat
            } else {
                0
            };
            let mtime: nat = if facts.mtime is Some {
                facts.mtime->0 as nat
            } else {
                0
            };
            compiler_part(label, given, facts) == label + "="@ + path + "|"@ + decimal(len) + "|"@
                + decimal(mtime)
        }),
{
}

} // verus!
