//! Target triples, build types and the runtime libraries that a build is made for.
use crate::error::{CoreError, CoreErrorView};
use crate::text::{
    after_prefix, ascii_lower, ascii_lower_char, cat2, cat5, contains, find, has_part, has_prefix,
    lemma_find_from, lemma_first_piece, lemma_lower_kept, lemma_one_piece, lower, pieces, same,
    same_but_case, split, starts_with, strip_prefix, to_lowercase, views,
    what_is_left_without_an_end,
};
use std::str::FromStr;
use vstd::prelude::*;
use vstd::string::*;
use vstd::utf8::is_ascii_chars;

verus! {

broadcast use vstd::string::group_string_axioms;

#[derive(Debug, Clone, Copy, PartialEq, Eq, Hash, Structural)]
pub enum Arch {
    X86,
    X86_64,
    Arm,
    Arm64,
    Wasm32,
    Riscv64,
}

/// The architecture that a name in lower case stands for.
pub open spec fn arch_named(n: Seq<char>) -> Option<Arch> {
    if n == "x86"@ || n == "i686"@ || n == "i386"@ {
        Some(Arch::X86)
    } else if n == "x86_64"@ || n == "amd64"@ || n == "x64"@ {
        Some(Arch::X86_64)
    } else if n == "arm"@ || n == "armv7"@ || n == "armv7a"@ {
        Some(Arch::Arm)
    } else if n == "arm64"@ || n == "aarch64"@ {
        Some(Arch::Arm64)
    } else if n == "wasm32"@ {
        Some(Arch::Wasm32)
    } else if n == "riscv64"@ {
        Some(Arch::Riscv64)
    } else {
        None
    }
}

/// The architecture in a text of any case.
pub open spec fn arch_of(s: Seq<char>) -> Result<Arch, CoreErrorView> {
    match arch_named(lower(s)) {
        Some(a) => Ok(a),
        None => Err(CoreErrorView::TargetParse("Unknown architecture: "@ + lower(s))),
    }
}

/// How an architecture is written.
pub open spec fn arch_text(a: Arch) -> Seq<char> {
    match a {
        Arch::X86 => "x86"@,
        Arch::X86_64 => "x86_64"@,
        Arch::Arm => "arm"@,
        Arch::Arm64 => "aarch64"@,
        Arch::Wasm32 => "wasm32"@,
        Arch::Riscv64 => "riscv64"@,
    }
}

/// A result with its error as a view.
pub open spec fn result_view<T>(r: Result<T, CoreError>) -> Result<T, CoreErrorView> {
    match r {
        Ok(v) => Ok(v),
        Err(e) => Err(e@),
    }
}

impl Arch {
    pub fn from_str(s: &str) -> (r: Result<Self, CoreError>)
        ensures
            result_view(r) == arch_of(s@),
            r is Ok ==> !s@.contains('!'),
    {
        let l = to_lowercase(s);
        let n = l.as_str();
        proof {
            if arch_named(n@) is Some {
                lemma_arch_names(n@);
            }
        }
        if same(n, "x86") || same(n, "i686") || same(n, "i386") {
            Ok(Arch::X86)
        } else if same(n, "x86_64") || same(n, "amd64") || same(n, "x64") {
            Ok(Arch::X86_64)
        } else if same(n, "arm") || same(n, "armv7") || same(n, "armv7a") {
            Ok(Arch::Arm)
        } else if same(n, "arm64") || same(n, "aarch64") {
            Ok(Arch::Arm64)
        } else if same(n, "wasm32") {
            Ok(Arch::Wasm32)
        } else if same(n, "riscv64") {
            Ok(Arch::Riscv64)
        } else {
            Err(CoreError::TargetParse(cat2("Unknown architecture: ", n)))
        }
    }

    pub fn as_str(&self) -> (r: &'static str)
        ensures
            r@ == arch_text(*self),
    {
        match self {
            Arch::X86 => "x86",
            Arch::X86_64 => "x86_64",
            Arch::Arm => "arm",
            Arch::Arm64 => "aarch64",
            Arch::Wasm32 => "wasm32",
            Arch::Riscv64 => "riscv64",
        }
    }
}

impl FromStr for Arch {
    type Err = CoreError;

    fn from_str(s: &str) -> Result<Self, CoreError> {
        Arch::from_str(s)
    }
}

#[derive(Debug, Clone, Copy, PartialEq, Eq, Hash, Structural)]
pub enum Os {
    Windows,
    Linux,
    Macos,
    Ios,
    Android,
    Emscripten,
}

/// The operating system that a name in lower case stands for.
pub open spec fn os_named(n: Seq<char>) -> Option<Os> {
    if n == "windows"@ || n == "win32"@ || n == "win"@ || n == "mingw32"@ || n == "mingw"@ {
        Some(Os::Windows)
    } else if n == "linux"@ {
        Some(Os::Linux)
    } else if n == "macos"@ || n == "darwin"@ || n == "osx"@ {
        Some(Os::Macos)
    } else if n == "ios"@ {
        Some(Os::Ios)
    } else if n == "android"@ {
        Some(Os::Android)
    } else if n == "emscripten"@ {
        Some(Os::Emscripten)
    } else {
        None
    }
}

/// The operating system in a text of any case.
pub open spec fn os_of(s: Seq<char>) -> Result<Os, CoreErrorView> {
    match os_named(lower(s)) {
        Some(o) => Ok(o),
        None => Err(CoreErrorView::TargetParse("Unknown OS: "@ + lower(s))),
    }
}

/// How an operating system is written.
pub open spec fn os_text(o: Os) -> Seq<char> {
    match o {
        Os::Windows => "windows"@,
        Os::Linux => "linux"@,
        Os::Macos => "macos"@,
        Os::Ios => "ios"@,
        Os::Android => "android"@,
        Os::Emscripten => "emscripten"@,
    }
}

impl Os {
    pub fn from_str(s: &str) -> (r: Result<Self, CoreError>)
        ensures
            result_view(r) == os_of(s@),
    {
        let l = to_lowercase(s);
        let n = l.as_str();
        if same(n, "windows") || same(n, "win32") || same(n, "win") || same(n, "mingw32") || same(
            n,
            "mingw",
        ) {
            Ok(Os::Windows)
        } else if same(n, "linux") {
            Ok(Os::Linux)
        } else if same(n, "macos") || same(n, "darwin") || same(n, "osx") {
            Ok(Os::Macos)
        } else if same(n, "ios") {
            Ok(Os::Ios)
        } else if same(n, "android") {
            Ok(Os::Android)
        } else if same(n, "emscripten") {
            Ok(Os::Emscripten)
        } else {
            Err(CoreError::TargetParse(cat2("Unknown OS: ", n)))
        }
    }

    pub fn as_str(&self) -> (r: &'static str)
        ensures
            r@ == os_text(*self),
    {
        match self {
            Os::Windows => "windows",
            Os::Linux => "linux",
            Os::Macos => "macos",
            Os::Ios => "ios",
            Os::Android => "android",
            Os::Emscripten => "emscripten",
        }
    }
}

impl FromStr for Os {
    type Err = CoreError;

    fn from_str(s: &str) -> Result<Self, CoreError> {
        Os::from_str(s)
    }
}

#[derive(Debug, Clone, Copy, PartialEq, Eq, Hash, Structural)]
pub enum Environment {
    Gnu,
    Musl,
    Msvc,
    AndroidEabi,
    Unset,
}

/// The environment that the last part of a triple starts with; an empty or unknown part
/// stands for none.
pub open spec fn environment_of(s: Seq<char>) -> Environment {
    if has_prefix(s, "gnu"@) {
        Environment::Gnu
    } else if has_prefix(s, "musl"@) {
        Environment::Musl
    } else if has_prefix(s, "msvc"@) {
        Environment::Msvc
    } else if has_prefix(s, "androideabi"@) || has_prefix(s, "android"@) {
        Environment::AndroidEabi
    } else {
        Environment::Unset
    }
}

/// How an environment is written.
pub open spec fn environment_text(e: Environment) -> Seq<char> {
    match e {
        Environment::Gnu => "gnu"@,
        Environment::Musl => "musl"@,
        Environment::Msvc => "msvc"@,
        Environment::AndroidEabi => "android"@,
        Environment::Unset => ""@,
    }
}

impl Environment {
    pub fn from_str(s: &str) -> (r: Result<Self, CoreError>)
        ensures
            r == Ok::<Self, CoreError>(environment_of(s@)),
    {
        if starts_with(s, "gnu") {
            Ok(Environment::Gnu)
        } else if starts_with(s, "musl") {
            Ok(Environment::Musl)
        } else if starts_with(s, "msvc") {
            Ok(Environment::Msvc)
        } else if starts_with(s, "androideabi") || starts_with(s, "android") {
            Ok(Environment::AndroidEabi)
        } else {
            Ok(Environment::Unset)
        }
    }

    pub fn as_str(&self) -> (r: &'static str)
        ensures
            r@ == environment_text(*self),
    {
        match self {
            Environment::Gnu => "gnu",
            Environment::Musl => "musl",
            Environment::Msvc => "msvc",
            Environment::AndroidEabi => "android",
            Environment::Unset => "",
        }
    }
}

impl FromStr for Environment {
    type Err = CoreError;

    fn from_str(s: &str) -> Result<Self, CoreError> {
        Environment::from_str(s)
    }
}

// ---------------------------------------------------------------------------
// Triples
// ---------------------------------------------------------------------------

#[derive(Debug, PartialEq, Eq, Hash)]
pub struct TargetTriple {
    pub raw: String,
    pub arch: Arch,
    pub vendor: String,
    pub os: Os,
    pub env: Environment,
}

/// A triple with its texts as sequences of characters.
pub struct TripleView {
    pub raw: Seq<char>,
    pub arch: Arch,
    pub vendor: Seq<char>,
    pub os: Os,
    pub env: Environment,
}

impl View for TargetTriple {
    type V = TripleView;

    open spec fn view(&self) -> TripleView {
        TripleView {
            raw: self.raw@,
            arch: self.arch,
            vendor: self.vendor@,
            os: self.os,
            env: self.env,
        }
    }
}

impl Clone for TargetTriple {
    fn clone(&self) -> (r: Self)
        ensures
            r == *self,
    {
        TargetTriple {
            raw: self.raw.clone(),
            arch: self.arch,
            vendor: self.vendor.clone(),
            os: self.os,
            env: self.env,
        }
    }
}

/// The vendor, the system and the environment among the parts of a triple.
pub open spec fn layout_of(parts: Seq<Seq<char>>) -> (Seq<char>, Seq<char>, Seq<char>) {
    if parts.len() <= 1 {
        ("unknown"@, "unknown"@, ""@)
    } else if parts.len() == 2 {
        ("unknown"@, parts[1], ""@)
    } else if parts.len() == 3 {
        if parts[1] == "apple"@ {
            ("apple"@, parts[2], ""@)
        } else if parts[1] == "linux"@ {
            ("unknown"@, parts[1], parts[2])
        } else {
            (parts[1], parts[2], ""@)
        }
    } else {
        (parts[1], parts[2], parts[3])
    }
}

/// The message for a triple whose system is not known.
pub open spec fn unknown_os_message(os: Seq<char>, triple: Seq<char>) -> Seq<char> {
    "Unknown OS '"@ + os + "' in target triple '"@ + triple
        + "' (supported: windows, linux, darwin/macos, ios, android, emscripten)"@
}

/// The triple that a text stands for.
pub open spec fn triple_of(s: Seq<char>) -> Result<TripleView, CoreErrorView> {
    let parts = pieces(s, "-"@);
    let (vendor, os_part, env_part) = layout_of(parts);
    let env = environment_of(env_part);
    let mingw = has_prefix(lower(os_part), "mingw"@);
    match arch_of(parts[0]) {
        Err(e) => Err(e),
        Ok(arch) => if env == Environment::AndroidEabi || has_part(lower(s), "android"@) {
            Ok(
                TripleView {
                    raw: s,
                    arch,
                    vendor,
                    os: if mingw {
                        Os::Windows
                    } else {
                        Os::Android
                    },
                    env: if mingw {
                        Environment::Gnu
                    } else {
                        env
                    },
                },
            )
        } else {
            match os_of(os_part) {
                Err(_) => Err(CoreErrorView::TargetParse(unknown_os_message(os_part, s))),
                Ok(os) => Ok(
                    TripleView {
                        raw: s,
                        arch,
                        vendor,
                        os: if mingw {
                            Os::Windows
                        } else {
                            os
                        },
                        env: if mingw {
                            Environment::Gnu
                        } else {
                            env
                        },
                    },
                ),
            }
        },
    }
}

/// A parsed triple, or the error, as views.
pub open spec fn parsed_view(r: Result<TargetTriple, CoreError>) -> Result<
    TripleView,
    CoreErrorView,
> {
    match r {
        Ok(t) => Ok(t@),
        Err(e) => Err(e@),
    }
}

fn layout(parts: &Vec<String>) -> (r: (String, String, String))
    requires
        parts@.len() > 0,
    ensures
        (r.0@, r.1@, r.2@) == layout_of(views(parts@)),
{
    if parts.len() == 1 {
        ("unknown".to_owned(), "unknown".to_owned(), "".to_owned())
    } else if parts.len() == 2 {
        ("unknown".to_owned(), parts[1].clone(), "".to_owned())
    } else if parts.len() == 3 {
        if same(parts[1].as_str(), "apple") {
            ("apple".to_owned(), parts[2].clone(), "".to_owned())
        } else if same(parts[1].as_str(), "linux") {
            ("unknown".to_owned(), parts[1].clone(), parts[2].clone())
        } else {
            (parts[1].clone(), parts[2].clone(), "".to_owned())
        }
    } else {
        (parts[1].clone(), parts[2].clone(), parts[3].clone())
    }
}

proof fn lemma_mark_in_first_part(s: Seq<char>)
    requires
        is_negated(s),
    ensures
        pieces(s, "-"@)[0].contains('!'),
{
    reveal_strlit("-");
    reveal_strlit("!");
    assert("!"@ =~= seq!['!']);
    assert(s.take(1)[0] == '!');
    lemma_find_from(s, "-"@, 0);
    if let Some(i) = find(s, "-"@) {
        assert(s.subrange(i, i + 1)[0] == '-');
        assert(i > 0);
        assert(s.take(i)[0] == '!');
    }
    assert(pieces(s, "-"@)[0][0] == '!');
}

impl TargetTriple {
    /// The triple in a text. None starts with the mark that negates a filter.
    pub fn from_str(s: &str) -> (r: Result<Self, CoreError>)
        ensures
            parsed_view(r) == triple_of(s@),
            r is Ok ==> !is_negated(s@),
    {
        proof {
            reveal_strlit("-");
            if is_negated(s@) {
                lemma_mark_in_first_part(s@);
            }
        }
        let parts = split(s, "-");
        assert(views(parts@)[0] == parts@[0]@);
        let arch = match Arch::from_str(parts[0].as_str()) {
            Ok(a) => a,
            Err(e) => {
                return Err(e);
            },
        };
        let (vendor, os_part, env_part) = layout(&parts);
        let mut env = match Environment::from_str(env_part.as_str()) {
            Ok(e) => e,
            Err(e) => {
                return Err(e);
            },
        };
        let os_lower = to_lowercase(os_part.as_str());
        let all_lower = to_lowercase(s);
        let mut os = if env == Environment::AndroidEabi || contains(all_lower.as_str(), "android") {
            Os::Android
        } else {
            match Os::from_str(os_part.as_str()) {
                Ok(o) => o,
                Err(_) => {
                    return Err(
                        CoreError::TargetParse(
                            cat5(
                                "Unknown OS '",
                                os_part.as_str(),
                                "' in target triple '",
                                s,
                                "' (supported: windows, linux, darwin/macos, ios, android, emscripten)",
                            ),
                        ),
                    );
                },
            }
        };
        if starts_with(os_lower.as_str(), "mingw") {
            os = Os::Windows;
            env = Environment::Gnu;
        }
        Ok(TargetTriple { raw: s.to_owned(), arch, vendor, os, env })
    }
}

impl FromStr for TargetTriple {
    type Err = CoreError;

    fn from_str(s: &str) -> Result<Self, CoreError> {
        TargetTriple::from_str(s)
    }
}

// ---------------------------------------------------------------------------
// Platform filters
// ---------------------------------------------------------------------------

/// Whether a filter is negated, and its rule in small letters.
pub open spec fn filter_parts(filter: Seq<char>) -> (bool, Seq<char>) {
    match after_prefix(filter, "!"@) {
        Some(rule) => (true, lower(rule)),
        None => (false, lower(filter)),
    }
}

/// Whether a rule names the system, the architecture, the environment or the whole of `t`.
pub open spec fn rule_matches(t: TripleView, rule: Seq<char>) -> bool {
    if rule == "windows"@ || rule == "win"@ {
        t.os == Os::Windows
    } else if rule == "linux"@ {
        t.os == Os::Linux
    } else if rule == "macos"@ || rule == "darwin"@ || rule == "osx"@ {
        t.os == Os::Macos
    } else if rule == "ios"@ {
        t.os == Os::Ios
    } else if rule == "android"@ {
        t.os == Os::Android
    } else if rule == "emscripten"@ {
        t.os == Os::Emscripten
    } else if rule == "x86_64"@ {
        t.arch == Arch::X86_64
    } else if rule == "aarch64"@ || rule == "arm64"@ {
        t.arch == Arch::Arm64
    } else if rule == "arm"@ {
        t.arch == Arch::Arm
    } else if rule == "x86"@ {
        t.arch == Arch::X86
    } else if rule == "wasm32"@ {
        t.arch == Arch::Wasm32
    } else if rule == "riscv64"@ {
        t.arch == Arch::Riscv64
    } else if rule == "msvc"@ {
        t.env == Environment::Msvc
    } else if rule == "gnu"@ {
        t.env == Environment::Gnu
    } else if rule == "musl"@ {
        t.env == Environment::Musl
    } else {
        rule == lower(t.raw)
    }
}

/// Whether `t` passes one filter.
pub open spec fn filter_holds(t: TripleView, filter: Seq<char>) -> bool {
    let (negated, rule) = filter_parts(filter);
    rule_matches(t, rule) != negated
}

/// Whether a filter is negated.
pub open spec fn is_negated(filter: Seq<char>) -> bool {
    has_prefix(filter, "!"@)
}

/// Whether `t` passes a list of filters: every negated one holds, and where there are others,
/// one of them does.
pub open spec fn filters_hold(t: TripleView, filters: Seq<Seq<char>>) -> bool {
    &&& forall|i: int|
        0 <= i < filters.len() && is_negated(#[trigger] filters[i]) ==> filter_holds(t, filters[i])
    &&& (exists|i: int| 0 <= i < filters.len() && !is_negated(#[trigger] filters[i])) ==> (exists|
        i: int,
    |
        0 <= i < filters.len() && !is_negated(#[trigger] filters[i]) && filter_holds(t, filters[i]))
}

/// A negated filter holds exactly where the filter itself does not.
pub proof fn negation_inverts_a_filter(t: TripleView, filter: Seq<char>)
    requires
        !is_negated(filter),
    ensures
        filter_holds(t, "!"@ + filter) == !filter_holds(t, filter),
{
    let f = "!"@ + filter;
    assert(f.take("!"@.len() as int) =~= "!"@);
    assert(f.skip("!"@.len() as int) =~= filter);
}

proof fn lemma_lower_char(c: char)
    ensures
        ascii_lower_char(c) == '!' <==> c == '!',
        ascii_lower_char(ascii_lower_char(c)) == ascii_lower_char(c),
        c == '-' ==> ascii_lower_char(c) == '-',
        '\0' <= c <= '\u{7f}' ==> '\0' <= ascii_lower_char(c) <= '\u{7f}',
{
}

/// The case of the letters in a filter does not matter. (Stated of ASCII: of other text the small
/// letters are not known.)
pub proof fn case_does_not_matter_in_a_filter(t: TripleView, f: Seq<char>, g: Seq<char>)
    requires
        is_ascii_chars(f),
        is_ascii_chars(g),
        same_but_case(f, g),
    ensures
        filter_holds(t, f) == filter_holds(t, g),
{
    reveal_strlit("!");
    assert("!"@ =~= seq!['!']);
    assert(ascii_lower(f).len() == f.len() && ascii_lower(g).len() == g.len());
    if f.len() > 0 {
        assert(ascii_lower(f)[0] == ascii_lower(g)[0]);
        lemma_lower_char(f[0]);
        lemma_lower_char(g[0]);
        assert(f.take(1) =~= seq![f[0]] && g.take(1) =~= seq![g[0]]);
        assert(seq![f[0]][0] == f[0] && seq![g[0]][0] == g[0]);
        assert(is_negated(f) == (f[0] == '!'));
        assert(is_negated(g) == (g[0] == '!'));
        let a = f.skip(1);
        let b = g.skip(1);
        assert forall|i: int| 0 <= i < a.len() implies ascii_lower(a)[i] == #[trigger] ascii_lower(
            b,
        )[i] by {
            assert(ascii_lower(f)[i + 1] == ascii_lower(g)[i + 1]);
        }
        assert(ascii_lower(a) =~= ascii_lower(b));
        assert(is_ascii_chars(a) && is_ascii_chars(b));
    }
}

/// A filter and its small letters are passed alike.
pub proof fn a_filter_may_be_in_small_letters(t: TripleView, f: Seq<char>)
    requires
        is_ascii_chars(f),
    ensures
        filter_holds(t, f) == filter_holds(t, lower(f)),
{
    let l = ascii_lower(f);
    assert forall|i: int| 0 <= i < l.len() implies '\0' <= #[trigger] l[i] <= '\u{7f}'
        && ascii_lower_char(l[i]) == l[i] by {
        lemma_lower_char(f[i]);
    }
    assert(is_ascii_chars(l));
    assert(ascii_lower(l) =~= l);
    case_does_not_matter_in_a_filter(t, f, l);
}

proof fn lemma_single_names()
    ensures
        !"windows"@.contains('-'),
        !"win"@.contains('-'),
        !"linux"@.contains('-'),
        !"macos"@.contains('-'),
        !"darwin"@.contains('-'),
        !"osx"@.contains('-'),
        !"ios"@.contains('-'),
        !"android"@.contains('-'),
        !"emscripten"@.contains('-'),
        !"x86_64"@.contains('-'),
        !"aarch64"@.contains('-'),
        !"arm64"@.contains('-'),
        !"arm"@.contains('-'),
        !"x86"@.contains('-'),
        !"wasm32"@.contains('-'),
        !"riscv64"@.contains('-'),
        !"msvc"@.contains('-'),
        !"gnu"@.contains('-'),
        !"musl"@.contains('-'),
{
    reveal_strlit("windows");
    reveal_strlit("win");
    reveal_strlit("linux");
    reveal_strlit("macos");
    reveal_strlit("darwin");
    reveal_strlit("osx");
    reveal_strlit("ios");
    reveal_strlit("android");
    reveal_strlit("emscripten");
    reveal_strlit("x86_64");
    reveal_strlit("aarch64");
    reveal_strlit("arm64");
    reveal_strlit("arm");
    reveal_strlit("x86");
    reveal_strlit("wasm32");
    reveal_strlit("riscv64");
    reveal_strlit("msvc");
    reveal_strlit("gnu");
    reveal_strlit("musl");
}

/// The names of architectures are short, without a `!`, and only one has a `d` in it.
proof fn lemma_arch_names(n: Seq<char>)
    requires
        arch_named(n) is Some,
    ensures
        !n.contains('!'),
        n.len() <= 7,
        !n.contains('d') || n == "amd64"@,
{
    reveal_strlit("x86");
    reveal_strlit("i686");
    reveal_strlit("i386");
    reveal_strlit("x86_64");
    reveal_strlit("amd64");
    reveal_strlit("x64");
    reveal_strlit("arm");
    reveal_strlit("armv7");
    reveal_strlit("armv7a");
    reveal_strlit("arm64");
    reveal_strlit("aarch64");
    reveal_strlit("wasm32");
    reveal_strlit("riscv64");
}

/// A text without a `-` names no system, so it is no triple.
proof fn lemma_lone_part_is_no_triple(s: Seq<char>)
    requires
        triple_of(s) is Ok,
    ensures
        s.contains('-'),
{
    reveal_strlit("-");
    assert("-"@ =~= seq!['-']);
    let parts = pieces(s, "-"@);
    lemma_find_from(s, "-"@, 0);
    lemma_arch_names(lower(parts[0]));
    match find(s, "-"@) {
        Some(i) => {
            assert(s.subrange(i, i + 1)[0] == '-');
            assert(s[i] == '-');
        },
        None => {
            assert(parts =~= seq![s]);
            reveal_strlit("unknown");
            reveal_strlit("");
            reveal_strlit("android");
            reveal_strlit("androideabi");
            reveal_strlit("amd64");
            reveal_strlit("windows");
            reveal_strlit("linux");
            reveal_strlit("macos");
            reveal_strlit("darwin");
            reveal_strlit("osx");
            reveal_strlit("ios");
            reveal_strlit("emscripten");
            reveal_strlit("win32");
            reveal_strlit("win");
            reveal_strlit("mingw32");
            reveal_strlit("mingw");
            let l = lower(s);
            lemma_find_from(l, "android"@, 0);
            if let Some(k) = find(l, "android"@) {
                assert(l.subrange(k, k + 7)[2] == "android"@[2]);
                assert(l[k + 2] == 'd');
                assert(l.contains('d'));
                assert(false);
            }
            let u = "unknown"@;
            assert forall|i: int| 0 <= i < u.len() implies '\0' <= #[trigger] u[i] <= '\u{7f}'
                && !('A' <= u[i] <= 'Z') by {}
            lemma_lower_kept(u);
            assert(u[0] == 'u');
            assert(os_named(u) is None);
            assert(environment_of(""@) == Environment::Unset);
            assert(false);
        },
    }
}

/// A rule with a `-` in it matches only the whole of a triple.
proof fn lemma_whole_rule(t: TripleView, rule: Seq<char>)
    requires
        rule.contains('-'),
    ensures
        rule_matches(t, rule) == (rule == lower(t.raw)),
{
    lemma_single_names();
}

/// Without filters every target passes.
pub proof fn no_filter_excludes_nothing(t: TripleView)
    ensures
        filters_hold(t, Seq::empty()),
{
}

impl TargetTriple {
    /// Whether the target passes one filter such as `windows`, `!arm64` or a whole triple. A target
    /// passes the triple that it was made of.
    pub fn matches_platform_filter(&self, filter: &str) -> (r: bool)
        ensures
            r == filter_holds(self@, filter@),
            triple_of(filter@) == Ok::<TripleView, CoreErrorView>(self@) && !is_negated(filter@)
                ==> r,
    {
        proof {
            if triple_of(filter@) is Ok {
                lemma_lone_part_is_no_triple(filter@);
            }
        }
        let (negated, l) = match strip_prefix(filter, "!") {
            Some(stripped) => (true, to_lowercase(stripped.as_str())),
            None => (false, to_lowercase(filter)),
        };
        let rule = l.as_str();
        proof {
            if rule@.contains('-') {
                lemma_whole_rule(self@, rule@);
            }
        }
        let matched = if same(rule, "windows") || same(rule, "win") {
            self.os == Os::Windows
        } else if same(rule, "linux") {
            self.os == Os::Linux
        } else if same(rule, "macos") || same(rule, "darwin") || same(rule, "osx") {
            self.os == Os::Macos
        } else if same(rule, "ios") {
            self.os == Os::Ios
        } else if same(rule, "android") {
            self.os == Os::Android
        } else if same(rule, "emscripten") {
            self.os == Os::Emscripten
        } else if same(rule, "x86_64") {
            self.arch == Arch::X86_64
        } else if same(rule, "aarch64") || same(rule, "arm64") {
            self.arch == Arch::Arm64
        } else if same(rule, "arm") {
            self.arch == Arch::Arm
        } else if same(rule, "x86") {
            self.arch == Arch::X86
        } else if same(rule, "wasm32") {
            self.arch == Arch::Wasm32
        } else if same(rule, "riscv64") {
            self.arch == Arch::Riscv64
        } else if same(rule, "msvc") {
            self.env == Environment::Msvc
        } else if same(rule, "gnu") {
            self.env == Environment::Gnu
        } else if same(rule, "musl") {
            self.env == Environment::Musl
        } else {
            let whole = to_lowercase(self.raw.as_str());
            same(rule, whole.as_str())
        };
        if negated {
            !matched
        } else {
            matched
        }
    }

    /// Whether the target passes all negated filters, and one of the others if there are any.
    pub fn matches_all_filters(&self, filters: &[String]) -> (r: bool)
        ensures
            r == filters_hold(self@, views(filters@)),
    {
        let mut has_positive = false;
        let mut positive_matched = false;
        let mut i: usize = 0;
        let ghost fs = views(filters@);
        while i < filters.len()
            invariant
                i <= filters@.len(),
                fs == views(filters@),
                forall|k: int|
                    0 <= k < i && is_negated(#[trigger] fs[k]) ==> filter_holds(self@, fs[k]),
                has_positive == (exists|k: int| 0 <= k < i && !is_negated(#[trigger] fs[k])),
                positive_matched == (exists|k: int|
                    0 <= k < i && !is_negated(#[trigger] fs[k]) && filter_holds(self@, fs[k])),
            decreases filters@.len() - i,
        {
            let f = filters[i].as_str();
            assert(f@ == fs[i as int]);
            let ok = self.matches_platform_filter(f);
            if starts_with(f, "!") {
                if !ok {
                    return false;
                }
            } else {
                has_positive = true;
                if ok {
                    positive_matched = true;
                }
            }
            i = i + 1;
        }
        if has_positive {
            positive_matched
        } else {
            true
        }
    }
}

// ---------------------------------------------------------------------------
// The host
// ---------------------------------------------------------------------------

/// The triple of a host, by the names of its system and architecture.
pub open spec fn host_text(os: Seq<char>, arch: Seq<char>) -> Option<Seq<char>> {
    if os == "windows"@ && arch == "x86_64"@ {
        Some("x86_64-pc-windows-msvc"@)
    } else if os == "windows"@ && arch == "aarch64"@ {
        Some("aarch64-pc-windows-msvc"@)
    } else if os == "linux"@ && arch == "x86_64"@ {
        Some("x86_64-unknown-linux-gnu"@)
    } else if os == "linux"@ && arch == "aarch64"@ {
        Some("aarch64-unknown-linux-gnu"@)
    } else if os == "macos"@ && arch == "aarch64"@ {
        Some("aarch64-apple-darwin"@)
    } else if os == "macos"@ && arch == "x86_64"@ {
        Some("x86_64-apple-darwin"@)
    } else {
        None
    }
}

/// The triple that stands for a host of an unknown kind.
pub open spec fn unknown_host() -> TripleView {
    TripleView {
        raw: "unknown"@,
        arch: Arch::X86_64,
        vendor: "unknown"@,
        os: Os::Linux,
        env: Environment::Gnu,
    }
}

/// The parts of a triple of three parts.
proof fn lemma_three_parts(a: Seq<char>, b: Seq<char>, c: Seq<char>, s: Seq<char>)
    requires
        s == a + seq!['-'] + b + seq!['-'] + c,
        !a.contains('-'),
        !b.contains('-'),
        !c.contains('-'),
    ensures
        pieces(s, "-"@) == seq![a, b, c],
{
    reveal_strlit("-");
    assert("-"@ =~= seq!['-']);
    assert(s =~= a + seq!['-'] + (b + seq!['-'] + c));
    lemma_first_piece(a, '-', b + seq!['-'] + c);
    lemma_first_piece(b, '-', c);
    lemma_one_piece(c, '-');
    assert(seq![a] + (seq![b] + seq![c]) =~= seq![a, b, c]);
}

/// The parts of a triple of four parts.
proof fn lemma_four_parts(
    a: Seq<char>,
    b: Seq<char>,
    c: Seq<char>,
    d: Seq<char>,
    s: Seq<char>,
)
    requires
        s == a + seq!['-'] + b + seq!['-'] + c + seq!['-'] + d,
        !a.contains('-'),
        !b.contains('-'),
        !c.contains('-'),
        !d.contains('-'),
    ensures
        pieces(s, "-"@) == seq![a, b, c, d],
{
    reveal_strlit("-");
    assert("-"@ =~= seq!['-']);
    let rest = b + seq!['-'] + c + seq!['-'] + d;
    assert(s =~= a + seq!['-'] + rest);
    lemma_three_parts(b, c, d, rest);
    lemma_first_piece(a, '-', rest);
    assert(seq![a] + seq![b, c, d] =~= seq![a, b, c, d]);
}

/// The triple of every known host can be parsed.
pub proof fn host_text_parses(os: Seq<char>, arch: Seq<char>)
    ensures
        host_text(os, arch) matches Some(t) ==> triple_of(t) is Ok,
{
    reveal_strlit("aarch64");
    reveal_strlit("aarch64-apple-darwin");
    reveal_strlit("aarch64-pc-windows-msvc");
    reveal_strlit("aarch64-unknown-linux-gnu");
    reveal_strlit("amd64");
    reveal_strlit("apple");
    reveal_strlit("arm");
    reveal_strlit("arm64");
    reveal_strlit("armv7");
    reveal_strlit("armv7a");
    reveal_strlit("darwin");
    reveal_strlit("gnu");
    reveal_strlit("i386");
    reveal_strlit("i686");
    reveal_strlit("linux");
    reveal_strlit("macos");
    reveal_strlit("mingw");
    reveal_strlit("mingw32");
    reveal_strlit("msvc");
    reveal_strlit("osx");
    reveal_strlit("pc");
    reveal_strlit("unknown");
    reveal_strlit("win");
    reveal_strlit("win32");
    reveal_strlit("windows");
    reveal_strlit("x64");
    reveal_strlit("x86");
    reveal_strlit("x86_64");
    reveal_strlit("x86_64-apple-darwin");
    reveal_strlit("x86_64-pc-windows-msvc");
    reveal_strlit("x86_64-unknown-linux-gnu");
    lemma_lower_kept("aarch64"@);
    lemma_lower_kept("darwin"@);
    lemma_lower_kept("linux"@);
    lemma_lower_kept("windows"@);
    lemma_lower_kept("x86_64"@);
    assert("x86_64-pc-windows-msvc"@ =~= "x86_64"@ + seq!['-'] + "pc"@ + seq!['-'] + "windows"@ + seq!['-'] + "msvc"@);
    lemma_four_parts("x86_64"@, "pc"@, "windows"@, "msvc"@, "x86_64-pc-windows-msvc"@);
    assert("aarch64-pc-windows-msvc"@ =~= "aarch64"@ + seq!['-'] + "pc"@ + seq!['-'] + "windows"@ + seq!['-'] + "msvc"@);
    lemma_four_parts("aarch64"@, "pc"@, "windows"@, "msvc"@, "aarch64-pc-windows-msvc"@);
    assert("x86_64-unknown-linux-gnu"@ =~= "x86_64"@ + seq!['-'] + "unknown"@ + seq!['-'] + "linux"@ + seq!['-'] + "gnu"@);
    lemma_four_parts("x86_64"@, "unknown"@, "linux"@, "gnu"@, "x86_64-unknown-linux-gnu"@);
    assert("aarch64-unknown-linux-gnu"@ =~= "aarch64"@ + seq!['-'] + "unknown"@ + seq!['-'] + "linux"@ + seq!['-'] + "gnu"@);
    lemma_four_parts("aarch64"@, "unknown"@, "linux"@, "gnu"@, "aarch64-unknown-linux-gnu"@);
    assert("aarch64-apple-darwin"@ =~= "aarch64"@ + seq!['-'] + "apple"@ + seq!['-'] + "darwin"@);
    lemma_three_parts("aarch64"@, "apple"@, "darwin"@, "aarch64-apple-darwin"@);
    assert("x86_64-apple-darwin"@ =~= "x86_64"@ + seq!['-'] + "apple"@ + seq!['-'] + "darwin"@);
    lemma_three_parts("x86_64"@, "apple"@, "darwin"@, "x86_64-apple-darwin"@);
}

impl TargetTriple {
    /// The triple of a host with the given system and architecture.
    pub fn host(os: &str, arch: &str) -> (r: Self)
        ensures
            match host_text(os@, arch@) {
                Some(t) => triple_of(t) == Ok::<TripleView, CoreErrorView>(r@),
                None => r@ == unknown_host(),
            },
    {
        proof {
            host_text_parses(os@, arch@);
        }
        let known = if same(os, "windows") && same(arch, "x86_64") {
            "x86_64-pc-windows-msvc"
        } else if same(os, "windows") && same(arch, "aarch64") {
            "aarch64-pc-windows-msvc"
        } else if same(os, "linux") && same(arch, "x86_64") {
            "x86_64-unknown-linux-gnu"
        } else if same(os, "linux") && same(arch, "aarch64") {
            "aarch64-unknown-linux-gnu"
        } else if same(os, "macos") && same(arch, "aarch64") {
            "aarch64-apple-darwin"
        } else if same(os, "macos") && same(arch, "x86_64") {
            "x86_64-apple-darwin"
        } else {
            return Self::other_host();
        };
        match TargetTriple::from_str(known) {
            Ok(t) => t,
            Err(_) => Self::other_host(),
        }
    }

    fn other_host() -> (r: Self)
        ensures
            r@ == unknown_host(),
    {
        TargetTriple {
            raw: "unknown".to_owned(),
            arch: Arch::X86_64,
            vendor: "unknown".to_owned(),
            os: Os::Linux,
            env: Environment::Gnu,
        }
    }
}

// ---------------------------------------------------------------------------
// Build types and runtime libraries
// ---------------------------------------------------------------------------

#[derive(Debug, Clone, Copy, PartialEq, Eq, Hash, Structural)]
pub enum BuildType {
    Debug,
    Release,
    RelWithDebInfo,
    MinSizeRel,
}

impl Default for BuildType {
    fn default() -> (r: Self)
        ensures
            r == BuildType::Release,
    {
        BuildType::Release
    }
}

/// The build type in a text of any case.
pub open spec fn build_type_of(s: Seq<char>) -> Result<BuildType, CoreErrorView> {
    let n = lower(s);
    if n == "debug"@ {
        Ok(BuildType::Debug)
    } else if n == "release"@ {
        Ok(BuildType::Release)
    } else if n == "relwithdebinfo"@ || n == "relwithdeb"@ {
        Ok(BuildType::RelWithDebInfo)
    } else if n == "minsizerel"@ || n == "minsize"@ {
        Ok(BuildType::MinSizeRel)
    } else {
        Err(CoreErrorView::Manifest("Unknown build type: "@ + s))
    }
}

/// How a build type is written.
pub open spec fn build_type_text(b: BuildType) -> Seq<char> {
    match b {
        BuildType::Debug => "Debug"@,
        BuildType::Release => "Release"@,
        BuildType::RelWithDebInfo => "RelWithDebInfo"@,
        BuildType::MinSizeRel => "MinSizeRel"@,
    }
}

impl BuildType {
    pub fn from_str(s: &str) -> (r: Result<Self, CoreError>)
        ensures
            result_view(r) == build_type_of(s@),
    {
        let l = to_lowercase(s);
        let n = l.as_str();
        if same(n, "debug") {
            Ok(BuildType::Debug)
        } else if same(n, "release") {
            Ok(BuildType::Release)
        } else if same(n, "relwithdebinfo") || same(n, "relwithdeb") {
            Ok(BuildType::RelWithDebInfo)
        } else if same(n, "minsizerel") || same(n, "minsize") {
            Ok(BuildType::MinSizeRel)
        } else {
            Err(CoreError::Manifest(cat2("Unknown build type: ", s)))
        }
    }

    pub fn as_str(&self) -> (r: &'static str)
        ensures
            r@ == build_type_text(*self),
    {
        match self {
            BuildType::Debug => "Debug",
            BuildType::Release => "Release",
            BuildType::RelWithDebInfo => "RelWithDebInfo",
            BuildType::MinSizeRel => "MinSizeRel",
        }
    }
}

impl FromStr for BuildType {
    type Err = CoreError;

    fn from_str(s: &str) -> Result<Self, CoreError> {
        BuildType::from_str(s)
    }
}

#[derive(Debug, Clone, Copy, PartialEq, Eq, Hash, Structural)]
pub enum VCRuntime {
    MultiThreadedDLL,
    MultiThreadedDebugDLL,
    MultiThreaded,
    MultiThreadedDebug,
}

impl Default for VCRuntime {
    fn default() -> (r: Self)
        ensures
            r == VCRuntime::MultiThreadedDLL,
    {
        VCRuntime::MultiThreadedDLL
    }
}

/// The MSVC runtime library that a name or a compiler option stands for.
pub open spec fn runtime_of(s: Seq<char>) -> Result<VCRuntime, CoreErrorView> {
    if s == "MultiThreadedDLL"@ || s == "dynamic"@ || s == "/MD"@ {
        Ok(VCRuntime::MultiThreadedDLL)
    } else if s == "MultiThreadedDebugDLL"@ || s == "dynamic_debug"@ || s == "/MDd"@ {
        Ok(VCRuntime::MultiThreadedDebugDLL)
    } else if s == "MultiThreaded"@ || s == "static"@ || s == "/MT"@ {
        Ok(VCRuntime::MultiThreaded)
    } else if s == "MultiThreadedDebug"@ || s == "static_debug"@ || s == "/MTd"@ {
        Ok(VCRuntime::MultiThreadedDebug)
    } else {
        Err(CoreErrorView::Manifest("Unknown MSVC runtime library: "@ + s))
    }
}

/// How CMake names a runtime library.
pub open spec fn runtime_text(v: VCRuntime) -> Seq<char> {
    match v {
        VCRuntime::MultiThreadedDLL => "MultiThreadedDLL"@,
        VCRuntime::MultiThreadedDebugDLL => "MultiThreadedDebugDLL"@,
        VCRuntime::MultiThreaded => "MultiThreaded"@,
        VCRuntime::MultiThreadedDebug => "MultiThreadedDebug"@,
    }
}

impl VCRuntime {
    pub fn from_str(s: &str) -> (r: Result<Self, CoreError>)
        ensures
            result_view(r) == runtime_of(s@),
    {
        if same(s, "MultiThreadedDLL") || same(s, "dynamic") || same(s, "/MD") {
            Ok(VCRuntime::MultiThreadedDLL)
        } else if same(s, "MultiThreadedDebugDLL") || same(s, "dynamic_debug") || same(s, "/MDd") {
            Ok(VCRuntime::MultiThreadedDebugDLL)
        } else if same(s, "MultiThreaded") || same(s, "static") || same(s, "/MT") {
            Ok(VCRuntime::MultiThreaded)
        } else if same(s, "MultiThreadedDebug") || same(s, "static_debug") || same(s, "/MTd") {
            Ok(VCRuntime::MultiThreadedDebug)
        } else {
            Err(CoreError::Manifest(cat2("Unknown MSVC runtime library: ", s)))
        }
    }

    pub fn as_cmake_value(&self) -> (r: &'static str)
        ensures
            r@ == runtime_text(*self),
    {
        match self {
            VCRuntime::MultiThreadedDLL => "MultiThreadedDLL",
            VCRuntime::MultiThreadedDebugDLL => "MultiThreadedDebugDLL",
            VCRuntime::MultiThreaded => "MultiThreaded",
            VCRuntime::MultiThreadedDebug => "MultiThreadedDebug",
        }
    }

    pub fn is_static(&self) -> (r: bool)
        ensures
            r == (*self is MultiThreaded || *self is MultiThreadedDebug),
    {
        matches!(self, VCRuntime::MultiThreaded | VCRuntime::MultiThreadedDebug)
    }

    pub fn is_debug(&self) -> (r: bool)
        ensures
            r == (*self is MultiThreadedDebugDLL || *self is MultiThreadedDebug),
    {
        matches!(self, VCRuntime::MultiThreadedDebugDLL | VCRuntime::MultiThreadedDebug)
    }
}

impl FromStr for VCRuntime {
    type Err = CoreError;

    fn from_str(s: &str) -> Result<Self, CoreError> {
        VCRuntime::from_str(s)
    }
}

#[derive(Debug, Clone, Copy, PartialEq, Eq, Hash, Structural)]
pub enum CxxStdlib {
    PlatformDefault,
    Libcxx,
    Libstdcxx,
    Custom,
}

impl Default for CxxStdlib {
    fn default() -> (r: Self)
        ensures
            r == CxxStdlib::PlatformDefault,
    {
        CxxStdlib::PlatformDefault
    }
}

/// The name of a choice of C++ standard library.
pub open spec fn stdlib_text(c: CxxStdlib) -> Seq<char> {
    match c {
        CxxStdlib::PlatformDefault => "PlatformDefault"@,
        CxxStdlib::Libcxx => "Libcxx"@,
        CxxStdlib::Libstdcxx => "Libstdcxx"@,
        CxxStdlib::Custom => "Custom"@,
    }
}

impl CxxStdlib {
    pub fn as_str(&self) -> (r: &'static str)
        ensures
            r@ == stdlib_text(*self),
    {
        match self {
            CxxStdlib::PlatformDefault => "PlatformDefault",
            CxxStdlib::Libcxx => "Libcxx",
            CxxStdlib::Libstdcxx => "Libstdcxx",
            CxxStdlib::Custom => "Custom",
        }
    }
}

// ---------------------------------------------------------------------------
// What is written can be read back
// ---------------------------------------------------------------------------

/// The text of an architecture parses to that architecture.
pub proof fn arch_text_parses_back(a: Arch)
    ensures
        arch_of(arch_text(a)) == Ok::<Arch, CoreErrorView>(a),
{
    reveal_strlit("x86");
    reveal_strlit("i686");
    reveal_strlit("i386");
    reveal_strlit("x86_64");
    reveal_strlit("amd64");
    reveal_strlit("x64");
    reveal_strlit("arm");
    reveal_strlit("armv7");
    reveal_strlit("armv7a");
    reveal_strlit("arm64");
    reveal_strlit("aarch64");
    reveal_strlit("wasm32");
    reveal_strlit("riscv64");
    assert("x86"@[0] == 'x' && "x86"@[1] == '8');
    assert("i686"@[0] == 'i' && "i686"@[1] == '6');
    assert("i386"@[0] == 'i' && "i386"@[1] == '3');
    assert("x86_64"@[0] == 'x' && "x86_64"@[1] == '8');
    assert("amd64"@[0] == 'a' && "amd64"@[1] == 'm');
    assert("x64"@[0] == 'x' && "x64"@[1] == '6');
    assert("arm"@[0] == 'a' && "arm"@[1] == 'r');
    assert("armv7"@[0] == 'a' && "armv7"@[1] == 'r');
    assert("armv7a"@[0] == 'a' && "armv7a"@[1] == 'r');
    assert("arm64"@[0] == 'a' && "arm64"@[1] == 'r');
    assert("aarch64"@[0] == 'a' && "aarch64"@[1] == 'a');
    assert("wasm32"@[0] == 'w' && "wasm32"@[1] == 'a');
    assert("riscv64"@[0] == 'r' && "riscv64"@[1] == 'i');
    lemma_lower_kept(arch_text(a));
}

/// The text of an operating system parses to that system.
pub proof fn os_text_parses_back(o: Os)
    ensures
        os_of(os_text(o)) == Ok::<Os, CoreErrorView>(o),
{
    reveal_strlit("windows");
    reveal_strlit("win32");
    reveal_strlit("win");
    reveal_strlit("mingw32");
    reveal_strlit("mingw");
    reveal_strlit("linux");
    reveal_strlit("macos");
    reveal_strlit("darwin");
    reveal_strlit("osx");
    reveal_strlit("ios");
    reveal_strlit("android");
    reveal_strlit("emscripten");
    assert("windows"@[0] == 'w' && "windows"@[1] == 'i');
    assert("win32"@[0] == 'w' && "win32"@[1] == 'i');
    assert("win"@[0] == 'w' && "win"@[1] == 'i');
    assert("mingw32"@[0] == 'm' && "mingw32"@[1] == 'i');
    assert("mingw"@[0] == 'm' && "mingw"@[1] == 'i');
    assert("linux"@[0] == 'l' && "linux"@[1] == 'i');
    assert("macos"@[0] == 'm' && "macos"@[1] == 'a');
    assert("darwin"@[0] == 'd' && "darwin"@[1] == 'a');
    assert("osx"@[0] == 'o' && "osx"@[1] == 's');
    assert("ios"@[0] == 'i' && "ios"@[1] == 'o');
    assert("android"@[0] == 'a' && "android"@[1] == 'n');
    assert("emscripten"@[0] == 'e' && "emscripten"@[1] == 'm');
    lemma_lower_kept(os_text(o));
}

/// The text of an environment parses to that environment.
pub proof fn environment_text_parses_back(e: Environment)
    ensures
        environment_of(environment_text(e)) == e,
{
    reveal_strlit("gnu");
    reveal_strlit("musl");
    reveal_strlit("msvc");
    reveal_strlit("android");
    reveal_strlit("androideabi");
    reveal_strlit("");
    let t = environment_text(e);
    assert(t.take(t.len() as int) =~= t);
    if has_prefix(t, "gnu"@) {
        assert("gnu"@[0] == t[0] && "gnu"@[1] == t[1]);
    }
    if has_prefix(t, "musl"@) {
        assert("musl"@[0] == t[0] && "musl"@[1] == t[1]);
    }
    if has_prefix(t, "msvc"@) {
        assert("msvc"@[0] == t[0] && "msvc"@[1] == t[1]);
    }
    if has_prefix(t, "android"@) {
        assert("android"@[0] == t[0]);
    }
}

/// The text of a build type parses to that build type.
pub proof fn build_type_text_parses_back(b: BuildType)
    ensures
        build_type_of(build_type_text(b)) == Ok::<BuildType, CoreErrorView>(b),
{
    reveal_strlit("debug");
    reveal_strlit("release");
    reveal_strlit("relwithdebinfo");
    reveal_strlit("relwithdeb");
    reveal_strlit("minsizerel");
    reveal_strlit("minsize");
    reveal_strlit("Debug");
    reveal_strlit("Release");
    reveal_strlit("RelWithDebInfo");
    reveal_strlit("MinSizeRel");
    assert("debug"@[0] == 'd' && "debug"@[1] == 'e');
    assert("release"@[0] == 'r' && "release"@[1] == 'e');
    assert("relwithdebinfo"@[0] == 'r' && "relwithdebinfo"@[1] == 'e');
    assert("relwithdeb"@[0] == 'r' && "relwithdeb"@[1] == 'e');
    assert("minsizerel"@[0] == 'm' && "minsizerel"@[1] == 'i');
    assert("minsize"@[0] == 'm' && "minsize"@[1] == 'i');
    assert("Debug"@[0] == 'D' && "Debug"@[1] == 'e');
    assert("Release"@[0] == 'R' && "Release"@[1] == 'e');
    assert("RelWithDebInfo"@[0] == 'R' && "RelWithDebInfo"@[1] == 'e');
    assert("MinSizeRel"@[0] == 'M' && "MinSizeRel"@[1] == 'i');
    let t = build_type_text(b);
    assert(is_ascii_chars(t));
    match b {
        BuildType::Debug => assert(lower(t) =~= "debug"@),
        BuildType::Release => assert(lower(t) =~= "release"@),
        BuildType::RelWithDebInfo => assert(lower(t) =~= "relwithdebinfo"@),
        BuildType::MinSizeRel => assert(lower(t) =~= "minsizerel"@),
    }
}

/// CMake's name of a runtime library parses to that library.
pub proof fn runtime_text_parses_back(v: VCRuntime)
    ensures
        runtime_of(runtime_text(v)) == Ok::<VCRuntime, CoreErrorView>(v),
{
    reveal_strlit("MultiThreadedDLL");
    reveal_strlit("dynamic");
    reveal_strlit("/MD");
    reveal_strlit("MultiThreadedDebugDLL");
    reveal_strlit("dynamic_debug");
    reveal_strlit("/MDd");
    reveal_strlit("MultiThreaded");
    reveal_strlit("static");
    reveal_strlit("/MT");
    reveal_strlit("MultiThreadedDebug");
    reveal_strlit("static_debug");
    assert("MultiThreadedDLL"@[0] == 'M' && "MultiThreadedDLL"@[1] == 'u');
    assert("dynamic"@[0] == 'd' && "dynamic"@[1] == 'y');
    assert("/MD"@[0] == '/' && "/MD"@[1] == 'M');
    assert("MultiThreadedDebugDLL"@[0] == 'M' && "MultiThreadedDebugDLL"@[1] == 'u');
    assert("dynamic_debug"@[0] == 'd' && "dynamic_debug"@[1] == 'y');
    assert("/MDd"@[0] == '/' && "/MDd"@[1] == 'M');
    assert("MultiThreaded"@[0] == 'M' && "MultiThreaded"@[1] == 'u');
    assert("static"@[0] == 's' && "static"@[1] == 't');
    assert("/MT"@[0] == '/' && "/MT"@[1] == 'M');
    assert("MultiThreadedDebug"@[0] == 'M' && "MultiThreadedDebug"@[1] == 'u');
    assert("static_debug"@[0] == 's' && "static_debug"@[1] == 't');
    reveal_strlit("/MTd");
    assert("MultiThreadedDLL"@.len() == 16);
    assert("dynamic"@.len() == 7);
    assert("/MD"@.len() == 3);
    assert("MultiThreadedDebugDLL"@.len() == 21);
    assert("dynamic_debug"@.len() == 13);
    assert("/MDd"@.len() == 4);
    assert("MultiThreaded"@.len() == 13);
    assert("static"@.len() == 6);
    assert("/MT"@.len() == 3);
    assert("MultiThreadedDebug"@.len() == 18);
    assert("static_debug"@.len() == 12);
}

/// Different runtime libraries have different names.
pub proof fn runtime_texts_differ(a: VCRuntime, b: VCRuntime)
    requires
        a != b,
    ensures
        runtime_text(a) != runtime_text(b),
{
    runtime_text_parses_back(a);
    runtime_text_parses_back(b);
}

// ---------------------------------------------------------------------------
// What is promised of targets
// ---------------------------------------------------------------------------

/// The names that targets are made of and filtered by differ in these characters.
proof fn lemma_names()
    ensures
        "windows"@.len() == 7 && "windows"@[0] == 'w' && "windows"@[1] == 'i'
            && "windows"@[6] == 's',
        "win32"@.len() == 5 && "win32"@[0] == 'w' && "win32"@[1] == 'i' && "win32"@[4] == '2',
        "win"@.len() == 3 && "win"@[0] == 'w' && "win"@[1] == 'i' && "win"@[2] == 'n',
        "mingw32"@.len() == 7 && "mingw32"@[0] == 'm' && "mingw32"@[1] == 'i'
            && "mingw32"@[6] == '2',
        "mingw"@.len() == 5 && "mingw"@[0] == 'm' && "mingw"@[1] == 'i' && "mingw"@[4] == 'w',
        "linux"@.len() == 5 && "linux"@[0] == 'l' && "linux"@[1] == 'i' && "linux"@[4] == 'x',
        "macos"@.len() == 5 && "macos"@[0] == 'm' && "macos"@[1] == 'a' && "macos"@[4] == 's',
        "darwin"@.len() == 6 && "darwin"@[0] == 'd' && "darwin"@[1] == 'a' && "darwin"@[5] == 'n',
        "osx"@.len() == 3 && "osx"@[0] == 'o' && "osx"@[1] == 's' && "osx"@[2] == 'x',
        "ios"@.len() == 3 && "ios"@[0] == 'i' && "ios"@[1] == 'o' && "ios"@[2] == 's',
        "android"@.len() == 7 && "android"@[0] == 'a' && "android"@[1] == 'n'
            && "android"@[6] == 'd',
        "emscripten"@.len() == 10 && "emscripten"@[0] == 'e' && "emscripten"@[1] == 'm'
            && "emscripten"@[9] == 'n',
        "x86"@.len() == 3 && "x86"@[0] == 'x' && "x86"@[1] == '8' && "x86"@[2] == '6',
        "i686"@.len() == 4 && "i686"@[0] == 'i' && "i686"@[1] == '6' && "i686"@[3] == '6',
        "i386"@.len() == 4 && "i386"@[0] == 'i' && "i386"@[1] == '3' && "i386"@[3] == '6',
        "x86_64"@.len() == 6 && "x86_64"@[0] == 'x' && "x86_64"@[1] == '8' && "x86_64"@[5] == '4',
        "amd64"@.len() == 5 && "amd64"@[0] == 'a' && "amd64"@[1] == 'm' && "amd64"@[4] == '4',
        "x64"@.len() == 3 && "x64"@[0] == 'x' && "x64"@[1] == '6' && "x64"@[2] == '4',
        "arm"@.len() == 3 && "arm"@[0] == 'a' && "arm"@[1] == 'r' && "arm"@[2] == 'm',
        "armv7"@.len() == 5 && "armv7"@[0] == 'a' && "armv7"@[1] == 'r' && "armv7"@[4] == '7',
        "armv7a"@.len() == 6 && "armv7a"@[0] == 'a' && "armv7a"@[1] == 'r' && "armv7a"@[5] == 'a',
        "arm64"@.len() == 5 && "arm64"@[0] == 'a' && "arm64"@[1] == 'r' && "arm64"@[4] == '4',
        "aarch64"@.len() == 7 && "aarch64"@[0] == 'a' && "aarch64"@[1] == 'a'
            && "aarch64"@[6] == '4',
        "wasm32"@.len() == 6 && "wasm32"@[0] == 'w' && "wasm32"@[1] == 'a' && "wasm32"@[5] == '2',
        "riscv64"@.len() == 7 && "riscv64"@[0] == 'r' && "riscv64"@[1] == 'i'
            && "riscv64"@[6] == '4',
        "msvc"@.len() == 4 && "msvc"@[0] == 'm' && "msvc"@[1] == 's' && "msvc"@[3] == 'c',
        "gnu"@.len() == 3 && "gnu"@[0] == 'g' && "gnu"@[1] == 'n' && "gnu"@[2] == 'u',
        "musl"@.len() == 4 && "musl"@[0] == 'm' && "musl"@[1] == 'u' && "musl"@[3] == 'l',
{
    reveal_strlit("windows");
    reveal_strlit("win32");
    reveal_strlit("win");
    reveal_strlit("mingw32");
    reveal_strlit("mingw");
    reveal_strlit("linux");
    reveal_strlit("macos");
    reveal_strlit("darwin");
    reveal_strlit("osx");
    reveal_strlit("ios");
    reveal_strlit("android");
    reveal_strlit("emscripten");
    reveal_strlit("x86");
    reveal_strlit("i686");
    reveal_strlit("i386");
    reveal_strlit("x86_64");
    reveal_strlit("amd64");
    reveal_strlit("x64");
    reveal_strlit("arm");
    reveal_strlit("armv7");
    reveal_strlit("armv7a");
    reveal_strlit("arm64");
    reveal_strlit("aarch64");
    reveal_strlit("wasm32");
    reveal_strlit("riscv64");
    reveal_strlit("msvc");
    reveal_strlit("gnu");
    reveal_strlit("musl");
}

/// The names of the systems, in either case, and no other text.
pub proof fn the_names_of_systems(f: Seq<char>)
    ensures
        os_of(f) == Ok::<Os, CoreErrorView>(Os::Windows) <==> lower(f) == "windows"@
            || lower(f) == "win32"@ || lower(f) == "win"@ || lower(f) == "mingw32"@
            || lower(f) == "mingw"@,
        os_of(f) == Ok::<Os, CoreErrorView>(Os::Linux) <==> lower(f) == "linux"@,
        os_of(f) == Ok::<Os, CoreErrorView>(Os::Macos) <==> lower(f) == "macos"@
            || lower(f) == "darwin"@ || lower(f) == "osx"@,
        os_of(f) == Ok::<Os, CoreErrorView>(Os::Ios) <==> lower(f) == "ios"@,
        os_of(f) == Ok::<Os, CoreErrorView>(Os::Android) <==> lower(f) == "android"@,
        os_of(f) == Ok::<Os, CoreErrorView>(Os::Emscripten) <==> lower(f) == "emscripten"@,
        os_of(f) is Err ==> os_of(f) == Err::<Os, CoreErrorView>(
            CoreErrorView::TargetParse("Unknown OS: "@ + lower(f)),
        ),
{
    lemma_names();
}

/// The names of the architectures, in either case, and no other text.
pub proof fn the_names_of_architectures(f: Seq<char>)
    ensures
        arch_of(f) == Ok::<Arch, CoreErrorView>(Arch::X86) <==> lower(f) == "x86"@
            || lower(f) == "i686"@ || lower(f) == "i386"@,
        arch_of(f) == Ok::<Arch, CoreErrorView>(Arch::X86_64) <==> lower(f) == "x86_64"@
            || lower(f) == "amd64"@ || lower(f) == "x64"@,
        arch_of(f) == Ok::<Arch, CoreErrorView>(Arch::Arm) <==> lower(f) == "arm"@
            || lower(f) == "armv7"@ || lower(f) == "armv7a"@,
        arch_of(f) == Ok::<Arch, CoreErrorView>(Arch::Arm64) <==> lower(f) == "arm64"@
            || lower(f) == "aarch64"@,
        arch_of(f) == Ok::<Arch, CoreErrorView>(Arch::Wasm32) <==> lower(f) == "wasm32"@,
        arch_of(f) == Ok::<Arch, CoreErrorView>(Arch::Riscv64) <==> lower(f) == "riscv64"@,
        arch_of(f) is Err ==> arch_of(f) == Err::<Arch, CoreErrorView>(
            CoreErrorView::TargetParse("Unknown architecture: "@ + lower(f)),
        ),
{
    lemma_names();
}

proof fn lemma_plain_filter(t: TripleView, f: Seq<char>)
    requires
        is_ascii_chars(f),
        lower(f).len() > 0,
        lower(f)[0] != '!',
    ensures
        !is_negated(f),
        filter_holds(t, f) == rule_matches(t, lower(f)),
        filters_hold(t, seq![f]) == filter_holds(t, f),
{
    reveal_strlit("!");
    assert("!"@ =~= seq!['!']);
    lemma_lower_char(f[0]);
    if is_negated(f) {
        assert(f.take(1)[0] == '!');
    }
    lemma_one_filter(t, f);
}

proof fn lemma_one_filter(t: TripleView, f: Seq<char>)
    ensures
        filters_hold(t, seq![f]) == filter_holds(t, f),
{
    let fs = seq![f];
    assert(fs[0] == f);
}

/// A filter that names a system is passed by the targets of the system that the name parses to,
/// and by no others.
pub proof fn a_system_filter_asks_for_the_system(t: TripleView, f: Seq<char>)
    requires
        is_ascii_chars(f),
        lower(f) == "windows"@ || lower(f) == "win"@ || lower(f) == "linux"@ || lower(f) == "macos"@
            || lower(f) == "darwin"@ || lower(f) == "osx"@ || lower(f) == "ios"@
            || lower(f) == "android"@ || lower(f) == "emscripten"@,
    ensures
        os_of(f) is Ok,
        filter_holds(t, f) <==> os_of(f) == Ok::<Os, CoreErrorView>(t.os),
        filters_hold(t, seq![f]) <==> os_of(f) == Ok::<Os, CoreErrorView>(t.os),
{
    lemma_names();
    lemma_plain_filter(t, f);
}

/// The name that is written for a system is a filter that its targets pass, and no others.
pub proof fn the_text_of_a_system_is_a_filter(t: TripleView, o: Os)
    ensures
        filter_holds(t, os_text(o)) <==> t.os == o,
        filters_hold(t, seq![os_text(o)]) <==> t.os == o,
{
    lemma_names();
    os_text_parses_back(o);
    lemma_written_small();
    a_system_filter_asks_for_the_system(t, os_text(o));
}

proof fn lemma_written_small()
    ensures
        forall|o: Os| lower(#[trigger] os_text(o)) == os_text(o) && is_ascii_chars(os_text(o)),
        forall|a: Arch|
            lower(#[trigger] arch_text(a)) == arch_text(a) && is_ascii_chars(arch_text(a)),
{
    reveal_strlit("windows");
    reveal_strlit("win");
    reveal_strlit("linux");
    reveal_strlit("macos");
    reveal_strlit("darwin");
    reveal_strlit("osx");
    reveal_strlit("ios");
    reveal_strlit("android");
    reveal_strlit("emscripten");
    reveal_strlit("x86_64");
    reveal_strlit("aarch64");
    reveal_strlit("arm64");
    reveal_strlit("arm");
    reveal_strlit("x86");
    reveal_strlit("wasm32");
    reveal_strlit("riscv64");
    assert forall|o: Os| lower(#[trigger] os_text(o)) == os_text(o) && is_ascii_chars(
        os_text(o),
    ) by {
        lemma_lower_kept(os_text(o));
    }
    assert forall|a: Arch| lower(#[trigger] arch_text(a)) == arch_text(a) && is_ascii_chars(
        arch_text(a),
    ) by {
        lemma_lower_kept(arch_text(a));
    }
}

/// A filter that names an architecture is passed by the targets of the architecture that the name
/// parses to, and by no others.
pub proof fn an_architecture_filter_asks_for_the_architecture(t: TripleView, f: Seq<char>)
    requires
        is_ascii_chars(f),
        lower(f) == "x86_64"@ || lower(f) == "aarch64"@ || lower(f) == "arm64"@
            || lower(f) == "arm"@ || lower(f) == "x86"@ || lower(f) == "wasm32"@
            || lower(f) == "riscv64"@,
    ensures
        arch_of(f) is Ok,
        filter_holds(t, f) <==> arch_of(f) == Ok::<Arch, CoreErrorView>(t.arch),
        filters_hold(t, seq![f]) <==> arch_of(f) == Ok::<Arch, CoreErrorView>(t.arch),
{
    lemma_names();
    lemma_plain_filter(t, f);
}

/// The name that is written for an architecture is a filter that its targets pass, and no others.
pub proof fn the_text_of_an_architecture_is_a_filter(t: TripleView, a: Arch)
    ensures
        filter_holds(t, arch_text(a)) <==> t.arch == a,
        filters_hold(t, seq![arch_text(a)]) <==> t.arch == a,
{
    lemma_names();
    arch_text_parses_back(a);
    lemma_written_small();
    an_architecture_filter_asks_for_the_architecture(t, arch_text(a));
}

/// A filter that names an environment is passed by the targets of the environment that the name
/// parses to, and by no others.
pub proof fn an_environment_filter_asks_for_the_environment(t: TripleView, f: Seq<char>)
    requires
        is_ascii_chars(f),
        lower(f) == "msvc"@ || lower(f) == "gnu"@ || lower(f) == "musl"@,
    ensures
        filter_holds(t, f) <==> environment_of(lower(f)) == t.env,
        filters_hold(t, seq![f]) <==> environment_of(lower(f)) == t.env,
        lower(f) == "msvc"@ ==> environment_of(lower(f)) == Environment::Msvc,
        lower(f) == "gnu"@ ==> environment_of(lower(f)) == Environment::Gnu,
        lower(f) == "musl"@ ==> environment_of(lower(f)) == Environment::Musl,
{
    lemma_names();
    lemma_plain_filter(t, f);
    environment_text_parses_back(Environment::Msvc);
    environment_text_parses_back(Environment::Gnu);
    environment_text_parses_back(Environment::Musl);
}

/// Any other filter asks for the whole triple.
pub proof fn any_other_filter_asks_for_the_triple(t: TripleView, f: Seq<char>)
    requires
        !is_negated(f),
        lower(f) != "windows"@,
        lower(f) != "win"@,
        lower(f) != "linux"@,
        lower(f) != "macos"@,
        lower(f) != "darwin"@,
        lower(f) != "osx"@,
        lower(f) != "ios"@,
        lower(f) != "android"@,
        lower(f) != "emscripten"@,
        lower(f) != "x86_64"@,
        lower(f) != "aarch64"@,
        lower(f) != "arm64"@,
        lower(f) != "arm"@,
        lower(f) != "x86"@,
        lower(f) != "wasm32"@,
        lower(f) != "riscv64"@,
        lower(f) != "msvc"@,
        lower(f) != "gnu"@,
        lower(f) != "musl"@,
    ensures
        filter_holds(t, f) <==> lower(f) == lower(t.raw),
{
}

/// A target passes a list of filters that begin with no `!` where it passes one of them, and a
/// filter with a `!` added to a list shuts out exactly the targets that pass what stands behind it.
pub proof fn filters_admit_or_shut_out(
    t: TripleView,
    filters: Seq<Seq<char>>,
    f: Seq<char>,
    g: Seq<char>,
)
    requires
        !is_negated(f),
        !is_negated(g),
    ensures
        filters_hold(t, seq![f]) <==> filter_holds(t, f),
        filters_hold(t, seq![f, g]) <==> filter_holds(t, f) || filter_holds(t, g),
        filters_hold(t, filters.push("!"@ + f)) <==> filters_hold(t, filters) && !filter_holds(
            t,
            f,
        ),
        filters_hold(t, filters.push(f)) && !filters_hold(t, filters) ==> filter_holds(t, f),
        filters_hold(t, filters.push(f)) && (forall|i: int|
            0 <= i < filters.len() ==> is_negated(#[trigger] filters[i])) ==> filter_holds(t, f),
        filters_hold(t, filters) && filter_holds(t, f) ==> filters_hold(t, filters.push(f)),
{
    let n = "!"@ + f;
    negation_inverts_a_filter(t, f);
    assert(n.take("!"@.len() as int) =~= "!"@);
    let one = seq![f];
    assert(one[0] == f);
    let two = seq![f, g];
    assert(two[0] == f && two[1] == g);
    let more = filters.push(n);
    assert(more[filters.len() as int] == n);
    assert forall|i: int| 0 <= i < filters.len() implies more[i] == #[trigger] filters[i] by {}
    if filters_hold(t, more) {
        assert forall|i: int|
            0 <= i < filters.len() && is_negated(#[trigger] filters[i]) implies filter_holds(
            t,
            filters[i],
        ) by {
            assert(is_negated(more[i]));
        }
        if exists|i: int| 0 <= i < filters.len() && !is_negated(#[trigger] filters[i]) {
            let i = choose|i: int| 0 <= i < filters.len() && !is_negated(#[trigger] filters[i]);
            assert(!is_negated(more[i]));
            let j = choose|j: int|
                0 <= j < more.len() && !is_negated(#[trigger] more[j]) && filter_holds(t, more[j]);
            assert(filters[j] == more[j]);
        }
        assert(is_negated(more[filters.len() as int]));
    }
    if filters_hold(t, filters) && !filter_holds(t, f) {
        if exists|i: int| 0 <= i < more.len() && !is_negated(#[trigger] more[i]) {
            let i = choose|i: int| 0 <= i < more.len() && !is_negated(#[trigger] more[i]);
            assert(!is_negated(filters[i]));
            let j = choose|j: int|
                0 <= j < filters.len() && !is_negated(#[trigger] filters[j]) && filter_holds(
                    t,
                    filters[j],
                );
            assert(more[j] == filters[j]);
        }
    }
    let most = filters.push(f);
    assert(most[filters.len() as int] == f);
    assert forall|i: int| 0 <= i < filters.len() implies most[i] == #[trigger] filters[i] by {}
    if filters_hold(t, most) {
        let j = choose|j: int|
            0 <= j < most.len() && !is_negated(#[trigger] most[j]) && filter_holds(t, most[j]);
        if j < filters.len() {
            assert(!is_negated(filters[j]));
            assert forall|i: int|
                0 <= i < filters.len() && is_negated(#[trigger] filters[i]) implies filter_holds(
                t,
                filters[i],
            ) by {
                assert(is_negated(most[i]));
            }
            assert(filters_hold(t, filters));
        }
    }
}

/// A triple of four parts is an architecture, a vendor, a system and an environment, each where it
/// stands. It keeps its text.
pub proof fn four_parts_are_read_in_order(
    a: Seq<char>,
    v: Seq<char>,
    o: Seq<char>,
    e: Seq<char>,
    arch: Arch,
    os: Os,
)
    requires
        !a.contains('-'),
        !v.contains('-'),
        !o.contains('-'),
        !e.contains('-'),
        arch_of(a) == Ok::<Arch, CoreErrorView>(arch),
        os_of(o) == Ok::<Os, CoreErrorView>(os),
        !has_prefix(lower(o), "mingw"@),
        !has_part(lower(a + "-"@ + v + "-"@ + o + "-"@ + e), "android"@),
        environment_of(e) != Environment::AndroidEabi,
    ensures
        triple_of(a + "-"@ + v + "-"@ + o + "-"@ + e) == Ok::<TripleView, CoreErrorView>(
            (TripleView {
                raw: a + "-"@ + v + "-"@ + o + "-"@ + e,
                arch,
                vendor: v,
                os,
                env: environment_of(e),
            }),
        ),
{
    reveal_strlit("-");
    assert("-"@ =~= seq!['-']);
    let s = a + "-"@ + v + "-"@ + o + "-"@ + e;
    lemma_four_parts(a, v, o, e, s);
}

/// A triple of three parts leaves the environment out, or the vendor where the system is Linux.
pub proof fn three_parts_leave_one_out(
    a: Seq<char>,
    x: Seq<char>,
    y: Seq<char>,
    arch: Arch,
    os: Os,
)
    requires
        !a.contains('-'),
        !x.contains('-'),
        !y.contains('-'),
        arch_of(a) == Ok::<Arch, CoreErrorView>(arch),
        x != "linux"@ ==> os_of(y) == Ok::<Os, CoreErrorView>(os),
        x != "linux"@ ==> !has_prefix(lower(y), "mingw"@),
        x == "linux"@ ==> environment_of(y) != Environment::AndroidEabi,
        !has_part(lower(a + "-"@ + x + "-"@ + y), "android"@),
    ensures
        triple_of(a + "-"@ + x + "-"@ + y) == Ok::<TripleView, CoreErrorView>(
            if x == "linux"@ {
                (TripleView {
                    raw: a + "-"@ + x + "-"@ + y,
                    arch,
                    vendor: "unknown"@,
                    os: Os::Linux,
                    env: environment_of(y),
                })
            } else {
                (TripleView {
                    raw: a + "-"@ + x + "-"@ + y,
                    arch,
                    vendor: x,
                    os,
                    env: Environment::Unset,
                })
            },
        ),
{
    reveal_strlit("-");
    assert("-"@ =~= seq!['-']);
    let s = a + "-"@ + x + "-"@ + y;
    lemma_three_parts(a, x, y, s);
    lemma_names();
    reveal_strlit("linux");
    reveal_strlit("apple");
    assert("apple"@[0] == 'a');
    lemma_lower_kept("linux"@);
    environment_text_parses_back(Environment::Unset);
    the_names_of_systems("linux"@);
    if x == "linux"@ && has_prefix(lower(x), "mingw"@) {
        assert(x.take(5)[0] == 'l');
    }
}

/// A triple that names Android anywhere is a target for Android, unless its system is MinGW, which
/// is Windows with the GNU environment. Without a known architecture there is no target.
pub proof fn android_and_mingw_are_known_by_their_names(
    a: Seq<char>,
    v: Seq<char>,
    o: Seq<char>,
    e: Seq<char>,
)
    requires
        !a.contains('-'),
        !v.contains('-'),
        !o.contains('-'),
        !e.contains('-'),
    ensures
        ({
            let s = a + "-"@ + v + "-"@ + o + "-"@ + e;
            let android = has_part(lower(s), "android"@) || environment_of(e)
                == Environment::AndroidEabi;
            let mingw = has_prefix(lower(o), "mingw"@);
            &&& arch_of(a) is Err ==> triple_of(s) is Err && triple_of(s)->Err_0
                == arch_of(a)->Err_0
            &&& arch_of(a) is Ok && android ==> triple_of(s) is Ok
            &&& arch_of(a) is Ok && os_of(o) is Ok ==> triple_of(s) is Ok
            &&& triple_of(s) matches Ok(t) ==> {
                &&& t.raw == s
                &&& t.vendor == v
                &&& android && !mingw ==> t.os == Os::Android && t.env == environment_of(e)
                &&& mingw ==> t.os == Os::Windows && t.env == Environment::Gnu
            }
        }),
{
    reveal_strlit("-");
    assert("-"@ =~= seq!['-']);
    let s = a + "-"@ + v + "-"@ + o + "-"@ + e;
    lemma_four_parts(a, v, o, e, s);
}

/// Where the system is not known the error names it and the triple.
pub proof fn an_unknown_system_is_named(
    a: Seq<char>,
    v: Seq<char>,
    o: Seq<char>,
    e: Seq<char>,
)
    requires
        !a.contains('-'),
        !v.contains('-'),
        !o.contains('-'),
        !e.contains('-'),
        arch_of(a) is Ok,
        os_of(o) is Err,
        !has_part(lower(a + "-"@ + v + "-"@ + o + "-"@ + e), "android"@),
        environment_of(e) != Environment::AndroidEabi,
    ensures
        triple_of(a + "-"@ + v + "-"@ + o + "-"@ + e) == Err::<TripleView, CoreErrorView>(
            CoreErrorView::TargetParse(
                "Unknown OS '"@ + o + "' in target triple '"@ + (a + "-"@ + v + "-"@ + o + "-"@ + e)
                    + "' (supported: windows, linux, darwin/macos, ios, android, emscripten)"@,
            ),
        ),
{
    reveal_strlit("-");
    assert("-"@ =~= seq!['-']);
    let s = a + "-"@ + v + "-"@ + o + "-"@ + e;
    lemma_four_parts(a, v, o, e, s);
}

/// The environment is known by how its name begins.
pub proof fn an_environment_is_known_by_its_beginning(x: Seq<char>)
    ensures
        environment_of("gnu"@ + x) == Environment::Gnu,
        environment_of("musl"@ + x) == Environment::Musl,
        environment_of("msvc"@ + x) == Environment::Msvc,
        environment_of("android"@ + x) == Environment::AndroidEabi,
        environment_of(""@) == Environment::Unset,
        environment_of(x) == Environment::Unset <==> !has_prefix(x, "gnu"@) && !has_prefix(
            x,
            "musl"@,
        ) && !has_prefix(x, "msvc"@) && !has_prefix(x, "android"@),
{
    lemma_names();
    reveal_strlit("androideabi");
    reveal_strlit("android");
    environment_text_parses_back(Environment::Unset);
    what_is_left_without_an_end("gnu"@ + x, "gnu"@, x);
    what_is_left_without_an_end("musl"@ + x, "musl"@, x);
    what_is_left_without_an_end("msvc"@ + x, "msvc"@, x);
    what_is_left_without_an_end("android"@ + x, "android"@, x);
    lemma_begins("gnu"@, x);
    lemma_begins("musl"@, x);
    lemma_begins("msvc"@, x);
    lemma_begins("android"@, x);
    if has_prefix(x, "androideabi"@) {
        assert(x.take(7) =~= x.take(11).take(7));
        assert("androideabi"@.take(7) =~= "android"@);
    }
}

/// A text begins as its beginning does.
proof fn lemma_begins(p: Seq<char>, x: Seq<char>)
    requires
        p.len() > 2,
    ensures
        forall|q: Seq<char>| #[trigger]
            has_prefix(p + x, q) && q.len() > 1 ==> q[0] == p[0] && q[1] == p[1],
{
    assert forall|q: Seq<char>| #[trigger] has_prefix(p + x, q) && q.len() > 1 implies q[0] == p[0]
        && q[1] == p[1] by {
        assert((p + x).take(q.len() as int)[0] == p[0]);
        assert((p + x).take(q.len() as int)[1] == p[1]);
    }
}

/// The host's own triple is of its own system and architecture: MSVC on Windows, GNU on Linux. A
/// host that is not known counts as Linux on `x86_64`.
pub proof fn a_host_builds_for_itself(os: Seq<char>, arch: Seq<char>)
    ensures
        host_text(os, arch) is Some <==> (os == "windows"@ || os == "linux"@ || os == "macos"@) && (
        arch == "x86_64"@ || arch == "aarch64"@),
        host_text(os, arch) matches Some(s) ==> (triple_of(s) matches Ok(t) && os_of(os) == Ok::<
            Os,
            CoreErrorView,
        >(t.os) && arch_of(arch) == Ok::<Arch, CoreErrorView>(t.arch) && t.raw == s && (t.os
            == Os::Windows ==> t.env == Environment::Msvc) && (t.os == Os::Linux ==> t.env
            == Environment::Gnu)),
        unknown_host().os == Os::Linux && unknown_host().arch == Arch::X86_64,
{
    reveal_strlit("aarch64-apple-darwin");
    reveal_strlit("aarch64-pc-windows-msvc");
    reveal_strlit("aarch64-unknown-linux-gnu");
    reveal_strlit("x86_64-apple-darwin");
    reveal_strlit("x86_64-pc-windows-msvc");
    reveal_strlit("x86_64-unknown-linux-gnu");
    host_text_parses(os, arch);
    lemma_names();
    lemma_host_parts();
    os_text_parses_back(Os::Windows);
    os_text_parses_back(Os::Linux);
    os_text_parses_back(Os::Macos);
    arch_text_parses_back(Arch::X86_64);
    arch_text_parses_back(Arch::Arm64);
    environment_text_parses_back(Environment::Msvc);
    environment_text_parses_back(Environment::Gnu);
    environment_text_parses_back(Environment::Unset);
}

proof fn lemma_host_parts()
    ensures
        pieces("x86_64-pc-windows-msvc"@, "-"@) == seq!["x86_64"@, "pc"@, "windows"@, "msvc"@],
        pieces("aarch64-pc-windows-msvc"@, "-"@) == seq!["aarch64"@, "pc"@, "windows"@, "msvc"@],
        pieces("x86_64-unknown-linux-gnu"@, "-"@) == seq!["x86_64"@, "unknown"@, "linux"@, "gnu"@],
        pieces("aarch64-unknown-linux-gnu"@, "-"@) == seq![
            "aarch64"@,
            "unknown"@,
            "linux"@,
            "gnu"@,
        ],
        pieces("aarch64-apple-darwin"@, "-"@) == seq!["aarch64"@, "apple"@, "darwin"@],
        pieces("x86_64-apple-darwin"@, "-"@) == seq!["x86_64"@, "apple"@, "darwin"@],
        lower("windows"@) == "windows"@,
        lower("linux"@) == "linux"@,
        lower("darwin"@) == "darwin"@,
        "apple"@.len() == 5 && "apple"@[0] == 'a',
        "pc"@.len() == 2,
        "unknown"@.len() == 7,
        !has_part(lower("x86_64-pc-windows-msvc"@), "android"@),
        !has_part(lower("aarch64-pc-windows-msvc"@), "android"@),
        !has_part(lower("x86_64-unknown-linux-gnu"@), "android"@),
        !has_part(lower("aarch64-unknown-linux-gnu"@), "android"@),
        !has_part(lower("aarch64-apple-darwin"@), "android"@),
        !has_part(lower("x86_64-apple-darwin"@), "android"@),
{
    reveal_strlit("aarch64");
    reveal_strlit("aarch64-apple-darwin");
    reveal_strlit("aarch64-pc-windows-msvc");
    reveal_strlit("aarch64-unknown-linux-gnu");
    reveal_strlit("apple");
    reveal_strlit("darwin");
    reveal_strlit("gnu");
    reveal_strlit("linux");
    reveal_strlit("msvc");
    reveal_strlit("pc");
    reveal_strlit("unknown");
    reveal_strlit("windows");
    reveal_strlit("x86_64");
    reveal_strlit("x86_64-apple-darwin");
    reveal_strlit("x86_64-pc-windows-msvc");
    reveal_strlit("x86_64-unknown-linux-gnu");
    reveal_strlit("android");
    lemma_lower_kept("windows"@);
    lemma_lower_kept("linux"@);
    lemma_lower_kept("darwin"@);
    assert("x86_64-pc-windows-msvc"@ =~= "x86_64"@ + seq!['-'] + "pc"@ + seq!['-'] + "windows"@ + seq!['-'] + "msvc"@);
    lemma_four_parts("x86_64"@, "pc"@, "windows"@, "msvc"@, "x86_64-pc-windows-msvc"@);
    lemma_no_android("x86_64-pc-windows-msvc"@);
    assert("aarch64-pc-windows-msvc"@ =~= "aarch64"@ + seq!['-'] + "pc"@ + seq!['-'] + "windows"@ + seq!['-'] + "msvc"@);
    lemma_four_parts("aarch64"@, "pc"@, "windows"@, "msvc"@, "aarch64-pc-windows-msvc"@);
    lemma_no_android("aarch64-pc-windows-msvc"@);
    assert("x86_64-unknown-linux-gnu"@ =~= "x86_64"@ + seq!['-'] + "unknown"@ + seq!['-'] + "linux"@ + seq!['-'] + "gnu"@);
    lemma_four_parts("x86_64"@, "unknown"@, "linux"@, "gnu"@, "x86_64-unknown-linux-gnu"@);
    lemma_no_android("x86_64-unknown-linux-gnu"@);
    assert("aarch64-unknown-linux-gnu"@ =~= "aarch64"@ + seq!['-'] + "unknown"@ + seq!['-'] + "linux"@ + seq!['-'] + "gnu"@);
    lemma_four_parts("aarch64"@, "unknown"@, "linux"@, "gnu"@, "aarch64-unknown-linux-gnu"@);
    lemma_no_android("aarch64-unknown-linux-gnu"@);
    assert("aarch64-apple-darwin"@ =~= "aarch64"@ + seq!['-'] + "apple"@ + seq!['-'] + "darwin"@);
    lemma_three_parts("aarch64"@, "apple"@, "darwin"@, "aarch64-apple-darwin"@);
    lemma_no_android("aarch64-apple-darwin"@);
    assert("x86_64-apple-darwin"@ =~= "x86_64"@ + seq!['-'] + "apple"@ + seq!['-'] + "darwin"@);
    lemma_three_parts("x86_64"@, "apple"@, "darwin"@, "x86_64-apple-darwin"@);
    lemma_no_android("x86_64-apple-darwin"@);
}

proof fn lemma_no_android(s: Seq<char>)
    requires
        forall|i: int| 0 <= i < s.len() ==> '\0' <= #[trigger] s[i] <= '\u{7f}'
            && !('A' <= s[i] <= 'Z'),
        forall|i: int| 0 <= i < s.len() - 3 ==> !(#[trigger] s[i] == 'd' && s[i + 1] == 'r' && s[i
            + 2] == 'o'),
    ensures
        !has_part(lower(s), "android"@),
{
    reveal_strlit("android");
    lemma_lower_kept(s);
    lemma_find_from(s, "android"@, 0);
    if let Some(k) = find(s, "android"@) {
        let w = s.subrange(k, k + 7);
        assert(w[2] == 'd' && w[3] == 'r' && w[4] == 'o');
        assert(s[k + 2] == 'd' && s[k + 2 + 1] == 'r' && s[k + 2 + 2] == 'o');
    }
}

/// The names of the build types, in either case, and no other text.
pub proof fn the_names_of_build_types(s: Seq<char>)
    ensures
        build_type_of(s) == Ok::<BuildType, CoreErrorView>(BuildType::Debug) <==> lower(s)
            == "debug"@,
        build_type_of(s) == Ok::<BuildType, CoreErrorView>(BuildType::Release) <==> lower(s)
            == "release"@,
        build_type_of(s) == Ok::<BuildType, CoreErrorView>(BuildType::RelWithDebInfo) <==> lower(s)
            == "relwithdebinfo"@ || lower(s) == "relwithdeb"@,
        build_type_of(s) == Ok::<BuildType, CoreErrorView>(BuildType::MinSizeRel) <==> lower(s)
            == "minsizerel"@ || lower(s) == "minsize"@,
        build_type_of(s) is Err ==> build_type_of(s) == Err::<BuildType, CoreErrorView>(
            CoreErrorView::Manifest("Unknown build type: "@ + s),
        ),
        build_type_text(BuildType::Debug) == "Debug"@,
        build_type_text(BuildType::Release) == "Release"@,
        build_type_text(BuildType::RelWithDebInfo) == "RelWithDebInfo"@,
        build_type_text(BuildType::MinSizeRel) == "MinSizeRel"@,
{
    reveal_strlit("debug");
    reveal_strlit("release");
    reveal_strlit("relwithdebinfo");
    reveal_strlit("relwithdeb");
    reveal_strlit("minsizerel");
    reveal_strlit("minsize");
    assert("release"@[0] == 'r' && "minsize"@[0] == 'm');
    assert("relwithdeb"@[0] == 'r' && "minsizerel"@[0] == 'm');
    assert("relwithdeb"@.len() == 10 && "minsizerel"@.len() == 10 && "relwithdebinfo"@.len() == 14);
}

/// The names of the runtime libraries, and no other text.
pub proof fn the_names_of_runtimes(s: Seq<char>)
    ensures
        runtime_of(s) == Ok::<VCRuntime, CoreErrorView>(VCRuntime::MultiThreadedDLL) <==> s == "MultiThreadedDLL"@
            || s == "dynamic"@ || s == "/MD"@,
        runtime_of(s) == Ok::<VCRuntime, CoreErrorView>(VCRuntime::MultiThreadedDebugDLL) <==> s == "MultiThreadedDebugDLL"@
            || s == "dynamic_debug"@ || s == "/MDd"@,
        runtime_of(s) == Ok::<VCRuntime, CoreErrorView>(VCRuntime::MultiThreaded) <==> s == "MultiThreaded"@
            || s == "static"@ || s == "/MT"@,
        runtime_of(s) == Ok::<VCRuntime, CoreErrorView>(VCRuntime::MultiThreadedDebug) <==> s == "MultiThreadedDebug"@
            || s == "static_debug"@ || s == "/MTd"@,
        runtime_of(s) is Err ==> runtime_of(s) == Err::<VCRuntime, CoreErrorView>(
            CoreErrorView::Manifest("Unknown MSVC runtime library: "@ + s),
        ),
{
    reveal_strlit("MultiThreadedDLL");
    assert("MultiThreadedDLL"@.len() == 16 && "MultiThreadedDLL"@[0] == 'M'
        && "MultiThreadedDLL"@[1] == 'u' && "MultiThreadedDLL"@[2] == 'l');
    reveal_strlit("dynamic");
    assert("dynamic"@.len() == 7 && "dynamic"@[0] == 'd' && "dynamic"@[1] == 'y'
        && "dynamic"@[2] == 'n');
    reveal_strlit("/MD");
    assert("/MD"@.len() == 3 && "/MD"@[0] == '/' && "/MD"@[1] == 'M' && "/MD"@[2] == 'D');
    reveal_strlit("MultiThreadedDebugDLL");
    assert("MultiThreadedDebugDLL"@.len() == 21 && "MultiThreadedDebugDLL"@[0] == 'M'
        && "MultiThreadedDebugDLL"@[1] == 'u' && "MultiThreadedDebugDLL"@[2] == 'l');
    reveal_strlit("dynamic_debug");
    assert("dynamic_debug"@.len() == 13 && "dynamic_debug"@[0] == 'd' && "dynamic_debug"@[1] == 'y'
        && "dynamic_debug"@[2] == 'n');
    reveal_strlit("/MDd");
    assert("/MDd"@.len() == 4 && "/MDd"@[0] == '/' && "/MDd"@[1] == 'M' && "/MDd"@[2] == 'D');
    reveal_strlit("MultiThreaded");
    assert("MultiThreaded"@.len() == 13 && "MultiThreaded"@[0] == 'M' && "MultiThreaded"@[1] == 'u'
        && "MultiThreaded"@[2] == 'l');
    reveal_strlit("static");
    assert("static"@.len() == 6 && "static"@[0] == 's' && "static"@[1] == 't'
        && "static"@[2] == 'a');
    reveal_strlit("/MT");
    assert("/MT"@.len() == 3 && "/MT"@[0] == '/' && "/MT"@[1] == 'M' && "/MT"@[2] == 'T');
    reveal_strlit("MultiThreadedDebug");
    assert("MultiThreadedDebug"@.len() == 18 && "MultiThreadedDebug"@[0] == 'M'
        && "MultiThreadedDebug"@[1] == 'u' && "MultiThreadedDebug"@[2] == 'l');
    reveal_strlit("static_debug");
    assert("static_debug"@.len() == 12 && "static_debug"@[0] == 's' && "static_debug"@[1] == 't'
        && "static_debug"@[2] == 'a');
    reveal_strlit("/MTd");
    assert("/MTd"@.len() == 4 && "/MTd"@[0] == '/' && "/MTd"@[1] == 'M' && "/MTd"@[2] == 'T');
}

} // verus!
