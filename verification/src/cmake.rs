//! The CMake runs that build and install a package.
use crate::path::{join_path, path_join};
use crate::table::{lemma_lookup_at, lookup, ordered, Table};
use crate::target::CxxStdlib;
use crate::text::{
    after_prefix, all_digits, cat2, cat3, cat4, cat5, decimal, decimal_text, extend_list,
    has_prefix, is_all_digits, is_digit, is_space, join, joined, lemma_cut_at, lemma_lower_kept,
    lines, lines_of, lower, opt_view, replace_char, same, strip_prefix, to_lowercase, trim, trimmed,
    views, with_char_replaced,
};
use vstd::prelude::*;
use vstd::string::*;

verus! {

broadcast use vstd::string::group_string_axioms;

pub struct CMakeRunner;

/// One build of a package with CMake.
pub struct CMakeBuild<'a> {
    pub source_dir: &'a str,
    pub build_dir: &'a str,
    pub install_prefix: &'a str,
    pub build_type: &'a str,
    pub shared: bool,
    pub msvc_runtime: Option<&'a str>,
    pub c_compiler: Option<&'a str>,
    pub cxx_compiler: Option<&'a str>,
    pub toolchain_file: Option<&'a str>,
    pub definitions: &'a Table<String>,
    pub prefix_paths: &'a [String],
    pub host_tools_bins: &'a [String],
    pub log_dir: Option<&'a str>,
    pub flags: &'a [String],
    pub cxx_std: &'a str,
    pub cxx_stdlib: CxxStdlib,
    pub lto: bool,
    pub jobs: Option<usize>,
    pub collect_pdbs: bool,
    /// Leaves out what the environment says of compilers and toolchains. Tools for the host are
    /// built so when the project itself is built for something else.
    pub isolate_env: bool,
}

/// The variables of the environment that choose compilers and toolchains.
pub const TOOLCHAIN_ENV_VARS: [&'static str; 22] = [
    "CC",
    "CXX",
    "CPP",
    "AS",
    "AR",
    "LD",
    "RC",
    "ASM",
    "OBJC",
    "OBJCXX",
    "CUDACXX",
    "CFLAGS",
    "CXXFLAGS",
    "CPPFLAGS",
    "LDFLAGS",
    "ASMFLAGS",
    "RCFLAGS",
    "CMAKE_TOOLCHAIN_FILE",
    "CMAKE_GENERATOR_PLATFORM",
    "CMAKE_GENERATOR_TOOLSET",
    "SDKROOT",
    "MACOSX_DEPLOYMENT_TARGET",
];

// ---------------------------------------------------------------------------
// The C++ standard
// ---------------------------------------------------------------------------

/// The number of a standard and whether extensions are on, of a value in small letters.
pub open spec fn standard_parts(v: Seq<char>) -> (Seq<char>, bool) {
    match after_prefix(v, "gnu++"@) {
        Some(n) => (n, true),
        None => match after_prefix(v, "c++"@) {
            Some(n) => (n, false),
            None => (v, false),
        },
    }
}

/// The number of a standard that is called by its working title.
pub open spec fn final_number(n: Seq<char>) -> Seq<char> {
    if n == "0x"@ {
        "11"@
    } else if n == "1y"@ {
        "14"@
    } else if n == "1z"@ {
        "17"@
    } else if n == "2a"@ {
        "20"@
    } else if n == "2b"@ {
        "23"@
    } else if n == "2c"@ {
        "26"@
    } else {
        n
    }
}

/// The message for a standard that is none.
pub open spec fn invalid_standard_message(value: Seq<char>) -> Seq<char> {
    "Invalid cxx_std '"@ + value + "': expected e.g. \"17\", \"c++20\" or \"gnu++17\""@
}

/// What a value such as `17`, `c++17` or `gnu++17` says: nothing, or a number and whether
/// extensions are on.
pub open spec fn standard_of(value: Seq<char>) -> Result<Option<(Seq<char>, bool)>, Seq<char>> {
    let v = lower(trimmed(value));
    let (n, ext) = standard_parts(v);
    let number = final_number(n);
    if v.len() == 0 {
        Ok(None)
    } else if number.len() == 0 || !all_digits(number) {
        Err(invalid_standard_message(value))
    } else {
        Ok(Some((number, ext)))
    }
}

/// A parsed standard as a view.
pub open spec fn standard_view(r: Result<Option<(String, bool)>, String>) -> Result<
    Option<(Seq<char>, bool)>,
    Seq<char>,
> {
    match r {
        Ok(Some((n, ext))) => Ok(Some((n@, ext))),
        Ok(None) => Ok(None),
        Err(m) => Err(m@),
    }
}

/// The values of `CMAKE_CXX_STANDARD` and `CMAKE_CXX_EXTENSIONS` for a standard.
pub fn parse_cxx_std(value: &str) -> (r: Result<Option<(String, bool)>, String>)
    ensures
        standard_view(r) == standard_of(value@),
        r matches Ok(None) <==> trimmed(value@).len() == 0,
{
    let t = trim(value);
    let v = to_lowercase(t.as_str());
    if v.as_str().unicode_len() == 0 {
        return Ok(None);
    }
    let (n, ext) = match strip_prefix(v.as_str(), "gnu++") {
        Some(n) => (n, true),
        None => match strip_prefix(v.as_str(), "c++") {
            Some(n) => (n, false),
            None => (v, false),
        },
    };
    let number = if same(n.as_str(), "0x") {
        "11".to_owned()
    } else if same(n.as_str(), "1y") {
        "14".to_owned()
    } else if same(n.as_str(), "1z") {
        "17".to_owned()
    } else if same(n.as_str(), "2a") {
        "20".to_owned()
    } else if same(n.as_str(), "2b") {
        "23".to_owned()
    } else if same(n.as_str(), "2c") {
        "26".to_owned()
    } else {
        n
    };
    if number.as_str().unicode_len() == 0 || !is_all_digits(number.as_str()) {
        return Err(
            cat3(
                "Invalid cxx_std '",
                value,
                "': expected e.g. \"17\", \"c++20\" or \"gnu++17\"",
            ),
        );
    }
    Ok(Some((number, ext)))
}

// ---------------------------------------------------------------------------
// Configuring
// ---------------------------------------------------------------------------

/// A path as CMake takes it, with `/` for `\\`.
pub open spec fn normed(p: Seq<char>) -> Seq<char> {
    with_char_replaced(p, '\\', '/')
}

/// A path as CMake takes it.
pub fn norm(p: &str) -> (r: String)
    ensures
        r@ == normed(p@),
{
    replace_char(p, '\\', '/')
}

/// Paths as CMake takes them.
pub open spec fn normed_all(ps: Seq<Seq<char>>) -> Seq<Seq<char>> {
    ps.map_values(|p: Seq<char>| normed(p))
}

/// `ON` or `OFF`.
pub open spec fn on_off(b: bool) -> Seq<char> {
    if b {
        "ON"@
    } else {
        "OFF"@
    }
}

fn on_off_name(b: bool) -> (r: &'static str)
    ensures
        r@ == on_off(b),
{
    if b {
        "ON"
    } else {
        "OFF"
    }
}

/// Whether a definition is given.
pub open spec fn defines(b: &CMakeBuild, key: Seq<char>) -> bool {
    lookup(b.definitions.texts(), key) is Some
}

/// The arguments that every build has.
pub open spec fn base_args(
    b: &CMakeBuild,
    src: Seq<char>,
    bld: Seq<char>,
    pfx: Seq<char>,
) -> Seq<Seq<char>> {
    seq![
        "-S"@,
        normed(src),
        "-B"@,
        normed(bld),
        "-GNinja"@,
        "-DCMAKE_BUILD_TYPE="@ + b.build_type@,
        "-DCMAKE_INSTALL_PREFIX="@ + normed(pfx),
        "-DBUILD_SHARED_LIBS="@ + on_off(b.shared),
    ]
}

/// The arguments for the MSVC runtime.
pub open spec fn runtime_args(b: &CMakeBuild) -> Seq<Seq<char>> {
    match b.msvc_runtime {
        Some(rt) => seq![
            "-DCMAKE_POLICY_DEFAULT_CMP0091=NEW"@,
            "-DCMAKE_MSVC_RUNTIME_LIBRARY="@ + rt@,
        ],
        None => Seq::empty(),
    }
}

/// One argument for a path, where it is given.
pub open spec fn path_arg(key: Seq<char>, p: Option<&str>) -> Seq<Seq<char>> {
    match p {
        Some(q) => seq![key + normed(q@)],
        None => Seq::empty(),
    }
}

/// The arguments for the toolchain: its file, or else the compilers.
pub open spec fn toolchain_args(b: &CMakeBuild) -> Seq<Seq<char>> {
    if b.toolchain_file is Some {
        path_arg("-DCMAKE_TOOLCHAIN_FILE="@, b.toolchain_file)
    } else {
        path_arg("-DCMAKE_C_COMPILER="@, b.c_compiler) + path_arg(
            "-DCMAKE_CXX_COMPILER="@,
            b.cxx_compiler,
        )
    }
}

/// The arguments for where dependencies are found.
pub open spec fn prefix_args(b: &CMakeBuild) -> Seq<Seq<char>> {
    let all = joined(normed_all(views(b.prefix_paths@)), ";"@);
    if b.prefix_paths@.len() == 0 {
        Seq::empty()
    } else {
        seq!["-DCMAKE_PREFIX_PATH="@ + all, "-DCMAKE_FIND_ROOT_PATH="@ + all]
    }
}

/// The argument for position independent code, which static libraries inside of shared ones need.
pub open spec fn pic_args(b: &CMakeBuild) -> Seq<Seq<char>> {
    if defines(b, "CMAKE_POSITION_INDEPENDENT_CODE"@) {
        Seq::empty()
    } else {
        seq!["-DCMAKE_POSITION_INDEPENDENT_CODE=ON"@]
    }
}

/// The arguments for the C++ standard, as far as no definition decides it.
pub open spec fn standard_args(b: &CMakeBuild, standard: Option<(Seq<char>, bool)>) -> Seq<
    Seq<char>,
> {
    match standard {
        Some((number, ext)) => (if defines(b, "CMAKE_CXX_STANDARD"@) {
            Seq::empty()
        } else {
            seq!["-DCMAKE_CXX_STANDARD="@ + number]
        }) + (if defines(b, "CMAKE_CXX_EXTENSIONS"@) {
            Seq::empty()
        } else {
            seq!["-DCMAKE_CXX_EXTENSIONS="@ + on_off(ext)]
        }),
        None => Seq::empty(),
    }
}

/// The arguments for link time optimisation, as far as no definition decides it.
pub open spec fn lto_args(b: &CMakeBuild) -> Seq<Seq<char>> {
    if b.lto && !defines(b, "CMAKE_INTERPROCEDURAL_OPTIMIZATION"@) {
        seq![
            "-DCMAKE_POLICY_DEFAULT_CMP0069=NEW"@,
            "-DCMAKE_INTERPROCEDURAL_OPTIMIZATION=ON"@,
        ]
    } else {
        Seq::empty()
    }
}

/// The flags of a definition and those of the build.
pub open spec fn flags_with(b: &CMakeBuild, key: Seq<char>) -> Seq<Seq<char>> {
    (match lookup(b.definitions.texts(), key) {
        Some(v) => seq![v],
        None => Seq::empty(),
    }) + views(b.flags@)
}

/// The flag that chooses the C++ standard library.
pub open spec fn stdlib_flag(c: CxxStdlib) -> Seq<Seq<char>> {
    match c {
        CxxStdlib::Libcxx => seq!["-stdlib=libc++"@],
        CxxStdlib::Libstdcxx => seq!["-stdlib=libstdc++"@],
        _ => Seq::empty(),
    }
}

/// One argument for flags, where there are any.
pub open spec fn flag_arg(key: Seq<char>, flags: Seq<Seq<char>>) -> Seq<Seq<char>> {
    if flags.len() == 0 {
        Seq::empty()
    } else {
        seq![key + joined(flags, " "@)]
    }
}

/// The arguments for the compilers' flags.
pub open spec fn flag_args(b: &CMakeBuild) -> Seq<Seq<char>> {
    flag_arg("-DCMAKE_C_FLAGS="@, flags_with(b, "CMAKE_C_FLAGS"@)) + flag_arg(
        "-DCMAKE_CXX_FLAGS="@,
        flags_with(b, "CMAKE_CXX_FLAGS"@) + stdlib_flag(b.cxx_stdlib),
    )
}

/// The arguments for the definitions, other than those that went into the flags.
pub open spec fn definition_args(pairs: Seq<(Seq<char>, Seq<char>)>) -> Seq<Seq<char>>
    decreases pairs.len(),
{
    if pairs.len() == 0 {
        Seq::empty()
    } else {
        let (k, v) = pairs.last();
        let init = definition_args(pairs.drop_last());
        if k == "CMAKE_C_FLAGS"@ || k == "CMAKE_CXX_FLAGS"@ {
            init
        } else {
            init.push("-D"@ + k + "="@ + v)
        }
    }
}

/// The arguments that configure a build.
pub open spec fn configure_args_of(
    b: &CMakeBuild,
    src: Seq<char>,
    bld: Seq<char>,
    pfx: Seq<char>,
) -> Result<Seq<Seq<char>>, Seq<char>> {
    match standard_of(b.cxx_std@) {
        Ok(standard) => Ok(
            base_args(b, src, bld, pfx) + runtime_args(b) + toolchain_args(b) + prefix_args(b)
                + pic_args(b) + standard_args(b, standard) + lto_args(b) + flag_args(b)
                + definition_args(b.definitions.texts()),
        ),
        Err(m) => Err(m),
    }
}

/// A list of texts, or an error, as views.
pub open spec fn args_view(r: Result<Vec<String>, String>) -> Result<Seq<Seq<char>>, Seq<char>> {
    match r {
        Ok(v) => Ok(views(v@)),
        Err(m) => Err(m@),
    }
}

/// Where nothing is said of the standard and of flags, no argument is made up for them.
pub proof fn defaults_force_nothing(b: &CMakeBuild)
    requires
        trimmed(b.cxx_std@).len() == 0,
        b.flags@.len() == 0,
        b.cxx_stdlib == CxxStdlib::PlatformDefault,
        !defines(b, "CMAKE_C_FLAGS"@),
        !defines(b, "CMAKE_CXX_FLAGS"@),
    ensures
        standard_of(b.cxx_std@) == Ok::<Option<(Seq<char>, bool)>, Seq<char>>(None),
        standard_args(b, None) == Seq::<Seq<char>>::empty(),
        flag_args(b) == Seq::<Seq<char>>::empty(),
{
    let t = trimmed(b.cxx_std@);
    assert(t =~= Seq::<char>::empty());
    crate::text::lemma_lower_kept(t);
    assert(flags_with(b, "CMAKE_C_FLAGS"@) =~= Seq::<Seq<char>>::empty());
    assert(flags_with(b, "CMAKE_CXX_FLAGS"@) + stdlib_flag(b.cxx_stdlib) =~= Seq::<
        Seq<char>,
    >::empty());
    assert(flag_args(b) =~= Seq::<Seq<char>>::empty());
}

/// What a definition says of the standard, of optimisation and of position independence is not
/// said again.
pub proof fn definitions_win(b: &CMakeBuild, standard: Option<(Seq<char>, bool)>)
    ensures
        defines(b, "CMAKE_CXX_STANDARD"@) && defines(b, "CMAKE_CXX_EXTENSIONS"@) ==> standard_args(
            b,
            standard,
        ) == Seq::<Seq<char>>::empty(),
        defines(b, "CMAKE_INTERPROCEDURAL_OPTIMIZATION"@) ==> lto_args(b) == Seq::<
            Seq<char>,
        >::empty(),
        defines(b, "CMAKE_POSITION_INDEPENDENT_CODE"@) ==> pic_args(b) == Seq::<Seq<char>>::empty(),
{
    if defines(b, "CMAKE_CXX_STANDARD"@) && defines(b, "CMAKE_CXX_EXTENSIONS"@) {
        assert(standard_args(b, standard) =~= Seq::<Seq<char>>::empty());
    }
}

/// Adds one text.
fn put(out: &mut Vec<String>, s: String)
    ensures
        views(final(out)@) == views(old(out)@).push(s@),
{
    let ghost before = views(out@);
    out.push(s);
    assert(views(out@) =~= before.push(s@));
}

fn base_list(b: &CMakeBuild, src: &str, bld: &str, pfx: &str) -> (r: Vec<String>)
    ensures
        views(r@) == base_args(b, src@, bld@, pfx@),
{
    let mut out: Vec<String> = Vec::new();
    out.push("-S".to_owned());
    out.push(norm(src));
    out.push("-B".to_owned());
    out.push(norm(bld));
    out.push("-GNinja".to_owned());
    out.push(cat2("-DCMAKE_BUILD_TYPE=", b.build_type));
    let prefix = norm(pfx);
    out.push(cat2("-DCMAKE_INSTALL_PREFIX=", prefix.as_str()));
    out.push(cat2("-DBUILD_SHARED_LIBS=", on_off_name(b.shared)));
    assert(views(out@) =~= base_args(b, src@, bld@, pfx@));
    out
}

fn put_path(out: &mut Vec<String>, key: &str, p: Option<&str>)
    ensures
        views(final(out)@) == views(old(out)@) + path_arg(key@, p),
{
    let ghost before = views(out@);
    if let Some(q) = p {
        let n = norm(q);
        put(out, cat2(key, n.as_str()));
    }
    assert(views(out@) =~= before + path_arg(key@, p));
}

fn norm_all(ps: &[String]) -> (r: Vec<String>)
    ensures
        views(r@) == normed_all(views(ps@)),
{
    let mut out: Vec<String> = Vec::new();
    let mut i: usize = 0;
    while i < ps.len()
        invariant
            i <= ps@.len(),
            out@.len() == i,
            forall|k: int| 0 <= k < i ==> #[trigger] out@[k]@ == normed(ps@[k]@),
        decreases ps@.len() - i,
    {
        let n = norm(ps[i].as_str());
        out.push(n);
        i = i + 1;
    }
    assert(views(out@) =~= normed_all(views(ps@)));
    out
}

fn put_toolchain(out: &mut Vec<String>, b: &CMakeBuild)
    ensures
        views(final(out)@) == views(old(out)@) + toolchain_args(b),
{
    let ghost before = views(out@);
    if b.toolchain_file.is_some() {
        put_path(out, "-DCMAKE_TOOLCHAIN_FILE=", b.toolchain_file);
    } else {
        put_path(out, "-DCMAKE_C_COMPILER=", b.c_compiler);
        put_path(out, "-DCMAKE_CXX_COMPILER=", b.cxx_compiler);
    }
    assert(views(out@) =~= before + toolchain_args(b));
}

fn put_prefixes(out: &mut Vec<String>, b: &CMakeBuild)
    ensures
        views(final(out)@) == views(old(out)@) + prefix_args(b),
{
    let ghost before = views(out@);
    if b.prefix_paths.len() > 0 {
        let all = norm_all(b.prefix_paths);
        let text = join(&all, ";");
        put(out, cat2("-DCMAKE_PREFIX_PATH=", text.as_str()));
        put(out, cat2("-DCMAKE_FIND_ROOT_PATH=", text.as_str()));
    }
    assert(views(out@) =~= before + prefix_args(b));
}

fn put_runtime(out: &mut Vec<String>, b: &CMakeBuild)
    ensures
        views(final(out)@) == views(old(out)@) + runtime_args(b),
{
    let ghost before = views(out@);
    if let Some(rt) = b.msvc_runtime {
        put(out, "-DCMAKE_POLICY_DEFAULT_CMP0091=NEW".to_owned());
        put(out, cat2("-DCMAKE_MSVC_RUNTIME_LIBRARY=", rt));
    }
    assert(views(out@) =~= before + runtime_args(b));
}

fn put_pic(out: &mut Vec<String>, b: &CMakeBuild)
    ensures
        views(final(out)@) == views(old(out)@) + pic_args(b),
{
    let ghost before = views(out@);
    if !b.definitions.has_text("CMAKE_POSITION_INDEPENDENT_CODE") {
        put(out, "-DCMAKE_POSITION_INDEPENDENT_CODE=ON".to_owned());
    }
    assert(views(out@) =~= before + pic_args(b));
}

fn put_standard(out: &mut Vec<String>, b: &CMakeBuild, standard: &Option<(String, bool)>)
    ensures
        views(final(out)@) == views(old(out)@) + standard_args(
            b,
            match standard {
                Some((n, ext)) => Some((n@, *ext)),
                None => None,
            },
        ),
{
    let ghost before = views(out@);
    if let Some((number, ext)) = standard {
        if !b.definitions.has_text("CMAKE_CXX_STANDARD") {
            put(out, cat2("-DCMAKE_CXX_STANDARD=", number.as_str()));
        }
        if !b.definitions.has_text("CMAKE_CXX_EXTENSIONS") {
            put(out, cat2("-DCMAKE_CXX_EXTENSIONS=", on_off_name(*ext)));
        }
    }
    assert(views(out@) =~= before + standard_args(
        b,
        match standard {
            Some((n, ext)) => Some((n@, *ext)),
            None => None,
        },
    ));
}

fn put_lto(out: &mut Vec<String>, b: &CMakeBuild)
    ensures
        views(final(out)@) == views(old(out)@) + lto_args(b),
{
    let ghost before = views(out@);
    if b.lto && !b.definitions.has_text("CMAKE_INTERPROCEDURAL_OPTIMIZATION") {
        put(out, "-DCMAKE_POLICY_DEFAULT_CMP0069=NEW".to_owned());
        put(out, "-DCMAKE_INTERPROCEDURAL_OPTIMIZATION=ON".to_owned());
    }
    assert(views(out@) =~= before + lto_args(b));
}

fn flags_of(b: &CMakeBuild, key: &str) -> (r: Vec<String>)
    ensures
        views(r@) == flags_with(b, key@),
{
    let mut out: Vec<String> = Vec::new();
    assert(views(out@) =~= Seq::<Seq<char>>::empty());
    if let Some(v) = b.definitions.text(key) {
        put(&mut out, v.clone());
        assert(views(out@) =~= seq![v@]);
    }
    extend_list(&mut out, b.flags);
    out
}

fn put_flags(out: &mut Vec<String>, key: &str, flags: &Vec<String>)
    ensures
        views(final(out)@) == views(old(out)@) + flag_arg(key@, views(flags@)),
{
    let ghost before = views(out@);
    if flags.len() > 0 {
        let text = join(flags, " ");
        put(out, cat2(key, text.as_str()));
    }
    assert(views(out@) =~= before + flag_arg(key@, views(flags@)));
}

fn put_all_flags(out: &mut Vec<String>, b: &CMakeBuild)
    ensures
        views(final(out)@) == views(old(out)@) + flag_args(b),
{
    let ghost before = views(out@);
    let c_flags = flags_of(b, "CMAKE_C_FLAGS");
    let mut cxx_flags = flags_of(b, "CMAKE_CXX_FLAGS");
    let ghost own = views(cxx_flags@);
    match b.cxx_stdlib {
        CxxStdlib::Libcxx => put(&mut cxx_flags, "-stdlib=libc++".to_owned()),
        CxxStdlib::Libstdcxx => put(&mut cxx_flags, "-stdlib=libstdc++".to_owned()),
        _ => {},
    }
    assert(views(cxx_flags@) =~= own + stdlib_flag(b.cxx_stdlib));
    put_flags(out, "-DCMAKE_C_FLAGS=", &c_flags);
    put_flags(out, "-DCMAKE_CXX_FLAGS=", &cxx_flags);
    assert(views(out@) =~= before + flag_args(b));
}

fn put_definitions(out: &mut Vec<String>, b: &CMakeBuild)
    ensures
        views(final(out)@) == views(old(out)@) + definition_args(b.definitions.texts()),
{
    let ghost start = views(out@);
    let ghost all = b.definitions.texts();
    let mut i: usize = 0;
    assert(start + definition_args(all.take(0)) =~= start);
    while i < b.definitions.entries.len()
        invariant
            i <= b.definitions.entries@.len(),
            all == b.definitions.texts(),
            views(out@) == start + definition_args(all.take(i as int)),
        decreases b.definitions.entries@.len() - i,
    {
        let k = b.definitions.entries[i].0.as_str();
        let v = b.definitions.entries[i].1.as_str();
        assert(all.take(i + 1).drop_last() =~= all.take(i as int));
        assert(all.take(i + 1).last() == (k@, v@));
        let ghost before = views(out@);
        if !same(k, "CMAKE_C_FLAGS") && !same(k, "CMAKE_CXX_FLAGS") {
            put(out, cat4("-D", k, "=", v));
        }
        assert(views(out@) =~= start + definition_args(all.take(i + 1)));
        i = i + 1;
    }
    assert(all.take(i as int) =~= all);
}

impl CMakeRunner {
    /// The arguments with which CMake configures the build `b`, with the source, build and
    /// install directories as they are on this machine.
    pub fn configure_args(b: &CMakeBuild, src: &str, bld: &str, pfx: &str) -> (r: Result<
        Vec<String>,
        String,
    >)
        ensures
            args_view(r) == configure_args_of(b, src@, bld@, pfx@),
    {
        let standard = match parse_cxx_std(b.cxx_std) {
            Ok(s) => s,
            Err(m) => {
                return Err(m);
            },
        };
        let mut args = base_list(b, src, bld, pfx);
        put_runtime(&mut args, b);
        put_toolchain(&mut args, b);
        put_prefixes(&mut args, b);
        put_pic(&mut args, b);
        put_standard(&mut args, b, &standard);
        put_lto(&mut args, b);
        put_all_flags(&mut args, b);
        put_definitions(&mut args, b);
        Ok(args)
    }
}

// ---------------------------------------------------------------------------
// The runs of one build
// ---------------------------------------------------------------------------

/// One run of CMake: its arguments, whether the variables that choose compilers and toolchains
/// are taken out of its environment, what `PKG_CONFIG_PATH` and `PATH` are set to (an empty list
/// leaves them alone), and the file that its output goes to.
#[derive(Debug)]
pub struct CMakeStep {
    pub name: String,
    pub args: Vec<String>,
    pub isolate_env: bool,
    pub pkg_config_path: Vec<String>,
    pub path: Vec<String>,
    pub log: String,
}

/// One run of CMake as texts.
#[verifier::ext_equal]
pub struct StepView {
    pub name: Seq<char>,
    pub args: Seq<Seq<char>>,
    pub isolate_env: bool,
    pub pkg_config_path: Seq<Seq<char>>,
    pub path: Seq<Seq<char>>,
    pub log: Seq<char>,
}

impl View for CMakeStep {
    type V = StepView;

    open spec fn view(&self) -> StepView {
        StepView {
            name: self.name@,
            args: views(self.args@),
            isolate_env: self.isolate_env,
            pkg_config_path: views(self.pkg_config_path@),
            path: views(self.path@),
            log: self.log@,
        }
    }
}

/// `found` with `inherited` behind it; nothing where nothing was found.
pub open spec fn search_path(found: Seq<Seq<char>>, inherited: Seq<Seq<char>>) -> Seq<Seq<char>> {
    if found.len() == 0 {
        Seq::empty()
    } else {
        found + inherited
    }
}

/// Where the output of the runs goes.
pub open spec fn log_file(b: &CMakeBuild, bld: Seq<char>, name: Seq<char>) -> Seq<char> {
    match b.log_dir {
        Some(d) => path_join(d@, name),
        None => path_join(bld, name),
    }
}

/// The arguments that build what is configured.
pub open spec fn build_args_of(b: &CMakeBuild) -> Seq<Seq<char>> {
    let base = seq!["--build"@, "."@, "--config"@, b.build_type@];
    match b.jobs {
        Some(n) => base + seq!["--parallel"@, decimal(n as nat)],
        None => base,
    }
}

/// The arguments that install what is built.
pub open spec fn install_args_of(b: &CMakeBuild) -> Seq<Seq<char>> {
    seq!["--install"@, "."@, "--config"@, b.build_type@]
}

/// The runs of one build, in their order: configure, build, install. What the environment says of
/// toolchains can be kept from the first two, and tools for the host come first on their `PATH`;
/// only the first looks for packages of `pkg-config`.
pub open spec fn steps_of(
    b: &CMakeBuild,
    src: Seq<char>,
    bld: Seq<char>,
    pfx: Seq<char>,
    pkg_config_found: Seq<Seq<char>>,
    pkg_config_inherited: Seq<Seq<char>>,
    path_inherited: Seq<Seq<char>>,
) -> Result<Seq<StepView>, Seq<char>> {
    let path = search_path(views(b.host_tools_bins@), path_inherited);
    match configure_args_of(b, src, bld, pfx) {
        Ok(args) => Ok(
            seq![
                StepView {
                    name: "configure"@,
                    args,
                    isolate_env: b.isolate_env,
                    pkg_config_path: search_path(pkg_config_found, pkg_config_inherited),
                    path,
                    log: log_file(b, bld, "configure.log"@),
                },
                StepView {
                    name: "build"@,
                    args: build_args_of(b),
                    isolate_env: b.isolate_env,
                    pkg_config_path: Seq::empty(),
                    path,
                    log: log_file(b, bld, "build.log"@),
                },
                StepView {
                    name: "install"@,
                    args: install_args_of(b),
                    isolate_env: false,
                    pkg_config_path: Seq::empty(),
                    path: Seq::empty(),
                    log: log_file(b, bld, "install.log"@),
                },
            ],
        ),
        Err(m) => Err(m),
    }
}

/// Runs as views.
pub open spec fn step_views(v: Seq<CMakeStep>) -> Seq<StepView> {
    v.map_values(|s: CMakeStep| s@)
}

/// Runs, or an error, as views.
pub open spec fn steps_view(r: Result<Vec<CMakeStep>, String>) -> Result<Seq<StepView>, Seq<char>> {
    match r {
        Ok(v) => Ok(step_views(v@)),
        Err(m) => Err(m@),
    }
}

/// The directories in which `pkg-config` files of the dependencies may lie.
pub open spec fn pkg_config_dirs(prefixes: Seq<Seq<char>>) -> Seq<Seq<char>>
    decreases prefixes.len(),
{
    if prefixes.len() == 0 {
        Seq::empty()
    } else {
        let p = prefixes.last();
        pkg_config_dirs(prefixes.drop_last()) + seq![
            path_join(path_join(p, "lib"@), "pkgconfig"@),
            path_join(path_join(p, "share"@), "pkgconfig"@),
        ]
    }
}

/// The message for a run that failed, with the last lines of its output.
pub open spec fn failure_message_of(
    step: Seq<char>,
    log: Seq<char>,
    output: Option<Seq<char>>,
) -> Seq<char> {
    "CMake "@ + step + " step failed. Full log: "@ + log + "\n"@ + match output {
        Some(text) => {
            let ls = lines_of(text);
            joined(
                if ls.len() > 20 {
                    ls.skip(ls.len() - 20)
                } else {
                    ls
                },
                "\n"@,
            )
        },
        None => Seq::empty(),
    }
}

/// The message for a run that could not be started.
pub open spec fn start_failure_message_of(step: Seq<char>) -> Seq<char> {
    "Failed to execute cmake "@ + step + " (is cmake on PATH?)"@
}

/// What came of a run.
pub enum RunOutcome {
    Worked,
    NotStarted,
    /// It failed and wrote this, where that can be read.
    Failed(Option<String>),
}

/// What came of a run, as a view.
pub enum OutcomeView {
    Worked,
    NotStarted,
    Failed(Option<Seq<char>>),
}

impl View for RunOutcome {
    type V = OutcomeView;

    open spec fn view(&self) -> OutcomeView {
        match self {
            RunOutcome::Worked => OutcomeView::Worked,
            RunOutcome::NotStarted => OutcomeView::NotStarted,
            RunOutcome::Failed(output) => OutcomeView::Failed(opt_view(*output)),
        }
    }
}

/// What to do next in a build.
pub enum RunAction {
    /// Do the run of this number.
    Run(usize),
    CollectPdbs,
    Done,
    Fail(String),
}

/// What to do next in a build, as a view.
pub enum ActionView {
    Run(int),
    CollectPdbs,
    Done,
    Fail(Seq<char>),
}

impl View for RunAction {
    type V = ActionView;

    open spec fn view(&self) -> ActionView {
        match self {
            RunAction::Run(i) => ActionView::Run(*i as int),
            RunAction::CollectPdbs => ActionView::CollectPdbs,
            RunAction::Done => ActionView::Done,
            RunAction::Fail(m) => ActionView::Fail(m@),
        }
    }
}

/// How many runs a build takes: a probe only configures.
pub open spec fn runs_wanted(probe: bool, steps: Seq<StepView>) -> int {
    if probe && steps.len() > 1 {
        1
    } else {
        steps.len() as int
    }
}

/// What to do in a build of which `done` runs worked and the one tried last came out as `last`.
pub open spec fn next_action(
    collect_pdbs: bool,
    probe: bool,
    steps: Seq<StepView>,
    done: int,
    last: OutcomeView,
    collected: bool,
) -> ActionView {
    match last {
        OutcomeView::Failed(output) => ActionView::Fail(
            failure_message_of(steps[done].name, steps[done].log, output),
        ),
        OutcomeView::NotStarted => ActionView::Fail(start_failure_message_of(steps[done].name)),
        OutcomeView::Worked => if done < runs_wanted(probe, steps) {
            ActionView::Run(done)
        } else if !probe && collect_pdbs && !collected {
            ActionView::CollectPdbs
        } else {
            ActionView::Done
        },
    }
}

fn search_list(found: &[String], inherited: &[String]) -> (r: Vec<String>)
    ensures
        views(r@) == search_path(views(found@), views(inherited@)),
{
    let mut out: Vec<String> = Vec::new();
    if found.len() > 0 {
        extend_list(&mut out, found);
        extend_list(&mut out, inherited);
    }
    assert(views(out@) =~= search_path(views(found@), views(inherited@)));
    out
}

fn log_path(b: &CMakeBuild, bld: &str, name: &str) -> (r: String)
    ensures
        r@ == log_file(b, bld@, name@),
{
    match b.log_dir {
        Some(d) => join_path(d, name),
        None => join_path(bld, name),
    }
}

fn build_list(b: &CMakeBuild) -> (r: Vec<String>)
    ensures
        views(r@) == build_args_of(b),
{
    let mut out: Vec<String> = Vec::new();
    out.push("--build".to_owned());
    out.push(".".to_owned());
    out.push("--config".to_owned());
    out.push(b.build_type.to_owned());
    if let Some(n) = b.jobs {
        out.push("--parallel".to_owned());
        out.push(decimal_text(n as u64));
    }
    assert(views(out@) =~= build_args_of(b));
    out
}

fn install_list(b: &CMakeBuild) -> (r: Vec<String>)
    ensures
        views(r@) == install_args_of(b),
{
    let mut out: Vec<String> = Vec::new();
    out.push("--install".to_owned());
    out.push(".".to_owned());
    out.push("--config".to_owned());
    out.push(b.build_type.to_owned());
    assert(views(out@) =~= install_args_of(b));
    out
}

impl CMakeRunner {
    /// The directories in which `pkg-config` files of the dependencies may lie.
    pub fn pkg_config_candidates(prefix_paths: &[String]) -> (r: Vec<String>)
        ensures
            views(r@) == pkg_config_dirs(views(prefix_paths@)),
    {
        let ghost all = views(prefix_paths@);
        let mut out: Vec<String> = Vec::new();
        let mut i: usize = 0;
        assert(views(out@) =~= pkg_config_dirs(all.take(0)));
        while i < prefix_paths.len()
            invariant
                i <= prefix_paths@.len(),
                all == views(prefix_paths@),
                views(out@) == pkg_config_dirs(all.take(i as int)),
            decreases prefix_paths@.len() - i,
        {
            assert(all.take(i + 1).drop_last() =~= all.take(i as int));
            assert(all.take(i + 1).last() == prefix_paths@[i as int]@);
            let ghost before = views(out@);
            let lib = join_path(prefix_paths[i].as_str(), "lib");
            let share = join_path(prefix_paths[i].as_str(), "share");
            out.push(join_path(lib.as_str(), "pkgconfig"));
            out.push(join_path(share.as_str(), "pkgconfig"));
            assert(views(out@) =~= pkg_config_dirs(all.take(i + 1)));
            i = i + 1;
        }
        assert(all.take(i as int) =~= all);
        out
    }

    /// The runs that build and install `b`, with its directories as they are on this machine.
    /// `pkg_config_found` are those of its `pkg_config_candidates` that exist, and the other two
    /// lists what the environment says of `PKG_CONFIG_PATH` and `PATH`.
    pub fn build_and_install(
        b: &CMakeBuild,
        src: &str,
        bld: &str,
        pfx: &str,
        pkg_config_found: &[String],
        pkg_config_inherited: &[String],
        path_inherited: &[String],
    ) -> (r: Result<Vec<CMakeStep>, String>)
        ensures
            steps_view(r) == steps_of(
                b,
                src@,
                bld@,
                pfx@,
                views(pkg_config_found@),
                views(pkg_config_inherited@),
                views(path_inherited@),
            ),
    {
        let args = match Self::configure_args(b, src, bld, pfx) {
            Ok(a) => a,
            Err(m) => {
                return Err(m);
            },
        };
        let mut out: Vec<CMakeStep> = Vec::new();
        out.push(
            CMakeStep {
                name: "configure".to_owned(),
                args,
                isolate_env: b.isolate_env,
                pkg_config_path: search_list(pkg_config_found, pkg_config_inherited),
                path: search_list(b.host_tools_bins, path_inherited),
                log: log_path(b, bld, "configure.log"),
            },
        );
        let build = CMakeStep {
            name: "build".to_owned(),
            args: build_list(b),
            isolate_env: b.isolate_env,
            pkg_config_path: Vec::new(),
            path: search_list(b.host_tools_bins, path_inherited),
            log: log_path(b, bld, "build.log"),
        };
        assert(views(build.pkg_config_path@) =~= Seq::<Seq<char>>::empty());
        out.push(build);
        let install = CMakeStep {
            name: "install".to_owned(),
            args: install_list(b),
            isolate_env: false,
            pkg_config_path: Vec::new(),
            path: Vec::new(),
            log: log_path(b, bld, "install.log"),
        };
        assert(views(install.pkg_config_path@) =~= Seq::<Seq<char>>::empty());
        assert(views(install.path@) =~= Seq::<Seq<char>>::empty());
        out.push(install);
        assert(step_views(out@) =~= steps_of(
            b,
            src@,
            bld@,
            pfx@,
            views(pkg_config_found@),
            views(pkg_config_inherited@),
            views(path_inherited@),
        )->Ok_0);
        Ok(out)
    }

    /// What to do next in a build of which `done` runs worked. `last` is what came of the run that
    /// was tried last, `Worked` where none was, and `collected` whether the debug databases were
    /// collected.
    pub fn next_run(
        b: &CMakeBuild,
        probe: bool,
        steps: &Vec<CMakeStep>,
        done: usize,
        last: &RunOutcome,
        collected: bool,
    ) -> (a: RunAction)
        requires
            done <= steps@.len(),
            !(last is Worked) ==> done < steps@.len(),
        ensures
            a@ == next_action(
                b.collect_pdbs,
                probe,
                step_views(steps@),
                done as int,
                last@,
                collected,
            ),
    {
        match last {
            RunOutcome::Failed(output) => {
                let step = &steps[done];
                let output = match output {
                    Some(o) => Some(o.as_str()),
                    None => None,
                };
                RunAction::Fail(
                    Self::failure_message(step.name.as_str(), step.log.as_str(), output),
                )
            },
            RunOutcome::NotStarted => RunAction::Fail(
                Self::start_failure_message(steps[done].name.as_str()),
            ),
            RunOutcome::Worked => {
                let wanted: usize = if probe && steps.len() > 1 {
                    1
                } else {
                    steps.len()
                };
                if done < wanted {
                    RunAction::Run(done)
                } else if !probe && b.collect_pdbs && !collected {
                    RunAction::CollectPdbs
                } else {
                    RunAction::Done
                }
            },
        }
    }

    /// The message for a run that failed, with the last lines of its output.
    pub fn failure_message(step: &str, log: &str, output: Option<&str>) -> (r: String)
        ensures
            r@ == failure_message_of(
                step@,
                log@,
                match output {
                    Some(t) => Some(t@),
                    None => None,
                },
            ),
    {
        let head = cat5("CMake ", step, " step failed. Full log: ", log, "\n");
        let tail = match output {
            Some(text) => {
                let ls = lines(text);
                let n: usize = ls.len();
                let from: usize = if n > 20 {
                    n - 20
                } else {
                    0
                };
                let mut kept: Vec<String> = Vec::new();
                let mut i: usize = from;
                while i < n
                    invariant
                        n == ls@.len(),
                        from <= i <= n,
                        kept@ == ls@.subrange(from as int, i as int),
                    decreases n - i,
                {
                    let l = ls[i].clone();
                    kept.push(l);
                    assert(kept@ =~= ls@.subrange(from as int, i + 1));
                    i = i + 1;
                }
                assert(views(kept@) =~= if n > 20 {
                    views(ls@).skip(n - 20)
                } else {
                    views(ls@)
                });
                join(&kept, "\n")
            },
            None => String::new(),
        };
        cat2(head.as_str(), tail.as_str())
    }

    /// The message for a run that could not be started.
    pub fn start_failure_message(step: &str) -> (r: String)
        ensures
            r@ == start_failure_message_of(step@),
    {
        cat3("Failed to execute cmake ", step, " (is cmake on PATH?)")
    }
}

// ---------------------------------------------------------------------------
// What is promised of standards
// ---------------------------------------------------------------------------

proof fn lemma_no_space_around(s: Seq<char>)
    requires
        s.len() > 0,
        !is_space(s[0]),
        !is_space(s.last()),
    ensures
        trimmed(s) == s,
{
}

proof fn lemma_digits_are_final(n: Seq<char>)
    requires
        all_digits(n),
    ensures
        final_number(n) == n,
{
    reveal_strlit("0x");
    reveal_strlit("1y");
    reveal_strlit("1z");
    reveal_strlit("2a");
    reveal_strlit("2b");
    reveal_strlit("2c");
    assert(n.len() > 1 ==> is_digit(n[1]));
    assert("0x"@[1] == 'x' && "1y"@[1] == 'y' && "1z"@[1] == 'z');
    assert("2a"@[1] == 'a' && "2b"@[1] == 'b' && "2c"@[1] == 'c');
}

/// A number stands for its standard, alone and behind `c++` or `gnu++`; only the last switches
/// extensions on.
pub proof fn a_number_names_its_standard(n: Seq<char>)
    requires
        n.len() > 0,
        all_digits(n),
    ensures
        standard_of(n) == Ok::<Option<(Seq<char>, bool)>, Seq<char>>(Some((n, false))),
        standard_of("c++"@ + n) == Ok::<Option<(Seq<char>, bool)>, Seq<char>>(Some((n, false))),
        standard_of("gnu++"@ + n) == Ok::<Option<(Seq<char>, bool)>, Seq<char>>(Some((n, true))),
{
    reveal_strlit("c++");
    reveal_strlit("gnu++");
    let c = "c++"@;
    let g = "gnu++"@;
    assert(c =~= seq!['c', '+', '+']);
    assert(g =~= seq!['g', 'n', 'u', '+', '+']);
    lemma_digits_are_final(n);
    assert(is_digit(n[0]) && is_digit(n.last()));
    lemma_no_space_around(n);
    lemma_no_space_around(c + n);
    lemma_no_space_around(g + n);
    lemma_lower_kept(n);
    assert forall|i: int| 0 <= i < (c + n).len() implies '\0' <= #[trigger] (c + n)[i] <= '\u{7f}'
        && !('A' <= (c + n)[i] <= 'Z') by {
        if i >= 3 {
            assert((c + n)[i] == n[i - 3]);
        }
    }
    lemma_lower_kept(c + n);
    assert forall|i: int| 0 <= i < (g + n).len() implies '\0' <= #[trigger] (g + n)[i] <= '\u{7f}'
        && !('A' <= (g + n)[i] <= 'Z') by {
        if i >= 5 {
            assert((g + n)[i] == n[i - 5]);
        }
    }
    lemma_lower_kept(g + n);
    assert(n.take(5)[0] == n[0] || n.len() < 5);
    assert(n.take(3)[0] == n[0] || n.len() < 3);
    assert((c + n).take(5)[0] == 'c' || (c + n).len() < 5);
    assert((c + n).take(3) =~= c && (c + n).skip(3) =~= n);
    assert((g + n).take(5) =~= g && (g + n).skip(5) =~= n);
}

/// What names a standard gives a number of digits, and extensions exactly behind `gnu++`.
pub proof fn a_standard_is_a_number(value: Seq<char>)
    ensures
        standard_of(value) matches Ok(Some((n, ext))) ==> n.len() > 0 && all_digits(n) && ext
            == has_prefix(lower(trimmed(value)), "gnu++"@),
{
}

// ---------------------------------------------------------------------------
// What is promised of a build
// ---------------------------------------------------------------------------

/// Everything that is done in a build from the run `done` on, where the run of number `i` comes out
/// as `outcome(i)`.
pub open spec fn actions_from(
    collect_pdbs: bool,
    probe: bool,
    steps: Seq<StepView>,
    done: int,
    outcome: spec_fn(int) -> OutcomeView,
) -> Seq<ActionView>
    decreases steps.len() - done,
{
    let a = next_action(collect_pdbs, probe, steps, done, OutcomeView::Worked, false);
    match a {
        ActionView::Run(i) => if i >= steps.len() {
            seq![a]
        } else if outcome(i) is Worked {
            seq![a] + actions_from(collect_pdbs, probe, steps, done + 1, outcome)
        } else {
            seq![a, next_action(collect_pdbs, probe, steps, done, outcome(i), false)]
        },
        ActionView::CollectPdbs => seq![
            a,
            next_action(collect_pdbs, probe, steps, done, OutcomeView::Worked, true),
        ],
        _ => seq![a],
    }
}

/// Runs one behind the other.
pub open spec fn runs_between(from: int, to: int) -> Seq<ActionView> {
    Seq::new(
        if from < to {
            (to - from) as nat
        } else {
            0
        },
        |i: int| ActionView::Run(from + i),
    )
}

/// A build whose runs all work does them in their order, then collects debug databases where that
/// is asked for and nothing was only probed, and is then done.
pub proof fn a_build_that_works_does_every_run(
    collect_pdbs: bool,
    probe: bool,
    steps: Seq<StepView>,
    done: int,
    outcome: spec_fn(int) -> OutcomeView,
)
    requires
        0 <= done <= runs_wanted(probe, steps),
        forall|i: int| done <= i < runs_wanted(probe, steps) ==> #[trigger] outcome(i) is Worked,
    ensures
        actions_from(collect_pdbs, probe, steps, done, outcome) == runs_between(
            done,
            runs_wanted(probe, steps),
        ) + (if !probe && collect_pdbs {
            seq![ActionView::CollectPdbs, ActionView::Done]
        } else {
            seq![ActionView::Done]
        }),
    decreases steps.len() - done,
{
    let wanted = runs_wanted(probe, steps);
    if done < wanted {
        assert(outcome(done) is Worked);
        a_build_that_works_does_every_run(collect_pdbs, probe, steps, done + 1, outcome);
        assert(runs_between(done, wanted) =~= seq![ActionView::Run(done)] + runs_between(
            done + 1,
            wanted,
        ));
    }
    assert(actions_from(collect_pdbs, probe, steps, done, outcome) =~= runs_between(done, wanted)
        + (if !probe && collect_pdbs {
        seq![ActionView::CollectPdbs, ActionView::Done]
    } else {
        seq![ActionView::Done]
    }));
}

/// A run that fails is the last one; its message ends the build, and no debug database is collected.
pub proof fn a_failed_run_is_the_last(
    collect_pdbs: bool,
    probe: bool,
    steps: Seq<StepView>,
    done: int,
    failed: int,
    outcome: spec_fn(int) -> OutcomeView,
)
    requires
        0 <= done <= failed < runs_wanted(probe, steps),
        forall|i: int| done <= i < failed ==> #[trigger] outcome(i) is Worked,
        !(outcome(failed) is Worked),
    ensures
        actions_from(collect_pdbs, probe, steps, done, outcome) == runs_between(done, failed + 1)
            + seq![
            ActionView::Fail(
                match outcome(failed) {
                    OutcomeView::Failed(output) => failure_message_of(
                        steps[failed].name,
                        steps[failed].log,
                        output,
                    ),
                    _ => start_failure_message_of(steps[failed].name),
                },
            ),
        ],
    decreases failed - done,
{
    if done < failed {
        assert(outcome(done) is Worked);
        a_failed_run_is_the_last(collect_pdbs, probe, steps, done + 1, failed, outcome);
    }
    assert(runs_between(done, failed + 1) =~= seq![ActionView::Run(done)] + runs_between(
        done + 1,
        failed + 1,
    ));
    let end = actions_from(collect_pdbs, probe, steps, done, outcome).last();
    assert(actions_from(collect_pdbs, probe, steps, done, outcome) =~= runs_between(
        done,
        failed + 1,
    ) + seq![end]);
}

/// Whether CMake is given `-D<key>=<value>`.
pub open spec fn passes(args: Seq<Seq<char>>, key: Seq<char>, value: Seq<char>) -> bool {
    args.contains("-D"@ + key + "="@ + value)
}

proof fn lemma_in_either(a: Seq<Seq<char>>, b: Seq<Seq<char>>, x: Seq<char>)
    ensures
        (a + b).contains(x) <==> a.contains(x) || b.contains(x),
{
    let s = a + b;
    if a.contains(x) {
        let i = choose|i: int| 0 <= i < a.len() && a[i] == x;
        assert(s[i] == x);
    }
    if b.contains(x) {
        let i = choose|i: int| 0 <= i < b.len() && b[i] == x;
        assert(s[a.len() + i] == x);
    }
    if s.contains(x) {
        let i = choose|i: int| 0 <= i < s.len() && s[i] == x;
        if i < a.len() {
            assert(a[i] == x);
        } else {
            assert(b[i - a.len()] == x);
        }
    }
}

proof fn lemma_in_one(y: Seq<char>, x: Seq<char>)
    ensures
        seq![y].contains(x) <==> x == y,
{
    assert(seq![y][0] == y);
}

proof fn lemma_in_two(y: Seq<char>, z: Seq<char>, x: Seq<char>)
    ensures
        seq![y, z].contains(x) <==> x == y || x == z,
{
    assert(seq![y, z][0] == y && seq![y, z][1] == z);
}

/// An argument gives one variable one value.
proof fn lemma_one_setting(k: Seq<char>, v: Seq<char>, key: Seq<char>, value: Seq<char>)
    requires
        !k.contains('='),
        !key.contains('='),
    ensures
        "-D"@ + k + "="@ + v == "-D"@ + key + "="@ + value <==> k == key && v == value,
{
    reveal_strlit("-D");
    reveal_strlit("=");
    assert("="@ =~= seq!['=']);
    let x = "-D"@ + k + "="@ + v;
    let y = "-D"@ + key + "="@ + value;
    assert(x.skip(2) =~= k + seq!['='] + v);
    assert(y.skip(2) =~= key + seq!['='] + value);
    lemma_cut_at(k, '=', v);
    lemma_cut_at(key, '=', value);
}

/// The beginning of an argument that is written out gives one variable.
proof fn lemma_written_setting(
    start: Seq<char>,
    k: Seq<char>,
    v: Seq<char>,
    key: Seq<char>,
    value: Seq<char>,
)
    requires
        start == "-D"@ + k + "="@,
        !k.contains('='),
        !key.contains('='),
    ensures
        start + v == "-D"@ + key + "="@ + value <==> k == key && v == value,
{
    lemma_one_setting(k, v, key, value);
}

proof fn lemma_definition_settings(
    pairs: Seq<(Seq<char>, Seq<char>)>,
    key: Seq<char>,
    value: Seq<char>,
)
    requires
        ordered(pairs),
        !key.contains('='),
        forall|i: int| 0 <= i < pairs.len() ==> !(#[trigger] pairs[i]).0.contains('='),
    ensures
        passes(definition_args(pairs), key, value) <==> key != "CMAKE_C_FLAGS"@ && key
            != "CMAKE_CXX_FLAGS"@ && lookup(pairs, key) == Some(value),
{
    lemma_definition_pairs(pairs, key, value);
    if lookup(pairs, key) == Some(value) {
        lemma_found_pair(pairs, key);
    }
    if exists|i: int| 0 <= i < pairs.len() && #[trigger] pairs[i] == (key, value) {
        let i = choose|i: int| 0 <= i < pairs.len() && #[trigger] pairs[i] == (key, value);
        lemma_lookup_at(pairs, i);
    }
}

proof fn lemma_found_pair(pairs: Seq<(Seq<char>, Seq<char>)>, key: Seq<char>)
    requires
        lookup(pairs, key) is Some,
    ensures
        exists|i: int|
            0 <= i < pairs.len() && #[trigger] pairs[i] == (key, lookup(pairs, key)->0),
    decreases pairs.len(),
{
    if pairs[0].0 == key {
        assert(pairs[0] == (key, lookup(pairs, key)->0));
    } else {
        let rest = pairs.skip(1);
        lemma_found_pair(rest, key);
        let i = choose|i: int|
            0 <= i < rest.len() && #[trigger] rest[i] == (key, lookup(rest, key)->0);
        assert(pairs[i + 1] == rest[i]);
    }
}

proof fn lemma_definition_pairs(
    pairs: Seq<(Seq<char>, Seq<char>)>,
    key: Seq<char>,
    value: Seq<char>,
)
    requires
        !key.contains('='),
        forall|i: int| 0 <= i < pairs.len() ==> !(#[trigger] pairs[i]).0.contains('='),
    ensures
        passes(definition_args(pairs), key, value) <==> key != "CMAKE_C_FLAGS"@ && key
            != "CMAKE_CXX_FLAGS"@ && exists|i: int|
            0 <= i < pairs.len() && #[trigger] pairs[i] == (key, value),
    decreases pairs.len(),
{
    if pairs.len() > 0 {
        let init = pairs.drop_last();
        let (k, v) = pairs.last();
        assert forall|i: int| 0 <= i < init.len() implies !(#[trigger] init[i]).0.contains('=') by {
            assert(init[i] == pairs[i]);
        }
        assert(pairs[pairs.len() - 1] == (k, v));
        lemma_definition_pairs(init, key, value);
        lemma_one_setting(k, v, key, value);
        let x = "-D"@ + k + "="@ + v;
        let sofar = definition_args(init);
        assert(sofar.push(x) =~= sofar + seq![x]);
        lemma_in_either(sofar, seq![x], "-D"@ + key + "="@ + value);
        lemma_in_one(x, "-D"@ + key + "="@ + value);
        if exists|i: int| 0 <= i < init.len() && #[trigger] init[i] == (key, value) {
            let i = choose|i: int| 0 <= i < init.len() && #[trigger] init[i] == (key, value);
            assert(pairs[i] == init[i]);
        }
        if exists|i: int| 0 <= i < pairs.len() && #[trigger] pairs[i] == (key, value) {
            let i = choose|i: int| 0 <= i < pairs.len() && #[trigger] pairs[i] == (key, value);
            if i < init.len() {
                assert(init[i] == pairs[i]);
            }
        }
    }
}

proof fn lemma_build_shared_libs()
    ensures
        "-DBUILD_SHARED_LIBS="@ == "-D"@ + "BUILD_SHARED_LIBS"@ + "="@,
        !"BUILD_SHARED_LIBS"@.contains('='),
{
    reveal_strlit("-DBUILD_SHARED_LIBS=");
    reveal_strlit("-D");
    reveal_strlit("BUILD_SHARED_LIBS");
    reveal_strlit("=");
    assert("-DBUILD_SHARED_LIBS="@ =~= "-D"@ + "BUILD_SHARED_LIBS"@ + "="@);
}

proof fn lemma_cmake_build_type()
    ensures
        "-DCMAKE_BUILD_TYPE="@ == "-D"@ + "CMAKE_BUILD_TYPE"@ + "="@,
        !"CMAKE_BUILD_TYPE"@.contains('='),
{
    reveal_strlit("-DCMAKE_BUILD_TYPE=");
    reveal_strlit("-D");
    reveal_strlit("CMAKE_BUILD_TYPE");
    reveal_strlit("=");
    assert("-DCMAKE_BUILD_TYPE="@ =~= "-D"@ + "CMAKE_BUILD_TYPE"@ + "="@);
}

proof fn lemma_cmake_install_prefix()
    ensures
        "-DCMAKE_INSTALL_PREFIX="@ == "-D"@ + "CMAKE_INSTALL_PREFIX"@ + "="@,
        !"CMAKE_INSTALL_PREFIX"@.contains('='),
{
    reveal_strlit("-DCMAKE_INSTALL_PREFIX=");
    reveal_strlit("-D");
    reveal_strlit("CMAKE_INSTALL_PREFIX");
    reveal_strlit("=");
    assert("-DCMAKE_INSTALL_PREFIX="@ =~= "-D"@ + "CMAKE_INSTALL_PREFIX"@ + "="@);
}

proof fn lemma_cmake_msvc_runtime_library()
    ensures
        "-DCMAKE_MSVC_RUNTIME_LIBRARY="@ == "-D"@ + "CMAKE_MSVC_RUNTIME_LIBRARY"@ + "="@,
        !"CMAKE_MSVC_RUNTIME_LIBRARY"@.contains('='),
{
    reveal_strlit("-DCMAKE_MSVC_RUNTIME_LIBRARY=");
    reveal_strlit("-D");
    reveal_strlit("CMAKE_MSVC_RUNTIME_LIBRARY");
    reveal_strlit("=");
    assert("-DCMAKE_MSVC_RUNTIME_LIBRARY="@ =~= "-D"@ + "CMAKE_MSVC_RUNTIME_LIBRARY"@ + "="@);
}

proof fn lemma_cmake_toolchain_file()
    ensures
        "-DCMAKE_TOOLCHAIN_FILE="@ == "-D"@ + "CMAKE_TOOLCHAIN_FILE"@ + "="@,
        !"CMAKE_TOOLCHAIN_FILE"@.contains('='),
{
    reveal_strlit("-DCMAKE_TOOLCHAIN_FILE=");
    reveal_strlit("-D");
    reveal_strlit("CMAKE_TOOLCHAIN_FILE");
    reveal_strlit("=");
    assert("-DCMAKE_TOOLCHAIN_FILE="@ =~= "-D"@ + "CMAKE_TOOLCHAIN_FILE"@ + "="@);
}

proof fn lemma_cmake_c_compiler()
    ensures
        "-DCMAKE_C_COMPILER="@ == "-D"@ + "CMAKE_C_COMPILER"@ + "="@,
        !"CMAKE_C_COMPILER"@.contains('='),
{
    reveal_strlit("-DCMAKE_C_COMPILER=");
    reveal_strlit("-D");
    reveal_strlit("CMAKE_C_COMPILER");
    reveal_strlit("=");
    assert("-DCMAKE_C_COMPILER="@ =~= "-D"@ + "CMAKE_C_COMPILER"@ + "="@);
}

proof fn lemma_cmake_cxx_compiler()
    ensures
        "-DCMAKE_CXX_COMPILER="@ == "-D"@ + "CMAKE_CXX_COMPILER"@ + "="@,
        !"CMAKE_CXX_COMPILER"@.contains('='),
{
    reveal_strlit("-DCMAKE_CXX_COMPILER=");
    reveal_strlit("-D");
    reveal_strlit("CMAKE_CXX_COMPILER");
    reveal_strlit("=");
    assert("-DCMAKE_CXX_COMPILER="@ =~= "-D"@ + "CMAKE_CXX_COMPILER"@ + "="@);
}

proof fn lemma_cmake_prefix_path()
    ensures
        "-DCMAKE_PREFIX_PATH="@ == "-D"@ + "CMAKE_PREFIX_PATH"@ + "="@,
        !"CMAKE_PREFIX_PATH"@.contains('='),
{
    reveal_strlit("-DCMAKE_PREFIX_PATH=");
    reveal_strlit("-D");
    reveal_strlit("CMAKE_PREFIX_PATH");
    reveal_strlit("=");
    assert("-DCMAKE_PREFIX_PATH="@ =~= "-D"@ + "CMAKE_PREFIX_PATH"@ + "="@);
}

proof fn lemma_cmake_find_root_path()
    ensures
        "-DCMAKE_FIND_ROOT_PATH="@ == "-D"@ + "CMAKE_FIND_ROOT_PATH"@ + "="@,
        !"CMAKE_FIND_ROOT_PATH"@.contains('='),
{
    reveal_strlit("-DCMAKE_FIND_ROOT_PATH=");
    reveal_strlit("-D");
    reveal_strlit("CMAKE_FIND_ROOT_PATH");
    reveal_strlit("=");
    assert("-DCMAKE_FIND_ROOT_PATH="@ =~= "-D"@ + "CMAKE_FIND_ROOT_PATH"@ + "="@);
}

proof fn lemma_cmake_cxx_standard()
    ensures
        "-DCMAKE_CXX_STANDARD="@ == "-D"@ + "CMAKE_CXX_STANDARD"@ + "="@,
        !"CMAKE_CXX_STANDARD"@.contains('='),
{
    reveal_strlit("-DCMAKE_CXX_STANDARD=");
    reveal_strlit("-D");
    reveal_strlit("CMAKE_CXX_STANDARD");
    reveal_strlit("=");
    assert("-DCMAKE_CXX_STANDARD="@ =~= "-D"@ + "CMAKE_CXX_STANDARD"@ + "="@);
}

proof fn lemma_cmake_cxx_extensions()
    ensures
        "-DCMAKE_CXX_EXTENSIONS="@ == "-D"@ + "CMAKE_CXX_EXTENSIONS"@ + "="@,
        !"CMAKE_CXX_EXTENSIONS"@.contains('='),
{
    reveal_strlit("-DCMAKE_CXX_EXTENSIONS=");
    reveal_strlit("-D");
    reveal_strlit("CMAKE_CXX_EXTENSIONS");
    reveal_strlit("=");
    assert("-DCMAKE_CXX_EXTENSIONS="@ =~= "-D"@ + "CMAKE_CXX_EXTENSIONS"@ + "="@);
}

proof fn lemma_cmake_c_flags()
    ensures
        "-DCMAKE_C_FLAGS="@ == "-D"@ + "CMAKE_C_FLAGS"@ + "="@,
        !"CMAKE_C_FLAGS"@.contains('='),
{
    reveal_strlit("-DCMAKE_C_FLAGS=");
    reveal_strlit("-D");
    reveal_strlit("CMAKE_C_FLAGS");
    reveal_strlit("=");
    assert("-DCMAKE_C_FLAGS="@ =~= "-D"@ + "CMAKE_C_FLAGS"@ + "="@);
}

proof fn lemma_cmake_cxx_flags()
    ensures
        "-DCMAKE_CXX_FLAGS="@ == "-D"@ + "CMAKE_CXX_FLAGS"@ + "="@,
        !"CMAKE_CXX_FLAGS"@.contains('='),
{
    reveal_strlit("-DCMAKE_CXX_FLAGS=");
    reveal_strlit("-D");
    reveal_strlit("CMAKE_CXX_FLAGS");
    reveal_strlit("=");
    assert("-DCMAKE_CXX_FLAGS="@ =~= "-D"@ + "CMAKE_CXX_FLAGS"@ + "="@);
}

proof fn lemma_cmake_policy_default_cmp0091()
    ensures
        "-DCMAKE_POLICY_DEFAULT_CMP0091=NEW"@ == "-D"@ + "CMAKE_POLICY_DEFAULT_CMP0091"@ + "="@
            + "NEW"@,
        !"CMAKE_POLICY_DEFAULT_CMP0091"@.contains('='),
{
    reveal_strlit("-DCMAKE_POLICY_DEFAULT_CMP0091=NEW");
    reveal_strlit("-D");
    reveal_strlit("CMAKE_POLICY_DEFAULT_CMP0091");
    reveal_strlit("=");
    reveal_strlit("NEW");
    assert("-DCMAKE_POLICY_DEFAULT_CMP0091=NEW"@ =~= "-D"@ + "CMAKE_POLICY_DEFAULT_CMP0091"@ + "="@
        + "NEW"@);
}

proof fn lemma_cmake_policy_default_cmp0069()
    ensures
        "-DCMAKE_POLICY_DEFAULT_CMP0069=NEW"@ == "-D"@ + "CMAKE_POLICY_DEFAULT_CMP0069"@ + "="@
            + "NEW"@,
        !"CMAKE_POLICY_DEFAULT_CMP0069"@.contains('='),
{
    reveal_strlit("-DCMAKE_POLICY_DEFAULT_CMP0069=NEW");
    reveal_strlit("-D");
    reveal_strlit("CMAKE_POLICY_DEFAULT_CMP0069");
    reveal_strlit("=");
    reveal_strlit("NEW");
    assert("-DCMAKE_POLICY_DEFAULT_CMP0069=NEW"@ =~= "-D"@ + "CMAKE_POLICY_DEFAULT_CMP0069"@ + "="@
        + "NEW"@);
}

proof fn lemma_cmake_position_independent_code()
    ensures
        "-DCMAKE_POSITION_INDEPENDENT_CODE=ON"@ == "-D"@ + "CMAKE_POSITION_INDEPENDENT_CODE"@ + "="@
            + "ON"@,
        !"CMAKE_POSITION_INDEPENDENT_CODE"@.contains('='),
{
    reveal_strlit("-DCMAKE_POSITION_INDEPENDENT_CODE=ON");
    reveal_strlit("-D");
    reveal_strlit("CMAKE_POSITION_INDEPENDENT_CODE");
    reveal_strlit("=");
    reveal_strlit("ON");
    assert("-DCMAKE_POSITION_INDEPENDENT_CODE=ON"@ =~= "-D"@ + "CMAKE_POSITION_INDEPENDENT_CODE"@
        + "="@ + "ON"@);
}

proof fn lemma_cmake_interprocedural_optimization()
    ensures
        "-DCMAKE_INTERPROCEDURAL_OPTIMIZATION=ON"@ == "-D"@ + "CMAKE_INTERPROCEDURAL_OPTIMIZATION"@
            + "="@ + "ON"@,
        !"CMAKE_INTERPROCEDURAL_OPTIMIZATION"@.contains('='),
{
    reveal_strlit("-DCMAKE_INTERPROCEDURAL_OPTIMIZATION=ON");
    reveal_strlit("-D");
    reveal_strlit("CMAKE_INTERPROCEDURAL_OPTIMIZATION");
    reveal_strlit("=");
    reveal_strlit("ON");
    assert("-DCMAKE_INTERPROCEDURAL_OPTIMIZATION=ON"@ =~= "-D"@
        + "CMAKE_INTERPROCEDURAL_OPTIMIZATION"@ + "="@ + "ON"@);
}

/// Whether the directories of a build cannot be taken for settings, and the names of its
/// definitions can be told from their values.
pub open spec fn is_plain_build(b: &CMakeBuild, src: Seq<char>, bld: Seq<char>) -> bool {
    &&& !has_prefix(src, "-D"@)
    &&& !has_prefix(bld, "-D"@)
    &&& ordered(b.definitions.texts())
    &&& forall|i: int|
        0 <= i < b.definitions.texts().len() ==> !(#[trigger] b.definitions.texts()[i]).0.contains(
            '=',
        )
}

proof fn lemma_is_no_setting(p: Seq<char>, key: Seq<char>, value: Seq<char>)
    requires
        !has_prefix(p, "-D"@),
    ensures
        normed(p) != "-D"@ + key + "="@ + value,
        "-S"@ != "-D"@ + key + "="@ + value,
        "-B"@ != "-D"@ + key + "="@ + value,
        "-GNinja"@ != "-D"@ + key + "="@ + value,
{
    reveal_strlit("-D");
    reveal_strlit("-S");
    reveal_strlit("-B");
    reveal_strlit("-GNinja");
    reveal_strlit("=");
    let x = "-D"@ + key + "="@ + value;
    assert(x.len() >= 3);
    assert(x[0] == '-' && x[1] == 'D');
    assert("-GNinja"@[1] == 'G');
    if normed(p) == x {
        assert(normed(p)[0] == '-' && normed(p)[1] == 'D');
        assert(p[0] == '-' && p[1] == 'D');
        assert(p.take(2) =~= "-D"@);
    }
}

proof fn lemma_base_settings(
    b: &CMakeBuild,
    src: Seq<char>,
    bld: Seq<char>,
    pfx: Seq<char>,
    key: Seq<char>,
    value: Seq<char>,
)
    requires
        !has_prefix(src, "-D"@),
        !has_prefix(bld, "-D"@),
        !key.contains('='),
    ensures
        passes(base_args(b, src, bld, pfx), key, value) <==> {
            ||| key == "CMAKE_BUILD_TYPE"@ && value == b.build_type@
            ||| key == "CMAKE_INSTALL_PREFIX"@ && value == normed(pfx)
            ||| key == "BUILD_SHARED_LIBS"@ && value == if b.shared {
                "ON"@
            } else {
                "OFF"@
            }
        },
{
    let x = "-D"@ + key + "="@ + value;
    let args = base_args(b, src, bld, pfx);
    lemma_is_no_setting(src, key, value);
    lemma_is_no_setting(bld, key, value);
    lemma_cmake_build_type();
    lemma_cmake_install_prefix();
    lemma_build_shared_libs();
    lemma_written_setting("-DCMAKE_BUILD_TYPE="@, "CMAKE_BUILD_TYPE"@, b.build_type@, key, value);
    lemma_written_setting(
        "-DCMAKE_INSTALL_PREFIX="@,
        "CMAKE_INSTALL_PREFIX"@,
        normed(pfx),
        key,
        value,
    );
    lemma_written_setting(
        "-DBUILD_SHARED_LIBS="@,
        "BUILD_SHARED_LIBS"@,
        on_off(b.shared),
        key,
        value,
    );
    assert(args.len() == 8);
    assert(args[5] == "-DCMAKE_BUILD_TYPE="@ + b.build_type@);
    assert(args[6] == "-DCMAKE_INSTALL_PREFIX="@ + normed(pfx));
    assert(args[7] == "-DBUILD_SHARED_LIBS="@ + on_off(b.shared));
    if args.contains(x) {
        let i = choose|i: int| 0 <= i < args.len() && args[i] == x;
        assert(i == 0 || i == 1 || i == 2 || i == 3 || i == 4 || i == 5 || i == 6 || i == 7);
    }
}

proof fn lemma_tool_settings(b: &CMakeBuild, key: Seq<char>, value: Seq<char>)
    requires
        !key.contains('='),
    ensures
        passes(runtime_args(b), key, value) <==> b.msvc_runtime is Some && {
            ||| key == "CMAKE_POLICY_DEFAULT_CMP0091"@ && value == "NEW"@
            ||| key == "CMAKE_MSVC_RUNTIME_LIBRARY"@ && value == b.msvc_runtime->0@
        },
        passes(toolchain_args(b), key, value) <==> {
            ||| key == "CMAKE_TOOLCHAIN_FILE"@ && b.toolchain_file is Some && value == normed(
                b.toolchain_file->0@,
            )
            ||| key == "CMAKE_C_COMPILER"@ && b.toolchain_file is None && b.c_compiler is Some
                && value == normed(b.c_compiler->0@)
            ||| key == "CMAKE_CXX_COMPILER"@ && b.toolchain_file is None && b.cxx_compiler is Some
                && value == normed(b.cxx_compiler->0@)
        },
        passes(prefix_args(b), key, value) <==> b.prefix_paths@.len() > 0 && (key
            == "CMAKE_PREFIX_PATH"@ || key == "CMAKE_FIND_ROOT_PATH"@) && value == joined(
            normed_all(views(b.prefix_paths@)),
            ";"@,
        ),
{
    let x = "-D"@ + key + "="@ + value;
    lemma_cmake_policy_default_cmp0091();
    lemma_cmake_msvc_runtime_library();
    lemma_cmake_toolchain_file();
    lemma_cmake_c_compiler();
    lemma_cmake_cxx_compiler();
    lemma_cmake_prefix_path();
    lemma_cmake_find_root_path();
    lemma_one_setting("CMAKE_POLICY_DEFAULT_CMP0091"@, "NEW"@, key, value);
    if let Some(rt) = b.msvc_runtime {
        lemma_written_setting(
            "-DCMAKE_MSVC_RUNTIME_LIBRARY="@,
            "CMAKE_MSVC_RUNTIME_LIBRARY"@,
            rt@,
            key,
            value,
        );
        lemma_in_two(
            "-DCMAKE_POLICY_DEFAULT_CMP0091=NEW"@,
            "-DCMAKE_MSVC_RUNTIME_LIBRARY="@ + rt@,
            x,
        );
    }
    if let Some(f) = b.toolchain_file {
        lemma_written_setting(
            "-DCMAKE_TOOLCHAIN_FILE="@,
            "CMAKE_TOOLCHAIN_FILE"@,
            normed(f@),
            key,
            value,
        );
        lemma_in_one("-DCMAKE_TOOLCHAIN_FILE="@ + normed(f@), x);
    }
    lemma_in_either(
        path_arg("-DCMAKE_C_COMPILER="@, b.c_compiler),
        path_arg("-DCMAKE_CXX_COMPILER="@, b.cxx_compiler),
        x,
    );
    if let Some(c) = b.c_compiler {
        lemma_written_setting("-DCMAKE_C_COMPILER="@, "CMAKE_C_COMPILER"@, normed(c@), key, value);
        lemma_in_one("-DCMAKE_C_COMPILER="@ + normed(c@), x);
    }
    if let Some(c) = b.cxx_compiler {
        lemma_written_setting(
            "-DCMAKE_CXX_COMPILER="@,
            "CMAKE_CXX_COMPILER"@,
            normed(c@),
            key,
            value,
        );
        lemma_in_one("-DCMAKE_CXX_COMPILER="@ + normed(c@), x);
    }
    let all = joined(normed_all(views(b.prefix_paths@)), ";"@);
    lemma_written_setting("-DCMAKE_PREFIX_PATH="@, "CMAKE_PREFIX_PATH"@, all, key, value);
    lemma_written_setting("-DCMAKE_FIND_ROOT_PATH="@, "CMAKE_FIND_ROOT_PATH"@, all, key, value);
    lemma_in_two("-DCMAKE_PREFIX_PATH="@ + all, "-DCMAKE_FIND_ROOT_PATH="@ + all, x);
}

proof fn lemma_language_settings(
    b: &CMakeBuild,
    standard: Option<(Seq<char>, bool)>,
    key: Seq<char>,
    value: Seq<char>,
)
    requires
        !key.contains('='),
    ensures
        passes(pic_args(b), key, value) <==> key == "CMAKE_POSITION_INDEPENDENT_CODE"@ && value
            == "ON"@ && !defines(b, "CMAKE_POSITION_INDEPENDENT_CODE"@),
        passes(standard_args(b, standard), key, value) <==> standard is Some && {
            ||| key == "CMAKE_CXX_STANDARD"@ && !defines(b, "CMAKE_CXX_STANDARD"@) && value
                == (standard->0).0
            ||| key == "CMAKE_CXX_EXTENSIONS"@ && !defines(b, "CMAKE_CXX_EXTENSIONS"@) && value
                == if (standard->0).1 {
                "ON"@
            } else {
                "OFF"@
            }
        },
        passes(lto_args(b), key, value) <==> b.lto && !defines(
            b,
            "CMAKE_INTERPROCEDURAL_OPTIMIZATION"@,
        ) && {
            ||| key == "CMAKE_POLICY_DEFAULT_CMP0069"@ && value == "NEW"@
            ||| key == "CMAKE_INTERPROCEDURAL_OPTIMIZATION"@ && value == "ON"@
        },
{
    let x = "-D"@ + key + "="@ + value;
    lemma_cmake_position_independent_code();
    lemma_cmake_cxx_standard();
    lemma_cmake_cxx_extensions();
    lemma_cmake_policy_default_cmp0069();
    lemma_cmake_interprocedural_optimization();
    lemma_one_setting("CMAKE_POSITION_INDEPENDENT_CODE"@, "ON"@, key, value);
    lemma_in_one("-DCMAKE_POSITION_INDEPENDENT_CODE=ON"@, x);
    if let Some((number, ext)) = standard {
        lemma_written_setting("-DCMAKE_CXX_STANDARD="@, "CMAKE_CXX_STANDARD"@, number, key, value);
        lemma_written_setting(
            "-DCMAKE_CXX_EXTENSIONS="@,
            "CMAKE_CXX_EXTENSIONS"@,
            on_off(ext),
            key,
            value,
        );
        lemma_in_one("-DCMAKE_CXX_STANDARD="@ + number, x);
        lemma_in_one("-DCMAKE_CXX_EXTENSIONS="@ + on_off(ext), x);
        let first = if defines(b, "CMAKE_CXX_STANDARD"@) {
            Seq::empty()
        } else {
            seq!["-DCMAKE_CXX_STANDARD="@ + number]
        };
        let second = if defines(b, "CMAKE_CXX_EXTENSIONS"@) {
            Seq::empty()
        } else {
            seq!["-DCMAKE_CXX_EXTENSIONS="@ + on_off(ext)]
        };
        lemma_in_either(first, second, x);
    }
    lemma_one_setting("CMAKE_POLICY_DEFAULT_CMP0069"@, "NEW"@, key, value);
    lemma_one_setting("CMAKE_INTERPROCEDURAL_OPTIMIZATION"@, "ON"@, key, value);
    lemma_in_two(
        "-DCMAKE_POLICY_DEFAULT_CMP0069=NEW"@,
        "-DCMAKE_INTERPROCEDURAL_OPTIMIZATION=ON"@,
        x,
    );
}

/// The flags of one language: those of the definition of that name, those of the build, and more.
pub open spec fn all_flags(
    defined: Option<Seq<char>>,
    flags: Seq<Seq<char>>,
    more: Seq<Seq<char>>,
) -> Seq<Seq<char>> {
    (if defined is Some {
        seq![defined->0]
    } else {
        Seq::empty()
    }) + flags + more
}

proof fn lemma_flag_settings(b: &CMakeBuild, key: Seq<char>, value: Seq<char>)
    requires
        !key.contains('='),
    ensures
        ({
            let c = all_flags(
                lookup(b.definitions.texts(), "CMAKE_C_FLAGS"@),
                views(b.flags@),
                Seq::empty(),
            );
            let cxx = all_flags(
                lookup(b.definitions.texts(), "CMAKE_CXX_FLAGS"@),
                views(b.flags@),
                stdlib_flag(b.cxx_stdlib),
            );
            passes(flag_args(b), key, value) <==> {
                ||| key == "CMAKE_C_FLAGS"@ && c.len() > 0 && value == joined(c, " "@)
                ||| key == "CMAKE_CXX_FLAGS"@ && cxx.len() > 0 && value == joined(cxx, " "@)
            }
        }),
{
    let x = "-D"@ + key + "="@ + value;
    lemma_cmake_c_flags();
    lemma_cmake_cxx_flags();
    let c = flags_with(b, "CMAKE_C_FLAGS"@);
    let cxx = flags_with(b, "CMAKE_CXX_FLAGS"@) + stdlib_flag(b.cxx_stdlib);
    assert(c =~= all_flags(
        lookup(b.definitions.texts(), "CMAKE_C_FLAGS"@),
        views(b.flags@),
        Seq::empty(),
    ));
    assert(cxx =~= all_flags(
        lookup(b.definitions.texts(), "CMAKE_CXX_FLAGS"@),
        views(b.flags@),
        stdlib_flag(b.cxx_stdlib),
    ));
    lemma_written_setting("-DCMAKE_C_FLAGS="@, "CMAKE_C_FLAGS"@, joined(c, " "@), key, value);
    lemma_written_setting("-DCMAKE_CXX_FLAGS="@, "CMAKE_CXX_FLAGS"@, joined(cxx, " "@), key, value);
    lemma_in_one("-DCMAKE_C_FLAGS="@ + joined(c, " "@), x);
    lemma_in_one("-DCMAKE_CXX_FLAGS="@ + joined(cxx, " "@), x);
    lemma_in_either(flag_arg("-DCMAKE_C_FLAGS="@, c), flag_arg("-DCMAKE_CXX_FLAGS="@, cxx), x);
}

/// What CMake is told of a variable, of each variable and of nothing else. Where a toolchain file
/// is given no compiler is; what a package defines goes along, its flags together with those of the
/// build, and wins over the settings for position independent code, the standard and link time
/// optimization.
pub proof fn what_cmake_is_told_of_a_variable(
    b: &CMakeBuild,
    src: Seq<char>,
    bld: Seq<char>,
    pfx: Seq<char>,
    key: Seq<char>,
    value: Seq<char>,
)
    requires
        is_plain_build(b, src, bld),
        !key.contains('='),
        standard_of(b.cxx_std@) is Ok,
    ensures
        ({
            let args = configure_args_of(b, src, bld, pfx);
            let standard = standard_of(b.cxx_std@)->Ok_0;
            let defined = lookup(b.definitions.texts(), key);
            let stdlib = if b.cxx_stdlib == CxxStdlib::Libcxx {
                seq!["-stdlib=libc++"@]
            } else if b.cxx_stdlib == CxxStdlib::Libstdcxx {
                seq!["-stdlib=libstdc++"@]
            } else {
                Seq::empty()
            };
            let c = all_flags(defined, views(b.flags@), Seq::empty());
            let cxx = all_flags(defined, views(b.flags@), stdlib);
            &&& args is Ok
            &&& passes(args->Ok_0, key, value) <==> {
                ||| key == "CMAKE_BUILD_TYPE"@ && value == b.build_type@
                ||| key == "CMAKE_INSTALL_PREFIX"@ && value == normed(pfx)
                ||| key == "BUILD_SHARED_LIBS"@ && b.shared && value == "ON"@
                ||| key == "BUILD_SHARED_LIBS"@ && !b.shared && value == "OFF"@
                ||| key == "CMAKE_POLICY_DEFAULT_CMP0091"@ && b.msvc_runtime is Some && value
                    == "NEW"@
                ||| key == "CMAKE_MSVC_RUNTIME_LIBRARY"@ && b.msvc_runtime is Some && value
                    == b.msvc_runtime->0@
                ||| key == "CMAKE_TOOLCHAIN_FILE"@ && b.toolchain_file is Some && value == normed(
                    b.toolchain_file->0@,
                )
                ||| key == "CMAKE_C_COMPILER"@ && b.toolchain_file is None && b.c_compiler is Some
                    && value == normed(b.c_compiler->0@)
                ||| key == "CMAKE_CXX_COMPILER"@ && b.toolchain_file is None && b.cxx_compiler
                    is Some && value == normed(b.cxx_compiler->0@)
                ||| (key == "CMAKE_PREFIX_PATH"@ || key == "CMAKE_FIND_ROOT_PATH"@)
                    && b.prefix_paths@.len() > 0 && value == joined(
                    normed_all(views(b.prefix_paths@)),
                    ";"@,
                )
                ||| key == "CMAKE_POSITION_INDEPENDENT_CODE"@ && defined is None && value == "ON"@
                ||| key == "CMAKE_CXX_STANDARD"@ && defined is None && standard is Some && value
                    == (standard->0).0
                ||| key == "CMAKE_CXX_EXTENSIONS"@ && defined is None && standard is Some
                    && (standard->0).1 && value == "ON"@
                ||| key == "CMAKE_CXX_EXTENSIONS"@ && defined is None && standard is Some
                    && !(standard->0).1 && value == "OFF"@
                ||| key == "CMAKE_INTERPROCEDURAL_OPTIMIZATION"@ && defined is None && b.lto
                    && value == "ON"@
                ||| key == "CMAKE_POLICY_DEFAULT_CMP0069"@ && b.lto && !defines(
                    b,
                    "CMAKE_INTERPROCEDURAL_OPTIMIZATION"@,
                ) && value == "NEW"@
                ||| key == "CMAKE_C_FLAGS"@ && c.len() > 0 && value == joined(c, " "@)
                ||| key == "CMAKE_CXX_FLAGS"@ && cxx.len() > 0 && value == joined(cxx, " "@)
                ||| key != "CMAKE_C_FLAGS"@ && key != "CMAKE_CXX_FLAGS"@ && defined == Some(value)
            }
        }),
{
    let x = "-D"@ + key + "="@ + value;
    let standard = standard_of(b.cxx_std@)->Ok_0;
    let a1 = base_args(b, src, bld, pfx);
    let a2 = a1 + runtime_args(b);
    let a3 = a2 + toolchain_args(b);
    let a4 = a3 + prefix_args(b);
    let a5 = a4 + pic_args(b);
    let a6 = a5 + standard_args(b, standard);
    let a7 = a6 + lto_args(b);
    let a8 = a7 + flag_args(b);
    let definitions = definition_args(b.definitions.texts());
    lemma_in_either(a1, runtime_args(b), x);
    lemma_in_either(a2, toolchain_args(b), x);
    lemma_in_either(a3, prefix_args(b), x);
    lemma_in_either(a4, pic_args(b), x);
    lemma_in_either(a5, standard_args(b, standard), x);
    lemma_in_either(a6, lto_args(b), x);
    lemma_in_either(a7, flag_args(b), x);
    lemma_in_either(a8, definitions, x);
    lemma_base_settings(b, src, bld, pfx, key, value);
    lemma_tool_settings(b, key, value);
    lemma_language_settings(b, standard, key, value);
    lemma_flag_settings(b, key, value);
    lemma_definition_settings(b.definitions.texts(), key, value);
}

/// Where CMake is run: it is told the source directory, the build directory and the generator
/// first. Without a standard that can be understood there is no run.
pub proof fn where_cmake_runs(b: &CMakeBuild, src: Seq<char>, bld: Seq<char>, pfx: Seq<char>)
    ensures
        configure_args_of(b, src, bld, pfx) matches Ok(args) ==> args.len() >= 8 && args.take(5)
            == seq!["-S"@, normed(src), "-B"@, normed(bld), "-GNinja"@],
        configure_args_of(b, src, bld, pfx) is Err <==> standard_of(b.cxx_std@) is Err,
        configure_args_of(b, src, bld, pfx) is Err ==> configure_args_of(b, src, bld, pfx)->Err_0
            == "Invalid cxx_std '"@ + b.cxx_std@
            + "': expected e.g. \"17\", \"c++20\" or \"gnu++17\""@,
{
    if let Ok(args) = configure_args_of(b, src, bld, pfx) {
        assert(args.take(5) =~= seq!["-S"@, normed(src), "-B"@, normed(bld), "-GNinja"@]);
    }
}

/// CMake gets paths with `/` in place of `\`, and otherwise as they are.
pub proof fn cmake_gets_paths_with_slashes(p: Seq<char>)
    ensures
        normed(p).len() == p.len(),
        forall|i: int|
            0 <= i < p.len() ==> #[trigger] normed(p)[i] == if p[i] == '\\' {
                '/'
            } else {
                p[i]
            },
{
}

proof fn lemma_no_definition_is(
    pairs: Seq<(Seq<char>, Seq<char>)>,
    key: Seq<char>,
    value: Seq<char>,
)
    requires
        !key.contains('='),
        !value.contains('='),
        lookup(pairs, key) is None,
    ensures
        !passes(definition_args(pairs), key, value),
    decreases pairs.len(),
{
    if pairs.len() > 0 {
        let init = pairs.drop_last();
        let (k, v) = pairs.last();
        if lookup(init, key) is Some {
            lemma_found_pair(init, key);
            let i = choose|i: int|
                0 <= i < init.len() && #[trigger] init[i] == (key, lookup(init, key)->0);
            lemma_pair_is_found(pairs, i);
        }
        lemma_no_definition_is(init, key, value);
        let x = "-D"@ + k + "="@ + v;
        let y = "-D"@ + key + "="@ + value;
        let sofar = definition_args(init);
        assert(sofar.push(x) =~= sofar + seq![x]);
        lemma_in_either(sofar, seq![x], y);
        lemma_in_one(x, y);
        if x == y {
            reveal_strlit("-D");
            reveal_strlit("=");
            let n = k.len() as int;
            let m = key.len() as int;
            assert(x[2 + n] == '=');
            assert(x.len() == n + v.len() + 3 && y.len() == m + value.len() + 3);
            if n < m {
                assert(y[2 + n] == key[n]);
            } else if n > m {
                assert(y[2 + n] == value[n - m - 1]);
            }
            assert(x.subrange(2, 2 + n) =~= k);
            assert(y.subrange(2, 2 + n) =~= key);
            lemma_pair_is_found(pairs, pairs.len() - 1);
        }
    }
}

proof fn lemma_pair_is_found(pairs: Seq<(Seq<char>, Seq<char>)>, i: int)
    requires
        0 <= i < pairs.len(),
    ensures
        lookup(pairs, pairs[i].0) is Some,
    decreases i,
{
    if i > 0 && pairs[0].0 != pairs[i].0 {
        lemma_pair_is_found(pairs.skip(1), i - 1);
        assert(pairs.skip(1)[i - 1] == pairs[i]);
    }
}

proof fn lemma_shared_setting(
    b: &CMakeBuild,
    src: Seq<char>,
    bld: Seq<char>,
    pfx: Seq<char>,
    value: Seq<char>,
)
    requires
        standard_of(b.cxx_std@) is Ok,
        !has_prefix(src, "-D"@),
        !has_prefix(bld, "-D"@),
        !defines(b, "BUILD_SHARED_LIBS"@),
        !value.contains('='),
    ensures
        passes(configure_args_of(b, src, bld, pfx)->Ok_0, "BUILD_SHARED_LIBS"@, value) <==> value
            == if b.shared {
            "ON"@
        } else {
            "OFF"@
        },
{
    let key = "BUILD_SHARED_LIBS"@;
    let x = "-D"@ + key + "="@ + value;
    let standard = standard_of(b.cxx_std@)->Ok_0;
    lemma_build_shared_libs();
    let a1 = base_args(b, src, bld, pfx);
    let a2 = a1 + runtime_args(b);
    let a3 = a2 + toolchain_args(b);
    let a4 = a3 + prefix_args(b);
    let a5 = a4 + pic_args(b);
    let a6 = a5 + standard_args(b, standard);
    let a7 = a6 + lto_args(b);
    let a8 = a7 + flag_args(b);
    let definitions = definition_args(b.definitions.texts());
    lemma_in_either(a1, runtime_args(b), x);
    lemma_in_either(a2, toolchain_args(b), x);
    lemma_in_either(a3, prefix_args(b), x);
    lemma_in_either(a4, pic_args(b), x);
    lemma_in_either(a5, standard_args(b, standard), x);
    lemma_in_either(a6, lto_args(b), x);
    lemma_in_either(a7, flag_args(b), x);
    lemma_in_either(a8, definitions, x);
    lemma_base_settings(b, src, bld, pfx, key, value);
    lemma_tool_settings(b, key, value);
    lemma_language_settings(b, standard, key, value);
    lemma_flag_settings(b, key, value);
    lemma_no_definition_is(b.definitions.texts(), key, value);
    reveal_strlit("BUILD_SHARED_LIBS");
    assert(key[0] == 'B');
    reveal_strlit("CMAKE_BUILD_TYPE");
    assert("CMAKE_BUILD_TYPE"@[0] == 'C');
    reveal_strlit("CMAKE_INSTALL_PREFIX");
    assert("CMAKE_INSTALL_PREFIX"@[0] == 'C');
    reveal_strlit("CMAKE_MSVC_RUNTIME_LIBRARY");
    assert("CMAKE_MSVC_RUNTIME_LIBRARY"@[0] == 'C');
    reveal_strlit("CMAKE_TOOLCHAIN_FILE");
    assert("CMAKE_TOOLCHAIN_FILE"@[0] == 'C');
    reveal_strlit("CMAKE_C_COMPILER");
    assert("CMAKE_C_COMPILER"@[0] == 'C');
    reveal_strlit("CMAKE_CXX_COMPILER");
    assert("CMAKE_CXX_COMPILER"@[0] == 'C');
    reveal_strlit("CMAKE_PREFIX_PATH");
    assert("CMAKE_PREFIX_PATH"@[0] == 'C');
    reveal_strlit("CMAKE_FIND_ROOT_PATH");
    assert("CMAKE_FIND_ROOT_PATH"@[0] == 'C');
    reveal_strlit("CMAKE_CXX_STANDARD");
    assert("CMAKE_CXX_STANDARD"@[0] == 'C');
    reveal_strlit("CMAKE_CXX_EXTENSIONS");
    assert("CMAKE_CXX_EXTENSIONS"@[0] == 'C');
    reveal_strlit("CMAKE_C_FLAGS");
    assert("CMAKE_C_FLAGS"@[0] == 'C');
    reveal_strlit("CMAKE_CXX_FLAGS");
    assert("CMAKE_CXX_FLAGS"@[0] == 'C');
    reveal_strlit("CMAKE_POLICY_DEFAULT_CMP0091");
    assert("CMAKE_POLICY_DEFAULT_CMP0091"@[0] == 'C');
    reveal_strlit("CMAKE_POLICY_DEFAULT_CMP0069");
    assert("CMAKE_POLICY_DEFAULT_CMP0069"@[0] == 'C');
    reveal_strlit("CMAKE_POSITION_INDEPENDENT_CODE");
    assert("CMAKE_POSITION_INDEPENDENT_CODE"@[0] == 'C');
    reveal_strlit("CMAKE_INTERPROCEDURAL_OPTIMIZATION");
    assert("CMAKE_INTERPROCEDURAL_OPTIMIZATION"@[0] == 'C');
}

/// Shared libraries are switched on exactly where the build wants them, and switched off exactly
/// where it does not, unless the package defines the variable itself.
pub proof fn shared_libraries_are_built_where_wanted(
    b: &CMakeBuild,
    src: Seq<char>,
    bld: Seq<char>,
    pfx: Seq<char>,
)
    requires
        standard_of(b.cxx_std@) is Ok,
        !has_prefix(src, "-D"@),
        !has_prefix(bld, "-D"@),
        !defines(b, "BUILD_SHARED_LIBS"@),
    ensures
        configure_args_of(b, src, bld, pfx) is Ok,
        configure_args_of(b, src, bld, pfx)->Ok_0.contains("-DBUILD_SHARED_LIBS=ON"@) <==> b.shared,
        configure_args_of(b, src, bld, pfx)->Ok_0.contains("-DBUILD_SHARED_LIBS=OFF"@)
            <==> !b.shared,
{
    reveal_strlit("ON");
    reveal_strlit("OFF");
    reveal_strlit("-D");
    reveal_strlit("=");
    reveal_strlit("BUILD_SHARED_LIBS");
    reveal_strlit("-DBUILD_SHARED_LIBS=ON");
    reveal_strlit("-DBUILD_SHARED_LIBS=OFF");
    assert("-DBUILD_SHARED_LIBS=ON"@ =~= "-D"@ + "BUILD_SHARED_LIBS"@ + "="@ + "ON"@);
    assert("-DBUILD_SHARED_LIBS=OFF"@ =~= "-D"@ + "BUILD_SHARED_LIBS"@ + "="@ + "OFF"@);
    lemma_shared_setting(b, src, bld, pfx, "ON"@);
    lemma_shared_setting(b, src, bld, pfx, "OFF"@);
}

/// A build is a run of `configure`, of `build` and of `install`, in this order, each with a log of
/// its own, in the directory for logs or else in the build directory. Only the last sees the
/// environment as it is, and only the first looks for packages.
pub proof fn a_build_is_three_runs(
    b: &CMakeBuild,
    src: Seq<char>,
    bld: Seq<char>,
    pfx: Seq<char>,
    found: Seq<Seq<char>>,
    inherited: Seq<Seq<char>>,
    path: Seq<Seq<char>>,
)
    ensures
        steps_of(b, src, bld, pfx, found, inherited, path) is Err <==> configure_args_of(
            b,
            src,
            bld,
            pfx,
        ) is Err,
        steps_of(b, src, bld, pfx, found, inherited, path) matches Ok(steps) ==> {
            let logs = if b.log_dir is Some {
                b.log_dir->0@
            } else {
                bld
            };
            let tools = views(b.host_tools_bins@);
            &&& steps.len() == 3
            &&& steps[0].name == "configure"@
            &&& steps[1].name == "build"@
            &&& steps[2].name == "install"@
            &&& configure_args_of(b, src, bld, pfx) == Ok::<Seq<Seq<char>>, Seq<char>>(
                steps[0].args,
            )
            &&& steps[1].args.take(4) == seq!["--build"@, "."@, "--config"@, b.build_type@]
            &&& b.jobs is None ==> steps[1].args.len() == 4
            &&& b.jobs is Some ==> steps[1].args.skip(4) == seq![
                "--parallel"@,
                decimal(b.jobs->0 as nat),
            ]
            &&& steps[2].args == seq!["--install"@, "."@, "--config"@, b.build_type@]
            &&& steps[0].log == path_join(logs, "configure.log"@)
            &&& steps[1].log == path_join(logs, "build.log"@)
            &&& steps[2].log == path_join(logs, "install.log"@)
            &&& steps[0].isolate_env == b.isolate_env
            &&& steps[1].isolate_env == b.isolate_env
            &&& !steps[2].isolate_env
            &&& found.len() > 0 ==> steps[0].pkg_config_path == found + inherited
            &&& found.len() == 0 ==> steps[0].pkg_config_path.len() == 0
            &&& steps[1].pkg_config_path.len() == 0 && steps[2].pkg_config_path.len() == 0
            &&& tools.len() > 0 ==> steps[0].path == tools + path && steps[1].path == tools + path
            &&& tools.len() == 0 ==> steps[0].path.len() == 0 && steps[1].path.len() == 0
            &&& steps[2].path.len() == 0
        },
{
    if let Ok(steps) = steps_of(b, src, bld, pfx, found, inherited, path) {
        assert(steps[1].args.take(4) =~= seq!["--build"@, "."@, "--config"@, b.build_type@]);
        if b.jobs is Some {
            assert(steps[1].args.skip(4) =~= seq!["--parallel"@, decimal(b.jobs->0 as nat)]);
        }
    }
}

/// Packages are looked for under `lib/pkgconfig` and `share/pkgconfig` of every prefix, in the
/// order of the prefixes.
pub proof fn packages_are_looked_for_under_every_prefix(prefixes: Seq<Seq<char>>, i: int)
    requires
        0 <= i < prefixes.len(),
    ensures
        pkg_config_dirs(prefixes).len() == 2 * prefixes.len(),
        pkg_config_dirs(prefixes)[2 * i] == path_join(path_join(prefixes[i], "lib"@), "pkgconfig"@),
        pkg_config_dirs(prefixes)[2 * i + 1] == path_join(
            path_join(prefixes[i], "share"@),
            "pkgconfig"@,
        ),
    decreases prefixes.len(),
{
    let init = prefixes.drop_last();
    if init.len() == 0 {
        assert(pkg_config_dirs(init).len() == 0);
    } else {
        packages_are_looked_for_under_every_prefix(
            init,
            if i < init.len() {
                i
            } else {
                0
            },
        );
    }
}

/// A run that fails is reported with its name, its log and the end of what it printed: its last
/// twenty lines, or all of them where there are no more.
pub proof fn a_failure_shows_the_end_of_the_output(
    step: Seq<char>,
    log: Seq<char>,
    output: Seq<char>,
)
    ensures
        ({
            let head = "CMake "@ + step + " step failed. Full log: "@ + log + "\n"@;
            let lines = lines_of(output);
            &&& failure_message_of(step, log, None) == head
            &&& lines.len() <= 20 ==> failure_message_of(step, log, Some(output)) == head + joined(
                lines,
                "\n"@,
            )
            &&& lines.len() > 20 ==> failure_message_of(step, log, Some(output)) == head + joined(
                lines.subrange(lines.len() - 20, lines.len() as int),
                "\n"@,
            )
        }),
        start_failure_message_of(step) == "Failed to execute cmake "@ + step
            + " (is cmake on PATH?)"@,
{
    let lines = lines_of(output);
    let head = "CMake "@ + step + " step failed. Full log: "@ + log + "\n"@;
    assert(failure_message_of(step, log, None) =~= head);
    if lines.len() > 20 {
        assert(lines.subrange(lines.len() - 20, lines.len() as int) =~= lines.skip(
            lines.len() - 20,
        ));
    }
}

/// A draft's name stands for the standard that came of it.
pub proof fn a_draft_names_the_standard_that_came_of_it()
    ensures
        final_number("0x"@) == "11"@,
        final_number("1y"@) == "14"@,
        final_number("1z"@) == "17"@,
        final_number("2a"@) == "20"@,
        final_number("2b"@) == "23"@,
        final_number("2c"@) == "26"@,
{
    reveal_strlit("0x");
    reveal_strlit("1y");
    reveal_strlit("1z");
    reveal_strlit("2a");
    reveal_strlit("2b");
    reveal_strlit("2c");
    assert("0x"@[0] == '0' && "0x"@[1] == 'x');
    assert("1y"@[0] == '1' && "1y"@[1] == 'y');
    assert("1z"@[0] == '1' && "1z"@[1] == 'z');
    assert("2a"@[0] == '2' && "2a"@[1] == 'a');
    assert("2b"@[0] == '2' && "2b"@[1] == 'b');
    assert("2c"@[0] == '2' && "2c"@[1] == 'c');
}

} // verus!
