//! What identities tell apart: every part of a source or of a build that can change it shows in
//! what its identity is computed from.
use crate::hash::{
    bool_text, build_text, compiler_part, effective_target, ignores, is_shared, kind_part,
    lemma_bytes_differ, lemma_marked_all_append, lemma_middle, list_part, local_bytes, marked,
    marked_all, marked_pairs, patch_bytes, patches_bytes, resolved_bytes, revision_bytes, runtime_part,
    source_bytes, standard_part, EntryView,
};
use crate::node::{NodeKind, NodeView};
use crate::path::file_name_of;
use crate::strategy::ConfigView;
use crate::target::{build_type_text, stdlib_text, BuildType, CxxStdlib, TripleView};
use vstd::prelude::*;
use vstd::utf8::encode_utf8;

verus! {

/// Texts that differ in the middle alone have different bytes.
proof fn lemma_apart(
    p: Seq<char>,
    a: Seq<char>,
    b: Seq<char>,
    r: Seq<char>,
    x: Seq<char>,
    y: Seq<char>,
)
    requires
        a != b,
        x == p + a + r,
        y == p + b + r,
    ensures
        encode_utf8(x) != encode_utf8(y),
{
    if encode_utf8(x) == encode_utf8(y) {
        lemma_bytes_differ(x, y);
        lemma_middle(p, a, b, r);
    }
}

/// What stands in front of the part for the compiler.
spec fn head(source_id: Seq<char>, raw: Seq<char>) -> Seq<char> {
    ":build_defaults:v2"@ + ":source_id:"@ + source_id + ":target:"@ + raw
}

proof fn lemma_two(h: Seq<char>, a: Seq<char>, r: Seq<char>, s: Seq<char>)
    ensures
        h + a + r + s == h + a + (r + s),
{
    assert(h + a + r + s =~= h + a + (r + s));
}

proof fn lemma_three(h: Seq<char>, m: Seq<char>, a: Seq<char>)
    ensures
        h + (m + a) == (h + m) + a,
{
    assert(h + (m + a) =~= (h + m) + a);
}

proof fn lemma_inner(h: Seq<char>, p: Seq<char>, a: Seq<char>, r: Seq<char>, s: Seq<char>)
    ensures
        h + (p + a + r) + s == (h + p) + a + (r + s),
{
    assert(h + (p + a + r) + s =~= (h + p) + a + (r + s));
}

proof fn lemma_to_the_end(h: Seq<char>, p: Seq<char>, a: Seq<char>, s: Seq<char>)
    ensures
        h + (p + a) + s == (h + p) + a + s,
{
    assert(h + (p + a) + s =~= (h + p) + a + s);
}

/// Builds of different sources are told apart.
pub proof fn source_separates_builds(
    n: NodeView,
    a: Seq<char>,
    b: Seq<char>,
    target: TripleView,
    host: TripleView,
    dep_ids: Seq<Seq<char>>,
)
    requires
        a != b,
    ensures
        encode_utf8(build_text(n, a, target, host, dep_ids)) != encode_utf8(
            build_text(n, b, target, host, dep_ids),
        ),
{
    let e = effective_target(n, target, host);
    let p = ":build_defaults:v2"@ + ":source_id:"@;
    let t = ":target:"@;
    let (c, r, s, k, l) = (
        compiler_part(n),
        runtime_part(n, e),
        standard_part(n),
        kind_part(n),
        list_part(n, dep_ids),
    );
    let x = p + a;
    let y = p + b;
    lemma_gather(x, t, e.raw, c, r, s, k, l);
    lemma_gather(y, t, e.raw, c, r, s, k, l);
    lemma_apart(
        p,
        a,
        b,
        t + e.raw + c + r + s + k + l,
        build_text(n, a, target, host, dep_ids),
        build_text(n, b, target, host, dep_ids),
    );
}

proof fn lemma_gather(
    x: Seq<char>,
    t: Seq<char>,
    e: Seq<char>,
    c: Seq<char>,
    r: Seq<char>,
    s: Seq<char>,
    k: Seq<char>,
    l: Seq<char>,
)
    ensures
        x + t + e + c + r + s + k + l == x + (t + e + c + r + s + k + l),
{
    lemma_assoc(x, t, e);
    lemma_assoc(x, t + e, c);
    lemma_assoc(x, t + e + c, r);
    lemma_assoc(x, t + e + c + r, s);
    lemma_assoc(x, t + e + c + r + s, k);
    lemma_assoc(x, t + e + c + r + s + k, l);
}

proof fn lemma_assoc(a: Seq<char>, b: Seq<char>, c: Seq<char>)
    ensures
        a + b + c == a + (b + c),
{
    assert(a + b + c =~= a + (b + c));
}

/// Builds for different targets are told apart, where the targets are of one environment.
pub proof fn target_separates_builds(
    n: NodeView,
    source_id: Seq<char>,
    a: TripleView,
    b: TripleView,
    host: TripleView,
    dep_ids: Seq<Seq<char>>,
)
    requires
        n.kind == NodeKind::TargetDependency,
        a.env == b.env,
        a.raw != b.raw,
    ensures
        encode_utf8(build_text(n, source_id, a, host, dep_ids)) != encode_utf8(
            build_text(n, source_id, b, host, dep_ids),
        ),
{
    let p = ":build_defaults:v2"@ + ":source_id:"@ + source_id + ":target:"@;
    let (c, r, s, k, l) = (
        compiler_part(n),
        runtime_part(n, a),
        standard_part(n),
        kind_part(n),
        list_part(n, dep_ids),
    );
    assert(runtime_part(n, b) == r);
    lemma_behind(p + a.raw, c, r, s, k, l);
    lemma_behind(p + b.raw, c, r, s, k, l);
    lemma_apart(
        p,
        a.raw,
        b.raw,
        c + r + s + k + l,
        build_text(n, source_id, a, host, dep_ids),
        build_text(n, source_id, b, host, dep_ids),
    );
}

proof fn lemma_behind(
    x: Seq<char>,
    c: Seq<char>,
    r: Seq<char>,
    s: Seq<char>,
    k: Seq<char>,
    l: Seq<char>,
)
    ensures
        x + c + r + s + k + l == x + (c + r + s + k + l),
{
    lemma_assoc(x, c, r);
    lemma_assoc(x, c + r, s);
    lemma_assoc(x, c + r + s, k);
    lemma_assoc(x, c + r + s + k, l);
}

/// Tools are built for the host: the target does not count.
pub proof fn tools_do_not_depend_on_the_target(
    n: NodeView,
    source_id: Seq<char>,
    a: TripleView,
    b: TripleView,
    host: TripleView,
    dep_ids: Seq<Seq<char>>,
)
    requires
        n.kind == NodeKind::HostTool,
    ensures
        build_text(n, source_id, a, host, dep_ids) == build_text(n, source_id, b, host, dep_ids),
{
}

/// A package with other settings.
pub open spec fn with_config(n: NodeView, c: ConfigView) -> NodeView {
    NodeView { config: c, ..n }
}

/// What stands in front of the part for the standard.
spec fn before_standard(
    n: NodeView,
    source_id: Seq<char>,
    target: TripleView,
    host: TripleView,
) -> Seq<char> {
    let e = effective_target(n, target, host);
    head(source_id, e.raw) + compiler_part(n) + runtime_part(n, e)
}

/// Builds that differ in the C++ standard alone are told apart, unless the package ignores it.
pub proof fn standard_separates_builds(
    n: NodeView,
    a: Seq<char>,
    b: Seq<char>,
    source_id: Seq<char>,
    target: TripleView,
    host: TripleView,
    dep_ids: Seq<Seq<char>>,
)
    requires
        !ignores(n, "cxx_std"@),
        a != b,
    ensures
        encode_utf8(
            build_text(
                with_config(n, ConfigView { cxx_std: a, ..n.config }),
                source_id,
                target,
                host,
                dep_ids,
            ),
        ) != encode_utf8(
            build_text(
                with_config(n, ConfigView { cxx_std: b, ..n.config }),
                source_id,
                target,
                host,
                dep_ids,
            ),
        ),
{
    let x = with_config(n, ConfigView { cxx_std: a, ..n.config });
    let y = with_config(n, ConfigView { cxx_std: b, ..n.config });
    let h = before_standard(n, source_id, target, host);
    let m = ":cxx_std:"@;
    let lib = if ignores(n, "cxx_stdlib"@) {
        Seq::empty()
    } else {
        ":cxx_stdlib:"@ + stdlib_text(n.config.cxx_stdlib)
    };
    let k = kind_part(n);
    let l = list_part(n, dep_ids);
    assert(before_standard(x, source_id, target, host) == h);
    assert(before_standard(y, source_id, target, host) == h);
    assert(kind_part(x) == k && kind_part(y) == k);
    assert(list_part(x, dep_ids) == l && list_part(y, dep_ids) == l);
    lemma_two(h, standard_part(x), k, l);
    lemma_two(h, standard_part(y), k, l);
    lemma_inner(h, m, a, lib, k + l);
    lemma_inner(h, m, b, lib, k + l);
    lemma_apart(
        h + m,
        a,
        b,
        lib + (k + l),
        build_text(x, source_id, target, host, dep_ids),
        build_text(y, source_id, target, host, dep_ids),
    );
}

/// The standard libraries have different names.
pub proof fn stdlib_texts_differ(a: CxxStdlib, b: CxxStdlib)
    requires
        a != b,
    ensures
        stdlib_text(a) != stdlib_text(b),
{
    reveal_strlit("PlatformDefault");
    reveal_strlit("Libcxx");
    reveal_strlit("Libstdcxx");
    reveal_strlit("Custom");
    assert("PlatformDefault"@.len() == 15);
    assert("Libcxx"@.len() == 6);
    assert("Libstdcxx"@.len() == 9);
    assert("Custom"@.len() == 6);
    assert("Libcxx"@[0] == 'L');
    assert("Custom"@[0] == 'C');
}

/// Builds that differ in the C++ standard library alone are told apart, unless the package ignores
/// it.
pub proof fn stdlib_separates_builds(
    n: NodeView,
    a: CxxStdlib,
    b: CxxStdlib,
    source_id: Seq<char>,
    target: TripleView,
    host: TripleView,
    dep_ids: Seq<Seq<char>>,
)
    requires
        !ignores(n, "cxx_stdlib"@),
        a != b,
    ensures
        encode_utf8(
            build_text(
                with_config(n, ConfigView { cxx_stdlib: a, ..n.config }),
                source_id,
                target,
                host,
                dep_ids,
            ),
        ) != encode_utf8(
            build_text(
                with_config(n, ConfigView { cxx_stdlib: b, ..n.config }),
                source_id,
                target,
                host,
                dep_ids,
            ),
        ),
{
    let x = with_config(n, ConfigView { cxx_stdlib: a, ..n.config });
    let y = with_config(n, ConfigView { cxx_stdlib: b, ..n.config });
    let h = before_standard(n, source_id, target, host);
    let m = ":cxx_stdlib:"@;
    let std = if ignores(n, "cxx_std"@) {
        Seq::empty()
    } else {
        ":cxx_std:"@ + n.config.cxx_std
    };
    let k = kind_part(n);
    let l = list_part(n, dep_ids);
    let ta = stdlib_text(a);
    let tb = stdlib_text(b);
    stdlib_texts_differ(a, b);
    assert(before_standard(x, source_id, target, host) == h);
    assert(before_standard(y, source_id, target, host) == h);
    assert(kind_part(x) == k && kind_part(y) == k);
    assert(list_part(x, dep_ids) == l && list_part(y, dep_ids) == l);
    lemma_three(std, m, ta);
    lemma_three(std, m, tb);
    lemma_two(h, standard_part(x), k, l);
    lemma_two(h, standard_part(y), k, l);
    lemma_to_the_end(h, std + m, ta, k + l);
    lemma_to_the_end(h, std + m, tb, k + l);
    lemma_apart(
        h + (std + m),
        ta,
        tb,
        k + l,
        build_text(x, source_id, target, host, dep_ids),
        build_text(y, source_id, target, host, dep_ids),
    );
}

/// The parts for the kind of a build, by what they say.
spec fn kind_text_for(b: BuildType, shared: bool, header_only: bool, lto: bool) -> Seq<char> {
    ":build_type:"@ + build_type_text(b) + ":shared:"@ + bool_text(shared) + ":header_only:"@
        + bool_text(header_only) + ":lto:"@ + bool_text(lto)
}

/// The texts for a yes or no differ.
proof fn lemma_bools(a: bool, b: bool)
    requires
        a != b,
    ensures
        bool_text(a) != bool_text(b),
{
    reveal_strlit("true");
    reveal_strlit("false");
    assert("true"@.len() == 4);
    assert("false"@.len() == 5);
}

/// The texts for build types differ.
proof fn lemma_build_types(a: BuildType, b: BuildType)
    requires
        a != b,
    ensures
        build_type_text(a) != build_type_text(b),
{
    reveal_strlit("Debug");
    reveal_strlit("Release");
    reveal_strlit("RelWithDebInfo");
    reveal_strlit("MinSizeRel");
    assert("Debug"@.len() == 5);
    assert("Release"@.len() == 7);
    assert("RelWithDebInfo"@.len() == 14);
    assert("MinSizeRel"@.len() == 10);
}

/// The build type, the linkage, whether there are headers alone and link time optimisation can be
/// told from the part for the kind of a build.
proof fn lemma_kinds(
    b1: BuildType,
    s1: bool,
    h1: bool,
    l1: bool,
    b2: BuildType,
    s2: bool,
    h2: bool,
    l2: bool,
)
    requires
        (b1, s1, h1, l1) != (b2, s2, h2, l2),
        b1 != b2 ==> s1 == s2 && h1 == h2 && l1 == l2,
        s1 != s2 ==> h1 == h2 && l1 == l2,
        h1 != h2 ==> l1 == l2,
    ensures
        kind_text_for(b1, s1, h1, l1) != kind_text_for(b2, s2, h2, l2),
{
    let m1 = ":build_type:"@;
    let m2 = ":shared:"@;
    let m3 = ":header_only:"@;
    let m4 = ":lto:"@;
    let (x, y) = (kind_text_for(b1, s1, h1, l1), kind_text_for(b2, s2, h2, l2));
    if x == y {
        if b1 != b2 {
            lemma_build_types(b1, b2);
            let r = m2 + bool_text(s1) + m3 + bool_text(h1) + m4 + bool_text(l1);
            lemma_seven(
                m1 + build_type_text(b1),
                m2,
                bool_text(s1),
                m3,
                bool_text(h1),
                m4,
                bool_text(l1),
            );
            lemma_seven(
                m1 + build_type_text(b2),
                m2,
                bool_text(s1),
                m3,
                bool_text(h1),
                m4,
                bool_text(l1),
            );
            lemma_middle(m1, build_type_text(b1), build_type_text(b2), r);
        } else if s1 != s2 {
            lemma_bools(s1, s2);
            let p = m1 + build_type_text(b1) + m2;
            let r = m3 + bool_text(h1) + m4 + bool_text(l1);
            lemma_five(p + bool_text(s1), m3, bool_text(h1), m4, bool_text(l1));
            lemma_five(p + bool_text(s2), m3, bool_text(h1), m4, bool_text(l1));
            lemma_middle(p, bool_text(s1), bool_text(s2), r);
        } else if h1 != h2 {
            lemma_bools(h1, h2);
            let p = m1 + build_type_text(b1) + m2 + bool_text(s1) + m3;
            let r = m4 + bool_text(l1);
            lemma_assoc(p + bool_text(h1), m4, bool_text(l1));
            lemma_assoc(p + bool_text(h2), m4, bool_text(l1));
            lemma_middle(p, bool_text(h1), bool_text(h2), r);
        } else {
            lemma_bools(l1, l2);
            let p = m1 + build_type_text(b1) + m2 + bool_text(s1) + m3 + bool_text(h1) + m4;
            let r = Seq::<char>::empty();
            assert(x =~= p + bool_text(l1) + r);
            assert(y =~= p + bool_text(l2) + r);
            lemma_middle(p, bool_text(l1), bool_text(l2), r);
        }
    }
}

proof fn lemma_five(x: Seq<char>, a: Seq<char>, b: Seq<char>, c: Seq<char>, d: Seq<char>)
    ensures
        x + a + b + c + d == x + (a + b + c + d),
{
    lemma_assoc(x, a, b);
    lemma_assoc(x, a + b, c);
    lemma_assoc(x, a + b + c, d);
}

proof fn lemma_seven(
    x: Seq<char>,
    a: Seq<char>,
    b: Seq<char>,
    c: Seq<char>,
    d: Seq<char>,
    e: Seq<char>,
    f: Seq<char>,
)
    ensures
        x + a + b + c + d + e + f == x + (a + b + c + d + e + f),
{
    lemma_five(x, a, b, c, d);
    lemma_assoc(x, a + b + c + d, e);
    lemma_assoc(x, a + b + c + d + e, f);
}

/// Builds that differ in one thing alone are told apart: the build type, the linkage, whether the
/// package has headers alone, or link time optimisation.
pub proof fn kind_separates_builds(
    x: NodeView,
    y: NodeView,
    source_id: Seq<char>,
    target: TripleView,
    host: TripleView,
    dep_ids: Seq<Seq<char>>,
)
    requires
        y == (NodeView {
            shared: y.shared,
            header_only: y.header_only,
            config: ConfigView {
                build_type: y.config.build_type,
                shared: y.config.shared,
                lto: y.config.lto,
                ..x.config
            },
            ..x
        }),
        ({
            let b = x.config.build_type != y.config.build_type;
            let s = is_shared(x) != is_shared(y);
            let h = x.header_only != y.header_only;
            let l = x.config.lto != y.config.lto;
            ||| b && !s && !h && !l
            ||| !b && s && !h && !l
            ||| !b && !s && h && !l
            ||| !b && !s && !h && l
        }),
    ensures
        encode_utf8(build_text(x, source_id, target, host, dep_ids)) != encode_utf8(
            build_text(y, source_id, target, host, dep_ids),
        ),
{
    let h = before_standard(x, source_id, target, host) + standard_part(x);
    let l = list_part(x, dep_ids);
    assert(before_standard(y, source_id, target, host) == before_standard(
        x,
        source_id,
        target,
        host,
    ));
    assert(standard_part(y) == standard_part(x));
    assert(list_part(y, dep_ids) == l);
    lemma_kinds(
        x.config.build_type,
        is_shared(x),
        x.header_only,
        x.config.lto,
        y.config.build_type,
        is_shared(y),
        y.header_only,
        y.config.lto,
    );
    lemma_apart(
        h,
        kind_part(x),
        kind_part(y),
        l,
        build_text(x, source_id, target, host, dep_ids),
        build_text(y, source_id, target, host, dep_ids),
    );
}

/// What stands in front of the part for flags, options and dependencies.
spec fn before_lists(
    n: NodeView,
    source_id: Seq<char>,
    target: TripleView,
    host: TripleView,
) -> Seq<char> {
    before_standard(n, source_id, target, host) + standard_part(n) + kind_part(n)
}

/// Builds that differ in one flag alone are told apart.
pub proof fn flags_separate_builds(
    n: NodeView,
    before: Seq<Seq<char>>,
    a: Seq<char>,
    b: Seq<char>,
    after: Seq<Seq<char>>,
    source_id: Seq<char>,
    target: TripleView,
    host: TripleView,
    dep_ids: Seq<Seq<char>>,
)
    requires
        a != b,
    ensures
        encode_utf8(
            build_text(
                with_config(n, ConfigView { flags: before.push(a) + after, ..n.config }),
                source_id,
                target,
                host,
                dep_ids,
            ),
        ) != encode_utf8(
            build_text(
                with_config(n, ConfigView { flags: before.push(b) + after, ..n.config }),
                source_id,
                target,
                host,
                dep_ids,
            ),
        ),
{
    let x = with_config(n, ConfigView { flags: before.push(a) + after, ..n.config });
    let y = with_config(n, ConfigView { flags: before.push(b) + after, ..n.config });
    let h = before_lists(n, source_id, target, host);
    assert(before_lists(x, source_id, target, host) == h);
    assert(before_lists(y, source_id, target, host) == h);
    let mark = ":flag:"@;
    lemma_marked_all_append(mark, before.push(a), after);
    lemma_marked_all_append(mark, before.push(b), after);
    assert(before.push(a).drop_last() =~= before);
    assert(before.push(b).drop_last() =~= before);
    let p = marked_all(mark, before) + mark;
    let r = marked_all(mark, after);
    let c = marked_pairs(":cmake_opt:"@, n.config.cmake_options);
    let o = marked_pairs(":node_opt:"@, n.cmake_options);
    let d = marked_all(":dep_id:"@, dep_ids);
    lemma_lists(h, p + a + r, c, o, d);
    lemma_lists(h, p + b + r, c, o, d);
    lemma_inner(h, p, a, r, c + o + d);
    lemma_inner(h, p, b, r, c + o + d);
    lemma_apart(
        h + p,
        a,
        b,
        r + (c + o + d),
        build_text(x, source_id, target, host, dep_ids),
        build_text(y, source_id, target, host, dep_ids),
    );
}

proof fn lemma_lists(h: Seq<char>, f: Seq<char>, c: Seq<char>, o: Seq<char>, d: Seq<char>)
    ensures
        h + (f + c + o + d) == h + f + (c + o + d),
{
    lemma_assoc(f, c, o);
    lemma_assoc(f, c + o, d);
    lemma_assoc(h, f, c + o + d);
}

proof fn lemma_lists_inside(h: Seq<char>, f: Seq<char>, c: Seq<char>, o: Seq<char>, d: Seq<char>)
    ensures
        h + (f + c + o + d) == (h + f) + c + (o + d),
        h + (f + c + o + d) == (h + f + c) + o + d,
{
    lemma_assoc(h, f + c + o, d);
    lemma_assoc(h, f + c, o);
    lemma_assoc(h, f, c);
    lemma_assoc((h + f) + c, o, d);
}

proof fn lemma_marked_pairs_append(
    mark: Seq<char>,
    a: Seq<(Seq<char>, Seq<char>)>,
    b: Seq<(Seq<char>, Seq<char>)>,
)
    ensures
        marked_pairs(mark, a + b) == marked_pairs(mark, a) + marked_pairs(mark, b),
    decreases b.len(),
{
    if b.len() == 0 {
        assert(a + b =~= a);
        assert(marked_pairs(mark, a) + Seq::<char>::empty() =~= marked_pairs(mark, a));
    } else {
        assert((a + b).drop_last() =~= a + b.drop_last());
        lemma_marked_pairs_append(mark, a, b.drop_last());
        let e = b.last();
        let x = marked_pairs(mark, a);
        let y = marked_pairs(mark, b.drop_last());
        lemma_five(x, y, mark, e.0, "="@ + e.1);
        lemma_assoc(x + y + mark + e.0, "="@, e.1);
        lemma_assoc(y + mark + e.0, "="@, e.1);
    }
}

/// The text for options of which one has the value `a`.
proof fn lemma_option_frame(
    mark: Seq<char>,
    before: Seq<(Seq<char>, Seq<char>)>,
    key: Seq<char>,
    a: Seq<char>,
    after: Seq<(Seq<char>, Seq<char>)>,
)
    ensures
        marked_pairs(mark, before.push((key, a)) + after) == (marked_pairs(mark, before) + mark + key
            + "="@) + a + marked_pairs(mark, after),
{
    lemma_marked_pairs_append(mark, before.push((key, a)), after);
    assert(before.push((key, a)).drop_last() =~= before);
}

/// A package with other options.
pub open spec fn with_options(n: NodeView, o: Seq<(Seq<char>, Seq<char>)>) -> NodeView {
    NodeView { cmake_options: o, ..n }
}

/// Builds that differ in the value of one option of the package alone are told apart.
pub proof fn options_separate_builds(
    n: NodeView,
    before: Seq<(Seq<char>, Seq<char>)>,
    key: Seq<char>,
    a: Seq<char>,
    b: Seq<char>,
    after: Seq<(Seq<char>, Seq<char>)>,
    source_id: Seq<char>,
    target: TripleView,
    host: TripleView,
    dep_ids: Seq<Seq<char>>,
)
    requires
        a != b,
    ensures
        encode_utf8(
            build_text(
                with_options(n, before.push((key, a)) + after),
                source_id,
                target,
                host,
                dep_ids,
            ),
        ) != encode_utf8(
            build_text(
                with_options(n, before.push((key, b)) + after),
                source_id,
                target,
                host,
                dep_ids,
            ),
        ),
{
    let h = before_lists(n, source_id, target, host);
    let f = marked_all(":flag:"@, n.config.flags);
    let c = marked_pairs(":cmake_opt:"@, n.config.cmake_options);
    let d = marked_all(":dep_id:"@, dep_ids);
    let x = with_options(n, before.push((key, a)) + after);
    let y = with_options(n, before.push((key, b)) + after);
    let mark = ":node_opt:"@;
    assert(before_lists(x, source_id, target, host) == h);
    assert(before_lists(y, source_id, target, host) == h);
    lemma_option_frame(mark, before, key, a, after);
    lemma_option_frame(mark, before, key, b, after);
    let p = marked_pairs(mark, before) + mark + key + "="@;
    let r = marked_pairs(mark, after);
    lemma_lists_inside(h, f, c, p + a + r, d);
    lemma_lists_inside(h, f, c, p + b + r, d);
    lemma_inner(h + f + c, p, a, r, d);
    lemma_inner(h + f + c, p, b, r, d);
    lemma_apart(
        h + f + c + p,
        a,
        b,
        r + d,
        build_text(x, source_id, target, host, dep_ids),
        build_text(y, source_id, target, host, dep_ids),
    );
}

/// Builds that differ in the value of one option of the rules alone are told apart.
pub proof fn rule_options_separate_builds(
    n: NodeView,
    before: Seq<(Seq<char>, Seq<char>)>,
    key: Seq<char>,
    a: Seq<char>,
    b: Seq<char>,
    after: Seq<(Seq<char>, Seq<char>)>,
    source_id: Seq<char>,
    target: TripleView,
    host: TripleView,
    dep_ids: Seq<Seq<char>>,
)
    requires
        a != b,
    ensures
        encode_utf8(
            build_text(
                with_config(
                    n,
                    ConfigView { cmake_options: before.push((key, a)) + after, ..n.config },
                ),
                source_id,
                target,
                host,
                dep_ids,
            ),
        ) != encode_utf8(
            build_text(
                with_config(
                    n,
                    ConfigView { cmake_options: before.push((key, b)) + after, ..n.config },
                ),
                source_id,
                target,
                host,
                dep_ids,
            ),
        ),
{
    let h = before_lists(n, source_id, target, host);
    let f = marked_all(":flag:"@, n.config.flags);
    let o = marked_pairs(":node_opt:"@, n.cmake_options);
    let d = marked_all(":dep_id:"@, dep_ids);
    let x = with_config(
        n,
        ConfigView { cmake_options: before.push((key, a)) + after, ..n.config },
    );
    let y = with_config(
        n,
        ConfigView { cmake_options: before.push((key, b)) + after, ..n.config },
    );
    let mark = ":cmake_opt:"@;
    assert(before_lists(x, source_id, target, host) == h);
    assert(before_lists(y, source_id, target, host) == h);
    lemma_option_frame(mark, before, key, a, after);
    lemma_option_frame(mark, before, key, b, after);
    let p = marked_pairs(mark, before) + mark + key + "="@;
    let r = marked_pairs(mark, after);
    lemma_lists_inside(h, f, p + a + r, o, d);
    lemma_lists_inside(h, f, p + b + r, o, d);
    lemma_inner(h + f, p, a, r, o + d);
    lemma_inner(h + f, p, b, r, o + d);
    lemma_apart(
        h + f + p,
        a,
        b,
        r + (o + d),
        build_text(x, source_id, target, host, dep_ids),
        build_text(y, source_id, target, host, dep_ids),
    );
}

// ---------------------------------------------------------------------------
// Sources
// ---------------------------------------------------------------------------

proof fn lemma_bytes_apart(
    p: Seq<u8>,
    a: Seq<char>,
    b: Seq<char>,
    r: Seq<u8>,
    x: Seq<u8>,
    y: Seq<u8>,
)
    requires
        a != b,
        x == p + encode_utf8(a) + r,
        y == p + encode_utf8(b) + r,
    ensures
        x != y,
{
    if x == y {
        lemma_middle(p, encode_utf8(a), encode_utf8(b), r);
        lemma_bytes_differ(a, b);
    }
}

/// Sources that differ in the version alone are told apart.
pub proof fn version_separates_sources(
    n: NodeView,
    a: Seq<char>,
    b: Seq<char>,
    tree: Option<Seq<(Seq<char>, EntryView)>>,
    patches: Seq<Option<Seq<u8>>>,
)
    requires
        a != b,
    ensures
        source_bytes(NodeView { version: Some(a), ..n }, tree, patches) != source_bytes(
            NodeView { version: Some(b), ..n },
            tree,
            patches,
        ),
{
    let x = NodeView { version: Some(a), ..n };
    let y = NodeView { version: Some(b), ..n };
    let p = encode_utf8(n.name) + encode_utf8(":v:"@);
    let r = marked(":git:"@, n.git) + revision_bytes(n) + resolved_bytes(n) + local_bytes(
        n.path,
        tree,
    ) + patches_bytes(n.patches, patches);
    assert(revision_bytes(x) == revision_bytes(n) && revision_bytes(y) == revision_bytes(n));
    assert(resolved_bytes(x) == resolved_bytes(n) && resolved_bytes(y) == resolved_bytes(n));
    assert(source_bytes(x, tree, patches) =~= p + encode_utf8(a) + r);
    assert(source_bytes(y, tree, patches) =~= p + encode_utf8(b) + r);
    lemma_bytes_apart(
        p,
        a,
        b,
        r,
        source_bytes(x, tree, patches),
        source_bytes(y, tree, patches),
    );
}

/// Sources that differ in the name of the package alone are told apart.
pub proof fn name_separates_sources(
    n: NodeView,
    a: Seq<char>,
    b: Seq<char>,
    tree: Option<Seq<(Seq<char>, EntryView)>>,
    patches: Seq<Option<Seq<u8>>>,
)
    requires
        a != b,
    ensures
        source_bytes(NodeView { name: a, ..n }, tree, patches) != source_bytes(
            NodeView { name: b, ..n },
            tree,
            patches,
        ),
{
    let x = NodeView { name: a, ..n };
    let y = NodeView { name: b, ..n };
    let p = Seq::<u8>::empty();
    let r = marked(":v:"@, n.version) + marked(":git:"@, n.git) + revision_bytes(n)
        + resolved_bytes(n) + local_bytes(n.path, tree) + patches_bytes(n.patches, patches);
    assert(revision_bytes(x) == revision_bytes(n) && revision_bytes(y) == revision_bytes(n));
    assert(resolved_bytes(x) == resolved_bytes(n) && resolved_bytes(y) == resolved_bytes(n));
    assert(source_bytes(x, tree, patches) =~= p + encode_utf8(a) + r);
    assert(source_bytes(y, tree, patches) =~= p + encode_utf8(b) + r);
    lemma_bytes_apart(
        p,
        a,
        b,
        r,
        source_bytes(x, tree, patches),
        source_bytes(y, tree, patches),
    );
}

/// Sources that differ in the revision alone are told apart: in the commit, else in the tag, else
/// in the branch.
pub proof fn revision_separates_sources(
    n: NodeView,
    a: Seq<char>,
    b: Seq<char>,
    tree: Option<Seq<(Seq<char>, EntryView)>>,
    patches: Seq<Option<Seq<u8>>>,
)
    requires
        a != b,
    ensures
        source_bytes(NodeView { commit: Some(a), ..n }, tree, patches) != source_bytes(
            NodeView { commit: Some(b), ..n },
            tree,
            patches,
        ),
        source_bytes(NodeView { commit: None, tag: Some(a), ..n }, tree, patches) != source_bytes(
            NodeView { commit: None, tag: Some(b), ..n },
            tree,
            patches,
        ),
        source_bytes(NodeView { commit: None, tag: None, branch: Some(a), ..n }, tree, patches)
            != source_bytes(
            NodeView { commit: None, tag: None, branch: Some(b), ..n },
            tree,
            patches,
        ),
{
    lemma_revision(
        NodeView { commit: Some(a), ..n },
        NodeView { commit: Some(b), ..n },
        ":commit:"@,
        a,
        b,
        tree,
        patches,
    );
    lemma_revision(
        NodeView { commit: None, tag: Some(a), ..n },
        NodeView { commit: None, tag: Some(b), ..n },
        ":tag:"@,
        a,
        b,
        tree,
        patches,
    );
    lemma_revision(
        NodeView { commit: None, tag: None, branch: Some(a), ..n },
        NodeView { commit: None, tag: None, branch: Some(b), ..n },
        ":branch:"@,
        a,
        b,
        tree,
        patches,
    );
}

proof fn lemma_revision(
    x: NodeView,
    y: NodeView,
    mark: Seq<char>,
    a: Seq<char>,
    b: Seq<char>,
    tree: Option<Seq<(Seq<char>, EntryView)>>,
    patches: Seq<Option<Seq<u8>>>,
)
    requires
        a != b,
        x.name == y.name,
        x.version == y.version,
        x.git == y.git,
        x.path == y.path,
        x.patches == y.patches,
        resolved_bytes(x) == resolved_bytes(y),
        revision_bytes(x) == marked(mark, Some(a)),
        revision_bytes(y) == marked(mark, Some(b)),
    ensures
        source_bytes(x, tree, patches) != source_bytes(y, tree, patches),
{
    let p = encode_utf8(x.name) + marked(":v:"@, x.version) + marked(":git:"@, x.git) + encode_utf8(
        mark,
    );
    let r = resolved_bytes(x) + local_bytes(x.path, tree) + patches_bytes(x.patches, patches);
    assert(source_bytes(x, tree, patches) =~= p + encode_utf8(a) + r);
    assert(source_bytes(y, tree, patches) =~= p + encode_utf8(b) + r);
    lemma_bytes_apart(
        p,
        a,
        b,
        r,
        source_bytes(x, tree, patches),
        source_bytes(y, tree, patches),
    );
}

/// Local sources are told apart by the identities of their trees.
pub proof fn tree_separates_local_sources(
    n: NodeView,
    a: Seq<(Seq<char>, EntryView)>,
    b: Seq<(Seq<char>, EntryView)>,
    patches: Seq<Option<Seq<u8>>>,
)
    requires
        n.path is Some,
        crate::hash::id_of(crate::hash::tree_bytes(a)) != crate::hash::id_of(
            crate::hash::tree_bytes(b),
        ),
    ensures
        source_bytes(n, Some(a), patches) != source_bytes(n, Some(b), patches),
{
    let ia = crate::hash::id_of(crate::hash::tree_bytes(a));
    let ib = crate::hash::id_of(crate::hash::tree_bytes(b));
    let p = encode_utf8(n.name) + marked(":v:"@, n.version) + marked(":git:"@, n.git)
        + revision_bytes(n) + resolved_bytes(n) + encode_utf8(":path:"@);
    let r = patches_bytes(n.patches, patches);
    assert(source_bytes(n, Some(a), patches) =~= p + encode_utf8(ia) + r);
    assert(source_bytes(n, Some(b), patches) =~= p + encode_utf8(ib) + r);
    lemma_bytes_apart(
        p,
        ia,
        ib,
        r,
        source_bytes(n, Some(a), patches),
        source_bytes(n, Some(b), patches),
    );
}

/// What is hashed for the file name of a patch.
spec fn name_bytes(path: Seq<char>) -> Seq<u8> {
    encode_utf8(
        match file_name_of(path) {
            Some(f) => f,
            None => ""@,
        },
    )
}

/// The bytes around the name of one patch.
proof fn lemma_name_frame(
    paths: Seq<Seq<char>>,
    contents: Seq<Option<Seq<u8>>>,
    i: int,
) -> (frame: (Seq<u8>, Seq<u8>))
    requires
        0 <= i < paths.len() == contents.len(),
    ensures
        forall|path: Seq<char>|
            patches_bytes(#[trigger] paths.update(i, path), contents) == frame.0 + name_bytes(path)
                + frame.1,
    decreases paths.len(),
{
    let init = paths.drop_last();
    if i == paths.len() - 1 {
        let mark = encode_utf8(":patch:"@);
        let content = match contents.last() {
            Some(c) => encode_utf8(":content:"@) + c,
            None => Seq::empty(),
        };
        let before = patches_bytes(init, contents.drop_last());
        let p = before + mark;
        assert forall|path: Seq<char>|
            patches_bytes(#[trigger] paths.update(i, path), contents) == p + name_bytes(path)
                + content by {
            assert(paths.update(i, path).drop_last() =~= init);
            assert(before + (mark + name_bytes(path) + content) =~= p + name_bytes(path) + content);
        }
        (p, content)
    } else {
        let (p, q) = lemma_name_frame(init, contents.drop_last(), i);
        let tail = patch_bytes(paths.last(), contents.last());
        let r = q + tail;
        assert forall|path: Seq<char>|
            patches_bytes(#[trigger] paths.update(i, path), contents) == p + name_bytes(path)
                + r by {
            assert(paths.update(i, path).drop_last() =~= init.update(i, path));
            assert(p + name_bytes(path) + q + tail =~= p + name_bytes(path) + r);
        }
        (p, r)
    }
}

/// Sources that differ in the file name of one patch alone are told apart.
pub proof fn patch_name_separates_sources(
    n: NodeView,
    tree: Option<Seq<(Seq<char>, EntryView)>>,
    patches: Seq<Option<Seq<u8>>>,
    i: int,
    a: Seq<char>,
    b: Seq<char>,
)
    requires
        0 <= i < n.patches.len() == patches.len(),
        file_name_of(a) is Some,
        file_name_of(b) is Some,
        file_name_of(a) != file_name_of(b),
    ensures
        source_bytes(NodeView { patches: n.patches.update(i, a), ..n }, tree, patches)
            != source_bytes(NodeView { patches: n.patches.update(i, b), ..n }, tree, patches),
{
    let x = NodeView { patches: n.patches.update(i, a), ..n };
    let y = NodeView { patches: n.patches.update(i, b), ..n };
    let base = encode_utf8(n.name) + marked(":v:"@, n.version) + marked(":git:"@, n.git)
        + revision_bytes(n) + resolved_bytes(n) + local_bytes(n.path, tree);
    let (p, r) = lemma_name_frame(n.patches, patches, i);
    let (u, v) = (name_bytes(a), name_bytes(b));
    assert(source_bytes(x, tree, patches) =~= (base + p) + u + r);
    assert(source_bytes(y, tree, patches) =~= (base + p) + v + r);
    if u == v {
        lemma_bytes_differ(file_name_of(a)->0, file_name_of(b)->0);
    }
    if (base + p) + u + r == (base + p) + v + r {
        lemma_middle(base + p, u, v, r);
    }
}

} // verus!
