//! The identities of sources and builds: what they are computed from, and their digests.
use crate::compiler::{compiler_text, CompilerView};
use crate::node::{DependencyNode, NodeKind, NodeView};
use crate::path::{
    distinct_paths, entries_view, file_name, file_name_of, filed, path_sorted, sort_by_path,
    sorting_forgets_the_order_of_arrival,
};
use crate::strategy::strs;
use crate::table::Table;
use crate::target::{
    build_type_text, runtime_text, runtime_texts_differ, stdlib_text, Environment, TargetTriple,
    TripleView, VCRuntime,
};
use crate::text::{
    cat2, chars_of, list_has, opt_view, replace_char, text_of, views, with_char_replaced,
};
use vstd::prelude::*;
use vstd::string::*;
use vstd::utf8::{encode_utf8, encode_utf8_decode_utf8};

verus! {

broadcast use vstd::string::group_string_axioms;

// ---------------------------------------------------------------------------
// Digests
// ---------------------------------------------------------------------------

/// The BLAKE3 digest of `data` in hexadecimal.
pub uninterp spec fn blake3_hex(data: Seq<u8>) -> Seq<char>;

/// `0` to `9` and `a` to `f`.
pub open spec fn is_lower_hex(s: Seq<char>) -> bool {
    forall|i: int| 0 <= i < s.len() ==> '0' <= #[trigger] s[i] <= '9' || 'a' <= s[i] <= 'f'
}

/// `blake3::hash` and `Hash::to_hex`: 64 small hexadecimal digits, which depend on the data
/// alone.
#[verifier::external_body]
fn digest_hex(data: &[u8]) -> (r: String)
    ensures
        r@ == blake3_hex(data@),
        r@.len() == 64,
        is_lower_hex(r@),
{
    blake3::hash(data).to_hex().to_string()
}

/// How many digits of a digest make an identity.
pub const ID_LENGTH: usize = 16;

/// The identity that a digest gives.
pub open spec fn id_of_digest(hex: Seq<char>) -> Seq<char> {
    hex.take(ID_LENGTH as int)
}

/// The identity of `data`.
pub open spec fn id_of(data: Seq<u8>) -> Seq<char> {
    id_of_digest(blake3_hex(data))
}

/// The first digits of a digest.
pub fn shorten_digest(hex: &str) -> (r: String)
    requires
        hex@.len() >= ID_LENGTH,
    ensures
        r@ == id_of_digest(hex@),
{
    let cs = chars_of(hex);
    assert(cs@.subrange(0, ID_LENGTH as int) =~= hex@.take(ID_LENGTH as int));
    text_of(&cs, 0, ID_LENGTH)
}

/// What stands between the same beginning and the same end can be told apart.
pub proof fn lemma_middle<A>(p: Seq<A>, a: Seq<A>, b: Seq<A>, r: Seq<A>)
    requires
        p + a + r == p + b + r,
    ensures
        a == b,
{
    let x = p + a + r;
    let y = p + b + r;
    assert(x.len() == y.len());
    assert(a.len() == b.len());
    assert forall|i: int| 0 <= i < a.len() implies a[i] == b[i] by {
        assert(x[p.len() + i] == a[i]);
        assert(y[p.len() + i] == b[i]);
    }
    assert(a =~= b);
}

/// Different texts have different bytes.
pub proof fn lemma_bytes_differ(a: Seq<char>, b: Seq<char>)
    requires
        encode_utf8(a) == encode_utf8(b),
    ensures
        a == b,
{
    encode_utf8_decode_utf8(a);
    encode_utf8_decode_utf8(b);
}

// ---------------------------------------------------------------------------
// Source trees
// ---------------------------------------------------------------------------

/// What stands at a path of a source tree: a file with its content, or a link with what it
/// points at, where that could be read.
#[derive(Debug)]
pub enum EntryKind {
    File(Vec<u8>),
    Link(Option<String>),
}

/// An entry as sequences.
pub enum EntryView {
    File(Seq<u8>),
    Link(Option<Seq<char>>),
}

impl View for EntryKind {
    type V = EntryView;

    open spec fn view(&self) -> EntryView {
        match self {
            EntryKind::File(content) => EntryView::File(content@),
            EntryKind::Link(target) => EntryView::Link(opt_view(*target)),
        }
    }
}

/// The entries of a tree as views.
pub open spec fn tree_view(v: Seq<(String, EntryKind)>) -> Seq<(Seq<char>, EntryView)> {
    v.map_values(|e: (String, EntryKind)| (e.0@, e.1@))
}

/// What is hashed of one entry: its kind, its path with `/` for `\\`, and what it holds.
pub open spec fn entry_bytes(e: (Seq<char>, EntryView)) -> Seq<u8> {
    let shown = encode_utf8(with_char_replaced(e.0, '\\', '/'));
    match e.1 {
        EntryView::File(content) => encode_utf8(":file:"@) + shown + encode_utf8("\0"@) + content,
        EntryView::Link(Some(target)) => encode_utf8(":link:"@) + shown + encode_utf8("\0"@)
            + encode_utf8(target),
        EntryView::Link(None) => encode_utf8(":link:"@) + shown + encode_utf8("\0"@),
    }
}

/// What is hashed of entries, one behind the other.
pub open spec fn entries_bytes(s: Seq<(Seq<char>, EntryView)>) -> Seq<u8>
    decreases s.len(),
{
    if s.len() == 0 {
        Seq::empty()
    } else {
        entries_bytes(s.drop_last()) + entry_bytes(s.last())
    }
}

/// What is hashed of a tree: its entries in the order of their paths.
pub open spec fn tree_bytes(tree: Seq<(Seq<char>, EntryView)>) -> Seq<u8> {
    entries_bytes(path_sorted(tree))
}

/// The identity of a tree does not depend on the order in which its entries were found.
pub proof fn tree_identity_ignores_order(
    x: Seq<(Seq<char>, EntryView)>,
    y: Seq<(Seq<char>, EntryView)>,
)
    requires
        distinct_paths(x),
        x.to_multiset() == y.to_multiset(),
    ensures
        id_of(tree_bytes(x)) == id_of(tree_bytes(y)),
{
    sorting_forgets_the_order_of_arrival(x, y);
}

proof fn lemma_entries_bytes_append(a: Seq<(Seq<char>, EntryView)>, b: Seq<(Seq<char>, EntryView)>)
    ensures
        entries_bytes(a + b) == entries_bytes(a) + entries_bytes(b),
    decreases b.len(),
{
    if b.len() == 0 {
        assert(a + b =~= a);
        assert(entries_bytes(a) + Seq::<u8>::empty() =~= entries_bytes(a));
    } else {
        assert((a + b).drop_last() =~= a + b.drop_last());
        lemma_entries_bytes_append(a, b.drop_last());
        assert(entries_bytes(a) + entries_bytes(b.drop_last()) + entry_bytes(b.last())
            =~= entries_bytes(a) + entries_bytes(b));
    }
}

/// Another content of a file changes what is hashed of the entries around it.
pub proof fn file_content_is_hashed(
    before: Seq<(Seq<char>, EntryView)>,
    path: Seq<char>,
    a: Seq<u8>,
    b: Seq<u8>,
    after: Seq<(Seq<char>, EntryView)>,
)
    requires
        a != b,
    ensures
        entries_bytes(before.push((path, EntryView::File(a))) + after) != entries_bytes(
            before.push((path, EntryView::File(b))) + after,
        ),
{
    let x = before.push((path, EntryView::File(a)));
    let y = before.push((path, EntryView::File(b)));
    lemma_entries_bytes_append(x, after);
    lemma_entries_bytes_append(y, after);
    assert(x.drop_last() =~= before);
    assert(y.drop_last() =~= before);
    let head = encode_utf8(":file:"@) + encode_utf8(with_char_replaced(path, '\\', '/'))
        + encode_utf8("\0"@);
    let p = entries_bytes(before) + head;
    let r = entries_bytes(after);
    assert(entries_bytes(x) =~= p + a);
    assert(entries_bytes(y) =~= p + b);
    if p + a + r == p + b + r {
        lemma_middle(p, a, b, r);
    }
}

/// Whether an entry of a source tree counts; what is called `.git` does not, nor anything in it.
pub fn is_hashed(file_name: &str) -> (r: bool)
    ensures
        r == (file_name@ != ".git"@),
{
    !crate::text::same(file_name, ".git")
}

fn put_text(out: &mut Vec<u8>, s: &str)
    ensures
        final(out)@ == old(out)@ + encode_utf8(s@),
{
    let bytes = s.as_bytes();
    put_bytes(out, bytes);
}

fn put_bytes(out: &mut Vec<u8>, bytes: &[u8])
    ensures
        final(out)@ == old(out)@ + bytes@,
{
    let ghost start = out@;
    let mut i: usize = 0;
    assert(start + bytes@.take(0) =~= start);
    while i < bytes.len()
        invariant
            i <= bytes@.len(),
            out@ == start + bytes@.take(i as int),
        decreases bytes@.len() - i,
    {
        out.push(bytes[i]);
        assert(out@ =~= start + bytes@.take(i + 1));
        i = i + 1;
    }
    assert(bytes@.take(i as int) =~= bytes@);
}

/// Sorting does not look at what is filed under the paths.
proof fn lemma_sorted_values<T>(s: Seq<(Seq<char>, T)>, f: spec_fn(T) -> EntryView)
    ensures
        path_sorted(s.map_values(|e: (Seq<char>, T)| (e.0, f(e.1)))) == path_sorted(s).map_values(
            |e: (Seq<char>, T)| (e.0, f(e.1)),
        ),
    decreases s.len(),
{
    let g = |e: (Seq<char>, T)| (e.0, f(e.1));
    if s.len() == 0 {
        assert(s.map_values(g) =~= Seq::<(Seq<char>, EntryView)>::empty());
        assert(path_sorted(s).map_values(g) =~= Seq::<(Seq<char>, EntryView)>::empty());
    } else {
        lemma_sorted_values(s.drop_last(), f);
        assert(s.map_values(g).drop_last() =~= s.drop_last().map_values(g));
        lemma_filed_values(path_sorted(s.drop_last()), s.last(), f);
    }
}

proof fn lemma_filed_values<T>(
    s: Seq<(Seq<char>, T)>,
    e: (Seq<char>, T),
    f: spec_fn(T) -> EntryView,
)
    ensures
        filed(s.map_values(|e: (Seq<char>, T)| (e.0, f(e.1))), (e.0, f(e.1))) == filed(
            s,
            e,
        ).map_values(|e: (Seq<char>, T)| (e.0, f(e.1))),
    decreases s.len(),
{
    let g = |e: (Seq<char>, T)| (e.0, f(e.1));
    let m = s.map_values(g);
    if s.len() > 0 && crate::path::path_before(e.0, s.last().0) {
        lemma_filed_values(s.drop_last(), e, f);
        assert(m.drop_last() =~= s.drop_last().map_values(g));
        assert(filed(m, g(e)) =~= filed(s, e).map_values(g));
    } else {
        assert(filed(m, g(e)) =~= filed(s, e).map_values(g));
    }
}

fn put_entry(out: &mut Vec<u8>, path: &str, kind: &EntryKind)
    ensures
        final(out)@ == old(out)@ + entry_bytes((path@, kind@)),
{
    let ghost start = out@;
    let shown = replace_char(path, '\\', '/');
    match kind {
        EntryKind::File(content) => {
            put_text(out, ":file:");
            put_text(out, shown.as_str());
            put_text(out, "\0");
            put_bytes(out, content);
        },
        EntryKind::Link(target) => {
            put_text(out, ":link:");
            put_text(out, shown.as_str());
            put_text(out, "\0");
            if let Some(t) = target {
                put_text(out, t.as_str());
            }
        },
    }
    assert(out@ =~= start + entry_bytes((path@, kind@)));
}

/// What is hashed of a tree.
pub fn tree_preimage(entries: &[(String, EntryKind)]) -> (r: Vec<u8>)
    ensures
        r@ == tree_bytes(tree_view(entries@)),
{
    let mut found: Vec<(String, &EntryKind)> = Vec::new();
    let mut i: usize = 0;
    while i < entries.len()
        invariant
            i <= entries@.len(),
            found@.len() == i,
            forall|k: int|
                0 <= k < i ==> (#[trigger] found@[k]).0@ == entries@[k].0@ && *found@[k].1
                    == entries@[k].1,
        decreases entries@.len() - i,
    {
        let path = entries[i].0.clone();
        found.push((path, &entries[i].1));
        i = i + 1;
    }
    let ghost f = |k: &EntryKind| k@;
    let ghost g = |e: (Seq<char>, &EntryKind)| (e.0, f(e.1));
    assert(entries_view(found@).map_values(g) =~= tree_view(entries@));
    let ghost before = entries_view(found@);
    let sorted = sort_by_path(found);
    proof {
        lemma_sorted_values(before, f);
    }
    let ghost all = path_sorted(tree_view(entries@));
    assert(entries_view(sorted@).map_values(g) =~= all);
    let mut out: Vec<u8> = Vec::new();
    let mut j: usize = 0;
    assert(all.take(0) =~= Seq::<(Seq<char>, EntryView)>::empty());
    while j < sorted.len()
        invariant
            j <= sorted@.len(),
            sorted@.len() == all.len(),
            forall|k: int|
                0 <= k < sorted@.len() ==> all[k] == ((#[trigger] sorted@[k]).0@, sorted@[k].1@),
            out@ == entries_bytes(all.take(j as int)),
        decreases sorted@.len() - j,
    {
        assert(all.take(j + 1).drop_last() =~= all.take(j as int));
        assert(all.take(j + 1).last() == (sorted@[j as int].0@, sorted@[j as int].1@));
        put_entry(&mut out, sorted[j].0.as_str(), sorted[j].1);
        j = j + 1;
    }
    assert(all.take(j as int) =~= all);
    out
}

// ---------------------------------------------------------------------------
// Sources
// ---------------------------------------------------------------------------

/// What was read of a package's source from disk: the tree at its path, where that could be
/// walked, and the content of its patches, where they could be read.
#[derive(Debug)]
pub struct SourceFiles {
    pub tree: Option<Vec<(String, EntryKind)>>,
    pub patches: Vec<Option<Vec<u8>>>,
}

impl SourceFiles {
    /// Nothing could be read.
    pub fn none() -> (r: Self)
        ensures
            r.tree is None,
            r.patches@.len() == 0,
    {
        SourceFiles { tree: None, patches: Vec::new() }
    }

    /// The tree as a view.
    pub open spec fn tree_seen(&self) -> Option<Seq<(Seq<char>, EntryView)>> {
        match self.tree {
            Some(t) => Some(tree_view(t@)),
            None => None,
        }
    }

    /// The content of the patch at `i`, where it was read.
    pub open spec fn patch_seen(&self, i: int) -> Option<Seq<u8>> {
        if 0 <= i < self.patches@.len() {
            match self.patches@[i] {
                Some(c) => Some(c@),
                None => None,
            }
        } else {
            None
        }
    }

    /// The contents of the first `n` patches.
    pub open spec fn patches_seen(&self, n: nat) -> Seq<Option<Seq<u8>>> {
        Seq::new(n, |i: int| self.patch_seen(i))
    }
}

/// A mark and the text behind it, where there is one.
pub open spec fn marked(mark: Seq<char>, text: Option<Seq<char>>) -> Seq<u8> {
    match text {
        Some(t) => encode_utf8(mark) + encode_utf8(t),
        None => Seq::empty(),
    }
}

/// What is hashed of the revision: the commit, else the tag, else the branch.
pub open spec fn revision_bytes(n: NodeView) -> Seq<u8> {
    if n.commit is Some {
        marked(":commit:"@, n.commit)
    } else if n.tag is Some {
        marked(":tag:"@, n.tag)
    } else {
        marked(":branch:"@, n.branch)
    }
}

/// What is hashed of the commit that a moving revision stood for.
pub open spec fn resolved_bytes(n: NodeView) -> Seq<u8> {
    if n.commit is None && n.tag is None {
        marked(":resolved:"@, n.resolved_commit)
    } else {
        Seq::empty()
    }
}

/// What is hashed of a local source: the identity of its tree, or its path where the tree could
/// not be read.
pub open spec fn local_bytes(
    path: Option<Seq<char>>,
    tree: Option<Seq<(Seq<char>, EntryView)>>,
) -> Seq<u8> {
    match path {
        Some(p) => encode_utf8(":path:"@) + match tree {
            Some(t) => encode_utf8(id_of(tree_bytes(t))),
            None => encode_utf8(p),
        },
        None => Seq::empty(),
    }
}

/// What is hashed of one patch: its file name, and its content where it could be read.
pub open spec fn patch_bytes(path: Seq<char>, content: Option<Seq<u8>>) -> Seq<u8> {
    let name = match file_name_of(path) {
        Some(n) => n,
        None => ""@,
    };
    encode_utf8(":patch:"@) + encode_utf8(name) + match content {
        Some(c) => encode_utf8(":content:"@) + c,
        None => Seq::empty(),
    }
}

/// What is hashed of the patches, in their order.
pub open spec fn patches_bytes(paths: Seq<Seq<char>>, contents: Seq<Option<Seq<u8>>>) -> Seq<u8>
    decreases paths.len(),
{
    if paths.len() == 0 {
        Seq::empty()
    } else {
        patches_bytes(paths.drop_last(), contents.drop_last()) + patch_bytes(
            paths.last(),
            contents.last(),
        )
    }
}

/// Everything that the identity of a source is computed from.
pub open spec fn source_bytes(
    n: NodeView,
    tree: Option<Seq<(Seq<char>, EntryView)>>,
    patches: Seq<Option<Seq<u8>>>,
) -> Seq<u8> {
    encode_utf8(n.name) + marked(":v:"@, n.version) + marked(":git:"@, n.git) + revision_bytes(n)
        + resolved_bytes(n) + local_bytes(n.path, tree) + patches_bytes(n.patches, patches)
}

fn put_marked(out: &mut Vec<u8>, mark: &str, text: &Option<String>)
    ensures
        final(out)@ == old(out)@ + marked(mark@, opt_view(*text)),
{
    let ghost start = out@;
    if let Some(t) = text {
        put_text(out, mark);
        put_text(out, t.as_str());
    }
    assert(out@ =~= start + marked(mark@, opt_view(*text)));
}

fn put_patch(out: &mut Vec<u8>, path: &str, content: Option<&Vec<u8>>)
    ensures
        final(out)@ == old(out)@ + patch_bytes(
            path@,
            match content {
                Some(c) => Some(c@),
                None => None,
            },
        ),
{
    let ghost start = out@;
    put_text(out, ":patch:");
    match file_name(path) {
        Some(n) => put_text(out, n.as_str()),
        None => put_text(out, ""),
    }
    if let Some(c) = content {
        put_text(out, ":content:");
        put_bytes(out, c);
    }
    assert(out@ =~= start + patch_bytes(
        path@,
        match content {
            Some(c) => Some(c@),
            None => None,
        },
    ));
}

fn put_patches(out: &mut Vec<u8>, paths: &Vec<String>, files: &SourceFiles)
    ensures
        final(out)@ == old(out)@ + patches_bytes(
            views(paths@),
            files.patches_seen(paths@.len()),
        ),
{
    let ghost start = out@;
    let ghost all = views(paths@);
    let ghost seen = files.patches_seen(paths@.len());
    let mut i: usize = 0;
    assert(start + patches_bytes(all.take(0), seen.take(0)) =~= start);
    while i < paths.len()
        invariant
            i <= paths@.len(),
            all == views(paths@),
            seen == files.patches_seen(paths@.len()),
            out@ == start + patches_bytes(all.take(i as int), seen.take(i as int)),
        decreases paths@.len() - i,
    {
        assert(all.take(i + 1).drop_last() =~= all.take(i as int));
        assert(seen.take(i + 1).drop_last() =~= seen.take(i as int));
        assert(all.take(i + 1).last() == paths@[i as int]@);
        assert(seen.take(i + 1).last() == files.patch_seen(i as int));
        let ghost before = out@;
        let content = if i < files.patches.len() {
            files.patches[i].as_ref()
        } else {
            None
        };
        put_patch(out, paths[i].as_str(), content);
        assert(out@ =~= start + patches_bytes(all.take(i + 1), seen.take(i + 1)));
        i = i + 1;
    }
    assert(all.take(i as int) =~= all);
    assert(seen.take(i as int) =~= seen);
}

/// Everything that the identity of a source is computed from.
pub fn source_preimage(node: &DependencyNode, files: &SourceFiles) -> (r: Vec<u8>)
    ensures
        r@ == source_bytes(node@, files.tree_seen(), files.patches_seen(node.patches@.len())),
{
    let mut out: Vec<u8> = Vec::new();
    put_text(&mut out, node.name.as_str());
    assert(out@ =~= encode_utf8(node.name@));
    put_marked(&mut out, ":v:", &node.version);
    put_marked(&mut out, ":git:", &node.git);
    if node.commit.is_some() {
        put_marked(&mut out, ":commit:", &node.commit);
    } else if node.tag.is_some() {
        put_marked(&mut out, ":tag:", &node.tag);
    } else {
        put_marked(&mut out, ":branch:", &node.branch);
    }
    let ghost at_resolved = out@;
    if node.commit.is_none() && node.tag.is_none() {
        put_marked(&mut out, ":resolved:", &node.resolved_commit);
    }
    assert(out@ =~= at_resolved + resolved_bytes(node@));
    let ghost at_path = out@;
    if let Some(path) = &node.path {
        put_text(&mut out, ":path:");
        match &files.tree {
            Some(entries) => {
                let id = HashCalculator::hash_dir_contents(entries);
                put_text(&mut out, id.as_str());
            },
            None => put_text(&mut out, path.as_str()),
        }
    }
    assert(out@ =~= at_path + local_bytes(opt_view(node.path), files.tree_seen()));
    put_patches(&mut out, &node.patches, files);
    out
}

// ---------------------------------------------------------------------------
// Builds
// ---------------------------------------------------------------------------

/// Whether a package asks to leave a setting out of the identity of its builds.
pub open spec fn ignores(n: NodeView, key: Seq<char>) -> bool {
    n.abi_ignores.contains(key)
}

/// The target that a package is built for: tools are built for the host.
pub open spec fn effective_target(n: NodeView, target: TripleView, host: TripleView) -> TripleView {
    match n.kind {
        NodeKind::TargetDependency => target,
        NodeKind::HostTool => host,
    }
}

/// The part for the compiler and its toolchain.
pub open spec fn compiler_part(n: NodeView) -> Seq<char> {
    if ignores(n, "compiler"@) {
        Seq::empty()
    } else {
        (match n.compiler {
            Some(c) => ":compiler:"@ + compiler_text(c),
            None => Seq::empty(),
        }) + (match n.toolchain_fingerprint {
            Some(f) => ":toolchain:"@ + f,
            None => Seq::empty(),
        })
    }
}

/// The part for the MSVC runtime, which only counts for MSVC targets.
pub open spec fn runtime_part(n: NodeView, effective: TripleView) -> Seq<char> {
    if effective.env == Environment::Msvc && !ignores(n, "vc_runtime"@) && !ignores(
        n,
        "cxx_runtime"@,
    ) {
        ":vc_runtime:"@ + runtime_text(n.config.vc_runtime)
    } else {
        Seq::empty()
    }
}

/// The part for the C++ standard and the standard library.
pub open spec fn standard_part(n: NodeView) -> Seq<char> {
    (if ignores(n, "cxx_std"@) {
        Seq::empty()
    } else {
        ":cxx_std:"@ + n.config.cxx_std
    }) + (if ignores(n, "cxx_stdlib"@) {
        Seq::empty()
    } else {
        ":cxx_stdlib:"@ + stdlib_text(n.config.cxx_stdlib)
    })
}

/// `true` or `false`.
pub open spec fn bool_text(b: bool) -> Seq<char> {
    if b {
        "true"@
    } else {
        "false"@
    }
}

/// Whether a package is built as a shared library.
pub open spec fn is_shared(n: NodeView) -> bool {
    match n.shared {
        Some(b) => b,
        None => n.config.shared,
    }
}

/// The part for the kind of build.
pub open spec fn kind_part(n: NodeView) -> Seq<char> {
    ":build_type:"@ + build_type_text(n.config.build_type) + ":shared:"@ + bool_text(is_shared(n))
        + ":header_only:"@ + bool_text(n.header_only) + ":lto:"@ + bool_text(n.config.lto)
}

/// Texts one behind the other, each with a mark in front.
pub open spec fn marked_all(mark: Seq<char>, texts: Seq<Seq<char>>) -> Seq<char>
    decreases texts.len(),
{
    if texts.len() == 0 {
        Seq::empty()
    } else {
        marked_all(mark, texts.drop_last()) + mark + texts.last()
    }
}

/// Options one behind the other, each with a mark in front.
pub open spec fn marked_pairs(mark: Seq<char>, pairs: Seq<(Seq<char>, Seq<char>)>) -> Seq<char>
    decreases pairs.len(),
{
    if pairs.len() == 0 {
        Seq::empty()
    } else {
        marked_pairs(mark, pairs.drop_last()) + mark + pairs.last().0 + "="@ + pairs.last().1
    }
}

/// The part for flags, options and dependencies.
pub open spec fn list_part(n: NodeView, dep_ids: Seq<Seq<char>>) -> Seq<char> {
    marked_all(":flag:"@, n.config.flags) + marked_pairs(":cmake_opt:"@, n.config.cmake_options)
        + marked_pairs(":node_opt:"@, n.cmake_options) + marked_all(":dep_id:"@, dep_ids)
}

/// Everything that the identity of a build is computed from. The mark in front stands for the
/// defaults that builds are made with; it changes when they do.
pub open spec fn build_text(
    n: NodeView,
    source_id: Seq<char>,
    target: TripleView,
    host: TripleView,
    dep_ids: Seq<Seq<char>>,
) -> Seq<char> {
    let effective = effective_target(n, target, host);
    ":build_defaults:v2"@ + ":source_id:"@ + source_id + ":target:"@ + effective.raw
        + compiler_part(n) + runtime_part(n, effective) + standard_part(n) + kind_part(n)
        + list_part(n, dep_ids)
}

fn compiler_text_of(node: &DependencyNode) -> (r: String)
    ensures
        r@ == compiler_part(node@),
{
    let mut out = String::new();
    if !list_has(&node.abi_ignores, "compiler") {
        if let Some(c) = &node.compiler {
            out.append(":compiler:");
            out.append(c.as_str());
        }
        let ghost before = out@;
        if let Some(f) = &node.toolchain_fingerprint {
            out.append(":toolchain:");
            out.append(f.as_str());
        }
    }
    assert(out@ =~= compiler_part(node@));
    out
}

fn runtime_text_of(node: &DependencyNode, effective: &TargetTriple) -> (r: String)
    ensures
        r@ == runtime_part(node@, effective@),
{
    if effective.env == Environment::Msvc && !list_has(&node.abi_ignores, "vc_runtime")
        && !list_has(&node.abi_ignores, "cxx_runtime") {
        cat2(":vc_runtime:", node.config.vc_runtime.as_cmake_value())
    } else {
        String::new()
    }
}

fn standard_text_of(node: &DependencyNode) -> (r: String)
    ensures
        r@ == standard_part(node@),
{
    let mut out = String::new();
    if !list_has(&node.abi_ignores, "cxx_std") {
        out.append(":cxx_std:");
        out.append(node.config.cxx_std.as_str());
    }
    if !list_has(&node.abi_ignores, "cxx_stdlib") {
        out.append(":cxx_stdlib:");
        out.append(node.config.cxx_stdlib.as_str());
    }
    assert(out@ =~= standard_part(node@));
    out
}

fn bool_name(b: bool) -> (r: &'static str)
    ensures
        r@ == bool_text(b),
{
    if b {
        "true"
    } else {
        "false"
    }
}

fn kind_text_of(node: &DependencyNode) -> (r: String)
    ensures
        r@ == kind_part(node@),
{
    let shared = match node.shared {
        Some(b) => b,
        None => node.config.shared,
    };
    let mut out = cat2(":build_type:", node.config.build_type.as_str());
    out.append(":shared:");
    out.append(bool_name(shared));
    out.append(":header_only:");
    out.append(bool_name(node.header_only));
    out.append(":lto:");
    out.append(bool_name(node.config.lto));
    out
}

fn marked_list(mark: &str, texts: &Vec<String>) -> (r: String)
    ensures
        r@ == marked_all(mark@, views(texts@)),
{
    let ghost all = views(texts@);
    let mut out = String::new();
    let mut i: usize = 0;
    assert(out@ =~= marked_all(mark@, all.take(0)));
    while i < texts.len()
        invariant
            i <= texts@.len(),
            all == views(texts@),
            out@ == marked_all(mark@, all.take(i as int)),
        decreases texts@.len() - i,
    {
        assert(all.take(i + 1).drop_last() =~= all.take(i as int));
        assert(all.take(i + 1).last() == texts@[i as int]@);
        out.append(mark);
        out.append(texts[i].as_str());
        i = i + 1;
    }
    assert(all.take(i as int) =~= all);
    out
}

fn marked_strs(mark: &str, texts: &[&str]) -> (r: String)
    ensures
        r@ == marked_all(mark@, strs(texts@)),
{
    let ghost all = strs(texts@);
    let mut out = String::new();
    let mut i: usize = 0;
    assert(out@ =~= marked_all(mark@, all.take(0)));
    while i < texts.len()
        invariant
            i <= texts@.len(),
            all == strs(texts@),
            out@ == marked_all(mark@, all.take(i as int)),
        decreases texts@.len() - i,
    {
        assert(all.take(i + 1).drop_last() =~= all.take(i as int));
        assert(all.take(i + 1).last() == texts@[i as int]@);
        out.append(mark);
        out.append(texts[i]);
        i = i + 1;
    }
    assert(all.take(i as int) =~= all);
    out
}

fn marked_options(mark: &str, options: &Table<String>) -> (r: String)
    ensures
        r@ == marked_pairs(mark@, options.texts()),
{
    let ghost all = options.texts();
    let mut out = String::new();
    let mut i: usize = 0;
    assert(out@ =~= marked_pairs(mark@, all.take(0)));
    while i < options.entries.len()
        invariant
            i <= options.entries@.len(),
            all == options.texts(),
            out@ == marked_pairs(mark@, all.take(i as int)),
        decreases options.entries@.len() - i,
    {
        assert(all.take(i + 1).drop_last() =~= all.take(i as int));
        assert(all.take(i + 1).last() == (
            options.entries@[i as int].0@,
            options.entries@[i as int].1@,
        ));
        out.append(mark);
        out.append(options.entries[i].0.as_str());
        out.append("=");
        out.append(options.entries[i].1.as_str());
        i = i + 1;
    }
    assert(all.take(i as int) =~= all);
    out
}

/// Everything that the identity of a build is computed from.
pub fn build_preimage(
    node: &DependencyNode,
    source_id: &str,
    target: &TargetTriple,
    host_target: &TargetTriple,
    dep_build_ids: &[&str],
) -> (r: String)
    ensures
        r@ == build_text(node@, source_id@, target@, host_target@, strs(dep_build_ids@)),
{
    let effective = match node.kind {
        NodeKind::TargetDependency => target,
        NodeKind::HostTool => host_target,
    };
    let mut out = cat2(":build_defaults:v2", ":source_id:");
    out.append(source_id);
    out.append(":target:");
    out.append(effective.raw.as_str());
    let part = compiler_text_of(node);
    out.append(part.as_str());
    let part = runtime_text_of(node, effective);
    out.append(part.as_str());
    let part = standard_text_of(node);
    out.append(part.as_str());
    let part = kind_text_of(node);
    out.append(part.as_str());
    let ghost before = out@;
    let part = marked_list(":flag:", &node.config.flags);
    out.append(part.as_str());
    let part = marked_options(":cmake_opt:", &node.config.cmake_options);
    out.append(part.as_str());
    let part = marked_options(":node_opt:", &node.cmake_options);
    out.append(part.as_str());
    let part = marked_strs(":dep_id:", dep_build_ids);
    out.append(part.as_str());
    assert(out@ =~= before + list_part(node@, strs(dep_build_ids@)));
    out
}

/// The identity of the source that a build is made from: the one that is recorded, else the one
/// that is computed from what was read.
pub open spec fn source_id_of(n: NodeView, files: SourceFiles) -> Seq<char> {
    match n.source_id {
        Some(id) => id,
        None => id_of(
            source_bytes(n, files.tree_seen(), files.patches_seen(n.patches.len())),
        ),
    }
}

pub struct HashCalculator;

impl HashCalculator {
    /// The identity of a text.
    pub fn short_hash(data: &str) -> (r: String)
        ensures
            r@ == id_of(encode_utf8(data@)),
            r@.len() == ID_LENGTH,
            is_lower_hex(r@),
    {
        Self::short_hash_bytes(data.as_bytes())
    }

    /// The identity of some bytes.
    pub fn short_hash_bytes(data: &[u8]) -> (r: String)
        ensures
            r@ == id_of(data@),
            r@.len() == ID_LENGTH,
            is_lower_hex(r@),
    {
        let hex = digest_hex(data);
        shorten_digest(hex.as_str())
    }

    /// The identity of a source tree.
    pub fn hash_dir_contents(entries: &[(String, EntryKind)]) -> (r: String)
        ensures
            r@ == id_of(tree_bytes(tree_view(entries@))),
            r@.len() == ID_LENGTH,
            is_lower_hex(r@),
    {
        let data = tree_preimage(entries);
        Self::short_hash_bytes(&data)
    }

    /// The identity of a package's source.
    pub fn calculate_source_id(node: &DependencyNode, files: &SourceFiles) -> (r: String)
        ensures
            r@ == id_of(
                source_bytes(node@, files.tree_seen(), files.patches_seen(node.patches@.len())),
            ),
            r@.len() == ID_LENGTH,
            is_lower_hex(r@),
    {
        let data = source_preimage(node, files);
        Self::short_hash_bytes(&data)
    }

    /// The identity of a package's build.
    pub fn calculate_build_id(
        node: &DependencyNode,
        files: &SourceFiles,
        target: &TargetTriple,
        host_target: &TargetTriple,
        dep_build_ids: &[&str],
    ) -> (r: String)
        ensures
            r@ == id_of(
                encode_utf8(
                    build_text(
                        node@,
                        source_id_of(node@, *files),
                        target@,
                        host_target@,
                        strs(dep_build_ids@),
                    ),
                ),
            ),
            r@.len() == ID_LENGTH,
            is_lower_hex(r@),
    {
        let source_id = match &node.source_id {
            Some(id) => id.clone(),
            None => Self::calculate_source_id(node, files),
        };
        let data = build_preimage(node, source_id.as_str(), target, host_target, dep_build_ids);
        Self::short_hash(data.as_str())
    }
}

// ---------------------------------------------------------------------------
// What an identity tells apart
// ---------------------------------------------------------------------------

/// The known compiler families have different names.
pub proof fn compiler_families_differ()
    ensures
        compiler_text(CompilerView::Clang) != compiler_text(CompilerView::Msvc),
        compiler_text(CompilerView::Clang) != compiler_text(CompilerView::Gcc),
        compiler_text(CompilerView::Msvc) != compiler_text(CompilerView::Gcc),
{
    reveal_strlit("clang");
    reveal_strlit("msvc");
    reveal_strlit("gcc");
    assert("clang"@.len() == 5);
    assert("msvc"@.len() == 4);
    assert("gcc"@.len() == 3);
}

proof fn lemma_regroup_first(
    h: Seq<char>,
    m: Seq<char>,
    x: Seq<char>,
    t: Seq<char>,
    r: Seq<char>,
)
    ensures
        h + (m + x + t) + r == (h + m) + x + (t + r),
{
    assert(h + (m + x + t) + r =~= (h + m) + x + (t + r));
}

proof fn lemma_regroup_second(
    h: Seq<char>,
    f: Seq<char>,
    m: Seq<char>,
    x: Seq<char>,
    r: Seq<char>,
)
    ensures
        h + (f + (m + x)) + r == (h + f + m) + x + r,
{
    assert(h + (f + (m + x)) + r =~= (h + f + m) + x + r);
}

/// The parts behind the one for the compiler.
spec fn behind_compiler(n: NodeView, effective: TripleView, dep_ids: Seq<Seq<char>>) -> Seq<char> {
    runtime_part(n, effective) + standard_part(n) + kind_part(n) + list_part(n, dep_ids)
}

/// The parts behind the one for the runtime.
spec fn behind_runtime(n: NodeView, dep_ids: Seq<Seq<char>>) -> Seq<char> {
    standard_part(n) + kind_part(n) + list_part(n, dep_ids)
}

proof fn lemma_group_compiler(
    h: Seq<char>,
    c: Seq<char>,
    r1: Seq<char>,
    r2: Seq<char>,
    r3: Seq<char>,
    r4: Seq<char>,
)
    ensures
        h + c + r1 + r2 + r3 + r4 == h + c + (r1 + r2 + r3 + r4),
{
    assert(h + c + r1 + r2 + r3 + r4 =~= h + c + (r1 + r2 + r3 + r4));
}

proof fn lemma_group_runtime(
    h: Seq<char>,
    c: Seq<char>,
    r2: Seq<char>,
    r3: Seq<char>,
    r4: Seq<char>,
)
    ensures
        h + c + r2 + r3 + r4 == h + c + (r2 + r3 + r4),
{
    assert(h + c + r2 + r3 + r4 =~= h + c + (r2 + r3 + r4));
}

/// What stands in front of the part for the compiler.
spec fn front(source_id: Seq<char>, effective: TripleView) -> Seq<char> {
    ":build_defaults:v2"@ + ":source_id:"@ + source_id + ":target:"@ + effective.raw
}

/// Builds that differ in the compiler alone are told apart, unless the package ignores it.
pub proof fn compiler_separates_builds(
    n: NodeView,
    a: CompilerView,
    b: CompilerView,
    source_id: Seq<char>,
    target: TripleView,
    host: TripleView,
    dep_ids: Seq<Seq<char>>,
)
    requires
        !ignores(n, "compiler"@),
        compiler_text(a) != compiler_text(b),
    ensures
        encode_utf8(
            build_text(
                NodeView { compiler: Some(a), ..n },
                source_id,
                target,
                host,
                dep_ids,
            ),
        ) != encode_utf8(
            build_text(NodeView { compiler: Some(b), ..n }, source_id, target, host, dep_ids),
        ),
{
    let x = NodeView { compiler: Some(a), ..n };
    let y = NodeView { compiler: Some(b), ..n };
    let effective = effective_target(n, target, host);
    let h = front(source_id, effective);
    let chain = match n.toolchain_fingerprint {
        Some(f) => ":toolchain:"@ + f,
        None => Seq::empty(),
    };
    let rest = behind_compiler(n, effective, dep_ids);
    let p = h + ":compiler:"@;
    let r = chain + rest;
    assert(behind_compiler(x, effective, dep_ids) == rest);
    assert(behind_compiler(y, effective, dep_ids) == rest);
    lemma_group_compiler(
        h,
        compiler_part(x),
        runtime_part(x, effective),
        standard_part(x),
        kind_part(x),
        list_part(x, dep_ids),
    );
    lemma_group_compiler(
        h,
        compiler_part(y),
        runtime_part(y, effective),
        standard_part(y),
        kind_part(y),
        list_part(y, dep_ids),
    );
    lemma_regroup_first(h, ":compiler:"@, compiler_text(a), chain, rest);
    lemma_regroup_first(h, ":compiler:"@, compiler_text(b), chain, rest);
    assert(build_text(x, source_id, target, host, dep_ids) == p + compiler_text(a) + r);
    assert(build_text(y, source_id, target, host, dep_ids) == p + compiler_text(b) + r);
    if encode_utf8(p + compiler_text(a) + r) == encode_utf8(p + compiler_text(b) + r) {
        lemma_bytes_differ(p + compiler_text(a) + r, p + compiler_text(b) + r);
        lemma_middle(p, compiler_text(a), compiler_text(b), r);
    }
}

/// Builds that differ in the fingerprint of the toolchain alone are told apart, unless the
/// package ignores the compiler.
pub proof fn toolchain_separates_builds(
    n: NodeView,
    a: Seq<char>,
    b: Seq<char>,
    source_id: Seq<char>,
    target: TripleView,
    host: TripleView,
    dep_ids: Seq<Seq<char>>,
)
    requires
        !ignores(n, "compiler"@),
        a != b,
    ensures
        encode_utf8(
            build_text(
                NodeView { toolchain_fingerprint: Some(a), ..n },
                source_id,
                target,
                host,
                dep_ids,
            ),
        ) != encode_utf8(
            build_text(
                NodeView { toolchain_fingerprint: Some(b), ..n },
                source_id,
                target,
                host,
                dep_ids,
            ),
        ),
{
    let x = NodeView { toolchain_fingerprint: Some(a), ..n };
    let y = NodeView { toolchain_fingerprint: Some(b), ..n };
    let effective = effective_target(n, target, host);
    let family = match n.compiler {
        Some(c) => ":compiler:"@ + compiler_text(c),
        None => Seq::empty(),
    };
    let h = front(source_id, effective);
    let rest = behind_compiler(n, effective, dep_ids);
    let p = h + family + ":toolchain:"@;
    let r = rest;
    assert(behind_compiler(x, effective, dep_ids) == rest);
    assert(behind_compiler(y, effective, dep_ids) == rest);
    lemma_group_compiler(
        h,
        compiler_part(x),
        runtime_part(x, effective),
        standard_part(x),
        kind_part(x),
        list_part(x, dep_ids),
    );
    lemma_group_compiler(
        h,
        compiler_part(y),
        runtime_part(y, effective),
        standard_part(y),
        kind_part(y),
        list_part(y, dep_ids),
    );
    lemma_regroup_second(h, family, ":toolchain:"@, a, rest);
    lemma_regroup_second(h, family, ":toolchain:"@, b, rest);
    assert(build_text(x, source_id, target, host, dep_ids) == p + a + r);
    assert(build_text(y, source_id, target, host, dep_ids) == p + b + r);
    if encode_utf8(p + a + r) == encode_utf8(p + b + r) {
        lemma_bytes_differ(p + a + r, p + b + r);
        lemma_middle(p, a, b, r);
    }
}

/// A package with another MSVC runtime.
pub open spec fn with_runtime(n: NodeView, v: VCRuntime) -> NodeView {
    NodeView { config: crate::strategy::ConfigView { vc_runtime: v, ..n.config }, ..n }
}

/// Builds for an MSVC target that differ in the runtime alone are told apart, unless the package
/// ignores it.
pub proof fn runtime_separates_msvc_builds(
    n: NodeView,
    a: VCRuntime,
    b: VCRuntime,
    source_id: Seq<char>,
    target: TripleView,
    host: TripleView,
    dep_ids: Seq<Seq<char>>,
)
    requires
        effective_target(n, target, host).env == Environment::Msvc,
        !ignores(n, "vc_runtime"@),
        !ignores(n, "cxx_runtime"@),
        a != b,
    ensures
        encode_utf8(build_text(with_runtime(n, a), source_id, target, host, dep_ids))
            != encode_utf8(build_text(with_runtime(n, b), source_id, target, host, dep_ids)),
{
    let x = with_runtime(n, a);
    let y = with_runtime(n, b);
    let effective = effective_target(n, target, host);
    let h = front(source_id, effective) + compiler_part(n);
    let rest = behind_runtime(n, dep_ids);
    let p = h + ":vc_runtime:"@;
    let r = rest;
    assert(compiler_part(x) == compiler_part(n) && compiler_part(y) == compiler_part(n));
    assert(behind_runtime(x, dep_ids) == rest);
    assert(behind_runtime(y, dep_ids) == rest);
    lemma_group_runtime(
        h,
        runtime_part(x, effective),
        standard_part(x),
        kind_part(x),
        list_part(x, dep_ids),
    );
    lemma_group_runtime(
        h,
        runtime_part(y, effective),
        standard_part(y),
        kind_part(y),
        list_part(y, dep_ids),
    );
    assert(h + (":vc_runtime:"@ + runtime_text(a)) =~= p + runtime_text(a));
    assert(h + (":vc_runtime:"@ + runtime_text(b)) =~= p + runtime_text(b));
    assert(build_text(x, source_id, target, host, dep_ids) == p + runtime_text(a) + r);
    assert(build_text(y, source_id, target, host, dep_ids) == p + runtime_text(b) + r);
    if encode_utf8(p + runtime_text(a) + r) == encode_utf8(p + runtime_text(b) + r) {
        lemma_bytes_differ(p + runtime_text(a) + r, p + runtime_text(b) + r);
        lemma_middle(p, runtime_text(a), runtime_text(b), r);
        runtime_texts_differ(a, b);
    }
}

/// For other targets the MSVC runtime does not count.
pub proof fn runtime_only_counts_for_msvc(
    n: NodeView,
    a: VCRuntime,
    source_id: Seq<char>,
    target: TripleView,
    host: TripleView,
    dep_ids: Seq<Seq<char>>,
)
    requires
        effective_target(n, target, host).env != Environment::Msvc,
    ensures
        build_text(with_runtime(n, a), source_id, target, host, dep_ids) == build_text(
            n,
            source_id,
            target,
            host,
            dep_ids,
        ),
{
    let x = with_runtime(n, a);
    assert(compiler_part(x) == compiler_part(n));
    assert(standard_part(x) == standard_part(n));
    assert(kind_part(x) == kind_part(n));
    assert(list_part(x, dep_ids) == list_part(n, dep_ids));
}

/// A package that ignores a setting has the same builds whatever that setting is.
pub proof fn ignored_settings_do_not_count(
    n: NodeView,
    other: NodeView,
    source_id: Seq<char>,
    target: TripleView,
    host: TripleView,
    dep_ids: Seq<Seq<char>>,
)
    requires
        other == (NodeView {
            compiler: if ignores(n, "compiler"@) {
                other.compiler
            } else {
                n.compiler
            },
            toolchain_fingerprint: if ignores(n, "compiler"@) {
                other.toolchain_fingerprint
            } else {
                n.toolchain_fingerprint
            },
            config: crate::strategy::ConfigView {
                vc_runtime: if ignores(n, "vc_runtime"@) || ignores(n, "cxx_runtime"@) {
                    other.config.vc_runtime
                } else {
                    n.config.vc_runtime
                },
                cxx_std: if ignores(n, "cxx_std"@) {
                    other.config.cxx_std
                } else {
                    n.config.cxx_std
                },
                cxx_stdlib: if ignores(n, "cxx_stdlib"@) {
                    other.config.cxx_stdlib
                } else {
                    n.config.cxx_stdlib
                },
                ..n.config
            },
            ..n
        }),
    ensures
        build_text(other, source_id, target, host, dep_ids) == build_text(
            n,
            source_id,
            target,
            host,
            dep_ids,
        ),
{
    assert(compiler_part(other) == compiler_part(n));
    assert(standard_part(other) == standard_part(n));
    assert(kind_part(other) == kind_part(n));
    assert(list_part(other, dep_ids) == list_part(n, dep_ids));
}

pub proof fn lemma_marked_all_append(mark: Seq<char>, a: Seq<Seq<char>>, b: Seq<Seq<char>>)
    ensures
        marked_all(mark, a + b) == marked_all(mark, a) + marked_all(mark, b),
    decreases b.len(),
{
    if b.len() == 0 {
        assert(a + b =~= a);
        assert(marked_all(mark, a) + Seq::<char>::empty() =~= marked_all(mark, a));
    } else {
        assert((a + b).drop_last() =~= a + b.drop_last());
        lemma_marked_all_append(mark, a, b.drop_last());
        assert(marked_all(mark, a + b) =~= marked_all(mark, a) + marked_all(mark, b));
    }
}

/// Builds on top of another build of a dependency are told apart.
pub proof fn dependencies_separate_builds(
    n: NodeView,
    source_id: Seq<char>,
    target: TripleView,
    host: TripleView,
    before: Seq<Seq<char>>,
    a: Seq<char>,
    b: Seq<char>,
    after: Seq<Seq<char>>,
)
    requires
        a != b,
    ensures
        encode_utf8(build_text(n, source_id, target, host, before.push(a) + after))
            != encode_utf8(build_text(n, source_id, target, host, before.push(b) + after)),
{
    let effective = effective_target(n, target, host);
    let mark = ":dep_id:"@;
    lemma_marked_all_append(mark, before.push(a), after);
    lemma_marked_all_append(mark, before.push(b), after);
    assert(before.push(a).drop_last() =~= before);
    assert(before.push(b).drop_last() =~= before);
    let p = ":build_defaults:v2"@ + ":source_id:"@ + source_id + ":target:"@ + effective.raw
        + compiler_part(n) + runtime_part(n, effective) + standard_part(n) + kind_part(n) + (
    marked_all(":flag:"@, n.config.flags) + marked_pairs(":cmake_opt:"@, n.config.cmake_options)
        + marked_pairs(":node_opt:"@, n.cmake_options)) + marked_all(mark, before) + mark;
    let r = marked_all(mark, after);
    let x = build_text(n, source_id, target, host, before.push(a) + after);
    let y = build_text(n, source_id, target, host, before.push(b) + after);
    assert(x =~= p + a + r);
    assert(y =~= p + b + r);
    if encode_utf8(x) == encode_utf8(y) {
        lemma_bytes_differ(x, y);
        lemma_middle(p, a, b, r);
    }
}

/// Sources that differ in the git URL alone are told apart.
pub proof fn url_separates_sources(
    n: NodeView,
    a: Seq<char>,
    b: Seq<char>,
    tree: Option<Seq<(Seq<char>, EntryView)>>,
    patches: Seq<Option<Seq<u8>>>,
)
    requires
        a != b,
    ensures
        source_bytes(NodeView { git: Some(a), ..n }, tree, patches) != source_bytes(
            NodeView { git: Some(b), ..n },
            tree,
            patches,
        ),
{
    let x = NodeView { git: Some(a), ..n };
    let y = NodeView { git: Some(b), ..n };
    let p = encode_utf8(n.name) + marked(":v:"@, n.version) + encode_utf8(":git:"@);
    let r = revision_bytes(n) + resolved_bytes(n) + local_bytes(n.path, tree) + patches_bytes(
        n.patches,
        patches,
    );
    assert(revision_bytes(x) == revision_bytes(n) && revision_bytes(y) == revision_bytes(n));
    assert(resolved_bytes(x) == resolved_bytes(n) && resolved_bytes(y) == resolved_bytes(n));
    assert(source_bytes(x, tree, patches) =~= p + encode_utf8(a) + r);
    assert(source_bytes(y, tree, patches) =~= p + encode_utf8(b) + r);
    if p + encode_utf8(a) + r == p + encode_utf8(b) + r {
        lemma_middle(p, encode_utf8(a), encode_utf8(b), r);
        lemma_bytes_differ(a, b);
    }
}

/// Sources of a moving revision are told apart by the commit that it stood for.
pub proof fn resolved_commit_separates_moving_sources(
    n: NodeView,
    a: Seq<char>,
    b: Seq<char>,
    tree: Option<Seq<(Seq<char>, EntryView)>>,
    patches: Seq<Option<Seq<u8>>>,
)
    requires
        n.commit is None,
        n.tag is None,
        a != b,
    ensures
        source_bytes(NodeView { resolved_commit: Some(a), ..n }, tree, patches) != source_bytes(
            NodeView { resolved_commit: Some(b), ..n },
            tree,
            patches,
        ),
{
    let x = NodeView { resolved_commit: Some(a), ..n };
    let y = NodeView { resolved_commit: Some(b), ..n };
    let p = encode_utf8(n.name) + marked(":v:"@, n.version) + marked(":git:"@, n.git)
        + revision_bytes(n) + encode_utf8(":resolved:"@);
    let r = local_bytes(n.path, tree) + patches_bytes(n.patches, patches);
    assert(revision_bytes(x) == revision_bytes(n) && revision_bytes(y) == revision_bytes(n));
    assert(source_bytes(x, tree, patches) =~= p + encode_utf8(a) + r);
    assert(source_bytes(y, tree, patches) =~= p + encode_utf8(b) + r);
    if p + encode_utf8(a) + r == p + encode_utf8(b) + r {
        lemma_middle(p, encode_utf8(a), encode_utf8(b), r);
        lemma_bytes_differ(a, b);
    }
}

/// The commit that a revision was fetched at does not count for a commit or a tag.
pub proof fn resolved_commit_does_not_count_for_pins(
    n: NodeView,
    a: Option<Seq<char>>,
    tree: Option<Seq<(Seq<char>, EntryView)>>,
    patches: Seq<Option<Seq<u8>>>,
)
    requires
        n.commit is Some || n.tag is Some,
    ensures
        source_bytes(NodeView { resolved_commit: a, ..n }, tree, patches) == source_bytes(
            n,
            tree,
            patches,
        ),
{
    let x = NodeView { resolved_commit: a, ..n };
    assert(revision_bytes(x) == revision_bytes(n));
}

/// The bytes around the content of one patch.
proof fn lemma_patch_frame(
    paths: Seq<Seq<char>>,
    contents: Seq<Option<Seq<u8>>>,
    i: int,
) -> (frame: (Seq<u8>, Seq<u8>))
    requires
        0 <= i < paths.len() == contents.len(),
    ensures
        forall|c: Seq<u8>|
            patches_bytes(paths, #[trigger] contents.update(i, Some(c))) == frame.0 + c + frame.1,
    decreases paths.len(),
{
    let init = contents.drop_last();
    if i == paths.len() - 1 {
        let name = match file_name_of(paths.last()) {
            Some(f) => f,
            None => ""@,
        };
        let head = encode_utf8(":patch:"@) + encode_utf8(name);
        let mark = encode_utf8(":content:"@);
        let before = patches_bytes(paths.drop_last(), init);
        let p = before + head + mark;
        let r = Seq::<u8>::empty();
        assert forall|c: Seq<u8>|
            patches_bytes(paths, #[trigger] contents.update(i, Some(c))) == p + c + r by {
            assert(contents.update(i, Some(c)).drop_last() =~= init);
            assert(before + (head + (mark + c)) =~= p + c + r);
        }
        (p, r)
    } else {
        let (p, q) = lemma_patch_frame(paths.drop_last(), init, i);
        let tail = patch_bytes(paths.last(), contents.last());
        let r = q + tail;
        assert forall|c: Seq<u8>|
            patches_bytes(paths, #[trigger] contents.update(i, Some(c))) == p + c + r by {
            assert(contents.update(i, Some(c)).drop_last() =~= init.update(i, Some(c)));
            assert(p + c + q + tail =~= p + c + r);
        }
        (p, r)
    }
}

/// Sources that differ in the content of one patch alone are told apart.
pub proof fn patch_content_separates_sources(
    n: NodeView,
    tree: Option<Seq<(Seq<char>, EntryView)>>,
    patches: Seq<Option<Seq<u8>>>,
    i: int,
    a: Seq<u8>,
    b: Seq<u8>,
)
    requires
        0 <= i < n.patches.len() == patches.len(),
        a != b,
    ensures
        source_bytes(n, tree, patches.update(i, Some(a))) != source_bytes(
            n,
            tree,
            patches.update(i, Some(b)),
        ),
{
    let base = encode_utf8(n.name) + marked(":v:"@, n.version) + marked(":git:"@, n.git)
        + revision_bytes(n) + resolved_bytes(n) + local_bytes(n.path, tree);
    let (p, r) = lemma_patch_frame(n.patches, patches, i);
    lemma_regroup_bytes(base, p, a, r);
    lemma_regroup_bytes(base, p, b, r);
    assert(source_bytes(n, tree, patches.update(i, Some(a))) == base + (p + a + r));
    assert(source_bytes(n, tree, patches.update(i, Some(b))) == base + (p + b + r));
    if (base + p) + a + r == (base + p) + b + r {
        lemma_middle(base + p, a, b, r);
    }
}

proof fn lemma_regroup_bytes(base: Seq<u8>, p: Seq<u8>, a: Seq<u8>, r: Seq<u8>)
    ensures
        base + (p + a + r) == (base + p) + a + r,
{
    assert(base + (p + a + r) =~= (base + p) + a + r);
}

/// What is recorded of an installed package.
#[derive(Debug)]
pub struct PackageMeta {
    pub name: String,
    pub version: Option<String>,
    pub build_id: String,
    pub target: String,
    pub shared: bool,
    pub cxx_runtime: String,
    pub cxx_std: String,
    pub cxx_stdlib: String,
    pub build_info: BuildInfoMeta,
}

/// What is recorded of the machine that built a package.
#[derive(Debug)]
pub struct BuildInfoMeta {
    pub host_triple: String,
    pub timestamp: String,
    pub compiler: Option<String>,
    pub glibc_version: Option<String>,
}

// ---------------------------------------------------------------------------
// What identities are made of
// ---------------------------------------------------------------------------

/// An identity is the first sixteen digits of the digest.
pub proof fn an_identity_is_the_start_of_the_digest(data: Seq<u8>)
    ensures
        id_of(data) == blake3_hex(data).take(16),
{
}

/// The identity of a build counts its source, the target (of a tool the host), the compiler and the
/// toolchain, for MSVC the runtime library, the standard and the standard library, all of these
/// unless the package ignores them; and the kind of the build, its flags, its options and the
/// builds of what it needs.
pub proof fn what_the_identity_of_a_build_counts(
    n: NodeView,
    source_id: Seq<char>,
    target: TripleView,
    host: TripleView,
    dep_ids: Seq<Seq<char>>,
)
    ensures
        ({
            let none = Seq::<char>::empty();
            let t = if n.kind == NodeKind::HostTool {
                host
            } else {
                target
            };
            let counts = |key: Seq<char>| !n.abi_ignores.contains(key);
            let compiler = if counts("compiler"@) && n.compiler is Some {
                ":compiler:"@ + compiler_text(n.compiler->0)
            } else {
                none
            };
            let toolchain = if counts("compiler"@) && n.toolchain_fingerprint is Some {
                ":toolchain:"@ + n.toolchain_fingerprint->0
            } else {
                none
            };
            let runtime = if t.env == Environment::Msvc && counts("vc_runtime"@) && counts(
                "cxx_runtime"@,
            ) {
                ":vc_runtime:"@ + runtime_text(n.config.vc_runtime)
            } else {
                none
            };
            let standard = if counts("cxx_std"@) {
                ":cxx_std:"@ + n.config.cxx_std
            } else {
                none
            };
            let stdlib = if counts("cxx_stdlib"@) {
                ":cxx_stdlib:"@ + stdlib_text(n.config.cxx_stdlib)
            } else {
                none
            };
            let shared = if n.shared is Some {
                n.shared->0
            } else {
                n.config.shared
            };
            let word = |b: bool|
                if b {
                    "true"@
                } else {
                    "false"@
                };
            build_text(n, source_id, target, host, dep_ids) == ":build_defaults:v2:source_id:"@
                + source_id + ":target:"@ + t.raw + (compiler + toolchain) + runtime + (standard
                + stdlib) + (":build_type:"@ + build_type_text(n.config.build_type) + ":shared:"@
                + word(shared) + ":header_only:"@ + word(n.header_only) + ":lto:"@ + word(
                n.config.lto,
            )) + (marked_all(":flag:"@, n.config.flags) + marked_pairs(
                ":cmake_opt:"@,
                n.config.cmake_options,
            ) + marked_pairs(":node_opt:"@, n.cmake_options) + marked_all(":dep_id:"@, dep_ids))
        }),
{
    reveal_strlit(":build_defaults:v2");
    reveal_strlit(":source_id:");
    reveal_strlit(":build_defaults:v2:source_id:");
    assert(":build_defaults:v2"@ + ":source_id:"@ =~= ":build_defaults:v2:source_id:"@);
    if ignores(n, "compiler"@) {
        assert(compiler_part(n) =~= Seq::<char>::empty() + Seq::<char>::empty());
    }
}

/// Each text of a list counts behind its mark, in the order of the list; an option counts with its
/// name and its value.
pub proof fn each_text_counts_behind_its_mark(
    mark: Seq<char>,
    texts: Seq<Seq<char>>,
    t: Seq<char>,
    pairs: Seq<(Seq<char>, Seq<char>)>,
    k: Seq<char>,
    v: Seq<char>,
)
    ensures
        marked_all(mark, texts.push(t)) == marked_all(mark, texts) + mark + t,
        marked_all(mark, Seq::empty()).len() == 0,
        marked_pairs(mark, pairs.push((k, v))) == marked_pairs(mark, pairs) + mark + k + "="@ + v,
        marked_pairs(mark, Seq::empty()).len() == 0,
{
    let a = texts.push(t);
    assert(a.drop_last() =~= texts);
    let b = pairs.push((k, v));
    assert(b.drop_last() =~= pairs);
}

/// The identity of a source counts the name, the version, the url and the revision; the commit that
/// a branch or the default branch was found at; of a directory what is in it, or where it lies
/// where that could not be read; and the patches.
pub proof fn what_the_identity_of_a_source_counts(
    n: NodeView,
    tree: Option<Seq<(Seq<char>, EntryView)>>,
    patches: Seq<Option<Seq<u8>>>,
)
    ensures
        ({
            let none = Seq::<u8>::empty();
            let version = if n.version is Some {
                encode_utf8(":v:"@) + encode_utf8(n.version->0)
            } else {
                none
            };
            let git = if n.git is Some {
                encode_utf8(":git:"@) + encode_utf8(n.git->0)
            } else {
                none
            };
            let revision = if n.commit is Some {
                encode_utf8(":commit:"@) + encode_utf8(n.commit->0)
            } else if n.tag is Some {
                encode_utf8(":tag:"@) + encode_utf8(n.tag->0)
            } else if n.branch is Some {
                encode_utf8(":branch:"@) + encode_utf8(n.branch->0)
            } else {
                none
            };
            let found = if n.commit is None && n.tag is None && n.resolved_commit is Some {
                encode_utf8(":resolved:"@) + encode_utf8(n.resolved_commit->0)
            } else {
                none
            };
            let local = if n.path is None {
                none
            } else if tree is Some {
                encode_utf8(":path:"@) + encode_utf8(id_of(tree_bytes(tree->0)))
            } else {
                encode_utf8(":path:"@) + encode_utf8(n.path->0)
            };
            source_bytes(n, tree, patches) == encode_utf8(n.name) + version + git + revision + found
                + local + patches_bytes(n.patches, patches)
        }),
{
}

/// Each patch counts by the name of its file and by its content, in the order of the patches.
pub proof fn each_patch_counts(
    paths: Seq<Seq<char>>,
    contents: Seq<Option<Seq<u8>>>,
    path: Seq<char>,
    name: Seq<char>,
    content: Seq<u8>,
)
    requires
        file_name_of(path) == Some(name),
    ensures
        patches_bytes(paths.push(path), contents.push(Some(content))) == patches_bytes(
            paths,
            contents,
        ) + (encode_utf8(":patch:"@) + encode_utf8(name) + (encode_utf8(":content:"@) + content)),
        patches_bytes(paths.push(path), contents.push(None)) == patches_bytes(paths, contents) + (
        encode_utf8(":patch:"@) + encode_utf8(name)),
        patches_bytes(Seq::empty(), Seq::empty()).len() == 0,
{
    let a = paths.push(path);
    assert(a.drop_last() =~= paths);
    let b = contents.push(Some(content));
    assert(b.drop_last() =~= contents);
    let c = contents.push(None);
    assert(c.drop_last() =~= contents);
    assert(patch_bytes(path, None) =~= encode_utf8(":patch:"@) + encode_utf8(name));
}

/// Each file of a directory counts by its path and its content, each link by its path and where it
/// leads; paths count with `/`, and the files in the order of their paths.
pub proof fn each_file_of_a_directory_counts(
    path: Seq<char>,
    content: Seq<u8>,
    target: Seq<char>,
    more: Seq<(Seq<char>, EntryView)>,
    e: (Seq<char>, EntryView),
)
    requires
        !path.contains('\\'),
    ensures
        entry_bytes((path, EntryView::File(content))) == encode_utf8(":file:"@) + encode_utf8(path)
            + encode_utf8("\0"@) + content,
        entry_bytes((path, EntryView::Link(Some(target)))) == encode_utf8(":link:"@) + encode_utf8(
            path,
        ) + encode_utf8("\0"@) + encode_utf8(target),
        entry_bytes((path, EntryView::Link(None))) == encode_utf8(":link:"@) + encode_utf8(path)
            + encode_utf8("\0"@),
        entries_bytes(more.push(e)) == entries_bytes(more) + entry_bytes(e),
        tree_bytes(more) == entries_bytes(path_sorted(more)),
{
    assert(with_char_replaced(path, '\\', '/') =~= path);
    let all = more.push(e);
    assert(all.drop_last() =~= more);
}

/// A package that has the identity of its source keeps it; any other gets it from its source.
pub proof fn the_identity_of_a_source_is_kept(n: NodeView, files: SourceFiles)
    ensures
        n.source_id matches Some(id) ==> source_id_of(n, files) == id,
        n.source_id is None ==> source_id_of(n, files) == id_of(
            source_bytes(n, files.tree_seen(), files.patches_seen(n.patches.len())),
        ),
        forall|i: int|
            0 <= i < n.patches.len() ==> #[trigger] files.patches_seen(n.patches.len())[i]
                == files.patch_seen(i),
{
}

} // verus!
