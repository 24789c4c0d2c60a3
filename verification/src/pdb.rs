//! Which debug databases belong to which installed binaries.
use crate::cmake::CMakeRunner;
use crate::path::{
    entries_view, extension, extension_of, file_name, file_name_of, file_stem, file_stem_of,
    in_path_order, join_path, parent, parent_of, path_before, path_eq, path_join,
    path_order_is_total, path_order_is_transitive, path_sorted, same_path, sort_by_path,
    sorting_orders_the_same_entries,
};
use crate::text::{
    after_prefix, ascii_lower, ascii_lower_char, before_suffix, cat2, chars_of, ends_with,
    eq_ignore_ascii_case, equal_but_case, find_last, find_last_from, has_prefix, has_suffix,
    is_letter, is_space, last_position, last_word, occurs_at, same_but_case,
    small_letters_forget_only_case, split_whitespace_last, starts_with, strip_prefix, strip_suffix,
    text_of, text_of_bytes, the_last_place_of_a_part, the_last_word_stands_behind_white_space,
    to_ascii_lowercase, trim, trimmed, trimming_takes_white_space_off, views,
    what_is_left_without_an_end, without_trailing, word_start,
};
use vstd::prelude::*;
use vstd::string::*;
use vstd::utf8::{
    decode_utf8, encode_utf8, is_ascii_chars, is_ascii_chars_encode_utf8, valid_utf8,
};

verus! {

broadcast use vstd::string::group_string_axioms;

// ---------------------------------------------------------------------------
// Names inside of binaries
// ---------------------------------------------------------------------------

/// The drive letter and what follows it, where a text holds a path with a drive letter in front.
pub open spec fn drive_start(t: Seq<char>) -> Option<int> {
    let at = match find_last(t, ":\\"@) {
        Some(i) => Some(i),
        None => find_last(t, ":/"@),
    };
    match at {
        Some(i) => if i >= 1 && is_letter(t[i - 1]) {
            Some(i - 1)
        } else {
            None
        },
        None => None,
    }
}

/// Whether a text ends in `.pdb`, in letters of any case.
pub open spec fn ends_in_pdb(s: Seq<char>) -> bool {
    has_suffix(ascii_lower(s), ".pdb"@)
}

/// The path in a run of characters that ends in `.pdb`: from a drive letter on, else the last
/// word, else all of it.
pub open spec fn path_in(s: Seq<char>) -> Option<Seq<char>> {
    let t = trimmed(s);
    if t.len() == 0 || !ends_in_pdb(t) {
        None
    } else if drive_start(t) is Some {
        Some(t.skip(drive_start(t)->0))
    } else {
        match last_word(t) {
            Some(w) => if ends_in_pdb(w) {
                Some(w)
            } else {
                Some(t)
            },
            None => Some(t),
        }
    }
}

/// A byte with the letters `A` to `Z` made small.
pub open spec fn small_byte(b: u8) -> u8 {
    if 65 <= b <= 90 {
        (b + 32) as u8
    } else {
        b
    }
}

/// Whether `.pdb` stands at `i`, in letters of any case.
pub open spec fn pdb_at(data: Seq<u8>, i: int) -> bool {
    0 <= i && i + 4 <= data.len() && data[i] == 46 && small_byte(data[i + 1]) == 112 && small_byte(
        data[i + 2],
    ) == 100 && small_byte(data[i + 3]) == 98
}

/// Whether a name that ends before `end` ends there for good: at the end of the data, or before
/// a zero, a line end, a quote or a space.
pub open spec fn name_ends(data: Seq<u8>, end: int) -> bool {
    end >= data.len() || data[end] == 0 || data[end] == 13 || data[end] == 10 || data[end] == 34
        || data[end] == 39 || data[end] == 32
}

/// Whether a byte cannot stand in a path.
pub open spec fn stops_name(b: u8) -> bool {
    b == 34 || b == 39 || b == 59 || b == 124 || b == 60 || b == 62 || b < 32
}

/// Where the name starts that ends at `i`: behind the last byte that cannot stand in a path.
pub open spec fn name_start(data: Seq<u8>, i: int) -> int
    decreases i,
{
    if i <= 0 || i > data.len() || stops_name(data[i - 1]) {
        i
    } else {
        name_start(data, i - 1)
    }
}

/// The path that ends with the `.pdb` at `i`, where there is one.
pub open spec fn name_at(data: Seq<u8>, i: int) -> Option<Seq<char>> {
    let start = name_start(data, i);
    let bytes = data.subrange(start, i + 4);
    if name_ends(data, i + 4) && start < i && valid_utf8(bytes) {
        path_in(decode_utf8(bytes))
    } else {
        None
    }
}

/// The paths of debug databases in `data`, from position `i` on.
pub open spec fn names_from(data: Seq<u8>, i: int) -> Seq<Seq<char>>
    decreases data.len() - i,
{
    if i < 0 || i + 4 > data.len() {
        Seq::empty()
    } else if pdb_at(data, i) {
        match name_at(data, i) {
            Some(name) => seq![name] + names_from(data, i + 4),
            None => names_from(data, i + 4),
        }
    } else {
        names_from(data, i + 1)
    }
}

proof fn lemma_name_start(data: Seq<u8>, i: int)
    requires
        0 <= i <= data.len(),
    ensures
        0 <= name_start(data, i) <= i,
    decreases i,
{
    if i > 0 && !stops_name(data[i - 1]) {
        lemma_name_start(data, i - 1);
    }
}

fn lower_byte(b: u8) -> (r: u8)
    ensures
        r == small_byte(b),
{
    if 65 <= b && b <= 90 {
        b + 32
    } else {
        b
    }
}

fn is_ascii_letter(c: char) -> (r: bool)
    ensures
        r == is_letter(c),
{
    ('a' <= c && c <= 'z') || ('A' <= c && c <= 'Z')
}

fn is_pdb_text(s: &str) -> (r: bool)
    ensures
        r == ends_in_pdb(s@),
{
    let l = to_ascii_lowercase(s);
    ends_with(l.as_str(), ".pdb")
}

fn find_drive(t: &str) -> (r: Option<usize>)
    ensures
        match r {
            Some(i) => drive_start(t@) == Some(i as int) && i < t@.len(),
            None => drive_start(t@) is None,
        },
{
    let at = match last_position(t, ":\\") {
        Some(i) => Some(i),
        None => last_position(t, ":/"),
    };
    proof {
        reveal_strlit(":\\");
        reveal_strlit(":/");
    }
    match at {
        Some(i) => {
            let cs = chars_of(t);
            if i >= 1 && is_ascii_letter(cs[i - 1]) {
                Some(i - 1)
            } else {
                None
            }
        },
        None => None,
    }
}

impl CMakeRunner {
    /// The path in a run of characters that ends in `.pdb`.
    pub fn normalize_extracted_path(s: &str) -> (r: Option<String>)
        ensures
            crate::text::opt_view(r) == path_in(s@),
    {
        let t = trim(s);
        if t.as_str().unicode_len() == 0 || !is_pdb_text(t.as_str()) {
            return None;
        }
        if let Some(i) = find_drive(t.as_str()) {
            let cs = chars_of(t.as_str());
            let n: usize = cs.len();
            assert(cs@.subrange(i as int, n as int) =~= t@.skip(i as int));
            return Some(text_of(&cs, i, n));
        }
        match split_whitespace_last(t.as_str()) {
            Some(w) => if is_pdb_text(w.as_str()) {
                Some(w)
            } else {
                Some(t)
            },
            None => Some(t),
        }
    }

    /// The paths of debug databases that a binary names.
    pub fn extract_embedded_pdbs(data: &[u8]) -> (r: Vec<String>)
        ensures
            views(r@) == names_from(data@, 0),
    {
        let n: usize = data.len();
        let mut results: Vec<String> = Vec::new();
        let mut i: usize = 0;
        assert(views(results@) + names_from(data@, 0) =~= names_from(data@, 0));
        while i <= n && n - i >= 4
            invariant
                n == data@.len(),
                i <= n,
                views(results@) + names_from(data@, i as int) == names_from(data@, 0),
            decreases n - i,
        {
            if data[i] == 46 && lower_byte(data[i + 1]) == 112 && lower_byte(data[i + 2]) == 100
                && lower_byte(data[i + 3]) == 98 {
                assert(pdb_at(data@, i as int));
                let found = Self::name_before(data, i);
                let ghost before = views(results@);
                let ghost rest = names_from(data@, i + 4);
                if let Some(name) = found {
                    results.push(name);
                    assert(views(results@) =~= before.push(name@));
                    assert(before + (seq![name@] + rest) =~= before.push(name@) + rest);
                }
                i = i + 4;
            } else {
                assert(!pdb_at(data@, i as int));
                i = i + 1;
            }
        }
        assert(views(results@) + names_from(data@, i as int) =~= views(results@));
        results
    }

    fn name_before(data: &[u8], i: usize) -> (r: Option<String>)
        requires
            i + 4 <= data@.len(),
        ensures
            crate::text::opt_view(r) == name_at(data@, i as int),
    {
        let n: usize = data.len();
        let end: usize = i + 4;
        let mut start: usize = i;
        while start > 0 && !(data[start - 1] == 34 || data[start - 1] == 39 || data[start - 1] == 59
            || data[start - 1] == 124 || data[start - 1] == 60 || data[start - 1] == 62 || data[start
            - 1] < 32)
            invariant
                n == data@.len(),
                start <= i <= n,
                name_start(data@, start as int) == name_start(data@, i as int),
            decreases start,
        {
            start = start - 1;
        }
        assert(start == name_start(data@, i as int));
        let ends = end >= n || data[end] == 0 || data[end] == 13 || data[end] == 10 || data[end]
            == 34 || data[end] == 39 || data[end] == 32;
        if ends && start < i {
            let bytes = vstd::slice::slice_subrange(data, start, end);
            match text_of_bytes(bytes) {
                Some(s) => Self::normalize_extracted_path(s.as_str()),
                None => None,
            }
        } else {
            None
        }
    }
}

// ---------------------------------------------------------------------------
// Matching
// ---------------------------------------------------------------------------

/// Whether the path has one of the extensions, in letters of any case.
pub open spec fn has_extension(p: Seq<char>, exts: Seq<Seq<char>>) -> bool {
    match extension_of(p) {
        Some(e) => exists|i: int| 0 <= i < exts.len() && same_but_case(e, #[trigger] exts[i]),
        None => false,
    }
}

/// Whether a file is a debug database.
pub fn is_pdb(p: &str) -> (r: bool)
    ensures
        r == has_extension(p@, seq!["pdb"@]),
{
    match extension(p) {
        Some(e) => {
            let r = eq_ignore_ascii_case(e.as_str(), "pdb");
            let ghost exts = seq!["pdb"@];
            assert(exts[0] == "pdb"@);
            r
        },
        None => false,
    }
}

/// Whether a file is a binary that may have a debug database.
pub fn is_binary(p: &str) -> (r: bool)
    ensures
        r == has_extension(p@, seq!["lib"@, "dll"@, "exe"@, "a"@]),
{
    match extension(p) {
        Some(e) => {
            let ghost exts = seq!["lib"@, "dll"@, "exe"@, "a"@];
            assert(exts[0] == "lib"@ && exts[1] == "dll"@ && exts[2] == "exe"@ && exts[3] == "a"@);
            let t = e.as_str();
            eq_ignore_ascii_case(t, "lib") || eq_ignore_ascii_case(t, "dll")
                || eq_ignore_ascii_case(t, "exe") || eq_ignore_ascii_case(t, "a")
        },
        None => false,
    }
}

/// The file stem of a path, empty where it has none.
pub open spec fn stem_or_empty(p: Seq<char>) -> Seq<char> {
    match file_stem_of(p) {
        Some(s) => s,
        None => ""@,
    }
}

/// Whether a debug database called `pdb` belongs to a binary called `bin`: the names are the
/// same, or the binary's has `lib` in front, or `d` or `-static` at its end.
pub open spec fn stems_match(pdb: Seq<char>, bin: Seq<char>) -> bool {
    ||| same_but_case(pdb, bin)
    ||| (after_prefix(bin, "lib"@) matches Some(s) && same_but_case(pdb, s))
    ||| (bin.len() > 1 && bin.last() == 'd' && same_but_case(pdb, bin.drop_last()))
    ||| (before_suffix(bin, "-static"@) matches Some(s) && same_but_case(pdb, s))
}

fn stem_text(p: &str) -> (r: String)
    ensures
        r@ == stem_or_empty(p@),
{
    match file_stem(p) {
        Some(s) => s,
        None => "".to_owned(),
    }
}

fn debug_suffix_matches(pdb: &str, bin: &str) -> (r: bool)
    ensures
        r == (bin@.len() > 1 && bin@.last() == 'd' && same_but_case(pdb@, bin@.drop_last())),
{
    let cs = chars_of(bin);
    let n: usize = cs.len();
    if n > 1 && cs[n - 1] == 'd' {
        assert(cs@.subrange(0, n - 1) =~= bin@.drop_last());
        let shorter = text_of(&cs, 0, n - 1);
        eq_ignore_ascii_case(pdb, shorter.as_str())
    } else {
        false
    }
}

/// Whether a debug database called `pdb` belongs to a binary called `bin`.
pub fn stem_matches(pdb: &str, bin: &str) -> (r: bool)
    ensures
        r == stems_match(pdb@, bin@),
{
    if eq_ignore_ascii_case(pdb, bin) {
        return true;
    }
    if let Some(s) = strip_prefix(bin, "lib") {
        if eq_ignore_ascii_case(pdb, s.as_str()) {
            return true;
        }
    }
    if debug_suffix_matches(pdb, bin) {
        return true;
    }
    match strip_suffix(bin, "-static") {
        Some(s) => eq_ignore_ascii_case(pdb, s.as_str()),
        None => false,
    }
}

/// The databases with the file name `name`, in letters of any case.
pub open spec fn named_like(pdbs: Seq<Seq<char>>, name: Seq<char>) -> Seq<Seq<char>> {
    pdbs.filter(
        |p: Seq<char>| file_name_of(p) matches Some(n) && same_but_case(n, name),
    )
}

/// The databases that belong to a binary called `bin`.
pub open spec fn matching(pdbs: Seq<Seq<char>>, bin: Seq<char>) -> Seq<Seq<char>> {
    pdbs.filter(|p: Seq<char>| stems_match(stem_or_empty(p), bin))
}

/// What a path inside of a binary leads to: the file itself where it exists, else the databases
/// of the build with its file name.
pub open spec fn led_to(name: Seq<char>, exists_there: bool, pdbs: Seq<Seq<char>>) -> Seq<
    Seq<char>,
> {
    if exists_there {
        seq![name]
    } else {
        match file_name_of(name) {
            Some(f) => named_like(pdbs, f),
            None => Seq::empty(),
        }
    }
}

/// What the paths inside of a binary lead to.
pub open spec fn all_led_to(
    names: Seq<Seq<char>>,
    exist: Seq<bool>,
    pdbs: Seq<Seq<char>>,
) -> Seq<Seq<char>>
    decreases names.len(),
{
    if names.len() == 0 {
        Seq::empty()
    } else {
        all_led_to(names.drop_last(), exist.drop_last(), pdbs) + led_to(
            names.last(),
            exist.last(),
            pdbs,
        )
    }
}

/// Paths filed under themselves.
pub open spec fn keyed(ps: Seq<Seq<char>>) -> Seq<(Seq<char>, ())> {
    ps.map_values(|p: Seq<char>| (p, ()))
}

/// Paths that are in order, each once.
pub open spec fn without_repeats(ps: Seq<(Seq<char>, ())>) -> Seq<Seq<char>>
    decreases ps.len(),
{
    if ps.len() == 0 {
        Seq::empty()
    } else {
        let so_far = without_repeats(ps.drop_last());
        if so_far.len() > 0 && same_path(ps.last().0, so_far.last()) {
            so_far
        } else {
            so_far.push(ps.last().0)
        }
    }
}

/// The databases that may belong to the binary at `bin`, in the order of their paths, each once.
pub open spec fn candidates_of(
    bin: Seq<char>,
    names: Seq<Seq<char>>,
    exist: Seq<bool>,
    pdbs: Seq<Seq<char>>,
) -> Seq<Seq<char>> {
    without_repeats(
        path_sorted(
            keyed(all_led_to(names, exist, pdbs) + matching(pdbs, stem_or_empty(bin))),
        ),
    )
}

/// Whether a file name is that of a compiler's own database (`vc140.pdb` and the like), which
/// belongs to a directory and not to one binary.
pub open spec fn is_compiler_name(name: Seq<char>) -> bool {
    has_prefix(ascii_lower(name), "vc1"@) && encode_utf8(ascii_lower(name)).len() == 9
}

/// The copies to make of one database beside a binary: under its own name, and under the
/// binary's name unless it is a compiler's own.
pub open spec fn copies_of(pdb: Seq<char>, dir: Seq<char>, stem: Seq<char>) -> Seq<
    (Seq<char>, Seq<char>),
> {
    match file_name_of(pdb) {
        Some(name) => {
            let own = seq![(pdb, path_join(dir, name))];
            if is_compiler_name(name) {
                own
            } else {
                own.push((pdb, path_join(dir, stem + ".pdb"@)))
            }
        },
        None => Seq::empty(),
    }
}

/// The copies to make of databases beside a binary.
pub open spec fn all_copies_of(pdbs: Seq<Seq<char>>, dir: Seq<char>, stem: Seq<char>) -> Seq<
    (Seq<char>, Seq<char>),
>
    decreases pdbs.len(),
{
    if pdbs.len() == 0 {
        Seq::empty()
    } else {
        all_copies_of(pdbs.drop_last(), dir, stem) + copies_of(pdbs.last(), dir, stem)
    }
}

/// The copies to make of the databases of a build beside the binary at `bin`: none where the build
/// left no database.
pub open spec fn planned_copies(
    bin: Seq<char>,
    install_prefix: Seq<char>,
    names: Seq<Seq<char>>,
    exist: Seq<bool>,
    pdbs: Seq<Seq<char>>,
) -> Seq<(Seq<char>, Seq<char>)> {
    if pdbs.len() == 0 {
        Seq::empty()
    } else {
        all_copies_of(
            candidates_of(bin, names, exist, pdbs),
            pdb_dir(bin, install_prefix),
            stem_or_empty(bin),
        )
    }
}

/// The first copy from number `tried` on whose target is not there.
pub open spec fn first_absent(present: Seq<bool>, tried: int) -> Option<int>
    decreases present.len() - tried,
{
    if tried < 0 || tried >= present.len() {
        None
    } else if !present[tried] {
        Some(tried)
    } else {
        first_absent(present, tried + 1)
    }
}

/// The directory that the databases of a binary go to: its own.
pub open spec fn pdb_dir(bin: Seq<char>, install_prefix: Seq<char>) -> Seq<char> {
    match parent_of(bin) {
        Some(d) => d,
        None => install_prefix,
    }
}

/// Pairs of texts as views.
pub open spec fn pair_views(v: Seq<(String, String)>) -> Seq<(Seq<char>, Seq<char>)> {
    v.map_values(|e: (String, String)| (e.0@, e.1@))
}

proof fn lemma_filter_step<A>(s: Seq<A>, i: int, f: spec_fn(A) -> bool)
    requires
        0 <= i < s.len(),
    ensures
        s.take(i + 1).filter(f) == if f(s[i]) {
            s.take(i).filter(f).push(s[i])
        } else {
            s.take(i).filter(f)
        },
{
    reveal(Seq::filter);
    assert(s.take(i + 1).drop_last() =~= s.take(i));
}

fn put_named_like(out: &mut Vec<String>, pdbs: &[String], name: &str)
    ensures
        views(final(out)@) == views(old(out)@) + named_like(views(pdbs@), name@),
{
    let ghost start = views(out@);
    let ghost all = views(pdbs@);
    let ghost f = |p: Seq<char>| file_name_of(p) matches Some(n) && same_but_case(n, name@);
    let mut i: usize = 0;
    proof {
        reveal(Seq::filter);
        assert(start + all.take(0).filter(f) =~= start);
    }
    while i < pdbs.len()
        invariant
            i <= pdbs@.len(),
            all == views(pdbs@),
            f == (|p: Seq<char>| file_name_of(p) matches Some(n) && same_but_case(n, name@)),
            views(out@) == start + all.take(i as int).filter(f),
        decreases pdbs@.len() - i,
    {
        let ghost before = views(out@);
        proof {
            lemma_filter_step(all, i as int, f);
        }
        let like = match file_name(pdbs[i].as_str()) {
            Some(n) => eq_ignore_ascii_case(n.as_str(), name),
            None => false,
        };
        if like {
            let p = pdbs[i].clone();
            out.push(p);
            assert(views(out@) =~= before.push(all[i as int]));
        }
        assert(views(out@) =~= start + all.take(i + 1).filter(f));
        i = i + 1;
    }
    assert(all.take(i as int) =~= all);
}

fn put_matching(out: &mut Vec<String>, pdbs: &[String], bin: &str)
    ensures
        views(final(out)@) == views(old(out)@) + matching(views(pdbs@), bin@),
{
    let ghost start = views(out@);
    let ghost all = views(pdbs@);
    let ghost f = |p: Seq<char>| stems_match(stem_or_empty(p), bin@);
    let mut i: usize = 0;
    proof {
        reveal(Seq::filter);
        assert(start + all.take(0).filter(f) =~= start);
    }
    while i < pdbs.len()
        invariant
            i <= pdbs@.len(),
            all == views(pdbs@),
            f == (|p: Seq<char>| stems_match(stem_or_empty(p), bin@)),
            views(out@) == start + all.take(i as int).filter(f),
        decreases pdbs@.len() - i,
    {
        let ghost before = views(out@);
        proof {
            lemma_filter_step(all, i as int, f);
        }
        let stem = stem_text(pdbs[i].as_str());
        if stem_matches(stem.as_str(), bin) {
            let p = pdbs[i].clone();
            out.push(p);
            assert(views(out@) =~= before.push(all[i as int]));
        }
        assert(views(out@) =~= start + all.take(i + 1).filter(f));
        i = i + 1;
    }
    assert(all.take(i as int) =~= all);
}

fn put_led_to(out: &mut Vec<String>, names: &[String], exist: &[bool], pdbs: &[String])
    requires
        names@.len() == exist@.len(),
    ensures
        views(final(out)@) == views(old(out)@) + all_led_to(views(names@), exist@, views(pdbs@)),
{
    let ghost start = views(out@);
    let ghost all = views(names@);
    let ghost known = views(pdbs@);
    let mut i: usize = 0;
    assert(start + all_led_to(all.take(0), exist@.take(0), known) =~= start);
    while i < names.len()
        invariant
            i <= names@.len() == exist@.len(),
            all == views(names@),
            known == views(pdbs@),
            views(out@) == start + all_led_to(all.take(i as int), exist@.take(i as int), known),
        decreases names@.len() - i,
    {
        assert(all.take(i + 1).drop_last() =~= all.take(i as int));
        assert(exist@.take(i + 1).drop_last() =~= exist@.take(i as int));
        assert(all.take(i + 1).last() == names@[i as int]@);
        assert(exist@.take(i + 1).last() == exist@[i as int]);
        let ghost before = views(out@);
        if exist[i] {
            let p = names[i].clone();
            out.push(p);
            assert(views(out@) =~= before + seq![names@[i as int]@]);
        } else if let Some(f) = file_name(names[i].as_str()) {
            put_named_like(out, pdbs, f.as_str());
        } else {
            assert(before + Seq::<Seq<char>>::empty() =~= before);
        }
        assert(views(out@) == before + led_to(names@[i as int]@, exist@[i as int], known));
        assert(views(out@) =~= start + all_led_to(all.take(i + 1), exist@.take(i + 1), known));
        i = i + 1;
    }
    assert(all.take(i as int) =~= all);
    assert(exist@.take(i as int) =~= exist@);
}

fn sorted_once(ps: Vec<String>) -> (r: Vec<String>)
    ensures
        views(r@) == without_repeats(path_sorted(keyed(views(ps@)))),
{
    let mut pairs: Vec<(String, ())> = Vec::new();
    let mut i: usize = 0;
    while i < ps.len()
        invariant
            i <= ps@.len(),
            pairs@.len() == i,
            forall|k: int| 0 <= k < i ==> (#[trigger] pairs@[k]).0@ == ps@[k]@,
        decreases ps@.len() - i,
    {
        let p = ps[i].clone();
        pairs.push((p, ()));
        i = i + 1;
    }
    assert(entries_view(pairs@) =~= keyed(views(ps@)));
    let sorted = sort_by_path(pairs);
    let ghost all = path_sorted(keyed(views(ps@)));
    assert(entries_view(sorted@) == all);
    let mut out: Vec<String> = Vec::new();
    let mut j: usize = 0;
    assert(views(out@) =~= without_repeats(all.take(0)));
    while j < sorted.len()
        invariant
            j <= sorted@.len(),
            entries_view(sorted@) == all,
            views(out@) == without_repeats(all.take(j as int)),
        decreases sorted@.len() - j,
    {
        assert(all.take(j + 1).drop_last() =~= all.take(j as int));
        assert(all.take(j + 1).last().0 == sorted@[j as int].0@);
        let n: usize = out.len();
        let ghost before = views(out@);
        let repeated = n > 0 && path_eq(sorted[j].0.as_str(), out[n - 1].as_str());
        if !repeated {
            let p = sorted[j].0.clone();
            out.push(p);
            assert(views(out@) =~= before.push(sorted@[j as int].0@));
        }
        j = j + 1;
    }
    assert(all.take(j as int) =~= all);
    out
}

fn put_copies(out: &mut Vec<(String, String)>, pdb: &str, dir: &str, stem: &str)
    ensures
        pair_views(final(out)@) == pair_views(old(out)@) + copies_of(pdb@, dir@, stem@),
{
    let ghost before = pair_views(out@);
    if let Some(name) = file_name(pdb) {
        let own = join_path(dir, name.as_str());
        out.push((pdb.to_owned(), own));
        let l = to_ascii_lowercase(name.as_str());
        let compiler = starts_with(l.as_str(), "vc1") && l.as_str().as_bytes().len() == 9;
        if !compiler {
            let beside = cat2(stem, ".pdb");
            let dest = join_path(dir, beside.as_str());
            out.push((pdb.to_owned(), dest));
        }
    }
    assert(pair_views(out@) =~= before + copies_of(pdb@, dir@, stem@));
}

impl CMakeRunner {
    /// The debug databases that may belong to the binary at `bin_path`. `names` are the paths that
    /// the binary names, `exist` says which of them exist, and `bld_pdbs` are the databases that
    /// the build left.
    pub fn candidate_pdbs(
        bin_path: &str,
        names: &[String],
        exist: &[bool],
        bld_pdbs: &[String],
    ) -> (r: Vec<String>)
        requires
            names@.len() == exist@.len(),
        ensures
            views(r@) == candidates_of(bin_path@, views(names@), exist@, views(bld_pdbs@)),
    {
        let mut found: Vec<String> = Vec::new();
        assert(views(found@) =~= Seq::<Seq<char>>::empty());
        put_led_to(&mut found, names, exist, bld_pdbs);
        assert(views(found@) =~= all_led_to(views(names@), exist@, views(bld_pdbs@)));
        let stem = stem_text(bin_path);
        put_matching(&mut found, bld_pdbs, stem.as_str());
        sorted_once(found)
    }

    /// The copies of debug databases to make beside the binary at `bin_path`, from where and to
    /// where, each unless something is there already (see `next_pdb_copy`).
    pub fn auto_install_pdbs(
        bin_path: &str,
        install_prefix: &str,
        names: &[String],
        exist: &[bool],
        bld_pdbs: &[String],
    ) -> (r: Vec<(String, String)>)
        requires
            names@.len() == exist@.len(),
        ensures
            pair_views(r@) == planned_copies(
                bin_path@,
                install_prefix@,
                views(names@),
                exist@,
                views(bld_pdbs@),
            ),
    {
        if bld_pdbs.len() == 0 {
            let none: Vec<(String, String)> = Vec::new();
            assert(pair_views(none@) =~= Seq::<(Seq<char>, Seq<char>)>::empty());
            return none;
        }
        let candidates = Self::candidate_pdbs(bin_path, names, exist, bld_pdbs);
        let dir = match parent(bin_path) {
            Some(d) => d,
            None => install_prefix.to_owned(),
        };
        let stem = stem_text(bin_path);
        let ghost all = views(candidates@);
        let mut out: Vec<(String, String)> = Vec::new();
        let mut i: usize = 0;
        assert(pair_views(out@) =~= all_copies_of(all.take(0), dir@, stem@));
        while i < candidates.len()
            invariant
                i <= candidates@.len(),
                all == views(candidates@),
                pair_views(out@) == all_copies_of(all.take(i as int), dir@, stem@),
            decreases candidates@.len() - i,
        {
            assert(all.take(i + 1).drop_last() =~= all.take(i as int));
            assert(all.take(i + 1).last() == candidates@[i as int]@);
            put_copies(&mut out, candidates[i].as_str(), dir.as_str(), stem.as_str());
            i = i + 1;
        }
        assert(all.take(i as int) =~= all);
        out
    }

    /// The number of the copy to make next, of planned copies of which the first `tried` are
    /// settled. `present` says of each whether its target is there now: nothing is overwritten.
    pub fn next_pdb_copy(tried: usize, present: &[bool]) -> (r: Option<usize>)
        ensures
            match r {
                Some(i) => first_absent(present@, tried as int) == Some(i as int),
                None => first_absent(present@, tried as int) is None,
            },
    {
        let mut i: usize = tried;
        while i < present.len()
            invariant
                tried <= i,
                i <= present@.len() || i == tried,
                first_absent(present@, tried as int) == first_absent(present@, i as int),
            decreases present@.len() - i,
        {
            if !present[i] {
                return Some(i);
            }
            i = i + 1;
        }
        None
    }
}

// ---------------------------------------------------------------------------
// What is promised of the copies
// ---------------------------------------------------------------------------

/// Only the given databases are copied, and only into the given directory.
pub proof fn copies_go_beside_the_binary(pdbs: Seq<Seq<char>>, dir: Seq<char>, stem: Seq<char>)
    ensures
        forall|k: int|
            0 <= k < all_copies_of(pdbs, dir, stem).len() ==> pdbs.contains(
                (#[trigger] all_copies_of(pdbs, dir, stem)[k]).0,
            ) && (exists|name: Seq<char>|
                all_copies_of(pdbs, dir, stem)[k].1 == #[trigger] path_join(dir, name)),
    decreases pdbs.len(),
{
    if pdbs.len() > 0 {
        let init = pdbs.drop_last();
        let old_copies = all_copies_of(init, dir, stem);
        let all = all_copies_of(pdbs, dir, stem);
        copies_go_beside_the_binary(init, dir, stem);
        assert forall|k: int| 0 <= k < all.len() implies pdbs.contains((#[trigger] all[k]).0) && (
        exists|name: Seq<char>| all[k].1 == #[trigger] path_join(dir, name)) by {
            if k < old_copies.len() {
                assert(all[k] == old_copies[k]);
                let m = choose|m: int| 0 <= m < init.len() && init[m] == old_copies[k].0;
                assert(pdbs[m] == all[k].0);
            } else {
                let c = copies_of(pdbs.last(), dir, stem)[k - old_copies.len()];
                assert(all[k] == c);
                assert(pdbs[pdbs.len() - 1] == c.0);
                let name = file_name_of(pdbs.last())->0;
                if c.1 == path_join(dir, name) {
                } else {
                    assert(c.1 == path_join(dir, stem + ".pdb"@));
                }
            }
        }
    }
}

/// Which targets of planned copies are files.
pub open spec fn targets_in(
    files: Map<Seq<char>, Seq<u8>>,
    planned: Seq<(Seq<char>, Seq<char>)>,
) -> Seq<bool> {
    planned.map_values(|c: (Seq<char>, Seq<char>)| files.dom().contains(c.1))
}

/// The files after the planned copies from number `tried` on were made, each that is next in its
/// turn, where the copy of number `i` goes through if `works[i]` says so.
pub open spec fn after_copies(
    files: Map<Seq<char>, Seq<u8>>,
    planned: Seq<(Seq<char>, Seq<char>)>,
    tried: int,
    works: Seq<bool>,
) -> Map<Seq<char>, Seq<u8>>
    decreases planned.len() - tried,
{
    match first_absent(targets_in(files, planned), tried) {
        Some(i) => if i < tried || i >= planned.len() {
            files
        } else if works[i] {
            after_copies(
                files.insert(planned[i].1, files[planned[i].0]),
                planned,
                i + 1,
                works,
            )
        } else {
            after_copies(files, planned, i + 1, works)
        },
        None => files,
    }
}

proof fn lemma_first_absent(present: Seq<bool>, tried: int)
    requires
        0 <= tried,
    ensures
        match first_absent(present, tried) {
            Some(i) => tried <= i < present.len() && !present[i] && forall|k: int|
                tried <= k < i ==> #[trigger] present[k],
            None => forall|k: int| tried <= k < present.len() ==> #[trigger] present[k],
        },
    decreases present.len() - tried,
{
    if tried < present.len() && present[tried] {
        lemma_first_absent(present, tried + 1);
    }
}

/// Copying changes no file that was there, and every new file is at the target of a planned copy
/// and holds what its source held, whichever copies go through.
pub proof fn copies_overwrite_nothing(
    files: Map<Seq<char>, Seq<u8>>,
    planned: Seq<(Seq<char>, Seq<char>)>,
    tried: int,
    works: Seq<bool>,
)
    requires
        0 <= tried,
        forall|i: int| 0 <= i < planned.len() ==> files.dom().contains((#[trigger] planned[i]).0),
    ensures
        files.submap_of(after_copies(files, planned, tried, works)),
        forall|p: Seq<char>| #[trigger]
            after_copies(files, planned, tried, works).dom().contains(p) && !files.dom().contains(p)
                ==> exists|i: int|
                tried <= i < planned.len() && (#[trigger] planned[i]).1 == p && after_copies(
                    files,
                    planned,
                    tried,
                    works,
                )[p] == files[planned[i].0],
    decreases planned.len() - tried,
{
    let present = targets_in(files, planned);
    let out = after_copies(files, planned, tried, works);
    lemma_first_absent(present, tried);
    if let Some(i) = first_absent(present, tried) {
        assert(!files.dom().contains(planned[i].1));
        assert(files.dom().contains(planned[i].0));
        let next = if works[i] {
            files.insert(planned[i].1, files[planned[i].0])
        } else {
            files
        };
        assert forall|k: int| 0 <= k < planned.len() implies next.dom().contains(
            (#[trigger] planned[k]).0,
        ) && next[planned[k].0] == files[planned[k].0] by {
            assert(files.dom().contains(planned[k].0));
        }
        copies_overwrite_nothing(next, planned, i + 1, works);
        assert forall|p: Seq<char>| #[trigger]
            out.dom().contains(p) && !files.dom().contains(p) implies exists|k: int|
            tried <= k < planned.len() && (#[trigger] planned[k]).1 == p && out[p]
                == files[planned[k].0] by {
            if next.dom().contains(p) {
                assert(planned[i].1 == p);
                assert(out[p] == next[p]);
            } else {
                let k = choose|k: int|
                    i + 1 <= k < planned.len() && (#[trigger] planned[k]).1 == p && out[p]
                        == next[planned[k].0];
                assert(planned[k].1 == p);
            }
        }
        assert(files.submap_of(out)) by {
            assert forall|p: Seq<char>| #[trigger] files.dom().contains(p) implies out.dom().contains(
                p,
            ) && out[p] == files[p] by {
                assert(next.dom().contains(p));
            }
        }
    }
}

proof fn lemma_without_repeats(ps: Seq<(Seq<char>, ())>)
    requires
        in_path_order(ps),
    ensures
        ps.len() > 0 ==> without_repeats(ps).len() > 0 && same_path(
            without_repeats(ps).last(),
            ps.last().0,
        ),
        forall|i: int, j: int|
            0 <= i < j < without_repeats(ps).len() ==> path_before(
                #[trigger] without_repeats(ps)[i],
                #[trigger] without_repeats(ps)[j],
            ),
    decreases ps.len(),
{
    if ps.len() > 0 {
        let init = ps.drop_last();
        let e = ps.last().0;
        assert(in_path_order(init)) by {
            assert forall|i: int, j: int| 0 <= i < j < init.len() implies !path_before(
                #[trigger] init[j].0,
                #[trigger] init[i].0,
            ) by {
                assert(init[i] == ps[i] && init[j] == ps[j]);
            }
        }
        lemma_without_repeats(init);
        let w = without_repeats(init);
        let out = without_repeats(ps);
        if w.len() > 0 && same_path(e, w.last()) {
        } else {
            assert forall|i: int, j: int| 0 <= i < j < out.len() implies path_before(
                #[trigger] out[i],
                #[trigger] out[j],
            ) by {
                if j == w.len() {
                    let last = w.last();
                    assert(init.len() > 0) by {
                        if init.len() == 0 {
                            assert(w.len() == 0);
                        }
                    }
                    assert(!path_before(ps[ps.len() - 1].0, ps[init.len() - 1].0));
                    assert(init.last() == ps[init.len() - 1]);
                    path_order_is_total(last, e);
                    assert(path_before(last, e));
                    if i < w.len() - 1 {
                        assert(path_before(w[i], w[w.len() - 1]));
                        path_order_is_transitive(w[i], last, e);
                    }
                } else {
                    assert(out[i] == w[i] && out[j] == w[j]);
                }
            }
        }
    }
}

/// The candidates come in the order of their paths, none of them twice.
pub proof fn candidates_rise(
    bin: Seq<char>,
    names: Seq<Seq<char>>,
    exist: Seq<bool>,
    pdbs: Seq<Seq<char>>,
)
    ensures
        forall|i: int, j: int|
            0 <= i < j < candidates_of(bin, names, exist, pdbs).len() ==> path_before(
                #[trigger] candidates_of(bin, names, exist, pdbs)[i],
                #[trigger] candidates_of(bin, names, exist, pdbs)[j],
            ),
{
    let found = keyed(all_led_to(names, exist, pdbs) + matching(pdbs, stem_or_empty(bin)));
    sorting_orders_the_same_entries(found);
    lemma_without_repeats(path_sorted(found));
}

/// Whether `pdb` belongs to the binary at `bin`: the binary names it and it exists, the build left
/// it and the binary names a missing file that is called like it, or the build left it and its
/// stem matches that of the binary.
pub open spec fn belongs_to(
    pdb: Seq<char>,
    bin: Seq<char>,
    names: Seq<Seq<char>>,
    exist: Seq<bool>,
    pdbs: Seq<Seq<char>>,
) -> bool {
    ||| exists|i: int| 0 <= i < names.len() && exist[i] && #[trigger] names[i] == pdb
    ||| pdbs.contains(pdb) && exists|i: int|
        0 <= i < names.len() && !exist[i] && (file_name_of(#[trigger] names[i]) matches Some(f)
            && file_name_of(pdb) matches Some(n) && same_but_case(n, f))
    ||| pdbs.contains(pdb) && stems_match(stem_or_empty(pdb), stem_or_empty(bin))
}

proof fn lemma_filtered<A>(s: Seq<A>, f: spec_fn(A) -> bool, x: A)
    requires
        s.filter(f).contains(x),
    ensures
        s.contains(x),
        f(x),
    decreases s.len(),
{
    reveal(Seq::filter);
    if s.len() > 0 {
        let init = s.drop_last();
        if init.filter(f).contains(x) {
            lemma_filtered(init, f, x);
            let k = choose|k: int| 0 <= k < init.len() && init[k] == x;
            assert(s[k] == x);
        } else {
            let k = choose|k: int| 0 <= k < s.filter(f).len() && s.filter(f)[k] == x;
            if k < init.filter(f).len() {
                assert(init.filter(f)[k] == x);
            }
            assert(s[s.len() - 1] == x);
        }
    }
}

proof fn lemma_led_to(
    pdb: Seq<char>,
    bin: Seq<char>,
    names: Seq<Seq<char>>,
    exist: Seq<bool>,
    pdbs: Seq<Seq<char>>,
)
    requires
        names.len() == exist.len(),
        all_led_to(names, exist, pdbs).contains(pdb),
    ensures
        belongs_to(pdb, bin, names, exist, pdbs),
    decreases names.len(),
{
    if names.len() > 0 {
        let init = all_led_to(names.drop_last(), exist.drop_last(), pdbs);
        let own = led_to(names.last(), exist.last(), pdbs);
        let last = names.len() - 1;
        assert(names[last] == names.last() && exist[last] == exist.last());
        if init.contains(pdb) {
            lemma_led_to(pdb, bin, names.drop_last(), exist.drop_last(), pdbs);
            assert forall|i: int| 0 <= i < last implies #[trigger] names.drop_last()[i] == names[i]
                && exist.drop_last()[i] == exist[i] by {}
        } else {
            let k = choose|k: int| 0 <= k < (init + own).len() && (init + own)[k] == pdb;
            if k < init.len() {
                assert(init[k] == pdb);
            }
            assert(own[k - init.len()] == pdb);
            assert(own.contains(pdb));
            if !exist.last() {
                if let Some(f) = file_name_of(names.last()) {
                    lemma_filtered(
                        pdbs,
                        |p: Seq<char>| file_name_of(p) matches Some(n) && same_but_case(n, f),
                        pdb,
                    );
                }
            }
        }
    }
}

proof fn lemma_repeats_only_leave(ps: Seq<(Seq<char>, ())>, x: Seq<char>)
    requires
        without_repeats(ps).contains(x),
    ensures
        ps.contains((x, ())),
    decreases ps.len(),
{
    if ps.len() > 0 {
        let init = ps.drop_last();
        if without_repeats(init).contains(x) {
            lemma_repeats_only_leave(init, x);
            let k = choose|k: int| 0 <= k < init.len() && init[k] == (x, ());
            assert(ps[k] == (x, ()));
        } else {
            let all = without_repeats(ps);
            let k = choose|k: int| 0 <= k < all.len() && all[k] == x;
            if k < without_repeats(init).len() {
                assert(without_repeats(init)[k] == x);
            }
            assert(ps[ps.len() - 1] == (x, ()));
        }
    }
}

/// Every candidate belongs to the binary: no other database is copied.
pub proof fn candidates_belong_to_the_binary(
    bin: Seq<char>,
    names: Seq<Seq<char>>,
    exist: Seq<bool>,
    pdbs: Seq<Seq<char>>,
    pdb: Seq<char>,
)
    requires
        names.len() == exist.len(),
        candidates_of(bin, names, exist, pdbs).contains(pdb),
    ensures
        belongs_to(pdb, bin, names, exist, pdbs),
{
    broadcast use vstd::seq_lib::group_to_multiset_ensures;

    let led = all_led_to(names, exist, pdbs);
    let like = matching(pdbs, stem_or_empty(bin));
    let found = keyed(led + like);
    sorting_orders_the_same_entries(found);
    lemma_repeats_only_leave(path_sorted(found), pdb);
    assert(path_sorted(found).to_multiset().contains((pdb, ())));
    assert(found.contains((pdb, ())));
    let k = choose|k: int| 0 <= k < found.len() && found[k] == (pdb, ());
    assert((led + like)[k] == pdb);
    if k < led.len() {
        assert(led[k] == pdb);
        lemma_led_to(pdb, bin, names, exist, pdbs);
    } else {
        assert(like[k - led.len()] == pdb);
        lemma_filtered(
            pdbs,
            |p: Seq<char>| stems_match(stem_or_empty(p), stem_or_empty(bin)),
            pdb,
        );
    }
}

proof fn lemma_kept_by_filter<A>(s: Seq<A>, f: spec_fn(A) -> bool, x: A)
    requires
        s.contains(x),
        f(x),
    ensures
        s.filter(f).contains(x),
    decreases s.len(),
{
    reveal(Seq::filter);
    let init = s.drop_last();
    let k = choose|k: int| 0 <= k < s.len() && s[k] == x;
    if k < init.len() {
        assert(init[k] == x);
        lemma_kept_by_filter(init, f, x);
        let i = choose|i: int| 0 <= i < init.filter(f).len() && init.filter(f)[i] == x;
        assert(s.filter(f)[i] == x);
    } else {
        assert(s.filter(f).last() == x);
    }
}

proof fn lemma_leads_to_all(
    names: Seq<Seq<char>>,
    exist: Seq<bool>,
    pdbs: Seq<Seq<char>>,
    i: int,
    pdb: Seq<char>,
)
    requires
        names.len() == exist.len(),
        0 <= i < names.len(),
        led_to(names[i], exist[i], pdbs).contains(pdb),
    ensures
        all_led_to(names, exist, pdbs).contains(pdb),
    decreases names.len(),
{
    let front = all_led_to(names.drop_last(), exist.drop_last(), pdbs);
    let own = led_to(names.last(), exist.last(), pdbs);
    if i < names.len() - 1 {
        lemma_leads_to_all(names.drop_last(), exist.drop_last(), pdbs, i, pdb);
        let k = choose|k: int| 0 <= k < front.len() && front[k] == pdb;
        assert((front + own)[k] == pdb);
    } else {
        let k = choose|k: int| 0 <= k < own.len() && own[k] == pdb;
        assert((front + own)[front.len() + k] == pdb);
    }
}

proof fn lemma_no_path_is_lost(ps: Seq<(Seq<char>, ())>, i: int)
    requires
        0 <= i < ps.len(),
    ensures
        exists|k: int|
            0 <= k < without_repeats(ps).len() && same_path(
                #[trigger] without_repeats(ps)[k],
                ps[i].0,
            ),
    decreases ps.len(),
{
    let init = ps.drop_last();
    let less = without_repeats(init);
    let all = without_repeats(ps);
    if i < init.len() {
        lemma_no_path_is_lost(init, i);
        let k = choose|k: int|
            0 <= k < less.len() && same_path(#[trigger] less[k], init[i].0);
        assert(all[k] == less[k]);
    } else {
        assert(same_path(all[all.len() - 1], ps[i].0));
    }
}

/// Every database that belongs to the binary is a candidate, by its path.
pub proof fn what_belongs_to_the_binary_is_a_candidate(
    bin: Seq<char>,
    names: Seq<Seq<char>>,
    exist: Seq<bool>,
    pdbs: Seq<Seq<char>>,
    pdb: Seq<char>,
)
    requires
        names.len() == exist.len(),
        belongs_to(pdb, bin, names, exist, pdbs),
    ensures
        exists|k: int|
            0 <= k < candidates_of(bin, names, exist, pdbs).len() && same_path(
                #[trigger] candidates_of(bin, names, exist, pdbs)[k],
                pdb,
            ),
{
    broadcast use vstd::seq_lib::group_to_multiset_ensures;

    let led = all_led_to(names, exist, pdbs);
    let like = matching(pdbs, stem_or_empty(bin));
    let found = keyed(led + like);
    let sorted = path_sorted(found);
    sorting_orders_the_same_entries(found);
    assert(found.contains((pdb, ()))) by {
        if pdbs.contains(pdb) && stems_match(stem_or_empty(pdb), stem_or_empty(bin)) {
            lemma_kept_by_filter(
                pdbs,
                |p: Seq<char>| stems_match(stem_or_empty(p), stem_or_empty(bin)),
                pdb,
            );
            let k = choose|k: int| 0 <= k < like.len() && like[k] == pdb;
            assert((led + like)[led.len() + k] == pdb);
            assert(found[led.len() + k] == (pdb, ()));
        } else {
            let i = if exists|i: int|
                0 <= i < names.len() && exist[i] && #[trigger] names[i] == pdb {
                choose|i: int| 0 <= i < names.len() && exist[i] && #[trigger] names[i] == pdb
            } else {
                choose|i: int|
                    0 <= i < names.len() && !exist[i] && (file_name_of(#[trigger] names[i]) matches
                        Some(f) && file_name_of(pdb) matches Some(n) && same_but_case(n, f))
            };
            if exist[i] {
                assert(led_to(names[i], exist[i], pdbs)[0] == pdb);
            } else {
                let f = file_name_of(names[i])->0;
                lemma_kept_by_filter(
                    pdbs,
                    |p: Seq<char>| file_name_of(p) matches Some(n) && same_but_case(n, f),
                    pdb,
                );
            }
            lemma_leads_to_all(names, exist, pdbs, i, pdb);
            let k = choose|k: int| 0 <= k < led.len() && led[k] == pdb;
            assert((led + like)[k] == pdb);
            assert(found[k] == (pdb, ()));
        }
    }
    assert(found.to_multiset().contains((pdb, ())));
    assert(sorted.contains((pdb, ())));
    let k = choose|k: int| 0 <= k < sorted.len() && sorted[k] == (pdb, ());
    lemma_no_path_is_lost(sorted, k);
    let kept = candidates_of(bin, names, exist, pdbs);
    assert(kept == without_repeats(sorted));
    let i = choose|i: int|
        0 <= i < without_repeats(sorted).len() && same_path(
            #[trigger] without_repeats(sorted)[i],
            sorted[k].0,
        );
    assert(same_path(kept[i], pdb));
}

proof fn lemma_stems_that_match(pdb: Seq<char>)
    ensures
        stems_match(pdb, pdb),
        stems_match(pdb, "lib"@ + pdb),
        pdb.len() > 0 ==> stems_match(pdb, pdb + "d"@),
        stems_match(pdb, pdb + "-static"@),
{
    reveal_strlit("d");
    what_is_left_without_an_end("lib"@ + pdb, "lib"@, pdb);
    what_is_left_without_an_end(pdb + "-static"@, "-static"@, pdb);
    assert((pdb + "d"@).drop_last() =~= pdb);
}

proof fn lemma_stem_behind(pdb: Seq<char>, bin: Seq<char>)
    ensures
        after_prefix(bin, "lib"@) matches Some(s) ==> bin == "lib"@ + s && (same_but_case(pdb, s)
            <==> equal_but_case(pdb, s)),
        before_suffix(bin, "-static"@) matches Some(s) ==> bin == s + "-static"@ && (same_but_case(
            pdb,
            s,
        ) <==> equal_but_case(pdb, s)),
        bin.len() > 1 && bin.last() == 'd' ==> bin == bin.drop_last() + "d"@ && (same_but_case(
            pdb,
            bin.drop_last(),
        ) <==> equal_but_case(pdb, bin.drop_last())),
{
    reveal_strlit("d");
    if let Some(s) = after_prefix(bin, "lib"@) {
        what_is_left_without_an_end(bin, "lib"@, s);
        small_letters_forget_only_case(pdb, s);
    }
    if let Some(s) = before_suffix(bin, "-static"@) {
        what_is_left_without_an_end(bin, "-static"@, s);
        small_letters_forget_only_case(pdb, s);
    }
    if bin.len() > 1 && bin.last() == 'd' {
        small_letters_forget_only_case(pdb, bin.drop_last());
        assert(bin =~= bin.drop_last() + "d"@);
    }
}

/// A database and a binary match where their stems are the same but for case, where the binary's
/// has `lib` in front, a `d` behind it or `-static` behind it besides, and nowhere else.
pub proof fn which_stems_match(pdb: Seq<char>, bin: Seq<char>)
    ensures
        stems_match(pdb, pdb),
        stems_match(pdb, "lib"@ + pdb),
        pdb.len() > 0 ==> stems_match(pdb, pdb + "d"@),
        stems_match(pdb, pdb + "-static"@),
        equal_but_case(pdb, bin) ==> stems_match(pdb, bin),
        stems_match(pdb, bin) && !equal_but_case(pdb, bin) ==> exists|s: Seq<char>|
            #[trigger] equal_but_case(pdb, s) && (bin == "lib"@ + s || bin == s + "d"@ || bin == s
                + "-static"@),
{
    lemma_stems_that_match(pdb);
    lemma_stem_behind(pdb, bin);
    small_letters_forget_only_case(pdb, bin);
}

/// A file is of a kind where its extension is one of the kind's, but for case.
pub proof fn a_file_is_known_by_its_extension(p: Seq<char>, a: Seq<char>, b: Seq<char>)
    ensures
        extension_of(p) is None ==> !has_extension(p, seq![a, b]),
        extension_of(p) matches Some(e) ==> (has_extension(p, seq![a, b]) <==> equal_but_case(e, a)
            || equal_but_case(e, b)),
        extension_of(p) matches Some(e) ==> (has_extension(p, seq![a]) <==> equal_but_case(e, a)),
{
    if let Some(e) = extension_of(p) {
        small_letters_forget_only_case(e, a);
        small_letters_forget_only_case(e, b);
        let two = seq![a, b];
        assert(two[0] == a && two[1] == b);
        let one = seq![a];
        assert(one[0] == a);
    }
}

/// A database goes beside the binary under its own name, and under the binary's name too unless it
/// is one that the compiler names by itself. It goes nowhere where it has no name.
pub proof fn a_database_goes_under_its_name_and_the_name_of_the_binary(
    pdb: Seq<char>,
    dir: Seq<char>,
    stem: Seq<char>,
    pdbs: Seq<Seq<char>>,
)
    ensures
        file_name_of(pdb) is None ==> copies_of(pdb, dir, stem).len() == 0,
        file_name_of(pdb) matches Some(name) ==> {
            &&& is_compiler_name(name) ==> copies_of(pdb, dir, stem) == seq![
                (pdb, path_join(dir, name)),
            ]
            &&& !is_compiler_name(name) ==> copies_of(pdb, dir, stem) == seq![
                (pdb, path_join(dir, name)),
                (pdb, path_join(dir, stem + ".pdb"@)),
            ]
        },
        all_copies_of(pdbs.push(pdb), dir, stem) == all_copies_of(pdbs, dir, stem) + copies_of(
            pdb,
            dir,
            stem,
        ),
        all_copies_of(Seq::empty(), dir, stem).len() == 0,
{
    if let Some(name) = file_name_of(pdb) {
        if !is_compiler_name(name) {
            assert(copies_of(pdb, dir, stem) =~= seq![
                (pdb, path_join(dir, name)),
                (pdb, path_join(dir, stem + ".pdb"@)),
            ]);
        }
    }
    let all = pdbs.push(pdb);
    assert(all.drop_last() =~= pdbs);
    assert(all.last() == pdb);
}

/// The names that the compiler gives by itself are `vc1` and six characters more, in either case.
pub proof fn the_names_that_the_compiler_gives(name: Seq<char>)
    requires
        is_ascii_chars(name),
    ensures
        is_compiler_name(name) <==> name.len() == 9 && equal_but_case(name.take(3), "vc1"@),
{
    let low = ascii_lower(name);
    reveal_strlit("vc1");
    assert(is_ascii_chars(low)) by {
        assert forall|i: int| 0 <= i < low.len() implies '\0' <= #[trigger] low[i] <= '\u{7f}' by {
            assert(low[i] == ascii_lower_char(name[i]));
        }
    }
    is_ascii_chars_encode_utf8(low);
    assert(low.len() == name.len());
    if name.len() >= 3 {
        assert(low.take(3) =~= ascii_lower(name.take(3)));
        assert(ascii_lower("vc1"@) =~= "vc1"@);
        small_letters_forget_only_case(name.take(3), "vc1"@);
    }
}

/// The databases of a binary go where the binary is, and only where the build left any.
pub proof fn databases_go_where_the_binary_is(
    bin: Seq<char>,
    install_prefix: Seq<char>,
    names: Seq<Seq<char>>,
    exist: Seq<bool>,
    pdbs: Seq<Seq<char>>,
)
    ensures
        pdbs.len() == 0 ==> planned_copies(bin, install_prefix, names, exist, pdbs).len() == 0,
        pdbs.len() > 0 ==> (parent_of(bin) matches Some(dir) ==> planned_copies(
            bin,
            install_prefix,
            names,
            exist,
            pdbs,
        ) == all_copies_of(candidates_of(bin, names, exist, pdbs), dir, stem_or_empty(bin))),
        file_stem_of(bin) matches Some(s) ==> stem_or_empty(bin) == s,
{
}

/// The next copy to make is the first from there on whose place is free.
pub proof fn the_next_copy_is_the_first_that_is_missing(present: Seq<bool>, tried: int)
    requires
        0 <= tried,
    ensures
        first_absent(present, tried) matches Some(i) ==> tried <= i < present.len() && !present[i]
            && forall|j: int| tried <= j < i ==> #[trigger] present[j],
        first_absent(present, tried) is None ==> forall|j: int|
            tried <= j < present.len() ==> #[trigger] present[j],
    decreases present.len() - tried,
{
    if tried < present.len() && present[tried] {
        the_next_copy_is_the_first_that_is_missing(present, tried + 1);
    }
}

/// A text with a name of a database in it ends in `.pdb`, in either case; the name is an end of the
/// text without the white space around it.
pub proof fn a_name_of_a_database_ends_a_text(s: Seq<char>)
    ensures
        path_in(s) is Some <==> trimmed(s).len() >= 4 && equal_but_case(
            trimmed(s).skip(trimmed(s).len() - 4),
            ".pdb"@,
        ),
        path_in(s) matches Some(p) ==> has_suffix(trimmed(s), p),
{
    let t = trimmed(s);
    let low = ascii_lower(t);
    reveal_strlit(".pdb");
    assert(low.len() == t.len());
    if t.len() >= 4 {
        let end = t.skip(t.len() - 4);
        assert(low.skip(low.len() - 4) =~= ascii_lower(end));
        assert(ascii_lower(".pdb"@) =~= ".pdb"@);
        small_letters_forget_only_case(end, ".pdb"@);
    }
    if path_in(s) is Some {
        assert(t.skip(0) =~= t);
        if let Some(i) = drive_start(t) {
            lemma_drive_start(t);
            assert(t.skip(t.len() - t.skip(i).len()) =~= t.skip(i));
        } else if let Some(w) = last_word(t) {
            trimming_takes_white_space_off(s);
            lemma_last_word(t);
        }
    }
}

proof fn lemma_drive_start(t: Seq<char>)
    ensures
        drive_start(t) matches Some(i) ==> 0 <= i <= t.len(),
{
    lemma_last_place(t, ":\\"@, t.len() - ":\\"@.len());
    lemma_last_place(t, ":/"@, t.len() - ":/"@.len());
}

proof fn lemma_last_place(s: Seq<char>, p: Seq<char>, i: int)
    ensures
        find_last_from(s, p, i) matches Some(k) ==> 0 <= k <= i && occurs_at(s, p, k),
    decreases i + 1,
{
    if i >= 0 && !occurs_at(s, p, i) {
        lemma_last_place(s, p, i - 1);
    }
}

proof fn lemma_last_word(t: Seq<char>)
    requires
        t.len() > 0,
        !is_space(t.last()),
    ensures
        last_word(t) matches Some(w) ==> has_suffix(t, w),
{
    assert(without_trailing(t) == t);
    lemma_word_start(t);
    let w = t.skip(word_start(t));
    assert(t.skip(t.len() - w.len()) =~= w);
}

proof fn lemma_word_start(s: Seq<char>)
    ensures
        0 <= word_start(s) <= s.len(),
    decreases s.len(),
{
    if s.len() > 0 && !is_space(s.last()) {
        lemma_word_start(s.drop_last());
    }
}

/// Every name of a database that stands in a file is found, wherever it stands.
pub proof fn every_name_in_a_file_is_found(data: Seq<u8>, from: int, i: int, name: Seq<char>)
    requires
        0 <= from <= i,
        pdb_at(data, i),
        name_at(data, i) == Some(name),
    ensures
        names_from(data, from).contains(name),
    decreases i - from,
{
    let found = names_from(data, from);
    if from == i {
        assert(found[0] == name);
    } else if pdb_at(data, from) {
        assert(data[i] == 46);
        assert(i >= from + 4);
        every_name_in_a_file_is_found(data, from + 4, i, name);
        let rest = names_from(data, from + 4);
        let k = choose|k: int| 0 <= k < rest.len() && rest[k] == name;
        if name_at(data, from) is Some {
            assert(found[k + 1] == name);
        }
    } else {
        every_name_in_a_file_is_found(data, from + 1, i, name);
    }
}

/// Only names of databases are found: each is the name that ends at some `.pdb` of the file.
pub proof fn only_names_of_databases_are_found(data: Seq<u8>, from: int, k: int)
    requires
        0 <= from,
        0 <= k < names_from(data, from).len(),
    ensures
        exists|i: int|
            from <= i && #[trigger] pdb_at(data, i) && name_at(data, i) == Some(
                names_from(data, from)[k],
            ),
    decreases data.len() - from,
{
    if pdb_at(data, from) {
        if name_at(data, from) is Some {
            if k > 0 {
                only_names_of_databases_are_found(data, from + 4, k - 1);
            }
        } else {
            only_names_of_databases_are_found(data, from + 4, k);
        }
    } else {
        only_names_of_databases_are_found(data, from + 1, k);
    }
}

/// A name in a file ends with `.pdb`, in either case, at the end of the file or before a zero, a
/// line end, a quote or a space. It begins behind a quote, a `;`, a `|`, a `<`, a `>` or a control
/// character.
pub proof fn where_a_name_in_a_file_begins_and_ends(data: Seq<u8>, i: int, b: u8)
    ensures
        pdb_at(data, i) <==> 0 <= i && i + 4 <= data.len() && data[i] == '.' as u8 && (data[i + 1]
            == 'p' as u8 || data[i + 1] == 'P' as u8) && (data[i + 2] == 'd' as u8 || data[i + 2]
            == 'D' as u8) && (data[i + 3] == 'b' as u8 || data[i + 3] == 'B' as u8),
        0 <= i < data.len() ==> (name_ends(data, i) <==> data[i] == 0 || data[i] == '\r' as u8
            || data[i] == '\n' as u8 || data[i] == '"' as u8 || data[i] == '\'' as u8 || data[i]
            == ' ' as u8),
        i == data.len() ==> name_ends(data, i),
        stops_name(b) <==> b == '"' as u8 || b == '\'' as u8 || b == ';' as u8 || b == '|' as u8 || b
            == '<' as u8 || b == '>' as u8 || b < 32,
{
}

/// A path with a drive begins at the letter of its last drive; the name of a database without one is
/// the last word of the text.
pub proof fn a_path_begins_at_its_drive_or_its_last_word(
    a: Seq<char>,
    letter: char,
    rest: Seq<char>,
    w: Seq<char>,
)
    requires
        is_letter(letter),
        path_in(a + seq![letter] + rest) is Some,
        trimmed(a + seq![letter] + rest) == a + seq![letter] + rest,
        has_prefix(rest, ":\\"@),
        forall|j: int| j > 0 ==> !#[trigger] occurs_at(rest, ":\\"@, j),
        a.len() == 0 || is_space(a.last()),
        w.len() > 0,
        forall|i: int| 0 <= i < w.len() ==> !is_space(#[trigger] w[i]),
        path_in(a + w) is Some,
        trimmed(a + w) == a + w,
        drive_start(a + w) is None,
        ends_in_pdb(w),
    ensures
        path_in(a + seq![letter] + rest) == Some(seq![letter] + rest),
        path_in(a + w) == Some(w),
{
    reveal_strlit(":\\");
    let t = a + seq![letter] + rest;
    let n = a.len() as int;
    the_last_place_of_a_part(t, ":\\"@);
    assert(occurs_at(t, ":\\"@, n + 1)) by {
        assert(t.subrange(n + 1, n + 3) =~= rest.take(2));
    }
    if let Some(k) = find_last(t, ":\\"@) {
        if k > n + 1 {
            assert(t.subrange(k, k + 2) =~= rest.subrange(k - n - 1, k - n + 1));
            assert(occurs_at(rest, ":\\"@, k - n - 1));
        }
        assert(k == n + 1);
    }
    assert(t[n] == letter);
    assert(t.skip(n) =~= seq![letter] + rest);
    the_last_word_stands_behind_white_space(a, w);
}

} // verus!
