//! Paths as text with `/` between their components, as Unix has them. A `\` is a character like any
//! other here and a drive has no meaning: on Windows, paths are to be written with `/`, and one that
//! is not, such as `C:\x\y.pdb` inside of a binary, is a single component.
use crate::table::{lemma_precedes_total, lemma_precedes_transitive, precedes, text_precedes};
use crate::text::{
    chars_of, find, lemma_find_from, lemma_first_piece, lemma_one_piece, occurs_at, pieces,
    pieces_join_to_the_text, same, split, text_of, views,
};
use vstd::prelude::*;
use vstd::string::*;

verus! {

broadcast use vstd::string::group_string_axioms;

// ---------------------------------------------------------------------------
// Joining
// ---------------------------------------------------------------------------

/// A path that starts at the root.
pub open spec fn is_abs(p: Seq<char>) -> bool {
    p.len() > 0 && p[0] == '/'
}

/// `p` below `base`. An absolute `p` stands for itself.
pub open spec fn path_join(base: Seq<char>, p: Seq<char>) -> Seq<char> {
    if is_abs(p) {
        p
    } else if base.len() == 0 || base.last() == '/' {
        base + p
    } else {
        base + seq!['/'] + p
    }
}

/// Whether `p` starts at the root.
pub fn is_absolute(p: &str) -> (r: bool)
    ensures
        r == is_abs(p@),
{
    let cs = chars_of(p);
    cs.len() > 0 && cs[0] == '/'
}

/// `p` below `base`; an absolute `p` replaces it.
pub fn join_path(base: &str, p: &str) -> (r: String)
    ensures
        r@ == path_join(base@, p@),
{
    if is_absolute(p) {
        return p.to_owned();
    }
    let cs = chars_of(base);
    let n: usize = cs.len();
    let mut out = base.to_owned();
    if n > 0 && cs[n - 1] != '/' {
        out.push('/');
        assert(out@ =~= base@ + seq!['/']);
    }
    out.append(p);
    out
}

/// `p` as seen from `base`: unchanged when it is absolute.
pub fn resolve_relative(base: &str, p: &str) -> (r: String)
    ensures
        r@ == (if is_abs(p@) {
            p@
        } else {
            path_join(base@, p@)
        }),
{
    if is_absolute(p) {
        p.to_owned()
    } else {
        join_path(base, p)
    }
}

/// Every path of `ps` as seen from `base`.
pub open spec fn resolved(base: Seq<char>, ps: Seq<Seq<char>>) -> Seq<Seq<char>> {
    ps.map_values(|p: Seq<char>| path_join(base, p))
}

/// Every path of `ps` as seen from `base`.
pub fn resolve_all(base: &str, ps: &[String]) -> (r: Vec<String>)
    ensures
        views(r@) == resolved(base@, views(ps@)),
{
    let mut out: Vec<String> = Vec::new();
    let mut i: usize = 0;
    while i < ps.len()
        invariant
            i <= ps@.len(),
            out@.len() == i,
            forall|k: int| 0 <= k < i ==> #[trigger] out@[k]@ == path_join(base@, ps@[k]@),
        decreases ps@.len() - i,
    {
        let p = resolve_relative(base, ps[i].as_str());
        out.push(p);
        i = i + 1;
    }
    assert(views(out@) =~= resolved(base@, views(ps@)));
    out
}

/// An option of a path, as seen from `base`.
pub open spec fn opt_resolved(base: Seq<char>, p: Option<Seq<char>>) -> Option<Seq<char>> {
    match p {
        Some(q) => Some(path_join(base, q)),
        None => None,
    }
}

/// `p`, where it is given, as seen from `base`.
pub fn resolve_opt(base: &str, p: &Option<String>) -> (r: Option<String>)
    ensures
        crate::text::opt_view(r) == opt_resolved(base@, crate::text::opt_view(*p)),
{
    match p {
        Some(q) => Some(resolve_relative(base, q.as_str())),
        None => None,
    }
}

// ---------------------------------------------------------------------------
// Names and parents
// ---------------------------------------------------------------------------

/// `p` without what adds no component at its end: slashes, and `.` behind a slash.
pub open spec fn tail_trimmed(p: Seq<char>) -> Seq<char>
    decreases p.len(),
{
    if p.len() > 1 && (p.last() == '/' || (p.last() == '.' && p[p.len() - 2] == '/')) {
        tail_trimmed(p.drop_last())
    } else {
        p
    }
}

/// Where the text behind the last slash starts.
pub open spec fn name_start(p: Seq<char>) -> int
    decreases p.len(),
{
    if p.len() == 0 || p.last() == '/' {
        p.len() as int
    } else {
        name_start(p.drop_last())
    }
}

proof fn lemma_name_start(p: Seq<char>)
    ensures
        0 <= name_start(p) <= p.len(),
    decreases p.len(),
{
    if p.len() > 0 && p.last() != '/' {
        lemma_name_start(p.drop_last());
    }
}

/// The last component of `p`, unless it is the root, `.` or `..`.
pub open spec fn file_name_of(p: Seq<char>) -> Option<Seq<char>> {
    let t = tail_trimmed(p);
    let name = t.skip(name_start(t));
    if name.len() == 0 || name == seq!['.'] || name == seq!['.', '.'] {
        None
    } else {
        Some(name)
    }
}

/// `p` without its last component; the root and the empty path have no parent.
pub open spec fn parent_of(p: Seq<char>) -> Option<Seq<char>> {
    let t = tail_trimmed(p);
    if t.len() == 0 || t == seq!['/'] {
        None
    } else {
        Some(tail_trimmed(t.take(name_start(t))))
    }
}

/// The length that `tail_trimmed` leaves of the first `n` characters.
fn trimmed_len(cs: &Vec<char>, n: usize) -> (r: usize)
    requires
        n <= cs@.len(),
    ensures
        r <= n,
        cs@.take(r as int) == tail_trimmed(cs@.take(n as int)),
{
    let mut k: usize = n;
    while k > 1 && (cs[k - 1] == '/' || (cs[k - 1] == '.' && cs[k - 2] == '/'))
        invariant
            k <= n <= cs@.len(),
            tail_trimmed(cs@.take(k as int)) == tail_trimmed(cs@.take(n as int)),
        decreases k,
    {
        assert(cs@.take(k as int).drop_last() =~= cs@.take(k - 1));
        k = k - 1;
    }
    k
}

/// `name_start` of the first `n` characters.
fn start_of_name(cs: &Vec<char>, n: usize) -> (r: usize)
    requires
        n <= cs@.len(),
    ensures
        r <= n,
        r == name_start(cs@.take(n as int)),
{
    let mut k: usize = n;
    while k > 0 && cs[k - 1] != '/'
        invariant
            k <= n <= cs@.len(),
            name_start(cs@.take(k as int)) == name_start(cs@.take(n as int)),
        decreases k,
    {
        assert(cs@.take(k as int).drop_last() =~= cs@.take(k - 1));
        k = k - 1;
    }
    k
}

/// The last component of a path.
pub fn file_name(p: &str) -> (r: Option<String>)
    ensures
        crate::text::opt_view(r) == file_name_of(p@),
{
    let cs = chars_of(p);
    assert(cs@.take(cs@.len() as int) =~= p@);
    let n: usize = trimmed_len(&cs, cs.len());
    let start: usize = start_of_name(&cs, n);
    let ghost t = tail_trimmed(p@);
    assert(t == cs@.take(n as int));
    assert(t.skip(start as int) =~= cs@.subrange(start as int, n as int));
    let ghost name = t.skip(start as int);
    if start == n || (n - start == 1 && cs[start] == '.') || (n - start == 2 && cs[start] == '.'
        && cs[start + 1] == '.') {
        assert(name.len() == 0 || name =~= seq!['.'] || name =~= seq!['.', '.']);
        None
    } else {
        assert(name.len() > 0);
        assert(name != seq!['.']) by {
            if name == seq!['.'] {
                assert(name[0] == '.');
            }
        }
        assert(name != seq!['.', '.']) by {
            if name == seq!['.', '.'] {
                assert(name[0] == '.' && name[1] == '.');
            }
        }
        Some(text_of(&cs, start, n))
    }
}

/// The path without its last component.
pub fn parent(p: &str) -> (r: Option<String>)
    ensures
        crate::text::opt_view(r) == parent_of(p@),
{
    let cs = chars_of(p);
    assert(cs@.take(cs@.len() as int) =~= p@);
    let n: usize = trimmed_len(&cs, cs.len());
    let ghost t = tail_trimmed(p@);
    assert(t == cs@.take(n as int));
    if n == 0 || (n == 1 && cs[0] == '/') {
        assert(t.len() == 0 || t =~= seq!['/']);
        None
    } else {
        assert(t != seq!['/']) by {
            if t == seq!['/'] {
                assert(t[0] == '/');
            }
        }
        let start: usize = start_of_name(&cs, n);
        assert(t.take(start as int) =~= cs@.take(start as int));
        let m: usize = trimmed_len(&cs, start);
        assert(cs@.subrange(0, m as int) =~= cs@.take(m as int));
        Some(text_of(&cs, 0, m))
    }
}

/// Where the last dot of `s` stands.
pub open spec fn last_dot(s: Seq<char>) -> Option<int>
    decreases s.len(),
{
    if s.len() == 0 {
        None
    } else if s.last() == '.' {
        Some(s.len() - 1)
    } else {
        last_dot(s.drop_last())
    }
}

proof fn lemma_last_dot(s: Seq<char>)
    ensures
        last_dot(s) matches Some(i) ==> 0 <= i < s.len(),
    decreases s.len(),
{
    if s.len() > 0 && s.last() != '.' {
        lemma_last_dot(s.drop_last());
    }
}

/// A file name before its last dot; a name that only starts with a dot stays whole.
pub open spec fn stem_of_name(name: Seq<char>) -> Seq<char> {
    match last_dot(name) {
        Some(i) => if i == 0 {
            name
        } else {
            name.take(i)
        },
        None => name,
    }
}

/// What stands behind the last dot of a file name that does not start with it.
pub open spec fn extension_of_name(name: Seq<char>) -> Option<Seq<char>> {
    match last_dot(name) {
        Some(i) => if i == 0 {
            None
        } else {
            Some(name.skip(i + 1))
        },
        None => None,
    }
}

/// The file name of `p` before its last dot.
pub open spec fn file_stem_of(p: Seq<char>) -> Option<Seq<char>> {
    match file_name_of(p) {
        Some(name) => Some(stem_of_name(name)),
        None => None,
    }
}

/// What stands behind the last dot of the file name of `p`.
pub open spec fn extension_of(p: Seq<char>) -> Option<Seq<char>> {
    match file_name_of(p) {
        Some(name) => extension_of_name(name),
        None => None,
    }
}

fn dot_position(cs: &Vec<char>) -> (r: Option<usize>)
    ensures
        match r {
            Some(i) => last_dot(cs@) == Some(i as int) && i < cs@.len(),
            None => last_dot(cs@) is None,
        },
{
    let mut k: usize = cs.len();
    assert(cs@.take(k as int) =~= cs@);
    while k > 0
        invariant
            k <= cs@.len(),
            last_dot(cs@.take(k as int)) == last_dot(cs@),
        decreases k,
    {
        assert(cs@.take(k as int).drop_last() =~= cs@.take(k - 1));
        if cs[k - 1] == '.' {
            return Some(k - 1);
        }
        k = k - 1;
    }
    None
}

/// The file name before its last dot.
pub fn file_stem(p: &str) -> (r: Option<String>)
    ensures
        crate::text::opt_view(r) == file_stem_of(p@),
{
    match file_name(p) {
        Some(name) => {
            let cs = chars_of(name.as_str());
            match dot_position(&cs) {
                Some(i) if i > 0 => {
                    assert(cs@.subrange(0, i as int) =~= name@.take(i as int));
                    Some(text_of(&cs, 0, i))
                },
                _ => Some(name),
            }
        },
        None => None,
    }
}

/// What stands behind the last dot of the file name.
pub fn extension(p: &str) -> (r: Option<String>)
    ensures
        crate::text::opt_view(r) == extension_of(p@),
{
    match file_name(p) {
        Some(name) => {
            let cs = chars_of(name.as_str());
            let n: usize = cs.len();
            match dot_position(&cs) {
                Some(i) if i > 0 => {
                    assert(cs@.subrange(i + 1, n as int) =~= name@.skip(i + 1));
                    Some(text_of(&cs, i + 1, n))
                },
                _ => None,
            }
        },
        None => None,
    }
}

/// `p` with `name` in place of its file name; below `p` where it has none.
pub open spec fn renamed(p: Seq<char>, name: Seq<char>) -> Seq<char> {
    match (file_name_of(p), parent_of(p)) {
        (Some(_), Some(dir)) => path_join(dir, name),
        _ => path_join(p, name),
    }
}

/// `p` with `name` in place of its file name.
pub fn with_file_name(p: &str, name: &str) -> (r: String)
    ensures
        r@ == renamed(p@, name@),
{
    match (file_name(p), parent(p)) {
        (Some(_), Some(dir)) => join_path(dir.as_str(), name),
        _ => join_path(p, name),
    }
}

// ---------------------------------------------------------------------------
// Components
// ---------------------------------------------------------------------------

/// Whether the piece at `at` between slashes is a component: it is not empty, and it is
/// not `.`, except in front.
pub open spec fn is_step(piece: Seq<char>, at: int) -> bool {
    piece.len() > 0 && (piece != seq!['.'] || at == 0)
}

/// The components among the pieces between slashes.
pub open spec fn steps(ps: Seq<Seq<char>>) -> Seq<Seq<char>>
    decreases ps.len(),
{
    if ps.len() == 0 {
        Seq::empty()
    } else if is_step(ps.last(), ps.len() - 1) {
        steps(ps.drop_last()).push(ps.last())
    } else {
        steps(ps.drop_last())
    }
}

/// The components of `p`, with `/` for the root.
pub open spec fn components_of(p: Seq<char>) -> Seq<Seq<char>> {
    if is_abs(p) {
        seq![seq!['/']] + steps(pieces(p, seq!['/']))
    } else {
        steps(pieces(p, seq!['/']))
    }
}

/// Two texts that name the same components.
pub open spec fn same_path(a: Seq<char>, b: Seq<char>) -> bool {
    components_of(a) == components_of(b)
}

/// The components of a path.
pub fn components(p: &str) -> (r: Vec<String>)
    ensures
        views(r@) == components_of(p@),
{
    proof {
        reveal_strlit("/");
        reveal_strlit(".");
        assert("/"@ =~= seq!['/']);
        assert("."@ =~= seq!['.']);
    }
    let ps = split(p, "/");
    let mut out: Vec<String> = Vec::new();
    let ghost root: Seq<Seq<char>> = if is_abs(p@) {
        seq![seq!['/']]
    } else {
        Seq::empty()
    };
    if is_absolute(p) {
        out.push("/".to_owned());
    }
    assert(views(out@) =~= root);
    let mut i: usize = 0;
    assert(views(ps@).take(0) =~= Seq::<Seq<char>>::empty());
    while i < ps.len()
        invariant
            i <= ps@.len(),
            "."@ == seq!['.'],
            views(out@) == root + steps(views(ps@).take(i as int)),
        decreases ps@.len() - i,
    {
        let ghost now = views(ps@).take(i + 1);
        assert(now.drop_last() =~= views(ps@).take(i as int));
        assert(now.last() == ps@[i as int]@);
        let ghost before = views(out@);
        if ps[i].as_str().unicode_len() > 0 && (!same(ps[i].as_str(), ".") || i == 0) {
            let piece = ps[i].clone();
            out.push(piece);
            assert(views(out@) =~= before.push(ps@[i as int]@));
            assert(views(out@) =~= root + steps(now));
        }
        i = i + 1;
    }
    assert(views(ps@).take(i as int) =~= views(ps@));
    assert(root + steps(views(ps@)) =~= components_of(p@));
    out
}

/// Whether two paths name the same components.
pub fn path_eq(a: &str, b: &str) -> (r: bool)
    ensures
        r == same_path(a@, b@),
{
    let x = components(a);
    let y = components(b);
    same_list(&x, &y)
}

/// Whether two lists hold the same texts.
pub fn same_list(x: &[String], y: &[String]) -> (r: bool)
    ensures
        r == (views(x@) == views(y@)),
{
    if x.len() != y.len() {
        assert(views(x@).len() != views(y@).len());
        return false;
    }
    let mut i: usize = 0;
    while i < x.len()
        invariant
            i <= x@.len() == y@.len(),
            forall|k: int| 0 <= k < i ==> #[trigger] x@[k]@ == y@[k]@,
        decreases x@.len() - i,
    {
        if !same(x[i].as_str(), y[i].as_str()) {
            assert(views(x@)[i as int] != views(y@)[i as int]);
            return false;
        }
        i = i + 1;
    }
    assert(views(x@) =~= views(y@));
    true
}

/// Whether the components of `base` come first in `p`.
pub open spec fn lies_below(p: Seq<char>, base: Seq<char>) -> bool {
    components_of(base).is_prefix_of(components_of(p))
}

/// Whether the components of `base` come first in `p`.
pub fn path_starts_with(p: &str, base: &str) -> (r: bool)
    ensures
        r == lies_below(p@, base@),
{
    let x = components(p);
    let y = components(base);
    if y.len() > x.len() {
        assert(views(x@).len() < views(y@).len());
        return false;
    }
    let mut i: usize = 0;
    while i < y.len()
        invariant
            i <= y@.len() <= x@.len(),
            forall|k: int| 0 <= k < i ==> #[trigger] y@[k]@ == x@[k]@,
            views(x@) == components_of(p@),
            views(y@) == components_of(base@),
        decreases y@.len() - i,
    {
        if !same(x[i].as_str(), y[i].as_str()) {
            assert(views(y@)[i as int] != views(x@)[i as int]);
            assert(views(x@).subrange(0, y@.len() as int)[i as int] == views(x@)[i as int]);
            return false;
        }
        i = i + 1;
    }
    assert(views(y@) =~= views(x@).subrange(0, y@.len() as int));
    true
}

// ---------------------------------------------------------------------------
// The order of paths
// ---------------------------------------------------------------------------

/// The root comes before `.`, which comes before `..`, which comes before names.
pub open spec fn step_rank(c: Seq<char>) -> int {
    if c == seq!['/'] {
        0
    } else if c == seq!['.'] {
        1
    } else if c == seq!['.', '.'] {
        2
    } else {
        3
    }
}

/// Whether component `a` comes before component `b`.
pub open spec fn step_before(a: Seq<char>, b: Seq<char>) -> bool {
    step_rank(a) < step_rank(b) || (step_rank(a) == step_rank(b) && precedes(a, b))
}

/// Whether the components `xs` come before `ys`: at the first place where they differ, or
/// because they end there.
pub open spec fn steps_before(xs: Seq<Seq<char>>, ys: Seq<Seq<char>>) -> bool
    decreases xs.len(),
{
    if ys.len() == 0 {
        false
    } else if xs.len() == 0 {
        true
    } else if xs[0] != ys[0] {
        step_before(xs[0], ys[0])
    } else {
        steps_before(xs.skip(1), ys.skip(1))
    }
}

/// Whether path `a` comes before path `b`.
pub open spec fn path_before(a: Seq<char>, b: Seq<char>) -> bool {
    steps_before(components_of(a), components_of(b))
}

proof fn lemma_steps_before_total(xs: Seq<Seq<char>>, ys: Seq<Seq<char>>)
    ensures
        xs == ys ==> !steps_before(xs, ys),
        steps_before(xs, ys) ==> !steps_before(ys, xs),
        xs != ys ==> steps_before(xs, ys) || steps_before(ys, xs),
    decreases xs.len(),
{
    if xs.len() == 0 || ys.len() == 0 {
        if xs.len() == 0 && ys.len() == 0 {
            assert(xs =~= ys);
        }
    } else if xs[0] == ys[0] {
        lemma_steps_before_total(xs.skip(1), ys.skip(1));
        if xs.skip(1) == ys.skip(1) {
            assert(xs =~= seq![xs[0]] + xs.skip(1));
            assert(ys =~= seq![ys[0]] + ys.skip(1));
        }
    } else {
        lemma_precedes_total(xs[0], ys[0]);
    }
}

proof fn lemma_steps_before_transitive(
    xs: Seq<Seq<char>>,
    ys: Seq<Seq<char>>,
    zs: Seq<Seq<char>>,
)
    requires
        steps_before(xs, ys),
        steps_before(ys, zs),
    ensures
        steps_before(xs, zs),
    decreases xs.len(),
{
    if xs.len() == 0 || ys.len() == 0 || zs.len() == 0 {
    } else if xs[0] == ys[0] && ys[0] == zs[0] {
        lemma_steps_before_transitive(xs.skip(1), ys.skip(1), zs.skip(1));
    } else if xs[0] != ys[0] && ys[0] != zs[0] {
        if step_rank(xs[0]) == step_rank(ys[0]) && step_rank(ys[0]) == step_rank(zs[0]) {
            lemma_precedes_transitive(xs[0], ys[0], zs[0]);
        }
        if xs[0] == zs[0] {
            lemma_precedes_total(xs[0], ys[0]);
        }
    }
}

/// The order of paths is strict, and of two different paths one comes first.
pub proof fn path_order_is_total(a: Seq<char>, b: Seq<char>)
    ensures
        same_path(a, b) ==> !path_before(a, b),
        path_before(a, b) ==> !path_before(b, a),
        !same_path(a, b) ==> path_before(a, b) || path_before(b, a),
{
    lemma_steps_before_total(components_of(a), components_of(b));
}

/// The order of paths is transitive.
pub proof fn path_order_is_transitive(a: Seq<char>, b: Seq<char>, c: Seq<char>)
    requires
        path_before(a, b),
        path_before(b, c),
    ensures
        path_before(a, c),
{
    lemma_steps_before_transitive(components_of(a), components_of(b), components_of(c));
}

fn rank_of(c: &str) -> (r: u8)
    ensures
        r == step_rank(c@),
{
    proof {
        reveal_strlit("/");
        reveal_strlit(".");
        reveal_strlit("..");
        assert("/"@ =~= seq!['/']);
        assert("."@ =~= seq!['.']);
        assert(".."@ =~= seq!['.', '.']);
    }
    if same(c, "/") {
        0
    } else if same(c, ".") {
        1
    } else if same(c, "..") {
        2
    } else {
        3
    }
}

/// Whether path `a` comes before path `b`.
pub fn path_precedes(a: &str, b: &str) -> (r: bool)
    ensures
        r == path_before(a@, b@),
{
    let x = components(a);
    let y = components(b);
    let ghost xs = views(x@);
    let ghost ys = views(y@);
    let mut i: usize = 0;
    assert(xs.skip(0) =~= xs);
    assert(ys.skip(0) =~= ys);
    loop
        invariant
            xs == views(x@),
            ys == views(y@),
            xs == components_of(a@),
            ys == components_of(b@),
            i <= x@.len(),
            i <= y@.len(),
            path_before(a@, b@) == steps_before(xs.skip(i as int), ys.skip(i as int)),
        decreases x@.len() - i,
    {
        if i >= y.len() {
            return false;
        }
        if i >= x.len() {
            return true;
        }
        assert(xs.skip(i as int)[0] == x@[i as int]@);
        assert(ys.skip(i as int)[0] == y@[i as int]@);
        if !same(x[i].as_str(), y[i].as_str()) {
            let p: u8 = rank_of(x[i].as_str());
            let q: u8 = rank_of(y[i].as_str());
            return p < q || (p == q && text_precedes(x[i].as_str(), y[i].as_str()));
        }
        assert(xs.skip(i as int).skip(1) =~= xs.skip(i + 1));
        assert(ys.skip(i as int).skip(1) =~= ys.skip(i + 1));
        i = i + 1;
    }
}

// ---------------------------------------------------------------------------
// Sorting by path
// ---------------------------------------------------------------------------

/// The path and what is filed under it.
pub open spec fn entry_view<T>(e: (String, T)) -> (Seq<char>, T) {
    (e.0@, e.1)
}

/// The entries with their paths as texts.
pub open spec fn entries_view<T>(v: Seq<(String, T)>) -> Seq<(Seq<char>, T)> {
    v.map_values(|e: (String, T)| entry_view(e))
}

/// `e` filed into `s` behind everything that does not come after it.
pub open spec fn filed<T>(s: Seq<(Seq<char>, T)>, e: (Seq<char>, T)) -> Seq<(Seq<char>, T)>
    decreases s.len(),
{
    if s.len() > 0 && path_before(e.0, s.last().0) {
        filed(s.drop_last(), e).push(s.last())
    } else {
        s.push(e)
    }
}

/// The entries in the order of their paths; entries of the same path keep their order.
pub open spec fn path_sorted<T>(s: Seq<(Seq<char>, T)>) -> Seq<(Seq<char>, T)>
    decreases s.len(),
{
    if s.len() == 0 {
        s
    } else {
        filed(path_sorted(s.drop_last()), s.last())
    }
}

/// No entry comes before one that stands to its left.
pub open spec fn in_path_order<T>(s: Seq<(Seq<char>, T)>) -> bool {
    forall|i: int, j: int| 0 <= i < j < s.len() ==> !path_before(#[trigger] s[j].0, #[trigger] s[i].0)
}

/// No two entries have the same path.
pub open spec fn distinct_paths<T>(s: Seq<(Seq<char>, T)>) -> bool {
    forall|i: int, j: int|
        0 <= i < j < s.len() ==> !same_path(#[trigger] s[i].0, #[trigger] s[j].0)
}

proof fn lemma_filed<T>(s: Seq<(Seq<char>, T)>, e: (Seq<char>, T))
    requires
        in_path_order(s),
    ensures
        in_path_order(filed(s, e)),
        filed(s, e).to_multiset() == s.to_multiset().insert(e),
        filed(s, e).len() == s.len() + 1,
        forall|k: int| 0 <= k < filed(s, e).len() ==> filed(s, e)[k] == e || s.contains(#[trigger] filed(s, e)[k]),
    decreases s.len(),
{
    broadcast use vstd::seq_lib::group_to_multiset_ensures;

    if s.len() > 0 && path_before(e.0, s.last().0) {
        let init = s.drop_last();
        let rest = filed(init, e);
        lemma_filed(init, e);
        assert(s =~= init.push(s.last()));
        let out = rest.push(s.last());
        assert forall|i: int, j: int| 0 <= i < j < out.len() implies !path_before(
            #[trigger] out[j].0,
            #[trigger] out[i].0,
        ) by {
            if j == rest.len() {
                if rest[i] == e {
                    path_order_is_total(e.0, s.last().0);
                } else {
                    assert(init.contains(rest[i]));
                    let k = choose|k: int| 0 <= k < init.len() && init[k] == rest[i];
                    assert(s[k] == rest[i]);
                    assert(!path_before(s[s.len() - 1].0, s[k].0));
                }
            } else {
                assert(out[i] == rest[i] && out[j] == rest[j]);
            }
        }
        assert forall|k: int| 0 <= k < out.len() implies out[k] == e || s.contains(
            #[trigger] out[k],
        ) by {
            if k < rest.len() {
                assert(out[k] == rest[k]);
                if rest[k] != e {
                    assert(init.contains(rest[k]));
                    let m = choose|m: int| 0 <= m < init.len() && init[m] == rest[k];
                    assert(s[m] == rest[k]);
                }
            } else {
                assert(s[s.len() - 1] == out[k]);
            }
        }
        assert(rest.push(s.last()).to_multiset() =~= s.to_multiset().insert(e));
    } else {
        let out = s.push(e);
        assert forall|i: int, j: int| 0 <= i < j < out.len() implies !path_before(
            #[trigger] out[j].0,
            #[trigger] out[i].0,
        ) by {
            if j == s.len() {
                if path_before(e.0, s[i].0) {
                    // then e would come before the last entry too
                    if i < s.len() - 1 {
                        assert(!path_before(s[s.len() - 1].0, s[i].0));
                        path_order_is_total(s[i].0, s[s.len() - 1].0);
                        if path_before(s[i].0, s[s.len() - 1].0) {
                            path_order_is_transitive(e.0, s[i].0, s[s.len() - 1].0);
                        }
                    }
                }
            } else {
                assert(out[i] == s[i] && out[j] == s[j]);
            }
        }
        assert forall|k: int| 0 <= k < out.len() implies out[k] == e || s.contains(
            #[trigger] out[k],
        ) by {
            if k < s.len() {
                assert(s[k] == out[k]);
            }
        }
    }
}

/// Sorting puts the same entries into the order of their paths.
pub proof fn sorting_orders_the_same_entries<T>(s: Seq<(Seq<char>, T)>)
    ensures
        in_path_order(path_sorted(s)),
        path_sorted(s).to_multiset() == s.to_multiset(),
    decreases s.len(),
{
    broadcast use vstd::seq_lib::group_to_multiset_ensures;

    if s.len() > 0 {
        sorting_orders_the_same_entries(s.drop_last());
        lemma_filed(path_sorted(s.drop_last()), s.last());
        assert(s =~= s.drop_last().push(s.last()));
    }
}

proof fn lemma_ordered_unique<T>(x: Seq<(Seq<char>, T)>, y: Seq<(Seq<char>, T)>)
    requires
        in_path_order(x),
        in_path_order(y),
        distinct_paths(x),
        x.to_multiset() == y.to_multiset(),
    ensures
        x == y,
    decreases x.len(),
{
    broadcast use vstd::seq_lib::group_to_multiset_ensures;

    x.to_multiset_ensures();
    y.to_multiset_ensures();
    assert(x.len() == y.len());
    if x.len() == 0 {
        assert(x =~= y);
    } else {
        let n = x.len() - 1;
        let a = x[n];
        let b = y[n];
        assert(y.contains(a)) by {
            assert(x.contains(a));
            assert(x.to_multiset().contains(a));
        }
        assert(x.contains(b)) by {
            assert(y.contains(b));
            assert(y.to_multiset().contains(b));
        }
        let i = choose|i: int| 0 <= i < y.len() && y[i] == a;
        let j = choose|j: int| 0 <= j < x.len() && x[j] == b;
        if a != b {
            assert(i < n && j < n);
            assert(!path_before(y[n].0, y[i].0));
            assert(!path_before(x[n].0, x[j].0));
            path_order_is_total(a.0, b.0);
            assert(same_path(x[j].0, x[n].0));
            assert(false);
        }
        let x0 = x.drop_last();
        let y0 = y.drop_last();
        assert(x =~= x0.push(a));
        assert(y =~= y0.push(a));
        assert(x0.to_multiset() =~= y0.to_multiset()) by {
            assert(x0.push(a).to_multiset() == x0.to_multiset().insert(a));
            assert(y0.push(a).to_multiset() == y0.to_multiset().insert(a));
            assert(x0.to_multiset() =~= x0.to_multiset().insert(a).remove(a));
            assert(y0.to_multiset() =~= y0.to_multiset().insert(a).remove(a));
        }
        assert(in_path_order(x0)) by {
            assert forall|i: int, j: int| 0 <= i < j < x0.len() implies !path_before(
                #[trigger] x0[j].0,
                #[trigger] x0[i].0,
            ) by {
                assert(x0[i] == x[i] && x0[j] == x[j]);
            }
        }
        assert(in_path_order(y0)) by {
            assert forall|i: int, j: int| 0 <= i < j < y0.len() implies !path_before(
                #[trigger] y0[j].0,
                #[trigger] y0[i].0,
            ) by {
                assert(y0[i] == y[i] && y0[j] == y[j]);
            }
        }
        assert(distinct_paths(x0)) by {
            assert forall|i: int, j: int| 0 <= i < j < x0.len() implies !same_path(
                #[trigger] x0[i].0,
                #[trigger] x0[j].0,
            ) by {
                assert(x0[i] == x[i] && x0[j] == x[j]);
            }
        }
        lemma_ordered_unique(x0, y0);
    }
}

proof fn lemma_distinct_kept<T>(x: Seq<(Seq<char>, T)>, y: Seq<(Seq<char>, T)>)
    requires
        distinct_paths(x),
        x.to_multiset() == y.to_multiset(),
    ensures
        distinct_paths(y),
{
    broadcast use vstd::seq_lib::group_to_multiset_ensures;

    x.to_multiset_ensures();
    y.to_multiset_ensures();
    assert forall|i: int, j: int| 0 <= i < j < y.len() implies !same_path(
        #[trigger] y[i].0,
        #[trigger] y[j].0,
    ) by {
        if same_path(y[i].0, y[j].0) {
            let a = y[i];
            let b = y[j];
            assert(y.contains(a) && y.contains(b));
            assert(x.to_multiset().contains(a) && x.to_multiset().contains(b));
            let k = choose|k: int| 0 <= k < x.len() && x[k] == a;
            let m = choose|m: int| 0 <= m < x.len() && x[m] == b;
            if k < m {
                assert(!same_path(x[k].0, x[m].0));
            } else if m < k {
                assert(!same_path(x[m].0, x[k].0));
            } else {
                // the same entry stands twice in y, so it stands twice in x
                assert(a == b);
                assert(x.no_duplicates()) by {
                    assert forall|p: int, q: int|
                        0 <= p < x.len() && 0 <= q < x.len() && p != q implies x[p] != x[q] by {
                        if p < q {
                            assert(!same_path(x[p].0, x[q].0));
                        } else {
                            assert(!same_path(x[q].0, x[p].0));
                        }
                    }
                }
                x.lemma_multiset_has_no_duplicates();
                y.lemma_multiset_has_no_duplicates_conv();
                assert(y[i] != y[j]);
            }
        }
    }
}

/// Sorting gives the same result whatever order entries with different paths came in.
pub proof fn sorting_forgets_the_order_of_arrival<T>(
    x: Seq<(Seq<char>, T)>,
    y: Seq<(Seq<char>, T)>,
)
    requires
        distinct_paths(x),
        x.to_multiset() == y.to_multiset(),
    ensures
        path_sorted(x) == path_sorted(y),
{
    sorting_orders_the_same_entries(x);
    sorting_orders_the_same_entries(y);
    lemma_distinct_kept(x, path_sorted(x));
    lemma_ordered_unique(path_sorted(x), path_sorted(y));
}

/// Puts the entries into the order of their paths.
pub fn sort_by_path<T>(v: Vec<(String, T)>) -> (r: Vec<(String, T)>)
    ensures
        entries_view(r@) == path_sorted(entries_view(v@)),
{
    let mut rest = v;
    let mut out: Vec<(String, T)> = Vec::new();
    let ghost all = entries_view(v@);
    let ghost mut done: int = 0;
    assert(entries_view(out@) =~= path_sorted(all.take(0)));
    assert(all.skip(0) =~= all);
    while rest.len() > 0
        invariant
            0 <= done <= all.len(),
            entries_view(rest@) == all.skip(done),
            entries_view(out@) == path_sorted(all.take(done)),
        decreases rest@.len(),
    {
        let ghost before = rest@;
        let e = rest.remove(0);
        assert(entry_view(e) == entries_view(before)[0]);
        assert(entries_view(rest@) =~= entries_view(before).skip(1));
        assert(all.skip(done).skip(1) =~= all.skip(done + 1));
        assert(all.take(done + 1).drop_last() =~= all.take(done));
        assert(all.take(done + 1).last() == entry_view(e));
        let ghost s = entries_view(out@);
        let n: usize = out.len();
        let mut k: usize = n;
        assert(s.take(n as int) =~= s);
        assert(s.skip(n as int) =~= Seq::<(Seq<char>, T)>::empty());
        assert(filed(s, entry_view(e)) =~= filed(s.take(k as int), entry_view(e)) + s.skip(k as int));
        while k > 0 && path_precedes(e.0.as_str(), out[k - 1].0.as_str())
            invariant
                k <= n == out@.len(),
                s == entries_view(out@),
                filed(s, entry_view(e)) == filed(s.take(k as int), entry_view(e)) + s.skip(k as int),
            decreases k,
        {
            let ghost t = s.take(k as int);
            assert(t.drop_last() =~= s.take(k - 1));
            assert(t.last() == s[k - 1]);
            assert(s.skip(k - 1) =~= seq![s[k - 1]] + s.skip(k as int));
            assert(filed(t.drop_last(), entry_view(e)).push(t.last()) + s.skip(k as int) =~= filed(
                s.take(k - 1),
                entry_view(e),
            ) + s.skip(k - 1));
            k = k - 1;
        }
        assert(k > 0 ==> s.take(k as int).last() == s[k - 1]);
        let ghost key = entry_view(e);
        out.insert(k, e);
        assert(entries_view(out@) =~= s.take(k as int).push(key) + s.skip(k as int));
        proof {
            done = done + 1;
        }
    }
    assert(all.take(done) =~= all);
    out
}

// ---------------------------------------------------------------------------
// What is promised of paths
// ---------------------------------------------------------------------------

/// A path that begins with `/` stays what it is; any other lies below the base, with one `/`
/// between the two.
pub proof fn a_relative_path_lies_below_the_base(base: Seq<char>, p: Seq<char>)
    ensures
        p.len() > 0 && p[0] == '/' ==> path_join(base, p) == p,
        (p.len() == 0 || p[0] != '/') && base.len() == 0 ==> path_join(base, p) == p,
        (p.len() == 0 || p[0] != '/') && base.len() > 0 && base.last() == '/' ==> path_join(base, p)
            == base + p,
        (p.len() == 0 || p[0] != '/') && base.len() > 0 && base.last() != '/' ==> path_join(base, p)
            == base + "/"@ + p,
{
    reveal_strlit("/");
    assert("/"@ =~= seq!['/']);
    if base.len() == 0 {
        assert(base + p =~= p);
    }
}

/// Lists of paths are resolved one by one.
pub proof fn each_path_is_resolved(base: Seq<char>, ps: Seq<Seq<char>>, i: int)
    requires
        0 <= i < ps.len(),
    ensures
        resolved(base, ps).len() == ps.len(),
        resolved(base, ps)[i] == path_join(base, ps[i]),
        opt_resolved(base, Some(ps[i])) == Some(path_join(base, ps[i])),
        opt_resolved(base, None) is None,
{
}

proof fn lemma_name_starts_behind(a: Seq<char>, n: Seq<char>)
    requires
        a.len() == 0 || a.last() == '/',
        !n.contains('/'),
    ensures
        name_start(a + n) == a.len(),
    decreases n.len(),
{
    let s = a + n;
    if n.len() == 0 {
        assert(s =~= a);
    } else {
        assert(s.last() == n[n.len() - 1]);
        let m = n.drop_last();
        assert forall|i: int| 0 <= i < m.len() implies m[i] != '/' by {
            assert(m[i] == n[i]);
        }
        assert(s.drop_last() =~= a + m);
        lemma_name_starts_behind(a, m);
    }
}

/// Whether a text can be the last part of a path.
pub open spec fn is_name(n: Seq<char>) -> bool {
    n.len() > 0 && !n.contains('/') && n != seq!['.'] && n != seq!['.', '.']
}

proof fn lemma_alone(n: Seq<char>)
    requires
        is_name(n),
    ensures
        file_name_of(n) == Some(n),
        parent_of(n) == Some(Seq::<char>::empty()),
{
    let none = Seq::<char>::empty();
    assert(n[n.len() - 1] != '/');
    if n.len() > 1 {
        assert(n[n.len() - 2] != '/');
    }
    assert(tail_trimmed(n) == n);
    lemma_name_starts_behind(none, n);
    assert(none + n =~= n);
    assert(n.skip(0) =~= n);
    assert(n.take(0) =~= none);
    assert(n[0] != '/');
}

proof fn lemma_in_directory(a: Seq<char>, n: Seq<char>)
    requires
        is_name(n),
        a.len() > 1,
        a.last() == '/',
    ensures
        tail_trimmed(a + n) == a + n,
        file_name_of(a + n) == Some(n),
        parent_of(a + n) == Some(tail_trimmed(a)),
{
    let s = a + n;
    assert(s.last() == n[n.len() - 1]);
    if n.len() > 1 {
        assert(s[s.len() - 2] == n[n.len() - 2]);
    } else if n.last() == '.' {
        assert(n =~= seq!['.']);
    }
    assert(tail_trimmed(s) == s);
    lemma_name_starts_behind(a, n);
    assert(s.skip(a.len() as int) =~= n);
    assert(s.take(a.len() as int) =~= a);
    assert(s.len() > 1);
}

/// The name of a path is its last part, and its parent is what stands before that.
pub proof fn a_path_is_its_parent_and_its_name(dir: Seq<char>, n: Seq<char>, m: Seq<char>)
    requires
        is_name(n),
        dir.len() > 0,
        tail_trimmed(dir) == dir,
        dir.last() != '/',
    ensures
        file_name_of(dir + "/"@ + n) == Some(n),
        parent_of(dir + "/"@ + n) == Some(dir),
        file_name_of(n) == Some(n),
        parent_of(n) == Some(Seq::<char>::empty()),
        is_name(m) ==> renamed(dir + "/"@ + n, m) == dir + "/"@ + m,
{
    reveal_strlit("/");
    assert("/"@ =~= seq!['/']);
    let a = dir + "/"@;
    lemma_alone(n);
    lemma_in_directory(a, n);
    assert(a.drop_last() =~= dir);
    assert(tail_trimmed(a) == tail_trimmed(dir));
    if is_name(m) {
        assert(m[0] != '/');
    }
}

proof fn lemma_no_dot(s: Seq<char>)
    requires
        !s.contains('.'),
    ensures
        last_dot(s) is None,
    decreases s.len(),
{
    if s.len() > 0 {
        assert(s[s.len() - 1] != '.');
        let t = s.drop_last();
        assert forall|i: int| 0 <= i < t.len() implies t[i] != '.' by {
            assert(t[i] == s[i]);
        }
        lemma_no_dot(t);
    }
}

proof fn lemma_dot_before(a: Seq<char>, e: Seq<char>)
    requires
        !e.contains('.'),
    ensures
        last_dot(a + seq!['.'] + e) == Some(a.len() as int),
    decreases e.len(),
{
    let s = a + seq!['.'] + e;
    if e.len() == 0 {
        assert(s.last() == '.');
    } else {
        assert(s.last() == e[e.len() - 1]);
        let t = e.drop_last();
        assert forall|i: int| 0 <= i < t.len() implies t[i] != '.' by {
            assert(t[i] == e[i]);
        }
        assert(s.drop_last() =~= a + seq!['.'] + t);
        lemma_dot_before(a, t);
    }
}

/// The extension of a name is what stands behind its last dot, the stem what stands before it. A
/// dot in front begins no extension.
pub proof fn an_extension_stands_behind_the_last_dot(stem: Seq<char>, ext: Seq<char>)
    requires
        !ext.contains('.'),
    ensures
        stem.len() > 0 ==> extension_of_name(stem + "."@ + ext) == Some(ext),
        stem.len() > 0 ==> stem_of_name(stem + "."@ + ext) == stem,
        extension_of_name(ext) is None,
        stem_of_name(ext) == ext,
        extension_of_name("."@ + ext) is None,
        stem_of_name("."@ + ext) == "."@ + ext,
        forall|p: Seq<char>| #![trigger file_name_of(p)]
            file_name_of(p) == Some(stem + "."@ + ext) && stem.len() > 0
                ==> extension_of(p) == Some(
                ext,
            ) && file_stem_of(p) == Some(stem),
{
    reveal_strlit(".");
    assert("."@ =~= seq!['.']);
    let s = stem + "."@ + ext;
    lemma_dot_before(stem, ext);
    assert(s.take(stem.len() as int) =~= stem);
    assert(s.skip(stem.len() as int + 1) =~= ext);
    lemma_no_dot(ext);
    let none = Seq::<char>::empty();
    lemma_dot_before(none, ext);
    assert(none + seq!['.'] + ext =~= "."@ + ext);
}

proof fn lemma_steps_are_parts(ps: Seq<Seq<char>>)
    ensures
        forall|c: Seq<char>| #![trigger steps(ps).contains(c)]
            steps(ps).contains(c) ==> ps.contains(c) && c.len() > 0,
        forall|i: int| 0 < i < steps(ps).len() ==> #[trigger] steps(ps)[i] != seq!['.'],
    decreases ps.len(),
{
    if ps.len() > 0 {
        let init = ps.drop_last();
        let less = steps(init);
        let all = steps(ps);
        lemma_steps_are_parts(init);
        assert forall|c: Seq<char>| #![trigger all.contains(c)] all.contains(c) implies ps.contains(c)
            && c.len() > 0 by {
            let i = choose|i: int| 0 <= i < all.len() && all[i] == c;
            if i < less.len() {
                assert(less[i] == c);
                assert(less.contains(c));
                let k = choose|k: int| 0 <= k < init.len() && init[k] == c;
                assert(ps[k] == c);
            } else {
                assert(ps[ps.len() - 1] == c);
            }
        }
        if ps.len() == 1 {
            assert(less.len() == 0);
        }
        assert forall|i: int| 0 < i < all.len() implies #[trigger] all[i] != seq!['.'] by {
            if i < less.len() {
                assert(less[i] == all[i]);
            } else {
                assert(ps.len() > 1);
            }
        }
    }
}

/// The steps of a path are the parts between its slashes: none is empty, none has a slash in it but
/// the root, which only stands in front, and the directory itself is no step but in front.
pub proof fn the_steps_of_a_path(p: Seq<char>, i: int)
    requires
        0 <= i < components_of(p).len(),
    ensures
        components_of(p)[i].len() > 0,
        components_of(p)[i].contains('/') ==> i == 0 && components_of(p)[i] == seq!['/'] && is_abs(
            p,
        ),
        is_abs(p) ==> components_of(p)[0] == seq!['/'],
        components_of(p)[i] == seq!['.'] ==> i <= 1,
{
    let ps = pieces(p, seq!['/']);
    lemma_steps_are_parts(ps);
    pieces_join_to_the_text(p, seq!['/']);
    let c = components_of(p)[i];
    let k = if is_abs(p) {
        i - 1
    } else {
        i
    };
    if k >= 0 {
        assert(steps(ps)[k] == c);
        assert(steps(ps).contains(c));
        let j = choose|j: int| 0 <= j < ps.len() && ps[j] == c;
        if c.contains('/') {
            let x = choose|x: int| 0 <= x < c.len() && c[x] == '/';
            assert(c.subrange(x, x + 1) =~= seq!['/']);
            assert(occurs_at(ps[j], seq!['/'], x));
        }
    }
}

proof fn lemma_pieces_added(a: Seq<char>, b: Seq<char>)
    ensures
        pieces(a + seq!['/'] + b, seq!['/']) == pieces(a, seq!['/']) + pieces(b, seq!['/']),
    decreases a.len(),
{
    let p = seq!['/'];
    lemma_find_from(a, p, 0);
    match find(a, p) {
        Some(i) => {
            let first = a.take(i);
            let rest = a.skip(i + 1);
            assert(a.subrange(i, i + 1)[0] == '/');
            assert(!first.contains('/')) by {
                if first.contains('/') {
                    let k = choose|k: int| 0 <= k < first.len() && first[k] == '/';
                    assert(a.subrange(k, k + 1) =~= p);
                    assert(occurs_at(a, p, k));
                }
            }
            assert(a =~= first + p + rest);
            assert(a + p + b =~= first + p + (rest + p + b));
            lemma_first_piece(first, '/', rest + p + b);
            lemma_first_piece(first, '/', rest);
            lemma_pieces_added(rest, b);
            assert(pieces(a + p + b, p) =~= pieces(a, p) + pieces(b, p));
        },
        None => {
            assert(!a.contains('/')) by {
                if a.contains('/') {
                    let k = choose|k: int| 0 <= k < a.len() && a[k] == '/';
                    assert(a.subrange(k, k + 1) =~= p);
                    assert(occurs_at(a, p, k));
                }
            }
            lemma_first_piece(a, '/', b);
            lemma_one_piece(a, '/');
        },
    }
}

proof fn lemma_steps_added(xs: Seq<Seq<char>>, ys: Seq<Seq<char>>)
    requires
        xs.len() > 0,
        ys.len() > 0 ==> ys[0] != seq!['.'],
    ensures
        steps(xs + ys) == steps(xs) + steps(ys),
    decreases ys.len(),
{
    if ys.len() == 0 {
        assert(xs + ys =~= xs);
        assert(steps(xs) + steps(ys) =~= steps(xs));
    } else {
        let init = ys.drop_last();
        if init.len() > 0 {
            assert(init[0] == ys[0]);
        }
        lemma_steps_added(xs, init);
        let all = xs + ys;
        assert(all.drop_last() =~= xs + init);
        assert(all.last() == ys.last());
        if ys.len() == 1 {
            assert(ys.last() == ys[0]);
        }
        assert(steps(all) =~= steps(xs) + steps(ys));
    }
}

/// The steps of a joined path are those of the base and then those of the rest, so it lies below
/// the base.
pub proof fn a_joined_path_lies_below_its_base(base: Seq<char>, p: Seq<char>)
    requires
        base.len() > 0,
        base.last() != '/',
        !is_abs(p),
        pieces(p, seq!['/'])[0] != seq!['.'],
    ensures
        components_of(path_join(base, p)) == components_of(base) + components_of(p),
        lies_below(path_join(base, p), base),
{
    let s = base + seq!['/'] + p;
    lemma_pieces_added(base, p);
    pieces_join_to_the_text(base, seq!['/']);
    pieces_join_to_the_text(p, seq!['/']);
    lemma_steps_added(pieces(base, seq!['/']), pieces(p, seq!['/']));
    assert(s[0] == base[0]);
    assert(components_of(s) =~= components_of(base) + components_of(p));
    assert(components_of(base).is_prefix_of(components_of(s))) by {
        assert(components_of(s).take(components_of(base).len() as int) =~= components_of(base));
    }
}

/// A path lies below a base exactly where the steps of the base are its first steps.
pub proof fn what_lies_below_begins_alike(p: Seq<char>, base: Seq<char>)
    ensures
        lies_below(p, base) <==> components_of(base).len() <= components_of(p).len()
            && forall|i: int|
            0 <= i < components_of(base).len() ==> #[trigger] components_of(base)[i]
                == components_of(p)[i],
        same_path(p, base) <==> lies_below(p, base) && lies_below(base, p),
{
    let a = components_of(base);
    let b = components_of(p);
    if a.len() <= b.len() && (forall|i: int| 0 <= i < a.len() ==> #[trigger] a[i] == b[i]) {
        assert(a =~= b.subrange(0, a.len() as int));
    }
    if lies_below(p, base) {
        assert(a =~= b.subrange(0, a.len() as int));
    }
    if lies_below(p, base) && lies_below(base, p) {
        assert(b =~= a.subrange(0, b.len() as int));
        assert(a =~= b);
    }
    if same_path(p, base) {
        assert(a =~= b.subrange(0, a.len() as int));
        assert(b =~= a.subrange(0, b.len() as int));
    }
}

proof fn lemma_one_step(n: Seq<char>)
    requires
        is_name(n),
    ensures
        components_of(n) == seq![n],
        step_rank(n) == 3,
{
    assert(n[0] != '/');
    lemma_one_piece(n, '/');
    let one = pieces(n, seq!['/']);
    assert(one.drop_last() =~= Seq::empty());
    assert(one.last() == n);
    assert(steps(one.drop_last()) =~= Seq::empty());
    assert(steps(one) =~= seq![n]);
    if n == seq!['/'] {
        assert(n.contains('/'));
    }
}

proof fn lemma_steps_before_behind(
    p: Seq<Seq<char>>,
    xs: Seq<Seq<char>>,
    ys: Seq<Seq<char>>,
)
    ensures
        steps_before(p + xs, p + ys) == steps_before(xs, ys),
    decreases p.len(),
{
    if p.len() == 0 {
        assert(p + xs =~= xs);
        assert(p + ys =~= ys);
    } else {
        lemma_steps_before_behind(p.skip(1), xs, ys);
        assert((p + xs).skip(1) =~= p.skip(1) + xs);
        assert((p + ys).skip(1) =~= p.skip(1) + ys);
        if (p + ys).len() > 0 {
            assert((p + xs)[0] == (p + ys)[0]);
        }
    }
}

/// Names in one directory are ordered by their characters, and a directory comes before what is in
/// it.
pub proof fn names_are_ordered_by_their_characters(
    base: Seq<char>,
    a: Seq<char>,
    b: Seq<char>,
)
    requires
        is_name(a),
        is_name(b),
        base.len() > 0,
        base.last() != '/',
    ensures
        path_before(a, b) <==> precedes(a, b),
        path_before(path_join(base, a), path_join(base, b)) <==> precedes(a, b),
        path_before(base, path_join(base, a)),
        !path_before(path_join(base, a), base),
{
    lemma_one_step(a);
    lemma_one_step(b);
    lemma_precedes_total(a, b);
    let x = seq![a];
    let y = seq![b];
    assert(x[0] == a && y[0] == b);
    assert(x.skip(1) =~= Seq::empty());
    assert(y.skip(1) =~= Seq::empty());
    assert(steps_before(x, y) == precedes(a, b)) by {
        if a == b {
            assert(!steps_before(x.skip(1), y.skip(1)));
        }
    }
    assert(a[0] != '/' && b[0] != '/');
    lemma_one_piece(a, '/');
    lemma_one_piece(b, '/');
    a_joined_path_lies_below_its_base(base, a);
    a_joined_path_lies_below_its_base(base, b);
    let c = components_of(base);
    let none = Seq::<Seq<char>>::empty();
    lemma_steps_before_behind(c, x, y);
    lemma_steps_before_behind(c, none, x);
    lemma_steps_before_behind(c, x, none);
    assert(c + none =~= c);
}

} // verus!
