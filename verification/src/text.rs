//! Text as sequences of characters: searching, splitting, trimming and case mapping.
//!
//! The specification functions speak of `Seq<char>`, the view of `str` and `String`.
//! Positions count characters, never bytes.
use vstd::prelude::*;
use vstd::string::*;
use vstd::utf8::{decode_utf8, is_ascii_chars, valid_utf8};

verus! {

broadcast use vstd::string::group_string_axioms;

// ---------------------------------------------------------------------------
// Building and comparing
// ---------------------------------------------------------------------------

/// `String::push` appends one character.
pub assume_specification[ String::push ](s: &mut String, c: char)
    ensures
        final(s)@ == old(s)@.push(c),
;

/// The views of the strings of a vector, in order.
pub open spec fn views(v: Seq<String>) -> Seq<Seq<char>> {
    v.map_values(|s: String| s@)
}

/// The view of an optional string.
pub open spec fn opt_view(o: Option<String>) -> Option<Seq<char>> {
    match o {
        Some(s) => Some(s@),
        None => None,
    }
}

/// The characters of `s`, in order.
pub fn chars_of(s: &str) -> (r: Vec<char>)
    ensures
        r@ == s@,
{
    let mut out: Vec<char> = Vec::new();
    for c in it: s.chars()
        invariant
            it.seq() == s@,
            out@ == s@.take(it.index() as int),
    {
        out.push(c);
    }
    assert(s@.take(s@.len() as int) == s@);
    out
}

/// The text made of the characters `cs[from..to]`.
pub fn text_of(cs: &Vec<char>, from: usize, to: usize) -> (r: String)
    requires
        from <= to <= cs@.len(),
    ensures
        r@ == cs@.subrange(from as int, to as int),
{
    let mut out = String::new();
    let mut i: usize = from;
    while i < to
        invariant
            from <= i <= to <= cs@.len(),
            out@ == cs@.subrange(from as int, i as int),
        decreases to - i,
    {
        out.push(cs[i]);
        i = i + 1;
    }
    out
}

/// Whether the two texts are the same.
pub fn same(a: &str, b: &str) -> (r: bool)
    ensures
        r == (a@ == b@),
{
    let x = chars_of(a);
    let y = chars_of(b);
    if x.len() != y.len() {
        return false;
    }
    let mut i: usize = 0;
    while i < x.len()
        invariant
            i <= x@.len(),
            x@.len() == y@.len(),
            x@ == a@,
            y@ == b@,
            forall|j: int| 0 <= j < i ==> x@[j] == y@[j],
        decreases x@.len() - i,
    {
        if x[i] != y[i] {
            assert(a@[i as int] != b@[i as int]);
            return false;
        }
        i = i + 1;
    }
    assert(a@ =~= b@);
    true
}

// ---------------------------------------------------------------------------
// Searching
// ---------------------------------------------------------------------------

/// Whether `p` stands in `s` at position `i`.
pub open spec fn occurs_at(s: Seq<char>, p: Seq<char>, i: int) -> bool {
    0 <= i && i + p.len() <= s.len() && s.subrange(i, i + p.len()) == p
}

/// The first position at or after `i` at which `p` stands in `s`.
pub open spec fn find_from(s: Seq<char>, p: Seq<char>, i: int) -> Option<int>
    decreases s.len() + 1 - i,
{
    if i < 0 || i + p.len() > s.len() {
        None
    } else if s.subrange(i, i + p.len()) == p {
        Some(i)
    } else {
        find_from(s, p, i + 1)
    }
}

/// The first position at which `p` stands in `s`.
pub open spec fn find(s: Seq<char>, p: Seq<char>) -> Option<int> {
    find_from(s, p, 0)
}

/// Whether `p` stands anywhere in `s`.
pub open spec fn has_part(s: Seq<char>, p: Seq<char>) -> bool {
    find(s, p) is Some
}

pub open spec fn has_prefix(s: Seq<char>, p: Seq<char>) -> bool {
    p.len() <= s.len() && s.take(p.len() as int) == p
}

pub open spec fn has_suffix(s: Seq<char>, p: Seq<char>) -> bool {
    p.len() <= s.len() && s.skip(s.len() - p.len()) == p
}

/// `find_from` gives the least position from `i` on at which `p` stands, if there is one.
pub proof fn lemma_find_from(s: Seq<char>, p: Seq<char>, i: int)
    requires
        0 <= i,
    ensures
        match find_from(s, p, i) {
            Some(k) => i <= k && occurs_at(s, p, k) && (forall|j: int|
                i <= j < k ==> !occurs_at(s, p, j)),
            None => forall|j: int| i <= j ==> !occurs_at(s, p, j),
        },
    decreases s.len() + 1 - i,
{
    if i + p.len() > s.len() {
    } else if s.subrange(i, i + p.len()) == p {
    } else {
        lemma_find_from(s, p, i + 1);
    }
}

fn matches_at(cs: &Vec<char>, p: &Vec<char>, i: usize) -> (r: bool)
    requires
        i + p@.len() <= cs@.len(),
    ensures
        r == (cs@.subrange(i as int, i + p@.len()) == p@),
{
    let n: usize = cs.len();
    let mut k: usize = 0;
    while k < p.len()
        invariant
            k <= p@.len(),
            i + p@.len() <= cs@.len(),
            n == cs@.len(),
            forall|j: int| 0 <= j < k ==> cs@[i + j] == p@[j],
        decreases p@.len() - k,
    {
        if cs[i + k] != p[k] {
            assert(cs@.subrange(i as int, i + p@.len())[k as int] != p@[k as int]);
            return false;
        }
        k = k + 1;
    }
    assert(cs@.subrange(i as int, i + p@.len()) =~= p@);
    true
}

/// The first position from `start` on at which `p` stands in `cs`.
pub fn find_chars(cs: &Vec<char>, p: &Vec<char>, start: usize) -> (r: Option<usize>)
    ensures
        match r {
            Some(k) => find_from(cs@, p@, start as int) == Some(k as int) && start <= k && k
                + p@.len() <= cs@.len(),
            None => find_from(cs@, p@, start as int) is None,
        },
{
    if p.len() > cs.len() {
        return None;
    }
    let last: usize = cs.len() - p.len();
    let mut i: usize = start;
    while i <= last
        invariant
            start <= i,
            last == cs@.len() - p@.len(),
            find_from(cs@, p@, start as int) == find_from(cs@, p@, i as int),
        decreases last + 1 - i,
    {
        if matches_at(cs, p, i) {
            return Some(i);
        }
        if i == last {
            assert(find_from(cs@, p@, i + 1) is None);
            return None;
        }
        i = i + 1;
    }
    None
}

/// The first position at which `p` stands in `s`.
pub fn position(s: &str, p: &str) -> (r: Option<usize>)
    ensures
        match r {
            Some(k) => find(s@, p@) == Some(k as int) && k + p@.len() <= s@.len(),
            None => find(s@, p@) is None,
        },
{
    find_chars(&chars_of(s), &chars_of(p), 0)
}

/// Whether `p` stands anywhere in `s`.
pub fn contains(s: &str, p: &str) -> (r: bool)
    ensures
        r == has_part(s@, p@),
{
    position(s, p).is_some()
}

/// Whether `s` begins with `p`.
pub fn starts_with(s: &str, p: &str) -> (r: bool)
    ensures
        r == has_prefix(s@, p@),
{
    let cs = chars_of(s);
    let ps = chars_of(p);
    ps.len() <= cs.len() && matches_at(&cs, &ps, 0)
}

/// Whether `s` ends with `p`.
pub fn ends_with(s: &str, p: &str) -> (r: bool)
    ensures
        r == has_suffix(s@, p@),
{
    let cs = chars_of(s);
    let ps = chars_of(p);
    ps.len() <= cs.len() && matches_at(&cs, &ps, cs.len() - ps.len())
}

/// What follows `p` in `s`, if `s` begins with `p`.
pub open spec fn after_prefix(s: Seq<char>, p: Seq<char>) -> Option<Seq<char>> {
    if has_prefix(s, p) {
        Some(s.skip(p.len() as int))
    } else {
        None
    }
}

/// What stands before `p` in `s`, if `s` ends with `p`.
pub open spec fn before_suffix(s: Seq<char>, p: Seq<char>) -> Option<Seq<char>> {
    if has_suffix(s, p) {
        Some(s.take(s.len() - p.len()))
    } else {
        None
    }
}

/// `s` without its leading `p`, if it has one.
pub fn strip_prefix(s: &str, p: &str) -> (r: Option<String>)
    ensures
        opt_view(r) == after_prefix(s@, p@),
{
    let cs = chars_of(s);
    let ps = chars_of(p);
    if ps.len() <= cs.len() && matches_at(&cs, &ps, 0) {
        Some(text_of(&cs, ps.len(), cs.len()))
    } else {
        None
    }
}

/// `s` without its trailing `p`, if it has one.
pub fn strip_suffix(s: &str, p: &str) -> (r: Option<String>)
    ensures
        opt_view(r) == before_suffix(s@, p@),
{
    let cs = chars_of(s);
    let ps = chars_of(p);
    if ps.len() <= cs.len() && matches_at(&cs, &ps, cs.len() - ps.len()) {
        Some(text_of(&cs, 0, cs.len() - ps.len()))
    } else {
        None
    }
}

// ---------------------------------------------------------------------------
// Splitting and joining
// ---------------------------------------------------------------------------

/// The parts of `s` before and after the first `p`.
pub open spec fn cut(s: Seq<char>, p: Seq<char>) -> Option<(Seq<char>, Seq<char>)> {
    match find(s, p) {
        Some(i) => Some((s.take(i), s.skip(i + p.len()))),
        None => None,
    }
}

pub open spec fn pair_view(o: Option<(String, String)>) -> Option<(Seq<char>, Seq<char>)> {
    match o {
        Some((a, b)) => Some((a@, b@)),
        None => None,
    }
}

/// The texts before and after the first `p` in `s`.
pub fn split_once(s: &str, p: &str) -> (r: Option<(String, String)>)
    ensures
        pair_view(r) == cut(s@, p@),
{
    let cs = chars_of(s);
    let ps = chars_of(p);
    let n: usize = cs.len();
    match find_chars(&cs, &ps, 0) {
        Some(i) => Some((text_of(&cs, 0, i), text_of(&cs, i + ps.len(), n))),
        None => None,
    }
}

/// The pieces of `s` between the occurrences of `p`, found from left to right.
pub open spec fn pieces(s: Seq<char>, p: Seq<char>) -> Seq<Seq<char>>
    decreases s.len(),
{
    match find(s, p) {
        Some(i) => if p.len() == 0 || i < 0 || i + p.len() > s.len() {
            seq![s]
        } else {
            seq![s.take(i)] + pieces(s.skip(i + p.len()), p)
        },
        None => seq![s],
    }
}

/// The pieces of `s` between the occurrences of the separator `p`.
pub fn split(s: &str, p: &str) -> (r: Vec<String>)
    requires
        p@.len() > 0,
    ensures
        views(r@) == pieces(s@, p@),
        r@.len() > 0,
{
    let ps = chars_of(p);
    let mut rest = chars_of(s);
    let mut out: Vec<String> = Vec::new();
    assert(views(out@) + pieces(rest@, p@) =~= pieces(s@, p@));
    loop
        invariant_except_break
            views(out@) + pieces(rest@, p@) == pieces(s@, p@),
        invariant
            ps@ == p@,
            p@.len() > 0,
        ensures
            views(out@) == pieces(s@, p@),
            out@.len() > 0,
        decreases rest@.len(),
    {
        let n: usize = rest.len();
        match find_chars(&rest, &ps, 0) {
            Some(i) => {
                let head = text_of(&rest, 0, i);
                let ghost before = out@;
                let ghost tail = rest@.skip(i + p@.len());
                out.push(head);
                assert(rest@.subrange(0, i as int) =~= rest@.take(i as int));
                let mut next: Vec<char> = Vec::new();
                let mut k: usize = i + ps.len();
                while k < n
                    invariant
                        i + ps@.len() <= k <= n == rest@.len(),
                        next@ == rest@.subrange(i + ps@.len(), k as int),
                    decreases rest@.len() - k,
                {
                    next.push(rest[k]);
                    k = k + 1;
                }
                assert(next@ =~= tail);
                assert(pieces(rest@, p@) == seq![rest@.take(i as int)] + pieces(tail, p@));
                assert(views(out@) =~= views(before).push(head@));
                assert(views(out@) + pieces(tail, p@) =~= views(before) + pieces(rest@, p@));
                rest = next;
            },
            None => {
                let ghost before = out@;
                let last = text_of(&rest, 0, rest.len());
                out.push(last);
                assert(last@ =~= rest@);
                assert(views(out@) =~= views(before).push(rest@));
                assert(views(out@) =~= views(before) + pieces(rest@, p@));
                break;
            },
        }
    }
    out
}

/// The texts of `parts` with `sep` between neighbours.
pub open spec fn joined(parts: Seq<Seq<char>>, sep: Seq<char>) -> Seq<char>
    decreases parts.len(),
{
    if parts.len() == 0 {
        seq![]
    } else if parts.len() == 1 {
        parts[0]
    } else {
        joined(parts.drop_last(), sep) + sep + parts.last()
    }
}

/// Joins `parts` with `sep` between neighbours.
pub fn join(parts: &[String], sep: &str) -> (r: String)
    ensures
        r@ == joined(views(parts@), sep@),
{
    let mut out = String::new();
    let mut i: usize = 0;
    assert(views(parts@).take(0) =~= Seq::<Seq<char>>::empty());
    while i < parts.len()
        invariant
            i <= parts@.len(),
            out@ == joined(views(parts@).take(i as int), sep@),
        decreases parts@.len() - i,
    {
        if i > 0 {
            out.append(sep);
        }
        out.append(parts[i].as_str());
        proof {
            let now = views(parts@).take(i + 1);
            assert(now.drop_last() =~= views(parts@).take(i as int));
            assert(now.last() == parts@[i as int]@);
            if i == 0 {
                assert(out@ =~= now[0]);
            }
        }
        i = i + 1;
    }
    assert(views(parts@).take(i as int) =~= views(parts@));
    out
}

// ---------------------------------------------------------------------------
// White space
// ---------------------------------------------------------------------------

/// The characters with the Unicode property `White_Space`.
pub open spec fn is_space(c: char) -> bool {
    let n = c as u32;
    ||| 0x09 <= n <= 0x0d
    ||| n == 0x20
    ||| n == 0x85
    ||| n == 0xa0
    ||| n == 0x1680
    ||| 0x2000 <= n <= 0x200a
    ||| n == 0x2028
    ||| n == 0x2029
    ||| n == 0x202f
    ||| n == 0x205f
    ||| n == 0x3000
}

/// Whether `c` is white space.
pub fn is_white_space(c: char) -> (r: bool)
    ensures
        r == is_space(c),
{
    let n: u32 = c as u32;
    (0x09 <= n && n <= 0x0d) || n == 0x20 || n == 0x85 || n == 0xa0 || n == 0x1680 || (0x2000 <= n
        && n <= 0x200a) || n == 0x2028 || n == 0x2029 || n == 0x202f || n == 0x205f || n == 0x3000
}

/// `s` without its leading white space.
pub open spec fn without_leading(s: Seq<char>) -> Seq<char>
    decreases s.len(),
{
    if s.len() > 0 && is_space(s[0]) {
        without_leading(s.skip(1))
    } else {
        s
    }
}

/// `s` without its trailing white space.
pub open spec fn without_trailing(s: Seq<char>) -> Seq<char>
    decreases s.len(),
{
    if s.len() > 0 && is_space(s.last()) {
        without_trailing(s.drop_last())
    } else {
        s
    }
}

/// `s` without the white space around it.
pub open spec fn trimmed(s: Seq<char>) -> Seq<char> {
    without_trailing(without_leading(s))
}

/// `s` without the white space around it.
pub fn trim(s: &str) -> (r: String)
    ensures
        r@ == trimmed(s@),
{
    let cs = chars_of(s);
    let n: usize = cs.len();
    let mut i: usize = 0;
    assert(s@.skip(0) =~= s@);
    while i < n && is_white_space(cs[i])
        invariant
            cs@ == s@,
            i <= n == cs@.len(),
            without_leading(s@) == without_leading(s@.skip(i as int)),
        decreases n - i,
    {
        assert(s@.skip(i as int).skip(1) =~= s@.skip(i + 1));
        i = i + 1;
    }
    let ghost lead = s@.skip(i as int);
    assert(without_leading(s@) == lead);
    let mut j: usize = n;
    assert(s@.subrange(i as int, n as int) =~= lead);
    while j > i && is_white_space(cs[j - 1])
        invariant
            cs@ == s@,
            i <= j <= n == cs@.len(),
            without_trailing(lead) == without_trailing(s@.subrange(i as int, j as int)),
        decreases j,
    {
        assert(s@.subrange(i as int, j as int).drop_last() =~= s@.subrange(i as int, j - 1));
        j = j - 1;
    }
    text_of(&cs, i, j)
}

/// The characters of `s` from its last run of characters that are not white space.
pub open spec fn last_word(s: Seq<char>) -> Option<Seq<char>> {
    let t = without_trailing(s);
    if t.len() == 0 {
        None
    } else {
        Some(t.skip(word_start(t)))
    }
}

/// Where the run of characters that are not white space begins that `s` ends with.
pub open spec fn word_start(s: Seq<char>) -> int
    decreases s.len(),
{
    if s.len() > 0 && !is_space(s.last()) {
        word_start(s.drop_last())
    } else {
        s.len() as int
    }
}

/// The last of the words that white space separates in `s`.
pub fn split_whitespace_last(s: &str) -> (r: Option<String>)
    ensures
        opt_view(r) == last_word(s@),
{
    let cs = chars_of(s);
    let n: usize = cs.len();
    let mut j: usize = n;
    assert(s@.take(n as int) =~= s@);
    while j > 0 && is_white_space(cs[j - 1])
        invariant
            cs@ == s@,
            j <= n == cs@.len(),
            without_trailing(s@) == without_trailing(s@.take(j as int)),
        decreases j,
    {
        assert(s@.take(j as int).drop_last() =~= s@.take(j - 1));
        j = j - 1;
    }
    let ghost t = s@.take(j as int);
    assert(without_trailing(s@) == t);
    if j == 0 {
        return None;
    }
    let mut i: usize = j;
    assert(t.take(i as int) =~= t);
    while i > 0 && !is_white_space(cs[i - 1])
        invariant
            cs@ == s@,
            i <= j <= n == cs@.len(),
            t == s@.take(j as int),
            word_start(t) == word_start(t.take(i as int)),
        decreases i,
    {
        assert(t.take(i as int).drop_last() =~= t.take(i - 1));
        i = i - 1;
    }
    assert(word_start(t) == i);
    assert(t.skip(i as int) =~= s@.subrange(i as int, j as int));
    Some(text_of(&cs, i, j))
}

// ---------------------------------------------------------------------------
// Letter case
// ---------------------------------------------------------------------------

pub open spec fn ascii_lower_char(c: char) -> char {
    if 'A' <= c <= 'Z' {
        ((c as u32 + 32) as u32) as char
    } else {
        c
    }
}

pub open spec fn ascii_upper_char(c: char) -> char {
    if 'a' <= c <= 'z' {
        ((c as u32 - 32) as u32) as char
    } else {
        c
    }
}

/// `s` with the letters `A` to `Z` made small.
pub open spec fn ascii_lower(s: Seq<char>) -> Seq<char> {
    s.map_values(|c: char| ascii_lower_char(c))
}

/// `s` with the letters `a` to `z` made capital.
pub open spec fn ascii_upper(s: Seq<char>) -> Seq<char> {
    s.map_values(|c: char| ascii_upper_char(c))
}

fn lower_char(c: char) -> (r: char)
    ensures
        r == ascii_lower_char(c),
{
    if 'A' <= c && c <= 'Z' {
        ((c as u8) + 32) as char
    } else {
        c
    }
}

/// `s` with the letters `A` to `Z` made small and every other character kept.
pub fn to_ascii_lowercase(s: &str) -> (r: String)
    ensures
        r@ == ascii_lower(s@),
{
    let cs = chars_of(s);
    let mut out = String::new();
    let mut i: usize = 0;
    while i < cs.len()
        invariant
            cs@ == s@,
            i <= cs@.len(),
            out@ == ascii_lower(s@.take(i as int)),
        decreases cs@.len() - i,
    {
        out.push(lower_char(cs[i]));
        assert(out@ =~= ascii_lower(s@.take(i + 1)));
        i = i + 1;
    }
    assert(s@.take(i as int) =~= s@);
    out
}

/// Whether the two texts are the same but for the case of the letters `A` to `Z`.
pub open spec fn same_but_case(a: Seq<char>, b: Seq<char>) -> bool {
    ascii_lower(a) == ascii_lower(b)
}

/// Whether the two texts are the same but for the case of the letters `A` to `Z`.
pub fn eq_ignore_ascii_case(a: &str, b: &str) -> (r: bool)
    ensures
        r == same_but_case(a@, b@),
{
    let x = to_ascii_lowercase(a);
    let y = to_ascii_lowercase(b);
    same(x.as_str(), y.as_str())
}

/// The small letters of a text that is not all ASCII, by the Unicode case mapping.
pub uninterp spec fn unicode_lower(s: Seq<char>) -> Seq<char>;

/// The capital letters of a text that is not all ASCII, by the Unicode case mapping.
pub uninterp spec fn unicode_upper(s: Seq<char>) -> Seq<char>;

/// `s` in small letters.
pub open spec fn lower(s: Seq<char>) -> Seq<char> {
    if is_ascii_chars(s) {
        ascii_lower(s)
    } else {
        unicode_lower(s)
    }
}

/// `s` in capital letters.
pub open spec fn upper(s: Seq<char>) -> Seq<char> {
    if is_ascii_chars(s) {
        ascii_upper(s)
    } else {
        unicode_upper(s)
    }
}

/// `str::to_lowercase`: on ASCII text it makes the letters `A` to `Z` small and keeps the
/// rest; on other text the result is a function of the text alone, given a name here. A character
/// gives at least one, and an ASCII character other than `A` to `Z`, which has no small letter of
/// its own, gives itself: so no text becomes empty, and no such character is lost.
#[verifier::external_body]
pub(crate) fn to_lowercase(s: &str) -> (r: String)
    ensures
        is_ascii_chars(s@) ==> r@ == ascii_lower(s@),
        !is_ascii_chars(s@) ==> r@ == unicode_lower(s@),
        s@.len() > 0 ==> r@.len() > 0,
        forall|c: char| #[trigger]
            s@.contains(c) && c <= '\u{7f}' && !('A' <= c <= 'Z') ==> r@.contains(c),
{
    s.to_lowercase()
}

/// `str::to_uppercase`: on ASCII text it makes the letters `a` to `z` capital and keeps the
/// rest; on other text the result is a function of the text alone, given a name here.
#[verifier::external_body]
pub(crate) fn to_uppercase(s: &str) -> (r: String)
    ensures
        is_ascii_chars(s@) ==> r@ == ascii_upper(s@),
        !is_ascii_chars(s@) ==> r@ == unicode_upper(s@),
{
    s.to_uppercase()
}

// ---------------------------------------------------------------------------
// Single characters
// ---------------------------------------------------------------------------

pub open spec fn is_digit(c: char) -> bool {
    '0' <= c <= '9'
}

pub open spec fn is_letter(c: char) -> bool {
    'a' <= c <= 'z' || 'A' <= c <= 'Z'
}

pub open spec fn is_hex_digit(c: char) -> bool {
    is_digit(c) || 'a' <= c <= 'f' || 'A' <= c <= 'F'
}

pub open spec fn all_digits(s: Seq<char>) -> bool {
    forall|i: int| 0 <= i < s.len() ==> is_digit(#[trigger] s[i])
}

pub open spec fn all_hex_digits(s: Seq<char>) -> bool {
    forall|i: int| 0 <= i < s.len() ==> is_hex_digit(#[trigger] s[i])
}

/// Whether every character of `s` is one of `0` to `9`.
pub fn is_all_digits(s: &str) -> (r: bool)
    ensures
        r == all_digits(s@),
{
    let cs = chars_of(s);
    let mut i: usize = 0;
    while i < cs.len()
        invariant
            cs@ == s@,
            i <= cs@.len(),
            forall|j: int| 0 <= j < i ==> is_digit(#[trigger] s@[j]),
        decreases cs@.len() - i,
    {
        let c = cs[i];
        if !('0' <= c && c <= '9') {
            assert(!is_digit(s@[i as int]));
            return false;
        }
        i = i + 1;
    }
    true
}

/// Whether every character of `s` is a hexadecimal digit.
pub fn is_all_hex_digits(s: &str) -> (r: bool)
    ensures
        r == all_hex_digits(s@),
{
    let cs = chars_of(s);
    let mut i: usize = 0;
    while i < cs.len()
        invariant
            cs@ == s@,
            i <= cs@.len(),
            forall|j: int| 0 <= j < i ==> is_hex_digit(#[trigger] s@[j]),
        decreases cs@.len() - i,
    {
        let c = cs[i];
        if !(('0' <= c && c <= '9') || ('a' <= c && c <= 'f') || ('A' <= c && c <= 'F')) {
            assert(!is_hex_digit(s@[i as int]));
            return false;
        }
        i = i + 1;
    }
    true
}

/// `s` with every `from` replaced by `to`.
pub open spec fn with_char_replaced(s: Seq<char>, from: char, to: char) -> Seq<char> {
    s.map_values(|c: char| if c == from { to } else { c })
}

/// `s` with every `from` replaced by `to`.
pub fn replace_char(s: &str, from: char, to: char) -> (r: String)
    ensures
        r@ == with_char_replaced(s@, from, to),
{
    let cs = chars_of(s);
    let mut out = String::new();
    let mut i: usize = 0;
    while i < cs.len()
        invariant
            cs@ == s@,
            i <= cs@.len(),
            out@ == with_char_replaced(s@.take(i as int), from, to),
        decreases cs@.len() - i,
    {
        let c = cs[i];
        out.push(if c == from { to } else { c });
        assert(out@ =~= with_char_replaced(s@.take(i + 1), from, to));
        i = i + 1;
    }
    assert(s@.take(i as int) =~= s@);
    out
}

// ---------------------------------------------------------------------------
// Copies of texts and lists of texts
// ---------------------------------------------------------------------------

/// A copy of an optional text.
pub fn copy_opt(o: &Option<String>) -> (r: Option<String>)
    ensures
        r == *o,
{
    match o {
        Some(s) => Some(s.clone()),
        None => None,
    }
}

/// A copy of a list of texts.
pub fn copy_list(v: &[String]) -> (r: Vec<String>)
    ensures
        r@ == v@,
{
    let mut out: Vec<String> = Vec::new();
    let mut i: usize = 0;
    while i < v.len()
        invariant
            i <= v@.len(),
            out@ == v@.take(i as int),
        decreases v@.len() - i,
    {
        out.push(v[i].clone());
        i = i + 1;
    }
    assert(v@.take(i as int) =~= v@);
    out
}

/// Whether `s` is one of the texts of `v`.
pub fn list_has(v: &[String], s: &str) -> (r: bool)
    ensures
        r == views(v@).contains(s@),
{
    let mut i: usize = 0;
    while i < v.len()
        invariant
            i <= v@.len(),
            forall|j: int| 0 <= j < i ==> views(v@)[j] != s@,
        decreases v@.len() - i,
    {
        if same(v[i].as_str(), s) {
            assert(views(v@)[i as int] == s@);
            return true;
        }
        i = i + 1;
    }
    false
}

/// Text without the separator is one piece.
pub proof fn lemma_one_piece(a: Seq<char>, c: char)
    requires
        !a.contains(c),
    ensures
        pieces(a, seq![c]) == seq![a],
{
    lemma_find_from(a, seq![c], 0);
    if let Some(i) = find(a, seq![c]) {
        assert(a.subrange(i, i + 1)[0] == c);
        assert(a.contains(a[i]));
    }
}

/// Text before the first separator is the first piece.
pub proof fn lemma_first_piece(a: Seq<char>, c: char, b: Seq<char>)
    requires
        !a.contains(c),
    ensures
        pieces(a + seq![c] + b, seq![c]) == seq![a] + pieces(b, seq![c]),
{
    let s = a + seq![c] + b;
    let n = a.len() as int;
    lemma_find_from(s, seq![c], 0);
    assert(s.subrange(n, n + 1) =~= seq![c]);
    assert(occurs_at(s, seq![c], n));
    match find(s, seq![c]) {
        Some(i) => {
            if i < n {
                assert(s.subrange(i, i + 1)[0] == c);
                assert(a[i] == c);
                assert(a.contains(c));
            }
            assert(i == n);
            assert(s.take(n) =~= a);
            assert(s.skip(n + 1) =~= b);
        },
        None => {},
    }
}

/// What stands behind a separator is shorter than the whole.
pub proof fn lemma_cut_shrinks(s: Seq<char>, p: Seq<char>)
    ensures
        cut(s, p) matches Some((a, b)) ==> a.len() + p.len() + b.len() == s.len(),
{
    lemma_find_from(s, p, 0);
}

/// A text is cut at the first separator.
pub proof fn lemma_cut_at(a: Seq<char>, c: char, b: Seq<char>)
    requires
        !a.contains(c),
    ensures
        cut(a + seq![c] + b, seq![c]) == Some((a, b)),
{
    let s = a + seq![c] + b;
    let n = a.len() as int;
    lemma_find_from(s, seq![c], 0);
    assert(s.subrange(n, n + 1) =~= seq![c]);
    assert(occurs_at(s, seq![c], n));
    match find(s, seq![c]) {
        Some(i) => {
            if i < n {
                assert(s.subrange(i, i + 1)[0] == c);
                assert(a[i] == c);
                assert(a.contains(c));
            }
            assert(i == n);
            assert(s.take(n) =~= a);
            assert(s.skip(n + 1) =~= b);
        },
        None => {},
    }
}

/// A text without the separator is not cut.
pub proof fn lemma_no_cut(a: Seq<char>, c: char)
    requires
        !a.contains(c),
    ensures
        cut(a, seq![c]) is None,
{
    lemma_find_from(a, seq![c], 0);
    if let Some(i) = find(a, seq![c]) {
        assert(a.subrange(i, i + 1)[0] == c);
        assert(a.contains(a[i]));
    }
}

/// Small ASCII letters, digits and signs stay as they are in small letters.
pub proof fn lemma_lower_kept(s: Seq<char>)
    requires
        forall|i: int| 0 <= i < s.len() ==> '\0' <= #[trigger] s[i] <= '\u{7f}' && !('A' <= s[i] <= 'Z'),
    ensures
        lower(s) == s,
{
    assert(is_ascii_chars(s));
    assert(ascii_lower(s) =~= s);
}

// ---------------------------------------------------------------------------
// Quoting
// ---------------------------------------------------------------------------

/// Printable ASCII text without quotes and backslashes.
pub open spec fn is_plain(s: Seq<char>) -> bool {
    forall|i: int|
        0 <= i < s.len() ==> ' ' <= #[trigger] s[i] <= '~' && s[i] != '"' && s[i] != '\\'
}

/// A text that is not plain, in quotes and with its special characters escaped.
pub uninterp spec fn escaped_quote(s: Seq<char>) -> Seq<char>;

/// `s` in quotes.
pub open spec fn quoted(s: Seq<char>) -> Seq<char> {
    if is_plain(s) {
        seq!['"'] + s + seq!['"']
    } else {
        escaped_quote(s)
    }
}

/// The `Debug` form of `str`: the text in double quotes, where special characters are escaped.
/// Printable ASCII other than the quote and the backslash stays as it is; the form of other
/// text is a function of the text alone, given a name here.
#[verifier::external_body]
pub(crate) fn quote(s: &str) -> (r: String)
    ensures
        is_plain(s@) ==> r@ == seq!['"'] + s@ + seq!['"'],
        !is_plain(s@) ==> r@ == escaped_quote(s@),
{
    format!("{:?}", s)
}

// ---------------------------------------------------------------------------
// Putting texts together
// ---------------------------------------------------------------------------

/// `a` and `b` in a row.
pub fn cat2(a: &str, b: &str) -> (r: String)
    ensures
        r@ == a@ + b@,
{
    let mut out = a.to_owned();
    out.append(b);
    out
}

/// Three texts in a row.
pub fn cat3(a: &str, b: &str, c: &str) -> (r: String)
    ensures
        r@ == a@ + b@ + c@,
{
    let mut out = cat2(a, b);
    out.append(c);
    out
}

/// Four texts in a row.
pub fn cat4(a: &str, b: &str, c: &str, d: &str) -> (r: String)
    ensures
        r@ == a@ + b@ + c@ + d@,
{
    let mut out = cat3(a, b, c);
    out.append(d);
    out
}

/// Five texts in a row.
pub fn cat5(a: &str, b: &str, c: &str, d: &str, e: &str) -> (r: String)
    ensures
        r@ == a@ + b@ + c@ + d@ + e@,
{
    let mut out = cat4(a, b, c, d);
    out.append(e);
    out
}

/// Seven texts in a row.
pub fn cat7(a: &str, b: &str, c: &str, d: &str, e: &str, f: &str, g: &str) -> (r: String)
    ensures
        r@ == a@ + b@ + c@ + d@ + e@ + f@ + g@,
{
    let mut out = cat5(a, b, c, d, e);
    out.append(f);
    out.append(g);
    out
}

// ---------------------------------------------------------------------------
// Searching from the end
// ---------------------------------------------------------------------------

/// The last position at or before `i` at which `p` stands in `s`.
pub open spec fn find_last_from(s: Seq<char>, p: Seq<char>, i: int) -> Option<int>
    decreases i + 1,
{
    if i < 0 {
        None
    } else if occurs_at(s, p, i) {
        Some(i)
    } else {
        find_last_from(s, p, i - 1)
    }
}

/// The last position at which `p` stands in `s`.
pub open spec fn find_last(s: Seq<char>, p: Seq<char>) -> Option<int> {
    find_last_from(s, p, s.len() - p.len())
}

/// The last position at which `p` stands in `s`.
pub fn last_position(s: &str, p: &str) -> (r: Option<usize>)
    ensures
        match r {
            Some(i) => find_last(s@, p@) == Some(i as int) && i + p@.len() <= s@.len(),
            None => find_last(s@, p@) is None,
        },
{
    let cs = chars_of(s);
    let ps = chars_of(p);
    if ps.len() > cs.len() {
        return None;
    }
    let mut k: usize = cs.len() - ps.len();
    loop
        invariant
            cs@ == s@,
            ps@ == p@,
            k + p@.len() <= s@.len(),
            find_last(s@, p@) == find_last_from(s@, p@, k as int),
        decreases k,
    {
        if matches_at(&cs, &ps, k) {
            return Some(k);
        }
        if k == 0 {
            assert(find_last_from(s@, p@, -1) is None);
            return None;
        }
        k = k - 1;
    }
}

// ---------------------------------------------------------------------------
// Lines
// ---------------------------------------------------------------------------

/// `s` without one carriage return at its end.
pub open spec fn without_return(s: Seq<char>) -> Seq<char> {
    if s.len() > 0 && s.last() == '\r' {
        s.drop_last()
    } else {
        s
    }
}

/// The lines of `s`: line feeds end them, with or without a carriage return in front, and the
/// last line needs none.
pub open spec fn lines_of(s: Seq<char>) -> Seq<Seq<char>> {
    let ps = pieces(s, seq!['\n']);
    let ended = ps.drop_last().map_values(|l: Seq<char>| without_return(l));
    if ps.last().len() == 0 {
        ended
    } else {
        ended.push(ps.last())
    }
}

fn drop_return(s: &str) -> (r: String)
    ensures
        r@ == without_return(s@),
{
    let cs = chars_of(s);
    let n: usize = cs.len();
    if n > 0 && cs[n - 1] == '\r' {
        assert(cs@.subrange(0, n - 1) =~= s@.drop_last());
        text_of(&cs, 0, n - 1)
    } else {
        s.to_owned()
    }
}

/// The lines of a text.
pub fn lines(s: &str) -> (r: Vec<String>)
    ensures
        views(r@) == lines_of(s@),
{
    proof {
        reveal_strlit("\n");
        assert("\n"@ =~= seq!['\n']);
    }
    let ps = split(s, "\n");
    let ghost all = pieces(s@, seq!['\n']);
    let ghost ended = all.drop_last().map_values(|l: Seq<char>| without_return(l));
    let n: usize = ps.len();
    let mut out: Vec<String> = Vec::new();
    let mut i: usize = 0;
    while i + 1 < n
        invariant
            n == ps@.len(),
            n > 0,
            i < n,
            views(ps@) == all,
            ended == all.drop_last().map_values(|l: Seq<char>| without_return(l)),
            out@.len() == i,
            forall|k: int| 0 <= k < i ==> #[trigger] out@[k]@ == ended[k],
        decreases n - i,
    {
        let l = drop_return(ps[i].as_str());
        assert(ps@[i as int]@ == all[i as int]);
        out.push(l);
        i = i + 1;
    }
    assert(views(out@) =~= ended);
    assert(ps@[n - 1]@ == all.last());
    if ps[n - 1].as_str().unicode_len() > 0 {
        let l = ps[n - 1].clone();
        out.push(l);
        assert(views(out@) =~= ended.push(all.last()));
    }
    out
}

// ---------------------------------------------------------------------------
// Numbers
// ---------------------------------------------------------------------------

/// The decimal digit `d`.
pub open spec fn digit_char(d: nat) -> char {
    ('0' as u32 + d) as char
}

/// `n` in decimal digits.
pub open spec fn decimal(n: nat) -> Seq<char>
    decreases n,
{
    if n < 10 {
        seq![digit_char(n)]
    } else {
        decimal(n / 10).push(digit_char(n % 10))
    }
}

/// Different numbers have different digits.
pub proof fn decimals_differ(a: nat, b: nat)
    requires
        a != b,
    ensures
        decimal(a) != decimal(b),
    decreases a + b,
{
    if decimal(a) == decimal(b) {
        lemma_decimal_len(a);
        lemma_decimal_len(b);
        assert(decimal(a).last() == digit_char(a % 10));
        assert(decimal(b).last() == digit_char(b % 10));
        assert(a % 10 == b % 10);
        if a >= 10 && b >= 10 {
            assert(decimal(a).drop_last() =~= decimal(a / 10));
            assert(decimal(b).drop_last() =~= decimal(b / 10));
            decimals_differ(a / 10, b / 10);
        }
    }
}

proof fn lemma_decimal_len(n: nat)
    ensures
        n < 10 ==> decimal(n).len() == 1,
        n >= 10 ==> decimal(n).len() > 1,
    decreases n,
{
    if n >= 10 {
        lemma_decimal_len(n / 10);
    }
}

/// `n` in decimal digits.
pub fn decimal_text(n: u64) -> (r: String)
    ensures
        r@ == decimal(n as nat),
    decreases n,
{
    let d: u8 = (n % 10) as u8;
    let c: char = (48 + d) as char;
    assert(c == digit_char((n % 10) as nat));
    if n < 10 {
        let mut out = String::new();
        out.push(c);
        assert(out@ =~= seq![digit_char(n as nat)]);
        out
    } else {
        let mut out = decimal_text(n / 10);
        out.push(c);
        out
    }
}

// ---------------------------------------------------------------------------
// Bytes as text
// ---------------------------------------------------------------------------

/// `std::str::from_utf8`: bytes that are valid UTF-8 give the text that they encode; others
/// give none.
#[verifier::external_body]
pub(crate) fn text_of_bytes(bytes: &[u8]) -> (r: Option<String>)
    ensures
        match r {
            Some(s) => valid_utf8(bytes@) && s@ == decode_utf8(bytes@),
            None => !valid_utf8(bytes@),
        },
{
    std::str::from_utf8(bytes).ok().map(|s| s.to_string())
}

/// Adds copies of the texts of `more` behind those of `v`.
pub fn extend_list(v: &mut Vec<String>, more: &[String])
    ensures
        views(final(v)@) == views(old(v)@) + views(more@),
{
    let ghost start = views(v@);
    let mut i: usize = 0;
    assert(start + views(more@).take(0) =~= start);
    while i < more.len()
        invariant
            i <= more@.len(),
            views(v@) == start + views(more@).take(i as int),
        decreases more@.len() - i,
    {
        let ghost before = views(v@);
        let s = more[i].clone();
        v.push(s);
        assert(views(v@) =~= before.push(more@[i as int]@));
        assert(views(v@) =~= start + views(more@).take(i + 1));
        i = i + 1;
    }
    assert(views(more@).take(i as int) =~= views(more@));
}

// ---------------------------------------------------------------------------
// What is promised of texts
// ---------------------------------------------------------------------------

/// Whether the two characters are one letter of `a` to `z`, small and capital.
pub open spec fn differ_in_case(a: char, b: char) -> bool {
    ||| 'a' <= a <= 'z' && b as u32 + 32 == a as u32
    ||| 'a' <= b <= 'z' && a as u32 + 32 == b as u32
}

/// Whether two texts differ at most in the case of their letters, character by character.
pub open spec fn equal_but_case(a: Seq<char>, b: Seq<char>) -> bool {
    a.len() == b.len() && forall|i: int|
        0 <= i < a.len() ==> (#[trigger] a[i] == b[i] || differ_in_case(a[i], b[i]))
}

/// Two ASCII texts are the same in small letters exactly where they differ at most in case, and
/// so in capital letters.
pub proof fn small_letters_forget_only_case(a: Seq<char>, b: Seq<char>)
    ensures
        same_but_case(a, b) <==> equal_but_case(a, b),
        is_ascii_chars(a) && is_ascii_chars(b) ==> (lower(a) == lower(b) <==> equal_but_case(a, b)),
        is_ascii_chars(a) && is_ascii_chars(b) ==> (upper(a) == upper(b) <==> equal_but_case(a, b)),
{
    let x = ascii_lower(a);
    let y = ascii_lower(b);
    let xx = ascii_upper(a);
    let yy = ascii_upper(b);
    if x == y {
        assert(x.len() == a.len() && y.len() == b.len());
        assert forall|i: int| 0 <= i < a.len() implies (#[trigger] a[i] == b[i] || differ_in_case(
            a[i],
            b[i],
        )) by {
            assert(x[i] == ascii_lower_char(a[i]));
            assert(y[i] == ascii_lower_char(b[i]));
        }
    }
    if xx == yy {
        assert(xx.len() == a.len() && yy.len() == b.len());
        assert forall|i: int| 0 <= i < a.len() implies (#[trigger] a[i] == b[i] || differ_in_case(
            a[i],
            b[i],
        )) by {
            assert(xx[i] == ascii_upper_char(a[i]));
            assert(yy[i] == ascii_upper_char(b[i]));
        }
    }
    if equal_but_case(a, b) {
        assert forall|i: int| 0 <= i < x.len() implies x[i] == y[i] && xx[i] == yy[i] by {
            assert(a[i] == b[i] || differ_in_case(a[i], b[i]));
        }
        assert(x =~= y);
        assert(xx =~= yy);
    }
}

/// No capital letter is left in small letters, and no small one in capital letters; what is no
/// letter stays.
pub proof fn a_case_is_left_by_its_letters(s: Seq<char>, i: int)
    requires
        is_ascii_chars(s),
        0 <= i < s.len(),
    ensures
        lower(s).len() == s.len(),
        upper(s).len() == s.len(),
        lower(s)[i] == s[i] || differ_in_case(lower(s)[i], s[i]),
        upper(s)[i] == s[i] || differ_in_case(upper(s)[i], s[i]),
        !('A' <= lower(s)[i] <= 'Z'),
        !('a' <= upper(s)[i] <= 'z'),
{
}

proof fn lemma_leading(s: Seq<char>)
    ensures
        exists|n: int|
            0 <= n <= s.len() && without_leading(s) == s.skip(n) && (forall|i: int|
                0 <= i < n ==> is_space(#[trigger] s[i])),
        without_leading(s).len() > 0 ==> !is_space(without_leading(s)[0]),
    decreases s.len(),
{
    if s.len() > 0 && is_space(s[0]) {
        let t = s.skip(1);
        lemma_leading(t);
        let n = choose|n: int|
            0 <= n <= t.len() && without_leading(t) == t.skip(n) && (forall|i: int|
                0 <= i < n ==> is_space(#[trigger] t[i]));
        assert(t.skip(n) =~= s.skip(n + 1));
        assert forall|i: int| 0 <= i < n + 1 implies is_space(#[trigger] s[i]) by {
            if i > 0 {
                assert(t[i - 1] == s[i]);
            }
        }
    } else {
        assert(s.skip(0) =~= s);
    }
}

proof fn lemma_trailing(s: Seq<char>)
    ensures
        exists|n: int|
            0 <= n <= s.len() && without_trailing(s) == s.take(n) && (forall|i: int|
                n <= i < s.len() ==> is_space(#[trigger] s[i])),
        without_trailing(s).len() > 0 ==> !is_space(without_trailing(s).last()),
    decreases s.len(),
{
    if s.len() > 0 && is_space(s.last()) {
        let t = s.drop_last();
        lemma_trailing(t);
        let n = choose|n: int|
            0 <= n <= t.len() && without_trailing(t) == t.take(n) && (forall|i: int|
                n <= i < t.len() ==> is_space(#[trigger] t[i]));
        assert(t.take(n) =~= s.take(n));
        assert forall|i: int| n <= i < s.len() implies is_space(#[trigger] s[i]) by {
            if i < t.len() {
                assert(t[i] == s[i]);
            }
        }
    } else {
        assert(s.take(s.len() as int) =~= s);
    }
}

/// Trimming takes white space off both ends of a text, all of it and nothing else: what is left
/// is a part of the text with only white space around it, and begins and ends otherwise.
pub proof fn trimming_takes_white_space_off(s: Seq<char>)
    ensures
        exists|m: int, n: int|
            #![trigger s.subrange(m, n)]
            0 <= m <= n <= s.len() && trimmed(s) == s.subrange(m, n) && (forall|i: int|
                0 <= i < m || n <= i < s.len() ==> is_space(#[trigger] s[i])),
        trimmed(s).len() > 0 ==> !is_space(trimmed(s)[0]) && !is_space(trimmed(s).last()),
        is_space(' ') && is_space('\t') && is_space('\n') && is_space('\r'),
        forall|c: char| '!' <= c <= '~' ==> !#[trigger] is_space(c),
{
    lemma_leading(s);
    let t = without_leading(s);
    lemma_trailing(t);
    let m = choose|n: int|
        0 <= n <= s.len() && without_leading(s) == s.skip(n) && (forall|i: int|
            0 <= i < n ==> is_space(#[trigger] s[i]));
    let k = choose|n: int|
        0 <= n <= t.len() && without_trailing(t) == t.take(n) && (forall|i: int|
            n <= i < t.len() ==> is_space(#[trigger] t[i]));
    assert(t.take(k) =~= s.subrange(m, m + k));
    assert forall|i: int| 0 <= i < m || m + k <= i < s.len() implies is_space(
        #[trigger] s[i],
    ) by {
        if i >= m + k {
            assert(t[i - m] == s[i]);
        }
    }
    if trimmed(s).len() > 0 {
        assert(trimmed(s)[0] == t[0]);
    }
}

/// A text without white space at its ends is left as it is.
pub proof fn trimming_keeps_what_is_trimmed(s: Seq<char>)
    requires
        s.len() > 0 ==> !is_space(s[0]) && !is_space(s.last()),
    ensures
        trimmed(s) == s,
{
}

proof fn lemma_joined_from_first(parts: Seq<Seq<char>>, sep: Seq<char>)
    requires
        parts.len() > 1,
    ensures
        joined(parts, sep) == parts[0] + sep + joined(parts.skip(1), sep),
    decreases parts.len(),
{
    let rest = parts.skip(1);
    if parts.len() == 2 {
        assert(parts.drop_last()[0] == parts[0]);
        assert(joined(parts.drop_last(), sep) == parts[0]);
        assert(joined(rest, sep) == parts[1]);
    } else {
        lemma_joined_from_first(parts.drop_last(), sep);
        assert(parts.drop_last().skip(1) =~= rest.drop_last());
        assert(parts.drop_last()[0] == parts[0]);
        assert(rest.last() == parts.last());
        assert(joined(parts, sep) =~= parts[0] + sep + joined(rest, sep));
    }
}

/// The pieces of a text, joined by what stood between them, are the text again, and the
/// separator stands in none of them.
pub proof fn pieces_join_to_the_text(s: Seq<char>, p: Seq<char>)
    requires
        p.len() > 0,
    ensures
        joined(pieces(s, p), p) == s,
        pieces(s, p).len() > 0,
        forall|k: int, j: int|
            #![trigger occurs_at(pieces(s, p)[k], p, j)]
            0 <= k < pieces(s, p).len() ==> !occurs_at(pieces(s, p)[k], p, j),
    decreases s.len(),
{
    lemma_find_from(s, p, 0);
    match find(s, p) {
        Some(i) => {
            let first = s.take(i);
            let tail = s.skip(i + p.len());
            pieces_join_to_the_text(tail, p);
            let ps = pieces(s, p);
            assert(ps == seq![first] + pieces(tail, p));
            assert(ps.skip(1) =~= pieces(tail, p));
            lemma_joined_from_first(ps, p);
            assert(s.subrange(i, i + p.len()) == p);
            assert(first + p + tail =~= s);
            assert forall|k: int, j: int|
                #![trigger occurs_at(ps[k], p, j)]
                0 <= k < ps.len() implies !occurs_at(ps[k], p, j) by {
                if k == 0 {
                    if occurs_at(first, p, j) {
                        assert(first.subrange(j, j + p.len()) =~= s.subrange(j, j + p.len()));
                        assert(occurs_at(s, p, j));
                    }
                } else {
                    assert(ps[k] == pieces(tail, p)[k - 1]);
                }
            }
        },
        None => {
            assert(pieces(s, p) =~= seq![s]);
            assert forall|k: int, j: int|
                #![trigger occurs_at(pieces(s, p)[k], p, j)]
                0 <= k < pieces(s, p).len() implies !occurs_at(pieces(s, p)[k], p, j) by {
                assert(pieces(s, p)[k] == s);
            }
        },
    }
}

/// A text is cut at the first place where the separator stands: the halves and the separator
/// make the text again, and the separator stands nowhere before.
pub proof fn a_cut_is_at_the_first_place(s: Seq<char>, p: Seq<char>)
    ensures
        match cut(s, p) {
            Some((a, b)) => s == a + p + b && forall|j: int| j < a.len() ==> !occurs_at(s, p, j),
            None => forall|j: int| !occurs_at(s, p, j),
        },
{
    lemma_find_from(s, p, 0);
    if let Some((a, b)) = cut(s, p) {
        let i = find(s, p)->0;
        assert(s.subrange(i, i + p.len()) == p);
        assert(a + p + b =~= s);
    }
}

/// A text begins with a prefix, and ends with a suffix, exactly where it is made of it and the
/// rest.
pub proof fn what_is_left_without_an_end(s: Seq<char>, p: Seq<char>, rest: Seq<char>)
    ensures
        after_prefix(s, p) == Some(rest) <==> s == p + rest,
        before_suffix(s, p) == Some(rest) <==> s == rest + p,
        has_prefix(p + rest, p),
        has_suffix(rest + p, p),
        has_prefix(s, p) <==> after_prefix(s, p) is Some,
        has_suffix(s, p) <==> before_suffix(s, p) is Some,
{
    assert((p + rest).take(p.len() as int) =~= p);
    assert((p + rest).skip(p.len() as int) =~= rest);
    assert((rest + p).take(rest.len() as int) =~= rest);
    assert((rest + p).skip(rest.len() as int) =~= p);
    if has_prefix(s, p) {
        assert(s =~= p + s.skip(p.len() as int));
    }
    if has_suffix(s, p) {
        assert(s =~= s.take(s.len() - p.len()) + p);
    }
}

/// A digit behind a number in decimal digits is ten times the number and the digit.
pub proof fn a_digit_behind_a_number(n: nat, d: nat)
    requires
        n > 0,
        d < 10,
    ensures
        decimal(10 * n + d) == decimal(n) + decimal(d),
{
    assert((10 * n + d) / 10 == n);
    assert((10 * n + d) % 10 == d);
    assert(decimal(n) + decimal(d) =~= decimal(n).push(digit_char(d)));
}

/// The digits of the numbers below ten.
pub proof fn one_digit_numbers(n: nat)
    requires
        n < 10,
    ensures
        decimal(n) == seq!["0123456789"@[n as int]],
{
    reveal_strlit("0123456789");
    assert(decimal(n)[0] == "0123456789"@[n as int]);
}

/// The last line needs no line feed, and a line feed ends a line, with the carriage return in
/// front of it.
pub proof fn a_line_feed_ends_a_line(a: Seq<char>, b: Seq<char>)
    requires
        !a.contains('\n'),
    ensures
        a.len() > 0 ==> lines_of(a) == seq![a],
        lines_of(a + seq!['\n'] + b) == seq![
            if a.len() > 0 && a.last() == '\r' {
                a.drop_last()
            } else {
                a
            },
        ] + lines_of(b),
        lines_of(Seq::empty()).len() == 0,
{
    lemma_one_piece(a, '\n');
    lemma_first_piece(a, '\n', b);
    lemma_one_piece(Seq::empty(), '\n');
    assert(lines_of(Seq::empty()) =~= Seq::empty());
    if a.len() > 0 {
        assert(lines_of(a) =~= seq![a]);
    }
    let s = a + seq!['\n'] + b;
    let ps = pieces(s, seq!['\n']);
    let qs = pieces(b, seq!['\n']);
    pieces_join_to_the_text(b, seq!['\n']);
    assert(ps.last() == qs.last());
    assert(ps.drop_last() =~= seq![a] + qs.drop_last());
    assert(lines_of(s) =~= seq![without_return(a)] + lines_of(b));
}

/// The last place of a part is one behind which it stands nowhere.
pub proof fn the_last_place_of_a_part(s: Seq<char>, p: Seq<char>)
    ensures
        match find_last(s, p) {
            Some(i) => occurs_at(s, p, i) && forall|j: int| i < j ==> !occurs_at(s, p, j),
            None => forall|j: int| !occurs_at(s, p, j),
        },
{
    lemma_find_last_from(s, p, s.len() - p.len());
}

proof fn lemma_find_last_from(s: Seq<char>, p: Seq<char>, i: int)
    ensures
        match find_last_from(s, p, i) {
            Some(k) => k <= i && occurs_at(s, p, k) && forall|j: int|
                k < j <= i ==> !occurs_at(s, p, j),
            None => forall|j: int| j <= i ==> !occurs_at(s, p, j),
        },
    decreases i + 1,
{
    if i >= 0 && !occurs_at(s, p, i) {
        lemma_find_last_from(s, p, i - 1);
    }
}

proof fn lemma_word_start_behind(a: Seq<char>, w: Seq<char>)
    requires
        a.len() == 0 || is_space(a.last()),
        forall|i: int| 0 <= i < w.len() ==> !is_space(#[trigger] w[i]),
    ensures
        word_start(a + w) == a.len(),
    decreases w.len(),
{
    let s = a + w;
    if w.len() == 0 {
        assert(s =~= a);
    } else {
        assert(s.last() == w[w.len() - 1]);
        let v = w.drop_last();
        assert forall|i: int| 0 <= i < v.len() implies !is_space(#[trigger] v[i]) by {
            assert(v[i] == w[i]);
        }
        assert(s.drop_last() =~= a + v);
        lemma_word_start_behind(a, v);
    }
}

/// The last word of a text stands behind its last white space.
pub proof fn the_last_word_stands_behind_white_space(a: Seq<char>, w: Seq<char>)
    requires
        a.len() == 0 || is_space(a.last()),
        w.len() > 0,
        forall|i: int| 0 <= i < w.len() ==> !is_space(#[trigger] w[i]),
    ensures
        last_word(a + w) == Some(w),
{
    let s = a + w;
    assert(s.last() == w[w.len() - 1]);
    assert(without_trailing(s) == s);
    lemma_word_start_behind(a, w);
    assert(s.skip(a.len() as int) =~= w);
}

} // verus!
