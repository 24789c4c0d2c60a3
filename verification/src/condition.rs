//! The conditions under which a package takes part in a build.
use crate::table::{lookup, Table};
use crate::text::{
    after_prefix, contains, cut, equal_but_case, find, has_part, is_space, lemma_cut_at,
    lemma_find_from, lemma_lower_kept, lemma_no_cut, lower, occurs_at, pieces, same,
    small_letters_forget_only_case, split, split_once, strip_prefix, to_lowercase, trim, trimmed,
    trimming_keeps_what_is_trimmed, views, without_leading, without_trailing,
};
use vstd::prelude::*;
use vstd::string::*;
use vstd::utf8::is_ascii_chars;

verus! {

broadcast use vstd::string::group_string_axioms;

proof fn lemma_leading_shorter(s: Seq<char>)
    ensures
        without_leading(s).len() <= s.len(),
    decreases s.len(),
{
    if s.len() > 0 && is_space(s[0]) {
        lemma_leading_shorter(s.skip(1));
    }
}

proof fn lemma_trailing_shorter(s: Seq<char>)
    ensures
        without_trailing(s).len() <= s.len(),
    decreases s.len(),
{
    if s.len() > 0 && is_space(s.last()) {
        lemma_trailing_shorter(s.drop_last());
    }
}

/// Trimming never makes a text longer.
pub proof fn lemma_trimmed_shorter(s: Seq<char>)
    ensures
        trimmed(s).len() <= s.len(),
{
    lemma_leading_shorter(s);
    lemma_trailing_shorter(s);
    lemma_leading_shorter(without_trailing(s));
    lemma_trailing_shorter(without_leading(s));
}

proof fn lemma_pieces_no_longer(s: Seq<char>, p: Seq<char>)
    ensures
        forall|k: int| 0 <= k < pieces(s, p).len() ==> (#[trigger] pieces(s, p)[k]).len() <= s.len(),
    decreases s.len(),
{
    lemma_find_from(s, p, 0);
    match find(s, p) {
        Some(i) => if !(p.len() == 0 || i < 0 || i + p.len() > s.len()) {
            let rest = s.skip(i + p.len());
            lemma_pieces_no_longer(rest, p);
            assert forall|k: int| 0 <= k < pieces(s, p).len() implies (#[trigger] pieces(
                s,
                p,
            )[k]).len() <= s.len() by {
                if k > 0 {
                    assert(pieces(s, p)[k] == pieces(rest, p)[k - 1]);
                }
            }
        },
        None => {},
    }
}

/// The pieces around a separator that occurs are shorter than the text.
pub proof fn lemma_pieces_shorter(s: Seq<char>, p: Seq<char>)
    requires
        p.len() > 0,
        has_part(s, p),
    ensures
        forall|k: int| 0 <= k < pieces(s, p).len() ==> (#[trigger] pieces(s, p)[k]).len() < s.len(),
{
    lemma_find_from(s, p, 0);
    let i = find(s, p)->0;
    let rest = s.skip(i + p.len());
    lemma_pieces_no_longer(rest, p);
    assert forall|k: int| 0 <= k < pieces(s, p).len() implies (#[trigger] pieces(s, p)[k]).len()
        < s.len() by {
        if k > 0 {
            assert(pieces(s, p)[k] == pieces(rest, p)[k - 1]);
        }
    }
}

/// Whether an option that is not set counts as having the value `expected`.
pub open spec fn counts_as_off(expected: Seq<char>) -> bool {
    expected == "off"@ || expected == "false"@ || expected == "0"@
}

/// Whether a value, in small letters, switches an option on.
pub open spec fn counts_as_on(value: Seq<char>) -> bool {
    value == "on"@ || value == "true"@ || value == "1"@ || value == "yes"@ || value == "y"@
}

/// Whether `NAME=VALUE` or `NAME` holds, `NAME=VALUE` split at the first `=`.
pub open spec fn atom_holds(t: Seq<char>, options: Seq<(Seq<char>, Seq<char>)>) -> bool {
    match cut(t, "="@) {
        Some((k, v)) => {
            let expected = lower(trimmed(v));
            match lookup(options, trimmed(k)) {
                Some(actual) => lower(actual) == expected,
                None => counts_as_off(expected),
            }
        },
        None => match lookup(options, t) {
            Some(value) => counts_as_on(lower(value)),
            None => false,
        },
    }
}

/// Whether a condition holds for the given options. `||` binds loosest, then `&&`, then `!`;
/// an empty condition holds. (The parts of a condition are always shorter than it.)
pub open spec fn condition_holds(cond: Seq<char>, options: Seq<(Seq<char>, Seq<char>)>) -> bool
    decreases cond.len(),
{
    let t = trimmed(cond);
    if t.len() == 0 {
        true
    } else if has_part(t, "||"@) {
        exists|i: int|
            0 <= i < pieces(t, "||"@).len() && (#[trigger] pieces(t, "||"@)[i]).len() < cond.len()
                && condition_holds(pieces(t, "||"@)[i], options)
    } else if has_part(t, "&&"@) {
        forall|i: int|
            0 <= i < pieces(t, "&&"@).len() && (#[trigger] pieces(t, "&&"@)[i]).len() < cond.len()
                ==> condition_holds(pieces(t, "&&"@)[i], options)
    } else {
        match after_prefix(t, "!"@) {
            Some(rest) => rest.len() < cond.len() && !condition_holds(rest, options),
            None => atom_holds(t, options),
        }
    }
}

fn atom(t: &str, options: &Table<String>) -> (r: bool)
    ensures
        r == atom_holds(t@, options.texts()),
{
    match split_once(t, "=") {
        Some((k, v)) => {
            let key = trim(k.as_str());
            let v = trim(v.as_str());
            let expected = to_lowercase(v.as_str());
            match options.text(key.as_str()) {
                Some(actual) => {
                    let a = to_lowercase(actual.as_str());
                    same(a.as_str(), expected.as_str())
                },
                None => same(expected.as_str(), "off") || same(expected.as_str(), "false") || same(
                    expected.as_str(),
                    "0",
                ),
            }
        },
        None => match options.text(t) {
            Some(value) => {
                let l = to_lowercase(value.as_str());
                same(l.as_str(), "on") || same(l.as_str(), "true") || same(l.as_str(), "1") || same(
                    l.as_str(),
                    "yes",
                ) || same(l.as_str(), "y")
            },
            None => false,
        },
    }
}

/// Whether a condition holds for the given options.
pub fn eval_condition(cond: &str, options: &Table<String>) -> (r: bool)
    ensures
        r == condition_holds(cond@, options.texts()),
    decreases cond@.len(),
{
    let trimmed_text = trim(cond);
    let t = trimmed_text.as_str();
    proof {
        lemma_trimmed_shorter(cond@);
        reveal_strlit("||");
        reveal_strlit("&&");
        reveal_strlit("!");
    }
    if t.unicode_len() == 0 {
        return true;
    }
    if contains(t, "||") {
        proof {
            lemma_pieces_shorter(t@, "||"@);
        }
        let parts = split(t, "||");
        let mut i: usize = 0;
        while i < parts.len()
            invariant
                i <= parts@.len(),
                t@ == trimmed(cond@),
                t@.len() > 0,
                t@.len() <= cond@.len(),
                has_part(t@, "||"@),
                views(parts@) == pieces(t@, "||"@),
                forall|k: int|
                    0 <= k < pieces(t@, "||"@).len() ==> (#[trigger] pieces(t@, "||"@)[k]).len()
                        < t@.len(),
                forall|k: int|
                    0 <= k < i ==> !condition_holds(
                        #[trigger] pieces(t@, "||"@)[k],
                        options.texts(),
                    ),
            decreases parts@.len() - i,
        {
            assert(parts@[i as int]@ == pieces(t@, "||"@)[i as int]);
            if eval_condition(parts[i].as_str(), options) {
                return true;
            }
            i = i + 1;
        }
        return false;
    }
    if contains(t, "&&") {
        proof {
            lemma_pieces_shorter(t@, "&&"@);
        }
        let parts = split(t, "&&");
        let mut i: usize = 0;
        while i < parts.len()
            invariant
                i <= parts@.len(),
                t@ == trimmed(cond@),
                t@.len() > 0,
                t@.len() <= cond@.len(),
                !has_part(t@, "||"@),
                has_part(t@, "&&"@),
                views(parts@) == pieces(t@, "&&"@),
                forall|k: int|
                    0 <= k < pieces(t@, "&&"@).len() ==> (#[trigger] pieces(t@, "&&"@)[k]).len()
                        < t@.len(),
                forall|k: int|
                    0 <= k < i ==> condition_holds(
                        #[trigger] pieces(t@, "&&"@)[k],
                        options.texts(),
                    ),
            decreases parts@.len() - i,
        {
            assert(parts@[i as int]@ == pieces(t@, "&&"@)[i as int]);
            if !eval_condition(parts[i].as_str(), options) {
                return false;
            }
            i = i + 1;
        }
        return true;
    }
    match strip_prefix(t, "!") {
        Some(rest) => !eval_condition(rest.as_str(), options),
        None => atom(t, options),
    }
}

// ---------------------------------------------------------------------------
// What is promised of conditions
// ---------------------------------------------------------------------------

/// Whether one of several conditions holds.
pub open spec fn any_holds(parts: Seq<Seq<char>>, options: Seq<(Seq<char>, Seq<char>)>) -> bool {
    exists|i: int| 0 <= i < parts.len() && condition_holds(#[trigger] parts[i], options)
}

/// Whether each of several conditions holds.
pub open spec fn all_hold(parts: Seq<Seq<char>>, options: Seq<(Seq<char>, Seq<char>)>) -> bool {
    forall|i: int| 0 <= i < parts.len() ==> condition_holds(#[trigger] parts[i], options)
}

proof fn lemma_signs()
    ensures
        "||"@ == seq!['|', '|'],
        "&&"@ == seq!['&', '&'],
        "!"@ == seq!['!'],
{
    reveal_strlit("||");
    reveal_strlit("&&");
    reveal_strlit("!");
    assert("||"@ =~= seq!['|', '|']);
    assert("&&"@ =~= seq!['&', '&']);
    assert("!"@ =~= seq!['!']);
}

/// What a condition without white space around it says, part by part.
spec fn holds_in_parts(t: Seq<char>, options: Seq<(Seq<char>, Seq<char>)>) -> bool {
    if t.len() == 0 {
        true
    } else if has_part(t, "||"@) {
        any_holds(pieces(t, "||"@), options)
    } else if has_part(t, "&&"@) {
        all_hold(pieces(t, "&&"@), options)
    } else {
        match after_prefix(t, "!"@) {
            Some(rest) => !condition_holds(rest, options),
            None => atom_holds(t, options),
        }
    }
}

proof fn lemma_holds_in_parts(cond: Seq<char>, options: Seq<(Seq<char>, Seq<char>)>)
    ensures
        condition_holds(cond, options) == holds_in_parts(trimmed(cond), options),
{
    let t = trimmed(cond);
    lemma_signs();
    lemma_trimmed_shorter(cond);
    if has_part(t, "||"@) {
        lemma_pieces_shorter(t, "||"@);
        let parts = pieces(t, "||"@);
        if any_holds(parts, options) {
            let i = choose|i: int|
                0 <= i < parts.len() && condition_holds(#[trigger] parts[i], options);
            assert(parts[i].len() < cond.len());
        }
    } else if has_part(t, "&&"@) {
        lemma_pieces_shorter(t, "&&"@);
    }
}

/// White space around a condition does not matter.
pub proof fn space_around_does_not_matter(
    a: Seq<char>,
    b: Seq<char>,
    options: Seq<(Seq<char>, Seq<char>)>,
)
    requires
        trimmed(a) == trimmed(b),
    ensures
        condition_holds(a, options) == condition_holds(b, options),
{
    lemma_holds_in_parts(a, options);
    lemma_holds_in_parts(b, options);
}

/// A blank condition holds.
pub proof fn a_blank_condition_holds(cond: Seq<char>, options: Seq<(Seq<char>, Seq<char>)>)
    requires
        trimmed(cond).len() == 0,
    ensures
        condition_holds(cond, options),
{
}

proof fn lemma_trim_last(s: Seq<char>)
    requires
        s.len() > 0,
        is_space(s.last()),
    ensures
        trimmed(s) == trimmed(s.drop_last()),
    decreases s.len(),
{
    if s.len() == 1 {
        assert(without_leading(s.skip(1)) =~= Seq::<char>::empty());
        assert(s.drop_last() =~= Seq::<char>::empty());
    } else if is_space(s[0]) {
        lemma_trim_last(s.skip(1));
        assert(s.skip(1).drop_last() =~= s.drop_last().skip(1));
    }
}

/// The first occurrence is the only place with no occurrence before it.
proof fn lemma_find_is(s: Seq<char>, p: Seq<char>, i: int)
    requires
        occurs_at(s, p, i),
        forall|j: int| 0 <= j < i ==> !occurs_at(s, p, j),
    ensures
        find(s, p) == Some(i),
{
    lemma_find_from(s, p, 0);
}

proof fn lemma_find_none(s: Seq<char>, p: Seq<char>)
    requires
        forall|j: int| 0 <= j ==> !occurs_at(s, p, j),
    ensures
        find(s, p) is None,
{
    lemma_find_from(s, p, 0);
}

proof fn lemma_occurs_shifted(w: Seq<char>, s: Seq<char>, p: Seq<char>, i: int)
    requires
        0 <= i,
    ensures
        occurs_at(w + s, p, w.len() + i) == occurs_at(s, p, i),
{
    if i + p.len() <= s.len() {
        assert((w + s).subrange(w.len() + i, w.len() + i + p.len()) =~= s.subrange(i, i + p.len()));
    }
}

proof fn lemma_occurs_within(s: Seq<char>, w: Seq<char>, p: Seq<char>, i: int)
    requires
        0 <= i,
        i + p.len() <= s.len(),
    ensures
        occurs_at(s + w, p, i) == occurs_at(s, p, i),
{
    assert((s + w).subrange(i, i + p.len()) =~= s.subrange(i, i + p.len()));
}

/// A character in front that is not in the separator stays with the first piece.
proof fn lemma_first_character(s: Seq<char>, p: Seq<char>)
    requires
        s.len() > 0,
        p.len() > 0,
        p[0] != s[0],
    ensures
        pieces(s.skip(1), p).len() > 0,
        pieces(s, p) == seq![seq![s[0]] + pieces(s.skip(1), p)[0]] + pieces(s.skip(1), p).skip(1),
{
    let w = seq![s[0]];
    let rest = s.skip(1);
    assert(w + rest =~= s);
    lemma_find_from(rest, p, 0);
    assert(!occurs_at(s, p, 0)) by {
        if occurs_at(s, p, 0) {
            assert(s.subrange(0, p.len() as int)[0] == p[0]);
        }
    }
    assert forall|j: int| 1 <= j implies occurs_at(s, p, j) == occurs_at(rest, p, j - 1) by {
        lemma_occurs_shifted(w, rest, p, j - 1);
    }
    match find(rest, p) {
        Some(i) => {
            assert(occurs_at(s, p, i + 1));
            lemma_find_is(s, p, i + 1);
            assert(s.take(i + 1) =~= w + rest.take(i));
            assert(s.skip(i + 1 + p.len()) =~= rest.skip(i + p.len()));
            assert(pieces(rest, p).skip(1) =~= pieces(rest.skip(i + p.len()), p));
        },
        None => {
            lemma_find_none(s, p);
            assert(pieces(rest, p).skip(1) =~= Seq::<Seq<char>>::empty());
        },
    }
    assert(pieces(s, p) =~= seq![w + pieces(rest, p)[0]] + pieces(rest, p).skip(1));
}

/// A character behind that is not in the separator stays with the last piece.
proof fn lemma_last_character(s: Seq<char>, p: Seq<char>)
    requires
        s.len() > 0,
        p.len() > 0,
        p.last() != s.last(),
    ensures
        pieces(s.drop_last(), p).len() > 0,
        pieces(s, p) == pieces(s.drop_last(), p).drop_last().push(
            pieces(s.drop_last(), p).last().push(s.last()),
        ),
    decreases s.len(),
{
    let init = s.drop_last();
    let w = seq![s.last()];
    assert(init + w =~= s);
    lemma_find_from(init, p, 0);
    assert forall|j: int| 0 <= j implies occurs_at(s, p, j) == occurs_at(init, p, j) by {
        if j + p.len() <= init.len() {
            lemma_occurs_within(init, w, p, j);
        } else if occurs_at(s, p, j) {
            assert(j + p.len() == s.len());
            assert(s.subrange(j, j + p.len())[p.len() - 1] == s.last());
        }
    }
    match find(init, p) {
        Some(i) => {
            lemma_find_is(s, p, i);
            let rest = s.skip(i + p.len());
            assert(rest.drop_last() =~= init.skip(i + p.len()));
            assert(rest.last() == s.last());
            lemma_last_character(rest, p);
            assert(s.take(i) =~= init.take(i));
            let tail = pieces(rest.drop_last(), p);
            assert(pieces(init, p) == seq![init.take(i)] + tail);
            assert(pieces(init, p).last() == tail.last());
            assert(pieces(init, p).drop_last() =~= seq![init.take(i)] + tail.drop_last());
        },
        None => {
            lemma_find_none(s, p);
            assert(init.push(s.last()) =~= s);
        },
    }
    assert(pieces(s, p) =~= pieces(init, p).drop_last().push(pieces(init, p).last().push(s.last())));
}

/// The pieces of two texts around a separator of one sign written twice.
proof fn lemma_pieces_joined(a: Seq<char>, b: Seq<char>, c: char)
    requires
        a.len() == 0 || a.last() != c,
    ensures
        pieces(a + seq![c, c] + b, seq![c, c]) == pieces(a, seq![c, c]) + pieces(b, seq![c, c]),
    decreases a.len(),
{
    let p = seq![c, c];
    let s = a + p + b;
    assert(s =~= a + (p + b));
    lemma_find_from(a, p, 0);
    assert forall|j: int| 0 <= j < a.len() implies occurs_at(s, p, j) == occurs_at(a, p, j) by {
        if j + 2 <= a.len() {
            lemma_occurs_within(a, p + b, p, j);
        } else if occurs_at(s, p, j) {
            assert(s.subrange(j, j + 2)[0] == a.last());
        }
    }
    match find(a, p) {
        Some(i) => {
            lemma_find_is(s, p, i);
            let rest = a.skip(i + 2);
            assert(rest.len() > 0 ==> rest.last() == a.last());
            assert(s.skip(i + 2) =~= rest + p + b);
            assert(s.take(i) =~= a.take(i));
            lemma_pieces_joined(rest, b, c);
            assert(pieces(s, p) =~= seq![a.take(i)] + pieces(rest, p) + pieces(b, p));
        },
        None => {
            assert(s.subrange(a.len() as int, a.len() as int + 2) =~= p);
            lemma_find_is(s, p, a.len() as int);
            assert(s.take(a.len() as int) =~= a);
            assert(s.skip(a.len() as int + 2) =~= b);
        },
    }
    assert(pieces(s, p) =~= pieces(a, p) + pieces(b, p));
}

proof fn lemma_one_or_more(s: Seq<char>, p: Seq<char>)
    ensures
        pieces(s, p).len() > 0,
        !has_part(s, p) ==> pieces(s, p) == seq![s],
{
}

proof fn lemma_any_split(
    a: Seq<Seq<char>>,
    b: Seq<Seq<char>>,
    options: Seq<(Seq<char>, Seq<char>)>,
)
    ensures
        any_holds(a + b, options) == (any_holds(a, options) || any_holds(b, options)),
        all_hold(a + b, options) == (all_hold(a, options) && all_hold(b, options)),
{
    let both = a + b;
    assert forall|i: int| 0 <= i < a.len() implies both[i] == #[trigger] a[i] by {}
    assert forall|i: int| 0 <= i < b.len() implies both[a.len() + i] == #[trigger] b[i] by {}
    if any_holds(both, options) {
        let i = choose|i: int| 0 <= i < both.len() && condition_holds(#[trigger] both[i], options);
        if i < a.len() {
            assert(condition_holds(a[i], options));
        } else {
            assert(condition_holds(b[i - a.len()], options));
        }
    }
    if any_holds(a, options) {
        let i = choose|i: int| 0 <= i < a.len() && condition_holds(#[trigger] a[i], options);
        assert(condition_holds(both[i], options));
    }
    if any_holds(b, options) {
        let i = choose|i: int| 0 <= i < b.len() && condition_holds(#[trigger] b[i], options);
        assert(condition_holds(both[a.len() + i], options));
    }
    if all_hold(both, options) {
        assert forall|i: int| 0 <= i < a.len() implies condition_holds(
            #[trigger] a[i],
            options,
        ) by {
            assert(condition_holds(both[i], options));
        }
        assert forall|i: int| 0 <= i < b.len() implies condition_holds(
            #[trigger] b[i],
            options,
        ) by {
            assert(condition_holds(both[a.len() + i], options));
        }
    }
    if all_hold(a, options) && all_hold(b, options) {
        assert forall|i: int| 0 <= i < both.len() implies condition_holds(
            #[trigger] both[i],
            options,
        ) by {
            if i < a.len() {
                assert(condition_holds(a[i], options));
            } else {
                assert(condition_holds(b[i - a.len()], options));
            }
        }
    }
}

proof fn lemma_single(x: Seq<char>, options: Seq<(Seq<char>, Seq<char>)>)
    ensures
        any_holds(seq![x], options) == condition_holds(x, options),
        all_hold(seq![x], options) == condition_holds(x, options),
{
    assert(seq![x][0] == x);
}

/// White space around a text changes what its pieces say no more than what the text says.
proof fn lemma_trimmed_pieces(s: Seq<char>, c: char, options: Seq<(Seq<char>, Seq<char>)>)
    requires
        !is_space(c),
    ensures
        has_part(trimmed(s), seq![c, c]) == has_part(s, seq![c, c]),
        any_holds(pieces(trimmed(s), seq![c, c]), options) == any_holds(
            pieces(s, seq![c, c]),
            options,
        ),
        all_hold(pieces(trimmed(s), seq![c, c]), options) == all_hold(
            pieces(s, seq![c, c]),
            options,
        ),
    decreases s.len(),
{
    let p = seq![c, c];
    if s.len() > 0 && is_space(s[0]) {
        let rest = s.skip(1);
        lemma_trimmed_pieces(rest, c, options);
        lemma_first_character(s, p);
        let first = pieces(rest, p)[0];
        let others = pieces(rest, p).skip(1);
        assert(pieces(rest, p) =~= seq![first] + others);
        assert((seq![s[0]] + first).skip(1) =~= first);
        space_around_does_not_matter(seq![s[0]] + first, first, options);
        lemma_any_split(seq![first], others, options);
        lemma_any_split(seq![seq![s[0]] + first], others, options);
        lemma_single(first, options);
        lemma_single(seq![s[0]] + first, options);
        lemma_has_by_count(s, p);
        lemma_has_by_count(rest, p);
    } else if s.len() > 0 && is_space(s.last()) {
        let init = s.drop_last();
        lemma_trimmed_pieces(init, c, options);
        lemma_trim_last(s);
        lemma_last_character(s, p);
        let others = pieces(init, p).drop_last();
        let last = pieces(init, p).last();
        assert(pieces(init, p) =~= others + seq![last]);
        assert(pieces(s, p) =~= others + seq![last.push(s.last())]);
        lemma_trim_last(last.push(s.last()));
        assert(last.push(s.last()).drop_last() =~= last);
        space_around_does_not_matter(last.push(s.last()), last, options);
        lemma_any_split(others, seq![last], options);
        lemma_any_split(others, seq![last.push(s.last())], options);
        lemma_single(last, options);
        lemma_single(last.push(s.last()), options);
        lemma_has_by_count(s, p);
        lemma_has_by_count(init, p);
    }
}

proof fn lemma_has_by_count(s: Seq<char>, p: Seq<char>)
    requires
        p.len() > 0,
    ensures
        has_part(s, p) == (pieces(s, p).len() > 1),
{
    lemma_find_from(s, p, 0);
    if let Some(i) = find(s, p) {
        lemma_one_or_more(s.skip(i + p.len()), p);
    }
}

/// A condition holds where one of its pieces between `||` does.
proof fn lemma_holds_as_any(s: Seq<char>, options: Seq<(Seq<char>, Seq<char>)>)
    ensures
        condition_holds(s, options) == any_holds(pieces(s, "||"@), options),
{
    lemma_signs();
    lemma_trimmed_pieces(s, '|', options);
    lemma_holds_in_parts(s, options);
    if has_part(s, "||"@) {
        lemma_find_from(trimmed(s), "||"@, 0);
    } else {
        lemma_one_or_more(s, "||"@);
        lemma_single(s, options);
    }
}

/// A condition without `||` holds where all of its pieces between `&&` do.
proof fn lemma_holds_as_all(s: Seq<char>, options: Seq<(Seq<char>, Seq<char>)>)
    requires
        !has_part(s, "||"@),
    ensures
        condition_holds(s, options) == all_hold(pieces(s, "&&"@), options),
{
    lemma_signs();
    lemma_trimmed_pieces(s, '|', options);
    lemma_trimmed_pieces(s, '&', options);
    lemma_holds_in_parts(s, options);
    if has_part(s, "&&"@) {
        lemma_find_from(trimmed(s), "&&"@, 0);
    } else {
        lemma_one_or_more(s, "&&"@);
        lemma_single(s, options);
    }
}

/// `a||b` holds where `a` does or `b` does, whatever the two are made of. (Behind a `|` the sign
/// would begin a place earlier.)
pub proof fn either_holds(a: Seq<char>, b: Seq<char>, options: Seq<(Seq<char>, Seq<char>)>)
    requires
        a.len() == 0 || a.last() != '|',
    ensures
        condition_holds(a + "||"@ + b, options) == (condition_holds(a, options) || condition_holds(
            b,
            options,
        )),
{
    lemma_signs();
    lemma_pieces_joined(a, b, '|');
    lemma_any_split(pieces(a, "||"@), pieces(b, "||"@), options);
    lemma_holds_as_any(a, options);
    lemma_holds_as_any(b, options);
    lemma_holds_as_any(a + "||"@ + b, options);
}

proof fn lemma_no_part_joined(a: Seq<char>, b: Seq<char>)
    requires
        !has_part(a, "||"@),
        !has_part(b, "||"@),
    ensures
        !has_part(a + "&&"@ + b, "||"@),
{
    lemma_signs();
    let p = "||"@;
    let m = "&&"@;
    let s = a + m + b;
    lemma_find_from(a, p, 0);
    lemma_find_from(b, p, 0);
    lemma_find_from(s, p, 0);
    if let Some(i) = find(s, p) {
        assert(s.subrange(i, i + 2)[0] == '|' && s.subrange(i, i + 2)[1] == '|');
        assert(s[i] == '|' && s[i + 1] == '|');
        if i + 2 <= a.len() {
            assert(s =~= a + (m + b));
            lemma_occurs_within(a, m + b, p, i);
        } else if i >= a.len() + 2 {
            lemma_occurs_shifted(a + m, b, p, i - a.len() - 2);
        } else if i + 1 == a.len() {
            assert(s[i + 1] == '&');
        } else {
            assert(s[i] == '&');
        }
        assert(false);
    }
}

/// `a&&b` holds where `a` and `b` both do, if neither is made of parts around `||`, which binds
/// looser. (Behind a `&` the sign would begin a place earlier.)
pub proof fn both_hold(a: Seq<char>, b: Seq<char>, options: Seq<(Seq<char>, Seq<char>)>)
    requires
        a.len() == 0 || a.last() != '&',
        !has_part(a, "||"@),
        !has_part(b, "||"@),
    ensures
        condition_holds(a + "&&"@ + b, options) == (condition_holds(a, options) && condition_holds(
            b,
            options,
        )),
{
    lemma_signs();
    lemma_pieces_joined(a, b, '&');
    lemma_any_split(pieces(a, "&&"@), pieces(b, "&&"@), options);
    lemma_no_part_joined(a, b);
    lemma_holds_as_all(a, options);
    lemma_holds_as_all(b, options);
    lemma_holds_as_all(a + "&&"@ + b, options);
}

proof fn lemma_trim_behind_mark(s: Seq<char>)
    ensures
        trimmed(seq!['!'] + s) == seq!['!'] + without_trailing(s),
    decreases s.len(),
{
    let c = seq!['!'] + s;
    assert(c[0] == '!');
    if s.len() > 0 && is_space(s.last()) {
        lemma_trim_behind_mark(s.drop_last());
        assert(c.drop_last() =~= seq!['!'] + s.drop_last());
        lemma_trim_last(c);
    } else {
        assert(c.last() == if s.len() > 0 {
            s.last()
        } else {
            '!'
        });
    }
}

proof fn lemma_trim_without_trailing(s: Seq<char>)
    ensures
        trimmed(without_trailing(s)) == trimmed(s),
    decreases s.len(),
{
    if s.len() > 0 && is_space(s.last()) {
        lemma_trim_without_trailing(s.drop_last());
        lemma_trim_last(s);
    }
}

proof fn lemma_part_behind_mark(s: Seq<char>, p: Seq<char>)
    requires
        p.len() > 0,
        p[0] != '!',
        !has_part(s, p),
    ensures
        !has_part(seq!['!'] + s, p),
{
    let c = seq!['!'] + s;
    lemma_find_from(s, p, 0);
    lemma_find_from(c, p, 0);
    if let Some(i) = find(c, p) {
        assert(c.subrange(i, i + p.len())[0] == p[0]);
        assert(i > 0);
        lemma_occurs_shifted(seq!['!'], s, p, i - 1);
    }
}

/// A `!` in front inverts a condition that is not made of parts.
pub proof fn negation_inverts(cond: Seq<char>, options: Seq<(Seq<char>, Seq<char>)>)
    requires
        !has_part(cond, "||"@),
        !has_part(cond, "&&"@),
    ensures
        condition_holds("!"@ + cond, options) == !condition_holds(cond, options),
{
    lemma_signs();
    let c = "!"@ + cond;
    lemma_part_behind_mark(cond, "||"@);
    lemma_part_behind_mark(cond, "&&"@);
    lemma_trimmed_pieces(c, '|', options);
    lemma_trimmed_pieces(c, '&', options);
    lemma_holds_in_parts(c, options);
    lemma_trim_behind_mark(cond);
    let t = trimmed(c);
    assert(t.take("!"@.len() as int) =~= "!"@);
    assert(t.skip("!"@.len() as int) =~= without_trailing(cond));
    lemma_trim_without_trailing(cond);
    space_around_does_not_matter(without_trailing(cond), cond, options);
}

/// Whether a text can stand for the name of an option or for a value in a condition: it has no
/// white space and none of the signs that conditions are made with.
pub open spec fn is_word(s: Seq<char>) -> bool {
    forall|i: int|
        0 <= i < s.len() ==> !is_space(#[trigger] s[i]) && s[i] != '|' && s[i] != '&' && s[i] != '!'
            && s[i] != '='
}

proof fn lemma_plain_atom(t: Seq<char>, options: Seq<(Seq<char>, Seq<char>)>)
    requires
        t.len() > 0,
        forall|i: int|
            0 <= i < t.len() ==> !is_space(#[trigger] t[i]) && t[i] != '|' && t[i] != '&' && t[i]
                != '!',
    ensures
        condition_holds(t, options) == atom_holds(t, options),
{
    lemma_signs();
    assert(!is_space(t[0]) && !is_space(t[t.len() - 1]));
    trimming_keeps_what_is_trimmed(t);
    lemma_holds_in_parts(t, options);
    lemma_find_from(t, "||"@, 0);
    if let Some(i) = find(t, "||"@) {
        assert(t.subrange(i, i + 2)[0] == '|');
    }
    lemma_find_from(t, "&&"@, 0);
    if let Some(i) = find(t, "&&"@) {
        assert(t.subrange(i, i + 2)[0] == '&');
    }
    if after_prefix(t, "!"@) is Some {
        assert(t.take(1)[0] == '!');
    }
}

proof fn lemma_comparison(k: Seq<char>, v: Seq<char>, options: Seq<(Seq<char>, Seq<char>)>)
    requires
        k.len() > 0,
        is_word(k),
        is_word(v),
    ensures
        condition_holds(k + "="@ + v, options) == (match lookup(options, k) {
            Some(actual) => lower(actual) == lower(v),
            None => counts_as_off(lower(v)),
        }),
{
    reveal_strlit("=");
    assert("="@ =~= seq!['=']);
    let t = k + "="@ + v;
    assert forall|i: int| 0 <= i < t.len() implies !is_space(#[trigger] t[i]) && t[i] != '|' && t[i]
        != '&' && t[i] != '!' by {
        if i < k.len() {
            assert(t[i] == k[i]);
        } else if i > k.len() {
            assert(t[i] == v[i - k.len() - 1]);
        }
    }
    lemma_plain_atom(t, options);
    lemma_cut_at(k, '=', v);
    trimming_keeps_what_is_trimmed(k);
    trimming_keeps_what_is_trimmed(v);
}

/// `NAME=VALUE` holds of an option that is set exactly where the option has that value, but for
/// the case of the letters. It does not hold where they differ in anything else.
pub proof fn a_set_option_is_compared_but_for_case(
    k: Seq<char>,
    v: Seq<char>,
    actual: Seq<char>,
    options: Seq<(Seq<char>, Seq<char>)>,
)
    requires
        k.len() > 0,
        is_word(k),
        is_word(v),
        lookup(options, k) == Some(actual),
    ensures
        is_ascii_chars(actual) && is_ascii_chars(v) ==> (condition_holds(k + "="@ + v, options)
            <==> equal_but_case(actual, v)),
        actual == v ==> condition_holds(k + "="@ + v, options),
{
    lemma_comparison(k, v, options);
    small_letters_forget_only_case(actual, v);
}

proof fn lemma_off_words(v: Seq<char>)
    requires
        is_ascii_chars(v),
    ensures
        counts_as_off(lower(v)) <==> equal_but_case(v, "off"@) || equal_but_case(v, "false"@)
            || v == "0"@,
        counts_as_on(lower(v)) <==> equal_but_case(v, "on"@) || equal_but_case(v, "true"@) || v
            == "1"@ || equal_but_case(v, "yes"@) || equal_but_case(v, "y"@),
{
    reveal_strlit("off");
    reveal_strlit("false");
    reveal_strlit("0");
    reveal_strlit("on");
    reveal_strlit("true");
    reveal_strlit("1");
    reveal_strlit("yes");
    reveal_strlit("y");
    let words = seq!["off"@, "false"@, "0"@, "on"@, "true"@, "1"@, "yes"@, "y"@];
    assert forall|i: int| 0 <= i < words.len() implies (lower(v) == #[trigger] words[i]
        <==> equal_but_case(v, words[i])) by {
        lemma_lower_kept(words[i]);
        small_letters_forget_only_case(v, words[i]);
    }
    assert(lower(v) == words[0] <==> equal_but_case(v, words[0]));
    assert(lower(v) == words[1] <==> equal_but_case(v, words[1]));
    assert(lower(v) == words[2] <==> equal_but_case(v, words[2]));
    assert(lower(v) == words[3] <==> equal_but_case(v, words[3]));
    assert(lower(v) == words[4] <==> equal_but_case(v, words[4]));
    assert(lower(v) == words[5] <==> equal_but_case(v, words[5]));
    assert(lower(v) == words[6] <==> equal_but_case(v, words[6]));
    assert(lower(v) == words[7] <==> equal_but_case(v, words[7]));
    if equal_but_case(v, "0"@) {
        assert(v[0] == "0"@[0]);
        assert(v =~= "0"@);
    }
    if equal_but_case(v, "1"@) {
        assert(v[0] == "1"@[0]);
        assert(v =~= "1"@);
    }
}

/// An option that is not set has no value but `OFF`, `FALSE` and `0`: `NAME=VALUE` holds of it
/// exactly for these, in either case.
pub proof fn an_unset_option_is_off(
    k: Seq<char>,
    v: Seq<char>,
    options: Seq<(Seq<char>, Seq<char>)>,
)
    requires
        k.len() > 0,
        is_word(k),
        is_word(v),
        is_ascii_chars(v),
        lookup(options, k) is None,
    ensures
        condition_holds(k + "="@ + v, options) <==> equal_but_case(v, "off"@) || equal_but_case(
            v,
            "false"@,
        ) || v == "0"@,
{
    lemma_comparison(k, v, options);
    lemma_off_words(v);
}

/// A name alone holds exactly where the option is set to `ON`, `TRUE`, `1`, `YES` or `Y`, in
/// either case. It does not hold of an option that is not set.
pub proof fn a_name_alone_asks_whether_the_option_is_on(
    k: Seq<char>,
    options: Seq<(Seq<char>, Seq<char>)>,
)
    requires
        k.len() > 0,
        is_word(k),
    ensures
        lookup(options, k) is None ==> !condition_holds(k, options),
        lookup(options, k) matches Some(v) ==> (is_ascii_chars(v) ==> (condition_holds(k, options)
            <==> equal_but_case(v, "on"@) || equal_but_case(v, "true"@) || v == "1"@
            || equal_but_case(v, "yes"@) || equal_but_case(v, "y"@))),
{
    reveal_strlit("=");
    assert("="@ =~= seq!['=']);
    lemma_plain_atom(k, options);
    lemma_no_cut(k, '=');
    if let Some(v) = lookup(options, k) {
        if is_ascii_chars(v) {
            lemma_off_words(v);
        }
    }
}

proof fn lemma_leading_of_joined(a: Seq<char>, c: char, b: Seq<char>)
    requires
        !is_space(c),
    ensures
        without_leading(a + seq![c] + b) == without_leading(a) + seq![c] + b,
        without_trailing(a + seq![c] + b) == a + seq![c] + without_trailing(b),
    decreases a.len() + b.len(),
{
    let s = a + seq![c] + b;
    if a.len() > 0 && is_space(a[0]) {
        lemma_leading_of_joined(a.skip(1), c, b);
        assert(s.skip(1) =~= a.skip(1) + seq![c] + b);
        assert(s[0] == a[0]);
    } else {
        assert(s[0] == if a.len() > 0 {
            a[0]
        } else {
            c
        });
    }
    if b.len() > 0 && is_space(b.last()) {
        lemma_leading_of_joined(a, c, b.drop_last());
        assert(s.drop_last() =~= a + seq![c] + b.drop_last());
        assert(s.last() == b.last());
    } else {
        assert(s.last() == if b.len() > 0 {
            b.last()
        } else {
            c
        });
        assert(without_trailing(b) == b);
    }
}

/// White space on either side of `=` does not matter.
pub proof fn space_around_the_sign_does_not_matter(
    k: Seq<char>,
    v: Seq<char>,
    before: Seq<char>,
    behind: Seq<char>,
    options: Seq<(Seq<char>, Seq<char>)>,
)
    requires
        k.len() > 0,
        is_word(k),
        is_word(v),
        forall|i: int| 0 <= i < before.len() ==> is_space(#[trigger] before[i]),
        forall|i: int| 0 <= i < behind.len() ==> is_space(#[trigger] behind[i]),
    ensures
        condition_holds(k + before + "="@ + (behind + v), options) == condition_holds(
            k + "="@ + v,
            options,
        ),
{
    reveal_strlit("=");
    assert("="@ =~= seq!['=']);
    lemma_signs();
    lemma_comparison(k, v, options);
    let x = k + before;
    let y = behind + v;
    let t = x + "="@ + y;
    assert(t[0] == k[0]);
    assert(without_leading(t) == t);
    lemma_leading_of_joined(x, '=', y);
    lemma_blank_ends(k, before);
    lemma_blank_starts(behind, v);
    assert forall|i: int| 0 <= i < t.len() implies (#[trigger] t[i]) != '|' && t[i] != '&' && t[i]
        != '!' by {
        if i < k.len() {
            assert(t[i] == k[i]);
        } else if i < x.len() {
            assert(t[i] == before[i - k.len()]);
        } else if i == x.len() {
        } else if i < x.len() + 1 + behind.len() {
            assert(t[i] == behind[i - x.len() - 1]);
        } else {
            assert(t[i] == v[i - x.len() - 1 - behind.len()]);
        }
    }
    assert(!x.contains('=')) by {
        if x.contains('=') {
            let i = choose|i: int| 0 <= i < x.len() && x[i] == '=';
            if i < k.len() {
                assert(k[i] == '=');
            } else {
                assert(is_space(before[i - k.len()]));
            }
        }
    }
    let u = trimmed(t);
    let w = without_trailing(y);
    lemma_trailing_within(y);
    assert(u == x + seq!['='] + w);
    assert forall|i: int| 0 <= i < u.len() implies (#[trigger] u[i]) != '|' && u[i] != '&' && u[i]
        != '!' by {
        if i > x.len() {
            assert(w[i - x.len() - 1] == y[i - x.len() - 1]);
        }
        assert(u[i] == t[i]);
    }
    lemma_holds_in_parts(t, options);
    lemma_find_from(u, "||"@, 0);
    if let Some(i) = find(u, "||"@) {
        assert(u.subrange(i, i + 2)[0] == '|');
    }
    lemma_find_from(u, "&&"@, 0);
    if let Some(i) = find(u, "&&"@) {
        assert(u.subrange(i, i + 2)[0] == '&');
    }
    if after_prefix(u, "!"@) is Some {
        assert(u.take(1)[0] == '!');
    }
    lemma_cut_at(x, '=', w);
    lemma_trim_without_trailing(y);
}

proof fn lemma_trailing_within(s: Seq<char>)
    ensures
        without_trailing(s).len() <= s.len(),
        forall|i: int|
            0 <= i < without_trailing(s).len() ==> #[trigger] without_trailing(s)[i] == s[i],
    decreases s.len(),
{
    if s.len() > 0 && is_space(s.last()) {
        lemma_trailing_within(s.drop_last());
    }
}

proof fn lemma_blank_ends(k: Seq<char>, blank: Seq<char>)
    requires
        k.len() > 0,
        is_word(k),
        forall|i: int| 0 <= i < blank.len() ==> is_space(#[trigger] blank[i]),
    ensures
        trimmed(k + blank) == k,
    decreases blank.len(),
{
    let s = k + blank;
    assert(s[0] == k[0]);
    if blank.len() > 0 {
        let less = blank.drop_last();
        assert forall|i: int| 0 <= i < less.len() implies is_space(#[trigger] less[i]) by {
            assert(less[i] == blank[i]);
        }
        lemma_blank_ends(k, less);
        assert(s.drop_last() =~= k + less);
        assert((k + less)[0] == k[0]);
        assert(s.last() == blank.last());
    } else {
        assert(s =~= k);
        assert(!is_space(k[k.len() - 1]));
    }
}

proof fn lemma_blank_starts(blank: Seq<char>, v: Seq<char>)
    requires
        is_word(v),
        forall|i: int| 0 <= i < blank.len() ==> is_space(#[trigger] blank[i]),
    ensures
        trimmed(blank + v) == v,
    decreases blank.len(),
{
    let s = blank + v;
    if blank.len() > 0 {
        let less = blank.skip(1);
        assert forall|i: int| 0 <= i < less.len() implies is_space(#[trigger] less[i]) by {
            assert(less[i] == blank[i + 1]);
        }
        lemma_blank_starts(less, v);
        assert(s.skip(1) =~= less + v);
        assert(s[0] == blank[0]);
    } else {
        assert(s =~= v);
        trimming_keeps_what_is_trimmed(v);
    }
}

} // verus!
