//! Tables keyed by text, kept in the order of their keys.
use crate::text::{opt_view, same};
use vstd::prelude::*;

verus! {

// ---------------------------------------------------------------------------
// The order of texts
// ---------------------------------------------------------------------------

/// Whether `a` comes before `b` in the order of dictionaries, by code points.
pub open spec fn precedes(a: Seq<char>, b: Seq<char>) -> bool
    decreases a.len(),
{
    if b.len() == 0 {
        false
    } else if a.len() == 0 {
        true
    } else if a[0] != b[0] {
        a[0] < b[0]
    } else {
        precedes(a.skip(1), b.skip(1))
    }
}

/// The order of texts is strict and total.
pub proof fn lemma_precedes_total(a: Seq<char>, b: Seq<char>)
    ensures
        a == b ==> !precedes(a, b),
        precedes(a, b) ==> !precedes(b, a),
        a != b ==> precedes(a, b) || precedes(b, a),
    decreases a.len(),
{
    if a.len() == 0 || b.len() == 0 {
        if a.len() == 0 && b.len() == 0 {
            assert(a =~= b);
        }
    } else if a[0] == b[0] {
        lemma_precedes_total(a.skip(1), b.skip(1));
        if a.skip(1) == b.skip(1) {
            assert(a =~= seq![a[0]] + a.skip(1));
            assert(b =~= seq![b[0]] + b.skip(1));
        }
    }
}

/// The order of texts is transitive.
pub proof fn lemma_precedes_transitive(a: Seq<char>, b: Seq<char>, c: Seq<char>)
    requires
        precedes(a, b),
        precedes(b, c),
    ensures
        precedes(a, c),
    decreases a.len(),
{
    if a.len() == 0 || b.len() == 0 || c.len() == 0 {
    } else if a[0] == b[0] && b[0] == c[0] {
        lemma_precedes_transitive(a.skip(1), b.skip(1), c.skip(1));
    }
}

/// Whether `a` comes before `b`.
pub fn text_precedes(a: &str, b: &str) -> (r: bool)
    ensures
        r == precedes(a@, b@),
{
    let x = crate::text::chars_of(a);
    let y = crate::text::chars_of(b);
    let mut i: usize = 0;
    assert(a@.skip(0) =~= a@);
    assert(b@.skip(0) =~= b@);
    loop
        invariant
            x@ == a@,
            y@ == b@,
            i <= a@.len(),
            i <= b@.len(),
            precedes(a@, b@) == precedes(a@.skip(i as int), b@.skip(i as int)),
        decreases a@.len() - i,
    {
        if i >= y.len() {
            return false;
        }
        if i >= x.len() {
            return true;
        }
        if x[i] != y[i] {
            return x[i] < y[i];
        }
        assert(a@.skip(i as int).skip(1) =~= a@.skip(i + 1));
        assert(b@.skip(i as int).skip(1) =~= b@.skip(i + 1));
        i = i + 1;
    }
}

// ---------------------------------------------------------------------------
// Tables as sequences of pairs
// ---------------------------------------------------------------------------

/// The value beside the first `key`.
pub open spec fn lookup<V>(pairs: Seq<(Seq<char>, V)>, key: Seq<char>) -> Option<V>
    decreases pairs.len(),
{
    if pairs.len() == 0 {
        None
    } else if pairs[0].0 == key {
        Some(pairs[0].1)
    } else {
        lookup(pairs.skip(1), key)
    }
}

/// `pairs` with `value` beside `key`: in place of the value that stood there, or as a new
/// pair before the first greater key.
pub open spec fn inserted<V>(pairs: Seq<(Seq<char>, V)>, key: Seq<char>, value: V) -> Seq<
    (Seq<char>, V),
>
    decreases pairs.len(),
{
    if pairs.len() == 0 {
        seq![(key, value)]
    } else if pairs[0].0 == key {
        seq![(key, value)] + pairs.skip(1)
    } else if precedes(key, pairs[0].0) {
        seq![(key, value)] + pairs
    } else {
        seq![pairs[0]] + inserted(pairs.skip(1), key, value)
    }
}

/// `pairs` with every pair of `more` inserted, in order.
pub open spec fn merged<V>(pairs: Seq<(Seq<char>, V)>, more: Seq<(Seq<char>, V)>) -> Seq<
    (Seq<char>, V),
>
    decreases more.len(),
{
    if more.len() == 0 {
        pairs
    } else {
        inserted(merged(pairs, more.drop_last()), more.last().0, more.last().1)
    }
}

/// `pairs` with every pair of `more` inserted whose key it does not hold yet.
pub open spec fn filled<V>(pairs: Seq<(Seq<char>, V)>, more: Seq<(Seq<char>, V)>) -> Seq<
    (Seq<char>, V),
>
    decreases more.len(),
{
    if more.len() == 0 {
        pairs
    } else {
        let sofar = filled(pairs, more.drop_last());
        if lookup(sofar, more.last().0) is Some {
            sofar
        } else {
            inserted(sofar, more.last().0, more.last().1)
        }
    }
}

/// Whether the keys rise strictly, so that none stands twice.
pub open spec fn ordered<V>(pairs: Seq<(Seq<char>, V)>) -> bool {
    forall|i: int, j: int|
        0 <= i < j < pairs.len() ==> precedes(#[trigger] pairs[i].0, #[trigger] pairs[j].0)
}

proof fn lemma_first_of_inserted<V>(pairs: Seq<(Seq<char>, V)>, key: Seq<char>, value: V)
    ensures
        inserted(pairs, key, value).len() > 0,
        forall|k: Seq<char>|
            precedes(k, key) && (forall|i: int|
                0 <= i < pairs.len() ==> precedes(k, #[trigger] pairs[i].0)) ==> forall|i: int|
                0 <= i < inserted(pairs, key, value).len() ==> precedes(
                    k,
                    #[trigger] inserted(pairs, key, value)[i].0,
                ),
    decreases pairs.len(),
{
    if pairs.len() > 0 && pairs[0].0 != key && !precedes(key, pairs[0].0) {
        lemma_first_of_inserted(pairs.skip(1), key, value);
        let rest = inserted(pairs.skip(1), key, value);
        let all = inserted(pairs, key, value);
        assert forall|k: Seq<char>|
            precedes(k, key) && (forall|i: int|
                0 <= i < pairs.len() ==> precedes(k, #[trigger] pairs[i].0)) implies forall|i: int|
            0 <= i < all.len() ==> precedes(k, #[trigger] all[i].0) by {
            assert forall|i: int| 0 <= i < pairs.skip(1).len() implies precedes(
                k,
                #[trigger] pairs.skip(1)[i].0,
            ) by {
                assert(pairs.skip(1)[i] == pairs[i + 1]);
            }
            assert forall|i: int| 0 <= i < all.len() implies precedes(k, #[trigger] all[i].0) by {
                if i > 0 {
                    assert(all[i] == rest[i - 1]);
                } else {
                    assert(all[0] == pairs[0]);
                }
            }
        }
    }
}

/// Inserting keeps the keys rising: no key ever stands twice.
pub proof fn inserted_stays_ordered<V>(pairs: Seq<(Seq<char>, V)>, key: Seq<char>, value: V)
    requires
        ordered(pairs),
    ensures
        ordered(inserted(pairs, key, value)),
    decreases pairs.len(),
{
    if pairs.len() == 0 {
    } else if pairs[0].0 == key {
        let all = inserted(pairs, key, value);
        assert forall|i: int, j: int| 0 <= i < j < all.len() implies precedes(
            #[trigger] all[i].0,
            #[trigger] all[j].0,
        ) by {
            assert(all[i].0 == pairs[i].0 && all[j].0 == pairs[j].0);
        }
    } else if precedes(key, pairs[0].0) {
        let all = inserted(pairs, key, value);
        assert forall|i: int, j: int| 0 <= i < j < all.len() implies precedes(
            #[trigger] all[i].0,
            #[trigger] all[j].0,
        ) by {
            assert(all[j] == pairs[j - 1]);
            if i == 0 {
                if j > 1 {
                    lemma_precedes_transitive(key, pairs[0].0, pairs[j - 1].0);
                }
            } else {
                assert(all[i] == pairs[i - 1]);
            }
        }
    } else {
        let tail = pairs.skip(1);
        assert forall|i: int, j: int| 0 <= i < j < tail.len() implies precedes(
            #[trigger] tail[i].0,
            #[trigger] tail[j].0,
        ) by {
            assert(tail[i] == pairs[i + 1] && tail[j] == pairs[j + 1]);
        }
        inserted_stays_ordered(tail, key, value);
        lemma_first_of_inserted(tail, key, value);
        lemma_precedes_total(key, pairs[0].0);
        let rest = inserted(tail, key, value);
        let all = inserted(pairs, key, value);
        let first = pairs[0].0;
        assert forall|i: int| 0 <= i < tail.len() implies precedes(first, #[trigger] tail[i].0) by {
            assert(tail[i] == pairs[i + 1]);
        }
        assert forall|i: int, j: int| 0 <= i < j < all.len() implies precedes(
            #[trigger] all[i].0,
            #[trigger] all[j].0,
        ) by {
            assert(all[j] == rest[j - 1]);
            if i > 0 {
                assert(all[i] == rest[i - 1]);
            }
        }
    }
}

/// A key that comes before every key of `pairs` is not among them.
proof fn lemma_lookup_below<V>(pairs: Seq<(Seq<char>, V)>, key: Seq<char>)
    requires
        forall|i: int| 0 <= i < pairs.len() ==> precedes(key, #[trigger] pairs[i].0),
    ensures
        lookup(pairs, key) is None,
    decreases pairs.len(),
{
    if pairs.len() > 0 {
        lemma_precedes_total(key, pairs[0].0);
        assert forall|i: int| 0 <= i < pairs.skip(1).len() implies precedes(
            key,
            #[trigger] pairs.skip(1)[i].0,
        ) by {
            assert(pairs.skip(1)[i] == pairs[i + 1]);
        }
        lemma_lookup_below(pairs.skip(1), key);
    }
}

/// What was inserted is found under its key, and every other key keeps its value.
pub proof fn lookup_after_insert<V>(
    pairs: Seq<(Seq<char>, V)>,
    key: Seq<char>,
    value: V,
    other: Seq<char>,
)
    requires
        ordered(pairs),
    ensures
        lookup(inserted(pairs, key, value), key) == Some(value),
        other != key ==> lookup(inserted(pairs, key, value), other) == lookup(pairs, other),
    decreases pairs.len(),
{
    let all = inserted(pairs, key, value);
    if pairs.len() == 0 {
        assert(all.skip(1) =~= pairs);
        assert(lookup(all, other) == if other == key { Some(value) } else { lookup(pairs, other) });
    } else if pairs[0].0 == key {
        assert(all.skip(1) =~= pairs.skip(1));
    } else if precedes(key, pairs[0].0) {
        assert(all.skip(1) =~= pairs);
    } else {
        let tail = pairs.skip(1);
        assert forall|i: int, j: int| 0 <= i < j < tail.len() implies precedes(
            #[trigger] tail[i].0,
            #[trigger] tail[j].0,
        ) by {
            assert(tail[i] == pairs[i + 1] && tail[j] == pairs[j + 1]);
        }
        lookup_after_insert(tail, key, value, other);
        assert(all.skip(1) =~= inserted(tail, key, value));
    }
}

// ---------------------------------------------------------------------------
// The table
// ---------------------------------------------------------------------------

/// A table from texts to values, in the order of the texts.
#[derive(Debug)]
pub struct Table<V> {
    pub entries: Vec<(String, V)>,
}

impl<V> Table<V> {
    /// The keys and values, in order.
    pub open spec fn pairs(&self) -> Seq<(Seq<char>, V)> {
        self.entries@.map_values(|e: (String, V)| (e.0@, e.1))
    }

    /// Whether the keys rise strictly.
    pub open spec fn wf(&self) -> bool {
        ordered(self.pairs())
    }

    /// The empty table.
    pub fn new() -> (r: Self)
        ensures
            r.pairs() == Seq::<(Seq<char>, V)>::empty(),
            r.wf(),
    {
        let r = Table { entries: Vec::new() };
        assert(r.pairs() =~= Seq::<(Seq<char>, V)>::empty());
        r
    }

    /// How many keys there are.
    pub fn len(&self) -> (r: usize)
        ensures
            r == self.pairs().len(),
    {
        self.entries.len()
    }

    /// Whether there is no key.
    pub fn is_empty(&self) -> (r: bool)
        ensures
            r == (self.pairs().len() == 0),
    {
        self.entries.len() == 0
    }

    /// Where the first `key` stands.
    pub fn position(&self, key: &str) -> (r: Option<usize>)
        ensures
            match r {
                Some(i) => i < self.entries@.len() && self.pairs()[i as int].0 == key@ && lookup(
                    self.pairs(),
                    key@,
                ) == Some(self.entries@[i as int].1),
                None => lookup(self.pairs(), key@) is None,
            },
    {
        let mut i: usize = 0;
        let ghost all = self.pairs();
        assert(all.skip(0) =~= all);
        while i < self.entries.len()
            invariant
                i <= self.entries@.len(),
                all == self.pairs(),
                lookup(all, key@) == lookup(all.skip(i as int), key@),
            decreases self.entries@.len() - i,
        {
            if same(self.entries[i].0.as_str(), key) {
                return Some(i);
            }
            assert(all.skip(i as int).skip(1) =~= all.skip(i + 1));
            i = i + 1;
        }
        None
    }

    /// The value under `key`.
    pub fn get(&self, key: &str) -> (r: Option<&V>)
        ensures
            match r {
                Some(v) => lookup(self.pairs(), key@) == Some(*v),
                None => lookup(self.pairs(), key@) is None,
            },
    {
        match self.position(key) {
            Some(i) => Some(&self.entries[i].1),
            None => None,
        }
    }

    /// Whether there is a value under `key`.
    pub fn contains_key(&self, key: &str) -> (r: bool)
        ensures
            r == (lookup(self.pairs(), key@) is Some),
    {
        self.position(key).is_some()
    }

    /// Puts `value` under `key`.
    #[verifier::loop_isolation(false)]
    pub fn insert(&mut self, key: String, value: V)
        ensures
            final(self).pairs() == inserted(old(self).pairs(), key@, value),
            old(self).wf() ==> final(self).wf(),
    {
        let ghost all = self.pairs();
        let ghost before = self.entries@;
        proof {
            if self.wf() {
                inserted_stays_ordered(all, key@, value);
            }
        }
        let mut i: usize = 0;
        assert(all.skip(0) =~= all);
        assert(all.take(0) + inserted(all, key@, value) =~= inserted(all, key@, value));
        while i < self.entries.len()
            invariant
                i <= self.entries@.len(),
                self.entries@ == before,
                all == before.map_values(|e: (String, V)| (e.0@, e.1)),
                inserted(all, key@, value) == all.take(i as int) + inserted(
                    all.skip(i as int),
                    key@,
                    value,
                ),
            decreases self.entries@.len() - i,
        {
            if same(self.entries[i].0.as_str(), key.as_str()) {
                proof {
                    let rest = all.skip(i as int);
                    assert(rest[0].0 == key@);
                    assert(all.take(i as int) + (seq![(key@, value)] + rest.skip(1)) =~= all.update(
                        i as int,
                        (key@, value),
                    ));
                }
                self.entries.set(i, (key, value));
                assert(self.pairs() =~= all.update(i as int, (key@, value)));
                return;
            }
            if text_precedes(key.as_str(), self.entries[i].0.as_str()) {
                break;
            }
            proof {
                let rest = all.skip(i as int);
                assert(rest.skip(1) =~= all.skip(i + 1));
                assert(inserted(rest, key@, value) == seq![rest[0]] + inserted(
                    rest.skip(1),
                    key@,
                    value,
                ));
                assert(all.take(i as int) + (seq![rest[0]] + inserted(all.skip(i + 1), key@, value))
                    =~= all.take(i + 1) + inserted(all.skip(i + 1), key@, value));
            }
            i = i + 1;
        }
        proof {
            let rest = all.skip(i as int);
            assert(inserted(rest, key@, value) =~= seq![(key@, value)] + rest);
            assert(all.take(i as int) + (seq![(key@, value)] + rest) =~= all.insert(
                i as int,
                (key@, value),
            ));
        }
        self.entries.insert(i, (key, value));
        assert(self.pairs() =~= all.insert(i as int, (key@, value)));
    }
}

// ---------------------------------------------------------------------------
// Tables of texts
// ---------------------------------------------------------------------------

/// A pair with its text in place of the string.
pub open spec fn pair_text(e: (Seq<char>, String)) -> (Seq<char>, Seq<char>) {
    (e.0, e.1@)
}

/// The pairs of a table of strings, as texts.
pub open spec fn texts_of(pairs: Seq<(Seq<char>, String)>) -> Seq<(Seq<char>, Seq<char>)> {
    pairs.map_values(|e: (Seq<char>, String)| pair_text(e))
}

/// Inserting a value and then looking at all values through `f` is the same as inserting what `f`
/// shows of it.
pub proof fn lemma_inserted_seen<V, W>(
    pairs: Seq<(Seq<char>, V)>,
    key: Seq<char>,
    value: V,
    f: spec_fn(V) -> W,
)
    ensures
        inserted(pairs, key, value).map_values(|e: (Seq<char>, V)| (e.0, f(e.1))) == inserted(
            pairs.map_values(|e: (Seq<char>, V)| (e.0, f(e.1))),
            key,
            f(value),
        ),
    decreases pairs.len(),
{
    let g = |e: (Seq<char>, V)| (e.0, f(e.1));
    let all = pairs.map_values(g);
    if pairs.len() == 0 {
        assert(inserted(pairs, key, value).map_values(g) =~= seq![(key, f(value))]);
    } else if pairs[0].0 == key {
        assert(inserted(pairs, key, value).map_values(g) =~= seq![(key, f(value))] + all.skip(1));
    } else if precedes(key, pairs[0].0) {
        assert(inserted(pairs, key, value).map_values(g) =~= seq![(key, f(value))] + all);
    } else {
        lemma_inserted_seen(pairs.skip(1), key, value, f);
        assert(pairs.skip(1).map_values(g) =~= all.skip(1));
        assert(inserted(pairs, key, value).map_values(g) =~= seq![all[0]] + inserted(
            all.skip(1),
            key,
            f(value),
        ));
    }
}

proof fn lemma_texts_of_inserted(pairs: Seq<(Seq<char>, String)>, key: Seq<char>, value: String)
    ensures
        texts_of(inserted(pairs, key, value)) == inserted(texts_of(pairs), key, value@),
{
    let f = |s: String| s@;
    let g = |e: (Seq<char>, String)| (e.0, f(e.1));
    lemma_inserted_seen(pairs, key, value, f);
    assert(texts_of(pairs) =~= pairs.map_values(g));
    assert(texts_of(inserted(pairs, key, value)) =~= inserted(pairs, key, value).map_values(g));
}

proof fn lemma_lookup_in_texts(pairs: Seq<(Seq<char>, String)>, key: Seq<char>)
    ensures
        lookup(texts_of(pairs), key) == opt_view(lookup(pairs, key)),
    decreases pairs.len(),
{
    if pairs.len() > 0 {
        lemma_lookup_in_texts(pairs.skip(1), key);
        assert(texts_of(pairs.skip(1)) =~= texts_of(pairs).skip(1));
    }
}

/// Merging keeps the keys rising.
pub proof fn merged_stays_ordered<V>(pairs: Seq<(Seq<char>, V)>, more: Seq<(Seq<char>, V)>)
    requires
        ordered(pairs),
    ensures
        ordered(merged(pairs, more)),
    decreases more.len(),
{
    if more.len() > 0 {
        merged_stays_ordered(pairs, more.drop_last());
        inserted_stays_ordered(
            merged(pairs, more.drop_last()),
            more.last().0,
            more.last().1,
        );
    }
}

/// Filling keeps the keys rising.
pub proof fn filled_stays_ordered<V>(pairs: Seq<(Seq<char>, V)>, more: Seq<(Seq<char>, V)>)
    requires
        ordered(pairs),
    ensures
        ordered(filled(pairs, more)),
    decreases more.len(),
{
    if more.len() > 0 {
        filled_stays_ordered(pairs, more.drop_last());
        inserted_stays_ordered(
            filled(pairs, more.drop_last()),
            more.last().0,
            more.last().1,
        );
    }
}

/// Merging lets the later table win: a key of `more` gets its last value there, every other
/// key keeps the value it had.
pub proof fn lookup_after_merge<V>(
    pairs: Seq<(Seq<char>, V)>,
    more: Seq<(Seq<char>, V)>,
    key: Seq<char>,
)
    requires
        ordered(pairs),
        ordered(more),
    ensures
        lookup(merged(pairs, more), key) == match lookup(more, key) {
            Some(v) => Some(v),
            None => lookup(pairs, key),
        },
    decreases more.len(),
{
    if more.len() > 0 {
        let init = more.drop_last();
        assert(ordered(init)) by {
            assert forall|i: int, j: int| 0 <= i < j < init.len() implies precedes(
                #[trigger] init[i].0,
                #[trigger] init[j].0,
            ) by {
                assert(init[i] == more[i] && init[j] == more[j]);
            }
        }
        merged_stays_ordered(pairs, init);
        lookup_after_merge(pairs, init, key);
        lookup_after_insert(merged(pairs, init), more.last().0, more.last().1, key);
        lemma_lookup_push(more, key);
    }
}

/// Filling lets the earlier table win: a key that has a value keeps it, and a key that has
/// none gets the value of `more`.
pub proof fn lookup_after_fill<V>(
    pairs: Seq<(Seq<char>, V)>,
    more: Seq<(Seq<char>, V)>,
    key: Seq<char>,
)
    requires
        ordered(pairs),
    ensures
        lookup(filled(pairs, more), key) == match lookup(pairs, key) {
            Some(v) => Some(v),
            None => lookup(more, key),
        },
    decreases more.len(),
{
    if more.len() > 0 {
        let init = more.drop_last();
        filled_stays_ordered(pairs, init);
        lookup_after_fill(pairs, init, key);
        lookup_after_insert(filled(pairs, init), more.last().0, more.last().1, key);
        lemma_lookup_front(more, key);
    }
}

/// In a table whose last key is new, that key has the last value.
proof fn lemma_lookup_push<V>(pairs: Seq<(Seq<char>, V)>, key: Seq<char>)
    requires
        pairs.len() > 0,
        ordered(pairs),
    ensures
        lookup(pairs, key) == if key == pairs.last().0 {
            Some(pairs.last().1)
        } else {
            lookup(pairs.drop_last(), key)
        },
{
    lemma_lookup_front(pairs, key);
    if key == pairs.last().0 {
        let init = pairs.drop_last();
        assert forall|i: int| 0 <= i < init.len() implies #[trigger] init[i].0 != key by {
            assert(init[i] == pairs[i]);
            assert(precedes(pairs[i].0, pairs[pairs.len() - 1].0));
            lemma_precedes_total(pairs[i].0, key);
        }
        lemma_lookup_absent(init, key);
    }
}

proof fn lemma_lookup_absent<V>(pairs: Seq<(Seq<char>, V)>, key: Seq<char>)
    requires
        forall|i: int| 0 <= i < pairs.len() ==> #[trigger] pairs[i].0 != key,
    ensures
        lookup(pairs, key) is None,
    decreases pairs.len(),
{
    if pairs.len() > 0 {
        assert forall|i: int| 0 <= i < pairs.skip(1).len() implies #[trigger] pairs.skip(1)[i].0
            != key by {
            assert(pairs.skip(1)[i] == pairs[i + 1]);
        }
        lemma_lookup_absent(pairs.skip(1), key);
    }
}

/// The first match wins, so the last pair only counts where nothing before it matches.
proof fn lemma_lookup_front<V>(pairs: Seq<(Seq<char>, V)>, key: Seq<char>)
    requires
        pairs.len() > 0,
    ensures
        lookup(pairs, key) == match lookup(pairs.drop_last(), key) {
            Some(v) => Some(v),
            None => if pairs.last().0 == key {
                Some(pairs.last().1)
            } else {
                None
            },
        },
    decreases pairs.len(),
{
    if pairs.len() == 1 {
        assert(lookup(pairs.skip(1), key) is None);
        assert(lookup(pairs.drop_last(), key) is None);
    } else if pairs[0].0 == key {
        assert(pairs.drop_last()[0] == pairs[0]);
    } else {
        lemma_lookup_front(pairs.skip(1), key);
        assert(pairs.skip(1).drop_last() =~= pairs.drop_last().skip(1));
        assert(pairs.drop_last()[0] == pairs[0]);
    }
}

impl Table<String> {
    /// The keys and values as texts, in order.
    pub open spec fn texts(&self) -> Seq<(Seq<char>, Seq<char>)> {
        texts_of(self.pairs())
    }

    /// The text under `key`.
    pub fn text(&self, key: &str) -> (r: Option<&String>)
        ensures
            match r {
                Some(v) => lookup(self.texts(), key@) == Some(v@),
                None => lookup(self.texts(), key@) is None,
            },
    {
        proof {
            lemma_lookup_in_texts(self.pairs(), key@);
        }
        self.get(key)
    }

    /// Whether there is a text under `key`.
    pub fn has_text(&self, key: &str) -> (r: bool)
        ensures
            r == (lookup(self.texts(), key@) is Some),
    {
        self.text(key).is_some()
    }

    /// Puts the text `value` under `key`.
    pub fn set_text(&mut self, key: String, value: String)
        ensures
            final(self).texts() == inserted(old(self).texts(), key@, value@),
            old(self).wf() ==> final(self).wf(),
    {
        proof {
            lemma_texts_of_inserted(self.pairs(), key@, value);
        }
        self.insert(key, value);
    }

    /// A copy of the table.
    pub fn copy(&self) -> (r: Self)
        ensures
            r.texts() == self.texts(),
            r.pairs() == self.pairs(),
            self.wf() ==> r.wf(),
    {
        let mut out: Vec<(String, String)> = Vec::new();
        let mut i: usize = 0;
        while i < self.entries.len()
            invariant
                i <= self.entries@.len(),
                out@ == self.entries@.take(i as int),
            decreases self.entries@.len() - i,
        {
            let k = self.entries[i].0.clone();
            let v = self.entries[i].1.clone();
            out.push((k, v));
            i = i + 1;
        }
        assert(out@ =~= self.entries@);
        Table { entries: out }
    }

    /// Puts every text of `more` under its key, in place of what stood there.
    pub fn merge(&mut self, more: &Table<String>)
        ensures
            final(self).texts() == merged(old(self).texts(), more.texts()),
            old(self).wf() ==> final(self).wf(),
    {
        let ghost start = self.texts();
        let ghost sound = self.wf();
        let mut i: usize = 0;
        assert(more.texts().take(0) =~= Seq::<(Seq<char>, Seq<char>)>::empty());
        while i < more.entries.len()
            invariant
                i <= more.entries@.len(),
                self.texts() == merged(start, more.texts().take(i as int)),
                sound ==> self.wf(),
            decreases more.entries@.len() - i,
        {
            let k = more.entries[i].0.clone();
            let v = more.entries[i].1.clone();
            proof {
                let now = more.texts().take(i + 1);
                assert(now.drop_last() =~= more.texts().take(i as int));
                assert(now.last() == (k@, v@));
            }
            self.set_text(k, v);
            i = i + 1;
        }
        assert(more.texts().take(i as int) =~= more.texts());
    }

    /// Puts every text of `more` under its key where nothing stood there.
    pub fn fill(&mut self, more: &Table<String>)
        ensures
            final(self).texts() == filled(old(self).texts(), more.texts()),
            old(self).wf() ==> final(self).wf(),
    {
        let ghost start = self.texts();
        let ghost sound = self.wf();
        let mut i: usize = 0;
        assert(more.texts().take(0) =~= Seq::<(Seq<char>, Seq<char>)>::empty());
        while i < more.entries.len()
            invariant
                i <= more.entries@.len(),
                self.texts() == filled(start, more.texts().take(i as int)),
                sound ==> self.wf(),
            decreases more.entries@.len() - i,
        {
            let k = more.entries[i].0.clone();
            proof {
                let now = more.texts().take(i + 1);
                assert(now.drop_last() =~= more.texts().take(i as int));
                assert(now.last() == (k@, more.entries@[i as int].1@));
            }
            if !self.has_text(k.as_str()) {
                let v = more.entries[i].1.clone();
                self.set_text(k, v);
            }
            i = i + 1;
        }
        assert(more.texts().take(i as int) =~= more.texts());
    }
}

impl<V> Default for Table<V> {
    fn default() -> (r: Self)
        ensures
            r.pairs() == Seq::<(Seq<char>, V)>::empty(),
            r.wf(),
    {
        Table::new()
    }
}

impl Clone for Table<String> {
    fn clone(&self) -> (r: Self)
        ensures
            r.texts() == self.texts(),
            r.pairs() == self.pairs(),
            self.wf() ==> r.wf(),
    {
        self.copy()
    }
}

// ---------------------------------------------------------------------------
// Tables of lists
// ---------------------------------------------------------------------------

/// The list under `key`; empty where there is none.
pub open spec fn list_under<T>(pairs: Seq<(Seq<char>, Vec<T>)>, key: Seq<char>) -> Seq<T> {
    match lookup(pairs, key) {
        Some(v) => v@,
        None => Seq::empty(),
    }
}

/// Whether every list in a table holds something.
pub open spec fn no_empty_list<T>(pairs: Seq<(Seq<char>, Vec<T>)>) -> bool {
    forall|i: int| 0 <= i < pairs.len() ==> (#[trigger] pairs[i]).1@.len() > 0
}

proof fn lemma_inserted_list<T>(pairs: Seq<(Seq<char>, Vec<T>)>, key: Seq<char>, value: Vec<T>)
    requires
        no_empty_list(pairs),
        value@.len() > 0,
    ensures
        no_empty_list(inserted(pairs, key, value)),
    decreases pairs.len(),
{
    if pairs.len() > 0 {
        let rest = pairs.skip(1);
        assert forall|i: int| 0 <= i < rest.len() implies (#[trigger] rest[i]).1@.len() > 0 by {
            assert(rest[i] == pairs[i + 1]);
        }
        lemma_inserted_list(rest, key, value);
        let all = inserted(pairs, key, value);
        let tail = inserted(rest, key, value);
        assert forall|i: int| 0 <= i < all.len() implies (#[trigger] all[i]).1@.len() > 0 by {
            if pairs[0].0 == key {
                assert(i > 0 ==> all[i] == rest[i - 1]);
            } else if precedes(key, pairs[0].0) {
                assert(i > 0 ==> all[i] == pairs[i - 1]);
            } else {
                assert(i == 0 ==> all[i] == pairs[0]);
                assert(i > 0 ==> all[i] == tail[i - 1]);
            }
        }
    }
}

/// In a table whose keys rise, a key has the value beside it.
pub proof fn lemma_lookup_at<V>(pairs: Seq<(Seq<char>, V)>, i: int)
    requires
        ordered(pairs),
        0 <= i < pairs.len(),
    ensures
        lookup(pairs, pairs[i].0) == Some(pairs[i].1),
    decreases pairs.len(),
{
    if i > 0 {
        assert(precedes(pairs[0].0, pairs[i].0));
        lemma_precedes_total(pairs[0].0, pairs[i].0);
        let rest = pairs.skip(1);
        assert forall|a: int, b: int| 0 <= a < b < rest.len() implies precedes(
            #[trigger] rest[a].0,
            #[trigger] rest[b].0,
        ) by {
            assert(rest[a] == pairs[a + 1] && rest[b] == pairs[b + 1]);
        }
        assert(rest[i - 1] == pairs[i]);
        lemma_lookup_at(rest, i - 1);
    }
}

/// A changed value changes what its key has, and nothing else.
proof fn lemma_lookup_updated<V>(pairs: Seq<(Seq<char>, V)>, i: int, value: V, key: Seq<char>)
    requires
        ordered(pairs),
        0 <= i < pairs.len(),
    ensures
        ordered(pairs.update(i, (pairs[i].0, value))),
        lookup(pairs.update(i, (pairs[i].0, value)), key) == if key == pairs[i].0 {
            Some(value)
        } else {
            lookup(pairs, key)
        },
{
    let new = pairs.update(i, (pairs[i].0, value));
    assert forall|a: int, b: int| 0 <= a < b < new.len() implies precedes(
        #[trigger] new[a].0,
        #[trigger] new[b].0,
    ) by {
        assert(new[a].0 == pairs[a].0 && new[b].0 == pairs[b].0);
    }
    lemma_lookup_at(new, i);
    if key != pairs[i].0 {
        lemma_lookup_other(pairs, new, i, key);
    }
}

proof fn lemma_lookup_other<V>(
    pairs: Seq<(Seq<char>, V)>,
    new: Seq<(Seq<char>, V)>,
    i: int,
    key: Seq<char>,
)
    requires
        0 <= i < pairs.len() == new.len(),
        pairs[i].0 == new[i].0,
        key != pairs[i].0,
        forall|k: int| 0 <= k < pairs.len() && k != i ==> #[trigger] pairs[k] == new[k],
    ensures
        lookup(new, key) == lookup(pairs, key),
    decreases pairs.len(),
{
    if i == 0 {
        assert(pairs.skip(1) =~= new.skip(1));
    } else {
        assert(pairs[0] == new[0]);
        let p = pairs.skip(1);
        let q = new.skip(1);
        assert forall|k: int| 0 <= k < p.len() && k != i - 1 implies #[trigger] p[k] == q[k] by {
            assert(pairs[k + 1] == new[k + 1]);
        }
        lemma_lookup_other(p, q, i - 1, key);
    }
}

impl<T> Table<Vec<T>> {
    /// Adds `value` to the end of the list under `key`.
    pub fn push_under(&mut self, key: &str, value: T)
        requires
            old(self).wf(),
        ensures
            final(self).wf(),
            forall|k: Seq<char>| #[trigger]
                list_under(final(self).pairs(), k) == if k == key@ {
                    list_under(old(self).pairs(), k).push(value)
                } else {
                    list_under(old(self).pairs(), k)
                },
            no_empty_list(old(self).pairs()) ==> no_empty_list(final(self).pairs()),
    {
        let ghost before = self.pairs();
        match self.position(key) {
            Some(i) => {
                self.entries[i].1.push(value);
                let ghost list = self.entries@[i as int].1;
                assert(self.pairs() =~= before.update(i as int, (before[i as int].0, list)));
                proof {
                    assert forall|k: Seq<char>| #[trigger]
                        list_under(self.pairs(), k) == if k == key@ {
                            list_under(before, k).push(value)
                        } else {
                            list_under(before, k)
                        } by {
                        lemma_lookup_updated(before, i as int, list, k);
                    }
                    lemma_lookup_updated(before, i as int, list, key@);
                }
            },
            None => {
                let mut list: Vec<T> = Vec::new();
                list.push(value);
                self.insert(key.to_owned(), list);
                proof {
                    if no_empty_list(before) {
                        lemma_inserted_list(before, key@, list);
                    }
                    assert forall|k: Seq<char>| #[trigger]
                        list_under(self.pairs(), k) == if k == key@ {
                            list_under(before, k).push(value)
                        } else {
                            list_under(before, k)
                        } by {
                        lookup_after_insert(before, key@, list, k);
                        if k == key@ {
                            assert(list@ =~= Seq::<T>::empty().push(value));
                        }
                    }
                }
            },
        }
    }
}

/// Texts are ordered by the first character in which they differ, and the beginning of a text comes
/// before the text.
pub proof fn the_first_difference_decides(
    p: Seq<char>,
    a: char,
    b: char,
    x: Seq<char>,
    y: Seq<char>,
)
    requires
        a != b,
    ensures
        precedes(p + (seq![a] + x), p + (seq![b] + y)) <==> a < b,
        precedes(p, p + (seq![a] + x)),
        !precedes(p + (seq![a] + x), p),
    decreases p.len(),
{
    let s = p + (seq![a] + x);
    let t = p + (seq![b] + y);
    if p.len() == 0 {
        assert(s[0] == a && t[0] == b);
    } else {
        let q = p.skip(1);
        the_first_difference_decides(q, a, b, x, y);
        assert(s.skip(1) =~= q + (seq![a] + x));
        assert(t.skip(1) =~= q + (seq![b] + y));
        assert(s[0] == p[0] && t[0] == p[0]);
    }
}

} // verus!
