//! A map whose keys are texts, kept as a vector of entries sorted by key.
//!
//! Contracts speak of the map through its view, a `Map<Seq<char>, V>`. As the
//! entries are sorted and no key occurs twice, two maps with the same
//! bindings hold the same vector: the derived `==` does not depend on the
//! order in which the bindings were made.
use crate::text::{
    lemma_text_before_irreflexive, lemma_text_before_transitive, rank_texts, text_before, Rank,
};
use vstd::prelude::*;

verus! {

/// A key that stands for a text.
pub trait TextKey: Sized {
    /// The text that the key stands for.
    spec fn text(&self) -> Seq<char>;

    /// The text that the key stands for.
    fn as_text(&self) -> (r: &str)
        ensures
            r@ == self.text(),
    ;

    /// Another key for the same text.
    fn same_key(&self) -> (r: Self)
        ensures
            r.text() == self.text(),
    ;
}

impl TextKey for String {
    open spec fn text(&self) -> Seq<char> {
        self@
    }

    fn as_text(&self) -> (r: &str) {
        self.as_str()
    }

    fn same_key(&self) -> (r: Self) {
        self.clone()
    }
}

/// The keys of `s` stand in strictly ascending order.
pub open spec fn sorted_keys<K: TextKey, V>(s: Seq<(K, V)>) -> bool {
    forall|i: int, j: int|
        0 <= i < j < s.len() ==> text_before((#[trigger] s[i]).0.text(), (#[trigger] s[j]).0.text())
}

/// No two entries of `s` carry the same key.
pub open spec fn distinct_keys<K: TextKey, V>(s: Seq<(K, V)>) -> bool {
    forall|i: int, j: int|
        0 <= i < j < s.len() ==> (#[trigger] s[i]).0.text() != (#[trigger] s[j]).0.text()
}

/// The map that a sequence of entries denotes; of two entries with one key
/// the later one counts.
pub open spec fn pairs_map<K: TextKey, V>(s: Seq<(K, V)>) -> Map<Seq<char>, V>
    decreases s.len(),
{
    if s.len() == 0 {
        Map::empty()
    } else {
        pairs_map(s.drop_last()).insert(s.last().0.text(), s.last().1)
    }
}

/// `entries` enumerates `m`: every entry is a binding of `m`, every key of
/// `m` has an entry, and no key is listed twice.
pub open spec fn enumerates<K: TextKey, V>(entries: Seq<(K, V)>, m: Map<Seq<char>, V>) -> bool {
    &&& distinct_keys(entries)
    &&& m.dom().finite()
    &&& m.len() == entries.len()
    &&& forall|i: int|
        0 <= i < entries.len() ==> m.contains_key((#[trigger] entries[i]).0.text())
            && m[entries[i].0.text()] == entries[i].1
    &&& forall|k: Seq<char>| #[trigger]
        m.contains_key(k) ==> exists|i: int|
            0 <= i < entries.len() && (#[trigger] entries[i]).0.text() == k
}

/// The map of the first `i + 1` entries is the map of the first `i` with
/// the next entry bound.
pub proof fn lemma_pairs_step<K: TextKey, V>(s: Seq<(K, V)>, i: int)
    requires
        0 <= i < s.len(),
    ensures
        pairs_map(s.take(i + 1)) == pairs_map(s.take(i)).insert(s[i].0.text(), s[i].1),
        pairs_map(s.take(0)) == Map::<Seq<char>, V>::empty(),
        pairs_map(s.take(s.len() as int)) == pairs_map(s),
{
    assert(s.take(i + 1).drop_last() =~= s.take(i));
    assert(s.take(i + 1).last() == s[i]);
    assert(s.take(s.len() as int) =~= s);
}

/// The map of no entries is empty, and that of all entries is the map.
pub proof fn lemma_pairs_ends<K: TextKey, V>(s: Seq<(K, V)>)
    ensures
        pairs_map(s.take(0)) == Map::<Seq<char>, V>::empty(),
        pairs_map(s.take(s.len() as int)) == pairs_map(s),
{
    assert(s.take(s.len() as int) =~= s);
}

/// Keys in strictly ascending order are distinct.
pub proof fn lemma_sorted_distinct<K: TextKey, V>(s: Seq<(K, V)>)
    requires
        sorted_keys(s),
    ensures
        distinct_keys(s),
{
    assert forall|i: int, j: int| 0 <= i < j < s.len() implies (#[trigger] s[i]).0.text() != (
    #[trigger] s[j]).0.text() by {
        lemma_text_before_irreflexive(s[i].0.text());
    }
}

proof fn lemma_distinct_init<K: TextKey, V>(s: Seq<(K, V)>)
    requires
        distinct_keys(s),
        s.len() > 0,
    ensures
        distinct_keys(s.drop_last()),
{
    let init = s.drop_last();
    assert forall|a: int, b: int| 0 <= a < b < init.len() implies (#[trigger] init[a]).0.text() != (
    #[trigger] init[b]).0.text() by {
        assert(init[a] == s[a] && init[b] == s[b]);
    }
}

/// The denoted map has finitely many keys: those of the entries.
pub proof fn lemma_pairs_dom<K: TextKey, V>(s: Seq<(K, V)>)
    ensures
        pairs_map(s).dom().finite(),
        forall|k: Seq<char>| #[trigger]
            pairs_map(s).contains_key(k) <==> exists|i: int|
                0 <= i < s.len() && (#[trigger] s[i]).0.text() == k,
    decreases s.len(),
{
    if s.len() > 0 {
        let init = s.drop_last();
        lemma_pairs_dom(init);
        assert forall|k: Seq<char>| #[trigger] pairs_map(s).contains_key(k) implies exists|i: int|
            0 <= i < s.len() && (#[trigger] s[i]).0.text() == k by {
            if k == s.last().0.text() {
                assert(s[s.len() - 1].0.text() == k);
            } else {
                assert(pairs_map(init).contains_key(k));
                let i = choose|i: int| 0 <= i < init.len() && (#[trigger] init[i]).0.text() == k;
                assert(s[i].0.text() == k);
            }
        }
        assert forall|k: Seq<char>|
            (exists|i: int| 0 <= i < s.len() && (#[trigger] s[i]).0.text() == k) implies #[trigger]
            pairs_map(s).contains_key(k) by {
            let i = choose|i: int| 0 <= i < s.len() && (#[trigger] s[i]).0.text() == k;
            if i < s.len() - 1 {
                assert(init[i].0.text() == k);
            }
        }
    }
}

/// Where no key occurs twice, each entry is a binding of the denoted map.
pub proof fn lemma_pairs_index<K: TextKey, V>(s: Seq<(K, V)>, i: int)
    requires
        distinct_keys(s),
        0 <= i < s.len(),
    ensures
        pairs_map(s).contains_key(s[i].0.text()),
        pairs_map(s)[s[i].0.text()] == s[i].1,
    decreases s.len(),
{
    let init = s.drop_last();
    if i < s.len() - 1 {
        lemma_distinct_init(s);
        lemma_pairs_index(init, i);
        assert(init[i] == s[i]);
        assert(s[i].0.text() != s[s.len() - 1].0.text());
    }
}

/// Where no key occurs twice, the denoted map has as many keys as there are
/// entries.
pub proof fn lemma_pairs_len<K: TextKey, V>(s: Seq<(K, V)>)
    requires
        distinct_keys(s),
    ensures
        pairs_map(s).dom().finite(),
        pairs_map(s).len() == s.len(),
    decreases s.len(),
{
    lemma_pairs_dom(s);
    if s.len() > 0 {
        let init = s.drop_last();
        lemma_distinct_init(s);
        lemma_pairs_len(init);
        lemma_pairs_dom(init);
        let k = s.last().0.text();
        if pairs_map(init).contains_key(k) {
            let i = choose|i: int| 0 <= i < init.len() && (#[trigger] init[i]).0.text() == k;
            assert(init[i] == s[i]);
            assert(s[i].0.text() != s[s.len() - 1].0.text());
        }
        assert(pairs_map(s).dom() == pairs_map(init).dom().insert(k));
    }
}

/// Where no key occurs twice, the entries enumerate the denoted map.
pub proof fn lemma_pairs_enumerate<K: TextKey, V>(s: Seq<(K, V)>)
    requires
        distinct_keys(s),
    ensures
        enumerates(s, pairs_map(s)),
{
    lemma_pairs_dom(s);
    lemma_pairs_len(s);
    assert forall|i: int| 0 <= i < s.len() implies pairs_map(s).contains_key(
        (#[trigger] s[i]).0.text(),
    ) && pairs_map(s)[s[i].0.text()] == s[i].1 by {
        lemma_pairs_index(s, i);
    }
}

/// Replacing the entry of a key changes the denoted map at that key alone.
proof fn lemma_pairs_update<K: TextKey, V>(s: Seq<(K, V)>, i: int, e: (K, V))
    requires
        sorted_keys(s),
        0 <= i < s.len(),
        s[i].0.text() == e.0.text(),
    ensures
        sorted_keys(s.update(i, e)),
        pairs_map(s.update(i, e)) == pairs_map(s).insert(e.0.text(), e.1),
{
    let t = s.update(i, e);
    assert(sorted_keys(t)) by {
        assert forall|a: int, b: int| 0 <= a < b < t.len() implies text_before(
            (#[trigger] t[a]).0.text(),
            (#[trigger] t[b]).0.text(),
        ) by {
            assert(t[a].0.text() == s[a].0.text() && t[b].0.text() == s[b].0.text());
        }
    }
    lemma_sorted_distinct(s);
    lemma_sorted_distinct(t);
    lemma_pairs_enumerate(s);
    lemma_pairs_enumerate(t);
    let m = pairs_map(s).insert(e.0.text(), e.1);
    assert forall|k: Seq<char>| pairs_map(t).contains_key(k) == m.contains_key(k) by {
        if pairs_map(t).contains_key(k) {
            let j = choose|j: int| 0 <= j < t.len() && (#[trigger] t[j]).0.text() == k;
            assert(s[j].0.text() == k);
        }
        if m.contains_key(k) && k != e.0.text() {
            let j = choose|j: int| 0 <= j < s.len() && (#[trigger] s[j]).0.text() == k;
            assert(t[j].0.text() == k);
        }
        if k == e.0.text() {
            assert(t[i].0.text() == k);
        }
    }
    assert forall|k: Seq<char>| pairs_map(t).contains_key(k) implies pairs_map(t)[k] == m[k] by {
        let j = choose|j: int| 0 <= j < t.len() && (#[trigger] t[j]).0.text() == k;
        assert(pairs_map(t)[t[j].0.text()] == t[j].1);
        if j != i {
            assert(t[j] == s[j]);
            assert(pairs_map(s)[s[j].0.text()] == s[j].1);
            if j < i {
                assert(s[j].0.text() != s[i].0.text());
            } else {
                assert(s[i].0.text() != s[j].0.text());
            }
        }
    }
    assert(pairs_map(t) =~= m);
}

/// Putting a new key in its place changes the denoted map at that key alone.
proof fn lemma_pairs_insert<K: TextKey, V>(s: Seq<(K, V)>, p: int, e: (K, V))
    requires
        sorted_keys(s),
        0 <= p <= s.len(),
        forall|i: int| 0 <= i < p ==> text_before((#[trigger] s[i]).0.text(), e.0.text()),
        forall|i: int| p <= i < s.len() ==> text_before(e.0.text(), (#[trigger] s[i]).0.text()),
    ensures
        sorted_keys(s.insert(p, e)),
        pairs_map(s.insert(p, e)) == pairs_map(s).insert(e.0.text(), e.1),
{
    let t = s.insert(p, e);
    assert(t.len() == s.len() + 1);
    assert forall|a: int| 0 <= a < t.len() implies #[trigger] t[a] == (if a < p {
        s[a]
    } else if a == p {
        e
    } else {
        s[a - 1]
    }) by {}
    assert(sorted_keys(t)) by {
        assert forall|a: int, b: int| 0 <= a < b < t.len() implies text_before(
            (#[trigger] t[a]).0.text(),
            (#[trigger] t[b]).0.text(),
        ) by {
            if b < p {
                assert(t[a] == s[a] && t[b] == s[b]);
            } else if b == p {
                assert(t[a] == s[a]);
            } else if a < p {
                assert(t[a] == s[a] && t[b] == s[b - 1]);
                if a < b - 1 {
                } else {
                    lemma_text_before_transitive(s[a].0.text(), e.0.text(), s[b - 1].0.text());
                }
            } else if a == p {
                assert(t[b] == s[b - 1]);
            } else {
                assert(t[a] == s[a - 1] && t[b] == s[b - 1]);
            }
        }
    }
    lemma_sorted_distinct(s);
    lemma_sorted_distinct(t);
    lemma_pairs_enumerate(s);
    lemma_pairs_enumerate(t);
    let m = pairs_map(s).insert(e.0.text(), e.1);
    assert forall|k: Seq<char>| pairs_map(t).contains_key(k) == m.contains_key(k) by {
        if pairs_map(t).contains_key(k) {
            let j = choose|j: int| 0 <= j < t.len() && (#[trigger] t[j]).0.text() == k;
            if j < p {
                assert(s[j].0.text() == k);
            } else if j > p {
                assert(s[j - 1].0.text() == k);
            }
        }
        if m.contains_key(k) && k != e.0.text() {
            let j = choose|j: int| 0 <= j < s.len() && (#[trigger] s[j]).0.text() == k;
            if j < p {
                assert(t[j].0.text() == k);
            } else {
                assert(t[j + 1].0.text() == k);
            }
        }
        if k == e.0.text() {
            assert(t[p].0.text() == k);
        }
    }
    assert forall|k: Seq<char>| pairs_map(t).contains_key(k) implies pairs_map(t)[k] == m[k] by {
        let j = choose|j: int| 0 <= j < t.len() && (#[trigger] t[j]).0.text() == k;
        assert(pairs_map(t)[t[j].0.text()] == t[j].1);
        if j < p {
            assert(t[j] == s[j]);
            assert(pairs_map(s)[s[j].0.text()] == s[j].1);
            lemma_text_before_irreflexive(k);
        } else if j > p {
            assert(t[j] == s[j - 1]);
            assert(pairs_map(s)[s[j - 1].0.text()] == s[j - 1].1);
            lemma_text_before_irreflexive(k);
        }
    }
    assert(pairs_map(t) =~= m);
}

/// Every value of the denoted map is structurally smaller than the sequence
/// of entries.
pub proof fn lemma_pairs_decrease<K: TextKey, V>(s: Seq<(K, V)>, k: Seq<char>)
    requires
        pairs_map(s).contains_key(k),
    ensures
        decreases_to!(s => pairs_map(s)[k]),
    decreases s.len(),
{
    if s.len() > 0 {
        if s.last().0.text() == k {
            assert(decreases_to!(s => s[s.len() - 1]));
        } else {
            lemma_pairs_decrease(s.drop_last(), k);
            assert(decreases_to!(s => s.drop_last())) by {
                assert(s.drop_last() == s.subrange(0, s.len() - 1));
                vstd::seq::axiom_seq_subrange_decreases(s, 0, s.len() - 1);
            }
        }
    }
}

/// Every entry of a sequence is structurally smaller than a value that
/// holds the sequence in a vector.
pub proof fn lemma_entry_smaller<K: TextKey, V>(entries: Vec<(K, V)>, i: int)
    requires
        0 <= i < entries@.len(),
    ensures
        decreases_to!(entries => entries@[i].1),
{
    assert(decreases_to!(entries => entries@));
    assert(decreases_to!(entries@ => entries@[i]));
}

/// Where `key` stands among sorted entries: the number of entries with a
/// smaller key, and whether the entry at that place is `key`'s.
pub(crate) fn sorted_slot<K: TextKey, V>(entries: &Vec<(K, V)>, key: &str) -> (r: (usize, bool))
    requires
        sorted_keys(entries@),
    ensures
        r.0 <= entries@.len(),
        forall|i: int| 0 <= i < r.0 ==> text_before((#[trigger] entries@[i]).0.text(), key@),
        r.1 ==> r.0 < entries@.len() && entries@[r.0 as int].0.text() == key@,
        !r.1 ==> forall|i: int|
            r.0 <= i < entries@.len() ==> text_before(key@, (#[trigger] entries@[i]).0.text()),
        r.1 == pairs_map(entries@).contains_key(key@),
        r.1 ==> pairs_map(entries@)[key@] == entries@[r.0 as int].1,
{
    proof {
        lemma_sorted_distinct(entries@);
        lemma_pairs_enumerate(entries@);
        lemma_text_before_irreflexive(key@);
    }
    let n = entries.len();
    if n > 0 {
        match rank_texts(entries[n - 1].0.as_text(), key) {
            Rank::Before => {
                proof {
                    assert forall|i: int| 0 <= i < n implies text_before(
                        (#[trigger] entries@[i]).0.text(),
                        key@,
                    ) by {
                        if i < n - 1 {
                            lemma_text_before_transitive(
                                entries@[i].0.text(),
                                entries@[n - 1].0.text(),
                                key@,
                            );
                        }
                    }
                    if pairs_map(entries@).contains_key(key@) {
                        let j = choose|j: int|
                            0 <= j < entries@.len() && (#[trigger] entries@[j]).0.text() == key@;
                    }
                }
                return (n, false);
            },
            _ => {},
        }
    }
    let mut i: usize = 0;
    while i < n
        invariant
            n == entries@.len(),
            i <= n,
            sorted_keys(entries@),
            enumerates(entries@, pairs_map(entries@)),
            !text_before(key@, key@),
            forall|j: int| 0 <= j < i ==> text_before((#[trigger] entries@[j]).0.text(), key@),
        decreases n - i,
    {
        match rank_texts(entries[i].0.as_text(), key) {
            Rank::Before => {},
            Rank::Same => {
                return (i, true);
            },
            Rank::After => {
                proof {
                    assert forall|j: int| i <= j < n implies text_before(
                        key@,
                        (#[trigger] entries@[j]).0.text(),
                    ) by {
                        if i < j {
                            lemma_text_before_transitive(
                                key@,
                                entries@[i as int].0.text(),
                                entries@[j].0.text(),
                            );
                        }
                    }
                    if pairs_map(entries@).contains_key(key@) {
                        let j = choose|j: int|
                            0 <= j < entries@.len() && (#[trigger] entries@[j]).0.text() == key@;
                    }
                }
                return (i, false);
            },
        }
        i += 1;
    }
    proof {
        if pairs_map(entries@).contains_key(key@) {
            let j = choose|j: int|
                0 <= j < entries@.len() && (#[trigger] entries@[j]).0.text() == key@;
        }
    }
    (n, false)
}

/// Binds `key` to `value` in sorted entries, replacing what `key` was bound
/// to before.
pub(crate) fn sorted_insert<K: TextKey, V>(entries: &mut Vec<(K, V)>, key: K, value: V)
    requires
        sorted_keys(old(entries)@),
    ensures
        sorted_keys(final(entries)@),
        pairs_map(final(entries)@) == pairs_map(old(entries)@).insert(key.text(), value),
{
    let (p, found) = sorted_slot(entries, key.as_text());
    if found {
        proof {
            lemma_pairs_update(entries@, p as int, (key, value));
        }
        entries.set(p, (key, value));
    } else {
        proof {
            lemma_pairs_insert(entries@, p as int, (key, value));
        }
        entries.insert(p, (key, value));
    }
}

/// A map from keys that stand for texts to values of type `V`.
#[derive(Debug, PartialEq, Eq)]
pub struct TextMap<K: TextKey, V> {
    entries: Vec<(K, V)>,
}

impl<K: TextKey, V> TextMap<K, V> {
    #[verifier::type_invariant]
    closed spec fn inv(&self) -> bool {
        sorted_keys(self.entries@)
    }

    /// The bindings of the map.
    pub closed spec fn view(&self) -> Map<Seq<char>, V> {
        pairs_map(self.entries@)
    }

    /// The stored entries, in the order in which [`TextMap::entries`] hands
    /// them out.
    pub closed spec fn spec_entries(&self) -> Seq<(K, V)> {
        self.entries@
    }

    /// Every value of a map is structurally smaller than the map, so that a
    /// recursive type may hold a map of itself.
    pub proof fn lemma_value_decreases(self, k: Seq<char>)
        requires
            self@.contains_key(k),
        ensures
            decreases_to!(self => self@[k]),
    {
        lemma_pairs_decrease(self.entries@, k);
        assert(decreases_to!(self => self.entries));
        assert(decreases_to!(self.entries => self.entries@));
    }

    /// Every stored value is structurally smaller than the map.
    pub proof fn lemma_entry_decreases(self, i: int)
        requires
            0 <= i < self.spec_entries().len(),
        ensures
            decreases_to!(self => self.spec_entries()[i].1),
    {
        assert(decreases_to!(self => self.entries));
        lemma_entry_smaller(self.entries, i);
    }

    /// The empty map.
    pub fn new() -> (m: Self)
        ensures
            m@ == Map::<Seq<char>, V>::empty(),
    {
        TextMap { entries: Vec::new() }
    }

    /// The map of the given bindings. Of two bindings of one key the later
    /// one counts.
    pub fn from_entries(bindings: Vec<(K, V)>) -> (m: Self)
        ensures
            m@ == pairs_map(bindings@),
    {
        let ghost all = bindings@;
        let mut m: Self = TextMap::new();
        proof {
            lemma_pairs_ends(all);
        }
        for binding in it: bindings
            invariant
                it.seq() == all,
                m@ == pairs_map(all.take(it.index() as int)),
        {
            proof {
                lemma_pairs_step(all, it.index() as int);
            }
            let (key, value) = binding;
            m.insert(key, value);
        }
        proof {
            lemma_pairs_ends(all);
        }
        m
    }

    /// The number of keys.
    pub fn len(&self) -> (n: usize)
        ensures
            self@.dom().finite(),
            n == self@.len(),
    {
        proof {
            use_type_invariant(self);
            lemma_sorted_distinct(self.entries@);
            lemma_pairs_len(self.entries@);
        }
        self.entries.len()
    }

    /// Whether the map has no key.
    pub fn is_empty(&self) -> (b: bool)
        ensures
            b == (self@ == Map::<Seq<char>, V>::empty()),
    {
        proof {
            use_type_invariant(self);
            lemma_sorted_distinct(self.entries@);
            if self.entries@.len() > 0 {
                lemma_pairs_index(self.entries@, 0);
            }
        }
        self.entries.len() == 0
    }

    /// Whether `key` is bound.
    pub fn contains_key(&self, key: &str) -> (b: bool)
        ensures
            b == self@.contains_key(key@),
    {
        proof {
            use_type_invariant(self);
        }
        let (p, found) = sorted_slot(&self.entries, key);
        found
    }

    /// The value bound to `key`, if there is one.
    pub fn get(&self, key: &str) -> (r: Option<&V>)
        ensures
            match r {
                Some(v) => self@.contains_key(key@) && *v == self@[key@],
                None => !self@.contains_key(key@),
            },
    {
        proof {
            use_type_invariant(self);
        }
        let (p, found) = sorted_slot(&self.entries, key);
        if found {
            Some(&self.entries[p].1)
        } else {
            None
        }
    }

    /// Binds `key` to `value`, replacing what `key` was bound to before.
    pub fn insert(&mut self, key: K, value: V)
        ensures
            final(self)@ == old(self)@.insert(key.text(), value),
    {
        proof {
            use_type_invariant(&*self);
        }
        let mut taken = TextMap { entries: Vec::new() };
        core::mem::swap(self, &mut taken);
        let mut entries = taken.entries;
        sorted_insert(&mut entries, key, value);
        *self = TextMap { entries };
    }

    /// The entries of the map, each key once, in ascending order of the keys.
    pub fn entries(&self) -> (r: &Vec<(K, V)>)
        ensures
            r@ == self.spec_entries(),
            pairs_map(r@) == self@,
            enumerates(r@, self@),
            sorted_keys(r@),
    {
        proof {
            use_type_invariant(self);
            lemma_sorted_distinct(self.entries@);
            lemma_pairs_enumerate(self.entries@);
        }
        &self.entries
    }
}

impl<K: TextKey, V: Clone> Clone for TextMap<K, V> {
    /// A map with the same keys, each bound to a clone of its value.
    fn clone(&self) -> (r: Self)
        ensures
            r@.dom() == self@.dom(),
            forall|k: Seq<char>| #[trigger] self@.contains_key(k) ==> cloned(self@[k], r@[k]),
    {
        proof {
            use_type_invariant(self);
        }
        let mut out: Vec<(K, V)> = Vec::new();
        let mut i: usize = 0;
        while i < self.entries.len()
            invariant
                i <= self.entries@.len(),
                out@.len() == i,
                forall|j: int|
                    0 <= j < i ==> (#[trigger] out@[j]).0.text() == self.entries@[j].0.text() && cloned(
                        self.entries@[j].1,
                        out@[j].1,
                    ),
            decreases self.entries@.len() - i,
        {
            let key = self.entries[i].0.same_key();
            let value = self.entries[i].1.clone();
            out.push((key, value));
            i += 1;
        }
        proof {
            let s = self.entries@;
            let t = out@;
            assert(sorted_keys(t)) by {
                assert forall|a: int, b: int| 0 <= a < b < t.len() implies text_before(
                    (#[trigger] t[a]).0.text(),
                    (#[trigger] t[b]).0.text(),
                ) by {
                    assert(text_before(s[a].0.text(), s[b].0.text()));
                }
            }
            lemma_sorted_distinct(s);
            lemma_sorted_distinct(t);
            lemma_pairs_enumerate(s);
            lemma_pairs_enumerate(t);
            assert forall|k: Seq<char>| pairs_map(t).contains_key(k) == pairs_map(s).contains_key(
                k,
            ) by {
                if pairs_map(t).contains_key(k) {
                    let j = choose|j: int| 0 <= j < t.len() && (#[trigger] t[j]).0.text() == k;
                    assert(s[j].0.text() == k);
                }
                if pairs_map(s).contains_key(k) {
                    let j = choose|j: int| 0 <= j < s.len() && (#[trigger] s[j]).0.text() == k;
                    assert(t[j].0.text() == k);
                }
            }
            assert(pairs_map(t).dom() =~= pairs_map(s).dom());
            assert forall|k: Seq<char>| #[trigger] pairs_map(s).contains_key(k) implies cloned(
                pairs_map(s)[k],
                pairs_map(t)[k],
            ) by {
                let j = choose|j: int| 0 <= j < s.len() && (#[trigger] s[j]).0.text() == k;
                assert(t[j].0.text() == k);
                assert(pairs_map(t)[t[j].0.text()] == t[j].1);
                assert(pairs_map(s)[s[j].0.text()] == s[j].1);
            }
        }
        TextMap { entries: out }
    }
}

} // verus!
