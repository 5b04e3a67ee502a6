//! A map from strings to values, held as a list of entries in key order.
//!
//! Two maps with the same contents have the same entries in the same order, so
//! a walk over a map does not depend on how it was filled.

use vstd::prelude::*;

use crate::text::{
    key_before, lemma_key_before_irreflexive, lemma_key_before_transitive, order_keys, KeyOrder,
};

verus! {

/// A string-keyed map whose entries stand in ascending key order.
#[derive(Debug, PartialEq)]
pub struct StrMap<V> {
    pub(crate) entries: Vec<(String, V)>,
}

/// Whether an entry of `s` has the key `k`.
pub open spec fn has_key<V>(s: Seq<(String, V)>, k: Seq<char>) -> bool {
    exists|i: int| 0 <= i < s.len() && (#[trigger] s[i]).0@ == k
}

/// The place of the key `k` among the entries `s`.
pub open spec fn key_index<V>(s: Seq<(String, V)>, k: Seq<char>) -> int {
    choose|i: int| 0 <= i < s.len() && (#[trigger] s[i]).0@ == k
}

/// The entries `s` stand in ascending key order.
pub open spec fn ascending<V>(s: Seq<(String, V)>) -> bool {
    forall|i: int, j: int|
        0 <= i < j < s.len() ==> key_before((#[trigger] s[i]).0@, (#[trigger] s[j]).0@)
}

/// The map that the entries `s` stand for.
pub open spec fn entries_map<V>(s: Seq<(String, V)>) -> Map<Seq<char>, V> {
    Map::new(|k: Seq<char>| has_key(s, k), |k: Seq<char>| s[key_index(s, k)].1)
}

/// In ascending entries each entry is the one that its key leads to.
pub proof fn lemma_entry<V>(s: Seq<(String, V)>, i: int)
    requires
        ascending(s),
        0 <= i < s.len(),
    ensures
        has_key(s, s[i].0@),
        key_index(s, s[i].0@) == i,
        entries_map(s).contains_key(s[i].0@),
        entries_map(s)[s[i].0@] == s[i].1,
{
    let k = s[i].0@;
    assert(has_key(s, k));
    let j = key_index(s, k);
    lemma_key_before_irreflexive(k);
    if i < j {
        assert(key_before(s[i].0@, s[j].0@));
    }
    if j < i {
        assert(key_before(s[j].0@, s[i].0@));
    }
}

/// Ascending entries hold each key once.
pub proof fn lemma_distinct<V>(s: Seq<(String, V)>, i: int, j: int)
    requires
        ascending(s),
        0 <= i < s.len(),
        0 <= j < s.len(),
        s[i].0@ == s[j].0@,
    ensures
        i == j,
{
    lemma_entry(s, i);
    lemma_entry(s, j);
}

impl<V> StrMap<V> {
    #[verifier::type_invariant]
    pub(crate) open spec fn inv(self) -> bool {
        ascending(self.entries@)
    }

    /// An empty map.
    pub fn new() -> (r: Self)
        ensures
            r@ == Map::<Seq<char>, V>::empty(),
    {
        let r = StrMap { entries: Vec::new() };
        assert(r@ =~= Map::<Seq<char>, V>::empty());
        r
    }

    /// How many keys the map holds.
    pub fn len(&self) -> (r: usize)
        ensures
            r == self@.dom().len(),
            self@.dom().finite(),
    {
        proof {
            use_type_invariant(self);
            lemma_entries_count(self.entries@);
        }
        self.entries.len()
    }

    /// Whether the map holds nothing.
    pub fn is_empty(&self) -> (r: bool)
        ensures
            r == (self@ == Map::<Seq<char>, V>::empty()),
    {
        if self.entries.len() == 0 {
            assert(self@ =~= Map::<Seq<char>, V>::empty());
            true
        } else {
            assert(has_key(self.entries@, self.entries@[0].0@));
            assert(self@.contains_key(self.entries@[0].0@));
            false
        }
    }

    /// The first place whose key does not come before `key`, and whether the
    /// key there is `key` itself.
    fn find(&self, key: &str) -> (r: (usize, bool))
        ensures
            r.0 <= self.entries@.len(),
            r.1 ==> r.0 < self.entries@.len() && self.entries@[r.0 as int].0@ == key@,
            r.1 == self@.contains_key(key@),
            forall|j: int| 0 <= j < r.0 ==> key_before((#[trigger] self.entries@[j]).0@, key@),
            !r.1 ==> forall|j: int|
                r.0 <= j < self.entries@.len() ==> key_before(
                    key@,
                    (#[trigger] self.entries@[j]).0@,
                ),
    {
        proof {
            use_type_invariant(self);
        }
        let mut i: usize = 0;
        while i < self.entries.len()
            invariant
                ascending(self.entries@),
                i <= self.entries@.len(),
                forall|j: int| 0 <= j < i ==> key_before((#[trigger] self.entries@[j]).0@, key@),
            decreases self.entries@.len() - i,
        {
            match order_keys(self.entries[i].0.as_str(), key) {
                KeyOrder::Before => {
                    i = i + 1;
                },
                KeyOrder::Same => {
                    proof {
                        lemma_entry(self.entries@, i as int);
                    }
                    return (i, true);
                },
                KeyOrder::After => {
                    proof {
                        lemma_key_before_irreflexive(key@);
                        assert forall|j: int| i <= j < self.entries@.len() implies key_before(
                            key@,
                            (#[trigger] self.entries@[j]).0@,
                        ) by {
                            if i < j {
                                lemma_key_before_transitive(
                                    key@,
                                    self.entries@[i as int].0@,
                                    self.entries@[j].0@,
                                );
                            }
                        }
                        assert(!has_key(self.entries@, key@));
                    }
                    return (i, false);
                },
            }
        }
        proof {
            lemma_key_before_irreflexive(key@);
            assert(!has_key(self.entries@, key@));
        }
        (i, false)
    }

    /// Whether the map holds `key`.
    pub fn contains_key(&self, key: &str) -> (r: bool)
        ensures
            r == self@.contains_key(key@),
    {
        self.find(key).1
    }

    /// The value under `key`, if there is one.
    pub fn get(&self, key: &str) -> (r: Option<&V>)
        ensures
            r == if self@.contains_key(key@) {
                Some(&self@[key@])
            } else {
                None
            },
    {
        let (i, found) = self.find(key);
        if found {
            proof {
                use_type_invariant(self);
                lemma_entry(self.entries@, i as int);
            }
            Some(&self.entries[i].1)
        } else {
            None
        }
    }

    /// The value under a key that the map holds.
    pub fn at(&self, key: &str) -> (r: &V)
        requires
            self@.contains_key(key@),
        ensures
            *r == self@[key@],
    {
        let (i, _) = self.find(key);
        proof {
            use_type_invariant(self);
            lemma_entry(self.entries@, i as int);
        }
        &self.entries[i].1
    }

    /// Put `value` under `key`, in place of what was there.
    pub fn insert(&mut self, key: String, value: V)
        ensures
            final(self)@ == old(self)@.insert(key@, value),
    {
        let (i, found) = self.find(key.as_str());
        proof {
            use_type_invariant(&*self);
        }
        let ghost before = self.entries@;
        let ghost k = key@;
        let mut entries: Vec<(String, V)> = Vec::new();
        std::mem::swap(&mut entries, &mut self.entries);
        if found {
            entries.set(i, (key, value));
            proof {
                assert(ascending(entries@)) by {
                    assert forall|a: int, b: int| 0 <= a < b < entries@.len() implies key_before(
                        (#[trigger] entries@[a]).0@,
                        (#[trigger] entries@[b]).0@,
                    ) by {
                        assert(key_before(before[a].0@, before[b].0@));
                    }
                }
                lemma_same_but_one(before, entries@, i as int, k);
            }
        } else {
            entries.insert(i, (key, value));
            proof {
                assert(entries@ == before.insert(i as int, entries@[i as int]));
                assert(ascending(entries@)) by {
                    assert forall|a: int, b: int| 0 <= a < b < entries@.len() implies key_before(
                        (#[trigger] entries@[a]).0@,
                        (#[trigger] entries@[b]).0@,
                    ) by {
                        let x = if a < i { a } else { a - 1 };
                        let y = if b < i { b } else { b - 1 };
                        assert(a != i ==> entries@[a] == before[x]);
                        assert(b != i ==> entries@[b] == before[y]);
                        if a != i && b != i {
                            assert(key_before(before[x].0@, before[y].0@));
                        }
                    }
                }
                lemma_one_more(before, entries@, i as int, k);
            }
        }
        self.entries = entries;
    }

    /// Take the value under `key` out of the map.
    pub fn remove(&mut self, key: &str) -> (r: Option<V>)
        ensures
            r == if old(self)@.contains_key(key@) {
                Some(old(self)@[key@])
            } else {
                None
            },
            final(self)@ == old(self)@.remove(key@),
    {
        let (i, found) = self.find(key);
        proof {
            use_type_invariant(&*self);
        }
        if !found {
            assert(self@.remove(key@) =~= self@);
            return None;
        }
        let ghost before = self.entries@;
        let mut entries: Vec<(String, V)> = Vec::new();
        std::mem::swap(&mut entries, &mut self.entries);
        let (_, value) = entries.remove(i);
        proof {
            lemma_entry(before, i as int);
            assert(entries@ == before.remove(i as int));
            assert(ascending(entries@)) by {
                assert forall|a: int, b: int| 0 <= a < b < entries@.len() implies key_before(
                    (#[trigger] entries@[a]).0@,
                    (#[trigger] entries@[b]).0@,
                ) by {
                    let x = if a < i { a } else { a + 1 };
                    let y = if b < i { b } else { b + 1 };
                    assert(entries@[a] == before[x]);
                    assert(entries@[b] == before[y]);
                    assert(key_before(before[x].0@, before[y].0@));
                }
            }
            lemma_one_less(before, entries@, i as int);
        }
        self.entries = entries;
        Some(value)
    }
}

impl<V> View for StrMap<V> {
    type V = Map<Seq<char>, V>;

    open(crate) spec fn view(&self) -> Map<Seq<char>, V> {
        entries_map(self.entries@)
    }
}

/// A map is larger than each of its values.
pub(crate) proof fn lemma_value_smaller<V>(m: StrMap<V>, i: int)
    requires
        0 <= i < m.entries@.len(),
    ensures
        decreases_to!(m => m.entries@[i].1),
{
    assert(decreases_to!(m => m.entries));
    assert(decreases_to!(m.entries => m.entries@));
    assert(decreases_to!(m.entries@ => m.entries@[i]));
    assert(decreases_to!(m.entries@[i] => m.entries@[i].1));
}

/// Replacing the value of one entry replaces it in the map.
proof fn lemma_same_but_one<V>(
    before: Seq<(String, V)>,
    after: Seq<(String, V)>,
    i: int,
    k: Seq<char>,
)
    requires
        ascending(before),
        ascending(after),
        0 <= i < before.len(),
        before[i].0@ == k,
        after[i].0@ == k,
        after == before.update(i, after[i]),
    ensures
        entries_map(after) == entries_map(before).insert(k, after[i].1),
{
    assert forall|q: Seq<char>| has_key(after, q) == (has_key(before, q) || q == k) by {
        if has_key(after, q) {
            let j = key_index(after, q);
            assert(before[j].0@ == q);
        }
        if has_key(before, q) {
            let j = key_index(before, q);
            assert(after[j].0@ == q);
        }
        if q == k {
            assert(after[i].0@ == q);
        }
    }
    assert forall|q: Seq<char>| has_key(after, q) implies entries_map(after)[q] == entries_map(
        before,
    ).insert(k, after[i].1)[q] by {
        let j = key_index(after, q);
        lemma_entry(after, j);
        if q != k {
            lemma_entry(before, j);
        } else {
            lemma_entry(after, i);
        }
    }
    assert(entries_map(after) =~= entries_map(before).insert(k, after[i].1));
}

/// Adding an entry with a new key adds it to the map.
proof fn lemma_one_more<V>(
    before: Seq<(String, V)>,
    after: Seq<(String, V)>,
    i: int,
    k: Seq<char>,
)
    requires
        ascending(before),
        ascending(after),
        0 <= i <= before.len(),
        after == before.insert(i, after[i]),
        after[i].0@ == k,
    ensures
        entries_map(after) == entries_map(before).insert(k, after[i].1),
{
    assert forall|q: Seq<char>| has_key(after, q) == (has_key(before, q) || q == k) by {
        if has_key(after, q) && q != k {
            let j = key_index(after, q);
            let x = if j < i { j } else { j - 1 };
            assert(before[x].0@ == q);
        }
        if has_key(before, q) {
            let j = key_index(before, q);
            let x = if j < i { j } else { j + 1 };
            assert(after[x].0@ == q);
        }
        if q == k {
            assert(after[i].0@ == q);
        }
    }
    assert forall|q: Seq<char>| has_key(after, q) implies entries_map(after)[q] == entries_map(
        before,
    ).insert(k, after[i].1)[q] by {
        let j = key_index(after, q);
        lemma_entry(after, j);
        if q != k {
            let x = if j < i { j } else { j - 1 };
            assert(before[x] == after[j]);
            lemma_entry(before, x);
        } else {
            lemma_entry(after, i);
        }
    }
    assert(entries_map(after) =~= entries_map(before).insert(k, after[i].1));
}

/// Removing an entry removes its key from the map.
proof fn lemma_one_less<V>(before: Seq<(String, V)>, after: Seq<(String, V)>, i: int)
    requires
        ascending(before),
        ascending(after),
        0 <= i < before.len(),
        after == before.remove(i),
    ensures
        entries_map(after) == entries_map(before).remove(before[i].0@),
{
    let k = before[i].0@;
    assert forall|q: Seq<char>| has_key(after, q) == (has_key(before, q) && q != k) by {
        if has_key(after, q) {
            let j = key_index(after, q);
            let x = if j < i { j } else { j + 1 };
            assert(before[x].0@ == q);
            if q == k {
                lemma_distinct(before, x, i);
            }
        }
        if has_key(before, q) && q != k {
            let j = key_index(before, q);
            let x = if j < i { j } else { j - 1 };
            assert(after[x].0@ == q);
        }
    }
    assert forall|q: Seq<char>| has_key(after, q) implies entries_map(after)[q] == entries_map(
        before,
    ).remove(k)[q] by {
        let j = key_index(after, q);
        lemma_entry(after, j);
        let x = if j < i { j } else { j + 1 };
        assert(before[x] == after[j]);
        lemma_entry(before, x);
    }
    assert(entries_map(after) =~= entries_map(before).remove(k));
}

/// Ascending entries are as many as the keys of their map.
pub proof fn lemma_entries_count<V>(s: Seq<(String, V)>)
    requires
        ascending(s),
    ensures
        entries_map(s).dom().finite(),
        entries_map(s).dom().len() == s.len(),
    decreases s.len(),
{
    if s.len() == 0 {
        assert(entries_map(s).dom() =~= Set::empty());
    } else {
        let rest = s.drop_last();
        let last = s.len() - 1;
        assert(ascending(rest));
        lemma_entries_count(rest);
        assert(rest == s.remove(last));
        lemma_one_less(s, rest, last);
        lemma_entry(s, last);
        assert(entries_map(s).dom() =~= entries_map(rest).dom().insert(s[last].0@));
        assert(!entries_map(rest).dom().contains(s[last].0@));
    }
}

} // verus!
