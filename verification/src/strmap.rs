//! A map from names to values, kept as a vector of entries. Built through
//! `insert` it holds each name once and in the byte order of the names, so
//! walking the entries visits them as a sorted map would.

use vstd::prelude::*;
use crate::bytes::{str_eq, str_lt, text_lt, lemma_text_trichotomy};

verus! {

#[derive(Debug)]
pub struct Entry<V> {
    pub key: String,
    pub value: V,
}

#[derive(Debug)]
pub struct StrMap<V> {
    pub entries: Vec<Entry<V>>,
}

/// Index of the first entry at or after `from` whose name is `key`.
pub open spec fn first_index_from<V>(entries: Seq<Entry<V>>, key: Seq<char>, from: int) -> Option<int>
    decreases entries.len() - from,
{
    if 0 <= from < entries.len() {
        if entries[from].key@ == key {
            Some(from)
        } else {
            first_index_from(entries, key, from + 1)
        }
    } else {
        None
    }
}

/// Index of the first entry at or after `from` whose name is not below `key`;
/// the length where there is none.
pub open spec fn insertion_point_from<V>(entries: Seq<Entry<V>>, key: Seq<char>, from: int) -> int
    decreases entries.len() - from,
{
    if 0 <= from < entries.len() {
        if text_lt(entries[from].key@, key) {
            insertion_point_from(entries, key, from + 1)
        } else {
            from
        }
    } else {
        entries.len() as int
    }
}

/// What `first_index_from` finds: its result is in range, names `key`, and no
/// entry between `from` and it does.
pub proof fn lemma_first_index<V>(entries: Seq<Entry<V>>, key: Seq<char>, from: int)
    requires
        0 <= from,
    ensures
        match first_index_from(entries, key, from) {
            Some(i) => from <= i < entries.len() && entries[i].key@ == key
                && forall|j: int| from <= j < i ==> entries[j].key@ != key,
            None => forall|j: int| from <= j < entries.len() ==> entries[j].key@ != key,
        },
    decreases entries.len() - from,
{
    if from < entries.len() && entries[from].key@ != key {
        lemma_first_index(entries, key, from + 1);
    }
}

/// An index that names `key` with none before it is the one that is found.
pub proof fn lemma_first_index_is<V>(entries: Seq<Entry<V>>, key: Seq<char>, from: int, i: int)
    requires
        0 <= from <= i < entries.len(),
        entries[i].key@ == key,
        forall|j: int| from <= j < i ==> entries[j].key@ != key,
    ensures
        first_index_from(entries, key, from) == Some(i),
    decreases i - from,
{
    if from < i {
        lemma_first_index_is(entries, key, from + 1, i);
    }
}

/// Where no entry from `from` on names `key`, nothing is found.
pub proof fn lemma_first_index_none<V>(entries: Seq<Entry<V>>, key: Seq<char>, from: int)
    requires
        0 <= from,
        forall|j: int| from <= j < entries.len() ==> entries[j].key@ != key,
    ensures
        first_index_from(entries, key, from) is None,
    decreases entries.len() - from,
{
    if from < entries.len() {
        lemma_first_index_none(entries, key, from + 1);
    }
}

/// What `insertion_point_from` finds: every entry between `from` and it is
/// below `key`, and the entry at it, if any, is not.
pub proof fn lemma_insertion_point<V>(entries: Seq<Entry<V>>, key: Seq<char>, from: int)
    requires
        0 <= from <= entries.len(),
    ensures
        from <= insertion_point_from(entries, key, from) <= entries.len(),
        forall|j: int| from <= j < insertion_point_from(entries, key, from) ==> text_lt(entries[j].key@, key),
        insertion_point_from(entries, key, from) < entries.len() ==> !text_lt(
            entries[insertion_point_from(entries, key, from)].key@,
            key,
        ),
    decreases entries.len() - from,
{
    if from < entries.len() && text_lt(entries[from].key@, key) {
        lemma_insertion_point(entries, key, from + 1);
    }
}

/// Position of the first of `entries` that is named `key`.
pub fn find_entry<V>(entries: &Vec<Entry<V>>, key: &str) -> (found: Option<usize>)
    ensures
        match found {
            Some(i) => first_index_from(entries@, key@, 0) == Some(i as int) && i < entries@.len(),
            None => first_index_from(entries@, key@, 0) is None,
        },
{
    let mut i: usize = 0;
    while i < entries.len()
        invariant
            i <= entries.len(),
            first_index_from(entries@, key@, 0) == first_index_from(entries@, key@, i as int),
        decreases entries.len() - i,
    {
        if str_eq(entries[i].key.as_str(), key) {
            return Some(i);
        }
        i += 1;
    }
    None
}

impl<V> StrMap<V> {
    /// The names, in entry order.
    pub open spec fn keys(self) -> Seq<Seq<char>> {
        Seq::new(self.entries@.len(), |i: int| self.entries@[i].key@)
    }

    /// Index of the first entry named `key`.
    pub open spec fn index_of(self, key: Seq<char>) -> Option<int> {
        first_index_from(self.entries@, key, 0)
    }

    pub open spec fn contains_key(self, key: Seq<char>) -> bool {
        self.index_of(key) is Some
    }

    /// The value that a lookup of `key` yields.
    pub open spec fn value_of(self, key: Seq<char>) -> V
        recommends
            self.contains_key(key),
    {
        self.entries@[self.index_of(key).unwrap()].value
    }

    /// The map as a lookup sees it: each name with the value of its first entry.
    pub open spec fn to_map(self) -> Map<Seq<char>, V> {
        Map::new(|k: Seq<char>| self.contains_key(k), |k: Seq<char>| self.value_of(k))
    }

    /// Names strictly increase along the entries; no name occurs twice.
    pub open spec fn sorted(self) -> bool {
        forall|i: int, j: int|
            0 <= i < j < self.entries@.len() ==> text_lt(
                #[trigger] self.entries@[i].key@,
                #[trigger] self.entries@[j].key@,
            )
    }

    /// No name occurs twice.
    pub open spec fn distinct(self) -> bool {
        forall|i: int, j: int|
            0 <= i < j < self.entries@.len() ==> #[trigger] self.entries@[i].key@
                != #[trigger] self.entries@[j].key@
    }

    /// A sorted map holds no name twice.
    pub proof fn lemma_sorted_distinct(self)
        requires
            self.sorted(),
        ensures
            self.distinct(),
    {
        assert forall|i: int, j: int| 0 <= i < j < self.entries@.len() implies #[trigger] self.entries@[i].key@
            != #[trigger] self.entries@[j].key@ by {
            lemma_text_trichotomy(self.entries@[i].key@, self.entries@[j].key@);
        }
    }

    /// In a map without repeated names every entry is the one its name finds.
    pub proof fn lemma_distinct_index(self, i: int)
        requires
            self.distinct(),
            0 <= i < self.entries@.len(),
        ensures
            self.index_of(self.entries@[i].key@) == Some(i),
    {
        lemma_first_index_is(self.entries@, self.entries@[i].key@, 0, i);
    }

    pub fn new() -> (m: Self)
        ensures
            m.entries@.len() == 0,
            m.sorted(),
    {
        StrMap { entries: Vec::new() }
    }

    pub fn len(&self) -> (n: usize)
        ensures
            n == self.entries@.len(),
    {
        self.entries.len()
    }

    /// Position of the first entry named `key`.
    pub fn find(&self, key: &str) -> (found: Option<usize>)
        ensures
            match found {
                Some(i) => self.index_of(key@) == Some(i as int) && i < self.entries@.len(),
                None => self.index_of(key@) is None,
            },
    {
        find_entry(&self.entries, key)
    }

    /// The value stored under `key`.
    pub fn get(&self, key: &str) -> (found: Option<&V>)
        ensures
            match found {
                Some(v) => self.contains_key(key@) && *v == self.value_of(key@),
                None => !self.contains_key(key@),
            },
    {
        match self.find(key) {
            Some(i) => Some(&self.entries[i].value),
            None => None,
        }
    }

    /// Stores `value` under `key`. An entry of that name keeps its place and
    /// takes the new value; a new name goes before the first name that is not
    /// below it, which keeps a sorted map sorted.
    pub fn insert(&mut self, key: String, value: V)
        ensures
            final(self).to_map() == old(self).to_map().insert(key@, value),
            old(self).sorted() ==> final(self).sorted(),
            match old(self).index_of(key@) {
                Some(i) => final(self).entries@ == old(self).entries@.update(
                    i,
                    Entry { key: old(self).entries@[i].key, value },
                ),
                None => final(self).entries@ == old(self).entries@.insert(
                    insertion_point_from(old(self).entries@, key@, 0),
                    Entry { key, value },
                ),
            },
    {
        let ghost before = *self;
        match self.find(key.as_str()) {
            Some(i) => {
                let previous = self.entries.remove(i);
                self.entries.insert(i, Entry { key: previous.key, value });
                proof {
                    lemma_first_index(before.entries@, key@, 0);
                    assert(self.entries@ =~= before.entries@.update(
                        i as int,
                        Entry { key: before.entries@[i as int].key, value },
                    ));
                    lemma_same_names_same_lookup(before, *self, key@, value);
                }
            },
            None => {
                let mut at: usize = 0;
                while at < self.entries.len() && str_lt(self.entries[at].key.as_str(), key.as_str())
                    invariant
                        at <= self.entries.len(),
                        self.entries@ == before.entries@,
                        insertion_point_from(before.entries@, key@, 0) == insertion_point_from(
                            before.entries@,
                            key@,
                            at as int,
                        ),
                    decreases self.entries.len() - at,
                {
                    at += 1;
                }
                self.entries.insert(at, Entry { key, value });
                proof {
                    lemma_first_index(before.entries@, key@, 0);
                    lemma_insertion_point(before.entries@, key@, 0);
                    lemma_new_name_lookup(before, *self, at as int, key@, value);
                    if before.sorted() {
                        lemma_insert_keeps_sorted(before, *self, at as int, key@);
                    }
                }
            },
        }
    }

    /// Takes the first entry named `key` out of the map.
    pub fn remove(&mut self, key: &str) -> (taken: Option<V>)
        ensures
            match old(self).index_of(key@) {
                Some(i) => final(self).entries@ == old(self).entries@.remove(i) && taken == Some(
                    old(self).entries@[i].value,
                ),
                None => final(self).entries@ == old(self).entries@ && taken is None,
            },
            old(self).sorted() ==> final(self).sorted(),
            old(self).distinct() ==> final(self).to_map() == old(self).to_map().remove(key@),
    {
        let ghost before = *self;
        match self.find(key) {
            Some(i) => {
                let previous = self.entries.remove(i);
                proof {
                    lemma_first_index(before.entries@, key@, 0);
                    if before.distinct() {
                        lemma_remove_lookup(before, *self, i as int, key@);
                    }
                }
                Some(previous.value)
            },
            None => {
                proof {
                    if before.distinct() {
                        assert(self.to_map() =~= before.to_map().remove(key@));
                    }
                }
                None
            },
        }
    }
}

/// Replacing the value of the first entry named `key` changes what `key`
/// yields and nothing else.
proof fn lemma_same_names_same_lookup<V>(before: StrMap<V>, after: StrMap<V>, key: Seq<char>, value: V)
    requires
        before.index_of(key) is Some,
        after.entries@ == before.entries@.update(
            before.index_of(key).unwrap(),
            Entry { key: before.entries@[before.index_of(key).unwrap()].key, value },
        ),
    ensures
        after.to_map() == before.to_map().insert(key, value),
{
    let i = before.index_of(key).unwrap();
    lemma_first_index(before.entries@, key, 0);
    assert forall|k: Seq<char>|
        after.contains_key(k) == before.contains_key(k) && (before.contains_key(k) ==> after.value_of(k) == (if k
            == key {
            value
        } else {
            before.value_of(k)
        })) by {
        lemma_first_index(before.entries@, k, 0);
        match before.index_of(k) {
            Some(j) => lemma_first_index_is(after.entries@, k, 0, j),
            None => lemma_first_index_none(after.entries@, k, 0),
        }
    }
    assert(after.to_map() =~= before.to_map().insert(key, value));
}

/// Inserting an entry under a name that the map lacks adds that name and
/// leaves every other lookup as it was.
proof fn lemma_new_name_lookup<V>(before: StrMap<V>, after: StrMap<V>, at: int, key: Seq<char>, value: V)
    requires
        before.index_of(key) is None,
        0 <= at <= before.entries@.len(),
        after.entries@.len() == before.entries@.len() + 1,
        after.entries@[at].key@ == key,
        after.entries@[at].value == value,
        forall|j: int| 0 <= j < at ==> after.entries@[j] == before.entries@[j],
        forall|j: int| at <= j < before.entries@.len() ==> after.entries@[j + 1] == before.entries@[j],
    ensures
        after.to_map() == before.to_map().insert(key, value),
{
    lemma_first_index(before.entries@, key, 0);
    lemma_first_index_is(after.entries@, key, 0, at);
    assert forall|k: Seq<char>| k != key implies (after.contains_key(k) == before.contains_key(k)
        && (before.contains_key(k) ==> after.value_of(k) == before.value_of(k))) by {
        lemma_first_index(before.entries@, k, 0);
        match before.index_of(k) {
            Some(j) => {
                let moved = if j < at { j } else { j + 1 };
                assert forall|x: int| 0 <= x < moved implies after.entries@[x].key@ != k by {
                    if x < at {
                    } else if x > at {
                        assert(after.entries@[x] == before.entries@[x - 1]);
                    }
                }
                lemma_first_index_is(after.entries@, k, 0, moved);
            },
            None => {
                assert forall|x: int| 0 <= x < after.entries@.len() implies after.entries@[x].key@ != k by {
                    if x < at {
                    } else if x > at {
                        assert(after.entries@[x] == before.entries@[x - 1]);
                    }
                }
                lemma_first_index_none(after.entries@, k, 0);
            },
        }
    }
    assert(after.to_map() =~= before.to_map().insert(key, value));
}

proof fn lemma_insert_keeps_sorted<V>(before: StrMap<V>, after: StrMap<V>, at: int, key: Seq<char>)
    requires
        before.sorted(),
        before.index_of(key) is None,
        at == insertion_point_from(before.entries@, key, 0),
        after.entries@.len() == before.entries@.len() + 1,
        after.entries@[at].key@ == key,
        0 <= at <= before.entries@.len(),
        forall|j: int| 0 <= j < at ==> after.entries@[j] == before.entries@[j],
        forall|j: int| at <= j < before.entries@.len() ==> after.entries@[j + 1] == before.entries@[j],
    ensures
        after.sorted(),
{
    lemma_insertion_point(before.entries@, key, 0);
    lemma_first_index(before.entries@, key, 0);
    assert forall|i: int, j: int| 0 <= i < j < after.entries@.len() implies text_lt(
        #[trigger] after.entries@[i].key@,
        #[trigger] after.entries@[j].key@,
    ) by {
        let a = after.entries@[i].key@;
        let b = after.entries@[j].key@;
        if j < at {
        } else if i > at {
            assert(after.entries@[i] == before.entries@[i - 1]);
            assert(after.entries@[j] == before.entries@[j - 1]);
        } else if i == at {
            // the new name against a later one: the first of them is not below it
            assert(after.entries@[j] == before.entries@[j - 1]);
            let first = before.entries@[at].key@;
            lemma_text_trichotomy(first, key);
            if j - 1 > at {
                assert(text_lt(first, before.entries@[j - 1].key@));
                crate::bytes::lemma_lex_transitive(
                    vstd::utf8::encode_utf8(key),
                    vstd::utf8::encode_utf8(first),
                    vstd::utf8::encode_utf8(b),
                );
            }
        } else if j == at {
        } else {
            // i below the new entry, j above it
            assert(after.entries@[j] == before.entries@[j - 1]);
            if i < j - 1 {
            } else {
                assert(false);
            }
        }
    }
}

proof fn lemma_remove_lookup<V>(before: StrMap<V>, after: StrMap<V>, i: int, key: Seq<char>)
    requires
        before.distinct(),
        before.index_of(key) == Some(i),
        0 <= i < before.entries@.len(),
        after.entries@ == before.entries@.remove(i),
    ensures
        after.to_map() == before.to_map().remove(key),
{
    lemma_first_index(before.entries@, key, 0);
    assert forall|x: int| 0 <= x < after.entries@.len() implies after.entries@[x].key@ != key by {
        if x < i {
        } else {
            assert(after.entries@[x] == before.entries@[x + 1]);
        }
    }
    lemma_first_index_none(after.entries@, key, 0);
    assert forall|k: Seq<char>| k != key implies (after.contains_key(k) == before.contains_key(k)
        && (before.contains_key(k) ==> after.value_of(k) == before.value_of(k))) by {
        lemma_first_index(before.entries@, k, 0);
        match before.index_of(k) {
            Some(j) => {
                let moved = if j < i { j } else { j - 1 };
                assert forall|x: int| 0 <= x < moved implies after.entries@[x].key@ != k by {
                    if x >= i {
                        assert(after.entries@[x] == before.entries@[x + 1]);
                    }
                }
                lemma_first_index_is(after.entries@, k, 0, moved);
            },
            None => {
                assert forall|x: int| 0 <= x < after.entries@.len() implies after.entries@[x].key@ != k by {
                    if x >= i {
                        assert(after.entries@[x] == before.entries@[x + 1]);
                    }
                }
                lemma_first_index_none(after.entries@, k, 0);
            },
        }
    }
    assert(after.to_map() =~= before.to_map().remove(key));
}

} // verus!
