//! A small keyed registry that keeps its entries in the order of arrival.
//!
//! The arbiter keys its cards by device node and its leases by seat. Both
//! registries are short, so an entry is found by walking the keys; what the
//! type guarantees is that no key stands in it twice.

use crate::text::same_text;
use vstd::prelude::*;

verus! {

/// Entries under distinct text keys, oldest first.
pub struct Registry<V> {
    keys: Vec<String>,
    values: Vec<V>,
}

/// Where `key` stands in `keys`, if it does.
pub open spec fn spec_position(keys: Seq<Seq<char>>, key: Seq<char>) -> Option<int> {
    if exists|i: int| 0 <= i < keys.len() && keys[i] == key {
        Some(choose|i: int| 0 <= i < keys.len() && keys[i] == key)
    } else {
        None
    }
}

/// Among distinct keys, the place where a key stands is its position.
pub proof fn lemma_position(keys: Seq<Seq<char>>, i: int)
    requires
        keys.no_duplicates(),
        0 <= i < keys.len(),
    ensures
        spec_position(keys, keys[i]) == Some(i),
{
}

/// A key has a position exactly where it stands among the keys, and stands there.
pub proof fn lemma_position_found(keys: Seq<Seq<char>>, key: Seq<char>)
    ensures
        match spec_position(keys, key) {
            Some(i) => 0 <= i < keys.len() && keys[i] == key,
            None => forall|i: int| 0 <= i < keys.len() ==> keys[i] != key,
        },
{
}

/// The entry of each key: the one that stands at the key's position.
pub open spec fn spec_entries<V>(keys: Seq<Seq<char>>, values: Seq<V>) -> Map<Seq<char>, V> {
    Map::new(
        |key: Seq<char>| spec_position(keys, key).is_some(),
        |key: Seq<char>| values[spec_position(keys, key).unwrap()],
    )
}

/// A new key with its entry, put last, is one more entry.
pub proof fn lemma_entries_push<V>(keys: Seq<Seq<char>>, values: Seq<V>, key: Seq<char>, value: V)
    requires
        keys.len() == values.len(),
        keys.no_duplicates(),
        spec_position(keys, key).is_none(),
    ensures
        keys.push(key).no_duplicates(),
        spec_entries(keys.push(key), values.push(value)) == spec_entries(keys, values).insert(
            key,
            value,
        ),
{
    let more = keys.push(key);
    lemma_position_found(keys, key);
    assert(more.no_duplicates());
    assert forall|other: Seq<char>|
        spec_position(more, other) == (if other == key {
            Some(keys.len() as int)
        } else {
            spec_position(keys, other)
        }) by {
        lemma_position_found(more, other);
        lemma_position_found(keys, other);
        if other == key {
            lemma_position(more, keys.len() as int);
        } else if let Some(k) = spec_position(keys, other) {
            lemma_position(more, k);
        }
    }
    assert(spec_entries(more, values.push(value)) =~= spec_entries(keys, values).insert(
        key,
        value,
    ));
}

/// Another entry at the place of a key is another entry for that key.
pub proof fn lemma_entries_update<V>(keys: Seq<Seq<char>>, values: Seq<V>, i: int, value: V)
    requires
        keys.len() == values.len(),
        keys.no_duplicates(),
        0 <= i < keys.len(),
    ensures
        spec_entries(keys, values.update(i, value)) == spec_entries(keys, values).insert(
            keys[i],
            value,
        ),
{
    lemma_position(keys, i);
    assert forall|other: Seq<char>| other != keys[i] implies spec_position(keys, other) != Some(
        i,
    ) by {
        lemma_position_found(keys, other);
    }
    assert(spec_entries(keys, values.update(i, value)) =~= spec_entries(keys, values).insert(
        keys[i],
        value,
    ));
}

/// Without the key at place `i` and its entry, that key has no entry and
/// every other key has the entry that it had.
pub proof fn lemma_entries_remove<V>(keys: Seq<Seq<char>>, values: Seq<V>, i: int)
    requires
        keys.len() == values.len(),
        keys.no_duplicates(),
        0 <= i < keys.len(),
    ensures
        keys.remove(i).no_duplicates(),
        spec_entries(keys.remove(i), values.remove(i)) == spec_entries(keys, values).remove(
            keys[i],
        ),
{
    let fewer = keys.remove(i);
    assert(fewer.no_duplicates());
    assert forall|other: Seq<char>|
        spec_position(fewer, other) == (match spec_position(keys, other) {
            Some(k) => if k < i {
                Some(k)
            } else if k == i {
                None
            } else {
                Some(k - 1)
            },
            None => None,
        }) by {
        lemma_position_found(fewer, other);
        lemma_position_found(keys, other);
        match spec_position(keys, other) {
            Some(k) => {
                if k < i {
                    lemma_position(fewer, k);
                } else if k > i {
                    lemma_position(fewer, k - 1);
                } else {
                    if let Some(j) = spec_position(fewer, other) {
                        assert(keys[if j < i { j } else { j + 1 }] == other);
                    }
                }
            },
            None => {
                if let Some(j) = spec_position(fewer, other) {
                    assert(keys[if j < i { j } else { j + 1 }] == other);
                }
            },
        }
    }
    lemma_position(keys, i);
    assert(spec_entries(fewer, values.remove(i)) =~= spec_entries(keys, values).remove(keys[i]));
}

impl<V> Registry<V> {
    /// The keys, oldest first.
    pub closed spec fn keys(&self) -> Seq<Seq<char>> {
        Seq::new(self.keys@.len(), |i: int| self.keys@[i]@)
    }

    /// The entries, each at the place of its key.
    pub closed spec fn values(&self) -> Seq<V> {
        self.values@
    }

    /// Each key has its entry, and no key stands twice.
    pub open spec fn wf(&self) -> bool {
        self.keys().len() == self.values().len() && self.keys().no_duplicates()
    }

    /// The entry of each key.
    pub open spec fn entries(&self) -> Map<Seq<char>, V> {
        spec_entries(self.keys(), self.values())
    }

    /// Whether `key` has an entry.
    pub open spec fn has(&self, key: Seq<char>) -> bool {
        spec_position(self.keys(), key).is_some()
    }

    /// The entry of `key`.
    pub open spec fn at(&self, key: Seq<char>) -> V
        recommends
            self.has(key),
    {
        self.values()[spec_position(self.keys(), key).unwrap()]
    }

    /// A registry without entries.
    pub fn new() -> (r: Self)
        ensures
            r.wf(),
            r.keys() == Seq::<Seq<char>>::empty(),
            r.values() == Seq::<V>::empty(),
    {
        let r = Registry { keys: Vec::new(), values: Vec::new() };
        assert(r.keys() =~= Seq::<Seq<char>>::empty());
        r
    }

    /// The number of entries.
    pub fn len(&self) -> (n: usize)
        requires
            self.wf(),
        ensures
            n == self.keys().len(),
            n == self.values().len(),
    {
        self.keys.len()
    }

    /// Finds the place of `key`.
    pub fn position(&self, key: &str) -> (r: Option<usize>)
        requires
            self.wf(),
        ensures
            match r {
                Some(i) => spec_position(self.keys(), key@) == Some(i as int) && i
                    < self.keys().len(),
                None => spec_position(self.keys(), key@).is_none(),
            },
    {
        let mut i: usize = 0;
        while i < self.keys.len()
            invariant
                self.wf(),
                i <= self.keys.len(),
                forall|k: int| 0 <= k < i ==> self.keys()[k] != key@,
            decreases self.keys.len() - i,
        {
            if same_text(self.keys[i].as_str(), key) {
                proof {
                    lemma_position(self.keys(), i as int);
                }
                return Some(i);
            }
            i += 1;
        }
        None
    }

    /// The key at place `i`.
    pub fn key(&self, i: usize) -> (r: &String)
        requires
            self.wf(),
            i < self.keys().len(),
        ensures
            r@ == self.keys()[i as int],
    {
        &self.keys[i]
    }

    /// The entry at place `i`.
    pub fn value(&self, i: usize) -> (r: &V)
        requires
            self.wf(),
            i < self.values().len(),
        ensures
            *r == self.values()[i as int],
    {
        &self.values[i]
    }

    /// The entry at place `i`, to be changed where it stands.
    pub fn value_mut(&mut self, i: usize) -> (r: &mut V)
        requires
            old(self).wf(),
            i < old(self).values().len(),
        ensures
            *r == old(self).values()[i as int],
            final(self).keys() == old(self).keys(),
            final(self).values() == old(self).values().update(i as int, *final(r)),
            final(self).wf(),
    {
        &mut self.values[i]
    }

    /// Adds an entry under a key that has none yet, and gives its place.
    pub fn insert(&mut self, key: String, value: V) -> (i: usize)
        requires
            old(self).wf(),
            !old(self).has(key@),
        ensures
            final(self).wf(),
            i == old(self).keys().len(),
            final(self).keys() == old(self).keys().push(key@),
            final(self).values() == old(self).values().push(value),
    {
        let i: usize = self.keys.len();
        proof {
            lemma_position_found(self.keys(), key@);
        }
        self.keys.push(key);
        self.values.push(value);
        assert(self.keys() =~= old(self).keys().push(key@));
        i
    }

    /// Takes the entry at place `i` out; the entries behind it move up.
    pub fn remove(&mut self, i: usize) -> (r: (String, V))
        requires
            old(self).wf(),
            i < old(self).keys().len(),
        ensures
            final(self).wf(),
            r.0@ == old(self).keys()[i as int],
            r.1 == old(self).values()[i as int],
            final(self).keys() == old(self).keys().remove(i as int),
            final(self).values() == old(self).values().remove(i as int),
    {
        let key = self.keys.remove(i);
        let value = self.values.remove(i);
        assert(self.keys() =~= old(self).keys().remove(i as int));
        (key, value)
    }
}

} // verus!
