//! The per-entity component store.
//!
//! A component is a plain data value filed under an integer key; the
//! application assigns one key to each kind of component it defines. A store
//! holds at most one value per key: inserting under a key that is already
//! present replaces the old value.

use vstd::prelude::*;

verus! {

/// Reads an association list as a map. Where a key occurs more than once,
/// the earliest pair decides its value.
pub open spec fn assoc_map<T>(entries: Seq<(u64, T)>) -> Map<u64, T>
    decreases entries.len(),
{
    if entries.len() == 0 {
        Map::<u64, T>::empty()
    } else {
        assoc_map(entries.drop_first()).insert(entries[0].0, entries[0].1)
    }
}

/// Uniqueness: filing `a` and then `b` under one key leaves exactly `b`
/// there, for every store, key, and pair of values — the first value is
/// gone, and the store ends up as if only `b` had ever been filed.
pub proof fn lemma_insert_overwrites<T>(store: Map<u64, T>, key: u64, a: T, b: T)
    ensures
        store.insert(key, a).insert(key, b).contains_key(key),
        store.insert(key, a).insert(key, b)[key] == b,
        store.insert(key, a).insert(key, b) == store.insert(key, b),
{
    assert(store.insert(key, a).insert(key, b) =~= store.insert(key, b));
}

/// Absence: a fresh store holds nothing under any key, so `get` returns
/// nothing and `contains` returns false for every key never inserted.
pub proof fn lemma_fresh_store_absent<T>(key: u64)
    ensures
        !Map::<u64, T>::empty().contains_key(key),
{
}

/// Holds at most one component value per key. This is the storage mechanism
/// behind every entity, and (under the alias `Globals`) behind the world-wide
/// shared values as well.
pub struct ComponentStore<T> {
    entries: Vec<(u64, T)>,
}

impl<T> View for ComponentStore<T> {
    type V = Map<u64, T>;

    closed spec fn view(&self) -> Map<u64, T> {
        assoc_map(self.entries@)
    }
}

/// Where a key first occurs at position `i`, the association map takes its
/// value from that pair.
proof fn lemma_assoc_first_match<T>(entries: Seq<(u64, T)>, key: u64, i: int)
    requires
        0 <= i < entries.len(),
        entries[i].0 == key,
        forall|j: int| 0 <= j < i ==> (#[trigger] entries[j]).0 != key,
    ensures
        assoc_map(entries).contains_key(key),
        assoc_map(entries)[key] == entries[i].1,
    decreases entries.len(),
{
    if i > 0 {
        lemma_assoc_first_match(entries.drop_first(), key, i - 1);
    }
}

/// A key that occurs in no pair is absent from the association map.
proof fn lemma_assoc_absent<T>(entries: Seq<(u64, T)>, key: u64)
    requires
        forall|j: int| 0 <= j < entries.len() ==> (#[trigger] entries[j]).0 != key,
    ensures
        !assoc_map(entries).contains_key(key),
    decreases entries.len(),
{
    if entries.len() > 0 {
        lemma_assoc_absent(entries.drop_first(), key);
    }
}

/// Overwriting the pair where a key first occurs updates that key in the
/// association map and nothing else.
proof fn lemma_assoc_update_first<T>(entries: Seq<(u64, T)>, key: u64, i: int, value: T)
    requires
        0 <= i < entries.len(),
        entries[i].0 == key,
        forall|j: int| 0 <= j < i ==> (#[trigger] entries[j]).0 != key,
    ensures
        assoc_map(entries.update(i, (key, value))) == assoc_map(entries).insert(key, value),
    decreases entries.len(),
{
    let updated = entries.update(i, (key, value));
    if i == 0 {
        assert(updated.drop_first() =~= entries.drop_first());
        assert(assoc_map(updated) =~= assoc_map(entries).insert(key, value));
    } else {
        assert(updated.drop_first() =~= entries.drop_first().update(i - 1, (key, value)));
        lemma_assoc_update_first(entries.drop_first(), key, i - 1, value);
        assert(assoc_map(updated) =~= assoc_map(entries).insert(key, value));
    }
}

impl<T> ComponentStore<T> {
    /// A fresh store holds nothing.
    pub fn new() -> (store: ComponentStore<T>)
        ensures
            store@ == Map::<u64, T>::empty(),
    {
        ComponentStore { entries: Vec::new() }
    }

    /// The position of the pair that decides `key`, if the key is present.
    fn find(&self, key: u64) -> (r: Option<usize>)
        ensures
            match r {
                Some(i) => i < self.entries@.len() && self.entries@[i as int].0 == key
                    && forall|j: int| 0 <= j < i ==> (#[trigger] self.entries@[j]).0 != key,
                None => forall|j: int|
                    0 <= j < self.entries@.len() ==> (#[trigger] self.entries@[j]).0 != key,
            },
    {
        let n = self.entries.len();
        for i in 0..n
            invariant
                n == self.entries@.len(),
                forall|j: int| 0 <= j < i ==> (#[trigger] self.entries@[j]).0 != key,
        {
            if self.entries[i].0 == key {
                return Some(i);
            }
        }
        None
    }

    /// Whether a value is filed under `key`.
    pub fn contains(&self, key: u64) -> (r: bool)
        ensures
            r == self@.contains_key(key),
    {
        match self.find(key) {
            Some(i) => {
                proof {
                    lemma_assoc_first_match(self.entries@, key, i as int);
                }
                true
            },
            None => {
                proof {
                    lemma_assoc_absent(self.entries@, key);
                }
                false
            },
        }
    }

    /// The value filed under `key`, or nothing: absence is an ordinary
    /// result, not a fault.
    pub fn get(&self, key: u64) -> (r: Option<&T>)
        ensures
            match r {
                Some(value) => self@.contains_key(key) && *value == self@[key],
                None => !self@.contains_key(key),
            },
    {
        match self.find(key) {
            Some(i) => {
                proof {
                    lemma_assoc_first_match(self.entries@, key, i as int);
                }
                Some(&self.entries[i].1)
            },
            None => {
                proof {
                    lemma_assoc_absent(self.entries@, key);
                }
                None
            },
        }
    }

    /// Mutable counterpart of `get`: the caller may change the value filed
    /// under `key` in place, and only that value.
    pub fn get_mut(&mut self, key: u64) -> (r: Option<&mut T>)
        ensures
            match r {
                Some(value) => old(self)@.contains_key(key) && *value == old(self)@[key]
                    && final(self)@ == old(self)@.insert(key, *final(value)),
                None => !old(self)@.contains_key(key) && final(self)@ == old(self)@,
            },
    {
        match self.find(key) {
            Some(i) => {
                proof {
                    lemma_assoc_first_match(old(self).entries@, key, i as int);
                }
                let r = &mut self.entries[i].1;
                proof {
                    lemma_assoc_update_first(old(self).entries@, key, i as int, *final(r));
                }
                Some(r)
            },
            None => {
                proof {
                    lemma_assoc_absent(self.entries@, key);
                }
                None
            },
        }
    }

    /// Files `value` under `key`. A value already filed under the same key is
    /// replaced; values under other keys are untouched.
    pub fn insert(&mut self, key: u64, value: T)
        ensures
            final(self)@ == old(self)@.insert(key, value),
    {
        match self.find(key) {
            Some(i) => {
                proof {
                    lemma_assoc_update_first(self.entries@, key, i as int, value);
                }
                self.entries[i] = (key, value);
            },
            None => {
                proof {
                    lemma_assoc_absent(self.entries@, key);
                    assert(self.entries@.insert(0, (key, value)).drop_first() =~= self.entries@);
                }
                self.entries.insert(0, (key, value));
            },
        }
    }
}

} // verus!
