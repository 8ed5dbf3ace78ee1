//! Entities: bags of components with string metadata.
//!
//! An entity is an identifier for one component store, plus a set of tags
//! (string key / string value metadata). The tag under the key `"label"` is
//! the entity's human-readable name; labels are not unique, and two entities
//! compare equal exactly when their labels do — components are never
//! compared.

use vstd::prelude::*;
use vstd::std_specs::cmp::PartialEqSpec;

use crate::component::ComponentStore;

verus! {

/// Reads a list of string pairs as a map over their character sequences.
/// Where a key occurs more than once, the earliest pair decides its value.
pub open spec fn tag_map(pairs: Seq<(String, String)>) -> Map<Seq<char>, Seq<char>>
    decreases pairs.len(),
{
    if pairs.len() == 0 {
        Map::<Seq<char>, Seq<char>>::empty()
    } else {
        tag_map(pairs.drop_first()).insert(pairs[0].0@, pairs[0].1@)
    }
}

/// String key / string value metadata about one entity, at most one value
/// per key.
pub struct TagStore {
    pairs: Vec<(String, String)>,
}

impl View for TagStore {
    type V = Map<Seq<char>, Seq<char>>;

    closed spec fn view(&self) -> Map<Seq<char>, Seq<char>> {
        tag_map(self.pairs@)
    }
}

/// Where a key first occurs at position `i`, the tag map takes its value
/// from that pair.
proof fn lemma_tag_first_match(pairs: Seq<(String, String)>, key: Seq<char>, i: int)
    requires
        0 <= i < pairs.len(),
        pairs[i].0@ == key,
        forall|j: int| 0 <= j < i ==> (#[trigger] pairs[j]).0@ != key,
    ensures
        tag_map(pairs).contains_key(key),
        tag_map(pairs)[key] == pairs[i].1@,
    decreases pairs.len(),
{
    if i > 0 {
        lemma_tag_first_match(pairs.drop_first(), key, i - 1);
    }
}

/// A key that occurs in no pair is absent from the tag map.
proof fn lemma_tag_absent(pairs: Seq<(String, String)>, key: Seq<char>)
    requires
        forall|j: int| 0 <= j < pairs.len() ==> (#[trigger] pairs[j]).0@ != key,
    ensures
        !tag_map(pairs).contains_key(key),
    decreases pairs.len(),
{
    if pairs.len() > 0 {
        lemma_tag_absent(pairs.drop_first(), key);
    }
}

/// Overwriting the pair where a key first occurs updates that key in the tag
/// map and nothing else.
proof fn lemma_tag_update_first(
    pairs: Seq<(String, String)>,
    key: String,
    i: int,
    value: String,
)
    requires
        0 <= i < pairs.len(),
        pairs[i].0@ == key@,
        forall|j: int| 0 <= j < i ==> (#[trigger] pairs[j]).0@ != key@,
    ensures
        tag_map(pairs.update(i, (key, value))) == tag_map(pairs).insert(key@, value@),
    decreases pairs.len(),
{
    let updated = pairs.update(i, (key, value));
    if i == 0 {
        assert(updated.drop_first() =~= pairs.drop_first());
        assert(tag_map(updated) =~= tag_map(pairs).insert(key@, value@));
    } else {
        assert(updated.drop_first() =~= pairs.drop_first().update(i - 1, (key, value)));
        lemma_tag_update_first(pairs.drop_first(), key, i - 1, value);
        assert(tag_map(updated) =~= tag_map(pairs).insert(key@, value@));
    }
}

impl TagStore {
    /// A fresh tag store holds nothing.
    pub fn new() -> (tags: TagStore)
        ensures
            tags@ == Map::<Seq<char>, Seq<char>>::empty(),
    {
        TagStore { pairs: Vec::new() }
    }

    /// The position of the pair that decides `key`, if the key is present.
    fn find(&self, key: &str) -> (r: Option<usize>)
        ensures
            match r {
                Some(i) => i < self.pairs@.len() && self.pairs@[i as int].0@ == key@
                    && forall|j: int| 0 <= j < i ==> (#[trigger] self.pairs@[j]).0@ != key@,
                None => forall|j: int|
                    0 <= j < self.pairs@.len() ==> (#[trigger] self.pairs@[j]).0@ != key@,
            },
    {
        let owned = key.to_owned();
        let n = self.pairs.len();
        for i in 0..n
            invariant
                n == self.pairs@.len(),
                owned@ == key@,
                forall|j: int| 0 <= j < i ==> (#[trigger] self.pairs@[j]).0@ != key@,
        {
            if self.pairs[i].0 == owned {
                return Some(i);
            }
        }
        None
    }

    /// The value stored under `key`, or nothing if the key is absent.
    pub fn get(&self, key: &str) -> (r: Option<&String>)
        ensures
            match r {
                Some(value) => self@.contains_key(key@) && value@ == self@[key@],
                None => !self@.contains_key(key@),
            },
    {
        match self.find(key) {
            Some(i) => {
                proof {
                    lemma_tag_first_match(self.pairs@, key@, i as int);
                }
                Some(&self.pairs[i].1)
            },
            None => {
                proof {
                    lemma_tag_absent(self.pairs@, key@);
                }
                None
            },
        }
    }

    /// Stores `value` under `key`, replacing any value already there.
    pub fn insert(&mut self, key: String, value: String)
        ensures
            final(self)@ == old(self)@.insert(key@, value@),
    {
        match self.find(key.as_str()) {
            Some(i) => {
                proof {
                    lemma_tag_update_first(self.pairs@, key, i as int, value);
                }
                self.pairs[i] = (key, value);
            },
            None => {
                proof {
                    lemma_tag_absent(self.pairs@, key@);
                    assert(self.pairs@.insert(0, (key, value)).drop_first() =~= self.pairs@);
                }
                self.pairs.insert(0, (key, value));
            },
        }
    }
}

/// An identifier for a bag of components. Systems operate on the subset of
/// all entities that hold components under the keys the system asks for.
pub struct Entity<T> {
    /// Metadata about this entity; the `"label"` tag is its name.
    pub tags: TagStore,
    /// The components this entity holds, at most one per key.
    pub components: ComponentStore<T>,
}

impl<T> Entity<T> {
    /// The entity's label: the tag stored under `"label"`, if any.
    pub open spec fn spec_label(&self) -> Option<Seq<char>> {
        if self.tags@.contains_key("label"@) {
            Some(self.tags@["label"@])
        } else {
            None
        }
    }

    /// Whether this entity holds a component under `key`.
    pub open spec fn has_component(&self, key: u64) -> bool {
        self.components@.contains_key(key)
    }

    /// Whether this entity holds a component under every key in `keys`.
    pub open spec fn has_all_components(&self, keys: Seq<u64>) -> bool {
        forall|j: int| 0 <= j < keys.len() ==> self.has_component(#[trigger] keys[j])
    }

    /// A new entity with the given label and an empty bag of components.
    pub fn new(label: String) -> (entity: Entity<T>)
        ensures
            entity.components@ == Map::<u64, T>::empty(),
            entity.tags@ == Map::<Seq<char>, Seq<char>>::empty().insert("label"@, label@),
            entity.spec_label() == Some(label@),
    {
        let mut tags = TagStore::new();
        tags.insert("label".to_owned(), label);
        Entity { tags, components: ComponentStore::new() }
    }

    /// An entity with no tags and an empty bag of components.
    pub fn unlabeled() -> (entity: Entity<T>)
        ensures
            entity.components@ == Map::<u64, T>::empty(),
            entity.tags@ == Map::<Seq<char>, Seq<char>>::empty(),
            entity.spec_label() is None,
    {
        Entity { tags: TagStore::new(), components: ComponentStore::new() }
    }

    /// Whether this entity holds a component under every key in `keys`.
    pub fn contains_all(&self, keys: &Vec<u64>) -> (r: bool)
        ensures
            r == self.has_all_components(keys@),
    {
        let n = keys.len();
        for j in 0..n
            invariant
                n == keys@.len(),
                forall|t: int| 0 <= t < j ==> self.has_component(#[trigger] keys@[t]),
        {
            if !self.components.contains(keys[j]) {
                proof {
                    assert(!self.has_component(keys@[j as int]));
                }
                return false;
            }
        }
        true
    }

    /// The entity's label, or nothing for an entity that never got one.
    pub fn label(&self) -> (r: Option<&String>)
        ensures
            match r {
                Some(value) => self.spec_label() == Some(value@),
                None => self.spec_label() is None,
            },
    {
        self.tags.get("label")
    }
}

impl<T> PartialEq for Entity<T> {
    /// Entities are equal exactly when their labels are: the label is a
    /// human identifier, not a uniqueness key, and components are never
    /// compared.
    fn eq(&self, other: &Entity<T>) -> (r: bool) {
        match (self.tags.get("label"), other.tags.get("label")) {
            (Some(a), Some(b)) => *a == *b,
            (None, None) => true,
            _ => false,
        }
    }
}

impl<T> vstd::std_specs::cmp::PartialEqSpecImpl for Entity<T> {
    open spec fn obeys_eq_spec() -> bool {
        true
    }

    open spec fn eq_spec(&self, other: &Entity<T>) -> bool {
        self.spec_label() == other.spec_label()
    }
}

/// Label equality: two entities compare equal exactly when their labels are
/// equal, whatever components either one holds.
pub proof fn lemma_equality_is_by_label_only<T>(a: Entity<T>, b: Entity<T>)
    ensures
        a.eq_spec(&b) == (a.spec_label() == b.spec_label()),
{
}

} // verus!
