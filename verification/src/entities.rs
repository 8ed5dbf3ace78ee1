//! The entity collection and its queries.
//!
//! Entities sit in insertion order; removal swaps the last entity into the
//! freed slot, so iteration order may change after a deletion. Every query is
//! a linear scan: the collection keeps no index by component key.

use vstd::prelude::*;

use crate::entity::Entity;

verus! {

/// The values behind a sequence of references.
pub open spec fn deref_seq<T>(s: Seq<&T>) -> Seq<T> {
    Seq::new(s.len(), |i: int| *s[i])
}

/// The entities among the first `upto` of `s` whose label equals `label`, in
/// storage order.
pub open spec fn labeled<T>(s: Seq<Entity<T>>, label: Seq<char>, upto: int) -> Seq<Entity<T>>
    decreases upto,
{
    if upto <= 0 {
        Seq::<Entity<T>>::empty()
    } else {
        let rest = labeled(s, label, upto - 1);
        if s[upto - 1].spec_label() == Some(label) {
            rest.push(s[upto - 1])
        } else {
            rest
        }
    }
}

/// The entities among the first `upto` of `s` that hold a component under
/// `key`, in storage order.
pub open spec fn holding<T>(s: Seq<Entity<T>>, key: u64, upto: int) -> Seq<Entity<T>>
    decreases upto,
{
    if upto <= 0 {
        Seq::<Entity<T>>::empty()
    } else {
        let rest = holding(s, key, upto - 1);
        if s[upto - 1].has_component(key) {
            rest.push(s[upto - 1])
        } else {
            rest
        }
    }
}

/// The component under `key` of each of the first `upto` entities of `s` that
/// has one, in storage order.
pub open spec fn components_of<T>(s: Seq<Entity<T>>, key: u64, upto: int) -> Seq<T>
    decreases upto,
{
    if upto <= 0 {
        Seq::<T>::empty()
    } else {
        let rest = components_of(s, key, upto - 1);
        if s[upto - 1].has_component(key) {
            rest.push(s[upto - 1].components@[key])
        } else {
            rest
        }
    }
}

/// The positions, among the first `upto` of `s` and in increasing order, of
/// the entities whose label equals `label`.
pub open spec fn label_positions<T>(s: Seq<Entity<T>>, label: Seq<char>, upto: int) -> Seq<usize>
    decreases upto,
{
    if upto <= 0 {
        Seq::<usize>::empty()
    } else {
        let rest = label_positions(s, label, upto - 1);
        if s[upto - 1].spec_label() == Some(label) {
            rest.push((upto - 1) as usize)
        } else {
            rest
        }
    }
}

/// The positions, among the first `upto` of `s` and in increasing order, of
/// the entities that hold a component under `key`.
pub open spec fn component_positions<T>(s: Seq<Entity<T>>, key: u64, upto: int) -> Seq<usize>
    decreases upto,
{
    if upto <= 0 {
        Seq::<usize>::empty()
    } else {
        let rest = component_positions(s, key, upto - 1);
        if s[upto - 1].has_component(key) {
            rest.push((upto - 1) as usize)
        } else {
            rest
        }
    }
}

/// The positions, among the first `upto` of `s` and in increasing order, of
/// the entities that hold components under every key in `keys`.
pub open spec fn matching_positions<T>(s: Seq<Entity<T>>, keys: Seq<u64>, upto: int) -> Seq<usize>
    decreases upto,
{
    if upto <= 0 {
        Seq::<usize>::empty()
    } else {
        let rest = matching_positions(s, keys, upto - 1);
        if s[upto - 1].has_all_components(keys) {
            rest.push((upto - 1) as usize)
        } else {
            rest
        }
    }
}

/// All entities added to the world, in storage order.
pub struct Entities<T> {
    items: Vec<Entity<T>>,
}

impl<T> View for Entities<T> {
    type V = Seq<Entity<T>>;

    closed spec fn view(&self) -> Seq<Entity<T>> {
        self.items@
    }
}

impl<T> Entities<T> {
    /// An empty collection.
    pub fn new() -> (entities: Entities<T>)
        ensures
            entities@ == Seq::<Entity<T>>::empty(),
    {
        Entities { items: Vec::new() }
    }

    /// Appends `entity` at the end of the collection.
    pub fn push(&mut self, entity: Entity<T>)
        ensures
            final(self)@ == old(self)@.push(entity),
    {
        self.items.push(entity);
    }

    /// Removes the entity at `idx` in constant time by swapping the last
    /// entity into its place: the count drops by one and the former last
    /// entity now sits at `idx`.
    pub fn remove(&mut self, idx: usize)
        requires
            idx < old(self)@.len(),
        ensures
            final(self)@ == old(self)@.update(idx as int, old(self)@.last()).drop_last(),
    {
        self.items.swap_remove(idx);
    }

    /// Whether the collection holds no entity.
    pub fn is_empty(&self) -> (r: bool)
        ensures
            r == (self@.len() == 0),
    {
        self.items.is_empty()
    }

    /// How many entities the collection holds.
    pub fn len(&self) -> (r: usize)
        ensures
            r == self@.len(),
    {
        self.items.len()
    }

    /// The entity at `idx`. An index is valid only until the next removal.
    pub fn index(&self, idx: usize) -> (r: &Entity<T>)
        requires
            idx < self@.len(),
        ensures
            *r == self@[idx as int],
    {
        &self.items[idx]
    }

    /// Mutable access to the entity at `idx`.
    pub fn index_mut(&mut self, idx: usize) -> (r: &mut Entity<T>)
        requires
            idx < old(self)@.len(),
        ensures
            *r == old(self)@[idx as int],
            final(self)@ == old(self)@.update(idx as int, *final(r)),
    {
        &mut self.items[idx]
    }

    /// Every entity, in storage order.
    pub fn vec(&self) -> (r: Vec<&Entity<T>>)
        ensures
            deref_seq(r@) == self@,
    {
        let mut out: Vec<&Entity<T>> = Vec::new();
        let n = self.items.len();
        for i in 0..n
            invariant
                n == self@.len(),
                deref_seq(out@) == self@.subrange(0, i as int),
        {
            let e = &self.items[i];
            proof {
                assert(deref_seq(out@.push(e)) =~= deref_seq(out@).push(*e));
                assert(deref_seq(out@).push(self@[i as int]) =~= self@.subrange(0, i as int + 1));
            }
            out.push(e);
        }
        proof {
            assert(self@.subrange(0, n as int) =~= self@);
        }
        out
    }

    /// Every entity whose label equals `label`, in storage order. Labels are
    /// not unique, so this may return more than one entity.
    pub fn with_label(&self, label: &str) -> (r: Vec<&Entity<T>>)
        ensures
            deref_seq(r@) == labeled(self@, label@, self@.len() as int),
    {
        let owned = label.to_owned();
        let mut out: Vec<&Entity<T>> = Vec::new();
        let n = self.items.len();
        for i in 0..n
            invariant
                n == self@.len(),
                owned@ == label@,
                deref_seq(out@) == labeled(self@, label@, i as int),
        {
            let e = &self.items[i];
            let matched = match e.label() {
                Some(l) => *l == owned,
                None => false,
            };
            if matched {
                proof {
                    assert(deref_seq(out@.push(e)) =~= deref_seq(out@).push(*e));
                }
                out.push(e);
            }
        }
        out
    }

    /// Every entity that holds a component under `key`, in storage order.
    pub fn with_component(&self, key: u64) -> (r: Vec<&Entity<T>>)
        ensures
            deref_seq(r@) == holding(self@, key, self@.len() as int),
    {
        let mut out: Vec<&Entity<T>> = Vec::new();
        let n = self.items.len();
        for i in 0..n
            invariant
                n == self@.len(),
                deref_seq(out@) == holding(self@, key, i as int),
        {
            let e = &self.items[i];
            if e.components.contains(key) {
                proof {
                    assert(deref_seq(out@.push(e)) =~= deref_seq(out@).push(*e));
                }
                out.push(e);
            }
        }
        out
    }

    /// The positions, in increasing order, of every entity whose label
    /// equals `label`. Mutate the entities behind them through `index_mut`.
    pub fn with_label_mut(&self, label: &str) -> (r: Vec<usize>)
        ensures
            r@ == label_positions(self@, label@, self@.len() as int),
    {
        let owned = label.to_owned();
        let mut out: Vec<usize> = Vec::new();
        let n = self.items.len();
        for i in 0..n
            invariant
                n == self@.len(),
                owned@ == label@,
                out@ == label_positions(self@, label@, i as int),
        {
            let e = &self.items[i];
            let matched = match e.label() {
                Some(l) => *l == owned,
                None => false,
            };
            if matched {
                out.push(i);
            }
        }
        out
    }

    /// The positions, in increasing order, of every entity that holds a
    /// component under `key`. Mutate the entities behind them through
    /// `index_mut`.
    pub fn with_component_mut(&self, key: u64) -> (r: Vec<usize>)
        ensures
            r@ == component_positions(self@, key, self@.len() as int),
    {
        let mut out: Vec<usize> = Vec::new();
        let n = self.items.len();
        for i in 0..n
            invariant
                n == self@.len(),
                out@ == component_positions(self@, key, i as int),
        {
            if self.items[i].components.contains(key) {
                out.push(i);
            }
        }
        out
    }

    /// The component under `key` of every entity that has one, in storage
    /// order: entities lacking the key are skipped, never an error.
    pub fn filter_map_to_component(&self, key: u64) -> (r: Vec<&T>)
        ensures
            deref_seq(r@) == components_of(self@, key, self@.len() as int),
    {
        let mut out: Vec<&T> = Vec::new();
        let n = self.items.len();
        for i in 0..n
            invariant
                n == self@.len(),
                deref_seq(out@) == components_of(self@, key, i as int),
        {
            match self.items[i].components.get(key) {
                Some(value) => {
                    proof {
                        assert(deref_seq(out@.push(value)) =~= deref_seq(out@).push(*value));
                    }
                    out.push(value);
                },
                None => {},
            }
        }
        out
    }

    /// The positions, in increasing order, of every entity that holds a
    /// component under every key in `keys`: the set intersection a system's
    /// component requirements call for. An entity holding a strict superset
    /// of `keys` is included; with no keys at all, every entity matches.
    pub fn matching(&self, keys: &Vec<u64>) -> (r: Vec<usize>)
        ensures
            r@ == matching_positions(self@, keys@, self@.len() as int),
    {
        let mut out: Vec<usize> = Vec::new();
        let n = self.items.len();
        for i in 0..n
            invariant
                n == self@.len(),
                out@ == matching_positions(self@, keys@, i as int),
        {
            if self.items[i].contains_all(keys) {
                out.push(i);
            }
        }
        out
    }
}

/// The entities of `s` at the given positions, in that order.
pub open spec fn entities_at<T>(s: Seq<Entity<T>>, positions: Seq<usize>) -> Seq<Entity<T>>
    decreases positions.len(),
{
    if positions.len() == 0 {
        Seq::<Entity<T>>::empty()
    } else {
        entities_at(s, positions.drop_last()).push(s[positions.last() as int])
    }
}

/// The positions `with_component_mut` returns point, in strictly increasing
/// order, at entities that hold a component under `key` — and at all of
/// them: a position is left out only when its entity lacks the key.
pub proof fn lemma_component_positions_exact<T>(s: Seq<Entity<T>>, key: u64, upto: int)
    requires
        0 <= upto <= s.len(),
        upto <= usize::MAX,
    ensures
        forall|j: int|
            0 <= j < component_positions(s, key, upto).len()
                ==> (#[trigger] component_positions(s, key, upto)[j]) < upto
                && s[component_positions(s, key, upto)[j] as int].has_component(key),
        forall|i: int|
            0 <= i < upto && s[i].has_component(key) ==> component_positions(
                s,
                key,
                upto,
            ).contains(i as usize),
        forall|j1: int, j2: int|
            0 <= j1 < j2 < component_positions(s, key, upto).len() ==> component_positions(
                s,
                key,
                upto,
            )[j1] < component_positions(s, key, upto)[j2],
    decreases upto,
{
    if upto > 0 {
        lemma_component_positions_exact(s, key, upto - 1);
        let shorter = component_positions(s, key, upto - 1);
        let longer = component_positions(s, key, upto);
        assert forall|i: int| 0 <= i < upto && s[i].has_component(key) implies longer.contains(
            i as usize,
        ) by {
            if i < upto - 1 {
                let j = choose|j: int| 0 <= j < shorter.len() && shorter[j] == i as usize;
                assert(longer[j] == i as usize);
            } else {
                assert(longer.last() == i as usize);
            }
        }
        if s[upto - 1].has_component(key) {
            assert(longer == shorter.push((upto - 1) as usize));
            assert forall|j: int| 0 <= j < longer.len() implies (#[trigger] longer[j]) < upto
                && s[longer[j] as int].has_component(key) by {
                if j < shorter.len() {
                    assert(longer[j] == shorter[j]);
                } else {
                    assert(longer[j] == (upto - 1) as usize);
                }
            }
            assert forall|j1: int, j2: int| 0 <= j1 < j2 < longer.len() implies longer[j1]
                < longer[j2] by {
                if j2 < shorter.len() {
                    assert(longer[j1] == shorter[j1] && longer[j2] == shorter[j2]);
                } else {
                    assert(longer[j1] == shorter[j1] && shorter[j1] < upto - 1);
                    assert(longer[j2] == (upto - 1) as usize);
                }
            }
        } else {
            assert(longer == shorter);
        }
    }
}

/// What `with_component` returns is exactly the entities at the positions
/// `with_component_mut` returns, in the same order: the two queries agree.
pub proof fn lemma_holding_is_entities_at_positions<T>(s: Seq<Entity<T>>, key: u64, upto: int)
    requires
        0 <= upto <= s.len(),
        upto <= usize::MAX,
    ensures
        holding(s, key, upto) == entities_at(s, component_positions(s, key, upto)),
    decreases upto,
{
    if upto > 0 {
        lemma_holding_is_entities_at_positions(s, key, upto - 1);
        if s[upto - 1].has_component(key) {
            let positions = component_positions(s, key, upto - 1);
            let grown = positions.push((upto - 1) as usize);
            assert(grown.drop_last() =~= positions);
            assert(entities_at(s, grown) == entities_at(s, positions).push(
                s[grown.last() as int],
            ));
        }
    }
}

/// The positions `matching` returns point, in strictly increasing order, at
/// entities that hold every required key — and at all of them: a position is
/// left out only when its entity lacks some required key.
pub proof fn lemma_matching_positions_exact<T>(s: Seq<Entity<T>>, keys: Seq<u64>, upto: int)
    requires
        0 <= upto <= s.len(),
        upto <= usize::MAX,
    ensures
        forall|j: int|
            0 <= j < matching_positions(s, keys, upto).len()
                ==> (#[trigger] matching_positions(s, keys, upto)[j]) < upto
                && s[matching_positions(s, keys, upto)[j] as int].has_all_components(keys),
        forall|i: int|
            0 <= i < upto && s[i].has_all_components(keys) ==> matching_positions(
                s,
                keys,
                upto,
            ).contains(i as usize),
        forall|j1: int, j2: int|
            0 <= j1 < j2 < matching_positions(s, keys, upto).len() ==> matching_positions(
                s,
                keys,
                upto,
            )[j1] < matching_positions(s, keys, upto)[j2],
    decreases upto,
{
    if upto > 0 {
        lemma_matching_positions_exact(s, keys, upto - 1);
        let shorter = matching_positions(s, keys, upto - 1);
        let longer = matching_positions(s, keys, upto);
        assert forall|i: int| 0 <= i < upto && s[i].has_all_components(keys) implies longer.contains(
            i as usize,
        ) by {
            if i < upto - 1 {
                let j = choose|j: int| 0 <= j < shorter.len() && shorter[j] == i as usize;
                assert(longer[j] == i as usize);
            } else {
                assert(longer.last() == i as usize);
            }
        }
        if s[upto - 1].has_all_components(keys) {
            assert(longer == shorter.push((upto - 1) as usize));
            assert forall|j: int| 0 <= j < longer.len() implies (#[trigger] longer[j]) < upto
                && s[longer[j] as int].has_all_components(keys) by {
                if j < shorter.len() {
                    assert(longer[j] == shorter[j]);
                } else {
                    assert(longer[j] == (upto - 1) as usize);
                }
            }
            assert forall|j1: int, j2: int| 0 <= j1 < j2 < longer.len() implies longer[j1]
                < longer[j2] by {
                if j2 < shorter.len() {
                    assert(longer[j1] == shorter[j1] && longer[j2] == shorter[j2]);
                } else {
                    assert(longer[j1] == shorter[j1] && shorter[j1] < upto - 1);
                    assert(longer[j2] == (upto - 1) as usize);
                }
            }
        } else {
            assert(longer == shorter);
        }
    }
}

} // verus!
