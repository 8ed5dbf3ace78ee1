//! A fluent builder for entities.
//!
//! `create` starts from a labeled, component-less entity; `add` and `tag`
//! accumulate components and metadata; `build` finalizes. The builder is
//! consumed by every step, so a finished builder cannot be reused.

use vstd::prelude::*;

use crate::entity::Entity;

verus! {

/// Accumulates components and tags for one entity under construction.
pub struct EntityBuilder<T> {
    entity: Entity<T>,
}

impl<T> View for EntityBuilder<T> {
    type V = Entity<T>;

    closed spec fn view(&self) -> Entity<T> {
        self.entity
    }
}

impl<T> EntityBuilder<T> {
    /// Starts an entity with the given label and no components.
    pub fn create(label: String) -> (builder: EntityBuilder<T>)
        ensures
            builder@.components@ == Map::<u64, T>::empty(),
            builder@.tags@ == Map::<Seq<char>, Seq<char>>::empty().insert("label"@, label@),
    {
        EntityBuilder { entity: Entity::new(label) }
    }

    /// `create`, taking the label as a string slice.
    pub fn create_str(label: &str) -> (builder: EntityBuilder<T>)
        ensures
            builder@.components@ == Map::<u64, T>::empty(),
            builder@.tags@ == Map::<Seq<char>, Seq<char>>::empty().insert("label"@, label@),
    {
        EntityBuilder { entity: Entity::new(label.to_owned()) }
    }

    /// Files `component` under `key` on the entity under construction,
    /// replacing any component already filed under the same key.
    pub fn add(self, key: u64, component: T) -> (builder: EntityBuilder<T>)
        ensures
            builder@.components@ == self@.components@.insert(key, component),
            builder@.tags@ == self@.tags@,
    {
        let mut entity = self.entity;
        entity.components.insert(key, component);
        EntityBuilder { entity }
    }

    /// Stores the tag `key` / `value` on the entity under construction,
    /// replacing any value already stored under the same key.
    pub fn tag(self, key: &str, value: String) -> (builder: EntityBuilder<T>)
        ensures
            builder@.components@ == self@.components@,
            builder@.tags@ == self@.tags@.insert(key@, value@),
    {
        let mut entity = self.entity;
        entity.tags.insert(key.to_owned(), value);
        EntityBuilder { entity }
    }

    /// Finalizes and hands the entity over.
    pub fn build(self) -> (entity: Entity<T>)
        ensures
            entity == self@,
    {
        self.entity
    }
}

} // verus!
