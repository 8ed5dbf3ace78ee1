//! The world: all entities, shared values, and systems, and the tick loop.

use vstd::prelude::*;

use crate::component::ComponentStore;
use crate::entities::Entities;
use crate::entities::matching_positions;
use crate::entity::Entity;
use crate::global::Globals;
use crate::system::System;

verus! {

/// One more element at the end: the sequence grows by one, keeps its prefix,
/// and ends in that element.
proof fn lemma_push_shape<A>(s: Seq<A>, a: A)
    ensures
        s.push(a).len() == s.len() + 1,
        s.push(a).drop_last() == s,
        s.push(a).last() == a,
        forall|i: int| 0 <= i <= s.len() ==> s.push(a)[i] == (if i < s.len() { s[i] } else { a }),
{
    assert(s.push(a).drop_last() =~= s);
}

/// Taking one element out and putting one back at the same place restores
/// the length.
proof fn lemma_remove_insert_len<A>(s: Seq<A>, i: int, a: A)
    requires
        0 <= i < s.len(),
    ensures
        s.remove(i).insert(i, a).len() == s.len(),
{
}

/// Everything a system may read or write during a tick: the entity
/// collection and the world-scoped shared values. Keeping this data apart
/// from the system list lets the world hand it, whole, to one system after
/// another while it walks that list.
pub struct WorldData<C, G> {
    /// All entities added to the world.
    pub entities: Entities<C>,
    /// Shared values visible to every system.
    pub globals: Globals<G>,
}

/// Owns the world data and every registered system, and runs the per-tick
/// filter-then-dispatch sequence.
#[verifier::reject_recursive_types(C)]
#[verifier::reject_recursive_types(G)]
pub struct World<C, G> {
    /// The entities and shared values systems operate on.
    pub world_data: WorldData<C, G>,
    /// The registered systems, in registration order.
    pub systems: Vec<Box<dyn System<C, G>>>,
}

impl<C, G> World<C, G> {
    /// A world with no entities, no shared values and no systems.
    pub fn new() -> (world: World<C, G>)
        ensures
            world.world_data.entities@ == Seq::<Entity<C>>::empty(),
            world.world_data.globals@ == Map::<u64, G>::empty(),
            world.systems@.len() == 0,
    {
        World {
            world_data: WorldData { entities: Entities::new(), globals: ComponentStore::new() },
            systems: Vec::new(),
        }
    }

    /// Appends `entity` to the world's collection.
    pub fn add_entity(&mut self, entity: Entity<C>)
        ensures
            final(self).world_data.entities@ == old(self).world_data.entities@.push(entity),
            final(self).world_data.globals == old(self).world_data.globals,
            final(self).systems == old(self).systems,
    {
        self.world_data.entities.push(entity);
    }

    /// Builds an entity by handing an empty component store to `init` and
    /// appends the result, with no tags, to the world's collection.
    pub fn create_entity<F: FnOnce(ComponentStore<C>) -> ComponentStore<C>>(&mut self, init: F)
        requires
            forall|store: ComponentStore<C>|
                store@ == Map::<u64, C>::empty() ==> #[trigger] call_requires(init, (store,)),
        ensures
            final(self).world_data.globals == old(self).world_data.globals,
            final(self).systems == old(self).systems,
            final(self).world_data.entities@.len() == old(self).world_data.entities@.len() + 1,
            final(self).world_data.entities@.drop_last() == old(self).world_data.entities@,
            final(self).world_data.entities@.last().tags@ == Map::<Seq<char>, Seq<char>>::empty(),
            exists|store: ComponentStore<C>|
                store@ == Map::<u64, C>::empty() && #[trigger] call_ensures(
                    init,
                    (store,),
                    final(self).world_data.entities@.last().components,
                ),
    {
        let store = ComponentStore::new();
        let filled = init(store);
        let mut entity = Entity::unlabeled();
        entity.components = filled;
        self.world_data.entities.push(entity);
        proof {
            lemma_push_shape(old(self).world_data.entities@, entity);
            assert(call_ensures(init, (store,), self.world_data.entities@.last().components));
        }
    }

    /// Stores `value` under `key` in the world's shared values, replacing
    /// any value already there.
    pub fn add_global(&mut self, key: u64, value: G)
        ensures
            final(self).world_data.globals@ == old(self).world_data.globals@.insert(key, value),
            final(self).world_data.entities == old(self).world_data.entities,
            final(self).systems == old(self).systems,
    {
        self.world_data.globals.insert(key, value);
    }

    /// The shared value under `key`, or nothing if no value is stored there.
    pub fn get_global(&self, key: u64) -> (r: Option<&G>)
        ensures
            match r {
                Some(value) => self.world_data.globals@.contains_key(key) && *value
                    == self.world_data.globals@[key],
                None => !self.world_data.globals@.contains_key(key),
            },
    {
        self.world_data.globals.get(key)
    }

    /// Registers `system` after every system registered so far.
    pub fn register(&mut self, system: Box<dyn System<C, G>>)
        ensures
            final(self).systems@ == old(self).systems@.push(system),
            final(self).world_data == old(self).world_data,
    {
        self.systems.push(system);
    }

    /// Boxes `system` and registers it after every system registered so far.
    pub fn add_system<S: System<C, G> + 'static>(&mut self, system: S)
        ensures
            final(self).systems@.len() == old(self).systems@.len() + 1,
            final(self).systems@.drop_last() == old(self).systems@,
            final(self).world_data == old(self).world_data,
    {
        let boxed: Box<dyn System<C, G>> = Box::new(system);
        self.systems.push(boxed);
        proof {
            lemma_push_shape(old(self).systems@, boxed);
        }
    }

    /// One tick: every registered system runs exactly once, in registration
    /// order, synchronously. Each system is handed the positions of the
    /// entities that hold every key it declares, computed right before it
    /// runs, so it sees every change the systems before it made during the
    /// same tick. A tick over a world with no systems changes nothing, and
    /// running it again is safe.
    pub fn update(&mut self)
        ensures
            final(self).systems@.len() == old(self).systems@.len(),
            old(self).systems@.len() == 0 ==> *final(self) == *old(self),
    {
        let n = self.systems.len();
        for i in 0..n
            invariant
                n == old(self).systems@.len(),
                self.systems@.len() == n,
                n == 0 ==> *self == *old(self),
        {
            let ghost at_entry = self.systems@;
            let mut system = self.systems.remove(i);
            let keys = system.operates_on();
            let view = self.world_data.entities.matching(&keys);
            system.process(&view, &mut self.world_data);
            self.systems.insert(i, system);
            proof {
                lemma_remove_insert_len(at_entry, i as int, system);
            }
        }
    }
}

} // verus!
