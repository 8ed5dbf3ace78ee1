//! Behavior units.

use vstd::prelude::*;

use crate::world::WorldData;

verus! {

/// A behavior unit, run once per tick by the world that owns it.
///
/// A system declares, through `operates_on`, the component keys it requires
/// of any entity it wishes to see; each tick it is handed the positions of
/// exactly the entities holding every declared key, together with the whole
/// world data (all entities and the world's shared values). The library
/// promises nothing about what an implementation does with them.
pub trait System<C, G> {
    /// The component keys an entity must hold, all of them, for this system
    /// to operate on it. An empty declaration matches every entity.
    fn operates_on(&self) -> Vec<u64>;

    /// One tick's work. `view` holds the positions, in `data.entities`, of
    /// the entities that hold every declared key; the system may still read
    /// or write any entity and any shared value through `data`.
    fn process(&mut self, view: &Vec<usize>, data: &mut WorldData<C, G>);
}

} // verus!
