//! World-scoped shared values.

use vstd::prelude::*;

use crate::component::ComponentStore;

verus! {

/// `Globals` follows the same contract as `ComponentStore`, but where a
/// `ComponentStore` is tied to one entity, this one is tied to the `World`:
/// values stored here are available to every `System`. This suits shared
/// resources such as configuration or counters.
pub type Globals<T> = ComponentStore<T>;

} // verus!
