//! A minimal entity-component-system runtime.
//!
//! Game or simulation objects ("entities") are bags of independently keyed
//! data values ("components"). Behavior units ("systems") declare the set of
//! component keys they require and are invoked once per tick with the subset
//! of entities that carry every required key, together with a world-wide
//! store of shared values ("globals").

pub mod component;
pub mod entities;
pub mod entity;
pub mod entity_builder;
pub mod global;
pub mod system;
pub mod world;

pub use component::ComponentStore;
pub use entities::Entities;
pub use entity::Entity;
pub use entity::TagStore;
pub use entity_builder::EntityBuilder;
pub use global::Globals;
pub use system::System;
pub use world::World;
pub use world::WorldData;
