use yaecs::{Entity, EntityBuilder};

#[derive(Debug, PartialEq)]
pub enum Comp {
    Str(&'static str),
}

pub const STR_COMPONENT: u64 = 7;

#[test]
fn entity_can_be_built() {
    let entity: Entity<Comp> = EntityBuilder::create_str("test").build();
    assert_eq!(entity.label(), Some(&String::from("test")));
}

#[test]
fn entity_add_adds_a_component() {
    let entity = EntityBuilder::create_str("test")
        .add(STR_COMPONENT, Comp::Str("String"))
        .build();
    assert_eq!(entity.label(), Some(&String::from("test")));
    assert_eq!(
        entity.components.get(STR_COMPONENT),
        Some(&Comp::Str("String"))
    );
}

#[test]
fn entity_tag_adds_a_tag() {
    let entity: Entity<Comp> = EntityBuilder::create_str("test")
        .tag("key", String::from("value"))
        .build();
    assert_eq!(entity.label(), Some(&String::from("test")));
    assert_eq!(entity.tags.get("key"), Some(&String::from("value")));
}
