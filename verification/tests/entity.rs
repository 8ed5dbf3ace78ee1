use yaecs::EntityBuilder;

#[derive(Debug, PartialEq)]
pub struct TestComponent(pub u8);

#[derive(Debug, PartialEq)]
pub struct AnotherComponent;

#[derive(Debug, PartialEq)]
pub enum Comp {
    Test(TestComponent),
    Another(AnotherComponent),
}

pub const TEST_COMPONENT: u64 = 1;
pub const ANOTHER_COMPONENT: u64 = 2;

#[test]
fn entity_can_contain_components() {
    let entity = EntityBuilder::create_str("test")
        .add(TEST_COMPONENT, Comp::Test(TestComponent(1)))
        .build();
    assert_eq!(entity.tags.get("label"), Some(&String::from("test")));
    assert_eq!(
        entity.components.get(TEST_COMPONENT),
        Some(&Comp::Test(TestComponent(1)))
    );
}

#[test]
fn entity_has_components_works() {
    let entity = EntityBuilder::create_str("test")
        .add(TEST_COMPONENT, Comp::Test(TestComponent(1)))
        .build();
    assert!(entity.components.contains(TEST_COMPONENT));
    assert!(!entity.components.contains(ANOTHER_COMPONENT));

    let entity = EntityBuilder::create_str("test")
        .add(ANOTHER_COMPONENT, Comp::Another(AnotherComponent))
        .build();
    assert!(!entity.components.contains(TEST_COMPONENT));
    assert!(entity.components.contains(ANOTHER_COMPONENT));
}
