use yaecs::{Entities, EntityBuilder};

#[derive(Debug, PartialEq)]
pub struct TestComponent(pub u8);

#[derive(Debug, PartialEq)]
pub struct AnotherComponent;

#[derive(Debug, PartialEq)]
pub enum Comp {
    Test(TestComponent),
    Another(AnotherComponent),
}

pub const TEST_COMPONENT: u64 = 1;
pub const ANOTHER_COMPONENT: u64 = 2;

#[test]
fn iter_works() {
    let mut entities: Entities<Comp> = Entities::new();
    entities.push(
        EntityBuilder::create_str("test1")
            .add(TEST_COMPONENT, Comp::Test(TestComponent(1)))
            .build(),
    );
    entities.push(
        EntityBuilder::create_str("test2")
            .add(ANOTHER_COMPONENT, Comp::Another(AnotherComponent))
            .build(),
    );

    let res = entities.vec();
    assert_eq!(2, res.len());
}

#[test]
fn with_label_works() {
    let mut entities: Entities<Comp> = Entities::new();
    let ent1 = EntityBuilder::create_str("test1")
        .add(TEST_COMPONENT, Comp::Test(TestComponent(1)))
        .build();
    let ent2 = EntityBuilder::create_str("test2")
        .add(ANOTHER_COMPONENT, Comp::Another(AnotherComponent))
        .build();

    entities.push(ent1);
    entities.push(ent2);

    let mut results = entities.with_label("test1");
    assert_eq!(1, results.len());
    assert_eq!("test1", results.pop().unwrap().label().unwrap().as_str());
    assert!(entities.with_label("aaaaaa").is_empty());
}

#[test]
fn with_label_mut_works() {
    let mut entities: Entities<Comp> = Entities::new();
    let ent1 = EntityBuilder::create_str("test1")
        .add(TEST_COMPONENT, Comp::Test(TestComponent(1)))
        .build();
    let ent2 = EntityBuilder::create_str("test2")
        .add(ANOTHER_COMPONENT, Comp::Another(AnotherComponent))
        .build();

    entities.push(ent1);
    entities.push(ent2);

    {
        let mut results = entities.with_label_mut("test1");
        assert_eq!(1, results.len());

        let idx = results.pop().unwrap();
        let unwrapped = entities.index_mut(idx);
        assert_eq!("test1", unwrapped.label().unwrap().as_str());
        let unwrapped_component = unwrapped.components.get_mut(TEST_COMPONENT).unwrap();
        *unwrapped_component = Comp::Test(TestComponent(2));
        assert_eq!(unwrapped_component, &mut Comp::Test(TestComponent(2)));
    }
    assert!(entities.with_label("aaaaaa").is_empty());
}

#[test]
fn with_component_works() {
    let mut entities: Entities<Comp> = Entities::new();
    entities.push(
        EntityBuilder::create_str("test")
            .add(TEST_COMPONENT, Comp::Test(TestComponent(1)))
            .build(),
    );
    entities.push(
        EntityBuilder::create_str("test")
            .add(ANOTHER_COMPONENT, Comp::Another(AnotherComponent))
            .build(),
    );

    let test_component = entities.with_component(TEST_COMPONENT).pop().unwrap();
    assert!(test_component.components.contains(TEST_COMPONENT));
}

#[test]
fn with_component_mut_works() {
    let mut entities: Entities<Comp> = Entities::new();
    entities.push(
        EntityBuilder::create_str("test")
            .add(TEST_COMPONENT, Comp::Test(TestComponent(1)))
            .build(),
    );
    entities.push(
        EntityBuilder::create_str("test")
            .add(ANOTHER_COMPONENT, Comp::Another(AnotherComponent))
            .build(),
    );

    let idx = entities.with_component_mut(TEST_COMPONENT).pop().unwrap();
    let test_component = entities.index_mut(idx);
    assert!(test_component.components.contains(TEST_COMPONENT));

    let unwrapped = test_component.components.get_mut(TEST_COMPONENT).unwrap();
    *unwrapped = Comp::Test(TestComponent(2));
    assert_eq!(unwrapped, &mut Comp::Test(TestComponent(2)));
}

#[test]
fn filter_map_to_component_works() {
    let mut entities: Entities<Comp> = Entities::new();
    entities.push(
        EntityBuilder::create_str("test")
            .add(TEST_COMPONENT, Comp::Test(TestComponent(1)))
            .build(),
    );
    entities.push(
        EntityBuilder::create_str("test")
            .add(ANOTHER_COMPONENT, Comp::Another(AnotherComponent))
            .build(),
    );

    let test_component = entities.filter_map_to_component(TEST_COMPONENT).pop();
    assert_eq!(test_component, Some(&Comp::Test(TestComponent(1))));
}

#[test]
fn filter_map_to_component_mut_works() {
    let mut entities: Entities<Comp> = Entities::new();
    entities.push(
        EntityBuilder::create_str("test")
            .add(TEST_COMPONENT, Comp::Test(TestComponent(1)))
            .build(),
    );
    entities.push(
        EntityBuilder::create_str("test")
            .add(ANOTHER_COMPONENT, Comp::Another(AnotherComponent))
            .build(),
    );

    let idx = entities.with_component_mut(TEST_COMPONENT).pop().unwrap();
    let test_component = entities.index_mut(idx).components.get_mut(TEST_COMPONENT);
    assert_eq!(test_component, Some(&mut Comp::Test(TestComponent(1))));

    let unwrapped = test_component.unwrap();
    *unwrapped = Comp::Test(TestComponent(2));
    assert_eq!(unwrapped, &mut Comp::Test(TestComponent(2)));
}
