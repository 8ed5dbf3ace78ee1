use yaecs::{System, World, WorldData};

#[test]
fn world_starts_empty() {
    let world: World<Comp, u64> = World::new();
    assert!(world.world_data.entities.is_empty());
    assert!(world.systems.is_empty());
}

#[test]
fn can_create_an_entity_with_no_components() {
    let mut world: World<Comp, u64> = World::new();
    assert!(world.world_data.entities.is_empty());
    world.create_entity(|components| components);
    assert!(!world.world_data.entities.is_empty());
}

#[test]
fn can_create_an_entity_with_multiple_components() {
    let mut world: World<Comp, u64> = World::new();
    assert!(world.world_data.entities.is_empty());
    world.create_entity(move |mut components| {
        components.insert(FAKE_COMPONENT, Comp::Fake(FakeComponent(128)));
        components.insert(OTHER_FAKE_COMPONENT, Comp::OtherFake(OtherFakeComponent {}));
        components
    });
    assert!(!world.world_data.entities.is_empty());
}

#[test]
fn can_register_a_system() {
    let mut world: World<Comp, u64> = World::new();
    assert!(world.systems.is_empty());
    world.register(Box::new(FakeSystem::new()));
    assert!(!world.systems.is_empty());
}

#[test]
fn systems_are_called_during_update() {
    let mut world: World<Comp, u64> = World::new();
    world.register(Box::new(FakeSystem::new()));
    world.create_entity(|mut components| {
        components.insert(FAKE_COMPONENT, Comp::Fake(FakeComponent(128)));
        components.insert(OTHER_FAKE_COMPONENT, Comp::OtherFake(OtherFakeComponent {}));
        components
    });
    world.update();
}

pub struct FakeComponent(pub u8);

pub struct OtherFakeComponent;

pub enum Comp {
    Fake(FakeComponent),
    OtherFake(OtherFakeComponent),
}

pub const FAKE_COMPONENT: u64 = 1;
pub const OTHER_FAKE_COMPONENT: u64 = 2;

pub struct FakeSystem;

impl FakeSystem {
    fn new() -> FakeSystem {
        FakeSystem {}
    }
}

impl System<Comp, u64> for FakeSystem {
    fn operates_on(&self) -> Vec<u64> {
        Vec::new()
    }

    fn process(&mut self, _: &Vec<usize>, _: &mut WorldData<Comp, u64>) {}
}
