use visora::treecs::linkdata::LinkData;
use visora::treecs::Treecs;

#[derive(Debug, PartialEq, Eq, PartialOrd, Ord)]
pub struct Position {
    pub x: usize,
    pub y: usize,
}

impl Position {
    pub fn new(x: usize, y: usize) -> Self {
        Self { x, y }
    }
}

#[derive(Debug, PartialEq, Eq, PartialOrd, Ord)]
pub struct Name {
    pub name: &'static str,
}

impl Name {
    pub fn new(name: &'static str) -> Self {
        Self { name }
    }
}

#[test]
fn add_child() {
    let mut world = Treecs::new();

    let entity1 = world.add(world.root()).unwrap();

    assert_eq!(world.entity_count(), 2);
    assert_eq!(
        world.linkdata(entity1),
        Some(&LinkData::new_with_parent(world.root()))
    );
    let mut iter = world.linkdata(world.root()).unwrap().children().iter();
    assert_eq!(iter.next(), Some(&entity1));
    assert_eq!(iter.next(), None);
}

#[test]
fn remove_child() {
    let mut world = Treecs::new();

    let entity1 = world.add(world.root()).unwrap();
    let entity2 = world.add(world.root()).unwrap();
    assert_eq!(world.entity_count(), 3); // includes the root node

    world.remove(entity1);
    assert_eq!(world.entity_count(), 2);

    assert_eq!(
        world.linkdata(entity2),
        Some(&LinkData::new_with_parent(world.root()))
    );
    let mut iter = world.linkdata(world.root()).unwrap().children().iter();
    assert_eq!(iter.next(), Some(&entity2));
    assert_eq!(iter.next(), None);
}

#[test]
fn get_component() {
    let mut world = Treecs::new();
    let entity1 = world.add(world.root()).unwrap();
    let entity2 = world.add(world.root()).unwrap();

    let entity1_1 = world.add(entity1).unwrap();

    world.register(entity1, Position::new(0, 0));
    world.register(entity1_1, Position::new(1, 1));
    world.register(entity1, Name::new("e1"));
    world.register(entity2, Name::new("e2"));
    assert_eq!(
        world.get_component::<Position>(entity1).as_deref(),
        Some(&Position::new(0, 0))
    );
    assert_eq!(
        world.get_component::<Position>(entity1_1).as_deref(),
        Some(&Position::new(1, 1))
    );
    assert_eq!(world.get_component::<Position>(entity2).as_deref(), None);

    assert_eq!(
        world.get_component::<Name>(entity1).as_deref(),
        Some(&Name::new("e1"))
    );
    assert_eq!(
        world.get_component::<Name>(entity2).as_deref(),
        Some(&Name::new("e2"))
    );
    assert_eq!(world.get_component::<Name>(entity1_1).as_deref(), None);
}

#[test]
fn remove_component() {
    let mut world = Treecs::new();
    let entity = world.add(world.root()).unwrap();

    world.register(entity, Position::new(1, 1));
    world.register(entity, Name::new("entity"));

    assert_eq!(
        world.get_component::<Position>(entity).as_deref(),
        Some(&Position::new(1, 1))
    );
    assert_eq!(
        world.get_component::<Name>(entity).as_deref(),
        Some(&Name::new("entity"))
    );

    let name = world.remove_component::<Name>(entity);
    assert_eq!(name, Some(Name::new("entity")));

    assert_eq!(
        world.get_component::<Position>(entity).as_deref(),
        Some(&Position::new(1, 1))
    );
    assert_eq!(world.get_component::<Name>(entity).as_deref(), None);
}
