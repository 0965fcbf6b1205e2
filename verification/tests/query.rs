use std::ops::Deref;

use visora::treecs::iterators::breadth::{BreadthInfo, BreadthIter};
use visora::treecs::iterators::parent::ParentIter;
use visora::treecs::query::Query;
use visora::treecs::Treecs;

#[derive(Debug, PartialEq, Eq, PartialOrd, Ord)]
pub struct Position {
    pub x: usize,
    pub y: usize,
}

impl Position {
    pub fn new(x: usize, y: usize) -> Self {
        Self { x, y }
    }
}

#[derive(Debug, PartialEq, Eq, PartialOrd, Ord)]
pub struct Name {
    pub name: &'static str,
}

impl Name {
    pub fn new(name: &'static str) -> Self {
        Self { name }
    }
}

#[test]
fn query_breadth_first() {
    let mut world = Treecs::new();
    let entity1 = world.add(world.root()).unwrap();
    let entity2 = world.add(world.root()).unwrap();

    world.register(entity1, Position::new(0, 0));
    world.register(entity2, Position::new(1, 1));

    let entity1_1 = world.add(entity1).unwrap();
    world.register(entity1_1, Position::new(2, 2));

    let mut query: Query<&Position, BreadthIter> = Query::new(&world);
    // root doesnt have a component so is ignored
    let a = query.next();
    assert_eq!(a.as_ref().map(|x| &x.0), Some(&BreadthInfo::Other));
    assert_eq!(
        a.as_ref().map(|x| &x.1).map(|x| &**x),
        Some(&Position::new(0, 0)),
        "{:?}: {:?}",
        BreadthInfo::Other,
        &Position::new(0, 0)
    );
    let a = query.next();
    assert_eq!(a.as_ref().map(|x| &x.0), Some(&BreadthInfo::Other));
    assert_eq!(
        a.as_ref().map(|x| &x.1).map(|x| &**x),
        Some(&Position::new(2, 2)),
        "{:?}: {:?}",
        BreadthInfo::Other,
        &Position::new(2, 2)
    );
    let a = query.next();
    assert_eq!(a.as_ref().map(|x| &x.0), Some(&BreadthInfo::MoveUp));
    assert_eq!(
        a.as_ref().map(|x| &x.1).map(|x| &**x),
        Some(&Position::new(2, 2)),
        "{:?}: {:?}",
        BreadthInfo::MoveUp,
        &Position::new(2, 2)
    );
    let a = query.next();
    assert_eq!(a.as_ref().map(|x| &x.0), Some(&BreadthInfo::MoveUp));
    assert_eq!(
        a.as_ref().map(|x| &x.1).map(|x| &**x),
        Some(&Position::new(0, 0)),
        "{:?}: {:?}",
        BreadthInfo::MoveUp,
        &Position::new(0, 0)
    );
    let a = query.next();
    assert_eq!(a.as_ref().map(|x| &x.0), Some(&BreadthInfo::Other));
    assert_eq!(
        a.as_ref().map(|x| &x.1).map(|x| &**x),
        Some(&Position::new(1, 1)),
        "{:?}: {:?}",
        BreadthInfo::Other,
        &Position::new(1, 1)
    );
    let a = query.next();
    assert_eq!(a.as_ref().map(|x| &x.0), Some(&BreadthInfo::MoveUp));
    assert_eq!(
        a.as_ref().map(|x| &x.1).map(|x| &**x),
        Some(&Position::new(1, 1)),
        "{:?}: {:?}",
        BreadthInfo::MoveUp,
        &Position::new(1, 1)
    );
    let a = query.next();
    assert_eq!(a.as_ref().map(|x| &x.0), None);
    assert_eq!(a.as_ref().map(|x| &x.1).map(|x| &**x).as_deref(), None);
}

#[test]
fn query_parent() {
    let mut world = Treecs::new();
    let entity_1 = world.add(world.root()).unwrap();
    let entity_1_1 = world.add(entity_1).unwrap();
    let entity_1_1_1 = world.add(entity_1_1).unwrap();

    let entity_2 = world.add(world.root()).unwrap();
    let _entity_1_2 = world.add(entity_1).unwrap();

    world.register(entity_1, Position::new(0, 0));
    world.register(entity_2, Position::new(1, 1));
    world.register(entity_1_1_1, Position::new(2, 2));

    let mut query: Query<&Position, ParentIter> = Query::new_parent(&world, entity_1_1_1);
    assert_eq!(query.next().as_deref(), Some(&Position::new(2, 2)));
    assert_eq!(query.next().as_deref(), Some(&Position::new(0, 0)));
    assert_eq!(query.next().as_deref(), None);
}

#[test]
fn query_multiple() {
    let mut world = Treecs::new();
    let entity_1 = world.add(world.root()).unwrap();
    let entity_2 = world.add(world.root()).unwrap();
    let entity_3 = world.add(world.root()).unwrap();

    world.register(entity_1, Position::new(1, 1));
    world.register(entity_1, Name::new("entity1"));

    world.register(entity_2, Position::new(2, 2));

    world.register(entity_3, Position::new(3, 3));
    world.register(entity_3, Name::new("entity3"));

    let mut query: Query<(&Position, &Name)> = Query::new(&world);

    let a = query.next();
    let a = a.as_ref();
    assert_eq!(a.map(|x| &x.0), Some(&BreadthInfo::Other));
    assert_eq!(a.map(|x| &x.1 .0).map(|x| &**x), Some(&Position::new(1, 1)));
    assert_eq!(a.map(|x| &x.1 .1).map(|x| &**x), Some(&Name::new("entity1")));

    let a = query.next();
    let a = a.as_ref();
    assert_eq!(a.map(|x| &x.0), Some(&BreadthInfo::MoveUp));
    assert_eq!(a.map(|x| &x.1 .0).map(|x| &**x), Some(&Position::new(1, 1)));
    assert_eq!(a.map(|x| &x.1 .1).map(|x| &**x), Some(&Name::new("entity1")));

    let a = query.next();
    let a = a.as_ref();
    assert_eq!(a.map(|x| &x.0), Some(&BreadthInfo::Other));
    assert_eq!(a.map(|x| &x.1 .0).map(|x| &**x), Some(&Position::new(3, 3)));
    assert_eq!(a.map(|x| &x.1 .1).map(|x| &**x), Some(&Name::new("entity3")));

    let a = query.next();
    let a = a.as_ref();
    assert_eq!(a.map(|x| &x.0), Some(&BreadthInfo::MoveUp));
    assert_eq!(a.map(|x| &x.1 .0).map(|x| &**x), Some(&Position::new(3, 3)));
    assert_eq!(a.map(|x| &x.1 .1).map(|x| &**x), Some(&Name::new("entity3")));

    let a = query.next();
    let a = a.as_ref();
    assert_eq!(a.map(|x| &x.0), None);
    assert_eq!(a.map(|x| &x.1 .0).map(|x| &**x), None);
    assert_eq!(a.map(|x| &x.1 .1).map(|x| &**x), None);
}

#[test]
fn query_multiple_with_optional() {
    let mut world = Treecs::new();
    let entity_1 = world.add(world.root()).unwrap();
    let entity_2 = world.add(world.root()).unwrap();
    let entity_3 = world.add(world.root()).unwrap();

    world.register(entity_1, Position::new(1, 1));
    world.register(entity_1, Name::new("entity1"));

    world.register(entity_2, Position::new(2, 2));

    world.register(entity_3, Position::new(3, 3));
    world.register(entity_3, Name::new("entity3"));

    let mut query: Query<(&Position, Option<&Name>)> = Query::new(&world);

    let a = query.next();
    let a = a.as_ref();
    assert_eq!(a.map(|x| &x.0), Some(&BreadthInfo::Other));
    assert_eq!(a.map(|x| &x.1 .0).map(|x| &**x), Some(&Position::new(1, 1)));
    assert_eq!(
        a.map(|x| &x.1 .1).map(|x| x.as_ref().map(|x| x.deref())),
        Some(Some(&Name::new("entity1")))
    );

    let a = query.next();
    let a = a.as_ref();
    assert_eq!(a.map(|x| &x.0), Some(&BreadthInfo::MoveUp));
    assert_eq!(a.map(|x| &x.1 .0).map(|x| &**x), Some(&Position::new(1, 1)));
    assert_eq!(
        a.map(|x| &x.1 .1).map(|x| x.as_ref().map(|x| x.deref())),
        Some(Some(&Name::new("entity1")))
    );

    let a = query.next();
    let a = a.as_ref();
    assert_eq!(a.map(|x| &x.0), Some(&BreadthInfo::Other));
    assert_eq!(a.map(|x| &x.1 .0).map(|x| &**x), Some(&Position::new(2, 2)));
    assert_eq!(
        a.map(|x| &x.1 .1).map(|x| x.as_ref().map(|x| x.deref())),
        Some(None)
    );

    let a = query.next();
    let a = a.as_ref();
    assert_eq!(a.map(|x| &x.0), Some(&BreadthInfo::MoveUp));
    assert_eq!(a.map(|x| &x.1 .0).map(|x| &**x), Some(&Position::new(2, 2)));
    assert_eq!(
        a.map(|x| &x.1 .1).map(|x| x.as_ref().map(|x| x.deref())),
        Some(None)
    );

    let a = query.next();
    let a = a.as_ref();
    assert_eq!(a.map(|x| &x.0), Some(&BreadthInfo::Other));
    assert_eq!(a.map(|x| &x.1 .0).map(|x| &**x), Some(&Position::new(3, 3)));
    assert_eq!(
        a.map(|x| &x.1 .1).map(|x| x.as_ref().map(|x| x.deref())),
        Some(Some(&Name::new("entity3")))
    );

    let a = query.next();
    let a = a.as_ref();
    assert_eq!(a.map(|x| &x.0), Some(&BreadthInfo::MoveUp));
    assert_eq!(a.map(|x| &x.1 .0).map(|x| &**x), Some(&Position::new(3, 3)));
    assert_eq!(
        a.map(|x| &x.1 .1).map(|x| x.as_ref().map(|x| x.deref())),
        Some(Some(&Name::new("entity3")))
    );

    assert_eq!(query.next().map(|x| x.0), None);
    assert_eq!(query.next().map(|x| x.1 .0).as_deref(), None);
    assert_eq!(
        query.next().map(|x| x.1 .1).map(|x| x.map(|y| y.name)),
        None
    );
}
