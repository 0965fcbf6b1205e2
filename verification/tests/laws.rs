use std::cmp::Ordering;
use std::collections::VecDeque;

use visora::color::Color;
use visora::treecs::children::Children;
use visora::treecs::component::ComponentStore;
use visora::treecs::entity::Entity;
use visora::treecs::iterators::breadth::{BreadthInfo, BreadthIter, Forward, Reversed};
use visora::treecs::iterators::parent::ParentIter;
use visora::treecs::linkdata::LinkData;
use visora::treecs::query::Query;
use visora::treecs::{EntityKey, Treecs};
use visora::widget::center::Center;
use visora::widget::container::EdgeInsets;
use visora::widget::text::{Align, Direction, RichText};

#[derive(Debug, PartialEq, Eq)]
struct Spot(usize, usize);

#[derive(Debug, PartialEq, Eq)]
struct Label(&'static str);

fn items(data: &Children<i32>) -> Vec<i32> {
    let mut out = Vec::new();
    let mut iter = data.iter();
    while let Some(x) = iter.next() {
        out.push(*x);
    }
    out
}

fn events(world: &Treecs) -> Vec<(BreadthInfo, EntityKey)> {
    let mut out = Vec::new();
    let mut iter = BreadthIter::<Forward>::new(world);
    while let Some(e) = iter.next() {
        out.push(e);
    }
    out
}

fn events_reversed(world: &Treecs) -> Vec<(BreadthInfo, EntityKey)> {
    let mut out = Vec::new();
    let mut iter = BreadthIter::<Reversed>::new(world);
    while let Some(e) = iter.next() {
        out.push(e);
    }
    out
}

fn position(all: &[(BreadthInfo, EntityKey)], info: BreadthInfo, key: EntityKey) -> usize {
    let mut found = Vec::new();
    for (i, e) in all.iter().enumerate() {
        if e.0 == info && e.1 == key {
            found.push(i);
        }
    }
    assert_eq!(found.len(), 1);
    found[0]
}

#[test]
fn count_follows_pushes_and_pops() {
    let mut data: Children<i32> = Children::new();
    let mut expected: Vec<i32> = Vec::new();
    let script = [1, 2, -1, 3, 4, 5, -2, -2, -1, 6, -1, -1, -1, -1, 7, 8];
    for (n, step) in script.iter().enumerate() {
        match *step {
            -1 => {
                let want = if expected.is_empty() { None } else { Some(expected.remove(0)) };
                assert_eq!(data.pop_left(), want);
            }
            -2 => {
                assert_eq!(data.pop_right(), expected.pop());
            }
            x if n % 2 == 0 => {
                data.push_left(x);
                expected.insert(0, x);
            }
            x => {
                data.push_right(x);
                expected.push(x);
            }
        }
        assert_eq!(data.get_child_count(), expected.len());
        assert_eq!(data.len(), expected.len());
        assert_eq!(data.get_left(), expected.first());
        assert_eq!(data.get_right(), expected.last());
        assert_eq!(items(&data), expected);
    }
    assert_eq!(items(&data), vec![7, 8]);
}

#[test]
fn representation_never_shrinks_out_of_other() {
    let mut data = Children::new_from([1, 2, 3]);
    assert!(matches!(data, Children::Other(_)));
    assert_eq!(data.pop_right(), Some(3));
    assert!(matches!(data, Children::Other(_)));
    assert_eq!(data.pop_left(), Some(1));
    assert_eq!(data.pop_left(), Some(2));
    assert_eq!(data.pop_left(), None);
    assert!(matches!(data, Children::Other(_)));
    assert_eq!(data.get_child_count(), 0);
    data.push_left(9);
    assert!(matches!(data, Children::Other(_)));
    assert_eq!(data.get_left(), Some(&9));
}

#[test]
fn small_representations_shrink_on_pop() {
    let mut data = Children::new_from([1, 2]);
    assert_eq!(data.pop_left(), Some(1));
    assert!(matches!(data, Children::SingleChild(2)));
    assert_eq!(data.pop_right(), Some(2));
    assert!(matches!(data, Children::NoChild));
    assert_eq!(data.pop_right(), None);
    assert!(matches!(data, Children::NoChild));
}

#[test]
fn equality_ignores_representation() {
    let mut long = Children::new_from([1, 2, 3]);
    long.pop_right();
    assert!(matches!(long, Children::Other(_)));
    let short = Children::new_from([1, 2]);
    assert!(matches!(short, Children::DoubleChild(1, 2)));
    assert!(short == long);
    assert!(long == short);
    assert_eq!(short.partial_cmp(&long), Some(Ordering::Equal));
    assert_eq!(long.partial_cmp(&short), Some(Ordering::Equal));
    assert_eq!(long.cmp(&short), Ordering::Equal);

    long.pop_right();
    assert!(Children::new_from([1]) == long);
    assert!(long == Children::new_from([1]));
    long.pop_right();
    assert!(Children::<i32>::new() == long);
    assert!(long == Children::new());
    assert!(long < Children::new_from([0]));
}

#[test]
fn total_order_is_lexicographic() {
    assert_eq!(Children::new_from([1, 2]).cmp(&Children::new_from([1, 3])), Ordering::Less);
    assert_eq!(Children::new_from([2]).cmp(&Children::new_from([1, 3])), Ordering::Greater);
    assert_eq!(Children::new_from([1]).cmp(&Children::new_from([1, 3])), Ordering::Less);
    assert_eq!(Children::new_from([1, 3, 0]).cmp(&Children::new_from([1, 3])), Ordering::Greater);
    assert_eq!(Children::<u8>::new().cmp(&Children::new()), Ordering::Equal);
}

#[test]
fn incomparable_items_make_containers_incomparable() {
    let a = Children::new_from([1.0, f64::NAN]);
    let b = Children::new_from([1.0, 2.0]);
    assert_eq!(a.partial_cmp(&b), None);
    assert!(!(a == a));
    let c = Children::new_from([0.5, f64::NAN]);
    assert_eq!(c.partial_cmp(&b), Some(Ordering::Less));
}

#[test]
fn remove_takes_the_first_match_only() {
    let mut data = Children::new_from([1, 3, 2, 3, 4]);
    assert_eq!(data.remove(3), Some(3));
    assert_eq!(items(&data), vec![1, 2, 3, 4]);
    assert_eq!(data.remove(7), None);
    assert_eq!(items(&data), vec![1, 2, 3, 4]);

    let mut two = Children::new_from([5, 5]);
    assert_eq!(two.remove(5), Some(5));
    assert!(matches!(two, Children::SingleChild(5)));
    assert_eq!(two.remove(6), None);
    assert!(matches!(two, Children::SingleChild(5)));
    assert_eq!(two.remove(5), Some(5));
    assert!(matches!(two, Children::NoChild));
    assert_eq!(two.remove(5), None);

    let mut pair = Children::new_from([1, 2]);
    assert_eq!(pair.remove(2), Some(2));
    assert!(matches!(pair, Children::SingleChild(1)));
}

#[test]
fn mutable_access_reaches_every_representation() {
    let mut one = Children::new_from([1]);
    *one.get_left_mut().unwrap() = 10;
    assert_eq!(one.get_right(), Some(&10));
    assert!(one.get_child_mut(1).is_none());

    let mut two = Children::new_from([1, 2]);
    *two.get_right_mut().unwrap() = 20;
    *two.get_child_mut(0).unwrap() = 10;
    assert_eq!(items(&two), vec![10, 20]);
    assert!(two.get_child_mut(2).is_none());

    let mut many = Children::new_from([1, 2, 3, 4]);
    *many.get_child_mut(2).unwrap() = 30;
    *many.get_left_mut().unwrap() = 10;
    *many.get_right_mut().unwrap() = 40;
    assert_eq!(items(&many), vec![10, 2, 30, 40]);
    assert!(many.get_child_mut(4).is_none());

    let mut none: Children<i32> = Children::new();
    assert!(none.get_left_mut().is_none());
    assert!(none.get_right_mut().is_none());
}

#[test]
fn iter_mut_writes_through() {
    let mut data = Children::new_from([1, 2, 3]);
    {
        let mut iter = data.iter_mut();
        while let Some(x) = iter.next() {
            *x *= 10;
        }
    }
    assert_eq!(items(&data), vec![10, 20, 30]);
}

#[test]
fn iter_runs_from_both_ends() {
    let data = Children::new_from([1, 2, 3, 4]);
    let mut iter = data.iter();
    assert_eq!(iter.size_hint(), (4, Some(4)));
    assert_eq!(iter.next_back(), Some(&4));
    assert_eq!(iter.next(), Some(&1));
    assert_eq!(iter.next_back(), Some(&3));
    assert_eq!(iter.next(), Some(&2));
    assert_eq!(iter.next(), None);
    assert_eq!(iter.next_back(), None);
    assert_eq!(iter.size_hint(), (4, Some(4)));
}

#[test]
fn from_deque_picks_the_smallest_representation() {
    assert!(matches!(Children::<u8>::from_deque(VecDeque::new()), Children::NoChild));
    assert!(matches!(Children::from_deque(VecDeque::from([7])), Children::SingleChild(7)));
    assert!(matches!(Children::from_deque(VecDeque::from([7, 8])), Children::DoubleChild(7, 8)));
    let many = Children::from_deque(VecDeque::from([7, 8, 9]));
    assert!(matches!(many, Children::Other(_)));
    assert_eq!(items(&many), vec![7, 8, 9]);
}

fn sample() -> (Treecs, EntityKey, EntityKey, EntityKey) {
    let mut world = Treecs::new();
    let a = world.add(world.root()).unwrap();
    let b = world.add(a).unwrap();
    let c = world.add(world.root()).unwrap();
    world.register(a, Spot(0, 0));
    world.register(c, Spot(1, 1));
    (world, a, b, c)
}

#[test]
fn scenario_forward_query() {
    let (world, _a, _b, _c) = sample();
    let mut query: Query<&Spot, BreadthIter> = Query::new(&world);
    let mut seen = Vec::new();
    while let Some((info, spot)) = query.next() {
        seen.push((info, spot.0, spot.1));
    }
    assert_eq!(
        seen,
        vec![
            (BreadthInfo::Other, 0, 0),
            (BreadthInfo::MoveUp, 0, 0),
            (BreadthInfo::Other, 1, 1),
            (BreadthInfo::MoveUp, 1, 1),
        ]
    );
}

#[test]
fn scenario_after_removal() {
    let (mut world, a, b, c) = sample();
    assert_eq!(world.remove(a), Some(()));
    assert!(!world.contains(a));
    assert!(!world.contains(b));
    assert!(world.contains(c));
    assert_eq!(world.entity_count(), 2);
    let mut query: Query<&Spot, BreadthIter> = Query::new(&world);
    let mut seen = Vec::new();
    while let Some((info, spot)) = query.next() {
        seen.push((info, spot.0, spot.1));
    }
    assert_eq!(seen, vec![(BreadthInfo::Other, 1, 1), (BreadthInfo::MoveUp, 1, 1)]);
}

#[test]
fn restart_and_reverse_replay_the_query() {
    let (world, _a, _b, _c) = sample();
    let mut query: Query<&Spot, BreadthIter> = Query::new(&world);
    assert_eq!(query.next().map(|x| (x.0, x.1 .0)), Some((BreadthInfo::Other, 0)));
    assert_eq!(query.next().map(|x| (x.0, x.1 .0)), Some((BreadthInfo::MoveUp, 0)));
    let mut query = query.restart();
    assert_eq!(query.next().map(|x| (x.0, x.1 .0)), Some((BreadthInfo::Other, 0)));
    let mut mirrored = query.reverse();
    let mut seen = Vec::new();
    while let Some((info, spot)) = mirrored.next() {
        seen.push((info, spot.0));
    }
    assert_eq!(
        seen,
        vec![
            (BreadthInfo::Other, 1),
            (BreadthInfo::MoveUp, 1),
            (BreadthInfo::Other, 0),
            (BreadthInfo::MoveUp, 0),
        ]
    );
    let mut forward = mirrored.reverse();
    assert_eq!(forward.next().map(|x| (x.0, x.1 .0)), Some((BreadthInfo::Other, 0)));
}

#[test]
fn removal_takes_the_whole_subtree_and_its_components() {
    let mut world = Treecs::new();
    let root = world.root();
    let a = world.add(root).unwrap();
    let a1 = world.add(a).unwrap();
    let a2 = world.add(a).unwrap();
    let a11 = world.add(a1).unwrap();
    let b = world.add(root).unwrap();
    let b1 = world.add(b).unwrap();
    for (n, k) in [a, a1, a2, a11, b, b1].iter().enumerate() {
        world.register(*k, Spot(n, n));
        world.register(*k, Label("x"));
    }
    assert_eq!(world.entity_count(), 7);

    assert_eq!(world.remove(a), Some(()));
    for k in [a, a1, a2, a11] {
        assert!(!world.contains(k));
        assert!(world.linkdata(k).is_none());
        assert!(world.get_component::<Spot>(k).is_none());
        assert!(world.get_component::<Label>(k).is_none());
        assert!(world.remove_component::<Spot>(k).is_none());
    }
    for k in [root, b, b1] {
        assert!(world.contains(k));
    }
    assert_eq!(world.get_component::<Spot>(b).as_deref(), Some(&Spot(4, 4)));
    assert_eq!(world.get_component::<Label>(b1).as_deref(), Some(&Label("x")));
    assert_eq!(world.entity_count(), 3);
    assert_eq!(world.root(), root);
    let mut kids = world.linkdata(root).unwrap().children().iter();
    assert_eq!(kids.next(), Some(&b));
    assert_eq!(kids.next(), None);
    assert_eq!(world.remove(a), None);
    assert_eq!(world.entity_count(), 3);
}

#[test]
fn removing_the_root_leaves_one_fresh_root() {
    let mut world = Treecs::new();
    let old_root = world.root();
    let a = world.add(old_root).unwrap();
    let a1 = world.add(a).unwrap();
    world.register(old_root, Spot(9, 9));
    world.register(a1, Spot(1, 1));

    assert_eq!(world.remove(old_root), Some(()));
    let new_root = world.root();
    assert_ne!(new_root, old_root);
    assert_eq!(world.entity_count(), 1);
    assert!(world.contains(new_root));
    for k in [old_root, a, a1] {
        assert!(!world.contains(k));
        assert!(world.get_component::<Spot>(k).is_none());
    }
    assert_eq!(world.linkdata(new_root), Some(&LinkData::new_empty()));
    assert_eq!(world.linkdata(new_root).unwrap().parent(), &None);
    assert_eq!(world.linkdata(new_root).unwrap().children().get_child_count(), 0);
    assert!(world.get_component::<Spot>(new_root).is_none());

    let child = world.add(new_root).unwrap();
    assert_eq!(world.linkdata(child).unwrap().parent(), &Some(new_root));
    assert_eq!(world.entity_count(), 2);
}

#[test]
fn dead_handles_are_refused() {
    let mut world = Treecs::new();
    let a = world.add(world.root()).unwrap();
    assert_eq!(world.remove(a), Some(()));
    assert_eq!(world.add(a), None);
    assert_eq!(world.remove(a), None);
    assert!(!world.contains(a));
    assert!(world.linkdata(a).is_none());
    assert!(world.linkdata_mut(a).is_none());
    assert_eq!(world.entity_count(), 1);
    assert!(Entity::new(&world, a).is_none());
    assert!(Entity::new_mut(&mut world, a).is_none());
    let again = world.add(world.root()).unwrap();
    assert_ne!(again, a);
    assert!(!world.contains(a));
}

#[test]
fn traversal_reports_every_entity_twice() {
    let mut world = Treecs::new();
    let root = world.root();
    let a = world.add(root).unwrap();
    let b = world.add(root).unwrap();
    let c = world.add(root).unwrap();
    let a1 = world.add(a).unwrap();
    let a2 = world.add(a).unwrap();
    let c1 = world.add(c).unwrap();
    let all = events(&world);
    assert_eq!(all.len(), 2 * world.entity_count());
    assert_eq!(all.iter().filter(|e| e.0 == BreadthInfo::Other).count(), 7);
    assert_eq!(all.iter().filter(|e| e.0 == BreadthInfo::MoveUp).count(), 7);
    assert_eq!(
        all,
        vec![
            (BreadthInfo::Other, root),
            (BreadthInfo::Other, a),
            (BreadthInfo::Other, a1),
            (BreadthInfo::MoveUp, a1),
            (BreadthInfo::Other, a2),
            (BreadthInfo::MoveUp, a2),
            (BreadthInfo::MoveUp, a),
            (BreadthInfo::Other, b),
            (BreadthInfo::MoveUp, b),
            (BreadthInfo::Other, c),
            (BreadthInfo::Other, c1),
            (BreadthInfo::MoveUp, c1),
            (BreadthInfo::MoveUp, c),
            (BreadthInfo::MoveUp, root),
        ]
    );
    for (parent, kids) in [(root, vec![a, b, c]), (a, vec![a1, a2]), (c, vec![c1])] {
        let enter = position(&all, BreadthInfo::Other, parent);
        let leave = position(&all, BreadthInfo::MoveUp, parent);
        assert!(enter < leave);
        for k in &kids {
            assert!(enter < position(&all, BreadthInfo::Other, *k));
            assert!(position(&all, BreadthInfo::MoveUp, *k) < leave);
        }
        for pair in kids.windows(2) {
            assert!(
                position(&all, BreadthInfo::MoveUp, pair[0])
                    < position(&all, BreadthInfo::Other, pair[1])
            );
        }
    }

    let mirrored = events_reversed(&world);
    assert_eq!(mirrored.len(), 14);
    assert_eq!(
        mirrored,
        vec![
            (BreadthInfo::Other, root),
            (BreadthInfo::Other, c),
            (BreadthInfo::Other, c1),
            (BreadthInfo::MoveUp, c1),
            (BreadthInfo::MoveUp, c),
            (BreadthInfo::Other, b),
            (BreadthInfo::MoveUp, b),
            (BreadthInfo::Other, a),
            (BreadthInfo::Other, a2),
            (BreadthInfo::MoveUp, a2),
            (BreadthInfo::Other, a1),
            (BreadthInfo::MoveUp, a1),
            (BreadthInfo::MoveUp, a),
            (BreadthInfo::MoveUp, root),
        ]
    );
}

#[test]
fn traversal_of_a_lone_root() {
    let world = Treecs::new();
    assert_eq!(
        events(&world),
        vec![(BreadthInfo::Other, world.root()), (BreadthInfo::MoveUp, world.root())]
    );
    let mut iter = BreadthIter::<Forward>::new(&world);
    assert!(iter.next().is_some());
    let mut iter = iter.restart();
    assert_eq!(iter.next(), Some((BreadthInfo::Other, world.root())));
    let mut back = iter.reverse();
    assert_eq!(back.next(), Some((BreadthInfo::Other, world.root())));
    assert_eq!(back.next(), Some((BreadthInfo::MoveUp, world.root())));
    assert_eq!(back.next(), None);
    assert_eq!(back.next(), None);
    let mut again = back.restart().reverse();
    assert_eq!(again.next(), Some((BreadthInfo::Other, world.root())));
}

#[test]
fn ancestors_end_at_the_root() {
    let mut world = Treecs::new();
    let root = world.root();
    let a = world.add(root).unwrap();
    let a1 = world.add(a).unwrap();
    let a11 = world.add(a1).unwrap();
    let _b = world.add(root).unwrap();
    for (start, want) in [
        (a11, vec![a11, a1, a, root]),
        (a, vec![a, root]),
        (root, vec![root]),
    ] {
        let mut iter = ParentIter::new(&world, start);
        let mut seen = Vec::new();
        while let Some(k) = iter.next() {
            seen.push(k);
        }
        assert_eq!(iter.next(), None);
        assert_eq!(seen, want);
        assert_eq!(seen.last(), Some(&root));
    }
    world.remove(a1);
    let mut dead = ParentIter::new(&world, a11);
    assert_eq!(dead.next(), None);
}

#[test]
fn entity_views_navigate_and_change() {
    let mut world = Treecs::new();
    let root = world.root();
    let a = world.add(root).unwrap();
    let b = world.add(root).unwrap();
    let a1 = world.add(a).unwrap();
    {
        let view = Entity::new(&world, a1).unwrap();
        assert_eq!(view.linkdata().parent(), &Some(a));
        let up = view.parent().unwrap();
        assert_eq!(up.linkdata().children().get_child(0), Some(&a1));
        let top = up.parent().unwrap();
        assert!(top.linkdata().parent().is_none());
        let second = top.child(1).unwrap();
        assert_eq!(second.linkdata(), &LinkData::new_with_parent(root));
        assert!(second.child(0).is_none());
        let top = Entity::new(&world, root).unwrap();
        assert!(top.parent().is_none());
        assert!(Entity::new(&world, root).unwrap().child(2).is_none());
    }
    {
        let mut view = Entity::new_mut(&mut world, b).unwrap();
        view.add_component(Label("b"));
        assert_eq!(view.as_ref().linkdata().parent(), &Some(root));
        assert_eq!(view.remove_component::<Label>(), Some(Label("b")));
        assert_eq!(view.remove_component::<Label>(), None);
        view.add_component(Spot(2, 2));
        assert_eq!(view.linkdata_mut().children().get_child_count(), 0);
    }
    assert_eq!(world.get_component::<Spot>(b).as_deref(), Some(&Spot(2, 2)));
    Entity::new_mut(&mut world, a).unwrap().remove();
    assert!(!world.contains(a));
    assert!(!world.contains(a1));
    assert!(world.contains(b));
}

#[test]
fn components_overwrite_and_change_in_place() {
    let mut world = Treecs::new();
    let a = world.add(world.root()).unwrap();
    world.register(a, Spot(1, 1));
    world.register(a, Spot(2, 2));
    assert_eq!(world.get_component::<Spot>(a).as_deref(), Some(&Spot(2, 2)));
    {
        let mut entry = world.get_component_mut::<Spot>(a).unwrap();
        assert_eq!(&*entry, &Spot(2, 2));
        entry.value_mut().0 = 5;
    }
    assert_eq!(world.get_component::<Spot>(a).as_deref(), Some(&Spot(5, 2)));
    assert!(world.get_component_mut::<Label>(a).is_none());
    assert_eq!(world.remove_component::<Spot>(a), Some(Spot(5, 2)));
    assert_eq!(world.remove_component::<Spot>(a), None);
    assert!(world.store().get_component::<Spot>(a).is_none());
}

#[test]
fn the_store_does_not_ask_for_live_entities() {
    let mut world = Treecs::new();
    let a = world.add(world.root()).unwrap();
    let b = world.add(world.root()).unwrap();
    world.remove(a);
    let mut store = ComponentStore::new();
    store.add_component(a, Spot(1, 2));
    store.add_component(a, Label("a"));
    store.add_component(b, Spot(3, 4));
    assert_eq!(store.get_component::<Spot>(a).as_deref(), Some(&Spot(1, 2)));
    store.remove_entity(a);
    assert!(store.get_component::<Spot>(a).is_none());
    assert!(store.get_component::<Label>(a).is_none());
    assert_eq!(store.get_component::<Spot>(b).as_deref(), Some(&Spot(3, 4)));
    assert_eq!(store.remove_component::<Spot>(b), Some(Spot(3, 4)));
    assert!(store.get_component_mut::<Spot>(b).is_none());
}

#[test]
fn linkdata_mut_writes_into_the_arena() {
    let mut world = Treecs::new();
    let root = world.root();
    let a = world.add(root).unwrap();
    let b = world.add(root).unwrap();
    {
        let link = world.linkdata_mut(root).unwrap();
        let first = link.children_mut().pop_left();
        assert_eq!(first, Some(a));
        link.children_mut().push_right(a);
        assert_eq!(link.parent_mut(), &mut None);
    }
    let mut kids = world.linkdata(root).unwrap().children().iter();
    assert_eq!(kids.next(), Some(&b));
    assert_eq!(kids.next(), Some(&a));
    assert_eq!(kids.next(), None);
}

#[test]
fn colours_pack_into_one_number() {
    let c = Color::new_hex(0x11223344);
    assert_eq!((c.red(), c.green(), c.blue(), c.alpha()), (0x11, 0x22, 0x33, 0x44));
    assert_eq!(c.value(), 0x11223344);
    let d = Color::new_argb(1, 2, 3, 4);
    assert_eq!((d.alpha(), d.red(), d.green(), d.blue()), (1, 2, 3, 4));
    assert_eq!(d.value(), 0x02030401);
    assert_eq!(Color::new_hex(0xffffff).red(), 0);
    assert_eq!(Color::new_hex(0xffffff).alpha(), 0xff);
    assert_eq!(Color::new_hex(0).value(), 0);
    assert_eq!(Color::new_hex(u32::MAX).value(), u32::MAX);
    let e = d.with_alpha(9).with_red(8).with_green(7).with_blue(6);
    assert_eq!(e.value(), 0x08070609);
    assert_eq!(d.with_green(0xff).value(), 0x02ff0401);
}

#[test]
fn insets_and_texts_keep_what_they_get() {
    let even = EdgeInsets::all(20);
    assert_eq!((even.left(), even.top(), even.right(), even.bottom()), (20, 20, 20, 20));
    assert!(even.is_even());
    assert!(EdgeInsets::all(0).is_even());

    let text = RichText::new("hello".to_owned());
    assert_eq!(text.text(), "hello");
    assert!(matches!(text.alignment(), Align::Left));
    assert!(matches!(text.direction(), Direction::LeftToRight));
    assert_eq!(text.color().value(), 0xffffff);
    let text = text
        .with_align(Align::Justify)
        .with_direction(Direction::RightToLeft)
        .with_color(Color::new_hex(0x0000ff));
    assert_eq!(text.text(), "hello");
    assert!(matches!(text.alignment(), Align::Justify));
    assert!(matches!(text.direction(), Direction::RightToLeft));
    assert_eq!(text.color().value(), 0xff);
    assert_eq!(RichText::default().text(), "");
    assert_eq!(RichText::default().color().value(), 0xffffff);

    let lorem = RichText::lorem(7);
    assert_eq!(lorem.text(), "Lorem ipsum dolor sit amet, consectetur adipiscing.");
    assert_eq!(RichText::lorem(7).text(), lorem.text());
    assert!(matches!(lorem.alignment(), Align::Left));

    let centred = Center::new(5u8);
    assert_eq!(centred.child(), &5);
}
