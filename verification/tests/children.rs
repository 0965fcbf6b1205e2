use visora::treecs::children::Children;

#[test]
fn child_count() {
    let mut data = Children::new();
    assert_eq!(data.get_child_count(), 0);

    data.push_right(1);
    assert_eq!(data.get_child_count(), 1);
    assert!(matches!(data, Children::SingleChild(1)));

    data.push_right(2);
    assert_eq!(data.get_child_count(), 2);
    assert!(matches!(data, Children::DoubleChild(1, 2)));

    data.push_right(3);
    assert_eq!(data.get_child_count(), 3);
    assert!(matches!(data, Children::Other(_)));

    data.push_right(4);
    assert_eq!(data.get_child_count(), 4);
}

#[test]
fn multi_add_children() {
    let data: Children<u8> = Children::new_from([]);
    assert!(matches!(data, Children::NoChild));

    let data = Children::new_from([1]);
    assert_eq!(data.get_child_count(), 1);
    assert!(matches!(data, Children::SingleChild(1)));

    let data = Children::new_from([1, 2]);
    assert_eq!(data.get_child_count(), 2);
    assert!(matches!(data, Children::DoubleChild(1, 2)));

    let data = Children::new_from([1, 2, 3]);
    assert_eq!(data.get_child_count(), 3);
    assert!(matches!(data, Children::Other(_)));
}

#[test]
fn get_left_child() {
    let data: Children<u8> = Children::new_from([]);
    assert_eq!(data.get_left(), None);

    let data = Children::new_from([1, 2]);
    assert_eq!(data.get_left(), Some(&1));

    let data = Children::new_from([1, 2, 3, 4, 5, 6]);
    assert_eq!(data.get_left(), Some(&1));
}

#[test]
fn get_right_child() {
    let data: Children<u8> = Children::new_from([]);
    assert_eq!(data.get_right(), None);

    let data = Children::new_from([1, 2]);
    assert_eq!(data.get_right(), Some(&2));

    let data = Children::new_from([1, 2, 3, 4, 5, 6]);
    assert_eq!(data.get_right(), Some(&6));
}

#[test]
fn get() {
    let data: Children<u8> = Children::new_from([]);
    assert_eq!(data.get_child(0), None);
    assert_eq!(data.get_child(1), None);

    let data = Children::new_from([1]);
    assert_eq!(data.get_child(0), Some(&1));
    assert_eq!(data.get_child(1), None);

    let data = Children::new_from([1, 2]);
    assert_eq!(data.get_child(0), Some(&1));
    assert_eq!(data.get_child(1), Some(&2));
    assert_eq!(data.get_child(2), None);

    let data = Children::new_from([1, 2, 3]);
    assert_eq!(data.get_child(0), Some(&1));
    assert_eq!(data.get_child(1), Some(&2));
    assert_eq!(data.get_child(2), Some(&3));
    assert_eq!(data.get_child(3), None);
}

#[test]
fn add_back() {
    let mut data = Children::new();
    assert_eq!(data.get_left(), None);

    data.push_right(5);
    assert_eq!(data.get_left(), Some(&5));
    assert_eq!(data.get_right(), Some(&5));

    data.push_right(2);
    assert_eq!(data.get_left(), Some(&5));
    assert_eq!(data.get_right(), Some(&2));
}

#[test]
fn add_front() {
    let mut data = Children::new();
    assert_eq!(data.get_left(), None);

    data.push_left(5);
    assert_eq!(data.get_left(), Some(&5));
    assert_eq!(data.get_right(), Some(&5));

    data.push_left(2);
    assert_eq!(data.get_left(), Some(&2));
    assert_eq!(data.get_right(), Some(&5));
}

#[test]
fn pop_left() {
    let mut data = Children::new_from([1, 2, 3]);
    assert_eq!(data.pop_left(), Some(1));
    assert_eq!(data.get_left(), Some(&2));
    assert_eq!(data.pop_left(), Some(2));
    assert_eq!(data.pop_left(), Some(3));
    assert_eq!(data.pop_left(), None);

    data.push_left(5);
    assert_eq!(data.get_left(), Some(&5));
    assert_eq!(data.get_right(), Some(&5));

    data.push_right(2);
    assert_eq!(data.get_left(), Some(&5));
    assert_eq!(data.get_right(), Some(&2));
}

#[test]
fn pop_right() {
    let mut data = Children::new_from([1, 2, 3]);
    assert_eq!(data.pop_right(), Some(3));
    assert_eq!(data.get_right(), Some(&2));
    assert_eq!(data.pop_right(), Some(2));
    assert_eq!(data.pop_right(), Some(1));
    assert_eq!(data.pop_right(), None);

    data.push_left(5);
    assert_eq!(data.get_left(), Some(&5));
    assert_eq!(data.get_right(), Some(&5));

    data.push_right(2);
    assert_eq!(data.get_left(), Some(&5));
    assert_eq!(data.get_right(), Some(&2));
}

#[test]
fn into_iter() {
    let data = Children::new_from([1, 2, 3]);
    let mut iter = data.into_iter();
    assert_eq!(iter.next(), Some(1));
    assert_eq!(iter.next(), Some(2));
    assert_eq!(iter.next(), Some(3));
    assert_eq!(iter.next(), None);
}

#[test]
fn iter() {
    let data = Children::new_from([1, 2, 3]);
    let mut iter = data.iter();
    assert_eq!(iter.next(), Some(&1));
    assert_eq!(iter.next(), Some(&2));
    assert_eq!(iter.next(), Some(&3));
    assert_eq!(iter.next(), None);
}

#[test]
fn iter_mut() {
    let mut data = Children::new_from([1, 2, 3]);
    let mut iter = data.iter_mut();
    assert_eq!(iter.next(), Some(&mut 1));
    assert_eq!(iter.next(), Some(&mut 2));
    assert_eq!(iter.next(), Some(&mut 3));
    assert_eq!(iter.next(), None);
}

#[test]
fn index() {
    let mut data = Children::new_from([1, 2, 3, 4]);
    assert_eq!(data[0], 1);
    assert_eq!(data[3], 4);
    *data.get_child_mut(0).unwrap() = 2;
    assert_eq!(data[0], 2);
}

#[test]
#[should_panic]
fn index_panic() {
    let data = Children::new_from([1]);
    data[1];
}

#[test]
fn eq() {
    assert_eq!(Children::<u8>::NoChild, Children::NoChild);
    assert!((Children::new_from([1]) == Children::new_from([1])) == true);
    assert!((Children::new_from([1]) == Children::new_from([2])) == false);
    assert!((Children::new_from([]) == Children::new_from([1, 2])) == false);
    assert!((Children::new_from([1]) == Children::new_from([1, 2])) == false);
    assert!((Children::new_from([1, 1]) == Children::new_from([1, 2])) == false);
    assert!((Children::new_from([0, 2]) == Children::new_from([1, 2])) == false);
    assert!((Children::new_from([1, 2]) == Children::new_from([1, 2])) == true);
    assert!((Children::new_from([1, 2, 3]) == Children::new_from([1, 2, 3])) == true);
    assert!((Children::new_from([1, 2, 2]) == Children::new_from([1, 2, 3])) == false);
}

#[test]
fn ord() {
    assert!(Children::new_from([2]) > Children::new_from([1]));
    assert!(Children::new_from([1]) < Children::new_from([2]));
    assert!(Children::new_from([]) < Children::new_from([1, 2]));
    assert!(Children::new_from([1]) < Children::new_from([1, 2]));
    assert!(Children::new_from([1, 1]) < Children::new_from([1, 2]));
    assert!(Children::new_from([5, 2]) > Children::new_from([1, 2]));
    assert!(Children::new_from([1, 2, 2]) < Children::new_from([1, 2, 3]));
}

#[test]
fn remove() {
    let mut data = Children::new_from([1, 2, 3, 4, 5]);
    data.remove(3);
    let mut iter = data.into_iter();
    assert_eq!(iter.next(), Some(1));
    assert_eq!(iter.next(), Some(2));
    assert_eq!(iter.next(), Some(4));
    assert_eq!(iter.next(), Some(5));
    assert_eq!(iter.next(), None);
}
