use omni::bounded::{BoundedMap, BoundedVec};

#[test]
fn map_keeps_entries_sorted_by_id() {
    let mut map = BoundedMap::new(10);
    map.try_insert(7, 70).unwrap();
    map.try_insert(2, 20).unwrap();
    map.try_insert(5, 50).unwrap();
    assert_eq!(map.len(), 3);
    assert_eq!(map.entry_at(0), (2, 20));
    assert_eq!(map.entry_at(1), (5, 50));
    assert_eq!(map.entry_at(2), (7, 70));
    assert_eq!(map.get(5), Some(50));
    assert_eq!(map.get(6), None);
    assert!(map.contains_key(7));
    assert!(!map.contains_key(8));
}

#[test]
fn map_refuses_an_entry_beyond_its_bound() {
    let mut map = BoundedMap::new(2);
    map.try_insert(1, 10).unwrap();
    map.try_insert(2, 20).unwrap();
    let res = map.try_insert(3, 30);
    assert_eq!(res, Err(()));
    // the refused insertion changed nothing
    assert_eq!(map.len(), 2);
    assert!(!map.contains_key(3));
}

#[test]
fn map_update_and_removal_by_position() {
    let mut map = BoundedMap::new(4);
    map.try_insert(1, 10).unwrap();
    map.try_insert(2, 20).unwrap();
    map.set_count_at(0, 11);
    assert_eq!(map.get(1), Some(11));
    map.remove_at(0);
    assert!(!map.contains_key(1));
    assert_eq!(map.get(2), Some(20));
}

#[test]
fn list_refuses_a_push_beyond_its_bound() {
    let mut list = BoundedVec::new(2);
    assert_eq!(list.try_push(10), Ok(()));
    assert_eq!(list.try_push(11), Ok(()));
    assert_eq!(list.try_push(12), Err(()));
    assert_eq!(list.len(), 2);
    assert_eq!(list.get(0), 10);
    assert_eq!(list.get(1), 11);
}

#[test]
fn zero_capacity_collections_hold_nothing() {
    let mut map = BoundedMap::new(0);
    assert_eq!(map.try_insert(1, 1), Err(()));
    let mut list = BoundedVec::new(0);
    assert_eq!(list.try_push(1), Err(()));
}
